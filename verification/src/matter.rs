//! Front-matter parsing.
//!
//! A document may begin with a metadata block fenced by `---` lines. The
//! block is a flat mapping: `key: value` lines, an optional `tags` list
//! (either a flow list `[a, b]` or following `- item` lines), blank lines
//! and `#` comments. Values may carry one pair of surrounding quotes.
//! Missing fields default to empty values rather than failing; a document
//! without an opening fence is all body. A malformed block is an error and
//! the caller drops that one document, never the whole batch.

use vstd::prelude::*;

use crate::text::{
    chars_eq_str, chars_of, find_char, first_idx, join_from, join_from_exec, split_on, split_on_exec, string_of,
    sub_vec, trim, trim_exec, unquote, unquote_exec,
};

verus! {

/// Why a front-matter block was rejected.
#[derive(Clone, Copy, Debug, PartialEq, Eq, Structural)]
pub enum MetadataParseError {
    /// An opening `---` fence has no closing fence.
    MissingClose,
    /// A line inside the block is neither a mapping entry, a list item in a
    /// tags list, a comment, nor blank.
    BadEntry,
    /// The `tags` key carries a scalar value instead of a list.
    BadTags,
}

/// The metadata record carried by a document.
#[derive(Clone, Debug, PartialEq, Eq)]
pub struct FrontMatter {
    pub title: String,
    pub published_at: String,
    pub snippet: String,
    pub tags: Option<Vec<String>>,
}

/// Mathematical image of a [`FrontMatter`].
#[verifier::ext_equal]
pub struct FrontMatterView {
    pub title: Seq<char>,
    pub published_at: Seq<char>,
    pub snippet: Seq<char>,
    pub tags: Option<Seq<Seq<char>>>,
}

impl View for FrontMatter {
    type V = FrontMatterView;

    open spec fn view(&self) -> FrontMatterView {
        FrontMatterView {
            title: self.title@,
            published_at: self.published_at@,
            snippet: self.snippet@,
            tags: match self.tags {
                Option::Some(ts) => Option::Some(ts.deep_view()),
                Option::None => Option::None,
            },
        }
    }
}

impl FrontMatterView {
    /// The lenient default: every field empty, no tags.
    pub open spec fn empty_fm() -> FrontMatterView {
        FrontMatterView {
            title: Seq::empty(),
            published_at: Seq::empty(),
            snippet: Seq::empty(),
            tags: Option::None,
        }
    }
}

impl FrontMatter {
    /// A record with every field at its lenient default.
    pub fn empty() -> (r: FrontMatter)
        ensures
            r@ == FrontMatterView::empty_fm(),
    {
        let r = FrontMatter {
            title: String::new(),
            published_at: String::new(),
            snippet: String::new(),
            tags: Option::None,
        };
        proof {
            assert(r@ =~= FrontMatterView::empty_fm());
        }
        r
    }
}

/// Parser state while folding the lines of a block: the fields gathered so
/// far, whether a `tags:` list is open, and whether an unknown key's block
/// list is being skipped.
#[verifier::ext_equal]
pub struct FmState {
    pub title: Seq<char>,
    pub published_at: Seq<char>,
    pub snippet: Seq<char>,
    pub tags: Option<Seq<Seq<char>>>,
    pub in_tags: bool,
    pub swallow: bool,
}

pub open spec fn init_state() -> FmState {
    FmState {
        title: Seq::empty(),
        published_at: Seq::empty(),
        snippet: Seq::empty(),
        tags: Option::None,
        in_tags: false,
        swallow: false,
    }
}

pub open spec fn fm_of_state(st: FmState) -> FrontMatterView {
    FrontMatterView {
        title: st.title,
        published_at: st.published_at,
        snippet: st.snippet,
        tags: st.tags,
    }
}

/// Appends a list item to the tags gathered so far.
pub open spec fn tags_after_item(old: Option<Seq<Seq<char>>>, it: Seq<char>) -> Option<
    Seq<Seq<char>>,
> {
    match old {
        Option::Some(ts) => Option::Some(ts.push(it)),
        Option::None => Option::Some(seq![it]),
    }
}

/// The items of a flow list body, split on commas, trimmed and unquoted.
pub open spec fn flow_items(inner: Seq<char>) -> Seq<Seq<char>> {
    split_on(inner, ',').map_values(|it: Seq<char>| unquote(trim(it)))
}

/// One line of the block applied to the parser state.
pub open spec fn step(st: FmState, l: Seq<char>) -> Result<FmState, MetadataParseError> {
    let t = trim(l);
    if t.len() == 0 {
        Result::Ok(st)
    } else if t[0] == '#' {
        Result::Ok(st)
    } else if t.len() >= 2 && t[0] == '-' && t[1] == ' ' {
        if st.in_tags {
            Result::Ok(
                FmState {
                    tags: tags_after_item(st.tags, unquote(trim(t.skip(2)))),
                    ..st
                },
            )
        } else if st.swallow {
            Result::Ok(st)
        } else {
            Result::Err(MetadataParseError::BadEntry)
        }
    } else if first_idx(t, ':') < t.len() {
        let k = first_idx(t, ':');
        let key = trim(t.take(k));
        let raw = trim(t.skip(k + 1));
        if key.len() == 0 {
            Result::Err(MetadataParseError::BadEntry)
        } else if key == "tags"@ {
            if raw.len() == 0 {
                Result::Ok(FmState { tags: Option::None, in_tags: true, swallow: false, ..st })
            } else if raw.len() >= 2 && raw[0] == '[' && raw[raw.len() - 1] == ']' {
                let inner = raw.subrange(1, raw.len() - 1);
                if trim(inner).len() == 0 {
                    Result::Ok(
                        FmState {
                            tags: Option::Some(Seq::empty()),
                            in_tags: false,
                            swallow: false,
                            ..st
                        },
                    )
                } else {
                    Result::Ok(
                        FmState {
                            tags: Option::Some(flow_items(inner)),
                            in_tags: false,
                            swallow: false,
                            ..st
                        },
                    )
                }
            } else {
                Result::Err(MetadataParseError::BadTags)
            }
        } else if key == "title"@ {
            Result::Ok(FmState { title: unquote(raw), in_tags: false, swallow: false, ..st })
        } else if key == "published_at"@ {
            Result::Ok(FmState { published_at: unquote(raw), in_tags: false, swallow: false, ..st })
        } else if key == "snippet"@ {
            Result::Ok(FmState { snippet: unquote(raw), in_tags: false, swallow: false, ..st })
        } else if raw.len() == 0 {
            Result::Ok(FmState { in_tags: false, swallow: true, ..st })
        } else {
            Result::Ok(FmState { in_tags: false, swallow: false, ..st })
        }
    } else {
        Result::Err(MetadataParseError::BadEntry)
    }
}

/// The lines of the block between positions `i` and `end` folded over the
/// state, stopping at the first bad line.
pub open spec fn fold_block(
    lines: Seq<Seq<char>>,
    i: int,
    end: int,
    st: FmState,
) -> Result<FmState, MetadataParseError>
    decreases end - i,
{
    if i >= end {
        Result::Ok(st)
    } else {
        match step(st, lines[i]) {
            Result::Ok(st2) => fold_block(lines, i + 1, end, st2),
            Result::Err(e) => Result::Err(e),
        }
    }
}

/// A fence line: three hyphens, up to surrounding whitespace (so a
/// carriage return before the line break does not hide the fence).
pub open spec fn is_delim_line(l: Seq<char>) -> bool {
    trim(l) == seq!['-', '-', '-']
}

/// Position of the first fence line at or after `i`.
pub open spec fn find_delim(lines: Seq<Seq<char>>, i: int) -> Option<int>
    decreases lines.len() - i,
{
    if i < 0 || i >= lines.len() {
        Option::None
    } else if is_delim_line(lines[i]) {
        Option::Some(i)
    } else {
        find_delim(lines, i + 1)
    }
}

/// What parsing a whole document yields: its metadata record and its body,
/// or the error that rejects it.
pub open spec fn parse_spec(text: Seq<char>) -> Result<
    (FrontMatterView, Seq<char>),
    MetadataParseError,
> {
    let lines = split_on(text, '\n');
    if !is_delim_line(lines[0]) {
        Result::Ok((FrontMatterView::empty_fm(), text))
    } else {
        match find_delim(lines, 1) {
            Option::None => Result::Err(MetadataParseError::MissingClose),
            Option::Some(j) => match fold_block(lines, 1, j, init_state()) {
                Result::Ok(st) => Result::Ok((fm_of_state(st), join_from(lines, j + 1, '\n'))),
                Result::Err(e) => Result::Err(e),
            },
        }
    }
}

fn is_delim_exec(l: &Vec<char>) -> (r: bool)
    ensures
        r == is_delim_line(l@),
{
    let t = trim_exec(l);
    let r = t.len() == 3 && t[0] == '-' && t[1] == '-' && t[2] == '-';
    proof {
        if r {
            assert(t@ =~= seq!['-', '-', '-']);
        }
    }
    r
}

/// Splits a raw document into its metadata record and its body.
///
/// Exactly [`parse_spec`] on the document's characters: a document without
/// an opening fence is all body with default metadata; a fence without a
/// closing fence, a line of no recognized shape, and a scalar `tags` value
/// are the three errors.
#[verifier::loop_isolation(false)]
pub fn parse_front_matter(text: &str) -> (r: Result<(FrontMatter, String), MetadataParseError>)
    ensures
        r matches Result::Ok(p) ==> parse_spec(text@) == Result::Ok::<
            (FrontMatterView, Seq<char>),
            MetadataParseError,
        >((p.0@, p.1@)),
        r matches Result::Err(e) ==> parse_spec(text@) == Result::Err::<
            (FrontMatterView, Seq<char>),
            MetadataParseError,
        >(e),
{
    let cs = chars_of(text);
    let lines = split_on_exec(&cs, '\n');
    let ghost lv = lines.deep_view();
    proof {
        assert(lv[0] == lines@[0]@);
    }
    if !is_delim_exec(&lines[0]) {
        let fm = FrontMatter::empty();
        let body = string_of(&cs);
        return Result::Ok((fm, body));
    }
    // Find the closing fence.
    let mut j: usize = 1;
    loop
        invariant
            1 <= j <= lines.len(),
            lv == lines.deep_view(),
            lv.len() == lines.len(),
            find_delim(lv, 1) == find_delim(lv, j as int),
        decreases lines.len() - j,
    {
        if j == lines.len() {
            return Result::Err(MetadataParseError::MissingClose);
        }
        proof {
            assert(lv[j as int] == lines@[j as int]@);
        }
        if is_delim_exec(&lines[j]) {
            break ;
        }
        j = j + 1;
    }
    // Fold the block lines into the parser state.
    let mut title: Vec<char> = Vec::new();
    let mut published_at: Vec<char> = Vec::new();
    let mut snippet: Vec<char> = Vec::new();
    let mut tags: Vec<Vec<char>> = Vec::new();
    let mut has_tags: bool = false;
    let mut in_tags: bool = false;
    let mut swallow: bool = false;
    let mut i: usize = 1;
    proof {
        let st0 = FmState {
            title: title@,
            published_at: published_at@,
            snippet: snippet@,
            tags: Option::None,
            in_tags: false,
            swallow: false,
        };
        assert(st0 =~~= init_state());
    }
    while i < j
        invariant
            1 <= i <= j < lines.len(),
            lv == lines.deep_view(),
            lv.len() == lines.len(),
            is_delim_line(lv[0]),
            find_delim(lv, 1) == Option::Some(j as int),
            fold_block(lv, 1, j as int, init_state()) == fold_block(
                lv,
                i as int,
                j as int,
                FmState {
                    title: title@,
                    published_at: published_at@,
                    snippet: snippet@,
                    tags: if has_tags {
                        Option::Some(tags.deep_view())
                    } else {
                        Option::None
                    },
                    in_tags: in_tags,
                    swallow: swallow,
                },
            ),
        decreases j - i,
    {
        let ghost st = FmState {
            title: title@,
            published_at: published_at@,
            snippet: snippet@,
            tags: if has_tags {
                Option::Some(tags.deep_view())
            } else {
                Option::None
            },
            in_tags: in_tags,
            swallow: swallow,
        };
        proof {
            assert(lv[i as int] == lines@[i as int]@);
        }
        let t = trim_exec(&lines[i]);
        if t.len() == 0 {
            // blank: nothing changes
        } else if t[0] == '#' {
            // comment: nothing changes
        } else if t.len() >= 2 && t[0] == '-' && t[1] == ' ' {
            if in_tags {
                let rest = sub_vec(&t, 2, t.len());
                proof {
                    assert(rest@ =~= t@.skip(2));
                }
                let trimmed = trim_exec(&rest);
                let it = unquote_exec(&trimmed);
                let ghost old_tags = tags.deep_view();
                if has_tags {
                    tags.push(it);
                    proof {
                        assert(tags.deep_view() =~~= old_tags.push(it@));
                    }
                } else {
                    let mut nv: Vec<Vec<char>> = Vec::new();
                    nv.push(it);
                    proof {
                        assert(nv.deep_view() =~~= seq![it@]);
                    }
                    tags = nv;
                    has_tags = true;
                }
            } else if swallow {
                // ignored list item under an unknown key
            } else {
                proof {
                    assert(step(st, lv[i as int]) == Result::Err::<FmState, MetadataParseError>(
                        MetadataParseError::BadEntry,
                    ));
                }
                return Result::Err(MetadataParseError::BadEntry);
            }
        } else {
            let k = find_char(&t, ':');
            if k == t.len() {
                proof {
                    assert(step(st, lv[i as int]) == Result::Err::<FmState, MetadataParseError>(
                        MetadataParseError::BadEntry,
                    ));
                }
                return Result::Err(MetadataParseError::BadEntry);
            }
            let key_part = sub_vec(&t, 0, k);
            let raw_part = sub_vec(&t, k + 1, t.len());
            proof {
                assert(key_part@ =~= t@.take(k as int));
                assert(raw_part@ =~= t@.skip(k as int + 1));
            }
            let key = trim_exec(&key_part);
            let raw = trim_exec(&raw_part);
            if key.len() == 0 {
                proof {
                    assert(step(st, lv[i as int]) == Result::Err::<FmState, MetadataParseError>(
                        MetadataParseError::BadEntry,
                    ));
                }
                return Result::Err(MetadataParseError::BadEntry);
            }
            if chars_eq_str(&key, "tags") {
                if raw.len() == 0 {
                    tags = Vec::new();
                    has_tags = false;
                    in_tags = true;
                    swallow = false;
                } else if raw.len() >= 2 && raw[0] == '[' && raw[raw.len() - 1] == ']' {
                    let inner = sub_vec(&raw, 1, raw.len() - 1);
                    proof {
                        assert(inner@ =~= raw@.subrange(1, raw@.len() - 1));
                    }
                    let tin = trim_exec(&inner);
                    if tin.len() == 0 {
                        tags = Vec::new();
                        has_tags = true;
                        in_tags = false;
                        swallow = false;
                        proof {
                            assert(tags.deep_view() =~~= Seq::<Seq<char>>::empty());
                        }
                    } else {
                        let pieces = split_on_exec(&inner, ',');
                        let mut nv: Vec<Vec<char>> = Vec::new();
                        let mut p: usize = 0;
                        proof {
                            assert(nv.deep_view() =~~= flow_items(inner@).take(0));
                        }
                        while p < pieces.len()
                            invariant
                                p <= pieces.len(),
                                pieces.deep_view() == split_on(inner@, ','),
                                nv.deep_view() == flow_items(inner@).take(p as int),
                            decreases pieces.len() - p,
                        {
                            proof {
                                assert(pieces.deep_view()[p as int] == pieces@[p as int]@);
                            }
                            let tp = trim_exec(&pieces[p]);
                            let up = unquote_exec(&tp);
                            let ghost old_nv = nv.deep_view();
                            nv.push(up);
                            proof {
                                assert(flow_items(inner@)[p as int] == unquote(
                                    trim(split_on(inner@, ',')[p as int]),
                                ));
                                assert(nv.deep_view() =~~= old_nv.push(up@));
                                assert(nv.deep_view() =~~= flow_items(inner@).take(p + 1));
                            }
                            p = p + 1;
                        }
                        proof {
                            assert(flow_items(inner@).take(pieces.deep_view().len() as int)
                                =~~= flow_items(inner@));
                        }
                        tags = nv;
                        has_tags = true;
                        in_tags = false;
                        swallow = false;
                    }
                } else {
                    proof {
                        assert(step(st, lv[i as int]) == Result::Err::<FmState, MetadataParseError>(
                            MetadataParseError::BadTags,
                        ));
                    }
                    return Result::Err(MetadataParseError::BadTags);
                }
            } else if chars_eq_str(&key, "title") {
                title = unquote_exec(&raw);
                in_tags = false;
                swallow = false;
            } else if chars_eq_str(&key, "published_at") {
                published_at = unquote_exec(&raw);
                in_tags = false;
                swallow = false;
            } else if chars_eq_str(&key, "snippet") {
                snippet = unquote_exec(&raw);
                in_tags = false;
                swallow = false;
            } else if raw.len() == 0 {
                in_tags = false;
                swallow = true;
            } else {
                in_tags = false;
                swallow = false;
            }
        }
        proof {
            let st2 = FmState {
                title: title@,
                published_at: published_at@,
                snippet: snippet@,
                tags: if has_tags {
                    Option::Some(tags.deep_view())
                } else {
                    Option::None
                },
                in_tags: in_tags,
                swallow: swallow,
            };
            assert(step(st, lv[i as int]) == Result::Ok::<FmState, MetadataParseError>(st2));
        }
        i = i + 1;
    }
    // Assemble the record and the body.
    let fm_title = string_of(&title);
    let fm_published = string_of(&published_at);
    let fm_snippet = string_of(&snippet);
    let fm_tags: Option<Vec<String>> = if has_tags {
        let mut out: Vec<String> = Vec::new();
        let mut p: usize = 0;
        while p < tags.len()
            invariant
                p <= tags.len(),
                out.deep_view() == tags.deep_view().take(p as int),
            decreases tags.len() - p,
        {
            proof {
                assert(tags.deep_view()[p as int] == tags@[p as int]@);
            }
            let s = string_of(&tags[p]);
            let ghost old_out = out.deep_view();
            out.push(s);
            proof {
                assert(out.deep_view() =~~= old_out.push(s@));
                assert(out.deep_view() =~~= tags.deep_view().take(p + 1));
            }
            p = p + 1;
        }
        proof {
            assert(tags.deep_view().take(tags.deep_view().len() as int) =~~= tags.deep_view());
        }
        Option::Some(out)
    } else {
        Option::None
    };
    let fm = FrontMatter {
        title: fm_title,
        published_at: fm_published,
        snippet: fm_snippet,
        tags: fm_tags,
    };
    let body_chars = join_from_exec(&lines, j + 1, '\n');
    let body = string_of(&body_chars);
    proof {
        let st_final = FmState {
            title: title@,
            published_at: published_at@,
            snippet: snippet@,
            tags: if has_tags {
                Option::Some(tags.deep_view())
            } else {
                Option::None
            },
            in_tags: in_tags,
            swallow: swallow,
        };
        assert(fold_block(lv, j as int, j as int, st_final) == Result::Ok::<
            FmState,
            MetadataParseError,
        >(st_final));
        assert(fm@ =~~= fm_of_state(st_final));
        assert(parse_spec(text@) == Result::Ok::<(FrontMatterView, Seq<char>), MetadataParseError>(
            (fm@, body@),
        ));
    }
    Result::Ok((fm, body))
}

} // verus!
