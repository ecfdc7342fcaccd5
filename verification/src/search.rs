//! Query-side helpers behind the article pages: the search filter over
//! the article list, the year/month route segments of a date string, and
//! the alphabetical tag cloud.

use vstd::prelude::*;

use crate::repo::{Article, ArticleView};
use crate::slug::{lower_of, lowercase};
use crate::tags::{has_tag, has_tag_exec, TagIndex};
use crate::text::{
    chars_le, chars_of, seq_le, split_on, split_on_exec, string_of, sub_vec,
};
use crate::toc::{char_run, char_run_exec};

verus! {

/// `needle` occurs contiguously somewhere in `hay`.
pub open spec fn contains_sub(hay: Seq<char>, needle: Seq<char>) -> bool {
    exists|o: int|
        0 <= o <= hay.len() - needle.len() && #[trigger] hay.subrange(o, o + needle.len())
            == needle
}

/// Naive substring search deciding [`contains_sub`].
#[verifier::loop_isolation(false)]
pub fn contains_sub_exec(hay: &Vec<char>, needle: &Vec<char>) -> (r: bool)
    ensures
        r == contains_sub(hay@, needle@),
{
    if needle.len() > hay.len() {
        return false;
    }
    let mut o: usize = 0;
    while o <= hay.len() - needle.len()
        invariant
            o <= hay.len() - needle.len() + 1,
            needle.len() <= hay.len(),
            forall|o2: int|
                0 <= o2 < o ==> #[trigger] hay@.subrange(o2, o2 + needle@.len()) != needle@,
        decreases hay.len() - needle.len() + 1 - o,
    {
        let mut k: usize = 0;
        while k < needle.len() && hay[o + k] == needle[k]
            invariant
                k <= needle.len(),
                o + needle.len() <= hay.len(),
                forall|m: int| 0 <= m < k ==> hay@[o + m] == needle@[m],
            decreases needle.len() - k,
        {
            k = k + 1;
        }
        if k == needle.len() {
            proof {
                assert(hay@.subrange(o as int, o + needle@.len()) =~= needle@);
            }
            return true;
        }
        proof {
            assert(hay@.subrange(o as int, o + needle@.len())[k as int] != needle@[k as int]);
        }
        o = o + 1;
    }
    false
}

/// Whether the lowered query occurs in the article's lowered title or
/// snippet.
pub open spec fn text_match(a: ArticleView, lq: Seq<char>) -> bool {
    contains_sub(lower_of(a.matter.title), lq) || contains_sub(lower_of(a.matter.snippet), lq)
}

/// Whether an article survives the search query, already lowercased: an
/// empty query keeps everything; a query opening with `#` matches a tag,
/// hash marks stripped; any other query matches title or snippet text.
pub open spec fn keep_article(a: ArticleView, lq: Seq<char>) -> bool {
    if lq.len() == 0 {
        true
    } else if lq[0] == '#' {
        has_tag(a, lq.skip(char_run(lq, '#', 0)))
    } else {
        text_match(a, lq)
    }
}

/// The articles surviving the search query, in their given order.
pub open spec fn search_results(s: Seq<ArticleView>, q: Seq<char>) -> Seq<ArticleView>
    decreases s.len(),
{
    if s.len() == 0 {
        Seq::empty()
    } else if keep_article(s[0], lower_of(q)) {
        seq![s[0]] + search_results(s.drop_first(), q)
    } else {
        search_results(s.drop_first(), q)
    }
}

/// Filters the article list by a search query: empty keeps all, `#tag`
/// matches tags case-insensitively, anything else searches title and
/// snippet case-insensitively.
#[verifier::loop_isolation(false)]
pub fn filter_articles(articles: &Vec<Article>, query: &str) -> (r: Vec<Article>)
    ensures
        r.deep_view() == search_results(articles.deep_view(), query@),
{
    let ghost av = articles.deep_view();
    let lq = lowercase(query);
    let lqc = chars_of(lq.as_str());
    // The tag target, used only when the query opens with hash marks.
    let h = char_run_exec(&lqc, '#', 0);
    let target_vec = sub_vec(&lqc, h, lqc.len());
    let target = string_of(&target_vec);
    proof {
        assert(target@ =~= lower_of(query@).skip(char_run(lower_of(query@), '#', 0)));
    }
    let mut out: Vec<Article> = Vec::new();
    let mut i: usize = 0;
    proof {
        assert(av.skip(0) =~~= av);
        assert(out.deep_view() =~~= Seq::<ArticleView>::empty());
    }
    while i < articles.len()
        invariant
            i <= articles.len(),
            av == articles.deep_view(),
            search_results(av, query@) == out.deep_view() + search_results(
                av.skip(i as int),
                query@,
            ),
        decreases articles.len() - i,
    {
        proof {
            assert(av.skip(i as int)[0] == av[i as int]);
            assert(av.skip(i as int).drop_first() =~~= av.skip(i as int + 1));
        }
        let keep: bool = if lqc.len() == 0 {
            true
        } else if lqc[0] == '#' {
            has_tag_exec(&articles[i], target.as_str())
        } else {
            let lt = lowercase(articles[i].matter.title.as_str());
            let ltc = chars_of(lt.as_str());
            if contains_sub_exec(&ltc, &lqc) {
                true
            } else {
                let ls = lowercase(articles[i].matter.snippet.as_str());
                let lsc = chars_of(ls.as_str());
                contains_sub_exec(&lsc, &lqc)
            }
        };
        proof {
            assert(keep == keep_article(av[i as int], lower_of(query@)));
        }
        if keep {
            let ghost old_out = out.deep_view();
            let x = articles[i].duplicate();
            out.push(x);
            proof {
                assert(out.deep_view() =~~= old_out.push(av[i as int]));
                assert(search_results(av.skip(i as int), query@) =~~= seq![av[i as int]]
                    + search_results(av.skip(i as int + 1), query@));
            }
        }
        i = i + 1;
    }
    proof {
        assert(search_results(av.skip(av.len() as int), query@) =~~= Seq::<ArticleView>::empty());
    }
    out
}

/// The year and month route segments of a `published_at` string: its
/// first two `-`-separated fields, the month falling back to `00`.
pub open spec fn route_year(s: Seq<char>) -> Seq<char> {
    split_on(s, '-')[0]
}

/// The month route segment.
pub open spec fn route_month(s: Seq<char>) -> Seq<char> {
    if split_on(s, '-').len() >= 2 {
        split_on(s, '-')[1]
    } else {
        "00"@
    }
}

/// Splits a `published_at` string into the year and month segments its
/// article route uses.
pub fn route_date_parts(published_at: &str) -> (r: (String, String))
    ensures
        r.0@ == route_year(published_at@),
        r.1@ == route_month(published_at@),
{
    let cs = chars_of(published_at);
    let fields = split_on_exec(&cs, '-');
    proof {
        assert(fields.deep_view()[0] == fields@[0]@);
    }
    let year = string_of(&fields[0]);
    let month: String = if fields.len() >= 2 {
        proof {
            assert(fields.deep_view()[1] == fields@[1]@);
        }
        string_of(&fields[1])
    } else {
        String::from_str("00")
    };
    (year, month)
}

/// A `(tag, count)` pair may stand before another when its tag is not the
/// larger one.
pub open spec fn pair_le(a: (Seq<char>, usize), b: (Seq<char>, usize)) -> bool {
    seq_le(a.0, b.0)
}

/// Sorted ascending by tag: every adjacent pair is in order.
pub open spec fn sorted_asc(s: Seq<(Seq<char>, usize)>) -> bool {
    forall|i: int| 0 <= i < s.len() - 1 ==> pair_le(#[trigger] s[i], s[i + 1])
}

/// Stable ascending insertion by tag name.
pub open spec fn insert_asc(x: (Seq<char>, usize), s: Seq<(Seq<char>, usize)>) -> Seq<
    (Seq<char>, usize),
>
    decreases s.len(),
{
    if s.len() == 0 {
        seq![x]
    } else if seq_le(s[0].0, x.0) {
        seq![s[0]] + insert_asc(x, s.drop_first())
    } else {
        seq![x] + s
    }
}

/// Stable ascending insertion sort by tag name.
pub open spec fn sort_asc(s: Seq<(Seq<char>, usize)>) -> Seq<(Seq<char>, usize)>
    decreases s.len(),
{
    if s.len() == 0 {
        Seq::empty()
    } else {
        insert_asc(s.last(), sort_asc(s.drop_last()))
    }
}

proof fn lemma_insert_asc_sorted(x: (Seq<char>, usize), s: Seq<(Seq<char>, usize)>)
    requires
        sorted_asc(s),
    ensures
        sorted_asc(insert_asc(x, s)),
        insert_asc(x, s).len() == s.len() + 1,
    decreases s.len(),
{
    if s.len() == 0 {
    } else if seq_le(s[0].0, x.0) {
        assert(sorted_asc(s.drop_first())) by {
            assert(forall|i: int|
                0 <= i < s.drop_first().len() - 1 ==> pair_le(
                    #[trigger] s.drop_first()[i],
                    s.drop_first()[i + 1],
                ));
        }
        lemma_insert_asc_sorted(x, s.drop_first());
        let t = insert_asc(x, s.drop_first());
        let r = seq![s[0]] + t;
        assert forall|i: int| 0 <= i < r.len() - 1 implies pair_le(#[trigger] r[i], r[i + 1]) by {
            if i == 0 {
                if s.drop_first().len() == 0 {
                    assert(r[1] == x);
                } else if seq_le(s.drop_first()[0].0, x.0) {
                    assert(t[0] == s.drop_first()[0]);
                    assert(pair_le(s[0], s[1]));
                } else {
                    assert(t[0] == x);
                }
            } else {
                assert(r[i] == t[i - 1]);
                assert(r[i + 1] == t[i]);
            }
        }
    } else {
        crate::text::lemma_seq_le_total(s[0].0, x.0);
        let r = seq![x] + s;
        assert forall|i: int| 0 <= i < r.len() - 1 implies pair_le(#[trigger] r[i], r[i + 1]) by {
            if i == 0 {
                assert(r[1] == s[0]);
            } else {
                assert(r[i] == s[i - 1]);
                assert(r[i + 1] == s[i]);
            }
        }
    }
}

/// The insertion sort yields an ascending sequence of the same length.
pub proof fn lemma_sort_asc_sorted(s: Seq<(Seq<char>, usize)>)
    ensures
        sorted_asc(sort_asc(s)),
        sort_asc(s).len() == s.len(),
    decreases s.len(),
{
    if s.len() > 0 {
        lemma_sort_asc_sorted(s.drop_last());
        lemma_insert_asc_sorted(s.last(), sort_asc(s.drop_last()));
    }
}

proof fn lemma_insert_asc_at(x: (Seq<char>, usize), s: Seq<(Seq<char>, usize)>, p: int)
    requires
        0 <= p <= s.len(),
        forall|j: int| 0 <= j < p ==> seq_le((#[trigger] s[j]).0, x.0),
        p < s.len() ==> !seq_le(s[p].0, x.0),
    ensures
        insert_asc(x, s) == s.take(p) + seq![x] + s.skip(p),
    decreases p,
{
    if s.len() == 0 {
        assert(insert_asc(x, s) =~= s.take(0) + seq![x] + s.skip(0));
    } else if p == 0 {
        assert(insert_asc(x, s) =~= s.take(0) + seq![x] + s.skip(0));
    } else {
        lemma_insert_asc_at(x, s.drop_first(), p - 1);
        assert(insert_asc(x, s) == seq![s[0]] + insert_asc(x, s.drop_first()));
        assert(seq![s[0]] + (s.drop_first().take(p - 1) + seq![x] + s.drop_first().skip(p - 1))
            =~= s.take(p) + seq![x] + s.skip(p));
    }
}

/// The `(tag, count)` pairs of the index.
pub open spec fn tag_pairs(ev: Seq<(Seq<char>, Seq<ArticleView>)>) -> Seq<(Seq<char>, usize)> {
    ev.map_values(|e: (Seq<char>, Seq<ArticleView>)| (e.0, e.1.len() as usize))
}

/// The tag cloud: every tag of the index with its article count, sorted
/// ascending by tag name.
#[verifier::loop_isolation(false)]
pub fn tag_names_sorted(index: &TagIndex) -> (r: Vec<(String, usize)>)
    ensures
        r.deep_view() == sort_asc(tag_pairs(index@)),
        sorted_asc(r.deep_view()),
{
    let ghost pairs = tag_pairs(index@);
    let mut out: Vec<(String, usize)> = Vec::new();
    let mut i: usize = 0;
    proof {
        assert(pairs.take(0) =~~= Seq::<(Seq<char>, usize)>::empty());
        assert(out.deep_view() =~~= sort_asc(pairs.take(0)));
    }
    while i < index.len()
        invariant
            i <= index@.len(),
            pairs == tag_pairs(index@),
            pairs.len() == index@.len(),
            out.deep_view() == sort_asc(pairs.take(i as int)),
            out.len() == i,
        decreases index@.len() - i,
    {
        let name = index.tag_at_index(i).clone();
        let count = index.articles_at_index(i).len();
        let x = (name, count);
        proof {
            assert(x.deep_view() == pairs[i as int]);
        }
        let xc = chars_of(x.0.as_str());
        let mut p: usize = 0;
        loop
            invariant
                p <= out.len(),
                out.deep_view() == sort_asc(pairs.take(i as int)),
                out.len() == i,
                i < index@.len(),
                x.deep_view() == pairs[i as int],
                xc@ == x.0@,
                forall|j: int|
                    0 <= j < p ==> seq_le((#[trigger] out.deep_view()[j]).0, pairs[i as int].0),
            decreases out.len() - p,
        {
            if p == out.len() {
                break ;
            }
            proof {
                assert(out.deep_view()[p as int].0 == out@[p as int].0@);
            }
            let oc = chars_of(out[p].0.as_str());
            if !chars_le(&oc, &xc) {
                break ;
            }
            p = p + 1;
        }
        let ghost old_view = out.deep_view();
        out.insert(p, x);
        proof {
            assert(out.deep_view() =~~= old_view.take(p as int) + seq![pairs[i as int]]
                + old_view.skip(p as int));
            lemma_insert_asc_at(pairs[i as int], old_view, p as int);
            assert(pairs.take(i + 1).drop_last() =~~= pairs.take(i as int));
            assert(pairs.take(i + 1).last() == pairs[i as int]);
            assert(sort_asc(pairs.take(i + 1)) == insert_asc(
                pairs[i as int],
                sort_asc(pairs.take(i as int)),
            ));
            assert(out.deep_view() =~~= sort_asc(pairs.take(i + 1)));
        }
        i = i + 1;
    }
    proof {
        assert(pairs.take(pairs.len() as int) =~~= pairs);
        lemma_sort_asc_sorted(pairs);
    }
    out
}

/// Tag order for display: by the lowercase form of the tag.
pub open spec fn tag_le(a: Seq<char>, b: Seq<char>) -> bool {
    seq_le(lower_of(a), lower_of(b))
}

/// Sorted ascending by lowercase tag: every adjacent pair is in order.
pub open spec fn sorted_tags(s: Seq<Seq<char>>) -> bool {
    forall|i: int| 0 <= i < s.len() - 1 ==> tag_le(#[trigger] s[i], s[i + 1])
}

/// Stable ascending insertion by lowercase tag.
pub open spec fn insert_tag(x: Seq<char>, s: Seq<Seq<char>>) -> Seq<Seq<char>>
    decreases s.len(),
{
    if s.len() == 0 {
        seq![x]
    } else if tag_le(s[0], x) {
        seq![s[0]] + insert_tag(x, s.drop_first())
    } else {
        seq![x] + s
    }
}

/// Stable ascending insertion sort by lowercase tag.
pub open spec fn sort_tags(s: Seq<Seq<char>>) -> Seq<Seq<char>>
    decreases s.len(),
{
    if s.len() == 0 {
        Seq::empty()
    } else {
        insert_tag(s.last(), sort_tags(s.drop_last()))
    }
}

proof fn lemma_insert_tag_sorted(x: Seq<char>, s: Seq<Seq<char>>)
    requires
        sorted_tags(s),
    ensures
        sorted_tags(insert_tag(x, s)),
        insert_tag(x, s).len() == s.len() + 1,
    decreases s.len(),
{
    if s.len() == 0 {
    } else if tag_le(s[0], x) {
        assert(sorted_tags(s.drop_first())) by {
            assert(forall|i: int|
                0 <= i < s.drop_first().len() - 1 ==> tag_le(
                    #[trigger] s.drop_first()[i],
                    s.drop_first()[i + 1],
                ));
        }
        lemma_insert_tag_sorted(x, s.drop_first());
        let t = insert_tag(x, s.drop_first());
        let r = seq![s[0]] + t;
        assert forall|i: int| 0 <= i < r.len() - 1 implies tag_le(#[trigger] r[i], r[i + 1]) by {
            if i == 0 {
                if s.drop_first().len() == 0 {
                    assert(r[1] == x);
                } else if tag_le(s.drop_first()[0], x) {
                    assert(t[0] == s.drop_first()[0]);
                    assert(tag_le(s[0], s[1]));
                } else {
                    assert(t[0] == x);
                }
            } else {
                assert(r[i] == t[i - 1]);
                assert(r[i + 1] == t[i]);
            }
        }
    } else {
        crate::text::lemma_seq_le_total(lower_of(s[0]), lower_of(x));
        let r = seq![x] + s;
        assert forall|i: int| 0 <= i < r.len() - 1 implies tag_le(#[trigger] r[i], r[i + 1]) by {
            if i == 0 {
                assert(r[1] == s[0]);
            } else {
                assert(r[i] == s[i - 1]);
                assert(r[i + 1] == s[i]);
            }
        }
    }
}

/// The tag sort yields an ascending sequence of the same length.
pub proof fn lemma_sort_tags_sorted(s: Seq<Seq<char>>)
    ensures
        sorted_tags(sort_tags(s)),
        sort_tags(s).len() == s.len(),
    decreases s.len(),
{
    if s.len() > 0 {
        lemma_sort_tags_sorted(s.drop_last());
        lemma_insert_tag_sorted(s.last(), sort_tags(s.drop_last()));
    }
}

proof fn lemma_insert_tag_at(x: Seq<char>, s: Seq<Seq<char>>, p: int)
    requires
        0 <= p <= s.len(),
        forall|j: int| 0 <= j < p ==> tag_le(#[trigger] s[j], x),
        p < s.len() ==> !tag_le(s[p], x),
    ensures
        insert_tag(x, s) == s.take(p) + seq![x] + s.skip(p),
    decreases p,
{
    if s.len() == 0 {
        assert(insert_tag(x, s) =~~= s.take(0) + seq![x] + s.skip(0));
    } else if p == 0 {
        assert(insert_tag(x, s) =~~= s.take(0) + seq![x] + s.skip(0));
    } else {
        lemma_insert_tag_at(x, s.drop_first(), p - 1);
        assert(insert_tag(x, s) == seq![s[0]] + insert_tag(x, s.drop_first()));
        assert(seq![s[0]] + (s.drop_first().take(p - 1) + seq![x] + s.drop_first().skip(p - 1))
            =~~= s.take(p) + seq![x] + s.skip(p));
    }
}

/// One article's tag list sorted for display, ascending by the lowercase
/// form of each tag, ties kept stable.
#[verifier::loop_isolation(false)]
pub fn sort_article_tags(tags: &Vec<String>) -> (r: Vec<String>)
    ensures
        r.deep_view() == sort_tags(tags.deep_view()),
        sorted_tags(r.deep_view()),
{
    let ghost tv = tags.deep_view();
    let mut out: Vec<String> = Vec::new();
    let mut i: usize = 0;
    proof {
        assert(tv.take(0) =~~= Seq::<Seq<char>>::empty());
        assert(out.deep_view() =~~= sort_tags(tv.take(0)));
    }
    while i < tags.len()
        invariant
            i <= tags.len(),
            tv == tags.deep_view(),
            out.deep_view() == sort_tags(tv.take(i as int)),
            out.len() == i,
        decreases tags.len() - i,
    {
        let x = tags[i].clone();
        proof {
            assert(x@ == tv[i as int]);
        }
        let xl = lowercase(x.as_str());
        let mut p: usize = 0;
        loop
            invariant
                p <= out.len(),
                out.deep_view() == sort_tags(tv.take(i as int)),
                out.len() == i,
                i < tags.len(),
                x@ == tv[i as int],
                xl@ == lower_of(tv[i as int]),
                forall|j: int| 0 <= j < p ==> tag_le(#[trigger] out.deep_view()[j], tv[i as int]),
            decreases out.len() - p,
        {
            if p == out.len() {
                break ;
            }
            proof {
                assert(out.deep_view()[p as int] == out@[p as int]@);
            }
            let pl = lowercase(out[p].as_str());
            let plc = crate::text::chars_of(pl.as_str());
            let xlc = crate::text::chars_of(xl.as_str());
            if !chars_le(&plc, &xlc) {
                break ;
            }
            p = p + 1;
        }
        let ghost old_view = out.deep_view();
        out.insert(p, x);
        proof {
            assert(out.deep_view() =~~= old_view.take(p as int) + seq![tv[i as int]]
                + old_view.skip(p as int));
            lemma_insert_tag_at(tv[i as int], old_view, p as int);
            assert(tv.take(i + 1).drop_last() =~~= tv.take(i as int));
            assert(tv.take(i + 1).last() == tv[i as int]);
            assert(sort_tags(tv.take(i + 1)) == insert_tag(tv[i as int], sort_tags(tv.take(i as int))));
            assert(out.deep_view() =~~= sort_tags(tv.take(i + 1)));
        }
        i = i + 1;
    }
    proof {
        assert(tv.take(tv.len() as int) =~~= tv);
        lemma_sort_tags_sorted(tv);
    }
    out
}

} // verus!
