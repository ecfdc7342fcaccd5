//! Heading-anchor rewriting.
//!
//! The HTML emitter derives heading `id` attributes by its own anchor
//! rule, which keeps hyphens and underscores and suffixes repeated
//! anchors — not the slug rule the table of contents uses. This pass
//! rewrites the emitted heading ids, in document order, to the slugs the
//! table of contents carries, so that both sides follow one rule and
//! in-page navigation stays consistent.

use vstd::prelude::*;

use crate::text::{chars_of, find_char_from, first_idx, push_str_chars, string_of, sub_vec};

verus! {

/// The opening of an emitted heading id attribute.
pub open spec fn anchor_pat() -> Seq<char> {
    "id=\"md-heading-"@
}

/// `p` occurs in `h` starting at position `i`.
pub open spec fn starts_with_at(h: Seq<char>, i: int, p: Seq<char>) -> bool {
    i + p.len() <= h.len() && h.subrange(i, i + p.len()) == p
}

/// `h` with each occurrence of a heading id attribute replaced, left to
/// right, by the next id of `ids`; the rest of `h`, and every occurrence
/// past the last id, stay as they are.
pub open spec fn rewrite_anchors(h: Seq<char>, ids: Seq<Seq<char>>) -> Seq<char>
    decreases h.len(),
{
    if h.len() == 0 {
        Seq::empty()
    } else if ids.len() == 0 {
        h
    } else if starts_with_at(h, 0, anchor_pat()) {
        let q = anchor_pat().len() + first_idx(h.skip(anchor_pat().len() as int), '"');
        if 0 <= q && q < h.len() {
            "id=\""@ + ids[0] + "\""@ + rewrite_anchors(h.skip(q + 1), ids.drop_first())
        } else {
            h
        }
    } else {
        seq![h[0]] + rewrite_anchors(h.drop_first(), ids)
    }
}

/// Whether the characters of `p` stand in `v` at position `i`.
#[verifier::loop_isolation(false)]
fn window_eq(v: &Vec<char>, i: usize, p: &Vec<char>) -> (r: bool)
    requires
        i <= v@.len(),
    ensures
        r == starts_with_at(v@, i as int, p@),
{
    let vlen = v.len();
    if p.len() > vlen - i {
        return false;
    }
    let mut m: usize = 0;
    while m < p.len()
        invariant
            m <= p.len(),
            i + p.len() <= v@.len(),
            forall|j: int| 0 <= j < m ==> v@[i + j] == p@[j],
        decreases p.len() - m,
    {
        if v[i + m] != p[m] {
            proof {
                assert(v@.subrange(i as int, i + p@.len())[m as int] != p@[m as int]);
            }
            return false;
        }
        m = m + 1;
    }
    proof {
        assert(v@.subrange(i as int, i + p@.len()) =~= p@);
    }
    true
}

/// Rewrites the emitted heading id attributes, in order, to the given
/// anchor ids.
#[verifier::loop_isolation(false)]
#[verifier::rlimit(100)]
pub fn rewrite_anchors_exec(html: &str, ids: &Vec<String>) -> (r: String)
    ensures
        r@ == rewrite_anchors(html@, ids.deep_view()),
{
    let h = chars_of(html);
    let pat = chars_of("id=\"md-heading-");
    let ghost iv = ids.deep_view();
    let mut out: Vec<char> = Vec::new();
    let mut i: usize = 0;
    let mut k: usize = 0;
    proof {
        assert(h@.skip(0) =~= h@);
        assert(iv.skip(0) =~~= iv);
    }
    loop
        invariant
            i <= h@.len(),
            k <= iv.len(),
            iv == ids.deep_view(),
            pat@ == anchor_pat(),
            rewrite_anchors(html@, iv) == out@ + rewrite_anchors(h@.skip(i as int), iv.skip(
                k as int,
            )),
        decreases h.len() - i,
    {
        if i == h.len() {
            proof {
                assert(rewrite_anchors(h@.skip(i as int), iv.skip(k as int)) =~= Seq::<
                    char,
                >::empty());
            }
            return string_of(&out);
        }
        if k == ids.len() {
            let mut rest = sub_vec(&h, i, h.len());
            proof {
                assert(iv.skip(k as int).len() == 0);
                assert(rewrite_anchors(h@.skip(i as int), iv.skip(k as int)) == h@.skip(i as int));
                assert(rest@ =~= h@.skip(i as int));
            }
            out.append(&mut rest);
            return string_of(&out);
        }
        let ghost t = h@.skip(i as int);
        proof {
            assert(t.len() > 0);
            assert(iv.skip(k as int).len() > 0);
            assert(iv.skip(k as int)[0] == iv[k as int]);
            assert(iv.skip(k as int).drop_first() =~~= iv.skip(k as int + 1));
        }
        if window_eq(&h, i, &pat) {
            proof {
                assert(t.subrange(0, anchor_pat().len() as int) =~= h@.subrange(
                    i as int,
                    i + anchor_pat().len(),
                ));
                assert(starts_with_at(t, 0, anchor_pat()));
                assert(t.skip(anchor_pat().len() as int) =~= h@.skip(i + anchor_pat().len()));
            }
            let q = find_char_from(&h, '"', i + pat.len());
            let ghost qq = q - i;
            proof {
                assert(qq == anchor_pat().len() + first_idx(t.skip(anchor_pat().len() as int), '"'));
            }
            if q < h.len() {
                proof {
                    assert(rewrite_anchors(t, iv.skip(k as int)) == "id=\""@ + iv[k as int] + "\""@
                        + rewrite_anchors(t.skip(qq + 1), iv.skip(k as int + 1)));
                    assert(t.skip(qq + 1) =~= h@.skip(q + 1));
                }
                push_str_chars(&mut out, "id=\"");
                proof {
                    assert(iv[k as int] == ids@[k as int]@);
                }
                push_str_chars(&mut out, ids[k].as_str());
                push_str_chars(&mut out, "\"");
                i = q + 1;
                k = k + 1;
            } else {
                let mut rest = sub_vec(&h, i, h.len());
                proof {
                    assert(rewrite_anchors(t, iv.skip(k as int)) == t);
                    assert(rest@ =~= t);
                }
                out.append(&mut rest);
                return string_of(&out);
            }
        } else {
            proof {
                if starts_with_at(t, 0, anchor_pat()) {
                    assert(t.subrange(0, anchor_pat().len() as int) =~= h@.subrange(
                        i as int,
                        i + anchor_pat().len(),
                    ));
                    assert(starts_with_at(h@, i as int, pat@));
                    assert(false);
                }
                assert(t[0] == h@[i as int]);
                assert(t.drop_first() =~= h@.skip(i as int + 1));
                assert(rewrite_anchors(t, iv.skip(k as int)) == seq![h@[i as int]]
                    + rewrite_anchors(h@.skip(i as int + 1), iv.skip(k as int)));
            }
            out.push(h[i]);
            i = i + 1;
        }
    }
}

} // verus!
