//! The tag index.
//!
//! Tags match case-insensitively: every tag is folded to lowercase and
//! articles are bucketed under the folded form. A bucket holds exactly the
//! articles whose tag set carries its tag, in repository order, each once;
//! a tag no article carries has no bucket at all.

use vstd::prelude::*;

use crate::render::Renderer;
use crate::repo::{build_corpus, get_all_articles, Article, ArticleView};
use crate::slug::{lower_of, lowercase};
use crate::text::str_eq;

verus! {

/// How many tags an article carries.
pub open spec fn num_tags(a: ArticleView) -> int {
    match a.matter.tags {
        Option::Some(ts) => ts.len() as int,
        Option::None => 0,
    }
}

/// The article's tag at position `j`.
pub open spec fn tag_at(a: ArticleView, j: int) -> Seq<char> {
    match a.matter.tags {
        Option::Some(ts) => ts[j],
        Option::None => Seq::empty(),
    }
}

/// Whether the article carries the (already lowercased) tag `t`, matching
/// case-insensitively.
pub open spec fn has_tag(a: ArticleView, t: Seq<char>) -> bool {
    exists|j: int| 0 <= j < num_tags(a) && lower_of(tag_at(a, j)) == t
}

/// The articles carrying tag `t`, in collection order, each once.
pub open spec fn bucket(s: Seq<ArticleView>, t: Seq<char>) -> Seq<ArticleView>
    decreases s.len(),
{
    if s.len() == 0 {
        Seq::empty()
    } else if has_tag(s[0], t) {
        seq![s[0]] + bucket(s.drop_first(), t)
    } else {
        bucket(s.drop_first(), t)
    }
}

/// A bucket holds only articles of the collection that carry its tag —
/// every other article is left out.
pub proof fn lemma_bucket_members(s: Seq<ArticleView>, t: Seq<char>)
    ensures
        forall|k: int|
            0 <= k < bucket(s, t).len() ==> has_tag(#[trigger] bucket(s, t)[k], t) && s.contains(
                bucket(s, t)[k],
            ),
    decreases s.len(),
{
    if s.len() > 0 {
        lemma_bucket_members(s.drop_first(), t);
        let b = bucket(s, t);
        let rest = bucket(s.drop_first(), t);
        assert forall|k: int|
            0 <= k < b.len() implies has_tag(#[trigger] b[k], t) && s.contains(b[k]) by {
            if has_tag(s[0], t) && k == 0 {
                assert(b[0] == s[0]);
                assert(s[0] == s[0]);
            } else {
                let k2 = if has_tag(s[0], t) {
                    k - 1
                } else {
                    k
                };
                assert(b[k] == rest[k2]);
                assert(s.drop_first().contains(rest[k2]));
                let w = choose|w: int| 0 <= w < s.drop_first().len() && s.drop_first()[w] == rest[k2];
                assert(s[w + 1] == rest[k2]);
            }
        }
    }
}

/// An article that carries the tag is in the tag's bucket.
pub proof fn lemma_bucket_has(s: Seq<ArticleView>, t: Seq<char>, i: int)
    requires
        0 <= i < s.len(),
        has_tag(s[i], t),
    ensures
        bucket(s, t).contains(s[i]),
        bucket(s, t).len() >= 1,
    decreases s.len(),
{
    if i == 0 {
        assert(bucket(s, t)[0] == s[0]);
    } else {
        lemma_bucket_has(s.drop_first(), t, i - 1);
        let rest = bucket(s.drop_first(), t);
        let w = choose|w: int| 0 <= w < rest.len() && rest[w] == s.drop_first()[i - 1];
        if has_tag(s[0], t) {
            assert(bucket(s, t)[w + 1] == rest[w]);
        } else {
            assert(bucket(s, t)[w] == rest[w]);
        }
    }
}

/// Whether the article carries tag `t` when tags are folded to lowercase.
pub fn has_tag_exec(a: &Article, t: &str) -> (r: bool)
    ensures
        r == has_tag(a@, t@),
{
    match &a.matter.tags {
        Option::Some(ts) => {
            let mut j: usize = 0;
            while j < ts.len()
                invariant
                    j <= ts.len(),
                    a@.matter.tags == Option::Some(ts.deep_view()),
                    forall|p: int| 0 <= p < j ==> lower_of(#[trigger] ts.deep_view()[p]) != t@,
                decreases ts.len() - j,
            {
                let low = lowercase(ts[j].as_str());
                proof {
                    assert(ts.deep_view()[j as int] == ts@[j as int]@);
                }
                if str_eq(low.as_str(), t) {
                    proof {
                        assert(lower_of(tag_at(a@, j as int)) == t@);
                    }
                    return true;
                }
                j = j + 1;
            }
            false
        },
        Option::None => false,
    }
}

/// The articles of the collection carrying tag `t`, in order.
#[verifier::loop_isolation(false)]
fn bucket_exec(articles: &Vec<Article>, t: &str) -> (r: Vec<Article>)
    ensures
        r.deep_view() == bucket(articles.deep_view(), t@),
{
    let ghost av = articles.deep_view();
    let mut out: Vec<Article> = Vec::new();
    let mut i: usize = 0;
    proof {
        assert(av.skip(0) =~~= av);
        assert(out.deep_view() =~~= Seq::<ArticleView>::empty());
    }
    while i < articles.len()
        invariant
            i <= articles.len(),
            av == articles.deep_view(),
            bucket(av, t@) == out.deep_view() + bucket(av.skip(i as int), t@),
        decreases articles.len() - i,
    {
        proof {
            assert(av.skip(i as int)[0] == av[i as int]);
            assert(av.skip(i as int).drop_first() =~~= av.skip(i as int + 1));
        }
        if has_tag_exec(&articles[i], t) {
            let ghost old_out = out.deep_view();
            let x = articles[i].duplicate();
            out.push(x);
            proof {
                assert(out.deep_view() =~~= old_out.push(av[i as int]));
                assert(bucket(av.skip(i as int), t@) =~~= seq![av[i as int]] + bucket(
                    av.skip(i as int + 1),
                    t@,
                ));
            }
        }
        i = i + 1;
    }
    proof {
        assert(bucket(av.skip(av.len() as int), t@) =~~= Seq::<ArticleView>::empty());
    }
    out
}

/// The tag index: one entry per lowercased tag that occurs, each with the
/// articles that carry it.
pub struct TagIndex {
    entries: Vec<(String, Vec<Article>)>,
}

impl View for TagIndex {
    type V = Seq<(Seq<char>, Seq<ArticleView>)>;

    closed spec fn view(&self) -> Seq<(Seq<char>, Seq<ArticleView>)> {
        self.entries.deep_view()
    }
}

impl TagIndex {
    /// How many distinct tags the index holds.
    pub fn len(&self) -> (r: usize)
        ensures
            r == self@.len(),
    {
        self.entries.len()
    }

    /// The tag name of the entry at position `p`.
    pub fn tag_at_index(&self, p: usize) -> (r: &String)
        requires
            p < self@.len(),
        ensures
            r@ == self@[p as int].0,
    {
        proof {
            assert(self@[p as int].0 == self.entries@[p as int].0@);
        }
        &self.entries[p].0
    }

    /// The bucket of the entry at position `p`.
    pub fn articles_at_index(&self, p: usize) -> (r: &Vec<Article>)
        requires
            p < self@.len(),
        ensures
            r.deep_view() == self@[p as int].1,
    {
        proof {
            assert(self@[p as int].1 == self.entries@[p as int].1.deep_view());
        }
        &self.entries[p].1
    }

    /// The bucket of a tag, matched case-insensitively; absent when no
    /// article carries it.
    #[verifier::loop_isolation(false)]
    pub fn get(&self, tag: &str) -> (r: Option<&Vec<Article>>)
        ensures
            match r {
                Option::Some(v) => exists|p: int|
                    0 <= p < self@.len() && (#[trigger] self@[p]).0 == lower_of(tag@)
                        && v.deep_view() == self@[p].1,
                Option::None => forall|p: int|
                    0 <= p < self@.len() ==> (#[trigger] self@[p]).0 != lower_of(tag@),
            },
    {
        let low = lowercase(tag);
        let mut p: usize = 0;
        while p < self.entries.len()
            invariant
                p <= self@.len(),
                self@.len() == self.entries.len(),
                forall|q: int| 0 <= q < p ==> (#[trigger] self@[q]).0 != lower_of(tag@),
            decreases self.entries.len() - p,
        {
            proof {
                assert(self@[p as int].0 == self.entries@[p as int].0@);
                assert(self@[p as int].1 == self.entries@[p as int].1.deep_view());
            }
            if str_eq(self.entries[p].0.as_str(), low.as_str()) {
                proof {
                    assert(self@[p as int].0 == lower_of(tag@));
                }
                return Option::Some(&self.entries[p].1);
            }
            proof {
                assert(self@[p as int].0 != lower_of(tag@));
            }
            p = p + 1;
        }
        Option::None
    }
}

fn keys_contain(keys: &Vec<String>, t: &str) -> (r: bool)
    ensures
        r == exists|p: int| 0 <= p < keys.deep_view().len() && keys.deep_view()[p] == t@,
{
    let mut p: usize = 0;
    while p < keys.len()
        invariant
            p <= keys.len(),
            forall|q: int| 0 <= q < p ==> keys.deep_view()[q] != t@,
        decreases keys.len() - p,
    {
        proof {
            assert(keys.deep_view()[p as int] == keys@[p as int]@);
        }
        if str_eq(keys[p].as_str(), t) {
            return true;
        }
        p = p + 1;
    }
    false
}

/// A tag value already has an entry among the keys.
pub open spec fn covered(keys: Seq<Seq<char>>, t: Seq<char>) -> bool {
    exists|p: int| 0 <= p < keys.len() && keys[p] == t
}

proof fn lemma_covered_push(keys: Seq<Seq<char>>, x: Seq<char>, t: Seq<char>)
    requires
        covered(keys, t),
    ensures
        covered(keys.push(x), t),
{
    let p = choose|p: int| 0 <= p < keys.len() && keys[p] == t;
    assert(keys.push(x)[p] == t);
}

/// Builds the tag index of the corpus: for every article with tags, the
/// article is bucketed under each of its tags folded to lowercase. Every
/// entry's bucket holds exactly the articles carrying its tag; entries are
/// distinct; and every tag of every article has its entry.
#[verifier::loop_isolation(false)]
#[verifier::rlimit(100)]
pub fn get_articles_by_tag(docs: &Vec<(String, String)>, renderer: &Renderer) -> (r: TagIndex)
    ensures
        ({
            let arts = build_corpus(docs.deep_view(), renderer.customs(), renderer.theme());
            &&& forall|p: int, q: int|
                0 <= p < q < r@.len() ==> (#[trigger] r@[p]).0 != (#[trigger] r@[q]).0
            &&& forall|p: int|
                0 <= p < r@.len() ==> (#[trigger] r@[p]).1 == bucket(arts, r@[p].0) && r@[p].1.len()
                    >= 1
            &&& forall|i: int, j: int|
                0 <= i < arts.len() && 0 <= j < num_tags(arts[i]) ==> covered(
                    r@.map_values(|e: (Seq<char>, Seq<ArticleView>)| e.0),
                    lower_of(#[trigger] tag_at(arts[i], j)),
                )
        }),
{
    let articles = get_all_articles(docs, renderer);
    let ghost av = articles.deep_view();
    // Collect the distinct lowercased tags, in first-occurrence order.
    let mut keys: Vec<String> = Vec::new();
    let mut i: usize = 0;
    while i < articles.len()
        invariant
            i <= articles.len(),
            av == articles.deep_view(),
            forall|p: int, q: int|
                0 <= p < q < keys.deep_view().len() ==> keys.deep_view()[p] != keys.deep_view()[q],
            forall|p: int|
                0 <= p < keys.deep_view().len() ==> bucket(av, #[trigger] keys.deep_view()[p]).len()
                    >= 1,
            forall|i2: int, j: int|
                0 <= i2 < i && 0 <= j < num_tags(av[i2]) ==> covered(
                    keys.deep_view(),
                    lower_of(#[trigger] tag_at(av[i2], j)),
                ),
        decreases articles.len() - i,
    {
        match &articles[i].matter.tags {
            Option::Some(ts) => {
                let mut j: usize = 0;
                while j < ts.len()
                    invariant
                        j <= ts.len(),
                        i < articles.len(),
                        av == articles.deep_view(),
                        av[i as int].matter.tags == Option::Some(ts.deep_view()),
                        forall|p: int, q: int|
                            0 <= p < q < keys.deep_view().len() ==> keys.deep_view()[p]
                                != keys.deep_view()[q],
                        forall|p: int|
                            0 <= p < keys.deep_view().len() ==> bucket(
                                av,
                                #[trigger] keys.deep_view()[p],
                            ).len() >= 1,
                        forall|i2: int, j2: int|
                            0 <= i2 < i && 0 <= j2 < num_tags(av[i2]) ==> covered(
                                keys.deep_view(),
                                lower_of(#[trigger] tag_at(av[i2], j2)),
                            ),
                        forall|j2: int|
                            0 <= j2 < j ==> covered(
                                keys.deep_view(),
                                lower_of(#[trigger] tag_at(av[i as int], j2)),
                            ),
                    decreases ts.len() - j,
                {
                    let low = lowercase(ts[j].as_str());
                    proof {
                        assert(ts.deep_view()[j as int] == ts@[j as int]@);
                        assert(low@ == lower_of(tag_at(av[i as int], j as int)));
                    }
                    if !keys_contain(&keys, low.as_str()) {
                        let ghost old_kd = keys.deep_view();
                        proof {
                            assert(has_tag(av[i as int], low@));
                            lemma_bucket_has(av, low@, i as int);
                        }
                        keys.push(low);
                        proof {
                            let new_kd = keys.deep_view();
                            assert(new_kd =~~= old_kd.push(
                                lower_of(tag_at(av[i as int], j as int)),
                            ));
                            assert forall|p: int, q: int|
                                0 <= p < q < new_kd.len() implies new_kd[p] != new_kd[q] by {
                                if q < old_kd.len() {
                                    assert(new_kd[p] == old_kd[p] && new_kd[q] == old_kd[q]);
                                } else {
                                    assert(new_kd[p] == old_kd[p]);
                                }
                            }
                            assert forall|p: int|
                                0 <= p < new_kd.len() implies bucket(
                                av,
                                #[trigger] new_kd[p],
                            ).len() >= 1 by {
                                if p < old_kd.len() {
                                    assert(new_kd[p] == old_kd[p]);
                                }
                            }
                            assert forall|i2: int, j2: int|
                                0 <= i2 < i && 0 <= j2 < num_tags(av[i2]) implies covered(
                                new_kd,
                                lower_of(#[trigger] tag_at(av[i2], j2)),
                            ) by {
                                lemma_covered_push(
                                    old_kd,
                                    new_kd.last(),
                                    lower_of(tag_at(av[i2], j2)),
                                );
                            }
                            assert forall|j2: int| 0 <= j2 < j + 1 implies covered(
                                new_kd,
                                lower_of(#[trigger] tag_at(av[i as int], j2)),
                            ) by {
                                if j2 < j {
                                    lemma_covered_push(
                                        old_kd,
                                        new_kd.last(),
                                        lower_of(tag_at(av[i as int], j2)),
                                    );
                                } else {
                                    assert(new_kd[old_kd.len() as int] == lower_of(
                                        tag_at(av[i as int], j2),
                                    ));
                                }
                            }
                        }
                    }
                    j = j + 1;
                }
                proof {
                    assert forall|j2: int| 0 <= j2 < num_tags(av[i as int]) implies covered(
                        keys.deep_view(),
                        lower_of(#[trigger] tag_at(av[i as int], j2)),
                    ) by {}
                }
            },
            Option::None => {},
        }
        i = i + 1;
    }
    // One entry per key, with its bucket.
    let mut entries: Vec<(String, Vec<Article>)> = Vec::new();
    let ghost kv = keys.deep_view();
    let mut p: usize = 0;
    proof {
        assert(entries.deep_view() =~~= Seq::<(Seq<char>, Seq<ArticleView>)>::empty());
    }
    while p < keys.len()
        invariant
            p <= keys.len(),
            kv == keys.deep_view(),
            av == articles.deep_view(),
            entries.deep_view().len() == p,
            forall|q: int| 0 <= q < p ==> (#[trigger] entries.deep_view()[q]).0 == kv[q],
            forall|q: int|
                0 <= q < p ==> (#[trigger] entries.deep_view()[q]).1 == bucket(av, kv[q]),
        decreases keys.len() - p,
    {
        proof {
            assert(kv[p as int] == keys@[p as int]@);
        }
        let b = bucket_exec(&articles, keys[p].as_str());
        let ghost old_entries = entries.deep_view();
        let key = keys[p].clone();
        entries.push((key, b));
        proof {
            assert(entries.deep_view() =~~= old_entries.push((kv[p as int], bucket(
                av,
                kv[p as int],
            ))));
        }
        p = p + 1;
    }
    let r = TagIndex { entries };
    proof {
        let ev = r@;
        let names = ev.map_values(|e: (Seq<char>, Seq<ArticleView>)| e.0);
        assert(names =~~= kv);
        assert forall|i2: int, j: int|
            0 <= i2 < av.len() && 0 <= j < num_tags(av[i2]) implies covered(
            names,
            lower_of(#[trigger] tag_at(av[i2], j)),
        ) by {}
    }
    r
}

} // verus!
