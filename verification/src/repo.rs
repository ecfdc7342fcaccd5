//! The article repository.
//!
//! A corpus of raw `(id, text)` documents is parsed and rendered into
//! articles; a document whose front-matter block fails to parse is dropped
//! and the rest go on. Queries build the collection fresh from the same
//! inputs: all articles in discovery order, sorted by `published_at`
//! descending with ties kept stable, the most recent `n`, and lookup by
//! id.

use vstd::prelude::*;

use crate::anchors::rewrite_anchors;
use crate::matter::{parse_front_matter, parse_spec, FrontMatter, FrontMatterView};
use crate::render::{render_body, Renderer};
use crate::highlight::rendered_html;
use crate::slug::slug_prefix;
use crate::toc::toc_ids;
use crate::text::{seq_le, lemma_seq_le_total, str_le, str_eq};

verus! {

/// One article: its id, its metadata, and its rendered HTML.
#[derive(Clone, Debug, PartialEq, Eq)]
pub struct Article {
    pub id: String,
    pub matter: FrontMatter,
    pub content: String,
}

/// Mathematical image of an [`Article`].
#[verifier::ext_equal]
pub struct ArticleView {
    pub id: Seq<char>,
    pub matter: FrontMatterView,
    pub content: Seq<char>,
}

impl View for Article {
    type V = ArticleView;

    open spec fn view(&self) -> ArticleView {
        ArticleView { id: self.id@, matter: self.matter@, content: self.content@ }
    }
}

impl DeepView for Article {
    type V = ArticleView;

    open spec fn deep_view(&self) -> ArticleView {
        self.view()
    }
}

impl FrontMatter {
    /// A copy with the same characters in every field.
    pub fn duplicate(&self) -> (r: FrontMatter)
        ensures
            r@ == self@,
    {
        let tags: Option<Vec<String>> = match &self.tags {
            Option::Some(ts) => {
                let mut out: Vec<String> = Vec::new();
                let mut i: usize = 0;
                while i < ts.len()
                    invariant
                        i <= ts.len(),
                        out@ == ts@.take(i as int),
                    decreases ts.len() - i,
                {
                    out.push(ts[i].clone());
                    proof {
                        assert(out@ =~= ts@.take(i + 1));
                    }
                    i = i + 1;
                }
                proof {
                    assert(ts@.take(ts@.len() as int) =~= ts@);
                }
                Option::Some(out)
            },
            Option::None => Option::None,
        };
        let r = FrontMatter {
            title: self.title.clone(),
            published_at: self.published_at.clone(),
            snippet: self.snippet.clone(),
            tags,
        };
        proof {
            assert(r@ =~~= self@);
        }
        r
    }
}

impl Article {
    /// A copy with the same characters in every field.
    pub fn duplicate(&self) -> (r: Article)
        ensures
            r@ == self@,
    {
        let r = Article {
            id: self.id.clone(),
            matter: self.matter.duplicate(),
            content: self.content.clone(),
        };
        proof {
            assert(r@ =~~= self@);
        }
        r
    }
}

/// The articles a document sequence yields: each document that parses
/// becomes an article with its rendered body, in discovery order; each
/// document that does not is dropped.
pub open spec fn build_corpus(
    docs: Seq<(Seq<char>, Seq<char>)>,
    customs: Seq<(Seq<char>, Seq<char>)>,
    theme: Seq<char>,
) -> Seq<ArticleView>
    decreases docs.len(),
{
    if docs.len() == 0 {
        Seq::empty()
    } else {
        let rest = build_corpus(docs.drop_first(), customs, theme);
        match parse_spec(docs[0].1) {
            Result::Ok(p) => seq![
                ArticleView {
                    id: docs[0].0,
                    matter: p.0,
                    content: rewrite_anchors(
                        rendered_html(customs, theme, slug_prefix(), p.1),
                        toc_ids(p.1),
                    ),
                },
            ] + rest,
            Result::Err(_) => rest,
        }
    }
}

/// Parses and renders every document of the corpus, in discovery order,
/// dropping each document whose front-matter block fails to parse.
#[verifier::loop_isolation(false)]
pub fn get_all_articles(docs: &Vec<(String, String)>, renderer: &Renderer) -> (r: Vec<Article>)
    ensures
        r.deep_view() == build_corpus(docs.deep_view(), renderer.customs(), renderer.theme()),
{
    let ghost dv = docs.deep_view();
    let mut out: Vec<Article> = Vec::new();
    let mut i: usize = 0;
    proof {
        assert(dv.skip(0) =~~= dv);
        assert(out.deep_view() =~~= Seq::<ArticleView>::empty());
    }
    while i < docs.len()
        invariant
            i <= docs.len(),
            build_corpus(dv, renderer.customs(), renderer.theme()) == out.deep_view()
                + build_corpus(dv.skip(i as int), renderer.customs(), renderer.theme()),
        decreases docs.len() - i,
    {
        proof {
            assert(dv[i as int] == (docs@[i as int].0@, docs@[i as int].1@));
            assert(dv.skip(i as int)[0] == dv[i as int]);
            assert(dv.skip(i as int).drop_first() =~~= dv.skip(i as int + 1));
        }
        match parse_front_matter(docs[i].1.as_str()) {
            Result::Ok(p) => {
                let html = render_body(renderer, p.1.as_str());
                let article = Article { id: docs[i].0.clone(), matter: p.0, content: html };
                let ghost old_out = out.deep_view();
                out.push(article);
                proof {
                    assert(out.deep_view() =~~= old_out.push(article@));
                    assert(build_corpus(dv.skip(i as int), renderer.customs(), renderer.theme())
                        =~~= seq![article@] + build_corpus(
                        dv.skip(i as int + 1),
                        renderer.customs(),
                        renderer.theme(),
                    ));
                }
            },
            Result::Err(_) => {
                proof {
                    assert(build_corpus(dv.skip(i as int), renderer.customs(), renderer.theme())
                        =~~= build_corpus(dv.skip(i as int + 1), renderer.customs(), renderer.theme()));
                }
            },
        }
        i = i + 1;
    }
    proof {
        assert(build_corpus(dv.skip(dv.len() as int), renderer.customs(), renderer.theme())
            =~~= Seq::<ArticleView>::empty());
    }
    out
}

/// `a` may stand before `b` in the date-descending order.
pub open spec fn desc_le(a: ArticleView, b: ArticleView) -> bool {
    seq_le(b.matter.published_at, a.matter.published_at)
}

/// Sorted by `published_at` descending: every adjacent pair is in order.
pub open spec fn sorted_desc(s: Seq<ArticleView>) -> bool {
    forall|i: int| 0 <= i < s.len() - 1 ==> desc_le(#[trigger] s[i], s[i + 1])
}

/// Stable insertion: `x` goes behind every element whose date is at least
/// its own.
pub open spec fn insert_desc(x: ArticleView, s: Seq<ArticleView>) -> Seq<ArticleView>
    decreases s.len(),
{
    if s.len() == 0 {
        seq![x]
    } else if seq_le(x.matter.published_at, s[0].matter.published_at) {
        seq![s[0]] + insert_desc(x, s.drop_first())
    } else {
        seq![x] + s
    }
}

/// Stable insertion sort, date-descending: elements are inserted left to
/// right, so earlier elements keep their place among equal dates.
pub open spec fn sort_desc(s: Seq<ArticleView>) -> Seq<ArticleView>
    decreases s.len(),
{
    if s.len() == 0 {
        Seq::empty()
    } else {
        insert_desc(s.last(), sort_desc(s.drop_last()))
    }
}

/// Inserting into a date-descending sequence keeps it date-descending.
proof fn lemma_insert_desc_sorted(x: ArticleView, s: Seq<ArticleView>)
    requires
        sorted_desc(s),
    ensures
        sorted_desc(insert_desc(x, s)),
        insert_desc(x, s).len() == s.len() + 1,
    decreases s.len(),
{
    if s.len() == 0 {
    } else if seq_le(x.matter.published_at, s[0].matter.published_at) {
        assert(sorted_desc(s.drop_first())) by {
            assert(forall|i: int|
                0 <= i < s.drop_first().len() - 1 ==> desc_le(
                    #[trigger] s.drop_first()[i],
                    s.drop_first()[i + 1],
                ));
        }
        lemma_insert_desc_sorted(x, s.drop_first());
        let t = insert_desc(x, s.drop_first());
        let r = seq![s[0]] + t;
        assert forall|i: int| 0 <= i < r.len() - 1 implies desc_le(#[trigger] r[i], r[i + 1]) by {
            if i == 0 {
                if s.drop_first().len() == 0 {
                    assert(r[1] == x);
                } else if seq_le(x.matter.published_at, s.drop_first()[0].matter.published_at) {
                    assert(t[0] == s.drop_first()[0]);
                    assert(desc_le(s[0], s[1]));
                } else {
                    assert(t[0] == x);
                }
            } else {
                assert(r[i] == t[i - 1]);
                assert(r[i + 1] == t[i]);
            }
        }
    } else {
        lemma_seq_le_total(x.matter.published_at, s[0].matter.published_at);
        let r = seq![x] + s;
        assert forall|i: int| 0 <= i < r.len() - 1 implies desc_le(#[trigger] r[i], r[i + 1]) by {
            if i == 0 {
                assert(r[1] == s[0]);
            } else {
                assert(r[i] == s[i - 1]);
                assert(r[i + 1] == s[i]);
            }
        }
    }
}

/// The insertion sort yields a date-descending sequence of the same
/// length.
pub proof fn lemma_sort_desc_sorted(s: Seq<ArticleView>)
    ensures
        sorted_desc(sort_desc(s)),
        sort_desc(s).len() == s.len(),
    decreases s.len(),
{
    if s.len() > 0 {
        lemma_sort_desc_sorted(s.drop_last());
        lemma_insert_desc_sorted(s.last(), sort_desc(s.drop_last()));
    }
}

/// Where a left-to-right scan stops is where stable insertion puts `x`.
proof fn lemma_insert_desc_at(x: ArticleView, s: Seq<ArticleView>, p: int)
    requires
        0 <= p <= s.len(),
        forall|j: int| 0 <= j < p ==> seq_le(x.matter.published_at, (#[trigger] s[j]).matter.published_at),
        p < s.len() ==> !seq_le(x.matter.published_at, s[p].matter.published_at),
    ensures
        insert_desc(x, s) == s.take(p) + seq![x] + s.skip(p),
    decreases p,
{
    if s.len() == 0 {
        assert(insert_desc(x, s) =~= s.take(0) + seq![x] + s.skip(0));
    } else if p == 0 {
        assert(insert_desc(x, s) =~= s.take(0) + seq![x] + s.skip(0));
    } else {
        lemma_insert_desc_at(x, s.drop_first(), p - 1);
        assert(insert_desc(x, s) == seq![s[0]] + insert_desc(x, s.drop_first()));
        assert(seq![s[0]] + (s.drop_first().take(p - 1) + seq![x] + s.drop_first().skip(p - 1))
            =~= s.take(p) + seq![x] + s.skip(p));
    }
}

/// Every successfully parsed document, sorted by `published_at`
/// descending, ties kept in discovery order.
#[verifier::loop_isolation(false)]
pub fn get_all_articles_sorted(docs: &Vec<(String, String)>, renderer: &Renderer) -> (r: Vec<
    Article,
>)
    ensures
        r.deep_view() == sort_desc(
            build_corpus(docs.deep_view(), renderer.customs(), renderer.theme()),
        ),
        sorted_desc(r.deep_view()),
{
    let articles = get_all_articles(docs, renderer);
    let ghost av = articles.deep_view();
    let mut out: Vec<Article> = Vec::new();
    let mut i: usize = 0;
    proof {
        assert(av.take(0) =~~= Seq::<ArticleView>::empty());
        assert(out.deep_view() =~~= sort_desc(av.take(0)));
    }
    while i < articles.len()
        invariant
            i <= articles.len(),
            av == articles.deep_view(),
            out.deep_view() == sort_desc(av.take(i as int)),
            out.len() == i,
        decreases articles.len() - i,
    {
        let x = articles[i].duplicate();
        proof {
            assert(x@ == av[i as int]);
        }
        // scan for the stable insertion point
        let mut p: usize = 0;
        loop
            invariant
                p <= out.len(),
                out.deep_view() == sort_desc(av.take(i as int)),
                out.len() == i,
                i < articles.len(),
                x@ == av[i as int],
                forall|j: int|
                    0 <= j < p ==> seq_le(
                        x@.matter.published_at,
                        (#[trigger] out.deep_view()[j]).matter.published_at,
                    ),
            decreases out.len() - p,
        {
            if p == out.len() {
                break ;
            }
            if !str_le(x.matter.published_at.as_str(), out[p].matter.published_at.as_str()) {
                break ;
            }
            proof {
                assert(out.deep_view()[p as int] == out@[p as int]@);
            }
            p = p + 1;
        }
        let ghost old_view = out.deep_view();
        out.insert(p, x);
        proof {
            assert(out.deep_view() =~~= old_view.take(p as int) + seq![x@] + old_view.skip(
                p as int,
            ));
            lemma_insert_desc_at(x@, old_view, p as int);
            assert(av.take(i + 1).drop_last() =~~= av.take(i as int));
            assert(av.take(i + 1).last() == av[i as int]);
            assert(sort_desc(av.take(i + 1)) == insert_desc(av[i as int], sort_desc(av.take(i as int))));
            assert(out.deep_view() =~~= sort_desc(av.take(i + 1)));
        }
        i = i + 1;
    }
    proof {
        assert(av.take(av.len() as int) =~~= av);
        lemma_sort_desc_sorted(av);
    }
    out
}

/// The `limit` most recent articles: the first `min(limit, n)` of the
/// date-descending order, a prefix of it.
pub fn get_recently_add(docs: &Vec<(String, String)>, renderer: &Renderer, limit: usize) -> (r: Vec<
    Article,
>)
    ensures
        ({
            let sorted = sort_desc(
                build_corpus(docs.deep_view(), renderer.customs(), renderer.theme()),
            );
            &&& r.deep_view().len() == if limit as int <= sorted.len() {
                limit as int
            } else {
                sorted.len() as int
            }
            &&& r.deep_view() == sorted.take(r.deep_view().len() as int)
        }),
{
    let sorted = get_all_articles_sorted(docs, renderer);
    let n = if limit <= sorted.len() {
        limit
    } else {
        sorted.len()
    };
    let mut out: Vec<Article> = Vec::new();
    let mut i: usize = 0;
    while i < n
        invariant
            i <= n <= sorted.len(),
            out.deep_view() == sorted.deep_view().take(i as int),
            out.len() == i,
        decreases n - i,
    {
        let x = sorted[i].duplicate();
        let ghost old_view = out.deep_view();
        out.push(x);
        proof {
            assert(out.deep_view() =~~= old_view.push(x@));
            assert(out.deep_view() =~~= sorted.deep_view().take(i + 1));
        }
        i = i + 1;
    }
    proof {
        assert(sorted.deep_view().take(n as int) =~~= out.deep_view());
    }
    out
}

/// The first article carrying this id, in discovery order.
pub open spec fn find_first(s: Seq<ArticleView>, id: Seq<char>) -> Option<ArticleView>
    decreases s.len(),
{
    if s.len() == 0 {
        Option::None
    } else if s[0].id == id {
        Option::Some(s[0])
    } else {
        find_first(s.drop_first(), id)
    }
}

/// Looks an article up by id; absent ids yield no article, not an error.
#[verifier::loop_isolation(false)]
pub fn get_article_by_id(docs: &Vec<(String, String)>, renderer: &Renderer, id: &str) -> (r: Option<
    Article,
>)
    ensures
        ({
            let arts = build_corpus(docs.deep_view(), renderer.customs(), renderer.theme());
            match r {
                Option::Some(a) => find_first(arts, id@) == Option::Some(a@),
                Option::None => find_first(arts, id@) is None,
            }
        }),
{
    let articles = get_all_articles(docs, renderer);
    let ghost av = articles.deep_view();
    let mut i: usize = 0;
    proof {
        assert(av.skip(0) =~~= av);
    }
    while i < articles.len()
        invariant
            i <= articles.len(),
            av == articles.deep_view(),
            find_first(av, id@) == find_first(av.skip(i as int), id@),
        decreases articles.len() - i,
    {
        proof {
            assert(av.skip(i as int)[0] == av[i as int]);
            assert(av.skip(i as int).drop_first() =~~= av.skip(i as int + 1));
        }
        if str_eq(articles[i].id.as_str(), id) {
            return Option::Some(articles[i].duplicate());
        }
        i = i + 1;
    }
    proof {
        assert(find_first(av.skip(av.len() as int), id@) is None);
    }
    Option::None
}

/// No two articles share an id.
pub open spec fn unique_ids(s: Seq<ArticleView>) -> bool {
    forall|i: int, j: int| 0 <= i < j < s.len() ==> (#[trigger] s[i]).id != (#[trigger] s[j]).id
}

/// Looking an article's own id up finds exactly that article, whenever ids
/// are unique in the collection.
pub proof fn lemma_by_id_round_trip(s: Seq<ArticleView>, i: int)
    requires
        unique_ids(s),
        0 <= i < s.len(),
    ensures
        find_first(s, s[i].id) == Option::Some(s[i]),
    decreases s.len(),
{
    if i > 0 {
        assert(s[0].id != s[i].id);
        assert(unique_ids(s.drop_first())) by {
            assert(forall|p: int, q: int|
                0 <= p < q < s.drop_first().len() ==> (#[trigger] s.drop_first()[p]).id != (
                #[trigger] s.drop_first()[q]).id);
        }
        lemma_by_id_round_trip(s.drop_first(), i - 1);
    }
}

/// Every article of the built corpus takes its id from some document.
proof fn lemma_build_ids(
    docs: Seq<(Seq<char>, Seq<char>)>,
    customs: Seq<(Seq<char>, Seq<char>)>,
    theme: Seq<char>,
)
    ensures
        forall|k: int|
            0 <= k < build_corpus(docs, customs, theme).len() ==> exists|j: int|
                0 <= j < docs.len() && (#[trigger] build_corpus(docs, customs, theme)[k]).id
                    == docs[j].0 && parse_spec(docs[j].1) is Ok,
    decreases docs.len(),
{
    if docs.len() > 0 {
        lemma_build_ids(docs.drop_first(), customs, theme);
        let b = build_corpus(docs, customs, theme);
        let rest = build_corpus(docs.drop_first(), customs, theme);
        assert forall|k: int| 0 <= k < b.len() implies exists|j: int|
            0 <= j < docs.len() && (#[trigger] b[k]).id == docs[j].0 && parse_spec(docs[j].1) is Ok by {
            match parse_spec(docs[0].1) {
                Result::Ok(p) => {
                    if k == 0 {
                        assert(b[0].id == docs[0].0 && parse_spec(docs[0].1) is Ok);
                    } else {
                        assert(b[k] == rest[k - 1]);
                        let j0 = choose|j: int|
                            0 <= j < docs.drop_first().len() && (#[trigger] rest[k - 1]).id
                                == docs.drop_first()[j].0 && parse_spec(
                                docs.drop_first()[j].1,
                            ) is Ok;
                        assert(docs.drop_first()[j0] == docs[j0 + 1]);
                        assert(b[k].id == docs[j0 + 1].0 && parse_spec(docs[j0 + 1].1) is Ok);
                    }
                },
                Result::Err(_) => {
                    assert(b[k] == rest[k]);
                    let j0 = choose|j: int|
                        0 <= j < docs.drop_first().len() && (#[trigger] rest[k]).id
                            == docs.drop_first()[j].0 && parse_spec(docs.drop_first()[j].1) is Ok;
                    assert(docs.drop_first()[j0] == docs[j0 + 1]);
                    assert(b[k].id == docs[j0 + 1].0 && parse_spec(docs[j0 + 1].1) is Ok);
                },
            }
        }
    }
}

/// A document whose front-matter block fails to parse is absent from the
/// corpus: no built article carries its id, provided no other document
/// shares that id.
pub proof fn lemma_failed_parse_excluded(
    docs: Seq<(Seq<char>, Seq<char>)>,
    customs: Seq<(Seq<char>, Seq<char>)>,
    theme: Seq<char>,
    i: int,
)
    requires
        0 <= i < docs.len(),
        parse_spec(docs[i].1) is Err,
        forall|j: int| 0 <= j < docs.len() && j != i ==> (#[trigger] docs[j]).0 != docs[i].0,
    ensures
        forall|k: int|
            0 <= k < build_corpus(docs, customs, theme).len() ==> (#[trigger] build_corpus(
                docs,
                customs,
                theme,
            )[k]).id != docs[i].0,
{
    lemma_build_ids(docs, customs, theme);
    let b = build_corpus(docs, customs, theme);
    assert forall|k: int| 0 <= k < b.len() implies (#[trigger] b[k]).id != docs[i].0 by {
        let j0 = choose|j: int|
            0 <= j < docs.len() && (#[trigger] b[k]).id == docs[j].0 && parse_spec(docs[j].1) is Ok;
        assert(j0 != i);
    }
}

} // verus!
