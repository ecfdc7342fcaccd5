//! The content renderer: Markdown in, HTML and a table of contents out.
//!
//! A renderer is built once from the custom theme definitions and the name
//! of the active highlighting theme; building fails fast when a definition
//! does not parse or the name resolves to no theme. Rendering a body then
//! emits the HTML (through comrak, with code fences highlighted by the
//! active theme and heading anchors under this crate's prefix) and derives
//! the table of contents, whose every entry carries the slug of its own
//! heading text.

use vstd::prelude::*;

use comrak::plugins::syntect::SyntectAdapter;

use crate::highlight::{
    adapter_customs, adapter_theme, make_adapter, registered, render_markdown_html, rendered_html,
    theme_data_ok, theme_set_add, theme_set_defaults, theme_set_has, ThemeLoadError,
};
use crate::anchors::{rewrite_anchors, rewrite_anchors_exec};
use crate::slug::{slug_of, slug_prefix};
use crate::toc::{extract_toc, toc_ids, toc_spec, TocItem};

verus! {

/// A ready-to-use content renderer: a highlighting adapter whose selected
/// theme is known to resolve.
pub struct Renderer {
    adapter: SyntectAdapter,
}

impl Renderer {
    #[verifier::type_invariant]
    spec fn wf(self) -> bool {
        registered(adapter_customs(self.adapter), adapter_theme(self.adapter))
    }

    /// The custom `(name, definition)` theme pairs this renderer was built
    /// with.
    pub closed spec fn customs(self) -> Seq<(Seq<char>, Seq<char>)> {
        adapter_customs(self.adapter)
    }

    /// The name of the active highlighting theme.
    pub closed spec fn theme(self) -> Seq<char> {
        adapter_theme(self.adapter)
    }

    /// Builds a renderer from custom theme definitions and the active
    /// theme's name. Fails with [`ThemeLoadError::BadThemeData`] on the
    /// first definition syntect rejects, and with
    /// [`ThemeLoadError::UnknownTheme`] when the name is neither built in
    /// nor among the customs; this is fatal for the pipeline.
    #[verifier::loop_isolation(false)]
    pub fn new(custom_themes: &Vec<(String, String)>, active: &str) -> (r: Result<
        Renderer,
        ThemeLoadError,
    >)
        ensures
            ({
                let cv = custom_themes.deep_view();
                &&& (r matches Result::Ok(rr) ==> rr.customs() == cv && rr.theme() == active@)
                &&& ((exists|i: int| 0 <= i < cv.len() && !theme_data_ok(cv[i].1)) <==> r
                    == Result::Err::<Renderer, ThemeLoadError>(ThemeLoadError::BadThemeData))
                &&& ((forall|i: int| 0 <= i < cv.len() ==> theme_data_ok(#[trigger] cv[i].1))
                    && !registered(cv, active@) <==> r == Result::Err::<Renderer, ThemeLoadError>(
                    ThemeLoadError::UnknownTheme,
                ))
                &&& ((forall|i: int| 0 <= i < cv.len() ==> theme_data_ok(#[trigger] cv[i].1))
                    && registered(cv, active@) <==> r is Ok)
            }),
    {
        let ghost cv = custom_themes.deep_view();
        let mut ts = theme_set_defaults();
        let mut i: usize = 0;
        proof {
            assert(crate::highlight::ts_customs(ts) =~~= cv.take(0));
        }
        while i < custom_themes.len()
            invariant
                i <= custom_themes.len(),
                crate::highlight::ts_customs(ts) == cv.take(i as int),
                forall|j: int| 0 <= j < i ==> theme_data_ok(#[trigger] cv[j].1),
            decreases custom_themes.len() - i,
        {
            let name = &custom_themes[i].0;
            let data = &custom_themes[i].1;
            proof {
                assert(cv[i as int] == (name@, data@));
            }
            let ok = theme_set_add(&mut ts, name.as_str(), data.as_str());
            if !ok {
                return Result::Err(ThemeLoadError::BadThemeData);
            }
            proof {
                assert(crate::highlight::ts_customs(ts) =~~= cv.take(i + 1));
            }
            i = i + 1;
        }
        proof {
            assert(cv.take(custom_themes.len() as int) =~~= cv);
        }
        if !theme_set_has(&ts, active) {
            return Result::Err(ThemeLoadError::UnknownTheme);
        }
        let adapter = make_adapter(ts, active);
        Result::Ok(Renderer { adapter })
    }
}

/// The anchor ids of a table of contents, in order.
fn collect_ids(toc: &Vec<TocItem>) -> (r: Vec<String>)
    ensures
        r.deep_view() == toc.deep_view().map_values(|t: crate::toc::TocItemView| t.id),
{
    let mut ids: Vec<String> = Vec::new();
    let mut p: usize = 0;
    while p < toc.len()
        invariant
            p <= toc.len(),
            ids.deep_view().len() == p,
            forall|q: int|
                0 <= q < p ==> ids.deep_view()[q] == (#[trigger] toc.deep_view()[q]).id,
        decreases toc.len() - p,
    {
        proof {
            assert(toc.deep_view()[p as int] == toc@[p as int]@);
        }
        let id = toc[p].id.clone();
        let ghost old_ids = ids.deep_view();
        ids.push(id);
        proof {
            assert(ids.deep_view() =~~= old_ids.push(toc.deep_view()[p as int].id));
        }
        p = p + 1;
    }
    proof {
        assert(ids.deep_view() =~~= toc.deep_view().map_values(
            |t: crate::toc::TocItemView| t.id,
        ));
    }
    ids
}

/// Renders a Markdown body to HTML alone, with the emitted heading ids
/// rewritten to the slugs the table of contents derives.
pub fn render_body(renderer: &Renderer, source: &str) -> (r: String)
    ensures
        r@ == rewrite_anchors(
            rendered_html(renderer.customs(), renderer.theme(), slug_prefix(), source@),
            toc_ids(source@),
        ),
{
    proof {
        use_type_invariant(renderer);
    }
    let toc = extract_toc(source);
    let ids = collect_ids(&toc);
    proof {
        assert(ids.deep_view() =~~= toc_ids(source@));
    }
    let html = render_markdown_html(&renderer.adapter, "md-heading-", source);
    rewrite_anchors_exec(html.as_str(), &ids)
}

/// Renders a Markdown body: the table of contents and the emitted HTML.
///
/// Every entry of the table of contents carries the slug of its own
/// heading text as its anchor id, and the emitted heading ids are
/// rewritten to those same slugs — one rule on both sides, so in-page
/// navigation links stay consistent.
pub fn markdown_to_html(renderer: &Renderer, source: &str) -> (r: (Vec<TocItem>, String))
    ensures
        r.0.deep_view() == toc_spec(source@),
        forall|k: int|
            0 <= k < r.0.deep_view().len() ==> (#[trigger] r.0.deep_view()[k]).id == slug_of(
                r.0.deep_view()[k].text,
            ),
        r.1@ == rewrite_anchors(
            rendered_html(renderer.customs(), renderer.theme(), slug_prefix(), source@),
            toc_ids(source@),
        ),
{
    proof {
        use_type_invariant(renderer);
    }
    let toc = extract_toc(source);
    let ids = collect_ids(&toc);
    proof {
        assert(ids.deep_view() =~~= toc_ids(source@));
    }
    let html = render_markdown_html(&renderer.adapter, "md-heading-", source);
    let rewritten = rewrite_anchors_exec(html.as_str(), &ids);
    (toc, rewritten)
}

} // verus!
