//! Trusted boundary around syntect's theme sets and comrak's HTML emitter.
//!
//! A theme set starts from syntect's built-in themes and grows by custom
//! theme definitions, each an opaque blob loaded under a chosen name. The
//! set is modelled by the sequence of custom `(name, definition)` pairs
//! added to it; rendering is modelled as a function of that sequence, the
//! selected theme name, the heading-anchor prefix, and the source text.

use vstd::prelude::*;

use comrak::plugins::syntect::{SyntectAdapter, SyntectAdapterBuilder};
use syntect::highlighting::ThemeSet;

verus! {

#[verifier::external_type_specification]
#[verifier::external_body]
pub struct ExThemeSet(ThemeSet);

#[verifier::external_type_specification]
#[verifier::external_body]
pub struct ExSyntectAdapter(SyntectAdapter);

/// The custom `(name, definition)` pairs a theme set holds, in the order
/// they were added after the built-in themes were loaded.
pub uninterp spec fn ts_customs(ts: ThemeSet) -> Seq<(Seq<char>, Seq<char>)>;

/// Whether syntect parses this theme definition.
pub uninterp spec fn theme_data_ok(data: Seq<char>) -> bool;

/// Whether syntect's built-in theme set carries a theme of this name.
pub uninterp spec fn default_theme_name(name: Seq<char>) -> bool;

/// The custom theme pairs behind a built highlighting adapter.
pub uninterp spec fn adapter_customs(a: SyntectAdapter) -> Seq<(Seq<char>, Seq<char>)>;

/// The theme name a built highlighting adapter selects.
pub uninterp spec fn adapter_theme(a: SyntectAdapter) -> Seq<char>;

/// The HTML comrak emits for a Markdown source under this crate's fixed
/// option set: a deterministic function of the custom themes, the selected
/// theme, the heading-anchor prefix, and the source.
pub uninterp spec fn rendered_html(
    customs: Seq<(Seq<char>, Seq<char>)>,
    theme: Seq<char>,
    prefix: Seq<char>,
    src: Seq<char>,
) -> Seq<char>;

/// A theme name resolvable in a set with the given custom pairs: either a
/// built-in name or the name of one of the customs.
pub open spec fn registered(customs: Seq<(Seq<char>, Seq<char>)>, name: Seq<char>) -> bool {
    default_theme_name(name) || exists|i: int| 0 <= i < customs.len() && customs[i].0 == name
}

/// Why highlighting could not be set up. Fatal: rendering cannot proceed
/// without a working highlighter.
#[derive(Clone, Copy, Debug, PartialEq, Eq, Structural)]
pub enum ThemeLoadError {
    /// A custom theme definition did not parse.
    BadThemeData,
    /// The selected theme name is in neither the built-in nor the custom
    /// themes.
    UnknownTheme,
}

/// Relies on `ThemeSet::load_defaults`: the built-in themes, no customs.
#[verifier::external_body]
pub fn theme_set_defaults() -> (ts: ThemeSet)
    ensures
        ts_customs(ts) == Seq::<(Seq<char>, Seq<char>)>::empty(),
{
    ThemeSet::load_defaults()
}

/// Relies on `ThemeSet::load_from_reader`: parsing the definition succeeds
/// or fails on the definition text alone; on success the theme is stored
/// in the set under the given name.
#[verifier::external_body]
pub fn theme_set_add(ts: &mut ThemeSet, name: &str, data: &str) -> (ok: bool)
    ensures
        ok == theme_data_ok(data@),
        ok ==> ts_customs(*final(ts)) == ts_customs(*old(ts)).push((name@, data@)),
        !ok ==> ts_customs(*final(ts)) == ts_customs(*old(ts)),
{
    let mut cur = std::io::Cursor::new(data.as_bytes());
    match ThemeSet::load_from_reader(&mut cur) {
        Result::Ok(t) => {
            ts.themes.insert(name.to_string(), t);
            true
        },
        Result::Err(_) => false,
    }
}

/// Relies on `BTreeMap::contains_key` over the set's themes: a name is
/// present exactly when it is a built-in name or a custom one.
#[verifier::external_body]
pub fn theme_set_has(ts: &ThemeSet, name: &str) -> (r: bool)
    ensures
        r == registered(ts_customs(*ts), name@),
        default_theme_name(name@) ==> r,
{
    ts.themes.contains_key(name)
}

/// Relies on comrak's `SyntectAdapterBuilder`: the built adapter carries
/// the given theme set and selects the given theme name.
#[verifier::external_body]
pub fn make_adapter(ts: ThemeSet, theme: &str) -> (a: SyntectAdapter)
    ensures
        adapter_customs(a) == ts_customs(ts),
        adapter_theme(a) == theme@,
{
    SyntectAdapterBuilder::new().theme_set(ts).theme(theme).build()
}

/// Relies on `comrak::markdown_to_html_with_plugins` with the syntect
/// code-fence highlighter: with a fixed option set the emitted HTML is a
/// deterministic function of the adapter's themes, its selected theme, the
/// heading-anchor prefix, and the source. The selected theme must resolve,
/// else highlighting a code fence would panic.
#[verifier::external_body]
pub fn render_markdown_html(adapter: &SyntectAdapter, prefix: &str, src: &str) -> (r: String)
    requires
        registered(adapter_customs(*adapter), adapter_theme(*adapter)),
    ensures
        r@ == rendered_html(adapter_customs(*adapter), adapter_theme(*adapter), prefix@, src@),
{
    let mut options = comrak::Options::default();
    options.extension.strikethrough = true;
    options.extension.header_id_prefix = Some(prefix.to_string());
    options.extension.alerts = true;
    options.extension.tasklist = true;
    options.extension.spoiler = true;
    let mut plugins = comrak::options::Plugins::default();
    plugins.render.codefence_syntax_highlighter = Some(adapter);
    comrak::markdown_to_html_with_plugins(src, &options, &plugins)
}

} // verus!
