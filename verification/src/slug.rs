//! Heading slugs.
//!
//! A slug is derived from heading text by one fixed rule: lowercase the
//! text, drop every character that is neither alphanumeric nor a space,
//! turn the remaining spaces into hyphens, and put the anchor namespace
//! prefix in front. The same rule drives both the table of contents and
//! the anchors the HTML emitter assigns, so in-page links stay consistent.

use vstd::prelude::*;

use crate::text::{chars_of, string_of};

verus! {

/// The anchor namespace put in front of every heading slug.
pub open spec fn slug_prefix() -> Seq<char> {
    "md-heading-"@
}

/// What `str::to_lowercase` returns for these characters.
pub uninterp spec fn lower_of(s: Seq<char>) -> Seq<char>;

/// Relies on `str::to_lowercase`: the result depends on the characters
/// alone, and an empty string stays empty.
#[verifier::external_body]
pub fn lowercase(s: &str) -> (r: String)
    ensures
        r@ == lower_of(s@),
        s@.len() == 0 ==> r@.len() == 0,
{
    s.to_lowercase()
}

/// What `char::is_alphanumeric` returns for this character.
pub uninterp spec fn is_alnum(c: char) -> bool;

/// Relies on `char::is_alphanumeric`: true exactly for Unicode letters and
/// numbers, a function of the character alone.
#[verifier::external_body]
pub fn char_is_alnum(c: char) -> (r: bool)
    ensures
        r == is_alnum(c),
{
    c.is_alphanumeric()
}

/// The slug body: alphanumerics kept, spaces turned into hyphens, all
/// other characters dropped.
pub open spec fn slug_core(s: Seq<char>) -> Seq<char>
    decreases s.len(),
{
    if s.len() == 0 {
        Seq::empty()
    } else {
        let head: Seq<char> = if is_alnum(s[0]) {
            seq![s[0]]
        } else if s[0] == ' ' {
            seq!['-']
        } else {
            Seq::empty()
        };
        head + slug_core(s.drop_first())
    }
}

/// The slug of a heading text: prefix plus the slug body of its lowercase
/// form.
pub open spec fn slug_of(text: Seq<char>) -> Seq<char> {
    slug_prefix() + slug_core(lower_of(text))
}

/// Computes the slug body of a character vector.
#[verifier::loop_isolation(false)]
pub fn slug_core_exec(cs: &Vec<char>) -> (r: Vec<char>)
    ensures
        r@ == slug_core(cs@),
{
    let mut out: Vec<char> = Vec::new();
    let mut i: usize = 0;
    proof {
        assert(cs@.skip(0) =~= cs@);
    }
    while i < cs.len()
        invariant
            i <= cs.len(),
            slug_core(cs@) == out@ + slug_core(cs@.skip(i as int)),
        decreases cs.len() - i,
    {
        let c = cs[i];
        proof {
            let t = cs@.skip(i as int);
            assert(t[0] == cs@[i as int]);
            assert(t.drop_first() =~= cs@.skip(i as int + 1));
        }
        if char_is_alnum(c) {
            out.push(c);
        } else if c == ' ' {
            out.push('-');
        }
        i = i + 1;
    }
    proof {
        assert(slug_core(cs@.skip(cs@.len() as int)) =~= Seq::<char>::empty());
    }
    out
}

/// Derives the anchor slug of a heading text.
pub fn slug_for(text: &str) -> (r: String)
    ensures
        r@ == slug_of(text@),
{
    let low = lowercase(text);
    let lc = chars_of(low.as_str());
    let core = slug_core_exec(&lc);
    let mut out = chars_of("md-heading-");
    let mut tail = core;
    out.append(&mut tail);
    string_of(&out)
}

} // verus!
