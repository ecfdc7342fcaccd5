//! Escaping for the feed formats.
//!
//! XML text and attribute values are entity-escaped; HTML payloads ride in
//! CDATA sections whose every embedded `]]>` is split so the section never
//! ends early; JSON strings get the usual backslash escapes with control
//! characters as `\u00XX`.

use vstd::prelude::*;

use crate::text::{chars_of, string_of};

verus! {

/// The entity replacement for one character in XML text.
pub open spec fn xml_escape_char(c: char) -> Seq<char> {
    if c == '&' {
        "&amp;"@
    } else if c == '<' {
        "&lt;"@
    } else if c == '>' {
        "&gt;"@
    } else if c == '"' {
        "&quot;"@
    } else if c == '\'' {
        "&#39;"@
    } else {
        seq![c]
    }
}

/// `s` with every XML-significant character entity-escaped.
pub open spec fn xml_escape(s: Seq<char>) -> Seq<char>
    decreases s.len(),
{
    if s.len() == 0 {
        Seq::empty()
    } else {
        xml_escape_char(s[0]) + xml_escape(s.drop_first())
    }
}

/// Entity-escapes a string for insertion into XML text or an attribute.
#[verifier::loop_isolation(false)]
pub fn xml_escape_exec(s: &str) -> (r: String)
    ensures
        r@ == xml_escape(s@),
{
    let cs = chars_of(s);
    let mut out: Vec<char> = Vec::new();
    let mut i: usize = 0;
    proof {
        assert(cs@.skip(0) =~= cs@);
    }
    while i < cs.len()
        invariant
            i <= cs.len(),
            xml_escape(cs@) == out@ + xml_escape(cs@.skip(i as int)),
        decreases cs.len() - i,
    {
        let c = cs[i];
        proof {
            assert(cs@.skip(i as int)[0] == cs@[i as int]);
            assert(cs@.skip(i as int).drop_first() =~= cs@.skip(i as int + 1));
        }
        if c == '&' {
            let mut t = chars_of("&amp;");
            out.append(&mut t);
        } else if c == '<' {
            let mut t = chars_of("&lt;");
            out.append(&mut t);
        } else if c == '>' {
            let mut t = chars_of("&gt;");
            out.append(&mut t);
        } else if c == '"' {
            let mut t = chars_of("&quot;");
            out.append(&mut t);
        } else if c == '\'' {
            let mut t = chars_of("&#39;");
            out.append(&mut t);
        } else {
            out.push(c);
        }
        i = i + 1;
    }
    proof {
        assert(xml_escape(cs@.skip(cs@.len() as int)) =~= Seq::<char>::empty());
    }
    string_of(&out)
}

/// Entity-escaped text holds no raw markup character: `<`, `>`, `"` and
/// `'` are gone, so it can stand in XML text and in quoted attributes.
pub proof fn lemma_xml_escape_no_markup(s: Seq<char>)
    ensures
        forall|k: int|
            0 <= k < xml_escape(s).len() ==> #[trigger] xml_escape(s)[k] != '<' && xml_escape(s)[k]
                != '>' && xml_escape(s)[k] != '"' && xml_escape(s)[k] != '\'',
    decreases s.len(),
{
    reveal_strlit("&amp;");
    reveal_strlit("&lt;");
    reveal_strlit("&gt;");
    reveal_strlit("&quot;");
    reveal_strlit("&#39;");
    if s.len() > 0 {
        lemma_xml_escape_no_markup(s.drop_first());
        let hd = xml_escape_char(s[0]);
        let tl = xml_escape(s.drop_first());
        assert forall|k: int|
            0 <= k < xml_escape(s).len() implies #[trigger] xml_escape(s)[k] != '<' && xml_escape(
            s,
        )[k] != '>' && xml_escape(s)[k] != '"' && xml_escape(s)[k] != '\'' by {
            if k < hd.len() {
                assert(xml_escape(s)[k] == hd[k]);
            } else {
                assert(xml_escape(s)[k] == tl[k - hd.len()]);
            }
        }
    }
}

/// The CDATA body of `s`: every `]]>` split so that the section closes and
/// reopens around it, and no other character touched.
pub open spec fn cdata_body(s: Seq<char>) -> Seq<char>
    decreases s.len(),
{
    if s.len() == 0 {
        Seq::empty()
    } else if s.len() >= 3 && s[0] == ']' && s[1] == ']' && s[2] == '>' {
        "]]]]><![CDATA[>"@ + cdata_body(s.skip(3))
    } else {
        seq![s[0]] + cdata_body(s.drop_first())
    }
}

/// `s` wrapped in a CDATA section, embedded `]]>` split safely.
pub open spec fn cdata_wrap(s: Seq<char>) -> Seq<char> {
    "<![CDATA["@ + cdata_body(s) + "]]>"@
}

/// Wraps a string in a CDATA section, splitting every embedded `]]>`.
#[verifier::loop_isolation(false)]
pub fn cdata_wrap_exec(s: &str) -> (r: String)
    ensures
        r@ == cdata_wrap(s@),
{
    let cs = chars_of(s);
    let mut out: Vec<char> = chars_of("<![CDATA[");
    let mut i: usize = 0;
    proof {
        assert(cs@.skip(0) =~= cs@);
    }
    while i < cs.len()
        invariant
            i <= cs.len(),
            "<![CDATA["@ + cdata_body(cs@) == out@ + cdata_body(cs@.skip(i as int)),
        decreases cs.len() - i,
    {
        proof {
            assert(cs@.skip(i as int)[0] == cs@[i as int]);
        }
        if cs.len() - i > 2 && cs[i] == ']' && cs[i + 1] == ']' && cs[i + 2] == '>' {
            proof {
                assert(cs@.skip(i as int)[1] == cs@[i as int + 1]);
                assert(cs@.skip(i as int)[2] == cs@[i as int + 2]);
                assert(cs@.skip(i as int).skip(3) =~= cs@.skip(i as int + 3));
            }
            let mut t = chars_of("]]]]><![CDATA[>");
            out.append(&mut t);
            i = i + 3;
        } else {
            proof {
                let t = cs@.skip(i as int);
                if t.len() >= 3 && t[0] == ']' && t[1] == ']' && t[2] == '>' {
                    assert(cs@[i as int + 1] == t[1]);
                    assert(cs@[i as int + 2] == t[2]);
                    assert(false);
                }
                assert(t.drop_first() =~= cs@.skip(i as int + 1));
            }
            out.push(cs[i]);
            i = i + 1;
        }
    }
    proof {
        assert(cdata_body(cs@.skip(cs@.len() as int)) =~= Seq::<char>::empty());
    }
    let mut tail = chars_of("]]>");
    out.append(&mut tail);
    string_of(&out)
}

/// A payload without `]]>` rides through its CDATA body untouched.
pub proof fn lemma_cdata_body_id(s: Seq<char>)
    requires
        forall|o: int|
            0 <= o <= s.len() - 3 ==> !(s[o] == ']' && s[o + 1] == ']' && #[trigger] s[o + 2]
                == '>'),
    ensures
        cdata_body(s) == s,
    decreases s.len(),
{
    if s.len() > 0 {
        if s.len() >= 3 && s[0] == ']' && s[1] == ']' && s[2] == '>' {
            assert(!(s[0int] == ']' && s[0int + 1] == ']' && s[0int + 2] == '>'));
        }
        let t = s.drop_first();
        assert forall|o: int|
            0 <= o <= t.len() - 3 implies !(t[o] == ']' && t[o + 1] == ']' && #[trigger] t[o + 2]
            == '>') by {
            assert(t[o] == s[o + 1] && t[o + 1] == s[o + 2] && t[o + 2] == s[o + 3]);
            assert(!(s[o + 1] == ']' && s[o + 2] == ']' && s[o + 1 + 2] == '>'));
        }
        lemma_cdata_body_id(t);
        assert(cdata_body(s) =~= s);
    }
}

/// A hexadecimal digit character for a value below sixteen.
pub open spec fn hex_digit(n: int) -> char {
    if n == 0 {
        '0'
    } else if n == 1 {
        '1'
    } else if n == 2 {
        '2'
    } else if n == 3 {
        '3'
    } else if n == 4 {
        '4'
    } else if n == 5 {
        '5'
    } else if n == 6 {
        '6'
    } else if n == 7 {
        '7'
    } else if n == 8 {
        '8'
    } else if n == 9 {
        '9'
    } else if n == 10 {
        'a'
    } else if n == 11 {
        'b'
    } else if n == 12 {
        'c'
    } else if n == 13 {
        'd'
    } else if n == 14 {
        'e'
    } else {
        'f'
    }
}

fn hex_digit_exec(n: u32) -> (r: char)
    requires
        n < 16,
    ensures
        r == hex_digit(n as int),
{
    if n == 0 {
        '0'
    } else if n == 1 {
        '1'
    } else if n == 2 {
        '2'
    } else if n == 3 {
        '3'
    } else if n == 4 {
        '4'
    } else if n == 5 {
        '5'
    } else if n == 6 {
        '6'
    } else if n == 7 {
        '7'
    } else if n == 8 {
        '8'
    } else if n == 9 {
        '9'
    } else if n == 10 {
        'a'
    } else if n == 11 {
        'b'
    } else if n == 12 {
        'c'
    } else if n == 13 {
        'd'
    } else if n == 14 {
        'e'
    } else {
        'f'
    }
}

/// The replacement for one character in a JSON string literal.
pub open spec fn json_escape_char(c: char) -> Seq<char> {
    if c == '"' {
        "\\\""@
    } else if c == '\\' {
        "\\\\"@
    } else if c == '\n' {
        "\\n"@
    } else if c == '\r' {
        "\\r"@
    } else if c == '\t' {
        "\\t"@
    } else if (c as u32) == 8 {
        "\\b"@
    } else if (c as u32) == 12 {
        "\\f"@
    } else if (c as u32) < 32 {
        "\\u00"@ + seq![hex_digit((c as u32) as int / 16), hex_digit((c as u32) as int % 16)]
    } else {
        seq![c]
    }
}

/// `s` with every character JSON requires escaped replaced.
pub open spec fn json_escape(s: Seq<char>) -> Seq<char>
    decreases s.len(),
{
    if s.len() == 0 {
        Seq::empty()
    } else {
        json_escape_char(s[0]) + json_escape(s.drop_first())
    }
}

/// Escapes a string for use inside a JSON string literal.
#[verifier::loop_isolation(false)]
pub fn json_escape_exec(s: &str) -> (r: String)
    ensures
        r@ == json_escape(s@),
{
    let cs = chars_of(s);
    let mut out: Vec<char> = Vec::new();
    let mut i: usize = 0;
    proof {
        assert(cs@.skip(0) =~= cs@);
    }
    while i < cs.len()
        invariant
            i <= cs.len(),
            json_escape(cs@) == out@ + json_escape(cs@.skip(i as int)),
        decreases cs.len() - i,
    {
        let c = cs[i];
        proof {
            assert(cs@.skip(i as int)[0] == cs@[i as int]);
            assert(cs@.skip(i as int).drop_first() =~= cs@.skip(i as int + 1));
        }
        if c == '"' {
            let mut t = chars_of("\\\"");
            out.append(&mut t);
        } else if c == '\\' {
            let mut t = chars_of("\\\\");
            out.append(&mut t);
        } else if c == '\n' {
            let mut t = chars_of("\\n");
            out.append(&mut t);
        } else if c == '\r' {
            let mut t = chars_of("\\r");
            out.append(&mut t);
        } else if c == '\t' {
            let mut t = chars_of("\\t");
            out.append(&mut t);
        } else if (c as u32) == 8 {
            let mut t = chars_of("\\b");
            out.append(&mut t);
        } else if (c as u32) == 12 {
            let mut t = chars_of("\\f");
            out.append(&mut t);
        } else if (c as u32) < 32 {
            let mut t = chars_of("\\u00");
            out.append(&mut t);
            out.push(hex_digit_exec((c as u32) / 16));
            out.push(hex_digit_exec((c as u32) % 16));
        } else {
            out.push(c);
        }
        i = i + 1;
    }
    proof {
        assert(json_escape(cs@.skip(cs@.len() as int)) =~= Seq::<char>::empty());
    }
    string_of(&out)
}

} // verus!
