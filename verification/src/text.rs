//! Character-level string utilities shared by the whole crate.
//!
//! Exec code works over `Vec<char>` so that every transformation is verified;
//! the two conversions between `str` and `Vec<char>` are the only trusted
//! steps, and each states exactly that the character sequence is preserved.

use vstd::prelude::*;

verus! {

/// Relies on `str::chars`: iterating a `&str` yields exactly its characters.
#[verifier::external_body]
pub fn chars_of(s: &str) -> (r: Vec<char>)
    ensures
        r@ == s@,
{
    s.chars().collect()
}

/// Relies on `String`'s `FromIterator<char>`: collecting characters builds
/// the string with exactly those characters.
#[verifier::external_body]
pub fn string_of(cs: &Vec<char>) -> (r: String)
    ensures
        r@ == cs@,
{
    cs.iter().collect()
}

/// Relies on `str`'s `PartialEq`: string slices compare equal exactly when
/// their characters do.
#[verifier::external_body]
pub fn str_eq(a: &str, b: &str) -> (r: bool)
    ensures
        r == (a@ == b@),
{
    a == b
}

/// Lexicographic order on character sequences by code point, `a <= b`.
/// UTF-8 encoding preserves code-point order, so this agrees with the byte
/// order `str::cmp` uses.
pub open spec fn seq_le(a: Seq<char>, b: Seq<char>) -> bool
    decreases a.len(),
{
    if a.len() == 0 {
        true
    } else if b.len() == 0 {
        false
    } else if a[0] == b[0] {
        seq_le(a.drop_first(), b.drop_first())
    } else {
        (a[0] as u32) < (b[0] as u32)
    }
}

/// `seq_le` is total: any two sequences compare one way or the other.
pub proof fn lemma_seq_le_total(a: Seq<char>, b: Seq<char>)
    ensures
        seq_le(a, b) || seq_le(b, a),
    decreases a.len(),
{
    if a.len() != 0 && b.len() != 0 {
        if a[0] == b[0] {
            lemma_seq_le_total(a.drop_first(), b.drop_first());
        } else {
            vstd::utf8::char_u32_cast(a[0], a[0] as u32);
            vstd::utf8::char_u32_cast(b[0], b[0] as u32);
            assert((a[0] as u32) != (b[0] as u32));
        }
    }
}

/// Decides `seq_le` on character vectors.
pub fn chars_le(a: &Vec<char>, b: &Vec<char>) -> (r: bool)
    ensures
        r == seq_le(a@, b@),
{
    let mut i: usize = 0;
    proof {
        assert(a@.skip(0) =~= a@);
        assert(b@.skip(0) =~= b@);
    }
    loop
        invariant
            i <= a.len(),
            i <= b.len(),
            forall|j: int| 0 <= j < i ==> a@[j] == b@[j],
            seq_le(a@, b@) == seq_le(a@.skip(i as int), b@.skip(i as int)),
        decreases a.len() - i,
    {
        proof {
            assert(a@.skip(i as int).len() == a@.len() - i);
            assert(b@.skip(i as int).len() == b@.len() - i);
        }
        if i == a.len() {
            return true;
        }
        if i == b.len() {
            return false;
        }
        let ca = a[i];
        let cb = b[i];
        proof {
            assert(a@.skip(i as int)[0] == a@[i as int]);
            assert(b@.skip(i as int)[0] == b@[i as int]);
            assert(a@.skip(i as int).drop_first() =~= a@.skip(i as int + 1));
            assert(b@.skip(i as int).drop_first() =~= b@.skip(i as int + 1));
        }
        if ca != cb {
            return (ca as u32) < (cb as u32);
        }
        i = i + 1;
    }
}

/// Appends the characters of a string slice to a character vector.
pub fn push_str_chars(out: &mut Vec<char>, s: &str)
    ensures
        final(out)@ == old(out)@ + s@,
{
    let mut t = chars_of(s);
    out.append(&mut t);
}

/// Decides `seq_le` on string slices.
pub fn str_le(a: &str, b: &str) -> (r: bool)
    ensures
        r == seq_le(a@, b@),
{
    let av = chars_of(a);
    let bv = chars_of(b);
    chars_le(&av, &bv)
}

/// Index of the first occurrence of `c` in `s`, or `s.len()` if absent.
pub open spec fn first_idx(s: Seq<char>, c: char) -> int
    decreases s.len(),
{
    if s.len() == 0 {
        0
    } else if s[0] == c {
        0
    } else {
        1 + first_idx(s.drop_first(), c)
    }
}

pub proof fn lemma_first_idx_bounds(s: Seq<char>, c: char)
    ensures
        0 <= first_idx(s, c) <= s.len(),
        first_idx(s, c) < s.len() ==> s[first_idx(s, c)] == c,
        forall|k: int| 0 <= k < first_idx(s, c) ==> s[k] != c,
    decreases s.len(),
{
    if s.len() > 0 && s[0] != c {
        lemma_first_idx_bounds(s.drop_first(), c);
        assert forall|k: int| 0 <= k < first_idx(s, c) implies s[k] != c by {
            if k > 0 {
                assert(s.drop_first()[k - 1] != c);
            }
        }
    }
}

/// Pins `first_idx` from what a left-to-right scan saw.
pub proof fn lemma_first_idx_is(s: Seq<char>, c: char, i: int)
    requires
        0 <= i <= s.len(),
        forall|k: int| 0 <= k < i ==> s[k] != c,
        i < s.len() ==> s[i] == c,
    ensures
        first_idx(s, c) == i,
    decreases s.len(),
{
    if s.len() > 0 && s[0] != c {
        lemma_first_idx_is(s.drop_first(), c, i - 1);
    }
}

/// The fields of `s` between occurrences of the separator `c`, in order.
/// A string without the separator is one field; every separator ends a
/// field, so `n` separators give `n + 1` fields.
pub open spec fn split_on(s: Seq<char>, c: char) -> Seq<Seq<char>>
    decreases s.len(),
{
    let i = first_idx(s, c);
    if 0 <= i < s.len() {
        seq![s.take(i)] + split_on(s.skip(i + 1), c)
    } else {
        seq![s]
    }
}

/// The fields from position `i` on, joined by the separator `c`.
pub open spec fn join_from(fields: Seq<Seq<char>>, i: int, c: char) -> Seq<char>
    decreases fields.len() - i,
{
    if i < 0 || i >= fields.len() {
        Seq::empty()
    } else if i == fields.len() - 1 {
        fields[i]
    } else {
        fields[i] + seq![c] + join_from(fields, i + 1, c)
    }
}

/// Splits a character vector on a separator character.
pub fn split_on_exec(cs: &Vec<char>, c: char) -> (r: Vec<Vec<char>>)
    ensures
        r.deep_view() == split_on(cs@, c),
        r.len() >= 1,
{
    let mut out: Vec<Vec<char>> = Vec::new();
    let mut cur: Vec<char> = Vec::new();
    let mut start: usize = 0;
    let mut i: usize = 0;
    proof {
        assert(cs@.skip(0) =~= cs@);
        assert(cur@ =~= cs@.subrange(0, 0));
    }
    loop
        invariant
            start <= i <= cs.len(),
            cur@ == cs@.subrange(start as int, i as int),
            forall|k: int| start <= k < i ==> cs@[k] != c,
            split_on(cs@, c) == out.deep_view() + split_on(cs@.skip(start as int), c),
        decreases cs.len() - i,
    {
        if i == cs.len() {
            proof {
                let t = cs@.skip(start as int);
                lemma_first_idx_is(t, c, t.len() as int);
                assert(t =~= cur@);
            }
            let ghost old_out = out.deep_view();
            out.push(cur);
            proof {
                assert(out.deep_view() =~~= old_out + seq![cs@.subrange(start as int, i as int)]);
                assert(split_on(cs@, c) =~~= out.deep_view());
            }
            return out;
        }
        let ch = cs[i];
        if ch == c {
            proof {
                let t = cs@.skip(start as int);
                lemma_first_idx_is(t, c, i - start);
                assert(t.take(i - start) =~= cs@.subrange(start as int, i as int));
                assert(t.skip(i - start + 1) =~= cs@.skip(i as int + 1));
                assert(split_on(t, c) == seq![t.take(i - start)] + split_on(
                    cs@.skip(i as int + 1),
                    c,
                ));
            }
            let ghost old_out = out.deep_view();
            out.push(cur);
            proof {
                assert(out.deep_view() =~~= old_out + seq![cs@.subrange(start as int, i as int)]);
                assert(split_on(cs@, c) == out.deep_view() + split_on(cs@.skip(i as int + 1), c));
            }
            cur = Vec::new();
            start = i + 1;
            i = i + 1;
            proof {
                assert(cur@ =~= cs@.subrange(start as int, i as int));
            }
        } else {
            cur.push(ch);
            i = i + 1;
            proof {
                assert(cur@ =~= cs@.subrange(start as int, i as int));
            }
        }
    }
}

/// Joins the fields from position `from` on with the separator `c`.
pub fn join_from_exec(fields: &Vec<Vec<char>>, from: usize, c: char) -> (r: Vec<char>)
    ensures
        r@ == join_from(fields.deep_view(), from as int, c),
{
    let mut out: Vec<char> = Vec::new();
    if from >= fields.len() {
        return out;
    }
    let mut i: usize = from;
    loop
        invariant
            from <= i < fields.len(),
            join_from(fields.deep_view(), from as int, c) == out@ + join_from(
                fields.deep_view(),
                i as int,
                c,
            ),
        decreases fields.len() - i,
    {
        let mut piece: Vec<char> = Vec::new();
        let fi = &fields[i];
        let mut k: usize = 0;
        while k < fi.len()
            invariant
                k <= fi.len(),
                piece@ == fi@.subrange(0, k as int),
            decreases fi.len() - k,
        {
            piece.push(fi[k]);
            proof {
                assert(piece@ =~= fi@.subrange(0, k + 1));
            }
            k = k + 1;
        }
        proof {
            assert(piece@ =~= fields.deep_view()[i as int]);
        }
        out.append(&mut piece);
        if i == fields.len() - 1 {
            proof {
                assert(join_from(fields.deep_view(), i as int, c) == fields.deep_view()[i as int]);
            }
            return out;
        }
        out.push(c);
        proof {
            assert(join_from(fields.deep_view(), i as int, c) == fields.deep_view()[i as int]
                + seq![c] + join_from(fields.deep_view(), i + 1, c));
        }
        i = i + 1;
    }
}

pub open spec fn is_ws(c: char) -> bool {
    c == ' ' || c == '\t' || c == '\r'
}

pub open spec fn trim_start(s: Seq<char>) -> Seq<char>
    decreases s.len(),
{
    if s.len() > 0 && is_ws(s[0]) {
        trim_start(s.drop_first())
    } else {
        s
    }
}

pub open spec fn trim_end(s: Seq<char>) -> Seq<char>
    decreases s.len(),
{
    if s.len() > 0 && is_ws(s[s.len() - 1]) {
        trim_end(s.take(s.len() - 1))
    } else {
        s
    }
}

/// `s` without leading and trailing spaces and tabs.
pub open spec fn trim(s: Seq<char>) -> Seq<char> {
    trim_end(trim_start(s))
}

/// Strips leading and trailing spaces and tabs.
pub fn trim_exec(l: &Vec<char>) -> (r: Vec<char>)
    ensures
        r@ == trim(l@),
{
    let mut a: usize = 0;
    proof {
        assert(l@.skip(0) =~= l@);
    }
    while a < l.len() && (l[a] == ' ' || l[a] == '\t' || l[a] == '\r')
        invariant
            a <= l.len(),
            trim_start(l@) == trim_start(l@.skip(a as int)),
        decreases l.len() - a,
    {
        proof {
            let t = l@.skip(a as int);
            assert(t[0] == l@[a as int]);
            assert(t.drop_first() =~= l@.skip(a as int + 1));
        }
        a = a + 1;
    }
    proof {
        let t = l@.skip(a as int);
        if a < l.len() {
            assert(t[0] == l@[a as int]);
        }
        assert(trim_start(l@) == t);
    }
    let mut b: usize = l.len();
    proof {
        assert(l@.skip(a as int).take(l@.len() - a) =~= l@.skip(a as int));
    }
    while b > a && (l[b - 1] == ' ' || l[b - 1] == '\t' || l[b - 1] == '\r')
        invariant
            a <= b <= l.len(),
            trim_end(l@.skip(a as int)) == trim_end(l@.skip(a as int).take(b - a)),
        decreases b,
    {
        proof {
            let t = l@.skip(a as int).take(b - a);
            assert(t[t.len() - 1] == l@[b - 1]);
            assert(t.take(t.len() - 1) =~= l@.skip(a as int).take(b - 1 - a));
        }
        b = b - 1;
    }
    proof {
        let t = l@.skip(a as int).take(b - a);
        if b > a {
            assert(t[t.len() - 1] == l@[b - 1]);
        }
        assert(trim_end(l@.skip(a as int)) == t);
    }
    let mut out: Vec<char> = Vec::new();
    let mut k: usize = a;
    while k < b
        invariant
            a <= k <= b <= l.len(),
            out@ == l@.subrange(a as int, k as int),
        decreases b - k,
    {
        out.push(l[k]);
        proof {
            assert(out@ =~= l@.subrange(a as int, k + 1));
        }
        k = k + 1;
    }
    proof {
        assert(l@.subrange(a as int, b as int) =~= l@.skip(a as int).take(b - a));
    }
    out
}

/// `v` without one pair of matching surrounding quotes, if it has one.
pub open spec fn unquote(v: Seq<char>) -> Seq<char> {
    if v.len() >= 2 && ((v[0] == '"' && v[v.len() - 1] == '"') || (v[0] == '\'' && v[v.len() - 1]
        == '\'')) {
        v.subrange(1, v.len() - 1)
    } else {
        v
    }
}

/// Removes one pair of matching surrounding quotes, if present.
pub fn unquote_exec(v: &Vec<char>) -> (r: Vec<char>)
    ensures
        r@ == unquote(v@),
{
    if v.len() >= 2 && ((v[0] == '"' && v[v.len() - 1] == '"') || (v[0] == '\'' && v[v.len() - 1]
        == '\'')) {
        let mut out: Vec<char> = Vec::new();
        let mut k: usize = 1;
        while k < v.len() - 1
            invariant
                1 <= k <= v.len() - 1,
                v.len() >= 2,
                out@ == v@.subrange(1, k as int),
            decreases v.len() - k,
        {
            out.push(v[k]);
            proof {
                assert(out@ =~= v@.subrange(1, k + 1));
            }
            k = k + 1;
        }
        out
    } else {
        let mut out: Vec<char> = Vec::new();
        let mut k: usize = 0;
        while k < v.len()
            invariant
                k <= v.len(),
                out@ == v@.subrange(0, k as int),
            decreases v.len() - k,
        {
            out.push(v[k]);
            proof {
                assert(out@ =~= v@.subrange(0, k + 1));
            }
            k = k + 1;
        }
        proof {
            assert(out@ =~= v@);
        }
        out
    }
}

/// Copies the characters of `v` between positions `a` and `b`.
pub fn sub_vec(v: &Vec<char>, a: usize, b: usize) -> (r: Vec<char>)
    requires
        a <= b <= v@.len(),
    ensures
        r@ == v@.subrange(a as int, b as int),
{
    let mut out: Vec<char> = Vec::new();
    let mut k: usize = a;
    while k < b
        invariant
            a <= k <= b <= v@.len(),
            out@ == v@.subrange(a as int, k as int),
        decreases b - k,
    {
        out.push(v[k]);
        proof {
            assert(out@ =~= v@.subrange(a as int, k + 1));
        }
        k = k + 1;
    }
    out
}

/// Position of the first occurrence of `c` in `v`, or `v.len()` if absent.
pub fn find_char(v: &Vec<char>, c: char) -> (r: usize)
    ensures
        r == first_idx(v@, c),
        r <= v@.len(),
{
    let mut k: usize = 0;
    while k < v.len()
        invariant
            k <= v@.len(),
            forall|j: int| 0 <= j < k ==> v@[j] != c,
        decreases v.len() - k,
    {
        if v[k] == c {
            proof {
                lemma_first_idx_is(v@, c, k as int);
            }
            return k;
        }
        k = k + 1;
    }
    proof {
        lemma_first_idx_is(v@, c, v@.len() as int);
    }
    v.len()
}

/// Position of the first occurrence of `c` at or after `from`, or `v.len()`
/// if absent there.
pub fn find_char_from(v: &Vec<char>, c: char, from: usize) -> (r: usize)
    requires
        from <= v@.len(),
    ensures
        r == from + first_idx(v@.skip(from as int), c),
        from <= r <= v@.len(),
        r < v@.len() ==> v@[r as int] == c,
{
    let ghost t = v@.skip(from as int);
    let mut k: usize = from;
    while k < v.len()
        invariant
            from <= k <= v@.len(),
            t == v@.skip(from as int),
            forall|j: int| 0 <= j < k - from ==> t[j] != c,
        decreases v.len() - k,
    {
        if v[k] == c {
            proof {
                assert(t[k - from] == v@[k as int]);
                lemma_first_idx_is(t, c, k - from);
            }
            return k;
        }
        proof {
            assert(t[k - from] == v@[k as int]);
        }
        k = k + 1;
    }
    proof {
        lemma_first_idx_is(t, c, t.len() as int);
    }
    v.len()
}

/// Whether a character vector spells the same characters as a string slice.
pub fn chars_eq_str(v: &Vec<char>, s: &str) -> (r: bool)
    ensures
        r == (v@ == s@),
{
    let t = string_of(v);
    str_eq(t.as_str(), s)
}

} // verus!
