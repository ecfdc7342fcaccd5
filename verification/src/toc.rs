//! Table-of-contents extraction.
//!
//! Headings are gathered from the Markdown source line by line: a line
//! opening with one to six `#` characters (after at most three spaces of
//! indent), or a line over a `=`/`-` setext underline, is a heading,
//! unless it sits inside a fenced code block. The heading's plain text is
//! the inline content with only matching markup removed — emphasis runs
//! that pair up, complete link and image shapes — while code-span content
//! rides through verbatim and every unmatched `*`, `_`, `[`, `]` or `!`
//! stays literal text. The anchor id is the slug of that text. Entries
//! keep document order and stay flat — consumers rebuild nesting from the
//! levels.

use vstd::prelude::*;

use crate::slug::{char_is_alnum, is_alnum, slug_for, slug_of};
use crate::text::{
    chars_of, find_char_from, first_idx, is_ws, split_on, split_on_exec, string_of, sub_vec, trim,
    trim_exec,
};

verus! {

/// One table-of-contents entry: heading level, plain text, anchor id.
#[derive(Clone, Debug, PartialEq, Eq)]
pub struct TocItem {
    pub level: u8,
    pub text: String,
    pub id: String,
}

/// Mathematical image of a [`TocItem`].
#[verifier::ext_equal]
pub struct TocItemView {
    pub level: int,
    pub text: Seq<char>,
    pub id: Seq<char>,
}

impl View for TocItem {
    type V = TocItemView;

    open spec fn view(&self) -> TocItemView {
        TocItemView { level: self.level as int, text: self.text@, id: self.id@ }
    }
}

impl DeepView for TocItem {
    type V = TocItemView;

    open spec fn deep_view(&self) -> TocItemView {
        self.view()
    }
}

/// Length of the run of `c` starting at position `i`.
pub open spec fn char_run(s: Seq<char>, c: char, i: int) -> int
    decreases s.len() - i,
{
    if 0 <= i < s.len() && s[i] == c {
        1 + char_run(s, c, i + 1)
    } else {
        0
    }
}

pub proof fn lemma_char_run_is(s: Seq<char>, c: char, i: int, k: int)
    requires
        0 <= i,
        0 <= k,
        i + k <= s.len(),
        forall|j: int| i <= j < i + k ==> s[j] == c,
        i + k == s.len() || s[i + k] != c,
    ensures
        char_run(s, c, i) == k,
    decreases k,
{
    if k > 0 {
        lemma_char_run_is(s, c, i + 1, k - 1);
    }
}

/// Counts the run of `c` starting at position `i`.
pub fn char_run_exec(v: &Vec<char>, c: char, i: usize) -> (r: usize)
    requires
        i <= v@.len(),
    ensures
        r == char_run(v@, c, i as int),
        i + r <= v@.len(),
        i < v@.len() && v@[i as int] == c ==> r >= 1,
{
    let mut k: usize = i;
    while k < v.len() && v[k] == c
        invariant
            i <= k <= v@.len(),
            forall|j: int| i <= j < k ==> v@[j] == c,
        decreases v.len() - k,
    {
        k = k + 1;
    }
    proof {
        lemma_char_run_is(v@, c, i as int, k - i);
    }
    k - i
}

/// Length of the run of `c` ending the sequence.
pub open spec fn trailing_run(s: Seq<char>, c: char) -> int
    decreases s.len(),
{
    if s.len() > 0 && s[s.len() - 1] == c {
        1 + trailing_run(s.take(s.len() - 1), c)
    } else {
        0
    }
}

pub proof fn lemma_trailing_run_is(s: Seq<char>, c: char, k: int)
    requires
        0 <= k <= s.len(),
        forall|j: int| s.len() - k <= j < s.len() ==> s[j] == c,
        k == s.len() || s[s.len() - k - 1] != c,
    ensures
        trailing_run(s, c) == k,
    decreases k,
{
    if k > 0 {
        let t = s.take(s.len() - 1);
        assert forall|j: int| t.len() - (k - 1) <= j < t.len() implies t[j] == c by {
            assert(t[j] == s[j]);
        }
        lemma_trailing_run_is(t, c, k - 1);
    }
}

/// Counts the run of `c` ending the vector.
pub fn trailing_run_exec(v: &Vec<char>, c: char) -> (r: usize)
    ensures
        r == trailing_run(v@, c),
        r <= v@.len(),
{
    let mut k: usize = 0;
    while k < v.len() && v[v.len() - 1 - k] == c
        invariant
            k <= v@.len(),
            forall|j: int| v@.len() - k <= j < v@.len() ==> v@[j] == c,
        decreases v.len() - k,
    {
        k = k + 1;
    }
    proof {
        lemma_trailing_run_is(v@, c, k as int);
    }
    k
}

/// ASCII punctuation, the characters a backslash escapes.
pub open spec fn is_ascii_punct(c: char) -> bool {
    let u = c as u32;
    (33 <= u && u <= 47) || (58 <= u && u <= 64) || (91 <= u && u <= 96) || (123 <= u && u <= 126)
}

fn is_ascii_punct_exec(c: char) -> (r: bool)
    ensures
        r == is_ascii_punct(c),
{
    let u = c as u32;
    (33 <= u && u <= 47) || (58 <= u && u <= 64) || (91 <= u && u <= 96) || (123 <= u && u <= 126)
}

/// Position of the closing backtick run of exactly `n` at or after `j`.
pub open spec fn find_close(s: Seq<char>, n: int, j: int) -> Option<int>
    decreases s.len() - j,
{
    if j < 0 || j >= s.len() {
        Option::None
    } else if s[j] == '`' {
        let r = char_run(s, '`', j);
        if r == n {
            Option::Some(j)
        } else if r >= 1 && j + r <= s.len() {
            find_close(s, n, j + r)
        } else {
            Option::None
        }
    } else {
        find_close(s, n, j + 1)
    }
}

/// Scans for a closing backtick run of exactly `n`, from `start` on.
fn find_close_exec(v: &Vec<char>, n: usize, start: usize) -> (r: Option<usize>)
    requires
        start <= v@.len(),
    ensures
        match r {
            Option::Some(j) => find_close(v@, n as int, start as int) == Option::Some(j as int)
                && start <= j && j + n <= v@.len(),
            Option::None => find_close(v@, n as int, start as int) is None,
        },
{
    let mut j: usize = start;
    loop
        invariant
            start <= j <= v@.len(),
            find_close(v@, n as int, start as int) == find_close(v@, n as int, j as int),
        decreases v.len() - j,
    {
        if j == v.len() {
            return Option::None;
        }
        if v[j] == '`' {
            let r = char_run_exec(v, '`', j);
            if r == n {
                return Option::Some(j);
            }
            j = j + r;
        } else {
            j = j + 1;
        }
    }
}

/// Code-span content: one space stripped from each end when both are
/// present.
pub open spec fn code_text(c: Seq<char>) -> Seq<char> {
    if c.len() >= 2 && c[0] == ' ' && c[c.len() - 1] == ' ' {
        c.subrange(1, c.len() - 1)
    } else {
        c
    }
}

/// Space or tab, the separators that block emphasis flanking.
pub open spec fn is_sp(c: char) -> bool {
    c == ' ' || c == '\t'
}

/// Open-delimiter bookkeeping while reading inline text: how many
/// unclosed emphasis runs of each character and how many open links.
#[verifier::ext_equal]
pub struct InlineState {
    pub stars: int,
    pub unders: int,
    pub links: int,
}

pub open spec fn init_inline() -> InlineState {
    InlineState { stars: 0, unders: 0, links: 0 }
}

pub open spec fn open_runs(st: InlineState, c: char) -> int {
    if c == '*' {
        st.stars
    } else {
        st.unders
    }
}

pub open spec fn bump_runs(st: InlineState, c: char, d: int) -> InlineState {
    if c == '*' {
        InlineState { stars: st.stars + d, ..st }
    } else {
        InlineState { unders: st.unders + d, ..st }
    }
}

/// A delimiter run may open emphasis: something other than whitespace
/// follows it, and an underscore run is not glued to a preceding word
/// character (intraword underscores stay literal).
pub open spec fn run_can_open(s: Seq<char>, i: int, n: int, c: char) -> bool {
    &&& i + n < s.len() && !is_sp(s[i + n])
    &&& (c == '_' ==> !(i > 0 && is_alnum(s[i - 1])))
}

/// A delimiter run may close emphasis: something other than whitespace
/// precedes it, and an underscore run is not glued to a following word
/// character.
pub open spec fn run_can_close(s: Seq<char>, i: int, n: int, c: char) -> bool {
    &&& i > 0 && !is_sp(s[i - 1])
    &&& (c == '_' ==> !(i + n < s.len() && is_alnum(s[i + n])))
}

/// Whether some delimiter run of `c` at or after `j` may close emphasis.
pub open spec fn has_closer(s: Seq<char>, c: char, j: int) -> bool
    decreases s.len() - j,
{
    if j < 0 || j >= s.len() {
        false
    } else if s[j] == c {
        let n = char_run(s, c, j);
        if run_can_close(s, j, n, c) {
            true
        } else if n >= 1 && j + n <= s.len() {
            has_closer(s, c, j + n)
        } else {
            false
        }
    } else {
        has_closer(s, c, j + 1)
    }
}

/// Scans for a closing delimiter run of `c`, from `start` on.
fn has_closer_exec(v: &Vec<char>, c: char, start: usize) -> (r: bool)
    requires
        start <= v@.len(),
    ensures
        r == has_closer(v@, c, start as int),
{
    let mut j: usize = start;
    loop
        invariant
            start <= j <= v@.len(),
            has_closer(v@, c, start as int) == has_closer(v@, c, j as int),
        decreases v.len() - j,
    {
        if j == v.len() {
            return false;
        }
        if v[j] == c {
            let n = char_run_exec(v, c, j);
            if close_ok_exec(v, j, n, c) {
                return true;
            }
            j = j + n;
        } else {
            j = j + 1;
        }
    }
}

fn open_ok_exec(v: &Vec<char>, i: usize, n: usize, c: char) -> (r: bool)
    requires
        i + n <= v@.len(),
    ensures
        r == run_can_open(v@, i as int, n as int, c),
{
    let vlen = v.len();
    if n >= vlen - i {
        return false;
    }
    let nx = v[i + n];
    if nx == ' ' || nx == '\t' {
        return false;
    }
    if c == '_' && i > 0 && char_is_alnum(v[i - 1]) {
        return false;
    }
    true
}

fn close_ok_exec(v: &Vec<char>, i: usize, n: usize, c: char) -> (r: bool)
    requires
        i + n <= v@.len(),
    ensures
        r == run_can_close(v@, i as int, n as int, c),
{
    if i == 0 {
        return false;
    }
    let pv = v[i - 1];
    if pv == ' ' || pv == '\t' {
        return false;
    }
    let vlen = v.len();
    if c == '_' && n < vlen - i && char_is_alnum(v[i + n]) {
        return false;
    }
    true
}

/// A link shape opens at `i`: a `[`, a `]` somewhere after it whose next
/// character is `(`, and a `)` after that.
pub open spec fn link_pattern_at(s: Seq<char>, i: int) -> bool {
    let j = i + 1 + first_idx(s.skip(i + 1), ']');
    &&& j < s.len()
    &&& j + 1 < s.len() && s[j + 1] == '('
    &&& j + 2 + first_idx(s.skip(j + 2), ')') < s.len()
}

fn link_pattern_exec(v: &Vec<char>, i: usize) -> (r: bool)
    requires
        i < v@.len(),
    ensures
        r == link_pattern_at(v@, i as int),
{
    let vlen = v.len();
    let j = find_char_from(v, ']', i + 1);
    if j == v.len() {
        return false;
    }
    if j + 1 >= v.len() || v[j + 1] != '(' {
        return false;
    }
    let p = find_char_from(v, ')', j + 2);
    p < v.len()
}

/// What one step of inline-text extraction consumes and emits at `i`, and
/// the bookkeeping it leaves behind. Only markup that matches is dropped:
/// an emphasis run goes when it closes an open run or opens toward a
/// later closer, brackets go only in a complete link or image shape, and
/// every other character — a literal `*`, `_`, `[`, `]` or `!` included —
/// stays.
pub open spec fn inline_step(s: Seq<char>, i: int, st: InlineState) -> (
    int,
    Seq<char>,
    InlineState,
) {
    if s[i] == '\\' && i + 1 < s.len() && is_ascii_punct(s[i + 1]) {
        (2, seq![s[i + 1]], st)
    } else if s[i] == '`' {
        let n = char_run(s, '`', i);
        match find_close(s, n, i + n) {
            Option::Some(j) => (j + n - i, code_text(s.subrange(i + n, j)), st),
            Option::None => (
                n,
                s.subrange(
                    i,
                    if i + n <= s.len() {
                        i + n
                    } else {
                        s.len() as int
                    },
                ),
                st,
            ),
        }
    } else if s[i] == '!' && i + 1 < s.len() && s[i + 1] == '[' && link_pattern_at(s, i + 1) {
        (1, Seq::empty(), st)
    } else if s[i] == '[' {
        if link_pattern_at(s, i) {
            (1, Seq::empty(), InlineState { links: st.links + 1, ..st })
        } else {
            (1, seq![s[i]], st)
        }
    } else if s[i] == ']' {
        if st.links > 0 && i + 1 < s.len() && s[i + 1] == '(' && i + 2 + first_idx(
            s.skip(i + 2),
            ')',
        ) < s.len() {
            (i + 2 + first_idx(s.skip(i + 2), ')') - i + 1, Seq::empty(), InlineState {
                links: st.links - 1,
                ..st
            })
        } else {
            (1, seq![s[i]], st)
        }
    } else if s[i] == '*' || s[i] == '_' {
        let c = s[i];
        let n = char_run(s, c, i);
        if run_can_close(s, i, n, c) && open_runs(st, c) > 0 {
            (n, Seq::empty(), bump_runs(st, c, -1))
        } else if run_can_open(s, i, n, c) && has_closer(s, c, i + n) {
            (n, Seq::empty(), bump_runs(st, c, 1))
        } else {
            (
                n,
                s.subrange(
                    i,
                    if i + n <= s.len() {
                        i + n
                    } else {
                        s.len() as int
                    },
                ),
                st,
            )
        }
    } else {
        (1, seq![s[i]], st)
    }
}

/// The plain text of inline Markdown from position `i` on: text kept,
/// code-span content verbatim, matched emphasis delimiters, link
/// destinations and image markers dropped, backslash escapes resolved,
/// and every unmatched delimiter character kept as literal text.
pub open spec fn inline_text_from(s: Seq<char>, i: int, st: InlineState) -> Seq<char>
    decreases s.len() - i,
{
    if i < 0 || i >= s.len() {
        Seq::empty()
    } else {
        let step = inline_step(s, i, st);
        let n = if step.0 >= 1 {
            step.0
        } else {
            1
        };
        let next = if i + n <= s.len() {
            i + n
        } else {
            s.len() as int
        };
        step.1 + inline_text_from(s, next, step.2)
    }
}

/// The plain text of a heading's inline content.
pub open spec fn inline_text(s: Seq<char>) -> Seq<char> {
    inline_text_from(s, 0, init_inline())
}

/// Extracts the plain text of a heading's inline content.
#[verifier::loop_isolation(false)]
#[verifier::rlimit(100)]
pub fn inline_text_exec(cs: &Vec<char>) -> (r: Vec<char>)
    ensures
        r@ == inline_text(cs@),
{
    let mut out: Vec<char> = Vec::new();
    let mut stars: usize = 0;
    let mut unders: usize = 0;
    let mut links: usize = 0;
    let mut i: usize = 0;
    while i < cs.len()
        invariant
            i <= cs@.len(),
            stars <= i,
            unders <= i,
            links <= i,
            inline_text(cs@) == out@ + inline_text_from(
                cs@,
                i as int,
                InlineState { stars: stars as int, unders: unders as int, links: links as int },
            ),
        decreases cs.len() - i,
    {
        let ghost st = InlineState {
            stars: stars as int,
            unders: unders as int,
            links: links as int,
        };
        let c = cs[i];
        if c == '\\' && i + 1 < cs.len() && is_ascii_punct_exec(cs[i + 1]) {
            proof {
                assert(inline_step(cs@, i as int, st) == (2int, seq![cs@[i as int + 1]], st));
            }
            out.push(cs[i + 1]);
            i = i + 2;
        } else if c == '`' {
            let n = char_run_exec(cs, '`', i);
            match find_close_exec(cs, n, i + n) {
                Option::Some(j) => {
                    proof {
                        assert(inline_step(cs@, i as int, st) == (
                            j + n - i,
                            code_text(cs@.subrange(i + n, j as int)),
                            st,
                        ));
                    }
                    let content = sub_vec(cs, i + n, j);
                    let trimmed: Vec<char> = if content.len() >= 2 && content[0] == ' '
                        && content[content.len() - 1] == ' ' {
                        sub_vec(&content, 1, content.len() - 1)
                    } else {
                        content
                    };
                    proof {
                        assert(trimmed@ =~= code_text(cs@.subrange(i + n, j as int)));
                        assert(n >= 1);
                    }
                    let mut t = trimmed;
                    out.append(&mut t);
                    i = j + n;
                },
                Option::None => {
                    proof {
                        assert(inline_step(cs@, i as int, st) == (
                            n as int,
                            cs@.subrange(i as int, i + n),
                            st,
                        ));
                        assert(n >= 1);
                    }
                    let mut t = sub_vec(cs, i, i + n);
                    out.append(&mut t);
                    i = i + n;
                },
            }
        } else if c == '!' && i + 1 < cs.len() && cs[i + 1] == '[' && link_pattern_exec(cs, i + 1) {
            proof {
                assert(inline_step(cs@, i as int, st) == (1int, Seq::<char>::empty(), st));
            }
            i = i + 1;
        } else if c == '[' {
            if link_pattern_exec(cs, i) {
                proof {
                    assert(inline_step(cs@, i as int, st) == (
                        1int,
                        Seq::<char>::empty(),
                        InlineState { links: st.links + 1, ..st },
                    ));
                }
                links = links + 1;
                i = i + 1;
            } else {
                proof {
                    assert(inline_step(cs@, i as int, st) == (1int, seq![cs@[i as int]], st));
                }
                out.push(c);
                i = i + 1;
            }
        } else if c == ']' {
            let mut done = false;
            if links > 0 && i + 1 < cs.len() && cs[i + 1] == '(' {
                let p = find_char_from(cs, ')', i + 2);
                if p < cs.len() {
                    proof {
                        assert(inline_step(cs@, i as int, st) == (
                            p + 1 - i,
                            Seq::<char>::empty(),
                            InlineState { links: st.links - 1, ..st },
                        ));
                    }
                    links = links - 1;
                    i = p + 1;
                    done = true;
                }
            }
            if !done {
                proof {
                    assert(inline_step(cs@, i as int, st) == (1int, seq![cs@[i as int]], st));
                }
                out.push(c);
                i = i + 1;
            }
        } else if c == '*' || c == '_' {
            let n = char_run_exec(cs, c, i);
            let can_close = close_ok_exec(cs, i, n, c);
            let opens = if c == '*' {
                stars
            } else {
                unders
            };
            proof {
                assert(opens as int == open_runs(st, c));
                assert(n >= 1);
            }
            if can_close && opens > 0 {
                proof {
                    assert(inline_step(cs@, i as int, st) == (
                        n as int,
                        Seq::<char>::empty(),
                        bump_runs(st, c, -1),
                    ));
                }
                if c == '*' {
                    stars = stars - 1;
                } else {
                    unders = unders - 1;
                }
                i = i + n;
            } else {
                let can_open = open_ok_exec(cs, i, n, c);
                if can_open && has_closer_exec(cs, c, i + n) {
                    proof {
                        assert(inline_step(cs@, i as int, st) == (
                            n as int,
                            Seq::<char>::empty(),
                            bump_runs(st, c, 1),
                        ));
                    }
                    if c == '*' {
                        stars = stars + 1;
                    } else {
                        unders = unders + 1;
                    }
                    i = i + n;
                } else {
                    proof {
                        assert(inline_step(cs@, i as int, st) == (
                            n as int,
                            cs@.subrange(i as int, i + n),
                            st,
                        ));
                    }
                    let mut t = sub_vec(cs, i, i + n);
                    out.append(&mut t);
                    i = i + n;
                }
            }
        } else {
            proof {
                assert(inline_step(cs@, i as int, st) == (1int, seq![cs@[i as int]], st));
            }
            out.push(c);
            i = i + 1;
        }
    }
    proof {
        assert(inline_text_from(
            cs@,
            cs@.len() as int,
            InlineState { stars: stars as int, unders: unders as int, links: links as int },
        ) =~= Seq::<char>::empty());
    }
    out
}

/// A line with up to three leading spaces of indent removed.
pub open spec fn strip3(l: Seq<char>) -> Seq<char> {
    if l.len() > 0 && l[0] == ' ' {
        if l.len() > 1 && l[1] == ' ' {
            if l.len() > 2 && l[2] == ' ' {
                l.skip(3)
            } else {
                l.skip(2)
            }
        } else {
            l.skip(1)
        }
    } else {
        l
    }
}

fn strip3_exec(l: &Vec<char>) -> (r: Vec<char>)
    ensures
        r@ == strip3(l@),
{
    let k: usize = if l.len() > 0 && l[0] == ' ' {
        if l.len() > 1 && l[1] == ' ' {
            if l.len() > 2 && l[2] == ' ' {
                3
            } else {
                2
            }
        } else {
            1
        }
    } else {
        0
    };
    let r = sub_vec(l, k, l.len());
    proof {
        assert(r@ =~= strip3(l@));
    }
    r
}

/// A code-fence opener: at least three backticks or tildes.
pub open spec fn is_fence_open(st: Seq<char>) -> bool {
    st.len() >= 3 && (st[0] == '`' || st[0] == '~') && char_run(st, st[0], 0) >= 3
}

/// A line that closes an open fence: a run of the fence character at least
/// as long as the opener, followed only by whitespace.
pub open spec fn closes_fence(st: Seq<char>, fc: char, n: int) -> bool {
    st.len() > 0 && st[0] == fc && char_run(st, fc, 0) >= n && trim(
        st.skip(char_run(st, fc, 0)),
    ).len() == 0
}

/// An ATX heading line: one to six `#`, then whitespace or nothing.
pub open spec fn is_atx(st: Seq<char>) -> bool {
    let h = char_run(st, '#', 0);
    1 <= h <= 6 && (st.len() == h || st[h] == ' ' || st[h] == '\t' || st[h] == '\r')
}

/// The raw text of an ATX heading line: what follows the opening `#` run,
/// trimmed, with a closing `#` sequence removed.
pub open spec fn atx_text(st: Seq<char>) -> Seq<char> {
    let h = char_run(st, '#', 0);
    let t = trim(st.skip(h));
    let k = trailing_run(t, '#');
    if k >= 1 && (k == t.len() || is_ws(t[t.len() - k - 1])) {
        trim(t.take(t.len() - k))
    } else {
        t
    }
}

/// A setext underline: a run of `=` or `-` followed only by whitespace.
pub open spec fn is_setext_under(u: Seq<char>) -> bool {
    u.len() >= 1 && (u[0] == '=' || u[0] == '-') && trim(u.skip(char_run(u, u[0], 0))).len() == 0
}

/// The heading level a setext underline assigns.
pub open spec fn setext_level(u: Seq<char>) -> int {
    if u[0] == '=' {
        1
    } else {
        2
    }
}

/// A setext heading at line `i`: a non-blank line that is not itself an
/// underline, with an underline on the next line.
pub open spec fn is_setext(lines: Seq<Seq<char>>, i: int) -> bool {
    let st = strip3(lines[i]);
    &&& trim(st).len() > 0
    &&& !is_setext_under(st)
    &&& i + 1 < lines.len()
    &&& is_setext_under(strip3(lines[i + 1]))
}

fn setext_under_exec(u: &Vec<char>) -> (r: bool)
    ensures
        r == is_setext_under(u@),
{
    if u.len() == 0 {
        return false;
    }
    let c0 = u[0];
    if c0 != '=' && c0 != '-' {
        return false;
    }
    let rn = char_run_exec(u, c0, 0);
    let rest = sub_vec(u, rn, u.len());
    proof {
        assert(rest@ =~= u@.skip(rn as int));
    }
    let t = trim_exec(&rest);
    t.len() == 0
}

/// The `(level, text)` pairs of the headings from line `i` on, given the
/// open fence, in document order: ATX headings, and setext headings (a
/// line over a `=` or `-` underline).
pub open spec fn heading_pairs(
    lines: Seq<Seq<char>>,
    i: int,
    fence: Option<(char, int)>,
) -> Seq<(int, Seq<char>)>
    decreases lines.len() - i,
{
    if i < 0 || i >= lines.len() {
        Seq::empty()
    } else {
        let st = strip3(lines[i]);
        match fence {
            Option::Some(f) => {
                if closes_fence(st, f.0, f.1) {
                    heading_pairs(lines, i + 1, Option::None)
                } else {
                    heading_pairs(lines, i + 1, fence)
                }
            },
            Option::None => {
                if is_fence_open(st) {
                    heading_pairs(lines, i + 1, Option::Some((st[0], char_run(st, st[0], 0))))
                } else if is_atx(st) {
                    seq![(char_run(st, '#', 0), inline_text(atx_text(st)))] + heading_pairs(
                        lines,
                        i + 1,
                        Option::None,
                    )
                } else if is_setext(lines, i) {
                    seq![(setext_level(strip3(lines[i + 1])), inline_text(trim(st)))]
                        + heading_pairs(lines, i + 2, Option::None)
                } else {
                    heading_pairs(lines, i + 1, Option::None)
                }
            },
        }
    }
}

/// The table of contents of a Markdown body: one entry per heading, in
/// document order, each with the slug of its own text as its anchor id.
pub open spec fn toc_spec(body: Seq<char>) -> Seq<TocItemView> {
    heading_pairs(split_on(body, '\n'), 0, Option::None).map_values(
        |p: (int, Seq<char>)| TocItemView { level: p.0, text: p.1, id: slug_of(p.1) },
    )
}

/// The anchor ids of the table of contents, in document order.
pub open spec fn toc_ids(body: Seq<char>) -> Seq<Seq<char>> {
    toc_spec(body).map_values(|t: TocItemView| t.id)
}

/// Extracts the table of contents of a Markdown body.
#[verifier::loop_isolation(false)]
#[verifier::rlimit(100)]
pub fn extract_toc(body: &str) -> (r: Vec<TocItem>)
    ensures
        r.deep_view() == toc_spec(body@),
        forall|k: int|
            0 <= k < r.deep_view().len() ==> (#[trigger] r.deep_view()[k]).id == slug_of(
                r.deep_view()[k].text,
            ),
{
    let cs = chars_of(body);
    let lines = split_on_exec(&cs, '\n');
    let ghost lv = lines.deep_view();
    let mut out: Vec<TocItem> = Vec::new();
    let mut in_fence: bool = false;
    let mut fence_ch: char = ' ';
    let mut fence_n: usize = 0;
    let mut i: usize = 0;
    proof {
        assert(out.deep_view() =~~= Seq::<TocItemView>::empty());
    }
    while i < lines.len()
        invariant
            i <= lines.len(),
            toc_spec(body@) == out.deep_view() + heading_pairs(
                lv,
                i as int,
                if in_fence {
                    Option::Some((fence_ch, fence_n as int))
                } else {
                    Option::None
                },
            ).map_values(
                |p: (int, Seq<char>)| TocItemView { level: p.0, text: p.1, id: slug_of(p.1) },
            ),
        decreases lines.len() - i,
    {
        let ghost fence = if in_fence {
            Option::Some((fence_ch, fence_n as int))
        } else {
            Option::<(char, int)>::None
        };
        proof {
            assert(lv[i as int] == lines@[i as int]@);
        }
        let st = strip3_exec(&lines[i]);
        if in_fence {
            if st.len() > 0 && st[0] == fence_ch {
                let rn = char_run_exec(&st, fence_ch, 0);
                if rn >= fence_n {
                    let after = sub_vec(&st, rn, st.len());
                    proof {
                        assert(after@ =~= st@.skip(rn as int));
                    }
                    let t = trim_exec(&after);
                    if t.len() == 0 {
                        in_fence = false;
                    }
                }
            }
            proof {
                if closes_fence(st@, fence_ch, fence_n as int) {
                    assert(!in_fence);
                } else {
                    assert(in_fence);
                }
            }
        } else {
            let mut handled = false;
            if st.len() >= 3 && (st[0] == '`' || st[0] == '~') {
                let f = st[0];
                let rn = char_run_exec(&st, f, 0);
                if rn >= 3 {
                    in_fence = true;
                    fence_ch = f;
                    fence_n = rn;
                    handled = true;
                    proof {
                        assert(is_fence_open(st@));
                    }
                }
            }
            if !handled {
                let h = char_run_exec(&st, '#', 0);
                if 1 <= h && h <= 6 && (st.len() == h || st[h] == ' ' || st[h] == '\t' || st[h]
                    == '\r') {
                    proof {
                        assert(is_atx(st@));
                    }
                    let rest = sub_vec(&st, h, st.len());
                    proof {
                        assert(rest@ =~= st@.skip(h as int));
                    }
                    let t = trim_exec(&rest);
                    let k = trailing_run_exec(&t, '#');
                    let core: Vec<char> = if k >= 1 && (k == t.len() || (t[t.len() - k - 1] == ' '
                        || t[t.len() - k - 1] == '\t' || t[t.len() - k - 1] == '\r')) {
                        let taken = sub_vec(&t, 0, t.len() - k);
                        proof {
                            assert(taken@ =~= t@.take(t@.len() - k));
                        }
                        trim_exec(&taken)
                    } else {
                        t
                    };
                    proof {
                        assert(core@ == atx_text(st@));
                    }
                    let text_chars = inline_text_exec(&core);
                    let text = string_of(&text_chars);
                    let id = slug_for(text.as_str());
                    let ghost old_out = out.deep_view();
                    let item = TocItem { level: h as u8, text: text, id: id };
                    proof {
                        assert(item@ =~~= (TocItemView {
                            level: h as int,
                            text: inline_text(atx_text(st@)),
                            id: slug_of(inline_text(atx_text(st@))),
                        }));
                    }
                    out.push(item);
                    proof {
                        assert(out.deep_view() =~~= old_out.push(item@));
                        let pairs = heading_pairs(lv, i as int, fence);
                        let hd = (h as int, inline_text(atx_text(st@)));
                        assert(pairs == seq![hd] + heading_pairs(lv, i + 1, Option::<(
                            char,
                            int,
                        )>::None));
                        assert(pairs.map_values(
                            |p: (int, Seq<char>)| TocItemView {
                                level: p.0,
                                text: p.1,
                                id: slug_of(p.1),
                            },
                        ) =~~= seq![item@] + heading_pairs(lv, i + 1, Option::<(
                            char,
                            int,
                        )>::None).map_values(
                            |p: (int, Seq<char>)| TocItemView {
                                level: p.0,
                                text: p.1,
                                id: slug_of(p.1),
                            },
                        ));
                    }
                } else {
                    proof {
                        assert(!is_fence_open(st@));
                        assert(!is_atx(st@));
                    }
                    let tcand = trim_exec(&st);
                    let mut setext = false;
                    let mut lvl: u8 = 2;
                    if tcand.len() > 0 && !setext_under_exec(&st) && i + 1 < lines.len() {
                        proof {
                            assert(lv[i as int + 1] == lines@[i as int + 1]@);
                        }
                        let st2 = strip3_exec(&lines[i + 1]);
                        if setext_under_exec(&st2) {
                            setext = true;
                            if st2[0] == '=' {
                                lvl = 1;
                            }
                            proof {
                                assert(st2@ == strip3(lv[i as int + 1]));
                                assert(is_setext(lv, i as int));
                                assert(lvl as int == setext_level(strip3(lv[i as int + 1])));
                            }
                        }
                    }
                    if setext {
                        let text_chars = inline_text_exec(&tcand);
                        let text = string_of(&text_chars);
                        let id = slug_for(text.as_str());
                        let ghost old_out = out.deep_view();
                        let item = TocItem { level: lvl, text: text, id: id };
                        proof {
                            assert(item@ =~~= (TocItemView {
                                level: setext_level(strip3(lv[i as int + 1])),
                                text: inline_text(trim(st@)),
                                id: slug_of(inline_text(trim(st@))),
                            }));
                        }
                        out.push(item);
                        proof {
                            assert(out.deep_view() =~~= old_out.push(item@));
                            let pairs = heading_pairs(lv, i as int, fence);
                            let hd = (
                                setext_level(strip3(lv[i as int + 1])),
                                inline_text(trim(st@)),
                            );
                            assert(pairs == seq![hd] + heading_pairs(lv, i + 2, Option::<(
                                char,
                                int,
                            )>::None));
                            assert(pairs.map_values(
                                |p: (int, Seq<char>)| TocItemView {
                                    level: p.0,
                                    text: p.1,
                                    id: slug_of(p.1),
                                },
                            ) =~~= seq![item@] + heading_pairs(lv, i + 2, Option::<(
                                char,
                                int,
                            )>::None).map_values(
                                |p: (int, Seq<char>)| TocItemView {
                                    level: p.0,
                                    text: p.1,
                                    id: slug_of(p.1),
                                },
                            ));
                        }
                        i = i + 1;
                    } else {
                        proof {
                            assert(!is_setext(lv, i as int));
                        }
                    }
                }
            }
        }
        i = i + 1;
    }
    proof {
        assert(heading_pairs(lv, lines@.len() as int, if in_fence {
            Option::Some((fence_ch, fence_n as int))
        } else {
            Option::None
        }).map_values(
            |p: (int, Seq<char>)| TocItemView { level: p.0, text: p.1, id: slug_of(p.1) },
        ) =~~= Seq::<TocItemView>::empty());
    }
    out
}

} // verus!
