use vstd::prelude::*;

verus! {

/// Whitespace: the characters with the Unicode White_Space property.
pub open spec fn is_ws(c: char) -> bool {
    ('\u{9}' <= c && c <= '\u{d}') || c == '\u{20}' || c == '\u{85}' || c == '\u{a0}'
        || c == '\u{1680}' || ('\u{2000}' <= c && c <= '\u{200a}') || c == '\u{2028}'
        || c == '\u{2029}' || c == '\u{202f}' || c == '\u{205f}' || c == '\u{3000}'
}

pub fn is_ws_char(c: char) -> (r: bool)
    ensures
        r == is_ws(c),
{
    ('\u{9}' <= c && c <= '\u{d}') || c == '\u{20}' || c == '\u{85}' || c == '\u{a0}'
        || c == '\u{1680}' || ('\u{2000}' <= c && c <= '\u{200a}') || c == '\u{2028}'
        || c == '\u{2029}' || c == '\u{202f}' || c == '\u{205f}' || c == '\u{3000}'
}

/// End of the run that starts at `i` of characters whose whitespace-ness is `ws`.
pub open spec fn run_end(s: Seq<char>, i: int, ws: bool) -> int
    decreases s.len() - i,
{
    if 0 <= i < s.len() && is_ws(s[i]) == ws {
        run_end(s, i + 1, ws)
    } else {
        i
    }
}

pub open spec fn is_alpha(c: char) -> bool {
    ('a' <= c && c <= 'z') || ('A' <= c && c <= 'Z')
}

pub open spec fn is_digit(c: char) -> bool {
    '0' <= c && c <= '9'
}

/// A command token: letters, or exactly three digits.
pub open spec fn is_command(c: Seq<char>) -> bool {
    (c.len() > 0 && forall|i: int| 0 <= i < c.len() ==> is_alpha(#[trigger] c[i]))
    || (c.len() == 3 && forall|i: int| 0 <= i < c.len() ==> is_digit(#[trigger] c[i]))
}

/// The text without one trailing carriage return.
pub open spec fn strip_cr(p: Seq<char>) -> Seq<char> {
    if p.len() > 0 && p.last() == '\r' {
        p.drop_last()
    } else {
        p
    }
}

/// Where the prefix token ends: after the leading `:` word, or at 0 when there is none.
pub open spec fn prefix_end(s: Seq<char>) -> int {
    if s.len() > 0 && s[0] == ':' {
        run_end(s, 0, false)
    } else {
        0
    }
}

/// Whether `s` holds a newline at or after `from`.
pub open spec fn has_newline_from(s: Seq<char>, from: int) -> bool {
    exists|k: int| from <= k < s.len() && s[k] == '\n'
}

/// `[:<prefix> ]<command> <params>`, split into prefix, command and params;
/// the params hold no newline.
pub open spec fn parse_line(s: Seq<char>) -> Option<(Seq<char>, Seq<char>, Seq<char>)> {
    let pe = prefix_end(s);
    let cs = run_end(s, pe, true);
    let ce = run_end(s, cs, false);
    let ps = run_end(s, ce, true);
    if pe == 1 || (pe > 0 && cs == pe) || !is_command(s.subrange(cs, ce)) || ps == ce
        || has_newline_from(s, ps) {
        None
    } else {
        Some((s.subrange(0, pe), s.subrange(cs, ce), strip_cr(s.subrange(ps, s.len() as int))))
    }
}

pub proof fn lemma_run_end_bounds(s: Seq<char>, i: int, ws: bool)
    requires
        0 <= i <= s.len(),
    ensures
        i <= run_end(s, i, ws) <= s.len(),
        forall|k: int| i <= k < run_end(s, i, ws) ==> is_ws(#[trigger] s[k]) == ws,
        run_end(s, i, ws) < s.len() ==> is_ws(s[run_end(s, i, ws)]) != ws,
    decreases s.len() - i,
{
    if i < s.len() && is_ws(s[i]) == ws {
        lemma_run_end_bounds(s, i + 1, ws);
    }
}

/// A run is exactly the stretch of matching characters that stops at a non-matching one.
pub proof fn lemma_run_end_at(s: Seq<char>, i: int, j: int, ws: bool)
    requires
        0 <= i <= j <= s.len(),
        forall|k: int| i <= k < j ==> is_ws(#[trigger] s[k]) == ws,
        j == s.len() || is_ws(s[j]) != ws,
    ensures
        run_end(s, i, ws) == j,
    decreases j - i,
{
    if i < j {
        lemma_run_end_at(s, i + 1, j, ws);
    }
}

proof fn lemma_command_not_ws(c: Seq<char>)
    requires
        is_command(c),
    ensures
        forall|k: int| 0 <= k < c.len() ==> !is_ws(#[trigger] c[k]),
{
    assert forall|k: int| 0 <= k < c.len() implies !is_ws(#[trigger] c[k]) by {
        if forall|i: int| 0 <= i < c.len() ==> is_alpha(#[trigger] c[i]) {
            assert(is_alpha(c[k]));
        } else {
            assert(is_digit(c[k]));
        }
    }
}

/// Where a command and its params start at `at` after one space, the command
/// token and the params come out unchanged.
proof fn lemma_parse_tail(s: Seq<char>, at: int, c: Seq<char>, r: Seq<char>)
    requires
        0 <= at <= s.len(),
        at == 0 || is_ws(s[at - 1]),
        s.len() == at + c.len() + 1 + r.len(),
        s.subrange(at, s.len() as int) == c + seq![' '] + r,
        is_command(c),
        r.len() == 0 || !is_ws(r[0]),
        !(r.len() > 0 && r.last() == '\r'),
        forall|k: int| 0 <= k < r.len() ==> #[trigger] r[k] != '\n',
    ensures
        !has_newline_from(s, at + c.len() + 1),
        run_end(s, at, true) == at,
        run_end(s, at, false) == at + c.len(),
        run_end(s, at + c.len(), true) == at + c.len() + 1,
        s.subrange(at, at + c.len()) == c,
        strip_cr(s.subrange(at + c.len() + 1, s.len() as int)) == r,
{
    let t = c + seq![' '] + r;
    lemma_command_not_ws(c);
    assert(forall|k: int| at <= k < s.len() ==> s[k] == #[trigger] t[k - at]);
    assert(s[at] == t[0]);
    lemma_run_end_at(s, at, at, true);
    assert forall|k: int| at <= k < at + c.len() implies is_ws(#[trigger] s[k]) == false by {
        assert(s[k] == t[k - at]);
    }
    assert(s[at + c.len()] == t[c.len() as int]);
    lemma_run_end_at(s, at, at + c.len(), false);
    let e: int = at + c.len() + 1;
    if e < s.len() {
        assert(s[e] == t[c.len() + 1int]);
    }
    lemma_run_end_at(s, at + c.len(), e, true);
    assert(s.subrange(at, at + c.len()) =~= c);
    assert forall|j: int| 0 <= j < r.len() implies #[trigger] s.subrange(e, s.len() as int)[j]
        == r[j] by {
        assert(s[e + j] == t[c.len() + 1 + j]);
    }
    assert(s.subrange(e, s.len() as int) =~= r);
    if has_newline_from(s, e) {
        let k = choose|k: int| e <= k < s.len() && s[k] == '\n';
        assert(s[k] == r[k - e]);
    }
}

/// A line `:P C R`, with a prefix word `:P`, a command `C` and params `R` that
/// start with no whitespace, hold no newline and end with no carriage return, parses into
/// exactly those three parts.
pub proof fn lemma_parse_with_prefix(p: Seq<char>, c: Seq<char>, r: Seq<char>)
    requires
        p.len() >= 2,
        p[0] == ':',
        forall|k: int| 0 <= k < p.len() ==> !is_ws(#[trigger] p[k]),
        is_command(c),
        r.len() == 0 || !is_ws(r[0]),
        !(r.len() > 0 && r.last() == '\r'),
        forall|k: int| 0 <= k < r.len() ==> #[trigger] r[k] != '\n',
    ensures
        parse_line(p + seq![' '] + c + seq![' '] + r) == Some((p, c, r)),
{
    let s = p + seq![' '] + c + seq![' '] + r;
    let at: int = p.len() + 1int;
    assert(s[0] == ':');
    assert forall|k: int| 0 <= k < p.len() implies is_ws(#[trigger] s[k]) == false by {
        assert(s[k] == p[k]);
    }
    assert(s[p.len() as int] == ' ');
    lemma_run_end_at(s, 0, p.len() as int, false);
    assert(s.subrange(at, s.len() as int) =~= c + seq![' '] + r);
    lemma_parse_tail(s, at, c, r);
    lemma_run_end_at(s, p.len() as int, at, true);
    assert(s.subrange(0, p.len() as int) =~= p);
}

/// A line `C R` with no prefix parses into an empty prefix, the command `C`
/// and the params `R` (which start with no whitespace, hold no newline and end
/// with no carriage return).
pub proof fn lemma_parse_without_prefix(c: Seq<char>, r: Seq<char>)
    requires
        is_command(c),
        r.len() == 0 || !is_ws(r[0]),
        !(r.len() > 0 && r.last() == '\r'),
        forall|k: int| 0 <= k < r.len() ==> #[trigger] r[k] != '\n',
    ensures
        parse_line(c + seq![' '] + r) == Some((Seq::<char>::empty(), c, r)),
{
    let s = c + seq![' '] + r;
    assert(s.subrange(0, s.len() as int) =~= c + seq![' '] + r);
    lemma_command_not_ws(c);
    assert(s[0] == c[0]);
    lemma_parse_tail(s, 0, c, r);
    assert(s.subrange(0, 0) =~= Seq::<char>::empty());
}

/// A single word with nothing after it is no message.
pub proof fn lemma_parse_single_word_fails()
    ensures
        parse_line(seq!['a']) is None,
{
    let s = seq!['a'];
    lemma_run_end_at(s, 0, 1, false);
    lemma_run_end_at(s, 1, 1, true);
}

/// Parsing depends on the line alone: equal lines give equal results.
pub proof fn lemma_parse_pure(a: Seq<char>, b: Seq<char>)
    requires
        a == b,
    ensures
        parse_line(a) == parse_line(b),
{
}

/// The end of the run in `s` that starts at `i`.
pub fn find_run_end(s: &str, n: usize, i: usize, ws: bool) -> (r: usize)
    requires
        n == s@.len(),
        i <= n,
    ensures
        r == run_end(s@, i as int, ws),
{
    let mut j: usize = i;
    while j < n && is_ws_char(s.get_char(j)) == ws
        invariant
            n == s@.len(),
            i <= j <= n,
            run_end(s@, i as int, ws) == run_end(s@, j as int, ws),
        decreases n - j,
    {
        j = j + 1;
    }
    j
}

/// Whether `s` holds a newline at or after `from`.
fn newline_from(s: &str, n: usize, from: usize) -> (r: bool)
    requires
        n == s@.len(),
        from <= n,
    ensures
        r == has_newline_from(s@, from as int),
{
    let mut k: usize = from;
    while k < n
        invariant
            from <= k <= n,
            n == s@.len(),
            forall|m: int| from <= m < k ==> s@[m] != '\n',
        decreases n - k,
    {
        if s.get_char(k) == '\n' {
            return true;
        }
        k = k + 1;
    }
    false
}

fn is_command_token(s: &str, from: usize, to: usize) -> (r: bool)
    requires
        from <= to <= s@.len(),
    ensures
        r == is_command(s@.subrange(from as int, to as int)),
{
    let c = Ghost(s@.subrange(from as int, to as int));
    if from == to {
        return false;
    }
    let mut all_alpha = true;
    let mut all_digit = true;
    let mut k: usize = from;
    while k < to
        invariant
            from <= k <= to <= s@.len(),
            c@ == s@.subrange(from as int, to as int),
            all_alpha == forall|m: int| 0 <= m < k - from ==> is_alpha(#[trigger] c@[m]),
            all_digit == forall|m: int| 0 <= m < k - from ==> is_digit(#[trigger] c@[m]),
        decreases to - k,
    {
        let ch = s.get_char(k);
        let a = ('a' <= ch && ch <= 'z') || ('A' <= ch && ch <= 'Z');
        let d = '0' <= ch && ch <= '9';
        proof {
            assert(c@[k - from] == ch);
            if all_alpha && a {
                assert forall|m: int| 0 <= m < k + 1 - from implies is_alpha(#[trigger] c@[m]) by {
                    if m < k - from {
                    }
                }
            }
            if all_digit && d {
                assert forall|m: int| 0 <= m < k + 1 - from implies is_digit(#[trigger] c@[m]) by {
                    if m < k - from {
                    }
                }
            }
        }
        all_alpha = all_alpha && a;
        all_digit = all_digit && d;
        k = k + 1;
    }
    all_alpha || (all_digit && to - from == 3)
}

/// Whether two strings hold the same characters.
pub fn same_text(a: &str, b: &str) -> (r: bool)
    ensures
        r == (a@ == b@),
{
    let n = a.unicode_len();
    if n != b.unicode_len() {
        return false;
    }
    let mut k: usize = 0;
    while k < n
        invariant
            k <= n,
            n == a@.len(),
            n == b@.len(),
            forall|m: int| 0 <= m < k ==> a@[m] == b@[m],
        decreases n - k,
    {
        if a.get_char(k) != b.get_char(k) {
            return false;
        }
        k = k + 1;
    }
    assert(a@ =~= b@);
    true
}

/// One line from the server, split into its parts.
pub struct IrcMsg {
    /// The line as it came.
    pub orig: String,
    /// The `:`-led sender token, or empty.
    pub prefix: String,
    /// The verb or three-digit reply code.
    pub code: String,
    /// Everything after the command, without a trailing carriage return.
    pub param: String,
}

impl IrcMsg {
    /// Parses one protocol line; `None` where it does not follow the grammar.
    pub fn new(s: &str) -> (r: Option<IrcMsg>)
        ensures
            match r {
                Some(m) => m.orig@ == s@ && parse_line(s@) == Some((m.prefix@, m.code@, m.param@)),
                None => parse_line(s@) is None,
            },
    {
        let n = s.unicode_len();
        let pe: usize = if n > 0 && s.get_char(0) == ':' {
            find_run_end(s, n, 0, false)
        } else {
            0
        };
        proof {
            lemma_run_end_bounds(s@, 0, false);
        }
        let cs = find_run_end(s, n, pe, true);
        proof {
            lemma_run_end_bounds(s@, pe as int, true);
        }
        let ce = find_run_end(s, n, cs, false);
        proof {
            lemma_run_end_bounds(s@, cs as int, false);
        }
        let ps = find_run_end(s, n, ce, true);
        proof {
            lemma_run_end_bounds(s@, ce as int, true);
        }
        if pe == 1 || (pe > 0 && cs == pe) || !is_command_token(s, cs, ce) || ps == ce
            || newline_from(s, n, ps) {
            return None;
        }
        let pend: usize = if n > ps && s.get_char(n - 1) == '\r' {
            n - 1
        } else {
            n
        };
        let ghost rest = s@.subrange(ps as int, n as int);
        assert(strip_cr(rest) =~= s@.subrange(ps as int, pend as int));
        Some(
            IrcMsg {
                orig: String::from_str(s),
                prefix: String::from_str(s.substring_char(0, pe)),
                code: String::from_str(s.substring_char(cs, ce)),
                param: String::from_str(s.substring_char(ps, pend)),
            },
        )
    }
}

} // verus!
