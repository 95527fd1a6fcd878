//! Character-level text utilities: whitespace trimming, line splitting, decimal
//! conversions and the few string operations that come from std or serde_json.
use vstd::prelude::*;

verus! {

broadcast use vstd::string::axiom_spec_iter;


/// The Unicode `White_Space` property, as `char::is_whitespace` documents it.
pub open spec fn is_ws(c: char) -> bool {
    ||| c == ' '
    ||| ('\t' <= c && c <= '\r')
    ||| c == '\u{85}'
    ||| c == '\u{a0}'
    ||| c == '\u{1680}'
    ||| ('\u{2000}' <= c && c <= '\u{200a}')
    ||| c == '\u{2028}'
    ||| c == '\u{2029}'
    ||| c == '\u{202f}'
    ||| c == '\u{205f}'
    ||| c == '\u{3000}'
}

pub fn is_whitespace(c: char) -> (b: bool)
    ensures
        b == is_ws(c),
{
    c == ' ' || ('\t' <= c && c <= '\r') || c == '\u{85}' || c == '\u{a0}' || c == '\u{1680}'
        || ('\u{2000}' <= c && c <= '\u{200a}') || c == '\u{2028}' || c == '\u{2029}' || c
        == '\u{202f}' || c == '\u{205f}' || c == '\u{3000}'
}

pub open spec fn is_digit(c: char) -> bool {
    '0' <= c && c <= '9'
}

pub open spec fn is_alpha(c: char) -> bool {
    ('a' <= c && c <= 'z') || ('A' <= c && c <= 'Z')
}

pub fn is_ascii_digit(c: char) -> (b: bool)
    ensures
        b == is_digit(c),
{
    '0' <= c && c <= '9'
}

pub fn is_ascii_alpha(c: char) -> (b: bool)
    ensures
        b == is_alpha(c),
{
    ('a' <= c && c <= 'z') || ('A' <= c && c <= 'Z')
}

/// `(a, b)` is the range `[s, e)` of `t` with leading and trailing whitespace removed.
pub open spec fn is_trim_of(t: Seq<char>, s: int, e: int, a: int, b: int) -> bool {
    &&& s <= a <= b <= e
    &&& forall|i: int| s <= i < a ==> is_ws(#[trigger] t[i])
    &&& forall|i: int| b <= i < e ==> is_ws(#[trigger] t[i])
    &&& a < b ==> !is_ws(t[a]) && !is_ws(t[b - 1])
}

/// Removes leading and trailing whitespace from the range `[s, e)` of `t`.
pub fn trim(t: &Vec<char>, s: usize, e: usize) -> (r: (usize, usize))
    requires
        s <= e <= t@.len(),
    ensures
        is_trim_of(t@, s as int, e as int, r.0 as int, r.1 as int),
{
    let mut a = s;
    while a < e && is_whitespace(t[a])
        invariant
            s <= a <= e <= t@.len(),
            forall|i: int| s <= i < a ==> is_ws(#[trigger] t@[i]),
        decreases e - a,
    {
        a = a + 1;
    }
    let mut b = e;
    while b > a && is_whitespace(t[b - 1])
        invariant
            s <= a <= b <= e <= t@.len(),
            forall|i: int| s <= i < a ==> is_ws(#[trigger] t@[i]),
            forall|i: int| b <= i < e ==> is_ws(#[trigger] t@[i]),
            a < e ==> !is_ws(t@[a as int]),
        decreases b - a,
    {
        b = b - 1;
    }
    (a, b)
}

/// The index of the first `'\n'` at or after `from`, or the length of `t`.
pub open spec fn next_newline(t: Seq<char>, from: int) -> int
    decreases t.len() - from,
{
    if from >= t.len() {
        t.len() as int
    } else if t[from] == '\n' {
        from
    } else {
        next_newline(t, from + 1)
    }
}

/// The end of a line that stops at `nl`, dropping one carriage return before it.
pub open spec fn line_end(t: Seq<char>, from: int, nl: int) -> int {
    if nl > from && t[nl - 1] == '\r' {
        nl - 1
    } else {
        nl
    }
}

/// The ranges of the lines of `t` from `from` on, as `str::lines` yields them:
/// split at `'\n'`, with a final empty piece dropped and one `'\r'` before each
/// line break removed.
pub open spec fn lines_from(t: Seq<char>, from: int) -> Seq<(int, int)>
    decreases t.len() + 1 - from,
{
    if from < 0 || from >= t.len() {
        Seq::empty()
    } else {
        let nl = next_newline(t, from);
        proof {
            lemma_next_newline_bounds(t, from);
        }
        seq![(from, line_end(t, from, nl))] + lines_from(t, nl + 1)
    }
}

proof fn lemma_next_newline(t: Seq<char>, from: int, nl: int)
    requires
        0 <= from <= nl <= t.len(),
        forall|k: int| from <= k < nl ==> t[k] != '\n',
        nl == t.len() || t[nl] == '\n',
    ensures
        next_newline(t, from) == nl,
    decreases nl - from,
{
    if from < nl {
        lemma_next_newline(t, from + 1, nl);
    }
}

pub proof fn lemma_next_newline_bounds(t: Seq<char>, from: int)
    requires
        0 <= from <= t.len(),
    ensures
        from <= next_newline(t, from) <= t.len(),
    decreases t.len() - from,
{
    if from < t.len() && t[from] != '\n' {
        lemma_next_newline_bounds(t, from + 1);
    }
}

/// No character before the next line break is one.
proof fn lemma_before_newline(t: Seq<char>, from: int, k: int)
    requires
        0 <= from <= k < t.len(),
        k < next_newline(t, from),
    ensures
        t[k] != '\n',
    decreases k - from,
{
    if t[from] != '\n' && k > from {
        lemma_before_newline(t, from + 1, k);
    }
}

/// The next line break, where there is one, is a line break.
proof fn lemma_newline_at(t: Seq<char>, from: int)
    requires
        0 <= from <= t.len(),
        next_newline(t, from) < t.len(),
    ensures
        t[next_newline(t, from)] == '\n',
    decreases t.len() - from,
{
    if from < t.len() && t[from] != '\n' {
        lemma_newline_at(t, from + 1);
    }
}

/// Every character that is not whitespace lies inside one of the lines.
pub proof fn lemma_lines_cover(t: Seq<char>, from: int, i: int)
    requires
        0 <= from <= i < t.len(),
        !is_ws(t[i]),
    ensures
        exists|j: int|
            0 <= j < lines_from(t, from).len() && (#[trigger] lines_from(t, from)[j]).0 <= i
                < lines_from(t, from)[j].1,
    decreases t.len() - from,
{
    let nl = next_newline(t, from);
    lemma_next_newline_bounds(t, from);
    let ls = lines_from(t, from);
    if i < nl {
        assert(ls[0] == (from, line_end(t, from, nl)));
        assert(ls[0].0 <= i < ls[0].1);
    } else {
        if nl < t.len() {
            lemma_newline_at(t, from);
        }
        assert(i > nl);
        lemma_lines_cover(t, nl + 1, i);
        let j = choose|j: int|
            0 <= j < lines_from(t, nl + 1).len() && (#[trigger] lines_from(t, nl + 1)[j]).0 <= i
                < lines_from(t, nl + 1)[j].1;
        assert(ls[j + 1] == lines_from(t, nl + 1)[j]);
    }
}

/// Splits `t` into the ranges of its lines, as `str::lines` does.
pub fn split_lines(t: &Vec<char>) -> (lines: Vec<(usize, usize)>)
    ensures
        lines@.len() == lines_from(t@, 0).len(),
        forall|i: int|
            0 <= i < lines@.len() ==> (#[trigger] lines@[i]).0 as int == lines_from(t@, 0)[i].0
                && lines@[i].1 as int == lines_from(t@, 0)[i].1,
        forall|i: int|
            0 <= i < lines@.len() ==> (#[trigger] lines@[i]).0 <= lines@[i].1 <= t@.len(),
{
    let mut lines: Vec<(usize, usize)> = Vec::new();
    let mut pos: usize = 0;
    let ghost done: Seq<(int, int)> = Seq::empty();
    while pos < t.len()
        invariant
            pos <= t@.len(),
            lines@.len() == done.len(),
            done + lines_from(t@, pos as int) == lines_from(t@, 0),
            forall|i: int|
                0 <= i < lines@.len() ==> (#[trigger] lines@[i]).0 as int == done[i].0
                    && lines@[i].1 as int == done[i].1,
            forall|i: int|
                0 <= i < lines@.len() ==> (#[trigger] lines@[i]).0 <= lines@[i].1 <= t@.len(),
        decreases t@.len() - pos,
    {
        let mut nl = pos;
        while nl < t.len() && t[nl] != '\n'
            invariant
                pos <= nl <= t@.len(),
                forall|k: int| pos <= k < nl ==> t@[k] != '\n',
            decreases t@.len() - nl,
        {
            nl = nl + 1;
        }
        proof {
            lemma_next_newline(t@, pos as int, nl as int);
        }
        let end = if nl > pos && t[nl - 1] == '\r' {
            nl - 1
        } else {
            nl
        };
        lines.push((pos, end));
        proof {
            let piece = seq![(pos as int, end as int)];
            assert(lines_from(t@, pos as int) == piece + lines_from(t@, nl + 1));
            assert(done + lines_from(t@, pos as int) == (done + piece) + lines_from(
                t@,
                nl + 1,
            ));
            done = done + piece;
        }
        if nl == t.len() {
            pos = nl;
            assert(lines_from(t@, pos as int) == lines_from(t@, nl + 1));
        } else {
            pos = nl + 1;
        }
    }
    assert(done == lines_from(t@, 0));
    lines
}

/// `true` when the range `[s, e)` of `t` holds exactly the characters of `lit`.
pub fn range_eq(t: &Vec<char>, s: usize, e: usize, lit: &Vec<char>) -> (b: bool)
    requires
        s <= e <= t@.len(),
    ensures
        b == (t@.subrange(s as int, e as int) == lit@),
{
    if e - s != lit.len() {
        assert(t@.subrange(s as int, e as int).len() != lit@.len());
        return false;
    }
    let mut i: usize = 0;
    while i < lit.len()
        invariant
            e - s == lit@.len(),
            s <= e <= t@.len(),
            i <= lit@.len(),
            forall|k: int| 0 <= k < i ==> t@[s + k] == lit@[k],
        decreases lit@.len() - i,
    {
        if t[s + i] != lit[i] {
            assert(t@.subrange(s as int, e as int)[i as int] != lit@[i as int]);
            return false;
        }
        i = i + 1;
    }
    assert(t@.subrange(s as int, e as int) =~= lit@);
    true
}

/// `true` when the range `[s, e)` of `t` begins with the characters of `lit`.
pub fn range_starts_with(t: &Vec<char>, s: usize, e: usize, lit: &Vec<char>) -> (b: bool)
    requires
        s <= e <= t@.len(),
    ensures
        b == (lit@.len() <= e - s && t@.subrange(s as int, s + lit@.len()) == lit@),
{
    if lit.len() > e - s {
        return false;
    }
    range_eq(t, s, s + lit.len(), lit)
}

/// The characters of a string slice, in order.
pub(crate) fn chars_of(s: &str) -> (v: Vec<char>)
    ensures
        v@ == s@,
{
    let mut v: Vec<char> = Vec::new();
    for c in it: s.chars()
        invariant
            it.seq() == s@,
            v@ == s@.take(it.index() as int),
    {
        v.push(c);
    }
    assert(v@ =~= s@);
    v
}

/// A string holding the range `[s, e)` of `t`.
pub(crate) fn string_from(t: &Vec<char>, s: usize, e: usize) -> (r: String)
    requires
        s <= e <= t@.len(),
    ensures
        r@ == t@.subrange(s as int, e as int),
{
    let mut r = String::new();
    let mut i = s;
    while i < e
        invariant
            s <= i <= e <= t@.len(),
            r@ == t@.subrange(s as int, i as int),
        decreases e - i,
    {
        push_char(&mut r, t[i]);
        assert(t@.subrange(s as int, i + 1) =~= t@.subrange(s as int, i as int).push(t@[i as int]));
        i = i + 1;
    }
    r
}

/// Appends one character to a string through `String::push`; the contract
/// claims the string afterwards holds its old characters and then `c`.
#[verifier::external_body]
pub(crate) fn push_char(s: &mut String, c: char)
    ensures
        final(s)@ == old(s)@.push(c),
{
    s.push(c)
}

/// A string holding the characters of `v`.
pub fn string_of_chars(v: &Vec<char>) -> (r: String)
    ensures
        r@ == v@,
{
    string_from(v, 0, v.len())
}

/// The characters of a string.
pub fn chars_of_string(s: &String) -> (v: Vec<char>)
    ensures
        v@ == s@,
{
    chars_of(s.as_str())
}

/// `true` when `s` holds exactly the characters of the literal `lit`.
pub fn string_is(s: &String, lit: &str) -> (b: bool)
    ensures
        b == (s@ == lit@),
{
    let other = String::from_str(lit);
    *s == other
}

/// The decimal digit character for `d < 10`.
pub open spec fn digit_char(d: int) -> char {
    ((d + 48) as u32) as char
}

/// The decimal representation of a natural number, without leading zeros.
pub open spec fn decimal(n: nat) -> Seq<char>
    decreases n,
{
    if n < 10 {
        seq![digit_char(n as int)]
    } else {
        decimal(n / 10).push(digit_char((n % 10) as int))
    }
}

/// The decimal representation of an integer, with a leading `-` when it is negative.
pub open spec fn signed_decimal(v: int) -> Seq<char> {
    if v < 0 {
        seq!['-'] + decimal((-v) as nat)
    } else {
        decimal(v as nat)
    }
}

fn digit_of(d: u64) -> (c: char)
    requires
        d < 10,
    ensures
        c == digit_char(d as int),
{
    if d == 0 {
        '0'
    } else if d == 1 {
        '1'
    } else if d == 2 {
        '2'
    } else if d == 3 {
        '3'
    } else if d == 4 {
        '4'
    } else if d == 5 {
        '5'
    } else if d == 6 {
        '6'
    } else if d == 7 {
        '7'
    } else if d == 8 {
        '8'
    } else {
        '9'
    }
}

fn push_decimal(out: &mut String, n: u64)
    ensures
        final(out)@ == old(out)@ + decimal(n as nat),
    decreases n,
{
    if n < 10 {
        push_char(out, digit_of(n));
    } else {
        push_decimal(out, n / 10);
        push_char(out, digit_of(n % 10));
    }
}

/// The decimal rendering of an unsigned integer.
pub fn u64_to_string(n: u64) -> (r: String)
    ensures
        r@ == decimal(n as nat),
{
    let mut out = String::new();
    push_decimal(&mut out, n);
    out
}

/// The decimal rendering of a `usize`.
pub fn usize_to_string(n: usize) -> (r: String)
    ensures
        r@ == decimal(n as nat),
{
    u64_to_string(n as u64)
}

/// The decimal rendering of a signed integer, as `i64::to_string` gives it.
pub fn i64_to_string(v: i64) -> (r: String)
    ensures
        r@ == signed_decimal(v as int),
{
    if v < 0 {
        let magnitude: u64 = if v == i64::MIN {
            9223372036854775808u64
        } else {
            (-v) as u64
        };
        let mut out = String::new();
        push_char(&mut out, '-');
        push_decimal(&mut out, magnitude);
        out
    } else {
        u64_to_string(v as u64)
    }
}

/// The value of a run of decimal digits.
pub open spec fn digits_value(s: Seq<char>) -> int
    decreases s.len(),
{
    if s.len() == 0 {
        0
    } else {
        digits_value(s.drop_last()) * 10 + (s.last() as int - 48)
    }
}

pub open spec fn all_digits(s: Seq<char>) -> bool {
    forall|i: int| 0 <= i < s.len() ==> is_digit(#[trigger] s[i])
}

/// What `i64::from_str` gives for `s`: an optional sign, then at least one
/// decimal digit, and a value that fits.
pub open spec fn parse_i64_spec(s: Seq<char>) -> Option<i64> {
    let neg = s.len() > 0 && s[0] == '-';
    let signed = s.len() > 0 && (s[0] == '-' || s[0] == '+');
    let body = if signed {
        s.drop_first()
    } else {
        s
    };
    if body.len() == 0 || !all_digits(body) {
        None
    } else {
        let v = if neg {
            -digits_value(body)
        } else {
            digits_value(body)
        };
        if i64::MIN <= v <= i64::MAX {
            Some(v as i64)
        } else {
            None
        }
    }
}

proof fn lemma_digits_value_nonneg(s: Seq<char>)
    requires
        all_digits(s),
    ensures
        digits_value(s) >= 0,
    decreases s.len(),
{
    if s.len() > 0 {
        assert(all_digits(s.drop_last()));
        lemma_digits_value_nonneg(s.drop_last());
    }
}

proof fn lemma_digits_value_grows(s: Seq<char>, k: int)
    requires
        all_digits(s),
        0 <= k <= s.len(),
    ensures
        digits_value(s.subrange(0, k)) <= digits_value(s),
    decreases s.len() - k,
{
    if k < s.len() {
        let t = s.subrange(0, k + 1);
        assert(t.drop_last() == s.subrange(0, k));
        assert(all_digits(s.subrange(0, k)));
        lemma_digits_value_nonneg(s.subrange(0, k));
        lemma_digits_value_grows(s, k + 1);
    } else {
        assert(s.subrange(0, k) == s);
    }
}

/// Parses the range `[s, e)` of `t` as `i64::from_str` does.
pub fn parse_i64(t: &Vec<char>, s: usize, e: usize) -> (r: Option<i64>)
    requires
        s <= e <= t@.len(),
    ensures
        r == parse_i64_spec(t@.subrange(s as int, e as int)),
{
    let ghost whole = t@.subrange(s as int, e as int);
    let mut start = s;
    let mut neg = false;
    if s < e && (t[s] == '-' || t[s] == '+') {
        neg = t[s] == '-';
        start = s + 1;
    }
    let ghost body = t@.subrange(start as int, e as int);
    proof {
        if s < e && (t@[s as int] == '-' || t@[s as int] == '+') {
            assert(body == whole.drop_first());
        } else {
            assert(body == whole);
        }
    }
    assert(neg == (whole.len() > 0 && whole[0] == '-'));
    assert(body == if whole.len() > 0 && (whole[0] == '-' || whole[0] == '+') {
        whole.drop_first()
    } else {
        whole
    });
    if start == e {
        return None;
    }
    let limit: u128 = if neg {
        9223372036854775808u128
    } else {
        9223372036854775807u128
    };
    let mut acc: u128 = 0;
    let mut i = start;
    while i < e
        invariant
            s <= start <= i <= e <= t@.len(),
            body == t@.subrange(start as int, e as int),
            whole == t@.subrange(s as int, e as int),
            neg == (whole.len() > 0 && whole[0] == '-'),
            body == if whole.len() > 0 && (whole[0] == '-' || whole[0] == '+') {
                whole.drop_first()
            } else {
                whole
            },
            limit == if neg { 9223372036854775808u128 } else { 9223372036854775807u128 },
            acc <= limit,
            limit <= 9223372036854775808u128,
            acc as int == digits_value(t@.subrange(start as int, i as int)),
            all_digits(t@.subrange(start as int, i as int)),
        decreases e - i,
    {
        let c = t[i];
        if !is_ascii_digit(c) {
            assert(body[i - start] == c);
            return None;
        }
        let d: u128 = ((c as u32) - 48) as u128;
        let next = acc * 10 + d;
        proof {
            let pre = t@.subrange(start as int, i as int);
            let post = t@.subrange(start as int, i + 1);
            assert(post.drop_last() == pre);
            assert(all_digits(post));
        }
        if next > limit {
            // The rest is digits or not; either way no value that fits comes out.
            let mut j = i + 1;
            while j < e
                invariant
                    s <= start <= i < j <= e <= t@.len(),
                    body == t@.subrange(start as int, e as int),
                    whole == t@.subrange(s as int, e as int),
                    body == if whole.len() > 0 && (whole[0] == '-' || whole[0] == '+') {
                        whole.drop_first()
                    } else {
                        whole
                    },
                    all_digits(t@.subrange(start as int, j as int)),
                decreases e - j,
            {
                if !is_ascii_digit(t[j]) {
                    assert(body[j - start] == t@[j as int]);
                    return None;
                }
                assert(t@.subrange(start as int, j + 1).drop_last() == t@.subrange(
                    start as int,
                    j as int,
                ));
                j = j + 1;
            }
            proof {
                assert(body == t@.subrange(start as int, j as int));
                lemma_digits_value_grows(body, (i + 1 - start) as int);
                assert(body.subrange(0, (i + 1 - start) as int) == t@.subrange(
                    start as int,
                    i + 1,
                ));
            }
            return None;
        }
        acc = next;
        i = i + 1;
    }
    assert(body == t@.subrange(start as int, i as int));
    if neg {
        if acc == 9223372036854775808u128 {
            Some(i64::MIN)
        } else {
            Some(-(acc as i64))
        }
    } else {
        Some(acc as i64)
    }
}

/// What `usize::from_str` gives for a nonempty run of decimal digits.
pub open spec fn parse_usize_digits_spec(s: Seq<char>) -> Option<usize> {
    if digits_value(s) <= usize::MAX {
        Some(digits_value(s) as usize)
    } else {
        None
    }
}

/// Parses a nonempty run of decimal digits `[s, e)` of `t` as `usize::from_str` does.
pub fn parse_usize_digits(t: &Vec<char>, s: usize, e: usize) -> (r: Option<usize>)
    requires
        s < e <= t@.len(),
        all_digits(t@.subrange(s as int, e as int)),
    ensures
        r == parse_usize_digits_spec(t@.subrange(s as int, e as int)),
{
    let ghost body = t@.subrange(s as int, e as int);
    let mut acc: u128 = 0;
    let mut i = s;
    while i < e
        invariant
            s <= i <= e <= t@.len(),
            body == t@.subrange(s as int, e as int),
            all_digits(body),
            acc <= usize::MAX,
            acc as int == digits_value(t@.subrange(s as int, i as int)),
        decreases e - i,
    {
        let c = t[i];
        assert(body[i - s] == c);
        let d: u128 = ((c as u32) - 48) as u128;
        let next = acc * 10 + d;
        assert(t@.subrange(s as int, i + 1).drop_last() == t@.subrange(s as int, i as int));
        if next > usize::MAX as u128 {
            proof {
                lemma_digits_value_grows(body, (i + 1 - s) as int);
                assert(body.subrange(0, (i + 1 - s) as int) == t@.subrange(s as int, i + 1));
            }
            return None;
        }
        acc = next;
        i = i + 1;
    }
    assert(body == t@.subrange(s as int, i as int));
    Some(acc as usize)
}

/// How `{:?}` renders a string: quoted, with the escapes of `char::escape_debug`.
pub uninterp spec fn debug_quoted(s: Seq<char>) -> Seq<char>;

/// The `{:?}` rendering of a string, from std's `Debug` for `str`. Its contract
/// names the result and says nothing more of the escaping rules.
#[verifier::external_body]
pub(crate) fn debug_string(s: &str) -> (r: String)
    ensures
        r@ == debug_quoted(s@),
{
    format!("{:?}", s)
}

/// What `serde_json::from_str::<String>` yields for a JSON text: the decoded
/// string, or nothing when the text is not one JSON string.
pub uninterp spec fn json_string_value(raw: Seq<char>) -> Option<Seq<char>>;

/// Decodes the range `[s, e)` of `t` as one JSON string, through
/// `serde_json::from_str::<String>`. The contract names what the decoder
/// returns and states none of JSON's rules.
#[verifier::external_body]
pub(crate) fn json_string(t: &Vec<char>, s: usize, e: usize) -> (r: Option<String>)
    requires
        s <= e <= t@.len(),
    ensures
        r is Some <==> json_string_value(t@.subrange(s as int, e as int)) is Some,
        r matches Some(v) ==> json_string_value(t@.subrange(s as int, e as int)) == Some(v@),
{
    let raw: String = t[s..e].iter().collect();
    serde_json::from_str::<String>(&raw).ok()
}

/// The number of UTF-8 bytes that encode `c`.
pub open spec fn utf8_width(c: char) -> int {
    if (c as u32) < 0x80 {
        1
    } else if (c as u32) < 0x800 {
        2
    } else if (c as u32) < 0x10000 {
        3
    } else {
        4
    }
}

/// The number of UTF-8 bytes that encode the range `[s, i)` of `t`.
pub open spec fn byte_len(t: Seq<char>, s: int, i: int) -> int
    decreases i - s,
{
    if i <= s {
        0
    } else {
        byte_len(t, s, i - 1) + utf8_width(t[i - 1])
    }
}

/// The byte offset of character `i` from character `s` in `t`, saturated at `usize::MAX`.
pub fn byte_offset(t: &Vec<char>, s: usize, i: usize) -> (r: usize)
    requires
        s <= i <= t@.len(),
    ensures
        r as int == if byte_len(t@, s as int, i as int) <= usize::MAX {
            byte_len(t@, s as int, i as int)
        } else {
            usize::MAX as int
        },
{
    let mut acc: usize = 0;
    let mut k = s;
    let mut saturated = false;
    while k < i
        invariant
            s <= k <= i <= t@.len(),
            !saturated ==> acc as int == byte_len(t@, s as int, k as int),
            saturated ==> acc == usize::MAX && byte_len(t@, s as int, k as int) > usize::MAX,
        decreases i - k,
    {
        let c = t[k] as u32;
        let w: usize = if c < 0x80 {
            1
        } else if c < 0x800 {
            2
        } else if c < 0x10000 {
            3
        } else {
            4
        };
        if saturated || acc > usize::MAX - w {
            saturated = true;
            acc = usize::MAX;
        } else {
            acc = acc + w;
        }
        k = k + 1;
    }
    acc
}

/// Two strings joined.
pub fn cat(a: &str, b: &str) -> (s: String)
    ensures
        s@ == a@ + b@,
{
    String::from_str(a).concat(b)
}

/// Three strings joined.
pub fn cat3(a: &str, b: &str, c: &str) -> (s: String)
    ensures
        s@ == a@ + b@ + c@,
{
    String::from_str(a).concat(b).concat(c)
}

/// Four strings joined.
pub fn cat4(a: &str, b: &str, c: &str, d: &str) -> (s: String)
    ensures
        s@ == a@ + b@ + c@ + d@,
{
    String::from_str(a).concat(b).concat(c).concat(d)
}

/// Five strings joined.
pub fn cat5(a: &str, b: &str, c: &str, d: &str, e: &str) -> (s: String)
    ensures
        s@ == a@ + b@ + c@ + d@ + e@,
{
    String::from_str(a).concat(b).concat(c).concat(d).concat(e)
}

} // verus!
