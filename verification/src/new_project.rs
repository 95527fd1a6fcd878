//! Naming rules for new packages and generated artifacts: turning free text
//! into a lower-case, dash- or underscore-separated identifier.
use vstd::prelude::*;
use crate::text::{chars_of, string_from, is_alpha, is_digit};

verus! {

pub open spec fn is_ascii_alnum(c: char) -> bool {
    is_digit(c) || is_alpha(c)
}

/// `c` in lower case, where it is an ASCII capital letter.
pub open spec fn ascii_lower(c: char) -> char {
    if 'A' <= c && c <= 'Z' {
        (((c as u8) + 32) as u8) as char
    } else {
        c
    }
}

/// Lower-case ASCII letters and digits are kept, and each run of other
/// characters becomes one dash.
pub open spec fn dash_collapse(s: Seq<char>) -> Seq<char>
    decreases s.len(),
{
    if s.len() == 0 {
        Seq::empty()
    } else {
        let prev = dash_collapse(s.drop_last());
        let c = s.last();
        if is_ascii_alnum(c) {
            prev.push(ascii_lower(c))
        } else if prev.len() > 0 && prev.last() == '-' {
            prev
        } else {
            prev.push('-')
        }
    }
}

/// `t` is `s` without its leading and trailing dashes.
pub open spec fn is_dash_trim(s: Seq<char>, t: Seq<char>) -> bool {
    exists|a: int, b: int|
        #![trigger s.subrange(a, b)]
        0 <= a <= b <= s.len() && t == s.subrange(a, b) && (forall|k: int| 0 <= k < a ==> s[k] == '-')
            && (forall|k: int| b <= k < s.len() ==> s[k] == '-') && (t.len() > 0 ==> t[0] != '-'
            && t.last() != '-')
}

fn lower_ascii(c: char) -> (r: char)
    ensures
        r == ascii_lower(c),
{
    if 'A' <= c && c <= 'Z' {
        let b = c as u8;
        ((b + 32) as u8) as char
    } else {
        c
    }
}

fn is_alnum(c: char) -> (b: bool)
    ensures
        b == is_ascii_alnum(c),
{
    crate::text::is_ascii_digit(c) || crate::text::is_ascii_alpha(c)
}

/// The characters of `input` with `dash_collapse` applied.
fn collapse_dashes(input: &str) -> (v: Vec<char>)
    ensures
        v@ == dash_collapse(input@),
{
    let s = chars_of(input);
    let mut out: Vec<char> = Vec::new();
    let mut i: usize = 0;
    while i < s.len()
        invariant
            i <= s@.len(),
            s@ == input@,
            out@ == dash_collapse(s@.take(i as int)),
        decreases s@.len() - i,
    {
        let c = s[i];
        proof {
            assert(s@.take(i + 1).drop_last() == s@.take(i as int));
            assert(s@.take(i + 1).last() == c);
        }
        if is_alnum(c) {
            out.push(lower_ascii(c));
        } else if out.len() > 0 && out[out.len() - 1] == '-' {
        } else {
            out.push('-');
        }
        i = i + 1;
    }
    assert(s@.take(s@.len() as int) == s@);
    out
}

/// The range of `v` left once leading and trailing dashes are dropped.
fn dash_trim_bounds(v: &Vec<char>) -> (r: (usize, usize))
    ensures
        r.0 <= r.1 <= v@.len(),
        is_dash_trim(v@, v@.subrange(r.0 as int, r.1 as int)),
{
    let mut a: usize = 0;
    while a < v.len() && v[a] == '-'
        invariant
            a <= v@.len(),
            forall|k: int| 0 <= k < a ==> v@[k] == '-',
        decreases v@.len() - a,
    {
        a = a + 1;
    }
    let mut b: usize = v.len();
    while b > a && v[b - 1] == '-'
        invariant
            a <= b <= v@.len(),
            forall|k: int| b <= k < v@.len() ==> v@[k] == '-',
        decreases b,
    {
        b = b - 1;
    }
    let ghost t = v@.subrange(a as int, b as int);
    assert(t.len() > 0 ==> t[0] != '-' && t.last() != '-');
    assert(0 <= a <= b <= v@.len() && t == v@.subrange(a as int, b as int));
    (a, b)
}

/// `result` is `input` with `dash_collapse` applied and leading and
/// trailing dashes dropped, or `default` where nothing is left.
pub open spec fn dash_slug(input: Seq<char>, default: Seq<char>, result: Seq<char>) -> bool {
    let c = dash_collapse(input);
    ||| (exists|t: Seq<char>| is_dash_trim(c, t) && t.len() > 0 && result == t)
    ||| ((forall|k: int| 0 <= k < c.len() ==> c[k] == '-') && result == default)
}

/// Free text as a dash-separated lower-case slug, or `default` where the text
/// has no letter or digit.
pub fn dash_slug_or(input: &str, default: &str) -> (s: String)
    ensures
        dash_slug(input@, default@, s@),
{
    let collapsed = collapse_dashes(input);
    let (a, b) = dash_trim_bounds(&collapsed);
    if a == b {
        proof {
            let c = collapsed@;
            assert forall|k: int| 0 <= k < c.len() implies c[k] == '-' by {
                let (x, y) = choose|x: int, y: int|
                    #![trigger c.subrange(x, y)]
                    0 <= x <= y <= c.len() && c.subrange(a as int, b as int) == c.subrange(x, y)
                        && (forall|k: int| 0 <= k < x ==> c[k] == '-') && (forall|k: int|
                        y <= k < c.len() ==> c[k] == '-') && (c.subrange(x, y).len() > 0
                        ==> c.subrange(x, y)[0] != '-' && c.subrange(x, y).last() != '-');
                assert(x == y);
            }
        }
        return String::from_str(default);
    }
    string_from(&collapsed, a, b)
}

/// A package name made from free text: lower-case letters and digits, runs
/// of anything else turned into one dash, no dash at either end, and
/// `axiom-app` where nothing is left.
pub fn sanitize_name(input: &str) -> (s: String)
    ensures
        dash_slug(input@, "axiom-app"@, s@),
{
    dash_slug_or(input, "axiom-app")
}

} // verus!
