//! Bracket- and string-aware scanning of source text, on which the line parser
//! relies to split lists and find delimiters at the top level of an expression.
//!
//! Every scan walks a character range left to right. Characters inside a
//! double-quoted string (where a backslash escapes the next character) are not
//! code; a quote toggles the string state. Bracket depths count only code
//! characters, and a closing bracket never takes a depth below zero.
use vstd::prelude::*;

verus! {

/// The string state of a scan: inside a string literal, and after a backslash in one.
pub struct Lex {
    pub in_str: bool,
    pub esc: bool,
}

/// `true` when `c`, read in state `l`, is code: not part of a string literal.
pub open spec fn is_code(l: Lex, c: char) -> bool {
    !l.esc && !(c == '\\' && l.in_str) && c != '"' && !l.in_str
}

pub open spec fn lex_next(l: Lex, c: char) -> Lex {
    if l.esc {
        Lex { in_str: l.in_str, esc: false }
    } else if c == '\\' && l.in_str {
        Lex { in_str: true, esc: true }
    } else if c == '"' {
        Lex { in_str: !l.in_str, esc: false }
    } else {
        l
    }
}

/// The string state before character `i` of a scan of `t` that starts at `s`.
pub open spec fn lex_at(t: Seq<char>, s: int, i: int) -> Lex
    decreases i - s,
{
    if i <= s {
        Lex { in_str: false, esc: false }
    } else {
        lex_next(lex_at(t, s, i - 1), t[i - 1])
    }
}

/// `true` when character `j` of a scan that starts at `s` is code.
pub open spec fn code_at(t: Seq<char>, s: int, j: int) -> bool {
    is_code(lex_at(t, s, j), t[j])
}

/// The depth of the bracket pair `open`/`close` before character `i` of a scan
/// from `s`; a closing bracket at depth zero leaves it at zero.
pub open spec fn depth_at(t: Seq<char>, s: int, i: int, open: char, close: char) -> int
    decreases i - s,
{
    if i <= s {
        0
    } else {
        let d = depth_at(t, s, i - 1, open, close);
        if code_at(t, s, i - 1) && t[i - 1] == open {
            d + 1
        } else if code_at(t, s, i - 1) && t[i - 1] == close {
            if d > 0 {
                d - 1
            } else {
                0
            }
        } else {
            d
        }
    }
}

pub open spec fn paren_at(t: Seq<char>, s: int, i: int) -> int {
    depth_at(t, s, i, '(', ')')
}

pub open spec fn brace_at(t: Seq<char>, s: int, i: int) -> int {
    depth_at(t, s, i, '{', '}')
}

pub open spec fn bracket_at(t: Seq<char>, s: int, i: int) -> int {
    depth_at(t, s, i, '[', ']')
}

pub open spec fn angle_at(t: Seq<char>, s: int, i: int) -> int {
    depth_at(t, s, i, '<', '>')
}

/// No round, curly or square bracket is open before character `j`.
pub open spec fn flat_at(t: Seq<char>, s: int, j: int) -> bool {
    paren_at(t, s, j) == 0 && brace_at(t, s, j) == 0 && bracket_at(t, s, j) == 0
}

pub open spec fn is_bracket(c: char) -> bool {
    c == '(' || c == ')' || c == '{' || c == '}' || c == '[' || c == ']'
}

/// Character `j` is the delimiter `d` at the top level (angle brackets ignored).
pub open spec fn split_hit(t: Seq<char>, s: int, j: int, d: char) -> bool {
    code_at(t, s, j) && !is_bracket(t[j]) && t[j] == d && flat_at(t, s, j)
}

/// Character `j` is the delimiter `d` at the top level, angle brackets included.
pub open spec fn split_type_hit(t: Seq<char>, s: int, j: int, d: char) -> bool {
    code_at(t, s, j) && !is_bracket(t[j]) && t[j] != '<' && t[j] != '>' && t[j] == d
        && flat_at(t, s, j) && angle_at(t, s, j) == 0
}

/// What `find_top_level_char` looks for at character `j`.
pub open spec fn top_hit(t: Seq<char>, s: int, j: int, target: char) -> bool {
    let c = t[j];
    let p = paren_at(t, s, j);
    let b = brace_at(t, s, j);
    let k = bracket_at(t, s, j);
    code_at(t, s, j) && c == target && if c == ')' {
        p == 1 && b == 0 && k == 0
    } else if c == '}' {
        p == 0 && b == 1 && k == 0
    } else if c == ']' {
        p == 0 && b == 0 && k == 1
    } else {
        p == 0 && b == 0 && k == 0
    }
}

/// What `find_last_top_level_char` records at character `j`.
pub open spec fn last_hit(t: Seq<char>, s: int, j: int, target: char) -> bool {
    let c = t[j];
    code_at(t, s, j) && c == target && c != '(' && c != ')' && c != '{' && c != '}' && c != ']'
        && flat_at(t, s, j)
}

/// The delimiter test of the two list splitters; `angles` selects the one
/// that also counts angle brackets.
pub open spec fn split_pred(t: Seq<char>, s: int, j: int, d: char, angles: bool) -> bool {
    if angles {
        split_type_hit(t, s, j, d)
    } else {
        split_hit(t, s, j, d)
    }
}

/// A list of ranges that partition `[s, e)` at the characters where
/// `split_pred` holds, and only there.
pub open spec fn is_split(
    parts: Seq<(usize, usize)>,
    t: Seq<char>,
    s: int,
    e: int,
    d: char,
    angles: bool,
) -> bool {
    &&& parts.len() >= 1
    &&& parts[0].0 == s
    &&& parts.last().1 == e
    &&& forall|k: int|
        0 <= k < parts.len() ==> s <= (#[trigger] parts[k]).0 <= parts[k].1 <= e
    &&& forall|k: int|
        0 <= k < parts.len() - 1 ==> parts[k + 1].0 == (#[trigger] parts[k]).1 + 1 && split_pred(
            t,
            s,
            parts[k].1 as int,
            d,
            angles,
        )
    &&& forall|k: int, j: int|
        #![trigger parts[k], split_pred(t, s, j, d, angles)]
        0 <= k < parts.len() && parts[k].0 <= j < parts[k].1 ==> !split_pred(t, s, j, d, angles)
}

/// When a split yields more than one part, every part is shorter than the whole.
pub proof fn lemma_split_parts_shorter(
    parts: Seq<(usize, usize)>,
    t: Seq<char>,
    s: int,
    e: int,
    d: char,
    angles: bool,
)
    requires
        is_split(parts, t, s, e, d, angles),
    ensures
        forall|k: int|
            0 <= k < parts.len() ==> s <= (#[trigger] parts[k]).0 <= parts[k].1 <= e,
        parts.len() > 1 ==> forall|k: int|
            0 <= k < parts.len() ==> (#[trigger] parts[k]).1 - parts[k].0 < e - s,
{
    if parts.len() > 1 {
        assert forall|k: int| 0 <= k < parts.len() implies (#[trigger] parts[k]).1 - parts[k].0
            < e - s by {
            if k < parts.len() - 1 {
                assert(parts[k + 1].0 == parts[k].1 + 1);
                assert(parts[k + 1].1 <= e);
            } else {
                assert(parts[k - 1].1 + 1 == parts[k].0);
                assert(parts[k - 1].0 >= s);
            }
        }
    }
}

/// The exec counterpart of `lex_next`, reporting whether the character is code.
fn lex_step(in_str: &mut bool, esc: &mut bool, c: char) -> (code: bool)
    ensures
        code == is_code(Lex { in_str: *old(in_str), esc: *old(esc) }, c),
        (Lex { in_str: *final(in_str), esc: *final(esc) }) == lex_next(
            Lex { in_str: *old(in_str), esc: *old(esc) },
            c,
        ),
{
    if *esc {
        *esc = false;
        false
    } else if c == '\\' && *in_str {
        *esc = true;
        false
    } else if c == '"' {
        *in_str = !*in_str;
        false
    } else {
        !*in_str
    }
}

fn bump(d: usize, code: bool, c: char, open: char, close: char) -> (r: usize)
    requires
        d < usize::MAX,
    ensures
        r as int == if code && c == open {
            d + 1
        } else if code && c == close {
            if d > 0 {
                d - 1
            } else {
                0
            }
        } else {
            d as int
        },
{
    if code && c == open {
        d + 1
    } else if code && c == close {
        if d > 0 {
            d - 1
        } else {
            0
        }
    } else {
        d
    }
}

/// The depths of a scan, all kept in step with the spec.
pub struct Depths {
    pub paren: usize,
    pub brace: usize,
    pub bracket: usize,
    pub angle: usize,
    pub in_str: bool,
    pub esc: bool,
}

pub open spec fn depths_at(d: Depths, t: Seq<char>, s: int, i: int) -> bool {
    &&& d.paren as int == paren_at(t, s, i)
    &&& d.brace as int == brace_at(t, s, i)
    &&& d.bracket as int == bracket_at(t, s, i)
    &&& d.angle as int == angle_at(t, s, i)
    &&& d.in_str == lex_at(t, s, i).in_str
    &&& d.esc == lex_at(t, s, i).esc
    &&& d.paren <= i - s
    &&& d.brace <= i - s
    &&& d.bracket <= i - s
    &&& d.angle <= i - s
}

pub fn depths_new() -> (d: Depths)
    ensures
        forall|t: Seq<char>, s: int| depths_at(d, t, s, s),
{
    Depths { paren: 0, brace: 0, bracket: 0, angle: 0, in_str: false, esc: false }
}

/// Advances the scan state over character `i`, returning whether it was code.
pub fn depths_step(d: &mut Depths, t: &Vec<char>, s: usize, i: usize) -> (code: bool)
    requires
        s <= i < t@.len(),
        depths_at(*old(d), t@, s as int, i as int),
    ensures
        depths_at(*final(d), t@, s as int, i + 1),
        code == code_at(t@, s as int, i as int),
{
    let n = t.len();
    let c = t[i];
    let mut in_str = d.in_str;
    let mut esc = d.esc;
    let code = lex_step(&mut in_str, &mut esc, c);
    let paren = bump(d.paren, code, c, '(', ')');
    let brace = bump(d.brace, code, c, '{', '}');
    let bracket = bump(d.bracket, code, c, '[', ']');
    let angle = bump(d.angle, code, c, '<', '>');
    *d = Depths { paren, brace, bracket, angle, in_str, esc };
    code
}

/// Splits `[s, e)` at each top-level occurrence of `delim` (angle brackets ignored).
/// A range splits in one way only: two splits of it at the same delimiter
/// are the same list of parts.
pub proof fn lemma_split_unique(
    p: Seq<(usize, usize)>,
    q: Seq<(usize, usize)>,
    t: Seq<char>,
    s: int,
    e: int,
    d: char,
    angles: bool,
)
    requires
        is_split(p, t, s, e, d, angles),
        is_split(q, t, s, e, d, angles),
    ensures
        p == q,
{
    assert forall|k: int| 0 <= k < p.len() && 0 <= k < q.len() implies #[trigger] p[k] == q[k] by {
        lemma_split_parts_agree(p, q, t, s, e, d, angles, k);
    }
    if p.len() < q.len() {
        let k = p.len() - 1;
        lemma_split_parts_agree(p, q, t, s, e, d, angles, k);
        assert(q[k + 1].0 == q[k].1 + 1);
        assert(q[k + 1].0 <= e);
    } else if q.len() < p.len() {
        let k = q.len() - 1;
        lemma_split_parts_agree(p, q, t, s, e, d, angles, k);
        assert(p[k + 1].0 == p[k].1 + 1);
        assert(p[k + 1].0 <= e);
    }
    assert(p =~= q);
}

proof fn lemma_split_parts_agree(
    p: Seq<(usize, usize)>,
    q: Seq<(usize, usize)>,
    t: Seq<char>,
    s: int,
    e: int,
    d: char,
    angles: bool,
    k: int,
)
    requires
        is_split(p, t, s, e, d, angles),
        is_split(q, t, s, e, d, angles),
        0 <= k < p.len(),
        0 <= k < q.len(),
    ensures
        p[k] == q[k],
    decreases k,
{
    if k > 0 {
        lemma_split_parts_agree(p, q, t, s, e, d, angles, k - 1);
        assert(p[k].0 == p[k - 1].1 + 1);
        assert(q[k].0 == q[k - 1].1 + 1);
    }
    let a = p[k].0;
    assert(a == q[k].0);
    if p[k].1 < q[k].1 {
        if k < p.len() - 1 {
            assert(split_pred(t, s, p[k].1 as int, d, angles));
            assert(q[k].0 <= p[k].1 < q[k].1);
            assert(!split_pred(t, s, p[k].1 as int, d, angles));
        } else {
            assert(p[k].1 == e);
        }
    } else if q[k].1 < p[k].1 {
        if k < q.len() - 1 {
            assert(split_pred(t, s, q[k].1 as int, d, angles));
            assert(p[k].0 <= q[k].1 < p[k].1);
            assert(!split_pred(t, s, q[k].1 as int, d, angles));
        } else {
            assert(q[k].1 == e);
        }
    }
}

pub fn split_top_level(t: &Vec<char>, s: usize, e: usize, delim: char) -> (parts: Vec<
    (usize, usize),
>)
    requires
        s <= e <= t@.len(),
    ensures
        is_split(parts@, t@, s as int, e as int, delim, false),
{
    split_impl(t, s, e, delim, false)
}

/// Splits `[s, e)` at each top-level occurrence of `delim`, counting angle brackets too.
pub fn split_top_level_type(t: &Vec<char>, s: usize, e: usize, delim: char) -> (parts: Vec<
    (usize, usize),
>)
    requires
        s <= e <= t@.len(),
    ensures
        is_split(parts@, t@, s as int, e as int, delim, true),
{
    split_impl(t, s, e, delim, true)
}

fn split_impl(t: &Vec<char>, s: usize, e: usize, delim: char, angles: bool) -> (parts: Vec<
    (usize, usize),
>)
    requires
        s <= e <= t@.len(),
    ensures
        is_split(parts@, t@, s as int, e as int, delim, angles),
{
    let mut parts: Vec<(usize, usize)> = Vec::new();
    let mut start = s;
    let mut d = depths_new();
    let mut i = s;
    while i < e
        invariant
            s <= start <= i <= e <= t@.len(),
            depths_at(d, t@, s as int, i as int),
            parts@.len() == 0 ==> start == s,
            parts@.len() > 0 ==> parts@[0].0 == s && start == parts@.last().1 + 1,
            forall|k: int|
                0 <= k < parts@.len() ==> s <= (#[trigger] parts@[k]).0 <= parts@[k].1 < start,
            forall|k: int|
                0 <= k < parts@.len() - 1 ==> parts@[k + 1].0 == (#[trigger] parts@[k]).1 + 1,
            forall|k: int|
                0 <= k < parts@.len() ==> split_pred(
                    t@,
                    s as int,
                    (#[trigger] parts@[k]).1 as int,
                    delim,
                    angles,
                ),
            forall|k: int, j: int|
                #![trigger parts@[k], split_pred(t@, s as int, j, delim, angles)]
                0 <= k < parts@.len() && parts@[k].0 <= j < parts@[k].1 ==> !split_pred(
                    t@,
                    s as int,
                    j,
                    delim,
                    angles,
                ),
            forall|j: int| start <= j < i ==> !#[trigger] split_pred(t@, s as int, j, delim, angles),
        decreases e - i,
    {
        let flat = d.paren == 0 && d.brace == 0 && d.bracket == 0 && (!angles || d.angle == 0);
        let c = t[i];
        let code = depths_step(&mut d, t, s, i);
        let structural = c == '(' || c == ')' || c == '{' || c == '}' || c == '[' || c == ']' || (
        angles && (c == '<' || c == '>'));
        if code && !structural && c == delim && flat {
            assert(split_pred(t@, s as int, i as int, delim, angles));
            parts.push((start, i));
            start = i + 1;
        } else {
            assert(!split_pred(t@, s as int, i as int, delim, angles));
        }
        i = i + 1;
    }
    parts.push((start, e));
    proof {
        assert forall|k: int| 0 <= k < parts@.len() implies s <= (#[trigger] parts@[k]).0
            <= parts@[k].1 <= e by {}
        assert forall|k: int| 0 <= k < parts@.len() - 1 implies parts@[k + 1].0 == (
        #[trigger] parts@[k]).1 + 1 && split_pred(t@, s as int, parts@[k].1 as int, delim, angles) by {}
    }
    parts
}

/// The first character of `[s, e)` that `find_top_level_char` accepts for `target`.
pub fn find_top_level_char(t: &Vec<char>, s: usize, e: usize, target: char) -> (r: Option<usize>)
    requires
        s <= e <= t@.len(),
    ensures
        r matches Some(k) ==> s <= k < e && top_hit(t@, s as int, k as int, target) && forall|
            j: int,
        |
            s <= j < k ==> !top_hit(t@, s as int, j, target),
        r is None ==> forall|j: int| s <= j < e ==> !top_hit(t@, s as int, j, target),
{
    let mut d = depths_new();
    let mut i = s;
    while i < e
        invariant
            s <= i <= e <= t@.len(),
            depths_at(d, t@, s as int, i as int),
            forall|j: int| s <= j < i ==> !top_hit(t@, s as int, j, target),
        decreases e - i,
    {
        let c = t[i];
        let p = d.paren;
        let b = d.brace;
        let k = d.bracket;
        let code = depths_step(&mut d, t, s, i);
        if code && c == target {
            let ok = if c == ')' {
                p == 1 && b == 0 && k == 0
            } else if c == '}' {
                p == 0 && b == 1 && k == 0
            } else if c == ']' {
                p == 0 && b == 0 && k == 1
            } else {
                p == 0 && b == 0 && k == 0
            };
            if ok {
                return Some(i);
            }
        }
        i = i + 1;
    }
    None
}

/// The last character of `[s, e)` that `find_last_top_level_char` records for `target`.
pub fn find_last_top_level_char(t: &Vec<char>, s: usize, e: usize, target: char) -> (r: Option<
    usize,
>)
    requires
        s <= e <= t@.len(),
    ensures
        r matches Some(k) ==> s <= k < e && last_hit(t@, s as int, k as int, target) && forall|
            j: int,
        |
            k < j < e ==> !last_hit(t@, s as int, j, target),
        r is None ==> forall|j: int| s <= j < e ==> !last_hit(t@, s as int, j, target),
{
    let mut d = depths_new();
    let mut i = s;
    let mut found: Option<usize> = None;
    while i < e
        invariant
            s <= i <= e <= t@.len(),
            depths_at(d, t@, s as int, i as int),
            found matches Some(k) ==> s <= k < i && last_hit(t@, s as int, k as int, target)
                && forall|j: int| k < j < i ==> !last_hit(t@, s as int, j, target),
            found is None ==> forall|j: int| s <= j < i ==> !last_hit(t@, s as int, j, target),
        decreases e - i,
    {
        let c = t[i];
        let flat = d.paren == 0 && d.brace == 0 && d.bracket == 0;
        let code = depths_step(&mut d, t, s, i);
        if code && c == target && c != '(' && c != ')' && c != '{' && c != '}' && c != ']' && flat {
            found = Some(i);
        }
        i = i + 1;
    }
    found
}

/// The nesting depth of one bracket pair in a scan that starts at `s`, where
/// `open` is counted only while `gate` holds before the character.
pub open spec fn gated_depth_at(
    t: Seq<char>,
    s: int,
    i: int,
    open: char,
    close: char,
    gate: spec_fn(int) -> bool,
) -> int
    decreases i - s,
{
    if i <= s {
        0
    } else {
        let d = gated_depth_at(t, s, i - 1, open, close, gate);
        if code_at(t, s, i - 1) && t[i - 1] == open && gate(i - 1) {
            d + 1
        } else if code_at(t, s, i - 1) && t[i - 1] == close && gate(i - 1) {
            if d > 0 {
                d - 1
            } else {
                0
            }
        } else {
            d
        }
    }
}

/// Gate of `find_matching_paren` and `find_matching_angle`: always open.
pub open spec fn no_gate() -> spec_fn(int) -> bool {
    |j: int| true
}

/// Gate of `find_matching_brace`: no round bracket open.
pub open spec fn brace_gate(t: Seq<char>, s: int) -> spec_fn(int) -> bool {
    |j: int| paren_at(t, s, j) == 0
}

/// Gate of `find_matching_square`: no round or curly bracket open.
pub open spec fn square_gate(t: Seq<char>, s: int) -> spec_fn(int) -> bool {
    |j: int| paren_at(t, s, j) == 0 && brace_at(t, s, j) == 0
}

/// Character `j` closes the pair opened at the scan's start: a gated `close`
/// that takes the depth to zero.
pub open spec fn close_hit(
    t: Seq<char>,
    s: int,
    j: int,
    open: char,
    close: char,
    gate: spec_fn(int) -> bool,
) -> bool {
    code_at(t, s, j) && t[j] == close && gate(j) && gated_depth_at(t, s, j, open, close, gate)
        <= 1
}

pub open spec fn gate_value(kind: u8, t: Seq<char>, s: int) -> spec_fn(int) -> bool {
    if kind == 1 {
        brace_gate(t, s)
    } else if kind == 2 {
        square_gate(t, s)
    } else {
        no_gate()
    }
}

/// Finds the character that closes the bracket opened at `open_index`, scanning
/// from there to `e`. `kind` selects the gating rule: 0 for round and angle
/// brackets, 1 for curly, 2 for square.
fn find_matching(
    t: &Vec<char>,
    open_index: usize,
    e: usize,
    open: char,
    close: char,
    kind: u8,
) -> (r: Option<usize>)
    requires
        open_index <= e <= t@.len(),
        open != close,
    ensures
        r matches Some(k) ==> open_index <= k < e && close_hit(
            t@,
            open_index as int,
            k as int,
            open,
            close,
            gate_value(kind, t@, open_index as int),
        ) && forall|j: int|
            open_index <= j < k ==> !close_hit(
                t@,
                open_index as int,
                j,
                open,
                close,
                gate_value(kind, t@, open_index as int),
            ),
        r is None ==> forall|j: int|
            open_index <= j < e ==> !close_hit(
                t@,
                open_index as int,
                j,
                open,
                close,
                gate_value(kind, t@, open_index as int),
            ),
{
    let s = open_index;
    let mut d = depths_new();
    let mut depth: usize = 0;
    let mut i = s;
    while i < e
        invariant
            s == open_index,
            s <= i <= e <= t@.len(),
            open != close,
            depths_at(d, t@, s as int, i as int),
            depth as int == gated_depth_at(
                t@,
                s as int,
                i as int,
                open,
                close,
                gate_value(kind, t@, s as int),
            ),
            depth <= i - s,
            forall|j: int|
                s <= j < i ==> !close_hit(
                    t@,
                    s as int,
                    j,
                    open,
                    close,
                    gate_value(kind, t@, s as int),
                ),
        decreases e - i,
    {
        let c = t[i];
        let g = if kind == 1 {
            d.paren == 0
        } else if kind == 2 {
            d.paren == 0 && d.brace == 0
        } else {
            true
        };
        assert(g == gate_value(kind, t@, s as int)(i as int));
        let code = depths_step(&mut d, t, s, i);
        if code && c == open && g {
            depth = depth + 1;
        } else if code && c == close && g {
            if depth <= 1 {
                return Some(i);
            }
            depth = depth - 1;
        }
        i = i + 1;
    }
    None
}

/// The index that closes the `(` at `open_index`, as `find_matching_paren` finds it.
pub fn find_matching_paren(t: &Vec<char>, open_index: usize, e: usize) -> (r: Option<usize>)
    requires
        open_index <= e <= t@.len(),
    ensures
        r matches Some(k) ==> open_index <= k < e && close_hit(
            t@,
            open_index as int,
            k as int,
            '(',
            ')',
            no_gate(),
        ) && forall|j: int|
            open_index <= j < k ==> !close_hit(t@, open_index as int, j, '(', ')', no_gate()),
        r is None ==> forall|j: int|
            open_index <= j < e ==> !close_hit(t@, open_index as int, j, '(', ')', no_gate()),
{
    let r = find_matching(t, open_index, e, '(', ')', 0);
    assert(gate_value(0, t@, open_index as int) == no_gate());
    r
}

/// The index that closes the `<` at `open_index`.
pub fn find_matching_angle(t: &Vec<char>, open_index: usize, e: usize) -> (r: Option<usize>)
    requires
        open_index <= e <= t@.len(),
    ensures
        r matches Some(k) ==> open_index <= k < e && close_hit(
            t@,
            open_index as int,
            k as int,
            '<',
            '>',
            no_gate(),
        ) && forall|j: int|
            open_index <= j < k ==> !close_hit(t@, open_index as int, j, '<', '>', no_gate()),
        r is None ==> forall|j: int|
            open_index <= j < e ==> !close_hit(t@, open_index as int, j, '<', '>', no_gate()),
{
    let r = find_matching(t, open_index, e, '<', '>', 0);
    assert(gate_value(0, t@, open_index as int) == no_gate());
    r
}

/// The index that closes the `{` at `open_index`; braces inside parentheses do not count.
pub fn find_matching_brace(t: &Vec<char>, open_index: usize, e: usize) -> (r: Option<usize>)
    requires
        open_index <= e <= t@.len(),
    ensures
        r matches Some(k) ==> open_index <= k < e && close_hit(
            t@,
            open_index as int,
            k as int,
            '{',
            '}',
            brace_gate(t@, open_index as int),
        ) && forall|j: int|
            open_index <= j < k ==> !close_hit(
                t@,
                open_index as int,
                j,
                '{',
                '}',
                brace_gate(t@, open_index as int),
            ),
        r is None ==> forall|j: int|
            open_index <= j < e ==> !close_hit(
                t@,
                open_index as int,
                j,
                '{',
                '}',
                brace_gate(t@, open_index as int),
            ),
{
    let r = find_matching(t, open_index, e, '{', '}', 1);
    assert(gate_value(1, t@, open_index as int) == brace_gate(t@, open_index as int));
    r
}

/// The index that closes the `[` at `open_index`; brackets inside parentheses or
/// braces do not count.
pub fn find_matching_square(t: &Vec<char>, open_index: usize, e: usize) -> (r: Option<usize>)
    requires
        open_index <= e <= t@.len(),
    ensures
        r matches Some(k) ==> open_index <= k < e && close_hit(
            t@,
            open_index as int,
            k as int,
            '[',
            ']',
            square_gate(t@, open_index as int),
        ) && forall|j: int|
            open_index <= j < k ==> !close_hit(
                t@,
                open_index as int,
                j,
                '[',
                ']',
                square_gate(t@, open_index as int),
            ),
        r is None ==> forall|j: int|
            open_index <= j < e ==> !close_hit(
                t@,
                open_index as int,
                j,
                '[',
                ']',
                square_gate(t@, open_index as int),
            ),
{
    let r = find_matching(t, open_index, e, '[', ']', 2);
    assert(gate_value(2, t@, open_index as int) == square_gate(t@, open_index as int));
    r
}

/// `[s, e)` is one parenthesized group: it starts with `(` and the `(` closes at its last character.
pub open spec fn wrapped_in_parens(t: Seq<char>, s: int, e: int) -> bool {
    &&& s < e
    &&& t[s] == '('
    &&& t[e - 1] == ')'
    &&& close_hit(t, s, e - 1, '(', ')', no_gate())
    &&& forall|j: int| s <= j < e - 1 ==> !close_hit(t, s, j, '(', ')', no_gate())
}

/// Whether `[s, e)` is wrapped in one pair of parentheses.
pub fn is_wrapped_in_parens(t: &Vec<char>, s: usize, e: usize) -> (b: bool)
    requires
        s <= e <= t@.len(),
    ensures
        b == wrapped_in_parens(t@, s as int, e as int),
{
    if s < e && t[s] == '(' && t[e - 1] == ')' {
        match find_matching_paren(t, s, e) {
            Some(close) => close == e - 1,
            None => false,
        }
    } else {
        false
    }
}

/// `[s, e)` starts with `open` and the scan from `s` closes it exactly at its last character.
pub open spec fn wrapped_by(
    t: Seq<char>,
    s: int,
    e: int,
    open: char,
    close: char,
    gate: spec_fn(int) -> bool,
) -> bool {
    &&& s < e
    &&& t[s] == open
    &&& t[e - 1] == close
    &&& close_hit(t, s, e - 1, open, close, gate)
    &&& forall|j: int| s <= j < e - 1 ==> !close_hit(t, s, j, open, close, gate)
}

/// Whether `[s, e)` is one `{ ... }` group.
pub fn is_wrapped_in_braces(t: &Vec<char>, s: usize, e: usize) -> (b: bool)
    requires
        s <= e <= t@.len(),
    ensures
        b == wrapped_by(t@, s as int, e as int, '{', '}', brace_gate(t@, s as int)),
{
    if s < e && t[s] == '{' && t[e - 1] == '}' {
        match find_matching_brace(t, s, e) {
            Some(close) => close == e - 1,
            None => false,
        }
    } else {
        false
    }
}

/// Whether `[s, e)` is one `[ ... ]` group.
pub fn is_wrapped_in_squares(t: &Vec<char>, s: usize, e: usize) -> (b: bool)
    requires
        s <= e <= t@.len(),
    ensures
        b == wrapped_by(t@, s as int, e as int, '[', ']', square_gate(t@, s as int)),
{
    if s < e && t[s] == '[' && t[e - 1] == ']' {
        match find_matching_square(t, s, e) {
            Some(close) => close == e - 1,
            None => false,
        }
    } else {
        false
    }
}

} // verus!
