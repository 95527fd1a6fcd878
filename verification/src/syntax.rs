//! The surface syntax of stage1 Axiom and its line-oriented parser.
use vstd::prelude::*;
use crate::diagnostics::Diagnostic;
use crate::scan::{
    brace_gate, close_hit, code_at, depths_at, depths_new, depths_step, find_last_top_level_char,
    find_matching_angle, find_matching_brace, find_matching_paren, find_matching_square,
    find_top_level_char, flat_at, angle_at, last_hit, split_type_hit, is_bracket, is_split, no_gate, split_pred, top_hit, is_wrapped_in_braces, is_wrapped_in_parens,
    is_wrapped_in_squares, lemma_split_parts_shorter, lemma_split_unique, lex_at, lex_next, square_gate, wrapped_by, split_top_level, split_top_level_type,
};
use crate::text::{
    all_digits, byte_offset, chars_of, debug_quoted, debug_string, is_alpha, is_ascii_alpha,
    is_ascii_digit, is_digit, is_whitespace, is_ws, json_string, json_string_value, parse_i64_spec, parse_i64, parse_usize_digits, range_eq,
    is_trim_of, range_starts_with, split_lines, string_from, trim, lemma_lines_cover, lines_from,
};

verus! {

#[derive(Debug, PartialEq, Eq)]
pub struct Program {
    pub imports: Vec<Import>,
    pub structs: Vec<StructDecl>,
    pub enums: Vec<EnumDecl>,
    pub functions: Vec<Function>,
    pub stmts: Vec<Stmt>,
}

#[derive(Debug, Clone, PartialEq, Eq)]
pub struct Import {
    pub path: String,
    pub line: usize,
    pub column: usize,
}

#[derive(Debug, PartialEq, Eq)]
pub struct Function {
    pub name: String,
    pub params: Vec<Param>,
    pub return_ty: TypeName,
    pub body: Vec<Stmt>,
    pub is_public: bool,
    pub line: usize,
    pub column: usize,
}

#[derive(Debug, PartialEq, Eq)]
pub struct StructDecl {
    pub name: String,
    pub fields: Vec<StructField>,
    pub is_public: bool,
    pub line: usize,
    pub column: usize,
}

#[derive(Debug, PartialEq, Eq)]
pub struct StructField {
    pub name: String,
    pub ty: TypeName,
    pub line: usize,
    pub column: usize,
}

#[derive(Debug, PartialEq, Eq)]
pub struct EnumDecl {
    pub name: String,
    pub variants: Vec<EnumVariantDecl>,
    pub is_public: bool,
    pub line: usize,
    pub column: usize,
}

#[derive(Debug, PartialEq, Eq)]
pub struct EnumVariantDecl {
    pub name: String,
    pub payload_tys: Vec<TypeName>,
    pub payload_names: Vec<String>,
    pub line: usize,
    pub column: usize,
}

#[derive(Debug, PartialEq, Eq)]
pub struct Param {
    pub name: String,
    pub ty: TypeName,
    pub line: usize,
    pub column: usize,
}

#[derive(Debug, PartialEq, Eq)]
pub enum Stmt {
    Let { name: String, ty: TypeName, expr: Expr, line: usize, column: usize },
    Print { expr: Expr, line: usize, column: usize },
    If {
        cond: Expr,
        then_block: Vec<Stmt>,
        else_block: Option<Vec<Stmt>>,
        line: usize,
        column: usize,
    },
    While { cond: Expr, body: Vec<Stmt>, line: usize, column: usize },
    Match { expr: Expr, arms: Vec<MatchArm>, line: usize, column: usize },
    Return { expr: Expr, line: usize, column: usize },
}

#[derive(Debug, PartialEq, Eq)]
pub struct MatchArm {
    pub variant: String,
    pub bindings: Vec<String>,
    pub is_named: bool,
    pub body: Vec<Stmt>,
    pub line: usize,
    pub column: usize,
}

#[derive(Debug, PartialEq, Eq)]
pub enum TypeName {
    Int,
    Bool,
    String,
    Named(String),
    /// A borrowed view of an array, written `&[T]`.
    Slice(Box<TypeName>),
    /// A mutable borrowed view of an array, written `&mut [T]`.
    MutSlice(Box<TypeName>),
    Option(Box<TypeName>),
    Result(Box<TypeName>, Box<TypeName>),
    Tuple(Vec<TypeName>),
    /// A map from keys to values, written `{K: V}`.
    Dict(Box<TypeName>, Box<TypeName>),
    Array(Box<TypeName>),
}

#[derive(Debug, PartialEq, Eq)]
pub enum Expr {
    Literal(Literal),
    VarRef { name: String, line: usize, column: usize },
    Call { name: String, args: Vec<Expr>, line: usize, column: usize },
    BinaryAdd { lhs: Box<Expr>, rhs: Box<Expr>, line: usize, column: usize },
    BinaryCompare { op: CompareOp, lhs: Box<Expr>, rhs: Box<Expr>, line: usize, column: usize },
    StructLiteral { name: String, fields: Vec<StructFieldValue>, line: usize, column: usize },
    FieldAccess { base: Box<Expr>, field: String, line: usize, column: usize },
    TupleLiteral { elements: Vec<Expr>, line: usize, column: usize },
    TupleIndex { base: Box<Expr>, index: usize, line: usize, column: usize },
    MapLiteral { entries: Vec<MapEntry>, line: usize, column: usize },
    ArrayLiteral { elements: Vec<Expr>, line: usize, column: usize },
    Slice {
        base: Box<Expr>,
        start: Option<Box<Expr>>,
        end: Option<Box<Expr>>,
        line: usize,
        column: usize,
    },
    Index { base: Box<Expr>, index: Box<Expr>, line: usize, column: usize },
}

#[derive(Debug, PartialEq, Eq)]
pub struct StructFieldValue {
    pub name: String,
    pub expr: Expr,
    pub line: usize,
    pub column: usize,
}

#[derive(Debug, PartialEq, Eq)]
pub struct MapEntry {
    pub key: Expr,
    pub value: Expr,
    pub line: usize,
    pub column: usize,
}

#[derive(Debug, Clone, PartialEq, Eq)]
pub enum Literal {
    Int(i64),
    Bool(bool),
    String(String),
}

#[derive(Debug, Clone, Copy, PartialEq, Eq)]
pub enum CompareOp {
    Eq,
    Ne,
    Lt,
    Le,
    Gt,
    Ge,
}

impl Expr {
    /// Where the expression starts, as (line, column); a literal carries no
    /// position of its own and reports the start of the file.
    pub open spec fn start(&self) -> (usize, usize) {
        match self {
            Expr::Literal(_) => (1, 1),
            Expr::VarRef { line, column, .. } => (*line, *column),
            Expr::Call { line, column, .. } => (*line, *column),
            Expr::BinaryAdd { line, column, .. } => (*line, *column),
            Expr::BinaryCompare { line, column, .. } => (*line, *column),
            Expr::StructLiteral { line, column, .. } => (*line, *column),
            Expr::FieldAccess { line, column, .. } => (*line, *column),
            Expr::TupleLiteral { line, column, .. } => (*line, *column),
            Expr::TupleIndex { line, column, .. } => (*line, *column),
            Expr::MapLiteral { line, column, .. } => (*line, *column),
            Expr::ArrayLiteral { line, column, .. } => (*line, *column),
            Expr::Slice { line, column, .. } => (*line, *column),
            Expr::Index { line, column, .. } => (*line, *column),
        }
    }

    pub fn line(&self) -> (r: usize)
        ensures
            r == self.start().0,
    {
        match self {
            Expr::Literal(_) => 1,
            Expr::VarRef { line, .. } => *line,
            Expr::Call { line, .. } => *line,
            Expr::BinaryAdd { line, .. } => *line,
            Expr::BinaryCompare { line, .. } => *line,
            Expr::StructLiteral { line, .. } => *line,
            Expr::FieldAccess { line, .. } => *line,
            Expr::TupleLiteral { line, .. } => *line,
            Expr::TupleIndex { line, .. } => *line,
            Expr::MapLiteral { line, .. } => *line,
            Expr::ArrayLiteral { line, .. } => *line,
            Expr::Slice { line, .. } => *line,
            Expr::Index { line, .. } => *line,
        }
    }

    pub fn column(&self) -> (r: usize)
        ensures
            r == self.start().1,
    {
        match self {
            Expr::Literal(_) => 1,
            Expr::VarRef { column, .. } => *column,
            Expr::Call { column, .. } => *column,
            Expr::BinaryAdd { column, .. } => *column,
            Expr::BinaryCompare { column, .. } => *column,
            Expr::StructLiteral { column, .. } => *column,
            Expr::FieldAccess { column, .. } => *column,
            Expr::TupleLiteral { column, .. } => *column,
            Expr::TupleIndex { column, .. } => *column,
            Expr::MapLiteral { column, .. } => *column,
            Expr::ArrayLiteral { column, .. } => *column,
            Expr::Slice { column, .. } => *column,
            Expr::Index { column, .. } => *column,
        }
    }
}

impl Stmt {
    /// Where the statement starts, as (line, column).
    pub open spec fn start(&self) -> (usize, usize) {
        match self {
            Stmt::Let { line, column, .. } => (*line, *column),
            Stmt::Print { line, column, .. } => (*line, *column),
            Stmt::If { line, column, .. } => (*line, *column),
            Stmt::While { line, column, .. } => (*line, *column),
            Stmt::Match { line, column, .. } => (*line, *column),
            Stmt::Return { line, column, .. } => (*line, *column),
        }
    }

    pub fn line(&self) -> (r: usize)
        ensures
            r == self.start().0,
    {
        match self {
            Stmt::Let { line, .. } => *line,
            Stmt::Print { line, .. } => *line,
            Stmt::If { line, .. } => *line,
            Stmt::While { line, .. } => *line,
            Stmt::Match { line, .. } => *line,
            Stmt::Return { line, .. } => *line,
        }
    }

    pub fn column(&self) -> (r: usize)
        ensures
            r == self.start().1,
    {
        match self {
            Stmt::Let { column, .. } => *column,
            Stmt::Print { column, .. } => *column,
            Stmt::If { column, .. } => *column,
            Stmt::While { column, .. } => *column,
            Stmt::Match { column, .. } => *column,
            Stmt::Return { column, .. } => *column,
        }
    }
}

impl CompareOp {
    pub open spec fn spec_text(self) -> Seq<char> {
        match self {
            CompareOp::Eq => seq!['=', '='],
            CompareOp::Ne => seq!['!', '='],
            CompareOp::Lt => seq!['<'],
            CompareOp::Le => seq!['<', '='],
            CompareOp::Gt => seq!['>'],
            CompareOp::Ge => seq!['>', '='],
        }
    }

    /// The operator as it is written in source.
    pub fn lexeme(self) -> (s: &'static str)
        ensures
            s@ == self.spec_text(),
    {
        let r = match self {
            CompareOp::Eq => "==",
            CompareOp::Ne => "!=",
            CompareOp::Lt => "<",
            CompareOp::Le => "<=",
            CompareOp::Gt => ">",
            CompareOp::Ge => ">=",
        };
        proof {
            reveal_strlit("==");
            reveal_strlit("!=");
            reveal_strlit("<");
            reveal_strlit("<=");
            reveal_strlit(">");
            reveal_strlit(">=");
        }
        r
    }
}

/// The source being parsed: its characters and the path that diagnostics name.
pub struct Source {
    pub text: Vec<char>,
    pub path: String,
}

/// The range `[s, e)` of `t` begins with `lit`.
pub open spec fn has_prefix(t: Seq<char>, s: int, e: int, lit: Seq<char>) -> bool {
    lit.len() <= e - s && t.subrange(s, s + lit.len()) == lit
}

/// A line holds nothing but whitespace.
pub open spec fn blank_line(t: Seq<char>, l: (usize, usize)) -> bool {
    forall|i: int| l.0 <= i < l.1 ==> is_ws(#[trigger] t[i])
}

/// `k` is the first top-level `open` of `[a, b)`, and the pair it opens closes
/// at the last character, `close`, which is not `k` itself.
pub open spec fn shaped_at(
    t: Seq<char>,
    a: int,
    b: int,
    k: int,
    open: char,
    close: char,
    gate: spec_fn(int) -> bool,
) -> bool {
    &&& a < b && t[b - 1] == close
    &&& a <= k < b - 1
    &&& top_hit(t, a, k, open)
    &&& forall|j: int| a <= j < k ==> !top_hit(t, a, j, open)
    &&& close_hit(t, k, b - 1, open, close, gate)
    &&& forall|j: int| k <= j < b - 1 ==> !close_hit(t, k, j, open, close, gate)
}

/// `[s, e)` reads `keyword` (which ends in `<`), then a range, then the `>`
/// that closes that `<`, at the last character.
pub open spec fn generic_shape(t: Seq<char>, s: int, e: int, keyword: Seq<char>) -> bool {
    let k = s + keyword.len();
    &&& has_prefix(t, s, e, keyword)
    &&& s < k < e
    &&& t[k - 1] == '<'
    &&& t[e - 1] == '>'
    &&& close_hit(t, k - 1, e - 1, '<', '>', no_gate())
    &&& no_close_before(t, k - 1, e - 1, '<', '>', no_gate())
}

/// No character of `[o, c)` closes the pair opened at `o`.
pub open spec fn no_close_before(
    t: Seq<char>,
    o: int,
    c: int,
    open: char,
    close: char,
    gate: spec_fn(int) -> bool,
) -> bool {
    forall|j: int| o <= j < c ==> !close_hit(t, o, j, open, close, gate)
}

/// Every line range lies within the text.
pub open spec fn lines_ok(lines: Seq<(usize, usize)>, n: int) -> bool {
    forall|i: int| 0 <= i < lines.len() ==> (#[trigger] lines[i]).0 <= lines[i].1 <= n
}

/// The characters of an identifier: an ASCII letter or `_`, then ASCII letters,
/// digits or `_`.
pub open spec fn is_ident(s: Seq<char>) -> bool {
    &&& s.len() > 0
    &&& (is_alpha(s[0]) || s[0] == '_')
    &&& forall|i: int| 1 <= i < s.len() ==> is_alpha(#[trigger] s[i]) || is_digit(s[i]) || s[i] == '_'
}

fn perr(src: &Source, msg: &str, line: usize, column: usize) -> (d: Diagnostic)
    ensures
        d.kind@ == "parse"@,
        d.message@ == msg@,
        d.path == Some(src.path),
        d.line == Some(line),
        d.column == Some(column),
{
    Diagnostic::msg("parse", msg).with_path(src.path.clone()).with_span(line, column)
}

fn perr_s(src: &Source, msg: String, line: usize, column: usize) -> (d: Diagnostic)
    ensures
        d.kind@ == "parse"@,
{
    Diagnostic::new("parse", msg).with_path(src.path.clone()).with_span(line, column)
}

/// `prefix` followed by the `{:?}` rendering of `[s, e)` and then `suffix`.
fn quoted_msg(prefix: &str, t: &Vec<char>, s: usize, e: usize, suffix: &str) -> (m: String)
    requires
        s <= e <= t@.len(),
    ensures
        m@ == prefix@ + debug_quoted(t@.subrange(s as int, e as int)) + suffix@,
{
    let v = string_from(t, s, e);
    let q = debug_string(v.as_str());
    String::from_str(prefix).concat(q.as_str()).concat(suffix)
}

fn is_lit(t: &Vec<char>, s: usize, e: usize, lit: &str) -> (b: bool)
    requires
        s <= e <= t@.len(),
    ensures
        b == (t@.subrange(s as int, e as int) == lit@),
{
    range_eq(t, s, e, &chars_of(lit))
}

/// The end of `lit` within `[s, e)` when the range starts with it.
fn strip_prefix(t: &Vec<char>, s: usize, e: usize, lit: &str) -> (r: Option<usize>)
    requires
        s <= e <= t@.len(),
    ensures
        r matches Some(k) ==> k == s + lit@.len() && k <= e && t@.subrange(s as int, k as int)
            == lit@,
        r is None ==> !(lit@.len() <= e - s && t@.subrange(s as int, s + lit@.len()) == lit@),
{
    let l = chars_of(lit);
    if range_starts_with(t, s, e, &l) {
        Some(s + l.len())
    } else {
        None
    }
}

fn starts(t: &Vec<char>, s: usize, e: usize, lit: &str) -> (b: bool)
    requires
        s <= e <= t@.len(),
    ensures
        b == (lit@.len() <= e - s && t@.subrange(s as int, s + lit@.len()) == lit@),
{
    range_starts_with(t, s, e, &chars_of(lit))
}

/// Whether `lit` occurs in `[s, e)`.
fn range_contains(t: &Vec<char>, s: usize, e: usize, lit: &str) -> (b: bool)
    requires
        s <= e <= t@.len(),
        lit@.len() > 0,
    ensures
        b == exists|k: int|
            s <= k && k + lit@.len() <= e && #[trigger] t@.subrange(k, k + lit@.len()) == lit@,
{
    let l = chars_of(lit);
    let mut k: usize = s;
    while k < e
        invariant
            s <= k <= e <= t@.len(),
            l@ == lit@,
            forall|j: int| s <= j < k ==> !(j + lit@.len() <= e && #[trigger] t@.subrange(j, j + lit@.len()) == lit@),
        decreases e - k,
    {
        if range_starts_with(t, k, e, &l) {
            return true;
        }
        k = k + 1;
    }
    false
}

/// Whether `[s, e)` is an identifier; the error names it as `validate_ident` does.
fn validate_ident(src: &Source, s: usize, e: usize, line: usize, column: usize) -> (r: Result<
    (),
    Diagnostic,
>)
    requires
        s <= e <= src.text@.len(),
    ensures
        r is Ok <==> is_ident(src.text@.subrange(s as int, e as int)),
        r matches Err(d) ==> d.kind@ == "parse"@,
{
    let t = &src.text;
    let ghost v = t@.subrange(s as int, e as int);
    if s == e {
        return Err(perr(src, "identifier is empty", line, column));
    }
    let first = t[s];
    let mut ok = is_ascii_alpha(first) || first == '_';
    let mut i = s + 1;
    while ok && i < e
        invariant
            s < i <= e <= t@.len(),
            v == t@.subrange(s as int, e as int),
            ok == ((is_alpha(v[0]) || v[0] == '_') && forall|k: int|
                1 <= k < i - s ==> is_alpha(#[trigger] v[k]) || is_digit(v[k]) || v[k] == '_'),
        decreases e - i,
    {
        let c = t[i];
        assert(v[i - s] == c);
        ok = is_ascii_alpha(c) || is_ascii_digit(c) || c == '_';
        i = i + 1;
    }
    if !ok {
        return Err(perr_s(src, quoted_msg("invalid identifier ", t, s, e, ""), line, column));
    }
    Ok(())
}

/// The comparison operator that `find_compare_operator` reports at character
/// `j` of the scan of `[s, e)`, if any.
pub open spec fn compare_at(t: Seq<char>, s: int, e: int, j: int) -> Option<CompareOp> {
    if code_at(t, s, j) && !is_bracket(t[j]) && flat_at(t, s, j) {
        let c = t[j];
        if j + 1 < e && c == '=' && t[j + 1] == '=' {
            Some(CompareOp::Eq)
        } else if j + 1 < e && c == '!' && t[j + 1] == '=' {
            Some(CompareOp::Ne)
        } else if j + 1 < e && c == '<' && t[j + 1] == '=' {
            Some(CompareOp::Le)
        } else if j + 1 < e && c == '>' && t[j + 1] == '=' {
            Some(CompareOp::Ge)
        } else if c == '<' {
            Some(CompareOp::Lt)
        } else if c == '>' {
            Some(CompareOp::Gt)
        } else {
            None
        }
    } else {
        None
    }
}

/// The first top-level comparison operator in `[s, e)` and where it starts.
fn find_compare_operator(t: &Vec<char>, s: usize, e: usize) -> (r: Option<(CompareOp, usize)>)
    requires
        s <= e <= t@.len(),
    ensures
        r matches Some((op, k)) ==> s <= k && k + op.spec_text().len() <= e && compare_at(
            t@,
            s as int,
            e as int,
            k as int,
        ) == Some(op) && forall|j: int| s <= j < k ==> compare_at(t@, s as int, e as int, j) is None,
        r is None ==> forall|j: int| s <= j < e ==> compare_at(t@, s as int, e as int, j) is None,
{
    let mut d = depths_new();
    let mut i = s;
    while i < e
        invariant
            s <= i <= e <= t@.len(),
            depths_at(d, t@, s as int, i as int),
            forall|j: int| s <= j < i ==> compare_at(t@, s as int, e as int, j) is None,
        decreases e - i,
    {
        let c = t[i];
        let flat = d.paren == 0 && d.brace == 0 && d.bracket == 0;
        let code = depths_step(&mut d, t, s, i);
        let structural = c == '(' || c == ')' || c == '{' || c == '}' || c == '[' || c == ']';
        if code && !structural && flat {
            let has_next = i + 1 < e;
            if has_next && c == '=' && t[i + 1] == '=' {
                return Some((CompareOp::Eq, i));
            } else if has_next && c == '!' && t[i + 1] == '=' {
                return Some((CompareOp::Ne, i));
            } else if has_next && c == '<' && t[i + 1] == '=' {
                return Some((CompareOp::Le, i));
            } else if has_next && c == '>' && t[i + 1] == '=' {
                return Some((CompareOp::Ge, i));
            } else if c == '<' {
                return Some((CompareOp::Lt, i));
            } else if c == '>' {
                return Some((CompareOp::Gt, i));
            }
        }
        i = i + 1;
    }
    None
}

/// Line `k` is the first line of `t` that is not blank, and it holds `}`
/// alone between whitespace.
pub open spec fn stray_brace_first(t: Seq<char>, ls: Seq<(int, int)>, k: int) -> bool {
    &&& 0 <= k < ls.len()
    &&& forall|j: int| 0 <= j < k ==> blank_range(t, (#[trigger] ls[j]).0, ls[j].1)
    &&& exists|x: int| #[trigger] is_trim_of(t, ls[k].0, ls[k].1, x, x + 1) && t[x] == '}'
}

/// Where the scan of lines stands relative to a stray first `}`: a blank
/// line `index` lies before it; a line that is not blank is it.
proof fn lemma_stray_brace_step(t: Seq<char>, ls: Seq<(int, int)>, index: int, a: int, b: int)
    requires
        0 <= index < ls.len(),
        0 <= ls[index].0,
        ls[index].1 <= t.len(),
        is_trim_of(t, ls[index].0, ls[index].1, a, b),
    ensures
        forall|k: int| #[trigger] stray_brace_first(t, ls, k) && index <= k ==> if a == b {
            index + 1 <= k
        } else {
            index == k && t.subrange(a, b) == "}"@
        },
{
    reveal_strlit("}");
    assert forall|k: int| #[trigger] stray_brace_first(t, ls, k) && index <= k implies if a == b {
        index + 1 <= k
    } else {
        index == k && t.subrange(a, b) == "}"@
    } by {
        if a < b && index < k {
            assert(blank_range(t, (ls[index]).0, ls[index].1));
            assert(is_ws(t[a]));
        }
        let x = choose|x: int| #[trigger] is_trim_of(t, ls[k].0, ls[k].1, x, x + 1) && t[x] == '}';
        if index == k {
            lemma_trim_unique(t, ls[k].0, ls[k].1, x, x + 1, a, b);
            assert(a == x && b == x + 1);
            assert(t[x] == '}');
            assert(t.subrange(a, b).len() == 1 && t.subrange(a, b)[0] == '}');
            assert("}"@.len() == 1 && "}"@[0] == '}');
            assert(t.subrange(a, b) =~= "}"@);
        }
    }
}

/// Parses one source file into its imports, declarations and top-level statements.
#[verifier::spinoff_prover]
#[verifier::rlimit(60)]
pub fn parse_program(source: &str, path: &str) -> (r: Result<Program, Diagnostic>)
    ensures
        forall|k: int| #[trigger] stray_brace_first(source@, lines_from(source@, 0), k) ==> (r matches Err(d)
            && d.kind@ == "parse"@ && d.message@ == "unexpected closing brace"@ && d.line == Some((k + 1) as usize)
            && d.column == Some(1usize)),
        r matches Err(d) ==> d.kind@ == "parse"@,
        (forall|i: int| 0 <= i < source@.len() ==> is_ws(#[trigger] source@[i])) ==> (r matches Ok(p)
            && p.imports@.len() == 0 && p.structs@.len() == 0 && p.enums@.len() == 0
            && p.functions@.len() == 0 && p.stmts@.len() == 0),
        r matches Ok(p) ==> (forall|i: int| 0 <= i < p.structs@.len() ==> is_ident((#[trigger] p.structs@[i]).name@))
            && (forall|i: int| 0 <= i < p.enums@.len() ==> is_ident((#[trigger] p.enums@[i]).name@)) && (
        forall|i: int| 0 <= i < p.functions@.len() ==> is_ident((#[trigger] p.functions@[i]).name@)),
        !(forall|i: int| 0 <= i < source@.len() ==> is_ws(#[trigger] source@[i])) ==> (r matches Ok(p)
            ==> p.imports@.len() + p.structs@.len() + p.enums@.len() + p.functions@.len() + p.stmts@.len()
            > 0),
        simple_lines_only(source@, lines_from(source@, 0)) ==> {
            &&& lines_decode(source@, lines_from(source@, 0)) ==> r is Ok
            &&& r matches Ok(p) ==> p.imports@.len() == 0 && p.structs@.len() == 0 && p.enums@.len() == 0
                && p.functions@.len() == 0 && parsed_lines(
                p.stmts@,
                source@,
                nonblank_lines(source@, lines_from(source@, 0)),
            )
        },
{
    let text = chars_of(source);
    let lines = split_lines(&text);
    let src = Source { text, path: String::from_str(path) };
    let mut index: usize = 0;
    let mut imports: Vec<Import> = Vec::new();
    let mut structs: Vec<StructDecl> = Vec::new();
    let mut enums: Vec<EnumDecl> = Vec::new();
    let mut functions: Vec<Function> = Vec::new();
    let mut stmts: Vec<Stmt> = Vec::new();
    while index < lines.len()
        invariant
            index <= lines@.len(),
            lines_ok(lines@, src.text@.len() as int),
            src.text@ == source@,
            (forall|i: int| 0 <= i < source@.len() ==> is_ws(#[trigger] source@[i])) ==> imports@.len()
                == 0 && structs@.len() == 0 && enums@.len() == 0 && functions@.len() == 0
                && stmts@.len() == 0,
            forall|i: int| 0 <= i < structs@.len() ==> is_ident((#[trigger] structs@[i]).name@),
            forall|i: int| 0 <= i < enums@.len() ==> is_ident((#[trigger] enums@[i]).name@),
            forall|i: int| 0 <= i < functions@.len() ==> is_ident((#[trigger] functions@[i]).name@),
            imports@.len() + structs@.len() + enums@.len() + functions@.len() + stmts@.len() == 0
                ==> forall|j: int| 0 <= j < index ==> blank_line(src.text@, #[trigger] lines@[j]),
            lines@.len() == lines_from(source@, 0).len(),
            forall|i: int|
                0 <= i < lines@.len() ==> (#[trigger] lines@[i]).0 as int == lines_from(source@, 0)[i].0
                    && lines@[i].1 as int == lines_from(source@, 0)[i].1,
            forall|k: int| #[trigger] stray_brace_first(source@, lines_from(source@, 0), k) ==> index <= k,
            simple_lines_only(source@, lines_from(source@, 0)) ==> imports@.len() == 0 && structs@.len() == 0
                && enums@.len() == 0 && functions@.len() == 0 && parsed_lines(
                stmts@,
                source@,
                nonblank_lines(source@, lines_from(source@, 0).take(index as int)),
            ),
        decreases lines@.len() - index,
    {
        let line_no = index + 1;
        let (a, b) = trim(&src.text, lines[index].0, lines[index].1);
        let t = &src.text;
        let ghost ls = lines_from(source@, 0);
        proof {
            let l = lines@[index as int];
            assert(ls.take(index + 1).drop_last() =~= ls.take(index as int));
            assert(ls.take(index + 1).last() == ls[index as int]);
            assert(l.0 as int == ls[index as int].0 && l.1 as int == ls[index as int].1);
            reveal_strlit("}");
            reveal_strlit("} else {");
            reveal_strlit("else {");
            reveal_strlit("pub use ");
            reveal_strlit("import ");
            reveal_strlit("fn ");
            reveal_strlit("pub fn ");
            reveal_strlit("struct ");
            reveal_strlit("pub struct ");
            reveal_strlit("enum ");
            reveal_strlit("pub enum ");
            reveal_strlit("let ");
            if simple_lines_only(source@, ls) {
                assert(blank_range(t@, ls[index as int].0, ls[index as int].1) || (exists|w: Seq<char>|
                    print_word_at(t@, ls[index as int].0, ls[index as int].1, w)) || let_line(
                    t@,
                    ls[index as int].0,
                    ls[index as int].1,
                ));
                if exists|w: Seq<char>| print_word_at(t@, ls[index as int].0, ls[index as int].1, w) {
                    let w = choose|w: Seq<char>| print_word_at(t@, ls[index as int].0, ls[index as int].1, w);
                    assert(print_word_line(t@, l, w));
                    lemma_print_word_line(t@, l, a as int, b as int);
                    assert(t@.subrange(a as int, b as int)[0] == t@[a as int]);
                    lemma_differs_at(t@, a as int, b as int, "pub use "@, 1);
                    lemma_differs_at(t@, a as int, b as int, "import "@, 0);
                    lemma_differs_at(t@, a as int, b as int, "fn "@, 0);
                    lemma_differs_at(t@, a as int, b as int, "pub fn "@, 1);
                    lemma_differs_at(t@, a as int, b as int, "struct "@, 0);
                    lemma_differs_at(t@, a as int, b as int, "pub struct "@, 1);
                    lemma_differs_at(t@, a as int, b as int, "enum "@, 0);
                    lemma_differs_at(t@, a as int, b as int, "pub enum "@, 1);
                    assert(!blank_range(t@, ls[index as int].0, ls[index as int].1)) by {
                        lemma_ident_chars(t@, a + 6, b as int);
                        assert(!is_ws(t@[a as int]));
                    }
                    assert forall|x: int, y: int, c: int, q: int| !#[trigger] let_line_at(
                        t@,
                        ls[index as int].0,
                        ls[index as int].1,
                        x,
                        y,
                        c,
                        q,
                    ) by {
                        if let_line_at(t@, ls[index as int].0, ls[index as int].1, x, y, c, q) {
                            lemma_trim_unique(t@, ls[index as int].0, ls[index as int].1, x, y, a as int, b as int);
                            assert(t@.subrange(x, x + 4)[0] == t@[x]);
                        }
                    }
                } else if let_line(t@, ls[index as int].0, ls[index as int].1) {
                    let (x, y, c, q) = choose|x: int, y: int, c: int, q: int| #[trigger] let_line_at(
                        t@,
                        ls[index as int].0,
                        ls[index as int].1,
                        x,
                        y,
                        c,
                        q,
                    );
                    lemma_let_shape(t@, x + 4, y, c, q);
                    lemma_trim_unique(t@, ls[index as int].0, ls[index as int].1, x, y, a as int, b as int);
                    assert(t@.subrange(x, x + 4)[0] == t@[x]);
                    assert(t@.subrange(a as int, b as int)[0] == t@[a as int]);
                    lemma_differs_at(t@, a as int, b as int, "pub use "@, 0);
                    lemma_differs_at(t@, a as int, b as int, "import "@, 0);
                    lemma_differs_at(t@, a as int, b as int, "fn "@, 0);
                    lemma_differs_at(t@, a as int, b as int, "pub fn "@, 0);
                    lemma_differs_at(t@, a as int, b as int, "struct "@, 0);
                    lemma_differs_at(t@, a as int, b as int, "pub struct "@, 0);
                    lemma_differs_at(t@, a as int, b as int, "enum "@, 0);
                    lemma_differs_at(t@, a as int, b as int, "pub enum "@, 0);
                    assert(!is_ws(t@[a as int]));
                    assert(!blank_range(t@, ls[index as int].0, ls[index as int].1));
                } else {
                    if a < b {
                        assert(!is_ws(t@[a as int]));
                    }
                }
            }
        }
        if a == b {
            proof {
                lemma_stray_brace_step(t@, ls, index as int, a as int, b as int);
            }
            index = index + 1;
            continue;
        }
        assert(!is_ws(t@[a as int]));
        proof {
            lemma_stray_brace_step(t@, ls, index as int, a as int, b as int);
        }
        if is_lit(t, a, b, "}") {
            return Err(perr(&src, "unexpected closing brace", line_no, 1));
        }
        if is_lit(t, a, b, "} else {") || is_lit(t, a, b, "else {") {
            return Err(perr(&src, "unexpected else block", line_no, 1));
        }
        if starts(t, a, b, "pub use ") {
            return Err(perr(&src, "stage1 bootstrap does not support re-exports", line_no, 1));
        }
        match parse_import(&src, a, b, line_no) {
            Err(d) => return Err(d),
            Ok(Some(import)) => {
                imports.push(import);
                index = index + 1;
                continue;
            },
            Ok(None) => {},
        }
        if starts(t, a, b, "fn ") || starts(t, a, b, "pub fn ") {
            match parse_function(&src, &lines, &mut index) {
                Ok(f) => functions.push(f),
                Err(d) => return Err(d),
            }
            continue;
        }
        if starts(t, a, b, "struct ") || starts(t, a, b, "pub struct ") {
            match parse_struct(&src, &lines, &mut index) {
                Ok(sd) => structs.push(sd),
                Err(d) => return Err(d),
            }
            continue;
        }
        if starts(t, a, b, "enum ") || starts(t, a, b, "pub enum ") {
            match parse_enum(&src, &lines, &mut index) {
                Ok(ed) => enums.push(ed),
                Err(d) => return Err(d),
            }
            continue;
        }
        let ghost before = stmts@;
        match parse_stmt(&src, &lines, &mut index, false) {
            Ok(st) => stmts.push(st),
            Err(d) => return Err(d),
        }
        proof {
            if simple_lines_only(source@, ls) {
                let nb = nonblank_lines(source@, ls.take(index as int));
                assert(stmts@ == before.push(stmts@.last()));
                assert forall|k: int| 0 <= k < stmts@.len() implies line_stmt(source@, nb[k].0, nb[k].1, #[trigger] stmts@[k]) by {
                    if k < before.len() {
                        assert(stmts@[k] == before[k]);
                    }
                }
            }
        }
    }
    proof {
        assert(lines_from(source@, 0).take(lines@.len() as int) =~= lines_from(source@, 0));
        if imports@.len() + structs@.len() + enums@.len() + functions@.len() + stmts@.len() == 0 {
            assert forall|i: int| 0 <= i < source@.len() implies is_ws(#[trigger] source@[i]) by {
                if !is_ws(source@[i]) {
                    lemma_lines_cover(source@, 0, i);
                    let j = choose|j: int|
                        0 <= j < lines_from(source@, 0).len() && (#[trigger] lines_from(source@, 0)[j]).0
                            <= i < lines_from(source@, 0)[j].1;
                    assert(blank_line(src.text@, lines@[j]));
                }
            }
        }
    }
    Ok(Program { imports, structs, enums, functions, stmts })
}

fn parse_import(src: &Source, a: usize, b: usize, line_no: usize) -> (r: Result<
    Option<Import>,
    Diagnostic,
>)
    requires
        a <= b <= src.text@.len(),
    ensures
        r matches Err(d) ==> d.kind@ == "parse"@,
        r matches Ok(Some(i)) ==> i.line == line_no && i.column == 1,
        !has_prefix(src.text@, a as int, b as int, "import "@) ==> (r matches Ok(None)),
        has_prefix(src.text@, a as int, b as int, "import "@) ==> !(r matches Ok(None)) && (r is Ok
            <==> json_string_value(src.text@.subrange(a + "import "@.len(), b as int)) is Some),
        r matches Ok(Some(i)) ==> json_string_value(src.text@.subrange(a + "import "@.len(), b as int))
            == Some(i.path@),
{
    let t = &src.text;
    match strip_prefix(t, a, b, "import ") {
        None => Ok(None),
        Some(rest) => match json_string(t, rest, b) {
            Some(path) => Ok(Some(Import { path, line: line_no, column: 1 })),
            None => {
                proof {
                    reveal_strlit("\" as ");
                }
                if range_contains(t, rest, b, "\" as ") {
                    Err(perr(src, "stage1 bootstrap does not support import aliases", line_no, 1))
                } else {
                    Err(perr(src, "import must use a quoted relative path", line_no, 1))
                }
            },
        },
    }
}

/// The error for a line whose block never closes: it names the last line.
fn missing_close(src: &Source, lines: &Vec<(usize, usize)>, msg: &str) -> (d: Diagnostic)
    ensures
        d.kind@ == "parse"@,
{
    let last = if lines.len() > 1 {
        lines.len()
    } else {
        1
    };
    perr(src, msg, last, 1)
}

fn parse_stmt_list(src: &Source, lines: &Vec<(usize, usize)>, index: &mut usize) -> (r: Result<
    Vec<Stmt>,
    Diagnostic,
>)
    requires
        *old(index) <= lines@.len(),
        lines_ok(lines@, src.text@.len() as int),
    ensures
        *old(index) <= *final(index) <= lines@.len(),
        r matches Err(d) ==> d.kind@ == "parse"@,
        r is Ok ==> (*old(index) < *final(index) && line_reads(
            src.text@,
            lines@[*final(index) - 1],
            "}"@,
        )) || (*final(index) < lines@.len() && line_reads(
            src.text@,
            lines@[*final(index) as int],
            "} else {"@,
        )),
    decreases lines@.len() - *old(index), 3int,
{
    let mut stmts: Vec<Stmt> = Vec::new();
    let ghost start = *index;
    while *index < lines.len()
        invariant
            start <= *index <= lines@.len(),
            start == *old(index),
            lines_ok(lines@, src.text@.len() as int),
        decreases lines@.len() - *index,
    {
        let nlines = lines.len();
    let line_no = *index + 1;
        let (a, b) = trim(&src.text, lines[*index].0, lines[*index].1);
        let t = &src.text;
        if a == b {
            *index = *index + 1;
            continue;
        }
        if is_lit(t, a, b, "}") {
            assert(is_trim_of(t@, lines@[*index as int].0 as int, lines@[*index as int].1 as int, a as int, b as int));
            *index = *index + 1;
            return Ok(stmts);
        }
        if is_lit(t, a, b, "} else {") {
            assert(is_trim_of(t@, lines@[*index as int].0 as int, lines@[*index as int].1 as int, a as int, b as int));
            return Ok(stmts);
        }
        if is_lit(t, a, b, "else {") {
            return Err(perr(src, "unexpected else block", line_no, 1));
        }
        if starts(t, a, b, "import ") {
            return Err(
                perr(src, "stage1 bootstrap only supports imports at the top level", line_no, 1),
            );
        }
        if starts(t, a, b, "fn ") || starts(t, a, b, "pub fn ") {
            return Err(
                perr(
                    src,
                    "stage1 bootstrap only supports top-level function declarations",
                    line_no,
                    1,
                ),
            );
        }
        if starts(t, a, b, "struct ") || starts(t, a, b, "pub struct ") {
            return Err(
                perr(
                    src,
                    "stage1 bootstrap only supports top-level struct declarations",
                    line_no,
                    1,
                ),
            );
        }
        if starts(t, a, b, "enum ") || starts(t, a, b, "pub enum ") {
            return Err(
                perr(src, "stage1 bootstrap only supports top-level enum declarations", line_no, 1),
            );
        }
        match parse_stmt(src, lines, index, true) {
            Ok(st) => stmts.push(st),
            Err(d) => return Err(d),
        }
    }
    Err(missing_close(src, lines, "missing closing brace for block"))
}

/// Two trims of one range that leave text agree.
proof fn lemma_trim_unique(t: Seq<char>, s: int, e: int, x1: int, y1: int, x2: int, y2: int)
    requires
        is_trim_of(t, s, e, x1, y1),
        is_trim_of(t, s, e, x2, y2),
        x1 < y1,
        e <= t.len(),
    ensures
        x1 == x2 && y1 == y2,
{
    if x2 == y2 {
        assert(is_ws(t[x1]));
    }
    if x2 < x1 {
        assert(is_ws(t[x2]));
    }
    if x1 < x2 {
        assert(is_ws(t[x1]));
    }
    if y2 < y1 {
        assert(is_ws(t[y1 - 1]));
    }
    if y1 < y2 {
        assert(is_ws(t[y2 - 1]));
    }
}

/// `[a, ..)` of `t` does not start with `lit`: they differ at `k`.
proof fn lemma_differs_at(t: Seq<char>, a: int, b: int, lit: Seq<char>, k: int)
    requires
        0 <= a <= b <= t.len(),
        0 <= k < lit.len(),
        a + k < b,
        t[a + k] != lit[k],
    ensures
        !(lit.len() <= b - a && t.subrange(a, a + lit.len()) == lit),
{
    if lit.len() <= b - a && t.subrange(a, a + lit.len()) == lit {
        assert(t.subrange(a, a + lit.len())[k] == t[a + k]);
    }
}

/// `[a, b)` of `t` reads `print ` and then the single word `w`, once trimmed.
pub open spec fn print_word_at(t: Seq<char>, a: int, b: int, w: Seq<char>) -> bool {
    is_ident(w) && trimmed_text(t, a, b, "print "@ + w)
}

/// The word that a range of the form `print <word>` prints.
pub open spec fn printed_word_at(t: Seq<char>, a: int, b: int) -> Seq<char> {
    choose|w: Seq<char>| print_word_at(t, a, b, w)
}

/// Line `l` of `t` reads `print ` and then the single word `w`, once trimmed.
pub open spec fn print_word_line(t: Seq<char>, l: (usize, usize), w: Seq<char>) -> bool {
    print_word_at(t, l.0 as int, l.1 as int, w)
}

/// The word that a line of the form `print <word>` prints.
pub open spec fn printed_word(t: Seq<char>, l: (usize, usize)) -> Seq<char> {
    printed_word_at(t, l.0 as int, l.1 as int)
}

/// The line `[a, b)` of `t` is a simple `let` line.
pub open spec fn let_line(t: Seq<char>, a: int, b: int) -> bool {
    exists|x: int, y: int, c: int, q: int| #[trigger] let_line_at(t, a, b, x, y, c, q)
}

/// Every line of `ls` is blank, prints one word, or is a simple `let`.
pub open spec fn simple_lines_only(t: Seq<char>, ls: Seq<(int, int)>) -> bool {
    forall|j: int|
        0 <= j < ls.len() ==> blank_range(t, (#[trigger] ls[j]).0, ls[j].1) || (exists|w: Seq<char>|
            print_word_at(t, ls[j].0, ls[j].1, w)) || let_line(t, ls[j].0, ls[j].1)
}

/// The value of every simple `let` line of `ls` parses.
pub open spec fn lines_decode(t: Seq<char>, ls: Seq<(int, int)>) -> bool {
    forall|j: int, x: int, y: int, c: int, q: int|
        0 <= j < ls.len() && #[trigger] let_line_at(t, ls[j].0, ls[j].1, x, y, c, q) ==> value_decodes(
            t,
            q + 1,
            y,
        )
}

/// The lines of `ls` that are not blank, in order.
pub open spec fn nonblank_lines(t: Seq<char>, ls: Seq<(int, int)>) -> Seq<(int, int)>
    decreases ls.len(),
{
    if ls.len() == 0 {
        Seq::empty()
    } else {
        let rest = nonblank_lines(t, ls.drop_last());
        if blank_range(t, ls.last().0, ls.last().1) {
            rest
        } else {
            rest.push(ls.last())
        }
    }
}

/// `st` is what the simple line `[a, b)` parses to: the `print` of its word,
/// or its `let`.
pub open spec fn line_stmt(t: Seq<char>, a: int, b: int, st: Stmt) -> bool {
    if exists|w: Seq<char>| print_word_at(t, a, b, w) {
        st matches Stmt::Print { expr, .. } && word_expr(printed_word_at(t, a, b), expr)
    } else {
        forall|x: int, y: int, c: int, q: int|
            #[trigger] let_line_at(t, a, b, x, y, c, q) ==> let_parsed_at(t, x + 4, y, c, q, st)
    }
}

/// `stmts` are what the simple lines `ls` parse to, one for one and in order.
pub open spec fn parsed_lines(stmts: Seq<Stmt>, t: Seq<char>, ls: Seq<(int, int)>) -> bool {
    &&& stmts.len() == ls.len()
    &&& forall|k: int| 0 <= k < stmts.len() ==> line_stmt(t, ls[k].0, ls[k].1, #[trigger] stmts[k])
}

/// What the trimmed range `[a, b)` of such a line holds.
proof fn lemma_print_word_line(t: Seq<char>, l: (usize, usize), a: int, b: int)
    requires
        l.0 <= l.1 <= t.len(),
        is_trim_of(t, l.0 as int, l.1 as int, a, b),
        exists|w: Seq<char>| print_word_line(t, l, w),
    ensures
        print_word_line(t, l, printed_word(t, l)),
        b - a == 6 + printed_word(t, l).len(),
        t.subrange(a, a + 6) == "print "@,
        t.subrange(a + 6, b) == printed_word(t, l),
        t[a] == 'p' && t[a + 1] == 'r',
        is_ident(t.subrange(a + 6, b)),
{
    reveal_strlit("print ");
    let w = printed_word(t, l);
    assert(print_word_line(t, l, w));
    let (x, y) = choose|x: int, y: int| #[trigger] is_trim_of(t, l.0 as int, l.1 as int, x, y)
        && "print "@ + w == t.subrange(x, y);
    assert(("print "@ + w).len() == 6 + w.len());
    assert(x < y);
    lemma_trim_unique(t, l.0 as int, l.1 as int, x, y, a, b);
    assert(t.subrange(a, a + 6) =~= ("print "@ + w).subrange(0, 6));
    assert(t.subrange(a + 6, b) =~= ("print "@ + w).subrange(6, 6 + w.len() as int));
    assert(t[a] == ("print "@ + w)[0]);
    assert(t[a + 1] == ("print "@ + w)[1]);
}

/// The line `[a, b)` of `t` reads `let ` and then a simple `let` body, once
/// trimmed: `[x, y)` is the trimmed line, `c` and `q` the body's colon and sign.
pub open spec fn let_line_at(t: Seq<char>, a: int, b: int, x: int, y: int, c: int, q: int) -> bool {
    &&& is_trim_of(t, a, b, x, y)
    &&& x + 4 <= y
    &&& t.subrange(x, x + 4) == "let "@
    &&& let_body_at(t, x + 4, y, c, q)
}

fn parse_stmt(src: &Source, lines: &Vec<(usize, usize)>, index: &mut usize, in_block: bool) -> (r:
    Result<Stmt, Diagnostic>)
    requires
        *old(index) < lines@.len(),
        lines_ok(lines@, src.text@.len() as int),
    ensures
        *old(index) < *final(index) <= lines@.len(),
        r matches Err(d) ==> d.kind@ == "parse"@,
        (exists|w: Seq<char>| print_word_line(src.text@, lines@[*old(index) as int], w)) ==> {
            &&& *final(index) == *old(index) + 1
            &&& r matches Ok(Stmt::Print { expr, line, .. })
            &&& line == *old(index) + 1
            &&& word_expr(printed_word(src.text@, lines@[*old(index) as int]), expr)
        },
        forall|x: int, y: int, c: int, q: int|
            #[trigger] let_line_at(
                src.text@,
                lines@[*old(index) as int].0 as int,
                lines@[*old(index) as int].1 as int,
                x,
                y,
                c,
                q,
            ) ==> {
                &&& *final(index) == *old(index) + 1
                &&& r is Ok <==> value_decodes(src.text@, q + 1, y)
                &&& r matches Ok(st) ==> let_parsed_at(src.text@, x + 4, y, c, q, st)
            },
    decreases lines@.len() - *old(index), 2int,
{
    let nlines = lines.len();
    let line_no = *index + 1;
    let (a, b) = trim(&src.text, lines[*index].0, lines[*index].1);
    let t = &src.text;
    proof {
        if exists|w: Seq<char>| print_word_line(src.text@, lines@[*index as int], w) {
            lemma_print_word_line(t@, lines@[*index as int], a as int, b as int);
            reveal_strlit("if ");
            reveal_strlit("while ");
            reveal_strlit("match ");
            reveal_strlit("let ");
            reveal_strlit("print ");
            lemma_differs_at(t@, a as int, b as int, "if "@, 0);
            lemma_differs_at(t@, a as int, b as int, "while "@, 0);
            lemma_differs_at(t@, a as int, b as int, "match "@, 0);
            lemma_differs_at(t@, a as int, b as int, "let "@, 0);
        }
    }
    proof {
        reveal_strlit("let ");
        reveal_strlit("if ");
        reveal_strlit("while ");
        reveal_strlit("match ");
        assert forall|x: int, y: int, c: int, q: int| #[trigger] let_line_at(
            t@,
            lines@[*old(index) as int].0 as int,
            lines@[*old(index) as int].1 as int,
            x,
            y,
            c,
            q,
        ) implies x == a && y == b && t@[a as int] == 'l' && !("if "@.len() <= b - a && t@.subrange(a as int, a + 3) == "if "@)
            && !("while "@.len() <= b - a && t@.subrange(a as int, a + 6) == "while "@) && !("match "@.len() <= b - a
            && t@.subrange(a as int, a + 6) == "match "@) by {
            lemma_let_shape(t@, x + 4, y, c, q);
            assert(t@.subrange(x + 4, c).len() >= 0);
            let w = word_of(t@, x + 4, c);
            assert(t@.subrange(x, x + 4)[0] == t@[x]);
            assert(!is_ws(t@[x]));
            lemma_trim_unique(t@, lines@[*old(index) as int].0 as int, lines@[*old(index) as int].1 as int, x, y, a as int, b as int);
            lemma_differs_at(t@, a as int, b as int, "if "@, 0);
            lemma_differs_at(t@, a as int, b as int, "while "@, 0);
            lemma_differs_at(t@, a as int, b as int, "match "@, 0);
        }
    }
    if starts(t, a, b, "if ") {
        return parse_if_stmt(src, lines, index);
    }
    if starts(t, a, b, "while ") {
        return parse_while_stmt(src, lines, index);
    }
    if starts(t, a, b, "match ") {
        return parse_match_stmt(src, lines, index);
    }
    if let Some(rest) = strip_prefix(t, a, b, "let ") {
        let stmt = parse_let_stmt(src, rest, b, line_no);
        *index = *index + 1;
        return stmt;
    }
    if let Some(rest) = strip_prefix(t, a, b, "print ") {
        let expr = parse_expr(src, rest, b, line_no, 7);
        *index = *index + 1;
        return match expr {
            Ok(expr) => Ok(Stmt::Print { expr, line: line_no, column: 1 }),
            Err(d) => Err(d),
        };
    }
    if let Some(rest) = strip_prefix(t, a, b, "return ") {
        let expr = parse_expr(src, rest, b, line_no, 8);
        *index = *index + 1;
        return match expr {
            Ok(expr) => Ok(Stmt::Return { expr, line: line_no, column: 1 }),
            Err(d) => Err(d),
        };
    }
    let message = if in_block {
        "stage1 bootstrap currently supports let, print, if/else, while, match, and return statements inside blocks"
    } else {
        "stage1 bootstrap currently supports top-level import, struct, enum, fn, let, print, if/else, while, and match statements"
    };
    *index = *index + 1;
    Err(perr(src, message, line_no, 1))
}

/// The header of a declaration line: whether it is public and where the text
/// after `pub <keyword> ` or `<keyword> ` starts.
fn decl_header(src: &Source, a: usize, b: usize, keyword_pub: &str, keyword: &str) -> (r: Option<
    (bool, usize),
>)
    requires
        a <= b <= src.text@.len(),
    ensures
        r is None <==> !has_prefix(src.text@, a as int, b as int, keyword_pub@) && !has_prefix(
            src.text@,
            a as int,
            b as int,
            keyword@,
        ),
        r matches Some((p, k)) ==> a <= k <= b && p == has_prefix(
            src.text@,
            a as int,
            b as int,
            keyword_pub@,
        ) && (p ==> k == a + keyword_pub@.len()) && (!p ==> k == a + keyword@.len()),
{
    let t = &src.text;
    if let Some(rest) = strip_prefix(t, a, b, keyword_pub) {
        Some((true, rest))
    } else if let Some(rest) = strip_prefix(t, a, b, keyword) {
        Some((false, rest))
    } else {
        None
    }
}

fn parse_function(src: &Source, lines: &Vec<(usize, usize)>, index: &mut usize) -> (r: Result<
    Function,
    Diagnostic,
>)
    requires
        *old(index) < lines@.len(),
        lines_ok(lines@, src.text@.len() as int),
    ensures
        *old(index) < *final(index) <= lines@.len(),
        r matches Err(d) ==> d.kind@ == "parse"@,
        r matches Ok(d) ==> is_ident(d.name@),
{
    let nlines = lines.len();
    let line_no = *index + 1;
    let (a, b) = trim(&src.text, lines[*index].0, lines[*index].1);
    let t = &src.text;
    let (is_public, h) = match decl_header(src, a, b, "pub fn ", "fn ") {
        Some(x) => x,
        None => {
            *index = *index + 1;
            return Err(perr(src, "invalid function declaration", line_no, 1));
        },
    };
    let open_paren = match find_top_level_char(t, h, b, '(') {
        Some(k) => k,
        None => {
            *index = *index + 1;
            return Err(perr(src, "function declaration is missing '('", line_no, 1));
        },
    };
    let close_paren = match find_matching_paren(t, open_paren, b) {
        Some(k) => k,
        None => {
            *index = *index + 1;
            return Err(perr(src, "function declaration is missing ')'", line_no, 1));
        },
    };
    let (na, nb) = trim(t, h, open_paren);
    let name_col: usize = if is_public {
        8
    } else {
        4
    };
    if let Err(d) = validate_ident(src, na, nb, line_no, name_col) {
        *index = *index + 1;
        return Err(d);
    }
    let params = match parse_params(src, open_paren + 1, close_paren, line_no) {
        Ok(p) => p,
        Err(d) => {
            *index = *index + 1;
            return Err(d);
        },
    };
    let (aa, ab) = trim(t, close_paren + 1, b);
    if !(aa < ab && t[aa] == ':') {
        *index = *index + 1;
        let col = byte_offset(t, h, close_paren).saturating_add(2);
        return Err(perr(src, "function declaration must include a return type", line_no, col));
    }
    if !(aa + 1 < ab && t[ab - 1] == '{') {
        *index = *index + 1;
        return Err(
            perr(src, "function declaration must use `fn name(args): type {` syntax", line_no, 1),
        );
    }
    let (ra, rb) = trim(t, aa + 1, ab - 1);
    let return_ty = match parse_type_name(src, ra, rb, line_no, 1) {
        Ok(ty) => ty,
        Err(d) => {
            *index = *index + 1;
            return Err(d);
        },
    };
    *index = *index + 1;
    let body = match parse_stmt_list(src, lines, index) {
        Ok(body) => body,
        Err(d) => return Err(d),
    };
    Ok(Function {
        name: string_from(t, na, nb),
        params,
        return_ty,
        body,
        is_public,
        line: line_no,
        column: 1,
    })
}

/// The name of a `struct Name {` or `enum Name {` header, trimmed.
fn decl_name(src: &Source, h: usize, b: usize) -> (r: Option<(usize, usize)>)
    requires
        h <= b <= src.text@.len(),
    ensures
        r is Some <==> h < b && src.text@[b - 1] == '{',
        r matches Some((x, y)) ==> h <= x <= y <= b && is_trim_of(
            src.text@,
            h as int,
            b - 1,
            x as int,
            y as int,
        ),
{
    let t = &src.text;
    if h < b && t[b - 1] == '{' {
        Some(trim(t, h, b - 1))
    } else {
        None
    }
}

fn parse_struct(src: &Source, lines: &Vec<(usize, usize)>, index: &mut usize) -> (r: Result<
    StructDecl,
    Diagnostic,
>)
    requires
        *old(index) < lines@.len(),
        lines_ok(lines@, src.text@.len() as int),
    ensures
        *old(index) < *final(index) <= lines@.len(),
        r matches Err(d) ==> d.kind@ == "parse"@,
        r matches Ok(d) ==> is_ident(d.name@),
{
    let nlines = lines.len();
    let line_no = *index + 1;
    let (a, b) = trim(&src.text, lines[*index].0, lines[*index].1);
    let t = &src.text;
    *index = *index + 1;
    let (is_public, h) = match decl_header(src, a, b, "pub struct ", "struct ") {
        Some(x) => x,
        None => return Err(perr(src, "invalid struct declaration", line_no, 1)),
    };
    let (na, nb) = match decl_name(src, h, b) {
        Some(x) => x,
        None => return Err(
            perr(src, "struct declaration must use `struct Name {` syntax", line_no, 1),
        ),
    };
    let name_col: usize = if is_public {
        12
    } else {
        8
    };
    if let Err(d) = validate_ident(src, na, nb, line_no, name_col) {
        return Err(d);
    }
    let fields = match parse_struct_fields(src, lines, index) {
        Ok(f) => f,
        Err(d) => return Err(d),
    };
    Ok(StructDecl { name: string_from(t, na, nb), fields, is_public, line: line_no, column: 1 })
}

fn parse_struct_fields(src: &Source, lines: &Vec<(usize, usize)>, index: &mut usize) -> (r: Result<
    Vec<StructField>,
    Diagnostic,
>)
    requires
        *old(index) <= lines@.len(),
        lines_ok(lines@, src.text@.len() as int),
    ensures
        *old(index) <= *final(index) <= lines@.len(),
        r matches Err(d) ==> d.kind@ == "parse"@,
        r matches Ok(v) ==> forall|k: int| 0 <= k < v@.len() ==> is_ident((#[trigger] v@[k]).name@),
        r is Ok ==> *old(index) < *final(index) && line_reads(
            src.text@,
            lines@[*final(index) - 1],
            "}"@,
        ),
{
    let mut fields: Vec<StructField> = Vec::new();
    while *index < lines.len()
        invariant
            *old(index) <= *index <= lines@.len(),
            lines_ok(lines@, src.text@.len() as int),
            forall|j: int| 0 <= j < fields@.len() ==> is_ident((#[trigger] fields@[j]).name@),
        decreases lines@.len() - *index,
    {
        let nlines = lines.len();
    let line_no = *index + 1;
        let (a, b) = trim(&src.text, lines[*index].0, lines[*index].1);
        let t = &src.text;
        if a == b {
            *index = *index + 1;
            continue;
        }
        if is_lit(t, a, b, "}") {
            assert(is_trim_of(t@, lines@[*index as int].0 as int, lines@[*index as int].1 as int, a as int, b as int));
            *index = *index + 1;
            return Ok(fields);
        }
        let colon = match find_top_level_char(t, a, b, ':') {
            Some(k) => k,
            None => return Err(perr(src, "struct field is missing ':'", line_no, 1)),
        };
        let (na, nb) = trim(t, a, colon);
        if let Err(d) = validate_ident(src, na, nb, line_no, 1) {
            return Err(d);
        }
        let (ta, tb) = trim(t, colon + 1, b);
        let col = byte_offset(t, a, colon).saturating_add(2);
        let ty = match parse_type_name(src, ta, tb, line_no, col) {
            Ok(ty) => ty,
            Err(d) => return Err(d),
        };
        fields.push(StructField { name: string_from(t, na, nb), ty, line: line_no, column: 1 });
        *index = *index + 1;
    }
    Err(missing_close(src, lines, "missing closing brace for struct"))
}

fn parse_enum(src: &Source, lines: &Vec<(usize, usize)>, index: &mut usize) -> (r: Result<
    EnumDecl,
    Diagnostic,
>)
    requires
        *old(index) < lines@.len(),
        lines_ok(lines@, src.text@.len() as int),
    ensures
        *old(index) < *final(index) <= lines@.len(),
        r matches Err(d) ==> d.kind@ == "parse"@,
        r matches Ok(d) ==> is_ident(d.name@),
{
    let nlines = lines.len();
    let line_no = *index + 1;
    let (a, b) = trim(&src.text, lines[*index].0, lines[*index].1);
    let t = &src.text;
    *index = *index + 1;
    let (is_public, h) = match decl_header(src, a, b, "pub enum ", "enum ") {
        Some(x) => x,
        None => return Err(perr(src, "invalid enum declaration", line_no, 1)),
    };
    let (na, nb) = match decl_name(src, h, b) {
        Some(x) => x,
        None => return Err(perr(src, "enum declaration must use `enum Name {` syntax", line_no, 1)),
    };
    let name_col: usize = if is_public {
        10
    } else {
        6
    };
    if let Err(d) = validate_ident(src, na, nb, line_no, name_col) {
        return Err(d);
    }
    let variants = match parse_enum_variants(src, lines, index) {
        Ok(v) => v,
        Err(d) => return Err(d),
    };
    Ok(EnumDecl { name: string_from(t, na, nb), variants, is_public, line: line_no, column: 1 })
}

/// Where the `{` that opens a `Name { ... }` shape is, when `[a, b)` has that shape.
fn braced_shape(t: &Vec<char>, a: usize, b: usize) -> (r: Option<usize>)
    requires
        a <= b <= t@.len(),
    ensures
        r matches Some(k) ==> shaped_at(t@, a as int, b as int, k as int, '{', '}', brace_gate(t@, k as int)),
        r is None ==> forall|k: int| !#[trigger] shaped_at(t@, a as int, b as int, k, '{', '}', brace_gate(t@, k)),
{
    if a < b && t[b - 1] == '}' {
        if let Some(open) = find_top_level_char(t, a, b, '{') {
            if let Some(close) = find_matching_brace(t, open, b) {
                if close == b - 1 && open < close {
                    return Some(open);
                }
            }
        }
    }
    None
}

/// Where the `(` that opens a `Name(...)` shape is, when `[a, b)` has that shape.
fn parened_shape(t: &Vec<char>, a: usize, b: usize) -> (r: Option<usize>)
    requires
        a <= b <= t@.len(),
    ensures
        r matches Some(k) ==> shaped_at(t@, a as int, b as int, k as int, '(', ')', no_gate()),
        r is None ==> forall|k: int| !#[trigger] shaped_at(t@, a as int, b as int, k, '(', ')', no_gate()),
{
    if a < b && t[b - 1] == ')' {
        if let Some(open) = find_top_level_char(t, a, b, '(') {
            if let Some(close) = find_matching_paren(t, open, b) {
                if close == b - 1 && open < close {
                    return Some(open);
                }
            }
        }
    }
    None
}

fn parse_enum_variants(src: &Source, lines: &Vec<(usize, usize)>, index: &mut usize) -> (r: Result<
    Vec<EnumVariantDecl>,
    Diagnostic,
>)
    requires
        *old(index) <= lines@.len(),
        lines_ok(lines@, src.text@.len() as int),
    ensures
        *old(index) <= *final(index) <= lines@.len(),
        r matches Err(d) ==> d.kind@ == "parse"@,
        r is Ok ==> *old(index) < *final(index) && line_reads(
            src.text@,
            lines@[*final(index) - 1],
            "}"@,
        ),
{
    let mut variants: Vec<EnumVariantDecl> = Vec::new();
    while *index < lines.len()
        invariant
            *old(index) <= *index <= lines@.len(),
            lines_ok(lines@, src.text@.len() as int),
        decreases lines@.len() - *index,
    {
        let nlines = lines.len();
    let line_no = *index + 1;
        let (a, b) = trim(&src.text, lines[*index].0, lines[*index].1);
        let t = &src.text;
        if a == b {
            *index = *index + 1;
            continue;
        }
        if is_lit(t, a, b, "}") {
            assert(is_trim_of(t@, lines@[*index as int].0 as int, lines@[*index as int].1 as int, a as int, b as int));
            *index = *index + 1;
            return Ok(variants);
        }
        let mut name = String::new();
        let mut payload_tys: Vec<TypeName> = Vec::new();
        let mut payload_names: Vec<String> = Vec::new();
        if let Some(open_brace) = braced_shape(t, a, b) {
            let (na, nb) = trim(t, a, open_brace);
            if let Err(d) = validate_ident(src, na, nb, line_no, 1) {
                return Err(d);
            }
            let (pa, pb) = trim(t, open_brace + 1, b - 1);
            let col = byte_offset(t, a, open_brace).saturating_add(2);
            match parse_named_enum_payload_fields(src, pa, pb, line_no, col) {
                Ok((names, tys)) => {
                    payload_names = names;
                    payload_tys = tys;
                },
                Err(d) => return Err(d),
            }
            name = string_from(t, na, nb);
        } else if let Some(open_paren) = parened_shape(t, a, b) {
            let (na, nb) = trim(t, a, open_paren);
            if let Err(d) = validate_ident(src, na, nb, line_no, 1) {
                return Err(d);
            }
            let (pa, pb) = trim(t, open_paren + 1, b - 1);
            let col = byte_offset(t, a, open_paren).saturating_add(2);
            if pa == pb {
                return Err(perr(src, "enum variant payload type is empty", line_no, col));
            }
            let parts = split_top_level_type(t, pa, pb, ',');
            proof {
                lemma_split_parts_shorter(parts@, t@, pa as int, pb as int, ',', true);
            }
            let mut k: usize = 0;
            while k < parts.len()
                invariant
                    k <= parts@.len(),
                    *old(index) <= *index <= lines@.len(),
                    pb <= t@.len(),
                    t@ == src.text@,
                    forall|j: int|
                        0 <= j < parts@.len() ==> pa <= (#[trigger] parts@[j]).0 <= parts@[j].1
                            <= pb,
                decreases parts@.len() - k,
            {
                let (ea, eb) = trim(t, parts[k].0, parts[k].1);
                if ea == eb {
                    return Err(perr(src, "enum variant payload type is empty", line_no, col));
                }
                match parse_type_name(src, ea, eb, line_no, col) {
                    Ok(ty) => payload_tys.push(ty),
                    Err(d) => return Err(d),
                }
                k = k + 1;
            }
            name = string_from(t, na, nb);
        } else {
            if let Err(d) = validate_ident(src, a, b, line_no, 1) {
                return Err(d);
            }
            name = string_from(t, a, b);
        }
        variants.push(EnumVariantDecl { name, payload_tys, payload_names, line: line_no, column: 1 });
        *index = *index + 1;
    }
    Err(missing_close(src, lines, "missing closing brace for enum"))
}

fn parse_params(src: &Source, s: usize, e: usize, line_no: usize) -> (r: Result<
    Vec<Param>,
    Diagnostic,
>)
    requires
        s <= e <= src.text@.len(),
    ensures
        r matches Err(d) ==> d.kind@ == "parse"@,
        blank_range(src.text@, s as int, e as int) ==> (r matches Ok(v) && v@.len() == 0),
        r matches Ok(v) ==> v@.len() == 0 || exists|parts: Seq<(usize, usize)>|
            #[trigger] is_split(parts, src.text@, s as int, e as int, ',', true) && parts.len()
                == v@.len(),
        r matches Ok(v) ==> forall|k: int|
            0 <= k < v@.len() ==> is_ident((#[trigger] v@[k]).name@) && v@[k].line == line_no,
{
    let t = &src.text;
    let (ta, tb) = trim(t, s, e);
    let mut params: Vec<Param> = Vec::new();
    if ta == tb {
        assert(blank_range(t@, s as int, e as int));
        return Ok(params);
    }
    assert(!is_ws(t@[ta as int]));
    let parts = split_top_level_type(t, s, e, ',');
    proof {
        lemma_split_parts_shorter(parts@, t@, s as int, e as int, ',', true);
    }
    let mut k: usize = 0;
    while k < parts.len()
        invariant
            k <= parts@.len(),
            e <= t@.len(),
            t@ == src.text@,
            forall|j: int| 0 <= j < parts@.len() ==> s <= (#[trigger] parts@[j]).0 <= parts@[j].1 <= e,
            is_split(parts@, t@, s as int, e as int, ',', true),
            params@.len() == k,
            !blank_range(t@, s as int, e as int),
            forall|j: int| 0 <= j < k ==> is_ident((#[trigger] params@[j]).name@) && params@[j].line == line_no,
        decreases parts@.len() - k,
    {
        let (pa, pb) = trim(t, parts[k].0, parts[k].1);
        let colon = match find_top_level_char(t, pa, pb, ':') {
            Some(c) => c,
            None => return Err(perr(src, "function parameter is missing ':'", line_no, 1)),
        };
        let (na, nb) = trim(t, pa, colon);
        if let Err(d) = validate_ident(src, na, nb, line_no, 1) {
            return Err(d);
        }
        let (ya, yb) = trim(t, colon + 1, pb);
        let ty = match parse_type_name(src, ya, yb, line_no, 1) {
            Ok(ty) => ty,
            Err(d) => return Err(d),
        };
        params.push(Param { name: string_from(t, na, nb), ty, line: line_no, column: 1 });
        k = k + 1;
    }
    assert(is_split(parts@, t@, s as int, e as int, ',', true));
    Ok(params)
}

/// The condition range of a `<keyword> <expr> {` header.
fn block_header(src: &Source, a: usize, b: usize, keyword: &str) -> (r: Option<(usize, usize)>)
    requires
        a <= b <= src.text@.len(),
    ensures
        r is Some <==> has_prefix(src.text@, a as int, b as int, keyword@) && a + keyword@.len() < b
            && src.text@[b - 1] == '{',
        r matches Some((x, y)) ==> a <= x <= y <= b && is_trim_of(
            src.text@,
            a + keyword@.len(),
            b - 1,
            x as int,
            y as int,
        ),
{
    let t = &src.text;
    match strip_prefix(t, a, b, keyword) {
        Some(rest) => {
            if rest < b && t[b - 1] == '{' {
                Some(trim(t, rest, b - 1))
            } else {
                None
            }
        },
        None => None,
    }
}

fn skip_blank_lines(src: &Source, lines: &Vec<(usize, usize)>, index: &mut usize)
    requires
        *old(index) <= lines@.len(),
        lines_ok(lines@, src.text@.len() as int),
    ensures
        *old(index) <= *final(index) <= lines@.len(),
        forall|j: int| *old(index) <= j < *final(index) ==> blank_line(src.text@, #[trigger] lines@[j]),
        *final(index) < lines@.len() ==> !blank_line(src.text@, lines@[*final(index) as int]),
{
    while *index < lines.len()
        invariant
            *old(index) <= *index <= lines@.len(),
            lines_ok(lines@, src.text@.len() as int),
            forall|j: int| *old(index) <= j < *index ==> blank_line(src.text@, #[trigger] lines@[j]),
        decreases lines@.len() - *index,
    {
        let (a, b) = trim(&src.text, lines[*index].0, lines[*index].1);
        if a != b {
            assert(!is_ws(src.text@[a as int]));
            return;
        }
        *index = *index + 1;
    }
}

fn parse_if_stmt(src: &Source, lines: &Vec<(usize, usize)>, index: &mut usize) -> (r: Result<
    Stmt,
    Diagnostic,
>)
    requires
        *old(index) < lines@.len(),
        lines_ok(lines@, src.text@.len() as int),
    ensures
        *old(index) < *final(index) <= lines@.len(),
        r matches Err(d) ==> d.kind@ == "parse"@,
    decreases lines@.len() - *old(index), 1int,
{
    let nlines = lines.len();
    let line_no = *index + 1;
    let (a, b) = trim(&src.text, lines[*index].0, lines[*index].1);
    let (ca, cb) = match block_header(src, a, b, "if ") {
        Some(x) => x,
        None => {
            *index = *index + 1;
            return Err(perr(src, "if statement must use `if <expr> {` syntax", line_no, 1));
        },
    };
    let cond = match parse_expr(src, ca, cb, line_no, 4) {
        Ok(c) => c,
        Err(d) => {
            *index = *index + 1;
            return Err(d);
        },
    };
    *index = *index + 1;
    let then_block = match parse_stmt_list(src, lines, index) {
        Ok(b) => b,
        Err(d) => return Err(d),
    };
    skip_blank_lines(src, lines, index);
    let mut else_block: Option<Vec<Stmt>> = None;
    if *index < lines.len() {
        let (ea, eb) = trim(&src.text, lines[*index].0, lines[*index].1);
        if is_lit(&src.text, ea, eb, "} else {") || is_lit(&src.text, ea, eb, "else {") {
            *index = *index + 1;
            match parse_stmt_list(src, lines, index) {
                Ok(b) => {
                    else_block = Some(b);
                },
                Err(d) => return Err(d),
            }
        }
    }
    Ok(Stmt::If { cond, then_block, else_block, line: line_no, column: 1 })
}

fn parse_while_stmt(src: &Source, lines: &Vec<(usize, usize)>, index: &mut usize) -> (r: Result<
    Stmt,
    Diagnostic,
>)
    requires
        *old(index) < lines@.len(),
        lines_ok(lines@, src.text@.len() as int),
    ensures
        *old(index) < *final(index) <= lines@.len(),
        r matches Err(d) ==> d.kind@ == "parse"@,
    decreases lines@.len() - *old(index), 1int,
{
    let nlines = lines.len();
    let line_no = *index + 1;
    let (a, b) = trim(&src.text, lines[*index].0, lines[*index].1);
    let (ca, cb) = match block_header(src, a, b, "while ") {
        Some(x) => x,
        None => {
            *index = *index + 1;
            return Err(
                perr(src, "while statement must use `while <expr> {` syntax", line_no, 1),
            );
        },
    };
    let cond = match parse_expr(src, ca, cb, line_no, 7) {
        Ok(c) => c,
        Err(d) => {
            *index = *index + 1;
            return Err(d);
        },
    };
    *index = *index + 1;
    let body = match parse_stmt_list(src, lines, index) {
        Ok(b) => b,
        Err(d) => return Err(d),
    };
    Ok(Stmt::While { cond, body, line: line_no, column: 1 })
}

fn parse_match_stmt(src: &Source, lines: &Vec<(usize, usize)>, index: &mut usize) -> (r: Result<
    Stmt,
    Diagnostic,
>)
    requires
        *old(index) < lines@.len(),
        lines_ok(lines@, src.text@.len() as int),
    ensures
        *old(index) < *final(index) <= lines@.len(),
        r matches Err(d) ==> d.kind@ == "parse"@,
    decreases lines@.len() - *old(index), 1int,
{
    let nlines = lines.len();
    let line_no = *index + 1;
    let (a, b) = trim(&src.text, lines[*index].0, lines[*index].1);
    let (ca, cb) = match block_header(src, a, b, "match ") {
        Some(x) => x,
        None => {
            *index = *index + 1;
            return Err(
                perr(src, "match statement must use `match <expr> {` syntax", line_no, 1),
            );
        },
    };
    let expr = match parse_expr(src, ca, cb, line_no, 7) {
        Ok(c) => c,
        Err(d) => {
            *index = *index + 1;
            return Err(d);
        },
    };
    *index = *index + 1;
    let arms = match parse_match_arms(src, lines, index) {
        Ok(arms) => arms,
        Err(d) => return Err(d),
    };
    Ok(Stmt::Match { expr, arms, line: line_no, column: 1 })
}

/// Parses the comma-separated binding names of a match arm.
fn parse_bindings(src: &Source, s: usize, e: usize, line_no: usize, col: usize) -> (r: Result<
    Vec<String>,
    Diagnostic,
>)
    requires
        s <= e <= src.text@.len(),
    ensures
        r matches Err(d) ==> d.kind@ == "parse"@,
        s == e ==> r is Err,
        r matches Ok(v) ==> names_shape(src.text@, s as int, e as int, v@),
{
    let t = &src.text;
    if s == e {
        return Err(perr(src, "match arm binding is empty", line_no, col));
    }
    let parts = split_top_level(t, s, e, ',');
    proof {
        lemma_split_parts_shorter(parts@, t@, s as int, e as int, ',', false);
    }
    let mut bindings: Vec<String> = Vec::new();
    let mut k: usize = 0;
    while k < parts.len()
        invariant
            k <= parts@.len(),
            e <= t@.len(),
            t@ == src.text@,
            forall|j: int| 0 <= j < parts@.len() ==> s <= (#[trigger] parts@[j]).0 <= parts@[j].1 <= e,
            is_split(parts@, t@, s as int, e as int, ',', false),
            bindings@.len() == k,
            forall|j: int|
                0 <= j < k ==> is_ident((#[trigger] bindings@[j])@) && trimmed_text(
                    t@,
                    parts@[j].0 as int,
                    parts@[j].1 as int,
                    bindings@[j]@,
                ),
        decreases parts@.len() - k,
    {
        let (ba, bb) = trim(t, parts[k].0, parts[k].1);
        if ba == bb {
            return Err(perr(src, "match arm binding is empty", line_no, col));
        }
        if let Err(d) = validate_ident(src, ba, bb, line_no, col) {
            return Err(d);
        }
        let name = string_from(t, ba, bb);
        assert(is_trim_of(t@, parts@[k as int].0 as int, parts@[k as int].1 as int, ba as int, bb as int));
        bindings.push(name);
        k = k + 1;
    }
    assert(is_split(parts@, t@, s as int, e as int, ',', false));
    Ok(bindings)
}

fn parse_match_arms(src: &Source, lines: &Vec<(usize, usize)>, index: &mut usize) -> (r: Result<
    Vec<MatchArm>,
    Diagnostic,
>)
    requires
        *old(index) <= lines@.len(),
        lines_ok(lines@, src.text@.len() as int),
    ensures
        *old(index) <= *final(index) <= lines@.len(),
        r matches Err(d) ==> d.kind@ == "parse"@,
        r is Ok ==> *old(index) < *final(index) && line_reads(
            src.text@,
            lines@[*final(index) - 1],
            "}"@,
        ),
    decreases lines@.len() - *old(index), 0int,
{
    let mut arms: Vec<MatchArm> = Vec::new();
    while *index < lines.len()
        invariant
            *old(index) <= *index <= lines@.len(),
            lines_ok(lines@, src.text@.len() as int),
        decreases lines@.len() - *index,
    {
        let nlines = lines.len();
    let line_no = *index + 1;
        let (a, b) = trim(&src.text, lines[*index].0, lines[*index].1);
        let t = &src.text;
        if a == b {
            *index = *index + 1;
            continue;
        }
        if is_lit(t, a, b, "}") {
            assert(is_trim_of(t@, lines@[*index as int].0 as int, lines@[*index as int].1 as int, a as int, b as int));
            *index = *index + 1;
            return Ok(arms);
        }
        if !(t[b - 1] == '{') {
            return Err(perr(src, "match arm must use `Variant {` syntax", line_no, 1));
        }
        let (va, vb) = trim(t, a, b - 1);
        let mut variant = String::new();
        let mut bindings: Vec<String> = Vec::new();
        let mut is_named = false;
        if let Some(open_brace) = braced_shape(t, va, vb) {
            let (na, nb) = trim(t, va, open_brace);
            if let Err(d) = validate_ident(src, na, nb, line_no, 1) {
                return Err(d);
            }
            let (ba, bb) = trim(t, open_brace + 1, vb - 1);
            let col = byte_offset(t, va, open_brace).saturating_add(2);
            match parse_bindings(src, ba, bb, line_no, col) {
                Ok(bs) => {
                    bindings = bs;
                },
                Err(d) => return Err(d),
            }
            variant = string_from(t, na, nb);
            is_named = true;
        } else if let Some(open_paren) = parened_shape(t, va, vb) {
            let (na, nb) = trim(t, va, open_paren);
            if let Err(d) = validate_ident(src, na, nb, line_no, 1) {
                return Err(d);
            }
            let (ba, bb) = trim(t, open_paren + 1, vb - 1);
            let col = byte_offset(t, va, open_paren).saturating_add(2);
            match parse_bindings(src, ba, bb, line_no, col) {
                Ok(bs) => {
                    bindings = bs;
                },
                Err(d) => return Err(d),
            }
            variant = string_from(t, na, nb);
        } else {
            if let Err(d) = validate_ident(src, va, vb, line_no, 1) {
                return Err(d);
            }
            variant = string_from(t, va, vb);
        }
        *index = *index + 1;
        let body = match parse_stmt_list(src, lines, index) {
            Ok(body) => body,
            Err(d) => return Err(d),
        };
        arms.push(MatchArm { variant, bindings, is_named, body, line: line_no, column: 1 });
    }
    Err(missing_close(src, lines, "missing closing brace for match"))
}

/// `[a, b)` of `t` holds one plain string literal, with whitespace around it at most.
pub open spec fn spaced_string(t: Seq<char>, a: int, b: int) -> bool {
    exists|w: Seq<char>| plain_string_literal(w) && #[trigger] trimmed_text(t, a, b, w)
}

/// The literal that such a range holds, quotes included.
pub open spec fn string_of(t: Seq<char>, a: int, b: int) -> Seq<char> {
    choose|w: Seq<char>| plain_string_literal(w) && #[trigger] trimmed_text(t, a, b, w)
}

/// The value of a simple `let` in `[a, b)` parses: a word, or a string literal
/// that decodes.
pub open spec fn value_decodes(t: Seq<char>, a: int, b: int) -> bool {
    spaced_word(t, a, b) || (spaced_string(t, a, b) && json_string_value(string_of(t, a, b)) is Some)
}

/// `x` is what the value in `[a, b)` parses to: the word's expression, or the
/// decoded string literal.
pub open spec fn value_expr(t: Seq<char>, a: int, b: int, x: Expr) -> bool {
    if spaced_word(t, a, b) {
        word_expr(word_of(t, a, b), x)
    } else {
        x matches Expr::Literal(Literal::String(w)) && json_string_value(string_of(t, a, b)) == Some(w@)
    }
}

/// `[s, e)` of `t` reads `name: type = value`, with the colon at `c`, the sign
/// at `q`, words for the name and the type, and a word or a plain string
/// literal for the value.
pub open spec fn let_body_at(t: Seq<char>, s: int, e: int, c: int, q: int) -> bool {
    &&& 0 <= s <= c
    &&& c < q
    &&& q < e
    &&& e <= t.len()
    &&& t[c] == ':'
    &&& t[q] == '='
    &&& spaced_word(t, s, c)
    &&& spaced_word(t, c + 1, q)
    &&& (spaced_word(t, q + 1, e) || spaced_string(t, q + 1, e))
}

/// `st` is the `let` that such a body parses to.
pub open spec fn let_parsed_at(t: Seq<char>, s: int, e: int, c: int, q: int, st: Stmt) -> bool {
    st matches Stmt::Let { name, ty, expr, .. } && name@ == word_of(t, s, c) && word_type(
        word_of(t, c + 1, q),
        ty,
    ) && value_expr(t, q + 1, e, expr)
}

/// What a spaced string's range is made of, given one trim of it.
proof fn lemma_spaced_string(t: Seq<char>, a: int, b: int, x: int, y: int)
    requires
        0 <= a <= b <= t.len(),
        spaced_string(t, a, b),
        is_trim_of(t, a, b, x, y),
    ensures
        x < y,
        t.subrange(x, y) == string_of(t, a, b),
        plain_string_literal(t.subrange(x, y)),
        !spaced_word(t, a, b),
{
    let w = string_of(t, a, b);
    assert(plain_string_literal(w) && trimmed_text(t, a, b, w));
    let (x0, y0) = choose|x0: int, y0: int| #[trigger] is_trim_of(t, a, b, x0, y0) && w == t.subrange(x0, y0);
    assert(x0 < y0);
    lemma_trim_unique(t, a, b, x0, y0, x, y);
    if spaced_word(t, a, b) {
        lemma_spaced_word(t, a, b, x, y);
        assert(t.subrange(x, y)[0] == '"');
    }
}

/// Where the scan of a simple `let` body finds its colon and its sign, and
/// what the trims around them hold.
proof fn lemma_let_shape(t: Seq<char>, s: int, e: int, c: int, q: int)
    requires
        let_body_at(t, s, e, c, q),
    ensures
        top_hit(t, s, c, ':'),
        forall|j: int| s <= j < c ==> !#[trigger] top_hit(t, s, j, ':'),
        top_hit(t, c + 1, q, '='),
        forall|j: int| c + 1 <= j < q ==> !#[trigger] top_hit(t, c + 1, j, '='),
        forall|x: int, y: int|
            #[trigger] is_trim_of(t, s, c, x, y) ==> x < y && is_ident(t.subrange(x, y)) && t.subrange(x, y)
                == word_of(t, s, c),
        forall|x: int, y: int|
            #[trigger] is_trim_of(t, c + 1, q, x, y) ==> x < y && is_ident(t.subrange(x, y)) && t.subrange(x, y)
                == word_of(t, c + 1, q),
        forall|x: int, y: int|
            #[trigger] is_trim_of(t, q + 1, e, x, y) ==> x < y && (spaced_word(t, q + 1, e) ==> is_ident(
                t.subrange(x, y),
            ) && t.subrange(x, y) == word_of(t, q + 1, e)) && (!spaced_word(t, q + 1, e) ==> plain_string_literal(
                t.subrange(x, y),
            ) && t.subrange(x, y) == string_of(t, q + 1, e)),
{
    let w1 = word_of(t, s, c);
    assert(is_ident(w1) && trimmed_text(t, s, c, w1));
    let (x1, y1) = choose|x1: int, y1: int| #[trigger] is_trim_of(t, s, c, x1, y1) && w1 == t.subrange(x1, y1);
    lemma_spaced_word(t, s, c, x1, y1);
    let w2 = word_of(t, c + 1, q);
    assert(is_ident(w2) && trimmed_text(t, c + 1, q, w2));
    let (x2, y2) = choose|x2: int, y2: int| #[trigger] is_trim_of(t, c + 1, q, x2, y2) && w2 == t.subrange(x2, y2);
    lemma_spaced_word(t, c + 1, q, x2, y2);
    lemma_plain_scan(t, s, c, c);
    lemma_plain_scan(t, c + 1, q, q);
    assert(code_at(t, s, c));
    assert(code_at(t, c + 1, q));
    assert forall|x: int, y: int| #[trigger] is_trim_of(t, s, c, x, y) implies x < y && is_ident(t.subrange(x, y))
        && t.subrange(x, y) == word_of(t, s, c) by {
        lemma_spaced_word(t, s, c, x, y);
    }
    assert forall|x: int, y: int| #[trigger] is_trim_of(t, c + 1, q, x, y) implies x < y && is_ident(
        t.subrange(x, y),
    ) && t.subrange(x, y) == word_of(t, c + 1, q) by {
        lemma_spaced_word(t, c + 1, q, x, y);
    }
    assert forall|x: int, y: int| #[trigger] is_trim_of(t, q + 1, e, x, y) implies x < y && (spaced_word(
        t,
        q + 1,
        e,
    ) ==> is_ident(t.subrange(x, y)) && t.subrange(x, y) == word_of(t, q + 1, e)) && (!spaced_word(t, q + 1, e)
        ==> plain_string_literal(t.subrange(x, y)) && t.subrange(x, y) == string_of(t, q + 1, e)) by {
        if spaced_word(t, q + 1, e) {
            lemma_spaced_word(t, q + 1, e, x, y);
        } else {
            lemma_spaced_string(t, q + 1, e, x, y);
        }
    }
}

fn parse_let_stmt(src: &Source, s: usize, e: usize, line_no: usize) -> (r: Result<
    Stmt,
    Diagnostic,
>)
    requires
        s <= e <= src.text@.len(),
    ensures
        r matches Err(d) ==> d.kind@ == "parse"@,
        (forall|j: int| s <= j < e ==> !top_hit(src.text@, s as int, j, ':')) ==> r is Err,
        r is Ok ==> (r matches Ok(Stmt::Let { .. })),
        r matches Ok(Stmt::Let { name, line, column, .. }) ==> line == line_no && column == 1 && is_ident(
            name@,
        ) && exists|c: int|
            s <= c < e && #[trigger] top_hit(src.text@, s as int, c, ':') && (forall|j: int|
                s <= j < c ==> !top_hit(src.text@, s as int, j, ':')) && trimmed_text(
                src.text@,
                s as int,
                c,
                name@,
            ),
        forall|c: int, q: int|
            #[trigger] let_body_at(src.text@, s as int, e as int, c, q) ==> (r is Ok <==> value_decodes(
                src.text@,
                q + 1,
                e as int,
            )) && (r matches Ok(st) ==> let_parsed_at(src.text@, s as int, e as int, c, q, st)),
{
    let t = &src.text;
    proof {
        assert forall|c: int, q: int| #[trigger] let_body_at(t@, s as int, e as int, c, q) implies exists|j: int|
            s <= j < e && #[trigger] top_hit(t@, s as int, j, ':') by {
            lemma_let_shape(t@, s as int, e as int, c, q);
        }
    }
    let colon = match find_top_level_char(t, s, e, ':') {
        Some(k) => k,
        None => return Err(perr(src, "let binding is missing ':'", line_no, 1)),
    };
    proof {
        assert forall|c: int, q: int| #[trigger] let_body_at(t@, s as int, e as int, c, q) implies c == colon
            && exists|j: int| c + 1 <= j < e && #[trigger] top_hit(t@, c + 1, j, '=') by {
            lemma_let_shape(t@, s as int, e as int, c, q);
            if c < colon {
                assert(!top_hit(t@, s as int, c, ':'));
            }
            if colon < c {
                assert(!top_hit(t@, s as int, colon as int, ':'));
            }
        }
    }
    let (na, nb) = trim(t, s, colon);
    assert(is_trim_of(t@, s as int, colon as int, na as int, nb as int));
    if let Err(d) = validate_ident(src, na, nb, line_no, 5) {
        return Err(d);
    }
    let colon_off = byte_offset(t, s, colon);
    let eq = match find_top_level_char(t, colon + 1, e, '=') {
        Some(k) => k,
        None => return Err(
            perr(src, "let binding is missing '='", line_no, colon_off.saturating_add(2)),
        ),
    };
    let (ya, yb) = trim(t, colon + 1, eq);
    let (xa, xb) = trim(t, eq + 1, e);
    proof {
        assert forall|c: int, q: int| #[trigger] let_body_at(t@, s as int, e as int, c, q) implies q == eq by {
            lemma_let_shape(t@, s as int, e as int, c, q);
            if q < eq {
                assert(!top_hit(t@, colon + 1, q, '='));
            }
            if eq < q {
                assert(!top_hit(t@, colon + 1, eq as int, '='));
            }
        }
        assert forall|c: int, q: int| #[trigger] let_body_at(t@, s as int, e as int, c, q) implies {
            &&& na < nb && is_ident(t@.subrange(na as int, nb as int)) && t@.subrange(na as int, nb as int) == word_of(t@, s as int, c)
            &&& ya < yb && is_ident(t@.subrange(ya as int, yb as int)) && t@.subrange(ya as int, yb as int) == word_of(t@, c + 1, q)
            &&& xa < xb
            &&& spaced_word(t@, q + 1, e as int) ==> is_ident(t@.subrange(xa as int, xb as int)) && t@.subrange(xa as int, xb as int) == word_of(t@, q + 1, e as int)
            &&& !spaced_word(t@, q + 1, e as int) ==> plain_string_literal(t@.subrange(xa as int, xb as int)) && t@.subrange(xa as int, xb as int) == string_of(t@, q + 1, e as int)
        } by {
            lemma_let_shape(t@, s as int, e as int, c, q);
        }
    }
    let ty = match parse_type_name(src, ya, yb, line_no, colon_off.saturating_add(2)) {
        Ok(ty) => ty,
        Err(d) => return Err(d),
    };
    let eq_off = byte_offset(t, colon + 1, eq);
    let expr = match parse_expr(
        src,
        xa,
        xb,
        line_no,
        colon_off.saturating_add(eq_off).saturating_add(3),
    ) {
        Ok(x) => x,
        Err(d) => return Err(d),
    };
    Ok(Stmt::Let { name: string_from(t, na, nb), ty, expr, line: line_no, column: 1 })
}

/// The range inside the angle brackets of `<keyword><...>`, when `[s, e)` has that shape.
fn generic_inner(t: &Vec<char>, s: usize, e: usize, keyword: &str) -> (r: Option<(usize, usize)>)
    requires
        s <= e <= t@.len(),
    ensures
        r matches Some((x, y)) ==> s < x <= y < e && s + keyword@.len() <= e && t@.subrange(
            s as int,
            s + keyword@.len(),
        ) == keyword@ && t@[e - 1] == '>' && is_trim_of(t@, s + keyword@.len(), e - 1, x as int, y as int),
        r is Some <==> generic_shape(t@, s as int, e as int, keyword@),
{
    match strip_prefix(t, s, e, keyword) {
        Some(k) => {
            if k > s && k < e && t[k - 1] == '<' && t[e - 1] == '>' {
                match find_matching_angle(t, k - 1, e) {
                    Some(close) => {
                        if close == e - 1 && k <= close {
                            Some(trim(t, k, e - 1))
                        } else {
                            None
                        }
                    },
                    None => None,
                }
            } else {
                None
            }
        },
        None => None,
    }
}

/// Every character of `[a, b)` is whitespace.
pub open spec fn blank_range(t: Seq<char>, a: int, b: int) -> bool {
    forall|i: int| a <= i < b ==> is_ws(#[trigger] t[i])
}

/// `[s, e)` splits at its top-level commas into `n` parts, none of them blank.
pub open spec fn list_shape(t: Seq<char>, s: int, e: int, angles: bool, n: nat) -> bool {
    exists|parts: Seq<(usize, usize)>|
        #[trigger] is_split(parts, t, s, e, ',', angles) && parts.len() == n && forall|k: int|
            0 <= k < parts.len() ==> !blank_range(t, (#[trigger] parts[k]).0 as int, parts[k].1 as int)
}

/// `w` is the text of `[a, b)` without its leading and trailing whitespace.
pub open spec fn trimmed_text(t: Seq<char>, a: int, b: int, w: Seq<char>) -> bool {
    exists|x: int, y: int| #[trigger] is_trim_of(t, a, b, x, y) && w == t.subrange(x, y)
}

/// `[s, e)` splits at its top-level commas into the names `names`, each an
/// identifier once trimmed.
pub open spec fn names_shape(t: Seq<char>, s: int, e: int, names: Seq<String>) -> bool {
    exists|parts: Seq<(usize, usize)>|
        #[trigger] is_split(parts, t, s, e, ',', false) && parts.len() == names.len() && forall|k: int|
            0 <= k < parts.len() ==> is_ident((#[trigger] names[k])@) && trimmed_text(
                t,
                parts[k].0 as int,
                parts[k].1 as int,
                names[k]@,
            )
}

/// A character of a word: a letter, a digit, `_`, or a sign.
pub open spec fn word_char(c: char) -> bool {
    is_alpha(c) || is_digit(c) || c == '_' || c == '-' || c == '+'
}

/// The expression that a single identifier is: a boolean literal, or a
/// reference to the variable of that name.
pub open spec fn word_expr(v: Seq<char>, x: Expr) -> bool {
    if v == "true"@ {
        x == Expr::Literal(Literal::Bool(true))
    } else if v == "false"@ {
        x == Expr::Literal(Literal::Bool(false))
    } else {
        x matches Expr::VarRef { name, .. } && name@ == v
    }
}

/// Each character of `[s, e)` is an identifier character.
proof fn lemma_ident_chars(t: Seq<char>, s: int, e: int)
    requires
        0 <= s <= e <= t.len(),
        is_ident(t.subrange(s, e)),
    ensures
        s < e,
        forall|j: int| s <= j < e ==> is_alpha(#[trigger] t[j]) || is_digit(t[j]) || t[j] == '_',
        !is_ws(t[s]),
        !is_ws(t[e - 1]),
{
    let v = t.subrange(s, e);
    assert forall|j: int| s <= j < e implies is_alpha(#[trigger] t[j]) || is_digit(t[j]) || t[j] == '_' by {
        assert(t[j] == v[j - s]);
    }
}

/// The line `l` reads `lit` once trimmed.
pub open spec fn line_reads(t: Seq<char>, l: (usize, usize), lit: Seq<char>) -> bool {
    trimmed_text(t, l.0 as int, l.1 as int, lit)
}

/// The type that a single word names: a built-in type, or a declared one.
pub open spec fn word_type(v: Seq<char>, ty: TypeName) -> bool {
    if v == "int"@ {
        ty is Int
    } else if v == "bool"@ {
        ty is Bool
    } else if v == "string"@ {
        ty is String
    } else {
        ty matches TypeName::Named(n) && n@ == v
    }
}

/// `[a, b)` of `t` is an identifier with one character before and after it in `t`.
pub open spec fn ident_between(t: Seq<char>, a: int, b: int) -> bool {
    0 < a <= b < t.len() && is_ident(t.subrange(a, b))
}

/// Trimming an identifier's range gives it back.
proof fn lemma_trim_ident(t: Seq<char>, a: int, b: int, x: int, y: int)
    requires
        0 <= a <= b <= t.len(),
        is_ident(t.subrange(a, b)),
        is_trim_of(t, a, b, x, y),
    ensures
        x == a && y == b,
{
    lemma_ident_chars(t, a, b);
    if x > a {
        assert(is_ws(t[a]));
    }
    if y < b {
        assert(is_ws(t[b - 1]));
    }
}

/// A split of `[s, e)` where the delimiter occurs once, at `c`, has the two
/// parts on either side of it.
proof fn lemma_split_two(parts: Seq<(usize, usize)>, t: Seq<char>, s: int, e: int, d: char, angles: bool, c: int)
    requires
        is_split(parts, t, s, e, d, angles),
        s <= c < e,
        split_pred(t, s, c, d, angles),
        forall|j: int| s <= j < e && j != c ==> !#[trigger] split_pred(t, s, j, d, angles),
    ensures
        parts.len() == 2,
        parts[0].0 == s && parts[0].1 == c,
        parts[1].0 == c + 1 && parts[1].1 == e,
{
    if parts.len() == 1 {
        assert(parts[0].0 <= c < parts[0].1);
        assert(!split_pred(t, s, c, d, angles));
    }
    assert(split_pred(t, s, parts[0].1 as int, d, angles));
    assert(parts[0].1 == c) by {
        if parts[0].1 != c {
            if (parts[0].1 as int) < c {
                assert(parts[0].1 < e);
            } else {
                assert(parts[0].0 <= c < parts[0].1);
            }
        }
    }
    if parts.len() > 2 {
        assert(split_pred(t, s, parts[1].1 as int, d, angles));
        assert(parts[1].0 == c + 1);
        assert(parts[1].1 < e) by {
            assert(parts[2].0 == parts[1].1 + 1);
        }
    }
}

/// `[s, e)` of `t` is `Result<` a word `,` a word `>`, the comma at `c`.
pub open spec fn result_words_at(t: Seq<char>, s: int, e: int, c: int) -> bool {
    &&& 0 <= s
    &&& e <= t.len()
    &&& generic_shape(t, s, e, "Result<"@)
    &&& s + 7 <= c < e - 1
    &&& t[c] == ','
    &&& spaced_word(t, s + 7, c)
    &&& spaced_word(t, c + 1, e - 1)
}

/// The shape of the split and trims of `Result<word, word>`.
proof fn lemma_result_shape(t: Seq<char>, s: int, e: int, c: int, ia: int, ib: int, parts: Seq<(usize, usize)>)
    requires
        result_words_at(t, s, e, c),
        is_trim_of(t, s + 7, e - 1, ia, ib),
        is_split(parts, t, ia, ib, ',', true),
    ensures
        parts.len() == 2,
        parts[0].0 == ia && parts[0].1 == c && parts[1].0 == c + 1 && parts[1].1 == ib,
        forall|x: int, y: int| #[trigger] is_trim_of(t, ia, c, x, y) ==> x < y && is_ident(t.subrange(x, y))
            && t.subrange(x, y) == word_of(t, s + 7, c),
        forall|x: int, y: int| #[trigger] is_trim_of(t, c + 1, ib, x, y) ==> x < y && is_ident(t.subrange(x, y))
            && t.subrange(x, y) == word_of(t, c + 1, e - 1),
{
                let w1 = word_of(t, s + 7, c);
                assert(is_ident(w1) && trimmed_text(t, s + 7, c, w1));
                let (x1, y1) = choose|x1: int, y1: int| #[trigger] is_trim_of(t, s + 7, c, x1, y1) && w1 == t.subrange(x1, y1);
                lemma_spaced_word(t, s + 7, c, x1, y1);
                let w2 = word_of(t, c + 1, e - 1);
                assert(is_ident(w2) && trimmed_text(t, c + 1, e - 1, w2));
                let (x2, y2) = choose|x2: int, y2: int| #[trigger] is_trim_of(t, c + 1, e - 1, x2, y2) && w2 == t.subrange(x2, y2);
                lemma_spaced_word(t, c + 1, e - 1, x2, y2);
                lemma_ident_chars(t, x1, y1);
                lemma_ident_chars(t, x2, y2);
                assert(is_trim_of(t, s + 7, e - 1, x1, y2));
                lemma_trim_unique(t, s + 7, e - 1, x1, y2, ia, ib);
                assert forall|i: int| ia <= i < ib implies scan_char(#[trigger] t[i]) by {
                    if i < c {
                        assert(plain_char(t[i]));
                    } else if i > c {
                        assert(plain_char(t[i]));
                    }
                }
                lemma_plain_scan(t, ia, ib, c);
                assert forall|j: int| ia <= j < ib && j != c implies !#[trigger] split_pred(t, ia, j, ',', true) by {
                    assert(plain_char(t[j]));
                }
                assert(code_at(t, ia, c));
                assert(split_pred(t, ia, c, ',', true));
                lemma_split_two(parts, t, ia, ib, ',', true, c);
                assert forall|x: int, y: int| #[trigger] is_trim_of(t, ia, c, x, y) implies x < y && is_ident(t.subrange(x, y))
                    && t.subrange(x, y) == word_of(t, s + 7, c) by {
                    assert(is_trim_of(t, ia, c, x1, y1));
                    lemma_trim_unique(t, ia, c, x1, y1, x, y);
                }
                assert forall|x: int, y: int| #[trigger] is_trim_of(t, c + 1, ib, x, y) implies x < y && is_ident(t.subrange(x, y))
                    && t.subrange(x, y) == word_of(t, c + 1, e - 1) by {
                    assert(is_trim_of(t, c + 1, ib, x2, y2));
                    lemma_trim_unique(t, c + 1, ib, x2, y2, x, y);
                }
            }

/// `[s, e)` of `t` is one `{ ... }` group holding a word, `:` and a word,
/// the colon at `c`.
pub open spec fn map_words_at(t: Seq<char>, s: int, e: int, c: int) -> bool {
    &&& 0 <= s
    &&& e <= t.len()
    &&& wrapped_by(t, s, e, '{', '}', brace_gate(t, s))
    &&& s + 1 <= c < e - 1
    &&& t[c] == ':'
    &&& spaced_word(t, s + 1, c)
    &&& spaced_word(t, c + 1, e - 1)
}

/// The shape of the trims and of the colon search of `{word: word}`.
proof fn lemma_map_shape(t: Seq<char>, s: int, e: int, c: int, ia: int, ib: int)
    requires
        map_words_at(t, s, e, c),
        is_trim_of(t, s + 1, e - 1, ia, ib),
    ensures
        ia < c < ib,
        top_hit(t, ia, c, ':'),
        forall|j: int| ia <= j < c ==> !top_hit(t, ia, j, ':'),
        forall|x: int, y: int| #[trigger] is_trim_of(t, ia, c, x, y) ==> x < y && is_ident(t.subrange(x, y))
            && t.subrange(x, y) == word_of(t, s + 1, c),
        forall|x: int, y: int| #[trigger] is_trim_of(t, c + 1, ib, x, y) ==> x < y && is_ident(t.subrange(x, y))
            && t.subrange(x, y) == word_of(t, c + 1, e - 1),
{
    let w1 = word_of(t, s + 1, c);
    assert(is_ident(w1) && trimmed_text(t, s + 1, c, w1));
    let (x1, y1) = choose|x1: int, y1: int| #[trigger] is_trim_of(t, s + 1, c, x1, y1) && w1 == t.subrange(x1, y1);
    lemma_spaced_word(t, s + 1, c, x1, y1);
    let w2 = word_of(t, c + 1, e - 1);
    assert(is_ident(w2) && trimmed_text(t, c + 1, e - 1, w2));
    let (x2, y2) = choose|x2: int, y2: int| #[trigger] is_trim_of(t, c + 1, e - 1, x2, y2) && w2 == t.subrange(x2, y2);
    lemma_spaced_word(t, c + 1, e - 1, x2, y2);
    lemma_ident_chars(t, x1, y1);
    lemma_ident_chars(t, x2, y2);
    assert(is_trim_of(t, s + 1, e - 1, x1, y2));
    lemma_trim_unique(t, s + 1, e - 1, x1, y2, ia, ib);
    assert forall|i: int| ia <= i < ib implies scan_char(#[trigger] t[i]) by {
        if i < c {
            assert(plain_char(t[i]));
        } else if i > c {
            assert(plain_char(t[i]));
        }
    }
    lemma_plain_scan(t, ia, ib, c);
    assert forall|j: int| ia <= j < c implies !top_hit(t, ia, j, ':') by {
        assert(plain_char(t[j]));
    }
    assert(code_at(t, ia, c));
    assert(top_hit(t, ia, c, ':'));
    assert forall|x: int, y: int| #[trigger] is_trim_of(t, ia, c, x, y) implies x < y && is_ident(t.subrange(x, y))
        && t.subrange(x, y) == word_of(t, s + 1, c) by {
        assert(is_trim_of(t, ia, c, x1, y1));
        lemma_trim_unique(t, ia, c, x1, y1, x, y);
    }
    assert forall|x: int, y: int| #[trigger] is_trim_of(t, c + 1, ib, x, y) implies x < y && is_ident(t.subrange(x, y))
        && t.subrange(x, y) == word_of(t, c + 1, e - 1) by {
        assert(is_trim_of(t, c + 1, ib, x2, y2));
        lemma_trim_unique(t, c + 1, ib, x2, y2, x, y);
    }
}

/// `[s, e)` of `t` is `&mut [T]`, one space after `mut`, with `T` a single word.
pub open spec fn mut_slice_shape(t: Seq<char>, s: int, e: int) -> bool {
    &&& 0 <= s
    &&& s + 5 < e
    &&& t[s] == '&'
    &&& t.subrange(s + 1, s + 4) == "mut"@
    &&& is_ws(t[s + 4])
    &&& t[s + 5] == '['
    &&& ident_between(t, s + 6, e - 1)
    &&& wrapped_by(t, s + 5, e, '[', ']', square_gate(t, s + 5))
}

/// The type that `[s, e)` of `t` names when it is `[T]`, `&[T]`, `&mut [T]`
/// or `Option<T>` with `T` a single word.
pub open spec fn wrapped_word_type(t: Seq<char>, s: int, e: int, ty: TypeName) -> bool {
    if s < e && t[s] == '[' && ident_between(t, s + 1, e - 1) && wrapped_by(t, s, e, '[', ']', square_gate(t, s)) {
        ty matches TypeName::Array(inner) && word_type(t.subrange(s + 1, e - 1), *inner)
    } else if s + 1 < e && t[s] == '&' && t[s + 1] == '[' && ident_between(t, s + 2, e - 1) && wrapped_by(
        t,
        s + 1,
        e,
        '[',
        ']',
        square_gate(t, s + 1),
    ) {
        ty matches TypeName::Slice(inner) && word_type(t.subrange(s + 2, e - 1), *inner)
    } else if mut_slice_shape(t, s, e) {
        ty matches TypeName::MutSlice(inner) && word_type(t.subrange(s + 6, e - 1), *inner)
    } else if generic_shape(t, s, e, "Option<"@) && ident_between(t, s + 7, e - 1) {
        ty matches TypeName::Option(inner) && word_type(t.subrange(s + 7, e - 1), *inner)
    } else {
        true
    }
}

fn parse_type_name(src: &Source, s: usize, e: usize, line_no: usize, column: usize) -> (r: Result<
    TypeName,
    Diagnostic,
>)
    requires
        s <= e <= src.text@.len(),
    ensures
        r matches Err(d) ==> d.kind@ == "parse"@,
        r matches Ok(TypeName::Named(n)) ==> is_ident(n@),
        is_ident(src.text@.subrange(s as int, e as int)) ==> (r matches Ok(ty) && word_type(
            src.text@.subrange(s as int, e as int),
            ty,
        )),
        ({
            let t = src.text@;
            (s < e && t[s as int] == '[' && ident_between(t, s + 1, e - 1) && wrapped_by(t, s as int, e as int, '[', ']', square_gate(t, s as int)))
            || (s + 1 < e && t[s as int] == '&' && t[s + 1] == '[' && ident_between(t, s + 2, e - 1)
                && wrapped_by(t, s + 1, e as int, '[', ']', square_gate(t, s + 1)))
            || (generic_shape(t, s as int, e as int, "Option<"@) && ident_between(t, s + 7, e - 1))
            || mut_slice_shape(t, s as int, e as int)
        }) ==> (r matches Ok(ty) && wrapped_word_type(src.text@, s as int, e as int, ty)),
        forall|c: int|
            #[trigger] result_words_at(src.text@, s as int, e as int, c) ==> (r matches Ok(TypeName::Result(x, y))
                && word_type(word_of(src.text@, s + 7, c), *x) && word_type(word_of(src.text@, c + 1, e - 1), *y)),
        forall|c: int|
            #[trigger] map_words_at(src.text@, s as int, e as int, c) ==> (r matches Ok(TypeName::Dict(k, v))
                && word_type(word_of(src.text@, s + 1, c), *k) && word_type(word_of(src.text@, c + 1, e - 1), *v)),
    decreases e - s, 0int,
{
    let t = &src.text;
    proof {
        reveal_strlit("Option<");
        reveal_strlit("Result<");
        reveal_strlit("mut");
        if s < e && t@[s as int] == '[' && ident_between(t@, s + 1, e - 1) {
            lemma_ident_chars(t@, s + 1, e - 1);
        }
        if s + 1 < e && t@[s as int] == '&' && t@[s + 1] == '[' && ident_between(t@, s + 2, e - 1) {
            lemma_ident_chars(t@, s + 2, e - 1);
        }
        if mut_slice_shape(t@, s as int, e as int) {
            lemma_ident_chars(t@, s + 6, e - 1);
            assert("mut"@.len() == 3);
            assert(t@[s + 1] == t@.subrange(s + 1, s + 4)[0]);
            assert(t@[s + 1] == 'm');
        }
        if generic_shape(t@, s as int, e as int, "Option<"@) {
            assert(t@[s as int] == t@.subrange(s as int, s + 7)[0]);
        }
        if generic_shape(t@, s as int, e as int, "Result<"@) {
            assert(t@[s as int] == t@.subrange(s as int, s + 7)[0]);
        }
        let v = t@.subrange(s as int, e as int);
        if is_ident(v) {
            assert(v[0] == t@[s as int]);
            assert(v[v.len() - 1] == t@[e - 1]);
            assert(is_alpha(v[v.len() - 1]) || is_digit(v[v.len() - 1]) || v[v.len() - 1] == '_');
        }
    }
    if let Some((ia, ib)) = generic_inner(t, s, e, "Option<") {
        proof {
            assert("Option<"@.len() == 7);
            if ident_between(t@, s + 7, e - 1) {
                lemma_trim_ident(t@, s + 7, e - 1, ia as int, ib as int);
            }
        }
        if ia == ib {
            return Err(perr(src, "Option type is missing an inner type", line_no, column));
        }
        return match parse_type_name(src, ia, ib, line_no, column.saturating_add(7)) {
            Ok(inner) => Ok(TypeName::Option(Box::new(inner))),
            Err(d) => Err(d),
        };
    }
    if let Some((ia, ib)) = generic_inner(t, s, e, "Result<") {
        let parts = split_top_level_type(t, ia, ib, ',');
        proof {
            lemma_split_parts_shorter(parts@, t@, ia as int, ib as int, ',', true);
            assert("Result<"@.len() == 7);
            assert forall|c: int| #[trigger] result_words_at(t@, s as int, e as int, c) implies{
                &&& parts@.len() == 2
                &&& parts@[0].0 == ia && parts@[0].1 == c && parts@[1].0 == c + 1 && parts@[1].1 == ib
                &&& forall|x: int, y: int| #[trigger] is_trim_of(t@, ia as int, c, x, y) ==> x < y && is_ident(t@.subrange(x, y))
                    && t@.subrange(x, y) == word_of(t@, s + 7, c)
                &&& forall|x: int, y: int| #[trigger] is_trim_of(t@, c + 1, ib as int, x, y) ==> x < y && is_ident(t@.subrange(x, y))
                    && t@.subrange(x, y) == word_of(t@, c + 1, e - 1)
            } by {
                lemma_result_shape(t@, s as int, e as int, c, ia as int, ib as int, parts@);
            }
        }
        if parts.len() != 2 {
            return Err(perr(src, "Result type must use `Result<ok, err>` syntax", line_no, column));
        }
        let (oa, ob) = trim(t, parts[0].0, parts[0].1);
        let (ea, eb) = trim(t, parts[1].0, parts[1].1);
        if oa == ob || ea == eb {
            return Err(perr(src, "Result type is missing an ok or error type", line_no, column));
        }
        let ok = match parse_type_name(src, oa, ob, line_no, column.saturating_add(7)) {
            Ok(ty) => ty,
            Err(d) => return Err(d),
        };
        let err = match parse_type_name(src, ea, eb, line_no, column.saturating_add(7)) {
            Ok(ty) => ty,
            Err(d) => return Err(d),
        };
        return Ok(TypeName::Result(Box::new(ok), Box::new(err)));
    }
    if is_wrapped_in_braces(t, s, e) {
        let (ia, ib) = trim(t, s + 1, e - 1);
        proof {
            assert forall|c: int| #[trigger] map_words_at(t@, s as int, e as int, c) implies {
                &&& ia < c < ib
                &&& top_hit(t@, ia as int, c, ':')
                &&& forall|j: int| ia <= j < c ==> !top_hit(t@, ia as int, j, ':')
                &&& forall|x: int, y: int| #[trigger] is_trim_of(t@, ia as int, c, x, y) ==> x < y && is_ident(t@.subrange(x, y))
                    && t@.subrange(x, y) == word_of(t@, s + 1, c)
                &&& forall|x: int, y: int| #[trigger] is_trim_of(t@, c + 1, ib as int, x, y) ==> x < y && is_ident(t@.subrange(x, y))
                    && t@.subrange(x, y) == word_of(t@, c + 1, e - 1)
            } by {
                lemma_map_shape(t@, s as int, e as int, c, ia as int, ib as int);
            }
        }
        if ia == ib {
            return Err(perr(src, "map type is empty", line_no, column));
        }
        let colon = match find_top_level_char(t, ia, ib, ':') {
            Some(k) => k,
            None => return Err(perr(src, "map type must use `{key: value}` syntax", line_no, column)),
        };
        let (ka, kb) = trim(t, ia, colon);
        let (va, vb) = trim(t, colon + 1, ib);
        if ka == kb || va == vb {
            return Err(perr(src, "map type is missing a key or value type", line_no, column));
        }
        let key = match parse_type_name(src, ka, kb, line_no, column.saturating_add(1)) {
            Ok(ty) => ty,
            Err(d) => return Err(d),
        };
        let vcol = column.saturating_add(byte_offset(t, ia, colon)).saturating_add(2);
        let value = match parse_type_name(src, va, vb, line_no, vcol) {
            Ok(ty) => ty,
            Err(d) => return Err(d),
        };
        return Ok(TypeName::Dict(Box::new(key), Box::new(value)));
    }
    if is_wrapped_in_parens(t, s, e) {
        let (ia, ib) = trim(t, s + 1, e - 1);
        if ia == ib {
            return Err(perr(src, "tuple type is empty", line_no, column));
        }
        let items = split_top_level_type(t, ia, ib, ',');
        if items.len() > 1 {
            return match parse_tuple_type_names(src, ia, ib, line_no, column.saturating_add(1)) {
                Ok(elements) => Ok(TypeName::Tuple(elements)),
                Err(d) => Err(d),
            };
        }
        return parse_type_name(src, ia, ib, line_no, column.saturating_add(1));
    }
    if is_wrapped_in_squares(t, s, e) {
        let (ia, ib) = trim(t, s + 1, e - 1);
        if ia == ib {
            return Err(perr(src, "array type is missing an element type", line_no, column));
        }
        return match parse_type_name(src, ia, ib, line_no, column.saturating_add(1)) {
            Ok(inner) => Ok(TypeName::Array(Box::new(inner))),
            Err(d) => Err(d),
        };
    }
    if s < e && t[s] == '&' {
        let (ra, rb) = trim(t, s + 1, e);
        let (ma, mb, mutable) = match strip_prefix(t, ra, rb, "mut") {
            Some(k) => {
                if k < rb && is_whitespace(t[k]) {
                    let (x, y) = trim(t, k, rb);
                    (x, y, true)
                } else if k < rb && t[k] == '[' {
                    (k, rb, true)
                } else {
                    (ra, rb, false)
                }
            },
            None => (ra, rb, false),
        };
        if is_wrapped_in_squares(t, ma, mb) {
            let (ia, ib) = trim(t, ma + 1, mb - 1);
            if ia == ib {
                return Err(perr(src, "slice type is missing an element type", line_no, column));
            }
            return match parse_type_name(src, ia, ib, line_no, column.saturating_add(2)) {
                Ok(inner) => if mutable {
                    Ok(TypeName::MutSlice(Box::new(inner)))
                } else {
                    Ok(TypeName::Slice(Box::new(inner)))
                },
                Err(d) => Err(d),
            };
        }
        return Err(
            perr(src, "borrowed types must use `&[T]` or `&mut [T]` syntax", line_no, column),
        );
    }
    if is_lit(t, s, e, "int") {
        return Ok(TypeName::Int);
    }
    if is_lit(t, s, e, "bool") {
        return Ok(TypeName::Bool);
    }
    if is_lit(t, s, e, "string") {
        return Ok(TypeName::String);
    }
    if let Err(d) = validate_ident(src, s, e, line_no, column) {
        return Err(d);
    }
    Ok(TypeName::Named(string_from(t, s, e)))
}

fn parse_tuple_type_names(src: &Source, s: usize, e: usize, line_no: usize, column: usize) -> (r:
    Result<Vec<TypeName>, Diagnostic>)
    requires
        s < e <= src.text@.len(),
    ensures
        r matches Err(d) ==> d.kind@ == "parse"@,
        r matches Ok(v) ==> list_shape(src.text@, s as int, e as int, false, v@.len()),
    decreases e - s, 1int,
{
    let t = &src.text;
    let parts = split_top_level(t, s, e, ',');
    proof {
        lemma_split_parts_shorter(parts@, t@, s as int, e as int, ',', false);
    }
    let mut elements: Vec<TypeName> = Vec::new();
    let mut k: usize = 0;
    while k < parts.len()
        invariant
            k <= parts@.len(),
            s < e <= t@.len(),
            t@ == src.text@,
            forall|j: int| 0 <= j < parts@.len() ==> s <= (#[trigger] parts@[j]).0 <= parts@[j].1 <= e,
            is_split(parts@, t@, s as int, e as int, ',', false),
            forall|j: int|
                0 <= j < k ==> !blank_range(t@, (#[trigger] parts@[j]).0 as int, parts@[j].1 as int),
            elements@.len() == k,
        decreases parts@.len() - k,
    {
        let (pa, pb) = trim(t, parts[k].0, parts[k].1);
        if pa == pb {
            return Err(perr(src, "tuple type element is empty", line_no, column));
        }
        assert(!is_ws(t@[pa as int]));
        match parse_type_name(src, pa, pb, line_no, column) {
            Ok(ty) => elements.push(ty),
            Err(d) => return Err(d),
        }
        k = k + 1;
    }
    assert(is_split(parts@, t@, s as int, e as int, ',', false));
    Ok(elements)
}

fn parse_named_enum_payload_fields(
    src: &Source,
    s: usize,
    e: usize,
    line_no: usize,
    column: usize,
) -> (r: Result<(Vec<String>, Vec<TypeName>), Diagnostic>)
    requires
        s <= e <= src.text@.len(),
    ensures
        r matches Err(d) ==> d.kind@ == "parse"@,
        blank_range(src.text@, s as int, e as int) ==> r is Err,
        r matches Ok((names, tys)) ==> names@.len() == tys@.len() && list_shape(
            src.text@,
            s as int,
            e as int,
            false,
            names@.len(),
        ) && forall|k: int| 0 <= k < names@.len() ==> is_ident((#[trigger] names@[k])@),
{
    let t = &src.text;
    let (ta, tb) = trim(t, s, e);
    if ta == tb {
        return Err(perr(src, "enum variant payload field is empty", line_no, column));
    }
    assert(!is_ws(t@[ta as int]));
    let parts = split_top_level(t, s, e, ',');
    proof {
        lemma_split_parts_shorter(parts@, t@, s as int, e as int, ',', false);
    }
    let mut names: Vec<String> = Vec::new();
    let mut tys: Vec<TypeName> = Vec::new();
    let mut k: usize = 0;
    while k < parts.len()
        invariant
            k <= parts@.len(),
            e <= t@.len(),
            t@ == src.text@,
            forall|j: int| 0 <= j < parts@.len() ==> s <= (#[trigger] parts@[j]).0 <= parts@[j].1 <= e,
            is_split(parts@, t@, s as int, e as int, ',', false),
            forall|j: int|
                0 <= j < k ==> !blank_range(t@, (#[trigger] parts@[j]).0 as int, parts@[j].1 as int),
            names@.len() == k,
            tys@.len() == k,
            forall|j: int| 0 <= j < k ==> is_ident((#[trigger] names@[j])@),
        decreases parts@.len() - k,
    {
        let (fa, fb) = trim(t, parts[k].0, parts[k].1);
        if fa == fb {
            return Err(perr(src, "enum variant payload field is empty", line_no, column));
        }
        assert(!is_ws(t@[fa as int]));
        let colon = match find_top_level_char(t, fa, fb, ':') {
            Some(c) => c,
            None => return Err(
                perr(src, "enum variant payload field is missing ':'", line_no, column),
            ),
        };
        let (na, nb) = trim(t, fa, colon);
        if let Err(d) = validate_ident(src, na, nb, line_no, column) {
            return Err(d);
        }
        let (ya, yb) = trim(t, colon + 1, fb);
        let col = column.saturating_add(byte_offset(t, fa, colon)).saturating_add(1);
        match parse_type_name(src, ya, yb, line_no, col) {
            Ok(ty) => {
                names.push(string_from(t, na, nb));
                tys.push(ty);
            },
            Err(d) => return Err(d),
        }
        k = k + 1;
    }
    assert(is_split(parts@, t@, s as int, e as int, ',', false));
    Ok((names, tys))
}

/// Parses an expression: at most one comparison over sums of terms.
/// `[s, e)` of `t` is a word, the operator `op`, and a word, with nothing between.
/// `[a, b)` of `t` holds one word, with whitespace around it at most.
pub open spec fn spaced_word(t: Seq<char>, a: int, b: int) -> bool {
    exists|w: Seq<char>| is_ident(w) && #[trigger] trimmed_text(t, a, b, w)
}

/// The word that such a range holds.
pub open spec fn word_of(t: Seq<char>, a: int, b: int) -> Seq<char> {
    choose|w: Seq<char>| is_ident(w) && #[trigger] trimmed_text(t, a, b, w)
}

/// `[s, e)` of `t` is a word, the operator `op` at `m`, and a word, with
/// whitespace around the words at most.
pub open spec fn word_compare_word(t: Seq<char>, s: int, e: int, m: int, op: CompareOp) -> bool {
    &&& 0 <= s <= m
    &&& m + op.spec_text().len() <= e
    &&& e <= t.len()
    &&& spaced_word(t, s, m)
    &&& t.subrange(m, m + op.spec_text().len()) == op.spec_text()
    &&& spaced_word(t, m + op.spec_text().len(), e)
}

/// A character of a word, or whitespace.
pub open spec fn plain_char(c: char) -> bool {
    is_alpha(c) || is_digit(c) || c == '_' || is_ws(c)
}

/// A character of a word, whitespace, a comma or a colon.
pub open spec fn scan_char(c: char) -> bool {
    plain_char(c) || c == ',' || c == ':'
}

/// A scan over words, whitespace and commas stays outside strings and brackets.
proof fn lemma_plain_scan(t: Seq<char>, s: int, m: int, j: int)
    requires
        0 <= s <= j <= m <= t.len(),
        forall|i: int| s <= i < m ==> scan_char(#[trigger] t[i]),
    ensures
        !lex_at(t, s, j).in_str && !lex_at(t, s, j).esc,
        flat_at(t, s, j),
        angle_at(t, s, j) == 0,
    decreases j - s,
{
    if j > s {
        lemma_plain_scan(t, s, m, j - 1);
        assert(scan_char(t[j - 1]));
        assert(lex_at(t, s, j) == lex_next(lex_at(t, s, j - 1), t[j - 1]));
        assert(code_at(t, s, j - 1));
    }
}

/// What a spaced word's range is made of, given one trim of it.
proof fn lemma_spaced_word(t: Seq<char>, a: int, b: int, x: int, y: int)
    requires
        0 <= a <= b <= t.len(),
        spaced_word(t, a, b),
        is_trim_of(t, a, b, x, y),
    ensures
        x < y,
        t.subrange(x, y) == word_of(t, a, b),
        is_ident(t.subrange(x, y)),
        forall|i: int| a <= i < b ==> plain_char(#[trigger] t[i]),
{
    let w = word_of(t, a, b);
    assert(is_ident(w) && trimmed_text(t, a, b, w));
    let (x0, y0) = choose|x0: int, y0: int| #[trigger] is_trim_of(t, a, b, x0, y0) && w == t.subrange(x0, y0);
    assert(x0 < y0);
    lemma_trim_unique(t, a, b, x0, y0, x, y);
    lemma_ident_chars(t, x, y);
    assert forall|i: int| a <= i < b implies plain_char(#[trigger] t[i]) by {
        if x <= i < y {
            assert(is_alpha(t[i]) || is_digit(t[i]) || t[i] == '_');
        }
    }
}

/// Where a scan of such a comparison finds its operator, and what the two
/// trims around it hold.
proof fn lemma_compare_shape(t: Seq<char>, s: int, e: int, m: int, op: CompareOp, a: int, b: int)
    requires
        word_compare_word(t, s, e, m, op),
        is_trim_of(t, s, e, a, b),
    ensures
        a <= m && m + op.spec_text().len() <= b,
        compare_at(t, a, b, m) == Some(op),
        forall|j: int| a <= j < m ==> compare_at(t, a, b, j) is None,
        forall|x: int, y: int|
            #[trigger] is_trim_of(t, a, m, x, y) ==> x < y && t.subrange(x, y) == word_of(t, s, m),
        forall|x: int, y: int|
            #[trigger] is_trim_of(t, m + op.spec_text().len(), b, x, y) ==> x < y && t.subrange(x, y)
                == word_of(t, m + op.spec_text().len(), e),
{
    let n = op.spec_text().len() as int;
    let w1 = word_of(t, s, m);
    let w2 = word_of(t, m + n, e);
    assert(is_ident(w1) && trimmed_text(t, s, m, w1));
    assert(is_ident(w2) && trimmed_text(t, m + n, e, w2));
    let (x1, y1) = choose|x1: int, y1: int| #[trigger] is_trim_of(t, s, m, x1, y1) && w1 == t.subrange(x1, y1);
    let (x2, y2) = choose|x2: int, y2: int| #[trigger] is_trim_of(t, m + n, e, x2, y2) && w2 == t.subrange(x2, y2);
    lemma_spaced_word(t, s, m, x1, y1);
    lemma_spaced_word(t, m + n, e, x2, y2);
    lemma_ident_chars(t, x1, y1);
    lemma_ident_chars(t, x2, y2);
    assert(is_trim_of(t, s, e, x1, y2)) by {
        assert forall|i: int| s <= i < x1 implies is_ws(#[trigger] t[i]) by {}
        assert forall|i: int| y2 <= i < e implies is_ws(#[trigger] t[i]) by {}
    }
    lemma_trim_unique(t, s, e, x1, y2, a, b);
    assert(t[m] == op.spec_text()[0]) by {
        assert(t.subrange(m, m + n)[0] == t[m]);
    }
    if n == 2 {
        assert(t[m + 1] == op.spec_text()[1]) by {
            assert(t.subrange(m, m + n)[1] == t[m + 1]);
        }
    } else {
        assert(plain_char(t[m + 1]));
    }
    lemma_plain_scan(t, a, m, m);
    assert forall|j: int| a <= j < m implies compare_at(t, a, b, j) is None by {
        assert(plain_char(t[j]));
        lemma_plain_scan(t, a, m, j);
    }
    assert(code_at(t, a, m));
    assert forall|x: int, y: int| #[trigger] is_trim_of(t, a, m, x, y) implies x < y && t.subrange(x, y) == w1 by {
        assert(is_trim_of(t, a, m, x1, y1));
        lemma_trim_unique(t, a, m, x1, y1, x, y);
    }
    assert forall|x: int, y: int| #[trigger] is_trim_of(t, m + n, b, x, y) implies x < y && t.subrange(x, y) == w2 by {
        assert(is_trim_of(t, m + n, b, x2, y2));
        lemma_trim_unique(t, m + n, b, x2, y2, x, y);
    }
}

fn parse_expr(src: &Source, s: usize, e: usize, line_no: usize, column: usize) -> (r: Result<
    Expr,
    Diagnostic,
>)
    requires
        s <= e <= src.text@.len(),
    ensures
        r matches Err(d) ==> d.kind@ == "parse"@,
        is_ident(src.text@.subrange(s as int, e as int)) ==> (r matches Ok(x) && word_expr(
            src.text@.subrange(s as int, e as int),
            x,
        )),
        forall|m: int, op: CompareOp|
            #[trigger] word_compare_word(src.text@, s as int, e as int, m, op) ==> (r matches Ok(
                Expr::BinaryCompare { op: o, lhs, rhs, .. },
            ) && o == op && word_expr(word_of(src.text@, s as int, m), *lhs) && word_expr(
                word_of(src.text@, m + op.spec_text().len(), e as int),
                *rhs,
            )),
        plain_string_literal(src.text@.subrange(s as int, e as int)) ==> (r is Ok <==> json_string_value(
            src.text@.subrange(s as int, e as int),
        ) is Some),
        plain_string_literal(src.text@.subrange(s as int, e as int)) ==> (r matches Ok(x) ==> (x matches Expr::Literal(
            Literal::String(w),
        ) && json_string_value(src.text@.subrange(s as int, e as int)) == Some(w@))),
    decreases e - s, 2int,
{
    let t = &src.text;
    let (a, b) = trim(t, s, e);
    proof {
        if is_ident(t@.subrange(s as int, e as int)) {
            lemma_ident_chars(t@, s as int, e as int);
            assert(a == s);
            assert(b == e);
        }
        if plain_string_literal(t@.subrange(s as int, e as int)) {
            let v = t@.subrange(s as int, e as int);
            assert(t@[s as int] == v[0]);
            assert(t@[e - 1] == v[v.len() - 1]);
            assert(a == s);
            assert(b == e);
            lemma_quoted_not_code(t@, s as int, e as int);
        }
        assert forall|m: int, op: CompareOp| #[trigger] word_compare_word(t@, s as int, e as int, m, op) implies {
            &&& a <= m && m + op.spec_text().len() <= b
            &&& compare_at(t@, a as int, b as int, m) == Some(op)
            &&& forall|j: int| a <= j < m ==> compare_at(t@, a as int, b as int, j) is None
            &&& forall|x: int, y: int|
                #[trigger] is_trim_of(t@, a as int, m, x, y) ==> x < y && t@.subrange(x, y) == word_of(t@, s as int, m)
            &&& forall|x: int, y: int|
                #[trigger] is_trim_of(t@, m + op.spec_text().len(), b as int, x, y) ==> x < y && t@.subrange(x, y)
                    == word_of(t@, m + op.spec_text().len(), e as int)
        } by {
            lemma_compare_shape(t@, s as int, e as int, m, op, a as int, b as int);
        }
    }
    if let Some((op, k)) = find_compare_operator(t, a, b) {
        let len: usize = match op {
            CompareOp::Lt | CompareOp::Gt => 1,
            _ => 2,
        };
        assert(len == op.spec_text().len());
        let (la, lb) = trim(t, a, k);
        let (ra, rb) = trim(t, k + len, b);
        proof {
            assert forall|m2: int, op2: CompareOp| #[trigger] word_compare_word(t@, s as int, e as int, m2, op2)
                implies m2 == k && op2 == op by {
                if (k as int) < m2 {
                    assert(compare_at(t@, a as int, b as int, k as int) is None);
                }
                if m2 < k {
                    assert(compare_at(t@, a as int, b as int, m2) is None);
                }
            }
        }
        if la == lb || ra == rb {
            return Err(perr(src, "comparison expression is incomplete", line_no, column));
        }
        let lhs = match parse_add(src, la, lb, line_no, column) {
            Ok(x) => x,
            Err(d) => return Err(d),
        };
        let rhs = match parse_add(src, ra, rb, line_no, column) {
            Ok(x) => x,
            Err(d) => return Err(d),
        };
        return Ok(
            Expr::BinaryCompare {
                op,
                lhs: Box::new(lhs),
                rhs: Box::new(rhs),
                line: line_no,
                column,
            },
        );
    }
    parse_add(src, a, b, line_no, column)
}

/// `x` is `n` additions deep along its left operands.
pub open spec fn left_adds(x: Expr, n: nat) -> bool
    decreases n,
{
    if n == 0 {
        true
    } else {
        x matches Expr::BinaryAdd { lhs, .. } && left_adds(*lhs, (n - 1) as nat)
    }
}

/// The right operand found after stepping `d` times into left operands.
pub open spec fn rhs_at(x: Expr, d: nat) -> Expr
    decreases d,
{
    match x {
        Expr::BinaryAdd { lhs, rhs, .. } => if d == 0 {
            *rhs
        } else {
            rhs_at(*lhs, (d - 1) as nat)
        },
        _ => x,
    }
}

/// The expression reached by stepping `n` times into left operands.
pub open spec fn base_of(x: Expr, n: nat) -> Expr
    decreases n,
{
    if n == 0 {
        x
    } else {
        match x {
            Expr::BinaryAdd { lhs, .. } => base_of(*lhs, (n - 1) as nat),
            _ => x,
        }
    }
}

/// What a term `[a, b)` of a sum stands for in `x`, as far as it is known: a
/// word gives the word's expression and an integer its literal.
pub open spec fn term_leaf(t: Seq<char>, a: int, b: int, x: Expr) -> bool {
    forall|p: int, q: int|
        #[trigger] is_trim_of(t, a, b, p, q) ==> {
            &&& is_ident(t.subrange(p, q)) ==> word_expr(t.subrange(p, q), x)
            &&& parse_i64_spec(t.subrange(p, q)) matches Some(n) ==> x == Expr::Literal(Literal::Int(n))
        }
}

/// `x` is the sum of the terms `parts` of `t`, kept in order and folded to the
/// left: one addition per `+`, the first term innermost and each later term
/// the right operand at its depth.
pub open spec fn sum_of_terms(t: Seq<char>, parts: Seq<(usize, usize)>, x: Expr) -> bool {
    let n = (parts.len() - 1) as nat;
    &&& left_adds(x, n)
    &&& forall|k: int| 1 <= k < parts.len() ==> term_leaf(t, (#[trigger] parts[k]).0 as int, parts[k].1 as int, rhs_at(x, (n - k) as nat))
    &&& term_leaf(t, parts[0].0 as int, parts[0].1 as int, base_of(x, n))
}

/// The parse of a term, by what `parse_term` promises of words and integers.
proof fn lemma_term_leaf(t: Seq<char>, a: int, b: int, p: int, q: int, x: Expr)
    requires
        is_trim_of(t, a, b, p, q),
        b <= t.len(),
        0 <= a,
        is_ident(t.subrange(p, q)) ==> word_expr(t.subrange(p, q), x),
        parse_i64_spec(t.subrange(p, q)) matches Some(n) ==> x == Expr::Literal(Literal::Int(n)),
    ensures
        term_leaf(t, a, b, x),
{
    assert forall|p2: int, q2: int| #[trigger] is_trim_of(t, a, b, p2, q2) implies {
        &&& is_ident(t.subrange(p2, q2)) ==> word_expr(t.subrange(p2, q2), x)
        &&& parse_i64_spec(t.subrange(p2, q2)) matches Some(n) ==> x == Expr::Literal(Literal::Int(n))
    } by {
        if p2 < q2 {
            lemma_trim_unique(t, a, b, p2, q2, p, q);
        } else {
            assert(t.subrange(p2, q2).len() == 0);
        }
    }
}

/// Parses one term of a sum, `[a, b)` with the whitespace around it.
fn parse_sum_term(src: &Source, a: usize, b: usize, line_no: usize, column: usize) -> (r: Result<Expr, Diagnostic>)
    requires
        a <= b <= src.text@.len(),
    ensures
        r matches Err(d) ==> d.kind@ == "parse"@,
        r matches Ok(x) ==> term_leaf(src.text@, a as int, b as int, x),
    decreases b - a, 1int,
{
    let (p, q) = trim(&src.text, a, b);
    let r = parse_term(src, p, q, line_no, column);
    proof {
        if r is Ok {
            lemma_term_leaf(src.text@, a as int, b as int, p as int, q as int, r->Ok_0);
        }
    }
    r
}

fn parse_add(src: &Source, s: usize, e: usize, line_no: usize, column: usize) -> (r: Result<
    Expr,
    Diagnostic,
>)
    requires
        s <= e <= src.text@.len(),
    ensures
        r matches Err(d) ==> d.kind@ == "parse"@,
        is_ident(src.text@.subrange(s as int, e as int)) ==> (r matches Ok(x) && word_expr(
            src.text@.subrange(s as int, e as int),
            x,
        )),
        plain_string_literal(src.text@.subrange(s as int, e as int)) ==> (r is Ok <==> json_string_value(
            src.text@.subrange(s as int, e as int),
        ) is Some),
        plain_string_literal(src.text@.subrange(s as int, e as int)) ==> (r matches Ok(x) ==> (x matches Expr::Literal(
            Literal::String(w),
        ) && json_string_value(src.text@.subrange(s as int, e as int)) == Some(w@))),
        forall|parts: Seq<(usize, usize)>|
            #[trigger] is_split(parts, src.text@, s as int, e as int, '+', false) && parts.len() > 1 ==> (
            r matches Ok(x) ==> sum_of_terms(src.text@, parts, x)),
    decreases e - s, 1int,
{
    let t = &src.text;
    let terms = split_top_level(t, s, e, '+');
    proof {
        if plain_string_literal(t@.subrange(s as int, e as int)) {
            lemma_quoted_not_code(t@, s as int, e as int);
            if terms@.len() > 1 {
                assert(split_pred(t@, s as int, terms@[0].1 as int, '+', false));
            }
            let v = t@.subrange(s as int, e as int);
            assert(t@[s as int] == v[0]);
            assert(t@[e - 1] == v[v.len() - 1]);
        }
    }
    proof {
        if is_ident(t@.subrange(s as int, e as int)) {
            lemma_ident_chars(t@, s as int, e as int);
            if terms@.len() > 1 {
                let j = terms@[0].1 as int;
                assert(split_pred(t@, s as int, j, '+', false));
                assert(terms@[1].0 == j + 1);
                assert(t@[j] == '+');
            }
        }
    }
    proof {
        lemma_split_parts_shorter(terms@, t@, s as int, e as int, '+', false);
    }
    if terms.len() > 1 {
        let mut expr = match parse_sum_term(src, terms[0].0, terms[0].1, line_no, column) {
            Ok(x) => x,
            Err(d) => return Err(d),
        };
        let mut k: usize = 1;
        while k < terms.len()
            invariant
                left_adds(expr, (k - 1) as nat),
                forall|j: int| 1 <= j < k ==> term_leaf(t@, (#[trigger] terms@[j]).0 as int, terms@[j].1 as int, rhs_at(expr, (k - 1 - j) as nat)),
                term_leaf(t@, terms@[0].0 as int, terms@[0].1 as int, base_of(expr, (k - 1) as nat)),
                1 <= k <= terms@.len(),
                terms@.len() > 1,
                !is_ident(src.text@.subrange(s as int, e as int)),
                !plain_string_literal(src.text@.subrange(s as int, e as int)),
                s <= e <= t@.len(),
                t@ == src.text@,
                forall|j: int|
                    0 <= j < terms@.len() ==> s <= (#[trigger] terms@[j]).0 <= terms@[j].1 <= e,
                forall|j: int| 0 <= j < terms@.len() ==> (#[trigger] terms@[j]).1 - terms@[j].0 < e - s,
            decreases terms@.len() - k,
        {
            let rhs = match parse_sum_term(src, terms[k].0, terms[k].1, line_no, column) {
                Ok(x) => x,
                Err(d) => return Err(d),
            };
            let ghost prev = expr;
            expr = Expr::BinaryAdd { lhs: Box::new(expr), rhs: Box::new(rhs), line: line_no, column };
            proof {
                assert(rhs_at(expr, 0) == rhs);
                assert forall|j: int| 1 <= j < k + 1 implies term_leaf(t@, (#[trigger] terms@[j]).0 as int, terms@[j].1 as int, rhs_at(expr, (k - j) as nat)) by {
                    if j < k {
                        assert(rhs_at(expr, (k - j) as nat) == rhs_at(prev, (k - 1 - j) as nat));
                    }
                }
                assert(base_of(expr, k as nat) == base_of(prev, (k - 1) as nat));
            }
            k = k + 1;
        }
        proof {
            assert forall|parts: Seq<(usize, usize)>|
                #[trigger] is_split(parts, src.text@, s as int, e as int, '+', false) && parts.len() > 1 implies
                sum_of_terms(src.text@, parts, expr) by {
                lemma_split_unique(parts, terms@, t@, s as int, e as int, '+', false);
            }
        }
        return Ok(expr);
    }
    let (a, b) = trim(t, s, e);
    parse_term(src, a, b, line_no, column)
}

fn all_ascii_digits(t: &Vec<char>, s: usize, e: usize) -> (b: bool)
    requires
        s <= e <= t@.len(),
    ensures
        b == all_digits(t@.subrange(s as int, e as int)),
{
    let ghost v = t@.subrange(s as int, e as int);
    let mut i = s;
    while i < e
        invariant
            s <= i <= e <= t@.len(),
            v == t@.subrange(s as int, e as int),
            forall|k: int| 0 <= k < i - s ==> is_digit(#[trigger] v[k]),
        decreases e - i,
    {
        assert(v[i - s] == t@[i as int]);
        if !is_ascii_digit(t[i]) {
            return false;
        }
        i = i + 1;
    }
    true
}

/// A string literal with no quote between its two quotes.
pub open spec fn plain_string_literal(v: Seq<char>) -> bool {
    &&& v.len() >= 2
    &&& v[0] == '"'
    &&& v[v.len() - 1] == '"'
    &&& forall|k: int| 0 < k < v.len() - 1 ==> #[trigger] v[k] != '"'
}

/// Between the quotes of such a literal, a scan from its first quote is inside the string.
proof fn lemma_inside_quotes(t: Seq<char>, s: int, e: int, j: int)
    requires
        0 <= s < j < e <= t.len(),
        plain_string_literal(t.subrange(s, e)),
    ensures
        lex_at(t, s, j).in_str,
    decreases j - s,
{
    let v = t.subrange(s, e);
    assert(t[s] == v[0]);
    if j > s + 1 {
        lemma_inside_quotes(t, s, e, j - 1);
        assert(t[j - 1] == v[j - 1 - s]);
    } else {
        assert(!lex_at(t, s, s).in_str && !lex_at(t, s, s).esc);
    }
    assert(lex_at(t, s, j) == lex_next(lex_at(t, s, j - 1), t[j - 1]));
}

/// No character of such a literal is code.
proof fn lemma_quoted_not_code(t: Seq<char>, s: int, e: int)
    requires
        0 <= s < e <= t.len(),
        plain_string_literal(t.subrange(s, e)),
    ensures
        forall|j: int| s <= j < e ==> !#[trigger] code_at(t, s, j),
{
    let v = t.subrange(s, e);
    assert forall|j: int| s <= j < e implies !#[trigger] code_at(t, s, j) by {
        assert(t[j] == v[j - s]);
        if j > s {
            lemma_inside_quotes(t, s, e, j);
        }
    }
}

/// `[s, e)` of `t` is a word, a dot at `d`, and a field name, with whitespace
/// around the words at most.
pub open spec fn field_words_at(t: Seq<char>, s: int, e: int, d: int) -> bool {
    &&& 0 <= s <= d
    &&& d < e
    &&& e <= t.len()
    &&& t[d] == '.'
    &&& spaced_word(t, s, d)
    &&& spaced_word(t, d + 1, e)
}

/// Where the scan of such a field access finds its dot, and what the trims
/// around it hold.
proof fn lemma_field_shape(t: Seq<char>, s: int, e: int, d: int)
    requires
        field_words_at(t, s, e, d),
    ensures
        last_hit(t, s, d, '.'),
        forall|j: int| d < j < e ==> !#[trigger] last_hit(t, s, j, '.'),
        forall|x: int, y: int|
            #[trigger] is_trim_of(t, s, d, x, y) ==> x < y && is_ident(t.subrange(x, y)) && t.subrange(x, y)
                == word_of(t, s, d),
        forall|x: int, y: int|
            #[trigger] is_trim_of(t, d + 1, e, x, y) ==> x < y && is_ident(t.subrange(x, y)) && t.subrange(x, y)
                == word_of(t, d + 1, e) && t[y - 1] != ')' && !all_digits(t.subrange(x, y)),
{
    let w1 = word_of(t, s, d);
    assert(is_ident(w1) && trimmed_text(t, s, d, w1));
    let (x1, y1) = choose|x1: int, y1: int| #[trigger] is_trim_of(t, s, d, x1, y1) && w1 == t.subrange(x1, y1);
    lemma_spaced_word(t, s, d, x1, y1);
    let w2 = word_of(t, d + 1, e);
    assert(is_ident(w2) && trimmed_text(t, d + 1, e, w2));
    let (x2, y2) = choose|x2: int, y2: int| #[trigger] is_trim_of(t, d + 1, e, x2, y2) && w2 == t.subrange(x2, y2);
    lemma_spaced_word(t, d + 1, e, x2, y2);
    lemma_plain_scan(t, s, d, d);
    assert(code_at(t, s, d));
    assert forall|j: int| d < j < e implies !#[trigger] last_hit(t, s, j, '.') by {
        assert(plain_char(t[j]));
    }
    assert forall|x: int, y: int| #[trigger] is_trim_of(t, s, d, x, y) implies x < y && is_ident(t.subrange(x, y))
        && t.subrange(x, y) == word_of(t, s, d) by {
        lemma_spaced_word(t, s, d, x, y);
    }
    assert forall|x: int, y: int| #[trigger] is_trim_of(t, d + 1, e, x, y) implies x < y && is_ident(t.subrange(x, y))
        && t.subrange(x, y) == word_of(t, d + 1, e) && t[y - 1] != ')' && !all_digits(t.subrange(x, y)) by {
        lemma_spaced_word(t, d + 1, e, x, y);
        lemma_ident_chars(t, x, y);
        assert(t.subrange(x, y)[0] == t[x]);
    }
}

fn parse_term(src: &Source, s: usize, e: usize, line_no: usize, column: usize) -> (r: Result<
    Expr,
    Diagnostic,
>)
    requires
        s <= e <= src.text@.len(),
    ensures
        r matches Err(d) ==> d.kind@ == "parse"@,
        is_ident(src.text@.subrange(s as int, e as int)) ==> (r matches Ok(x) && word_expr(
            src.text@.subrange(s as int, e as int),
            x,
        )),
        parse_i64_spec(src.text@.subrange(s as int, e as int)) matches Some(n) ==> (r matches Ok(x)
            && x == Expr::Literal(Literal::Int(n))),
        plain_string_literal(src.text@.subrange(s as int, e as int)) ==> (r is Ok <==> json_string_value(
            src.text@.subrange(s as int, e as int),
        ) is Some),
        plain_string_literal(src.text@.subrange(s as int, e as int)) ==> (r matches Ok(x) ==> (x matches Expr::Literal(
            Literal::String(w),
        ) && json_string_value(src.text@.subrange(s as int, e as int)) == Some(w@))),
        forall|d: int|
            #[trigger] field_words_at(src.text@, s as int, e as int, d) ==> (r matches Ok(Expr::FieldAccess { base, field, .. })
                && word_expr(word_of(src.text@, s as int, d), *base) && field@ == word_of(src.text@, d + 1, e as int)),
    decreases e - s, 0int,
{
    let t = &src.text;
    proof {
        assert forall|d: int| #[trigger] field_words_at(t@, s as int, e as int, d) implies {
            &&& last_hit(t@, s as int, d, '.')
            &&& forall|j: int| d < j < e ==> !#[trigger] last_hit(t@, s as int, j, '.')
            &&& forall|x: int, y: int|
                #[trigger] is_trim_of(t@, s as int, d, x, y) ==> x < y && is_ident(t@.subrange(x, y)) && t@.subrange(x, y)
                    == word_of(t@, s as int, d)
            &&& forall|x: int, y: int|
                #[trigger] is_trim_of(t@, d + 1, e as int, x, y) ==> x < y && is_ident(t@.subrange(x, y)) && t@.subrange(x, y)
                    == word_of(t@, d + 1, e as int) && t@[y - 1] != ')' && !all_digits(t@.subrange(x, y))
        } by {
            lemma_field_shape(t@, s as int, e as int, d);
        }
        reveal_strlit("true");
        reveal_strlit("false");
        let v = t@.subrange(s as int, e as int);
        if plain_string_literal(v) {
            lemma_quoted_not_code(t@, s as int, e as int);
            assert(t@[s as int] == v[0]);
            assert(t@[e - 1] == v[v.len() - 1]);
        }
        if is_ident(v) {
            lemma_ident_chars(t@, s as int, e as int);
        }
        if parse_i64_spec(v) is Some {
            let signed = v.len() > 0 && (v[0] == '-' || v[0] == '+');
            let body = if signed {
                v.drop_first()
            } else {
                v
            };
            assert forall|j: int| s <= j < e implies word_char(#[trigger] t@[j]) by {
                assert(t@[j] == v[j - s]);
                if signed && j > s {
                    assert(body[j - s - 1] == v[j - s]);
                }
            }
            assert(word_char(t@[s as int]) && word_char(t@[e - 1]));
            assert(v != "true"@ && v != "false"@) by {
                if v == "true"@ || v == "false"@ {
                    assert(v[0] == 't' || v[0] == 'f');
                    assert(is_digit(body[0]));
                }
            }
        }
    }
    if s == e {
        return Err(perr(src, "expression is empty", line_no, column));
    }
    if let Some(dot) = find_last_top_level_char(t, s, e, '.') {
        let (ba, bb) = trim(t, s, dot);
        let (fa, fb) = trim(t, dot + 1, e);
        proof {
            assert forall|d: int| #[trigger] field_words_at(t@, s as int, e as int, d) implies d == dot by {
                if d < dot {
                    assert(!last_hit(t@, s as int, dot as int, '.'));
                }
                if dot < d {
                    assert(!last_hit(t@, s as int, d, '.'));
                }
            }
        }
        if ba == bb || fa == fb {
            return Err(perr(src, "field access is incomplete", line_no, column));
        }
        let fcol = column.saturating_add(byte_offset(t, s, dot)).saturating_add(1);
        if t[fb - 1] == ')' && find_top_level_char(t, fa, fb, '(').is_some() {
            return Err(perr(src, "stage1 bootstrap does not support namespace-qualified calls", line_no, column));
        }
        if all_ascii_digits(t, fa, fb) {
            let index = match parse_usize_digits(t, fa, fb) {
                Some(v) => v,
                None => return Err(
                    perr_s(src, quoted_msg("invalid tuple index ", t, fa, fb, ""), line_no, fcol),
                ),
            };
            return match parse_term(src, ba, bb, line_no, column) {
                Ok(base) => Ok(Expr::TupleIndex { base: Box::new(base), index, line: line_no, column }),
                Err(d) => Err(d),
            };
        }
        if let Err(d) = validate_ident(src, fa, fb, line_no, fcol) {
            return Err(d);
        }
        return match parse_term(src, ba, bb, line_no, column) {
            Ok(base) => Ok(
                Expr::FieldAccess {
                    base: Box::new(base),
                    field: string_from(t, fa, fb),
                    line: line_no,
                    column,
                },
            ),
            Err(d) => Err(d),
        };
    }
    if t[e - 1] == ']' {
        if let Some(ob) = find_last_top_level_char(t, s, e, '[') {
            if let Some(close) = find_matching_square(t, ob, e) {
                if close == e - 1 && ob < close {
                    let (ba, bb) = trim(t, s, ob);
                    let (ia, ib) = trim(t, ob + 1, e - 1);
                    let ob_off = byte_offset(t, s, ob);
                    if ba == bb {
                        // An array literal; handled below.
                    } else if let Some(colon) = find_top_level_char(t, ia, ib, ':') {
                        let (sa, sb) = trim(t, ia, colon);
                        let (ea, eb) = trim(t, colon + 1, ib);
                        let base = match parse_term(src, ba, bb, line_no, column) {
                            Ok(x) => x,
                            Err(d) => return Err(d),
                        };
                        let start = if sa == sb {
                            None
                        } else {
                            match parse_expr(
                                src,
                                sa,
                                sb,
                                line_no,
                                column.saturating_add(ob_off).saturating_add(1),
                            ) {
                                Ok(x) => Some(Box::new(x)),
                                Err(d) => return Err(d),
                            }
                        };
                        let end = if ea == eb {
                            None
                        } else {
                            let c_off = byte_offset(t, ia, colon);
                            match parse_expr(
                                src,
                                ea,
                                eb,
                                line_no,
                                column.saturating_add(ob_off).saturating_add(c_off).saturating_add(
                                    2,
                                ),
                            ) {
                                Ok(x) => Some(Box::new(x)),
                                Err(d) => return Err(d),
                            }
                        };
                        return Ok(
                            Expr::Slice { base: Box::new(base), start, end, line: line_no, column },
                        );
                    } else if ia == ib {
                        return Err(perr(src, "array index is incomplete", line_no, column));
                    } else {
                        let base = match parse_term(src, ba, bb, line_no, column) {
                            Ok(x) => x,
                            Err(d) => return Err(d),
                        };
                        let index = match parse_expr(
                            src,
                            ia,
                            ib,
                            line_no,
                            column.saturating_add(ob_off).saturating_add(1),
                        ) {
                            Ok(x) => x,
                            Err(d) => return Err(d),
                        };
                        return Ok(
                            Expr::Index {
                                base: Box::new(base),
                                index: Box::new(index),
                                line: line_no,
                                column,
                            },
                        );
                    }
                }
            }
        }
    }
    if is_wrapped_in_parens(t, s, e) {
        let (ia, ib) = trim(t, s + 1, e - 1);
        let items = split_top_level(t, ia, ib, ',');
        if items.len() > 1 && ia < ib {
            return match parse_tuple_literal_elements(src, ia, ib, line_no, column.saturating_add(1)) {
                Ok(elements) => Ok(Expr::TupleLiteral { elements, line: line_no, column }),
                Err(d) => Err(d),
            };
        }
        return parse_expr(src, s + 1, e - 1, line_no, column.saturating_add(1));
    }
    if is_wrapped_in_braces(t, s, e) {
        return match parse_map_literal_entries(src, s + 1, e - 1, line_no, column.saturating_add(1)) {
            Ok(entries) => Ok(Expr::MapLiteral { entries, line: line_no, column }),
            Err(d) => Err(d),
        };
    }
    if is_wrapped_in_squares(t, s, e) {
        return match parse_array_literal_elements(src, s + 1, e - 1, line_no, column) {
            Ok(elements) => Ok(Expr::ArrayLiteral { elements, line: line_no, column }),
            Err(d) => Err(d),
        };
    }
    if let Some(open_brace) = braced_shape(t, s, e) {
        let (na, nb) = trim(t, s, open_brace);
        if na < nb {
            if let Err(d) = validate_ident(src, na, nb, line_no, column) {
                return Err(d);
            }
            return match parse_struct_literal_fields(src, open_brace + 1, e - 1, line_no, column) {
                Ok(fields) => Ok(
                    Expr::StructLiteral { name: string_from(t, na, nb), fields, line: line_no, column },
                ),
                Err(d) => Err(d),
            };
        }
    }
    if t[s] == '"' {
        return match json_string(t, s, e) {
            Some(v) => Ok(Expr::Literal(Literal::String(v))),
            None => Err(perr(src, "invalid string literal", line_no, column)),
        };
    }
    if is_lit(t, s, e, "true") {
        return Ok(Expr::Literal(Literal::Bool(true)));
    }
    if is_lit(t, s, e, "false") {
        return Ok(Expr::Literal(Literal::Bool(false)));
    }
    if let Some(v) = parse_i64(t, s, e) {
        return Ok(Expr::Literal(Literal::Int(v)));
    }
    if t[e - 1] == ')' {
        if let Some(open_paren) = find_top_level_char(t, s, e, '(') {
            let (na, nb) = trim(t, s, open_paren);
            if na < nb && open_paren < e - 1 {
                if let Err(d) = validate_ident(src, na, nb, line_no, column) {
                    return Err(d);
                }
                return match parse_call_args(src, open_paren + 1, e - 1, line_no, column) {
                    Ok(args) => Ok(
                        Expr::Call { name: string_from(t, na, nb), args, line: line_no, column },
                    ),
                    Err(d) => Err(d),
                };
            }
        }
    }
    if let Err(d) = validate_ident(src, s, e, line_no, column) {
        return Err(d);
    }
    Ok(Expr::VarRef { name: string_from(t, s, e), line: line_no, column })
}

/// The shared loop of the comma-separated expression lists: each element is
/// trimmed, must not be empty, and is parsed as an expression.
fn parse_expr_list(
    src: &Source,
    s: usize,
    e: usize,
    line_no: usize,
    column: usize,
    angles: bool,
    empty_msg: &str,
) -> (r: Result<Vec<Expr>, Diagnostic>)
    requires
        s <= e <= src.text@.len(),
    ensures
        r matches Err(d) ==> d.kind@ == "parse"@,
        r matches Ok(v) ==> list_shape(src.text@, s as int, e as int, angles, v@.len()),
    decreases e - s, 3int,
{
    let t = &src.text;
    let parts = if angles {
        split_top_level_type(t, s, e, ',')
    } else {
        split_top_level(t, s, e, ',')
    };
    proof {
        lemma_split_parts_shorter(parts@, t@, s as int, e as int, ',', angles);
    }
    let mut elements: Vec<Expr> = Vec::new();
    let mut k: usize = 0;
    while k < parts.len()
        invariant
            k <= parts@.len(),
            s <= e <= t@.len(),
            t@ == src.text@,
            forall|j: int| 0 <= j < parts@.len() ==> s <= (#[trigger] parts@[j]).0 <= parts@[j].1 <= e,
            is_split(parts@, t@, s as int, e as int, ',', angles),
            elements@.len() == k,
            forall|j: int|
                0 <= j < k ==> !blank_range(t@, (#[trigger] parts@[j]).0 as int, parts@[j].1 as int),
        decreases parts@.len() - k,
    {
        let (pa, pb) = trim(t, parts[k].0, parts[k].1);
        if pa == pb {
            return Err(perr(src, empty_msg, line_no, column));
        }
        assert(!is_ws(t@[pa as int]));
        match parse_expr(src, pa, pb, line_no, column) {
            Ok(x) => elements.push(x),
            Err(d) => return Err(d),
        }
        k = k + 1;
    }
    assert(is_split(parts@, t@, s as int, e as int, ',', angles));
    Ok(elements)
}

fn parse_array_literal_elements(src: &Source, s: usize, e: usize, line_no: usize, column: usize) -> (r:
    Result<Vec<Expr>, Diagnostic>)
    requires
        s <= e <= src.text@.len(),
    ensures
        r matches Err(d) ==> d.kind@ == "parse"@,
        blank_range(src.text@, s as int, e as int) ==> (r matches Ok(v) && v@.len() == 0),
        r matches Ok(v) ==> v@.len() == 0 || list_shape(src.text@, s as int, e as int, true, v@.len()),
    decreases e - s, 4int,
{
    let (a, b) = trim(&src.text, s, e);
    if a == b {
        return Ok(Vec::new());
    }
    parse_expr_list(src, s, e, line_no, column, true, "array literal element is empty")
}

fn parse_tuple_literal_elements(src: &Source, s: usize, e: usize, line_no: usize, column: usize) -> (r:
    Result<Vec<Expr>, Diagnostic>)
    requires
        s <= e <= src.text@.len(),
    ensures
        r matches Err(d) ==> d.kind@ == "parse"@,
        r matches Ok(v) ==> list_shape(src.text@, s as int, e as int, false, v@.len()),
    decreases e - s, 4int,
{
    parse_expr_list(src, s, e, line_no, column, false, "tuple literal element is empty")
}

fn parse_call_args(src: &Source, s: usize, e: usize, line_no: usize, column: usize) -> (r: Result<
    Vec<Expr>,
    Diagnostic,
>)
    requires
        s <= e <= src.text@.len(),
    ensures
        r matches Err(d) ==> d.kind@ == "parse"@,
        blank_range(src.text@, s as int, e as int) ==> (r matches Ok(v) && v@.len() == 0),
        r matches Ok(v) ==> v@.len() == 0 || list_shape(src.text@, s as int, e as int, false, v@.len()),
    decreases e - s, 4int,
{
    let (a, b) = trim(&src.text, s, e);
    if a == b {
        return Ok(Vec::new());
    }
    parse_expr_list(src, s, e, line_no, column, false, "call argument is empty")
}

fn parse_map_literal_entries(src: &Source, s: usize, e: usize, line_no: usize, column: usize) -> (r:
    Result<Vec<MapEntry>, Diagnostic>)
    requires
        s <= e <= src.text@.len(),
    ensures
        r matches Err(d) ==> d.kind@ == "parse"@,
        blank_range(src.text@, s as int, e as int) ==> (r matches Ok(v) && v@.len() == 0),
        r matches Ok(v) ==> v@.len() == 0 || list_shape(src.text@, s as int, e as int, false, v@.len()),
    decreases e - s, 4int,
{
    let t = &src.text;
    let mut entries: Vec<MapEntry> = Vec::new();
    let (a, b) = trim(t, s, e);
    if a == b {
        assert(blank_range(t@, s as int, e as int));
        return Ok(entries);
    }
    assert(!is_ws(t@[a as int]));
    let parts = split_top_level(t, s, e, ',');
    proof {
        lemma_split_parts_shorter(parts@, t@, s as int, e as int, ',', false);
    }
    let mut k: usize = 0;
    while k < parts.len()
        invariant
            k <= parts@.len(),
            s <= e <= t@.len(),
            t@ == src.text@,
            forall|j: int| 0 <= j < parts@.len() ==> s <= (#[trigger] parts@[j]).0 <= parts@[j].1 <= e,
            is_split(parts@, t@, s as int, e as int, ',', false),
            forall|j: int|
                0 <= j < k ==> !blank_range(t@, (#[trigger] parts@[j]).0 as int, parts@[j].1 as int),
            entries@.len() == k,
            !blank_range(t@, s as int, e as int),
        decreases parts@.len() - k,
    {
        let (pa, pb) = trim(t, parts[k].0, parts[k].1);
        if pa == pb {
            return Err(perr(src, "map literal entry is empty", line_no, column));
        }
        assert(!is_ws(t@[pa as int]));
        let colon = match find_top_level_char(t, pa, pb, ':') {
            Some(c) => c,
            None => return Err(perr(src, "map literal entry is missing ':'", line_no, column)),
        };
        let (ka, kb) = trim(t, pa, colon);
        let (va, vb) = trim(t, colon + 1, pb);
        let key = match parse_expr(src, ka, kb, line_no, column) {
            Ok(x) => x,
            Err(d) => return Err(d),
        };
        let vcol = column.saturating_add(byte_offset(t, pa, colon)).saturating_add(1);
        let value = match parse_expr(src, va, vb, line_no, vcol) {
            Ok(x) => x,
            Err(d) => return Err(d),
        };
        entries.push(MapEntry { key, value, line: line_no, column });
        k = k + 1;
    }
    assert(is_split(parts@, t@, s as int, e as int, ',', false));
    Ok(entries)
}

fn parse_struct_literal_fields(src: &Source, s: usize, e: usize, line_no: usize, column: usize) -> (r:
    Result<Vec<StructFieldValue>, Diagnostic>)
    requires
        s <= e <= src.text@.len(),
    ensures
        r matches Err(d) ==> d.kind@ == "parse"@,
        blank_range(src.text@, s as int, e as int) ==> (r matches Ok(v) && v@.len() == 0),
        r matches Ok(v) ==> v@.len() == 0 || list_shape(src.text@, s as int, e as int, true, v@.len()),
        r matches Ok(v) ==> forall|k: int| 0 <= k < v@.len() ==> is_ident((#[trigger] v@[k]).name@),
    decreases e - s, 4int,
{
    let t = &src.text;
    let mut fields: Vec<StructFieldValue> = Vec::new();
    let (a, b) = trim(t, s, e);
    if a == b {
        assert(blank_range(t@, s as int, e as int));
        return Ok(fields);
    }
    assert(!is_ws(t@[a as int]));
    let parts = split_top_level_type(t, s, e, ',');
    proof {
        lemma_split_parts_shorter(parts@, t@, s as int, e as int, ',', true);
    }
    let mut k: usize = 0;
    while k < parts.len()
        invariant
            k <= parts@.len(),
            s <= e <= t@.len(),
            t@ == src.text@,
            forall|j: int| 0 <= j < parts@.len() ==> s <= (#[trigger] parts@[j]).0 <= parts@[j].1 <= e,
            is_split(parts@, t@, s as int, e as int, ',', true),
            forall|j: int|
                0 <= j < k ==> !blank_range(t@, (#[trigger] parts@[j]).0 as int, parts@[j].1 as int),
            fields@.len() == k,
            !blank_range(t@, s as int, e as int),
            forall|j: int| 0 <= j < k ==> is_ident((#[trigger] fields@[j]).name@),
        decreases parts@.len() - k,
    {
        let (pa, pb) = trim(t, parts[k].0, parts[k].1);
        if pa == pb {
            return Err(perr(src, "struct literal field is empty", line_no, column));
        }
        assert(!is_ws(t@[pa as int]));
        let colon = match find_top_level_char(t, pa, pb, ':') {
            Some(c) => c,
            None => return Err(perr(src, "struct literal field is missing ':'", line_no, column)),
        };
        let (na, nb) = trim(t, pa, colon);
        if let Err(d) = validate_ident(src, na, nb, line_no, column) {
            return Err(d);
        }
        let (va, vb) = trim(t, colon + 1, pb);
        let vcol = column.saturating_add(byte_offset(t, pa, colon)).saturating_add(1);
        let expr = match parse_expr(src, va, vb, line_no, vcol) {
            Ok(x) => x,
            Err(d) => return Err(d),
        };
        fields.push(StructFieldValue { name: string_from(t, na, nb), expr, line: line_no, column });
        k = k + 1;
    }
    assert(is_split(parts@, t@, s as int, e as int, ',', true));
    Ok(fields)
}

} // verus!
