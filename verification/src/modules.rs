//! Flattening a package's modules into one program: every declaration gets a
//! name qualified by its module, each module sees its own declarations and
//! the public ones of the modules it imports under their short names, and a
//! private declaration of an imported module cannot be named.
use vstd::prelude::*;
use crate::diagnostics::Diagnostic;
use crate::syntax::{self, TypeName};
use crate::text::{cat, cat3, debug_string, string_is};

verus! {

/// A name map: short names as a module writes them, with the qualified names
/// they stand for.
pub type NameMap = Vec<(String, String)>;

pub open spec fn map_binds(m: Seq<(String, String)>, k: Seq<char>, v: Seq<char>) -> bool {
    exists|j: int| 0 <= j < m.len() && (#[trigger] m[j]).0@ == k && m[j].1@ == v
}

pub open spec fn map_has_key(m: Seq<(String, String)>, k: Seq<char>) -> bool {
    exists|j: int| 0 <= j < m.len() && (#[trigger] m[j]).0@ == k
}

pub open spec fn names_have(s: Seq<String>, k: Seq<char>) -> bool {
    exists|j: int| 0 <= j < s.len() && (#[trigger] s[j])@ == k
}

/// `result` is what `name` stands for under `m`: its binding, or the name
/// itself where `m` has none.
pub open spec fn renamed(m: Seq<(String, String)>, name: Seq<char>, result: Seq<char>) -> bool {
    map_binds(m, name, result) || (!map_has_key(m, name) && result == name)
}

/// A name that a module may not use: a private declaration of an imported
/// module that no visible declaration shadows.
pub open spec fn hidden(m: Seq<(String, String)>, private: Seq<String>, name: Seq<char>) -> bool {
    !map_has_key(m, name) && names_have(private, name)
}

fn map_lookup<'a>(m: &'a NameMap, k: &String) -> (r: Option<&'a String>)
    ensures
        r matches Some(v) ==> map_binds(m@, k@, v@),
        r is None ==> !map_has_key(m@, k@),
{
    let mut i: usize = 0;
    while i < m.len()
        invariant
            i <= m@.len(),
            forall|j: int| 0 <= j < i ==> (#[trigger] m@[j]).0@ != k@,
        decreases m@.len() - i,
    {
        if m[i].0 == *k {
            return Some(&m[i].1);
        }
        i = i + 1;
    }
    None
}

fn has_name(s: &Vec<String>, k: &String) -> (b: bool)
    ensures
        b == names_have(s@, k@),
{
    let mut i: usize = 0;
    while i < s.len()
        invariant
            i <= s@.len(),
            forall|j: int| 0 <= j < i ==> (#[trigger] s@[j])@ != k@,
        decreases s@.len() - i,
    {
        if s[i] == *k {
            return true;
        }
        i = i + 1;
    }
    false
}

/// What `name` stands for under `m`.
fn rename(m: &NameMap, name: &String) -> (r: String)
    ensures
        renamed(m@, name@, r@),
{
    match map_lookup(m, name) {
        Some(v) => v.clone(),
        None => name.clone(),
    }
}

fn is_hidden(m: &NameMap, private: &Vec<String>, name: &String) -> (b: bool)
    ensures
        b == hidden(m@, private@, name@),
{
    match map_lookup(m, name) {
        Some(_) => false,
        None => has_name(private, name),
    }
}

fn import_error(msg: String, source_path: &str, line: usize, column: usize) -> (d: Diagnostic)
    ensures
        d.kind@ == "import"@,
{
    Diagnostic::new("import", msg).with_path(String::from_str(source_path)).with_span(line, column)
}

// ----- Types ---------------------------------------------------------------------

/// `r` is `t` with every named type replaced by what it stands for under `m`.
pub open spec fn type_renamed(t: &TypeName, r: &TypeName, m: Seq<(String, String)>) -> bool
    decreases t,
{
    match (t, r) {
        (TypeName::Int, TypeName::Int) => true,
        (TypeName::Bool, TypeName::Bool) => true,
        (TypeName::String, TypeName::String) => true,
        (TypeName::Named(a), TypeName::Named(b)) => renamed(m, a@, b@),
        (TypeName::Slice(a), TypeName::Slice(b)) => type_renamed(a, b, m),
        (TypeName::MutSlice(a), TypeName::MutSlice(b)) => type_renamed(a, b, m),
        (TypeName::Option(a), TypeName::Option(b)) => type_renamed(a, b, m),
        (TypeName::Result(a1, a2), TypeName::Result(b1, b2)) => type_renamed(a1, b1, m)
            && type_renamed(a2, b2, m),
        (TypeName::Tuple(xs), TypeName::Tuple(ys)) => xs.len() == ys.len() && forall|i: int|
            0 <= i < xs.len() ==> type_renamed(&(#[trigger] xs@[i]), &ys@[i], m),
        (TypeName::Dict(a1, a2), TypeName::Dict(b1, b2)) => type_renamed(a1, b1, m) && type_renamed(
            a2,
            b2,
            m,
        ),
        (TypeName::Array(a), TypeName::Array(b)) => type_renamed(a, b, m),
        _ => false,
    }
}

/// Whether `t` names, anywhere in it, a type the module may not use.
pub open spec fn type_hidden(t: &TypeName, m: Seq<(String, String)>, private: Seq<String>) -> bool
    decreases t,
{
    match t {
        TypeName::Named(a) => hidden(m, private, a@),
        TypeName::Slice(a) => type_hidden(a, m, private),
        TypeName::MutSlice(a) => type_hidden(a, m, private),
        TypeName::Option(a) => type_hidden(a, m, private),
        TypeName::Array(a) => type_hidden(a, m, private),
        TypeName::Result(a, b) => type_hidden(a, m, private) || type_hidden(b, m, private),
        TypeName::Dict(a, b) => type_hidden(a, m, private) || type_hidden(b, m, private),
        TypeName::Tuple(xs) => exists|i: int|
            0 <= i < xs.len() && type_hidden(&(#[trigger] xs@[i]), m, private),
        _ => false,
    }
}

pub open spec fn rewrite_ok<T>(r: Result<T, Diagnostic>) -> bool {
    r matches Err(d) ==> d.kind@ == "import"@
}

/// Replaces the named types in `ty` by the qualified names visible to the
/// module; naming a private type of an imported module is an error.
#[verifier::loop_isolation(false)]
pub fn rewrite_type_name(
    ty: &TypeName,
    visible_types: &NameMap,
    private_types: &Vec<String>,
    source_path: &str,
    line: usize,
    column: usize,
) -> (r: Result<TypeName, Diagnostic>)
    ensures
        rewrite_ok(r),
        r is Ok <==> !type_hidden(ty, visible_types@, private_types@),
        r matches Ok(t) ==> type_renamed(ty, &t, visible_types@),
    decreases ty,
{
    match ty {
        TypeName::Int => Ok(TypeName::Int),
        TypeName::Bool => Ok(TypeName::Bool),
        TypeName::String => Ok(TypeName::String),
        TypeName::Named(name) => {
            if is_hidden(visible_types, private_types, name) {
                return Err(
                    import_error(
                        cat3("type ", debug_string(name.as_str()).as_str(), " is not exported by an imported module"),
                        source_path,
                        line,
                        column,
                    ),
                );
            }
            Ok(TypeName::Named(rename(visible_types, name)))
        },
        TypeName::Option(inner) => match rewrite_type_name(
            inner,
            visible_types,
            private_types,
            source_path,
            line,
            column,
        ) {
            Ok(t) => Ok(TypeName::Option(Box::new(t))),
            Err(d) => Err(d),
        },
        TypeName::Slice(inner) => match rewrite_type_name(
            inner,
            visible_types,
            private_types,
            source_path,
            line,
            column,
        ) {
            Ok(t) => Ok(TypeName::Slice(Box::new(t))),
            Err(d) => Err(d),
        },
        TypeName::MutSlice(inner) => match rewrite_type_name(
            inner,
            visible_types,
            private_types,
            source_path,
            line,
            column,
        ) {
            Ok(t) => Ok(TypeName::MutSlice(Box::new(t))),
            Err(d) => Err(d),
        },
        TypeName::Array(inner) => match rewrite_type_name(
            inner,
            visible_types,
            private_types,
            source_path,
            line,
            column,
        ) {
            Ok(t) => Ok(TypeName::Array(Box::new(t))),
            Err(d) => Err(d),
        },
        TypeName::Result(a, b) => {
            let x = match rewrite_type_name(a, visible_types, private_types, source_path, line, column) {
                Ok(t) => t,
                Err(d) => return Err(d),
            };
            let y = match rewrite_type_name(b, visible_types, private_types, source_path, line, column) {
                Ok(t) => t,
                Err(d) => return Err(d),
            };
            Ok(TypeName::Result(Box::new(x), Box::new(y)))
        },
        TypeName::Dict(a, b) => {
            let x = match rewrite_type_name(a, visible_types, private_types, source_path, line, column) {
                Ok(t) => t,
                Err(d) => return Err(d),
            };
            let y = match rewrite_type_name(b, visible_types, private_types, source_path, line, column) {
                Ok(t) => t,
                Err(d) => return Err(d),
            };
            Ok(TypeName::Dict(Box::new(x), Box::new(y)))
        },
        TypeName::Tuple(elements) => {
            let mut out: Vec<TypeName> = Vec::new();
            let mut i: usize = 0;
            while i < elements.len()
                invariant
                    i <= elements@.len(),
                    out@.len() == i,
                    forall|j: int|
                        0 <= j < i ==> type_renamed(&elements@[j], &(#[trigger] out@[j]), visible_types@),
                    forall|j: int|
                        0 <= j < i ==> !type_hidden(&(#[trigger] elements@[j]), visible_types@, private_types@),
                decreases elements@.len() - i,
            {
                proof {
                    assert(decreases_to!(elements => elements[i as int]));
                }
                match rewrite_type_name(&elements[i], visible_types, private_types, source_path, line, column) {
                    Ok(t) => out.push(t),
                    Err(d) => return Err(d),
                }
                i = i + 1;
            }
            Ok(TypeName::Tuple(out))
        },
    }
}

// ----- Expressions and statements ------------------------------------------------------

pub open spec fn opt_expr_renamed(
    a: &Option<Box<syntax::Expr>>,
    b: &Option<Box<syntax::Expr>>,
    vf: Seq<(String, String)>,
    vs: Seq<(String, String)>,
) -> bool
    decreases a,
{
    match (a, b) {
        (Some(x), Some(y)) => expr_renamed(x, y, vf, vs),
        (None, None) => true,
        _ => false,
    }
}

/// `r` is `e` with each called function renamed under `vf` and each struct
/// literal's struct renamed under `vs`; nothing else changes.
pub open spec fn expr_renamed(
    e: &syntax::Expr,
    r: &syntax::Expr,
    vf: Seq<(String, String)>,
    vs: Seq<(String, String)>,
) -> bool
    decreases e,
{
    match (e, r) {
        (syntax::Expr::Literal(a), syntax::Expr::Literal(b)) => a == b,
        (syntax::Expr::VarRef { name: a, .. }, syntax::Expr::VarRef { name: b, .. }) => a@ == b@,
        (syntax::Expr::Call { name: a, args: xs, .. }, syntax::Expr::Call { name: b, args: ys, .. }) => {
            &&& renamed(vf, a@, b@)
            &&& xs.len() == ys.len()
            &&& forall|i: int| 0 <= i < xs.len() ==> expr_renamed(&(#[trigger] xs@[i]), &ys@[i], vf, vs)
        },
        (syntax::Expr::BinaryAdd { lhs: a1, rhs: a2, .. }, syntax::Expr::BinaryAdd { lhs: b1, rhs: b2, .. }) => {
            expr_renamed(a1, b1, vf, vs) && expr_renamed(a2, b2, vf, vs)
        },
        (
            syntax::Expr::BinaryCompare { op: o1, lhs: a1, rhs: a2, .. },
            syntax::Expr::BinaryCompare { op: o2, lhs: b1, rhs: b2, .. },
        ) => o1 == o2 && expr_renamed(a1, b1, vf, vs) && expr_renamed(a2, b2, vf, vs),
        (
            syntax::Expr::StructLiteral { name: a, fields: xs, .. },
            syntax::Expr::StructLiteral { name: b, fields: ys, .. },
        ) => {
            &&& renamed(vs, a@, b@)
            &&& xs.len() == ys.len()
            &&& forall|i: int|
                0 <= i < xs.len() ==> (#[trigger] xs@[i]).name@ == ys@[i].name@ && expr_renamed(
                    &xs@[i].expr,
                    &ys@[i].expr,
                    vf,
                    vs,
                )
        },
        (syntax::Expr::FieldAccess { base: a, field: f, .. }, syntax::Expr::FieldAccess { base: b, field: g, .. }) => {
            f@ == g@ && expr_renamed(a, b, vf, vs)
        },
        (syntax::Expr::TupleLiteral { elements: xs, .. }, syntax::Expr::TupleLiteral { elements: ys, .. }) => {
            &&& xs.len() == ys.len()
            &&& forall|i: int| 0 <= i < xs.len() ==> expr_renamed(&(#[trigger] xs@[i]), &ys@[i], vf, vs)
        },
        (syntax::Expr::TupleIndex { base: a, index: i, .. }, syntax::Expr::TupleIndex { base: b, index: j, .. }) => {
            i == j && expr_renamed(a, b, vf, vs)
        },
        (syntax::Expr::MapLiteral { entries: xs, .. }, syntax::Expr::MapLiteral { entries: ys, .. }) => {
            &&& xs.len() == ys.len()
            &&& forall|i: int|
                0 <= i < xs.len() ==> expr_renamed(&(#[trigger] xs@[i]).key, &ys@[i].key, vf, vs)
                    && expr_renamed(&xs@[i].value, &ys@[i].value, vf, vs)
        },
        (syntax::Expr::ArrayLiteral { elements: xs, .. }, syntax::Expr::ArrayLiteral { elements: ys, .. }) => {
            &&& xs.len() == ys.len()
            &&& forall|i: int| 0 <= i < xs.len() ==> expr_renamed(&(#[trigger] xs@[i]), &ys@[i], vf, vs)
        },
        (
            syntax::Expr::Slice { base: a, start: s1, end: e1, .. },
            syntax::Expr::Slice { base: b, start: s2, end: e2, .. },
        ) => expr_renamed(a, b, vf, vs) && opt_expr_renamed(s1, s2, vf, vs) && opt_expr_renamed(
            e1,
            e2,
            vf,
            vs,
        ),
        (syntax::Expr::Index { base: a1, index: a2, .. }, syntax::Expr::Index { base: b1, index: b2, .. }) => {
            expr_renamed(a1, b1, vf, vs) && expr_renamed(a2, b2, vf, vs)
        },
        _ => false,
    }
}

pub open spec fn opt_expr_hidden(
    a: &Option<Box<syntax::Expr>>,
    vf: Seq<(String, String)>,
    vs: Seq<(String, String)>,
    pf: Seq<String>,
    pt: Seq<String>,
) -> bool
    decreases a,
{
    match a {
        Some(x) => expr_hidden(x, vf, vs, pf, pt),
        None => false,
    }
}

/// Whether `e` calls a private function, or builds a private struct, of an
/// imported module.
pub open spec fn expr_hidden(
    e: &syntax::Expr,
    vf: Seq<(String, String)>,
    vs: Seq<(String, String)>,
    pf: Seq<String>,
    pt: Seq<String>,
) -> bool
    decreases e,
{
    match e {
        syntax::Expr::Literal(_) | syntax::Expr::VarRef { .. } => false,
        syntax::Expr::Call { name, args, .. } => hidden(vf, pf, name@) || exists|i: int|
            0 <= i < args.len() && expr_hidden(&(#[trigger] args@[i]), vf, vs, pf, pt),
        syntax::Expr::BinaryAdd { lhs, rhs, .. } => expr_hidden(lhs, vf, vs, pf, pt) || expr_hidden(
            rhs,
            vf,
            vs,
            pf,
            pt,
        ),
        syntax::Expr::BinaryCompare { lhs, rhs, .. } => expr_hidden(lhs, vf, vs, pf, pt)
            || expr_hidden(rhs, vf, vs, pf, pt),
        syntax::Expr::StructLiteral { name, fields, .. } => hidden(vs, pt, name@) || exists|i: int|
            0 <= i < fields.len() && expr_hidden(&(#[trigger] fields@[i]).expr, vf, vs, pf, pt),
        syntax::Expr::FieldAccess { base, .. } => expr_hidden(base, vf, vs, pf, pt),
        syntax::Expr::TupleIndex { base, .. } => expr_hidden(base, vf, vs, pf, pt),
        syntax::Expr::TupleLiteral { elements, .. } => exists|i: int|
            0 <= i < elements.len() && expr_hidden(&(#[trigger] elements@[i]), vf, vs, pf, pt),
        syntax::Expr::ArrayLiteral { elements, .. } => exists|i: int|
            0 <= i < elements.len() && expr_hidden(&(#[trigger] elements@[i]), vf, vs, pf, pt),
        syntax::Expr::MapLiteral { entries, .. } => exists|i: int|
            0 <= i < entries.len() && (expr_hidden(&(#[trigger] entries@[i]).key, vf, vs, pf, pt)
                || expr_hidden(&entries@[i].value, vf, vs, pf, pt)),
        syntax::Expr::Slice { base, start, end, .. } => expr_hidden(base, vf, vs, pf, pt)
            || opt_expr_hidden(start, vf, vs, pf, pt) || opt_expr_hidden(end, vf, vs, pf, pt),
        syntax::Expr::Index { base, index, .. } => expr_hidden(base, vf, vs, pf, pt) || expr_hidden(
            index,
            vf,
            vs,
            pf,
            pt,
        ),
    }
}

/// The names a module sees while its code is rewritten.
pub struct Scope {
    pub functions: NameMap,
    pub structs: NameMap,
    pub types: NameMap,
    pub private_functions: Vec<String>,
    pub private_types: Vec<String>,
}

fn clone_literal(l: &syntax::Literal) -> (r: syntax::Literal)
    ensures
        r == *l,
{
    match l {
        syntax::Literal::Int(v) => syntax::Literal::Int(*v),
        syntax::Literal::Bool(v) => syntax::Literal::Bool(*v),
        syntax::Literal::String(v) => syntax::Literal::String(v.clone()),
    }
}

fn clone_strings(v: &Vec<String>) -> (r: Vec<String>)
    ensures
        r@ == v@,
{
    let mut out: Vec<String> = Vec::new();
    let mut i: usize = 0;
    while i < v.len()
        invariant
            i <= v@.len(),
            out@ == v@.subrange(0, i as int),
        decreases v@.len() - i,
    {
        out.push(v[i].clone());
        i = i + 1;
    }
    assert(v@.subrange(0, v@.len() as int) == v@);
    out
}

fn rewrite_exprs(xs: &Vec<syntax::Expr>, sc: &Scope, source_path: &str) -> (r: Result<
    Vec<syntax::Expr>,
    Diagnostic,
>)
    ensures
        rewrite_ok(r),
        r is Ok <==> !exists|i: int|
            0 <= i < xs@.len() && expr_hidden(
                &(#[trigger] xs@[i]),
                sc.functions@,
                sc.structs@,
                sc.private_functions@,
                sc.private_types@,
            ),
        r matches Ok(ys) ==> ys@.len() == xs@.len() && forall|i: int|
            0 <= i < xs@.len() ==> expr_renamed(&(#[trigger] xs@[i]), &ys@[i], sc.functions@, sc.structs@),
    decreases xs, 0nat,
{
    let mut out: Vec<syntax::Expr> = Vec::new();
    let mut i: usize = 0;
    while i < xs.len()
        invariant
            i <= xs@.len(),
            out@.len() == i,
            forall|j: int|
                0 <= j < i ==> expr_renamed(&xs@[j], &(#[trigger] out@[j]), sc.functions@, sc.structs@),
            forall|j: int|
                0 <= j < i ==> !expr_hidden(
                    &(#[trigger] xs@[j]),
                    sc.functions@,
                    sc.structs@,
                    sc.private_functions@,
                    sc.private_types@,
                ),
        decreases xs@.len() - i,
    {
        proof {
            assert(decreases_to!(xs => xs[i as int]));
        }
        match rewrite_expr(&xs[i], sc, source_path) {
            Ok(e) => out.push(e),
            Err(d) => return Err(d),
        }
        i = i + 1;
    }
    Ok(out)
}

fn rewrite_opt_expr(e: &Option<Box<syntax::Expr>>, sc: &Scope, source_path: &str) -> (r: Result<
    Option<Box<syntax::Expr>>,
    Diagnostic,
>)
    ensures
        rewrite_ok(r),
        r is Ok <==> !opt_expr_hidden(
            e,
            sc.functions@,
            sc.structs@,
            sc.private_functions@,
            sc.private_types@,
        ),
        r matches Ok(x) ==> opt_expr_renamed(e, &x, sc.functions@, sc.structs@),
    decreases e, 0nat,
{
    match e {
        Some(x) => match rewrite_expr(x, sc, source_path) {
            Ok(y) => Ok(Some(Box::new(y))),
            Err(d) => Err(d),
        },
        None => Ok(None),
    }
}

/// Renames the functions an expression calls and the structs it builds to
/// the qualified names the module sees; calling a private function, or
/// building a private struct, of an imported module is an error.
#[verifier::loop_isolation(false)]
pub fn rewrite_expr(expr: &syntax::Expr, sc: &Scope, source_path: &str) -> (r: Result<
    syntax::Expr,
    Diagnostic,
>)
    ensures
        rewrite_ok(r),
        r is Ok <==> !expr_hidden(
            expr,
            sc.functions@,
            sc.structs@,
            sc.private_functions@,
            sc.private_types@,
        ),
        r matches Ok(e) ==> expr_renamed(expr, &e, sc.functions@, sc.structs@),
    decreases expr, 1nat,
{
    match expr {
        syntax::Expr::Literal(l) => Ok(syntax::Expr::Literal(clone_literal(l))),
        syntax::Expr::VarRef { name, line, column } => Ok(
            syntax::Expr::VarRef { name: name.clone(), line: *line, column: *column },
        ),
        syntax::Expr::Call { name, args, line, column } => {
            if is_hidden(&sc.functions, &sc.private_functions, name) {
                return Err(
                    import_error(
                        cat3(
                            "function ",
                            debug_string(name.as_str()).as_str(),
                            " is not exported by an imported module",
                        ),
                        source_path,
                        *line,
                        *column,
                    ),
                );
            }
            let new_args = match rewrite_exprs(args, sc, source_path) {
                Ok(x) => x,
                Err(d) => return Err(d),
            };
            Ok(
                syntax::Expr::Call {
                    name: rename(&sc.functions, name),
                    args: new_args,
                    line: *line,
                    column: *column,
                },
            )
        },
        syntax::Expr::BinaryAdd { lhs, rhs, line, column } => {
            let a = match rewrite_expr(lhs, sc, source_path) {
                Ok(x) => x,
                Err(d) => return Err(d),
            };
            let b = match rewrite_expr(rhs, sc, source_path) {
                Ok(x) => x,
                Err(d) => return Err(d),
            };
            Ok(syntax::Expr::BinaryAdd { lhs: Box::new(a), rhs: Box::new(b), line: *line, column: *column })
        },
        syntax::Expr::BinaryCompare { op, lhs, rhs, line, column } => {
            let a = match rewrite_expr(lhs, sc, source_path) {
                Ok(x) => x,
                Err(d) => return Err(d),
            };
            let b = match rewrite_expr(rhs, sc, source_path) {
                Ok(x) => x,
                Err(d) => return Err(d),
            };
            Ok(
                syntax::Expr::BinaryCompare {
                    op: *op,
                    lhs: Box::new(a),
                    rhs: Box::new(b),
                    line: *line,
                    column: *column,
                },
            )
        },
        syntax::Expr::StructLiteral { name, fields, line, column } => {
            if is_hidden(&sc.structs, &sc.private_types, name) {
                return Err(
                    import_error(
                        cat3(
                            "struct ",
                            debug_string(name.as_str()).as_str(),
                            " is not exported by an imported module",
                        ),
                        source_path,
                        *line,
                        *column,
                    ),
                );
            }
            let mut out: Vec<syntax::StructFieldValue> = Vec::new();
            let mut i: usize = 0;
            while i < fields.len()
                invariant
                    i <= fields@.len(),
                    out@.len() == i,
                    forall|j: int|
                        0 <= j < i ==> (#[trigger] fields@[j]).name@ == out@[j].name@ && expr_renamed(
                            &fields@[j].expr,
                            &out@[j].expr,
                            sc.functions@,
                            sc.structs@,
                        ),
                    forall|j: int|
                        0 <= j < i ==> !expr_hidden(
                            &(#[trigger] fields@[j]).expr,
                            sc.functions@,
                            sc.structs@,
                            sc.private_functions@,
                            sc.private_types@,
                        ),
                decreases fields@.len() - i,
            {
                proof {
                    assert(decreases_to!(fields => fields[i as int]));
                }
                let f = &fields[i];
                match rewrite_expr(&f.expr, sc, source_path) {
                    Ok(e) => out.push(
                        syntax::StructFieldValue {
                            name: f.name.clone(),
                            expr: e,
                            line: f.line,
                            column: f.column,
                        },
                    ),
                    Err(d) => return Err(d),
                }
                i = i + 1;
            }
            Ok(
                syntax::Expr::StructLiteral {
                    name: rename(&sc.structs, name),
                    fields: out,
                    line: *line,
                    column: *column,
                },
            )
        },
        syntax::Expr::FieldAccess { base, field, line, column } => match rewrite_expr(
            base,
            sc,
            source_path,
        ) {
            Ok(b) => Ok(
                syntax::Expr::FieldAccess {
                    base: Box::new(b),
                    field: field.clone(),
                    line: *line,
                    column: *column,
                },
            ),
            Err(d) => Err(d),
        },
        syntax::Expr::TupleLiteral { elements, line, column } => match rewrite_exprs(
            elements,
            sc,
            source_path,
        ) {
            Ok(xs) => Ok(syntax::Expr::TupleLiteral { elements: xs, line: *line, column: *column }),
            Err(d) => Err(d),
        },
        syntax::Expr::TupleIndex { base, index, line, column } => match rewrite_expr(
            base,
            sc,
            source_path,
        ) {
            Ok(b) => Ok(
                syntax::Expr::TupleIndex {
                    base: Box::new(b),
                    index: *index,
                    line: *line,
                    column: *column,
                },
            ),
            Err(d) => Err(d),
        },
        syntax::Expr::MapLiteral { entries, line, column } => {
            let mut out: Vec<syntax::MapEntry> = Vec::new();
            let mut i: usize = 0;
            while i < entries.len()
                invariant
                    i <= entries@.len(),
                    out@.len() == i,
                    forall|j: int|
                        0 <= j < i ==> expr_renamed(
                            &(#[trigger] entries@[j]).key,
                            &out@[j].key,
                            sc.functions@,
                            sc.structs@,
                        ) && expr_renamed(&entries@[j].value, &out@[j].value, sc.functions@, sc.structs@),
                    forall|j: int|
                        0 <= j < i ==> !expr_hidden(
                            &(#[trigger] entries@[j]).key,
                            sc.functions@,
                            sc.structs@,
                            sc.private_functions@,
                            sc.private_types@,
                        ) && !expr_hidden(
                            &entries@[j].value,
                            sc.functions@,
                            sc.structs@,
                            sc.private_functions@,
                            sc.private_types@,
                        ),
                decreases entries@.len() - i,
            {
                proof {
                    assert(decreases_to!(entries => entries[i as int]));
                }
                let en = &entries[i];
                let k = match rewrite_expr(&en.key, sc, source_path) {
                    Ok(x) => x,
                    Err(d) => return Err(d),
                };
                let v = match rewrite_expr(&en.value, sc, source_path) {
                    Ok(x) => x,
                    Err(d) => return Err(d),
                };
                out.push(syntax::MapEntry { key: k, value: v, line: en.line, column: en.column });
                i = i + 1;
            }
            Ok(syntax::Expr::MapLiteral { entries: out, line: *line, column: *column })
        },
        syntax::Expr::ArrayLiteral { elements, line, column } => match rewrite_exprs(
            elements,
            sc,
            source_path,
        ) {
            Ok(xs) => Ok(syntax::Expr::ArrayLiteral { elements: xs, line: *line, column: *column }),
            Err(d) => Err(d),
        },
        syntax::Expr::Slice { base, start, end, line, column } => {
            let b = match rewrite_expr(base, sc, source_path) {
                Ok(x) => x,
                Err(d) => return Err(d),
            };
            let s = match rewrite_opt_expr(start, sc, source_path) {
                Ok(x) => x,
                Err(d) => return Err(d),
            };
            let e = match rewrite_opt_expr(end, sc, source_path) {
                Ok(x) => x,
                Err(d) => return Err(d),
            };
            Ok(syntax::Expr::Slice { base: Box::new(b), start: s, end: e, line: *line, column: *column })
        },
        syntax::Expr::Index { base, index, line, column } => {
            let b = match rewrite_expr(base, sc, source_path) {
                Ok(x) => x,
                Err(d) => return Err(d),
            };
            let i = match rewrite_expr(index, sc, source_path) {
                Ok(x) => x,
                Err(d) => return Err(d),
            };
            Ok(syntax::Expr::Index { base: Box::new(b), index: Box::new(i), line: *line, column: *column })
        },
    }
}

/// `r` is `s` with its expressions renamed as `expr_renamed` says and the
/// types its `let`s declare renamed under `vt`.
pub open spec fn stmt_renamed(
    s: &syntax::Stmt,
    r: &syntax::Stmt,
    vf: Seq<(String, String)>,
    vs: Seq<(String, String)>,
    vt: Seq<(String, String)>,
) -> bool
    decreases s,
{
    match (s, r) {
        (syntax::Stmt::Let { name: a, ty: t1, expr: e1, .. }, syntax::Stmt::Let { name: b, ty: t2, expr: e2, .. }) => {
            a@ == b@ && type_renamed(t1, t2, vt) && expr_renamed(e1, e2, vf, vs)
        },
        (syntax::Stmt::Print { expr: e1, .. }, syntax::Stmt::Print { expr: e2, .. }) => expr_renamed(
            e1,
            e2,
            vf,
            vs,
        ),
        (syntax::Stmt::Return { expr: e1, .. }, syntax::Stmt::Return { expr: e2, .. }) => expr_renamed(
            e1,
            e2,
            vf,
            vs,
        ),
        (
            syntax::Stmt::If { cond: c1, then_block: t1, else_block: x1, .. },
            syntax::Stmt::If { cond: c2, then_block: t2, else_block: x2, .. },
        ) => {
            &&& expr_renamed(c1, c2, vf, vs)
            &&& block_renamed(t1, t2, vf, vs, vt)
            &&& match (x1, x2) {
                (Some(a), Some(b)) => block_renamed(a, b, vf, vs, vt),
                (None, None) => true,
                _ => false,
            }
        },
        (syntax::Stmt::While { cond: c1, body: b1, .. }, syntax::Stmt::While { cond: c2, body: b2, .. }) => {
            expr_renamed(c1, c2, vf, vs) && block_renamed(b1, b2, vf, vs, vt)
        },
        (syntax::Stmt::Match { expr: e1, arms: a1, .. }, syntax::Stmt::Match { expr: e2, arms: a2, .. }) => {
            &&& expr_renamed(e1, e2, vf, vs)
            &&& a1.len() == a2.len()
            &&& forall|i: int|
                0 <= i < a1.len() ==> (#[trigger] a1@[i]).variant@ == a2@[i].variant@ && block_renamed(
                    &a1@[i].body,
                    &a2@[i].body,
                    vf,
                    vs,
                    vt,
                )
        },
        _ => false,
    }
}

pub open spec fn block_renamed(
    b: &Vec<syntax::Stmt>,
    r: &Vec<syntax::Stmt>,
    vf: Seq<(String, String)>,
    vs: Seq<(String, String)>,
    vt: Seq<(String, String)>,
) -> bool
    decreases b,
{
    b.len() == r.len() && forall|i: int|
        0 <= i < b.len() ==> stmt_renamed(&(#[trigger] b@[i]), &r@[i], vf, vs, vt)
}

/// Whether a statement, nested blocks included, names a private declaration
/// of an imported module.
pub open spec fn stmt_hidden(
    s: &syntax::Stmt,
    vf: Seq<(String, String)>,
    vs: Seq<(String, String)>,
    vt: Seq<(String, String)>,
    pf: Seq<String>,
    pt: Seq<String>,
) -> bool
    decreases s,
{
    match s {
        syntax::Stmt::Let { ty, expr, .. } => type_hidden(ty, vt, pt) || expr_hidden(expr, vf, vs, pf, pt),
        syntax::Stmt::Print { expr, .. } => expr_hidden(expr, vf, vs, pf, pt),
        syntax::Stmt::Return { expr, .. } => expr_hidden(expr, vf, vs, pf, pt),
        syntax::Stmt::If { cond, then_block, else_block, .. } => {
            ||| expr_hidden(cond, vf, vs, pf, pt)
            ||| block_hidden(then_block, vf, vs, vt, pf, pt)
            ||| match else_block {
                Some(b) => block_hidden(b, vf, vs, vt, pf, pt),
                None => false,
            }
        },
        syntax::Stmt::While { cond, body, .. } => expr_hidden(cond, vf, vs, pf, pt) || block_hidden(
            body,
            vf,
            vs,
            vt,
            pf,
            pt,
        ),
        syntax::Stmt::Match { expr, arms, .. } => expr_hidden(expr, vf, vs, pf, pt) || exists|i: int|
            0 <= i < arms.len() && block_hidden(&(#[trigger] arms@[i]).body, vf, vs, vt, pf, pt),
    }
}

pub open spec fn block_hidden(
    b: &Vec<syntax::Stmt>,
    vf: Seq<(String, String)>,
    vs: Seq<(String, String)>,
    vt: Seq<(String, String)>,
    pf: Seq<String>,
    pt: Seq<String>,
) -> bool
    decreases b,
{
    exists|i: int| 0 <= i < b.len() && stmt_hidden(&(#[trigger] b@[i]), vf, vs, vt, pf, pt)
}

/// With no private names in scope, no type is hidden.
proof fn lemma_type_not_hidden(t: &TypeName, m: Seq<(String, String)>, p: Seq<String>)
    requires
        p.len() == 0,
    ensures
        !type_hidden(t, m, p),
    decreases t,
{
    match t {
        TypeName::Slice(a) => lemma_type_not_hidden(a, m, p),
        TypeName::MutSlice(a) => lemma_type_not_hidden(a, m, p),
        TypeName::Option(a) => lemma_type_not_hidden(a, m, p),
        TypeName::Array(a) => lemma_type_not_hidden(a, m, p),
        TypeName::Result(a, b) => {
            lemma_type_not_hidden(a, m, p);
            lemma_type_not_hidden(b, m, p);
        },
        TypeName::Dict(a, b) => {
            lemma_type_not_hidden(a, m, p);
            lemma_type_not_hidden(b, m, p);
        },
        TypeName::Tuple(xs) => {
            assert forall|i: int| 0 <= i < xs.len() implies !type_hidden(&(#[trigger] xs@[i]), m, p) by {
                lemma_type_not_hidden(&xs@[i], m, p);
            }
        },
        _ => {},
    }
}

/// With no private names in scope, no expression is hidden.
proof fn lemma_expr_not_hidden(
    e: &syntax::Expr,
    vf: Seq<(String, String)>,
    vs: Seq<(String, String)>,
    pf: Seq<String>,
    pt: Seq<String>,
)
    requires
        pf.len() == 0,
        pt.len() == 0,
    ensures
        !expr_hidden(e, vf, vs, pf, pt),
    decreases e,
{
    match e {
        syntax::Expr::Call { name, args, .. } => {
            assert(!names_have(pf, name@));
            assert forall|i: int| 0 <= i < args.len() implies !expr_hidden(&(#[trigger] args@[i]), vf, vs, pf, pt) by {
                lemma_expr_not_hidden(&args@[i], vf, vs, pf, pt);
            }
        },
        syntax::Expr::BinaryAdd { lhs, rhs, .. } => {
            lemma_expr_not_hidden(lhs, vf, vs, pf, pt);
            lemma_expr_not_hidden(rhs, vf, vs, pf, pt);
        },
        syntax::Expr::BinaryCompare { lhs, rhs, .. } => {
            lemma_expr_not_hidden(lhs, vf, vs, pf, pt);
            lemma_expr_not_hidden(rhs, vf, vs, pf, pt);
        },
        syntax::Expr::StructLiteral { fields, .. } => {
            assert forall|i: int| 0 <= i < fields.len() implies !expr_hidden(&(#[trigger] fields@[i]).expr, vf, vs, pf, pt) by {
                lemma_expr_not_hidden(&fields@[i].expr, vf, vs, pf, pt);
            }
        },
        syntax::Expr::FieldAccess { base, .. } => lemma_expr_not_hidden(base, vf, vs, pf, pt),
        syntax::Expr::TupleIndex { base, .. } => lemma_expr_not_hidden(base, vf, vs, pf, pt),
        syntax::Expr::TupleLiteral { elements, .. } => {
            assert forall|i: int| 0 <= i < elements.len() implies !expr_hidden(&(#[trigger] elements@[i]), vf, vs, pf, pt) by {
                lemma_expr_not_hidden(&elements@[i], vf, vs, pf, pt);
            }
        },
        syntax::Expr::ArrayLiteral { elements, .. } => {
            assert forall|i: int| 0 <= i < elements.len() implies !expr_hidden(&(#[trigger] elements@[i]), vf, vs, pf, pt) by {
                lemma_expr_not_hidden(&elements@[i], vf, vs, pf, pt);
            }
        },
        syntax::Expr::MapLiteral { entries, .. } => {
            assert forall|i: int| 0 <= i < entries.len() implies !(expr_hidden(&(#[trigger] entries@[i]).key, vf, vs, pf, pt)
                || expr_hidden(&entries@[i].value, vf, vs, pf, pt)) by {
                lemma_expr_not_hidden(&entries@[i].key, vf, vs, pf, pt);
                lemma_expr_not_hidden(&entries@[i].value, vf, vs, pf, pt);
            }
        },
        syntax::Expr::Slice { base, start, end, .. } => {
            lemma_expr_not_hidden(base, vf, vs, pf, pt);
            if let Some(x) = start {
                lemma_expr_not_hidden(x, vf, vs, pf, pt);
            }
            if let Some(x) = end {
                lemma_expr_not_hidden(x, vf, vs, pf, pt);
            }
            assert(!opt_expr_hidden(start, vf, vs, pf, pt));
            assert(!opt_expr_hidden(end, vf, vs, pf, pt));
        },
        syntax::Expr::Index { base, index, .. } => {
            lemma_expr_not_hidden(base, vf, vs, pf, pt);
            lemma_expr_not_hidden(index, vf, vs, pf, pt);
        },
        _ => {},
    }
}

/// With no private names in scope, no statement is hidden.
proof fn lemma_stmt_not_hidden(
    st: &syntax::Stmt,
    vf: Seq<(String, String)>,
    vs: Seq<(String, String)>,
    vt: Seq<(String, String)>,
    pf: Seq<String>,
    pt: Seq<String>,
)
    requires
        pf.len() == 0,
        pt.len() == 0,
    ensures
        !stmt_hidden(st, vf, vs, vt, pf, pt),
    decreases st,
{
    match st {
        syntax::Stmt::Let { ty, expr, .. } => {
            lemma_type_not_hidden(ty, vt, pt);
            lemma_expr_not_hidden(expr, vf, vs, pf, pt);
        },
        syntax::Stmt::Print { expr, .. } => lemma_expr_not_hidden(expr, vf, vs, pf, pt),
        syntax::Stmt::Return { expr, .. } => lemma_expr_not_hidden(expr, vf, vs, pf, pt),
        syntax::Stmt::If { cond, then_block, else_block, .. } => {
            lemma_expr_not_hidden(cond, vf, vs, pf, pt);
            lemma_block_not_hidden(then_block, vf, vs, vt, pf, pt);
            if let Some(b) = else_block {
                lemma_block_not_hidden(b, vf, vs, vt, pf, pt);
            }
        },
        syntax::Stmt::While { cond, body, .. } => {
            lemma_expr_not_hidden(cond, vf, vs, pf, pt);
            lemma_block_not_hidden(body, vf, vs, vt, pf, pt);
        },
        syntax::Stmt::Match { expr, arms, .. } => {
            lemma_expr_not_hidden(expr, vf, vs, pf, pt);
            assert forall|i: int| 0 <= i < arms.len() implies !block_hidden(&(#[trigger] arms@[i]).body, vf, vs, vt, pf, pt) by {
                lemma_block_not_hidden(&arms@[i].body, vf, vs, vt, pf, pt);
            }
        },
    }
}

/// With no private names in scope, no block is hidden.
proof fn lemma_block_not_hidden(
    b: &Vec<syntax::Stmt>,
    vf: Seq<(String, String)>,
    vs: Seq<(String, String)>,
    vt: Seq<(String, String)>,
    pf: Seq<String>,
    pt: Seq<String>,
)
    requires
        pf.len() == 0,
        pt.len() == 0,
    ensures
        !block_hidden(b, vf, vs, vt, pf, pt),
    decreases b,
{
    assert forall|i: int| 0 <= i < b.len() implies !stmt_hidden(&(#[trigger] b@[i]), vf, vs, vt, pf, pt) by {
        lemma_stmt_not_hidden(&b@[i], vf, vs, vt, pf, pt);
    }
}

pub open spec fn scope_stmt_hidden(s: &syntax::Stmt, sc: &Scope) -> bool {
    stmt_hidden(s, sc.functions@, sc.structs@, sc.types@, sc.private_functions@, sc.private_types@)
}

pub open spec fn scope_block_hidden(b: &Vec<syntax::Stmt>, sc: &Scope) -> bool {
    block_hidden(b, sc.functions@, sc.structs@, sc.types@, sc.private_functions@, sc.private_types@)
}

pub fn rewrite_block(block: &Vec<syntax::Stmt>, sc: &Scope, source_path: &str) -> (r: Result<
    Vec<syntax::Stmt>,
    Diagnostic,
>)
    ensures
        rewrite_ok(r),
        r is Ok <==> !scope_block_hidden(block, sc),
        r matches Ok(b) ==> block_renamed(block, &b, sc.functions@, sc.structs@, sc.types@),
    decreases block, 0nat,
{
    let mut out: Vec<syntax::Stmt> = Vec::new();
    let mut i: usize = 0;
    while i < block.len()
        invariant
            i <= block@.len(),
            out@.len() == i,
            forall|j: int|
                0 <= j < i ==> stmt_renamed(
                    &block@[j],
                    &(#[trigger] out@[j]),
                    sc.functions@,
                    sc.structs@,
                    sc.types@,
                ),
            forall|j: int| 0 <= j < i ==> !scope_stmt_hidden(&(#[trigger] block@[j]), sc),
        decreases block@.len() - i,
    {
        proof {
            assert(decreases_to!(block => block[i as int]));
        }
        match rewrite_stmt(&block[i], sc, source_path) {
            Ok(s) => out.push(s),
            Err(d) => return Err(d),
        }
        i = i + 1;
    }
    Ok(out)
}

/// Rewrites a statement as `rewrite_expr` does its expressions, and the type
/// a `let` declares as `rewrite_type_name` does.
#[verifier::loop_isolation(false)]
pub fn rewrite_stmt(stmt: &syntax::Stmt, sc: &Scope, source_path: &str) -> (r: Result<
    syntax::Stmt,
    Diagnostic,
>)
    ensures
        rewrite_ok(r),
        r is Ok <==> !scope_stmt_hidden(stmt, sc),
        r matches Ok(s) ==> stmt_renamed(stmt, &s, sc.functions@, sc.structs@, sc.types@),
    decreases stmt, 1nat,
{
    match stmt {
        syntax::Stmt::Let { name, ty, expr, line, column } => {
            let t = match rewrite_type_name(ty, &sc.types, &sc.private_types, source_path, *line, *column) {
                Ok(x) => x,
                Err(d) => return Err(d),
            };
            let e = match rewrite_expr(expr, sc, source_path) {
                Ok(x) => x,
                Err(d) => return Err(d),
            };
            Ok(syntax::Stmt::Let { name: name.clone(), ty: t, expr: e, line: *line, column: *column })
        },
        syntax::Stmt::Print { expr, line, column } => match rewrite_expr(expr, sc, source_path) {
            Ok(e) => Ok(syntax::Stmt::Print { expr: e, line: *line, column: *column }),
            Err(d) => Err(d),
        },
        syntax::Stmt::Return { expr, line, column } => match rewrite_expr(expr, sc, source_path) {
            Ok(e) => Ok(syntax::Stmt::Return { expr: e, line: *line, column: *column }),
            Err(d) => Err(d),
        },
        syntax::Stmt::If { cond, then_block, else_block, line, column } => {
            let c = match rewrite_expr(cond, sc, source_path) {
                Ok(x) => x,
                Err(d) => return Err(d),
            };
            let t = match rewrite_block(then_block, sc, source_path) {
                Ok(x) => x,
                Err(d) => return Err(d),
            };
            let e = match else_block {
                Some(b) => match rewrite_block(b, sc, source_path) {
                    Ok(x) => Some(x),
                    Err(d) => return Err(d),
                },
                None => None,
            };
            Ok(syntax::Stmt::If { cond: c, then_block: t, else_block: e, line: *line, column: *column })
        },
        syntax::Stmt::While { cond, body, line, column } => {
            let c = match rewrite_expr(cond, sc, source_path) {
                Ok(x) => x,
                Err(d) => return Err(d),
            };
            let b = match rewrite_block(body, sc, source_path) {
                Ok(x) => x,
                Err(d) => return Err(d),
            };
            Ok(syntax::Stmt::While { cond: c, body: b, line: *line, column: *column })
        },
        syntax::Stmt::Match { expr, arms, line, column } => {
            let e = match rewrite_expr(expr, sc, source_path) {
                Ok(x) => x,
                Err(d) => return Err(d),
            };
            let mut out: Vec<syntax::MatchArm> = Vec::new();
            let mut i: usize = 0;
            while i < arms.len()
                invariant
                    i <= arms@.len(),
                    out@.len() == i,
                    !expr_hidden(
                        expr,
                        sc.functions@,
                        sc.structs@,
                        sc.private_functions@,
                        sc.private_types@,
                    ),
                    forall|j: int|
                        0 <= j < i ==> (#[trigger] arms@[j]).variant@ == out@[j].variant@ && block_renamed(
                            &arms@[j].body,
                            &out@[j].body,
                            sc.functions@,
                            sc.structs@,
                            sc.types@,
                        ),
                    forall|j: int| 0 <= j < i ==> !scope_block_hidden(&(#[trigger] arms@[j]).body, sc),
                decreases arms@.len() - i,
            {
                proof {
                    assert(decreases_to!(arms => arms[i as int]));
                }
                let arm = &arms[i];
                match rewrite_block(&arm.body, sc, source_path) {
                    Ok(b) => out.push(
                        syntax::MatchArm {
                            variant: arm.variant.clone(),
                            bindings: clone_strings(&arm.bindings),
                            is_named: arm.is_named,
                            body: b,
                            line: arm.line,
                            column: arm.column,
                        },
                    ),
                    Err(d) => return Err(d),
                }
                i = i + 1;
            }
            Ok(syntax::Stmt::Match { expr: e, arms: out, line: *line, column: *column })
        },
    }
}

// ----- Declarations and modules ---------------------------------------------------------

/// A module as loaded from disk: its parsed program and where it sits. The
/// `import_paths` are the module paths its imports resolved to, one for each
/// import of `program`, in order.
#[derive(Debug)]
pub struct LoadedModule {
    pub path: String,
    pub program: syntax::Program,
    pub is_entry: bool,
    pub package_root: String,
    pub source_root: String,
    pub package_name: String,
    pub import_paths: Vec<String>,
}

/// The declarations of one module: every declaration under its qualified
/// name, the public ones that importers see, and the names of the private
/// ones, which importers may not use.
pub struct ModuleSymbols {
    pub module_id: String,
    pub functions: NameMap,
    pub public_functions: NameMap,
    pub private_functions: Vec<String>,
    pub structs: NameMap,
    pub public_structs: NameMap,
    pub private_structs: Vec<String>,
    pub enums: NameMap,
    pub public_enums: NameMap,
    pub private_enums: Vec<String>,
}

/// A character as it stands in an identifier: ASCII letters lower-cased,
/// digits kept, anything else an underscore.
pub open spec fn slug_of(c: char) -> char {
    if ('a' <= c && c <= 'z') || ('0' <= c && c <= '9') {
        c
    } else if 'A' <= c && c <= 'Z' {
        ((c as int) + 32) as char
    } else {
        '_'
    }
}

pub open spec fn slug_seq(s: Seq<char>) -> Seq<char> {
    s.map_values(|c: char| slug_of(c))
}

/// A package name as an identifier; an empty name gives `package`.
pub open spec fn slug_spec(s: Seq<char>) -> Seq<char> {
    if s.len() == 0 {
        "package"@
    } else {
        slug_seq(s)
    }
}

/// The position of the last `.` of `s`, or -1.
pub open spec fn last_dot(s: Seq<char>) -> int
    decreases s.len(),
{
    if s.len() == 0 {
        -1
    } else if s.last() == '.' {
        s.len() - 1
    } else {
        last_dot(s.drop_last())
    }
}

/// A file name without its extension, as `Path::file_stem` gives it: cut at
/// the last `.`, unless that `.` starts the name.
pub open spec fn file_stem(name: Seq<char>) -> Seq<char> {
    if last_dot(name) > 0 {
        name.subrange(0, last_dot(name))
    } else {
        name
    }
}

/// The components of `path` below `root`, or all of them (with the root
/// written `/`) where `path` does not lie below `root`.
pub open spec fn relative_components(path: Seq<char>, root: Seq<char>) -> Seq<Seq<char>> {
    let pc = crate::paths::components_of(path);
    if crate::paths::starts_with_path(path, root) {
        pc.subrange(crate::paths::components_of(root).len() as int, pc.len() as int)
    } else if crate::paths::is_absolute(path) {
        seq!["/"@] + pc
    } else {
        pc
    }
}

/// The components with the extension taken off the file name, as
/// `Path::with_extension("")` leaves them.
pub open spec fn stem_components(cs: Seq<Seq<char>>) -> Seq<Seq<char>> {
    if cs.len() > 0 && cs.last() != "/"@ && cs.last() != "."@ && cs.last() != ".."@ {
        let st = file_stem(cs.last());
        if st == "."@ && cs.len() > 1 {
            cs.drop_last()
        } else {
            cs.drop_last().push(st)
        }
    } else {
        cs
    }
}

/// Each component as an identifier, with an underscore before each.
pub open spec fn id_suffix(cs: Seq<Seq<char>>) -> Seq<char>
    decreases cs.len(),
{
    if cs.len() == 0 {
        seq![]
    } else {
        id_suffix(cs.drop_last()) + "_"@ + slug_seq(cs.last())
    }
}

/// The identifier that qualifies a module's declarations: the package's
/// slug, then, for each component of the module's path below the source
/// root without its extension, an underscore and the component's slug.
pub open spec fn module_id(path: Seq<char>, source_root: Seq<char>, package_name: Seq<char>) -> Seq<char> {
    slug_spec(package_name) + id_suffix(stem_components(relative_components(path, source_root)))
}

fn slug_char(c: char) -> (r: char)
    ensures
        r == slug_of(c),
{
    if 'a' <= c && c <= 'z' || '0' <= c && c <= '9' {
        c
    } else if 'A' <= c && c <= 'Z' {
        let b = c as u8;
        ((b + 32) as u8) as char
    } else {
        '_'
    }
}

/// Appends the slug of each character of `t` to `out`.
fn push_slug(out: &mut Vec<char>, t: &Vec<char>)
    ensures
        final(out)@ == old(out)@ + slug_seq(t@),
{
    let ghost start = out@;
    let mut i: usize = 0;
    while i < t.len()
        invariant
            i <= t@.len(),
            out@ == start + slug_seq(t@.take(i as int)),
        decreases t@.len() - i,
    {
        out.push(slug_char(t[i]));
        proof {
            assert(slug_seq(t@.take(i + 1)) =~= slug_seq(t@.take(i as int)).push(slug_of(t@[i as int])));
        }
        i = i + 1;
    }
    proof {
        assert(t@.take(t@.len() as int) =~= t@);
    }
}

/// A package name as an identifier: letters lower-cased, digits kept, every
/// other character an underscore, and `package` where the name is empty.
pub fn slug_identifier(value: &str) -> (s: String)
    ensures
        s@ == slug_spec(value@),
{
    let chars = crate::text::chars_of(value);
    if chars.len() == 0 {
        return String::from_str("package");
    }
    let mut out: Vec<char> = Vec::new();
    push_slug(&mut out, &chars);
    proof {
        assert(out@ =~= slug_seq(value@));
    }
    crate::text::string_of_chars(&out)
}

/// The position of the last `.` of `t`, if any.
fn find_last_dot(t: &Vec<char>) -> (r: Option<usize>)
    ensures
        match r {
            Some(k) => last_dot(t@) == k as int && k < t@.len(),
            None => last_dot(t@) == -1,
        },
{
    let mut k: usize = t.len();
    proof {
        assert(t@.take(k as int) =~= t@);
    }
    while k > 0
        invariant
            k <= t@.len(),
            last_dot(t@) == last_dot(t@.take(k as int)),
        decreases k,
    {
        proof {
            assert(t@.take(k as int).drop_last() =~= t@.take(k - 1));
        }
        if t[k - 1] == '.' {
            return Some(k - 1);
        }
        k = k - 1;
    }
    proof {
        assert(t@.take(0) =~= Seq::<char>::empty());
    }
    None
}

fn stem_of(name: &String) -> (s: String)
    ensures
        s@ == file_stem(name@),
{
    let t = crate::text::chars_of_string(name);
    match find_last_dot(&t) {
        Some(k) => {
            if k > 0 {
                crate::text::string_from(&t, 0, k)
            } else {
                name.clone()
            }
        },
        None => name.clone(),
    }
}

/// The components of `path` below `source_root`, as `relative_components` says.
fn relative_parts(path: &str, source_root: &str) -> (rel: Vec<String>)
    ensures
        crate::paths::views(rel@) == relative_components(path@, source_root@),
{
    let p = crate::paths::split_path(path);
    let r = crate::paths::split_path(source_root);
    let ghost pc = crate::paths::views(p.components@);
    let mut rel: Vec<String> = Vec::new();
    let mut i: usize = 0;
    if crate::paths::path_starts_with(path, source_root) {
        i = r.components.len();
        assert(crate::paths::components_of(source_root@).is_prefix_of(pc));
    } else if p.absolute {
        rel.push(String::from_str("/"));
    }
    let ghost lead = crate::paths::views(rel@);
    let ghost from = i as int;
    while i < p.components.len()
        invariant
            0 <= from <= i <= p.components@.len(),
            pc == crate::paths::views(p.components@),
            pc.len() == p.components@.len(),
            crate::paths::views(rel@) == lead + pc.subrange(from, i as int),
        decreases p.components@.len() - i,
    {
        let ghost before = crate::paths::views(rel@);
        let c = p.components[i].clone();
        assert(c@ == pc[i as int]);
        rel.push(c);
        proof {
            assert(crate::paths::views(rel@) =~= before.push(pc[i as int]));
            assert(crate::paths::views(rel@) =~= lead + pc.subrange(from, i + 1));
        }
        i = i + 1;
    }
    proof {
        reveal_strlit("/");
        assert(crate::paths::views(rel@) =~= relative_components(path@, source_root@));
    }
    rel
}

/// Takes the extension off the last component, as `stem_components` says.
fn stem_last(rel: &mut Vec<String>)
    ensures
        crate::paths::views(final(rel)@) == stem_components(crate::paths::views(old(rel)@)),
{
    proof {
        reveal_strlit("/");
        reveal_strlit(".");
        reveal_strlit("..");
    }
    let ghost rc = crate::paths::views(rel@);
    let n = rel.len();
    if n > 0 {
        assert(rc.last() == rel@[n - 1]@);
        let keep = string_is(&rel[n - 1], "/") || string_is(&rel[n - 1], ".") || string_is(&rel[n - 1], "..");
        if !keep {
            let st = stem_of(&rel[n - 1]);
            rel.pop();
            assert(crate::paths::views(rel@) =~= rc.drop_last());
            if !(string_is(&st, ".") && n > 1) {
                rel.push(st);
                assert(crate::paths::views(rel@) =~= rc.drop_last().push(file_stem(rc.last())));
            }
        }
    }
}

/// Appends, for each component, an underscore and the component's slug.
fn push_id_suffix(out: &mut Vec<char>, parts: &Vec<String>)
    ensures
        final(out)@ == old(out)@ + id_suffix(crate::paths::views(parts@)),
{
    proof {
        reveal_strlit("_");
    }
    let ghost start = out@;
    let ghost sc = crate::paths::views(parts@);
    let mut k: usize = 0;
    while k < parts.len()
        invariant
            k <= parts@.len(),
            sc == crate::paths::views(parts@),
            out@ == start + id_suffix(sc.take(k as int)),
        decreases parts@.len() - k,
    {
        let ghost before = out@;
        out.push('_');
        let ghost mid = out@;
        let t = crate::text::chars_of_string(&parts[k]);
        push_slug(out, &t);
        proof {
            reveal_strlit("_");
            assert(mid =~= before + "_"@);
            assert(out@ == mid + slug_seq(t@));
            assert(sc.take(k + 1).drop_last() =~= sc.take(k as int));
            assert(sc.take(k + 1).last() == parts@[k as int]@);
            assert(out@ =~= before + "_"@ + slug_seq(sc.take(k + 1).last()));
            assert(out@ =~= start + id_suffix(sc.take(k + 1)));
        }
        k = k + 1;
    }
    proof {
        assert(sc.take(parts@.len() as int) =~= sc);
    }
}

/// The identifier that qualifies the declarations of the module at `path`.
pub fn module_id_for_path(path: &str, source_root: &str, package_name: &str) -> (s: String)
    ensures
        s@ == module_id(path@, source_root@, package_name@),
{
    let mut rel = relative_parts(path, source_root);
    stem_last(&mut rel);
    let mut out: Vec<char> = crate::text::chars_of(slug_identifier(package_name).as_str());
    push_id_suffix(&mut out, &rel);
    crate::text::string_of_chars(&out)
}

fn qualified(module_id: &String, name: &String) -> (s: String)
    ensures
        s@ == module_id@ + "_"@ + name@,
{
    cat3(module_id.as_str(), "_", name.as_str())
}

fn type_error_at(msg: String, source_path: &String, line: usize, column: usize) -> (d: Diagnostic)
    ensures
        d.kind@ == "type"@,
{
    Diagnostic::new("type", msg).with_path(source_path.clone()).with_span(line, column)
}

pub open spec fn map_keys_distinct(m: Seq<(String, String)>) -> bool {
    forall|i: int, j: int| 0 <= i < j < m.len() ==> (#[trigger] m[i]).0@ != (#[trigger] m[j]).0@
}

/// The identifier that qualifies the declarations of `m`.
pub open spec fn id_of(m: LoadedModule) -> Seq<char> {
    module_id(m.path@, m.source_root@, m.package_name@)
}

/// `sym` holds the declarations of `module`, each under its qualified name.
pub open spec fn symbols_for(module: LoadedModule, sym: ModuleSymbols) -> bool {
    &&& sym.module_id@ == id_of(module)
    &&& map_keys_distinct(sym.functions@)
    &&& map_keys_distinct(sym.structs@)
    &&& map_keys_distinct(sym.enums@)
    &&& forall|i: int|
        0 <= i < module.program.functions@.len() ==> map_binds(
            sym.functions@,
            (#[trigger] module.program.functions@[i]).name@,
            sym.module_id@ + "_"@ + module.program.functions@[i].name@,
        )
    &&& forall|i: int|
        0 <= i < module.program.structs@.len() ==> map_binds(
            sym.structs@,
            (#[trigger] module.program.structs@[i]).name@,
            sym.module_id@ + "_"@ + module.program.structs@[i].name@,
        )
    &&& forall|i: int|
        0 <= i < module.program.enums@.len() ==> map_binds(
            sym.enums@,
            (#[trigger] module.program.enums@[i]).name@,
            sym.module_id@ + "_"@ + module.program.enums@[i].name@,
        )
}

/// No struct, enum or function of `p` is declared twice under one name, and
/// no enum is named like a struct.
pub open spec fn declarations_distinct(p: &syntax::Program) -> bool {
    &&& forall|i: int, j: int|
        0 <= i < j < p.structs@.len() ==> (#[trigger] p.structs@[i]).name@ != (#[trigger] p.structs@[j]).name@
    &&& forall|i: int, j: int|
        0 <= i < p.structs@.len() && 0 <= j < p.enums@.len() ==> (#[trigger] p.structs@[i]).name@
            != (#[trigger] p.enums@[j]).name@
    &&& forall|i: int, j: int|
        0 <= i < j < p.enums@.len() ==> (#[trigger] p.enums@[i]).name@ != (#[trigger] p.enums@[j]).name@
    &&& forall|i: int, j: int|
        0 <= i < j < p.functions@.len() ==> (#[trigger] p.functions@[i]).name@ != (
        #[trigger] p.functions@[j]).name@
}

proof fn lemma_duplicate_struct(p: &syntax::Program, a: int, b: int)
    requires
        0 <= a < b < p.structs@.len(),
        p.structs@[a].name@ == p.structs@[b].name@,
    ensures
        !declarations_distinct(p),
{
}

proof fn lemma_enum_named_like_struct(p: &syntax::Program, a: int, b: int)
    requires
        0 <= a < p.structs@.len(),
        0 <= b < p.enums@.len(),
        p.structs@[a].name@ == p.enums@[b].name@,
    ensures
        !declarations_distinct(p),
{
}

proof fn lemma_duplicate_enum(p: &syntax::Program, a: int, b: int)
    requires
        0 <= a < b < p.enums@.len(),
        p.enums@[a].name@ == p.enums@[b].name@,
    ensures
        !declarations_distinct(p),
{
}

proof fn lemma_duplicate_function(p: &syntax::Program, a: int, b: int)
    requires
        0 <= a < b < p.functions@.len(),
        p.functions@[a].name@ == p.functions@[b].name@,
    ensures
        !declarations_distinct(p),
{
}

/// `r` is `b` with its names replaced under the given maps, one for one.
pub open spec fn stmts_renamed(
    b: Seq<syntax::Stmt>,
    r: Seq<syntax::Stmt>,
    vf: Seq<(String, String)>,
    vs: Seq<(String, String)>,
    vt: Seq<(String, String)>,
) -> bool {
    b.len() == r.len() && forall|i: int| 0 <= i < b.len() ==> stmt_renamed(&(#[trigger] b[i]), &r[i], vf, vs, vt)
}

/// `e` is the one entry module of `modules`.
pub open spec fn sole_entry(modules: Seq<LoadedModule>, e: int) -> bool {
    &&& 0 <= e < modules.len()
    &&& modules[e].is_entry
    &&& forall|k: int| 0 <= k < modules.len() && k != e ==> !(#[trigger] modules[k]).is_entry
}

/// `stmts` are the statements of the entry module `e`, renamed under its scope.
pub open spec fn entry_statements_renamed(modules: Seq<LoadedModule>, e: int, stmts: Seq<syntax::Stmt>) -> bool {
    exists|vf: Seq<(String, String)>, vs: Seq<(String, String)>, vt: Seq<(String, String)>|
        #[trigger] stmts_renamed(modules[e].program.stmts@, stmts, vf, vs, vt)
}

/// A module that imports nothing and declares each name once.
pub open spec fn self_contained(m: LoadedModule) -> bool {
    m.program.imports@.len() == 0 && declarations_distinct(&m.program)
}

/// The struct and enum maps of `sym` are keyed by the module's own struct and
/// enum names, in declaration order.
pub open spec fn symbol_keys_match(module: LoadedModule, sym: ModuleSymbols) -> bool {
    &&& sym.structs@.len() == module.program.structs@.len()
    &&& forall|q: int|
        0 <= q < sym.structs@.len() ==> (#[trigger] sym.structs@[q]).0@ == module.program.structs@[q].name@
    &&& sym.enums@.len() == module.program.enums@.len()
    &&& forall|q: int|
        0 <= q < sym.enums@.len() ==> (#[trigger] sym.enums@[q]).0@ == module.program.enums@[q].name@
}

/// Collects a module's declarations under their qualified names; a name
/// declared twice, or an enum named like a struct, is an error.
#[verifier::loop_isolation(false)]
pub fn build_module_symbols(module: &LoadedModule) -> (r: Result<ModuleSymbols, Diagnostic>)
    ensures
        r is Ok <==> declarations_distinct(&module.program),
        r matches Err(d) ==> d.kind@ == "type"@,
        r matches Ok(sym) ==> symbols_for(*module, sym) && symbol_keys_match(*module, sym),
{
    let module_id = module_id_for_path(module.path.as_str(), module.source_root.as_str(), module.package_name.as_str());
    let prog = &module.program;
    let mut structs: NameMap = Vec::new();
    let mut public_structs: NameMap = Vec::new();
    let mut private_structs: Vec<String> = Vec::new();
    let mut i: usize = 0;
    while i < prog.structs.len()
        invariant
            i <= prog.structs@.len(),
            map_keys_distinct(structs@),
            structs@.len() == i,
            forall|q: int| 0 <= q < i ==> (#[trigger] structs@[q]).0@ == prog.structs@[q].name@,
            forall|a: int, b: int|
                0 <= a < b < i ==> (#[trigger] prog.structs@[a]).name@ != (#[trigger] prog.structs@[b]).name@,
            forall|j: int|
                0 <= j < i ==> map_binds(
                    structs@,
                    (#[trigger] prog.structs@[j]).name@,
                    module_id@ + "_"@ + prog.structs@[j].name@,
                ),
        decreases prog.structs@.len() - i,
    {
        let d = &prog.structs[i];
        if let Some(bound) = map_lookup(&structs, &d.name) {
            proof {
                assert(map_binds(structs@, d.name@, bound@));
                let q = choose|q: int|
                    0 <= q < structs@.len() && (#[trigger] structs@[q]).0@ == d.name@ && structs@[q].1@ == bound@;
                lemma_duplicate_struct(&module.program, q, i as int);
            }
            return Err(
                type_error_at(cat("duplicate struct ", debug_string(d.name.as_str()).as_str()), &module.path, d.line, d.column),
            );
        }
        let internal = qualified(&module_id, &d.name);
        let ghost before = structs@;
        structs.push((d.name.clone(), internal.clone()));
        proof {
            let n = structs@.len() - 1;
            assert(structs@[n].0@ == d.name@ && structs@[n].1@ == module_id@ + "_"@ + d.name@);
            assert forall|j: int| 0 <= j < i + 1 implies map_binds(
                structs@,
                (#[trigger] prog.structs@[j]).name@,
                module_id@ + "_"@ + prog.structs@[j].name@,
            ) by {
                if j < i {
                    let q = choose|q: int|
                        0 <= q < before.len() && (#[trigger] before[q]).0@ == prog.structs@[j].name@
                            && before[q].1@ == module_id@ + "_"@ + prog.structs@[j].name@;
                    assert(structs@[q] == before[q]);
                }
            }
        }
        if d.is_public {
            public_structs.push((d.name.clone(), internal));
        } else {
            private_structs.push(d.name.clone());
        }
        proof {
            assert(structs@.last().0@ == d.name@);
        }
        i = i + 1;
    }
    let mut enums: NameMap = Vec::new();
    let mut public_enums: NameMap = Vec::new();
    let mut private_enums: Vec<String> = Vec::new();
    let mut k: usize = 0;
    while k < prog.enums.len()
        invariant
            k <= prog.enums@.len(),
            map_keys_distinct(enums@),
            structs@.len() == prog.structs@.len(),
            forall|q: int|
                0 <= q < prog.structs@.len() ==> (#[trigger] structs@[q]).0@ == prog.structs@[q].name@,
            forall|a: int, b: int|
                0 <= a < b < prog.structs@.len() ==> (#[trigger] prog.structs@[a]).name@ != (
                #[trigger] prog.structs@[b]).name@,
            enums@.len() == k,
            forall|q: int| 0 <= q < k ==> (#[trigger] enums@[q]).0@ == prog.enums@[q].name@,
            forall|a: int, b: int|
                0 <= a < b < k ==> (#[trigger] prog.enums@[a]).name@ != (#[trigger] prog.enums@[b]).name@,
            forall|a: int, b: int|
                0 <= a < prog.structs@.len() && 0 <= b < k ==> (#[trigger] prog.structs@[a]).name@ != (
                #[trigger] prog.enums@[b]).name@,
            forall|j: int|
                0 <= j < k ==> map_binds(
                    enums@,
                    (#[trigger] prog.enums@[j]).name@,
                    module_id@ + "_"@ + prog.enums@[j].name@,
                ),
        decreases prog.enums@.len() - k,
    {
        let d = &prog.enums[k];
        if let Some(bound) = map_lookup(&structs, &d.name) {
            proof {
                assert(map_binds(structs@, d.name@, bound@));
                let q = choose|q: int|
                    0 <= q < structs@.len() && (#[trigger] structs@[q]).0@ == d.name@ && structs@[q].1@ == bound@;
                lemma_enum_named_like_struct(&module.program, q, k as int);
            }
            return Err(
                type_error_at(cat("duplicate type name ", debug_string(d.name.as_str()).as_str()), &module.path, d.line, d.column),
            );
        }
        if map_lookup(&enums, &d.name).is_some() {
            proof {
                let q = choose|q: int| 0 <= q < enums@.len() && (#[trigger] enums@[q]).0@ == d.name@;
                lemma_duplicate_enum(&module.program, q, k as int);
            }
            return Err(
                type_error_at(cat("duplicate enum ", debug_string(d.name.as_str()).as_str()), &module.path, d.line, d.column),
            );
        }
        proof {
            assert forall|a: int| 0 <= a < prog.structs@.len() implies (
            #[trigger] prog.structs@[a]).name@ != d.name@ by {
                assert(structs@[a].0@ == prog.structs@[a].name@);
            }
        }
        let internal = qualified(&module_id, &d.name);
        let ghost before = enums@;
        enums.push((d.name.clone(), internal.clone()));
        proof {
            let n = enums@.len() - 1;
            assert(enums@[n].0@ == d.name@ && enums@[n].1@ == module_id@ + "_"@ + d.name@);
            assert forall|j: int| 0 <= j < k + 1 implies map_binds(
                enums@,
                (#[trigger] prog.enums@[j]).name@,
                module_id@ + "_"@ + prog.enums@[j].name@,
            ) by {
                if j < k {
                    let q = choose|q: int|
                        0 <= q < before.len() && (#[trigger] before[q]).0@ == prog.enums@[j].name@
                            && before[q].1@ == module_id@ + "_"@ + prog.enums@[j].name@;
                    assert(enums@[q] == before[q]);
                }
            }
        }
        if d.is_public {
            public_enums.push((d.name.clone(), internal));
        } else {
            private_enums.push(d.name.clone());
        }
        proof {
            assert(enums@.last().0@ == d.name@);
        }
        k = k + 1;
    }
    let mut functions: NameMap = Vec::new();
    let mut public_functions: NameMap = Vec::new();
    let mut private_functions: Vec<String> = Vec::new();
    let mut f: usize = 0;
    while f < prog.functions.len()
        invariant
            f <= prog.functions@.len(),
            map_keys_distinct(functions@),
            declarations_distinct(prog) <==> forall|a: int, b: int|
                0 <= a < b < prog.functions@.len() ==> (#[trigger] prog.functions@[a]).name@ != (
                #[trigger] prog.functions@[b]).name@,
            functions@.len() == f,
            forall|q: int| 0 <= q < f ==> (#[trigger] functions@[q]).0@ == prog.functions@[q].name@,

            forall|a: int, b: int|
                0 <= a < b < f ==> (#[trigger] prog.functions@[a]).name@ != (
                #[trigger] prog.functions@[b]).name@,
            forall|j: int|
                0 <= j < f ==> map_binds(
                    functions@,
                    (#[trigger] prog.functions@[j]).name@,
                    module_id@ + "_"@ + prog.functions@[j].name@,
                ),
        decreases prog.functions@.len() - f,
    {
        let d = &prog.functions[f];
        if let Some(bound) = map_lookup(&functions, &d.name) {
            proof {
                assert(map_binds(functions@, d.name@, bound@));
                let q = choose|q: int|
                    0 <= q < functions@.len() && (#[trigger] functions@[q]).0@ == d.name@ && functions@[q].1@ == bound@;
                lemma_duplicate_function(&module.program, q, f as int);
            }
            return Err(
                type_error_at(cat("duplicate function ", debug_string(d.name.as_str()).as_str()), &module.path, d.line, d.column),
            );
        }
        let internal = qualified(&module_id, &d.name);
        let ghost before = functions@;
        functions.push((d.name.clone(), internal.clone()));
        proof {
            let n = functions@.len() - 1;
            assert(functions@[n].0@ == d.name@ && functions@[n].1@ == module_id@ + "_"@ + d.name@);
            assert forall|j: int| 0 <= j < f + 1 implies map_binds(
                functions@,
                (#[trigger] prog.functions@[j]).name@,
                module_id@ + "_"@ + prog.functions@[j].name@,
            ) by {
                if j < f {
                    let q = choose|q: int|
                        0 <= q < before.len() && (#[trigger] before[q]).0@ == prog.functions@[j].name@
                            && before[q].1@ == module_id@ + "_"@ + prog.functions@[j].name@;
                    assert(functions@[q] == before[q]);
                }
            }
        }
        if d.is_public {
            public_functions.push((d.name.clone(), internal));
        } else {
            private_functions.push(d.name.clone());
        }
        proof {
            assert(functions@.last().0@ == d.name@);
        }
        f = f + 1;
    }
    Ok(
        ModuleSymbols {
            module_id,
            functions,
            public_functions,
            private_functions,
            structs,
            public_structs,
            private_structs,
            enums,
            public_enums,
            private_enums,
        },
    )
}

fn clone_map(m: &NameMap) -> (r: NameMap)
    ensures
        r@.len() == m@.len(),
        forall|j: int| 0 <= j < m@.len() ==> (#[trigger] r@[j]).0@ == m@[j].0@ && r@[j].1@ == m@[j].1@,
{
    let mut out: NameMap = Vec::new();
    let mut i: usize = 0;
    while i < m.len()
        invariant
            i <= m@.len(),
            out@.len() == i,
            forall|j: int| 0 <= j < i ==> (#[trigger] out@[j]).0@ == m@[j].0@ && out@[j].1@ == m@[j].1@,
        decreases m@.len() - i,
    {
        out.push((m[i].0.clone(), m[i].1.clone()));
        i = i + 1;
    }
    out
}

/// Adds the bindings of `more` to `visible`; a name already bound to a
/// different qualified name is a collision, reported with `what`.
fn import_bindings(
    visible: &mut NameMap,
    more: &NameMap,
    what: &str,
    source_path: &String,
    line: usize,
    column: usize,
) -> (r: Result<(), Diagnostic>)
    ensures
        r matches Err(d) ==> d.kind@ == "import"@,
        r is Ok ==> forall|j: int|
            0 <= j < more@.len() ==> map_has_key(final(visible)@, (#[trigger] more@[j]).0@),
        forall|k: Seq<char>, v: Seq<char>| map_binds(old(visible)@, k, v) ==> map_binds(final(visible)@, k, v),
        map_keys_distinct(old(visible)@) ==> map_keys_distinct(final(visible)@),
{
    let mut i: usize = 0;
    while i < more.len()
        invariant
            i <= more@.len(),
            forall|j: int| 0 <= j < i ==> map_has_key(visible@, (#[trigger] more@[j]).0@),
            forall|k: Seq<char>, v: Seq<char>| map_binds(old(visible)@, k, v) ==> map_binds(visible@, k, v),
            map_keys_distinct(old(visible)@) ==> map_keys_distinct(visible@),
        decreases more@.len() - i,
    {
        let (name, internal) = (&more[i].0, &more[i].1);
        match map_lookup(visible, name) {
            Some(existing) => {
                if *existing != *internal {
                    return Err(
                        Diagnostic::new(
                            "import",
                            cat5_import(what, name),
                        ).with_path(source_path.clone()).with_span(line, column),
                    );
                }
            },
            None => {
                let ghost before = visible@;
                visible.push((name.clone(), internal.clone()));
                proof {
                    assert(visible@[visible@.len() - 1].0@ == name@);
                    if map_keys_distinct(before) {
                        assert forall|a: int, b: int| 0 <= a < b < visible@.len() implies (
                        #[trigger] visible@[a]).0@ != (#[trigger] visible@[b]).0@ by {
                            if b == before.len() {
                                assert(visible@[a] == before[a]);
                            } else {
                                assert(visible@[a] == before[a] && visible@[b] == before[b]);
                            }
                        }
                    }
                    assert forall|k: Seq<char>, v: Seq<char>| map_binds(before, k, v) implies map_binds(visible@, k, v) by {
                        let j = choose|j: int| 0 <= j < before.len() && (#[trigger] before[j]).0@ == k && before[j].1@ == v;
                        assert(visible@[j] == before[j]);
                    }
                    assert forall|j: int| 0 <= j < i + 1 implies map_has_key(visible@, (#[trigger] more@[j]).0@) by {
                        if j < i {
                            let q = choose|q: int| 0 <= q < before.len() && (#[trigger] before[q]).0@ == more@[j].0@;
                            assert(visible@[q] == before[q]);
                        }
                    }
                }
            },
        }
        i = i + 1;
    }
    Ok(())
}

fn cat5_import(what: &str, name: &String) -> (s: String)
    ensures
        s@ == "imported "@ + what@ + " "@ + crate::text::debug_quoted(name@)
            + " collides with an existing name"@,
{
    crate::text::cat4("imported ", what, " ", debug_string(name.as_str()).as_str()).concat(
        " collides with an existing name",
    )
}

fn add_names(set: &mut Vec<String>, names: &Vec<String>)
    ensures
        final(set)@ == old(set)@ + names@,
{
    let mut i: usize = 0;
    while i < names.len()
        invariant
            i <= names@.len(),
            set@ == old(set)@ + names@.subrange(0, i as int),
        decreases names@.len() - i,
    {
        set.push(names[i].clone());
        i = i + 1;
        assert(set@ =~= old(set)@ + names@.subrange(0, i as int));
    }
    assert(names@.subrange(0, names@.len() as int) =~= names@);
}

/// `m` binds exactly what `a` or `b` binds.
pub open spec fn same_bindings(
    m: Seq<(String, String)>,
    a: Seq<(String, String)>,
    b: Seq<(String, String)>,
) -> bool {
    &&& forall|k: Seq<char>, v: Seq<char>| map_binds(m, k, v) ==> map_binds(a, k, v) || map_binds(b, k, v)
    &&& forall|k: Seq<char>, v: Seq<char>| map_binds(a, k, v) ==> map_binds(m, k, v)
    &&& forall|k: Seq<char>, v: Seq<char>| map_binds(b, k, v) ==> map_binds(m, k, v)
}

/// A name that `a` and `b` bind to different qualified names.
pub open spec fn bindings_collide(a: Seq<(String, String)>, b: Seq<(String, String)>) -> bool {
    exists|i: int, j: int|
        0 <= i < a.len() && 0 <= j < b.len() && (#[trigger] a[i]).0@ == (#[trigger] b[j]).0@ && a[i].1@
            != b[j].1@
}

/// The types a module sees: its visible structs and enums together; the same
/// name for two different declarations is a collision.
pub fn merge_visible_types(structs: &NameMap, enums: &NameMap, source_path: &String) -> (r: Result<
    NameMap,
    Diagnostic,
>)
    requires
        map_keys_distinct(structs@),
        map_keys_distinct(enums@),
    ensures
        r is Ok <==> !bindings_collide(structs@, enums@),
        r matches Err(d) ==> d.kind@ == "import"@,
        r matches Ok(m) ==> map_keys_distinct(m@) && same_bindings(m@, structs@, enums@),
{
    let mut types = clone_map(structs);
    proof {
        assert forall|a: int, b: int| 0 <= a < b < types@.len() implies (#[trigger] types@[a]).0@
            != (#[trigger] types@[b]).0@ by {
            assert(structs@[a].0@ != structs@[b].0@);
        }
        assert(enums@.take(0) =~= Seq::<(String, String)>::empty());
        assert forall|k: Seq<char>, v: Seq<char>| map_binds(types@, k, v) implies map_binds(structs@, k, v) by {
            let q = choose|q: int| 0 <= q < types@.len() && (#[trigger] types@[q]).0@ == k && types@[q].1@ == v;
            assert(structs@[q].0@ == k);
        }
        assert forall|k: Seq<char>, v: Seq<char>| map_binds(structs@, k, v) implies map_binds(types@, k, v) by {
            let q = choose|q: int| 0 <= q < structs@.len() && (#[trigger] structs@[q]).0@ == k && structs@[q].1@ == v;
            assert(types@[q].0@ == k);
        }
        assert(same_bindings(types@, structs@, enums@.take(0)));
    }
    let mut i: usize = 0;
    while i < enums.len()
        invariant
            i <= enums@.len(),
            map_keys_distinct(structs@),
            map_keys_distinct(enums@),
            map_keys_distinct(types@),
            same_bindings(types@, structs@, enums@.take(i as int)),
            forall|a: int, b: int|
                0 <= a < structs@.len() && 0 <= b < i ==> !((#[trigger] structs@[a]).0@ == (
                #[trigger] enums@[b]).0@ && structs@[a].1@ != enums@[b].1@),
        decreases enums@.len() - i,
    {
        let ghost take_next = enums@.take(i + 1);
        let ghost before = types@;
        let ghost key = enums@[i as int].0@;
        let ghost val = enums@[i as int].1@;
        proof {
            assert(take_next =~= enums@.take(i as int).push(enums@[i as int]));
        }
        match map_lookup(&types, &enums[i].0) {
            Some(existing) => {
                proof {
                    assert(map_binds(types@, key, existing@));
                    if map_binds(enums@.take(i as int), key, existing@) {
                        let q = choose|q: int|
                            0 <= q < enums@.take(i as int).len() && (#[trigger] enums@.take(i as int)[q]).0@
                                == key && enums@.take(i as int)[q].1@ == existing@;
                        assert(enums@[q].0@ == enums@[i as int].0@);
                    }
                    assert(map_binds(structs@, key, existing@));
                }
                if *existing != enums[i].1 {
                    proof {
                        let q = choose|q: int|
                            0 <= q < structs@.len() && (#[trigger] structs@[q]).0@ == key && structs@[q].1@
                                == existing@;
                        assert(bindings_collide(structs@, enums@)) by {
                            assert(structs@[q].0@ == enums@[i as int].0@);
                        }
                    }
                    return Err(
                        Diagnostic::new(
                            "import",
                            cat3(
                                "imported type ",
                                debug_string(enums[i].0.as_str()).as_str(),
                                " collides with an existing name",
                            ),
                        ).with_path(source_path.clone()),
                    );
                }
                proof {
                    assert(map_binds(before, key, val));
                    assert(map_binds(structs@, key, val));
                }
            },
            None => {
                types.push((enums[i].0.clone(), enums[i].1.clone()));
                proof {
                    assert(!map_has_key(before, key));
                    assert(types@ == before.push(types@.last()));
                    assert(types@.last().0@ == key && types@.last().1@ == val);
                }
            },
        }
        proof {
            let added = types@.len() > before.len();
            assert(added ==> !map_has_key(before, key));
            assert(!added ==> types@ == before && map_binds(structs@, key, val));
            assert forall|a: int, b: int| 0 <= a < b < types@.len() implies (#[trigger] types@[a]).0@
                != (#[trigger] types@[b]).0@ by {
                if added && b == before.len() {
                    assert(types@[a] == before[a]);
                    assert(before[a].0@ != key);
                } else {
                    assert(types@[a] == before[a] && types@[b] == before[b]);
                }
            }
            assert(same_bindings(before, structs@, enums@.take(i as int)));
            assert forall|k: Seq<char>, v: Seq<char>| map_binds(types@, k, v) implies map_binds(structs@, k, v)
                || map_binds(take_next, k, v) by {
                let q = choose|q: int| 0 <= q < types@.len() && (#[trigger] types@[q]).0@ == k && types@[q].1@ == v;
                if q < before.len() {
                    assert(types@[q] == before[q]);
                    assert(map_binds(before, k, v));
                    if map_binds(enums@.take(i as int), k, v) {
                        let w = choose|w: int|
                            0 <= w < enums@.take(i as int).len() && (#[trigger] enums@.take(i as int)[w]).0@ == k
                                && enums@.take(i as int)[w].1@ == v;
                        assert(take_next[w] == enums@.take(i as int)[w]);
                    }
                } else {
                    assert(take_next[i as int] == enums@[i as int]);
                }
            }
            assert forall|k: Seq<char>, v: Seq<char>| map_binds(structs@, k, v) implies map_binds(types@, k, v) by {
                assert(map_binds(before, k, v));
                let q = choose|q: int| 0 <= q < before.len() && (#[trigger] before[q]).0@ == k && before[q].1@ == v;
                assert(types@[q] == before[q]);
            }
            assert forall|k: Seq<char>, v: Seq<char>| map_binds(take_next, k, v) implies map_binds(types@, k, v) by {
                let q = choose|q: int|
                    0 <= q < take_next.len() && (#[trigger] take_next[q]).0@ == k && take_next[q].1@ == v;
                if q < i {
                    assert(enums@.take(i as int)[q] == take_next[q]);
                    assert(map_binds(enums@.take(i as int), k, v));
                    assert(map_binds(before, k, v));
                    let w = choose|w: int| 0 <= w < before.len() && (#[trigger] before[w]).0@ == k && before[w].1@ == v;
                    assert(types@[w] == before[w]);
                } else if added {
                    assert(types@[before.len() as int].0@ == k);
                } else {
                    assert(k == key && v == val);
                    assert(map_binds(before, k, v));
                    let w = choose|w: int| 0 <= w < before.len() && (#[trigger] before[w]).0@ == k && before[w].1@ == v;
                    assert(types@[w] == before[w]);
                }
            }
            assert forall|a: int, b: int|
                0 <= a < structs@.len() && 0 <= b < i + 1 implies !((#[trigger] structs@[a]).0@ == (
                #[trigger] enums@[b]).0@ && structs@[a].1@ != enums@[b].1@) by {
                if b == i && structs@[a].0@ == enums@[b].0@ {
                    assert(map_binds(structs@, structs@[a].0@, structs@[a].1@));
                    assert(map_binds(before, structs@[a].0@, structs@[a].1@));
                    if added {
                        assert(map_has_key(before, key));
                    } else {
                        let w = choose|w: int| 0 <= w < structs@.len() && (#[trigger] structs@[w]).0@ == key && structs@[w].1@ == val;
                        if w != a {
                            if w < a {
                                assert(structs@[w].0@ != structs@[a].0@);
                            } else {
                                assert(structs@[a].0@ != structs@[w].0@);
                            }
                        }
                    }
                }
            }
            assert(same_bindings(types@, structs@, take_next));
            assert(take_next == enums@.take((i + 1) as int));
        }
        i = i + 1;
    }
    proof {
        assert(enums@.take(enums@.len() as int) =~= enums@);
        assert(same_bindings(types@, structs@, enums@));
        assert forall|a: int, b: int|
            0 <= a < structs@.len() && 0 <= b < enums@.len() implies !((#[trigger] structs@[a]).0@ == (
            #[trigger] enums@[b]).0@ && structs@[a].1@ != enums@[b].1@) by {}
    }
    Ok(types)
}

fn own_name(m: &NameMap, module_id: &String, name: &String) -> (s: String)
    requires
        map_keys_distinct(m@),
        map_binds(m@, name@, module_id@ + "_"@ + name@),
    ensures
        s@ == module_id@ + "_"@ + name@,
{
    match map_lookup(m, name) {
        Some(v) => {
            proof {
                let q = module_id@ + "_"@ + name@;
                let i = choose|i: int| 0 <= i < m@.len() && (#[trigger] m@[i]).0@ == name@ && m@[i].1@ == v@;
                let j = choose|j: int| 0 <= j < m@.len() && (#[trigger] m@[j]).0@ == name@ && m@[j].1@ == q;
                if i < j {
                    assert(m@[i].0@ != m@[j].0@);
                } else if j < i {
                    assert(m@[j].0@ != m@[i].0@);
                }
            }
            v.clone()
        },
        None => qualified(module_id, name),
    }
}

fn rewrite_struct(d: &syntax::StructDecl, sym: &ModuleSymbols, sc: &Scope, source_path: &str) -> (r:
    Result<syntax::StructDecl, Diagnostic>)
    requires
        map_keys_distinct(sym.structs@),
        map_binds(sym.structs@, d.name@, sym.module_id@ + "_"@ + d.name@),
    ensures
        rewrite_ok(r),
        r matches Ok(x) ==> x.fields@.len() == d.fields@.len() && x.name@ == sym.module_id@ + "_"@ + d.name@,
        sc.private_types@.len() == 0 ==> r is Ok,
{
    let mut fields: Vec<syntax::StructField> = Vec::new();
    let mut i: usize = 0;
    while i < d.fields.len()
        invariant
            i <= d.fields@.len(),
            fields@.len() == i,
        decreases d.fields@.len() - i,
    {
        let f = &d.fields[i];
        proof {
            if sc.private_types@.len() == 0 {
                lemma_type_not_hidden(&f.ty, sc.types@, sc.private_types@);
            }
        }
        match rewrite_type_name(&f.ty, &sc.types, &sc.private_types, source_path, f.line, f.column) {
            Ok(t) => fields.push(syntax::StructField { name: f.name.clone(), ty: t, line: f.line, column: f.column }),
            Err(e) => return Err(e),
        }
        i = i + 1;
    }
    Ok(
        syntax::StructDecl {
            name: own_name(&sym.structs, &sym.module_id, &d.name),
            fields,
            is_public: d.is_public,
            line: d.line,
            column: d.column,
        },
    )
}

fn rewrite_enum(d: &syntax::EnumDecl, sym: &ModuleSymbols, sc: &Scope, source_path: &str) -> (r: Result<
    syntax::EnumDecl,
    Diagnostic,
>)
    requires
        map_keys_distinct(sym.enums@),
        map_binds(sym.enums@, d.name@, sym.module_id@ + "_"@ + d.name@),
    ensures
        rewrite_ok(r),
        r matches Ok(x) ==> x.variants@.len() == d.variants@.len() && x.name@ == sym.module_id@ + "_"@ + d.name@,
        sc.private_types@.len() == 0 ==> r is Ok,
{
    let mut variants: Vec<syntax::EnumVariantDecl> = Vec::new();
    let mut i: usize = 0;
    while i < d.variants.len()
        invariant
            i <= d.variants@.len(),
            variants@.len() == i,
        decreases d.variants@.len() - i,
    {
        let v = &d.variants[i];
        let mut tys: Vec<TypeName> = Vec::new();
        let mut k: usize = 0;
        while k < v.payload_tys.len()
            decreases v.payload_tys@.len() - k,
        {
            proof {
                if sc.private_types@.len() == 0 {
                    lemma_type_not_hidden(&v.payload_tys@[k as int], sc.types@, sc.private_types@);
                }
            }
            match rewrite_type_name(&v.payload_tys[k], &sc.types, &sc.private_types, source_path, v.line, v.column) {
                Ok(t) => tys.push(t),
                Err(e) => return Err(e),
            }
            k = k + 1;
        }
        variants.push(
            syntax::EnumVariantDecl {
                name: v.name.clone(),
                payload_tys: tys,
                payload_names: clone_strings(&v.payload_names),
                line: v.line,
                column: v.column,
            },
        );
        i = i + 1;
    }
    Ok(
        syntax::EnumDecl {
            name: own_name(&sym.enums, &sym.module_id, &d.name),
            variants,
            is_public: d.is_public,
            line: d.line,
            column: d.column,
        },
    )
}

fn rewrite_function(f: &syntax::Function, sym: &ModuleSymbols, sc: &Scope, source_path: &str) -> (r:
    Result<syntax::Function, Diagnostic>)
    requires
        map_keys_distinct(sym.functions@),
        map_binds(sym.functions@, f.name@, sym.module_id@ + "_"@ + f.name@),
    ensures
        rewrite_ok(r),
        r matches Ok(g) ==> block_renamed(&f.body, &g.body, sc.functions@, sc.structs@, sc.types@)
            && g.params@.len() == f.params@.len() && g.name@ == sym.module_id@ + "_"@ + f.name@,
        sc.private_types@.len() == 0 && sc.private_functions@.len() == 0 ==> r is Ok,
{
    proof {
        if sc.private_types@.len() == 0 && sc.private_functions@.len() == 0 {
            lemma_block_not_hidden(&f.body, sc.functions@, sc.structs@, sc.types@, sc.private_functions@, sc.private_types@);
            lemma_type_not_hidden(&f.return_ty, sc.types@, sc.private_types@);
        }
    }
    let body = match rewrite_block(&f.body, sc, source_path) {
        Ok(b) => b,
        Err(e) => return Err(e),
    };
    let mut params: Vec<syntax::Param> = Vec::new();
    let mut i: usize = 0;
    while i < f.params.len()
        invariant
            i <= f.params@.len(),
            params@.len() == i,
        decreases f.params@.len() - i,
    {
        let p = &f.params[i];
        proof {
            if sc.private_types@.len() == 0 {
                lemma_type_not_hidden(&p.ty, sc.types@, sc.private_types@);
            }
        }
        match rewrite_type_name(&p.ty, &sc.types, &sc.private_types, source_path, p.line, p.column) {
            Ok(t) => params.push(syntax::Param { name: p.name.clone(), ty: t, line: p.line, column: p.column }),
            Err(e) => return Err(e),
        }
        i = i + 1;
    }
    let return_ty = match rewrite_type_name(&f.return_ty, &sc.types, &sc.private_types, source_path, f.line, f.column) {
        Ok(t) => t,
        Err(e) => return Err(e),
    };
    Ok(
        syntax::Function {
            name: own_name(&sym.functions, &sym.module_id, &f.name),
            params,
            return_ty,
            body,
            is_public: f.is_public,
            line: f.line,
            column: f.column,
        },
    )
}

fn find_module(modules: &Vec<LoadedModule>, path: &String) -> (r: Option<usize>)
    ensures
        r matches Some(k) ==> k < modules@.len() && modules@[k as int].path@ == path@ && forall|j: int|
            0 <= j < k ==> (#[trigger] modules@[j]).path@ != path@,
        r is None ==> forall|j: int| 0 <= j < modules@.len() ==> (#[trigger] modules@[j]).path@ != path@,
{
    let mut i: usize = 0;
    while i < modules.len()
        invariant
            i <= modules@.len(),
            forall|j: int| 0 <= j < i ==> (#[trigger] modules@[j]).path@ != path@,
        decreases modules@.len() - i,
    {
        if modules[i].path == *path {
            return Some(i);
        }
        i = i + 1;
    }
    None
}

/// The position of the first module at or after `i` whose path is `path`, or -1.
pub open spec fn module_at_from(modules: Seq<LoadedModule>, path: Seq<char>, i: nat) -> int
    decreases modules.len() - i,
{
    if i >= modules.len() {
        -1
    } else if modules[i as int].path@ == path {
        i as int
    } else {
        module_at_from(modules, path, i + 1)
    }
}

proof fn lemma_module_at(modules: Seq<LoadedModule>, path: Seq<char>, i: nat, k: int)
    requires
        i <= k <= modules.len(),
        forall|j: int| i <= j < k ==> (#[trigger] modules[j]).path@ != path,
        k < modules.len() ==> modules[k].path@ == path,
    ensures
        module_at_from(modules, path, i) == (if k < modules.len() {
            k
        } else {
            -1
        }),
    decreases k - i,
{
    if i < k {
        lemma_module_at(modules, path, i + 1, k);
    }
}

/// The private names of the modules that the first `n` imports of `m` name,
/// in import order: their functions, or (for `types`) their structs and then
/// their enums.
pub open spec fn privates_imported(
    modules: Seq<LoadedModule>,
    symbols: Seq<ModuleSymbols>,
    m: LoadedModule,
    n: nat,
    types: bool,
) -> Seq<String>
    decreases n,
{
    if n == 0 || n > m.import_paths@.len() {
        Seq::empty()
    } else {
        let prev = privates_imported(modules, symbols, m, (n - 1) as nat, types);
        let target = module_at_from(modules, m.import_paths@[n - 1]@, 0);
        if target < 0 || target >= symbols.len() {
            prev
        } else if types {
            prev + symbols[target].private_structs@ + symbols[target].private_enums@
        } else {
            prev + symbols[target].private_functions@
        }
    }
}

/// Every public name of the module that import `j` of `m` names is bound in
/// `functions`, `structs` and `enums`, by kind.
pub open spec fn import_visible(
    modules: Seq<LoadedModule>,
    symbols: Seq<ModuleSymbols>,
    m: LoadedModule,
    j: int,
    functions: Seq<(String, String)>,
    structs: Seq<(String, String)>,
    enums: Seq<(String, String)>,
) -> bool {
    let target = module_at_from(modules, m.import_paths@[j]@, 0);
    0 <= target < symbols.len() ==> {
        &&& forall|e: int|
            0 <= e < symbols[target].public_functions@.len() ==> map_has_key(
                functions,
                (#[trigger] symbols[target].public_functions@[e]).0@,
            )
        &&& forall|e: int|
            0 <= e < symbols[target].public_structs@.len() ==> map_has_key(
                structs,
                (#[trigger] symbols[target].public_structs@[e]).0@,
            )
        &&& forall|e: int|
            0 <= e < symbols[target].public_enums@.len() ==> map_has_key(
                enums,
                (#[trigger] symbols[target].public_enums@[e]).0@,
            )
    }
}

/// A name bound in `a` is bound in `b`, to the same declaration.
pub open spec fn binds_kept(a: Seq<(String, String)>, b: Seq<(String, String)>) -> bool {
    forall|n: Seq<char>, v: Seq<char>| map_binds(a, n, v) ==> map_binds(b, n, v)
}

proof fn lemma_key_kept(a: Seq<(String, String)>, b: Seq<(String, String)>, n: Seq<char>)
    requires
        binds_kept(a, b),
        map_has_key(a, n),
    ensures
        map_has_key(b, n),
{
    let w = choose|w: int| 0 <= w < a.len() && (#[trigger] a[w]).0@ == n;
    assert(map_binds(a, n, a[w].1@));
    let x = choose|x: int| 0 <= x < b.len() && (#[trigger] b[x]).0@ == n && b[x].1@ == a[w].1@;
}

/// What an import makes visible stays visible while the maps only gain bindings.
proof fn lemma_import_visible_kept(
    modules: Seq<LoadedModule>,
    symbols: Seq<ModuleSymbols>,
    m: LoadedModule,
    j: int,
    f1: Seq<(String, String)>,
    s1: Seq<(String, String)>,
    e1: Seq<(String, String)>,
    f2: Seq<(String, String)>,
    s2: Seq<(String, String)>,
    e2: Seq<(String, String)>,
)
    requires
        import_visible(modules, symbols, m, j, f1, s1, e1),
        binds_kept(f1, f2),
        binds_kept(s1, s2),
        binds_kept(e1, e2),
    ensures
        import_visible(modules, symbols, m, j, f2, s2, e2),
{
    let target = module_at_from(modules, m.import_paths@[j]@, 0);
    if 0 <= target < symbols.len() {
        assert forall|e: int| 0 <= e < symbols[target].public_functions@.len() implies map_has_key(
            f2,
            (#[trigger] symbols[target].public_functions@[e]).0@,
        ) by {
            lemma_key_kept(f1, f2, symbols[target].public_functions@[e].0@);
        }
        assert forall|e: int| 0 <= e < symbols[target].public_structs@.len() implies map_has_key(
            s2,
            (#[trigger] symbols[target].public_structs@[e]).0@,
        ) by {
            lemma_key_kept(s1, s2, symbols[target].public_structs@[e].0@);
        }
        assert forall|e: int| 0 <= e < symbols[target].public_enums@.len() implies map_has_key(
            e2,
            (#[trigger] symbols[target].public_enums@[e]).0@,
        ) by {
            lemma_key_kept(e1, e2, symbols[target].public_enums@[e].0@);
        }
    }
}

/// The scope of module `k`: its own declarations, and the public ones of the
/// modules it imports.
fn module_scope(modules: &Vec<LoadedModule>, symbols: &Vec<ModuleSymbols>, k: usize) -> (r: Result<
    Scope,
    Diagnostic,
>)
    requires
        k < modules@.len(),
        symbols@.len() == modules@.len(),
        symbols_for(modules@[k as int], symbols@[k as int]),
    ensures
        r matches Err(d) ==> d.kind@ == "import"@,
        r matches Ok(sc) ==> modules@[k as int].program.imports@.len() <= modules@[k as int].import_paths@.len()
            && forall|j: int|
            0 <= j < modules@[k as int].program.imports@.len() ==> module_at_from(
                modules@,
                (#[trigger] modules@[k as int].import_paths@[j])@,
                0,
            ) >= 0,
        r matches Ok(sc) ==> sc.private_functions@ == privates_imported(
            modules@,
            symbols@,
            modules@[k as int],
            modules@[k as int].program.imports@.len(),
            false,
        ) && sc.private_types@ == privates_imported(
            modules@,
            symbols@,
            modules@[k as int],
            modules@[k as int].program.imports@.len(),
            true,
        ),
        r matches Ok(sc) ==> forall|n: Seq<char>, v: Seq<char>|
            map_binds(symbols@[k as int].functions@, n, v) ==> map_binds(sc.functions@, n, v),
        r matches Ok(sc) ==> forall|n: Seq<char>, v: Seq<char>|
            map_binds(symbols@[k as int].structs@, n, v) ==> map_binds(sc.structs@, n, v),
        r matches Ok(sc) ==> forall|n: Seq<char>, v: Seq<char>|
            map_binds(symbols@[k as int].enums@, n, v) ==> map_binds(sc.types@, n, v),
        r matches Ok(sc) ==> map_keys_distinct(sc.types@) && forall|n: Seq<char>, v: Seq<char>|
            map_binds(sc.structs@, n, v) ==> map_binds(sc.types@, n, v),
        r matches Ok(sc) ==> forall|j: int|
            0 <= j < modules@[k as int].program.imports@.len() ==> #[trigger] import_visible(
                modules@,
                symbols@,
                modules@[k as int],
                j,
                sc.functions@,
                sc.structs@,
                sc.types@,
            ),
        modules@[k as int].program.imports@.len() == 0 && declarations_distinct(&modules@[k as int].program)
            && symbol_keys_match(modules@[k as int], symbols@[k as int]) ==> (r matches Ok(sc)
            && sc.private_functions@.len() == 0 && sc.private_types@.len() == 0),
{
    let module = &modules[k];
    let sym = &symbols[k];
    let mut functions = clone_map(&sym.functions);
    let mut structs = clone_map(&sym.structs);
    let mut enums = clone_map(&sym.enums);
    proof {
        assert forall|a: int, b: int| 0 <= a < b < structs@.len() implies (#[trigger] structs@[a]).0@
            != (#[trigger] structs@[b]).0@ by {
            assert(sym.structs@[a].0@ != sym.structs@[b].0@);
        }
        assert forall|a: int, b: int| 0 <= a < b < enums@.len() implies (#[trigger] enums@[a]).0@
            != (#[trigger] enums@[b]).0@ by {
            assert(sym.enums@[a].0@ != sym.enums@[b].0@);
        }
    }
    proof {
        assert forall|n: Seq<char>, v: Seq<char>| map_binds(sym.functions@, n, v) implies map_binds(
            functions@,
            n,
            v,
        ) by {
            let w = choose|w: int| 0 <= w < sym.functions@.len() && (#[trigger] sym.functions@[w]).0@ == n
                && sym.functions@[w].1@ == v;
            assert(functions@[w].0@ == n);
        }
        assert forall|n: Seq<char>, v: Seq<char>| map_binds(sym.structs@, n, v) implies map_binds(
            structs@,
            n,
            v,
        ) by {
            let w = choose|w: int| 0 <= w < sym.structs@.len() && (#[trigger] sym.structs@[w]).0@ == n
                && sym.structs@[w].1@ == v;
            assert(structs@[w].0@ == n);
        }
        assert forall|n: Seq<char>, v: Seq<char>| map_binds(sym.enums@, n, v) implies map_binds(
            enums@,
            n,
            v,
        ) by {
            let w = choose|w: int| 0 <= w < sym.enums@.len() && (#[trigger] sym.enums@[w]).0@ == n
                && sym.enums@[w].1@ == v;
            assert(enums@[w].0@ == n);
        }
    }
    let mut private_functions: Vec<String> = Vec::new();
    let mut private_types: Vec<String> = Vec::new();
    let mut j: usize = 0;
    while j < module.program.imports.len()
        invariant
            module.program.imports@.len() == 0 ==> structs@.len() == sym.structs@.len() && enums@.len()
                == sym.enums@.len() && (forall|q: int|
                0 <= q < structs@.len() ==> (#[trigger] structs@[q]).0@ == sym.structs@[q].0@) && (forall|
                q: int,
            |
                0 <= q < enums@.len() ==> (#[trigger] enums@[q]).0@ == sym.enums@[q].0@),
            symbols@.len() == modules@.len(),
            *module == modules@[k as int],
            *sym == symbols@[k as int],
            j <= module.program.imports@.len(),
            map_keys_distinct(structs@),
            map_keys_distinct(enums@),
            j <= module.import_paths@.len(),
            forall|jj: int|
                0 <= jj < j ==> module_at_from(modules@, (#[trigger] module.import_paths@[jj])@, 0) >= 0,
            private_functions@ == privates_imported(modules@, symbols@, *module, j as nat, false),
            private_types@ == privates_imported(modules@, symbols@, *module, j as nat, true),
            forall|n: Seq<char>, v: Seq<char>| map_binds(sym.functions@, n, v) ==> map_binds(functions@, n, v),
            forall|n: Seq<char>, v: Seq<char>| map_binds(sym.structs@, n, v) ==> map_binds(structs@, n, v),
            forall|n: Seq<char>, v: Seq<char>| map_binds(sym.enums@, n, v) ==> map_binds(enums@, n, v),
            forall|jj: int|
                0 <= jj < j ==> #[trigger] import_visible(modules@, symbols@, *module, jj, functions@, structs@, enums@),
        decreases module.program.imports@.len() - j,
    {
        let import = &module.program.imports[j];
        if j >= module.import_paths.len() {
            return Err(
                Diagnostic::new("import", cat("internal error: unresolved import ", import.path.as_str())).with_path(
                    module.path.clone(),
                ),
            );
        }
        let target = match find_module(modules, &module.import_paths[j]) {
            Some(t) => {
                proof {
                    lemma_module_at(modules@, module.import_paths@[j as int]@, 0, t as int);
                }
                t
            },
            None => {
                return Err(
                    Diagnostic::new(
                        "import",
                        cat("internal error: missing module ", module.import_paths[j].as_str()),
                    ),
                );
            },
        };
        let imported = &symbols[target];
        let ghost f0 = functions@;
        let ghost s0 = structs@;
        let ghost e0 = enums@;
        add_names(&mut private_functions, &imported.private_functions);
        if let Err(d) = import_bindings(
            &mut functions,
            &imported.public_functions,
            "function",
            &module.path,
            import.line,
            import.column,
        ) {
            return Err(d);
        }
        add_names(&mut private_types, &imported.private_structs);
        add_names(&mut private_types, &imported.private_enums);
        if let Err(d) = import_bindings(
            &mut structs,
            &imported.public_structs,
            "struct",
            &module.path,
            import.line,
            import.column,
        ) {
            return Err(d);
        }
        if let Err(d) = import_bindings(
            &mut enums,
            &imported.public_enums,
            "enum",
            &module.path,
            import.line,
            import.column,
        ) {
            return Err(d);
        }
        proof {
            assert(binds_kept(f0, functions@));
            assert(binds_kept(s0, structs@));
            assert(binds_kept(e0, enums@));
            assert forall|jj: int| 0 <= jj < j + 1 implies #[trigger] import_visible(
                modules@,
                symbols@,
                *module,
                jj,
                functions@,
                structs@,
                enums@,
            ) by {
                if jj < j {
                    lemma_import_visible_kept(
                        modules@,
                        symbols@,
                        *module,
                        jj,
                        f0,
                        s0,
                        e0,
                        functions@,
                        structs@,
                        enums@,
                    );
                } else {
                    assert(module_at_from(modules@, module.import_paths@[jj]@, 0) == target);
                }
            }
        }
        j = j + 1;
    }
    proof {
        if module.program.imports@.len() == 0 && declarations_distinct(&module.program) && symbol_keys_match(
            *module,
            *sym,
        ) {
            assert forall|a: int, b: int|
                0 <= a < structs@.len() && 0 <= b < enums@.len() implies (#[trigger] structs@[a]).0@ != (
                #[trigger] enums@[b]).0@ by {
                assert(sym.structs@[a].0@ == module.program.structs@[a].name@);
                assert(sym.enums@[b].0@ == module.program.enums@[b].name@);
            }
            assert(!bindings_collide(structs@, enums@));
        }
    }
    let types = match merge_visible_types(&structs, &enums, &module.path) {
        Ok(t) => t,
        Err(d) => return Err(d),
    };
    proof {
        assert(binds_kept(enums@, types@));
        assert(binds_kept(functions@, functions@));
        assert(binds_kept(structs@, structs@));
        assert forall|jj: int| 0 <= jj < module.program.imports@.len() implies #[trigger] import_visible(
            modules@,
            symbols@,
            *module,
            jj,
            functions@,
            structs@,
            types@,
        ) by {
            assert(import_visible(modules@, symbols@, *module, jj, functions@, structs@, enums@));
            lemma_import_visible_kept(
                modules@,
                symbols@,
                *module,
                jj,
                functions@,
                structs@,
                enums@,
                functions@,
                structs@,
                types@,
            );
        }
    }
    Ok(Scope { functions, structs, types, private_functions, private_types })
}

pub open spec fn struct_names(v: Seq<syntax::StructDecl>) -> Seq<Seq<char>> {
    v.map_values(|d: syntax::StructDecl| d.name@)
}

pub open spec fn enum_names(v: Seq<syntax::EnumDecl>) -> Seq<Seq<char>> {
    v.map_values(|d: syntax::EnumDecl| d.name@)
}

pub open spec fn function_names(v: Seq<syntax::Function>) -> Seq<Seq<char>> {
    v.map_values(|f: syntax::Function| f.name@)
}

/// Each name qualified by the module identifier `id`.
pub open spec fn qualified_names(id: Seq<char>, names: Seq<Seq<char>>) -> Seq<Seq<char>> {
    names.map_values(|n: Seq<char>| id + "_"@ + n)
}

/// The qualified names of the structs of `ms`, module after module.
pub open spec fn flat_struct_names(ms: Seq<LoadedModule>) -> Seq<Seq<char>>
    decreases ms.len(),
{
    if ms.len() == 0 {
        seq![]
    } else {
        flat_struct_names(ms.drop_last()) + qualified_names(
            id_of(ms.last()),
            struct_names(ms.last().program.structs@),
        )
    }
}

/// The qualified names of the enums of `ms`, module after module.
pub open spec fn flat_enum_names(ms: Seq<LoadedModule>) -> Seq<Seq<char>>
    decreases ms.len(),
{
    if ms.len() == 0 {
        seq![]
    } else {
        flat_enum_names(ms.drop_last()) + qualified_names(id_of(ms.last()), enum_names(ms.last().program.enums@))
    }
}

/// The qualified names of the functions of `ms`, module after module.
pub open spec fn flat_function_names(ms: Seq<LoadedModule>) -> Seq<Seq<char>>
    decreases ms.len(),
{
    if ms.len() == 0 {
        seq![]
    } else {
        flat_function_names(ms.drop_last()) + qualified_names(
            id_of(ms.last()),
            function_names(ms.last().program.functions@),
        )
    }
}

/// How many top-level statements the entry modules among `ms` hold.
pub open spec fn entry_statement_count(ms: Seq<LoadedModule>) -> nat
    decreases ms.len(),
{
    if ms.len() == 0 {
        0
    } else {
        entry_statement_count(ms.drop_last()) + if ms.last().is_entry {
            ms.last().program.stmts@.len()
        } else {
            0
        }
    }
}

pub open spec fn flatten_error(r: Result<(), Diagnostic>) -> bool {
    r matches Err(d) ==> d.kind@ == "import"@ || d.kind@ == "type"@
}

/// Adds the declarations of module `k`, under their qualified names, and, for
/// the entry module, its statements.
fn flatten_module(
    modules: &Vec<LoadedModule>,
    symbols: &Vec<ModuleSymbols>,
    k: usize,
    structs: &mut Vec<syntax::StructDecl>,
    enums: &mut Vec<syntax::EnumDecl>,
    functions: &mut Vec<syntax::Function>,
    stmts: &mut Vec<syntax::Stmt>,
) -> (r: Result<(), Diagnostic>)
    requires
        k < modules@.len(),
        symbols@.len() == modules@.len(),
        symbols_for(modules@[k as int], symbols@[k as int]),
    ensures
        flatten_error(r),
        r is Ok ==> struct_names(final(structs)@) == struct_names(old(structs)@) + qualified_names(
            id_of(modules@[k as int]),
            struct_names(modules@[k as int].program.structs@),
        ),
        r is Ok ==> enum_names(final(enums)@) == enum_names(old(enums)@) + qualified_names(
            id_of(modules@[k as int]),
            enum_names(modules@[k as int].program.enums@),
        ),
        r is Ok ==> function_names(final(functions)@) == function_names(old(functions)@) + qualified_names(
            id_of(modules@[k as int]),
            function_names(modules@[k as int].program.functions@),
        ),
        r is Ok ==> final(stmts)@.len() == old(stmts)@.len() + if modules@[k as int].is_entry {
            modules@[k as int].program.stmts@.len()
        } else {
            0
        },
        self_contained(modules@[k as int]) && symbol_keys_match(modules@[k as int], symbols@[k as int])
            ==> r is Ok,
        r is Ok && modules@[k as int].is_entry ==> entry_statements_renamed(
            modules@,
            k as int,
            final(stmts)@.subrange(old(stmts)@.len() as int, final(stmts)@.len() as int),
        ),
        r is Ok && !modules@[k as int].is_entry ==> final(stmts)@ == old(stmts)@,
{
    let module = &modules[k];
    let sym = &symbols[k];
    let ghost id = id_of(*module);
    let ghost plain = self_contained(modules@[k as int]) && symbol_keys_match(
        modules@[k as int],
        symbols@[k as int],
    );
    let sc = match module_scope(modules, symbols, k) {
        Ok(s) => s,
        Err(d) => return Err(d),
    };
    proof {
        if plain {
            lemma_block_not_hidden(&module.program.stmts, sc.functions@, sc.structs@, sc.types@, sc.private_functions@, sc.private_types@);
        }
    }
    let path = module.path.as_str();
    let ghost s0 = struct_names(structs@);
    let mut a: usize = 0;
    while a < module.program.structs.len()
        invariant
            a <= module.program.structs@.len(),
            plain ==> sc.private_functions@.len() == 0 && sc.private_types@.len() == 0,
            plain == (self_contained(modules@[k as int]) && symbol_keys_match(modules@[k as int], symbols@[k as int])),
            symbols_for(*module, *sym),
            id == sym.module_id@,
            struct_names(structs@) == s0 + qualified_names(id, struct_names(module.program.structs@.take(a as int))),
        decreases module.program.structs@.len() - a,
    {
        let ghost before = struct_names(structs@);
        match rewrite_struct(&module.program.structs[a], sym, &sc, path) {
            Ok(x) => structs.push(x),
            Err(d) => return Err(d),
        }
        proof {
            assert(module.program.structs@.take(a + 1) =~= module.program.structs@.take(a as int).push(
                module.program.structs@[a as int],
            ));
            assert(struct_names(structs@) =~= before.push(id + "_"@ + module.program.structs@[a as int].name@));
            assert(struct_names(structs@) =~= s0 + qualified_names(
                id,
                struct_names(module.program.structs@.take(a + 1)),
            ));
        }
        a = a + 1;
    }
    proof {
        assert(module.program.structs@.take(module.program.structs@.len() as int) =~= module.program.structs@);
    }
    let ghost e0 = enum_names(enums@);
    let mut b: usize = 0;
    while b < module.program.enums.len()
        invariant
            b <= module.program.enums@.len(),
            plain ==> sc.private_functions@.len() == 0 && sc.private_types@.len() == 0,
            plain == (self_contained(modules@[k as int]) && symbol_keys_match(modules@[k as int], symbols@[k as int])),
            symbols_for(*module, *sym),
            id == sym.module_id@,
            enum_names(enums@) == e0 + qualified_names(id, enum_names(module.program.enums@.take(b as int))),
        decreases module.program.enums@.len() - b,
    {
        let ghost before = enum_names(enums@);
        match rewrite_enum(&module.program.enums[b], sym, &sc, path) {
            Ok(x) => enums.push(x),
            Err(d) => return Err(d),
        }
        proof {
            assert(module.program.enums@.take(b + 1) =~= module.program.enums@.take(b as int).push(
                module.program.enums@[b as int],
            ));
            assert(enum_names(enums@) =~= before.push(id + "_"@ + module.program.enums@[b as int].name@));
            assert(enum_names(enums@) =~= e0 + qualified_names(id, enum_names(module.program.enums@.take(b + 1))));
        }
        b = b + 1;
    }
    proof {
        assert(module.program.enums@.take(module.program.enums@.len() as int) =~= module.program.enums@);
    }
    let ghost f0 = function_names(functions@);
    let mut c: usize = 0;
    while c < module.program.functions.len()
        invariant
            c <= module.program.functions@.len(),
            plain ==> sc.private_functions@.len() == 0 && sc.private_types@.len() == 0,
            plain == (self_contained(modules@[k as int]) && symbol_keys_match(modules@[k as int], symbols@[k as int])),
            symbols_for(*module, *sym),
            id == sym.module_id@,
            function_names(functions@) == f0 + qualified_names(
                id,
                function_names(module.program.functions@.take(c as int)),
            ),
        decreases module.program.functions@.len() - c,
    {
        let ghost before = function_names(functions@);
        match rewrite_function(&module.program.functions[c], sym, &sc, path) {
            Ok(x) => functions.push(x),
            Err(d) => return Err(d),
        }
        proof {
            assert(module.program.functions@.take(c + 1) =~= module.program.functions@.take(c as int).push(
                module.program.functions@[c as int],
            ));
            assert(function_names(functions@) =~= before.push(
                id + "_"@ + module.program.functions@[c as int].name@,
            ));
            assert(function_names(functions@) =~= f0 + qualified_names(
                id,
                function_names(module.program.functions@.take(c + 1)),
            ));
        }
        c = c + 1;
    }
    proof {
        assert(module.program.functions@.take(module.program.functions@.len() as int)
            =~= module.program.functions@);
    }
    if module.is_entry {
        match rewrite_block(&module.program.stmts, &sc, path) {
            Ok(b) => {
                let mut b = b;
                let ghost bv = b@;
                let ghost before = stmts@;
                stmts.append(&mut b);
                proof {
                    assert(stmts@.subrange(before.len() as int, stmts@.len() as int) =~= bv);
                    assert(stmts_renamed(module.program.stmts@, bv, sc.functions@, sc.structs@, sc.types@));
                }
            },
            Err(d) => return Err(d),
        }
    }
    Ok(())
}

/// Flattens a package's modules, in the order loaded, into one program: the
/// declarations of every module under their qualified names, and the
/// statements of the entry module.
pub fn flatten_modules(modules: &Vec<LoadedModule>) -> (r: Result<syntax::Program, Diagnostic>)
    ensures
        r matches Err(d) ==> d.kind@ == "import"@ || d.kind@ == "type"@,
        (exists|k: int| 0 <= k < modules@.len() && !declarations_distinct(&(#[trigger] modules@[k]).program))
            ==> (r matches Err(d) && d.kind@ == "type"@),
        r is Ok ==> forall|k: int|
            0 <= k < modules@.len() ==> declarations_distinct(&(#[trigger] modules@[k]).program),
        r matches Ok(p) ==> {
            &&& p.imports@.len() == 0
            &&& struct_names(p.structs@) == flat_struct_names(modules@)
            &&& enum_names(p.enums@) == flat_enum_names(modules@)
            &&& function_names(p.functions@) == flat_function_names(modules@)
            &&& p.stmts@.len() == entry_statement_count(modules@)
        },
        modules@.len() == 0 ==> (r matches Ok(p) && p.structs@.len() == 0 && p.enums@.len() == 0
            && p.functions@.len() == 0 && p.stmts@.len() == 0),
        (forall|k: int| 0 <= k < modules@.len() ==> self_contained(#[trigger] modules@[k])) ==> r is Ok,
        r matches Ok(p) ==> forall|e: int| #[trigger] sole_entry(modules@, e) ==> entry_statements_renamed(
            modules@,
            e,
            p.stmts@,
        ),
{
    let mut symbols: Vec<ModuleSymbols> = Vec::new();
    let mut i: usize = 0;
    while i < modules.len()
        invariant
            i <= modules@.len(),
            symbols@.len() == i,
            forall|j: int| 0 <= j < i ==> symbols_for(modules@[j], #[trigger] symbols@[j]),
            forall|j: int| 0 <= j < i ==> symbol_keys_match(modules@[j], #[trigger] symbols@[j]),
            forall|j: int| 0 <= j < i ==> declarations_distinct(&(#[trigger] modules@[j]).program),
        decreases modules@.len() - i,
    {
        match build_module_symbols(&modules[i]) {
            Ok(s) => symbols.push(s),
            Err(d) => return Err(d),
        }
        i = i + 1;
    }
    let mut structs: Vec<syntax::StructDecl> = Vec::new();
    let mut enums: Vec<syntax::EnumDecl> = Vec::new();
    let mut functions: Vec<syntax::Function> = Vec::new();
    let mut stmts: Vec<syntax::Stmt> = Vec::new();
    let mut k: usize = 0;
    while k < modules.len()
        invariant
            k <= modules@.len(),
            symbols@.len() == modules@.len(),
            forall|j: int| 0 <= j < modules@.len() ==> symbols_for(modules@[j], #[trigger] symbols@[j]),
            forall|j: int| 0 <= j < modules@.len() ==> symbol_keys_match(modules@[j], #[trigger] symbols@[j]),
            forall|e: int|
                #[trigger] sole_entry(modules@, e) ==> (k <= e ==> stmts@.len() == 0) && (k > e
                    ==> entry_statements_renamed(modules@, e, stmts@)),
            struct_names(structs@) == flat_struct_names(modules@.take(k as int)),
            enum_names(enums@) == flat_enum_names(modules@.take(k as int)),
            function_names(functions@) == flat_function_names(modules@.take(k as int)),
            stmts@.len() == entry_statement_count(modules@.take(k as int)),
            forall|j: int| 0 <= j < modules@.len() ==> declarations_distinct(&(#[trigger] modules@[j]).program),
        decreases modules@.len() - k,
    {
        proof {
            if forall|q: int| 0 <= q < modules@.len() ==> self_contained(#[trigger] modules@[q]) {
                assert(self_contained(modules@[k as int]));
                assert(symbol_keys_match(modules@[k as int], symbols@[k as int]));
            }
        }
        let ghost before = stmts@;
        if let Err(d) = flatten_module(modules, &symbols, k, &mut structs, &mut enums, &mut functions, &mut stmts) {
            return Err(d);
        }
        proof {
            assert forall|e: int| #[trigger] sole_entry(modules@, e) implies (k + 1 <= e ==> stmts@.len() == 0) && (k + 1
                > e ==> entry_statements_renamed(modules@, e, stmts@)) by {
                if k as int == e {
                    assert(before.len() == 0);
                    assert(stmts@.subrange(0, stmts@.len() as int) =~= stmts@);
                } else {
                    assert(!modules@[k as int].is_entry);
                }
            }
        }
        proof {
            assert(modules@.take(k + 1).drop_last() =~= modules@.take(k as int));
            assert(modules@.take(k + 1).last() == modules@[k as int]);
        }
        k = k + 1;
    }
    proof {
        assert(modules@.take(modules@.len() as int) =~= modules@);
    }
    Ok(syntax::Program { imports: Vec::new(), structs, enums, functions, stmts })
}

} // verus!
