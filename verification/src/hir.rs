//! The typed intermediate representation and the checker that lowers the
//! surface syntax into it: name resolution, type checking, control-flow
//! checks, capability gating and the stage1 ownership rules for moves and
//! borrowed slices.
use vstd::prelude::*;
use crate::diagnostics::Diagnostic;
use crate::manifest::{CapabilityConfig, CapabilityKind};
use crate::syntax;
use crate::codegen::strings_joined;
use crate::text::{cat, cat3, cat4, cat5, debug_quoted, debug_string, decimal, string_is, usize_to_string};

verus! {

#[derive(Debug, PartialEq, Eq)]
pub struct Program {
    pub structs: Vec<StructDef>,
    pub enums: Vec<EnumDef>,
    pub functions: Vec<Function>,
    pub stmts: Vec<Stmt>,
}

#[derive(Debug, PartialEq, Eq)]
pub struct StructDef {
    pub name: String,
    pub fields: Vec<StructField>,
}

#[derive(Debug, PartialEq, Eq)]
pub struct StructField {
    pub name: String,
    pub ty: Type,
}

#[derive(Debug, PartialEq, Eq)]
pub struct EnumDef {
    pub name: String,
    pub variants: Vec<EnumVariantDef>,
}

#[derive(Debug, PartialEq, Eq)]
pub struct EnumVariantDef {
    pub name: String,
    pub payload_tys: Vec<Type>,
    pub payload_names: Vec<String>,
}

#[derive(Debug, PartialEq, Eq)]
pub struct Function {
    pub name: String,
    pub params: Vec<Param>,
    pub return_ty: Type,
    pub body: Vec<Stmt>,
}

#[derive(Debug, PartialEq, Eq)]
pub struct Param {
    pub name: String,
    pub ty: Type,
}

#[derive(Debug, PartialEq, Eq)]
pub enum Stmt {
    Let { name: String, ty: Type, expr: Expr },
    Print(Expr),
    If { cond: Expr, then_block: Vec<Stmt>, else_block: Option<Vec<Stmt>> },
    While { cond: Expr, body: Vec<Stmt> },
    Match { expr: Expr, arms: Vec<MatchArm> },
    Return(Expr),
}

#[derive(Debug, PartialEq, Eq)]
pub struct MatchArm {
    pub enum_name: String,
    pub variant: String,
    pub bindings: Vec<String>,
    pub is_named: bool,
    pub body: Vec<Stmt>,
}

#[derive(Debug, PartialEq, Eq)]
pub struct MapEntry {
    pub key: Expr,
    pub value: Expr,
}

#[derive(Debug, PartialEq, Eq)]
pub enum Expr {
    Literal { ty: Type, value: LiteralValue },
    VarRef { name: String, ty: Type },
    Call { name: String, args: Vec<Expr>, ty: Type },
    BinaryAdd { lhs: Box<Expr>, rhs: Box<Expr>, ty: Type },
    BinaryCompare { op: CompareOp, lhs: Box<Expr>, rhs: Box<Expr>, ty: Type },
    StructLiteral { name: String, fields: Vec<StructFieldValue>, ty: Type },
    FieldAccess { base: Box<Expr>, field: String, ty: Type },
    TupleLiteral { elements: Vec<Expr>, ty: Type },
    TupleIndex { base: Box<Expr>, index: usize, ty: Type },
    MapLiteral { entries: Vec<MapEntry>, ty: Type },
    EnumVariant {
        enum_name: String,
        variant: String,
        field_names: Vec<String>,
        payloads: Vec<Expr>,
        ty: Type,
    },
    ArrayLiteral { elements: Vec<Expr>, ty: Type },
    Slice { base: Box<Expr>, start: Option<Box<Expr>>, end: Option<Box<Expr>>, ty: Type },
    Index { base: Box<Expr>, index: Box<Expr>, ty: Type },
}

#[derive(Debug, PartialEq, Eq)]
pub enum Type {
    Int,
    Bool,
    String,
    Struct(String),
    Enum(String),
    Slice(Box<Type>),
    MutSlice(Box<Type>),
    Option(Box<Type>),
    Result(Box<Type>, Box<Type>),
    Tuple(Vec<Type>),
    /// A map from keys to values, written `{K: V}` in source.
    Dict(Box<Type>, Box<Type>),
    Array(Box<Type>),
}

#[derive(Debug, Clone, PartialEq, Eq)]
pub enum LiteralValue {
    Int(i64),
    Bool(bool),
    String(String),
}

#[derive(Debug, Clone, Copy, PartialEq, Eq)]
pub enum CompareOp {
    Eq,
    Ne,
    Lt,
    Le,
    Gt,
    Ge,
}

#[derive(Debug, PartialEq, Eq)]
pub struct StructFieldValue {
    pub name: String,
    pub expr: Expr,
}

/// The state of one name in scope.
struct Binding {
    ty: Type,
    moved: bool,
    borrow_origin: Option<BorrowOrigin>,
    borrowed_owners: Vec<String>,
    active_borrow_count: usize,
}

struct FunctionSig {
    name: String,
    params: Vec<Type>,
    return_ty: Type,
    borrow_return_params: Vec<usize>,
}

enum BorrowOrigin {
    Param(String),
    Local,
}

struct VariantInfo {
    name: String,
    enum_name: String,
    payload_tys: Vec<Type>,
    payload_names: Vec<String>,
}

/// The declarations every function body is checked against.
struct Tables {
    struct_names: Vec<String>,
    enum_names: Vec<String>,
    structs: Vec<StructDef>,
    enums: Vec<EnumDef>,
    variants: Vec<VariantInfo>,
    functions: Vec<FunctionSig>,
    capabilities: CapabilityConfig,
}

/// What the body being checked may return, and through which borrowed parameters.
struct Frame {
    current_return: Option<Type>,
    current_borrow_return_params: Vec<String>,
}

/// The names in scope with their states, in order of introduction.
type Env = Vec<(String, Binding)>;

/// The kinds of error that lowering reports.
pub open spec fn lower_error_kind(k: Seq<char>) -> bool {
    k == "type"@ || k == "ownership"@ || k == "control"@ || k == "capability"@
}

pub open spec fn lower_ok<T>(r: Result<T, Diagnostic>) -> bool {
    r matches Err(d) ==> lower_error_kind(d.kind@)
}

fn err(kind: &str, msg: String, line: usize, column: usize) -> (d: Diagnostic)
    ensures
        d.kind@ == kind@,
        d.message@ == msg@,
{
    Diagnostic::new(kind, msg).with_span(line, column)
}

fn type_err(msg: String, line: usize, column: usize) -> (d: Diagnostic)
    ensures
        d.kind@ == "type"@,
{
    err("type", msg, line, column)
}

fn type_err_s(msg: &str, line: usize, column: usize) -> (d: Diagnostic)
    ensures
        d.kind@ == "type"@,
        d.message@ == msg@,
{
    err("type", String::from_str(msg), line, column)
}

fn own_err(msg: String) -> (d: Diagnostic)
    ensures
        d.kind@ == "ownership"@,
{
    Diagnostic::new("ownership", msg)
}

fn quoted(s: &String) -> (q: String)
    ensures
        q@ == debug_quoted(s@),
{
    debug_string(s.as_str())
}

// ----- Types -------------------------------------------------------------------

impl Type {
    /// Whether a value of this type owns something that a bitwise copy would
    /// duplicate: a string, an array, a map, a value of a declared struct or
    /// enum, or a mutable borrow, held directly or inside an `Option`,
    /// `Result` or tuple. Shared slices own nothing.
    pub open spec fn owns_data(&self) -> bool
        decreases self,
    {
        match self {
            Type::Int | Type::Bool | Type::Slice(_) => false,
            Type::String | Type::Struct(_) | Type::Enum(_) | Type::Dict(_, _) | Type::Array(_) | Type::MutSlice(
                _,
            ) => true,
            Type::Option(inner) => inner.owns_data(),
            Type::Result(ok, err) => ok.owns_data() || err.owns_data(),
            Type::Tuple(elements) => exists|i: int|
                0 <= i < elements.len() && (#[trigger] elements@[i]).owns_data(),
        }
    }

    pub open spec fn spec_is_copy(&self) -> bool
        decreases self,
    {
        match self {
            Type::Int | Type::Bool | Type::Slice(_) => true,
            Type::MutSlice(_) => false,
            Type::Option(inner) => inner.spec_is_copy(),
            Type::Result(ok, err) => ok.spec_is_copy() && err.spec_is_copy(),
            Type::Tuple(elements) => forall|i: int|
                0 <= i < elements.len() ==> (#[trigger] elements@[i]).spec_is_copy(),
            Type::String | Type::Struct(_) | Type::Enum(_) | Type::Dict(_, _) | Type::Array(_) => false,
        }
    }

    /// Whether values of this type are copied rather than moved.
    #[verifier::loop_isolation(false)]
    pub fn is_copy(&self) -> (b: bool)
        ensures
            b == self.spec_is_copy(),
        decreases self,
    {
        match self {
            Type::Int | Type::Bool | Type::Slice(_) => true,
            Type::MutSlice(_) => false,
            Type::Option(inner) => inner.is_copy(),
            Type::Result(ok, err) => ok.is_copy() && err.is_copy(),
            Type::Tuple(elements) => {
                let mut i: usize = 0;
                while i < elements.len()
                    invariant
                        i <= elements@.len(),
                        forall|j: int| 0 <= j < i ==> (#[trigger] elements@[j]).spec_is_copy(),
                    decreases elements@.len() - i,
                {
                    proof {
                        assert(decreases_to!(elements => elements[i as int]));
                    }
                    if !elements[i].is_copy() {
                        return false;
                    }
                    i = i + 1;
                }
                true
            },
            Type::String | Type::Struct(_) | Type::Enum(_) | Type::Dict(_, _) | Type::Array(_) => false,
        }
    }

    pub open spec fn spec_supports_map_key(&self) -> bool
        decreases self,
    {
        match self {
            Type::Int | Type::Bool | Type::String => true,
            Type::Tuple(elements) => forall|i: int|
                0 <= i < elements.len() ==> (#[trigger] elements@[i]).spec_supports_map_key(),
            _ => false,
        }
    }

    /// Whether values of this type may be map keys.
    #[verifier::loop_isolation(false)]
    pub fn supports_map_key(&self) -> (b: bool)
        ensures
            b == self.spec_supports_map_key(),
        decreases self,
    {
        match self {
            Type::Int | Type::Bool | Type::String => true,
            Type::Tuple(elements) => {
                let mut i: usize = 0;
                while i < elements.len()
                    invariant
                        i <= elements@.len(),
                        forall|j: int|
                            0 <= j < i ==> (#[trigger] elements@[j]).spec_supports_map_key(),
                    decreases elements@.len() - i,
                {
                    proof {
                        assert(decreases_to!(elements => elements[i as int]));
                    }
                    if !elements[i].supports_map_key() {
                        return false;
                    }
                    i = i + 1;
                }
                true
            },
            _ => false,
        }
    }
}

/// Structural equality of types, names compared by their characters.
pub open spec fn type_eq(a: &Type, b: &Type) -> bool
    decreases a,
{
    match (a, b) {
        (Type::Int, Type::Int) => true,
        (Type::Bool, Type::Bool) => true,
        (Type::String, Type::String) => true,
        (Type::Struct(x), Type::Struct(y)) => x@ == y@,
        (Type::Enum(x), Type::Enum(y)) => x@ == y@,
        (Type::Slice(x), Type::Slice(y)) => type_eq(x, y),
        (Type::MutSlice(x), Type::MutSlice(y)) => type_eq(x, y),
        (Type::Option(x), Type::Option(y)) => type_eq(x, y),
        (Type::Result(x1, x2), Type::Result(y1, y2)) => type_eq(x1, y1) && type_eq(x2, y2),
        (Type::Tuple(xs), Type::Tuple(ys)) => xs.len() == ys.len() && forall|i: int|
            0 <= i < xs.len() ==> type_eq(&(#[trigger] xs@[i]), &ys@[i]),
        (Type::Dict(x1, x2), Type::Dict(y1, y2)) => type_eq(x1, y1) && type_eq(x2, y2),
        (Type::Array(x), Type::Array(y)) => type_eq(x, y),
        _ => false,
    }
}

/// Every type equals itself.
pub proof fn lemma_type_eq_refl(a: &Type)
    ensures
        type_eq(a, a),
    decreases a,
{
    match a {
        Type::Slice(x) => lemma_type_eq_refl(x),
        Type::MutSlice(x) => lemma_type_eq_refl(x),
        Type::Option(x) => lemma_type_eq_refl(x),
        Type::Array(x) => lemma_type_eq_refl(x),
        Type::Result(x, y) => {
            lemma_type_eq_refl(x);
            lemma_type_eq_refl(y);
        },
        Type::Dict(x, y) => {
            lemma_type_eq_refl(x);
            lemma_type_eq_refl(y);
        },
        Type::Tuple(xs) => {
            assert forall|i: int| 0 <= i < xs.len() implies type_eq(&(#[trigger] xs@[i]), &xs@[i]) by {
                lemma_type_eq_refl(&xs@[i]);
            }
        },
        _ => {},
    }
}

/// Whether two types are the same.
#[verifier::loop_isolation(false)]
pub fn types_equal(a: &Type, b: &Type) -> (r: bool)
    ensures
        r == type_eq(a, b),
    decreases a,
{
    match (a, b) {
        (Type::Int, Type::Int) => true,
        (Type::Bool, Type::Bool) => true,
        (Type::String, Type::String) => true,
        (Type::Struct(x), Type::Struct(y)) => *x == *y,
        (Type::Enum(x), Type::Enum(y)) => *x == *y,
        (Type::Slice(x), Type::Slice(y)) => types_equal(x, y),
        (Type::MutSlice(x), Type::MutSlice(y)) => types_equal(x, y),
        (Type::Option(x), Type::Option(y)) => types_equal(x, y),
        (Type::Result(x1, x2), Type::Result(y1, y2)) => types_equal(x1, y1) && types_equal(x2, y2),
        (Type::Tuple(xs), Type::Tuple(ys)) => {
            if xs.len() != ys.len() {
                return false;
            }
            let mut i: usize = 0;
            while i < xs.len()
                invariant
                    xs@.len() == ys@.len(),
                    i <= xs@.len(),
                    forall|j: int| 0 <= j < i ==> type_eq(&(#[trigger] xs@[j]), &ys@[j]),
                decreases xs@.len() - i,
            {
                proof {
                    assert(decreases_to!(xs => xs[i as int]));
                }
                if !types_equal(&xs[i], &ys[i]) {
                    return false;
                }
                i = i + 1;
            }
            true
        },
        (Type::Dict(x1, x2), Type::Dict(y1, y2)) => types_equal(x1, y1) && types_equal(x2, y2),
        (Type::Array(x), Type::Array(y)) => types_equal(x, y),
        _ => false,
    }
}

/// A copy of a type.
#[verifier::loop_isolation(false)]
pub fn clone_type(t: &Type) -> (r: Type)
    ensures
        type_eq(&r, t),
    decreases t,
{
    match t {
        Type::Int => Type::Int,
        Type::Bool => Type::Bool,
        Type::String => Type::String,
        Type::Struct(x) => Type::Struct(x.clone()),
        Type::Enum(x) => Type::Enum(x.clone()),
        Type::Slice(x) => Type::Slice(Box::new(clone_type(x))),
        Type::MutSlice(x) => Type::MutSlice(Box::new(clone_type(x))),
        Type::Option(x) => Type::Option(Box::new(clone_type(x))),
        Type::Result(x, y) => Type::Result(Box::new(clone_type(x)), Box::new(clone_type(y))),
        Type::Tuple(xs) => {
            let mut out: Vec<Type> = Vec::new();
            let mut i: usize = 0;
            while i < xs.len()
                invariant
                    i <= xs@.len(),
                    out@.len() == i,
                    forall|j: int| 0 <= j < i ==> type_eq(&(#[trigger] out@[j]), &xs@[j]),
                decreases xs@.len() - i,
            {
                proof {
                    assert(decreases_to!(xs => xs[i as int]));
                }
                out.push(clone_type(&xs[i]));
                i = i + 1;
            }
            Type::Tuple(out)
        },
        Type::Dict(x, y) => Type::Dict(Box::new(clone_type(x)), Box::new(clone_type(y))),
        Type::Array(x) => Type::Array(Box::new(clone_type(x))),
    }
}

fn clone_types(v: &Vec<Type>) -> (r: Vec<Type>)
    ensures
        r@.len() == v@.len(),
        forall|j: int| 0 <= j < v@.len() ==> type_eq(&(#[trigger] r@[j]), &v@[j]),
{
    let mut out: Vec<Type> = Vec::new();
    let mut i: usize = 0;
    while i < v.len()
        invariant
            i <= v@.len(),
            out@.len() == i,
            forall|j: int| 0 <= j < i ==> type_eq(&(#[trigger] out@[j]), &v@[j]),
        decreases v@.len() - i,
    {
        out.push(clone_type(&v[i]));
        i = i + 1;
    }
    out
}

pub(crate) fn clone_strings(v: &Vec<String>) -> (r: Vec<String>)
    ensures
        r@ == v@,
{
    let mut out: Vec<String> = Vec::new();
    let mut i: usize = 0;
    while i < v.len()
        invariant
            i <= v@.len(),
            out@ == v@.subrange(0, i as int),
        decreases v@.len() - i,
    {
        out.push(v[i].clone());
        i = i + 1;
    }
    assert(v@.subrange(0, v@.len() as int) == v@);
    out
}

/// How the checker's messages write a type.
pub open spec fn type_text(t: &Type) -> Seq<char>
    decreases t, 0nat,
{
    match t {
        Type::Int => "int"@,
        Type::Bool => "bool"@,
        Type::String => "string"@,
        Type::Struct(name) => name@,
        Type::Enum(name) => name@,
        Type::Slice(inner) => "&["@ + type_text(inner) + "]"@,
        Type::MutSlice(inner) => "&mut ["@ + type_text(inner) + "]"@,
        Type::Option(inner) => "Option<"@ + type_text(inner) + ">"@,
        Type::Result(ok, err) => "Result<"@ + type_text(ok) + ", "@ + type_text(err) + ">"@,
        Type::Tuple(es) => "("@ + type_text_list(es, es@.len()) + ")"@,
        Type::Dict(key, value) => "{"@ + type_text(key) + ": "@ + type_text(value) + "}"@,
        Type::Array(inner) => "["@ + type_text(inner) + "]"@,
    }
}

/// The first `n` types of `es`, written and separated by `", "`.
pub open spec fn type_text_list(es: &Vec<Type>, n: nat) -> Seq<char>
    decreases es, n,
{
    if n == 0 || n > es@.len() {
        Seq::empty()
    } else if n == 1 {
        type_text(&es@[0])
    } else {
        type_text_list(es, (n - 1) as nat) + ", "@ + type_text(&es@[n - 1])
    }
}

/// How the checker's messages render a type.
#[verifier::loop_isolation(false)]
pub fn type_display(t: &Type) -> (s: String)
    ensures
        s@ == type_text(t),
    decreases t,
{
    match t {
        Type::Int => String::from_str("int"),
        Type::Bool => String::from_str("bool"),
        Type::String => String::from_str("string"),
        Type::Struct(name) => name.clone(),
        Type::Enum(name) => name.clone(),
        Type::Slice(inner) => cat3("&[", type_display(inner).as_str(), "]"),
        Type::MutSlice(inner) => cat3("&mut [", type_display(inner).as_str(), "]"),
        Type::Option(inner) => cat3("Option<", type_display(inner).as_str(), ">"),
        Type::Result(ok, err) => cat5(
            "Result<",
            type_display(ok).as_str(),
            ", ",
            type_display(err).as_str(),
            ">",
        ),
        Type::Tuple(elements) => {
            let mut out = String::from_str("(");
            let mut i: usize = 0;
            while i < elements.len()
                invariant
                    i <= elements@.len(),
                    out@ == "("@ + type_text_list(elements, i as nat),
                decreases elements@.len() - i,
            {
                proof {
                    assert(decreases_to!(elements => elements[i as int]));
                }
                let e = type_display(&elements[i]);
                if i > 0 {
                    out = out.concat(", ");
                }
                out = out.concat(e.as_str());
                proof {
                    if i == 0 {
                        assert(out@ =~= "("@ + type_text_list(elements, 1));
                    } else {
                        assert(out@ =~= "("@ + type_text_list(elements, (i + 1) as nat));
                    }
                }
                i = i + 1;
            }
            out.concat(")")
        },
        Type::Dict(key, value) => cat5(
            "{",
            type_display(key).as_str(),
            ": ",
            type_display(value).as_str(),
            "}",
        ),
        Type::Array(inner) => cat3("[", type_display(inner).as_str(), "]"),
    }
}

/// Every node of `e` keeps the typing rule of its kind: a literal has the
/// type of its value; `+` joins two ints or two strings into their type; a
/// comparison is a bool, `==` and `!=` over one type and the others over
/// ints; a field is read from a struct, a tuple element within its tuple's
/// arity and at its type; a slice is taken of an array or slice with int
/// bounds; and an index reads an array or slice at an int, or a map at its
/// key type, giving the element's type.
pub open spec fn expr_typed(e: &Expr) -> bool
    decreases e,
{
    match e {
        Expr::Literal { ty, value } => match value {
            LiteralValue::Int(_) => *ty is Int,
            LiteralValue::Bool(_) => *ty is Bool,
            LiteralValue::String(_) => *ty is String,
        },
        Expr::VarRef { .. } => true,
        Expr::Call { args, .. } => forall|i: int| 0 <= i < args.len() ==> expr_typed(&(#[trigger] args@[i])),
        Expr::BinaryAdd { lhs, rhs, ty } => {
            &&& expr_typed(lhs)
            &&& expr_typed(rhs)
            &&& type_eq(lhs.spec_ty(), rhs.spec_ty())
            &&& (*lhs.spec_ty() is Int || *lhs.spec_ty() is String)
            &&& type_eq(ty, lhs.spec_ty())
        },
        Expr::BinaryCompare { op, lhs, rhs, ty } => {
            &&& expr_typed(lhs)
            &&& expr_typed(rhs)
            &&& *ty is Bool
            &&& if *op is Eq || *op is Ne {
                type_eq(lhs.spec_ty(), rhs.spec_ty())
            } else {
                *lhs.spec_ty() is Int && *rhs.spec_ty() is Int
            }
        },
        Expr::StructLiteral { fields, .. } => forall|i: int|
            0 <= i < fields.len() ==> expr_typed(&(#[trigger] fields@[i]).expr),
        Expr::FieldAccess { base, .. } => expr_typed(base) && *base.spec_ty() is Struct,
        Expr::TupleLiteral { elements, .. } => forall|i: int|
            0 <= i < elements.len() ==> expr_typed(&(#[trigger] elements@[i])),
        Expr::TupleIndex { base, index, ty } => expr_typed(base) && match base.spec_ty() {
            Type::Tuple(tys) => (*index as int) < tys.len() && type_eq(ty, &tys@[*index as int]),
            _ => false,
        },
        Expr::MapLiteral { entries, .. } => forall|i: int|
            0 <= i < entries.len() ==> expr_typed(&(#[trigger] entries@[i]).key) && expr_typed(&entries@[i].value),
        Expr::EnumVariant { payloads, .. } => forall|i: int|
            0 <= i < payloads.len() ==> expr_typed(&(#[trigger] payloads@[i])),
        Expr::ArrayLiteral { elements, .. } => forall|i: int|
            0 <= i < elements.len() ==> expr_typed(&(#[trigger] elements@[i])),
        Expr::Slice { base, start, end, ty } => {
            &&& expr_typed(base)
            &&& match start {
                Some(x) => expr_typed(x) && *x.spec_ty() is Int,
                None => true,
            }
            &&& match end {
                Some(x) => expr_typed(x) && *x.spec_ty() is Int,
                None => true,
            }
            &&& match base.spec_ty() {
                Type::Array(el) => ty matches Type::Slice(x) && type_eq(x, el),
                Type::Slice(el) => ty matches Type::Slice(x) && type_eq(x, el),
                Type::MutSlice(el) => ty matches Type::MutSlice(x) && type_eq(x, el),
                _ => false,
            }
        },
        Expr::Index { base, index, ty } => {
            &&& expr_typed(base)
            &&& expr_typed(index)
            &&& match base.spec_ty() {
                Type::Array(el) => *index.spec_ty() is Int && type_eq(ty, el),
                Type::Slice(el) => *index.spec_ty() is Int && type_eq(ty, el),
                Type::MutSlice(el) => *index.spec_ty() is Int && type_eq(ty, el),
                Type::Dict(k, v) => type_eq(index.spec_ty(), k) && type_eq(ty, v),
                _ => false,
            }
        },
    }
}

impl Expr {
    pub open spec fn spec_ty(&self) -> &Type {
        match self {
            Expr::Literal { ty, .. } => ty,
            Expr::VarRef { ty, .. } => ty,
            Expr::Call { ty, .. } => ty,
            Expr::BinaryAdd { ty, .. } => ty,
            Expr::BinaryCompare { ty, .. } => ty,
            Expr::StructLiteral { ty, .. } => ty,
            Expr::FieldAccess { ty, .. } => ty,
            Expr::TupleLiteral { ty, .. } => ty,
            Expr::TupleIndex { ty, .. } => ty,
            Expr::MapLiteral { ty, .. } => ty,
            Expr::EnumVariant { ty, .. } => ty,
            Expr::ArrayLiteral { ty, .. } => ty,
            Expr::Slice { ty, .. } => ty,
            Expr::Index { ty, .. } => ty,
        }
    }

    /// The type the checker gave this expression.
    pub fn ty(&self) -> (t: &Type)
        ensures
            t == self.spec_ty(),
    {
        match self {
            Expr::Literal { ty, .. } => ty,
            Expr::VarRef { ty, .. } => ty,
            Expr::Call { ty, .. } => ty,
            Expr::BinaryAdd { ty, .. } => ty,
            Expr::BinaryCompare { ty, .. } => ty,
            Expr::StructLiteral { ty, .. } => ty,
            Expr::FieldAccess { ty, .. } => ty,
            Expr::TupleLiteral { ty, .. } => ty,
            Expr::TupleIndex { ty, .. } => ty,
            Expr::MapLiteral { ty, .. } => ty,
            Expr::EnumVariant { ty, .. } => ty,
            Expr::ArrayLiteral { ty, .. } => ty,
            Expr::Slice { ty, .. } => ty,
            Expr::Index { ty, .. } => ty,
        }
    }
}

impl CompareOp {
    pub open spec fn spec_text(self) -> Seq<char> {
        match self {
            CompareOp::Eq => seq!['=', '='],
            CompareOp::Ne => seq!['!', '='],
            CompareOp::Lt => seq!['<'],
            CompareOp::Le => seq!['<', '='],
            CompareOp::Gt => seq!['>'],
            CompareOp::Ge => seq!['>', '='],
        }
    }

    /// The operator as it is written in source.
    pub fn lexeme(self) -> (s: &'static str)
        ensures
            s@ == self.spec_text(),
    {
        let r = match self {
            CompareOp::Eq => "==",
            CompareOp::Ne => "!=",
            CompareOp::Lt => "<",
            CompareOp::Le => "<=",
            CompareOp::Gt => ">",
            CompareOp::Ge => ">=",
        };
        proof {
            reveal_strlit("==");
            reveal_strlit("!=");
            reveal_strlit("<");
            reveal_strlit("<=");
            reveal_strlit(">");
            reveal_strlit(">=");
        }
        r
    }
}

/// The lowering of a comparison operator keeps the operator.
pub open spec fn same_op(a: syntax::CompareOp, b: CompareOp) -> bool {
    a.spec_text() == b.spec_text()
}

fn lower_compare_op(op: syntax::CompareOp) -> (r: CompareOp)
    ensures
        same_op(op, r),
{
    match op {
        syntax::CompareOp::Eq => CompareOp::Eq,
        syntax::CompareOp::Ne => CompareOp::Ne,
        syntax::CompareOp::Lt => CompareOp::Lt,
        syntax::CompareOp::Le => CompareOp::Le,
        syntax::CompareOp::Gt => CompareOp::Gt,
        syntax::CompareOp::Ge => CompareOp::Ge,
    }
}

// ----- Table lookups ----------------------------------------------------------

fn find_struct<'a>(structs: &'a Vec<StructDef>, name: &String) -> (r: Option<&'a StructDef>)
    ensures
        r matches Some(s) ==> exists|k: int|
            0 <= k < structs@.len() && s == structs@[k] && s.name@ == name@ && forall|j: int|
                0 <= j < k ==> (#[trigger] structs@[j]).name@ != name@,
        r is None ==> forall|j: int| 0 <= j < structs@.len() ==> (#[trigger] structs@[j]).name@ != name@,
        match r {
            Some(d) => struct_def_named(structs@, name@, 0) == Some(*d),
            None => struct_def_named(structs@, name@, 0) is None,
        },
{
    let mut i: usize = 0;
    while i < structs.len()
        invariant
            i <= structs@.len(),
            forall|j: int| 0 <= j < i ==> (#[trigger] structs@[j]).name@ != name@,
            struct_def_named(structs@, name@, 0) == struct_def_named(structs@, name@, i as nat),
        decreases structs@.len() - i,
    {
        if structs[i].name == *name {
            return Some(&structs[i]);
        }
        i = i + 1;
    }
    None
}

fn find_enum<'a>(enums: &'a Vec<EnumDef>, name: &String) -> (r: Option<&'a EnumDef>)
    ensures
        r matches Some(e) ==> exists|k: int|
            0 <= k < enums@.len() && e == enums@[k] && e.name@ == name@ && forall|j: int|
                0 <= j < k ==> (#[trigger] enums@[j]).name@ != name@,
        r is None ==> forall|j: int| 0 <= j < enums@.len() ==> (#[trigger] enums@[j]).name@ != name@,
        match r {
            Some(d) => enum_def_named(enums@, name@, 0) == Some(*d),
            None => enum_def_named(enums@, name@, 0) is None,
        },
{
    let mut i: usize = 0;
    while i < enums.len()
        invariant
            i <= enums@.len(),
            forall|j: int| 0 <= j < i ==> (#[trigger] enums@[j]).name@ != name@,
            enum_def_named(enums@, name@, 0) == enum_def_named(enums@, name@, i as nat),
        decreases enums@.len() - i,
    {
        if enums[i].name == *name {
            return Some(&enums[i]);
        }
        i = i + 1;
    }
    None
}

fn find_variant<'a>(variants: &'a Vec<VariantInfo>, name: &String) -> (r: Option<&'a VariantInfo>)
    ensures
        r matches Some(v) ==> exists|k: int|
            0 <= k < variants@.len() && v == variants@[k] && v.name@ == name@ && forall|j: int|
                0 <= j < k ==> (#[trigger] variants@[j]).name@ != name@,
        r is None ==> forall|j: int| 0 <= j < variants@.len() ==> (#[trigger] variants@[j]).name@ != name@,
{
    let mut i: usize = 0;
    while i < variants.len()
        invariant
            i <= variants@.len(),
            forall|j: int| 0 <= j < i ==> (#[trigger] variants@[j]).name@ != name@,
        decreases variants@.len() - i,
    {
        if variants[i].name == *name {
            return Some(&variants[i]);
        }
        i = i + 1;
    }
    None
}

fn find_function<'a>(functions: &'a Vec<FunctionSig>, name: &String) -> (r: Option<&'a FunctionSig>)
    ensures
        r matches Some(f) ==> exists|k: int|
            0 <= k < functions@.len() && f == functions@[k] && f.name@ == name@ && forall|j: int|
                0 <= j < k ==> (#[trigger] functions@[j]).name@ != name@,
        r is None ==> forall|j: int| 0 <= j < functions@.len() ==> (#[trigger] functions@[j]).name@ != name@,
        match r {
            Some(f) => sig_named(functions@, name@, 0) == Some(*f),
            None => sig_named(functions@, name@, 0) is None,
        },
{
    let mut i: usize = 0;
    while i < functions.len()
        invariant
            i <= functions@.len(),
            forall|j: int| 0 <= j < i ==> (#[trigger] functions@[j]).name@ != name@,
            sig_named(functions@, name@, 0) == sig_named(functions@, name@, i as nat),
        decreases functions@.len() - i,
    {
        if functions[i].name == *name {
            return Some(&functions[i]);
        }
        i = i + 1;
    }
    None
}

fn contains_string(names: &Vec<String>, name: &String) -> (b: bool)
    ensures
        b == exists|j: int| 0 <= j < names@.len() && (#[trigger] names@[j])@ == name@,
{
    let mut i: usize = 0;
    while i < names.len()
        invariant
            i <= names@.len(),
            forall|j: int| 0 <= j < i ==> (#[trigger] names@[j])@ != name@,
        decreases names@.len() - i,
    {
        if names[i] == *name {
            return true;
        }
        i = i + 1;
    }
    false
}

fn position_of(names: &Vec<String>, name: &String) -> (r: Option<usize>)
    ensures
        r matches Some(k) ==> k < names@.len() && names@[k as int]@ == name@ && forall|j: int|
            0 <= j < k ==> (#[trigger] names@[j])@ != name@,
        r is None ==> forall|j: int| 0 <= j < names@.len() ==> (#[trigger] names@[j])@ != name@,
{
    let mut i: usize = 0;
    while i < names.len()
        invariant
            i <= names@.len(),
            forall|j: int| 0 <= j < i ==> (#[trigger] names@[j])@ != name@,
        decreases names@.len() - i,
    {
        if names[i] == *name {
            return Some(i);
        }
        i = i + 1;
    }
    None
}

/// Adds `name` to a set held as a list, keeping each name once.
fn insert_string(names: &mut Vec<String>, name: &String) -> (added: bool)
    ensures
        added == !exists|j: int| 0 <= j < old(names)@.len() && (#[trigger] old(names)@[j])@ == name@,
        added ==> final(names)@ == old(names)@.push(*name),
        !added ==> final(names)@ == old(names)@,
{
    if contains_string(names, name) {
        false
    } else {
        names.push(name.clone());
        true
    }
}

fn env_index(env: &Env, name: &String) -> (r: Option<usize>)
    ensures
        r matches Some(k) ==> k < env@.len() && env@[k as int].0@ == name@ && forall|j: int|
            0 <= j < k ==> (#[trigger] env@[j]).0@ != name@,
        r is None ==> forall|j: int| 0 <= j < env@.len() ==> (#[trigger] env@[j]).0@ != name@,
{
    let mut i: usize = 0;
    while i < env.len()
        invariant
            i <= env@.len(),
            forall|j: int| 0 <= j < i ==> (#[trigger] env@[j]).0@ != name@,
        decreases env@.len() - i,
    {
        if env[i].0 == *name {
            return Some(i);
        }
        i = i + 1;
    }
    None
}

fn clone_origin(o: &Option<BorrowOrigin>) -> (r: Option<BorrowOrigin>)
    ensures
        r == *o,
{
    match o {
        None => None,
        Some(BorrowOrigin::Local) => Some(BorrowOrigin::Local),
        Some(BorrowOrigin::Param(p)) => Some(BorrowOrigin::Param(p.clone())),
    }
}

fn clone_binding(b: &Binding) -> (r: Binding)
    ensures
        r.moved == b.moved,
        r.active_borrow_count == b.active_borrow_count,
        type_eq(&r.ty, &b.ty),
        r.borrowed_owners@ == b.borrowed_owners@,
{
    Binding {
        ty: clone_type(&b.ty),
        moved: b.moved,
        borrow_origin: clone_origin(&b.borrow_origin),
        borrowed_owners: clone_strings(&b.borrowed_owners),
        active_borrow_count: b.active_borrow_count,
    }
}

fn clone_env(env: &Env) -> (r: Env)
    ensures
        r@.len() == env@.len(),
        forall|j: int| 0 <= j < env@.len() ==> (#[trigger] r@[j]).0@ == env@[j].0@,
        forall|j: int| 0 <= j < env@.len() ==> type_eq(&(#[trigger] r@[j]).1.ty, &env@[j].1.ty),
        state_of(r@) == state_of(env@),
{
    let mut out: Env = Vec::new();
    let mut i: usize = 0;
    while i < env.len()
        invariant
            i <= env@.len(),
            out@.len() == i,
            forall|j: int| 0 <= j < i ==> (#[trigger] out@[j]).0@ == env@[j].0@,
            forall|j: int| 0 <= j < i ==> type_eq(&(#[trigger] out@[j]).1.ty, &env@[j].1.ty),
            state_of(out@) == state_of(env@).subrange(0, i as int),
        decreases env@.len() - i,
    {
        out.push((env[i].0.clone(), clone_binding(&env[i].1)));
        i = i + 1;
        assert(state_of(out@) =~= state_of(env@).subrange(0, i as int));
    }
    assert(state_of(out@) =~= state_of(env@));
    out
}

// ----- Lowering entry points ------------------------------------------------------

/// What every program that passes the checker satisfies: each function
/// returns along all paths, and every statement obeys the statement-level
/// typing rules, with no `return` outside a function.
pub open spec fn program_checked(p: &Program) -> bool {
    &&& forall|i: int|
        0 <= i < p.functions@.len() ==> block_returns(&(#[trigger] p.functions@[i]).body)
            && block_typed(&p.functions@[i].body, Some(p.functions@[i].return_ty))
    &&& block_typed(&p.stmts, None)
}

/// The checked program holds the structs and enums that the source declares,
/// one for one, each kind in ascending order of name: every checked struct is
/// the checked form of a declared one (its name, and its fields in declared
/// order), every declared struct has one, and so for the enums' names.
pub open spec fn declarations_in_name_order(program: &syntax::Program, p: &Program) -> bool {
    &&& p.structs@.len() == program.structs@.len()
    &&& p.enums@.len() == program.enums@.len()
    &&& forall|i: int| 0 <= i < p.structs@.len() ==> #[trigger] checked_struct_declared(program, p.structs@[i])
    &&& forall|j: int| 0 <= j < program.structs@.len() ==> #[trigger] declared_struct_checked(program.structs@[j], program, p)
    &&& forall|i: int| 0 <= i < p.enums@.len() ==> #[trigger] enum_name_declared(program, p.enums@[i].name@)
    &&& forall|j: int| 0 <= j < program.enums@.len() ==> #[trigger] enum_name_checked(p, program.enums@[j].name@)
    &&& forall|i: int, j: int|
        0 <= i < j < p.structs@.len() ==> !chars_lt((#[trigger] p.structs@[j]).name@, (#[trigger] p.structs@[i]).name@)
    &&& forall|i: int, j: int|
        0 <= i < j < p.enums@.len() ==> !chars_lt((#[trigger] p.enums@[j]).name@, (#[trigger] p.enums@[i]).name@)
}

/// `d` is the checked form of a struct that `program` declares.
pub open spec fn checked_struct_declared(program: &syntax::Program, d: StructDef) -> bool {
    exists|j: int|
        0 <= j < program.structs@.len() && struct_def_from(
            #[trigger] program.structs@[j],
            d,
            struct_decl_names(program.structs@),
        )
}

/// The declared struct `decl` has its checked form among `p`'s structs.
pub open spec fn declared_struct_checked(decl: syntax::StructDecl, program: &syntax::Program, p: &Program) -> bool {
    exists|i: int| 0 <= i < p.structs@.len() && struct_def_from(decl, #[trigger] p.structs@[i], struct_decl_names(program.structs@))
}

/// `program` declares an enum named `n`.
pub open spec fn enum_name_declared(program: &syntax::Program, n: Seq<char>) -> bool {
    exists|j: int| 0 <= j < program.enums@.len() && (#[trigger] program.enums@[j]).name@ == n
}

/// `p` holds an enum named `n`.
pub open spec fn enum_name_checked(p: &Program, n: Seq<char>) -> bool {
    exists|i: int| 0 <= i < p.enums@.len() && (#[trigger] p.enums@[i]).name@ == n
}

/// Checks a parsed program with every capability disabled.
pub fn lower(program: &syntax::Program) -> (r: Result<Program, Diagnostic>)
    ensures
        lower_ok(r),
        r matches Ok(p) ==> program_checked(&p) && program_from(program, &p),
        r matches Ok(p) ==> declarations_in_name_order(program, &p),
        statements_outcome(
            program,
            CapabilityConfig { fs: false, net: false, process: false, env: false, clock: false, crypto: false },
            r,
        ),
{
    let capabilities = CapabilityConfig::default();
    lower_with_capabilities(program, &capabilities)
}

/// Checks a parsed program and lowers it to the typed representation; calls to
/// host intrinsics need the capability that `capabilities` grants.
pub fn lower_with_capabilities(program: &syntax::Program, capabilities: &CapabilityConfig) -> (r:
    Result<Program, Diagnostic>)
    ensures
        lower_ok(r),
        r matches Ok(p) ==> program_checked(&p) && program_from(program, &p),
        r matches Ok(p) ==> declarations_in_name_order(program, &p),
        statements_outcome(program, *capabilities, r),
{
    if let Err(d) = collect_type_names(&program.structs, &program.enums) {
        return Err(d);
    }
    let struct_names = names_of_structs(&program.structs);
    let enum_names = names_of_enums(&program.enums);
    let (enums, variants) = match collect_enum_definitions(&program.enums, &struct_names, &enum_names) {
        Ok(x) => x,
        Err(d) => return Err(d),
    };
    let structs = match collect_struct_definitions(&program.structs, &enum_names) {
        Ok(x) => x,
        Err(d) => return Err(d),
    };
    let functions = match collect_function_signatures(&program.functions, &structs, &enums) {
        Ok(x) => x,
        Err(d) => return Err(d),
    };
    let tables = Tables {
        struct_names: struct_def_names(&structs),
        enum_names: enum_def_names(&enums),
        structs,
        enums,
        variants,
        functions,
        capabilities: *capabilities,
    };
    let mut lowered_functions: Vec<Function> = Vec::new();
    let mut i: usize = 0;
    while i < program.functions.len()
        invariant
            i <= program.functions@.len(),
            lowered_functions@.len() == i,
            forall|j: int|
                0 <= j < i ==> block_returns(&(#[trigger] lowered_functions@[j]).body)
                    && block_typed(&lowered_functions@[j].body, Some(lowered_functions@[j].return_ty)),
            forall|j: int|
                0 <= j < i ==> function_from(&program.functions@[j], &(#[trigger] lowered_functions@[j])),
        decreases program.functions@.len() - i,
    {
        match lower_function(&program.functions[i], &tables) {
            Ok(f) => lowered_functions.push(f),
            Err(d) => return Err(d),
        }
        i = i + 1;
    }
    let frame = Frame { current_return: None, current_borrow_return_params: Vec::new() };
    let mut env: Env = Vec::new();
    proof {
        assert(model_of(env@) =~= Seq::<(Seq<char>, Type, bool)>::empty());
    }
    let stmts = match lower_block(&program.stmts, &mut env, &tables, &frame) {
        Ok((stmts, _, _)) => stmts,
        Err(d) => return Err(d),
    };
    let Tables { structs, enums, .. } = tables;
    let ghost defs = structs@;
    let ghost edefs = enums@;
    let structs = sorted_structs(structs);
    let enums = sorted_enums(enums);
    let out = Program { structs, enums, functions: lowered_functions, stmts };
    proof {
        lemma_same_items(out.structs@, defs);
        lemma_same_items(out.enums@, edefs);
        assert forall|i: int| 0 <= i < out.structs@.len() implies #[trigger] checked_struct_declared(
            program,
            out.structs@[i],
        ) by {
            assert(defs.contains(out.structs@[i]));
            let k = choose|k: int| 0 <= k < defs.len() && defs[k] == out.structs@[i];
            assert(struct_def_from(program.structs@[k], defs[k], struct_decl_names(program.structs@)));
        }
        assert forall|j: int| 0 <= j < program.structs@.len() implies #[trigger] declared_struct_checked(
            program.structs@[j],
            program,
            &out,
        ) by {
            assert(struct_def_from(program.structs@[j], defs[j], struct_decl_names(program.structs@)));
            assert(out.structs@.contains(defs[j]));
            let k = choose|k: int| 0 <= k < out.structs@.len() && out.structs@[k] == defs[j];
            assert(struct_def_from(program.structs@[j], out.structs@[k], struct_decl_names(program.structs@)));
        }
        assert forall|i: int| 0 <= i < out.enums@.len() implies #[trigger] enum_name_declared(
            program,
            out.enums@[i].name@,
        ) by {
            assert(edefs.contains(out.enums@[i]));
            let k = choose|k: int| 0 <= k < edefs.len() && edefs[k] == out.enums@[i];
            assert(enum_checked(program.enums@[k], edefs[k], struct_names@, enum_names@));
        }
        assert forall|j: int| 0 <= j < program.enums@.len() implies #[trigger] enum_name_checked(
            &out,
            program.enums@[j].name@,
        ) by {
            assert(enum_checked(program.enums@[j], edefs[j], struct_names@, enum_names@));
            assert(out.enums@.contains(edefs[j]));
            let k = choose|k: int| 0 <= k < out.enums@.len() && out.enums@[k] == edefs[j];
            assert(out.enums@[k] == edefs[j]);
        }
    }
    Ok(out)
}

/// Two sequences with the same items: each item of one stands somewhere in
/// the other.
proof fn lemma_same_items<A>(a: Seq<A>, b: Seq<A>)
    requires
        a.to_multiset() == b.to_multiset(),
    ensures
        forall|i: int| 0 <= i < a.len() ==> b.contains(#[trigger] a[i]),
        forall|j: int| 0 <= j < b.len() ==> a.contains(#[trigger] b[j]),
{
    broadcast use vstd::seq_lib::group_to_multiset_ensures;

    assert forall|i: int| 0 <= i < a.len() implies b.contains(#[trigger] a[i]) by {
        assert(a.contains(a[i]));
        assert(a.to_multiset().count(a[i]) > 0);
        assert(b.to_multiset().count(a[i]) > 0);
    }
    assert forall|j: int| 0 <= j < b.len() implies a.contains(#[trigger] b[j]) by {
        assert(b.contains(b[j]));
        assert(b.to_multiset().count(b[j]) > 0);
        assert(a.to_multiset().count(b[j]) > 0);
    }
}

/// `a` orders before `b` by code point, as `str::cmp` orders by byte.
pub open spec fn chars_lt(a: Seq<char>, b: Seq<char>) -> bool
    decreases a.len(),
{
    if b.len() == 0 {
        false
    } else if a.len() == 0 {
        true
    } else if a[0] != b[0] {
        (a[0] as int) < (b[0] as int)
    } else {
        chars_lt(a.drop_first(), b.drop_first())
    }
}

/// No text orders before itself.
pub proof fn lemma_chars_lt_irreflexive(a: Seq<char>)
    ensures
        !chars_lt(a, a),
    decreases a.len(),
{
    if a.len() > 0 {
        lemma_chars_lt_irreflexive(a.drop_first());
    }
}

/// The order of texts is transitive.
pub proof fn lemma_chars_lt_transitive(a: Seq<char>, b: Seq<char>, c: Seq<char>)
    requires
        chars_lt(a, b),
        chars_lt(b, c),
    ensures
        chars_lt(a, c),
    decreases a.len(),
{
    if a.len() > 0 && a[0] == b[0] && b[0] == c[0] {
        lemma_chars_lt_transitive(a.drop_first(), b.drop_first(), c.drop_first());
    }
}

/// Of two different texts, one orders before the other.
pub proof fn lemma_chars_lt_total(a: Seq<char>, b: Seq<char>)
    requires
        a != b,
    ensures
        chars_lt(a, b) || chars_lt(b, a),
    decreases a.len(),
{
    if a.len() > 0 && b.len() > 0 && a[0] == b[0] {
        if a.drop_first() == b.drop_first() {
            assert(a =~= seq![a[0]] + a.drop_first());
            assert(b =~= seq![b[0]] + b.drop_first());
            assert(a =~= b);
        } else {
            lemma_chars_lt_total(a.drop_first(), b.drop_first());
        }
    } else if a.len() == 0 && b.len() == 0 {
        assert(a =~= b);
    } else if a.len() > 0 && b.len() > 0 {
        assert((a[0] as int) != (b[0] as int));
    }
}

/// Whether `a` orders before `b`.
pub fn string_lt(a: &String, b: &String) -> (r: bool)
    ensures
        r == chars_lt(a@, b@),
{
    let x = crate::text::chars_of_string(a);
    let y = crate::text::chars_of_string(b);
    let mut i: usize = 0;
    assert(x@.skip(0) == x@);
    assert(y@.skip(0) == y@);
    while i < x.len() && i < y.len() && x[i] == y[i]
        invariant
            i <= x@.len(),
            i <= y@.len(),
            x@ == a@,
            y@ == b@,
            chars_lt(a@, b@) == chars_lt(x@.skip(i as int), y@.skip(i as int)),
        decreases x@.len() - i,
    {
        assert(x@.skip(i as int).drop_first() == x@.skip(i + 1));
        assert(y@.skip(i as int).drop_first() == y@.skip(i + 1));
        i = i + 1;
    }
    if i == y.len() {
        false
    } else if i == x.len() {
        true
    } else {
        x[i] < y[i]
    }
}

/// The position of the first least name among `names`.
fn least_name(names: &Vec<String>) -> (best: usize)
    requires
        names@.len() > 0,
    ensures
        best < names@.len(),
        forall|j: int| 0 <= j < names@.len() ==> !chars_lt((#[trigger] names@[j])@, names@[best as int]@),
{
    let mut best: usize = 0;
    let mut k: usize = 1;
    proof {
        lemma_chars_lt_irreflexive(names@[0]@);
    }
    while k < names.len()
        invariant
            best < names@.len(),
            1 <= k <= names@.len(),
            forall|j: int| 0 <= j < k ==> !chars_lt((#[trigger] names@[j])@, names@[best as int]@),
        decreases names@.len() - k,
    {
        if string_lt(&names[k], &names[best]) {
            proof {
                lemma_chars_lt_irreflexive(names@[k as int]@);
                assert forall|j: int| 0 <= j < k + 1 implies !chars_lt(
                    (#[trigger] names@[j])@,
                    names@[k as int]@,
                ) by {
                    if j < k && chars_lt(names@[j]@, names@[k as int]@) {
                        lemma_chars_lt_transitive(
                            names@[j]@,
                            names@[k as int]@,
                            names@[best as int]@,
                        );
                    }
                }
            }
            best = k;
        }
        k = k + 1;
    }
    best
}

/// The structs in ascending name order.
fn sorted_structs(v: Vec<StructDef>) -> (r: Vec<StructDef>)
    ensures
        r@.len() == v@.len(),
        r@.to_multiset() =~= v@.to_multiset(),
        forall|i: int, j: int|
            0 <= i < j < r@.len() ==> !chars_lt((#[trigger] r@[j]).name@, (#[trigger] r@[i]).name@),
{
    let mut v = v;
    let mut out: Vec<StructDef> = Vec::new();
    let ghost n = v@.len();
    let ghost v0 = v@;
    proof {
        broadcast use vstd::seq_lib::group_to_multiset_ensures, vstd::multiset::lemma_multiset_empty_len;
        assert(out@.to_multiset().len() == 0);
        assert(out@.to_multiset().add(v@.to_multiset()) =~= v0.to_multiset());
    }
    while v.len() > 0
        invariant
            out@.len() + v@.len() == n,
            out@.to_multiset().add(v@.to_multiset()) =~= v0.to_multiset(),
            forall|i: int, j: int|
                0 <= i < j < out@.len() ==> !chars_lt(
                    (#[trigger] out@[j]).name@,
                    (#[trigger] out@[i]).name@,
                ),
            forall|i: int, j: int|
                0 <= i < out@.len() && 0 <= j < v@.len() ==> !chars_lt(
                    (#[trigger] v@[j]).name@,
                    (#[trigger] out@[i]).name@,
                ),
        decreases v@.len(),
    {
        let mut names: Vec<String> = Vec::new();
        let mut k: usize = 0;
        while k < v.len()
            invariant
                k <= v@.len(),
                names@.len() == k,
                forall|j: int| 0 <= j < k ==> (#[trigger] names@[j])@ == v@[j].name@,
            decreases v@.len() - k,
        {
            names.push(v[k].name.clone());
            k = k + 1;
        }
        let best = least_name(&names);
        let ghost old_v = v@;
        let ghost old_out = out@;
        let item = v.remove(best);
        out.push(item);
        proof {
            broadcast use vstd::seq_lib::group_to_multiset_ensures;
            assert(old_v.contains(old_v[best as int]));
            assert(out@.to_multiset().add(v@.to_multiset()) =~= v0.to_multiset());
            assert forall|i: int, j: int|
                0 <= i < out@.len() && 0 <= j < v@.len() implies !chars_lt(
                (#[trigger] v@[j]).name@,
                (#[trigger] out@[i]).name@,
            ) by {
                let jj = if j < best { j } else { j + 1 };
                assert(v@[j] == old_v[jj]);
                assert(names@[jj]@ == old_v[jj].name@);
                if i < old_out.len() {
                    assert(out@[i] == old_out[i]);
                }
            }
            assert forall|i: int, j: int|
                0 <= i < j < out@.len() implies !chars_lt(
                (#[trigger] out@[j]).name@,
                (#[trigger] out@[i]).name@,
            ) by {
                assert(out@[i] == old_out[i]);
                if j < old_out.len() {
                    assert(out@[j] == old_out[j]);
                } else {
                    assert(out@[j] == old_v[best as int]);
                }
            }
        }
    }
    proof {
        broadcast use vstd::seq_lib::group_to_multiset_ensures, vstd::multiset::lemma_multiset_empty_len;
        assert(v@.to_multiset().len() == 0);
        assert(out@.to_multiset() =~= v0.to_multiset());
    }
    out
}

/// The enums in ascending name order.
fn sorted_enums(v: Vec<EnumDef>) -> (r: Vec<EnumDef>)
    ensures
        r@.len() == v@.len(),
        r@.to_multiset() =~= v@.to_multiset(),
        forall|i: int, j: int|
            0 <= i < j < r@.len() ==> !chars_lt((#[trigger] r@[j]).name@, (#[trigger] r@[i]).name@),
{
    let mut v = v;
    let mut out: Vec<EnumDef> = Vec::new();
    let ghost n = v@.len();
    let ghost v0 = v@;
    proof {
        broadcast use vstd::seq_lib::group_to_multiset_ensures, vstd::multiset::lemma_multiset_empty_len;
        assert(out@.to_multiset().len() == 0);
        assert(out@.to_multiset().add(v@.to_multiset()) =~= v0.to_multiset());
    }
    while v.len() > 0
        invariant
            out@.len() + v@.len() == n,
            out@.to_multiset().add(v@.to_multiset()) =~= v0.to_multiset(),
            forall|i: int, j: int|
                0 <= i < j < out@.len() ==> !chars_lt(
                    (#[trigger] out@[j]).name@,
                    (#[trigger] out@[i]).name@,
                ),
            forall|i: int, j: int|
                0 <= i < out@.len() && 0 <= j < v@.len() ==> !chars_lt(
                    (#[trigger] v@[j]).name@,
                    (#[trigger] out@[i]).name@,
                ),
        decreases v@.len(),
    {
        let mut names: Vec<String> = Vec::new();
        let mut k: usize = 0;
        while k < v.len()
            invariant
                k <= v@.len(),
                names@.len() == k,
                forall|j: int| 0 <= j < k ==> (#[trigger] names@[j])@ == v@[j].name@,
            decreases v@.len() - k,
        {
            names.push(v[k].name.clone());
            k = k + 1;
        }
        let best = least_name(&names);
        let ghost old_v = v@;
        let ghost old_out = out@;
        let item = v.remove(best);
        out.push(item);
        proof {
            broadcast use vstd::seq_lib::group_to_multiset_ensures;
            assert(old_v.contains(old_v[best as int]));
            assert(out@.to_multiset().add(v@.to_multiset()) =~= v0.to_multiset());
            assert forall|i: int, j: int|
                0 <= i < out@.len() && 0 <= j < v@.len() implies !chars_lt(
                (#[trigger] v@[j]).name@,
                (#[trigger] out@[i]).name@,
            ) by {
                let jj = if j < best { j } else { j + 1 };
                assert(v@[j] == old_v[jj]);
                assert(names@[jj]@ == old_v[jj].name@);
                if i < old_out.len() {
                    assert(out@[i] == old_out[i]);
                }
            }
            assert forall|i: int, j: int|
                0 <= i < j < out@.len() implies !chars_lt(
                (#[trigger] out@[j]).name@,
                (#[trigger] out@[i]).name@,
            ) by {
                assert(out@[i] == old_out[i]);
                if j < old_out.len() {
                    assert(out@[j] == old_out[j]);
                } else {
                    assert(out@[j] == old_v[best as int]);
                }
            }
        }
    }
    proof {
        broadcast use vstd::seq_lib::group_to_multiset_ensures, vstd::multiset::lemma_multiset_empty_len;
        assert(v@.to_multiset().len() == 0);
        assert(out@.to_multiset() =~= v0.to_multiset());
    }
    out
}

fn names_of_structs(structs: &Vec<syntax::StructDecl>) -> (r: Vec<String>)
    ensures
        r@.len() == structs@.len(),
        forall|j: int| 0 <= j < r@.len() ==> (#[trigger] r@[j])@ == structs@[j].name@,
{
    let mut out: Vec<String> = Vec::new();
    let mut i: usize = 0;
    while i < structs.len()
        invariant
            i <= structs@.len(),
            out@.len() == i,
            forall|j: int| 0 <= j < i ==> (#[trigger] out@[j])@ == structs@[j].name@,
        decreases structs@.len() - i,
    {
        out.push(structs[i].name.clone());
        i = i + 1;
    }
    out
}

fn names_of_enums(enums: &Vec<syntax::EnumDecl>) -> (r: Vec<String>)
    ensures
        r@.len() == enums@.len(),
        forall|j: int| 0 <= j < r@.len() ==> (#[trigger] r@[j])@ == enums@[j].name@,
{
    let mut out: Vec<String> = Vec::new();
    let mut i: usize = 0;
    while i < enums.len()
        invariant
            i <= enums@.len(),
            out@.len() == i,
            forall|j: int| 0 <= j < i ==> (#[trigger] out@[j])@ == enums@[j].name@,
        decreases enums@.len() - i,
    {
        out.push(enums[i].name.clone());
        i = i + 1;
    }
    out
}

/// No two structs, no two enums, and no struct and enum share a name.
pub open spec fn type_names_distinct(structs: Seq<syntax::StructDecl>, enums: Seq<syntax::EnumDecl>) -> bool {
    &&& forall|a: int, b: int|
        0 <= a < b < structs.len() ==> (#[trigger] structs[a]).name@ != (#[trigger] structs[b]).name@
    &&& forall|a: int, b: int|
        0 <= a < b < enums.len() ==> (#[trigger] enums[a]).name@ != (#[trigger] enums[b]).name@
    &&& forall|a: int, b: int|
        0 <= a < structs.len() && 0 <= b < enums.len() ==> (#[trigger] structs[a]).name@ != (
        #[trigger] enums[b]).name@
}

/// Rejects a struct declared twice, an enum declared twice, and an enum that
/// reuses a struct's name.
fn collect_type_names(structs: &Vec<syntax::StructDecl>, enums: &Vec<syntax::EnumDecl>) -> (r:
    Result<(), Diagnostic>)
    ensures
        r matches Err(d) ==> d.kind@ == "type"@,
        r is Ok <==> type_names_distinct(structs@, enums@),
{
    let mut struct_names: Vec<String> = Vec::new();
    let mut i: usize = 0;
    while i < structs.len()
        invariant
            i <= structs@.len(),
            struct_names@.len() == i,
            forall|k: int| 0 <= k < i ==> (#[trigger] struct_names@[k])@ == structs@[k].name@,
            forall|a: int, b: int|
                0 <= a < b < i ==> (#[trigger] structs@[a]).name@ != (#[trigger] structs@[b]).name@,
        decreases structs@.len() - i,
    {
        let ghost before = struct_names@;
        if !insert_string(&mut struct_names, &structs[i].name) {
            proof {
                let k = choose|k: int| 0 <= k < before.len() && (#[trigger] before[k])@ == structs@[i as int].name@;
                assert(structs@[k].name@ == structs@[i as int].name@);
            }
            return Err(
                type_err(
                    cat("duplicate struct ", quoted(&structs[i].name).as_str()),
                    structs[i].line,
                    structs[i].column,
                ),
            );
        }
        proof {
            assert forall|a: int| 0 <= a < i implies structs@[a].name@ != structs@[i as int].name@ by {
                assert(before[a]@ == structs@[a].name@);
            }
        }
        i = i + 1;
    }
    let mut enum_names: Vec<String> = Vec::new();
    let mut j: usize = 0;
    while j < enums.len()
        invariant
            i == structs@.len(),
            struct_names@.len() == i,
            forall|k: int| 0 <= k < i ==> (#[trigger] struct_names@[k])@ == structs@[k].name@,
            forall|a: int, b: int|
                0 <= a < b < i ==> (#[trigger] structs@[a]).name@ != (#[trigger] structs@[b]).name@,
            j <= enums@.len(),
            enum_names@.len() == j,
            forall|k: int| 0 <= k < j ==> (#[trigger] enum_names@[k])@ == enums@[k].name@,
            forall|a: int, b: int|
                0 <= a < b < j ==> (#[trigger] enums@[a]).name@ != (#[trigger] enums@[b]).name@,
            forall|a: int, b: int|
                0 <= a < i && 0 <= b < j ==> (#[trigger] structs@[a]).name@ != (
                #[trigger] enums@[b]).name@,
        decreases enums@.len() - j,
    {
        let ghost before = enum_names@;
        if contains_string(&struct_names, &enums[j].name) {
            proof {
                let k = choose|k: int| 0 <= k < struct_names@.len() && (#[trigger] struct_names@[k])@ == enums@[j as int].name@;
                assert(structs@[k].name@ == enums@[j as int].name@);
            }
            return Err(
                type_err(
                    cat("duplicate type name ", quoted(&enums[j].name).as_str()),
                    enums[j].line,
                    enums[j].column,
                ),
            );
        }
        if !insert_string(&mut enum_names, &enums[j].name) {
            proof {
                let k = choose|k: int| 0 <= k < before.len() && (#[trigger] before[k])@ == enums@[j as int].name@;
                assert(enums@[k].name@ == enums@[j as int].name@);
            }
            return Err(
                type_err(
                    cat("duplicate enum ", quoted(&enums[j].name).as_str()),
                    enums[j].line,
                    enums[j].column,
                ),
            );
        }
        proof {
            assert forall|a: int| 0 <= a < j implies enums@[a].name@ != enums@[j as int].name@ by {
                assert(before[a]@ == enums@[a].name@);
            }
            assert forall|a: int| 0 <= a < i implies structs@[a].name@ != enums@[j as int].name@ by {
                assert(struct_names@[a]@ == structs@[a].name@);
            }
        }
        j = j + 1;
    }
    Ok(())
}

/// A written type that may be a map key: `int`, `bool`, `string`, or a tuple of such.
pub open spec fn key_name_ok(ty: &syntax::TypeName) -> bool
    decreases ty,
{
    match ty {
        syntax::TypeName::Int | syntax::TypeName::Bool | syntax::TypeName::String => true,
        syntax::TypeName::Tuple(es) => forall|i: int|
            0 <= i < es.len() ==> key_name_ok(&(#[trigger] es@[i])),
        _ => false,
    }
}

/// Every name in a written type is a declared struct or enum, and every map key
/// is a type that may be one.
pub open spec fn type_known(ty: &syntax::TypeName, structs: Seq<String>, enums: Seq<String>) -> bool
    decreases ty,
{
    match ty {
        syntax::TypeName::Int | syntax::TypeName::Bool | syntax::TypeName::String => true,
        syntax::TypeName::Named(n) => has_name(structs, n@) || has_name(enums, n@),
        syntax::TypeName::Slice(i) => type_known(i, structs, enums),
        syntax::TypeName::MutSlice(i) => type_known(i, structs, enums),
        syntax::TypeName::Option(i) => type_known(i, structs, enums),
        syntax::TypeName::Array(i) => type_known(i, structs, enums),
        syntax::TypeName::Result(a, b) => type_known(a, structs, enums) && type_known(b, structs, enums),
        syntax::TypeName::Tuple(es) => forall|i: int|
            0 <= i < es.len() ==> type_known(&(#[trigger] es@[i]), structs, enums),
        syntax::TypeName::Dict(k, v) => type_known(k, structs, enums) && key_name_ok(k) && type_known(
            v,
            structs,
            enums,
        ),
    }
}

/// `t` is the checked form of the written type `ty`: the same shape, a name
/// becoming a struct type when a struct has it and an enum type otherwise.
pub open spec fn type_lowered(ty: &syntax::TypeName, structs: Seq<String>, t: &Type) -> bool
    decreases ty,
{
    match ty {
        syntax::TypeName::Int => *t is Int,
        syntax::TypeName::Bool => *t is Bool,
        syntax::TypeName::String => *t is String,
        syntax::TypeName::Named(n) => if has_name(structs, n@) {
            *t matches Type::Struct(x) && x@ == n@
        } else {
            *t matches Type::Enum(x) && x@ == n@
        },
        syntax::TypeName::Slice(i) => match t {
            Type::Slice(x) => type_lowered(i, structs, x),
            _ => false,
        },
        syntax::TypeName::MutSlice(i) => match t {
            Type::MutSlice(x) => type_lowered(i, structs, x),
            _ => false,
        },
        syntax::TypeName::Option(i) => match t {
            Type::Option(x) => type_lowered(i, structs, x),
            _ => false,
        },
        syntax::TypeName::Array(i) => match t {
            Type::Array(x) => type_lowered(i, structs, x),
            _ => false,
        },
        syntax::TypeName::Result(a, b) => match t {
            Type::Result(x, y) => type_lowered(a, structs, x) && type_lowered(b, structs, y),
            _ => false,
        },
        syntax::TypeName::Tuple(es) => match t {
            Type::Tuple(xs) => xs.len() == es.len() && forall|i: int|
                0 <= i < es.len() ==> type_lowered(&(#[trigger] es@[i]), structs, &xs@[i]),
            _ => false,
        },
        syntax::TypeName::Dict(k, v) => match t {
            Type::Dict(x, y) => type_lowered(k, structs, x) && type_lowered(v, structs, y),
            _ => false,
        },
    }
}

/// A checked type may be a map key exactly when the written one may.
proof fn lemma_key_support(ty: &syntax::TypeName, structs: Seq<String>, t: &Type)
    requires
        type_lowered(ty, structs, t),
    ensures
        t.spec_supports_map_key() == key_name_ok(ty),
    decreases ty,
{
    match ty {
        syntax::TypeName::Tuple(es) => match t {
            Type::Tuple(xs) => {
                assert forall|i: int| 0 <= i < es.len() implies (#[trigger] xs@[i]).spec_supports_map_key()
                    == key_name_ok(&es@[i]) by {
                    assert(decreases_to!(es => es[i]));
                    lemma_key_support(&es@[i], structs, &xs@[i]);
                }
                if t.spec_supports_map_key() {
                    assert forall|i: int| 0 <= i < es.len() implies key_name_ok(&(#[trigger] es@[i])) by {
                        assert(xs@[i].spec_supports_map_key() == key_name_ok(&es@[i]));
                    }
                }
                if key_name_ok(ty) {
                    assert forall|i: int| 0 <= i < xs.len() implies (#[trigger] xs@[i]).spec_supports_map_key() by {
                        assert(xs@[i].spec_supports_map_key() == key_name_ok(&es@[i]));
                    }
                }
            },
            _ => {},
        },
        _ => {},
    }
}

/// Lowers a written type; a named type must be one of the declared structs or
/// enums, and a map key must be a type that supports hashing.
#[verifier::loop_isolation(false)]
fn lower_type(
    ty: &syntax::TypeName,
    structs: &Vec<String>,
    enums: &Vec<String>,
    line: usize,
    column: usize,
) -> (r: Result<Type, Diagnostic>)
    ensures
        r matches Err(d) ==> d.kind@ == "type"@,
        r is Ok <==> type_known(ty, structs@, enums@),
        r matches Ok(t) ==> type_lowered(ty, structs@, &t),
    decreases ty,
{
    match ty {
        syntax::TypeName::Int => Ok(Type::Int),
        syntax::TypeName::Bool => Ok(Type::Bool),
        syntax::TypeName::String => Ok(Type::String),
        syntax::TypeName::Named(name) => {
            if contains_string(structs, name) {
                return Ok(Type::Struct(name.clone()));
            }
            if contains_string(enums, name) {
                return Ok(Type::Enum(name.clone()));
            }
            Err(type_err(cat("unknown type ", quoted(name).as_str()), line, column))
        },
        syntax::TypeName::Slice(inner) => match lower_type(inner, structs, enums, line, column) {
            Ok(t) => Ok(Type::Slice(Box::new(t))),
            Err(d) => Err(d),
        },
        syntax::TypeName::MutSlice(inner) => match lower_type(inner, structs, enums, line, column) {
            Ok(t) => Ok(Type::MutSlice(Box::new(t))),
            Err(d) => Err(d),
        },
        syntax::TypeName::Option(inner) => match lower_type(inner, structs, enums, line, column) {
            Ok(t) => Ok(Type::Option(Box::new(t))),
            Err(d) => Err(d),
        },
        syntax::TypeName::Result(ok, er) => {
            let ok_t = match lower_type(ok, structs, enums, line, column) {
                Ok(t) => t,
                Err(d) => return Err(d),
            };
            let err_t = match lower_type(er, structs, enums, line, column) {
                Ok(t) => t,
                Err(d) => return Err(d),
            };
            Ok(Type::Result(Box::new(ok_t), Box::new(err_t)))
        },
        syntax::TypeName::Tuple(elements) => {
            let mut out: Vec<Type> = Vec::new();
            let mut i: usize = 0;
            while i < elements.len()
                invariant
                    i <= elements@.len(),
                    out@.len() == i,
                    forall|j: int|
                        0 <= j < i ==> type_known(&(#[trigger] elements@[j]), structs@, enums@)
                            && type_lowered(&elements@[j], structs@, &out@[j]),
                decreases elements@.len() - i,
            {
                proof {
                    assert(decreases_to!(elements => elements[i as int]));
                }
                match lower_type(&elements[i], structs, enums, line, column) {
                    Ok(t) => out.push(t),
                    Err(d) => return Err(d),
                }
                i = i + 1;
            }
            Ok(Type::Tuple(out))
        },
        syntax::TypeName::Dict(key, value) => {
            let key_t = match lower_type(key, structs, enums, line, column) {
                Ok(t) => t,
                Err(d) => return Err(d),
            };
            proof {
                lemma_key_support(key, structs@, &key_t);
            }
            if !key_t.supports_map_key() {
                return Err(
                    type_err(
                        cat3("map key type ", type_display(&key_t).as_str(), " is not supported"),
                        line,
                        column,
                    ),
                );
            }
            let value_t = match lower_type(value, structs, enums, line, column) {
                Ok(t) => t,
                Err(d) => return Err(d),
            };
            Ok(Type::Dict(Box::new(key_t), Box::new(value_t)))
        },
        syntax::TypeName::Array(inner) => match lower_type(inner, structs, enums, line, column) {
            Ok(t) => Ok(Type::Array(Box::new(t))),
            Err(d) => Err(d),
        },
    }
}

fn struct_def_names(structs: &Vec<StructDef>) -> (r: Vec<String>)
    ensures
        r@.len() == structs@.len(),
        forall|j: int| 0 <= j < structs@.len() ==> #[trigger] r@[j] == structs@[j].name,
{
    let mut out: Vec<String> = Vec::new();
    let mut i: usize = 0;
    while i < structs.len()
        invariant
            i <= structs@.len(),
            out@.len() == i,
            forall|j: int| 0 <= j < i ==> #[trigger] out@[j] == structs@[j].name,
        decreases structs@.len() - i,
    {
        out.push(structs[i].name.clone());
        i = i + 1;
    }
    out
}

fn enum_def_names(enums: &Vec<EnumDef>) -> (r: Vec<String>)
    ensures
        r@.len() == enums@.len(),
        forall|j: int| 0 <= j < enums@.len() ==> #[trigger] r@[j] == enums@[j].name,
{
    let mut out: Vec<String> = Vec::new();
    let mut i: usize = 0;
    while i < enums.len()
        invariant
            i <= enums@.len(),
            out@.len() == i,
            forall|j: int| 0 <= j < i ==> #[trigger] out@[j] == enums@[j].name,
        decreases enums@.len() - i,
    {
        out.push(enums[i].name.clone());
        i = i + 1;
    }
    out
}

fn lower_types(
    tys: &Vec<syntax::TypeName>,
    structs: &Vec<String>,
    enums: &Vec<String>,
    line: usize,
    column: usize,
) -> (r: Result<Vec<Type>, Diagnostic>)
    ensures
        r matches Err(d) ==> d.kind@ == "type"@,
        r is Ok <==> forall|j: int| 0 <= j < tys@.len() ==> type_known(&(#[trigger] tys@[j]), structs@, enums@),
        r matches Ok(v) ==> v@.len() == tys@.len() && forall|j: int|
            0 <= j < tys@.len() ==> type_lowered(&(#[trigger] tys@[j]), structs@, &v@[j]),
{
    let mut out: Vec<Type> = Vec::new();
    let mut i: usize = 0;
    while i < tys.len()
        invariant
            i <= tys@.len(),
            out@.len() == i,
            forall|j: int|
                0 <= j < i ==> type_known(&(#[trigger] tys@[j]), structs@, enums@) && type_lowered(
                    &tys@[j],
                    structs@,
                    &out@[j],
                ),
        decreases tys@.len() - i,
    {
        match lower_type(&tys[i], structs, enums, line, column) {
            Ok(t) => out.push(t),
            Err(d) => return Err(d),
        }
        i = i + 1;
    }
    Ok(out)
}

/// A variant's checked definition: the same name and payload names, and the
/// checked forms of its payload types.
pub open spec fn variant_def_from(v: syntax::EnumVariantDecl, d: EnumVariantDef, names: Seq<String>) -> bool {
    &&& d.name@ == v.name@
    &&& d.payload_names@ == v.payload_names@
    &&& d.payload_tys@.len() == v.payload_tys@.len()
    &&& forall|p: int|
        0 <= p < v.payload_tys@.len() ==> type_lowered(&v.payload_tys@[p], names, &(#[trigger] d.payload_tys@[p]))
}

/// An enum's checked definition: the same name, and its variants in order.
pub open spec fn enum_def_from(decl: syntax::EnumDecl, def: EnumDef, names: Seq<String>) -> bool {
    &&& def.name@ == decl.name@
    &&& def.variants@.len() == decl.variants@.len()
    &&& forall|k: int|
        0 <= k < decl.variants@.len() ==> variant_def_from(decl.variants@[k], #[trigger] def.variants@[k], names)
}

/// Variant `k` of an enum declaration passes the checks made of it alone: its
/// name differs from those before it, its payload types are known, its payload
/// names are none or one per payload and differ from each other, and no payload
/// is the enum itself.
pub open spec fn variant_ok(decl: syntax::EnumDecl, k: int, snames: Seq<String>, enames: Seq<String>) -> bool {
    let v = decl.variants@[k];
    &&& forall|m: int| 0 <= m < k ==> (#[trigger] decl.variants@[m]).name@ != v.name@
    &&& forall|p: int| 0 <= p < v.payload_tys@.len() ==> type_known(&(#[trigger] v.payload_tys@[p]), snames, enames)
    &&& v.payload_names@.len() == 0 || v.payload_names@.len() == v.payload_tys@.len()
    &&& forall|p1: int, p2: int|
        0 <= p1 < p2 < v.payload_names@.len() ==> (#[trigger] v.payload_names@[p1])@ != (
        #[trigger] v.payload_names@[p2])@
    &&& forall|p: int|
        0 <= p < v.payload_tys@.len() ==> !((#[trigger] v.payload_tys@[p]) matches syntax::TypeName::Named(n)
            && n@ == decl.name@ && !has_name(snames, n@))
}

/// The variants, as (enum, variant) positions, checked before variant `k` of enum `i`.
spec fn seen_pairs(enums: Seq<syntax::EnumDecl>, i: int, k: int) -> Set<(int, int)> {
    Set::new(
        |p: (int, int)|
            (0 <= p.0 < i && 0 <= p.1 < enums[p.0].variants@.len()) || (p.0 == i && 0 <= p.1 < k),
    )
}

/// Some checked variant has the entry's name and its enum the entry's enum name.
spec fn entry_seen(enums: Seq<syntax::EnumDecl>, seen: Set<(int, int)>, e: VariantInfo) -> bool {
    exists|ii: int, kk: int|
        #[trigger] seen.contains((ii, kk)) && enums[ii].variants@[kk].name@ == e.name@ && enums[ii].name@
            == e.enum_name@
}

/// The table has an entry for variant `kk` of enum `ii`, under its enum's name.
spec fn pair_entered(enums: Seq<syntax::EnumDecl>, table: Seq<VariantInfo>, ii: int, kk: int) -> bool {
    exists|x: int|
        0 <= x < table.len() && (#[trigger] table[x]).name@ == enums[ii].variants@[kk].name@
            && table[x].enum_name@ == enums[ii].name@
}

/// The table of variants seen so far: one entry per variant name, each naming
/// the enum of a checked variant of that name, every checked variant entered
/// under its enum's name, and the checked variants consistent across enums.
#[verifier::opaque]
spec fn table_ok(enums: Seq<syntax::EnumDecl>, table: Seq<VariantInfo>, seen: Set<(int, int)>) -> bool {
    &&& forall|x: int, y: int|
        0 <= x < y < table.len() ==> (#[trigger] table[x]).name@ != (#[trigger] table[y]).name@
    &&& forall|x: int| 0 <= x < table.len() ==> #[trigger] entry_seen(enums, seen, table[x])
    &&& forall|ii: int, kk: int| #[trigger] seen.contains((ii, kk)) ==> pair_entered(enums, table, ii, kk)
    &&& forall|i1: int, k1: int, i2: int, k2: int|
        seen.contains((i1, k1)) && seen.contains((i2, k2)) && i1 < i2 && (#[trigger] enums[i1].variants@[k1]).name@
            == (#[trigger] enums[i2].variants@[k2]).name@ ==> enums[i1].name@ == enums[i2].name@
}

proof fn lemma_table_start(enums: Seq<syntax::EnumDecl>)
    ensures
        table_ok(enums, Seq::empty(), seen_pairs(enums, 0, 0)),
{
    reveal(table_ok);
}

/// Entering the variant `k` of enum `i` again under the same enum name.
proof fn lemma_table_same(
    enums: Seq<syntax::EnumDecl>,
    table: Seq<VariantInfo>,
    a: int,
    info: VariantInfo,
    i: int,
    k: int,
)
    requires
        0 <= i < enums.len(),
        0 <= k < enums[i].variants@.len(),
        table_ok(enums, table, seen_pairs(enums, i, k)),
        0 <= a < table.len(),
        table[a].name@ == enums[i].variants@[k].name@,
        table[a].enum_name@ == enums[i].name@,
        info.name@ == enums[i].variants@[k].name@,
        info.enum_name@ == enums[i].name@,
    ensures
        table_ok(enums, table.update(a, info), seen_pairs(enums, i, k + 1)),
{
    reveal(table_ok);
    let before = seen_pairs(enums, i, k);
    let after = seen_pairs(enums, i, k + 1);
    let t2 = table.update(a, info);
    assert(after =~= before.insert((i, k)));
    assert forall|x: int| 0 <= x < t2.len() implies (#[trigger] t2[x]).name@ == table[x].name@
        && t2[x].enum_name@ == table[x].enum_name@ by {}
    assert forall|x: int, y: int| 0 <= x < y < t2.len() implies (#[trigger] t2[x]).name@ != (
    #[trigger] t2[y]).name@ by {
        assert(t2[x].name@ == table[x].name@);
        assert(t2[y].name@ == table[y].name@);
    }
    assert forall|x: int| 0 <= x < t2.len() implies #[trigger] entry_seen(enums, after, t2[x]) by {
        assert(entry_seen(enums, before, table[x]));
        let (ii, kk) = choose|ii: int, kk: int|
            #[trigger] before.contains((ii, kk)) && enums[ii].variants@[kk].name@ == table[x].name@
                && enums[ii].name@ == table[x].enum_name@;
        assert(after.contains((ii, kk)));
    }
    assert forall|ii: int, kk: int| #[trigger] after.contains((ii, kk)) implies pair_entered(enums, t2, ii, kk) by {
        if ii == i && kk == k {
            assert(t2[a].name@ == enums[ii].variants@[kk].name@);
        } else {
            assert(before.contains((ii, kk)));
            assert(pair_entered(enums, table, ii, kk));
            let x = choose|x: int|
                0 <= x < table.len() && (#[trigger] table[x]).name@ == enums[ii].variants@[kk].name@
                    && table[x].enum_name@ == enums[ii].name@;
            assert(t2[x].name@ == table[x].name@);
        }
    }
    assert forall|i1: int, k1: int, i2: int, k2: int|
        after.contains((i1, k1)) && after.contains((i2, k2)) && i1 < i2 && (#[trigger] enums[i1].variants@[k1]).name@
            == (#[trigger] enums[i2].variants@[k2]).name@ implies enums[i1].name@ == enums[i2].name@ by {
        if i2 == i && k2 == k {
            assert(before.contains((i1, k1)));
            assert(pair_entered(enums, table, i1, k1));
            let x = choose|x: int|
                0 <= x < table.len() && (#[trigger] table[x]).name@ == enums[i1].variants@[k1].name@
                    && table[x].enum_name@ == enums[i1].name@;
            if x != a {
                assert(table[x].name@ == table[a].name@);
            }
        } else if i1 == i && k1 == k {
        } else {
            assert(before.contains((i1, k1)) && before.contains((i2, k2)));
        }
    }
}

/// Entering the variant `k` of enum `i`, whose name is not in the table yet.
proof fn lemma_table_push(enums: Seq<syntax::EnumDecl>, table: Seq<VariantInfo>, info: VariantInfo, i: int, k: int)
    requires
        0 <= i < enums.len(),
        0 <= k < enums[i].variants@.len(),
        table_ok(enums, table, seen_pairs(enums, i, k)),
        forall|w: int| 0 <= w < table.len() ==> (#[trigger] table[w]).name@ != enums[i].variants@[k].name@,
        info.name@ == enums[i].variants@[k].name@,
        info.enum_name@ == enums[i].name@,
    ensures
        table_ok(enums, table.push(info), seen_pairs(enums, i, k + 1)),
{
    reveal(table_ok);
    let before = seen_pairs(enums, i, k);
    let after = seen_pairs(enums, i, k + 1);
    let t2 = table.push(info);
    assert(after =~= before.insert((i, k)));
    assert forall|x: int| 0 <= x < t2.len() implies #[trigger] entry_seen(enums, after, t2[x]) by {
        if x < table.len() {
            assert(entry_seen(enums, before, table[x]));
            let (ii, kk) = choose|ii: int, kk: int|
                #[trigger] before.contains((ii, kk)) && enums[ii].variants@[kk].name@ == table[x].name@
                    && enums[ii].name@ == table[x].enum_name@;
            assert(after.contains((ii, kk)));
            assert(t2[x] == table[x]);
        } else {
            assert(after.contains((i, k)));
        }
    }
    assert forall|ii: int, kk: int| #[trigger] after.contains((ii, kk)) implies pair_entered(enums, t2, ii, kk) by {
        if ii == i && kk == k {
            assert(t2[table.len() as int].name@ == enums[ii].variants@[kk].name@);
        } else {
            assert(before.contains((ii, kk)));
            assert(pair_entered(enums, table, ii, kk));
            let x = choose|x: int|
                0 <= x < table.len() && (#[trigger] table[x]).name@ == enums[ii].variants@[kk].name@
                    && table[x].enum_name@ == enums[ii].name@;
            assert(t2[x] == table[x]);
        }
    }
    assert forall|i1: int, k1: int, i2: int, k2: int|
        after.contains((i1, k1)) && after.contains((i2, k2)) && i1 < i2 && (#[trigger] enums[i1].variants@[k1]).name@
            == (#[trigger] enums[i2].variants@[k2]).name@ implies enums[i1].name@ == enums[i2].name@ by {
        if i2 == i && k2 == k {
            assert(before.contains((i1, k1)));
            assert(pair_entered(enums, table, i1, k1));
        } else if i1 == i && k1 == k {
        } else {
            assert(before.contains((i1, k1)) && before.contains((i2, k2)));
        }
    }
}

/// A table entry under another enum's name for the variant `k` of enum `i`
/// shows two enums of different names with a variant of the same name.
proof fn lemma_table_conflict(enums: Seq<syntax::EnumDecl>, table: Seq<VariantInfo>, a: int, i: int, k: int)
    requires
        0 <= i < enums.len(),
        0 <= k < enums[i].variants@.len(),
        table_ok(enums, table, seen_pairs(enums, i, k)),
        0 <= a < table.len(),
        table[a].name@ == enums[i].variants@[k].name@,
        table[a].enum_name@ != enums[i].name@,
        forall|m: int| 0 <= m < k ==> (#[trigger] enums[i].variants@[m]).name@ != enums[i].variants@[k].name@,
    ensures
        !variant_names_consistent(enums),
{
    reveal(table_ok);
    let before = seen_pairs(enums, i, k);
    assert(entry_seen(enums, before, table[a]));
    let (ii, kk) = choose|ii: int, kk: int|
        #[trigger] before.contains((ii, kk)) && enums[ii].variants@[kk].name@ == table[a].name@
            && enums[ii].name@ == table[a].enum_name@;
    if ii == i {
        assert(enums[i].variants@[kk].name@ != enums[i].variants@[k].name@);
    }
    assert(enums[ii].variants@[kk].name@ == enums[i].variants@[k].name@);
}

/// Every variant seen, the table's consistency is that of all the enums.
proof fn lemma_table_done(enums: Seq<syntax::EnumDecl>, table: Seq<VariantInfo>)
    requires
        table_ok(enums, table, seen_pairs(enums, enums.len() as int, 0)),
    ensures
        variant_names_consistent(enums),
{
    reveal(table_ok);
    let all = seen_pairs(enums, enums.len() as int, 0);
    assert forall|i1: int, k1: int, i2: int, k2: int|
        0 <= i1 < i2 < enums.len() && 0 <= k1 < enums[i1].variants@.len() && 0 <= k2
            < enums[i2].variants@.len() && (#[trigger] enums[i1].variants@[k1]).name@ == (
        #[trigger] enums[i2].variants@[k2]).name@ implies enums[i1].name@ == enums[i2].name@ by {
        assert(all.contains((i1, k1)));
        assert(all.contains((i2, k2)));
    }
}

/// Two variants of the same name, in two enums, belong to enums of one name.
pub open spec fn variant_names_consistent(enums: Seq<syntax::EnumDecl>) -> bool {
    forall|i1: int, k1: int, i2: int, k2: int|
        0 <= i1 < i2 < enums.len() && 0 <= k1 < enums[i1].variants@.len() && 0 <= k2
            < enums[i2].variants@.len() && (#[trigger] enums[i1].variants@[k1]).name@ == (
        #[trigger] enums[i2].variants@[k2]).name@ ==> enums[i1].name@ == enums[i2].name@
}

/// The enum declarations that check: each declares a variant, every variant
/// passes its own checks, and variant names are consistent across enums.
pub open spec fn enum_decls_ok(enums: Seq<syntax::EnumDecl>, snames: Seq<String>, enames: Seq<String>) -> bool {
    &&& forall|i: int| 0 <= i < enums.len() ==> (#[trigger] enums[i]).variants@.len() > 0
    &&& forall|i: int, k: int|
        0 <= i < enums.len() && 0 <= k < enums[i].variants@.len() ==> #[trigger] variant_ok(
            enums[i],
            k,
            snames,
            enames,
        )
    &&& variant_names_consistent(enums)
}

/// An enum that declares at least one variant, each passing its checks, and
/// its checked definition.
pub open spec fn enum_checked(decl: syntax::EnumDecl, def: EnumDef, names: Seq<String>, enames: Seq<String>) -> bool {
    &&& decl.variants@.len() > 0
    &&& enum_def_from(decl, def, names)
    &&& forall|k: int| 0 <= k < decl.variants@.len() ==> #[trigger] variant_ok(decl, k, names, enames)
}

#[verifier::loop_isolation(false)]
fn collect_enum_definitions(
    enums: &Vec<syntax::EnumDecl>,
    struct_names: &Vec<String>,
    enum_names: &Vec<String>,
) -> (r: Result<(Vec<EnumDef>, Vec<VariantInfo>), Diagnostic>)
    ensures
        r matches Err(d) ==> d.kind@ == "type"@,
        r is Ok <==> enum_decls_ok(enums@, struct_names@, enum_names@),
        r matches Ok((defs, _)) ==> defs@.len() == enums@.len() && forall|i: int|
            0 <= i < enums@.len() ==> #[trigger] enum_checked(enums@[i], defs@[i], struct_names@, enum_names@),
{
    let mut lowered: Vec<EnumDef> = Vec::new();
    let mut variants: Vec<VariantInfo> = Vec::new();
    let mut i: usize = 0;
    proof {
        lemma_table_start(enums@);
    }
    while i < enums.len()
        invariant
            i <= enums@.len(),
            lowered@.len() == i,
            forall|ii: int| 0 <= ii < i ==> #[trigger] enum_checked(enums@[ii], lowered@[ii], struct_names@, enum_names@),
            table_ok(enums@, variants@, seen_pairs(enums@, i as int, 0)),
        decreases enums@.len() - i,
    {
        let enum_decl = &enums[i];
        if enum_decl.variants.len() == 0 {
            assert(enums@[i as int].variants@.len() == 0);
            return Err(
                type_err(
                    cat3("enum ", quoted(&enum_decl.name).as_str(), " must declare at least one variant"),
                    enum_decl.line,
                    enum_decl.column,
                ),
            );
        }
        let mut seen: Vec<String> = Vec::new();
        let mut lowered_variants: Vec<EnumVariantDef> = Vec::new();
        let mut k: usize = 0;
        assert(seen_pairs(enums@, i as int, 0) =~= seen_pairs(enums@, i as int, k as int));
        while k < enum_decl.variants.len()
            invariant
                k <= enum_decl.variants@.len(),
                *enum_decl == enums@[i as int],
                enum_decl.variants@.len() > 0,
                lowered@.len() == i,
                forall|ii: int| 0 <= ii < i ==> #[trigger] enum_checked(enums@[ii], lowered@[ii], struct_names@, enum_names@),
                lowered_variants@.len() == k,
                seen@.len() == k,
                forall|m: int| 0 <= m < k ==> (#[trigger] seen@[m])@ == enum_decl.variants@[m].name@,
                forall|m: int| 0 <= m < k ==> #[trigger] variant_ok(*enum_decl, m, struct_names@, enum_names@),
                table_ok(enums@, variants@, seen_pairs(enums@, i as int, k as int)),
                forall|m: int|
                    0 <= m < k ==> variant_def_from(
                        enum_decl.variants@[m],
                        #[trigger] lowered_variants@[m],
                        struct_names@,
                    ),
            decreases enum_decl.variants@.len() - k,
        {
            let variant = &enum_decl.variants[k];
            let ghost before_seen = seen@;
            if !insert_string(&mut seen, &variant.name) {
                proof {
                    let m = choose|m: int| 0 <= m < before_seen.len() && (#[trigger] before_seen[m])@ == variant.name@;
                    assert(enum_decl.variants@[m].name@ == variant.name@);
                    assert(!variant_ok(enums@[i as int], k as int, struct_names@, enum_names@));
                }
                return Err(
                    type_err(
                        cat4(
                            "duplicate variant ",
                            quoted(&variant.name).as_str(),
                            " in enum ",
                            quoted(&enum_decl.name).as_str(),
                        ),
                        variant.line,
                        variant.column,
                    ),
                );
            }
            proof {
                assert forall|m: int| 0 <= m < k implies (#[trigger] enum_decl.variants@[m]).name@ != variant.name@ by {
                    assert(before_seen[m]@ == enum_decl.variants@[m].name@);
                }
            }
            let info_tys = match lower_types(
                &variant.payload_tys,
                struct_names,
                enum_names,
                variant.line,
                variant.column,
            ) {
                Ok(v) => v,
                Err(d) => {
                    proof {
                        let p = choose|p: int| 0 <= p < variant.payload_tys@.len() && !type_known(&(#[trigger] variant.payload_tys@[p]), struct_names@, enum_names@);
                        assert(!variant_ok(enums@[i as int], k as int, struct_names@, enum_names@));
                    }
                    return Err(d);
                },
            };
            let info = VariantInfo {
                name: variant.name.clone(),
                enum_name: enum_decl.name.clone(),
                payload_tys: info_tys,
                payload_names: clone_strings(&variant.payload_names),
            };
            let mut existing: Option<usize> = None;
            let mut v: usize = 0;
            while v < variants.len()
                invariant
                    v <= variants@.len(),
                    existing matches Some(x) ==> x < variants@.len() && variants@[x as int].name@ == variant.name@,
                    existing is None ==> forall|w: int| 0 <= w < v ==> (#[trigger] variants@[w]).name@ != variant.name@,
                decreases variants@.len() - v,
            {
                if variants[v].name == variant.name {
                    existing = Some(v);
                }
                v = v + 1;
            }
            let ghost old_table = variants@;
            let ghost info_view = info;
            match existing {
                Some(v) => {
                    let previous = variants[v].enum_name.clone();
                    variants.set(v, info);
                    if previous != enum_decl.name {
                        proof {
                            lemma_table_conflict(enums@, old_table, v as int, i as int, k as int);
                        }
                        let msg = cat5(
                            "duplicate variant name ",
                            quoted(&variant.name).as_str(),
                            " across enums ",
                            quoted(&previous).as_str(),
                            " and ",
                        ).concat(quoted(&enum_decl.name).as_str()).concat(" is not yet supported");
                        return Err(type_err(msg, variant.line, variant.column));
                    }
                    proof {
                        lemma_table_same(enums@, old_table, v as int, info_view, i as int, k as int);
                    }
                },
                None => {
                    variants.push(info);
                    proof {
                        lemma_table_push(enums@, old_table, info_view, i as int, k as int);
                    }
                },
            }
            let payload_tys = match lower_types(
                &variant.payload_tys,
                struct_names,
                enum_names,
                variant.line,
                variant.column,
            ) {
                Ok(v) => v,
                Err(d) => return Err(d),
            };
            if variant.payload_names.len() != 0 && variant.payload_names.len() != payload_tys.len() {
                assert(!variant_ok(enums@[i as int], k as int, struct_names@, enum_names@));
                return Err(
                    type_err(
                        cat3(
                            "internal error: enum variant ",
                            quoted(&variant.name).as_str(),
                            " has mismatched named payload metadata",
                        ),
                        variant.line,
                        variant.column,
                    ),
                );
            }
            let mut seen_payload: Vec<String> = Vec::new();
            let mut p: usize = 0;
            while p < variant.payload_names.len()
                invariant
                    p <= variant.payload_names@.len(),
                    seen_payload@.len() == p,
                    forall|m: int| 0 <= m < p ==> (#[trigger] seen_payload@[m])@ == variant.payload_names@[m]@,
                    forall|p1: int, p2: int|
                        0 <= p1 < p2 < p ==> (#[trigger] variant.payload_names@[p1])@ != (
                        #[trigger] variant.payload_names@[p2])@,
                decreases variant.payload_names@.len() - p,
            {
                let ghost before_payload = seen_payload@;
                if !insert_string(&mut seen_payload, &variant.payload_names[p]) {
                    proof {
                        let m = choose|m: int| 0 <= m < before_payload.len() && (#[trigger] before_payload[m])@ == variant.payload_names@[p as int]@;
                        assert(variant.payload_names@[m]@ == variant.payload_names@[p as int]@);
                        assert(!variant_ok(enums@[i as int], k as int, struct_names@, enum_names@));
                    }
                    return Err(
                        type_err(
                            cat4(
                                "duplicate payload field ",
                                quoted(&variant.payload_names[p]).as_str(),
                                " in enum variant ",
                                quoted(&variant.name).as_str(),
                            ),
                            variant.line,
                            variant.column,
                        ),
                    );
                }
                proof {
                    assert forall|m: int| 0 <= m < p implies (#[trigger] variant.payload_names@[m])@
                        != variant.payload_names@[p as int]@ by {
                        assert(before_payload[m]@ == variant.payload_names@[m]@);
                    }
                }
                p = p + 1;
            }
            let mut q: usize = 0;
            while q < payload_tys.len()
                invariant
                    q <= payload_tys@.len(),
                    forall|qq: int|
                        0 <= qq < q ==> !((#[trigger] variant.payload_tys@[qq]) matches syntax::TypeName::Named(n)
                            && n@ == enum_decl.name@ && !has_name(struct_names@, n@)),
                decreases payload_tys@.len() - q,
            {
                let recursive = match &payload_tys[q] {
                    Type::Enum(name) => *name == enum_decl.name,
                    _ => false,
                };
                proof {
                    assert(type_lowered(&variant.payload_tys@[q as int], struct_names@, &payload_tys@[q as int]));
                    assert(recursive <==> (variant.payload_tys@[q as int] matches syntax::TypeName::Named(n)
                        && n@ == enum_decl.name@ && !has_name(struct_names@, n@)));
                }
                if recursive {
                    assert(!variant_ok(enums@[i as int], k as int, struct_names@, enum_names@));
                    return Err(
                        type_err(
                            cat5(
                                "recursive payload variant ",
                                quoted(&variant.name).as_str(),
                                " in enum ",
                                quoted(&enum_decl.name).as_str(),
                                " is not supported yet",
                            ),
                            variant.line,
                            variant.column,
                        ),
                    );
                }
                q = q + 1;
            }
            lowered_variants.push(
                EnumVariantDef {
                    name: variant.name.clone(),
                    payload_tys,
                    payload_names: clone_strings(&variant.payload_names),
                },
            );
            proof {
                assert(variant_ok(*enum_decl, k as int, struct_names@, enum_names@));
            }
            k = k + 1;
        }
        assert(seen_pairs(enums@, i as int, k as int) =~= seen_pairs(enums@, i + 1, 0));
        let ghost prev = lowered@;
        lowered.push(EnumDef { name: enum_decl.name.clone(), variants: lowered_variants });
        proof {
            assert(lowered@[i as int].variants@ == lowered_variants@);
            assert(enum_def_from(enums@[i as int], lowered@[i as int], struct_names@));
            assert forall|ii: int| 0 <= ii < i implies lowered@[ii] == prev[ii] by {}
            assert(enum_checked(enums@[i as int], lowered@[i as int], struct_names@, enum_names@));
        }
        i = i + 1;
    }
    proof {
        lemma_table_done(enums@, variants@);
        assert forall|ii: int, kk: int|
            0 <= ii < enums@.len() && 0 <= kk < enums@[ii].variants@.len() implies #[trigger] variant_ok(
                enums@[ii],
                kk,
                struct_names@,
                enum_names@,
            ) by {
            assert(enum_checked(enums@[ii], lowered@[ii], struct_names@, enum_names@));
        }
        assert forall|ii: int| 0 <= ii < enums@.len() implies (#[trigger] enums@[ii]).variants@.len() > 0 by {
            assert(enum_checked(enums@[ii], lowered@[ii], struct_names@, enum_names@));
        }
    }
    Ok((lowered, variants))
}

/// The names of the declared structs, in order.
pub open spec fn struct_decl_names(decls: Seq<syntax::StructDecl>) -> Seq<String> {
    Seq::new(decls.len(), |i: int| decls[i].name)
}

/// A struct's checked definition: the same name, and the same fields in order,
/// each with the checked form of its written type.
pub open spec fn struct_def_from(decl: syntax::StructDecl, def: StructDef, names: Seq<String>) -> bool {
    &&& def.name@ == decl.name@
    &&& def.fields@.len() == decl.fields@.len()
    &&& forall|k: int|
        0 <= k < decl.fields@.len() ==> (#[trigger] def.fields@[k]).name@ == decl.fields@[k].name@
            && type_lowered(&decl.fields@[k].ty, names, &def.fields@[k].ty)
}

/// Field `k` of a struct declaration is acceptable: its name differs from
/// those of the fields before it, its type is known, and it does not name its
/// own struct.
pub open spec fn field_ok(decl: syntax::StructDecl, k: int, names: Seq<String>, enums: Seq<String>) -> bool {
    &&& forall|m: int| 0 <= m < k ==> (#[trigger] decl.fields@[m]).name@ != decl.fields@[k].name@
    &&& type_known(&decl.fields@[k].ty, names, enums)
    &&& !(decl.fields@[k].ty matches syntax::TypeName::Named(n) && n@ == decl.name@)
}

/// The struct declarations that check: no name of an enum or of another
/// struct, and every field acceptable.
pub open spec fn struct_decls_ok(decls: Seq<syntax::StructDecl>, enums: Seq<String>) -> bool {
    &&& forall|a: int| 0 <= a < decls.len() ==> !has_name(enums, (#[trigger] decls[a]).name@)
    &&& forall|a: int, b: int|
        0 <= a < b < decls.len() ==> (#[trigger] decls[a]).name@ != (#[trigger] decls[b]).name@
    &&& forall|j: int, k: int|
        0 <= j < decls.len() && 0 <= k < decls[j].fields@.len() ==> #[trigger] field_ok(
            decls[j],
            k,
            struct_decl_names(decls),
            enums,
        )
}

#[verifier::loop_isolation(false)]
fn collect_struct_definitions(structs: &Vec<syntax::StructDecl>, enums: &Vec<String>) -> (r: Result<
    Vec<StructDef>,
    Diagnostic,
>)
    ensures
        r matches Err(d) ==> d.kind@ == "type"@,
        r is Ok <==> struct_decls_ok(structs@, enums@),
        r matches Ok(defs) ==> defs@.len() == structs@.len() && forall|j: int|
            0 <= j < structs@.len() ==> struct_def_from(
                structs@[j],
                #[trigger] defs@[j],
                struct_decl_names(structs@),
            ),
{
    let ghost all_names = struct_decl_names(structs@);
    let mut names: Vec<String> = Vec::new();
    let mut i: usize = 0;
    while i < structs.len()
        invariant
            i <= structs@.len(),
            names@ == all_names.subrange(0, i as int),
            forall|a: int| 0 <= a < i ==> !has_name(enums@, (#[trigger] structs@[a]).name@),
            forall|a: int, b: int|
                0 <= a < b < i ==> (#[trigger] structs@[a]).name@ != (#[trigger] structs@[b]).name@,
        decreases structs@.len() - i,
    {
        let ghost before = names@;
        if contains_string(enums, &structs[i].name) {
            proof {
                assert(has_name(enums@, structs@[i as int].name@));
            }
            return Err(
                type_err(
                    cat("duplicate type name ", quoted(&structs[i].name).as_str()),
                    structs[i].line,
                    structs[i].column,
                ),
            );
        }
        if !insert_string(&mut names, &structs[i].name) {
            return Err(
                type_err(
                    cat("duplicate struct ", quoted(&structs[i].name).as_str()),
                    structs[i].line,
                    structs[i].column,
                ),
            );
        }
        proof {
            assert(!has_name(enums@, structs@[i as int].name@));
            assert forall|a: int| 0 <= a < i implies structs@[a].name@ != structs@[i as int].name@ by {
                assert(before[a]@ == structs@[a].name@);
            }
        }
        i = i + 1;
        assert(names@ =~= all_names.subrange(0, i as int));
    }
    assert(names@ =~= all_names);
    let mut lowered: Vec<StructDef> = Vec::new();
    let mut j: usize = 0;
    while j < structs.len()
        invariant
            j <= structs@.len(),
            names@ == all_names,
            lowered@.len() == j,
            forall|jj: int| 0 <= jj < j ==> struct_def_from(structs@[jj], #[trigger] lowered@[jj], all_names),
            forall|jj: int, kk: int|
                0 <= jj < j && 0 <= kk < structs@[jj].fields@.len() ==> #[trigger] field_ok(
                    structs@[jj],
                    kk,
                    all_names,
                    enums@,
                ),
        decreases structs@.len() - j,
    {
        let decl = &structs[j];
        let mut fields: Vec<StructField> = Vec::new();
        let mut seen: Vec<String> = Vec::new();
        let mut k: usize = 0;
        while k < decl.fields.len()
            invariant
                k <= decl.fields@.len(),
                *decl == structs@[j as int],
                seen@.len() == k,
                fields@.len() == k,
                forall|m: int| 0 <= m < k ==> (#[trigger] seen@[m])@ == decl.fields@[m].name@,
                forall|m: int|
                    0 <= m < k ==> (#[trigger] fields@[m]).name@ == decl.fields@[m].name@ && type_lowered(
                        &decl.fields@[m].ty,
                        all_names,
                        &fields@[m].ty,
                    ),
                forall|m: int| 0 <= m < k ==> #[trigger] field_ok(*decl, m, all_names, enums@),
            decreases decl.fields@.len() - k,
        {
            let field = &decl.fields[k];
            let ghost before = seen@;
            if !insert_string(&mut seen, &field.name) {
                proof {
                    let m = choose|m: int| 0 <= m < before.len() && (#[trigger] before[m])@ == field.name@;
                    assert(decl.fields@[m].name@ == field.name@);
                    assert(!field_ok(structs@[j as int], k as int, all_names, enums@));
                }
                return Err(
                    type_err(
                        cat4(
                            "duplicate field ",
                            quoted(&field.name).as_str(),
                            " in struct ",
                            quoted(&decl.name).as_str(),
                        ),
                        field.line,
                        field.column,
                    ),
                );
            }
            proof {
                assert forall|m: int| 0 <= m < k implies (#[trigger] decl.fields@[m]).name@ != field.name@ by {
                    assert(before[m]@ == decl.fields@[m].name@);
                }
            }
            let ty = match lower_type(&field.ty, &names, enums, field.line, field.column) {
                Ok(t) => t,
                Err(d) => {
                    proof {
                        assert(!field_ok(structs@[j as int], k as int, all_names, enums@));
                    }
                    return Err(d);
                },
            };
            let recursive = match &ty {
                Type::Struct(name) => *name == decl.name,
                _ => false,
            };
            proof {
                assert(all_names[j as int]@ == decl.name@);
                assert(recursive <==> (field.ty matches syntax::TypeName::Named(n) && n@ == decl.name@));
            }
            if recursive {
                proof {
                    assert(!field_ok(structs@[j as int], k as int, all_names, enums@));
                }
                return Err(
                    type_err(
                        cat5(
                            "recursive field ",
                            quoted(&field.name).as_str(),
                            " in struct ",
                            quoted(&decl.name).as_str(),
                            " is not supported yet",
                        ),
                        field.line,
                        field.column,
                    ),
                );
            }
            fields.push(StructField { name: field.name.clone(), ty });
            k = k + 1;
        }
        lowered.push(StructDef { name: decl.name.clone(), fields });
        j = j + 1;
    }
    Ok(lowered)
}

/// The names of checked struct definitions, in order.
pub open spec fn def_names(structs: Seq<StructDef>) -> Seq<String> {
    Seq::new(structs.len(), |i: int| structs[i].name)
}

/// The names of checked enum definitions, in order.
pub open spec fn enum_def_names_of(enums: Seq<EnumDef>) -> Seq<String> {
    Seq::new(enums.len(), |i: int| enums[i].name)
}

/// Every type written in a function's signature is known.
pub open spec fn sig_types_known(f: syntax::Function, snames: Seq<String>, enames: Seq<String>) -> bool {
    &&& type_known(&f.return_ty, snames, enames)
    &&& forall|k: int| 0 <= k < f.params@.len() ==> type_known(&(#[trigger] f.params@[k]).ty, snames, enames)
}

/// A function's signature: its name, and the checked forms of its parameter
/// types and return type.
spec fn sig_from(f: syntax::Function, sig: FunctionSig, names: Seq<String>) -> bool {
    &&& sig.name@ == f.name@
    &&& sig.params@.len() == f.params@.len()
    &&& forall|k: int|
        0 <= k < f.params@.len() ==> type_lowered(&f.params@[k].ty, names, &(#[trigger] sig.params@[k]))
    &&& type_lowered(&f.return_ty, names, &sig.return_ty)
}

fn collect_function_signatures(
    functions: &Vec<syntax::Function>,
    structs: &Vec<StructDef>,
    enums: &Vec<EnumDef>,
) -> (r: Result<Vec<FunctionSig>, Diagnostic>)
    ensures
        r matches Err(d) ==> d.kind@ == "type"@,
        r matches Ok(sigs) ==> sigs@.len() == functions@.len() && (forall|i: int|
            0 <= i < functions@.len() ==> sig_from(functions@[i], #[trigger] sigs@[i], def_names(structs@)))
            && (forall|a: int, b: int|
            0 <= a < b < functions@.len() ==> (#[trigger] functions@[a]).name@ != (
            #[trigger] functions@[b]).name@),
        r is Ok ==> forall|i: int|
            0 <= i < functions@.len() ==> #[trigger] sig_types_known(
                functions@[i],
                def_names(structs@),
                enum_def_names_of(enums@),
            ),
        functions@.len() == 0 ==> r is Ok,
{
    let struct_names = struct_def_names(structs);
    let enum_names = enum_def_names(enums);
    assert(struct_names@ =~= def_names(structs@));
    assert(enum_names@ =~= enum_def_names_of(enums@));
    let mut signatures: Vec<FunctionSig> = Vec::new();
    let mut i: usize = 0;
    while i < functions.len()
        invariant
            i <= functions@.len(),
            struct_names@ == def_names(structs@),
            enum_names@ == enum_def_names_of(enums@),
            forall|ii: int| 0 <= ii < i ==> #[trigger] sig_types_known(functions@[ii], struct_names@, enum_names@),
            signatures@.len() == i,
            forall|ii: int| 0 <= ii < i ==> sig_from(functions@[ii], #[trigger] signatures@[ii], struct_names@),
            forall|a: int, b: int|
                0 <= a < b < i ==> (#[trigger] functions@[a]).name@ != (#[trigger] functions@[b]).name@,
        decreases functions@.len() - i,
    {
        let function = &functions[i];
        let return_ty = match lower_type(
            &function.return_ty,
            &struct_names,
            &enum_names,
            function.line,
            function.column,
        ) {
            Ok(t) => t,
            Err(d) => return Err(d),
        };
        let mut params: Vec<Type> = Vec::new();
        let mut k: usize = 0;
        while k < function.params.len()
            invariant
                i < functions@.len(),
                k <= function.params@.len(),
                params@.len() == k,
                forall|m: int| 0 <= m < k ==> type_known(&(#[trigger] function.params@[m]).ty, struct_names@, enum_names@),
                forall|m: int|
                    0 <= m < k ==> type_lowered(&function.params@[m].ty, struct_names@, &(#[trigger] params@[m])),
            decreases function.params@.len() - k,
        {
            let param = &function.params[k];
            match lower_type(&param.ty, &struct_names, &enum_names, param.line, param.column) {
                Ok(t) => params.push(t),
                Err(d) => return Err(d),
            }
            k = k + 1;
        }
        let borrow_return_params = match classify_borrow_return(
            &params,
            &return_ty,
            structs,
            enums,
            function.line,
            function.column,
        ) {
            Ok(v) => v,
            Err(d) => return Err(d),
        };
        let sig = FunctionSig { name: function.name.clone(), params, return_ty, borrow_return_params };
        let mut existing: Option<usize> = None;
        let mut v: usize = 0;
        while v < signatures.len()
            invariant
                v <= signatures@.len(),
                existing matches Some(x) ==> x < signatures@.len(),
                existing is None ==> forall|w: int| 0 <= w < v ==> (#[trigger] signatures@[w]).name@ != function.name@,
            decreases signatures@.len() - v,
        {
            if signatures[v].name == function.name {
                existing = Some(v);
            }
            v = v + 1;
        }
        proof {
            if existing is None {
                assert forall|a: int| 0 <= a < i implies functions@[a].name@ != function.name@ by {
                    assert(signatures@[a].name@ == functions@[a].name@);
                }
            }
        }
        match existing {
            Some(v) => {
                signatures.set(v, sig);
                return Err(
                    type_err(
                        cat("duplicate function ", quoted(&function.name).as_str()),
                        function.line,
                        function.column,
                    ),
                );
            },
            None => signatures.push(sig),
        }
        proof {
            assert(sig_types_known(functions@[i as int], struct_names@, enum_names@));
        }
        i = i + 1;
    }
    Ok(signatures)
}

// ----- Borrowed slices in types --------------------------------------------------

/// Whether a type holds a borrowed slice, looking through the fields of the
/// named structs and the payloads of the named enums. A name already being
/// looked through is not entered again; `visiting` holds those names, and the
/// check stops once it holds as many names as there are declarations.
/// The first struct defined under the name `n`, searching from index `i`.
spec fn struct_def_named(structs: Seq<StructDef>, n: Seq<char>, i: nat) -> Option<StructDef>
    decreases structs.len() - i,
{
    if i >= structs.len() {
        None
    } else if structs[i as int].name@ == n {
        Some(structs[i as int])
    } else {
        struct_def_named(structs, n, i + 1)
    }
}

/// The first enum defined under the name `n`, searching from index `i`.
spec fn enum_def_named(enums: Seq<EnumDef>, n: Seq<char>, i: nat) -> Option<EnumDef>
    decreases enums.len() - i,
{
    if i >= enums.len() {
        None
    } else if enums[i as int].name@ == n {
        Some(enums[i as int])
    } else {
        enum_def_named(enums, n, i + 1)
    }
}

/// Whether values of `ty` hold a borrowed slice: directly, or through the
/// field types of the first struct and the payload types of the first enum
/// defined under a name. A struct named in `vs` or an enum named in `ve` is
/// already being looked through and is not entered again, nor is any once as
/// many are open as there are definitions.
spec fn holds_borrow(
    ty: &Type,
    structs: Seq<StructDef>,
    enums: Seq<EnumDef>,
    vs: Seq<String>,
    ve: Seq<String>,
) -> bool
    decreases structs.len() + enums.len() - vs.len() - ve.len(), ty,
{
    match ty {
        Type::Int | Type::Bool | Type::String => false,
        Type::Slice(_) | Type::MutSlice(_) => true,
        Type::Option(i) => holds_borrow(i, structs, enums, vs, ve),
        Type::Array(i) => holds_borrow(i, structs, enums, vs, ve),
        Type::Result(a, b) => holds_borrow(a, structs, enums, vs, ve) || holds_borrow(
            b,
            structs,
            enums,
            vs,
            ve,
        ),
        Type::Dict(a, b) => holds_borrow(a, structs, enums, vs, ve) || holds_borrow(
            b,
            structs,
            enums,
            vs,
            ve,
        ),
        Type::Tuple(es) => exists|i: int|
            0 <= i < es@.len() && holds_borrow(&(#[trigger] es@[i]), structs, enums, vs, ve),
        Type::Struct(n) => if has_name(vs, n@) || vs.len() + ve.len() >= structs.len() + enums.len() {
            false
        } else {
            match struct_def_named(structs, n@, 0) {
                Some(d) => exists|i: int|
                    0 <= i < d.fields@.len() && holds_borrow(
                        &(#[trigger] d.fields@[i]).ty,
                        structs,
                        enums,
                        vs.push(*n),
                        ve,
                    ),
                None => false,
            }
        },
        Type::Enum(n) => if has_name(ve, n@) || vs.len() + ve.len() >= structs.len() + enums.len() {
            false
        } else {
            match enum_def_named(enums, n@, 0) {
                Some(d) => exists|i: int, k: int|
                    0 <= i < d.variants@.len() && 0 <= k < d.variants@[i].payload_tys@.len()
                        && holds_borrow(
                        &(#[trigger] d.variants@[i].payload_tys@[k]),
                        structs,
                        enums,
                        vs,
                        ve.push(*n),
                    ),
                None => false,
            }
        },
    }
}

/// Whether values of `ty` hold a borrowed slice, looking through the definitions.
spec fn type_holds_borrow(ty: Type, structs: Seq<StructDef>, enums: Seq<EnumDef>) -> bool {
    holds_borrow(&ty, structs, enums, Seq::empty(), Seq::empty())
}

#[verifier::spinoff_prover]
#[verifier::rlimit(30)]
#[verifier::loop_isolation(false)]
fn contains_borrowed_slice_inner(
    ty: &Type,
    structs: &Vec<StructDef>,
    enums: &Vec<EnumDef>,
    visiting_structs: &mut Vec<String>,
    visiting_enums: &mut Vec<String>,
) -> (b: bool)
    requires
        old(visiting_structs)@.len() + old(visiting_enums)@.len() <= structs@.len() + enums@.len(),
    ensures
        final(visiting_structs)@ == old(visiting_structs)@,
        final(visiting_enums)@ == old(visiting_enums)@,
        b == holds_borrow(ty, structs@, enums@, old(visiting_structs)@, old(visiting_enums)@),
    decreases structs@.len() + enums@.len() - old(visiting_structs)@.len() - old(
        visiting_enums,
    )@.len(), ty,
{
    let ghost vs0 = visiting_structs@;
    let ghost ve0 = visiting_enums@;
    match ty {
        Type::Slice(_) | Type::MutSlice(_) => true,
        Type::Int | Type::Bool | Type::String => false,
        Type::Option(inner) => contains_borrowed_slice_inner(
            inner,
            structs,
            enums,
            visiting_structs,
            visiting_enums,
        ),
        Type::Array(inner) => contains_borrowed_slice_inner(
            inner,
            structs,
            enums,
            visiting_structs,
            visiting_enums,
        ),
        Type::Result(a, b) => {
            contains_borrowed_slice_inner(a, structs, enums, visiting_structs, visiting_enums)
                || contains_borrowed_slice_inner(b, structs, enums, visiting_structs, visiting_enums)
        },
        Type::Dict(a, b) => {
            contains_borrowed_slice_inner(a, structs, enums, visiting_structs, visiting_enums)
                || contains_borrowed_slice_inner(b, structs, enums, visiting_structs, visiting_enums)
        },
        Type::Tuple(elements) => {
            let mut i: usize = 0;
            while i < elements.len()
                invariant
                    i <= elements@.len(),
                    visiting_structs@ == vs0,
                    visiting_enums@ == ve0,
                    forall|j: int|
                        0 <= j < i ==> !holds_borrow(&(#[trigger] elements@[j]), structs@, enums@, vs0, ve0),
                decreases elements@.len() - i,
            {
                proof {
                    assert(decreases_to!(elements => elements[i as int]));
                }
                if contains_borrowed_slice_inner(
                    &elements[i],
                    structs,
                    enums,
                    visiting_structs,
                    visiting_enums,
                ) {
                    assert(holds_borrow(&elements@[i as int], structs@, enums@, vs0, ve0));
                    return true;
                }
                i = i + 1;
            }
            false
        },
        Type::Struct(name) => {
            if contains_string(visiting_structs, name) {
                return false;
            }
            if (visiting_structs.len() as u128) + (visiting_enums.len() as u128) >= (structs.len() as u128)
                + (enums.len() as u128) {
                return false;
            }
            let def = match find_struct(structs, name) {
                Some(d) => d,
                None => return false,
            };
            visiting_structs.push(name.clone());
            let mut contains = false;
            let mut i: usize = 0;
            while i < def.fields.len()
                invariant
                    i <= def.fields@.len(),
                    visiting_structs@ == vs0.push(*name),
                    visiting_enums@ == ve0,
                    contains ==> i < def.fields@.len() && holds_borrow(
                        &def.fields@[i as int].ty,
                        structs@,
                        enums@,
                        vs0.push(*name),
                        ve0,
                    ),
                    forall|j: int|
                        0 <= j < i ==> !holds_borrow(
                            &(#[trigger] def.fields@[j]).ty,
                            structs@,
                            enums@,
                            vs0.push(*name),
                            ve0,
                        ),
                decreases def.fields@.len() - i,
            {
                if contains_borrowed_slice_inner(
                    &def.fields[i].ty,
                    structs,
                    enums,
                    visiting_structs,
                    visiting_enums,
                ) {
                    contains = true;
                    break;
                }
                i = i + 1;
            }
            visiting_structs.pop();
            assert(visiting_structs@ =~= vs0);
            proof {
                if contains {
                    assert(holds_borrow(&def.fields@[i as int].ty, structs@, enums@, vs0.push(*name), ve0));
                }
            }
            contains
        },
        Type::Enum(name) => {
            if contains_string(visiting_enums, name) {
                return false;
            }
            if (visiting_structs.len() as u128) + (visiting_enums.len() as u128) >= (structs.len() as u128)
                + (enums.len() as u128) {
                return false;
            }
            let def = match find_enum(enums, name) {
                Some(d) => d,
                None => return false,
            };
            visiting_enums.push(name.clone());
            let ghost ve1 = ve0.push(*name);
            let ghost mut witness: int = 0;
            let mut contains = false;
            let mut i: usize = 0;
            while i < def.variants.len()
                invariant
                    i <= def.variants@.len(),
                    visiting_structs@ == vs0,
                    visiting_enums@ == ve1,
                    !contains,
                    forall|j: int, k: int|
                        0 <= j < i && 0 <= k < def.variants@[j].payload_tys@.len() ==> !holds_borrow(
                            &(#[trigger] def.variants@[j].payload_tys@[k]),
                            structs@,
                            enums@,
                            vs0,
                            ve1,
                        ),
                decreases def.variants@.len() - i,
            {
                let tys = &def.variants[i].payload_tys;
                let mut k: usize = 0;
                while k < tys.len()
                    invariant
                        k <= tys@.len(),
                        visiting_structs@ == vs0,
                        visiting_enums@ == ve1,
                        !contains,
                        forall|m: int|
                            0 <= m < k ==> !holds_borrow(&(#[trigger] tys@[m]), structs@, enums@, vs0, ve1),
                    decreases tys@.len() - k,
                {
                    if contains_borrowed_slice_inner(
                        &tys[k],
                        structs,
                        enums,
                        visiting_structs,
                        visiting_enums,
                    ) {
                        proof {
                            witness = k as int;
                        }
                        contains = true;
                        break;
                    }
                    k = k + 1;
                }
                if contains {
                    break;
                }
                i = i + 1;
            }
            visiting_enums.pop();
            assert(visiting_enums@ =~= ve0);
            proof {
                if contains {
                    let d = enum_def_named(enums@, name@, 0)->0;
                    assert(holds_borrow(&d.variants@[i as int].payload_tys@[witness], structs@, enums@, vs0, ve1));
                }
            }
            contains
        },
    }
}

fn contains_borrowed_slice_type(ty: &Type, structs: &Vec<StructDef>, enums: &Vec<EnumDef>) -> (b:
    bool)
    ensures
        b == type_holds_borrow(*ty, structs@, enums@),
        match ty {
            Type::Slice(_) | Type::MutSlice(_) => b,
            Type::Int | Type::Bool | Type::String => !b,
            _ => true,
        },
{
    let mut vs: Vec<String> = Vec::new();
    let mut ve: Vec<String> = Vec::new();
    contains_borrowed_slice_inner(ty, structs, enums, &mut vs, &mut ve)
}

/// The parameters through which a function that gives back borrowed data borrows:
/// every parameter whose type holds a borrowed slice.
fn classify_borrow_return(
    params: &Vec<Type>,
    return_ty: &Type,
    structs: &Vec<StructDef>,
    enums: &Vec<EnumDef>,
    line: usize,
    column: usize,
) -> (r: Result<Vec<usize>, Diagnostic>)
    ensures
        r matches Err(d) ==> d.kind@ == "type"@,
        r matches Ok(v) ==> forall|j: int| 0 <= j < v@.len() ==> (#[trigger] v@[j]) < params@.len(),
        r matches Ok(v) ==> forall|a: int, b: int| 0 <= a < b < v@.len() ==> v@[a] < v@[b],
        !type_holds_borrow(*return_ty, structs@, enums@) ==> (r matches Ok(v) && v@.len() == 0),
        type_holds_borrow(*return_ty, structs@, enums@) ==> (r is Ok <==> exists|i: int|
            0 <= i < params@.len() && type_holds_borrow(#[trigger] params@[i], structs@, enums@)),
        type_holds_borrow(*return_ty, structs@, enums@) ==> (r matches Ok(v) ==> forall|i: int|
            0 <= i < params@.len() ==> (v@.contains(i as usize) <==> type_holds_borrow(
                #[trigger] params@[i],
                structs@,
                enums@,
            ))),
{
    let mut matches: Vec<usize> = Vec::new();
    if !contains_borrowed_slice_type(return_ty, structs, enums) {
        return Ok(matches);
    }
    let mut i: usize = 0;
    while i < params.len()
        invariant
            i <= params@.len(),
            forall|j: int| 0 <= j < matches@.len() ==> (#[trigger] matches@[j]) < i,
            forall|a: int, b: int| 0 <= a < b < matches@.len() ==> matches@[a] < matches@[b],
            forall|j: int|
                0 <= j < i && type_holds_borrow(#[trigger] params@[j], structs@, enums@) ==> matches@.contains(
                    j as usize,
                ),
            forall|j: int|
                0 <= j < i && !type_holds_borrow(#[trigger] params@[j], structs@, enums@) ==> !matches@.contains(
                    j as usize,
                ),
            forall|j: int| 0 <= j < matches@.len() ==> (#[trigger] matches@[j]) < i,
            matches@.len() == 0 ==> forall|j: int|
                0 <= j < i ==> !type_holds_borrow(#[trigger] params@[j], structs@, enums@),
        decreases params@.len() - i,
    {
        let ghost before = matches@;
        let held = contains_borrowed_slice_type(&params[i], structs, enums);
        if held {
            matches.push(i);
        }
        proof {
            assert forall|j: int| 0 <= j <= i && type_holds_borrow(#[trigger] params@[j], structs@, enums@) implies matches@.contains(
                j as usize,
            ) by {
                if j < i {
                    let w = choose|w: int| 0 <= w < before.len() && before[w] == j as usize;
                    assert(matches@[w] == before[w]);
                } else {
                    assert(matches@[matches@.len() - 1] == i);
                }
            }
            assert forall|j: int| 0 <= j <= i && !type_holds_borrow(#[trigger] params@[j], structs@, enums@) implies !matches@.contains(
                j as usize,
            ) by {
                if matches@.contains(j as usize) {
                    let w = choose|w: int| 0 <= w < matches@.len() && matches@[w] == j as usize;
                    if w < before.len() {
                        assert(before[w] == j as usize);
                        assert(before.contains(j as usize));
                    }
                }
            }
        }
        i = i + 1;
    }
    if matches.len() == 0 {
        return Err(
            type_err_s(
                "borrowed return functions must take at least one borrowed parameter in stage1",
                line,
                column,
            ),
        );
    }
    proof {
        let w = matches@[0];
        assert(matches@.contains(w));
        assert(type_holds_borrow(params@[w as int], structs@, enums@));
    }
    Ok(matches)
}

// ----- Ownership state -------------------------------------------------------------

/// What the ownership checker tracks of one name in scope: the name, whether
/// it was moved, how many borrowed slices of it are live, and the names whose
/// storage its own slices point into.
type OwnState = (Seq<char>, bool, usize, Seq<String>);

spec fn state_of(env: Seq<(String, Binding)>) -> Seq<OwnState> {
    Seq::new(
        env.len(),
        |j: int|
            (env[j].0@, env[j].1.moved, env[j].1.active_borrow_count, env[j].1.borrowed_owners@),
    )
}

/// The position of the first entry named `name` at or after `i`, or -1.
spec fn first_from(st: Seq<OwnState>, name: Seq<char>, i: nat) -> int
    decreases st.len() - i,
{
    if i >= st.len() {
        -1
    } else if st[i as int].0 == name {
        i as int
    } else {
        first_from(st, name, i + 1)
    }
}

/// The position of the binding that `name` refers to (the first one), or -1.
spec fn first_of(st: Seq<OwnState>, name: Seq<char>) -> int {
    first_from(st, name, 0)
}

proof fn lemma_first_from(st: Seq<OwnState>, name: Seq<char>, i: nat, k: int)
    requires
        i <= k <= st.len(),
        forall|j: int| i <= j < k ==> (#[trigger] st[j]).0 != name,
        k < st.len() ==> st[k].0 == name,
    ensures
        first_from(st, name, i) == (if k < st.len() {
            k
        } else {
            -1
        }),
    decreases k - i,
{
    if i < k {
        lemma_first_from(st, name, i + 1, k);
    }
}

/// Relates a front-to-back search of the entries' names to `first_of`.
proof fn lemma_first_of(env: Seq<(String, Binding)>, name: Seq<char>, k: int)
    requires
        0 <= k <= env.len(),
        forall|j: int| 0 <= j < k ==> (#[trigger] env[j]).0@ != name,
        k < env.len() ==> env[k].0@ == name,
    ensures
        first_of(state_of(env), name) == (if k < env.len() {
            k
        } else {
            -1
        }),
{
    let st = state_of(env);
    assert forall|j: int| 0 <= j < k implies (#[trigger] st[j]).0 != name by {
        assert(env[j].0@ != name);
    }
    lemma_first_from(st, name, 0, k);
}

/// Entry `k` with its moved flag and live-borrow count replaced.
spec fn with_entry(st: Seq<OwnState>, k: int, moved: bool, count: usize) -> Seq<OwnState> {
    st.update(k, (st[k].0, moved, count, st[k].3))
}

spec fn count_up(c: usize) -> usize {
    if c < usize::MAX {
        (c + 1) as usize
    } else {
        c
    }
}

spec fn count_down(c: usize) -> usize {
    if c > 0 {
        (c - 1) as usize
    } else {
        0
    }
}

/// The state after moving the value named `target` (nothing to move for
/// `None`); `None` when the move is refused: no such binding, a live borrow
/// of it, or it was moved already.
spec fn moved_state(st: Seq<OwnState>, target: Option<Seq<char>>) -> Option<Seq<OwnState>> {
    match target {
        None => Some(st),
        Some(n) => {
            let k = first_of(st, n);
            if k < 0 || st[k].2 > 0 || st[k].1 {
                None
            } else {
                Some(with_entry(st, k, true, st[k].2))
            }
        },
    }
}

/// The state after counting one more live borrow of each of the first `n`
/// owners; `None` when one of them is not in scope.
spec fn borrows_taken(st: Seq<OwnState>, owners: Seq<String>, n: nat) -> Option<
    Seq<OwnState>,
>
    decreases n,
{
    if n == 0 || n > owners.len() {
        Some(st)
    } else {
        match borrows_taken(st, owners, (n - 1) as nat) {
            None => None,
            Some(prev) => {
                let k = first_of(prev, owners[n - 1]@);
                if k < 0 {
                    None
                } else {
                    Some(with_entry(prev, k, prev[k].1, count_up(prev[k].2)))
                }
            },
        }
    }
}

proof fn lemma_borrows_taken_none(st: Seq<OwnState>, owners: Seq<String>, n: nat, m: nat)
    requires
        n <= m <= owners.len(),
    ensures
        borrows_taken(st, owners, n) is None ==> borrows_taken(st, owners, m) is None,
    decreases m - n,
{
    if n < m {
        lemma_borrows_taken_none(st, owners, n + 1, m);
    }
}

/// The state after counting one live borrow fewer of `owner`, if it is in scope.
spec fn borrow_released(st: Seq<OwnState>, owner: Seq<char>) -> Seq<OwnState> {
    let k = first_of(st, owner);
    if k < 0 {
        st
    } else {
        with_entry(st, k, st[k].1, count_down(st[k].2))
    }
}

/// The state after releasing one borrow of each of the first `n` owners.
spec fn borrows_released(st: Seq<OwnState>, owners: Seq<String>, n: nat) -> Seq<OwnState>
    decreases n,
{
    if n == 0 || n > owners.len() {
        st
    } else {
        borrow_released(borrows_released(st, owners, (n - 1) as nat), owners[n - 1]@)
    }
}

/// The state after releasing the last `m` groups of temporary borrows, the
/// last group first.
spec fn temporaries_released(st: Seq<OwnState>, temps: Seq<Vec<String>>, m: nat) -> Seq<
    OwnState,
>
    decreases m,
{
    if m == 0 || m > temps.len() {
        st
    } else {
        let g = temps[temps.len() - m]@;
        borrows_released(temporaries_released(st, temps, (m - 1) as nat), g, g.len())
    }
}

/// The state after the first `i` entries of `orig` that are not named in
/// `scope` released the borrows they held.
spec fn scope_released(st: Seq<OwnState>, orig: Seq<OwnState>, scope: Seq<String>, i: nat) -> Seq<
    OwnState,
>
    decreases i,
{
    if i == 0 || i > orig.len() {
        st
    } else {
        let prev = scope_released(st, orig, scope, (i - 1) as nat);
        if has_name(scope, orig[i - 1].0) {
            prev
        } else {
            borrows_released(prev, orig[i - 1].3, orig[i - 1].3.len())
        }
    }
}

/// The first `j` entries of `st` whose names are in `scope`.
spec fn kept_in_scope(st: Seq<OwnState>, scope: Seq<String>, j: nat) -> Seq<OwnState>
    decreases j,
{
    if j == 0 || j > st.len() {
        Seq::empty()
    } else {
        let prev = kept_in_scope(st, scope, (j - 1) as nat);
        if has_name(scope, st[j - 1].0) {
            prev.push(st[j - 1])
        } else {
            prev
        }
    }
}

/// The name of the variable that `expr` is, if it is one.
spec fn var_target(expr: &Expr) -> Option<Seq<char>> {
    match expr {
        Expr::VarRef { name, .. } => Some(name@),
        _ => None,
    }
}

/// The variable at the root of a place expression, if there is one.
spec fn owner_target(expr: &Expr) -> Option<Seq<char>>
    decreases expr,
{
    match expr {
        Expr::VarRef { name, .. } => Some(name@),
        Expr::FieldAccess { base, .. } => owner_target(base),
        Expr::TupleIndex { base, .. } => owner_target(base),
        Expr::Index { base, .. } => owner_target(base),
        _ => None,
    }
}

/// A copy of `binding` with its moved flag and borrow count replaced.
fn rebind(binding: &Binding, moved: bool, count: usize) -> (r: Binding)
    ensures
        r.moved == moved,
        r.active_borrow_count == count,
        type_eq(&r.ty, &binding.ty),
        r.borrowed_owners@ == binding.borrowed_owners@,
{
    Binding {
        ty: clone_type(&binding.ty),
        moved,
        borrow_origin: clone_origin(&binding.borrow_origin),
        borrowed_owners: clone_strings(&binding.borrowed_owners),
        active_borrow_count: count,
    }
}

/// Replaces the binding at position `i`, keeping its name.
fn update_binding(env: &mut Env, i: usize, moved: bool, count: usize)
    requires
        i < old(env)@.len(),
    ensures
        final(env)@.len() == old(env)@.len(),
        final(env)@[i as int].0@ == old(env)@[i as int].0@,
        final(env)@[i as int].1.moved == moved,
        final(env)@[i as int].1.active_borrow_count == count,
        type_eq(&final(env)@[i as int].1.ty, &old(env)@[i as int].1.ty),
        forall|j: int| 0 <= j < old(env)@.len() && j != i ==> final(env)@[j] == old(env)@[j],
        state_of(final(env)@) == with_entry(state_of(old(env)@), i as int, moved, count),
{
    let b = rebind(&env[i].1, moved, count);
    let name = env[i].0.clone();
    env.set(i, (name, b));
    assert(state_of(env@) =~= with_entry(state_of(old(env)@), i as int, moved, count));
}

/// Marks the variable that `expr` names as moved; other expressions move nothing.
fn move_lowered_value(expr: &Expr, env: &mut Env) -> (r: Result<(), Diagnostic>)
    ensures
        lower_ok(r),
        final(env)@.len() == old(env)@.len(),
        r is Ok <==> moved_state(state_of(old(env)@), var_target(expr)) is Some,
        r is Ok ==> moved_state(state_of(old(env)@), var_target(expr)) == Some(state_of(final(env)@)),
        r is Err ==> final(env)@ == old(env)@,
        forall|j: int|
            0 <= j < old(env)@.len() ==> type_eq(&(#[trigger] final(env)@[j]).1.ty, &old(env)@[j].1.ty),
{
    proof {
        assert forall|j: int| 0 <= j < old(env)@.len() implies type_eq(&(#[trigger] old(env)@[j]).1.ty, &old(env)@[j].1.ty) by {
            lemma_type_eq_refl(&old(env)@[j].1.ty);
        }
    }
    let name = match expr {
        Expr::VarRef { name, .. } => name,
        _ => return Ok(()),
    };
    let i = match env_index(env, name) {
        Some(i) => {
            proof {
                lemma_first_of(env@, name@, i as int);
            }
            i
        },
        None => {
            proof {
                lemma_first_of(env@, name@, env@.len() as int);
            }
            return Err(
                Diagnostic::new(
                    "type",
                    cat("internal error: missing binding for moved value ", quoted(name).as_str()),
                ),
            )
        },
    };
    if env[i].1.active_borrow_count > 0 {
        return Err(
            own_err(
                cat3(
                    "cannot move value ",
                    quoted(name).as_str(),
                    " while borrowed slices are still live",
                ),
            ),
        );
    }
    if env[i].1.moved {
        return Err(own_err(cat("use of moved value ", quoted(name).as_str())));
    }
    let count = env[i].1.active_borrow_count;
    update_binding(env, i, true, count);
    Ok(())
}

/// Moves the variable at the root of a place expression (a field, tuple
/// field or element of a named value).
fn move_lowered_owner_value(expr: &Expr, env: &mut Env) -> (r: Result<(), Diagnostic>)
    ensures
        lower_ok(r),
        final(env)@.len() == old(env)@.len(),
        r is Ok <==> moved_state(state_of(old(env)@), owner_target(expr)) is Some,
        r is Ok ==> moved_state(state_of(old(env)@), owner_target(expr)) == Some(
            state_of(final(env)@),
        ),
        r is Err ==> final(env)@ == old(env)@,
    decreases expr,
{
    match expr {
        Expr::VarRef { .. } => move_lowered_value(expr, env),
        Expr::FieldAccess { base, .. } => move_lowered_owner_value(base, env),
        Expr::TupleIndex { base, .. } => move_lowered_owner_value(base, env),
        Expr::Index { base, .. } => move_lowered_owner_value(base, env),
        _ => Ok(()),
    }
}

pub open spec fn spec_is_borrowable_slice_base(expr: &Expr) -> bool
    decreases expr,
{
    match expr {
        Expr::VarRef { .. } => true,
        Expr::FieldAccess { base, .. } => spec_is_borrowable_slice_base(base),
        Expr::TupleIndex { base, .. } => spec_is_borrowable_slice_base(base),
        Expr::Slice { .. } => true,
        _ => false,
    }
}

/// Whether a slice may be taken of `expr`: a named value, a field or tuple
/// field of one, or another slice.
fn is_borrowable_slice_base(expr: &Expr) -> (b: bool)
    ensures
        b == spec_is_borrowable_slice_base(expr),
    decreases expr,
{
    match expr {
        Expr::VarRef { .. } => true,
        Expr::FieldAccess { base, .. } => is_borrowable_slice_base(base),
        Expr::TupleIndex { base, .. } => is_borrowable_slice_base(base),
        Expr::Slice { .. } => true,
        _ => false,
    }
}

/// Two borrow origins are the same: both local, or both the same parameter.
spec fn same_origin(a: BorrowOrigin, b: BorrowOrigin) -> bool {
    match (a, b) {
        (BorrowOrigin::Local, BorrowOrigin::Local) => true,
        (BorrowOrigin::Param(x), BorrowOrigin::Param(y)) => x@ == y@,
        _ => false,
    }
}

/// `merged` with one more origin folded in.
spec fn merged_origin(merged: Option<BorrowOrigin>, origin: Option<BorrowOrigin>) -> Option<
    BorrowOrigin,
> {
    match origin {
        None => merged,
        Some(o) => match merged {
            None => Some(o),
            Some(m) => if same_origin(m, o) {
                Some(m)
            } else {
                Some(BorrowOrigin::Local)
            },
        },
    }
}

fn origin_eq(a: &BorrowOrigin, b: &BorrowOrigin) -> (r: bool)
    ensures
        r == same_origin(*a, *b),
{
    match (a, b) {
        (BorrowOrigin::Local, BorrowOrigin::Local) => true,
        (BorrowOrigin::Param(x), BorrowOrigin::Param(y)) => *x == *y,
        _ => false,
    }
}

/// Folds one more origin into `merged`: the same origin twice stays, two
/// different origins become a local one.
fn merge_origin(merged: Option<BorrowOrigin>, origin: Option<BorrowOrigin>) -> (r: Option<
    BorrowOrigin,
>)
    ensures
        r == merged_origin(merged, origin),
{
    match origin {
        None => merged,
        Some(o) => match merged {
            None => Some(o),
            Some(m) => {
                if origin_eq(&m, &o) {
                    Some(m)
                } else {
                    Some(BorrowOrigin::Local)
                }
            },
        },
    }
}

fn binding_borrow_origin(
    ty: &Type,
    param_name: Option<&String>,
    structs: &Vec<StructDef>,
    enums: &Vec<EnumDef>,
) -> (r: Option<BorrowOrigin>)
    ensures
        r == (if !type_holds_borrow(*ty, structs@, enums@) {
            None
        } else {
            match param_name {
                Some(name) => Some(BorrowOrigin::Param(*name)),
                None => Some(BorrowOrigin::Local),
            }
        }),
{
    if !contains_borrowed_slice_type(ty, structs, enums) {
        return None;
    }
    match param_name {
        Some(name) => Some(BorrowOrigin::Param(name.clone())),
        None => Some(BorrowOrigin::Local),
    }
}


/// The first signature declared under the name `n`, searching from index `i`.
spec fn sig_named(functions: Seq<FunctionSig>, n: Seq<char>, i: nat) -> Option<FunctionSig>
    decreases functions.len() - i,
{
    if i >= functions.len() {
        None
    } else if functions[i as int].name@ == n {
        Some(functions[i as int])
    } else {
        sig_named(functions, n, i + 1)
    }
}

/// Where the borrowed data in `e` comes from: nothing when its type holds no
/// borrowed slice; for a name, the origin recorded for its binding; for a slice
/// of a slice, that slice's origin, and of anything else, a local value; for a
/// call, the origins of the arguments through which the callee borrows; for a
/// literal, the origins of its parts; for a projection, the origin of its base.
/// Several origins fold together with `merged_origin`.
spec fn origin_of(e: &Expr, env: Seq<(String, Binding)>, t: &Tables) -> Option<BorrowOrigin>
    decreases e, 0nat,
{
    if !type_holds_borrow(*e.spec_ty(), t.structs@, t.enums@) {
        None
    } else {
        match e {
            Expr::VarRef { name, .. } => {
                let k = first_of(state_of(env), name@);
                if k < 0 {
                    None
                } else {
                    env[k].1.borrow_origin
                }
            },
            Expr::Slice { base, .. } => match base.spec_ty() {
                Type::Slice(_) | Type::MutSlice(_) => origin_of(base, env, t),
                _ => Some(BorrowOrigin::Local),
            },
            Expr::Call { name, args, .. } => match sig_named(t.functions@, name@, 0) {
                Some(sig) => call_origin(args, sig.borrow_return_params@, sig.borrow_return_params@.len(), env, t),
                None => None,
            },
            Expr::TupleLiteral { elements, .. } => list_origin(elements, elements@.len(), env, t),
            Expr::ArrayLiteral { elements, .. } => list_origin(elements, elements@.len(), env, t),
            Expr::EnumVariant { payloads, .. } => list_origin(payloads, payloads@.len(), env, t),
            Expr::MapLiteral { entries, .. } => entries_origin(entries, entries@.len(), env, t),
            Expr::StructLiteral { fields, .. } => fields_origin(fields, fields@.len(), env, t),
            Expr::TupleIndex { base, .. } => origin_of(base, env, t),
            Expr::FieldAccess { base, .. } => origin_of(base, env, t),
            Expr::Index { base, .. } => origin_of(base, env, t),
            _ => None,
        }
    }
}

/// The origins of the first `n` expressions of `es`, folded together.
spec fn list_origin(es: &Vec<Expr>, n: nat, env: Seq<(String, Binding)>, t: &Tables) -> Option<BorrowOrigin>
    decreases es, n,
{
    if n == 0 || n > es@.len() {
        None
    } else {
        merged_origin(list_origin(es, (n - 1) as nat, env, t), origin_of(&es@[n - 1], env, t))
    }
}

/// The origins of the arguments named by the first `n` borrowing positions.
spec fn call_origin(
    args: &Vec<Expr>,
    positions: Seq<usize>,
    n: nat,
    env: Seq<(String, Binding)>,
    t: &Tables,
) -> Option<BorrowOrigin>
    decreases args, n,
{
    if n == 0 || n > positions.len() {
        None
    } else {
        let prev = call_origin(args, positions, (n - 1) as nat, env, t);
        let i = positions[n - 1];
        if i < args@.len() {
            merged_origin(prev, origin_of(&args@[i as int], env, t))
        } else {
            prev
        }
    }
}

/// The origins of the keys and values of the first `n` map entries.
spec fn entries_origin(es: &Vec<MapEntry>, n: nat, env: Seq<(String, Binding)>, t: &Tables) -> Option<
    BorrowOrigin,
>
    decreases es, n,
{
    if n == 0 || n > es@.len() {
        None
    } else {
        merged_origin(
            merged_origin(entries_origin(es, (n - 1) as nat, env, t), origin_of(&es@[n - 1].key, env, t)),
            origin_of(&es@[n - 1].value, env, t),
        )
    }
}

/// The origins of the first `n` field initialisers.
spec fn fields_origin(fs: &Vec<StructFieldValue>, n: nat, env: Seq<(String, Binding)>, t: &Tables) -> Option<
    BorrowOrigin,
>
    decreases fs, n,
{
    if n == 0 || n > fs@.len() {
        None
    } else {
        merged_origin(fields_origin(fs, (n - 1) as nat, env, t), origin_of(&fs@[n - 1].expr, env, t))
    }
}

/// The named values whose storage the borrowed slices in `e` point into:
/// none when its type holds no borrowed slice; for a name, those recorded for
/// its binding; for a slice of a slice, that slice's; for a slice of an array,
/// the named value at the root of the array; for a call, those of the
/// arguments through which the callee borrows; for a literal, those of its
/// parts; for a projection, those of its base. Each name is kept once, in the
/// order first met.
spec fn owners_of(e: &Expr, env: Seq<(String, Binding)>, t: &Tables) -> Seq<String>
    decreases e, 0nat,
{
    if !type_holds_borrow(*e.spec_ty(), t.structs@, t.enums@) {
        Seq::empty()
    } else {
        match e {
            Expr::VarRef { name, .. } => {
                let k = first_of(state_of(env), name@);
                if k < 0 {
                    Seq::empty()
                } else {
                    env[k].1.borrowed_owners@
                }
            },
            Expr::Slice { base, .. } => match base.spec_ty() {
                Type::Slice(_) | Type::MutSlice(_) => owners_of(base, env, t),
                Type::Array(_) => match owned_root_of(base) {
                    Some(root) => seq![root],
                    None => Seq::empty(),
                },
                _ => Seq::empty(),
            },
            Expr::Call { name, args, .. } => match sig_named(t.functions@, name@, 0) {
                Some(sig) => call_owners(args, sig.borrow_return_params@, sig.borrow_return_params@.len(), env, t),
                None => Seq::empty(),
            },
            Expr::TupleLiteral { elements, .. } => list_owners(elements, elements@.len(), env, t),
            Expr::ArrayLiteral { elements, .. } => list_owners(elements, elements@.len(), env, t),
            Expr::EnumVariant { payloads, .. } => list_owners(payloads, payloads@.len(), env, t),
            Expr::MapLiteral { entries, .. } => entries_owners(entries, entries@.len(), env, t),
            Expr::StructLiteral { fields, .. } => fields_owners(fields, fields@.len(), env, t),
            Expr::TupleIndex { base, .. } => owners_of(base, env, t),
            Expr::FieldAccess { base, .. } => owners_of(base, env, t),
            Expr::Index { base, .. } => owners_of(base, env, t),
            _ => Seq::empty(),
        }
    }
}

/// `owners` with the names of `more` added, each once.
spec fn owners_added(owners: Seq<String>, more: Seq<String>) -> Seq<String> {
    owners_extended(owners, more, more.len())
}

spec fn list_owners(es: &Vec<Expr>, n: nat, env: Seq<(String, Binding)>, t: &Tables) -> Seq<String>
    decreases es, n,
{
    if n == 0 || n > es@.len() {
        Seq::empty()
    } else {
        owners_added(list_owners(es, (n - 1) as nat, env, t), owners_of(&es@[n - 1], env, t))
    }
}

spec fn call_owners(
    args: &Vec<Expr>,
    positions: Seq<usize>,
    n: nat,
    env: Seq<(String, Binding)>,
    t: &Tables,
) -> Seq<String>
    decreases args, n,
{
    if n == 0 || n > positions.len() {
        Seq::empty()
    } else {
        let prev = call_owners(args, positions, (n - 1) as nat, env, t);
        let i = positions[n - 1];
        if i < args@.len() {
            owners_added(prev, owners_of(&args@[i as int], env, t))
        } else {
            prev
        }
    }
}

spec fn entries_owners(es: &Vec<MapEntry>, n: nat, env: Seq<(String, Binding)>, t: &Tables) -> Seq<String>
    decreases es, n,
{
    if n == 0 || n > es@.len() {
        Seq::empty()
    } else {
        owners_added(
            owners_added(entries_owners(es, (n - 1) as nat, env, t), owners_of(&es@[n - 1].key, env, t)),
            owners_of(&es@[n - 1].value, env, t),
        )
    }
}

spec fn fields_owners(fs: &Vec<StructFieldValue>, n: nat, env: Seq<(String, Binding)>, t: &Tables) -> Seq<
    String,
>
    decreases fs, n,
{
    if n == 0 || n > fs@.len() {
        Seq::empty()
    } else {
        owners_added(fields_owners(fs, (n - 1) as nat, env, t), owners_of(&fs@[n - 1].expr, env, t))
    }
}

/// Where the borrowed data in `expr` comes from: a parameter, or something local.
#[verifier::loop_isolation(false)]
fn expr_borrow_origin(expr: &Expr, env: &Env, t: &Tables) -> (r: Option<BorrowOrigin>)
    ensures
        r == origin_of(expr, env@, t),
    decreases expr,
{
    if !contains_borrowed_slice_type(expr.ty(), &t.structs, &t.enums) {
        return None;
    }
    match expr {
        Expr::VarRef { name, .. } => match env_index(env, name) {
            Some(i) => {
                proof {
                    lemma_first_of(env@, name@, i as int);
                }
                clone_origin(&env[i].1.borrow_origin)
            },
            None => {
                proof {
                    lemma_first_of(env@, name@, env@.len() as int);
                }
                None
            },
        },
        Expr::Slice { base, .. } => match base.ty() {
            Type::Slice(_) | Type::MutSlice(_) => expr_borrow_origin(base, env, t),
            _ => Some(BorrowOrigin::Local),
        },
        Expr::Call { name, args, .. } => match find_function(&t.functions, name) {
            Some(sig) => {
                let mut merged: Option<BorrowOrigin> = None;
                let mut k: usize = 0;
                while k < sig.borrow_return_params.len()
                    invariant
                        k <= sig.borrow_return_params@.len(),
                        merged == call_origin(args, sig.borrow_return_params@, k as nat, env@, t),
                    decreases sig.borrow_return_params@.len() - k,
                {
                    let index = sig.borrow_return_params[k];
                    if index < args.len() {
                        proof {
                            assert(decreases_to!(args => args[index as int]));
                        }
                        merged = merge_origin(merged, expr_borrow_origin(&args[index], env, t));
                    }
                    k = k + 1;
                }
                merged
            },
            None => None,
        },
        Expr::TupleLiteral { elements, .. } => {
            let mut merged: Option<BorrowOrigin> = None;
            let mut k: usize = 0;
            while k < elements.len()
                invariant
                    k <= elements@.len(),
                    merged == list_origin(elements, k as nat, env@, t),
                decreases elements@.len() - k,
            {
                proof {
                    assert(decreases_to!(elements => elements[k as int]));
                }
                merged = merge_origin(merged, expr_borrow_origin(&elements[k], env, t));
                k = k + 1;
            }
            merged
        },
        Expr::ArrayLiteral { elements, .. } => {
            let mut merged: Option<BorrowOrigin> = None;
            let mut k: usize = 0;
            while k < elements.len()
                invariant
                    k <= elements@.len(),
                    merged == list_origin(elements, k as nat, env@, t),
                decreases elements@.len() - k,
            {
                proof {
                    assert(decreases_to!(elements => elements[k as int]));
                }
                merged = merge_origin(merged, expr_borrow_origin(&elements[k], env, t));
                k = k + 1;
            }
            merged
        },
        Expr::EnumVariant { payloads, .. } => {
            let mut merged: Option<BorrowOrigin> = None;
            let mut k: usize = 0;
            while k < payloads.len()
                invariant
                    k <= payloads@.len(),
                    merged == list_origin(payloads, k as nat, env@, t),
                decreases payloads@.len() - k,
            {
                proof {
                    assert(decreases_to!(payloads => payloads[k as int]));
                }
                merged = merge_origin(merged, expr_borrow_origin(&payloads[k], env, t));
                k = k + 1;
            }
            merged
        },
        Expr::MapLiteral { entries, .. } => {
            let mut merged: Option<BorrowOrigin> = None;
            let mut k: usize = 0;
            while k < entries.len()
                invariant
                    k <= entries@.len(),
                    merged == entries_origin(entries, k as nat, env@, t),
                decreases entries@.len() - k,
            {
                proof {
                    assert(decreases_to!(entries => entries[k as int]));
                }
                merged = merge_origin(merged, expr_borrow_origin(&entries[k].key, env, t));
                merged = merge_origin(merged, expr_borrow_origin(&entries[k].value, env, t));
                k = k + 1;
            }
            merged
        },
        Expr::StructLiteral { fields, .. } => {
            let mut merged: Option<BorrowOrigin> = None;
            let mut k: usize = 0;
            while k < fields.len()
                invariant
                    k <= fields@.len(),
                    merged == fields_origin(fields, k as nat, env@, t),
                decreases fields@.len() - k,
            {
                proof {
                    assert(decreases_to!(fields => fields[k as int]));
                }
                merged = merge_origin(merged, expr_borrow_origin(&fields[k].expr, env, t));
                k = k + 1;
            }
            merged
        },
        Expr::TupleIndex { base, .. } => expr_borrow_origin(base, env, t),
        Expr::FieldAccess { base, .. } => expr_borrow_origin(base, env, t),
        Expr::Index { base, .. } => expr_borrow_origin(base, env, t),
        Expr::Literal { .. } | Expr::BinaryAdd { .. } | Expr::BinaryCompare { .. } => None,
    }
}

/// The named value at the root of a place expression, unless it is itself a slice.
spec fn owned_root_of(expr: &Expr) -> Option<String>
    decreases expr,
{
    match expr {
        Expr::VarRef { name, ty } => match ty {
            Type::Slice(_) | Type::MutSlice(_) => None,
            _ => Some(*name),
        },
        Expr::FieldAccess { base, .. } => owned_root_of(base),
        Expr::TupleIndex { base, .. } => owned_root_of(base),
        _ => None,
    }
}

fn owned_borrow_root(expr: &Expr) -> (r: Option<String>)
    ensures
        r == owned_root_of(expr),
    decreases expr,
{
    match expr {
        Expr::VarRef { name, ty } => match ty {
            Type::Slice(_) | Type::MutSlice(_) => None,
            _ => Some(name.clone()),
        },
        Expr::FieldAccess { base, .. } => owned_borrow_root(base),
        Expr::TupleIndex { base, .. } => owned_borrow_root(base),
        _ => None,
    }
}

/// Some name of `names` reads `name`.
pub open spec fn has_name(names: Seq<String>, name: Seq<char>) -> bool {
    exists|j: int| 0 <= j < names.len() && (#[trigger] names[j])@ == name
}

/// `owners` after the first `n` names of `more` were added to it, each name
/// that is not there yet appended once, in order.
spec fn owners_extended(owners: Seq<String>, more: Seq<String>, n: nat) -> Seq<String>
    decreases n,
{
    if n == 0 || n > more.len() {
        owners
    } else {
        let prev = owners_extended(owners, more, (n - 1) as nat);
        if has_name(prev, more[n - 1]@) {
            prev
        } else {
            prev.push(more[n - 1])
        }
    }
}

/// Adds every name of `more` to the set `owners`.
fn extend_owners(owners: &mut Vec<String>, more: &Vec<String>)
    ensures
        final(owners)@ == owners_extended(old(owners)@, more@, more@.len()),
{
    let mut k: usize = 0;
    while k < more.len()
        invariant
            k <= more@.len(),
            owners@ == owners_extended(old(owners)@, more@, k as nat),
        decreases more@.len() - k,
    {
        insert_string(owners, &more[k]);
        k = k + 1;
    }
}

/// The named values whose storage the borrowed slices in `expr` point into.
#[verifier::loop_isolation(false)]
fn expr_borrowed_owners(expr: &Expr, env: &Env, t: &Tables) -> (owners: Vec<String>)
    ensures
        owners@ == owners_of(expr, env@, t),
    decreases expr,
{
    let mut owners: Vec<String> = Vec::new();
    if !contains_borrowed_slice_type(expr.ty(), &t.structs, &t.enums) {
        return owners;
    }
    match expr {
        Expr::VarRef { name, .. } => match env_index(env, name) {
            Some(i) => {
                proof {
                    lemma_first_of(env@, name@, i as int);
                }
                clone_strings(&env[i].1.borrowed_owners)
            },
            None => {
                proof {
                    lemma_first_of(env@, name@, env@.len() as int);
                }
                owners
            },
        },
        Expr::Slice { base, .. } => match base.ty() {
            Type::Slice(_) | Type::MutSlice(_) => expr_borrowed_owners(base, env, t),
            Type::Array(_) => match owned_borrow_root(base) {
                Some(root) => {
                    owners.push(root);
                    assert(owners@ =~= seq![root]);
                    owners
                },
                None => owners,
            },
            _ => owners,
        },
        Expr::Call { name, args, .. } => match find_function(&t.functions, name) {
            Some(sig) => {
                let mut k: usize = 0;
                while k < sig.borrow_return_params.len()
                    invariant
                        k <= sig.borrow_return_params@.len(),
                        owners@ == call_owners(args, sig.borrow_return_params@, k as nat, env@, t),
                    decreases sig.borrow_return_params@.len() - k,
                {
                    let index = sig.borrow_return_params[k];
                    if index < args.len() {
                        proof {
                            assert(decreases_to!(args => args[index as int]));
                        }
                        let more = expr_borrowed_owners(&args[index], env, t);
                        extend_owners(&mut owners, &more);
                    }
                    k = k + 1;
                }
                owners
            },
            None => owners,
        },
        Expr::TupleLiteral { elements, .. } => {
            let mut k: usize = 0;
            while k < elements.len()
                invariant
                    k <= elements@.len(),
                    owners@ == list_owners(elements, k as nat, env@, t),
                decreases elements@.len() - k,
            {
                proof {
                    assert(decreases_to!(elements => elements[k as int]));
                }
                let more = expr_borrowed_owners(&elements[k], env, t);
                extend_owners(&mut owners, &more);
                k = k + 1;
            }
            owners
        },
        Expr::ArrayLiteral { elements, .. } => {
            let mut k: usize = 0;
            while k < elements.len()
                invariant
                    k <= elements@.len(),
                    owners@ == list_owners(elements, k as nat, env@, t),
                decreases elements@.len() - k,
            {
                proof {
                    assert(decreases_to!(elements => elements[k as int]));
                }
                let more = expr_borrowed_owners(&elements[k], env, t);
                extend_owners(&mut owners, &more);
                k = k + 1;
            }
            owners
        },
        Expr::EnumVariant { payloads, .. } => {
            let mut k: usize = 0;
            while k < payloads.len()
                invariant
                    k <= payloads@.len(),
                    owners@ == list_owners(payloads, k as nat, env@, t),
                decreases payloads@.len() - k,
            {
                proof {
                    assert(decreases_to!(payloads => payloads[k as int]));
                }
                let more = expr_borrowed_owners(&payloads[k], env, t);
                extend_owners(&mut owners, &more);
                k = k + 1;
            }
            owners
        },
        Expr::MapLiteral { entries, .. } => {
            let mut k: usize = 0;
            while k < entries.len()
                invariant
                    k <= entries@.len(),
                    owners@ == entries_owners(entries, k as nat, env@, t),
                decreases entries@.len() - k,
            {
                proof {
                    assert(decreases_to!(entries => entries[k as int]));
                }
                let more = expr_borrowed_owners(&entries[k].key, env, t);
                extend_owners(&mut owners, &more);
                let more = expr_borrowed_owners(&entries[k].value, env, t);
                extend_owners(&mut owners, &more);
                k = k + 1;
            }
            owners
        },
        Expr::StructLiteral { fields, .. } => {
            let mut k: usize = 0;
            while k < fields.len()
                invariant
                    k <= fields@.len(),
                    owners@ == fields_owners(fields, k as nat, env@, t),
                decreases fields@.len() - k,
            {
                proof {
                    assert(decreases_to!(fields => fields[k as int]));
                }
                let more = expr_borrowed_owners(&fields[k].expr, env, t);
                extend_owners(&mut owners, &more);
                k = k + 1;
            }
            owners
        },
        Expr::TupleIndex { base, .. } => expr_borrowed_owners(base, env, t),
        Expr::FieldAccess { base, .. } => expr_borrowed_owners(base, env, t),
        Expr::Index { base, .. } => expr_borrowed_owners(base, env, t),
        Expr::Literal { .. } | Expr::BinaryAdd { .. } | Expr::BinaryCompare { .. } => owners,
    }
}

/// Counts one more live borrow of each owner.
fn increment_active_borrows(owners: &Vec<String>, env: &mut Env) -> (r: Result<(), Diagnostic>)
    ensures
        lower_ok(r),
        final(env)@.len() == old(env)@.len(),
        owners@.len() == 0 ==> r is Ok && final(env)@ == old(env)@,
        r is Ok <==> borrows_taken(state_of(old(env)@), owners@, owners@.len()) is Some,
        r is Ok ==> borrows_taken(state_of(old(env)@), owners@, owners@.len()) == Some(
            state_of(final(env)@),
        ),
        r is Err ==> exists|n: nat|
            n < owners@.len() && #[trigger] borrows_taken(state_of(old(env)@), owners@, n) == Some(
                state_of(final(env)@),
            ) && borrows_taken(state_of(old(env)@), owners@, n + 1) is None,
{
    let mut k: usize = 0;
    while k < owners.len()
        invariant
            k <= owners@.len(),
            env@.len() == old(env)@.len(),
            owners@.len() == 0 ==> env@ == old(env)@,
            borrows_taken(state_of(old(env)@), owners@, k as nat) == Some(state_of(env@)),
        decreases owners@.len() - k,
    {
        proof {
            lemma_borrows_taken_none(state_of(old(env)@), owners@, (k + 1) as nat, owners@.len());
        }
        match env_index(env, &owners[k]) {
            Some(i) => {
                proof {
                    lemma_first_of(env@, owners@[k as int]@, i as int);
                }
                let moved = env[i].1.moved;
                let count = env[i].1.active_borrow_count.saturating_add(1);
                update_binding(env, i, moved, count);
            },
            None => {
                proof {
                    lemma_first_of(env@, owners@[k as int]@, env@.len() as int);
                    assert(borrows_taken(state_of(old(env)@), owners@, k as nat) == Some(state_of(env@)));
                    assert(borrows_taken(state_of(old(env)@), owners@, (k + 1) as nat) is None);
                }
                return Err(
                    Diagnostic::new(
                        "type",
                        cat("internal error: missing borrow owner ", quoted(&owners[k]).as_str()),
                    ),
                );
            },
        }
        k = k + 1;
    }
    Ok(())
}

/// Counts one live borrow fewer of `owner`, if it is in scope.
fn decrement_active_borrow(owner: &String, env: &mut Env)
    ensures
        final(env)@.len() == old(env)@.len(),
        state_of(final(env)@) == borrow_released(state_of(old(env)@), owner@),
{
    let found = env_index(env, owner);
    proof {
        match found {
            Some(i) => lemma_first_of(env@, owner@, i as int),
            None => lemma_first_of(env@, owner@, env@.len() as int),
        }
    }
    if let Some(i) = found {
        let moved = env[i].1.moved;
        let count = env[i].1.active_borrow_count.saturating_sub(1);
        update_binding(env, i, moved, count);
    }
}

fn release_active_borrow_owners(owners: &Vec<String>, env: &mut Env)
    ensures
        final(env)@.len() == old(env)@.len(),
        state_of(final(env)@) == borrows_released(state_of(old(env)@), owners@, owners@.len()),
{
    let mut k: usize = 0;
    while k < owners.len()
        invariant
            k <= owners@.len(),
            env@.len() == old(env)@.len(),
            state_of(env@) == borrows_released(state_of(old(env)@), owners@, k as nat),
        decreases owners@.len() - k,
    {
        decrement_active_borrow(&owners[k], env);
        k = k + 1;
    }
}

/// Takes the borrows of a value used only for the length of one expression.
fn record_temporary_borrows(
    expr: &Expr,
    env: &mut Env,
    t: &Tables,
    temporary: &mut Vec<Vec<String>>,
) -> (r: Result<(), Diagnostic>)
    ensures
        lower_ok(r),
        final(env)@.len() == old(env)@.len(),
        r is Err ==> final(temporary)@ == old(temporary)@,
        r is Ok <==> borrows_taken(
            state_of(old(env)@),
            owners_of(expr, old(env)@, t),
            owners_of(expr, old(env)@, t).len(),
        ) is Some,
        r is Ok ==> final(temporary)@.len() == old(temporary)@.len() + 1 && final(temporary)@.drop_last()
            == old(temporary)@ && final(temporary)@.last()@ == owners_of(expr, old(env)@, t) && borrows_taken(
            state_of(old(env)@),
            final(temporary)@.last()@,
            final(temporary)@.last()@.len(),
        ) == Some(state_of(final(env)@)),
{
    let owners = expr_borrowed_owners(expr, env, t);
    match increment_active_borrows(&owners, env) {
        Ok(()) => {},
        Err(d) => return Err(d),
    }
    temporary.push(owners);
    Ok(())
}

/// Releases temporary borrows, last taken first.
fn release_temporary_borrows(temporary: &Vec<Vec<String>>, env: &mut Env)
    ensures
        final(env)@.len() == old(env)@.len(),
        state_of(final(env)@) == temporaries_released(
            state_of(old(env)@),
            temporary@,
            temporary@.len(),
        ),
{
    let mut k: usize = temporary.len();
    while k > 0
        invariant
            k <= temporary@.len(),
            env@.len() == old(env)@.len(),
            state_of(env@) == temporaries_released(
                state_of(old(env)@),
                temporary@,
                (temporary@.len() - k) as nat,
            ),
        decreases k,
    {
        k = k - 1;
        release_active_borrow_owners(&temporary[k], env);
    }
}

/// Drops the names introduced since `scope_names` were in scope, releasing the
/// borrows they held.
fn release_scope_borrows(env: &Env, scope_names: &Vec<String>) -> (r: Env)
    ensures
        state_of(r@) == kept_in_scope(
            scope_released(state_of(env@), state_of(env@), scope_names@, env@.len()),
            scope_names@,
            env@.len(),
        ),
{
    let ghost orig = state_of(env@);
    let mut work = clone_env(env);
    let mut i: usize = 0;
    while i < env.len()
        invariant
            i <= env@.len(),
            orig == state_of(env@),
            work@.len() == env@.len(),
            state_of(work@) == scope_released(orig, orig, scope_names@, i as nat),
        decreases env@.len() - i,
    {
        let ghost before = state_of(work@);
        if !contains_string(scope_names, &env[i].0) {
            let mut k: usize = 0;
            while k < env[i].1.borrowed_owners.len()
                invariant
                    k <= env[i as int].1.borrowed_owners@.len(),
                    work@.len() == env@.len(),
                    i < env@.len(),
                    state_of(work@) == borrows_released(before, env[i as int].1.borrowed_owners@, k as nat),
                decreases env[i as int].1.borrowed_owners@.len() - k,
            {
                decrement_active_borrow(&env[i].1.borrowed_owners[k], &mut work);
                k = k + 1;
            }
            assert(orig[i as int].3 == env@[i as int].1.borrowed_owners@);
            assert(!has_name(scope_names@, orig[i as int].0));
        } else {
            assert(has_name(scope_names@, orig[i as int].0));
        }
        i = i + 1;
    }
    let ghost done = state_of(work@);
    let mut out: Env = Vec::new();
    let mut j: usize = 0;
    while j < work.len()
        invariant
            j <= work@.len(),
            work@.len() == env@.len(),
            done == state_of(work@),
            state_of(out@) == kept_in_scope(done, scope_names@, j as nat),
        decreases work@.len() - j,
    {
        let ghost prev_out = out@;
        if contains_string(scope_names, &work[j].0) {
            out.push((work[j].0.clone(), clone_binding(&work[j].1)));
            assert(has_name(scope_names@, done[j as int].0));
            assert(state_of(out@) =~= state_of(prev_out).push(done[j as int]));
        } else {
            assert(!has_name(scope_names@, done[j as int].0));
        }
        j = j + 1;
    }
    out
}

fn env_names(env: &Env) -> (r: Vec<String>)
    ensures
        r@.len() == env@.len(),
        forall|j: int| 0 <= j < r@.len() ==> (#[trigger] r@[j])@ == env@[j].0@,
{
    let mut out: Vec<String> = Vec::new();
    let mut i: usize = 0;
    while i < env.len()
        invariant
            i <= env@.len(),
            out@.len() == i,
            forall|j: int| 0 <= j < i ==> (#[trigger] out@[j])@ == env@[j].0@,
        decreases env@.len() - i,
    {
        out.push(env[i].0.clone());
        i = i + 1;
    }
    out
}

// ----- Expressions -----------------------------------------------------------------

pub open spec fn spec_lower_literal(literal: syntax::Literal) -> Expr {
    match literal {
        syntax::Literal::Int(v) => Expr::Literal { ty: Type::Int, value: LiteralValue::Int(v) },
        syntax::Literal::Bool(v) => Expr::Literal { ty: Type::Bool, value: LiteralValue::Bool(v) },
        syntax::Literal::String(v) => Expr::Literal {
            ty: Type::String,
            value: LiteralValue::String(v),
        },
    }
}

// ----- Checked forms of source expressions ------------------------------------------

/// The index of the first field named `n` at or after `i`, or the number of
/// fields where there is none.
pub open spec fn field_index_from(fields: Seq<syntax::StructFieldValue>, n: Seq<char>, i: nat) -> nat
    decreases fields.len() - i,
{
    if i >= fields.len() {
        fields.len()
    } else if fields[i as int].name@ == n {
        i
    } else {
        field_index_from(fields, n, i + 1)
    }
}

/// The index of the first field named `n`, or the number of fields.
pub open spec fn field_index(fields: Seq<syntax::StructFieldValue>, n: Seq<char>) -> nat {
    field_index_from(fields, n, 0)
}

proof fn lemma_field_index(fields: Seq<syntax::StructFieldValue>, n: Seq<char>, i: int)
    requires
        0 <= i < fields.len(),
        fields[i].name@ == n,
        forall|j: int| 0 <= j < i ==> (#[trigger] fields[j]).name@ != n,
    ensures
        field_index(fields, n) == i,
{
    lemma_field_index_from(fields, n, i, 0);
}

proof fn lemma_field_index_from(fields: Seq<syntax::StructFieldValue>, n: Seq<char>, i: int, k: nat)
    requires
        0 <= i < fields.len(),
        k <= i,
        fields[i].name@ == n,
        forall|j: int| 0 <= j < i ==> (#[trigger] fields[j]).name@ != n,
    ensures
        field_index_from(fields, n, k) == i,
    decreases i - k,
{
    if k < i {
        assert(fields[k as int].name@ != n);
        lemma_field_index_from(fields, n, i, k + 1);
    }
}

/// A name as checked: a variable, or an enum variant without payload.
pub open spec fn var_ref_from(name: Seq<char>, h: &Expr) -> bool {
    match h {
        Expr::VarRef { name: n, .. } => n@ == name,
        Expr::EnumVariant { variant, payloads, .. } => variant@ == name && payloads@.len() == 0,
        _ => false,
    }
}

/// `hs` are the checked forms of `ss`, one for one.
pub open spec fn exprs_from(ss: &Vec<syntax::Expr>, hs: &Vec<Expr>) -> bool
    decreases ss, 0nat,
{
    hs@.len() == ss@.len() && forall|i: int| 0 <= i < ss@.len() ==> expr_from(&(#[trigger] ss@[i]), &hs@[i])
}

/// A call as checked: a call of the same name, or the enum variant of that
/// name built from the checked arguments.
pub open spec fn call_from(name: Seq<char>, args: &Vec<syntax::Expr>, h: &Expr) -> bool
    decreases args, 1nat,
{
    match h {
        Expr::Call { name: n, args: a, .. } => n@ == name && exprs_from(args, a),
        Expr::EnumVariant { variant, field_names, payloads, .. } => variant@ == name
            && field_names@.len() == 0 && exprs_from(args, payloads),
        _ => false,
    }
}

/// Each checked field value is the checked form of the source field of the same name.
pub open spec fn field_values_from(fields: &Vec<syntax::StructFieldValue>, hs: &Vec<StructFieldValue>) -> bool
    decreases fields, 1nat,
{
    forall|a: int| 0 <= a < hs@.len() ==> payload_from(fields, (#[trigger] hs@[a]).name@, &hs@[a].expr)
}

/// `p` is the checked form of the source field named `n`.
pub open spec fn payload_from(fields: &Vec<syntax::StructFieldValue>, n: Seq<char>, p: &Expr) -> bool
    decreases fields, 0nat,
{
    let i = field_index(fields@, n) as int;
    i < fields@.len() && expr_from(&fields@[i].expr, p)
}

/// Each payload is the checked form of the source field named like it.
pub open spec fn named_payloads_from(
    fields: &Vec<syntax::StructFieldValue>,
    names: &Vec<String>,
    payloads: &Vec<Expr>,
) -> bool
    decreases fields, 1nat,
{
    &&& payloads@.len() == names@.len()
    &&& forall|a: int| 0 <= a < payloads@.len() ==> payload_from(fields, names@[a]@, &(#[trigger] payloads@[a]))
}

/// A struct literal as checked: the struct with its fields in declaration
/// order, or the enum variant of that name with its named payloads.
pub open spec fn struct_literal_from(
    name: Seq<char>,
    fields: &Vec<syntax::StructFieldValue>,
    h: &Expr,
) -> bool
    decreases fields, 2nat,
{
    match h {
        Expr::StructLiteral { name: n, fields: f, .. } => n@ == name && field_values_from(fields, f),
        Expr::EnumVariant { variant, field_names, payloads, .. } => variant@ == name
            && named_payloads_from(fields, field_names, payloads),
        _ => false,
    }
}

/// The checked entries of a map literal, one for one.
pub open spec fn entries_from(es: &Vec<syntax::MapEntry>, hs: &Vec<MapEntry>) -> bool
    decreases es, 0nat,
{
    hs@.len() == es@.len() && forall|i: int|
        0 <= i < es@.len() ==> expr_from(&(#[trigger] es@[i]).key, &hs@[i].key) && expr_from(
            &es@[i].value,
            &hs@[i].value,
        )
}

/// `h` is the checked form of the source expression `s`: the same shape,
/// names, literals, operators and indices, with a type at every node; a
/// name or a call may denote an enum variant, and a struct literal's fields
/// come in declaration order.
pub open spec fn expr_from(s: &syntax::Expr, h: &Expr) -> bool
    decreases s, 2nat,
{
    match s {
        syntax::Expr::Literal(l) => *h == spec_lower_literal(*l),
        syntax::Expr::VarRef { name, .. } => var_ref_from(name@, h),
        syntax::Expr::Call { name, args, .. } => call_from(name@, args, h),
        syntax::Expr::BinaryAdd { lhs, rhs, .. } => match h {
            Expr::BinaryAdd { lhs: l, rhs: r, .. } => expr_from(lhs, l) && expr_from(rhs, r),
            _ => false,
        },
        syntax::Expr::BinaryCompare { op, lhs, rhs, .. } => match h {
            Expr::BinaryCompare { op: o, lhs: l, rhs: r, .. } => same_op(*op, *o) && expr_from(lhs, l)
                && expr_from(rhs, r),
            _ => false,
        },
        syntax::Expr::StructLiteral { name, fields, .. } => struct_literal_from(name@, fields, h),
        syntax::Expr::FieldAccess { base, field, .. } => match h {
            Expr::FieldAccess { base: b, field: f, .. } => f@ == field@ && expr_from(base, b),
            _ => false,
        },
        syntax::Expr::TupleLiteral { elements, .. } => match h {
            Expr::TupleLiteral { elements: e, .. } => exprs_from(elements, e),
            _ => false,
        },
        syntax::Expr::TupleIndex { base, index, .. } => match h {
            Expr::TupleIndex { base: b, index: k, .. } => *k == *index && expr_from(base, b),
            _ => false,
        },
        syntax::Expr::MapLiteral { entries, .. } => match h {
            Expr::MapLiteral { entries: e, .. } => entries_from(entries, e),
            _ => false,
        },
        syntax::Expr::ArrayLiteral { elements, .. } => match h {
            Expr::ArrayLiteral { elements: e, .. } => exprs_from(elements, e),
            _ => false,
        },
        syntax::Expr::Slice { base, start, end, .. } => match h {
            Expr::Slice { base: b, start: s2, end: e2, .. } => {
                &&& expr_from(base, b)
                &&& match (start, s2) {
                    (Some(x), Some(y)) => expr_from(x, y),
                    (None, None) => true,
                    _ => false,
                }
                &&& match (end, e2) {
                    (Some(x), Some(y)) => expr_from(x, y),
                    (None, None) => true,
                    _ => false,
                }
            },
            _ => false,
        },
        syntax::Expr::Index { base, index, .. } => match h {
            Expr::Index { base: b, index: k, .. } => expr_from(base, b) && expr_from(index, k),
            _ => false,
        },
    }
}

fn lower_literal(literal: &syntax::Literal) -> (e: Expr)
    ensures
        e == spec_lower_literal(*literal),
{
    match literal {
        syntax::Literal::Int(v) => Expr::Literal { ty: Type::Int, value: LiteralValue::Int(*v) },
        syntax::Literal::Bool(v) => Expr::Literal { ty: Type::Bool, value: LiteralValue::Bool(*v) },
        syntax::Literal::String(v) => Expr::Literal {
            ty: Type::String,
            value: LiteralValue::String(v.clone()),
        },
    }
}

/// The capability that a call of the host intrinsic `name` needs, if it is one.
pub open spec fn intrinsic_capability(name: Seq<char>) -> Option<CapabilityKind> {
    if name == "fs_read"@ {
        Some(CapabilityKind::Fs)
    } else if name == "net_resolve"@ || name == "http_get"@ {
        Some(CapabilityKind::Net)
    } else if name == "process_status"@ {
        Some(CapabilityKind::Process)
    } else if name == "clock_now_ms"@ {
        Some(CapabilityKind::Clock)
    } else if name == "env_get"@ {
        Some(CapabilityKind::Env)
    } else if name == "crypto_sha256"@ {
        Some(CapabilityKind::Crypto)
    } else {
        None
    }
}

/// The type a call of a host intrinsic has.
pub open spec fn intrinsic_result(name: Seq<char>) -> Type {
    if name == "process_status"@ || name == "clock_now_ms"@ {
        Type::Int
    } else if name == "crypto_sha256"@ {
        Type::String
    } else {
        Type::Option(Box::new(Type::String))
    }
}

/// The error for a call of `name` that needs a capability the manifest does not grant.
pub open spec fn capability_denied(d: Diagnostic, name: Seq<char>, k: CapabilityKind) -> bool {
    &&& d.kind@ == "capability"@
    &&& d.message@ == "call to "@ + debug_quoted(name) + " requires [capabilities]."@ + k.spec_name()
        + " = true"@
}

/// Arguments a host intrinsic accepts whatever the scope: none for
/// `clock_now_ms`, one string literal for the others.
pub open spec fn intrinsic_literal_args(name: Seq<char>, args: Seq<syntax::Expr>) -> bool {
    if name == "clock_now_ms"@ {
        args.len() == 0
    } else {
        args.len() == 1 && args[0] matches syntax::Expr::Literal(syntax::Literal::String(_))
    }
}

/// How a call of a host intrinsic is checked: refused with a capability error
/// unless the manifest grants its capability; accepted on literal arguments
/// when it does; and typed as `intrinsic_result` when accepted.
pub open spec fn intrinsic_outcome(
    name: Seq<char>,
    args: Seq<syntax::Expr>,
    caps: CapabilityConfig,
    r: Result<Expr, Diagnostic>,
) -> bool {
    match intrinsic_capability(name) {
        None => true,
        Some(k) => {
            &&& !caps.spec_enabled(k) ==> (r matches Err(d) && capability_denied(d, name, k))
            &&& r matches Ok(e) ==> (e matches Expr::Call { ty, .. } && ty == intrinsic_result(name))
            &&& caps.spec_enabled(k) && intrinsic_literal_args(name, args) ==> r is Ok
        },
    }
}

proof fn lemma_intrinsic_table()
    ensures
        intrinsic_capability("len"@) is None,
        intrinsic_capability("io_eprintln"@) is None,
        intrinsic_capability("fs_read"@) == Some(CapabilityKind::Fs),
        intrinsic_capability("net_resolve"@) == Some(CapabilityKind::Net),
        intrinsic_capability("http_get"@) == Some(CapabilityKind::Net),
        intrinsic_capability("process_status"@) == Some(CapabilityKind::Process),
        intrinsic_capability("clock_now_ms"@) == Some(CapabilityKind::Clock),
        intrinsic_capability("env_get"@) == Some(CapabilityKind::Env),
        intrinsic_capability("crypto_sha256"@) == Some(CapabilityKind::Crypto),
        intrinsic_result("fs_read"@) == Type::Option(Box::new(Type::String)),
        intrinsic_result("net_resolve"@) == Type::Option(Box::new(Type::String)),
        intrinsic_result("http_get"@) == Type::Option(Box::new(Type::String)),
        intrinsic_result("env_get"@) == Type::Option(Box::new(Type::String)),
        intrinsic_result("process_status"@) == Type::Int,
        intrinsic_result("clock_now_ms"@) == Type::Int,
        intrinsic_result("crypto_sha256"@) == Type::String,
        forall|a: Seq<syntax::Expr>|
            #![trigger intrinsic_literal_args("fs_read"@, a)]
            #![trigger intrinsic_literal_args("net_resolve"@, a)]
            #![trigger intrinsic_literal_args("http_get"@, a)]
            #![trigger intrinsic_literal_args("process_status"@, a)]
            #![trigger intrinsic_literal_args("env_get"@, a)]
            #![trigger intrinsic_literal_args("crypto_sha256"@, a)]
            {
                let one = a.len() == 1 && a[0] matches syntax::Expr::Literal(syntax::Literal::String(_));
                &&& intrinsic_literal_args("fs_read"@, a) == one
                &&& intrinsic_literal_args("net_resolve"@, a) == one
                &&& intrinsic_literal_args("http_get"@, a) == one
                &&& intrinsic_literal_args("process_status"@, a) == one
                &&& intrinsic_literal_args("env_get"@, a) == one
                &&& intrinsic_literal_args("crypto_sha256"@, a) == one
            },
{
    reveal_strlit("len");
    reveal_strlit("io_eprintln");
    reveal_strlit("fs_read");
    reveal_strlit("net_resolve");
    reveal_strlit("http_get");
    reveal_strlit("process_status");
    reveal_strlit("clock_now_ms");
    reveal_strlit("env_get");
    reveal_strlit("crypto_sha256");
    assert("len"@.len() == 3);
    assert("io_eprintln"@.len() == 11);
    assert("fs_read"@.len() == 7);
    assert("net_resolve"@.len() == 11);
    assert("http_get"@.len() == 8);
    assert("process_status"@.len() == 14);
    assert("clock_now_ms"@.len() == 12);
    assert("env_get"@.len() == 7);
    assert("crypto_sha256"@.len() == 13);
    assert("io_eprintln"@[0] != "net_resolve"@[0]);
    assert("fs_read"@[0] != "env_get"@[0]);
    assert("clock_now_ms"@[0] != "process_status"@[0]);
}

/// A `print` of a call to a host intrinsic whose capability `caps` withholds.
pub open spec fn print_of_denied_call(stmt: syntax::Stmt, caps: CapabilityConfig) -> bool {
    match stmt {
        syntax::Stmt::Print { expr: syntax::Expr::Call { name, .. }, .. } => match intrinsic_capability(
            name@,
        ) {
            Some(k) => !caps.spec_enabled(k),
            None => false,
        },
        _ => false,
    }
}

/// `d` is the capability error for the call that the `print` statement `stmt` makes.
pub open spec fn denial_for(stmt: syntax::Stmt, d: Diagnostic) -> bool {
    match stmt {
        syntax::Stmt::Print { expr: syntax::Expr::Call { name, .. }, .. } => match intrinsic_capability(
            name@,
        ) {
            Some(k) => capability_denied(d, name@, k),
            None => false,
        },
        _ => false,
    }
}

/// A program of top-level statements alone: no imports' declarations, no
/// structs, enums or functions.
pub open spec fn statements_only(program: &syntax::Program) -> bool {
    &&& program.structs@.len() == 0
    &&& program.enums@.len() == 0
    &&& program.functions@.len() == 0
}

/// The statements of a checked program, or the error.
pub open spec fn program_stmts(r: Result<Program, Diagnostic>) -> Result<Seq<Stmt>, Diagnostic> {
    match r {
        Ok(p) => Ok(p.stmts@),
        Err(d) => Err(d),
    }
}

/// What checking a program of statements alone owes: the empty program is
/// accepted as it is; one whose first statement prints a call that needs a
/// withheld capability is refused with that capability's error; one that
/// starts with `return` is refused, as outside any function; and one of
/// simple `let` and `print` statements is accepted and lowered as the simple
/// fragment says, or refused at its first use of a moved value.
pub open spec fn statements_outcome(
    program: &syntax::Program,
    caps: CapabilityConfig,
    r: Result<Program, Diagnostic>,
) -> bool {
    statements_only(program) ==> {
        &&& program.stmts@.len() == 0 ==> (r matches Ok(p) && p.structs@.len() == 0 && p.enums@.len() == 0
            && p.functions@.len() == 0 && p.stmts@.len() == 0)
        &&& program.stmts@.len() > 0 && print_of_denied_call(program.stmts@[0], caps) ==> (r matches Err(
            d,
        ) && denial_for(program.stmts@[0], d))
        &&& program.stmts@.len() > 0 && program.stmts@[0] is Return ==> (r matches Err(d) && top_level_return(d))
        &&& all_simple(program.stmts@) ==> simple_block_outcome(Seq::empty(), program.stmts@, program_stmts(r))
    }
}

/// A call of a host intrinsic is allowed only where the manifest grants its capability.
fn require_capability(
    capabilities: &CapabilityConfig,
    kind: CapabilityKind,
    name: &String,
    line: usize,
    column: usize,
) -> (r: Result<(), Diagnostic>)
    ensures
        r is Ok <==> capabilities.spec_enabled(kind),
        r matches Err(d) ==> capability_denied(d, name@, kind),
{
    if capabilities.enabled(kind) {
        return Ok(());
    }
    Err(
        err(
            "capability",
            cat5("call to ", quoted(name).as_str(), " requires [capabilities].", kind.name(), " = true"),
            line,
            column,
        ),
    )
}

fn is_int(t: &Type) -> (b: bool)
    ensures
        b <==> *t is Int,
{
    match t {
        Type::Int => true,
        _ => false,
    }
}

fn is_string(t: &Type) -> (b: bool)
    ensures
        b <==> *t is String,
{
    match t {
        Type::String => true,
        _ => false,
    }
}

/// `k` is the binding that a use of `name` finds in `env`: the first of that name.
spec fn found_binding(env: Seq<(String, Binding)>, name: Seq<char>, k: int) -> bool {
    &&& 0 <= k < env.len()
    &&& env[k].0@ == name
    &&& forall|j: int| 0 <= j < k ==> (#[trigger] env[j]).0@ != name
}

/// How a use of a variable is checked: a moved value is refused with an
/// ownership error, a live one reads as the variable with its bound type.
/// `Some(l)` of a literal where an `Option` of another built-in type is
/// expected is a type error, unless a function of that name shadows it.
spec fn some_payload_outcome(
    name: Seq<char>,
    args: Seq<syntax::Expr>,
    expected: Option<&Type>,
    functions: Seq<FunctionSig>,
    r: Result<Expr, Diagnostic>,
) -> bool {
    name == "Some"@ && args.len() == 1 && (forall|j: int| 0 <= j < functions.len() ==> (#[trigger] functions[j]).name@
        != name) ==> match (args[0], expected) {
        (syntax::Expr::Literal(l), Some(Type::Option(inner))) => simple_ty(**inner) && literal_ty(l) != **inner
            ==> (r matches Err(d) && d.kind@ == "type"@),
        _ => true,
    }
}

/// No binding of `env` is named `name`.
pub open spec fn unbound(env: Seq<(String, Binding)>, name: Seq<char>) -> bool {
    forall|j: int| 0 <= j < env.len() ==> (#[trigger] env[j]).0@ != name
}

/// The refusal of `None` where no `Option` type is expected.
pub open spec fn none_without_context(d: Diagnostic) -> bool {
    d.kind@ == "type"@ && d.message@ == "None requires an expected Option<T> context"@
}

spec fn var_use_outcome(env: Seq<(String, Binding)>, name: Seq<char>, r: Result<Expr, Diagnostic>) -> bool {
    forall|k: int|
        #[trigger] found_binding(env, name, k) ==> if env[k].1.moved {
            r matches Err(d) && d.kind@ == "ownership"@ && d.message@ == "use of moved value "@ + debug_quoted(
                name,
            )
        } else {
            r matches Ok(Expr::VarRef { name: n, ty }) && n@ == name && type_eq(&ty, &env[k].1.ty)
        }
}

fn lower_var_ref(
    name: &String,
    line: usize,
    column: usize,
    expected: Option<&Type>,
    env: &Env,
    t: &Tables,
) -> (r: Result<Expr, Diagnostic>)
    ensures
        lower_ok(r),
        r matches Ok(e) ==> expr_typed(&e) && var_ref_from(name@, &e),
        var_use_outcome(env@, name@, r),
        name@ == "None"@ && unbound(env@, name@) ==> match expected {
            Some(Type::Option(_)) => r matches Ok(Expr::EnumVariant { variant, .. }) && variant@ == "None"@,
            _ => r matches Err(d) && none_without_context(d),
        },
{
    if let Some(i) = env_index(env, name) {
        if env[i].1.moved {
            return Err(err("ownership", cat("use of moved value ", quoted(name).as_str()), line, column));
        }
        return Ok(Expr::VarRef { name: name.clone(), ty: clone_type(&env[i].1.ty) });
    }
    if string_is(name, "None") {
        return match expected {
            Some(Type::Option(inner)) => Ok(
                Expr::EnumVariant {
                    enum_name: String::from_str("Option"),
                    variant: String::from_str("None"),
                    field_names: Vec::new(),
                    payloads: Vec::new(),
                    ty: Type::Option(Box::new(clone_type(inner))),
                },
            ),
            _ => Err(type_err_s("None requires an expected Option<T> context", line, column)),
        };
    }
    if let Some(v) = find_variant(&t.variants, name) {
        if v.payload_tys.len() != 0 {
            return Err(
                type_err(
                    cat4(
                        "enum variant ",
                        quoted(name).as_str(),
                        " requires ",
                        usize_to_string(v.payload_tys.len()).as_str(),
                    ).concat(" arguments"),
                    line,
                    column,
                ),
            );
        }
        return Ok(
            Expr::EnumVariant {
                enum_name: v.enum_name.clone(),
                variant: name.clone(),
                field_names: Vec::new(),
                payloads: Vec::new(),
                ty: Type::Enum(v.enum_name.clone()),
            },
        );
    }
    Err(type_err(cat("undefined variable ", quoted(name).as_str()), line, column))
}

/// The type of a literal, or of a live variable, in scope `m`.
pub open spec fn value_type(m: Seq<(Seq<char>, Type, bool)>, e: syntax::Expr) -> Option<Type> {
    match e {
        syntax::Expr::Literal(l) => Some(literal_ty(l)),
        syntax::Expr::VarRef { name, .. } => {
            let k = mfind(m, name@);
            if k >= 0 && !m[k].2 {
                Some(m[k].1)
            } else {
                None
            }
        },
        _ => None,
    }
}

/// How `lhs + rhs` of two literals or live variables is checked: two ints or
/// two strings are accepted with that type; any other pair is a type error.
pub open spec fn add_outcome(
    m: Seq<(Seq<char>, Type, bool)>,
    lhs: syntax::Expr,
    rhs: syntax::Expr,
    r: Result<Expr, Diagnostic>,
) -> bool {
    match (value_type(m, lhs), value_type(m, rhs)) {
        (Some(a), Some(b)) => if a == b && (a is Int || a is String) {
            r matches Ok(Expr::BinaryAdd { lhs: l, rhs: x, ty }) && ty == a && simple_value(m, lhs, *l)
                && simple_value(m, rhs, *x)
        } else {
            r matches Err(d) && d.kind@ == "type"@
        },
        _ => true,
    }
}

/// How a comparison of two literals or live variables is checked: `==` and
/// `!=` need operands of one type, the orderings two ints; accepted
/// comparisons are `bool`, others a type error.
pub open spec fn compare_outcome(
    m: Seq<(Seq<char>, Type, bool)>,
    op: syntax::CompareOp,
    lhs: syntax::Expr,
    rhs: syntax::Expr,
    r: Result<Expr, Diagnostic>,
) -> bool {
    match (value_type(m, lhs), value_type(m, rhs)) {
        (Some(a), Some(b)) => {
            let fits = if op is Eq || op is Ne {
                a == b
            } else {
                a is Int && b is Int
            };
            if fits {
                r matches Ok(Expr::BinaryCompare { op: o, lhs: l, rhs: x, ty }) && same_op(op, o) && ty
                    == Type::Bool && simple_value(m, lhs, *l) && simple_value(m, rhs, *x)
            } else {
                r matches Err(d) && d.kind@ == "type"@
            }
        },
        _ => true,
    }
}

/// Checks an expression and gives it its type. `expected`, where given, is the
/// type the context wants; `None`, `Ok(..)` and `Err(..)` need it.
fn lower_expr_with_expected(
    expr: &syntax::Expr,
    expected: Option<&Type>,
    env: &mut Env,
    t: &Tables,
) -> (r: Result<Expr, Diagnostic>)
    ensures
        lower_ok(r),
        r matches Ok(e) ==> expr_typed(&e) && expr_from(expr, &e),
        expr matches syntax::Expr::Literal(l) ==> r == Ok::<Expr, Diagnostic>(spec_lower_literal(*l))
            && final(env)@ == old(env)@,
        expr matches syntax::Expr::Call { name, args, .. } ==> intrinsic_outcome(
            name@,
            args@,
            t.capabilities,
            r,
        ),
        expr matches syntax::Expr::Call { name, args, .. } ==> some_payload_outcome(
            name@,
            args@,
            expected,
            t.functions@,
            r,
        ),
        expr matches syntax::Expr::VarRef { name, .. } ==> var_use_outcome(old(env)@, name@, r)
            && final(env)@ == old(env)@,
        expr matches syntax::Expr::VarRef { name, .. } ==> (name@ == "None"@ && unbound(old(env)@, name@)
            && !(expected matches Some(Type::Option(_))) ==> (r matches Err(d) && none_without_context(d))),
        simple_env(old(env)@) ==> (expr matches syntax::Expr::BinaryAdd { lhs, rhs, .. } ==> add_outcome(
            model_of(old(env)@),
            **lhs,
            **rhs,
            r,
        ) && (value_type(model_of(old(env)@), **lhs) is Some && value_type(model_of(old(env)@), **rhs) is Some
            ==> final(env)@ == old(env)@)),
        simple_env(old(env)@) ==> (expr matches syntax::Expr::BinaryCompare { op, lhs, rhs, .. } ==> compare_outcome(
            model_of(old(env)@),
            *op,
            **lhs,
            **rhs,
            r,
        ) && (value_type(model_of(old(env)@), **lhs) is Some && value_type(model_of(old(env)@), **rhs) is Some
            ==> final(env)@ == old(env)@)),
        expr matches syntax::Expr::StructLiteral { name, .. } ==> (r matches Ok(Expr::StructLiteral { fields: f, .. })
            ==> fields_in_declared_order(t.structs@, name@, f@)),
    decreases expr, 0nat,
{
    match expr {
        syntax::Expr::Literal(literal) => Ok(lower_literal(literal)),
        syntax::Expr::VarRef { name, line, column } => lower_var_ref(
            name,
            *line,
            *column,
            expected,
            env,
            t,
        ),
        syntax::Expr::Call { name, args, line, column } => lower_call(
            name,
            args,
            *line,
            *column,
            expected,
            env,
            t,
        ),
        syntax::Expr::BinaryAdd { lhs, rhs, line, column } => {
            proof {
                let m0 = model_of(env@);
                if let syntax::Expr::VarRef { name: v, .. } = &**lhs {
                    lemma_mfind(env@, v@);
                    let k = mfind(m0, v@);
                    if k >= 0 {
                        assert(m0[k] == (env@[k].0@, env@[k].1.ty, env@[k].1.moved));
                    }
                }
                if let syntax::Expr::VarRef { name: v, .. } = &**rhs {
                    lemma_mfind(env@, v@);
                    let k = mfind(m0, v@);
                    if k >= 0 {
                        assert(m0[k] == (env@[k].0@, env@[k].1.ty, env@[k].1.moved));
                    }
                }
            }
            let l = match lower_expr_with_expected(lhs, None, env, t) {
                Ok(x) => x,
                Err(d) => return Err(d),
            };
            let r = match lower_expr_with_expected(rhs, None, env, t) {
                Ok(x) => x,
                Err(d) => return Err(d),
            };
            let ok = types_equal(l.ty(), r.ty()) && (is_int(l.ty()) || is_string(l.ty()));
            if !ok {
                return Err(
                    type_err(
                        cat4(
                            "operator '+' expects matching int or string operands, got ",
                            type_display(l.ty()).as_str(),
                            " and ",
                            type_display(r.ty()).as_str(),
                        ),
                        *line,
                        *column,
                    ),
                );
            }
            let ty = clone_type(l.ty());
            Ok(Expr::BinaryAdd { lhs: Box::new(l), rhs: Box::new(r), ty })
        },
        syntax::Expr::BinaryCompare { op, lhs, rhs, line, column } => {
            proof {
                let m0 = model_of(env@);
                if let syntax::Expr::VarRef { name: v, .. } = &**lhs {
                    lemma_mfind(env@, v@);
                    let k = mfind(m0, v@);
                    if k >= 0 {
                        assert(m0[k] == (env@[k].0@, env@[k].1.ty, env@[k].1.moved));
                    }
                }
                if let syntax::Expr::VarRef { name: v, .. } = &**rhs {
                    lemma_mfind(env@, v@);
                    let k = mfind(m0, v@);
                    if k >= 0 {
                        assert(m0[k] == (env@[k].0@, env@[k].1.ty, env@[k].1.moved));
                    }
                }
            }
            let l = match lower_expr_with_expected(lhs, None, env, t) {
                Ok(x) => x,
                Err(d) => return Err(d),
            };
            let r = match lower_expr_with_expected(rhs, None, env, t) {
                Ok(x) => x,
                Err(d) => return Err(d),
            };
            let equality = match op {
                syntax::CompareOp::Eq | syntax::CompareOp::Ne => true,
                _ => false,
            };
            if equality {
                if !types_equal(l.ty(), r.ty()) {
                    return Err(
                        type_err(
                            cat5(
                                "operator '",
                                op.lexeme(),
                                "' expects matching operand types, got ",
                                type_display(l.ty()).as_str(),
                                " and ",
                            ).concat(type_display(r.ty()).as_str()),
                            *line,
                            *column,
                        ),
                    );
                }
            } else if !is_int(l.ty()) || !is_int(r.ty()) {
                return Err(
                    type_err(
                        cat5(
                            "operator '",
                            op.lexeme(),
                            "' expects int operands, got ",
                            type_display(l.ty()).as_str(),
                            " and ",
                        ).concat(type_display(r.ty()).as_str()),
                        *line,
                        *column,
                    ),
                );
            }
            Ok(
                Expr::BinaryCompare {
                    op: lower_compare_op(*op),
                    lhs: Box::new(l),
                    rhs: Box::new(r),
                    ty: Type::Bool,
                },
            )
        },
        syntax::Expr::StructLiteral { name, fields, line, column } => lower_struct_literal(
            name,
            fields,
            *line,
            *column,
            env,
            t,
        ),
        syntax::Expr::TupleLiteral { elements, line, column } => lower_tuple_literal(
            elements,
            *line,
            *column,
            env,
            t,
        ),
        syntax::Expr::MapLiteral { entries, line, column } => lower_map_literal(
            entries,
            *line,
            *column,
            env,
            t,
        ),
        syntax::Expr::ArrayLiteral { elements, line, column } => lower_array_literal(
            elements,
            *line,
            *column,
            env,
            t,
        ),
        syntax::Expr::FieldAccess { base, field, line, column } => {
            let b = match lower_expr_with_expected(base, None, env, t) {
                Ok(x) => x,
                Err(d) => return Err(d),
            };
            let struct_name = match b.ty() {
                Type::Struct(n) => n.clone(),
                _ => {
                    return Err(
                        type_err(
                            cat("field access expects a struct value, got ", type_display(b.ty()).as_str()),
                            *line,
                            *column,
                        ),
                    );
                },
            };
            let def = match find_struct(&t.structs, &struct_name) {
                Some(d) => d,
                None => {
                    return Err(
                        type_err(
                            cat("internal error: missing struct definition ", quoted(&struct_name).as_str()),
                            *line,
                            *column,
                        ),
                    );
                },
            };
            let mut field_ty: Option<Type> = None;
            let mut k: usize = 0;
            while k < def.fields.len()
                decreases def.fields@.len() - k,
            {
                if def.fields[k].name == *field {
                    field_ty = Some(clone_type(&def.fields[k].ty));
                    break;
                }
                k = k + 1;
            }
            let field_ty = match field_ty {
                Some(ft) => ft,
                None => {
                    return Err(
                        type_err(
                            cat4(
                                "struct ",
                                quoted(&struct_name).as_str(),
                                " has no field ",
                                quoted(field).as_str(),
                            ),
                            *line,
                            *column,
                        ),
                    );
                },
            };
            if !field_ty.is_copy() {
                if let Err(d) = move_lowered_owner_value(&b, env) {
                    return Err(d);
                }
            }
            Ok(Expr::FieldAccess { base: Box::new(b), field: field.clone(), ty: field_ty })
        },
        syntax::Expr::TupleIndex { base, index, line, column } => {
            let b = match lower_expr_with_expected(base, None, env, t) {
                Ok(x) => x,
                Err(d) => return Err(d),
            };
            let element_ty = match b.ty() {
                Type::Tuple(tys) => {
                    if *index < tys.len() {
                        clone_type(&tys[*index])
                    } else {
                        return Err(
                            type_err(
                                cat4(
                                    "tuple index ",
                                    usize_to_string(*index).as_str(),
                                    " is out of bounds for ",
                                    type_display(b.ty()).as_str(),
                                ),
                                *line,
                                *column,
                            ),
                        );
                    }
                },
                _ => {
                    return Err(
                        type_err(
                            cat("tuple index expects a tuple value, got ", type_display(b.ty()).as_str()),
                            *line,
                            *column,
                        ),
                    );
                },
            };
            if !element_ty.is_copy() {
                if let Err(d) = move_lowered_owner_value(&b, env) {
                    return Err(d);
                }
            }
            Ok(Expr::TupleIndex { base: Box::new(b), index: *index, ty: element_ty })
        },
        syntax::Expr::Slice { base, start, end, line, column } => {
            let b = match lower_expr_with_expected(base, None, env, t) {
                Ok(x) => x,
                Err(d) => return Err(d),
            };
            let element_ty = match b.ty() {
                Type::Array(e) => clone_type(e),
                Type::Slice(e) => clone_type(e),
                Type::MutSlice(e) => clone_type(e),
                _ => {
                    return Err(
                        type_err(
                            cat("slice expects an array or slice value, got ", type_display(b.ty()).as_str()),
                            *line,
                            *column,
                        ),
                    );
                },
            };
            if !is_borrowable_slice_base(&b) {
                return Err(
                    type_err_s(
                        "borrowed slices currently require a named array, field, tuple field, or slice value",
                        *line,
                        *column,
                    ),
                );
            }
            let lowered_start = match start {
                Some(s) => {
                    let l = match lower_expr_with_expected(s, None, env, t) {
                        Ok(x) => x,
                        Err(d) => return Err(d),
                    };
                    if !is_int(l.ty()) {
                        return Err(
                            type_err(
                                cat("array slice start expects int, got ", type_display(l.ty()).as_str()),
                                s.line(),
                                s.column(),
                            ),
                        );
                    }
                    Some(Box::new(l))
                },
                None => None,
            };
            let lowered_end = match end {
                Some(e) => {
                    let l = match lower_expr_with_expected(e, None, env, t) {
                        Ok(x) => x,
                        Err(d) => return Err(d),
                    };
                    if !is_int(l.ty()) {
                        return Err(
                            type_err(
                                cat("array slice end expects int, got ", type_display(l.ty()).as_str()),
                                e.line(),
                                e.column(),
                            ),
                        );
                    }
                    Some(Box::new(l))
                },
                None => None,
            };
            let ty = match b.ty() {
                Type::MutSlice(_) => Type::MutSlice(Box::new(element_ty)),
                _ => Type::Slice(Box::new(element_ty)),
            };
            Ok(Expr::Slice { base: Box::new(b), start: lowered_start, end: lowered_end, ty })
        },
        syntax::Expr::Index { base, index, line, column } => {
            let b = match lower_expr_with_expected(base, None, env, t) {
                Ok(x) => x,
                Err(d) => return Err(d),
            };
            let ix = match lower_expr_with_expected(index, None, env, t) {
                Ok(x) => x,
                Err(d) => return Err(d),
            };
            let result_ty = match b.ty() {
                Type::Array(e) => {
                    if !is_int(ix.ty()) {
                        return Err(
                            type_err(
                                cat("array index expects int, got ", type_display(ix.ty()).as_str()),
                                *line,
                                *column,
                            ),
                        );
                    }
                    let et = clone_type(e);
                    if !et.is_copy() {
                        if let Err(d) = move_lowered_owner_value(&b, env) {
                            return Err(d);
                        }
                    }
                    et
                },
                Type::Slice(e) | Type::MutSlice(e) => {
                    if !is_int(ix.ty()) {
                        return Err(
                            type_err(
                                cat("slice index expects int, got ", type_display(ix.ty()).as_str()),
                                *line,
                                *column,
                            ),
                        );
                    }
                    let et = clone_type(e);
                    if !et.is_copy() {
                        return Err(
                            type_err(
                                cat(
                                    "borrowed slice indexing requires a Copy element type, got ",
                                    type_display(&et).as_str(),
                                ),
                                *line,
                                *column,
                            ),
                        );
                    }
                    et
                },
                Type::Dict(key, value) => {
                    if !types_equal(ix.ty(), key) {
                        return Err(
                            type_err(
                                cat4(
                                    "map index expects key type ",
                                    type_display(key).as_str(),
                                    ", got ",
                                    type_display(ix.ty()).as_str(),
                                ),
                                *line,
                                *column,
                            ),
                        );
                    }
                    let vt = clone_type(value);
                    if !vt.is_copy() {
                        if let Err(d) = move_lowered_owner_value(&b, env) {
                            return Err(d);
                        }
                    }
                    vt
                },
                _ => {
                    return Err(
                        type_err(
                            cat("index expects an array or map value, got ", type_display(b.ty()).as_str()),
                            *line,
                            *column,
                        ),
                    );
                },
            };
            Ok(Expr::Index { base: Box::new(b), index: Box::new(ix), ty: result_ty })
        },
    }
}

fn count_message(what: &str, expected: usize, got: usize) -> (s: String)
    ensures
        s@ == what@ + " expects "@ + decimal(expected as nat) + " argument"@ + (if expected == 1 {
            ", got "@
        } else {
            "s, got "@
        }) + decimal(got as nat),
{
    let head = cat5(what, " expects ", usize_to_string(expected).as_str(), " argument", "");
    proof {
        reveal_strlit("");
        assert(head@ =~= what@ + " expects "@ + decimal(expected as nat) + " argument"@);
    }
    head.concat(
        if expected == 1 {
            ", got "
        } else {
            "s, got "
        },
    ).concat(usize_to_string(got).as_str())
}

/// A host intrinsic that takes one string and moves it.
fn lower_string_intrinsic(
    name: &String,
    args: &Vec<syntax::Expr>,
    line: usize,
    column: usize,
    result_ty: Type,
    env: &mut Env,
    t: &Tables,
) -> (r: Result<Expr, Diagnostic>)
    ensures
        lower_ok(r),
        r matches Ok(e) ==> expr_typed(&e) && call_from(name@, args, &e),
        r matches Ok(e) ==> (e matches Expr::Call { ty, .. } && ty == result_ty),
        (args@.len() == 1 && args@[0] matches syntax::Expr::Literal(syntax::Literal::String(_))) ==> r is Ok,
    decreases args, 0nat,
{
    if args.len() != 1 {
        return Err(type_err(count_message(name.as_str(), 1, args.len()), line, column));
    }
    let string_ty = Type::String;
    let lowered = match lower_expr_with_expected(&args[0], Some(&string_ty), env, t) {
        Ok(x) => x,
        Err(d) => return Err(d),
    };
    if !is_string(lowered.ty()) {
        return Err(
            type_err(
                cat3(name.as_str(), " expects a string argument, got ", type_display(lowered.ty()).as_str()),
                args[0].line(),
                args[0].column(),
            ),
        );
    }
    if let Err(d) = move_lowered_value(&lowered, env) {
        return Err(d);
    }
    let lowered_args = vec![lowered];
    assert(exprs_from(args, &lowered_args));
    Ok(Expr::Call { name: name.clone(), args: lowered_args, ty: result_ty })
}

spec fn option_string_ty() -> Type {
    Type::Option(Box::new(Type::String))
}

fn option_string() -> (t: Type)
    ensures
        t == option_string_ty(),
{
    Type::Option(Box::new(Type::String))
}

fn lower_call(
    name: &String,
    args: &Vec<syntax::Expr>,
    line: usize,
    column: usize,
    expected: Option<&Type>,
    env: &mut Env,
    t: &Tables,
) -> (r: Result<Expr, Diagnostic>)
    ensures
        lower_ok(r),
        r matches Ok(e) ==> expr_typed(&e) && call_from(name@, args, &e),
        intrinsic_outcome(name@, args@, t.capabilities, r),
        some_payload_outcome(name@, args@, expected, t.functions@, r),
    decreases args, 1nat,
{
    proof {
        lemma_intrinsic_table();
        reveal_strlit("Some");
        reveal_strlit("len");
        reveal_strlit("io_eprintln");
        reveal_strlit("fs_read");
        reveal_strlit("net_resolve");
        reveal_strlit("http_get");
        reveal_strlit("process_status");
        reveal_strlit("clock_now_ms");
        reveal_strlit("env_get");
        reveal_strlit("crypto_sha256");
        reveal_strlit("first");
        reveal_strlit("last");
        assert("Some"@.len() == 4 && "Some"@[0] == 'S');
        assert("last"@.len() == 4 && "last"@[0] == 'l');
        assert("first"@.len() == 5);
    }
    if string_is(name, "len") {
        if args.len() != 1 {
            return Err(type_err(count_message("len", 1, args.len()), line, column));
        }
        let lowered = match lower_expr_with_expected(&args[0], None, env, t) {
            Ok(x) => x,
            Err(d) => return Err(d),
        };
        let ok = match lowered.ty() {
            Type::Array(_) | Type::Slice(_) | Type::MutSlice(_) => true,
            _ => false,
        };
        if !ok {
            return Err(
                type_err(
                    cat("len expects an array or slice value, got ", type_display(lowered.ty()).as_str()),
                    args[0].line(),
                    args[0].column(),
                ),
            );
        }
        let lowered_args = vec![lowered];
        assert(exprs_from(args, &lowered_args));
        return Ok(Expr::Call { name: name.clone(), args: lowered_args, ty: Type::Int });
    }
    if string_is(name, "io_eprintln") {
        return lower_string_intrinsic(name, args, line, column, Type::Int, env, t);
    }
    if string_is(name, "fs_read") {
        if let Err(d) = require_capability(&t.capabilities, CapabilityKind::Fs, name, line, column) {
            return Err(d);
        }
        return lower_string_intrinsic(name, args, line, column, option_string(), env, t);
    }
    if string_is(name, "net_resolve") || string_is(name, "http_get") {
        if let Err(d) = require_capability(&t.capabilities, CapabilityKind::Net, name, line, column) {
            return Err(d);
        }
        return lower_string_intrinsic(name, args, line, column, option_string(), env, t);
    }
    if string_is(name, "process_status") {
        if let Err(d) = require_capability(
            &t.capabilities,
            CapabilityKind::Process,
            name,
            line,
            column,
        ) {
            return Err(d);
        }
        return lower_string_intrinsic(name, args, line, column, Type::Int, env, t);
    }
    if string_is(name, "clock_now_ms") {
        if let Err(d) = require_capability(&t.capabilities, CapabilityKind::Clock, name, line, column) {
            return Err(d);
        }
        if args.len() != 0 {
            return Err(type_err(count_message("clock_now_ms", 0, args.len()), line, column));
        }
        let lowered_args: Vec<Expr> = Vec::new();
        assert(exprs_from(args, &lowered_args));
        return Ok(Expr::Call { name: name.clone(), args: lowered_args, ty: Type::Int });
    }
    if string_is(name, "env_get") {
        if let Err(d) = require_capability(&t.capabilities, CapabilityKind::Env, name, line, column) {
            return Err(d);
        }
        return lower_string_intrinsic(name, args, line, column, option_string(), env, t);
    }
    if string_is(name, "crypto_sha256") {
        if let Err(d) = require_capability(&t.capabilities, CapabilityKind::Crypto, name, line, column) {
            return Err(d);
        }
        return lower_string_intrinsic(name, args, line, column, Type::String, env, t);
    }
    if string_is(name, "first") || string_is(name, "last") {
        return lower_first_last(name, args, line, column, env, t);
    }
    if let Some(sig) = find_function(&t.functions, name) {
        return lower_user_call(name, args, sig, line, column, env, t);
    }
    if string_is(name, "Some") {
        if args.len() != 1 {
            return Err(type_err(count_message("Option::Some", 1, args.len()), line, column));
        }
        let inner_expected: Option<&Type> = match expected {
            Some(Type::Option(inner)) => Some(&**inner),
            _ => None,
        };
        let lowered = match lower_expr_with_expected(&args[0], inner_expected, env, t) {
            Ok(x) => x,
            Err(d) => return Err(d),
        };
        let inner_ty = clone_type(lowered.ty());
        if let Some(want) = inner_expected {
            if !types_equal(&inner_ty, want) {
                return Err(
                    type_err(
                        cat4(
                            "Option::Some expects payload type ",
                            type_display(want).as_str(),
                            ", got ",
                            type_display(&inner_ty).as_str(),
                        ),
                        args[0].line(),
                        args[0].column(),
                    ),
                );
            }
        }
        if !inner_ty.is_copy() {
            if let Err(d) = move_lowered_value(&lowered, env) {
                return Err(d);
            }
        }
        let payloads = vec![lowered];
        assert(exprs_from(args, &payloads));
        return Ok(
            Expr::EnumVariant {
                enum_name: String::from_str("Option"),
                variant: String::from_str("Some"),
                field_names: Vec::new(),
                payloads,
                ty: Type::Option(Box::new(inner_ty)),
            },
        );
    }
    let is_ok = string_is(name, "Ok");
    if is_ok || string_is(name, "Err") {
        let label = if is_ok {
            "Result::Ok"
        } else {
            "Result::Err"
        };
        if args.len() != 1 {
            return Err(type_err(count_message(label, 1, args.len()), line, column));
        }
        let (ok_ty, err_ty) = match expected {
            Some(Type::Result(ok_ty, err_ty)) => (ok_ty, err_ty),
            _ => {
                return Err(
                    type_err_s(
                        if is_ok {
                            "Ok requires an expected Result<T, E> context"
                        } else {
                            "Err requires an expected Result<T, E> context"
                        },
                        line,
                        column,
                    ),
                );
            },
        };
        let payload_ty: &Type = if is_ok {
            ok_ty
        } else {
            err_ty
        };
        let lowered = match lower_expr_with_expected(&args[0], Some(payload_ty), env, t) {
            Ok(x) => x,
            Err(d) => return Err(d),
        };
        if !types_equal(lowered.ty(), payload_ty) {
            return Err(
                type_err(
                    cat4(
                        label,
                        " expects payload type ",
                        type_display(payload_ty).as_str(),
                        ", got ",
                    ).concat(type_display(lowered.ty()).as_str()),
                    args[0].line(),
                    args[0].column(),
                ),
            );
        }
        if !payload_ty.is_copy() {
            if let Err(d) = move_lowered_value(&lowered, env) {
                return Err(d);
            }
        }
        let payloads = vec![lowered];
        assert(exprs_from(args, &payloads));
        return Ok(
            Expr::EnumVariant {
                enum_name: String::from_str("Result"),
                variant: if is_ok {
                    String::from_str("Ok")
                } else {
                    String::from_str("Err")
                },
                field_names: Vec::new(),
                payloads,
                ty: Type::Result(Box::new(clone_type(ok_ty)), Box::new(clone_type(err_ty))),
            },
        );
    }
    if let Some(v) = find_variant(&t.variants, name) {
        return lower_variant_constructor(name, args, line, column, v, env, t);
    }
    Err(type_err(cat("undefined function ", quoted(name).as_str()), line, column))
}

fn lower_first_last(
    name: &String,
    args: &Vec<syntax::Expr>,
    line: usize,
    column: usize,
    env: &mut Env,
    t: &Tables,
) -> (r: Result<Expr, Diagnostic>)
    ensures
        lower_ok(r),
        r matches Ok(e) ==> expr_typed(&e) && call_from(name@, args, &e),
    decreases args, 0nat,
{
    if args.len() != 1 {
        return Err(type_err(count_message(name.as_str(), 1, args.len()), line, column));
    }
    let lowered = match lower_expr_with_expected(&args[0], None, env, t) {
        Ok(x) => x,
        Err(d) => return Err(d),
    };
    let (element_ty, borrowed) = match lowered.ty() {
        Type::Array(e) => (clone_type(e), false),
        Type::Slice(e) => (clone_type(e), true),
        Type::MutSlice(e) => (clone_type(e), true),
        _ => {
            return Err(
                type_err(
                    cat3(name.as_str(), " expects an array or slice value, got ", type_display(lowered.ty()).as_str()),
                    args[0].line(),
                    args[0].column(),
                ),
            );
        },
    };
    if borrowed && !element_ty.is_copy() {
        return Err(
            type_err(
                cat3(
                    name.as_str(),
                    " requires a Copy element type when called on a borrowed slice, got ",
                    type_display(&element_ty).as_str(),
                ),
                args[0].line(),
                args[0].column(),
            ),
        );
    }
    if !borrowed && !element_ty.is_copy() {
        if let Err(d) = move_lowered_owner_value(&lowered, env) {
            return Err(d);
        }
    }
    let lowered_args = vec![lowered];
    assert(exprs_from(args, &lowered_args));
    Ok(Expr::Call { name: name.clone(), args: lowered_args, ty: element_ty })
}

fn lower_user_call(
    name: &String,
    args: &Vec<syntax::Expr>,
    sig: &FunctionSig,
    line: usize,
    column: usize,
    env: &mut Env,
    t: &Tables,
) -> (r: Result<Expr, Diagnostic>)
    ensures
        lower_ok(r),
        r matches Ok(e) ==> expr_typed(&e) && call_from(name@, args, &e),
    decreases args, 0nat,
{
    if args.len() != sig.params.len() {
        return Err(
            type_err(
                cat4(
                    "function ",
                    quoted(name).as_str(),
                    " expects ",
                    usize_to_string(sig.params.len()).as_str(),
                ).concat(" arguments, got ").concat(usize_to_string(args.len()).as_str()),
                line,
                column,
            ),
        );
    }
    let mut lowered_args: Vec<Expr> = Vec::new();
    let mut temporary: Vec<Vec<String>> = Vec::new();
    let mut i: usize = 0;
    while i < args.len()
        invariant
            i <= args@.len(),
            args@.len() == sig.params@.len(),
            lowered_args@.len() == i,
            forall|a: int| 0 <= a < lowered_args@.len() ==> expr_typed(&(#[trigger] lowered_args@[a])),
            forall|a: int| 0 <= a < i ==> expr_from(&args@[a], &(#[trigger] lowered_args@[a])),
        decreases args@.len() - i,
    {
        let want = &sig.params[i];
        let lowered = match lower_expr_with_expected(&args[i], Some(want), env, t) {
            Ok(x) => x,
            Err(d) => return Err(d),
        };
        if !types_equal(lowered.ty(), want) {
            return Err(
                type_err(
                    cat4(
                        "function ",
                        quoted(name).as_str(),
                        " expects argument type ",
                        type_display(want).as_str(),
                    ).concat(", got ").concat(type_display(lowered.ty()).as_str()),
                    args[i].line(),
                    args[i].column(),
                ),
            );
        }
        if let Err(d) = record_temporary_borrows(&lowered, env, t, &mut temporary) {
            return Err(d);
        }
        if !want.is_copy() {
            if let Err(d) = move_lowered_value(&lowered, env) {
                return Err(d);
            }
        }
        lowered_args.push(lowered);
        i = i + 1;
    }
    release_temporary_borrows(&temporary, env);
    Ok(Expr::Call { name: name.clone(), args: lowered_args, ty: clone_type(&sig.return_ty) })
}

fn lower_variant_constructor(
    name: &String,
    args: &Vec<syntax::Expr>,
    line: usize,
    column: usize,
    variant: &VariantInfo,
    env: &mut Env,
    t: &Tables,
) -> (r: Result<Expr, Diagnostic>)
    ensures
        lower_ok(r),
        r matches Ok(e) ==> expr_typed(&e) && call_from(name@, args, &e),
    decreases args, 0nat,
{
    if variant.payload_names.len() != 0 {
        return Err(
            type_err(
                cat3("enum variant ", quoted(name).as_str(), " requires named payload fields"),
                line,
                column,
            ),
        );
    }
    if variant.payload_tys.len() == 0 {
        return Err(
            type_err(
                cat3("enum variant ", quoted(name).as_str(), " does not take arguments"),
                line,
                column,
            ),
        );
    }
    if args.len() != variant.payload_tys.len() {
        return Err(
            type_err(
                cat4(
                    "enum variant ",
                    quoted(name).as_str(),
                    " expects ",
                    usize_to_string(variant.payload_tys.len()).as_str(),
                ).concat(" arguments, got ").concat(usize_to_string(args.len()).as_str()),
                line,
                column,
            ),
        );
    }
    let mut payloads: Vec<Expr> = Vec::new();
    let mut i: usize = 0;
    while i < args.len()
        invariant
            i <= args@.len(),
            args@.len() == variant.payload_tys@.len(),
            payloads@.len() == i,
            forall|a: int| 0 <= a < payloads@.len() ==> expr_typed(&(#[trigger] payloads@[a])),
            forall|a: int| 0 <= a < i ==> expr_from(&args@[a], &(#[trigger] payloads@[a])),
        decreases args@.len() - i,
    {
        let want = &variant.payload_tys[i];
        let lowered = match lower_expr_with_expected(&args[i], Some(want), env, t) {
            Ok(x) => x,
            Err(d) => return Err(d),
        };
        if !types_equal(lowered.ty(), want) {
            return Err(
                type_err(
                    cat4(
                        "enum variant ",
                        quoted(name).as_str(),
                        " expects payload type ",
                        type_display(want).as_str(),
                    ).concat(", got ").concat(type_display(lowered.ty()).as_str()),
                    args[i].line(),
                    args[i].column(),
                ),
            );
        }
        if !want.is_copy() {
            if let Err(d) = move_lowered_value(&lowered, env) {
                return Err(d);
            }
        }
        payloads.push(lowered);
        i = i + 1;
    }
    Ok(
        Expr::EnumVariant {
            enum_name: variant.enum_name.clone(),
            variant: name.clone(),
            field_names: Vec::new(),
            payloads,
            ty: Type::Enum(variant.enum_name.clone()),
        },
    )
}

/// `f` names the fields of the struct `name` of `structs`, in the order its
/// declaration gives them.
spec fn fields_in_declared_order(structs: Seq<StructDef>, name: Seq<char>, f: Seq<StructFieldValue>) -> bool {
    struct_def_named(structs, name, 0) matches Some(d) && f.len() == d.fields@.len() && forall|a: int|
        0 <= a < f.len() ==> (#[trigger] f[a]).name@ == d.fields@[a].name@
}

fn lower_struct_literal(
    name: &String,
    fields: &Vec<syntax::StructFieldValue>,
    line: usize,
    column: usize,
    env: &mut Env,
    t: &Tables,
) -> (r: Result<Expr, Diagnostic>)
    ensures
        lower_ok(r),
        r matches Ok(e) ==> expr_typed(&e) && struct_literal_from(name@, fields, &e),
        r matches Ok(Expr::StructLiteral { fields: f, .. }) ==> fields_in_declared_order(t.structs@, name@, f@),
    decreases fields, 1nat,
{
    if let Some(v) = find_variant(&t.variants, name) {
        if v.payload_names.len() != 0 {
            return lower_named_variant_constructor(name, fields, line, column, v, env, t);
        }
    }
    let def = match find_struct(&t.structs, name) {
        Some(d) => d,
        None => return Err(type_err(cat("undefined struct ", quoted(name).as_str()), line, column)),
    };
    let mut lowered_fields: Vec<StructFieldValue> = Vec::new();
    let mut seen: Vec<String> = Vec::new();
    let mut i: usize = 0;
    while i < fields.len()
        invariant
            i <= fields@.len(),
            seen@.len() == i,
            lowered_fields@.len() == i,
            forall|a: int| 0 <= a < i ==> (#[trigger] seen@[a])@ == fields@[a].name@,
            forall|a: int, b: int|
                0 <= a < b < i ==> (#[trigger] fields@[a]).name@ != (#[trigger] fields@[b]).name@,
            forall|a: int|
                0 <= a < i ==> (#[trigger] lowered_fields@[a]).name@ == fields@[a].name@ && expr_from(
                    &fields@[a].expr,
                    &lowered_fields@[a].expr,
                ),
            forall|a: int| 0 <= a < lowered_fields@.len() ==> expr_typed(&(#[trigger] lowered_fields@[a]).expr),
        decreases fields@.len() - i,
    {
        let field = &fields[i];
        let mut want: Option<&Type> = None;
        let mut k: usize = 0;
        while k < def.fields.len()
            decreases def.fields@.len() - k,
        {
            if def.fields[k].name == field.name {
                want = Some(&def.fields[k].ty);
                break;
            }
            k = k + 1;
        }
        let want = match want {
            Some(w) => w,
            None => {
                return Err(
                    type_err(
                        cat4("struct ", quoted(name).as_str(), " has no field ", quoted(&field.name).as_str()),
                        field.line,
                        field.column,
                    ),
                );
            },
        };
        let ghost seen_before = seen@;
        if !insert_string(&mut seen, &field.name) {
            return Err(
                type_err(
                    cat4(
                        "duplicate field ",
                        quoted(&field.name).as_str(),
                        " in struct literal ",
                        quoted(name).as_str(),
                    ),
                    field.line,
                    field.column,
                ),
            );
        }
        let lowered = match lower_expr_with_expected(&field.expr, Some(want), env, t) {
            Ok(x) => x,
            Err(d) => return Err(d),
        };
        if !types_equal(lowered.ty(), want) {
            return Err(
                type_err(
                    cat5(
                        "struct ",
                        quoted(name).as_str(),
                        " field ",
                        quoted(&field.name).as_str(),
                        " expects ",
                    ).concat(type_display(want).as_str()).concat(", got ").concat(
                        type_display(lowered.ty()).as_str(),
                    ),
                    field.line,
                    field.column,
                ),
            );
        }
        if !want.is_copy() {
            if let Err(d) = move_lowered_owner_value(&lowered, env) {
                return Err(d);
            }
        }
        lowered_fields.push(StructFieldValue { name: field.name.clone(), expr: lowered });
        proof {
            assert forall|a: int| 0 <= a < i implies fields@[a].name@ != fields@[i as int].name@ by {
                assert(seen_before[a]@ == fields@[a].name@);
            }
        }
        i = i + 1;
    }
    proof {
        assert forall|a: int| 0 <= a < lowered_fields@.len() implies field_index(
            fields@,
            (#[trigger] lowered_fields@[a]).name@,
        ) == a by {
            assert forall|j: int| 0 <= j < a implies (#[trigger] fields@[j]).name@ != fields@[a].name@ by {
                assert(fields@[j].name@ != fields@[a].name@);
            }
            lemma_field_index(fields@, fields@[a].name@, a);
        }
    }
    let mut ordered: Vec<StructFieldValue> = Vec::new();
    let mut j: usize = 0;
    while j < def.fields.len()
        invariant
            forall|a: int| 0 <= a < lowered_fields@.len() ==> expr_typed(&(#[trigger] lowered_fields@[a]).expr),
            forall|a: int| 0 <= a < ordered@.len() ==> expr_typed(&(#[trigger] ordered@[a]).expr),
            forall|a: int|
                #![trigger lowered_fields@[a]]
                0 <= a < lowered_fields@.len() ==> payload_from(
                    fields,
                    lowered_fields@[a].name@,
                    &lowered_fields@[a].expr,
                ),
            field_values_from(fields, &ordered),
            j <= def.fields@.len(),
            ordered@.len() == j,
            forall|a: int| 0 <= a < j ==> (#[trigger] ordered@[a]).name@ == def.fields@[a].name@,
            struct_def_named(t.structs@, name@, 0) == Some(*def),
        decreases def.fields@.len() - j,
    {
        let mut found: Option<usize> = None;
        let mut k: usize = 0;
        while k < lowered_fields.len()
            invariant
                found matches Some(x) ==> x < lowered_fields@.len() && lowered_fields@[x as int].name@
                    == def.fields@[j as int].name@,
                j < def.fields@.len(),
                forall|a: int| 0 <= a < lowered_fields@.len() ==> expr_typed(&(#[trigger] lowered_fields@[a]).expr),
                forall|a: int| 0 <= a < ordered@.len() ==> expr_typed(&(#[trigger] ordered@[a]).expr),
            decreases lowered_fields@.len() - k,
        {
            if lowered_fields[k].name == def.fields[j].name {
                found = Some(k);
                break;
            }
            k = k + 1;
        }
        match found {
            Some(k) => {
                let ghost before = lowered_fields@;
                let value = lowered_fields.remove(k);
                proof {
                    assert(expr_typed(&before[k as int].expr));
                    assert forall|a: int| 0 <= a < lowered_fields@.len() implies expr_typed(
                        &(#[trigger] lowered_fields@[a]).expr,
                    ) && payload_from(fields, lowered_fields@[a].name@, &lowered_fields@[a].expr) by {
                        if a < k {
                            assert(lowered_fields@[a] == before[a]);
                        } else {
                            assert(lowered_fields@[a] == before[a + 1]);
                        }
                    }
                    assert(value == before[k as int]);
                }
                let ghost ordered_before = ordered@;
                ordered.push(value);
                proof {
                    assert forall|a: int|
                        #![trigger ordered@[a]]
                        0 <= a < ordered@.len() implies payload_from(
                        fields,
                        ordered@[a].name@,
                        &ordered@[a].expr,
                    ) by {
                        if a < ordered_before.len() {
                            assert(ordered@[a] == ordered_before[a]);
                        }
                    }
                }
            },
            None => {
                return Err(
                    type_err(
                        cat4(
                            "struct literal ",
                            quoted(name).as_str(),
                            " is missing field ",
                            quoted(&def.fields[j].name).as_str(),
                        ),
                        line,
                        column,
                    ),
                );
            },
        }
        j = j + 1;
    }
    Ok(Expr::StructLiteral { name: name.clone(), fields: ordered, ty: Type::Struct(name.clone()) })
}

fn lower_named_variant_constructor(
    name: &String,
    fields: &Vec<syntax::StructFieldValue>,
    line: usize,
    column: usize,
    variant: &VariantInfo,
    env: &mut Env,
    t: &Tables,
) -> (r: Result<Expr, Diagnostic>)
    ensures
        lower_ok(r),
        r matches Ok(e) ==> expr_typed(&e) && struct_literal_from(name@, fields, &e) && e is EnumVariant,
    decreases fields, 0nat,
{
    let mut lowered: Vec<(String, Expr)> = Vec::new();
    let mut seen: Vec<String> = Vec::new();
    let mut i: usize = 0;
    while i < fields.len()
        invariant
            i <= fields@.len(),
            seen@.len() == i,
            lowered@.len() == i,
            forall|a: int| 0 <= a < i ==> (#[trigger] seen@[a])@ == fields@[a].name@,
            forall|a: int, b: int|
                0 <= a < b < i ==> (#[trigger] fields@[a]).name@ != (#[trigger] fields@[b]).name@,
            forall|a: int|
                0 <= a < i ==> (#[trigger] lowered@[a]).0@ == fields@[a].name@ && expr_from(
                    &fields@[a].expr,
                    &lowered@[a].1,
                ),
            forall|a: int| 0 <= a < lowered@.len() ==> expr_typed(&(#[trigger] lowered@[a]).1),
        decreases fields@.len() - i,
    {
        let field = &fields[i];
        let position = match position_of(&variant.payload_names, &field.name) {
            Some(p) => p,
            None => {
                return Err(
                    type_err(
                        cat4(
                            "enum variant ",
                            quoted(name).as_str(),
                            " has no named payload ",
                            quoted(&field.name).as_str(),
                        ),
                        field.line,
                        field.column,
                    ),
                );
            },
        };
        let ghost seen_before = seen@;
        if !insert_string(&mut seen, &field.name) {
            return Err(
                type_err(
                    cat4(
                        "duplicate named payload ",
                        quoted(&field.name).as_str(),
                        " in enum variant literal ",
                        quoted(name).as_str(),
                    ),
                    field.line,
                    field.column,
                ),
            );
        }
        if position >= variant.payload_tys.len() {
            return Err(
                type_err(
                    cat3(
                        "internal error: enum variant ",
                        quoted(name).as_str(),
                        " has mismatched named payload metadata",
                    ),
                    field.line,
                    field.column,
                ),
            );
        }
        let want = &variant.payload_tys[position];
        let value = match lower_expr_with_expected(&field.expr, Some(want), env, t) {
            Ok(x) => x,
            Err(d) => return Err(d),
        };
        if !types_equal(value.ty(), want) {
            return Err(
                type_err(
                    cat5(
                        "enum variant ",
                        quoted(name).as_str(),
                        " payload ",
                        quoted(&field.name).as_str(),
                        " expects ",
                    ).concat(type_display(want).as_str()).concat(", got ").concat(
                        type_display(value.ty()).as_str(),
                    ),
                    field.line,
                    field.column,
                ),
            );
        }
        if !want.is_copy() {
            if let Err(d) = move_lowered_owner_value(&value, env) {
                return Err(d);
            }
        }
        lowered.push((field.name.clone(), value));
        proof {
            assert forall|a: int| 0 <= a < i implies fields@[a].name@ != fields@[i as int].name@ by {
                assert(seen_before[a]@ == fields@[a].name@);
            }
        }
        i = i + 1;
    }
    proof {
        assert forall|a: int| 0 <= a < lowered@.len() implies field_index(
            fields@,
            (#[trigger] lowered@[a]).0@,
        ) == a by {
            assert forall|j: int| 0 <= j < a implies (#[trigger] fields@[j]).name@ != fields@[a].name@ by {
                assert(fields@[j].name@ != fields@[a].name@);
            }
            lemma_field_index(fields@, fields@[a].name@, a);
        }
    }
    let mut payloads: Vec<Expr> = Vec::new();
    let mut j: usize = 0;
    while j < variant.payload_names.len()
        invariant
            j <= variant.payload_names@.len(),
            payloads@.len() == j,
            forall|a: int| 0 <= a < lowered@.len() ==> expr_typed(&(#[trigger] lowered@[a]).1),
            forall|a: int| 0 <= a < payloads@.len() ==> expr_typed(&(#[trigger] payloads@[a])),
            forall|a: int|
                #![trigger lowered@[a]]
                0 <= a < lowered@.len() ==> payload_from(fields, lowered@[a].0@, &lowered@[a].1),
            forall|a: int|
                #![trigger payloads@[a]]
                0 <= a < payloads@.len() ==> payload_from(
                    fields,
                    variant.payload_names@[a]@,
                    &payloads@[a],
                ),
        decreases variant.payload_names@.len() - j,
    {
        let mut found: Option<usize> = None;
        let mut k: usize = 0;
        while k < lowered.len()
            invariant
                found matches Some(x) ==> x < lowered@.len() && lowered@[x as int].0@
                    == variant.payload_names@[j as int]@,
                j < variant.payload_names@.len(),
                payloads@.len() == j,
                forall|a: int|
                    #![trigger lowered@[a]]
                    0 <= a < lowered@.len() ==> payload_from(fields, lowered@[a].0@, &lowered@[a].1),
                forall|a: int|
                    #![trigger payloads@[a]]
                    0 <= a < payloads@.len() ==> payload_from(
                        fields,
                        variant.payload_names@[a]@,
                        &payloads@[a],
                    ),
                forall|a: int| 0 <= a < lowered@.len() ==> expr_typed(&(#[trigger] lowered@[a]).1),
                forall|a: int| 0 <= a < payloads@.len() ==> expr_typed(&(#[trigger] payloads@[a])),
            decreases lowered@.len() - k,
        {
            if lowered[k].0 == variant.payload_names[j] {
                found = Some(k);
                break;
            }
            k = k + 1;
        }
        match found {
            Some(k) => {
                let ghost before = lowered@;
                let (_, value) = lowered.remove(k);
                proof {
                    assert(expr_typed(&before[k as int].1));
                    assert forall|a: int| 0 <= a < lowered@.len() implies expr_typed(&(#[trigger] lowered@[a]).1)
                        && payload_from(fields, lowered@[a].0@, &lowered@[a].1) by {
                        if a < k {
                            assert(lowered@[a] == before[a]);
                        } else {
                            assert(lowered@[a] == before[a + 1]);
                        }
                    }
                    assert(value == before[k as int].1);
                }
                let ghost payloads_before = payloads@;
                payloads.push(value);
                proof {
                    assert forall|a: int|
                        #![trigger payloads@[a]]
                        0 <= a < payloads@.len() implies payload_from(
                        fields,
                        variant.payload_names@[a]@,
                        &payloads@[a],
                    ) by {
                        if a < payloads_before.len() {
                            assert(payloads@[a] == payloads_before[a]);
                        }
                    }
                }
            },
            None => {
                return Err(
                    type_err(
                        cat4(
                            "enum variant literal ",
                            quoted(name).as_str(),
                            " is missing named payload ",
                            quoted(&variant.payload_names[j]).as_str(),
                        ),
                        line,
                        column,
                    ),
                );
            },
        }
        j = j + 1;
    }
    Ok(
        Expr::EnumVariant {
            enum_name: variant.enum_name.clone(),
            variant: name.clone(),
            field_names: clone_strings(&variant.payload_names),
            payloads,
            ty: Type::Enum(variant.enum_name.clone()),
        },
    )
}

fn lower_tuple_literal(
    elements: &Vec<syntax::Expr>,
    line: usize,
    column: usize,
    env: &mut Env,
    t: &Tables,
) -> (r: Result<Expr, Diagnostic>)
    ensures
        lower_ok(r),
        r matches Ok(e) ==> expr_typed(&e) && match e {
            Expr::TupleLiteral { elements: x, .. } => exprs_from(elements, &x),
            _ => false,
        },
    decreases elements, 0nat,
{
    let mut lowered: Vec<Expr> = Vec::new();
    let mut tys: Vec<Type> = Vec::new();
    let mut temporary: Vec<Vec<String>> = Vec::new();
    let mut i: usize = 0;
    while i < elements.len()
        invariant
            i <= elements@.len(),
            lowered@.len() == i,
            forall|a: int| 0 <= a < lowered@.len() ==> expr_typed(&(#[trigger] lowered@[a])),
            forall|a: int| 0 <= a < i ==> expr_from(&elements@[a], &(#[trigger] lowered@[a])),
        decreases elements@.len() - i,
    {
        let e = match lower_expr_with_expected(&elements[i], None, env, t) {
            Ok(x) => x,
            Err(d) => return Err(d),
        };
        if let Err(d) = record_temporary_borrows(&e, env, t, &mut temporary) {
            return Err(d);
        }
        if !e.ty().is_copy() {
            if let Err(d) = move_lowered_owner_value(&e, env) {
                return Err(d);
            }
        }
        tys.push(clone_type(e.ty()));
        lowered.push(e);
        i = i + 1;
    }
    release_temporary_borrows(&temporary, env);
    if lowered.len() < 2 {
        return Err(type_err_s("tuple literals require at least two elements", line, column));
    }
    Ok(Expr::TupleLiteral { elements: lowered, ty: Type::Tuple(tys) })
}

fn lower_map_literal(
    entries: &Vec<syntax::MapEntry>,
    line: usize,
    column: usize,
    env: &mut Env,
    t: &Tables,
) -> (r: Result<Expr, Diagnostic>)
    ensures
        lower_ok(r),
        r matches Ok(e) ==> expr_typed(&e) && match e {
            Expr::MapLiteral { entries: x, .. } => entries_from(entries, &x),
            _ => false,
        },
    decreases entries, 0nat,
{
    if entries.len() == 0 {
        return Err(type_err_s("empty map literals are not yet supported in stage1", line, column));
    }
    let mut lowered: Vec<MapEntry> = Vec::new();
    let mut key_ty: Option<Type> = None;
    let mut value_ty: Option<Type> = None;
    let mut temporary: Vec<Vec<String>> = Vec::new();
    let mut i: usize = 0;
    while i < entries.len()
        invariant
            i <= entries@.len(),
            lowered@.len() == i,
            forall|a: int|
                0 <= a < i ==> expr_from(&entries@[a].key, &(#[trigger] lowered@[a]).key) && expr_from(
                    &entries@[a].value,
                    &lowered@[a].value,
                ),
            i > 0 ==> key_ty is Some && value_ty is Some,
            forall|a: int| 0 <= a < lowered@.len() ==> expr_typed(&(#[trigger] lowered@[a]).key) && expr_typed(
                &lowered@[a].value,
            ),
        decreases entries@.len() - i,
    {
        let entry = &entries[i];
        proof {
            assert(decreases_to!(entries => entries[i as int]));
        }
        let k = match lower_expr_with_expected(&entry.key, None, env, t) {
            Ok(x) => x,
            Err(d) => return Err(d),
        };
        let v = match lower_expr_with_expected(&entry.value, None, env, t) {
            Ok(x) => x,
            Err(d) => return Err(d),
        };
        match &key_ty {
            Some(want) => {
                if !types_equal(k.ty(), want) {
                    return Err(
                        type_err(
                            cat4(
                                "map literal expects matching key types, got ",
                                type_display(want).as_str(),
                                " and ",
                                type_display(k.ty()).as_str(),
                            ),
                            entry.line,
                            entry.column,
                        ),
                    );
                }
            },
            None => {
                key_ty = Some(clone_type(k.ty()));
            },
        }
        match &value_ty {
            Some(want) => {
                if !types_equal(v.ty(), want) {
                    return Err(
                        type_err(
                            cat4(
                                "map literal expects matching value types, got ",
                                type_display(want).as_str(),
                                " and ",
                                type_display(v.ty()).as_str(),
                            ),
                            entry.line,
                            entry.column,
                        ),
                    );
                }
            },
            None => {
                value_ty = Some(clone_type(v.ty()));
            },
        }
        if !k.ty().supports_map_key() {
            return Err(
                type_err(
                    cat3("map literal key type ", type_display(k.ty()).as_str(), " is not supported"),
                    entry.line,
                    entry.column,
                ),
            );
        }
        if let Err(d) = record_temporary_borrows(&k, env, t, &mut temporary) {
            return Err(d);
        }
        if let Err(d) = record_temporary_borrows(&v, env, t, &mut temporary) {
            return Err(d);
        }
        if !k.ty().is_copy() {
            if let Err(d) = move_lowered_owner_value(&k, env) {
                return Err(d);
            }
        }
        if !v.ty().is_copy() {
            if let Err(d) = move_lowered_owner_value(&v, env) {
                return Err(d);
            }
        }
        lowered.push(MapEntry { key: k, value: v });
        i = i + 1;
    }
    release_temporary_borrows(&temporary, env);
    match (key_ty, value_ty) {
        (Some(kt), Some(vt)) => Ok(
            Expr::MapLiteral { entries: lowered, ty: Type::Dict(Box::new(kt), Box::new(vt)) },
        ),
        _ => Err(type_err_s("empty map literals are not yet supported in stage1", line, column)),
    }
}

fn lower_array_literal(
    elements: &Vec<syntax::Expr>,
    line: usize,
    column: usize,
    env: &mut Env,
    t: &Tables,
) -> (r: Result<Expr, Diagnostic>)
    ensures
        lower_ok(r),
        r matches Ok(e) ==> expr_typed(&e) && match e {
            Expr::ArrayLiteral { elements: x, .. } => exprs_from(elements, &x),
            _ => false,
        },
    decreases elements, 0nat,
{
    if elements.len() == 0 {
        return Err(type_err_s("empty array literals are not yet supported in stage1", line, column));
    }
    let mut lowered: Vec<Expr> = Vec::new();
    let mut element_ty: Option<Type> = None;
    let mut temporary: Vec<Vec<String>> = Vec::new();
    let mut i: usize = 0;
    while i < elements.len()
        invariant
            i <= elements@.len(),
            lowered@.len() == i,
            forall|a: int| 0 <= a < i ==> expr_from(&elements@[a], &(#[trigger] lowered@[a])),
            i > 0 ==> element_ty is Some,
            forall|a: int| 0 <= a < lowered@.len() ==> expr_typed(&(#[trigger] lowered@[a])),
        decreases elements@.len() - i,
    {
        let e = match lower_expr_with_expected(&elements[i], None, env, t) {
            Ok(x) => x,
            Err(d) => return Err(d),
        };
        match &element_ty {
            Some(want) => {
                if !types_equal(e.ty(), want) {
                    return Err(
                        type_err(
                            cat4(
                                "array literal expects matching element types, got ",
                                type_display(want).as_str(),
                                " and ",
                                type_display(e.ty()).as_str(),
                            ),
                            elements[i].line(),
                            elements[i].column(),
                        ),
                    );
                }
            },
            None => {
                element_ty = Some(clone_type(e.ty()));
            },
        }
        if let Err(d) = record_temporary_borrows(&e, env, t, &mut temporary) {
            return Err(d);
        }
        if !e.ty().is_copy() {
            if let Err(d) = move_lowered_owner_value(&e, env) {
                return Err(d);
            }
        }
        lowered.push(e);
        i = i + 1;
    }
    release_temporary_borrows(&temporary, env);
    match element_ty {
        Some(et) => Ok(Expr::ArrayLiteral { elements: lowered, ty: Type::Array(Box::new(et)) }),
        None => Err(type_err_s("empty array literals are not yet supported in stage1", line, column)),
    }
}

// ----- Statements ----------------------------------------------------------------

/// The value of a condition that is known without running the program: a
/// boolean literal, or a comparison of two literals.
pub open spec fn spec_static_bool(e: &Expr) -> Option<bool> {
    match e {
        Expr::Literal { value: LiteralValue::Bool(v), .. } => Some(*v),
        Expr::BinaryCompare { op, lhs, rhs, .. } => match (&**lhs, &**rhs) {
            (Expr::Literal { value: lv, .. }, Expr::Literal { value: rv, .. }) => match (lv, rv) {
                (LiteralValue::Int(a), LiteralValue::Int(b)) => Some(
                    match op {
                        CompareOp::Eq => *a == *b,
                        CompareOp::Ne => *a != *b,
                        CompareOp::Lt => *a < *b,
                        CompareOp::Le => *a <= *b,
                        CompareOp::Gt => *a > *b,
                        CompareOp::Ge => *a >= *b,
                    },
                ),
                (LiteralValue::Bool(a), LiteralValue::Bool(b)) => match op {
                    CompareOp::Eq => Some(*a == *b),
                    CompareOp::Ne => Some(*a != *b),
                    _ => None,
                },
                (LiteralValue::String(a), LiteralValue::String(b)) => match op {
                    CompareOp::Eq => Some(a@ == b@),
                    CompareOp::Ne => Some(a@ != b@),
                    _ => None,
                },
                _ => None,
            },
            _ => None,
        },
        _ => None,
    }
}

fn static_bool_value(e: &Expr) -> (r: Option<bool>)
    ensures
        r == spec_static_bool(e),
{
    match e {
        Expr::Literal { value: LiteralValue::Bool(v), .. } => Some(*v),
        Expr::BinaryCompare { op, lhs, rhs, .. } => match (&**lhs, &**rhs) {
            (Expr::Literal { value: lv, .. }, Expr::Literal { value: rv, .. }) => match (lv, rv) {
                (LiteralValue::Int(a), LiteralValue::Int(b)) => Some(
                    match op {
                        CompareOp::Eq => *a == *b,
                        CompareOp::Ne => *a != *b,
                        CompareOp::Lt => *a < *b,
                        CompareOp::Le => *a <= *b,
                        CompareOp::Gt => *a > *b,
                        CompareOp::Ge => *a >= *b,
                    },
                ),
                (LiteralValue::Bool(a), LiteralValue::Bool(b)) => match op {
                    CompareOp::Eq => Some(*a == *b),
                    CompareOp::Ne => Some(*a != *b),
                    _ => None,
                },
                (LiteralValue::String(a), LiteralValue::String(b)) => match op {
                    CompareOp::Eq => Some(*a == *b),
                    CompareOp::Ne => Some(*a != *b),
                    _ => None,
                },
                _ => None,
            },
            _ => None,
        },
        _ => None,
    }
}

/// Whether control never leaves this statement other than by returning.
pub open spec fn stmt_returns(s: &Stmt) -> bool
    decreases s,
{
    match s {
        Stmt::Return(_) => true,
        Stmt::If { cond, then_block, else_block } => match else_block {
            Some(eb) => match spec_static_bool(cond) {
                Some(true) => block_returns(then_block),
                Some(false) => block_returns(eb),
                None => block_returns(then_block) && block_returns(eb),
            },
            None => spec_static_bool(cond) == Some(true) && block_returns(then_block),
        },
        Stmt::Match { arms, .. } => forall|i: int|
            0 <= i < arms.len() ==> block_returns(&(#[trigger] arms@[i]).body),
        _ => false,
    }
}

/// Whether a block always ends by returning: its last statement does.
pub open spec fn block_returns(b: &Vec<Stmt>) -> bool
    decreases b,
{
    b.len() > 0 && stmt_returns(&b@[b.len() - 1])
}

/// A type is copied, not moved, exactly when its values own nothing: so a
/// `Result` or `Option` holding a string is moved, and each part of a copied
/// `Result`, `Option` or tuple is itself copied.
pub proof fn lemma_copy_iff_owns_nothing(t: &Type)
    ensures
        t.spec_is_copy() <==> !t.owns_data(),
        t matches Type::Result(ok, err) ==> (t.spec_is_copy() ==> ok.spec_is_copy() && err.spec_is_copy()),
        t matches Type::Option(inner) ==> (t.spec_is_copy() ==> inner.spec_is_copy()),
    decreases t,
{
    match t {
        Type::Option(inner) => {
            lemma_copy_iff_owns_nothing(inner);
        },
        Type::Result(ok, err) => {
            lemma_copy_iff_owns_nothing(ok);
            lemma_copy_iff_owns_nothing(err);
        },
        Type::Tuple(elements) => {
            assert forall|i: int| 0 <= i < elements.len() implies ((#[trigger] elements@[i]).spec_is_copy()
                <==> !elements@[i].owns_data()) by {
                lemma_copy_iff_owns_nothing(&elements@[i]);
            }
        },
        _ => {},
    }
}

/// Some run of `s` reaches its end: it is not a `return`, an `if` has a branch
/// that can run and reach its end (a missing `else` counts as one), a `match`
/// has such an arm, and every other statement can finish.
pub open spec fn may_complete(s: &Stmt) -> bool
    decreases s,
{
    match s {
        Stmt::Return(_) => false,
        Stmt::If { cond, then_block, else_block } => {
            let then_runs = spec_static_bool(cond) != Some(false) && block_may_complete(then_block);
            let else_runs = spec_static_bool(cond) != Some(true) && match else_block {
                Some(eb) => block_may_complete(eb),
                None => true,
            };
            then_runs || else_runs
        },
        Stmt::Match { arms, .. } => exists|i: int|
            0 <= i < arms.len() && block_may_complete(&(#[trigger] arms@[i]).body),
        _ => true,
    }
}

/// Some run of the block reaches its end: every statement can finish.
pub open spec fn block_may_complete(b: &Vec<Stmt>) -> bool
    decreases b,
{
    forall|i: int| 0 <= i < b.len() ==> may_complete(&(#[trigger] b@[i]))
}

/// A statement that the checker counts as always returning has no run that
/// reaches its end: in particular an `if` whose condition is not known needs
/// both branches to return.
pub proof fn lemma_returning_statement_never_completes(s: &Stmt)
    ensures
        stmt_returns(s) ==> !may_complete(s),
    decreases s,
{
    match s {
        Stmt::If { cond, then_block, else_block } => {
            lemma_returning_block_never_completes(then_block);
            if let Some(eb) = else_block {
                lemma_returning_block_never_completes(eb);
            }
        },
        Stmt::Match { arms, .. } => {
            assert forall|i: int| 0 <= i < arms.len() implies (block_returns(&(#[trigger] arms@[i]).body)
                ==> !block_may_complete(&arms@[i].body)) by {
                lemma_returning_block_never_completes(&arms@[i].body);
            }
        },
        _ => {},
    }
}

/// A block that the checker counts as always returning has no run that
/// reaches its end.
pub proof fn lemma_returning_block_never_completes(b: &Vec<Stmt>)
    ensures
        block_returns(b) ==> !block_may_complete(b),
    decreases b,
{
    if b.len() > 0 {
        assert(decreases_to!(b => b@[b.len() - 1]));
        lemma_returning_statement_never_completes(&b@[b.len() - 1]);
    }
}

/// In a checked program no function body has a run that reaches its end
/// without returning.
pub proof fn lemma_checked_functions_always_return(p: &Program)
    requires
        program_checked(p),
    ensures
        forall|i: int| 0 <= i < p.functions@.len() ==> !block_may_complete(&(#[trigger] p.functions@[i]).body),
{
    assert forall|i: int| 0 <= i < p.functions@.len() implies !block_may_complete(
        &(#[trigger] p.functions@[i]).body,
    ) by {
        lemma_returning_block_never_completes(&p.functions@[i].body);
    }
}

impl Stmt {
    /// Whether control never leaves this statement other than by returning.
    #[verifier::loop_isolation(false)]
    pub fn always_returns(&self) -> (b: bool)
        ensures
            b == stmt_returns(self),
        decreases self,
    {
        match self {
            Stmt::Return(_) => true,
            Stmt::If { cond, then_block, else_block } => match else_block {
                Some(eb) => match static_bool_value(cond) {
                    Some(true) => block_always_returns(then_block),
                    Some(false) => block_always_returns(eb),
                    None => block_always_returns(then_block) && block_always_returns(eb),
                },
                None => {
                    let known = static_bool_value(cond);
                    known == Some(true) && block_always_returns(then_block)
                },
            },
            Stmt::Match { arms, .. } => {
                let mut i: usize = 0;
                while i < arms.len()
                    invariant
                        i <= arms@.len(),
                        forall|j: int| 0 <= j < i ==> block_returns(&(#[trigger] arms@[j]).body),
                    decreases arms@.len() - i,
                {
                    proof {
                        assert(decreases_to!(arms => arms[i as int]));
                    }
                    if !block_always_returns(&arms[i].body) {
                        return false;
                    }
                    i = i + 1;
                }
                true
            },
            _ => false,
        }
    }
}

/// Whether a block always ends by returning.
pub fn block_always_returns(b: &Vec<Stmt>) -> (r: bool)
    ensures
        r == block_returns(b),
    decreases b,
{
    if b.len() == 0 {
        return false;
    }
    proof {
        assert(decreases_to!(b => b[b.len() - 1]));
    }
    b[b.len() - 1].always_returns()
}

pub open spec fn printable(t: &Type) -> bool {
    *t is Int || *t is Bool || *t is String
}

/// The statement-level typing rules the checker enforces: a `let` holds a value
/// of its declared type, conditions are booleans, `print` takes a scalar, a
/// `return` stands inside a function and gives a value of its return type
/// `ret`, and every expression keeps the rules of `expr_typed`.
pub open spec fn stmt_typed(s: &Stmt, ret: Option<Type>) -> bool
    decreases s,
{
    match s {
        Stmt::Let { ty, expr, .. } => type_eq(expr.spec_ty(), ty) && expr_typed(expr),
        Stmt::Print(e) => printable(e.spec_ty()) && expr_typed(e),
        Stmt::If { cond, then_block, else_block } => {
            &&& *cond.spec_ty() is Bool
            &&& expr_typed(cond)
            &&& block_typed(then_block, ret)
            &&& match else_block {
                Some(eb) => block_typed(eb, ret),
                None => true,
            }
        },
        Stmt::While { cond, body } => *cond.spec_ty() is Bool && expr_typed(cond) && block_typed(body, ret),
        Stmt::Match { expr, arms } => expr_typed(expr) && forall|i: int|
            0 <= i < arms.len() ==> block_typed(&(#[trigger] arms@[i]).body, ret),
        Stmt::Return(e) => expr_typed(e) && match ret {
            Some(t) => type_eq(e.spec_ty(), &t),
            None => false,
        },
    }
}

pub open spec fn block_typed(b: &Vec<Stmt>, ret: Option<Type>) -> bool
    decreases b,
{
    forall|i: int| 0 <= i < b.len() ==> stmt_typed(&(#[trigger] b@[i]), ret)
}

fn is_bool(t: &Type) -> (b: bool)
    ensures
        b <==> *t is Bool,
{
    match t {
        Type::Bool => true,
        _ => false,
    }
}

fn lookup_state(env: &Env, name: &String) -> (r: Option<(bool, usize)>)
    ensures
        r is None <==> forall|j: int| 0 <= j < env@.len() ==> (#[trigger] env@[j]).0@ != name@,
        r matches Some(x) ==> exists|k: int|
            0 <= k < env@.len() && (#[trigger] env@[k]).0@ == name@ && env@[k].1.moved == x.0
                && env@[k].1.active_borrow_count == x.1 && forall|j: int|
                0 <= j < k ==> (#[trigger] env@[j]).0@ != name@,
{
    match env_index(env, name) {
        Some(i) => Some((env[i].1.moved, env[i].1.active_borrow_count)),
        None => None,
    }
}

pub open spec fn spec_merge_borrow_count(
    before: usize,
    then_returns: bool,
    then_after: Option<usize>,
    else_returns: bool,
    else_after: Option<usize>,
) -> usize {
    let a = if then_returns {
        before
    } else {
        match then_after {
            Some(x) => x,
            None => before,
        }
    };
    let b = if else_returns {
        before
    } else {
        match else_after {
            Some(x) => x,
            None => before,
        }
    };
    if a >= b {
        a
    } else {
        b
    }
}

/// The live borrows of a name after a branch: the most that either path leaves.
fn merge_borrow_count(
    before: usize,
    then_returns: bool,
    then_after: Option<usize>,
    else_returns: bool,
    else_after: Option<usize>,
) -> (r: usize)
    ensures
        r == spec_merge_borrow_count(before, then_returns, then_after, else_returns, else_after),
{
    let a = if then_returns {
        before
    } else {
        match then_after {
            Some(x) => x,
            None => before,
        }
    };
    let b = if else_returns {
        before
    } else {
        match else_after {
            Some(x) => x,
            None => before,
        }
    };
    if a >= b {
        a
    } else {
        b
    }
}

/// The state after an `if`: a name is moved if a path that goes on moved it.
fn merge_branch_state(
    before: &Env,
    then_after: &Env,
    then_returns: bool,
    else_after: Option<&Env>,
    else_returns: bool,
) -> (r: Env)
    ensures
        r@.len() == before@.len(),
        forall|j: int| 0 <= j < before@.len() ==> (#[trigger] r@[j]).0@ == before@[j].0@,
{
    let mut out: Env = Vec::new();
    let mut i: usize = 0;
    while i < before.len()
        invariant
            i <= before@.len(),
            out@.len() == i,
            forall|j: int| 0 <= j < i ==> (#[trigger] out@[j]).0@ == before@[j].0@,
        decreases before@.len() - i,
    {
        let name = &before[i].0;
        let b = &before[i].1;
        let then_state = lookup_state(then_after, name);
        let else_state = match else_after {
            Some(e) => lookup_state(e, name),
            None => None,
        };
        let then_moved = if then_returns {
            b.moved
        } else {
            match then_state {
                Some(x) => x.0,
                None => b.moved,
            }
        };
        let else_moved = if else_returns {
            b.moved
        } else {
            match else_state {
                Some(x) => x.0,
                None => b.moved,
            }
        };
        let count = merge_borrow_count(
            b.active_borrow_count,
            then_returns,
            match then_state {
                Some(x) => Some(x.1),
                None => None,
            },
            else_returns,
            match else_state {
                Some(x) => Some(x.1),
                None => None,
            },
        );
        out.push((name.clone(), rebind(b, then_moved || else_moved, count)));
        i = i + 1;
    }
    out
}

/// The state after a loop: moves are as before the loop (the body may run
/// zero times, and a body that moves an outer value is refused), and borrow
/// counts are the larger of before and after one pass.
fn merge_loop_state(before: &Env, body_after: &Env, body_returns: bool) -> (r: Env)
    ensures
        r@.len() == before@.len(),
        forall|j: int|
            0 <= j < before@.len() ==> (#[trigger] r@[j]).0@ == before@[j].0@ && r@[j].1.moved
                == before@[j].1.moved && r@[j].1.active_borrow_count
                >= before@[j].1.active_borrow_count,
{
    let mut out: Env = Vec::new();
    let mut i: usize = 0;
    while i < before.len()
        invariant
            i <= before@.len(),
            out@.len() == i,
            forall|j: int|
                0 <= j < i ==> (#[trigger] out@[j]).0@ == before@[j].0@ && out@[j].1.moved
                    == before@[j].1.moved && out@[j].1.active_borrow_count
                    >= before@[j].1.active_borrow_count,
        decreases before@.len() - i,
    {
        let b = &before[i].1;
        let count = if body_returns {
            b.active_borrow_count
        } else {
            let body_count = match lookup_state(body_after, &before[i].0) {
                Some(x) => x.1,
                None => b.active_borrow_count,
            };
            if b.active_borrow_count >= body_count {
                b.active_borrow_count
            } else {
                body_count
            }
        };
        out.push((before[i].0.clone(), rebind(b, b.moved, count)));
        i = i + 1;
    }
    out
}

/// The state after a `match`: a name is moved if an arm that goes on moved it,
/// and its borrow count is the most any arm leaves.
fn merge_match_state(before: &Env, arm_states: &Vec<(Env, bool)>) -> (r: Env)
    ensures
        r@.len() == before@.len(),
        forall|j: int| 0 <= j < before@.len() ==> (#[trigger] r@[j]).0@ == before@[j].0@,
{
    let mut out: Env = Vec::new();
    let mut i: usize = 0;
    while i < before.len()
        invariant
            i <= before@.len(),
            out@.len() == i,
            forall|j: int| 0 <= j < i ==> (#[trigger] out@[j]).0@ == before@[j].0@,
        decreases before@.len() - i,
    {
        let name = &before[i].0;
        let b = &before[i].1;
        let mut moved = false;
        let mut count: Option<usize> = None;
        let mut k: usize = 0;
        while k < arm_states.len()
            invariant
                i < before@.len(),
            decreases arm_states@.len() - k,
        {
            let state = lookup_state(&arm_states[k].0, name);
            let arm_moved = if arm_states[k].1 {
                b.moved
            } else {
                match state {
                    Some(x) => x.0,
                    None => b.moved,
                }
            };
            moved = moved || arm_moved;
            let arm_count = if arm_states[k].1 {
                Some(b.active_borrow_count)
            } else {
                match state {
                    Some(x) => Some(x.1),
                    None => None,
                }
            };
            count = match (count, arm_count) {
                (Some(a), Some(c)) => Some(
                    if a >= c {
                        a
                    } else {
                        c
                    },
                ),
                (None, c) => c,
                (a, None) => a,
            };
            k = k + 1;
        }
        let final_count = match count {
            Some(c) => c,
            None => b.active_borrow_count,
        };
        out.push((name.clone(), rebind(b, moved, final_count)));
        i = i + 1;
    }
    out
}

fn clone_variant_defs(v: &Vec<EnumVariantDef>) -> (r: Vec<EnumVariantDef>)
    ensures
        r@.len() == v@.len(),
        forall|j: int| 0 <= j < v@.len() ==> (#[trigger] r@[j]).name@ == v@[j].name@,
{
    let mut out: Vec<EnumVariantDef> = Vec::new();
    let mut i: usize = 0;
    while i < v.len()
        invariant
            i <= v@.len(),
            out@.len() == i,
            forall|j: int| 0 <= j < i ==> (#[trigger] out@[j]).name@ == v@[j].name@,
        decreases v@.len() - i,
    {
        out.push(
            EnumVariantDef {
                name: v[i].name.clone(),
                payload_tys: clone_types(&v[i].payload_tys),
                payload_names: clone_strings(&v[i].payload_names),
            },
        );
        i = i + 1;
    }
    out
}

fn single_payload_variant(name: &str, payload: &Type) -> (v: EnumVariantDef)
    ensures
        v.name@ == name@,
        v.payload_tys@.len() == 1,
        v.payload_names@.len() == 0,
{
    EnumVariantDef {
        name: String::from_str(name),
        payload_tys: vec![clone_type(payload)],
        payload_names: Vec::new(),
    }
}

/// The variants a `match` on a value of type `ty` must cover: those of a
/// declared enum, `Some`/`None` for an option, `Ok`/`Err` for a result.
fn match_variants(ty: &Type, t: &Tables) -> (r: Option<(String, Vec<EnumVariantDef>)>)
    ensures
        (*ty is Option || *ty is Result) ==> r is Some,
        r is Some ==> (*ty is Option || *ty is Result || *ty is Enum),
        *ty is Option ==> (r matches Some((_, vs)) && vs@.len() == 2 && vs@[0].name@ == "Some"@ && vs@[1].name@
            == "None"@),
        *ty is Result ==> (r matches Some((_, vs)) && vs@.len() == 2 && vs@[0].name@ == "Ok"@ && vs@[1].name@
            == "Err"@),
{
    match ty {
        Type::Enum(name) => match find_enum(&t.enums, name) {
            Some(def) => Some((name.clone(), clone_variant_defs(&def.variants))),
            None => None,
        },
        Type::Option(inner) => Some(
            (
                String::from_str("Option"),
                vec![
                    single_payload_variant("Some", inner),
                    EnumVariantDef {
                        name: String::from_str("None"),
                        payload_tys: Vec::new(),
                        payload_names: Vec::new(),
                    },
                ],
            ),
        ),
        Type::Result(ok, er) => Some(
            (
                String::from_str("Result"),
                vec![single_payload_variant("Ok", ok), single_payload_variant("Err", er)],
            ),
        ),
        _ => None,
    }
}

/// Some arm of `arms` is for the variant `v`.
pub open spec fn has_arm(arms: Seq<syntax::MatchArm>, v: Seq<char>) -> bool {
    exists|j: int| 0 <= j < arms.len() && (#[trigger] arms[j]).variant@ == v
}

/// The position of the first name of `names` that reads `n`, from `i` on, or -1.
spec fn name_index_from(names: Seq<String>, n: Seq<char>, i: nat) -> int
    decreases names.len() - i,
{
    if i >= names.len() {
        -1
    } else if names[i as int]@ == n {
        i as int
    } else {
        name_index_from(names, n, i + 1)
    }
}

proof fn lemma_name_index(names: Seq<String>, n: Seq<char>, i: nat, k: int)
    requires
        i <= k <= names.len(),
        forall|j: int| i <= j < k ==> (#[trigger] names[j])@ != n,
        k < names.len() ==> names[k]@ == n,
    ensures
        name_index_from(names, n, i) == (if k < names.len() {
            k
        } else {
            -1
        }),
    decreases k - i,
{
    if i < k {
        lemma_name_index(names, n, i + 1, k);
    }
}

/// The payload that a match binding takes when the matched value is written
/// out as a literal of the arm's variant: the payload at the binding's
/// position, or, for named payloads, the one under the binding's name.
spec fn binding_payload(matched: &Expr, variant_name: Seq<char>, binding_name: Seq<char>, index: usize) -> Option<
    Expr,
> {
    match matched {
        Expr::EnumVariant { variant, field_names, payloads, .. } => if variant@ != variant_name {
            None
        } else if field_names@.len() == 0 {
            if index < payloads@.len() {
                Some(payloads@[index as int])
            } else {
                None
            }
        } else {
            let k = name_index_from(field_names@, binding_name, 0);
            if 0 <= k < payloads@.len() {
                Some(payloads@[k])
            } else {
                None
            }
        },
        _ => None,
    }
}

/// The payload expression that a match binding takes, when the matched value
/// is written out as a variant literal of the arm's variant.
fn match_binding_payload_expr<'a>(
    matched: &'a Expr,
    variant_name: &String,
    binding_name: &String,
    binding_index: usize,
) -> (r: Option<&'a Expr>)
    ensures
        match r {
            Some(p) => binding_payload(matched, variant_name@, binding_name@, binding_index) == Some(*p),
            None => binding_payload(matched, variant_name@, binding_name@, binding_index) is None,
        },
{
    match matched {
        Expr::EnumVariant { variant, field_names, payloads, .. } => {
            if *variant != *variant_name {
                return None;
            }
            if field_names.len() == 0 {
                if binding_index < payloads.len() {
                    return Some(&payloads[binding_index]);
                }
                return None;
            }
            let found = position_of(field_names, binding_name);
            proof {
                match found {
                    Some(k) => lemma_name_index(field_names@, binding_name@, 0, k as int),
                    None => lemma_name_index(field_names@, binding_name@, 0, field_names@.len() as int),
                }
            }
            match found {
                Some(k) => {
                    if k < payloads.len() {
                        Some(&payloads[k])
                    } else {
                        None
                    }
                },
                None => None,
            }
        },
        _ => None,
    }
}

fn match_binding_borrow_origin(
    matched: &Expr,
    variant_name: &String,
    binding_name: &String,
    binding_index: usize,
    payload_ty: &Type,
    env: &Env,
    t: &Tables,
) -> (r: Option<BorrowOrigin>)
    ensures
        r == (if !type_holds_borrow(*payload_ty, t.structs@, t.enums@) {
            None
        } else {
            match binding_payload(matched, variant_name@, binding_name@, binding_index) {
                Some(p) => origin_of(&p, env@, t),
                None => origin_of(matched, env@, t),
            }
        }),
{
    if !contains_borrowed_slice_type(payload_ty, &t.structs, &t.enums) {
        return None;
    }
    match match_binding_payload_expr(matched, variant_name, binding_name, binding_index) {
        Some(payload) => expr_borrow_origin(payload, env, t),
        None => expr_borrow_origin(matched, env, t),
    }
}

fn match_binding_borrowed_owners(
    matched: &Expr,
    variant_name: &String,
    binding_name: &String,
    binding_index: usize,
    payload_ty: &Type,
    env: &Env,
    t: &Tables,
) -> (r: Vec<String>)
    ensures
        r@ == (if !type_holds_borrow(*payload_ty, t.structs@, t.enums@) {
            Seq::empty()
        } else {
            match binding_payload(matched, variant_name@, binding_name@, binding_index) {
                Some(p) => owners_of(&p, env@, t),
                None => owners_of(matched, env@, t),
            }
        }),
{
    if !contains_borrowed_slice_type(payload_ty, &t.structs, &t.enums) {
        return Vec::new();
    }
    match match_binding_payload_expr(matched, variant_name, binding_name, binding_index) {
        Some(payload) => expr_borrowed_owners(payload, env, t),
        None => expr_borrowed_owners(matched, env, t),
    }
}

fn lower_expr(expr: &syntax::Expr, env: &mut Env, t: &Tables) -> (r: Result<Expr, Diagnostic>)
    ensures
        lower_ok(r),
        r matches Ok(e) ==> expr_typed(&e) && expr_from(expr, &e),
        expr matches syntax::Expr::Literal(l) ==> r == Ok::<Expr, Diagnostic>(spec_lower_literal(*l))
            && final(env)@ == old(env)@,
        expr matches syntax::Expr::Call { name, args, .. } ==> intrinsic_outcome(
            name@,
            args@,
            t.capabilities,
            r,
        ),
        expr matches syntax::Expr::VarRef { name, .. } ==> var_use_outcome(old(env)@, name@, r)
            && final(env)@ == old(env)@,
        expr matches syntax::Expr::VarRef { name, .. } ==> (name@ == "None"@ && unbound(old(env)@, name@) ==> (
        r matches Err(d) && none_without_context(d))),
        simple_env(old(env)@) ==> (expr matches syntax::Expr::BinaryAdd { lhs, rhs, .. } ==> add_outcome(
            model_of(old(env)@),
            **lhs,
            **rhs,
            r,
        ) && (value_type(model_of(old(env)@), **lhs) is Some && value_type(model_of(old(env)@), **rhs) is Some
            ==> final(env)@ == old(env)@)),
        simple_env(old(env)@) ==> (expr matches syntax::Expr::BinaryCompare { op, lhs, rhs, .. } ==> compare_outcome(
            model_of(old(env)@),
            *op,
            **lhs,
            **rhs,
            r,
        ) && (value_type(model_of(old(env)@), **lhs) is Some && value_type(model_of(old(env)@), **rhs) is Some
            ==> final(env)@ == old(env)@)),
{
    lower_expr_with_expected(expr, None, env, t)
}

/// The types a match arm binds, checked against the variant's payload.
fn arm_binding_types(arm: &syntax::MatchArm, variant_def: &EnumVariantDef) -> (r: Result<
    Vec<Type>,
    Diagnostic,
>)
    ensures
        r matches Err(d) ==> d.kind@ == "type"@,
        r matches Ok(v) ==> v@.len() == arm.bindings@.len(),
{
    let v = quoted(&arm.variant);
    if arm.is_named {
        if variant_def.payload_names.len() == 0 {
            return Err(
                type_err(
                    cat4("match arm ", v.as_str(), " uses named bindings, but variant ", v.as_str()).concat(
                        " is positional",
                    ),
                    arm.line,
                    arm.column,
                ),
            );
        }
        if arm.bindings.len() != variant_def.payload_names.len() {
            return Err(
                type_err(
                    cat4(
                        "match arm ",
                        v.as_str(),
                        " expects ",
                        usize_to_string(variant_def.payload_names.len()).as_str(),
                    ).concat(" named bindings, got ").concat(usize_to_string(arm.bindings.len()).as_str()),
                    arm.line,
                    arm.column,
                ),
            );
        }
        let mut seen: Vec<String> = Vec::new();
        let mut tys: Vec<Type> = Vec::new();
        let mut i: usize = 0;
        while i < arm.bindings.len()
            invariant
                i <= arm.bindings@.len(),
                tys@.len() == i,
            decreases arm.bindings@.len() - i,
        {
            let binding = &arm.bindings[i];
            let position = match position_of(&variant_def.payload_names, binding) {
                Some(p) => p,
                None => {
                    return Err(
                        type_err(
                            cat4("match arm ", v.as_str(), " has no named payload ", quoted(binding).as_str()),
                            arm.line,
                            arm.column,
                        ),
                    );
                },
            };
            if !insert_string(&mut seen, binding) {
                return Err(
                    type_err(
                        cat4("match arm ", v.as_str(), " repeats named payload ", quoted(binding).as_str()),
                        arm.line,
                        arm.column,
                    ),
                );
            }
            if position >= variant_def.payload_tys.len() {
                return Err(
                    type_err(
                        cat3(
                            "internal error: enum variant ",
                            v.as_str(),
                            " has mismatched named payload metadata",
                        ),
                        arm.line,
                        arm.column,
                    ),
                );
            }
            tys.push(clone_type(&variant_def.payload_tys[position]));
            i = i + 1;
        }
        Ok(tys)
    } else {
        if variant_def.payload_names.len() != 0 {
            return Err(
                type_err(
                    cat4("match arm ", v.as_str(), " must use named bindings for variant ", v.as_str()),
                    arm.line,
                    arm.column,
                ),
            );
        }
        if arm.bindings.len() != variant_def.payload_tys.len() {
            return Err(
                type_err(
                    cat4(
                        "match arm ",
                        v.as_str(),
                        " expects ",
                        usize_to_string(variant_def.payload_tys.len()).as_str(),
                    ).concat(" bindings, got ").concat(usize_to_string(arm.bindings.len()).as_str()),
                    arm.line,
                    arm.column,
                ),
            );
        }
        Ok(clone_types(&variant_def.payload_tys))
    }
}

fn join_names(names: &Vec<String>, sep: &str) -> (s: String)
    ensures
        s@ == strings_joined(names@, names@.len(), sep@),
{
    let mut out = String::new();
    let mut i: usize = 0;
    while i < names.len()
        invariant
            i <= names@.len(),
            out@ == strings_joined(names@, i as nat, sep@),
        decreases names@.len() - i,
    {
        if i > 0 {
            out = out.concat(sep);
        } else {
            assert(out@ + names@[0]@ =~= names@[0]@);
        }
        out = out.concat(names[i].as_str());
        i = i + 1;
    }
    out
}

/// Checks the arms of a `match` on the already lowered value `matched`.
/// `h` is the checked form of the source statement `s`: the same kind of
/// statement with the same names and checked expressions; a branch or loop
/// body that a constant condition rules out is left empty.
pub open spec fn stmt_from(s: &syntax::Stmt, h: &Stmt) -> bool
    decreases s, 1nat,
{
    match s {
        syntax::Stmt::Let { name, expr, .. } => match h {
            Stmt::Let { name: n, expr: e, .. } => n@ == name@ && expr_from(expr, e),
            _ => false,
        },
        syntax::Stmt::Print { expr, .. } => match h {
            Stmt::Print(e) => expr_from(expr, e),
            _ => false,
        },
        syntax::Stmt::If { cond, then_block, else_block, .. } => match h {
            Stmt::If { cond: c, then_block: tb, else_block: eb } => {
                &&& expr_from(cond, c)
                &&& if spec_static_bool(c) == Some(false) {
                    tb@.len() == 0
                } else {
                    block_from(then_block, tb)
                }
                &&& match (else_block, eb) {
                    (Some(x), Some(y)) => if spec_static_bool(c) == Some(true) {
                        y@.len() == 0
                    } else {
                        block_from(x, y)
                    },
                    (None, None) => true,
                    _ => false,
                }
            },
            _ => false,
        },
        syntax::Stmt::While { cond, body, .. } => match h {
            Stmt::While { cond: c, body: b } => expr_from(cond, c) && if spec_static_bool(c) == Some(
                false,
            ) {
                b@.len() == 0
            } else {
                block_from(body, b)
            },
            _ => false,
        },
        syntax::Stmt::Match { expr, arms, .. } => match h {
            Stmt::Match { expr: e, arms: a } => expr_from(expr, e) && arms_from(arms, a),
            _ => false,
        },
        syntax::Stmt::Return { expr, .. } => match h {
            Stmt::Return(e) => expr_from(expr, e),
            _ => false,
        },
    }
}

/// `hs` are the checked forms of the statements `ss`, one for one.
pub open spec fn block_from(ss: &Vec<syntax::Stmt>, hs: &Vec<Stmt>) -> bool
    decreases ss, 0nat,
{
    hs@.len() == ss@.len() && forall|i: int| 0 <= i < ss@.len() ==> stmt_from(&(#[trigger] ss@[i]), &hs@[i])
}

/// The checked arms of a match, in source order, with their patterns kept.
pub open spec fn arms_from(arms: &Vec<syntax::MatchArm>, hs: &Vec<MatchArm>) -> bool
    decreases arms, 0nat,
{
    &&& hs@.len() == arms@.len()
    &&& forall|i: int|
        0 <= i < arms@.len() ==> {
            &&& (#[trigger] hs@[i]).variant@ == arms@[i].variant@
            &&& hs@[i].bindings@ == arms@[i].bindings@
            &&& hs@[i].is_named == arms@[i].is_named
            &&& block_from(&arms@[i].body, &hs@[i].body)
        }
}

fn lower_match(
    matched: Expr,
    arms: &Vec<syntax::MatchArm>,
    line: usize,
    column: usize,
    env: &mut Env,
    t: &Tables,
    frame: &Frame,
) -> (r: Result<Stmt, Diagnostic>)
    requires
        expr_typed(&matched),
    ensures
        lower_ok(r),
        r matches Ok(s) ==> stmt_typed(&s, frame.current_return),
        r matches Ok(s) ==> match s {
            Stmt::Match { expr: e, arms: a } => e == matched && arms_from(arms, &a),
            _ => false,
        },
        r is Ok && matched.spec_ty() is Option ==> has_arm(arms@, "Some"@) && has_arm(arms@, "None"@),
        r is Ok && matched.spec_ty() is Result ==> has_arm(arms@, "Ok"@) && has_arm(arms@, "Err"@),
    decreases arms,
{
    let owners = expr_borrowed_owners(&matched, env, t);
    if let Err(d) = increment_active_borrows(&owners, env) {
        return Err(d);
    }
    let is_var = match &matched {
        Expr::VarRef { .. } => true,
        _ => false,
    };
    if is_var && !matched.ty().is_copy() {
        if let Err(d) = move_lowered_owner_value(&matched, env) {
            return Err(d);
        }
    }
    let (enum_name, variant_defs) = match match_variants(matched.ty(), t) {
        Some(x) => x,
        None => {
            return Err(
                type_err(
                    cat("match expects an enum-like value, got ", type_display(matched.ty()).as_str()),
                    line,
                    column,
                ),
            );
        },
    };
    let before = clone_env(env);
    let mut seen: Vec<String> = Vec::new();
    let mut lowered_arms: Vec<MatchArm> = Vec::new();
    let mut arm_states: Vec<(Env, bool)> = Vec::new();
    let mut i: usize = 0;
    while i < arms.len()
        invariant
            i <= arms@.len(),
            lowered_arms@.len() == i,
            forall|j: int|
                0 <= j < lowered_arms@.len() ==> block_typed(
                    &(#[trigger] lowered_arms@[j]).body,
                    frame.current_return,
                ),
            forall|j: int|
                0 <= j < i ==> {
                    &&& (#[trigger] lowered_arms@[j]).variant@ == arms@[j].variant@
                    &&& lowered_arms@[j].bindings@ == arms@[j].bindings@
                    &&& lowered_arms@[j].is_named == arms@[j].is_named
                    &&& block_from(&arms@[j].body, &lowered_arms@[j].body)
                },
            forall|j: int| 0 <= j < seen@.len() ==> has_arm(arms@, (#[trigger] seen@[j])@),
        decreases arms@.len() - i,
    {
        let arm = &arms[i];
        let mut found: Option<usize> = None;
        let mut k: usize = 0;
        while k < variant_defs.len()
            invariant
                found matches Some(x) ==> x < variant_defs@.len(),
            decreases variant_defs@.len() - k,
        {
            if variant_defs[k].name == arm.variant {
                found = Some(k);
                break;
            }
            k = k + 1;
        }
        let variant_def = match found {
            Some(k) => &variant_defs[k],
            None => {
                return Err(
                    type_err(
                        cat4("enum ", quoted(&enum_name).as_str(), " has no variant ", quoted(&arm.variant).as_str()),
                        arm.line,
                        arm.column,
                    ),
                );
            },
        };
        let ghost seen_before = seen@;
        if !insert_string(&mut seen, &arm.variant) {
            return Err(type_err(cat("duplicate match arm ", quoted(&arm.variant).as_str()), arm.line, arm.column));
        }
        proof {
            assert forall|j: int| 0 <= j < seen@.len() implies has_arm(arms@, (#[trigger] seen@[j])@) by {
                if j < seen_before.len() {
                    assert(seen@[j] == seen_before[j]);
                } else {
                    assert(seen@[j] == arm.variant);
                    assert(arms@[i as int].variant@ == seen@[j]@);
                }
            }
        }
        let mut arm_env = clone_env(&before);
        let binding_tys = match arm_binding_types(arm, variant_def) {
            Ok(v) => v,
            Err(d) => return Err(d),
        };
        let mut b: usize = 0;
        while b < arm.bindings.len()
            invariant
                binding_tys@.len() == arm.bindings@.len(),
            decreases arm.bindings@.len() - b,
        {
            let binding = &arm.bindings[b];
            if find_function(&t.functions, binding).is_some() {
                return Err(
                    type_err(
                        cat3("match binding ", quoted(binding).as_str(), " conflicts with a function name"),
                        arm.line,
                        arm.column,
                    ),
                );
            }
            if env_index(&arm_env, binding).is_some() {
                return Err(
                    type_err(
                        cat3(
                            "match binding ",
                            quoted(binding).as_str(),
                            " reuses an existing name in the current scope",
                        ),
                        arm.line,
                        arm.column,
                    ),
                );
            }
            let payload_ty = &binding_tys[b];
            let origin = match_binding_borrow_origin(
                &matched,
                &arm.variant,
                binding,
                b,
                payload_ty,
                &before,
                t,
            );
            let bound_owners = match_binding_borrowed_owners(
                &matched,
                &arm.variant,
                binding,
                b,
                payload_ty,
                &before,
                t,
            );
            arm_env.push(
                (
                    binding.clone(),
                    Binding {
                        ty: clone_type(payload_ty),
                        moved: false,
                        borrow_origin: origin,
                        borrowed_owners: bound_owners,
                        active_borrow_count: 0,
                    },
                ),
            );
            b = b + 1;
        }
        proof {
            assert(decreases_to!(arms => arms[i as int]));
        }
        let (body, after, done) = match lower_block(&arm.body, &mut arm_env, t, frame) {
            Ok(x) => x,
            Err(d) => return Err(d),
        };
        lowered_arms.push(
            MatchArm {
                enum_name: enum_name.clone(),
                variant: arm.variant.clone(),
                bindings: clone_strings(&arm.bindings),
                is_named: arm.is_named,
                body,
            },
        );
        arm_states.push((after, done));
        i = i + 1;
    }
    let mut missing: Vec<String> = Vec::new();
    let mut k: usize = 0;
    while k < variant_defs.len()
        invariant
            k <= variant_defs@.len(),
            missing@.len() == 0 ==> forall|kk: int|
                #![trigger variant_defs@[kk]]
                0 <= kk < k ==> exists|j: int| 0 <= j < seen@.len() && (#[trigger] seen@[j])@ == variant_defs@[kk].name@,
            forall|j: int| 0 <= j < seen@.len() ==> has_arm(arms@, (#[trigger] seen@[j])@),
        decreases variant_defs@.len() - k,
    {
        if !contains_string(&seen, &variant_defs[k].name) {
            missing.push(variant_defs[k].name.clone());
        }
        k = k + 1;
    }
    if missing.len() > 0 {
        return Err(
            type_err(
                cat4(
                    "match on ",
                    quoted(&enum_name).as_str(),
                    " is not exhaustive; missing ",
                    join_names(&missing, ", ").as_str(),
                ),
                line,
                column,
            ),
        );
    }
    let mut merged = merge_match_state(&before, &arm_states);
    release_active_borrow_owners(&owners, &mut merged);
    *env = merged;
    Ok(Stmt::Match { expr: matched, arms: lowered_arms })
}

/// Checks one statement, updating the ownership state in `env`.
// ----- The simple fragment: lets and prints of literals and variables ---------------

/// A binding as the simple fragment sees it: its name, its type and whether
/// it has been moved.
spec fn model_of(env: Seq<(String, Binding)>) -> Seq<(Seq<char>, Type, bool)> {
    Seq::new(env.len(), |j: int| (env[j].0@, env[j].1.ty, env[j].1.moved))
}

/// A built-in type: `int`, `bool` or `string`.
pub open spec fn simple_ty(t: Type) -> bool {
    t is Int || t is Bool || t is String
}

/// Every binding has a built-in type and no live borrow.
spec fn simple_env(env: Seq<(String, Binding)>) -> bool {
    forall|j: int|
        0 <= j < env.len() ==> simple_ty((#[trigger] env[j]).1.ty) && env[j].1.active_borrow_count == 0
}

/// The position of the first binding named `n` from `i` on, or -1.
pub open spec fn mfind_from(m: Seq<(Seq<char>, Type, bool)>, n: Seq<char>, i: nat) -> int
    decreases m.len() - i,
{
    if i >= m.len() {
        -1
    } else if m[i as int].0 == n {
        i as int
    } else {
        mfind_from(m, n, i + 1)
    }
}

/// The binding a use of `n` finds: the first of that name, or -1.
pub open spec fn mfind(m: Seq<(Seq<char>, Type, bool)>, n: Seq<char>) -> int {
    mfind_from(m, n, 0)
}

/// The built-in type a type name names, if it names one.
pub open spec fn simple_type_name(ty: syntax::TypeName) -> Option<Type> {
    match ty {
        syntax::TypeName::Int => Some(Type::Int),
        syntax::TypeName::Bool => Some(Type::Bool),
        syntax::TypeName::String => Some(Type::String),
        _ => None,
    }
}

/// The type of a literal.
pub open spec fn literal_ty(l: syntax::Literal) -> Type {
    match l {
        syntax::Literal::Int(_) => Type::Int,
        syntax::Literal::Bool(_) => Type::Bool,
        syntax::Literal::String(_) => Type::String,
    }
}

/// A literal or a variable.
pub open spec fn simple_atom(e: syntax::Expr) -> bool {
    e is Literal || e is VarRef
}

/// A literal, a variable, or the sum or comparison of two of them.
pub open spec fn simple_expr(e: syntax::Expr) -> bool {
    match e {
        syntax::Expr::BinaryAdd { lhs, rhs, .. } => simple_atom(*lhs) && simple_atom(*rhs),
        syntax::Expr::BinaryCompare { lhs, rhs, .. } => simple_atom(*lhs) && simple_atom(*rhs),
        _ => simple_atom(e),
    }
}

/// The type the checker gives a simple expression in scope `m`, or `None`
/// where it refuses it: `+` takes two ints or two strings, `==` and `!=` two
/// operands of one type, the orderings two ints.
pub open spec fn expr_type(m: Seq<(Seq<char>, Type, bool)>, e: syntax::Expr) -> Option<Type> {
    match e {
        syntax::Expr::BinaryAdd { lhs, rhs, .. } => match (value_type(m, *lhs), value_type(m, *rhs)) {
            (Some(a), Some(b)) => if a == b && (a is Int || a is String) {
                Some(a)
            } else {
                None
            },
            _ => None,
        },
        syntax::Expr::BinaryCompare { op, lhs, rhs, .. } => match (value_type(m, *lhs), value_type(m, *rhs)) {
            (Some(a), Some(b)) => if (if op is Eq || op is Ne {
                a == b
            } else {
                a is Int && b is Int
            }) {
                Some(Type::Bool)
            } else {
                None
            },
            _ => None,
        },
        _ => value_type(m, e),
    }
}

/// A statement of the simple fragment: `let` with a built-in type, or
/// `print`, of a simple expression.
pub open spec fn simple_stmt(st: syntax::Stmt) -> bool {
    match st {
        syntax::Stmt::Let { ty, expr, .. } => simple_type_name(ty) is Some && simple_expr(expr),
        syntax::Stmt::Print { expr, .. } => simple_expr(expr),
        _ => false,
    }
}

/// A simple statement that the checker accepts in scope `m`: a `let` of a
/// fresh name whose value has the declared type, or a `print` of a value
/// that checks.
pub open spec fn simple_accepts(m: Seq<(Seq<char>, Type, bool)>, st: syntax::Stmt) -> bool {
    match st {
        syntax::Stmt::Let { name, ty, expr, .. } => mfind(m, name@) < 0 && expr_type(m, expr) is Some
            && expr_type(m, expr) == simple_type_name(ty),
        syntax::Stmt::Print { expr, .. } => expr_type(m, expr) is Some,
        _ => false,
    }
}

/// The scope after an accepted simple statement: a `let` binds its name, and
/// moves the variable it reads when the value is a string.
pub open spec fn simple_after(m: Seq<(Seq<char>, Type, bool)>, st: syntax::Stmt) -> Seq<(Seq<char>, Type, bool)> {
    match st {
        syntax::Stmt::Let { name, ty, expr, .. } => {
            let t = simple_type_name(ty)->0;
            let base = match expr {
                syntax::Expr::VarRef { name: v, .. } => if t is String {
                    let k = mfind(m, v@);
                    m.update(k, (m[k].0, m[k].1, true))
                } else {
                    m
                },
                _ => m,
            };
            base.push((name@, t, false))
        },
        _ => m,
    }
}

/// The variable that a simple statement reads after it was moved, if any.
pub open spec fn moved_use(m: Seq<(Seq<char>, Type, bool)>, st: syntax::Stmt) -> Option<Seq<char>> {
    match st {
        syntax::Stmt::Let { name, expr: syntax::Expr::VarRef { name: v, .. }, .. } => if mfind(m, name@) < 0
            && mfind(m, v@) >= 0 && m[mfind(m, v@)].2 {
            Some(v@)
        } else {
            None
        },
        syntax::Stmt::Print { expr: syntax::Expr::VarRef { name: v, .. }, .. } => if mfind(m, v@) >= 0
            && m[mfind(m, v@)].2 {
            Some(v@)
        } else {
            None
        },
        _ => None,
    }
}

/// `e` is the checked form of the simple expression `expr` in scope `m`.
pub open spec fn simple_value(m: Seq<(Seq<char>, Type, bool)>, expr: syntax::Expr, e: Expr) -> bool
    decreases expr,
{
    match expr {
        syntax::Expr::Literal(l) => e == spec_lower_literal(l),
        syntax::Expr::VarRef { name: v, .. } => e matches Expr::VarRef { name: n, ty } && n@ == v@ && ty
            == m[mfind(m, v@)].1,
        syntax::Expr::BinaryAdd { lhs, rhs, .. } => e matches Expr::BinaryAdd { lhs: l, rhs: x, ty } && Some(ty)
            == expr_type(m, expr) && simple_value(m, *lhs, *l) && simple_value(m, *rhs, *x),
        syntax::Expr::BinaryCompare { op, lhs, rhs, .. } => e matches Expr::BinaryCompare {
            op: o,
            lhs: l,
            rhs: x,
            ty,
        } && same_op(op, o) && ty == Type::Bool && simple_value(m, *lhs, *l) && simple_value(m, *rhs, *x),
        _ => false,
    }
}

/// `h` is the checked form of the simple statement `st` in scope `m`.
pub open spec fn simple_lowered(m: Seq<(Seq<char>, Type, bool)>, st: syntax::Stmt, h: Stmt) -> bool {
    match st {
        syntax::Stmt::Let { name, ty, expr, .. } => h matches Stmt::Let { name: n, ty: t, expr: e } && n@
            == name@ && Some(t) == simple_type_name(ty) && simple_value(m, expr, e),
        syntax::Stmt::Print { expr, .. } => h matches Stmt::Print(e) && simple_value(m, expr, e),
        _ => false,
    }
}

/// The refusal of a `return` outside any function.
pub open spec fn top_level_return(d: Diagnostic) -> bool {
    d.kind@ == "control"@ && d.message@ == "return is only valid inside a function"@
}

/// Every live binding of scope `m` has a copy type, `int` or `bool`.
pub open spec fn copy_scope(m: Seq<(Seq<char>, Type, bool)>) -> bool {
    forall|j: int| 0 <= j < m.len() ==> (#[trigger] m[j]).2 || m[j].1 is Int || m[j].1 is Bool
}

/// A `while` that the checker accepts in scope `m`: a simple condition of
/// type `bool`, and a body of simple statements accepted one after another.
pub open spec fn simple_while_accepts(
    m: Seq<(Seq<char>, Type, bool)>,
    cond: syntax::Expr,
    body: Seq<syntax::Stmt>,
) -> bool {
    &&& simple_expr(cond)
    &&& expr_type(m, cond) == Some(Type::Bool)
    &&& all_simple(body)
    &&& simple_accepts_upto(m, body, body.len())
}

/// `h` is the checked form of such a `while`: its checked condition, and its
/// body statement by statement, or no body where the condition is a constant
/// `false`.
pub open spec fn simple_while_lowered(
    m: Seq<(Seq<char>, Type, bool)>,
    cond: syntax::Expr,
    body: Seq<syntax::Stmt>,
    h: Stmt,
) -> bool {
    h matches Stmt::While { cond: c, body: hb } && simple_value(m, cond, c) && if spec_static_bool(&c) == Some(
        false,
    ) {
        hb@.len() == 0
    } else {
        hb@.len() == body.len() && forall|k: int|
            0 <= k < body.len() ==> simple_lowered(simple_model(m, body, k as nat), #[trigger] body[k], hb@[k])
    }
}

/// A block's statements, where there is a block.
pub open spec fn block_view(b: Option<Vec<syntax::Stmt>>) -> Option<Seq<syntax::Stmt>> {
    match b {
        Some(v) => Some(v@),
        None => None,
    }
}

/// `hs` is the checked form of the simple block `ss`, statement by
/// statement, from scope `m`.
pub open spec fn simple_block_lowered(m: Seq<(Seq<char>, Type, bool)>, ss: Seq<syntax::Stmt>, hs: Seq<Stmt>) -> bool {
    hs.len() == ss.len() && forall|k: int|
        0 <= k < ss.len() ==> simple_lowered(simple_model(m, ss, k as nat), #[trigger] ss[k], hs[k])
}

/// An `if` that the checker accepts in scope `m`: a simple condition of type
/// `bool`, and branches of simple statements each accepted from `m`.
pub open spec fn simple_if_accepts(
    m: Seq<(Seq<char>, Type, bool)>,
    cond: syntax::Expr,
    then_b: Seq<syntax::Stmt>,
    else_b: Option<Seq<syntax::Stmt>>,
) -> bool {
    &&& simple_expr(cond)
    &&& expr_type(m, cond) == Some(Type::Bool)
    &&& all_simple(then_b)
    &&& simple_accepts_upto(m, then_b, then_b.len())
    &&& else_b matches Some(e) ==> all_simple(e) && simple_accepts_upto(m, e, e.len())
}

/// `h` is the checked form of such an `if`: its checked condition and its
/// branches, a branch that a constant condition rules out left empty.
pub open spec fn simple_if_lowered(
    m: Seq<(Seq<char>, Type, bool)>,
    cond: syntax::Expr,
    then_b: Seq<syntax::Stmt>,
    else_b: Option<Seq<syntax::Stmt>>,
    h: Stmt,
) -> bool {
    match h {
        Stmt::If { cond: c, then_block: tb, else_block: eb } => {
            &&& simple_value(m, cond, c)
            &&& if spec_static_bool(&c) == Some(false) {
                tb@.len() == 0
            } else {
                simple_block_lowered(m, then_b, tb@)
            }
            &&& match else_b {
                None => eb is None,
                Some(e) => match eb {
                    Some(x) => if spec_static_bool(&c) == Some(true) {
                        x@.len() == 0
                    } else {
                        simple_block_lowered(m, e, x@)
                    },
                    None => false,
                },
            }
        },
        _ => false,
    }
}

/// A copy of a simple scope, binding for binding, is the same scope.
proof fn lemma_clone_model(a: Seq<(String, Binding)>, b: Seq<(String, Binding)>)
    requires
        simple_env(a),
        b.len() == a.len(),
        forall|j: int| 0 <= j < a.len() ==> (#[trigger] b[j]).0@ == a[j].0@,
        forall|j: int| 0 <= j < a.len() ==> type_eq(&(#[trigger] b[j]).1.ty, &a[j].1.ty),
        state_of(b) == state_of(a),
    ensures
        model_of(b) == model_of(a),
        simple_env(b),
{
    assert forall|j: int| 0 <= j < b.len() implies model_of(b)[j] == model_of(a)[j] && simple_ty(
        (#[trigger] b[j]).1.ty,
    ) && b[j].1.active_borrow_count == 0 by {
        assert(state_of(b)[j] == state_of(a)[j]);
        assert(type_eq(&b[j].1.ty, &a[j].1.ty));
        assert(simple_ty(a[j].1.ty));
    }
    assert(model_of(b) =~= model_of(a));
}

/// The first binding of a name is where `mfind` finds it.
proof fn lemma_mfind(env: Seq<(String, Binding)>, n: Seq<char>)
    ensures
        mfind(model_of(env), n) >= 0 ==> found_binding(env, n, mfind(model_of(env), n)),
        mfind(model_of(env), n) < 0 ==> forall|j: int| 0 <= j < env.len() ==> (#[trigger] env[j]).0@ != n,
{
    lemma_mfind_from(env, n, 0);
}

proof fn lemma_mfind_from(env: Seq<(String, Binding)>, n: Seq<char>, i: nat)
    requires
        i <= env.len(),
        forall|j: int| 0 <= j < i ==> (#[trigger] env[j]).0@ != n,
    ensures
        mfind_from(model_of(env), n, i) >= 0 ==> found_binding(env, n, mfind_from(model_of(env), n, i)),
        mfind_from(model_of(env), n, i) < 0 ==> forall|j: int| 0 <= j < env.len() ==> (#[trigger] env[j]).0@ != n,
    decreases env.len() - i,
{
    let m = model_of(env);
    if i < env.len() {
        assert(m[i as int].0 == env[i as int].0@);
        if env[i as int].0@ != n {
            lemma_mfind_from(env, n, i + 1);
        }
    }
}

fn lower_stmt(stmt: &syntax::Stmt, env: &mut Env, t: &Tables, frame: &Frame) -> (r: Result<
    Stmt,
    Diagnostic,
>)
    ensures
        lower_ok(r),
        r matches Ok(s) ==> stmt_typed(&s, frame.current_return) && stmt_from(stmt, &s),
        print_of_denied_call(*stmt, t.capabilities) ==> (r matches Err(d) && denial_for(*stmt, d)),
        stmt matches syntax::Stmt::Let { name, .. } ==> (r is Ok ==> {
            &&& final(env)@.len() > 0
            &&& final(env)@.last().0@ == name@
            &&& !final(env)@.last().1.moved
            &&& final(env)@.last().1.active_borrow_count == 0
        }),
        r matches Ok(Stmt::Let { ty, .. }) ==> (stmt is Let ==> type_eq(&final(env)@.last().1.ty, &ty)),
        stmt matches syntax::Stmt::Print { expr: syntax::Expr::VarRef { name, .. }, .. } ==> forall|k: int|
            #[trigger] found_binding(old(env)@, name@, k) && old(env)@[k].1.moved ==> (r matches Err(d)
                && d.kind@ == "ownership"@ && d.message@ == "use of moved value "@ + debug_quoted(name@)),
        stmt matches syntax::Stmt::Print { expr: syntax::Expr::Literal(l), .. } ==> r == Ok::<
            Stmt,
            Diagnostic,
        >(Stmt::Print(spec_lower_literal(*l))) && final(env)@ == old(env)@,
        stmt matches syntax::Stmt::While { cond: syntax::Expr::Literal(syntax::Literal::Bool(false)), .. } ==> (
        r matches Ok(Stmt::While { cond: c, body }) && c == spec_lower_literal(syntax::Literal::Bool(false))
            && body@.len() == 0 && final(env)@ == old(env)@),
        stmt matches syntax::Stmt::If {
            cond: syntax::Expr::Literal(syntax::Literal::Bool(false)),
            else_block: None,
            ..
        } ==> (r matches Ok(Stmt::If { cond: c, then_block, else_block: None }) && c == spec_lower_literal(
            syntax::Literal::Bool(false),
        ) && then_block@.len() == 0 && final(env)@ == old(env)@),
        simple_stmt(*stmt) && simple_env(old(env)@) && t.functions@.len() == 0 ==> {
            &&& simple_accepts(model_of(old(env)@), *stmt) ==> (r matches Ok(h) && simple_lowered(
                model_of(old(env)@),
                *stmt,
                h,
            ) && model_of(final(env)@) == simple_after(model_of(old(env)@), *stmt) && simple_env(
                final(env)@,
            ))
            &&& moved_use(model_of(old(env)@), *stmt) matches Some(v) ==> (r matches Err(d) && d.kind@
                == "ownership"@ && d.message@ == "use of moved value "@ + debug_quoted(v))
        },
        stmt is Return && frame.current_return is None ==> (r matches Err(d) && top_level_return(d)),
        r matches Ok(Stmt::Match { expr: e, .. }) ==> (stmt matches syntax::Stmt::Match { arms, .. } && (e.spec_ty() is Option
            ==> has_arm(arms@, "Some"@) && has_arm(arms@, "None"@)) && (e.spec_ty() is Result ==> has_arm(
            arms@,
            "Ok"@,
        ) && has_arm(arms@, "Err"@))),
        stmt matches syntax::Stmt::Print { expr: syntax::Expr::VarRef { name, .. }, .. } ==> (name@ == "None"@
            && unbound(old(env)@, name@) ==> (r matches Err(d) && none_without_context(d))),
        stmt matches syntax::Stmt::If { cond, then_block, else_block, .. } ==> (simple_env(old(env)@)
            && t.functions@.len() == 0 && simple_if_accepts(
            model_of(old(env)@),
            *cond,
            then_block@,
            block_view(*else_block),
        ) ==> (r matches Ok(h) && simple_if_lowered(
            model_of(old(env)@),
            *cond,
            then_block@,
            block_view(*else_block),
            h,
        ))),
        stmt matches syntax::Stmt::While { cond, body, .. } ==> (simple_env(old(env)@) && t.functions@.len() == 0
            && copy_scope(model_of(old(env)@)) && simple_while_accepts(model_of(old(env)@), *cond, body@) ==> (
        r matches Ok(h) && simple_while_lowered(model_of(old(env)@), *cond, body@, h))),
    decreases stmt,
{
    let ghost simple = simple_stmt(*stmt) && simple_env(old(env)@) && t.functions@.len() == 0;
    let ghost m0 = model_of(old(env)@);
    match stmt {
        syntax::Stmt::Let { name, ty, expr, line, column } => {
            proof {
                lemma_mfind(env@, name@);
                if let syntax::Expr::VarRef { name: v, .. } = expr {
                    lemma_mfind(env@, v@);
                    let k = mfind(m0, v@);
                    if k >= 0 {
                        assert(m0[k] == (env@[k].0@, env@[k].1.ty, env@[k].1.moved));
                        lemma_first_of(env@, v@, k);
                    }
                }
            }
            if find_function(&t.functions, name).is_some() {
                return Err(
                    type_err(
                        cat3("binding name ", quoted(name).as_str(), " conflicts with a function name"),
                        *line,
                        *column,
                    ),
                );
            }
            if env_index(env, name).is_some() {
                return Err(
                    type_err(
                        cat3(
                            "rebinding existing name ",
                            quoted(name).as_str(),
                            " is not yet supported in stage1",
                        ),
                        *line,
                        *column,
                    ),
                );
            }
            let expected = match lower_type(ty, &t.struct_names, &t.enum_names, *line, *column) {
                Ok(x) => x,
                Err(d) => return Err(d),
            };
            let lowered = match lower_expr_with_expected(expr, Some(&expected), env, t) {
                Ok(x) => x,
                Err(d) => return Err(d),
            };
            if !types_equal(lowered.ty(), &expected) {
                return Err(
                    type_err(
                        cat5(
                            "let binding ",
                            quoted(name).as_str(),
                            " expects ",
                            type_display(&expected).as_str(),
                            ", got ",
                        ).concat(type_display(lowered.ty()).as_str()),
                        *line,
                        *column,
                    ),
                );
            }
            let owners = if contains_borrowed_slice_type(&expected, &t.structs, &t.enums) {
                expr_borrowed_owners(&lowered, env, t)
            } else {
                Vec::new()
            };
            if let Err(d) = increment_active_borrows(&owners, env) {
                return Err(d);
            }
            if !lowered.ty().is_copy() {
                if let Err(d) = move_lowered_value(&lowered, env) {
                    return Err(d);
                }
            }
            let origin = if contains_borrowed_slice_type(&expected, &t.structs, &t.enums) {
                expr_borrow_origin(&lowered, env, t)
            } else {
                None
            };
            let ghost before_push = env@;
            proof {
                if simple && simple_accepts(m0, *stmt) {
                    assert(model_of(env@) =~= simple_after(m0, *stmt).drop_last()) by {
                        let tt = simple_type_name(*ty)->0;
                        assert forall|j: int| 0 <= j < env@.len() implies model_of(env@)[j] == simple_after(
                            m0,
                            *stmt,
                        ).drop_last()[j] by {
                            assert(state_of(env@)[j].0 == env@[j].0@);
                            assert(state_of(env@)[j].1 == env@[j].1.moved);
                            assert(type_eq(&env@[j].1.ty, &old(env)@[j].1.ty));
                            assert(simple_ty(old(env)@[j].1.ty));
                        }
                    }
                    assert forall|j: int| 0 <= j < env@.len() implies (#[trigger] env@[j]).1.active_borrow_count
                        == 0 && simple_ty(env@[j].1.ty) by {
                        assert(state_of(env@)[j].2 == env@[j].1.active_borrow_count);
                        assert(state_of(old(env)@)[j].2 == old(env)@[j].1.active_borrow_count);
                        assert(type_eq(&env@[j].1.ty, &old(env)@[j].1.ty));
                        assert(simple_ty(old(env)@[j].1.ty));
                    }
                }
            }
            env.push(
                (
                    name.clone(),
                    Binding {
                        ty: clone_type(&expected),
                        moved: false,
                        borrow_origin: origin,
                        borrowed_owners: owners,
                        active_borrow_count: 0,
                    },
                ),
            );
            proof {
                if simple && simple_accepts(m0, *stmt) {
                    assert(env@.drop_last() == before_push);
                    let tt = simple_type_name(*ty)->0;
                    assert(expected == tt);
                    assert(env@.last().1.ty == tt);
                    assert(model_of(env@).drop_last() =~= model_of(before_push));
                    assert(model_of(env@).last() == (name@, tt, false));
                    assert(model_of(env@) =~= model_of(before_push).push((name@, tt, false)));
                    assert(simple_after(m0, *stmt) =~= simple_after(m0, *stmt).drop_last().push((name@, tt, false)));
                    assert(model_of(env@) =~= simple_after(m0, *stmt));
                    assert forall|j: int| 0 <= j < env@.len() implies simple_ty((#[trigger] env@[j]).1.ty)
                        && env@[j].1.active_borrow_count == 0 by {
                        if j < env@.len() - 1 {
                            assert(env@[j] == before_push[j]);
                        }
                    }
                }
            }
            Ok(Stmt::Let { name: name.clone(), ty: expected, expr: lowered })
        },
        syntax::Stmt::Print { expr, line, column } => {
            proof {
                if let syntax::Expr::VarRef { name: v, .. } = expr {
                    lemma_mfind(env@, v@);
                    let k = mfind(m0, v@);
                    if k >= 0 {
                        assert(m0[k] == (env@[k].0@, env@[k].1.ty, env@[k].1.moved));
                    }
                }
            }
            let lowered = match lower_expr(expr, env, t) {
                Ok(x) => x,
                Err(d) => return Err(d),
            };
            if !(is_int(lowered.ty()) || is_bool(lowered.ty()) || is_string(lowered.ty())) {
                return Err(
                    type_err(
                        cat("print expects int, bool, or string, got ", type_display(lowered.ty()).as_str()),
                        *line,
                        *column,
                    ),
                );
            }
            Ok(Stmt::Print(lowered))
        },
        syntax::Stmt::If { cond, then_block, else_block, line, column } => {
            let ghost hypi = simple_env(old(env)@) && t.functions@.len() == 0 && simple_if_accepts(
                m0,
                *cond,
                then_block@,
                block_view(*else_block),
            );
            proof {
                if let syntax::Expr::VarRef { name: v, .. } = cond {
                    lemma_mfind(env@, v@);
                    let k = mfind(m0, v@);
                    if k >= 0 {
                        assert(m0[k] == (env@[k].0@, env@[k].1.ty, env@[k].1.moved));
                    }
                }
            }
            let c = match lower_expr(cond, env, t) {
                Ok(x) => x,
                Err(d) => return Err(d),
            };
            if !is_bool(c.ty()) {
                return Err(
                    type_err(
                        cat("if condition expects bool, got ", type_display(c.ty()).as_str()),
                        *line,
                        *column,
                    ),
                );
            }
            match static_bool_value(&c) {
                Some(true) => {
                    let mut then_env = clone_env(env);
                    proof {
                        if hypi {
                            lemma_clone_model(env@, then_env@);
                        }
                    }
                    let (tb, after, _) = match lower_block(then_block, &mut then_env, t, frame) {
                        Ok(x) => x,
                        Err(d) => return Err(d),
                    };
                    *env = after;
                    let eb: Option<Vec<Stmt>> = match else_block {
                        Some(_) => Some(Vec::new()),
                        None => None,
                    };
                    Ok(Stmt::If { cond: c, then_block: tb, else_block: eb })
                },
                Some(false) => match else_block {
                    Some(eb) => {
                        let mut else_env = clone_env(env);
                        proof {
                            if hypi {
                                lemma_clone_model(env@, else_env@);
                            }
                        }
                        let (b, after, _) = match lower_block(eb, &mut else_env, t, frame) {
                            Ok(x) => x,
                            Err(d) => return Err(d),
                        };
                        *env = after;
                        Ok(Stmt::If { cond: c, then_block: Vec::new(), else_block: Some(b) })
                    },
                    None => Ok(Stmt::If { cond: c, then_block: Vec::new(), else_block: None }),
                },
                None => {
                    let before = clone_env(env);
                    let mut then_env = clone_env(&before);
                    proof {
                        if hypi {
                            lemma_clone_model(env@, before@);
                            lemma_clone_model(before@, then_env@);
                        }
                    }
                    let (tb, then_after, then_returns) = match lower_block(
                        then_block,
                        &mut then_env,
                        t,
                        frame,
                    ) {
                        Ok(x) => x,
                        Err(d) => return Err(d),
                    };
                    let (eb, else_after, else_returns) = match else_block {
                        Some(b) => {
                            let mut else_env = clone_env(&before);
                            proof {
                                if hypi {
                                    lemma_clone_model(before@, else_env@);
                                }
                            }
                            match lower_block(b, &mut else_env, t, frame) {
                                Ok((blk, after, ret)) => (Some(blk), Some(after), ret),
                                Err(d) => return Err(d),
                            }
                        },
                        None => (None, None, false),
                    };
                    *env =
                    merge_branch_state(
                        &before,
                        &then_after,
                        then_returns,
                        else_after.as_ref(),
                        else_returns,
                    );
                    Ok(Stmt::If { cond: c, then_block: tb, else_block: eb })
                },
            }
        },
        syntax::Stmt::While { cond, body, line, column } => {
            let ghost hypw = simple_env(old(env)@) && t.functions@.len() == 0 && copy_scope(m0)
                && simple_while_accepts(m0, *cond, body@);
            proof {
                if let syntax::Expr::VarRef { name: v, .. } = cond {
                    lemma_mfind(env@, v@);
                    let k = mfind(m0, v@);
                    if k >= 0 {
                        assert(m0[k] == (env@[k].0@, env@[k].1.ty, env@[k].1.moved));
                    }
                }
            }
            let c = match lower_expr(cond, env, t) {
                Ok(x) => x,
                Err(d) => return Err(d),
            };
            if !is_bool(c.ty()) {
                return Err(
                    type_err(
                        cat("while condition expects bool, got ", type_display(c.ty()).as_str()),
                        *line,
                        *column,
                    ),
                );
            }
            if static_bool_value(&c) == Some(false) {
                return Ok(Stmt::While { cond: c, body: Vec::new() });
            }
            let before = clone_env(env);
            let mut body_env = clone_env(&before);
            proof {
                if hypw {
                    assert(env@ == old(env)@);
                    assert forall|j: int| 0 <= j < body_env@.len() implies model_of(body_env@)[j] == m0[j]
                        && simple_ty((#[trigger] body_env@[j]).1.ty) && body_env@[j].1.active_borrow_count == 0 by {
                        assert(state_of(body_env@)[j] == state_of(before@)[j]);
                        assert(state_of(before@)[j] == state_of(env@)[j]);
                        assert(type_eq(&body_env@[j].1.ty, &before@[j].1.ty));
                        assert(type_eq(&before@[j].1.ty, &env@[j].1.ty));
                        assert(simple_ty(env@[j].1.ty));
                    }
                    assert(model_of(body_env@) =~= m0);
                    assert forall|j: int| 0 <= j < before@.len() implies (#[trigger] before@[j]).1.moved
                        || before@[j].1.ty.spec_is_copy() by {
                        assert(state_of(before@)[j] == state_of(env@)[j]);
                        assert(type_eq(&before@[j].1.ty, &env@[j].1.ty));
                        assert(simple_ty(env@[j].1.ty));
                        assert(m0[j] == (env@[j].0@, env@[j].1.ty, env@[j].1.moved));
                    }
                }
            }
            let (lowered_body, body_after, body_returns) = match lower_block(
                body,
                &mut body_env,
                t,
                frame,
            ) {
                Ok(x) => x,
                Err(d) => return Err(d),
            };
            if !body_returns {
                let mut i: usize = 0;
                while i < before.len()
                    invariant
                        hypw ==> forall|j: int| 0 <= j < before@.len() ==> (#[trigger] before@[j]).1.moved
                            || before@[j].1.ty.spec_is_copy(),
                        hypw == (simple_env(old(env)@) && t.functions@.len() == 0 && copy_scope(m0)
                            && simple_while_accepts(m0, *cond, body@)),
                        m0 == model_of(old(env)@),
                        *stmt matches syntax::Stmt::While { cond: c0, body: b0, .. } && c0 == *cond && b0@ == body@,
                        !print_of_denied_call(*stmt, t.capabilities),
                        *stmt is While,
                        !(*stmt matches syntax::Stmt::While {
                            cond: syntax::Expr::Literal(syntax::Literal::Bool(false)),
                            ..
                        }),
                    decreases before@.len() - i,
                {
                    let pre = &before[i].1;
                    proof {
                        if hypw {
                            assert(before@[i as int].1.moved || before@[i as int].1.ty.spec_is_copy());
                        }
                    }
                    if !pre.moved && !pre.ty.is_copy() {
                        if let Some(x) = lookup_state(&body_after, &before[i].0) {
                            if x.0 {
                                return Err(
                                    err(
                                        "ownership",
                                        cat3(
                                            "cannot move non-copy value `",
                                            before[i].0.as_str(),
                                            "` inside loop body \u{2014} value would not be available on subsequent iterations",
                                        ),
                                        *line,
                                        *column,
                                    ),
                                );
                            }
                        }
                    }
                    i = i + 1;
                }
            }
            *env = merge_loop_state(&before, &body_after, body_returns);
            Ok(Stmt::While { cond: c, body: lowered_body })
        },
        syntax::Stmt::Match { expr, arms, line, column } => {
            let lowered = match lower_expr(expr, env, t) {
                Ok(x) => x,
                Err(d) => return Err(d),
            };
            lower_match(lowered, arms, *line, *column, env, t, frame)
        },
        syntax::Stmt::Return { expr, line, column } => {
            let expected = match &frame.current_return {
                Some(x) => x,
                None => {
                    return Err(err("control", String::from_str("return is only valid inside a function"), *line, *column));
                },
            };
            let lowered = match lower_expr_with_expected(expr, Some(expected), env, t) {
                Ok(x) => x,
                Err(d) => return Err(d),
            };
            if !types_equal(lowered.ty(), expected) {
                return Err(
                    type_err(
                        cat4(
                            "return expects ",
                            type_display(expected).as_str(),
                            ", got ",
                            type_display(lowered.ty()).as_str(),
                        ),
                        *line,
                        *column,
                    ),
                );
            }
            if contains_borrowed_slice_type(expected, &t.structs, &t.enums)
                && frame.current_borrow_return_params.len() != 0 {
                let allowed = match expr_borrow_origin(&lowered, env, t) {
                    None => true,
                    Some(BorrowOrigin::Param(origin)) => contains_string(
                        &frame.current_borrow_return_params,
                        &origin,
                    ),
                    Some(BorrowOrigin::Local) => false,
                };
                if !allowed {
                    return Err(
                        err(
                            "ownership",
                            String::from_str(
                                "returning borrowed values requires data derived from one of the borrowed parameters in stage1",
                            ),
                            *line,
                            *column,
                        ),
                    );
                }
            }
            Ok(Stmt::Return(lowered))
        },
    }
}

/// Checks a block. Names it introduces go out of scope at its end, releasing
/// the borrows they held; the returned state is the one after the block.
/// Every statement of `ss` is in the simple fragment.
pub open spec fn all_simple(ss: Seq<syntax::Stmt>) -> bool {
    forall|k: int| 0 <= k < ss.len() ==> simple_stmt(#[trigger] ss[k])
}

/// The scope after the first `n` statements of `ss`, starting from `m`.
pub open spec fn simple_model(m: Seq<(Seq<char>, Type, bool)>, ss: Seq<syntax::Stmt>, n: nat) -> Seq<
    (Seq<char>, Type, bool),
>
    decreases n,
{
    if n == 0 || n > ss.len() {
        m
    } else {
        simple_after(simple_model(m, ss, (n - 1) as nat), ss[n - 1])
    }
}

/// The checker accepts the first `n` statements of `ss`, one after another,
/// starting from scope `m`.
pub open spec fn simple_accepts_upto(m: Seq<(Seq<char>, Type, bool)>, ss: Seq<syntax::Stmt>, n: nat) -> bool
    decreases n,
{
    if n == 0 {
        true
    } else if n > ss.len() {
        false
    } else {
        simple_accepts_upto(m, ss, (n - 1) as nat) && simple_accepts(simple_model(m, ss, (n - 1) as nat), ss[n - 1])
    }
}

/// What checking a block of simple statements owes, from scope `m`: when every
/// statement is accepted, each lowers as `simple_lowered` says; when the first
/// statement not accepted reads a moved variable, the block is refused with
/// the use-after-move error.
pub open spec fn simple_block_outcome(
    m: Seq<(Seq<char>, Type, bool)>,
    ss: Seq<syntax::Stmt>,
    r: Result<Seq<Stmt>, Diagnostic>,
) -> bool {
    &&& simple_accepts_upto(m, ss, ss.len()) ==> (r matches Ok(hs) && hs.len() == ss.len() && forall|k: int|
        0 <= k < ss.len() ==> simple_lowered(simple_model(m, ss, k as nat), #[trigger] ss[k], hs[k]))
    &&& forall|n: nat|
        n < ss.len() && #[trigger] simple_accepts_upto(m, ss, n) && moved_use(simple_model(m, ss, n), ss[n as int])
            is Some ==> (r matches Err(d) && d.kind@ == "ownership"@ && d.message@ == "use of moved value "@
            + debug_quoted(moved_use(simple_model(m, ss, n), ss[n as int])->0))
}

/// Accepting a block's first `b` statements accepts its first `a`, for `a <= b`.
proof fn lemma_accepts_prefix(m: Seq<(Seq<char>, Type, bool)>, ss: Seq<syntax::Stmt>, a: nat, b: nat)
    requires
        a <= b,
        simple_accepts_upto(m, ss, b),
    ensures
        simple_accepts_upto(m, ss, a),
    decreases b,
{
    if a < b {
        lemma_accepts_prefix(m, ss, a, (b - 1) as nat);
    }
}

/// The result of a block check, its statements alone.
pub open spec fn block_stmts(r: Result<(Vec<Stmt>, Env, bool), Diagnostic>) -> Result<Seq<Stmt>, Diagnostic> {
    match r {
        Ok(x) => Ok(x.0@),
        Err(d) => Err(d),
    }
}

fn lower_block(block: &Vec<syntax::Stmt>, env: &mut Env, t: &Tables, frame: &Frame) -> (r: Result<
    (Vec<Stmt>, Env, bool),
    Diagnostic,
>)
    ensures
        lower_ok(r),
        r matches Ok(x) ==> {
            &&& x.2 == block_returns(&x.0)
            &&& x.0@.len() == block@.len()
            &&& block_typed(&x.0, frame.current_return)
            &&& block_from(block, &x.0)
            &&& forall|j: int| 0 <= j < x.0@.len() - 1 ==> !stmt_returns(&(#[trigger] x.0@[j]))
        },
        block@.len() == 0 ==> r is Ok,
        block@.len() > 0 && block@[0] is Return && frame.current_return is None ==> (r matches Err(d)
            && top_level_return(d)),
        block@.len() > 0 && print_of_denied_call(block@[0], t.capabilities) ==> (r matches Err(d)
            && denial_for(block@[0], d)),
        all_simple(block@) && simple_env(old(env)@) && t.functions@.len() == 0 ==> simple_block_outcome(
            model_of(old(env)@),
            block@,
            block_stmts(r),
        ),
    decreases block,
{
    let ghost hyp = all_simple(block@) && simple_env(old(env)@) && t.functions@.len() == 0;
    let ghost m0 = model_of(old(env)@);
    let scope_names = env_names(env);
    let mut lowered: Vec<Stmt> = Vec::new();
    let mut done = false;
    let mut i: usize = 0;
    while i < block.len()
        invariant
            i <= block@.len(),
            lowered@.len() == i,
            done == (i > 0 && stmt_returns(&lowered@[i - 1])),
            forall|j: int| 0 <= j < i ==> stmt_typed(&(#[trigger] lowered@[j]), frame.current_return),
            forall|j: int| 0 <= j < i ==> stmt_from(&block@[j], &(#[trigger] lowered@[j])),
            forall|j: int| 0 <= j < i - 1 ==> !stmt_returns(&(#[trigger] lowered@[j])),
            i > 0 ==> !print_of_denied_call(block@[0], t.capabilities),
            i > 0 ==> !(block@[0] is Return && frame.current_return is None),
            hyp == (all_simple(block@) && simple_env(old(env)@) && t.functions@.len() == 0),
            m0 == model_of(old(env)@),
            hyp && simple_accepts_upto(m0, block@, i as nat) ==> model_of(env@) == simple_model(m0, block@, i as nat)
                && simple_env(env@) && forall|k: int|
                0 <= k < i ==> simple_lowered(simple_model(m0, block@, k as nat), #[trigger] block@[k], lowered@[k]),
            hyp ==> forall|n: nat|
                n < i ==> !(#[trigger] simple_accepts_upto(m0, block@, n) && moved_use(simple_model(m0, block@, n), block@[n as int])
                    is Some),
        decreases block@.len() - i,
    {
        if done {
            proof {
                if hyp {
                    if simple_accepts_upto(m0, block@, i as nat) {
                        assert(simple_lowered(simple_model(m0, block@, (i - 1) as nat), block@[i - 1], lowered@[i - 1]));
                    }
                    assert forall|n: nat| n < block@.len() && #[trigger] simple_accepts_upto(m0, block@, n) implies n < i by {
                        if n >= i {
                            lemma_accepts_prefix(m0, block@, i as nat, n);
                            assert(simple_lowered(simple_model(m0, block@, (i - 1) as nat), block@[i - 1], lowered@[i - 1]));
                        }
                    }
                    if simple_accepts_upto(m0, block@, block@.len()) {
                        lemma_accepts_prefix(m0, block@, i as nat, block@.len());
                    }
                }
            }
            let (line, column) = (block[i].line(), block[i].column());
            return Err(
                err(
                    "control",
                    String::from_str("unreachable statements after return are not yet supported in stage1"),
                    line,
                    column,
                ),
            );
        }
        proof {
            assert(decreases_to!(block => block[i as int]));
        }
        let ghost env_before = env@;
        let s = match lower_stmt(&block[i], env, t, frame) {
            Ok(x) => x,
            Err(d) => {
                proof {
                    if hyp {
                        assert(simple_stmt(block@[i as int]));
                        assert forall|n: nat| n < block@.len() && #[trigger] simple_accepts_upto(m0, block@, n)
                            && moved_use(simple_model(m0, block@, n), block@[n as int]) is Some implies n == i by {
                            if n > i {
                                lemma_accepts_prefix(m0, block@, (i + 1) as nat, n);
                            }
                        }
                        if simple_accepts_upto(m0, block@, block@.len()) {
                            lemma_accepts_prefix(m0, block@, (i + 1) as nat, block@.len());
                        }
                    }
                }
                return Err(d);
            },
        };
        proof {
            if hyp {
                assert(simple_stmt(block@[i as int]));
                if simple_accepts_upto(m0, block@, (i + 1) as nat) {
                    assert(simple_model(m0, block@, (i + 1) as nat) == simple_after(simple_model(m0, block@, i as nat), block@[i as int]));
                }
            }
        }
        done = s.always_returns();
        let ghost before = lowered@;
        lowered.push(s);
        proof {
            if hyp && simple_accepts_upto(m0, block@, (i + 1) as nat) {
                assert forall|k: int| 0 <= k < i + 1 implies simple_lowered(simple_model(m0, block@, k as nat), #[trigger] block@[k], lowered@[k]) by {
                    if k < i {
                        assert(lowered@[k] == before[k]);
                    }
                }
            }
        }
        i = i + 1;
    }
    let after = release_scope_borrows(env, &scope_names);
    Ok((lowered, after, done))
}

/// `g` is the checked form of the source function `f`: the same name and
/// parameter names, and the checked body.
pub open spec fn function_from(f: &syntax::Function, g: &Function) -> bool {
    &&& g.name@ == f.name@
    &&& g.params@.len() == f.params@.len()
    &&& forall|j: int| 0 <= j < f.params@.len() ==> (#[trigger] g.params@[j]).name@ == f.params@[j].name@
    &&& block_from(&f.body, &g.body)
}

/// `p` is the checked form of the source program: its functions one for one
/// and in order, and its top-level statements.
pub open spec fn program_from(program: &syntax::Program, p: &Program) -> bool {
    &&& p.functions@.len() == program.functions@.len()
    &&& forall|j: int|
        0 <= j < program.functions@.len() ==> function_from(
            &(#[trigger] program.functions@[j]),
            &p.functions@[j],
        )
    &&& block_from(&program.stmts, &p.stmts)
}

/// Checks a function body against its signature; the body must return along
/// every path.
fn lower_function(f: &syntax::Function, t: &Tables) -> (r: Result<Function, Diagnostic>)
    ensures
        lower_ok(r),
        r matches Ok(g) ==> {
            &&& g.name@ == f.name@
            &&& g.params@.len() == f.params@.len()
            &&& block_returns(&g.body)
            &&& block_typed(&g.body, Some(g.return_ty))
            &&& function_from(f, &g)
        },
{
    let return_ty = match lower_type(&f.return_ty, &t.struct_names, &t.enum_names, f.line, f.column) {
        Ok(x) => x,
        Err(d) => return Err(d),
    };
    let sig = match find_function(&t.functions, &f.name) {
        Some(s) => s,
        None => {
            return Err(
                type_err(
                    cat("internal error: missing signature of function ", quoted(&f.name).as_str()),
                    f.line,
                    f.column,
                ),
            );
        },
    };
    let mut borrow_params: Vec<String> = Vec::new();
    let mut k: usize = 0;
    while k < sig.borrow_return_params.len()
        decreases sig.borrow_return_params@.len() - k,
    {
        let index = sig.borrow_return_params[k];
        if index < f.params.len() {
            borrow_params.push(f.params[index].name.clone());
        }
        k = k + 1;
    }
    let frame = Frame { current_return: Some(return_ty), current_borrow_return_params: borrow_params };
    let mut env: Env = Vec::new();
    let mut params: Vec<Param> = Vec::new();
    let mut i: usize = 0;
    while i < f.params.len()
        invariant
            i <= f.params@.len(),
            params@.len() == i,
            forall|j: int| 0 <= j < i ==> (#[trigger] params@[j]).name@ == f.params@[j].name@,
        decreases f.params@.len() - i,
    {
        let param = &f.params[i];
        if find_function(&t.functions, &param.name).is_some() {
            return Err(
                type_err(
                    cat3("binding name ", quoted(&param.name).as_str(), " conflicts with a function name"),
                    param.line,
                    param.column,
                ),
            );
        }
        if env_index(&env, &param.name).is_some() {
            return Err(
                type_err(cat("duplicate parameter ", quoted(&param.name).as_str()), param.line, param.column),
            );
        }
        let ty = match lower_type(&param.ty, &t.struct_names, &t.enum_names, param.line, param.column) {
            Ok(x) => x,
            Err(d) => return Err(d),
        };
        let origin = binding_borrow_origin(&ty, Some(&param.name), &t.structs, &t.enums);
        env.push(
            (
                param.name.clone(),
                Binding {
                    ty: clone_type(&ty),
                    moved: false,
                    borrow_origin: origin,
                    borrowed_owners: Vec::new(),
                    active_borrow_count: 0,
                },
            ),
        );
        params.push(Param { name: param.name.clone(), ty });
        i = i + 1;
    }
    let (body, _, done) = match lower_block(&f.body, &mut env, t, &frame) {
        Ok(x) => x,
        Err(d) => return Err(d),
    };
    if !done {
        return Err(
            err(
                "control",
                cat3("function ", quoted(&f.name).as_str(), " does not return along all paths"),
                f.line,
                f.column,
            ),
        );
    }
    let Frame { current_return, .. } = frame;
    match current_return {
        Some(return_ty) => Ok(Function { name: f.name.clone(), params, return_ty, body }),
        None => Err(type_err_s("internal error: missing return type", f.line, f.column)),
    }
}

} // verus!
