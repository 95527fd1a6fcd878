//! The mid-level representation handed to code generation: the checked
//! program with the checker's bookkeeping dropped.
use vstd::prelude::*;
use crate::hir;

verus! {

#[derive(Debug, PartialEq, Eq)]
pub struct Program {
    pub structs: Vec<StructDef>,
    pub enums: Vec<EnumDef>,
    pub functions: Vec<Function>,
    pub stmts: Vec<Stmt>,
}

#[derive(Debug, PartialEq, Eq)]
pub struct StructDef {
    pub name: String,
    pub fields: Vec<StructField>,
}

#[derive(Debug, PartialEq, Eq)]
pub struct StructField {
    pub name: String,
    pub ty: Type,
}

#[derive(Debug, PartialEq, Eq)]
pub struct EnumDef {
    pub name: String,
    pub variants: Vec<EnumVariantDef>,
}

#[derive(Debug, PartialEq, Eq)]
pub struct EnumVariantDef {
    pub name: String,
    pub payload_tys: Vec<Type>,
    pub payload_names: Vec<String>,
}

#[derive(Debug, PartialEq, Eq)]
pub struct Function {
    pub name: String,
    pub params: Vec<Param>,
    pub return_ty: Type,
    pub body: Vec<Stmt>,
}

#[derive(Debug, PartialEq, Eq)]
pub struct Param {
    pub name: String,
    pub ty: Type,
}

#[derive(Debug, PartialEq, Eq)]
pub enum Stmt {
    Let { name: String, ty: Type, expr: Expr },
    Print(Expr),
    If { cond: Expr, then_block: Vec<Stmt>, else_block: Option<Vec<Stmt>> },
    While { cond: Expr, body: Vec<Stmt> },
    Match { expr: Expr, arms: Vec<MatchArm> },
    Return(Expr),
}

#[derive(Debug, PartialEq, Eq)]
pub struct MatchArm {
    pub enum_name: String,
    pub variant: String,
    pub bindings: Vec<String>,
    pub is_named: bool,
    pub body: Vec<Stmt>,
}

#[derive(Debug, PartialEq, Eq)]
pub struct MapEntry {
    pub key: Expr,
    pub value: Expr,
}

#[derive(Debug, PartialEq, Eq)]
pub enum Expr {
    Literal(LiteralValue),
    VarRef { name: String, ty: Type },
    Call { name: String, args: Vec<Expr>, ty: Type },
    BinaryAdd { lhs: Box<Expr>, rhs: Box<Expr>, ty: Type },
    BinaryCompare { op: CompareOp, lhs: Box<Expr>, rhs: Box<Expr>, ty: Type },
    StructLiteral { name: String, fields: Vec<StructFieldValue>, ty: Type },
    FieldAccess { base: Box<Expr>, field: String, ty: Type },
    TupleLiteral { elements: Vec<Expr>, ty: Type },
    TupleIndex { base: Box<Expr>, index: usize, ty: Type },
    MapLiteral { entries: Vec<MapEntry>, ty: Type },
    EnumVariant {
        enum_name: String,
        variant: String,
        field_names: Vec<String>,
        payloads: Vec<Expr>,
        ty: Type,
    },
    ArrayLiteral { elements: Vec<Expr>, ty: Type },
    Slice { base: Box<Expr>, start: Option<Box<Expr>>, end: Option<Box<Expr>>, ty: Type },
    Index { base: Box<Expr>, index: Box<Expr>, ty: Type },
}

#[derive(Debug, Clone, PartialEq, Eq)]
pub enum LiteralValue {
    Int(i64),
    Bool(bool),
    String(String),
}

#[derive(Debug, Clone, Copy, PartialEq, Eq)]
pub enum CompareOp {
    Eq,
    Ne,
    Lt,
    Le,
    Gt,
    Ge,
}

#[derive(Debug, PartialEq, Eq)]
pub enum Type {
    Int,
    Bool,
    String,
    Struct(String),
    Enum(String),
    Slice(Box<Type>),
    MutSlice(Box<Type>),
    Option(Box<Type>),
    Result(Box<Type>, Box<Type>),
    Tuple(Vec<Type>),
    /// A map from keys to values.
    Dict(Box<Type>, Box<Type>),
    Array(Box<Type>),
}

#[derive(Debug, PartialEq, Eq)]
pub struct StructFieldValue {
    pub name: String,
    pub expr: Expr,
}

impl Type {
    pub open spec fn spec_is_copy(&self) -> bool
        decreases self,
    {
        match self {
            Type::Int | Type::Bool | Type::Slice(_) => true,
            Type::Option(inner) => inner.spec_is_copy(),
            Type::Result(ok, err) => ok.spec_is_copy() && err.spec_is_copy(),
            Type::Tuple(elements) => forall|i: int|
                0 <= i < elements.len() ==> (#[trigger] elements@[i]).spec_is_copy(),
            _ => false,
        }
    }

    /// Whether values of this type are copied rather than moved.
    #[verifier::loop_isolation(false)]
    pub fn is_copy(&self) -> (b: bool)
        ensures
            b == self.spec_is_copy(),
        decreases self,
    {
        match self {
            Type::Int | Type::Bool | Type::Slice(_) => true,
            Type::Option(inner) => inner.is_copy(),
            Type::Result(ok, err) => ok.is_copy() && err.is_copy(),
            Type::Tuple(elements) => {
                let mut i: usize = 0;
                while i < elements.len()
                    invariant
                        i <= elements@.len(),
                        forall|j: int| 0 <= j < i ==> (#[trigger] elements@[j]).spec_is_copy(),
                    decreases elements@.len() - i,
                {
                    proof {
                        assert(decreases_to!(elements => elements[i as int]));
                    }
                    if !elements[i].is_copy() {
                        return false;
                    }
                    i = i + 1;
                }
                true
            },
            _ => false,
        }
    }
}

impl CompareOp {
    pub open spec fn spec_text(self) -> Seq<char> {
        match self {
            CompareOp::Eq => seq!['=', '='],
            CompareOp::Ne => seq!['!', '='],
            CompareOp::Lt => seq!['<'],
            CompareOp::Le => seq!['<', '='],
            CompareOp::Gt => seq!['>'],
            CompareOp::Ge => seq!['>', '='],
        }
    }

    /// The operator as Rust writes it.
    pub fn lexeme(self) -> (s: &'static str)
        ensures
            s@ == self.spec_text(),
    {
        let r = match self {
            CompareOp::Eq => "==",
            CompareOp::Ne => "!=",
            CompareOp::Lt => "<",
            CompareOp::Le => "<=",
            CompareOp::Gt => ">",
            CompareOp::Ge => ">=",
        };
        proof {
            reveal_strlit("==");
            reveal_strlit("!=");
            reveal_strlit("<");
            reveal_strlit("<=");
            reveal_strlit(">");
            reveal_strlit(">=");
        }
        r
    }
}

impl Expr {
    pub open spec fn spec_ty(&self) -> &Type {
        match self {
            Expr::Literal(LiteralValue::Int(_)) => &Type::Int,
            Expr::Literal(LiteralValue::Bool(_)) => &Type::Bool,
            Expr::Literal(LiteralValue::String(_)) => &Type::String,
            Expr::VarRef { ty, .. } => ty,
            Expr::Call { ty, .. } => ty,
            Expr::BinaryAdd { ty, .. } => ty,
            Expr::BinaryCompare { ty, .. } => ty,
            Expr::StructLiteral { ty, .. } => ty,
            Expr::FieldAccess { ty, .. } => ty,
            Expr::TupleLiteral { ty, .. } => ty,
            Expr::TupleIndex { ty, .. } => ty,
            Expr::MapLiteral { ty, .. } => ty,
            Expr::EnumVariant { ty, .. } => ty,
            Expr::ArrayLiteral { ty, .. } => ty,
            Expr::Slice { ty, .. } => ty,
            Expr::Index { ty, .. } => ty,
        }
    }

    /// The type of the expression; a literal's follows from its value.
    pub fn ty(&self) -> (t: &Type)
        ensures
            t == self.spec_ty(),
    {
        match self {
            Expr::Literal(LiteralValue::Int(_)) => &Type::Int,
            Expr::Literal(LiteralValue::Bool(_)) => &Type::Bool,
            Expr::Literal(LiteralValue::String(_)) => &Type::String,
            Expr::VarRef { ty, .. } => ty,
            Expr::Call { ty, .. } => ty,
            Expr::BinaryAdd { ty, .. } => ty,
            Expr::BinaryCompare { ty, .. } => ty,
            Expr::StructLiteral { ty, .. } => ty,
            Expr::FieldAccess { ty, .. } => ty,
            Expr::TupleLiteral { ty, .. } => ty,
            Expr::TupleIndex { ty, .. } => ty,
            Expr::MapLiteral { ty, .. } => ty,
            Expr::EnumVariant { ty, .. } => ty,
            Expr::ArrayLiteral { ty, .. } => ty,
            Expr::Slice { ty, .. } => ty,
            Expr::Index { ty, .. } => ty,
        }
    }
}

// ----- Statement counts --------------------------------------------------------------

/// The number of statements in `s`, nested ones included.
pub open spec fn stmt_count(s: &Stmt) -> nat
    decreases s, 0nat,
{
    match s {
        Stmt::If { then_block, else_block, .. } => 1 + block_count_upto(then_block, then_block@.len())
            + match else_block {
            Some(b) => block_count_upto(b, b@.len()),
            None => 0,
        },
        Stmt::While { body, .. } => 1 + block_count_upto(body, body@.len()),
        Stmt::Match { arms, .. } => 1 + arms_count_upto(arms, arms@.len()),
        _ => 1,
    }
}

/// The statements in the first `n` statements of `b`.
pub open spec fn block_count_upto(b: &Vec<Stmt>, n: nat) -> nat
    decreases b, n,
{
    if n == 0 || n > b@.len() {
        0
    } else {
        block_count_upto(b, (n - 1) as nat) + stmt_count(&b@[n - 1])
    }
}

/// The statements in the bodies of the first `n` arms.
pub open spec fn arms_count_upto(arms: &Vec<MatchArm>, n: nat) -> nat
    decreases arms, n,
{
    if n == 0 || n > arms@.len() {
        0
    } else {
        arms_count_upto(arms, (n - 1) as nat) + block_count_upto(
            &arms@[n - 1].body,
            arms@[n - 1].body@.len(),
        )
    }
}

pub open spec fn block_count(b: &Vec<Stmt>) -> nat {
    block_count_upto(b, b@.len())
}

pub open spec fn functions_count_upto(fs: Seq<Function>, n: nat) -> nat
    decreases n,
{
    if n == 0 || n > fs.len() {
        0
    } else {
        functions_count_upto(fs, (n - 1) as nat) + block_count(&fs[n - 1].body)
    }
}

proof fn lemma_block_count_monotone(b: &Vec<Stmt>, i: nat, n: nat)
    requires
        i <= n <= b@.len(),
    ensures
        block_count_upto(b, i) <= block_count_upto(b, n),
    decreases n - i,
{
    if i < n {
        lemma_block_count_monotone(b, i, (n - 1) as nat);
    }
}

proof fn lemma_arms_count_monotone(arms: &Vec<MatchArm>, i: nat, n: nat)
    requires
        i <= n <= arms@.len(),
    ensures
        arms_count_upto(arms, i) <= arms_count_upto(arms, n),
    decreases n - i,
{
    if i < n {
        lemma_arms_count_monotone(arms, i, (n - 1) as nat);
    }
}

proof fn lemma_functions_count_monotone(fs: Seq<Function>, i: nat, n: nat)
    requires
        i <= n <= fs.len(),
    ensures
        functions_count_upto(fs, i) <= functions_count_upto(fs, n),
    decreases n - i,
{
    if i < n {
        lemma_functions_count_monotone(fs, i, (n - 1) as nat);
    }
}

#[verifier::loop_isolation(false)]
fn count_stmt(s: &Stmt) -> (r: usize)
    requires
        stmt_count(s) <= usize::MAX,
    ensures
        r == stmt_count(s),
    decreases s, 1nat,
{
    match s {
        Stmt::If { then_block, else_block, .. } => {
            let a = count_block(then_block);
            let b = match else_block {
                Some(e) => count_block(e),
                None => 0,
            };
            1 + a + b
        },
        Stmt::While { body, .. } => 1 + count_block(body),
        Stmt::Match { arms, .. } => {
            let mut total: usize = 0;
            let mut i: usize = 0;
            while i < arms.len()
                invariant
                    i <= arms@.len(),
                    total == arms_count_upto(arms, i as nat),
                    arms_count_upto(arms, arms@.len()) + 1 <= usize::MAX,
                decreases arms@.len() - i,
            {
                proof {
                    lemma_arms_count_monotone(arms, (i + 1) as nat, arms@.len());
                    assert(decreases_to!(arms => arms[i as int]));
                }
                total = total + count_block(&arms[i].body);
                i = i + 1;
            }
            1 + total
        },
        _ => 1,
    }
}

fn count_block(b: &Vec<Stmt>) -> (r: usize)
    requires
        block_count(b) <= usize::MAX,
    ensures
        r == block_count(b),
    decreases b, 0nat,
{
    let mut total: usize = 0;
    let mut i: usize = 0;
    while i < b.len()
        invariant
            i <= b@.len(),
            total == block_count_upto(b, i as nat),
            block_count_upto(b, b@.len()) <= usize::MAX,
        decreases b@.len() - i,
    {
        proof {
            lemma_block_count_monotone(b, (i + 1) as nat, b@.len());
            assert(decreases_to!(b => b[i as int]));
        }
        total = total + count_stmt(&b[i]);
        i = i + 1;
    }
    total
}

impl Program {
    pub open spec fn spec_statement_count(&self) -> nat {
        functions_count_upto(self.functions@, self.functions@.len()) + block_count(&self.stmts)
    }

    /// The number of statements in the program: function bodies and top-level
    /// statements, nested ones included.
    pub fn statement_count(&self) -> (r: usize)
        requires
            self.spec_statement_count() <= usize::MAX,
        ensures
            r == self.spec_statement_count(),
    {
        let mut total: usize = 0;
        let mut i: usize = 0;
        while i < self.functions.len()
            invariant
                i <= self.functions@.len(),
                total == functions_count_upto(self.functions@, i as nat),
                self.spec_statement_count() <= usize::MAX,
            decreases self.functions@.len() - i,
        {
            proof {
                lemma_functions_count_monotone(
                    self.functions@,
                    (i + 1) as nat,
                    self.functions@.len(),
                );
            }
            total = total + count_block(&self.functions[i].body);
            i = i + 1;
        }
        total + count_block(&self.stmts)
    }
}

// ----- Lowering from the checked program --------------------------------------------

pub open spec fn same_compare_op(a: hir::CompareOp, b: CompareOp) -> bool {
    match (a, b) {
        (hir::CompareOp::Eq, CompareOp::Eq) => true,
        (hir::CompareOp::Ne, CompareOp::Ne) => true,
        (hir::CompareOp::Lt, CompareOp::Lt) => true,
        (hir::CompareOp::Le, CompareOp::Le) => true,
        (hir::CompareOp::Gt, CompareOp::Gt) => true,
        (hir::CompareOp::Ge, CompareOp::Ge) => true,
        _ => false,
    }
}

fn lower_compare_op(op: hir::CompareOp) -> (r: CompareOp)
    ensures
        same_compare_op(op, r),
{
    match op {
        hir::CompareOp::Eq => CompareOp::Eq,
        hir::CompareOp::Ne => CompareOp::Ne,
        hir::CompareOp::Lt => CompareOp::Lt,
        hir::CompareOp::Le => CompareOp::Le,
        hir::CompareOp::Gt => CompareOp::Gt,
        hir::CompareOp::Ge => CompareOp::Ge,
    }
}

/// The same type in this representation: the shapes agree and names are kept.
pub open spec fn same_type(a: &hir::Type, b: &Type) -> bool
    decreases a,
{
    match (a, b) {
        (hir::Type::Int, Type::Int) => true,
        (hir::Type::Bool, Type::Bool) => true,
        (hir::Type::String, Type::String) => true,
        (hir::Type::Struct(x), Type::Struct(y)) => x@ == y@,
        (hir::Type::Enum(x), Type::Enum(y)) => x@ == y@,
        (hir::Type::Slice(x), Type::Slice(y)) => same_type(x, y),
        (hir::Type::MutSlice(x), Type::MutSlice(y)) => same_type(x, y),
        (hir::Type::Option(x), Type::Option(y)) => same_type(x, y),
        (hir::Type::Result(x1, x2), Type::Result(y1, y2)) => same_type(x1, y1) && same_type(x2, y2),
        (hir::Type::Tuple(xs), Type::Tuple(ys)) => xs.len() == ys.len() && forall|i: int|
            0 <= i < xs.len() ==> same_type(&(#[trigger] xs@[i]), &ys@[i]),
        (hir::Type::Dict(x1, x2), Type::Dict(y1, y2)) => same_type(x1, y1) && same_type(x2, y2),
        (hir::Type::Array(x), Type::Array(y)) => same_type(x, y),
        _ => false,
    }
}

#[verifier::loop_isolation(false)]
fn lower_type(t: &hir::Type) -> (r: Type)
    ensures
        same_type(t, &r),
    decreases t,
{
    match t {
        hir::Type::Int => Type::Int,
        hir::Type::Bool => Type::Bool,
        hir::Type::String => Type::String,
        hir::Type::Struct(x) => Type::Struct(x.clone()),
        hir::Type::Enum(x) => Type::Enum(x.clone()),
        hir::Type::Slice(x) => Type::Slice(Box::new(lower_type(x))),
        hir::Type::MutSlice(x) => Type::MutSlice(Box::new(lower_type(x))),
        hir::Type::Option(x) => Type::Option(Box::new(lower_type(x))),
        hir::Type::Result(x, y) => Type::Result(Box::new(lower_type(x)), Box::new(lower_type(y))),
        hir::Type::Tuple(xs) => {
            let mut out: Vec<Type> = Vec::new();
            let mut i: usize = 0;
            while i < xs.len()
                invariant
                    i <= xs@.len(),
                    out@.len() == i,
                    forall|j: int| 0 <= j < i ==> same_type(&xs@[j], &(#[trigger] out@[j])),
                decreases xs@.len() - i,
            {
                proof {
                    assert(decreases_to!(xs => xs[i as int]));
                }
                out.push(lower_type(&xs[i]));
                i = i + 1;
            }
            Type::Tuple(out)
        },
        hir::Type::Dict(x, y) => Type::Dict(Box::new(lower_type(x)), Box::new(lower_type(y))),
        hir::Type::Array(x) => Type::Array(Box::new(lower_type(x))),
    }
}

fn lower_types(v: &Vec<hir::Type>) -> (r: Vec<Type>)
    ensures
        r@.len() == v@.len(),
        forall|j: int| 0 <= j < v@.len() ==> same_type(&v@[j], &(#[trigger] r@[j])),
{
    let mut out: Vec<Type> = Vec::new();
    let mut i: usize = 0;
    while i < v.len()
        invariant
            i <= v@.len(),
            out@.len() == i,
            forall|j: int| 0 <= j < i ==> same_type(&v@[j], &(#[trigger] out@[j])),
        decreases v@.len() - i,
    {
        out.push(lower_type(&v[i]));
        i = i + 1;
    }
    out
}

fn clone_strings(v: &Vec<String>) -> (r: Vec<String>)
    ensures
        r@ == v@,
{
    let mut out: Vec<String> = Vec::new();
    let mut i: usize = 0;
    while i < v.len()
        invariant
            i <= v@.len(),
            out@ == v@.subrange(0, i as int),
        decreases v@.len() - i,
    {
        out.push(v[i].clone());
        i = i + 1;
    }
    assert(v@.subrange(0, v@.len() as int) == v@);
    out
}

pub open spec fn same_literal(a: hir::LiteralValue, b: LiteralValue) -> bool {
    match (a, b) {
        (hir::LiteralValue::Int(x), LiteralValue::Int(y)) => x == y,
        (hir::LiteralValue::Bool(x), LiteralValue::Bool(y)) => x == y,
        (hir::LiteralValue::String(x), LiteralValue::String(y)) => x@ == y@,
        _ => false,
    }
}

/// The same expression in this representation: the same shape, names,
/// literals and operators, and the same type at every node.
pub open spec fn same_expr(a: &hir::Expr, b: &Expr) -> bool
    decreases a,
{
    match (a, b) {
        (hir::Expr::Literal { value: x, .. }, Expr::Literal(y)) => same_literal(*x, *y),
        (hir::Expr::VarRef { name: n1, ty: t1 }, Expr::VarRef { name: n2, ty: t2 }) => n1@ == n2@
            && same_type(t1, t2),
        (hir::Expr::Call { name: n1, args: a1, ty: t1 }, Expr::Call { name: n2, args: a2, ty: t2 }) => {
            &&& n1@ == n2@
            &&& a1.len() == a2.len()
            &&& forall|i: int| 0 <= i < a1.len() ==> same_expr(&(#[trigger] a1@[i]), &a2@[i])
            &&& same_type(t1, t2)
        },
        (
            hir::Expr::BinaryAdd { lhs: l1, rhs: r1, ty: t1 },
            Expr::BinaryAdd { lhs: l2, rhs: r2, ty: t2 },
        ) => same_expr(l1, l2) && same_expr(r1, r2) && same_type(t1, t2),
        (
            hir::Expr::BinaryCompare { op: o1, lhs: l1, rhs: r1, ty: t1 },
            Expr::BinaryCompare { op: o2, lhs: l2, rhs: r2, ty: t2 },
        ) => same_compare_op(*o1, *o2) && same_expr(l1, l2) && same_expr(r1, r2) && same_type(t1, t2),
        (
            hir::Expr::StructLiteral { name: n1, fields: f1, ty: t1 },
            Expr::StructLiteral { name: n2, fields: f2, ty: t2 },
        ) => {
            &&& n1@ == n2@
            &&& f1.len() == f2.len()
            &&& forall|i: int|
                0 <= i < f1.len() ==> (#[trigger] f1@[i]).name@ == f2@[i].name@ && same_expr(
                    &f1@[i].expr,
                    &f2@[i].expr,
                )
            &&& same_type(t1, t2)
        },
        (
            hir::Expr::FieldAccess { base: b1, field: f1, ty: t1 },
            Expr::FieldAccess { base: b2, field: f2, ty: t2 },
        ) => same_expr(b1, b2) && f1@ == f2@ && same_type(t1, t2),
        (
            hir::Expr::TupleLiteral { elements: e1, ty: t1 },
            Expr::TupleLiteral { elements: e2, ty: t2 },
        ) => {
            &&& e1.len() == e2.len()
            &&& forall|i: int| 0 <= i < e1.len() ==> same_expr(&(#[trigger] e1@[i]), &e2@[i])
            &&& same_type(t1, t2)
        },
        (
            hir::Expr::TupleIndex { base: b1, index: i1, ty: t1 },
            Expr::TupleIndex { base: b2, index: i2, ty: t2 },
        ) => same_expr(b1, b2) && i1 == i2 && same_type(t1, t2),
        (hir::Expr::MapLiteral { entries: e1, ty: t1 }, Expr::MapLiteral { entries: e2, ty: t2 }) => {
            &&& e1.len() == e2.len()
            &&& forall|i: int|
                0 <= i < e1.len() ==> same_expr(&(#[trigger] e1@[i]).key, &e2@[i].key) && same_expr(
                    &e1@[i].value,
                    &e2@[i].value,
                )
            &&& same_type(t1, t2)
        },
        (
            hir::Expr::EnumVariant {
                enum_name: n1,
                variant: v1,
                field_names: f1,
                payloads: p1,
                ty: t1,
            },
            Expr::EnumVariant { enum_name: n2, variant: v2, field_names: f2, payloads: p2, ty: t2 },
        ) => {
            &&& n1@ == n2@
            &&& v1@ == v2@
            &&& f1@ == f2@
            &&& p1.len() == p2.len()
            &&& forall|i: int| 0 <= i < p1.len() ==> same_expr(&(#[trigger] p1@[i]), &p2@[i])
            &&& same_type(t1, t2)
        },
        (
            hir::Expr::ArrayLiteral { elements: e1, ty: t1 },
            Expr::ArrayLiteral { elements: e2, ty: t2 },
        ) => {
            &&& e1.len() == e2.len()
            &&& forall|i: int| 0 <= i < e1.len() ==> same_expr(&(#[trigger] e1@[i]), &e2@[i])
            &&& same_type(t1, t2)
        },
        (
            hir::Expr::Slice { base: b1, start: s1, end: x1, ty: t1 },
            Expr::Slice { base: b2, start: s2, end: x2, ty: t2 },
        ) => {
            &&& same_expr(b1, b2)
            &&& match (s1, s2) {
                (Some(p), Some(q)) => same_expr(p, q),
                (None, None) => true,
                _ => false,
            }
            &&& match (x1, x2) {
                (Some(p), Some(q)) => same_expr(p, q),
                (None, None) => true,
                _ => false,
            }
            &&& same_type(t1, t2)
        },
        (
            hir::Expr::Index { base: b1, index: i1, ty: t1 },
            Expr::Index { base: b2, index: i2, ty: t2 },
        ) => same_expr(b1, b2) && same_expr(i1, i2) && same_type(t1, t2),
        _ => false,
    }
}

fn lower_literal(v: &hir::LiteralValue) -> (r: LiteralValue)
    ensures
        same_literal(*v, r),
{
    match v {
        hir::LiteralValue::Int(x) => LiteralValue::Int(*x),
        hir::LiteralValue::Bool(x) => LiteralValue::Bool(*x),
        hir::LiteralValue::String(x) => LiteralValue::String(x.clone()),
    }
}

fn lower_exprs(v: &Vec<hir::Expr>) -> (r: Vec<Expr>)
    ensures
        r@.len() == v@.len(),
        forall|i: int| 0 <= i < v@.len() ==> same_expr(&(#[trigger] v@[i]), &r@[i]),
    decreases v, 0nat,
{
    let mut out: Vec<Expr> = Vec::new();
    let mut i: usize = 0;
    while i < v.len()
        invariant
            i <= v@.len(),
            out@.len() == i,
            forall|j: int| 0 <= j < i ==> same_expr(&(#[trigger] v@[j]), &out@[j]),
        decreases v@.len() - i,
    {
        proof {
            assert(decreases_to!(v => v[i as int]));
        }
        out.push(lower_expr(&v[i]));
        i = i + 1;
    }
    out
}

#[verifier::loop_isolation(false)]
fn lower_expr(e: &hir::Expr) -> (r: Expr)
    ensures
        same_expr(e, &r),
    decreases e, 1nat,
{
    match e {
        hir::Expr::Literal { value, .. } => Expr::Literal(lower_literal(value)),
        hir::Expr::VarRef { name, ty } => Expr::VarRef { name: name.clone(), ty: lower_type(ty) },
        hir::Expr::Call { name, args, ty } => Expr::Call {
            name: name.clone(),
            args: lower_exprs(args),
            ty: lower_type(ty),
        },
        hir::Expr::BinaryAdd { lhs, rhs, ty } => Expr::BinaryAdd {
            lhs: Box::new(lower_expr(lhs)),
            rhs: Box::new(lower_expr(rhs)),
            ty: lower_type(ty),
        },
        hir::Expr::BinaryCompare { op, lhs, rhs, ty } => Expr::BinaryCompare {
            op: lower_compare_op(*op),
            lhs: Box::new(lower_expr(lhs)),
            rhs: Box::new(lower_expr(rhs)),
            ty: lower_type(ty),
        },
        hir::Expr::StructLiteral { name, fields, ty } => {
            let mut out: Vec<StructFieldValue> = Vec::new();
            let mut i: usize = 0;
            while i < fields.len()
                invariant
                    i <= fields@.len(),
                    out@.len() == i,
                    forall|j: int|
                        0 <= j < i ==> (#[trigger] fields@[j]).name@ == out@[j].name@ && same_expr(
                            &fields@[j].expr,
                            &out@[j].expr,
                        ),
                decreases fields@.len() - i,
            {
                proof {
                    assert(decreases_to!(fields => fields[i as int]));
                }
                out.push(
                    StructFieldValue { name: fields[i].name.clone(), expr: lower_expr(&fields[i].expr) },
                );
                i = i + 1;
            }
            Expr::StructLiteral { name: name.clone(), fields: out, ty: lower_type(ty) }
        },
        hir::Expr::FieldAccess { base, field, ty } => Expr::FieldAccess {
            base: Box::new(lower_expr(base)),
            field: field.clone(),
            ty: lower_type(ty),
        },
        hir::Expr::TupleLiteral { elements, ty } => Expr::TupleLiteral {
            elements: lower_exprs(elements),
            ty: lower_type(ty),
        },
        hir::Expr::TupleIndex { base, index, ty } => Expr::TupleIndex {
            base: Box::new(lower_expr(base)),
            index: *index,
            ty: lower_type(ty),
        },
        hir::Expr::MapLiteral { entries, ty } => {
            let mut out: Vec<MapEntry> = Vec::new();
            let mut i: usize = 0;
            while i < entries.len()
                invariant
                    i <= entries@.len(),
                    out@.len() == i,
                    forall|j: int|
                        0 <= j < i ==> same_expr(&(#[trigger] entries@[j]).key, &out@[j].key)
                            && same_expr(&entries@[j].value, &out@[j].value),
                decreases entries@.len() - i,
            {
                proof {
                    assert(decreases_to!(entries => entries[i as int]));
                }
                out.push(
                    MapEntry {
                        key: lower_expr(&entries[i].key),
                        value: lower_expr(&entries[i].value),
                    },
                );
                i = i + 1;
            }
            Expr::MapLiteral { entries: out, ty: lower_type(ty) }
        },
        hir::Expr::EnumVariant { enum_name, variant, field_names, payloads, ty } => {
            Expr::EnumVariant {
                enum_name: enum_name.clone(),
                variant: variant.clone(),
                field_names: clone_strings(field_names),
                payloads: lower_exprs(payloads),
                ty: lower_type(ty),
            }
        },
        hir::Expr::ArrayLiteral { elements, ty } => Expr::ArrayLiteral {
            elements: lower_exprs(elements),
            ty: lower_type(ty),
        },
        hir::Expr::Slice { base, start, end, ty } => {
            let s = match start {
                Some(x) => Some(Box::new(lower_expr(x))),
                None => None,
            };
            let n = match end {
                Some(x) => Some(Box::new(lower_expr(x))),
                None => None,
            };
            Expr::Slice { base: Box::new(lower_expr(base)), start: s, end: n, ty: lower_type(ty) }
        },
        hir::Expr::Index { base, index, ty } => Expr::Index {
            base: Box::new(lower_expr(base)),
            index: Box::new(lower_expr(index)),
            ty: lower_type(ty),
        },
    }
}

/// The same statement shape in this representation, nested blocks included.
pub open spec fn same_stmt(a: &hir::Stmt, b: &Stmt) -> bool
    decreases a,
{
    match (a, b) {
        (hir::Stmt::Let { name: x, ty: t1, expr: e1 }, Stmt::Let { name: y, ty: t2, expr: e2 }) => x@
            == y@ && same_type(t1, t2) && same_expr(e1, e2),
        (hir::Stmt::Print(x), Stmt::Print(y)) => same_expr(x, y),
        (
            hir::Stmt::If { cond: c1, then_block: t1, else_block: e1 },
            Stmt::If { cond: c2, then_block: t2, else_block: e2 },
        ) => {
            &&& same_expr(c1, c2)
            &&& same_block(t1, t2)
            &&& match (e1, e2) {
                (Some(x), Some(y)) => same_block(x, y),
                (None, None) => true,
                _ => false,
            }
        },
        (hir::Stmt::While { cond: c1, body: x }, Stmt::While { cond: c2, body: y }) => same_expr(c1, c2)
            && same_block(x, y),
        (hir::Stmt::Match { expr: e1, arms: x }, Stmt::Match { expr: e2, arms: y }) => {
            &&& same_expr(e1, e2)
            &&& x.len() == y.len()
            &&& forall|i: int| 0 <= i < x.len() ==> same_arm(&(#[trigger] x@[i]), &y@[i])
        },
        (hir::Stmt::Return(x), Stmt::Return(y)) => same_expr(x, y),
        _ => false,
    }
}

/// The same match arm: the same pattern and the same body.
pub open spec fn same_arm(a: &hir::MatchArm, b: &MatchArm) -> bool
    decreases a,
{
    &&& a.enum_name@ == b.enum_name@
    &&& a.variant@ == b.variant@
    &&& a.bindings@ == b.bindings@
    &&& a.is_named == b.is_named
    &&& same_block(&a.body, &b.body)
}

pub open spec fn same_block(a: &Vec<hir::Stmt>, b: &Vec<Stmt>) -> bool
    decreases a,
{
    a.len() == b.len() && forall|i: int| 0 <= i < a.len() ==> same_stmt(&(#[trigger] a@[i]), &b@[i])
}

fn lower_block(b: &Vec<hir::Stmt>) -> (r: Vec<Stmt>)
    ensures
        same_block(b, &r),
    decreases b, 0nat,
{
    let mut out: Vec<Stmt> = Vec::new();
    let mut i: usize = 0;
    while i < b.len()
        invariant
            i <= b@.len(),
            out@.len() == i,
            forall|j: int| 0 <= j < i ==> same_stmt(&(#[trigger] b@[j]), &out@[j]),
        decreases b@.len() - i,
    {
        proof {
            assert(decreases_to!(b => b[i as int]));
        }
        out.push(lower_stmt(&b[i]));
        i = i + 1;
    }
    out
}

#[verifier::loop_isolation(false)]
fn lower_stmt(s: &hir::Stmt) -> (r: Stmt)
    ensures
        same_stmt(s, &r),
    decreases s, 1nat,
{
    match s {
        hir::Stmt::Let { name, ty, expr } => Stmt::Let {
            name: name.clone(),
            ty: lower_type(ty),
            expr: lower_expr(expr),
        },
        hir::Stmt::Print(e) => Stmt::Print(lower_expr(e)),
        hir::Stmt::If { cond, then_block, else_block } => Stmt::If {
            cond: lower_expr(cond),
            then_block: lower_block(then_block),
            else_block: match else_block {
                Some(b) => Some(lower_block(b)),
                None => None,
            },
        },
        hir::Stmt::While { cond, body } => Stmt::While {
            cond: lower_expr(cond),
            body: lower_block(body),
        },
        hir::Stmt::Match { expr, arms } => {
            let mut out: Vec<MatchArm> = Vec::new();
            let mut i: usize = 0;
            while i < arms.len()
                invariant
                    i <= arms@.len(),
                    out@.len() == i,
                    forall|j: int| 0 <= j < i ==> same_arm(&(#[trigger] arms@[j]), &out@[j]),
                decreases arms@.len() - i,
            {
                proof {
                    assert(decreases_to!(arms => arms[i as int]));
                }
                let arm = &arms[i];
                out.push(
                    MatchArm {
                        enum_name: arm.enum_name.clone(),
                        variant: arm.variant.clone(),
                        bindings: clone_strings(&arm.bindings),
                        is_named: arm.is_named,
                        body: lower_block(&arm.body),
                    },
                );
                i = i + 1;
            }
            Stmt::Match { expr: lower_expr(expr), arms: out }
        },
        hir::Stmt::Return(e) => Stmt::Return(lower_expr(e)),
    }
}

/// The same struct declaration: its name and its fields' names and types.
pub open spec fn same_struct(a: &hir::StructDef, b: &StructDef) -> bool {
    &&& a.name@ == b.name@
    &&& a.fields@.len() == b.fields@.len()
    &&& forall|i: int|
        0 <= i < a.fields@.len() ==> (#[trigger] a.fields@[i]).name@ == b.fields@[i].name@ && same_type(
            &a.fields@[i].ty,
            &b.fields@[i].ty,
        )
}

/// The same enum declaration: its name and its variants' names, payload
/// types and payload names.
pub open spec fn same_enum(a: &hir::EnumDef, b: &EnumDef) -> bool {
    &&& a.name@ == b.name@
    &&& a.variants@.len() == b.variants@.len()
    &&& forall|i: int|
        0 <= i < a.variants@.len() ==> {
            &&& (#[trigger] a.variants@[i]).name@ == b.variants@[i].name@
            &&& a.variants@[i].payload_names@ == b.variants@[i].payload_names@
            &&& a.variants@[i].payload_tys@.len() == b.variants@[i].payload_tys@.len()
            &&& forall|k: int|
                0 <= k < a.variants@[i].payload_tys@.len() ==> same_type(
                    &(#[trigger] a.variants@[i].payload_tys@[k]),
                    &b.variants@[i].payload_tys@[k],
                )
        }
}

/// The same function: its name, parameters, result type and body.
pub open spec fn same_function(a: &hir::Function, b: &Function) -> bool {
    &&& a.name@ == b.name@
    &&& a.params@.len() == b.params@.len()
    &&& forall|i: int|
        0 <= i < a.params@.len() ==> (#[trigger] a.params@[i]).name@ == b.params@[i].name@ && same_type(
            &a.params@[i].ty,
            &b.params@[i].ty,
        )
    &&& same_type(&a.return_ty, &b.return_ty)
    &&& same_block(&a.body, &b.body)
}

fn lower_struct(s: &hir::StructDef) -> (r: StructDef)
    ensures
        same_struct(s, &r),
{
    let mut fields: Vec<StructField> = Vec::new();
    let mut i: usize = 0;
    while i < s.fields.len()
        invariant
            i <= s.fields@.len(),
            fields@.len() == i,
            forall|j: int|
                0 <= j < i ==> (#[trigger] s.fields@[j]).name@ == fields@[j].name@ && same_type(
                    &s.fields@[j].ty,
                    &fields@[j].ty,
                ),
        decreases s.fields@.len() - i,
    {
        fields.push(StructField { name: s.fields[i].name.clone(), ty: lower_type(&s.fields[i].ty) });
        i = i + 1;
    }
    StructDef { name: s.name.clone(), fields }
}

fn lower_enum(e: &hir::EnumDef) -> (r: EnumDef)
    ensures
        same_enum(e, &r),
{
    let mut variants: Vec<EnumVariantDef> = Vec::new();
    let mut i: usize = 0;
    while i < e.variants.len()
        invariant
            i <= e.variants@.len(),
            variants@.len() == i,
            forall|j: int|
                0 <= j < i ==> {
                    &&& (#[trigger] e.variants@[j]).name@ == variants@[j].name@
                    &&& e.variants@[j].payload_names@ == variants@[j].payload_names@
                    &&& e.variants@[j].payload_tys@.len() == variants@[j].payload_tys@.len()
                    &&& forall|k: int|
                        0 <= k < e.variants@[j].payload_tys@.len() ==> same_type(
                            &(#[trigger] e.variants@[j].payload_tys@[k]),
                            &variants@[j].payload_tys@[k],
                        )
                },
        decreases e.variants@.len() - i,
    {
        let v = &e.variants[i];
        variants.push(
            EnumVariantDef {
                name: v.name.clone(),
                payload_tys: lower_types(&v.payload_tys),
                payload_names: clone_strings(&v.payload_names),
            },
        );
        i = i + 1;
    }
    EnumDef { name: e.name.clone(), variants }
}

fn lower_function(f: &hir::Function) -> (r: Function)
    ensures
        same_function(f, &r),
{
    let mut params: Vec<Param> = Vec::new();
    let mut i: usize = 0;
    while i < f.params.len()
        invariant
            i <= f.params@.len(),
            params@.len() == i,
            forall|j: int|
                0 <= j < i ==> (#[trigger] f.params@[j]).name@ == params@[j].name@ && same_type(
                    &f.params@[j].ty,
                    &params@[j].ty,
                ),
        decreases f.params@.len() - i,
    {
        params.push(Param { name: f.params[i].name.clone(), ty: lower_type(&f.params[i].ty) });
        i = i + 1;
    }
    Function {
        name: f.name.clone(),
        params,
        return_ty: lower_type(&f.return_ty),
        body: lower_block(&f.body),
    }
}

/// `r` is `program` with the checker's bookkeeping dropped: the same
/// declarations, functions and statements, in order, with the same names,
/// types and expressions.
pub open spec fn lowered_from(program: &hir::Program, r: &Program) -> bool {
    &&& r.structs@.len() == program.structs@.len()
    &&& forall|j: int|
        0 <= j < program.structs@.len() ==> same_struct(&(#[trigger] program.structs@[j]), &r.structs@[j])
    &&& r.enums@.len() == program.enums@.len()
    &&& forall|j: int|
        0 <= j < program.enums@.len() ==> same_enum(&(#[trigger] program.enums@[j]), &r.enums@[j])
    &&& r.functions@.len() == program.functions@.len()
    &&& forall|j: int|
        0 <= j < program.functions@.len() ==> same_function(
            &(#[trigger] program.functions@[j]),
            &r.functions@[j],
        )
    &&& same_block(&program.stmts, &r.stmts)
}

/// Lowers a checked program, keeping its declarations, functions and
/// statements in order and in shape.
pub fn lower(program: &hir::Program) -> (r: Program)
    ensures
        lowered_from(program, &r),
{
    let mut structs: Vec<StructDef> = Vec::new();
    let mut i: usize = 0;
    while i < program.structs.len()
        invariant
            i <= program.structs@.len(),
            structs@.len() == i,
            forall|j: int| 0 <= j < i ==> same_struct(&(#[trigger] program.structs@[j]), &structs@[j]),
        decreases program.structs@.len() - i,
    {
        structs.push(lower_struct(&program.structs[i]));
        i = i + 1;
    }
    let mut enums: Vec<EnumDef> = Vec::new();
    let mut k: usize = 0;
    while k < program.enums.len()
        invariant
            k <= program.enums@.len(),
            enums@.len() == k,
            forall|j: int| 0 <= j < k ==> same_enum(&(#[trigger] program.enums@[j]), &enums@[j]),
        decreases program.enums@.len() - k,
    {
        enums.push(lower_enum(&program.enums[k]));
        k = k + 1;
    }
    let mut functions: Vec<Function> = Vec::new();
    let mut f: usize = 0;
    while f < program.functions.len()
        invariant
            f <= program.functions@.len(),
            functions@.len() == f,
            forall|j: int|
                0 <= j < f ==> same_function(&(#[trigger] program.functions@[j]), &functions@[j]),
        decreases program.functions@.len() - f,
    {
        functions.push(lower_function(&program.functions[f]));
        f = f + 1;
    }
    Program { structs, enums, functions, stmts: lower_block(&program.stmts) }
}

} // verus!
