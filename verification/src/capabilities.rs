//! The per-module capability check: a module may call a host intrinsic only
//! where its own package's manifest enables the intrinsic's capability.
use vstd::prelude::*;
use crate::diagnostics::Diagnostic;
use crate::manifest::{CapabilityConfig, CapabilityKind};
use crate::syntax;
use crate::text::{cat5, debug_quoted, debug_string, string_is};

verus! {

/// The capability a host intrinsic needs, if it needs one.
pub open spec fn intrinsic_kind(name: Seq<char>) -> Option<CapabilityKind> {
    if name == "fs_read"@ {
        Some(CapabilityKind::Fs)
    } else if name == "net_resolve"@ || name == "http_get"@ {
        Some(CapabilityKind::Net)
    } else if name == "process_status"@ {
        Some(CapabilityKind::Process)
    } else if name == "clock_now_ms"@ {
        Some(CapabilityKind::Clock)
    } else if name == "env_get"@ {
        Some(CapabilityKind::Env)
    } else if name == "crypto_sha256"@ {
        Some(CapabilityKind::Crypto)
    } else {
        None
    }
}

/// The capability a host intrinsic needs, if it needs one.
pub fn intrinsic_capability(name: &String) -> (r: Option<CapabilityKind>)
    ensures
        r == intrinsic_kind(name@),
{
    if string_is(name, "fs_read") {
        Some(CapabilityKind::Fs)
    } else if string_is(name, "net_resolve") || string_is(name, "http_get") {
        Some(CapabilityKind::Net)
    } else if string_is(name, "process_status") {
        Some(CapabilityKind::Process)
    } else if string_is(name, "clock_now_ms") {
        Some(CapabilityKind::Clock)
    } else if string_is(name, "env_get") {
        Some(CapabilityKind::Env)
    } else if string_is(name, "crypto_sha256") {
        Some(CapabilityKind::Crypto)
    } else {
        None
    }
}

/// Whether `name` is an intrinsic whose capability `caps` leaves off.
pub open spec fn denied_call(name: Seq<char>, caps: CapabilityConfig) -> bool {
    match intrinsic_kind(name) {
        Some(k) => !caps.spec_enabled(k),
        None => false,
    }
}

/// Whether `e` calls, anywhere in it, an intrinsic that `caps` does not allow.
pub open spec fn expr_denied(e: &syntax::Expr, caps: CapabilityConfig) -> bool
    decreases e,
{
    match e {
        syntax::Expr::Literal(_) | syntax::Expr::VarRef { .. } => false,
        syntax::Expr::Call { name, args, .. } => denied_call(name@, caps) || exists|i: int|
            0 <= i < args.len() && expr_denied(&(#[trigger] args@[i]), caps),
        syntax::Expr::BinaryAdd { lhs, rhs, .. } => expr_denied(lhs, caps) || expr_denied(rhs, caps),
        syntax::Expr::BinaryCompare { lhs, rhs, .. } => expr_denied(lhs, caps) || expr_denied(
            rhs,
            caps,
        ),
        syntax::Expr::StructLiteral { fields, .. } => exists|i: int|
            0 <= i < fields.len() && expr_denied(&(#[trigger] fields@[i]).expr, caps),
        syntax::Expr::FieldAccess { base, .. } => expr_denied(base, caps),
        syntax::Expr::TupleIndex { base, .. } => expr_denied(base, caps),
        syntax::Expr::TupleLiteral { elements, .. } => exists|i: int|
            0 <= i < elements.len() && expr_denied(&(#[trigger] elements@[i]), caps),
        syntax::Expr::ArrayLiteral { elements, .. } => exists|i: int|
            0 <= i < elements.len() && expr_denied(&(#[trigger] elements@[i]), caps),
        syntax::Expr::MapLiteral { entries, .. } => exists|i: int|
            0 <= i < entries.len() && (expr_denied(&(#[trigger] entries@[i]).key, caps)
                || expr_denied(&entries@[i].value, caps)),
        syntax::Expr::Slice { base, start, end, .. } => {
            ||| expr_denied(base, caps)
            ||| (match start {
                Some(s) => expr_denied(s, caps),
                None => false,
            })
            ||| (match end {
                Some(x) => expr_denied(x, caps),
                None => false,
            })
        },
        syntax::Expr::Index { base, index, .. } => expr_denied(base, caps) || expr_denied(
            index,
            caps,
        ),
    }
}

/// Whether a statement, nested blocks included, calls an intrinsic that `caps` does not allow.
pub open spec fn stmt_denied(s: &syntax::Stmt, caps: CapabilityConfig) -> bool
    decreases s,
{
    match s {
        syntax::Stmt::Let { expr, .. } => expr_denied(expr, caps),
        syntax::Stmt::Print { expr, .. } => expr_denied(expr, caps),
        syntax::Stmt::Return { expr, .. } => expr_denied(expr, caps),
        syntax::Stmt::If { cond, then_block, else_block, .. } => {
            ||| expr_denied(cond, caps)
            ||| block_denied(then_block, caps)
            ||| (match else_block {
                Some(b) => block_denied(b, caps),
                None => false,
            })
        },
        syntax::Stmt::While { cond, body, .. } => expr_denied(cond, caps) || block_denied(body, caps),
        syntax::Stmt::Match { expr, arms, .. } => expr_denied(expr, caps) || exists|i: int|
            0 <= i < arms.len() && block_denied(&(#[trigger] arms@[i]).body, caps),
    }
}

pub open spec fn block_denied(b: &Vec<syntax::Stmt>, caps: CapabilityConfig) -> bool
    decreases b,
{
    exists|i: int| 0 <= i < b.len() && stmt_denied(&(#[trigger] b@[i]), caps)
}

/// Whether a program's function bodies or top-level statements call an
/// intrinsic that `caps` does not allow.
pub open spec fn program_denied(p: &syntax::Program, caps: CapabilityConfig) -> bool {
    ||| exists|i: int| 0 <= i < p.functions.len() && block_denied(&(#[trigger] p.functions@[i]).body, caps)
    ||| block_denied(&p.stmts, caps)
}

pub open spec fn capability_error(r: Result<(), Diagnostic>) -> bool {
    r matches Err(d) ==> d.kind@ == "capability"@
}

/// Checks an expression, innermost calls last: a call is refused before its arguments.
#[verifier::loop_isolation(false)]
pub fn validate_expr_capabilities(
    source_path: &str,
    expr: &syntax::Expr,
    caps: &CapabilityConfig,
) -> (r: Result<(), Diagnostic>)
    ensures
        r is Ok <==> !expr_denied(expr, *caps),
        capability_error(r),
    decreases expr,
{
    match expr {
        syntax::Expr::Literal(_) | syntax::Expr::VarRef { .. } => Ok(()),
        syntax::Expr::Call { name, args, line, column } => {
            if let Some(kind) = intrinsic_capability(name) {
                if !caps.enabled(kind) {
                    let msg = cat5(
                        "call to ",
                        debug_string(name.as_str()).as_str(),
                        " requires [capabilities].",
                        kind.name(),
                        " = true",
                    );
                    return Err(
                        Diagnostic::new("capability", msg).with_path(String::from_str(source_path)).with_span(
                            *line,
                            *column,
                        ),
                    );
                }
            }
            let mut i: usize = 0;
            while i < args.len()
                invariant
                    i <= args@.len(),
                    !denied_call(name@, *caps),
                    forall|j: int| 0 <= j < i ==> !expr_denied(&(#[trigger] args@[j]), *caps),
                decreases args@.len() - i,
            {
                proof {
                    assert(decreases_to!(args => args[i as int]));
                }
                let r = validate_expr_capabilities(source_path, &args[i], caps);
                if r.is_err() {
                    return r;
                }
                i = i + 1;
            }
            Ok(())
        },
        syntax::Expr::BinaryAdd { lhs, rhs, .. } | syntax::Expr::BinaryCompare { lhs, rhs, .. } => {
            let r = validate_expr_capabilities(source_path, lhs, caps);
            if r.is_err() {
                return r;
            }
            validate_expr_capabilities(source_path, rhs, caps)
        },
        syntax::Expr::StructLiteral { fields, .. } => {
            let mut i: usize = 0;
            while i < fields.len()
                invariant
                    i <= fields@.len(),
                    forall|j: int| 0 <= j < i ==> !expr_denied(&(#[trigger] fields@[j]).expr, *caps),
                decreases fields@.len() - i,
            {
                proof {
                    assert(decreases_to!(fields => fields[i as int]));
                }
                let r = validate_expr_capabilities(source_path, &fields[i].expr, caps);
                if r.is_err() {
                    return r;
                }
                i = i + 1;
            }
            Ok(())
        },
        syntax::Expr::FieldAccess { base, .. } | syntax::Expr::TupleIndex { base, .. } => {
            validate_expr_capabilities(source_path, base, caps)
        },
        syntax::Expr::TupleLiteral { elements, .. } | syntax::Expr::ArrayLiteral { elements, .. } => {
            let mut i: usize = 0;
            while i < elements.len()
                invariant
                    i <= elements@.len(),
                    forall|j: int| 0 <= j < i ==> !expr_denied(&(#[trigger] elements@[j]), *caps),
                decreases elements@.len() - i,
            {
                proof {
                    assert(decreases_to!(elements => elements[i as int]));
                }
                let r = validate_expr_capabilities(source_path, &elements[i], caps);
                if r.is_err() {
                    return r;
                }
                i = i + 1;
            }
            Ok(())
        },
        syntax::Expr::MapLiteral { entries, .. } => {
            let mut i: usize = 0;
            while i < entries.len()
                invariant
                    i <= entries@.len(),
                    forall|j: int|
                        0 <= j < i ==> !expr_denied(&(#[trigger] entries@[j]).key, *caps)
                            && !expr_denied(&entries@[j].value, *caps),
                decreases entries@.len() - i,
            {
                proof {
                    assert(decreases_to!(entries => entries[i as int]));
                }
                let r = validate_expr_capabilities(source_path, &entries[i].key, caps);
                if r.is_err() {
                    return r;
                }
                let r = validate_expr_capabilities(source_path, &entries[i].value, caps);
                if r.is_err() {
                    return r;
                }
                i = i + 1;
            }
            Ok(())
        },
        syntax::Expr::Slice { base, start, end, .. } => {
            let r = validate_expr_capabilities(source_path, base, caps);
            if r.is_err() {
                return r;
            }
            if let Some(s) = start {
                let r = validate_expr_capabilities(source_path, s, caps);
                if r.is_err() {
                    return r;
                }
            }
            if let Some(x) = end {
                let r = validate_expr_capabilities(source_path, x, caps);
                if r.is_err() {
                    return r;
                }
            }
            Ok(())
        },
        syntax::Expr::Index { base, index, .. } => {
            let r = validate_expr_capabilities(source_path, base, caps);
            if r.is_err() {
                return r;
            }
            validate_expr_capabilities(source_path, index, caps)
        },
    }
}

fn validate_block_capabilities(
    source_path: &str,
    block: &Vec<syntax::Stmt>,
    caps: &CapabilityConfig,
) -> (r: Result<(), Diagnostic>)
    ensures
        r is Ok <==> !block_denied(block, *caps),
        capability_error(r),
    decreases block,
{
    let mut i: usize = 0;
    while i < block.len()
        invariant
            i <= block@.len(),
            forall|j: int| 0 <= j < i ==> !stmt_denied(&(#[trigger] block@[j]), *caps),
        decreases block@.len() - i,
    {
        proof {
            assert(decreases_to!(block => block[i as int]));
        }
        let r = validate_stmt_capabilities(source_path, &block[i], caps);
        if r.is_err() {
            return r;
        }
        i = i + 1;
    }
    Ok(())
}

/// Checks a statement and the blocks nested in it.
#[verifier::loop_isolation(false)]
pub fn validate_stmt_capabilities(
    source_path: &str,
    stmt: &syntax::Stmt,
    caps: &CapabilityConfig,
) -> (r: Result<(), Diagnostic>)
    ensures
        r is Ok <==> !stmt_denied(stmt, *caps),
        capability_error(r),
    decreases stmt,
{
    match stmt {
        syntax::Stmt::Let { expr, .. } | syntax::Stmt::Print { expr, .. } | syntax::Stmt::Return {
            expr,
            ..
        } => validate_expr_capabilities(source_path, expr, caps),
        syntax::Stmt::If { cond, then_block, else_block, .. } => {
            let r = validate_expr_capabilities(source_path, cond, caps);
            if r.is_err() {
                return r;
            }
            let r = validate_block_capabilities(source_path, then_block, caps);
            if r.is_err() {
                return r;
            }
            match else_block {
                Some(b) => validate_block_capabilities(source_path, b, caps),
                None => Ok(()),
            }
        },
        syntax::Stmt::While { cond, body, .. } => {
            let r = validate_expr_capabilities(source_path, cond, caps);
            if r.is_err() {
                return r;
            }
            validate_block_capabilities(source_path, body, caps)
        },
        syntax::Stmt::Match { expr, arms, .. } => {
            let r = validate_expr_capabilities(source_path, expr, caps);
            if r.is_err() {
                return r;
            }
            let mut i: usize = 0;
            while i < arms.len()
                invariant
                    i <= arms@.len(),
                    !expr_denied(expr, *caps),
                    forall|j: int| 0 <= j < i ==> !block_denied(&(#[trigger] arms@[j]).body, *caps),
                decreases arms@.len() - i,
            {
                proof {
                    assert(decreases_to!(arms => arms[i as int]));
                }
                let r = validate_block_capabilities(source_path, &arms[i].body, caps);
                if r.is_err() {
                    return r;
                }
                i = i + 1;
            }
            Ok(())
        },
    }
}

/// Checks every function body and the top-level statements of a module
/// against the capabilities of the module's own package.
pub fn validate_program_capabilities(
    source_path: &str,
    program: &syntax::Program,
    caps: &CapabilityConfig,
) -> (r: Result<(), Diagnostic>)
    ensures
        r is Ok <==> !program_denied(program, *caps),
        capability_error(r),
{
    let mut i: usize = 0;
    while i < program.functions.len()
        invariant
            i <= program.functions@.len(),
            forall|j: int|
                0 <= j < i ==> !block_denied(&(#[trigger] program.functions@[j]).body, *caps),
        decreases program.functions@.len() - i,
    {
        let r = validate_block_capabilities(source_path, &program.functions[i].body, caps);
        if r.is_err() {
            return r;
        }
        i = i + 1;
    }
    validate_block_capabilities(source_path, &program.stmts, caps)
}

// ----- More capabilities, fewer refusals ----------------------------------------------------

/// Every capability that `a` grants, `b` grants too.
pub open spec fn caps_within(a: CapabilityConfig, b: CapabilityConfig) -> bool {
    &&& a.fs ==> b.fs
    &&& a.net ==> b.net
    &&& a.process ==> b.process
    &&& a.env ==> b.env
    &&& a.clock ==> b.clock
    &&& a.crypto ==> b.crypto
}

proof fn lemma_expr_denied_mono(e: &syntax::Expr, a: CapabilityConfig, b: CapabilityConfig)
    requires
        caps_within(a, b),
    ensures
        expr_denied(e, b) ==> expr_denied(e, a),
    decreases e,
{
    match e {
        syntax::Expr::Literal(_) | syntax::Expr::VarRef { .. } => {},
        syntax::Expr::Call { name, args, .. } => {
            assert forall|i: int| 0 <= i < args.len() && expr_denied(&(#[trigger] args@[i]), b) implies expr_denied(
                &args@[i],
                a,
            ) by {
                assert(decreases_to!(args => args[i]));
                lemma_expr_denied_mono(&args@[i], a, b);
            }
        },
        syntax::Expr::BinaryAdd { lhs, rhs, .. } => {
            lemma_expr_denied_mono(lhs, a, b);
            lemma_expr_denied_mono(rhs, a, b);
        },
        syntax::Expr::BinaryCompare { lhs, rhs, .. } => {
            lemma_expr_denied_mono(lhs, a, b);
            lemma_expr_denied_mono(rhs, a, b);
        },
        syntax::Expr::StructLiteral { fields, .. } => {
            assert forall|i: int|
                0 <= i < fields.len() && expr_denied(&(#[trigger] fields@[i]).expr, b) implies expr_denied(
                &fields@[i].expr,
                a,
            ) by {
                assert(decreases_to!(fields => fields[i]));
                lemma_expr_denied_mono(&fields@[i].expr, a, b);
            }
        },
        syntax::Expr::FieldAccess { base, .. } => {
            lemma_expr_denied_mono(base, a, b);
        },
        syntax::Expr::TupleIndex { base, .. } => {
            lemma_expr_denied_mono(base, a, b);
        },
        syntax::Expr::TupleLiteral { elements, .. } => {
            assert forall|i: int|
                0 <= i < elements.len() && expr_denied(&(#[trigger] elements@[i]), b) implies expr_denied(
                &elements@[i],
                a,
            ) by {
                assert(decreases_to!(elements => elements[i]));
                lemma_expr_denied_mono(&elements@[i], a, b);
            }
        },
        syntax::Expr::ArrayLiteral { elements, .. } => {
            assert forall|i: int|
                0 <= i < elements.len() && expr_denied(&(#[trigger] elements@[i]), b) implies expr_denied(
                &elements@[i],
                a,
            ) by {
                assert(decreases_to!(elements => elements[i]));
                lemma_expr_denied_mono(&elements@[i], a, b);
            }
        },
        syntax::Expr::MapLiteral { entries, .. } => {
            assert forall|i: int|
                0 <= i < entries.len() && (expr_denied(&(#[trigger] entries@[i]).key, b) || expr_denied(
                    &entries@[i].value,
                    b,
                )) implies (expr_denied(&entries@[i].key, a) || expr_denied(&entries@[i].value, a)) by {
                assert(decreases_to!(entries => entries[i]));
                lemma_expr_denied_mono(&entries@[i].key, a, b);
                lemma_expr_denied_mono(&entries@[i].value, a, b);
            }
        },
        syntax::Expr::Slice { base, start, end, .. } => {
            lemma_expr_denied_mono(base, a, b);
            match start {
                Some(x) => lemma_expr_denied_mono(x, a, b),
                None => {},
            }
            match end {
                Some(x) => lemma_expr_denied_mono(x, a, b),
                None => {},
            }
        },
        syntax::Expr::Index { base, index, .. } => {
            lemma_expr_denied_mono(base, a, b);
            lemma_expr_denied_mono(index, a, b);
        },
    }
}

proof fn lemma_stmt_denied_mono(s: &syntax::Stmt, a: CapabilityConfig, b: CapabilityConfig)
    requires
        caps_within(a, b),
    ensures
        stmt_denied(s, b) ==> stmt_denied(s, a),
    decreases s, 1nat,
{
    match s {
        syntax::Stmt::Let { expr, .. } => lemma_expr_denied_mono(expr, a, b),
        syntax::Stmt::Print { expr, .. } => lemma_expr_denied_mono(expr, a, b),
        syntax::Stmt::Return { expr, .. } => lemma_expr_denied_mono(expr, a, b),
        syntax::Stmt::If { cond, then_block, else_block, .. } => {
            lemma_expr_denied_mono(cond, a, b);
            lemma_block_denied_mono(then_block, a, b);
            match else_block {
                Some(x) => lemma_block_denied_mono(x, a, b),
                None => {},
            }
        },
        syntax::Stmt::While { cond, body, .. } => {
            lemma_expr_denied_mono(cond, a, b);
            lemma_block_denied_mono(body, a, b);
        },
        syntax::Stmt::Match { expr, arms, .. } => {
            lemma_expr_denied_mono(expr, a, b);
            assert forall|i: int|
                0 <= i < arms.len() && block_denied(&(#[trigger] arms@[i]).body, b) implies block_denied(
                &arms@[i].body,
                a,
            ) by {
                assert(decreases_to!(arms => arms[i]));
                lemma_block_denied_mono(&arms@[i].body, a, b);
            }
        },
    }
}

proof fn lemma_block_denied_mono(block: &Vec<syntax::Stmt>, a: CapabilityConfig, b: CapabilityConfig)
    requires
        caps_within(a, b),
    ensures
        block_denied(block, b) ==> block_denied(block, a),
    decreases block, 0nat,
{
    assert forall|i: int| 0 <= i < block.len() && stmt_denied(&(#[trigger] block@[i]), b) implies stmt_denied(
        &block@[i],
        a,
    ) by {
        assert(decreases_to!(block => block[i]));
        lemma_stmt_denied_mono(&block@[i], a, b);
    }
}

/// Granting a package more capabilities never makes the capability check
/// refuse a module that it accepted before.
pub proof fn lemma_more_capabilities_refuse_less(p: &syntax::Program, a: CapabilityConfig, b: CapabilityConfig)
    requires
        caps_within(a, b),
        !program_denied(p, a),
    ensures
        !program_denied(p, b),
{
    assert forall|i: int| 0 <= i < p.functions.len() implies !block_denied(&(#[trigger] p.functions@[i]).body, b) by {
        lemma_block_denied_mono(&p.functions@[i].body, a, b);
    }
    lemma_block_denied_mono(&p.stmts, a, b);
}

} // verus!
