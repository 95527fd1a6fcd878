//! The analysis of one package once its modules are loaded: each module is
//! held to its own package's capabilities, the modules are flattened into one
//! program, and that program is checked and lowered.
use vstd::prelude::*;
use crate::capabilities::{capability_error, program_denied, validate_program_capabilities};
use crate::diagnostics::Diagnostic;
use crate::hir;
use crate::manifest::CapabilityConfig;
use crate::mir;
use crate::modules::{
    self_contained, sole_entry, stmt_renamed, stmts_renamed, entry_statements_renamed,
    declarations_distinct, flat_enum_names, flat_function_names, flat_struct_names, flatten_modules,
    function_names, struct_names, enum_names, LoadedModule,
};
use crate::syntax;
use crate::text::debug_quoted;

verus! {

/// Whether some module calls an intrinsic that its own package leaves off;
/// `caps[i]` is the capability set of the package of `modules[i]`.
pub open spec fn some_module_denied(modules: Seq<LoadedModule>, caps: Seq<CapabilityConfig>) -> bool {
    exists|i: int| 0 <= i < modules.len() && program_denied(&(#[trigger] modules[i]).program, caps[i])
}

/// Holds every module to the capabilities of its own package, in the order
/// loaded; the first module that oversteps is reported.
pub fn validate_module_capabilities(modules: &Vec<LoadedModule>, caps: &Vec<CapabilityConfig>) -> (r:
    Result<(), Diagnostic>)
    requires
        modules@.len() == caps@.len(),
    ensures
        r is Ok <==> !some_module_denied(modules@, caps@),
        capability_error(r),
{
    let mut i: usize = 0;
    while i < modules.len()
        invariant
            i <= modules@.len(),
            modules@.len() == caps@.len(),
            forall|j: int| 0 <= j < i ==> !program_denied(&(#[trigger] modules@[j]).program, caps@[j]),
        decreases modules@.len() - i,
    {
        let r = validate_program_capabilities(modules[i].path.as_str(), &modules[i].program, &caps[i]);
        if r.is_err() {
            return r;
        }
        i = i + 1;
    }
    Ok(())
}

/// Renaming keeps a simple statement simple, and keeps what the simple
/// fragment makes of it.
proof fn lemma_renamed_simple(
    st: syntax::Stmt,
    r: syntax::Stmt,
    vf: Seq<(String, String)>,
    vs: Seq<(String, String)>,
    vt: Seq<(String, String)>,
)
    requires
        stmt_renamed(&st, &r, vf, vs, vt),
        hir::simple_stmt(st),
    ensures
        hir::simple_stmt(r),
        forall|m: Seq<(Seq<char>, hir::Type, bool)>|
            hir::simple_accepts(m, st) == hir::simple_accepts(m, r) && hir::simple_after(m, st)
                == hir::simple_after(m, r) && hir::moved_use(m, st) == hir::moved_use(m, r),
        forall|m: Seq<(Seq<char>, hir::Type, bool)>, h: hir::Stmt|
            hir::simple_lowered(m, st, h) == hir::simple_lowered(m, r, h),
{
    reveal_with_fuel(crate::modules::expr_renamed, 3);
    reveal_with_fuel(hir::simple_value, 3);
}

/// A renamed block of simple statements has the same simple outcome.
proof fn lemma_renamed_block(
    b: Seq<syntax::Stmt>,
    r: Seq<syntax::Stmt>,
    vf: Seq<(String, String)>,
    vs: Seq<(String, String)>,
    vt: Seq<(String, String)>,
    m: Seq<(Seq<char>, hir::Type, bool)>,
)
    requires
        stmts_renamed(b, r, vf, vs, vt),
        hir::all_simple(b),
    ensures
        hir::all_simple(r),
        forall|n: nat| n <= b.len() ==> #[trigger] hir::simple_model(m, b, n) == hir::simple_model(m, r, n)
            && hir::simple_accepts_upto(m, b, n) == hir::simple_accepts_upto(m, r, n),
        forall|res: Result<Seq<hir::Stmt>, Diagnostic>|
            hir::simple_block_outcome(m, b, res) <== hir::simple_block_outcome(m, r, res),
{
    assert forall|k: int| 0 <= k < b.len() implies hir::simple_stmt(#[trigger] r[k]) by {
        lemma_renamed_simple(b[k], r[k], vf, vs, vt);
    }
    assert forall|n: nat| n <= b.len() implies #[trigger] hir::simple_model(m, b, n) == hir::simple_model(m, r, n)
        && hir::simple_accepts_upto(m, b, n) == hir::simple_accepts_upto(m, r, n) by {
        lemma_renamed_prefix(b, r, vf, vs, vt, m, n);
    }
    assert forall|res: Result<Seq<hir::Stmt>, Diagnostic>| hir::simple_block_outcome(m, r, res) implies
        hir::simple_block_outcome(m, b, res) by {
        lemma_renamed_prefix(b, r, vf, vs, vt, m, b.len());
        assert forall|k: int| 0 <= k < b.len() implies (res matches Ok(hs) ==> hir::simple_lowered(
            hir::simple_model(m, b, k as nat),
            #[trigger] b[k],
            hs[k],
        ) == hir::simple_lowered(hir::simple_model(m, r, k as nat), r[k], hs[k])) by {
            lemma_renamed_prefix(b, r, vf, vs, vt, m, k as nat);
            lemma_renamed_simple(b[k], r[k], vf, vs, vt);
        }
        assert forall|n: nat| n < b.len() && #[trigger] hir::simple_accepts_upto(m, b, n) implies
            hir::simple_accepts_upto(m, r, n) && hir::moved_use(hir::simple_model(m, b, n), b[n as int])
            == hir::moved_use(hir::simple_model(m, r, n), r[n as int]) by {
            lemma_renamed_prefix(b, r, vf, vs, vt, m, n);
            lemma_renamed_simple(b[n as int], r[n as int], vf, vs, vt);
        }
    }
}

proof fn lemma_renamed_prefix(
    b: Seq<syntax::Stmt>,
    r: Seq<syntax::Stmt>,
    vf: Seq<(String, String)>,
    vs: Seq<(String, String)>,
    vt: Seq<(String, String)>,
    m: Seq<(Seq<char>, hir::Type, bool)>,
    n: nat,
)
    requires
        stmts_renamed(b, r, vf, vs, vt),
        hir::all_simple(b),
        n <= b.len(),
    ensures
        hir::simple_model(m, b, n) == hir::simple_model(m, r, n),
        hir::simple_accepts_upto(m, b, n) == hir::simple_accepts_upto(m, r, n),
    decreases n,
{
    if n > 0 {
        lemma_renamed_prefix(b, r, vf, vs, vt, m, (n - 1) as nat);
        lemma_renamed_simple(b[n - 1], r[n - 1], vf, vs, vt);
    }
}

/// A package of one module, its entry, that imports nothing and holds simple
/// `let` and `print` statements alone.
pub open spec fn single_statements_module(modules: Seq<LoadedModule>) -> bool {
    &&& modules.len() == 1
    &&& modules[0].is_entry
    &&& modules[0].program.imports@.len() == 0
    &&& modules[0].program.structs@.len() == 0
    &&& modules[0].program.enums@.len() == 0
    &&& modules[0].program.functions@.len() == 0
    &&& hir::all_simple(modules[0].program.stmts@)
}

/// Analyzes the loaded modules of a package: capabilities module by module,
/// then the flattened program checked under the package's own capabilities
/// and lowered.
pub fn analyze_modules(
    modules: &Vec<LoadedModule>,
    module_caps: &Vec<CapabilityConfig>,
    package_caps: &CapabilityConfig,
) -> (r: Result<mir::Program, Diagnostic>)
    requires
        modules@.len() == module_caps@.len(),
    ensures
        some_module_denied(modules@, module_caps@) ==> (r matches Err(d) && d.kind@ == "capability"@),
        !some_module_denied(modules@, module_caps@) && (exists|k: int|
            0 <= k < modules@.len() && !declarations_distinct(&(#[trigger] modules@[k]).program)) ==> (
        r matches Err(d) && d.kind@ == "type"@),
        r matches Ok(m) ==> exists|f: syntax::Program, h: hir::Program|
            {
                &&& struct_names(f.structs@) == flat_struct_names(modules@)
                &&& enum_names(f.enums@) == flat_enum_names(modules@)
                &&& function_names(f.functions@) == flat_function_names(modules@)
                &&& hir::program_from(&f, &h)
                &&& hir::program_checked(&h)
                &&& mir::lowered_from(&h, &m)
            },
        modules@.len() == 0 ==> r is Ok,
        !some_module_denied(modules@, module_caps@) && (forall|k: int|
            0 <= k < modules@.len() ==> self_contained(#[trigger] modules@[k])) ==> hir::lower_ok(r),
        single_statements_module(modules@) && !some_module_denied(modules@, module_caps@) ==> {
            let ss = modules@[0].program.stmts@;
            &&& hir::simple_accepts_upto(Seq::empty(), ss, ss.len()) ==> r is Ok
            &&& forall|n: nat|
                n < ss.len() && #[trigger] hir::simple_accepts_upto(Seq::empty(), ss, n) && hir::moved_use(
                    hir::simple_model(Seq::empty(), ss, n),
                    ss[n as int],
                ) is Some ==> (r matches Err(d) && d.kind@ == "ownership"@ && d.message@ == "use of moved value "@
                    + debug_quoted(hir::moved_use(hir::simple_model(Seq::empty(), ss, n), ss[n as int])->0))
        },
{
    if let Err(d) = validate_module_capabilities(modules, module_caps) {
        return Err(d);
    }
    let flattened = match flatten_modules(modules) {
        Ok(p) => p,
        Err(d) => return Err(d),
    };
    let checked_r = hir::lower_with_capabilities(&flattened, package_caps);
    proof {
        if single_statements_module(modules@) && !some_module_denied(modules@, module_caps@) {
            let ss = modules@[0].program.stmts@;
            assert(sole_entry(modules@, 0));
            let (vf, vs, vt) = choose|vf: Seq<(String, String)>, vs: Seq<(String, String)>, vt: Seq<(String, String)>|
                #[trigger] stmts_renamed(ss, flattened.stmts@, vf, vs, vt);
            lemma_renamed_block(ss, flattened.stmts@, vf, vs, vt, Seq::empty());
            assert(modules@.drop_last() =~= Seq::<LoadedModule>::empty());
            assert(modules@.last() == modules@[0]);
            assert(flat_struct_names(modules@.drop_last()) =~= Seq::<Seq<char>>::empty());
            assert(flat_enum_names(modules@.drop_last()) =~= Seq::<Seq<char>>::empty());
            assert(struct_names(modules@[0].program.structs@) =~= Seq::<Seq<char>>::empty());
            assert(enum_names(modules@[0].program.enums@) =~= Seq::<Seq<char>>::empty());
            assert(flat_function_names(modules@.drop_last()) =~= Seq::<Seq<char>>::empty());
            assert(function_names(modules@[0].program.functions@) =~= Seq::<Seq<char>>::empty());
            assert(flat_struct_names(modules@) =~= Seq::<Seq<char>>::empty());
            assert(flat_enum_names(modules@) =~= Seq::<Seq<char>>::empty());
            assert(flat_function_names(modules@) =~= Seq::<Seq<char>>::empty());
            assert(struct_names(flattened.structs@).len() == flattened.structs@.len());
            assert(enum_names(flattened.enums@).len() == flattened.enums@.len());
            assert(function_names(flattened.functions@).len() == flattened.functions@.len());
            assert(hir::statements_only(&flattened));
            lemma_renamed_prefix(ss, flattened.stmts@, vf, vs, vt, Seq::empty(), ss.len());
            assert forall|n: nat| n < ss.len() && #[trigger] hir::simple_accepts_upto(Seq::empty(), ss, n) implies
                hir::simple_accepts_upto(Seq::empty(), flattened.stmts@, n) && hir::moved_use(
                hir::simple_model(Seq::empty(), ss, n),
                ss[n as int],
            ) == hir::moved_use(hir::simple_model(Seq::empty(), flattened.stmts@, n), flattened.stmts@[n as int]) by {
                lemma_renamed_prefix(ss, flattened.stmts@, vf, vs, vt, Seq::empty(), n);
                lemma_renamed_simple(ss[n as int], flattened.stmts@[n as int], vf, vs, vt);
            }
        }
    }
    let checked = match checked_r {
        Ok(h) => h,
        Err(d) => return Err(d),
    };
    let lowered = mir::lower(&checked);
    proof {
        assert(hir::program_from(&flattened, &checked) && hir::program_checked(&checked)
            && mir::lowered_from(&checked, &lowered));
    }
    Ok(lowered)
}

} // verus!
