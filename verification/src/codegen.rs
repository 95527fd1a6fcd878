//! Rust source emission for a checked and lowered program.
use vstd::prelude::*;
use crate::mir::{
    CompareOp, EnumDef, EnumVariantDef, Expr, Function, LiteralValue, MapEntry, MatchArm, Param,
    Program, Stmt, StructDef, StructField, StructFieldValue, Type,
};
use crate::runtime::{push_prelude, with_prelude};
use crate::text::{
    cat, cat3, cat4, cat5, debug_quoted, debug_string, decimal, i64_to_string, signed_decimal,
};

verus! {

/// The declared structs and enums whose values hold borrowed slices, and so
/// take a lifetime parameter in the generated code.
struct TypeContext {
    borrowed_structs: Vec<String>,
    borrowed_enums: Vec<String>,
}

pub open spec fn names_contain(names: Seq<String>, n: Seq<char>) -> bool {
    exists|i: int| 0 <= i < names.len() && (#[trigger] names[i])@ == n
}

fn contains_name(names: &Vec<String>, n: &String) -> (b: bool)
    ensures
        b == names_contain(names@, n@),
{
    let mut i: usize = 0;
    while i < names.len()
        invariant
            i <= names@.len(),
            forall|j: int| 0 <= j < i ==> (#[trigger] names@[j])@ != n@,
        decreases names@.len() - i,
    {
        if names[i] == *n {
            return true;
        }
        i = i + 1;
    }
    false
}

/// The number of declarations, structs and enums together.
pub open spec fn decl_count(program: &Program) -> nat {
    program.structs@.len() + program.enums@.len()
}

/// The first struct declared under the name `n`, searching from index `i`.
pub open spec fn struct_named_from(structs: Seq<StructDef>, n: Seq<char>, i: nat) -> Option<
    StructDef,
>
    decreases structs.len() - i,
{
    if i >= structs.len() {
        None
    } else if structs[i as int].name@ == n {
        Some(structs[i as int])
    } else {
        struct_named_from(structs, n, i + 1)
    }
}

/// The first enum declared under the name `n`, searching from index `i`.
pub open spec fn enum_named_from(enums: Seq<EnumDef>, n: Seq<char>, i: nat) -> Option<EnumDef>
    decreases enums.len() - i,
{
    if i >= enums.len() {
        None
    } else if enums[i as int].name@ == n {
        Some(enums[i as int])
    } else {
        enum_named_from(enums, n, i + 1)
    }
}

fn find_struct_def<'a>(program: &'a Program, name: &String) -> (r: Option<&'a StructDef>)
    ensures
        match r {
            Some(d) => struct_named_from(program.structs@, name@, 0) == Some(*d),
            None => struct_named_from(program.structs@, name@, 0) is None,
        },
{
    let mut i: usize = 0;
    while i < program.structs.len()
        invariant
            i <= program.structs@.len(),
            struct_named_from(program.structs@, name@, 0) == struct_named_from(
                program.structs@,
                name@,
                i as nat,
            ),
        decreases program.structs@.len() - i,
    {
        if program.structs[i].name == *name {
            return Some(&program.structs[i]);
        }
        i = i + 1;
    }
    None
}

fn find_enum_def<'a>(program: &'a Program, name: &String) -> (r: Option<&'a EnumDef>)
    ensures
        match r {
            Some(d) => enum_named_from(program.enums@, name@, 0) == Some(*d),
            None => enum_named_from(program.enums@, name@, 0) is None,
        },
{
    let mut i: usize = 0;
    while i < program.enums.len()
        invariant
            i <= program.enums@.len(),
            enum_named_from(program.enums@, name@, 0) == enum_named_from(
                program.enums@,
                name@,
                i as nat,
            ),
        decreases program.enums@.len() - i,
    {
        if program.enums[i].name == *name {
            return Some(&program.enums[i]);
        }
        i = i + 1;
    }
    None
}

/// Whether values of `ty` hold a borrowed slice: directly, or through the
/// field types of the first struct and the payload types of the first enum
/// declared under a name. A struct named in `vs` or an enum named in `ve` is
/// already being looked through and is not entered again, nor is any once as
/// many are open as there are declarations.
pub open spec fn borrows_under(ty: &Type, program: &Program, vs: Seq<String>, ve: Seq<String>) -> bool
    decreases decl_count(program) - vs.len() - ve.len(), ty,
{
    match ty {
        Type::Int | Type::Bool | Type::String => false,
        Type::Slice(_) | Type::MutSlice(_) => true,
        Type::Option(i) => borrows_under(i, program, vs, ve),
        Type::Array(i) => borrows_under(i, program, vs, ve),
        Type::Result(a, b) => borrows_under(a, program, vs, ve) || borrows_under(b, program, vs, ve),
        Type::Dict(a, b) => borrows_under(a, program, vs, ve) || borrows_under(b, program, vs, ve),
        Type::Tuple(es) => exists|i: int|
            0 <= i < es@.len() && borrows_under(&(#[trigger] es@[i]), program, vs, ve),
        Type::Struct(n) => if names_contain(vs, n@) || vs.len() + ve.len() >= decl_count(program) {
            false
        } else {
            match struct_named_from(program.structs@, n@, 0) {
                Some(d) => exists|i: int|
                    0 <= i < d.fields@.len() && borrows_under(
                        &(#[trigger] d.fields@[i]).ty,
                        program,
                        vs.push(*n),
                        ve,
                    ),
                None => false,
            }
        },
        Type::Enum(n) => if names_contain(ve, n@) || vs.len() + ve.len() >= decl_count(program) {
            false
        } else {
            match enum_named_from(program.enums@, n@, 0) {
                Some(d) => exists|i: int, k: int|
                    0 <= i < d.variants@.len() && 0 <= k < d.variants@[i].payload_tys@.len()
                        && borrows_under(
                        &(#[trigger] d.variants@[i].payload_tys@[k]),
                        program,
                        vs,
                        ve.push(*n),
                    ),
                None => false,
            }
        },
    }
}

/// Whether a type holds a borrowed slice, looking through the fields of the
/// declared structs and the payloads of the declared enums. A declaration
/// already being looked through is not entered again, and the search stops
/// once as many declarations are open as there are.
#[verifier::spinoff_prover]
#[verifier::rlimit(30)]
#[verifier::loop_isolation(false)]
fn type_contains_borrowed_slice_inner(
    ty: &Type,
    program: &Program,
    visiting_structs: &mut Vec<String>,
    visiting_enums: &mut Vec<String>,
) -> (b: bool)
    requires
        old(visiting_structs)@.len() + old(visiting_enums)@.len() <= decl_count(program),
    ensures
        final(visiting_structs)@ == old(visiting_structs)@,
        final(visiting_enums)@ == old(visiting_enums)@,
        b == borrows_under(ty, program, old(visiting_structs)@, old(visiting_enums)@),
    decreases decl_count(program) - old(visiting_structs)@.len() - old(visiting_enums)@.len(), ty,
{
    let ghost vs0 = visiting_structs@;
    let ghost ve0 = visiting_enums@;
    match ty {
        Type::Int | Type::Bool | Type::String => false,
        Type::Slice(_) | Type::MutSlice(_) => true,
        Type::Option(inner) => type_contains_borrowed_slice_inner(
            inner,
            program,
            visiting_structs,
            visiting_enums,
        ),
        Type::Array(inner) => type_contains_borrowed_slice_inner(
            inner,
            program,
            visiting_structs,
            visiting_enums,
        ),
        Type::Result(a, b) => {
            type_contains_borrowed_slice_inner(a, program, visiting_structs, visiting_enums)
                || type_contains_borrowed_slice_inner(b, program, visiting_structs, visiting_enums)
        },
        Type::Dict(a, b) => {
            type_contains_borrowed_slice_inner(a, program, visiting_structs, visiting_enums)
                || type_contains_borrowed_slice_inner(b, program, visiting_structs, visiting_enums)
        },
        Type::Tuple(elements) => {
            let mut i: usize = 0;
            while i < elements.len()
                invariant
                    i <= elements@.len(),
                    visiting_structs@ == vs0,
                    visiting_enums@ == ve0,
                    forall|j: int|
                        0 <= j < i ==> !borrows_under(&(#[trigger] elements@[j]), program, vs0, ve0),
                decreases elements@.len() - i,
            {
                proof {
                    assert(decreases_to!(elements => elements[i as int]));
                }
                if type_contains_borrowed_slice_inner(
                    &elements[i],
                    program,
                    visiting_structs,
                    visiting_enums,
                ) {
                    assert(borrows_under(&elements@[i as int], program, vs0, ve0));
                    return true;
                }
                i = i + 1;
            }
            false
        },
        Type::Struct(name) => {
            if contains_name(visiting_structs, name) {
                return false;
            }
            if (visiting_structs.len() as u128) + (visiting_enums.len() as u128) >= (
            program.structs.len() as u128) + (program.enums.len() as u128) {
                return false;
            }
            let def = match find_struct_def(program, name) {
                Some(d) => d,
                None => return false,
            };
            visiting_structs.push(name.clone());
            let mut contains = false;
            let mut i: usize = 0;
            while i < def.fields.len()
                invariant
                    i <= def.fields@.len(),
                    visiting_structs@ == vs0.push(*name),
                    visiting_enums@ == ve0,
                    contains ==> i < def.fields@.len() && borrows_under(
                        &def.fields@[i as int].ty,
                        program,
                        vs0.push(*name),
                        ve0,
                    ),
                    forall|j: int|
                        0 <= j < i ==> !borrows_under(
                            &(#[trigger] def.fields@[j]).ty,
                            program,
                            vs0.push(*name),
                            ve0,
                        ),
                decreases def.fields@.len() - i,
            {
                if type_contains_borrowed_slice_inner(
                    &def.fields[i].ty,
                    program,
                    visiting_structs,
                    visiting_enums,
                ) {
                    contains = true;
                    break;
                }
                i = i + 1;
            }
            visiting_structs.pop();
            assert(visiting_structs@ =~= vs0);
            proof {
                if contains {
                    assert(borrows_under(&def.fields@[i as int].ty, program, vs0.push(*name), ve0));
                }
            }
            contains
        },
        Type::Enum(name) => {
            if contains_name(visiting_enums, name) {
                return false;
            }
            if (visiting_structs.len() as u128) + (visiting_enums.len() as u128) >= (
            program.structs.len() as u128) + (program.enums.len() as u128) {
                return false;
            }
            let def = match find_enum_def(program, name) {
                Some(d) => d,
                None => return false,
            };
            visiting_enums.push(name.clone());
            let ghost ve1 = ve0.push(*name);
            let ghost mut witness: int = 0;
            let mut contains = false;
            let mut i: usize = 0;
            while i < def.variants.len()
                invariant
                    i <= def.variants@.len(),
                    visiting_structs@ == vs0,
                    visiting_enums@ == ve1,
                    !contains,
                    forall|j: int, k: int|
                        0 <= j < i && 0 <= k < def.variants@[j].payload_tys@.len() ==> !borrows_under(
                            &(#[trigger] def.variants@[j].payload_tys@[k]),
                            program,
                            vs0,
                            ve1,
                        ),
                decreases def.variants@.len() - i,
            {
                let tys = &def.variants[i].payload_tys;
                let mut k: usize = 0;
                while k < tys.len()
                    invariant
                        k <= tys@.len(),
                        visiting_structs@ == vs0,
                        visiting_enums@ == ve1,
                        !contains,
                        forall|m: int|
                            0 <= m < k ==> !borrows_under(&(#[trigger] tys@[m]), program, vs0, ve1),
                    decreases tys@.len() - k,
                {
                    if type_contains_borrowed_slice_inner(
                        &tys[k],
                        program,
                        visiting_structs,
                        visiting_enums,
                    ) {
                        proof {
                            witness = k as int;
                        }
                        contains = true;
                        break;
                    }
                    k = k + 1;
                }
                if contains {
                    break;
                }
                i = i + 1;
            }
            visiting_enums.pop();
            assert(visiting_enums@ =~= ve0);
            proof {
                if contains {
                    let d = enum_named_from(program.enums@, name@, 0)->0;
                    assert(borrows_under(&d.variants@[i as int].payload_tys@[witness], program, vs0, ve1));
                }
            }
            contains
        },
    }
}

fn type_contains_borrowed_slice(ty: &Type, program: &Program) -> (b: bool)
    ensures
        b == borrows_under(ty, program, Seq::empty(), Seq::empty()),
{
    let mut vs: Vec<String> = Vec::new();
    let mut ve: Vec<String> = Vec::new();
    type_contains_borrowed_slice_inner(ty, program, &mut vs, &mut ve)
}

/// Whether values of `ty` hold a borrowed slice, with no declaration open.
pub open spec fn type_borrows(ty: &Type, program: &Program) -> bool {
    borrows_under(ty, program, Seq::empty(), Seq::empty())
}

/// The names of the first `n` structs whose values hold borrowed slices, in
/// declaration order.
pub open spec fn borrowing_structs(program: &Program, n: nat) -> Seq<String>
    decreases n,
{
    if n == 0 || n > program.structs@.len() {
        Seq::empty()
    } else {
        let name = program.structs@[n - 1].name;
        let prev = borrowing_structs(program, (n - 1) as nat);
        if type_borrows(&Type::Struct(name), program) {
            prev.push(name)
        } else {
            prev
        }
    }
}

/// The names of the first `n` enums whose values hold borrowed slices, in
/// declaration order.
pub open spec fn borrowing_enums(program: &Program, n: nat) -> Seq<String>
    decreases n,
{
    if n == 0 || n > program.enums@.len() {
        Seq::empty()
    } else {
        let name = program.enums@[n - 1].name;
        let prev = borrowing_enums(program, (n - 1) as nat);
        if type_borrows(&Type::Enum(name), program) {
            prev.push(name)
        } else {
            prev
        }
    }
}

fn type_context_new(program: &Program) -> (ctx: TypeContext)
    ensures
        ctx.borrowed_structs@ == borrowing_structs(program, program.structs@.len()),
        ctx.borrowed_enums@ == borrowing_enums(program, program.enums@.len()),
{
    let mut borrowed_structs: Vec<String> = Vec::new();
    let mut i: usize = 0;
    while i < program.structs.len()
        invariant
            i <= program.structs@.len(),
            borrowed_structs@ == borrowing_structs(program, i as nat),
        decreases program.structs@.len() - i,
    {
        let t = Type::Struct(program.structs[i].name.clone());
        if type_contains_borrowed_slice(&t, program) {
            borrowed_structs.push(program.structs[i].name.clone());
        }
        i = i + 1;
    }
    let mut borrowed_enums: Vec<String> = Vec::new();
    let mut k: usize = 0;
    while k < program.enums.len()
        invariant
            k <= program.enums@.len(),
            borrowed_enums@ == borrowing_enums(program, k as nat),
        decreases program.enums@.len() - k,
    {
        let t = Type::Enum(program.enums[k].name.clone());
        if type_contains_borrowed_slice(&t, program) {
            borrowed_enums.push(program.enums[k].name.clone());
        }
        k = k + 1;
    }
    TypeContext { borrowed_structs, borrowed_enums }
}

// ----- Types ---------------------------------------------------------------------

pub open spec fn lifetime_view(lifetime: Option<&str>) -> Option<Seq<char>> {
    match lifetime {
        Some(l) => Some(l@),
        None => None,
    }
}

pub open spec fn lifetime_or_anonymous(lifetime: Option<Seq<char>>) -> Seq<char> {
    match lifetime {
        Some(l) => l,
        None => "'_"@,
    }
}

/// How a type is written in the generated Rust. A declared struct or enum
/// that holds borrowed slices (`bs`, `be`) takes `lifetime`, or `'_` where
/// there is none; borrowed slices take it too.
pub open spec fn rust_type_text(
    ty: &Type,
    lifetime: Option<Seq<char>>,
    bs: Seq<String>,
    be: Seq<String>,
) -> Seq<char>
    decreases ty, 0nat,
{
    match ty {
        Type::Int => "i64"@,
        Type::Bool => "bool"@,
        Type::String => "String"@,
        Type::Struct(n) => if names_contain(bs, n@) {
            n@ + "<"@ + lifetime_or_anonymous(lifetime) + ">"@
        } else {
            n@
        },
        Type::Enum(n) => if names_contain(be, n@) {
            n@ + "<"@ + lifetime_or_anonymous(lifetime) + ">"@
        } else {
            n@
        },
        Type::Slice(i) => match lifetime {
            Some(l) => "&"@ + l + " ["@ + rust_type_text(i, lifetime, bs, be) + "]"@,
            None => "&["@ + rust_type_text(i, lifetime, bs, be) + "]"@,
        },
        Type::MutSlice(i) => match lifetime {
            Some(l) => "&"@ + l + " mut ["@ + rust_type_text(i, lifetime, bs, be) + "]"@,
            None => "&mut ["@ + rust_type_text(i, lifetime, bs, be) + "]"@,
        },
        Type::Option(i) => "Option<"@ + rust_type_text(i, lifetime, bs, be) + ">"@,
        Type::Result(a, b) => "Result<"@ + rust_type_text(a, lifetime, bs, be) + ", "@
            + rust_type_text(b, lifetime, bs, be) + ">"@,
        Type::Tuple(es) => "("@ + type_list_text(es, es@.len(), lifetime, bs, be) + ")"@,
        Type::Dict(k, v) => "HashMap<"@ + rust_type_text(k, lifetime, bs, be) + ", "@
            + rust_type_text(v, lifetime, bs, be) + ">"@,
        Type::Array(i) => "Vec<"@ + rust_type_text(i, lifetime, bs, be) + ">"@,
    }
}

/// The first `n` types of `es`, written and separated by `", "`.
pub open spec fn type_list_text(
    es: &Vec<Type>,
    n: nat,
    lifetime: Option<Seq<char>>,
    bs: Seq<String>,
    be: Seq<String>,
) -> Seq<char>
    decreases es, n,
{
    if n == 0 || n > es@.len() {
        Seq::empty()
    } else if n == 1 {
        rust_type_text(&es@[0], lifetime, bs, be)
    } else {
        type_list_text(es, (n - 1) as nat, lifetime, bs, be) + ", "@ + rust_type_text(
            &es@[n - 1],
            lifetime,
            bs,
            be,
        )
    }
}

fn with_lifetime(name: &String, lifetime: Option<&str>) -> (s: String)
    ensures
        s@ == name@ + "<"@ + lifetime_or_anonymous(lifetime_view(lifetime)) + ">"@,
{
    match lifetime {
        Some(l) => cat4(name.as_str(), "<", l, ">"),
        None => cat4(name.as_str(), "<", "'_", ">"),
    }
}

#[verifier::loop_isolation(false)]
fn rust_type_inner(ty: &Type, lifetime: Option<&str>, ctx: &TypeContext) -> (s: String)
    ensures
        s@ == rust_type_text(
            ty,
            lifetime_view(lifetime),
            ctx.borrowed_structs@,
            ctx.borrowed_enums@,
        ),
    decreases ty,
{
    match ty {
        Type::Int => String::from_str("i64"),
        Type::Bool => String::from_str("bool"),
        Type::String => String::from_str("String"),
        Type::Struct(name) => {
            if contains_name(&ctx.borrowed_structs, name) {
                with_lifetime(name, lifetime)
            } else {
                name.clone()
            }
        },
        Type::Enum(name) => {
            if contains_name(&ctx.borrowed_enums, name) {
                with_lifetime(name, lifetime)
            } else {
                name.clone()
            }
        },
        Type::Slice(inner) => {
            let i = rust_type_inner(inner, lifetime, ctx);
            match lifetime {
                Some(l) => cat5("&", l, " [", i.as_str(), "]"),
                None => cat3("&[", i.as_str(), "]"),
            }
        },
        Type::MutSlice(inner) => {
            let i = rust_type_inner(inner, lifetime, ctx);
            match lifetime {
                Some(l) => cat5("&", l, " mut [", i.as_str(), "]"),
                None => cat3("&mut [", i.as_str(), "]"),
            }
        },
        Type::Option(inner) => cat3("Option<", rust_type_inner(inner, lifetime, ctx).as_str(), ">"),
        Type::Result(a, b) => cat5(
            "Result<",
            rust_type_inner(a, lifetime, ctx).as_str(),
            ", ",
            rust_type_inner(b, lifetime, ctx).as_str(),
            ">",
        ),
        Type::Tuple(es) => {
            let ghost lt = lifetime_view(lifetime);
            let mut out = String::from_str("(");
            let mut i: usize = 0;
            while i < es.len()
                invariant
                    i <= es@.len(),
                    out@ == "("@ + type_list_text(
                        es,
                        i as nat,
                        lt,
                        ctx.borrowed_structs@,
                        ctx.borrowed_enums@,
                    ),
                decreases es@.len() - i,
            {
                proof {
                    assert(decreases_to!(es => es[i as int]));
                }
                let t = rust_type_inner(&es[i], lifetime, ctx);
                if i > 0 {
                    out.append(", ");
                }
                out.append(t.as_str());
                i = i + 1;
            }
            out.append(")");
            out
        },
        Type::Dict(k, v) => cat5(
            "HashMap<",
            rust_type_inner(k, lifetime, ctx).as_str(),
            ", ",
            rust_type_inner(v, lifetime, ctx).as_str(),
            ">",
        ),
        Type::Array(inner) => cat3("Vec<", rust_type_inner(inner, lifetime, ctx).as_str(), ">"),
    }
}

fn rust_type(ty: &Type, ctx: &TypeContext) -> (s: String)
    ensures
        s@ == rust_type_text(ty, None, ctx.borrowed_structs@, ctx.borrowed_enums@),
{
    rust_type_inner(ty, None, ctx)
}

fn rust_type_in_signature(ty: &Type, uses_slice_lifetime: bool, ctx: &TypeContext) -> (s: String)
    ensures
        s@ == rust_type_text(
            ty,
            if uses_slice_lifetime {
                Some("'a"@)
            } else {
                None
            },
            ctx.borrowed_structs@,
            ctx.borrowed_enums@,
        ),
{
    if uses_slice_lifetime {
        rust_type_inner(ty, Some("'a"), ctx)
    } else {
        rust_type(ty, ctx)
    }
}

// ----- Declarations ------------------------------------------------------------------

/// `n` levels of indentation, four spaces each.
pub open spec fn pad_text(n: nat) -> Seq<char>
    decreases n,
{
    if n == 0 {
        Seq::empty()
    } else {
        pad_text((n - 1) as nat) + "    "@
    }
}

fn pad(indent: usize) -> (s: String)
    ensures
        s@ == pad_text(indent as nat),
{
    let mut out = String::new();
    let mut i: usize = 0;
    while i < indent
        invariant
            i <= indent,
            out@ == pad_text(i as nat),
        decreases indent - i,
    {
        out.append("    ");
        i = i + 1;
    }
    out
}

/// The first `n` strings of `items`, separated by `sep`.
pub open spec fn strings_joined(items: Seq<String>, n: nat, sep: Seq<char>) -> Seq<char>
    decreases n,
{
    if n == 0 || n > items.len() {
        Seq::empty()
    } else if n == 1 {
        items[0]@
    } else {
        strings_joined(items, (n - 1) as nat, sep) + sep + items[n - 1]@
    }
}

fn join_strings(items: &Vec<String>, sep: &str) -> (s: String)
    ensures
        s@ == strings_joined(items@, items@.len(), sep@),
{
    let mut out = String::new();
    let mut i: usize = 0;
    while i < items.len()
        invariant
            i <= items@.len(),
            out@ == strings_joined(items@, i as nat, sep@),
        decreases items@.len() - i,
    {
        if i > 0 {
            out.append(sep);
        } else {
            assert(out@ + items@[0]@ =~= items@[0]@);
        }
        out.append(items[i].as_str());
        i = i + 1;
    }
    out
}

/// The lifetime that a declaration's fields and payloads take, if any.
pub open spec fn decl_lifetime(borrowed: bool) -> Option<Seq<char>> {
    if borrowed {
        Some("'a"@)
    } else {
        None
    }
}

/// The lifetime parameter written after a declaration's name.
pub open spec fn lifetime_param(borrowed: bool) -> Seq<char> {
    if borrowed {
        "<'a>"@
    } else {
        ""@
    }
}

/// The attributes every generated struct and enum carries.
pub open spec fn decl_attributes() -> Seq<char> {
    "#[allow(non_camel_case_types)]\n"@ + "#[allow(dead_code)]\n"@ + "#[derive(Debug, PartialEq)]\n"@
}

/// The first `n` fields of a struct, one line each at one level of indentation.
pub open spec fn field_decls_text(
    fs: Seq<StructField>,
    n: nat,
    lifetime: Option<Seq<char>>,
    bs: Seq<String>,
    be: Seq<String>,
) -> Seq<char>
    decreases n,
{
    if n == 0 || n > fs.len() {
        Seq::empty()
    } else {
        field_decls_text(fs, (n - 1) as nat, lifetime, bs, be) + (pad_text(1) + fs[n - 1].name@
            + ": "@ + rust_type_text(&fs[n - 1].ty, lifetime, bs, be) + ",\n"@)
    }
}

/// A struct declaration in the generated Rust.
pub open spec fn struct_decl_text(def: StructDef, bs: Seq<String>, be: Seq<String>) -> Seq<char> {
    let borrowed = names_contain(bs, def.name@);
    decl_attributes() + ("struct "@ + def.name@ + lifetime_param(borrowed) + " {\n"@)
        + field_decls_text(def.fields@, def.fields@.len(), decl_lifetime(borrowed), bs, be)
        + "}\n"@
}

/// The first `n` named payloads of a variant declaration, one line each.
pub open spec fn payload_decls_text(
    names: Seq<String>,
    tys: &Vec<Type>,
    n: nat,
    bs: Seq<String>,
    be: Seq<String>,
) -> Seq<char>
    decreases n,
{
    if n == 0 || n > names.len() || n > tys@.len() {
        Seq::empty()
    } else {
        payload_decls_text(names, tys, (n - 1) as nat, bs, be) + ("        "@ + names[n - 1]@
            + ": "@ + rust_type_text(&tys@[n - 1], Some("'a"@), bs, be) + ",\n"@)
    }
}

/// One variant of an enum declaration.
pub open spec fn variant_decl_text(v: EnumVariantDef, bs: Seq<String>, be: Seq<String>) -> Seq<
    char,
> {
    if v.payload_tys@.len() == 0 {
        "    "@ + v.name@ + ",\n"@
    } else if v.payload_names@.len() != 0 {
        let n = if v.payload_names@.len() < v.payload_tys@.len() {
            v.payload_names@.len()
        } else {
            v.payload_tys@.len()
        };
        ("    "@ + v.name@ + " {\n"@) + payload_decls_text(v.payload_names@, &v.payload_tys, n, bs, be)
            + "    },\n"@
    } else {
        "    "@ + v.name@ + "("@ + type_list_text(
            &v.payload_tys,
            v.payload_tys@.len(),
            Some("'a"@),
            bs,
            be,
        ) + "),\n"@
    }
}

/// The first `n` variants of an enum declaration.
pub open spec fn variant_decls_text(
    vs: Seq<EnumVariantDef>,
    n: nat,
    bs: Seq<String>,
    be: Seq<String>,
) -> Seq<char>
    decreases n,
{
    if n == 0 || n > vs.len() {
        Seq::empty()
    } else {
        variant_decls_text(vs, (n - 1) as nat, bs, be) + variant_decl_text(vs[n - 1], bs, be)
    }
}

/// An enum declaration in the generated Rust.
pub open spec fn enum_decl_text(def: EnumDef, bs: Seq<String>, be: Seq<String>) -> Seq<char> {
    let borrowed = names_contain(be, def.name@);
    decl_attributes() + ("enum "@ + def.name@ + lifetime_param(borrowed) + " {\n"@)
        + variant_decls_text(def.variants@, def.variants@.len(), bs, be) + "}\n"@
}

#[verifier::loop_isolation(false)]
fn render_struct(def: &StructDef, ctx: &TypeContext, out: &mut String)
    ensures
        final(out)@ == old(out)@ + struct_decl_text(*def, ctx.borrowed_structs@, ctx.borrowed_enums@),
{
    let ghost bs = ctx.borrowed_structs@;
    let ghost be = ctx.borrowed_enums@;
    let borrowed = contains_name(&ctx.borrowed_structs, &def.name);
    let ghost start = out@;
    out.append("#[allow(non_camel_case_types)]\n");
    out.append("#[allow(dead_code)]\n");
    out.append("#[derive(Debug, PartialEq)]\n");
    assert(out@ =~= start + decl_attributes());
    let lifetime: Option<&str> = if borrowed {
        Some("'a")
    } else {
        None
    };
    out.append(
        cat4(
            "struct ",
            def.name.as_str(),
            if borrowed {
                "<'a>"
            } else {
                ""
            },
            " {\n",
        ).as_str(),
    );
    let ghost head = out@;
    let mut i: usize = 0;
    while i < def.fields.len()
        invariant
            i <= def.fields@.len(),
            out@ == head + field_decls_text(def.fields@, i as nat, decl_lifetime(borrowed), bs, be),
            lifetime_view(lifetime) == decl_lifetime(borrowed),
        decreases def.fields@.len() - i,
    {
        render_struct_field(&def.fields[i], ctx, out, 1, lifetime);
        assert(out@ =~= head + field_decls_text(
            def.fields@,
            (i + 1) as nat,
            decl_lifetime(borrowed),
            bs,
            be,
        ));
        i = i + 1;
    }
    out.append("}\n");
    assert(out@ =~= start + struct_decl_text(*def, bs, be));
}

fn render_type_list(tys: &Vec<Type>, lifetime: Option<&str>, ctx: &TypeContext) -> (s: String)
    ensures
        s@ == type_list_text(
            tys,
            tys@.len(),
            lifetime_view(lifetime),
            ctx.borrowed_structs@,
            ctx.borrowed_enums@,
        ),
{
    let mut out = String::new();
    let mut i: usize = 0;
    while i < tys.len()
        invariant
            i <= tys@.len(),
            out@ == type_list_text(
                tys,
                i as nat,
                lifetime_view(lifetime),
                ctx.borrowed_structs@,
                ctx.borrowed_enums@,
            ),
        decreases tys@.len() - i,
    {
        let t = rust_type_inner(&tys[i], lifetime, ctx);
        if i > 0 {
            out.append(", ");
        } else {
            assert(out@ + t@ =~= t@);
        }
        out.append(t.as_str());
        i = i + 1;
    }
    out
}

#[verifier::loop_isolation(false)]
fn render_variant(variant: &EnumVariantDef, ctx: &TypeContext, out: &mut String)
    ensures
        final(out)@ == old(out)@ + variant_decl_text(
            *variant,
            ctx.borrowed_structs@,
            ctx.borrowed_enums@,
        ),
{
    let ghost bs = ctx.borrowed_structs@;
    let ghost be = ctx.borrowed_enums@;
    let ghost start = out@;
    if variant.payload_tys.len() == 0 {
        out.append(cat3("    ", variant.name.as_str(), ",\n").as_str());
    } else if variant.payload_names.len() != 0 {
        out.append(cat3("    ", variant.name.as_str(), " {\n").as_str());
        let ghost head = out@;
        let mut k: usize = 0;
        while k < variant.payload_names.len() && k < variant.payload_tys.len()
            invariant
                k <= variant.payload_names@.len(),
                k <= variant.payload_tys@.len(),
                out@ == head + payload_decls_text(
                    variant.payload_names@,
                    &variant.payload_tys,
                    k as nat,
                    bs,
                    be,
                ),
            decreases variant.payload_names@.len() - k,
        {
            let ty = rust_type_inner(&variant.payload_tys[k], Some("'a"), ctx);
            out.append(
                cat5("        ", variant.payload_names[k].as_str(), ": ", ty.as_str(), ",\n").as_str(),
            );
            assert(out@ =~= head + payload_decls_text(
                variant.payload_names@,
                &variant.payload_tys,
                (k + 1) as nat,
                bs,
                be,
            ));
            k = k + 1;
        }
        out.append("    },\n");
        assert(out@ =~= start + variant_decl_text(*variant, bs, be));
    } else {
        let tys = render_type_list(&variant.payload_tys, Some("'a"), ctx);
        out.append(cat5("    ", variant.name.as_str(), "(", tys.as_str(), "),\n").as_str());
    }
}

#[verifier::loop_isolation(false)]
fn render_enum(def: &EnumDef, ctx: &TypeContext, out: &mut String)
    ensures
        final(out)@ == old(out)@ + enum_decl_text(*def, ctx.borrowed_structs@, ctx.borrowed_enums@),
{
    let ghost bs = ctx.borrowed_structs@;
    let ghost be = ctx.borrowed_enums@;
    let borrowed = contains_name(&ctx.borrowed_enums, &def.name);
    let ghost start = out@;
    out.append("#[allow(non_camel_case_types)]\n");
    out.append("#[allow(dead_code)]\n");
    out.append("#[derive(Debug, PartialEq)]\n");
    assert(out@ =~= start + decl_attributes());
    out.append(
        cat4(
            "enum ",
            def.name.as_str(),
            if borrowed {
                "<'a>"
            } else {
                ""
            },
            " {\n",
        ).as_str(),
    );
    let ghost head = out@;
    let mut i: usize = 0;
    while i < def.variants.len()
        invariant
            i <= def.variants@.len(),
            out@ == head + variant_decls_text(def.variants@, i as nat, bs, be),
        decreases def.variants@.len() - i,
    {
        render_variant(&def.variants[i], ctx, out);
        assert(out@ =~= head + variant_decls_text(def.variants@, (i + 1) as nat, bs, be));
        i = i + 1;
    }
    out.append("}\n");
    assert(out@ =~= start + enum_decl_text(*def, bs, be));
}

fn render_struct_field(
    field: &StructField,
    ctx: &TypeContext,
    out: &mut String,
    indent: usize,
    lifetime: Option<&str>,
)
    ensures
        final(out)@ == old(out)@ + (pad_text(indent as nat) + field.name@ + ": "@ + rust_type_text(
            &field.ty,
            lifetime_view(lifetime),
            ctx.borrowed_structs@,
            ctx.borrowed_enums@,
        ) + ",\n"@),
{
    let ty = rust_type_inner(&field.ty, lifetime, ctx);
    out.append(cat5(pad(indent).as_str(), field.name.as_str(), ": ", ty.as_str(), ",\n").as_str());
}

/// Whether a function's signature holds a borrowed slice, in its result or
/// in a parameter, so that it takes a lifetime parameter.
pub open spec fn signature_borrows(f: &Function, program: &Program) -> bool {
    type_borrows(&f.return_ty, program) || exists|i: int|
        0 <= i < f.params@.len() && type_borrows(&(#[trigger] f.params@[i]).ty, program)
}

fn function_signature_uses_borrowed_slice(f: &Function, program: &Program) -> (b: bool)
    ensures
        b == signature_borrows(f, program),
{
    if type_contains_borrowed_slice(&f.return_ty, program) {
        return true;
    }
    let mut i: usize = 0;
    while i < f.params.len()
        invariant
            i <= f.params@.len(),
            !type_borrows(&f.return_ty, program),
            forall|j: int| 0 <= j < i ==> !type_borrows(&(#[trigger] f.params@[j]).ty, program),
        decreases f.params@.len() - i,
    {
        if type_contains_borrowed_slice(&f.params[i].ty, program) {
            return true;
        }
        i = i + 1;
    }
    false
}

/// A parameter, `name: type`.
pub open spec fn param_text(p: Param, uses: bool, bs: Seq<String>, be: Seq<String>) -> Seq<char> {
    p.name@ + ": "@ + rust_type_text(&p.ty, decl_lifetime(uses), bs, be)
}

/// The first `n` parameters, separated by `", "`.
pub open spec fn params_text(
    ps: Seq<Param>,
    n: nat,
    uses: bool,
    bs: Seq<String>,
    be: Seq<String>,
) -> Seq<char>
    decreases n,
{
    if n == 0 || n > ps.len() {
        Seq::empty()
    } else if n == 1 {
        param_text(ps[0], uses, bs, be)
    } else {
        params_text(ps, (n - 1) as nat, uses, bs, be) + ", "@ + param_text(ps[n - 1], uses, bs, be)
    }
}

/// A function declaration; `uses` says whether it takes the lifetime `'a`.
pub open spec fn function_text(f: &Function, uses: bool, bs: Seq<String>, be: Seq<String>) -> Seq<
    char,
> {
    ("fn "@ + f.name@ + lifetime_param(uses) + "("@ + params_text(
        f.params@,
        f.params@.len(),
        uses,
        bs,
        be,
    )) + (") -> "@ + rust_type_text(&f.return_ty, decl_lifetime(uses), bs, be) + " {\n"@)
        + block_text(&f.body, f.body@.len(), bs, be, 1) + "}\n"@
}

fn render_param(param: &Param, uses_slice_lifetime: bool, ctx: &TypeContext) -> (s: String)
    ensures
        s@ == param_text(*param, uses_slice_lifetime, ctx.borrowed_structs@, ctx.borrowed_enums@),
{
    cat3(
        param.name.as_str(),
        ": ",
        rust_type_in_signature(&param.ty, uses_slice_lifetime, ctx).as_str(),
    )
}

#[verifier::loop_isolation(false)]
fn render_function(f: &Function, program: &Program, ctx: &TypeContext, out: &mut String)
    ensures
        final(out)@ == old(out)@ + function_text(
            f,
            signature_borrows(f, program),
            ctx.borrowed_structs@,
            ctx.borrowed_enums@,
        ),
{
    let ghost bs = ctx.borrowed_structs@;
    let ghost be = ctx.borrowed_enums@;
    let ghost start = out@;
    let uses = function_signature_uses_borrowed_slice(f, program);
    let mut params = String::new();
    let mut i: usize = 0;
    while i < f.params.len()
        invariant
            i <= f.params@.len(),
            params@ == params_text(f.params@, i as nat, uses, bs, be),
        decreases f.params@.len() - i,
    {
        let p = render_param(&f.params[i], uses, ctx);
        if i > 0 {
            params.append(", ");
        } else {
            assert(params@ + p@ =~= p@);
        }
        params.append(p.as_str());
        i = i + 1;
    }
    out.append(
        cat5(
            "fn ",
            f.name.as_str(),
            if uses {
                "<'a>"
            } else {
                ""
            },
            "(",
            params.as_str(),
        ).as_str(),
    );
    out.append(cat3(") -> ", rust_type_in_signature(&f.return_ty, uses, ctx).as_str(), " {\n").as_str());
    render_block(&f.body, ctx, out, 1);
    out.append("}\n");
    assert(out@ =~= start + function_text(f, uses, bs, be));
}

// ----- Statements --------------------------------------------------------------------

/// One more level of indentation, staying put at the largest `usize`.
pub open spec fn next_indent(indent: usize) -> usize {
    if indent < usize::MAX {
        (indent + 1) as usize
    } else {
        indent
    }
}

/// A statement in the generated Rust at the given indentation.
pub open spec fn stmt_text(s: &Stmt, bs: Seq<String>, be: Seq<String>, indent: usize) -> Seq<char>
    decreases s, 0nat,
{
    let p = pad_text(indent as nat);
    let inner = next_indent(indent);
    match s {
        Stmt::Let { name, ty, expr } => (p + "let "@ + name@ + ": "@ + rust_type_text(
            ty,
            None,
            bs,
            be,
        )) + (" = "@ + expr_text(expr) + ";\n"@),
        Stmt::Print(e) => p + "println!(\"{}\", "@ + expr_text(e) + ");\n"@,
        Stmt::If { cond, then_block, else_block } => (p + "if "@ + expr_text(cond) + " {\n"@)
            + block_text(then_block, then_block@.len(), bs, be, inner) + match else_block {
            Some(eb) => (p + "} else {\n"@) + block_text(eb, eb@.len(), bs, be, inner) + (p
                + "}\n"@),
            None => p + "}\n"@,
        },
        Stmt::While { cond, body } => (p + "while "@ + expr_text(cond) + " {\n"@) + block_text(
            body,
            body@.len(),
            bs,
            be,
            inner,
        ) + (p + "}\n"@),
        Stmt::Match { expr, arms } => (p + "match "@ + expr_text(expr) + " {\n"@) + arms_text(
            arms,
            arms@.len(),
            bs,
            be,
            inner,
        ) + (p + "}\n"@),
        Stmt::Return(e) => p + "return "@ + expr_text(e) + ";\n"@,
    }
}

/// The first `n` statements of a block, one after another.
pub open spec fn block_text(
    b: &Vec<Stmt>,
    n: nat,
    bs: Seq<String>,
    be: Seq<String>,
    indent: usize,
) -> Seq<char>
    decreases b, n,
{
    if n == 0 || n > b@.len() {
        Seq::empty()
    } else {
        block_text(b, (n - 1) as nat, bs, be, indent) + stmt_text(&b@[n - 1], bs, be, indent)
    }
}

/// The first `n` arms of a match, one after another.
pub open spec fn arms_text(
    arms: &Vec<MatchArm>,
    n: nat,
    bs: Seq<String>,
    be: Seq<String>,
    indent: usize,
) -> Seq<char>
    decreases arms, n,
{
    if n == 0 || n > arms@.len() {
        Seq::empty()
    } else {
        arms_text(arms, (n - 1) as nat, bs, be, indent) + arm_text(&arms@[n - 1], bs, be, indent)
    }
}

/// The pattern of a match arm and the arrow that follows it.
pub open spec fn arm_head_text(arm: &MatchArm, indent: usize) -> Seq<char> {
    let head = pad_text(indent as nat) + arm.enum_name@ + "::"@ + arm.variant@;
    let bindings = strings_joined(arm.bindings@, arm.bindings@.len(), ", "@);
    if arm.bindings@.len() == 0 {
        head + " => {\n"@
    } else if arm.is_named {
        (head + " { "@ + bindings) + " } => {\n"@
    } else {
        (head + "("@ + bindings) + ") => {\n"@
    }
}

/// A match arm: its pattern, its body one level deeper, and the closing brace.
pub open spec fn arm_text(arm: &MatchArm, bs: Seq<String>, be: Seq<String>, indent: usize) -> Seq<
    char,
>
    decreases arm, 0nat,
{
    arm_head_text(arm, indent) + block_text(
        &arm.body,
        arm.body@.len(),
        bs,
        be,
        next_indent(indent),
    ) + (pad_text(indent as nat) + "},\n"@)
}

fn render_block(block: &Vec<Stmt>, ctx: &TypeContext, out: &mut String, indent: usize)
    ensures
        final(out)@ == old(out)@ + block_text(
            block,
            block@.len(),
            ctx.borrowed_structs@,
            ctx.borrowed_enums@,
            indent,
        ),
    decreases block,
{
    let ghost bs = ctx.borrowed_structs@;
    let ghost be = ctx.borrowed_enums@;
    let ghost start = out@;
    let mut i: usize = 0;
    while i < block.len()
        invariant
            i <= block@.len(),
            bs == ctx.borrowed_structs@,
            be == ctx.borrowed_enums@,
            out@ == start + block_text(block, i as nat, bs, be, indent),
        decreases block@.len() - i,
    {
        proof {
            assert(decreases_to!(block => block[i as int]));
        }
        render_stmt(&block[i], ctx, out, indent);
        assert(out@ =~= start + block_text(block, (i + 1) as nat, bs, be, indent));
        i = i + 1;
    }
}

#[verifier::loop_isolation(false)]
fn render_stmt(stmt: &Stmt, ctx: &TypeContext, out: &mut String, indent: usize)
    ensures
        final(out)@ == old(out)@ + stmt_text(
            stmt,
            ctx.borrowed_structs@,
            ctx.borrowed_enums@,
            indent,
        ),
    decreases stmt,
{
    let ghost bs = ctx.borrowed_structs@;
    let ghost be = ctx.borrowed_enums@;
    let ghost start = out@;
    let p = pad(indent);
    let inner = if indent < usize::MAX {
        indent + 1
    } else {
        indent
    };
    match stmt {
        Stmt::Let { name, ty, expr } => {
            out.append(
                cat5(p.as_str(), "let ", name.as_str(), ": ", rust_type(ty, ctx).as_str()).as_str(),
            );
            out.append(cat3(" = ", render_expr(expr).as_str(), ";\n").as_str());
        },
        Stmt::Print(expr) => {
            out.append(cat4(p.as_str(), "println!(\"{}\", ", render_expr(expr).as_str(), ");\n").as_str());
        },
        Stmt::If { cond, then_block, else_block } => {
            out.append(cat4(p.as_str(), "if ", render_expr(cond).as_str(), " {\n").as_str());
            render_block(then_block, ctx, out, inner);
            match else_block {
                Some(eb) => {
                    out.append(cat(p.as_str(), "} else {\n").as_str());
                    render_block(eb, ctx, out, inner);
                    out.append(cat(p.as_str(), "}\n").as_str());
                },
                None => {
                    out.append(cat(p.as_str(), "}\n").as_str());
                },
            }
        },
        Stmt::While { cond, body } => {
            out.append(cat4(p.as_str(), "while ", render_expr(cond).as_str(), " {\n").as_str());
            render_block(body, ctx, out, inner);
            out.append(cat(p.as_str(), "}\n").as_str());
        },
        Stmt::Match { expr, arms } => {
            out.append(cat4(p.as_str(), "match ", render_expr(expr).as_str(), " {\n").as_str());
            let ghost head = out@;
            let mut i: usize = 0;
            while i < arms.len()
                invariant
                    i <= arms@.len(),
                    out@ == head + arms_text(arms, i as nat, bs, be, inner),
                decreases arms@.len() - i,
            {
                proof {
                    assert(decreases_to!(arms => arms[i as int]));
                }
                render_match_arm(&arms[i], ctx, out, inner);
                assert(out@ =~= head + arms_text(arms, (i + 1) as nat, bs, be, inner));
                i = i + 1;
            }
            out.append(cat(p.as_str(), "}\n").as_str());
        },
        Stmt::Return(expr) => {
            out.append(cat4(p.as_str(), "return ", render_expr(expr).as_str(), ";\n").as_str());
        },
    }
    assert(out@ =~= start + stmt_text(stmt, bs, be, indent));
}

fn render_match_arm(arm: &MatchArm, ctx: &TypeContext, out: &mut String, indent: usize)
    ensures
        final(out)@ == old(out)@ + arm_text(arm, ctx.borrowed_structs@, ctx.borrowed_enums@, indent),
    decreases arm,
{
    let ghost start = out@;
    let p = pad(indent);
    let head = cat4(p.as_str(), arm.enum_name.as_str(), "::", arm.variant.as_str());
    if arm.bindings.len() == 0 {
        out.append(cat(head.as_str(), " => {\n").as_str());
    } else if arm.is_named {
        out.append(cat3(head.as_str(), " { ", join_strings(&arm.bindings, ", ").as_str()).as_str());
        out.append(" } => {\n");
    } else {
        out.append(cat3(head.as_str(), "(", join_strings(&arm.bindings, ", ").as_str()).as_str());
        out.append(") => {\n");
    }
    assert(out@ =~= start + arm_head_text(arm, indent));
    let inner = if indent < usize::MAX {
        indent + 1
    } else {
        indent
    };
    render_block(&arm.body, ctx, out, inner);
    out.append(cat(p.as_str(), "},\n").as_str());
    assert(out@ =~= start + arm_text(arm, ctx.borrowed_structs@, ctx.borrowed_enums@, indent));
}

// ----- Expressions -----------------------------------------------------------------

/// How a literal is written in the generated Rust.
pub open spec fn literal_text(v: LiteralValue) -> Seq<char> {
    match v {
        LiteralValue::Int(x) => signed_decimal(x as int),
        LiteralValue::Bool(b) => if b {
            "true"@
        } else {
            "false"@
        },
        LiteralValue::String(s) => "String::from("@ + debug_quoted(s@) + ")"@,
    }
}

/// A host operation applied to the written first argument, or to nothing.
pub open spec fn host_text(helper: Seq<char>, first: Option<Seq<char>>) -> Seq<char> {
    match first {
        Some(a) => helper + "("@ + a + ")"@,
        None => helper + "()"@,
    }
}

/// An optional slice bound: `Some(..)` around the written bound, or `None`.
pub open spec fn bound_text(b: Option<Seq<char>>) -> Seq<char> {
    match b {
        Some(a) => "Some("@ + a + ")"@,
        None => "None"@,
    }
}

pub open spec fn is_borrowed_slice(t: &Type) -> bool {
    match t {
        Type::Slice(_) | Type::MutSlice(_) => true,
        _ => false,
    }
}

/// `first(..)` or `last(..)` of the written collection: a copy out of an
/// owned array for copyable items, a move out of it otherwise, and a copy
/// out of a borrowed slice.
pub open spec fn edge_text(rendered: Seq<char>, borrowed: bool, copy: bool, from_end: bool) -> Seq<
    char,
> {
    let index = if from_end {
        "axiom_last_index(values.len())"@
    } else {
        "0"@
    };
    if !borrowed && copy {
        "{ let values = "@ + rendered + "; axiom_array_get(&values, "@ + index + ") }"@
    } else if !borrowed {
        "{ let values = "@ + rendered + "; let index = "@ + index
            + "; axiom_array_take(values, index) }"@
    } else {
        "{ let values = "@ + rendered + "; let index = "@ + index
            + "; axiom_array_get(values, index) }"@
    }
}

/// A slice of the written base between the written bounds.
pub open spec fn slice_text(
    base: Seq<char>,
    start: Seq<char>,
    end: Seq<char>,
    from_array: bool,
    mutable: bool,
) -> Seq<char> {
    let helper = if mutable {
        "axiom_slice_view_mut("@
    } else {
        "axiom_slice_view("@
    };
    let borrow = if !from_array {
        ""@
    } else if mutable {
        "&mut "@
    } else {
        "&"@
    };
    helper + borrow + base + ", "@ + start + ", "@ + end + ")"@
}

/// An element of the written base at the written index, by the base's type:
/// copied or moved out of an array or a map, copied out of a slice.
pub open spec fn index_text(base: Seq<char>, index: Seq<char>, base_ty: &Type, copy: bool) -> Seq<
    char,
> {
    match base_ty {
        Type::Array(_) => if copy {
            "axiom_array_get(&"@ + base + ", "@ + index + ")"@
        } else {
            "axiom_array_take("@ + base + ", "@ + index + ")"@
        },
        Type::Dict(_, _) => if copy {
            "axiom_map_get(&"@ + base + ", &"@ + index + ")"@
        } else {
            "axiom_map_take("@ + base + ", &"@ + index + ")"@
        },
        _ => "axiom_array_get("@ + base + ", "@ + index + ")"@,
    }
}

/// How an expression is written in the generated Rust.
pub open spec fn expr_text(e: &Expr) -> Seq<char>
    decreases e, 0nat,
{
    match e {
        Expr::Literal(v) => literal_text(*v),
        Expr::VarRef { name, .. } => name@,
        Expr::Call { name, args, ty } => {
            let first = if args@.len() == 0 {
                None
            } else {
                Some(expr_text(&args@[0]))
            };
            if name@ == "len"@ {
                match first {
                    Some(a) => "("@ + a + ").len() as i64"@,
                    None => "0"@,
                }
            } else if name@ == "io_eprintln"@ {
                host_text("axiom_io_eprintln"@, first)
            } else if name@ == "fs_read"@ {
                host_text("axiom_fs_read"@, first)
            } else if name@ == "http_get"@ {
                host_text("axiom_http_get"@, first)
            } else if name@ == "net_resolve"@ {
                host_text("axiom_net_resolve"@, first)
            } else if name@ == "process_status"@ {
                host_text("axiom_process_status"@, first)
            } else if name@ == "clock_now_ms"@ {
                "axiom_clock_now_ms()"@
            } else if name@ == "env_get"@ {
                host_text("axiom_env_get"@, first)
            } else if name@ == "crypto_sha256"@ {
                host_text("axiom_crypto_sha256"@, first)
            } else if (name@ == "first"@ || name@ == "last"@) && args@.len() > 0 {
                edge_text(
                    expr_text(&args@[0]),
                    is_borrowed_slice(args@[0].spec_ty()),
                    ty.spec_is_copy(),
                    name@ != "first"@,
                )
            } else {
                name@ + "("@ + expr_list_text(args, args@.len()) + ")"@
            }
        },
        Expr::BinaryAdd { lhs, rhs, ty } => match ty {
            Type::String => "format!(\"{}{}\", "@ + expr_text(lhs) + ", "@ + expr_text(rhs) + ")"@,
            _ => expr_text(lhs) + " + "@ + expr_text(rhs),
        },
        Expr::BinaryCompare { op, lhs, rhs, .. } => expr_text(lhs) + " "@ + op.spec_text() + " "@
            + expr_text(rhs),
        Expr::StructLiteral { name, fields, .. } => name@ + " { "@ + field_values_text(
            fields,
            fields@.len(),
        ) + " }"@,
        Expr::FieldAccess { base, field, .. } => "("@ + expr_text(base) + ")."@ + field@,
        Expr::TupleLiteral { elements, .. } => "("@ + expr_list_text(elements, elements@.len())
            + ")"@,
        Expr::TupleIndex { base, index, .. } => "("@ + expr_text(base) + ")."@ + decimal(
            *index as nat,
        ),
        Expr::MapLiteral { entries, .. } => "HashMap::from(["@ + map_entries_text(
            entries,
            entries@.len(),
        ) + "])"@,
        Expr::EnumVariant { enum_name, variant, field_names, payloads, .. } => {
            let head = enum_name@ + "::"@ + variant@;
            if payloads@.len() == 0 {
                head
            } else if field_names@.len() != 0 {
                let n = if field_names@.len() < payloads@.len() {
                    field_names@.len()
                } else {
                    payloads@.len()
                };
                head + " { "@ + named_payloads_text(field_names, payloads, n) + " }"@
            } else {
                head + "("@ + expr_list_text(payloads, payloads@.len()) + ")"@
            }
        },
        Expr::ArrayLiteral { elements, .. } => "vec!["@ + expr_list_text(
            elements,
            elements@.len(),
        ) + "]"@,
        Expr::Slice { base, start, end, ty } => slice_text(
            expr_text(base),
            bound_text(
                match start {
                    Some(x) => Some(expr_text(x)),
                    None => None,
                },
            ),
            bound_text(
                match end {
                    Some(x) => Some(expr_text(x)),
                    None => None,
                },
            ),
            base.spec_ty() is Array,
            ty is MutSlice,
        ),
        Expr::Index { base, index, ty } => index_text(
            expr_text(base),
            expr_text(index),
            base.spec_ty(),
            ty.spec_is_copy(),
        ),
    }
}

/// The first `n` expressions of `es`, written and separated by `", "`.
pub open spec fn expr_list_text(es: &Vec<Expr>, n: nat) -> Seq<char>
    decreases es, n,
{
    if n == 0 || n > es@.len() {
        Seq::empty()
    } else if n == 1 {
        expr_text(&es@[0])
    } else {
        expr_list_text(es, (n - 1) as nat) + ", "@ + expr_text(&es@[n - 1])
    }
}

/// The first `n` field initialisers of a struct literal, `name: value`,
/// separated by `", "`.
pub open spec fn field_values_text(fs: &Vec<StructFieldValue>, n: nat) -> Seq<char>
    decreases fs, n,
{
    if n == 0 || n > fs@.len() {
        Seq::empty()
    } else {
        let item = fs@[n - 1].name@ + ": "@ + expr_text(&fs@[n - 1].expr);
        if n == 1 {
            item
        } else {
            field_values_text(fs, (n - 1) as nat) + ", "@ + item
        }
    }
}

/// The first `n` entries of a map literal, `(key, value)`, separated by `", "`.
pub open spec fn map_entries_text(es: &Vec<MapEntry>, n: nat) -> Seq<char>
    decreases es, n,
{
    if n == 0 || n > es@.len() {
        Seq::empty()
    } else {
        let item = "("@ + expr_text(&es@[n - 1].key) + ", "@ + expr_text(&es@[n - 1].value)
            + ")"@;
        if n == 1 {
            item
        } else {
            map_entries_text(es, (n - 1) as nat) + ", "@ + item
        }
    }
}

/// The first `n` named payloads of a variant, `name: value`, separated by `", "`.
pub open spec fn named_payloads_text(names: &Vec<String>, ps: &Vec<Expr>, n: nat) -> Seq<char>
    decreases ps, n,
{
    if n == 0 || n > ps@.len() || n > names@.len() {
        Seq::empty()
    } else {
        let item = names@[n - 1]@ + ": "@ + expr_text(&ps@[n - 1]);
        if n == 1 {
            item
        } else {
            named_payloads_text(names, ps, (n - 1) as nat) + ", "@ + item
        }
    }
}

fn render_literal(v: &LiteralValue) -> (s: String)
    ensures
        s@ == literal_text(*v),
{
    match v {
        LiteralValue::Int(x) => i64_to_string(*x),
        LiteralValue::Bool(b) => if *b {
            String::from_str("true")
        } else {
            String::from_str("false")
        },
        LiteralValue::String(x) => cat3("String::from(", debug_string(x.as_str()).as_str(), ")"),
    }
}

/// A sum is written with its left operand before its right one: `+` between
/// them for numbers, and for strings a `format!` that writes the left text
/// and then the right.
pub proof fn lemma_sum_keeps_operand_order(lhs: Expr, rhs: Expr, ty: Type)
    ensures
        expr_text(&Expr::BinaryAdd { lhs: Box::new(lhs), rhs: Box::new(rhs), ty }) == if ty is String {
            "format!(\"{}{}\", "@ + expr_text(&lhs) + ", "@ + expr_text(&rhs) + ")"@
        } else {
            expr_text(&lhs) + " + "@ + expr_text(&rhs)
        },
{
}

/// A comparison is written with its left operand first and its right operand
/// last, the operator between them: the generated code compares the operands in
/// the order the source gives them.
pub proof fn lemma_comparison_keeps_operand_order(op: CompareOp, lhs: Expr, rhs: Expr, ty: Type)
    ensures
        expr_text(&Expr::BinaryCompare { op, lhs: Box::new(lhs), rhs: Box::new(rhs), ty }) == expr_text(&lhs)
            + " "@ + op.spec_text() + " "@ + expr_text(&rhs),
        expr_text(&Expr::BinaryCompare { op, lhs: Box::new(lhs), rhs: Box::new(rhs), ty }).subrange(
            0,
            expr_text(&lhs).len() as int,
        ) == expr_text(&lhs),
{
    let e = Expr::BinaryCompare { op, lhs: Box::new(lhs), rhs: Box::new(rhs), ty };
    let whole = expr_text(&lhs) + " "@ + op.spec_text() + " "@ + expr_text(&rhs);
    assert(whole.subrange(0, expr_text(&lhs).len() as int) =~= expr_text(&lhs));
}

fn render_expr_list(items: &Vec<Expr>) -> (s: String)
    ensures
        s@ == expr_list_text(items, items@.len()),
    decreases items, 0nat,
{
    let mut out = String::new();
    let mut i: usize = 0;
    while i < items.len()
        invariant
            i <= items@.len(),
            out@ == expr_list_text(items, i as nat),
        decreases items@.len() - i,
    {
        proof {
            assert(decreases_to!(items => items[i as int]));
        }
        let t = render_expr(&items[i]);
        if i > 0 {
            out.append(", ");
        } else {
            assert(out@ + t@ =~= t@);
        }
        out.append(t.as_str());
        i = i + 1;
    }
    out
}

fn render_field_values(fields: &Vec<StructFieldValue>) -> (s: String)
    ensures
        s@ == field_values_text(fields, fields@.len()),
    decreases fields, 0nat,
{
    let mut out = String::new();
    let mut i: usize = 0;
    while i < fields.len()
        invariant
            i <= fields@.len(),
            out@ == field_values_text(fields, i as nat),
        decreases fields@.len() - i,
    {
        proof {
            assert(decreases_to!(fields => fields[i as int]));
        }
        let item = cat3(fields[i].name.as_str(), ": ", render_expr(&fields[i].expr).as_str());
        if i > 0 {
            out.append(", ");
        } else {
            assert(out@ + item@ =~= item@);
        }
        out.append(item.as_str());
        i = i + 1;
    }
    out
}

fn render_map_entries(entries: &Vec<MapEntry>) -> (s: String)
    ensures
        s@ == map_entries_text(entries, entries@.len()),
    decreases entries, 0nat,
{
    let mut out = String::new();
    let mut i: usize = 0;
    while i < entries.len()
        invariant
            i <= entries@.len(),
            out@ == map_entries_text(entries, i as nat),
        decreases entries@.len() - i,
    {
        proof {
            assert(decreases_to!(entries => entries[i as int]));
        }
        let item = cat5(
            "(",
            render_expr(&entries[i].key).as_str(),
            ", ",
            render_expr(&entries[i].value).as_str(),
            ")",
        );
        if i > 0 {
            out.append(", ");
        } else {
            assert(out@ + item@ =~= item@);
        }
        out.append(item.as_str());
        i = i + 1;
    }
    out
}

fn render_named_payloads(names: &Vec<String>, payloads: &Vec<Expr>) -> (s: String)
    ensures
        s@ == named_payloads_text(
            names,
            payloads,
            if names@.len() < payloads@.len() {
                names@.len()
            } else {
                payloads@.len()
            },
        ),
    decreases payloads, 0nat,
{
    let mut out = String::new();
    let mut i: usize = 0;
    while i < names.len() && i < payloads.len()
        invariant
            i <= names@.len(),
            i <= payloads@.len(),
            out@ == named_payloads_text(names, payloads, i as nat),
        decreases payloads@.len() - i,
    {
        proof {
            assert(decreases_to!(payloads => payloads[i as int]));
        }
        let item = cat3(names[i].as_str(), ": ", render_expr(&payloads[i]).as_str());
        if i > 0 {
            out.append(", ");
        } else {
            assert(out@ + item@ =~= item@);
        }
        out.append(item.as_str());
        i = i + 1;
    }
    out
}

fn host_call(helper: &str, args: &Vec<Expr>) -> (s: String)
    ensures
        s@ == host_text(
            helper@,
            if args@.len() == 0 {
                None
            } else {
                Some(expr_text(&args@[0]))
            },
        ),
    decreases args, 0nat,
{
    if args.len() == 0 {
        return cat(helper, "()");
    }
    proof {
        assert(decreases_to!(args => args[0]));
    }
    cat4(helper, "(", render_expr(&args[0]).as_str(), ")")
}

fn slice_bound(bound: &Option<Box<Expr>>) -> (s: String)
    ensures
        s@ == bound_text(
            match bound {
                Some(x) => Some(expr_text(x)),
                None => None,
            },
        ),
    decreases bound, 0nat,
{
    match bound {
        Some(e) => cat3("Some(", render_expr(e).as_str(), ")"),
        None => String::from_str("None"),
    }
}

/// `first(..)` or `last(..)` of an array or slice.
fn render_collection_edge(rendered: String, collection: &Expr, result_ty: &Type, from_end: bool) -> (s:
    String)
    ensures
        s@ == edge_text(
            rendered@,
            is_borrowed_slice(collection.spec_ty()),
            result_ty.spec_is_copy(),
            from_end,
        ),
{
    let index = if from_end {
        "axiom_last_index(values.len())"
    } else {
        "0"
    };
    let borrowed = match collection.ty() {
        Type::Slice(_) | Type::MutSlice(_) => true,
        _ => false,
    };
    if !borrowed && result_ty.is_copy() {
        cat5("{ let values = ", rendered.as_str(), "; axiom_array_get(&values, ", index, ") }")
    } else if !borrowed {
        cat5(
            "{ let values = ",
            rendered.as_str(),
            "; let index = ",
            index,
            "; axiom_array_take(values, index) }",
        )
    } else {
        cat5(
            "{ let values = ",
            rendered.as_str(),
            "; let index = ",
            index,
            "; axiom_array_get(values, index) }",
        )
    }
}

/// An expression in the generated Rust.
#[verifier::loop_isolation(false)]
fn render_expr(expr: &Expr) -> (s: String)
    ensures
        s@ == expr_text(expr),
        expr matches Expr::BinaryCompare { op, lhs, rhs, .. } ==> s@ == expr_text(lhs) + " "@ + op.spec_text()
            + " "@ + expr_text(rhs),
    decreases expr, 1nat,
{
    match expr {
        Expr::Literal(v) => render_literal(v),
        Expr::VarRef { name, .. } => name.clone(),
        Expr::Call { name, args, ty } => {
            let n = name.as_str();
            if crate::text::string_is(name, "len") {
                if args.len() == 0 {
                    return String::from_str("0");
                }
                proof {
                    assert(decreases_to!(args => args[0]));
                }
                return cat3("(", render_expr(&args[0]).as_str(), ").len() as i64");
            }
            if crate::text::string_is(name, "io_eprintln") {
                return host_call("axiom_io_eprintln", args);
            }
            if crate::text::string_is(name, "fs_read") {
                return host_call("axiom_fs_read", args);
            }
            if crate::text::string_is(name, "http_get") {
                return host_call("axiom_http_get", args);
            }
            if crate::text::string_is(name, "net_resolve") {
                return host_call("axiom_net_resolve", args);
            }
            if crate::text::string_is(name, "process_status") {
                return host_call("axiom_process_status", args);
            }
            if crate::text::string_is(name, "clock_now_ms") {
                return String::from_str("axiom_clock_now_ms()");
            }
            if crate::text::string_is(name, "env_get") {
                return host_call("axiom_env_get", args);
            }
            if crate::text::string_is(name, "crypto_sha256") {
                return host_call("axiom_crypto_sha256", args);
            }
            let first = crate::text::string_is(name, "first");
            if (first || crate::text::string_is(name, "last")) && args.len() > 0 {
                proof {
                    assert(decreases_to!(args => args[0]));
                }
                return render_collection_edge(render_expr(&args[0]), &args[0], ty, !first);
            }
            cat4(n, "(", render_expr_list(args).as_str(), ")")
        },
        Expr::BinaryAdd { lhs, rhs, ty } => match ty {
            Type::String => cat5(
                "format!(\"{}{}\", ",
                render_expr(lhs).as_str(),
                ", ",
                render_expr(rhs).as_str(),
                ")",
            ),
            _ => cat3(render_expr(lhs).as_str(), " + ", render_expr(rhs).as_str()),
        },
        Expr::BinaryCompare { op, lhs, rhs, .. } => cat5(
            render_expr(lhs).as_str(),
            " ",
            op.lexeme(),
            " ",
            render_expr(rhs).as_str(),
        ),
        Expr::StructLiteral { name, fields, .. } => cat4(
            name.as_str(),
            " { ",
            render_field_values(fields).as_str(),
            " }",
        ),
        Expr::FieldAccess { base, field, .. } => cat4(
            "(",
            render_expr(base).as_str(),
            ").",
            field.as_str(),
        ),
        Expr::TupleLiteral { elements, .. } => cat3("(", render_expr_list(elements).as_str(), ")"),
        Expr::TupleIndex { base, index, .. } => cat4(
            "(",
            render_expr(base).as_str(),
            ").",
            crate::text::usize_to_string(*index).as_str(),
        ),
        Expr::MapLiteral { entries, .. } => cat3(
            "HashMap::from([",
            render_map_entries(entries).as_str(),
            "])",
        ),
        Expr::EnumVariant { enum_name, variant, field_names, payloads, .. } => {
            let head = cat3(enum_name.as_str(), "::", variant.as_str());
            if payloads.len() == 0 {
                head
            } else if field_names.len() != 0 {
                cat4(head.as_str(), " { ", render_named_payloads(field_names, payloads).as_str(), " }")
            } else {
                cat4(head.as_str(), "(", render_expr_list(payloads).as_str(), ")")
            }
        },
        Expr::ArrayLiteral { elements, .. } => cat3("vec![", render_expr_list(elements).as_str(), "]"),
        Expr::Slice { base, start, end, ty } => {
            let s = slice_bound(start);
            let e = slice_bound(end);
            let mutable = match ty {
                Type::MutSlice(_) => true,
                _ => false,
            };
            let from_array = match base.ty() {
                Type::Array(_) => true,
                _ => false,
            };
            let helper = if mutable {
                "axiom_slice_view_mut("
            } else {
                "axiom_slice_view("
            };
            let borrow = if !from_array {
                ""
            } else if mutable {
                "&mut "
            } else {
                "&"
            };
            cat5(helper, borrow, render_expr(base).as_str(), ", ", s.as_str()).concat(", ").concat(
                e.as_str(),
            ).concat(")")
        },
        Expr::Index { base, index, ty } => {
            let b = render_expr(base);
            let i = render_expr(index);
            match base.ty() {
                Type::Array(_) => if ty.is_copy() {
                    cat5("axiom_array_get(&", b.as_str(), ", ", i.as_str(), ")")
                } else {
                    cat5("axiom_array_take(", b.as_str(), ", ", i.as_str(), ")")
                },
                Type::Dict(_, _) => if ty.is_copy() {
                    cat5("axiom_map_get(&", b.as_str(), ", &", i.as_str(), ")")
                } else {
                    cat5("axiom_map_take(", b.as_str(), ", &", i.as_str(), ")")
                },
                _ => cat5("axiom_array_get(", b.as_str(), ", ", i.as_str(), ")"),
            }
        },
    }
}

// ----- Programs ----------------------------------------------------------------------

/// The first `n` enum declarations, each followed by a blank line.
pub open spec fn enums_text(defs: Seq<EnumDef>, n: nat, bs: Seq<String>, be: Seq<String>) -> Seq<
    char,
>
    decreases n,
{
    if n == 0 || n > defs.len() {
        Seq::empty()
    } else {
        enums_text(defs, (n - 1) as nat, bs, be) + enum_decl_text(defs[n - 1], bs, be) + "\n"@
    }
}

/// The first `n` struct declarations, each followed by a blank line.
pub open spec fn structs_text(defs: Seq<StructDef>, n: nat, bs: Seq<String>, be: Seq<String>) -> Seq<
    char,
>
    decreases n,
{
    if n == 0 || n > defs.len() {
        Seq::empty()
    } else {
        structs_text(defs, (n - 1) as nat, bs, be) + struct_decl_text(defs[n - 1], bs, be) + "\n"@
    }
}

/// The first `n` functions of a program, each followed by a blank line.
pub open spec fn functions_text(program: &Program, n: nat, bs: Seq<String>, be: Seq<String>) -> Seq<
    char,
>
    decreases n,
{
    if n == 0 || n > program.functions@.len() {
        Seq::empty()
    } else {
        let f = &program.functions@[n - 1];
        functions_text(program, (n - 1) as nat, bs, be) + function_text(
            f,
            signature_borrows(f, program),
            bs,
            be,
        ) + "\n"@
    }
}

/// What follows the runtime helpers in the generated file, up to the closing
/// brace of `main`: the enums, structs and functions, then `main` with the
/// top-level statements.
pub open spec fn program_text(program: &Program) -> Seq<char> {
    let bs = borrowing_structs(program, program.structs@.len());
    let be = borrowing_enums(program, program.enums@.len());
    enums_text(program.enums@, program.enums@.len(), bs, be) + structs_text(
        program.structs@,
        program.structs@.len(),
        bs,
        be,
    ) + functions_text(program, program.functions@.len(), bs, be) + "fn main() {\n"@ + block_text(
        &program.stmts,
        program.stmts@.len(),
        bs,
        be,
        1,
    )
}

/// Renders a lowered program as one Rust source file: the runtime helpers,
/// then the enums, structs and functions, then `main` with the top-level
/// statements.
fn render_enums(program: &Program, ctx: &TypeContext, out: &mut String)
    ensures
        final(out)@ == old(out)@ + enums_text(
            program.enums@,
            program.enums@.len(),
            ctx.borrowed_structs@,
            ctx.borrowed_enums@,
        ),
{
    let ghost bs = ctx.borrowed_structs@;
    let ghost be = ctx.borrowed_enums@;
    let ghost start = out@;
    let mut i: usize = 0;
    while i < program.enums.len()
        invariant
            i <= program.enums@.len(),
            bs == ctx.borrowed_structs@,
            be == ctx.borrowed_enums@,
            out@ == start + enums_text(program.enums@, i as nat, bs, be),
        decreases program.enums@.len() - i,
    {
        render_enum(&program.enums[i], ctx, out);
        out.append("\n");
        assert(out@ =~= start + enums_text(program.enums@, (i + 1) as nat, bs, be));
        i = i + 1;
    }
}

fn render_structs(program: &Program, ctx: &TypeContext, out: &mut String)
    ensures
        final(out)@ == old(out)@ + structs_text(
            program.structs@,
            program.structs@.len(),
            ctx.borrowed_structs@,
            ctx.borrowed_enums@,
        ),
{
    let ghost bs = ctx.borrowed_structs@;
    let ghost be = ctx.borrowed_enums@;
    let ghost start = out@;
    let mut k: usize = 0;
    while k < program.structs.len()
        invariant
            k <= program.structs@.len(),
            bs == ctx.borrowed_structs@,
            be == ctx.borrowed_enums@,
            out@ == start + structs_text(program.structs@, k as nat, bs, be),
        decreases program.structs@.len() - k,
    {
        render_struct(&program.structs[k], ctx, out);
        out.append("\n");
        assert(out@ =~= start + structs_text(program.structs@, (k + 1) as nat, bs, be));
        k = k + 1;
    }
}

fn render_functions(program: &Program, ctx: &TypeContext, out: &mut String)
    ensures
        final(out)@ == old(out)@ + functions_text(
            program,
            program.functions@.len(),
            ctx.borrowed_structs@,
            ctx.borrowed_enums@,
        ),
{
    let ghost bs = ctx.borrowed_structs@;
    let ghost be = ctx.borrowed_enums@;
    let ghost start = out@;
    let mut f: usize = 0;
    while f < program.functions.len()
        invariant
            f <= program.functions@.len(),
            bs == ctx.borrowed_structs@,
            be == ctx.borrowed_enums@,
            out@ == start + functions_text(program, f as nat, bs, be),
        decreases program.functions@.len() - f,
    {
        render_function(&program.functions[f], program, ctx, out);
        out.append("\n");
        assert(out@ =~= start + functions_text(program, (f + 1) as nat, bs, be));
        f = f + 1;
    }
}

/// Renders a lowered program as one Rust source file: the runtime helpers,
/// then the enums, structs and functions, then `main` with the top-level
/// statements.
pub fn render_rust(program: &Program) -> (s: String)
    ensures
        s@ == with_prelude(Seq::empty()) + program_text(program) + "}\n"@,
{
    let ctx = type_context_new(program);
    let mut out = String::new();
    push_prelude(&mut out);
    let mut body = String::new();
    render_enums(program, &ctx, &mut body);
    render_structs(program, &ctx, &mut body);
    render_functions(program, &ctx, &mut body);
    body.append("fn main() {\n");
    render_block(&program.stmts, &ctx, &mut body, 1);
    assert(body@ =~= program_text(program));
    out.append(body.as_str());
    out.append("}\n");
    out
}

} // verus!
