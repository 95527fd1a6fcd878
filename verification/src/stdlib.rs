//! The synthetic standard library: modules imported as `std/<module>.ax`,
//! whose sources live in a table rather than on disk. Each module wraps one
//! host intrinsic, so the capability rules of the importing package still
//! decide whether a call is allowed.
use vstd::prelude::*;
use crate::manifest::join_path;

verus! {

/// The path component that stands for the synthetic stdlib package root.
pub const STDLIB_ROOT: &'static str = "<stdlib>";

/// The first import path component that selects the stdlib.
pub const STDLIB_IMPORT_PREFIX: &'static str = "std";

/// The name of the stdlib's synthetic package.
pub const STDLIB_PACKAGE_NAME: &'static str = "std";

/// The version of the stdlib's synthetic package.
pub const STDLIB_PACKAGE_VERSION: &'static str = "0.0.0";

/// The stdlib modules, by their path under the import prefix, with their sources.
pub open spec fn stdlib_table() -> Seq<(Seq<char>, Seq<char>)> {
    seq![
        ("time.ax"@, "pub fn now_ms(): int {\nreturn clock_now_ms()\n}\n"@),
        ("env.ax"@, "pub fn get_env(key: string): Option<string> {\nreturn env_get(key)\n}\n"@),
        ("fs.ax"@, "pub fn read_file(path: string): Option<string> {\nreturn fs_read(path)\n}\n"@),
        ("net.ax"@, "pub fn resolve(host: string): Option<string> {\nreturn net_resolve(host)\n}\n"@),
        ("process.ax"@, "pub fn run_status(command: string): int {\nreturn process_status(command)\n}\n"@),
        ("crypto_hash.ax"@, "pub fn sha256(input: string): string {\nreturn crypto_sha256(input)\n}\n"@),
        ("io.ax"@, "pub fn eprintln(text: string): int {\nreturn io_eprintln(text)\n}\n"@),
        ("http.ax"@, "pub fn get(url: string): Option<string> {\nreturn http_get(url)\n}\n"@),
    ]
}

/// The stdlib modules with their sources, in the order of `stdlib_table`.
pub fn stdlib_sources() -> (v: Vec<(&'static str, &'static str)>)
    ensures
        v@.len() == stdlib_table().len(),
        forall|i: int|
            0 <= i < v@.len() ==> (#[trigger] v@[i]).0@ == stdlib_table()[i].0 && v@[i].1@
                == stdlib_table()[i].1,
{
    let v = vec![
        ("time.ax", "pub fn now_ms(): int {\nreturn clock_now_ms()\n}\n"),
        ("env.ax", "pub fn get_env(key: string): Option<string> {\nreturn env_get(key)\n}\n"),
        ("fs.ax", "pub fn read_file(path: string): Option<string> {\nreturn fs_read(path)\n}\n"),
        ("net.ax", "pub fn resolve(host: string): Option<string> {\nreturn net_resolve(host)\n}\n"),
        ("process.ax", "pub fn run_status(command: string): int {\nreturn process_status(command)\n}\n"),
        ("crypto_hash.ax", "pub fn sha256(input: string): string {\nreturn crypto_sha256(input)\n}\n"),
        ("io.ax", "pub fn eprintln(text: string): int {\nreturn io_eprintln(text)\n}\n"),
        ("http.ax", "pub fn get(url: string): Option<string> {\nreturn http_get(url)\n}\n"),
    ];
    v
}

/// The synthetic root of the stdlib package.
pub fn stdlib_root() -> (s: String)
    ensures
        s@ == STDLIB_ROOT@,
{
    String::from_str(STDLIB_ROOT)
}

fn str_eq(a: &str, b: &str) -> (r: bool)
    ensures
        r == (a@ == b@),
{
    let x = String::from_str(a);
    let y = String::from_str(b);
    x == y
}

/// Whether `path` lies in the stdlib package: it is the stdlib root or a
/// path below it.
pub fn is_stdlib_path(path: &str) -> (b: bool)
    ensures
        b == (path@ == STDLIB_ROOT@ || (STDLIB_ROOT@ + "/"@).is_prefix_of(path@)),
{
    let root = String::from_str(STDLIB_ROOT).concat("/");
    let p = crate::text::chars_of(path);
    let r = crate::text::chars_of(root.as_str());
    let prefix = crate::text::range_starts_with(&p, 0, p.len(), &r);
    proof {
        assert(p@.subrange(0, p@.len() as int) == p@);
    }
    str_eq(path, STDLIB_ROOT) || prefix
}

/// The path of a stdlib module below the stdlib root, as `"<stdlib>/time.ax"`.
pub fn stdlib_source_path(module_relative: &str) -> (p: String)
    ensures
        p@ == crate::manifest::joined(STDLIB_ROOT@, module_relative@),
{
    join_path(STDLIB_ROOT, module_relative)
}

/// The position of a module in the stdlib table.
fn module_index(key: &str) -> (r: Option<usize>)
    ensures
        r matches Some(i) ==> i < stdlib_table().len() && stdlib_table()[i as int].0 == key@,
        r is None ==> forall|i: int| 0 <= i < stdlib_table().len() ==> stdlib_table()[i].0 != key@,
{
    let table = stdlib_sources();
    let mut i: usize = 0;
    while i < table.len()
        invariant
            i <= table@.len(),
            table@.len() == stdlib_table().len(),
            forall|j: int|
                0 <= j < table@.len() ==> (#[trigger] table@[j]).0@ == stdlib_table()[j].0
                    && table@[j].1@ == stdlib_table()[j].1,
            forall|j: int| 0 <= j < i ==> stdlib_table()[j].0 != key@,
        decreases table@.len() - i,
    {
        if str_eq(table[i].0, key) {
            return Some(i);
        }
        i = i + 1;
    }
    None
}

/// Whether the stdlib has a module at `import_remainder`, the part of an
/// import path after `std/`.
pub fn stdlib_has_module(import_remainder: &str) -> (b: bool)
    ensures
        b == exists|i: int| 0 <= i < stdlib_table().len() && stdlib_table()[i].0 == import_remainder@,
{
    match module_index(import_remainder) {
        Some(i) => {
            assert(stdlib_table()[i as int].0 == import_remainder@);
            true
        },
        None => false,
    }
}

/// The source of the stdlib module at the virtual path `path`, if there is one.
pub fn stdlib_source_for(path: &str) -> (r: Option<&'static str>)
    ensures
        r matches Some(src) ==> exists|i: int|
            0 <= i < stdlib_table().len() && path@ == STDLIB_ROOT@ + "/"@ + stdlib_table()[i].0
                && src@ == stdlib_table()[i].1,
        r is None ==> forall|i: int|
            0 <= i < stdlib_table().len() ==> path@ != STDLIB_ROOT@ + "/"@ + (
            #[trigger] stdlib_table()[i]).0,
{
    let p = crate::text::chars_of(path);
    let root = String::from_str(STDLIB_ROOT).concat("/");
    let r = crate::text::chars_of(root.as_str());
    if !crate::text::range_starts_with(&p, 0, p.len(), &r) {
        proof {
            assert forall|i: int| 0 <= i < stdlib_table().len() implies path@ != STDLIB_ROOT@ + "/"@ + (
            #[trigger] stdlib_table()[i]).0 by {
                let w = STDLIB_ROOT@ + "/"@ + stdlib_table()[i].0;
                if path@ == w {
                    assert(w.subrange(0, r@.len() as int) =~= r@);
                }
            }
        }
        return None;
    }
    let key = crate::text::string_from(&p, r.len(), p.len());
    proof {
        assert forall|i: int| 0 <= i < stdlib_table().len() && path@ == STDLIB_ROOT@ + "/"@ + (
        #[trigger] stdlib_table()[i]).0 implies stdlib_table()[i].0 == key@ by {
            let w = STDLIB_ROOT@ + "/"@ + stdlib_table()[i].0;
            assert(w.subrange(r@.len() as int, w.len() as int) =~= stdlib_table()[i].0);
        }
    }
    match module_index(key.as_str()) {
        Some(i) => {
            let table = stdlib_sources();
            proof {
                assert(p@.subrange(0, p@.len() as int) == p@);
                assert(p@ == p@.subrange(0, r@.len() as int) + p@.subrange(r@.len() as int, p@.len() as int));
            }
            Some(table[i].1)
        },
        None => None,
    }
}

} // verus!
