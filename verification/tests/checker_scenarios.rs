use axiomc::analysis::analyze_modules;
use axiomc::diagnostics::Diagnostic;
use axiomc::loader::ModuleLoader;
use axiomc::manifest::CapabilityConfig;
use axiomc::modules::LoadedModule;
use axiomc::paths::{resolve_import_target, DependencyRoots, ImportTarget};
use axiomc::stdlib::{is_stdlib_path, stdlib_root, stdlib_source_for, STDLIB_PACKAGE_NAME};
use axiomc::syntax::parse_program;

const PACKAGE_ROOT: &str = "/work/app";
const SOURCE_ROOT: &str = "/work/app/src";

fn all_capabilities() -> CapabilityConfig {
    CapabilityConfig { fs: true, net: true, process: true, env: true, clock: true, crypto: true }
}

struct Loading<'a> {
    files: &'a [(&'a str, &'a str)],
    loader: ModuleLoader,
    caps: Vec<CapabilityConfig>,
    package_caps: CapabilityConfig,
}

impl<'a> Loading<'a> {
    fn source(&self, path: &str) -> Result<String, Diagnostic> {
        if is_stdlib_path(path) {
            return stdlib_source_for(path)
                .map(str::to_string)
                .ok_or_else(|| Diagnostic::new("source", format!("internal error: missing stdlib source for {path}")));
        }
        self.files
            .iter()
            .find(|(name, _)| format!("{PACKAGE_ROOT}/{name}") == path)
            .map(|(_, text)| text.to_string())
            .ok_or_else(|| Diagnostic::new("source", format!("failed to read {path}")))
    }

    fn has_file(&self, path: &str) -> bool {
        self.files.iter().any(|(name, _)| format!("{PACKAGE_ROOT}/{name}") == path)
    }

    fn load(&mut self, path: String, is_entry: bool) -> Result<(), Diagnostic> {
        if !self.loader.begin(&path)? {
            return Ok(());
        }
        let source = self.source(&path)?;
        let program = parse_program(&source, &path)?;
        self.loader.enter(path.clone(), &program, is_entry)?;
        let stdlib = is_stdlib_path(&path);
        let (package_root, source_root) = if stdlib {
            (stdlib_root(), stdlib_root())
        } else {
            (PACKAGE_ROOT.to_string(), SOURCE_ROOT.to_string())
        };
        let mut import_paths = Vec::new();
        for import in &program.imports {
            let target = resolve_import_target(&package_root, &source_root, &path, &Vec::<DependencyRoots>::new(), import)?;
            let next = match target {
                ImportTarget::Stdlib { path } => path,
                ImportTarget::Dependency { path, .. } | ImportTarget::Local { path, .. } => {
                    if !self.has_file(&path) {
                        return Err(Diagnostic::new("import", format!("missing import {path}")));
                    }
                    path
                }
            };
            self.load(next.clone(), false)?;
            import_paths.push(next);
        }
        self.caps.push(if stdlib { all_capabilities() } else { self.package_caps });
        self.loader.finish(LoadedModule {
            path,
            program,
            is_entry,
            package_root,
            source_root,
            package_name: if stdlib { STDLIB_PACKAGE_NAME.to_string() } else { "app".to_string() },
            import_paths,
        });
        Ok(())
    }
}

/// Loads `src/main.ax` of a package made of `files` and checks it, the way a
/// package with every capability off is checked; gives the statement count.
fn check_files(files: &[(&str, &str)]) -> Result<usize, Diagnostic> {
    check_files_with(files, CapabilityConfig::default())
}

fn load_package(files: &[(&str, &str)], package_caps: CapabilityConfig) -> Result<(Vec<LoadedModule>, Vec<CapabilityConfig>), Diagnostic> {
    let mut loading = Loading { files, loader: ModuleLoader::new(), caps: Vec::new(), package_caps };
    loading.load(format!("{SOURCE_ROOT}/main.ax"), true)?;
    let Loading { loader, caps, .. } = loading;
    Ok((loader.into_modules(), caps))
}

fn load_modules(files: &[(&str, &str)]) -> Result<Vec<LoadedModule>, Diagnostic> {
    load_package(files, CapabilityConfig::default()).map(|(modules, _)| modules)
}

fn check_files_with(files: &[(&str, &str)], package_caps: CapabilityConfig) -> Result<usize, Diagnostic> {
    let (modules, caps) = load_package(files, package_caps)?;
    let program = analyze_modules(&modules, &caps, &package_caps)?;
    Ok(program.statement_count())
}

#[test]
fn check_project_rejects_clock_intrinsic_without_capability() {
    let error = check_files(&[
        ("src/main.ax", "print clock_now_ms()\n"),
    ]).expect_err("clock capability should be required");
    assert_eq!(error.kind, "capability");
    assert!(
        error
            .message
            .contains("requires [capabilities].clock = true")
    );
}

#[test]
fn check_project_rejects_env_intrinsic_without_capability() {
    let error = check_files(&[
        ("src/main.ax", "let value: Option<string> = env_get(\"PATH\")\nprint \"never\"\n"),
    ]).expect_err("env capability should be required");
    assert_eq!(error.kind, "capability");
    assert!(error.message.contains("requires [capabilities].env = true"));
}

#[test]
fn check_project_rejects_fs_intrinsic_without_capability() {
    let error = check_files(&[
        ("src/main.ax", "match fs_read(\"missing.txt\") {\nSome(value) {\nprint value\n}\nNone {\nprint \"none\"\n}\n}\n"),
    ]).expect_err("fs capability should be required");
    assert_eq!(error.kind, "capability");
    assert!(error.message.contains("requires [capabilities].fs = true"));
}

#[test]
fn check_project_rejects_net_intrinsic_without_capability() {
    let error = check_files(&[
        ("src/main.ax", "match net_resolve(\"localhost\") {\nSome(address) {\nprint address\n}\nNone {\nprint \"none\"\n}\n}\n"),
    ]).expect_err("net capability should be required");
    assert_eq!(error.kind, "capability");
    assert!(error.message.contains("requires [capabilities].net = true"));
}

#[test]
fn check_project_rejects_process_intrinsic_without_capability() {
    let error = check_files(&[
        ("src/main.ax", "print process_status(\"fixture\")\n"),
    ]).expect_err("process capability should be required");
    assert_eq!(error.kind, "capability");
    assert!(
        error
            .message
            .contains("requires [capabilities].process = true")
    );
}

#[test]
fn check_project_rejects_crypto_intrinsic_without_capability() {
    let error = check_files(&[
        ("src/main.ax", "print crypto_sha256(\"abc\")\n"),
    ]).expect_err("crypto capability should be required");
    assert_eq!(error.kind, "capability");
    assert!(
        error
            .message
            .contains("requires [capabilities].crypto = true")
    );
}

#[test]
fn stage1_project_rejects_stdlib_time_without_clock_capability() {
    let err = check_files(&[
        ("src/main.ax", "import \"std/time.ax\"\nlet now: int = now_ms()\nprint now > 0\n"),
    ]).expect_err("expected capability denial");
    assert!(
        err.message
            .contains("requires [capabilities].clock = true"),
        "unexpected diagnostic: {err:?}",
    );
}

#[test]
fn stage1_project_rejects_stdlib_env_without_env_capability() {
    let err = check_files(&[
        ("src/main.ax", "import \"std/env.ax\"\nmatch get_env(\"X\") {\nSome(v) {\nprint v\n}\nNone {\nprint \"none\"\n}\n}\n"),
    ]).expect_err("expected capability denial");
    assert!(
        err.message.contains("requires [capabilities].env = true"),
        "unexpected diagnostic: {err:?}",
    );
}

#[test]
fn stage1_project_rejects_stdlib_fs_without_fs_capability() {
    let err = check_files(&[
        ("src/main.ax", "import \"std/fs.ax\"\nmatch read_file(\"x\") {\nSome(v) {\nprint v\n}\nNone {\nprint \"missing\"\n}\n}\n"),
    ]).expect_err("expected capability denial");
    assert!(
        err.message.contains("requires [capabilities].fs = true"),
        "unexpected diagnostic: {err:?}",
    );
}

#[test]
fn stage1_project_rejects_unknown_stdlib_module() {
    let err = check_files(&[
        ("src/main.ax", "import \"std/bogus.ax\"\nprint 1\n"),
    ]).expect_err("expected unknown stdlib module error");
    assert!(
        err.message.contains("unknown stdlib module"),
        "unexpected diagnostic: {err:?}",
    );
}

#[test]
fn check_project_rejects_use_after_string_move() {
    let error = check_files(&[
        ("src/main.ax", "let greeting: string = \"hello\"\nlet alias: string = greeting\nprint alias\nprint greeting\n"),
    ]).expect_err("use after move should fail");
    assert!(error.message.contains("use of moved value"));
    assert_eq!(error.kind, "ownership");
}

#[test]
fn check_project_rejects_branch_move_followed_by_outer_use() {
    let error = check_files(&[
        ("src/main.ax", "let greeting: string = \"hello\"\nlet ready: bool = true\nif ready {\nlet alias: string = greeting\nprint alias\n} else {\nprint \"skip\"\n}\nprint greeting\n"),
    ]).expect_err("conditional move should fail");
    assert!(error.message.contains("use of moved value"));
    assert_eq!(error.kind, "ownership");
}

#[test]
fn check_project_allows_copy_reuse_after_binding() {
    let output = check_files(&[
        ("src/main.ax", "let count: int = 21\nlet duplicate: int = count\nprint count + duplicate\n"),
    ]).expect("copy values should be reusable");
    assert_eq!(output, 3);
}

#[test]
fn check_project_rejects_type_mismatch() {
    let error = check_files(&[
        ("src/main.ax", "let count: int = \"nope\"\n"),
    ]).expect_err("type mismatch should fail");
    assert!(error.message.contains("expects int, got string"));
    assert_eq!(error.kind, "type");
}

#[test]
fn check_project_rejects_non_bool_if_condition() {
    let error = check_files(&[
        ("src/main.ax", "let answer: int = 42\nif answer {\nprint answer\n}\n"),
    ]).expect_err("if condition should require bool");
    assert!(error.message.contains("if condition expects bool, got int"));
    assert_eq!(error.kind, "type");
}

#[test]
fn check_project_rejects_none_without_expected_option_context() {
    let error = check_files(&[
        ("src/main.ax", "print None\n"),
    ]).expect_err("None should require an expected type");
    assert!(
        error
            .message
            .contains("None requires an expected Option<T> context")
    );
    assert_eq!(error.kind, "type");
}

#[test]
fn check_project_rejects_ok_without_expected_result_context() {
    let error = check_files(&[
        ("src/main.ax", "print Ok(7)\n"),
    ]).expect_err("Ok should require an expected type");
    assert!(
        error
            .message
            .contains("Ok requires an expected Result<T, E> context")
    );
    assert_eq!(error.kind, "type");
}

#[test]
fn check_project_rejects_option_payload_type_mismatch() {
    let error = check_files(&[
        ("src/main.ax", "let value: Option<int> = Some(\"nope\")\n"),
    ]).expect_err("option payload mismatch should fail");
    assert!(
        error
            .message
            .contains("Option::Some expects payload type int, got string")
    );
    assert_eq!(error.kind, "type");
}

#[test]
fn check_project_rejects_result_payload_type_mismatch() {
    let error = check_files(&[
        ("src/main.ax", "let value: Result<int, string> = Err(7)\n"),
    ]).expect_err("result payload mismatch should fail");
    assert!(
        error
            .message
            .contains("Result::Err expects payload type string, got int")
    );
    assert_eq!(error.kind, "type");
}

#[test]
fn check_project_rejects_non_exhaustive_option_match() {
    let error = check_files(&[
        ("src/main.ax", "fn unwrap(value: Option<int>): int {\nmatch value {\nSome(count) {\nreturn count\n}\n}\n}\n\nprint 0\n"),
    ]).expect_err("non-exhaustive option match should fail");
    assert!(error.message.contains("not exhaustive"));
    assert!(error.message.contains("None"));
    assert_eq!(error.kind, "type");
}

#[test]
fn check_project_rejects_return_outside_function() {
    let error = check_files(&[
        ("src/main.ax", "return 42\n"),
    ]).expect_err("top-level return should fail");
    assert!(
        error
            .message
            .contains("return is only valid inside a function")
    );
    assert_eq!(error.kind, "control");
}

#[test]
fn check_project_rejects_undefined_function_call() {
    let error = check_files(&[
        ("src/main.ax", "let answer: int = lucky(40)\nprint answer\n"),
    ]).expect_err("missing function should fail");
    assert!(error.message.contains("undefined function"));
    assert_eq!(error.kind, "type");
}

#[test]
fn check_project_rejects_wrong_function_arity() {
    let error = check_files(&[
        ("src/main.ax", "fn lucky(base: int): int {\nreturn base + 2\n}\n\nlet answer: int = lucky()\nprint answer\n"),
    ]).expect_err("wrong arity should fail");
    assert!(error.message.contains("expects 1 arguments, got 0"));
    assert_eq!(error.kind, "type");
}

#[test]
fn check_project_rejects_function_return_mismatch() {
    let error = check_files(&[
        ("src/main.ax", "fn bad(): int {\nreturn \"nope\"\n}\n\nprint \"skip\"\n"),
    ]).expect_err("return mismatch should fail");
    assert!(error.message.contains("return expects int, got string"));
    assert_eq!(error.kind, "type");
}

#[test]
fn check_project_rejects_missing_function_return() {
    let error = check_files(&[
        ("src/main.ax", "fn maybe(value: bool): int {\nif value {\nreturn 1\n}\n}\n\nprint \"skip\"\n"),
    ]).expect_err("missing return should fail");
    assert!(error.message.contains("does not return along all paths"));
    assert_eq!(error.kind, "control");
}

#[test]
fn check_project_rejects_missing_import() {
    let error = check_files(&[
        ("src/main.ax", "import \"nope.ax\"\nprint \"skip\"\n"),
    ]).expect_err("missing import should fail");
    assert!(error.message.contains("missing import"));
    assert_eq!(error.kind, "import");
}

#[test]
fn check_project_rejects_import_aliases_explicitly() {
    let error = check_files(&[
        ("src/main.ax", "import \"math.ax\" as math\nprint \"skip\"\n"),
        ("src/math.ax", "pub fn answer(): int {\nreturn 42\n}\n"),
    ]).expect_err("import aliases should fail");
    assert_eq!(error.kind, "parse");
    assert!(error.message.contains("does not support import aliases"));
}

#[test]
fn check_project_rejects_re_exports_explicitly() {
    let error = check_files(&[
        ("src/main.ax", "pub use \"math.ax\"\nprint \"skip\"\n"),
    ]).expect_err("re-exports should fail");
    assert_eq!(error.kind, "parse");
    assert!(error.message.contains("does not support re-exports"));
}

#[test]
fn check_project_rejects_namespace_qualified_calls_explicitly() {
    let error = check_files(&[
        ("src/main.ax", "print math.answer()\n"),
    ]).expect_err("qualified calls should fail");
    assert_eq!(error.kind, "parse");
    assert!(error.message.contains("namespace-qualified calls"));
}

#[test]
fn check_project_rejects_private_import_call() {
    let error = check_files(&[
        ("src/main.ax", "import \"greetings.ax\"\nprint prefix()\n"),
        ("src/greetings.ax", "pub fn banner(name: string): string {\nreturn prefix() + name\n}\n\nfn prefix(): string {\nreturn \"hello \"\n}\n"),
    ]).expect_err("private import should fail");
    assert!(error.message.contains("is not exported"));
    assert_eq!(error.kind, "import");
}

#[test]
fn check_project_rejects_imported_top_level_statements() {
    let error = check_files(&[
        ("src/main.ax", "import \"greetings.ax\"\nprint banner(\"x\")\n"),
        ("src/greetings.ax", "print \"nope\"\n"),
    ]).expect_err("module top-level statements should fail");
    assert!(
        error.message.contains(
            "may only contain imports, struct declarations, enum declarations, and function declarations"
        )
    );
    assert_eq!(error.kind, "import");
}

#[test]
fn check_project_rejects_circular_imports() {
    let error = check_files(&[
        ("src/main.ax", "import \"a.ax\"\nprint \"skip\"\n"),
        ("src/a.ax", "import \"b.ax\"\npub fn call_a(): int {\nreturn call_b()\n}\n"),
        ("src/b.ax", "import \"a.ax\"\npub fn call_b(): int {\nreturn call_a()\n}\n"),
    ]).expect_err("circular imports should fail");
    assert!(error.message.contains("circular import"));
    assert_eq!(error.kind, "import");
}

#[test]
fn check_project_rejects_missing_struct_field() {
    let error = check_files(&[
        ("src/main.ax", "struct BuildInfo {\nlabel: string\ncount: int\n}\n\nlet info: BuildInfo = BuildInfo { label: \"x\" }\nprint info.count\n"),
    ]).expect_err("missing field should fail");
    assert!(error.message.contains("is missing field"));
    assert_eq!(error.kind, "type");
}

#[test]
fn check_project_rejects_field_access_on_non_struct() {
    let error = check_files(&[
        ("src/main.ax", "let answer: int = 42\nprint answer.count\n"),
    ]).expect_err("field access should fail");
    assert!(
        error
            .message
            .contains("field access expects a struct value")
    );
    assert_eq!(error.kind, "type");
}

#[test]
fn check_project_rejects_mixed_array_literal_types() {
    let error = check_files(&[
        ("src/main.ax", "let values: [int] = [1, true]\n"),
    ]).expect_err("array literal should require matching types");
    assert!(
        error
            .message
            .contains("array literal expects matching element types")
    );
    assert_eq!(error.kind, "type");
}

#[test]
fn check_project_rejects_array_index_on_non_array() {
    let error = check_files(&[
        ("src/main.ax", "let answer: int = 42\nprint answer[0]\n"),
    ]).expect_err("array index should require array");
    assert!(
        error
            .message
            .contains("index expects an array or map value")
    );
    assert_eq!(error.kind, "type");
}

#[test]
fn check_project_rejects_non_int_array_index() {
    let error = check_files(&[
        ("src/main.ax", "let values: [int] = [1, 2]\nprint values[true]\n"),
    ]).expect_err("array index should require int");
    assert!(error.message.contains("array index expects int"));
    assert_eq!(error.kind, "type");
}

#[test]
fn check_project_rejects_array_slice_on_non_array() {
    let error = check_files(&[
        ("src/main.ax", "let value: int = 42\nprint value[1:2]\n"),
    ]).expect_err("slicing non-array should fail");
    assert!(
        error
            .message
            .contains("slice expects an array or slice value, got int")
    );
    assert_eq!(error.kind, "type");
}

#[test]
fn check_project_rejects_non_int_array_slice_bound() {
    let error = check_files(&[
        ("src/main.ax", "let values: [int] = [1, 2, 3]\nprint values[true:2][0]\n"),
    ]).expect_err("slice bound should require int");
    assert!(
        error
            .message
            .contains("array slice start expects int, got bool")
    );
    assert_eq!(error.kind, "type");
}

#[test]
fn check_project_rejects_non_copy_slice_index() {
    let error = check_files(&[
        ("src/main.ax", "let values: [string] = [\"a\", \"b\", \"c\"]\nlet tail: &[string] = values[1:]\nprint tail[0]\n"),
    ]).expect_err("non-copy slice indexing should fail");
    assert!(
        error
            .message
            .contains("borrowed slice indexing requires a Copy element type")
    );
    assert_eq!(error.kind, "type");
}

#[test]
fn check_project_rejects_slice_return_without_borrowed_param() {
    let error = check_files(&[
        ("src/main.ax", "fn tail(values: [int]): &[int] {\nreturn values[1:]\n}\n\nprint 0\n"),
    ]).expect_err("slice returns should require a borrowed param");
    assert!(
        error
            .message
            .contains("borrowed return functions must take at least one borrowed parameter")
    );
    assert_eq!(error.kind, "type");
}

#[test]
fn check_project_rejects_slice_return_from_local_value() {
    let error = check_files(&[
        ("src/main.ax", "fn tail(values: &[int]): &[int] {\nlet local: [int] = [7, 9, 11]\nreturn local[1:]\n}\n\nprint 0\n"),
    ]).expect_err("local slice return should fail");
    assert!(error.message.contains(
        "returning borrowed values requires data derived from one of the borrowed parameters"
    ));
    assert_eq!(error.kind, "ownership");
}

#[test]
fn check_project_rejects_wrapped_borrow_return_from_local_value() {
    let error = check_files(&[
        ("src/main.ax", "fn wrap(values: &[int]): Option<&[int]> {\nlet local: [int] = [7, 9, 11]\nreturn Some(local[1:])\n}\n\nprint 0\n"),
    ]).expect_err("local wrapped borrow return should fail");
    assert!(error.message.contains(
        "returning borrowed values requires data derived from one of the borrowed parameters"
    ));
    assert_eq!(error.kind, "ownership");
}

#[test]
fn check_project_rejects_wrapped_borrow_return_without_borrowed_params() {
    let error = check_files(&[
        ("src/main.ax", "fn choose(values: [int]): Option<&[int]> {\nreturn Some(values[1:])\n}\n\nprint 0\n"),
    ])
        .expect_err("borrowed returns should still require at least one borrowed param");
    assert!(
        error
            .message
            .contains("borrowed return functions must take at least one borrowed parameter")
    );
    assert_eq!(error.kind, "type");
}

#[test]
fn check_project_rejects_moving_owner_inside_match_while_temporary_borrow_is_live() {
    let error = check_files(&[
        ("src/main.ax", "let values: [string] = [\"alpha\", \"beta\"]\nmatch Some(values[:]) {\nSome(window) {\nprint len(window)\nprint first(values)\n}\nNone {\nprint 0\n}\n}\n"),
    ])
        .expect_err("temporary match borrow should block owner move inside the arm");
    assert!(error.message.contains("cannot move"));
    assert_eq!(error.kind, "ownership");
}

#[test]
fn check_project_rejects_moving_owner_in_later_call_arg_after_temporary_borrow_arg() {
    let error = check_files(&[
        ("src/main.ax", "fn consume(view: Option<&[string]>, values: [string]): string {\nreturn first(values)\n}\n\nlet values: [string] = [\"alpha\", \"beta\"]\nprint consume(Some(values[:]), values)\n"),
    ])
        .expect_err("temporary borrow in an earlier call argument should block moving the owner later in the call");
    assert!(error.message.contains("cannot move"));
    assert_eq!(error.kind, "ownership");
}

#[test]
fn check_project_rejects_borrowing_owner_in_later_call_arg_after_move_arg() {
    let error = check_files(&[
        ("src/main.ax", "fn consume(values: [string], view: Option<&[string]>): string {\nreturn first(values)\n}\n\nlet values: [string] = [\"alpha\", \"beta\"]\nprint consume(values, Some(values[:]))\n"),
    ]).expect_err(
        "moving the owner first should still reject borrowing it later in the call",
    );
    assert!(error.message.contains("use of moved value"));
    assert_eq!(error.kind, "ownership");
}

#[test]
fn check_project_rejects_moving_owner_inside_while_while_local_borrow_is_live() {
    let error = check_files(&[
        ("src/main.ax", "let values: [string] = [\"alpha\", \"beta\"]\nwhile true {\nlet view: &[string] = values[:]\nprint len(view)\nprint first(values)\n}\n"),
    ])
        .expect_err("loop-local borrow should block owner move inside the loop body");
    assert!(error.message.contains("cannot move"));
    assert_eq!(error.kind, "ownership");
}

#[test]
fn check_project_rejects_first_on_non_copy_slice() {
    let error = check_files(&[
        ("src/main.ax", "let values: [string] = [\"a\", \"b\", \"c\"]\nlet tail: &[string] = values[1:]\nprint first(tail)\n"),
    ]).expect_err("first on non-copy slice should fail");
    assert!(
        error
            .message
            .contains("first requires a Copy element type when called on a borrowed slice")
    );
    assert_eq!(error.kind, "type");
}

#[test]
fn check_project_rejects_moving_owned_array_while_slice_borrow_is_live() {
    let error = check_files(&[
        ("src/main.ax", "let values: [string] = [\"alpha\", \"beta\"]\nlet view: &[string] = values[:]\nprint len(view)\nprint first(values)\n"),
    ]).expect_err("moving a borrowed owner should fail");
    assert!(
        error
            .message
            .contains("cannot move value \"values\" while borrowed slices are still live")
    );
    assert_eq!(error.kind, "ownership");
}

#[test]
fn check_project_rejects_moving_owner_while_tuple_wrapped_slice_is_live() {
    let error = check_files(&[
        ("src/main.ax", "let values: [string] = [\"alpha\", \"beta\"]\nlet wrapped: (&[string], int) = (values[:], 1)\nprint len(wrapped.0)\nprint first(values)\n"),
    ]).expect_err("tuple-wrapped borrow should block owner move");
    assert!(
        error
            .message
            .contains("cannot move value \"values\" while borrowed slices are still live")
    );
    assert_eq!(error.kind, "ownership");
}

#[test]
fn check_project_rejects_moving_owner_while_option_wrapped_slice_is_live() {
    let error = check_files(&[
        ("src/main.ax", "let values: [string] = [\"alpha\", \"beta\"]\nlet wrapped: Option<&[string]> = Some(values[:])\nmatch wrapped {\nSome(view) {\nprint len(view)\n}\nNone {\nprint 0\n}\n}\nprint first(values)\n"),
    ]).expect_err("option-wrapped borrow should block owner move");
    assert!(
        error
            .message
            .contains("cannot move value \"values\" while borrowed slices are still live")
    );
    assert_eq!(error.kind, "ownership");
}

#[test]
fn check_project_rejects_moving_owner_while_struct_wrapped_slice_is_live() {
    let error = check_files(&[
        ("src/main.ax", "struct Window {\nview: &[string]\n}\n\nlet values: [string] = [\"alpha\", \"beta\"]\nlet window: Window = Window { view: values[:] }\nprint len(window.view)\nprint first(values)\n"),
    ]).expect_err("struct-wrapped borrow should block owner move");
    assert!(
        error
            .message
            .contains("cannot move value \"values\" while borrowed slices are still live")
    );
    assert_eq!(error.kind, "ownership");
}

#[test]
fn check_project_rejects_moving_owner_while_enum_wrapped_slice_is_live() {
    let error = check_files(&[
        ("src/main.ax", "enum Snapshot {\nWindow(&[string])\n}\n\nlet values: [string] = [\"alpha\", \"beta\"]\nlet snapshot: Snapshot = Window(values[:])\nmatch snapshot {\nWindow(view) {\nprint len(view)\n}\n}\nprint first(values)\n"),
    ]).expect_err("enum-wrapped borrow should block owner move");
    assert!(
        error
            .message
            .contains("cannot move value \"values\" while borrowed slices are still live")
    );
    assert_eq!(error.kind, "ownership");
}

#[test]
fn check_project_rejects_mixed_map_literal_key_types() {
    let error = check_files(&[
        ("src/main.ax", "let scores: {string: int} = {\"build\": 7, 9: 10}\n"),
    ]).expect_err("map literal should require matching key types");
    assert!(
        error
            .message
            .contains("map literal expects matching key types")
    );
    assert_eq!(error.kind, "type");
}

#[test]
fn check_project_rejects_unsupported_map_key_type() {
    let error = check_files(&[
        ("src/main.ax", "let bad: {[int]: int} = {[1, 2]: 7}\n"),
    ]).expect_err("map type should reject unsupported key type");
    assert!(
        error
            .message
            .contains("map key type [int] is not supported")
    );
    assert_eq!(error.kind, "type");
}

#[test]
fn check_project_rejects_wrong_map_key_type_on_index() {
    let error = check_files(&[
        ("src/main.ax", "let scores: {string: int} = {\"build\": 7}\nprint scores[0]\n"),
    ]).expect_err("map index should require matching key type");
    assert!(
        error
            .message
            .contains("map index expects key type string, got int")
    );
    assert_eq!(error.kind, "type");
}

#[test]
fn check_project_rejects_use_after_non_copy_map_index() {
    let error = check_files(&[
        ("src/main.ax", "let labels: {string: string} = {\"build\": \"green\", \"deploy\": \"ready\"}\nprint labels[\"build\"]\nprint labels[\"deploy\"]\n"),
    ]).expect_err("non-copy map index should consume owner");
    assert!(error.message.contains("use of moved value"));
    assert_eq!(error.kind, "ownership");
}

#[test]
fn check_project_rejects_tuple_index_on_non_tuple() {
    let error = check_files(&[
        ("src/main.ax", "let answer: int = 42\nprint answer.0\n"),
    ]).expect_err("tuple index should require tuple");
    assert!(error.message.contains("tuple index expects a tuple value"));
    assert_eq!(error.kind, "type");
}

#[test]
fn check_project_rejects_out_of_bounds_tuple_index() {
    let error = check_files(&[
        ("src/main.ax", "let pair: (int, string) = (7, \"label\")\nprint pair.2\n"),
    ]).expect_err("tuple index should enforce bounds");
    assert!(error.message.contains("tuple index 2 is out of bounds"));
    assert_eq!(error.kind, "type");
}

#[test]
fn check_project_rejects_use_after_non_copy_tuple_index() {
    let error = check_files(&[
        ("src/main.ax", "let pair: (int, string) = (7, \"label\")\nprint pair.1\nprint pair.0\n"),
    ]).expect_err("non-copy tuple index should consume owner");
    assert!(error.message.contains("use of moved value"));
    assert_eq!(error.kind, "ownership");
}

#[test]
fn check_project_rejects_use_after_non_copy_array_index() {
    let error = check_files(&[
        ("src/main.ax", "let labels: [string] = [\"a\", \"b\"]\nprint labels[0]\nprint labels[1]\n"),
    ]).expect_err("non-copy array index should consume owner");
    assert!(error.message.contains("use of moved value"));
    assert_eq!(error.kind, "ownership");
}

#[test]
fn check_project_rejects_non_exhaustive_match() {
    let error = check_files(&[
        ("src/main.ax", "enum Status {\nReady\nFailed\n}\n\nfn label(status: Status): string {\nmatch status {\nReady {\nreturn \"ready\"\n}\n}\n}\n\nprint \"skip\"\n"),
    ]).expect_err("match should be exhaustive");
    assert!(error.message.contains("not exhaustive"));
    assert_eq!(error.kind, "type");
}

#[test]
fn check_project_rejects_unknown_match_variant() {
    let error = check_files(&[
        ("src/main.ax", "enum Status {\nReady\nFailed\n}\n\nfn label(status: Status): string {\nmatch status {\nUnknown {\nreturn \"nope\"\n}\nReady {\nreturn \"ready\"\n}\nFailed {\nreturn \"failed\"\n}\n}\n}\n\nprint \"skip\"\n"),
    ]).expect_err("match should reject unknown variant");
    assert!(error.message.contains("has no variant"));
    assert_eq!(error.kind, "type");
}

#[test]
fn check_project_rejects_missing_payload_match_binding() {
    let error = check_files(&[
        ("src/main.ax", "enum Message {\nText(string)\nCount(int)\n}\n\nfn render(message: Message): string {\nmatch message {\nText {\nreturn \"text\"\n}\nCount(count) {\nreturn \"count\"\n}\n}\n}\n\nprint \"skip\"\n"),
    ]).expect_err("match should require payload binding");
    assert!(error.message.contains("expects 1 bindings, got 0"));
    assert_eq!(error.kind, "type");
}

#[test]
fn check_project_rejects_multi_payload_match_binding_count() {
    let error = check_files(&[
        ("src/main.ax", "enum Message {\nPair(int, string)\nText(string)\n}\n\nfn render(message: Message): string {\nmatch message {\nPair(label) {\nreturn label\n}\nText(text) {\nreturn text\n}\n}\n}\n\nprint \"skip\"\n"),
    ]).expect_err("match should enforce payload binding count");
    assert!(error.message.contains("expects 2 bindings, got 1"));
    assert_eq!(error.kind, "type");
}

#[test]
fn check_project_rejects_payload_constructor_type_mismatch() {
    let error = check_files(&[
        ("src/main.ax", "enum Message {\nText(string)\nCount(int)\n}\n\nlet message: Message = Text(42)\nprint \"skip\"\n"),
    ]).expect_err("payload constructor should typecheck");
    assert!(error.message.contains("expects payload type string"));
    assert_eq!(error.kind, "type");
}

#[test]
fn check_project_rejects_named_payload_constructor_with_positional_args() {
    let error = check_files(&[
        ("src/main.ax", "enum Message {\nJob { id: int, label: string }\n}\n\nlet message: Message = Job(7, \"x\")\nprint \"skip\"\n"),
    ])
        .expect_err("named payload variant should reject positional args");
    assert!(error.message.contains("requires named payload fields"));
    assert_eq!(error.kind, "type");
}

#[test]
fn check_project_rejects_named_payload_constructor_missing_field() {
    let error = check_files(&[
        ("src/main.ax", "enum Message {\nJob { id: int, label: string }\n}\n\nlet message: Message = Job { id: 7 }\nprint \"skip\"\n"),
    ]).expect_err("named payload variant should require all fields");
    assert!(error.message.contains("is missing named payload"));
    assert_eq!(error.kind, "type");
}

#[test]
fn check_project_rejects_multi_payload_constructor_arity() {
    let error = check_files(&[
        ("src/main.ax", "enum Message {\nPair(int, string)\nText(string)\n}\n\nlet message: Message = Pair(7)\nprint \"skip\"\n"),
    ]).expect_err("payload constructor should enforce arity");
    assert!(error.message.contains("expects 2 arguments, got 1"));
    assert_eq!(error.kind, "type");
}

#[test]
fn check_project_rejects_named_payload_match_with_positional_bindings() {
    let error = check_files(&[
        ("src/main.ax", "enum Message {\nJob { id: int, label: string }\n}\n\nfn render(message: Message): string {\nmatch message {\nJob(id, label) {\nreturn label\n}\n}\n}\n\nprint \"skip\"\n"),
    ]).expect_err("named payload match should require named bindings");
    assert!(error.message.contains("must use named bindings"));
    assert_eq!(error.kind, "type");
}
#[test]
fn checker_accepts_program() {
    check_files(&[
        ("src/main.ax", "fn banner(name: string): string {\nreturn \"hello \" + name\n}\n\nfn lucky(base: int): int {\nreturn base + 2\n}\n\nfn is_ready(value: int): bool {\nreturn value == 42\n}\n\nlet answer: int = lucky(40)\nlet ready: bool = is_ready(answer)\nwhile false {\nprint \"never\"\n}\nif ready {\nprint banner(\"from stage1\")\n} else {\nprint \"broken\"\n}\nprint answer\nprint ready\n"),
    ])
    .expect("the program checks");
}

#[test]
fn checker_accepts_program_with_structs() {
    check_files(&[
        ("src/main.ax", "struct BuildInfo {\nlabel: string\ncount: int\n}\n\nlet info: BuildInfo = BuildInfo { label: \"hello from stage1\", count: 42 }\nprint info.count\nprint info.label\n"),
    ])
    .expect("the program checks");
}

#[test]
fn checker_accepts_program_with_arrays() {
    check_files(&[
        ("src/main.ax", "fn answer(values: [int]): int {\nreturn values[1]\n}\n\nlet values: [int] = [40, 42]\nprint answer(values)\n"),
    ])
    .expect("the program checks");
}

#[test]
fn checker_accepts_program_with_array_slices() {
    check_files(&[
        ("src/main.ax", "fn tail(values: &[int]): &[int] {\nreturn values[1:]\n}\n\nfn string_tail_len(values: &[string]): int {\nlet rest: &[string] = values[1:]\nreturn len(rest)\n}\n\nlet values: [int] = [3, 7, 9, 11]\nlet window: &[int] = tail(values[:])\nprint first(window)\nprint last(window)\nprint len(window)\nlet labels: [string] = [\"build\", \"test\", \"ship\"]\nprint string_tail_len(labels[:])\nlet words: [string] = [\"alpha\", \"beta\"]\nprint first(words)\n"),
    ])
    .expect("the program checks");
}

#[test]
fn checker_accepts_program_with_wrapped_borrow_returns() {
    check_files(&[
        ("src/main.ax", "fn maybe_tail(values: &[int], ready: bool): Option<&[int]> {\nif ready {\nreturn Some(values[1:])\n}\nreturn None\n}\n\nfn describe(values: &[int]): (Option<&[int]>, int) {\nreturn (Some(values[1:]), len(values))\n}\n\nlet numbers: [int] = [3, 7, 9, 11]\nmatch maybe_tail(numbers[:], true) {\nSome(window) {\nprint first(window)\n}\nNone {\nprint 0\n}\n}\nlet summary: (Option<&[int]>, int) = describe(numbers[:])\nmatch summary.0 {\nSome(window) {\nprint last(window)\n}\nNone {\nprint 0\n}\n}\nprint summary.1\n"),
    ])
    .expect("the program checks");
}

#[test]
fn checker_accepts_program_with_match_payload_borrow_returns() {
    check_files(&[
        ("src/main.ax", "fn choose(values: &[int]): Option<&[int]> {\nmatch Some(values[1:]) {\nSome(window) {\nreturn Some(window)\n}\nNone {\nreturn None\n}\n}\n}\n\nlet numbers: [int] = [3, 7, 9, 11]\nmatch choose(numbers[:]) {\nSome(window) {\nprint first(window)\n}\nNone {\nprint 0\n}\n}\nprint first(numbers)\n"),
    ])
    .expect("the program checks");
}

#[test]
fn checker_accepts_program_after_match_temporary_borrow_ends() {
    check_files(&[
        ("src/main.ax", "let values: [string] = [\"alpha\", \"beta\"]\nmatch Some(values[:]) {\nSome(window) {\nprint len(window)\n}\nNone {\nprint 0\n}\n}\nprint first(values)\n"),
    ])
    .expect("the program checks");
}

#[test]
fn checker_accepts_program_after_if_false_dead_branch_is_ignored() {
    check_files(&[
        ("src/main.ax", "let values: [string] = [\"alpha\", \"beta\"]\nif false {\nlet view: &[string] = values[:]\nprint len(view)\nprint first(values)\n} else {\nprint 0\n}\nprint first(values)\n"),
    ])
    .expect("the program checks");
}

#[test]
fn checker_accepts_program_after_while_false_dead_body_is_ignored() {
    check_files(&[
        ("src/main.ax", "let values: [string] = [\"alpha\", \"beta\"]\nwhile false {\nlet view: &[string] = values[:]\nprint len(view)\nprint first(values)\n}\nprint first(values)\n"),
    ])
    .expect("the program checks");
}

#[test]
fn checker_accepts_program_with_multi_param_borrow_returns() {
    check_files(&[
        ("src/main.ax", "fn choose(left: &[int], right: &[int], pick_left: bool): Option<&[int]> {\nif pick_left {\nreturn Some(left[1:])\n}\nreturn Some(right[1:])\n}\n\nlet left: [int] = [3, 7, 9]\nlet right: [int] = [40, 42, 44]\nmatch choose(left[:], right[:], false) {\nSome(window) {\nprint first(window)\n}\nNone {\nprint 0\n}\n}\nprint first(left)\nprint first(right)\n"),
    ])
    .expect("the program checks");
}

#[test]
fn checker_accepts_program_with_borrowed_named_shapes() {
    check_files(&[
        ("src/main.ax", "struct Window {\nview: &[int]\n}\n\nenum Snapshot {\nWindow(Window)\nNamed { window: Window }\n}\n\nfn tail(values: &[int]): Window {\nreturn Window { view: values[1:] }\n}\n\nfn read(snapshot: Snapshot): int {\nmatch snapshot {\nWindow(window) {\nreturn first(window.view)\n}\nNamed { window } {\nreturn last(window.view)\n}\n}\n}\n\nlet numbers: [int] = [3, 7, 9, 11]\nlet window: Window = tail(numbers[:])\nprint first(window.view)\nprint read(Window(tail(numbers[:])))\nprint read(Named { window: tail(numbers[:]) })\n"),
    ])
    .expect("the program checks");
}

#[test]
fn checker_accepts_program_after_branch_local_slice_borrow_ends() {
    check_files(&[
        ("src/main.ax", "let values: [string] = [\"alpha\", \"beta\"]\nif true {\nlet view: &[string] = values[:]\nprint len(view)\n}\nprint first(values)\n"),
    ])
    .expect("the program checks");
}

#[test]
fn checker_accepts_program_after_wrapped_borrow_scope_ends() {
    check_files(&[
        ("src/main.ax", "let values: [string] = [\"alpha\", \"beta\"]\nif true {\nlet wrapped: (&[string], int) = (values[:], 1)\nprint len(wrapped.0)\n}\nprint first(values)\n"),
    ])
    .expect("the program checks");
}

#[test]
fn checker_accepts_program_with_tuples() {
    check_files(&[
        ("src/main.ax", "fn label(pair: (int, string)): string {\nreturn pair.1\n}\n\nlet pair: (int, string) = (7, \"stage1 tuples\")\nprint pair.0\nprint label(pair)\n"),
    ])
    .expect("the program checks");
}

#[test]
fn checker_accepts_program_with_maps() {
    check_files(&[
        ("src/main.ax", "let scores: {string: int} = {\"build\": 7, \"deploy\": 9}\nprint scores[\"deploy\"]\n"),
    ])
    .expect("the program checks");
}

#[test]
fn checker_accepts_program_with_option_and_result() {
    check_files(&[
        ("src/main.ax", "import \"models.ax\"\n\nfn maybe_job(ready: bool): Option<Job> {\nif ready {\nreturn Some(Job { id: 7, label: \"queued\" })\n}\nreturn None\n}\n\nfn load_job(ready: bool): Result<Job, string> {\nif ready {\nreturn Ok(Job { id: 9, label: \"built\" })\n}\nreturn Err(\"boom\")\n}\n\nfn describe(job: Option<Job>): string {\nmatch job {\nSome(info) {\nreturn info.label\n}\nNone {\nreturn \"none\"\n}\n}\n}\n\nfn render(result: Result<Job, string>): string {\nmatch result {\nOk(info) {\nreturn info.label\n}\nErr(message) {\nreturn message\n}\n}\n}\n\nprint describe(maybe_job(true))\nprint describe(maybe_job(false))\nprint render(load_job(true))\nprint render(load_job(false))\n"),
        ("src/models.ax", "pub struct Job {\nid: int\nlabel: string\n}\n"),
    ])
    .expect("the program checks");
}

#[test]
fn checker_accepts_program_with_enums() {
    check_files(&[
        ("src/main.ax", "enum Status {\nReady\nFailed\n}\n\nfn label(status: Status): string {\nmatch status {\nReady {\nreturn \"ready\"\n}\nFailed {\nreturn \"failed\"\n}\n}\n}\n\nlet status: Status = Ready\nprint label(status)\n"),
    ])
    .expect("the program checks");
}

#[test]
fn checker_accepts_program_with_enum_field_match() {
    check_files(&[
        ("src/main.ax", "enum JobState {\nQueued\nRunning\nDone\n}\n\nstruct Job {\nid: int\nstate: JobState\n}\n\nfn label(job: Job): string {\nmatch job.state {\nQueued {\nreturn \"queued\"\n}\nRunning {\nreturn \"running\"\n}\nDone {\nreturn \"done\"\n}\n}\n}\n\nlet job: Job = Job { id: 7, state: Running }\nprint job.id\nprint label(job)\n"),
    ])
    .expect("the program checks");
}

#[test]
fn checker_accepts_program_with_payload_enums() {
    check_files(&[
        ("src/main.ax", "enum Message {\nText(string)\nCount(int)\n}\n\nfn render(message: Message): string {\nmatch message {\nText(text) {\nreturn text\n}\nCount(count) {\nprint count\nreturn \"count\"\n}\n}\n}\n\nlet message: Message = Text(\"ready\")\nprint render(message)\n"),
    ])
    .expect("the program checks");
}

#[test]
fn checker_accepts_program_with_multi_payload_enums() {
    check_files(&[
        ("src/main.ax", "enum Message {\nPair(int, string)\nText(string)\n}\n\nfn render(message: Message): string {\nmatch message {\nPair(count, label) {\nprint count\nreturn label\n}\nText(text) {\nreturn text\n}\n}\n}\n\nlet first: Message = Pair(7, \"multi payload\")\nprint render(first)\nlet second: Message = Text(\"payload enums\")\nprint render(second)\n"),
    ])
    .expect("the program checks");
}

#[test]
fn checker_accepts_program_with_named_payload_enums() {
    check_files(&[
        ("src/main.ax", "enum Message {\nJob { id: int, label: string }\nText(string)\n}\n\nfn render(message: Message): string {\nmatch message {\nJob { id, label } {\nprint id\nreturn label\n}\nText(text) {\nreturn text\n}\n}\n}\n\nlet first: Message = Job { id: 7, label: \"named payload\" }\nprint render(first)\nlet second: Message = Text(\"payload enums\")\nprint render(second)\n"),
    ])
    .expect("the program checks");
}

#[test]
fn checker_accepts_program_from_imported_modules() {
    check_files(&[
        ("src/main.ax", "import \"greetings.ax\"\nimport \"math.ax\"\n\nfn is_ready(value: int): bool {\nreturn value == 42\n}\n\nlet answer: int = lucky(40)\nlet ready: bool = is_ready(answer)\nif ready {\nprint banner(\"from modules\")\n} else {\nprint \"bad\"\n}\nprint answer\nprint ready\n"),
        ("src/greetings.ax", "pub fn banner(name: string): string {\nreturn prefix() + name\n}\n\nfn prefix(): string {\nreturn \"hello \"\n}\n"),
        ("src/math.ax", "pub fn lucky(base: int): int {\nreturn bump(base)\n}\n\nfn bump(base: int): int {\nreturn base + 2\n}\n"),
    ])
    .expect("the program checks");
}

#[test]
fn checker_accepts_program_from_imported_public_structs() {
    check_files(&[
        ("src/main.ax", "import \"model.ax\"\n\nlet info: BuildInfo = BuildInfo { label: \"hello from modules\", count: 42 }\nprint info.count\nprint info.label\n"),
        ("src/model.ax", "pub struct BuildInfo {\nlabel: string\ncount: int\n}\n"),
    ])
    .expect("the program checks");
}

#[test]
fn checker_accepts_program_from_imported_public_enums() {
    check_files(&[
        ("src/main.ax", "import \"status.ax\"\n\nfn label(status: Status): string {\nmatch status {\nReady {\nreturn \"ready\"\n}\nFailed {\nreturn \"failed\"\n}\n}\n}\n\nlet status: Status = Ready\nprint label(status)\n"),
        ("src/status.ax", "pub enum Status {\nReady\nFailed\n}\n"),
    ])
    .expect("the program checks");
}

#[test]
fn checker_accepts_program_from_imported_payload_enums() {
    check_files(&[
        ("src/main.ax", "import \"status.ax\"\n\nfn render(status: Status): string {\nmatch status {\nReady(label) {\nreturn label\n}\nFailed(label) {\nreturn label\n}\n}\n}\n\nlet status: Status = Ready(\"from import\")\nprint render(status)\n"),
        ("src/status.ax", "pub enum Status {\nReady(string)\nFailed(string)\n}\n"),
    ])
    .expect("the program checks");
}

#[test]
fn checker_accepts_program_from_imported_named_payload_enums() {
    check_files(&[
        ("src/main.ax", "import \"status.ax\"\n\nfn render(status: Status): string {\nmatch status {\nReady { label } {\nreturn label\n}\nFailed { label } {\nreturn label\n}\n}\n}\n\nlet status: Status = Ready { label: \"from import\" }\nprint render(status)\n"),
        ("src/status.ax", "pub enum Status {\nReady { label: string }\nFailed { label: string }\n}\n"),
    ])
    .expect("the program checks");
}

#[test]
fn checker_accepts_program_from_imported_multi_payload_enums() {
    check_files(&[
        ("src/main.ax", "import \"message.ax\"\n\nfn render(message: Message): string {\nmatch message {\nPair(count, label) {\nprint count\nreturn label\n}\nText(text) {\nreturn text\n}\n}\n}\n\nlet message: Message = Pair(7, \"from import\")\nprint render(message)\n"),
        ("src/message.ax", "pub enum Message {\nPair(int, string)\nText(string)\n}\n"),
    ])
    .expect("the program checks");
}

#[test]
fn checker_accepts_program_with_capability_intrinsics() {
    let source = "match fs_read(\"fixture.txt\") {\nSome(value) {\nprint value\n}\nNone {\nprint \"missing\"\n}\n}\nmatch net_resolve(\"localhost\") {\nSome(_address) {\nprint true\n}\nNone {\nprint false\n}\n}\nprint process_status(\"fixture\")\nprint crypto_sha256(\"abc\")\nlet now: int = clock_now_ms()\nprint now > 0\nmatch env_get(\"__AXIOM_STAGE1_MISSING__\") {\nSome(value) {\nprint value\n}\nNone {\nprint \"none\"\n}\n}\n";
    let count = check_files_with(&[("src/main.ax", source)], all_capabilities()).expect("every capability is on");
    assert_eq!(count, 13);
}

#[test]
fn checker_accepts_stdlib_time_module_with_clock_capability() {
    let caps = CapabilityConfig { clock: true, ..CapabilityConfig::default() };
    let count = check_files_with(
        &[("src/main.ax", "import \"std/time.ax\"\nlet now: int = now_ms()\nprint now > 0\n")],
        caps,
    )
    .expect("clock is on");
    assert_eq!(count, 3);
}

#[test]
fn checker_accepts_stdlib_env_module_with_env_capability() {
    let caps = CapabilityConfig { env: true, ..CapabilityConfig::default() };
    let source = "import \"std/env.ax\"\nmatch get_env(\"__AXIOM_STAGE1_MISSING__\") {\nSome(value) {\nprint value\n}\nNone {\nprint \"none\"\n}\n}\n";
    check_files_with(&[("src/main.ax", source)], caps).expect("env is on");
}

#[test]
fn stdlib_module_without_capability_names_the_capability_only_for_its_own_kind() {
    let caps = CapabilityConfig { env: true, ..CapabilityConfig::default() };
    let error = check_files_with(
        &[("src/main.ax", "import \"std/time.ax\"\nlet now: int = now_ms()\nprint now > 0\n")],
        caps,
    )
    .expect_err("clock stays off");
    assert_eq!(error.kind, "capability");
    assert!(error.message.contains("requires [capabilities].clock = true"));
}

#[test]
fn shared_import_is_loaded_once() {
    let modules = load_modules(&[
        ("src/main.ax", "import \"a.ax\"\nimport \"b.ax\"\nprint a() + b()\n"),
        ("src/a.ax", "import \"c.ax\"\npub fn a(): int {\nreturn c()\n}\n"),
        ("src/b.ax", "import \"c.ax\"\npub fn b(): int {\nreturn c()\n}\n"),
        ("src/c.ax", "pub fn c(): int {\nreturn 1\n}\n"),
    ])
    .expect("load");
    let paths: Vec<&str> = modules.iter().map(|m| m.path.as_str()).collect();
    assert_eq!(
        paths,
        vec!["/work/app/src/c.ax", "/work/app/src/a.ax", "/work/app/src/b.ax", "/work/app/src/main.ax"]
    );
}

#[test]
fn circular_import_names_the_module_that_closes_the_circle() {
    let error = check_files(&[
        ("src/main.ax", "import \"a.ax\"\nprint \"skip\"\n"),
        ("src/a.ax", "import \"b.ax\"\npub fn call_a(): int {\nreturn call_b()\n}\n"),
        ("src/b.ax", "import \"a.ax\"\npub fn call_b(): int {\nreturn call_a()\n}\n"),
    ])
    .expect_err("cycle");
    assert_eq!(error.message, "circular import detected at /work/app/src/a.ax");
    assert_eq!(error.path.as_deref(), Some("/work/app/src/a.ax"));
}

#[test]
fn imported_module_statement_is_reported_at_its_line() {
    let error = check_files(&[
        ("src/main.ax", "import \"greetings.ax\"\nprint banner(\"x\")\n"),
        ("src/greetings.ax", "pub fn banner(name: string): string {\nreturn name\n}\nprint \"nope\"\n"),
    ])
    .expect_err("statement in imported module");
    assert_eq!(error.kind, "import");
    assert_eq!(error.line, Some(4));
    assert_eq!(error.column, Some(1));
}
