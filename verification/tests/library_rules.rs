use axiomc::dap::{
    breakable_lines_from, check_debug_map_schema, check_frame_length, classify_command, dap_header, loaded_sources,
    parse_header_line, source_name, unsupported_command_error, DapCommand, DebugAdapter, DebugSession, HeaderLine,
    SourceLine,
};
use axiomc::lockfile::{expected_lockfile, expected_project_lockfile, local_package_dirs, lockfile_matches};
use axiomc::manifest::{
    capability_descriptors, normalize_manifest, render_manifest, CapabilityConfig, PackageSection, RawBuildSection,
    TestTarget,
    RawDependencySpec, RawManifest, RawPackageSection, RawTestTarget, RawWorkspaceSection,
};
use axiomc::modules::{flatten_modules, module_id_for_path, slug_identifier, LoadedModule};
use axiomc::new_project::sanitize_name;
use axiomc::paths::{
    normalize_path, parent_path, path_starts_with, resolve_import_target, split_path, workspace_member_root,
    DependencyRoots, ImportTarget,
};
use axiomc::project::{
    check_output_from, merge_test_targets, slugify_test_name, test_output_from, test_run_error, TestCaseResult,
};
use axiomc::registry::{normalize_base_url, release_entry, validate_registry_index, RegistryIndex, RegistryRelease};
use axiomc::syntax::{parse_program, Import};
use axiomc::workspace::{collect_package_roots, select_packages, PackageNode, PackageWalk, WalkStep};

fn import(path: &str) -> Import {
    Import { path: path.to_string(), line: 3, column: 1 }
}

fn resolve(path: &str) -> Result<ImportTarget, axiomc::diagnostics::Diagnostic> {
    let deps = vec![DependencyRoots {
        name: "core".to_string(),
        root: "/work/deps/core".to_string(),
        source_root: "/work/deps/core/src".to_string(),
    }];
    resolve_import_target("/work/app", "/work/app/src", "/work/app/src/main.ax", &deps, &import(path))
}

#[test]
fn split_path_keeps_only_a_leading_dot() {
    let parts = split_path("./std//./time.ax");
    assert!(!parts.absolute);
    assert_eq!(parts.components, vec![".", "std", "time.ax"]);
    let parts = split_path("/a/./b/");
    assert!(parts.absolute);
    assert_eq!(parts.components, vec!["a", "b"]);
}

#[test]
fn normalize_path_applies_dots_and_parents() {
    assert_eq!(normalize_path("/a/./b/../c"), "/a/c");
    assert_eq!(normalize_path("a/../../b"), "b");
    assert_eq!(normalize_path("/.."), "/");
    assert_eq!(normalize_path("./x/"), "x");
    assert_eq!(normalize_path(&normalize_path("/a/./b/../c")), "/a/c");
}

#[test]
fn path_prefixes_compare_whole_components() {
    assert!(path_starts_with("/a/b/c", "/a/b"));
    assert!(path_starts_with("/a/b", "/a/b/"));
    assert!(!path_starts_with("/a/bc", "/a/b"));
    assert!(!path_starts_with("a/b", "/a"));
}

#[test]
fn parent_path_follows_std_path_parent() {
    assert_eq!(parent_path("/a/b").as_deref(), Some("/a"));
    assert_eq!(parent_path("/a").as_deref(), Some("/"));
    assert_eq!(parent_path("a").as_deref(), Some(""));
    assert_eq!(parent_path("/"), None);
    assert_eq!(parent_path(""), None);
}

#[test]
fn stdlib_imports_resolve_to_virtual_paths() {
    assert_eq!(resolve("std/time.ax").unwrap(), ImportTarget::Stdlib { path: "<stdlib>/time.ax".to_string() });
    assert_eq!(resolve("std/./time.ax").unwrap(), ImportTarget::Stdlib { path: "<stdlib>/time.ax".to_string() });
    let error = resolve("std").unwrap_err();
    assert_eq!(error.message, "stdlib import must include a module path (e.g. import \"std/time.ax\")");
    let error = resolve("std/bogus.ax").unwrap_err();
    assert_eq!(error.message, "unknown stdlib module \"std/bogus.ax\"");
    assert_eq!(error.kind, "import");
    assert_eq!(error.path.as_deref(), Some("/work/app/src/main.ax"));
    assert_eq!((error.line, error.column), (Some(3), Some(1)));
}

#[test]
fn a_leading_dot_makes_an_import_local() {
    assert_eq!(
        resolve("./std/time.ax").unwrap(),
        ImportTarget::Local { root: "/work/app".to_string(), path: "/work/app/src/std/time.ax".to_string() }
    );
}

#[test]
fn dependency_and_local_imports_resolve_inside_their_packages() {
    assert_eq!(
        resolve("core/math.ax").unwrap(),
        ImportTarget::Dependency { root: "/work/deps/core".to_string(), path: "/work/deps/core/src/math.ax".to_string() }
    );
    assert_eq!(resolve("core").unwrap_err().message, "dependency import \"core\" must include a module path");
    assert_eq!(
        resolve("util/strings.ax").unwrap(),
        ImportTarget::Local { root: "/work/app".to_string(), path: "/work/app/src/util/strings.ax".to_string() }
    );
    assert_eq!(resolve("/etc/x.ax").unwrap_err().message, "stage1 imports must be relative");
    assert_eq!(resolve("../x.ax").unwrap_err().message, "stage1 imports may not traverse parent directories");
}

#[test]
fn workspace_members_are_checked_before_they_are_read() {
    let member = |m: &str| workspace_member_root("/work/app", 2, &m.to_string());
    assert_eq!(member("  ").unwrap_err().message, "workspace member paths must not be empty");
    assert_eq!(member("/x").unwrap_err().message, "workspace.members[2] must be relative");
    assert_eq!(member("a/../x").unwrap_err().message, "workspace.members[2] must not use parent traversal");
    assert_eq!(member("./").unwrap_err().message, "workspace members must not include the root package");
    let error = member("/x").unwrap_err();
    assert_eq!(error.kind, "manifest");
    assert_eq!(error.path.as_deref(), Some("/work/app/axiom.toml"));
    assert_eq!(member("members/core").unwrap(), "/work/app/members/core");
}

#[test]
fn module_ids_follow_the_path_below_the_source_root() {
    assert_eq!(module_id_for_path("/p/src/util/math.ax", "/p/src", "My-App"), "my_app_util_math");
    assert_eq!(module_id_for_path("<stdlib>/time.ax", "<stdlib>", "std"), "std_time");
    assert_eq!(module_id_for_path("/p/src/main.ax", "/p/src", ""), "package_main");
    assert_eq!(module_id_for_path("/p/src/a.b.ax", "/p/src", "x"), "x_a_b");
    assert_eq!(module_id_for_path("/elsewhere/m.ax", "/p/src", "x"), "x___elsewhere_m");
    assert_eq!(slug_identifier("Core Lib"), "core_lib");
    assert_eq!(slug_identifier(""), "package");
}

fn loaded(path: &str, source: &str, is_entry: bool, import_paths: Vec<&str>) -> LoadedModule {
    LoadedModule {
        path: path.to_string(),
        program: parse_program(source, path).expect("parse"),
        is_entry,
        package_root: "/p".to_string(),
        source_root: "/p/src".to_string(),
        package_name: "app".to_string(),
        import_paths: import_paths.into_iter().map(str::to_string).collect(),
    }
}

#[test]
fn flattening_qualifies_every_declaration_by_its_module() {
    let modules = vec![
        loaded("/p/src/math.ax", "pub fn lucky(base: int): int {\nreturn base + 2\n}\n", false, vec![]),
        loaded(
            "/p/src/main.ax",
            "import \"math.ax\"\nstruct Info {\ncount: int\n}\nprint lucky(40)\n",
            true,
            vec!["/p/src/math.ax"],
        ),
    ];
    let program = flatten_modules(&modules).expect("flatten");
    let names: Vec<&str> = program.functions.iter().map(|f| f.name.as_str()).collect();
    assert_eq!(names, vec!["app_math_lucky"]);
    assert_eq!(program.structs[0].name, "app_main_Info");
    assert_eq!(program.stmts.len(), 1);
    assert!(program.imports.is_empty());
}

#[test]
fn flattening_refuses_a_private_import() {
    let modules = vec![
        loaded("/p/src/math.ax", "fn hidden(): int {\nreturn 1\n}\n", false, vec![]),
        loaded("/p/src/main.ax", "import \"math.ax\"\nprint hidden()\n", true, vec!["/p/src/math.ax"]),
    ];
    let error = flatten_modules(&modules).expect_err("private");
    assert_eq!(error.kind, "import");
    assert!(error.message.contains("is not exported"));
}

fn node(root: &str, name: &str, members: Vec<&str>) -> PackageNode {
    PackageNode {
        root: root.to_string(),
        name: name.to_string(),
        members: members.into_iter().map(str::to_string).collect(),
    }
}

#[test]
fn workspace_walk_visits_members_depth_first_and_once() {
    let nodes = vec![
        node("/w/b", "b", vec![]),
        node("/w", "root", vec!["/w/a", "/w/b"]),
        node("/w/a", "a", vec!["/w/b"]),
    ];
    let named = collect_package_roots(&nodes, &"/w".to_string()).expect("walk");
    let roots: Vec<&str> = named.iter().map(|(root, _)| root.as_str()).collect();
    assert_eq!(roots, vec!["/w", "/w/a", "/w/b"]);
    assert_eq!(select_packages(&named, Some("a"), "/w").unwrap(), vec!["/w/a"]);
    assert_eq!(select_packages(&named, None, "/w").unwrap().len(), 3);
    let error = select_packages(&named, Some("zzz"), "/w").unwrap_err();
    assert_eq!(error.message, "workspace package \"zzz\" was not found");
    assert_eq!(error.path.as_deref(), Some("/w/axiom.toml"));
    let twice = vec![("/w/a".to_string(), "x".to_string()), ("/w/b".to_string(), "x".to_string())];
    assert_eq!(select_packages(&twice, Some("x"), "/w").unwrap_err().message, "workspace package name \"x\" is ambiguous");
    let missing = vec![node("/w", "root", vec!["/w/gone"])];
    assert_eq!(
        collect_package_roots(&missing, &"/w".to_string()).unwrap_err().message,
        "internal error: unknown package root /w/gone"
    );
}

#[test]
fn package_walk_reports_cycles_and_loaded_packages() {
    let mut walk = PackageWalk::new();
    let root = "/w".to_string();
    let dep = "/w/dep".to_string();
    assert_eq!(walk.begin(&root), WalkStep::Load);
    walk.enter(root.clone());
    assert_eq!(walk.begin(&root), WalkStep::Cycle);
    walk.enter(dep.clone());
    assert_eq!(walk.finish(), Some(dep.clone()));
    assert_eq!(walk.begin(&dep), WalkStep::Loaded);
    assert_eq!(walk.finish(), Some(root.clone()));
    assert_eq!(walk.finish(), None);
    assert_eq!(walk.begin(&root), WalkStep::Loaded);
}

fn raw_manifest() -> RawManifest {
    RawManifest {
        package: Some(RawPackageSection { name: Some("demo".to_string()), version: Some("0.1.0".to_string()) }),
        dependencies: None,
        workspace: None,
        build: None,
        tests: None,
        capabilities: None,
    }
}

#[test]
fn manifest_defaults_and_lockfile_agree() {
    let manifest = normalize_manifest(&raw_manifest(), "axiom.toml").expect("valid");
    assert_eq!(manifest.build.entry, "src/main.ax");
    assert_eq!(manifest.build.out_dir, "dist");
    assert!(!manifest.capabilities.clock);
    let lock = expected_lockfile(&manifest);
    assert!(lockfile_matches(&lock, &manifest, &Vec::new()));
    let mut stale = lock.clone();
    stale.package[0].version = "0.2.0".to_string();
    assert!(!lockfile_matches(&stale, &manifest, &Vec::new()));
    let descriptors = capability_descriptors(&manifest.capabilities);
    let names: Vec<&str> = descriptors.iter().map(|d| d.name.as_str()).collect();
    assert_eq!(names, vec!["fs", "net", "process", "env", "clock", "crypto"]);
}

#[test]
fn manifest_rules_name_the_offending_field() {
    let mut raw = raw_manifest();
    raw.package = None;
    assert_eq!(normalize_manifest(&raw, "axiom.toml").unwrap_err().message, "missing [package] section");
    let mut raw = raw_manifest();
    raw.package = Some(RawPackageSection { name: Some("  ".to_string()), version: Some("1".to_string()) });
    assert_eq!(normalize_manifest(&raw, "axiom.toml").unwrap_err().message, "missing or empty package.name");
    let mut raw = raw_manifest();
    raw.build = Some(RawBuildSection { entry: Some("../main.ax".to_string()), out_dir: Some("dist".to_string()) });
    assert_eq!(
        normalize_manifest(&raw, "axiom.toml").unwrap_err().message,
        "build.entry must not use parent traversal"
    );
    let mut raw = raw_manifest();
    raw.dependencies = Some(vec![("core".to_string(), RawDependencySpec::Path("/abs".to_string()))]);
    assert_eq!(normalize_manifest(&raw, "axiom.toml").unwrap_err().message, "dependencies.core.path must be relative");
    let mut raw = raw_manifest();
    let target = RawTestTarget { name: Some("t".to_string()), entry: Some("src/t.ax".to_string()), stdout: None };
    raw.tests = Some(vec![target.clone(), target]);
    assert_eq!(normalize_manifest(&raw, "axiom.toml").unwrap_err().message, "duplicate test target \"t\"");
    let mut raw = raw_manifest();
    raw.workspace = Some(RawWorkspaceSection { members: Some(vec!["a".to_string(), "a".to_string()]) });
    let error = normalize_manifest(&raw, "axiom.toml").unwrap_err();
    assert_eq!(error.message, "duplicate workspace member \"a\"");
    assert_eq!(error.kind, "manifest");
}

#[test]
fn rendered_manifest_quotes_the_name() {
    let text = render_manifest("demo \"app\"");
    assert!(text.starts_with("[package]\nname = \"demo \\\"app\\\"\"\nversion = \"0.1.0\"\n"));
    assert!(text.ends_with("crypto = false\n"));
}

#[test]
fn package_names_become_dash_slugs() {
    assert_eq!(sanitize_name("My Cool__App!"), "my-cool-app");
    assert_eq!(sanitize_name("!!!"), "axiom-app");
    assert_eq!(slugify_test_name("src/math_test"), "src-math-test");
    assert_eq!(slugify_test_name("--"), "test");
}

#[test]
fn registry_entries_point_below_the_base_url() {
    let caps = CapabilityConfig { net: true, env: true, ..CapabilityConfig::default() };
    let entry = release_entry(
        &"core".to_string(),
        &"1.2.3".to_string(),
        &"core".to_string(),
        &"1.2.3".to_string(),
        &"https://packages.example.test/registry".to_string(),
        Some("package.axp".to_string()),
        Some("package.axp.sig".to_string()),
        true,
        Some("security fix required".to_string()),
        &caps,
        &vec!["API_TOKEN".to_string()],
    )
    .expect("entry");
    let env = entry.capabilities.iter().find(|cap| cap.name == "env").expect("env cap");
    assert!(env.enabled);
    assert_eq!(env.allowed, vec![String::from("API_TOKEN")]);
    let net = entry.capabilities.iter().find(|cap| cap.name == "net").expect("net cap");
    assert!(net.allowed.is_empty());
    assert_eq!(entry.source, "registry+https://packages.example.test/registry/core/1.2.3");
    assert_eq!(entry.manifest, "https://packages.example.test/registry/core/1.2.3/axiom.toml");
    assert!(entry.yanked);
    assert!(entry.capabilities.iter().any(|cap| cap.name == "net" && cap.enabled));
    let unsigned = release_entry(
        &"core".to_string(),
        &"1.0.0".to_string(),
        &"core".to_string(),
        &"1.0.0".to_string(),
        &"https://packages.example.test".to_string(),
        Some("package.axp".to_string()),
        None,
        false,
        None,
        &CapabilityConfig::default(),
        &Vec::new(),
    )
    .unwrap_err();
    assert_eq!(unsigned.kind, "registry");
    assert!(unsigned.message.contains("archive but no signature"));
}

fn case(ok: bool) -> TestCaseResult {
    TestCaseResult {
        package_root: "/p".to_string(),
        name: "t".to_string(),
        entry: "src/t_test.ax".to_string(),
        ok,
        binary: None,
        generated_rust: None,
        exit_code: Some(0),
        stdout: String::new(),
        stderr: String::new(),
        expected_stdout: None,
        duration_ms: 0,
        error: None,
    }
}

#[test]
fn test_reports_count_passes_and_failures() {
    let output = test_output_from("axiom.toml".to_string(), vec![], vec![case(true), case(false), case(true)], 5).unwrap();
    assert_eq!((output.passed, output.failed, output.skipped), (2, 1, 0));
    let error = test_output_from("axiom.toml".to_string(), vec![], vec![], 0).unwrap_err();
    assert_eq!(error.kind, "test");
    assert!(check_output_from("/p", vec![]).is_err());
}

#[test]
fn test_runs_are_judged_by_status_then_stdout() {
    let name = "src/t_test".to_string();
    let entry = "/p/src/t_test.ax".to_string();
    let failed = test_run_error(&name, &entry, false, Some(3), &String::new(), &None).unwrap();
    assert_eq!(failed.message, "test \"src/t_test\" exited with status 3");
    let killed = test_run_error(&name, &entry, false, None, &String::new(), &None).unwrap();
    assert_eq!(killed.message, "test \"src/t_test\" exited with status 1");
    let wrong = test_run_error(&name, &entry, true, Some(0), &"1\n".to_string(), &Some("2\n".to_string())).unwrap();
    assert_eq!(wrong.message, "test \"src/t_test\" stdout did not match expected output");
    assert_eq!(wrong.path.as_deref(), Some("/p/src/t_test.ax"));
    assert!(test_run_error(&name, &entry, true, Some(0), &"2\n".to_string(), &Some("2\n".to_string())).is_none());
}

#[test]
fn configured_tests_come_first_and_discovered_duplicates_drop() {
    let t = |name: &str, entry: &str| TestTarget { name: name.to_string(), entry: entry.to_string(), stdout: None };
    let configured = vec![t("smoke", "src/main_test.ax")];
    let discovered = vec![t("src/main_test", "src/main_test.ax"), t("src/math_test", "src/math_test.ax")];
    let all = merge_test_targets(&configured, &discovered, None);
    let names: Vec<&str> = all.iter().map(|x| x.name.as_str()).collect();
    assert_eq!(names, vec!["smoke", "src/math_test"]);
    let filtered = merge_test_targets(&configured, &discovered, Some("math"));
    assert_eq!(filtered.len(), 1);
    assert_eq!(filtered[0].entry, "src/math_test.ax");
}

#[test]
fn dap_framing_and_commands() {
    assert_eq!(dap_header(12), "Content-Length: 12\r\n\r\n");
    assert_eq!(parse_header_line("Content-Length: 42\r\n").unwrap(), HeaderLine::ContentLength(42));
    assert_eq!(parse_header_line("\r\n").unwrap(), HeaderLine::End);
    assert_eq!(parse_header_line("Content-Type: json\r\n").unwrap(), HeaderLine::Other);
    assert_eq!(
        parse_header_line("Content-Length: x\r\n").unwrap_err().message,
        "invalid DAP Content-Length: invalid digit found in string"
    );
    assert_eq!(
        parse_header_line("Content-Length:   \r\n").unwrap_err().message,
        "invalid DAP Content-Length: cannot parse integer from empty string"
    );
    assert_eq!(
        parse_header_line("Content-Length: 99999999999999999999999\n").unwrap_err().message,
        "invalid DAP Content-Length: number too large to fit in target type"
    );
    assert_eq!(parse_header_line("Content-Length: +7").unwrap(), HeaderLine::ContentLength(7));
    assert_eq!(check_frame_length(None).unwrap_err().message, "DAP message missing Content-Length header");
    assert_eq!(check_frame_length(Some(16777216)).unwrap(), 16777216);
    assert!(check_frame_length(Some(16777217)).is_err());
    assert_eq!(classify_command("setBreakpoints"), DapCommand::SetBreakpoints);
    assert_eq!(classify_command("terminate"), DapCommand::Acknowledge);
    assert_eq!(classify_command("evaluate"), DapCommand::Unsupported);
    assert_eq!(unsupported_command_error("evaluate").message, "unsupported DAP command `evaluate` in stage1 adapter");
    assert!(check_debug_map_schema("axiom.stage1.debug_map.v1").is_ok());
    assert!(check_debug_map_schema("v0").is_err());
}

#[test]
fn import_paths_are_decoded_as_json_strings() {
    let program = parse_program("import \"a\\u0062.ax\"\nprint 1\n", "main.ax").expect("parse");
    assert_eq!(program.imports[0].path, "ab.ax");
    let error = parse_program("import math.ax\n", "main.ax").unwrap_err();
    assert_eq!(error.message, "import must use a quoted relative path");
}

fn source_line(source: &str, line: u64) -> SourceLine {
    SourceLine { source: source.to_string(), line }
}

#[test]
fn debug_maps_become_sorted_line_sets() {
    let mappings = vec![source_line("b.ax", 2), source_line("a.ax", 9), source_line("b.ax", 1), source_line("a.ax", 9)];
    let lines = breakable_lines_from(&mappings);
    assert_eq!(lines, vec![source_line("a.ax", 9), source_line("b.ax", 1), source_line("b.ax", 2)]);
    let session = DebugSession {
        project: "/p".to_string(),
        package: None,
        binary: "/p/dist/app".to_string(),
        debug_map: "/p/dist/app.debug-map.json".to_string(),
        breakable_lines: vec![source_line("z.ax", 1), source_line("a.ax", 2), source_line("z.ax", 3)],
    };
    assert_eq!(loaded_sources(&session), vec!["a.ax".to_string(), "z.ax".to_string()]);
    assert_eq!(source_name("/p/src/main.ax"), "main.ax");
    assert_eq!(source_name("/p/src/"), "src");
    assert_eq!(source_name("/"), "/");
    assert_eq!(source_name(".."), "..");
}

#[test]
fn breakpoints_need_a_session_that_maps_the_line() {
    let mut adapter = DebugAdapter::new();
    assert_eq!(adapter.seq(), 1);
    assert_eq!(adapter.seq(), 2);
    assert!(!adapter.breakpoint_verified(&"a.ax".to_string(), 2));
    adapter.start_session(DebugSession {
        project: "/p".to_string(),
        package: None,
        binary: "/p/dist/app".to_string(),
        debug_map: "/p/dist/app.debug-map.json".to_string(),
        breakable_lines: vec![source_line("a.ax", 2)],
    });
    assert!(adapter.breakpoint_verified(&"a.ax".to_string(), 2));
    assert!(!adapter.breakpoint_verified(&"a.ax".to_string(), 3));
    assert!(adapter.session().is_some());
    adapter.clear_session();
    assert!(adapter.session().is_none());
    assert!(!adapter.breakpoint_verified(&"a.ax".to_string(), 2));
    assert_eq!(adapter.seq(), 3);
}

fn release(version: &str) -> RegistryRelease {
    RegistryRelease {
        version: version.to_string(),
        source: format!("registry+https://r.test/core/{version}"),
        manifest: format!("https://r.test/core/{version}/axiom.toml"),
        archive: None,
        signature: None,
        yanked: false,
        yank_reason: None,
        capabilities: Vec::new(),
    }
}

#[test]
fn registry_indexes_obey_their_rules() {
    let good = RegistryIndex { version: 1, packages: vec![("core".to_string(), vec![release("1.0.0"), release("1.1.0")])] };
    assert!(validate_registry_index(&good, Some("index.json")).is_ok());
    let old = RegistryIndex { version: 2, packages: vec![] };
    assert_eq!(
        validate_registry_index(&old, None).unwrap_err().message,
        "unsupported registry index version 2; expected 1"
    );
    let dup = RegistryIndex { version: 1, packages: vec![("core".to_string(), vec![release("1.0.0"), release("1.0.0")])] };
    let error = validate_registry_index(&dup, Some("index.json")).unwrap_err();
    assert_eq!(error.message, "package \"core\" contains duplicate version \"1.0.0\"");
    assert_eq!(error.path.as_deref(), Some("index.json"));
    let mut unsigned = release("2.0.0");
    unsigned.archive = Some("https://r.test/core/2.0.0/package.axp".to_string());
    let bad = RegistryIndex { version: 1, packages: vec![("core".to_string(), vec![unsigned])] };
    assert_eq!(
        validate_registry_index(&bad, None).unwrap_err().message,
        "package \"core\" version \"2.0.0\" declares an archive without a signature"
    );
    let mut reason = release("3.0.0");
    reason.yank_reason = Some("bad".to_string());
    let bad = RegistryIndex { version: 1, packages: vec![("core".to_string(), vec![reason])] };
    assert!(validate_registry_index(&bad, None).unwrap_err().message.ends_with("has yank_reason but is not yanked"));
    assert_eq!(normalize_base_url("  https://r.test/registry//  ", "/pkgs").unwrap(), "https://r.test/registry");
    let error = normalize_base_url(" // ", "/pkgs").unwrap_err();
    assert_eq!(error.message, "--base-url must not be empty");
    assert_eq!(error.path.as_deref(), Some("/pkgs"));
}

#[test]
fn root_lockfile_records_workspace_members_and_path_dependencies() {
    let mut raw = raw_manifest();
    raw.workspace = Some(RawWorkspaceSection {
        members: Some(vec!["members/core".to_string(), "members/util".to_string()]),
    });
    raw.dependencies = Some(vec![(
        "core".to_string(),
        RawDependencySpec::Detailed { path: Some("members/core".to_string()) },
    )]);
    let manifest = normalize_manifest(&raw, "axiom.toml").expect("valid");
    assert_eq!(local_package_dirs(&manifest), vec!["members/core".to_string(), "members/util".to_string()]);
    let sections = vec![
        PackageSection { name: "workspace-core".to_string(), version: "0.1.0".to_string() },
        PackageSection { name: "workspace-util".to_string(), version: "0.1.0".to_string() },
    ];
    assert!(!lockfile_matches(&expected_lockfile(&manifest), &manifest, &sections));
    let lock = expected_project_lockfile(&manifest, &sections);
    assert_eq!(lock.package.len(), 3);
    assert_eq!(lock.package[1].source, "path:members/core");
    assert_eq!(lock.package[2].source, "path:members/util");
    assert_eq!(lock.package[2].name, "workspace-util");
    assert!(lockfile_matches(&lock, &manifest, &sections));
}
