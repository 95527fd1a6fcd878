//! What the package commands report, and the decisions they make between
//! reading and writing files: which packages a command covers, which test
//! targets run, how a test run is judged, and how artifacts are named.
use vstd::prelude::*;
use crate::diagnostics::Diagnostic;
use crate::manifest::{joined, join_path, out_dir_path, CapabilityDescriptor, Manifest, TestTarget};
use crate::new_project::{dash_slug, dash_slug_or};
use crate::text::{cat, cat3, debug_string, string_from, chars_of};

verus! {

#[derive(Debug, Clone)]
pub struct CheckedPackage {
    pub package_root: String,
    pub manifest: String,
    pub entry: String,
    pub statement_count: usize,
    pub capabilities: Vec<CapabilityDescriptor>,
}

#[derive(Debug, Clone)]
pub struct CheckOutput {
    pub manifest: String,
    pub entry: String,
    pub statement_count: usize,
    pub capabilities: Vec<CapabilityDescriptor>,
    pub warnings: Vec<String>,
    pub packages: Vec<CheckedPackage>,
}

#[derive(Debug, Clone)]
pub struct BuiltPackage {
    pub package_root: String,
    pub manifest: String,
    pub entry: String,
    pub binary: String,
    pub generated_rust: String,
    pub statement_count: usize,
    pub target: Option<String>,
}

#[derive(Debug, Clone)]
pub struct BuildOutput {
    pub manifest: String,
    pub entry: String,
    pub binary: String,
    pub generated_rust: String,
    pub debug_map: Option<String>,
    pub statement_count: usize,
    pub target: Option<String>,
    pub debug: bool,
    pub cache_hits: usize,
    pub cache_misses: usize,
    pub duration_ms: u64,
    pub packages: Vec<BuiltPackage>,
}

#[derive(Debug, Clone)]
pub struct TestCaseResult {
    pub package_root: String,
    pub name: String,
    pub entry: String,
    pub ok: bool,
    pub binary: Option<String>,
    pub generated_rust: Option<String>,
    pub exit_code: Option<i32>,
    pub stdout: String,
    pub stderr: String,
    pub expected_stdout: Option<String>,
    pub duration_ms: u64,
    pub error: Option<Diagnostic>,
}

#[derive(Debug, Clone)]
pub struct TestOutput {
    pub manifest: String,
    pub packages: Vec<String>,
    pub cases: Vec<TestCaseResult>,
    pub passed: usize,
    pub failed: usize,
    pub skipped: usize,
    pub duration_ms: u64,
}

#[derive(Debug, Clone)]
pub struct CheckOptions {
    pub package: Option<String>,
}

#[derive(Debug, Clone)]
pub struct BuildOptions {
    pub target: Option<String>,
    pub package: Option<String>,
    pub debug: bool,
}

#[derive(Debug, Clone)]
pub struct RunOptions {
    pub package: Option<String>,
}

#[derive(Debug, Clone)]
pub struct TestOptions {
    pub filter: Option<String>,
    pub package: Option<String>,
}

impl Default for CheckOptions {
    fn default() -> (o: CheckOptions)
        ensures
            o.package is None,
    {
        CheckOptions { package: None }
    }
}

impl Default for BuildOptions {
    fn default() -> (o: BuildOptions)
        ensures
            o.target is None && o.package is None && !o.debug,
    {
        BuildOptions { target: None, package: None, debug: false }
    }
}

impl Default for RunOptions {
    fn default() -> (o: RunOptions)
        ensures
            o.package is None,
    {
        RunOptions { package: None }
    }
}

impl Default for TestOptions {
    fn default() -> (o: TestOptions)
        ensures
            o.filter is None && o.package is None,
    {
        TestOptions { filter: None, package: None }
    }
}

// ----- Reports -----------------------------------------------------------------------

/// The lines `build` prints: the binary written, and the debug map where one was written.
pub open spec fn summary_lines(output: &BuildOutput) -> Seq<Seq<char>> {
    match output.debug_map {
        Some(m) => seq!["wrote "@ + output.binary@, "wrote debug map "@ + m@],
        None => seq!["wrote "@ + output.binary@],
    }
}

pub fn build_summary_lines(output: &BuildOutput) -> (lines: Vec<String>)
    ensures
        lines@.len() == summary_lines(output).len(),
        forall|i: int| 0 <= i < lines@.len() ==> (#[trigger] lines@[i])@ == summary_lines(output)[i],
{
    let mut lines: Vec<String> = Vec::new();
    lines.push(cat("wrote ", output.binary.as_str()));
    if let Some(m) = &output.debug_map {
        lines.push(cat("wrote debug map ", m.as_str()));
    }
    lines
}

fn no_packages_error(project_root: &str) -> (d: Diagnostic)
    ensures
        d.kind@ == "manifest"@,
{
    Diagnostic::new("manifest", cat("internal error: no packages discovered for ", project_root))
}

/// The `check` report: the first package checked speaks for the whole run.
pub fn check_output_from(project_root: &str, packages: Vec<CheckedPackage>) -> (r: Result<
    CheckOutput,
    Diagnostic,
>)
    ensures
        r is Ok <==> packages@.len() > 0,
        r matches Ok(o) ==> {
            &&& o.manifest@ == packages@[0].manifest@
            &&& o.entry@ == packages@[0].entry@
            &&& o.statement_count == packages@[0].statement_count
            &&& o.packages@ == packages@
            &&& o.warnings@.len() == 0
        },
        r matches Err(d) ==> d.kind@ == "manifest"@,
{
    if packages.len() == 0 {
        return Err(no_packages_error(project_root));
    }
    let root = &packages[0];
    let manifest = root.manifest.clone();
    let entry = root.entry.clone();
    let statement_count = root.statement_count;
    let capabilities = root.capabilities.clone();
    Ok(
        CheckOutput {
            manifest,
            entry,
            statement_count,
            capabilities,
            warnings: Vec::new(),
            packages,
        },
    )
}

/// The `build` report: the first package built speaks for the whole run.
pub fn build_output_from(
    project_root: &str,
    packages: Vec<BuiltPackage>,
    debug_map: Option<String>,
    debug: bool,
    duration_ms: u64,
) -> (r: Result<BuildOutput, Diagnostic>)
    ensures
        r is Ok <==> packages@.len() > 0,
        r matches Ok(o) ==> {
            &&& o.manifest@ == packages@[0].manifest@
            &&& o.entry@ == packages@[0].entry@
            &&& o.binary@ == packages@[0].binary@
            &&& o.generated_rust@ == packages@[0].generated_rust@
            &&& o.statement_count == packages@[0].statement_count
            &&& o.packages@ == packages@
            &&& o.target == packages@[0].target
            &&& o.debug_map == debug_map
            &&& o.debug == debug
            &&& o.cache_hits == 0
            &&& o.cache_misses == packages@.len()
            &&& o.duration_ms == duration_ms
        },
        r matches Err(d) ==> d.kind@ == "manifest"@,
{
    if packages.len() == 0 {
        return Err(no_packages_error(project_root));
    }
    let root = &packages[0];
    let manifest = root.manifest.clone();
    let entry = root.entry.clone();
    let binary = root.binary.clone();
    let generated_rust = root.generated_rust.clone();
    let statement_count = root.statement_count;
    let target = match &root.target {
        Some(t) => Some(t.clone()),
        None => None,
    };
    let n = packages.len();
    Ok(
        BuildOutput {
            manifest,
            entry,
            binary,
            generated_rust,
            debug_map,
            statement_count,
            target,
            debug,
            cache_hits: 0,
            cache_misses: n,
            duration_ms,
            packages,
        },
    )
}

pub open spec fn passed_upto(cases: Seq<TestCaseResult>, n: nat) -> nat
    decreases n,
{
    if n == 0 || n > cases.len() {
        0
    } else {
        passed_upto(cases, (n - 1) as nat) + if cases[n - 1].ok {
            1nat
        } else {
            0nat
        }
    }
}

proof fn lemma_passed_bounded(cases: Seq<TestCaseResult>, n: nat)
    requires
        n <= cases.len(),
    ensures
        passed_upto(cases, n) <= n,
    decreases n,
{
    if n > 0 {
        lemma_passed_bounded(cases, (n - 1) as nat);
    }
}

/// The `test` report: how many cases passed and failed; a run that found no
/// test at all is an error.
pub fn test_output_from(
    manifest: String,
    packages: Vec<String>,
    cases: Vec<TestCaseResult>,
    duration_ms: u64,
) -> (r: Result<TestOutput, Diagnostic>)
    ensures
        r is Ok <==> cases@.len() > 0,
        r matches Ok(o) ==> {
            &&& o.passed == passed_upto(cases@, cases@.len())
            &&& o.passed + o.failed == cases@.len()
            &&& o.skipped == 0
            &&& o.cases@ == cases@
            &&& o.packages@ == packages@
            &&& o.manifest@ == manifest@
            &&& o.duration_ms == duration_ms
        },
        r matches Err(d) ==> d.kind@ == "test"@,
{
    if cases.len() == 0 {
        return Err(
            Diagnostic::new(
                "test",
                String::from_str(
                    "no tests discovered under src/**/*_test.ax across the workspace and no [[tests]] configured in axiom.toml",
                ),
            ).with_path(manifest),
        );
    }
    let mut passed: usize = 0;
    let mut i: usize = 0;
    while i < cases.len()
        invariant
            i <= cases@.len(),
            passed == passed_upto(cases@, i as nat),
        decreases cases@.len() - i,
    {
        proof {
            lemma_passed_bounded(cases@, (i + 1) as nat);
        }
        if cases[i].ok {
            passed = passed + 1;
        }
        i = i + 1;
    }
    proof {
        lemma_passed_bounded(cases@, cases@.len());
    }
    let failed = cases.len() - passed;
    Ok(TestOutput { manifest, packages, cases, passed, failed, skipped: 0, duration_ms })
}

// ----- Tests -------------------------------------------------------------------------

/// Why a test run failed, given how its binary ended and what it printed: a
/// non-zero exit, or output other than the expected one. `None` means it passed.
pub open spec fn test_failure_message(
    name: Seq<char>,
    success: bool,
    exit_code: Option<i32>,
    stdout: Seq<char>,
    expected: Option<Seq<char>>,
) -> Option<Seq<char>> {
    if !success {
        Some(
            "test "@ + crate::text::debug_quoted(name) + " exited with status "@
                + crate::text::signed_decimal(
                match exit_code {
                    Some(c) => c as int,
                    None => 1,
                },
            ),
        )
    } else {
        match expected {
            Some(e) => if stdout != e {
                Some("test "@ + crate::text::debug_quoted(name) + " stdout did not match expected output"@)
            } else {
                None
            },
            None => None,
        }
    }
}

/// Judges one test run.
pub fn test_run_error(
    name: &String,
    entry_path: &String,
    success: bool,
    exit_code: Option<i32>,
    stdout: &String,
    expected: &Option<String>,
) -> (r: Option<Diagnostic>)
    ensures
        r is Some <==> test_failure_message(
            name@,
            success,
            exit_code,
            stdout@,
            match expected {
                Some(e) => Some(e@),
                None => None,
            },
        ) is Some,
        r matches Some(d) ==> d.kind@ == "test"@ && Some(d.message@) == test_failure_message(
            name@,
            success,
            exit_code,
            stdout@,
            match expected {
                Some(e) => Some(e@),
                None => None,
            },
        ) && d.path == Some(*entry_path),
{
    if !success {
        let code: i64 = match exit_code {
            Some(c) => c as i64,
            None => 1,
        };
        let msg = crate::text::cat4(
            "test ",
            debug_string(name.as_str()).as_str(),
            " exited with status ",
            crate::text::i64_to_string(code).as_str(),
        );
        return Some(Diagnostic::new("test", msg).with_path(entry_path.clone()));
    }
    match expected {
        Some(e) => {
            if *stdout != *e {
                let msg = cat3(
                    "test ",
                    debug_string(name.as_str()).as_str(),
                    " stdout did not match expected output",
                );
                Some(Diagnostic::new("test", msg).with_path(entry_path.clone()))
            } else {
                None
            }
        },
        None => None,
    }
}

/// A test name as it appears in artifact names: lower-case letters and
/// digits, runs of anything else turned into one dash, no dash at either end,
/// and `test` where nothing is left.
pub fn slugify_test_name(value: &str) -> (s: String)
    ensures
        dash_slug(value@, "test"@, s@),
{
    dash_slug_or(value, "test")
}

/// The base name of a test's artifacts: the package name, a dash, and the
/// slugified test name.
pub fn test_artifact_name(manifest: &Manifest, test_name: &str) -> (s: String)
    ensures
        exists|slug: Seq<char>|
            dash_slug(test_name@, "test"@, slug) && s@ == manifest.package.name@ + "-"@ + slug,
{
    let slug = slugify_test_name(test_name);
    cat3(manifest.package.name.as_str(), "-", slug.as_str())
}

/// Where a test's generated Rust goes: `<out_dir>/tests/<artifact>.generated.rs`.
pub fn test_generated_rust_path(project_root: &str, manifest: &Manifest, test_name: &str) -> (p: String)
    ensures
        exists|slug: Seq<char>|
            dash_slug(test_name@, "test"@, slug) && p@ == joined(
                joined(joined(project_root@, manifest.build.out_dir@), "tests"@),
                manifest.package.name@ + "-"@ + slug + ".generated.rs"@,
            ),
{
    let dir = join_path(out_dir_path(project_root, manifest).as_str(), "tests");
    let artifact = test_artifact_name(manifest, test_name);
    let file = cat(artifact.as_str(), ".generated.rs");
    let p = join_path(dir.as_str(), file.as_str());
    proof {
        let slug = choose|slug: Seq<char>|
            dash_slug(test_name@, "test"@, slug) && artifact@ == manifest.package.name@ + "-"@ + slug;
        assert(file@ == manifest.package.name@ + "-"@ + slug + ".generated.rs"@);
    }
    p
}

/// Where a test's binary goes: `<out_dir>/tests/<artifact><suffix>`.
pub fn test_binary_path(project_root: &str, manifest: &Manifest, test_name: &str, suffix: &str) -> (p: String)
    ensures
        exists|slug: Seq<char>|
            dash_slug(test_name@, "test"@, slug) && p@ == joined(
                joined(joined(project_root@, manifest.build.out_dir@), "tests"@),
                manifest.package.name@ + "-"@ + slug + suffix@,
            ),
{
    let dir = join_path(out_dir_path(project_root, manifest).as_str(), "tests");
    let artifact = test_artifact_name(manifest, test_name);
    let file = cat(artifact.as_str(), suffix);
    let p = join_path(dir.as_str(), file.as_str());
    proof {
        let slug = choose|slug: Seq<char>|
            dash_slug(test_name@, "test"@, slug) && artifact@ == manifest.package.name@ + "-"@ + slug;
        assert(file@ == manifest.package.name@ + "-"@ + slug + suffix@);
    }
    p
}

pub open spec fn contains_text(hay: Seq<char>, needle: Seq<char>) -> bool {
    exists|i: int| 0 <= i <= hay.len() - needle.len() && #[trigger] hay.subrange(i, i + needle.len()) == needle
}

fn string_contains(hay: &String, needle: &str) -> (b: bool)
    ensures
        b == contains_text(hay@, needle@),
{
    let h = crate::text::chars_of_string(hay);
    let n = chars_of(needle);
    if n.len() > h.len() {
        return false;
    }
    let mut i: usize = 0;
    while i <= h.len() - n.len()
        invariant
            h@ == hay@,
            n@ == needle@,
            n@.len() <= h@.len(),
            i <= h@.len() - n@.len(),
            forall|j: int| 0 <= j < i ==> #[trigger] h@.subrange(j, j + n@.len()) != n@,
        decreases h@.len() - n@.len() + 1 - i,
    {
        if crate::text::range_starts_with(&h, i, h.len(), &n) {
            return true;
        }
        if i == h.len() - n.len() {
            return false;
        }
        i = i + 1;
    }
    false
}

/// Whether `--filter` selects a test: the filter occurs in its name or its entry.
pub fn test_matches_filter(test: &TestTarget, filter: &str) -> (b: bool)
    ensures
        b == (contains_text(test.name@, filter@) || contains_text(test.entry@, filter@)),
{
    string_contains(&test.name, filter) || string_contains(&test.entry, filter)
}

fn clone_test(t: &TestTarget) -> (r: TestTarget)
    ensures
        r == *t,
{
    TestTarget {
        name: t.name.clone(),
        entry: t.entry.clone(),
        stdout: match &t.stdout {
            Some(s) => Some(s.clone()),
            None => None,
        },
    }
}

pub open spec fn entries_of(ts: Seq<TestTarget>) -> Seq<Seq<char>> {
    ts.map_values(|t: TestTarget| t.entry@)
}

/// The configured tests, then each discovered test whose entry no earlier
/// test has.
pub open spec fn merged_targets(configured: Seq<TestTarget>, discovered: Seq<TestTarget>) -> Seq<TestTarget>
    decreases discovered.len(),
{
    if discovered.len() == 0 {
        configured
    } else {
        let m = merged_targets(configured, discovered.drop_last());
        if entries_of(m).contains(discovered.last().entry@) {
            m
        } else {
            m.push(discovered.last())
        }
    }
}

/// Whether `--filter f` selects the test.
pub open spec fn selected_by(f: Seq<char>) -> spec_fn(TestTarget) -> bool {
    |t: TestTarget| contains_text(t.name@, f) || contains_text(t.entry@, f)
}

fn entry_seen(tests: &Vec<TestTarget>, entry: &String) -> (b: bool)
    ensures
        b == entries_of(tests@).contains(entry@),
{
    let mut i: usize = 0;
    while i < tests.len()
        invariant
            i <= tests@.len(),
            forall|j: int| 0 <= j < i ==> entries_of(tests@)[j] != entry@,
        decreases tests@.len() - i,
    {
        if tests[i].entry == *entry {
            assert(entries_of(tests@)[i as int] == entry@);
            return true;
        }
        i = i + 1;
    }
    false
}

/// The tests a run covers: those the manifest lists, then those discovered on
/// disk whose entry no earlier test has, kept only where `filter` selects them.
pub fn merge_test_targets(
    configured: &Vec<TestTarget>,
    discovered: &Vec<TestTarget>,
    filter: Option<&str>,
) -> (tests: Vec<TestTarget>)
    ensures
        tests@ == match filter {
            Some(f) => merged_targets(configured@, discovered@).filter(selected_by(f@)),
            None => merged_targets(configured@, discovered@),
        },
{
    let mut all: Vec<TestTarget> = Vec::new();
    let mut i: usize = 0;
    while i < configured.len()
        invariant
            i <= configured@.len(),
            all@ == configured@.take(i as int),
        decreases configured@.len() - i,
    {
        all.push(clone_test(&configured[i]));
        proof {
            assert(all@ =~= configured@.take(i + 1));
        }
        i = i + 1;
    }
    proof {
        assert(configured@.take(configured@.len() as int) =~= configured@);
        assert(discovered@.take(0) =~= Seq::<TestTarget>::empty());
    }
    let mut k: usize = 0;
    while k < discovered.len()
        invariant
            k <= discovered@.len(),
            all@ == merged_targets(configured@, discovered@.take(k as int)),
        decreases discovered@.len() - k,
    {
        proof {
            assert(discovered@.take(k + 1).drop_last() =~= discovered@.take(k as int));
            assert(discovered@.take(k + 1).last() == discovered@[k as int]);
        }
        if !entry_seen(&all, &discovered[k].entry) {
            all.push(clone_test(&discovered[k]));
        }
        k = k + 1;
    }
    proof {
        assert(discovered@.take(discovered@.len() as int) =~= discovered@);
    }
    match filter {
        None => all,
        Some(f) => {
            let ghost pred = selected_by(f@);
            let mut kept: Vec<TestTarget> = Vec::new();
            let mut j: usize = 0;
            proof {
                reveal(Seq::filter);
                assert(all@.take(0) =~= Seq::<TestTarget>::empty());
            }
            while j < all.len()
                invariant
                    j <= all@.len(),
                    pred == selected_by(f@),
                    kept@ == all@.take(j as int).filter(pred),
                decreases all@.len() - j,
            {
                proof {
                    reveal(Seq::filter);
                    assert(all@.take(j + 1).drop_last() =~= all@.take(j as int));
                    assert(all@.take(j + 1).last() == all@[j as int]);
                }
                if test_matches_filter(&all[j], f) {
                    kept.push(clone_test(&all[j]));
                }
                j = j + 1;
            }
            proof {
                assert(all@.take(all@.len() as int) =~= all@);
            }
            kept
        },
    }
}

} // verus!
