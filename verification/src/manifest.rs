//! The package manifest (`axiom.toml`): its model, the capability flags that
//! gate host intrinsics, and the paths a package derives from it.
use vstd::prelude::*;
use crate::diagnostics::Diagnostic;
use crate::text::{cat, string_of_chars};

verus! {

/// The manifest's file name.
pub const MANIFEST_FILENAME: &'static str = "axiom.toml";

/// The lockfile's file name.
pub const LOCK_FILENAME: &'static str = "axiom.lock";

#[derive(Debug, Clone, PartialEq, Eq)]
pub struct Manifest {
    pub package: PackageSection,
    /// Dependencies by name, in ascending name order (`keys_ascending`).
    pub dependencies: Vec<(String, DependencySpec)>,
    pub workspace: Option<WorkspaceSection>,
    pub build: BuildSection,
    pub tests: Vec<TestTarget>,
    pub capabilities: CapabilityConfig,
}

#[derive(Debug, Clone, PartialEq, Eq)]
pub struct PackageSection {
    pub name: String,
    pub version: String,
}

#[derive(Debug, Clone, PartialEq, Eq)]
pub struct WorkspaceSection {
    pub members: Vec<String>,
}

#[derive(Debug, Clone, PartialEq, Eq)]
pub struct BuildSection {
    pub entry: String,
    pub out_dir: String,
}

#[derive(Debug, Clone, PartialEq, Eq)]
pub struct DependencySpec {
    pub path: String,
}

#[derive(Debug, Clone, PartialEq, Eq)]
pub struct TestTarget {
    pub name: String,
    pub entry: String,
    pub stdout: Option<String>,
}

/// Which host capabilities a package may use; all are off unless the manifest enables them.
#[derive(Debug, Clone, Copy, PartialEq, Eq)]
pub struct CapabilityConfig {
    pub fs: bool,
    pub net: bool,
    pub process: bool,
    pub env: bool,
    pub clock: bool,
    pub crypto: bool,
}

impl Default for CapabilityConfig {
    fn default() -> (c: CapabilityConfig)
        ensures
            !c.fs && !c.net && !c.process && !c.env && !c.clock && !c.crypto,
    {
        CapabilityConfig {
            fs: false,
            net: false,
            process: false,
            env: false,
            clock: false,
            crypto: false,
        }
    }
}

#[derive(Debug, Clone, Copy, PartialEq, Eq)]
pub enum CapabilityKind {
    Fs,
    Net,
    Process,
    Env,
    Clock,
    Crypto,
}

/// One capability as the `caps` report lists it.
#[derive(Debug, Clone, PartialEq, Eq)]
pub struct CapabilityDescriptor {
    pub name: String,
    pub enabled: bool,
    pub description: &'static str,
}

/// The capabilities in the order in which reports list them.
pub open spec fn known_capability(i: int) -> CapabilityKind {
    if i == 0 {
        CapabilityKind::Fs
    } else if i == 1 {
        CapabilityKind::Net
    } else if i == 2 {
        CapabilityKind::Process
    } else if i == 3 {
        CapabilityKind::Env
    } else if i == 4 {
        CapabilityKind::Clock
    } else {
        CapabilityKind::Crypto
    }
}

impl CapabilityConfig {
    pub open spec fn spec_enabled(&self, kind: CapabilityKind) -> bool {
        match kind {
            CapabilityKind::Fs => self.fs,
            CapabilityKind::Net => self.net,
            CapabilityKind::Process => self.process,
            CapabilityKind::Env => self.env,
            CapabilityKind::Clock => self.clock,
            CapabilityKind::Crypto => self.crypto,
        }
    }

    /// Whether the manifest grants `kind`.
    pub fn enabled(&self, kind: CapabilityKind) -> (b: bool)
        ensures
            b == self.spec_enabled(kind),
    {
        match kind {
            CapabilityKind::Fs => self.fs,
            CapabilityKind::Net => self.net,
            CapabilityKind::Process => self.process,
            CapabilityKind::Env => self.env,
            CapabilityKind::Clock => self.clock,
            CapabilityKind::Crypto => self.crypto,
        }
    }
}

impl CapabilityKind {
    pub open spec fn spec_name(self) -> Seq<char> {
        match self {
            CapabilityKind::Fs => "fs"@,
            CapabilityKind::Net => "net"@,
            CapabilityKind::Process => "process"@,
            CapabilityKind::Env => "env"@,
            CapabilityKind::Clock => "clock"@,
            CapabilityKind::Crypto => "crypto"@,
        }
    }

    pub open spec fn spec_description(self) -> Seq<char> {
        match self {
            CapabilityKind::Fs => "filesystem access"@,
            CapabilityKind::Net => "network access"@,
            CapabilityKind::Process => "child process execution"@,
            CapabilityKind::Env => "environment variable access"@,
            CapabilityKind::Clock => "wall-clock time access"@,
            CapabilityKind::Crypto => "hashing and cryptography primitives"@,
        }
    }

    /// The capability's key in the `[capabilities]` table.
    pub fn name(self) -> (s: &'static str)
        ensures
            s@ == self.spec_name(),
    {
        match self {
            CapabilityKind::Fs => "fs",
            CapabilityKind::Net => "net",
            CapabilityKind::Process => "process",
            CapabilityKind::Env => "env",
            CapabilityKind::Clock => "clock",
            CapabilityKind::Crypto => "crypto",
        }
    }

    /// A short description of what the capability grants.
    pub fn description(self) -> (s: &'static str)
        ensures
            s@ == self.spec_description(),
    {
        match self {
            CapabilityKind::Fs => "filesystem access",
            CapabilityKind::Net => "network access",
            CapabilityKind::Process => "child process execution",
            CapabilityKind::Env => "environment variable access",
            CapabilityKind::Clock => "wall-clock time access",
            CapabilityKind::Crypto => "hashing and cryptography primitives",
        }
    }
}

/// The known capabilities, in report order.
pub fn known_capabilities() -> (v: Vec<CapabilityKind>)
    ensures
        v@.len() == 6,
        forall|i: int| 0 <= i < 6 ==> v@[i] == known_capability(i),
{
    vec![
        CapabilityKind::Fs,
        CapabilityKind::Net,
        CapabilityKind::Process,
        CapabilityKind::Env,
        CapabilityKind::Clock,
        CapabilityKind::Crypto,
    ]
}

/// One descriptor per known capability, in report order, saying whether `config` grants it.
pub fn capability_descriptors(config: &CapabilityConfig) -> (v: Vec<CapabilityDescriptor>)
    ensures
        v@.len() == 6,
        forall|i: int|
            0 <= i < 6 ==> (#[trigger] v@[i]).name@ == known_capability(i).spec_name()
                && v@[i].enabled == config.spec_enabled(known_capability(i))
                && v@[i].description@ == known_capability(i).spec_description(),
{
    let kinds = known_capabilities();
    let mut out: Vec<CapabilityDescriptor> = Vec::new();
    let mut i: usize = 0;
    while i < kinds.len()
        invariant
            kinds@.len() == 6,
            forall|j: int| 0 <= j < 6 ==> kinds@[j] == known_capability(j),
            i <= 6,
            out@.len() == i,
            forall|j: int|
                0 <= j < i ==> (#[trigger] out@[j]).name@ == known_capability(j).spec_name()
                    && out@[j].enabled == config.spec_enabled(known_capability(j))
                    && out@[j].description@ == known_capability(j).spec_description(),
        decreases 6 - i,
    {
        let kind = kinds[i];
        out.push(
            CapabilityDescriptor {
                name: String::from_str(kind.name()),
                enabled: config.enabled(kind),
                description: kind.description(),
            },
        );
        i = i + 1;
    }
    out
}

/// The manifest that `axiomc new` writes for a package called `name`.
pub fn render_manifest(name: &str) -> (s: String)
    ensures
        s@ == "[package]\nname = "@ + crate::text::debug_quoted(name@)
            + "\nversion = \"0.1.0\"\n\n[build]\nentry = \"src/main.ax\"\nout_dir = \"dist\"\n\n[capabilities]\nfs = false\nnet = false\nprocess = false\nenv = false\nclock = false\ncrypto = false\n"@,
{
    let quoted = crate::text::debug_string(name);
    String::from_str("[package]\nname = ").concat(quoted.as_str()).concat(
        "\nversion = \"0.1.0\"\n\n[build]\nentry = \"src/main.ax\"\nout_dir = \"dist\"\n\n[capabilities]\nfs = false\nnet = false\nprocess = false\nenv = false\nclock = false\ncrypto = false\n",
    )
}

/// `root` joined with `child` by one `/`, as a relative path is appended to a directory.
pub open spec fn joined(root: Seq<char>, child: Seq<char>) -> Seq<char> {
    if root.len() == 0 {
        child
    } else if root.last() == '/' {
        root + child
    } else {
        root + seq!['/'] + child
    }
}

/// Joins a relative path onto a directory path.
pub fn join_path(root: &str, child: &str) -> (p: String)
    ensures
        p@ == joined(root@, child@),
{
    let r = String::from_str(root);
    let n = root.unicode_len();
    if n == 0 {
        String::from_str(child)
    } else if root.get_char(n - 1) == '/' {
        r.concat(child)
    } else {
        let slash = string_of_chars(&vec!['/']);
        proof {
            assert(slash@ == seq!['/']);
        }
        r.concat(slash.as_str()).concat(child)
    }
}

/// Where a package's manifest lives.
pub fn manifest_path(project_root: &str) -> (p: String)
    ensures
        p@ == joined(project_root@, MANIFEST_FILENAME@),
{
    join_path(project_root, MANIFEST_FILENAME)
}

/// Where a package's lockfile lives.
pub fn lockfile_path(project_root: &str) -> (p: String)
    ensures
        p@ == joined(project_root@, LOCK_FILENAME@),
{
    join_path(project_root, LOCK_FILENAME)
}

/// The entry source file of a package.
pub fn entry_path(project_root: &str, manifest: &Manifest) -> (p: String)
    ensures
        p@ == joined(project_root@, manifest.build.entry@),
{
    join_path(project_root, manifest.build.entry.as_str())
}

/// The output directory of a package.
pub fn out_dir_path(project_root: &str, manifest: &Manifest) -> (p: String)
    ensures
        p@ == joined(project_root@, manifest.build.out_dir@),
{
    join_path(project_root, manifest.build.out_dir.as_str())
}

/// The native binary a build writes: the package name in the output directory,
/// with `suffix` (`.exe` on Windows, empty elsewhere) after it.
pub fn binary_path(project_root: &str, manifest: &Manifest, suffix: &str) -> (p: String)
    ensures
        p@ == joined(joined(project_root@, manifest.build.out_dir@), manifest.package.name@ + suffix@),
{
    let out = out_dir_path(project_root, manifest);
    let file = manifest.package.name.clone().concat(suffix);
    join_path(out.as_str(), file.as_str())
}

/// The generated Rust source a build writes next to the binary.
pub fn generated_rust_path(project_root: &str, manifest: &Manifest) -> (p: String)
    ensures
        p@ == joined(
            joined(project_root@, manifest.build.out_dir@),
            manifest.package.name@ + ".generated.rs"@,
        ),
{
    let out = out_dir_path(project_root, manifest);
    let file = manifest.package.name.clone().concat(".generated.rs");
    join_path(out.as_str(), file.as_str())
}

// ----- Reading a manifest ---------------------------------------------------------------

/// A manifest as written, before its rules are checked: every field may be missing.
#[derive(Debug, Clone, PartialEq, Eq)]
pub struct RawManifest {
    pub package: Option<RawPackageSection>,
    /// The `[dependencies]` table in ascending key order.
    pub dependencies: Option<Vec<(String, RawDependencySpec)>>,
    pub workspace: Option<RawWorkspaceSection>,
    pub build: Option<RawBuildSection>,
    pub tests: Option<Vec<RawTestTarget>>,
    pub capabilities: Option<RawCapabilityConfig>,
}

#[derive(Debug, Clone, PartialEq, Eq)]
pub struct RawPackageSection {
    pub name: Option<String>,
    pub version: Option<String>,
}

#[derive(Debug, Clone, PartialEq, Eq)]
pub struct RawWorkspaceSection {
    pub members: Option<Vec<String>>,
}

#[derive(Debug, Clone, PartialEq, Eq)]
pub struct RawBuildSection {
    pub entry: Option<String>,
    pub out_dir: Option<String>,
}

/// A dependency written as a bare path, or as a table with a `path` key.
#[derive(Debug, Clone, PartialEq, Eq)]
pub enum RawDependencySpec {
    Path(String),
    Detailed { path: Option<String> },
}

#[derive(Debug, Clone, PartialEq, Eq)]
pub struct RawTestTarget {
    pub name: Option<String>,
    pub entry: Option<String>,
    pub stdout: Option<String>,
}

#[derive(Debug, Clone, Copy, PartialEq, Eq)]
pub struct RawCapabilityConfig {
    pub fs: Option<bool>,
    pub net: Option<bool>,
    pub process: Option<bool>,
    pub env: Option<bool>,
    pub clock: Option<bool>,
    pub crypto: Option<bool>,
}

/// A text that is not empty once surrounding whitespace is dropped.
pub open spec fn filled(s: Seq<char>) -> bool {
    exists|k: int| 0 <= k < s.len() && !crate::text::is_ws(#[trigger] s[k])
}

/// A path that stays below the manifest's directory: not absolute, and with
/// no `..` component.
pub open spec fn relative_inside(s: Seq<char>) -> bool {
    &&& !(s.len() > 0 && s[0] == '/')
    &&& !exists|i: int| 0 <= i <= s.len() - 2 && #[trigger] s.subrange(i, i + 2) == ".."@ && (i == 0 || s[i - 1] == '/') && (i + 2 == s.len() || s[i + 2] == '/')
}

fn manifest_error(msg: String, path: &str) -> (d: Diagnostic)
    ensures
        d.kind@ == "manifest"@,
{
    Diagnostic::new("manifest", msg).with_path(String::from_str(path))
}

fn is_filled(s: &String) -> (b: bool)
    ensures
        b == filled(s@),
{
    let t = crate::text::chars_of_string(s);
    let mut i: usize = 0;
    while i < t.len()
        invariant
            i <= t@.len(),
            t@ == s@,
            forall|k: int| 0 <= k < i ==> crate::text::is_ws(#[trigger] t@[k]),
        decreases t@.len() - i,
    {
        if !crate::text::is_whitespace(t[i]) {
            proof {
                assert(!crate::text::is_ws(s@[i as int]));
            }
            return true;
        }
        i = i + 1;
    }
    false
}

/// A field that must be present and not blank.
fn required_field(value: &Option<String>, path: &str, field_name: &str) -> (r: Result<String, Diagnostic>)
    ensures
        r matches Ok(v) ==> value == Some(v) && filled(v@),
        r is Ok <==> (value matches Some(v) && filled(v@)),
        r matches Err(d) ==> d.kind@ == "manifest"@,
{
    match value {
        Some(v) => {
            if is_filled(v) {
                return Ok(v.clone());
            }
        },
        None => {},
    }
    Err(manifest_error(cat("missing or empty ", field_name), path))
}

fn parent_dot_dot_at(t: &Vec<char>, i: usize) -> (b: bool)
    requires
        t@.len() >= 2,
        i <= t@.len() - 2,
    ensures
        b == (t@.subrange(i as int, i + 2) == ".."@ && (i == 0 || t@[i - 1] == '/') && (i + 2 == t@.len()
            || t@[i + 2] == '/')),
{
    proof {
        reveal_strlit("..");
    }
    let n = t.len();
    let j = i + 1;
    let dots = t[i] == '.' && t[j] == '.';
    proof {
        if dots {
            assert(t@.subrange(i as int, i + 2) =~= ".."@);
        } else {
            assert(t@.subrange(i as int, i + 2)[0] == t@[i as int]);
            assert(t@.subrange(i as int, i + 2)[1] == t@[i + 1]);
        }
    }
    dots && (i == 0 || t[i - 1] == '/') && (j + 1 == n || t[j + 1] == '/')
}

/// A relative path field: neither absolute nor climbing out with `..`.
fn validate_relative_path(path: &str, field_name: &str, value: &String) -> (r: Result<(), Diagnostic>)
    ensures
        r is Ok <==> relative_inside(value@),
        r matches Err(d) ==> d.kind@ == "manifest"@,
{
    let t = crate::text::chars_of_string(value);
    if t.len() > 0 && t[0] == '/' {
        return Err(manifest_error(cat(field_name, " must be relative"), path));
    }
    if t.len() < 2 {
        return Ok(());
    }
    let mut i: usize = 0;
    while i <= t.len() - 2
        invariant
            t@ == value@,
            t@.len() >= 2,
            forall|j: int|
                0 <= j < i && j <= t@.len() - 2 ==> !(#[trigger] t@.subrange(j, j + 2) == ".."@ && (j == 0 || t@[j - 1]
                    == '/') && (j + 2 == t@.len() || t@[j + 2] == '/')),
        decreases t@.len() - i,
    {
        if parent_dot_dot_at(&t, i) {
            return Err(manifest_error(cat(field_name, " must not use parent traversal"), path));
        }
        i = i + 1;
    }
    Ok(())
}

fn validate_dependency_path(path: &str, field_name: &String, value: &String) -> (r: Result<(), Diagnostic>)
    ensures
        r is Ok <==> !(value@.len() > 0 && value@[0] == '/'),
        r matches Err(d) ==> d.kind@ == "manifest"@,
{
    let t = crate::text::chars_of_string(value);
    if t.len() > 0 && t[0] == '/' {
        return Err(manifest_error(cat(field_name.as_str(), " must be relative"), path));
    }
    Ok(())
}

fn indexed(prefix: &str, index: usize, suffix: &str) -> (s: String)
    ensures
        s@ == prefix@ + "["@ + crate::text::decimal(index as nat) + "]"@ + suffix@,
{
    crate::text::cat4(prefix, "[", crate::text::usize_to_string(index).as_str(), "]").concat(suffix)
}

fn names_contain_text(names: &Vec<String>, name: &String) -> (b: bool)
    ensures
        b == exists|j: int| 0 <= j < names@.len() && (#[trigger] names@[j])@ == name@,
{
    let mut i: usize = 0;
    while i < names.len()
        invariant
            i <= names@.len(),
            forall|j: int| 0 <= j < i ==> (#[trigger] names@[j])@ != name@,
        decreases names@.len() - i,
    {
        if names[i] == *name {
            return true;
        }
        i = i + 1;
    }
    false
}

/// A field that is present and not blank.
pub open spec fn present_filled(v: Option<String>) -> bool {
    v matches Some(x) && filled(x@)
}

/// The members a `[workspace]` section lists.
pub open spec fn listed_members(w: RawWorkspaceSection) -> Seq<String> {
    match w.members {
        Some(m) => m@,
        None => Seq::empty(),
    }
}

/// Every listed workspace member is a relative path inside the workspace,
/// listed once.
pub open spec fn workspace_valid(raw: Option<RawWorkspaceSection>) -> bool {
    match raw {
        None => true,
        Some(w) => {
            &&& forall|i: int|
                0 <= i < listed_members(w).len() ==> filled((#[trigger] listed_members(w)[i])@)
                    && relative_inside(listed_members(w)[i]@)
            &&& forall|a: int, b: int|
                0 <= a < b < listed_members(w).len() ==> (#[trigger] listed_members(w)[a])@ != (
                #[trigger] listed_members(w)[b])@
        },
    }
}

/// The path a dependency names, if it names one.
pub open spec fn dependency_path(d: RawDependencySpec) -> Option<String> {
    match d {
        RawDependencySpec::Path(v) => Some(v),
        RawDependencySpec::Detailed { path } => path,
    }
}

/// A dependency with a name that is not blank and a path that is not
/// absolute; a table must give a path that is not blank.
pub open spec fn dependency_valid(d: (String, RawDependencySpec)) -> bool {
    &&& filled(d.0@)
    &&& match d.1 {
        RawDependencySpec::Path(_) => true,
        RawDependencySpec::Detailed { path } => present_filled(path),
    }
    &&& dependency_path(d.1) matches Some(p) && !(p@.len() > 0 && p@[0] == '/')
}

/// Each test target has a name and a relative entry, and no name is used twice.
pub open spec fn tests_valid(raw: Seq<RawTestTarget>) -> bool {
    &&& forall|i: int|
        0 <= i < raw.len() ==> present_filled((#[trigger] raw[i]).name) && present_filled(raw[i].entry)
            && relative_inside(raw[i].entry->0@)
    &&& forall|a: int, b: int|
        0 <= a < b < raw.len() ==> (#[trigger] raw[a]).name->0@ != (#[trigger] raw[b]).name->0@
}

/// The rules on `[workspace]`: each member a relative path inside the
/// workspace, listed once.
#[verifier::loop_isolation(false)]
fn normalize_workspace(raw: &Option<RawWorkspaceSection>, path: &str) -> (r: Result<
    Option<WorkspaceSection>,
    Diagnostic,
>)
    ensures
        r is Ok <==> workspace_valid(*raw),
        r matches Err(d) ==> d.kind@ == "manifest"@,
        r matches Ok(o) ==> (o is Some <==> raw is Some),
        r matches Ok(Some(w)) ==> w.members@ == listed_members(raw->0),
{
    let ghost raw0 = *raw;
    let raw = match raw {
        None => return Ok(None),
        Some(w) => w,
    };
    let empty: Vec<String> = Vec::new();
    let listed = match &raw.members {
        Some(m) => m,
        None => &empty,
    };
    let ghost lm = listed_members(raw0->0);
    assert(listed@ == lm);
    let mut members: Vec<String> = Vec::new();
    let mut i: usize = 0;
    while i < listed.len()
        invariant
            i <= listed@.len(),
            listed@ == lm,
            lm == listed_members(raw0->0),
            members@ == lm.subrange(0, i as int),
            forall|a: int, b: int|
                0 <= a < b < members@.len() ==> (#[trigger] members@[a])@ != (#[trigger] members@[b])@,
            forall|a: int|
                0 <= a < members@.len() ==> filled((#[trigger] members@[a])@) && relative_inside(members@[a]@),
        decreases listed@.len() - i,
    {
        let field_name = indexed("workspace.members", i, "");
        let member = match required_field(&Some(listed[i].clone()), path, field_name.as_str()) {
            Ok(m) => m,
            Err(d) => {
                proof {
                    assert(!filled(listed_members(raw0->0)[i as int]@));
                }
                return Err(d);
            },
        };
        if let Err(d) = validate_relative_path(path, field_name.as_str(), &member) {
            proof {
                assert(!relative_inside(listed_members(raw0->0)[i as int]@));
            }
            return Err(d);
        }
        if names_contain_text(&members, &member) {
            proof {
                let q = choose|q: int| 0 <= q < members@.len() && (#[trigger] members@[q])@ == member@;
                assert(lm[q]@ == lm[i as int]@);
            }
            return Err(
                manifest_error(
                    cat("duplicate workspace member ", crate::text::debug_string(member.as_str()).as_str()),
                    path,
                ),
            );
        }
        members.push(member);
        assert(members@ =~= lm.subrange(0, i + 1));
        i = i + 1;
    }
    assert(members@ =~= lm);
    Ok(Some(WorkspaceSection { members }))
}

/// The rules on `[dependencies]`: each name not blank, each path present and
/// not absolute.
fn normalize_dependencies(raw: &Vec<(String, RawDependencySpec)>, path: &str) -> (r: Result<
    Vec<(String, DependencySpec)>,
    Diagnostic,
>)
    ensures
        r is Ok <==> forall|i: int| 0 <= i < raw@.len() ==> dependency_valid(#[trigger] raw@[i]),
        r matches Err(d) ==> d.kind@ == "manifest"@,
        r matches Ok(v) ==> v@.len() == raw@.len() && forall|i: int|
            0 <= i < v@.len() ==> (#[trigger] v@[i]).0@ == raw@[i].0@ && v@[i].1.path@ == dependency_path(
                raw@[i].1,
            )->0@,
{
    let mut out: Vec<(String, DependencySpec)> = Vec::new();
    let mut i: usize = 0;
    while i < raw.len()
        invariant
            i <= raw@.len(),
            out@.len() == i,
            forall|j: int| 0 <= j < i ==> dependency_valid(#[trigger] raw@[j]),
            forall|j: int|
                0 <= j < i ==> (#[trigger] out@[j]).0@ == raw@[j].0@ && out@[j].1.path@ == dependency_path(
                    raw@[j].1,
                )->0@,
        decreases raw@.len() - i,
    {
        let name = &raw[i].0;
        if !is_filled(name) {
            return Err(manifest_error(String::from_str("dependency names must not be empty"), path));
        }
        let field_name = crate::text::cat3("dependencies.", name.as_str(), ".path");
        let dep_path = match &raw[i].1 {
            RawDependencySpec::Path(v) => v.clone(),
            RawDependencySpec::Detailed { path: p } => match required_field(p, path, field_name.as_str()) {
                Ok(v) => v,
                Err(d) => return Err(d),
            },
        };
        if let Err(d) = validate_dependency_path(path, &field_name, &dep_path) {
            return Err(d);
        }
        out.push((name.clone(), DependencySpec { path: dep_path }));
        i = i + 1;
    }
    Ok(out)
}

/// The rules on `[[tests]]`: each test named, once, with a relative entry.
fn normalize_tests(raw: &Vec<RawTestTarget>, path: &str) -> (r: Result<Vec<TestTarget>, Diagnostic>)
    ensures
        r is Ok <==> tests_valid(raw@),
        r matches Err(d) ==> d.kind@ == "manifest"@,
        r matches Ok(v) ==> v@.len() == raw@.len(),
        r matches Ok(v) ==> forall|i: int|
            0 <= i < v@.len() ==> (#[trigger] v@[i]).name@ == raw@[i].name->0@ && v@[i].entry@
                == raw@[i].entry->0@ && v@[i].stdout == raw@[i].stdout,
        r matches Ok(v) ==> forall|i: int, j: int|
            0 <= i < j < v@.len() ==> (#[trigger] v@[i]).name@ != (#[trigger] v@[j]).name@,
        r matches Ok(v) ==> forall|i: int| 0 <= i < v@.len() ==> relative_inside((#[trigger] v@[i]).entry@),
{
    let mut tests: Vec<TestTarget> = Vec::new();
    let mut names: Vec<String> = Vec::new();
    let mut i: usize = 0;
    while i < raw.len()
        invariant
            i <= raw@.len(),
            tests@.len() == i,
            names@.len() == i,
            forall|j: int| 0 <= j < i ==> (#[trigger] names@[j])@ == tests@[j].name@,
            forall|a: int, b: int|
                0 <= a < b < tests@.len() ==> (#[trigger] tests@[a]).name@ != (#[trigger] tests@[b]).name@,
            forall|j: int| 0 <= j < i ==> relative_inside((#[trigger] tests@[j]).entry@),
            forall|j: int|
                0 <= j < i ==> (#[trigger] tests@[j]).name@ == raw@[j].name->0@ && tests@[j].entry@
                    == raw@[j].entry->0@ && tests@[j].stdout == raw@[j].stdout,
            forall|j: int|
                0 <= j < i ==> present_filled((#[trigger] raw@[j]).name) && present_filled(raw@[j].entry)
                    && relative_inside(raw@[j].entry->0@),
        decreases raw@.len() - i,
    {
        let t = &raw[i];
        let name = match required_field(&t.name, path, indexed("tests", i, ".name").as_str()) {
            Ok(v) => v,
            Err(d) => return Err(d),
        };
        if names_contain_text(&names, &name) {
            proof {
                let q = choose|q: int| 0 <= q < names@.len() && (#[trigger] names@[q])@ == name@;
                assert(raw@[q].name->0@ == raw@[i as int].name->0@);
            }
            return Err(
                manifest_error(
                    cat("duplicate test target ", crate::text::debug_string(name.as_str()).as_str()),
                    path,
                ),
            );
        }
        let entry = match required_field(&t.entry, path, indexed("tests", i, ".entry").as_str()) {
            Ok(v) => v,
            Err(d) => return Err(d),
        };
        if let Err(d) = validate_relative_path(path, indexed("tests", i, ".entry").as_str(), &entry) {
            return Err(d);
        }
        let stdout = match &t.stdout {
            Some(s) => Some(s.clone()),
            None => None,
        };
        let ghost before = tests@;
        names.push(name.clone());
        tests.push(TestTarget { name, entry, stdout });
        proof {
            assert forall|a: int, b: int|
                0 <= a < b < tests@.len() implies (#[trigger] tests@[a]).name@ != (#[trigger] tests@[b]).name@ by {
                if b == tests@.len() - 1 {
                    assert(names@[a]@ == tests@[a].name@);
                }
            }
        }
        i = i + 1;
    }
    proof {
        assert forall|a: int, b: int| 0 <= a < b < raw@.len() implies (#[trigger] raw@[a]).name->0@ != (
        #[trigger] raw@[b]).name->0@ by {
            assert(tests@[a].name@ != tests@[b].name@);
        }
    }
    Ok(tests)
}

/// The build entry a manifest gives, or the default where it has no `[build]`.
pub open spec fn build_entry(raw: &RawManifest) -> Option<Seq<char>> {
    match raw.build {
        Some(b) => match b.entry {
            Some(e) => Some(e@),
            None => None,
        },
        None => Some("src/main.ax"@),
    }
}

/// The output directory a manifest gives, or the default where it has no `[build]`.
pub open spec fn build_out_dir(raw: &RawManifest) -> Option<Seq<char>> {
    match raw.build {
        Some(b) => match b.out_dir {
            Some(o) => Some(o@),
            None => None,
        },
        None => Some("dist"@),
    }
}

pub open spec fn raw_dependencies(raw: &RawManifest) -> Seq<(String, RawDependencySpec)> {
    match raw.dependencies {
        Some(d) => d@,
        None => Seq::empty(),
    }
}

pub open spec fn raw_tests(raw: &RawManifest) -> Seq<RawTestTarget> {
    match raw.tests {
        Some(t) => t@,
        None => Seq::empty(),
    }
}

/// The manifest rules: a `[package]` with a name and a version, a build
/// entry and output directory that are given and stay inside the package,
/// and valid dependencies, test targets and workspace members.
pub open spec fn manifest_valid(raw: &RawManifest) -> bool {
    &&& raw.package matches Some(p) && present_filled(p.name) && present_filled(p.version)
    &&& build_entry(raw) matches Some(e) && filled(e) && relative_inside(e)
    &&& build_out_dir(raw) matches Some(o) && filled(o) && relative_inside(o)
    &&& forall|i: int|
        0 <= i < raw_dependencies(raw).len() ==> dependency_valid(#[trigger] raw_dependencies(raw)[i])
    &&& tests_valid(raw_tests(raw))
    &&& workspace_valid(raw.workspace)
}

/// Checks a manifest as written against the manifest rules and fills in the
/// defaults: `[package]` with a name and a version, a `[build]` section whose
/// entry and output directory stay inside the package (by default
/// `src/main.ax` and `dist`), well-formed dependencies, tests and workspace
/// members, and every capability off unless enabled.
/// The names of a name-keyed list ascend strictly, as the keys of a sorted
/// map do, so no name occurs twice.
pub open spec fn keys_ascending<T>(v: Seq<(String, T)>) -> bool {
    forall|i: int, j: int| 0 <= i < j < v.len() ==> crate::hir::chars_lt((#[trigger] v[i]).0@, (#[trigger] v[j]).0@)
}

pub fn normalize_manifest(raw: &RawManifest, path: &str) -> (r: Result<Manifest, Diagnostic>)
    requires
        keys_ascending(raw_dependencies(raw)),
    ensures
        r matches Ok(m) ==> keys_ascending(m.dependencies@),
        r is Ok <==> manifest_valid(raw),
        r matches Err(d) ==> d.kind@ == "manifest"@,
        r matches Ok(m) ==> {
            &&& m.package.name@ == raw.package->0.name->0@
            &&& m.package.version@ == raw.package->0.version->0@
            &&& m.build.entry@ == build_entry(raw)->0
            &&& m.build.out_dir@ == build_out_dir(raw)->0
            &&& m.dependencies@.len() == raw_dependencies(raw).len()
            &&& forall|i: int|
                0 <= i < m.dependencies@.len() ==> (#[trigger] m.dependencies@[i]).0@
                    == raw_dependencies(raw)[i].0@ && m.dependencies@[i].1.path@ == dependency_path(
                    raw_dependencies(raw)[i].1,
                )->0@
            &&& m.tests@.len() == raw_tests(raw).len()
            &&& forall|i: int|
                0 <= i < m.tests@.len() ==> (#[trigger] m.tests@[i]).name@ == raw_tests(raw)[i].name->0@
                    && m.tests@[i].entry@ == raw_tests(raw)[i].entry->0@ && m.tests@[i].stdout
                    == raw_tests(raw)[i].stdout
            &&& (m.workspace is Some <==> raw.workspace is Some)
            &&& m.workspace matches Some(w) ==> w.members@ == listed_members(raw.workspace->0)
            &&& m.capabilities.fs == (raw.capabilities matches Some(c) && c.fs == Some(true))
            &&& m.capabilities.net == (raw.capabilities matches Some(c) && c.net == Some(true))
            &&& m.capabilities.process == (raw.capabilities matches Some(c) && c.process == Some(true))
            &&& m.capabilities.env == (raw.capabilities matches Some(c) && c.env == Some(true))
            &&& m.capabilities.clock == (raw.capabilities matches Some(c) && c.clock == Some(true))
            &&& m.capabilities.crypto == (raw.capabilities matches Some(c) && c.crypto == Some(true))
        },
{
    let package = match &raw.package {
        Some(p) => p,
        None => return Err(manifest_error(String::from_str("missing [package] section"), path)),
    };
    let name = match required_field(&package.name, path, "package.name") {
        Ok(v) => v,
        Err(d) => return Err(d),
    };
    let version = match required_field(&package.version, path, "package.version") {
        Ok(v) => v,
        Err(d) => return Err(d),
    };
    let (raw_entry, raw_out_dir) = match &raw.build {
        Some(b) => (
            match &b.entry {
                Some(e) => Some(e.clone()),
                None => None,
            },
            match &b.out_dir {
                Some(o) => Some(o.clone()),
                None => None,
            },
        ),
        None => (Some(String::from_str("src/main.ax")), Some(String::from_str("dist"))),
    };
    let entry = match required_field(&raw_entry, path, "build.entry") {
        Ok(v) => v,
        Err(d) => return Err(d),
    };
    let out_dir = match required_field(&raw_out_dir, path, "build.out_dir") {
        Ok(v) => v,
        Err(d) => return Err(d),
    };
    if let Err(d) = validate_relative_path(path, "build.entry", &entry) {
        return Err(d);
    }
    if let Err(d) = validate_relative_path(path, "build.out_dir", &out_dir) {
        return Err(d);
    }
    let no_deps: Vec<(String, RawDependencySpec)> = Vec::new();
    let dependencies = match normalize_dependencies(
        match &raw.dependencies {
            Some(d) => d,
            None => &no_deps,
        },
        path,
    ) {
        Ok(v) => v,
        Err(d) => return Err(d),
    };
    let no_tests: Vec<RawTestTarget> = Vec::new();
    let tests = match normalize_tests(
        match &raw.tests {
            Some(t) => t,
            None => &no_tests,
        },
        path,
    ) {
        Ok(v) => v,
        Err(d) => return Err(d),
    };
    let workspace = match normalize_workspace(&raw.workspace, path) {
        Ok(v) => v,
        Err(d) => return Err(d),
    };
    let caps = match raw.capabilities {
        Some(c) => c,
        None => RawCapabilityConfig {
            fs: None,
            net: None,
            process: None,
            env: None,
            clock: None,
            crypto: None,
        },
    };
    Ok(
        Manifest {
            package: PackageSection { name, version },
            dependencies,
            workspace,
            build: BuildSection { entry, out_dir },
            tests,
            capabilities: CapabilityConfig {
                fs: caps.fs == Some(true),
                net: caps.net == Some(true),
                process: caps.process == Some(true),
                env: caps.env == Some(true),
                clock: caps.clock == Some(true),
                crypto: caps.crypto == Some(true),
            },
        },
    )
}

} // verus!
