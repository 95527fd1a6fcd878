//! The static package registry: the index of released versions, the rules a
//! valid index obeys, and how a release directory becomes an index entry.
use vstd::prelude::*;
use crate::diagnostics::Diagnostic;
use crate::hir::clone_strings;
use crate::manifest::{capability_descriptors, known_capabilities, known_capability, CapabilityConfig, CapabilityKind};
use crate::text::{cat, cat3, cat4, cat5, debug_string, is_ws, trim, chars_of, string_from, u64_to_string};

verus! {

#[derive(Debug, Clone, PartialEq, Eq)]
pub struct RegistryIndex {
    pub version: u32,
    /// The releases of each package, by package name in ascending order
    /// (`keys_ascending`).
    pub packages: Vec<(String, Vec<RegistryRelease>)>,
}

#[derive(Debug, Clone, PartialEq, Eq)]
pub struct RegistryCapability {
    pub name: String,
    pub enabled: bool,
    pub description: String,
    pub allowed: Vec<String>,
    pub unsafe_unrestricted: bool,
}

#[derive(Debug, Clone, PartialEq, Eq)]
pub struct RegistryRelease {
    pub version: String,
    pub source: String,
    pub manifest: String,
    pub archive: Option<String>,
    pub signature: Option<String>,
    pub yanked: bool,
    pub yank_reason: Option<String>,
    pub capabilities: Vec<RegistryCapability>,
}

/// Whether a text is empty once surrounding whitespace is dropped.
pub open spec fn blank(s: Seq<char>) -> bool {
    forall|k: int| 0 <= k < s.len() ==> is_ws(#[trigger] s[k])
}

fn is_blank(s: &String) -> (b: bool)
    ensures
        b == blank(s@),
{
    let t = crate::text::chars_of_string(s);
    let mut i: usize = 0;
    while i < t.len()
        invariant
            i <= t@.len(),
            t@ == s@,
            forall|k: int| 0 <= k < i ==> is_ws(#[trigger] t@[k]),
        decreases t@.len() - i,
    {
        if !crate::text::is_whitespace(t[i]) {
            return false;
        }
        i = i + 1;
    }
    true
}

/// What makes a release invalid within its package's list: an empty version,
/// a version already listed before it, an archive without a signature, or a
/// yank reason on a release that is not yanked.
pub open spec fn release_invalid(releases: Seq<RegistryRelease>, i: int) -> bool {
    let r = releases[i];
    ||| blank(r.version@)
    ||| (exists|j: int| 0 <= j < i && (#[trigger] releases[j]).version@ == r.version@)
    ||| (r.archive is Some && r.signature is None)
    ||| (r.yank_reason is Some && !r.yanked)
}

/// The rules a registry index obeys: format version 1, no blank package
/// name, and no invalid release.
pub open spec fn index_valid(index: &RegistryIndex) -> bool {
    &&& index.version == 1
    &&& forall|p: int| 0 <= p < index.packages@.len() ==> !blank((#[trigger] index.packages@[p]).0@)
    &&& forall|p: int, i: int|
        0 <= p < index.packages@.len() && 0 <= i < index.packages@[p].1@.len() ==> !#[trigger] release_invalid(
            index.packages@[p].1@,
            i,
        )
}

fn registry_error(path: Option<&str>, message: String) -> (d: Diagnostic)
    ensures
        d.kind@ == "registry"@,
{
    let d = Diagnostic::new("registry", message);
    match path {
        Some(p) => d.with_path(String::from_str(p)),
        None => d,
    }
}

fn version_seen(releases: &Vec<RegistryRelease>, i: usize) -> (b: bool)
    requires
        i < releases@.len(),
    ensures
        b == exists|j: int| 0 <= j < i && (#[trigger] releases@[j]).version@ == releases@[i as int].version@,
{
    let mut j: usize = 0;
    while j < i
        invariant
            j <= i < releases@.len(),
            forall|q: int| 0 <= q < j ==> (#[trigger] releases@[q]).version@ != releases@[i as int].version@,
        decreases i - j,
    {
        if releases[j].version == releases[i].version {
            return true;
        }
        j = j + 1;
    }
    false
}

/// Checks an index against the registry rules; `path` is the file it was read from.
pub fn validate_registry_index(index: &RegistryIndex, path: Option<&str>) -> (r: Result<(), Diagnostic>)
    requires
        crate::manifest::keys_ascending(index.packages@),
    ensures
        r is Ok <==> index_valid(index),
        r matches Err(d) ==> d.kind@ == "registry"@,
{
    if index.version != 1 {
        return Err(
            registry_error(
                path,
                cat3(
                    "unsupported registry index version ",
                    u64_to_string(index.version as u64).as_str(),
                    "; expected 1",
                ),
            ),
        );
    }
    let mut p: usize = 0;
    while p < index.packages.len()
        invariant
            p <= index.packages@.len(),
            index.version == 1,
            forall|q: int| 0 <= q < p ==> !blank((#[trigger] index.packages@[q]).0@),
            forall|q: int, i: int|
                0 <= q < p && 0 <= i < index.packages@[q].1@.len() ==> !#[trigger] release_invalid(
                    index.packages@[q].1@,
                    i,
                ),
        decreases index.packages@.len() - p,
    {
        let (package, releases) = (&index.packages[p].0, &index.packages[p].1);
        if is_blank(package) {
            return Err(registry_error(path, String::from_str("package names must not be empty")));
        }
        let name = debug_string(package.as_str());
        let mut i: usize = 0;
        while i < releases.len()
            invariant
                p < index.packages@.len(),
                *releases == index.packages@[p as int].1,
                i <= releases@.len(),
                forall|k: int| 0 <= k < i ==> !release_invalid(releases@, k),
            decreases releases@.len() - i,
        {
            let release = &releases[i];
            if is_blank(&release.version) {
                assert(release_invalid(index.packages@[p as int].1@, i as int));
                return Err(registry_error(path, cat3("package ", name.as_str(), " contains an empty version string")));
            }
            if version_seen(releases, i) {
                assert(release_invalid(index.packages@[p as int].1@, i as int));
                return Err(
                    registry_error(
                        path,
                        cat4(
                            "package ",
                            name.as_str(),
                            " contains duplicate version ",
                            debug_string(release.version.as_str()).as_str(),
                        ),
                    ),
                );
            }
            if release.archive.is_some() && release.signature.is_none() {
                assert(release_invalid(index.packages@[p as int].1@, i as int));
                return Err(
                    registry_error(
                        path,
                        cat5(
                            "package ",
                            name.as_str(),
                            " version ",
                            debug_string(release.version.as_str()).as_str(),
                            " declares an archive without a signature",
                        ),
                    ),
                );
            }
            if release.yank_reason.is_some() && !release.yanked {
                assert(release_invalid(index.packages@[p as int].1@, i as int));
                return Err(
                    registry_error(
                        path,
                        cat5(
                            "package ",
                            name.as_str(),
                            " version ",
                            debug_string(release.version.as_str()).as_str(),
                            " has yank_reason but is not yanked",
                        ),
                    ),
                );
            }
            i = i + 1;
        }
        p = p + 1;
    }
    Ok(())
}

/// The base URL without surrounding whitespace and trailing slashes: `input`
/// is whitespace, then `out`, then slashes, then whitespace, where `out`
/// neither starts with whitespace nor ends with a slash.
pub open spec fn base_url_form(input: Seq<char>, out: Seq<char>) -> bool {
    exists|a: int, b: int, e: int|
        #![trigger input.subrange(a, b), input.subrange(b, e)]
        0 <= a <= b <= e <= input.len() && out == input.subrange(a, b) && (forall|k: int|
            0 <= k < a ==> is_ws(input[k])) && (forall|k: int| e <= k < input.len() ==> is_ws(input[k]))
            && (forall|k: int| b <= k < e ==> input[k] == '/') && (a < e ==> !is_ws(input[a]) && !is_ws(
            input[e - 1],
        )) && (out.len() > 0 ==> out.last() != '/')
}

/// The registry's base URL as releases are addressed under it; a blank one is an error.
pub fn normalize_base_url(base_url: &str, packages_root: &str) -> (r: Result<String, Diagnostic>)
    ensures
        r matches Ok(u) ==> u@.len() > 0 && base_url_form(base_url@, u@),
        r is Err ==> base_url_form(base_url@, Seq::empty()),
        r matches Err(d) ==> d.kind@ == "registry"@,
{
    let t = chars_of(base_url);
    let (a, b) = trim(&t, 0, t.len());
    let mut e = b;
    while e > a && t[e - 1] == '/'
        invariant
            a <= e <= b,
            b <= t@.len(),
            forall|k: int| e <= k < b ==> t@[k] == '/',
        decreases e,
    {
        e = e - 1;
    }
    proof {
        assert(t@.subrange(a as int, e as int) == t@.subrange(a as int, e as int));
        assert(t@.subrange(e as int, b as int) == t@.subrange(e as int, b as int));
    }
    if e == a {
        proof {
            assert(t@.subrange(a as int, e as int) =~= Seq::<char>::empty());
        }
        return Err(
            Diagnostic::new("registry", String::from_str("--base-url must not be empty")).with_path(
                String::from_str(packages_root),
            ),
        );
    }
    let out = string_from(&t, a, e);
    proof {
        assert(t@.subrange(a as int, e as int).len() > 0);
        assert(out@.last() == t@[e - 1]);
    }
    Ok(out)
}

fn release_url(base_url: &String, package: &String, version: &String) -> (s: String)
    ensures
        s@ == base_url@ + "/"@ + package@ + "/"@ + version@,
{
    cat5(base_url.as_str(), "/", package.as_str(), "/", version.as_str())
}

/// The index entry for one release directory. `package_name` and `version`
/// are the directory names, `manifest_name` and `manifest_version` what the
/// release's manifest declares; the archive and signature are file names in
/// the directory, where there are such files; `env_allowed` is the list of
/// environment variables the manifest's `env` capability names, if any.
pub fn release_entry(
    package_name: &String,
    version: &String,
    manifest_name: &String,
    manifest_version: &String,
    base_url: &String,
    archive_file: Option<String>,
    signature_file: Option<String>,
    yanked: bool,
    yank_reason: Option<String>,
    capabilities: &CapabilityConfig,
    env_allowed: &Vec<String>,
) -> (r: Result<RegistryRelease, Diagnostic>)
    ensures
        r is Ok <==> (manifest_name@ == package_name@ && manifest_version@ == version@ && !(
        archive_file is Some && signature_file is None)),
        r matches Ok(rel) ==> {
            &&& rel.version@ == version@
            &&& rel.source@ == "registry+"@ + base_url@ + "/"@ + package_name@ + "/"@ + version@
            &&& rel.manifest@ == base_url@ + "/"@ + package_name@ + "/"@ + version@ + "/axiom.toml"@
            &&& rel.archive is Some == archive_file is Some
            &&& rel.signature is Some == signature_file is Some
            &&& rel.archive matches Some(a) ==> a@ == base_url@ + "/"@ + package_name@ + "/"@ + version@
                + "/"@ + archive_file->0@
            &&& rel.signature matches Some(g) ==> g@ == base_url@ + "/"@ + package_name@ + "/"@ + version@
                + "/"@ + signature_file->0@
            &&& rel.yanked == yanked
            &&& rel.yank_reason == yank_reason
            &&& rel.capabilities@.len() == 6
            &&& forall|i: int|
                0 <= i < 6 ==> {
                    let c = #[trigger] rel.capabilities@[i];
                    &&& c.name@ == known_capability(i).spec_name()
                    &&& c.enabled == capabilities.spec_enabled(known_capability(i))
                    &&& c.description@ == known_capability(i).spec_description()
                    &&& c.allowed@ == if known_capability(i) is Env {
                        env_allowed@
                    } else {
                        Seq::<String>::empty()
                    }
                    &&& !c.unsafe_unrestricted
                }
        },
        r matches Err(d) ==> d.kind@ == "registry"@,
{
    if *manifest_name != *package_name {
        return Err(
            Diagnostic::new(
                "registry",
                cat4(
                    "package directory ",
                    debug_string(package_name.as_str()).as_str(),
                    " does not match manifest package name ",
                    debug_string(manifest_name.as_str()).as_str(),
                ),
            ),
        );
    }
    if *manifest_version != *version {
        return Err(
            Diagnostic::new(
                "registry",
                cat4(
                    "version directory ",
                    debug_string(version.as_str()).as_str(),
                    " does not match manifest package version ",
                    debug_string(manifest_version.as_str()).as_str(),
                ),
            ),
        );
    }
    if archive_file.is_some() && signature_file.is_none() {
        return Err(
            Diagnostic::new(
                "registry",
                cat5(
                    "registry release ",
                    package_name.as_str(),
                    "@",
                    version.as_str(),
                    " includes an archive but no signature",
                ),
            ),
        );
    }
    let base = release_url(base_url, package_name, version);
    let archive = match archive_file {
        Some(f) => Some(cat3(base.as_str(), "/", f.as_str())),
        None => None,
    };
    let signature = match signature_file {
        Some(f) => Some(cat3(base.as_str(), "/", f.as_str())),
        None => None,
    };
    let descriptors = capability_descriptors(capabilities);
    let kinds = known_capabilities();
    let mut caps: Vec<RegistryCapability> = Vec::new();
    let mut i: usize = 0;
    while i < descriptors.len()
        invariant
            descriptors@.len() == 6,
            kinds@.len() == 6,
            forall|j: int| 0 <= j < 6 ==> kinds@[j] == known_capability(j),
            forall|j: int|
                0 <= j < 6 ==> (#[trigger] descriptors@[j]).name@ == known_capability(j).spec_name()
                    && descriptors@[j].enabled == capabilities.spec_enabled(known_capability(j))
                    && descriptors@[j].description@ == known_capability(j).spec_description(),
            i <= 6,
            caps@.len() == i,
            forall|j: int|
                0 <= j < i ==> {
                    let c = #[trigger] caps@[j];
                    &&& c.name@ == known_capability(j).spec_name()
                    &&& c.enabled == capabilities.spec_enabled(known_capability(j))
                    &&& c.description@ == known_capability(j).spec_description()
                    &&& c.allowed@ == if known_capability(j) is Env {
                        env_allowed@
                    } else {
                        Seq::<String>::empty()
                    }
                    &&& !c.unsafe_unrestricted
                },
        decreases descriptors@.len() - i,
    {
        let allowed = match kinds[i] {
            CapabilityKind::Env => clone_strings(env_allowed),
            _ => Vec::new(),
        };
        caps.push(
            RegistryCapability {
                name: descriptors[i].name.clone(),
                enabled: descriptors[i].enabled,
                description: String::from_str(descriptors[i].description),
                allowed,
                unsafe_unrestricted: false,
            },
        );
        i = i + 1;
    }
    Ok(
        RegistryRelease {
            version: version.clone(),
            source: cat("registry+", base.as_str()),
            manifest: cat(base.as_str(), "/axiom.toml"),
            archive,
            signature,
            yanked,
            yank_reason,
            capabilities: caps,
        },
    )
}

} // verus!
