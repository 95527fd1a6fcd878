//! The lockfile (`axiom.lock`): what it must record for a manifest, and the
//! check that a lockfile read from disk records exactly that.
use vstd::prelude::*;
use crate::manifest::{Manifest, PackageSection};

verus! {

#[derive(Debug, Clone, PartialEq, Eq)]
pub struct Lockfile {
    pub version: u32,
    pub package: Vec<LockedPackage>,
}

#[derive(Debug, Clone, PartialEq, Eq)]
pub struct LockedPackage {
    pub name: String,
    pub version: String,
    pub source: String,
}

/// The minimal lockfile of a package: format version 1 and the package
/// itself, from a local path.
pub open spec fn lockfile_expected_for(l: &Lockfile, manifest: &Manifest) -> bool {
    &&& l.version == 1
    &&& l.package@.len() == 1
    &&& l.package@[0].name@ == manifest.package.name@
    &&& l.package@[0].version@ == manifest.package.version@
    &&& l.package@[0].source@ == "path"@
}

/// The minimal lockfile, recording the package alone.
pub fn expected_lockfile(manifest: &Manifest) -> (l: Lockfile)
    ensures
        lockfile_expected_for(&l, manifest),
{
    Lockfile {
        version: 1,
        package: vec![
            LockedPackage {
                name: manifest.package.name.clone(),
                version: manifest.package.version.clone(),
                source: String::from_str("path"),
            },
        ],
    }
}

/// Some string of `s` reads `t`.
pub open spec fn texts_have(s: Seq<String>, t: Seq<char>) -> bool {
    exists|i: int| 0 <= i < s.len() && (#[trigger] s[i])@ == t
}

/// `dirs` with the paths of the first `n` dependencies added, each path that
/// is not there yet appended once, in order.
pub open spec fn dirs_with_dependencies(
    dirs: Seq<String>,
    deps: Seq<(String, crate::manifest::DependencySpec)>,
    n: nat,
) -> Seq<String>
    decreases n,
{
    if n == 0 || n > deps.len() {
        dirs
    } else {
        let prev = dirs_with_dependencies(dirs, deps, (n - 1) as nat);
        if texts_have(prev, deps[n - 1].1.path@) {
            prev
        } else {
            prev.push(deps[n - 1].1.path)
        }
    }
}

/// The local packages a project's lockfile records besides the package
/// itself, by directory: its workspace members in order, then the path of
/// each dependency not listed yet.
pub open spec fn local_dirs(manifest: &Manifest) -> Seq<String> {
    let members = match manifest.workspace {
        Some(w) => w.members@,
        None => Seq::empty(),
    };
    dirs_with_dependencies(members, manifest.dependencies@, manifest.dependencies@.len())
}

/// The directories of the local packages a project's lockfile records, as
/// `local_dirs` gives them.
pub fn local_package_dirs(manifest: &Manifest) -> (dirs: Vec<String>)
    ensures
        dirs@ == local_dirs(manifest),
{
    let mut dirs: Vec<String> = Vec::new();
    match &manifest.workspace {
        Some(w) => {
            let mut i: usize = 0;
            while i < w.members.len()
                invariant
                    i <= w.members@.len(),
                    dirs@ == w.members@.subrange(0, i as int),
                decreases w.members@.len() - i,
            {
                dirs.push(w.members[i].clone());
                i = i + 1;
                assert(dirs@ =~= w.members@.subrange(0, i as int));
            }
            assert(dirs@ =~= w.members@);
        },
        None => {},
    }
    let ghost members = dirs@;
    let mut k: usize = 0;
    while k < manifest.dependencies.len()
        invariant
            k <= manifest.dependencies@.len(),
            dirs@ == dirs_with_dependencies(members, manifest.dependencies@, k as nat),
        decreases manifest.dependencies@.len() - k,
    {
        let path = &manifest.dependencies[k].1.path;
        let mut found = false;
        let mut j: usize = 0;
        while j < dirs.len()
            invariant
                j <= dirs@.len(),
                found == exists|x: int| 0 <= x < j && (#[trigger] dirs@[x])@ == path@,
            decreases dirs@.len() - j,
        {
            if dirs[j] == *path {
                found = true;
            }
            j = j + 1;
        }
        if !found {
            dirs.push(path.clone());
        }
        k = k + 1;
    }
    dirs
}

/// What a project's lockfile must say: format version 1, the package itself
/// from a local path, then each local package (`sections[i]` being the one in
/// directory `dirs[i]`) from `path:` and its directory.
pub open spec fn project_lockfile_expected(
    l: &Lockfile,
    manifest: &Manifest,
    dirs: Seq<String>,
    sections: Seq<PackageSection>,
) -> bool {
    &&& l.version == 1
    &&& l.package@.len() == dirs.len() + 1
    &&& l.package@[0].name@ == manifest.package.name@
    &&& l.package@[0].version@ == manifest.package.version@
    &&& l.package@[0].source@ == "path"@
    &&& forall|i: int|
        0 <= i < dirs.len() ==> (#[trigger] l.package@[i + 1]).name@ == sections[i].name@
            && l.package@[i + 1].version@ == sections[i].version@ && l.package@[i + 1].source@ == "path:"@
            + dirs[i]@
}

/// The lockfile a project calls for; `sections[i]` is the package section of
/// the local package in directory `local_dirs(manifest)[i]`.
pub fn expected_project_lockfile(manifest: &Manifest, sections: &Vec<PackageSection>) -> (l: Lockfile)
    requires
        sections@.len() == local_dirs(manifest).len(),
    ensures
        project_lockfile_expected(&l, manifest, local_dirs(manifest), sections@),
{
    let dirs = local_package_dirs(manifest);
    let mut package: Vec<LockedPackage> = vec![
        LockedPackage {
            name: manifest.package.name.clone(),
            version: manifest.package.version.clone(),
            source: String::from_str("path"),
        },
    ];
    let mut i: usize = 0;
    while i < dirs.len()
        invariant
            i <= dirs@.len(),
            dirs@ == local_dirs(manifest),
            sections@.len() == dirs@.len(),
            package@.len() == i + 1,
            package@[0].name@ == manifest.package.name@,
            package@[0].version@ == manifest.package.version@,
            package@[0].source@ == "path"@,
            forall|j: int|
                0 <= j < i ==> (#[trigger] package@[j + 1]).name@ == sections@[j].name@
                    && package@[j + 1].version@ == sections@[j].version@ && package@[j + 1].source@
                    == "path:"@ + dirs@[j]@,
        decreases dirs@.len() - i,
    {
        let source = String::from_str("path:").concat(dirs[i].as_str());
        package.push(
            LockedPackage {
                name: sections[i].name.clone(),
                version: sections[i].version.clone(),
                source,
            },
        );
        i = i + 1;
    }
    Lockfile { version: 1, package }
}

/// Whether a lockfile read from disk is the one the project calls for;
/// `sections` as for `expected_project_lockfile`.
pub fn lockfile_matches(found: &Lockfile, manifest: &Manifest, sections: &Vec<PackageSection>) -> (b:
    bool)
    requires
        sections@.len() == local_dirs(manifest).len(),
    ensures
        b == project_lockfile_expected(found, manifest, local_dirs(manifest), sections@),
{
    let expected = expected_project_lockfile(manifest, sections);
    if found.version != 1 || found.package.len() != expected.package.len() {
        return false;
    }
    let mut i: usize = 0;
    while i < found.package.len()
        invariant
            i <= found.package@.len(),
            found.package@.len() == expected.package@.len(),
            found.version == 1,
            project_lockfile_expected(&expected, manifest, local_dirs(manifest), sections@),
            forall|j: int|
                0 <= j < i ==> (#[trigger] found.package@[j]).name@ == expected.package@[j].name@
                    && found.package@[j].version@ == expected.package@[j].version@
                    && found.package@[j].source@ == expected.package@[j].source@,
        decreases found.package@.len() - i,
    {
        let f = &found.package[i];
        let e = &expected.package[i];
        if !(f.name == e.name && f.version == e.version && f.source == e.source) {
            proof {
                if i > 0 {
                    assert(expected.package@[(i - 1) + 1] == expected.package@[i as int]);
                }
            }
            return false;
        }
        i = i + 1;
    }
    proof {
        assert forall|j: int| 0 <= j < local_dirs(manifest).len() implies (#[trigger] found.package@[j
            + 1]).name@ == sections@[j].name@ && found.package@[j + 1].version@ == sections@[j].version@
            && found.package@[j + 1].source@ == "path:"@ + local_dirs(manifest)[j]@ by {
            assert(expected.package@[j + 1].name@ == sections@[j].name@);
        }
    }
    true
}

} // verus!
