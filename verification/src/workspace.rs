//! Which packages a workspace command covers: the package at the project
//! root and, depth first, the members of each workspace it reaches, each
//! once; `-p/--package` then picks one of them by name.
use vstd::prelude::*;
use crate::diagnostics::Diagnostic;
use crate::manifest::{joined, manifest_path, MANIFEST_FILENAME};
use crate::paths::views;
use crate::text::{cat, cat3, debug_quoted, debug_string, string_is};

verus! {

/// A loaded package as the workspace walk sees it: its root, its name, and
/// the roots of its workspace members.
#[derive(Debug, Clone)]
pub struct PackageNode {
    pub root: String,
    pub name: String,
    pub members: Vec<String>,
}

/// How many entries of `flags` are still false.
pub open spec fn unseen(flags: Seq<bool>) -> nat
    decreases flags.len(),
{
    if flags.len() == 0 {
        0
    } else {
        unseen(flags.drop_last()) + if flags.last() {
            0nat
        } else {
            1nat
        }
    }
}

proof fn lemma_unseen_mark(flags: Seq<bool>, i: int)
    requires
        0 <= i < flags.len(),
        !flags[i],
    ensures
        unseen(flags.update(i, true)) + 1 == unseen(flags),
    decreases flags.len(),
{
    if i < flags.len() - 1 {
        lemma_unseen_mark(flags.drop_last(), i);
        assert(flags.update(i, true).drop_last() =~= flags.drop_last().update(i, true));
    } else {
        assert(flags.update(i, true).drop_last() =~= flags.drop_last());
    }
}

fn find_node(nodes: &Vec<PackageNode>, root: &String) -> (r: Option<usize>)
    ensures
        match r {
            Some(k) => k < nodes@.len() && nodes@[k as int].root@ == root@ && forall|j: int|
                0 <= j < k ==> (#[trigger] nodes@[j]).root@ != root@,
            None => forall|j: int| 0 <= j < nodes@.len() ==> (#[trigger] nodes@[j]).root@ != root@,
        },
{
    let mut i: usize = 0;
    while i < nodes.len()
        invariant
            i <= nodes@.len(),
            forall|j: int| 0 <= j < i ==> (#[trigger] nodes@[j]).root@ != root@,
        decreases nodes@.len() - i,
    {
        if nodes[i].root == *root {
            return Some(i);
        }
        i = i + 1;
    }
    None
}

/// The index of the first node at or after `i` whose root is `root`, or the
/// number of nodes where there is none.
pub open spec fn node_index_from(nodes: Seq<PackageNode>, root: Seq<char>, i: nat) -> nat
    decreases nodes.len() - i,
{
    if i >= nodes.len() {
        nodes.len()
    } else if nodes[i as int].root@ == root {
        i
    } else {
        node_index_from(nodes, root, i + 1)
    }
}

/// The workspace members of the package at `root` (of the first node with
/// that root), or none where no node has it.
pub open spec fn node_members(nodes: Seq<PackageNode>, root: Seq<char>) -> Seq<String> {
    let k = node_index_from(nodes, root, 0);
    if k < nodes.len() {
        nodes[k as int].members@
    } else {
        Seq::empty()
    }
}

proof fn lemma_node_index(nodes: Seq<PackageNode>, root: Seq<char>, k: int, i: nat)
    requires
        0 <= k < nodes.len(),
        i <= k,
        nodes[k].root@ == root,
        forall|j: int| 0 <= j < k ==> (#[trigger] nodes[j]).root@ != root,
    ensures
        node_index_from(nodes, root, i) == k,
    decreases k - i,
{
    if i < k {
        assert(nodes[i as int].root@ != root);
        lemma_node_index(nodes, root, k, i + 1);
    }
}

/// Some listed package has the root `r`.
pub open spec fn listed(roots: Seq<(String, String)>, r: Seq<char>) -> bool {
    exists|j: int| 0 <= j < roots.len() && (#[trigger] roots[j]).0@ == r
}

/// Some entry of the stack is `r`.
pub open spec fn stacked(stack: Seq<String>, r: Seq<char>) -> bool {
    exists|j: int| 0 <= j < stack.len() && (#[trigger] stack[j])@ == r
}

/// `r` is a workspace member of one of the first `n` listed packages.
pub open spec fn member_of_listed(
    nodes: Seq<PackageNode>,
    roots: Seq<(String, String)>,
    n: int,
    r: Seq<char>,
) -> bool {
    exists|j: int, m: int|
        0 <= j < n && 0 <= m < node_members(nodes, roots[j].0@).len() && (#[trigger] node_members(
            nodes,
            roots[j].0@,
        )[m])@ == r
}

/// Walks the workspace from `project_root`, depth first through workspace
/// members, and gives each package reached once, as (root, name), the
/// project root first. A member whose package was not loaded is an error.
pub fn collect_package_roots(nodes: &Vec<PackageNode>, project_root: &String) -> (r: Result<
    Vec<(String, String)>,
    Diagnostic,
>)
    ensures
        r matches Err(d) ==> d.kind@ == "manifest"@,
        r matches Ok(roots) ==> {
            &&& roots@.len() > 0
            &&& roots@[0].0@ == project_root@
            &&& forall|i: int|
                0 <= i < roots@.len() ==> exists|k: int|
                    0 <= k < nodes@.len() && (#[trigger] nodes@[k]).root@ == (#[trigger] roots@[i]).0@
                        && nodes@[k].name@ == roots@[i].1@
            &&& forall|i: int, j: int|
                0 <= i < j < roots@.len() ==> (#[trigger] roots@[i]).0@ != (#[trigger] roots@[j]).0@
            &&& forall|i: int, m: int|
                0 <= i < roots@.len() && 0 <= m < node_members(nodes@, roots@[i].0@).len() ==> listed(
                    roots@,
                    (#[trigger] node_members(nodes@, roots@[i].0@)[m])@,
                )
            &&& forall|i: int|
                0 < i < roots@.len() ==> member_of_listed(nodes@, roots@, i, (#[trigger] roots@[i]).0@)
        },
{
    let mut flags: Vec<bool> = Vec::new();
    let mut f: usize = 0;
    while f < nodes.len()
        invariant
            f <= nodes@.len(),
            flags@.len() == f,
            forall|j: int| 0 <= j < f ==> !flags@[j],
        decreases nodes@.len() - f,
    {
        flags.push(false);
        f = f + 1;
    }
    let mut stack: Vec<String> = Vec::new();
    stack.push(project_root.clone());
    let mut roots: Vec<(String, String)> = Vec::new();
    while stack.len() > 0
        invariant
            flags@.len() == nodes@.len(),
            roots@.len() == 0 ==> stack@.len() == 1 && stack@[0]@ == project_root@,
            roots@.len() > 0 ==> roots@[0].0@ == project_root@,
            forall|i: int|
                0 <= i < roots@.len() ==> exists|k: int|
                    0 <= k < nodes@.len() && (#[trigger] nodes@[k]).root@ == (#[trigger] roots@[i]).0@
                        && nodes@[k].name@ == roots@[i].1@ && flags@[k],
            forall|i: int, j: int|
                0 <= i < j < roots@.len() ==> (#[trigger] roots@[i]).0@ != (#[trigger] roots@[j]).0@,
            roots@.len() == 0 ==> forall|j: int| 0 <= j < flags@.len() ==> !flags@[j],
            forall|q: int, j: int|
                0 <= j < q < nodes@.len() && flags@[q] ==> (#[trigger] nodes@[j]).root@
                    != (#[trigger] nodes@[q]).root@,
            forall|k: int| 0 <= k < nodes@.len() && flags@[k] ==> listed(roots@, (#[trigger] nodes@[k]).root@),
            forall|i: int, m: int|
                0 <= i < roots@.len() && 0 <= m < node_members(nodes@, roots@[i].0@).len() ==> listed(
                    roots@,
                    (#[trigger] node_members(nodes@, roots@[i].0@)[m])@,
                ) || stacked(stack@, node_members(nodes@, roots@[i].0@)[m]@),
            forall|j: int|
                0 <= j < stack@.len() && roots@.len() > 0 ==> member_of_listed(
                    nodes@,
                    roots@,
                    roots@.len() as int,
                    (#[trigger] stack@[j])@,
                ),
            forall|i: int|
                0 < i < roots@.len() ==> member_of_listed(nodes@, roots@, i, (#[trigger] roots@[i]).0@),
        decreases unseen(flags@), stack@.len(),
    {
        let ghost old_stack = stack@;
        let root = stack.pop().unwrap();
        proof {
            assert(stack@ =~= old_stack.drop_last());
            assert(root == old_stack.last());
        }
        let k = match find_node(nodes, &root) {
            Some(k) => k,
            None => {
                return Err(
                    Diagnostic::new("manifest", cat("internal error: unknown package root ", root.as_str())),
                );
            },
        };
        proof {
            lemma_node_index(nodes@, root@, k as int, 0);
        }
        if flags[k] {
            proof {
                assert(roots@.len() > 0);
                assert(listed(roots@, nodes@[k as int].root@));
                assert forall|i: int, m: int|
                    0 <= i < roots@.len() && 0 <= m < node_members(nodes@, roots@[i].0@).len() implies listed(
                    roots@,
                    (#[trigger] node_members(nodes@, roots@[i].0@)[m])@,
                ) || stacked(stack@, node_members(nodes@, roots@[i].0@)[m]@) by {
                    let x = node_members(nodes@, roots@[i].0@)[m]@;
                    if !listed(roots@, x) {
                        assert(stacked(old_stack, x));
                        let w = choose|w: int| 0 <= w < old_stack.len() && (#[trigger] old_stack[w])@ == x;
                        if w < old_stack.len() - 1 {
                            assert(stack@[w] == old_stack[w]);
                        }
                    }
                }
                assert forall|j: int| 0 <= j < stack@.len() && roots@.len() > 0 implies member_of_listed(
                    nodes@,
                    roots@,
                    roots@.len() as int,
                    (#[trigger] stack@[j])@,
                ) by {
                    assert(stack@[j] == old_stack[j]);
                }
            }
            continue;
        }
        let ghost old_flags = flags@;
        let ghost old_roots = roots@;
        proof {
            lemma_unseen_mark(flags@, k as int);
            if old_roots.len() > 0 {
                assert(member_of_listed(nodes@, old_roots, old_roots.len() as int, old_stack.last()@));
            }
        }
        flags.set(k, true);
        roots.push((root, nodes[k].name.clone()));
        proof {
            assert forall|i: int|
                0 <= i < roots@.len() implies exists|q: int|
                0 <= q < nodes@.len() && (#[trigger] nodes@[q]).root@ == (#[trigger] roots@[i]).0@
                    && nodes@[q].name@ == roots@[i].1@ && flags@[q] by {
                if i < old_roots.len() {
                    let q = choose|q: int|
                        0 <= q < nodes@.len() && (#[trigger] nodes@[q]).root@ == old_roots[i].0@
                            && nodes@[q].name@ == old_roots[i].1@ && old_flags[q];
                    assert(roots@[i] == old_roots[i]);
                    assert(flags@[q]);
                } else {
                    assert(nodes@[k as int].root@ == roots@[i].0@);
                }
            }
            assert forall|a: int, b: int| 0 <= a < b < roots@.len() implies (#[trigger] roots@[a]).0@
                != (#[trigger] roots@[b]).0@ by {
                if b == old_roots.len() {
                    assert(roots@[a] == old_roots[a]);
                    assert(!old_flags[k as int]);
                    if roots@[a].0@ == roots@[b].0@ {
                        let q = choose|q: int|
                            0 <= q < nodes@.len() && (#[trigger] nodes@[q]).root@ == old_roots[a].0@
                                && nodes@[q].name@ == old_roots[a].1@ && old_flags[q];
                        assert(nodes@[q].root@ == nodes@[k as int].root@);
                        if q < k {
                        } else if k < q {
                            assert(nodes@[k as int].root@ != nodes@[q].root@);
                        }
                    }
                } else {
                    assert(roots@[a] == old_roots[a] && roots@[b] == old_roots[b]);
                }
            }
            assert forall|q: int, j: int|
                0 <= j < q < nodes@.len() && flags@[q] implies (#[trigger] nodes@[j]).root@
                != (#[trigger] nodes@[q]).root@ by {
                if q != k {
                    assert(old_flags[q]);
                }
            }
            let last = old_roots.len() as int;
            assert(roots@[last].0@ == root@);
            assert forall|q: int| 0 <= q < nodes@.len() && flags@[q] implies listed(
                roots@,
                (#[trigger] nodes@[q]).root@,
            ) by {
                if q == k {
                    assert(roots@[last].0@ == nodes@[q].root@);
                } else {
                    assert(old_flags[q]);
                    let w = choose|w: int| 0 <= w < old_roots.len() && (#[trigger] old_roots[w]).0@ == nodes@[q].root@;
                    assert(roots@[w] == old_roots[w]);
                }
            }
            assert forall|i: int| 0 < i < roots@.len() implies member_of_listed(
                nodes@,
                roots@,
                i,
                (#[trigger] roots@[i]).0@,
            ) by {
                if i < last {
                    assert(member_of_listed(nodes@, old_roots, i, old_roots[i].0@));
                    let (j, m) = choose|j: int, m: int|
                        0 <= j < i && 0 <= m < node_members(nodes@, old_roots[j].0@).len() && (
                        #[trigger] node_members(nodes@, old_roots[j].0@)[m])@ == old_roots[i].0@;
                    assert(roots@[j] == old_roots[j]);
                    assert(roots@[i] == old_roots[i]);
                } else {
                    let (j, m) = choose|j: int, m: int|
                        0 <= j < last && 0 <= m < node_members(nodes@, old_roots[j].0@).len() && (
                        #[trigger] node_members(nodes@, old_roots[j].0@)[m])@ == old_stack.last()@;
                    assert(roots@[j] == old_roots[j]);
                }
            }
        }
        let members = &nodes[k].members;
        proof {
            assert(node_members(nodes@, roots@[old_roots.len() as int].0@) == members@);
        }
        let ghost base = stack@;
        let mut m: usize = members.len();
        while m > 0
            invariant
                m <= members@.len(),
                stack@.len() >= base.len(),
                stack@.subrange(0, base.len() as int) == base,
                forall|mm: int| m <= mm < members@.len() ==> stacked(stack@, (#[trigger] members@[mm])@),
                forall|j: int|
                    base.len() <= j < stack@.len() ==> exists|mm: int|
                        0 <= mm < members@.len() && (#[trigger] members@[mm])@ == (#[trigger] stack@[j])@,
            decreases m,
        {
            m = m - 1;
            let ghost before = stack@;
            stack.push(members[m].clone());
            proof {
                assert(stack@.subrange(0, base.len() as int) =~= before.subrange(0, base.len() as int));
                assert(stack@[before.len() as int] == members@[m as int]);
                assert forall|mm: int| m <= mm < members@.len() implies stacked(stack@, (#[trigger] members@[mm])@) by {
                    if mm > m {
                        let w = choose|w: int| 0 <= w < before.len() && (#[trigger] before[w])@ == members@[mm]@;
                        assert(stack@[w] == before[w]);
                    }
                }
                assert forall|j: int|
                    base.len() <= j < stack@.len() implies exists|mm: int|
                    0 <= mm < members@.len() && (#[trigger] members@[mm])@ == (#[trigger] stack@[j])@ by {
                    if j < before.len() {
                        assert(stack@[j] == before[j]);
                    }
                }
            }
        }
        proof {
            let last = old_roots.len() as int;
            assert forall|j: int| 0 <= j < stack@.len() && roots@.len() > 0 implies member_of_listed(
                nodes@,
                roots@,
                roots@.len() as int,
                (#[trigger] stack@[j])@,
            ) by {
                if j < base.len() {
                    assert(stack@[j] == base[j]);
                    assert(base[j] == old_stack[j]);
                    if old_roots.len() > 0 {
                        let (a, b) = choose|a: int, b: int|
                            0 <= a < last && 0 <= b < node_members(nodes@, old_roots[a].0@).len() && (
                            #[trigger] node_members(nodes@, old_roots[a].0@)[b])@ == old_stack[j]@;
                        assert(roots@[a] == old_roots[a]);
                    }
                } else {
                    let mm = choose|mm: int| 0 <= mm < members@.len() && (#[trigger] members@[mm])@ == stack@[j]@;
                    assert(node_members(nodes@, roots@[last].0@)[mm] == members@[mm]);
                }
            }
            assert forall|i: int, mi: int|
                0 <= i < roots@.len() && 0 <= mi < node_members(nodes@, roots@[i].0@).len() implies listed(
                roots@,
                (#[trigger] node_members(nodes@, roots@[i].0@)[mi])@,
            ) || stacked(stack@, node_members(nodes@, roots@[i].0@)[mi]@) by {
                let x = node_members(nodes@, roots@[i].0@)[mi]@;
                if i == last {
                    assert(node_members(nodes@, roots@[i].0@)[mi] == members@[mi]);
                } else {
                    assert(roots@[i] == old_roots[i]);
                    if !listed(roots@, x) {
                        if listed(old_roots, x) {
                            let w = choose|w: int| 0 <= w < old_roots.len() && (#[trigger] old_roots[w]).0@ == x;
                            assert(roots@[w] == old_roots[w]);
                        }
                        assert(stacked(old_stack, x));
                        let w = choose|w: int| 0 <= w < old_stack.len() && (#[trigger] old_stack[w])@ == x;
                        if w == old_stack.len() - 1 {
                            assert(roots@[last].0@ == x);
                        } else {
                            assert(base[w] == old_stack[w]);
                            assert(stack@.subrange(0, base.len() as int)[w] == base[w]);
                            assert(stack@[w] == base[w]);
                        }
                    }
                }
            }
        }
    }
    proof {
        assert forall|i: int, m: int|
            0 <= i < roots@.len() && 0 <= m < node_members(nodes@, roots@[i].0@).len() implies listed(
            roots@,
            (#[trigger] node_members(nodes@, roots@[i].0@)[m])@,
        ) by {
            let x = node_members(nodes@, roots@[i].0@)[m]@;
            if !listed(roots@, x) {
                assert(stacked(stack@, x));
            }
        }
    }
    Ok(roots)
}

/// How many of the first `n` packages of `named` carry the name `s`.
pub open spec fn count_named(named: Seq<(String, String)>, s: Seq<char>, n: int) -> nat
    decreases n,
{
    if n <= 0 || n > named.len() {
        0
    } else {
        count_named(named, s, n - 1) + if named[n - 1].1@ == s {
            1nat
        } else {
            0nat
        }
    }
}

pub open spec fn not_found_message(s: Seq<char>) -> Seq<char> {
    "workspace package "@ + debug_quoted(s) + " was not found"@
}

pub open spec fn ambiguous_message(s: Seq<char>) -> Seq<char> {
    "workspace package name "@ + debug_quoted(s) + " is ambiguous"@
}

/// Picks the packages a command covers: all of `named` without a selection;
/// with one, the single package of that name, and an error where no
/// package, or more than one, has it.
pub fn select_packages(named: &Vec<(String, String)>, selected: Option<&str>, project_root: &str) -> (r:
    Result<Vec<String>, Diagnostic>)
    ensures
        selected is None ==> (r matches Ok(v) && views(v@) == named@.map_values(|p: (String, String)| p.0@)),
        selected matches Some(s) ==> {
            let c = count_named(named@, s@, named@.len() as int);
            &&& c == 0 <==> (r matches Err(d) && d.message@ == not_found_message(s@))
            &&& c >= 2 <==> (r matches Err(d) && d.message@ == ambiguous_message(s@))
            &&& c == 1 <==> r is Ok
            &&& r matches Ok(v) ==> (v@.len() == 1 && exists|i: int|
                0 <= i < named@.len() && (#[trigger] named@[i]).1@ == s@ && v@[0]@ == named@[i].0@)
        },
        r matches Err(d) ==> (d.kind@ == "manifest"@ && (d.path matches Some(p) && p@ == joined(
            project_root@,
            MANIFEST_FILENAME@,
        ))),
{
    match selected {
        None => {
            let mut all: Vec<String> = Vec::new();
            let mut i: usize = 0;
            while i < named.len()
                invariant
                    i <= named@.len(),
                    views(all@) == named@.take(i as int).map_values(|p: (String, String)| p.0@),
                decreases named@.len() - i,
            {
                let ghost before = views(all@);
                let c = named[i].0.clone();
                all.push(c);
                proof {
                    assert(views(all@) =~= before.push(named@[i as int].0@));
                    assert(named@.take(i + 1) =~= named@.take(i as int).push(named@[i as int]));
                    assert(views(all@) =~= named@.take(i + 1).map_values(|p: (String, String)| p.0@));
                }
                i = i + 1;
            }
            proof {
                assert(named@.take(named@.len() as int) =~= named@);
            }
            Ok(all)
        },
        Some(s) => {
            let mut matched: Vec<String> = Vec::new();
            let ghost mut wit: Seq<int> = Seq::empty();
            let mut i: usize = 0;
            while i < named.len()
                invariant
                    i <= named@.len(),
                    matched@.len() == count_named(named@, s@, i as int),
                    wit.len() == matched@.len(),
                    forall|a: int|
                        0 <= a < wit.len() ==> 0 <= #[trigger] wit[a] < named@.len() && named@[wit[a]].1@ == s@
                            && matched@[a]@ == named@[wit[a]].0@,
                decreases named@.len() - i,
            {
                if string_is(&named[i].1, s) {
                    let c = named[i].0.clone();
                    assert(c@ == named@[i as int].0@);
                    matched.push(c);
                    proof {
                        wit = wit.push(i as int);
                    }
                }
                i = i + 1;
            }
            proof {
                reveal_strlit(" was not found");
                reveal_strlit(" is ambiguous");
                assert(not_found_message(s@).last() == 'd');
                assert(ambiguous_message(s@).last() == 's');
            }
            if matched.len() == 0 {
                return Err(
                    Diagnostic::new(
                        "manifest",
                        cat3("workspace package ", debug_string(s).as_str(), " was not found"),
                    ).with_path(manifest_path(project_root)),
                );
            }
            if matched.len() > 1 {
                return Err(
                    Diagnostic::new(
                        "manifest",
                        cat3("workspace package name ", debug_string(s).as_str(), " is ambiguous"),
                    ).with_path(manifest_path(project_root)),
                );
            }
            proof {
                let q = wit[0];
                assert(0 <= q < named@.len() && named@[q].1@ == s@ && matched@[0]@ == named@[q].0@);
            }
            Ok(matched)
        },
    }
}

/// What the package loader does with a package root it reaches.
#[derive(Debug, Clone, Copy, PartialEq, Eq)]
pub enum WalkStep {
    /// The package is loaded already.
    Loaded,
    /// The package is still being loaded: its dependencies run in a circle.
    Cycle,
    /// The package is to be read and loaded.
    Load,
}

/// The state of the depth-first load of a package graph: the packages being
/// loaded, outermost first, and the packages loaded so far.
pub struct PackageWalk {
    visiting: Vec<String>,
    loaded: Vec<String>,
}

impl PackageWalk {
    pub closed spec fn visiting(&self) -> Seq<Seq<char>> {
        views(self.visiting@)
    }

    pub closed spec fn loaded(&self) -> Seq<Seq<char>> {
        views(self.loaded@)
    }

    pub fn new() -> (w: PackageWalk)
        ensures
            w.visiting().len() == 0,
            w.loaded().len() == 0,
    {
        PackageWalk { visiting: Vec::new(), loaded: Vec::new() }
    }

    fn holds(v: &Vec<String>, root: &String) -> (b: bool)
        ensures
            b == views(v@).contains(root@),
    {
        let mut i: usize = 0;
        while i < v.len()
            invariant
                i <= v@.len(),
                forall|j: int| 0 <= j < i ==> views(v@)[j] != root@,
            decreases v@.len() - i,
        {
            if v[i] == *root {
                assert(views(v@)[i as int] == root@);
                return true;
            }
            i = i + 1;
        }
        false
    }

    /// Decides what to do with the package at `root`: a package loaded
    /// already is skipped, one still being loaded closes a cycle.
    pub fn begin(&self, root: &String) -> (s: WalkStep)
        ensures
            s == WalkStep::Loaded <==> self.loaded().contains(root@),
            s == WalkStep::Cycle <==> !self.loaded().contains(root@) && self.visiting().contains(root@),
            s == WalkStep::Load <==> !self.loaded().contains(root@) && !self.visiting().contains(root@),
    {
        if PackageWalk::holds(&self.loaded, root) {
            WalkStep::Loaded
        } else if PackageWalk::holds(&self.visiting, root) {
            WalkStep::Cycle
        } else {
            WalkStep::Load
        }
    }

    /// Starts loading the package at `root`, whose dependencies load next.
    pub fn enter(&mut self, root: String)
        ensures
            final(self).visiting() == old(self).visiting().push(root@),
            final(self).loaded() == old(self).loaded(),
    {
        let ghost before = self.visiting();
        self.visiting.push(root);
        proof {
            assert(self.visiting() =~= before.push(self.visiting@.last()@));
        }
    }

    /// Completes the package entered last; gives its root, if one was entered.
    pub fn finish(&mut self) -> (r: Option<String>)
        ensures
            old(self).visiting().len() == 0 ==> r is None && final(self).visiting() == old(self).visiting()
                && final(self).loaded() == old(self).loaded(),
            old(self).visiting().len() > 0 ==> (r matches Some(root) && root@ == old(self).visiting().last()
                && final(self).visiting() == old(self).visiting().drop_last() && final(self).loaded()
                == old(self).loaded().push(root@)),
    {
        let ghost before_v = self.visiting();
        let ghost before_l = self.loaded();
        match self.visiting.pop() {
            Some(root) => {
                proof {
                    assert(self.visiting() =~= before_v.drop_last());
                }
                let copy = root.clone();
                self.loaded.push(copy);
                proof {
                    assert(self.loaded() =~= before_l.push(root@));
                }
                Some(root)
            },
            None => None,
        }
    }
}

} // verus!
