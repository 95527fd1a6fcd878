//! The decisions of module loading. Loading walks the imports of a package
//! depth first from its entry module; reading and parsing a file is the
//! caller's part, and this state says, step by step, whether a module is
//! loaded yet, whether an import closes a cycle, and in which order the
//! modules come out: each after the modules it imports, and each once.
use vstd::prelude::*;
use crate::diagnostics::Diagnostic;
use crate::modules::LoadedModule;
use crate::syntax;
use crate::text::cat;

verus! {

/// No two entries of `s` are equal.
pub open spec fn distinct(s: Seq<Seq<char>>) -> bool {
    forall|i: int, j: int| 0 <= i < j < s.len() ==> s[i] != s[j]
}

pub open spec fn module_paths(ms: Seq<LoadedModule>) -> Seq<Seq<char>> {
    ms.map_values(|m: LoadedModule| m.path@)
}

pub open spec fn string_views(ss: Seq<String>) -> Seq<Seq<char>> {
    ss.map_values(|s: String| s@)
}

pub open spec fn circular_import_message(path: Seq<char>) -> Seq<char> {
    "circular import detected at "@ + path
}

pub open spec fn imported_statement_message() -> Seq<char> {
    "imported stage1 modules may only contain imports, struct declarations, enum declarations, and function declarations"@
}

/// The state of a depth-first load: the modules being loaded, outermost
/// first, and the modules loaded so far, in the order they completed.
pub struct ModuleLoader {
    visiting: Vec<String>,
    ordered: Vec<LoadedModule>,
}

impl ModuleLoader {
    /// The paths of the modules whose imports are being loaded, outermost first.
    pub closed spec fn visiting(&self) -> Seq<Seq<char>> {
        string_views(self.visiting@)
    }

    /// The modules loaded so far, in the order they completed.
    pub closed spec fn loaded(&self) -> Seq<LoadedModule> {
        self.ordered@
    }

    /// No module is loaded twice, no module is entered twice, and no module
    /// is both loaded and still being entered.
    pub closed spec fn wf(&self) -> bool {
        &&& distinct(self.visiting())
        &&& distinct(module_paths(self.loaded()))
        &&& forall|i: int, j: int|
            0 <= i < self.visiting().len() && 0 <= j < self.loaded().len() ==> #[trigger] self.visiting()[i]
                != (#[trigger] self.loaded()[j]).path@
    }

    pub fn new() -> (l: ModuleLoader)
        ensures
            l.wf(),
            l.visiting().len() == 0,
            l.loaded().len() == 0,
    {
        ModuleLoader { visiting: Vec::new(), ordered: Vec::new() }
    }

    fn visiting_contains(&self, path: &String) -> (b: bool)
        ensures
            b == self.visiting().contains(path@),
    {
        let mut i: usize = 0;
        while i < self.visiting.len()
            invariant
                i <= self.visiting@.len(),
                forall|j: int| 0 <= j < i ==> self.visiting()[j] != path@,
            decreases self.visiting@.len() - i,
        {
            if self.visiting[i] == *path {
                assert(self.visiting()[i as int] == path@);
                return true;
            }
            i = i + 1;
        }
        false
    }

    fn loaded_contains(&self, path: &String) -> (b: bool)
        ensures
            b == module_paths(self.loaded()).contains(path@),
    {
        let mut i: usize = 0;
        while i < self.ordered.len()
            invariant
                i <= self.ordered@.len(),
                forall|j: int| 0 <= j < i ==> module_paths(self.loaded())[j] != path@,
            decreases self.ordered@.len() - i,
        {
            if self.ordered[i].path == *path {
                assert(module_paths(self.loaded())[i as int] == path@);
                return true;
            }
            i = i + 1;
        }
        false
    }

    /// Decides what to do with the module at `path` when an import (or the
    /// entry) reaches it: an error where it is still being entered, which
    /// means the imports run in a circle; `Ok(false)` where it is loaded
    /// already; `Ok(true)` where it is to be read and entered.
    pub fn begin(&self, path: &String) -> (r: Result<bool, Diagnostic>)
        ensures
            r is Err <==> self.visiting().contains(path@),
            r matches Err(d) ==> d.kind@ == "import"@ && d.message@ == circular_import_message(path@)
                && d.path == Some(*path),
            r == Ok::<bool, Diagnostic>(false) <==> !self.visiting().contains(path@)
                && module_paths(self.loaded()).contains(path@),
            r == Ok::<bool, Diagnostic>(true) <==> !self.visiting().contains(path@)
                && !module_paths(self.loaded()).contains(path@),
    {
        if self.visiting_contains(path) {
            return Err(
                Diagnostic::new("import", cat("circular import detected at ", path.as_str())).with_path(
                    path.clone(),
                ),
            );
        }
        Ok(!self.loaded_contains(path))
    }

    /// Enters the parsed module at `path`, whose imports are loaded next. A
    /// module reached through an import may declare things but may not hold
    /// top-level statements: its first statement is reported.
    pub fn enter(&mut self, path: String, program: &syntax::Program, is_entry: bool) -> (r: Result<
        (),
        Diagnostic,
    >)
        requires
            old(self).wf(),
            !old(self).visiting().contains(path@),
            !module_paths(old(self).loaded()).contains(path@),
        ensures
            final(self).wf(),
            r is Err <==> !is_entry && program.stmts@.len() > 0,
            r matches Err(d) ==> d.kind@ == "import"@ && d.message@ == imported_statement_message()
                && d.path == Some(path) && d.line == Some(program.stmts@[0].start().0)
                && d.column == Some(program.stmts@[0].start().1),
            r is Err ==> final(self).visiting() == old(self).visiting(),
            r is Ok ==> final(self).visiting() == old(self).visiting().push(path@),
            final(self).loaded() == old(self).loaded(),
    {
        if !is_entry && program.stmts.len() > 0 {
            let stmt = &program.stmts[0];
            let line = stmt.line();
            let column = stmt.column();
            return Err(
                Diagnostic::new(
                    "import",
                    String::from_str(
                        "imported stage1 modules may only contain imports, struct declarations, enum declarations, and function declarations",
                    ),
                ).with_path(path).with_span(line, column),
            );
        }
        let ghost old_visiting = self.visiting();
        self.visiting.push(path);
        proof {
            let p = self.visiting@[self.visiting@.len() - 1]@;
            assert(self.visiting() =~= old_visiting.push(p));
            assert forall|i: int, j: int|
                0 <= i < self.visiting().len() && 0 <= j < self.loaded().len() implies #[trigger] self.visiting()[i]
                != (#[trigger] self.loaded()[j]).path@ by {
                if i == old_visiting.len() {
                    assert(module_paths(self.loaded())[j] == self.loaded()[j].path@);
                } else {
                    assert(self.visiting()[i] == old_visiting[i]);
                }
            }
            assert forall|i: int, j: int| 0 <= i < j < self.visiting().len() implies self.visiting()[i]
                != self.visiting()[j] by {
                if j == old_visiting.len() {
                    assert(self.visiting()[i] == old_visiting[i]);
                }
            }
        }
        Ok(())
    }

    /// The module whose imports are being loaded now, if any.
    pub fn current(&self) -> (r: Option<&String>)
        ensures
            self.visiting().len() == 0 ==> r is None,
            self.visiting().len() > 0 ==> (r matches Some(p) && p@ == self.visiting().last()),
    {
        if self.visiting.len() == 0 {
            None
        } else {
            let k = self.visiting.len() - 1;
            proof {
                assert(self.visiting()[k as int] == self.visiting@[k as int]@);
            }
            Some(&self.visiting[k])
        }
    }

    /// Completes the module entered last, once its imports are loaded: it
    /// leaves the modules being entered and joins the loaded ones.
    pub fn finish(&mut self, module: LoadedModule)
        requires
            old(self).wf(),
            old(self).visiting().len() > 0,
            old(self).visiting().last() == module.path@,
        ensures
            final(self).wf(),
            final(self).visiting() == old(self).visiting().drop_last(),
            final(self).loaded() == old(self).loaded().push(module),
    {
        let ghost old_visiting = self.visiting();
        let ghost old_loaded = self.loaded();
        let ghost p = module.path@;
        self.visiting.pop();
        self.ordered.push(module);
        proof {
            assert(self.visiting() =~= old_visiting.drop_last());
            assert(module_paths(self.loaded()) =~= module_paths(old_loaded).push(p));
            assert(old_visiting[old_visiting.len() - 1] == p);
            assert forall|j: int| 0 <= j < module_paths(old_loaded).len() implies module_paths(
                old_loaded,
            )[j] != p by {
                assert(old_loaded[j].path@ == module_paths(old_loaded)[j]);
            }
            assert forall|i: int, j: int|
                0 <= i < self.visiting().len() && 0 <= j < self.loaded().len() implies #[trigger] self.visiting()[i]
                != (#[trigger] self.loaded()[j]).path@ by {
                assert(self.visiting()[i] == old_visiting[i]);
                if j < old_loaded.len() {
                    assert(self.loaded()[j] == old_loaded[j]);
                } else {
                    assert(self.loaded()[j].path@ == p);
                }
            }
        }
    }

    /// The loaded modules, each after the modules it imports.
    pub fn into_modules(self) -> (ms: Vec<LoadedModule>)
        ensures
            ms@ == self.loaded(),
    {
        self.ordered
    }
}

/// However the imports of a package run, the load gives each module once.
pub proof fn lemma_modules_loaded_once(l: &ModuleLoader)
    requires
        l.wf(),
    ensures
        forall|i: int, j: int|
            0 <= i < j < l.loaded().len() ==> (#[trigger] l.loaded()[i]).path@
                != (#[trigger] l.loaded()[j]).path@,
{
    assert forall|i: int, j: int| 0 <= i < j < l.loaded().len() implies (#[trigger] l.loaded()[i]).path@
        != (#[trigger] l.loaded()[j]).path@ by {
        assert(module_paths(l.loaded())[i] == l.loaded()[i].path@);
        assert(module_paths(l.loaded())[j] == l.loaded()[j].path@);
    }
}

} // verus!
