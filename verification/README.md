# axiomc

The stage1 bootstrap compiler of the Axiom language, as a verified Rust
library with a thin command line around it.

`src/` is the library, verified with Verus:

- `syntax` parses a source file; `scan` and `text` hold the character-level
  helpers it rests on.
- `modules`, `loader`, `paths` and `stdlib` load a package's modules, resolve
  imports, and flatten the modules into one program under qualified names.
- `capabilities` holds each module to its package's capabilities; `hir`
  checks types, ownership and control flow and lowers the program; `mir`
  lowers it once more; `codegen` and `runtime` write the Rust source.
- `manifest`, `lockfile`, `workspace` and `project` hold the package rules:
  manifests, lockfiles, workspace walks, test selection and reports.
- `analysis` runs the checks on loaded modules; `cli`, `dap`, `registry` and
  `new_project` hold the command surface, the debug adapter's decisions, the
  package registry's rules and project naming.

`app/` is the `axiomc` binary: argument parsing, files, `rustc`, JSON
output, the registry index files and the debug adapter's stdio loop.
`tests/` exercise the library from outside.
