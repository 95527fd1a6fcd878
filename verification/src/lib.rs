//! The stage1 bootstrap compiler of the Axiom language: a line-oriented parser,
//! a type and ownership checker, a lowering to a codegen-ready form, and a Rust
//! source emitter, together with the package-manifest rules they rely on.
pub mod text;
pub mod diagnostics;
pub mod scan;
pub mod syntax;
pub mod manifest;
pub mod hir;
pub mod mir;
pub mod runtime;
pub mod codegen;
pub mod stdlib;
pub mod lockfile;
pub mod new_project;
pub mod capabilities;
pub mod project;
pub mod cli;
pub mod modules;
pub mod registry;
pub mod dap;
pub mod paths;
pub mod analysis;
pub mod loader;
pub mod workspace;
