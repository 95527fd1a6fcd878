//! The command-line surface of `axiomc`: its subcommands, what each does, and
//! the options each takes. The program that parses arguments builds its
//! parser from this table.
use vstd::prelude::*;

verus! {

/// The program's name on the command line.
pub const PROGRAM_NAME: &'static str = "axiomc";

/// The program's one-line description.
pub const PROGRAM_ABOUT: &'static str = "Axiom stage1 bootstrap compiler";

/// One option of a subcommand.
#[derive(Debug, Clone, Copy, PartialEq, Eq)]
pub struct OptionSpec {
    /// The long form, written `--<long>`.
    pub long: &'static str,
    /// The short form, written `-<c>`, where there is one.
    pub short: Option<char>,
    /// Whether the option takes a value; otherwise it is a switch.
    pub takes_value: bool,
}

/// One subcommand.
#[derive(Debug, Clone, PartialEq, Eq)]
pub struct CommandSpec {
    pub name: &'static str,
    pub about: &'static str,
    /// The name of the path argument.
    pub path_arg: &'static str,
    /// Whether the path argument may be left out.
    pub path_optional: bool,
    pub options: Vec<OptionSpec>,
}

fn switch(long: &'static str) -> (o: OptionSpec)
    ensures
        o.long == long && o.short is None && !o.takes_value,
{
    OptionSpec { long, short: None, takes_value: false }
}

fn valued(long: &'static str) -> (o: OptionSpec)
    ensures
        o.long == long && o.short is None && o.takes_value,
{
    OptionSpec { long, short: None, takes_value: true }
}

fn package_option() -> (o: OptionSpec)
    ensures
        o.short == Some('p') && o.takes_value,
{
    OptionSpec { long: "package", short: Some('p'), takes_value: true }
}

/// The subcommands in the order `--help` lists them.
pub open spec fn command_names() -> Seq<Seq<char>> {
    seq!["new"@, "check"@, "build"@, "run"@, "test"@, "caps"@]
}

/// The subcommands of `axiomc`, with their descriptions and options.
pub fn commands() -> (v: Vec<CommandSpec>)
    ensures
        v@.len() == command_names().len(),
        forall|i: int| 0 <= i < v@.len() ==> (#[trigger] v@[i]).name@ == command_names()[i],
{
    vec![
        CommandSpec {
            name: "new",
            about: "Create a new stage1 package with axiom.toml, axiom.lock, and starter source.",
            path_arg: "path",
            path_optional: false,
            options: vec![valued("name")],
        },
        CommandSpec {
            name: "check",
            about: "Check a stage1 package or workspace member without building a binary.",
            path_arg: "path",
            path_optional: false,
            options: vec![switch("json"), package_option()],
        },
        CommandSpec {
            name: "build",
            about: "Build a stage1 package into generated Rust and a native binary.",
            path_arg: "path",
            path_optional: false,
            options: vec![switch("json"), switch("debug"), valued("target"), package_option()],
        },
        CommandSpec {
            name: "run",
            about: "Build and run a stage1 package native binary.",
            path_arg: "path",
            path_optional: false,
            options: vec![package_option()],
        },
        CommandSpec {
            name: "test",
            about: "Discover, build, and run package test entrypoints.",
            path_arg: "path",
            path_optional: false,
            options: vec![switch("json"), valued("filter"), package_option()],
        },
        CommandSpec {
            name: "caps",
            about: "Inspect manifest capability requirements.",
            path_arg: "path",
            path_optional: true,
            options: vec![switch("json")],
        },
    ]
}

} // verus!
