use axiomc::cli::{commands, PROGRAM_ABOUT, PROGRAM_NAME};
use axiomc::project::{build_summary_lines, BuildOutput};

fn clap_command() -> clap::Command {
    let mut cmd = clap::Command::new(PROGRAM_NAME).about(PROGRAM_ABOUT);
    for spec in commands() {
        let mut sub = clap::Command::new(spec.name).about(spec.about);
        sub = sub.arg(clap::Arg::new(spec.path_arg).required(!spec.path_optional));
        for option in &spec.options {
            let mut arg = clap::Arg::new(option.long).long(option.long);
            if let Some(short) = option.short {
                arg = arg.short(short);
            }
            arg = if option.takes_value {
                arg.action(clap::ArgAction::Set)
            } else {
                arg.action(clap::ArgAction::SetTrue)
            };
            sub = sub.arg(arg);
        }
        cmd = cmd.subcommand(sub);
    }
    cmd.subcommand_required(true)
}

#[test]
fn help_describes_supported_stage1_workflows() {
    let help = clap_command().render_long_help().to_string();
    assert!(help.contains("Create a new stage1 package"));
    assert!(help.contains("Check a stage1 package or workspace member"));
    assert!(help.contains("Build a stage1 package into generated Rust"));
    assert!(help.contains("Build and run a stage1 package native binary"));
    assert!(help.contains("Discover, build, and run package test entrypoints"));
    assert!(help.contains("Inspect manifest capability requirements"));
}

fn build_output(debug_map: Option<String>) -> BuildOutput {
    BuildOutput {
        manifest: String::from("axiom.toml"),
        entry: String::from("src/main.ax"),
        binary: String::from("dist/app"),
        generated_rust: String::from("target/main.rs"),
        debug_map,
        statement_count: 1,
        target: None,
        debug: true,
        cache_hits: 0,
        cache_misses: 1,
        duration_ms: 1,
        packages: Vec::new(),
    }
}

#[test]
fn build_summary_mentions_debug_map_when_available() {
    assert_eq!(
        build_summary_lines(&build_output(Some(String::from(
            "target/main.debug-map.json"
        )))),
        vec![
            String::from("wrote dist/app"),
            String::from("wrote debug map target/main.debug-map.json"),
        ]
    );
}

#[test]
fn build_summary_omits_debug_map_for_release_builds() {
    assert_eq!(
        build_summary_lines(&build_output(None)),
        vec![String::from("wrote dist/app")]
    );
}

#[test]
fn every_subcommand_parses_its_options() {
    let matches = clap_command()
        .try_get_matches_from(["axiomc", "build", "demo", "--json", "--target", "x86", "-p", "core"])
        .expect("parse build");
    let (name, sub) = matches.subcommand().expect("subcommand");
    assert_eq!(name, "build");
    assert!(sub.get_flag("json"));
    assert_eq!(sub.get_one::<String>("target").map(String::as_str), Some("x86"));
    assert_eq!(sub.get_one::<String>("package").map(String::as_str), Some("core"));
    let caps = clap_command().try_get_matches_from(["axiomc", "caps"]).expect("parse caps");
    assert_eq!(caps.subcommand_name(), Some("caps"));
}
