use clippy_lint_tester::clippy_workspace::{
    format_command, join_command, ClippyBin, ClippyWorkspace, CommandLine,
};

fn strings(items: &[&str]) -> Vec<String> {
    items.iter().map(|item| item.to_string()).collect()
}

fn workspace() -> ClippyWorkspace {
    ClippyWorkspace::new("nightly-2021-03-25", "/home/rust-clippy/Cargo.toml")
}

const HEAD: [&str; 6] = [
    "+nightly-2021-03-25",
    "--quiet",
    "run",
    "--manifest-path=/home/rust-clippy/Cargo.toml",
    "--release",
    "--bin",
];

fn with_head(bin: &str, rest: &[&str]) -> Vec<String> {
    let mut args = strings(&HEAD);
    args.push(bin.to_string());
    args.push("--".to_string());
    args.extend(strings(rest));
    args
}

#[test]
fn the_workspace_holds_its_two_arguments() {
    let built = workspace();
    assert_eq!(built.toolchain_arg, "+nightly-2021-03-25");
    assert_eq!(built.manifest_arg, "--manifest-path=/home/rust-clippy/Cargo.toml");
    let build = built.make_build_command();
    assert_eq!(build.program, "cargo");
    assert!(build.current_dir.is_none());
    assert_eq!(
        build.args,
        strings(&["+nightly-2021-03-25", "build", "--manifest-path=/home/rust-clippy/Cargo.toml", "--release"])
    );
}

#[test]
fn clippy_is_run_through_cargo() {
    let driver = workspace().make_clippy_command(ClippyBin::ClippyDriver);
    assert_eq!(driver.program, "cargo");
    assert_eq!(driver.args, with_head("clippy-driver", &[]));
    let clippy = workspace().make_clippy_command(ClippyBin::CargoClippy);
    assert_eq!(clippy.args, with_head("cargo-clippy", &[]));
    assert!(clippy.current_dir.is_none());
    assert_eq!(workspace().make_help_command().args, with_head("clippy-driver", &["-W", "help"]));
}

#[test]
fn the_lint_command_warns_of_the_lints() {
    let command = workspace().make_lint_command("/t/_target", "/t/serde", &strings(&["clippy::a", "clippy::b"]));
    assert_eq!(command.current_dir.as_deref(), Some("/t/serde"));
    assert_eq!(
        command.args,
        with_head(
            "cargo-clippy",
            &[
                "--", "--quiet", "--message-format=json", "--target-dir", "/t/_target", "--",
                "--cap-lints", "warn", "--allow", "clippy::all", "--warn", "clippy::a", "--warn",
                "clippy::b",
            ]
        )
    );
}

#[test]
fn the_allow_check_forbids_the_lints() {
    let command = workspace().make_allow_check_command("/t/_target", "/t/serde", &strings(&["clippy::a"]));
    assert_eq!(command.current_dir.as_deref(), Some("/t/serde"));
    assert_eq!(
        command.args,
        with_head(
            "cargo-clippy",
            &[
                "--", "--target-dir", "/t/_target", "--quiet", "--message-format=json", "--",
                "--allow", "clippy::all", "--forbid", "clippy::a",
            ]
        )
    );
}

#[test]
fn the_fix_command_fixes_in_place() {
    let command = workspace().make_fix_command("/t/_target", "/f/serde", &strings(&["clippy::a"]));
    assert_eq!(command.current_dir.as_deref(), Some("/f/serde"));
    assert_eq!(
        command.args,
        with_head(
            "cargo-clippy",
            &[
                "--", "--target-dir", "/t/_target", "--fix", "--broken-code", "--allow-dirty",
                "--allow-staged", "--allow-no-vcs", "--", "--cap-lints", "warn", "--allow",
                "clippy::all", "--warn", "clippy::a",
            ]
        )
    );
}

#[test]
fn commands_are_written_out() {
    assert_eq!(join_command(&None, "cargo", &vec![]), "cargo");
    assert_eq!(join_command(&None, "cargo", &strings(&["a", "'b c'"])), "cargo a 'b c'");
    assert_eq!(join_command(&Some("/x".to_string()), "cargo", &strings(&["a"])), "cd /x && cargo a");
    let command = CommandLine {
        program: "cargo".to_string(),
        args: strings(&["--warn", "clippy-all"]),
        current_dir: Some("/t/serde".to_string()),
    };
    assert_eq!(format_command(&command), "cd /t/serde && cargo --warn clippy-all");
    let quoted = CommandLine { program: "p".to_string(), args: strings(&["a b"]), current_dir: None };
    let line = format_command(&quoted);
    assert!(line.starts_with("p "));
    assert!(line != "p a b");
}
