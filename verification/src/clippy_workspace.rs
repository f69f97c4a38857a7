//! The command lines that build Clippy from its sources and run it on a
//! crate. The caller starts the processes.

use vstd::prelude::*;
use vstd::string::StringExecFns;
use crate::text::texts;

verus! {

/// The binaries of a Clippy workspace.
#[derive(Clone, Copy, Debug, PartialEq, Eq, Structural)]
pub enum ClippyBin {
    CargoClippy,
    ClippyDriver,
}

/// A program to run, with its arguments and, where it matters, the
/// directory to run it in.
pub struct CommandLine {
    pub program: String,
    pub args: Vec<String>,
    pub current_dir: Option<String>,
}

/// Appends one argument.
pub fn push_arg(args: &mut Vec<String>, arg: &str)
    ensures
        texts(final(args)@) == texts(old(args)@).push(arg@),
{
    args.push(String::from_str(arg));
    assert(texts(args@) =~= texts(old(args)@).push(arg@));
}

/// Appends `flag` and a name, for each name in turn.
pub open spec fn flagged(flag: Seq<char>, names: Seq<String>) -> Seq<Seq<char>>
    decreases names.len(),
{
    if names.len() == 0 {
        Seq::empty()
    } else {
        flagged(flag, names.drop_last()).push(flag).push(names.last()@)
    }
}

/// Appends `flag` and a name, for each name in turn.
pub fn push_flagged(args: &mut Vec<String>, flag: &str, names: &Vec<String>)
    ensures
        texts(final(args)@) == texts(old(args)@) + flagged(flag@, names@),
{
    let mut index: usize = 0;
    assert(texts(args@) + flagged(flag@, names@.take(0)) == texts(args@));
    while index < names.len()
        invariant
            index <= names.len(),
            texts(args@) == texts(old(args)@) + flagged(flag@, names@.take(index as int)),
        decreases names.len() - index,
    {
        proof {
            let upto = names@.take(index + 1);
            assert(upto.drop_last() == names@.take(index as int));
            assert(upto.last() == names@[index as int]);
        }
        let ghost before = texts(args@);
        push_arg(args, flag);
        push_arg(args, names[index].as_str());
        assert(texts(args@) == texts(old(args)@) + flagged(flag@, names@.take(index + 1)));
        index = index + 1;
    }
    assert(names@.take(index as int) == names@);
}

/// A Clippy workspace that has been built: the two arguments that every
/// call of Cargo on it takes.
pub struct ClippyWorkspace {
    /// The toolchain, as in `+nightly-2021-03-25`.
    pub toolchain_arg: String,
    /// The manifest, as in `--manifest-path=/home/rust-clippy/Cargo.toml`.
    pub manifest_arg: String,
}

/// The name under which Cargo knows a binary.
pub open spec fn bin_name(bin: ClippyBin) -> Seq<char> {
    match bin {
        ClippyBin::CargoClippy => "cargo-clippy"@,
        ClippyBin::ClippyDriver => "clippy-driver"@,
    }
}

/// The arguments with which Cargo runs a binary of the workspace, up to
/// the `--` behind which the binary's own arguments follow.
pub open spec fn clippy_args(toolchain: Seq<char>, manifest: Seq<char>, bin: ClippyBin) -> Seq<
    Seq<char>,
> {
    seq![
        toolchain,
        "--quiet"@,
        "run"@,
        manifest,
        "--release"@,
        "--bin"@,
        bin_name(bin),
        "--"@,
    ]
}

/// What a lint run passes to `cargo-clippy`.
pub open spec fn lint_args(target_dir: Seq<char>, lints: Seq<String>) -> Seq<Seq<char>> {
    seq![
        "--"@,
        "--quiet"@,
        "--message-format=json"@,
        "--target-dir"@,
        target_dir,
        "--"@,
        "--cap-lints"@,
        "warn"@,
        "--allow"@,
        "clippy::all"@,
    ] + flagged("--warn"@, lints)
}

/// What a search for `allow` attributes passes to `cargo-clippy`.
pub open spec fn allow_check_args(target_dir: Seq<char>, lints: Seq<String>) -> Seq<Seq<char>> {
    seq![
        "--"@,
        "--target-dir"@,
        target_dir,
        "--quiet"@,
        "--message-format=json"@,
        "--"@,
        "--allow"@,
        "clippy::all"@,
    ] + flagged("--forbid"@, lints)
}

/// What a fixing run passes to `cargo-clippy`.
pub open spec fn fix_args(target_dir: Seq<char>, lints: Seq<String>) -> Seq<Seq<char>> {
    seq![
        "--"@,
        "--target-dir"@,
        target_dir,
        "--fix"@,
        "--broken-code"@,
        "--allow-dirty"@,
        "--allow-staged"@,
        "--allow-no-vcs"@,
        "--"@,
        "--cap-lints"@,
        "warn"@,
        "--allow"@,
        "clippy::all"@,
    ] + flagged("--warn"@, lints)
}

impl ClippyWorkspace {
    /// The workspace whose toolchain file names `channel` and whose
    /// manifest lies at `manifest_path`.
    pub fn new(channel: &str, manifest_path: &str) -> (workspace: ClippyWorkspace)
        ensures
            workspace.toolchain_arg@ == "+"@ + channel@,
            workspace.manifest_arg@ == "--manifest-path="@ + manifest_path@,
    {
        let mut toolchain_arg = String::from_str("+");
        toolchain_arg.append(channel);
        let mut manifest_arg = String::from_str("--manifest-path=");
        manifest_arg.append(manifest_path);
        ClippyWorkspace { toolchain_arg, manifest_arg }
    }

    /// The command that builds Clippy in release mode.
    pub fn make_build_command(&self) -> (command: CommandLine)
        ensures
            command.program@ == "cargo"@,
            command.current_dir is None,
            texts(command.args@) == seq![
                self.toolchain_arg@,
                "build"@,
                self.manifest_arg@,
                "--release"@,
            ],
    {
        let mut args: Vec<String> = Vec::new();
        assert(texts(args@) =~= Seq::empty());
        push_arg(&mut args, self.toolchain_arg.as_str());
        push_arg(&mut args, "build");
        push_arg(&mut args, self.manifest_arg.as_str());
        push_arg(&mut args, "--release");
        CommandLine { program: String::from_str("cargo"), args, current_dir: None }
    }

    /// The command that runs a binary of the workspace, ready to take the
    /// binary's own arguments.
    pub fn make_clippy_command(&self, bin: ClippyBin) -> (command: CommandLine)
        ensures
            command.program@ == "cargo"@,
            command.current_dir is None,
            texts(command.args@) == clippy_args(self.toolchain_arg@, self.manifest_arg@, bin),
    {
        let mut args: Vec<String> = Vec::new();
        assert(texts(args@) =~= Seq::empty());
        push_arg(&mut args, self.toolchain_arg.as_str());
        push_arg(&mut args, "--quiet");
        push_arg(&mut args, "run");
        push_arg(&mut args, self.manifest_arg.as_str());
        push_arg(&mut args, "--release");
        push_arg(&mut args, "--bin");
        match bin {
            ClippyBin::CargoClippy => push_arg(&mut args, "cargo-clippy"),
            ClippyBin::ClippyDriver => push_arg(&mut args, "clippy-driver"),
        }
        push_arg(&mut args, "--");
        CommandLine { program: String::from_str("cargo"), args, current_dir: None }
    }

    /// The command that lists the lints Clippy knows.
    pub fn make_help_command(&self) -> (command: CommandLine)
        ensures
            command.program@ == "cargo"@,
            command.current_dir is None,
            texts(command.args@) == clippy_args(
                self.toolchain_arg@,
                self.manifest_arg@,
                ClippyBin::ClippyDriver,
            ) + seq!["-W"@, "help"@],
    {
        let mut command = self.make_clippy_command(ClippyBin::ClippyDriver);
        push_arg(&mut command.args, "-W");
        push_arg(&mut command.args, "help");
        command
    }

    /// The command that lints the crate at `path` with every Clippy lint
    /// allowed but `lints`, which warn.
    pub fn make_lint_command(&self, cargo_target_dir: &str, path: &str, lints: &Vec<String>) -> (command:
        CommandLine)
        ensures
            command.program@ == "cargo"@,
            command.current_dir matches Some(dir) && dir@ == path@,
            texts(command.args@) == clippy_args(
                self.toolchain_arg@,
                self.manifest_arg@,
                ClippyBin::CargoClippy,
            ) + lint_args(cargo_target_dir@, lints@),
    {
        let mut command = self.make_clippy_command(ClippyBin::CargoClippy);
        let ghost head = texts(command.args@);
        push_arg(&mut command.args, "--");
        push_arg(&mut command.args, "--quiet");
        push_arg(&mut command.args, "--message-format=json");
        push_arg(&mut command.args, "--target-dir");
        push_arg(&mut command.args, cargo_target_dir);
        push_arg(&mut command.args, "--");
        push_arg(&mut command.args, "--cap-lints");
        push_arg(&mut command.args, "warn");
        push_arg(&mut command.args, "--allow");
        push_arg(&mut command.args, "clippy::all");
        push_flagged(&mut command.args, "--warn", lints);
        command.current_dir = Some(String::from_str(path));
        assert(texts(command.args@) == head + lint_args(cargo_target_dir@, lints@));
        command
    }

    /// The command that tells whether the crate at `path` allows any of
    /// `lints`: it forbids them, so that each `allow` is an error.
    pub fn make_allow_check_command(
        &self,
        cargo_target_dir: &str,
        path: &str,
        lints: &Vec<String>,
    ) -> (command: CommandLine)
        ensures
            command.program@ == "cargo"@,
            command.current_dir matches Some(dir) && dir@ == path@,
            texts(command.args@) == clippy_args(
                self.toolchain_arg@,
                self.manifest_arg@,
                ClippyBin::CargoClippy,
            ) + allow_check_args(cargo_target_dir@, lints@),
    {
        let mut command = self.make_clippy_command(ClippyBin::CargoClippy);
        let ghost head = texts(command.args@);
        push_arg(&mut command.args, "--");
        push_arg(&mut command.args, "--target-dir");
        push_arg(&mut command.args, cargo_target_dir);
        push_arg(&mut command.args, "--quiet");
        push_arg(&mut command.args, "--message-format=json");
        push_arg(&mut command.args, "--");
        push_arg(&mut command.args, "--allow");
        push_arg(&mut command.args, "clippy::all");
        push_flagged(&mut command.args, "--forbid", lints);
        command.current_dir = Some(String::from_str(path));
        assert(texts(command.args@) == head + allow_check_args(cargo_target_dir@, lints@));
        command
    }

    /// The command that lets Clippy fix what `lints` warn of in the crate
    /// at `path`.
    pub fn make_fix_command(&self, cargo_target_dir: &str, path: &str, lints: &Vec<String>) -> (command:
        CommandLine)
        ensures
            command.program@ == "cargo"@,
            command.current_dir matches Some(dir) && dir@ == path@,
            texts(command.args@) == clippy_args(
                self.toolchain_arg@,
                self.manifest_arg@,
                ClippyBin::CargoClippy,
            ) + fix_args(cargo_target_dir@, lints@),
    {
        let mut command = self.make_clippy_command(ClippyBin::CargoClippy);
        let ghost head = texts(command.args@);
        push_arg(&mut command.args, "--");
        push_arg(&mut command.args, "--target-dir");
        push_arg(&mut command.args, cargo_target_dir);
        push_arg(&mut command.args, "--fix");
        push_arg(&mut command.args, "--broken-code");
        push_arg(&mut command.args, "--allow-dirty");
        push_arg(&mut command.args, "--allow-staged");
        push_arg(&mut command.args, "--allow-no-vcs");
        push_arg(&mut command.args, "--");
        push_arg(&mut command.args, "--cap-lints");
        push_arg(&mut command.args, "warn");
        push_arg(&mut command.args, "--allow");
        push_arg(&mut command.args, "clippy::all");
        push_flagged(&mut command.args, "--warn", lints);
        command.current_dir = Some(String::from_str(path));
        assert(texts(command.args@) == head + fix_args(cargo_target_dir@, lints@));
        command
    }
}

/// A command as one would type it, from its parts as they are once quoted
/// for the shell: a change of directory where there is one, the program,
/// and each argument after a blank.
pub open spec fn command_text(dir: Option<Seq<char>>, program: Seq<char>, args: Seq<Seq<char>>) -> Seq<
    char,
> {
    (match dir {
        Some(path) => "cd "@ + path + " && "@,
        None => Seq::empty(),
    }) + program + spaced(args)
}

/// Each text after a blank.
pub open spec fn spaced(args: Seq<Seq<char>>) -> Seq<char>
    decreases args.len(),
{
    if args.len() == 0 {
        Seq::empty()
    } else {
        spaced(args.drop_last()) + seq![' '] + args.last()
    }
}

/// `shell_escape::escape`: the text quoted for the shell of the platform.
/// Which shell that is depends on the machine, so nothing is claimed of
/// the result.
#[verifier::external_body]
fn escape(text: &str) -> String {
    shell_escape::escape(std::borrow::Cow::Borrowed(text)).into_owned()
}

/// Writes a command out from parts that are quoted already.
pub fn join_command(dir: &Option<String>, program: &str, args: &Vec<String>) -> (line: String)
    ensures
        line@ == command_text(
            match *dir {
                Some(path) => Some(path@),
                None => None,
            },
            program@,
            texts(args@),
        ),
{
    let mut line = String::new();
    match dir {
        Some(path) => {
            line.append("cd ");
            line.append(path.as_str());
            line.append(" && ");
        },
        None => {},
    }
    line.append(program);
    let ghost head = line@;
    let mut index: usize = 0;
    assert(texts(args@).take(0) == Seq::<Seq<char>>::empty());
    assert(head + spaced(texts(args@).take(0)) == head);
    while index < args.len()
        invariant
            index <= args.len(),
            line@ == head + spaced(texts(args@).take(index as int)),
        decreases args.len() - index,
    {
        proof {
            let upto = texts(args@).take(index + 1);
            assert(upto.drop_last() == texts(args@).take(index as int));
            assert(upto.last() == args@[index as int]@);
        }
        line.append(" ");
        line.append(args[index].as_str());
        proof {
            reveal_strlit(" ");
            assert(" "@ == seq![' ']);
        }
        index = index + 1;
    }
    assert(texts(args@).take(index as int) == texts(args@));
    line
}

/// Writes a command out as one would type it, each part quoted for the
/// shell. The line is that of `join_command` for some quoting of the
/// parts: as many arguments, and a change of directory just where the
/// command has a directory.
pub fn format_command(command: &CommandLine) -> (line: String)
    ensures
        exists|dir: Option<Seq<char>>, program: Seq<char>, args: Seq<Seq<char>>|
            line@ == #[trigger] command_text(dir, program, args) && args.len()
                == command.args@.len() && (dir is Some == command.current_dir is Some),
{
    let dir = match &command.current_dir {
        Some(path) => Some(escape(path.as_str())),
        None => None,
    };
    let program = escape(command.program.as_str());
    let mut args: Vec<String> = Vec::new();
    let mut index: usize = 0;
    while index < command.args.len()
        invariant
            index <= command.args.len(),
            args@.len() == index,
        decreases command.args.len() - index,
    {
        args.push(escape(command.args[index].as_str()));
        index = index + 1;
    }
    let line = join_command(&dir, program.as_str(), &args);
    proof {
        let quoted = match dir {
            Some(path) => Some(path@),
            None => None,
        };
        assert(line@ == command_text(quoted, program@, texts(args@)));
    }
    line
}

} // verus!
