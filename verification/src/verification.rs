//! The oracle that judges a candidate: which cargo command runs in the
//! isolated workspace, and the verdict it returns.

use vstd::prelude::*;
use vstd::string::StringExecFns;

verus! {

/// Which cargo command decides that a repair works.
#[derive(Debug, Clone, Copy, PartialEq, Eq, Structural)]
pub enum VerifyMode {
    Check,
    Build,
    Test,
}

/// The name of a mode: its cargo subcommand.
pub open spec fn mode_name(m: VerifyMode) -> Seq<char> {
    match m {
        VerifyMode::Check => "check"@,
        VerifyMode::Build => "build"@,
        VerifyMode::Test => "test"@,
    }
}

/// The arguments handed to cargo in a mode.
pub open spec fn mode_args(m: VerifyMode) -> Seq<Seq<char>> {
    Seq::empty().push(mode_name(m)).push("--message-format=json"@)
}

/// The command line of a mode: `cargo` and its arguments, space-separated.
pub open spec fn mode_command(m: VerifyMode) -> Seq<char> {
    "cargo "@ + mode_name(m) + " --message-format=json"@
}

/// The mode a `--verify` value names.
pub open spec fn mode_named(s: Seq<char>) -> Option<VerifyMode> {
    if s == "check"@ {
        Some(VerifyMode::Check)
    } else if s == "build"@ {
        Some(VerifyMode::Build)
    } else if s == "test"@ {
        Some(VerifyMode::Test)
    } else {
        None
    }
}

impl VerifyMode {
    /// The cargo subcommand of the mode.
    pub fn as_str(&self) -> (r: &'static str)
        ensures
            r@ == mode_name(*self),
    {
        match self {
            VerifyMode::Check => "check",
            VerifyMode::Build => "build",
            VerifyMode::Test => "test",
        }
    }

    /// The arguments for cargo: the subcommand and JSON diagnostics.
    pub fn cargo_args(&self) -> (r: Vec<&'static str>)
        ensures
            r@.map_values(|s: &str| s@) == mode_args(*self),
    {
        let r = vec![self.as_str(), "--message-format=json"];
        assert(r@.map_values(|s: &str| s@) =~= mode_args(*self));
        r
    }

    /// The command line that runs in the workspace.
    pub fn command_line(&self) -> (r: String)
        ensures
            r@ == mode_command(*self),
    {
        let mut r = String::from_str("cargo ");
        r.append(self.as_str());
        r.append(" --message-format=json");
        r
    }
}

/// The mode a `--verify` value names: `check`, `build` or `test`.
pub fn parse_verify_mode(mode: &str) -> (r: Option<VerifyMode>)
    ensures
        r == mode_named(mode@),
{
    if crate::text::str_eq(mode, "check") {
        Some(VerifyMode::Check)
    } else if crate::text::str_eq(mode, "build") {
        Some(VerifyMode::Build)
    } else if crate::text::str_eq(mode, "test") {
        Some(VerifyMode::Test)
    } else {
        None
    }
}

/// The verdict of one cargo run in the isolated workspace.
#[derive(Debug)]
pub struct VerificationResult {
    pub passed: bool,
    pub exit_status: bool,
    pub stdout: String,
    pub stderr: String,
    pub duration_ms: u128,
    pub command: String,
}

/// The mathematical content of a [`VerificationResult`].
pub struct VerificationView {
    pub passed: bool,
    pub exit_status: bool,
    pub stdout: Seq<char>,
    pub stderr: Seq<char>,
    pub duration_ms: u128,
    pub command: Seq<char>,
}

impl View for VerificationResult {
    type V = VerificationView;

    open spec fn view(&self) -> VerificationView {
        VerificationView {
            passed: self.passed,
            exit_status: self.exit_status,
            stdout: self.stdout@,
            stderr: self.stderr@,
            duration_ms: self.duration_ms,
            command: self.command@,
        }
    }
}

impl Clone for VerificationResult {
    fn clone(&self) -> (r: Self)
        ensures
            r@ == self@,
    {
        VerificationResult {
            passed: self.passed,
            exit_status: self.exit_status,
            stdout: self.stdout.clone(),
            stderr: self.stderr.clone(),
            duration_ms: self.duration_ms,
            command: self.command.clone(),
        }
    }
}

} // verus!
