//! What came of running the container CLI.
use vstd::prelude::*;

use crate::error;
use crate::error::NpxcError;
use crate::text;

verus! {

/// What came of running a command.
#[derive(Debug)]
pub enum Outcome {
    /// It ended, with this exit code if it had one; zero is success.
    Exited(Option<i32>),
    /// It could not be started.
    NotStarted(String),
}

impl Outcome {
    /// Whether the command ended well.
    pub open spec fn ok(self) -> bool {
        self == Outcome::Exited(Some(0i32))
    }

    /// Whether the command ended well.
    pub fn success(&self) -> (r: bool)
        ensures
            r == self.ok(),
    {
        match self {
            Outcome::Exited(Some(c)) => *c == 0,
            _ => false,
        }
    }
}

impl Outcome {
    /// Whether the command was started at all.
    pub fn ran(&self) -> (r: bool)
        ensures
            r == (self is Exited),
    {
        match self {
            Outcome::Exited(_) => true,
            Outcome::NotStarted(_) => false,
        }
    }
}

/// The `Debug` form of an optional exit code.
pub open spec fn debug_code(code: Option<i32>) -> Seq<char> {
    match code {
        Some(c) => "Some("@ + error::signed_decimal(c as int) + ")"@,
        None => "None"@,
    }
}

/// The `Debug` form of an optional exit code.
pub fn code_text(code: Option<i32>) -> (r: String)
    ensures
        r@ == debug_code(code),
{
    match code {
        Some(c) => {
            let s = text::cat("Some(", error::signed_decimal_of(c).as_str());
            text::cat(s.as_str(), ")")
        },
        None => "None".to_owned(),
    }
}

/// The message for a command that could not be started.
pub open spec fn not_started(cli: Seq<char>, e: Seq<char>) -> Seq<char> {
    "failed to spawn '"@ + cli + "': "@ + e
}

/// The error for a command that could not be started.
pub fn spawn_error(cli: &str, e: &str) -> (r: NpxcError)
    ensures
        r matches NpxcError::RuntimeNotAvailable(m) && m@ == not_started(cli@, e@),
{
    let s = text::cat("failed to spawn '", cli);
    let s = text::cat(s.as_str(), "': ");
    NpxcError::RuntimeNotAvailable(text::cat(s.as_str(), e))
}

/// The message for a command that ended badly, with what it printed.
pub open spec fn failed_text(cli: Seq<char>, what: Seq<char>, stderr: Seq<u8>) -> Seq<char> {
    "`"@ + cli + " "@ + what + "` failed: "@ + text::trimmed(text::lossy_text(stderr))
}

/// The error for a command that ended badly, with what it printed.
pub fn command_error(cli: &str, what: &str, stderr: &[u8]) -> (r: NpxcError)
    ensures
        r matches NpxcError::Runtime(m) && m@ == failed_text(cli@, what@, stderr@),
{
    let s = text::cat("`", cli);
    let s = text::cat(s.as_str(), " ");
    let s = text::cat(s.as_str(), what);
    let s = text::cat(s.as_str(), "` failed: ");
    let shown = text::trim(text::from_utf8_lossy(stderr).as_str());
    NpxcError::Runtime(text::cat(s.as_str(), shown.as_str()))
}

/// What is said of a command that failed shows the command and what it printed, and of
/// one that could not be started the program and why.
pub proof fn failures_are_shown(
    cli: Seq<char>,
    what: Seq<char>,
    stderr: Seq<u8>,
    e: Seq<char>,
    code: i32,
)
    ensures
        failed_text(cli, what, stderr) == seq!['`'] + cli + seq![' '] + what + "` failed: "@
            + text::trimmed(text::lossy_text(stderr)),
        not_started(cli, e) == "failed to spawn '"@ + cli + "': "@ + e,
        code >= 0 ==> debug_code(Some(code)) == "Some("@ + text::decimal(code as nat) + ")"@,
        code < 0 ==> debug_code(Some(code)) == "Some("@ + ("-"@ + text::decimal((-code) as nat))
            + ")"@,
        debug_code(None) == "None"@,
{
    reveal_strlit("`");
    reveal_strlit(" ");
    assert("`"@ =~= seq!['`']);
    assert(" "@ =~= seq![' ']);
}

/// A command ended well exactly where it ended with the code zero.
pub proof fn zero_is_success(outcome: Outcome)
    ensures
        outcome.ok() <==> (outcome matches Outcome::Exited(Some(c)) && c == 0),
{
}

} // verus!
