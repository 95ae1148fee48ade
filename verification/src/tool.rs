//! Command lines of the outside tools and what a finished tool hands back.
//!
//! The library decides which tool to run and what its output means; running
//! it is left to the caller.

use vstd::prelude::*;
use vstd::string::*;

verus! {

/// A tool to run: its program name and its arguments.
#[derive(Debug)]
pub struct ToolCommand {
    pub program: String,
    pub args: Vec<String>,
}

/// The text of a command line.
pub struct ToolCommandView {
    pub program: Seq<char>,
    pub args: Seq<Seq<char>>,
}

/// The views of a sequence of strings.
pub open spec fn texts(v: Seq<String>) -> Seq<Seq<char>> {
    v.map_values(|s: String| s@)
}

impl View for ToolCommand {
    type V = ToolCommandView;

    open spec fn view(&self) -> ToolCommandView {
        ToolCommandView { program: self.program@, args: texts(self.args@) }
    }
}

/// What a tool that ran to its end has left.
#[derive(Debug)]
pub struct ToolOutput {
    /// Whether the exit status was zero.
    pub success: bool,
    /// The text of standard output.
    pub stdout: String,
    /// The text of standard error.
    pub stderr: String,
}

/// How the attempt to run a tool ended: with its output, or with the reason why
/// it could not be started.
pub type ToolOutcome = Result<ToolOutput, String>;

/// The answer of a tool that reports on standard output alone: its output, as
/// success where the exit status was zero and as failure otherwise.
pub open spec fn stdout_answer(outcome: ToolOutcome) -> Result<Seq<char>, Seq<char>> {
    match outcome {
        Err(reason) => Err(reason@),
        Ok(output) => if output.success {
            Ok(output.stdout@)
        } else {
            Err(output.stdout@)
        },
    }
}

/// The text of a result whose two sides are strings.
pub open spec fn answer_text(r: Result<String, String>) -> Result<Seq<char>, Seq<char>> {
    match r {
        Ok(s) => Ok(s@),
        Err(s) => Err(s@),
    }
}

/// The command `program` with one argument for each of `args`.
pub fn command(program: &str, args: &[&str]) -> (cmd: ToolCommand)
    ensures
        cmd@.program == program@,
        cmd@.args == args@.map_values(|a: &str| a@),
{
    let mut list: Vec<String> = Vec::new();
    let mut i: usize = 0;
    while i < args.len()
        invariant
            i <= args.len(),
            texts(list@) == args@.take(i as int).map_values(|a: &str| a@),
        decreases args.len() - i,
    {
        let ghost before = texts(list@);
        list.push(String::from_str(args[i]));
        assert(texts(list@) =~= before.push(args@[i as int]@));
        assert(args@.take(i + 1).map_values(|a: &str| a@) =~= args@.take(i as int).map_values(
            |a: &str| a@,
        ).push(args@[i as int]@));
        i += 1;
    }
    assert(args@.take(i as int) =~= args@);
    ToolCommand { program: String::from_str(program), args: list }
}

/// The command that asks the debug bridge to connect to the device at `ip`.
pub fn adb_connect_command(ip: &str) -> (cmd: ToolCommand)
    ensures
        cmd@.program == "adb"@,
        cmd@.args == seq!["connect"@, ip@],
{
    let cmd = command("adb", &["connect", ip]);
    assert(cmd@.args =~= seq!["connect"@, ip@]);
    cmd
}

/// The command that asks the debug bridge to pair with the device at `ip`
/// under the pairing code `code`.
pub fn adb_pair_command(ip: &str, code: &str) -> (cmd: ToolCommand)
    ensures
        cmd@.program == "adb"@,
        cmd@.args == seq!["pair"@, ip@, code@],
{
    let cmd = command("adb", &["pair", ip, code]);
    assert(cmd@.args =~= seq!["pair"@, ip@, code@]);
    cmd
}

/// What a connection attempt reports: the text the tool printed, as success
/// where it exited with status zero and as failure otherwise; where the tool
/// could not be started, the reason.
pub fn adb_connect(outcome: ToolOutcome) -> (r: Result<String, String>)
    ensures
        answer_text(r) == stdout_answer(outcome),
{
    match outcome {
        Err(reason) => Err(reason),
        Ok(output) => if output.success {
            Ok(output.stdout)
        } else {
            Err(output.stdout)
        },
    }
}

/// What a pairing attempt reports: the text the tool printed, as success where
/// it exited with status zero and as failure otherwise; where the tool could
/// not be started, the reason.
pub fn adb_pair(outcome: ToolOutcome) -> (r: Result<String, String>)
    ensures
        answer_text(r) == stdout_answer(outcome),
{
    match outcome {
        Err(reason) => Err(reason),
        Ok(output) => if output.success {
            Ok(output.stdout)
        } else {
            Err(output.stdout)
        },
    }
}

} // verus!
