use vstd::prelude::*;

verus! {

/// The external tool that every launch runs.
pub open spec fn cli_program() -> Seq<char> {
    "strands"@
}

/// Result text of a run that exited with code zero.
pub open spec fn success_text() -> Seq<char> {
    "Command executed successfully"@
}

/// Start of the error text of a run that did not exit with code zero.
pub open spec fn failure_prefix() -> Seq<char> {
    "Command failed with status: "@
}

/// Stands for the exit code of a run that ended without one (killed by a
/// signal).
pub open spec fn no_code_text() -> Seq<char> {
    "terminated without an exit code"@
}

/// The decimal digit character for `d`, which is below ten.
pub open spec fn digit_char(d: nat) -> char {
    if d == 0 {
        '0'
    } else if d == 1 {
        '1'
    } else if d == 2 {
        '2'
    } else if d == 3 {
        '3'
    } else if d == 4 {
        '4'
    } else if d == 5 {
        '5'
    } else if d == 6 {
        '6'
    } else if d == 7 {
        '7'
    } else if d == 8 {
        '8'
    } else {
        '9'
    }
}

/// Decimal digits of `n`, most significant first, without leading zeros.
pub open spec fn nat_text(n: nat) -> Seq<char>
    decreases n,
{
    if n < 10 {
        seq![digit_char(n)]
    } else {
        nat_text(n / 10).push(digit_char(n % 10))
    }
}

/// Decimal text of `i`, with a minus sign when it is negative.
pub open spec fn int_text(i: int) -> Seq<char> {
    if i < 0 {
        seq!['-'] + nat_text((-i) as nat)
    } else {
        nat_text(i as nat)
    }
}

/// Relies on the decimal `Display` of `i32` (through `ToString`): digits
/// without leading zeros, after a minus sign when negative.
#[verifier::external_body]
fn decimal(n: i32) -> (r: String)
    ensures
        r@ == int_text(n as int),
{
    n.to_string()
}

/// How to start the tool: its name, the arguments in order, and both output
/// streams captured through pipes rather than inherited.
#[derive(Debug)]
pub struct LaunchRequest {
    pub program: String,
    pub args: Vec<String>,
    pub capture_stdout: bool,
    pub capture_stderr: bool,
}

pub fn launch_request(args: Vec<String>) -> (r: LaunchRequest)
    ensures
        r.program@ == cli_program(),
        r.args@ == args@,
        r.capture_stdout,
        r.capture_stderr,
{
    LaunchRequest {
        program: String::from_str("strands"),
        args,
        capture_stdout: true,
        capture_stderr: true,
    }
}

/// The caller's result for a run that has exited: success exactly when the
/// exit code is zero; otherwise an error that holds the code in decimal.
pub fn exit_result(code: Option<i32>) -> (r: Result<String, String>)
    ensures
        r is Ok <==> code == Some(0i32),
        r matches Ok(s) ==> s@ == success_text(),
        r matches Err(s) ==> s@ == failure_prefix() + match code {
            Some(c) => int_text(c as int),
            None => no_code_text(),
        },
{
    match code {
        Some(0) => Ok(String::from_str("Command executed successfully")),
        Some(c) => {
            let text = decimal(c);
            Err(String::from_str("Command failed with status: ").concat(text.as_str()))
        },
        None => Err(
            String::from_str("Command failed with status: ").concat(
                "terminated without an exit code",
            ),
        ),
    }
}

/// How a launch ended, as observed by the host.
#[derive(Debug)]
pub enum ProcessOutcome {
    /// The tool could not be started; the text gives the cause.
    SpawnFailed(String),
    /// Waiting for the tool failed; the text gives the cause.
    WaitFailed(String),
    /// The tool exited, with its exit code if it had one.
    Exited(Option<i32>),
}

/// The caller's result for a whole launch: a failure to start or to wait
/// is returned as its cause, unchanged; an exit as `exit_result` says.
pub fn launch_result(outcome: ProcessOutcome) -> (r: Result<String, String>)
    ensures
        outcome matches ProcessOutcome::SpawnFailed(e) ==> r == Err::<String, String>(e),
        outcome matches ProcessOutcome::WaitFailed(e) ==> r == Err::<String, String>(e),
        outcome matches ProcessOutcome::Exited(code) ==> {
            &&& (r is Ok <==> code == Some(0i32))
            &&& (r matches Ok(s) ==> s@ == success_text())
            &&& (r matches Err(s) ==> s@ == failure_prefix() + match code {
                Some(c) => int_text(c as int),
                None => no_code_text(),
            })
        },
{
    match outcome {
        ProcessOutcome::SpawnFailed(e) => Err(e),
        ProcessOutcome::WaitFailed(e) => Err(e),
        ProcessOutcome::Exited(code) => exit_result(code),
    }
}

} // verus!
