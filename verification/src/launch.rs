//! Starting a command from the "Launch new executable" dialog: what is started, and what the user
//! is told.
use crate::command_line::parse_entry;
use vstd::prelude::*;

verus! {

/// A command to start, detached from the application.
pub struct Launch {
    /// The program.
    pub command: String,
    /// What the program is given: all that the line holds, its own name included.
    pub args: Vec<String>,
}

/// What the user is told when `command` cannot be started.
pub open spec fn failure_text(command: Seq<char>) -> Seq<char> {
    "Failed to start '"@ + command + "'"@
}

/// What the user is told when a command was started.
pub open spec fn success_text() -> Seq<char> {
    "The command started successfully"@
}

/// What to start for `line`.
pub fn start_detached_process(line: &str) -> (launch: Launch)
    ensures
        crate::command_line::texts(launch.args@) == crate::command_line::entry_args(line@),
        launch.args@.len() >= 1,
        launch.command@ == crate::command_line::entry_args(line@)[0],
        launch.args@.len() == crate::command_line::entry_args(line@).len(),
        forall|i: int|
            0 <= i < launch.args@.len() ==> (#[trigger] launch.args@[i])@
                == crate::command_line::entry_args(line@)[i],
        launch.command@ == launch.args@[0]@,
{
    let args = parse_entry(line);
    let command = args[0].clone();
    assert(crate::command_line::texts(args@)[0] == args@[0]@);
    Launch { command, args }
}

/// What went wrong when `launch` was started, if it did.
pub fn start_failure(launch: &Launch, started: bool) -> (failure: Option<String>)
    ensures
        started ==> failure is None,
        !started ==> failure is Some && failure->0@ == failure_text(launch.command@),
        !started ==> failure->0@ == "Failed to start '"@ + launch.command@ + "'"@,
{
    if started {
        None
    } else {
        let mut message = "Failed to start '".to_owned();
        message.append(launch.command.as_str());
        message.append("'");
        Some(message)
    }
}

/// What to start when the command is run with `text` in the entry: nothing, if it holds no text.
pub fn run_command(text: Option<&str>) -> (launch: Option<Launch>)
    ensures
        text is None <==> launch is None,
        text matches Some(line) ==> crate::command_line::texts(launch->0.args@)
            == crate::command_line::entry_args(line@) && launch->0.args@.len() >= 1
            && launch->0.command@ == crate::command_line::entry_args(line@)[0],
        text matches Some(line) ==> launch->0.args@.len() == crate::command_line::entry_args(
            line@,
        ).len() && launch->0.command@ == launch->0.args@[0]@,
        text matches Some(line) ==> forall|i: int|
            0 <= i < launch->0.args@.len() ==> (#[trigger] launch->0.args@[i])@
                == crate::command_line::entry_args(line@)[i],
{
    match text {
        Some(line) => Some(start_detached_process(line)),
        None => None,
    }
}

/// What the user is told after a start.
pub fn run_message(failure: Option<String>) -> (message: String)
    ensures
        failure matches Some(text) ==> message@ == text@,
        failure is None ==> message@ == success_text(),
        failure is None ==> message@ == "The command started successfully"@,
{
    match failure {
        Some(text) => text,
        None => "The command started successfully".to_owned(),
    }
}

/// Whether the run button can be pressed with `text` in the entry.
pub fn can_run(text: Option<&str>) -> (enabled: bool)
    ensures
        enabled <==> (text matches Some(line) && line@.len() > 0),
{
    match text {
        Some(line) => !line.is_empty(),
        None => false,
    }
}

/// A failed start is never reported like a successful one, and reports about two commands differ.
pub proof fn lemma_reports_differ(command: Seq<char>, other: Seq<char>)
    ensures
        failure_text(command) != success_text(),
        command != other ==> failure_text(command) != failure_text(other),
{
    reveal_strlit("Failed to start '");
    reveal_strlit("'");
    reveal_strlit("The command started successfully");
    assert(failure_text(command)[0] == 'F');
    assert(success_text()[0] == 'T');
    if failure_text(command) == failure_text(other) {
        let n = "Failed to start '"@.len() as int;
        assert(failure_text(command).len() == n + command.len() + 1);
        assert(failure_text(other).len() == n + other.len() + 1);
        assert(command =~= failure_text(command).subrange(n, n + command.len()));
        assert(other =~= failure_text(other).subrange(n, n + other.len()));
    }
}

/// The report of a failed start is the program in simple quotes behind fixed words; that of a
/// successful one is fixed.
pub proof fn lemma_report_texts(command: Seq<char>)
    ensures
        failure_text(command) == "Failed to start '"@ + command + "'"@,
        success_text() == "The command started successfully"@,
{
}

} // verus!
