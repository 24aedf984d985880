use vstd::prelude::*;

use crate::entry::LogError;

verus! {

/// What one run of the program does.
#[derive(Clone, Copy, Debug, PartialEq, Eq, Structural)]
pub enum Command {
    /// Append an open entry (`start`).
    Start,
    /// Append an entry with the time since the most recent open entry (no
    /// argument).
    Timestamp,
    /// Any other argument: print the usage text; the log is not touched.
    Unknown,
}

/// Exit status of a run that succeeded.
pub const EXIT_SUCCESS: u8 = 0;

/// Exit status of a run that failed.
pub const EXIT_FAILURE: u8 = 1;

/// Exit status of a run with an unknown argument.
pub const EXIT_USAGE: u8 = 2;

/// The word that selects record-start.
pub open spec fn start_word() -> Seq<char> {
    seq!['s', 't', 'a', 'r', 't']
}

pub open spec fn command_spec(arg: Option<Seq<char>>) -> Command {
    match arg {
        None => Command::Timestamp,
        Some(a) => if a == start_word() {
            Command::Start
        } else {
            Command::Unknown
        },
    }
}

pub open spec fn touches_log_spec(cmd: Command) -> bool {
    cmd != Command::Unknown
}

pub open spec fn exit_status_spec(cmd: Command, result: Result<(), LogError>) -> u8 {
    if cmd == Command::Unknown {
        EXIT_USAGE
    } else if result is Ok {
        EXIT_SUCCESS
    } else {
        EXIT_FAILURE
    }
}

pub open spec fn arg_view(arg: Option<&str>) -> Option<Seq<char>> {
    match arg {
        Some(a) => Some(a@),
        None => None,
    }
}

/// The command that the first argument, if any, selects.
pub fn command_for(arg: Option<&str>) -> (r: Command)
    ensures
        r == command_spec(arg_view(arg)),
{
    match arg {
        None => Command::Timestamp,
        Some(a) => {
            if a.unicode_len() == 5 && a.get_char(0) == 's' && a.get_char(1) == 't'
                && a.get_char(2) == 'a' && a.get_char(3) == 'r' && a.get_char(4) == 't' {
                assert(a@ =~= start_word());
                Command::Start
            } else {
                Command::Unknown
            }
        },
    }
}

impl Command {
    /// Whether the run opens the log at all.
    pub fn touches_log(&self) -> (r: bool)
        ensures
            r == touches_log_spec(*self),
    {
        !matches!(self, Command::Unknown)
    }
}

/// The exit status of a run of `cmd` that ended with `result`; `result` is
/// not looked at for an unknown command.
pub fn exit_status(cmd: Command, result: &Result<(), LogError>) -> (r: u8)
    ensures
        r == exit_status_spec(cmd, *result),
{
    match cmd {
        Command::Unknown => EXIT_USAGE,
        _ => match result {
            Ok(()) => EXIT_SUCCESS,
            Err(_) => EXIT_FAILURE,
        },
    }
}

/// An argument other than `start` always ends the run with status 2 and
/// never touches the log, whatever else happened.
pub proof fn lemma_unknown_argument(arg: Seq<char>, result: Result<(), LogError>)
    requires
        arg != start_word(),
    ensures
        command_spec(Some(arg)) == Command::Unknown,
        exit_status_spec(command_spec(Some(arg)), result) == EXIT_USAGE,
        !touches_log_spec(command_spec(Some(arg))),
{
}

} // verus!
