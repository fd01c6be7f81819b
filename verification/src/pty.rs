//! The shell behind the pseudo-terminal: how it is started, and when reading
//! from it ends.
use vstd::prelude::*;

use crate::chars::{lemma_trims_to_nothing, text_view, trim_text, trimmed, whitespace_char};

verus! {

/// The terminal type that the shell is told.
pub const DEFAULT_CHILD_TERM: &'static str = "xterm-256color";

/// The terminal type that is asked for, unless it is blank.
pub open spec fn child_term_of(asked: Option<Seq<char>>) -> Seq<char> {
    match asked {
        Some(text) if trimmed(text).len() > 0 => text,
        _ => "xterm-256color"@,
    }
}

pub fn child_term(asked: Option<String>) -> (term: String)
    ensures
        term@ == child_term_of(text_view(asked)),
{
    match asked {
        Some(text) => if trim_text(text.as_str()).as_str().is_empty() {
            "xterm-256color".to_owned()
        } else {
            text
        },
        None => "xterm-256color".to_owned(),
    }
}

/// How the shell is started: an interactive one, told what the terminal can
/// do, and free of a wish for no colours that was meant for another program.
pub struct ShellCommand {
    pub program: String,
    pub arg: String,
    pub term: String,
    pub color_term: String,
    pub term_program: String,
    pub removed_variable: String,
}

/// `shell` is the user's shell, and `term` the terminal type that is asked for.
pub fn shell_command(shell: Option<String>, term: Option<String>) -> (command: ShellCommand)
    ensures
        command.program@ == match shell {
            Some(program) => program@,
            None => "/bin/zsh"@,
        },
        command.arg@ == "-i"@,
        command.term@ == child_term_of(text_view(term)),
        command.color_term@ == "truecolor"@,
        command.term_program@ == "rterminal"@,
        command.removed_variable@ == "NO_COLOR"@,
{
    let program: String = match shell {
        Some(program) => program,
        None => "/bin/zsh".to_owned(),
    };
    ShellCommand {
        program,
        arg: "-i".to_owned(),
        term: child_term(term),
        color_term: "truecolor".to_owned(),
        term_program: "rterminal".to_owned(),
        removed_variable: "NO_COLOR".to_owned(),
    }
}

/// How an attempt to read from the shell ended.
#[derive(Clone, Copy, Debug, PartialEq, Eq, Structural)]
pub enum ReadOutcome {
    Read(usize),
    Interrupted,
    Failed,
}

/// What the reader does next.
#[derive(Clone, Copy, Debug, PartialEq, Eq, Structural)]
pub enum ReaderStep {
    /// Hand on so many bytes.
    HandOn(usize),
    Retry,
    /// The shell has closed its end.
    Stop,
    /// Something went wrong: report it, and stop.
    ReportAndStop,
}

/// Reading ends with the shell, or with a failure that is reported. A signal
/// that interrupts a read is no failure: the shell is still alive.
pub fn reader_step(outcome: ReadOutcome) -> (step: ReaderStep)
    ensures
        step == match outcome {
            ReadOutcome::Read(count) => if count == 0 {
                ReaderStep::Stop
            } else {
                ReaderStep::HandOn(count)
            },
            ReadOutcome::Interrupted => ReaderStep::Retry,
            ReadOutcome::Failed => ReaderStep::ReportAndStop,
        },
{
    match outcome {
        ReadOutcome::Read(count) => if count == 0 {
            ReaderStep::Stop
        } else {
            ReaderStep::HandOn(count)
        },
        ReadOutcome::Interrupted => ReaderStep::Retry,
        ReadOutcome::Failed => ReaderStep::ReportAndStop,
    }
}

/// Law: the shell is told the terminal type that is asked for, as it is, unless
/// that is nothing but white space; else the usual one.
pub proof fn law_types_of_terminals(asked: Seq<char>)
    ensures
        child_term_of(None) == "xterm-256color"@,
        (exists|i: int| 0 <= i < asked.len() && !whitespace_char(#[trigger] asked[i]))
            ==> child_term_of(Some(asked)) == asked,
        (forall|i: int| 0 <= i < asked.len() ==> whitespace_char(#[trigger] asked[i]))
            ==> child_term_of(Some(asked)) == "xterm-256color"@,
{
    lemma_trims_to_nothing(asked);
}

} // verus!
