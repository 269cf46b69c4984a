use crate::codec::{decode, encode, read_store, write_file, ParseError};
use crate::command::{arg_texts, execute, transition, Fault, Report, Step};
use crate::item::Entry;
use crate::platform::{newline, Platform};
use crate::order::sort_entries;
use vstd::prelude::*;

verus! {

/// Why a run ends without a report.
#[derive(Clone, Copy, Debug, PartialEq, Eq)]
pub enum Failure {
    /// The file does not hold a store.
    Unreadable(ParseError),
    /// The command cannot be carried out.
    Refused(Fault),
}

/// What a run leaves for the program to do: the report of the command, and
/// the new text of the file where the store is to be written back.
#[derive(Debug, Clone, PartialEq, Eq)]
pub struct Outcome {
    pub report: Report,
    pub file: Option<String>,
}

/// The store that a run starts with: what the file's text writes, or the
/// empty store where there is no file.
pub open spec fn stored(todo_file: Option<&str>, platform: Platform) -> Result<
    Seq<Entry>,
    ParseError,
> {
    match todo_file {
        None => Ok(Seq::empty()),
        Some(text) => decode(text@, newline(platform)),
    }
}

/// Whether `outcome` is what the step asks for: its report, and the text of
/// the store after the step exactly where the store is to be written back.
pub open spec fn reports(outcome: Outcome, step: Step, platform: Platform) -> bool {
    &&& outcome.report.output@ == step.output
    &&& outcome.report.errors@ == step.errors
    &&& outcome.report.exit_code == step.exit_code
    &&& outcome.report.save == step.save
    &&& match outcome.file {
        Some(text) => step.save && text@ == encode(step.entries, newline(platform)),
        None => !step.save,
    }
}

/// One run of the program: reads the store from the text of the file, puts
/// it in the order of its ids, carries out the one command of the command
/// line, and writes the store as the new text of the file.
pub fn session(todo_file: Option<&str>, args: &[String], platform: Platform) -> (out: Result<
    Outcome,
    Failure,
>)
    ensures
        match stored(todo_file, platform) {
            Err(e) => out == Err::<Outcome, Failure>(Failure::Unreadable(e)),
            Ok(found) => match transition(sort_entries(found), arg_texts(args@), platform) {
                Err(fault) => out == Err::<Outcome, Failure>(Failure::Refused(fault)),
                Ok(step) => out is Ok && reports(out.unwrap(), step, platform),
            },
        },
{
    let mut todo_items = match read_store(todo_file, platform) {
        Ok(items) => items,
        Err(e) => {
            return Err(Failure::Unreadable(e));
        },
    };
    let report = match execute(&mut todo_items, args, platform) {
        Ok(report) => report,
        Err(fault) => {
            return Err(Failure::Refused(fault));
        },
    };
    let file = if report.save {
        Some(write_file(&todo_items, platform))
    } else {
        None
    };
    Ok(Outcome { report, file })
}

} // verus!
