use crate::help::{help_text, print_help};
use crate::item::{entries, Entry, TodoItem};
use crate::order::{lemma_sort_keeps_unique_ids, sort_by_id, sort_entries};
use crate::platform::Platform;
use crate::store::{
    complete_id, highest_id, insert_named, lemma_push_keeps_unique_ids,
    lemma_with_completed_keeps_unique_ids, lemma_without_id_keeps_unique_ids, next_id, parse_id,
    read_id, remove_id, unique_ids, with_completed, without_id,
};
use crate::text::{chars_of, decimal, decimal_digits, extend, same_text, string_of};
use vstd::prelude::*;
use vstd::string::*;

verus! {

/// Why a command cannot be carried out: the faults on which the program
/// stops without touching the store.
#[derive(Clone, Copy, Debug, PartialEq, Eq, Structural)]
pub enum Fault {
    /// The verb needs an argument and none follows it.
    MissingArgument,
    /// The argument is not an id.
    InvalidId,
    /// The largest id is taken: no new id is left.
    IdsExhausted,
}

/// What a command leaves for the program to do: the text to print, the text
/// for the error stream, the exit code, and whether the store is written
/// back.
#[derive(Debug, Clone, PartialEq, Eq)]
pub struct Report {
    pub output: String,
    pub errors: String,
    pub exit_code: u8,
    pub save: bool,
}

/// What a command does to the store, and what it reports.
pub struct Step {
    pub entries: Seq<Entry>,
    pub output: Seq<char>,
    pub errors: Seq<char>,
    pub exit_code: int,
    pub save: bool,
}

/// The texts of the arguments, in order.
pub open spec fn arg_texts(args: Seq<String>) -> Seq<Seq<char>> {
    args.map_values(|a: String| a@)
}

/// Whether the arguments ask for the completed items too.
pub open spec fn wants_all(args: Seq<Seq<char>>) -> bool {
    exists|i: int| 0 <= i < args.len() && #[trigger] args[i] == "-a"@
}

/// `n` spaces.
pub open spec fn spaces(n: nat) -> Seq<char> {
    Seq::new(n, |i: int| ' ')
}

/// The id in decimal, with spaces before it where it has fewer than three
/// digits, so that it takes three characters.
pub open spec fn padded_id(id: nat) -> Seq<char> {
    let digits = decimal_digits(id);
    if digits.len() >= 3 {
        digits
    } else {
        spaces((3 - digits.len()) as nat) + digits
    }
}

/// The line that shows an entry: the padded id, a vertical bar and a space,
/// the name, and a line feed.
pub open spec fn listing_line(e: Entry) -> Seq<char> {
    padded_id(e.id) + seq!['\u{2502}', ' '] + e.name + seq!['\n']
}

/// The lines that show the entries: all of them, or those not completed.
pub open spec fn listing(s: Seq<Entry>, all: bool) -> Seq<char>
    decreases s.len(),
{
    if s.len() == 0 {
        Seq::empty()
    } else if all || !s.last().completed {
        listing(s.drop_last(), all) + listing_line(s.last())
    } else {
        listing(s.drop_last(), all)
    }
}

/// The complaint about a verb that is none.
pub open spec fn invalid_usage(verb: Seq<char>) -> Seq<char> {
    "Invalid Usage: '"@ + verb + "'\n"@
}

/// A step that leaves the store as it is and prints `output`.
pub open spec fn shown(s: Seq<Entry>, output: Seq<char>) -> Step {
    Step { entries: s, output, errors: Seq::empty(), exit_code: 0, save: true }
}

/// A step that changes the store to `s` and prints nothing.
pub open spec fn changed(s: Seq<Entry>) -> Step {
    Step { entries: s, output: Seq::empty(), errors: Seq::empty(), exit_code: 0, save: true }
}

/// What the command line `args` does to the store `s`. The first argument
/// is the program's name, the second the verb, the third the verb's
/// argument. Without a verb the store is listed.
pub open spec fn transition(s: Seq<Entry>, args: Seq<Seq<char>>, platform: Platform) -> Result<
    Step,
    Fault,
> {
    if args.len() <= 1 || args[1] == "list"@ {
        Ok(shown(s, listing(s, wants_all(args))))
    } else if args[1] == "add"@ {
        if args.len() <= 2 {
            Err(Fault::MissingArgument)
        } else if next_id(s) > u32::MAX {
            Err(Fault::IdsExhausted)
        } else {
            Ok(changed(s.push(Entry { id: next_id(s), name: args[2], completed: false })))
        }
    } else if args[1] == "rm"@ {
        if args.len() <= 2 {
            Err(Fault::MissingArgument)
        } else {
            match parse_id(args[2]) {
                None => Err(Fault::InvalidId),
                Some(id) => Ok(changed(without_id(s, id as nat))),
            }
        }
    } else if args[1] == "complete"@ {
        if args.len() <= 2 {
            Err(Fault::MissingArgument)
        } else {
            match parse_id(args[2]) {
                None => Err(Fault::InvalidId),
                Some(id) => Ok(changed(with_completed(s, id as nat))),
            }
        }
    } else if args[1] == "help"@ {
        Ok(shown(s, help_text(platform)))
    } else {
        Ok(
            Step {
                entries: s,
                output: Seq::empty(),
                errors: invalid_usage(args[1]) + help_text(platform),
                exit_code: 1,
                save: false,
            },
        )
    }
}

/// Tells whether one of the arguments is `-a`.
pub fn include_all(args: &[String]) -> (all: bool)
    ensures
        all == wants_all(arg_texts(args@)),
{
    let mut i: usize = 0;
    while i < args.len()
        invariant
            i <= args.len(),
            forall|j: int| 0 <= j < i ==> arg_texts(args@)[j] != "-a"@,
        decreases args.len() - i,
    {
        if same_text(args[i].as_str(), "-a") {
            assert(arg_texts(args@)[i as int] == "-a"@);
            return true;
        }
        i += 1;
    }
    false
}

/// Writes an id in decimal, padded on the left to three characters.
fn pad_id(id: u32) -> (out: Vec<char>)
    ensures
        out@ == padded_id(id as nat),
{
    let digits = decimal(id);
    let mut out: Vec<char> = Vec::new();
    while out.len() + digits.len() < 3
        invariant
            out@.len() + digits@.len() <= 3 || out@.len() == 0,
            out@ == spaces(out@.len()),
        decreases 3 - out.len(),
    {
        out.push(' ');
        assert(out@ =~= spaces(out@.len()));
    }
    extend(&mut out, &digits);
    assert(spaces(0) + digits@ =~= digits@);
    out
}

/// The text that lists the items: one line for each item that is not
/// completed, or for every item where `all` is set.
pub fn list_text(todo_items: &Vec<TodoItem>, all: bool) -> (text: String)
    ensures
        text@ == listing(entries(todo_items@), all),
{
    let mut out: Vec<char> = Vec::new();
    let mut i: usize = 0;
    assert(entries(todo_items@).take(0).len() == 0);
    while i < todo_items.len()
        invariant
            i <= todo_items.len(),
            out@ == listing(entries(todo_items@).take(i as int), all),
        decreases todo_items.len() - i,
    {
        proof {
            let next = entries(todo_items@).take(i + 1);
            assert(next.drop_last() == entries(todo_items@).take(i as int));
            assert(next.last() == todo_items@[i as int]@);
        }
        let ghost before = out@;
        if all || !todo_items[i].completed {
            extend(&mut out, &pad_id(todo_items[i].id));
            out.push('\u{2502}');
            out.push(' ');
            extend(&mut out, &chars_of(todo_items[i].name.as_str()));
            out.push('\n');
            assert(out@ =~= before + listing_line(todo_items@[i as int]@));
        }
        i += 1;
    }
    assert(entries(todo_items@).take(todo_items@.len() as int) == entries(todo_items@));
    string_of(&out)
}

/// The text that lists the items for the given command line: every item
/// where one of the arguments is `-a`, else those that are not completed.
pub fn print_todo(todo_items: &Vec<TodoItem>, args: &[String]) -> (text: String)
    ensures
        text@ == listing(entries(todo_items@), wants_all(arg_texts(args@))),
{
    list_text(todo_items, include_all(args))
}

/// A report that prints `output` and has the store written back.
fn report(output: String) -> (r: Report)
    ensures
        r.output@ == output@,
        r.errors@ == Seq::<char>::empty(),
        r.exit_code == 0,
        r.save,
{
    Report { output, errors: String::new(), exit_code: 0, save: true }
}

/// Whether the store and the report are what the step says.
pub open spec fn carried_out(step: Step, after: Seq<Entry>, r: Report) -> bool {
    &&& after == step.entries
    &&& r.output@ == step.output
    &&& r.errors@ == step.errors
    &&& r.exit_code == step.exit_code
    &&& r.save == step.save
}

/// Carries out the one command that the command line names, on the store
/// as it stands. On a fault the store is left as it was.
pub fn run(todo_items: &mut Vec<TodoItem>, args: &[String], platform: Platform) -> (out: Result<
    Report,
    Fault,
>)
    ensures
        match transition(entries(old(todo_items)@), arg_texts(args@), platform) {
            Ok(step) => out is Ok && carried_out(step, entries(final(todo_items)@), out.unwrap()),
            Err(fault) => out == Err::<Report, Fault>(fault) && entries(final(todo_items)@)
                == entries(old(todo_items)@),
        },
{
    proof {
        if args@.len() > 1 {
            assert(arg_texts(args@)[1] == args@[1]@);
        }
        if args@.len() > 2 {
            assert(arg_texts(args@)[2] == args@[2]@);
        }
    }
    if args.len() <= 1 || same_text(args[1].as_str(), "list") {
        return Ok(report(print_todo(todo_items, args)));
    }
    let verb = args[1].as_str();
    if same_text(verb, "add") {
        if args.len() <= 2 {
            return Err(Fault::MissingArgument);
        }
        if highest_id(todo_items) == u32::MAX {
            return Err(Fault::IdsExhausted);
        }
        insert_named(todo_items, args[2].clone());
        Ok(report(String::new()))
    } else if same_text(verb, "rm") {
        if args.len() <= 2 {
            return Err(Fault::MissingArgument);
        }
        match read_id(args[2].as_str()) {
            None => Err(Fault::InvalidId),
            Some(id) => {
                remove_id(todo_items, id);
                Ok(report(String::new()))
            },
        }
    } else if same_text(verb, "complete") {
        if args.len() <= 2 {
            return Err(Fault::MissingArgument);
        }
        match read_id(args[2].as_str()) {
            None => Err(Fault::InvalidId),
            Some(id) => {
                complete_id(todo_items, id);
                Ok(report(String::new()))
            },
        }
    } else if same_text(verb, "help") {
        Ok(report(print_help(platform)))
    } else {
        let mut errors = String::new();
        errors.append("Invalid Usage: '");
        errors.append(verb);
        errors.append("'\n");
        errors.append(print_help(platform).as_str());
        assert(errors@ =~= invalid_usage(verb@) + help_text(platform));
        Ok(Report { output: String::new(), errors, exit_code: 1, save: false })
    }
}

/// Puts the store in the order of its ids, then carries out the one command
/// that the command line names. On a fault the store is left in that order.
pub fn execute(todo_items: &mut Vec<TodoItem>, args: &[String], platform: Platform) -> (out:
    Result<Report, Fault>)
    ensures
        match transition(sort_entries(entries(old(todo_items)@)), arg_texts(args@), platform) {
            Ok(step) => out is Ok && carried_out(step, entries(final(todo_items)@), out.unwrap()),
            Err(fault) => out == Err::<Report, Fault>(fault) && entries(final(todo_items)@)
                == sort_entries(entries(old(todo_items)@)),
        },
{
    sort_by_id(todo_items);
    run(todo_items, args, platform)
}

/// Listing leaves every entry of the store as it is, prints to the output
/// alone, and has the store written back.
pub proof fn lemma_listing_keeps_store(s: Seq<Entry>, args: Seq<Seq<char>>, platform: Platform)
    requires
        args.len() <= 1 || args[1] == "list"@,
    ensures
        transition(s, args, platform) == Ok::<Step, Fault>(
            shown(s, listing(s, wants_all(args))),
        ),
        transition(s, args, platform).unwrap().entries == s,
{
}

/// No command gives two entries the same id: where the ids of the store are
/// unique, they are unique after the command.
pub proof fn lemma_commands_keep_unique_ids(
    s: Seq<Entry>,
    args: Seq<Seq<char>>,
    platform: Platform,
)
    requires
        unique_ids(s),
        transition(s, args, platform) is Ok,
    ensures
        unique_ids(transition(s, args, platform).unwrap().entries),
{
    if args.len() > 2 {
        lemma_push_keeps_unique_ids(
            s,
            Entry { id: next_id(s), name: args[2], completed: false },
        );
        if parse_id(args[2]) is Some {
            let id = parse_id(args[2]).unwrap() as nat;
            lemma_without_id_keeps_unique_ids(s, id);
            lemma_with_completed_keeps_unique_ids(s, id);
        }
    }
}

/// A run keeps the ids unique: where no two entries of the store share an
/// id, none do after the store was put in order and the command carried out.
pub proof fn lemma_runs_keep_unique_ids(s: Seq<Entry>, args: Seq<Seq<char>>, platform: Platform)
    requires
        unique_ids(s),
        transition(sort_entries(s), args, platform) is Ok,
    ensures
        unique_ids(transition(sort_entries(s), args, platform).unwrap().entries),
{
    lemma_sort_keeps_unique_ids(s);
    lemma_commands_keep_unique_ids(sort_entries(s), args, platform);
}

} // verus!
