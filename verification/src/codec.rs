use crate::item::{entries, Entry, TodoItem};
use crate::platform::{newline, newline_os, Platform};
use crate::split::{matches_at, occurs_at, rows, split, split_on};
use crate::text::{
    chars_of, decimal, decimal_digits, extend, parse_u32, prefix, read_u32, same_chars, string_of,
    trim, trimmed,
};
use vstd::prelude::*;

verus! {

/// The separator for the fields of an item in the file.
pub const SEPARATOR: char = '\u{FFFD}';

/// Why a text is not a store.
#[derive(Clone, Copy, Debug, PartialEq, Eq, Structural)]
pub enum ParseError {
    /// The text is not empty and does not end with the platform's newline.
    MissingNewline,
    /// A line does not have exactly three fields.
    FieldCount,
    /// The first field of a line is not an id.
    BadId,
    /// The third field of a line is neither `true` nor `false`.
    BadFlag,
}

/// The separator as a pattern.
pub open spec fn separator() -> Seq<char> {
    seq![SEPARATOR]
}

/// How the completion flag is written.
pub open spec fn flag(completed: bool) -> Seq<char> {
    if completed {
        seq!['t', 'r', 'u', 'e']
    } else {
        seq!['f', 'a', 'l', 's', 'e']
    }
}

/// The line of an entry, without its newline: id, name and flag, with the
/// separator between them.
pub open spec fn line_of(e: Entry) -> Seq<char> {
    decimal_digits(e.id) + separator() + e.name + separator() + flag(e.completed)
}

/// The text of a store: the line of each entry, in order, each ended by the
/// newline.
pub open spec fn encode(s: Seq<Entry>, nl: Seq<char>) -> Seq<char>
    decreases s.len(),
{
    if s.len() == 0 {
        Seq::empty()
    } else {
        encode(s.drop_last(), nl) + line_of(s.last()) + nl
    }
}

/// The entry that a line writes, or why it writes none.
pub open spec fn decode_line(line: Seq<char>) -> Result<Entry, ParseError> {
    let fields = split(line, separator());
    if fields.len() != 3 {
        Err(ParseError::FieldCount)
    } else {
        match parse_u32(trim(fields[0])) {
            None => Err(ParseError::BadId),
            Some(id) => if fields[2] == flag(true) {
                Ok(Entry { id: id as nat, name: fields[1], completed: true })
            } else if fields[2] == flag(false) {
                Ok(Entry { id: id as nat, name: fields[1], completed: false })
            } else {
                Err(ParseError::BadFlag)
            },
        }
    }
}

/// The entries that the lines write, or the fault of the first line that
/// writes none.
pub open spec fn decode_lines(lines: Seq<Seq<char>>) -> Result<Seq<Entry>, ParseError>
    decreases lines.len(),
{
    if lines.len() == 0 {
        Ok(Seq::empty())
    } else {
        match decode_lines(lines.drop_last()) {
            Err(e) => Err(e),
            Ok(found) => match decode_line(lines.last()) {
                Err(e) => Err(e),
                Ok(entry) => Ok(found.push(entry)),
            },
        }
    }
}

/// The store that a text writes: none for the empty text; else the text
/// must end with the newline, and what stands before that is split into
/// lines at each newline.
pub open spec fn decode(text: Seq<char>, nl: Seq<char>) -> Result<Seq<Entry>, ParseError> {
    if text.len() == 0 {
        Ok(Seq::empty())
    } else if !occurs_at(text, nl, text.len() - nl.len()) {
        Err(ParseError::MissingNewline)
    } else {
        decode_lines(split(text.take(text.len() - nl.len()), nl))
    }
}

/// A fault among the first lines is the fault of the whole.
pub proof fn lemma_decode_lines_fault(lines: Seq<Seq<char>>, k: int)
    requires
        0 <= k <= lines.len(),
        decode_lines(lines.take(k)) is Err,
    ensures
        decode_lines(lines) == decode_lines(lines.take(k)),
    decreases lines.len() - k,
{
    if k == lines.len() {
        assert(lines.take(k) == lines);
    } else {
        assert(lines.take(k + 1).drop_last() == lines.take(k));
        lemma_decode_lines_fault(lines, k + 1);
    }
}

/// Writes the line of an item onto `out`, without a newline.
fn write_line(out: &mut Vec<char>, item: &TodoItem)
    ensures
        final(out)@ == old(out)@ + line_of(item@),
{
    let ghost start = out@;
    let digits = decimal(item.id);
    extend(out, &digits);
    out.push(SEPARATOR);
    let name = chars_of(item.name.as_str());
    extend(out, &name);
    out.push(SEPARATOR);
    let word = chars_of(
        match item.completed {
            true => "true",
            false => "false",
        },
    );
    proof {
        reveal_strlit("true");
        reveal_strlit("false");
        assert(word@ =~= flag(item.completed));
    }
    extend(out, &word);
    assert(out@ =~= start + line_of(item@));
}

/// The text of the store, as it is kept in the file.
pub fn write_file(todo_items: &Vec<TodoItem>, platform: Platform) -> (text: String)
    ensures
        text@ == encode(entries(todo_items@), newline(platform)),
{
    let nl = chars_of(newline_os(platform));
    let mut out: Vec<char> = Vec::new();
    let mut i: usize = 0;
    assert(entries(todo_items@).take(0).len() == 0);
    while i < todo_items.len()
        invariant
            i <= todo_items.len(),
            nl@ == newline(platform),
            out@ == encode(entries(todo_items@).take(i as int), nl@),
        decreases todo_items.len() - i,
    {
        proof {
            let next = entries(todo_items@).take(i + 1);
            assert(next.drop_last() == entries(todo_items@).take(i as int));
            assert(next.last() == todo_items@[i as int]@);
        }
        write_line(&mut out, &todo_items[i]);
        extend(&mut out, &nl);
        i += 1;
    }
    assert(entries(todo_items@).take(todo_items@.len() as int) == entries(todo_items@));
    string_of(&out)
}

/// Reads the item that a line writes.
pub fn parse_line(line: &Vec<char>) -> (out: Result<TodoItem, ParseError>)
    ensures
        match decode_line(line@) {
            Ok(entry) => out is Ok && out.unwrap()@ == entry,
            Err(e) => out == Err::<TodoItem, ParseError>(e),
        },
{
    let mut pat: Vec<char> = Vec::new();
    pat.push(SEPARATOR);
    assert(pat@ =~= separator());
    let fields = split_on(line, &pat);
    if fields.len() != 3 {
        return Err(ParseError::FieldCount);
    }
    proof {
        assert(rows(fields@)[0] == fields@[0]@);
        assert(rows(fields@)[1] == fields@[1]@);
        assert(rows(fields@)[2] == fields@[2]@);
        reveal_strlit("true");
        reveal_strlit("false");
        assert("true"@ =~= flag(true));
        assert("false"@ =~= flag(false));
    }
    let id = match read_u32(&trimmed(&fields[0])) {
        Some(id) => id,
        None => {
            return Err(ParseError::BadId);
        },
    };
    let completed = if same_chars(&fields[2], &chars_of("true")) {
        true
    } else if same_chars(&fields[2], &chars_of("false")) {
        false
    } else {
        return Err(ParseError::BadFlag);
    };
    Ok(TodoItem::new(id, string_of(&fields[1]), completed))
}

/// Reads the store from the text of the file.
pub fn parse_file(todo_file: &str, platform: Platform) -> (out: Result<Vec<TodoItem>, ParseError>)
    ensures
        match decode(todo_file@, newline(platform)) {
            Ok(found) => out is Ok && entries(out.unwrap()@) == found,
            Err(e) => out == Err::<Vec<TodoItem>, ParseError>(e),
        },
{
    let chars = chars_of(todo_file);
    let nl = chars_of(newline_os(platform));
    let mut items: Vec<TodoItem> = Vec::new();
    if chars.len() == 0 {
        assert(entries(items@) =~= Seq::empty());
        return Ok(items);
    }
    if chars.len() < nl.len() || !matches_at(&chars, &nl, chars.len() - nl.len()) {
        return Err(ParseError::MissingNewline);
    }
    let body = prefix(&chars, chars.len() - nl.len());
    let lines = split_on(&body, &nl);
    let mut i: usize = 0;
    assert(rows(lines@).take(0).len() == 0);
    assert(entries(items@) =~= Seq::empty());
    while i < lines.len()
        invariant
            i <= lines.len(),
            decode(todo_file@, newline(platform)) == decode_lines(rows(lines@)),
            decode_lines(rows(lines@).take(i as int)) == Ok::<Seq<Entry>, ParseError>(
                entries(items@),
            ),
        decreases lines.len() - i,
    {
        proof {
            let next = rows(lines@).take(i + 1);
            assert(next.drop_last() == rows(lines@).take(i as int));
            assert(next.last() == lines@[i as int]@);
        }
        match parse_line(&lines[i]) {
            Ok(item) => {
                assert(entries(items@.push(item)) == entries(items@).push(item@));
                items.push(item);
            },
            Err(e) => {
                proof {
                    lemma_decode_lines_fault(rows(lines@), i + 1);
                }
                return Err(e);
            },
        }
        i += 1;
    }
    assert(rows(lines@).take(lines@.len() as int) == rows(lines@));
    Ok(items)
}

/// The store at the start of a run: what the file holds, or the empty store
/// where there is no file yet.
pub fn read_store(todo_file: Option<&str>, platform: Platform) -> (out: Result<
    Vec<TodoItem>,
    ParseError,
>)
    ensures
        match todo_file {
            None => out is Ok && entries(out.unwrap()@) == Seq::<Entry>::empty(),
            Some(text) => match decode(text@, newline(platform)) {
                Ok(found) => out is Ok && entries(out.unwrap()@) == found,
                Err(e) => out == Err::<Vec<TodoItem>, ParseError>(e),
            },
        },
{
    match todo_file {
        None => {
            let items: Vec<TodoItem> = Vec::new();
            assert(entries(items@) =~= Seq::<Entry>::empty());
            Ok(items)
        },
        Some(text) => parse_file(text, platform),
    }
}

} // verus!
