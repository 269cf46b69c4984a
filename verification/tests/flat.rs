use todo_list::codec::{parse_file, parse_line, read_store, write_file, ParseError, SEPARATOR};
use todo_list::command::{execute, include_all, list_text, print_todo, run, Fault};
use todo_list::help::{print_help, HelpItem};
use todo_list::item::TodoItem;
use todo_list::order::sort_by_id;
use todo_list::paths::{get_save_dir, get_todo, save_path, todo_path, CacheDir, PathError};
use todo_list::platform::{newline_os, platform_named, Platform};
use todo_list::session::{session, Failure};
use todo_list::split::{matches_at, split_on};
use todo_list::store::{
    add_item, complete_id, complete_item, highest_id, insert_named, read_id, remove_id,
    remove_item,
};
use todo_list::text::{chars_of, decimal, read_u32, same_text, space, string_of, trimmed};

fn item(id: u32, name: &str, completed: bool) -> TodoItem {
    TodoItem::new(id, name.to_string(), completed)
}

fn args(words: &[&str]) -> Vec<String> {
    words.iter().map(|w| w.to_string()).collect()
}

fn chars(s: &str) -> Vec<char> {
    s.chars().collect()
}

#[test]
fn new_item_keeps_its_fields() {
    let it = TodoItem::new(7, "seven".to_string(), true);
    assert_eq!(it.id, 7);
    assert_eq!(it.name, "seven");
    assert!(it.completed);
}

#[test]
fn chars_and_strings_convert_both_ways() {
    assert_eq!(chars_of("a\u{FFFD}b"), vec!['a', '\u{FFFD}', 'b']);
    assert_eq!(string_of(&vec!['x', 'y', '\n']), "xy\n");
    assert_eq!(string_of(&Vec::new()), "");
}

#[test]
fn decimal_writes_numbers() {
    assert_eq!(decimal(0), chars("0"));
    assert_eq!(decimal(9), chars("9"));
    assert_eq!(decimal(10), chars("10"));
    assert_eq!(decimal(4294967295), chars("4294967295"));
}

#[test]
fn read_u32_reads_what_std_reads() {
    for text in ["0", "7", "007", "+5", "4294967295", "4294967296", "", "+", "-1", "1a", " 1", "++1", "99999999999999999999"] {
        assert_eq!(read_u32(&chars(text)), text.parse::<u32>().ok(), "{:?}", text);
    }
}

#[test]
fn trimmed_drops_white_space_at_both_ends() {
    for text in ["", "  ", " a b ", "\t\n12\r\n", "\u{3000}x\u{A0}", "x", "\u{200B}x"] {
        assert_eq!(trimmed(&chars(text)), chars(text.trim()), "{:?}", text);
    }
}

#[test]
fn read_id_ignores_surrounding_space() {
    assert_eq!(read_id(" 12 "), Some(12));
    assert_eq!(read_id("12"), Some(12));
    assert_eq!(read_id("1 2"), None);
    assert_eq!(read_id("twelve"), None);
    assert_eq!(read_id(""), None);
}

#[test]
fn same_text_compares_contents() {
    assert!(same_text("list", "list"));
    assert!(!same_text("list", "lis"));
    assert!(!same_text("list", "lisp"));
}

#[test]
fn split_on_follows_std_split() {
    for (text, pat) in [
        ("a,b,c", ","),
        ("", ","),
        (",", ","),
        ("a,,b,", ","),
        ("one\r\ntwo\r\n", "\r\n"),
        ("\r\r\n\n", "\r\n"),
        ("aaa", "aa"),
        ("no match", "xyz"),
    ] {
        let expected: Vec<Vec<char>> = text.split(pat).map(chars).collect();
        assert_eq!(split_on(&chars(text), &chars(pat)), expected, "{:?} {:?}", text, pat);
    }
}

#[test]
fn split_on_empty_pattern_gives_one_piece() {
    assert_eq!(split_on(&chars("abc"), &Vec::new()), vec![chars("abc")]);
}

#[test]
fn matches_at_finds_the_pattern() {
    let s = chars("hello");
    assert!(matches_at(&s, &chars("ll"), 2));
    assert!(!matches_at(&s, &chars("ll"), 3));
    assert!(!matches_at(&s, &chars("lo"), 4));
    assert!(matches_at(&s, &chars(""), 5));
    assert!(!matches_at(&s, &chars(""), 6));
}

#[test]
fn platform_goes_by_the_name() {
    assert_eq!(platform_named("windows"), Platform::Windows);
    assert_eq!(platform_named("linux"), Platform::Other);
    assert_eq!(platform_named("macos"), Platform::Other);
    assert_eq!(newline_os(Platform::Windows), "\r\n");
    assert_eq!(newline_os(Platform::Other), "\n");
}

#[test]
fn separator_is_the_replacement_character() {
    assert_eq!(SEPARATOR, '\u{FFFD}');
}

#[test]
fn write_file_gives_one_line_per_item() {
    let items = vec![item(1, "buy milk", false), item(2, "call", true)];
    assert_eq!(
        write_file(&items, Platform::Other),
        "1\u{FFFD}buy milk\u{FFFD}false\n2\u{FFFD}call\u{FFFD}true\n"
    );
    assert_eq!(
        write_file(&items, Platform::Windows),
        "1\u{FFFD}buy milk\u{FFFD}false\r\n2\u{FFFD}call\u{FFFD}true\r\n"
    );
    assert_eq!(write_file(&Vec::new(), Platform::Other), "");
}

#[test]
fn parse_file_reads_the_lines() {
    let text = "1\u{FFFD}buy milk\u{FFFD}false\n 20 \u{FFFD}\u{FFFD}true\n";
    assert_eq!(
        parse_file(text, Platform::Other),
        Ok(vec![item(1, "buy milk", false), item(20, "", true)])
    );
    assert_eq!(parse_file("", Platform::Other), Ok(vec![]));
    assert_eq!(parse_file("", Platform::Windows), Ok(vec![]));
}

#[test]
fn round_trip_keeps_every_item() {
    let items = vec![
        item(3, "with \r inside", false),
        item(0, "", true),
        item(4294967295, "tab\tand space ", false),
        item(3, "same id again", true),
    ];
    for platform in [Platform::Other, Platform::Windows] {
        let text = write_file(&items, platform);
        assert_eq!(parse_file(&text, platform), Ok(items.clone()));
    }
    let lone_feed = vec![item(1, "line\nfeed", false)];
    assert_eq!(
        parse_file(&write_file(&lone_feed, Platform::Windows), Platform::Windows),
        Ok(lone_feed)
    );
}

#[test]
fn parse_file_wants_the_last_newline() {
    assert_eq!(
        parse_file("1\u{FFFD}a\u{FFFD}true", Platform::Other),
        Err(ParseError::MissingNewline)
    );
    assert_eq!(
        parse_file("1\u{FFFD}a\u{FFFD}true\n", Platform::Windows),
        Err(ParseError::MissingNewline)
    );
    assert_eq!(parse_file("\n", Platform::Windows), Err(ParseError::MissingNewline));
}

#[test]
fn parse_file_wants_three_fields() {
    assert_eq!(parse_file("1\u{FFFD}a\n", Platform::Other), Err(ParseError::FieldCount));
    assert_eq!(parse_file("\n", Platform::Other), Err(ParseError::FieldCount));
    assert_eq!(
        parse_file("1\u{FFFD}a\u{FFFD}b\u{FFFD}true\n", Platform::Other),
        Err(ParseError::FieldCount)
    );
    assert_eq!(
        parse_file("1\u{FFFD}a\u{FFFD}true\n\n", Platform::Other),
        Err(ParseError::FieldCount)
    );
}

#[test]
fn parse_file_wants_an_id() {
    assert_eq!(
        parse_file("one\u{FFFD}a\u{FFFD}true\n", Platform::Other),
        Err(ParseError::BadId)
    );
    assert_eq!(
        parse_file("4294967296\u{FFFD}a\u{FFFD}true\n", Platform::Other),
        Err(ParseError::BadId)
    );
    assert_eq!(
        parse_file("\u{FFFD}a\u{FFFD}true\n", Platform::Other),
        Err(ParseError::BadId)
    );
}

#[test]
fn parse_file_wants_true_or_false() {
    assert_eq!(
        parse_file("1\u{FFFD}a\u{FFFD}yes\n", Platform::Other),
        Err(ParseError::BadFlag)
    );
    assert_eq!(
        parse_file("1\u{FFFD}a\u{FFFD}True\n", Platform::Other),
        Err(ParseError::BadFlag)
    );
    assert_eq!(
        parse_file("1\u{FFFD}a\u{FFFD}true \n", Platform::Other),
        Err(ParseError::BadFlag)
    );
}

#[test]
fn parse_file_reports_the_first_faulty_line() {
    assert_eq!(
        parse_file("1\u{FFFD}a\u{FFFD}maybe\nx\u{FFFD}a\u{FFFD}true\n", Platform::Other),
        Err(ParseError::BadFlag)
    );
    assert_eq!(
        parse_file("x\u{FFFD}a\u{FFFD}true\n1\u{FFFD}a\u{FFFD}maybe\n", Platform::Other),
        Err(ParseError::BadId)
    );
}

#[test]
fn parse_line_reads_one_item() {
    assert_eq!(parse_line(&chars("+5\u{FFFD}n\u{FFFD}false")), Ok(item(5, "n", false)));
    assert_eq!(parse_line(&chars("5")), Err(ParseError::FieldCount));
}

#[test]
fn read_store_without_a_file_is_empty() {
    assert_eq!(read_store(None, Platform::Other), Ok(vec![]));
    assert_eq!(
        read_store(Some("2\u{FFFD}x\u{FFFD}true\n"), Platform::Other),
        Ok(vec![item(2, "x", true)])
    );
    assert_eq!(read_store(Some("2"), Platform::Other), Err(ParseError::MissingNewline));
}

#[test]
fn first_id_is_one() {
    let mut items: Vec<TodoItem> = Vec::new();
    assert_eq!(highest_id(&items), 0);
    assert_eq!(insert_named(&mut items, "first".to_string()), 1);
    assert_eq!(items, vec![item(1, "first", false)]);
}

#[test]
fn next_id_is_one_above_the_largest() {
    let mut items = vec![item(4, "a", false), item(9, "b", true), item(2, "c", false)];
    assert_eq!(highest_id(&items), 9);
    add_item(&mut items, &args(&["todo", "add", "new one"]));
    assert_eq!(items.len(), 4);
    assert_eq!(items[3], item(10, "new one", false));
    assert_eq!(items[0], item(4, "a", false));
}

#[test]
fn add_item_into_empty_store() {
    let mut items: Vec<TodoItem> = Vec::new();
    add_item(&mut items, &args(&["todo", "add", "buy milk"]));
    assert_eq!(items, vec![item(1, "buy milk", false)]);
}

#[test]
fn removing_an_absent_id_changes_nothing() {
    let mut items = vec![item(1, "a", false), item(2, "b", true)];
    remove_id(&mut items, 3);
    assert_eq!(items, vec![item(1, "a", false), item(2, "b", true)]);
    remove_item(&mut items, &args(&["todo", "rm", "30"]));
    assert_eq!(items, vec![item(1, "a", false), item(2, "b", true)]);
}

#[test]
fn removing_a_present_id_takes_out_one_item() {
    let mut items = vec![item(1, "a", false), item(2, "b", true), item(3, "c", false)];
    remove_item(&mut items, &args(&["todo", "rm", " 2 "]));
    assert_eq!(items, vec![item(1, "a", false), item(3, "c", false)]);
}

#[test]
fn removing_takes_out_every_item_of_the_id() {
    let mut items = vec![item(2, "a", false), item(1, "b", true), item(2, "c", false)];
    remove_id(&mut items, 2);
    assert_eq!(items, vec![item(1, "b", true)]);
}

#[test]
fn completing_sets_one_flag() {
    let mut items = vec![item(1, "a", false), item(2, "b", false), item(3, "c", true)];
    complete_item(&mut items, &args(&["todo", "complete", "2"]));
    assert_eq!(items, vec![item(1, "a", false), item(2, "b", true), item(3, "c", true)]);
    complete_id(&mut items, 7);
    assert_eq!(items, vec![item(1, "a", false), item(2, "b", true), item(3, "c", true)]);
    complete_id(&mut items, 3);
    assert_eq!(items, vec![item(1, "a", false), item(2, "b", true), item(3, "c", true)]);
}

#[test]
fn help_item_as_string() {
    let helpitem = HelpItem::new("add", "Adds something");
    assert_eq!(helpitem.name, "add".to_string());
    assert_eq!(helpitem.description, "Adds something".to_string());
    assert_eq!(helpitem.as_string(Platform::Other), "add\tAdds something\n");
    assert_eq!(helpitem.as_string(Platform::Windows), "add\tAdds something\r\n");
}

#[test]
fn help_text_is_the_usage_summary() {
    assert_eq!(
        print_help(Platform::Other),
        "USAGE: todo [COMMAND] [ID]\n\nCOMMANDS:\nadd\tAdds an item\nrm\tRemoves an item\n\
         complete\tCompletes an item\nlist\tLists todo\nhelp\tPrints help\n\nOPTIONS:\n\
         -a\tPrints everything including completed items\n\n"
    );
    assert_eq!(
        print_help(Platform::Windows),
        "USAGE: todo [COMMAND] [ID]\r\n\nCOMMANDS:\nadd\tAdds an item\r\nrm\tRemoves an item\r\n\
         complete\tCompletes an item\r\nlist\tLists todo\r\nhelp\tPrints help\r\n\nOPTIONS:\n\
         -a\tPrints everything including completed items\r\n\n"
    );
}

#[test]
fn listing_pads_the_id_to_three() {
    let items = vec![
        item(1, "buy milk", false),
        item(12, "done", true),
        item(123, "c", false),
        item(1234, "d", false),
    ];
    assert_eq!(list_text(&items, false), "  1\u{2502} buy milk\n123\u{2502} c\n1234\u{2502} d\n");
    assert_eq!(
        list_text(&items, true),
        "  1\u{2502} buy milk\n 12\u{2502} done\n123\u{2502} c\n1234\u{2502} d\n"
    );
    assert_eq!(list_text(&Vec::new(), true), "");
}

#[test]
fn print_todo_goes_by_the_flag() {
    let items = vec![item(1, "a", false), item(2, "b", true)];
    assert_eq!(print_todo(&items, &args(&["todo", "list"])), "  1\u{2502} a\n");
    assert_eq!(
        print_todo(&items, &args(&["todo", "list", "-a"])),
        "  1\u{2502} a\n  2\u{2502} b\n"
    );
}

#[test]
fn include_all_looks_for_the_flag() {
    assert!(include_all(&args(&["todo", "list", "-a"])));
    assert!(include_all(&args(&["todo", "-a"])));
    assert!(!include_all(&args(&["todo", "list", "-all"])));
    assert!(!include_all(&args(&[])));
}

#[test]
fn run_without_a_verb_lists() {
    let mut items = vec![item(1, "a", false), item(2, "b", true)];
    let report = run(&mut items, &args(&["todo"]), Platform::Other).unwrap();
    assert_eq!(report.output, "  1\u{2502} a\n");
    assert_eq!(report.errors, "");
    assert_eq!(report.exit_code, 0);
    assert!(report.save);
    assert_eq!(items, vec![item(1, "a", false), item(2, "b", true)]);
    let none = run(&mut items, &args(&[]), Platform::Other).unwrap();
    assert_eq!(none.output, "  1\u{2502} a\n");
}

#[test]
fn run_help_prints_the_summary() {
    let mut items = vec![item(1, "a", false)];
    let report = run(&mut items, &args(&["todo", "help"]), Platform::Other).unwrap();
    assert_eq!(report.output, print_help(Platform::Other));
    assert_eq!(report.exit_code, 0);
    assert!(report.save);
    assert_eq!(items, vec![item(1, "a", false)]);
}

#[test]
fn run_rejects_an_unknown_verb() {
    let mut items = vec![item(1, "a", false)];
    let report = run(&mut items, &args(&["todo", "frob", "1"]), Platform::Other).unwrap();
    assert_eq!(report.output, "");
    assert_eq!(
        report.errors,
        format!("Invalid Usage: 'frob'\n{}", print_help(Platform::Other))
    );
    assert_eq!(report.exit_code, 1);
    assert!(!report.save);
    assert_eq!(items, vec![item(1, "a", false)]);
}

#[test]
fn run_reports_a_missing_argument() {
    for verb in ["add", "rm", "complete"] {
        let mut items = vec![item(1, "a", false)];
        assert_eq!(
            run(&mut items, &args(&["todo", verb]), Platform::Other),
            Err(Fault::MissingArgument)
        );
        assert_eq!(items, vec![item(1, "a", false)]);
    }
}

#[test]
fn run_reports_an_invalid_id() {
    for verb in ["rm", "complete"] {
        let mut items = vec![item(1, "a", false)];
        assert_eq!(
            run(&mut items, &args(&["todo", verb, "one"]), Platform::Other),
            Err(Fault::InvalidId)
        );
        assert_eq!(items, vec![item(1, "a", false)]);
    }
}

#[test]
fn run_reports_exhausted_ids() {
    let mut items = vec![item(4294967295, "last", false)];
    assert_eq!(
        run(&mut items, &args(&["todo", "add", "more"]), Platform::Other),
        Err(Fault::IdsExhausted)
    );
    assert_eq!(items, vec![item(4294967295, "last", false)]);
}

#[test]
fn execute_sorts_by_id_and_keeps_equal_ids_in_order() {
    let mut items = vec![
        item(3, "c", false),
        item(1, "a", false),
        item(2, "first two", true),
        item(2, "second two", false),
    ];
    let report = execute(&mut items, &args(&["todo", "list", "-a"]), Platform::Other).unwrap();
    assert_eq!(
        report.output,
        "  1\u{2502} a\n  2\u{2502} first two\n  2\u{2502} second two\n  3\u{2502} c\n"
    );
    assert_eq!(
        items,
        vec![
            item(1, "a", false),
            item(2, "first two", true),
            item(2, "second two", false),
            item(3, "c", false),
        ]
    );
}

#[test]
fn listing_twice_changes_nothing_more() {
    let mut items = vec![item(2, "b", false), item(1, "a", true)];
    let first = execute(&mut items, &args(&["todo", "list"]), Platform::Other).unwrap();
    let after_first = items.clone();
    let second = execute(&mut items, &args(&["todo", "list"]), Platform::Other).unwrap();
    assert_eq!(first, second);
    assert_eq!(items, after_first);
    assert_eq!(items, vec![item(1, "a", true), item(2, "b", false)]);
}

#[test]
fn add_complete_and_list_from_an_empty_store() {
    let platform = Platform::Other;
    let mut items = read_store(None, platform).unwrap();
    let added = execute(&mut items, &args(&["todo", "add", "buy milk"]), platform).unwrap();
    assert_eq!(added.output, "");
    assert!(added.save);
    assert_eq!(items, vec![item(1, "buy milk", false)]);
    let file = write_file(&items, platform);
    assert_eq!(file, "1\u{FFFD}buy milk\u{FFFD}false\n");

    let mut items = read_store(Some(&file), platform).unwrap();
    execute(&mut items, &args(&["todo", "complete", "1"]), platform).unwrap();
    assert_eq!(items, vec![item(1, "buy milk", true)]);
    let file = write_file(&items, platform);

    let mut items = read_store(Some(&file), platform).unwrap();
    let listed = execute(&mut items, &args(&["todo", "list"]), platform).unwrap();
    assert_eq!(listed.output, "");
    let listed_all = execute(&mut items, &args(&["todo", "list", "-a"]), platform).unwrap();
    assert_eq!(listed_all.output, "  1\u{2502} buy milk\n");
    assert_eq!(write_file(&items, platform), file);
}

#[test]
fn paths_end_in_the_file_names() {
    let dir = CacheDir::At("/home/alice/.cache".to_string());
    assert_eq!(
        todo_path(dir.clone(), Platform::Other),
        Ok("/home/alice/.cache/todo".to_string())
    );
    assert_eq!(
        todo_path(CacheDir::At("C:\\Users\\Alice\\AppData\\Local".to_string()), Platform::Windows),
        Ok("C:\\Users\\Alice\\AppData\\Local\\todo".to_string())
    );
    assert_eq!(save_path(dir), Ok("/home/alice/.cache/todo_list/save.json".to_string()));
}

#[test]
fn paths_need_a_cache_directory() {
    assert_eq!(todo_path(CacheDir::Missing, Platform::Other), Err(PathError::NoCacheDir));
    assert_eq!(todo_path(CacheDir::NotText, Platform::Other), Err(PathError::InvalidName));
    assert_eq!(save_path(CacheDir::Missing), Err(PathError::NoCacheDir));
    assert_eq!(save_path(CacheDir::NotText), Err(PathError::InvalidName));
}

#[test]
fn found_paths_lie_below_the_cache_directory() {
    match get_todo(Platform::Other) {
        Ok(path) => assert!(path.ends_with("/todo") && path.len() > "/todo".len()),
        Err(e) => assert!(matches!(e, PathError::NoCacheDir | PathError::InvalidName)),
    }
    match get_save_dir() {
        Ok(path) => assert!(path.ends_with("/todo_list/save.json")),
        Err(e) => assert!(matches!(e, PathError::NoCacheDir | PathError::InvalidName)),
    }
}

#[test]
fn session_runs_from_file_to_file() {
    let platform = Platform::Other;
    let first = session(None, &args(&["todo", "add", "buy milk"]), platform).unwrap();
    assert_eq!(first.report.output, "");
    assert_eq!(first.report.exit_code, 0);
    assert_eq!(first.file, Some("1\u{FFFD}buy milk\u{FFFD}false\n".to_string()));

    let second =
        session(first.file.as_deref(), &args(&["todo", "complete", "1"]), platform).unwrap();
    assert_eq!(second.file, Some("1\u{FFFD}buy milk\u{FFFD}true\n".to_string()));

    let third = session(second.file.as_deref(), &args(&["todo", "list"]), platform).unwrap();
    assert_eq!(third.report.output, "");
    assert_eq!(third.file, second.file);

    let fourth =
        session(second.file.as_deref(), &args(&["todo", "list", "-a"]), platform).unwrap();
    assert_eq!(fourth.report.output, "  1\u{2502} buy milk\n");
    assert_eq!(fourth.file, second.file);

    let fifth = session(second.file.as_deref(), &args(&["todo", "rm", "1"]), platform).unwrap();
    assert_eq!(fifth.file, Some(String::new()));
}

#[test]
fn session_writes_the_store_in_the_order_of_ids() {
    let file = "3\u{FFFD}c\u{FFFD}false\r\n1\u{FFFD}a\u{FFFD}true\r\n";
    let out = session(Some(file), &args(&["todo"]), Platform::Windows).unwrap();
    assert_eq!(out.report.output, "  3\u{2502} c\n");
    assert_eq!(
        out.file,
        Some("1\u{FFFD}a\u{FFFD}true\r\n3\u{FFFD}c\u{FFFD}false\r\n".to_string())
    );
}

#[test]
fn session_does_not_write_after_an_unknown_verb() {
    let out = session(None, &args(&["todo", "frob"]), Platform::Other).unwrap();
    assert_eq!(out.report.exit_code, 1);
    assert_eq!(out.file, None);
    assert_eq!(
        out.report.errors,
        format!("Invalid Usage: 'frob'\n{}", print_help(Platform::Other))
    );
}

#[test]
fn session_fails_on_a_bad_file_or_command() {
    assert_eq!(
        session(Some("junk"), &args(&["todo"]), Platform::Other),
        Err(Failure::Unreadable(ParseError::MissingNewline))
    );
    assert_eq!(
        session(None, &args(&["todo", "rm"]), Platform::Other),
        Err(Failure::Refused(Fault::MissingArgument))
    );
    assert_eq!(
        session(None, &args(&["todo", "rm", "x"]), Platform::Other),
        Err(Failure::Refused(Fault::InvalidId))
    );
}

#[test]
fn sort_by_id_is_a_stable_sort() {
    let cases: Vec<Vec<TodoItem>> = vec![
        vec![],
        vec![item(5, "only", false)],
        vec![item(3, "c", false), item(1, "a", true), item(2, "b", false)],
        vec![item(2, "x", false), item(2, "y", true), item(1, "z", false), item(2, "w", false)],
        vec![item(1, "a", false), item(2, "b", false), item(3, "c", false)],
        vec![item(9, "i", false), item(8, "h", false), item(7, "g", false), item(0, "", true)],
    ];
    for case in cases {
        let mut sorted = case.clone();
        sort_by_id(&mut sorted);
        let mut expected = case.clone();
        expected.sort_by_key(|it| it.id);
        assert_eq!(sorted, expected);
        let mut again = sorted.clone();
        sort_by_id(&mut again);
        assert_eq!(again, sorted);
    }
}

#[test]
fn space_agrees_with_unicode_white_space() {
    for code in 0..=0x10FFFFu32 {
        if let Some(c) = char::from_u32(code) {
            assert_eq!(space(c), c.is_whitespace(), "{:?}", c);
        }
    }
}

#[test]
fn decimal_and_read_u32_are_inverse() {
    for n in [0u32, 1, 9, 10, 99, 100, 1000, 65535, 4294967294, 4294967295] {
        assert_eq!(decimal(n), chars(&n.to_string()));
        assert_eq!(read_u32(&decimal(n)), Some(n));
    }
}
