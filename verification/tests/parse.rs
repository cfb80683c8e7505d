use matrix_firefly_bot::amount::is_float_token;
use matrix_firefly_bot::parse::AddArgs;
use matrix_firefly_bot::parse::Cmd;

fn parse_add(args: &str) -> AddArgs {
    match AddArgs::parse(args) {
        Ok(args) => args,
        Err(e) => panic!("parse failed: {}", e.message()),
    }
}

fn assert_add_arg(
    actual: AddArgs,
    category: &str,
    amount: f64,
    note: Option<&str>,
    tags: Vec<&str>,
) {
    assert_eq!(actual.category, category);
    assert_eq!(actual.amount.parse::<f64>().unwrap(), amount);
    assert_eq!(actual.note.as_deref(), note);
    let actual_tags: Vec<&str> = actual.tags.iter().map(|t| t.as_str()).collect();
    assert_eq!(actual_tags, tags);
}

#[test]
fn test_parse_add() {
    assert_add_arg(parse_add("Test: 1.23"), "Test", 1.23, None, vec![]);
    assert_add_arg(
        parse_add("multi word cat: $100"),
        "multi word cat",
        100.00,
        None,
        vec![],
    );
    assert_add_arg(
        parse_add("cat : 0.25 this is a note"),
        "cat",
        0.25,
        Some("this is a note"),
        vec![],
    );
    assert_add_arg(
        parse_add("test: 1.25 #tag"),
        "test",
        1.25,
        None,
        vec!["tag"],
    );
    assert_add_arg(
        parse_add("test: 1 this is a note #one #two #three"),
        "test",
        1.00,
        Some("this is a note"),
        vec!["one", "two", "three"],
    );
    assert_add_arg(
        parse_add(
            "   weird spacing   :   $1.01    this one has  extra   spacing    #one    #  two  ",
        ),
        "weird spacing",
        1.01,
        Some("this one has  extra   spacing"),
        vec!["one", "two"],
    );
}

#[test]
fn add_simple_scenario() {
    match Cmd::parse("!add Test: 1.23") {
        Ok(Cmd::Add(args)) => assert_add_arg(args, "Test", 1.23, None, vec![]),
        _ => panic!("expected an add command"),
    }
}

#[test]
fn add_dollar_scenario() {
    let args = parse_add("multi word cat: $100");
    assert_eq!(args.category, "multi word cat");
    assert_eq!(args.amount, "100");
    assert_eq!(args.amount.parse::<f64>().unwrap(), 100.0);
}

#[test]
fn add_note_and_tags_scenario() {
    let args = parse_add("test: 1 this is a note #one #two #three");
    assert_eq!(args.note.as_deref(), Some("this is a note"));
    let tags: Vec<&str> = args.tags.iter().map(|t| t.as_str()).collect();
    assert_eq!(tags, vec!["one", "two", "three"]);
}

#[test]
fn tail_without_hash_is_all_note() {
    assert_add_arg(
        parse_add("cat: 1 just a note"),
        "cat",
        1.0,
        Some("just a note"),
        vec![],
    );
}

#[test]
fn tail_opening_with_hash_has_no_note() {
    assert_add_arg(parse_add("cat: 1 #a #b"), "cat", 1.0, None, vec!["a", "b"]);
}

#[test]
fn consecutive_and_trailing_hashes_are_dropped() {
    assert_add_arg(
        parse_add("cat: 1 note #a ## b ##"),
        "cat",
        1.0,
        Some("note"),
        vec!["a", "b"],
    );
}

#[test]
fn parsing_is_repeatable() {
    let first = parse_add("Test: 1.23 lunch #work");
    let second = parse_add("Test: 1.23 lunch #work");
    assert_eq!(first.category, second.category);
    assert_eq!(first.amount, second.amount);
    assert_eq!(first.note, second.note);
    assert_eq!(first.tags, second.tags);
}

#[test]
fn simple_commands_parse() {
    assert!(matches!(Cmd::parse("!ping"), Ok(Cmd::Ping)));
    assert!(matches!(Cmd::parse("!help"), Ok(Cmd::Help)));
    assert!(matches!(Cmd::parse("!categories"), Ok(Cmd::Categories)));
    assert!(matches!(Cmd::parse("!ping extra words"), Ok(Cmd::Ping)));
}

#[test]
fn unknown_command_message() {
    let e = Cmd::parse("!frobnicate now").unwrap_err();
    assert_eq!(e.message(), "Unknown command: !frobnicate");
}

#[test]
fn missing_separator_is_invalid_arguments() {
    let e = Cmd::parse("!add no separator here").unwrap_err();
    assert_eq!(
        e.message(),
        "Invalid arguments. Usage: !add <Category>: <Amount> [Note] [#Tag...]"
    );
}

#[test]
fn empty_category_is_invalid_arguments() {
    let e = AddArgs::parse("   : 1.00").unwrap_err();
    assert_eq!(
        e.message(),
        "Invalid arguments. Usage: !add <Category>: <Amount> [Note] [#Tag...]"
    );
}

#[test]
fn empty_amount_is_invalid_arguments() {
    assert!(AddArgs::parse("cat:").is_err());
    assert!(AddArgs::parse("cat:   ").is_err());
    assert!(AddArgs::parse("cat: $").is_err());
}

#[test]
fn bad_amount_reports_the_token() {
    let e = AddArgs::parse("cat: abc").unwrap_err();
    assert_eq!(e.message(), "Invalid amount: abc");
}

#[test]
fn amount_grammar_matches_float_parser() {
    let tokens = [
        "1", "1.23", ".5", "5.", "+1", "-1.2", "1e5", "1E-5", "2.5e+7", "12.3E-7", "inf",
        "INF", "Infinity", "nan", "NaN", "-inf", "+nan", "", ".", "e5", "1e", "1.2.3", "$5",
        "1 2", "abc", "0x10", "1_000", " 1", "1 ", "+", "-", "--1", "1e+", "infinityy", "na",
        "1e2e3", ".e5", "00042", "0.0",
    ];
    for t in tokens {
        assert_eq!(is_float_token(t), t.parse::<f64>().is_ok(), "token {:?}", t);
    }
}
