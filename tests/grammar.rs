use lsm_db::cmd::{is_valid_key, is_valid_value, parse_number, split_tokens, Command};

fn parse(line: &str) -> Option<Command> {
    let tokens = split_tokens(line);
    Command::from_tokens(&tokens)
}

#[test]
fn unknown_keywords_are_rejected() {
    assert_eq!(parse("xyz"), None);
    assert_eq!(parse("xyz 1 2"), None);
    assert_eq!(parse("PUT 1 2"), None);
    assert_eq!(parse("Get 5"), None);
    assert_eq!(parse("putx 1 2"), None);
    assert_eq!(parse("x"), None);
    assert_eq!(Command::from_tokens(&vec![]), None);
}

#[test]
fn put_needs_two_numbers() {
    assert_eq!(parse("put a b"), None);
    assert_eq!(parse("put 1 b"), None);
    assert_eq!(parse("put a 2"), None);
    assert_eq!(parse("put 1 2"), Some(Command::Put(1, 2)));
    assert_eq!(parse("p 1 2"), Some(Command::Put(1, 2)));
    assert_eq!(parse("put 1"), None);
    assert_eq!(parse("put 1 2 3"), None);
}

#[test]
fn put_rejects_numbers_that_overflow() {
    assert_eq!(parse("put 2147483648 1"), None);
    assert_eq!(parse("put 1 -2147483649"), None);
    assert_eq!(
        parse("put 2147483647 -2147483648"),
        Some(Command::Put(2147483647, -2147483648))
    );
}

#[test]
fn get_takes_exactly_one_key() {
    assert_eq!(parse("get 5"), Some(Command::Get(5)));
    assert_eq!(parse("g 5"), Some(Command::Get(5)));
    assert_eq!(parse("get"), None);
    assert_eq!(parse("get 5 6"), None);
    assert_eq!(parse("get five"), None);
}

#[test]
fn range_keeps_its_bounds_in_any_order() {
    assert_eq!(parse("range 1 10"), Some(Command::Range(1, 10)));
    assert_eq!(parse("r 10 1"), Some(Command::Range(10, 1)));
    assert_eq!(parse("range 1"), None);
    assert_eq!(parse("range 1 x"), None);
}

#[test]
fn delete_builds_a_delete() {
    assert_eq!(parse("delete 4"), Some(Command::Delete(4)));
    assert_eq!(parse("d -4"), Some(Command::Delete(-4)));
    assert_eq!(parse("delete"), None);
    assert_eq!(parse("delete 4 5"), None);
}

#[test]
fn load_needs_an_existing_regular_file() {
    assert_eq!(parse("load missingfile.txt"), None);
    assert_eq!(parse("l missingfile.txt"), None);
    assert_eq!(parse("load /"), None);
    assert_eq!(
        parse("load /etc/passwd"),
        Some(Command::Load("/etc/passwd".to_string()))
    );
    assert_eq!(parse("l /etc/passwd"), Some(Command::Load("/etc/passwd".to_string())));
    assert_eq!(parse("load /etc/passwd extra"), None);
    assert_eq!(parse("load"), None);
}

#[test]
fn load_with_a_given_file_check() {
    let tokens = vec!["load", "existingfile.txt"];
    assert_eq!(
        Command::from_tokens_with(&tokens, true),
        Some(Command::Load("existingfile.txt".to_string()))
    );
    assert_eq!(Command::from_tokens_with(&tokens, false), None);
    let get = vec!["get", "5"];
    assert_eq!(Command::from_tokens_with(&get, false), Some(Command::Get(5)));
    assert_eq!(Command::from_tokens_with(&get, true), Some(Command::Get(5)));
}

#[test]
fn single_word_commands_take_no_arguments() {
    assert_eq!(parse("print"), Some(Command::PrintStats));
    assert_eq!(parse("s"), Some(Command::PrintStats));
    assert_eq!(parse("quit"), Some(Command::Quit));
    assert_eq!(parse("q"), Some(Command::Quit));
    assert_eq!(parse("help"), Some(Command::Help));
    assert_eq!(parse("h"), Some(Command::Help));
    assert_eq!(parse("print 1"), None);
    assert_eq!(parse("quit now"), None);
    assert_eq!(parse("help me"), None);
}

#[test]
fn tokens_split_on_any_whitespace() {
    assert_eq!(split_tokens("  put  3\t7 \n"), vec!["put", "3", "7"]);
    assert_eq!(split_tokens("get\u{3000}5"), vec!["get", "5"]);
    assert_eq!(split_tokens("a"), vec!["a"]);
    assert!(split_tokens("").is_empty());
    assert!(split_tokens(" \t \r\n").is_empty());
}

#[test]
fn numbers_follow_decimal_notation() {
    assert_eq!(parse_number("0"), Some(0));
    assert_eq!(parse_number("007"), Some(7));
    assert_eq!(parse_number("+7"), Some(7));
    assert_eq!(parse_number("-12"), Some(-12));
    assert_eq!(parse_number("-2147483648"), Some(i32::MIN));
    assert_eq!(parse_number("2147483647"), Some(i32::MAX));
    assert_eq!(parse_number("2147483648"), None);
    assert_eq!(parse_number("99999999999999999999"), None);
    assert_eq!(parse_number(""), None);
    assert_eq!(parse_number("-"), None);
    assert_eq!(parse_number("+"), None);
    assert_eq!(parse_number("12a"), None);
    assert_eq!(parse_number("1_000"), None);
    assert_eq!(parse_number(" 1"), None);
    assert_eq!(parse_number("--1"), None);
}

#[test]
fn key_and_value_checks_agree_with_the_parser() {
    assert!(is_valid_key("5"));
    assert!(is_valid_value("-5"));
    assert!(!is_valid_key("x"));
    assert!(!is_valid_value("4294967296"));
}
