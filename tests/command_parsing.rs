use hacker_news_cli::client::Category;
use hacker_news_cli::command::{is_not_whitespace, Command, ErrorKind};

fn kind_of(input: &str) -> ErrorKind {
    match Command::parse(input) {
        Ok(c) => panic!("expected an error for {input:?}, got {c:?}"),
        Err(e) => {
            assert_eq!(e.input, input);
            e.kind
        }
    }
}

#[test]
fn top_with_count_parses() {
    assert_eq!(Command::parse("top 5").unwrap(), Command::Top(5));
}

#[test]
fn unknown_verb_is_rejected() {
    assert_eq!(kind_of("bogus"), ErrorKind::UnknownVerb);
}

#[test]
fn verb_without_count_is_rejected() {
    assert_eq!(kind_of("top"), ErrorKind::MissingArgument);
    assert_eq!(kind_of("top   "), ErrorKind::MissingArgument);
}

#[test]
fn every_verb_parses() {
    assert_eq!(Command::parse("new 3").unwrap(), Command::New(3));
    assert_eq!(Command::parse("show 12").unwrap(), Command::Show(12));
    assert_eq!(Command::parse("ask 0").unwrap(), Command::Ask(0));
    assert_eq!(Command::parse("jobs 40").unwrap(), Command::Jobs(40));
    assert_eq!(Command::parse("help").unwrap(), Command::Help);
    assert_eq!(Command::parse("?").unwrap(), Command::Help);
    assert_eq!(Command::parse("exit").unwrap(), Command::Exit);
    assert_eq!(Command::parse("quit").unwrap(), Command::Exit);
}

#[test]
fn non_numeric_count_is_rejected() {
    assert_eq!(kind_of("top abc"), ErrorKind::InvalidArgument);
    assert_eq!(kind_of("new -1"), ErrorKind::InvalidArgument);
    assert_eq!(kind_of("ask 5x"), ErrorKind::InvalidArgument);
    assert_eq!(kind_of("jobs +"), ErrorKind::InvalidArgument);
}

#[test]
fn count_too_large_for_usize_is_rejected() {
    assert_eq!(kind_of("top 99999999999999999999999"), ErrorKind::InvalidArgument);
    let max = format!("top {}", usize::MAX);
    assert_eq!(Command::parse(&max).unwrap(), Command::Top(usize::MAX));
}

#[test]
fn plus_sign_and_blanks_are_accepted() {
    assert_eq!(Command::parse("jobs +4").unwrap(), Command::Jobs(4));
    assert_eq!(Command::parse("top\t7").unwrap(), Command::Top(7));
    assert_eq!(Command::parse("top   7   more words").unwrap(), Command::Top(7));
    assert_eq!(Command::parse("help me").unwrap(), Command::Help);
}

#[test]
fn verbs_are_case_sensitive_and_must_start_the_line() {
    assert_eq!(kind_of("TOP 5"), ErrorKind::UnknownVerb);
    assert_eq!(kind_of(" top 5"), ErrorKind::UnknownVerb);
    assert_eq!(kind_of(""), ErrorKind::UnknownVerb);
    assert_eq!(kind_of("topp 5"), ErrorKind::UnknownVerb);
}

#[test]
fn newline_is_not_a_separator() {
    assert_eq!(kind_of("top\n5"), ErrorKind::MissingArgument);
}

#[test]
fn whitespace_test_follows_unicode() {
    assert!(is_not_whitespace('a'));
    assert!(is_not_whitespace(':'));
    assert!(!is_not_whitespace(' '));
    assert!(!is_not_whitespace('\t'));
    assert!(!is_not_whitespace('\n'));
    assert!(!is_not_whitespace('\u{a0}'));
    assert!(!is_not_whitespace('\u{3000}'));
    assert!(is_not_whitespace('\u{200b}'));
    for c in ['x', ' ', '\u{85}', '\u{2029}', '\u{180e}', '\u{feff}'] {
        assert_eq!(is_not_whitespace(c), !c.is_whitespace());
    }
}

#[test]
fn chars_parse_agrees_with_str_parse() {
    let line: Vec<char> = "show 9".chars().collect();
    assert_eq!(Command::from_chars(&line), Ok(Command::Show(9)));
    let line: Vec<char> = "nope".chars().collect();
    assert_eq!(Command::from_chars(&line), Err(ErrorKind::UnknownVerb));
}

#[test]
fn listing_names_the_list_and_count() {
    assert_eq!(Command::Top(5).listing(), Some((Category::Top, 5)));
    assert_eq!(Command::Show(2).listing(), Some((Category::Show, 2)));
    assert_eq!(Command::Jobs(0).listing(), Some((Category::Jobs, 0)));
    assert_eq!(Command::Help.listing(), None);
    assert_eq!(Command::Exit.listing(), None);
}
