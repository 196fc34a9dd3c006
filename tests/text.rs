use puma_link::options::{Options, SubCommand, options_from};
use puma_link::text::{first_line, int_to_text, parse_int, same_text, text_lt};

#[test]
fn first_line_stops_at_newline() {
    assert_eq!(first_line("abc\ndef"), "abc");
    assert_eq!(first_line("abc\r\ndef"), "abc");
    assert_eq!(first_line("abc"), "abc");
    assert_eq!(first_line("abc\r"), "abc\r");
    assert_eq!(first_line(""), "");
    assert_eq!(first_line("\nabc"), "");
    assert_eq!(first_line("é\n"), "é");
}

#[test]
fn parse_int_reads_signed_decimals() {
    assert_eq!(parse_int("3000"), Some(3000));
    assert_eq!(parse_int("-12"), Some(-12));
    assert_eq!(parse_int("+12"), Some(12));
    assert_eq!(parse_int("007"), Some(7));
    assert_eq!(parse_int("2147483647"), Some(i32::MAX));
    assert_eq!(parse_int("-2147483648"), Some(i32::MIN));
    assert_eq!(parse_int("2147483648"), None);
    assert_eq!(parse_int(""), None);
    assert_eq!(parse_int("+"), None);
    assert_eq!(parse_int("1 "), None);
    assert_eq!(parse_int("--1"), None);
}

#[test]
fn text_comparisons() {
    assert!(same_text("abc", "abc"));
    assert!(!same_text("abc", "abd"));
    assert!(!same_text("ab", "abc"));
    assert!(text_lt("ab", "abc"));
    assert!(text_lt("abc", "abd"));
    assert!(!text_lt("abc", "abc"));
    assert!(text_lt("Z", "a"));
    assert!(!text_lt("b", "a"));
}

#[test]
fn options_follow_the_subcommand() {
    assert_eq!(options_from("list", None), Some(Options { sub_command: SubCommand::List }));
    assert_eq!(options_from("", None), Some(Options { sub_command: SubCommand::List }));
    assert_eq!(
        options_from("procfile", None),
        Some(Options { sub_command: SubCommand::Procfile })
    );
    assert_eq!(
        options_from("port", Some("a".to_string())),
        Some(Options { sub_command: SubCommand::Port { app_name: Some("a".to_string()) } })
    );
    assert_eq!(
        options_from("link", None),
        Some(Options { sub_command: SubCommand::Link { app_name: None } })
    );
    assert_eq!(
        options_from("unlink", Some("b".to_string())),
        Some(Options { sub_command: SubCommand::Unlink { app_name: Some("b".to_string()) } })
    );
    assert_eq!(options_from("bogus", None), None);
}

#[test]
fn int_to_text_writes_decimal() {
    assert_eq!(int_to_text(3000), "3000");
    assert_eq!(int_to_text(0), "0");
    assert_eq!(int_to_text(-45), "-45");
    assert_eq!(int_to_text(i32::MAX), "2147483647");
    assert_eq!(int_to_text(i32::MIN), "-2147483648");
    assert_eq!(parse_int(&int_to_text(-2147483648)), Some(i32::MIN));
}
