use oil::command::Command;
use oil::input::parse_time;
use oil::resolve::{
    command_keys, match_command, match_tokens, CommandInput, CommandKind, Matched,
};
use oil::text::{decimal_string, parse_i64, parse_u32, parse_usize};
use oil::time::TimeOfDay;
use oil::tracked_event::Uid;

fn words(line: &str) -> Vec<String> {
    line.split(' ')
        .filter(|w| !w.is_empty())
        .map(|w| w.to_string())
        .collect()
}

#[test]
fn numbers_are_read_like_the_standard_library_reads_them() {
    for text in [
        "0", "7", "007", "+7", "18446744073709551615", "18446744073709551616",
        "99999999999999999999999", "", "+", "-", "-0", "-7", "++7", "+-7", "7+", " 7", "7 ",
        "0x10", "1_000", "१२", "12a", "a12", "+0", "000000000000000000000000000001",
    ] {
        assert_eq!(parse_usize(text), text.parse::<usize>().ok(), "{:?}", text);
    }
    assert_eq!(parse_usize("42"), Some(42));
    assert_eq!(parse_usize("18446744073709551615"), Some(usize::MAX));
}

#[test]
fn smaller_and_signed_numbers_are_read_alike() {
    for text in [
        "0", "7", "007", "+7", "-7", "-0", "+0", "-", "+", "", "--7", "-+7", "+-7", "7-",
        "4294967295", "4294967296", "+4294967295", "-4294967295", "9223372036854775807",
        "9223372036854775808", "-9223372036854775808", "-9223372036854775809",
        "18446744073709551615", "18446744073709551616", "-18446744073709551616",
        "99999999999999999999999999", "-99999999999999999999999999",
        "-000000000000000000000009223372036854775808", "1e3", "1.0", " 1", "١",
    ] {
        assert_eq!(parse_u32(text), text.parse::<u32>().ok(), "{:?}", text);
        assert_eq!(parse_i64(text), text.parse::<i64>().ok(), "{:?}", text);
        assert_eq!(parse_usize(text), text.parse::<usize>().ok(), "{:?}", text);
    }
    assert_eq!(parse_i64("-9223372036854775808"), Some(i64::MIN));
    assert_eq!(parse_i64("9223372036854775807"), Some(i64::MAX));
    assert_eq!(parse_u32("4294967295"), Some(u32::MAX));
}

#[test]
fn numbers_are_written_in_decimal() {
    for n in [
        0, 1, 9, 10, 11, 99, 100, 12345, -1, -10, -12345, i64::MAX, i64::MIN, i64::MIN + 1,
    ] {
        assert_eq!(decimal_string(n), n.to_string());
    }
}

#[test]
fn first_words_name_commands() {
    let keys = command_keys();
    assert_eq!(keys.len(), 9);
    let cases = [
        ("0", Some(CommandInput::Complete)),
        ("12", Some(CommandInput::Complete)),
        ("create", Some(CommandInput::Create)),
        ("c", Some(CommandInput::Create)),
        ("rm", Some(CommandInput::Remove)),
        ("alter", Some(CommandInput::Alter)),
        ("a", Some(CommandInput::Alter)),
        ("trigger", Some(CommandInput::Trigger)),
        ("trig", Some(CommandInput::Trigger)),
        ("t", Some(CommandInput::Trigger)),
        ("show", Some(CommandInput::Show)),
        ("s", Some(CommandInput::Show)),
        ("hide", Some(CommandInput::Hide)),
        ("h", Some(CommandInput::Hide)),
        ("undo", Some(CommandInput::Undo)),
        ("u", Some(CommandInput::Undo)),
        ("exit", Some(CommandInput::Exit)),
        ("quit", Some(CommandInput::Exit)),
        ("q", Some(CommandInput::Exit)),
        ("remove", None),
        ("Create", None),
        ("", None),
        ("-1", None),
    ];
    for (word, expected) in cases {
        assert_eq!(keys.command_input(word), expected, "{:?}", word);
        assert_eq!(keys.is_match(word), expected.is_some(), "{:?}", word);
    }
    assert_eq!(keys.get(0).name, "<id>");
    assert_eq!(keys.get(0).short_desc, "set event as completed");
    assert_eq!(keys.get(8).name, "exit");
    assert!(keys.get(2).is_match("rm"));
    assert_eq!(keys.get(2).command_input(), CommandInput::Remove);
}

#[test]
fn an_empty_line_refreshes() {
    let ids = vec![Uid(4), Uid(2)];
    for line in ["", "   ", "\t \n"] {
        assert!(matches!(
            match_command(line, &ids),
            Matched::Kind(CommandKind::DataCommand(Command::Refresh(_)))
        ));
    }
    assert!(matches!(
        match_tokens(&vec![], &ids),
        Matched::Kind(CommandKind::DataCommand(Command::Refresh(_)))
    ));
}

#[test]
fn lines_are_split_at_white_space() {
    let ids = vec![Uid(4), Uid(2), Uid(9)];
    match match_command("  \t1 \u{2003} 0\n", &ids) {
        Matched::Kind(CommandKind::DataCommand(Command::Complete(cmd))) => {
            assert_eq!(cmd.0, vec![Uid(2), Uid(4)])
        }
        other => panic!("{:?}", other),
    }
    match match_command("rm 2 1", &ids) {
        Matched::Kind(CommandKind::DataCommand(Command::Remove(cmd))) => {
            assert_eq!(cmd.0, vec![Uid(9)])
        }
        other => panic!("{:?}", other),
    }
}

#[test]
fn numbers_complete_the_events_that_are_shown_under_them() {
    let ids = vec![Uid(4), Uid(2), Uid(9)];
    match match_tokens(&words("2 x 0 17 +1 2"), &ids) {
        Matched::Kind(CommandKind::DataCommand(Command::Complete(cmd))) => {
            assert_eq!(cmd.0, vec![Uid(9), Uid(4), Uid(2), Uid(9)])
        }
        other => panic!("{:?}", other),
    }
    match match_tokens(&words("17"), &ids) {
        Matched::Kind(CommandKind::DataCommand(Command::Complete(cmd))) => {
            assert!(cmd.0.is_empty())
        }
        other => panic!("{:?}", other),
    }
}

#[test]
fn commands_with_one_event() {
    let ids = vec![Uid(4), Uid(2), Uid(9)];
    match match_tokens(&words("rm 1"), &ids) {
        Matched::Kind(CommandKind::DataCommand(Command::Remove(cmd))) => {
            assert_eq!(cmd.0, vec![Uid(2)])
        }
        other => panic!("{:?}", other),
    }
    match match_tokens(&words("trig 2"), &ids) {
        Matched::Kind(CommandKind::DataCommand(Command::Trigger(cmd))) => {
            assert_eq!(cmd.0, Uid(9))
        }
        other => panic!("{:?}", other),
    }
    assert!(matches!(
        match_tokens(&words("a 0"), &ids),
        Matched::Alter(Uid(4))
    ));
    assert!(matches!(
        match_tokens(&words("alter"), &ids),
        Matched::MissingId
    ));
    assert!(matches!(
        match_tokens(&words("t"), &ids),
        Matched::MissingId
    ));
    match match_tokens(&words("rm two"), &ids) {
        Matched::InvalidId(word) => assert_eq!(word, "two"),
        other => panic!("{:?}", other),
    }
    assert!(matches!(
        match_tokens(&words("rm 3"), &ids),
        Matched::UnknownId(3)
    ));
    assert!(matches!(
        match_tokens(&words("rm -1"), &ids),
        Matched::InvalidId(_)
    ));
}

#[test]
fn commands_without_events() {
    let ids = vec![Uid(4)];
    assert!(matches!(match_tokens(&words("c"), &ids), Matched::Create));
    assert!(matches!(
        match_tokens(&words("create now"), &ids),
        Matched::Create
    ));
    assert!(matches!(
        match_tokens(&words("show"), &ids),
        Matched::Kind(CommandKind::CliCommand(Command::Show(_)))
    ));
    assert!(matches!(
        match_tokens(&words("h"), &ids),
        Matched::Kind(CommandKind::CliCommand(Command::Hide(_)))
    ));
    assert!(matches!(
        match_tokens(&words("undo"), &ids),
        Matched::Kind(CommandKind::Undo)
    ));
    assert!(matches!(
        match_tokens(&words("q"), &ids),
        Matched::Kind(CommandKind::Exit)
    ));
    assert!(matches!(
        match_tokens(&words("what 0"), &ids),
        Matched::Nothing
    ));
}

#[test]
fn times_of_day_are_read_in_several_formats() {
    let time = |h, m, s| TimeOfDay::from_hms(h, m, s);
    assert_eq!(parse_time("15:00"), time(15, 0, 0));
    assert_eq!(parse_time("7:15"), time(7, 15, 0));
    assert_eq!(parse_time("23:59:58"), time(23, 59, 58));
    assert_eq!(parse_time("08.05.03"), time(8, 5, 3));
    assert_eq!(parse_time("08, 05, 03"), time(8, 5, 3));
    assert_eq!(parse_time("08.05"), time(8, 5, 0));
    assert_eq!(parse_time("08 05"), time(8, 5, 0));
    assert_eq!(parse_time("2:15"), time(2, 15, 0));
    assert_eq!(parse_time("24:00"), None);
    assert_eq!(parse_time("17:60"), None);
    assert_eq!(parse_time("noon"), None);
    assert_eq!(parse_time(""), None);
    assert_eq!(parse_time("12"), None);
    // A leap second is read as the second before it.
    assert_eq!(parse_time("23:59:60"), time(23, 59, 59));
}
