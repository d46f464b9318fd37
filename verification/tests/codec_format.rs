//! The log text format: numerals, line parsing, line splitting, and the
//! write/read round trip.

use sw::codec::{encode_entry, parse_line, parse_log, split_lines};
use sw::command::{process_command, Command, FileAction};
use sw::numtext::{parse_u64, u64_to_dec};

#[test]
fn numerals_render_exactly() {
    assert_eq!(u64_to_dec(0), "0");
    assert_eq!(u64_to_dec(7), "7");
    assert_eq!(u64_to_dec(10), "10");
    assert_eq!(u64_to_dec(3_500_000_000), "3500000000");
    assert_eq!(u64_to_dec(u64::MAX), "18446744073709551615");
}

#[test]
fn numerals_parse_exactly() {
    assert_eq!(parse_u64("0"), Some(0));
    assert_eq!(parse_u64("007"), Some(7));
    assert_eq!(parse_u64("18446744073709551615"), Some(u64::MAX));
    assert_eq!(parse_u64("18446744073709551616"), None);
    assert_eq!(parse_u64(""), None);
    assert_eq!(parse_u64("12a"), None);
    assert_eq!(parse_u64("+5"), None);
    assert_eq!(parse_u64("-5"), None);
    assert_eq!(parse_u64(" 5"), None);
}

#[test]
fn encode_writes_one_line() {
    assert_eq!(encode_entry("0", 42), "0: 42\n");
    assert_eq!(encode_entry("lunch", 3_500_000_000), "lunch: 3500000000\n");
    assert_eq!(encode_entry("", 1), ": 1\n");
}

#[test]
fn line_parsing_follows_the_first_separator() {
    let e = parse_line("lunch: 123").unwrap();
    assert_eq!(e.label, "lunch");
    assert_eq!(e.timestamp, 123);

    // A colon not followed by a space stays in the label.
    let e2 = parse_line("a:b: 12").unwrap();
    assert_eq!(e2.label, "a:b");
    assert_eq!(e2.timestamp, 12);

    // The timestamp field runs to the next separator; text after it is
    // ignored, the way the reader takes only the second field.
    let e3 = parse_line("x: 1: 2").unwrap();
    assert_eq!(e3.label, "x");
    assert_eq!(e3.timestamp, 1);

    // An empty label round-trips.
    let e4 = parse_line(": 5").unwrap();
    assert_eq!(e4.label, "");
    assert_eq!(e4.timestamp, 5);

    assert!(parse_line("nosep").is_none());
    assert!(parse_line("a: ").is_none());
    assert!(parse_line("a: 1x").is_none());
    assert!(parse_line("a:1").is_none());
}

#[test]
fn splitting_matches_the_reader() {
    let a = split_lines("a\nb\n");
    assert_eq!(a, vec!["a".to_string(), "b".to_string()]);
    // A final unterminated line still counts.
    let b = split_lines("a\nb");
    assert_eq!(b, vec!["a".to_string(), "b".to_string()]);
    let c = split_lines("");
    assert!(c.is_empty());
    let d = split_lines("\n");
    assert_eq!(d, vec!["".to_string()]);
}

#[test]
fn written_log_reads_back_exactly() {
    let r = process_command(None, Command::Start, 42).unwrap();
    let mut content = match r.0 {
        FileAction::CreateNew(s) => s,
        _ => panic!(),
    };
    let r2 = process_command(Some(&content), Command::Record(Some("5".to_string())), 7).unwrap();
    match r2.0 {
        FileAction::Append(s) => content.push_str(&s),
        _ => panic!(),
    }
    let entries = parse_log(&content).unwrap();
    assert_eq!(entries.len(), 2);
    assert_eq!(entries[0].label, "0");
    assert_eq!(entries[0].timestamp, 42);
    assert_eq!(entries[1].label, "5");
    assert_eq!(entries[1].timestamp, 7);
}

#[test]
fn duplicate_labels_are_stored_as_given() {
    let entries = parse_log("0: 1\nx: 2\nx: 3\n").unwrap();
    assert_eq!(entries.len(), 3);
    assert_eq!(entries[1].label, "x");
    assert_eq!(entries[2].label, "x");
}
