//! The derivation engine, the padded times table, and error text.

use sw::engine::{all_times, elapsed_at_label, elapsed_now};
use sw::codec::parse_log;
use sw::errors::SwError;
use sw::table::{format_table, TableRow};

#[test]
fn all_times_skips_the_start_marker() {
    let log = parse_log("0: 100\na: 250\nb: 400\n").unwrap();
    let rows = all_times(&log);
    assert_eq!(rows.len(), 2);
    assert_eq!(rows[0].label, "a");
    assert_eq!(rows[0].split_ns, 150);
    assert_eq!(rows[0].lap_ns, 150);
    assert_eq!(rows[1].label, "b");
    assert_eq!(rows[1].split_ns, 300);
    assert_eq!(rows[1].lap_ns, 150);
}

#[test]
fn elapsed_now_labels_with_the_next_count() {
    let log = parse_log("0: 100\na: 200\n").unwrap();
    let t = elapsed_now(&log, 500);
    assert_eq!(t.label, "2");
    assert_eq!(t.split_ns, 400);
    assert_eq!(t.lap_ns, 300);
}

#[test]
fn elapsed_at_label_finds_the_first_match() {
    let log = parse_log("0: 100\nx: 200\nx: 350\n").unwrap();
    let t = elapsed_at_label(&log, "x").unwrap();
    assert_eq!(t.split_ns, 100);
    assert_eq!(t.lap_ns, 100);
    let e = elapsed_at_label(&log, "0").unwrap_err();
    match e {
        SwError::InvalidLabel(l) => assert_eq!(l, "0"),
        _ => panic!("the start marker is never a reported row"),
    }
}

#[test]
fn out_of_order_timestamps_yield_negative_durations() {
    let log = parse_log("0: 500\nx: 200\n").unwrap();
    let rows = all_times(&log);
    assert_eq!(rows[0].split_ns, -300);
    assert_eq!(rows[0].lap_ns, -300);
}

#[test]
fn times_table_is_padded_and_joined() {
    let rows = vec![
        TableRow {
            label: "1".to_string(),
            split: "0.5".to_string(),
            lap: "0.5".to_string(),
        },
        TableRow {
            label: "long".to_string(),
            split: "10.25".to_string(),
            lap: "9.75".to_string(),
        },
    ];
    let t = format_table(&rows);
    assert_eq!(t, "1    0.5   0.5 \nlong 10.25 9.75");
}

#[test]
fn empty_table_renders_empty() {
    let rows: Vec<TableRow> = Vec::new();
    assert_eq!(format_table(&rows), "");
}

#[test]
fn single_row_table_has_no_newline() {
    let rows = vec![TableRow {
        label: "1".to_string(),
        split: "2.5".to_string(),
        lap: "2.5".to_string(),
    }];
    assert_eq!(format_table(&rows), "1 2.5 2.5");
}

#[test]
fn error_messages_match_the_reported_text() {
    assert_eq!(SwError::AlreadyRunning.message(), "Stopwatch already running");
    assert_eq!(SwError::NotRunning.message(), "No running stopwatch");
    assert_eq!(
        SwError::InvalidLabel("zz".to_string()).message(),
        "Invalid label zz"
    );
    assert_eq!(SwError::CorruptLog.message(), "Corrupt stopwatch log");
}
