//! Command-level scenarios: the state machine, recorded lines, and
//! report values, driven through `process_command` the way a caller
//! drives the real log file.

use sw::command::{process_command, Command, FileAction, Output};
use sw::errors::SwError;

#[test]
fn start_then_stop_leaves_no_log() {
    let r = process_command(None, Command::Start, 5).unwrap();
    let content = match r.0 {
        FileAction::CreateNew(s) => s,
        _ => panic!("start must create the log"),
    };
    assert_eq!(content, "0: 5\n");
    assert!(matches!(r.1, Output::Nothing));

    let r2 = process_command(Some(&content), Command::Stop, 6).unwrap();
    assert!(matches!(r2.0, FileAction::Delete));
    assert!(matches!(r2.1, Output::Nothing));

    let e = process_command(Some(&content), Command::Start, 7).unwrap_err();
    assert!(matches!(e, SwError::AlreadyRunning));

    let e2 = process_command(None, Command::Stop, 8).unwrap_err();
    assert!(matches!(e2, SwError::NotRunning));
}

#[test]
fn operations_without_a_log_fail_with_not_running() {
    assert!(matches!(
        process_command(None, Command::Record(None), 1),
        Err(SwError::NotRunning)
    ));
    assert!(matches!(
        process_command(None, Command::Split(None), 1),
        Err(SwError::NotRunning)
    ));
    assert!(matches!(
        process_command(None, Command::Lap(None), 1),
        Err(SwError::NotRunning)
    ));
    assert!(matches!(
        process_command(None, Command::Times, 1),
        Err(SwError::NotRunning)
    ));
    assert!(matches!(
        process_command(None, Command::Elapsed(None, false), 1),
        Err(SwError::NotRunning)
    ));
}

#[test]
fn split_and_lap_values_follow_the_formulas() {
    let t0: u64 = 1_000;
    let ts = [2_500u64, 4_000, 9_999];
    let mut content = format!("0: {}\n", t0);
    for (i, t) in ts.iter().enumerate() {
        let r = process_command(Some(&content), Command::Record(None), *t).unwrap();
        match r.0 {
            FileAction::Append(s) => {
                assert_eq!(s, format!("{}: {}\n", i + 1, t));
                content.push_str(&s);
            }
            _ => panic!("record must append"),
        }
    }
    let r = process_command(Some(&content), Command::Times, 10_000).unwrap();
    let rows = match r.1 {
        Output::Table(rows) => rows,
        _ => panic!("times must yield the table"),
    };
    assert_eq!(rows.len(), 3);
    let mut prev = t0;
    for (k, row) in rows.iter().enumerate() {
        assert_eq!(row.split_ns, ts[k] as i128 - t0 as i128);
        assert_eq!(row.lap_ns, ts[k] as i128 - prev as i128);
        let split_seconds = row.split_ns as f64 / 1e9;
        assert_eq!(split_seconds, (ts[k] - t0) as f64 / 1e9);
        let lap_seconds = row.lap_ns as f64 / 1e9;
        assert_eq!(lap_seconds, (ts[k] - prev) as f64 / 1e9);
        prev = ts[k];
    }
}

#[test]
fn explicit_label_overrides_default_for_that_call_only() {
    let mut content = String::from("0: 10\n");
    let r1 = process_command(Some(&content), Command::Record(None), 20).unwrap();
    match r1.0 {
        FileAction::Append(s) => {
            assert_eq!(s, "1: 20\n");
            content.push_str(&s);
        }
        _ => panic!(),
    }
    let r2 = process_command(
        Some(&content),
        Command::Record(Some("lunch".to_string())),
        30,
    )
    .unwrap();
    match r2.0 {
        FileAction::Append(s) => {
            assert_eq!(s, "lunch: 30\n");
            content.push_str(&s);
        }
        _ => panic!(),
    }
    let r3 = process_command(Some(&content), Command::Record(None), 40).unwrap();
    match r3.0 {
        FileAction::Append(s) => assert_eq!(s, "3: 40\n"),
        _ => panic!(),
    }
}

#[test]
fn elapsed_by_label_matches_the_times_row() {
    let content = "0: 100\na: 250\nb: 400\n";
    let r = process_command(Some(content), Command::Times, 0).unwrap();
    let rows = match r.1 {
        Output::Table(rows) => rows,
        _ => panic!(),
    };
    let split = process_command(Some(content), Command::Elapsed(Some("b".to_string()), false), 0)
        .unwrap();
    match split.1 {
        Output::Duration(d) => assert_eq!(d, rows[1].split_ns),
        _ => panic!(),
    }
    let lap = process_command(Some(content), Command::Elapsed(Some("b".to_string()), true), 0)
        .unwrap();
    match lap.1 {
        Output::Duration(d) => assert_eq!(d, rows[1].lap_ns),
        _ => panic!(),
    }
    let bad = process_command(Some(content), Command::Elapsed(Some("zz".to_string()), false), 0)
        .unwrap_err();
    match bad {
        SwError::InvalidLabel(l) => assert_eq!(l, "zz"),
        _ => panic!("unknown label must be rejected"),
    }
}

#[test]
fn start_record_elapsed_stop_scenario() {
    let r = process_command(None, Command::Start, 1_000_000_000).unwrap();
    let mut content = match r.0 {
        FileAction::CreateNew(s) => s,
        _ => panic!(),
    };
    assert_eq!(content, "0: 1000000000\n");

    // On the fresh log both elapsed values measure against the start
    // marker.
    let split0 = process_command(Some(&content), Command::Elapsed(None, false), 3_500_000_000)
        .unwrap();
    match split0.1 {
        Output::Duration(d) => assert_eq!(d as f64 / 1e9, 2.5),
        _ => panic!(),
    }
    let lap0 = process_command(Some(&content), Command::Elapsed(None, true), 3_500_000_000)
        .unwrap();
    match lap0.1 {
        Output::Duration(d) => assert_eq!(d as f64 / 1e9, 2.5),
        _ => panic!(),
    }

    let r2 = process_command(Some(&content), Command::Record(None), 3_500_000_000).unwrap();
    let appended = match r2.0 {
        FileAction::Append(s) => s,
        _ => panic!(),
    };
    assert_eq!(appended, "1: 3500000000\n");
    content.push_str(&appended);

    // After the record, the split still runs from the start marker and
    // the lap runs from the record just stored.
    let split = process_command(Some(&content), Command::Elapsed(None, false), 3_500_000_000)
        .unwrap();
    match split.1 {
        Output::Duration(d) => assert_eq!(d as f64 / 1e9, 2.5),
        _ => panic!(),
    }
    let lap = process_command(Some(&content), Command::Elapsed(None, true), 3_500_000_000)
        .unwrap();
    match lap.1 {
        Output::Duration(d) => assert_eq!(d as f64 / 1e9, 0.0),
        _ => panic!(),
    }

    let stop = process_command(Some(&content), Command::Stop, 4_000_000_000).unwrap();
    assert!(matches!(stop.0, FileAction::Delete));

    let gone = process_command(None, Command::Times, 4_000_000_000).unwrap_err();
    assert!(matches!(gone, SwError::NotRunning));
}

#[test]
fn split_and_lap_commands_append_and_report() {
    let content = "0: 100\na: 300\n";
    let r = process_command(Some(content), Command::Split(None), 450).unwrap();
    match &r.0 {
        FileAction::Append(s) => assert_eq!(s, "2: 450\n"),
        _ => panic!(),
    }
    match r.1 {
        Output::Duration(d) => assert_eq!(d, 350),
        _ => panic!(),
    }
    let r2 = process_command(Some(content), Command::Lap(Some("L".to_string())), 450).unwrap();
    match &r2.0 {
        FileAction::Append(s) => assert_eq!(s, "L: 450\n"),
        _ => panic!(),
    }
    match r2.1 {
        Output::Duration(d) => assert_eq!(d, 150),
        _ => panic!(),
    }
}

#[test]
fn toggle_starts_when_absent_and_stops_with_a_report() {
    let r = process_command(None, Command::Toggle, 11).unwrap();
    match r.0 {
        FileAction::CreateNew(s) => assert_eq!(s, "0: 11\n"),
        _ => panic!(),
    }
    assert!(matches!(r.1, Output::Nothing));

    let r2 = process_command(Some("0: 10\n"), Command::Toggle, 35).unwrap();
    assert!(matches!(r2.0, FileAction::Delete));
    match r2.1 {
        Output::StopReport(d) => assert_eq!(d, 25),
        _ => panic!(),
    }
}

#[test]
fn corrupt_logs_are_rejected() {
    assert!(matches!(
        process_command(Some("garbage\n"), Command::Times, 0),
        Err(SwError::CorruptLog)
    ));
    assert!(matches!(
        process_command(Some("a: xyz\n"), Command::Times, 0),
        Err(SwError::CorruptLog)
    ));
    assert!(matches!(
        process_command(Some(""), Command::Times, 0),
        Err(SwError::CorruptLog)
    ));
    assert!(matches!(
        process_command(Some("a: 18446744073709551616\n"), Command::Times, 0),
        Err(SwError::CorruptLog)
    ));
    assert!(matches!(
        process_command(Some("garbage\n"), Command::Record(None), 9),
        Err(SwError::CorruptLog)
    ));
    // An explicit-label record appends without reading, so a corrupt log
    // does not stop it.
    assert!(matches!(
        process_command(Some("garbage\n"), Command::Record(Some("x".to_string())), 9),
        Ok(_)
    ));
}

#[test]
fn times_on_a_fresh_log_yields_an_empty_table() {
    let r = process_command(Some("0: 5\n"), Command::Times, 9).unwrap();
    match r.1 {
        Output::Table(rows) => assert_eq!(rows.len(), 0),
        _ => panic!(),
    }
}
