//! The command dispatcher: a two-state machine per session key.  A
//! session is Absent (no log) or Running (a log exists); each command
//! checks its precondition, asks for at most one file action, and yields
//! a report value.
//!
//! The dispatcher never touches a file itself: the caller hands it the
//! log's current content (or `None` when there is no log) and carries out
//! the returned action afterwards.

use vstd::prelude::*;

use crate::codec::{encode_entry, encode_entry_s, entries_view, parse_log, spec_parse_log,
    LogEntry};
use crate::engine::{all_times, elapsed_at_label, elapsed_now, find_label_from, DerivedTime};
use crate::errors::SwError;
use crate::numtext::dec_str;

verus! {

/// A requested stopwatch operation, with its optional label argument.
/// `Elapsed` also carries whether the lap rather than the split is asked
/// for; `Toggle` is the no-subcommand default, which starts an absent
/// stopwatch and stops-and-reports a running one.
pub enum Command {
    Start,
    Stop,
    Record(Option<String>),
    Split(Option<String>),
    Lap(Option<String>),
    Times,
    Elapsed(Option<String>, bool),
    Toggle,
}

/// The one file effect a command asks its caller to carry out.
#[derive(Debug)]
pub enum FileAction {
    /// Create the log exclusively — it must not exist yet — with this
    /// initial content.
    CreateNew(String),
    /// Append this text to the existing log.
    Append(String),
    /// Remove the log.
    Delete,
    /// Leave the log as it is.
    NoChange,
}

/// What a successful command reports.
#[derive(Debug)]
pub enum Output {
    /// Nothing to print.
    Nothing,
    /// One duration in nanoseconds: a split or lap value.
    Duration(i128),
    /// The final split in nanoseconds, reported while stopping.
    StopReport(i128),
    /// The full derived-times report.
    Table(Vec<DerivedTime>),
}

/// Whether a command requires a running stopwatch.
pub open spec fn needs_log(cmd: Command) -> bool {
    match cmd {
        Command::Start => false,
        Command::Toggle => false,
        _ => true,
    }
}

/// The session state machine over log presence: `None` when the command's
/// precondition fails, otherwise whether a log exists afterwards.
pub open spec fn transition(present: bool, cmd: Command) -> Option<bool> {
    match cmd {
        Command::Start => if present {
            None
        } else {
            Some(true)
        },
        Command::Stop => if present {
            Some(false)
        } else {
            None
        },
        Command::Toggle => Some(!present),
        _ => if present {
            Some(true)
        } else {
            None
        },
    }
}

/// Whether a log exists after the caller carries out an action.
pub open spec fn presence_after(action: FileAction, present: bool) -> bool {
    match action {
        FileAction::CreateNew(_) => true,
        FileAction::Append(_) => true,
        FileAction::Delete => false,
        FileAction::NoChange => present,
    }
}

/// The start marker's label.
pub open spec fn start_label() -> Seq<char> {
    seq!['0']
}

/// The label an append uses: the caller's, or the running count.
pub open spec fn label_or_default(lbl: Option<String>, es: Seq<(Seq<char>, u64)>) -> Seq<char> {
    match lbl {
        Some(l) => l@,
        None => dec_str(es.len()),
    }
}

/// The initial log line, `"0: <now>\n"`.
fn start_line(now: u64) -> (r: String)
    ensures
        r@ == encode_entry_s(start_label(), now),
{
    proof {
        reveal_strlit("0");
        assert("0"@ =~= start_label());
    }
    encode_entry("0", now)
}

/// Runs one command against the log's current content.
///
/// `content` is the log's text, or `None` when no log exists; `now` is
/// the externally supplied current time in nanoseconds.  On success the
/// caller must carry out the returned `FileAction`; an error asks for no
/// file change.  The contract walks the transition table: `start` and
/// `stop` flip the state; `record`/`split`/`lap` append a line under the
/// given or default label; `times` and `elapsed` only read; `toggle`
/// starts or stops-and-reports, whichever applies.
pub fn process_command(content: Option<&str>, cmd: Command, now: u64) -> (r: Result<
    (FileAction, Output),
    SwError,
>)
    ensures
        // The state machine: success follows the transition table, and the
        // requested action moves log presence to the transition's target.
        r is Ok ==> (transition(content is Some, cmd) matches Some(p) && (presence_after(
            r.unwrap().0,
            content is Some,
        ) == p)),
        (r matches Err(e) && e is AlreadyRunning) <==> (content is Some && cmd is Start),
        (r matches Err(e) && e is NotRunning) <==> (content is None && needs_log(cmd)),
        // Starting an absent stopwatch writes exactly the start marker.
        content is None && (cmd is Start || cmd is Toggle) ==> (r matches Ok(o)
            && (o.0 matches FileAction::CreateNew(s) && (s@ == encode_entry_s(start_label(), now)))
            && o.1 is Nothing),
        // Stopping a running stopwatch deletes the log.
        content is Some && cmd is Stop ==> (r matches Ok(o) && o.0 is Delete && o.1 is Nothing),
        // Recording with an explicit label appends without reading.
        cmd matches Command::Record(Some(l)) ==> (content is Some ==> (r matches Ok(o)
            && (o.0 matches FileAction::Append(s) && (s@ == encode_entry_s(l@, now)))
            && o.1 is Nothing)),
        // Recording with a default label appends under the running count.
        content matches Some(c) ==> (cmd matches Command::Record(None) ==> match spec_parse_log(
            c@,
        ) {
            None => r matches Err(e) && e is CorruptLog,
            Some(es) => if es.len() == 0 {
                r matches Err(e) && e is CorruptLog
            } else {
                r matches Ok(o) && (o.0 matches FileAction::Append(s) && (s@ == encode_entry_s(
                    dec_str(es.len()),
                    now,
                ))) && o.1 is Nothing
            },
        }),
        // Split and lap append like record and report the new entry's
        // split (lap) against the stored first (last) entry.
        content matches Some(c) ==> (cmd matches Command::Split(lbl) ==> match spec_parse_log(c@) {
            None => r matches Err(e) && e is CorruptLog,
            Some(es) => if es.len() == 0 {
                r matches Err(e) && e is CorruptLog
            } else {
                r matches Ok(o) && (o.0 matches FileAction::Append(s) && (s@ == encode_entry_s(
                    label_or_default(lbl, es),
                    now,
                ))) && (o.1 matches Output::Duration(d) && (d == now - es[0].1))
            },
        }),
        content matches Some(c) ==> (cmd matches Command::Lap(lbl) ==> match spec_parse_log(c@) {
            None => r matches Err(e) && e is CorruptLog,
            Some(es) => if es.len() == 0 {
                r matches Err(e) && e is CorruptLog
            } else {
                r matches Ok(o) && (o.0 matches FileAction::Append(s) && (s@ == encode_entry_s(
                    label_or_default(lbl, es),
                    now,
                ))) && (o.1 matches Output::Duration(d) && (d == now - es[es.len() - 1].1))
            },
        }),
        // The times report: one derived row per entry after the start
        // marker.
        content matches Some(c) ==> (cmd is Times ==> match spec_parse_log(c@) {
            None => r matches Err(e) && e is CorruptLog,
            Some(es) => if es.len() == 0 {
                r matches Err(e) && e is CorruptLog
            } else {
                r matches Ok(o) && o.0 is NoChange && (o.1 matches Output::Table(rows) && (rows@.len()
                    == es.len() - 1) && (forall|k: int|
                    0 <= k < rows@.len() ==> (#[trigger] rows@[k]).label@ == es[k + 1].0
                        && rows@[k].split_ns == es[k + 1].1 - es[0].1 && rows@[k].lap_ns == es[k
                        + 1].1 - es[k].1))
            },
        }),
        // Elapsed without a label measures `now` against the first and
        // last stored entries; with a label it reads that entry's row,
        // and an unknown label is rejected.
        content matches Some(c) ==> (cmd matches Command::Elapsed(lbl, want_lap) ==> match
            spec_parse_log(c@) {
            None => r matches Err(e) && e is CorruptLog,
            Some(es) => if es.len() == 0 {
                r matches Err(e) && e is CorruptLog
            } else {
                match lbl {
                    None => r matches Ok(o) && o.0 is NoChange && (o.1 matches Output::Duration(
                        d,
                    ) && (d == if want_lap {
                        now - es[es.len() - 1].1
                    } else {
                        now - es[0].1
                    })),
                    Some(l) => match spec_find_label(es, l@) {
                        None => r matches Err(e) && (e matches SwError::InvalidLabel(bad) && (
                        bad@ == l@)),
                        Some(k) => r matches Ok(o) && o.0 is NoChange && (o.1 matches
                            Output::Duration(d) && (d == if want_lap {
                            es[k].1 - es[k - 1].1
                        } else {
                            es[k].1 - es[0].1
                        })),
                    },
                }
            },
        }),
        // Toggling a running stopwatch deletes the log and reports the
        // final split.
        content matches Some(c) ==> (cmd is Toggle ==> match spec_parse_log(c@) {
            None => r matches Err(e) && e is CorruptLog,
            Some(es) => if es.len() == 0 {
                r matches Err(e) && e is CorruptLog
            } else {
                r matches Ok(o) && o.0 is Delete && (o.1 matches Output::StopReport(d) && (d
                    == now - es[0].1))
            },
        }),
{
    match cmd {
        Command::Start => match content {
            Some(_) => Err(SwError::AlreadyRunning),
            None => Ok((FileAction::CreateNew(start_line(now)), Output::Nothing)),
        },
        Command::Stop => match content {
            Some(_) => Ok((FileAction::Delete, Output::Nothing)),
            None => Err(SwError::NotRunning),
        },
        Command::Record(lbl) => match content {
            None => Err(SwError::NotRunning),
            Some(c) => match lbl {
                Some(l) => Ok(
                    (FileAction::Append(encode_entry(l.as_str(), now)), Output::Nothing),
                ),
                None => match parse_log(c) {
                    Err(e) => Err(e),
                    Ok(v) => if v.len() == 0 {
                        Err(SwError::CorruptLog)
                    } else {
                        let line = default_line(&v, now);
                        Ok((FileAction::Append(line), Output::Nothing))
                    },
                },
            },
        },
        Command::Split(lbl) => match content {
            None => Err(SwError::NotRunning),
            Some(c) => match parse_log(c) {
                Err(e) => Err(e),
                Ok(v) => if v.len() == 0 {
                    Err(SwError::CorruptLog)
                } else {
                    let line = chosen_line(&v, &lbl, now);
                    let d: i128 = now as i128 - v[0].timestamp as i128;
                    Ok((FileAction::Append(line), Output::Duration(d)))
                },
            },
        },
        Command::Lap(lbl) => match content {
            None => Err(SwError::NotRunning),
            Some(c) => match parse_log(c) {
                Err(e) => Err(e),
                Ok(v) => if v.len() == 0 {
                    Err(SwError::CorruptLog)
                } else {
                    let line = chosen_line(&v, &lbl, now);
                    let d: i128 = now as i128 - v[v.len() - 1].timestamp as i128;
                    Ok((FileAction::Append(line), Output::Duration(d)))
                },
            },
        },
        Command::Times => match content {
            None => Err(SwError::NotRunning),
            Some(c) => match parse_log(c) {
                Err(e) => Err(e),
                Ok(v) => if v.len() == 0 {
                    Err(SwError::CorruptLog)
                } else {
                    let rows = all_times(&v);
                    proof {
                        let es = spec_parse_log(c@).unwrap();
                        assert forall|k: int| 0 <= k < rows@.len() implies (#[trigger] rows@[
                            k]).label@ == es[k + 1].0 && rows@[k].split_ns == es[k + 1].1 - es[0].1
                            && rows@[k].lap_ns == es[k + 1].1 - es[k].1 by {
                            assert(es[k + 1] == entries_view(v@)[k + 1]);
                            assert(es[k] == entries_view(v@)[k]);
                            assert(es[0] == entries_view(v@)[0]);
                        }
                    }
                    Ok((FileAction::NoChange, Output::Table(rows)))
                },
            },
        },
        Command::Elapsed(lbl, want_lap) => match content {
            None => Err(SwError::NotRunning),
            Some(c) => match parse_log(c) {
                Err(e) => Err(e),
                Ok(v) => if v.len() == 0 {
                    Err(SwError::CorruptLog)
                } else {
                    match lbl {
                        None => {
                            let t = elapsed_now(&v, now);
                            proof {
                                let es = spec_parse_log(c@).unwrap();
                                assert(es[0] == entries_view(v@)[0]);
                                assert(es[es.len() - 1] == entries_view(v@)[v@.len() - 1]);
                            }
                            let d: i128 = if want_lap {
                                t.lap_ns
                            } else {
                                t.split_ns
                            };
                            Ok((FileAction::NoChange, Output::Duration(d)))
                        },
                        Some(l) => {
                            proof {
                                let es = spec_parse_log(c@).unwrap();
                                lemma_find_label_agrees(v@, es, l@, 1);
                                lemma_find_label_bounds(es, l@, 1);
                                match spec_find_label_from(es, l@, 1) {
                                    Some(k) => {
                                        assert(es[k] == entries_view(v@)[k]);
                                        assert(es[k - 1] == entries_view(v@)[k - 1]);
                                        assert(es[0] == entries_view(v@)[0]);
                                    },
                                    None => {},
                                }
                            }
                            match elapsed_at_label(&v, l.as_str()) {
                                Err(e) => Err(e),
                                Ok(t) => {
                                    let d: i128 = if want_lap {
                                        t.lap_ns
                                    } else {
                                        t.split_ns
                                    };
                                    Ok((FileAction::NoChange, Output::Duration(d)))
                                },
                            }
                        },
                    }
                },
            },
        },
        Command::Toggle => match content {
            None => Ok((FileAction::CreateNew(start_line(now)), Output::Nothing)),
            Some(c) => match parse_log(c) {
                Err(e) => Err(e),
                Ok(v) => if v.len() == 0 {
                    Err(SwError::CorruptLog)
                } else {
                    let d: i128 = now as i128 - v[0].timestamp as i128;
                    Ok((FileAction::Delete, Output::StopReport(d)))
                },
            },
        },
    }
}

/// The first entry at or after position 1 carrying `label`, over the
/// parsed view of a log.
pub open spec fn spec_find_label(es: Seq<(Seq<char>, u64)>, label: Seq<char>) -> Option<int> {
    spec_find_label_from(es, label, 1)
}

pub open spec fn spec_find_label_from(es: Seq<(Seq<char>, u64)>, label: Seq<char>, k: int) -> Option<
    int,
>
    decreases es.len() - k,
{
    if k < 0 || k >= es.len() {
        None
    } else if es[k].0 == label {
        Some(k)
    } else {
        spec_find_label_from(es, label, k + 1)
    }
}

/// A found label position lies within the entries, past the start
/// marker.
proof fn lemma_find_label_bounds(es: Seq<(Seq<char>, u64)>, label: Seq<char>, k0: int)
    ensures
        spec_find_label_from(es, label, k0) matches Some(k) ==> k0 <= k < es.len(),
    decreases es.len() - k0,
{
    if k0 < 0 || k0 >= es.len() {
    } else if es[k0].0 == label {
    } else {
        lemma_find_label_bounds(es, label, k0 + 1);
    }
}

/// Label search over entries and over their parsed view agree.
proof fn lemma_find_label_agrees(v: Seq<LogEntry>, es: Seq<(Seq<char>, u64)>, label: Seq<char>, k: int)
    requires
        es == entries_view(v),
    ensures
        find_label_from(v, label, k) == spec_find_label_from(es, label, k),
    decreases v.len() - k,
{
    if k < 0 || k >= v.len() {
    } else {
        assert(es[k] == (v[k].label@, v[k].timestamp));
        lemma_find_label_agrees(v, es, label, k + 1);
    }
}

/// The appended line under the default running-count label.
fn default_line(v: &Vec<LogEntry>, now: u64) -> (r: String)
    requires
        v@.len() >= 1,
    ensures
        r@ == encode_entry_s(dec_str(v@.len() as nat), now),
{
    let label = crate::numtext::u64_to_dec(v.len() as u64);
    encode_entry(label.as_str(), now)
}

/// The appended line under the caller's label, or the default.
fn chosen_line(v: &Vec<LogEntry>, lbl: &Option<String>, now: u64) -> (r: String)
    requires
        v@.len() >= 1,
    ensures
        r@ == encode_entry_s(label_or_default(*lbl, entries_view(v@)), now),
{
    match lbl {
        Some(l) => encode_entry(l.as_str(), now),
        None => default_line(v, now),
    }
}

/// The start/stop law: starting an absent session and stopping the
/// running one both succeed and return the session to Absent; a second
/// start on a running session and a stop on an absent one are the two
/// precondition failures.
pub proof fn lemma_start_stop_cycle(start_cmd: Command, stop_cmd: Command)
    requires
        start_cmd is Start,
        stop_cmd is Stop,
    ensures
        transition(false, start_cmd) == Some(true),
        transition(true, stop_cmd) == Some(false),
        transition(true, start_cmd) is None,
        transition(false, stop_cmd) is None,
{
}

/// The default-label law: on a log of `n` entries a default-labeled
/// record appends under the label `n`, and the log it leaves behind has
/// `n + 1` entries, so the next default label is `n + 1`.  Starting from
/// a fresh log (the start marker alone), successive default labels read
/// `"1"`, `"2"`, `"3"`, and so on.
pub proof fn lemma_successive_default_labels(c: Seq<char>, es: Seq<(Seq<char>, u64)>, t: u64)
    requires
        spec_parse_log(c) == Some(es),
        crate::codec::terminated(c),
        es.len() >= 1,
    ensures
        label_or_default(None, es) == dec_str(es.len()),
        spec_parse_log(c + encode_entry_s(dec_str(es.len()), t)) == Some(
            es.push((dec_str(es.len()), t)),
        ),
        crate::codec::terminated(c + encode_entry_s(dec_str(es.len()), t)),
        label_or_default(None, es.push((dec_str(es.len()), t))) == dec_str(es.len() + 1),
{
    let label = dec_str(es.len());
    crate::numtext::lemma_dec_str_digits(es.len());
    assert forall|i: int| !crate::codec::is_sep_at(label, i) by {
        if 0 <= i && i + 1 < label.len() {
            assert(crate::numtext::is_digit(label[i]));
        }
    }
    assert forall|i: int| 0 <= i < label.len() implies label[i] != '\n' by {
        assert(crate::numtext::is_digit(label[i]));
    }
    crate::codec::lemma_parse_log_append(c, es, label, t);
}

} // verus!
