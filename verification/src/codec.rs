//! The on-disk time-log text format: one `"<label>: <timestamp>\n"` line
//! per entry.  Encoding, parsing, and the round-trip lemmas that tie the
//! two together.
//!
//! Parsing follows the reader's rule: the label is everything before the
//! first `": "`, the timestamp is the text from there to the next `": "`
//! or the line's end, and it must be a decimal `u64`.

use vstd::prelude::*;
use vstd::string::{StrSliceExecFns, StringExecFns};

use crate::errors::SwError;
use crate::numtext::{dec_str, is_digit, lemma_dec_str_digits, lemma_parse_dec_str, parse_u64,
    spec_parse_u64, u64_to_dec};

verus! {

/// One stored mark: a label and a nanosecond timestamp.
#[derive(Clone, Debug)]
pub struct LogEntry {
    pub label: String,
    pub timestamp: u64,
}

/// The mathematical shadow of a stored log: each entry as its label's
/// characters and its timestamp.
pub open spec fn entries_view(v: Seq<LogEntry>) -> Seq<(Seq<char>, u64)> {
    Seq::new(v.len(), |i: int| (v[i].label@, v[i].timestamp))
}

/// A `": "` separator starts at position `i`.
pub open spec fn is_sep_at(s: Seq<char>, i: int) -> bool {
    0 <= i && i + 1 < s.len() && s[i] == ':' && s[i + 1] == ' '
}

/// A newline stands at position `i`.
pub open spec fn is_nl_at(s: Seq<char>, i: int) -> bool {
    0 <= i < s.len() && s[i] == '\n'
}

/// The position of the first `": "` separator, if any.
pub open spec fn spec_find_sep(s: Seq<char>) -> Option<int>
    decreases s.len(),
{
    if s.len() < 2 {
        None
    } else if s[0] == ':' && s[1] == ' ' {
        Some(0)
    } else {
        match spec_find_sep(s.skip(1)) {
            None => None,
            Some(i) => Some(i + 1),
        }
    }
}

/// The position of the first newline, if any.
pub open spec fn spec_find_nl(s: Seq<char>) -> Option<int>
    decreases s.len(),
{
    if s.len() == 0 {
        None
    } else if s[0] == '\n' {
        Some(0)
    } else {
        match spec_find_nl(s.skip(1)) {
            None => None,
            Some(i) => Some(i + 1),
        }
    }
}

/// `spec_find_sep` finds the first separator and nothing earlier.
pub proof fn lemma_find_sep_props(s: Seq<char>)
    ensures
        match spec_find_sep(s) {
            Some(i) => is_sep_at(s, i) && (forall|j: int| 0 <= j < i ==> !is_sep_at(s, j)),
            None => forall|j: int| !is_sep_at(s, j),
        },
    decreases s.len(),
{
    if s.len() < 2 {
        assert(forall|j: int| !is_sep_at(s, j));
    } else if s[0] == ':' && s[1] == ' ' {
    } else {
        lemma_find_sep_props(s.skip(1));
        assert forall|j: int| #[trigger] is_sep_at(s.skip(1), j) == is_sep_at(s, j + 1) by {
            if 0 <= j && j + 1 < s.len() - 1 {
                assert(s.skip(1)[j] == s[j + 1]);
                assert(s.skip(1)[j + 1] == s[j + 2]);
            }
        }
        match spec_find_sep(s.skip(1)) {
            None => {
                assert forall|j: int| !is_sep_at(s, j) by {
                    if j == 0 {
                    } else {
                        assert(!is_sep_at(s.skip(1), j - 1));
                    }
                }
            },
            Some(i) => {
                assert(is_sep_at(s.skip(1), i));
                assert forall|j: int| 0 <= j < i + 1 implies !is_sep_at(s, j) by {
                    if j == 0 {
                    } else {
                        assert(!is_sep_at(s.skip(1), j - 1));
                    }
                }
            },
        }
    }
}

/// `spec_find_nl` finds the first newline and nothing earlier.
pub proof fn lemma_find_nl_props(s: Seq<char>)
    ensures
        match spec_find_nl(s) {
            Some(i) => is_nl_at(s, i) && (forall|j: int| 0 <= j < i ==> !is_nl_at(s, j)),
            None => forall|j: int| !is_nl_at(s, j),
        },
    decreases s.len(),
{
    if s.len() == 0 {
        assert(forall|j: int| !is_nl_at(s, j));
    } else if s[0] == '\n' {
    } else {
        lemma_find_nl_props(s.skip(1));
        assert forall|j: int| #[trigger] is_nl_at(s.skip(1), j) == is_nl_at(s, j + 1) by {
            if 0 <= j && j < s.len() - 1 {
                assert(s.skip(1)[j] == s[j + 1]);
            }
        }
        match spec_find_nl(s.skip(1)) {
            None => {
                assert forall|j: int| !is_nl_at(s, j) by {
                    if j == 0 {
                    } else {
                        assert(!is_nl_at(s.skip(1), j - 1));
                    }
                }
            },
            Some(i) => {
                assert(is_nl_at(s.skip(1), i));
                assert forall|j: int| 0 <= j < i + 1 implies !is_nl_at(s, j) by {
                    if j == 0 {
                    } else {
                        assert(!is_nl_at(s.skip(1), j - 1));
                    }
                }
            },
        }
    }
}

/// A position that is a separator, with none earlier, is where
/// `spec_find_sep` points.
pub proof fn lemma_find_sep_at(s: Seq<char>, i: int)
    requires
        is_sep_at(s, i),
        forall|j: int| 0 <= j < i ==> !is_sep_at(s, j),
    ensures
        spec_find_sep(s) == Some(i),
{
    lemma_find_sep_props(s);
    match spec_find_sep(s) {
        None => {
            assert(!is_sep_at(s, i));
        },
        Some(k) => {
            if k < i {
                assert(!is_sep_at(s, k));
            } else if i < k {
                assert(!is_sep_at(s, i));
            }
        },
    }
}

/// A position that is a newline, with none earlier, is where
/// `spec_find_nl` points.
pub proof fn lemma_find_nl_at(s: Seq<char>, i: int)
    requires
        is_nl_at(s, i),
        forall|j: int| 0 <= j < i ==> !is_nl_at(s, j),
    ensures
        spec_find_nl(s) == Some(i),
{
    lemma_find_nl_props(s);
    match spec_find_nl(s) {
        None => {
            assert(!is_nl_at(s, i));
        },
        Some(k) => {
            if k < i {
                assert(!is_nl_at(s, k));
            } else if i < k {
                assert(!is_nl_at(s, i));
            }
        },
    }
}

/// Text without a colon holds no separator.
pub proof fn lemma_find_sep_none(s: Seq<char>)
    requires
        forall|i: int| 0 <= i < s.len() ==> s[i] != ':',
    ensures
        spec_find_sep(s) is None,
{
    lemma_find_sep_props(s);
    match spec_find_sep(s) {
        None => {},
        Some(k) => {
            assert(s[k] == ':');
        },
    }
}

/// Text without a newline character has no line break.
pub proof fn lemma_find_nl_none(s: Seq<char>)
    requires
        forall|i: int| 0 <= i < s.len() ==> s[i] != '\n',
    ensures
        spec_find_nl(s) is None,
{
    lemma_find_nl_props(s);
    match spec_find_nl(s) {
        None => {},
        Some(k) => {
            assert(s[k] == '\n');
        },
    }
}

/// The content split at newlines, the way the reader sees lines: the
/// terminator is dropped, and a final unterminated line still counts.
pub open spec fn spec_split_lines(s: Seq<char>) -> Seq<Seq<char>>
    decreases s.len(),
{
    if s.len() == 0 {
        Seq::empty()
    } else {
        match spec_find_nl(s) {
            None => seq![s],
            Some(i) => {
                proof {
                    lemma_find_nl_props(s);
                }
                seq![s.take(i)] + spec_split_lines(s.skip(i + 1))
            },
        }
    }
}

/// What parsing one line yields: the label before the first `": "`, and
/// the decimal timestamp running to the next `": "` or the end.
pub open spec fn spec_parse_line(line: Seq<char>) -> Option<(Seq<char>, u64)> {
    match spec_find_sep(line) {
        None => None,
        Some(i) => {
            let label = line.take(i);
            let rest = line.skip(i + 2);
            let seg = match spec_find_sep(rest) {
                None => rest,
                Some(j) => rest.take(j),
            };
            match spec_parse_u64(seg) {
                None => None,
                Some(v) => Some((label, v)),
            }
        },
    }
}

/// What parsing a whole log yields: every line parsed, in order, or
/// nothing if any line is malformed.
pub open spec fn spec_parse_log(content: Seq<char>) -> Option<Seq<(Seq<char>, u64)>> {
    let lines = spec_split_lines(content);
    if forall|i: int| 0 <= i < lines.len() ==> (#[trigger] spec_parse_line(lines[i])) is Some {
        Some(Seq::new(lines.len(), |i: int| spec_parse_line(lines[i]).unwrap()))
    } else {
        None
    }
}

/// A label the format can carry faithfully: no `": "` separator and no
/// line break inside it.
pub open spec fn label_wf(label: Seq<char>) -> bool {
    (forall|i: int| 0 <= i < label.len() ==> label[i] != '\n') && (forall|i: int|
        !is_sep_at(label, i))
}

/// One entry's line, without its terminator.
pub open spec fn line_s(label: Seq<char>, ts: u64) -> Seq<char> {
    label + seq![':', ' '] + dec_str(ts as nat)
}

/// One entry's line as written to the log, terminator included.
pub open spec fn encode_entry_s(label: Seq<char>, ts: u64) -> Seq<char> {
    line_s(label, ts) + seq!['\n']
}

/// A whole log's text: every entry's line in order.
pub open spec fn encode_log_s(es: Seq<(Seq<char>, u64)>) -> Seq<char>
    decreases es.len(),
{
    if es.len() == 0 {
        Seq::empty()
    } else {
        encode_log_s(es.drop_last()) + encode_entry_s(es.last().0, es.last().1)
    }
}

/// Content that ends cleanly: empty, or closed by a newline.  Everything
/// the encoder writes is of this shape.
pub open spec fn terminated(c: Seq<char>) -> bool {
    c.len() == 0 || c.last() == '\n'
}

/// Renders one log line, `"<label>: <timestamp>\n"`.
pub fn encode_entry(label: &str, ts: u64) -> (r: String)
    ensures
        r@ == encode_entry_s(label@, ts),
{
    let mut r = label.to_owned();
    r.append(": ");
    let num = u64_to_dec(ts);
    r.append(num.as_str());
    r.append("\n");
    proof {
        reveal_strlit(": ");
        reveal_strlit("\n");
        assert(": "@ =~= seq![':', ' ']);
        assert("\n"@ =~= seq!['\n']);
        assert(r@ =~= encode_entry_s(label@, ts));
    }
    r
}

/// The first `": "` separator in `s`, if any.
fn find_sep(s: &str) -> (r: Option<usize>)
    ensures
        match spec_find_sep(s@) {
            None => r is None,
            Some(i) => r matches Some(u) && u == i,
        },
{
    let n = s.unicode_len();
    if n < 2 {
        return None;
    }
    let mut i: usize = 0;
    while i + 1 < n
        invariant
            n == s@.len(),
            0 <= i < n,
            forall|j: int| 0 <= j < i ==> !is_sep_at(s@, j),
        decreases n - i,
    {
        let c1 = s.get_char(i);
        let c2 = s.get_char(i + 1);
        if c1 == ':' && c2 == ' ' {
            proof {
                lemma_find_sep_at(s@, i as int);
            }
            return Some(i);
        }
        i = i + 1;
    }
    proof {
        assert(forall|j: int| !is_sep_at(s@, j));
        lemma_find_sep_props(s@);
        match spec_find_sep(s@) {
            None => {},
            Some(k) => {
                assert(is_sep_at(s@, k));
            },
        }
    }
    None
}

/// Splits content into its lines, the reader's way.
pub fn split_lines(content: &str) -> (r: Vec<String>)
    ensures
        r@.len() == spec_split_lines(content@).len(),
        forall|k: int| 0 <= k < r@.len() ==> (#[trigger] r@[k])@ == spec_split_lines(content@)[k],
{
    let n = content.unicode_len();
    let mut res: Vec<String> = Vec::new();
    let mut start: usize = 0;
    let mut i: usize = 0;
    proof {
        assert(content@.skip(0) =~= content@);
    }
    while i < n
        invariant
            n == content@.len(),
            0 <= start <= i <= n,
            spec_split_lines(content@) == views(res@) + spec_split_lines(content@.skip(start as int)),
            forall|j: int| start <= j < i ==> content@[j] != '\n',
        decreases n - i,
    {
        let c = content.get_char(i);
        if c == '\n' {
            let line = content.substring_char(start, i).to_owned();
            proof {
                let suffix = content@.skip(start as int);
                assert(is_nl_at(suffix, i - start));
                assert forall|j: int| 0 <= j < i - start implies !is_nl_at(suffix, j) by {
                    assert(suffix[j] == content@[start + j]);
                }
                lemma_find_nl_at(suffix, i - start);
                assert(suffix.take(i - start) =~= content@.subrange(start as int, i as int));
                assert(suffix.skip(i - start + 1) =~= content@.skip(i + 1));
                lemma_views_push(res@, line);
                assert(spec_split_lines(content@) =~= views(res@.push(line)) + spec_split_lines(
                    content@.skip(i + 1),
                ));
            }
            res.push(line);
            start = i + 1;
        }
        i = i + 1;
    }
    if start < n {
        let line = content.substring_char(start, n).to_owned();
        proof {
            let suffix = content@.skip(start as int);
            assert forall|j: int| 0 <= j < suffix.len() implies suffix[j] != '\n' by {
                assert(suffix[j] == content@[start + j]);
            }
            lemma_find_nl_none(suffix);
            assert(suffix =~= content@.subrange(start as int, n as int));
            lemma_views_push(res@, line);
            assert(spec_split_lines(content@) =~= views(res@.push(line)));
        }
        res.push(line);
    } else {
        proof {
            assert(content@.skip(start as int) =~= Seq::<char>::empty());
            assert(spec_split_lines(content@) =~= views(res@));
        }
    }
    res
}

/// The views of a sequence of owned strings.
pub open spec fn views(v: Seq<String>) -> Seq<Seq<char>> {
    Seq::new(v.len(), |i: int| v[i]@)
}

proof fn lemma_views_push(v: Seq<String>, x: String)
    ensures
        views(v.push(x)) =~= views(v).push(x@),
{
}

/// Parses one log line into an entry, if it is well formed.
pub fn parse_line(line: &str) -> (r: Option<LogEntry>)
    ensures
        match spec_parse_line(line@) {
            None => r is None,
            Some(p) => r matches Some(e) && e.label@ == p.0 && e.timestamp == p.1,
        },
{
    let n = line.unicode_len();
    match find_sep(line) {
        None => None,
        Some(i) => {
            proof {
                lemma_find_sep_props(line@);
            }
            let label = line.substring_char(0, i).to_owned();
            let rest = line.substring_char(i + 2, n);
            proof {
                assert(line@.subrange(0, i as int) =~= line@.take(i as int));
                assert(line@.subrange(i + 2, n as int) =~= line@.skip(i + 2));
            }
            let seg = match find_sep(rest) {
                None => rest,
                Some(j) => {
                    proof {
                        lemma_find_sep_props(rest@);
                        assert(rest@.subrange(0, j as int) =~= rest@.take(j as int));
                    }
                    rest.substring_char(0, j)
                },
            };
            match parse_u64(seg) {
                None => None,
                Some(v) => Some(LogEntry { label, timestamp: v }),
            }
        },
    }
}

/// Reads a whole log's content back into its entries; any malformed line
/// spoils the log.
pub fn parse_log(content: &str) -> (r: Result<Vec<LogEntry>, SwError>)
    ensures
        match spec_parse_log(content@) {
            None => r matches Err(e) && e is CorruptLog,
            Some(es) => r matches Ok(v) && entries_view(v@) == es,
        },
{
    let lines = split_lines(content);
    let ghost spec_lines = spec_split_lines(content@);
    let mut out: Vec<LogEntry> = Vec::new();
    let mut k: usize = 0;
    while k < lines.len()
        invariant
            k <= lines@.len(),
            lines@.len() == spec_lines.len(),
            spec_lines == spec_split_lines(content@),
            forall|j: int| 0 <= j < lines@.len() ==> (#[trigger] lines@[j])@ == spec_lines[j],
            out@.len() == k,
            forall|j: int| 0 <= j < k ==> (#[trigger] spec_parse_line(spec_lines[j])) is Some,
            forall|j: int| 0 <= j < k ==> #[trigger] out@[j].label@ == spec_parse_line(
                spec_lines[j],
            ).unwrap().0 && out@[j].timestamp == spec_parse_line(spec_lines[j]).unwrap().1,
        decreases lines@.len() - k,
    {
        let l: &String = &lines[k];
        match parse_line(l.as_str()) {
            None => {
                proof {
                    assert(spec_parse_line(spec_lines[k as int]) is None);
                }
                return Err(SwError::CorruptLog);
            },
            Some(e) => {
                out.push(e);
            },
        }
        k = k + 1;
    }
    proof {
        assert(spec_parse_log(content@) matches Some(es) && entries_view(out@) =~= es);
    }
    Ok(out)
}

/// Reading back one well-formed line gives the entry it was made from.
pub proof fn lemma_parse_line_roundtrip(label: Seq<char>, ts: u64)
    requires
        label_wf(label),
    ensures
        spec_parse_line(line_s(label, ts)) == Some((label, ts)),
{
    let num = dec_str(ts as nat);
    let line = line_s(label, ts);
    lemma_dec_str_digits(ts as nat);
    assert(line[label.len() as int] == ':');
    assert(line[label.len() as int + 1] == ' ');
    assert(is_sep_at(line, label.len() as int));
    assert forall|j: int| 0 <= j < label.len() implies !is_sep_at(line, j) by {
        if j + 1 < label.len() {
            assert(line[j] == label[j]);
            assert(line[j + 1] == label[j + 1]);
            assert(!is_sep_at(label, j));
        } else {
            assert(line[j + 1] == ':');
        }
    }
    lemma_find_sep_at(line, label.len() as int);
    assert(line.take(label.len() as int) =~= label);
    assert(line.skip(label.len() as int + 2) =~= num);
    assert forall|i: int| 0 <= i < num.len() implies num[i] != ':' by {
        assert(is_digit(num[i]));
    }
    lemma_find_sep_none(num);
    lemma_parse_dec_str(ts);
}

/// A well-formed line holds no newline, so it stays one line.
proof fn lemma_line_no_nl(label: Seq<char>, ts: u64)
    requires
        label_wf(label),
    ensures
        forall|i: int| 0 <= i < line_s(label, ts).len() ==> line_s(label, ts)[i] != '\n',
{
    let num = dec_str(ts as nat);
    let line = line_s(label, ts);
    lemma_dec_str_digits(ts as nat);
    assert forall|i: int| 0 <= i < line.len() implies line[i] != '\n' by {
        if i < label.len() {
            assert(line[i] == label[i]);
        } else if i < label.len() + 2 {
        } else {
            assert(line[i] == num[i - label.len() - 2]);
            assert(is_digit(num[i - label.len() - 2]));
        }
    }
}

/// Appending one more terminated line appends one more split line.
pub proof fn lemma_split_append(c: Seq<char>, line: Seq<char>)
    requires
        terminated(c),
        forall|i: int| 0 <= i < line.len() ==> line[i] != '\n',
    ensures
        spec_split_lines(c + line + seq!['\n']) == spec_split_lines(c).push(line),
    decreases c.len(),
{
    let s = c + line + seq!['\n'];
    if c.len() == 0 {
        assert(s =~= line + seq!['\n']);
        assert(is_nl_at(s, line.len() as int));
        assert forall|j: int| 0 <= j < line.len() implies !is_nl_at(s, j) by {
            assert(s[j] == line[j]);
        }
        lemma_find_nl_at(s, line.len() as int);
        assert(s.take(line.len() as int) =~= line);
        assert(s.skip(line.len() as int + 1) =~= Seq::<char>::empty());
        assert(spec_split_lines(Seq::<char>::empty()) =~= Seq::<Seq<char>>::empty());
        assert(spec_split_lines(c) =~= Seq::<Seq<char>>::empty());
        assert(spec_split_lines(s) =~= spec_split_lines(c).push(line));
    } else {
        lemma_find_nl_props(c);
        assert(is_nl_at(c, c.len() - 1));
        match spec_find_nl(c) {
            None => {
                assert(!is_nl_at(c, c.len() - 1));
            },
            Some(i) => {
                assert(is_nl_at(c, i));
                assert forall|j: int| 0 <= j < i implies !is_nl_at(s, j) by {
                    assert(s[j] == c[j]);
                    assert(!is_nl_at(c, j));
                }
                assert(s[i] == c[i]);
                assert(is_nl_at(s, i));
                lemma_find_nl_at(s, i);
                assert(s.take(i) =~= c.take(i));
                assert(s.skip(i + 1) =~= c.skip(i + 1) + line + seq!['\n']);
                assert(terminated(c.skip(i + 1)));
                lemma_split_append(c.skip(i + 1), line);
                assert(spec_split_lines(s) =~= spec_split_lines(c).push(line));
            },
        }
    }
}

/// Appending an encoded entry to a well-parsed, terminated log extends
/// its parse by exactly that entry.
pub proof fn lemma_parse_log_append(c: Seq<char>, es: Seq<(Seq<char>, u64)>, label: Seq<char>, ts: u64)
    requires
        spec_parse_log(c) == Some(es),
        terminated(c),
        label_wf(label),
    ensures
        spec_parse_log(c + encode_entry_s(label, ts)) == Some(es.push((label, ts))),
        terminated(c + encode_entry_s(label, ts)),
{
    let line = line_s(label, ts);
    let s = c + encode_entry_s(label, ts);
    lemma_line_no_nl(label, ts);
    assert(s =~= c + line + seq!['\n']);
    lemma_split_append(c, line);
    lemma_parse_line_roundtrip(label, ts);
    let lines0 = spec_split_lines(c);
    let lines1 = spec_split_lines(s);
    assert(lines1 =~= lines0.push(line));
    assert forall|i: int| 0 <= i < lines1.len() implies (#[trigger] spec_parse_line(
        lines1[i],
    )) is Some by {
        if i < lines0.len() {
            assert(spec_parse_line(lines0[i]) is Some);
        } else {
            assert(lines1[i] == line);
        }
    }
    let parsed = Seq::new(lines1.len(), |i: int| spec_parse_line(lines1[i]).unwrap());
    assert forall|i: int| 0 <= i < parsed.len() implies parsed[i] == es.push((label, ts))[i] by {
        if i < lines0.len() {
            assert(es[i] == spec_parse_line(lines0[i]).unwrap());
        } else {
            assert(lines1[i] == line);
        }
    }
    assert(parsed =~= es.push((label, ts)));
    assert(s.last() == '\n');
}

/// Round trip: a log written entry by entry reads back as exactly those
/// entries, whenever every label is one the format can carry.
pub proof fn lemma_log_roundtrip(es: Seq<(Seq<char>, u64)>)
    requires
        forall|i: int| 0 <= i < es.len() ==> label_wf(#[trigger] es[i].0),
    ensures
        terminated(encode_log_s(es)),
        spec_parse_log(encode_log_s(es)) == Some(es),
    decreases es.len(),
{
    if es.len() == 0 {
        assert(encode_log_s(es) =~= Seq::<char>::empty());
        assert(spec_split_lines(Seq::<char>::empty()) =~= Seq::<Seq<char>>::empty());
        let lines = spec_split_lines(encode_log_s(es));
        assert(Seq::new(lines.len(), |i: int| spec_parse_line(lines[i]).unwrap()) =~= es);
    } else {
        let head = es.drop_last();
        lemma_log_roundtrip(head);
        lemma_parse_log_append(encode_log_s(head), head, es.last().0, es.last().1);
        assert(head.push(es.last()) =~= es);
    }
}

} // verus!
