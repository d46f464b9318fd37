//! The `times` report table: three left-justified columns, each padded
//! to its widest cell, separated by single spaces, one row per line, and
//! no newline after the last row.

use vstd::prelude::*;
use vstd::string::{StrSliceExecFns, StringExecFns};

verus! {

/// One report row, with the duration columns already rendered as text.
#[derive(Clone, Debug)]
pub struct TableRow {
    pub label: String,
    pub split: String,
    pub lap: String,
}

/// A run of `n` spaces.
pub open spec fn spaces(n: int) -> Seq<char> {
    Seq::new(if n >= 0 { n as nat } else { 0 }, |i: int| ' ')
}

/// `s` padded on the right to width `w`.
pub open spec fn pad_s(s: Seq<char>, w: int) -> Seq<char> {
    if s.len() >= w {
        s
    } else {
        s + spaces(w - s.len())
    }
}

/// The widest label in the rows.
pub open spec fn label_width(rows: Seq<TableRow>) -> int
    decreases rows.len(),
{
    if rows.len() == 0 {
        0
    } else {
        let rest = label_width(rows.drop_last());
        if rows.last().label@.len() > rest {
            rows.last().label@.len() as int
        } else {
            rest
        }
    }
}

/// The widest split column cell in the rows.
pub open spec fn split_width(rows: Seq<TableRow>) -> int
    decreases rows.len(),
{
    if rows.len() == 0 {
        0
    } else {
        let rest = split_width(rows.drop_last());
        if rows.last().split@.len() > rest {
            rows.last().split@.len() as int
        } else {
            rest
        }
    }
}

/// The widest lap column cell in the rows.
pub open spec fn lap_width(rows: Seq<TableRow>) -> int
    decreases rows.len(),
{
    if rows.len() == 0 {
        0
    } else {
        let rest = lap_width(rows.drop_last());
        if rows.last().lap@.len() > rest {
            rows.last().lap@.len() as int
        } else {
            rest
        }
    }
}

/// One row's text: the three cells padded to the given widths, joined by
/// single spaces.
pub open spec fn row_s(row: TableRow, w_label: int, w_split: int, w_lap: int) -> Seq<char> {
    pad_s(row.label@, w_label) + seq![' '] + pad_s(row.split@, w_split) + seq![' '] + pad_s(
        row.lap@,
        w_lap,
    )
}

/// The rows' text joined by newlines, with no trailing newline.
pub open spec fn rows_s(rows: Seq<TableRow>, w_label: int, w_split: int, w_lap: int) -> Seq<char>
    decreases rows.len(),
{
    if rows.len() == 0 {
        Seq::empty()
    } else if rows.len() == 1 {
        row_s(rows[0], w_label, w_split, w_lap)
    } else {
        rows_s(rows.drop_last(), w_label, w_split, w_lap) + seq!['\n'] + row_s(
            rows.last(),
            w_label,
            w_split,
            w_lap,
        )
    }
}

/// The whole table: every column padded to its widest cell.
pub open spec fn format_table_s(rows: Seq<TableRow>) -> Seq<char> {
    rows_s(rows, label_width(rows), split_width(rows), lap_width(rows))
}

/// `s` padded on the right with spaces to at least `w` characters.
fn pad(s: &str, w: usize) -> (r: String)
    ensures
        r@ == pad_s(s@, w as int),
{
    let mut r = s.to_owned();
    let mut len = s.unicode_len();
    proof {
        assert(r@ =~= s@ + spaces(0));
    }
    while len < w
        invariant
            len >= s@.len(),
            len <= w || len == s@.len(),
            r@ == s@ + spaces(len - s@.len()),
            r@.len() == len,
        decreases w - len,
    {
        r.append(" ");
        len = len + 1;
        proof {
            reveal_strlit(" ");
            assert(" "@ =~= seq![' ']);
            assert(r@ =~= s@ + spaces(len - s@.len()));
        }
    }
    proof {
        if s@.len() >= w {
            assert(r@ =~= pad_s(s@, w as int));
        } else {
            assert(r@ =~= pad_s(s@, w as int));
        }
    }
    r
}

/// Renders the whole report table.
pub fn format_table(rows: &Vec<TableRow>) -> (r: String)
    ensures
        r@ == format_table_s(rows@),
{
    let mut w_label: usize = 0;
    let mut w_split: usize = 0;
    let mut w_lap: usize = 0;
    let mut k: usize = 0;
    proof {
        assert(rows@.take(0) =~= Seq::<TableRow>::empty());
    }
    while k < rows.len()
        invariant
            0 <= k <= rows@.len(),
            w_label == label_width(rows@.take(k as int)),
            w_split == split_width(rows@.take(k as int)),
            w_lap == lap_width(rows@.take(k as int)),
        decreases rows@.len() - k,
    {
        proof {
            assert(rows@.take(k + 1).drop_last() =~= rows@.take(k as int));
            assert(rows@.take(k + 1).last() == rows@[k as int]);
        }
        let l1 = rows[k].label.as_str().unicode_len();
        if l1 > w_label {
            w_label = l1;
        }
        let l2 = rows[k].split.as_str().unicode_len();
        if l2 > w_split {
            w_split = l2;
        }
        let l3 = rows[k].lap.as_str().unicode_len();
        if l3 > w_lap {
            w_lap = l3;
        }
        k = k + 1;
    }
    proof {
        assert(rows@.take(rows@.len() as int) =~= rows@);
    }
    let mut out = String::new();
    let mut i: usize = 0;
    proof {
        assert(out@ =~= rows_s(rows@.take(0), w_label as int, w_split as int, w_lap as int));
    }
    while i < rows.len()
        invariant
            0 <= i <= rows@.len(),
            w_label == label_width(rows@),
            w_split == split_width(rows@),
            w_lap == lap_width(rows@),
            out@ == rows_s(rows@.take(i as int), w_label as int, w_split as int, w_lap as int),
        decreases rows@.len() - i,
    {
        if i > 0 {
            out.append("\n");
        }
        let cell1 = pad(rows[i].label.as_str(), w_label);
        out.append(cell1.as_str());
        out.append(" ");
        let cell2 = pad(rows[i].split.as_str(), w_split);
        out.append(cell2.as_str());
        out.append(" ");
        let cell3 = pad(rows[i].lap.as_str(), w_lap);
        out.append(cell3.as_str());
        proof {
            reveal_strlit("\n");
            reveal_strlit(" ");
            assert("\n"@ =~= seq!['\n']);
            assert(" "@ =~= seq![' ']);
            assert(rows@.take(i + 1).drop_last() =~= rows@.take(i as int));
            assert(rows@.take(i + 1).last() == rows@[i as int]);
            assert(out@ =~= rows_s(
                rows@.take(i + 1),
                w_label as int,
                w_split as int,
                w_lap as int,
            ));
        }
        i = i + 1;
    }
    proof {
        assert(rows@.take(rows@.len() as int) =~= rows@);
    }
    out
}

} // verus!
