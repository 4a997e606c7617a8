//! Fixed-width box rendering of a table: column widths from headers and the
//! shown cells, clamped to a fixed band; long text truncated with an
//! ellipsis; long tables shown head and tail with a gap row.

use vstd::prelude::*;
use vstd::string::*;

use crate::frame::{df_row_count, DataFrame, DataFrameModel};
use crate::scalar::CellValue;
use crate::series::{cell_model, col_model_get, col_model_len, CellModel, ColModel, Column};
use crate::text::{push_char, spec_int_str, spec_uint_str, usize_to_string};

verus! {

/// Narrowest a column is drawn.
pub const WIDTH_FLOOR: usize = 8;

/// Widest a column is drawn.
pub const WIDTH_CAP: usize = 20;

/// Most data rows shown before the head/tail display takes over.
pub const MAX_DISPLAY_ROWS: usize = 10;

pub open spec fn width_floor() -> int {
    WIDTH_FLOOR as int
}

pub open spec fn width_cap() -> int {
    WIDTH_CAP as int
}

pub open spec fn max_display_rows() -> int {
    MAX_DISPLAY_ROWS as int
}

/// What a table slot shows: the typed cell's text, `null` for an absent
/// slot.
pub open spec fn cell_model_display(c: CellModel) -> Seq<char> {
    match c {
        CellModel::S(t) => t,
        CellModel::F(t) => t,
        CellModel::I(n) => spec_int_str(n as int),
        CellModel::B(b) => if b {
            "true"@
        } else {
            "false"@
        },
        CellModel::D(t) => t,
        CellModel::N => Seq::empty(),
    }
}

pub open spec fn cell_text(col: ColModel, row: int) -> Seq<char> {
    match col_model_get(col, row) {
        Some(c) => cell_model_display(c),
        None => "null"@,
    }
}

/// The widest present cell among the first `upto` rows.
pub open spec fn max_cell_width(col: ColModel, upto: int) -> int
    decreases upto,
{
    if upto <= 0 {
        0
    } else {
        let prev = max_cell_width(col, upto - 1);
        let here: int = match col_model_get(col, upto - 1) {
            Some(c) => cell_model_display(c).len() as int,
            None => 0,
        };
        if here > prev {
            here
        } else {
            prev
        }
    }
}

/// The width a column is drawn at: the header and the shown cells decide,
/// clamped into the band.
pub open spec fn col_width(m: DataFrameModel, j: int, display_rows: int, truncated: bool) -> int {
    let hs = match m.headers {
        Some(h) => h,
        None => Seq::empty(),
    };
    let rows = df_row_count(m);
    let shown = max_cell_width(m.columns[j], display_rows);
    let tail: int = if truncated {
        match col_model_get(m.columns[j], rows - 1) {
            Some(c) => cell_model_display(c).len() as int,
            None => 0,
        }
    } else {
        0
    };
    let w0 = if hs[j].len() as int > shown {
        hs[j].len() as int
    } else {
        shown
    };
    let w1 = if tail > w0 {
        tail
    } else {
        w0
    };
    if w1 < width_floor() {
        width_floor()
    } else if w1 > width_cap() {
        width_cap()
    } else {
        w1
    }
}

/// All drawn column widths; the header list decides how many columns the
/// box has.
pub open spec fn table_widths(m: DataFrameModel) -> Seq<int> {
    let hs = match m.headers {
        Some(h) => h,
        None => Seq::empty(),
    };
    let rows = df_row_count(m);
    let truncated = rows > max_display_rows();
    let display_rows = if truncated {
        max_display_rows() - 1
    } else {
        rows
    };
    Seq::new(hs.len(), |j: int| col_width(m, j, display_rows, truncated))
}

pub open spec fn repeat_char(c: char, n: int) -> Seq<char>
    decreases n,
{
    if n <= 0 {
        Seq::empty()
    } else {
        repeat_char(c, n - 1).push(c)
    }
}

/// Text cut to a width: over-wide text keeps its head and ends with an
/// ellipsis.
pub open spec fn truncate_text(s: Seq<char>, w: int) -> Seq<char> {
    if s.len() as int > w {
        s.take(w - 1).push('…')
    } else {
        s
    }
}

/// Text centred in a width, the odd space going right.
pub open spec fn center_text(s: Seq<char>, w: int) -> Seq<char> {
    let pad = w - s.len() as int;
    if pad <= 0 {
        s
    } else {
        repeat_char(' ', pad / 2) + s + repeat_char(' ', pad - pad / 2)
    }
}

/// The dashes of a horizontal border, with `mid` between columns.
pub open spec fn border_mid(ws: Seq<int>, upto: int, mid: char) -> Seq<char>
    decreases upto,
{
    if upto <= 0 {
        Seq::empty()
    } else if upto == 1 {
        repeat_char('─', ws[0] + 2)
    } else {
        border_mid(ws, upto - 1, mid) + seq![mid] + repeat_char('─', ws[upto - 1] + 2)
    }
}

pub open spec fn border_line(ws: Seq<int>, l: char, mid: char, r: char) -> Seq<char> {
    seq![l] + border_mid(ws, ws.len() as int, mid) + seq![r, '\n']
}

/// The cells of one drawn line, each truncated and centred between padded
/// bars.
pub open spec fn line_cells(texts: Seq<Seq<char>>, ws: Seq<int>, upto: int) -> Seq<char>
    decreases upto,
{
    if upto <= 0 {
        Seq::empty()
    } else {
        line_cells(texts, ws, upto - 1) + seq![' '] + center_text(
            truncate_text(texts[upto - 1], ws[upto - 1]),
            ws[upto - 1],
        ) + seq![' ', '│']
    }
}

pub open spec fn text_line(texts: Seq<Seq<char>>, ws: Seq<int>) -> Seq<char> {
    seq!['│'] + line_cells(texts, ws, ws.len() as int) + seq!['\n']
}

/// The texts of one data row, one per drawn column.
pub open spec fn row_texts(m: DataFrameModel, count: int, row: int) -> Seq<Seq<char>> {
    Seq::new(count as nat, |j: int| cell_text(m.columns[j], row))
}

/// The shown head rows, top down.
pub open spec fn rows_block(m: DataFrameModel, ws: Seq<int>, upto: int) -> Seq<char>
    decreases upto,
{
    if upto <= 0 {
        Seq::empty()
    } else {
        rows_block(m, ws, upto - 1) + text_line(row_texts(m, ws.len() as int, upto - 1), ws)
    }
}

/// The closing shape note under the box.
pub open spec fn shape_text(rows: int, cols: int) -> Seq<char>
    recommends
        rows >= 0,
        cols >= 0,
{
    spec_uint_str(rows as nat) + " rows × "@ + spec_uint_str(cols as nat) + " columns"@
}

/// The whole rendering: the empty marker without columns, else the box,
/// head rows, for long tables a gap row and the last row, and the shape
/// note.
pub open spec fn render_table(m: DataFrameModel) -> Seq<char> {
    let rows = df_row_count(m);
    let cols = m.columns.len() as int;
    if cols == 0 {
        "0 rows × 0 columns\n(empty)\n"@
    } else {
        let hs = match m.headers {
            Some(h) => h,
            None => Seq::empty(),
        };
        let ws = table_widths(m);
        let truncated = rows > max_display_rows();
        let display_rows = if truncated {
            max_display_rows() - 1
        } else {
            rows
        };
        let gap: Seq<char> = if truncated {
            text_line(Seq::new(ws.len(), |j: int| seq!['⋮']), ws) + text_line(
                row_texts(m, ws.len() as int, rows - 1),
                ws,
            )
        } else {
            Seq::empty()
        };
        border_line(ws, '┌', '┬', '┐') + text_line(hs, ws) + border_line(ws, '├', '┼', '┤')
            + rows_block(m, ws, display_rows) + gap + border_line(ws, '└', '┴', '┘') + shape_text(
            rows,
            cols,
        )
    }
}

// ---------------------------------------------------------------------------
// Executable building blocks
// ---------------------------------------------------------------------------
pub open spec fn widths_of(v: Seq<usize>) -> Seq<int> {
    Seq::new(v.len(), |j: int| v[j] as int)
}

fn push_repeat(out: &mut String, c: char, n: usize)
    ensures
        final(out)@ == old(out)@ + repeat_char(c, n as int),
{
    let mut i: usize = 0;
    while i < n
        invariant
            0 <= i <= n,
            out@ == old(out)@ + repeat_char(c, i as int),
        decreases n - i,
    {
        push_char(out, c);
        i = i + 1;
    }
}

/// The display text of one slot.
fn slot_text(col: &Column, row: usize) -> (r: String)
    ensures
        r@ == cell_text(col@, row as int),
{
    match col.get(row) {
        Some(cv) => {
            let s = cv.display_string();
            proof {
                lemma_cell_display_model(cv);
            }
            s
        },
        None => String::from_str("null"),
    }
}

proof fn lemma_cell_display_model(c: CellValue)
    ensures
        crate::scalar::cell_display(c) == cell_model_display(cell_model(c)),
{
}

/// Append one cell, truncated to and centred in its width.
fn append_centered(out: &mut String, s: &str, w: usize)
    requires
        w >= 1,
    ensures
        final(out)@ == old(out)@ + center_text(truncate_text(s@, w as int), w as int),
{
    let len: usize = s.unicode_len();
    if len > w {
        let cut = s.substring_char(0, w - 1);
        out.append(cut);
        push_char(out, '…');
        proof {
            assert(cut@ =~= s@.take(w - 1));
            assert(truncate_text(s@, w as int) =~= s@.take(w - 1).push('…'));
            assert(truncate_text(s@, w as int).len() == w);
            assert(center_text(truncate_text(s@, w as int), w as int) == truncate_text(
                s@,
                w as int,
            ));
            assert(out@ =~= old(out)@ + center_text(truncate_text(s@, w as int), w as int));
        }
    } else {
        let pad: usize = w - len;
        let left: usize = pad / 2;
        push_repeat(out, ' ', left);
        out.append(s);
        push_repeat(out, ' ', pad - left);
        proof {
            assert(truncate_text(s@, w as int) == s@);
            if pad == 0 {
                assert(center_text(s@, w as int) == s@);
                assert(out@ =~= old(out)@ + s@);
            } else {
                assert(center_text(s@, w as int) == repeat_char(' ', pad as int / 2) + s@
                    + repeat_char(' ', pad as int - pad as int / 2));
                assert(out@ =~= old(out)@ + center_text(s@, w as int));
            }
        }
    }
}

/// Append one horizontal border.
fn append_border(out: &mut String, ws: &Vec<usize>, l: char, mid: char, r: char)
    requires
        forall|j: int| 0 <= j < ws@.len() ==> #[trigger] ws@[j] <= 20,
    ensures
        final(out)@ == old(out)@ + border_line(widths_of(ws@), l, mid, r),
{
    let ghost wsg = widths_of(ws@);
    push_char(out, l);
    let n: usize = ws.len();
    let mut i: usize = 0;
    while i < n
        invariant
            n == ws@.len(),
            wsg == widths_of(ws@),
            forall|j: int| 0 <= j < ws@.len() ==> #[trigger] ws@[j] <= 20,
            0 <= i <= n,
            out@ == old(out)@ + seq![l] + border_mid(wsg, i as int, mid),
        decreases n - i,
    {
        if i > 0 {
            push_char(out, mid);
        }
        let w = ws[i];
        push_repeat(out, '─', w + 2);
        proof {
            assert(wsg[i as int] == ws@[i as int] as int);
            if i == 0 {
                assert(border_mid(wsg, 1, mid) == repeat_char('─', wsg[0] + 2));
                assert(out@ =~= old(out)@ + seq![l] + border_mid(wsg, 1, mid));
            } else {
                assert(out@ =~= old(out)@ + seq![l] + border_mid(wsg, i + 1, mid));
            }
        }
        i = i + 1;
    }
    push_char(out, r);
    push_char(out, '\n');
    proof {
        assert(out@ =~= old(out)@ + border_line(wsg, l, mid, r));
    }
}

pub open spec fn int_max2(a: int, b: int) -> int {
    if a > b {
        a
    } else {
        b
    }
}

proof fn lemma_max_cell_width_nonneg(col: ColModel, upto: int)
    ensures
        max_cell_width(col, upto) >= 0,
    decreases upto,
{
    if upto > 0 {
        lemma_max_cell_width_nonneg(col, upto - 1);
    }
}

impl DataFrame {
    /// The whole table as fixed-width box-drawn text; an empty table
    /// renders the bare shape marker.
    #[verifier::loop_isolation(false)]
    #[verifier::rlimit(100)]
    pub fn display(&self) -> (r: String)
        requires
            crate::frame::df_wf(self@),
        ensures
            r@ == render_table(self@),
    {
        let (rows, cols) = self.shape();
        if cols == 0 {
            return String::from_str("0 rows × 0 columns\n(empty)\n");
        }
        let headers = self.headers();
        let columns = self.columns();
        let ghost hs: Seq<Seq<char>> = match self@.headers {
            Some(h) => h,
            None => Seq::<Seq<char>>::empty(),
        };
        proof {
            assert(headers.deep_view() == hs);
            assert(headers@.len() == hs.len());
        }
        let truncated = rows > MAX_DISPLAY_ROWS;
        let display_rows: usize = if truncated {
            MAX_DISPLAY_ROWS - 1
        } else {
            rows
        };
        let hn: usize = headers.len();
        let mut ws: Vec<usize> = Vec::new();
        let ghost wspec = table_widths(self@);
        let mut j: usize = 0;
        while j < hn
            invariant
                0 <= j <= hn,
                ws@.len() == j,
                forall|k: int| 0 <= k < j ==> #[trigger] ws@[k] as int == wspec[k],
                forall|k: int| 0 <= k < j ==> 8 <= #[trigger] ws@[k] <= 20,
            decreases hn - j,
        {
            proof {
                assert(hs.len() > 0);
                assert(hs.len() == self@.columns.len());
                assert(headers@[j as int]@ == hs[j as int]);
            }
            let col = &columns[j];
            proof {
                assert(col@ == self@.columns[j as int]);
                assert(col_model_len(col@) == df_row_count(self@));
            }
            let mut w: usize = headers[j].unicode_len();
            let mut row: usize = 0;
            while row < display_rows
                invariant
                    0 <= row <= display_rows,
                    w as int == int_max2(hs[j as int].len() as int, max_cell_width(col@, row as int)),
                decreases display_rows - row,
            {
                proof {
                    lemma_max_cell_width_nonneg(col@, row as int);
                }
                match col.get(row) {
                    Some(cv) => {
                        let s = cv.display_string();
                        proof {
                            lemma_cell_display_model(cv);
                        }
                        let l = s.as_str().unicode_len();
                        if l > w {
                            w = l;
                        }
                    },
                    None => {},
                }
                row = row + 1;
            }
            if truncated {
                match col.get(rows - 1) {
                    Some(cv) => {
                        let s = cv.display_string();
                        proof {
                            lemma_cell_display_model(cv);
                        }
                        let l = s.as_str().unicode_len();
                        if l > w {
                            w = l;
                        }
                    },
                    None => {},
                }
            }
            let wc: usize = if w < WIDTH_FLOOR {
                WIDTH_FLOOR
            } else if w > WIDTH_CAP {
                WIDTH_CAP
            } else {
                w
            };
            proof {
                assert(wc as int == col_width(
                    self@,
                    j as int,
                    display_rows as int,
                    truncated,
                ));
                assert(wspec[j as int] == wc as int);
            }
            ws.push(wc);
            j = j + 1;
        }
        proof {
            assert(widths_of(ws@) =~= wspec);
        }
        let mut out = String::new();
        append_border(&mut out, &ws, '┌', '┬', '┐');
        append_text_line(&mut out, &headers, &ws);
        append_border(&mut out, &ws, '├', '┼', '┤');
        let ghost head3 = border_line(wspec, '┌', '┬', '┐') + text_line(hs, wspec) + border_line(
            wspec,
            '├',
            '┼',
            '┤',
        );
        proof {
            assert(out@ =~= head3);
        }
        let wn: usize = ws.len();
        let mut row: usize = 0;
        while row < display_rows
            invariant
                0 <= row <= display_rows,
                out@ == head3 + rows_block(self@, wspec, row as int),
            decreases display_rows - row,
        {
            let mut texts: Vec<String> = Vec::new();
            let mut j2: usize = 0;
            while j2 < wn
                invariant
                    0 <= j2 <= wn,
                    texts.deep_view().len() == j2,
                    forall|k: int|
                        0 <= k < j2 ==> #[trigger] texts.deep_view()[k] == cell_text(
                            self@.columns[k],
                            row as int,
                        ),
                decreases wn - j2,
            {
                let ghost pre = texts.deep_view();
                let t = slot_text(&columns[j2], row);
                texts.push(t);
                proof {
                    assert(texts.deep_view() =~= pre.push(t@));
                }
                j2 = j2 + 1;
            }
            proof {
                assert(texts.deep_view() =~= row_texts(self@, wspec.len() as int, row as int));
            }
            append_text_line(&mut out, &texts, &ws);
            proof {
                assert(out@ =~= head3 + rows_block(self@, wspec, row + 1));
            }
            row = row + 1;
        }
        let ghost with_rows = head3 + rows_block(self@, wspec, display_rows as int);
        if truncated {
            let mut gap: Vec<String> = Vec::new();
            let mut j3: usize = 0;
            while j3 < wn
                invariant
                    0 <= j3 <= wn,
                    gap.deep_view().len() == j3,
                    forall|k: int| 0 <= k < j3 ==> #[trigger] gap.deep_view()[k] == seq!['⋮'],
                decreases wn - j3,
            {
                let ghost pre = gap.deep_view();
                let mut e = String::new();
                push_char(&mut e, '⋮');
                proof {
                    assert(e@ =~= seq!['⋮']);
                }
                gap.push(e);
                proof {
                    assert(gap.deep_view() =~= pre.push(seq!['⋮']));
                }
                j3 = j3 + 1;
            }
            proof {
                assert(gap.deep_view() =~= Seq::new(wspec.len(), |k: int| seq!['⋮']));
            }
            append_text_line(&mut out, &gap, &ws);
            let mut texts: Vec<String> = Vec::new();
            let mut j4: usize = 0;
            while j4 < wn
                invariant
                    0 <= j4 <= wn,
                    texts.deep_view().len() == j4,
                    forall|k: int|
                        0 <= k < j4 ==> #[trigger] texts.deep_view()[k] == cell_text(
                            self@.columns[k],
                            df_row_count(self@) - 1,
                        ),
                decreases wn - j4,
            {
                let ghost pre = texts.deep_view();
                let t = slot_text(&columns[j4], rows - 1);
                texts.push(t);
                proof {
                    assert(texts.deep_view() =~= pre.push(t@));
                }
                j4 = j4 + 1;
            }
            proof {
                assert(texts.deep_view() =~= row_texts(
                    self@,
                    wspec.len() as int,
                    df_row_count(self@) - 1,
                ));
            }
            append_text_line(&mut out, &texts, &ws);
            proof {
                assert(out@ =~= with_rows + (text_line(
                    Seq::new(wspec.len(), |k: int| seq!['⋮']),
                    wspec,
                ) + text_line(row_texts(self@, wspec.len() as int, df_row_count(self@) - 1), wspec)));
            }
        }
        append_border(&mut out, &ws, '└', '┴', '┘');
        let rt = usize_to_string(rows);
        out.append(rt.as_str());
        out.append(" rows × ");
        let ct = usize_to_string(cols);
        out.append(ct.as_str());
        out.append(" columns");
        proof {
            assert(shape_text(rows as int, cols as int) =~= spec_uint_str(rows as nat)
                + " rows × "@ + spec_uint_str(cols as nat) + " columns"@);
            assert(out@ =~= render_table(self@));
        }
        out
    }
}

/// Append one drawn line of cell texts.
fn append_text_line(out: &mut String, texts: &Vec<String>, ws: &Vec<usize>)
    requires
        texts@.len() == ws@.len(),
        forall|j: int| 0 <= j < ws@.len() ==> #[trigger] ws@[j] >= 1,
    ensures
        final(out)@ == old(out)@ + text_line(texts.deep_view(), widths_of(ws@)),
{
    let ghost wsg = widths_of(ws@);
    let ghost ts = texts.deep_view();
    push_char(out, '│');
    let n: usize = ws.len();
    let mut i: usize = 0;
    while i < n
        invariant
            n == ws@.len(),
            n == texts@.len(),
            wsg == widths_of(ws@),
            ts == texts.deep_view(),
            forall|j: int| 0 <= j < ws@.len() ==> #[trigger] ws@[j] >= 1,
            0 <= i <= n,
            out@ == old(out)@ + seq!['│'] + line_cells(ts, wsg, i as int),
        decreases n - i,
    {
        push_char(out, ' ');
        append_centered(out, texts[i].as_str(), ws[i]);
        push_char(out, ' ');
        push_char(out, '│');
        proof {
            assert(ts[i as int] == texts@[i as int]@);
            assert(wsg[i as int] == ws@[i as int] as int);
            assert(out@ =~= old(out)@ + seq!['│'] + line_cells(ts, wsg, i + 1));
        }
        i = i + 1;
    }
    push_char(out, '\n');
    proof {
        assert(out@ =~= old(out)@ + text_line(ts, wsg));
    }
}

} // verus!
