//! Reading the JSON export back: a mathematical reader for the exact text
//! the export writes, and the law that reading reproduces the headers and
//! the cells of every column whose cells the export keeps verbatim.

use vstd::prelude::*;

use crate::json::{col_json_array, join_comma, json_escape, json_escape_char, json_string, hex_digit, table_json};
use crate::series::ColModel;
use crate::text::{int_value, is_digit, spec_int_str, spec_uint_str};

verus! {

// ---------------------------------------------------------------------------
// Reading the export back: the round-trip law
// ---------------------------------------------------------------------------
/// One scalar as it stands in the exported text.
pub enum JsonCell {
    Null,
    B(bool),
    I(int),
    S(Seq<char>),
}

/// The value of a hexadecimal digit, or 16 for any other character.
pub open spec fn hex_val(c: char) -> int {
    if '0' as u32 <= c as u32 && c as u32 <= '9' as u32 {
        c as u32 - '0' as u32
    } else if 'a' as u32 <= c as u32 && c as u32 <= 'f' as u32 {
        c as u32 - 'a' as u32 + 10
    } else {
        16
    }
}

/// Read a string body from just after its opening quote to its closing
/// quote, undoing the escapes.
pub open spec fn parse_string_body(s: Seq<char>, i: int) -> Option<(Seq<char>, int)>
    decreases s.len() - i when i >= 0
{
    if i < 0 || i >= s.len() {
        None
    } else if s[i] == '"' {
        Some((Seq::empty(), i + 1))
    } else if s[i] == '\\' {
        if i + 1 >= s.len() {
            None
        } else {
            let c2 = s[i + 1];
            if c2 == 'u' {
                if i + 6 > s.len() {
                    None
                } else {
                    let v = hex_val(s[i + 2]) * 4096 + hex_val(s[i + 3]) * 256 + hex_val(
                        s[i + 4],
                    ) * 16 + hex_val(s[i + 5]);
                    if v >= 0xD800 {
                        None
                    } else {
                        match parse_string_body(s, i + 6) {
                            Some((rest, j)) => Some((seq![(v as u32) as char] + rest, j)),
                            None => None,
                        }
                    }
                }
            } else {
                let un: char = if c2 == '"' {
                    '"'
                } else if c2 == '\\' {
                    '\\'
                } else if c2 == 'b' {
                    '\u{8}'
                } else if c2 == 'f' {
                    '\u{c}'
                } else if c2 == 'n' {
                    '\n'
                } else if c2 == 'r' {
                    '\r'
                } else if c2 == 't' {
                    '\t'
                } else {
                    ' '
                };
                if c2 == '"' || c2 == '\\' || c2 == 'b' || c2 == 'f' || c2 == 'n' || c2 == 'r'
                    || c2 == 't' {
                    match parse_string_body(s, i + 2) {
                        Some((rest, j)) => Some((seq![un] + rest, j)),
                        None => None,
                    }
                } else {
                    None
                }
            }
        }
    } else {
        match parse_string_body(s, i + 1) {
            Some((rest, j)) => Some((seq![s[i]] + rest, j)),
            None => None,
        }
    }
}

/// First position at or after `i` that holds no decimal digit.
pub open spec fn scan_digits(s: Seq<char>, i: int) -> int
    decreases s.len() - i when i >= 0
{
    if i < 0 || i >= s.len() {
        s.len() as int
    } else if is_digit(s[i]) {
        scan_digits(s, i + 1)
    } else {
        i
    }
}

/// The exported text matches a literal at a position.
pub open spec fn lit_at(s: Seq<char>, i: int, l: Seq<char>) -> bool {
    0 <= i && i + l.len() <= s.len() && s.subrange(i, i + l.len() as int) == l
}

/// Read one scalar cell: a string, `null`, `true`, `false` or a decimal
/// integer.
pub open spec fn parse_cell_at(s: Seq<char>, i: int) -> Option<(JsonCell, int)> {
    if i < 0 || i >= s.len() {
        None
    } else if s[i] == '"' {
        match parse_string_body(s, i + 1) {
            Some((x, j)) => Some((JsonCell::S(x), j)),
            None => None,
        }
    } else if s[i] == 'n' {
        if lit_at(s, i, "null"@) {
            Some((JsonCell::Null, i + 4))
        } else {
            None
        }
    } else if s[i] == 't' {
        if lit_at(s, i, "true"@) {
            Some((JsonCell::B(true), i + 4))
        } else {
            None
        }
    } else if s[i] == 'f' {
        if lit_at(s, i, "false"@) {
            Some((JsonCell::B(false), i + 5))
        } else {
            None
        }
    } else if s[i] == '-' || is_digit(s[i]) {
        let start = if s[i] == '-' {
            i + 1
        } else {
            i
        };
        let end = scan_digits(s, start);
        if end == start {
            None
        } else {
            let tok = s.subrange(i, end);
            Some((JsonCell::I(int_value(tok)), end))
        }
    } else {
        None
    }
}

/// Read cells separated by commas up to a closing bracket.
pub open spec fn parse_cells(s: Seq<char>, i: int) -> Option<(Seq<JsonCell>, int)>
    decreases s.len() - i when i >= 0
{
    if i < 0 || i >= s.len() {
        None
    } else if s[i] == ']' {
        Some((Seq::empty(), i + 1))
    } else {
        match parse_cell_at(s, i) {
            Some((c, j)) => {
                if j >= s.len() || j <= i {
                    None
                } else if s[j] == ']' {
                    Some((seq![c], j + 1))
                } else if s[j] == ',' {
                    match parse_cells(s, j + 1) {
                        Some((rest, k)) => Some((seq![c] + rest, k)),
                        None => None,
                    }
                } else {
                    None
                }
            },
            None => None,
        }
    }
}

/// Read column arrays separated by commas up to a closing bracket.
pub open spec fn parse_columns(s: Seq<char>, i: int) -> Option<(Seq<Seq<JsonCell>>, int)>
    decreases s.len() - i when i >= 0
{
    if i < 0 || i >= s.len() {
        None
    } else if s[i] == ']' {
        Some((Seq::empty(), i + 1))
    } else if s[i] == '[' {
        match parse_cells(s, i + 1) {
            Some((c, j)) => {
                if j >= s.len() || j <= i {
                    None
                } else if s[j] == ']' {
                    Some((seq![c], j + 1))
                } else if s[j] == ',' {
                    match parse_columns(s, j + 1) {
                        Some((rest, k)) => Some((seq![c] + rest, k)),
                        None => None,
                    }
                } else {
                    None
                }
            },
            None => None,
        }
    } else {
        None
    }
}

/// What a parsed export holds: the header names and the cell grid, one
/// sequence of scalars per column.
pub struct ParsedTable {
    pub headers: Seq<Seq<char>>,
    pub columns: Seq<Seq<JsonCell>>,
}

/// Read a whole exported table.
pub open spec fn parse_table(s: Seq<char>) -> Option<ParsedTable> {
    if !lit_at(s, 0, "{\"columns\":["@) {
        None
    } else {
        match parse_columns(s, "{\"columns\":["@.len() as int) {
            Some((cols, i)) => {
                if !lit_at(s, i - 1, "],\"headers\":["@) {
                    None
                } else {
                    match parse_cells(s, i - 1 + "],\"headers\":["@.len()) {
                        Some((hs, j)) => {
                            if j + 1 == s.len() && j < s.len() && s[j] == '}'
                                && (forall|k: int|
                                    0 <= k < hs.len() ==> #[trigger] hs[k] is S) {
                                Some(
                                    ParsedTable {
                                        headers: Seq::new(hs.len(), |k: int| hs[k]->S_0),
                                        columns: cols,
                                    },
                                )
                            } else {
                                None
                            }
                        },
                        None => None,
                    }
                }
            },
            None => None,
        }
    }
}

/// The scalars one column exports, for the column kinds whose cells the
/// export keeps verbatim: integers, booleans and text, absent slots as
/// `null`. Float cells leave this law's scope: their tokens are normalised
/// on export.
pub open spec fn col_cells_model(m: ColModel) -> Seq<JsonCell>
    recommends
        !(m is Floats),
{
    match m {
        ColModel::Ints(s) => Seq::new(
            s.len(),
            |i: int|
                match s[i] {
                    Some(v) => JsonCell::I(v as int),
                    None => JsonCell::Null,
                },
        ),
        ColModel::Bools(s) => Seq::new(
            s.len(),
            |i: int|
                match s[i] {
                    Some(b) => JsonCell::B(b),
                    None => JsonCell::Null,
                },
        ),
        ColModel::Strs(s) => Seq::new(
            s.len(),
            |i: int|
                match s[i] {
                    Some(t) => JsonCell::S(t),
                    None => JsonCell::Null,
                },
        ),
        ColModel::Floats(_) => Seq::empty(),
    }
}

proof fn lemma_hex_digit_val(d: int)
    requires
        0 <= d < 16,
    ensures
        hex_val(hex_digit(d)) == d,
{
    if d < 10 {
        assert(hex_digit(d) as u32 == '0' as u32 + d);
    } else {
        assert(hex_digit(d) as u32 == 'a' as u32 + (d - 10));
    }
}


proof fn lemma_subrange_shift(s: Seq<char>, i: int, a: Seq<char>, b: Seq<char>)
    requires
        0 <= i <= s.len(),
        s.subrange(i, s.len() as int) == a + b,
    ensures
        i + a.len() + b.len() == s.len(),
        s.subrange(i + a.len() as int, s.len() as int) == b,
        s.subrange(i, i + a.len() as int) == a,
        forall|k: int| 0 <= k < a.len() ==> #[trigger] s[i + k] == a[k],
{
    let rest = s.subrange(i, s.len() as int);
    assert(rest.len() == a.len() + b.len());
    assert forall|k: int| 0 <= k < a.len() implies #[trigger] s[i + k] == a[k] by {
        assert(rest[k] == s[i + k]);
        assert(rest[k] == (a + b)[k]);
    }
    assert forall|k: int|
        0 <= k < b.len() implies s.subrange(i + a.len() as int, s.len() as int)[k] == b[k] by {
        assert(s.subrange(i + a.len() as int, s.len() as int)[k] == s[i + a.len() + k]);
        assert(rest[a.len() + k] == s[i + a.len() + k]);
        assert(rest[a.len() + k] == (a + b)[a.len() + k]);
    }
    assert(s.subrange(i + a.len() as int, s.len() as int) =~= b);
    assert forall|k: int| 0 <= k < a.len() implies s.subrange(i, i + a.len() as int)[k] == a[k] by {
        assert(s.subrange(i, i + a.len() as int)[k] == s[i + k]);
    }
    assert(s.subrange(i, i + a.len() as int) =~= a);
}

proof fn lemma_escape_unfold_left(x: Seq<char>)
    requires
        x.len() > 0,
    ensures
        json_escape(x) == json_escape_char(x[0]) + json_escape(x.drop_first()),
    decreases x.len(),
{
    if x.len() == 1 {
        assert(x.drop_last() =~= Seq::<char>::empty());
        assert(x.drop_first() =~= Seq::<char>::empty());
        assert(x.last() == x[0]);
        assert(json_escape(x) =~= json_escape_char(x[0]) + json_escape(x.drop_first()));
    } else {
        let dl = x.drop_last();
        lemma_escape_unfold_left(dl);
        assert(x.drop_first().drop_last() =~= dl.drop_first());
        assert(dl[0] == x[0]);
        assert(x.drop_first().last() == x.last());
        assert(json_escape(x) =~= json_escape_char(x[0]) + json_escape(x.drop_first()));
    }
}

proof fn lemma_parse_string_escape(x: Seq<char>, s: Seq<char>, i: int, t: Seq<char>)
    requires
        0 <= i <= s.len(),
        s.subrange(i, s.len() as int) == json_escape(x) + seq!['"'] + t,
    ensures
        parse_string_body(s, i) == Some((x, i + json_escape(x).len() + 1)),
    decreases x.len(),
{
    assert('"' as u32 == 34 && '\\' as u32 == 92);
    if x.len() == 0 {
        assert(json_escape(x).len() == 0);
        assert(s.subrange(i, s.len() as int) =~= seq!['"'] + t);
        lemma_subrange_shift(s, i, seq!['"'], t);
        assert(s[i + 0] == '"');
        assert(x =~= Seq::<char>::empty());
    } else {
        lemma_escape_unfold_left(x);
        let c = x[0];
        let piece = json_escape_char(c);
        let x2 = x.drop_first();
        let after = json_escape(x2) + seq!['"'] + t;
        assert(s.subrange(i, s.len() as int) =~= piece + after);
        lemma_subrange_shift(s, i, piece, after);
        if c == '"' || c == '\\' || c == '\u{8}' || c == '\u{c}' || c == '\n' || c == '\r' || c
            == '\t' {
            assert('\u{8}' as u32 == 8 && '\u{c}' as u32 == 12 && '\n' as u32 == 10 && '\r' as u32
                == 13 && '\t' as u32 == 9);
            assert(piece.len() == 2);
            assert(s[i + 0] == piece[0] && s[i + 1] == piece[1]);
            assert(s[i + 0] == '\\');
            lemma_parse_string_escape(x2, s, i + 2, t);
            assert(seq![c] + x2 =~= x);
        } else if (c as u32) < 32 {
            assert(piece.len() == 6);
            assert(s[i + 0] == '\\' && s[i + 1] == 'u' && s[i + 2] == '0' && s[i + 3] == '0');
            let u = c as u32 as int;
            lemma_hex_digit_val(u / 16);
            lemma_hex_digit_val(u % 16);
            assert(s[i + 4] == hex_digit(u / 16) && s[i + 5] == hex_digit(u % 16));
            assert(hex_val('0') == 0);
            let v = hex_val(s[i + 2]) * 4096 + hex_val(s[i + 3]) * 256 + hex_val(s[i + 4]) * 16
                + hex_val(s[i + 5]);
            assert(v == (u / 16) * 16 + u % 16);
            assert(v == u);
            assert(v < 0xD800);
            assert(c as u32 == v as u32);
            vstd::utf8::char_u32_cast(c, c as u32);
            assert((v as u32) as char == c);
            lemma_parse_string_escape(x2, s, i + 6, t);
            assert(seq![c] + x2 =~= x);
        } else {
            assert(piece.len() == 1);
            assert(s[i + 0] == c);
            assert(s[i + 0] != '"' && s[i + 0] != '\\');
            lemma_parse_string_escape(x2, s, i + 1, t);
            assert(seq![c] + x2 =~= x);
        }
    }
}

proof fn lemma_scan_digits(s: Seq<char>, i: int, k: int)
    requires
        0 <= i <= k <= s.len(),
        forall|j: int| i <= j < k ==> is_digit(#[trigger] s[j]),
        k == s.len() || !is_digit(s[k]),
    ensures
        scan_digits(s, i) == k,
    decreases k - i,
{
    if i < k {
        lemma_scan_digits(s, i + 1, k);
    }
}

/// What one exported scalar writes.
pub open spec fn cell_writes(c: JsonCell, text: Seq<char>) -> bool {
    match c {
        JsonCell::Null => text == "null"@,
        JsonCell::B(b) => text == if b {
            "true"@
        } else {
            "false"@
        },
        JsonCell::I(v) => i64::MIN <= v <= i64::MAX && text == spec_int_str(v),
        JsonCell::S(x) => text == json_string(x),
    }
}

proof fn lemma_parse_one_cell(cell: JsonCell, text: Seq<char>, s: Seq<char>, i: int, t: Seq<char>)
    requires
        0 <= i <= s.len(),
        cell_writes(cell, text),
        s.subrange(i, s.len() as int) == text + t,
        t.len() > 0,
        t[0] == ',' || t[0] == ']',
    ensures
        text.len() >= 1,
        parse_cell_at(s, i) == Some((cell, i + text.len())),
{
    reveal_strlit("null");
    reveal_strlit("true");
    reveal_strlit("false");
    assert('"' as u32 == 34 && 'n' as u32 == 110 && 't' as u32 == 116 && 'f' as u32 == 102 && '-'
        as u32 == 45 && ',' as u32 == 44 && ']' as u32 == 93 && 'u' as u32 == 117 && 'l' as u32
        == 108 && 'r' as u32 == 114 && 'e' as u32 == 101 && 'a' as u32 == 97 && 's' as u32 == 115);
    lemma_subrange_shift(s, i, text, t);
    assert(s.subrange(i + text.len() as int, s.len() as int)[0] == t[0]);
    assert(s[i + text.len()] == t[0]);
    match cell {
        JsonCell::Null => {
            assert(s[i + 0] == 'n');
            assert(lit_at(s, i, "null"@));
        },
        JsonCell::B(b) => {
            if b {
                assert(s[i + 0] == 't');
                assert(lit_at(s, i, "true"@));
            } else {
                assert(s[i + 0] == 'f');
                assert(lit_at(s, i, "false"@));
            }
        },
        JsonCell::I(v) => {
            crate::text::lemma_int_str_round_trip(v);
            if v < 0 {
                crate::text::lemma_uint_str_digits((-v) as nat);
                let digits = spec_uint_str((-v) as nat);
                assert(text =~= seq!['-'] + digits);
                assert(s[i + 0] == '-');
                assert forall|j: int| i + 1 <= j < i + text.len() implies is_digit(
                    #[trigger] s[j],
                ) by {
                    assert(s[i + (j - i)] == text[j - i]);
                    assert(text[j - i] == digits[j - i - 1]);
                }
                assert(!is_digit(t[0]));
                lemma_scan_digits(s, i + 1, i + text.len());
                assert(int_value(text) == v);
            } else {
                crate::text::lemma_uint_str_digits(v as nat);
                assert(text =~= spec_uint_str(v as nat));
                assert(s[i + 0] == text[0]);
                assert(is_digit(s[i]));
                assert(s[i] != '"' && s[i] != 'n' && s[i] != 't' && s[i] != 'f' && s[i] != '-');
                assert forall|j: int| i <= j < i + text.len() implies is_digit(
                    #[trigger] s[j],
                ) by {
                    assert(s[i + (j - i)] == text[j - i]);
                }
                assert(!is_digit(t[0]));
                lemma_scan_digits(s, i, i + text.len());
                assert(int_value(text) == v);
            }
        },
        JsonCell::S(x) => {
            assert(text =~= seq!['"'] + (json_escape(x) + seq!['"']));
            assert(s[i + 0] == '"');
            assert(s.subrange(i, s.len() as int) =~= seq!['"'] + (json_escape(x) + seq!['"']
                + t));
            lemma_subrange_shift(s, i, seq!['"'], json_escape(x) + seq!['"'] + t);
            lemma_parse_string_escape(x, s, i + 1, t);
            assert(text.len() == json_escape(x).len() + 2);
        },
    }
}

proof fn lemma_join_unfold_left(ps: Seq<Seq<char>>)
    requires
        ps.len() >= 2,
    ensures
        join_comma(ps) == ps[0] + seq![','] + join_comma(ps.drop_first()),
    decreases ps.len(),
{
    if ps.len() == 2 {
        assert(ps.drop_last() =~= seq![ps[0]]);
        assert(ps.drop_first() =~= seq![ps[1]]);
        assert(join_comma(seq![ps[0]]) == ps[0]);
        assert(join_comma(seq![ps[1]]) == ps[1]);
        assert(join_comma(ps) =~= ps[0] + seq![','] + join_comma(ps.drop_first()));
    } else {
        let dl = ps.drop_last();
        lemma_join_unfold_left(dl);
        assert(ps.drop_first().drop_last() =~= dl.drop_first());
        assert(dl[0] == ps[0]);
        assert(ps.drop_first().last() == ps.last());
        assert(ps.drop_first().len() >= 2);
        assert(join_comma(ps.drop_first()) == join_comma(ps.drop_first().drop_last()) + seq![',']
            + ps.drop_first().last());
        assert(join_comma(ps) =~= ps[0] + seq![','] + join_comma(ps.drop_first()));
    }
}

/// A list of written cells, each at least one character, parses back to the
/// cells it was written from.
proof fn lemma_parse_cells_list(
    cells: Seq<JsonCell>,
    texts: Seq<Seq<char>>,
    s: Seq<char>,
    i: int,
    t: Seq<char>,
)
    requires
        0 <= i <= s.len(),
        cells.len() == texts.len(),
        forall|k: int| 0 <= k < cells.len() ==> cell_writes(#[trigger] cells[k], texts[k]),
        s.subrange(i, s.len() as int) == join_comma(texts) + seq![']'] + t,
    ensures
        parse_cells(s, i) == Some((cells, i + join_comma(texts).len() + 1)),
    decreases cells.len(),
{
    assert(']' as u32 == 93 && ',' as u32 == 44 && '"' as u32 == 34 && 'n' as u32 == 110 && 't'
        as u32 == 116 && 'f' as u32 == 102 && '-' as u32 == 45);
    if cells.len() == 0 {
        assert(join_comma(texts).len() == 0);
        assert(s.subrange(i, s.len() as int) =~= seq![']'] + t);
        lemma_subrange_shift(s, i, seq![']'], t);
        assert(s[i + 0] == ']');
        assert(cells =~= Seq::<JsonCell>::empty());
    } else if cells.len() == 1 {
        assert(join_comma(texts) == texts[0]);
        assert(s.subrange(i, s.len() as int) =~= texts[0] + (seq![']'] + t));
        lemma_parse_one_cell(cells[0], texts[0], s, i, seq![']'] + t);
        let j = i + texts[0].len();
        lemma_subrange_shift(s, i, texts[0], seq![']'] + t);
        assert(s.subrange(j, s.len() as int)[0] == ']');
        assert(s[j] == ']');
        assert(s[i + 0] == texts[0][0]);
        assert(s[i] != ']');
        assert(cells =~= seq![cells[0]]);
    } else {
        lemma_join_unfold_left(texts);
        let after = seq![','] + join_comma(texts.drop_first()) + seq![']'] + t;
        assert(s.subrange(i, s.len() as int) =~= texts[0] + after);
        lemma_parse_one_cell(cells[0], texts[0], s, i, after);
        let j = i + texts[0].len();
        lemma_subrange_shift(s, i, texts[0], after);
        assert(s.subrange(j, s.len() as int)[0] == ',');
        assert(s[j] == ',');
        assert(s[i + 0] == texts[0][0]);
        assert(s[i] != ']');
        assert(s.subrange(j, s.len() as int) =~= seq![','] + (join_comma(texts.drop_first())
            + seq![']'] + t));
        lemma_subrange_shift(s, j, seq![','], join_comma(texts.drop_first()) + seq![']'] + t);
        assert forall|k: int|
            0 <= k < cells.drop_first().len() implies cell_writes(
                #[trigger] cells.drop_first()[k],
                texts.drop_first()[k],
            ) by {
            assert(cells.drop_first()[k] == cells[k + 1]);
            assert(texts.drop_first()[k] == texts[k + 1]);
            assert(cell_writes(cells[k + 1], texts[k + 1]));
        }
        lemma_parse_cells_list(cells.drop_first(), texts.drop_first(), s, j + 1, t);
        assert(seq![cells[0]] + cells.drop_first() =~= cells);
        assert(join_comma(texts).len() == texts[0].len() + 1 + join_comma(
            texts.drop_first(),
        ).len());
    }
}


proof fn lemma_col_cell_writes(m: ColModel, k: int)
    requires
        !(m is Floats),
        0 <= k < col_cells_model(m).len(),
    ensures
        col_cells_model(m).len() == crate::json::col_json(m).len(),
        cell_writes(col_cells_model(m)[k], crate::json::col_json(m)[k]),
{
    match m {
        ColModel::Ints(sq) => {
            match sq[k] {
                Some(v) => {
                    assert(cell_writes(JsonCell::I(v as int), spec_int_str(v as int)));
                },
                None => {},
            }
        },
        ColModel::Bools(sq) => {},
        ColModel::Strs(sq) => {},
        ColModel::Floats(_) => {},
    }
}

/// One exported column array parses back to its cells.
proof fn lemma_parse_one_column(m: ColModel, s: Seq<char>, i: int, t: Seq<char>)
    requires
        0 <= i <= s.len(),
        !(m is Floats),
        s.subrange(i, s.len() as int) == col_json_array(m) + t,
    ensures
        col_json_array(m).len() >= 2,
        i + col_json_array(m).len() + t.len() == s.len(),
        s[i] == '[',
        parse_cells(s, i + 1) == Some((col_cells_model(m), i + col_json_array(m).len())),
        s.subrange(i + col_json_array(m).len(), s.len() as int) == t,
    decreases 0int,
{
    let texts = crate::json::col_json(m);
    let cells = col_cells_model(m);
    assert(cells.len() == texts.len()) by {
        match m {
            ColModel::Ints(_) => {},
            ColModel::Bools(_) => {},
            ColModel::Strs(_) => {},
            ColModel::Floats(_) => {},
        }
    }
    assert forall|k: int| 0 <= k < cells.len() implies cell_writes(
        #[trigger] cells[k],
        texts[k],
    ) by {
        lemma_col_cell_writes(m, k);
    }
    assert(s.subrange(i, s.len() as int) =~= seq!['['] + (join_comma(texts) + seq![']'] + t));
    lemma_subrange_shift(s, i, seq!['['], join_comma(texts) + seq![']'] + t);
    assert(s[i + 0] == '[');
    lemma_parse_cells_list(cells, texts, s, i + 1, t);
    assert(s.subrange(i, s.len() as int) =~= col_json_array(m) + t);
    lemma_subrange_shift(s, i, col_json_array(m), t);
}

/// A list of exported column arrays parses back to their cell grids.
proof fn lemma_parse_columns_list(ms: Seq<ColModel>, s: Seq<char>, i: int, t: Seq<char>)
    requires
        0 <= i <= s.len(),
        forall|j: int| 0 <= j < ms.len() ==> !((#[trigger] ms[j]) is Floats),
        s.subrange(i, s.len() as int) == join_comma(
            Seq::new(ms.len(), |j: int| col_json_array(ms[j])),
        ) + seq![']'] + t,
    ensures
        parse_columns(s, i) == Some(
            (
                Seq::new(ms.len(), |j: int| col_cells_model(ms[j])),
                i + join_comma(Seq::new(ms.len(), |j: int| col_json_array(ms[j]))).len() + 1,
            ),
        ),
    decreases ms.len(),
{
    let arrays = Seq::new(ms.len(), |j: int| col_json_array(ms[j]));
    let grids = Seq::new(ms.len(), |j: int| col_cells_model(ms[j]));
    assert(']' as u32 == 93 && ',' as u32 == 44 && '[' as u32 == 91);
    if ms.len() == 0 {
        assert(join_comma(arrays).len() == 0);
        assert(s.subrange(i, s.len() as int) =~= seq![']'] + t);
        lemma_subrange_shift(s, i, seq![']'], t);
        assert(s[i + 0] == ']');
        assert(grids =~= Seq::<Seq<JsonCell>>::empty());
    } else if ms.len() == 1 {
        assert(join_comma(arrays) == arrays[0]);
        assert(s.subrange(i, s.len() as int) =~= col_json_array(ms[0]) + (seq![']'] + t));
        lemma_parse_one_column(ms[0], s, i, seq![']'] + t);
        let j = i + col_json_array(ms[0]).len();
        assert(s.subrange(j, s.len() as int)[0] == ']');
        assert(s[j] == ']');
        assert(grids =~= seq![col_cells_model(ms[0])]);
    } else {
        lemma_join_unfold_left(arrays);
        let after = seq![','] + join_comma(arrays.drop_first()) + seq![']'] + t;
        assert(s.subrange(i, s.len() as int) =~= col_json_array(ms[0]) + after);
        lemma_parse_one_column(ms[0], s, i, after);
        let j = i + col_json_array(ms[0]).len();
        assert(s.subrange(j, s.len() as int)[0] == ',');
        assert(s[j] == ',');
        assert(s.subrange(j, s.len() as int) =~= seq![','] + (join_comma(arrays.drop_first())
            + seq![']'] + t));
        lemma_subrange_shift(s, j, seq![','], join_comma(arrays.drop_first()) + seq![']'] + t);
        assert(arrays.drop_first() =~= Seq::new(
            ms.drop_first().len(),
            |k: int| col_json_array(ms.drop_first()[k]),
        ));
        assert(forall|k: int|
            0 <= k < ms.drop_first().len() ==> !((#[trigger] ms.drop_first()[k]) is Floats));
        lemma_parse_columns_list(ms.drop_first(), s, j + 1, t);
        assert(Seq::new(
            ms.drop_first().len(),
            |k: int| col_cells_model(ms.drop_first()[k]),
        ) =~= grids.drop_first());
        assert(seq![grids[0]] + grids.drop_first() =~= grids);
        assert(join_comma(arrays).len() == arrays[0].len() + 1 + join_comma(
            arrays.drop_first(),
        ).len());
    }
}

/// Law: exporting a table and reading the text back reproduces the header
/// names and every column's cells exactly, absent slots as JSON `null`.
/// Float columns stand outside: their cells keep source tokens whose
/// writing the export normalises, so the law speaks of the column kinds
/// whose cells the export writes verbatim.
pub proof fn lemma_to_json_round_trip(m: crate::frame::DataFrameModel)
    requires
        m.headers is Some,
        forall|j: int| 0 <= j < m.columns.len() ==> !((#[trigger] m.columns[j]) is Floats),
    ensures
        parse_table(table_json(m)) matches Some(p) && p.headers == m.headers->0
            && p.columns.len() == m.columns.len() && (forall|j: int|
            0 <= j < m.columns.len() ==> #[trigger] p.columns[j] == col_cells_model(
                m.columns[j],
            )),
{
    let s = table_json(m);
    let pre = "{\"columns\":["@;
    let mid = "],\"headers\":["@;
    let hs = m.headers->0;
    let arrays = Seq::new(m.columns.len(), |j: int| col_json_array(m.columns[j]));
    let hjs = Seq::new(hs.len(), |k: int| json_string(hs[k]));
    let hcells = Seq::new(hs.len(), |k: int| JsonCell::S(hs[k]));
    reveal_strlit("{\"columns\":[");
    reveal_strlit("],\"headers\":[");
    reveal_strlit("]}");
    reveal_strlit(",\"headers\":[");
    assert(pre.len() == 12 && mid.len() == 13 && "]}"@.len() == 2);
    assert(s =~= pre + (join_comma(arrays) + (mid + (join_comma(hjs) + "]}"@))));
    assert(s.subrange(0, s.len() as int) =~= s);
    lemma_subrange_shift(s, 0, pre, join_comma(arrays) + (mid + (join_comma(hjs) + "]}"@)));
    assert(lit_at(s, 0, pre));
    assert(mid =~= seq![']'] + ",\"headers\":["@);
    assert("]}"@ =~= seq![']'] + seq!['}']);
    let t1 = ",\"headers\":["@ + (join_comma(hjs) + "]}"@);
    assert(s.subrange(12, s.len() as int) =~= join_comma(arrays) + seq![']'] + t1);
    lemma_parse_columns_list(m.columns, s, 12, t1);
    let i1: int = 12 + join_comma(arrays).len() as int + 1;
    assert(s.subrange(12, s.len() as int) =~= (join_comma(arrays) + seq![']']) + t1);
    lemma_subrange_shift(s, 12, join_comma(arrays) + seq![']'], t1);
    assert(s.subrange(i1, s.len() as int) == t1);
    assert(s.subrange(i1 - 1, s.len() as int) =~= mid + (join_comma(hjs) + "]}"@)) by {
        assert(s.subrange(12, s.len() as int) =~= join_comma(arrays) + (mid + (join_comma(hjs)
            + "]}"@)));
        lemma_subrange_shift(s, 12, join_comma(arrays), mid + (join_comma(hjs) + "]}"@));
    }
    lemma_subrange_shift(s, i1 - 1, mid, join_comma(hjs) + "]}"@);
    assert(lit_at(s, i1 - 1, mid));
    let i2: int = i1 - 1 + 13;
    assert(s.subrange(i2, s.len() as int) =~= join_comma(hjs) + seq![']'] + seq!['}']);
    assert forall|k: int| 0 <= k < hcells.len() implies cell_writes(
        #[trigger] hcells[k],
        hjs[k],
    ) by {
        assert(hcells[k] == JsonCell::S(hs[k]));
        assert(hjs[k] == json_string(hs[k]));
    }
    lemma_parse_cells_list(hcells, hjs, s, i2, seq!['}']);
    let j: int = i2 + join_comma(hjs).len() as int + 1;
    assert(s.subrange(i2, s.len() as int) =~= (join_comma(hjs) + seq![']']) + seq!['}']);
    lemma_subrange_shift(s, i2, join_comma(hjs) + seq![']'], seq!['}']);
    assert(s.subrange(j, s.len() as int) == seq!['}']);
    assert(s.subrange(j, s.len() as int)[0] == '}');
    assert(s[j] == '}');
    assert(j + 1 == s.len());
    assert(forall|k: int| 0 <= k < hcells.len() ==> #[trigger] hcells[k] is S);
    assert(Seq::new(hcells.len(), |k: int| hcells[k]->S_0) =~= hs);
}


} // verus!
