//! JSON export: the exact text the library emits for cells, columns and
//! whole tables. Strings are escaped as the JSON grammar demands; float
//! cells keep their token's digits, lightly normalised into a valid JSON
//! number; NaN and infinities export as `null`, which JSON cannot carry.

use vstd::prelude::*;
use vstd::string::*;

use crate::frame::{DataFrame, DataFrameError, DataFrameModel};
use crate::series::{ColModel, Column};
use crate::text::{
    digit_char, find_from, int_body, int_value, is_digit, is_inf_token, is_nan_token, push_char,
    spec_int_str, spec_uint_str, i64_to_string, lower_seq,
};

verus! {

// ---------------------------------------------------------------------------
// String escaping
// ---------------------------------------------------------------------------
/// A hexadecimal digit, lower case.
pub open spec fn hex_digit(d: int) -> char {
    if d < 10 {
        digit_char(d)
    } else {
        ('a' as u32 + (d - 10)) as char
    }
}

/// What one character contributes to a JSON string literal.
pub open spec fn json_escape_char(c: char) -> Seq<char> {
    if c == '"' {
        seq!['\\', '"']
    } else if c == '\\' {
        seq!['\\', '\\']
    } else if c == '\u{8}' {
        seq!['\\', 'b']
    } else if c == '\u{c}' {
        seq!['\\', 'f']
    } else if c == '\n' {
        seq!['\\', 'n']
    } else if c == '\r' {
        seq!['\\', 'r']
    } else if c == '\t' {
        seq!['\\', 't']
    } else if (c as u32) < 32 {
        seq!['\\', 'u', '0', '0', hex_digit(c as u32 as int / 16), hex_digit(c as u32 as int % 16)]
    } else {
        seq![c]
    }
}

/// A whole string body, escaped.
pub open spec fn json_escape(s: Seq<char>) -> Seq<char>
    decreases s.len(),
{
    if s.len() == 0 {
        Seq::empty()
    } else {
        json_escape(s.drop_last()) + json_escape_char(s.last())
    }
}

/// A JSON string literal: quotes around the escaped body.
pub open spec fn json_string(s: Seq<char>) -> Seq<char> {
    seq!['"'] + json_escape(s) + seq!['"']
}

fn push_escaped(r: &mut String, c: char)
    ensures
        final(r)@ == old(r)@ + json_escape_char(c),
{
    proof {
        assert('"' as u32 == 34 && '\\' as u32 == 92 && '\u{8}' as u32 == 8 && '\u{c}' as u32 == 12
            && '\n' as u32 == 10 && '\r' as u32 == 13 && '\t' as u32 == 9);
    }
    let u: u32 = c as u32;
    if c == '"' {
        push_char(r, '\\');
        push_char(r, '"');
        proof {
            assert(r@ =~= old(r)@ + json_escape_char(c));
        }
    } else if c == '\\' {
        push_char(r, '\\');
        push_char(r, '\\');
        proof {
            assert(r@ =~= old(r)@ + json_escape_char(c));
        }
    } else if u == 8 {
        push_char(r, '\\');
        push_char(r, 'b');
        proof {
            assert(r@ =~= old(r)@ + json_escape_char(c));
        }
    } else if u == 12 {
        push_char(r, '\\');
        push_char(r, 'f');
        proof {
            assert(r@ =~= old(r)@ + json_escape_char(c));
        }
    } else if u == 10 {
        push_char(r, '\\');
        push_char(r, 'n');
        proof {
            assert(r@ =~= old(r)@ + json_escape_char(c));
        }
    } else if u == 13 {
        push_char(r, '\\');
        push_char(r, 'r');
        proof {
            assert(r@ =~= old(r)@ + json_escape_char(c));
        }
    } else if u == 9 {
        push_char(r, '\\');
        push_char(r, 't');
        proof {
            assert(r@ =~= old(r)@ + json_escape_char(c));
        }
    } else if u < 32 {
        push_char(r, '\\');
        push_char(r, 'u');
        push_char(r, '0');
        push_char(r, '0');
        let hi: u32 = u / 16;
        let lo: u32 = u % 16;
        let hc: char = if hi < 10 {
            ((48 + hi) as u8) as char
        } else {
            ((87 + hi) as u8) as char
        };
        let lc: char = if lo < 10 {
            ((48 + lo) as u8) as char
        } else {
            ((87 + lo) as u8) as char
        };
        push_char(r, hc);
        push_char(r, lc);
        proof {
            assert(hc == hex_digit(u as int / 16));
            assert(lc == hex_digit((u % 16) as int));
            assert(r@ =~= old(r)@ + json_escape_char(c));
        }
    } else {
        push_char(r, c);
        proof {
            assert(r@ =~= old(r)@ + json_escape_char(c));
        }
    }
}

/// Append a JSON string literal for `s`.
fn append_json_string(r: &mut String, s: &str)
    ensures
        final(r)@ == old(r)@ + json_string(s@),
{
    let n: usize = s.unicode_len();
    push_char(r, '"');
    let mut i: usize = 0;
    while i < n
        invariant
            n == s@.len(),
            0 <= i <= n,
            r@ == old(r)@ + seq!['"'] + json_escape(s@.take(i as int)),
        decreases n - i,
    {
        let c = s.get_char(i);
        proof {
            assert(s@.take(i + 1).drop_last() =~= s@.take(i as int));
            assert(s@.take(i + 1).last() == s@[i as int]);
        }
        push_escaped(r, c);
        i = i + 1;
    }
    push_char(r, '"');
    proof {
        assert(s@.take(n as int) =~= s@);
        assert(old(r)@ + json_string(s@) =~= (old(r)@ + seq!['"'] + json_escape(s@)).push('"'));
    }
}

// ---------------------------------------------------------------------------
// Number normalisation
// ---------------------------------------------------------------------------
/// Leading zeros of an integer part removed, one digit kept at least.
pub open spec fn strip_lead_zeros(s: Seq<char>) -> Seq<char>
    decreases s.len(),
{
    if s.len() >= 2 && s[0] == '0' {
        strip_lead_zeros(s.drop_first())
    } else {
        s
    }
}

/// The sign a JSON number keeps: only a leading minus.
pub open spec fn num_sign(t: Seq<char>) -> Seq<char> {
    if t.len() > 0 && t[0] == '-' {
        seq!['-']
    } else {
        Seq::empty()
    }
}

/// The mantissa of the token: its body before any exponent marker.
pub open spec fn num_mant(t: Seq<char>) -> Seq<char> {
    int_body(t).take(find_from(int_body(t), 0, 'e', 'E'))
}

/// The exponent of the token, marker included, kept as written.
pub open spec fn num_exp(t: Seq<char>) -> Seq<char> {
    let b = int_body(t);
    let k = find_from(b, 0, 'e', 'E');
    if k < b.len() {
        b.skip(k)
    } else {
        Seq::empty()
    }
}

/// The integer digits the JSON number writes: redundant leading zeros
/// dropped, a lone `0` where the token wrote none.
pub open spec fn num_ipn(t: Seq<char>) -> Seq<char> {
    let mant = num_mant(t);
    let ip = mant.take(find_from(mant, 0, '.', '.'));
    if ip.len() == 0 {
        seq!['0']
    } else {
        strip_lead_zeros(ip)
    }
}

/// The fraction the JSON number writes: none without a point, `.0` for a
/// bare trailing point.
pub open spec fn num_frac(t: Seq<char>) -> Seq<char> {
    let mant = num_mant(t);
    let d = find_from(mant, 0, '.', '.');
    if d == mant.len() {
        Seq::empty()
    } else {
        let fp = mant.skip(d + 1);
        if fp.len() == 0 {
            seq!['.', '0']
        } else {
            seq!['.'] + fp
        }
    }
}

/// A float token's digits as a valid JSON number: the value is untouched,
/// only the writing is repaired (no leading `+`, no empty digit runs, no
/// redundant leading zeros).
pub open spec fn norm_number(t: Seq<char>) -> Seq<char> {
    num_sign(t) + num_ipn(t) + num_frac(t) + num_exp(t)
}

/// What a float cell exports: NaN and the infinities have no JSON writing
/// and become `null`; every other token becomes a valid JSON number of the
/// same value.
pub open spec fn json_of_float_token(t: Seq<char>) -> Seq<char> {
    if is_nan_token(t) || is_inf_token(t) {
        "null"@
    } else {
        norm_number(t)
    }
}

fn strip_zeros_range(s: &str, from: usize, to: usize) -> (r: usize)
    requires
        from <= to <= s@.len(),
    ensures
        from <= r <= to,
        s@.subrange(r as int, to as int) == strip_lead_zeros(s@.subrange(from as int, to as int)),
    decreases to - from,
{
    if to - from >= 2 {
        let c = s.get_char(from);
        if c == '0' {
            proof {
                assert(s@.subrange(from as int, to as int).drop_first() =~= s@.subrange(
                    from + 1,
                    to as int,
                ));
            }
            return strip_zeros_range(s, from + 1, to);
        }
    }
    from
}

/// Append the JSON number for a float token.
#[verifier::rlimit(100)]
fn append_norm_number(r: &mut String, t: &str)
    ensures
        final(r)@ == old(r)@ + norm_number(t@),
{
    let ghost t0 = t@;
    let n: usize = t.unicode_len();
    let start: usize = if n > 0 && (t.get_char(0) == '-' || t.get_char(0) == '+') {
        1
    } else {
        0
    };
    if n > 0 && t.get_char(0) == '-' {
        push_char(r, '-');
    }
    proof {
        assert(int_body(t0) =~= t0.subrange(start as int, n as int));
        assert(r@ =~= old(r)@ + num_sign(t0));
    }
    let body = t.substring_char(start, n);
    let m: usize = body.unicode_len();
    let k = crate::text::find_exp_marker(body);
    let ghost mant = body@.take(k as int);
    proof {
        assert(num_mant(t0) == mant);
    }
    let d = crate::text::find_dot(body, k);
    proof {
        assert(mant.take(d as int) =~= body@.subrange(0, d as int));
    }
    // integer part
    if d == 0 {
        push_char(r, '0');
        proof {
            assert(mant.take(0).len() == 0);
            assert(num_ipn(t0) == seq!['0']);
            assert(r@ =~= old(r)@ + num_sign(t0) + num_ipn(t0));
        }
    } else {
        let z = strip_zeros_range(body, 0, d);
        let ip = body.substring_char(z, d);
        r.append(ip);
        proof {
            assert(mant.take(d as int).len() != 0);
            assert(num_ipn(t0) == strip_lead_zeros(mant.take(d as int)));
            assert(r@ =~= old(r)@ + num_sign(t0) + num_ipn(t0));
        }
    }
    // fraction
    if d < k {
        proof {
            assert(mant.skip(d + 1) =~= body@.subrange(d + 1, k as int));
        }
        if k - d == 1 {
            push_char(r, '.');
            push_char(r, '0');
            proof {
                assert(mant.skip(d + 1).len() == 0);
                assert(num_frac(t0) == seq!['.', '0']);
                assert(r@ =~= old(r)@ + num_sign(t0) + num_ipn(t0) + num_frac(t0));
            }
        } else {
            push_char(r, '.');
            let fp = body.substring_char(d + 1, k);
            r.append(fp);
            proof {
                assert(num_frac(t0) == seq!['.'] + mant.skip(d + 1));
                assert(r@ =~= old(r)@ + num_sign(t0) + num_ipn(t0) + num_frac(t0));
            }
        }
    } else {
        proof {
            assert(d == mant.len());
            assert(num_frac(t0) == Seq::<char>::empty());
            assert(r@ =~= old(r)@ + num_sign(t0) + num_ipn(t0) + num_frac(t0));
        }
    }
    // exponent, kept as written
    if k < m {
        let ex = body.substring_char(k, m);
        r.append(ex);
        proof {
            assert(ex@ =~= body@.skip(k as int));
            assert(num_exp(t0) == body@.skip(k as int));
            assert(r@ =~= old(r)@ + num_sign(t0) + num_ipn(t0) + num_frac(t0) + num_exp(t0));
        }
    } else {
        proof {
            assert(num_exp(t0) == Seq::<char>::empty());
            assert(r@ =~= old(r)@ + num_sign(t0) + num_ipn(t0) + num_frac(t0) + num_exp(t0));
        }
    }
}

// ---------------------------------------------------------------------------
// Cells and columns
// ---------------------------------------------------------------------------
/// What each slot of a column exports.
pub open spec fn col_json(m: ColModel) -> Seq<Seq<char>> {
    match m {
        ColModel::Ints(s) => Seq::new(
            s.len(),
            |i: int|
                match s[i] {
                    Some(v) => spec_int_str(v as int),
                    None => "null"@,
                },
        ),
        ColModel::Floats(s) => Seq::new(
            s.len(),
            |i: int|
                match s[i] {
                    Some(t) => json_of_float_token(t),
                    None => "null"@,
                },
        ),
        ColModel::Strs(s) => Seq::new(
            s.len(),
            |i: int|
                match s[i] {
                    Some(t) => json_string(t),
                    None => "null"@,
                },
        ),
        ColModel::Bools(s) => Seq::new(
            s.len(),
            |i: int|
                match s[i] {
                    Some(b) => if b {
                        "true"@
                    } else {
                        "false"@
                    },
                    None => "null"@,
                },
        ),
    }
}

impl Column {
    /// The JSON text of every cell, in order: typed scalars, `null` for
    /// absent slots.
    pub fn to_json(&self) -> (r: Vec<String>)
        ensures
            r.deep_view() == col_json(self@),
    {
        let ghost model = col_json(self@);
        let n: usize = self.len();
        let mut r: Vec<String> = Vec::new();
        let mut i: usize = 0;
        while i < n
            invariant
                n == crate::series::col_model_len(self@),
                model == col_json(self@),
                model.len() == n,
                0 <= i <= n,
                r.deep_view().len() == i,
                forall|j: int| 0 <= j < i ==> #[trigger] r.deep_view()[j] == model[j],
            decreases n - i,
        {
            let ghost pre = r.deep_view();
            let cell = match self {
                Column::Integer(c) => {
                    match c.0[i] {
                        Some(v) => i64_to_string(v),
                        None => String::from_str("null"),
                    }
                },
                Column::Float(c) => {
                    match &c.0[i] {
                        Some(t) => {
                            if crate::text::nan_token(t.as_str()) || inf_token(t.as_str()) {
                                String::from_str("null")
                            } else {
                                let mut s = String::new();
                                append_norm_number(&mut s, t.as_str());
                                s
                            }
                        },
                        None => String::from_str("null"),
                    }
                },
                Column::Str(c) => {
                    match &c.0[i] {
                        Some(t) => {
                            let mut s = String::new();
                            append_json_string(&mut s, t.as_str());
                            s
                        },
                        None => String::from_str("null"),
                    }
                },
                Column::Boolean(c) => {
                    match c.0[i] {
                        Some(b) => if b {
                            String::from_str("true")
                        } else {
                            String::from_str("false")
                        },
                        None => String::from_str("null"),
                    }
                },
            };
            proof {
                match self {
                    Column::Float(c) => {
                        assert(c.0@[i as int].deep_view() == c@[i as int]);
                    },
                    Column::Str(c) => {
                        assert(c.0@[i as int].deep_view() == c@[i as int]);
                    },
                    _ => {},
                }
                assert(cell@ == model[i as int]);
            }
            r.push(cell);
            proof {
                assert(r.deep_view() =~= pre.push(cell@));
            }
            i = i + 1;
        }
        proof {
            assert(r.deep_view() =~= model);
        }
        r
    }
}

fn inf_token(s: &str) -> (r: bool)
    ensures
        r == is_inf_token(s@),
{
    let n: usize = s.unicode_len();
    if n == 0 {
        proof {
            assert(int_body(s@) =~= Seq::<char>::empty());
            assert(lower_seq(Seq::<char>::empty()) =~= Seq::<char>::empty());
            reveal_strlit("inf");
            reveal_strlit("infinity");
        }
        return false;
    }
    let c0 = s.get_char(0);
    let start: usize = if c0 == '-' || c0 == '+' {
        1
    } else {
        0
    };
    let body = s.substring_char(start, n);
    proof {
        assert(int_body(s@) =~= s@.subrange(start as int, n as int));
    }
    let low = crate::text::to_lower(body);
    crate::text::str_eq(low.as_str(), "inf") || crate::text::str_eq(low.as_str(), "infinity")
}

// ---------------------------------------------------------------------------
// Whole tables
// ---------------------------------------------------------------------------
/// Parts joined with commas between them.
pub open spec fn join_comma(parts: Seq<Seq<char>>) -> Seq<char>
    decreases parts.len(),
{
    if parts.len() == 0 {
        Seq::empty()
    } else if parts.len() == 1 {
        parts[0]
    } else {
        join_comma(parts.drop_last()) + seq![','] + parts.last()
    }
}

/// One column as a JSON array of cells.
pub open spec fn col_json_array(m: ColModel) -> Seq<char> {
    seq!['['] + join_comma(col_json(m)) + seq![']']
}

/// The whole table: an object holding the column arrays and the header
/// names, keys in alphabetical order.
pub open spec fn table_json(m: DataFrameModel) -> Seq<char> {
    let cols = "{\"columns\":["@ + join_comma(
        Seq::new(m.columns.len(), |i: int| col_json_array(m.columns[i])),
    ) + "],\"headers\":["@;
    let hs = match m.headers {
        Some(h) => h,
        None => Seq::empty(),
    };
    cols + join_comma(Seq::new(hs.len(), |i: int| json_string(hs[i]))) + "]}"@
}

impl DataFrame {
    /// The machine-readable export: `columns` as one array per column in
    /// column order, each element the cell's JSON scalar or `null`, and
    /// `headers` as an array of strings.
    pub fn to_json(&self) -> (r: Result<String, DataFrameError>)
        requires
            self@.headers is Some,
        ensures
            r matches Ok(s) && s@ == table_json(self@),
    {
        let mut out = String::from_str("{\"columns\":[");
        let cols = self.columns();
        let ghost arrays = Seq::new(self@.columns.len(), |i: int| col_json_array(self@.columns[i]));
        let n: usize = cols.len();
        proof {
            assert(crate::frame::cols_model(cols@).len() == self@.columns.len());
        }
        let mut i: usize = 0;
        while i < n
            invariant
                n == cols@.len(),
                n == self@.columns.len(),
                crate::frame::cols_model(cols@) == self@.columns,
                arrays == Seq::new(
                    self@.columns.len(),
                    |i: int| col_json_array(self@.columns[i]),
                ),
                0 <= i <= n,
                out@ == "{\"columns\":["@ + join_comma(arrays.take(i as int)),
            decreases n - i,
        {
            if i > 0 {
                push_char(&mut out, ',');
            }
            proof {
                assert(cols@[i as int]@ == self@.columns[i as int]);
            }
            let cells = cols[i].to_json();
            push_char(&mut out, '[');
            let ghost cj = col_json(self@.columns[i as int]);
            let m: usize = cells.len();
            proof {
                assert(cells.deep_view().len() == cj.len());
            }
            let ghost before = out@;
            let mut j: usize = 0;
            while j < m
                invariant
                    m == cells@.len(),
                    cells.deep_view() == cj,
                    m == cj.len(),
                    0 <= j <= m,
                    out@ == before + join_comma(cj.take(j as int)),
                decreases m - j,
            {
                if j > 0 {
                    push_char(&mut out, ',');
                }
                out.append(cells[j].as_str());
                proof {
                    assert(cells@[j as int]@ == cj[j as int]);
                    assert(cj.take(j + 1).drop_last() =~= cj.take(j as int));
                    assert(cj.take(j + 1).last() == cj[j as int]);
                    if j > 0 {
                        assert(out@ =~= before + join_comma(cj.take(j + 1)));
                    } else {
                        assert(cj.take(1).len() == 1);
                        assert(join_comma(cj.take(1)) == cj[0]);
                        assert(out@ =~= before + join_comma(cj.take(1)));
                    }
                }
                j = j + 1;
            }
            push_char(&mut out, ']');
            proof {
                assert(cj.take(m as int) =~= cj);
                assert(arrays[i as int] == seq!['['] + join_comma(cj) + seq![']']);
                assert(arrays.take(i + 1).drop_last() =~= arrays.take(i as int));
                assert(arrays.take(i + 1).last() == arrays[i as int]);
                if i > 0 {
                    assert(out@ =~= "{\"columns\":["@ + join_comma(arrays.take(i + 1)));
                } else {
                    assert(arrays.take(1).len() == 1);
                    assert(join_comma(arrays.take(1)) == arrays[0]);
                    assert(out@ =~= "{\"columns\":["@ + join_comma(arrays.take(1)));
                }
            }
            i = i + 1;
        }
        proof {
            assert(arrays.take(n as int) =~= arrays);
        }
        out.append("],\"headers\":[");
        let ghost mid = out@;
        let headers = self.headers();
        let ghost hs = match self@.headers {
            Some(h) => h,
            None => Seq::<Seq<char>>::empty(),
        };
        let ghost hjs = Seq::new(hs.len(), |i: int| json_string(hs[i]));
        let hn: usize = headers.len();
        proof {
            assert(headers.deep_view().len() == hs.len());
        }
        let mut i2: usize = 0;
        while i2 < hn
            invariant
                hn == headers@.len(),
                headers.deep_view() == hs,
                hjs == Seq::new(hs.len(), |i: int| json_string(hs[i])),
                hn == hs.len(),
                0 <= i2 <= hn,
                out@ == mid + join_comma(hjs.take(i2 as int)),
            decreases hn - i2,
        {
            if i2 > 0 {
                push_char(&mut out, ',');
            }
            append_json_string(&mut out, headers[i2].as_str());
            proof {
                assert(headers@[i2 as int]@ == hs[i2 as int]);
                assert(hjs.take(i2 + 1).drop_last() =~= hjs.take(i2 as int));
                assert(hjs.take(i2 + 1).last() == hjs[i2 as int]);
                if i2 > 0 {
                    assert(out@ =~= mid + join_comma(hjs.take(i2 + 1)));
                } else {
                    assert(hjs.take(1).len() == 1);
                    assert(join_comma(hjs.take(1)) == hjs[0]);
                    assert(out@ =~= mid + join_comma(hjs.take(1)));
                }
            }
            i2 = i2 + 1;
        }
        out.append("]}");
        proof {
            assert(hjs.take(hn as int) =~= hjs);
            assert(out@ =~= table_json(self@));
        }
        Ok(out)
    }
}

} // verus!
