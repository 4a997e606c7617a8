//! Typed nullable columns and the cascading type inference that produces
//! them from raw text cells, together with the aggregation contract that
//! every column kind satisfies.

use vstd::prelude::*;
use vstd::string::*;

use crate::scalar::{CellValue, Ratio};
use crate::text::{
    bool_token_value, float_token, int_value, is_float_token, is_i64_token, is_nan_token,
    is_null_token, null_token, parse_bool_token, parse_i64,
};
use crate::types::Dtype;

verus! {

// ---------------------------------------------------------------------------
// Column models: what a column is, mathematically
// ---------------------------------------------------------------------------
/// The mathematical content of a column: its kind and its per-slot values,
/// text held as character sequences, absent slots as `None`.
pub enum ColModel {
    Ints(Seq<Option<i64>>),
    Floats(Seq<Option<Seq<char>>>),
    Strs(Seq<Option<Seq<char>>>),
    Bools(Seq<Option<bool>>),
}

/// The mathematical content of one cell.
pub enum CellModel {
    S(Seq<char>),
    F(Seq<char>),
    I(i64),
    B(bool),
    D(Seq<char>),
    N,
}

/// The model of an executable cell value.
pub open spec fn cell_model(c: CellValue) -> CellModel {
    match c {
        CellValue::Str(s) => CellModel::S(s@),
        CellValue::Float(t) => CellModel::F(t@),
        CellValue::Integer(n) => CellModel::I(n),
        CellValue::Boolean(b) => CellModel::B(b),
        CellValue::Date(d) => CellModel::D(d@),
        CellValue::Null => CellModel::N,
    }
}

/// How many slots of a column are absent.
pub open spec fn nulls_in<T>(s: Seq<Option<T>>) -> int
    decreases s.len(),
{
    if s.len() == 0 {
        0
    } else {
        nulls_in(s.drop_last()) + if s.last() is None {
            1int
        } else {
            0int
        }
    }
}

pub proof fn lemma_nulls_in_bounds<T>(s: Seq<Option<T>>)
    ensures
        0 <= nulls_in(s) <= s.len(),
    decreases s.len(),
{
    if s.len() > 0 {
        lemma_nulls_in_bounds(s.drop_last());
    }
}

pub open spec fn col_model_len(m: ColModel) -> int {
    match m {
        ColModel::Ints(s) => s.len() as int,
        ColModel::Floats(s) => s.len() as int,
        ColModel::Strs(s) => s.len() as int,
        ColModel::Bools(s) => s.len() as int,
    }
}

pub open spec fn col_model_nulls(m: ColModel) -> int {
    match m {
        ColModel::Ints(s) => nulls_in(s),
        ColModel::Floats(s) => nulls_in(s),
        ColModel::Strs(s) => nulls_in(s),
        ColModel::Bools(s) => nulls_in(s),
    }
}

pub open spec fn col_model_dtype(m: ColModel) -> Dtype {
    match m {
        ColModel::Ints(_) => Dtype::Integer,
        ColModel::Floats(_) => Dtype::Float,
        ColModel::Strs(_) => Dtype::Str,
        ColModel::Bools(_) => Dtype::Boolean,
    }
}

/// What `get` answers at a slot: `None` both out of range and on a null
/// slot, the typed cell otherwise.
pub open spec fn col_model_get(m: ColModel, i: int) -> Option<CellModel> {
    if 0 <= i < col_model_len(m) {
        match m {
            ColModel::Ints(s) => match s[i] {
                Some(v) => Some(CellModel::I(v)),
                None => None,
            },
            ColModel::Floats(s) => match s[i] {
                Some(t) => Some(CellModel::F(t)),
                None => None,
            },
            ColModel::Strs(s) => match s[i] {
                Some(t) => Some(CellModel::S(t)),
                None => None,
            },
            ColModel::Bools(s) => match s[i] {
                Some(b) => Some(CellModel::B(b)),
                None => None,
            },
        }
    } else {
        None
    }
}

// ---------------------------------------------------------------------------
// The column types
// ---------------------------------------------------------------------------
/// A nullable column of 64-bit signed integers.
#[derive(Debug)]
pub struct IntegerColumn(pub Vec<Option<i64>>);

/// A nullable column of float cells, each kept as the numeric text token it
/// was read from. The floating-point folds over these tokens live outside
/// the verified core.
#[derive(Debug)]
pub struct FloatColumn(pub Vec<Option<String>>);

/// A nullable column of text cells.
#[derive(Debug)]
pub struct StringColumn(pub Vec<Option<String>>);

/// A nullable column of booleans.
#[derive(Debug)]
pub struct BooleanColumn(pub Vec<Option<bool>>);

/// One typed column: the closed set of kinds the cascade can produce,
/// matched exhaustively wherever a column is consumed.
#[derive(Debug)]
pub enum Column {
    Integer(IntegerColumn),
    Float(FloatColumn),
    Str(StringColumn),
    Boolean(BooleanColumn),
}

impl View for IntegerColumn {
    type V = Seq<Option<i64>>;

    open spec fn view(&self) -> Seq<Option<i64>> {
        self.0@
    }
}

impl View for FloatColumn {
    type V = Seq<Option<Seq<char>>>;

    open spec fn view(&self) -> Seq<Option<Seq<char>>> {
        self.0.deep_view()
    }
}

impl View for StringColumn {
    type V = Seq<Option<Seq<char>>>;

    open spec fn view(&self) -> Seq<Option<Seq<char>>> {
        self.0.deep_view()
    }
}

impl View for BooleanColumn {
    type V = Seq<Option<bool>>;

    open spec fn view(&self) -> Seq<Option<bool>> {
        self.0@
    }
}

impl View for Column {
    type V = ColModel;

    open spec fn view(&self) -> ColModel {
        match self {
            Column::Integer(c) => ColModel::Ints(c@),
            Column::Float(c) => ColModel::Floats(c@),
            Column::Str(c) => ColModel::Strs(c@),
            Column::Boolean(c) => ColModel::Bools(c@),
        }
    }
}

// ---------------------------------------------------------------------------
// Null counting, shared
// ---------------------------------------------------------------------------
pub(crate) fn count_nones<T: DeepView>(v: &Vec<Option<T>>) -> (r: usize)
    ensures
        r as int == nulls_in(v.deep_view()),
{
    let n: usize = v.len();
    let mut r: usize = 0;
    let mut i: usize = 0;
    while i < n
        invariant
            n == v.deep_view().len(),
            n == v@.len(),
            0 <= i <= n,
            r as int == nulls_in(v.deep_view().take(i as int)),
            r <= i,
        decreases n - i,
    {
        proof {
            assert(v.deep_view().take(i + 1).drop_last() =~= v.deep_view().take(i as int));
            assert(v.deep_view().take(i + 1).last() == v.deep_view()[i as int]);
            lemma_nulls_in_bounds(v.deep_view().take(i as int));
        }
        if v[i].is_none() {
            r = r + 1;
        }
        i = i + 1;
    }
    proof {
        assert(v.deep_view().take(n as int) =~= v.deep_view());
    }
    r
}

// ---------------------------------------------------------------------------
// Type inference: what each pass accepts and produces
// ---------------------------------------------------------------------------
/// Every cell is a null token or a 64-bit integer token.
pub open spec fn all_int_cells(raw: Seq<Seq<char>>) -> bool {
    forall|i: int|
        0 <= i < raw.len() ==> is_null_token(#[trigger] raw[i]) || is_i64_token(raw[i])
}

/// Every cell is a null token or a float token.
pub open spec fn all_float_cells(raw: Seq<Seq<char>>) -> bool {
    forall|i: int|
        0 <= i < raw.len() ==> is_null_token(#[trigger] raw[i]) || is_float_token(raw[i])
}

/// Every cell is a null token or a boolean token.
pub open spec fn all_bool_cells(raw: Seq<Seq<char>>) -> bool {
    forall|i: int|
        0 <= i < raw.len() ==> is_null_token(#[trigger] raw[i]) || bool_token_value(raw[i])
            is Some
}

/// The integer column a raw column parses to.
pub open spec fn int_cells(raw: Seq<Seq<char>>) -> Seq<Option<i64>> {
    Seq::new(
        raw.len(),
        |i: int|
            if is_null_token(raw[i]) {
                None
            } else {
                Some(int_value(raw[i]) as i64)
            },
    )
}

/// The non-null cells kept verbatim: the float and string columns.
pub open spec fn verbatim_cells(raw: Seq<Seq<char>>) -> Seq<Option<Seq<char>>> {
    Seq::new(
        raw.len(),
        |i: int|
            if is_null_token(raw[i]) {
                None
            } else {
                Some(raw[i])
            },
    )
}

/// The boolean column a raw column parses to.
pub open spec fn bool_cells(raw: Seq<Seq<char>>) -> Seq<Option<bool>> {
    Seq::new(
        raw.len(),
        |i: int|
            if is_null_token(raw[i]) {
                None
            } else {
                bool_token_value(raw[i])
            },
    )
}

/// The cascade: integer, then float, then boolean, then string, each pass
/// all-or-nothing. Integer wins over boolean on `0` and `1` by this order.
pub open spec fn inferred_column(raw: Seq<Seq<char>>) -> ColModel {
    if all_int_cells(raw) {
        ColModel::Ints(int_cells(raw))
    } else if all_float_cells(raw) {
        ColModel::Floats(verbatim_cells(raw))
    } else if all_bool_cells(raw) {
        ColModel::Bools(bool_cells(raw))
    } else {
        ColModel::Strs(verbatim_cells(raw))
    }
}

/// Integer pass: every non-null cell as a 64-bit integer, or nothing.
pub fn parse_integers(raw_data: &Vec<&str>) -> (r: Option<Vec<Option<i64>>>)
    ensures
        r is Some <==> all_int_cells(raw_data.deep_view()),
        r matches Some(v) ==> v@ == int_cells(raw_data.deep_view()),
{
    let ghost raw = raw_data.deep_view();
    let n: usize = raw_data.len();
    let mut result: Vec<Option<i64>> = Vec::new();
    let mut i: usize = 0;
    while i < n
        invariant
            n == raw.len(),
            raw == raw_data.deep_view(),
            0 <= i <= n,
            result@.len() == i,
            forall|j: int|
                0 <= j < i ==> is_null_token(#[trigger] raw[j]) || is_i64_token(raw[j]),
            forall|j: int| 0 <= j < i ==> #[trigger] result@[j] == int_cells(raw)[j],
        decreases n - i,
    {
        let cell = raw_data[i];
        proof {
            assert(raw[i as int] == cell@);
        }
        if null_token(cell) {
            result.push(None);
        } else {
            match parse_i64(cell) {
                Some(val) => result.push(Some(val)),
                None => {
                    return None;
                },
            }
        }
        i = i + 1;
    }
    proof {
        assert(result@ =~= int_cells(raw));
    }
    Some(result)
}

/// Float pass: every non-null cell must be a float token; the tokens are
/// kept verbatim.
pub fn parse_floats(raw_data: &Vec<&str>) -> (r: Option<Vec<Option<String>>>)
    ensures
        r is Some <==> all_float_cells(raw_data.deep_view()),
        r matches Some(v) ==> v.deep_view() == verbatim_cells(raw_data.deep_view()),
{
    let ghost raw = raw_data.deep_view();
    let n: usize = raw_data.len();
    let mut result: Vec<Option<String>> = Vec::new();
    let mut i: usize = 0;
    while i < n
        invariant
            n == raw.len(),
            raw == raw_data.deep_view(),
            0 <= i <= n,
            result.deep_view().len() == i,
            forall|j: int|
                0 <= j < i ==> is_null_token(#[trigger] raw[j]) || is_float_token(raw[j]),
            forall|j: int|
                0 <= j < i ==> #[trigger] result.deep_view()[j] == verbatim_cells(raw)[j],
        decreases n - i,
    {
        let cell = raw_data[i];
        proof {
            assert(raw[i as int] == cell@);
        }
        let ghost pre = result.deep_view();
        if null_token(cell) {
            result.push(None);
            proof {
                assert(result.deep_view() =~= pre.push(None));
            }
        } else if float_token(cell) {
            result.push(Some(String::from_str(cell)));
            proof {
                assert(result.deep_view() =~= pre.push(Some(cell@)));
            }
        } else {
            return None;
        }
        i = i + 1;
    }
    proof {
        assert(result.deep_view() =~= verbatim_cells(raw));
    }
    Some(result)
}

/// String pass: every non-null cell kept verbatim; never fails.
pub fn parse_strings(raw_data: &Vec<&str>) -> (r: Vec<Option<String>>)
    ensures
        r.deep_view() == verbatim_cells(raw_data.deep_view()),
{
    let ghost raw = raw_data.deep_view();
    let n: usize = raw_data.len();
    let mut result: Vec<Option<String>> = Vec::new();
    let mut i: usize = 0;
    while i < n
        invariant
            n == raw.len(),
            raw == raw_data.deep_view(),
            0 <= i <= n,
            result.deep_view().len() == i,
            forall|j: int|
                0 <= j < i ==> #[trigger] result.deep_view()[j] == verbatim_cells(raw)[j],
        decreases n - i,
    {
        let cell = raw_data[i];
        proof {
            assert(raw[i as int] == cell@);
        }
        let ghost pre = result.deep_view();
        if null_token(cell) {
            result.push(None);
            proof {
                assert(result.deep_view() =~= pre.push(None));
            }
        } else {
            result.push(Some(String::from_str(cell)));
            proof {
                assert(result.deep_view() =~= pre.push(Some(cell@)));
            }
        }
        i = i + 1;
    }
    proof {
        assert(result.deep_view() =~= verbatim_cells(raw));
    }
    result
}

/// Boolean pass: every non-null cell against the boolean token set, or
/// nothing.
pub fn parse_bools(raw_data: &Vec<&str>) -> (r: Option<Vec<Option<bool>>>)
    ensures
        r is Some <==> all_bool_cells(raw_data.deep_view()),
        r matches Some(v) ==> v@ == bool_cells(raw_data.deep_view()),
{
    let ghost raw = raw_data.deep_view();
    let n: usize = raw_data.len();
    let mut result: Vec<Option<bool>> = Vec::new();
    let mut i: usize = 0;
    while i < n
        invariant
            n == raw.len(),
            raw == raw_data.deep_view(),
            0 <= i <= n,
            result@.len() == i,
            forall|j: int|
                0 <= j < i ==> is_null_token(#[trigger] raw[j]) || bool_token_value(raw[j])
                    is Some,
            forall|j: int| 0 <= j < i ==> #[trigger] result@[j] == bool_cells(raw)[j],
        decreases n - i,
    {
        let cell = raw_data[i];
        proof {
            assert(raw[i as int] == cell@);
        }
        if null_token(cell) {
            result.push(None);
        } else {
            match parse_bool_token(cell) {
                Some(val) => result.push(Some(val)),
                None => {
                    return None;
                },
            }
        }
        i = i + 1;
    }
    proof {
        assert(result@ =~= bool_cells(raw));
    }
    Some(result)
}

// ---------------------------------------------------------------------------
// Aggregation: the mathematical folds
// ---------------------------------------------------------------------------
/// Sum of the present values.
pub open spec fn int_sum(s: Seq<Option<i64>>) -> int
    decreases s.len(),
{
    if s.len() == 0 {
        0
    } else {
        int_sum(s.drop_last()) + match s.last() {
            Some(v) => v as int,
            None => 0int,
        }
    }
}

/// Largest present value, if any.
pub open spec fn int_max(s: Seq<Option<i64>>) -> Option<int>
    decreases s.len(),
{
    if s.len() == 0 {
        None
    } else {
        match (int_max(s.drop_last()), s.last()) {
            (None, None) => None,
            (None, Some(v)) => Some(v as int),
            (Some(m), None) => Some(m),
            (Some(m), Some(v)) => Some(
                if v as int > m {
                    v as int
                } else {
                    m
                },
            ),
        }
    }
}

/// Smallest present value, if any.
pub open spec fn int_min(s: Seq<Option<i64>>) -> Option<int>
    decreases s.len(),
{
    if s.len() == 0 {
        None
    } else {
        match (int_min(s.drop_last()), s.last()) {
            (None, None) => None,
            (None, Some(v)) => Some(v as int),
            (Some(m), None) => Some(m),
            (Some(m), Some(v)) => Some(
                if (v as int) < m {
                    v as int
                } else {
                    m
                },
            ),
        }
    }
}

/// How many present slots hold `true`.
pub open spec fn count_true(s: Seq<Option<bool>>) -> int
    decreases s.len(),
{
    if s.len() == 0 {
        0
    } else {
        count_true(s.drop_last()) + if s.last() == Some(true) {
            1int
        } else {
            0int
        }
    }
}

/// Some present slot holds `b`.
pub open spec fn has_bool(s: Seq<Option<bool>>, b: bool) -> bool {
    exists|i: int| 0 <= i < s.len() && s[i] == Some(b)
}

/// The non-null float tokens that are not NaN: what the floating-point
/// folds range over (NaN is excluded even though it is not null).
pub open spec fn float_numeric_tokens(s: Seq<Option<Seq<char>>>) -> Seq<Seq<char>>
    decreases s.len(),
{
    if s.len() == 0 {
        Seq::empty()
    } else {
        let rest = float_numeric_tokens(s.drop_last());
        match s.last() {
            Some(t) => if is_nan_token(t) {
                rest
            } else {
                rest.push(t)
            },
            None => rest,
        }
    }
}

pub proof fn lemma_int_sum_bound(s: Seq<Option<i64>>)
    ensures
        -(s.len() as int) * 0x8000_0000_0000_0000 <= int_sum(s) <= (s.len() as int)
            * 0x8000_0000_0000_0000,
    decreases s.len(),
{
    if s.len() > 0 {
        lemma_int_sum_bound(s.drop_last());
    }
}

pub proof fn lemma_count_true_bounds(s: Seq<Option<bool>>)
    ensures
        0 <= count_true(s) <= s.len(),
    decreases s.len(),
{
    if s.len() > 0 {
        lemma_count_true_bounds(s.drop_last());
    }
}

// ---------------------------------------------------------------------------
// The aggregation contract per column kind
// ---------------------------------------------------------------------------
/// What `sum` answers, as an exact rational: integers fold over the present
/// values, booleans count their `true`s, text has no sum, and the
/// floating-point fold is outside the verified core.
pub open spec fn col_model_sum(m: ColModel) -> Option<(int, int)> {
    match m {
        ColModel::Ints(s) => Some((int_sum(s), 1int)),
        ColModel::Floats(_) => None,
        ColModel::Strs(_) => None,
        ColModel::Bools(s) => Some((count_true(s), 1int)),
    }
}

/// What `max` answers: for booleans, `1` as soon as some `true` is present,
/// and `0` both on all-`false` and on all-null columns.
pub open spec fn col_model_max(m: ColModel) -> Option<(int, int)> {
    match m {
        ColModel::Ints(s) => match int_max(s) {
            Some(v) => Some((v, 1int)),
            None => None,
        },
        ColModel::Floats(_) => None,
        ColModel::Strs(_) => None,
        ColModel::Bools(s) => Some(
            (
                if has_bool(s, true) {
                    1int
                } else {
                    0int
                },
                1int,
            ),
        ),
    }
}

/// What `min` answers: for booleans, `0` as soon as some `false` is present,
/// and `0` on all-null columns.
pub open spec fn col_model_min(m: ColModel) -> Option<(int, int)> {
    match m {
        ColModel::Ints(s) => match int_min(s) {
            Some(v) => Some((v, 1int)),
            None => None,
        },
        ColModel::Floats(_) => None,
        ColModel::Strs(_) => None,
        ColModel::Bools(s) => Some(
            (
                if nulls_in(s) < s.len() && has_bool(s, false) {
                    0int
                } else if nulls_in(s) < s.len() {
                    1int
                } else {
                    0int
                },
                1int,
            ),
        ),
    }
}

/// What `mean` answers: the sum over the count of present values, kept as an
/// exact pair, and the whole number zero when no value is present. The
/// boolean mean is the fraction of `true` among present values.
pub open spec fn col_model_mean(m: ColModel) -> Option<(int, int)> {
    match m {
        ColModel::Ints(s) => if nulls_in(s) == s.len() {
            Some((0int, 1int))
        } else {
            Some((int_sum(s), s.len() - nulls_in(s)))
        },
        ColModel::Floats(_) => None,
        ColModel::Strs(_) => None,
        ColModel::Bools(s) => if nulls_in(s) == s.len() {
            Some((0int, 1int))
        } else {
            Some((count_true(s), s.len() - nulls_in(s)))
        },
    }
}

/// A returned rational matches the pair a contract names.
pub open spec fn agg_matches(r: Option<Ratio>, m: Option<(int, int)>) -> bool {
    match (r, m) {
        (None, None) => true,
        (Some(q), Some(p)) => q.num == p.0 && q.den == p.1,
        _ => false,
    }
}

impl IntegerColumn {
    pub fn len(&self) -> (r: usize)
        ensures
            r == self@.len(),
    {
        self.0.len()
    }

    pub fn dtype(&self) -> (r: Dtype)
        ensures
            r == Dtype::Integer,
    {
        Dtype::Integer
    }

    pub fn get(&self, index: usize) -> (r: Option<CellValue>)
        ensures
            r is Some <==> col_model_get(ColModel::Ints(self@), index as int) is Some,
            r matches Some(c) ==> col_model_get(ColModel::Ints(self@), index as int) == Some(
                cell_model(c),
            ),
    {
        if index < self.0.len() {
            match self.0[index] {
                Some(v) => Some(CellValue::Integer(v)),
                None => None,
            }
        } else {
            None
        }
    }

    pub fn null_count(&self) -> (r: usize)
        ensures
            r as int == nulls_in(self@),
    {
        proof {
            assert(self.0.deep_view() =~= self@);
        }
        count_nones(&self.0)
    }

    pub fn non_null_count(&self) -> (r: usize)
        ensures
            r as int == self@.len() - nulls_in(self@),
    {
        proof {
            lemma_nulls_in_bounds(self@);
        }
        self.0.len() - self.null_count()
    }

    pub fn is_empty(&self) -> (r: bool)
        ensures
            r == (self@.len() == 0),
    {
        self.0.len() == 0
    }

    /// Sum of the present values, exactly.
    pub fn sum(&self) -> (r: Option<Ratio>)
        ensures
            agg_matches(r, col_model_sum(ColModel::Ints(self@))),
    {
        let n: usize = self.0.len();
        let mut acc: i128 = 0;
        let mut i: usize = 0;
        while i < n
            invariant
                n == self@.len(),
                0 <= i <= n,
                acc == int_sum(self@.take(i as int)),
                -(i as int) * 0x8000_0000_0000_0000 <= acc <= (i as int) * 0x8000_0000_0000_0000,
            decreases n - i,
        {
            proof {
                assert(self@.take(i + 1).drop_last() =~= self@.take(i as int));
                assert(self@.take(i + 1).last() == self@[i as int]);
            }
            match self.0[i] {
                Some(v) => {
                    acc = acc + v as i128;
                },
                None => {},
            }
            i = i + 1;
        }
        proof {
            assert(self@.take(n as int) =~= self@);
        }
        Some(Ratio { num: acc, den: 1 })
    }

    /// Largest present value, absent when no value is present.
    pub fn max(&self) -> (r: Option<Ratio>)
        ensures
            agg_matches(r, col_model_max(ColModel::Ints(self@))),
    {
        let n: usize = self.0.len();
        let mut best: Option<i64> = None;
        let mut i: usize = 0;
        while i < n
            invariant
                n == self@.len(),
                0 <= i <= n,
                match best {
                    Some(b) => int_max(self@.take(i as int)) == Some(b as int),
                    None => int_max(self@.take(i as int)) is None,
                },
            decreases n - i,
        {
            proof {
                assert(self@.take(i + 1).drop_last() =~= self@.take(i as int));
                assert(self@.take(i + 1).last() == self@[i as int]);
            }
            match self.0[i] {
                Some(v) => {
                    best = match best {
                        Some(b) => if v > b {
                            Some(v)
                        } else {
                            Some(b)
                        },
                        None => Some(v),
                    };
                },
                None => {},
            }
            i = i + 1;
        }
        proof {
            assert(self@.take(n as int) =~= self@);
        }
        match best {
            Some(b) => Some(Ratio { num: b as i128, den: 1 }),
            None => None,
        }
    }

    /// Smallest present value, absent when no value is present.
    pub fn min(&self) -> (r: Option<Ratio>)
        ensures
            agg_matches(r, col_model_min(ColModel::Ints(self@))),
    {
        let n: usize = self.0.len();
        let mut best: Option<i64> = None;
        let mut i: usize = 0;
        while i < n
            invariant
                n == self@.len(),
                0 <= i <= n,
                match best {
                    Some(b) => int_min(self@.take(i as int)) == Some(b as int),
                    None => int_min(self@.take(i as int)) is None,
                },
            decreases n - i,
        {
            proof {
                assert(self@.take(i + 1).drop_last() =~= self@.take(i as int));
                assert(self@.take(i + 1).last() == self@[i as int]);
            }
            match self.0[i] {
                Some(v) => {
                    best = match best {
                        Some(b) => if v < b {
                            Some(v)
                        } else {
                            Some(b)
                        },
                        None => Some(v),
                    };
                },
                None => {},
            }
            i = i + 1;
        }
        proof {
            assert(self@.take(n as int) =~= self@);
        }
        match best {
            Some(b) => Some(Ratio { num: b as i128, den: 1 }),
            None => None,
        }
    }

    /// Mean over the present values, as the exact pair of sum and count;
    /// the whole number zero when no value is present.
    pub fn mean(&self) -> (r: Option<Ratio>)
        ensures
            agg_matches(r, col_model_mean(ColModel::Ints(self@))),
    {
        let nn = self.non_null_count();
        if nn == 0 {
            return Some(Ratio { num: 0, den: 1 });
        }
        let s = self.sum();
        match s {
            Some(q) => Some(Ratio { num: q.num, den: nn }),
            None => None,
        }
    }
}

impl FloatColumn {
    pub fn len(&self) -> (r: usize)
        ensures
            r == self@.len(),
    {
        self.0.len()
    }

    pub fn dtype(&self) -> (r: Dtype)
        ensures
            r == Dtype::Float,
    {
        Dtype::Float
    }

    pub fn get(&self, index: usize) -> (r: Option<CellValue>)
        ensures
            r is Some <==> col_model_get(ColModel::Floats(self@), index as int) is Some,
            r matches Some(c) ==> col_model_get(ColModel::Floats(self@), index as int) == Some(
                cell_model(c),
            ),
    {
        if index < self.0.len() {
            match &self.0[index] {
                Some(t) => Some(CellValue::Float(t.clone())),
                None => None,
            }
        } else {
            None
        }
    }

    pub fn null_count(&self) -> (r: usize)
        ensures
            r as int == nulls_in(self@),
    {
        proof {
            assert(self.0.deep_view() =~= self@);
        }
        count_nones(&self.0)
    }

    pub fn non_null_count(&self) -> (r: usize)
        ensures
            r as int == self@.len() - nulls_in(self@),
    {
        proof {
            lemma_nulls_in_bounds(self@);
        }
        self.0.len() - self.null_count()
    }

    pub fn is_empty(&self) -> (r: bool)
        ensures
            r == (self@.len() == 0),
    {
        self.0.len() == 0
    }

    /// The tokens the floating-point folds range over: present and not NaN,
    /// in order. The folds themselves are floating point and stay outside
    /// the verified core; callers hand these tokens to them.
    pub fn numeric_tokens(&self) -> (r: Vec<String>)
        ensures
            r.deep_view() == float_numeric_tokens(self@),
    {
        let n: usize = self.0.len();
        let mut result: Vec<String> = Vec::new();
        let mut i: usize = 0;
        while i < n
            invariant
                n == self@.len(),
                0 <= i <= n,
                result.deep_view() == float_numeric_tokens(self@.take(i as int)),
            decreases n - i,
        {
            proof {
                assert(self@.take(i + 1).drop_last() =~= self@.take(i as int));
                assert(self@.take(i + 1).last() == self@[i as int]);
            }
            let ghost pre = result.deep_view();
            match &self.0[i] {
                Some(t) => {
                    if !crate::text::nan_token(t.as_str()) {
                        result.push(t.clone());
                        proof {
                            assert(result.deep_view() =~= pre.push(t@));
                        }
                    }
                },
                None => {},
            }
            i = i + 1;
        }
        proof {
            assert(self@.take(n as int) =~= self@);
        }
        result
    }

    /// The floating-point sum is outside the verified core; the contract
    /// reports no exact rational for a float column.
    pub fn sum(&self) -> (r: Option<Ratio>)
        ensures
            agg_matches(r, col_model_sum(ColModel::Floats(self@))),
    {
        None
    }

    /// See `sum`.
    pub fn max(&self) -> (r: Option<Ratio>)
        ensures
            agg_matches(r, col_model_max(ColModel::Floats(self@))),
    {
        None
    }

    /// See `sum`.
    pub fn min(&self) -> (r: Option<Ratio>)
        ensures
            agg_matches(r, col_model_min(ColModel::Floats(self@))),
    {
        None
    }

    /// See `sum`.
    pub fn mean(&self) -> (r: Option<Ratio>)
        ensures
            agg_matches(r, col_model_mean(ColModel::Floats(self@))),
    {
        None
    }
}

impl StringColumn {
    pub fn len(&self) -> (r: usize)
        ensures
            r == self@.len(),
    {
        self.0.len()
    }

    pub fn dtype(&self) -> (r: Dtype)
        ensures
            r == Dtype::Str,
    {
        Dtype::Str
    }

    pub fn get(&self, index: usize) -> (r: Option<CellValue>)
        ensures
            r is Some <==> col_model_get(ColModel::Strs(self@), index as int) is Some,
            r matches Some(c) ==> col_model_get(ColModel::Strs(self@), index as int) == Some(
                cell_model(c),
            ),
    {
        if index < self.0.len() {
            match &self.0[index] {
                Some(t) => Some(CellValue::Str(t.clone())),
                None => None,
            }
        } else {
            None
        }
    }

    pub fn null_count(&self) -> (r: usize)
        ensures
            r as int == nulls_in(self@),
    {
        proof {
            assert(self.0.deep_view() =~= self@);
        }
        count_nones(&self.0)
    }

    pub fn non_null_count(&self) -> (r: usize)
        ensures
            r as int == self@.len() - nulls_in(self@),
    {
        proof {
            lemma_nulls_in_bounds(self@);
        }
        self.0.len() - self.null_count()
    }

    pub fn is_empty(&self) -> (r: bool)
        ensures
            r == (self@.len() == 0),
    {
        self.0.len() == 0
    }

    /// Text has no numeric fold: all four aggregates are absent.
    pub fn sum(&self) -> (r: Option<Ratio>)
        ensures
            agg_matches(r, col_model_sum(ColModel::Strs(self@))),
    {
        None
    }

    /// See `sum`.
    pub fn max(&self) -> (r: Option<Ratio>)
        ensures
            agg_matches(r, col_model_max(ColModel::Strs(self@))),
    {
        None
    }

    /// See `sum`.
    pub fn min(&self) -> (r: Option<Ratio>)
        ensures
            agg_matches(r, col_model_min(ColModel::Strs(self@))),
    {
        None
    }

    /// See `sum`.
    pub fn mean(&self) -> (r: Option<Ratio>)
        ensures
            agg_matches(r, col_model_mean(ColModel::Strs(self@))),
    {
        None
    }
}

impl BooleanColumn {
    pub fn len(&self) -> (r: usize)
        ensures
            r == self@.len(),
    {
        self.0.len()
    }

    pub fn dtype(&self) -> (r: Dtype)
        ensures
            r == Dtype::Boolean,
    {
        Dtype::Boolean
    }

    pub fn get(&self, index: usize) -> (r: Option<CellValue>)
        ensures
            r is Some <==> col_model_get(ColModel::Bools(self@), index as int) is Some,
            r matches Some(c) ==> col_model_get(ColModel::Bools(self@), index as int) == Some(
                cell_model(c),
            ),
    {
        if index < self.0.len() {
            match self.0[index] {
                Some(b) => Some(CellValue::Boolean(b)),
                None => None,
            }
        } else {
            None
        }
    }

    pub fn null_count(&self) -> (r: usize)
        ensures
            r as int == nulls_in(self@),
    {
        proof {
            assert(self.0.deep_view() =~= self@);
        }
        count_nones(&self.0)
    }

    pub fn non_null_count(&self) -> (r: usize)
        ensures
            r as int == self@.len() - nulls_in(self@),
    {
        proof {
            lemma_nulls_in_bounds(self@);
        }
        self.0.len() - self.null_count()
    }

    pub fn is_empty(&self) -> (r: bool)
        ensures
            r == (self@.len() == 0),
    {
        self.0.len() == 0
    }

    fn contains_value(&self, b: bool) -> (r: bool)
        ensures
            r == has_bool(self@, b),
    {
        let n: usize = self.0.len();
        let mut i: usize = 0;
        while i < n
            invariant
                n == self@.len(),
                0 <= i <= n,
                forall|j: int| 0 <= j < i ==> self@[j] != Some(b),
            decreases n - i,
        {
            match self.0[i] {
                Some(v) => {
                    if v == b {
                        return true;
                    }
                },
                None => {},
            }
            i = i + 1;
        }
        false
    }

    /// Sum counts the `true` values.
    pub fn sum(&self) -> (r: Option<Ratio>)
        ensures
            agg_matches(r, col_model_sum(ColModel::Bools(self@))),
    {
        let n: usize = self.0.len();
        let mut ct: usize = 0;
        let mut i: usize = 0;
        while i < n
            invariant
                n == self@.len(),
                0 <= i <= n,
                ct as int == count_true(self@.take(i as int)),
                ct <= i,
            decreases n - i,
        {
            proof {
                assert(self@.take(i + 1).drop_last() =~= self@.take(i as int));
                assert(self@.take(i + 1).last() == self@[i as int]);
                lemma_count_true_bounds(self@.take(i as int));
            }
            match self.0[i] {
                Some(v) => {
                    if v {
                        ct = ct + 1;
                    }
                },
                None => {},
            }
            i = i + 1;
        }
        proof {
            assert(self@.take(n as int) =~= self@);
        }
        Some(Ratio { num: ct as i128, den: 1 })
    }

    /// `0` as soon as some `false` is present, `1` otherwise, and `0` when
    /// no value is present at all.
    pub fn min(&self) -> (r: Option<Ratio>)
        ensures
            agg_matches(r, col_model_min(ColModel::Bools(self@))),
    {
        if self.non_null_count() == 0 {
            return Some(Ratio { num: 0, den: 1 });
        }
        let has_false = self.contains_value(false);
        if has_false {
            Some(Ratio { num: 0, den: 1 })
        } else {
            Some(Ratio { num: 1, den: 1 })
        }
    }

    /// `1` as soon as some `true` is present, `0` otherwise, also when no
    /// value is present at all.
    pub fn max(&self) -> (r: Option<Ratio>)
        ensures
            agg_matches(r, col_model_max(ColModel::Bools(self@))),
    {
        if self.non_null_count() == 0 {
            proof {
                if has_bool(self@, true) {
                    let i = choose|i: int| 0 <= i < self@.len() && self@[i] == Some(true);
                    lemma_nulls_in_all_none(self@, i);
                }
            }
            return Some(Ratio { num: 0, den: 1 });
        }
        let has_true = self.contains_value(true);
        if has_true {
            Some(Ratio { num: 1, den: 1 })
        } else {
            Some(Ratio { num: 0, den: 1 })
        }
    }

    /// The fraction of `true` among present values, as an exact pair, and
    /// the whole number zero when no value is present.
    pub fn mean(&self) -> (r: Option<Ratio>)
        ensures
            agg_matches(r, col_model_mean(ColModel::Bools(self@))),
    {
        let nn = self.non_null_count();
        if nn == 0 {
            return Some(Ratio { num: 0, den: 1 });
        }
        let s = self.sum();
        match s {
            Some(q) => Some(Ratio { num: q.num, den: nn }),
            None => None,
        }
    }
}

/// A column whose every slot is null holds no value at any position.
pub proof fn lemma_nulls_in_all_none<T>(s: Seq<Option<T>>, i: int)
    requires
        nulls_in(s) == s.len(),
        0 <= i < s.len(),
    ensures
        s[i] is None,
    decreases s.len(),
{
    lemma_nulls_in_bounds(s.drop_last());
    if i < s.len() - 1 {
        lemma_nulls_in_all_none(s.drop_last(), i);
    }
}

impl Column {
    pub fn len(&self) -> (r: usize)
        ensures
            r == col_model_len(self@),
    {
        match self {
            Column::Integer(c) => c.len(),
            Column::Float(c) => c.len(),
            Column::Str(c) => c.len(),
            Column::Boolean(c) => c.len(),
        }
    }

    pub fn dtype(&self) -> (r: Dtype)
        ensures
            r == col_model_dtype(self@),
    {
        match self {
            Column::Integer(c) => c.dtype(),
            Column::Float(c) => c.dtype(),
            Column::Str(c) => c.dtype(),
            Column::Boolean(c) => c.dtype(),
        }
    }

    pub fn get(&self, index: usize) -> (r: Option<CellValue>)
        ensures
            r is Some <==> col_model_get(self@, index as int) is Some,
            r matches Some(c) ==> col_model_get(self@, index as int) == Some(cell_model(c)),
    {
        match self {
            Column::Integer(c) => c.get(index),
            Column::Float(c) => c.get(index),
            Column::Str(c) => c.get(index),
            Column::Boolean(c) => c.get(index),
        }
    }

    pub fn null_count(&self) -> (r: usize)
        ensures
            r as int == col_model_nulls(self@),
    {
        match self {
            Column::Integer(c) => c.null_count(),
            Column::Float(c) => c.null_count(),
            Column::Str(c) => c.null_count(),
            Column::Boolean(c) => c.null_count(),
        }
    }

    pub fn non_null_count(&self) -> (r: usize)
        ensures
            r as int == col_model_len(self@) - col_model_nulls(self@),
    {
        match self {
            Column::Integer(c) => c.non_null_count(),
            Column::Float(c) => c.non_null_count(),
            Column::Str(c) => c.non_null_count(),
            Column::Boolean(c) => c.non_null_count(),
        }
    }

    pub fn is_empty(&self) -> (r: bool)
        ensures
            r == (col_model_len(self@) == 0),
    {
        match self {
            Column::Integer(c) => c.is_empty(),
            Column::Float(c) => c.is_empty(),
            Column::Str(c) => c.is_empty(),
            Column::Boolean(c) => c.is_empty(),
        }
    }

    /// The uniform aggregation contract: `sum` across all column kinds.
    pub fn sum(&self) -> (r: Option<Ratio>)
        ensures
            agg_matches(r, col_model_sum(self@)),
    {
        match self {
            Column::Integer(c) => c.sum(),
            Column::Float(c) => c.sum(),
            Column::Str(c) => c.sum(),
            Column::Boolean(c) => c.sum(),
        }
    }

    /// The uniform aggregation contract: `max` across all column kinds.
    pub fn max(&self) -> (r: Option<Ratio>)
        ensures
            agg_matches(r, col_model_max(self@)),
    {
        match self {
            Column::Integer(c) => c.max(),
            Column::Float(c) => c.max(),
            Column::Str(c) => c.max(),
            Column::Boolean(c) => c.max(),
        }
    }

    /// The uniform aggregation contract: `min` across all column kinds.
    pub fn min(&self) -> (r: Option<Ratio>)
        ensures
            agg_matches(r, col_model_min(self@)),
    {
        match self {
            Column::Integer(c) => c.min(),
            Column::Float(c) => c.min(),
            Column::Str(c) => c.min(),
            Column::Boolean(c) => c.min(),
        }
    }

    /// The uniform aggregation contract: `mean` across all column kinds.
    pub fn mean(&self) -> (r: Option<Ratio>)
        ensures
            agg_matches(r, col_model_mean(self@)),
    {
        match self {
            Column::Integer(c) => c.mean(),
            Column::Float(c) => c.mean(),
            Column::Str(c) => c.mean(),
            Column::Boolean(c) => c.mean(),
        }
    }
}

/// Law: the aggregation contract pins each answer to the column's content
/// alone, so any two results of the same aggregate on the same content are
/// equal — repeated calls answer the same, with no hidden state.
pub proof fn lemma_contract_pins_aggregate(p: Option<(int, int)>, r1: Option<Ratio>, r2: Option<
    Ratio,
>)
    requires
        agg_matches(r1, p),
        agg_matches(r2, p),
    ensures
        r1 == r2,
{
}

// ---------------------------------------------------------------------------
// Laws of the cascade
// ---------------------------------------------------------------------------
/// Law: a raw column whose every cell is a null token or a 64-bit integer
/// token is classified Integer — never Float, Boolean or String — and every
/// cell parses to its written value.
pub proof fn lemma_integer_eligible_is_integer(raw: Seq<Seq<char>>)
    requires
        all_int_cells(raw),
    ensures
        inferred_column(raw) == ColModel::Ints(int_cells(raw)),
{
}

/// Law: one cell that is no null token, no float token and no boolean
/// token forces the whole column to String, with every non-null cell kept
/// verbatim.
pub proof fn lemma_non_numeric_forces_string(raw: Seq<Seq<char>>, i: int)
    requires
        0 <= i < raw.len(),
        !is_null_token(raw[i]),
        !is_float_token(raw[i]),
        bool_token_value(raw[i]) is None,
    ensures
        inferred_column(raw) == ColModel::Strs(verbatim_cells(raw)),
{
    assert(!all_float_cells(raw));
    assert(!all_bool_cells(raw));
    if is_i64_token(raw[i]) {
        crate::text::lemma_int_token_is_float_token(raw[i]);
    }
    assert(!all_int_cells(raw));
}

// ---------------------------------------------------------------------------
// Conversions into columns
// ---------------------------------------------------------------------------
/// Anything that stands for one typed column.
pub trait IntoColumn: Sized {
    /// The column this value stands for.
    spec fn col_spec(&self) -> ColModel;

    fn into_column(self) -> (c: Column)
        ensures
            c@ == self.col_spec(),
    ;
}

fn wrap_options<T>(v: Vec<T>) -> (r: Vec<Option<T>>)
    ensures
        r@ == Seq::new(v@.len(), |i: int| Some(v@[i])),
{
    let ghost orig = v@;
    let mut v = v;
    let n: usize = v.len();
    let mut r: Vec<Option<T>> = Vec::new();
    let mut i: usize = 0;
    while i < n
        invariant
            orig.len() == n,
            0 <= i <= n,
            v@ == orig.skip(i as int),
            r@.len() == i,
            forall|j: int| 0 <= j < i ==> #[trigger] r@[j] == Some(orig[j]),
        decreases n - i,
    {
        let x = v.remove(0);
        proof {
            assert(x == orig[i as int]);
            assert(v@ =~= orig.skip(i + 1));
        }
        r.push(Some(x));
        i = i + 1;
    }
    proof {
        assert(r@ =~= Seq::new(orig.len(), |i: int| Some(orig[i])));
    }
    r
}

impl IntoColumn for Column {
    open spec fn col_spec(&self) -> ColModel {
        self@
    }

    fn into_column(self) -> (c: Column) {
        self
    }
}

impl IntoColumn for Vec<Option<i64>> {
    open spec fn col_spec(&self) -> ColModel {
        ColModel::Ints(self@)
    }

    fn into_column(self) -> (c: Column) {
        Column::Integer(IntegerColumn(self))
    }
}

impl IntoColumn for Vec<i64> {
    open spec fn col_spec(&self) -> ColModel {
        ColModel::Ints(Seq::new(self@.len(), |i: int| Some(self@[i])))
    }

    fn into_column(self) -> (c: Column) {
        Column::Integer(IntegerColumn(wrap_options(self)))
    }
}

impl IntoColumn for Vec<Option<bool>> {
    open spec fn col_spec(&self) -> ColModel {
        ColModel::Bools(self@)
    }

    fn into_column(self) -> (c: Column) {
        Column::Boolean(BooleanColumn(self))
    }
}

impl IntoColumn for Vec<bool> {
    open spec fn col_spec(&self) -> ColModel {
        ColModel::Bools(Seq::new(self@.len(), |i: int| Some(self@[i])))
    }

    fn into_column(self) -> (c: Column) {
        Column::Boolean(BooleanColumn(wrap_options(self)))
    }
}

impl IntoColumn for Vec<Option<String>> {
    open spec fn col_spec(&self) -> ColModel {
        ColModel::Strs(self.deep_view())
    }

    fn into_column(self) -> (c: Column) {
        Column::Str(StringColumn(self))
    }
}

impl IntoColumn for Vec<String> {
    open spec fn col_spec(&self) -> ColModel {
        ColModel::Strs(Seq::new(self@.len(), |i: int| Some(self@[i]@)))
    }

    fn into_column(self) -> (c: Column) {
        let ghost orig = self@;
        let wrapped = wrap_options(self);
        proof {
            assert(wrapped.deep_view() =~= Seq::new(orig.len(), |i: int| Some(orig[i]@)));
        }
        Column::Str(StringColumn(wrapped))
    }
}

/// Classify a raw column by the cascade and parse every cell to the chosen
/// type.
pub fn parse_column(column: Vec<&str>) -> (r: Column)
    ensures
        r@ == inferred_column(column.deep_view()),
{
    if let Some(array) = parse_integers(&column) {
        return Column::Integer(IntegerColumn(array));
    }
    if let Some(array) = parse_floats(&column) {
        return Column::Float(FloatColumn(array));
    }
    if let Some(array) = parse_bools(&column) {
        return Column::Boolean(BooleanColumn(array));
    }
    Column::Str(StringColumn(parse_strings(&column)))
}

} // verus!
