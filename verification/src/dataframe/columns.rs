//! An integer column under the generic aggregation contract: exact 64-bit
//! results where they fit, exact rationals for the mean.

use vstd::prelude::*;

use crate::dataframe::aggregation::ChunkAgg;
use crate::scalar::Ratio;
use crate::series::{count_nones, int_max, int_min, int_sum, lemma_nulls_in_bounds, nulls_in};
use crate::types::Dtype;

pub use crate::series::{parse_bools, parse_column, parse_integers, parse_strings};

verus! {

/// A nullable column of 64-bit signed integers, aggregated through
/// `ChunkAgg`.
#[derive(Debug)]
pub struct IntegerColumn(pub Vec<Option<i64>>);

impl View for IntegerColumn {
    type V = Seq<Option<i64>>;

    open spec fn view(&self) -> Seq<Option<i64>> {
        self.0@
    }
}

/// Every present value lies within the i64 range, so the extrema do too.
pub proof fn lemma_int_max_range(s: Seq<Option<i64>>)
    ensures
        int_max(s) matches Some(m) ==> i64::MIN <= m <= i64::MAX,
        int_min(s) matches Some(m) ==> i64::MIN <= m <= i64::MAX,
    decreases s.len(),
{
    if s.len() > 0 {
        lemma_int_max_range(s.drop_last());
    }
}

impl IntegerColumn {
    pub fn len(&self) -> (r: usize)
        ensures
            r == self@.len(),
    {
        self.0.len()
    }

    pub fn dtype(&self) -> (r: Dtype)
        ensures
            r == Dtype::Integer,
    {
        Dtype::Integer
    }

    pub fn null_count(&self) -> (r: usize)
        ensures
            r as int == nulls_in(self@),
    {
        proof {
            assert(self.0.deep_view() =~= self@);
        }
        count_nones(&self.0)
    }

    pub fn non_null_count(&self) -> (r: usize)
        ensures
            r as int == self@.len() - nulls_in(self@),
    {
        proof {
            lemma_nulls_in_bounds(self@);
        }
        self.0.len() - self.null_count()
    }

    fn exact_sum(&self) -> (r: i128)
        ensures
            r == int_sum(self@),
    {
        let n: usize = self.0.len();
        let mut acc: i128 = 0;
        let mut i: usize = 0;
        while i < n
            invariant
                n == self@.len(),
                0 <= i <= n,
                acc == int_sum(self@.take(i as int)),
                -(i as int) * 0x8000_0000_0000_0000 <= acc <= (i as int) * 0x8000_0000_0000_0000,
            decreases n - i,
        {
            proof {
                assert(self@.take(i + 1).drop_last() =~= self@.take(i as int));
                assert(self@.take(i + 1).last() == self@[i as int]);
            }
            match self.0[i] {
                Some(v) => {
                    acc = acc + v as i128;
                },
                None => {},
            }
            i = i + 1;
        }
        proof {
            assert(self@.take(n as int) =~= self@);
        }
        acc
    }
}

/// Integer aggregates: `sum`, `min` and `max` fold to exact 64-bit values;
/// the integer-typed `mean` is not offered.
impl ChunkAgg<i64> for IntegerColumn {
    open spec fn sum_req(&self) -> bool {
        i64::MIN <= int_sum(self@) <= i64::MAX
    }

    open spec fn sum_spec(&self) -> Option<i64> {
        Some(int_sum(self@) as i64)
    }

    open spec fn min_req(&self) -> bool {
        true
    }

    open spec fn min_spec(&self) -> Option<i64> {
        match int_min(self@) {
            Some(m) => Some(m as i64),
            None => None,
        }
    }

    open spec fn max_req(&self) -> bool {
        true
    }

    open spec fn max_spec(&self) -> Option<i64> {
        match int_max(self@) {
            Some(m) => Some(m as i64),
            None => None,
        }
    }

    open spec fn mean_req(&self) -> bool {
        true
    }

    open spec fn mean_spec(&self) -> Option<i64> {
        None
    }

    fn sum(&self) -> (r: Option<i64>) {
        let s = self.exact_sum();
        Some(s as i64)
    }

    fn min(&self) -> (r: Option<i64>) {
        let n: usize = self.0.len();
        let mut best: Option<i64> = None;
        let mut i: usize = 0;
        while i < n
            invariant
                n == self@.len(),
                0 <= i <= n,
                match best {
                    Some(b) => int_min(self@.take(i as int)) == Some(b as int),
                    None => int_min(self@.take(i as int)) is None,
                },
            decreases n - i,
        {
            proof {
                assert(self@.take(i + 1).drop_last() =~= self@.take(i as int));
                assert(self@.take(i + 1).last() == self@[i as int]);
            }
            match self.0[i] {
                Some(v) => {
                    best = match best {
                        Some(b) => if v < b {
                            Some(v)
                        } else {
                            Some(b)
                        },
                        None => Some(v),
                    };
                },
                None => {},
            }
            i = i + 1;
        }
        proof {
            assert(self@.take(n as int) =~= self@);
        }
        best
    }

    fn max(&self) -> (r: Option<i64>) {
        let n: usize = self.0.len();
        let mut best: Option<i64> = None;
        let mut i: usize = 0;
        while i < n
            invariant
                n == self@.len(),
                0 <= i <= n,
                match best {
                    Some(b) => int_max(self@.take(i as int)) == Some(b as int),
                    None => int_max(self@.take(i as int)) is None,
                },
            decreases n - i,
        {
            proof {
                assert(self@.take(i + 1).drop_last() =~= self@.take(i as int));
                assert(self@.take(i + 1).last() == self@[i as int]);
            }
            match self.0[i] {
                Some(v) => {
                    best = match best {
                        Some(b) => if v > b {
                            Some(v)
                        } else {
                            Some(b)
                        },
                        None => Some(v),
                    };
                },
                None => {},
            }
            i = i + 1;
        }
        proof {
            assert(self@.take(n as int) =~= self@);
        }
        best
    }

    fn mean(&self) -> (r: Option<i64>) {
        None
    }
}

/// Rational aggregates: only the mean is offered here, as the exact pair of
/// sum and count of present values, the whole number zero when none is
/// present.
impl ChunkAgg<Ratio> for IntegerColumn {
    open spec fn sum_req(&self) -> bool {
        true
    }

    open spec fn sum_spec(&self) -> Option<Ratio> {
        None
    }

    open spec fn min_req(&self) -> bool {
        true
    }

    open spec fn min_spec(&self) -> Option<Ratio> {
        None
    }

    open spec fn max_req(&self) -> bool {
        true
    }

    open spec fn max_spec(&self) -> Option<Ratio> {
        None
    }

    open spec fn mean_req(&self) -> bool {
        true
    }

    open spec fn mean_spec(&self) -> Option<Ratio> {
        if nulls_in(self@) == self@.len() {
            Some(Ratio { num: 0 as i128, den: 1 as usize })
        } else {
            Some(
                Ratio {
                    num: int_sum(self@) as i128,
                    den: (self@.len() - nulls_in(self@)) as usize,
                },
            )
        }
    }

    fn sum(&self) -> (r: Option<Ratio>) {
        None
    }

    fn min(&self) -> (r: Option<Ratio>) {
        None
    }

    fn max(&self) -> (r: Option<Ratio>) {
        None
    }

    fn mean(&self) -> (r: Option<Ratio>) {
        let nn = self.non_null_count();
        if nn == 0 {
            return Some(Ratio { num: 0, den: 1 });
        }
        let s = self.exact_sum();
        proof {
            crate::series::lemma_int_sum_bound(self@);
        }
        Some(Ratio { num: s, den: nn })
    }
}

} // verus!
