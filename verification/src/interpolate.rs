//! Ordered piecewise-linear interpolation over tabulated sample pairs.
//!
//! A table holds at least two `(x, y)` pairs with strictly increasing `x`.
//! `interpolate` blends the two samples bracketing the query point; past
//! either end of the table the same formula runs with the segment pinned to
//! the first or to the last pair of samples, so the table extrapolates
//! linearly and never clamps: callers must tabulate the whole working range
//! or accept the extrapolated values.

use vstd::prelude::*;
use crate::fixed::{in_i64, tdiv};
use crate::fixed::{lemma_tdiv_exact, lemma_tdiv_mono};
use vstd::arithmetic::div_mod::{lemma_div_of0, lemma_div_pos_is_pos};

verus! {

/// Whether a sample sequence is a valid table: at least two samples,
/// strictly increasing x-values.
pub open spec fn table_wf(s: Seq<(i64, i64)>) -> bool {
    s.len() >= 2 && forall|i: int|
        0 <= i < s.len() - 1 ==> (#[trigger] s[i]).0 < s[i + 1].0
}

/// Strict order of neighbours extends to any pair of indices.
pub proof fn lemma_table_sorted(s: Seq<(i64, i64)>, i: int, j: int)
    requires
        table_wf(s),
        0 <= i <= j < s.len(),
    ensures
        s[i].0 <= s[j].0,
    decreases j - i,
{
    if i < j {
        lemma_table_sorted(s, i + 1, j);
    }
}

/// Index of the interpolation segment for a query point: the greatest `i`
/// at most `len - 2` whose sample lies at or below `x`, or `0` below the
/// whole table.
pub open spec fn seg_of(s: Seq<(i64, i64)>, x: int) -> int
    recommends
        table_wf(s),
    decreases s.len(),
{
    if s.len() <= 2 {
        0
    } else if x >= s[s.len() - 2].0 {
        s.len() - 2
    } else {
        seg_of(s.drop_last(), x)
    }
}

/// The segment index is within the table and brackets the query point as
/// far as the table allows.
pub proof fn lemma_seg_of_range(s: Seq<(i64, i64)>, x: int)
    requires
        table_wf(s),
    ensures
        0 <= seg_of(s, x) <= s.len() - 2,
        seg_of(s, x) > 0 ==> s[seg_of(s, x)].0 <= x,
        seg_of(s, x) < s.len() - 2 ==> x < s[seg_of(s, x) + 1].0,
    decreases s.len(),
{
    if s.len() > 2 && x < s[s.len() - 2].0 {
        assert(table_wf(s.drop_last()));
        lemma_seg_of_range(s.drop_last(), x);
    }
}

/// Any index that brackets the query point the same way is the segment
/// index.
pub proof fn lemma_seg_of_unique(s: Seq<(i64, i64)>, x: int, k: int)
    requires
        table_wf(s),
        0 <= k <= s.len() - 2,
        k > 0 ==> s[k].0 <= x,
        k < s.len() - 2 ==> x < s[k + 1].0,
    ensures
        k == seg_of(s, x),
    decreases s.len(),
{
    if s.len() <= 2 {
    } else if x >= s[s.len() - 2].0 {
        if k < s.len() - 2 {
            lemma_table_sorted(s, k + 1, s.len() - 2);
            assert(false);
        }
    } else {
        if k == s.len() - 2 {
            assert(s[k].0 <= x);
            assert(false);
        }
        assert(table_wf(s.drop_last()));
        lemma_seg_of_unique(s.drop_last(), x, k);
    }
}

/// The interpolated value at a query point: the bracketing samples blended
/// linearly, the quotient rounded toward zero.
pub open spec fn interp_spec(s: Seq<(i64, i64)>, x: int) -> int
    recommends
        table_wf(s),
{
    let i = seg_of(s, x);
    s[i].1 + tdiv((x - s[i].0) * (s[i + 1].1 - s[i].1), s[i + 1].0 - s[i].0)
}

/// Whether the interpolation arithmetic stays within machine range at a
/// query point.
pub open spec fn interp_fits(s: Seq<(i64, i64)>, x: int) -> bool {
    let i = seg_of(s, x);
    i128::MIN <= (x - s[i].0) * (s[i + 1].1 - s[i].1) <= i128::MAX && in_i64(interp_spec(s, x))
}

/// A coefficient table: ordered samples, never mutated after construction.
pub struct Linear {
    data: Vec<(i64, i64)>,
}

impl View for Linear {
    type V = Seq<(i64, i64)>;

    closed spec fn view(&self) -> Seq<(i64, i64)> {
        self.data@
    }
}

/// Whether a sample vector forms a valid table; the runtime counterpart of
/// `table_wf`, for callers that must validate external data first.
pub fn table_ok(data: &Vec<(i64, i64)>) -> (b: bool)
    ensures
        b == table_wf(data@),
{
    if data.len() < 2 {
        return false;
    }
    let n = data.len();
    let mut i: usize = 0;
    while i < n - 1
        invariant
            0 <= i <= n - 1,
            n == data@.len() >= 2,
            forall|j: int| 0 <= j < i ==> (#[trigger] data@[j]).0 < data@[j + 1].0,
        decreases n - 1 - i,
    {
        if data[i].0 >= data[i + 1].0 {
            return false;
        }
        i = i + 1;
    }
    true
}

impl Linear {
    /// A table from validated samples.
    pub fn new(data: Vec<(i64, i64)>) -> (t: Linear)
        requires
            table_wf(data@),
        ensures
            t@ == data@,
    {
        Linear { data }
    }

    /// Type invariant: the samples stay a valid table.
    #[verifier::type_invariant]
    spec fn inv(self) -> bool {
        table_wf(self.data@)
    }

    /// Number of samples.
    pub fn len(&self) -> (n: usize)
        ensures
            n == self@.len(),
            n >= 2,
    {
        proof {
            use_type_invariant(self);
        }
        self.data.len()
    }

    /// The piecewise-linear estimate at `x`: the bracketing (or pinned end)
    /// segment blended linearly; `None` exactly when the arithmetic leaves
    /// machine range.
    pub fn interpolate(&self, x: i64) -> (r: Option<i64>)
        ensures
            r == if interp_fits(self@, x as int) {
                Some(interp_spec(self@, x as int) as i64)
            } else {
                None::<i64>
            },
    {
        proof {
            use_type_invariant(self);
        }
        let n = self.data.len();
        let i = self.find_segment(x);
        let (xi, yi) = self.data[i];
        let (xj, yj) = self.data[i + 1];
        proof {
            lemma_table_sorted(self@, i as int, i as int + 1);
        }
        let num_o = ((x as i128) - (xi as i128)).checked_mul((yj as i128) - (yi as i128));
        let num: i128 = match num_o {
            Some(v) => v,
            None => {
                return None;
            },
        };
        let q: i128 = num / ((xj as i128) - (xi as i128));
        proof {
            crate::fixed::lemma_tdiv_bounds(num as int, xj - xi);
        }
        let sum_o = (yi as i128).checked_add(q);
        let sum: i128 = match sum_o {
            Some(v) => v,
            None => {
                return None;
            },
        };
        if i64::MIN as i128 <= sum && sum <= i64::MAX as i128 {
            Some(sum as i64)
        } else {
            None
        }
    }

    /// The segment index for a query point, by binary search.
    fn find_segment(&self, x: i64) -> (i: usize)
        ensures
            i == seg_of(self@, x as int),
            0 <= i < self@.len() - 1,
    {
        proof {
            use_type_invariant(self);
            lemma_seg_of_range(self@, x as int);
        }
        let n = self.data.len();
        if x < self.data[0].0 {
            proof {
                lemma_table_sorted(self@, 0, 1);
                lemma_seg_of_unique(self@, x as int, 0);
            }
            return 0;
        }
        if x >= self.data[n - 1].0 {
            proof {
                lemma_table_sorted(self@, self@.len() - 2, self@.len() - 1);
                lemma_seg_of_unique(self@, x as int, self@.len() - 2);
            }
            return n - 2;
        }
        let mut lo: usize = 0;
        let mut hi: usize = n - 1;
        while hi - lo > 1
            invariant
                0 <= lo < hi < self@.len(),
                table_wf(self@),
                self@[lo as int].0 <= x as int,
                (x as int) < self@[hi as int].0,
            decreases hi - lo,
        {
            let mid = lo + (hi - lo) / 2;
            if self.data[mid].0 <= x {
                lo = mid;
            } else {
                hi = mid;
            }
        }
        proof {
            lemma_seg_of_unique(self@, x as int, lo as int);
        }
        lo
    }
}

/// Interpolation is exact at every sample: querying a tabulated x-value
/// returns its tabulated y-value.
pub proof fn lemma_interpolate_at_sample(s: Seq<(i64, i64)>, k: int)
    requires
        table_wf(s),
        0 <= k < s.len(),
    ensures
        interp_spec(s, s[k].0 as int) == s[k].1,
{
    let x = s[k].0 as int;
    if k <= s.len() - 2 {
        if k < s.len() - 2 {
            lemma_table_sorted(s, k, k + 1);
        }
        lemma_seg_of_unique(s, x, k);
        let dy = s[k + 1].1 - s[k].1;
        let dx = s[k + 1].0 - s[k].0;
        assert((x - s[k].0) * dy == 0) by (nonlinear_arith)
            requires
                x == s[k].0,
        ;
        lemma_div_of0(dx);
    } else {
        let i = s.len() - 2;
        lemma_table_sorted(s, i, k);
        lemma_seg_of_unique(s, x, i);
        let dy = s[k].1 - s[i].1;
        let dx = s[k].0 - s[i].0;
        assert((x - s[i].0) * dy == dy * dx) by (nonlinear_arith)
            requires
                x - s[i].0 == dx,
        ;
        lemma_tdiv_exact(dy, dx);
    }
}

/// Between two adjacent samples the result is their linear blend, rounded
/// toward zero, and in particular stays between the two sample values.
pub proof fn lemma_interpolate_between(s: Seq<(i64, i64)>, k: int, x: int)
    requires
        table_wf(s),
        0 <= k <= s.len() - 2,
        s[k].0 <= x <= s[k + 1].0,
    ensures
        interp_spec(s, x) == s[k].1 + tdiv(
            (x - s[k].0) * (s[k + 1].1 - s[k].1),
            s[k + 1].0 - s[k].0,
        ),
        s[k].1 <= s[k + 1].1 ==> s[k].1 <= interp_spec(s, x) <= s[k + 1].1,
        s[k + 1].1 <= s[k].1 ==> s[k + 1].1 <= interp_spec(s, x) <= s[k].1,
{
    if x == s[k + 1].0 && k < s.len() - 2 {
        lemma_interpolate_at_sample(s, k + 1);
        lemma_seg_of_unique(s, x, k + 1);
        let dy = s[k + 1].1 - s[k].1;
        let dx = s[k + 1].0 - s[k].0;
        assert((x - s[k].0) * dy == dy * dx) by (nonlinear_arith)
            requires
                x - s[k].0 == dx,
        ;
        lemma_tdiv_exact(dy, dx);
    } else {
        lemma_seg_of_unique(s, x, k);
    }
    let dy = s[k + 1].1 - s[k].1;
    let dx = s[k + 1].0 - s[k].0;
    let num = (x - s[k].0) * dy;
    if dy >= 0 {
        assert(0 <= num <= dy * dx) by (nonlinear_arith)
            requires
                num == (x - s[k].0) * dy,
                0 <= x - s[k].0 <= dx,
                dy >= 0,
        ;
        lemma_div_pos_is_pos(num, dx);
        lemma_tdiv_mono(num, dy * dx, dx);
        lemma_tdiv_exact(dy, dx);
    } else {
        assert(dy * dx <= num <= 0) by (nonlinear_arith)
            requires
                num == (x - s[k].0) * dy,
                0 <= x - s[k].0 <= dx,
                dy < 0,
        ;
        lemma_tdiv_mono(dy * dx, num, dx);
        lemma_tdiv_mono(num, 0, dx);
        lemma_tdiv_exact(dy, dx);
        lemma_div_of0(dx);
    }
}

} // verus!
