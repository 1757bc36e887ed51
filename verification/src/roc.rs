//! ROC-curve generation: the threshold-mode matrix builder swept over the
//! fixed grid of one hundred thresholds 0/100, 1/100, …, 99/100.
//!
//! Each threshold yields one point per model: the false-positive rate on the
//! horizontal axis and the true-positive rate on the vertical axis. A rate
//! with a zero denominator is `Nan`; callers must tolerate such points. The
//! points come in threshold order, which need not be ascending in either
//! coordinate.

use vstd::prelude::*;

use crate::matrix::{spec_threshold_counts, threshold_matrix};
use crate::num::{num_wf, Num, FIN_MAX};
use crate::rows::{ClassRowV, ClassificationRow};

verus! {

/// One ROC point: false-positive rate `x`, true-positive rate `y`.
#[derive(Clone, Copy, PartialEq, Eq, Structural, Debug)]
pub struct RocPoint {
    pub x: Num,
    pub y: Num,
}

/// Both coordinates are well-formed numbers.
pub open spec fn roc_point_wf(p: RocPoint) -> bool {
    num_wf(p.x) && num_wf(p.y)
}

/// The rate `a / (a + b)` over non-negative counts: `Nan` when the
/// denominator is zero or out of the exact range.
pub open spec fn spec_rate(a: int, b: int) -> Num
    recommends
        0 <= a,
        0 <= b,
{
    if a + b == 0 || a + b > FIN_MAX {
        Num::Nan
    } else {
        Num::Fin { num: a as i64, den: (a + b) as i64 }
    }
}

fn rate(a: u64, b: u64) -> (r: Num)
    requires
        a + b <= u64::MAX,
    ensures
        r == spec_rate(a as int, b as int),
        num_wf(r),
{
    let s: u64 = a + b;
    if s == 0 || s > FIN_MAX as u64 {
        Num::Nan
    } else {
        Num::Fin { num: a as i64, den: s as i64 }
    }
}

/// The ROC point of one model at grid threshold `n / 100`.
pub open spec fn spec_roc_point(rows: Seq<ClassRowV>, n: int, use_a: bool) -> RocPoint {
    let t = Num::Fin { num: n as i64, den: 100 };
    let m = spec_threshold_counts(rows, t, use_a);
    RocPoint {
        x: spec_rate(m.false_positive, m.true_negative),
        y: spec_rate(m.true_positive, m.false_negative),
    }
}

/// The full hundred-point curve of one model, in threshold order.
pub open spec fn spec_roc_curve(rows: Seq<ClassRowV>, use_a: bool) -> Seq<RocPoint> {
    Seq::new(100, |n: int| spec_roc_point(rows, n, use_a))
}

/// ROC curves for model A and model B: always exactly one hundred points
/// per model, one per grid threshold, in threshold-ascending order, exactly
/// as `spec_roc_curve` describes.
pub fn roc_curve(rows: &Vec<ClassificationRow>) -> (r: (Vec<RocPoint>, Vec<RocPoint>))
    ensures
        r.0@ == spec_roc_curve(rows.deep_view(), true),
        r.1@ == spec_roc_curve(rows.deep_view(), false),
        r.0@.len() == 100,
        r.1@.len() == 100,
        forall|j: int| 0 <= j < 100 ==> roc_point_wf(#[trigger] r.0@[j]),
        forall|j: int| 0 <= j < 100 ==> roc_point_wf(#[trigger] r.1@[j]),
{
    let ghost rv = rows.deep_view();
    let mut out_a: Vec<RocPoint> = Vec::new();
    let mut out_b: Vec<RocPoint> = Vec::new();
    let mut n: usize = 0;
    while n < 100
        invariant
            n <= 100,
            rv == rows.deep_view(),
            out_a@.len() == n,
            out_b@.len() == n,
            forall|j: int| 0 <= j < n ==> #[trigger] out_a@[j] == spec_roc_point(rv, j, true),
            forall|j: int| 0 <= j < n ==> #[trigger] out_b@[j] == spec_roc_point(rv, j, false),
            forall|j: int| 0 <= j < n ==> roc_point_wf(#[trigger] out_a@[j]),
            forall|j: int| 0 <= j < n ==> roc_point_wf(#[trigger] out_b@[j]),
        decreases 100 - n,
    {
        let t = Num::Fin { num: n as i64, den: 100 };
        let (ma, mb) = threshold_matrix(rows, t);
        let pa = RocPoint {
            x: rate(ma.false_positive, ma.true_negative),
            y: rate(ma.true_positive, ma.false_negative),
        };
        let pb = RocPoint {
            x: rate(mb.false_positive, mb.true_negative),
            y: rate(mb.true_positive, mb.false_negative),
        };
        out_a.push(pa);
        out_b.push(pb);
        n = n + 1;
    }
    proof {
        assert(out_a@ =~= spec_roc_curve(rv, true));
        assert(out_b@ =~= spec_roc_curve(rv, false));
    }
    (out_a, out_b)
}

} // verus!
