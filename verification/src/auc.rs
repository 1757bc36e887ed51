//! AUC integration: a stable sort of the ROC points by false-positive rate
//! ascending, then a signed trapezoid sum over adjacent pairs.
//!
//! The sort is an insertion sort moving each point left past points of
//! strictly greater `x` only, so points with equal `x` — and points whose
//! `x` is `Nan`, which compares in neither direction — keep their original
//! relative order. The trapezoid sum is not normalised: it can be negative
//! when the curve is non-monotonic in `x`, and a `Nan` coordinate
//! propagates `Nan` through the sum.

use vstd::prelude::*;

use crate::num::{
    num_add, num_lt, num_mul, num_sub, num_wf, spec_add, spec_lt, spec_mul, spec_sub, Num,
};
use crate::roc::{roc_curve, roc_point_wf, spec_roc_curve, RocPoint};
use crate::rows::{ClassRowV, ClassificationRow};

verus! {

/// Stable insertion of `p` into `s`: `p` moves left past exactly the
/// trailing points whose `x` is strictly greater than `p.x`.
pub open spec fn insert_sorted(p: RocPoint, s: Seq<RocPoint>) -> Seq<RocPoint>
    decreases s.len(),
{
    if s.len() == 0 {
        seq![p]
    } else if spec_lt(p.x, s.last().x) {
        insert_sorted(p, s.drop_last()) + seq![s.last()]
    } else {
        s + seq![p]
    }
}

/// Stable insertion sort of ROC points by `x` ascending.
pub open spec fn spec_sort_roc(s: Seq<RocPoint>) -> Seq<RocPoint>
    decreases s.len(),
{
    if s.len() == 0 {
        Seq::empty()
    } else {
        insert_sorted(s.last(), spec_sort_roc(s.drop_last()))
    }
}

/// The signed trapezoid of the adjacent pair `(i - 1, i)`:
/// `1/2 * (x_i - x_{i-1}) * (y_{i-1} + y_i)`.
pub open spec fn spec_trap_term(s: Seq<RocPoint>, i: int) -> Num
    recommends
        1 <= i < s.len(),
{
    spec_mul(
        spec_mul(Num::Fin { num: 1, den: 2 }, spec_sub(s[i].x, s[i - 1].x)),
        spec_add(s[i - 1].y, s[i].y),
    )
}

/// The trapezoid sum over pairs up to index `n`.
pub open spec fn spec_trap_fold(s: Seq<RocPoint>, n: int) -> Num
    decreases n,
    when n < s.len()
{
    if n <= 0 {
        Num::Fin { num: 0, den: 1 }
    } else {
        spec_add(spec_trap_fold(s, n - 1), spec_trap_term(s, n))
    }
}

/// The area under a curve: sort by `x` ascending (stably), then accumulate
/// signed trapezoids over adjacent pairs.
pub open spec fn spec_auc_curve(points: Seq<RocPoint>) -> Num {
    let s = spec_sort_roc(points);
    spec_trap_fold(s, s.len() - 1)
}

proof fn lemma_insert_sorted_len(p: RocPoint, s: Seq<RocPoint>)
    ensures
        insert_sorted(p, s).len() == s.len() + 1,
    decreases s.len(),
{
    if s.len() > 0 && spec_lt(p.x, s.last().x) {
        lemma_insert_sorted_len(p, s.drop_last());
    }
}

pub(crate) proof fn lemma_sort_roc_len(s: Seq<RocPoint>)
    ensures
        spec_sort_roc(s).len() == s.len(),
    decreases s.len(),
{
    if s.len() > 0 {
        lemma_sort_roc_len(s.drop_last());
        lemma_insert_sorted_len(s.last(), spec_sort_roc(s.drop_last()));
    }
}

proof fn lemma_insert_sorted_wf(p: RocPoint, s: Seq<RocPoint>)
    requires
        roc_point_wf(p),
        forall|j: int| 0 <= j < s.len() ==> roc_point_wf(#[trigger] s[j]),
    ensures
        forall|j: int|
            0 <= j < insert_sorted(p, s).len() ==> roc_point_wf(#[trigger] insert_sorted(p, s)[j]),
    decreases s.len(),
{
    let r = insert_sorted(p, s);
    if s.len() == 0 {
        assert(r[0] == p);
    } else if spec_lt(p.x, s.last().x) {
        let d = s.drop_last();
        assert(forall|j: int| 0 <= j < d.len() ==> roc_point_wf(#[trigger] d[j]));
        lemma_insert_sorted_wf(p, d);
        let rd = insert_sorted(p, d);
        assert forall|j: int| 0 <= j < r.len() implies roc_point_wf(#[trigger] r[j]) by {
            if j < rd.len() {
                assert(r[j] == rd[j]);
            } else {
                assert(r[j] == s.last());
            }
        }
    } else {
        assert forall|j: int| 0 <= j < r.len() implies roc_point_wf(#[trigger] r[j]) by {
            if j < s.len() {
                assert(r[j] == s[j]);
            } else {
                assert(r[j] == p);
            }
        }
    }
}

proof fn lemma_sort_roc_wf(s: Seq<RocPoint>)
    requires
        forall|j: int| 0 <= j < s.len() ==> roc_point_wf(#[trigger] s[j]),
    ensures
        forall|j: int|
            0 <= j < spec_sort_roc(s).len() ==> roc_point_wf(#[trigger] spec_sort_roc(s)[j]),
    decreases s.len(),
{
    if s.len() > 0 {
        assert(forall|j: int|
            0 <= j < s.drop_last().len() ==> roc_point_wf(#[trigger] s.drop_last()[j]));
        lemma_sort_roc_wf(s.drop_last());
        lemma_insert_sorted_wf(s.last(), spec_sort_roc(s.drop_last()));
    }
}

pub(crate) proof fn lemma_insert_sorted_at(p: RocPoint, s: Seq<RocPoint>, j: int)
    requires
        0 <= j <= s.len(),
        forall|m: int| j <= m < s.len() ==> spec_lt(p.x, #[trigger] s[m].x),
        j > 0 ==> !spec_lt(p.x, s[j - 1].x),
    ensures
        insert_sorted(p, s) == s.subrange(0, j) + seq![p] + s.subrange(j, s.len() as int),
    decreases s.len(),
{
    if s.len() == 0 {
        assert(insert_sorted(p, s) =~= s.subrange(0, j) + seq![p] + s.subrange(j, s.len() as int));
    } else if j == s.len() {
        assert(!spec_lt(p.x, s.last().x));
        assert(s + seq![p] =~= s.subrange(0, j) + seq![p] + s.subrange(j, s.len() as int));
    } else {
        assert(spec_lt(p.x, s.last().x));
        let d = s.drop_last();
        assert(forall|m: int| j <= m < d.len() ==> spec_lt(p.x, #[trigger] d[m].x));
        lemma_insert_sorted_at(p, d, j);
        assert(insert_sorted(p, s) == (d.subrange(0, j) + seq![p] + d.subrange(j, d.len() as int))
            + seq![s.last()]);
        assert((d.subrange(0, j) + seq![p] + d.subrange(j, d.len() as int)) + seq![s.last()] =~= s
            .subrange(0, j) + seq![p] + s.subrange(j, s.len() as int));
    }
}

/// Stable insertion sort of a point vector, exactly `spec_sort_roc`.
fn sort_roc(points: &Vec<RocPoint>) -> (r: Vec<RocPoint>)
    ensures
        r@ == spec_sort_roc(points@),
{
    let mut out: Vec<RocPoint> = Vec::new();
    let mut i: usize = 0;
    while i < points.len()
        invariant
            i <= points@.len(),
            out@ == spec_sort_roc(points@.take(i as int)),
            out@.len() == i,
        decreases points@.len() - i,
    {
        let p = points[i];
        let mut j: usize = out.len();
        while j > 0 && num_lt(p.x, out[j - 1].x)
            invariant
                j <= out@.len(),
                forall|m: int| j <= m < out@.len() ==> spec_lt(p.x, #[trigger] out@[m].x),
            decreases j,
        {
            j = j - 1;
        }
        let ghost old_out = out@;
        out.insert(j, p);
        proof {
            lemma_insert_sorted_at(p, old_out, j as int);
            assert(out@ =~= old_out.subrange(0, j as int) + seq![p] + old_out.subrange(
                j as int,
                old_out.len() as int,
            ));
            assert(points@.take(i as int + 1).drop_last() =~= points@.take(i as int));
            assert(points@.take(i as int + 1).last() == points@[i as int]);
        }
        i = i + 1;
    }
    proof {
        assert(points@.take(points@.len() as int) =~= points@);
    }
    out
}

/// The area under one curve, exactly as `spec_auc_curve` describes: a
/// stable sort by false-positive rate ascending, then the signed trapezoid
/// sum. The result is not clamped to the unit interval and is `Nan`
/// whenever a `Nan` point enters a trapezoid.
pub fn auc_of_curve(points: &Vec<RocPoint>) -> (r: Num)
    requires
        forall|j: int| 0 <= j < points@.len() ==> roc_point_wf(#[trigger] points@[j]),
    ensures
        r == spec_auc_curve(points@),
        num_wf(r),
{
    let sorted = sort_roc(points);
    proof {
        lemma_sort_roc_wf(points@);
        lemma_sort_roc_len(points@);
    }
    let mut acc = Num::Fin { num: 0, den: 1 };
    if sorted.len() == 0 {
        return acc;
    }
    let mut i: usize = 1;
    while i < sorted.len()
        invariant
            1 <= i <= sorted@.len(),
            sorted@ == spec_sort_roc(points@),
            forall|j: int| 0 <= j < sorted@.len() ==> roc_point_wf(#[trigger] sorted@[j]),
            acc == spec_trap_fold(sorted@, i as int - 1),
            num_wf(acc),
        decreases sorted@.len() - i,
    {
        let half = Num::Fin { num: 1, den: 2 };
        let dx = num_sub(sorted[i].x, sorted[i - 1].x);
        let ys = num_add(sorted[i - 1].y, sorted[i].y);
        let term = num_mul(num_mul(half, dx), ys);
        acc = num_add(acc, term);
        i = i + 1;
    }
    acc
}

/// The spec-level area under one model's ROC curve for a row set.
pub open spec fn spec_auc(rows: Seq<ClassRowV>, use_a: bool) -> Num {
    spec_auc_curve(spec_roc_curve(rows, use_a))
}

/// AUC per model, built atop the ROC sweep: generate both hundred-point
/// curves, stable-sort each by false-positive rate, and integrate by the
/// trapezoidal rule.
pub fn auc(rows: &Vec<ClassificationRow>) -> (r: (Num, Num))
    ensures
        r.0 == spec_auc(rows.deep_view(), true),
        r.1 == spec_auc(rows.deep_view(), false),
        num_wf(r.0),
        num_wf(r.1),
{
    let (ca, cb) = roc_curve(rows);
    (auc_of_curve(&ca), auc_of_curve(&cb))
}

} // verus!
