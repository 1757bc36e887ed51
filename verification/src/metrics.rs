//! Regression error statistics over parsed regression rows: MAE, MAPE and
//! MSE for both models.
//!
//! Each metric is a pure left-to-right reduction over the row sequence
//! followed by a division by the row count; zero rows give `0 / 0`, which is
//! `Nan`, not an error. MAPE uses a shared denominator: both models'
//! percentage errors divide by model A's prediction — a documented quirk
//! kept deliberately — and a zero denominator propagates an infinity or
//! `Nan` per the value semantics.

use vstd::prelude::*;

use crate::num::{
    num_abs, num_add, num_div, num_mul, num_sub, num_wf, spec_abs, spec_add, spec_div, spec_mul,
    spec_sub, Num, FIN_MAX,
};
use crate::rows::{reg_row_wf, RegressionRow};

verus! {

/// MAE contribution of one row: `|truth - pred|`.
pub open spec fn spec_mae_term(r: RegressionRow, use_a: bool) -> Num {
    spec_abs(
        spec_sub(
            r.truth,
            if use_a {
                r.pred_a
            } else {
                r.pred_b
            },
        ),
    )
}

/// MAPE contribution of one row: `|truth - pred| / predA` — model A's
/// prediction is the shared denominator for both models (a documented
/// quirk, kept deliberately).
pub open spec fn spec_mape_term(r: RegressionRow, use_a: bool) -> Num {
    spec_div(spec_mae_term(r, use_a), r.pred_a)
}

/// MSE contribution of one row: `(truth - pred)^2`.
pub open spec fn spec_mse_term(r: RegressionRow, use_a: bool) -> Num {
    let d = spec_sub(
        r.truth,
        if use_a {
            r.pred_a
        } else {
            r.pred_b
        },
    );
    spec_mul(d, d)
}

/// Left-to-right sum of MAE contributions.
pub open spec fn spec_mae_sum(rows: Seq<RegressionRow>, use_a: bool) -> Num
    decreases rows.len(),
{
    if rows.len() == 0 {
        Num::Fin { num: 0, den: 1 }
    } else {
        spec_add(spec_mae_sum(rows.drop_last(), use_a), spec_mae_term(rows.last(), use_a))
    }
}

/// Left-to-right sum of MAPE contributions.
pub open spec fn spec_mape_sum(rows: Seq<RegressionRow>, use_a: bool) -> Num
    decreases rows.len(),
{
    if rows.len() == 0 {
        Num::Fin { num: 0, den: 1 }
    } else {
        spec_add(spec_mape_sum(rows.drop_last(), use_a), spec_mape_term(rows.last(), use_a))
    }
}

/// Left-to-right sum of MSE contributions.
pub open spec fn spec_mse_sum(rows: Seq<RegressionRow>, use_a: bool) -> Num
    decreases rows.len(),
{
    if rows.len() == 0 {
        Num::Fin { num: 0, den: 1 }
    } else {
        spec_add(spec_mse_sum(rows.drop_last(), use_a), spec_mse_term(rows.last(), use_a))
    }
}

/// The row count as a value: `Nan` beyond the exact range.
pub open spec fn spec_count_num(n: int) -> Num
    recommends
        0 <= n,
{
    if n > FIN_MAX {
        Num::Nan
    } else {
        Num::Fin { num: n as i64, den: 1 }
    }
}

/// Mean absolute error of one model: the MAE sum over the row count.
pub open spec fn spec_mae(rows: Seq<RegressionRow>, use_a: bool) -> Num {
    spec_div(spec_mae_sum(rows, use_a), spec_count_num(rows.len() as int))
}

/// Mean absolute percentage error of one model: the MAPE sum times one
/// hundred, over the row count.
pub open spec fn spec_mape(rows: Seq<RegressionRow>, use_a: bool) -> Num {
    spec_div(
        spec_mul(spec_mape_sum(rows, use_a), Num::Fin { num: 100, den: 1 }),
        spec_count_num(rows.len() as int),
    )
}

/// Mean squared error of one model: the MSE sum over the row count.
pub open spec fn spec_mse(rows: Seq<RegressionRow>, use_a: bool) -> Num {
    spec_div(spec_mse_sum(rows, use_a), spec_count_num(rows.len() as int))
}

fn count_num(n: usize) -> (r: Num)
    ensures
        r == spec_count_num(n as int),
        num_wf(r),
{
    if n as u64 > FIN_MAX as u64 {
        Num::Nan
    } else {
        Num::Fin { num: n as i64, den: 1 }
    }
}

/// Mean absolute error per model, exactly as `spec_mae` describes; `Nan`
/// on an empty row set.
pub fn mae(rows: &Vec<RegressionRow>) -> (r: (Num, Num))
    requires
        forall|j: int| 0 <= j < rows@.len() ==> reg_row_wf(#[trigger] rows@[j]),
    ensures
        r.0 == spec_mae(rows@, true),
        r.1 == spec_mae(rows@, false),
        num_wf(r.0),
        num_wf(r.1),
{
    let mut sa = Num::Fin { num: 0, den: 1 };
    let mut sb = Num::Fin { num: 0, den: 1 };
    let mut i: usize = 0;
    while i < rows.len()
        invariant
            i <= rows@.len(),
            forall|j: int| 0 <= j < rows@.len() ==> reg_row_wf(#[trigger] rows@[j]),
            sa == spec_mae_sum(rows@.take(i as int), true),
            sb == spec_mae_sum(rows@.take(i as int), false),
            num_wf(sa),
            num_wf(sb),
        decreases rows@.len() - i,
    {
        let row = rows[i];
        proof {
            assert(rows@.take(i as int + 1).drop_last() =~= rows@.take(i as int));
            assert(rows@.take(i as int + 1).last() == rows@[i as int]);
        }
        sa = num_add(sa, num_abs(num_sub(row.truth, row.pred_a)));
        sb = num_add(sb, num_abs(num_sub(row.truth, row.pred_b)));
        i = i + 1;
    }
    proof {
        assert(rows@.take(rows@.len() as int) =~= rows@);
    }
    let n = count_num(rows.len());
    (num_div(sa, n), num_div(sb, n))
}

/// Mean absolute percentage error per model, exactly as `spec_mape`
/// describes, with the shared model-A denominator.
pub fn mape(rows: &Vec<RegressionRow>) -> (r: (Num, Num))
    requires
        forall|j: int| 0 <= j < rows@.len() ==> reg_row_wf(#[trigger] rows@[j]),
    ensures
        r.0 == spec_mape(rows@, true),
        r.1 == spec_mape(rows@, false),
        num_wf(r.0),
        num_wf(r.1),
{
    let mut sa = Num::Fin { num: 0, den: 1 };
    let mut sb = Num::Fin { num: 0, den: 1 };
    let mut i: usize = 0;
    while i < rows.len()
        invariant
            i <= rows@.len(),
            forall|j: int| 0 <= j < rows@.len() ==> reg_row_wf(#[trigger] rows@[j]),
            sa == spec_mape_sum(rows@.take(i as int), true),
            sb == spec_mape_sum(rows@.take(i as int), false),
            num_wf(sa),
            num_wf(sb),
        decreases rows@.len() - i,
    {
        let row = rows[i];
        proof {
            assert(rows@.take(i as int + 1).drop_last() =~= rows@.take(i as int));
            assert(rows@.take(i as int + 1).last() == rows@[i as int]);
        }
        sa = num_add(sa, num_div(num_abs(num_sub(row.truth, row.pred_a)), row.pred_a));
        sb = num_add(sb, num_div(num_abs(num_sub(row.truth, row.pred_b)), row.pred_a));
        i = i + 1;
    }
    proof {
        assert(rows@.take(rows@.len() as int) =~= rows@);
    }
    let n = count_num(rows.len());
    let hundred = Num::Fin { num: 100, den: 1 };
    (num_div(num_mul(sa, hundred), n), num_div(num_mul(sb, hundred), n))
}

/// Mean squared error per model, exactly as `spec_mse` describes; `Nan` on
/// an empty row set.
pub fn mse(rows: &Vec<RegressionRow>) -> (r: (Num, Num))
    requires
        forall|j: int| 0 <= j < rows@.len() ==> reg_row_wf(#[trigger] rows@[j]),
    ensures
        r.0 == spec_mse(rows@, true),
        r.1 == spec_mse(rows@, false),
        num_wf(r.0),
        num_wf(r.1),
{
    let mut sa = Num::Fin { num: 0, den: 1 };
    let mut sb = Num::Fin { num: 0, den: 1 };
    let mut i: usize = 0;
    while i < rows.len()
        invariant
            i <= rows@.len(),
            forall|j: int| 0 <= j < rows@.len() ==> reg_row_wf(#[trigger] rows@[j]),
            sa == spec_mse_sum(rows@.take(i as int), true),
            sb == spec_mse_sum(rows@.take(i as int), false),
            num_wf(sa),
            num_wf(sb),
        decreases rows@.len() - i,
    {
        let row = rows[i];
        proof {
            assert(rows@.take(i as int + 1).drop_last() =~= rows@.take(i as int));
            assert(rows@.take(i as int + 1).last() == rows@[i as int]);
        }
        let da = num_sub(row.truth, row.pred_a);
        let db = num_sub(row.truth, row.pred_b);
        sa = num_add(sa, num_mul(da, da));
        sb = num_add(sb, num_mul(db, db));
        i = i + 1;
    }
    proof {
        assert(rows@.take(rows@.len() as int) =~= rows@);
    }
    let n = count_num(rows.len());
    (num_div(sa, n), num_div(sb, n))
}

} // verus!
