//! Properties of the engine, stated and proved over the same spec
//! functions that the executable functions' contracts use.

use vstd::prelude::*;

use vstd::arithmetic::div_mod::{lemma_fundamental_div_mod, lemma_mod_bound};
use vstd::arithmetic::mul::lemma_mul_inequality;

use crate::auc::{
    lemma_insert_sorted_at, lemma_sort_roc_len, spec_auc, spec_sort_roc, spec_trap_fold,
};
use crate::matrix::{
    cm_zero, lemma_exact_cells_sum, spec_confusion, spec_exact_counted, spec_negative_label,
    spec_threshold_counts, CmV,
};
use crate::roc::{spec_rate, spec_roc_curve, spec_roc_point, RocPoint};
use crate::metrics::{
    spec_count_num, spec_mae, spec_mae_sum, spec_mae_term, spec_mse, spec_mse_sum, spec_mse_term,
};
use crate::num::{
    gcd_spec, lemma_spec_abs_props, lemma_spec_add_props, lemma_spec_div_props,
    lemma_spec_mul_props, lemma_spec_sub_wf, norm_spec, num_nonneg, num_wf, spec_add, spec_eqv,
    spec_ge, spec_lt, spec_mul, spec_neg, spec_sub, Num, FIN_MAX,
};
use crate::rows::{reg_row_wf, ClassRowV, RegressionRow};

verus! {

proof fn lemma_mae_sum_props(rows: Seq<RegressionRow>, use_a: bool)
    requires
        forall|j: int| 0 <= j < rows.len() ==> reg_row_wf(#[trigger] rows[j]),
    ensures
        num_wf(spec_mae_sum(rows, use_a)),
        num_nonneg(spec_mae_sum(rows, use_a)),
    decreases rows.len(),
{
    if rows.len() > 0 {
        let d = rows.drop_last();
        assert(forall|j: int| 0 <= j < d.len() ==> reg_row_wf(#[trigger] d[j]));
        lemma_mae_sum_props(d, use_a);
        let r = rows.last();
        assert(reg_row_wf(r));
        let p = if use_a {
            r.pred_a
        } else {
            r.pred_b
        };
        lemma_spec_sub_wf(r.truth, p);
        lemma_spec_abs_props(spec_sub(r.truth, p));
        lemma_spec_add_props(spec_mae_sum(d, use_a), spec_mae_term(r, use_a));
    }
}

proof fn lemma_mse_sum_props(rows: Seq<RegressionRow>, use_a: bool)
    requires
        forall|j: int| 0 <= j < rows.len() ==> reg_row_wf(#[trigger] rows[j]),
    ensures
        num_wf(spec_mse_sum(rows, use_a)),
        num_nonneg(spec_mse_sum(rows, use_a)),
    decreases rows.len(),
{
    if rows.len() > 0 {
        let d = rows.drop_last();
        assert(forall|j: int| 0 <= j < d.len() ==> reg_row_wf(#[trigger] d[j]));
        lemma_mse_sum_props(d, use_a);
        let r = rows.last();
        assert(reg_row_wf(r));
        let p = if use_a {
            r.pred_a
        } else {
            r.pred_b
        };
        lemma_spec_sub_wf(r.truth, p);
        lemma_spec_mul_props(spec_sub(r.truth, p), spec_sub(r.truth, p));
        lemma_spec_add_props(spec_mse_sum(d, use_a), spec_mse_term(r, use_a));
    }
}

/// MAE is non-negative for all well-formed inputs: it is never a negative
/// finite value and never negative infinity; degenerate inputs give `Nan`.
pub proof fn lemma_mae_nonneg(rows: Seq<RegressionRow>, use_a: bool)
    requires
        forall|j: int| 0 <= j < rows.len() ==> reg_row_wf(#[trigger] rows[j]),
    ensures
        num_nonneg(spec_mae(rows, use_a)),
{
    lemma_mae_sum_props(rows, use_a);
    if rows.len() <= FIN_MAX {
        lemma_spec_div_props(spec_mae_sum(rows, use_a), spec_count_num(rows.len() as int));
    }
}

/// MSE is non-negative for all well-formed inputs, in the same sense.
pub proof fn lemma_mse_nonneg(rows: Seq<RegressionRow>, use_a: bool)
    requires
        forall|j: int| 0 <= j < rows.len() ==> reg_row_wf(#[trigger] rows[j]),
    ensures
        num_nonneg(spec_mse(rows, use_a)),
{
    lemma_mse_sum_props(rows, use_a);
    if rows.len() <= FIN_MAX {
        lemma_spec_div_props(spec_mse_sum(rows, use_a), spec_count_num(rows.len() as int));
    }
}

proof fn lemma_zero_sums(rows: Seq<RegressionRow>, use_a: bool)
    requires
        forall|j: int| 0 <= j < rows.len() ==> reg_row_wf(#[trigger] rows[j]),
        forall|j: int| 0 <= j < rows.len() ==> (#[trigger] rows[j].truth) is Fin,
        forall|j: int|
            0 <= j < rows.len() ==> spec_eqv(
                if use_a {
                    (#[trigger] rows[j]).pred_a
                } else {
                    rows[j].pred_b
                },
                rows[j].truth,
            ),
    ensures
        spec_mae_sum(rows, use_a) == (Num::Fin { num: 0, den: 1 }),
        spec_mse_sum(rows, use_a) == (Num::Fin { num: 0, den: 1 }),
    decreases rows.len(),
{
    if rows.len() > 0 {
        let d = rows.drop_last();
        assert(forall|j: int| 0 <= j < d.len() ==> reg_row_wf(#[trigger] d[j]));
        assert(forall|j: int| 0 <= j < d.len() ==> (#[trigger] d[j].truth) is Fin);
        assert(forall|j: int|
            0 <= j < d.len() ==> spec_eqv(
                if use_a {
                    (#[trigger] d[j]).pred_a
                } else {
                    d[j].pred_b
                },
                d[j].truth,
            ));
        lemma_zero_sums(d, use_a);
        let r = rows.last();
        assert(reg_row_wf(r));
        assert(r.truth is Fin);
        let p = if use_a {
            r.pred_a
        } else {
            r.pred_b
        };
        assert(spec_eqv(p, r.truth));
        let diff = spec_sub(r.truth, p);
        assert(diff == (Num::Fin { num: 0, den: 1 })) by {
            let tn = r.truth->num;
            let td = r.truth->den;
            let pn = p->num;
            let pd = p->den;
            assert(spec_neg(p)->num as int == -(pn as int));
            assert(pn * td == tn * pd);
            assert((-(pn as int)) * td == -(pn * td)) by (nonlinear_arith);
            assert(tn * pd + (-(pn as int)) * td == 0);
        }
    }
}

/// For identical truth and prediction columns over a non-empty row set,
/// MAE and MSE are exactly zero.
pub proof fn lemma_metrics_zero_when_equal(rows: Seq<RegressionRow>, use_a: bool)
    requires
        1 <= rows.len() <= FIN_MAX,
        forall|j: int| 0 <= j < rows.len() ==> reg_row_wf(#[trigger] rows[j]),
        forall|j: int| 0 <= j < rows.len() ==> (#[trigger] rows[j].truth) is Fin,
        forall|j: int|
            0 <= j < rows.len() ==> spec_eqv(
                if use_a {
                    (#[trigger] rows[j]).pred_a
                } else {
                    rows[j].pred_b
                },
                rows[j].truth,
            ),
    ensures
        spec_mae(rows, use_a) == (Num::Fin { num: 0, den: 1 }),
        spec_mse(rows, use_a) == (Num::Fin { num: 0, den: 1 }),
{
    lemma_zero_sums(rows, use_a);
}

/// Building the exact-mode matrices is a pure function of the row
/// sequence: equal row sequences give identical matrices, so repeated
/// calls agree bit for bit.
pub proof fn lemma_confusion_deterministic(rows1: Seq<ClassRowV>, rows2: Seq<ClassRowV>)
    requires
        rows1 == rows2,
    ensures
        spec_confusion(rows1) == spec_confusion(rows2),
{
}

/// The four cells of each exact-mode matrix sum to the number of rows
/// whose predicted label matches one of the two observed class values;
/// rows matching neither are excluded. An empty row set gives zero
/// matrices.
pub proof fn lemma_confusion_cells_sum(rows: Seq<ClassRowV>)
    ensures
        rows.len() == 0 ==> spec_confusion(rows) == (cm_zero(), cm_zero()),
        rows.len() > 0 ==> {
            let pos = rows[0].truth;
            let neg = spec_negative_label(rows);
            let (ma, mb) = spec_confusion(rows);
            &&& ma.true_positive + ma.true_negative + ma.false_positive + ma.false_negative
                == spec_exact_counted(rows, pos, neg, true)
            &&& mb.true_positive + mb.true_negative + mb.false_positive + mb.false_negative
                == spec_exact_counted(rows, pos, neg, false)
            &&& 0 <= spec_exact_counted(rows, pos, neg, true) <= rows.len()
            &&& 0 <= spec_exact_counted(rows, pos, neg, false) <= rows.len()
        },
{
    if rows.len() > 0 {
        lemma_exact_cells_sum(rows, rows[0].truth, spec_negative_label(rows), true);
        lemma_exact_cells_sum(rows, rows[0].truth, spec_negative_label(rows), false);
    }
}


/// The model's predicted label in one row.
pub open spec fn model_label(r: ClassRowV, use_a: bool) -> Seq<u8> {
    if use_a {
        r.label_a
    } else {
        r.label_b
    }
}

/// The model's score in one row.
pub open spec fn model_score(r: ClassRowV, use_a: bool) -> Num {
    if use_a {
        r.score_a
    } else {
        r.score_b
    }
}

/// Number of rows whose predicted label equals the truth label.
pub open spec fn correct_count(rows: Seq<ClassRowV>, use_a: bool) -> int
    decreases rows.len(),
{
    if rows.len() == 0 {
        0
    } else {
        correct_count(rows.drop_last(), use_a) + if model_label(rows.last(), use_a)
            == rows.last().truth {
            1int
        } else {
            0int
        }
    }
}

/// Number of rows whose predicted label differs from the truth label.
pub open spec fn wrong_count(rows: Seq<ClassRowV>, use_a: bool) -> int
    decreases rows.len(),
{
    if rows.len() == 0 {
        0
    } else {
        wrong_count(rows.drop_last(), use_a) + if model_label(rows.last(), use_a)
            == rows.last().truth {
            0int
        } else {
            1int
        }
    }
}

proof fn lemma_counts_split(rows: Seq<ClassRowV>, use_a: bool)
    ensures
        0 <= correct_count(rows, use_a),
        0 <= wrong_count(rows, use_a),
        correct_count(rows, use_a) + wrong_count(rows, use_a) == rows.len(),
    decreases rows.len(),
{
    if rows.len() > 0 {
        lemma_counts_split(rows.drop_last(), use_a);
    }
}

proof fn lemma_counts_all_ge(rows: Seq<ClassRowV>, t: Num, use_a: bool, s: Num)
    requires
        forall|j: int| 0 <= j < rows.len() ==> model_score(#[trigger] rows[j], use_a) == s,
        spec_ge(s, t),
    ensures
        spec_threshold_counts(rows, t, use_a) == (CmV {
            true_positive: correct_count(rows, use_a),
            true_negative: 0,
            false_positive: wrong_count(rows, use_a),
            false_negative: 0,
        }),
    decreases rows.len(),
{
    if rows.len() > 0 {
        let d = rows.drop_last();
        assert(forall|j: int| 0 <= j < d.len() ==> model_score(#[trigger] d[j], use_a) == s);
        lemma_counts_all_ge(d, t, use_a, s);
        assert(model_score(rows[rows.len() - 1], use_a) == s);
    }
}

proof fn lemma_counts_all_lt(rows: Seq<ClassRowV>, t: Num, use_a: bool, s: Num)
    requires
        forall|j: int| 0 <= j < rows.len() ==> model_score(#[trigger] rows[j], use_a) == s,
        spec_lt(s, t),
        s is Fin,
        t is Fin,
    ensures
        spec_threshold_counts(rows, t, use_a) == (CmV {
            true_positive: 0,
            true_negative: correct_count(rows, use_a),
            false_positive: 0,
            false_negative: wrong_count(rows, use_a),
        }),
    decreases rows.len(),
{
    assert(!spec_ge(s, t));
    assert(spec_ge(t, s));
    if rows.len() > 0 {
        let d = rows.drop_last();
        assert(forall|j: int| 0 <= j < d.len() ==> model_score(#[trigger] d[j], use_a) == s);
        lemma_counts_all_lt(d, t, use_a, s);
        assert(model_score(rows[rows.len() - 1], use_a) == s);
    }
}

proof fn lemma_norm_equal(x: int)
    requires
        1 <= x,
    ensures
        norm_spec(x, x) == (Num::Fin { num: 1, den: 1 }),
{
    assert(x % x == 0 && x / x == 1) by (nonlinear_arith)
        requires
            1 <= x,
    ;
    assert(gcd_spec(x, x) == gcd_spec(x, x % x));
    assert(gcd_spec(x, 0) == x);
}

proof fn lemma_norm_twice(x: int)
    requires
        1 <= x,
    ensures
        norm_spec(2 * x, x) == (Num::Fin { num: 2, den: 1 }),
{
    assert(2 * x % x == 0 && (2 * x) / x == 2 && x % x == 0 && x / x == 1) by (nonlinear_arith)
        requires
            1 <= x,
    ;
    assert(gcd_spec(2 * x, x) == gcd_spec(x, 2 * x % x));
    assert(gcd_spec(x, 0) == x);
}

proof fn lemma_norm_one_two()
    ensures
        norm_spec(1, 2) == (Num::Fin { num: 1, den: 2 }),
{
    reveal_with_fuel(gcd_spec, 5);
    assert(gcd_spec(1, 2) == 1);
}

/// The sequence that holds `first` at the indexes below `m` and `second`
/// at the rest, `total` points in all.
pub open spec fn cluster_seq(first: RocPoint, second: RocPoint, m: int, total: int) -> Seq<
    RocPoint,
> {
    Seq::new(total as nat, |i: int| if i < m { first } else { second })
}

proof fn lemma_sort_two_cluster(a: RocPoint, b: RocPoint, k: int, m: int)
    requires
        0 <= k,
        0 <= m,
        spec_lt(b.x, a.x),
        !spec_lt(b.x, b.x),
        !spec_lt(a.x, a.x),
        !spec_lt(a.x, b.x),
    ensures
        spec_sort_roc(cluster_seq(a, b, k, k + m)) == cluster_seq(b, a, m, k + m),
    decreases k + m,
{
    let s = cluster_seq(a, b, k, k + m);
    if k + m == 0 {
        assert(spec_sort_roc(s) =~= cluster_seq(b, a, m, k + m));
    } else if m > 0 {
        assert(s.last() == b);
        assert(s.drop_last() =~= cluster_seq(a, b, k, k + m - 1));
        lemma_sort_two_cluster(a, b, k, m - 1);
        let sorted = cluster_seq(b, a, m - 1, k + m - 1);
        assert(forall|idx: int| m - 1 <= idx < sorted.len() ==> #[trigger] sorted[idx] == a);
        lemma_insert_sorted_at(b, sorted, m - 1);
        assert(insert_sorted_view(b, sorted, m - 1) =~= cluster_seq(b, a, m, k + m));
    } else {
        assert(s.last() == a);
        assert(s.drop_last() =~= cluster_seq(a, b, k - 1, k + m - 1));
        lemma_sort_two_cluster(a, b, k - 1, 0);
        let sorted = cluster_seq(b, a, 0, k - 1);
        assert(forall|idx: int| 0 <= idx < sorted.len() ==> #[trigger] sorted[idx] == a);
        lemma_insert_sorted_at(a, sorted, k - 1);
        assert(insert_sorted_view(a, sorted, k - 1) =~= cluster_seq(b, a, 0, k + m));
    }
}

/// The value `lemma_insert_sorted_at` gives for an insertion at `j`.
spec fn insert_sorted_view(p: RocPoint, s: Seq<RocPoint>, j: int) -> Seq<RocPoint> {
    s.subrange(0, j) + seq![p] + s.subrange(j, s.len() as int)
}

proof fn lemma_two_cluster_fold(w: int, c: int, k: int, m: int, i: int)
    requires
        1 <= w <= 0x7fff_ffff_ffff_ffff,
        1 <= c <= 0x7fff_ffff_ffff_ffff,
        1 <= k,
        1 <= m,
        0 <= i < k + m,
    ensures
        ({
            let one = RocPoint {
                x: Num::Fin { num: w as i64, den: w as i64 },
                y: Num::Fin { num: c as i64, den: c as i64 },
            };
            let zero = RocPoint {
                x: Num::Fin { num: 0, den: c as i64 },
                y: Num::Fin { num: 0, den: w as i64 },
            };
            spec_trap_fold(cluster_seq(zero, one, m, k + m), i) == if i < m {
                Num::Fin { num: 0, den: 1 }
            } else {
                Num::Fin { num: 1, den: 2 }
            }
        }),
    decreases i,
{
    let one = RocPoint {
        x: Num::Fin { num: w as i64, den: w as i64 },
        y: Num::Fin { num: c as i64, den: c as i64 },
    };
    let zero = RocPoint {
        x: Num::Fin { num: 0, den: c as i64 },
        y: Num::Fin { num: 0, den: w as i64 },
    };
    let s = cluster_seq(zero, one, m, k + m);
    if i > 0 {
        lemma_two_cluster_fold(w, c, k, m, i - 1);
        lemma_norm_one_two();
        if i < m {
            assert(s[i] == zero && s[i - 1] == zero);
        } else if i == m {
            assert(s[i] == one && s[i - 1] == zero);
            assert(w * c >= 1) by (nonlinear_arith)
                requires
                    1 <= w,
                    1 <= c,
            ;
            lemma_norm_equal(w * c);
            assert(spec_sub(one.x, zero.x) == (Num::Fin { num: 1, den: 1 }));
            assert(0 * c + c * w == w * c) by (nonlinear_arith);
            assert(spec_add(zero.y, one.y) == (Num::Fin { num: 1, den: 1 }));
        } else {
            assert(s[i] == one && s[i - 1] == one);
            assert((-(w as int)) * w == -(w * w) && w * w >= 1 && c * c >= 1 && c * c + c * c == 2
                * (c * c)) by (nonlinear_arith)
                requires
                    1 <= w,
                    1 <= c,
            ;
            assert(spec_sub(one.x, one.x) == (Num::Fin { num: 0, den: 1 }));
            lemma_norm_twice(c * c);
            assert(spec_add(one.y, one.y) == (Num::Fin { num: 2, den: 1 }));
        }
    }
}

/// With every score of one model equal — a random-guess signal — and the
/// row set holding at least one correct and one incorrect prediction, the
/// AUC of that model is exactly one half. The common score must lie on the
/// swept grid's range: at least 0 and below 99/100.
#[verifier::rlimit(50)]
pub proof fn lemma_auc_identical_scores(rows: Seq<ClassRowV>, use_a: bool, s: Num)
    requires
        1 <= rows.len() <= FIN_MAX,
        s is Fin,
        num_wf(s),
        forall|j: int| 0 <= j < rows.len() ==> model_score(#[trigger] rows[j], use_a) == s,
        spec_ge(s, Num::Fin { num: 0, den: 100 }),
        spec_lt(s, Num::Fin { num: 99, den: 100 }),
        1 <= correct_count(rows, use_a),
        1 <= wrong_count(rows, use_a),
    ensures
        spec_auc(rows, use_a) == (Num::Fin { num: 1, den: 2 }),
{
    let cc = correct_count(rows, use_a);
    let wc = wrong_count(rows, use_a);
    lemma_counts_split(rows, use_a);
    let sn = s->num as int;
    let sd = s->den as int;
    assert(sn >= 0);
    let q = (100 * sn) / sd;
    lemma_fundamental_div_mod(100 * sn, sd);
    lemma_mod_bound(100 * sn, sd);
    let r = (100 * sn) % sd;
    let k = q + 1;
    assert(q >= 0) by (nonlinear_arith)
        requires
            q == (100 * sn) / sd,
            0 <= 100 * sn,
            1 <= sd,
    ;
    assert(k <= 99) by {
        if q >= 99 {
            lemma_mul_inequality(99, q, sd);
            assert(100 * sn == sd * q + r);
            assert(sd * q == q * sd);
            assert(sn * 100 == 100 * sn);
            assert(false);
        }
    }
    let one = RocPoint {
        x: Num::Fin { num: wc as i64, den: wc as i64 },
        y: Num::Fin { num: cc as i64, den: cc as i64 },
    };
    let zero = RocPoint {
        x: Num::Fin { num: 0, den: cc as i64 },
        y: Num::Fin { num: 0, den: wc as i64 },
    };
    assert forall|n: int| 0 <= n < 100 implies spec_roc_point(rows, n, use_a) == (if n < k {
        one
    } else {
        zero
    }) by {
        let t = Num::Fin { num: n as i64, den: 100 };
        if n < k {
            lemma_mul_inequality(n, q, sd);
            assert(100 * sn == sd * q + r);
            assert(n * sd <= q * sd == sd * q);
            assert(sn * 100 == 100 * sn >= n * sd);
            assert(spec_ge(s, t));
            lemma_counts_all_ge(rows, t, use_a, s);
            assert(spec_rate(wc, 0) == one.x);
            assert(spec_rate(cc, 0) == one.y);
        } else {
            lemma_mul_inequality(q + 1, n, sd);
            assert(100 * sn == sd * q + r);
            assert((q + 1) * sd == q * sd + sd) by (nonlinear_arith);
            assert(q * sd == sd * q);
            assert(n * sd >= q * sd + sd > 100 * sn);
            assert(sn * 100 < n * sd);
            assert(spec_lt(s, t));
            lemma_counts_all_lt(rows, t, use_a, s);
            assert(spec_rate(0, cc) == zero.x);
            assert(spec_rate(0, wc) == zero.y);
        }
    }
    let curve = spec_roc_curve(rows, use_a);
    assert(curve =~= cluster_seq(one, zero, k, 100));
    assert(wc as i64 as int == wc && cc as i64 as int == cc);
    assert(wc * cc >= 1 && 0 * wc == 0 && 0 * cc == 0 && wc * wc >= 0) by (nonlinear_arith)
        requires
            1 <= wc,
            1 <= cc,
    ;
    assert(spec_lt(zero.x, one.x)) by {
        assert(0 * wc == 0 && wc * cc >= 1) by (nonlinear_arith)
            requires
                1 <= wc,
                1 <= cc,
        ;
    }
    assert(!spec_lt(zero.x, zero.x));
    assert(!spec_lt(one.x, one.x));
    assert(!spec_lt(one.x, zero.x)) by {
        assert(0 * wc == 0 && wc * cc >= 1) by (nonlinear_arith)
            requires
                1 <= wc,
                1 <= cc,
        ;
    }
    lemma_sort_two_cluster(one, zero, k, 100 - k);
    assert(spec_sort_roc(curve) == cluster_seq(zero, one, 100 - k, 100));
    lemma_two_cluster_fold(wc, cc, k, 100 - k, 99);
    lemma_sort_roc_len(curve);
}

} // verus!
