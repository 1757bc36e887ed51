//! Confusion-matrix construction for both models over a shared row set.
//!
//! Exact mode compares each model's predicted label against the truth label,
//! with the positive class being the first truth value in row order and the
//! negative class the first truth value that differs from it. A row whose
//! predicted label matches neither class value is silently left out of every
//! bucket. When the truth column holds a single distinct value there is no
//! negative class, and only rows predicting the positive value are counted.
//!
//! Threshold mode calls a row predicted-positive when the model's score is
//! at least the threshold and predicted-negative otherwise (a score equal to
//! the threshold counts as positive); correctness is the model's own label
//! equalling the truth label. A score that compares with the threshold in
//! neither direction (`Nan`) leaves the row uncounted.

use vstd::prelude::*;

use crate::num::{num_ge, spec_ge, Num};
use crate::rows::{bytes_eq, copy_bytes, ClassRowV, ClassificationRow};

verus! {

/// Two-class prediction counts for one model over one row set.
#[derive(Clone, Copy, PartialEq, Eq, Structural, Debug)]
pub struct ConfusionMatrix {
    pub true_positive: u64,
    pub true_negative: u64,
    pub false_positive: u64,
    pub false_negative: u64,
}

/// The mathematical image of a confusion matrix.
pub struct CmV {
    pub true_positive: int,
    pub true_negative: int,
    pub false_positive: int,
    pub false_negative: int,
}

/// The matrix `m` holds exactly the counts `v`.
pub open spec fn cm_matches(m: ConfusionMatrix, v: CmV) -> bool {
    m.true_positive as int == v.true_positive && m.true_negative as int == v.true_negative
        && m.false_positive as int == v.false_positive && m.false_negative as int
        == v.false_negative
}

/// The all-zero counts.
pub open spec fn cm_zero() -> CmV {
    CmV { true_positive: 0, true_negative: 0, false_positive: 0, false_negative: 0 }
}

/// The two class values of an evaluation run: the positive class, and the
/// negative class when the truth column holds a second distinct value.
pub struct LabelSet {
    pub positive: Vec<u8>,
    pub negative: Option<Vec<u8>>,
}

/// The positive class: the truth value of the first row.
pub open spec fn spec_positive_label(rows: Seq<ClassRowV>) -> Option<Seq<u8>> {
    if rows.len() == 0 {
        None
    } else {
        Some(rows[0].truth)
    }
}

/// The first truth value at or after `i` that differs from `pos`.
pub open spec fn diff_from(rows: Seq<ClassRowV>, pos: Seq<u8>, i: int) -> Option<Seq<u8>>
    recommends
        0 <= i <= rows.len(),
    decreases rows.len() - i,
    when 0 <= i <= rows.len()
{
    if i >= rows.len() {
        None
    } else if rows[i].truth != pos {
        Some(rows[i].truth)
    } else {
        diff_from(rows, pos, i + 1)
    }
}

/// The negative class: the first truth value that differs from the
/// positive one, scanning in row order.
pub open spec fn spec_negative_label(rows: Seq<ClassRowV>) -> Option<Seq<u8>> {
    if rows.len() == 0 {
        None
    } else {
        diff_from(rows, rows[0].truth, 0)
    }
}

proof fn lemma_diff_from_ne(rows: Seq<ClassRowV>, pos: Seq<u8>, i: int)
    requires
        0 <= i <= rows.len(),
    ensures
        diff_from(rows, pos, i) matches Some(n) ==> n != pos,
    decreases rows.len() - i,
{
    if i < rows.len() && rows[i].truth == pos {
        lemma_diff_from_ne(rows, pos, i + 1);
    }
}

/// Exact-mode bucket rule for one row and one model: a predicted label equal
/// to a class value lands in that class's bucket, correct or not; any other
/// label leaves the counts unchanged.
pub open spec fn spec_exact_bucket(
    truth: Seq<u8>,
    label: Seq<u8>,
    pos: Seq<u8>,
    neg: Option<Seq<u8>>,
    m: CmV,
) -> CmV {
    if label == pos {
        if label == truth {
            CmV { true_positive: m.true_positive + 1, ..m }
        } else {
            CmV { false_positive: m.false_positive + 1, ..m }
        }
    } else if neg matches Some(n) && label == n {
        if label == truth {
            CmV { true_negative: m.true_negative + 1, ..m }
        } else {
            CmV { false_negative: m.false_negative + 1, ..m }
        }
    } else {
        m
    }
}

/// Exact-mode counts over a row sequence for one model.
pub open spec fn spec_exact_counts(
    rows: Seq<ClassRowV>,
    pos: Seq<u8>,
    neg: Option<Seq<u8>>,
    use_a: bool,
) -> CmV
    decreases rows.len(),
{
    if rows.len() == 0 {
        cm_zero()
    } else {
        let r = rows.last();
        spec_exact_bucket(
            r.truth,
            if use_a {
                r.label_a
            } else {
                r.label_b
            },
            pos,
            neg,
            spec_exact_counts(rows.drop_last(), pos, neg, use_a),
        )
    }
}

/// Exact-mode matrices for both models: empty input gives all-zero counts.
pub open spec fn spec_confusion(rows: Seq<ClassRowV>) -> (CmV, CmV) {
    match spec_positive_label(rows) {
        None => (cm_zero(), cm_zero()),
        Some(pos) => {
            let neg = spec_negative_label(rows);
            (spec_exact_counts(rows, pos, neg, true), spec_exact_counts(rows, pos, neg, false))
        },
    }
}

/// Number of rows whose predicted label matches one of the class values for
/// one model: exactly the rows the exact-mode buckets count.
pub open spec fn spec_exact_counted(
    rows: Seq<ClassRowV>,
    pos: Seq<u8>,
    neg: Option<Seq<u8>>,
    use_a: bool,
) -> int
    decreases rows.len(),
{
    if rows.len() == 0 {
        0
    } else {
        let r = rows.last();
        let label = if use_a {
            r.label_a
        } else {
            r.label_b
        };
        spec_exact_counted(rows.drop_last(), pos, neg, use_a) + if label == pos || (neg matches Some(
            n,
        )
            && label == n) {
            1int
        } else {
            0int
        }
    }
}

/// The four cells of an exact-mode matrix sum to the number of rows whose
/// predicted label matches one of the two observed class values; rows
/// matching neither are excluded from the sum.
pub proof fn lemma_exact_cells_sum(
    rows: Seq<ClassRowV>,
    pos: Seq<u8>,
    neg: Option<Seq<u8>>,
    use_a: bool,
)
    ensures
        ({
            let m = spec_exact_counts(rows, pos, neg, use_a);
            m.true_positive + m.true_negative + m.false_positive + m.false_negative
                == spec_exact_counted(rows, pos, neg, use_a)
        }),
        0 <= spec_exact_counted(rows, pos, neg, use_a) <= rows.len(),
        ({
            let m = spec_exact_counts(rows, pos, neg, use_a);
            0 <= m.true_positive && 0 <= m.true_negative && 0 <= m.false_positive && 0
                <= m.false_negative
        }),
    decreases rows.len(),
{
    if rows.len() > 0 {
        lemma_exact_cells_sum(rows.drop_last(), pos, neg, use_a);
    }
}

/// Threshold-mode bucket rule for one row and one model: predicted-positive
/// when the score is at least the threshold, predicted-negative otherwise;
/// correct when the model's own label equals the truth label. A score that
/// compares in neither direction leaves the counts unchanged.
pub open spec fn spec_threshold_bucket(
    truth: Seq<u8>,
    label: Seq<u8>,
    score: Num,
    t: Num,
    m: CmV,
) -> CmV {
    if spec_ge(score, t) {
        if label == truth {
            CmV { true_positive: m.true_positive + 1, ..m }
        } else {
            CmV { false_positive: m.false_positive + 1, ..m }
        }
    } else if spec_ge(t, score) {
        if label == truth {
            CmV { true_negative: m.true_negative + 1, ..m }
        } else {
            CmV { false_negative: m.false_negative + 1, ..m }
        }
    } else {
        m
    }
}

/// Threshold-mode counts over a row sequence for one model.
pub open spec fn spec_threshold_counts(rows: Seq<ClassRowV>, t: Num, use_a: bool) -> CmV
    decreases rows.len(),
{
    if rows.len() == 0 {
        cm_zero()
    } else {
        let r = rows.last();
        spec_threshold_bucket(
            r.truth,
            if use_a {
                r.label_a
            } else {
                r.label_b
            },
            if use_a {
                r.score_a
            } else {
                r.score_b
            },
            t,
            spec_threshold_counts(rows.drop_last(), t, use_a),
        )
    }
}

/// Threshold-mode matrices for both models.
pub open spec fn spec_threshold_matrices(rows: Seq<ClassRowV>, t: Num) -> (CmV, CmV) {
    (spec_threshold_counts(rows, t, true), spec_threshold_counts(rows, t, false))
}

/// The cells of a threshold-mode matrix are non-negative and sum to at most
/// the row count (a `Nan` score leaves its row out of every bucket).
pub proof fn lemma_threshold_cells_bound(rows: Seq<ClassRowV>, t: Num, use_a: bool)
    ensures
        ({
            let m = spec_threshold_counts(rows, t, use_a);
            0 <= m.true_positive && 0 <= m.true_negative && 0 <= m.false_positive && 0
                <= m.false_negative && m.true_positive + m.true_negative + m.false_positive
                + m.false_negative <= rows.len()
        }),
    decreases rows.len(),
{
    if rows.len() > 0 {
        lemma_threshold_cells_bound(rows.drop_last(), t, use_a);
    }
}

/// Infer the class values from the truth column: the first truth value is
/// the positive class, and the first differing truth value, if any, the
/// negative class.
pub fn infer_label_set(rows: &Vec<ClassificationRow>) -> (r: Option<LabelSet>)
    ensures
        (r is Some) == (rows@.len() > 0),
        r matches Some(ls) ==> {
            &&& Some(ls.positive@) == spec_positive_label(rows.deep_view())
            &&& (ls.negative is Some) == (spec_negative_label(rows.deep_view()) is Some)
            &&& (ls.negative matches Some(n) ==> Some(n@) == spec_negative_label(rows.deep_view()))
            &&& (ls.negative matches Some(n) ==> n@ != ls.positive@)
        },
{
    let ghost rv = rows.deep_view();
    proof {
        assert(rv.len() == rows@.len());
    }
    if rows.len() == 0 {
        return None;
    }
    let positive = copy_bytes(&rows[0].truth);
    proof {
        assert(rv[0] == rows@[0]@);
    }
    let mut i: usize = 0;
    let mut negative: Option<Vec<u8>> = None;
    while i < rows.len()
        invariant
            i <= rows@.len(),
            rv == rows.deep_view(),
            rv.len() == rows@.len(),
            rv.len() > 0,
            positive@ == rv[0].truth,
            negative is None,
            diff_from(rv, positive@, 0) == diff_from(rv, positive@, i as int),
        decreases rows@.len() - i,
    {
        proof {
            assert(rv[i as int] == rows@[i as int]@);
        }
        if !bytes_eq(&rows[i].truth, &positive) {
            negative = Some(copy_bytes(&rows[i].truth));
            proof {
                lemma_diff_from_ne(rv, positive@, 0);
            }
            return Some(LabelSet { positive, negative });
        }
        i = i + 1;
    }
    Some(LabelSet { positive, negative: None })
}

/// Exact-mode confusion matrices for model A and model B, exactly as
/// `spec_confusion` describes; the second member of each returned pair
/// follows `lemma_exact_cells_sum`, so each matrix's cells sum to at most
/// the row count.
pub fn confusion_matrix(rows: &Vec<ClassificationRow>) -> (r: (ConfusionMatrix, ConfusionMatrix))
    ensures
        cm_matches(r.0, spec_confusion(rows.deep_view()).0),
        cm_matches(r.1, spec_confusion(rows.deep_view()).1),
{
    let ghost rv = rows.deep_view();
    proof {
        assert(rv.len() == rows@.len());
    }
    let ls = match infer_label_set(rows) {
        None => {
            let zero = ConfusionMatrix {
                true_positive: 0,
                true_negative: 0,
                false_positive: 0,
                false_negative: 0,
            };
            return (zero, zero);
        },
        Some(ls) => ls,
    };
    let ghost pos = spec_positive_label(rv)->Some_0;
    let ghost neg = spec_negative_label(rv);
    let mut ma = ConfusionMatrix {
        true_positive: 0,
        true_negative: 0,
        false_positive: 0,
        false_negative: 0,
    };
    let mut mb = ConfusionMatrix {
        true_positive: 0,
        true_negative: 0,
        false_positive: 0,
        false_negative: 0,
    };
    let mut i: usize = 0;
    while i < rows.len()
        invariant
            i <= rows@.len(),
            rv == rows.deep_view(),
            rv.len() == rows@.len(),
            rv.len() > 0,
            ls.positive@ == pos,
            Some(pos) == spec_positive_label(rv),
            (ls.negative is Some) == (neg is Some),
            ls.negative matches Some(n) ==> Some(n@) == neg,
            neg == spec_negative_label(rv),
            cm_matches(ma, spec_exact_counts(rv.take(i as int), pos, neg, true)),
            cm_matches(mb, spec_exact_counts(rv.take(i as int), pos, neg, false)),
            ma.true_positive + ma.true_negative + ma.false_positive + ma.false_negative <= i,
            mb.true_positive + mb.true_negative + mb.false_positive + mb.false_negative <= i,
        decreases rows@.len() - i,
    {
        let row = &rows[i];
        proof {
            assert(rv[i as int] == rows@[i as int]@);
            assert(rv.take(i as int + 1).drop_last() =~= rv.take(i as int));
            assert(rv.take(i as int + 1).last() == rv[i as int]);
        }
        let pos_a = bytes_eq(&row.label_a, &ls.positive);
        let cor_a = bytes_eq(&row.label_a, &row.truth);
        let neg_a = match &ls.negative {
            Some(n) => bytes_eq(&row.label_a, n),
            None => false,
        };
        if pos_a {
            if cor_a {
                ma.true_positive = ma.true_positive + 1;
            } else {
                ma.false_positive = ma.false_positive + 1;
            }
        } else if neg_a {
            if cor_a {
                ma.true_negative = ma.true_negative + 1;
            } else {
                ma.false_negative = ma.false_negative + 1;
            }
        }
        let pos_b = bytes_eq(&row.label_b, &ls.positive);
        let cor_b = bytes_eq(&row.label_b, &row.truth);
        let neg_b = match &ls.negative {
            Some(n) => bytes_eq(&row.label_b, n),
            None => false,
        };
        if pos_b {
            if cor_b {
                mb.true_positive = mb.true_positive + 1;
            } else {
                mb.false_positive = mb.false_positive + 1;
            }
        } else if neg_b {
            if cor_b {
                mb.true_negative = mb.true_negative + 1;
            } else {
                mb.false_negative = mb.false_negative + 1;
            }
        }
        i = i + 1;
    }
    proof {
        assert(rv.take(rv.len() as int) =~= rv);
    }
    (ma, mb)
}

/// Threshold-mode confusion matrices for model A and model B at threshold
/// `t`, exactly as `spec_threshold_matrices` describes.
pub fn threshold_matrix(rows: &Vec<ClassificationRow>, t: Num) -> (r: (
    ConfusionMatrix,
    ConfusionMatrix,
))
    ensures
        cm_matches(r.0, spec_threshold_matrices(rows.deep_view(), t).0),
        cm_matches(r.1, spec_threshold_matrices(rows.deep_view(), t).1),
        rows@.len() <= usize::MAX,
        r.0.true_positive + r.0.true_negative + r.0.false_positive + r.0.false_negative
            <= rows@.len(),
        r.1.true_positive + r.1.true_negative + r.1.false_positive + r.1.false_negative
            <= rows@.len(),
{
    let ghost n_bound = rows.len();
    let ghost rv = rows.deep_view();
    proof {
        assert(rv.len() == rows@.len());
    }
    let mut ma = ConfusionMatrix {
        true_positive: 0,
        true_negative: 0,
        false_positive: 0,
        false_negative: 0,
    };
    let mut mb = ConfusionMatrix {
        true_positive: 0,
        true_negative: 0,
        false_positive: 0,
        false_negative: 0,
    };
    let mut i: usize = 0;
    while i < rows.len()
        invariant
            i <= rows@.len(),
            rv == rows.deep_view(),
            rv.len() == rows@.len(),
            cm_matches(ma, spec_threshold_counts(rv.take(i as int), t, true)),
            cm_matches(mb, spec_threshold_counts(rv.take(i as int), t, false)),
            ma.true_positive + ma.true_negative + ma.false_positive + ma.false_negative <= i,
            mb.true_positive + mb.true_negative + mb.false_positive + mb.false_negative <= i,
        decreases rows@.len() - i,
    {
        let row = &rows[i];
        proof {
            assert(rv[i as int] == rows@[i as int]@);
            assert(rv.take(i as int + 1).drop_last() =~= rv.take(i as int));
            assert(rv.take(i as int + 1).last() == rv[i as int]);
        }
        let cor_a = bytes_eq(&row.label_a, &row.truth);
        if num_ge(row.score_a, t) {
            if cor_a {
                ma.true_positive = ma.true_positive + 1;
            } else {
                ma.false_positive = ma.false_positive + 1;
            }
        } else if num_ge(t, row.score_a) {
            if cor_a {
                ma.true_negative = ma.true_negative + 1;
            } else {
                ma.false_negative = ma.false_negative + 1;
            }
        }
        let cor_b = bytes_eq(&row.label_b, &row.truth);
        if num_ge(row.score_b, t) {
            if cor_b {
                mb.true_positive = mb.true_positive + 1;
            } else {
                mb.false_positive = mb.false_positive + 1;
            }
        } else if num_ge(t, row.score_b) {
            if cor_b {
                mb.true_negative = mb.true_negative + 1;
            } else {
                mb.false_negative = mb.false_negative + 1;
            }
        }
        i = i + 1;
    }
    proof {
        assert(rv.take(rv.len() as int) =~= rv);
    }
    (ma, mb)
}

} // verus!
