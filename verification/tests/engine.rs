use modeleval::{
    auc, auc_of_curve, classification_rows_from_text, confusion_matrix,
    confusion_matrix_from_text, headers_from_text, infer_label_set, mae, mae_from_text, mape, mse,
    num_eqv, parse_num, parse_regression_rows, regression_rows_from_text, roc_curve,
    threshold_matrix, ClassificationRow, EvalError, Num, RegressionRow, RocPoint,
};

fn fin(num: i64, den: i64) -> Num {
    Num::Fin { num, den }
}

fn crow(truth: &str, label_a: &str, score_a: Num, label_b: &str, score_b: Num) -> ClassificationRow {
    ClassificationRow {
        truth: truth.as_bytes().to_vec(),
        label_a: label_a.as_bytes().to_vec(),
        score_a,
        label_b: label_b.as_bytes().to_vec(),
        score_b,
    }
}

fn rrow(truth: Num, pred_a: Num, pred_b: Num) -> RegressionRow {
    RegressionRow { truth, pred_a, pred_b }
}

#[test]
fn confusion_matrix_scenario() {
    let rows = vec![
        crow("yes", "yes", fin(9, 10), "no", fin(4, 10)),
        crow("no", "no", fin(2, 10), "yes", fin(6, 10)),
    ];
    let (ma, mb) = confusion_matrix(&rows);
    assert_eq!(ma.true_positive, 1);
    assert_eq!(ma.true_negative, 1);
    assert_eq!(ma.false_positive, 0);
    assert_eq!(ma.false_negative, 0);
    assert_eq!(mb.true_positive, 0);
    assert_eq!(mb.true_negative, 0);
    assert_eq!(mb.false_positive, 1);
    assert_eq!(mb.false_negative, 1);
}

#[test]
fn confusion_matrix_from_text_scenario() {
    let text = "truth,labelA,scoreA,labelB,scoreB\nyes,yes,0.9,no,0.4\nno,no,0.2,yes,0.6\n";
    let (ma, mb) = confusion_matrix_from_text(text).unwrap();
    assert_eq!(ma.true_positive, 1);
    assert_eq!(ma.true_negative, 1);
    assert_eq!(ma.false_positive, 0);
    assert_eq!(ma.false_negative, 0);
    assert_eq!(mb.true_positive, 0);
    assert_eq!(mb.true_negative, 0);
    assert_eq!(mb.false_positive, 1);
    assert_eq!(mb.false_negative, 1);
}

#[test]
fn confusion_matrix_foreign_label_uncounted() {
    let rows = vec![
        crow("yes", "yes", fin(9, 10), "yes", fin(9, 10)),
        crow("no", "maybe", fin(2, 10), "no", fin(2, 10)),
    ];
    let (ma, mb) = confusion_matrix(&rows);
    let sum_a = ma.true_positive + ma.true_negative + ma.false_positive + ma.false_negative;
    let sum_b = mb.true_positive + mb.true_negative + mb.false_positive + mb.false_negative;
    assert_eq!(sum_a, 1);
    assert_eq!(sum_b, 2);
}

#[test]
fn confusion_matrix_idempotent() {
    let rows = vec![
        crow("yes", "yes", fin(9, 10), "no", fin(4, 10)),
        crow("no", "no", fin(2, 10), "yes", fin(6, 10)),
    ];
    let first = confusion_matrix(&rows);
    let second = confusion_matrix(&rows);
    assert_eq!(first, second);
}

#[test]
fn confusion_matrix_empty_rows_all_zero() {
    let rows: Vec<ClassificationRow> = Vec::new();
    let (ma, mb) = confusion_matrix(&rows);
    assert_eq!(ma.true_positive + ma.true_negative + ma.false_positive + ma.false_negative, 0);
    assert_eq!(mb.true_positive + mb.true_negative + mb.false_positive + mb.false_negative, 0);
}

#[test]
fn label_set_first_observed_is_positive() {
    let rows = vec![
        crow("cat", "cat", fin(1, 2), "dog", fin(1, 2)),
        crow("dog", "dog", fin(1, 2), "cat", fin(1, 2)),
    ];
    let ls = infer_label_set(&rows).unwrap();
    assert_eq!(ls.positive, b"cat".to_vec());
    assert_eq!(ls.negative, Some(b"dog".to_vec()));
}

#[test]
fn threshold_tie_counts_positive() {
    let rows = vec![crow("yes", "yes", fin(1, 2), "yes", fin(1, 2))];
    let (ma, _) = threshold_matrix(&rows, fin(1, 2));
    assert_eq!(ma.true_positive, 1);
    assert_eq!(ma.true_negative, 0);
}

#[test]
fn roc_curve_always_100_points() {
    let rows = vec![
        crow("yes", "yes", fin(9, 10), "no", fin(4, 10)),
        crow("no", "no", fin(2, 10), "yes", fin(6, 10)),
    ];
    let (ca, cb) = roc_curve(&rows);
    assert_eq!(ca.len(), 100);
    assert_eq!(cb.len(), 100);
    let none: Vec<ClassificationRow> = Vec::new();
    let (ea, eb) = roc_curve(&none);
    assert_eq!(ea.len(), 100);
    assert_eq!(eb.len(), 100);
}

#[test]
fn roc_point_rates_single_row() {
    let rows = vec![crow("yes", "yes", fin(9, 10), "yes", fin(9, 10))];
    let (ca, _) = roc_curve(&rows);
    // at threshold 0 the row is a true positive: TPR = 1/1, FPR = 0/0.
    assert_eq!(ca[0].y, fin(1, 1));
    assert_eq!(ca[0].x, Num::Nan);
}

#[test]
fn auc_random_guess_is_half() {
    // both models score every row identically; labels split the rows into
    // one correct and one incorrect prediction.
    let rows = vec![
        crow("yes", "yes", fin(1, 2), "yes", fin(1, 2)),
        crow("no", "yes", fin(1, 2), "yes", fin(1, 2)),
    ];
    let (a, b) = auc(&rows);
    assert!(num_eqv(a, fin(1, 2)));
    assert!(num_eqv(b, fin(1, 2)));
}

#[test]
fn auc_of_perfectly_separating_curve_is_one() {
    let points = vec![
        RocPoint { x: fin(0, 1), y: fin(1, 1) },
        RocPoint { x: fin(1, 1), y: fin(1, 1) },
    ];
    let a = auc_of_curve(&points);
    assert!(num_eqv(a, fin(1, 1)));
}

#[test]
fn auc_of_diagonal_curve_is_half() {
    let points = vec![
        RocPoint { x: fin(0, 1), y: fin(0, 1) },
        RocPoint { x: fin(1, 1), y: fin(1, 1) },
    ];
    let a = auc_of_curve(&points);
    assert!(num_eqv(a, fin(1, 2)));
}

#[test]
fn auc_sorts_by_x_before_integrating() {
    // the same diagonal handed in descending x order.
    let points = vec![
        RocPoint { x: fin(1, 1), y: fin(1, 1) },
        RocPoint { x: fin(0, 1), y: fin(0, 1) },
    ];
    let a = auc_of_curve(&points);
    assert!(num_eqv(a, fin(1, 2)));
}

#[test]
fn mae_mse_scenario() {
    let rows = vec![
        rrow(fin(10, 1), fin(12, 1), fin(8, 1)),
        rrow(fin(20, 1), fin(18, 1), fin(25, 1)),
    ];
    let (mae_a, mae_b) = mae(&rows);
    assert_eq!(mae_a, fin(2, 1));
    assert_eq!(mae_b, fin(7, 2));
    let (mse_a, mse_b) = mse(&rows);
    assert_eq!(mse_a, fin(4, 1));
    assert_eq!(mse_b, fin(29, 2));
}

#[test]
fn mape_uses_model_a_denominator_for_both() {
    let rows = vec![rrow(fin(10, 1), fin(20, 1), fin(5, 1))];
    let (mape_a, mape_b) = mape(&rows);
    // |10 - 20| / 20 * 100 = 50; |10 - 5| / 20 * 100 = 25 (model A's
    // prediction is the shared denominator).
    assert!(num_eqv(mape_a, fin(50, 1)));
    assert!(num_eqv(mape_b, fin(25, 1)));
}

#[test]
fn metrics_empty_rows_are_nan() {
    let rows: Vec<RegressionRow> = Vec::new();
    let (a, b) = mae(&rows);
    assert_eq!(a, Num::Nan);
    assert_eq!(b, Num::Nan);
    let (sa, sb) = mse(&rows);
    assert_eq!(sa, Num::Nan);
    assert_eq!(sb, Num::Nan);
}

#[test]
fn metrics_zero_for_identical_columns() {
    let rows = vec![
        rrow(fin(3, 1), fin(3, 1), fin(6, 2)),
        rrow(fin(-7, 2), fin(-7, 2), fin(-7, 2)),
    ];
    let (mae_a, mae_b) = mae(&rows);
    assert_eq!(mae_a, fin(0, 1));
    assert_eq!(mae_b, fin(0, 1));
    let (mse_a, mse_b) = mse(&rows);
    assert_eq!(mse_a, fin(0, 1));
    assert_eq!(mse_b, fin(0, 1));
}

#[test]
fn mape_zero_denominator_gives_infinity() {
    let rows = vec![rrow(fin(10, 1), fin(0, 1), fin(5, 1))];
    let (mape_a, _) = mape(&rows);
    assert_eq!(mape_a, Num::PosInf);
}

#[test]
fn parse_num_plain_decimals() {
    assert_eq!(parse_num(&b"0.9".to_vec()), Some(fin(9, 10)));
    assert_eq!(parse_num(&b"-1.25".to_vec()), Some(fin(-125, 100)));
    assert_eq!(parse_num(&b"+42".to_vec()), Some(fin(42, 1)));
    assert_eq!(parse_num(&b"1.".to_vec()), Some(fin(1, 1)));
    assert_eq!(parse_num(&b".5".to_vec()), Some(fin(5, 10)));
    assert_eq!(parse_num(&b"0".to_vec()), Some(fin(0, 1)));
}

#[test]
fn parse_num_rejects_bad_fields() {
    assert_eq!(parse_num(&b"".to_vec()), None);
    assert_eq!(parse_num(&b"-".to_vec()), None);
    assert_eq!(parse_num(&b".".to_vec()), None);
    assert_eq!(parse_num(&b"abc".to_vec()), None);
    assert_eq!(parse_num(&b"1e5".to_vec()), None);
    assert_eq!(parse_num(&b"1.2.3".to_vec()), None);
    // beyond the exact 64-bit range
    assert_eq!(parse_num(&b"9223372036854775808".to_vec()), None);
}

#[test]
fn field_count_mismatch_is_fatal() {
    let text = "truth,labelA,scoreA,labelB\nyes,yes,0.9,no\n";
    let r = classification_rows_from_text(text);
    assert_eq!(r.unwrap_err(), EvalError::FieldCountMismatch);
}

#[test]
fn numeric_parse_failure_is_fatal() {
    let text = "truth,labelA,scoreA,labelB,scoreB\nyes,yes,high,no,0.4\n";
    let r = classification_rows_from_text(text);
    assert_eq!(r.unwrap_err(), EvalError::NumericParseFailure);
    let reg = "truth,predA,predB\n1.0,2.0,oops\n";
    let r2 = regression_rows_from_text(reg);
    assert_eq!(r2.unwrap_err(), EvalError::NumericParseFailure);
}

#[test]
fn ragged_rows_are_field_count_mismatch() {
    let text = "truth,labelA,scoreA,labelB,scoreB\nyes,yes,0.9\n";
    let r = classification_rows_from_text(text);
    assert_eq!(r.unwrap_err(), EvalError::FieldCountMismatch);
}

#[test]
fn regression_rows_parse_in_order() {
    let recs = vec![
        vec![b"1.5".to_vec(), b"2.0".to_vec(), b"3.0".to_vec()],
        vec![b"-4".to_vec(), b"0.25".to_vec(), b"8".to_vec()],
    ];
    let rows = parse_regression_rows(&recs).unwrap();
    assert_eq!(rows.len(), 2);
    assert_eq!(rows[0].truth, fin(15, 10));
    assert_eq!(rows[1].pred_a, fin(25, 100));
    assert_eq!(rows[1].pred_b, fin(8, 1));
}

#[test]
fn mae_from_text_scenario() {
    let text = "truth,predA,predB\n10.0,12.0,8.0\n20.0,18.0,25.0\n";
    let (a, b) = mae_from_text(text).unwrap();
    assert!(num_eqv(a, fin(2, 1)));
    assert!(num_eqv(b, fin(7, 2)));
}

#[test]
fn headers_come_from_first_line() {
    let text = "truth,labelA,scoreA\nyes,yes,0.9\n";
    let h = headers_from_text(text).unwrap();
    assert_eq!(h, vec![b"truth".to_vec(), b"labelA".to_vec(), b"scoreA".to_vec()]);
}

#[test]
fn empty_text_gives_no_rows() {
    let r = classification_rows_from_text("").unwrap();
    assert!(r.is_empty());
}

#[test]
fn num_eqv_compares_values_not_representations() {
    assert!(num_eqv(fin(1, 2), fin(2, 4)));
    assert!(num_eqv(Num::Nan, Num::Nan));
    assert!(!num_eqv(fin(1, 2), fin(1, 3)));
    assert!(!num_eqv(Num::PosInf, Num::NegInf));
}

#[test]
fn mae_mse_nonnegative_for_negative_inputs() {
    let rows = vec![rrow(fin(-3, 1), fin(4, 1), fin(-10, 1))];
    let (mae_a, mae_b) = mae(&rows);
    assert_eq!(mae_a, fin(7, 1));
    assert_eq!(mae_b, fin(7, 1));
    let (mse_a, mse_b) = mse(&rows);
    assert_eq!(mse_a, fin(49, 1));
    assert_eq!(mse_b, fin(49, 1));
}
