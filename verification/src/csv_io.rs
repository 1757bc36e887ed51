//! The boundary with the tabular reader, and the text-level entry points.
//!
//! The csv crate turns raw text into records of fields; everything after
//! that split — value parsing, label-set inference, matrix building,
//! curves, metrics — is the verified engine. What the reader yields for a
//! given text is named by `csv_records_of` and `csv_headers_of`, and each
//! entry point's contract is exact over those names. The reader runs with
//! its default configuration, so the first line is a header row and
//! `csv_records_of` names the records after it; a record-level read error
//! (rows of unequal field counts) is reported as a `FieldCountMismatch`.

use vstd::prelude::*;

use crate::auc::{auc, spec_auc};
use crate::matrix::{cm_matches, confusion_matrix, spec_confusion, ConfusionMatrix};
use crate::metrics::{mae, mape, mse, spec_mae, spec_mape, spec_mse};
use crate::num::Num;
use crate::roc::{roc_curve, spec_roc_curve, RocPoint};
use crate::rows::{
    parse_classification_rows, parse_regression_rows, reg_row_wf, spec_parse_class, spec_parse_reg,
    ClassificationRow, EvalError, RegressionRow,
};

verus! {

/// What the csv reader yields for a text: the records after the header
/// row, each an ordered sequence of fields, or nothing when a record
/// cannot be read.
pub uninterp spec fn csv_records_of(s: Seq<char>) -> Option<Seq<Seq<Seq<u8>>>>;

/// The header row the csv reader yields for a text, when it can be read.
pub uninterp spec fn csv_headers_of(s: Seq<char>) -> Option<Seq<Seq<u8>>>;

/// Relies on csv::Reader::records with the default configuration: the
/// text's records after the header line, split into fields; a record-level
/// error (rows of unequal field counts) yields `None`. The result depends
/// on the text alone.
#[verifier::external_body]
fn csv_records(text: &str) -> (r: Option<Vec<Vec<Vec<u8>>>>)
    ensures
        (r is Some) == (csv_records_of(text@) is Some),
        r matches Some(v) ==> Some(v.deep_view()) == csv_records_of(text@),
{
    let mut reader = csv::ReaderBuilder::new().from_reader(text.as_bytes());
    let mut out: Vec<Vec<Vec<u8>>> = Vec::new();
    for record in reader.records() {
        match record {
            Ok(rec) => out.push(rec.iter().map(|f| f.as_bytes().to_vec()).collect()),
            Err(_) => return None,
        }
    }
    Some(out)
}

/// Relies on csv::Reader::headers with the default configuration: the
/// first row of the text, split into fields. The result depends on the
/// text alone.
#[verifier::external_body]
fn csv_headers(text: &str) -> (r: Option<Vec<Vec<u8>>>)
    ensures
        (r is Some) == (csv_headers_of(text@) is Some),
        r matches Some(v) ==> Some(v.deep_view()) == csv_headers_of(text@),
{
    let mut reader = csv::ReaderBuilder::new().from_reader(text.as_bytes());
    match reader.headers() {
        Ok(h) => Some(h.iter().map(|f| f.as_bytes().to_vec()).collect()),
        Err(_) => None,
    }
}

/// The header row of a csv text, as byte-string fields.
pub fn headers_from_text(text: &str) -> (r: Option<Vec<Vec<u8>>>)
    ensures
        (r is Some) == (csv_headers_of(text@) is Some),
        r matches Some(v) ==> Some(v.deep_view()) == csv_headers_of(text@),
{
    csv_headers(text)
}

/// Tokenize a csv text and parse its records as classification rows.
pub fn classification_rows_from_text(text: &str) -> (r: Result<Vec<ClassificationRow>, EvalError>)
    ensures
        csv_records_of(text@) is None ==> r == Err::<Vec<ClassificationRow>, EvalError>(
            EvalError::FieldCountMismatch,
        ),
        csv_records_of(text@) matches Some(recs) ==> {
            &&& (spec_parse_class(recs) matches Ok(rows) ==> (r matches Ok(v) && v.deep_view()
                == rows))
            &&& (spec_parse_class(recs) matches Err(e) ==> (r matches Err(e2) && e2 == e))
        },
{
    match csv_records(text) {
        None => Err(EvalError::FieldCountMismatch),
        Some(recs) => parse_classification_rows(&recs),
    }
}

/// Tokenize a csv text and parse its records as regression rows.
pub fn regression_rows_from_text(text: &str) -> (r: Result<Vec<RegressionRow>, EvalError>)
    ensures
        csv_records_of(text@) is None ==> r == Err::<Vec<RegressionRow>, EvalError>(
            EvalError::FieldCountMismatch,
        ),
        csv_records_of(text@) matches Some(recs) ==> {
            &&& (spec_parse_reg(recs) matches Ok(rows) ==> (r matches Ok(v) && v@ == rows))
            &&& (spec_parse_reg(recs) matches Err(e) ==> (r matches Err(e2) && e2 == e))
        },
        r matches Ok(v) ==> forall|j: int| 0 <= j < v@.len() ==> reg_row_wf(#[trigger] v@[j]),
{
    match csv_records(text) {
        None => Err(EvalError::FieldCountMismatch),
        Some(recs) => parse_regression_rows(&recs),
    }
}

/// Exact-mode confusion matrices for both models from a csv text: the
/// whole evaluation fails on the first rejected record, with no partial
/// result.
pub fn confusion_matrix_from_text(text: &str) -> (r: Result<
    (ConfusionMatrix, ConfusionMatrix),
    EvalError,
>)
    ensures
        csv_records_of(text@) is None ==> r == Err::<(ConfusionMatrix, ConfusionMatrix), EvalError>(
            EvalError::FieldCountMismatch,
        ),
        csv_records_of(text@) matches Some(recs) ==> {
            &&& (spec_parse_class(recs) matches Err(e) ==> (r matches Err(e2) && e2 == e))
            &&& (spec_parse_class(recs) matches Ok(rows) ==> (r matches Ok(v) && cm_matches(
                v.0,
                spec_confusion(rows).0,
            ) && cm_matches(v.1, spec_confusion(rows).1)))
        },
{
    match classification_rows_from_text(text) {
        Err(e) => Err(e),
        Ok(rows) => Ok(confusion_matrix(&rows)),
    }
}

/// Hundred-point ROC curves for both models from a csv text.
pub fn roc_curve_from_text(text: &str) -> (r: Result<(Vec<RocPoint>, Vec<RocPoint>), EvalError>)
    ensures
        csv_records_of(text@) is None ==> (r matches Err(e2) && e2
            == EvalError::FieldCountMismatch),
        csv_records_of(text@) matches Some(recs) ==> {
            &&& (spec_parse_class(recs) matches Err(e) ==> (r matches Err(e2) && e2 == e))
            &&& (spec_parse_class(recs) matches Ok(rows) ==> (r matches Ok(v) && v.0@
                == spec_roc_curve(rows, true) && v.1@ == spec_roc_curve(rows, false)))
        },
{
    match classification_rows_from_text(text) {
        Err(e) => Err(e),
        Ok(rows) => Ok(roc_curve(&rows)),
    }
}

/// AUC per model from a csv text, built atop the ROC sweep.
pub fn auc_from_text(text: &str) -> (r: Result<(Num, Num), EvalError>)
    ensures
        csv_records_of(text@) is None ==> r == Err::<(Num, Num), EvalError>(
            EvalError::FieldCountMismatch,
        ),
        csv_records_of(text@) matches Some(recs) ==> {
            &&& (spec_parse_class(recs) matches Err(e) ==> (r matches Err(e2) && e2 == e))
            &&& (spec_parse_class(recs) matches Ok(rows) ==> (r matches Ok(v) && v.0 == spec_auc(
                rows,
                true,
            ) && v.1 == spec_auc(rows, false)))
        },
{
    match classification_rows_from_text(text) {
        Err(e) => Err(e),
        Ok(rows) => Ok(auc(&rows)),
    }
}

/// MAE per model from a csv text of regression rows.
pub fn mae_from_text(text: &str) -> (r: Result<(Num, Num), EvalError>)
    ensures
        csv_records_of(text@) is None ==> r == Err::<(Num, Num), EvalError>(
            EvalError::FieldCountMismatch,
        ),
        csv_records_of(text@) matches Some(recs) ==> {
            &&& (spec_parse_reg(recs) matches Err(e) ==> (r matches Err(e2) && e2 == e))
            &&& (spec_parse_reg(recs) matches Ok(rows) ==> (r matches Ok(v) && v.0 == spec_mae(
                rows,
                true,
            ) && v.1 == spec_mae(rows, false)))
        },
{
    match regression_rows_from_text(text) {
        Err(e) => Err(e),
        Ok(rows) => Ok(mae(&rows)),
    }
}

/// MAPE per model from a csv text of regression rows, with the shared
/// model-A denominator (see the metric's own description).
pub fn mape_from_text(text: &str) -> (r: Result<(Num, Num), EvalError>)
    ensures
        csv_records_of(text@) is None ==> r == Err::<(Num, Num), EvalError>(
            EvalError::FieldCountMismatch,
        ),
        csv_records_of(text@) matches Some(recs) ==> {
            &&& (spec_parse_reg(recs) matches Err(e) ==> (r matches Err(e2) && e2 == e))
            &&& (spec_parse_reg(recs) matches Ok(rows) ==> (r matches Ok(v) && v.0 == spec_mape(
                rows,
                true,
            ) && v.1 == spec_mape(rows, false)))
        },
{
    match regression_rows_from_text(text) {
        Err(e) => Err(e),
        Ok(rows) => Ok(mape(&rows)),
    }
}

/// MSE per model from a csv text of regression rows.
pub fn mse_from_text(text: &str) -> (r: Result<(Num, Num), EvalError>)
    ensures
        csv_records_of(text@) is None ==> r == Err::<(Num, Num), EvalError>(
            EvalError::FieldCountMismatch,
        ),
        csv_records_of(text@) matches Some(recs) ==> {
            &&& (spec_parse_reg(recs) matches Err(e) ==> (r matches Err(e2) && e2 == e))
            &&& (spec_parse_reg(recs) matches Ok(rows) ==> (r matches Ok(v) && v.0 == spec_mse(
                rows,
                true,
            ) && v.1 == spec_mse(rows, false)))
        },
{
    match regression_rows_from_text(text) {
        Err(e) => Err(e),
        Ok(rows) => Ok(mse(&rows)),
    }
}

} // verus!
