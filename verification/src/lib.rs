//! Evaluation engine for two competing predictive models: confusion-matrix
//! construction, threshold-swept ROC curves, trapezoidal AUC, and regression
//! error statistics (MAE, MAPE, MSE), all over exact rational arithmetic.

pub mod auc;
pub mod csv_io;
pub mod laws;
pub mod matrix;
pub mod metrics;
pub mod num;
pub mod roc;
pub mod rows;

pub use auc::{auc, auc_of_curve};
pub use csv_io::{
    auc_from_text, classification_rows_from_text, confusion_matrix_from_text, headers_from_text,
    mae_from_text, mape_from_text, mse_from_text, regression_rows_from_text, roc_curve_from_text,
};
pub use matrix::{confusion_matrix, infer_label_set, threshold_matrix, ConfusionMatrix, LabelSet};
pub use metrics::{mae, mape, mse};
pub use num::{num_abs, num_add, num_div, num_eqv, num_ge, num_lt, num_mul, num_sub, Num};
pub use roc::{roc_curve, RocPoint};
pub use rows::{
    parse_classification_rows, parse_num, parse_regression_rows, ClassificationRow, EvalError,
    RegressionRow,
};
