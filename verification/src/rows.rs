//! The row model: validated, strongly typed rows for the two evaluation
//! modes, parsed from tokenized text records.
//!
//! A classification record has exactly five fields — truth label, model A's
//! label, model A's score, model B's label, model B's score — with the two
//! scores read as numbers. A regression record has exactly three numeric
//! fields: truth, model A's prediction, model B's prediction.
//!
//! Numeric fields use plain decimal notation: an optional sign, digits, and
//! an optional fractional part, with at least one digit in all. A field
//! outside that grammar, or one whose exact value does not fit the 64-bit
//! rational range, is a `NumericParseFailure`. A record of the wrong arity is
//! a `FieldCountMismatch`. Either failure is fatal to the whole parse: no
//! partial row sequence is returned.

use vstd::prelude::*;

use crate::num::{num_wf, Num, FIN_MAX};

verus! {

/// Why an evaluation input was rejected.
#[derive(Clone, Copy, PartialEq, Eq, Structural, Debug)]
pub enum EvalError {
    /// A record does not have the arity its mode expects, or the tabular
    /// reader could not split a line into fields at all.
    FieldCountMismatch,
    /// A field that must be numeric is not a decimal number in range.
    NumericParseFailure,
}

/// One classification row: a truth label and, per model, a predicted label
/// and a ranking score.
#[derive(Debug)]
pub struct ClassificationRow {
    pub truth: Vec<u8>,
    pub label_a: Vec<u8>,
    pub score_a: Num,
    pub label_b: Vec<u8>,
    pub score_b: Num,
}

/// The mathematical image of a classification row.
pub struct ClassRowV {
    pub truth: Seq<u8>,
    pub label_a: Seq<u8>,
    pub score_a: Num,
    pub label_b: Seq<u8>,
    pub score_b: Num,
}

impl View for ClassificationRow {
    type V = ClassRowV;

    open spec fn view(&self) -> ClassRowV {
        ClassRowV {
            truth: self.truth@,
            label_a: self.label_a@,
            score_a: self.score_a,
            label_b: self.label_b@,
            score_b: self.score_b,
        }
    }
}

impl DeepView for ClassificationRow {
    type V = ClassRowV;

    open spec fn deep_view(&self) -> ClassRowV {
        self.view()
    }
}

/// One regression row: the true value and both models' predictions.
#[derive(Clone, Copy, PartialEq, Eq, Structural, Debug)]
pub struct RegressionRow {
    pub truth: Num,
    pub pred_a: Num,
    pub pred_b: Num,
}

/// Both scores of a classification row are well-formed numbers.
pub open spec fn class_row_wf(r: ClassRowV) -> bool {
    num_wf(r.score_a) && num_wf(r.score_b)
}

/// All three values of a regression row are well-formed numbers.
pub open spec fn reg_row_wf(r: RegressionRow) -> bool {
    num_wf(r.truth) && num_wf(r.pred_a) && num_wf(r.pred_b)
}

/// ASCII decimal digit.
pub open spec fn is_digit(c: u8) -> bool {
    48 <= c <= 57
}

/// Number of consecutive digits of `s` starting at `i`.
pub open spec fn digits_len(s: Seq<u8>, i: int) -> int
    recommends
        0 <= i <= s.len(),
    decreases s.len() - i,
    when 0 <= i <= s.len()
{
    if i < s.len() && is_digit(s[i]) {
        1 + digits_len(s, i + 1)
    } else {
        0
    }
}

/// Value of the digit run `s[i .. j)` read in base ten.
pub open spec fn digits_val(s: Seq<u8>, i: int, j: int) -> int
    recommends
        0 <= i <= j <= s.len(),
    decreases j - i,
    when i <= j
{
    if i < j {
        digits_val(s, i, j - 1) * 10 + (s[j - 1] - 48)
    } else {
        0
    }
}

/// Ten to the `k`.
pub open spec fn pow10(k: int) -> int
    recommends
        0 <= k,
    decreases k,
    when 0 <= k
{
    if k <= 0 {
        1
    } else {
        10 * pow10(k - 1)
    }
}

/// The numeric grammar of a field: optional sign, an integer digit run, and
/// an optional `.` with a fractional digit run; at least one digit in all.
/// The exact value is `mantissa / 10^f` where `f` counts the fractional
/// digits; a value whose numerator or denominator exceeds the 64-bit range
/// is rejected.
pub open spec fn parse_num_spec(s: Seq<u8>) -> Option<Num> {
    let has_sign = s.len() > 0 && (s[0] == 43 || s[0] == 45);
    let neg = s.len() > 0 && s[0] == 45;
    let i0: int = if has_sign {
        1
    } else {
        0
    };
    let k1 = digits_len(s, i0);
    let p = i0 + k1;
    if p == s.len() {
        if k1 >= 1 && digits_val(s, i0, p) <= FIN_MAX {
            Some(
                Num::Fin {
                    num: if neg {
                        (-digits_val(s, i0, p)) as i64
                    } else {
                        digits_val(s, i0, p) as i64
                    },
                    den: 1,
                },
            )
        } else {
            None
        }
    } else if s[p] == 46 {
        let k2 = digits_len(s, p + 1);
        let mant = digits_val(s, i0, p) * pow10(k2) + digits_val(s, p + 1, s.len() as int);
        if p + 1 + k2 == s.len() && k1 + k2 >= 1 && mant <= FIN_MAX && pow10(k2) <= FIN_MAX {
            Some(
                Num::Fin {
                    num: if neg {
                        (-mant) as i64
                    } else {
                        mant as i64
                    },
                    den: pow10(k2) as i64,
                },
            )
        } else {
            None
        }
    } else {
        None
    }
}

proof fn lemma_digits_val_nonneg(s: Seq<u8>, i: int, j: int)
    requires
        0 <= i <= j <= s.len(),
        forall|k: int| i <= k < j ==> is_digit(s[k]),
    ensures
        0 <= digits_val(s, i, j),
    decreases j - i,
{
    if i < j {
        lemma_digits_val_nonneg(s, i, j - 1);
    }
}

proof fn lemma_digits_val_mono(s: Seq<u8>, i: int, k: int, j: int)
    requires
        0 <= i <= k <= j <= s.len(),
        forall|m: int| i <= m < j ==> is_digit(s[m]),
    ensures
        digits_val(s, i, k) <= digits_val(s, i, j),
    decreases j - k,
{
    if k < j {
        lemma_digits_val_mono(s, i, k, j - 1);
        lemma_digits_val_nonneg(s, i, j - 1);
    }
}

proof fn lemma_digits_val_upper(s: Seq<u8>, i: int, j: int)
    requires
        0 <= i <= j <= s.len(),
        forall|k: int| i <= k < j ==> is_digit(s[k]),
    ensures
        digits_val(s, i, j) < pow10(j - i),
    decreases j - i,
{
    if i < j {
        lemma_digits_val_upper(s, i, j - 1);
    }
}

proof fn lemma_pow10_pos(k: int)
    requires
        0 <= k,
    ensures
        1 <= pow10(k),
    decreases k,
{
    if k > 0 {
        lemma_pow10_pos(k - 1);
    }
}

proof fn lemma_pow10_mono(a: int, b: int)
    requires
        0 <= a <= b,
    ensures
        pow10(a) <= pow10(b),
    decreases b - a,
{
    if a < b {
        lemma_pow10_mono(a, b - 1);
        lemma_pow10_pos(b - 1);
    }
}

proof fn lemma_pow10_18()
    ensures
        pow10(17) == 0x16345785D8A0000,
        pow10(18) == 0xDE0B6B3A7640000,
{
    reveal_with_fuel(pow10, 20);
}

/// Scan the digit run of `s` starting at `from`; returns the index just
/// past it.
fn scan_digits(s: &Vec<u8>, from: usize) -> (p: usize)
    requires
        from <= s@.len(),
    ensures
        from <= p <= s@.len(),
        p - from == digits_len(s@, from as int),
        forall|k: int| from <= k < p ==> is_digit(s@[k]),
{
    let mut p = from;
    while p < s.len() && s[p] >= 48 && s[p] <= 57
        invariant
            from <= p <= s@.len(),
            digits_len(s@, from as int) == (p - from) + digits_len(s@, p as int),
            forall|k: int| from <= k < p ==> is_digit(s@[k]),
        decreases s@.len() - p,
    {
        p = p + 1;
    }
    p
}

/// Read the digit run `s[i .. j)` as a value, refusing one above `FIN_MAX`.
fn digits_to_val(s: &Vec<u8>, i: usize, j: usize) -> (r: Option<u64>)
    requires
        i <= j <= s@.len(),
        forall|k: int| i <= k < j ==> is_digit(s@[k]),
    ensures
        digits_val(s@, i as int, j as int) <= FIN_MAX ==> (r matches Some(v) && v as int
            == digits_val(s@, i as int, j as int)),
        digits_val(s@, i as int, j as int) > FIN_MAX ==> r is None,
{
    let mut acc: u64 = 0;
    let mut k = i;
    while k < j
        invariant
            i <= k <= j <= s@.len(),
            forall|m: int| i <= m < j ==> is_digit(s@[m]),
            acc as int == digits_val(s@, i as int, k as int),
            acc as int <= FIN_MAX,
        decreases j - k,
    {
        let d: u64 = (s[k] - 48) as u64;
        if acc > ((FIN_MAX as u64) - d) / 10 {
            proof {
                lemma_digits_val_nonneg(s@, i as int, k as int);
                assert(acc * 10 + d > FIN_MAX) by (nonlinear_arith)
                    requires
                        acc > ((FIN_MAX as u64) - d) / 10,
                        d <= 9,
                        FIN_MAX == 0x7fff_ffff_ffff_ffff,
                ;
                lemma_digits_val_mono(s@, i as int, k as int + 1, j as int);
            }
            return None;
        }
        proof {
            assert(acc * 10 + d <= FIN_MAX) by (nonlinear_arith)
                requires
                    acc <= ((FIN_MAX as u64) - d) / 10,
                    d <= 9,
                    FIN_MAX == 0x7fff_ffff_ffff_ffff,
            ;
        }
        acc = acc * 10 + d;
        k = k + 1;
    }
    Some(acc)
}

/// Ten to the `k` for `k <= 18`.
fn pow10_exec(k: usize) -> (r: u64)
    requires
        k <= 18,
    ensures
        r as int == pow10(k as int),
{
    let mut acc: u64 = 1;
    let mut i: usize = 0;
    proof {
        lemma_pow10_18();
    }
    while i < k
        invariant
            i <= k <= 18,
            acc as int == pow10(i as int),
            pow10(17) == 0x16345785D8A0000,
        decreases k - i,
    {
        proof {
            lemma_pow10_mono(i as int, 17);
        }
        acc = acc * 10;
        i = i + 1;
    }
    acc
}

/// Parse one numeric field exactly as `parse_num_spec` describes.
pub fn parse_num(s: &Vec<u8>) -> (r: Option<Num>)
    ensures
        r == parse_num_spec(s@),
        r matches Some(v) ==> num_wf(v),
{
    let len = s.len();
    let has_sign = len > 0 && (s[0] == 43 || s[0] == 45);
    let neg = len > 0 && s[0] == 45;
    let i0: usize = if has_sign {
        1
    } else {
        0
    };
    let p = scan_digits(s, i0);
    if p == len {
        if p == i0 {
            return None;
        }
        match digits_to_val(s, i0, p) {
            None => None,
            Some(v) => {
                proof {
                    lemma_digits_val_nonneg(s@, i0 as int, p as int);
                }
                let num: i64 = if neg {
                    -(v as i64)
                } else {
                    v as i64
                };
                Some(Num::Fin { num, den: 1 })
            },
        }
    } else if s[p] == 46 {
        let k2 = scan_digits(s, p + 1);
        proof {
            lemma_pow10_18();
            lemma_pow10_pos(k2 - p - 1);
        }
        if k2 != len {
            return None;
        }
        if p == i0 && k2 == p + 1 {
            return None;
        }
        if k2 - (p + 1) > 18 {
            proof {
                lemma_pow10_mono(19, k2 as int - p - 1);
                lemma_digits_val_nonneg(s@, i0 as int, p as int);
                lemma_digits_val_nonneg(s@, p as int + 1, len as int);
                assert(digits_val(s@, i0 as int, p as int) * pow10(k2 as int - p - 1) >= 0)
                    by (nonlinear_arith)
                    requires
                        digits_val(s@, i0 as int, p as int) >= 0,
                        pow10(k2 as int - p - 1) >= 1,
                ;
            }
            return None;
        }
        let den = pow10_exec(k2 - (p + 1));
        let iv = match digits_to_val(s, i0, p) {
            None => {
                proof {
                    let ghost f = k2 as int - p - 1;
                    lemma_digits_val_nonneg(s@, p as int + 1, len as int);
                    assert(digits_val(s@, i0 as int, p as int) * pow10(f) >= digits_val(
                        s@,
                        i0 as int,
                        p as int,
                    )) by (nonlinear_arith)
                        requires
                            digits_val(s@, i0 as int, p as int) > FIN_MAX,
                            pow10(f) >= 1,
                    ;
                }
                return None;
            },
            Some(v) => v,
        };
        let fv = match digits_to_val(s, p + 1, len) {
            None => {
                proof {
                    lemma_digits_val_upper(s@, p as int + 1, len as int);
                    lemma_pow10_mono(k2 as int - p - 1, 18);
                }
                return None;
            },
            Some(v) => v,
        };
        proof {
            lemma_digits_val_nonneg(s@, i0 as int, p as int);
            lemma_digits_val_nonneg(s@, p as int + 1, len as int);
            lemma_pow10_mono(k2 as int - p - 1, 18);
            assert((iv as int) * (den as int) <= 0x7fff_ffff_ffff_ffff * 0xDE0B6B3A7640000)
                by (nonlinear_arith)
                requires
                    0 <= iv as int <= 0x7fff_ffff_ffff_ffff,
                    0 <= den as int <= 0xDE0B6B3A7640000,
            ;
            assert((iv as int) * (den as int) >= 0) by (nonlinear_arith)
                requires
                    0 <= iv as int,
                    0 <= den as int,
            ;
        }
        let mant_wide: u128 = (iv as u128) * (den as u128) + (fv as u128);
        if mant_wide > FIN_MAX as u128 {
            return None;
        }
        let mant = mant_wide as u64;
        let num: i64 = if neg {
            -(mant as i64)
        } else {
            mant as i64
        };
        Some(Num::Fin { num, den: den as i64 })
    } else {
        None
    }
}

/// Compare two byte strings for equality.
pub fn bytes_eq(a: &Vec<u8>, b: &Vec<u8>) -> (r: bool)
    ensures
        r == (a@ == b@),
{
    if a.len() != b.len() {
        return false;
    }
    let mut i: usize = 0;
    while i < a.len()
        invariant
            a@.len() == b@.len(),
            i <= a@.len(),
            forall|j: int| 0 <= j < i ==> a@[j] == b@[j],
        decreases a@.len() - i,
    {
        if a[i] != b[i] {
            return false;
        }
        i = i + 1;
    }
    proof {
        assert(a@ =~= b@);
    }
    true
}

/// Copy a byte string.
pub fn copy_bytes(src: &Vec<u8>) -> (r: Vec<u8>)
    ensures
        r@ == src@,
{
    let mut out: Vec<u8> = Vec::new();
    let mut i: usize = 0;
    while i < src.len()
        invariant
            i <= src@.len(),
            out@ == src@.subrange(0, i as int),
        decreases src@.len() - i,
    {
        out.push(src[i]);
        i = i + 1;
        proof {
            assert(out@ =~= src@.subrange(0, i as int));
        }
    }
    proof {
        assert(src@.subrange(0, src@.len() as int) =~= src@);
    }
    out
}

/// How one tokenized record reads as a classification row.
pub open spec fn spec_parse_class_row(rec: Seq<Seq<u8>>) -> Result<ClassRowV, EvalError> {
    if rec.len() != 5 {
        Err(EvalError::FieldCountMismatch)
    } else {
        match (parse_num_spec(rec[2]), parse_num_spec(rec[4])) {
            (Some(sa), Some(sb)) => Ok(
                ClassRowV {
                    truth: rec[0],
                    label_a: rec[1],
                    score_a: sa,
                    label_b: rec[3],
                    score_b: sb,
                },
            ),
            _ => Err(EvalError::NumericParseFailure),
        }
    }
}

/// How a record sequence reads as classification rows: the rows in order,
/// or the error of the first rejected record.
pub open spec fn spec_parse_class(recs: Seq<Seq<Seq<u8>>>) -> Result<Seq<ClassRowV>, EvalError>
    decreases recs.len(),
{
    if recs.len() == 0 {
        Ok(Seq::empty())
    } else {
        match spec_parse_class_row(recs[0]) {
            Err(e) => Err(e),
            Ok(row) => match spec_parse_class(recs.drop_first()) {
                Err(e) => Err(e),
                Ok(rest) => Ok(seq![row] + rest),
            },
        }
    }
}

/// How one tokenized record reads as a regression row.
pub open spec fn spec_parse_reg_row(rec: Seq<Seq<u8>>) -> Result<RegressionRow, EvalError> {
    if rec.len() != 3 {
        Err(EvalError::FieldCountMismatch)
    } else {
        match (parse_num_spec(rec[0]), parse_num_spec(rec[1]), parse_num_spec(rec[2])) {
            (Some(t), Some(pa), Some(pb)) => Ok(RegressionRow { truth: t, pred_a: pa, pred_b: pb }),
            _ => Err(EvalError::NumericParseFailure),
        }
    }
}

/// How a record sequence reads as regression rows.
pub open spec fn spec_parse_reg(recs: Seq<Seq<Seq<u8>>>) -> Result<Seq<RegressionRow>, EvalError>
    decreases recs.len(),
{
    if recs.len() == 0 {
        Ok(Seq::empty())
    } else {
        match spec_parse_reg_row(recs[0]) {
            Err(e) => Err(e),
            Ok(row) => match spec_parse_reg(recs.drop_first()) {
                Err(e) => Err(e),
                Ok(rest) => Ok(seq![row] + rest),
            },
        }
    }
}

proof fn lemma_parse_class_split(recs: Seq<Seq<Seq<u8>>>, k: int)
    requires
        0 <= k <= recs.len(),
        forall|j: int| 0 <= j < k ==> spec_parse_class_row(#[trigger] recs[j]) is Ok,
    ensures
        k < recs.len() ==> (spec_parse_class_row(recs[k]) matches Err(e) ==> spec_parse_class(recs)
            == Err::<Seq<ClassRowV>, EvalError>(e)),
        (forall|j: int| 0 <= j < recs.len() ==> spec_parse_class_row(#[trigger] recs[j]) is Ok) && k
            == recs.len() ==> (spec_parse_class(recs) matches Ok(rows) && rows.len() == recs.len()
            && forall|j: int|
            0 <= j < recs.len() ==> rows[j] == spec_parse_class_row(#[trigger] recs[j])->Ok_0),
    decreases recs.len(),
{
    if recs.len() > 0 && spec_parse_class_row(recs[0]) is Ok {
        let rest = recs.drop_first();
        assert(forall|j: int| 0 <= j < rest.len() ==> #[trigger] rest[j] == recs[j + 1]);
        let k2: int = if k == 0 {
            0
        } else {
            k - 1
        };
        assert forall|j: int| 0 <= j < k2 implies spec_parse_class_row(#[trigger] rest[j]) is Ok by {
            assert(rest[j] == recs[j + 1]);
        }
        lemma_parse_class_split(rest, k2);
        if k < recs.len() && spec_parse_class_row(recs[k]) is Err && k > 0 {
            assert(rest[k - 1] == recs[k]);
        }
        if (forall|j: int| 0 <= j < recs.len() ==> spec_parse_class_row(#[trigger] recs[j]) is Ok)
            && k == recs.len() {
            assert(forall|j: int|
                0 <= j < rest.len() ==> spec_parse_class_row(#[trigger] rest[j]) is Ok);
            let rest_rows = spec_parse_class(rest)->Ok_0;
            let rows = spec_parse_class(recs)->Ok_0;
            assert(rows == seq![spec_parse_class_row(recs[0])->Ok_0] + rest_rows);
            assert forall|j: int|
                0 <= j < recs.len() implies rows[j] == spec_parse_class_row(
                #[trigger] recs[j],
            )->Ok_0 by {
                if j > 0 {
                    assert(rows[j] == rest_rows[j - 1]);
                    assert(rest[j - 1] == recs[j]);
                }
            }
        }
    }
}

proof fn lemma_parse_reg_split(recs: Seq<Seq<Seq<u8>>>, k: int)
    requires
        0 <= k <= recs.len(),
        forall|j: int| 0 <= j < k ==> spec_parse_reg_row(#[trigger] recs[j]) is Ok,
    ensures
        k < recs.len() ==> (spec_parse_reg_row(recs[k]) matches Err(e) ==> spec_parse_reg(recs)
            == Err::<Seq<RegressionRow>, EvalError>(e)),
        (forall|j: int| 0 <= j < recs.len() ==> spec_parse_reg_row(#[trigger] recs[j]) is Ok) && k
            == recs.len() ==> (spec_parse_reg(recs) matches Ok(rows) && rows.len() == recs.len()
            && forall|j: int|
            0 <= j < recs.len() ==> rows[j] == spec_parse_reg_row(#[trigger] recs[j])->Ok_0),
    decreases recs.len(),
{
    if recs.len() > 0 && spec_parse_reg_row(recs[0]) is Ok {
        let rest = recs.drop_first();
        assert(forall|j: int| 0 <= j < rest.len() ==> #[trigger] rest[j] == recs[j + 1]);
        let k2: int = if k == 0 {
            0
        } else {
            k - 1
        };
        assert forall|j: int| 0 <= j < k2 implies spec_parse_reg_row(#[trigger] rest[j]) is Ok by {
            assert(rest[j] == recs[j + 1]);
        }
        lemma_parse_reg_split(rest, k2);
        if k < recs.len() && spec_parse_reg_row(recs[k]) is Err && k > 0 {
            assert(rest[k - 1] == recs[k]);
        }
        if (forall|j: int| 0 <= j < recs.len() ==> spec_parse_reg_row(#[trigger] recs[j]) is Ok)
            && k == recs.len() {
            assert(forall|j: int|
                0 <= j < rest.len() ==> spec_parse_reg_row(#[trigger] rest[j]) is Ok);
            let rest_rows = spec_parse_reg(rest)->Ok_0;
            let rows = spec_parse_reg(recs)->Ok_0;
            assert(rows == seq![spec_parse_reg_row(recs[0])->Ok_0] + rest_rows);
            assert forall|j: int|
                0 <= j < recs.len() implies rows[j] == spec_parse_reg_row(
                #[trigger] recs[j],
            )->Ok_0 by {
                if j > 0 {
                    assert(rows[j] == rest_rows[j - 1]);
                    assert(rest[j - 1] == recs[j]);
                }
            }
        }
    }
}

/// Parse tokenized records into classification rows, exactly as
/// `spec_parse_class` describes: all rows in order, or the first record's
/// error and no partial result.
pub fn parse_classification_rows(records: &Vec<Vec<Vec<u8>>>) -> (r: Result<
    Vec<ClassificationRow>,
    EvalError,
>)
    ensures
        spec_parse_class(records.deep_view()) matches Ok(rows) ==> (r matches Ok(v)
            && v.deep_view() == rows),
        spec_parse_class(records.deep_view()) matches Err(e) ==> (r matches Err(e2) && e2 == e),
        r matches Ok(v) ==> forall|j: int| 0 <= j < v@.len() ==> class_row_wf(#[trigger] v@[j]@),
{
    let ghost recs = records.deep_view();
    let mut out: Vec<ClassificationRow> = Vec::new();
    let mut i: usize = 0;
    proof {
        assert(recs.len() == records@.len());
    }
    while i < records.len()
        invariant
            i <= records@.len(),
            recs == records.deep_view(),
            recs.len() == records@.len(),
            out@.len() == i,
            forall|j: int|
                0 <= j < i ==> spec_parse_class_row(#[trigger] recs[j]) is Ok,
            forall|j: int|
                0 <= j < i ==> #[trigger] out@[j]@ == spec_parse_class_row(recs[j])->Ok_0,
            forall|j: int| 0 <= j < i ==> class_row_wf(#[trigger] out@[j]@),
        decreases records@.len() - i,
    {
        let rec: &Vec<Vec<u8>> = &records[i];
        proof {
            assert(recs[i as int] == rec.deep_view());
            assert(rec.deep_view().len() == rec@.len());
        }
        if rec.len() != 5 {
            proof {
                lemma_parse_class_split(recs, i as int);
            }
            return Err(EvalError::FieldCountMismatch);
        }
        let sa = parse_num(&rec[2]);
        let sb = parse_num(&rec[4]);
        proof {
            assert(rec.deep_view()[2] == rec@[2]@);
            assert(rec.deep_view()[4] == rec@[4]@);
        }
        match (sa, sb) {
            (Some(score_a), Some(score_b)) => {
                let row = ClassificationRow {
                    truth: copy_bytes(&rec[0]),
                    label_a: copy_bytes(&rec[1]),
                    score_a,
                    label_b: copy_bytes(&rec[3]),
                    score_b,
                };
                proof {
                    assert(rec.deep_view()[0] == rec@[0]@);
                    assert(rec.deep_view()[1] == rec@[1]@);
                    assert(rec.deep_view()[3] == rec@[3]@);
                }
                out.push(row);
                i = i + 1;
            },
            _ => {
                proof {
                    lemma_parse_class_split(recs, i as int);
                }
                return Err(EvalError::NumericParseFailure);
            },
        }
    }
    proof {
        lemma_parse_class_split(recs, recs.len() as int);
        let rows = spec_parse_class(recs)->Ok_0;
        assert(forall|j: int| 0 <= j < out@.len() ==> #[trigger] out.deep_view()[j] == out@[j]@);
        assert(out.deep_view() =~= rows);
    }
    Ok(out)
}

/// Parse tokenized records into regression rows, exactly as
/// `spec_parse_reg` describes.
pub fn parse_regression_rows(records: &Vec<Vec<Vec<u8>>>) -> (r: Result<Vec<RegressionRow>, EvalError>)
    ensures
        spec_parse_reg(records.deep_view()) matches Ok(rows) ==> (r matches Ok(v) && v@ == rows),
        spec_parse_reg(records.deep_view()) matches Err(e) ==> (r matches Err(e2) && e2 == e),
        r matches Ok(v) ==> forall|j: int| 0 <= j < v@.len() ==> reg_row_wf(#[trigger] v@[j]),
{
    let ghost recs = records.deep_view();
    let mut out: Vec<RegressionRow> = Vec::new();
    let mut i: usize = 0;
    while i < records.len()
        invariant
            i <= records@.len(),
            recs == records.deep_view(),
            recs.len() == records@.len(),
            out@.len() == i,
            forall|j: int|
                0 <= j < i ==> spec_parse_reg_row(#[trigger] recs[j]) is Ok,
            forall|j: int|
                0 <= j < i ==> #[trigger] out@[j] == spec_parse_reg_row(recs[j])->Ok_0,
            forall|j: int| 0 <= j < i ==> reg_row_wf(#[trigger] out@[j]),
        decreases records@.len() - i,
    {
        let rec: &Vec<Vec<u8>> = &records[i];
        proof {
            assert(recs[i as int] == rec.deep_view());
            assert(rec.deep_view().len() == rec@.len());
        }
        if rec.len() != 3 {
            proof {
                lemma_parse_reg_split(recs, i as int);
            }
            return Err(EvalError::FieldCountMismatch);
        }
        let t = parse_num(&rec[0]);
        let pa = parse_num(&rec[1]);
        let pb = parse_num(&rec[2]);
        proof {
            assert(rec.deep_view()[0] == rec@[0]@);
            assert(rec.deep_view()[1] == rec@[1]@);
            assert(rec.deep_view()[2] == rec@[2]@);
        }
        match (t, pa, pb) {
            (Some(truth), Some(pred_a), Some(pred_b)) => {
                out.push(RegressionRow { truth, pred_a, pred_b });
                i = i + 1;
            },
            _ => {
                proof {
                    lemma_parse_reg_split(recs, i as int);
                }
                return Err(EvalError::NumericParseFailure);
            },
        }
    }
    proof {
        lemma_parse_reg_split(recs, recs.len() as int);
        let rows = spec_parse_reg(recs)->Ok_0;
        assert(out@ =~= rows);
    }
    Ok(out)
}

} // verus!
