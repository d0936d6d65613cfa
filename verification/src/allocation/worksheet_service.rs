//! Arithmetic of the user-authored rebalancing worksheet: line quantities and
//! amounts, classification exposures, funding, denominators, percentages,
//! constraint matching, warnings and the source fingerprint.

use vstd::prelude::*;
use crate::decimal::{
    Dec, dec_add, dec_sub, dec_mul, dec_div, dec_lt, dec_le, dec_floor, dec_fract, dec_round,
    dec_to_i32, dec_to_string, dec_normalize, spec_add, spec_sub, spec_mul, spec_div,
    floor_units, trunc_units, round_half_even_units, decimal_text, decimal_normalized, unit,
    trunc_to_integer, lemma_units_sign, dec_from_int,
};
use crate::text::str_eq;
use crate::allocation::model::{
    AllocationTargetConstraint, AllocationWorksheetLineInput, ConstraintAction, ConstraintSubjectType,
    WorksheetCategoryExposure, WorksheetDirection, WorksheetInputMode, WorksheetWarning, WorksheetWarningKind,
};

verus! {

/// The id of the residual category that holds unclassified exposure.
pub const UNKNOWN_CATEGORY_ID: &'static str = "__UNKNOWN__";

/// The display name of the residual category.
pub const UNKNOWN_CATEGORY_NAME: &'static str = "Unclassified exposure";

/// Why a worksheet calculation was refused.
#[derive(Clone, Debug)]
pub enum CoreError {
    /// The worksheet or its recorded data fail a validation rule.
    InvalidInput(String),
    /// A record the worksheet refers to does not exist.
    NotFound(String),
}

impl CoreError {
    pub open spec fn message(self) -> Seq<char> {
        match self {
            CoreError::InvalidInput(m) => m@,
            CoreError::NotFound(m) => m@,
        }
    }
}

pub open spec fn line_message(line_id: Seq<char>, message: Seq<char>) -> Seq<char> {
    "Worksheet line "@ + line_id + ": "@ + message
}

/// The fields of a holding the worksheet reads.
#[derive(Clone, Debug)]
pub struct Holding {
    pub id: String,
    pub account_id: String,
    /// The id of the held instrument, if the holding has one.
    pub instrument_id: Option<String>,
    pub is_cash: bool,
    pub quantity: Dec,
    /// The date the holding is as of, as ISO text.
    pub as_of_date: String,
    /// The market value in the base currency.
    pub market_value_base: Dec,
    pub price: Option<Dec>,
}

/// A classification of an asset into a category of a taxonomy.
#[derive(Clone, Debug)]
pub struct AssetTaxonomyAssignment {
    pub id: String,
    pub asset_id: String,
    pub taxonomy_id: String,
    pub category_id: String,
    /// Weight in basis points.
    pub weight: i32,
    pub source: String,
    /// The last update as RFC 3339 text.
    pub updated_at: String,
}

/// Worksheet arithmetic.  The services that load recorded data stay with
/// the caller; every computation on that data is here.
pub struct AllocationWorksheetService;

pub open spec fn sum_weights(assignments: Seq<AssetTaxonomyAssignment>) -> int
    decreases assignments.len(),
{
    if assignments.len() == 0 {
        0
    } else {
        sum_weights(assignments.drop_last()) + assignments.last().weight
    }
}

/// The exposure of a line to one category: `sign × amount × weight / 10000`.
pub open spec fn exposure_delta_spec(sign: Dec, amount: Dec, weight: i32) -> Option<Dec> {
    match spec_mul(sign, amount) {
        None => None,
        Some(x) => match spec_mul(x, dec_from_int(weight as int, 0)) {
            None => None,
            Some(y) => spec_div(y, dec_from_int(10000, 0)),
        },
    }
}

pub open spec fn direction_sign(direction: WorksheetDirection) -> Dec {
    match direction {
        WorksheetDirection::Increase => Dec::one_spec(),
        WorksheetDirection::Reduce => Dec::one_spec().neg_spec(),
    }
}

pub open spec fn kind_key(kind: WorksheetWarningKind) -> Seq<char> {
    match kind {
        WorksheetWarningKind::StaleQuote => "stalequote"@,
        WorksheetWarningKind::StaleFx => "stalefx"@,
        WorksheetWarningKind::PartialClassification => "partialclassification"@,
        WorksheetWarningKind::UnclassifiedAsset => "unclassifiedasset"@,
        WorksheetWarningKind::ExternalContribution => "externalcontribution"@,
        WorksheetWarningKind::BelowMinimumLine => "belowminimumline"@,
        WorksheetWarningKind::TurnoverExceeded => "turnoverexceeded"@,
        WorksheetWarningKind::AvoidConstraint => "avoidconstraint"@,
    }
}

pub open spec fn action_matches_spec(direction: WorksheetDirection, action: ConstraintAction) -> bool {
    action == ConstraintAction::Trade || (direction == WorksheetDirection::Increase && action == ConstraintAction::Buy) || (direction == WorksheetDirection::Reduce && action == ConstraintAction::Sell)
}

pub open spec fn constraint_matches_spec(
    constraint: AllocationTargetConstraint,
    line: AllocationWorksheetLineInput,
    exposures: Seq<WorksheetCategoryExposure>,
) -> bool {
    &&& action_matches_spec(line.direction, constraint.action)
    &&& match constraint.subject_type {
        ConstraintSubjectType::Asset => constraint.subject_id@ == line.asset_id@,
        ConstraintSubjectType::Account => constraint.subject_id@ == line.account_id@,
        ConstraintSubjectType::Category => exists|i: int| #![trigger exposures[i]] 0 <= i < exposures.len() && exposures[i].category_id@ == constraint.subject_id@,
    }
}

pub open spec fn resolved_quantity_and_amount_spec(
    line: AllocationWorksheetLineInput,
    unit_price: Dec,
    whole_shares_only: bool,
) -> Option<Result<(Dec, Dec), Seq<char>>> {
    if line.value.units() <= 0 {
        Some(Err(line_message(line.line_id@, "value must be positive"@)))
    } else if unit_price.units() <= 0 {
        Some(Err(line_message(line.line_id@, "resolved unit price must be positive"@)))
    } else {
        match line.input_mode {
            WorksheetInputMode::Amount => match spec_div(line.value, unit_price) {
                None => None,
                Some(ratio) => {
                    let quantity = if whole_shares_only { trunc_to_integer(ratio) } else { ratio };
                    if quantity.units() <= 0 {
                        Some(Err(line_message(line.line_id@, "amount is below one whole unit at the resolved price"@)))
                    } else {
                        match spec_mul(quantity, unit_price) {
                            None => None,
                            Some(amount) => Some(Ok((quantity, amount))),
                        }
                    }
                },
            },
            WorksheetInputMode::Quantity => if whole_shares_only && trunc_units(line.value.units()) != line.value.units() {
                Some(Err(line_message(line.line_id@, "quantity must be a whole number for this target"@)))
            } else {
                match spec_mul(line.value, unit_price) {
                    None => None,
                    Some(amount) => Some(Ok((line.value, amount))),
                }
            },
        }
    }
}


/// The content of a category exposure, texts as character sequences.
pub struct ExposureView {
    pub category_id: Seq<char>,
    pub category_name: Seq<char>,
    pub weight_bps: i32,
    pub value_delta: Dec,
    pub is_unclassified: bool,
}

pub open spec fn exposure_view(e: WorksheetCategoryExposure) -> ExposureView {
    ExposureView {
        category_id: e.category_id@,
        category_name: e.category_name@,
        weight_bps: e.weight_bps,
        value_delta: e.value_delta,
        is_unclassified: e.is_unclassified,
    }
}

pub open spec fn exposure_views(v: Seq<WorksheetCategoryExposure>) -> Seq<ExposureView> {
    v.map_values(|e: WorksheetCategoryExposure| exposure_view(e))
}

/// The name given to a category id: the last `(id, name)` pair with that
/// id, as a map built from the pairs in order keeps it.
pub open spec fn lookup_name(names: Seq<(String, String)>, id: Seq<char>) -> Option<Seq<char>>
    decreases names.len(),
{
    if names.len() == 0 {
        None
    } else if names.last().0@ == id {
        Some(names.last().1@)
    } else {
        lookup_name(names.drop_last(), id)
    }
}

/// The exposures of the classified part of a line, one per assignment.
pub open spec fn assignment_exposures(
    sign: Dec,
    amount: Dec,
    assignments: Seq<AssetTaxonomyAssignment>,
    names: Seq<(String, String)>,
) -> Option<Seq<ExposureView>>
    decreases assignments.len(),
{
    if assignments.len() == 0 {
        Some(Seq::empty())
    } else {
        match assignment_exposures(sign, amount, assignments.drop_last(), names) {
            None => None,
            Some(prefix) => {
                let a = assignments.last();
                match exposure_delta_spec(sign, amount, a.weight) {
                    None => None,
                    Some(delta) => Some(prefix.push(ExposureView {
                        category_id: a.category_id@,
                        category_name: match lookup_name(names, a.category_id@) {
                            Some(n) => n,
                            None => a.category_id@,
                        },
                        weight_bps: a.weight,
                        value_delta: delta,
                        is_unclassified: false,
                    })),
                }
            },
        }
    }
}

/// Every running total of the weights, and the residual `10000 - total`,
/// fits in an `i32`.
pub open spec fn weight_sums_fit(assignments: Seq<AssetTaxonomyAssignment>) -> bool {
    &&& forall|k: int| 0 <= k <= assignments.len() ==> i32::MIN <= #[trigger] sum_weights(assignments.take(k)) <= i32::MAX
    &&& 10000 - sum_weights(assignments) <= i32::MAX
}

pub open spec fn overclassified_message(total: i32) -> Option<Seq<char>> {
    match spec_div(dec_from_int(total as int, 0), dec_from_int(100, 0)) {
        None => None,
        Some(pct) => Some("classification weights total "@ + decimal_text(pct@) + "% and cannot exceed 100%; edit the security classification before calculating"@),
    }
}

pub open spec fn category_exposures_spec(
    line: AllocationWorksheetLineInput,
    amount: Dec,
    assignments: Seq<AssetTaxonomyAssignment>,
    names: Seq<(String, String)>,
) -> Option<Result<Seq<ExposureView>, Seq<char>>> {
    let total = sum_weights(assignments);
    if total > 10000 {
        match overclassified_message(total as i32) {
            None => None,
            Some(m) => Some(Err(line_message(line.line_id@, m))),
        }
    } else {
        let sign = direction_sign(line.direction);
        match assignment_exposures(sign, amount, assignments, names) {
            None => None,
            Some(classified) => if total < 10000 {
                let residual = (10000 - total) as i32;
                match exposure_delta_spec(sign, amount, residual) {
                    None => None,
                    Some(delta) => Some(Ok(classified.push(ExposureView {
                        category_id: UNKNOWN_CATEGORY_ID@,
                        category_name: UNKNOWN_CATEGORY_NAME@,
                        weight_bps: residual,
                        value_delta: delta,
                        is_unclassified: true,
                    }))),
                }
            } else {
                Some(Ok(classified))
            },
        }
    }
}

pub open spec fn sum_exposure_weights(v: Seq<ExposureView>) -> int
    decreases v.len(),
{
    if v.len() == 0 {
        0
    } else {
        sum_exposure_weights(v.drop_last()) + v.last().weight_bps
    }
}

/// `Ok` results as values, errors as their messages.
pub open spec fn result_matches<T>(r: Result<T, CoreError>, s: Result<T, Seq<char>>) -> bool {
    match (r, s) {
        (Ok(x), Ok(y)) => x == y,
        (Err(e), Err(m)) => e is InvalidInput && e.message() == m,
        _ => false,
    }
}

/// `value / total` in basis points, rounded half to even; zero when the
/// total is not positive or the rounded value leaves the range of `i32`.
pub open spec fn bps_spec(value: Dec, total: Dec) -> Option<i32> {
    if total.units() <= 0 {
        Some(0)
    } else {
        match spec_div(value, total) {
            None => None,
            Some(ratio) => match spec_mul(ratio, dec_from_int(10000, 0)) {
                None => None,
                Some(scaled) => {
                    let rounded = trunc_units(round_half_even_units(scaled.units()));
                    if (i32::MIN as int) * unit() <= rounded <= (i32::MAX as int) * unit() {
                        Some((rounded / unit()) as i32)
                    } else {
                        Some(0)
                    }
                },
            },
        }
    }
}

pub open spec fn funding_spec(tracked_cash: Dec, external: Dec, reduction: Dec) -> Option<Dec> {
    match spec_add(tracked_cash, external) {
        None => None,
        Some(x) => spec_add(x, reduction),
    }
}

pub open spec fn cash_remaining_spec(tracked_cash: Dec, external: Dec, increase: Dec, reduction: Dec) -> Option<Result<Dec, Seq<char>>> {
    match funding_spec(tracked_cash, external, reduction) {
        None => None,
        Some(funding) => if increase.units() > funding.units() {
            Some(Err("Worksheet increases ("@ + decimal_text(decimal_normalized(increase@)) + ") exceed selected cash and reduction proceeds ("@ + decimal_text(decimal_normalized(funding@)) + ")"@))
        } else {
            match spec_sub(funding, increase) {
                None => None,
                Some(remaining) => Some(Ok(remaining)),
            }
        },
    }
}

pub open spec fn projected_total_spec(current: Dec, external: Dec, increase: Dec, reduction: Dec, includes_cash: bool) -> Option<Dec> {
    if includes_cash {
        spec_add(current, external)
    } else {
        match spec_add(current, increase) {
            None => None,
            Some(x) => spec_sub(x, reduction),
        }
    }
}

// ---------------------------------------------------------------------------
// Fingerprint.
// ---------------------------------------------------------------------------

/// What `sha2::Sha256::digest` returns for a byte sequence (a name for the
/// result).
pub uninterp spec fn sha256_digest(data: Seq<u8>) -> Seq<u8>;

pub open spec fn hex_digit(n: u8) -> char {
    if n < 10 {
        (('0' as u8) + n) as char
    } else {
        (('a' as u8) + n - 10) as char
    }
}

/// `hex::encode`: two lower-case hexadecimal digits per byte, high nibble first.
pub open spec fn hex_lower(data: Seq<u8>) -> Seq<char>
    decreases data.len(),
{
    if data.len() == 0 {
        Seq::empty()
    } else {
        seq![hex_digit(data[0] / 16), hex_digit(data[0] % 16)] + hex_lower(data.drop_first())
    }
}

/// `sha2::Sha256::digest`: the digest is only named; it has 32 bytes.
#[verifier::external_body]
fn sha256(data: &[u8]) -> (r: Vec<u8>)
    ensures
        r@ == sha256_digest(data@),
        r@.len() == 32,
{
    <sha2::Sha256 as sha2::Digest>::digest(data).to_vec()
}

/// `hex::encode`: lower-case hexadecimal text of the bytes, as its
/// documentation shows.
#[verifier::external_body]
fn hex_encode(data: &[u8]) -> (r: String)
    ensures
        r@ == hex_lower(data@),
{
    hex::encode(data)
}

impl AllocationWorksheetService {
    pub fn new() -> (r: AllocationWorksheetService) {
        AllocationWorksheetService
    }

    /// A validation error with the given message.
    pub fn invalid(message: &str) -> (r: CoreError)
        ensures
            r is InvalidInput,
            r.message() == message@,
    {
        CoreError::InvalidInput(String::from_str(message))
    }

    /// A validation error about one worksheet line.
    pub fn line_invalid(line_id: &str, message: &str) -> (r: CoreError)
        ensures
            r is InvalidInput,
            r.message() == line_message(line_id@, message@),
    {
        let mut m = String::from_str("Worksheet line ");
        m.append(line_id);
        m.append(": ");
        m.append(message);
        CoreError::InvalidInput(m)
    }

    /// The asset a holding is of: its instrument, else the holding itself.
    pub fn asset_key(holding: &Holding) -> (r: String)
        ensures
            r@ == (match holding.instrument_id {
                Some(i) => i@,
                None => holding.id@,
            }),
    {
        match &holding.instrument_id {
            Some(i) => i.clone(),
            None => holding.id.clone(),
        }
    }

    /// A `Trade` constraint applies to both directions, `Buy` to increases,
    /// `Sell` to reductions.
    pub fn action_matches(direction: &WorksheetDirection, action: &ConstraintAction) -> (r: bool)
        ensures
            r == action_matches_spec(*direction, *action),
    {
        *action == ConstraintAction::Trade || (*direction == WorksheetDirection::Increase && *action == ConstraintAction::Buy) || (*direction == WorksheetDirection::Reduce && *action == ConstraintAction::Sell)
    }

    /// Whether a constraint applies to a line: its action matches the line's
    /// direction and its subject is the line's asset, the line's account, or
    /// a category the line is exposed to.
    pub fn constraint_matches(
        constraint: &AllocationTargetConstraint,
        line: &AllocationWorksheetLineInput,
        exposures: &[WorksheetCategoryExposure],
    ) -> (r: bool)
        ensures
            r == constraint_matches_spec(*constraint, *line, exposures@),
    {
        if !Self::action_matches(&line.direction, &constraint.action) {
            return false;
        }
        match constraint.subject_type {
            ConstraintSubjectType::Asset => str_eq(constraint.subject_id.as_str(), line.asset_id.as_str()),
            ConstraintSubjectType::Account => str_eq(constraint.subject_id.as_str(), line.account_id.as_str()),
            ConstraintSubjectType::Category => {
                let mut i: usize = 0;
                while i < exposures.len()
                    invariant
                        i <= exposures@.len(),
                        constraint.subject_type == ConstraintSubjectType::Category,
                        action_matches_spec(line.direction, constraint.action),
                        forall|j: int| 0 <= j < i ==> exposures@[j].category_id@ != constraint.subject_id@,
                    decreases exposures@.len() - i,
                {
                    if str_eq(exposures[i].category_id.as_str(), constraint.subject_id.as_str()) {
                        assert(exposures@[i as int].category_id@ == constraint.subject_id@);
                        return true;
                    }
                    i = i + 1;
                }
                false
            },
        }
    }

    fn kind_key(kind: WorksheetWarningKind) -> (r: &'static str)
        ensures
            r@ == kind_key(kind),
    {
        match kind {
            WorksheetWarningKind::StaleQuote => "stalequote",
            WorksheetWarningKind::StaleFx => "stalefx",
            WorksheetWarningKind::PartialClassification => "partialclassification",
            WorksheetWarningKind::UnclassifiedAsset => "unclassifiedasset",
            WorksheetWarningKind::ExternalContribution => "externalcontribution",
            WorksheetWarningKind::BelowMinimumLine => "belowminimumline",
            WorksheetWarningKind::TurnoverExceeded => "turnoverexceeded",
            WorksheetWarningKind::AvoidConstraint => "avoidconstraint",
        }
    }

    /// An acknowledgeable warning whose id is `kind:line:suffix` (the line
    /// part is `worksheet` for a worksheet-wide warning).
    pub fn warning(kind: WorksheetWarningKind, line_id: Option<&str>, suffix: &str, message: String) -> (r: WorksheetWarning)
        ensures
            r.id@ == kind_key(kind) + ":"@ + (match line_id {
                Some(l) => l@,
                None => "worksheet"@,
            }) + ":"@ + suffix@,
            r.kind == kind,
            r.line_id matches Some(l) ==> line_id matches Some(x) && l@ == x@,
            r.line_id is None <==> line_id is None,
            r.message@ == message@,
            r.acknowledgement_required,
    {
        let mut id = String::from_str(Self::kind_key(kind));
        id.append(":");
        match line_id {
            Some(l) => id.append(l),
            None => id.append("worksheet"),
        }
        id.append(":");
        id.append(suffix);
        WorksheetWarning {
            id,
            kind,
            line_id: match line_id {
                Some(l) => Some(String::from_str(l)),
                None => None,
            },
            message,
            acknowledgement_required: true,
        }
    }

    fn resolved_checked(
        line: &AllocationWorksheetLineInput,
        unit_price: Dec,
        whole_shares_only: bool,
    ) -> (r: Option<Result<(Dec, Dec), CoreError>>)
        requires
            line.value.wf(),
            unit_price.wf(),
        ensures
            match (r, resolved_quantity_and_amount_spec(*line, unit_price, whole_shares_only)) {
                (Some(x), Some(y)) => result_matches(x, y),
                (None, None) => true,
                _ => false,
            },
            r matches Some(Ok(qa)) ==> qa.0.wf() && qa.1.wf(),
    {
        let zero = Dec::zero();
        if dec_le(line.value, zero) {
            return Some(Err(Self::line_invalid(line.line_id.as_str(), "value must be positive")));
        }
        if dec_le(unit_price, zero) {
            return Some(Err(Self::line_invalid(line.line_id.as_str(), "resolved unit price must be positive")));
        }
        proof {
            lemma_units_sign(line.value);
            lemma_units_sign(unit_price);
        }
        match line.input_mode {
            WorksheetInputMode::Amount => {
                let ratio = match dec_div(line.value, unit_price) {
                    Some(x) => x,
                    None => return None,
                };
                proof {
                    if ratio.mantissa == 0 {
                        crate::decimal::lemma_pow10_positive(ratio.scale as nat);
                        assert(ratio.mantissa as nat % crate::decimal::pow10(ratio.scale as nat) == 0);
                    }
                }
                let quantity = if whole_shares_only {
                    dec_floor(ratio)
                } else {
                    ratio
                };
                if dec_le(quantity, zero) {
                    return Some(Err(Self::line_invalid(line.line_id.as_str(), "amount is below one whole unit at the resolved price")));
                }
                match dec_mul(quantity, unit_price) {
                    Some(amount) => Some(Ok((quantity, amount))),
                    None => None,
                }
            },
            WorksheetInputMode::Quantity => {
                if whole_shares_only {
                    let fr = dec_fract(line.value);
                    proof {
                        lemma_units_sign(fr);
                    }
                    if !fr.is_zero() {
                        return Some(Err(Self::line_invalid(line.line_id.as_str(), "quantity must be a whole number for this target")));
                    }
                }
                match dec_mul(line.value, unit_price) {
                    Some(amount) => Some(Ok((line.value, amount))),
                    None => None,
                }
            },
        }
    }
}


// ---------------------------------------------------------------------------
// Line quantities, exposures and totals.
// ---------------------------------------------------------------------------

proof fn lemma_take_last<T>(s: Seq<T>, i: int)
    requires
        0 <= i < s.len(),
    ensures
        s.take(i + 1).drop_last() == s.take(i),
        s.take(i + 1).last() == s[i],
        s.take(i + 1).len() == i + 1,
{
    assert(s.take(i + 1).drop_last() =~= s.take(i));
}

/// The name of a category id among the `(id, name)` pairs, the last pair winning.
fn category_name_for(names: &[(String, String)], id: &str) -> (r: Option<String>)
    ensures
        match lookup_name(names@, id@) {
            Some(n) => r is Some && r.unwrap()@ == n,
            None => r is None,
        },
{
    let mut i = names.len();
    assert(names@.take(i as int) =~= names@);
    while i > 0
        invariant
            i <= names@.len(),
            lookup_name(names@, id@) == lookup_name(names@.take(i as int), id@),
        decreases i,
    {
        proof {
            lemma_take_last(names@, i - 1);
        }
        if str_eq(names[i - 1].0.as_str(), id) {
            return Some(names[i - 1].1.clone());
        }
        i = i - 1;
    }
    assert(names@.take(0).len() == 0);
    None
}

fn exposure_delta(sign: Dec, amount: Dec, weight: i32) -> (r: Option<Dec>)
    requires
        sign.wf(),
        amount.wf(),
    ensures
        r == exposure_delta_spec(sign, amount, weight),
        r matches Some(x) ==> x.wf(),
{
    let x = match dec_mul(sign, amount) {
        Some(x) => x,
        None => return None,
    };
    let y = match dec_mul(x, Dec::from_i32(weight)) {
        Some(y) => y,
        None => return None,
    };
    dec_div(y, Dec::from_i32(10000))
}

proof fn lemma_exposures_none_extends(
    sign: Dec,
    amount: Dec,
    a: Seq<AssetTaxonomyAssignment>,
    names: Seq<(String, String)>,
    k: int,
)
    requires
        0 <= k <= a.len(),
        assignment_exposures(sign, amount, a.take(k), names) is None,
    ensures
        assignment_exposures(sign, amount, a, names) is None,
    decreases a.len() - k,
{
    if k < a.len() {
        lemma_take_last(a, k);
        lemma_exposures_none_extends(sign, amount, a, names, k + 1);
    } else {
        assert(a.take(k) =~= a);
    }
}

proof fn lemma_exposure_weights(sign: Dec, amount: Dec, a: Seq<AssetTaxonomyAssignment>, names: Seq<(String, String)>)
    requires
        assignment_exposures(sign, amount, a, names) is Some,
    ensures
        sum_exposure_weights(assignment_exposures(sign, amount, a, names).unwrap()) == sum_weights(a),
        assignment_exposures(sign, amount, a, names).unwrap().len() == a.len(),
        forall|i: int| 0 <= i < a.len() ==> !(#[trigger] assignment_exposures(sign, amount, a, names).unwrap()[i]).is_unclassified,
    decreases a.len(),
{
    if a.len() > 0 {
        lemma_exposure_weights(sign, amount, a.drop_last(), names);
        let prefix = assignment_exposures(sign, amount, a.drop_last(), names).unwrap();
        let full = assignment_exposures(sign, amount, a, names).unwrap();
        assert(full.drop_last() =~= prefix);
    }
}

fn classification_total(assignments: &[AssetTaxonomyAssignment]) -> (r: i32)
    requires
        weight_sums_fit(assignments@),
    ensures
        r == sum_weights(assignments@),
{
    let mut total: i32 = 0;
    let mut i: usize = 0;
    assert(assignments@.take(0) =~= Seq::<AssetTaxonomyAssignment>::empty());
    while i < assignments.len()
        invariant
            i <= assignments@.len(),
            weight_sums_fit(assignments@),
            total == sum_weights(assignments@.take(i as int)),
        decreases assignments@.len() - i,
    {
        proof {
            lemma_take_last(assignments@, i as int);
            assert(i32::MIN <= sum_weights(assignments@.take(i + 1)) <= i32::MAX);
        }
        total = total + assignments[i].weight;
        i = i + 1;
    }
    assert(assignments@.take(i as int) =~= assignments@);
    total
}

fn exposures_checked(
    line: &AllocationWorksheetLineInput,
    amount: Dec,
    assignments: &[AssetTaxonomyAssignment],
    category_names: &[(String, String)],
) -> (r: Option<Result<Vec<WorksheetCategoryExposure>, CoreError>>)
    requires
        amount.wf(),
        weight_sums_fit(assignments@),
    ensures
        match (r, category_exposures_spec(*line, amount, assignments@, category_names@)) {
            (Some(Ok(v)), Some(Ok(w))) => exposure_views(v@) == w,
            (Some(Err(e)), Some(Err(m))) => e is InvalidInput && e.message() == m,
            (None, None) => true,
            _ => false,
        },
        r matches Some(Ok(v)) ==> forall|i: int| 0 <= i < v@.len() ==> (#[trigger] v@[i]).value_delta.wf(),
{
    let total = classification_total(assignments);
    if total > 10000 {
        let pct = match dec_div(Dec::from_i32(total), Dec::from_i32(100)) {
            Some(p) => p,
            None => return None,
        };
        let mut m = String::from_str("classification weights total ");
        let t = dec_to_string(pct);
        m.append(t.as_str());
        m.append("% and cannot exceed 100%; edit the security classification before calculating");
        return Some(Err(AllocationWorksheetService::line_invalid(line.line_id.as_str(), m.as_str())));
    }
    let sign = match line.direction {
        WorksheetDirection::Increase => Dec::one(),
        WorksheetDirection::Reduce => Dec::one().neg(),
    };
    let ghost names = category_names@;
    let mut out: Vec<WorksheetCategoryExposure> = Vec::new();
    let mut i: usize = 0;
    assert(assignments@.take(0) =~= Seq::<AssetTaxonomyAssignment>::empty());
    assert(exposure_views(out@) =~= Seq::<ExposureView>::empty());
    while i < assignments.len()
        invariant
            i <= assignments@.len(),
            sign == direction_sign(line.direction),
            sign.wf(),
            amount.wf(),
            names == category_names@,
            total == sum_weights(assignments@),
            total <= 10000,
            weight_sums_fit(assignments@),
            assignment_exposures(sign, amount, assignments@.take(i as int), names) == Some(exposure_views(out@)),
            forall|j: int| 0 <= j < out@.len() ==> (#[trigger] out@[j]).value_delta.wf(),
        decreases assignments@.len() - i,
    {
        proof {
            lemma_take_last(assignments@, i as int);
        }
        let a = &assignments[i];
        let delta = match exposure_delta(sign, amount, a.weight) {
            Some(d) => d,
            None => {
                proof {
                    lemma_exposures_none_extends(sign, amount, assignments@, names, i + 1);
                }
                return None;
            },
        };
        let name = match category_name_for(category_names, a.category_id.as_str()) {
            Some(n) => n,
            None => a.category_id.clone(),
        };
        let e = WorksheetCategoryExposure {
            category_id: a.category_id.clone(),
            category_name: name,
            weight_bps: a.weight,
            value_delta: delta,
            is_unclassified: false,
        };
        let ghost before = out@;
        out.push(e);
        proof {
            assert(exposure_views(out@) =~= exposure_views(before).push(exposure_view(e)));
        }
        i = i + 1;
    }
    assert(assignments@.take(i as int) =~= assignments@);
    if total < 10000 {
        let residual = 10000 - total;
        let delta = match exposure_delta(sign, amount, residual) {
            Some(d) => d,
            None => return None,
        };
        let e = WorksheetCategoryExposure {
            category_id: String::from_str(UNKNOWN_CATEGORY_ID),
            category_name: String::from_str(UNKNOWN_CATEGORY_NAME),
            weight_bps: residual,
            value_delta: delta,
            is_unclassified: true,
        };
        let ghost before = out@;
        out.push(e);
        proof {
            assert(exposure_views(out@) =~= exposure_views(before).push(exposure_view(e)));
        }
    }
    Some(Ok(out))
}

/// The exposures of a line are non-empty and their weights add up to 10000
/// basis points: the classified part, then the unclassified residual.
pub proof fn law_exposure_weights_total_full_value(
    line: AllocationWorksheetLineInput,
    amount: Dec,
    assignments: Seq<AssetTaxonomyAssignment>,
    names: Seq<(String, String)>,
)
    requires
        weight_sums_fit(assignments),
        category_exposures_spec(line, amount, assignments, names) matches Some(Ok(_)),
    ensures
        ({
            let v = category_exposures_spec(line, amount, assignments, names).unwrap()->Ok_0;
            &&& sum_exposure_weights(v) == 10000
            &&& v.len() == assignments.len() + (if sum_weights(assignments) < 10000 { 1int } else { 0int })
            &&& forall|i: int| 0 <= i < v.len() ==> ((#[trigger] v[i]).is_unclassified <==> i == assignments.len())
        }),
{
    let sign = direction_sign(line.direction);
    lemma_exposure_weights(sign, amount, assignments, names);
    let classified = assignment_exposures(sign, amount, assignments, names).unwrap();
    let v = category_exposures_spec(line, amount, assignments, names).unwrap()->Ok_0;
    if sum_weights(assignments) < 10000 {
        assert(v.drop_last() =~= classified);
        assert(v.last().weight_bps == 10000 - sum_weights(assignments));
        assert forall|i: int| 0 <= i < v.len() implies ((#[trigger] v[i]).is_unclassified <==> i == assignments.len()) by {
            if i < assignments.len() {
                assert(v[i] == classified[i]);
            }
        }
    } else {
        assert(v == classified);
    }
}

fn bps_checked(value: Dec, total: Dec) -> (r: Option<i32>)
    requires
        value.wf(),
        total.wf(),
    ensures
        r == bps_spec(value, total),
{
    let zero = Dec::zero();
    if dec_le(total, zero) {
        return Some(0);
    }
    let ratio = match dec_div(value, total) {
        Some(x) => x,
        None => return None,
    };
    let scaled = match dec_mul(ratio, Dec::from_i32(10000)) {
        Some(x) => x,
        None => return None,
    };
    let rounded = dec_round(scaled);
    match dec_to_i32(rounded) {
        Some(v) => {
            proof {
                vstd::arithmetic::div_mod::lemma_div_multiples_vanish(v as int, unit());
                assert(unit() * (v as int) == (v as int) * unit()) by (nonlinear_arith);
            }
            Some(v)
        },
        None => Some(0),
    }
}

fn cash_remaining_checked(tracked_cash: Dec, external: Dec, increase: Dec, reduction: Dec) -> (r: Option<Result<Dec, CoreError>>)
    requires
        tracked_cash.wf(),
        external.wf(),
        increase.wf(),
        reduction.wf(),
    ensures
        match (r, cash_remaining_spec(tracked_cash, external, increase, reduction)) {
            (Some(x), Some(y)) => result_matches(x, y),
            (None, None) => true,
            _ => false,
        },
        r matches Some(Ok(x)) ==> x.wf(),
        r matches Some(Ok(x)) ==> x.units() >= 0,
{
    let partial = match dec_add(tracked_cash, external) {
        Some(x) => x,
        None => return None,
    };
    let funding = match dec_add(partial, reduction) {
        Some(x) => x,
        None => return None,
    };
    if dec_lt(funding, increase) {
        let required = dec_to_string(dec_normalize(increase));
        let available = dec_to_string(dec_normalize(funding));
        let mut m = String::from_str("Worksheet increases (");
        m.append(required.as_str());
        m.append(") exceed selected cash and reduction proceeds (");
        m.append(available.as_str());
        m.append(")");
        return Some(Err(AllocationWorksheetService::invalid(m.as_str())));
    }
    match dec_sub(funding, increase) {
        Some(x) => Some(Ok(x)),
        None => None,
    }
}

fn projected_total_checked(current: Dec, external: Dec, increase: Dec, reduction: Dec, includes_cash: bool) -> (r: Option<Dec>)
    requires
        current.wf(),
        external.wf(),
        increase.wf(),
        reduction.wf(),
    ensures
        r == projected_total_spec(current, external, increase, reduction, includes_cash),
        r matches Some(x) ==> x.wf(),
{
    if includes_cash {
        dec_add(current, external)
    } else {
        match dec_add(current, increase) {
            Some(x) => dec_sub(x, reduction),
            None => None,
        }
    }
}

impl AllocationWorksheetService {
    /// The quantity and estimated amount of a line at a resolved unit price.
    /// In amount mode the quantity is `value / price`, rounded down to whole
    /// units for a whole-shares target; in quantity mode it is the value.
    pub fn resolved_quantity_and_amount(
        line: &AllocationWorksheetLineInput,
        unit_price: Dec,
        whole_shares_only: bool,
    ) -> (r: Result<(Dec, Dec), CoreError>)
        requires
            line.value.wf(),
            unit_price.wf(),
            resolved_quantity_and_amount_spec(*line, unit_price, whole_shares_only) is Some,
        ensures
            result_matches(r, resolved_quantity_and_amount_spec(*line, unit_price, whole_shares_only).unwrap()),
            r matches Ok(qa) ==> qa.0.wf() && qa.1.wf() && qa.0.units() > 0,
            (r is Ok && line.input_mode == WorksheetInputMode::Quantity) ==> r.unwrap().0 == line.value,
            (r is Ok && line.input_mode == WorksheetInputMode::Amount && whole_shares_only) ==> r.unwrap().0.scale == 0,
    {
        match Self::resolved_checked(line, unit_price, whole_shares_only) {
            Some(x) => x,
            None => Err(Self::invalid("")),
        }
    }

    /// `resolved_quantity_and_amount`, or `None` where a `Decimal` overflow
    /// would stop it.
    pub fn checked_resolved_quantity_and_amount(
        line: &AllocationWorksheetLineInput,
        unit_price: Dec,
        whole_shares_only: bool,
    ) -> (r: Option<Result<(Dec, Dec), CoreError>>)
        requires
            line.value.wf(),
            unit_price.wf(),
        ensures
            match (r, resolved_quantity_and_amount_spec(*line, unit_price, whole_shares_only)) {
                (Some(x), Some(y)) => result_matches(x, y),
                (None, None) => true,
                _ => false,
            },
            r matches Some(Ok(qa)) ==> qa.0.wf() && qa.1.wf(),
    {
        match Self::resolved_checked(line, unit_price, whole_shares_only) {
            Some(_) => Some(Self::resolved_quantity_and_amount(line, unit_price, whole_shares_only)),
            None => None,
        }
    }

    /// The category exposures of a line: one per classification, in order,
    /// worth `±amount × weight / 10000`, then the unclassified residual when
    /// the weights leave some.  Weights above 10000 bps are refused.
    pub fn category_exposures(
        line: &AllocationWorksheetLineInput,
        amount: Dec,
        assignments: &[AssetTaxonomyAssignment],
        category_names: &[(String, String)],
    ) -> (r: Result<Vec<WorksheetCategoryExposure>, CoreError>)
        requires
            amount.wf(),
            weight_sums_fit(assignments@),
            category_exposures_spec(*line, amount, assignments@, category_names@) is Some,
        ensures
            match (r, category_exposures_spec(*line, amount, assignments@, category_names@).unwrap()) {
                (Ok(v), Ok(w)) => exposure_views(v@) == w,
                (Err(e), Err(m)) => e is InvalidInput && e.message() == m,
                _ => false,
            },
            r is Err <==> sum_weights(assignments@) > 10000,
            r matches Ok(v) ==> sum_exposure_weights(exposure_views(v@)) == 10000,
            r matches Ok(v) ==> forall|i: int| 0 <= i < v@.len() ==> (#[trigger] v@[i]).value_delta.wf(),
    {
        let r = match exposures_checked(line, amount, assignments, category_names) {
            Some(x) => x,
            None => Err(Self::invalid("")),
        };
        proof {
            if r is Ok {
                law_exposure_weights_total_full_value(*line, amount, assignments@, category_names@);
            }
        }
        r
    }

    /// `category_exposures`, or `None` where a `Decimal` overflow would stop it.
    pub fn checked_category_exposures(
        line: &AllocationWorksheetLineInput,
        amount: Dec,
        assignments: &[AssetTaxonomyAssignment],
        category_names: &[(String, String)],
    ) -> (r: Option<Result<Vec<WorksheetCategoryExposure>, CoreError>>)
        requires
            amount.wf(),
            weight_sums_fit(assignments@),
        ensures
            match (r, category_exposures_spec(*line, amount, assignments@, category_names@)) {
                (Some(Ok(v)), Some(Ok(w))) => exposure_views(v@) == w,
                (Some(Err(e)), Some(Err(m))) => e is InvalidInput && e.message() == m,
                (None, None) => true,
                _ => false,
            },
            r matches Some(Ok(v)) ==> forall|i: int| 0 <= i < v@.len() ==> (#[trigger] v@[i]).value_delta.wf(),
    {
        match exposures_checked(line, amount, assignments, category_names) {
            Some(_) => Some(Self::category_exposures(line, amount, assignments, category_names)),
            None => None,
        }
    }

    /// `value / total` in basis points, rounded half to even; zero when the
    /// total is not positive or the result does not fit an `i32`.
    pub fn bps(value: Dec, total: Dec) -> (r: i32)
        requires
            value.wf(),
            total.wf(),
            bps_spec(value, total) is Some,
        ensures
            r == bps_spec(value, total).unwrap(),
            total.units() <= 0 ==> r == 0,
    {
        match bps_checked(value, total) {
            Some(x) => x,
            None => 0,
        }
    }

    /// `bps`, or `None` where a `Decimal` overflow would stop it.
    pub fn checked_bps(value: Dec, total: Dec) -> (r: Option<i32>)
        requires
            value.wf(),
            total.wf(),
        ensures
            r == bps_spec(value, total),
    {
        match bps_checked(value, total) {
            Some(_) => Some(Self::bps(value, total)),
            None => None,
        }
    }

    /// The cash left after the increases: tracked cash, external contribution
    /// and reduction proceeds fund the increases; more increases than that is
    /// refused.
    pub fn cash_remaining(tracked_cash: Dec, external_contribution: Dec, increase_total: Dec, reduction_total: Dec) -> (r: Result<Dec, CoreError>)
        requires
            tracked_cash.wf(),
            external_contribution.wf(),
            increase_total.wf(),
            reduction_total.wf(),
            cash_remaining_spec(tracked_cash, external_contribution, increase_total, reduction_total) is Some,
        ensures
            result_matches(r, cash_remaining_spec(tracked_cash, external_contribution, increase_total, reduction_total).unwrap()),
            r matches Ok(x) ==> x.wf(),
            r matches Ok(x) ==> x.units() >= 0,
            r is Err <==> increase_total.units() > funding_spec(tracked_cash, external_contribution, reduction_total).unwrap().units(),
    {
        match cash_remaining_checked(tracked_cash, external_contribution, increase_total, reduction_total) {
            Some(x) => x,
            None => Err(Self::invalid("")),
        }
    }

    /// `cash_remaining`, or `None` where a `Decimal` overflow would stop it.
    pub fn checked_cash_remaining(tracked_cash: Dec, external_contribution: Dec, increase_total: Dec, reduction_total: Dec) -> (r: Option<Result<Dec, CoreError>>)
        requires
            tracked_cash.wf(),
            external_contribution.wf(),
            increase_total.wf(),
            reduction_total.wf(),
        ensures
            match (r, cash_remaining_spec(tracked_cash, external_contribution, increase_total, reduction_total)) {
                (Some(x), Some(y)) => result_matches(x, y),
                (None, None) => true,
                _ => false,
            },
            r matches Some(Ok(x)) ==> x.units() >= 0,
    {
        match cash_remaining_checked(tracked_cash, external_contribution, increase_total, reduction_total) {
            Some(_) => Some(Self::cash_remaining(tracked_cash, external_contribution, increase_total, reduction_total)),
            None => None,
        }
    }

    /// The denominator after the worksheet: with a cash category the current
    /// total plus external cash (trades move value between categories),
    /// otherwise the current total plus increases minus reductions.
    pub fn projected_total(
        current_total: Dec,
        external_contribution: Dec,
        increase_total: Dec,
        reduction_total: Dec,
        includes_cash_category: bool,
    ) -> (r: Dec)
        requires
            current_total.wf(),
            external_contribution.wf(),
            increase_total.wf(),
            reduction_total.wf(),
            projected_total_spec(current_total, external_contribution, increase_total, reduction_total, includes_cash_category) is Some,
        ensures
            r == projected_total_spec(current_total, external_contribution, increase_total, reduction_total, includes_cash_category).unwrap(),
            r.wf(),
    {
        match projected_total_checked(current_total, external_contribution, increase_total, reduction_total, includes_cash_category) {
            Some(x) => x,
            None => Dec::zero(),
        }
    }

    /// `projected_total`, or `None` where a `Decimal` overflow would stop it.
    pub fn checked_projected_total(
        current_total: Dec,
        external_contribution: Dec,
        increase_total: Dec,
        reduction_total: Dec,
        includes_cash_category: bool,
    ) -> (r: Option<Dec>)
        requires
            current_total.wf(),
            external_contribution.wf(),
            increase_total.wf(),
            reduction_total.wf(),
        ensures
            r == projected_total_spec(current_total, external_contribution, increase_total, reduction_total, includes_cash_category),
            r matches Some(x) ==> x.wf(),
    {
        match projected_total_checked(current_total, external_contribution, increase_total, reduction_total, includes_cash_category) {
            Some(_) => Some(Self::projected_total(current_total, external_contribution, increase_total, reduction_total, includes_cash_category)),
            None => None,
        }
    }

    /// The fingerprint of a worksheet: the lower-case hexadecimal SHA-256
    /// digest of the serialized input and source records.
    pub fn source_fingerprint(serialized: &[u8]) -> (r: String)
        ensures
            r@ == hex_lower(sha256_digest(serialized@)),
            r@.len() == 64,
    {
        let digest = sha256(serialized);
        proof {
            lemma_hex_lower_len(digest@);
        }
        hex_encode(digest.as_slice())
    }
}

proof fn lemma_hex_lower_len(data: Seq<u8>)
    ensures
        hex_lower(data).len() == 2 * data.len(),
    decreases data.len(),
{
    if data.len() > 0 {
        lemma_hex_lower_len(data.drop_first());
    }
}

} // verus!
