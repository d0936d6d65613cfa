//! The worksheet calculation on recorded data: input validation, the checks
//! against the target and the drift report, line pricing and guardrails, the
//! category projection, warnings and source records.  Loading the recorded
//! data is the caller's; every decision on it is here.

use vstd::prelude::*;
use crate::decimal::{
    Dec, dec_add, dec_sub, dec_mul, dec_lt, dec_le, dec_eq, dec_to_string, dec_parse, dec_max_zero,
    spec_add, spec_sub, spec_mul, decimal_text, decimal_parse,
};
use crate::text::{
    insert_sorted, strictly_sorted, text_set, str_eq, str_lt, seq_lt, trim, trim_spec, lemma_seq_lt_irreflexive, lemma_seq_lt_asymmetric, lemma_seq_lt_total,
    lemma_seq_lt_transitive, ascii_upper_spec,
};
use crate::allocation::model::{
    AllocationTarget, AllocationTargetConstraint, AllocationWorksheetLineInput, AllocationWorksheetLineResult,
    CalculateAllocationWorksheetInput,
    ConstraintEffect, ConstraintSubjectType, WorksheetCategoryExposure, WorksheetDirection, WorksheetPricingSource, WorksheetWarning,
    WorksheetWarningKind, DriftReport, DriftRow, AllocationTargetWeight, WorksheetCategoryResult, WorksheetSourceRecord,
    BandType, AllocationWorksheetResult,
};
use crate::allocation::worksheet_service::{
    AllocationWorksheetService, AssetTaxonomyAssignment, CoreError, Holding, line_message, sum_weights, weight_sums_fit,
    constraint_matches_spec, resolved_quantity_and_amount_spec, category_exposures_spec, exposure_views, bps_spec, ExposureView,
    action_matches_spec,
    UNKNOWN_CATEGORY_ID, UNKNOWN_CATEGORY_NAME, projected_total_spec, cash_remaining_spec, hex_lower, sha256_digest, kind_key,
};
use crate::allocation::fx_path::{
    ExchangeRate, FxCurrency, rates_wf, fx_conversion, fx_applied, fx_reachable, no_fx_rate_message, rates_recorded, source_multiplier,
    fx_overflow_possible,
};

verus! {

// ---------------------------------------------------------------------------
// Recorded data.
// ---------------------------------------------------------------------------

/// A security quote as recorded.  The currency is given with its normalized
/// code and denormalization multiplier; the timestamp as RFC 3339 text and
/// its UTC date as ISO text.
#[derive(Clone, Debug)]
pub struct SecurityQuote {
    pub id: String,
    pub close: Dec,
    pub currency: String,
    pub currency_normalized: String,
    pub currency_multiplier: Dec,
    pub timestamp: String,
    pub date: String,
    pub data_source: String,
}

/// The latest quote of an asset, with its staleness and, when there is no
/// quote, the reason.
#[derive(Clone, Debug)]
pub struct LatestQuoteSnapshot {
    pub asset_id: String,
    pub quote: Option<SecurityQuote>,
    pub is_stale: bool,
    pub no_quote_reason: Option<String>,
}

/// The snapshot of an asset among the snapshots: the last one for it.
pub open spec fn snapshot_for(snapshots: Seq<LatestQuoteSnapshot>, asset_id: Seq<char>) -> Option<int>
    decreases snapshots.len(),
{
    if snapshots.len() == 0 {
        None
    } else if snapshots.last().asset_id@ == asset_id {
        Some(snapshots.len() - 1)
    } else {
        snapshot_for(snapshots.drop_last(), asset_id)
    }
}

/// Which snapshot prices a line, or why none does.
pub open spec fn quote_for_line_spec(line: AllocationWorksheetLineInput, snapshots: Seq<LatestQuoteSnapshot>) -> Result<int, Seq<char>> {
    match snapshot_for(snapshots, line.asset_id@) {
        None => Err(line_message(line.line_id@, "no quote snapshot is available; refresh the price"@)),
        Some(i) => match snapshots[i].quote {
            None => Err(line_message(line.line_id@, "no quote is available; "@ + match snapshots[i].no_quote_reason {
                Some(reason) => reason@,
                None => "refresh or add a manual price"@,
            })),
            Some(q) => if q.close.units() <= 0 {
                Err(line_message(line.line_id@, "quote must be positive; refresh or correct the price"@))
            } else {
                Ok(i)
            },
        },
    }
}

pub open spec fn snapshots_wf(snapshots: Seq<LatestQuoteSnapshot>) -> bool {
    forall|i: int| 0 <= i < snapshots.len() ==> ((#[trigger] snapshots[i]).quote matches Some(q) ==> q.close.wf() && q.currency_multiplier.wf())
}

impl AllocationWorksheetService {
    /// The snapshot and quote that price a line: the line's asset must have a
    /// snapshot with a positive quote.  `Ok` holds the snapshot's position.
    pub fn quote_for_line(line: &AllocationWorksheetLineInput, snapshots: &[LatestQuoteSnapshot]) -> (r: Result<usize, CoreError>)
        requires
            snapshots_wf(snapshots@),
        ensures
            match (r, quote_for_line_spec(*line, snapshots@)) {
                (Ok(i), Ok(j)) => i == j && i < snapshots@.len() && snapshots@[j].quote is Some,
                (Err(e), Err(m)) => e is InvalidInput && e.message() == m,
                _ => false,
            },
    {
        let mut k = snapshots.len();
        let mut found: Option<usize> = None;
        assert(snapshots@.take(k as int) =~= snapshots@);
        while k > 0 && found.is_none()
            invariant
                k <= snapshots@.len(),
                found is None ==> snapshot_for(snapshots@, line.asset_id@) == snapshot_for(snapshots@.take(k as int), line.asset_id@),
                found matches Some(i) ==> snapshot_for(snapshots@, line.asset_id@) == Some(i as int) && i < snapshots@.len(),
            decreases k + (if found is None { 1int } else { 0int }),
        {
            proof {
                assert(snapshots@.take(k as int).drop_last() =~= snapshots@.take(k - 1));
                assert(snapshots@.take(k as int).last() == snapshots@[k - 1]);
            }
            if str_eq(snapshots[k - 1].asset_id.as_str(), line.asset_id.as_str()) {
                found = Some(k - 1);
            } else {
                k = k - 1;
            }
        }
        let i = match found {
            Some(i) => i,
            None => {
                proof {
                    assert(snapshots@.take(0) =~= Seq::<LatestQuoteSnapshot>::empty());
                }
                return Err(Self::line_invalid(line.line_id.as_str(), "no quote snapshot is available; refresh the price"));
            },
        };
        let snapshot = &snapshots[i];
        match &snapshot.quote {
            None => {
                let mut m = String::from_str("no quote is available; ");
                match &snapshot.no_quote_reason {
                    Some(reason) => m.append(reason.as_str()),
                    None => m.append("refresh or add a manual price"),
                }
                Err(Self::line_invalid(line.line_id.as_str(), m.as_str()))
            },
            Some(q) => {
                assert(q.close.wf());
                if dec_le(q.close, Dec::zero()) {
                    Err(Self::line_invalid(line.line_id.as_str(), "quote must be positive; refresh or correct the price"))
                } else {
                    Ok(i)
                }
            },
        }
    }
}

// ---------------------------------------------------------------------------
// Input validation and the checks against recorded data.
// ---------------------------------------------------------------------------

pub open spec fn texts(v: Seq<String>) -> Seq<Seq<char>> {
    v.map_values(|s: String| s@)
}

/// The first problem with the worksheet lines, checked line by line: a blank
/// or repeated line id, or an account outside the resolved scope.
pub open spec fn lines_check(lines: Seq<AllocationWorksheetLineInput>, account_ids: Seq<String>) -> Result<(), Seq<char>>
    decreases lines.len(),
{
    if lines.len() == 0 {
        Ok(())
    } else {
        match lines_check(lines.drop_last(), account_ids) {
            Err(m) => Err(m),
            Ok(_) => {
                let l = lines.last();
                if trim_spec(l.line_id@).len() == 0 || (exists|j: int| 0 <= j < lines.len() - 1 && #[trigger] lines[j].line_id@ == l.line_id@) {
                    Err("Every worksheet line must have a unique lineId"@)
                } else if !texts(account_ids).contains(l.account_id@) {
                    Err(line_message(l.line_id@, "selected account is outside the resolved scope"@))
                } else {
                    Ok(())
                }
            },
        }
    }
}

/// The validation of a worksheet request before any recorded data is read.
pub open spec fn validate_input_spec(input: CalculateAllocationWorksheetInput) -> Result<(), Seq<char>> {
    if input.lines@.len() == 0 || input.lines@.len() > 50 {
        Err("Worksheet must contain between 1 and 50 lines"@)
    } else if input.cash.tracked_cash_to_use.units() < 0 || input.cash.external_contribution.units() < 0 {
        Err("Worksheet cash values must be non-negative"@)
    } else {
        lines_check(input.lines@, input.account_ids@)
    }
}

/// `Ok` as `Ok`, an error as a validation error with that message.
pub open spec fn matches_validation(r: Result<(), CoreError>, s: Result<(), Seq<char>>) -> bool {
    match (r, s) {
        (Ok(_), Ok(_)) => true,
        (Err(e), Err(m)) => e is InvalidInput && e.message() == m,
        _ => false,
    }
}

pub open spec fn input_wf(input: CalculateAllocationWorksheetInput) -> bool {
    &&& input.cash.tracked_cash_to_use.wf()
    &&& input.cash.external_contribution.wf()
    &&& forall|i: int| 0 <= i < input.lines@.len() ==> (#[trigger] input.lines@[i]).value.wf()
}

/// A failing prefix decides the result of the whole list.
proof fn lemma_lines_check_prefix_err(lines: Seq<AllocationWorksheetLineInput>, account_ids: Seq<String>, k: int)
    requires
        0 <= k <= lines.len(),
        lines_check(lines.take(k), account_ids) is Err,
    ensures
        lines_check(lines, account_ids) == lines_check(lines.take(k), account_ids),
    decreases lines.len() - k,
{
    if k < lines.len() {
        assert(lines.take(k + 1).drop_last() =~= lines.take(k));
        lemma_lines_check_prefix_err(lines, account_ids, k + 1);
    } else {
        assert(lines.take(k) =~= lines);
    }
}

fn contains_text(v: &Vec<String>, t: &str) -> (r: bool)
    ensures
        r == texts(v@).contains(t@),
{
    let mut i: usize = 0;
    while i < v.len()
        invariant
            i <= v@.len(),
            forall|j: int| 0 <= j < i ==> v@[j]@ != t@,
        decreases v@.len() - i,
    {
        if str_eq(v[i].as_str(), t) {
            assert(texts(v@)[i as int] == t@);
            return true;
        }
        i = i + 1;
    }
    proof {
        if texts(v@).contains(t@) {
            let j = choose|j: int| 0 <= j < texts(v@).len() && texts(v@)[j] == t@;
            assert(v@[j]@ == t@);
        }
    }
    false
}

impl AllocationWorksheetService {
    /// Checks a worksheet request: 1 to 50 lines, non-negative cash, and
    /// lines with unique, non-blank ids on accounts of the resolved scope.
    pub fn validate_worksheet_input(input: &CalculateAllocationWorksheetInput) -> (r: Result<(), CoreError>)
        requires
            input_wf(*input),
        ensures
            matches_validation(r, validate_input_spec(*input)),
    {
        let n = input.lines.len();
        if n == 0 || n > 50 {
            return Err(Self::invalid("Worksheet must contain between 1 and 50 lines"));
        }
        let zero = Dec::zero();
        if dec_lt(input.cash.tracked_cash_to_use, zero) || dec_lt(input.cash.external_contribution, zero) {
            return Err(Self::invalid("Worksheet cash values must be non-negative"));
        }
        let lines = &input.lines;
        let mut i: usize = 0;
        assert(lines@.take(0) =~= Seq::<AllocationWorksheetLineInput>::empty());
        while i < n
            invariant
                n == lines@.len(),
                lines@ == input.lines@,
                1 <= n <= 50,
                input.cash.tracked_cash_to_use.units() >= 0,
                input.cash.external_contribution.units() >= 0,
                i <= n,
                lines_check(lines@.take(i as int), input.account_ids@) is Ok,
            decreases n - i,
        {
            let ghost prefix = lines@.take(i + 1);
            proof {
                assert(prefix.drop_last() =~= lines@.take(i as int));
                assert(prefix.last() == lines@[i as int]);
            }
            let line = &lines[i];
            let trimmed = trim(line.line_id.as_str());
            let mut duplicate = false;
            let mut j: usize = 0;
            while j < i
                invariant
                    i < n,
                    n == lines@.len(),
                    *line == lines@[i as int],
                    j <= i,
                    !duplicate ==> forall|k: int| 0 <= k < j ==> lines@[k].line_id@ != lines@[i as int].line_id@,
                    duplicate ==> exists|k: int| 0 <= k < i && lines@[k].line_id@ == lines@[i as int].line_id@,
                decreases i - j,
            {
                if !duplicate && str_eq(lines[j].line_id.as_str(), line.line_id.as_str()) {
                    duplicate = true;
                }
                j = j + 1;
            }
            proof {
                if duplicate {
                    let k = choose|k: int| 0 <= k < i && lines@[k].line_id@ == lines@[i as int].line_id@;
                    assert(prefix[k] == lines@[k]);
                    assert(prefix[k].line_id@ == prefix.last().line_id@);
                } else {
                    assert forall|k: int| 0 <= k < prefix.len() - 1 implies #[trigger] prefix[k].line_id@ != prefix.last().line_id@ by {
                        assert(prefix[k] == lines@[k]);
                    }
                }
            }
            if trimmed.unicode_len() == 0 || duplicate {
                proof {
                    assert(lines_check(prefix, input.account_ids@) == Err::<(), Seq<char>>("Every worksheet line must have a unique lineId"@));
                    assert(prefix =~= lines@.take(i + 1));
                    lemma_lines_check_prefix_err(lines@, input.account_ids@, i + 1);
                }
                return Err(Self::invalid("Every worksheet line must have a unique lineId"));
            }
            if !contains_text(&input.account_ids, line.account_id.as_str()) {
                proof {
                    assert(lines_check(prefix, input.account_ids@) == Err::<(), Seq<char>>(line_message(line.line_id@, "selected account is outside the resolved scope"@)));
                    lemma_lines_check_prefix_err(lines@, input.account_ids@, i + 1);
                }
                return Err(Self::line_invalid(line.line_id.as_str(), "selected account is outside the resolved scope"));
            }
            i = i + 1;
        }
        assert(lines@.take(n as int) =~= lines@);
        Ok(())
    }

    /// The target must exist, and a target without reductions admits no
    /// reduction line.
    pub fn check_target(input: &CalculateAllocationWorksheetInput, target: Option<&AllocationTarget>) -> (r: Result<(), CoreError>)
        ensures
            match target {
                None => r matches Err(CoreError::NotFound(m)) && m@ == "AllocationTarget "@ + input.target_id@ + " not found"@,
                Some(t) => if !t.allow_sells && (exists|i: int| 0 <= i < input.lines@.len() && #[trigger] input.lines@[i].direction == WorksheetDirection::Reduce) {
                    r matches Err(CoreError::InvalidInput(m)) && m@ == "This target disables reductions; enable reduction rows in worksheet guardrails"@
                } else {
                    r is Ok
                },
            },
    {
        let t = match target {
            Some(t) => t,
            None => {
                let mut m = String::from_str("AllocationTarget ");
                m.append(input.target_id.as_str());
                m.append(" not found");
                return Err(CoreError::NotFound(m));
            },
        };
        if !t.allow_sells {
            let mut i: usize = 0;
            while i < input.lines.len()
                invariant
                    i <= input.lines@.len(),
                    !t.allow_sells,
                    target == Some(t),
                    forall|k: int| 0 <= k < i ==> input.lines@[k].direction != WorksheetDirection::Reduce,
                decreases input.lines@.len() - i,
            {
                if input.lines[i].direction == WorksheetDirection::Reduce {
                    assert(input.lines@[i as int].direction == WorksheetDirection::Reduce);
                    return Err(Self::invalid("This target disables reductions; enable reduction rows in worksheet guardrails"));
                }
                i = i + 1;
            }
        }
        Ok(())
    }

    /// The tracked cash a worksheet uses cannot exceed the deployable cash
    /// the drift report observed.
    pub fn check_tracked_cash(tracked_cash_to_use: Dec, deployable_cash: Dec) -> (r: Result<(), CoreError>)
        requires
            tracked_cash_to_use.wf(),
            deployable_cash.wf(),
        ensures
            tracked_cash_to_use.units() > deployable_cash.units() ==> (r matches Err(CoreError::InvalidInput(m)) && m@ == "Tracked cash selected ("@ + decimal_text(tracked_cash_to_use@) + ") exceeds observed deployable cash ("@ + decimal_text(deployable_cash@) + ")"@),
            tracked_cash_to_use.units() <= deployable_cash.units() ==> r is Ok,
    {
        if dec_lt(deployable_cash, tracked_cash_to_use) {
            let mut m = String::from_str("Tracked cash selected (");
            m.append(dec_to_string(tracked_cash_to_use).as_str());
            m.append(") exceeds observed deployable cash (");
            m.append(dec_to_string(deployable_cash).as_str());
            m.append(")");
            return Err(Self::invalid(m.as_str()));
        }
        Ok(())
    }
}

// ---------------------------------------------------------------------------
// Pricing the lines.
// ---------------------------------------------------------------------------

/// An asset as the worksheet reads it.  `kind` is the debug text of its kind
/// and `updated_at` the RFC 3339 text of its last update.
#[derive(Clone, Debug)]
pub struct WorksheetAsset {
    pub id: String,
    pub name: Option<String>,
    pub display_code: Option<String>,
    pub instrument_symbol: Option<String>,
    pub is_active: bool,
    pub is_investment: bool,
    pub contract_multiplier: Dec,
    pub kind: String,
    pub quote_currency: String,
    pub updated_at: String,
}

/// The holdings of one account.
#[derive(Clone, Debug)]
pub struct AccountHoldings {
    pub account_id: String,
    pub holdings: Vec<Holding>,
}

/// What the line loop carries from one line to the next: the warnings so
/// far, the quantity each (account, asset) position is reduced by so far,
/// and the exchange rates the lines used (one per id, the last kept).
pub struct LineState {
    pub warnings: Vec<WorksheetWarning>,
    pub reductions: Vec<(String, String, Dec)>,
    pub used_fx_rates: Vec<ExchangeRate>,
}

impl LineState {
    pub open spec fn wf(self) -> bool {
        &&& forall|i: int| 0 <= i < self.reductions@.len() ==> (#[trigger] self.reductions@[i]).2.wf()
        &&& forall|i: int| 0 <= i < self.used_fx_rates@.len() ==> (#[trigger] self.used_fx_rates@[i]).rate.wf()
    }
}

/// The asset of an id among the assets: the last one with it.
pub open spec fn asset_for(assets: Seq<WorksheetAsset>, id: Seq<char>) -> Option<int>
    decreases assets.len(),
{
    if assets.len() == 0 {
        None
    } else if assets.last().id@ == id {
        Some(assets.len() - 1)
    } else {
        asset_for(assets.drop_last(), id)
    }
}

fn find_asset(assets: &[WorksheetAsset], id: &str) -> (r: Option<usize>)
    ensures
        r matches Some(i) ==> i < assets@.len() && asset_for(assets@, id@) == Some(i as int),
        r is None ==> asset_for(assets@, id@) is None,
{
    let mut k = assets.len();
    assert(assets@.take(k as int) =~= assets@);
    while k > 0
        invariant
            k <= assets@.len(),
            asset_for(assets@, id@) == asset_for(assets@.take(k as int), id@),
        decreases k,
    {
        proof {
            assert(assets@.take(k as int).drop_last() =~= assets@.take(k - 1));
            assert(assets@.take(k as int).last() == assets@[k - 1]);
        }
        if str_eq(assets[k - 1].id.as_str(), id) {
            return Some(k - 1);
        }
        k = k - 1;
    }
    assert(assets@.take(0) =~= Seq::<WorksheetAsset>::empty());
    None
}

/// The classifications of an asset in a taxonomy, in order.
pub open spec fn line_assignments(assignments: Seq<AssetTaxonomyAssignment>, asset_id: Seq<char>, taxonomy_id: Seq<char>) -> Seq<AssetTaxonomyAssignment>
    decreases assignments.len(),
{
    if assignments.len() == 0 {
        Seq::empty()
    } else if assignments.last().asset_id@ == asset_id && assignments.last().taxonomy_id@ == taxonomy_id {
        line_assignments(assignments.drop_last(), asset_id, taxonomy_id).push(assignments.last())
    } else {
        line_assignments(assignments.drop_last(), asset_id, taxonomy_id)
    }
}

/// The weights of each asset's classifications in a taxonomy add up, in
/// order, without leaving `i32`, and so does the residual to 10000 bps.
pub open spec fn classifications_fit(assignments: Seq<AssetTaxonomyAssignment>, taxonomy_id: Seq<char>) -> bool {
    forall|asset_id: Seq<char>| #[trigger] weight_sums_fit(line_assignments(assignments, asset_id, taxonomy_id))
}

/// Whether the weights of the classifications add up, in order, within
/// `i32`, and so does their residual to 10000 bps.
fn weight_sums_check(list: &Vec<AssetTaxonomyAssignment>) -> (r: bool)
    ensures
        r == weight_sums_fit(list@),
{
    let mut total: i64 = 0;
    let mut i: usize = 0;
    assert(list@.take(0) =~= Seq::<AssetTaxonomyAssignment>::empty());
    while i < list.len()
        invariant
            i <= list@.len(),
            total == sum_weights(list@.take(i as int)),
            i32::MIN <= total <= i32::MAX,
            forall|k: int| 0 <= k <= i ==> i32::MIN <= #[trigger] sum_weights(list@.take(k)) <= i32::MAX,
        decreases list@.len() - i,
    {
        proof {
            assert(list@.take(i + 1).drop_last() =~= list@.take(i as int));
            assert(list@.take(i + 1).last() == list@[i as int]);
        }
        total = total + list[i].weight as i64;
        if total < i32::MIN as i64 || total > i32::MAX as i64 {
            assert(sum_weights(list@.take(i + 1)) == total);
            return false;
        }
        i = i + 1;
    }
    assert(list@.take(i as int) =~= list@);
    10000 - total <= i32::MAX as i64
}

/// Some classification of the asset `x` in the taxonomy `t` is listed.
proof fn lemma_line_assignments_member(assignments: Seq<AssetTaxonomyAssignment>, x: Seq<char>, t: Seq<char>)
    requires
        line_assignments(assignments, x, t).len() > 0,
    ensures
        exists|k: int| 0 <= k < assignments.len() && (#[trigger] assignments[k]).asset_id@ == x && assignments[k].taxonomy_id@ == t,
    decreases assignments.len(),
{
    if assignments.len() > 0 {
        let last = assignments.len() - 1;
        if !(assignments[last].asset_id@ == x && assignments[last].taxonomy_id@ == t) {
            lemma_line_assignments_member(assignments.drop_last(), x, t);
            let k = choose|k: int| 0 <= k < assignments.drop_last().len() && (#[trigger] assignments.drop_last()[k]).asset_id@ == x && assignments.drop_last()[k].taxonomy_id@ == t;
            assert(assignments[k] == assignments.drop_last()[k]);
        }
    }
}

impl AllocationWorksheetService {
    /// Whether every asset's classification weights in the taxonomy add up,
    /// in order, within `i32`, and so does their residual to 10000 bps: what
    /// a worksheet on recorded data needs of them.
    pub fn classifications_within_range(assignments: &[AssetTaxonomyAssignment], taxonomy_id: &str) -> (r: bool)
        ensures
            r == classifications_fit(assignments@, taxonomy_id@),
    {
        let mut i: usize = 0;
        while i < assignments.len()
            invariant
                i <= assignments@.len(),
                forall|k: int| 0 <= k < i && (#[trigger] assignments@[k]).taxonomy_id@ == taxonomy_id@
                    ==> weight_sums_fit(line_assignments(assignments@, assignments@[k].asset_id@, taxonomy_id@)),
            decreases assignments@.len() - i,
        {
            if str_eq(assignments[i].taxonomy_id.as_str(), taxonomy_id) {
                let list = filter_assignments(assignments, assignments[i].asset_id.as_str(), taxonomy_id);
                if !weight_sums_check(&list) {
                    assert(!weight_sums_fit(line_assignments(assignments@, assignments@[i as int].asset_id@, taxonomy_id@)));
                    return false;
                }
            }
            i = i + 1;
        }
        proof {
            assert forall|x: Seq<char>| #[trigger] weight_sums_fit(line_assignments(assignments@, x, taxonomy_id@)) by {
                let l = line_assignments(assignments@, x, taxonomy_id@);
                if l.len() > 0 {
                    lemma_line_assignments_member(assignments@, x, taxonomy_id@);
                    let k = choose|k: int| 0 <= k < assignments@.len() && (#[trigger] assignments@[k]).asset_id@ == x && assignments@[k].taxonomy_id@ == taxonomy_id@;
                    assert(weight_sums_fit(line_assignments(assignments@, assignments@[k].asset_id@, taxonomy_id@)));
                } else {
                    assert forall|k: int| 0 <= k <= l.len() implies i32::MIN <= #[trigger] sum_weights(l.take(k)) <= i32::MAX by {
                        assert(l.take(k) =~= Seq::<AssetTaxonomyAssignment>::empty());
                    }
                }
            }
        }
        true
    }
}

fn filter_assignments(assignments: &[AssetTaxonomyAssignment], asset_id: &str, taxonomy_id: &str) -> (r: Vec<AssetTaxonomyAssignment>)
    ensures
        r@ == line_assignments(assignments@, asset_id@, taxonomy_id@),
{
    let mut out: Vec<AssetTaxonomyAssignment> = Vec::new();
    let mut i: usize = 0;
    assert(assignments@.take(0) =~= Seq::<AssetTaxonomyAssignment>::empty());
    while i < assignments.len()
        invariant
            i <= assignments@.len(),
            out@ == line_assignments(assignments@.take(i as int), asset_id@, taxonomy_id@),
        decreases assignments@.len() - i,
    {
        proof {
            assert(assignments@.take(i + 1).drop_last() =~= assignments@.take(i as int));
            assert(assignments@.take(i + 1).last() == assignments@[i as int]);
        }
        let a = &assignments[i];
        if str_eq(a.asset_id.as_str(), asset_id) && str_eq(a.taxonomy_id.as_str(), taxonomy_id) {
            out.push(copy_assignment(a));
        }
        i = i + 1;
    }
    assert(assignments@.take(i as int) =~= assignments@);
    out
}

/// A copy of a classification, field by field.
fn copy_assignment(a: &AssetTaxonomyAssignment) -> (r: AssetTaxonomyAssignment)
    ensures
        r == *a,
{
    let r = AssetTaxonomyAssignment {
        id: a.id.clone(),
        asset_id: a.asset_id.clone(),
        taxonomy_id: a.taxonomy_id.clone(),
        category_id: a.category_id.clone(),
        weight: a.weight,
        source: a.source.clone(),
        updated_at: a.updated_at.clone(),
    };
    r
}

/// The decimal text of an integer, with a minus sign when negative.
pub open spec fn int_text(v: int) -> Seq<char> {
    if v < 0 {
        "-"@ + crate::activity_cash_integrity::digits((-v) as nat, 10)
    } else {
        crate::activity_cash_integrity::digits(v as nat, 10)
    }
}

fn i64_string(v: i64) -> (r: String)
    ensures
        r@ == int_text(v as int),
{
    if v < 0 {
        let magnitude: u64 = if v == i64::MIN { 9223372036854775808u64 } else { (-v) as u64 };
        let mut s = String::from_str("-");
        s.append(crate::activity_cash_integrity::digits_string(magnitude, 10).as_str());
        s
    } else {
        crate::activity_cash_integrity::digits_string(v as u64, 10)
    }
}

/// The record `r` holds the values of some rate of `s`.
pub open spec fn rate_from(r: ExchangeRate, s: Seq<ExchangeRate>) -> bool {
    exists|m: int| 0 <= m < s.len() && r.same_as(#[trigger] s[m])
}

/// Some rate of `s` has the id `id`.
pub open spec fn has_rate_id(s: Seq<ExchangeRate>, id: Seq<char>) -> bool {
    exists|i: int| 0 <= i < s.len() && (#[trigger] s[i]).id@ == id
}

/// The rates recorded after a line: each holds the values of a rate
/// recorded before or of one the line used, and every id recorded before
/// or used by the line is there.
pub open spec fn used_step(before: Seq<ExchangeRate>, after: Seq<ExchangeRate>, line_rates: Seq<ExchangeRate>) -> bool {
    &&& forall|i: int| 0 <= i < after.len() ==> rate_from(#[trigger] after[i], before) || rate_from(after[i], line_rates)
    &&& forall|k: int| 0 <= k < before.len() ==> has_rate_id(after, (#[trigger] before[k]).id@)
    &&& forall|m: int| 0 <= m < line_rates.len() ==> has_rate_id(after, (#[trigger] line_rates[m]).id@)
}

/// The record `r` holds the values of a rate of one of the conversions.
pub open spec fn rate_in_conversions(r: ExchangeRate, convs: Seq<(Dec, Option<WorksheetPricingSource>, Vec<ExchangeRate>)>) -> bool {
    exists|k: int, m: int| 0 <= k < convs.len() && 0 <= m < convs[k].2@.len() && r.same_as(#[trigger] convs[k].2@[m])
}

/// The rates recorded over a sequence of conversions: each holds the
/// values of a rate of some conversion, and every id of those rates is there.
pub open spec fn used_by_lines(used: Seq<ExchangeRate>, convs: Seq<(Dec, Option<WorksheetPricingSource>, Vec<ExchangeRate>)>) -> bool {
    &&& forall|i: int| 0 <= i < used.len() ==> rate_in_conversions(#[trigger] used[i], convs)
    &&& forall|k: int, m: int| 0 <= k < convs.len() && 0 <= m < convs[k].2@.len() ==> has_rate_id(used, (#[trigger] convs[k].2@[m]).id@)
}

proof fn lemma_used_by_lines_step(
    used0: Seq<ExchangeRate>,
    used1: Seq<ExchangeRate>,
    convs: Seq<(Dec, Option<WorksheetPricingSource>, Vec<ExchangeRate>)>,
    v: (Dec, Option<WorksheetPricingSource>, Vec<ExchangeRate>),
)
    requires
        used_by_lines(used0, convs),
        used_step(used0, used1, v.2@),
    ensures
        used_by_lines(used1, convs.push(v)),
{
    let c = convs.push(v);
    assert forall|i: int| 0 <= i < used1.len() implies rate_in_conversions(#[trigger] used1[i], c) by {
        if rate_from(used1[i], used0) {
            let x = choose|x: int| 0 <= x < used0.len() && used1[i].same_as(#[trigger] used0[x]);
            assert(rate_in_conversions(used0[x], convs));
            let (k, m) = choose|k: int, m: int| 0 <= k < convs.len() && 0 <= m < convs[k].2@.len() && used0[x].same_as(#[trigger] convs[k].2@[m]);
            assert(c[k] == convs[k]);
            assert(used1[i].same_as(c[k].2@[m]));
        } else {
            assert(rate_from(used1[i], v.2@));
            let m = choose|m: int| 0 <= m < v.2@.len() && used1[i].same_as(#[trigger] v.2@[m]);
            let k = convs.len() as int;
            assert(c[k] == v);
            assert(used1[i].same_as(c[k].2@[m]));
        }
    }
    assert forall|k: int, m: int| 0 <= k < c.len() && 0 <= m < c[k].2@.len() implies has_rate_id(used1, (#[trigger] c[k].2@[m]).id@) by {
        if k < convs.len() {
            assert(c[k] == convs[k]);
            assert(has_rate_id(used0, convs[k].2@[m].id@));
            let x = choose|x: int| 0 <= x < used0.len() && (#[trigger] used0[x]).id@ == convs[k].2@[m].id@;
            assert(has_rate_id(used1, used0[x].id@));
        } else {
            assert(c[k] == v);
            assert(has_rate_id(used1, v.2@[m].id@));
        }
    }
}

/// Records the rates a line used: a rate replaces the one with its id.
fn record_used_rates(used: &mut Vec<ExchangeRate>, rates: Vec<ExchangeRate>, Ghost(recorded): Ghost<Seq<ExchangeRate>>)
    requires
        forall|i: int| 0 <= i < old(used)@.len() ==> (#[trigger] old(used)@[i]).rate.wf(),
        forall|i: int| 0 <= i < rates@.len() ==> (#[trigger] rates@[i]).rate.wf(),
        rates_recorded(rates@, recorded),
    ensures
        forall|i: int| 0 <= i < final(used)@.len() ==> (#[trigger] final(used)@[i]).rate.wf(),
        rates_recorded(old(used)@, recorded) ==> rates_recorded(final(used)@, recorded),
        forall|i: int| 0 <= i < final(used)@.len() ==> rate_from(#[trigger] final(used)@[i], old(used)@) || rate_from(final(used)@[i], rates@),
        forall|k: int| 0 <= k < old(used)@.len() ==> has_rate_id(final(used)@, (#[trigger] old(used)@[k]).id@),
        forall|m: int| 0 <= m < rates@.len() ==> has_rate_id(final(used)@, (#[trigger] rates@[m]).id@),
{
    let ghost u0 = used@;
    let rates = rates;
    let n = rates.len();
    let mut i: usize = 0;
    while i < n
        invariant
            n == rates@.len(),
            i <= n,
            forall|k: int| 0 <= k < used@.len() ==> (#[trigger] used@[k]).rate.wf(),
            forall|k: int| 0 <= k < rates@.len() ==> (#[trigger] rates@[k]).rate.wf(),
            rates_recorded(rates@, recorded),
            rates_recorded(u0, recorded) ==> rates_recorded(used@, recorded),
            forall|k: int| 0 <= k < used@.len() ==> rate_from(#[trigger] used@[k], u0) || rate_from(used@[k], rates@),
            forall|k: int| 0 <= k < u0.len() ==> has_rate_id(used@, (#[trigger] u0[k]).id@),
            forall|m: int| 0 <= m < i ==> has_rate_id(used@, (#[trigger] rates@[m]).id@),
        decreases n - i,
    {
        let rate = rates[i].duplicate();
        assert(exists|j: int| 0 <= j < recorded.len() && rate.same_as(recorded[j])) by {
            let j = choose|j: int| 0 <= j < recorded.len() && (#[trigger] rates@[i as int]).same_as(recorded[j]);
            assert(rate.same_as(recorded[j]));
        }
        assert(rates@[i as int].rate.wf());
        assert(rate_from(rate, rates@)) by {
            assert(rate.same_as(rates@[i as int]));
        }
        let mut j: usize = 0;
        let mut replaced = false;
        while j < used.len() && !replaced
            invariant
                j <= used@.len(),
                replaced ==> j < used@.len() && used@[j as int].id@ == rate.id@,
            decreases used@.len() - j + (if replaced { 0int } else { 1int }),
        {
            if str_eq(used[j].id.as_str(), rate.id.as_str()) {
                replaced = true;
            } else {
                j = j + 1;
            }
        }
        let ghost used0 = used@;
        if replaced {
            used.set(j, rate);
        } else {
            used.push(rate);
        }
        proof {
            let pos: int = if replaced { j as int } else { used0.len() as int };
            assert(used@[pos] == rate);
            assert forall|k: int| 0 <= k < used@.len() && k != pos implies used@[k] == used0[k] by {}
            assert forall|k: int| 0 <= k < used@.len() implies (#[trigger] used@[k]).rate.wf() by {
                if k != pos {
                    assert(used@[k] == used0[k]);
                }
            }
            if rates_recorded(u0, recorded) {
                assert forall|k: int| 0 <= k < used@.len() implies exists|m: int| 0 <= m < recorded.len() && (#[trigger] used@[k]).same_as(recorded[m]) by {
                    if k != pos {
                        assert(used@[k] == used0[k]);
                    }
                }
            }
            assert forall|k: int| 0 <= k < used@.len() implies rate_from(#[trigger] used@[k], u0) || rate_from(used@[k], rates@) by {
                if k != pos {
                    assert(used@[k] == used0[k]);
                }
            }
            assert forall|id: Seq<char>| has_rate_id(used0, id) implies has_rate_id(used@, id) by {
                let x = choose|x: int| 0 <= x < used0.len() && (#[trigger] used0[x]).id@ == id;
                if x != pos {
                    assert(used@[x] == used0[x]);
                } else {
                    assert(used@[pos].id@ == id);
                }
            }
            assert forall|k: int| 0 <= k < u0.len() implies has_rate_id(used@, (#[trigger] u0[k]).id@) by {
                assert(has_rate_id(used0, u0[k].id@));
            }
            assert forall|m: int| 0 <= m < i + 1 implies has_rate_id(used@, (#[trigger] rates@[m]).id@) by {
                if m < i {
                    assert(has_rate_id(used0, rates@[m].id@));
                } else {
                    assert(used@[pos].id@ == rates@[m].id@);
                }
            }
        }
        i = i + 1;
    }
}

/// The asset key of a holding: its instrument, else the holding itself.
pub open spec fn holding_asset(h: Holding) -> Seq<char> {
    match h.instrument_id {
        Some(i) => i@,
        None => h.id@,
    }
}

/// The units of an asset among holdings, outside cash, added in order from
/// zero (`None`: a `Decimal` overflow).
pub open spec fn held_units(list: Seq<Holding>, asset_id: Seq<char>) -> Option<Dec>
    decreases list.len(),
{
    if list.len() == 0 {
        Some(Dec::zero_spec())
    } else {
        match held_units(list.drop_last(), asset_id) {
            None => None,
            Some(t) => if !list.last().is_cash && holding_asset(list.last()) == asset_id {
                spec_add(t, list.last().quantity)
            } else {
                Some(t)
            },
        }
    }
}

/// The holdings group of an account: the last one recorded for it.
pub open spec fn account_group(holdings: Seq<AccountHoldings>, account_id: Seq<char>) -> Option<int>
    decreases holdings.len(),
{
    if holdings.len() == 0 {
        None
    } else if holdings.last().account_id@ == account_id {
        Some(holdings.len() - 1)
    } else {
        account_group(holdings.drop_last(), account_id)
    }
}

/// The units of an asset an account holds (none when the account has no
/// holdings recorded).
pub open spec fn owned_units(holdings: Seq<AccountHoldings>, account_id: Seq<char>, asset_id: Seq<char>) -> Option<Dec> {
    match account_group(holdings, account_id) {
        None => Some(Dec::zero_spec()),
        Some(g) => held_units(holdings[g].holdings@, asset_id),
    }
}

proof fn lemma_account_group_bounds(holdings: Seq<AccountHoldings>, account_id: Seq<char>)
    ensures
        account_group(holdings, account_id) matches Some(g) ==> 0 <= g < holdings.len() && holdings[g].account_id@ == account_id,
        account_group(holdings, account_id) matches Some(g) ==> forall|j: int| g < j < holdings.len() ==> holdings[j].account_id@ != account_id,
        account_group(holdings, account_id) is None ==> forall|j: int| 0 <= j < holdings.len() ==> holdings[j].account_id@ != account_id,
    decreases holdings.len(),
{
    if holdings.len() > 0 {
        lemma_account_group_bounds(holdings.drop_last(), account_id);
        assert forall|j: int| 0 <= j < holdings.len() - 1 implies holdings.drop_last()[j] == holdings[j] by {}
    }
}

/// The quantity of an asset an account holds, outside cash holdings
/// (`None`: a `Decimal` overflow).
fn owned_quantity(holdings: &[AccountHoldings], account_id: &str, asset_id: &str) -> (r: Option<Dec>)
    requires
        forall|i: int| 0 <= i < holdings@.len() ==> forall|j: int| 0 <= j < (#[trigger] holdings@[i]).holdings@.len() ==> (#[trigger] holdings@[i].holdings@[j]).quantity.wf(),
    ensures
        r matches Some(x) ==> x.wf(),
        r == owned_units(holdings@, account_id@, asset_id@),
{
    // The holdings of the account: the last group recorded for it.
    let mut k = holdings.len();
    let mut group: Option<usize> = None;
    proof {
        lemma_account_group_bounds(holdings@, account_id@);
    }
    while k > 0 && group.is_none()
        invariant
            k <= holdings@.len(),
            group matches Some(g) ==> g < holdings@.len(),
            group is None ==> forall|j: int| k <= j < holdings@.len() ==> holdings@[j].account_id@ != account_id@,
            group matches Some(g) ==> holdings@[g as int].account_id@ == account_id@ && forall|j: int| g < j < holdings@.len() ==> holdings@[j].account_id@ != account_id@,
            account_group(holdings@, account_id@) matches Some(g) ==> 0 <= g < holdings@.len() && holdings@[g].account_id@ == account_id@ && forall|j: int| g < j < holdings@.len() ==> holdings@[j].account_id@ != account_id@,
            account_group(holdings@, account_id@) is None ==> forall|j: int| 0 <= j < holdings@.len() ==> holdings@[j].account_id@ != account_id@,
        decreases k + (if group is None { 1int } else { 0int }),
    {
        if str_eq(holdings[k - 1].account_id.as_str(), account_id) {
            group = Some(k - 1);
        } else {
            k = k - 1;
        }
    }
    assert(group == (match account_group(holdings@, account_id@) { Some(g) => Some(g as usize), None => None::<usize> }));
    let mut total = Dec::zero();
    match group {
        None => Some(total),
        Some(g) => {
            let list = &holdings[g].holdings;
            let mut i: usize = 0;
            assert(list@.take(0) =~= Seq::<Holding>::empty());
            while i < list.len()
                invariant
                    g < holdings@.len(),
                    *list == holdings@[g as int].holdings,
                    forall|j: int| 0 <= j < list@.len() ==> (#[trigger] list@[j]).quantity.wf(),
                    i <= list@.len(),
                    total.wf(),
                    held_units(list@.take(i as int), asset_id@) == Some(total),
                    account_group(holdings@, account_id@) == Some(g as int),
                decreases list@.len() - i,
            {
                proof {
                    assert(list@.take(i + 1).drop_last() =~= list@.take(i as int));
                    assert(list@.take(i + 1).last() == list@[i as int]);
                }
                let h = &list[i];
                if !h.is_cash {
                    let key = AllocationWorksheetService::asset_key(h);
                    if str_eq(key.as_str(), asset_id) {
                        total = match dec_add(total, h.quantity) {
                            Some(x) => x,
                            None => {
                                assert(held_units(list@.take(i + 1), asset_id@) is None);
                                proof { lemma_held_units_none_extends(list@, asset_id@, i + 1); }
                                assert(list@.take(list@.len() as int) =~= list@);
                                return None;
                            },
                        };
                    }
                }
                i = i + 1;
            }
            assert(list@.take(i as int) =~= list@);
            Some(total)
        },
    }
}

/// An overflow in a prefix is an overflow of the whole sum.
proof fn lemma_held_units_none_extends(list: Seq<Holding>, asset_id: Seq<char>, k: int)
    requires
        0 <= k <= list.len(),
        held_units(list.take(k), asset_id) is None,
    ensures
        held_units(list, asset_id) is None,
    decreases list.len() - k,
{
    if k < list.len() {
        assert(list.take(k + 1).drop_last() =~= list.take(k));
        lemma_held_units_none_extends(list, asset_id, k + 1);
    } else {
        assert(list.take(k) =~= list);
    }
}

/// The quantity already reduced from a position: that of its first entry,
/// else zero.
pub open spec fn reduced_so_far(reductions: Seq<(String, String, Dec)>, account_id: Seq<char>, asset_id: Seq<char>) -> Dec
    decreases reductions.len(),
{
    if reductions.len() == 0 {
        Dec::zero_spec()
    } else if reductions[0].0@ == account_id && reductions[0].1@ == asset_id {
        reductions[0].2
    } else {
        reduced_so_far(reductions.drop_first(), account_id, asset_id)
    }
}

/// Entries before the first one of a position do not change what is
/// recorded for it.
proof fn lemma_reduced_skip(s: Seq<(String, String, Dec)>, a: Seq<char>, b: Seq<char>, j: int)
    requires
        0 <= j <= s.len(),
        forall|k: int| 0 <= k < j ==> !(s[k].0@ == a && s[k].1@ == b),
    ensures
        reduced_so_far(s, a, b) == reduced_so_far(s.subrange(j, s.len() as int), a, b),
    decreases j,
{
    if j > 0 {
        assert forall|k: int| 0 <= k < j - 1 implies !(s.drop_first()[k].0@ == a && s.drop_first()[k].1@ == b) by {
            assert(s.drop_first()[k] == s[k + 1]);
        }
        lemma_reduced_skip(s.drop_first(), a, b, j - 1);
        assert(s.drop_first().subrange(j - 1, s.len() - 1) =~= s.subrange(j, s.len() as int));
    } else {
        assert(s.subrange(0, s.len() as int) =~= s);
    }
}

/// Replacing the first entry of a position changes what is recorded for it
/// alone.
proof fn lemma_reduced_update(s: Seq<(String, String, Dec)>, j: int, e: (String, String, Dec), x: Seq<char>, y: Seq<char>)
    requires
        0 <= j < s.len(),
        s[j].0@ == e.0@ && s[j].1@ == e.1@,
        forall|k: int| 0 <= k < j ==> !(s[k].0@ == e.0@ && s[k].1@ == e.1@),
    ensures
        reduced_so_far(s.update(j, e), x, y) == if x == e.0@ && y == e.1@ { e.2 } else { reduced_so_far(s, x, y) },
    decreases j,
{
    let u = s.update(j, e);
    if j == 0 {
        assert(u.drop_first() =~= s.drop_first());
    } else {
        assert(u.drop_first() =~= s.drop_first().update(j - 1, e));
        assert forall|k: int| 0 <= k < j - 1 implies !(s.drop_first()[k].0@ == e.0@ && s.drop_first()[k].1@ == e.1@) by {
            assert(s.drop_first()[k] == s[k + 1]);
        }
        lemma_reduced_update(s.drop_first(), j - 1, e, x, y);
        assert(u[0] == s[0]);
    }
}

/// Appending a position no entry has records it alone.
proof fn lemma_reduced_push(s: Seq<(String, String, Dec)>, e: (String, String, Dec), x: Seq<char>, y: Seq<char>)
    requires
        forall|k: int| 0 <= k < s.len() ==> !(s[k].0@ == e.0@ && s[k].1@ == e.1@),
    ensures
        reduced_so_far(s.push(e), x, y) == if x == e.0@ && y == e.1@ { e.2 } else { reduced_so_far(s, x, y) },
    decreases s.len(),
{
    if s.len() == 0 {
        assert(s.push(e).drop_first() =~= s);
    } else {
        assert(s.push(e).drop_first() =~= s.drop_first().push(e));
        assert forall|k: int| 0 <= k < s.len() - 1 implies !(s.drop_first()[k].0@ == e.0@ && s.drop_first()[k].1@ == e.1@) by {
            assert(s.drop_first()[k] == s[k + 1]);
        }
        lemma_reduced_push(s.drop_first(), e, x, y);
        assert(s.push(e)[0] == s[0]);
    }
}

/// Adds a line's reduced quantity to its position and returns the position's
/// total reduction (`None`: a `Decimal` overflow).
fn add_reduction(state: &mut LineState, account_id: &str, asset_id: &str, quantity: Dec) -> (r: Option<Dec>)
    requires
        old(state).wf(),
        quantity.wf(),
    ensures
        final(state).wf(),
        final(state).warnings@ == old(state).warnings@,
        final(state).used_fx_rates@ == old(state).used_fx_rates@,
        r matches Some(x) ==> x.wf(),
        r == spec_add(reduced_so_far(old(state).reductions@, account_id@, asset_id@), quantity),
        r matches Some(t) ==> forall|a: Seq<char>, b: Seq<char>| #[trigger] reduced_so_far(final(state).reductions@, a, b)
            == if a == account_id@ && b == asset_id@ { t } else { reduced_so_far(old(state).reductions@, a, b) },
{
    let ghost s0 = state.reductions@;
    let mut j: usize = 0;
    let n = state.reductions.len();
    while j < n
        invariant
            n == state.reductions@.len(),
            j <= n,
            state.wf(),
            quantity.wf(),
            state.warnings@ == old(state).warnings@,
            state.used_fx_rates@ == old(state).used_fx_rates@,
            state.reductions@ == s0,
            s0 == old(state).reductions@,
            forall|k: int| 0 <= k < j ==> !(s0[k].0@ == account_id@ && s0[k].1@ == asset_id@),
        decreases n - j,
    {
        if str_eq(state.reductions[j].0.as_str(), account_id) && str_eq(state.reductions[j].1.as_str(), asset_id) {
            let before = state.reductions[j].2;
            assert(state.reductions@[j as int].2.wf());
            proof {
                lemma_reduced_skip(s0, account_id@, asset_id@, j as int);
                assert(s0.subrange(j as int, s0.len() as int)[0] == s0[j as int]);
            }
            let total = match dec_add(before, quantity) {
                Some(x) => x,
                None => return None,
            };
            let entry = (String::from_str(account_id), String::from_str(asset_id), total);
            state.reductions.set(j, entry);
            proof {
                assert forall|a: Seq<char>, b: Seq<char>| #[trigger] reduced_so_far(state.reductions@, a, b)
                    == if a == account_id@ && b == asset_id@ { total } else { reduced_so_far(s0, a, b) } by {
                    lemma_reduced_update(s0, j as int, entry, a, b);
                }
            }
            return Some(total);
        }
        j = j + 1;
    }
    proof {
        lemma_reduced_skip(s0, account_id@, asset_id@, n as int);
        assert(s0.subrange(n as int, n as int) =~= Seq::<(String, String, Dec)>::empty());
    }
    let total = match dec_add(Dec::zero(), quantity) {
        Some(x) => x,
        None => return None,
    };
    let entry = (String::from_str(account_id), String::from_str(asset_id), total);
    state.reductions.push(entry);
    proof {
        assert forall|a: Seq<char>, b: Seq<char>| #[trigger] reduced_so_far(state.reductions@, a, b)
            == if a == account_id@ && b == asset_id@ { total } else { reduced_so_far(s0, a, b) } by {
            lemma_reduced_push(s0, entry, a, b);
        }
    }
    Some(total)
}

pub open spec fn block_message(reason: Option<String>) -> Seq<char> {
    "blocked by your worksheet constraint"@ + match reason {
        Some(r) => ": "@ + r@,
        None => Seq::empty(),
    }
}

pub open spec fn avoid_message(reason: Option<String>) -> Seq<char> {
    "This line conflicts with your Avoid constraint"@ + match reason {
        Some(r) => " ("@ + r@ + ")"@,
        None => Seq::empty(),
    } + "."@
}

/// A warning with the given kind, line, id suffix and message.
pub open spec fn warning_is(w: WorksheetWarning, spec: (WorksheetWarningKind, Option<Seq<char>>, Seq<char>, Seq<char>)) -> bool {
    &&& w.id@ == kind_key(spec.0) + ":"@ + (match spec.1 {
        Some(l) => l,
        None => "worksheet"@,
    }) + ":"@ + spec.2
    &&& w.kind == spec.0
    &&& (match (w.line_id, spec.1) {
        (Some(a), Some(b)) => a@ == b,
        (None, None) => true,
        _ => false,
    })
    &&& w.message@ == spec.3
    &&& w.acknowledgement_required
}

/// The warnings are those described, in order.
pub open spec fn warnings_are(ws: Seq<WorksheetWarning>, specs: Seq<(WorksheetWarningKind, Option<Seq<char>>, Seq<char>, Seq<char>)>) -> bool {
    &&& ws.len() == specs.len()
    &&& forall|i: int| 0 <= i < ws.len() ==> warning_is(#[trigger] ws[i], specs[i])
}

proof fn lemma_warnings_are_push(
    ws: Seq<WorksheetWarning>,
    specs: Seq<(WorksheetWarningKind, Option<Seq<char>>, Seq<char>, Seq<char>)>,
    w: WorksheetWarning,
    spec: (WorksheetWarningKind, Option<Seq<char>>, Seq<char>, Seq<char>),
)
    requires
        warnings_are(ws, specs),
        warning_is(w, spec),
    ensures
        warnings_are(ws.push(w), specs.push(spec)),
{
    assert forall|i: int| 0 <= i < ws.len() + 1 implies warning_is(#[trigger] ws.push(w)[i], specs.push(spec)[i]) by {
        if i < ws.len() {
            assert(ws.push(w)[i] == ws[i]);
        }
    }
}

proof fn lemma_warnings_are_concat(
    a: Seq<WorksheetWarning>,
    sa: Seq<(WorksheetWarningKind, Option<Seq<char>>, Seq<char>, Seq<char>)>,
    b: Seq<WorksheetWarning>,
    sb: Seq<(WorksheetWarningKind, Option<Seq<char>>, Seq<char>, Seq<char>)>,
)
    requires
        warnings_are(a, sa),
        warnings_are(b, sb),
    ensures
        warnings_are(a + b, sa + sb),
{
    assert forall|i: int| 0 <= i < (a + b).len() implies warning_is(#[trigger] (a + b)[i], (sa + sb)[i]) by {
        if i < a.len() {
            assert((a + b)[i] == a[i]);
            assert((sa + sb)[i] == sa[i]);
        } else {
            assert((a + b)[i] == b[i - a.len()]);
            assert((sa + sb)[i] == sb[i - a.len()]);
        }
    }
}

/// The warnings of the matching `Avoid` constraints, in order.
pub open spec fn avoid_warnings(
    constraints: Seq<AllocationTargetConstraint>,
    line: AllocationWorksheetLineInput,
    exposures: Seq<WorksheetCategoryExposure>,
) -> Seq<(WorksheetWarningKind, Option<Seq<char>>, Seq<char>, Seq<char>)>
    decreases constraints.len(),
{
    if constraints.len() == 0 {
        Seq::empty()
    } else {
        let rest = avoid_warnings(constraints.drop_last(), line, exposures);
        let c = constraints.last();
        if c.effect == ConstraintEffect::Avoid && constraint_matches_spec(c, line, exposures) {
            rest.push((WorksheetWarningKind::AvoidConstraint, Some(line.line_id@), c.id@, avoid_message(c.reason)))
        } else {
            rest
        }
    }
}

/// The first blocking constraint among those that match a line, if any.
pub open spec fn first_block(
    constraints: Seq<AllocationTargetConstraint>,
    line: AllocationWorksheetLineInput,
    exposures: Seq<WorksheetCategoryExposure>,
) -> Option<int>
    decreases constraints.len(),
{
    if constraints.len() == 0 {
        None
    } else {
        match first_block(constraints.drop_last(), line, exposures) {
            Some(i) => Some(i),
            None => if constraints.last().effect == ConstraintEffect::Block && constraint_matches_spec(constraints.last(), line, exposures) {
                Some(constraints.len() - 1)
            } else {
                None
            },
        }
    }
}

/// Applies the constraints that match a line in order: a `Block` refuses the
/// line; an `Avoid` adds an acknowledgeable warning.
fn apply_constraints(
    line: &AllocationWorksheetLineInput,
    constraints: &[AllocationTargetConstraint],
    exposures: &[WorksheetCategoryExposure],
    warnings: &mut Vec<WorksheetWarning>,
) -> (r: Result<(), CoreError>)
    ensures
        match first_block(constraints@, *line, exposures@) {
            Some(i) => r matches Err(e) && e is InvalidInput && e.message() == line_message(line.line_id@, block_message(constraints@[i].reason)),
            None => r is Ok,
        },
        old(warnings)@.len() <= final(warnings)@.len(),
        forall|i: int| 0 <= i < old(warnings)@.len() ==> final(warnings)@[i] == old(warnings)@[i],
        forall|i: int| old(warnings)@.len() <= i < final(warnings)@.len() ==> (#[trigger] final(warnings)@[i]).kind == WorksheetWarningKind::AvoidConstraint,
        r is Ok ==> warnings_are(final(warnings)@.subrange(old(warnings)@.len() as int, final(warnings)@.len() as int), avoid_warnings(constraints@, *line, exposures@)),
{
    let ghost w0 = warnings@;
    let mut i: usize = 0;
    assert(constraints@.take(0) =~= Seq::<AllocationTargetConstraint>::empty());
    while i < constraints.len()
        invariant
            i <= constraints@.len(),
            first_block(constraints@.take(i as int), *line, exposures@) is None,
            w0 == old(warnings)@,
            w0.len() <= warnings@.len(),
            forall|k: int| 0 <= k < w0.len() ==> warnings@[k] == w0[k],
            forall|k: int| w0.len() <= k < warnings@.len() ==> (#[trigger] warnings@[k]).kind == WorksheetWarningKind::AvoidConstraint,
            warnings_are(warnings@.subrange(w0.len() as int, warnings@.len() as int), avoid_warnings(constraints@.take(i as int), *line, exposures@)),
        decreases constraints@.len() - i,
    {
        let c = &constraints[i];
        let ghost wb = warnings@;
        proof {
            assert(constraints@.take(i + 1).drop_last() =~= constraints@.take(i as int));
            assert(constraints@.take(i + 1).last() == constraints@[i as int]);
        }
        if AllocationWorksheetService::constraint_matches(c, line, exposures) {
            match c.effect {
                ConstraintEffect::Block => {
                    let mut m = String::from_str("blocked by your worksheet constraint");
                    match &c.reason {
                        Some(reason) => {
                            m.append(": ");
                            m.append(reason.as_str());
                        },
                        None => {},
                    }
                    proof {
                        lemma_first_block_prefix(constraints@, *line, exposures@, i + 1);
                    }
                    return Err(AllocationWorksheetService::line_invalid(line.line_id.as_str(), m.as_str()));
                },
                ConstraintEffect::Avoid => {
                    let mut m = String::from_str("This line conflicts with your Avoid constraint");
                    match &c.reason {
                        Some(reason) => {
                            m.append(" (");
                            m.append(reason.as_str());
                            m.append(")");
                        },
                        None => {},
                    }
                    m.append(".");
                    let w = AllocationWorksheetService::warning(WorksheetWarningKind::AvoidConstraint, Some(line.line_id.as_str()), c.id.as_str(), m);
                    warnings.push(w);
                    proof {
                        assert(w.message@ =~= avoid_message(c.reason));
                        assert(warnings@.subrange(w0.len() as int, warnings@.len() as int) =~= wb.subrange(w0.len() as int, wb.len() as int).push(w));
                        lemma_warnings_are_push(wb.subrange(w0.len() as int, wb.len() as int), avoid_warnings(constraints@.take(i as int), *line, exposures@), w,
                            (WorksheetWarningKind::AvoidConstraint, Some(line.line_id@), c.id@, avoid_message(c.reason)));
                    }
                },
            }
        }
        i = i + 1;
    }
    assert(constraints@.take(i as int) =~= constraints@);
    Ok(())
}

proof fn lemma_first_block_prefix(
    constraints: Seq<AllocationTargetConstraint>,
    line: AllocationWorksheetLineInput,
    exposures: Seq<WorksheetCategoryExposure>,
    k: int,
)
    requires
        0 <= k <= constraints.len(),
        first_block(constraints.take(k), line, exposures) is Some,
    ensures
        first_block(constraints, line, exposures) == first_block(constraints.take(k), line, exposures),
    decreases constraints.len() - k,
{
    if k < constraints.len() {
        assert(constraints.take(k + 1).drop_last() =~= constraints.take(k));
        lemma_first_block_prefix(constraints, line, exposures, k + 1);
    } else {
        assert(constraints.take(k) =~= constraints);
    }
}

pub open spec fn assets_wf(assets: Seq<WorksheetAsset>) -> bool {
    forall|i: int| 0 <= i < assets.len() ==> (#[trigger] assets[i]).contract_multiplier.wf()
}

pub open spec fn holdings_wf(holdings: Seq<AccountHoldings>) -> bool {
    forall|i: int| 0 <= i < holdings.len() ==> forall|j: int| 0 <= j < (#[trigger] holdings[i]).holdings@.len() ==> (#[trigger] holdings[i].holdings@[j]).quantity.wf()
}

/// Everything a line reads besides the line itself.
pub struct LineContext<'a> {
    pub target: &'a AllocationTarget,
    pub assets: &'a [WorksheetAsset],
    pub snapshots: &'a [LatestQuoteSnapshot],
    pub assignments: &'a [AssetTaxonomyAssignment],
    pub category_names: &'a [(String, String)],
    pub fx_rates: &'a [ExchangeRate],
    pub base: &'a FxCurrency,
    pub today: i32,
    pub constraints: &'a [AllocationTargetConstraint],
    pub holdings: &'a [AccountHoldings],
    pub min_line_amount: Dec,
}

impl<'a> LineContext<'a> {
    pub open spec fn wf(&self) -> bool {
        &&& assets_wf(self.assets@)
        &&& snapshots_wf(self.snapshots@)
        &&& classifications_fit(self.assignments@, self.target.taxonomy_id@)
        &&& rates_wf(self.fx_rates@)
        &&& self.base.denormalization_multiplier.wf()
        &&& holdings_wf(self.holdings@)
        &&& self.min_line_amount.wf()
    }
}

/// The line's fields carried into its result.
pub open spec fn result_echoes_line(res: AllocationWorksheetLineResult, line: AllocationWorksheetLineInput) -> bool {
    &&& res.line_id@ == line.line_id@
    &&& res.direction == line.direction
    &&& res.asset_id@ == line.asset_id@
    &&& res.account_id@ == line.account_id@
    &&& res.input_mode == line.input_mode
    &&& res.input_value == line.value
}

/// The currency a quote is in.
pub open spec fn quote_currency(q: SecurityQuote) -> FxCurrency {
    FxCurrency { code: q.currency, normalized: q.currency_normalized, denormalization_multiplier: q.currency_multiplier }
}

/// The symbol a line shows: the asset's display code, else its instrument
/// symbol, else its id.
pub open spec fn asset_symbol(asset: WorksheetAsset) -> Seq<char> {
    match asset.display_code {
        Some(c) => c@,
        None => match asset.instrument_symbol {
            Some(s) => s@,
            None => asset.id@,
        },
    }
}

pub open spec fn asset_name(asset: WorksheetAsset) -> Seq<char> {
    match asset.name {
        Some(n) => n@,
        None => Seq::empty(),
    }
}

/// The asset and quote of a line that is not refused before pricing.
pub open spec fn line_asset(line: AllocationWorksheetLineInput, ctx: LineContext) -> WorksheetAsset {
    ctx.assets@[asset_for(ctx.assets@, line.asset_id@).unwrap()]
}

pub open spec fn line_quote(line: AllocationWorksheetLineInput, ctx: LineContext) -> SecurityQuote {
    match quote_for_line_spec(line, ctx.snapshots@) {
        Ok(si) => ctx.snapshots@[si].quote.unwrap(),
        Err(_) => arbitrary(),
    }
}

/// No recorded rate path joins the quote's currency to the base currency.
pub open spec fn line_fx_unreachable(line: AllocationWorksheetLineInput, ctx: LineContext) -> bool {
    let a = ascii_upper_spec(line_quote(line, ctx).currency_normalized@);
    let b = ascii_upper_spec(ctx.base.normalized@);
    a != b && !fx_reachable(ctx.fx_rates@, a, b)
}

/// A constraint matches a line with these exposures.
pub open spec fn constraint_matches_views(constraint: AllocationTargetConstraint, line: AllocationWorksheetLineInput, views: Seq<ExposureView>) -> bool {
    &&& action_matches_spec(line.direction, constraint.action)
    &&& match constraint.subject_type {
        ConstraintSubjectType::Asset => constraint.subject_id@ == line.asset_id@,
        ConstraintSubjectType::Account => constraint.subject_id@ == line.account_id@,
        ConstraintSubjectType::Category => exists|i: int| 0 <= i < views.len() && (#[trigger] views[i]).category_id == constraint.subject_id@,
    }
}

/// The first blocking constraint that matches a line with these exposures.
pub open spec fn first_block_views(constraints: Seq<AllocationTargetConstraint>, line: AllocationWorksheetLineInput, views: Seq<ExposureView>) -> Option<int>
    decreases constraints.len(),
{
    if constraints.len() == 0 {
        None
    } else {
        match first_block_views(constraints.drop_last(), line, views) {
            Some(i) => Some(i),
            None => if constraints.last().effect == ConstraintEffect::Block && constraint_matches_views(constraints.last(), line, views) {
                Some(constraints.len() - 1)
            } else {
                None
            },
        }
    }
}

proof fn lemma_first_block_views(constraints: Seq<AllocationTargetConstraint>, line: AllocationWorksheetLineInput, exposures: Seq<WorksheetCategoryExposure>)
    ensures
        first_block(constraints, line, exposures) == first_block_views(constraints, line, exposure_views(exposures)),
    decreases constraints.len(),
{
    if constraints.len() > 0 {
        lemma_first_block_views(constraints.drop_last(), line, exposures);
        let c = constraints.last();
        let views = exposure_views(exposures);
        if c.subject_type == ConstraintSubjectType::Category {
            if exists|i: int| 0 <= i < exposures.len() && (#[trigger] exposures[i]).category_id@ == c.subject_id@ {
                let i = choose|i: int| 0 <= i < exposures.len() && (#[trigger] exposures[i]).category_id@ == c.subject_id@;
                assert(views[i].category_id == c.subject_id@);
            }
            if exists|i: int| 0 <= i < views.len() && (#[trigger] views[i]).category_id == c.subject_id@ {
                let i = choose|i: int| 0 <= i < views.len() && (#[trigger] views[i]).category_id == c.subject_id@;
                assert(exposures[i].category_id@ == c.subject_id@);
            }
        }
        assert(constraint_matches_spec(c, line, exposures) == constraint_matches_views(c, line, views));
    }
}

/// The message of a reduction beyond the units held.
pub open spec fn reduction_message(line: AllocationWorksheetLineInput, owned: Dec) -> Seq<char> {
    line_message(line.line_id@, "reduction exceeds the "@ + decimal_text(owned@) + " units currently held in this account"@)
}

pub open spec fn refused_with(out: Result<AllocationWorksheetLineResult, CoreError>, m: Seq<char>) -> bool {
    out matches Err(e) && e is InvalidInput && e.message() == m
}

/// The constraint check of a priced line: a matching `Block` refuses it.
pub open spec fn block_outcome(
    constraints: Seq<AllocationTargetConstraint>,
    line: AllocationWorksheetLineInput,
    views: Seq<ExposureView>,
    out: Result<AllocationWorksheetLineResult, CoreError>,
) -> bool {
    match first_block_views(constraints, line, views) {
        Some(i) => refused_with(out, line_message(line.line_id@, block_message(constraints[i].reason))),
        None => out is Ok,
    }
}

/// The outcome of a line once its rate is known: the quantity and amount
/// checks, the classification check, the holding check of a reduction and
/// the constraints refuse it in that order, or it is priced.  False where a
/// `Decimal` operation overflows.
pub open spec fn line_outcome(
    line: AllocationWorksheetLineInput,
    ctx: LineContext,
    reductions: Seq<(String, String, Dec)>,
    rate: Dec,
    out: Result<AllocationWorksheetLineResult, CoreError>,
) -> bool {
    match fx_applied(line_quote(line, ctx).close, rate, line_asset(line, ctx).contract_multiplier) {
        None => false,
        Some(unit_price) => match resolved_quantity_and_amount_spec(line, unit_price, ctx.target.whole_shares_only) {
            None => false,
            Some(Err(m)) => refused_with(out, m),
            Some(Ok((quantity, amount))) => match category_exposures_spec(line, amount, line_assignments(ctx.assignments@, line.asset_id@, ctx.target.taxonomy_id@), ctx.category_names@) {
                None => false,
                Some(Err(m)) => refused_with(out, m),
                Some(Ok(views)) => if line.direction == WorksheetDirection::Reduce {
                    match (owned_units(ctx.holdings@, line.account_id@, line.asset_id@), spec_add(reduced_so_far(reductions, line.account_id@, line.asset_id@), quantity)) {
                        (Some(o), Some(t)) => if o.units() < t.units() {
                            refused_with(out, reduction_message(line, o))
                        } else {
                            block_outcome(ctx.constraints@, line, views, out)
                        },
                        _ => false,
                    }
                } else {
                    block_outcome(ctx.constraints@, line, views, out)
                },
            },
        },
    }
}

/// The warnings a priced line adds, in order: its `Avoid` constraints, a
/// dated quote, a dated rate, a missing or partial classification, and an
/// amount below the worksheet minimum.
pub open spec fn priced_line_warnings(
    line: AllocationWorksheetLineInput,
    ctx: LineContext,
    res: AllocationWorksheetLineResult,
) -> Seq<(WorksheetWarningKind, Option<Seq<char>>, Seq<char>, Seq<char>)> {
    let lid = Some(line.line_id@);
    let q = line_quote(line, ctx);
    let classified = sum_weights(line_assignments(ctx.assignments@, line.asset_id@, ctx.target.taxonomy_id@));
    avoid_warnings(ctx.constraints@, line, res.category_exposures@)
    + (if res.quote_source.is_stale {
        seq![(WorksheetWarningKind::StaleQuote, lid, q.id@, "Uses a dated security price from "@ + q.date@ + "."@)]
    } else {
        Seq::empty()
    })
    + (match res.fx_source {
        Some(fx) => if fx.is_stale {
            seq![(WorksheetWarningKind::StaleFx, lid, fx.id@, "Uses a dated FX rate from "@ + fx.timestamp@ + "."@)]
        } else {
            Seq::empty()
        },
        None => Seq::empty(),
    })
    + (if classified == 0 {
        seq![(WorksheetWarningKind::UnclassifiedAsset, lid, line.asset_id@, "The security is unclassified; its full value is shown as unclassified exposure."@)]
    } else if classified < 10000 {
        seq![(WorksheetWarningKind::PartialClassification, lid, line.asset_id@, partial_message(classified))]
    } else {
        Seq::empty()
    })
    + (if 0 < ctx.min_line_amount.units() && res.estimated_amount.units() < ctx.min_line_amount.units() {
        seq![(WorksheetWarningKind::BelowMinimumLine, lid, "minimum-line"@, "Resolved amount "@ + decimal_text(res.estimated_amount@) + " is below your worksheet minimum of "@ + decimal_text(ctx.min_line_amount@) + "."@)]
    } else {
        Seq::empty()
    })
}

/// A priced line: its asset is an active investment whose symbol, name and
/// multiplier it carries; its unit price is the quote converted to the base
/// currency times the multiplier; its quantity and amount follow from its
/// unit price, and its exposures from its amount and the asset's
/// classifications; no `Block` constraint matches it.
pub open spec fn line_priced(res: AllocationWorksheetLineResult, line: AllocationWorksheetLineInput, ctx: LineContext) -> bool {
    &&& result_echoes_line(res, line)
    &&& asset_for(ctx.assets@, line.asset_id@) matches Some(ai)
    &&& ctx.assets@[ai].is_active && ctx.assets@[ai].is_investment
    &&& res.symbol@ == asset_symbol(ctx.assets@[ai])
    &&& res.name@ == asset_name(ctx.assets@[ai])
    &&& res.contract_multiplier == ctx.assets@[ai].contract_multiplier
    &&& quote_for_line_spec(line, ctx.snapshots@) matches Ok(si)
    &&& ctx.snapshots@[si].quote matches Some(q)
    &&& res.quote_source.value == q.close
    &&& res.quote_source.is_stale == ctx.snapshots@[si].is_stale
    &&& res.quote_source.id@ == q.id@
    &&& res.quote_source.source_type@ == "security_quote"@
    &&& res.quote_source.from_currency@ == q.currency@
    &&& res.quote_source.to_currency@ == q.currency@
    &&& res.quote_source.timestamp@ == q.timestamp@
    &&& exists|v: (Dec, Option<WorksheetPricingSource>, Vec<ExchangeRate>)|
        #[trigger] fx_conversion(ctx.fx_rates@, quote_currency(q), *ctx.base, ctx.today, v)
        && res.fx_source == v.1
        && fx_applied(q.close, v.0, ctx.assets@[ai].contract_multiplier) == Some(res.unit_price)
    &&& first_block(ctx.constraints@, line, res.category_exposures@) is None
    &&& (match resolved_quantity_and_amount_spec(line, res.unit_price, ctx.target.whole_shares_only) {
        Some(Ok(qa)) => qa == (res.quantity, res.estimated_amount),
        _ => false,
    })
    &&& (match category_exposures_spec(line, res.estimated_amount, line_assignments(ctx.assignments@, line.asset_id@, ctx.target.taxonomy_id@), ctx.category_names@) {
        Some(Ok(v)) => exposure_views(res.category_exposures@) == v,
        _ => false,
    })
}

/// Resolving a conversion from `from` to `to` over `rates` may overflow.
pub open spec fn fx_resolution_overflows(rates: Seq<ExchangeRate>, from: FxCurrency, to: FxCurrency) -> bool {
    if ascii_upper_spec(from.normalized@) == ascii_upper_spec(to.normalized@) {
        match source_multiplier(from) {
            None => true,
            Some(sm) => spec_mul(sm, to.denormalization_multiplier) is None,
        }
    } else {
        fx_overflow_possible(rates, from, to)
    }
}

/// A `Decimal` operation of pricing the line at the rate `rate` overflows:
/// its unit price, its quantity and amount, its exposures, or (for a
/// reduction) the units held or reduced.
pub open spec fn outcome_overflows(line: AllocationWorksheetLineInput, ctx: LineContext, reductions: Seq<(String, String, Dec)>, rate: Dec) -> bool {
    match fx_applied(line_quote(line, ctx).close, rate, line_asset(line, ctx).contract_multiplier) {
        None => true,
        Some(unit_price) => match resolved_quantity_and_amount_spec(line, unit_price, ctx.target.whole_shares_only) {
            None => true,
            Some(Err(_)) => false,
            Some(Ok((quantity, amount))) => match category_exposures_spec(line, amount, line_assignments(ctx.assignments@, line.asset_id@, ctx.target.taxonomy_id@), ctx.category_names@) {
                None => true,
                Some(Err(_)) => false,
                Some(Ok(_)) => line.direction == WorksheetDirection::Reduce && (owned_units(ctx.holdings@, line.account_id@, line.asset_id@) is None
                    || spec_add(reduced_so_far(reductions, line.account_id@, line.asset_id@), quantity) is None),
            },
        },
    }
}

/// A `Decimal` operation of pricing the line overflows: resolving its
/// conversion, or pricing it at the converted rate.
pub open spec fn line_overflows(line: AllocationWorksheetLineInput, ctx: LineContext, reductions: Seq<(String, String, Dec)>) -> bool {
    let from = quote_currency(line_quote(line, ctx));
    ||| fx_resolution_overflows(ctx.fx_rates@, from, *ctx.base)
    ||| exists|v: (Dec, Option<WorksheetPricingSource>, Vec<ExchangeRate>)|
        #[trigger] fx_conversion(ctx.fx_rates@, from, *ctx.base, ctx.today, v) && outcome_overflows(line, ctx, reductions, v.0)
}

/// Why a line is refused before it is priced.
pub open spec fn line_refusal(line: AllocationWorksheetLineInput, ctx: LineContext) -> Option<Seq<char>> {
    match asset_for(ctx.assets@, line.asset_id@) {
        None => Some(line_message(line.line_id@, "selected tracked security no longer exists"@)),
        Some(ai) => if !(ctx.assets@[ai].is_active && ctx.assets@[ai].is_investment) {
            Some(line_message(line.line_id@, "selected asset is not an active tracked investment security"@))
        } else {
            match quote_for_line_spec(line, ctx.snapshots@) {
                Err(m) => Some(m),
                Ok(_) => None,
            }
        },
    }
}

pub open spec fn partial_message(classified: int) -> Seq<char> {
    "The security is classified for "@ + int_text(classified) + " bps; the remaining "@ + int_text(10000 - classified) + " bps is shown as unclassified exposure."@
}

impl AllocationWorksheetService {
    /// Prices one worksheet line and applies its guardrails: the asset must
    /// be an active investment with a positive quote; the unit price is the
    /// quote converted to the base currency times the contract multiplier;
    /// a reduction cannot exceed the units held; a matching `Block`
    /// constraint refuses the line.  Warnings for `Avoid` constraints, dated
    /// prices and rates, incomplete classification and small lines are
    /// added to the state.  `None`: a `Decimal` overflow.
    #[verifier::rlimit(100)]
    #[verifier::spinoff_prover]
    pub fn price_line(
        line: &AllocationWorksheetLineInput,
        ctx: &LineContext,
        state: &mut LineState,
    ) -> (r: Option<Result<AllocationWorksheetLineResult, CoreError>>)
        requires
            ctx.wf(),
            old(state).wf(),
            line.value.wf(),
        ensures
            final(state).wf(),
            old(state).warnings@.len() <= final(state).warnings@.len(),
            forall|i: int| 0 <= i < old(state).warnings@.len() ==> final(state).warnings@[i] == old(state).warnings@[i],
            line_refusal(*line, *ctx) matches Some(m) ==> (r matches Some(Err(e)) && e is InvalidInput && e.message() == m),
            line_refusal(*line, *ctx) is None && line_fx_unreachable(*line, *ctx) ==> (r is None || refused_with(r.unwrap(), no_fx_rate_message(quote_currency(line_quote(*line, *ctx)), *ctx.base))),
            line_refusal(*line, *ctx) is None && !line_fx_unreachable(*line, *ctx) && r is Some ==> exists|v: (Dec, Option<WorksheetPricingSource>, Vec<ExchangeRate>)|
                #[trigger] fx_conversion(ctx.fx_rates@, quote_currency(line_quote(*line, *ctx)), *ctx.base, ctx.today, v)
                && line_outcome(*line, *ctx, old(state).reductions@, v.0, r.unwrap()),
            r matches Some(Ok(res)) ==> line_priced(res, *line, *ctx),
            r matches Some(Ok(res)) ==> result_wf(res),
            r matches Some(Ok(res)) ==> line.direction == WorksheetDirection::Reduce ==> {
                &&& owned_units(ctx.holdings@, line.account_id@, line.asset_id@) matches Some(o)
                &&& spec_add(reduced_so_far(old(state).reductions@, line.account_id@, line.asset_id@), res.quantity) matches Some(t)
                &&& t.units() <= o.units()
                &&& forall|a: Seq<char>, b: Seq<char>| #[trigger] reduced_so_far(final(state).reductions@, a, b)
                    == if a == line.account_id@ && b == line.asset_id@ { t } else { reduced_so_far(old(state).reductions@, a, b) }
            },
            line.direction != WorksheetDirection::Reduce ==> final(state).reductions@ == old(state).reductions@,
            rates_recorded(old(state).used_fx_rates@, ctx.fx_rates@) ==> rates_recorded(final(state).used_fx_rates@, ctx.fx_rates@),
            r matches Some(Ok(res)) ==> warnings_are(final(state).warnings@.subrange(old(state).warnings@.len() as int, final(state).warnings@.len() as int), priced_line_warnings(*line, *ctx, res)),
            r matches Some(Err(e)) ==> e is InvalidInput,
            line_refusal(*line, *ctx) is None && r is None ==> line_overflows(*line, *ctx, old(state).reductions@),
            r matches Some(Ok(_)) ==> exists|v: (Dec, Option<WorksheetPricingSource>, Vec<ExchangeRate>)|
                #[trigger] fx_conversion(ctx.fx_rates@, quote_currency(line_quote(*line, *ctx)), *ctx.base, ctx.today, v)
                && used_step(old(state).used_fx_rates@, final(state).used_fx_rates@, v.2@),
    {
        let ai = match find_asset(ctx.assets, line.asset_id.as_str()) {
            Some(i) => i,
            None => return Some(Err(Self::line_invalid(line.line_id.as_str(), "selected tracked security no longer exists"))),
        };
        let asset = &ctx.assets[ai];
        if !asset.is_active || !asset.is_investment {
            return Some(Err(Self::line_invalid(line.line_id.as_str(), "selected asset is not an active tracked investment security")));
        }
        let si = match Self::quote_for_line(line, ctx.snapshots) {
            Ok(i) => i,
            Err(e) => return Some(Err(e)),
        };
        let snapshot = &ctx.snapshots[si];
        let quote = match &snapshot.quote {
            Some(q) => q,
            None => {
                proof {
                    assert(false);
                }
                return None;
            },
        };
        assert(quote.close.wf() && quote.currency_multiplier.wf());
        let from = FxCurrency {
            code: quote.currency.clone(),
            normalized: quote.currency_normalized.clone(),
            denormalization_multiplier: quote.currency_multiplier,
        };
        let (fx_rate, fx_source, line_rates) = match Self::resolve_fx_source_on(&from, ctx.base, ctx.fx_rates, ctx.today) {
            None => return None,
            Some(Err(e)) => return Some(Err(e)),
            Some(Ok(x)) => x,
        };
        let ghost fxv = (fx_rate, fx_source, line_rates);
        assert(from == quote_currency(*quote));
        assert(fx_conversion(ctx.fx_rates@, quote_currency(*quote), *ctx.base, ctx.today, fxv));
        let ghost used_before = state.used_fx_rates@;
        record_used_rates(&mut state.used_fx_rates, line_rates, Ghost(ctx.fx_rates@));
        assert(used_step(used_before, state.used_fx_rates@, fxv.2@));
        assert(asset.contract_multiplier.wf());
        let multiplier = asset.contract_multiplier;
        let converted = match dec_mul(quote.close, fx_rate) {
            Some(x) => x,
            None => return None,
        };
        let unit_price = match dec_mul(converted, multiplier) {
            Some(x) => x,
            None => return None,
        };
        let (quantity, amount) = match Self::checked_resolved_quantity_and_amount(line, unit_price, ctx.target.whole_shares_only) {
            None => return None,
            Some(Err(e)) => return Some(Err(e)),
            Some(Ok(qa)) => qa,
        };
        let assignments = filter_assignments(ctx.assignments, line.asset_id.as_str(), ctx.target.taxonomy_id.as_str());
        assert(weight_sums_fit(line_assignments(ctx.assignments@, line.asset_id@, ctx.target.taxonomy_id@)));
        let exposures = match Self::checked_category_exposures(line, amount, assignments.as_slice(), ctx.category_names) {
            None => return None,
            Some(Err(e)) => return Some(Err(e)),
            Some(Ok(v)) => v,
        };
        if line.direction == WorksheetDirection::Reduce {
            let owned = match owned_quantity(ctx.holdings, line.account_id.as_str(), line.asset_id.as_str()) {
                Some(x) => x,
                None => return None,
            };
            let reduced = match add_reduction(state, line.account_id.as_str(), line.asset_id.as_str(), quantity) {
                Some(x) => x,
                None => return None,
            };
            if dec_lt(owned, reduced) {
                let mut m = String::from_str("reduction exceeds the ");
                m.append(dec_to_string(owned).as_str());
                m.append(" units currently held in this account");
                return Some(Err(Self::line_invalid(line.line_id.as_str(), m.as_str())));
            }
        }
        proof {
            assert(line_quote(*line, *ctx) == *quote);
            assert(line_asset(*line, *ctx) == *asset);
            lemma_first_block_views(ctx.constraints@, *line, exposures@);
        }
        let ghost w0 = old(state).warnings@.len() as int;
        assert(state.warnings@ == old(state).warnings@);
        match apply_constraints(line, ctx.constraints, exposures.as_slice(), &mut state.warnings) {
            Ok(_) => {},
            Err(e) => {
                assert(line_outcome(*line, *ctx, old(state).reductions@, fxv.0, Err(e)));
                return Some(Err(e));
            },
        }
        let ghost lid = Some(line.line_id@);
        let ghost s1 = avoid_warnings(ctx.constraints@, *line, exposures@);
        assert(warnings_are(state.warnings@.subrange(w0, state.warnings@.len() as int), s1));
        let ghost s2 = s1 + (if snapshot.is_stale {
            seq![(WorksheetWarningKind::StaleQuote, lid, quote.id@, "Uses a dated security price from "@ + quote.date@ + "."@)]
        } else {
            Seq::empty()
        });
        if snapshot.is_stale {
            let mut m = String::from_str("Uses a dated security price from ");
            m.append(quote.date.as_str());
            m.append(".");
            let ghost wb = state.warnings@;
            let w = Self::warning(WorksheetWarningKind::StaleQuote, Some(line.line_id.as_str()), quote.id.as_str(), m);
            state.warnings.push(w);
            proof {
                assert(state.warnings@.subrange(w0, state.warnings@.len() as int) =~= wb.subrange(w0, wb.len() as int).push(w));
                lemma_warnings_are_push(wb.subrange(w0, wb.len() as int), s1, w, (WorksheetWarningKind::StaleQuote, lid, quote.id@, "Uses a dated security price from "@ + quote.date@ + "."@));
                assert(s1.push((WorksheetWarningKind::StaleQuote, lid, quote.id@, "Uses a dated security price from "@ + quote.date@ + "."@)) =~= s2);
            }
        } else {
            assert(s1 =~= s2);
        }
        assert(warnings_are(state.warnings@.subrange(w0, state.warnings@.len() as int), s2));
        let ghost s3 = s2 + (match fxv.1 {
            Some(fx) => if fx.is_stale {
                seq![(WorksheetWarningKind::StaleFx, lid, fx.id@, "Uses a dated FX rate from "@ + fx.timestamp@ + "."@)]
            } else {
                Seq::empty()
            },
            None => Seq::empty(),
        });
        match &fx_source {
            Some(fx) => {
                if fx.is_stale {
                    let mut m = String::from_str("Uses a dated FX rate from ");
                    m.append(fx.timestamp.as_str());
                    m.append(".");
                    let ghost wb = state.warnings@;
                    let w = Self::warning(WorksheetWarningKind::StaleFx, Some(line.line_id.as_str()), fx.id.as_str(), m);
                    state.warnings.push(w);
                    proof {
                        assert(state.warnings@.subrange(w0, state.warnings@.len() as int) =~= wb.subrange(w0, wb.len() as int).push(w));
                        lemma_warnings_are_push(wb.subrange(w0, wb.len() as int), s2, w, (WorksheetWarningKind::StaleFx, lid, fx.id@, "Uses a dated FX rate from "@ + fx.timestamp@ + "."@));
                        assert(s2.push((WorksheetWarningKind::StaleFx, lid, fx.id@, "Uses a dated FX rate from "@ + fx.timestamp@ + "."@)) =~= s3);
                    }
                } else {
                    assert(s2 =~= s3);
                }
            },
            None => {
                assert(s2 =~= s3);
            },
        }
        assert(warnings_are(state.warnings@.subrange(w0, state.warnings@.len() as int), s3));
        let classified_bps = classification_total_of(assignments.as_slice());
        let ghost s4 = s3 + (if classified_bps == 0 {
            seq![(WorksheetWarningKind::UnclassifiedAsset, lid, line.asset_id@, "The security is unclassified; its full value is shown as unclassified exposure."@)]
        } else if classified_bps < 10000 {
            seq![(WorksheetWarningKind::PartialClassification, lid, line.asset_id@, partial_message(classified_bps as int))]
        } else {
            Seq::empty()
        });
        if classified_bps == 0 {
            let ghost wb = state.warnings@;
            let w = Self::warning(
                WorksheetWarningKind::UnclassifiedAsset,
                Some(line.line_id.as_str()),
                line.asset_id.as_str(),
                String::from_str("The security is unclassified; its full value is shown as unclassified exposure."),
            );
            state.warnings.push(w);
            proof {
                assert(state.warnings@.subrange(w0, state.warnings@.len() as int) =~= wb.subrange(w0, wb.len() as int).push(w));
                lemma_warnings_are_push(wb.subrange(w0, wb.len() as int), s3, w, (WorksheetWarningKind::UnclassifiedAsset, lid, line.asset_id@, "The security is unclassified; its full value is shown as unclassified exposure."@));
                assert(s3.push((WorksheetWarningKind::UnclassifiedAsset, lid, line.asset_id@, "The security is unclassified; its full value is shown as unclassified exposure."@)) =~= s4);
            }
        } else if classified_bps < 10000 {
            let mut m = String::from_str("The security is classified for ");
            m.append(i64_string(classified_bps as i64).as_str());
            m.append(" bps; the remaining ");
            m.append(i64_string(10000 - classified_bps as i64).as_str());
            m.append(" bps is shown as unclassified exposure.");
            let ghost wb = state.warnings@;
            let w = Self::warning(WorksheetWarningKind::PartialClassification, Some(line.line_id.as_str()), line.asset_id.as_str(), m);
            state.warnings.push(w);
            proof {
                assert(w.message@ =~= partial_message(classified_bps as int));
                assert(state.warnings@.subrange(w0, state.warnings@.len() as int) =~= wb.subrange(w0, wb.len() as int).push(w));
                lemma_warnings_are_push(wb.subrange(w0, wb.len() as int), s3, w, (WorksheetWarningKind::PartialClassification, lid, line.asset_id@, partial_message(classified_bps as int)));
                assert(s3.push((WorksheetWarningKind::PartialClassification, lid, line.asset_id@, partial_message(classified_bps as int))) =~= s4);
            }
        } else {
            assert(s3 =~= s4);
        }
        assert(warnings_are(state.warnings@.subrange(w0, state.warnings@.len() as int), s4));
        let zero = Dec::zero();
        let ghost below = "Resolved amount "@ + decimal_text(amount@) + " is below your worksheet minimum of "@ + decimal_text(ctx.min_line_amount@) + "."@;
        let ghost s5 = s4 + (if 0 < ctx.min_line_amount.units() && amount.units() < ctx.min_line_amount.units() {
            seq![(WorksheetWarningKind::BelowMinimumLine, lid, "minimum-line"@, below)]
        } else {
            Seq::empty()
        });
        proof {
            crate::decimal::lemma_units_sign(Dec::zero_spec());
        }
        if dec_lt(zero, ctx.min_line_amount) && dec_lt(amount, ctx.min_line_amount) {
            let mut m = String::from_str("Resolved amount ");
            m.append(dec_to_string(amount).as_str());
            m.append(" is below your worksheet minimum of ");
            m.append(dec_to_string(ctx.min_line_amount).as_str());
            m.append(".");
            let ghost wb = state.warnings@;
            let w = Self::warning(WorksheetWarningKind::BelowMinimumLine, Some(line.line_id.as_str()), "minimum-line", m);
            state.warnings.push(w);
            proof {
                assert(w.message@ =~= below);
                reveal_strlit("minimum-line");
                assert(state.warnings@.subrange(w0, state.warnings@.len() as int) =~= wb.subrange(w0, wb.len() as int).push(w));
                lemma_warnings_are_push(wb.subrange(w0, wb.len() as int), s4, w, (WorksheetWarningKind::BelowMinimumLine, lid, "minimum-line"@, below));
                assert(s4.push((WorksheetWarningKind::BelowMinimumLine, lid, "minimum-line"@, below)) =~= s5);
            }
        } else {
            assert(s4 =~= s5);
        }
        assert(warnings_are(state.warnings@.subrange(w0, state.warnings@.len() as int), s5));
        let symbol = match &asset.display_code {
            Some(c) => c.clone(),
            None => match &asset.instrument_symbol {
                Some(sy) => sy.clone(),
                None => asset.id.clone(),
            },
        };
        let name = match &asset.name {
            Some(n) => n.clone(),
            None => String::new(),
        };
        let res = AllocationWorksheetLineResult {
            line_id: line.line_id.clone(),
            direction: line.direction,
            asset_id: line.asset_id.clone(),
            account_id: line.account_id.clone(),
            symbol,
            name,
            input_mode: line.input_mode,
            input_value: line.value,
            quantity,
            unit_price,
            estimated_amount: amount,
            contract_multiplier: multiplier,
            quote_source: WorksheetPricingSource {
                id: quote.id.clone(),
                source_type: String::from_str("security_quote"),
                value: quote.close,
                from_currency: quote.currency.clone(),
                to_currency: quote.currency.clone(),
                timestamp: quote.timestamp.clone(),
                is_stale: snapshot.is_stale,
            },
            fx_source,
            category_exposures: exposures,
        };
        assert(res.fx_source == fxv.1 && fx_applied(quote.close, fxv.0, asset.contract_multiplier) == Some(res.unit_price));
        assert(line_outcome(*line, *ctx, old(state).reductions@, fxv.0, Ok(res)));
        Some(Ok(res))
    }
}

/// The total weight of classifications whose sums fit `i32`.
fn classification_total_of(assignments: &[AssetTaxonomyAssignment]) -> (r: i32)
    requires
        weight_sums_fit(assignments@),
    ensures
        r == sum_weights(assignments@),
{
    let mut total: i32 = 0;
    let mut i: usize = 0;
    assert(assignments@.take(0) =~= Seq::<AssetTaxonomyAssignment>::empty());
    while i < assignments.len()
        invariant
            i <= assignments@.len(),
            weight_sums_fit(assignments@),
            total == sum_weights(assignments@.take(i as int)),
        decreases assignments@.len() - i,
    {
        proof {
            assert(assignments@.take(i + 1).drop_last() =~= assignments@.take(i as int));
            assert(assignments@.take(i + 1).last() == assignments@[i as int]);
            assert(i32::MIN <= sum_weights(assignments@.take(i + 1)) <= i32::MAX);
        }
        total = total + assignments[i].weight;
        i = i + 1;
    }
    assert(assignments@.take(i as int) =~= assignments@);
    total
}

// ---------------------------------------------------------------------------
// Totals and the category projection.
// ---------------------------------------------------------------------------

/// The sum of the estimated amounts of the lines in one direction, added in
/// order from zero (`None`: a `Decimal` overflow).
pub open spec fn direction_total(lines: Seq<AllocationWorksheetLineResult>, direction: WorksheetDirection) -> Option<Dec>
    decreases lines.len(),
{
    if lines.len() == 0 {
        Some(Dec::zero_spec())
    } else {
        match direction_total(lines.drop_last(), direction) {
            None => None,
            Some(t) => if lines.last().direction == direction {
                spec_add(t, lines.last().estimated_amount)
            } else {
                Some(t)
            },
        }
    }
}

pub open spec fn result_wf(line: AllocationWorksheetLineResult) -> bool {
    &&& line.estimated_amount.wf()
    &&& forall|j: int| 0 <= j < line.category_exposures@.len() ==> (#[trigger] line.category_exposures@[j]).value_delta.wf()
}

pub open spec fn results_wf(lines: Seq<AllocationWorksheetLineResult>) -> bool {
    forall|i: int| 0 <= i < lines.len() ==> result_wf(#[trigger] lines[i])
}

impl AllocationWorksheetService {
    /// The total amount of the increase lines, or of the reduction lines.
    pub fn direction_total(lines: &[AllocationWorksheetLineResult], direction: WorksheetDirection) -> (r: Option<Dec>)
        requires
            results_wf(lines@),
        ensures
            r == direction_total(lines@, direction),
            r matches Some(t) ==> t.wf(),
    {
        let mut total = Dec::zero();
        let mut i: usize = 0;
        assert(lines@.take(0) =~= Seq::<AllocationWorksheetLineResult>::empty());
        while i < lines.len()
            invariant
                i <= lines@.len(),
                results_wf(lines@),
                direction_total(lines@.take(i as int), direction) == Some(total),
                total.wf(),
            decreases lines@.len() - i,
        {
            proof {
                assert(lines@.take(i + 1).drop_last() =~= lines@.take(i as int));
                assert(lines@.take(i + 1).last() == lines@[i as int]);
            }
            if lines[i].direction == direction {
                assert(lines@[i as int].estimated_amount.wf());
                total = match dec_add(total, lines[i].estimated_amount) {
                    Some(x) => x,
                    None => {
                        proof {
                            lemma_direction_total_none(lines@, direction, i + 1);
                        }
                        return None;
                    },
                };
            }
            i = i + 1;
        }
        assert(lines@.take(i as int) =~= lines@);
        Some(total)
    }
}

proof fn lemma_direction_total_none(lines: Seq<AllocationWorksheetLineResult>, direction: WorksheetDirection, k: int)
    requires
        0 <= k <= lines.len(),
        direction_total(lines.take(k), direction) is None,
    ensures
        direction_total(lines, direction) is None,
    decreases lines.len() - k,
{
    if k < lines.len() {
        assert(lines.take(k + 1).drop_last() =~= lines.take(k));
        lemma_direction_total_none(lines, direction, k + 1);
    } else {
        assert(lines.take(k) =~= lines);
    }
}

/// A category of the target taxonomy.  `updated_at` is RFC 3339 text.
#[derive(Clone, Debug)]
pub struct TaxonomyCategory {
    pub id: String,
    pub name: String,
    pub parent_id: Option<String>,
    pub sort_order: i32,
    pub color: String,
    pub updated_at: String,
}

/// The target taxonomy.  `scope` is the display text of its scope and
/// `updated_at` RFC 3339 text.
#[derive(Clone, Debug)]
pub struct Taxonomy {
    pub id: String,
    pub name: String,
    pub scope: String,
    pub updated_at: String,
}

/// Values by category id; each id once.
pub struct CategoryValues {
    pub entries: Vec<(String, Dec)>,
}

/// The value recorded for an id: that of its first entry.
pub open spec fn entry_value(entries: Seq<(String, Dec)>, id: Seq<char>) -> Option<Dec>
    decreases entries.len(),
{
    if entries.len() == 0 {
        None
    } else if entries[0].0@ == id {
        Some(entries[0].1)
    } else {
        entry_value(entries.drop_first(), id)
    }
}

pub open spec fn value_or_zero(v: Option<Dec>) -> Dec {
    match v {
        Some(x) => x,
        None => Dec::zero_spec(),
    }
}

pub open spec fn keys_distinct(entries: Seq<(String, Dec)>) -> bool {
    forall|i: int, j: int| 0 <= i < j < entries.len() ==> (#[trigger] entries[i]).0@ != (#[trigger] entries[j]).0@
}

proof fn lemma_entry_value_found(s: Seq<(String, Dec)>, i: int)
    requires
        0 <= i < s.len(),
        keys_distinct(s),
    ensures
        entry_value(s, s[i].0@) == Some(s[i].1),
    decreases i,
{
    if i > 0 {
        assert(s[0].0@ != s[i].0@);
        assert(s.drop_first()[i - 1] == s[i]);
        assert(keys_distinct(s.drop_first())) by {
            assert forall|a: int, b: int| 0 <= a < b < s.drop_first().len() implies (#[trigger] s.drop_first()[a]).0@ != (#[trigger] s.drop_first()[b]).0@ by {
                assert(s.drop_first()[a] == s[a + 1]);
                assert(s.drop_first()[b] == s[b + 1]);
            }
        }
        lemma_entry_value_found(s.drop_first(), i - 1);
    }
}

proof fn lemma_entry_value_absent(s: Seq<(String, Dec)>, id: Seq<char>)
    requires
        forall|k: int| 0 <= k < s.len() ==> s[k].0@ != id,
    ensures
        entry_value(s, id) is None,
    decreases s.len(),
{
    if s.len() > 0 {
        assert forall|k: int| 0 <= k < s.drop_first().len() implies s.drop_first()[k].0@ != id by {
            assert(s.drop_first()[k] == s[k + 1]);
        }
        lemma_entry_value_absent(s.drop_first(), id);
    }
}

/// Where the entries of distinct ids record a value, they record it once.
proof fn lemma_entry_value_is_some(s: Seq<(String, Dec)>, id: Seq<char>)
    ensures
        entry_value(s, id) is Some <==> exists|k: int| 0 <= k < s.len() && (#[trigger] s[k]).0@ == id,
    decreases s.len(),
{
    if s.len() > 0 {
        lemma_entry_value_is_some(s.drop_first(), id);
        if entry_value(s.drop_first(), id) is Some {
            let k = choose|k: int| 0 <= k < s.drop_first().len() && (#[trigger] s.drop_first()[k]).0@ == id;
            assert(s[k + 1] == s.drop_first()[k]);
        }
        if exists|k: int| 0 <= k < s.len() && (#[trigger] s[k]).0@ == id {
            let k = choose|k: int| 0 <= k < s.len() && (#[trigger] s[k]).0@ == id;
            if k > 0 {
                assert(s.drop_first()[k - 1] == s[k]);
            }
        }
    }
}

proof fn lemma_entry_value_update(s: Seq<(String, Dec)>, i: int, e: (String, Dec), x: Seq<char>)
    requires
        0 <= i < s.len(),
        keys_distinct(s),
        e.0@ == s[i].0@,
    ensures
        entry_value(s.update(i, e), x) == if x == e.0@ { Some(e.1) } else { entry_value(s, x) },
        keys_distinct(s.update(i, e)),
    decreases i,
{
    let u = s.update(i, e);
    assert(keys_distinct(u)) by {
        assert forall|a: int, b: int| 0 <= a < b < u.len() implies (#[trigger] u[a]).0@ != (#[trigger] u[b]).0@ by {
            assert(s[a].0@ != s[b].0@);
        }
    }
    if i == 0 {
        assert(u.drop_first() =~= s.drop_first());
    } else {
        assert(s[0].0@ != s[i].0@);
        assert(u.drop_first() =~= s.drop_first().update(i - 1, e));
        assert(s.drop_first()[i - 1] == s[i]);
        assert(keys_distinct(s.drop_first())) by {
            assert forall|a: int, b: int| 0 <= a < b < s.drop_first().len() implies (#[trigger] s.drop_first()[a]).0@ != (#[trigger] s.drop_first()[b]).0@ by {
                assert(s.drop_first()[a] == s[a + 1]);
                assert(s.drop_first()[b] == s[b + 1]);
            }
        }
        lemma_entry_value_update(s.drop_first(), i - 1, e, x);
        assert(u[0] == s[0]);
    }
}

proof fn lemma_entry_value_push(s: Seq<(String, Dec)>, e: (String, Dec), x: Seq<char>)
    requires
        forall|k: int| 0 <= k < s.len() ==> s[k].0@ != e.0@,
        keys_distinct(s),
    ensures
        entry_value(s.push(e), x) == if x == e.0@ { Some(e.1) } else { entry_value(s, x) },
        keys_distinct(s.push(e)),
    decreases s.len(),
{
    let p = s.push(e);
    assert(keys_distinct(p)) by {
        assert forall|a: int, b: int| 0 <= a < b < p.len() implies (#[trigger] p[a]).0@ != (#[trigger] p[b]).0@ by {
            if b == s.len() {
                assert(p[a] == s[a]);
            } else {
                assert(p[a] == s[a] && p[b] == s[b]);
            }
        }
    }
    if s.len() == 0 {
        assert(p.drop_first() =~= s);
    } else {
        assert(p.drop_first() =~= s.drop_first().push(e));
        assert forall|k: int| 0 <= k < s.drop_first().len() implies s.drop_first()[k].0@ != e.0@ by {
            assert(s.drop_first()[k] == s[k + 1]);
        }
        assert(keys_distinct(s.drop_first())) by {
            assert forall|a: int, b: int| 0 <= a < b < s.drop_first().len() implies (#[trigger] s.drop_first()[a]).0@ != (#[trigger] s.drop_first()[b]).0@ by {
                assert(s.drop_first()[a] == s[a + 1]);
                assert(s.drop_first()[b] == s[b + 1]);
            }
        }
        lemma_entry_value_push(s.drop_first(), e, x);
        assert(p[0] == s[0]);
    }
}

proof fn lemma_entry_value_remove(s: Seq<(String, Dec)>, i: int, x: Seq<char>)
    requires
        0 <= i < s.len(),
        keys_distinct(s),
    ensures
        entry_value(s.remove(i), x) == if x == s[i].0@ { None } else { entry_value(s, x) },
        keys_distinct(s.remove(i)),
    decreases i,
{
    let r = s.remove(i);
    assert(keys_distinct(r)) by {
        assert forall|a: int, b: int| 0 <= a < b < r.len() implies (#[trigger] r[a]).0@ != (#[trigger] r[b]).0@ by {
            if b < i {
                assert(r[a] == s[a] && r[b] == s[b]);
            } else if a < i {
                assert(r[a] == s[a] && r[b] == s[b + 1]);
            } else {
                assert(r[a] == s[a + 1] && r[b] == s[b + 1]);
            }
        }
    }
    if x == s[i].0@ {
        assert forall|k: int| 0 <= k < r.len() implies r[k].0@ != x by {
            if k < i {
                assert(r[k] == s[k]);
            } else {
                assert(r[k] == s[k + 1]);
            }
        }
        lemma_entry_value_absent(r, x);
    } else if i == 0 {
        assert(r =~= s.drop_first());
    } else {
        assert(r.drop_first() =~= s.drop_first().remove(i - 1));
        assert(s.drop_first()[i - 1] == s[i]);
        assert(keys_distinct(s.drop_first())) by {
            assert forall|a: int, b: int| 0 <= a < b < s.drop_first().len() implies (#[trigger] s.drop_first()[a]).0@ != (#[trigger] s.drop_first()[b]).0@ by {
                assert(s.drop_first()[a] == s[a + 1]);
                assert(s.drop_first()[b] == s[b + 1]);
            }
        }
        lemma_entry_value_remove(s.drop_first(), i - 1, x);
        assert(r[0] == s[0]);
    }
}

impl CategoryValues {
    pub open spec fn wf(self) -> bool {
        &&& forall|i: int| 0 <= i < self.entries@.len() ==> (#[trigger] self.entries@[i]).1.wf()
        &&& keys_distinct(self.entries@)
    }

    /// The value of an id, zero where none is recorded.
    pub open spec fn value(self, id: Seq<char>) -> Dec {
        value_or_zero(entry_value(self.entries@, id))
    }

    fn new() -> (r: CategoryValues)
        ensures
            r.wf(),
            r.entries@.len() == 0,
            forall|id: Seq<char>| #[trigger] entry_value(r.entries@, id) is None,
    {
        CategoryValues { entries: Vec::new() }
    }

    fn position(&self, id: &str) -> (r: Option<usize>)
        requires
            self.wf(),
        ensures
            r matches Some(i) ==> i < self.entries@.len() && self.entries@[i as int].0@ == id@,
            r is None ==> entry_value(self.entries@, id@) is None,
            r is None ==> forall|k: int| 0 <= k < self.entries@.len() ==> self.entries@[k].0@ != id@,
    {
        let mut i: usize = 0;
        while i < self.entries.len()
            invariant
                i <= self.entries@.len(),
                forall|k: int| 0 <= k < i ==> self.entries@[k].0@ != id@,
            decreases self.entries@.len() - i,
        {
            if str_eq(self.entries[i].0.as_str(), id) {
                return Some(i);
            }
            i = i + 1;
        }
        proof {
            lemma_entry_value_absent(self.entries@, id@);
        }
        None
    }

    /// Sets the value of an id.
    fn set(&mut self, id: &str, value: Dec)
        requires
            old(self).wf(),
            value.wf(),
        ensures
            final(self).wf(),
            forall|x: Seq<char>| #[trigger] entry_value(final(self).entries@, x) == if x == id@ { Some(value) } else { entry_value(old(self).entries@, x) },
    {
        match self.position(id) {
            Some(i) => {
                let ghost s0 = self.entries@;
                let e = (String::from_str(id), value);
                self.entries.set(i, e);
                proof {
                    assert forall|x: Seq<char>| #[trigger] entry_value(self.entries@, x) == if x == id@ { Some(value) } else { entry_value(s0, x) } by {
                        lemma_entry_value_update(s0, i as int, e, x);
                    }
                    lemma_entry_value_update(s0, i as int, e, id@);
                }
            },
            None => {
                let ghost s0 = self.entries@;
                let e = (String::from_str(id), value);
                self.entries.push(e);
                proof {
                    assert forall|x: Seq<char>| #[trigger] entry_value(self.entries@, x) == if x == id@ { Some(value) } else { entry_value(s0, x) } by {
                        lemma_entry_value_push(s0, e, x);
                    }
                    lemma_entry_value_push(s0, e, id@);
                }
            },
        }
    }

    /// Adds to the value of an id, from zero when it has none (`false`: a
    /// `Decimal` overflow).
    fn add(&mut self, id: &str, delta: Dec) -> (r: bool)
        requires
            old(self).wf(),
            delta.wf(),
        ensures
            final(self).wf(),
            r == spec_add(old(self).value(id@), delta) is Some,
            r ==> forall|x: Seq<char>| #[trigger] entry_value(final(self).entries@, x) == if x == id@ { spec_add(old(self).value(id@), delta) } else { entry_value(old(self).entries@, x) },
    {
        let current = match self.position(id) {
            Some(i) => {
                assert(self.entries@[i as int].1.wf());
                proof {
                    lemma_entry_value_found(self.entries@, i as int);
                }
                self.entries[i].1
            },
            None => Dec::zero(),
        };
        match dec_add(current, delta) {
            Some(x) => {
                self.set(id, x);
                true
            },
            None => false,
        }
    }

    /// The value of an id, removed; zero when it has none.
    fn take(&mut self, id: &str) -> (r: Dec)
        requires
            old(self).wf(),
        ensures
            final(self).wf(),
            r.wf(),
            r == old(self).value(id@),
            forall|x: Seq<char>| #[trigger] entry_value(final(self).entries@, x) == if x == id@ { None } else { entry_value(old(self).entries@, x) },
    {
        match self.position(id) {
            Some(i) => {
                let ghost s0 = self.entries@;
                proof {
                    lemma_entry_value_found(s0, i as int);
                }
                let e = self.entries.remove(i);
                proof {
                    assert(old(self).entries@[i as int].1.wf());
                    assert forall|j: int| 0 <= j < self.entries@.len() implies (#[trigger] self.entries@[j]).1.wf() by {
                        if j < i {
                            assert(self.entries@[j] == old(self).entries@[j]);
                        } else {
                            assert(self.entries@[j] == old(self).entries@[j + 1]);
                        }
                    }
                    assert forall|x: Seq<char>| #[trigger] entry_value(self.entries@, x) == if x == id@ { None } else { entry_value(s0, x) } by {
                        lemma_entry_value_remove(s0, i as int, x);
                    }
                    lemma_entry_value_remove(s0, i as int, id@);
                }
                e.1
            },
            None => Dec::zero(),
        }
    }
}

fn push_unique(ids: &mut Vec<String>, id: &str)
    ensures
        forall|x: Seq<char>| #[trigger] has_text(final(ids)@, x) == (has_text(old(ids)@, x) || x == id@),
        has_text(old(ids)@, id@) ==> final(ids)@ == old(ids)@,
        !has_text(old(ids)@, id@) ==> final(ids)@.len() == old(ids)@.len() + 1 && final(ids)@.last()@ == id@
            && forall|j: int| 0 <= j < old(ids)@.len() ==> final(ids)@[j] == old(ids)@[j],
{
    let ghost v0 = ids@;
    if !contains_text(ids, id) {
        proof {
            if has_text(v0, id@) {
                let k = choose|k: int| 0 <= k < v0.len() && (#[trigger] v0[k])@ == id@;
                assert(texts(v0)[k] == id@);
            }
        }
        ids.push(String::from_str(id));
        proof {
            assert forall|x: Seq<char>| #[trigger] has_text(ids@, x) == (has_text(v0, x) || x == id@) by {
                if has_text(v0, x) {
                    let k = choose|k: int| 0 <= k < v0.len() && (#[trigger] v0[k])@ == x;
                    assert(ids@[k] == v0[k]);
                }
                if x == id@ {
                    assert(ids@[v0.len() as int]@ == x);
                }
                if has_text(ids@, x) && x != id@ {
                    let k = choose|k: int| 0 <= k < ids@.len() && (#[trigger] ids@[k])@ == x;
                    assert(k < v0.len());
                    assert(ids@[k] == v0[k]);
                }
            }
        }
    } else {
        proof {
            assert(texts(v0).contains(id@));
            let k = choose|k: int| 0 <= k < texts(v0).len() && texts(v0)[k] == id@;
            assert(v0[k]@ == id@);
        }
    }
}

/// Some text of the list is `x`.
pub open spec fn has_text(v: Seq<String>, x: Seq<char>) -> bool {
    exists|k: int| 0 <= k < v.len() && (#[trigger] v[k])@ == x
}

/// The drift row of a category: the last one with its id.
fn drift_row_for(rows: &[DriftRow], id: &str) -> (r: Option<usize>)
    ensures
        r matches Some(i) ==> i < rows@.len(),
        r matches Some(i) ==> last_drift_row(rows@, id@) == Some(i as int),
        r is None ==> last_drift_row(rows@, id@) is None,
{
    let mut k = rows.len();
    assert(rows@.take(k as int) =~= rows@);
    while k > 0
        invariant
            k <= rows@.len(),
            last_drift_row(rows@, id@) == last_drift_row(rows@.take(k as int), id@),
        decreases k,
    {
        proof {
            assert(rows@.take(k as int).drop_last() =~= rows@.take(k - 1));
            assert(rows@.take(k as int).last() == rows@[k - 1]);
        }
        if str_eq(rows[k - 1].category_id.as_str(), id) {
            return Some(k - 1);
        }
        k = k - 1;
    }
    assert(rows@.take(0) =~= Seq::<DriftRow>::empty());
    None
}

/// The name of a category id in the taxonomy: the last category with it.
fn taxonomy_name_for(categories: &[TaxonomyCategory], id: &str) -> (r: Option<String>)
    ensures
        r matches Some(n) ==> taxonomy_name(categories@, id@) == Some(n@),
        r is None ==> taxonomy_name(categories@, id@) is None,
{
    let mut k = categories.len();
    assert(categories@.take(k as int) =~= categories@);
    while k > 0
        invariant
            k <= categories@.len(),
            taxonomy_name(categories@, id@) == taxonomy_name(categories@.take(k as int), id@),
        decreases k,
    {
        proof {
            assert(categories@.take(k as int).drop_last() =~= categories@.take(k - 1));
            assert(categories@.take(k as int).last() == categories@[k - 1]);
        }
        if str_eq(categories[k - 1].id.as_str(), id) {
            return Some(categories[k - 1].name.clone());
        }
        k = k - 1;
    }
    assert(categories@.take(0) =~= Seq::<TaxonomyCategory>::empty());
    None
}

/// The target weight of a category id: the last weight for it.
fn target_bps_for(weights: &[AllocationTargetWeight], id: &str) -> (r: Option<i32>)
    ensures
        r is Some <==> has_weight(weights@, id@),
        r == weight_target(weights@, id@),
{
    let mut k = weights.len();
    assert(weights@.take(k as int) =~= weights@);
    while k > 0
        invariant
            k <= weights@.len(),
            forall|j: int| k <= j < weights@.len() ==> (#[trigger] weights@[j]).category_id@ != id@,
            weight_target(weights@, id@) == weight_target(weights@.take(k as int), id@),
        decreases k,
    {
        proof {
            assert(weights@.take(k as int).drop_last() =~= weights@.take(k - 1));
            assert(weights@.take(k as int).last() == weights@[k - 1]);
        }
        if str_eq(weights[k - 1].category_id.as_str(), id) {
            return Some(weights[k - 1].target_bps);
        }
        k = k - 1;
    }
    assert(weights@.take(0) =~= Seq::<AllocationTargetWeight>::empty());
    None
}

/// Category `x` comes before category `y` in the taxonomy's display order:
/// a smaller sort order, or an equal one and an earlier place.
pub open spec fn category_before(cats: Seq<TaxonomyCategory>, x: int, y: int) -> bool {
    cats[x].sort_order < cats[y].sort_order || (cats[x].sort_order == cats[y].sort_order && x < y)
}

/// `order` lists the places of all the taxonomy's categories in display
/// order.
pub open spec fn display_order(cats: Seq<TaxonomyCategory>, order: Seq<int>) -> bool {
    &&& order.len() == cats.len()
    &&& forall|j: int| 0 <= j < order.len() ==> 0 <= #[trigger] order[j] < cats.len()
    &&& forall|i: int| 0 <= i < cats.len() ==> #[trigger] placed(order, i)
    &&& forall|a: int, b: int| 0 <= a < b < order.len() ==> category_before(cats, #[trigger] order[a], #[trigger] order[b])
}

/// Some entry of `order` is `i`.
pub open spec fn placed(order: Seq<int>, i: int) -> bool {
    exists|j: int| 0 <= j < order.len() && #[trigger] order[j] == i
}

pub open spec fn placed_index(order: Seq<usize>, i: int) -> bool {
    exists|j: int| 0 <= j < order.len() && #[trigger] order[j] == i
}

/// Some category of the taxonomy has the id `x`.
pub open spec fn in_taxonomy(cats: Seq<TaxonomyCategory>, x: Seq<char>) -> bool {
    exists|i: int| 0 <= i < cats.len() && (#[trigger] cats[i]).id@ == x
}

/// `p` is the first place in display order of a category with the id `x`.
pub open spec fn first_place(cats: Seq<TaxonomyCategory>, order: Seq<int>, x: Seq<char>, p: int) -> bool {
    &&& 0 <= p < order.len()
    &&& cats[order[p]].id@ == x
    &&& forall|q: int| 0 <= q < p ==> cats[#[trigger] order[q]].id@ != x
}

/// A list of category ids in display order: apart from the unclassified
/// id, the taxonomy's ids come before the others, and where an id first
/// appears, the first places of the ids up to it come earlier.
#[verifier::opaque]
pub open spec fn ids_in_display_order(ids: Seq<String>, cats: Seq<TaxonomyCategory>, order: Seq<int>) -> bool {
    &&& forall|q1: int, q2: int| 0 <= q1 < q2 < ids.len() && (#[trigger] ids[q1])@ != UNKNOWN_CATEGORY_ID@ && (#[trigger] ids[q2])@ != UNKNOWN_CATEGORY_ID@
            && in_taxonomy(cats, ids[q2]@) ==> in_taxonomy(cats, ids[q1]@)
    &&& forall|q1: int, q2: int, p1: int, p2: int| 0 <= q1 < q2 < ids.len() && !taken_ids(ids, q2, ids[q2]@)
            && ids[q1]@ != UNKNOWN_CATEGORY_ID@ && ids[q2]@ != UNKNOWN_CATEGORY_ID@
            && #[trigger] first_place(cats, order, ids[q1]@, p1) && #[trigger] first_place(cats, order, ids[q2]@, p2) ==> p1 < p2
}

/// The category rows follow the taxonomy's display order: apart from the
/// unclassified row, the rows of the taxonomy's categories come before the
/// others, and each category's first row comes after the rows of the
/// categories placed before it.
pub open spec fn rows_in_display_order(rows: Seq<WorksheetCategoryResult>, cats: Seq<TaxonomyCategory>, order: Seq<int>) -> bool {
    &&& forall|j1: int, j2: int| 0 <= j1 < j2 < rows.len() && (#[trigger] rows[j1]).category_id@ != UNKNOWN_CATEGORY_ID@
            && (#[trigger] rows[j2]).category_id@ != UNKNOWN_CATEGORY_ID@
            && in_taxonomy(cats, rows[j2].category_id@) ==> in_taxonomy(cats, rows[j1].category_id@)
    &&& forall|j1: int, j2: int, p1: int, p2: int| 0 <= j1 < j2 < rows.len() && !row_repeats(rows, j2)
            && rows[j1].category_id@ != UNKNOWN_CATEGORY_ID@ && rows[j2].category_id@ != UNKNOWN_CATEGORY_ID@
            && #[trigger] first_place(cats, order, rows[j1].category_id@, p1) && #[trigger] first_place(cats, order, rows[j2].category_id@, p2) ==> p1 < p2
}

/// Every id of the taxonomy is in a list that starts with the ids in
/// display order.
proof fn lemma_taxonomy_ids_listed(cats: Seq<TaxonomyCategory>, order: Seq<int>, ids: Seq<String>, x: Seq<char>)
    requires
        display_order(cats, order),
        ids.len() >= order.len(),
        forall|j: int| 0 <= j < order.len() ==> (#[trigger] ids[j])@ == cats[order[j]].id@,
        in_taxonomy(cats, x),
    ensures
        has_text(ids, x),
{
    let i = choose|i: int| 0 <= i < cats.len() && (#[trigger] cats[i]).id@ == x;
    assert(placed(order, i));
    let j = choose|j: int| 0 <= j < order.len() && #[trigger] order[j] == i;
    assert(ids[j]@ == x);
}

/// The list starts with the taxonomy's ids in display order and goes on
/// with ids outside the taxonomy.
#[verifier::opaque]
pub open spec fn listing_in_display_order(cats: Seq<TaxonomyCategory>, order: Seq<int>, ids: Seq<String>) -> bool {
    &&& display_order(cats, order)
    &&& ids.len() >= order.len()
    &&& forall|j: int| 0 <= j < order.len() ==> (#[trigger] ids[j])@ == cats[order[j]].id@
    &&& forall|j: int| order.len() <= j < ids.len() ==> !in_taxonomy(cats, (#[trigger] ids[j])@)
}

/// Adding an id that is not listed yet keeps a list of the taxonomy's ids
/// in display order followed by ids outside the taxonomy.
proof fn lemma_push_listing(cats: Seq<TaxonomyCategory>, order: Seq<int>, before: Seq<String>, after: Seq<String>, id: Seq<char>)
    requires
        listing_in_display_order(cats, order, before),
        has_text(before, id) ==> after == before,
        !has_text(before, id) ==> after.len() == before.len() + 1 && after.last()@ == id
            && forall|j: int| 0 <= j < before.len() ==> after[j] == before[j],
    ensures
        listing_in_display_order(cats, order, after),
{
    reveal(listing_in_display_order);
    if !has_text(before, id) {
        if in_taxonomy(cats, id) {
            lemma_taxonomy_ids_listed(cats, order, before, id);
        }
        assert forall|j: int| 0 <= j < order.len() implies (#[trigger] after[j])@ == cats[order[j]].id@ by {
            assert(after[j] == before[j]);
        }
        assert forall|j: int| order.len() <= j < after.len() implies !in_taxonomy(cats, (#[trigger] after[j])@) by {
            if j < before.len() {
                assert(after[j] == before[j]);
            }
        }
    }
}

/// The ids in display order followed by ids outside the taxonomy are in
/// display order.
proof fn lemma_listed_ids_in_display_order(cats: Seq<TaxonomyCategory>, order: Seq<int>, ids: Seq<String>)
    requires
        listing_in_display_order(cats, order, ids),
    ensures
        ids_in_display_order(ids, cats, order),
{
    reveal(listing_in_display_order);
    reveal(ids_in_display_order);
    let n = order.len() as int;
    assert forall|q1: int, q2: int| 0 <= q1 < q2 < ids.len() && (#[trigger] ids[q1])@ != UNKNOWN_CATEGORY_ID@ && (#[trigger] ids[q2])@ != UNKNOWN_CATEGORY_ID@
        && in_taxonomy(cats, ids[q2]@) implies in_taxonomy(cats, ids[q1]@) by {
        assert(q2 < n);
        assert(ids[q1]@ == cats[order[q1]].id@);
        assert(0 <= order[q1] < cats.len());
    }
    assert forall|q1: int, q2: int, p1: int, p2: int| 0 <= q1 < q2 < ids.len() && !taken_ids(ids, q2, ids[q2]@)
        && ids[q1]@ != UNKNOWN_CATEGORY_ID@ && ids[q2]@ != UNKNOWN_CATEGORY_ID@
        && #[trigger] first_place(cats, order, ids[q1]@, p1) && #[trigger] first_place(cats, order, ids[q2]@, p2) implies p1 < p2 by {
        assert(0 <= order[p2] < cats.len());
        assert(in_taxonomy(cats, ids[q2]@));
        assert(q2 < n);
        assert(ids[q2]@ == cats[order[q2]].id@);
        if p2 < q2 {
            assert(ids[p2]@ == cats[order[p2]].id@);
            assert(taken_ids(ids, q2, ids[q2]@));
        }
        if q2 < p2 {
            assert(cats[order[q2]].id@ != ids[q2]@);
        }
        assert(ids[q1]@ == cats[order[q1]].id@);
        if q1 < p1 {
            assert(cats[order[q1]].id@ != ids[q1]@);
        }
    }
}

/// Moving the unclassified id to the end keeps a list in display order.
proof fn lemma_kept_display_order(cats: Seq<TaxonomyCategory>, order: Seq<int>, ids: Seq<String>, r: Seq<String>, src: Seq<int>)
    requires
        ids_in_display_order(ids, cats, order),
        kept_from(ids, r, src),
    ensures
        ids_in_display_order(r, cats, order),
{
    reveal(ids_in_display_order);
    assert forall|q1: int, q2: int| 0 <= q1 < q2 < r.len() && (#[trigger] r[q1])@ != UNKNOWN_CATEGORY_ID@ && (#[trigger] r[q2])@ != UNKNOWN_CATEGORY_ID@
        && in_taxonomy(cats, r[q2]@) implies in_taxonomy(cats, r[q1]@) by {
        assert(ids[src[q1]]@ == r[q1]@ && ids[src[q2]]@ == r[q2]@);
        assert(src[q1] < src[q2]);
    }
    assert forall|q1: int, q2: int, p1: int, p2: int| 0 <= q1 < q2 < r.len() && !taken_ids(r, q2, r[q2]@)
        && r[q1]@ != UNKNOWN_CATEGORY_ID@ && r[q2]@ != UNKNOWN_CATEGORY_ID@
        && #[trigger] first_place(cats, order, r[q1]@, p1) && #[trigger] first_place(cats, order, r[q2]@, p2) implies p1 < p2 by {
        let a = src[q1];
        let b = src[q2];
        assert(ids[a]@ == r[q1]@ && ids[b]@ == r[q2]@);
        assert(a < b);
        if taken_ids(ids, b, ids[b]@) {
            let p = choose|p: int| 0 <= p < b && (#[trigger] ids[p])@ == ids[b]@;
            let k = choose|k: int| 0 <= k < r.len() && src[k] == p && (#[trigger] r[k])@ != UNKNOWN_CATEGORY_ID@;
            assert(ids[src[k]]@ == r[k]@);
            if k > q2 {
                assert(src[q2] < src[k]);
            }
            assert(k != q2);
            assert(taken_ids(r, q2, r[q2]@));
        }
        assert(first_place(cats, order, ids[a]@, p1) && first_place(cats, order, ids[b]@, p2));
    }
}

/// Rows taken in increasing places of a list in display order, each
/// first row of an id from the id's first place, are in display order.
proof fn lemma_rows_display_order(
    cats: Seq<TaxonomyCategory>,
    order: Seq<int>,
    ids: Seq<String>,
    rows: Seq<WorksheetCategoryResult>,
    rpos: Seq<int>,
)
    requires
        ids_in_display_order(ids, cats, order),
        rpos.len() == rows.len(),
        forall|j: int| 0 <= j < rows.len() ==> 0 <= #[trigger] rpos[j] < ids.len() && ids[rpos[j]]@ == rows[j].category_id@,
        forall|j1: int, j2: int| 0 <= j1 < j2 < rows.len() ==> #[trigger] rpos[j1] < #[trigger] rpos[j2],
        forall|j: int| 0 <= j < rows.len() && !row_repeats(rows, j) ==> !taken_ids(ids, #[trigger] rpos[j], rows[j].category_id@),
    ensures
        rows_in_display_order(rows, cats, order),
{
    reveal(ids_in_display_order);
    assert forall|j1: int, j2: int| 0 <= j1 < j2 < rows.len() && (#[trigger] rows[j1]).category_id@ != UNKNOWN_CATEGORY_ID@
        && (#[trigger] rows[j2]).category_id@ != UNKNOWN_CATEGORY_ID@
        && in_taxonomy(cats, rows[j2].category_id@) implies in_taxonomy(cats, rows[j1].category_id@) by {
        assert(rpos[j1] < rpos[j2]);
        assert(ids[rpos[j1]]@ == rows[j1].category_id@ && ids[rpos[j2]]@ == rows[j2].category_id@);
    }
    assert forall|j1: int, j2: int, p1: int, p2: int| 0 <= j1 < j2 < rows.len() && !row_repeats(rows, j2)
        && rows[j1].category_id@ != UNKNOWN_CATEGORY_ID@ && rows[j2].category_id@ != UNKNOWN_CATEGORY_ID@
        && #[trigger] first_place(cats, order, rows[j1].category_id@, p1) && #[trigger] first_place(cats, order, rows[j2].category_id@, p2) implies p1 < p2 by {
        assert(rpos[j1] < rpos[j2]);
        assert(ids[rpos[j1]]@ == rows[j1].category_id@ && ids[rpos[j2]]@ == rows[j2].category_id@);
        assert(!taken_ids(ids, rpos[j2], rows[j2].category_id@));
        assert(first_place(cats, order, ids[rpos[j1]]@, p1) && first_place(cats, order, ids[rpos[j2]]@, p2));
    }
}

/// The ids of the taxonomy categories in display order.
fn categories_in_order(categories: &[TaxonomyCategory]) -> (r: Vec<String>)
    ensures
        exists|order: Seq<int>| #[trigger] display_order(categories@, order) && r@.len() == order.len()
            && forall|j: int| 0 <= j < r@.len() ==> (#[trigger] r@[j])@ == categories@[order[j]].id@,
{
    let mut order: Vec<usize> = Vec::new();
    let mut i: usize = 0;
    while i < categories.len()
        invariant
            i <= categories@.len(),
            order@.len() == i,
            forall|j: int| 0 <= j < order@.len() ==> (#[trigger] order@[j]) < i,
            forall|c: int| 0 <= c < i ==> #[trigger] placed_index(order@, c),
            forall|a: int, b: int| 0 <= a < b < order@.len() ==> category_before(categories@, #[trigger] order@[a] as int, #[trigger] order@[b] as int),
        decreases categories@.len() - i,
    {
        let key = categories[i].sort_order;
        let mut p: usize = order.len();
        while p > 0 && categories[order[p - 1]].sort_order > key
            invariant
                p <= order@.len(),
                i < categories@.len(),
                key == categories@[i as int].sort_order,
                forall|j: int| 0 <= j < order@.len() ==> (#[trigger] order@[j]) < i,
                forall|q: int| p <= q < order@.len() ==> categories@[#[trigger] order@[q] as int].sort_order > key,
            decreases p,
        {
            p = p - 1;
        }
        proof {
            assert forall|q: int| 0 <= q < p implies categories@[#[trigger] order@[q] as int].sort_order <= key by {
                if q < p - 1 {
                    assert(category_before(categories@, order@[q] as int, order@[p - 1] as int));
                }
            }
        }
        let ghost o0 = order@;
        order.insert(p, i);
        proof {
            assert(order@ == o0.insert(p as int, i));
            assert forall|j: int| 0 <= j < order@.len() implies (#[trigger] order@[j]) < i + 1 by {
                if j < p {
                    assert(order@[j] == o0[j]);
                } else if j > p {
                    assert(order@[j] == o0[j - 1]);
                }
            }
            assert forall|c: int| 0 <= c < i + 1 implies #[trigger] placed_index(order@, c) by {
                if c == i {
                    assert(order@[p as int] == c);
                } else {
                    assert(placed_index(o0, c));
                    let j = choose|j: int| 0 <= j < o0.len() && #[trigger] o0[j] == c;
                    if j < p {
                        assert(order@[j] == c);
                    } else {
                        assert(order@[j + 1] == c);
                    }
                }
            }
            assert forall|a: int, b: int| 0 <= a < b < order@.len() implies category_before(categories@, #[trigger] order@[a] as int, #[trigger] order@[b] as int) by {
                if a < p && b < p {
                    assert(order@[a] == o0[a] && order@[b] == o0[b]);
                } else if a < p && b == p {
                    assert(order@[a] == o0[a]);
                    assert(categories@[o0[a] as int].sort_order <= key);
                } else if a < p {
                    assert(order@[a] == o0[a] && order@[b] == o0[b - 1]);
                } else if a == p {
                    assert(order@[b] == o0[b - 1]);
                    assert(categories@[o0[b - 1] as int].sort_order > key);
                } else {
                    assert(order@[a] == o0[a - 1] && order@[b] == o0[b - 1]);
                }
            }
        }
        i = i + 1;
    }
    let ghost go = order@.map_values(|x: usize| x as int);
    proof {
        assert forall|j: int| 0 <= j < go.len() implies 0 <= #[trigger] go[j] < categories@.len() by {}
        assert forall|c: int| 0 <= c < categories@.len() implies #[trigger] placed(go, c) by {
            assert(placed_index(order@, c));
            let j = choose|j: int| 0 <= j < order@.len() && #[trigger] order@[j] == c;
            assert(go[j] == c);
        }
        assert forall|a: int, b: int| 0 <= a < b < go.len() implies category_before(categories@, #[trigger] go[a], #[trigger] go[b]) by {
            assert(category_before(categories@, order@[a] as int, order@[b] as int));
        }
        assert(display_order(categories@, go));
    }
    let mut ids: Vec<String> = Vec::new();
    let mut k: usize = 0;
    while k < order.len()
        invariant
            k <= order@.len(),
            order@.len() == categories@.len(),
            go == order@.map_values(|x: usize| x as int),
            forall|j: int| 0 <= j < order@.len() ==> (#[trigger] order@[j]) < categories@.len(),
            ids@.len() == k,
            forall|j: int| 0 <= j < k ==> (#[trigger] ids@[j])@ == categories@[go[j]].id@,
        decreases order@.len() - k,
    {
        let ghost i0 = ids@;
        ids.push(categories[order[k]].id.clone());
        proof {
            assert forall|j: int| 0 <= j < k + 1 implies (#[trigger] ids@[j])@ == categories@[go[j]].id@ by {
                if j < k {
                    assert(ids@[j] == i0[j]);
                }
            }
        }
        k = k + 1;
    }
    ids
}

pub open spec fn i32_abs_wrapping(d: i32) -> i32 {
    if d >= 0 {
        d
    } else if d == i32::MIN {
        i32::MIN
    } else {
        (-d) as i32
    }
}

/// `i32::unsigned_abs` read back as an `i32`: the magnitude, except that
/// `i32::MIN` stays itself.
fn abs_as_i32(d: i32) -> (r: i32)
    ensures
        r == i32_abs_wrapping(d),
{
    if d >= 0 {
        d
    } else if d == i32::MIN {
        i32::MIN
    } else {
        -d
    }
}

/// The row of a category in the worksheet result.
pub open spec fn category_row_ok(row: WorksheetCategoryResult, drift_total: Dec, projected_total: Dec) -> bool {
    &&& bps_spec(row.current_value, drift_total) == Some(row.current_bps)
    &&& bps_spec(row.projected_value, projected_total) == Some(row.projected_bps)
    &&& row.current_difference_bps == row.current_bps - row.target_bps
    &&& row.projected_difference_bps == row.projected_bps - row.target_bps
    &&& (row.is_unclassified <==> row.category_id@ == UNKNOWN_CATEGORY_ID@)
}

/// Some target weight names the category.
pub open spec fn has_weight(weights: Seq<AllocationTargetWeight>, id: Seq<char>) -> bool {
    exists|i: int| 0 <= i < weights.len() && (#[trigger] weights[i]).category_id@ == id
}

/// The largest magnitude of the differences of the rows of targeted
/// categories (before or after the worksheet), if there is such a row.
pub open spec fn max_diff(rows: Seq<WorksheetCategoryResult>, weights: Seq<AllocationTargetWeight>, after: bool) -> Option<i32>
    decreases rows.len(),
{
    if rows.len() == 0 {
        None
    } else {
        let rest = max_diff(rows.drop_last(), weights, after);
        if has_weight(weights, rows.last().category_id@) {
            let d = i32_abs_wrapping(if after { rows.last().projected_difference_bps } else { rows.last().current_difference_bps });
            match rest {
                None => Some(d),
                Some(m) => Some(if d >= m { d } else { m }),
            }
        } else {
            rest
        }
    }
}

pub open spec fn max_diff_or_zero(rows: Seq<WorksheetCategoryResult>, weights: Seq<AllocationTargetWeight>, after: bool) -> i32 {
    match max_diff(rows, weights, after) {
        Some(m) => m,
        None => 0,
    }
}

fn max_abs_difference(rows: &Vec<WorksheetCategoryResult>, weights: &[AllocationTargetWeight], after: bool) -> (r: i32)
    ensures
        r == max_diff_or_zero(rows@, weights@, after),
{
    let mut best: Option<i32> = None;
    let mut i: usize = 0;
    assert(rows@.take(0) =~= Seq::<WorksheetCategoryResult>::empty());
    while i < rows.len()
        invariant
            i <= rows@.len(),
            best == max_diff(rows@.take(i as int), weights@, after),
        decreases rows@.len() - i,
    {
        proof {
            assert(rows@.take(i + 1).drop_last() =~= rows@.take(i as int));
            assert(rows@.take(i + 1).last() == rows@[i as int]);
        }
        if target_bps_for(weights, rows[i].category_id.as_str()).is_some() {
            let d = abs_as_i32(if after { rows[i].projected_difference_bps } else { rows[i].current_difference_bps });
            best = match best {
                None => Some(d),
                Some(m) => Some(if d >= m { d } else { m }),
            };
        }
        i = i + 1;
    }
    assert(rows@.take(i as int) =~= rows@);
    match best {
        Some(m) => m,
        None => 0,
    }
}

/// The ids of `r` other than the unclassified one are those of `ids`, taken
/// from the places `src` in the same order, and every other id of `ids`
/// is taken.
pub open spec fn kept_from(ids: Seq<String>, r: Seq<String>, src: Seq<int>) -> bool {
    &&& src.len() == r.len()
    &&& forall|k: int| 0 <= k < r.len() && (#[trigger] r[k])@ != UNKNOWN_CATEGORY_ID@ ==> 0 <= src[k] < ids.len() && ids[src[k]]@ == r[k]@
    &&& forall|k1: int, k2: int| 0 <= k1 < k2 < r.len() && (#[trigger] r[k1])@ != UNKNOWN_CATEGORY_ID@ && (#[trigger] r[k2])@ != UNKNOWN_CATEGORY_ID@ ==> src[k1] < src[k2]
    &&& forall|q: int| 0 <= q < ids.len() && (#[trigger] ids[q])@ != UNKNOWN_CATEGORY_ID@ ==> exists|k: int| 0 <= k < r.len() && src[k] == q && (#[trigger] r[k])@ != UNKNOWN_CATEGORY_ID@
}

/// The category ids the worksheet walks: the taxonomy's in display order,
/// then each other id of `entries`, `seen` and `weights` once, with the
/// unclassified id moved to the end.
fn display_ids(
    categories: &[TaxonomyCategory],
    entries: &Vec<(String, Dec)>,
    seen: &Vec<String>,
    weights: &[AllocationTargetWeight],
) -> (ordered: Vec<String>)
    ensures
        forall|k: int| 0 <= k < entries@.len() ==> has_text(ordered@, #[trigger] entries@[k].0@),
        forall|k: int| 0 <= k < seen@.len() ==> has_text(ordered@, (#[trigger] seen@[k])@),
        forall|k: int| 0 <= k < weights@.len() ==> has_text(ordered@, (#[trigger] weights@[k]).category_id@),
        forall|j: int| 0 <= j < ordered@.len() - 1 ==> (#[trigger] ordered@[j])@ != UNKNOWN_CATEGORY_ID@,
        exists|order: Seq<int>| #[trigger] display_order(categories@, order) && ids_in_display_order(ordered@, categories@, order),
{
    let mut ordered = categories_in_order(categories);
    let ghost order = choose|order: Seq<int>| #[trigger] display_order(categories@, order) && ordered@.len() == order.len()
        && forall|j: int| 0 <= j < ordered@.len() ==> (#[trigger] ordered@[j])@ == categories@[order[j]].id@;
    assert(listing_in_display_order(categories@, order, ordered@)) by {
        reveal(listing_in_display_order);
    }
    let mut ci: usize = 0;
    while ci < entries.len()
        invariant
            ci <= entries@.len(),
            forall|k: int| 0 <= k < ci ==> has_text(ordered@, #[trigger] entries@[k].0@),
            listing_in_display_order(categories@, order, ordered@),
        decreases entries@.len() - ci,
    {
        let ghost o0 = ordered@;
        push_unique(&mut ordered, entries[ci].0.as_str());
        proof {
            lemma_push_listing(categories@, order, o0, ordered@, entries@[ci as int].0@);
        }
        ci = ci + 1;
    }
    let mut si: usize = 0;
    while si < seen.len()
        invariant
            si <= seen@.len(),
            forall|k: int| 0 <= k < entries@.len() ==> has_text(ordered@, #[trigger] entries@[k].0@),
            forall|k: int| 0 <= k < si ==> has_text(ordered@, (#[trigger] seen@[k])@),
            listing_in_display_order(categories@, order, ordered@),
        decreases seen@.len() - si,
    {
        let ghost o0 = ordered@;
        push_unique(&mut ordered, seen[si].as_str());
        proof {
            lemma_push_listing(categories@, order, o0, ordered@, seen@[si as int]@);
        }
        si = si + 1;
    }
    let mut wi: usize = 0;
    while wi < weights.len()
        invariant
            wi <= weights@.len(),
            forall|k: int| 0 <= k < entries@.len() ==> has_text(ordered@, #[trigger] entries@[k].0@),
            forall|k: int| 0 <= k < seen@.len() ==> has_text(ordered@, (#[trigger] seen@[k])@),
            forall|k: int| 0 <= k < wi ==> has_text(ordered@, (#[trigger] weights@[k]).category_id@),
            listing_in_display_order(categories@, order, ordered@),
        decreases weights@.len() - wi,
    {
        let ghost o0 = ordered@;
        push_unique(&mut ordered, weights[wi].category_id.as_str());
        proof {
            lemma_push_listing(categories@, order, o0, ordered@, weights@[wi as int].category_id@);
        }
        wi = wi + 1;
    }
    proof {
        lemma_listed_ids_in_display_order(categories@, order, ordered@);
    }
    let ghost listed = ordered@;
    let ordered = unknown_last(ordered);
    proof {
        let src = choose|src: Seq<int>| #[trigger] kept_from(listed, ordered@, src);
        lemma_kept_display_order(categories@, order, listed, ordered@, src);
    }
    ordered
}

/// The ids with the unclassified id moved to the end when present.
fn unknown_last(ids: Vec<String>) -> (r: Vec<String>)
    ensures
        forall|j: int| 0 <= j < r@.len() - 1 ==> (#[trigger] r@[j])@ != UNKNOWN_CATEGORY_ID@,
        forall|x: Seq<char>| #[trigger] has_text(r@, x) == has_text(ids@, x),
        exists|src: Seq<int>| #[trigger] kept_from(ids@, r@, src),
{
    let mut out: Vec<String> = Vec::new();
    let mut found = false;
    let mut i: usize = 0;
    let ghost mut src: Seq<int> = Seq::empty();
    while i < ids.len()
        invariant
            i <= ids@.len(),
            src.len() == out@.len(),
            forall|k: int| 0 <= k < out@.len() ==> 0 <= #[trigger] src[k] < i && ids@[src[k]]@ == out@[k]@,
            forall|k1: int, k2: int| 0 <= k1 < k2 < out@.len() ==> #[trigger] src[k1] < #[trigger] src[k2],
            forall|q: int| 0 <= q < i && (#[trigger] ids@[q])@ != UNKNOWN_CATEGORY_ID@ ==> exists|k: int| 0 <= k < out@.len() && #[trigger] src[k] == q,
            forall|j: int| 0 <= j < out@.len() ==> (#[trigger] out@[j])@ != UNKNOWN_CATEGORY_ID@,
            forall|x: Seq<char>| x != UNKNOWN_CATEGORY_ID@ ==> (#[trigger] has_text(out@, x) == taken_ids(ids@, i as int, x)),
            !has_text(out@, UNKNOWN_CATEGORY_ID@),
            found == taken_ids(ids@, i as int, UNKNOWN_CATEGORY_ID@),
        decreases ids@.len() - i,
    {
        let ghost out0 = out@;
        let ghost src0 = src;
        proof {
            assert forall|x: Seq<char>| #[trigger] taken_ids(ids@, i + 1, x) == (taken_ids(ids@, i as int, x) || ids@[i as int]@ == x) by {
                lemma_taken_step(ids@, i as int, x);
            }
        }
        if str_eq(ids[i].as_str(), UNKNOWN_CATEGORY_ID) {
            found = true;
        } else {
            out.push(ids[i].clone());
            proof {
                src = src.push(i as int);
                assert forall|k: int| 0 <= k < out@.len() implies 0 <= #[trigger] src[k] < i + 1 && ids@[src[k]]@ == out@[k]@ by {
                    if k < out0.len() {
                        assert(out@[k] == out0[k] && src[k] == src0[k]);
                    }
                }
                assert forall|k1: int, k2: int| 0 <= k1 < k2 < out@.len() implies #[trigger] src[k1] < #[trigger] src[k2] by {
                    assert(src[k1] == src0[k1]);
                    if k2 < out0.len() {
                        assert(src[k2] == src0[k2]);
                    }
                }
                assert forall|q: int| 0 <= q < i + 1 && (#[trigger] ids@[q])@ != UNKNOWN_CATEGORY_ID@ implies exists|k: int| 0 <= k < out@.len() && #[trigger] src[k] == q by {
                    if q < i {
                        let k = choose|k: int| 0 <= k < out0.len() && #[trigger] src0[k] == q;
                        assert(src[k] == src0[k]);
                    } else {
                        assert(src[out0.len() as int] == q);
                    }
                }
            }
            proof {
                assert forall|x: Seq<char>| #[trigger] has_text(out@, x) == (has_text(out0, x) || x == ids@[i as int]@) by {
                    if has_text(out0, x) {
                        let k = choose|k: int| 0 <= k < out0.len() && (#[trigger] out0[k])@ == x;
                        assert(out@[k] == out0[k]);
                    }
                    if x == ids@[i as int]@ {
                        assert(out@[out0.len() as int]@ == x);
                    }
                    if has_text(out@, x) && x != ids@[i as int]@ {
                        let k = choose|k: int| 0 <= k < out@.len() && (#[trigger] out@[k])@ == x;
                        assert(k < out0.len());
                        assert(out@[k] == out0[k]);
                    }
                }
            }
        }
        i = i + 1;
    }
    let ghost out1 = out@;
    let ghost src1 = src;
    proof {
        assert(kept_from(ids@, out1, src1));
    }
    if found {
        out.push(String::from_str(UNKNOWN_CATEGORY_ID));
        proof {
            src = src.push(0);
            assert forall|k: int| 0 <= k < out@.len() && (#[trigger] out@[k])@ != UNKNOWN_CATEGORY_ID@ implies 0 <= src[k] < ids@.len() && ids@[src[k]]@ == out@[k]@ by {
                assert(out@[k] == out1[k] && src[k] == src1[k]);
            }
            assert forall|k1: int, k2: int| 0 <= k1 < k2 < out@.len() && (#[trigger] out@[k1])@ != UNKNOWN_CATEGORY_ID@ && (#[trigger] out@[k2])@ != UNKNOWN_CATEGORY_ID@ implies src[k1] < src[k2] by {
                assert(out@[k1] == out1[k1] && src[k1] == src1[k1]);
                assert(out@[k2] == out1[k2] && src[k2] == src1[k2]);
            }
            assert forall|q: int| 0 <= q < ids@.len() && (#[trigger] ids@[q])@ != UNKNOWN_CATEGORY_ID@ implies exists|k: int| 0 <= k < out@.len() && src[k] == q && (#[trigger] out@[k])@ != UNKNOWN_CATEGORY_ID@ by {
                let k = choose|k: int| 0 <= k < out1.len() && #[trigger] src1[k] == q;
                assert(out@[k] == out1[k] && src[k] == src1[k]);
            }
            assert(kept_from(ids@, out@, src));
        }
        proof {
            assert forall|x: Seq<char>| #[trigger] has_text(out@, x) == (has_text(out1, x) || x == UNKNOWN_CATEGORY_ID@) by {
                if has_text(out1, x) {
                    let k = choose|k: int| 0 <= k < out1.len() && (#[trigger] out1[k])@ == x;
                    assert(out@[k] == out1[k]);
                }
                if x == UNKNOWN_CATEGORY_ID@ {
                    assert(out@[out1.len() as int]@ == x);
                }
                if has_text(out@, x) && x != UNKNOWN_CATEGORY_ID@ {
                    let k = choose|k: int| 0 <= k < out@.len() && (#[trigger] out@[k])@ == x;
                    assert(k < out1.len());
                    assert(out@[k] == out1[k]);
                }
            }
        }
    }
    proof {
        assert forall|x: Seq<char>| #[trigger] has_text(ids@, x) == taken_ids(ids@, ids@.len() as int, x) by {}
    }
    out
}

/// The drift report has a cash category.
pub open spec fn has_cash_row(rows: Seq<DriftRow>) -> bool {
    exists|i: int| 0 <= i < rows.len() && (#[trigger] rows[i]).is_cash
}

/// The current value of a category: that of its last drift row.
pub open spec fn drift_value(rows: Seq<DriftRow>, id: Seq<char>) -> Option<Dec>
    decreases rows.len(),
{
    if rows.len() == 0 {
        None
    } else if rows.last().category_id@ == id {
        Some(rows.last().current_value)
    } else {
        drift_value(rows.drop_last(), id)
    }
}

/// A category's value moved by the exposures of that category, added in
/// order (`None`: a `Decimal` overflow).
pub open spec fn moved_by_exposures(start: Dec, exposures: Seq<WorksheetCategoryExposure>, id: Seq<char>) -> Option<Dec>
    decreases exposures.len(),
{
    if exposures.len() == 0 {
        Some(start)
    } else {
        match moved_by_exposures(start, exposures.drop_last(), id) {
            None => None,
            Some(t) => if exposures.last().category_id@ == id {
                spec_add(t, exposures.last().value_delta)
            } else {
                Some(t)
            },
        }
    }
}

/// A category's value moved by the exposures of every line, in order.
pub open spec fn moved_by_lines(start: Dec, lines: Seq<AllocationWorksheetLineResult>, id: Seq<char>) -> Option<Dec>
    decreases lines.len(),
{
    if lines.len() == 0 {
        Some(start)
    } else {
        match moved_by_lines(start, lines.drop_last(), id) {
            None => None,
            Some(t) => moved_by_exposures(t, lines.last().category_exposures@, id),
        }
    }
}

/// The category of the first cash row of the drift report.
pub open spec fn cash_category(rows: Seq<DriftRow>) -> Option<Seq<char>>
    decreases rows.len(),
{
    if rows.len() == 0 {
        None
    } else if rows[0].is_cash {
        Some(rows[0].category_id@)
    } else {
        cash_category(rows.drop_first())
    }
}

/// The worksheet's net cash: external cash less increases plus reductions.
pub open spec fn net_cash(external: Dec, increase_total: Dec, reduction_total: Dec) -> Option<Dec> {
    match spec_sub(external, increase_total) {
        Some(x) => spec_add(x, reduction_total),
        None => None,
    }
}

/// A category's projected value: its current value moved by the line
/// exposures and, for the first cash category, by the net cash.
pub open spec fn projected_value_of(
    rows: Seq<DriftRow>,
    lines: Seq<AllocationWorksheetLineResult>,
    id: Seq<char>,
    external: Dec,
    increase_total: Dec,
    reduction_total: Dec,
) -> Option<Dec> {
    match moved_by_lines(value_or_zero(drift_value(rows, id)), lines, id) {
        None => None,
        Some(v) => if cash_category(rows) == Some(id) {
            match net_cash(external, increase_total, reduction_total) {
                Some(n) => spec_add(v, n),
                None => None,
            }
        } else {
            Some(v)
        },
    }
}

/// Where the projected cash goes: the first cash category of the drift report
/// ends at its current value moved by the line exposures, plus the external
/// contribution, less the increase total, plus the reduction total (the
/// `Decimal` operations in that order, `None` on an overflow); every other
/// category is moved by its line exposures alone.
pub proof fn law_projected_cash_takes_net_cash(
    rows: Seq<DriftRow>,
    lines: Seq<AllocationWorksheetLineResult>,
    id: Seq<char>,
    external: Dec,
    increase_total: Dec,
    reduction_total: Dec,
)
    ensures
        cash_category(rows) == Some(id) ==> projected_value_of(rows, lines, id, external, increase_total, reduction_total) == (
            match moved_by_lines(value_or_zero(drift_value(rows, id)), lines, id) {
                None => None,
                Some(v) => match spec_sub(external, increase_total) {
                    None => None,
                    Some(x) => match spec_add(x, reduction_total) {
                        None => None,
                        Some(n) => spec_add(v, n),
                    },
                },
            }),
        cash_category(rows) != Some(id) ==> projected_value_of(rows, lines, id, external, increase_total, reduction_total)
            == moved_by_lines(value_or_zero(drift_value(rows, id)), lines, id),
{
}

/// The first cash category would end below zero.
pub open spec fn cash_projected_negative(
    rows: Seq<DriftRow>,
    lines: Seq<AllocationWorksheetLineResult>,
    external: Dec,
    increase_total: Dec,
    reduction_total: Dec,
) -> bool {
    &&& cash_category(rows) matches Some(c)
    &&& projected_value_of(rows, lines, c, external, increase_total, reduction_total) matches Some(v)
    &&& v.units() < 0
}

/// The drift row of a category: its last one.
pub open spec fn last_drift_row(rows: Seq<DriftRow>, id: Seq<char>) -> Option<int>
    decreases rows.len(),
{
    if rows.len() == 0 {
        None
    } else if rows.last().category_id@ == id {
        Some(rows.len() - 1)
    } else {
        last_drift_row(rows.drop_last(), id)
    }
}

/// The name the taxonomy gives a category: that of its last entry.
pub open spec fn taxonomy_name(categories: Seq<TaxonomyCategory>, id: Seq<char>) -> Option<Seq<char>>
    decreases categories.len(),
{
    if categories.len() == 0 {
        None
    } else if categories.last().id@ == id {
        Some(categories.last().name@)
    } else {
        taxonomy_name(categories.drop_last(), id)
    }
}

/// The labels of a row: its name from the taxonomy, else from its drift
/// row, else its id (the unclassified category has its own name); its color
/// and cash flag from its drift row.
pub open spec fn row_labels_ok(row: WorksheetCategoryResult, drift_rows: Seq<DriftRow>, categories: Seq<TaxonomyCategory>) -> bool {
    let id = row.category_id@;
    let d = last_drift_row(drift_rows, id);
    &&& row.category_name@ == if id == UNKNOWN_CATEGORY_ID@ {
        UNKNOWN_CATEGORY_NAME@
    } else {
        match taxonomy_name(categories, id) {
            Some(n) => n,
            None => match d {
                Some(i) => drift_rows[i].category_name@,
                None => id,
            },
        }
    }
    &&& row.color@ == (match d {
        Some(i) => drift_rows[i].color@,
        None => "#94a3b8"@,
    })
    &&& row.is_cash == (match d {
        Some(i) => drift_rows[i].is_cash,
        None => false,
    })
}

/// Some row is of the category.
pub open spec fn has_category_row(rows: Seq<WorksheetCategoryResult>, id: Seq<char>) -> bool {
    exists|j: int| 0 <= j < rows.len() && (#[trigger] rows[j]).category_id@ == id
}

/// A category needs a row: it has a target, or a current or projected
/// value other than zero.
pub open spec fn row_needed(
    id: Seq<char>,
    drift_rows: Seq<DriftRow>,
    lines: Seq<AllocationWorksheetLineResult>,
    weights: Seq<AllocationTargetWeight>,
    external: Dec,
    increase_total: Dec,
    reduction_total: Dec,
) -> bool {
    ||| weight_target(weights, id) is Some
    ||| value_or_zero(drift_value(drift_rows, id)).units() != 0
    ||| (projected_value_of(drift_rows, lines, id, external, increase_total, reduction_total) matches Some(v) && v.units() != 0)
}

proof fn lemma_weight_target_member(weights: Seq<AllocationTargetWeight>, id: Seq<char>)
    requires
        weight_target(weights, id) is Some,
    ensures
        exists|k: int| 0 <= k < weights.len() && (#[trigger] weights[k]).category_id@ == id,
    decreases weights.len(),
{
    if weights.last().category_id@ == id {
        assert(weights[weights.len() - 1].category_id@ == id);
    } else {
        lemma_weight_target_member(weights.drop_last(), id);
        let k = choose|k: int| 0 <= k < weights.drop_last().len() && (#[trigger] weights.drop_last()[k]).category_id@ == id;
        assert(weights[k] == weights.drop_last()[k]);
    }
}

proof fn lemma_cash_category_member(rows: Seq<DriftRow>, id: Seq<char>)
    requires
        cash_category(rows) == Some(id),
    ensures
        drift_value(rows, id) is Some,
    decreases rows.len(),
{
    let k = lemma_cash_category_index(rows, id);
    lemma_drift_value_member(rows, id, k);
}

proof fn lemma_cash_category_index(rows: Seq<DriftRow>, id: Seq<char>) -> (k: int)
    requires
        cash_category(rows) == Some(id),
    ensures
        0 <= k < rows.len() && rows[k].category_id@ == id,
    decreases rows.len(),
{
    if rows[0].is_cash {
        0
    } else {
        let k = lemma_cash_category_index(rows.drop_first(), id);
        assert(rows[k + 1] == rows.drop_first()[k]);
        k + 1
    }
}

proof fn lemma_drift_value_member(rows: Seq<DriftRow>, id: Seq<char>, k: int)
    requires
        0 <= k < rows.len(),
        rows[k].category_id@ == id,
    ensures
        drift_value(rows, id) is Some,
    decreases rows.len(),
{
    if rows.last().category_id@ != id {
        assert(k < rows.len() - 1);
        assert(rows.drop_last()[k] == rows[k]);
        lemma_drift_value_member(rows.drop_last(), id, k);
    }
}

/// The target of a category: that of its last weight.
pub open spec fn weight_target(weights: Seq<AllocationTargetWeight>, id: Seq<char>) -> Option<i32>
    decreases weights.len(),
{
    if weights.len() == 0 {
        None
    } else if weights.last().category_id@ == id {
        Some(weights.last().target_bps)
    } else {
        weight_target(weights.drop_last(), id)
    }
}

/// An earlier row is of the same category.
pub open spec fn row_repeats(rows: Seq<WorksheetCategoryResult>, j: int) -> bool {
    exists|k: int| 0 <= k < j && (#[trigger] rows[k]).category_id@ == rows[j].category_id@
}

/// The values of a row: those of its category, unless an earlier row took
/// them, leaving zero.
pub open spec fn row_values_ok(
    rows: Seq<WorksheetCategoryResult>,
    j: int,
    drift_rows: Seq<DriftRow>,
    lines: Seq<AllocationWorksheetLineResult>,
    weights: Seq<AllocationTargetWeight>,
    external: Dec,
    increase_total: Dec,
    reduction_total: Dec,
) -> bool {
    let id = rows[j].category_id@;
    &&& rows[j].target_bps == (match weight_target(weights, id) { Some(t) => t, None => 0 })
    &&& if row_repeats(rows, j) {
        rows[j].current_value == Dec::zero_spec() && rows[j].projected_value == Dec::zero_spec()
    } else {
        &&& rows[j].current_value == value_or_zero(drift_value(drift_rows, id))
        &&& projected_value_of(drift_rows, lines, id, external, increase_total, reduction_total) == Some(rows[j].projected_value)
    }
}

proof fn lemma_entry_value_prefix_push(s: Seq<(String, Dec)>, e: (String, Dec), x: Seq<char>)
    ensures
        entry_value(s.push(e), x) == match entry_value(s, x) {
            Some(v) => Some(v),
            None => if e.0@ == x { Some(e.1) } else { None },
        },
    decreases s.len(),
{
    if s.len() == 0 {
        assert(s.push(e).drop_first() =~= s);
    } else {
        assert(s.push(e).drop_first() =~= s.drop_first().push(e));
        assert(s.push(e)[0] == s[0]);
        lemma_entry_value_prefix_push(s.drop_first(), e, x);
    }
}

proof fn lemma_cash_category_first(rows: Seq<DriftRow>, c: int)
    requires
        0 <= c < rows.len(),
        rows[c].is_cash,
        forall|k: int| 0 <= k < c ==> !(#[trigger] rows[k]).is_cash,
    ensures
        cash_category(rows) == Some(rows[c].category_id@),
    decreases c,
{
    if c > 0 {
        assert forall|k: int| 0 <= k < c - 1 implies !(#[trigger] rows.drop_first()[k]).is_cash by {
            assert(rows.drop_first()[k] == rows[k + 1]);
        }
        assert(rows.drop_first()[c - 1] == rows[c]);
        assert(!rows[0].is_cash);
        lemma_cash_category_first(rows.drop_first(), c - 1);
    }
}

proof fn lemma_cash_category_none(rows: Seq<DriftRow>)
    requires
        forall|k: int| 0 <= k < rows.len() ==> !(#[trigger] rows[k]).is_cash,
    ensures
        cash_category(rows) is None,
    decreases rows.len(),
{
    if rows.len() > 0 {
        assert forall|k: int| 0 <= k < rows.len() - 1 implies !(#[trigger] rows.drop_first()[k]).is_cash by {
            assert(rows.drop_first()[k] == rows[k + 1]);
        }
        assert(!rows[0].is_cash);
        lemma_cash_category_none(rows.drop_first());
    }
}

/// Some of the first `n` ids is `x`.
pub open spec fn taken_ids(ordered: Seq<String>, n: int, x: Seq<char>) -> bool {
    exists|k: int| 0 <= k < n && (#[trigger] ordered[k])@ == x
}

proof fn lemma_taken_step(ordered: Seq<String>, n: int, x: Seq<char>)
    requires
        0 <= n < ordered.len(),
    ensures
        taken_ids(ordered, n + 1, x) == (taken_ids(ordered, n, x) || ordered[n]@ == x),
{
    if taken_ids(ordered, n, x) {
        let k = choose|k: int| 0 <= k < n && (#[trigger] ordered[k])@ == x;
        assert(0 <= k < n + 1 && ordered[k]@ == x);
    }
    if ordered[n]@ == x {
        assert(0 <= n < n + 1 && ordered[n]@ == x);
    }
    if taken_ids(ordered, n + 1, x) && ordered[n]@ != x {
        let k = choose|k: int| 0 <= k < n + 1 && (#[trigger] ordered[k])@ == x;
        assert(k < n);
    }
}

/// The projection of the categories after the worksheet.
pub struct CategoryProjection {
    pub categories: Vec<WorksheetCategoryResult>,
    /// The denominator of the projected percentages.
    pub projected_total: Dec,
    pub max_difference_bps_before: i32,
    pub max_difference_bps_after: i32,
}

/// The current values by category, the last drift row of an id winning.
fn current_values(rows: &[DriftRow]) -> (r: CategoryValues)
    requires
        forall|i: int| 0 <= i < rows@.len() ==> (#[trigger] rows@[i]).current_value.wf(),
    ensures
        r.wf(),
        forall|x: Seq<char>| #[trigger] entry_value(r.entries@, x) == drift_value(rows@, x),
{
    let mut current = CategoryValues::new();
    let mut i: usize = 0;
    assert(rows@.take(0) =~= Seq::<DriftRow>::empty());
    while i < rows.len()
        invariant
            i <= rows@.len(),
            current.wf(),
            forall|k: int| 0 <= k < rows@.len() ==> (#[trigger] rows@[k]).current_value.wf(),
            forall|x: Seq<char>| #[trigger] entry_value(current.entries@, x) == drift_value(rows@.take(i as int), x),
        decreases rows@.len() - i,
    {
        assert(rows@[i as int].current_value.wf());
        proof {
            assert(rows@.take(i + 1).drop_last() =~= rows@.take(i as int));
            assert(rows@.take(i + 1).last() == rows@[i as int]);
        }
        current.set(rows[i].category_id.as_str(), rows[i].current_value);
        i = i + 1;
    }
    assert(rows@.take(i as int) =~= rows@);
    current
}

/// A copy of the values, entry by entry.
fn copy_values(v: &CategoryValues) -> (r: CategoryValues)
    requires
        v.wf(),
    ensures
        r.wf(),
        forall|x: Seq<char>| #[trigger] entry_value(r.entries@, x) == entry_value(v.entries@, x),
{
    let mut out = CategoryValues::new();
    let mut k: usize = 0;
    assert(v.entries@.take(0) =~= Seq::<(String, Dec)>::empty());
    while k < v.entries.len()
        invariant
            k <= v.entries@.len(),
            v.wf(),
            out.wf(),
            forall|x: Seq<char>| #[trigger] entry_value(out.entries@, x) == entry_value(v.entries@.take(k as int), x),
        decreases v.entries@.len() - k,
    {
        assert(v.entries@[k as int].1.wf());
        proof {
            let s = v.entries@;
            assert(s.take(k + 1) =~= s.take(k as int).push(s[k as int]));
            assert forall|j: int| 0 <= j < s.take(k as int).len() implies s.take(k as int)[j].0@ != s[k as int].0@ by {
                assert(s.take(k as int)[j] == s[j]);
                assert(s[j].0@ != s[k as int].0@);
            }
            lemma_entry_value_absent(s.take(k as int), s[k as int].0@);
            assert forall|x: Seq<char>| #[trigger] entry_value(s.take(k + 1), x) == if x == s[k as int].0@ { Some(s[k as int].1) } else { entry_value(s.take(k as int), x) } by {
                lemma_entry_value_prefix_push(s.take(k as int), s[k as int], x);
            }
        }
        out.set(v.entries[k].0.as_str(), v.entries[k].1);
        k = k + 1;
    }
    assert(v.entries@.take(k as int) =~= v.entries@);
    out
}

/// An overflow part way through a line's exposures stays one.
proof fn lemma_moved_by_exposures_none(start: Dec, s: Seq<WorksheetCategoryExposure>, k: int, id: Seq<char>)
    requires
        0 <= k <= s.len(),
        moved_by_exposures(start, s.take(k), id) is None,
    ensures
        moved_by_exposures(start, s, id) is None,
    decreases s.len() - k,
{
    if k < s.len() {
        assert(s.take(k + 1).drop_last() =~= s.take(k));
        lemma_moved_by_exposures_none(start, s, k + 1, id);
    } else {
        assert(s.take(k) =~= s);
    }
}

/// An overflow part way through the lines stays one.
proof fn lemma_moved_by_lines_none(start: Dec, lines: Seq<AllocationWorksheetLineResult>, k: int, id: Seq<char>)
    requires
        0 <= k <= lines.len(),
        moved_by_lines(start, lines.take(k), id) is None,
    ensures
        moved_by_lines(start, lines, id) is None,
    decreases lines.len() - k,
{
    if k < lines.len() {
        assert(lines.take(k + 1).drop_last() =~= lines.take(k));
        lemma_moved_by_lines_none(start, lines, k + 1, id);
    } else {
        assert(lines.take(k) =~= lines);
    }
}

/// The target of a category, zero where it has none.
pub open spec fn target_or_zero(weights: Seq<AllocationTargetWeight>, x: Seq<char>) -> i32 {
    match weight_target(weights, x) {
        Some(t) => t,
        None => 0,
    }
}

/// The percentages of a row overflow: of the value `c` of the drift total,
/// of the value `p` of the projected total, or their differences from the
/// target.
pub open spec fn row_overflows(c: Dec, p: Dec, total: Dec, projected_total: Dec, target: i32) -> bool {
    match (bps_spec(c, total), bps_spec(p, projected_total)) {
        (Some(cb), Some(pb)) => !(i32::MIN <= cb - target <= i32::MAX) || !(i32::MIN <= pb - target <= i32::MAX),
        _ => true,
    }
}

/// A `Decimal` or `i32` operation of the projection overflows: a
/// category's projected value, the projected total, or the percentages of a
/// row (whose values are its category's, or zero where an earlier row took
/// them).
pub open spec fn projection_overflows(
    rows: Seq<DriftRow>,
    lines: Seq<AllocationWorksheetLineResult>,
    total: Dec,
    weights: Seq<AllocationTargetWeight>,
    external: Dec,
    increase_total: Dec,
    reduction_total: Dec,
) -> bool {
    ||| exists|x: Seq<char>| #[trigger] projected_value_of(rows, lines, x, external, increase_total, reduction_total) is None
    ||| projected_total_spec(total, external, increase_total, reduction_total, has_cash_row(rows)) is None
    ||| exists|x: Seq<char>, c: Dec, p: Dec|
        #[trigger] row_overflows(c, p, total, projected_total_spec(total, external, increase_total, reduction_total, has_cash_row(rows)).unwrap(), target_or_zero(weights, x))
        && (c == value_or_zero(drift_value(rows, x)) || c == Dec::zero_spec())
        && (projected_value_of(rows, lines, x, external, increase_total, reduction_total) == Some(p) || p == Dec::zero_spec())
}

/// Moves the values by the exposures of every line, in order, and records
/// the categories seen (`false`: a `Decimal` overflow).
fn add_exposures(projected: &mut CategoryValues, lines: &[AllocationWorksheetLineResult], seen: &mut Vec<String>) -> (r: bool)
    requires
        old(projected).wf(),
        results_wf(lines@),
    ensures
        final(projected).wf(),
        r ==> forall|x: Seq<char>| #[trigger] moved_by_lines(old(projected).value(x), lines@, x) == Some(final(projected).value(x)),
        r ==> forall|x: Seq<char>| !has_text(final(seen)@, x) ==> #[trigger] final(projected).value(x) == old(projected).value(x),
        !r ==> exists|x: Seq<char>| #[trigger] moved_by_lines(old(projected).value(x), lines@, x) is None,
{
    let ghost p0 = *projected;
    let mut li: usize = 0;
    assert(lines@.take(0) =~= Seq::<AllocationWorksheetLineResult>::empty());
    while li < lines.len()
        invariant
            li <= lines@.len(),
            results_wf(lines@),
            projected.wf(),
            forall|x: Seq<char>| #[trigger] moved_by_lines(p0.value(x), lines@.take(li as int), x) == Some(projected.value(x)),
            forall|x: Seq<char>| !has_text(seen@, x) ==> #[trigger] projected.value(x) == p0.value(x),
            p0 == *old(projected),
        decreases lines@.len() - li,
    {
        let exposures = &lines[li].category_exposures;
        let ghost p1 = *projected;
        let mut ei: usize = 0;
        assert(exposures@.take(0) =~= Seq::<WorksheetCategoryExposure>::empty());
        while ei < exposures.len()
            invariant
                li < lines@.len(),
                results_wf(lines@),
                *exposures == lines@[li as int].category_exposures,
                ei <= exposures@.len(),
                projected.wf(),
                forall|x: Seq<char>| #[trigger] moved_by_exposures(p1.value(x), exposures@.take(ei as int), x) == Some(projected.value(x)),
                forall|x: Seq<char>| !has_text(seen@, x) ==> #[trigger] projected.value(x) == p0.value(x),
                forall|x: Seq<char>| #[trigger] moved_by_lines(p0.value(x), lines@.take(li as int), x) == Some(p1.value(x)),
                p0 == *old(projected),
            decreases exposures@.len() - ei,
        {
            assert(lines@[li as int].category_exposures@[ei as int].value_delta.wf());
            proof {
                assert(exposures@.take(ei + 1).drop_last() =~= exposures@.take(ei as int));
                assert(exposures@.take(ei + 1).last() == exposures@[ei as int]);
            }
            let ghost before = *projected;
            if !projected.add(exposures[ei].category_id.as_str(), exposures[ei].value_delta) {
                proof {
                    let x = exposures@[ei as int].category_id@;
                    assert(moved_by_exposures(p1.value(x), exposures@.take(ei as int), x) == Some(before.value(x)));
                    assert(moved_by_exposures(p1.value(x), exposures@.take(ei + 1), x) is None);
                    lemma_moved_by_exposures_none(p1.value(x), exposures@, ei + 1, x);
                    assert(lines@.take(li + 1).drop_last() =~= lines@.take(li as int));
                    assert(lines@.take(li + 1).last() == lines@[li as int]);
                    assert(moved_by_lines(p0.value(x), lines@.take(li as int), x) == Some(p1.value(x)));
                    assert(moved_by_lines(p0.value(x), lines@.take(li + 1), x) is None);
                    lemma_moved_by_lines_none(p0.value(x), lines@, li + 1, x);
                }
                return false;
            }
            proof {
                assert forall|x: Seq<char>| #[trigger] moved_by_exposures(p1.value(x), exposures@.take(ei + 1), x) == Some(projected.value(x)) by {
                    assert(moved_by_exposures(p1.value(x), exposures@.take(ei as int), x) == Some(before.value(x)));
                    assert(entry_value(projected.entries@, x) == if x == exposures@[ei as int].category_id@ { spec_add(before.value(x), exposures@[ei as int].value_delta) } else { entry_value(before.entries@, x) });
                }
            }
            let ghost seen0 = seen@;
            push_unique(seen, exposures[ei].category_id.as_str());
            proof {
                assert forall|x: Seq<char>| !has_text(seen@, x) implies #[trigger] projected.value(x) == p0.value(x) by {
                    assert(!has_text(seen0, x));
                    assert(x != exposures@[ei as int].category_id@);
                    assert(before.value(x) == p0.value(x));
                }
            }
            ei = ei + 1;
        }
        proof {
            assert(exposures@.take(ei as int) =~= exposures@);
            assert(lines@.take(li + 1).drop_last() =~= lines@.take(li as int));
            assert(lines@.take(li + 1).last() == lines@[li as int]);
            assert forall|x: Seq<char>| #[trigger] moved_by_lines(p0.value(x), lines@.take(li + 1), x) == Some(projected.value(x)) by {
                assert(moved_by_lines(p0.value(x), lines@.take(li as int), x) == Some(p1.value(x)));
                assert(moved_by_exposures(p1.value(x), exposures@, x) == Some(projected.value(x)));
            }
        }
        li = li + 1;
    }
    assert(lines@.take(li as int) =~= lines@);
    true
}

impl AllocationWorksheetService {
    /// Projects the categories: current values from the drift report,
    /// projected values moved by every line exposure and, when the report
    /// has a cash category, by the net cash of the worksheet (which may not
    /// go negative).  Categories come in the taxonomy's display order (by
    /// sort order, equal orders keeping their places), then other ids seen,
    /// with the unclassified category last; a category with no value before
    /// or after and no target is left out.  Also returns the largest
    /// difference from target before and after among targeted categories.
    /// `None`: a `Decimal` or `i32` overflow.
    #[verifier::rlimit(50)]
    #[verifier::spinoff_prover]
    pub fn project_categories(
        lines: &[AllocationWorksheetLineResult],
        drift: &DriftReport,
        categories: &[TaxonomyCategory],
        weights: &[AllocationTargetWeight],
        external_contribution: Dec,
        increase_total: Dec,
        reduction_total: Dec,
    ) -> (r: Option<Result<CategoryProjection, CoreError>>)
        requires
            results_wf(lines@),
            drift.total_value.wf(),
            forall|i: int| 0 <= i < drift.rows@.len() ==> (#[trigger] drift.rows@[i]).current_value.wf(),
            external_contribution.wf(),
            increase_total.wf(),
            reduction_total.wf(),
        ensures
            r matches Some(Err(e)) ==> e is InvalidInput && e.message() == "Worksheet would make the tracked cash category negative"@,
            r matches Some(Ok(p)) ==> forall|i: int| 0 <= i < p.categories@.len() && (#[trigger] p.categories@[i]).category_id@ == UNKNOWN_CATEGORY_ID@ ==> i == p.categories@.len() - 1,
            r matches Some(Ok(p)) ==> forall|i: int| 0 <= i < p.categories@.len() ==> category_row_ok(#[trigger] p.categories@[i], drift.total_value, p.projected_total),
            r matches Some(Ok(p)) ==> Some(p.projected_total) == projected_total_spec(drift.total_value, external_contribution, increase_total, reduction_total, has_cash_row(drift.rows@)),
            r matches Some(Ok(p)) ==> p.max_difference_bps_before == max_diff_or_zero(p.categories@, weights@, false),
            r matches Some(Ok(p)) ==> p.max_difference_bps_after == max_diff_or_zero(p.categories@, weights@, true),
            r matches Some(Ok(p)) ==> forall|j: int| 0 <= j < p.categories@.len() ==> #[trigger] row_values_ok(p.categories@, j, drift.rows@, lines@, weights@, external_contribution, increase_total, reduction_total),
            r matches Some(Ok(p)) ==> forall|j: int| 0 <= j < p.categories@.len() ==> row_labels_ok(#[trigger] p.categories@[j], drift.rows@, categories@),
            r matches Some(Ok(p)) ==> forall|x: Seq<char>| #[trigger] row_needed(x, drift.rows@, lines@, weights@, external_contribution, increase_total, reduction_total)
                ==> has_category_row(p.categories@, x),
            r matches Some(Ok(p)) ==> forall|j: int| 0 <= j < p.categories@.len() && !row_repeats(p.categories@, j)
                ==> row_needed((#[trigger] p.categories@[j]).category_id@, drift.rows@, lines@, weights@, external_contribution, increase_total, reduction_total),
            r matches Some(Err(_)) ==> cash_projected_negative(drift.rows@, lines@, external_contribution, increase_total, reduction_total),
            r matches Some(Ok(_)) ==> !cash_projected_negative(drift.rows@, lines@, external_contribution, increase_total, reduction_total),
            r matches Some(Ok(p)) ==> exists|order: Seq<int>| #[trigger] display_order(categories@, order) && rows_in_display_order(p.categories@, categories@, order),
            r is None ==> projection_overflows(drift.rows@, lines@, drift.total_value, weights@, external_contribution, increase_total, reduction_total),
    {
        let mut current = current_values(drift.rows.as_slice());
        let mut projected = copy_values(&current);
        let ghost copied = projected;
        let mut seen: Vec<String> = Vec::new();
        if !add_exposures(&mut projected, lines, &mut seen) {
            proof {
                let x = choose|x: Seq<char>| #[trigger] moved_by_lines(copied.value(x), lines@, x) is None;
                assert(entry_value(copied.entries@, x) == entry_value(current.entries@, x));
                assert(projected_value_of(drift.rows@, lines@, x, external_contribution, increase_total, reduction_total) is None);
            }
            return None;
        }
        assert forall|x: Seq<char>| #[trigger] moved_by_lines(current.value(x), lines@, x) == Some(projected.value(x)) by {
            assert(entry_value(copied.entries@, x) == entry_value(current.entries@, x));
            assert(moved_by_lines(copied.value(x), lines@, x) == Some(projected.value(x)));
        }
        assert forall|x: Seq<char>| !has_text(seen@, x) implies #[trigger] projected.value(x) == current.value(x) by {
            assert(entry_value(copied.entries@, x) == entry_value(current.entries@, x));
        }
        let ghost exposed = projected;
        // The first cash category takes the worksheet's net cash.
        let mut cash_id: Option<usize> = None;
        let mut ri: usize = 0;
        while ri < drift.rows.len() && cash_id.is_none()
            invariant
                ri <= drift.rows@.len(),
                cash_id matches Some(c) ==> c < drift.rows@.len() && drift.rows@[c as int].is_cash,
                cash_id is None ==> forall|k: int| 0 <= k < ri ==> !(#[trigger] drift.rows@[k]).is_cash,
                cash_id matches Some(c) ==> forall|k: int| 0 <= k < c ==> !(#[trigger] drift.rows@[k]).is_cash,
            decreases drift.rows@.len() - ri + (if cash_id is None { 1int } else { 0int }),
        {
            if drift.rows[ri].is_cash {
                cash_id = Some(ri);
            } else {
                ri = ri + 1;
            }
        }
        let includes_cash = cash_id.is_some();
        match cash_id {
            Some(c) => {
                proof {
                    lemma_cash_category_first(drift.rows@, c as int);
                    let x = drift.rows@[c as int].category_id@;
                    assert(moved_by_lines(current.value(x), lines@, x) == Some(projected.value(x)));
                }
                let net = match dec_sub(external_contribution, increase_total) {
                    Some(x) => match dec_add(x, reduction_total) {
                        Some(y) => y,
                        None => {
                            assert(projected_value_of(drift.rows@, lines@, drift.rows@[c as int].category_id@, external_contribution, increase_total, reduction_total) is None);
                            return None;
                        },
                    },
                    None => {
                        assert(projected_value_of(drift.rows@, lines@, drift.rows@[c as int].category_id@, external_contribution, increase_total, reduction_total) is None);
                        return None;
                    },
                };
                let id = drift.rows[c].category_id.as_str();
                let ghost before = projected;
                if !projected.add(id, net) {
                    assert(projected_value_of(drift.rows@, lines@, id@, external_contribution, increase_total, reduction_total) is None);
                    return None;
                }
                proof {
                    lemma_cash_category_first(drift.rows@, c as int);
                    assert forall|x: Seq<char>| #[trigger] projected_value_of(drift.rows@, lines@, x, external_contribution, increase_total, reduction_total) == Some(projected.value(x)) by {
                        assert(moved_by_lines(current.value(x), lines@, x) == Some(before.value(x)));
                    }
                }
                let value = match projected.position(id) {
                    Some(p) => {
                        assert(projected.entries@[p as int].1.wf());
                        proof {
                            lemma_entry_value_found(projected.entries@, p as int);
                        }
                        projected.entries[p].1
                    },
                    None => Dec::zero(),
                };
                assert(value == projected.value(id@));
                assert(projected_value_of(drift.rows@, lines@, id@, external_contribution, increase_total, reduction_total) == Some(value));
                if dec_lt(value, Dec::zero()) {
                    return Some(Err(Self::invalid("Worksheet would make the tracked cash category negative")));
                }
            },
            None => {
                proof {
                    lemma_cash_category_none(drift.rows@);
                    assert forall|x: Seq<char>| #[trigger] projected_value_of(drift.rows@, lines@, x, external_contribution, increase_total, reduction_total) == Some(projected.value(x)) by {
                        assert(moved_by_lines(current.value(x), lines@, x) == Some(projected.value(x)));
                    }
                }
            },
        }
        assert(includes_cash == has_cash_row(drift.rows@)) by {
            if has_cash_row(drift.rows@) && !includes_cash {
                let k = choose|k: int| 0 <= k < drift.rows@.len() && (#[trigger] drift.rows@[k]).is_cash;
            }
        }
        let projected_total = match Self::checked_projected_total(drift.total_value, external_contribution, increase_total, reduction_total, includes_cash) {
            Some(x) => x,
            None => return None,
        };
        // The order of the categories.
        let ordered = display_ids(categories, &current.entries, &seen, weights);
        let ghost order = choose|order: Seq<int>| #[trigger] display_order(categories@, order) && ids_in_display_order(ordered@, categories@, order);
        // The rows.
        proof {
            assert forall|x: Seq<char>| #[trigger] row_needed(x, drift.rows@, lines@, weights@, external_contribution, increase_total, reduction_total) implies has_text(ordered@, x) by {
                if weight_target(weights@, x) is Some {
                    lemma_weight_target_member(weights@, x);
                    let k = choose|k: int| 0 <= k < weights@.len() && (#[trigger] weights@[k]).category_id@ == x;
                    assert(has_text(ordered@, weights@[k].category_id@));
                } else if has_text(seen@, x) {
                    let k = choose|k: int| 0 <= k < seen@.len() && (#[trigger] seen@[k])@ == x;
                    assert(has_text(ordered@, seen@[k]@));
                } else {
                    assert(exposed.value(x) == current.value(x));
                    assert(moved_by_lines(current.value(x), lines@, x) == Some(exposed.value(x)));
                    assert(entry_value(current.entries@, x) == drift_value(drift.rows@, x));
                    assert(current.value(x) == value_or_zero(drift_value(drift.rows@, x)));
                    crate::decimal::lemma_units_sign(Dec::zero_spec());
                    if cash_category(drift.rows@) == Some(x) {
                        lemma_cash_category_member(drift.rows@, x);
                    } else {
                        assert(projected_value_of(drift.rows@, lines@, x, external_contribution, increase_total, reduction_total) == Some(current.value(x)));
                    }
                    assert(drift_value(drift.rows@, x) is Some);
                    assert(entry_value(current.entries@, x) is Some);
                    lemma_entry_value_is_some(current.entries@, x);
                    let k = choose|k: int| 0 <= k < current.entries@.len() && (#[trigger] current.entries@[k]).0@ == x;
                    assert(has_text(ordered@, current.entries@[k].0@));
                }
            }
        }
        let mut rows: Vec<WorksheetCategoryResult> = Vec::new();
        let mut oi: usize = 0;
        let ghost c0 = current.entries@;
        let ghost p0 = projected.entries@;
        let ghost mut rpos: Seq<int> = Seq::empty();
        while oi < ordered.len()
            invariant
                oi <= ordered@.len(),
                rpos.len() == rows@.len(),
                display_order(categories@, order),
                ids_in_display_order(ordered@, categories@, order),
                forall|j: int| 0 <= j < rows@.len() ==> 0 <= #[trigger] rpos[j] < oi && ordered@[rpos[j]]@ == rows@[j].category_id@,
                forall|j1: int, j2: int| 0 <= j1 < j2 < rows@.len() ==> #[trigger] rpos[j1] < #[trigger] rpos[j2],
                forall|j: int| 0 <= j < rows@.len() && !row_repeats(rows@, j) ==> !taken_ids(ordered@, #[trigger] rpos[j], rows@[j].category_id@),
                current.wf(),
                projected.wf(),
                forall|x: Seq<char>| #[trigger] entry_value(c0, x) == drift_value(drift.rows@, x),
                forall|x: Seq<char>| #[trigger] projected_value_of(drift.rows@, lines@, x, external_contribution, increase_total, reduction_total) == Some(value_or_zero(entry_value(p0, x))),
                forall|x: Seq<char>| #[trigger] entry_value(current.entries@, x) == if taken_ids(ordered@, oi as int, x) { None } else { entry_value(c0, x) },
                forall|x: Seq<char>| #[trigger] entry_value(projected.entries@, x) == if taken_ids(ordered@, oi as int, x) { None } else { entry_value(p0, x) },
                forall|j: int| 0 <= j < rows@.len() ==> row_values_ok(rows@, j, drift.rows@, lines@, weights@, external_contribution, increase_total, reduction_total),
                forall|j: int| 0 <= j < rows@.len() ==> row_labels_ok(#[trigger] rows@[j], drift.rows@, categories@),
                forall|x: Seq<char>| #[trigger] taken_ids(ordered@, oi as int, x) && row_needed(x, drift.rows@, lines@, weights@, external_contribution, increase_total, reduction_total)
                    ==> exists|j: int| 0 <= j < rows@.len() && (#[trigger] rows@[j]).category_id@ == x,
                forall|j: int| 0 <= j < rows@.len() && !row_repeats(rows@, j) ==> row_needed((#[trigger] rows@[j]).category_id@, drift.rows@, lines@, weights@, external_contribution, increase_total, reduction_total),
                forall|j: int| 0 <= j < rows@.len() ==> taken_ids(ordered@, oi as int, (#[trigger] rows@[j]).category_id@),
                forall|x: Seq<char>| #[trigger] taken_ids(ordered@, oi as int, x) && !(exists|j: int| 0 <= j < rows@.len() && (#[trigger] rows@[j]).category_id@ == x) ==> weight_target(weights@, x) is None,
                drift.total_value.wf(),
                projected_total.wf(),
                projected_total_spec(drift.total_value, external_contribution, increase_total, reduction_total, has_cash_row(drift.rows@)) == Some(projected_total),
                forall|j: int| 0 <= j < rows@.len() ==> category_row_ok(#[trigger] rows@[j], drift.total_value, projected_total),
                forall|j: int| 0 <= j < rows@.len() && (#[trigger] rows@[j]).category_id@ == UNKNOWN_CATEGORY_ID@ ==> j == rows@.len() - 1 && oi == ordered@.len(),
                forall|j: int| 0 <= j < ordered@.len() - 1 ==> (#[trigger] ordered@[j])@ != UNKNOWN_CATEGORY_ID@,
            decreases ordered@.len() - oi,
        {
            let id = ordered[oi].as_str();
            let ghost rows_before = rows@;
            proof {
                assert forall|x: Seq<char>| #[trigger] taken_ids(ordered@, oi + 1, x) == (taken_ids(ordered@, oi as int, x) || ordered@[oi as int]@ == x) by {
                    lemma_taken_step(ordered@, oi as int, x);
                }
            }
            let current_value = current.take(id);
            let projected_value = projected.take(id);
            proof {
                crate::decimal::lemma_units_sign(Dec::zero_spec());
                if taken_ids(ordered@, oi as int, id@) {
                    assert(current_value == Dec::zero_spec());
                    assert(projected_value == Dec::zero_spec());
                } else {
                    assert(current_value == value_or_zero(drift_value(drift.rows@, id@)));
                    assert(projected_value_of(drift.rows@, lines@, id@, external_contribution, increase_total, reduction_total) == Some(projected_value));
                }
            }
            let target = target_bps_for(weights, id);
            let target_bps = match target {
                Some(t) => t,
                None => 0,
            };
            let ghost overflow = row_overflows(current_value, projected_value, drift.total_value, projected_total, target_bps);
            proof {
                assert(target_bps == target_or_zero(weights@, id@));
                if overflow {
                    assert(row_overflows(current_value, projected_value, drift.total_value,
                        projected_total_spec(drift.total_value, external_contribution, increase_total, reduction_total, has_cash_row(drift.rows@)).unwrap(),
                        target_or_zero(weights@, id@)));
                    assert(projection_overflows(drift.rows@, lines@, drift.total_value, weights@, external_contribution, increase_total, reduction_total));
                }
            }
            let zero = Dec::zero();
            if !(dec_eq(current_value, zero) && dec_eq(projected_value, zero) && target.is_none()) {
                let current_bps = match Self::checked_bps(current_value, drift.total_value) {
                    Some(x) => x,
                    None => return None,
                };
                let projected_bps = match Self::checked_bps(projected_value, projected_total) {
                    Some(x) => x,
                    None => return None,
                };
                let current_difference = match current_bps.checked_sub(target_bps) {
                    Some(x) => x,
                    None => return None,
                };
                let projected_difference = match projected_bps.checked_sub(target_bps) {
                    Some(x) => x,
                    None => return None,
                };
                let unclassified = str_eq(id, UNKNOWN_CATEGORY_ID);
                let drift_row = drift_row_for(drift.rows.as_slice(), id);
                let name = if unclassified {
                    String::from_str(UNKNOWN_CATEGORY_NAME)
                } else {
                    match taxonomy_name_for(categories, id) {
                        Some(n) => n,
                        None => match drift_row {
                            Some(d) => drift.rows[d].category_name.clone(),
                            None => String::from_str(id),
                        },
                    }
                };
                let color = match drift_row {
                    Some(d) => drift.rows[d].color.clone(),
                    None => String::from_str("#94a3b8"),
                };
                let is_cash = match drift_row {
                    Some(d) => drift.rows[d].is_cash,
                    None => false,
                };
                let ghost rows0 = rows@;
                rows.push(WorksheetCategoryResult {
                    category_id: String::from_str(id),
                    category_name: name,
                    color,
                    target_bps,
                    current_value,
                    projected_value,
                    current_bps,
                    projected_bps,
                    current_difference_bps: current_difference,
                    projected_difference_bps: projected_difference,
                    is_cash,
                    is_unclassified: unclassified,
                });
                proof {
                    assert forall|j: int| 0 <= j < rows@.len() implies category_row_ok(#[trigger] rows@[j], drift.total_value, projected_total) by {
                        if j < rows0.len() {
                            assert(rows@[j] == rows0[j]);
                        }
                    }
                    assert forall|j: int| 0 <= j < rows@.len() && (#[trigger] rows@[j]).category_id@ == UNKNOWN_CATEGORY_ID@ implies j == rows@.len() - 1 && oi + 1 == ordered@.len() by {
                        if j < rows0.len() {
                            assert(rows@[j] == rows0[j]);
                        } else {
                            assert(ordered@[oi as int]@ == UNKNOWN_CATEGORY_ID@);
                        }
                    }
                    let n = rows0.len() as int;
                    assert(rows@[n].category_id@ == id@);
                    assert forall|j: int| 0 <= j < n implies rows@[j] == rows0[j] by {}
                    let rpos0 = rpos;
                    rpos = rpos.push(oi as int);
                    assert forall|j: int| 0 <= j < rows@.len() implies 0 <= #[trigger] rpos[j] < oi + 1 && ordered@[rpos[j]]@ == rows@[j].category_id@ by {
                        if j < n {
                            assert(rpos[j] == rpos0[j]);
                        }
                    }
                    assert forall|j1: int, j2: int| 0 <= j1 < j2 < rows@.len() implies #[trigger] rpos[j1] < #[trigger] rpos[j2] by {
                        assert(rpos[j1] == rpos0[j1]);
                        if j2 < n {
                            assert(rpos[j2] == rpos0[j2]);
                        }
                    }
                    assert forall|j: int| 0 <= j < n && !row_repeats(rows@, j) implies !taken_ids(ordered@, #[trigger] rpos[j], rows@[j].category_id@) by {
                        assert(rpos[j] == rpos0[j]);
                        if row_repeats(rows0, j) {
                            let k = choose|k: int| 0 <= k < j && (#[trigger] rows0[k]).category_id@ == rows0[j].category_id@;
                            assert(rows@[k] == rows0[k]);
                        }
                    }
                    if row_repeats(rows@, n) {
                        let k = choose|k: int| 0 <= k < n && (#[trigger] rows@[k]).category_id@ == rows@[n].category_id@;
                        assert(rows0[k].category_id@ == id@);
                        assert(taken_ids(ordered@, oi as int, id@));
                    } else {
                        if taken_ids(ordered@, oi as int, id@) {
                            assert(!(exists|j: int| 0 <= j < rows0.len() && (#[trigger] rows0[j]).category_id@ == id@)) by {
                                if exists|j: int| 0 <= j < rows0.len() && (#[trigger] rows0[j]).category_id@ == id@ {
                                    let j = choose|j: int| 0 <= j < rows0.len() && (#[trigger] rows0[j]).category_id@ == id@;
                                    assert(rows@[j] == rows0[j]);
                                    assert(row_repeats(rows@, n));
                                }
                            }
                            assert(weight_target(weights@, id@) is None);
                            assert(false);
                        }
                    }
                    assert(row_values_ok(rows@, n, drift.rows@, lines@, weights@, external_contribution, increase_total, reduction_total));
                    assert(row_labels_ok(rows@[n], drift.rows@, categories@));
                    assert forall|j: int| 0 <= j < rows@.len() implies row_labels_ok(#[trigger] rows@[j], drift.rows@, categories@) by {
                        if j < n {
                            assert(rows@[j] == rows0[j]);
                        }
                    }
                    assert forall|x: Seq<char>| #[trigger] taken_ids(ordered@, oi + 1, x) && row_needed(x, drift.rows@, lines@, weights@, external_contribution, increase_total, reduction_total)
                        implies exists|j: int| 0 <= j < rows@.len() && (#[trigger] rows@[j]).category_id@ == x by {
                        if x == id@ {
                            assert(rows@[n].category_id@ == x);
                        } else {
                            assert(taken_ids(ordered@, oi as int, x));
                            let j = choose|j: int| 0 <= j < rows0.len() && (#[trigger] rows0[j]).category_id@ == x;
                            assert(rows@[j] == rows0[j]);
                        }
                    }
                    assert forall|j: int| 0 <= j < rows@.len() && !row_repeats(rows@, j) implies row_needed((#[trigger] rows@[j]).category_id@, drift.rows@, lines@, weights@, external_contribution, increase_total, reduction_total) by {
                        if j < n {
                            assert(rows@[j] == rows0[j]);
                            assert(row_repeats(rows@, j) == row_repeats(rows0, j)) by {
                                if row_repeats(rows0, j) {
                                    let k = choose|k: int| 0 <= k < j && (#[trigger] rows0[k]).category_id@ == rows0[j].category_id@;
                                    assert(rows@[k] == rows0[k]);
                                }
                                if row_repeats(rows@, j) {
                                    let k = choose|k: int| 0 <= k < j && (#[trigger] rows@[k]).category_id@ == rows@[j].category_id@;
                                    assert(rows@[k] == rows0[k]);
                                }
                            }
                        } else {
                            assert(!taken_ids(ordered@, oi as int, id@));
                        }
                    }
                    assert forall|j: int| 0 <= j < rows@.len() implies row_values_ok(rows@, j, drift.rows@, lines@, weights@, external_contribution, increase_total, reduction_total) by {
                        if j < n {
                            assert(row_values_ok(rows0, j, drift.rows@, lines@, weights@, external_contribution, increase_total, reduction_total));
                            assert(row_repeats(rows@, j) == row_repeats(rows0, j)) by {
                                if row_repeats(rows0, j) {
                                    let k = choose|k: int| 0 <= k < j && (#[trigger] rows0[k]).category_id@ == rows0[j].category_id@;
                                    assert(rows@[k] == rows0[k]);
                                }
                                if row_repeats(rows@, j) {
                                    let k = choose|k: int| 0 <= k < j && (#[trigger] rows@[k]).category_id@ == rows@[j].category_id@;
                                    assert(rows@[k] == rows0[k]);
                                }
                            }
                        }
                    }
                    assert forall|j: int| 0 <= j < rows@.len() implies taken_ids(ordered@, oi + 1, (#[trigger] rows@[j]).category_id@) by {
                        if j < n {
                            assert(taken_ids(ordered@, oi as int, rows0[j].category_id@));
                        }
                    }
                    assert forall|x: Seq<char>| #[trigger] taken_ids(ordered@, oi + 1, x) && !(exists|j: int| 0 <= j < rows@.len() && (#[trigger] rows@[j]).category_id@ == x) implies weight_target(weights@, x) is None by {
                        if x != id@ {
                            assert(taken_ids(ordered@, oi as int, x));
                            if exists|j: int| 0 <= j < rows0.len() && (#[trigger] rows0[j]).category_id@ == x {
                                let j = choose|j: int| 0 <= j < rows0.len() && (#[trigger] rows0[j]).category_id@ == x;
                                assert(rows@[j] == rows0[j]);
                            }
                        } else {
                            assert(rows@[n].category_id@ == x);
                        }
                    }
                }
            } else {
                proof {
                    assert forall|x: Seq<char>| #[trigger] taken_ids(ordered@, oi + 1, x) && !(exists|j: int| 0 <= j < rows@.len() && (#[trigger] rows@[j]).category_id@ == x) implies weight_target(weights@, x) is None by {
                        if x != id@ {
                            assert(taken_ids(ordered@, oi as int, x));
                        }
                    }
                    assert forall|x: Seq<char>| #[trigger] taken_ids(ordered@, oi + 1, x) && row_needed(x, drift.rows@, lines@, weights@, external_contribution, increase_total, reduction_total)
                        implies exists|j: int| 0 <= j < rows@.len() && (#[trigger] rows@[j]).category_id@ == x by {
                        if x != id@ || taken_ids(ordered@, oi as int, x) {
                            assert(taken_ids(ordered@, oi as int, x));
                        }
                    }
                    assert forall|j: int| 0 <= j < rows@.len() implies taken_ids(ordered@, oi + 1, (#[trigger] rows@[j]).category_id@) by {
                        assert(taken_ids(ordered@, oi as int, rows@[j].category_id@));
                    }
                }
            }
            oi = oi + 1;
        }
        proof {
            assert forall|x: Seq<char>| #[trigger] row_needed(x, drift.rows@, lines@, weights@, external_contribution, increase_total, reduction_total)
                implies has_category_row(rows@, x) by {
                assert(has_text(ordered@, x));
                assert(taken_ids(ordered@, ordered@.len() as int, x));
            }
            lemma_rows_display_order(categories@, order, ordered@, rows@, rpos);
        }
        let before = max_abs_difference(&rows, weights, false);
        let after = max_abs_difference(&rows, weights, true);
        Some(Ok(CategoryProjection { categories: rows, projected_total, max_difference_bps_before: before, max_difference_bps_after: after }))
    }
}

// ---------------------------------------------------------------------------
// Warnings: sorted by id, one per id.
// ---------------------------------------------------------------------------

pub open spec fn warnings_sorted(v: Seq<WorksheetWarning>) -> bool {
    forall|i: int, j: int| 0 <= i < j < v.len() ==> seq_lt(#[trigger] v[i].id@, #[trigger] v[j].id@)
}

pub open spec fn warning_id_set(v: Seq<WorksheetWarning>) -> Set<Seq<char>> {
    Set::new(|t: Seq<char>| exists|i: int| 0 <= i < v.len() && v[i].id@ == t)
}

/// `w` is the first warning of `input` with its id.
pub open spec fn first_with_id(input: Seq<WorksheetWarning>, w: WorksheetWarning) -> bool {
    exists|j: int| 0 <= j < input.len() && input[j] == w && forall|k: int| 0 <= k < j ==> (#[trigger] input[k]).id@ != w.id@
}

fn insert_warning(out: &mut Vec<WorksheetWarning>, w: WorksheetWarning) -> (r: bool)
    requires
        warnings_sorted(old(out)@),
    ensures
        warnings_sorted(final(out)@),
        warning_id_set(final(out)@) == warning_id_set(old(out)@).insert(w.id@),
        r == !warning_id_set(old(out)@).contains(w.id@),
        r ==> exists|p: int| 0 <= p <= old(out)@.len() && final(out)@ == old(out)@.insert(p, w),
        !r ==> final(out)@ == old(out)@,
{
    let ghost v0 = out@;
    let mut p: usize = 0;
    while p < out.len() && str_lt(out[p].id.as_str(), w.id.as_str())
        invariant
            p <= out@.len(),
            out@ == v0,
            forall|j: int| 0 <= j < p ==> seq_lt((#[trigger] out@[j]).id@, w.id@),
        decreases out@.len() - p,
    {
        p = p + 1;
    }
    if p < out.len() && str_eq(out[p].id.as_str(), w.id.as_str()) {
        proof {
            assert(warning_id_set(v0).insert(w.id@) =~= warning_id_set(v0)) by {
                assert(v0[p as int].id@ == w.id@);
            }
        }
        return false;
    }
    proof {
        if p < v0.len() {
            lemma_seq_lt_total(v0[p as int].id@, w.id@);
        }
        if warning_id_set(v0).contains(w.id@) {
            let i = choose|i: int| 0 <= i < v0.len() && v0[i].id@ == w.id@;
            if i < p {
                lemma_seq_lt_irreflexive(w.id@);
            } else if i > p {
                assert(seq_lt(v0[p as int].id@, v0[i].id@));
                lemma_seq_lt_asymmetric(w.id@, v0[p as int].id@);
                lemma_seq_lt_transitive(w.id@, v0[p as int].id@, v0[i].id@);
                lemma_seq_lt_irreflexive(w.id@);
            }
        }
    }
    let ghost wv = w;
    out.insert(p, w);
    proof {
        let nw = out@;
        assert(nw == v0.insert(p as int, wv));
        assert forall|i: int, j: int| 0 <= i < j < nw.len() implies seq_lt(#[trigger] nw[i].id@, #[trigger] nw[j].id@) by {
            if j < p {
                assert(nw[i] == v0[i] && nw[j] == v0[j]);
            } else if j == p {
                assert(nw[i] == v0[i]);
            } else if i == p {
                assert(nw[j] == v0[j - 1]);
                if j - 1 > p {
                    assert(seq_lt(v0[p as int].id@, v0[j - 1].id@));
                    lemma_seq_lt_transitive(wv.id@, v0[p as int].id@, v0[j - 1].id@);
                }
            } else if i < p {
                assert(nw[i] == v0[i] && nw[j] == v0[j - 1]);
                if p < v0.len() {
                    lemma_seq_lt_transitive(v0[i].id@, wv.id@, v0[p as int].id@);
                    if j - 1 > p {
                        assert(seq_lt(v0[p as int].id@, v0[j - 1].id@));
                        lemma_seq_lt_transitive(v0[i].id@, v0[p as int].id@, v0[j - 1].id@);
                    }
                }
            } else {
                assert(nw[i] == v0[i - 1] && nw[j] == v0[j - 1]);
            }
        }
        assert forall|x: Seq<char>| warning_id_set(nw).contains(x) <==> warning_id_set(v0).insert(wv.id@).contains(x) by {
            if warning_id_set(nw).contains(x) {
                let i = choose|i: int| 0 <= i < nw.len() && nw[i].id@ == x;
                if i < p {
                    assert(nw[i] == v0[i]);
                } else if i > p {
                    assert(nw[i] == v0[i - 1]);
                }
            }
            if warning_id_set(v0).contains(x) {
                let i = choose|i: int| 0 <= i < v0.len() && v0[i].id@ == x;
                if i < p {
                    assert(nw[i] == v0[i]);
                } else {
                    assert(nw[i + 1] == v0[i]);
                }
            }
            if x == wv.id@ {
                assert(nw[p as int].id@ == wv.id@);
            }
        }
        assert(warning_id_set(nw) =~= warning_id_set(v0).insert(wv.id@));
    }
    true
}

impl AllocationWorksheetService {
    /// The warnings sorted by id with one warning per id: the first one
    /// raised with it.
    pub fn sort_warnings(warnings: Vec<WorksheetWarning>) -> (r: Vec<WorksheetWarning>)
        ensures
            warnings_sorted(r@),
            warning_id_set(r@) == warning_id_set(warnings@),
            forall|i: int| 0 <= i < r@.len() ==> first_with_id(warnings@, #[trigger] r@[i]),
    {
        let ghost input = warnings@;
        let mut rest = warnings;
        let mut out: Vec<WorksheetWarning> = Vec::new();
        let mut taken: usize = 0;
        let n = rest.len();
        assert(input.take(0) =~= Seq::<WorksheetWarning>::empty());
        assert(warning_id_set(out@) =~= warning_id_set(input.take(0)));
        while taken < n
            invariant
                n == input.len(),
                taken <= n,
                rest@ == input.skip(taken as int),
                warnings_sorted(out@),
                warning_id_set(out@) == warning_id_set(input.take(taken as int)),
                forall|i: int| 0 <= i < out@.len() ==> first_with_id(input, #[trigger] out@[i]),
            decreases n - taken,
        {
            let w = rest.remove(0);
            let ghost out0 = out@;
            proof {
                assert(w == input[taken as int]);
                assert(input.skip(taken as int).drop_first() =~= input.skip(taken + 1));
            }
            let inserted = insert_warning(&mut out, w);
            proof {
                let prefix = input.take(taken + 1);
                assert(prefix =~= input.take(taken as int).push(input[taken as int]));
                assert forall|x: Seq<char>| warning_id_set(prefix).contains(x) <==> warning_id_set(input.take(taken as int)).insert(input[taken as int].id@).contains(x) by {
                    if warning_id_set(prefix).contains(x) {
                        let i = choose|i: int| 0 <= i < prefix.len() && prefix[i].id@ == x;
                        if i < taken {
                            assert(input.take(taken as int)[i] == prefix[i]);
                        }
                    }
                    if warning_id_set(input.take(taken as int)).contains(x) {
                        let i = choose|i: int| 0 <= i < taken && input.take(taken as int)[i].id@ == x;
                        assert(prefix[i] == input.take(taken as int)[i]);
                    }
                    if x == input[taken as int].id@ {
                        assert(prefix[taken as int] == input[taken as int]);
                    }
                }
                assert(warning_id_set(prefix) =~= warning_id_set(input.take(taken as int)).insert(input[taken as int].id@));
                if inserted {
                    let p = choose|p: int| 0 <= p <= out0.len() && out@ == out0.insert(p, w);
                    assert(first_with_id(input, w)) by {
                        assert forall|k: int| 0 <= k < taken implies (#[trigger] input[k]).id@ != w.id@ by {
                            assert(input.take(taken as int)[k] == input[k]);
                            if input[k].id@ == w.id@ {
                                assert(warning_id_set(input.take(taken as int)).contains(w.id@));
                            }
                        }
                    }
                    assert forall|i: int| 0 <= i < out@.len() implies first_with_id(input, #[trigger] out@[i]) by {
                        if i < p {
                            assert(out@[i] == out0[i]);
                        } else if i > p {
                            assert(out@[i] == out0[i - 1]);
                        }
                    }
                }
            }
            taken = taken + 1;
        }
        assert(input.take(n as int) =~= input);
        out
    }
}

// ---------------------------------------------------------------------------
// Source records: sorted, each once.
// ---------------------------------------------------------------------------

pub open spec fn record_view(r: WorksheetSourceRecord) -> (Seq<char>, Seq<char>, Seq<char>, Seq<char>) {
    (r.source_type@, r.id@, r.version@, r.details@)
}

/// Records ordered by type, then id, then version, then details.
pub open spec fn record_lt(a: WorksheetSourceRecord, b: WorksheetSourceRecord) -> bool {
    seq_lt(a.source_type@, b.source_type@) || (a.source_type@ == b.source_type@ && (
        seq_lt(a.id@, b.id@) || (a.id@ == b.id@ && (
            seq_lt(a.version@, b.version@) || (a.version@ == b.version@ && seq_lt(a.details@, b.details@))))))
}

pub open spec fn records_sorted(v: Seq<WorksheetSourceRecord>) -> bool {
    forall|i: int, j: int| 0 <= i < j < v.len() ==> record_lt(#[trigger] v[i], #[trigger] v[j])
}

pub open spec fn record_set(v: Seq<WorksheetSourceRecord>) -> Set<(Seq<char>, Seq<char>, Seq<char>, Seq<char>)> {
    Set::new(|t: (Seq<char>, Seq<char>, Seq<char>, Seq<char>)| exists|i: int| 0 <= i < v.len() && record_view(v[i]) == t)
}

proof fn lemma_record_lt_transitive(a: WorksheetSourceRecord, b: WorksheetSourceRecord, c: WorksheetSourceRecord)
    requires
        record_lt(a, b),
        record_lt(b, c),
    ensures
        record_lt(a, c),
{
    if seq_lt(a.source_type@, b.source_type@) && seq_lt(b.source_type@, c.source_type@) {
        lemma_seq_lt_transitive(a.source_type@, b.source_type@, c.source_type@);
    } else if a.source_type@ == b.source_type@ && b.source_type@ == c.source_type@ {
        if seq_lt(a.id@, b.id@) && seq_lt(b.id@, c.id@) {
            lemma_seq_lt_transitive(a.id@, b.id@, c.id@);
        } else if a.id@ == b.id@ && b.id@ == c.id@ {
            if seq_lt(a.version@, b.version@) && seq_lt(b.version@, c.version@) {
                lemma_seq_lt_transitive(a.version@, b.version@, c.version@);
            } else if a.version@ == b.version@ && b.version@ == c.version@ {
                lemma_seq_lt_transitive(a.details@, b.details@, c.details@);
            }
        }
    }
}

proof fn lemma_record_lt_total(a: WorksheetSourceRecord, b: WorksheetSourceRecord)
    ensures
        record_lt(a, b) || record_view(a) == record_view(b) || record_lt(b, a),
{
    lemma_seq_lt_total(a.source_type@, b.source_type@);
    lemma_seq_lt_total(a.id@, b.id@);
    lemma_seq_lt_total(a.version@, b.version@);
    lemma_seq_lt_total(a.details@, b.details@);
}

fn record_less(a: &WorksheetSourceRecord, b: &WorksheetSourceRecord) -> (r: bool)
    ensures
        r == record_lt(*a, *b),
{
    if str_lt(a.source_type.as_str(), b.source_type.as_str()) {
        return true;
    }
    if !str_eq(a.source_type.as_str(), b.source_type.as_str()) {
        return false;
    }
    if str_lt(a.id.as_str(), b.id.as_str()) {
        return true;
    }
    if !str_eq(a.id.as_str(), b.id.as_str()) {
        return false;
    }
    if str_lt(a.version.as_str(), b.version.as_str()) {
        return true;
    }
    if !str_eq(a.version.as_str(), b.version.as_str()) {
        return false;
    }
    str_lt(a.details.as_str(), b.details.as_str())
}

fn record_same(a: &WorksheetSourceRecord, b: &WorksheetSourceRecord) -> (r: bool)
    ensures
        r == (record_view(*a) == record_view(*b)),
{
    str_eq(a.source_type.as_str(), b.source_type.as_str()) && str_eq(a.id.as_str(), b.id.as_str())
        && str_eq(a.version.as_str(), b.version.as_str()) && str_eq(a.details.as_str(), b.details.as_str())
}

fn insert_record(out: &mut Vec<WorksheetSourceRecord>, rec: WorksheetSourceRecord)
    requires
        records_sorted(old(out)@),
    ensures
        records_sorted(final(out)@),
        record_set(final(out)@) == record_set(old(out)@).insert(record_view(rec)),
{
    let ghost v0 = out@;
    let mut p: usize = 0;
    while p < out.len() && record_less(&out[p], &rec)
        invariant
            p <= out@.len(),
            out@ == v0,
            forall|j: int| 0 <= j < p ==> record_lt(#[trigger] out@[j], rec),
        decreases out@.len() - p,
    {
        p = p + 1;
    }
    if p < out.len() && record_same(&out[p], &rec) {
        proof {
            assert(record_set(v0).insert(record_view(rec)) =~= record_set(v0)) by {
                assert(record_view(v0[p as int]) == record_view(rec));
            }
        }
        return;
    }
    proof {
        if p < v0.len() {
            lemma_record_lt_total(v0[p as int], rec);
        }
    }
    let ghost rv = rec;
    out.insert(p, rec);
    proof {
        let nw = out@;
        assert(nw == v0.insert(p as int, rv));
        assert forall|i: int, j: int| 0 <= i < j < nw.len() implies record_lt(#[trigger] nw[i], #[trigger] nw[j]) by {
            if j < p {
                assert(nw[i] == v0[i] && nw[j] == v0[j]);
            } else if j == p {
                assert(nw[i] == v0[i]);
            } else if i == p {
                assert(nw[j] == v0[j - 1]);
                if j - 1 > p {
                    assert(record_lt(v0[p as int], v0[j - 1]));
                    lemma_record_lt_transitive(rv, v0[p as int], v0[j - 1]);
                }
            } else if i < p {
                assert(nw[i] == v0[i] && nw[j] == v0[j - 1]);
                if p < v0.len() {
                    lemma_record_lt_transitive(v0[i], rv, v0[p as int]);
                    if j - 1 > p {
                        assert(record_lt(v0[p as int], v0[j - 1]));
                        lemma_record_lt_transitive(v0[i], v0[p as int], v0[j - 1]);
                    }
                }
            } else {
                assert(nw[i] == v0[i - 1] && nw[j] == v0[j - 1]);
            }
        }
        assert forall|x: (Seq<char>, Seq<char>, Seq<char>, Seq<char>)| record_set(nw).contains(x) <==> record_set(v0).insert(record_view(rv)).contains(x) by {
            if record_set(nw).contains(x) {
                let i = choose|i: int| 0 <= i < nw.len() && record_view(nw[i]) == x;
                if i < p {
                    assert(nw[i] == v0[i]);
                } else if i > p {
                    assert(nw[i] == v0[i - 1]);
                }
            }
            if record_set(v0).contains(x) {
                let i = choose|i: int| 0 <= i < v0.len() && record_view(v0[i]) == x;
                if i < p {
                    assert(nw[i] == v0[i]);
                } else {
                    assert(nw[i + 1] == v0[i]);
                }
            }
            if x == record_view(rv) {
                assert(nw[p as int] == rv);
            }
        }
        assert(record_set(nw) =~= record_set(v0).insert(record_view(rv)));
    }
}

impl AllocationWorksheetService {
    /// The source records sorted by type, id, version and details, each
    /// distinct record once.
    pub fn sort_source_records(records: Vec<WorksheetSourceRecord>) -> (r: Vec<WorksheetSourceRecord>)
        ensures
            records_sorted(r@),
            record_set(r@) == record_set(records@),
    {
        let ghost input = records@;
        let mut rest = records;
        let mut out: Vec<WorksheetSourceRecord> = Vec::new();
        let mut taken: usize = 0;
        let n = rest.len();
        assert(record_set(out@) =~= record_set(input.take(0)));
        while taken < n
            invariant
                n == input.len(),
                taken <= n,
                rest@ == input.skip(taken as int),
                records_sorted(out@),
                record_set(out@) == record_set(input.take(taken as int)),
            decreases n - taken,
        {
            let rec = rest.remove(0);
            proof {
                assert(rec == input[taken as int]);
                assert(input.skip(taken as int).drop_first() =~= input.skip(taken + 1));
            }
            insert_record(&mut out, rec);
            proof {
                let prefix = input.take(taken + 1);
                assert forall|x: (Seq<char>, Seq<char>, Seq<char>, Seq<char>)| record_set(prefix).contains(x) <==> record_set(input.take(taken as int)).insert(record_view(input[taken as int])).contains(x) by {
                    if record_set(prefix).contains(x) {
                        let i = choose|i: int| 0 <= i < prefix.len() && record_view(prefix[i]) == x;
                        if i < taken {
                            assert(input.take(taken as int)[i] == prefix[i]);
                        }
                    }
                    if record_set(input.take(taken as int)).contains(x) {
                        let i = choose|i: int| 0 <= i < taken && record_view(input.take(taken as int)[i]) == x;
                        assert(prefix[i] == input.take(taken as int)[i]);
                    }
                    if x == record_view(input[taken as int]) {
                        assert(prefix[taken as int] == input[taken as int]);
                    }
                }
                assert(record_set(prefix) =~= record_set(input.take(taken as int)).insert(record_view(input[taken as int])));
            }
            taken = taken + 1;
        }
        assert(input.take(n as int) =~= input);
        out
    }
}

// ---------------------------------------------------------------------------
// The source records of a calculation.
// ---------------------------------------------------------------------------

pub open spec fn bool_text(b: bool) -> Seq<char> {
    if b { "true"@ } else { "false"@ }
}

fn bool_str(b: bool) -> (r: &'static str)
    ensures
        r@ == bool_text(b),
{
    if b { "true" } else { "false" }
}

/// The debug text of an optional integer: `Some(n)` or `None`.
pub open spec fn opt_int_debug(v: Option<i32>) -> Seq<char> {
    match v {
        Some(n) => "Some("@ + int_text(n as int) + ")"@,
        None => "None"@,
    }
}

fn opt_i32_debug(v: Option<i32>) -> (r: String)
    ensures
        r@ == opt_int_debug(v),
{
    match v {
        Some(n) => {
            let mut s = String::from_str("Some(");
            s.append(i64_string(n as i64).as_str());
            s.append(")");
            s
        },
        None => String::from_str("None"),
    }
}

/// The debug text of an optional amount: `Some(amount)` or `None`.
pub open spec fn opt_dec_debug(v: Option<Dec>) -> Seq<char> {
    match v {
        Some(d) => "Some("@ + decimal_text(d@) + ")"@,
        None => "None"@,
    }
}

fn opt_dec_debug_string(v: Option<Dec>) -> (r: String)
    requires
        v matches Some(d) ==> d.wf(),
    ensures
        r@ == opt_dec_debug(v),
{
    match v {
        Some(d) => {
            let mut s = String::from_str("Some(");
            s.append(dec_to_string(d).as_str());
            s.append(")");
            s
        },
        None => String::from_str("None"),
    }
}

/// What `format!("{:?}", value)` writes for an optional text (a name for
/// the result).
pub uninterp spec fn opt_text_debug(v: Option<Seq<char>>) -> Seq<char>;

pub open spec fn opt_view(v: Option<String>) -> Option<Seq<char>> {
    match v {
        Some(s) => Some(s@),
        None => None,
    }
}

/// `Debug` for `Option<String>`: `None`, or `Some` with the text quoted and
/// escaped; the text is only named.
#[verifier::external_body]
fn opt_text_debug_string(v: &Option<String>) -> (r: String)
    ensures
        r@ == opt_text_debug(opt_view(*v)),
{
    format!("{:?}", v)
}

pub open spec fn band_debug(b: BandType) -> Seq<char> {
    match b {
        BandType::Absolute => "Absolute"@,
        BandType::Hybrid => "Hybrid"@,
    }
}

pub open spec fn record_is(r: WorksheetSourceRecord, source_type: Seq<char>, id: Seq<char>, version: Seq<char>, details: Seq<char>) -> bool {
    &&& r.source_type@ == source_type
    &&& r.id@ == id
    &&& r.version@ == version
    &&& r.details@ == details
}

pub open spec fn target_details(t: AllocationTarget) -> Seq<char> {
    "taxonomy="@ + t.taxonomy_id@ + ";band="@ + band_debug(t.band_type) + "/"@ + int_text(t.drift_band_bps as int)
        + ";relative="@ + int_text(t.relative_factor_bps as int) + ";reductions="@ + bool_text(t.allow_sells)
        + ";whole_shares="@ + bool_text(t.whole_shares_only) + ";minimum="@ + t.min_trade_amount@
        + ";turnover="@ + opt_int_debug(t.max_turnover_bps)
}

fn target_record(t: &AllocationTarget) -> (r: WorksheetSourceRecord)
    ensures
        record_is(r, "allocation_target"@, t.id@, t.updated_at@, target_details(*t)),
{
    let mut d = String::from_str("taxonomy=");
    d.append(t.taxonomy_id.as_str());
    d.append(";band=");
    d.append(match t.band_type {
        BandType::Absolute => "Absolute",
        BandType::Hybrid => "Hybrid",
    });
    d.append("/");
    d.append(i64_string(t.drift_band_bps as i64).as_str());
    d.append(";relative=");
    d.append(i64_string(t.relative_factor_bps as i64).as_str());
    d.append(";reductions=");
    d.append(bool_str(t.allow_sells));
    d.append(";whole_shares=");
    d.append(bool_str(t.whole_shares_only));
    d.append(";minimum=");
    d.append(t.min_trade_amount.as_str());
    d.append(";turnover=");
    d.append(opt_i32_debug(t.max_turnover_bps).as_str());
    WorksheetSourceRecord { source_type: String::from_str("allocation_target"), id: t.id.clone(), version: t.updated_at.clone(), details: d }
}

fn taxonomy_record(t: &Taxonomy) -> (r: WorksheetSourceRecord)
    ensures
        record_is(r, "taxonomy"@, t.id@, t.updated_at@, "name="@ + t.name@ + ";scope="@ + t.scope@),
{
    let mut d = String::from_str("name=");
    d.append(t.name.as_str());
    d.append(";scope=");
    d.append(t.scope.as_str());
    WorksheetSourceRecord { source_type: String::from_str("taxonomy"), id: t.id.clone(), version: t.updated_at.clone(), details: d }
}

pub open spec fn weight_details(w: AllocationTargetWeight) -> Seq<char> {
    "category="@ + w.category_id@ + ";bps="@ + int_text(w.target_bps as int) + ";required="@ + bool_text(w.is_required)
        + ";locked="@ + bool_text(w.is_locked)
}

fn weight_record(w: &AllocationTargetWeight) -> (r: WorksheetSourceRecord)
    ensures
        record_is(r, "target_weight"@, w.id@, w.updated_at@, weight_details(*w)),
{
    let mut d = String::from_str("category=");
    d.append(w.category_id.as_str());
    d.append(";bps=");
    d.append(i64_string(w.target_bps as i64).as_str());
    d.append(";required=");
    d.append(bool_str(w.is_required));
    d.append(";locked=");
    d.append(bool_str(w.is_locked));
    WorksheetSourceRecord { source_type: String::from_str("target_weight"), id: w.id.clone(), version: w.updated_at.clone(), details: d }
}

pub open spec fn category_details(c: TaxonomyCategory) -> Seq<char> {
    "name="@ + c.name@ + ";parent="@ + opt_text_debug(opt_view(c.parent_id)) + ";order="@ + int_text(c.sort_order as int)
        + ";color="@ + c.color@
}

fn category_record(c: &TaxonomyCategory) -> (r: WorksheetSourceRecord)
    ensures
        record_is(r, "taxonomy_category"@, c.id@, c.updated_at@, category_details(*c)),
{
    let mut d = String::from_str("name=");
    d.append(c.name.as_str());
    d.append(";parent=");
    d.append(opt_text_debug_string(&c.parent_id).as_str());
    d.append(";order=");
    d.append(i64_string(c.sort_order as i64).as_str());
    d.append(";color=");
    d.append(c.color.as_str());
    WorksheetSourceRecord { source_type: String::from_str("taxonomy_category"), id: c.id.clone(), version: c.updated_at.clone(), details: d }
}

pub open spec fn asset_details(a: WorksheetAsset) -> Seq<char> {
    "active="@ + bool_text(a.is_active) + ";kind="@ + a.kind@ + ";currency="@ + a.quote_currency@ + ";multiplier="@
        + decimal_text(a.contract_multiplier@)
}

fn asset_record(a: &WorksheetAsset) -> (r: WorksheetSourceRecord)
    requires
        a.contract_multiplier.wf(),
    ensures
        record_is(r, "asset"@, a.id@, a.updated_at@, asset_details(*a)),
{
    let mut d = String::from_str("active=");
    d.append(bool_str(a.is_active));
    d.append(";kind=");
    d.append(a.kind.as_str());
    d.append(";currency=");
    d.append(a.quote_currency.as_str());
    d.append(";multiplier=");
    d.append(dec_to_string(a.contract_multiplier).as_str());
    WorksheetSourceRecord { source_type: String::from_str("asset"), id: a.id.clone(), version: a.updated_at.clone(), details: d }
}

pub open spec fn holding_asset_key(h: Holding) -> Seq<char> {
    match h.instrument_id {
        Some(i) => i@,
        None => h.id@,
    }
}

pub open spec fn holding_details(h: Holding) -> Seq<char> {
    "account="@ + h.account_id@ + ";asset="@ + holding_asset_key(h) + ";quantity="@ + decimal_text(h.quantity@)
        + ";value="@ + decimal_text(h.market_value_base@) + ";price="@ + opt_dec_debug(h.price)
}

pub open spec fn holding_wf(h: Holding) -> bool {
    &&& h.quantity.wf()
    &&& h.market_value_base.wf()
    &&& (h.price matches Some(p) ==> p.wf())
}

fn holding_record(h: &Holding) -> (r: WorksheetSourceRecord)
    requires
        holding_wf(*h),
    ensures
        record_is(r, "holding"@, h.id@, h.as_of_date@, holding_details(*h)),
{
    let mut d = String::from_str("account=");
    d.append(h.account_id.as_str());
    d.append(";asset=");
    d.append(AllocationWorksheetService::asset_key(h).as_str());
    d.append(";quantity=");
    d.append(dec_to_string(h.quantity).as_str());
    d.append(";value=");
    d.append(dec_to_string(h.market_value_base).as_str());
    d.append(";price=");
    d.append(opt_dec_debug_string(h.price).as_str());
    WorksheetSourceRecord { source_type: String::from_str("holding"), id: h.id.clone(), version: h.as_of_date.clone(), details: d }
}

pub open spec fn classification_details(a: AssetTaxonomyAssignment) -> Seq<char> {
    "asset="@ + a.asset_id@ + ";category="@ + a.category_id@ + ";bps="@ + int_text(a.weight as int) + ";source="@ + a.source@
}

fn classification_record(a: &AssetTaxonomyAssignment) -> (r: WorksheetSourceRecord)
    ensures
        record_is(r, "classification"@, a.id@, a.updated_at@, classification_details(*a)),
{
    let mut d = String::from_str("asset=");
    d.append(a.asset_id.as_str());
    d.append(";category=");
    d.append(a.category_id.as_str());
    d.append(";bps=");
    d.append(i64_string(a.weight as i64).as_str());
    d.append(";source=");
    d.append(a.source.as_str());
    WorksheetSourceRecord { source_type: String::from_str("classification"), id: a.id.clone(), version: a.updated_at.clone(), details: d }
}

pub open spec fn constraint_details(c: AllocationTargetConstraint) -> Seq<char> {
    "subject="@ + c.subject_type.as_str_spec() + ":"@ + c.subject_id@ + ";action="@ + c.action.as_str_spec()
        + ";effect="@ + c.effect.as_str_spec()
}

fn constraint_record(c: &AllocationTargetConstraint) -> (r: WorksheetSourceRecord)
    ensures
        record_is(r, "constraint"@, c.id@, c.updated_at@, constraint_details(*c)),
{
    let mut d = String::from_str("subject=");
    d.append(c.subject_type.as_str());
    d.append(":");
    d.append(c.subject_id.as_str());
    d.append(";action=");
    d.append(c.action.as_str());
    d.append(";effect=");
    d.append(c.effect.as_str());
    WorksheetSourceRecord { source_type: String::from_str("constraint"), id: c.id.clone(), version: c.updated_at.clone(), details: d }
}

pub open spec fn quote_details(asset_id: Seq<char>, q: SecurityQuote) -> Seq<char> {
    "asset="@ + asset_id + ";close="@ + decimal_text(q.close@) + ";currency="@ + q.currency@ + ";source="@ + q.data_source@
}

fn quote_record(asset_id: &String, q: &SecurityQuote) -> (r: WorksheetSourceRecord)
    requires
        q.close.wf(),
    ensures
        record_is(r, "security_quote"@, q.id@, q.timestamp@, quote_details(asset_id@, *q)),
{
    let mut d = String::from_str("asset=");
    d.append(asset_id.as_str());
    d.append(";close=");
    d.append(dec_to_string(q.close).as_str());
    d.append(";currency=");
    d.append(q.currency.as_str());
    d.append(";source=");
    d.append(q.data_source.as_str());
    WorksheetSourceRecord { source_type: String::from_str("security_quote"), id: q.id.clone(), version: q.timestamp.clone(), details: d }
}

pub open spec fn fx_details(r: ExchangeRate) -> Seq<char> {
    "pair="@ + r.from_currency@ + "/"@ + r.to_currency@ + ";rate="@ + decimal_text(r.rate@) + ";source="@ + r.source@
}

fn fx_record(rate: &ExchangeRate) -> (r: WorksheetSourceRecord)
    requires
        rate.rate.wf(),
    ensures
        record_is(r, "fx_rate"@, rate.id@, rate.timestamp_text@, fx_details(*rate)),
{
    let mut d = String::from_str("pair=");
    d.append(rate.from_currency.as_str());
    d.append("/");
    d.append(rate.to_currency.as_str());
    d.append(";rate=");
    d.append(dec_to_string(rate.rate).as_str());
    d.append(";source=");
    d.append(rate.source.as_str());
    WorksheetSourceRecord { source_type: String::from_str("fx_rate"), id: rate.id.clone(), version: rate.timestamp_text.clone(), details: d }
}

pub open spec fn drift_row_details(row: DriftRow) -> Seq<char> {
    "current_value="@ + decimal_text(row.current_value@) + ";current_bps="@ + int_text(row.current_bps as int)
        + ";target_bps="@ + int_text(row.target_bps as int) + ";cash="@ + bool_text(row.is_cash)
}

fn drift_row_record(row: &DriftRow) -> (r: WorksheetSourceRecord)
    requires
        row.current_value.wf(),
    ensures
        record_is(r, "drift_row"@, row.category_id@, "derived"@, drift_row_details(*row)),
{
    let mut d = String::from_str("current_value=");
    d.append(dec_to_string(row.current_value).as_str());
    d.append(";current_bps=");
    d.append(i64_string(row.current_bps as i64).as_str());
    d.append(";target_bps=");
    d.append(i64_string(row.target_bps as i64).as_str());
    d.append(";cash=");
    d.append(bool_str(row.is_cash));
    WorksheetSourceRecord { source_type: String::from_str("drift_row"), id: row.category_id.clone(), version: String::from_str("derived"), details: d }
}

// ---------------------------------------------------------------------------
// The whole calculation.
// ---------------------------------------------------------------------------

/// The recorded data a worksheet calculation reads.  `holdings` has the
/// holdings of each resolved account; `source_assignments` and
/// `source_quotes` are read for `source_asset_ids`; `today` is the UTC day
/// number that decides FX staleness and `calculated_at` the RFC 3339 text of
/// the calculation time.
pub struct WorksheetData {
    pub target: AllocationTarget,
    pub drift: DriftReport,
    pub assets: Vec<WorksheetAsset>,
    pub quote_snapshots: Vec<LatestQuoteSnapshot>,
    pub assignments: Vec<AssetTaxonomyAssignment>,
    pub taxonomy: Taxonomy,
    pub categories: Vec<TaxonomyCategory>,
    pub fx_rates: Vec<ExchangeRate>,
    pub constraints: Vec<AllocationTargetConstraint>,
    pub holdings: Vec<AccountHoldings>,
    pub weights: Vec<AllocationTargetWeight>,
    pub source_assignments: Vec<AssetTaxonomyAssignment>,
    pub source_quotes: Vec<LatestQuoteSnapshot>,
    pub base_currency: FxCurrency,
    pub today: i32,
    pub calculated_at: String,
}

impl WorksheetData {
    pub open spec fn wf(&self) -> bool {
        &&& self.drift.total_value.wf()
        &&& self.drift.deployable_cash.wf()
        &&& forall|i: int| 0 <= i < self.drift.rows@.len() ==> (#[trigger] self.drift.rows@[i]).current_value.wf()
        &&& assets_wf(self.assets@)
        &&& snapshots_wf(self.quote_snapshots@)
        &&& snapshots_wf(self.source_quotes@)
        &&& classifications_fit(self.assignments@, self.target.taxonomy_id@)
        &&& rates_wf(self.fx_rates@)
        &&& self.base_currency.denormalization_multiplier.wf()
        &&& holdings_wf(self.holdings@)
        &&& forall|i: int| 0 <= i < self.holdings@.len() ==> forall|j: int| 0 <= j < (#[trigger] self.holdings@[i]).holdings@.len() ==> holding_wf(#[trigger] self.holdings@[i].holdings@[j])
    }
}

/// Some line of the request is for the asset `t`.
pub open spec fn requested_asset(lines: Seq<AllocationWorksheetLineInput>, n: int, t: Seq<char>) -> bool {
    exists|i: int| 0 <= i < n && (#[trigger] lines[i]).asset_id@ == t
}

/// Some holding outside cash among the first `g` groups, and the first `h`
/// holdings of group `g`, is of the asset `t`.
pub open spec fn held_asset(holdings: Seq<AccountHoldings>, g: int, h: int, t: Seq<char>) -> bool {
    ||| exists|a: int, b: int| 0 <= a < g && 0 <= b < holdings[a].holdings@.len()
            && !(#[trigger] holdings[a].holdings@[b]).is_cash && holding_asset(holdings[a].holdings@[b]) == t
    ||| exists|b: int| 0 <= b < h && !(#[trigger] holdings[g].holdings@[b]).is_cash && holding_asset(holdings[g].holdings@[b]) == t
}

impl AllocationWorksheetService {
    /// The ids of the assets of the lines, sorted, each once.
    pub fn line_asset_ids(input: &CalculateAllocationWorksheetInput) -> (r: Vec<String>)
        ensures
            strictly_sorted(r@),
            forall|t: Seq<char>| #[trigger] text_set(r@).contains(t) == requested_asset(input.lines@, input.lines@.len() as int, t),
    {
        let mut ids: Vec<String> = Vec::new();
        let mut i: usize = 0;
        while i < input.lines.len()
            invariant
                i <= input.lines@.len(),
                strictly_sorted(ids@),
                forall|t: Seq<char>| #[trigger] text_set(ids@).contains(t) == requested_asset(input.lines@, i as int, t),
            decreases input.lines@.len() - i,
        {
            insert_sorted(&mut ids, input.lines[i].asset_id.as_str());
            proof {
                assert forall|t: Seq<char>| #[trigger] text_set(ids@).contains(t) == requested_asset(input.lines@, i + 1, t) by {
                    if requested_asset(input.lines@, i + 1, t) && t != input.lines@[i as int].asset_id@ {
                        let k = choose|k: int| 0 <= k < i + 1 && (#[trigger] input.lines@[k]).asset_id@ == t;
                        assert(k < i);
                        assert(requested_asset(input.lines@, i as int, t));
                    }
                    if requested_asset(input.lines@, i as int, t) {
                        let k = choose|k: int| 0 <= k < i && (#[trigger] input.lines@[k]).asset_id@ == t;
                        assert(0 <= k < i + 1);
                    }
                    if t == input.lines@[i as int].asset_id@ {
                        assert(0 <= i < i + 1);
                    }
                }
            }
            i = i + 1;
        }
        ids
    }

    /// The asset ids whose classifications and quotes are source records: the
    /// line assets and the assets held outside cash, sorted, each once.
    pub fn source_asset_ids(input: &CalculateAllocationWorksheetInput, holdings: &[AccountHoldings]) -> (r: Vec<String>)
        ensures
            strictly_sorted(r@),
            forall|t: Seq<char>| #[trigger] text_set(r@).contains(t)
                == (requested_asset(input.lines@, input.lines@.len() as int, t) || held_asset(holdings@, holdings@.len() as int, 0, t)),
    {
        let mut ids = Self::line_asset_ids(input);
        let mut g: usize = 0;
        while g < holdings.len()
            invariant
                g <= holdings@.len(),
                strictly_sorted(ids@),
                forall|t: Seq<char>| #[trigger] text_set(ids@).contains(t)
                    == (requested_asset(input.lines@, input.lines@.len() as int, t) || held_asset(holdings@, g as int, 0, t)),
            decreases holdings@.len() - g,
        {
            let list = &holdings[g].holdings;
            let mut h: usize = 0;
            while h < list.len()
                invariant
                    g < holdings@.len(),
                    list@ == holdings@[g as int].holdings@,
                    h <= list@.len(),
                    strictly_sorted(ids@),
                    forall|t: Seq<char>| #[trigger] text_set(ids@).contains(t)
                        == (requested_asset(input.lines@, input.lines@.len() as int, t) || held_asset(holdings@, g as int, h as int, t)),
                decreases list@.len() - h,
            {
                if !list[h].is_cash {
                    let key = Self::asset_key(&list[h]);
                    insert_sorted(&mut ids, key.as_str());
                }
                proof {
                    assert forall|t: Seq<char>| held_asset(holdings@, g as int, h + 1, t)
                        == (held_asset(holdings@, g as int, h as int, t) || (!list@[h as int].is_cash && holding_asset(list@[h as int]) == t)) by {
                        if held_asset(holdings@, g as int, h + 1, t) && !held_asset(holdings@, g as int, h as int, t) {
                            if exists|b: int| 0 <= b < h + 1 && !(#[trigger] holdings@[g as int].holdings@[b]).is_cash && holding_asset(holdings@[g as int].holdings@[b]) == t {
                                let b = choose|b: int| 0 <= b < h + 1 && !(#[trigger] holdings@[g as int].holdings@[b]).is_cash && holding_asset(holdings@[g as int].holdings@[b]) == t;
                                if b < h {
                                    assert(held_asset(holdings@, g as int, h as int, t));
                                }
                            }
                        }
                        if held_asset(holdings@, g as int, h as int, t) {
                            if exists|b: int| 0 <= b < h && !(#[trigger] holdings@[g as int].holdings@[b]).is_cash && holding_asset(holdings@[g as int].holdings@[b]) == t {
                                let b = choose|b: int| 0 <= b < h && !(#[trigger] holdings@[g as int].holdings@[b]).is_cash && holding_asset(holdings@[g as int].holdings@[b]) == t;
                                assert(0 <= b < h + 1);
                            }
                        }
                        if !list@[h as int].is_cash && holding_asset(list@[h as int]) == t {
                            assert(!holdings@[g as int].holdings@[h as int].is_cash);
                        }
                    }
                }
                h = h + 1;
            }
            proof {
                assert forall|t: Seq<char>| held_asset(holdings@, g + 1, 0, t) == held_asset(holdings@, g as int, list@.len() as int, t) by {
                    if held_asset(holdings@, g + 1, 0, t) {
                        let (a, b) = choose|a: int, b: int| 0 <= a < g + 1 && 0 <= b < holdings@[a].holdings@.len()
                            && !(#[trigger] holdings@[a].holdings@[b]).is_cash && holding_asset(holdings@[a].holdings@[b]) == t;
                        if a < g {
                            assert(held_asset(holdings@, g as int, list@.len() as int, t));
                        } else {
                            assert(held_asset(holdings@, g as int, list@.len() as int, t));
                        }
                    }
                    if held_asset(holdings@, g as int, list@.len() as int, t) {
                        if exists|b: int| 0 <= b < list@.len() && !(#[trigger] holdings@[g as int].holdings@[b]).is_cash && holding_asset(holdings@[g as int].holdings@[b]) == t {
                            let b = choose|b: int| 0 <= b < list@.len() && !(#[trigger] holdings@[g as int].holdings@[b]).is_cash && holding_asset(holdings@[g as int].holdings@[b]) == t;
                            assert(0 <= g < g + 1);
                        } else {
                            let (a, b) = choose|a: int, b: int| 0 <= a < g && 0 <= b < holdings@[a].holdings@.len()
                                && !(#[trigger] holdings@[a].holdings@[b]).is_cash && holding_asset(holdings@[a].holdings@[b]) == t;
                            assert(0 <= a < g + 1);
                        }
                    }
                }
            }
            g = g + 1;
        }
        ids
    }
}

/// A copy of a list of texts.
fn copy_texts(v: &Vec<String>) -> (r: Vec<String>)
    ensures
        texts(r@) == texts(v@),
{
    let mut out: Vec<String> = Vec::new();
    let mut a: usize = 0;
    while a < v.len()
        invariant
            a <= v@.len(),
            out@ == v@.take(a as int),
        decreases v@.len() - a,
    {
        out.push(v[a].clone());
        proof {
            assert(out@ =~= v@.take(a + 1));
        }
        a = a + 1;
    }
    assert(v@.take(a as int) =~= v@);
    out
}

/// The `(id, name)` pairs of the taxonomy categories, in order.
fn category_names_of(categories: &[TaxonomyCategory]) -> (r: Vec<(String, String)>)
    ensures
        names_of_categories(r@, categories@),
{
    let mut out: Vec<(String, String)> = Vec::new();
    let mut i: usize = 0;
    while i < categories.len()
        invariant
            i <= categories@.len(),
            names_of_categories(out@, categories@.take(i as int)),
        decreases categories@.len() - i,
    {
        out.push((categories[i].id.clone(), categories[i].name.clone()));
        i = i + 1;
    }
    assert(categories@.take(i as int) =~= categories@);
    out
}

/// The worksheet's lower bound per line: the target's minimum trade amount
/// when it parses and is positive, else zero.
pub open spec fn min_line_amount_spec(text: Seq<char>) -> Dec {
    match decimal_parse(text) {
        Some(v) => if crate::decimal::dec_from_view(v).units() > 0 { crate::decimal::dec_from_view(v) } else { Dec::zero_spec() },
        None => Dec::zero_spec(),
    }
}

/// The record of each kind of source, as `(type, id, version, details)`.
pub open spec fn target_view(t: AllocationTarget) -> (Seq<char>, Seq<char>, Seq<char>, Seq<char>) {
    ("allocation_target"@, t.id@, t.updated_at@, target_details(t))
}

pub open spec fn taxonomy_view(t: Taxonomy) -> (Seq<char>, Seq<char>, Seq<char>, Seq<char>) {
    ("taxonomy"@, t.id@, t.updated_at@, "name="@ + t.name@ + ";scope="@ + t.scope@)
}

/// Some of the first `n` positions gives the record `t`.
pub open spec fn in_views(f: spec_fn(int) -> Option<(Seq<char>, Seq<char>, Seq<char>, Seq<char>)>, n: int, t: (Seq<char>, Seq<char>, Seq<char>, Seq<char>)) -> bool {
    exists|k: int| 0 <= k < n && #[trigger] f(k) == Some(t)
}

proof fn lemma_in_views_step(f: spec_fn(int) -> Option<(Seq<char>, Seq<char>, Seq<char>, Seq<char>)>, n: int, t: (Seq<char>, Seq<char>, Seq<char>, Seq<char>))
    requires
        0 <= n,
    ensures
        in_views(f, n + 1, t) == (in_views(f, n, t) || f(n) == Some(t)),
{
    if in_views(f, n, t) {
        let k = choose|k: int| 0 <= k < n && #[trigger] f(k) == Some(t);
        assert(0 <= k < n + 1 && f(k) == Some(t));
    }
    if f(n) == Some(t) {
        assert(0 <= n < n + 1 && f(n) == Some(t));
    }
    if in_views(f, n + 1, t) && f(n) != Some(t) {
        let k = choose|k: int| 0 <= k < n + 1 && #[trigger] f(k) == Some(t);
        assert(k < n);
    }
}

pub open spec fn weights_at(w: Seq<AllocationTargetWeight>) -> spec_fn(int) -> Option<(Seq<char>, Seq<char>, Seq<char>, Seq<char>)> {
    |k: int| Some(("target_weight"@, w[k].id@, w[k].updated_at@, weight_details(w[k])))
}

pub open spec fn categories_at(c: Seq<TaxonomyCategory>) -> spec_fn(int) -> Option<(Seq<char>, Seq<char>, Seq<char>, Seq<char>)> {
    |k: int| Some(("taxonomy_category"@, c[k].id@, c[k].updated_at@, category_details(c[k])))
}

/// One asset record per id: that of the last asset with it.
pub open spec fn assets_at(a: Seq<WorksheetAsset>) -> spec_fn(int) -> Option<(Seq<char>, Seq<char>, Seq<char>, Seq<char>)> {
    |k: int| if asset_for(a, a[k].id@) == Some(k) { Some(("asset"@, a[k].id@, a[k].updated_at@, asset_details(a[k]))) } else { None }
}

pub open spec fn holdings_at(l: Seq<Holding>) -> spec_fn(int) -> Option<(Seq<char>, Seq<char>, Seq<char>, Seq<char>)> {
    |k: int| Some(("holding"@, l[k].id@, l[k].as_of_date@, holding_details(l[k])))
}

/// The holdings of the first `g` groups give the record `t`.
pub open spec fn in_holding_groups(h: Seq<AccountHoldings>, g: int, t: (Seq<char>, Seq<char>, Seq<char>, Seq<char>)) -> bool {
    exists|gg: int| 0 <= gg < g && #[trigger] in_views(holdings_at(h[gg].holdings@), h[gg].holdings@.len() as int, t)
}

proof fn lemma_in_holding_groups_step(h: Seq<AccountHoldings>, g: int, t: (Seq<char>, Seq<char>, Seq<char>, Seq<char>))
    requires
        0 <= g,
    ensures
        in_holding_groups(h, g + 1, t) == (in_holding_groups(h, g, t) || in_views(holdings_at(h[g].holdings@), h[g].holdings@.len() as int, t)),
{
    if in_holding_groups(h, g, t) {
        let k = choose|k: int| 0 <= k < g && #[trigger] in_views(holdings_at(h[k].holdings@), h[k].holdings@.len() as int, t);
        assert(0 <= k < g + 1);
    }
    if in_views(holdings_at(h[g].holdings@), h[g].holdings@.len() as int, t) {
        assert(0 <= g < g + 1);
    }
    if in_holding_groups(h, g + 1, t) && !in_views(holdings_at(h[g].holdings@), h[g].holdings@.len() as int, t) {
        let k = choose|k: int| 0 <= k < g + 1 && #[trigger] in_views(holdings_at(h[k].holdings@), h[k].holdings@.len() as int, t);
        assert(k < g);
    }
}

/// Classification records: those in the target's taxonomy.
pub open spec fn classifications_at(a: Seq<AssetTaxonomyAssignment>, taxonomy_id: Seq<char>) -> spec_fn(int) -> Option<(Seq<char>, Seq<char>, Seq<char>, Seq<char>)> {
    |k: int| if a[k].taxonomy_id@ == taxonomy_id { Some(("classification"@, a[k].id@, a[k].updated_at@, classification_details(a[k]))) } else { None }
}

pub open spec fn constraints_at(c: Seq<AllocationTargetConstraint>) -> spec_fn(int) -> Option<(Seq<char>, Seq<char>, Seq<char>, Seq<char>)> {
    |k: int| Some(("constraint"@, c[k].id@, c[k].updated_at@, constraint_details(c[k])))
}

/// Quote records: one per snapshot that has a quote.
pub open spec fn quotes_at(q: Seq<LatestQuoteSnapshot>) -> spec_fn(int) -> Option<(Seq<char>, Seq<char>, Seq<char>, Seq<char>)> {
    |k: int| match q[k].quote {
        Some(x) => Some(("security_quote"@, x.id@, x.timestamp@, quote_details(q[k].asset_id@, x))),
        None => None,
    }
}

pub open spec fn fx_at(r: Seq<ExchangeRate>) -> spec_fn(int) -> Option<(Seq<char>, Seq<char>, Seq<char>, Seq<char>)> {
    |k: int| Some(("fx_rate"@, r[k].id@, r[k].timestamp_text@, fx_details(r[k])))
}

pub open spec fn drift_at(r: Seq<DriftRow>) -> spec_fn(int) -> Option<(Seq<char>, Seq<char>, Seq<char>, Seq<char>)> {
    |k: int| Some(("drift_row"@, r[k].category_id@, "derived"@, drift_row_details(r[k])))
}

/// The records of a calculation on `data` that used the rates `used`.
pub open spec fn source_record_views(data: WorksheetData, used: Seq<ExchangeRate>) -> Set<(Seq<char>, Seq<char>, Seq<char>, Seq<char>)> {
    Set::new(|t: (Seq<char>, Seq<char>, Seq<char>, Seq<char>)|
        t == target_view(data.target) || t == taxonomy_view(data.taxonomy)
        || in_views(weights_at(data.weights@), data.weights@.len() as int, t)
        || in_views(categories_at(data.categories@), data.categories@.len() as int, t)
        || in_views(assets_at(data.assets@), data.assets@.len() as int, t)
        || in_holding_groups(data.holdings@, data.holdings@.len() as int, t)
        || in_views(classifications_at(data.source_assignments@, data.target.taxonomy_id@), data.source_assignments@.len() as int, t)
        || in_views(constraints_at(data.constraints@), data.constraints@.len() as int, t)
        || in_views(quotes_at(data.source_quotes@), data.source_quotes@.len() as int, t)
        || in_views(fx_at(used), used.len() as int, t)
        || in_views(drift_at(data.drift.rows@), data.drift.rows@.len() as int, t)
    )
}

proof fn lemma_record_set_push(v: Seq<WorksheetSourceRecord>, r: WorksheetSourceRecord)
    ensures
        forall|t: (Seq<char>, Seq<char>, Seq<char>, Seq<char>)| #[trigger] record_set(v.push(r)).contains(t) == (record_set(v).contains(t) || t == record_view(r)),
{
    assert forall|t: (Seq<char>, Seq<char>, Seq<char>, Seq<char>)| #[trigger] record_set(v.push(r)).contains(t) == (record_set(v).contains(t) || t == record_view(r)) by {
        let p = v.push(r);
        if record_set(v).contains(t) {
            let i = choose|i: int| 0 <= i < v.len() && record_view(v[i]) == t;
            assert(p[i] == v[i]);
        }
        if t == record_view(r) {
            assert(record_view(p[v.len() as int]) == t);
        }
        if record_set(p).contains(t) && t != record_view(r) {
            let i = choose|i: int| 0 <= i < p.len() && record_view(p[i]) == t;
            assert(i < v.len());
            assert(p[i] == v[i]);
        }
    }
}

/// Every record the calculation is based on, in no particular order.
fn collect_source_records(data: &WorksheetData, used_fx_rates: &Vec<ExchangeRate>) -> (r: Vec<WorksheetSourceRecord>)
    requires
        data.wf(),
        forall|i: int| 0 <= i < used_fx_rates@.len() ==> (#[trigger] used_fx_rates@[i]).rate.wf(),
    ensures
        record_set(r@) =~= source_record_views(*data, used_fx_rates@),
{
    let mut records: Vec<WorksheetSourceRecord> = Vec::new();
    records.push(target_record(&data.target));
    records.push(taxonomy_record(&data.taxonomy));
    proof {
        assert forall|t: (Seq<char>, Seq<char>, Seq<char>, Seq<char>)| #[trigger] record_set(records@).contains(t) == (t == target_view(data.target) || t == taxonomy_view(data.taxonomy)) by {
            if t == target_view(data.target) {
                assert(record_view(records@[0]) == t);
            }
            if t == taxonomy_view(data.taxonomy) {
                assert(record_view(records@[1]) == t);
            }
            if record_set(records@).contains(t) {
                let i = choose|i: int| 0 <= i < records@.len() && record_view(records@[i]) == t;
                assert(i == 0 || i == 1);
            }
        }
    }
    let mut i: usize = 0;
    while i < data.weights.len()
        invariant
            i <= data.weights@.len(),
            data.wf(),
            forall|k: int| 0 <= k < used_fx_rates@.len() ==> (#[trigger] used_fx_rates@[k]).rate.wf(),
            forall|t: (Seq<char>, Seq<char>, Seq<char>, Seq<char>)| #[trigger] record_set(records@).contains(t) == ((t == target_view(data.target) || t == taxonomy_view(data.taxonomy)) || in_views(weights_at(data.weights@), i as int, t)),
        decreases data.weights@.len() - i,
    {
        let ghost before = records@;
        records.push(weight_record(&data.weights[i]));
        proof {
            lemma_record_set_push(before, records@.last());
            assert(records@ == before.push(records@.last()));
            assert(weights_at(data.weights@)(i as int) == Some(record_view(records@.last())));
            assert forall|t: (Seq<char>, Seq<char>, Seq<char>, Seq<char>)| #[trigger] record_set(records@).contains(t) == ((t == target_view(data.target) || t == taxonomy_view(data.taxonomy)) || in_views(weights_at(data.weights@), i + 1, t)) by {
                lemma_in_views_step(weights_at(data.weights@), i as int, t);
            }
        }
        i = i + 1;
    }
    proof {
        assert(data.weights@.len() == i);
    }
    let mut i: usize = 0;
    while i < data.categories.len()
        invariant
            i <= data.categories@.len(),
            data.wf(),
            forall|k: int| 0 <= k < used_fx_rates@.len() ==> (#[trigger] used_fx_rates@[k]).rate.wf(),
            forall|t: (Seq<char>, Seq<char>, Seq<char>, Seq<char>)| #[trigger] record_set(records@).contains(t) == ((t == target_view(data.target) || t == taxonomy_view(data.taxonomy)) || (in_views(weights_at(data.weights@), data.weights@.len() as int, t)) || in_views(categories_at(data.categories@), i as int, t)),
        decreases data.categories@.len() - i,
    {
        let ghost before = records@;
        records.push(category_record(&data.categories[i]));
        proof {
            lemma_record_set_push(before, records@.last());
            assert(records@ == before.push(records@.last()));
            assert(categories_at(data.categories@)(i as int) == Some(record_view(records@.last())));
            assert forall|t: (Seq<char>, Seq<char>, Seq<char>, Seq<char>)| #[trigger] record_set(records@).contains(t) == ((t == target_view(data.target) || t == taxonomy_view(data.taxonomy)) || (in_views(weights_at(data.weights@), data.weights@.len() as int, t)) || in_views(categories_at(data.categories@), i + 1, t)) by {
                lemma_in_views_step(categories_at(data.categories@), i as int, t);
            }
        }
        i = i + 1;
    }
    proof {
        assert(data.categories@.len() == i);
    }
    let mut i: usize = 0;
    while i < data.assets.len()
        invariant
            i <= data.assets@.len(),
            data.wf(),
            forall|k: int| 0 <= k < used_fx_rates@.len() ==> (#[trigger] used_fx_rates@[k]).rate.wf(),
            forall|t: (Seq<char>, Seq<char>, Seq<char>, Seq<char>)| #[trigger] record_set(records@).contains(t) == ((t == target_view(data.target) || t == taxonomy_view(data.taxonomy)) || (in_views(weights_at(data.weights@), data.weights@.len() as int, t)) || (in_views(categories_at(data.categories@), data.categories@.len() as int, t)) || in_views(assets_at(data.assets@), i as int, t)),
        decreases data.assets@.len() - i,
    {
        let ghost before = records@;
        match find_asset(data.assets.as_slice(), data.assets[i].id.as_str()) {
            Some(k) => {
                if k == i {
                    assert(data.assets@[i as int].contract_multiplier.wf());
                    records.push(asset_record(&data.assets[i]));
                    proof {
                        lemma_record_set_push(before, records@.last());
                        assert(records@ == before.push(records@.last()));
                        assert(assets_at(data.assets@)(i as int) == Some(record_view(records@.last())));
                    }
                } else {
                    assert(assets_at(data.assets@)(i as int) is None);
                }
            },
            None => {
                assert(assets_at(data.assets@)(i as int) is None);
            },
        }
        proof {
            assert forall|t: (Seq<char>, Seq<char>, Seq<char>, Seq<char>)| #[trigger] record_set(records@).contains(t) == ((t == target_view(data.target) || t == taxonomy_view(data.taxonomy)) || (in_views(weights_at(data.weights@), data.weights@.len() as int, t)) || (in_views(categories_at(data.categories@), data.categories@.len() as int, t)) || in_views(assets_at(data.assets@), i + 1, t)) by {
                lemma_in_views_step(assets_at(data.assets@), i as int, t);
            }
        }
        i = i + 1;
    }
    proof {
        assert(data.assets@.len() == i);
    }
    let mut g: usize = 0;
    while g < data.holdings.len()
        invariant
            g <= data.holdings@.len(),
            data.wf(),
            forall|k: int| 0 <= k < used_fx_rates@.len() ==> (#[trigger] used_fx_rates@[k]).rate.wf(),
            forall|t: (Seq<char>, Seq<char>, Seq<char>, Seq<char>)| #[trigger] record_set(records@).contains(t) == ((t == target_view(data.target) || t == taxonomy_view(data.taxonomy)) || (in_views(weights_at(data.weights@), data.weights@.len() as int, t)) || (in_views(categories_at(data.categories@), data.categories@.len() as int, t)) || (in_views(assets_at(data.assets@), data.assets@.len() as int, t)) || in_holding_groups(data.holdings@, g as int, t)),
        decreases data.holdings@.len() - g,
    {
        let list = &data.holdings[g].holdings;
        let mut h: usize = 0;
        while h < list.len()
            invariant
                g < data.holdings@.len(),
                *list == data.holdings@[g as int].holdings,
                h <= list@.len(),
                data.wf(),
                forall|k: int| 0 <= k < used_fx_rates@.len() ==> (#[trigger] used_fx_rates@[k]).rate.wf(),
                forall|t: (Seq<char>, Seq<char>, Seq<char>, Seq<char>)| #[trigger] record_set(records@).contains(t) == ((t == target_view(data.target) || t == taxonomy_view(data.taxonomy)) || (in_views(weights_at(data.weights@), data.weights@.len() as int, t)) || (in_views(categories_at(data.categories@), data.categories@.len() as int, t)) || (in_views(assets_at(data.assets@), data.assets@.len() as int, t)) || in_holding_groups(data.holdings@, g as int, t) || in_views(holdings_at(list@), h as int, t)),
            decreases list@.len() - h,
        {
            assert(holding_wf(data.holdings@[g as int].holdings@[h as int]));
            let ghost before = records@;
            records.push(holding_record(&list[h]));
            proof {
                lemma_record_set_push(before, records@.last());
                assert(records@ == before.push(records@.last()));
                assert(holdings_at(list@)(h as int) == Some(record_view(records@.last())));
                assert forall|t: (Seq<char>, Seq<char>, Seq<char>, Seq<char>)| #[trigger] record_set(records@).contains(t) == ((t == target_view(data.target) || t == taxonomy_view(data.taxonomy)) || (in_views(weights_at(data.weights@), data.weights@.len() as int, t)) || (in_views(categories_at(data.categories@), data.categories@.len() as int, t)) || (in_views(assets_at(data.assets@), data.assets@.len() as int, t)) || in_holding_groups(data.holdings@, g as int, t) || in_views(holdings_at(list@), h + 1, t)) by {
                    lemma_in_views_step(holdings_at(list@), h as int, t);
                }
            }
            h = h + 1;
        }
        proof {
            assert forall|t: (Seq<char>, Seq<char>, Seq<char>, Seq<char>)| #[trigger] record_set(records@).contains(t) == ((t == target_view(data.target) || t == taxonomy_view(data.taxonomy)) || (in_views(weights_at(data.weights@), data.weights@.len() as int, t)) || (in_views(categories_at(data.categories@), data.categories@.len() as int, t)) || (in_views(assets_at(data.assets@), data.assets@.len() as int, t)) || in_holding_groups(data.holdings@, g + 1, t)) by {
                lemma_in_holding_groups_step(data.holdings@, g as int, t);
            }
        }
        g = g + 1;
    }
    let mut i: usize = 0;
    while i < data.source_assignments.len()
        invariant
            i <= data.source_assignments@.len(),
            data.wf(),
            forall|k: int| 0 <= k < used_fx_rates@.len() ==> (#[trigger] used_fx_rates@[k]).rate.wf(),
            forall|t: (Seq<char>, Seq<char>, Seq<char>, Seq<char>)| #[trigger] record_set(records@).contains(t) == ((t == target_view(data.target) || t == taxonomy_view(data.taxonomy)) || (in_views(weights_at(data.weights@), data.weights@.len() as int, t)) || (in_views(categories_at(data.categories@), data.categories@.len() as int, t)) || (in_views(assets_at(data.assets@), data.assets@.len() as int, t)) || (in_holding_groups(data.holdings@, data.holdings@.len() as int, t)) || in_views(classifications_at(data.source_assignments@, data.target.taxonomy_id@), i as int, t)),
        decreases data.source_assignments@.len() - i,
    {
        let ghost before = records@;
        if str_eq(data.source_assignments[i].taxonomy_id.as_str(), data.target.taxonomy_id.as_str()) {
            records.push(classification_record(&data.source_assignments[i]));
            proof {
                lemma_record_set_push(before, records@.last());
                assert(records@ == before.push(records@.last()));
                assert(classifications_at(data.source_assignments@, data.target.taxonomy_id@)(i as int) == Some(record_view(records@.last())));
            }
        } else {
            assert(classifications_at(data.source_assignments@, data.target.taxonomy_id@)(i as int) is None);
        }
        proof {
            assert forall|t: (Seq<char>, Seq<char>, Seq<char>, Seq<char>)| #[trigger] record_set(records@).contains(t) == ((t == target_view(data.target) || t == taxonomy_view(data.taxonomy)) || (in_views(weights_at(data.weights@), data.weights@.len() as int, t)) || (in_views(categories_at(data.categories@), data.categories@.len() as int, t)) || (in_views(assets_at(data.assets@), data.assets@.len() as int, t)) || (in_holding_groups(data.holdings@, data.holdings@.len() as int, t)) || in_views(classifications_at(data.source_assignments@, data.target.taxonomy_id@), i + 1, t)) by {
                lemma_in_views_step(classifications_at(data.source_assignments@, data.target.taxonomy_id@), i as int, t);
            }
        }
        i = i + 1;
    }
    proof {
        assert(data.source_assignments@.len() == i);
    }
    let mut i: usize = 0;
    while i < data.constraints.len()
        invariant
            i <= data.constraints@.len(),
            data.wf(),
            forall|k: int| 0 <= k < used_fx_rates@.len() ==> (#[trigger] used_fx_rates@[k]).rate.wf(),
            forall|t: (Seq<char>, Seq<char>, Seq<char>, Seq<char>)| #[trigger] record_set(records@).contains(t) == ((t == target_view(data.target) || t == taxonomy_view(data.taxonomy)) || (in_views(weights_at(data.weights@), data.weights@.len() as int, t)) || (in_views(categories_at(data.categories@), data.categories@.len() as int, t)) || (in_views(assets_at(data.assets@), data.assets@.len() as int, t)) || (in_holding_groups(data.holdings@, data.holdings@.len() as int, t)) || (in_views(classifications_at(data.source_assignments@, data.target.taxonomy_id@), data.source_assignments@.len() as int, t)) || in_views(constraints_at(data.constraints@), i as int, t)),
        decreases data.constraints@.len() - i,
    {
        let ghost before = records@;
        records.push(constraint_record(&data.constraints[i]));
        proof {
            lemma_record_set_push(before, records@.last());
            assert(records@ == before.push(records@.last()));
            assert(constraints_at(data.constraints@)(i as int) == Some(record_view(records@.last())));
            assert forall|t: (Seq<char>, Seq<char>, Seq<char>, Seq<char>)| #[trigger] record_set(records@).contains(t) == ((t == target_view(data.target) || t == taxonomy_view(data.taxonomy)) || (in_views(weights_at(data.weights@), data.weights@.len() as int, t)) || (in_views(categories_at(data.categories@), data.categories@.len() as int, t)) || (in_views(assets_at(data.assets@), data.assets@.len() as int, t)) || (in_holding_groups(data.holdings@, data.holdings@.len() as int, t)) || (in_views(classifications_at(data.source_assignments@, data.target.taxonomy_id@), data.source_assignments@.len() as int, t)) || in_views(constraints_at(data.constraints@), i + 1, t)) by {
                lemma_in_views_step(constraints_at(data.constraints@), i as int, t);
            }
        }
        i = i + 1;
    }
    proof {
        assert(data.constraints@.len() == i);
    }
    let mut i: usize = 0;
    while i < data.source_quotes.len()
        invariant
            i <= data.source_quotes@.len(),
            data.wf(),
            forall|k: int| 0 <= k < used_fx_rates@.len() ==> (#[trigger] used_fx_rates@[k]).rate.wf(),
            forall|t: (Seq<char>, Seq<char>, Seq<char>, Seq<char>)| #[trigger] record_set(records@).contains(t) == ((t == target_view(data.target) || t == taxonomy_view(data.taxonomy)) || (in_views(weights_at(data.weights@), data.weights@.len() as int, t)) || (in_views(categories_at(data.categories@), data.categories@.len() as int, t)) || (in_views(assets_at(data.assets@), data.assets@.len() as int, t)) || (in_holding_groups(data.holdings@, data.holdings@.len() as int, t)) || (in_views(classifications_at(data.source_assignments@, data.target.taxonomy_id@), data.source_assignments@.len() as int, t)) || (in_views(constraints_at(data.constraints@), data.constraints@.len() as int, t)) || in_views(quotes_at(data.source_quotes@), i as int, t)),
        decreases data.source_quotes@.len() - i,
    {
        let ghost before = records@;
        let snapshot = &data.source_quotes[i];
        match &snapshot.quote {
            Some(q) => {
                assert(q.close.wf());
                records.push(quote_record(&snapshot.asset_id, q));
                proof {
                    lemma_record_set_push(before, records@.last());
                    assert(records@ == before.push(records@.last()));
                    assert(quotes_at(data.source_quotes@)(i as int) == Some(record_view(records@.last())));
                }
            },
            None => {
                assert(quotes_at(data.source_quotes@)(i as int) is None);
            },
        }
        proof {
            assert forall|t: (Seq<char>, Seq<char>, Seq<char>, Seq<char>)| #[trigger] record_set(records@).contains(t) == ((t == target_view(data.target) || t == taxonomy_view(data.taxonomy)) || (in_views(weights_at(data.weights@), data.weights@.len() as int, t)) || (in_views(categories_at(data.categories@), data.categories@.len() as int, t)) || (in_views(assets_at(data.assets@), data.assets@.len() as int, t)) || (in_holding_groups(data.holdings@, data.holdings@.len() as int, t)) || (in_views(classifications_at(data.source_assignments@, data.target.taxonomy_id@), data.source_assignments@.len() as int, t)) || (in_views(constraints_at(data.constraints@), data.constraints@.len() as int, t)) || in_views(quotes_at(data.source_quotes@), i + 1, t)) by {
                lemma_in_views_step(quotes_at(data.source_quotes@), i as int, t);
            }
        }
        i = i + 1;
    }
    proof {
        assert(data.source_quotes@.len() == i);
    }
    let mut i: usize = 0;
    while i < used_fx_rates.len()
        invariant
            i <= used_fx_rates@.len(),
            data.wf(),
            forall|k: int| 0 <= k < used_fx_rates@.len() ==> (#[trigger] used_fx_rates@[k]).rate.wf(),
            forall|t: (Seq<char>, Seq<char>, Seq<char>, Seq<char>)| #[trigger] record_set(records@).contains(t) == ((t == target_view(data.target) || t == taxonomy_view(data.taxonomy)) || (in_views(weights_at(data.weights@), data.weights@.len() as int, t)) || (in_views(categories_at(data.categories@), data.categories@.len() as int, t)) || (in_views(assets_at(data.assets@), data.assets@.len() as int, t)) || (in_holding_groups(data.holdings@, data.holdings@.len() as int, t)) || (in_views(classifications_at(data.source_assignments@, data.target.taxonomy_id@), data.source_assignments@.len() as int, t)) || (in_views(constraints_at(data.constraints@), data.constraints@.len() as int, t)) || (in_views(quotes_at(data.source_quotes@), data.source_quotes@.len() as int, t)) || in_views(fx_at(used_fx_rates@), i as int, t)),
        decreases used_fx_rates@.len() - i,
    {
        let ghost before = records@;
        records.push(fx_record(&used_fx_rates[i]));
        proof {
            lemma_record_set_push(before, records@.last());
            assert(records@ == before.push(records@.last()));
            assert(fx_at(used_fx_rates@)(i as int) == Some(record_view(records@.last())));
            assert forall|t: (Seq<char>, Seq<char>, Seq<char>, Seq<char>)| #[trigger] record_set(records@).contains(t) == ((t == target_view(data.target) || t == taxonomy_view(data.taxonomy)) || (in_views(weights_at(data.weights@), data.weights@.len() as int, t)) || (in_views(categories_at(data.categories@), data.categories@.len() as int, t)) || (in_views(assets_at(data.assets@), data.assets@.len() as int, t)) || (in_holding_groups(data.holdings@, data.holdings@.len() as int, t)) || (in_views(classifications_at(data.source_assignments@, data.target.taxonomy_id@), data.source_assignments@.len() as int, t)) || (in_views(constraints_at(data.constraints@), data.constraints@.len() as int, t)) || (in_views(quotes_at(data.source_quotes@), data.source_quotes@.len() as int, t)) || in_views(fx_at(used_fx_rates@), i + 1, t)) by {
                lemma_in_views_step(fx_at(used_fx_rates@), i as int, t);
            }
        }
        i = i + 1;
    }
    proof {
        assert(used_fx_rates@.len() == i);
    }
    let mut i: usize = 0;
    while i < data.drift.rows.len()
        invariant
            i <= data.drift.rows@.len(),
            data.wf(),
            forall|k: int| 0 <= k < used_fx_rates@.len() ==> (#[trigger] used_fx_rates@[k]).rate.wf(),
            forall|t: (Seq<char>, Seq<char>, Seq<char>, Seq<char>)| #[trigger] record_set(records@).contains(t) == ((t == target_view(data.target) || t == taxonomy_view(data.taxonomy)) || (in_views(weights_at(data.weights@), data.weights@.len() as int, t)) || (in_views(categories_at(data.categories@), data.categories@.len() as int, t)) || (in_views(assets_at(data.assets@), data.assets@.len() as int, t)) || (in_holding_groups(data.holdings@, data.holdings@.len() as int, t)) || (in_views(classifications_at(data.source_assignments@, data.target.taxonomy_id@), data.source_assignments@.len() as int, t)) || (in_views(constraints_at(data.constraints@), data.constraints@.len() as int, t)) || (in_views(quotes_at(data.source_quotes@), data.source_quotes@.len() as int, t)) || (in_views(fx_at(used_fx_rates@), used_fx_rates@.len() as int, t)) || in_views(drift_at(data.drift.rows@), i as int, t)),
        decreases data.drift.rows@.len() - i,
    {
        let ghost before = records@;
        assert(data.drift.rows@[i as int].current_value.wf());
        records.push(drift_row_record(&data.drift.rows[i]));
        proof {
            lemma_record_set_push(before, records@.last());
            assert(records@ == before.push(records@.last()));
            assert(drift_at(data.drift.rows@)(i as int) == Some(record_view(records@.last())));
            assert forall|t: (Seq<char>, Seq<char>, Seq<char>, Seq<char>)| #[trigger] record_set(records@).contains(t) == ((t == target_view(data.target) || t == taxonomy_view(data.taxonomy)) || (in_views(weights_at(data.weights@), data.weights@.len() as int, t)) || (in_views(categories_at(data.categories@), data.categories@.len() as int, t)) || (in_views(assets_at(data.assets@), data.assets@.len() as int, t)) || (in_holding_groups(data.holdings@, data.holdings@.len() as int, t)) || (in_views(classifications_at(data.source_assignments@, data.target.taxonomy_id@), data.source_assignments@.len() as int, t)) || (in_views(constraints_at(data.constraints@), data.constraints@.len() as int, t)) || (in_views(quotes_at(data.source_quotes@), data.source_quotes@.len() as int, t)) || (in_views(fx_at(used_fx_rates@), used_fx_rates@.len() as int, t)) || in_views(drift_at(data.drift.rows@), i + 1, t)) by {
                lemma_in_views_step(drift_at(data.drift.rows@), i as int, t);
            }
        }
        i = i + 1;
    }
    proof {
        assert(data.drift.rows@.len() == i);
    }
    records
}

/// Some reduction line among `lines` is of the position.
pub open spec fn reduces_position(lines: Seq<AllocationWorksheetLineResult>, account_id: Seq<char>, asset_id: Seq<char>) -> bool {
    exists|k: int| 0 <= k < lines.len() && #[trigger] is_reduction_of(lines[k], account_id, asset_id)
}

pub open spec fn is_reduction_of(line: AllocationWorksheetLineResult, account_id: Seq<char>, asset_id: Seq<char>) -> bool {
    line.direction == WorksheetDirection::Reduce && line.account_id@ == account_id && line.asset_id@ == asset_id
}

/// The quantity the reduction lines among `lines` take from a position,
/// added in order from zero (`None`: a `Decimal` overflow).
pub open spec fn position_reduced(lines: Seq<AllocationWorksheetLineResult>, account_id: Seq<char>, asset_id: Seq<char>) -> Option<Dec>
    decreases lines.len(),
{
    if lines.len() == 0 {
        Some(Dec::zero_spec())
    } else {
        match position_reduced(lines.drop_last(), account_id, asset_id) {
            None => None,
            Some(t) => if is_reduction_of(lines.last(), account_id, asset_id) {
                spec_add(t, lines.last().quantity)
            } else {
                Some(t)
            },
        }
    }
}

proof fn lemma_reduces_position_push(lines: Seq<AllocationWorksheetLineResult>, x: AllocationWorksheetLineResult, a: Seq<char>, b: Seq<char>)
    ensures
        reduces_position(lines.push(x), a, b) == (reduces_position(lines, a, b) || is_reduction_of(x, a, b)),
{
    let p = lines.push(x);
    if reduces_position(lines, a, b) {
        let k = choose|k: int| 0 <= k < lines.len() && #[trigger] is_reduction_of(lines[k], a, b);
        assert(p[k] == lines[k]);
        assert(is_reduction_of(p[k], a, b));
    }
    if is_reduction_of(x, a, b) {
        assert(p[lines.len() as int] == x);
        assert(is_reduction_of(p[lines.len() as int], a, b));
    }
    if reduces_position(p, a, b) && !is_reduction_of(x, a, b) {
        let k = choose|k: int| 0 <= k < p.len() && #[trigger] is_reduction_of(p[k], a, b);
        assert(k < lines.len());
        assert(p[k] == lines[k]);
        assert(is_reduction_of(lines[k], a, b));
    }
}

/// `(id, name)` pairs of the categories, in order.
pub open spec fn names_of_categories(names: Seq<(String, String)>, categories: Seq<TaxonomyCategory>) -> bool {
    &&& names.len() == categories.len()
    &&& forall|i: int| 0 <= i < names.len() ==> (#[trigger] names[i]).0@ == categories[i].id@ && names[i].1@ == categories[i].name@
}

/// The context in which a calculation on `data` prices its lines.
pub open spec fn context_of(ctx: LineContext, data: WorksheetData) -> bool {
    &&& *ctx.target == data.target
    &&& ctx.assets@ == data.assets@
    &&& ctx.snapshots@ == data.quote_snapshots@
    &&& ctx.assignments@ == data.assignments@
    &&& names_of_categories(ctx.category_names@, data.categories@)
    &&& ctx.fx_rates@ == data.fx_rates@
    &&& *ctx.base == data.base_currency
    &&& ctx.today == data.today
    &&& ctx.constraints@ == data.constraints@
    &&& ctx.holdings@ == data.holdings@
    &&& ctx.min_line_amount == min_line_amount_spec(data.target.min_trade_amount@)
}

/// The worksheet-wide warning of hypothetical cash.
pub open spec fn external_cash_warning(w: WorksheetWarning, external: Dec) -> bool {
    &&& w.id@ == "externalcontribution:worksheet:external-cash"@
    &&& w.kind == WorksheetWarningKind::ExternalContribution
    &&& w.line_id is None
    &&& w.message@ == "Includes "@ + decimal_text(external@) + " of hypothetical cash not currently recorded."@
}

/// The ids of the two worksheet-wide warnings, spelled out.
proof fn lemma_worksheet_warning_ids()
    ensures
        kind_key(WorksheetWarningKind::ExternalContribution) + ":"@ + "worksheet"@ + ":"@ + "external-cash"@ == "externalcontribution:worksheet:external-cash"@,
        kind_key(WorksheetWarningKind::TurnoverExceeded) + ":"@ + "worksheet"@ + ":"@ + "turnover"@ == "turnoverexceeded:worksheet:turnover"@,
{
    reveal_strlit("externalcontribution");
    reveal_strlit("turnoverexceeded");
    reveal_strlit("worksheet");
    reveal_strlit(":");
    reveal_strlit("external-cash");
    reveal_strlit("turnover");
    reveal_strlit("externalcontribution:worksheet:external-cash");
    reveal_strlit("turnoverexceeded:worksheet:turnover");
    assert(kind_key(WorksheetWarningKind::ExternalContribution) + ":"@ + "worksheet"@ + ":"@ + "external-cash"@ =~= "externalcontribution:worksheet:external-cash"@);
    assert(kind_key(WorksheetWarningKind::TurnoverExceeded) + ":"@ + "worksheet"@ + ":"@ + "turnover"@ =~= "turnoverexceeded:worksheet:turnover"@);
}

pub open spec fn has_external_cash_warning(warnings: Seq<WorksheetWarning>, external: Dec) -> bool {
    exists|i: int| 0 <= i < warnings.len() && external_cash_warning(#[trigger] warnings[i], external)
}

pub open spec fn has_warning_id(warnings: Seq<WorksheetWarning>, id: Seq<char>) -> bool {
    exists|i: int| 0 <= i < warnings.len() && (#[trigger] warnings[i]).id@ == id
}

/// Reductions take more of the current value than the target allows.
pub open spec fn turnover_exceeded(target: AllocationTarget, reduction_total: Dec, total_value: Dec) -> bool {
    &&& target.max_turnover_bps matches Some(m)
    &&& bps_spec(reduction_total, total_value) matches Some(t)
    &&& t > m
}

/// The warnings the lines add, line by line.
pub open spec fn lines_warnings(
    lines: Seq<AllocationWorksheetLineInput>,
    results: Seq<AllocationWorksheetLineResult>,
    ctx: LineContext,
    n: int,
) -> Seq<(WorksheetWarningKind, Option<Seq<char>>, Seq<char>, Seq<char>)>
    decreases n,
{
    if n <= 0 {
        Seq::empty()
    } else {
        lines_warnings(lines, results, ctx, n - 1) + priced_line_warnings(lines[n - 1], ctx, results[n - 1])
    }
}

proof fn lemma_lines_warnings_prefix(
    lines: Seq<AllocationWorksheetLineInput>,
    r1: Seq<AllocationWorksheetLineResult>,
    r2: Seq<AllocationWorksheetLineResult>,
    ctx: LineContext,
    n: int,
)
    requires
        0 <= n <= r1.len(),
        r1.len() <= r2.len(),
        forall|k: int| 0 <= k < r1.len() ==> r1[k] == r2[k],
    ensures
        lines_warnings(lines, r2, ctx, n) == lines_warnings(lines, r1, ctx, n),
    decreases n,
{
    if n > 0 {
        lemma_lines_warnings_prefix(lines, r1, r2, ctx, n - 1);
        assert(r1[n - 1] == r2[n - 1]);
    }
}

pub open spec fn external_cash_specs(external: Dec) -> Seq<(WorksheetWarningKind, Option<Seq<char>>, Seq<char>, Seq<char>)> {
    if external.units() > 0 {
        seq![(WorksheetWarningKind::ExternalContribution, None, "external-cash"@, "Includes "@ + decimal_text(external@) + " of hypothetical cash not currently recorded."@)]
    } else {
        Seq::empty()
    }
}

pub open spec fn turnover_specs(target: AllocationTarget, reduction_total: Dec, total_value: Dec) -> Seq<(WorksheetWarningKind, Option<Seq<char>>, Seq<char>, Seq<char>)> {
    match (target.max_turnover_bps, bps_spec(reduction_total, total_value)) {
        (Some(m), Some(t)) => if t > m {
            seq![(WorksheetWarningKind::TurnoverExceeded, None, "turnover"@, "Reductions equal "@ + int_text(t as int) + " bps of current value, above your "@ + int_text(m as int) + " bps worksheet guardrail."@)]
        } else {
            Seq::empty()
        },
        _ => Seq::empty(),
    }
}

/// The warnings of a worksheet before sorting: hypothetical cash, each
/// line's in order, and turnover beyond the target's guardrail.
pub open spec fn worksheet_warning_specs(
    input: CalculateAllocationWorksheetInput,
    data: WorksheetData,
    ctx: LineContext,
    res: AllocationWorksheetResult,
) -> Seq<(WorksheetWarningKind, Option<Seq<char>>, Seq<char>, Seq<char>)> {
    external_cash_specs(input.cash.external_contribution)
    + lines_warnings(input.lines@, res.lines@, ctx, res.lines@.len() as int)
    + turnover_specs(data.target, res.reduction_total, data.drift.total_value)
}

/// The warnings sorted by id from `all`, each id once, the first warning
/// with it kept.
pub open spec fn warnings_sorted_from(sorted: Seq<WorksheetWarning>, all: Seq<WorksheetWarning>) -> bool {
    &&& warnings_sorted(sorted)
    &&& warning_id_set(sorted) == warning_id_set(all)
    &&& forall|i: int| 0 <= i < sorted.len() ==> first_with_id(all, #[trigger] sorted[i])
}

/// A line is refused, before or after pricing, for one of its reasons,
/// the position it reduces having been reduced by `reductions` so far.
pub open spec fn line_refused(line: AllocationWorksheetLineInput, ctx: LineContext, e: CoreError, reductions: Seq<(String, String, Dec)>) -> bool {
    match line_refusal(line, ctx) {
        Some(m) => e is InvalidInput && e.message() == m,
        None => if line_fx_unreachable(line, ctx) {
            refused_with(Err(e), no_fx_rate_message(quote_currency(line_quote(line, ctx)), *ctx.base))
        } else {
            exists|v: (Dec, Option<WorksheetPricingSource>, Vec<ExchangeRate>)|
                #[trigger] fx_conversion(ctx.fx_rates@, quote_currency(line_quote(line, ctx)), *ctx.base, ctx.today, v)
                && line_outcome(line, ctx, reductions, v.0, Err(e))
        },
    }
}

/// The lines before `k` are priced as `prior`, and `reductions` holds what
/// they reduce of each position.
pub open spec fn priced_before(
    input: CalculateAllocationWorksheetInput,
    ctx: LineContext,
    k: int,
    prior: Seq<AllocationWorksheetLineResult>,
    reductions: Seq<(String, String, Dec)>,
) -> bool {
    &&& 0 <= k < input.lines@.len()
    &&& prior.len() == k
    &&& forall|j: int| 0 <= j < k ==> #[trigger] line_priced(prior[j], input.lines@[j], ctx)
    &&& forall|a: Seq<char>, b: Seq<char>| #[trigger] position_reduced(prior, a, b) == Some(reduced_so_far(reductions, a, b))
}

/// Every line is priced, as `results`.
pub open spec fn all_priced(input: CalculateAllocationWorksheetInput, ctx: LineContext, results: Seq<AllocationWorksheetLineResult>) -> bool {
    &&& results.len() == input.lines@.len()
    &&& forall|k: int| 0 <= k < results.len() ==> #[trigger] line_priced(results[k], input.lines@[k], ctx)
}

/// The line `k`, after the earlier lines are priced as `prior`, is refused.
pub open spec fn refused_after(
    input: CalculateAllocationWorksheetInput,
    ctx: LineContext,
    k: int,
    prior: Seq<AllocationWorksheetLineResult>,
    reductions: Seq<(String, String, Dec)>,
    e: CoreError,
) -> bool {
    priced_before(input, ctx, k, prior, reductions) && line_refused(input.lines@[k], ctx, e, reductions)
}

/// The priced lines `results` are refused: the increases are not funded,
/// or the first cash category would end below zero.
pub open spec fn totals_refused(
    input: CalculateAllocationWorksheetInput,
    data: WorksheetData,
    results: Seq<AllocationWorksheetLineResult>,
    e: CoreError,
) -> bool {
    match (direction_total(results, WorksheetDirection::Increase), direction_total(results, WorksheetDirection::Reduce)) {
        (Some(inc), Some(red)) => match cash_remaining_spec(input.cash.tracked_cash_to_use, input.cash.external_contribution, inc, red) {
            Some(Err(m)) => e is InvalidInput && e.message() == m,
            Some(Ok(_)) => e is InvalidInput && e.message() == "Worksheet would make the tracked cash category negative"@
                && cash_projected_negative(data.drift.rows@, results, input.cash.external_contribution, inc, red),
            None => false,
        },
        _ => false,
    }
}

/// Why a worksheet whose request and target are accepted is refused: a
/// line, after the lines before it are priced; or, every line priced,
/// unfunded increases or a cash category driven below zero.
pub open spec fn worksheet_refused(input: CalculateAllocationWorksheetInput, data: WorksheetData, e: CoreError) -> bool {
    exists|ctx: LineContext| #[trigger] context_of(ctx, data) && {
        ||| exists|k: int, prior: Seq<AllocationWorksheetLineResult>, reductions: Seq<(String, String, Dec)>|
            #[trigger] refused_after(input, ctx, k, prior, reductions, e)
        ||| exists|results: Seq<AllocationWorksheetLineResult>| #[trigger] totals_refused(input, data, results, e) && all_priced(input, ctx, results)
    }
}

/// A `Decimal` or `i32` operation of totalling and projecting the priced
/// lines `results` overflows.
pub open spec fn totals_overflow(
    input: CalculateAllocationWorksheetInput,
    data: WorksheetData,
    results: Seq<AllocationWorksheetLineResult>,
) -> bool {
    match (direction_total(results, WorksheetDirection::Increase), direction_total(results, WorksheetDirection::Reduce)) {
        (Some(inc), Some(red)) => {
            ||| cash_remaining_spec(input.cash.tracked_cash_to_use, input.cash.external_contribution, inc, red) is None
            ||| (data.target.max_turnover_bps is Some && bps_spec(red, data.drift.total_value) is None)
            ||| projection_overflows(data.drift.rows@, results, data.drift.total_value, data.weights@, input.cash.external_contribution, inc, red)
        },
        _ => true,
    }
}

/// Pricing the line `k`, after the earlier lines are priced as `prior`,
/// overflows.
pub open spec fn overflows_after(
    input: CalculateAllocationWorksheetInput,
    ctx: LineContext,
    k: int,
    prior: Seq<AllocationWorksheetLineResult>,
    reductions: Seq<(String, String, Dec)>,
) -> bool {
    priced_before(input, ctx, k, prior, reductions) && line_overflows(input.lines@[k], ctx, reductions)
}

/// A `Decimal` or `i32` operation of the worksheet overflows: pricing a
/// line after the lines before it, or totalling and projecting the priced
/// lines.
pub open spec fn worksheet_overflows(input: CalculateAllocationWorksheetInput, data: WorksheetData) -> bool {
    exists|ctx: LineContext| #[trigger] context_of(ctx, data) && {
        ||| exists|k: int, prior: Seq<AllocationWorksheetLineResult>, reductions: Seq<(String, String, Dec)>|
            #[trigger] overflows_after(input, ctx, k, prior, reductions)
        ||| exists|results: Seq<AllocationWorksheetLineResult>| #[trigger] totals_overflow(input, data, results) && all_priced(input, ctx, results)
    }
}

/// Why tracked cash is refused.
pub open spec fn tracked_cash_message(selected: Dec, deployable: Dec) -> Seq<char> {
    "Tracked cash selected ("@ + decimal_text(selected@) + ") exceeds observed deployable cash ("@ + decimal_text(deployable@) + ")"@
}

impl AllocationWorksheetService {
    /// Calculates a worksheet on recorded data.  The request is validated;
    /// the target must admit its reductions and the tracked cash must be
    /// observed.  Every line is priced in order (the first refused line is
    /// the error); no position is reduced by more than the units held; the
    /// increases must be funded by the selected cash and the reduction
    /// proceeds; the categories are projected, every category with a target
    /// or a value getting a row, the taxonomy's categories first in display
    /// order.  The warnings are those of the hypothetical
    /// cash, of each line and of the turnover guardrail, sorted by id, each
    /// id once; the source records are those of the data and of the rates
    /// used, sorted, each once.  The fingerprint is left empty
    /// (`with_source_fingerprint` sets it).  `None`: a `Decimal` or `i32`
    /// overflow.
    #[verifier::rlimit(100)]
    #[verifier::spinoff_prover]
    pub fn compute_worksheet(
        input: &CalculateAllocationWorksheetInput,
        data: &WorksheetData,
    ) -> (r: Option<Result<AllocationWorksheetResult, CoreError>>)
        requires
            input_wf(*input),
            data.wf(),
        ensures
            r matches Some(Err(e)) ==> e is InvalidInput,
            r is None ==> worksheet_overflows(*input, *data),
            r matches Some(Err(e)) && validate_input_spec(*input) is Ok
                && (data.target.allow_sells || forall|i: int| 0 <= i < input.lines@.len() ==> (#[trigger] input.lines@[i]).direction != WorksheetDirection::Reduce)
                && input.cash.tracked_cash_to_use.units() <= data.drift.deployable_cash.units()
                ==> worksheet_refused(*input, *data, r.unwrap()->Err_0),
            validate_input_spec(*input) matches Err(m) ==> (r matches Some(Err(e)) && e is InvalidInput && e.message() == m),
            validate_input_spec(*input) is Ok && !data.target.allow_sells && (exists|i: int| 0 <= i < input.lines@.len() && #[trigger] input.lines@[i].direction == WorksheetDirection::Reduce)
                ==> (r matches Some(Err(e)) && e is InvalidInput && e.message() == "This target disables reductions; enable reduction rows in worksheet guardrails"@),
            validate_input_spec(*input) is Ok && (data.target.allow_sells || forall|i: int| 0 <= i < input.lines@.len() ==> (#[trigger] input.lines@[i]).direction != WorksheetDirection::Reduce)
                && input.cash.tracked_cash_to_use.units() > data.drift.deployable_cash.units()
                ==> (r matches Some(Err(e)) && e is InvalidInput && e.message() == tracked_cash_message(input.cash.tracked_cash_to_use, data.drift.deployable_cash)),
            r matches Some(Ok(res)) ==> (input.cash.external_contribution.units() > 0 ==> has_external_cash_warning(res.warnings@, input.cash.external_contribution)),
            r matches Some(Ok(res)) ==> (turnover_exceeded(data.target, res.reduction_total, data.drift.total_value) ==> has_warning_id(res.warnings@, "turnoverexceeded:worksheet:turnover"@)),
            r matches Some(Ok(res)) ==> exists|ctx: LineContext, used: Seq<ExchangeRate>, convs: Seq<(Dec, Option<WorksheetPricingSource>, Vec<ExchangeRate>)>|
                #![trigger context_of(ctx, *data), used_by_lines(used, convs)]
                context_of(ctx, *data)
                && convs.len() == input.lines@.len()
                && (forall|k: int| 0 <= k < convs.len() ==> #[trigger] fx_conversion(data.fx_rates@, quote_currency(line_quote(input.lines@[k], ctx)), data.base_currency, data.today, convs[k]))
                && used_by_lines(used, convs)
                && rates_recorded(used, data.fx_rates@)
                && record_set(res.source_records@) == source_record_views(*data, used),
            r matches Some(Ok(res)) ==> forall|j: int| 0 <= j < res.categories@.len() ==> #[trigger] row_values_ok(res.categories@, j, data.drift.rows@, res.lines@, data.weights@, input.cash.external_contribution, res.increase_total, res.reduction_total),
            r matches Some(Ok(res)) ==> !cash_projected_negative(data.drift.rows@, res.lines@, input.cash.external_contribution, res.increase_total, res.reduction_total),
            r matches Some(Ok(res)) ==> exists|order: Seq<int>| #[trigger] display_order(data.categories@, order) && rows_in_display_order(res.categories@, data.categories@, order),
            r matches Some(Ok(res)) ==> forall|j: int| 0 <= j < res.categories@.len() ==> row_labels_ok(#[trigger] res.categories@[j], data.drift.rows@, data.categories@),
            r matches Some(Ok(res)) ==> forall|x: Seq<char>| #[trigger] row_needed(x, data.drift.rows@, res.lines@, data.weights@, input.cash.external_contribution, res.increase_total, res.reduction_total)
                ==> has_category_row(res.categories@, x),
            r matches Some(Ok(res)) ==> forall|j: int| 0 <= j < res.categories@.len() && !row_repeats(res.categories@, j)
                ==> row_needed((#[trigger] res.categories@[j]).category_id@, data.drift.rows@, res.lines@, data.weights@, input.cash.external_contribution, res.increase_total, res.reduction_total),
            r matches Some(Ok(res)) ==> forall|a: Seq<char>, b: Seq<char>| #[trigger] reduces_position(res.lines@, a, b) ==> {
                &&& position_reduced(res.lines@, a, b) matches Some(t)
                &&& owned_units(data.holdings@, a, b) matches Some(o)
                &&& t.units() <= o.units()
            },
            r matches Some(Ok(res)) ==> exists|ctx: LineContext| #[trigger] context_of(ctx, *data) && forall|k: int| 0 <= k < res.lines@.len() ==> line_priced(#[trigger] res.lines@[k], input.lines@[k], ctx),
            r matches Some(Ok(res)) ==> exists|ctx: LineContext, all: Seq<WorksheetWarning>|
                #![trigger context_of(ctx, *data), warnings_are(all, worksheet_warning_specs(*input, *data, ctx, res))]
                context_of(ctx, *data) && warnings_are(all, worksheet_warning_specs(*input, *data, ctx, res)) && warnings_sorted_from(res.warnings@, all),
            r matches Some(Ok(res)) ==> {
                &&& validate_input_spec(*input) is Ok
                &&& (data.target.allow_sells || forall|i: int| 0 <= i < input.lines@.len() ==> (#[trigger] input.lines@[i]).direction != WorksheetDirection::Reduce)
                &&& input.cash.tracked_cash_to_use.units() <= data.drift.deployable_cash.units()
                &&& res.lines@.len() == input.lines@.len()
                &&& (forall|i: int| 0 <= i < res.lines@.len() ==> result_echoes_line(#[trigger] res.lines@[i], input.lines@[i]))
                &&& direction_total(res.lines@, WorksheetDirection::Increase) == Some(res.increase_total)
                &&& direction_total(res.lines@, WorksheetDirection::Reduce) == Some(res.reduction_total)
                &&& cash_remaining_spec(input.cash.tracked_cash_to_use, input.cash.external_contribution, res.increase_total, res.reduction_total) matches Some(Ok(c))
                &&& c == res.cash_remaining
                &&& res.cash_remaining.units() >= 0
                &&& warnings_sorted(res.warnings@)
                &&& records_sorted(res.source_records@)
                &&& res.target_id@ == data.target.id@
                &&& res.target_name@ == data.target.name@
                &&& res.base_currency@ == input.base_currency@
                &&& res.calculated_at@ == data.calculated_at@
                &&& res.source_fingerprint@ == Seq::<char>::empty()
                &&& texts(res.resolved_account_ids@) == texts(input.account_ids@)
                &&& res.max_difference_bps_before == max_diff_or_zero(res.categories@, data.weights@, false)
                &&& res.max_difference_bps_after == max_diff_or_zero(res.categories@, data.weights@, true)
                &&& projected_total_spec(data.drift.total_value, input.cash.external_contribution, res.increase_total, res.reduction_total, has_cash_row(data.drift.rows@)) matches Some(pt)
                &&& forall|j: int| 0 <= j < res.categories@.len() ==> category_row_ok(#[trigger] res.categories@[j], data.drift.total_value, pt)
                &&& res.observed_tracked_cash == data.drift.deployable_cash
                &&& res.tracked_cash_to_use == input.cash.tracked_cash_to_use
                &&& res.external_contribution == input.cash.external_contribution
                &&& forall|i: int| 0 <= i < res.categories@.len() && (#[trigger] res.categories@[i]).category_id@ == UNKNOWN_CATEGORY_ID@ ==> i == res.categories@.len() - 1
            },
    {
        match Self::validate_worksheet_input(input) {
            Ok(_) => {},
            Err(e) => return Some(Err(e)),
        }
        let target = &data.target;
        match Self::check_target(input, Some(target)) {
            Ok(_) => {},
            Err(e) => return Some(Err(e)),
        }
        match Self::check_tracked_cash(input.cash.tracked_cash_to_use, data.drift.deployable_cash) {
            Ok(_) => {},
            Err(e) => return Some(Err(e)),
        }
        let mut state = LineState { warnings: Vec::new(), reductions: Vec::new(), used_fx_rates: Vec::new() };
        let zero = Dec::zero();
        if dec_lt(zero, input.cash.external_contribution) {
            let mut m = String::from_str("Includes ");
            m.append(dec_to_string(input.cash.external_contribution).as_str());
            m.append(" of hypothetical cash not currently recorded.");
            state.warnings.push(Self::warning(WorksheetWarningKind::ExternalContribution, None, "external-cash", m));
            proof {
                lemma_worksheet_warning_ids();
            }
            assert(external_cash_warning(state.warnings@[0], input.cash.external_contribution));
            assert(warning_is(state.warnings@[0], external_cash_specs(input.cash.external_contribution)[0]));
        }
        proof {
            crate::decimal::lemma_units_sign(Dec::zero_spec());
        }
        assert(warnings_are(state.warnings@, external_cash_specs(input.cash.external_contribution)));
        let min_line_amount = match dec_parse(target.min_trade_amount.as_str()) {
            Some(v) => dec_max_zero(v),
            None => Dec::zero(),
        };
        let names = category_names_of(data.categories.as_slice());
        let ctx = LineContext {
            target,
            assets: data.assets.as_slice(),
            snapshots: data.quote_snapshots.as_slice(),
            assignments: data.assignments.as_slice(),
            category_names: names.as_slice(),
            fx_rates: data.fx_rates.as_slice(),
            base: &data.base_currency,
            today: data.today,
            constraints: data.constraints.as_slice(),
            holdings: data.holdings.as_slice(),
            min_line_amount,
        };
        let mut results: Vec<AllocationWorksheetLineResult> = Vec::new();
        let ghost mut convs: Seq<(Dec, Option<WorksheetPricingSource>, Vec<ExchangeRate>)> = Seq::empty();
        let mut i: usize = 0;
        while i < input.lines.len()
            invariant
                i <= input.lines@.len(),
                input_wf(*input),
                ctx.wf(),
                state.wf(),
                results@.len() == i,
                forall|k: int| 0 <= k < i ==> line_priced(#[trigger] results@[k], input.lines@[k], ctx),
                results_wf(results@),
                ctx.holdings@ == data.holdings@,
                ctx.fx_rates@ == data.fx_rates@,
                rates_recorded(state.used_fx_rates@, data.fx_rates@),
                warnings_are(state.warnings@, external_cash_specs(input.cash.external_contribution) + lines_warnings(input.lines@, results@, ctx, i as int)),
                input.cash.external_contribution.units() > 0 ==> state.warnings@.len() > 0 && external_cash_warning(state.warnings@[0], input.cash.external_contribution),
                forall|a: Seq<char>, b: Seq<char>| #[trigger] position_reduced(results@, a, b) == Some(reduced_so_far(state.reductions@, a, b)),
                forall|a: Seq<char>, b: Seq<char>| #[trigger] reduces_position(results@, a, b) ==> {
                    &&& owned_units(data.holdings@, a, b) matches Some(o)
                    &&& reduced_so_far(state.reductions@, a, b).units() <= o.units()
                },
                validate_input_spec(*input) is Ok,
                data.target.allow_sells || forall|k: int| 0 <= k < input.lines@.len() ==> (#[trigger] input.lines@[k]).direction != WorksheetDirection::Reduce,
                input.cash.tracked_cash_to_use.units() <= data.drift.deployable_cash.units(),
                data.wf(),
                context_of(ctx, *data),
                convs.len() == i,
                forall|k: int| 0 <= k < i ==> #[trigger] fx_conversion(data.fx_rates@, quote_currency(line_quote(input.lines@[k], ctx)), data.base_currency, data.today, convs[k]),
                used_by_lines(state.used_fx_rates@, convs),
            decreases input.lines@.len() - i,
        {
            assert(input.lines@[i as int].value.wf());
            let ghost results0 = results@;
            let ghost reductions0 = state.reductions@;
            let ghost warnings0 = state.warnings@;
            let ghost used0 = state.used_fx_rates@;
            let ghost reductions_before = state.reductions@;
            match Self::price_line(&input.lines[i], &ctx, &mut state) {
                None => {
                    assert(overflows_after(*input, ctx, i as int, results@, reductions_before));
                    assert(worksheet_overflows(*input, *data));
                    return None;
                },
                Some(Err(e)) => {
                    proof {
                        assert(line_refused(input.lines@[i as int], ctx, e, reductions_before));
                        assert(refused_after(*input, ctx, i as int, results@, reductions_before, e));
                        assert(context_of(ctx, *data));
                    }
                    return Some(Err(e));
                },
                Some(Ok(res)) => {
                    let ghost line = input.lines@[i as int];
                    proof {
                        let v = choose|v: (Dec, Option<WorksheetPricingSource>, Vec<ExchangeRate>)|
                            #[trigger] fx_conversion(ctx.fx_rates@, quote_currency(line_quote(line, ctx)), *ctx.base, ctx.today, v)
                            && used_step(used0, state.used_fx_rates@, v.2@);
                        lemma_used_by_lines_step(used0, state.used_fx_rates@, convs, v);
                        let c0 = convs;
                        convs = convs.push(v);
                        assert forall|k: int| 0 <= k < i + 1 implies #[trigger] fx_conversion(data.fx_rates@, quote_currency(line_quote(input.lines@[k], ctx)), data.base_currency, data.today, convs[k]) by {
                            if k < i {
                                assert(convs[k] == c0[k]);
                            }
                        }
                    }
                    results.push(res);
                    proof {
                        let e = external_cash_specs(input.cash.external_contribution);
                        assert(results@.drop_last() =~= results0);
                        assert forall|n: int| 0 <= n <= i implies lines_warnings(input.lines@, results@, ctx, n) == lines_warnings(input.lines@, results0, ctx, n) by {
                            lemma_lines_warnings_prefix(input.lines@, results0, results@, ctx, n);
                        }
                        assert(lines_warnings(input.lines@, results@, ctx, i + 1) == lines_warnings(input.lines@, results0, ctx, i as int) + priced_line_warnings(line, ctx, res));
                        let before = warnings0;
                        let added = state.warnings@.subrange(before.len() as int, state.warnings@.len() as int);
                        assert(state.warnings@ =~= before + added);
                        lemma_warnings_are_concat(before, e + lines_warnings(input.lines@, results0, ctx, i as int), added, priced_line_warnings(line, ctx, res));
                        assert(e + lines_warnings(input.lines@, results@, ctx, i + 1) =~= (e + lines_warnings(input.lines@, results0, ctx, i as int)) + priced_line_warnings(line, ctx, res));
                    }
                    proof {
                        assert(results@.drop_last() =~= results0);
                        assert forall|a: Seq<char>, b: Seq<char>| #[trigger] position_reduced(results@, a, b) == Some(reduced_so_far(state.reductions@, a, b)) by {
                            assert(position_reduced(results0, a, b) == Some(reduced_so_far(reductions0, a, b)));
                        }
                        assert forall|a: Seq<char>, b: Seq<char>| #[trigger] reduces_position(results@, a, b) implies {
                            &&& owned_units(data.holdings@, a, b) matches Some(o)
                            &&& reduced_so_far(state.reductions@, a, b).units() <= o.units()
                        } by {
                            lemma_reduces_position_push(results0, res, a, b);
                            if is_reduction_of(res, a, b) {
                                assert(line.direction == WorksheetDirection::Reduce);
                                assert(line.account_id@ == a && line.asset_id@ == b);
                            } else {
                                assert(reduces_position(results0, a, b));
                                assert(reduced_so_far(state.reductions@, a, b) == reduced_so_far(reductions0, a, b));
                            }
                        }
                    }
                },
            }
            proof {
                assert forall|k: int| 0 <= k < i + 1 implies line_priced(#[trigger] results@[k], input.lines@[k], ctx) by {
                    if k < i {
                        assert(results@[k] == results0[k]);
                    }
                }
                assert forall|k: int| 0 <= k < i + 1 implies result_wf(#[trigger] results@[k]) by {
                    if k < i {
                        assert(results@[k] == results0[k]);
                    }
                }
            }
            i = i + 1;
        }
        assert(context_of(ctx, *data));
        let ghost priced = results@;
        let increase_total = match Self::direction_total(results.as_slice(), WorksheetDirection::Increase) {
            Some(x) => x,
            None => {
                assert(totals_overflow(*input, *data, priced));
                return None;
            },
        };
        let reduction_total = match Self::direction_total(results.as_slice(), WorksheetDirection::Reduce) {
            Some(x) => x,
            None => {
                assert(totals_overflow(*input, *data, priced));
                return None;
            },
        };
        let cash_remaining = match Self::checked_cash_remaining(
            input.cash.tracked_cash_to_use,
            input.cash.external_contribution,
            increase_total,
            reduction_total,
        ) {
            None => {
                assert(totals_overflow(*input, *data, priced));
                return None;
            },
            Some(Err(e)) => {
                assert(totals_refused(*input, *data, priced, e));
                return Some(Err(e));
            },
            Some(Ok(x)) => x,
        };
        let ghost warnings_before_turnover = state.warnings@;
        let ghost specs_before_turnover = external_cash_specs(input.cash.external_contribution) + lines_warnings(input.lines@, results@, ctx, results@.len() as int);
        assert(warnings_are(warnings_before_turnover, specs_before_turnover));
        match target.max_turnover_bps {
            Some(max_turnover) => {
                let turnover = match Self::checked_bps(reduction_total, data.drift.total_value) {
                    Some(x) => x,
                    None => {
                        assert(totals_overflow(*input, *data, priced));
                        return None;
                    },
                };
                if turnover > max_turnover {
                    let mut m = String::from_str("Reductions equal ");
                    m.append(i64_string(turnover as i64).as_str());
                    m.append(" bps of current value, above your ");
                    m.append(i64_string(max_turnover as i64).as_str());
                    m.append(" bps worksheet guardrail.");
                    state.warnings.push(Self::warning(WorksheetWarningKind::TurnoverExceeded, None, "turnover", m));
                    proof {
                        lemma_worksheet_warning_ids();
                    }
                    assert(state.warnings@.last().id@ == "turnoverexceeded:worksheet:turnover"@);
                    proof {
                        let t = turnover_specs(data.target, reduction_total, data.drift.total_value);
                        assert(warning_is(state.warnings@.last(), t[0]));
                        assert(state.warnings@ =~= warnings_before_turnover.push(state.warnings@.last()));
                        lemma_warnings_are_push(warnings_before_turnover, specs_before_turnover, state.warnings@.last(), t[0]);
                        assert(specs_before_turnover.push(t[0]) =~= specs_before_turnover + t);
                    }
                } else {
                    assert(turnover_specs(data.target, reduction_total, data.drift.total_value) =~= Seq::empty());
                    assert(specs_before_turnover + turnover_specs(data.target, reduction_total, data.drift.total_value) =~= specs_before_turnover);
                }
            },
            None => {
                assert(turnover_specs(data.target, reduction_total, data.drift.total_value) =~= Seq::empty());
                assert(specs_before_turnover + turnover_specs(data.target, reduction_total, data.drift.total_value) =~= specs_before_turnover);
            },
        }
        assert(warnings_are(state.warnings@, specs_before_turnover + turnover_specs(data.target, reduction_total, data.drift.total_value)));
        let projection = match Self::project_categories(
            results.as_slice(),
            &data.drift,
            data.categories.as_slice(),
            data.weights.as_slice(),
            input.cash.external_contribution,
            increase_total,
            reduction_total,
        ) {
            None => {
                assert(totals_overflow(*input, *data, priced));
                return None;
            },
            Some(Err(e)) => {
                assert(totals_refused(*input, *data, priced, e));
                return Some(Err(e));
            },
            Some(Ok(p)) => p,
        };
        let records = collect_source_records(data, &state.used_fx_rates);
        let source_records = Self::sort_source_records(records);
        assert(rates_recorded(state.used_fx_rates@, data.fx_rates@) && record_set(source_records@) == source_record_views(*data, state.used_fx_rates@));
        let ghost all_warnings = state.warnings@;
        assert(turnover_exceeded(data.target, reduction_total, data.drift.total_value) ==> exists|i: int| 0 <= i < all_warnings.len() && (#[trigger] all_warnings[i]).id@ == "turnoverexceeded:worksheet:turnover"@) by {
            if turnover_exceeded(data.target, reduction_total, data.drift.total_value) {
                assert(all_warnings[all_warnings.len() - 1].id@ == "turnoverexceeded:worksheet:turnover"@);
            }
        }
        let warnings = Self::sort_warnings(state.warnings);
        proof {
            if turnover_exceeded(data.target, reduction_total, data.drift.total_value) {
                let i = choose|i: int| 0 <= i < all_warnings.len() && (#[trigger] all_warnings[i]).id@ == "turnoverexceeded:worksheet:turnover"@;
                assert(warning_id_set(all_warnings).contains(all_warnings[i].id@));
                assert(warning_id_set(warnings@).contains("turnoverexceeded:worksheet:turnover"@));
                let k = choose|k: int| 0 <= k < warnings@.len() && warnings@[k].id@ == "turnoverexceeded:worksheet:turnover"@;
                assert(0 <= k < warnings@.len() && (#[trigger] warnings@[k]).id@ == "turnoverexceeded:worksheet:turnover"@);
            }
            if input.cash.external_contribution.units() > 0 {
                let id = all_warnings[0].id@;
                assert(warning_id_set(all_warnings).contains(id));
                assert(warning_id_set(warnings@).contains(id));
                let i = choose|i: int| 0 <= i < warnings@.len() && warnings@[i].id@ == id;
                assert(first_with_id(all_warnings, warnings@[i]));
                let j = choose|j: int| 0 <= j < all_warnings.len() && all_warnings[j] == warnings@[i] && forall|k: int| 0 <= k < j ==> (#[trigger] all_warnings[k]).id@ != warnings@[i].id@;
                if j > 0 {
                    assert(all_warnings[0].id@ != warnings@[i].id@);
                }
                assert(warnings@[i] == all_warnings[0]);
                assert(external_cash_warning(warnings@[i], input.cash.external_contribution));
                assert(exists|i: int| 0 <= i < warnings@.len() && external_cash_warning(#[trigger] warnings@[i], input.cash.external_contribution));
            }
        }
        let account_ids = copy_texts(&input.account_ids);
        assert(warnings_sorted_from(warnings@, all_warnings));
        assert(warnings_are(all_warnings, external_cash_specs(input.cash.external_contribution) + lines_warnings(input.lines@, results@, ctx, results@.len() as int) + turnover_specs(data.target, reduction_total, data.drift.total_value)));
        assert(input.cash.external_contribution.units() > 0 ==> has_external_cash_warning(warnings@, input.cash.external_contribution));
        assert(turnover_exceeded(data.target, reduction_total, data.drift.total_value) ==> has_warning_id(warnings@, "turnoverexceeded:worksheet:turnover"@));
        let res = AllocationWorksheetResult {
            target_id: target.id.clone(),
            target_name: target.name.clone(),
            base_currency: input.base_currency.clone(),
            calculated_at: data.calculated_at.clone(),
            source_fingerprint: String::new(),
            resolved_account_ids: account_ids,
            observed_tracked_cash: data.drift.deployable_cash,
            tracked_cash_to_use: input.cash.tracked_cash_to_use,
            external_contribution: input.cash.external_contribution,
            increase_total,
            reduction_total,
            cash_remaining,
            max_difference_bps_before: projection.max_difference_bps_before,
            max_difference_bps_after: projection.max_difference_bps_after,
            lines: results,
            categories: projection.categories,
            warnings,
            source_records,
        };
        assert(warnings_are(all_warnings, worksheet_warning_specs(*input, *data, ctx, res)));
        assert(context_of(ctx, *data));
        Some(Ok(res))
    }

    /// The result with its fingerprint: the SHA-256 digest, in lower-case
    /// hexadecimal, of the serialized request and source records.
    pub fn with_source_fingerprint(result: AllocationWorksheetResult, serialized: &[u8]) -> (r: AllocationWorksheetResult)
        ensures
            r.source_fingerprint@ == hex_lower(sha256_digest(serialized@)),
            r.lines == result.lines,
            r.warnings == result.warnings,
            r.source_records == result.source_records,
    {
        let mut r = result;
        r.source_fingerprint = Self::source_fingerprint(serialized);
        r
    }
}

} // verus!
