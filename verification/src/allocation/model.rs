//! The allocation target model: targets, weights, constraints, drift rows and
//! the user-authored worksheet's inputs and results.

use vstd::prelude::*;
use crate::decimal::Dec;
use crate::text::str_eq;

verus! {

/// The scope a target applies to.
#[derive(Clone, Copy, Debug, PartialEq, Eq, Structural)]
pub enum ScopeType {
    All,
    Portfolio,
    Account,
}

impl ScopeType {
    pub open spec fn as_str_spec(self) -> Seq<char> {
        match self {
            ScopeType::All => "all"@,
            ScopeType::Portfolio => "portfolio"@,
            ScopeType::Account => "account"@,
        }
    }

    pub open spec fn from_code_spec(s: Seq<char>) -> Option<ScopeType> {
        if s == "all"@ {
            Some(ScopeType::All)
        } else if s == "portfolio"@ {
            Some(ScopeType::Portfolio)
        } else if s == "account"@ {
            Some(ScopeType::Account)
        } else {
            None
        }
    }

    /// The stored code of the value.
    pub fn as_str(&self) -> (r: &'static str)
        ensures
            r@ == self.as_str_spec(),
    {
        match self {
            ScopeType::All => "all",
            ScopeType::Portfolio => "portfolio",
            ScopeType::Account => "account",
        }
    }

    /// Reads a stored code; any other text is an error naming it.
    pub fn try_from(s: &str) -> (r: Result<ScopeType, String>)
        ensures
            match r {
                Ok(x) => ScopeType::from_code_spec(s@) == Some(x),
                Err(e) => ScopeType::from_code_spec(s@) is None && e@ == "unknown scope type: "@ + s@,
            },
    {
        if str_eq(s, "all") {
            Ok(ScopeType::All)
        } else if str_eq(s, "portfolio") {
            Ok(ScopeType::Portfolio)
        } else if str_eq(s, "account") {
            Ok(ScopeType::Account)
        } else {
            let mut e = String::from_str("unknown scope type: ");
            e.append(s);
            Err(e)
        }
    }
}

/// Reading the stored code of a `ScopeType` gives the value back.
pub proof fn law_scope_type_code_round_trip(x: ScopeType)
    ensures
        ScopeType::from_code_spec(x.as_str_spec()) == Some(x),
{
    reveal_strlit("all");
    reveal_strlit("portfolio");
    reveal_strlit("account");
    assert("all"@.len() != "portfolio"@.len());
    assert("all"@.len() != "account"@.len());
    assert("portfolio"@.len() != "account"@.len());
}

/// What triggers a rebalance review.
#[derive(Clone, Copy, Debug, PartialEq, Eq, Structural)]
pub enum TriggerType {
    Manual,
    Threshold,
}

impl TriggerType {
    pub open spec fn as_str_spec(self) -> Seq<char> {
        match self {
            TriggerType::Manual => "manual"@,
            TriggerType::Threshold => "threshold"@,
        }
    }

    pub open spec fn from_code_spec(s: Seq<char>) -> Option<TriggerType> {
        if s == "manual"@ {
            Some(TriggerType::Manual)
        } else if s == "threshold"@ {
            Some(TriggerType::Threshold)
        } else {
            None
        }
    }

    /// The stored code of the value.
    pub fn as_str(&self) -> (r: &'static str)
        ensures
            r@ == self.as_str_spec(),
    {
        match self {
            TriggerType::Manual => "manual",
            TriggerType::Threshold => "threshold",
        }
    }

    /// Reads a stored code; any other text is an error naming it.
    pub fn try_from(s: &str) -> (r: Result<TriggerType, String>)
        ensures
            match r {
                Ok(x) => TriggerType::from_code_spec(s@) == Some(x),
                Err(e) => TriggerType::from_code_spec(s@) is None && e@ == "unknown trigger type: "@ + s@,
            },
    {
        if str_eq(s, "manual") {
            Ok(TriggerType::Manual)
        } else if str_eq(s, "threshold") {
            Ok(TriggerType::Threshold)
        } else {
            let mut e = String::from_str("unknown trigger type: ");
            e.append(s);
            Err(e)
        }
    }
}

/// Reading the stored code of a `TriggerType` gives the value back.
pub proof fn law_trigger_type_code_round_trip(x: TriggerType)
    ensures
        TriggerType::from_code_spec(x.as_str_spec()) == Some(x),
{
    reveal_strlit("manual");
    reveal_strlit("threshold");
    assert("manual"@.len() != "threshold"@.len());
}

/// How the tolerance band around a target weight is sized.
#[derive(Clone, Copy, Debug, PartialEq, Eq, Structural)]
pub enum BandType {
    Absolute,
    Hybrid,
}

impl BandType {
    pub open spec fn as_str_spec(self) -> Seq<char> {
        match self {
            BandType::Absolute => "absolute"@,
            BandType::Hybrid => "hybrid"@,
        }
    }

    pub open spec fn from_code_spec(s: Seq<char>) -> Option<BandType> {
        if s == "absolute"@ {
            Some(BandType::Absolute)
        } else if s == "hybrid"@ {
            Some(BandType::Hybrid)
        } else {
            None
        }
    }

    /// The stored code of the value.
    pub fn as_str(&self) -> (r: &'static str)
        ensures
            r@ == self.as_str_spec(),
    {
        match self {
            BandType::Absolute => "absolute",
            BandType::Hybrid => "hybrid",
        }
    }

    /// Reads a stored code; any other text is an error naming it.
    pub fn try_from(s: &str) -> (r: Result<BandType, String>)
        ensures
            match r {
                Ok(x) => BandType::from_code_spec(s@) == Some(x),
                Err(e) => BandType::from_code_spec(s@) is None && e@ == "unknown band type: "@ + s@,
            },
    {
        if str_eq(s, "absolute") {
            Ok(BandType::Absolute)
        } else if str_eq(s, "hybrid") {
            Ok(BandType::Hybrid)
        } else {
            let mut e = String::from_str("unknown band type: ");
            e.append(s);
            Err(e)
        }
    }
}

/// Reading the stored code of a `BandType` gives the value back.
pub proof fn law_band_type_code_round_trip(x: BandType)
    ensures
        BandType::from_code_spec(x.as_str_spec()) == Some(x),
{
    reveal_strlit("absolute");
    reveal_strlit("hybrid");
    assert("absolute"@.len() != "hybrid"@.len());
}

/// How far a rebalance moves a category.
#[derive(Clone, Copy, Debug, PartialEq, Eq, Structural)]
pub enum RebalanceGoal {
    NearestBand,
    ExactTarget,
}

impl RebalanceGoal {
    pub open spec fn as_str_spec(self) -> Seq<char> {
        match self {
            RebalanceGoal::NearestBand => "nearest_band"@,
            RebalanceGoal::ExactTarget => "exact_target"@,
        }
    }

    pub open spec fn from_code_spec(s: Seq<char>) -> Option<RebalanceGoal> {
        if s == "nearest_band"@ {
            Some(RebalanceGoal::NearestBand)
        } else if s == "exact_target"@ {
            Some(RebalanceGoal::ExactTarget)
        } else {
            None
        }
    }

    /// The stored code of the value.
    pub fn as_str(&self) -> (r: &'static str)
        ensures
            r@ == self.as_str_spec(),
    {
        match self {
            RebalanceGoal::NearestBand => "nearest_band",
            RebalanceGoal::ExactTarget => "exact_target",
        }
    }

    /// Reads a stored code; any other text is an error naming it.
    pub fn try_from(s: &str) -> (r: Result<RebalanceGoal, String>)
        ensures
            match r {
                Ok(x) => RebalanceGoal::from_code_spec(s@) == Some(x),
                Err(e) => RebalanceGoal::from_code_spec(s@) is None && e@ == "unknown rebalance goal: "@ + s@,
            },
    {
        if str_eq(s, "nearest_band") {
            Ok(RebalanceGoal::NearestBand)
        } else if str_eq(s, "exact_target") {
            Ok(RebalanceGoal::ExactTarget)
        } else {
            let mut e = String::from_str("unknown rebalance goal: ");
            e.append(s);
            Err(e)
        }
    }
}

/// Reading the stored code of a `RebalanceGoal` gives the value back.
pub proof fn law_rebalance_goal_code_round_trip(x: RebalanceGoal)
    ensures
        RebalanceGoal::from_code_spec(x.as_str_spec()) == Some(x),
{
    reveal_strlit("nearest_band");
    reveal_strlit("exact_target");
    assert("nearest_band"@[0] != "exact_target"@[0]);
}

/// What a worksheet constraint applies to.
#[derive(Clone, Copy, Debug, PartialEq, Eq, Structural)]
pub enum ConstraintSubjectType {
    Asset,
    Account,
    Category,
}

impl ConstraintSubjectType {
    pub open spec fn as_str_spec(self) -> Seq<char> {
        match self {
            ConstraintSubjectType::Asset => "asset"@,
            ConstraintSubjectType::Account => "account"@,
            ConstraintSubjectType::Category => "category"@,
        }
    }

    pub open spec fn from_code_spec(s: Seq<char>) -> Option<ConstraintSubjectType> {
        if s == "asset"@ {
            Some(ConstraintSubjectType::Asset)
        } else if s == "account"@ {
            Some(ConstraintSubjectType::Account)
        } else if s == "category"@ {
            Some(ConstraintSubjectType::Category)
        } else {
            None
        }
    }

    /// The stored code of the value.
    pub fn as_str(&self) -> (r: &'static str)
        ensures
            r@ == self.as_str_spec(),
    {
        match self {
            ConstraintSubjectType::Asset => "asset",
            ConstraintSubjectType::Account => "account",
            ConstraintSubjectType::Category => "category",
        }
    }

    /// Reads a stored code; any other text is an error naming it.
    pub fn try_from(s: &str) -> (r: Result<ConstraintSubjectType, String>)
        ensures
            match r {
                Ok(x) => ConstraintSubjectType::from_code_spec(s@) == Some(x),
                Err(e) => ConstraintSubjectType::from_code_spec(s@) is None && e@ == "unknown constraint subject type: "@ + s@,
            },
    {
        if str_eq(s, "asset") {
            Ok(ConstraintSubjectType::Asset)
        } else if str_eq(s, "account") {
            Ok(ConstraintSubjectType::Account)
        } else if str_eq(s, "category") {
            Ok(ConstraintSubjectType::Category)
        } else {
            let mut e = String::from_str("unknown constraint subject type: ");
            e.append(s);
            Err(e)
        }
    }
}

/// Reading the stored code of a `ConstraintSubjectType` gives the value back.
pub proof fn law_constraint_subject_type_code_round_trip(x: ConstraintSubjectType)
    ensures
        ConstraintSubjectType::from_code_spec(x.as_str_spec()) == Some(x),
{
    reveal_strlit("asset");
    reveal_strlit("account");
    reveal_strlit("category");
    assert("asset"@.len() != "account"@.len());
    assert("asset"@.len() != "category"@.len());
    assert("account"@.len() != "category"@.len());
}

/// Which worksheet direction a constraint applies to.
#[derive(Clone, Copy, Debug, PartialEq, Eq, Structural)]
pub enum ConstraintAction {
    Buy,
    Sell,
    Trade,
}

impl ConstraintAction {
    pub open spec fn as_str_spec(self) -> Seq<char> {
        match self {
            ConstraintAction::Buy => "buy"@,
            ConstraintAction::Sell => "sell"@,
            ConstraintAction::Trade => "trade"@,
        }
    }

    pub open spec fn from_code_spec(s: Seq<char>) -> Option<ConstraintAction> {
        if s == "buy"@ {
            Some(ConstraintAction::Buy)
        } else if s == "sell"@ {
            Some(ConstraintAction::Sell)
        } else if s == "trade"@ {
            Some(ConstraintAction::Trade)
        } else {
            None
        }
    }

    /// The stored code of the value.
    pub fn as_str(&self) -> (r: &'static str)
        ensures
            r@ == self.as_str_spec(),
    {
        match self {
            ConstraintAction::Buy => "buy",
            ConstraintAction::Sell => "sell",
            ConstraintAction::Trade => "trade",
        }
    }

    /// Reads a stored code; any other text is an error naming it.
    pub fn try_from(s: &str) -> (r: Result<ConstraintAction, String>)
        ensures
            match r {
                Ok(x) => ConstraintAction::from_code_spec(s@) == Some(x),
                Err(e) => ConstraintAction::from_code_spec(s@) is None && e@ == "unknown constraint action: "@ + s@,
            },
    {
        if str_eq(s, "buy") {
            Ok(ConstraintAction::Buy)
        } else if str_eq(s, "sell") {
            Ok(ConstraintAction::Sell)
        } else if str_eq(s, "trade") {
            Ok(ConstraintAction::Trade)
        } else {
            let mut e = String::from_str("unknown constraint action: ");
            e.append(s);
            Err(e)
        }
    }
}

/// Reading the stored code of a `ConstraintAction` gives the value back.
pub proof fn law_constraint_action_code_round_trip(x: ConstraintAction)
    ensures
        ConstraintAction::from_code_spec(x.as_str_spec()) == Some(x),
{
    reveal_strlit("buy");
    reveal_strlit("sell");
    reveal_strlit("trade");
    assert("buy"@.len() != "sell"@.len());
    assert("buy"@.len() != "trade"@.len());
    assert("sell"@.len() != "trade"@.len());
}

/// Whether a matching constraint blocks the worksheet or warns.
#[derive(Clone, Copy, Debug, PartialEq, Eq, Structural)]
pub enum ConstraintEffect {
    Block,
    Avoid,
}

impl ConstraintEffect {
    pub open spec fn as_str_spec(self) -> Seq<char> {
        match self {
            ConstraintEffect::Block => "block"@,
            ConstraintEffect::Avoid => "avoid"@,
        }
    }

    pub open spec fn from_code_spec(s: Seq<char>) -> Option<ConstraintEffect> {
        if s == "block"@ {
            Some(ConstraintEffect::Block)
        } else if s == "avoid"@ {
            Some(ConstraintEffect::Avoid)
        } else {
            None
        }
    }

    /// The stored code of the value.
    pub fn as_str(&self) -> (r: &'static str)
        ensures
            r@ == self.as_str_spec(),
    {
        match self {
            ConstraintEffect::Block => "block",
            ConstraintEffect::Avoid => "avoid",
        }
    }

    /// Reads a stored code; any other text is an error naming it.
    pub fn try_from(s: &str) -> (r: Result<ConstraintEffect, String>)
        ensures
            match r {
                Ok(x) => ConstraintEffect::from_code_spec(s@) == Some(x),
                Err(e) => ConstraintEffect::from_code_spec(s@) is None && e@ == "unknown constraint effect: "@ + s@,
            },
    {
        if str_eq(s, "block") {
            Ok(ConstraintEffect::Block)
        } else if str_eq(s, "avoid") {
            Ok(ConstraintEffect::Avoid)
        } else {
            let mut e = String::from_str("unknown constraint effect: ");
            e.append(s);
            Err(e)
        }
    }
}

/// Reading the stored code of a `ConstraintEffect` gives the value back.
pub proof fn law_constraint_effect_code_round_trip(x: ConstraintEffect)
    ensures
        ConstraintEffect::from_code_spec(x.as_str_spec()) == Some(x),
{
    reveal_strlit("block");
    reveal_strlit("avoid");
    assert("block"@[0] != "avoid"@[0]);
}


impl Default for BandType {
    fn default() -> (r: BandType)
        ensures
            r == BandType::Absolute,
    {
        BandType::Absolute
    }
}

/// Integer division rounding towards zero, as `/` on Rust integers does.
pub open spec fn trunc_div(a: int, b: int) -> int {
    if a >= 0 {
        a / b
    } else {
        -((-a) / b)
    }
}

impl BandType {
    /// The relative band of a target weight: `target_bps × factor / 10000`,
    /// rounded towards zero.
    pub open spec fn relative_band(target_bps: i32, relative_factor_bps: i32) -> int {
        trunc_div(target_bps * relative_factor_bps, 10000)
    }

    pub open spec fn effective_band_bps_spec(self, target_bps: i32, drift_band_bps: i32, relative_factor_bps: i32) -> i32 {
        match self {
            BandType::Absolute => drift_band_bps,
            BandType::Hybrid => {
                let relative = BandType::relative_band(target_bps, relative_factor_bps) as i32;
                if relative >= drift_band_bps {
                    relative
                } else {
                    drift_band_bps
                }
            },
        }
    }

    /// The tolerance band of a category: the absolute band, or for a hybrid
    /// band the larger of the relative band and the absolute floor.
    pub fn effective_band_bps(&self, target_bps: i32, drift_band_bps: i32, relative_factor_bps: i32) -> (r: i32)
        ensures
            r == self.effective_band_bps_spec(target_bps, drift_band_bps, relative_factor_bps),
            *self == BandType::Absolute ==> r == drift_band_bps,
            *self == BandType::Hybrid ==> r >= drift_band_bps,
            *self == BandType::Hybrid && i32::MIN <= BandType::relative_band(target_bps, relative_factor_bps) <= i32::MAX ==> r >= BandType::relative_band(target_bps, relative_factor_bps),
            *self == BandType::Hybrid && i32::MIN <= BandType::relative_band(target_bps, relative_factor_bps) <= i32::MAX ==> (r == drift_band_bps || r == BandType::relative_band(target_bps, relative_factor_bps)),
    {
        match self {
            BandType::Absolute => drift_band_bps,
            BandType::Hybrid => {
                let t = target_bps as i64;
                let f = relative_factor_bps as i64;
                assert(-0x4000_0000_0000_0000 <= t * f <= 0x4000_0000_0000_0000) by (nonlinear_arith)
                    requires -0x8000_0000 <= t <= 0x7fff_ffff, -0x8000_0000 <= f <= 0x7fff_ffff;
                let product: i64 = t * f;
                let relative: i64 = if product >= 0 {
                    product / 10000
                } else {
                    0 - ((0 - product) / 10000)
                };
                let rel = #[verifier::truncate] (relative as i32);
                if rel >= drift_band_bps {
                    rel
                } else {
                    drift_band_bps
                }
            },
        }
    }
}

/// Where a category's current weight stands against its band.
#[derive(Clone, Copy, Debug, PartialEq, Eq, Structural)]
pub enum DriftStatus {
    InBand,
    Underweight,
    Overweight,
    NotTargeted,
}

/// The direction of a worksheet line.
#[derive(Clone, Copy, Debug, PartialEq, Eq, Structural)]
pub enum WorksheetDirection {
    Increase,
    Reduce,
}

/// Whether a worksheet line's value is an amount or a quantity.
#[derive(Clone, Copy, Debug, PartialEq, Eq, Structural)]
pub enum WorksheetInputMode {
    Amount,
    Quantity,
}

/// The kinds of acknowledgeable worksheet warnings.
#[derive(Clone, Copy, Debug, PartialEq, Eq, Structural)]
pub enum WorksheetWarningKind {
    StaleQuote,
    StaleFx,
    PartialClassification,
    UnclassifiedAsset,
    ExternalContribution,
    BelowMinimumLine,
    TurnoverExceeded,
    AvoidConstraint,
}

#[derive(Clone, Debug)]
pub struct AllocationTarget {
    pub id: String,
    pub name: String,
    pub scope_type: ScopeType,
    pub scope_id: Option<String>,
    pub taxonomy_id: String,
    pub trigger_type: TriggerType,
    pub drift_band_bps: i32,
    pub band_type: BandType,
    pub relative_factor_bps: i32,
    pub rebalance_goal: RebalanceGoal,
    pub min_trade_amount: String,
    pub whole_shares_only: bool,
    pub allow_sells: bool,
    pub max_turnover_bps: Option<i32>,
    pub created_at: String,
    pub updated_at: String,
    pub archived_at: Option<String>,
}

#[derive(Clone, Debug)]
pub struct NewAllocationTarget {
    pub name: String,
    pub scope_type: ScopeType,
    pub scope_id: Option<String>,
    pub taxonomy_id: String,
    pub trigger_type: TriggerType,
    pub drift_band_bps: i32,
    pub band_type: Option<BandType>,
    pub relative_factor_bps: Option<i32>,
    pub rebalance_goal: Option<RebalanceGoal>,
    pub min_trade_amount: Option<String>,
    pub whole_shares_only: Option<bool>,
    pub allow_sells: Option<bool>,
    pub max_turnover_bps: Option<i32>,
}

#[derive(Clone, Debug)]
pub struct AllocationTargetWeight {
    pub id: String,
    pub target_id: String,
    pub taxonomy_id: String,
    pub category_id: String,
    pub target_bps: i32,
    pub is_locked: bool,
    pub is_required: bool,
    pub created_at: String,
    pub updated_at: String,
}

#[derive(Clone, Debug)]
pub struct NewAllocationTargetWeight {
    pub category_id: String,
    pub target_bps: i32,
    pub is_locked: bool,
    pub is_required: bool,
}

#[derive(Clone, Debug)]
pub struct SaveAllocationTargetResult {
    pub target: AllocationTarget,
    pub weights: Vec<AllocationTargetWeight>,
}

#[derive(Clone, Debug)]
pub struct DriftRow {
    pub category_id: String,
    pub category_name: String,
    pub color: String,
    pub current_bps: i32,
    pub target_bps: i32,
    pub drift_bps: i32,
    pub current_value: Dec,
    pub target_value: Dec,
    pub value_delta: Dec,
    pub effective_band_bps: i32,
    pub status: DriftStatus,
    pub is_required: bool,
    pub is_zero_current: bool,
    pub is_cash: bool,
}

#[derive(Clone, Debug)]
pub struct DriftHoldingRow {
    pub id: String,
    pub holding_id: String,
    pub asset_id: String,
    pub account_id: String,
    pub source_account_ids: Vec<String>,
    pub symbol: String,
    pub name: String,
    pub category_id: String,
    pub category_name: String,
    pub category_color: Option<String>,
    pub value: Dec,
    pub current_pct: Dec,
    pub target_pct: Option<Dec>,
    pub drift_bps: Option<i32>,
    pub is_unknown_category: bool,
    pub is_cash: bool,
}

#[derive(Clone, Debug)]
pub struct DriftHoldingsReport {
    pub target_id: String,
    pub total_value: Dec,
    pub base_currency: String,
    pub rows: Vec<DriftHoldingRow>,
}

#[derive(Clone, Debug)]
pub struct DriftReport {
    pub target_id: String,
    pub scope_type: ScopeType,
    pub scope_id: Option<String>,
    pub total_value: Dec,
    pub base_currency: String,
    pub max_drift_bps: i32,
    pub out_of_band_count: usize,
    pub rows: Vec<DriftRow>,
    pub holdings: Option<DriftHoldingsReport>,
    /// Cash that is available for deployment; excludes cash tagged into a
    /// non-cash sleeve (e.g. a cash account classified as Fixed Income).
    pub deployable_cash: Dec,
}

#[derive(Clone, Debug)]
pub struct AllocationTargetConstraint {
    pub id: String,
    pub target_id: String,
    pub subject_type: ConstraintSubjectType,
    pub subject_id: String,
    pub action: ConstraintAction,
    pub effect: ConstraintEffect,
    pub reason: Option<String>,
    pub metadata_json: Option<String>,
    pub created_at: String,
    pub updated_at: String,
}

#[derive(Clone, Copy, Debug)]
pub struct WorksheetCashInput {
    pub tracked_cash_to_use: Dec,
    pub external_contribution: Dec,
}

#[derive(Clone, Debug)]
pub struct AllocationWorksheetLineInput {
    pub line_id: String,
    pub direction: WorksheetDirection,
    pub asset_id: String,
    pub account_id: String,
    pub input_mode: WorksheetInputMode,
    pub value: Dec,
}

#[derive(Clone, Debug)]
pub struct CalculateAllocationWorksheetInput {
    pub target_id: String,
    pub cash: WorksheetCashInput,
    pub lines: Vec<AllocationWorksheetLineInput>,
    pub account_ids: Vec<String>,
    pub base_currency: String,
    pub aggregated_account_id: String,
}

#[derive(Clone, Debug)]
pub struct WorksheetWarning {
    pub id: String,
    pub kind: WorksheetWarningKind,
    pub line_id: Option<String>,
    pub message: String,
    pub acknowledgement_required: bool,
}

#[derive(Clone, Debug)]
pub struct WorksheetPricingSource {
    pub id: String,
    pub source_type: String,
    pub value: Dec,
    pub from_currency: String,
    pub to_currency: String,
    pub timestamp: String,
    pub is_stale: bool,
}

#[derive(Clone, Debug)]
pub struct WorksheetCategoryExposure {
    pub category_id: String,
    pub category_name: String,
    pub weight_bps: i32,
    pub value_delta: Dec,
    pub is_unclassified: bool,
}

#[derive(Clone, Debug)]
pub struct AllocationWorksheetLineResult {
    pub line_id: String,
    pub direction: WorksheetDirection,
    pub asset_id: String,
    pub account_id: String,
    pub symbol: String,
    pub name: String,
    pub input_mode: WorksheetInputMode,
    pub input_value: Dec,
    pub quantity: Dec,
    pub unit_price: Dec,
    pub estimated_amount: Dec,
    pub contract_multiplier: Dec,
    pub quote_source: WorksheetPricingSource,
    pub fx_source: Option<WorksheetPricingSource>,
    pub category_exposures: Vec<WorksheetCategoryExposure>,
}

#[derive(Clone, Debug)]
pub struct WorksheetCategoryResult {
    pub category_id: String,
    pub category_name: String,
    pub color: String,
    pub target_bps: i32,
    pub current_value: Dec,
    pub projected_value: Dec,
    pub current_bps: i32,
    pub projected_bps: i32,
    pub current_difference_bps: i32,
    pub projected_difference_bps: i32,
    pub is_cash: bool,
    pub is_unclassified: bool,
}

#[derive(Clone, Debug)]
pub struct WorksheetSourceRecord {
    pub source_type: String,
    pub id: String,
    pub version: String,
    pub details: String,
}

#[derive(Clone, Debug)]
pub struct AllocationWorksheetResult {
    pub target_id: String,
    pub target_name: String,
    pub base_currency: String,
    pub calculated_at: String,
    pub source_fingerprint: String,
    pub resolved_account_ids: Vec<String>,
    pub observed_tracked_cash: Dec,
    pub tracked_cash_to_use: Dec,
    pub external_contribution: Dec,
    pub increase_total: Dec,
    pub reduction_total: Dec,
    pub cash_remaining: Dec,
    pub max_difference_bps_before: i32,
    pub max_difference_bps_after: i32,
    pub lines: Vec<AllocationWorksheetLineResult>,
    pub categories: Vec<WorksheetCategoryResult>,
    pub warnings: Vec<WorksheetWarning>,
    pub source_records: Vec<WorksheetSourceRecord>,
}

} // verus!
