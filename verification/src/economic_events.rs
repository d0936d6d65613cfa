//! Cash economics of activities: the signed cash movement, the authoritative
//! final amount and the pre-charge gross amount of an activity, and the
//! classification of legacy stored amounts.
//!
//! `Decimal` arithmetic can overflow; where the library would panic on an
//! overflow, the `checked_*` functions return `None`, and the functions of the
//! same name without the prefix require that no overflow happens.

use vstd::prelude::*;
use crate::decimal::{Dec, dec_add, dec_sub, dec_mul, dec_lt, dec_le, spec_add, spec_sub, spec_mul};
use crate::text::{trim, to_ascii_uppercase, str_eq, eq_ignore_ascii_case, trim_spec, trim_start_spec, trim_end_spec, ascii_upper_spec};

verus! {

/// The activity types whose cash economics are resolved here.
#[derive(Clone, Copy, Debug, PartialEq, Eq, Structural)]
pub enum ActivityType {
    Buy,
    Sell,
    Deposit,
    Withdrawal,
    Dividend,
    Interest,
    Credit,
    Fee,
    Tax,
    TransferIn,
    TransferOut,
    Split,
    Other,
}

/// Types whose cash normally flows into the account.
pub open spec fn is_inflow_type(t: ActivityType) -> bool {
    matches!(t, ActivityType::Sell | ActivityType::Deposit | ActivityType::Dividend | ActivityType::Interest | ActivityType::Credit | ActivityType::TransferIn)
}

/// Types whose cash is derived from quantity and price and then leaves the account.
pub open spec fn is_outflow_trade_type(t: ActivityType) -> bool {
    matches!(t, ActivityType::Buy | ActivityType::Withdrawal | ActivityType::TransferOut)
}

/// Types whose cash can be derived from quantity × price.
pub open spec fn is_priced_type(t: ActivityType) -> bool {
    is_inflow_type(t) || is_outflow_trade_type(t)
}

fn is_inflow(t: ActivityType) -> (r: bool)
    ensures
        r == is_inflow_type(t),
{
    match t {
        ActivityType::Sell | ActivityType::Deposit | ActivityType::Dividend | ActivityType::Interest
        | ActivityType::Credit | ActivityType::TransferIn => true,
        _ => false,
    }
}

fn is_outflow_trade(t: ActivityType) -> (r: bool)
    ensures
        r == is_outflow_trade_type(t),
{
    match t {
        ActivityType::Buy | ActivityType::Withdrawal | ActivityType::TransferOut => true,
        _ => false,
    }
}

pub open spec fn opt_wf(x: Option<Dec>) -> bool {
    x matches Some(d) ==> d.wf()
}

pub open spec fn opt_abs(x: Option<Dec>) -> Option<Dec> {
    match x {
        Some(d) => Some(d.abs_spec()),
        None => None,
    }
}

pub open spec fn abs_or_zero(x: Option<Dec>) -> Dec {
    match x {
        Some(d) => d.abs_spec(),
        None => Dec::zero_spec(),
    }
}

/// Flat inputs used to resolve the cash economics of persisted, imported, and
/// not-yet-persisted activities. Monetary values are magnitudes; activity type
/// supplies normal direction while gross economics resolve exceptional cases.
#[derive(Clone, Copy, Debug)]
pub struct ActivityCashInputs {
    pub activity_type: ActivityType,
    pub is_security_transfer: bool,
    pub quantity: Option<Dec>,
    pub unit_price: Option<Dec>,
    pub amount: Option<Dec>,
    pub fee: Option<Dec>,
    pub tax: Option<Dec>,
    pub unit_multiplier: Dec,
}

impl ActivityCashInputs {
    pub open spec fn wf(self) -> bool {
        &&& opt_wf(self.quantity)
        &&& opt_wf(self.unit_price)
        &&& opt_wf(self.amount)
        &&& opt_wf(self.fee)
        &&& opt_wf(self.tax)
        &&& self.unit_multiplier.wf()
    }
}

#[derive(Clone, Copy, Debug)]
pub struct ResolvedActivityCash {
    /// Authoritative final cash magnitude, including fees and taxes.
    pub amount: Option<Dec>,
    /// Cash magnitude derived from quantity, price, multiplier, and charges.
    pub expected_amount: Option<Dec>,
    /// Signed cash movement. Positive is an inflow; negative is an outflow.
    pub signed_cash_effect: Dec,
    /// Pre-charge economics used for lots, cost basis, and realized P/L.
    pub gross_amount: Option<Dec>,
    pub amount_was_derived: bool,
}

impl ResolvedActivityCash {
    pub open spec fn default_spec() -> ResolvedActivityCash {
        ResolvedActivityCash {
            amount: None,
            expected_amount: None,
            signed_cash_effect: Dec::zero_spec(),
            gross_amount: None,
            amount_was_derived: false,
        }
    }

    pub open spec fn wf(self) -> bool {
        &&& opt_wf(self.amount)
        &&& opt_wf(self.expected_amount)
        &&& self.signed_cash_effect.wf()
        &&& opt_wf(self.gross_amount)
    }

    /// `ResolvedActivityCash::default()`: no amounts, zero cash effect.
    pub fn default() -> (r: ResolvedActivityCash)
        ensures
            r == ResolvedActivityCash::default_spec(),
    {
        ResolvedActivityCash {
            amount: None,
            expected_amount: None,
            signed_cash_effect: Dec::zero(),
            gross_amount: None,
            amount_was_derived: false,
        }
    }

    pub open spec fn signed_gross_effect_spec(self) -> Dec {
        let gross = match self.gross_amount {
            Some(g) => g,
            None => match self.amount {
                Some(a) => a,
                None => Dec::zero_spec(),
            },
        };
        if self.signed_cash_effect.negative {
            gross.neg_spec()
        } else {
            gross
        }
    }

    /// Signed pre-charge economics for external contribution/performance
    /// flows: the gross amount (else the final amount, else zero) carrying the
    /// sign flag of the signed cash effect.
    pub fn signed_gross_effect(&self) -> (r: Dec)
        ensures
            r == self.signed_gross_effect_spec(),
    {
        let gross = match self.gross_amount {
            Some(g) => g,
            None => match self.amount {
                Some(a) => a,
                None => Dec::zero(),
            },
        };
        if self.signed_cash_effect.is_sign_negative() {
            gross.neg()
        } else if self.signed_cash_effect.is_sign_positive() {
            gross
        } else {
            Dec::zero()
        }
    }
}

// ---------------------------------------------------------------------------
// Specifications.  `None` at the outer level means a `Decimal` overflow.
// ---------------------------------------------------------------------------

pub open spec fn valid_unit_multiplier_spec(m: Dec) -> Dec {
    if m.units() > 0 {
        m
    } else {
        Dec::one_spec()
    }
}

/// `|quantity| × |unit price| × multiplier`, when both are present.
pub open spec fn derived_gross_spec(i: ActivityCashInputs) -> Option<Option<Dec>> {
    match (i.quantity, i.unit_price) {
        (Some(q), Some(p)) => match spec_mul(q.abs_spec(), p.abs_spec()) {
            Some(qp) => match spec_mul(qp, valid_unit_multiplier_spec(i.unit_multiplier)) {
                Some(g) => Some(Some(g)),
                None => None,
            },
            None => None,
        },
        _ => Some(None),
    }
}

/// The signed final cash of a gross amount: outflow trades pay gross plus
/// charges, inflows receive gross less charges, standalone charges pay the
/// charge.
pub open spec fn cash_effect_from_gross_spec(t: ActivityType, gross: Dec, fee: Dec, tax: Dec) -> Option<Option<Dec>> {
    match spec_add(fee.abs_spec(), tax.abs_spec()) {
        None => None,
        Some(charges) => if is_outflow_trade_type(t) {
            match spec_add(gross.abs_spec(), charges) {
                Some(s) => Some(Some(s.neg_spec())),
                None => None,
            }
        } else if is_inflow_type(t) {
            match spec_sub(gross.abs_spec(), charges) {
                Some(s) => Some(Some(s)),
                None => None,
            }
        } else if t == ActivityType::Fee {
            Some(Some(fee.abs_spec().neg_spec()))
        } else if t == ActivityType::Tax {
            Some(Some(tax.abs_spec().neg_spec()))
        } else {
            Some(None)
        },
    }
}

/// The signed cash an activity's details imply, given the magnitudes of its
/// fee and tax.
pub open spec fn derived_cash_effect_spec(i: ActivityCashInputs, fee: Dec, tax: Dec) -> Option<Option<Dec>> {
    if is_priced_type(i.activity_type) {
        match derived_gross_spec(i) {
            None => None,
            Some(None) => Some(None),
            Some(Some(g)) => cash_effect_from_gross_spec(i.activity_type, g, fee, tax),
        }
    } else if i.activity_type == ActivityType::Fee {
        if fee.units() > 0 {
            Some(Some(fee.neg_spec()))
        } else {
            Some(None)
        }
    } else if i.activity_type == ActivityType::Tax {
        if tax.units() > 0 {
            Some(Some(tax.neg_spec()))
        } else if fee.units() > 0 {
            Some(Some(fee.neg_spec()))
        } else {
            Some(None)
        }
    } else {
        Some(None)
    }
}

/// The cash direction an activity type gives an amount on its own.
pub open spec fn type_directed_cash_effect_spec(t: ActivityType, amount: Dec) -> Dec {
    if is_inflow_type(t) {
        amount.abs_spec()
    } else if is_outflow_trade_type(t) || t == ActivityType::Fee || t == ActivityType::Tax {
        amount.abs_spec().neg_spec()
    } else {
        Dec::zero_spec()
    }
}

/// The final amount: a supplied non-zero amount is authoritative; a missing
/// or zero amount falls back to the derived amount (a zero stays zero when
/// nothing can be derived).
pub open spec fn final_amount_spec(supplied: Option<Dec>, expected_amount: Option<Dec>) -> Option<Dec> {
    match supplied {
        Some(a) => if a.is_zero_spec() {
            match expected_amount {
                Some(e) => Some(e),
                None => Some(Dec::zero_spec()),
            }
        } else {
            Some(a)
        },
        None => expected_amount,
    }
}

/// The signed cash effect of a final amount: the direction of the derived
/// cash effect when it is non-zero, else the direction of the type.
pub open spec fn signed_effect_spec(t: ActivityType, amount: Option<Dec>, expected: Option<Dec>) -> Dec {
    match amount {
        None => Dec::zero_spec(),
        Some(a) => match expected {
            Some(e) => if !e.is_zero_spec() {
                if e.negative {
                    a.neg_spec()
                } else {
                    a
                }
            } else {
                type_directed_cash_effect_spec(t, a)
            },
            None => type_directed_cash_effect_spec(t, a),
        },
    }
}

/// The pre-charge gross amount recovered from the signed final cash, when it
/// is not negative.
pub open spec fn gross_amount_spec(t: ActivityType, amount: Option<Dec>, signed: Dec, charges: Dec) -> Option<Option<Dec>> {
    match amount {
        None => Some(None),
        Some(a) => {
            let gross: Option<Option<Dec>> = if t == ActivityType::Buy || t == ActivityType::Withdrawal || t == ActivityType::TransferOut {
                match spec_sub(signed.neg_spec(), charges) {
                    Some(g) => Some(Some(g)),
                    None => None,
                }
            } else if is_inflow_type(t) {
                match spec_add(signed, charges) {
                    Some(g) => Some(Some(g)),
                    None => None,
                }
            } else if t == ActivityType::Fee || t == ActivityType::Tax {
                Some(Some(a))
            } else {
                Some(None)
            };
            match gross {
                None => None,
                Some(None) => Some(None),
                Some(Some(g)) => if g.units() >= 0 {
                    Some(Some(g))
                } else {
                    Some(None)
                },
            }
        },
    }
}

pub open spec fn resolve_cash_inputs_spec(i: ActivityCashInputs) -> Option<ResolvedActivityCash> {
    if i.activity_type == ActivityType::Split {
        Some(ResolvedActivityCash::default_spec())
    } else if i.is_security_transfer {
        Some(ResolvedActivityCash { signed_cash_effect: abs_or_zero(i.fee).neg_spec(), ..ResolvedActivityCash::default_spec() })
    } else {
        let fee = abs_or_zero(i.fee);
        let tax = abs_or_zero(i.tax);
        match spec_add(fee, tax) {
            None => None,
            Some(charges) => match derived_cash_effect_spec(i, fee, tax) {
                None => None,
                Some(expected) => {
                    let expected_amount = opt_abs(expected);
                    let supplied = opt_abs(i.amount);
                    let amount = final_amount_spec(supplied, expected_amount);
                    let derived = expected_amount is Some && (supplied matches Some(s) ==> s.is_zero_spec());
                    let signed = signed_effect_spec(i.activity_type, amount, expected);
                    match gross_amount_spec(i.activity_type, amount, signed, charges) {
                        None => None,
                        Some(gross) => Some(ResolvedActivityCash {
                            amount,
                            expected_amount,
                            signed_cash_effect: signed,
                            gross_amount: gross,
                            amount_was_derived: derived,
                        }),
                    }
                },
            },
        }
    }
}

// ---------------------------------------------------------------------------
// Executable resolution.
// ---------------------------------------------------------------------------

fn abs_or_zero_exec(x: Option<Dec>) -> (r: Dec)
    requires
        opt_wf(x),
    ensures
        r == abs_or_zero(x),
        r.wf(),
{
    match x {
        Some(d) => d.abs(),
        None => Dec::zero(),
    }
}

fn opt_abs_exec(x: Option<Dec>) -> (r: Option<Dec>)
    requires
        opt_wf(x),
    ensures
        r == opt_abs(x),
        opt_wf(r),
{
    match x {
        Some(d) => Some(d.abs()),
        None => None,
    }
}

fn valid_unit_multiplier(m: Dec) -> (r: Dec)
    requires
        m.wf(),
    ensures
        r == valid_unit_multiplier_spec(m),
        r.wf(),
{
    if dec_lt(Dec::zero(), m) {
        m
    } else {
        Dec::one()
    }
}

fn derived_gross(i: ActivityCashInputs) -> (r: Option<Option<Dec>>)
    requires
        i.wf(),
    ensures
        r == derived_gross_spec(i),
        r matches Some(Some(g)) ==> g.wf(),
{
    match (i.quantity, i.unit_price) {
        (Some(q), Some(p)) => {
            let m = valid_unit_multiplier(i.unit_multiplier);
            match dec_mul(q.abs(), p.abs()) {
                Some(qp) => match dec_mul(qp, m) {
                    Some(g) => Some(Some(g)),
                    None => None,
                },
                None => None,
            }
        },
        _ => Some(None),
    }
}

fn cash_effect_from_gross(t: ActivityType, gross: Dec, fee: Dec, tax: Dec) -> (r: Option<Option<Dec>>)
    requires
        gross.wf(),
        fee.wf(),
        tax.wf(),
    ensures
        r == cash_effect_from_gross_spec(t, gross, fee, tax),
        r matches Some(Some(c)) ==> c.wf(),
{
    match dec_add(fee.abs(), tax.abs()) {
        None => None,
        Some(charges) => if is_outflow_trade(t) {
            match dec_add(gross.abs(), charges) {
                Some(s) => Some(Some(s.neg())),
                None => None,
            }
        } else if is_inflow(t) {
            match dec_sub(gross.abs(), charges) {
                Some(s) => Some(Some(s)),
                None => None,
            }
        } else if t == ActivityType::Fee {
            Some(Some(fee.abs().neg()))
        } else if t == ActivityType::Tax {
            Some(Some(tax.abs().neg()))
        } else {
            Some(None)
        },
    }
}

fn derived_cash_effect(i: ActivityCashInputs, fee: Dec, tax: Dec) -> (r: Option<Option<Dec>>)
    requires
        i.wf(),
        fee.wf(),
        tax.wf(),
    ensures
        r == derived_cash_effect_spec(i, fee, tax),
        r matches Some(Some(c)) ==> c.wf(),
{
    if is_inflow(i.activity_type) || is_outflow_trade(i.activity_type) {
        match derived_gross(i) {
            None => None,
            Some(None) => Some(None),
            Some(Some(g)) => cash_effect_from_gross(i.activity_type, g, fee, tax),
        }
    } else if i.activity_type == ActivityType::Fee {
        if dec_lt(Dec::zero(), fee) {
            Some(Some(fee.neg()))
        } else {
            Some(None)
        }
    } else if i.activity_type == ActivityType::Tax {
        if dec_lt(Dec::zero(), tax) {
            Some(Some(tax.neg()))
        } else if dec_lt(Dec::zero(), fee) {
            Some(Some(fee.neg()))
        } else {
            Some(None)
        }
    } else {
        Some(None)
    }
}

fn type_directed_cash_effect(t: ActivityType, amount: Dec) -> (r: Dec)
    requires
        amount.wf(),
    ensures
        r == type_directed_cash_effect_spec(t, amount),
        r.wf(),
{
    if is_inflow(t) {
        amount.abs()
    } else if is_outflow_trade(t) || t == ActivityType::Fee || t == ActivityType::Tax {
        amount.abs().neg()
    } else {
        Dec::zero()
    }
}

fn resolve_cash_inputs_checked(i: ActivityCashInputs) -> (r: Option<ResolvedActivityCash>)
    requires
        i.wf(),
    ensures
        r == resolve_cash_inputs_spec(i),
        r matches Some(x) ==> x.wf(),
{
    if i.activity_type == ActivityType::Split {
        return Some(ResolvedActivityCash::default());
    }
    let fee = abs_or_zero_exec(i.fee);
    if i.is_security_transfer {
        let mut r = ResolvedActivityCash::default();
        r.signed_cash_effect = fee.neg();
        return Some(r);
    }
    let tax = abs_or_zero_exec(i.tax);
    let charges = match dec_add(fee, tax) {
        Some(c) => c,
        None => return None,
    };
    let expected = match derived_cash_effect(i, fee, tax) {
        Some(e) => e,
        None => return None,
    };
    let expected_amount = opt_abs_exec(expected);
    let supplied = opt_abs_exec(i.amount);
    let amount = match supplied {
        Some(a) => if a.is_zero() {
            match expected_amount {
                Some(e) => Some(e),
                None => Some(Dec::zero()),
            }
        } else {
            Some(a)
        },
        None => expected_amount,
    };
    let derived = expected_amount.is_some() && match supplied {
        Some(s) => s.is_zero(),
        None => true,
    };
    let signed = match amount {
        None => Dec::zero(),
        Some(a) => match expected {
            Some(e) => if !e.is_zero() {
                if e.is_sign_negative() {
                    a.neg()
                } else {
                    a
                }
            } else {
                type_directed_cash_effect(i.activity_type, a)
            },
            None => type_directed_cash_effect(i.activity_type, a),
        },
    };
    let t = i.activity_type;
    let gross = match amount {
        None => None,
        Some(a) => {
            let g = if t == ActivityType::Buy || t == ActivityType::Withdrawal || t == ActivityType::TransferOut {
                match dec_sub(signed.neg(), charges) {
                    Some(g) => Some(g),
                    None => return None,
                }
            } else if is_inflow(t) {
                match dec_add(signed, charges) {
                    Some(g) => Some(g),
                    None => return None,
                }
            } else if t == ActivityType::Fee || t == ActivityType::Tax {
                Some(a)
            } else {
                None
            };
            match g {
                Some(g) => if dec_le(Dec::zero(), g) {
                    Some(g)
                } else {
                    None
                },
                None => None,
            }
        },
    };
    Some(ResolvedActivityCash {
        amount,
        expected_amount,
        signed_cash_effect: signed,
        gross_amount: gross,
        amount_was_derived: derived,
    })
}


/// How a legacy stored cash amount was interpreted.
#[derive(Clone, Copy, Debug, PartialEq, Eq, Structural)]
pub enum LegacyActivityCashClassification {
    Derived,
    Equivalent,
    Final,
    Gross,
    Ambiguous,
    Missing,
    NotApplicable,
}

impl LegacyActivityCashClassification {
    pub open spec fn as_str_spec(self) -> Seq<char> {
        match self {
            LegacyActivityCashClassification::Derived => "derived"@,
            LegacyActivityCashClassification::Equivalent => "equivalent"@,
            LegacyActivityCashClassification::Final => "final"@,
            LegacyActivityCashClassification::Gross => "gross_converted"@,
            LegacyActivityCashClassification::Ambiguous => "ambiguous"@,
            LegacyActivityCashClassification::Missing => "missing"@,
            LegacyActivityCashClassification::NotApplicable => "not_applicable"@,
        }
    }

    /// The code stored in activity metadata for the classification.
    pub fn as_str(self) -> (r: &'static str)
        ensures
            r@ == self.as_str_spec(),
    {
        match self {
            LegacyActivityCashClassification::Derived => "derived",
            LegacyActivityCashClassification::Equivalent => "equivalent",
            LegacyActivityCashClassification::Final => "final",
            LegacyActivityCashClassification::Gross => "gross_converted",
            LegacyActivityCashClassification::Ambiguous => "ambiguous",
            LegacyActivityCashClassification::Missing => "missing",
            LegacyActivityCashClassification::NotApplicable => "not_applicable",
        }
    }
}

#[derive(Clone, Copy, Debug)]
pub struct ClassifiedLegacyActivityCash {
    pub classification: LegacyActivityCashClassification,
    pub final_amount: Option<Dec>,
    pub needs_review: bool,
}

pub open spec fn classified(
    classification: LegacyActivityCashClassification,
    final_amount: Option<Dec>,
    needs_review: bool,
) -> ClassifiedLegacyActivityCash {
    ClassifiedLegacyActivityCash { classification, final_amount, needs_review }
}

/// `|a - b| <= tolerance`, or `None` when the difference overflows.
pub open spec fn within_spec(a: Dec, b: Dec, tolerance: Dec) -> Option<bool> {
    match spec_sub(a, b) {
        Some(d) => Some(d.abs_spec().units() <= tolerance.units()),
        None => None,
    }
}

pub open spec fn classify_legacy_cash_inputs_spec(i: ActivityCashInputs, tolerance: Dec) -> Option<ClassifiedLegacyActivityCash> {
    if i.activity_type == ActivityType::Split || i.is_security_transfer {
        Some(classified(LegacyActivityCashClassification::NotApplicable, opt_abs(i.amount), false))
    } else {
        let tol = tolerance.abs_spec();
        let fee = abs_or_zero(i.fee);
        let tax = abs_or_zero(i.tax);
        match spec_add(fee, tax) {
            None => None,
            Some(charges) => match derived_cash_effect_spec(i, fee, tax) {
                None => None,
                Some(expected_effect) => {
                    let expected_final = opt_abs(expected_effect);
                    let supplied = opt_abs(i.amount);
                    if supplied matches Some(s) ==> s.is_zero_spec() {
                        match expected_final {
                            Some(f) => Some(classified(LegacyActivityCashClassification::Derived, Some(f), false)),
                            None => Some(classified(LegacyActivityCashClassification::Missing, None, true)),
                        }
                    } else {
                        let s = supplied.unwrap();
                        if charges.is_zero_spec() {
                            Some(classified(LegacyActivityCashClassification::Equivalent, Some(s), false))
                        } else if i.activity_type == ActivityType::Fee || i.activity_type == ActivityType::Tax {
                            Some(classified(LegacyActivityCashClassification::Final, Some(s), false))
                        } else {
                            match derived_gross_spec(i) {
                                None => None,
                                Some(None) => Some(classified(LegacyActivityCashClassification::Ambiguous, Some(s), true)),
                                Some(Some(g)) => match expected_final {
                                    None => Some(classified(LegacyActivityCashClassification::Ambiguous, Some(s), true)),
                                    Some(f) => match (within_spec(s, g, tol), within_spec(s, f, tol), within_spec(g, f, tol)) {
                                        (Some(mg), Some(mf), Some(eq)) => if mg && mf && eq {
                                            Some(classified(LegacyActivityCashClassification::Equivalent, Some(s), false))
                                        } else if !mg && mf {
                                            Some(classified(LegacyActivityCashClassification::Final, Some(s), false))
                                        } else if mg && !mf {
                                            match cash_effect_from_gross_spec(i.activity_type, s, fee, tax) {
                                                None => None,
                                                Some(c) => Some(classified(LegacyActivityCashClassification::Gross, opt_abs(c), false)),
                                            }
                                        } else {
                                            Some(classified(LegacyActivityCashClassification::Ambiguous, Some(s), true))
                                        },
                                        _ => None,
                                    },
                                },
                            }
                        }
                    }
                },
            },
        }
    }
}

pub open spec fn reconcile_imported_trade_amount_spec(i: ActivityCashInputs, tolerance: Dec) -> Option<Option<Dec>> {
    match opt_abs(i.amount) {
        None => Some(None),
        Some(s) => if i.is_security_transfer || !(i.activity_type == ActivityType::Buy || i.activity_type == ActivityType::Sell) {
            Some(Some(s))
        } else {
            let fee = abs_or_zero(i.fee);
            let tax = abs_or_zero(i.tax);
            match spec_add(fee, tax) {
                None => None,
                Some(charges) => match derived_gross_spec(i) {
                    None => None,
                    Some(None) => Some(Some(s)),
                    Some(Some(g)) => match cash_effect_from_gross_spec(i.activity_type, g, fee, tax) {
                        None => None,
                        Some(None) => Some(Some(s)),
                        Some(Some(c)) => {
                            let tol = tolerance.abs_spec();
                            match (within_spec(s, g, tol), within_spec(s, c.abs_spec(), tol)) {
                                (Some(mg), Some(mf)) => if mg && !mf {
                                    if i.activity_type == ActivityType::Buy {
                                        match spec_add(s, charges) {
                                            Some(x) => Some(Some(x)),
                                            None => None,
                                        }
                                    } else {
                                        match spec_sub(s, charges) {
                                            Some(x) => Some(Some(x.abs_spec())),
                                            None => None,
                                        }
                                    }
                                } else {
                                    Some(Some(s))
                                },
                                _ => None,
                            }
                        },
                    },
                },
            }
        },
    }
}

pub open spec fn resolve_legacy_gross_cash_inputs_spec(i: ActivityCashInputs) -> Option<ResolvedActivityCash> {
    match opt_abs(i.amount) {
        Some(g) if !g.is_zero_spec() => {
            let fee = abs_or_zero(i.fee);
            let tax = abs_or_zero(i.tax);
            match cash_effect_from_gross_spec(i.activity_type, g, fee, tax) {
                None => None,
                Some(c) => {
                    let signed = match c {
                        Some(x) => x,
                        None => Dec::zero_spec(),
                    };
                    match derived_cash_effect_spec(i, fee, tax) {
                        None => None,
                        Some(e) => Some(ResolvedActivityCash {
                            amount: Some(signed.abs_spec()),
                            expected_amount: opt_abs(e),
                            signed_cash_effect: signed,
                            gross_amount: Some(g),
                            amount_was_derived: false,
                        }),
                    }
                },
            }
        },
        _ => resolve_cash_inputs_spec(i),
    }
}

pub open spec fn resolve_with_legacy_spec(i: ActivityCashInputs, legacy: bool) -> Option<ResolvedActivityCash> {
    if legacy {
        resolve_legacy_gross_cash_inputs_spec(i)
    } else {
        resolve_cash_inputs_spec(i)
    }
}

fn within(a: Dec, b: Dec, tolerance: Dec) -> (r: Option<bool>)
    requires
        a.wf(),
        b.wf(),
        tolerance.wf(),
    ensures
        r == within_spec(a, b, tolerance),
{
    match dec_sub(a, b) {
        Some(d) => Some(dec_le(d.abs(), tolerance)),
        None => None,
    }
}

fn classify_legacy_cash_inputs_checked(i: ActivityCashInputs, tolerance: Dec) -> (r: Option<ClassifiedLegacyActivityCash>)
    requires
        i.wf(),
        tolerance.wf(),
    ensures
        r == classify_legacy_cash_inputs_spec(i, tolerance),
        r matches Some(c) ==> opt_wf(c.final_amount),
{
    if i.activity_type == ActivityType::Split || i.is_security_transfer {
        return Some(ClassifiedLegacyActivityCash {
            classification: LegacyActivityCashClassification::NotApplicable,
            final_amount: opt_abs_exec(i.amount),
            needs_review: false,
        });
    }
    let tol = tolerance.abs();
    let fee = abs_or_zero_exec(i.fee);
    let tax = abs_or_zero_exec(i.tax);
    let charges = match dec_add(fee, tax) {
        Some(c) => c,
        None => return None,
    };
    let expected_effect = match derived_cash_effect(i, fee, tax) {
        Some(e) => e,
        None => return None,
    };
    let expected_final = opt_abs_exec(expected_effect);
    let supplied = opt_abs_exec(i.amount);
    let missing = match supplied {
        Some(s) => s.is_zero(),
        None => true,
    };
    if missing {
        return match expected_final {
            Some(f) => Some(ClassifiedLegacyActivityCash {
                classification: LegacyActivityCashClassification::Derived,
                final_amount: Some(f),
                needs_review: false,
            }),
            None => Some(ClassifiedLegacyActivityCash {
                classification: LegacyActivityCashClassification::Missing,
                final_amount: None,
                needs_review: true,
            }),
        };
    }
    let s = match supplied {
        Some(s) => s,
        None => Dec::zero(),
    };
    if charges.is_zero() {
        return Some(ClassifiedLegacyActivityCash {
            classification: LegacyActivityCashClassification::Equivalent,
            final_amount: Some(s),
            needs_review: false,
        });
    }
    if i.activity_type == ActivityType::Fee || i.activity_type == ActivityType::Tax {
        return Some(ClassifiedLegacyActivityCash {
            classification: LegacyActivityCashClassification::Final,
            final_amount: Some(s),
            needs_review: false,
        });
    }
    let ambiguous = ClassifiedLegacyActivityCash {
        classification: LegacyActivityCashClassification::Ambiguous,
        final_amount: Some(s),
        needs_review: true,
    };
    let g = match derived_gross(i) {
        None => return None,
        Some(None) => return Some(ambiguous),
        Some(Some(g)) => g,
    };
    let f = match expected_final {
        None => return Some(ambiguous),
        Some(f) => f,
    };
    let mg = match within(s, g, tol) {
        Some(b) => b,
        None => return None,
    };
    let mf = match within(s, f, tol) {
        Some(b) => b,
        None => return None,
    };
    let eq = match within(g, f, tol) {
        Some(b) => b,
        None => return None,
    };
    if mg && mf && eq {
        Some(ClassifiedLegacyActivityCash {
            classification: LegacyActivityCashClassification::Equivalent,
            final_amount: Some(s),
            needs_review: false,
        })
    } else if !mg && mf {
        Some(ClassifiedLegacyActivityCash {
            classification: LegacyActivityCashClassification::Final,
            final_amount: Some(s),
            needs_review: false,
        })
    } else if mg && !mf {
        match cash_effect_from_gross(i.activity_type, s, fee, tax) {
            None => None,
            Some(c) => Some(ClassifiedLegacyActivityCash {
                classification: LegacyActivityCashClassification::Gross,
                final_amount: opt_abs_exec(c),
                needs_review: false,
            }),
        }
    } else {
        Some(ambiguous)
    }
}

fn reconcile_imported_trade_amount_checked(i: ActivityCashInputs, tolerance: Dec) -> (r: Option<Option<Dec>>)
    requires
        i.wf(),
        tolerance.wf(),
    ensures
        r == reconcile_imported_trade_amount_spec(i, tolerance),
        r matches Some(Some(x)) ==> x.wf(),
{
    let s = match i.amount {
        Some(a) => a.abs(),
        None => return Some(None),
    };
    if i.is_security_transfer || !(i.activity_type == ActivityType::Buy || i.activity_type == ActivityType::Sell) {
        return Some(Some(s));
    }
    let fee = abs_or_zero_exec(i.fee);
    let tax = abs_or_zero_exec(i.tax);
    let charges = match dec_add(fee, tax) {
        Some(c) => c,
        None => return None,
    };
    let g = match derived_gross(i) {
        None => return None,
        Some(None) => return Some(Some(s)),
        Some(Some(g)) => g,
    };
    let c = match cash_effect_from_gross(i.activity_type, g, fee, tax) {
        None => return None,
        Some(None) => return Some(Some(s)),
        Some(Some(c)) => c,
    };
    let tol = tolerance.abs();
    let mg = match within(s, g, tol) {
        Some(b) => b,
        None => return None,
    };
    let mf = match within(s, c.abs(), tol) {
        Some(b) => b,
        None => return None,
    };
    if mg && !mf {
        if i.activity_type == ActivityType::Buy {
            match dec_add(s, charges) {
                Some(x) => Some(Some(x)),
                None => None,
            }
        } else {
            match dec_sub(s, charges) {
                Some(x) => Some(Some(x.abs())),
                None => None,
            }
        }
    } else {
        Some(Some(s))
    }
}

fn resolve_legacy_gross_cash_inputs_checked(i: ActivityCashInputs) -> (r: Option<ResolvedActivityCash>)
    requires
        i.wf(),
    ensures
        r == resolve_legacy_gross_cash_inputs_spec(i),
        r matches Some(x) ==> x.wf(),
{
    let g = match i.amount {
        Some(a) => a.abs(),
        None => return resolve_cash_inputs_checked(i),
    };
    if g.is_zero() {
        return resolve_cash_inputs_checked(i);
    }
    let fee = abs_or_zero_exec(i.fee);
    let tax = abs_or_zero_exec(i.tax);
    let signed = match cash_effect_from_gross(i.activity_type, g, fee, tax) {
        None => return None,
        Some(Some(x)) => x,
        Some(None) => Dec::zero(),
    };
    let expected = match derived_cash_effect(i, fee, tax) {
        None => return None,
        Some(e) => e,
    };
    Some(ResolvedActivityCash {
        amount: Some(signed.abs()),
        expected_amount: opt_abs_exec(expected),
        signed_cash_effect: signed,
        gross_amount: Some(g),
        amount_was_derived: false,
    })
}


/// The cash economics of a resolved activity.
pub struct ActivityEconomicsResolver;

impl ActivityEconomicsResolver {
    /// Resolves final amount, signed cash effect and gross amount of flat
    /// activity inputs.  A supplied non-zero amount is authoritative; the
    /// activity type and the derived economics give the direction.
    pub fn resolve_cash_inputs(inputs: ActivityCashInputs) -> (r: ResolvedActivityCash)
        requires
            inputs.wf(),
            resolve_cash_inputs_spec(inputs) is Some,
        ensures
            r == resolve_cash_inputs_spec(inputs).unwrap(),
            r.wf(),
            inputs.activity_type == ActivityType::Split ==> r == ResolvedActivityCash::default_spec(),
            inputs.activity_type != ActivityType::Split && inputs.is_security_transfer ==> r.amount is None && r.gross_amount is None && r.signed_cash_effect == abs_or_zero(inputs.fee).neg_spec(),
            inputs.activity_type != ActivityType::Split && !inputs.is_security_transfer && (inputs.amount matches Some(s) && !s.is_zero_spec()) ==> r.amount == Some(inputs.amount.unwrap().abs_spec()),
            r.amount matches Some(a) ==> !a.negative,
            r.gross_amount matches Some(g) ==> g.units() >= 0,
            (r.amount is Some && inputs.activity_type != ActivityType::Other) ==> r.signed_cash_effect.abs_spec() == r.amount.unwrap(),
            inputs.activity_type != ActivityType::Split && !inputs.is_security_transfer ==> (r.amount_was_derived <==> (r.expected_amount is Some && (inputs.amount matches Some(s) ==> s.is_zero_spec()))),
    {
        match resolve_cash_inputs_checked(inputs) {
            Some(r) => {
                r
            },
            None => ResolvedActivityCash::default(),
        }
    }

    /// `resolve_cash_inputs`, or `None` where a `Decimal` overflow would stop it.
    pub fn checked_resolve_cash_inputs(inputs: ActivityCashInputs) -> (r: Option<ResolvedActivityCash>)
        requires
            inputs.wf(),
        ensures
            r == resolve_cash_inputs_spec(inputs),
    {
        match resolve_cash_inputs_checked(inputs) {
            Some(_) => Some(Self::resolve_cash_inputs(inputs)),
            None => None,
        }
    }

    /// Resolves cash, reading a legacy ambiguous amount as a gross amount when
    /// `legacy_gross_compatibility` is set.
    pub fn resolve_cash_inputs_with_legacy_compatibility(
        inputs: ActivityCashInputs,
        legacy_gross_compatibility: bool,
    ) -> (r: ResolvedActivityCash)
        requires
            inputs.wf(),
            resolve_with_legacy_spec(inputs, legacy_gross_compatibility) is Some,
        ensures
            r == resolve_with_legacy_spec(inputs, legacy_gross_compatibility).unwrap(),
            r.wf(),
    {
        let c = if legacy_gross_compatibility {
            resolve_legacy_gross_cash_inputs_checked(inputs)
        } else {
            resolve_cash_inputs_checked(inputs)
        };
        match c {
            Some(r) => r,
            None => ResolvedActivityCash::default(),
        }
    }

    /// `resolve_cash_inputs_with_legacy_compatibility`, or `None` where a
    /// `Decimal` overflow would stop it.
    pub fn checked_resolve_cash_inputs_with_legacy_compatibility(
        inputs: ActivityCashInputs,
        legacy_gross_compatibility: bool,
    ) -> (r: Option<ResolvedActivityCash>)
        requires
            inputs.wf(),
        ensures
            r == resolve_with_legacy_spec(inputs, legacy_gross_compatibility),
    {
        let c = if legacy_gross_compatibility {
            resolve_legacy_gross_cash_inputs_checked(inputs)
        } else {
            resolve_cash_inputs_checked(inputs)
        };
        match c {
            Some(_) => Some(Self::resolve_cash_inputs_with_legacy_compatibility(inputs, legacy_gross_compatibility)),
            None => None,
        }
    }

    /// Classifies a legacy stored amount as derived, equivalent, final, gross
    /// (converted to final), ambiguous or missing, comparing it with the
    /// gross and final amounts the activity details imply within `tolerance`.
    pub fn classify_legacy_cash_inputs(inputs: ActivityCashInputs, tolerance: Dec) -> (r: ClassifiedLegacyActivityCash)
        requires
            inputs.wf(),
            tolerance.wf(),
            classify_legacy_cash_inputs_spec(inputs, tolerance) is Some,
        ensures
            r == classify_legacy_cash_inputs_spec(inputs, tolerance).unwrap(),
            opt_wf(r.final_amount),
            r.needs_review <==> (r.classification == LegacyActivityCashClassification::Missing || r.classification == LegacyActivityCashClassification::Ambiguous),
            (r.classification == LegacyActivityCashClassification::Equivalent || r.classification == LegacyActivityCashClassification::Final || r.classification == LegacyActivityCashClassification::Ambiguous || r.classification == LegacyActivityCashClassification::NotApplicable) ==> r.final_amount == opt_abs(inputs.amount),
            r.classification == LegacyActivityCashClassification::Missing ==> r.final_amount is None,
    {
        match classify_legacy_cash_inputs_checked(inputs, tolerance) {
            Some(c) => c,
            None => ClassifiedLegacyActivityCash {
                classification: LegacyActivityCashClassification::Missing,
                final_amount: None,
                needs_review: true,
            },
        }
    }

    /// `classify_legacy_cash_inputs`, or `None` where a `Decimal` overflow
    /// would stop it.
    pub fn checked_classify_legacy_cash_inputs(inputs: ActivityCashInputs, tolerance: Dec) -> (r: Option<ClassifiedLegacyActivityCash>)
        requires
            inputs.wf(),
            tolerance.wf(),
        ensures
            r == classify_legacy_cash_inputs_spec(inputs, tolerance),
            r matches Some(c) ==> opt_wf(c.final_amount),
    {
        match classify_legacy_cash_inputs_checked(inputs, tolerance) {
            Some(_) => Some(Self::classify_legacy_cash_inputs(inputs, tolerance)),
            None => None,
        }
    }

    /// Converts a provider trade amount from gross to final cash only when the
    /// supplied value unambiguously matches gross and does not match final cash.
    pub fn reconcile_imported_trade_amount(inputs: ActivityCashInputs, tolerance: Dec) -> (r: Option<Dec>)
        requires
            inputs.wf(),
            tolerance.wf(),
            reconcile_imported_trade_amount_spec(inputs, tolerance) is Some,
        ensures
            r == reconcile_imported_trade_amount_spec(inputs, tolerance).unwrap(),
            r is Some <==> inputs.amount is Some,
            (inputs.is_security_transfer || !(inputs.activity_type == ActivityType::Buy || inputs.activity_type == ActivityType::Sell)) ==> r == opt_abs(inputs.amount),
    {
        match reconcile_imported_trade_amount_checked(inputs, tolerance) {
            Some(r) => r,
            None => None,
        }
    }

    /// `reconcile_imported_trade_amount`, or `None` where a `Decimal`
    /// overflow would stop it.
    pub fn checked_reconcile_imported_trade_amount(inputs: ActivityCashInputs, tolerance: Dec) -> (r: Option<Option<Dec>>)
        requires
            inputs.wf(),
            tolerance.wf(),
        ensures
            r == reconcile_imported_trade_amount_spec(inputs, tolerance),
    {
        match reconcile_imported_trade_amount_checked(inputs, tolerance) {
            Some(_) => Some(Self::reconcile_imported_trade_amount(inputs, tolerance)),
            None => None,
        }
    }
}


// ---------------------------------------------------------------------------
// Event kinds and basis status.
// ---------------------------------------------------------------------------

#[derive(Clone, Copy, Debug, PartialEq, Eq, Structural)]
pub enum EconomicEventKind {
    CashFlow,
    ExternalSecurityDeliveryIn,
    ExternalSecurityDeliveryOut,
    InternalSecurityTransfer,
    Trade,
    Income,
    Fee,
    Tax,
    UnknownBoundaryTransfer,
    Other,
}

/// How complete the cost basis of a lot is.
#[derive(Clone, Copy, Debug, PartialEq, Eq, Structural)]
pub enum BasisStatus {
    Complete,
    PartialUnknown,
    Unknown,
    NotApplicable,
}

impl Default for BasisStatus {
    fn default() -> (r: BasisStatus)
        ensures
            r == BasisStatus::NotApplicable,
    {
        BasisStatus::NotApplicable
    }
}

impl BasisStatus {
    pub open spec fn as_str_spec(self) -> Seq<char> {
        match self {
            BasisStatus::Complete => "COMPLETE"@,
            BasisStatus::PartialUnknown => "PARTIAL_UNKNOWN"@,
            BasisStatus::Unknown => "UNKNOWN"@,
            BasisStatus::NotApplicable => "NOT_APPLICABLE"@,
        }
    }

    /// The stored code of the status.
    pub fn as_str(self) -> (r: &'static str)
        ensures
            r@ == self.as_str_spec(),
    {
        match self {
            BasisStatus::Complete => "COMPLETE",
            BasisStatus::PartialUnknown => "PARTIAL_UNKNOWN",
            BasisStatus::Unknown => "UNKNOWN",
            BasisStatus::NotApplicable => "NOT_APPLICABLE",
        }
    }

    pub open spec fn from_code_spec(value: Seq<char>) -> BasisStatus {
        let code = ascii_upper_spec(trim_spec(value));
        if code == "COMPLETE"@ {
            BasisStatus::Complete
        } else if code == "PARTIAL_UNKNOWN"@ || code == "PARTIAL"@ {
            BasisStatus::PartialUnknown
        } else if code == "UNKNOWN"@ {
            BasisStatus::Unknown
        } else if code == "NOT_APPLICABLE"@ || code == "N/A"@ || code == "NA"@ {
            BasisStatus::NotApplicable
        } else {
            BasisStatus::Unknown
        }
    }

    /// Reads a stored code, ignoring surrounding whitespace and ASCII case;
    /// unrecognised codes read as `Unknown`.
    pub fn from_code(value: &str) -> (r: BasisStatus)
        ensures
            r == BasisStatus::from_code_spec(value@),
    {
        let trimmed = trim(value);
        let code = to_ascii_uppercase(trimmed.as_str());
        let c = code.as_str();
        if str_eq(c, "COMPLETE") {
            BasisStatus::Complete
        } else if str_eq(c, "PARTIAL_UNKNOWN") || str_eq(c, "PARTIAL") {
            BasisStatus::PartialUnknown
        } else if str_eq(c, "UNKNOWN") {
            BasisStatus::Unknown
        } else if str_eq(c, "NOT_APPLICABLE") || str_eq(c, "N/A") || str_eq(c, "NA") {
            BasisStatus::NotApplicable
        } else {
            BasisStatus::Unknown
        }
    }

    pub open spec fn combine_spec(self, next: BasisStatus) -> BasisStatus {
        if self == BasisStatus::PartialUnknown || next == BasisStatus::PartialUnknown {
            BasisStatus::PartialUnknown
        } else if (self == BasisStatus::Complete && next == BasisStatus::Unknown) || (self == BasisStatus::Unknown && next == BasisStatus::Complete) {
            BasisStatus::PartialUnknown
        } else if self == BasisStatus::Unknown || next == BasisStatus::Unknown {
            BasisStatus::Unknown
        } else if self == BasisStatus::Complete || next == BasisStatus::Complete {
            BasisStatus::Complete
        } else {
            BasisStatus::NotApplicable
        }
    }

    /// The status of a lot assembled from two parts: a part of unknown
    /// status makes a complete part partially unknown.
    pub fn combine(self, next: BasisStatus) -> (r: BasisStatus)
        ensures
            r == self.combine_spec(next),
    {
        match (self, next) {
            (BasisStatus::PartialUnknown, _) | (_, BasisStatus::PartialUnknown) => BasisStatus::PartialUnknown,
            (BasisStatus::Complete, BasisStatus::Unknown) | (BasisStatus::Unknown, BasisStatus::Complete) => BasisStatus::PartialUnknown,
            (BasisStatus::Unknown, _) | (_, BasisStatus::Unknown) => BasisStatus::Unknown,
            (BasisStatus::Complete, _) | (_, BasisStatus::Complete) => BasisStatus::Complete,
            (BasisStatus::NotApplicable, BasisStatus::NotApplicable) => BasisStatus::NotApplicable,
        }
    }
}

/// Combining basis statuses does not depend on the order of the parts.
pub proof fn law_basis_combine_commutative(a: BasisStatus, b: BasisStatus)
    ensures
        a.combine_spec(b) == b.combine_spec(a),
{
}

/// Combining basis statuses does not depend on how the parts are grouped.
pub proof fn law_basis_combine_associative(a: BasisStatus, b: BasisStatus, c: BasisStatus)
    ensures
        a.combine_spec(b).combine_spec(c) == a.combine_spec(b.combine_spec(c)),
{
}

/// `NotApplicable` is neutral for combining, and combining a status with
/// itself gives it back.
pub proof fn law_basis_combine_identity_idempotent(a: BasisStatus)
    ensures
        BasisStatus::NotApplicable.combine_spec(a) == a,
        a.combine_spec(a) == a,
{
}

/// Reading the stored code of a status gives the status back.
pub proof fn law_basis_code_round_trip(a: BasisStatus)
    ensures
        BasisStatus::from_code_spec(a.as_str_spec()) == a,
{
    reveal_strlit("COMPLETE");
    reveal_strlit("PARTIAL_UNKNOWN");
    reveal_strlit("PARTIAL");
    reveal_strlit("UNKNOWN");
    reveal_strlit("NOT_APPLICABLE");
    reveal_strlit("N/A");
    reveal_strlit("NA");
    let s = a.as_str_spec();
    assert(trim_start_spec(s) == s);
    assert(trim_end_spec(s) == s);
    assert(ascii_upper_spec(s) =~= s);
}


// ---------------------------------------------------------------------------
// Activities.
// ---------------------------------------------------------------------------

/// The fields of an activity that its economics read.
#[derive(Clone, Debug)]
pub struct Activity {
    pub id: String,
    pub account_id: String,
    pub asset_id: Option<String>,
    /// The effective activity type.
    pub activity_type: ActivityType,
    pub subtype: Option<String>,
    pub quantity: Option<Dec>,
    pub unit_price: Option<Dec>,
    pub amount: Option<Dec>,
    pub fee: Option<Dec>,
    pub tax: Option<Dec>,
    /// The normalized currency code of the activity.
    pub currency: String,
    pub needs_review: bool,
    /// The text stored at `migrations.cash_amount_v3_8.classification` in
    /// the activity metadata, when there is one.
    pub cash_migration_classification: Option<String>,
    /// Whether the trimmed asset id names a cash position.
    pub asset_is_cash_symbol: bool,
}

impl Activity {
    pub open spec fn wf(&self) -> bool {
        &&& opt_wf(self.quantity)
        &&& opt_wf(self.unit_price)
        &&& opt_wf(self.amount)
        &&& opt_wf(self.fee)
        &&& opt_wf(self.tax)
    }

    pub open spec fn qty_spec(&self) -> Dec {
        match self.quantity {
            Some(q) => q,
            None => Dec::zero_spec(),
        }
    }

    pub open spec fn price_spec(&self) -> Dec {
        match self.unit_price {
            Some(p) => p,
            None => Dec::zero_spec(),
        }
    }

    /// The quantity, zero when missing.
    pub fn qty(&self) -> (r: Dec)
        requires
            self.wf(),
        ensures
            r == self.qty_spec(),
            r.wf(),
    {
        match self.quantity {
            Some(q) => q,
            None => Dec::zero(),
        }
    }

    /// The unit price, zero when missing.
    pub fn price(&self) -> (r: Dec)
        requires
            self.wf(),
        ensures
            r == self.price_spec(),
            r.wf(),
    {
        match self.unit_price {
            Some(p) => p,
            None => Dec::zero(),
        }
    }
}

/// The cash inputs of an activity.
pub open spec fn activity_cash_inputs(activity: Activity, unit_multiplier: Dec) -> ActivityCashInputs {
    ActivityCashInputs {
        activity_type: activity.activity_type,
        is_security_transfer: is_security_transfer_spec(activity),
        quantity: activity.quantity,
        unit_price: activity.unit_price,
        amount: activity.amount,
        fee: activity.fee,
        tax: activity.tax,
        unit_multiplier,
    }
}

pub open spec fn is_security_transfer_spec(activity: Activity) -> bool {
    &&& (activity.activity_type == ActivityType::TransferIn || activity.activity_type == ActivityType::TransferOut)
    &&& activity.asset_id matches Some(id) && trim_spec(id@).len() > 0 && !activity.asset_is_cash_symbol
}

pub open spec fn uses_legacy_gross_compatibility_spec(activity: Activity) -> bool {
    activity.needs_review && (activity.cash_migration_classification matches Some(c) && c@ == LegacyActivityCashClassification::Ambiguous.as_str_spec())
}

pub open spec fn resolve_cash_spec(activity: Activity, unit_multiplier: Dec) -> Option<ResolvedActivityCash> {
    resolve_with_legacy_spec(activity_cash_inputs(activity, unit_multiplier), uses_legacy_gross_compatibility_spec(activity))
}

pub open spec fn resolve_cash_with_account_context_spec(activity: Activity, unit_multiplier: Dec, is_credit_card_account: bool) -> Option<ResolvedActivityCash> {
    match resolve_cash_spec(activity, unit_multiplier) {
        None => None,
        Some(r) => if is_credit_card_account && activity.activity_type == ActivityType::Interest {
            Some(ResolvedActivityCash { signed_cash_effect: abs_or_zero(r.amount).neg_spec(), ..r })
        } else {
            Some(r)
        },
    }
}

pub open spec fn lot_cost_basis_value_spec(activity: Activity, unit_multiplier: Dec) -> Option<Dec> {
    match spec_mul(activity.qty_spec(), activity.price_spec()) {
        None => None,
        Some(qp) => match spec_mul(qp, valid_unit_multiplier_spec(unit_multiplier)) {
            None => None,
            Some(basis) => if !basis.is_zero_spec() {
                Some(basis)
            } else if activity.activity_type == ActivityType::TransferIn && !activity.qty_spec().is_zero_spec() {
                Some(abs_or_zero(activity.amount))
            } else {
                Some(Dec::zero_spec())
            },
        },
    }
}

pub open spec fn lot_cost_basis_uses_legacy_amount_spec(activity: Activity) -> bool {
    &&& activity.activity_type == ActivityType::TransferIn
    &&& activity.quantity matches Some(q) && !q.is_zero_spec()
    &&& (activity.unit_price matches Some(p) ==> p.is_zero_spec())
    &&& activity.amount matches Some(a) && !a.is_zero_spec()
}

pub open spec fn security_transfer_has_book_basis_spec(activity: Activity) -> bool {
    &&& is_security_transfer_spec(activity)
    &&& activity.quantity matches Some(q) && !q.is_zero_spec()
    &&& ((activity.unit_price matches Some(p) && !p.is_zero_spec()) || (activity.activity_type == ActivityType::TransferIn && (activity.amount matches Some(a) && !a.is_zero_spec())))
}

pub open spec fn security_transfer_basis_status_spec(activity: Activity) -> BasisStatus {
    if security_transfer_has_book_basis_spec(activity) {
        BasisStatus::Complete
    } else {
        BasisStatus::Unknown
    }
}

pub open spec fn is_bonus_credit_spec(activity: Activity) -> bool {
    activity.subtype matches Some(st) && ascii_upper_spec(st@) == ascii_upper_spec("BONUS"@)
}

pub open spec fn transfer_event_kind_spec(activity: Activity, boundary: TransferBoundary) -> EconomicEventKind {
    match boundary {
        TransferBoundary::Internal => EconomicEventKind::InternalSecurityTransfer,
        TransferBoundary::Unknown => EconomicEventKind::UnknownBoundaryTransfer,
        TransferBoundary::External => if activity.activity_type == ActivityType::TransferIn && is_security_transfer_spec(activity) {
            EconomicEventKind::ExternalSecurityDeliveryIn
        } else if activity.activity_type == ActivityType::TransferOut && is_security_transfer_spec(activity) {
            EconomicEventKind::ExternalSecurityDeliveryOut
        } else {
            EconomicEventKind::CashFlow
        },
    }
}

pub open spec fn event_kind_spec(activity: Activity, boundary: TransferBoundary) -> EconomicEventKind {
    match activity.activity_type {
        ActivityType::Deposit | ActivityType::Withdrawal => EconomicEventKind::CashFlow,
        ActivityType::Credit => if is_bonus_credit_spec(activity) {
            EconomicEventKind::CashFlow
        } else {
            EconomicEventKind::Income
        },
        ActivityType::Buy | ActivityType::Sell => EconomicEventKind::Trade,
        ActivityType::Dividend | ActivityType::Interest => EconomicEventKind::Income,
        ActivityType::Fee => EconomicEventKind::Fee,
        ActivityType::Tax => EconomicEventKind::Tax,
        ActivityType::TransferIn | ActivityType::TransferOut => transfer_event_kind_spec(activity, boundary),
        _ => EconomicEventKind::Other,
    }
}

#[derive(Clone, Copy, Debug, PartialEq, Eq, Structural)]
pub enum TransferBoundary {
    Internal,
    External,
    Unknown,
}

/// The fields of an asset that fix its activity cash multiplier.
#[derive(Clone, Copy, Debug)]
pub struct Asset {
    pub is_bond: bool,
    /// The contract multiplier configured in the asset metadata, if any.
    pub explicit_contract_multiplier: Option<Dec>,
    /// The contract multiplier used for valuation.
    pub contract_multiplier: Dec,
}

pub open spec fn asset_unit_multiplier_spec(asset: Asset) -> Dec {
    if asset.is_bond {
        match asset.explicit_contract_multiplier {
            Some(m) => m,
            None => Dec { negative: false, mantissa: 1, scale: 2 },
        }
    } else {
        asset.contract_multiplier
    }
}

impl ActivityEconomicsResolver {
    /// Unit multiplier used only for activity cash totals. Bond quotes are
    /// commonly percentages of par, but that convention must not affect
    /// portfolio-wide asset valuation.
    pub fn asset_unit_multiplier(asset: &Asset) -> (r: Dec)
        ensures
            r == asset_unit_multiplier_spec(*asset),
    {
        if asset.is_bond {
            match asset.explicit_contract_multiplier {
                Some(m) => m,
                None => Dec::new(1, 2),
            }
        } else {
            asset.contract_multiplier
        }
    }

    /// A transfer of a non-cash security (not a cash transfer).
    pub fn is_security_transfer(activity: &Activity) -> (r: bool)
        ensures
            r == is_security_transfer_spec(*activity),
    {
        if !(activity.activity_type == ActivityType::TransferIn || activity.activity_type == ActivityType::TransferOut) {
            return false;
        }
        match &activity.asset_id {
            Some(id) => {
                let trimmed = trim(id.as_str());
                trimmed.as_str().unicode_len() > 0 && !activity.asset_is_cash_symbol
            },
            None => false,
        }
    }

    fn uses_legacy_gross_compatibility(activity: &Activity) -> (r: bool)
        ensures
            r == uses_legacy_gross_compatibility_spec(*activity),
    {
        activity.needs_review && match &activity.cash_migration_classification {
            Some(c) => str_eq(c.as_str(), LegacyActivityCashClassification::Ambiguous.as_str()),
            None => false,
        }
    }

    fn cash_inputs(activity: &Activity, unit_multiplier: Dec) -> (r: ActivityCashInputs)
        requires
            activity.wf(),
            unit_multiplier.wf(),
        ensures
            r == activity_cash_inputs(*activity, unit_multiplier),
            r.wf(),
    {
        ActivityCashInputs {
            activity_type: activity.activity_type,
            is_security_transfer: Self::is_security_transfer(activity),
            quantity: activity.quantity,
            unit_price: activity.unit_price,
            amount: activity.amount,
            fee: activity.fee,
            tax: activity.tax,
            unit_multiplier,
        }
    }

    fn resolve_cash_checked(activity: &Activity, unit_multiplier: Dec) -> (r: Option<ResolvedActivityCash>)
        requires
            activity.wf(),
            unit_multiplier.wf(),
        ensures
            r == resolve_cash_spec(*activity, unit_multiplier),
            r matches Some(x) ==> x.wf(),
    {
        let inputs = Self::cash_inputs(activity, unit_multiplier);
        if Self::uses_legacy_gross_compatibility(activity) {
            resolve_legacy_gross_cash_inputs_checked(inputs)
        } else {
            resolve_cash_inputs_checked(inputs)
        }
    }

    /// Resolves the cash economics of an activity, reading a stored amount
    /// still marked ambiguous by the legacy migration as a gross amount.
    pub fn resolve_cash(activity: &Activity, unit_multiplier: Dec) -> (r: ResolvedActivityCash)
        requires
            activity.wf(),
            unit_multiplier.wf(),
            resolve_cash_spec(*activity, unit_multiplier) is Some,
        ensures
            r == resolve_cash_spec(*activity, unit_multiplier).unwrap(),
            r.wf(),
    {
        match Self::resolve_cash_checked(activity, unit_multiplier) {
            Some(r) => r,
            None => ResolvedActivityCash::default(),
        }
    }

    /// Resolves the one direction exception that depends on account context.
    /// Investment-account interest is income; credit-card interest increases
    /// the liability and is therefore an outflow.
    pub fn resolve_cash_with_account_context(
        activity: &Activity,
        unit_multiplier: Dec,
        is_credit_card_account: bool,
    ) -> (r: ResolvedActivityCash)
        requires
            activity.wf(),
            unit_multiplier.wf(),
            resolve_cash_spec(*activity, unit_multiplier) is Some,
        ensures
            r == resolve_cash_with_account_context_spec(*activity, unit_multiplier, is_credit_card_account).unwrap(),
            is_credit_card_account && activity.activity_type == ActivityType::Interest ==> r.signed_cash_effect.negative,
    {
        let mut resolved = Self::resolve_cash(activity, unit_multiplier);
        if is_credit_card_account && activity.activity_type == ActivityType::Interest {
            resolved.signed_cash_effect = abs_or_zero_exec(resolved.amount).neg();
        }
        resolved
    }

    /// `resolve_cash`, or `None` where a `Decimal` overflow would stop it.
    pub fn checked_resolve_cash(activity: &Activity, unit_multiplier: Dec) -> (r: Option<ResolvedActivityCash>)
        requires
            activity.wf(),
            unit_multiplier.wf(),
        ensures
            r == resolve_cash_spec(*activity, unit_multiplier),
    {
        match Self::resolve_cash_checked(activity, unit_multiplier) {
            Some(_) => Some(Self::resolve_cash(activity, unit_multiplier)),
            None => None,
        }
    }

    /// `resolve_cash_with_account_context`, or `None` where a `Decimal`
    /// overflow would stop it.
    pub fn checked_resolve_cash_with_account_context(
        activity: &Activity,
        unit_multiplier: Dec,
        is_credit_card_account: bool,
    ) -> (r: Option<ResolvedActivityCash>)
        requires
            activity.wf(),
            unit_multiplier.wf(),
        ensures
            r == resolve_cash_with_account_context_spec(*activity, unit_multiplier, is_credit_card_account),
    {
        match Self::resolve_cash_checked(activity, unit_multiplier) {
            Some(_) => Some(Self::resolve_cash_with_account_context(activity, unit_multiplier, is_credit_card_account)),
            None => None,
        }
    }

    fn lot_cost_basis_checked(activity: &Activity, unit_multiplier: Dec) -> (r: Option<Dec>)
        requires
            activity.wf(),
            unit_multiplier.wf(),
        ensures
            r == lot_cost_basis_value_spec(*activity, unit_multiplier),
            r matches Some(x) ==> x.wf(),
    {
        let quantity = activity.qty();
        let m = valid_unit_multiplier(unit_multiplier);
        let qp = match dec_mul(quantity, activity.price()) {
            Some(x) => x,
            None => return None,
        };
        let basis = match dec_mul(qp, m) {
            Some(x) => x,
            None => return None,
        };
        if !basis.is_zero() {
            Some(basis)
        } else if activity.activity_type == ActivityType::TransferIn && !quantity.is_zero() {
            Some(abs_or_zero_exec(activity.amount))
        } else {
            Some(Dec::zero())
        }
    }

    /// The book cost of a transferred lot: quantity × price × multiplier, or
    /// for a transfer-in with a quantity but no price, the activity amount.
    pub fn lot_cost_basis_value_with_unit_multiplier(activity: &Activity, unit_multiplier: Dec) -> (r: Dec)
        requires
            activity.wf(),
            unit_multiplier.wf(),
            lot_cost_basis_value_spec(*activity, unit_multiplier) is Some,
        ensures
            r == lot_cost_basis_value_spec(*activity, unit_multiplier).unwrap(),
            r.wf(),
    {
        match Self::lot_cost_basis_checked(activity, unit_multiplier) {
            Some(x) => x,
            None => Dec::zero(),
        }
    }

    /// `lot_cost_basis_value_with_unit_multiplier` with a multiplier of one.
    pub fn lot_cost_basis_value(activity: &Activity) -> (r: Dec)
        requires
            activity.wf(),
            lot_cost_basis_value_spec(*activity, Dec::one_spec()) is Some,
        ensures
            r == lot_cost_basis_value_spec(*activity, Dec::one_spec()).unwrap(),
    {
        Self::lot_cost_basis_value_with_unit_multiplier(activity, Dec::one())
    }

    /// `lot_cost_basis_value_with_unit_multiplier`, or `None` where a
    /// `Decimal` overflow would stop it.
    pub fn checked_lot_cost_basis_value_with_unit_multiplier(activity: &Activity, unit_multiplier: Dec) -> (r: Option<Dec>)
        requires
            activity.wf(),
            unit_multiplier.wf(),
        ensures
            r == lot_cost_basis_value_spec(*activity, unit_multiplier),
    {
        match Self::lot_cost_basis_checked(activity, unit_multiplier) {
            Some(_) => Some(Self::lot_cost_basis_value_with_unit_multiplier(activity, unit_multiplier)),
            None => None,
        }
    }

    fn lot_cost_basis_uses_legacy_amount(activity: &Activity) -> (r: bool)
        ensures
            r == lot_cost_basis_uses_legacy_amount_spec(*activity),
    {
        let unit_price_missing_or_zero = match activity.unit_price {
            Some(p) => p.is_zero(),
            None => true,
        };
        activity.activity_type == ActivityType::TransferIn
            && match activity.quantity {
            Some(q) => !q.is_zero(),
            None => false,
        } && unit_price_missing_or_zero && match activity.amount {
            Some(a) => !a.is_zero(),
            None => false,
        }
    }

    /// A security transfer whose lot cost is known: a non-zero quantity with
    /// a non-zero price, or a transfer-in with a non-zero amount.
    pub fn security_transfer_has_book_basis(activity: &Activity) -> (r: bool)
        ensures
            r == security_transfer_has_book_basis_spec(*activity),
    {
        Self::is_security_transfer(activity) && match activity.quantity {
            Some(q) => !q.is_zero(),
            None => false,
        } && (match activity.unit_price {
            Some(p) => !p.is_zero(),
            None => false,
        } || (activity.activity_type == ActivityType::TransferIn && match activity.amount {
            Some(a) => !a.is_zero(),
            None => false,
        }))
    }

    fn security_transfer_basis_status(activity: &Activity) -> (r: BasisStatus)
        ensures
            r == security_transfer_basis_status_spec(*activity),
    {
        if Self::security_transfer_has_book_basis(activity) {
            BasisStatus::Complete
        } else {
            BasisStatus::Unknown
        }
    }

    fn event_kind(activity: &Activity, boundary: TransferBoundary) -> (r: EconomicEventKind)
        ensures
            r == event_kind_spec(*activity, boundary),
    {
        match activity.activity_type {
            ActivityType::Deposit | ActivityType::Withdrawal => EconomicEventKind::CashFlow,
            ActivityType::Credit => {
                let bonus = match &activity.subtype {
                    Some(st) => eq_ignore_ascii_case(st.as_str(), "BONUS"),
                    None => false,
                };
                if bonus {
                    EconomicEventKind::CashFlow
                } else {
                    EconomicEventKind::Income
                }
            },
            ActivityType::Buy | ActivityType::Sell => EconomicEventKind::Trade,
            ActivityType::Dividend | ActivityType::Interest => EconomicEventKind::Income,
            ActivityType::Fee => EconomicEventKind::Fee,
            ActivityType::Tax => EconomicEventKind::Tax,
            ActivityType::TransferIn | ActivityType::TransferOut => Self::transfer_event_kind(activity, boundary),
            _ => EconomicEventKind::Other,
        }
    }

    fn transfer_event_kind(activity: &Activity, boundary: TransferBoundary) -> (r: EconomicEventKind)
        ensures
            r == transfer_event_kind_spec(*activity, boundary),
    {
        match boundary {
            TransferBoundary::Internal => EconomicEventKind::InternalSecurityTransfer,
            TransferBoundary::Unknown => EconomicEventKind::UnknownBoundaryTransfer,
            TransferBoundary::External => {
                let security = Self::is_security_transfer(activity);
                if activity.activity_type == ActivityType::TransferIn && security {
                    EconomicEventKind::ExternalSecurityDeliveryIn
                } else if activity.activity_type == ActivityType::TransferOut && security {
                    EconomicEventKind::ExternalSecurityDeliveryOut
                } else {
                    EconomicEventKind::CashFlow
                }
            },
        }
    }
}


// ---------------------------------------------------------------------------
// Compiled activity economics.
// ---------------------------------------------------------------------------

/// Where a performance flow value came from.
#[derive(Clone, Copy, Debug, PartialEq, Eq, Structural)]
pub enum ExternalFlowSource {
    CashAmount,
    QuoteDerivedMarketValue,
    CostBasisFallback,
    LegacyActivityAmountFallback,
    UnknownBoundaryTransfer,
    Unknown,
}

/// A transfer-date quote, with its price and currency already normalized to
/// the main currency unit.
#[derive(Clone, Debug)]
pub struct Quote {
    pub close: Dec,
    pub currency: String,
}

#[derive(Clone, Debug)]
pub struct ResolvedActivityEconomics {
    pub kind: EconomicEventKind,
    pub lot_cost_basis_value: Dec,
    pub lot_cost_basis_currency: String,
    pub performance_flow_value: Dec,
    pub performance_flow_currency: String,
    pub performance_flow_source: ExternalFlowSource,
    pub basis_status: BasisStatus,
    pub diagnostics: Vec<String>,
}

/// The content of a `ResolvedActivityEconomics`, texts as character sequences.
pub struct EconomicsView {
    pub kind: EconomicEventKind,
    pub lot_cost_basis_value: Dec,
    pub lot_cost_basis_currency: Seq<char>,
    pub performance_flow_value: Dec,
    pub performance_flow_currency: Seq<char>,
    pub performance_flow_source: ExternalFlowSource,
    pub basis_status: BasisStatus,
    pub diagnostics: Seq<Seq<char>>,
}

pub open spec fn texts(v: Seq<String>) -> Seq<Seq<char>> {
    v.map_values(|s: String| s@)
}

impl ResolvedActivityEconomics {
    pub open spec fn view_spec(&self) -> EconomicsView {
        EconomicsView {
            kind: self.kind,
            lot_cost_basis_value: self.lot_cost_basis_value,
            lot_cost_basis_currency: self.lot_cost_basis_currency@,
            performance_flow_value: self.performance_flow_value,
            performance_flow_currency: self.performance_flow_currency@,
            performance_flow_source: self.performance_flow_source,
            basis_status: self.basis_status,
            diagnostics: texts(self.diagnostics@),
        }
    }
}

pub open spec fn diag_unknown_boundary(id: Seq<char>) -> Seq<char> {
    "Transfer activity "@ + id + " has no valid pair and is not explicitly external."@
}

pub open spec fn diag_transfer_out_deferred(id: Seq<char>) -> Seq<char> {
    "Security transfer-out activity "@ + id + " deferred performance flow to removed lot basis because no transfer-date quote was available."@
}

pub open spec fn diag_legacy_cost_basis(id: Seq<char>) -> Seq<char> {
    "Security transfer activity "@ + id + " used legacy activity amount as cost basis and performance flow fallback because quote and unit price were unavailable."@
}

pub open spec fn diag_cost_basis_fallback(id: Seq<char>) -> Seq<char> {
    "Security transfer activity "@ + id + " used cost basis as performance flow fallback because no transfer-date quote was available."@
}

pub open spec fn diag_legacy_amount_fallback(id: Seq<char>) -> Seq<char> {
    "Security transfer activity "@ + id + " used legacy activity amount as performance flow fallback because quote and cost basis were unavailable."@
}

pub open spec fn diag_no_flow(id: Seq<char>) -> Seq<char> {
    "Security transfer activity "@ + id + " has no quote, cost basis, or legacy amount for performance flow."@
}

pub open spec fn gross_or_legacy_flow_amount_spec(activity: Activity) -> Option<Dec> {
    match resolve_cash_spec(activity, Dec::one_spec()) {
        None => None,
        Some(r) => match r.gross_amount {
            Some(g) => Some(g),
            None => Some(abs_or_zero(activity.amount)),
        },
    }
}

pub open spec fn economics(
    kind: EconomicEventKind,
    lot: Dec,
    lot_currency: Seq<char>,
    flow: Dec,
    flow_currency: Seq<char>,
    source: ExternalFlowSource,
    basis: BasisStatus,
    diagnostics: Seq<Seq<char>>,
) -> EconomicsView {
    EconomicsView {
        kind,
        lot_cost_basis_value: lot,
        lot_cost_basis_currency: lot_currency,
        performance_flow_value: flow,
        performance_flow_currency: flow_currency,
        performance_flow_source: source,
        basis_status: basis,
        diagnostics,
    }
}

/// The compiled economics of an activity: event kind, cost basis of a
/// transferred lot, and the performance flow with its source, as the case
/// analysis on the activity's type and transfer boundary decides them.
pub open spec fn compile_activity_spec(
    activity: Activity,
    quote: Option<Quote>,
    boundary: TransferBoundary,
    unit_multiplier: Dec,
) -> Option<EconomicsView> {
    let cur = activity.currency@;
    let id = activity.id@;
    let kind = event_kind_spec(activity, boundary);
    let is_st = is_security_transfer_spec(activity);
    let m = valid_unit_multiplier_spec(unit_multiplier);
    let lot_opt = if is_st {
        lot_cost_basis_value_spec(activity, m)
    } else {
        Some(Dec::zero_spec())
    };
    let legacy = is_st && lot_cost_basis_uses_legacy_amount_spec(activity);
    let ub = kind == EconomicEventKind::UnknownBoundaryTransfer;
    let diags: Seq<Seq<char>> = if ub {
        seq![diag_unknown_boundary(id)]
    } else {
        seq![]
    };
    match lot_opt {
        None => None,
        Some(lot) => if kind == EconomicEventKind::InternalSecurityTransfer {
            Some(economics(kind, lot, cur, Dec::zero_spec(), cur, ExternalFlowSource::Unknown, if is_st {
                security_transfer_basis_status_spec(activity)
            } else {
                BasisStatus::NotApplicable
            }, diags))
        } else if is_st {
            let market: Option<Option<Dec>> = match quote {
                Some(q) => match spec_mul(activity.qty_spec(), q.close) {
                    None => None,
                    Some(x) => match spec_mul(x, m) {
                        None => None,
                        Some(mv) => if !mv.is_zero_spec() {
                            Some(Some(mv))
                        } else {
                            Some(None)
                        },
                    },
                },
                None => Some(None),
            };
            match market {
                None => None,
                Some(Some(mv)) => Some(economics(kind, lot, cur, mv.abs_spec(), quote.unwrap().currency@, if ub {
                    ExternalFlowSource::UnknownBoundaryTransfer
                } else {
                    ExternalFlowSource::QuoteDerivedMarketValue
                }, security_transfer_basis_status_spec(activity), diags)),
                Some(None) => if activity.activity_type == ActivityType::TransferOut {
                    Some(economics(kind, lot, cur, Dec::zero_spec(), cur, if ub {
                        ExternalFlowSource::UnknownBoundaryTransfer
                    } else {
                        ExternalFlowSource::Unknown
                    }, if lot.is_zero_spec() {
                        BasisStatus::Unknown
                    } else {
                        BasisStatus::Complete
                    }, diags.push(diag_transfer_out_deferred(id))))
                } else if !lot.is_zero_spec() {
                    Some(economics(kind, lot, cur, lot.abs_spec(), cur, if ub {
                        ExternalFlowSource::UnknownBoundaryTransfer
                    } else if legacy {
                        ExternalFlowSource::LegacyActivityAmountFallback
                    } else {
                        ExternalFlowSource::CostBasisFallback
                    }, BasisStatus::Complete, diags.push(if legacy {
                        diag_legacy_cost_basis(id)
                    } else {
                        diag_cost_basis_fallback(id)
                    })))
                } else if activity.amount matches Some(a) && !a.is_zero_spec() {
                    Some(economics(kind, lot, cur, activity.amount.unwrap().abs_spec(), cur, if ub {
                        ExternalFlowSource::UnknownBoundaryTransfer
                    } else {
                        ExternalFlowSource::LegacyActivityAmountFallback
                    }, BasisStatus::Unknown, diags.push(diag_legacy_amount_fallback(id))))
                } else {
                    Some(economics(kind, lot, cur, Dec::zero_spec(), cur, ExternalFlowSource::UnknownBoundaryTransfer, BasisStatus::Unknown, diags.push(diag_no_flow(id))))
                },
            }
        } else if ub {
            Some(economics(kind, lot, cur, Dec::zero_spec(), cur, ExternalFlowSource::UnknownBoundaryTransfer, BasisStatus::NotApplicable, diags))
        } else {
            match gross_or_legacy_flow_amount_spec(activity) {
                None => None,
                Some(flow) => Some(economics(kind, lot, cur, flow, cur, if flow.is_zero_spec() {
                    ExternalFlowSource::Unknown
                } else {
                    ExternalFlowSource::CashAmount
                }, BasisStatus::NotApplicable, diags)),
            }
        },
    }
}

/// A recovered gross amount is never negative.
proof fn lemma_resolved_gross_not_negative(i: ActivityCashInputs, legacy: bool, r: ResolvedActivityCash, g: Dec)
    requires
        resolve_with_legacy_spec(i, legacy) == Some(r),
        r.gross_amount == Some(g),
    ensures
        g.units() >= 0,
{
    crate::decimal::lemma_units_sign(g);
    if legacy && (opt_abs(i.amount) matches Some(a) && !a.is_zero_spec()) {
        crate::decimal::lemma_units_sign(i.amount.unwrap());
    } else if i.activity_type != ActivityType::Split && !i.is_security_transfer {
        let fee = abs_or_zero(i.fee);
        let tax = abs_or_zero(i.tax);
        let expected = derived_cash_effect_spec(i, fee, tax).unwrap();
        let amount = final_amount_spec(opt_abs(i.amount), opt_abs(expected));
        if amount is Some {
            assert(!amount.unwrap().negative);
            crate::decimal::lemma_units_sign(amount.unwrap());
        }
    }
}

/// A non-positive unit multiplier counts as one: the economics are those of
/// a multiplier of one.
pub proof fn law_compile_nonpositive_multiplier(activity: Activity, quote: Option<Quote>, boundary: TransferBoundary, unit_multiplier: Dec)
    requires
        unit_multiplier.units() <= 0,
    ensures
        compile_activity_spec(activity, quote, boundary, unit_multiplier) == compile_activity_spec(activity, quote, boundary, Dec::one_spec()),
{
    crate::decimal::lemma_units_sign(Dec::one_spec());
    assert(valid_unit_multiplier_spec(unit_multiplier) == valid_unit_multiplier_spec(Dec::one_spec()));
}

/// The performance flow of an activity is never negative.
pub proof fn law_compile_flow_not_negative(activity: Activity, quote: Option<Quote>, boundary: TransferBoundary, unit_multiplier: Dec)
    requires
        compile_activity_spec(activity, quote, boundary, unit_multiplier) is Some,
    ensures
        compile_activity_spec(activity, quote, boundary, unit_multiplier).unwrap().performance_flow_value.units() >= 0,
{
    let v = compile_activity_spec(activity, quote, boundary, unit_multiplier).unwrap();
    let f = v.performance_flow_value;
    crate::decimal::lemma_units_sign(f);
    crate::decimal::lemma_units_sign(Dec::zero_spec());
    if let Some(r) = resolve_cash_spec(activity, Dec::one_spec()) {
        if let Some(g) = r.gross_amount {
            lemma_resolved_gross_not_negative(activity_cash_inputs(activity, Dec::one_spec()), uses_legacy_gross_compatibility_spec(activity), r, g);
        }
    }
}

/// An internal transfer moves no value across the portfolio boundary: its
/// event is an internal security transfer with no performance flow, no
/// diagnostics, both amounts in the activity's currency, and a basis that
/// is complete or unknown for a security transfer by whether it carries a
/// book basis.
pub proof fn law_internal_transfer_economics(activity: Activity, quote: Option<Quote>, unit_multiplier: Dec)
    requires
        activity.activity_type == ActivityType::TransferIn || activity.activity_type == ActivityType::TransferOut,
        compile_activity_spec(activity, quote, TransferBoundary::Internal, unit_multiplier) is Some,
    ensures
        ({
            let v = compile_activity_spec(activity, quote, TransferBoundary::Internal, unit_multiplier).unwrap();
            &&& v.kind == EconomicEventKind::InternalSecurityTransfer
            &&& v.performance_flow_value == Dec::zero_spec()
            &&& v.performance_flow_source == ExternalFlowSource::Unknown
            &&& v.diagnostics.len() == 0
            &&& v.lot_cost_basis_currency == activity.currency@
            &&& v.performance_flow_currency == activity.currency@
            &&& v.basis_status == (if is_security_transfer_spec(activity) {
                if security_transfer_has_book_basis_spec(activity) { BasisStatus::Complete } else { BasisStatus::Unknown }
            } else {
                BasisStatus::NotApplicable
            })
        }),
{
}

/// A credit is a cash flow exactly when its subtype is `BONUS` (ignoring
/// ASCII case); any other credit, with or without a subtype, is income.  The
/// compiled economics carry that kind whenever they exist.
pub proof fn law_credit_event_kind(activity: Activity, quote: Option<Quote>, boundary: TransferBoundary, unit_multiplier: Dec)
    requires
        activity.activity_type == ActivityType::Credit,
    ensures
        ({
            let bonus = activity.subtype matches Some(st) && ascii_upper_spec(st@) == ascii_upper_spec("BONUS"@);
            &&& event_kind_spec(activity, boundary) == (if bonus { EconomicEventKind::CashFlow } else { EconomicEventKind::Income })
            &&& compile_activity_spec(activity, quote, boundary, unit_multiplier) matches Some(v)
                ==> v.kind == (if bonus { EconomicEventKind::CashFlow } else { EconomicEventKind::Income })
        }),
{
}

/// The event kind of every other type: deposits and withdrawals are cash
/// flows, buys and sells trades, dividends and interest income, fees and
/// taxes their own kinds; a transfer is internal or of unknown boundary as the
/// boundary says, and across an external boundary a delivery of securities in
/// or out when it moves a security, else a cash flow; splits and other types
/// are `Other`.
pub proof fn law_event_kind_by_type(activity: Activity, boundary: TransferBoundary)
    ensures
        ({
            let t = activity.activity_type;
            let k = event_kind_spec(activity, boundary);
            &&& (t == ActivityType::Deposit || t == ActivityType::Withdrawal) ==> k == EconomicEventKind::CashFlow
            &&& (t == ActivityType::Buy || t == ActivityType::Sell) ==> k == EconomicEventKind::Trade
            &&& (t == ActivityType::Dividend || t == ActivityType::Interest) ==> k == EconomicEventKind::Income
            &&& t == ActivityType::Fee ==> k == EconomicEventKind::Fee
            &&& t == ActivityType::Tax ==> k == EconomicEventKind::Tax
            &&& (t == ActivityType::Split || t == ActivityType::Other) ==> k == EconomicEventKind::Other
            &&& (t == ActivityType::TransferIn || t == ActivityType::TransferOut) ==> k == (match boundary {
                TransferBoundary::Internal => EconomicEventKind::InternalSecurityTransfer,
                TransferBoundary::Unknown => EconomicEventKind::UnknownBoundaryTransfer,
                TransferBoundary::External => if !is_security_transfer_spec(activity) {
                    EconomicEventKind::CashFlow
                } else if t == ActivityType::TransferIn {
                    EconomicEventKind::ExternalSecurityDeliveryIn
                } else {
                    EconomicEventKind::ExternalSecurityDeliveryOut
                },
            })
        }),
{
}

/// An imported amount is kept as it is, in magnitude, for anything but a buy
/// or sell of cash, and for a buy or sell whose quantity or price is missing.
pub proof fn law_reconcile_keeps_amount_without_trade_details(i: ActivityCashInputs, tolerance: Dec)
    requires
        i.is_security_transfer || !(i.activity_type == ActivityType::Buy || i.activity_type == ActivityType::Sell)
            || i.quantity is None || i.unit_price is None,
        !(i.activity_type == ActivityType::Buy || i.activity_type == ActivityType::Sell) || i.is_security_transfer
            || spec_add(abs_or_zero(i.fee), abs_or_zero(i.tax)) is Some,
    ensures
        reconcile_imported_trade_amount_spec(i, tolerance) == Some(opt_abs(i.amount)),
{
}

/// The account context matters only for interest: on a credit-card account
/// interest is charged, so its cash effect is the negated magnitude of its
/// amount; every other resolution, and every resolution on another account,
/// is exactly that of `resolve_cash`.
pub proof fn law_account_context_only_turns_card_interest(activity: Activity, unit_multiplier: Dec, is_credit_card_account: bool)
    ensures
        !(is_credit_card_account && activity.activity_type == ActivityType::Interest)
            ==> resolve_cash_with_account_context_spec(activity, unit_multiplier, is_credit_card_account) == resolve_cash_spec(activity, unit_multiplier),
        (is_credit_card_account && activity.activity_type == ActivityType::Interest) ==> (match resolve_cash_spec(activity, unit_multiplier) {
            None => resolve_cash_with_account_context_spec(activity, unit_multiplier, is_credit_card_account) is None,
            Some(r) => resolve_cash_with_account_context_spec(activity, unit_multiplier, is_credit_card_account) == Some(ResolvedActivityCash {
                amount: r.amount,
                expected_amount: r.expected_amount,
                signed_cash_effect: (match r.amount { Some(a) => a.abs_spec(), None => Dec::zero_spec() }).neg_spec(),
                gross_amount: r.gross_amount,
                amount_was_derived: r.amount_was_derived,
            }),
        }),
{
}

/// A legacy amount taken as gross is converted to the magnitude of the final
/// cash that gross implies for the activity type, with charges = |fee| + |tax|:
/// gross + charges where the cash leaves (buy, withdrawal, transfer out), and
/// |gross − charges| where it comes in (sell, deposit, dividend, interest,
/// credit, transfer in).  No other type is ever taken as gross.
pub proof fn law_classify_gross_converts_to_final(i: ActivityCashInputs, tolerance: Dec)
    requires
        classify_legacy_cash_inputs_spec(i, tolerance) matches Some(c) && c.classification == LegacyActivityCashClassification::Gross,
    ensures
        ({
            let c = classify_legacy_cash_inputs_spec(i, tolerance).unwrap();
            let t = i.activity_type;
            &&& i.amount is Some
            &&& spec_add(abs_or_zero(i.fee), abs_or_zero(i.tax)) is Some
            &&& ({
                let s = i.amount.unwrap().abs_spec();
                let charges = spec_add(abs_or_zero(i.fee), abs_or_zero(i.tax)).unwrap();
                &&& (t == ActivityType::Buy || t == ActivityType::Withdrawal || t == ActivityType::TransferOut)
                    ==> c.final_amount == opt_abs(spec_add(s, charges))
                &&& (t == ActivityType::Sell || t == ActivityType::Deposit || t == ActivityType::Dividend || t == ActivityType::Interest
                    || t == ActivityType::Credit || t == ActivityType::TransferIn)
                    ==> c.final_amount == opt_abs(spec_sub(s, charges))
            })
            &&& (t == ActivityType::Buy || t == ActivityType::Withdrawal || t == ActivityType::TransferOut
                || t == ActivityType::Sell || t == ActivityType::Deposit || t == ActivityType::Dividend || t == ActivityType::Interest
                || t == ActivityType::Credit || t == ActivityType::TransferIn)
            &&& !c.needs_review
        }),
{
}

/// Reconciling an imported buy or sell, where `gross` is
/// |quantity| × |unit price| × multiplier (a non-positive multiplier counting
/// as one), `charges` is |fee| + |tax| and `fin` the final cash (gross plus
/// charges for a buy, gross less charges for a sell): a supplied amount that
/// matches the gross within the tolerance and not the final cash is converted
/// to final cash, supplied + charges for a buy and |supplied − charges| for a
/// sell; any other supplied amount is kept as it is.
pub proof fn law_reconcile_trade_gross_to_final(
    i: ActivityCashInputs,
    tolerance: Dec,
    q: Dec,
    p: Dec,
    qp: Dec,
    gross: Dec,
    charges: Dec,
    fin: Dec,
)
    requires
        !i.is_security_transfer,
        i.activity_type == ActivityType::Buy || i.activity_type == ActivityType::Sell,
        i.amount is Some,
        i.quantity == Some(q),
        i.unit_price == Some(p),
        spec_mul(q.abs_spec(), p.abs_spec()) == Some(qp),
        spec_mul(qp, if i.unit_multiplier.units() > 0 { i.unit_multiplier } else { Dec::one_spec() }) == Some(gross),
        spec_add(abs_or_zero(i.fee), abs_or_zero(i.tax)) == Some(charges),
        (if i.activity_type == ActivityType::Buy { spec_add(gross.abs_spec(), charges) } else { spec_sub(gross.abs_spec(), charges) }) == Some(fin),
        spec_sub(i.amount.unwrap().abs_spec(), gross) is Some,
        spec_sub(i.amount.unwrap().abs_spec(), fin.abs_spec()) is Some,
    ensures
        ({
            let s = i.amount.unwrap().abs_spec();
            let tol = tolerance.abs_spec().units();
            let matches_gross = spec_sub(s, gross).unwrap().abs_spec().units() <= tol;
            let matches_final = spec_sub(s, fin.abs_spec()).unwrap().abs_spec().units() <= tol;
            &&& (matches_gross && !matches_final && i.activity_type == ActivityType::Buy)
                ==> reconcile_imported_trade_amount_spec(i, tolerance) == (match spec_add(s, charges) {
                    Some(x) => Some(Some(x)),
                    None => None,
                })
            &&& (matches_gross && !matches_final && i.activity_type == ActivityType::Sell)
                ==> reconcile_imported_trade_amount_spec(i, tolerance) == (match spec_sub(s, charges) {
                    Some(x) => Some(Some(x.abs_spec())),
                    None => None,
                })
            &&& !(matches_gross && !matches_final) ==> reconcile_imported_trade_amount_spec(i, tolerance) == Some(Some(s))
        }),
{
    let fee = abs_or_zero(i.fee);
    let tax = abs_or_zero(i.tax);
    assert(fee.abs_spec() == fee);
    assert(tax.abs_spec() == tax);
    assert(derived_gross_spec(i) == Some(Some(gross)));
    if i.activity_type == ActivityType::Buy {
        assert(cash_effect_from_gross_spec(i.activity_type, gross, fee, tax) == Some(Some(fin.neg_spec())));
        assert(fin.neg_spec().abs_spec() == fin.abs_spec());
    } else {
        assert(cash_effect_from_gross_spec(i.activity_type, gross, fee, tax) == Some(Some(fin)));
    }
}

pub open spec fn deref_quote(quote: Option<&Quote>) -> Option<Quote> {
    match quote {
        Some(q) => Some(*q),
        None => None,
    }
}

/// `prefix`, the activity id, then `suffix`.
fn id_message(prefix: &str, id: &str, suffix: &str) -> (r: String)
    ensures
        r@ == prefix@ + id@ + suffix@,
{
    let mut s = String::from_str(prefix);
    s.append(id);
    s.append(suffix);
    s
}

impl ActivityEconomicsResolver {
    fn gross_or_legacy_flow_amount(activity: &Activity) -> (r: Option<Dec>)
        requires
            activity.wf(),
        ensures
            r == gross_or_legacy_flow_amount_spec(*activity),
            r matches Some(x) ==> x.wf(),
    {
        match Self::resolve_cash_checked(activity, Dec::one()) {
            None => None,
            Some(r) => match r.gross_amount {
                Some(g) => Some(g),
                None => Some(abs_or_zero_exec(activity.amount)),
            },
        }
    }

    fn compile_checked(
        activity: &Activity,
        quote: Option<&Quote>,
        boundary: TransferBoundary,
        unit_multiplier: Dec,
    ) -> (r: Option<ResolvedActivityEconomics>)
        requires
            activity.wf(),
            unit_multiplier.wf(),
            quote matches Some(q) ==> q.close.wf(),
        ensures
            match r {
                Some(e) => compile_activity_spec(*activity, deref_quote(quote), boundary, unit_multiplier) == Some(e.view_spec()),
                None => compile_activity_spec(*activity, deref_quote(quote), boundary, unit_multiplier) is None,
            },
    {
        let ghost id = activity.id@;
        let kind = Self::event_kind(activity, boundary);
        let is_st = Self::is_security_transfer(activity);
        let m = valid_unit_multiplier(unit_multiplier);
        let lot = if is_st {
            match Self::lot_cost_basis_checked(activity, m) {
                Some(x) => x,
                None => return None,
            }
        } else {
            Dec::zero()
        };
        let legacy = is_st && Self::lot_cost_basis_uses_legacy_amount(activity);
        let ub = kind == EconomicEventKind::UnknownBoundaryTransfer;
        let mut diagnostics: Vec<String> = Vec::new();
        if ub {
            diagnostics.push(id_message("Transfer activity ", activity.id.as_str(), " has no valid pair and is not explicitly external."));
        }
        let ghost diags = texts(diagnostics@);
        proof {
            assert(ub ==> diags =~= seq![diag_unknown_boundary(id)]);
            assert(!ub ==> diags =~= Seq::<Seq<char>>::empty());
        }
        let cur = activity.currency.clone();
        if kind == EconomicEventKind::InternalSecurityTransfer {
            let basis = if is_st {
                Self::security_transfer_basis_status(activity)
            } else {
                BasisStatus::NotApplicable
            };
            return Some(ResolvedActivityEconomics {
                kind,
                lot_cost_basis_value: lot,
                lot_cost_basis_currency: cur.clone(),
                performance_flow_value: Dec::zero(),
                performance_flow_currency: cur,
                performance_flow_source: ExternalFlowSource::Unknown,
                basis_status: basis,
                diagnostics,
            });
        }
        if is_st {
            if let Some(q) = quote {
                let x = match dec_mul(activity.qty(), q.close) {
                    Some(x) => x,
                    None => return None,
                };
                let mv = match dec_mul(x, m) {
                    Some(mv) => mv,
                    None => return None,
                };
                if !mv.is_zero() {
                    return Some(ResolvedActivityEconomics {
                        kind,
                        lot_cost_basis_value: lot,
                        lot_cost_basis_currency: cur,
                        performance_flow_value: mv.abs(),
                        performance_flow_currency: q.currency.clone(),
                        performance_flow_source: if ub {
                            ExternalFlowSource::UnknownBoundaryTransfer
                        } else {
                            ExternalFlowSource::QuoteDerivedMarketValue
                        },
                        basis_status: Self::security_transfer_basis_status(activity),
                        diagnostics,
                    });
                }
            }
            if activity.activity_type == ActivityType::TransferOut {
                diagnostics.push(id_message("Security transfer-out activity ", activity.id.as_str(), " deferred performance flow to removed lot basis because no transfer-date quote was available."));
                proof {
                    assert(texts(diagnostics@) =~= diags.push(diag_transfer_out_deferred(id)));
                }
                return Some(ResolvedActivityEconomics {
                    kind,
                    lot_cost_basis_value: lot,
                    lot_cost_basis_currency: cur.clone(),
                    performance_flow_value: Dec::zero(),
                    performance_flow_currency: cur,
                    performance_flow_source: if ub {
                        ExternalFlowSource::UnknownBoundaryTransfer
                    } else {
                        ExternalFlowSource::Unknown
                    },
                    basis_status: if lot.is_zero() {
                        BasisStatus::Unknown
                    } else {
                        BasisStatus::Complete
                    },
                    diagnostics,
                });
            }
            if !lot.is_zero() {
                if legacy {
                    diagnostics.push(id_message("Security transfer activity ", activity.id.as_str(), " used legacy activity amount as cost basis and performance flow fallback because quote and unit price were unavailable."));
                    proof {
                        assert(texts(diagnostics@) =~= diags.push(diag_legacy_cost_basis(id)));
                    }
                } else {
                    diagnostics.push(id_message("Security transfer activity ", activity.id.as_str(), " used cost basis as performance flow fallback because no transfer-date quote was available."));
                    proof {
                        assert(texts(diagnostics@) =~= diags.push(diag_cost_basis_fallback(id)));
                    }
                }
                return Some(ResolvedActivityEconomics {
                    kind,
                    lot_cost_basis_value: lot,
                    lot_cost_basis_currency: cur.clone(),
                    performance_flow_value: lot.abs(),
                    performance_flow_currency: cur,
                    performance_flow_source: if ub {
                        ExternalFlowSource::UnknownBoundaryTransfer
                    } else if legacy {
                        ExternalFlowSource::LegacyActivityAmountFallback
                    } else {
                        ExternalFlowSource::CostBasisFallback
                    },
                    basis_status: BasisStatus::Complete,
                    diagnostics,
                });
            }
            if let Some(amount) = activity.amount {
                if !amount.is_zero() {
                    diagnostics.push(id_message("Security transfer activity ", activity.id.as_str(), " used legacy activity amount as performance flow fallback because quote and cost basis were unavailable."));
                    proof {
                        assert(texts(diagnostics@) =~= diags.push(diag_legacy_amount_fallback(id)));
                    }
                    return Some(ResolvedActivityEconomics {
                        kind,
                        lot_cost_basis_value: lot,
                        lot_cost_basis_currency: cur.clone(),
                        performance_flow_value: amount.abs(),
                        performance_flow_currency: cur,
                        performance_flow_source: if ub {
                            ExternalFlowSource::UnknownBoundaryTransfer
                        } else {
                            ExternalFlowSource::LegacyActivityAmountFallback
                        },
                        basis_status: BasisStatus::Unknown,
                        diagnostics,
                    });
                }
            }
            diagnostics.push(id_message("Security transfer activity ", activity.id.as_str(), " has no quote, cost basis, or legacy amount for performance flow."));
            proof {
                assert(texts(diagnostics@) =~= diags.push(diag_no_flow(id)));
            }
            return Some(ResolvedActivityEconomics {
                kind,
                lot_cost_basis_value: lot,
                lot_cost_basis_currency: cur.clone(),
                performance_flow_value: Dec::zero(),
                performance_flow_currency: cur,
                performance_flow_source: ExternalFlowSource::UnknownBoundaryTransfer,
                basis_status: BasisStatus::Unknown,
                diagnostics,
            });
        }
        if ub {
            return Some(ResolvedActivityEconomics {
                kind,
                lot_cost_basis_value: lot,
                lot_cost_basis_currency: cur.clone(),
                performance_flow_value: Dec::zero(),
                performance_flow_currency: cur,
                performance_flow_source: ExternalFlowSource::UnknownBoundaryTransfer,
                basis_status: BasisStatus::NotApplicable,
                diagnostics,
            });
        }
        let flow = match Self::gross_or_legacy_flow_amount(activity) {
            Some(f) => f,
            None => return None,
        };
        let source = if flow.is_zero() {
            ExternalFlowSource::Unknown
        } else {
            ExternalFlowSource::CashAmount
        };
        Some(ResolvedActivityEconomics {
            kind,
            lot_cost_basis_value: lot,
            lot_cost_basis_currency: cur.clone(),
            performance_flow_value: flow,
            performance_flow_currency: cur,
            performance_flow_source: source,
            basis_status: BasisStatus::NotApplicable,
            diagnostics,
        })
    }

    /// Compiles the economics of an activity: its event kind, the cost basis
    /// of a transferred lot, and its performance flow with the source that
    /// supplied it (a transfer-date quote, the cost basis, the legacy amount,
    /// or the gross cash amount).
    pub fn compile_activity_with_unit_multiplier(
        activity: &Activity,
        quote: Option<&Quote>,
        transfer_boundary: TransferBoundary,
        unit_multiplier: Dec,
    ) -> (r: ResolvedActivityEconomics)
        requires
            activity.wf(),
            unit_multiplier.wf(),
            quote matches Some(q) ==> q.close.wf(),
            compile_activity_spec(*activity, deref_quote(quote), transfer_boundary, unit_multiplier) is Some,
        ensures
            compile_activity_spec(*activity, deref_quote(quote), transfer_boundary, unit_multiplier) == Some(r.view_spec()),
    {
        match Self::compile_checked(activity, quote, transfer_boundary, unit_multiplier) {
            Some(e) => e,
            None => ResolvedActivityEconomics {
                kind: EconomicEventKind::Other,
                lot_cost_basis_value: Dec::zero(),
                lot_cost_basis_currency: String::new(),
                performance_flow_value: Dec::zero(),
                performance_flow_currency: String::new(),
                performance_flow_source: ExternalFlowSource::Unknown,
                basis_status: BasisStatus::NotApplicable,
                diagnostics: Vec::new(),
            },
        }
    }

    /// `compile_activity_with_unit_multiplier` with a multiplier of one.
    pub fn compile_activity(
        activity: &Activity,
        quote: Option<&Quote>,
        transfer_boundary: TransferBoundary,
    ) -> (r: ResolvedActivityEconomics)
        requires
            activity.wf(),
            quote matches Some(q) ==> q.close.wf(),
            compile_activity_spec(*activity, deref_quote(quote), transfer_boundary, Dec::one_spec()) is Some,
        ensures
            compile_activity_spec(*activity, deref_quote(quote), transfer_boundary, Dec::one_spec()) == Some(r.view_spec()),
    {
        Self::compile_activity_with_unit_multiplier(activity, quote, transfer_boundary, Dec::one())
    }

    /// `compile_activity_with_unit_multiplier`, or `None` where a `Decimal`
    /// overflow would stop it.
    pub fn checked_compile_activity_with_unit_multiplier(
        activity: &Activity,
        quote: Option<&Quote>,
        transfer_boundary: TransferBoundary,
        unit_multiplier: Dec,
    ) -> (r: Option<ResolvedActivityEconomics>)
        requires
            activity.wf(),
            unit_multiplier.wf(),
            quote matches Some(q) ==> q.close.wf(),
        ensures
            match r {
                Some(e) => compile_activity_spec(*activity, deref_quote(quote), transfer_boundary, unit_multiplier) == Some(e.view_spec()),
                None => compile_activity_spec(*activity, deref_quote(quote), transfer_boundary, unit_multiplier) is None,
            },
    {
        match Self::compile_checked(activity, quote, transfer_boundary, unit_multiplier) {
            Some(_) => Some(Self::compile_activity_with_unit_multiplier(activity, quote, transfer_boundary, unit_multiplier)),
            None => None,
        }
    }
}


#[verifier::external_type_specification]
#[verifier::external_body]
pub struct ExNaiveDate(chrono::NaiveDate);

/// The effect of an economic event on an account, by component.
#[derive(Debug)]
pub struct EconomicEventEffect {
    pub activity_id: String,
    pub account_id: String,
    pub asset_id: Option<String>,
    pub date: chrono::NaiveDate,
    pub event_kind: EconomicEventKind,
    /// Signed external flow. Positive means contribution; negative means distribution.
    pub external_flow: Dec,
    pub realized_pnl: Dec,
    pub unrealized_movement: Dec,
    pub income: Dec,
    pub fee: Dec,
    pub tax: Dec,
    pub fx_effect: Dec,
    pub diagnostics: Vec<String>,
}

impl EconomicEventEffect {
    /// An effect of the activity with every component zero and no diagnostics.
    pub fn empty(activity: &Activity, date: chrono::NaiveDate, event_kind: EconomicEventKind) -> (r: EconomicEventEffect)
        ensures
            r.activity_id@ == activity.id@,
            r.account_id@ == activity.account_id@,
            r.asset_id == activity.asset_id,
            r.date == date,
            r.event_kind == event_kind,
            r.external_flow == Dec::zero_spec(),
            r.realized_pnl == Dec::zero_spec(),
            r.unrealized_movement == Dec::zero_spec(),
            r.income == Dec::zero_spec(),
            r.fee == Dec::zero_spec(),
            r.tax == Dec::zero_spec(),
            r.fx_effect == Dec::zero_spec(),
            r.diagnostics@.len() == 0,
    {
        EconomicEventEffect {
            activity_id: activity.id.clone(),
            account_id: activity.account_id.clone(),
            asset_id: activity.asset_id.clone(),
            date,
            event_kind,
            external_flow: Dec::zero(),
            realized_pnl: Dec::zero(),
            unrealized_movement: Dec::zero(),
            income: Dec::zero(),
            fee: Dec::zero(),
            tax: Dec::zero(),
            fx_effect: Dec::zero(),
            diagnostics: Vec::new(),
        }
    }
}

} // verus!
