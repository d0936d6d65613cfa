use std::str::FromStr;

use rust_decimal::Decimal;
use wealthfolio_core::decimal::Dec;
use wealthfolio_core::economic_events::{
    ActivityCashInputs, ActivityEconomicsResolver, ActivityType, Asset, BasisStatus,
    LegacyActivityCashClassification,
};

fn d(text: &str) -> Dec {
    let v = Decimal::from_str(text).expect("decimal literal");
    Dec { negative: v.is_sign_negative(), mantissa: v.mantissa().unsigned_abs(), scale: v.scale() }
}

fn value(x: Dec) -> Decimal {
    let mut v = Decimal::from_i128_with_scale(x.mantissa as i128, x.scale);
    v.set_sign_negative(x.negative);
    v
}

fn opt(x: Option<Dec>) -> Option<Decimal> {
    x.map(value)
}

fn dv(text: &str) -> Decimal {
    Decimal::from_str(text).expect("decimal literal")
}

fn inputs(activity_type: ActivityType) -> ActivityCashInputs {
    ActivityCashInputs {
        activity_type,
        is_security_transfer: false,
        quantity: Some(d("2")),
        unit_price: Some(d("10")),
        amount: None,
        fee: Some(d("1")),
        tax: Some(d("2")),
        unit_multiplier: Dec::one(),
    }
}

#[test]
fn bond_multiplier_is_scoped_to_activity_cash() {
    let bond = Asset { is_bond: true, explicit_contract_multiplier: None, contract_multiplier: Dec::one() };
    assert_eq!(value(bond.contract_multiplier), Decimal::ONE);
    assert_eq!(value(ActivityEconomicsResolver::asset_unit_multiplier(&bond)), dv("0.01"));

    let configured_bond = Asset { is_bond: true, explicit_contract_multiplier: Some(d("0.02")), contract_multiplier: Dec::one() };
    assert_eq!(value(ActivityEconomicsResolver::asset_unit_multiplier(&configured_bond)), dv("0.02"));
}

#[test]
fn supplied_trade_amount_is_authoritative_and_type_controls_direction() {
    let mut buy = inputs(ActivityType::Buy);
    buy.amount = Some(d("-12"));
    let buy = ActivityEconomicsResolver::resolve_cash_inputs(buy);
    assert_eq!(opt(buy.amount), Some(dv("12")));
    assert_eq!(opt(buy.expected_amount), Some(dv("23")));
    assert_eq!(value(buy.signed_cash_effect), dv("-12"));
    assert_eq!(opt(buy.gross_amount), Some(dv("9")));
    assert!(!buy.amount_was_derived);

    let mut sell = inputs(ActivityType::Sell);
    sell.amount = Some(d("-12"));
    let sell = ActivityEconomicsResolver::resolve_cash_inputs(sell);
    assert_eq!(value(sell.signed_cash_effect), dv("12"));
    assert_eq!(opt(sell.gross_amount), Some(dv("15")));
}

#[test]
fn imported_trade_reconciliation_changes_only_unambiguous_gross_amounts() {
    let mut gross_buy = inputs(ActivityType::Buy);
    gross_buy.amount = Some(d("20"));
    assert_eq!(opt(ActivityEconomicsResolver::reconcile_imported_trade_amount(gross_buy, d("0.01"))), Some(dv("23")));

    let mut final_sell = inputs(ActivityType::Sell);
    final_sell.amount = Some(d("17.004"));
    assert_eq!(opt(ActivityEconomicsResolver::reconcile_imported_trade_amount(final_sell, d("0.01"))), Some(dv("17.004")));

    let mut sub_tolerance_fee = inputs(ActivityType::Buy);
    sub_tolerance_fee.amount = Some(d("20"));
    sub_tolerance_fee.fee = Some(d("0.005"));
    sub_tolerance_fee.tax = None;
    assert_eq!(opt(ActivityEconomicsResolver::reconcile_imported_trade_amount(sub_tolerance_fee, d("0.01"))), Some(dv("20")));

    let mut adjusted_drip = inputs(ActivityType::Buy);
    adjusted_drip.quantity = Some(d("0.001"));
    adjusted_drip.unit_price = Some(d("589.8108"));
    adjusted_drip.amount = Some(d("0.30"));
    adjusted_drip.fee = None;
    adjusted_drip.tax = None;
    assert_eq!(opt(ActivityEconomicsResolver::reconcile_imported_trade_amount(adjusted_drip, d("0.01"))), Some(dv("0.30")));
}

#[test]
fn missing_trade_amount_is_derived_with_multiplier_and_charges() {
    let mut buy = inputs(ActivityType::Buy);
    buy.unit_multiplier = d("100");
    let buy = ActivityEconomicsResolver::resolve_cash_inputs(buy);
    assert_eq!(opt(buy.amount), Some(dv("2003")));
    assert_eq!(value(buy.signed_cash_effect), dv("-2003"));
    assert_eq!(opt(buy.gross_amount), Some(dv("2000")));
    assert!(buy.amount_was_derived);

    let sell = ActivityEconomicsResolver::resolve_cash_inputs(inputs(ActivityType::Sell));
    assert_eq!(opt(sell.amount), Some(dv("17")));
    assert_eq!(value(sell.signed_cash_effect), dv("17"));
    assert_eq!(opt(sell.gross_amount), Some(dv("20")));
}

fn matrix() -> Vec<(ActivityType, &'static str, &'static str, &'static str)> {
    vec![
        (ActivityType::Buy, "23", "-23", "20"),
        (ActivityType::Sell, "17", "17", "20"),
        (ActivityType::Deposit, "17", "17", "20"),
        (ActivityType::Dividend, "17", "17", "20"),
        (ActivityType::Interest, "17", "17", "20"),
        (ActivityType::Credit, "17", "17", "20"),
        (ActivityType::TransferIn, "17", "17", "20"),
        (ActivityType::Withdrawal, "23", "-23", "20"),
        (ActivityType::TransferOut, "23", "-23", "20"),
    ]
}

#[test]
fn missing_and_zero_amounts_share_the_supported_derivation_contract() {
    let mut cases = matrix();
    cases.push((ActivityType::Fee, "1", "-1", "1"));
    cases.push((ActivityType::Tax, "2", "-2", "2"));
    for (activity_type, amount, signed_cash, gross_amount) in cases {
        for supplied_amount in [None, Some(Dec::zero())] {
            let mut case = inputs(activity_type);
            case.amount = supplied_amount;
            let resolved = ActivityEconomicsResolver::resolve_cash_inputs(case);
            assert_eq!(opt(resolved.amount), Some(dv(amount)), "{activity_type:?}");
            assert_eq!(value(resolved.signed_cash_effect), dv(signed_cash), "{activity_type:?}");
            assert_eq!(opt(resolved.gross_amount), Some(dv(gross_amount)), "{activity_type:?}");
            assert!(resolved.amount_was_derived, "{activity_type:?}");
        }
    }
}

#[test]
fn external_cash_flow_separates_final_cash_from_signed_gross() {
    let mut deposit = inputs(ActivityType::Deposit);
    deposit.quantity = None;
    deposit.unit_price = None;
    deposit.amount = Some(d("97"));
    let deposit = ActivityEconomicsResolver::resolve_cash_inputs(deposit);
    assert_eq!(value(deposit.signed_cash_effect), dv("97"));
    assert_eq!(opt(deposit.gross_amount), Some(dv("100")));
    assert_eq!(value(deposit.signed_gross_effect()), dv("100"));

    let mut withdrawal = inputs(ActivityType::Withdrawal);
    withdrawal.quantity = None;
    withdrawal.unit_price = None;
    withdrawal.amount = Some(d("103"));
    let withdrawal = ActivityEconomicsResolver::resolve_cash_inputs(withdrawal);
    assert_eq!(value(withdrawal.signed_cash_effect), dv("-103"));
    assert_eq!(opt(withdrawal.gross_amount), Some(dv("100")));
    assert_eq!(value(withdrawal.signed_gross_effect()), dv("-100"));
}

#[test]
fn final_amount_and_gross_contract_matrix() {
    let mut cases = matrix();
    cases.push((ActivityType::Fee, "3", "-3", "3"));
    cases.push((ActivityType::Tax, "3", "-3", "3"));
    for (activity_type, final_amount, signed_cash, gross_amount) in cases {
        let mut case = inputs(activity_type);
        case.amount = Some(d(final_amount));
        let resolved = ActivityEconomicsResolver::resolve_cash_inputs(case);
        assert_eq!(opt(resolved.amount), Some(dv(final_amount)), "{activity_type:?}");
        assert_eq!(value(resolved.signed_cash_effect), dv(signed_cash), "{activity_type:?}");
        assert_eq!(opt(resolved.gross_amount), Some(dv(gross_amount)), "{activity_type:?}");
    }
}

#[test]
fn standalone_charges_and_security_transfers_follow_cash_contract() {
    let mut fee = inputs(ActivityType::Fee);
    fee.amount = None;
    assert_eq!(value(ActivityEconomicsResolver::resolve_cash_inputs(fee).signed_cash_effect), dv("-1"));

    let mut tax = inputs(ActivityType::Tax);
    tax.amount = None;
    assert_eq!(value(ActivityEconomicsResolver::resolve_cash_inputs(tax).signed_cash_effect), dv("-2"));

    let mut legacy_tax = inputs(ActivityType::Tax);
    legacy_tax.amount = None;
    legacy_tax.tax = None;
    assert_eq!(value(ActivityEconomicsResolver::resolve_cash_inputs(legacy_tax).signed_cash_effect), dv("-1"));

    let mut transfer = inputs(ActivityType::TransferIn);
    transfer.amount = Some(d("25"));
    transfer.is_security_transfer = true;
    let transfer = ActivityEconomicsResolver::resolve_cash_inputs(transfer);
    assert_eq!(opt(transfer.amount), None);
    assert_eq!(opt(transfer.gross_amount), None);
    assert_eq!(value(transfer.signed_cash_effect), dv("-1"));
}

#[test]
fn reported_fractional_drip_buy_trusts_cash_amount_and_preserves_trade_details() {
    let resolved = ActivityEconomicsResolver::resolve_cash_inputs(ActivityCashInputs {
        activity_type: ActivityType::Buy,
        is_security_transfer: false,
        quantity: Some(d("0.001")),
        unit_price: Some(d("589.8108")),
        amount: Some(d("-0.30")),
        fee: None,
        tax: None,
        unit_multiplier: Dec::one(),
    });
    assert_eq!(opt(resolved.amount), Some(dv("0.30")));
    assert_eq!(value(resolved.signed_cash_effect), dv("-0.30"));
    assert_eq!(opt(resolved.expected_amount), Some(dv("0.5898108")));
    assert_eq!(opt(resolved.gross_amount), Some(dv("0.30")));
    assert!(!resolved.amount_was_derived);
}

#[test]
fn sell_charges_exceeding_proceeds_keep_a_magnitude_but_reverse_cash_direction() {
    let mut sell = inputs(ActivityType::Sell);
    sell.quantity = Some(d("1"));
    sell.unit_price = Some(d("1"));
    sell.fee = Some(d("2"));
    sell.tax = None;

    let derived = ActivityEconomicsResolver::resolve_cash_inputs(sell);
    assert_eq!(opt(derived.amount), Some(dv("1")));
    assert_eq!(value(derived.signed_cash_effect), dv("-1"));
    assert_eq!(opt(derived.gross_amount), Some(dv("1")));

    sell.amount = Some(d("0.75"));
    let custom = ActivityEconomicsResolver::resolve_cash_inputs(sell);
    assert_eq!(opt(custom.amount), Some(dv("0.75")));
    assert_eq!(value(custom.signed_cash_effect), dv("-0.75"));
}

#[test]
fn legacy_cash_classification_distinguishes_final_gross_and_ambiguous_values() {
    let mut case = inputs(ActivityType::Buy);

    case.amount = Some(d("23"));
    let final_value = ActivityEconomicsResolver::classify_legacy_cash_inputs(case, d("0.01"));
    assert_eq!(final_value.classification, LegacyActivityCashClassification::Final);
    assert_eq!(opt(final_value.final_amount), Some(dv("23")));
    assert!(!final_value.needs_review);

    case.amount = Some(d("20"));
    let gross = ActivityEconomicsResolver::classify_legacy_cash_inputs(case, d("0.01"));
    assert_eq!(gross.classification, LegacyActivityCashClassification::Gross);
    assert_eq!(opt(gross.final_amount), Some(dv("23")));
    assert!(!gross.needs_review);

    case.amount = Some(d("40"));
    let ambiguous = ActivityEconomicsResolver::classify_legacy_cash_inputs(case, d("0.01"));
    assert_eq!(ambiguous.classification, LegacyActivityCashClassification::Ambiguous);
    assert_eq!(opt(ambiguous.final_amount), Some(dv("40")));
    assert!(ambiguous.needs_review);

    case.amount = None;
    let derived = ActivityEconomicsResolver::classify_legacy_cash_inputs(case, d("0.01"));
    assert_eq!(derived.classification, LegacyActivityCashClassification::Derived);
    assert_eq!(opt(derived.final_amount), Some(dv("23")));
}

#[test]
fn split_resolves_to_no_cash() {
    let mut split = inputs(ActivityType::Split);
    split.amount = Some(d("50"));
    let resolved = ActivityEconomicsResolver::resolve_cash_inputs(split);
    assert_eq!(opt(resolved.amount), None);
    assert_eq!(value(resolved.signed_cash_effect), Decimal::ZERO);
    assert!(!resolved.amount_was_derived);
}

#[test]
fn basis_status_combines_and_round_trips_its_code() {
    let all = [BasisStatus::Complete, BasisStatus::PartialUnknown, BasisStatus::Unknown, BasisStatus::NotApplicable];
    for status in all {
        assert_eq!(BasisStatus::from_code(status.as_str()), status);
        assert_eq!(status.combine(status), status);
        assert_eq!(status.combine(BasisStatus::NotApplicable), status);
        for other in all {
            assert_eq!(status.combine(other), other.combine(status));
        }
    }
    assert_eq!(BasisStatus::Complete.combine(BasisStatus::Unknown), BasisStatus::PartialUnknown);
}
