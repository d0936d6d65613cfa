use std::str::FromStr;

use rust_decimal::Decimal;
use wealthfolio_core::activity_cash_integrity::{
    ActivityCashIntegrityCheck, ActivityCashIssueInfo, ActivityCashIssueKind, Severity, MAX_DETAILS,
};
use wealthfolio_core::decimal::Dec;

fn d(text: &str) -> Dec {
    let v = Decimal::from_str(text).expect("decimal literal");
    Dec { negative: v.is_sign_negative(), mantissa: v.mantissa().unsigned_abs(), scale: v.scale() }
}

fn finding(kind: ActivityCashIssueKind, id: &str) -> ActivityCashIssueInfo {
    ActivityCashIssueInfo {
        kind,
        activity_id: id.to_string(),
        account_name: "Brokerage".to_string(),
        activity_type: "BUY".to_string(),
        date: "2026-03-31".to_string(),
        currency: "USD".to_string(),
        trusted_amount: Some(d("1")),
        expected_amount: Some(d("2")),
        difference: Some(d("-1")),
        quantity: Some(d("1")),
        unit_price: Some(d("2")),
        fee: Dec::zero(),
        tax: Dec::zero(),
    }
}

#[test]
fn mismatch_warns_and_explains_that_trusted_cash_was_used() {
    let issues = ActivityCashIntegrityCheck::new().analyze(&[ActivityCashIssueInfo {
        kind: ActivityCashIssueKind::Mismatch,
        activity_id: "drip-buy".to_string(),
        account_name: "Brokerage".to_string(),
        activity_type: "BUY".to_string(),
        date: "2026-03-31".to_string(),
        currency: "USD".to_string(),
        trusted_amount: Some(d("0.30")),
        expected_amount: Some(d("0.5898108")),
        difference: Some(d("-0.2898108")),
        quantity: Some(d("0.001")),
        unit_price: Some(d("589.8108")),
        fee: Dec::zero(),
        tax: Dec::zero(),
    }]);

    assert_eq!(issues.len(), 1);
    assert_eq!(issues[0].severity, Severity::Warning);
    assert_eq!(issues[0].code.as_deref(), Some("activity_cash_mismatch"));
    assert!(issues[0].details.as_deref().unwrap().contains("trusted totals"));
    assert_eq!(issues[0].navigate_action.as_ref().map(|action| action.label.as_str()), Some("Review Activities"));
}

#[test]
fn missing_cash_amount_is_an_error() {
    let issues = ActivityCashIntegrityCheck::new().analyze(&[ActivityCashIssueInfo {
        kind: ActivityCashIssueKind::Missing,
        activity_id: "missing".to_string(),
        account_name: "Brokerage".to_string(),
        activity_type: "BUY".to_string(),
        date: "2026-03-31".to_string(),
        currency: "USD".to_string(),
        trusted_amount: None,
        expected_amount: None,
        difference: None,
        quantity: Some(d("0.001")),
        unit_price: None,
        fee: Dec::zero(),
        tax: Dec::zero(),
    }]);

    assert_eq!(issues[0].severity, Severity::Error);
    assert_eq!(issues[0].code.as_deref(), Some("activity_cash_amount_missing"));
}

#[test]
fn findings_are_grouped_by_kind() {
    let findings: Vec<_> =
        (0..25).map(|index| finding(ActivityCashIssueKind::Mismatch, &format!("activity-{index}"))).collect();

    let issues = ActivityCashIntegrityCheck::new().analyze(&findings);

    assert_eq!(issues.len(), 1);
    assert_eq!(issues[0].affected_count, 25);
    assert_eq!(issues[0].affected_items.as_ref().map(Vec::len), Some(MAX_DETAILS));
    assert_eq!(issues[0].diagnostics.as_ref().map(Vec::len), Some(MAX_DETAILS));
    assert_eq!(
        issues[0].details.as_deref(),
        Some("25 activities have trusted totals that differ from their quantity, price, fees, or taxes. Showing the first 20.")
    );
}

#[test]
fn kinds_are_reported_in_order_review_mismatch_missing() {
    let findings = vec![
        finding(ActivityCashIssueKind::Missing, "m"),
        finding(ActivityCashIssueKind::NeedsReview, "r"),
        finding(ActivityCashIssueKind::Missing, "m2"),
    ];
    let issues = ActivityCashIntegrityCheck::new().analyze(&findings);
    let codes: Vec<&str> = issues.iter().map(|i| i.code.as_deref().unwrap()).collect();
    assert_eq!(codes, vec!["activity_cash_needs_review", "activity_cash_amount_missing"]);
    assert_eq!(issues[1].affected_count, 2);
    assert_eq!(issues[1].details.as_deref(), Some("2 activities have no usable total and cannot be derived from their available fields."));
    assert!(ActivityCashIntegrityCheck::new().analyze(&[]).is_empty());
}

#[test]
fn diagnostics_carry_the_finding_details_and_an_encoded_route() {
    let mut f = finding(ActivityCashIssueKind::Mismatch, "a b/c");
    f.fee = d("0.5");
    let issues = ActivityCashIntegrityCheck::new().analyze(&[f]);
    let diagnostics = issues[0].diagnostics.as_ref().unwrap();
    let diagnostic = &diagnostics[0];
    assert_eq!(diagnostic.id, "ACTIVITY_CASH_MISMATCH");
    assert_eq!(diagnostic.entity.route, "/activities?activity=a%20b%2Fc");
    assert_eq!(diagnostic.date, "2026-03-31");
    let labels: Vec<&str> = diagnostic.evidence.iter().map(|e| e.label.as_str()).collect();
    assert_eq!(
        labels,
        vec!["Currency", "Quantity", "Unit price", "Fee", "Tax", "Trusted cash amount", "Expected amount", "Difference"]
    );
    assert_eq!(diagnostic.evidence[3].value, "0.5");
    assert_eq!(
        diagnostic.message,
        "Trusted cash amount: 1 USD\nExpected from quantity × price and charges: 2 USD\nDifference: -1 USD\nQuantity: 1\nUnit price: 2\nFee: 0.5\nTax: 0\n\nWealthfolio used the trusted cash amount."
    );
    let items = issues[0].affected_items.as_ref().unwrap();
    assert_eq!(items[0].label, "BUY · 2026-03-31 · Brokerage");
    assert!(issues[0].data_hash.chars().all(|c| c.is_ascii_hexdigit()));
}

#[test]
fn missing_values_show_a_dash_and_the_hash_is_stable() {
    let mut f = finding(ActivityCashIssueKind::Missing, "x");
    f.quantity = None;
    f.unit_price = None;
    let issues = ActivityCashIntegrityCheck::new().analyze(&[f.clone()]);
    let diagnostic = &issues[0].diagnostics.as_ref().unwrap()[0];
    assert!(diagnostic.message.starts_with("Quantity: —\nUnit price: —\n"));
    let again = ActivityCashIntegrityCheck::new().analyze(&[f]);
    assert_eq!(issues[0].data_hash, again[0].data_hash);
}
