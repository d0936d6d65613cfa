use std::str::FromStr;

use serde_json::Value;

use chrono::Datelike;
use rust_decimal::Decimal;
use wealthfolio_core::allocation::fx_path::{ExchangeRate, FxCurrency};
use wealthfolio_core::allocation::model::{
    AllocationTarget, AllocationTargetConstraint, AllocationTargetWeight, AllocationWorksheetLineInput, BandType,
    CalculateAllocationWorksheetInput, ConstraintAction, ConstraintEffect, ConstraintSubjectType, DriftReport,
    DriftRow, DriftStatus, RebalanceGoal, ScopeType, TriggerType, WorksheetCashInput, WorksheetDirection,
    WorksheetInputMode, WorksheetSourceRecord, WorksheetWarning, WorksheetWarningKind,
};
use wealthfolio_core::allocation::worksheet_calc::{
    AccountHoldings, LatestQuoteSnapshot, SecurityQuote, Taxonomy, TaxonomyCategory, WorksheetAsset, WorksheetData,
};
use wealthfolio_core::allocation::worksheet_service::{
    AllocationWorksheetService, AssetTaxonomyAssignment, CoreError, Holding, UNKNOWN_CATEGORY_ID,
};
use wealthfolio_core::decimal::Dec;

fn d(text: &str) -> Dec {
    let v = Decimal::from_str(text).expect("decimal literal");
    Dec { negative: v.is_sign_negative(), mantissa: v.mantissa().unsigned_abs(), scale: v.scale() }
}

fn value(x: Dec) -> Decimal {
    let mut v = Decimal::from_i128_with_scale(x.mantissa as i128, x.scale);
    v.set_sign_negative(x.negative);
    v
}

fn dv(text: &str) -> Decimal {
    Decimal::from_str(text).expect("decimal literal")
}

fn message(e: &CoreError) -> String {
    match e {
        CoreError::InvalidInput(m) => m.clone(),
        CoreError::NotFound(m) => m.clone(),
    }
}

fn line(mode: WorksheetInputMode, v: &str) -> AllocationWorksheetLineInput {
    AllocationWorksheetLineInput {
        line_id: "line-1".to_string(),
        direction: WorksheetDirection::Increase,
        asset_id: "asset-1".to_string(),
        account_id: "account-1".to_string(),
        input_mode: mode,
        value: d(v),
    }
}

fn request() -> CalculateAllocationWorksheetInput {
    CalculateAllocationWorksheetInput {
        target_id: "target-1".to_string(),
        cash: WorksheetCashInput { tracked_cash_to_use: d("10"), external_contribution: Dec::zero() },
        lines: vec![line(WorksheetInputMode::Amount, "10")],
        account_ids: vec!["account-1".to_string()],
        base_currency: "USD".to_string(),
        aggregated_account_id: "all".to_string(),
    }
}

fn currency(code: &str) -> FxCurrency {
    FxCurrency { code: code.to_string(), normalized: code.to_string(), denormalization_multiplier: Dec::one() }
}

fn fx_rate(id: &str, from: &str, to: &str, rate: &str) -> ExchangeRate {
    let now = chrono::Utc::now();
    ExchangeRate {
        id: id.to_string(),
        from_currency: from.to_string(),
        to_currency: to.to_string(),
        normalized_from: from.to_string(),
        normalized_to: to.to_string(),
        rate: d(rate),
        source: "manual".to_string(),
        timestamp_secs: now.timestamp(),
        timestamp_nanos: now.timestamp_subsec_nanos(),
        timestamp_text: now.to_rfc3339(),
        timestamp_day: now.date_naive().num_days_from_ce(),
    }
}

fn assignment(id: &str, category: &str, weight: i32) -> AssetTaxonomyAssignment {
    AssetTaxonomyAssignment {
        id: id.to_string(),
        asset_id: "asset-1".to_string(),
        taxonomy_id: "taxonomy".to_string(),
        category_id: category.to_string(),
        weight,
        source: "manual".to_string(),
        updated_at: "2026-01-01T00:00:00+00:00".to_string(),
    }
}

// The bytes the application serializes for the fingerprint: the request and
// the source records, as a JSON array of two values.
fn fingerprint_bytes(input: &CalculateAllocationWorksheetInput, records: &[WorksheetSourceRecord]) -> Vec<u8> {
    let mut cash = serde_json::Map::new();
    cash.insert("trackedCashToUse".to_string(), Value::String(value(input.cash.tracked_cash_to_use).to_string()));
    cash.insert("externalContribution".to_string(), Value::String(value(input.cash.external_contribution).to_string()));
    let lines: Vec<Value> = input
        .lines
        .iter()
        .map(|l| {
            let mut m = serde_json::Map::new();
            m.insert("lineId".to_string(), Value::String(l.line_id.clone()));
            m.insert("assetId".to_string(), Value::String(l.asset_id.clone()));
            m.insert("accountId".to_string(), Value::String(l.account_id.clone()));
            m.insert("value".to_string(), Value::String(value(l.value).to_string()));
            Value::Object(m)
        })
        .collect();
    let mut request = serde_json::Map::new();
    request.insert("targetId".to_string(), Value::String(input.target_id.clone()));
    request.insert("cash".to_string(), Value::Object(cash));
    request.insert("lines".to_string(), Value::Array(lines));
    let sources: Vec<Value> = records
        .iter()
        .map(|r| {
            let mut m = serde_json::Map::new();
            m.insert("sourceType".to_string(), Value::String(r.source_type.clone()));
            m.insert("id".to_string(), Value::String(r.id.clone()));
            m.insert("version".to_string(), Value::String(r.version.clone()));
            m.insert("details".to_string(), Value::String(r.details.clone()));
            Value::Object(m)
        })
        .collect();
    serde_json::to_vec(&Value::Array(vec![Value::Object(request), Value::Array(sources)])).expect("serializable")
}

#[test]
fn amount_mode_floors_whole_units() {
    let (quantity, amount) = AllocationWorksheetService::resolved_quantity_and_amount(
        &line(WorksheetInputMode::Amount, "250"),
        d("100"),
        true,
    )
    .unwrap();
    assert_eq!(value(quantity), dv("2"));
    assert_eq!(value(amount), dv("200"));
}

#[test]
fn quantity_mode_rejects_fractional_whole_units() {
    let result = AllocationWorksheetService::resolved_quantity_and_amount(
        &line(WorksheetInputMode::Quantity, "1.5"),
        d("100"),
        true,
    );
    assert!(result.is_err());
}

#[test]
fn missing_classification_becomes_unknown_exposure() {
    let exposures =
        AllocationWorksheetService::category_exposures(&line(WorksheetInputMode::Amount, "100"), d("100"), &[], &[])
            .unwrap();
    assert_eq!(exposures.len(), 1);
    assert_eq!(exposures[0].category_id, UNKNOWN_CATEGORY_ID);
    assert_eq!(exposures[0].weight_bps, 10_000);
    assert_eq!(value(exposures[0].value_delta), dv("100"));
}

#[test]
fn partial_classification_keeps_known_and_residual_exposure() {
    let assignments = vec![assignment("assignment-1", "equity", 6500)];
    let exposures = AllocationWorksheetService::category_exposures(
        &line(WorksheetInputMode::Amount, "100"),
        d("100"),
        &assignments,
        &[("equity".to_string(), "Equity".to_string())],
    )
    .unwrap();
    assert_eq!(exposures.len(), 2);
    assert_eq!(exposures[0].weight_bps, 6500);
    assert_eq!(value(exposures[0].value_delta), dv("65"));
    assert_eq!(exposures[1].category_id, UNKNOWN_CATEGORY_ID);
    assert_eq!(exposures[1].weight_bps, 3500);
    assert_eq!(value(exposures[1].value_delta), dv("35"));
}

#[test]
fn fingerprint_changes_with_inputs_and_each_source_version() {
    let records = vec![WorksheetSourceRecord {
        source_type: "security_quote".to_string(),
        id: "quote-1".to_string(),
        version: "2026-01-01T00:00:00Z".to_string(),
        details: "close=100".to_string(),
    }];
    let baseline = AllocationWorksheetService::source_fingerprint(&fingerprint_bytes(&request(), &records));

    let mut input_changed = request();
    input_changed.cash.external_contribution = d("1");
    assert_ne!(baseline, AllocationWorksheetService::source_fingerprint(&fingerprint_bytes(&input_changed, &records)));

    let mut source_changed = records.clone();
    source_changed[0].version = "2026-01-02T00:00:00Z".to_string();
    assert_ne!(baseline, AllocationWorksheetService::source_fingerprint(&fingerprint_bytes(&request(), &source_changed)));

    source_changed[0].version = records[0].version.clone();
    source_changed[0].details = "close=101".to_string();
    assert_ne!(baseline, AllocationWorksheetService::source_fingerprint(&fingerprint_bytes(&request(), &source_changed)));
}

#[test]
fn overclassified_security_is_rejected() {
    let assignments = vec![assignment("a", "one", 6000), assignment("b", "two", 5000)];
    assert!(AllocationWorksheetService::category_exposures(
        &line(WorksheetInputMode::Amount, "100"),
        d("100"),
        &assignments,
        &[],
    )
    .is_err());
}

#[test]
fn fx_resolution_attributes_a_direct_or_inverse_rate() {
    let rates = vec![fx_rate("eur-usd", "EUR", "USD", "1.1")];

    let (direct, direct_source, direct_records) =
        AllocationWorksheetService::resolve_fx_source(&currency("EUR"), &currency("USD"), &rates).unwrap().unwrap();
    assert_eq!(value(direct), dv("1.1"));
    assert_eq!(direct_source.unwrap().id, "eur-usd");
    assert_eq!(direct_records.len(), 1);

    let (inverse, inverse_source, inverse_records) =
        AllocationWorksheetService::resolve_fx_source(&currency("USD"), &currency("EUR"), &rates).unwrap().unwrap();
    assert_eq!(value(inverse), Decimal::ONE / dv("1.1"));
    assert_eq!(inverse_source.unwrap().id, "eur-usd");
    assert_eq!(inverse_records.len(), 1);
}

#[test]
fn fx_resolution_attributes_every_rate_in_a_cross_currency_path() {
    let rates = vec![
        fx_rate("eur-usd", "EUR", "USD", "1.1"),
        fx_rate("usd-cad", "USD", "CAD", "1.35"),
        fx_rate("aud-nzd", "AUD", "NZD", "1.08"),
    ];

    let (rate, source, records) =
        AllocationWorksheetService::resolve_fx_source(&currency("EUR"), &currency("CAD"), &rates).unwrap().unwrap();

    assert_eq!(value(rate), dv("1.485"));
    assert_eq!(source.unwrap().source_type, "fx_path");
    assert_eq!(records.iter().map(|record| record.id.as_str()).collect::<Vec<_>>(), vec!["eur-usd", "usd-cad"]);
}

#[test]
fn funding_combines_tracked_external_and_reduction_proceeds() {
    assert_eq!(
        value(AllocationWorksheetService::cash_remaining(d("100"), d("25"), d("160"), d("50")).unwrap()),
        dv("15")
    );
    assert!(AllocationWorksheetService::cash_remaining(d("100"), Dec::zero(), d("151"), d("50")).is_err());
}

#[test]
fn projected_total_respects_cash_category_denominator_behavior() {
    assert_eq!(
        value(AllocationWorksheetService::projected_total(d("1000"), d("100"), d("250"), d("50"), true)),
        dv("1100")
    );
    assert_eq!(
        value(AllocationWorksheetService::projected_total(d("1000"), d("100"), d("250"), d("50"), false)),
        dv("1200")
    );
}

#[test]
fn unreachable_currency_is_an_error_naming_the_pair() {
    let rates = vec![fx_rate("aud-nzd", "AUD", "NZD", "1.08")];
    let result = AllocationWorksheetService::resolve_fx_source(&currency("EUR"), &currency("USD"), &rates).unwrap();
    assert_eq!(message(&result.unwrap_err()), "No attributable FX rate is available for EUR/USD");
}

#[test]
fn same_currency_needs_no_rate() {
    let (rate, source, records) =
        AllocationWorksheetService::resolve_fx_source(&currency("USD"), &currency("USD"), &[]).unwrap().unwrap();
    assert_eq!(value(rate), Decimal::ONE);
    assert!(source.is_none());
    assert!(records.is_empty());
}

#[test]
fn dated_rates_are_stale() {
    let mut rate = fx_rate("eur-usd", "EUR", "USD", "1.1");
    let today = rate.timestamp_day;
    rate.timestamp_day -= 3;
    let (_, source, _) =
        AllocationWorksheetService::resolve_fx_source_on(&currency("EUR"), &currency("USD"), &[rate], today)
            .unwrap()
            .unwrap();
    assert!(source.unwrap().is_stale);
}

#[test]
fn funding_shortfall_names_both_amounts() {
    let err = AllocationWorksheetService::cash_remaining(d("100"), Dec::zero(), d("151.50"), d("50")).unwrap_err();
    assert_eq!(message(&err), "Worksheet increases (151.5) exceed selected cash and reduction proceeds (150)");
}

#[test]
fn exposure_weights_always_total_full_value() {
    let assignments = vec![assignment("a", "one", 2500), assignment("b", "two", 4000)];
    let exposures = AllocationWorksheetService::category_exposures(
        &line(WorksheetInputMode::Amount, "100"),
        d("80"),
        &assignments,
        &[],
    )
    .unwrap();
    let total: i32 = exposures.iter().map(|e| e.weight_bps).sum();
    assert_eq!(total, 10_000);
    assert!(exposures.last().unwrap().is_unclassified);
    assert_eq!(exposures[0].category_name, "one");
}

#[test]
fn reduction_exposures_are_negative() {
    let mut reduce = line(WorksheetInputMode::Amount, "100");
    reduce.direction = WorksheetDirection::Reduce;
    let exposures = AllocationWorksheetService::category_exposures(&reduce, d("100"), &[], &[]).unwrap();
    assert_eq!(value(exposures[0].value_delta), dv("-100"));
}

#[test]
fn bps_rounds_half_to_even_and_guards_the_total() {
    assert_eq!(AllocationWorksheetService::bps(d("1"), d("3")), 3333);
    assert_eq!(AllocationWorksheetService::bps(d("1"), d("20000")), 0);
    assert_eq!(AllocationWorksheetService::bps(d("3"), d("20000")), 2);
    assert_eq!(AllocationWorksheetService::bps(d("5"), Dec::zero()), 0);
}

#[test]
fn validation_refuses_empty_duplicate_and_out_of_scope_lines() {
    let mut empty = request();
    empty.lines.clear();
    assert_eq!(
        message(&AllocationWorksheetService::validate_worksheet_input(&empty).unwrap_err()),
        "Worksheet must contain between 1 and 50 lines"
    );

    let mut negative = request();
    negative.cash.external_contribution = d("-1");
    assert_eq!(
        message(&AllocationWorksheetService::validate_worksheet_input(&negative).unwrap_err()),
        "Worksheet cash values must be non-negative"
    );

    let mut duplicate = request();
    duplicate.lines.push(line(WorksheetInputMode::Amount, "5"));
    assert_eq!(
        message(&AllocationWorksheetService::validate_worksheet_input(&duplicate).unwrap_err()),
        "Every worksheet line must have a unique lineId"
    );

    let mut blank = request();
    blank.lines[0].line_id = "  ".to_string();
    assert!(AllocationWorksheetService::validate_worksheet_input(&blank).is_err());

    let mut outside = request();
    outside.lines[0].account_id = "account-2".to_string();
    assert_eq!(
        message(&AllocationWorksheetService::validate_worksheet_input(&outside).unwrap_err()),
        "Worksheet line line-1: selected account is outside the resolved scope"
    );

    assert!(AllocationWorksheetService::validate_worksheet_input(&request()).is_ok());
}

fn target() -> AllocationTarget {
    AllocationTarget {
        id: "target-1".to_string(),
        name: "Balanced".to_string(),
        scope_type: ScopeType::All,
        scope_id: None,
        taxonomy_id: "taxonomy".to_string(),
        trigger_type: TriggerType::Manual,
        drift_band_bps: 500,
        band_type: BandType::Absolute,
        relative_factor_bps: 2000,
        rebalance_goal: RebalanceGoal::NearestBand,
        min_trade_amount: "0".to_string(),
        whole_shares_only: false,
        allow_sells: false,
        max_turnover_bps: None,
        created_at: "2026-01-01".to_string(),
        updated_at: "2026-01-02".to_string(),
        archived_at: None,
    }
}

#[test]
fn missing_target_and_disabled_reductions_are_refused() {
    let input = request();
    assert_eq!(
        message(&AllocationWorksheetService::check_target(&input, None).unwrap_err()),
        "AllocationTarget target-1 not found"
    );
    let mut reducing = request();
    reducing.lines[0].direction = WorksheetDirection::Reduce;
    let t = target();
    assert!(AllocationWorksheetService::check_target(&reducing, Some(&t)).is_err());
    assert!(AllocationWorksheetService::check_target(&input, Some(&t)).is_ok());
}

#[test]
fn tracked_cash_cannot_exceed_deployable_cash() {
    let err = AllocationWorksheetService::check_tracked_cash(d("10"), d("9.5")).unwrap_err();
    assert_eq!(message(&err), "Tracked cash selected (10) exceeds observed deployable cash (9.5)");
    assert!(AllocationWorksheetService::check_tracked_cash(d("9.5"), d("9.5")).is_ok());
}

fn warning(id_suffix: &str, kind: WorksheetWarningKind) -> WorksheetWarning {
    AllocationWorksheetService::warning(kind, Some("line-1"), id_suffix, format!("w {id_suffix}"))
}

#[test]
fn warnings_are_sorted_by_id_keeping_the_first_of_each() {
    let warnings = vec![
        warning("b", WorksheetWarningKind::StaleQuote),
        warning("a", WorksheetWarningKind::StaleQuote),
        AllocationWorksheetService::warning(WorksheetWarningKind::StaleQuote, Some("line-1"), "b", "second".to_string()),
    ];
    let sorted = AllocationWorksheetService::sort_warnings(warnings);
    assert_eq!(sorted.iter().map(|w| w.id.as_str()).collect::<Vec<_>>(), vec!["stalequote:line-1:a", "stalequote:line-1:b"]);
    assert_eq!(sorted[1].message, "w b");
}

#[test]
fn source_records_are_sorted_and_deduplicated() {
    let record = |t: &str, id: &str, v: &str| WorksheetSourceRecord {
        source_type: t.to_string(),
        id: id.to_string(),
        version: v.to_string(),
        details: String::new(),
    };
    let sorted = AllocationWorksheetService::sort_source_records(vec![
        record("taxonomy", "t", "1"),
        record("asset", "b", "1"),
        record("asset", "a", "2"),
        record("asset", "b", "1"),
        record("asset", "a", "1"),
    ]);
    let keys: Vec<(String, String, String)> =
        sorted.iter().map(|r| (r.source_type.clone(), r.id.clone(), r.version.clone())).collect();
    assert_eq!(
        keys,
        vec![
            ("asset".to_string(), "a".to_string(), "1".to_string()),
            ("asset".to_string(), "a".to_string(), "2".to_string()),
            ("asset".to_string(), "b".to_string(), "1".to_string()),
            ("taxonomy".to_string(), "t".to_string(), "1".to_string()),
        ]
    );
}

fn worksheet_data(whole_shares: bool) -> WorksheetData {
    let mut t = target();
    t.whole_shares_only = whole_shares;
    t.allow_sells = true;
    t.min_trade_amount = "1000".to_string();
    let now = chrono::Utc::now();
    WorksheetData {
        target: t,
        drift: DriftReport {
            target_id: "target-1".to_string(),
            scope_type: ScopeType::All,
            scope_id: None,
            total_value: d("1000"),
            base_currency: "USD".to_string(),
            max_drift_bps: 0,
            out_of_band_count: 0,
            rows: vec![
                DriftRow {
                    category_id: "equity".to_string(),
                    category_name: "Equity".to_string(),
                    color: "#111111".to_string(),
                    current_bps: 9000,
                    target_bps: 6000,
                    drift_bps: 3000,
                    current_value: d("900"),
                    target_value: d("600"),
                    value_delta: d("-300"),
                    effective_band_bps: 500,
                    status: DriftStatus::Overweight,
                    is_required: false,
                    is_zero_current: false,
                    is_cash: false,
                },
                DriftRow {
                    category_id: "cash".to_string(),
                    category_name: "Cash".to_string(),
                    color: "#222222".to_string(),
                    current_bps: 1000,
                    target_bps: 4000,
                    drift_bps: -3000,
                    current_value: d("100"),
                    target_value: d("400"),
                    value_delta: d("300"),
                    effective_band_bps: 500,
                    status: DriftStatus::Underweight,
                    is_required: false,
                    is_zero_current: false,
                    is_cash: true,
                },
            ],
            holdings: None,
            deployable_cash: d("100"),
        },
        assets: vec![WorksheetAsset {
            id: "asset-1".to_string(),
            name: Some("Asset One".to_string()),
            display_code: Some("ONE".to_string()),
            instrument_symbol: None,
            is_active: true,
            is_investment: true,
            contract_multiplier: Dec::one(),
            kind: "Security".to_string(),
            quote_currency: "USD".to_string(),
            updated_at: "2026-01-01T00:00:00+00:00".to_string(),
        }],
        quote_snapshots: vec![LatestQuoteSnapshot {
            asset_id: "asset-1".to_string(),
            quote: Some(SecurityQuote {
                id: "quote-1".to_string(),
                close: d("30"),
                currency: "USD".to_string(),
                currency_normalized: "USD".to_string(),
                currency_multiplier: Dec::one(),
                timestamp: now.to_rfc3339(),
                date: now.date_naive().to_string(),
                data_source: "MANUAL".to_string(),
            }),
            is_stale: false,
            no_quote_reason: None,
        }],
        assignments: vec![assignment("c-1", "equity", 10_000)],
        taxonomy: Taxonomy {
            id: "taxonomy".to_string(),
            name: "Asset classes".to_string(),
            scope: "global".to_string(),
            updated_at: "2026-01-01T00:00:00+00:00".to_string(),
        },
        categories: vec![
            TaxonomyCategory {
                id: "cash".to_string(),
                name: "Cash".to_string(),
                parent_id: None,
                sort_order: 2,
                color: "#222222".to_string(),
                updated_at: "2026-01-01T00:00:00+00:00".to_string(),
            },
            TaxonomyCategory {
                id: "equity".to_string(),
                name: "Equity".to_string(),
                parent_id: None,
                sort_order: 1,
                color: "#111111".to_string(),
                updated_at: "2026-01-01T00:00:00+00:00".to_string(),
            },
        ],
        fx_rates: vec![],
        constraints: vec![],
        holdings: vec![AccountHoldings {
            account_id: "account-1".to_string(),
            holdings: vec![Holding {
                id: "holding-1".to_string(),
                account_id: "account-1".to_string(),
                instrument_id: Some("asset-1".to_string()),
                is_cash: false,
                quantity: d("30"),
                as_of_date: "2026-01-01".to_string(),
                market_value_base: d("900"),
                price: Some(d("30")),
            }],
        }],
        weights: vec![
            AllocationTargetWeight {
                id: "w-1".to_string(),
                target_id: "target-1".to_string(),
                taxonomy_id: "taxonomy".to_string(),
                category_id: "equity".to_string(),
                target_bps: 6000,
                is_locked: false,
                is_required: false,
                created_at: "2026-01-01".to_string(),
                updated_at: "2026-01-01".to_string(),
            },
            AllocationTargetWeight {
                id: "w-2".to_string(),
                target_id: "target-1".to_string(),
                taxonomy_id: "taxonomy".to_string(),
                category_id: "cash".to_string(),
                target_bps: 4000,
                is_locked: false,
                is_required: false,
                created_at: "2026-01-01".to_string(),
                updated_at: "2026-01-01".to_string(),
            },
        ],
        source_assignments: vec![assignment("c-1", "equity", 10_000)],
        source_quotes: vec![],
        base_currency: currency("USD"),
        today: now.date_naive().num_days_from_ce(),
        calculated_at: now.to_rfc3339(),
    }
}

#[test]
fn a_reduction_moves_value_from_equity_to_cash() {
    let mut input = request();
    input.cash.tracked_cash_to_use = Dec::zero();
    input.lines[0].direction = WorksheetDirection::Reduce;
    input.lines[0].value = d("300");
    let result = AllocationWorksheetService::compute_worksheet(&input, &worksheet_data(true)).unwrap().unwrap();
    assert_eq!(result.lines.len(), 1);
    assert_eq!(value(result.lines[0].quantity), dv("10"));
    assert_eq!(value(result.lines[0].estimated_amount), dv("300"));
    assert_eq!(value(result.reduction_total), dv("300"));
    assert_eq!(value(result.increase_total), Decimal::ZERO);
    assert_eq!(value(result.cash_remaining), dv("300"));
    let ids: Vec<&str> = result.categories.iter().map(|c| c.category_id.as_str()).collect();
    assert_eq!(ids, vec!["equity", "cash"]);
    assert_eq!(result.categories[0].projected_bps, 6000);
    assert_eq!(result.categories[1].projected_bps, 4000);
    assert_eq!(result.max_difference_bps_before, 3000);
    assert_eq!(result.max_difference_bps_after, 0);
    assert!(result.warnings.iter().any(|w| w.kind == WorksheetWarningKind::BelowMinimumLine));
    assert!(result.source_records.windows(2).all(|p| (&p[0].source_type, &p[0].id) <= (&p[1].source_type, &p[1].id)));
}

#[test]
fn a_reduction_beyond_the_holding_is_refused() {
    let mut input = request();
    input.lines[0].direction = WorksheetDirection::Reduce;
    input.lines[0].input_mode = WorksheetInputMode::Quantity;
    input.lines[0].value = d("31");
    input.cash.tracked_cash_to_use = Dec::zero();
    let err = AllocationWorksheetService::compute_worksheet(&input, &worksheet_data(false)).unwrap().unwrap_err();
    assert_eq!(message(&err), "Worksheet line line-1: reduction exceeds the 30 units currently held in this account");
}

#[test]
fn a_blocking_constraint_refuses_the_line() {
    let mut data = worksheet_data(false);
    data.constraints.push(AllocationTargetConstraint {
        id: "c-block".to_string(),
        target_id: "target-1".to_string(),
        subject_type: ConstraintSubjectType::Category,
        subject_id: "equity".to_string(),
        action: ConstraintAction::Buy,
        effect: ConstraintEffect::Block,
        reason: Some("concentrated".to_string()),
        metadata_json: None,
        created_at: "2026-01-01".to_string(),
        updated_at: "2026-01-01".to_string(),
    });
    let err = AllocationWorksheetService::compute_worksheet(&request(), &data).unwrap().unwrap_err();
    assert_eq!(message(&err), "Worksheet line line-1: blocked by your worksheet constraint: concentrated");
}

#[test]
fn fx_resolution_prefers_the_path_with_fewest_rates() {
    let rates = vec![
        fx_rate("eur-gbp", "EUR", "GBP", "0.85"),
        fx_rate("gbp-usd", "GBP", "USD", "1.3"),
        fx_rate("eur-usd", "EUR", "USD", "1.1"),
    ];
    let (rate, source, records) =
        AllocationWorksheetService::resolve_fx_source(&currency("EUR"), &currency("USD"), &rates).unwrap().unwrap();
    assert_eq!(value(rate), dv("1.1"));
    let source = source.unwrap();
    assert_eq!(source.id, "eur-usd");
    assert_eq!(source.source_type, "fx_rate");
    assert_eq!(records.len(), 1);
}

#[test]
fn reductions_of_one_position_are_added_up_against_the_holding() {
    let mut input = request();
    input.cash.tracked_cash_to_use = Dec::zero();
    let mut first = line(WorksheetInputMode::Quantity, "20");
    first.direction = WorksheetDirection::Reduce;
    let mut second = first.clone();
    second.line_id = "line-2".to_string();
    input.lines = vec![first, second];
    let err = AllocationWorksheetService::compute_worksheet(&input, &worksheet_data(false)).unwrap().unwrap_err();
    assert_eq!(message(&err), "Worksheet line line-2: reduction exceeds the 30 units currently held in this account");
}

#[test]
fn line_warnings_name_the_line_and_their_source() {
    let mut data = worksheet_data(false);
    data.quote_snapshots[0].is_stale = true;
    data.constraints.push(AllocationTargetConstraint {
        id: "c-avoid".to_string(),
        target_id: "target-1".to_string(),
        subject_type: ConstraintSubjectType::Asset,
        subject_id: "asset-1".to_string(),
        action: ConstraintAction::Trade,
        effect: ConstraintEffect::Avoid,
        reason: None,
        metadata_json: None,
        created_at: "2026-01-01".to_string(),
        updated_at: "2026-01-01".to_string(),
    });
    let result = AllocationWorksheetService::compute_worksheet(&request(), &data).unwrap().unwrap();
    let avoid = result.warnings.iter().find(|w| w.kind == WorksheetWarningKind::AvoidConstraint).unwrap();
    assert_eq!(avoid.id, "avoidconstraint:line-1:c-avoid");
    assert_eq!(avoid.message, "This line conflicts with your Avoid constraint.");
    assert_eq!(avoid.line_id.as_deref(), Some("line-1"));
    let stale = result.warnings.iter().find(|w| w.kind == WorksheetWarningKind::StaleQuote).unwrap();
    assert_eq!(stale.id, "stalequote:line-1:quote-1");
    assert!(stale.message.starts_with("Uses a dated security price from "));
    let ids: Vec<&str> = result.warnings.iter().map(|w| w.id.as_str()).collect();
    let mut sorted = ids.clone();
    sorted.sort();
    assert_eq!(ids, sorted);
}

#[test]
fn a_targeted_category_without_value_still_has_a_row() {
    let mut data = worksheet_data(false);
    data.weights.push(AllocationTargetWeight {
        id: "w-3".to_string(),
        target_id: "target-1".to_string(),
        taxonomy_id: "taxonomy".to_string(),
        category_id: "bonds".to_string(),
        target_bps: 0,
        is_locked: false,
        is_required: false,
        created_at: "2026-01-01".to_string(),
        updated_at: "2026-01-01".to_string(),
    });
    let result = AllocationWorksheetService::compute_worksheet(&request(), &data).unwrap().unwrap();
    let bonds = result.categories.iter().find(|c| c.category_id == "bonds").unwrap();
    assert_eq!(value(bonds.current_value), Decimal::ZERO);
    assert_eq!(value(bonds.projected_value), Decimal::ZERO);
    assert_eq!(bonds.category_name, "bonds");
    assert_eq!(bonds.color, "#94a3b8");
}

#[test]
fn fx_resolution_breaks_ties_by_next_currency_then_rate_id() {
    let rates = vec![
        fx_rate("eur-gbp", "EUR", "GBP", "0.85"),
        fx_rate("gbp-usd", "GBP", "USD", "1.3"),
        fx_rate("eur-chf", "EUR", "CHF", "0.95"),
        fx_rate("chf-usd", "CHF", "USD", "1.2"),
    ];
    let (rate, source, records) =
        AllocationWorksheetService::resolve_fx_source(&currency("EUR"), &currency("USD"), &rates).unwrap().unwrap();
    assert_eq!(value(rate), dv("1.14"));
    let source = source.unwrap();
    assert_eq!(source.id, "eur-chf>chf-usd");
    assert_eq!(source.source_type, "fx_path");
    assert_eq!(records.len(), 2);

    let direct = vec![fx_rate("usd-eur-b", "USD", "EUR", "0.9"), fx_rate("usd-eur-a", "USD", "EUR", "0.95")];
    let (rate, source, _) =
        AllocationWorksheetService::resolve_fx_source(&currency("USD"), &currency("EUR"), &direct).unwrap().unwrap();
    assert_eq!(value(rate), dv("0.95"));
    assert_eq!(source.unwrap().id, "usd-eur-a");
}

#[test]
fn source_records_hold_only_the_rates_a_line_used() {
    let mut data = worksheet_data(false);
    let quote = data.quote_snapshots[0].quote.as_mut().unwrap();
    quote.currency = "EUR".to_string();
    quote.currency_normalized = "EUR".to_string();
    data.fx_rates = vec![fx_rate("gbp-usd", "GBP", "USD", "1.3"), fx_rate("eur-usd", "EUR", "USD", "1")];
    let result = AllocationWorksheetService::compute_worksheet(&request(), &data).unwrap().unwrap();
    let fx: Vec<&str> = result
        .source_records
        .iter()
        .filter(|r| r.source_type == "fx_rate")
        .map(|r| r.id.as_str())
        .collect();
    assert_eq!(fx, vec!["eur-usd"]);
    let source = result.lines[0].fx_source.as_ref().unwrap();
    assert_eq!(source.id, "eur-usd");
}

#[test]
fn category_rows_follow_the_taxonomy_sort_order_then_other_ids() {
    let mut data = worksheet_data(false);
    let mut bonds = data.categories[1].clone();
    bonds.id = "bonds".to_string();
    bonds.name = "Bonds".to_string();
    data.categories[0].sort_order = 0;
    data.categories[1].sort_order = 5;
    bonds.sort_order = 5;
    data.categories.insert(0, bonds);
    let mut weight = data.weights[0].clone();
    weight.id = "w-3".to_string();
    weight.category_id = "bonds".to_string();
    weight.target_bps = 0;
    data.weights.push(weight);
    let mut other = data.weights[0].clone();
    other.id = "w-4".to_string();
    other.category_id = "gold".to_string();
    other.target_bps = 0;
    data.weights.push(other);
    let result = AllocationWorksheetService::compute_worksheet(&request(), &data).unwrap().unwrap();
    let ids: Vec<&str> = result.categories.iter().map(|c| c.category_id.as_str()).collect();
    assert_eq!(ids, vec!["cash", "bonds", "equity", "gold"]);
}

#[test]
fn asset_ids_are_sorted_once_and_include_held_securities() {
    let mut input = request();
    let mut second = line(WorksheetInputMode::Amount, "5");
    second.line_id = "line-2".to_string();
    second.asset_id = "asset-0".to_string();
    let mut third = second.clone();
    third.line_id = "line-3".to_string();
    input.lines = vec![input.lines[0].clone(), second, third];
    assert_eq!(AllocationWorksheetService::line_asset_ids(&input), vec!["asset-0", "asset-1"]);

    let holding = |id: &str, instrument: Option<&str>, is_cash: bool| Holding {
        id: id.to_string(),
        account_id: "account-1".to_string(),
        instrument_id: instrument.map(|i| i.to_string()),
        is_cash,
        quantity: d("1"),
        as_of_date: "2026-01-01".to_string(),
        market_value_base: d("1"),
        price: None,
    };
    let holdings = vec![AccountHoldings {
        account_id: "account-1".to_string(),
        holdings: vec![
            holding("h-1", Some("asset-9"), false),
            holding("h-2", None, false),
            holding("h-3", Some("cash-usd"), true),
            holding("h-4", Some("asset-1"), false),
        ],
    }];
    assert_eq!(
        AllocationWorksheetService::source_asset_ids(&input, &holdings),
        vec!["asset-0", "asset-1", "asset-9", "h-2"]
    );
}

#[test]
fn classification_weights_must_add_up_within_range() {
    let fits = vec![assignment("c-1", "equity", 6_000), assignment("c-2", "cash", 4_000)];
    assert!(AllocationWorksheetService::classifications_within_range(&fits, "taxonomy"));
    let overflow = vec![assignment("c-1", "equity", i32::MAX), assignment("c-2", "cash", 1)];
    assert!(!AllocationWorksheetService::classifications_within_range(&overflow, "taxonomy"));
    assert!(AllocationWorksheetService::classifications_within_range(&overflow, "other-taxonomy"));
    let residual = vec![assignment("c-1", "equity", i32::MIN)];
    assert!(!AllocationWorksheetService::classifications_within_range(&residual, "taxonomy"));
}
