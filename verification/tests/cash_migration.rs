use std::str::FromStr;

use rust_decimal::Decimal;
use wealthfolio_core::cash_migration::{
    migration_cash_unit_multiplier, migration_metadata, plan_activity_migration, unclassifiable_without_multiplier,
    AccountRebuild, ActivityCashMigrationResult, Json, MigrationAction, MigrationBatch, MigrationEvent,
    MigrationRun, RebuildAction, RebuildEvent, UnitMultiplierSource, COMPLETE,
};
use wealthfolio_core::decimal::Dec;
use wealthfolio_core::economic_events::{Activity, ActivityType, ClassifiedLegacyActivityCash, LegacyActivityCashClassification};

fn d(text: &str) -> Dec {
    let v = Decimal::from_str(text).expect("decimal literal");
    Dec { negative: v.is_sign_negative(), mantissa: v.mantissa().unsigned_abs(), scale: v.scale() }
}

fn value(x: Dec) -> Decimal {
    let mut v = Decimal::from_i128_with_scale(x.mantissa as i128, x.scale);
    v.set_sign_negative(x.negative);
    v
}

fn activity(activity_type: ActivityType, amount: Option<&str>) -> Activity {
    Activity {
        id: "activity-1".to_string(),
        account_id: "account-1".to_string(),
        asset_id: Some("asset-1".to_string()),
        activity_type,
        subtype: None,
        quantity: Some(d("2")),
        unit_price: Some(d("10")),
        amount: amount.map(d),
        fee: Some(d("1")),
        tax: Some(d("2")),
        currency: "USD".to_string(),
        needs_review: false,
        cash_migration_classification: None,
        asset_is_cash_symbol: false,
    }
}

fn member<'a>(v: &'a Json, key: &str) -> Option<&'a Json> {
    match v {
        Json::Object(entries) => entries.iter().find(|(k, _)| k == key).map(|(_, v)| v),
        _ => None,
    }
}

fn text(v: Option<&Json>) -> Option<&str> {
    match v {
        Some(Json::Text(t)) => Some(t.as_str()),
        _ => None,
    }
}

/// Drives a run with the given outcomes of the outside work, recording the
/// requests and the state that was written.
fn drive(
    state: Option<&str>,
    read_fails: bool,
    pending_fails: bool,
    migrate_fails: bool,
    complete_fails: bool,
) -> (ActivityCashMigrationResult, Vec<MigrationAction>, Option<String>) {
    let mut stored = state.map(str::to_string);
    let (mut run, mut action) = MigrationRun::start();
    let mut actions = vec![action];
    loop {
        let event = match action {
            MigrationAction::ReadState => {
                MigrationEvent::StateRead(if read_fails { Err("read".to_string()) } else { Ok(stored.clone()) })
            }
            MigrationAction::MarkPending => MigrationEvent::PendingMarked(if pending_fails {
                Err("pending".to_string())
            } else {
                stored = Some("classification_pending".to_string());
                Ok(())
            }),
            MigrationAction::MigrateAmounts => MigrationEvent::AmountsMigrated(if migrate_fails {
                Err("migrate".to_string())
            } else {
                Ok(ActivityCashMigrationResult { changed: 2, affected_account_ids: vec!["account-1".to_string()] })
            }),
            MigrationAction::MarkComplete => MigrationEvent::CompleteMarked(if complete_fails {
                Err("complete".to_string())
            } else {
                stored = Some(COMPLETE.to_string());
                Ok(())
            }),
            MigrationAction::Stop => break,
        };
        let (next, next_action) = run.step(event);
        run = next;
        action = next_action;
        actions.push(action);
    }
    (run.outcome(), actions, stored)
}

#[test]
fn completes_classification_before_rebuild_work() {
    let (result, actions, stored) = drive(None, false, false, false, false);
    assert_eq!(result.changed, 2);
    assert_eq!(stored.as_deref(), Some(COMPLETE));
    assert_eq!(
        actions,
        vec![
            MigrationAction::ReadState,
            MigrationAction::MarkPending,
            MigrationAction::MigrateAmounts,
            MigrationAction::MarkComplete,
            MigrationAction::Stop
        ]
    );
}

#[test]
fn skips_an_already_completed_migration() {
    let (result, actions, _) = drive(Some(COMPLETE), false, false, true, false);
    assert_eq!(result.changed, 0);
    assert!(result.affected_account_ids.is_empty());
    assert_eq!(actions, vec![MigrationAction::ReadState, MigrationAction::Stop]);
}

#[test]
fn classification_errors_do_not_escape_or_mark_complete() {
    for (read, pending, migrate) in [(true, false, false), (false, true, false), (false, false, true)] {
        let (result, _, stored) = drive(None, read, pending, migrate, false);
        assert_eq!(result.changed, 0);
        assert!(result.affected_account_ids.is_empty());
        assert_ne!(stored.as_deref(), Some(COMPLETE));
    }
    let (result, _, stored) = drive(None, false, false, false, true);
    assert_eq!(result.changed, 2);
    assert_eq!(result.affected_account_ids, vec!["account-1"]);
    assert_ne!(stored.as_deref(), Some(COMPLETE));
}

#[test]
fn account_rebuild_failures_are_isolated() {
    let accounts = ["bad".to_string(), "good".to_string()];
    let rebuild = AccountRebuild { count: accounts.len() };
    let mut calls = Vec::new();
    let mut action = rebuild.start();
    loop {
        let event = match action {
            RebuildAction::RebuildHoldings(i) => {
                calls.push(format!("holdings:{}", accounts[i]));
                RebuildEvent::HoldingsRebuilt(if accounts[i] == "bad" { Err("holdings failure".to_string()) } else { Ok(()) })
            }
            RebuildAction::RebuildValuation(i) => {
                calls.push(format!("valuation:{}", accounts[i]));
                RebuildEvent::ValuationRebuilt(Ok(0))
            }
            RebuildAction::Stop => break,
        };
        action = rebuild.next(action, event);
    }
    assert_eq!(calls, vec!["holdings:bad", "holdings:good", "valuation:good"]);
}

#[test]
fn unknown_multiplier_keeps_a_supplied_amount_for_review() {
    let with_amount = unclassifiable_without_multiplier(&activity(ActivityType::Buy, Some("-23")));
    assert_eq!(with_amount.classification, LegacyActivityCashClassification::Ambiguous);
    assert_eq!(with_amount.final_amount.map(value), Some(Decimal::from(23)));
    assert!(with_amount.needs_review);

    let without = unclassifiable_without_multiplier(&activity(ActivityType::Buy, None));
    assert_eq!(without.classification, LegacyActivityCashClassification::Missing);
    assert!(without.final_amount.is_none());
}

#[test]
fn multiplier_is_only_needed_for_priced_activities_with_charges() {
    let mut charged_free = activity(ActivityType::Buy, Some("20"));
    charged_free.fee = None;
    charged_free.tax = Some(Dec::zero());
    assert!(matches!(migration_cash_unit_multiplier(&charged_free, None), UnitMultiplierSource::Known(m) if value(m) == Decimal::ONE));

    let deposit = activity(ActivityType::Deposit, None);
    assert!(matches!(migration_cash_unit_multiplier(&deposit, None), UnitMultiplierSource::Known(m) if value(m) == Decimal::ONE));

    let buy = activity(ActivityType::Buy, None);
    assert!(matches!(migration_cash_unit_multiplier(&buy, Some(d("100"))), UnitMultiplierSource::Known(m) if value(m) == Decimal::from(100)));
    assert!(matches!(migration_cash_unit_multiplier(&buy, None), UnitMultiplierSource::Asset(id) if id == "asset-1"));

    let mut no_asset = activity(ActivityType::Buy, None);
    no_asset.asset_id = None;
    assert!(matches!(migration_cash_unit_multiplier(&no_asset, None), UnitMultiplierSource::Unavailable));
}

#[test]
fn metadata_records_the_migration_and_keeps_other_keys() {
    let old = Json::Object(vec![
        ("note".to_string(), Json::Text("kept".to_string())),
        ("cash_amount".to_string(), Json::Object(vec![("source".to_string(), Json::Text("import".to_string()))])),
    ]);
    let classified = ClassifiedLegacyActivityCash {
        classification: LegacyActivityCashClassification::Gross,
        final_amount: Some(d("23")),
        needs_review: false,
    };
    let m = migration_metadata(Some(old), Some(d("20")), classified);
    assert_eq!(text(member(&m, "note")), Some("kept"));
    let record = member(member(&m, "migrations").unwrap(), "cash_amount_v3_8").unwrap();
    assert_eq!(text(member(record, "classification")), Some("gross_converted"));
    assert_eq!(text(member(record, "original_amount")), Some("20"));
    let cash = member(&m, "cash_amount").unwrap();
    assert_eq!(text(member(cash, "mode")), Some("calculated"));
    assert_eq!(text(member(cash, "source")), Some("import"));

    let wrapped = migration_metadata(Some(Json::Text("legacy".to_string())), None, classified);
    assert_eq!(text(member(&wrapped, "legacy_metadata")), Some("legacy"));
    let record = member(member(&wrapped, "migrations").unwrap(), "cash_amount_v3_8").unwrap();
    assert!(matches!(member(record, "original_amount"), Some(Json::Null)));
}

#[test]
fn a_migrated_activity_is_left_alone_on_the_next_run() {
    let buy = activity(ActivityType::Buy, Some("20"));
    let update = plan_activity_migration(&buy, None, Some(Dec::one()), d("0.01")).unwrap().unwrap();
    assert_eq!(update.amount.map(value), Some(Decimal::from(23)));
    assert!(!update.needs_review);
    let again = plan_activity_migration(&buy, update.metadata, Some(Dec::one()), d("0.01")).unwrap();
    assert!(again.is_none());
}

#[test]
fn an_unchanged_final_amount_writes_nothing() {
    let buy = activity(ActivityType::Buy, Some("23"));
    assert!(plan_activity_migration(&buy, None, Some(Dec::one()), d("0.01")).unwrap().is_none());
}

#[test]
fn the_batch_lists_changed_accounts_sorted_once() {
    let mut batch = MigrationBatch::new();
    for account in ["b", "a", "b"] {
        let mut buy = activity(ActivityType::Buy, Some("20"));
        buy.account_id = account.to_string();
        let update = plan_activity_migration(&buy, None, Some(Dec::one()), d("0.01")).unwrap().unwrap();
        batch.record(&buy, update);
    }
    let result = batch.into_result(3);
    assert_eq!(result.changed, 3);
    assert_eq!(result.affected_account_ids, vec!["a", "b"]);
}
