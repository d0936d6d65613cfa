//! The one-time classification of legacy activity cash amounts: what each
//! activity's update is, how its metadata records the migration, and the two
//! small state machines that run the migration and the account rebuilds
//! without letting a failure escape.

use vstd::prelude::*;
use crate::decimal::{Dec, dec_eq, dec_to_string, decimal_text};
use crate::text::{str_eq, insert_sorted, strictly_sorted, text_set};
use crate::economic_events::{
    Activity, ActivityCashInputs, ActivityEconomicsResolver, ActivityType, ClassifiedLegacyActivityCash,
    LegacyActivityCashClassification, classify_legacy_cash_inputs_spec, opt_abs, activity_cash_inputs,
};

verus! {

/// The settings key that records the migration state.
pub const MIGRATION_KEY: &'static str = "migration.activity_cash_amount.v3.8";
/// The state recorded before the amounts are classified.
pub const PENDING: &'static str = "classification_pending";
/// The state recorded once the amounts are classified.
pub const COMPLETE: &'static str = "complete";

// ---------------------------------------------------------------------------
// JSON metadata.
// ---------------------------------------------------------------------------

/// A JSON value.  An object holds its entries in order; a key's value is
/// that of its first entry.
#[derive(Debug)]
pub enum Json {
    Null,
    Bool(bool),
    Number(String),
    Text(String),
    Array(Vec<Json>),
    Object(Vec<(String, Json)>),
}

/// The value of `key` in an object's entries: that of its first entry.
pub open spec fn lookup(entries: Seq<(String, Json)>, key: Seq<char>) -> Option<Json>
    decreases entries.len(),
{
    if entries.len() == 0 {
        None
    } else if entries[0].0@ == key {
        Some(entries[0].1)
    } else {
        lookup(entries.drop_first(), key)
    }
}

/// The value at `key` of an object value.
pub open spec fn member(v: Json, key: Seq<char>) -> Option<Json> {
    match v {
        Json::Object(entries) => lookup(entries@, key),
        _ => None,
    }
}

/// The text at `/migrations/cash_amount_v3_8/classification`, when there is one.
pub open spec fn recorded_classification(metadata: Option<Json>) -> Option<Seq<char>> {
    match metadata {
        Some(m) => match member(m, "migrations"@) {
            Some(migrations) => match member(migrations, "cash_amount_v3_8"@) {
                Some(migration) => match member(migration, "classification"@) {
                    Some(Json::Text(t)) => Some(t@),
                    _ => None,
                },
                None => None,
            },
            None => None,
        },
        None => None,
    }
}

proof fn lemma_lookup_update(entries: Seq<(String, Json)>, p: int, x: (String, Json), key: Seq<char>)
    requires
        0 <= p < entries.len(),
        entries[p].0@ != key,
        x.0@ != key,
    ensures
        lookup(entries.update(p, x), key) == lookup(entries, key),
    decreases entries.len(),
{
    if p > 0 {
        if entries[0].0@ != key {
            assert(entries.update(p, x).drop_first() =~= entries.drop_first().update(p - 1, x));
            lemma_lookup_update(entries.drop_first(), p - 1, x, key);
        }
    } else {
        assert(entries.update(p, x).drop_first() =~= entries.drop_first());
    }
}

proof fn lemma_lookup_set(entries: Seq<(String, Json)>, p: int, x: (String, Json))
    requires
        0 <= p < entries.len(),
        forall|j: int| 0 <= j < p ==> (#[trigger] entries[j]).0@ != x.0@,
    ensures
        lookup(entries.update(p, x), x.0@) == Some(x.1),
    decreases entries.len(),
{
    if p > 0 {
        assert(entries.update(p, x).drop_first() =~= entries.drop_first().update(p - 1, x));
        assert forall|j: int| 0 <= j < p - 1 implies (#[trigger] entries.drop_first()[j]).0@ != x.0@ by {
            assert(entries.drop_first()[j] == entries[j + 1]);
        }
        lemma_lookup_set(entries.drop_first(), p - 1, x);
    }
}

proof fn lemma_lookup_push(entries: Seq<(String, Json)>, x: (String, Json), key: Seq<char>)
    ensures
        lookup(entries.push(x), key) == (match lookup(entries, key) {
            Some(v) => Some(v),
            None => if x.0@ == key { Some(x.1) } else { None },
        }),
    decreases entries.len(),
{
    let p = entries.push(x);
    if entries.len() > 0 {
        assert(p[0] == entries[0]);
        assert(p.drop_first() =~= entries.drop_first().push(x));
        lemma_lookup_push(entries.drop_first(), x, key);
        assert(lookup(p, key) == (if p[0].0@ == key { Some(p[0].1) } else { lookup(p.drop_first(), key) }));
        assert(lookup(entries, key) == (if entries[0].0@ == key { Some(entries[0].1) } else { lookup(entries.drop_first(), key) }));
    } else {
        assert(p[0] == x);
        assert(p.drop_first() =~= Seq::<(String, Json)>::empty());
        assert(lookup(p.drop_first(), key) is None);
        assert(lookup(p, key) == (if p[0].0@ == key { Some(p[0].1) } else { lookup(p.drop_first(), key) }));
    }
}

proof fn lemma_lookup_absent(entries: Seq<(String, Json)>, key: Seq<char>)
    requires
        forall|j: int| 0 <= j < entries.len() ==> (#[trigger] entries[j]).0@ != key,
    ensures
        lookup(entries, key) is None,
    decreases entries.len(),
{
    if entries.len() > 0 {
        assert forall|j: int| 0 <= j < entries.len() - 1 implies (#[trigger] entries.drop_first()[j]).0@ != key by {
            assert(entries.drop_first()[j] == entries[j + 1]);
        }
        lemma_lookup_absent(entries.drop_first(), key);
    }
}

/// The position of the first entry with `key`, if any.
fn find_key(entries: &Vec<(String, Json)>, key: &str) -> (r: Option<usize>)
    ensures
        r matches Some(p) ==> p < entries@.len() && entries@[p as int].0@ == key@,
        r matches Some(p) ==> forall|j: int| 0 <= j < p ==> (#[trigger] entries@[j]).0@ != key@,
        r is None ==> forall|j: int| 0 <= j < entries@.len() ==> (#[trigger] entries@[j]).0@ != key@,
{
    let mut i: usize = 0;
    while i < entries.len()
        invariant
            i <= entries@.len(),
            forall|j: int| 0 <= j < i ==> (#[trigger] entries@[j]).0@ != key@,
        decreases entries@.len() - i,
    {
        if str_eq(entries[i].0.as_str(), key) {
            return Some(i);
        }
        i = i + 1;
    }
    None
}

/// `entries` with `key` set to `value`: the first entry with the key is
/// replaced, or a new entry is appended.
fn object_insert(entries: Vec<(String, Json)>, key: &str, value: Json) -> (r: Vec<(String, Json)>)
    ensures
        lookup(r@, key@) == Some(value),
        forall|k: Seq<char>| k != key@ ==> lookup(r@, k) == lookup(entries@, k),
{
    let mut entries = entries;
    let ghost e = entries@;
    let x = (String::from_str(key), value);
    match find_key(&entries, key) {
        Some(p) => {
            entries.set(p, x);
            proof {
                lemma_lookup_set(e, p as int, x);
                assert forall|k: Seq<char>| k != key@ implies lookup(entries@, k) == lookup(e, k) by {
                    lemma_lookup_update(e, p as int, x, k);
                }
            }
        },
        None => {
            entries.push(x);
            proof {
                lemma_lookup_absent(e, key@);
                lemma_lookup_push(e, x, key@);
                assert forall|k: Seq<char>| k != key@ implies lookup(entries@, k) == lookup(e, k) by {
                    lemma_lookup_push(e, x, k);
                }
            }
        },
    }
    entries
}

/// Takes the value of `key` out of `entries` when it is an object, leaving
/// the other entries; `None` when there is no such object.
fn take_object(entries: Vec<(String, Json)>, key: &str) -> (r: (Vec<(String, Json)>, Option<Vec<(String, Json)>>))
    ensures
        forall|k: Seq<char>| k != key@ ==> lookup(r.0@, k) == lookup(entries@, k),
        match lookup(entries@, key@) {
            Some(Json::Object(inner)) => r.1 == Some(inner),
            _ => r.1 is None,
        },
{
    let mut entries = entries;
    let ghost e = entries@;
    match find_key(&entries, key) {
        Some(p) => {
            let is_object = match &entries[p].1 {
                Json::Object(_) => true,
                _ => false,
            };
            proof {
                lemma_lookup_set(e, p as int, e[p as int]);
                assert(e.update(p as int, e[p as int]) =~= e);
            }
            if is_object {
                let placeholder = (String::from_str(key), Json::Null);
                let (k, v) = entries.remove(p);
                entries.insert(p, placeholder);
                proof {
                    assert(entries@ =~= e.update(p as int, placeholder));
                    assert forall|k: Seq<char>| k != key@ implies lookup(entries@, k) == lookup(e, k) by {
                        lemma_lookup_update(e, p as int, placeholder, k);
                    }
                }
                match v {
                    Json::Object(inner) => (entries, Some(inner)),
                    _ => (entries, None),
                }
            } else {
                (entries, None)
            }
        },
        None => {
            proof {
                lemma_lookup_absent(e, key@);
            }
            (entries, None)
        },
    }
}

pub open spec fn amount_mode(c: LegacyActivityCashClassification) -> Seq<char> {
    if c == LegacyActivityCashClassification::Derived || c == LegacyActivityCashClassification::Gross || c == LegacyActivityCashClassification::Missing {
        "calculated"@
    } else {
        "custom"@
    }
}

/// The entries the migration record is written into: the metadata object,
/// a new object wrapping other metadata as `legacy_metadata`, or an empty one.
pub open spec fn base_entries(metadata: Option<Json>) -> Seq<(String, Json)> {
    match metadata {
        Some(Json::Object(entries)) => entries@,
        _ => Seq::empty(),
    }
}

/// What `migration_metadata` writes.
pub open spec fn migration_metadata_spec(
    metadata: Option<Json>,
    original_amount: Option<Dec>,
    classification: LegacyActivityCashClassification,
    result: Json,
) -> bool {
    &&& result matches Json::Object(root)
    &&& (metadata matches Some(m) && !(m is Object)) ==> (match lookup(root@, "legacy_metadata"@) {
        Some(v) => Some(v) == metadata,
        None => false,
    })
    &&& forall|k: Seq<char>| k != "migrations"@ && k != "cash_amount"@ && k != "legacy_metadata"@ ==> lookup(root@, k) == lookup(base_entries(metadata), k)
    &&& !(metadata matches Some(m) && !(m is Object)) ==> lookup(root@, "legacy_metadata"@) == lookup(base_entries(metadata), "legacy_metadata"@)
    &&& match lookup(root@, "migrations"@) {
        Some(Json::Object(migrations)) => {
            &&& (forall|k: Seq<char>| k != "cash_amount_v3_8"@ ==> lookup(migrations@, k) == match lookup(base_entries(metadata), "migrations"@) {
                Some(Json::Object(old)) => lookup(old@, k),
                _ => None,
            })
            &&& match lookup(migrations@, "cash_amount_v3_8"@) {
                Some(Json::Object(record)) => {
                    &&& (forall|k: Seq<char>| k != "classification"@ && k != "original_amount"@ ==> lookup(record@, k) is None)
                    &&& (match lookup(record@, "classification"@) {
                        Some(Json::Text(c)) => c@ == classification.as_str_spec(),
                        _ => false,
                    })
                    &&& (match (lookup(record@, "original_amount"@), original_amount) {
                        (Some(Json::Text(t)), Some(a)) => t@ == decimal_text(a@),
                        (Some(Json::Null), None) => true,
                        _ => false,
                    })
                },
                _ => false,
            }
        },
        _ => false,
    }
    &&& match lookup(root@, "cash_amount"@) {
        Some(Json::Object(cash)) => {
            &&& (forall|k: Seq<char>| k != "mode"@ ==> lookup(cash@, k) == match lookup(base_entries(metadata), "cash_amount"@) {
                Some(Json::Object(old)) => lookup(old@, k),
                _ => None,
            })
            &&& match lookup(cash@, "mode"@) {
                Some(Json::Text(m)) => m@ == amount_mode(classification),
                _ => false,
            }
        },
        _ => false,
    }
}

/// The metadata recording the migration of an activity: the original amount
/// and the classification under `migrations.cash_amount_v3_8`, and whether
/// the amount is now calculated or custom under `cash_amount.mode`; other
/// metadata is kept, and metadata that is not an object is kept under
/// `legacy_metadata`.
pub fn migration_metadata(
    metadata: Option<Json>,
    original_amount: Option<Dec>,
    classified: ClassifiedLegacyActivityCash,
) -> (r: Json)
    requires
        original_amount matches Some(a) ==> a.wf(),
    ensures
        migration_metadata_spec(metadata, original_amount, classified.classification, r),
{
    let ghost m0 = metadata;
    let mut root: Vec<(String, Json)> = match metadata {
        None => Vec::new(),
        Some(Json::Object(entries)) => entries,
        Some(other) => {
            let mut v: Vec<(String, Json)> = Vec::new();
            v.push((String::from_str("legacy_metadata"), other));
            v
        },
    };
    let ghost root0 = root@;
    proof {
        if !(m0 matches Some(Json::Object(_))) {
            if root0.len() > 0 {
                assert(root0.len() == 1);
                assert(root0.drop_first() =~= Seq::<(String, Json)>::empty());
                assert(root0[0].0@ == "legacy_metadata"@);
                assert(lookup(root0, "legacy_metadata"@) == Some(root0[0].1));
            }
            assert forall|k: Seq<char>| k != "legacy_metadata"@ implies lookup(root0, k) == lookup(base_entries(m0), k) by {
                if root0.len() > 0 {
                    assert(lookup(root0, k) == lookup(root0.drop_first(), k));
                }
            }
        }
    }
    let (r1, migrations) = take_object(root, "migrations");
    let ghost r1v = r1@;
    let ghost taken_migrations = migrations;
    let migrations = match migrations {
        Some(m) => m,
        None => Vec::new(),
    };
    let ghost migrations0 = migrations@;
    let mut record: Vec<(String, Json)> = Vec::new();
    record.push((String::from_str("classification"), Json::Text(String::from_str(classified.classification.as_str()))));
    let original = match original_amount {
        Some(a) => Json::Text(dec_to_string(a)),
        None => Json::Null,
    };
    record.push((String::from_str("original_amount"), original));
    proof {
        reveal_strlit("classification");
        reveal_strlit("original_amount");
        assert("original_amount"@.len() != "classification"@.len());
        assert(record@[1].0@ != "classification"@);
        let tail = record@.drop_first();
        assert(tail =~= seq![record@[1]]);
        assert(tail[0] == record@[1]);
        assert(record@[1].0@ == "original_amount"@);
        assert(lookup(tail, "original_amount"@) == Some(tail[0].1));
        assert(lookup(record@, "original_amount"@) == lookup(tail, "original_amount"@));
        assert(lookup(record@, "original_amount"@) == Some(record@[1].1));
        assert forall|k: Seq<char>| k != "classification"@ && k != "original_amount"@ implies lookup(record@, k) is None by {
            assert(lookup(record@, k) == lookup(tail, k));
            assert(lookup(tail, k) == lookup(tail.drop_first(), k));
            assert(tail.drop_first() =~= Seq::<(String, Json)>::empty());
        }
    }
    let migrations = object_insert(migrations, "cash_amount_v3_8", Json::Object(record));
    let ghost migrations_final = migrations;
    let root = object_insert(r1, "migrations", Json::Object(migrations));
    let ghost root_mid = root@;
    let (r2, cash) = take_object(root, "cash_amount");
    let ghost r2v = r2@;
    let ghost taken_cash = cash;
    let cash = match cash {
        Some(c) => c,
        None => Vec::new(),
    };
    let ghost cash0 = cash@;
    let mode = if classified.classification == LegacyActivityCashClassification::Derived
        || classified.classification == LegacyActivityCashClassification::Gross
        || classified.classification == LegacyActivityCashClassification::Missing
    {
        "calculated"
    } else {
        "custom"
    };
    let cash = object_insert(cash, "mode", Json::Text(String::from_str(mode)));
    let ghost cash_final = cash;
    let root = object_insert(r2, "cash_amount", Json::Object(cash));
    proof {
        let fin = root@;
        reveal_strlit("migrations");
        reveal_strlit("cash_amount");
        reveal_strlit("legacy_metadata");
        assert("migrations"@.len() != "cash_amount"@.len());
        assert("migrations"@.len() != "legacy_metadata"@.len());
        assert("cash_amount"@.len() != "legacy_metadata"@.len());
        // Keys other than the two rewritten ones pass through every stage.
        assert forall|k: Seq<char>| k != "migrations"@ && k != "cash_amount"@ implies lookup(fin, k) == lookup(root0, k) by {
            assert(lookup(fin, k) == lookup(r2v, k));
            assert(lookup(r2v, k) == lookup(root_mid, k));
            assert(lookup(root_mid, k) == lookup(r1v, k));
            assert(lookup(r1v, k) == lookup(root0, k));
        }
        assert(lookup(fin, "migrations"@) == lookup(r2v, "migrations"@));
        assert(lookup(r2v, "migrations"@) == lookup(root_mid, "migrations"@));
        assert(lookup(root_mid, "migrations"@) == Some(Json::Object(migrations_final)));
        assert(lookup(root_mid, "cash_amount"@) == lookup(r1v, "cash_amount"@));
        assert(lookup(r1v, "cash_amount"@) == lookup(root0, "cash_amount"@));
        assert(lookup(fin, "cash_amount"@) == Some(Json::Object(cash_final)));
        assert(lookup(root0, "migrations"@) == lookup(base_entries(m0), "migrations"@));
        assert(lookup(root0, "cash_amount"@) == lookup(base_entries(m0), "cash_amount"@));
        assert forall|k: Seq<char>| k != "cash_amount_v3_8"@ implies lookup(migrations_final@, k) == match lookup(base_entries(m0), "migrations"@) {
            Some(Json::Object(old)) => lookup(old@, k),
            _ => None,
        } by {
            assert(lookup(migrations_final@, k) == lookup(migrations0, k));
        }
        assert forall|k: Seq<char>| k != "mode"@ implies lookup(cash_final@, k) == match lookup(base_entries(m0), "cash_amount"@) {
            Some(Json::Object(old)) => lookup(old@, k),
            _ => None,
        } by {
            assert(lookup(cash_final@, k) == lookup(cash0, k));
        }
        assert forall|k: Seq<char>| k != "migrations"@ && k != "cash_amount"@ && k != "legacy_metadata"@ implies lookup(fin, k) == lookup(base_entries(m0), k) by {
            assert(lookup(fin, k) == lookup(root0, k));
            if m0 matches Some(Json::Object(_)) {
            } else {
                assert(lookup(root0, k) == lookup(base_entries(m0), k));
            }
        }
        if m0 is Some && !(m0.unwrap() is Object) {
            assert(lookup(fin, "legacy_metadata"@) == lookup(root0, "legacy_metadata"@));
        } else {
            assert(lookup(fin, "legacy_metadata"@) == lookup(root0, "legacy_metadata"@));
            if m0 is None {
                assert(root0 =~= base_entries(m0));
            }
        }
    }
    proof {
        reveal_strlit("migrations");
        reveal_strlit("cash_amount");
        reveal_strlit("legacy_metadata");
        reveal_strlit("cash_amount_v3_8");
        reveal_strlit("mode");
        assert("migrations"@.len() != "cash_amount"@.len());
        assert("migrations"@ != "cash_amount"@);
        assert("migrations"@ != "legacy_metadata"@);
        assert("cash_amount"@ != "legacy_metadata"@);
    }
    Json::Object(root)
}

// ---------------------------------------------------------------------------
// Classifying one activity.
// ---------------------------------------------------------------------------

pub open spec fn supplied_nonzero(amount: Option<Dec>) -> bool {
    amount matches Some(a) && !a.is_zero_spec()
}

pub open spec fn unclassifiable_spec(activity: Activity) -> ClassifiedLegacyActivityCash {
    ClassifiedLegacyActivityCash {
        classification: if supplied_nonzero(activity.amount) {
            LegacyActivityCashClassification::Ambiguous
        } else {
            LegacyActivityCashClassification::Missing
        },
        final_amount: if supplied_nonzero(activity.amount) { opt_abs(activity.amount) } else { None },
        needs_review: true,
    }
}

/// The classification of an activity whose unit multiplier is unknown: a
/// supplied non-zero amount is kept and flagged ambiguous, otherwise the
/// amount is missing; either way it needs review.
pub fn unclassifiable_without_multiplier(activity: &Activity) -> (r: ClassifiedLegacyActivityCash)
    ensures
        r == unclassifiable_spec(*activity),
        r.needs_review,
{
    match activity.amount {
        Some(a) => {
            let supplied = a.abs();
            if !supplied.is_zero() {
                ClassifiedLegacyActivityCash {
                    classification: LegacyActivityCashClassification::Ambiguous,
                    final_amount: Some(supplied),
                    needs_review: true,
                }
            } else {
                ClassifiedLegacyActivityCash {
                    classification: LegacyActivityCashClassification::Missing,
                    final_amount: None,
                    needs_review: true,
                }
            }
        },
        None => ClassifiedLegacyActivityCash {
            classification: LegacyActivityCashClassification::Missing,
            final_amount: None,
            needs_review: true,
        },
    }
}

/// Where the unit multiplier of an activity's migration comes from.
#[derive(Debug)]
pub enum UnitMultiplierSource {
    /// This multiplier.
    Known(Dec),
    /// The unit multiplier of this asset, if the asset can be read.
    Asset(String),
    /// None can be had.
    Unavailable,
}

pub open spec fn nonzero_charge(x: Option<Dec>) -> bool {
    x matches Some(v) && !v.is_zero_spec()
}

pub open spec fn requires_asset_multiplier(activity: Activity) -> bool {
    (activity.activity_type == ActivityType::Buy || activity.activity_type == ActivityType::Sell
        || activity.activity_type == ActivityType::Dividend || activity.activity_type == ActivityType::Interest)
    && activity.quantity is Some && activity.unit_price is Some
}

/// The unit multiplier the migration classifies an activity with: one when a
/// supplied amount has no charges (gross and final agree) or when the type is
/// not priced by quantity; then the multiplier recorded in the activity's
/// metadata; then that of its asset.
pub fn migration_cash_unit_multiplier(activity: &Activity, metadata_multiplier: Option<Dec>) -> (r: UnitMultiplierSource)
    ensures
        (supplied_nonzero(activity.amount) && !nonzero_charge(activity.fee) && !nonzero_charge(activity.tax)) ==> r == UnitMultiplierSource::Known(Dec::one_spec()),
        !(supplied_nonzero(activity.amount) && !nonzero_charge(activity.fee) && !nonzero_charge(activity.tax)) ==> (
            if !requires_asset_multiplier(*activity) {
                r == UnitMultiplierSource::Known(Dec::one_spec())
            } else if metadata_multiplier is Some {
                r == UnitMultiplierSource::Known(metadata_multiplier.unwrap())
            } else {
                match activity.asset_id {
                    Some(a) => r matches UnitMultiplierSource::Asset(x) && x@ == a@,
                    None => r is Unavailable,
                }
            }),
{
    let has_supplied = match activity.amount {
        Some(a) => !a.is_zero(),
        None => false,
    };
    let fee_charged = match activity.fee {
        Some(f) => !f.is_zero(),
        None => false,
    };
    let tax_charged = match activity.tax {
        Some(t) => !t.is_zero(),
        None => false,
    };
    if has_supplied && !(fee_charged || tax_charged) {
        return UnitMultiplierSource::Known(Dec::one());
    }
    let t = activity.activity_type;
    let priced = (t == ActivityType::Buy || t == ActivityType::Sell || t == ActivityType::Dividend || t == ActivityType::Interest)
        && activity.quantity.is_some() && activity.unit_price.is_some();
    if !priced {
        return UnitMultiplierSource::Known(Dec::one());
    }
    match metadata_multiplier {
        Some(m) => UnitMultiplierSource::Known(m),
        None => match &activity.asset_id {
            Some(a) => UnitMultiplierSource::Asset(a.clone()),
            None => UnitMultiplierSource::Unavailable,
        },
    }
}

/// The stored change of one activity.
#[derive(Debug)]
pub struct ActivityAmountUpdate {
    pub id: String,
    pub amount: Option<Dec>,
    pub metadata: Option<Json>,
    pub needs_review: bool,
}

/// Two optional amounts differ in presence or in value.
pub open spec fn amount_differs(a: Option<Dec>, b: Option<Dec>) -> bool {
    match (a, b) {
        (None, None) => false,
        (Some(x), Some(y)) => x.units() != y.units(),
        _ => true,
    }
}

/// How an activity is classified: with its unit multiplier, or as
/// unclassifiable without one (`None`: a `Decimal` overflow).
pub open spec fn migration_classification(activity: Activity, unit_multiplier: Option<Dec>, tolerance: Dec) -> Option<ClassifiedLegacyActivityCash> {
    match unit_multiplier {
        Some(m) => classify_legacy_cash_inputs_spec(activity_cash_inputs(activity, m), tolerance),
        None => Some(unclassifiable_spec(activity)),
    }
}

/// Whether the migration writes an update for an activity classified as `c`.
pub open spec fn migration_updates(activity: Activity, c: ClassifiedLegacyActivityCash) -> bool {
    c.classification != LegacyActivityCashClassification::NotApplicable
        && (amount_differs(activity.amount, c.final_amount) || c.needs_review)
}

fn amounts_differ(a: Option<Dec>, b: Option<Dec>) -> (r: bool)
    requires
        a matches Some(x) ==> x.wf(),
        b matches Some(y) ==> y.wf(),
    ensures
        r == amount_differs(a, b),
{
    match (a, b) {
        (None, None) => false,
        (Some(x), Some(y)) => !dec_eq(x, y),
        _ => true,
    }
}

proof fn lemma_lookup_found(entries: Seq<(String, Json)>, p: int, key: Seq<char>)
    requires
        0 <= p < entries.len(),
        entries[p].0@ == key,
        forall|j: int| 0 <= j < p ==> (#[trigger] entries[j]).0@ != key,
    ensures
        lookup(entries, key) == Some(entries[p].1),
{
    lemma_lookup_set(entries, p, entries[p]);
    assert(entries.update(p, entries[p]) =~= entries);
}

/// The object member `key` of an object's entries, if that member is an object.
fn object_member<'a>(entries: &'a Vec<(String, Json)>, key: &str) -> (r: Option<&'a Vec<(String, Json)>>)
    ensures
        match lookup(entries@, key@) {
            Some(Json::Object(inner)) => r == Some(&inner),
            _ => r is None,
        },
{
    match find_key(entries, key) {
        Some(p) => {
            proof {
                lemma_lookup_found(entries@, p as int, key@);
            }
            match &entries[p].1 {
                Json::Object(inner) => Some(inner),
                _ => None,
            }
        },
        None => {
            proof {
                lemma_lookup_absent(entries@, key@);
            }
            None
        },
    }
}

/// Whether the metadata records a classification of this migration.
pub fn metadata_records_classification(metadata: &Option<Json>) -> (r: bool)
    ensures
        r == recorded_classification(*metadata) is Some,
{
    let root = match metadata {
        Some(Json::Object(entries)) => entries,
        _ => return false,
    };
    let migrations = match object_member(root, "migrations") {
        Some(m) => m,
        None => return false,
    };
    let record = match object_member(migrations, "cash_amount_v3_8") {
        Some(m) => m,
        None => return false,
    };
    match find_key(record, "classification") {
        Some(p) => {
            proof {
                lemma_lookup_found(record@, p as int, "classification"@);
            }
            match &record[p].1 {
                Json::Text(_) => true,
                _ => false,
            }
        },
        None => {
            proof {
                lemma_lookup_absent(record@, "classification"@);
            }
            false
        },
    }
}

/// A migrated activity's metadata records its classification, so the
/// migration leaves the activity alone when it runs again.
pub proof fn law_migration_metadata_records_classification(
    metadata: Option<Json>,
    original_amount: Option<Dec>,
    classification: LegacyActivityCashClassification,
    result: Json,
)
    requires
        migration_metadata_spec(metadata, original_amount, classification, result),
    ensures
        recorded_classification(Some(result)) == Some(classification.as_str_spec()),
{
}

/// The update the migration writes for one activity, if any.  An activity
/// whose metadata already records a classification is left alone, and so is
/// one the classifier finds not applicable.  Otherwise the classified final
/// amount is written when it differs from the stored one, or when the amount
/// needs review; the review flag is kept or raised, and the metadata records
/// the original amount and the classification.  `None`: a `Decimal` overflow
/// in the classification.
pub fn plan_activity_migration(
    activity: &Activity,
    metadata: Option<Json>,
    unit_multiplier: Option<Dec>,
    tolerance: Dec,
) -> (r: Option<Option<ActivityAmountUpdate>>)
    requires
        activity.wf(),
        tolerance.wf(),
        unit_multiplier matches Some(m) ==> m.wf(),
    ensures
        recorded_classification(metadata) is Some ==> r == Some(None::<ActivityAmountUpdate>),
        recorded_classification(metadata) is None ==> match migration_classification(*activity, unit_multiplier, tolerance) {
            None => r is None,
            Some(c) => match r {
                Some(None) => !migration_updates(*activity, c),
                Some(Some(u)) => {
                    &&& migration_updates(*activity, c)
                    &&& u.id@ == activity.id@
                    &&& u.amount == c.final_amount
                    &&& u.needs_review == (activity.needs_review || c.needs_review)
                    &&& u.metadata matches Some(m) && migration_metadata_spec(metadata, activity.amount, c.classification, m)
                    &&& recorded_classification(u.metadata) == Some(c.classification.as_str_spec())
                },
                None => false,
            },
        },
{
    if metadata_records_classification(&metadata) {
        return Some(None);
    }
    let ghost old_metadata = metadata;
    let classified = match unit_multiplier {
        Some(m) => {
            let inputs = ActivityCashInputs {
                activity_type: activity.activity_type,
                is_security_transfer: ActivityEconomicsResolver::is_security_transfer(activity),
                quantity: activity.quantity,
                unit_price: activity.unit_price,
                amount: activity.amount,
                fee: activity.fee,
                tax: activity.tax,
                unit_multiplier: m,
            };
            match ActivityEconomicsResolver::checked_classify_legacy_cash_inputs(inputs, tolerance) {
                Some(c) => c,
                None => return None,
            }
        },
        None => unclassifiable_without_multiplier(activity),
    };
    if classified.classification == LegacyActivityCashClassification::NotApplicable {
        return Some(None);
    }
    let amount_changed = amounts_differ(activity.amount, classified.final_amount);
    if !amount_changed && !classified.needs_review {
        return Some(None);
    }
    let new_metadata = migration_metadata(metadata, activity.amount, classified);
    proof {
        law_migration_metadata_records_classification(old_metadata, activity.amount, classified.classification, new_metadata);
    }
    Some(Some(ActivityAmountUpdate {
        id: activity.id.clone(),
        amount: classified.final_amount,
        metadata: Some(new_metadata),
        needs_review: activity.needs_review || classified.needs_review,
    }))
}

// ---------------------------------------------------------------------------
// Collecting a migration batch.
// ---------------------------------------------------------------------------

/// What the migration reports: how many activities changed and which
/// accounts need rebuilding.
#[derive(Debug)]
pub struct ActivityCashMigrationResult {
    pub changed: usize,
    pub affected_account_ids: Vec<String>,
}

impl ActivityCashMigrationResult {
    /// No change and no account to rebuild.
    pub fn empty() -> (r: ActivityCashMigrationResult)
        ensures
            r.changed == 0,
            r.affected_account_ids@.len() == 0,
    {
        ActivityCashMigrationResult { changed: 0, affected_account_ids: Vec::new() }
    }
}

/// The updates of a migration run and the accounts whose stored cash
/// amounts change, in ascending order.
pub struct MigrationBatch {
    pub updates: Vec<ActivityAmountUpdate>,
    pub affected_account_ids: Vec<String>,
}

impl MigrationBatch {
    pub open spec fn wf(self) -> bool {
        strictly_sorted(self.affected_account_ids@)
    }

    pub fn new() -> (r: MigrationBatch)
        ensures
            r.wf(),
            r.updates@.len() == 0,
            r.affected_account_ids@.len() == 0,
    {
        MigrationBatch { updates: Vec::new(), affected_account_ids: Vec::new() }
    }

    /// Adds the update of an activity; its account needs rebuilding when the
    /// stored amount changes.
    pub fn record(&mut self, activity: &Activity, update: ActivityAmountUpdate)
        requires
            old(self).wf(),
            activity.wf(),
            update.amount matches Some(a) ==> a.wf(),
        ensures
            final(self).wf(),
            final(self).updates@ == old(self).updates@.push(update),
            text_set(final(self).affected_account_ids@) == if amount_differs(activity.amount, update.amount) {
                text_set(old(self).affected_account_ids@).insert(activity.account_id@)
            } else {
                text_set(old(self).affected_account_ids@)
            },
    {
        let changed = amounts_differ(activity.amount, update.amount);
        if changed {
            insert_sorted(&mut self.affected_account_ids, activity.account_id.as_str());
        }
        self.updates.push(update);
    }

    /// The report once `changed` activities were written.
    pub fn into_result(self, changed: usize) -> (r: ActivityCashMigrationResult)
        requires
            self.wf(),
        ensures
            r.changed == changed,
            r.affected_account_ids@ == self.affected_account_ids@,
            strictly_sorted(r.affected_account_ids@),
    {
        ActivityCashMigrationResult { changed, affected_account_ids: self.affected_account_ids }
    }
}

// ---------------------------------------------------------------------------
// Running the migration.
// ---------------------------------------------------------------------------

/// Where a migration run stands.
#[derive(Debug)]
pub enum MigrationRun {
    ReadingState,
    MarkingPending,
    Migrating,
    MarkingComplete(ActivityCashMigrationResult),
    /// Finished: the classified result, or `None` when the migration was
    /// skipped or failed and will be tried on the next start.
    Finished(Option<ActivityCashMigrationResult>),
}

/// The outside work a run asks for next.
#[derive(Clone, Copy, Debug, PartialEq, Eq, Structural)]
pub enum MigrationAction {
    /// Read the recorded state (`MIGRATION_KEY`).
    ReadState,
    /// Record `PENDING`.
    MarkPending,
    /// Classify and write the amounts.
    MigrateAmounts,
    /// Record `COMPLETE`.
    MarkComplete,
    /// Nothing more.
    Stop,
}

/// What the outside work gave back; errors are their messages.
#[derive(Debug)]
pub enum MigrationEvent {
    StateRead(Result<Option<String>, String>),
    PendingMarked(Result<(), String>),
    AmountsMigrated(Result<ActivityCashMigrationResult, String>),
    CompleteMarked(Result<(), String>),
}

pub open spec fn is_complete_state(state: Option<String>) -> bool {
    state matches Some(s) && s@ == COMPLETE@
}

impl MigrationRun {
    /// A run starts by reading the recorded state.
    pub fn start() -> (r: (MigrationRun, MigrationAction))
        ensures
            r.0 is ReadingState,
            r.1 == MigrationAction::ReadState,
    {
        (MigrationRun::ReadingState, MigrationAction::ReadState)
    }

    /// The next state and request after an event.  A recorded `complete`
    /// state skips the run; any failure before the amounts are written ends
    /// it without a result (and without marking it complete); once the
    /// amounts are written the run ends with their result whether or not the
    /// completion marker could be written.  An event the run is not waiting
    /// for ends it without a result.
    pub fn step(self, event: MigrationEvent) -> (r: (MigrationRun, MigrationAction))
        ensures
            match (self, event) {
                (MigrationRun::ReadingState, MigrationEvent::StateRead(Ok(state))) =>
                    if is_complete_state(state) {
                        r.0 matches MigrationRun::Finished(None) && r.1 == MigrationAction::Stop
                    } else {
                        r.0 is MarkingPending && r.1 == MigrationAction::MarkPending
                    },
                (MigrationRun::MarkingPending, MigrationEvent::PendingMarked(Ok(_))) =>
                    r.0 is Migrating && r.1 == MigrationAction::MigrateAmounts,
                (MigrationRun::Migrating, MigrationEvent::AmountsMigrated(Ok(result))) =>
                    r.0 == MigrationRun::MarkingComplete(result) && r.1 == MigrationAction::MarkComplete,
                (MigrationRun::MarkingComplete(result), MigrationEvent::CompleteMarked(_)) =>
                    r.0 == MigrationRun::Finished(Some(result)) && r.1 == MigrationAction::Stop,
                (MigrationRun::Finished(x), _) => r.0 == MigrationRun::Finished(x) && r.1 == MigrationAction::Stop,
                _ => r.0 matches MigrationRun::Finished(None) && r.1 == MigrationAction::Stop,
            },
            r.1 == MigrationAction::MarkComplete ==> (self is Migrating && event matches MigrationEvent::AmountsMigrated(Ok(_))),
    {
        match (self, event) {
            (MigrationRun::ReadingState, MigrationEvent::StateRead(Ok(state))) => {
                let complete = match &state {
                    Some(s) => str_eq(s.as_str(), COMPLETE),
                    None => false,
                };
                if complete {
                    (MigrationRun::Finished(None), MigrationAction::Stop)
                } else {
                    (MigrationRun::MarkingPending, MigrationAction::MarkPending)
                }
            },
            (MigrationRun::MarkingPending, MigrationEvent::PendingMarked(Ok(_))) =>
                (MigrationRun::Migrating, MigrationAction::MigrateAmounts),
            (MigrationRun::Migrating, MigrationEvent::AmountsMigrated(Ok(result))) =>
                (MigrationRun::MarkingComplete(result), MigrationAction::MarkComplete),
            (MigrationRun::MarkingComplete(result), MigrationEvent::CompleteMarked(_)) =>
                (MigrationRun::Finished(Some(result)), MigrationAction::Stop),
            (MigrationRun::Finished(x), _) => (MigrationRun::Finished(x), MigrationAction::Stop),
            _ => (MigrationRun::Finished(None), MigrationAction::Stop),
        }
    }

    /// What a run reports: its result once finished with one, otherwise no
    /// change and no account to rebuild.
    pub fn outcome(self) -> (r: ActivityCashMigrationResult)
        ensures
            match self {
                MigrationRun::Finished(Some(result)) => r == result,
                _ => r.changed == 0 && r.affected_account_ids@.len() == 0,
            },
    {
        match self {
            MigrationRun::Finished(Some(result)) => result,
            _ => ActivityCashMigrationResult::empty(),
        }
    }
}

// ---------------------------------------------------------------------------
// Rebuilding the affected accounts.
// ---------------------------------------------------------------------------

/// The outside work of the account rebuild.
#[derive(Clone, Copy, Debug, PartialEq, Eq, Structural)]
pub enum RebuildAction {
    /// Rebuild the holdings snapshots of the account at this position.
    RebuildHoldings(usize),
    /// Rebuild the valuation history of the account at this position.
    RebuildValuation(usize),
    /// Every account is done.
    Stop,
}

/// What a rebuild step gave back; errors are their messages.
#[derive(Debug)]
pub enum RebuildEvent {
    HoldingsRebuilt(Result<(), String>),
    /// The number of valuation failures, or an error.
    ValuationRebuilt(Result<usize, String>),
}

/// Rebuilds of the accounts one after the other: holdings first, and the
/// valuation only when the holdings rebuild succeeded.  A failure is logged
/// by the caller and moves on to the next account.
pub struct AccountRebuild {
    pub count: usize,
}

impl AccountRebuild {
    pub open spec fn first(count: usize) -> RebuildAction {
        if count == 0 {
            RebuildAction::Stop
        } else {
            RebuildAction::RebuildHoldings(0)
        }
    }

    pub open spec fn after_account(count: usize, index: usize) -> RebuildAction {
        if index + 1 < count {
            RebuildAction::RebuildHoldings((index + 1) as usize)
        } else {
            RebuildAction::Stop
        }
    }

    /// The first request for `count` accounts.
    pub fn start(&self) -> (r: RebuildAction)
        ensures
            r == Self::first(self.count),
    {
        if self.count == 0 {
            RebuildAction::Stop
        } else {
            RebuildAction::RebuildHoldings(0)
        }
    }

    /// The request that follows the result of `action`.
    pub fn next(&self, action: RebuildAction, event: RebuildEvent) -> (r: RebuildAction)
        requires
            action matches RebuildAction::RebuildHoldings(i) ==> i < self.count,
            action matches RebuildAction::RebuildValuation(i) ==> i < self.count,
        ensures
            match (action, event) {
                (RebuildAction::RebuildHoldings(i), RebuildEvent::HoldingsRebuilt(Ok(_))) => r == RebuildAction::RebuildValuation(i),
                (RebuildAction::RebuildHoldings(i), RebuildEvent::HoldingsRebuilt(Err(_))) => r == Self::after_account(self.count, i),
                (RebuildAction::RebuildValuation(i), RebuildEvent::ValuationRebuilt(_)) => r == Self::after_account(self.count, i),
                _ => r == RebuildAction::Stop,
            },
            r matches RebuildAction::RebuildHoldings(j) ==> j < self.count,
            r matches RebuildAction::RebuildValuation(j) ==> j < self.count,
    {
        match (action, event) {
            (RebuildAction::RebuildHoldings(i), RebuildEvent::HoldingsRebuilt(Ok(_))) => RebuildAction::RebuildValuation(i),
            (RebuildAction::RebuildHoldings(i), RebuildEvent::HoldingsRebuilt(Err(_))) => {
                if i + 1 < self.count {
                    RebuildAction::RebuildHoldings(i + 1)
                } else {
                    RebuildAction::Stop
                }
            },
            (RebuildAction::RebuildValuation(i), RebuildEvent::ValuationRebuilt(_)) => {
                if i + 1 < self.count {
                    RebuildAction::RebuildHoldings(i + 1)
                } else {
                    RebuildAction::Stop
                }
            },
            _ => RebuildAction::Stop,
        }
    }
}

} // verus!
