//! Health diagnostics for authoritative activity cash amounts: findings are
//! grouped by kind into one issue each, with the first findings detailed.

use vstd::prelude::*;
use crate::decimal::{Dec, dec_to_string, decimal_text};
use crate::text::{to_ascii_uppercase, ascii_upper_spec};
use std::hash::Hasher;

verus! {

/// At most this many findings of a group are itemized.
pub const MAX_DETAILS: usize = 20;

/// What is wrong with the cash amount of an activity.
#[derive(Clone, Copy, Debug, PartialEq, Eq, Structural, Hash)]
pub enum ActivityCashIssueKind {
    NeedsReview,
    Mismatch,
    Missing,
}

/// One activity whose cash amount needs attention.  `date` is the activity
/// date as ISO text (`YYYY-MM-DD`).
#[derive(Clone, Debug)]
pub struct ActivityCashIssueInfo {
    pub kind: ActivityCashIssueKind,
    pub activity_id: String,
    pub account_name: String,
    pub activity_type: String,
    pub date: String,
    pub currency: String,
    pub trusted_amount: Option<Dec>,
    pub expected_amount: Option<Dec>,
    pub difference: Option<Dec>,
    pub quantity: Option<Dec>,
    pub unit_price: Option<Dec>,
    pub fee: Dec,
    pub tax: Dec,
}

impl ActivityCashIssueInfo {
    pub open spec fn wf(self) -> bool {
        &&& (self.trusted_amount matches Some(x) ==> x.wf())
        &&& (self.expected_amount matches Some(x) ==> x.wf())
        &&& (self.difference matches Some(x) ==> x.wf())
        &&& (self.quantity matches Some(x) ==> x.wf())
        &&& (self.unit_price matches Some(x) ==> x.wf())
        &&& self.fee.wf()
        &&& self.tax.wf()
    }
}

#[derive(Clone, Copy, Debug, PartialEq, Eq, Structural)]
pub enum Severity {
    Warning,
    Error,
}

#[derive(Clone, Copy, Debug, PartialEq, Eq, Structural)]
pub enum HealthCategory {
    DataConsistency,
}

#[derive(Clone, Copy, Debug, PartialEq, Eq, Structural)]
pub enum DiagnosticDomain {
    Ledger,
}

/// An entity an issue lists as affected.
#[derive(Clone, Debug)]
pub struct AffectedItem {
    pub entity_type: String,
    pub id: String,
    pub label: String,
}

/// Where the application sends the user to fix an issue; `query` holds
/// key/value pairs of the route's query object.
#[derive(Clone, Debug)]
pub struct NavigateAction {
    pub route: String,
    pub query: Vec<(String, String)>,
    pub label: String,
}

/// One labelled value shown as evidence of a diagnostic.
#[derive(Clone, Debug)]
pub struct Evidence {
    pub label: String,
    pub value: String,
}

/// The entity a diagnostic is about.
#[derive(Clone, Debug)]
pub struct HealthEntityRef {
    pub entity_type: String,
    pub id: String,
    pub label: String,
    pub route: String,
}

/// A detailed diagnostic of one finding.
#[derive(Clone, Debug)]
pub struct HealthDiagnostic {
    pub id: String,
    pub code: String,
    pub message: String,
    pub domain: DiagnosticDomain,
    pub severity: Severity,
    pub date: String,
    pub entity: HealthEntityRef,
    pub evidence: Vec<Evidence>,
}

/// A health issue as the health center shows it.
#[derive(Clone, Debug)]
pub struct HealthIssue {
    pub id: String,
    pub severity: Severity,
    pub category: HealthCategory,
    pub code: Option<String>,
    pub title: String,
    pub message: String,
    pub affected_count: u32,
    pub affected_items: Option<Vec<AffectedItem>>,
    pub navigate_action: Option<NavigateAction>,
    pub diagnostics: Option<Vec<HealthDiagnostic>>,
    pub details: Option<String>,
    pub data_hash: String,
}

/// The health check of activity cash amounts.
pub struct ActivityCashIntegrityCheck;

// ---------------------------------------------------------------------------
// Texts of a kind.
// ---------------------------------------------------------------------------

pub open spec fn kind_code(kind: ActivityCashIssueKind) -> Seq<char> {
    match kind {
        ActivityCashIssueKind::NeedsReview => "activity_cash_needs_review"@,
        ActivityCashIssueKind::Mismatch => "activity_cash_mismatch"@,
        ActivityCashIssueKind::Missing => "activity_cash_amount_missing"@,
    }
}

pub open spec fn kind_severity(kind: ActivityCashIssueKind) -> Severity {
    match kind {
        ActivityCashIssueKind::Missing => Severity::Error,
        _ => Severity::Warning,
    }
}

pub open spec fn kind_title(kind: ActivityCashIssueKind) -> Seq<char> {
    match kind {
        ActivityCashIssueKind::NeedsReview => "Activity cash amounts need review"@,
        ActivityCashIssueKind::Mismatch => "Cash amounts differ from activity details"@,
        ActivityCashIssueKind::Missing => "Activity totals are missing"@,
    }
}

pub open spec fn kind_message(kind: ActivityCashIssueKind) -> Seq<char> {
    match kind {
        ActivityCashIssueKind::NeedsReview => "Wealthfolio preserved these cash amounts because their historical meaning could not be classified safely."@,
        ActivityCashIssueKind::Mismatch => "Wealthfolio used the trusted cash amounts. Review imported totals when the differences are unexpected."@,
        ActivityCashIssueKind::Missing => "These posted activities have no cash amount and cannot be derived from the available fields."@,
    }
}

pub open spec fn kind_description(kind: ActivityCashIssueKind) -> Seq<char> {
    match kind {
        ActivityCashIssueKind::NeedsReview => "have historical cash amounts that could not be classified safely"@,
        ActivityCashIssueKind::Mismatch => "have trusted totals that differ from their quantity, price, fees, or taxes"@,
        ActivityCashIssueKind::Missing => "have no usable total and cannot be derived from their available fields"@,
    }
}

struct KindTexts {
    code: &'static str,
    severity: Severity,
    title: &'static str,
    message: &'static str,
}

fn kind_texts(kind: ActivityCashIssueKind) -> (r: KindTexts)
    ensures
        r.code@ == kind_code(kind),
        r.severity == kind_severity(kind),
        r.title@ == kind_title(kind),
        r.message@ == kind_message(kind),
{
    match kind {
        ActivityCashIssueKind::NeedsReview => KindTexts {
            code: "activity_cash_needs_review",
            severity: Severity::Warning,
            title: "Activity cash amounts need review",
            message: "Wealthfolio preserved these cash amounts because their historical meaning could not be classified safely.",
        },
        ActivityCashIssueKind::Mismatch => KindTexts {
            code: "activity_cash_mismatch",
            severity: Severity::Warning,
            title: "Cash amounts differ from activity details",
            message: "Wealthfolio used the trusted cash amounts. Review imported totals when the differences are unexpected.",
        },
        ActivityCashIssueKind::Missing => KindTexts {
            code: "activity_cash_amount_missing",
            severity: Severity::Error,
            title: "Activity totals are missing",
            message: "These posted activities have no cash amount and cannot be derived from the available fields.",
        },
    }
}

// ---------------------------------------------------------------------------
// Decimal and number texts.
// ---------------------------------------------------------------------------

/// The text of an optional amount; an em dash when there is none.
pub open spec fn opt_decimal_text(value: Option<Dec>) -> Seq<char> {
    match value {
        Some(v) => decimal_text(v@),
        None => "—"@,
    }
}

fn opt_decimal_string(value: Option<Dec>) -> (r: String)
    requires
        value matches Some(v) ==> v.wf(),
    ensures
        r@ == opt_decimal_text(value),
{
    match value {
        Some(v) => dec_to_string(v),
        None => String::from_str("—"),
    }
}

pub open spec fn digit_char(d: nat) -> char {
    if d == 0 {
        '0'
    } else if d == 1 {
        '1'
    } else if d == 2 {
        '2'
    } else if d == 3 {
        '3'
    } else if d == 4 {
        '4'
    } else if d == 5 {
        '5'
    } else if d == 6 {
        '6'
    } else if d == 7 {
        '7'
    } else if d == 8 {
        '8'
    } else if d == 9 {
        '9'
    } else if d == 10 {
        'a'
    } else if d == 11 {
        'b'
    } else if d == 12 {
        'c'
    } else if d == 13 {
        'd'
    } else if d == 14 {
        'e'
    } else if d == 15 {
        'f'
    } else {
        '?'
    }
}

/// The digits of `n` in base `base` (2 to 16), most significant first, with
/// no leading zeros; `0` for zero.
pub open spec fn digits(n: nat, base: nat) -> Seq<char>
    decreases n,
{
    if n < base || base < 2 {
        seq![digit_char(n)]
    } else {
        proof {
            assert(n / base < n) by (nonlinear_arith)
                requires
                    n >= base,
                    base >= 2,
            ;
        }
        digits(n / base, base).push(digit_char(n % base))
    }
}

/// The text of one digit below 16.
fn digit_text(d: u64) -> (r: &'static str)
    requires
        d < 16,
    ensures
        r@ == seq![digit_char(d as nat)],
{
    match d {
        0 => {
            proof {
                reveal_strlit("0");
            }
            "0"
        },
        1 => {
            proof {
                reveal_strlit("1");
            }
            "1"
        },
        2 => {
            proof {
                reveal_strlit("2");
            }
            "2"
        },
        3 => {
            proof {
                reveal_strlit("3");
            }
            "3"
        },
        4 => {
            proof {
                reveal_strlit("4");
            }
            "4"
        },
        5 => {
            proof {
                reveal_strlit("5");
            }
            "5"
        },
        6 => {
            proof {
                reveal_strlit("6");
            }
            "6"
        },
        7 => {
            proof {
                reveal_strlit("7");
            }
            "7"
        },
        8 => {
            proof {
                reveal_strlit("8");
            }
            "8"
        },
        9 => {
            proof {
                reveal_strlit("9");
            }
            "9"
        },
        10 => {
            proof {
                reveal_strlit("a");
            }
            "a"
        },
        11 => {
            proof {
                reveal_strlit("b");
            }
            "b"
        },
        12 => {
            proof {
                reveal_strlit("c");
            }
            "c"
        },
        13 => {
            proof {
                reveal_strlit("d");
            }
            "d"
        },
        14 => {
            proof {
                reveal_strlit("e");
            }
            "e"
        },
        15 => {
            proof {
                reveal_strlit("f");
            }
            "f"
        },
        _ => {
            proof {
                reveal_strlit("f");
            }
            "f"
        },
    }
}

pub(crate) fn digits_string(n: u64, base: u64) -> (r: String)
    requires
        2 <= base <= 16,
    ensures
        r@ == digits(n as nat, base as nat),
    decreases n,
{
    let d = n % base;
    if n < base {
        let s = String::from_str(digit_text(n));
        s
    } else {
        assert(n / base < n) by (nonlinear_arith)
            requires
                n >= base,
                base >= 2,
        ;
        let mut s = digits_string(n / base, base);
        let ghost before = s@;
        s.append(digit_text(d));
        assert(s@ =~= before.push(digit_char((n % base) as nat)));
        s
    }
}

// ---------------------------------------------------------------------------
// Grouping.
// ---------------------------------------------------------------------------

/// The findings of one kind, in order.
pub open spec fn of_kind(findings: Seq<ActivityCashIssueInfo>, kind: ActivityCashIssueKind) -> Seq<ActivityCashIssueInfo>
    decreases findings.len(),
{
    if findings.len() == 0 {
        Seq::empty()
    } else if findings.last().kind == kind {
        of_kind(findings.drop_last(), kind).push(findings.last())
    } else {
        of_kind(findings.drop_last(), kind)
    }
}

proof fn lemma_of_kind_len(findings: Seq<ActivityCashIssueInfo>, kind: ActivityCashIssueKind)
    ensures
        of_kind(findings, kind).len() <= findings.len(),
        forall|i: int| 0 <= i < of_kind(findings, kind).len() ==> (#[trigger] of_kind(findings, kind)[i]).kind == kind,
    decreases findings.len(),
{
    if findings.len() > 0 {
        lemma_of_kind_len(findings.drop_last(), kind);
    }
}

/// The kinds in the order the issues are reported.
pub open spec fn kind_order() -> Seq<ActivityCashIssueKind> {
    seq![ActivityCashIssueKind::NeedsReview, ActivityCashIssueKind::Mismatch, ActivityCashIssueKind::Missing]
}

pub open spec fn has_findings(findings: Seq<ActivityCashIssueInfo>) -> spec_fn(ActivityCashIssueKind) -> bool {
    |k: ActivityCashIssueKind| of_kind(findings, k).len() > 0
}

/// The first `i` kinds of the report order that have findings.
pub open spec fn reported_prefix(findings: Seq<ActivityCashIssueInfo>, i: int) -> Seq<ActivityCashIssueKind> {
    kind_order().take(i).filter(has_findings(findings))
}

/// The kinds that have findings, in report order.
pub open spec fn reported_kinds(findings: Seq<ActivityCashIssueInfo>) -> Seq<ActivityCashIssueKind> {
    reported_prefix(findings, 3)
}

pub open spec fn group_details(kind: ActivityCashIssueKind, count: nat) -> Seq<char> {
    if count <= MAX_DETAILS {
        digits(count, 10) + " activities "@ + kind_description(kind) + "."@
    } else {
        digits(count, 10) + " activities "@ + kind_description(kind) + ". Showing the first "@ + digits(MAX_DETAILS as nat, 10) + "."@
    }
}

pub open spec fn affected_label(f: ActivityCashIssueInfo) -> Seq<char> {
    f.activity_type@ + " · "@ + f.date@ + " · "@ + f.account_name@
}

pub open spec fn details_text(f: ActivityCashIssueInfo) -> Seq<char> {
    match f.kind {
        ActivityCashIssueKind::NeedsReview =>
            "Stored cash amount: "@ + opt_decimal_text(f.trusted_amount) + " "@ + f.currency@
            + "\nExpected from available activity details: "@ + opt_decimal_text(f.expected_amount) + " "@ + f.currency@
            + "\nQuantity: "@ + opt_decimal_text(f.quantity)
            + "\nUnit price: "@ + opt_decimal_text(f.unit_price)
            + "\nFee: "@ + decimal_text(f.fee@)
            + "\nTax: "@ + decimal_text(f.tax@)
            + "\n\nConfirm the final cash total in the activity editor. Until then, Wealthfolio preserves the prior economic behavior."@,
        ActivityCashIssueKind::Mismatch =>
            "Trusted cash amount: "@ + opt_decimal_text(f.trusted_amount) + " "@ + f.currency@
            + "\nExpected from quantity × price and charges: "@ + opt_decimal_text(f.expected_amount) + " "@ + f.currency@
            + "\nDifference: "@ + opt_decimal_text(f.difference) + " "@ + f.currency@
            + "\nQuantity: "@ + opt_decimal_text(f.quantity)
            + "\nUnit price: "@ + opt_decimal_text(f.unit_price)
            + "\nFee: "@ + decimal_text(f.fee@)
            + "\nTax: "@ + decimal_text(f.tax@)
            + "\n\nWealthfolio used the trusted cash amount."@,
        ActivityCashIssueKind::Missing =>
            "Quantity: "@ + opt_decimal_text(f.quantity)
            + "\nUnit price: "@ + opt_decimal_text(f.unit_price)
            + "\nFee: "@ + decimal_text(f.fee@)
            + "\nTax: "@ + decimal_text(f.tax@)
            + "\n\nEnter a Total to make this activity calculable."@,
    }
}

/// `urlencoding::encode` of a text (a name for the result).
pub uninterp spec fn url_encoded(s: Seq<char>) -> Seq<char>;

pub open spec fn url_safe(c: char) -> bool {
    ('0' <= c <= '9') || ('A' <= c <= 'Z') || ('a' <= c <= 'z') || c == '-' || c == '.' || c == '_' || c == '~'
}

pub open spec fn upper_hex_digit(d: nat) -> char {
    if d < 10 {
        ((d + 48) as u8) as char
    } else {
        ((d + 55) as u8) as char
    }
}

/// Percent-encoding of an ASCII text: unreserved characters stay, every
/// other character becomes `%` and two upper-case hexadecimal digits.
pub open spec fn ascii_url_encode(s: Seq<char>) -> Seq<char>
    decreases s.len(),
{
    if s.len() == 0 {
        Seq::empty()
    } else {
        let c = s.last();
        ascii_url_encode(s.drop_last()) + if url_safe(c) {
            seq![c]
        } else {
            seq!['%', upper_hex_digit((c as nat) / 16), upper_hex_digit((c as nat) % 16)]
        }
    }
}

pub open spec fn is_ascii_text(s: Seq<char>) -> bool {
    forall|i: int| 0 <= i < s.len() ==> (s[i] as u32) < 128
}

/// `urlencoding::encode`: every UTF-8 byte except ASCII letters, digits and
/// `-`, `.`, `_`, `~` is written as `%` and two upper-case hexadecimal
/// digits; on ASCII text that is `ascii_url_encode`.  The result on other
/// text is only named.
#[verifier::external_body]
fn url_encode(s: &str) -> (r: String)
    ensures
        r@ == url_encoded(s@),
        is_ascii_text(s@) ==> r@ == ascii_url_encode(s@),
{
    urlencoding::encode(s).into_owned()
}

pub open spec fn evidence_view(e: Evidence) -> (Seq<char>, Seq<char>) {
    (e.label@, e.value@)
}

/// The evidence of a finding: currency, quantity, unit price, fee and tax,
/// then the trusted amount, expected amount and difference that are present.
pub open spec fn evidence_of(f: ActivityCashIssueInfo) -> Seq<(Seq<char>, Seq<char>)> {
    let base = seq![
        ("Currency"@, f.currency@),
        ("Quantity"@, opt_decimal_text(f.quantity)),
        ("Unit price"@, opt_decimal_text(f.unit_price)),
        ("Fee"@, decimal_text(f.fee@)),
        ("Tax"@, decimal_text(f.tax@)),
    ];
    let with_trusted = match f.trusted_amount {
        Some(a) => base.push(("Trusted cash amount"@, decimal_text(a@))),
        None => base,
    };
    let with_expected = match f.expected_amount {
        Some(a) => with_trusted.push(("Expected amount"@, decimal_text(a@))),
        None => with_trusted,
    };
    match f.difference {
        Some(d) => with_expected.push(("Difference"@, decimal_text(d@))),
        None => with_expected,
    }
}

/// The diagnostic of one finding under the code and severity of its group.
pub open spec fn diagnostic_matches(d: HealthDiagnostic, f: ActivityCashIssueInfo, code: Seq<char>, severity: Severity) -> bool {
    &&& d.id@ == ascii_upper_spec(code)
    &&& d.code@ == code
    &&& d.message@ == details_text(f)
    &&& d.domain == DiagnosticDomain::Ledger
    &&& d.severity == severity
    &&& d.date@ == f.date@
    &&& d.entity.entity_type@ == "activity"@
    &&& d.entity.id@ == f.activity_id@
    &&& d.entity.label@ == f.activity_type@
    &&& d.entity.route@ == "/activities?activity="@ + url_encoded(f.activity_id@)
    &&& d.evidence@.map_values(|e: Evidence| evidence_view(e)) == evidence_of(f)
}

/// The issue reported for the findings of one kind.
pub open spec fn issue_matches(issue: HealthIssue, kind: ActivityCashIssueKind, group: Seq<ActivityCashIssueInfo>) -> bool {
    let shown = if group.len() <= MAX_DETAILS { group.len() } else { MAX_DETAILS as nat };
    &&& issue.id@ == kind_code(kind)
    &&& issue.code matches Some(c) && c@ == kind_code(kind)
    &&& issue.severity == kind_severity(kind)
    &&& issue.category == HealthCategory::DataConsistency
    &&& issue.title@ == kind_title(kind)
    &&& issue.message@ == kind_message(kind)
    &&& issue.affected_count == group.len() as u32
    &&& issue.details matches Some(d) && d@ == group_details(kind, group.len())
    &&& issue.navigate_action matches Some(n) && n.route@ == "/activities"@ && n.label@ == "Review Activities"@
        && n.query@.len() == 1 && n.query@[0].0@ == "healthContext"@ && n.query@[0].1@ == "activity"@
    &&& issue.affected_items matches Some(items) && items@.len() == shown
        && forall|i: int| 0 <= i < shown ==> {
            &&& (#[trigger] items@[i]).entity_type@ == "activity"@
            &&& items@[i].id@ == group[i].activity_id@
            &&& items@[i].label@ == affected_label(group[i])
        }
    &&& issue.diagnostics matches Some(ds) && ds@.len() == shown
        && forall|i: int| 0 <= i < shown ==> diagnostic_matches(#[trigger] ds@[i], group[i], kind_code(kind), kind_severity(kind))
    &&& is_lower_hex(issue.data_hash@)
}

pub open spec fn is_lower_hex(s: Seq<char>) -> bool {
    &&& s.len() >= 1
    &&& forall|i: int| 0 <= i < s.len() ==> ('0' <= #[trigger] s[i] <= '9' || 'a' <= s[i] <= 'f')
}

pub open spec fn findings_wf(findings: Seq<ActivityCashIssueInfo>) -> bool {
    forall|i: int| 0 <= i < findings.len() ==> (#[trigger] findings[i]).wf()
}

// ---------------------------------------------------------------------------
// The data hash.
// ---------------------------------------------------------------------------

/// `Hash::hash` of a `String` into a `DefaultHasher`: feeds the text.
/// Nothing is stated of the hasher's state.
#[verifier::external_body]
fn hash_text(h: &mut std::hash::DefaultHasher, s: &String) {
    std::hash::Hash::hash(s, h)
}

/// `Hash::hash` of an `Option<String>` into a `DefaultHasher`: feeds whether
/// there is a text, then the text.  Nothing is stated of the hasher's state.
#[verifier::external_body]
fn hash_optional_text(h: &mut std::hash::DefaultHasher, s: &Option<String>) {
    std::hash::Hash::hash(s, h)
}

/// `Hash::hash` of an `ActivityCashIssueKind` (its derived impl) into a
/// `DefaultHasher`.  Nothing is stated of the hasher's state.
#[verifier::external_body]
fn hash_kind(h: &mut std::hash::DefaultHasher, kind: &ActivityCashIssueKind) {
    std::hash::Hash::hash(kind, h)
}

proof fn lemma_digits_hex(n: nat)
    ensures
        is_lower_hex(digits(n, 16)),
    decreases n,
{
    if n >= 16 {
        lemma_digits_hex(n / 16);
        let p = digits(n / 16, 16);
        let s = digits(n, 16);
        assert(s == p.push(digit_char(n % 16)));
        assert forall|i: int| 0 <= i < s.len() implies ('0' <= #[trigger] s[i] <= '9' || 'a' <= s[i] <= 'f') by {
            if i < p.len() {
                assert(s[i] == p[i]);
            }
        }
    }
}

fn opt_dec_text(value: Option<Dec>) -> (r: Option<String>)
    requires
        value matches Some(v) ==> v.wf(),
    ensures
        r is Some == value is Some,
{
    match value {
        Some(v) => Some(dec_to_string(v)),
        None => None,
    }
}

/// The hash of one finding: its id, kind and amounts as text.
fn finding_hash(finding: &ActivityCashIssueInfo) -> (r: String)
    requires
        finding.wf(),
    ensures
        is_lower_hex(r@),
{
    let mut h = std::hash::DefaultHasher::new();
    hash_text(&mut h, &finding.activity_id);
    hash_kind(&mut h, &finding.kind);
    hash_optional_text(&mut h, &opt_dec_text(finding.trusted_amount));
    hash_optional_text(&mut h, &opt_dec_text(finding.expected_amount));
    hash_optional_text(&mut h, &opt_dec_text(finding.difference));
    hash_optional_text(&mut h, &opt_dec_text(finding.quantity));
    hash_optional_text(&mut h, &opt_dec_text(finding.unit_price));
    hash_text(&mut h, &dec_to_string(finding.fee));
    hash_text(&mut h, &dec_to_string(finding.tax));
    let v = h.finish();
    proof {
        lemma_digits_hex(v as nat);
    }
    digits_string(v, 16)
}

/// The hash of a group: its kind, then the hash of each finding.
fn findings_hash(kind: ActivityCashIssueKind, group: &Vec<&ActivityCashIssueInfo>) -> (r: String)
    requires
        forall|i: int| 0 <= i < group@.len() ==> (#[trigger] group@[i]).wf(),
    ensures
        is_lower_hex(r@),
{
    let mut h = std::hash::DefaultHasher::new();
    hash_kind(&mut h, &kind);
    let mut i: usize = 0;
    while i < group.len()
        invariant
            i <= group@.len(),
            forall|j: int| 0 <= j < group@.len() ==> (#[trigger] group@[j]).wf(),
        decreases group@.len() - i,
    {
        let fh = finding_hash(group[i]);
        hash_text(&mut h, &fh);
        i = i + 1;
    }
    let v = h.finish();
    proof {
        lemma_digits_hex(v as nat);
    }
    digits_string(v, 16)
}

// ---------------------------------------------------------------------------
// Texts of a finding.
// ---------------------------------------------------------------------------

/// The details text of one finding, by kind.
fn format_details(f: &ActivityCashIssueInfo) -> (r: String)
    requires
        f.wf(),
    ensures
        r@ == details_text(*f),
{
    let quantity = opt_decimal_string(f.quantity);
    let unit_price = opt_decimal_string(f.unit_price);
    let fee = dec_to_string(f.fee);
    let tax = dec_to_string(f.tax);
    let mut s = String::new();
    match f.kind {
        ActivityCashIssueKind::NeedsReview => {
            s.append("Stored cash amount: ");
            s.append(opt_decimal_string(f.trusted_amount).as_str());
            s.append(" ");
            s.append(f.currency.as_str());
            s.append("\nExpected from available activity details: ");
            s.append(opt_decimal_string(f.expected_amount).as_str());
            s.append(" ");
            s.append(f.currency.as_str());
            s.append("\nQuantity: ");
            s.append(quantity.as_str());
            s.append("\nUnit price: ");
            s.append(unit_price.as_str());
            s.append("\nFee: ");
            s.append(fee.as_str());
            s.append("\nTax: ");
            s.append(tax.as_str());
            s.append("\n\nConfirm the final cash total in the activity editor. Until then, Wealthfolio preserves the prior economic behavior.");
        },
        ActivityCashIssueKind::Mismatch => {
            s.append("Trusted cash amount: ");
            s.append(opt_decimal_string(f.trusted_amount).as_str());
            s.append(" ");
            s.append(f.currency.as_str());
            s.append("\nExpected from quantity × price and charges: ");
            s.append(opt_decimal_string(f.expected_amount).as_str());
            s.append(" ");
            s.append(f.currency.as_str());
            s.append("\nDifference: ");
            s.append(opt_decimal_string(f.difference).as_str());
            s.append(" ");
            s.append(f.currency.as_str());
            s.append("\nQuantity: ");
            s.append(quantity.as_str());
            s.append("\nUnit price: ");
            s.append(unit_price.as_str());
            s.append("\nFee: ");
            s.append(fee.as_str());
            s.append("\nTax: ");
            s.append(tax.as_str());
            s.append("\n\nWealthfolio used the trusted cash amount.");
        },
        ActivityCashIssueKind::Missing => {
            s.append("Quantity: ");
            s.append(quantity.as_str());
            s.append("\nUnit price: ");
            s.append(unit_price.as_str());
            s.append("\nFee: ");
            s.append(fee.as_str());
            s.append("\nTax: ");
            s.append(tax.as_str());
            s.append("\n\nEnter a Total to make this activity calculable.");
        },
    }
    s
}

fn evidence(label: &str, value: String) -> (r: Evidence)
    ensures
        r.label@ == label@,
        r.value@ == value@,
{
    Evidence { label: String::from_str(label), value }
}

/// The diagnostic of one finding.
fn diagnostic_for_finding(f: &ActivityCashIssueInfo, code: &str, severity: Severity) -> (r: HealthDiagnostic)
    requires
        f.wf(),
    ensures
        diagnostic_matches(r, *f, code@, severity),
{
    let mut route = String::from_str("/activities?activity=");
    route.append(url_encode(f.activity_id.as_str()).as_str());
    let mut ev: Vec<Evidence> = Vec::new();
    ev.push(evidence("Currency", f.currency.clone()));
    ev.push(evidence("Quantity", opt_decimal_string(f.quantity)));
    ev.push(evidence("Unit price", opt_decimal_string(f.unit_price)));
    ev.push(evidence("Fee", dec_to_string(f.fee)));
    ev.push(evidence("Tax", dec_to_string(f.tax)));
    let ghost base = ev@.map_values(|e: Evidence| evidence_view(e));
    match f.trusted_amount {
        Some(a) => ev.push(evidence("Trusted cash amount", dec_to_string(a))),
        None => {},
    }
    let ghost with_trusted = ev@.map_values(|e: Evidence| evidence_view(e));
    match f.expected_amount {
        Some(a) => ev.push(evidence("Expected amount", dec_to_string(a))),
        None => {},
    }
    let ghost with_expected = ev@.map_values(|e: Evidence| evidence_view(e));
    match f.difference {
        Some(d) => ev.push(evidence("Difference", dec_to_string(d))),
        None => {},
    }
    proof {
        let b = seq![
            ("Currency"@, f.currency@),
            ("Quantity"@, opt_decimal_text(f.quantity)),
            ("Unit price"@, opt_decimal_text(f.unit_price)),
            ("Fee"@, decimal_text(f.fee@)),
            ("Tax"@, decimal_text(f.tax@)),
        ];
        assert(base =~= b);
        assert(ev@.map_values(|e: Evidence| evidence_view(e)) =~= evidence_of(*f));
    }
    HealthDiagnostic {
        id: to_ascii_uppercase(code),
        code: String::from_str(code),
        message: format_details(f),
        domain: DiagnosticDomain::Ledger,
        severity,
        date: f.date.clone(),
        entity: HealthEntityRef {
            entity_type: String::from_str("activity"),
            id: f.activity_id.clone(),
            label: f.activity_type.clone(),
            route,
        },
        evidence: ev,
    }
}

/// The summary of a group: its size and description, and how many are shown.
fn format_group_details(kind: ActivityCashIssueKind, count: usize) -> (r: String)
    ensures
        r@ == group_details(kind, count as nat),
{
    let description = match kind {
        ActivityCashIssueKind::NeedsReview => "have historical cash amounts that could not be classified safely",
        ActivityCashIssueKind::Mismatch => "have trusted totals that differ from their quantity, price, fees, or taxes",
        ActivityCashIssueKind::Missing => "have no usable total and cannot be derived from their available fields",
    };
    let shown = if count < MAX_DETAILS { count } else { MAX_DETAILS };
    let mut s = digits_string(count as u64, 10);
    s.append(" activities ");
    s.append(description);
    if shown == count {
        s.append(".");
    } else {
        s.append(". Showing the first ");
        s.append(digits_string(shown as u64, 10).as_str());
        s.append(".");
    }
    s
}

/// The issue of one group of findings.
fn issue_for_findings(kind: ActivityCashIssueKind, group: &Vec<&ActivityCashIssueInfo>) -> (r: HealthIssue)
    requires
        forall|i: int| 0 <= i < group@.len() ==> (#[trigger] group@[i]).wf(),
    ensures
        issue_matches(r, kind, group@.map_values(|f: &ActivityCashIssueInfo| *f)),
{
    let texts = kind_texts(kind);
    let ghost g = group@.map_values(|f: &ActivityCashIssueInfo| *f);
    let shown = if group.len() < MAX_DETAILS { group.len() } else { MAX_DETAILS };
    let mut items: Vec<AffectedItem> = Vec::new();
    let mut diagnostics: Vec<HealthDiagnostic> = Vec::new();
    let mut i: usize = 0;
    while i < shown
        invariant
            i <= shown,
            shown <= group@.len(),
            shown == (if group@.len() <= MAX_DETAILS { group@.len() } else { MAX_DETAILS as nat }),
            g == group@.map_values(|f: &ActivityCashIssueInfo| *f),
            texts.code@ == kind_code(kind),
            texts.severity == kind_severity(kind),
            forall|j: int| 0 <= j < group@.len() ==> (#[trigger] group@[j]).wf(),
            items@.len() == i,
            diagnostics@.len() == i,
            forall|j: int| 0 <= j < i ==> {
                &&& (#[trigger] items@[j]).entity_type@ == "activity"@
                &&& items@[j].id@ == g[j].activity_id@
                &&& items@[j].label@ == affected_label(g[j])
            },
            forall|j: int| 0 <= j < i ==> diagnostic_matches(#[trigger] diagnostics@[j], g[j], kind_code(kind), kind_severity(kind)),
        decreases shown - i,
    {
        let f = group[i];
        let mut label = f.activity_type.clone();
        label.append(" · ");
        label.append(f.date.as_str());
        label.append(" · ");
        label.append(f.account_name.as_str());
        let ghost items0 = items@;
        let ghost diagnostics0 = diagnostics@;
        items.push(AffectedItem { entity_type: String::from_str("activity"), id: f.activity_id.clone(), label });
        diagnostics.push(diagnostic_for_finding(f, texts.code, texts.severity));
        proof {
            assert forall|j: int| 0 <= j < i + 1 implies {
                &&& (#[trigger] items@[j]).entity_type@ == "activity"@
                &&& items@[j].id@ == g[j].activity_id@
                &&& items@[j].label@ == affected_label(g[j])
            } by {
                if j < i {
                    assert(items@[j] == items0[j]);
                }
            }
            assert forall|j: int| 0 <= j < i + 1 implies diagnostic_matches(#[trigger] diagnostics@[j], g[j], kind_code(kind), kind_severity(kind)) by {
                if j < i {
                    assert(diagnostics@[j] == diagnostics0[j]);
                }
            }
        }
        i = i + 1;
    }
    let mut query: Vec<(String, String)> = Vec::new();
    query.push((String::from_str("healthContext"), String::from_str("activity")));
    HealthIssue {
        id: String::from_str(texts.code),
        severity: texts.severity,
        category: HealthCategory::DataConsistency,
        code: Some(String::from_str(texts.code)),
        title: String::from_str(texts.title),
        message: String::from_str(texts.message),
        affected_count: group.len() as u32,
        affected_items: Some(items),
        navigate_action: Some(NavigateAction {
            route: String::from_str("/activities"),
            query,
            label: String::from_str("Review Activities"),
        }),
        diagnostics: Some(diagnostics),
        details: Some(format_group_details(kind, group.len())),
        data_hash: findings_hash(kind, group),
    }
}

/// The findings of one kind, in order.
fn group_of<'a>(findings: &'a [ActivityCashIssueInfo], kind: ActivityCashIssueKind) -> (r: Vec<&'a ActivityCashIssueInfo>)
    ensures
        r@.map_values(|f: &ActivityCashIssueInfo| *f) == of_kind(findings@, kind),
{
    let mut out: Vec<&'a ActivityCashIssueInfo> = Vec::new();
    let mut i: usize = 0;
    assert(findings@.take(0) =~= Seq::<ActivityCashIssueInfo>::empty());
    assert(out@.map_values(|f: &ActivityCashIssueInfo| *f) =~= Seq::<ActivityCashIssueInfo>::empty());
    while i < findings.len()
        invariant
            i <= findings@.len(),
            out@.map_values(|f: &ActivityCashIssueInfo| *f) == of_kind(findings@.take(i as int), kind),
        decreases findings@.len() - i,
    {
        let ghost before = out@;
        proof {
            assert(findings@.take(i + 1).drop_last() =~= findings@.take(i as int));
            assert(findings@.take(i + 1).last() == findings@[i as int]);
        }
        if findings[i].kind == kind {
            out.push(&findings[i]);
            proof {
                assert(out@.map_values(|f: &ActivityCashIssueInfo| *f) =~= before.map_values(|f: &ActivityCashIssueInfo| *f).push(findings@[i as int]));
            }
        }
        i = i + 1;
    }
    assert(findings@.take(i as int) =~= findings@);
    out
}

impl ActivityCashIntegrityCheck {
    pub fn new() -> (r: ActivityCashIntegrityCheck) {
        ActivityCashIntegrityCheck
    }

    /// The id of the health check.
    pub fn id(&self) -> (r: &'static str)
        ensures
            r@ == "activity_cash_integrity"@,
    {
        "activity_cash_integrity"
    }

    /// The category of the issues the check reports.
    pub fn category(&self) -> (r: HealthCategory)
        ensures
            r == HealthCategory::DataConsistency,
    {
        HealthCategory::DataConsistency
    }

    /// One issue per kind that has findings, in the order needs-review,
    /// mismatch, missing.  Each issue counts all findings of its kind and
    /// details the first `MAX_DETAILS` of them in order.
    pub fn analyze(&self, findings: &[ActivityCashIssueInfo]) -> (r: Vec<HealthIssue>)
        requires
            findings_wf(findings@),
        ensures
            r@.len() == reported_kinds(findings@).len(),
            forall|i: int| 0 <= i < r@.len() ==> issue_matches(#[trigger] r@[i], reported_kinds(findings@)[i], of_kind(findings@, reported_kinds(findings@)[i])),
    {
        let kinds = [ActivityCashIssueKind::NeedsReview, ActivityCashIssueKind::Mismatch, ActivityCashIssueKind::Missing];
        let mut out: Vec<HealthIssue> = Vec::new();
        let ghost done: Seq<ActivityCashIssueKind> = Seq::empty();
        let mut i: usize = 0;
        while i < 3
            invariant
                i <= 3,
                kinds@ == kind_order(),
                findings_wf(findings@),
                out@.len() == reported_prefix(findings@, i as int).len(),
                forall|j: int| 0 <= j < out@.len() ==> issue_matches(#[trigger] out@[j], reported_prefix(findings@, i as int)[j], of_kind(findings@, reported_prefix(findings@, i as int)[j])),
            decreases 3 - i,
        {
            let kind = kinds[i];
            let group = group_of(findings, kind);
            let ghost prev = reported_prefix(findings@, i as int);
            proof {
                assert(kind_order().take(i + 1).drop_last() =~= kind_order().take(i as int));
                assert(kind_order().take(i + 1).last() == kind);
                lemma_of_kind_len(findings@, kind);
                assert(group@.len() == of_kind(findings@, kind).len());
                assert(has_findings(findings@)(kind) == (of_kind(findings@, kind).len() > 0));
                let t = kind_order().take(i + 1);
                let hf = has_findings(findings@);
                assert(t.len() > 0);
                reveal(Seq::filter);
                assert(t.filter(hf) == (if hf(t.last()) { t.drop_last().filter(hf).push(t.last()) } else { t.drop_last().filter(hf) }));
                assert(t.drop_last().filter(hf) == prev);
                assert(reported_prefix(findings@, i + 1) == t.filter(hf));
                assert(reported_prefix(findings@, i + 1) == (if has_findings(findings@)(kind) { prev.push(kind) } else { prev }));
            }
            if group.len() > 0 {
                proof {
                    assert forall|j: int| 0 <= j < group@.len() implies (#[trigger] group@[j]).wf() by {
                        assert(group@.map_values(|f: &ActivityCashIssueInfo| *f)[j] == *group@[j]);
                        lemma_of_kind_member(findings@, kind, j);
                    }
                }
                let issue = issue_for_findings(kind, &group);
                let ghost out0 = out@;
                out.push(issue);
                proof {
                    assert(reported_prefix(findings@, i + 1) == prev.push(kind));
                    assert forall|j: int| 0 <= j < out@.len() implies issue_matches(#[trigger] out@[j], reported_prefix(findings@, i + 1)[j], of_kind(findings@, reported_prefix(findings@, i + 1)[j])) by {
                        if j < out0.len() {
                            assert(out@[j] == out0[j]);
                        }
                    }
                }
            } else {
                proof {
                    assert(reported_prefix(findings@, i + 1) == prev);
                }
            }
            i = i + 1;
        }
        out
    }
}

/// Every finding of a group is one of the findings, with that kind.
proof fn lemma_of_kind_member(findings: Seq<ActivityCashIssueInfo>, kind: ActivityCashIssueKind, j: int)
    requires
        0 <= j < of_kind(findings, kind).len(),
    ensures
        exists|i: int| 0 <= i < findings.len() && findings[i] == of_kind(findings, kind)[j],
    decreases findings.len(),
{
    if findings.len() > 0 {
        let prefix = of_kind(findings.drop_last(), kind);
        if j < prefix.len() {
            lemma_of_kind_member(findings.drop_last(), kind, j);
            let i = choose|i: int| 0 <= i < findings.drop_last().len() && findings.drop_last()[i] == prefix[j];
            assert(findings[i] == findings.drop_last()[i]);
        } else {
            assert(findings[findings.len() - 1] == findings.last());
        }
    }
}

} // verus!
