//! Attribution of an FX conversion to recorded exchange rates: a
//! breadth-first search over the graph whose nodes are currency codes and
//! whose edges are positive rates, usable in both directions.

use vstd::prelude::*;
use crate::decimal::{Dec, dec_mul, dec_div, dec_lt, spec_mul, spec_div};
use crate::text::{str_eq, str_lt, seq_lt, to_ascii_uppercase, ascii_upper_spec, eq_ignore_ascii_case};
use crate::allocation::model::WorksheetPricingSource;
use crate::allocation::worksheet_service::{AllocationWorksheetService, CoreError};

verus! {

/// A currency as the worksheet converts it: the code as written, its
/// normalized (major unit) code and the multiplier that takes a major-unit
/// amount to this code's unit.
pub struct FxCurrency {
    pub code: String,
    pub normalized: String,
    pub denormalization_multiplier: Dec,
}

/// A recorded exchange rate: one unit of `from_currency` is worth `rate`
/// units of `to_currency`.  The normalized codes and the timestamp fields are
/// those of the recorded rate.
#[derive(Clone, Debug)]
pub struct ExchangeRate {
    pub id: String,
    pub from_currency: String,
    pub to_currency: String,
    pub normalized_from: String,
    pub normalized_to: String,
    pub rate: Dec,
    pub source: String,
    /// Seconds since the Unix epoch.
    pub timestamp_secs: i64,
    /// Nanoseconds within the second.
    pub timestamp_nanos: u32,
    /// The timestamp as RFC 3339 text.
    pub timestamp_text: String,
    /// The UTC calendar day of the timestamp, counted from the common era.
    pub timestamp_day: i32,
}

impl ExchangeRate {
    /// Two records hold the same values.
    pub open spec fn same_as(self, other: ExchangeRate) -> bool {
        &&& self.id@ == other.id@
        &&& self.from_currency@ == other.from_currency@
        &&& self.to_currency@ == other.to_currency@
        &&& self.normalized_from@ == other.normalized_from@
        &&& self.normalized_to@ == other.normalized_to@
        &&& self.rate == other.rate
        &&& self.source@ == other.source@
        &&& self.timestamp_secs == other.timestamp_secs
        &&& self.timestamp_nanos == other.timestamp_nanos
        &&& self.timestamp_text@ == other.timestamp_text@
        &&& self.timestamp_day == other.timestamp_day
    }

    /// A copy of the record.
    pub fn duplicate(&self) -> (r: ExchangeRate)
        ensures
            r.same_as(*self),
    {
        ExchangeRate {
            id: self.id.clone(),
            from_currency: self.from_currency.clone(),
            to_currency: self.to_currency.clone(),
            normalized_from: self.normalized_from.clone(),
            normalized_to: self.normalized_to.clone(),
            rate: self.rate,
            source: self.source.clone(),
            timestamp_secs: self.timestamp_secs,
            timestamp_nanos: self.timestamp_nanos,
            timestamp_text: self.timestamp_text.clone(),
            timestamp_day: self.timestamp_day,
        }
    }
}

pub open spec fn rates_wf(rates: Seq<ExchangeRate>) -> bool {
    forall|k: int| 0 <= k < rates.len() ==> (#[trigger] rates[k]).rate.wf()
}

/// The node a rate leaves from: its normalized source code in upper case.
pub open spec fn fx_from(r: ExchangeRate) -> Seq<char> {
    ascii_upper_spec(r.normalized_from@)
}

/// The node a rate goes to.
pub open spec fn fx_to(r: ExchangeRate) -> Seq<char> {
    ascii_upper_spec(r.normalized_to@)
}

/// A rate is an edge of the graph when it is positive and joins two
/// different nodes.
pub open spec fn fx_usable(r: ExchangeRate) -> bool {
    r.rate.units() > 0 && fx_from(r) != fx_to(r)
}

/// The node reached from `c` over rate `k`, in either direction.
pub open spec fn fx_step(rates: Seq<ExchangeRate>, c: Seq<char>, k: usize) -> Option<Seq<char>> {
    if k < rates.len() && fx_usable(rates[k as int]) {
        if fx_from(rates[k as int]) == c {
            Some(fx_to(rates[k as int]))
        } else if fx_to(rates[k as int]) == c {
            Some(fx_from(rates[k as int]))
        } else {
            None
        }
    } else {
        None
    }
}

/// The node reached from `start` over a sequence of rates, if each rate is
/// an edge at the node where it is taken.
pub open spec fn fx_walk(rates: Seq<ExchangeRate>, start: Seq<char>, path: Seq<usize>) -> Option<Seq<char>>
    decreases path.len(),
{
    if path.len() == 0 {
        Some(start)
    } else {
        match fx_walk(rates, start, path.drop_last()) {
            Some(c) => fx_step(rates, c, path.last()),
            None => None,
        }
    }
}

/// Some sequence of rates leads from `a` to `b`.
pub open spec fn fx_reachable(rates: Seq<ExchangeRate>, a: Seq<char>, b: Seq<char>) -> bool {
    exists|path: Seq<usize>| fx_walk(rates, a, path) == Some(b)
}

/// The factor of one step from `c`: the rate forwards, its inverse backwards.
pub open spec fn fx_edge_rate(r: ExchangeRate, c: Seq<char>) -> Option<Dec> {
    if fx_from(r) == c {
        Some(r.rate)
    } else {
        spec_div(Dec::one_spec(), r.rate)
    }
}

/// The product of the step factors along a walk, multiplied in order.
pub open spec fn fx_path_rate(rates: Seq<ExchangeRate>, start: Seq<char>, path: Seq<usize>) -> Option<Dec>
    decreases path.len(),
{
    if path.len() == 0 {
        Some(Dec::one_spec())
    } else {
        match (fx_path_rate(rates, start, path.drop_last()), fx_walk(rates, start, path.drop_last())) {
            (Some(acc), Some(c)) => match fx_edge_rate(rates[path.last() as int], c) {
                Some(e) => spec_mul(acc, e),
                None => None,
            },
            _ => None,
        }
    }
}

/// The ids of the rates of a path joined by `>`.
pub open spec fn fx_path_ids(rates: Seq<ExchangeRate>, path: Seq<usize>) -> Seq<char>
    decreases path.len(),
{
    if path.len() == 0 {
        Seq::empty()
    } else if path.len() == 1 {
        rates[path[0] as int].id@
    } else {
        fx_path_ids(rates, path.drop_last()) + ">"@ + rates[path.last() as int].id@
    }
}

pub open spec fn ts_lt(a: ExchangeRate, b: ExchangeRate) -> bool {
    a.timestamp_secs < b.timestamp_secs || (a.timestamp_secs == b.timestamp_secs && a.timestamp_nanos < b.timestamp_nanos)
}

/// The position in a path of its oldest rate, the first one among equals.
pub open spec fn oldest_position(rates: Seq<ExchangeRate>, path: Seq<usize>) -> int
    decreases path.len(),
{
    if path.len() <= 1 {
        0
    } else {
        let j = oldest_position(rates, path.drop_last());
        if ts_lt(rates[path.last() as int], rates[path[j] as int]) {
            path.len() - 1
        } else {
            j
        }
    }
}

/// Some rate of the path is from a day before `today`.
pub open spec fn fx_path_stale(rates: Seq<ExchangeRate>, path: Seq<usize>, today: i32) -> bool {
    exists|i: int| 0 <= i < path.len() && rates[path[i] as int].timestamp_day < today
}

/// The factor that takes an amount in `from`'s code to its normalized code.
pub open spec fn source_multiplier(from: FxCurrency) -> Option<Dec> {
    if ascii_upper_spec(ascii_upper_spec(from.normalized@)) == ascii_upper_spec(from.code@) {
        Some(Dec::one_spec())
    } else {
        spec_div(Dec::one_spec(), from.denormalization_multiplier)
    }
}

/// `source × path rate × target`, multiplied in that order.
pub open spec fn fx_applied(source: Dec, path_rate: Dec, target: Dec) -> Option<Dec> {
    match spec_mul(source, path_rate) {
        Some(x) => spec_mul(x, target),
        None => None,
    }
}

pub open spec fn no_fx_rate_message(from: FxCurrency, to: FxCurrency) -> Seq<char> {
    "No attributable FX rate is available for "@ + from.code@ + "/"@ + to.code@
}

/// The result of a conversion attributed to the rates of `path`.
pub open spec fn fx_attributed(
    rates: Seq<ExchangeRate>,
    from: FxCurrency,
    to: FxCurrency,
    today: i32,
    path: Seq<usize>,
    result: (Dec, Option<WorksheetPricingSource>, Vec<ExchangeRate>),
) -> bool {
    let a = ascii_upper_spec(from.normalized@);
    let b = ascii_upper_spec(to.normalized@);
    &&& path.len() >= 1
    &&& fx_walk(rates, a, path) == Some(b)
    &&& fx_path_rate(rates, a, path) matches Some(pr)
    &&& source_multiplier(from) matches Some(sm)
    &&& fx_applied(sm, pr, to.denormalization_multiplier) == Some(result.0)
    &&& result.2@.len() == path.len()
    &&& forall|i: int| 0 <= i < path.len() ==> (#[trigger] result.2@[i]).same_as(rates[path[i] as int])
    &&& result.1 matches Some(s)
    &&& s.id@ == fx_path_ids(rates, path)
    &&& s.source_type@ == (if path.len() == 1 { "fx_rate"@ } else { "fx_path"@ })
    &&& s.value == result.0
    &&& s.from_currency@ == from.code@
    &&& s.to_currency@ == to.code@
    &&& s.timestamp@ == rates[path[oldest_position(rates, path)] as int].timestamp_text@
    &&& s.is_stale == fx_path_stale(rates, path, today)
}

/// Each rate of `used` holds the values of some recorded rate.
pub open spec fn rates_recorded(used: Seq<ExchangeRate>, rates: Seq<ExchangeRate>) -> bool {
    forall|i: int| 0 <= i < used.len() ==> exists|j: int| 0 <= j < rates.len() && (#[trigger] used[i]).same_as(rates[j])
}

/// A conversion from `from` to `to` as the recorded rates give it: between
/// equal normalized codes no rate is used and the value is the product of
/// the two currencies' multipliers; otherwise it is attributed to a path.
pub open spec fn fx_conversion(
    rates: Seq<ExchangeRate>,
    from: FxCurrency,
    to: FxCurrency,
    today: i32,
    v: (Dec, Option<WorksheetPricingSource>, Vec<ExchangeRate>),
) -> bool {
    if ascii_upper_spec(from.normalized@) == ascii_upper_spec(to.normalized@) {
        &&& v.1 is None
        &&& v.2@.len() == 0
        &&& source_multiplier(from) matches Some(sm)
        &&& spec_mul(sm, to.denormalization_multiplier) == Some(v.0)
    } else {
        exists|path: Seq<usize>| fx_attributed(rates, from, to, today, path, v)
            && fx_first_path(rates, ascii_upper_spec(from.normalized@), ascii_upper_spec(to.normalized@), path)
    }
}

/// The FX path is deterministic: two conversions between the same
/// currencies over the same rates on the same day agree on the applied
/// rate, on the pricing source and on the rates they record.
pub proof fn law_fx_conversion_deterministic(
    rates: Seq<ExchangeRate>,
    from: FxCurrency,
    to: FxCurrency,
    today: i32,
    v1: (Dec, Option<WorksheetPricingSource>, Vec<ExchangeRate>),
    v2: (Dec, Option<WorksheetPricingSource>, Vec<ExchangeRate>),
)
    requires
        fx_conversion(rates, from, to, today, v1),
        fx_conversion(rates, from, to, today, v2),
    ensures
        v1.0 == v2.0,
        v1.1 is Some <==> v2.1 is Some,
        v1.1 matches Some(s1) ==> (v2.1 matches Some(s2) && s1.id@ == s2.id@ && s1.source_type@ == s2.source_type@
            && s1.value == s2.value && s1.timestamp@ == s2.timestamp@ && s1.is_stale == s2.is_stale),
        v1.2@.len() == v2.2@.len(),
        forall|i: int| 0 <= i < v1.2@.len() ==> (#[trigger] v1.2@[i]).same_as(v2.2@[i]),
{
    let a = ascii_upper_spec(from.normalized@);
    let b = ascii_upper_spec(to.normalized@);
    if a != b {
        let p1 = choose|path: Seq<usize>| fx_attributed(rates, from, to, today, path, v1) && fx_first_path(rates, a, b, path);
        let p2 = choose|path: Seq<usize>| fx_attributed(rates, from, to, today, path, v2) && fx_first_path(rates, a, b, path);
        law_fx_first_path_unique(rates, a, b, p1, p2);
        assert forall|i: int| 0 <= i < v1.2@.len() implies (#[trigger] v1.2@[i]).same_as(v2.2@[i]) by {
            assert(v1.2@[i].same_as(rates[p1[i] as int]));
            assert(v2.2@[i].same_as(rates[p1[i] as int]));
        }
    }
}

/// A `Decimal` operation that a conversion from `from` to `to` may need
/// overflows: the source multiplier, the inverse of a usable rate, the rate
/// product of a walk from the source code, or the applied rate of a walk to
/// the target code.
pub open spec fn fx_overflow_possible(rates: Seq<ExchangeRate>, from: FxCurrency, to: FxCurrency) -> bool {
    let a = ascii_upper_spec(from.normalized@);
    let b = ascii_upper_spec(to.normalized@);
    ||| source_multiplier(from) is None
    ||| exists|k: int| 0 <= k < rates.len() && fx_usable(#[trigger] rates[k]) && spec_div(Dec::one_spec(), rates[k].rate) is None
    ||| exists|p: Seq<usize>| fx_walk(rates, a, p) is Some && #[trigger] fx_path_rate(rates, a, p) is None
    ||| exists|p: Seq<usize>| fx_walk(rates, a, p) == Some(b) && #[trigger] applied_overflows(rates, from, to, p)
}

/// The applied rate of the walk `p` overflows.
pub open spec fn applied_overflows(rates: Seq<ExchangeRate>, from: FxCurrency, to: FxCurrency, p: Seq<usize>) -> bool {
    match (fx_path_rate(rates, ascii_upper_spec(from.normalized@), p), source_multiplier(from)) {
        (Some(pr), Some(sm)) => fx_applied(sm, pr, to.denormalization_multiplier) is None,
        _ => false,
    }
}

/// What resolving the conversion from `from` to `to` over `rates` on the day
/// `today` gives.  Equal normalized codes: the product of the two
/// multipliers and no rate.  Otherwise: an error exactly when no walk
/// joins the codes, else the conversion attributed to the first walk;
/// `None` only where a `Decimal` operation overflows.
pub open spec fn fx_resolution(
    rates: Seq<ExchangeRate>,
    from: FxCurrency,
    to: FxCurrency,
    today: i32,
    r: Option<Result<(Dec, Option<WorksheetPricingSource>, Vec<ExchangeRate>), CoreError>>,
) -> bool {
    let a = ascii_upper_spec(from.normalized@);
    let b = ascii_upper_spec(to.normalized@);
    &&& a == b ==> match (source_multiplier(from), r) {
        (Some(sm), Some(x)) => x matches Ok(v) && v.1 is None && v.2@.len() == 0 && spec_mul(sm, to.denormalization_multiplier) == Some(v.0),
        (Some(sm), None) => spec_mul(sm, to.denormalization_multiplier) is None,
        (None, x) => x is None,
    }
    &&& a != b && r is Some ==> (r.unwrap() is Err <==> !fx_reachable(rates, a, b))
    &&& a != b && r is None ==> fx_overflow_possible(rates, from, to)
    &&& r matches Some(Err(e)) ==> e is InvalidInput && e.message() == no_fx_rate_message(from, to)
    &&& r matches Some(Ok(v)) ==> v.0.wf()
    &&& r matches Some(Ok(v)) ==> forall|i: int| 0 <= i < v.2@.len() ==> (#[trigger] v.2@[i]).rate.wf()
    &&& (a != b && r is Some && r.unwrap() is Ok) ==> exists|path: Seq<usize>| fx_attributed(rates, from, to, today, path, r.unwrap()->Ok_0)
        && fx_shortest(rates, a, b, path) && fx_first_path(rates, a, b, path)
    &&& r matches Some(Ok(v)) ==> fx_conversion(rates, from, to, today, v)
    &&& r matches Some(Ok(v)) ==> rates_recorded(v.2@, rates)
}

// ---------------------------------------------------------------------------
// Counting marks, for the termination of the search.
// ---------------------------------------------------------------------------

pub open spec fn count_true(s: Seq<bool>) -> nat
    decreases s.len(),
{
    if s.len() == 0 {
        0
    } else {
        count_true(s.drop_last()) + (if s.last() { 1nat } else { 0nat })
    }
}

proof fn lemma_count_true_le(s: Seq<bool>)
    ensures
        count_true(s) <= s.len(),
    decreases s.len(),
{
    if s.len() > 0 {
        lemma_count_true_le(s.drop_last());
    }
}

proof fn lemma_count_true_set(s: Seq<bool>, i: int)
    requires
        0 <= i < s.len(),
        !s[i],
    ensures
        count_true(s.update(i, true)) == count_true(s) + 1,
    decreases s.len(),
{
    let t = s.update(i, true);
    if i == s.len() - 1 {
        assert(t.drop_last() =~= s.drop_last());
    } else {
        assert(t.drop_last() =~= s.drop_last().update(i, true));
        lemma_count_true_set(s.drop_last(), i);
    }
}

proof fn lemma_count_true_none(n: nat)
    ensures
        count_true(Seq::new(n, |i: int| false)) == 0,
    decreases n,
{
    if n > 0 {
        assert(Seq::new(n, |i: int| false).drop_last() =~= Seq::new((n - 1) as nat, |i: int| false));
        lemma_count_true_none((n - 1) as nat);
    }
}

// ---------------------------------------------------------------------------
// Helpers of the search.
// ---------------------------------------------------------------------------

/// The first `k` entries of the per-rate tables: upper-case nodes, whether
/// the rate is an edge, and the inverse of each edge's rate.
pub open spec fn rate_nodes_ok(
    rates: Seq<ExchangeRate>,
    froms: Seq<String>,
    tos: Seq<String>,
    usable: Seq<bool>,
    inverses: Seq<Dec>,
    k: int,
) -> bool {
    &&& forall|j: int| 0 <= j < k ==> (#[trigger] froms[j])@ == fx_from(rates[j])
    &&& forall|j: int| 0 <= j < k ==> (#[trigger] tos[j])@ == fx_to(rates[j])
    &&& forall|j: int| 0 <= j < k ==> (#[trigger] usable[j]) == fx_usable(rates[j])
    &&& forall|j: int| 0 <= j < k && #[trigger] usable[j] ==> spec_div(Dec::one_spec(), rates[j].rate) == Some(inverses[j])
    &&& forall|j: int| 0 <= j < k ==> (#[trigger] inverses[j]).wf()
}

pub open spec fn views(v: Seq<String>) -> Seq<Seq<char>> {
    v.map_values(|s: String| s@)
}

fn contains_text(v: &Vec<String>, c: &str) -> (r: bool)
    ensures
        r == views(v@).contains(c@),
{
    let mut i: usize = 0;
    while i < v.len()
        invariant
            i <= v@.len(),
            forall|j: int| 0 <= j < i ==> v@[j]@ != c@,
        decreases v@.len() - i,
    {
        if str_eq(v[i].as_str(), c) {
            assert(views(v@)[i as int] == c@);
            return true;
        }
        i = i + 1;
    }
    proof {
        if views(v@).contains(c@) {
            let j = choose|j: int| 0 <= j < views(v@).len() && views(v@)[j] == c@;
            assert(v@[j]@ == c@);
        }
    }
    false
}

/// The normalized codes of every rate in upper case, and the inverse of
/// every usable rate (`None` where an inverse overflows).
fn rate_nodes(rates: &[ExchangeRate]) -> (r: Option<(Vec<String>, Vec<String>, Vec<bool>, Vec<Dec>)>)
    requires
        rates_wf(rates@),
    ensures
        r matches Some(x) ==> {
            &&& x.0@.len() == rates@.len()
            &&& x.1@.len() == rates@.len()
            &&& x.2@.len() == rates@.len()
            &&& x.3@.len() == rates@.len()
            &&& rate_nodes_ok(rates@, x.0@, x.1@, x.2@, x.3@, rates@.len() as int)
        },
        r is None ==> exists|k: int| 0 <= k < rates@.len() && fx_usable(#[trigger] rates@[k]) && spec_div(Dec::one_spec(), rates@[k].rate) is None,
{
    let mut froms: Vec<String> = Vec::new();
    let mut tos: Vec<String> = Vec::new();
    let mut usable: Vec<bool> = Vec::new();
    let mut inverses: Vec<Dec> = Vec::new();
    let zero = Dec::zero();
    let mut k: usize = 0;
    while k < rates.len()
        invariant
            k <= rates@.len(),
            rates_wf(rates@),
            zero == Dec::zero_spec(),
            zero.units() == 0,
            zero.wf(),
            froms@.len() == k,
            tos@.len() == k,
            usable@.len() == k,
            inverses@.len() == k,
            rate_nodes_ok(rates@, froms@, tos@, usable@, inverses@, k as int),
        decreases rates@.len() - k,
    {
        let rate = &rates[k];
        assert(rate.rate.wf());
        let f = to_ascii_uppercase(rate.normalized_from.as_str());
        let t = to_ascii_uppercase(rate.normalized_to.as_str());
        let u = dec_lt(zero, rate.rate) && !str_eq(f.as_str(), t.as_str());
        let inv = if u {
            match dec_div(Dec::one(), rate.rate) {
                Some(x) => x,
                None => {
                    assert(fx_usable(rates@[k as int]));
                    return None;
                },
            }
        } else {
            zero
        };
        let ghost (f0, t0, u0, i0) = (froms@, tos@, usable@, inverses@);
        froms.push(f);
        tos.push(t);
        usable.push(u);
        inverses.push(inv);
        proof {
            assert(froms@ == f0.push(f));
            assert forall|j: int| 0 <= j < k + 1 implies (#[trigger] froms@[j])@ == fx_from(rates@[j]) by {
                if j < k {
                    assert(froms@[j] == f0[j]);
                }
            }
            assert forall|j: int| 0 <= j < k + 1 implies (#[trigger] tos@[j])@ == fx_to(rates@[j]) by {
                if j < k {
                    assert(tos@[j] == t0[j]);
                }
            }
            assert forall|j: int| 0 <= j < k + 1 implies (#[trigger] usable@[j]) == fx_usable(rates@[j]) by {
                if j < k {
                    assert(usable@[j] == u0[j]);
                }
            }
            assert forall|j: int| 0 <= j < k + 1 && #[trigger] usable@[j] implies spec_div(Dec::one_spec(), rates@[j].rate) == Some(inverses@[j]) by {
                if j < k {
                    assert(usable@[j] == u0[j]);
                    assert(inverses@[j] == i0[j]);
                }
            }
            assert forall|j: int| 0 <= j < k + 1 implies (#[trigger] inverses@[j]).wf() by {
                if j < k {
                    assert(inverses@[j] == i0[j]);
                }
            }
        }
        k = k + 1;
    }
    Some((froms, tos, usable, inverses))
}

/// The next edge of the node `u` to explore: among the unprocessed rates,
/// the one whose other end, then id, then position is smallest (the order of
/// the adjacency lists of the search).
fn next_edge(
    u: &str,
    rates: &[ExchangeRate],
    froms: &Vec<String>,
    tos: &Vec<String>,
    processed: &Vec<bool>,
) -> (r: Option<usize>)
    requires
        froms@.len() == rates@.len(),
        tos@.len() == rates@.len(),
        processed@.len() == rates@.len(),
        forall|j: int| 0 <= j < rates@.len() ==> (#[trigger] froms@[j])@ == fx_from(rates@[j]),
        forall|j: int| 0 <= j < rates@.len() ==> (#[trigger] tos@[j])@ == fx_to(rates@[j]),
    ensures
        r matches Some(k) ==> k < rates@.len() && !processed@[k as int],
        r matches Some(k) ==> forall|j: int| 0 <= j < rates@.len() && !processed@[j] && j != k ==> #[trigger] edge_before(rates@, u@, k, j as usize),
        r is None ==> forall|k: int| 0 <= k < rates@.len() ==> processed@[k],
{
    let mut best: Option<usize> = None;
    let mut k: usize = 0;
    while k < rates.len()
        invariant
            k <= rates@.len(),
            froms@.len() == rates@.len(),
            tos@.len() == rates@.len(),
            processed@.len() == rates@.len(),
            forall|j: int| 0 <= j < rates@.len() ==> (#[trigger] froms@[j])@ == fx_from(rates@[j]),
            forall|j: int| 0 <= j < rates@.len() ==> (#[trigger] tos@[j])@ == fx_to(rates@[j]),
            best matches Some(b) ==> b < k && !processed@[b as int],
            best matches Some(b) ==> forall|j: int| 0 <= j < k && !processed@[j] && j != b ==> #[trigger] edge_before(rates@, u@, b, j as usize),
            best is None ==> forall|j: int| 0 <= j < k ==> processed@[j],
        decreases rates@.len() - k,
    {
        if !processed[k] {
            let replace = match best {
                None => true,
                Some(b) => {
                    let nk = if str_eq(froms[k].as_str(), u) { tos[k].as_str() } else { froms[k].as_str() };
                    let nb = if str_eq(froms[b].as_str(), u) { tos[b].as_str() } else { froms[b].as_str() };
                    proof {
                        assert(froms@[k as int]@ == fx_from(rates@[k as int]));
                        assert(tos@[k as int]@ == fx_to(rates@[k as int]));
                        assert(froms@[b as int]@ == fx_from(rates@[b as int]));
                        assert(tos@[b as int]@ == fx_to(rates@[b as int]));
                        assert(nk@ == other_end(rates@[k as int], u@));
                        assert(nb@ == other_end(rates@[b as int], u@));
                        crate::text::lemma_seq_lt_total(nk@, nb@);
                        crate::text::lemma_seq_lt_total(rates@[k as int].id@, rates@[b as int].id@);
                    }
                    str_lt(nk, nb) || (str_eq(nk, nb) && str_lt(rates[k].id.as_str(), rates[b].id.as_str()))
                },
            };
            if replace {
                proof {
                    if let Some(b) = best {
                        assert(edge_before(rates@, u@, k, b));
                        assert forall|j: int| 0 <= j < k + 1 && !processed@[j] && j != k implies #[trigger] edge_before(rates@, u@, k, j as usize) by {
                            if j != b {
                                lemma_edge_before_transitive(rates@, u@, k, b, j as usize);
                            }
                        }
                    }
                }
                best = Some(k);
            } else {
                proof {
                    let b = best.unwrap();
                    assert(edge_before(rates@, u@, b, k));
                }
            }
        }
        k = k + 1;
    }
    best
}

/// No path from `a` to `b` uses fewer rates than `path`.
pub open spec fn fx_shortest(rates: Seq<ExchangeRate>, a: Seq<char>, b: Seq<char>, path: Seq<usize>) -> bool {
    forall|p: Seq<usize>| #[trigger] fx_walk(rates, a, p) == Some(b) ==> path.len() <= p.len()
}

/// The node at the other end of rate `r` from `c`.
pub open spec fn other_end(r: ExchangeRate, c: Seq<char>) -> Seq<char> {
    if fx_from(r) == c { fx_to(r) } else { fx_from(r) }
}

/// The order in which the search takes the rates at node `c`: by the node
/// they lead to, then by id, then by position among the recorded rates.
pub open spec fn edge_before(rates: Seq<ExchangeRate>, c: Seq<char>, k1: usize, k2: usize) -> bool {
    let n1 = other_end(rates[k1 as int], c);
    let n2 = other_end(rates[k2 as int], c);
    let i1 = rates[k1 as int].id@;
    let i2 = rates[k2 as int].id@;
    ||| seq_lt(n1, n2)
    ||| n1 == n2 && seq_lt(i1, i2)
    ||| n1 == n2 && i1 == i2 && k1 < k2
}

/// The walks `p` and `q` from `a` agree on their first `m` rates and, at
/// the node reached there, `p` takes a rate that comes first.
pub open spec fn first_difference(rates: Seq<ExchangeRate>, a: Seq<char>, p: Seq<usize>, q: Seq<usize>, m: int) -> bool {
    &&& 0 <= m < p.len()
    &&& m < q.len()
    &&& p.take(m) == q.take(m)
    &&& edge_before(rates, fx_walk(rates, a, p.take(m)).unwrap(), p[m], q[m])
}

/// The walk `p` comes before `q`: it uses fewer rates, or as many and comes
/// first where they part.
pub open spec fn walk_before(rates: Seq<ExchangeRate>, a: Seq<char>, p: Seq<usize>, q: Seq<usize>) -> bool {
    ||| p.len() < q.len()
    ||| p.len() == q.len() && exists|m: int| #[trigger] first_difference(rates, a, p, q, m)
}

pub open spec fn walk_le(rates: Seq<ExchangeRate>, a: Seq<char>, p: Seq<usize>, q: Seq<usize>) -> bool {
    p == q || walk_before(rates, a, p, q)
}

/// Every other walk from `a` to `b` comes after `path`: no walk uses fewer
/// rates, and among those with as many, `path` takes the first rate in the
/// search's order where they part.
pub open spec fn fx_first_path(rates: Seq<ExchangeRate>, a: Seq<char>, b: Seq<char>, path: Seq<usize>) -> bool {
    forall|p: Seq<usize>| #[trigger] fx_walk(rates, a, p) == Some(b) && p != path ==> walk_before(rates, a, path, p)
}

proof fn lemma_edge_before_transitive(rates: Seq<ExchangeRate>, c: Seq<char>, k1: usize, k2: usize, k3: usize)
    requires
        edge_before(rates, c, k1, k2),
        edge_before(rates, c, k2, k3),
    ensures
        edge_before(rates, c, k1, k3),
{
    let n1 = other_end(rates[k1 as int], c);
    let n2 = other_end(rates[k2 as int], c);
    let n3 = other_end(rates[k3 as int], c);
    let i1 = rates[k1 as int].id@;
    let i2 = rates[k2 as int].id@;
    let i3 = rates[k3 as int].id@;
    if seq_lt(n1, n2) && seq_lt(n2, n3) {
        crate::text::lemma_seq_lt_transitive(n1, n2, n3);
    }
    if n1 == n2 && n2 == n3 && seq_lt(i1, i2) && seq_lt(i2, i3) {
        crate::text::lemma_seq_lt_transitive(i1, i2, i3);
    }
}

proof fn lemma_edge_before_irreflexive(rates: Seq<ExchangeRate>, c: Seq<char>, k: usize)
    ensures
        !edge_before(rates, c, k, k),
{
    crate::text::lemma_seq_lt_irreflexive(other_end(rates[k as int], c));
    crate::text::lemma_seq_lt_irreflexive(rates[k as int].id@);
}

/// The order of walks is transitive.
proof fn lemma_walk_before_transitive(rates: Seq<ExchangeRate>, a: Seq<char>, p: Seq<usize>, q: Seq<usize>, r: Seq<usize>)
    requires
        walk_before(rates, a, p, q),
        walk_before(rates, a, q, r),
    ensures
        walk_before(rates, a, p, r),
{
    if p.len() == q.len() && q.len() == r.len() {
        let i = choose|i: int| #[trigger] first_difference(rates, a, p, q, i);
        let j = choose|j: int| #[trigger] first_difference(rates, a, q, r, j);
        if i < j {
            assert(q.take(i) =~= q.take(j).take(i));
            assert(r.take(i) =~= r.take(j).take(i));
            assert(q[i] == q.take(j)[i]);
            assert(r[i] == r.take(j)[i]);
            assert(first_difference(rates, a, p, r, i));
        } else if j < i {
            assert(p.take(j) =~= p.take(i).take(j));
            assert(q.take(j) =~= q.take(i).take(j));
            assert(p[j] == p.take(i)[j]);
            assert(q[j] == q.take(i)[j]);
            assert(first_difference(rates, a, p, r, j));
        } else {
            lemma_edge_before_transitive(rates, fx_walk(rates, a, p.take(i)).unwrap(), p[i], q[i], r[i]);
            assert(first_difference(rates, a, p, r, i));
        }
    }
}

proof fn lemma_walk_le_transitive(rates: Seq<ExchangeRate>, a: Seq<char>, p: Seq<usize>, q: Seq<usize>, r: Seq<usize>)
    requires
        walk_le(rates, a, p, q),
        walk_le(rates, a, q, r),
    ensures
        walk_le(rates, a, p, r),
{
    if p != q && q != r {
        lemma_walk_before_transitive(rates, a, p, q, r);
    }
}

/// No walk comes before itself.
proof fn lemma_walk_before_irreflexive(rates: Seq<ExchangeRate>, a: Seq<char>, p: Seq<usize>)
    ensures
        !walk_before(rates, a, p, p),
{
    if walk_before(rates, a, p, p) {
        let m = choose|m: int| #[trigger] first_difference(rates, a, p, p, m);
        lemma_edge_before_irreflexive(rates, fx_walk(rates, a, p.take(m)).unwrap(), p[m]);
    }
}

/// Extending two ordered walks keeps them ordered.
proof fn lemma_walk_before_push(rates: Seq<ExchangeRate>, a: Seq<char>, p: Seq<usize>, q: Seq<usize>, k1: usize, k2: usize)
    requires
        walk_before(rates, a, p, q),
    ensures
        walk_before(rates, a, p.push(k1), q.push(k2)),
{
    if p.len() == q.len() {
        let m = choose|m: int| #[trigger] first_difference(rates, a, p, q, m);
        assert(p.push(k1).take(m) =~= p.take(m));
        assert(q.push(k2).take(m) =~= q.take(m));
        assert(first_difference(rates, a, p.push(k1), q.push(k2), m));
    }
}

/// A walk extended by two rates in the search's order.
proof fn lemma_walk_before_same_prefix(rates: Seq<ExchangeRate>, a: Seq<char>, p: Seq<usize>, k1: usize, k2: usize)
    requires
        edge_before(rates, fx_walk(rates, a, p).unwrap(), k1, k2),
    ensures
        walk_before(rates, a, p.push(k1), p.push(k2)),
{
    let m = p.len() as int;
    assert(p.push(k1).take(m) =~= p);
    assert(p.push(k2).take(m) =~= p);
    assert(first_difference(rates, a, p.push(k1), p.push(k2), m));
}

/// Two first walks to the same node are the same walk.
pub proof fn law_fx_first_path_unique(rates: Seq<ExchangeRate>, a: Seq<char>, b: Seq<char>, p: Seq<usize>, q: Seq<usize>)
    requires
        fx_walk(rates, a, p) == Some(b),
        fx_walk(rates, a, q) == Some(b),
        fx_first_path(rates, a, b, p),
        fx_first_path(rates, a, b, q),
    ensures
        p == q,
{
    if p != q {
        assert(walk_before(rates, a, p, q));
        assert(walk_before(rates, a, q, p));
        lemma_walk_before_transitive(rates, a, p, q, p);
        lemma_walk_before_irreflexive(rates, a, p);
    }
}

/// The first walk uses the fewest rates.
pub proof fn law_fx_first_path_shortest(rates: Seq<ExchangeRate>, a: Seq<char>, b: Seq<char>, path: Seq<usize>)
    requires
        fx_first_path(rates, a, b, path),
    ensures
        fx_shortest(rates, a, b, path),
{
    assert forall|p: Seq<usize>| #[trigger] fx_walk(rates, a, p) == Some(b) implies path.len() <= p.len() by {
        if p != path {
            assert(walk_before(rates, a, path, p));
        }
    }
}

/// A walk that arrives has every prefix arrive somewhere.
proof fn lemma_walk_prefix(rates: Seq<ExchangeRate>, a: Seq<char>, p: Seq<usize>, m: int)
    requires
        fx_walk(rates, a, p) is Some,
        0 <= m <= p.len(),
    ensures
        fx_walk(rates, a, p.take(m)) is Some,
    decreases p.len() - m,
{
    if m < p.len() {
        lemma_walk_prefix(rates, a, p, m + 1);
        assert(p.take(m + 1).drop_last() =~= p.take(m));
    } else {
        assert(p.take(m) =~= p);
    }
}

/// The breadth-first argument in the search's order: following the walk
/// `p` to `b`, each node either was expanded before `head` and queued with a
/// walk no later than `p`'s prefix, or the walk at `head` already comes no
/// later than that prefix; the queue is in walk order, so the walk at
/// `head` comes no later than `p`.
proof fn lemma_bfs_first(
    rates: Seq<ExchangeRate>,
    a: Seq<char>,
    b: Seq<char>,
    q: Seq<Seq<char>>,
    paths: Seq<Seq<usize>>,
    head: int,
    p: Seq<usize>,
    m: int,
)
    requires
        0 <= head < q.len(),
        paths.len() == q.len(),
        forall|i: int| 0 <= i < head ==> (#[trigger] q[i]) != b,
        forall|i: int, j: int| 0 <= i < j < q.len() ==> walk_before(rates, a, #[trigger] paths[i], #[trigger] paths[j]),
        forall|i: int, k: usize| 0 <= i < head && (#[trigger] fx_step(rates, q[i], k)) is Some
            ==> exists|j: int| 0 <= j < q.len() && q[j] == fx_step(rates, q[i], k).unwrap() && walk_le(rates, a, paths[j], paths[i].push(k)),
        forall|i: int| 0 <= i < q.len() ==> fx_walk(rates, a, #[trigger] paths[i]) == Some(q[i]),
        fx_walk(rates, a, p) == Some(b),
        0 <= m <= p.len(),
        walk_le(rates, a, paths[head], p.take(m))
            || exists|i: int| 0 <= i < head && q[i] == fx_walk(rates, a, p.take(m)).unwrap() && walk_le(rates, a, paths[i], p.take(m)),
    ensures
        walk_le(rates, a, paths[head], p),
    decreases p.len() - m,
{
    if walk_le(rates, a, paths[head], p.take(m)) {
        if m == p.len() {
            assert(p.take(m) =~= p);
        } else {
            assert(walk_before(rates, a, p.take(m), p));
            lemma_walk_le_transitive(rates, a, paths[head], p.take(m), p);
        }
    } else {
        let i = choose|i: int| 0 <= i < head && q[i] == fx_walk(rates, a, p.take(m)).unwrap() && walk_le(rates, a, paths[i], p.take(m));
        if m == p.len() {
            assert(p.take(m) =~= p);
            assert(q[i] == b);
        } else {
            lemma_walk_prefix(rates, a, p, m + 1);
            assert(p.take(m + 1).drop_last() =~= p.take(m));
            assert(p.take(m + 1) =~= p.take(m).push(p[m]));
            let x = fx_walk(rates, a, p.take(m)).unwrap();
            assert(fx_walk(rates, a, p.take(m + 1)) == fx_step(rates, x, p[m]));
            assert(fx_step(rates, q[i], p[m]) is Some);
            let j = choose|j: int| 0 <= j < q.len() && q[j] == fx_step(rates, q[i], p[m]).unwrap() && walk_le(rates, a, paths[j], paths[i].push(p[m]));
            if paths[i] != p.take(m) {
                lemma_walk_before_push(rates, a, paths[i], p.take(m), p[m], p[m]);
            }
            assert(walk_le(rates, a, paths[i].push(p[m]), p.take(m + 1)));
            lemma_walk_le_transitive(rates, a, paths[j], paths[i].push(p[m]), p.take(m + 1));
            if j < head {
                lemma_bfs_first(rates, a, b, q, paths, head, p, m + 1);
            } else {
                if j > head {
                    assert(walk_before(rates, a, paths[head], paths[j]));
                }
                lemma_walk_le_transitive(rates, a, paths[head], paths[j], p.take(m + 1));
                lemma_bfs_first(rates, a, b, q, paths, head, p, m + 1);
            }
        }
    }
}

proof fn lemma_walk_in_range(rates: Seq<ExchangeRate>, start: Seq<char>, path: Seq<usize>)
    requires
        fx_walk(rates, start, path) is Some,
    ensures
        forall|i: int| 0 <= i < path.len() ==> (#[trigger] path[i]) < rates.len(),
    decreases path.len(),
{
    if path.len() > 0 {
        lemma_walk_in_range(rates, start, path.drop_last());
        assert forall|i: int| 0 <= i < path.len() implies (#[trigger] path[i]) < rates.len() by {
            if i < path.len() - 1 {
                assert(path[i] == path.drop_last()[i]);
            }
        }
    }
}

proof fn lemma_walk_push(rates: Seq<ExchangeRate>, start: Seq<char>, path: Seq<usize>, k: usize)
    ensures
        path.push(k).drop_last() == path,
        path.push(k).last() == k,
        fx_walk(rates, start, path.push(k)) == (match fx_walk(rates, start, path) {
            Some(c) => fx_step(rates, c, k),
            None => None,
        }),
        fx_path_rate(rates, start, path.push(k)) == (match (fx_path_rate(rates, start, path), fx_walk(rates, start, path)) {
            (Some(acc), Some(c)) => match fx_edge_rate(rates[k as int], c) {
                Some(e) => spec_mul(acc, e),
                None => None,
            },
            _ => None,
        }),
{
    assert(path.push(k).drop_last() =~= path);
}

/// Every node reached from a node of a set closed under the edges is in it.
proof fn lemma_closed_contains_reachable(rates: Seq<ExchangeRate>, start: Seq<char>, nodes: Seq<Seq<char>>, path: Seq<usize>)
    requires
        nodes.contains(start),
        forall|c: Seq<char>, k: usize| nodes.contains(c) && (#[trigger] fx_step(rates, c, k)) is Some ==> nodes.contains(fx_step(rates, c, k).unwrap()),
        fx_walk(rates, start, path) is Some,
    ensures
        nodes.contains(fx_walk(rates, start, path).unwrap()),
    decreases path.len(),
{
    if path.len() > 0 {
        lemma_closed_contains_reachable(rates, start, nodes, path.drop_last());
    }
}

/// The UTC day number of today, counted from the common era.  It depends on
/// the clock, so nothing is stated of it.
#[verifier::external_body]
fn utc_today_day() -> (r: i32) {
    chrono::Datelike::num_days_from_ce(&chrono::Utc::now().date_naive())
}

impl AllocationWorksheetService {
    /// Attributes the conversion from `from` to `to` to recorded rates, with
    /// today's UTC date deciding staleness.
    pub fn resolve_fx_source(
        from: &FxCurrency,
        to: &FxCurrency,
        rates: &[ExchangeRate],
    ) -> (r: Option<Result<(Dec, Option<WorksheetPricingSource>, Vec<ExchangeRate>), CoreError>>)
        requires
            rates_wf(rates@),
            from.denormalization_multiplier.wf(),
            to.denormalization_multiplier.wf(),
        ensures
            exists|today: i32| fx_resolution(rates@, *from, *to, today, r),
    {
        let today = utc_today_day();
        Self::resolve_fx_source_on(from, to, rates, today)
    }

    /// Attributes the conversion from `from` to `to` to recorded rates.
    /// Equal normalized codes need no rate.  Otherwise a breadth-first search
    /// from the source code over the positive rates, usable in both
    /// directions, taking the rates of each node in order of the node they
    /// lead to, then of id, finds the first path to the target code (the
    /// fewest rates, then the search's order); the applied rate is
    /// `source multiplier × path rate × target multiplier`, and the pricing
    /// source names every rate of the path, the oldest timestamp, and whether
    /// any rate predates `today`.  No path is an error.  `None`: a `Decimal`
    /// operation overflowed.
    pub fn resolve_fx_source_on(
        from: &FxCurrency,
        to: &FxCurrency,
        rates: &[ExchangeRate],
        today: i32,
    ) -> (r: Option<Result<(Dec, Option<WorksheetPricingSource>, Vec<ExchangeRate>), CoreError>>)
        requires
            rates_wf(rates@),
            from.denormalization_multiplier.wf(),
            to.denormalization_multiplier.wf(),
        ensures
            fx_resolution(rates@, *from, *to, today, r),
    {
        let a = to_ascii_uppercase(from.normalized.as_str());
        let b = to_ascii_uppercase(to.normalized.as_str());
        let sm = if eq_ignore_ascii_case(a.as_str(), from.code.as_str()) {
            Dec::one()
        } else {
            match dec_div(Dec::one(), from.denormalization_multiplier) {
                Some(x) => x,
                None => return None,
            }
        };
        let tm = to.denormalization_multiplier;
        if str_eq(a.as_str(), b.as_str()) {
            return match dec_mul(sm, tm) {
                Some(x) => Some(Ok((x, None, Vec::new()))),
                None => None,
            };
        }
        let (froms, tos, usable, inverses) = match rate_nodes(rates) {
            Some(x) => x,
            None => return None,
        };
        let found = match Self::search(a.as_str(), b.as_str(), rates, &froms, &tos, &usable, &inverses) {
            Some(x) => x,
            None => return None,
        };
        let (path_rate, path) = match found {
            Some(x) => x,
            None => {
                let mut m = String::from_str("No attributable FX rate is available for ");
                m.append(from.code.as_str());
                m.append("/");
                m.append(to.code.as_str());
                return Some(Err(Self::invalid(m.as_str())));
            },
        };
        proof {
            assert(source_multiplier(*from) == Some(sm));
        }
        let applied = match dec_mul(sm, path_rate) {
            Some(x) => match dec_mul(x, tm) {
                Some(y) => y,
                None => {
                    assert(applied_overflows(rates@, *from, *to, path@));
                    return None;
                },
            },
            None => {
                assert(applied_overflows(rates@, *from, *to, path@));
                return None;
            },
        };
        let (used, ids, oldest, stale) = Self::path_records(rates, &path, today);
        let source = WorksheetPricingSource {
            id: ids,
            source_type: if path.len() == 1 {
                String::from_str("fx_rate")
            } else {
                String::from_str("fx_path")
            },
            value: applied,
            from_currency: from.code.clone(),
            to_currency: to.code.clone(),
            timestamp: oldest,
            is_stale: stale,
        };
        let result = (applied, Some(source), used);
        assert(fx_attributed(rates@, *from, *to, today, path@, result));
        assert(fx_shortest(rates@, ascii_upper_spec(from.normalized@), ascii_upper_spec(to.normalized@), path@));
        assert(fx_first_path(rates@, ascii_upper_spec(from.normalized@), ascii_upper_spec(to.normalized@), path@));
        proof {
            lemma_walk_in_range(rates@, ascii_upper_spec(from.normalized@), path@);
        }
        assert forall|i: int| 0 <= i < result.2@.len() implies (#[trigger] result.2@[i]).rate.wf() by {
            assert(result.2@[i].same_as(rates@[path@[i] as int]));
            assert(rates@[path@[i] as int].rate.wf());
        }
        assert forall|i: int| 0 <= i < result.2@.len() implies exists|j: int| 0 <= j < rates@.len() && (#[trigger] result.2@[i]).same_as(rates@[j]) by {
            assert(result.2@[i].same_as(rates@[path@[i] as int]));
        }
        Some(Ok(result))
    }

    /// The breadth-first search from `a`.  `Some(Some((rate, path)))`: the
    /// first path found to `b` and its rate; `Some(None)`: `b` is not
    /// reachable; `None`: a rate product overflowed.
    #[verifier::rlimit(100)]
    #[verifier::spinoff_prover]
    fn search(
        a: &str,
        b: &str,
        rates: &[ExchangeRate],
        froms: &Vec<String>,
        tos: &Vec<String>,
        usable: &Vec<bool>,
        inverses: &Vec<Dec>,
    ) -> (r: Option<Option<(Dec, Vec<usize>)>>)
        requires
            rates_wf(rates@),
            a@ != b@,
            froms@.len() == rates@.len(),
            tos@.len() == rates@.len(),
            usable@.len() == rates@.len(),
            inverses@.len() == rates@.len(),
            rate_nodes_ok(rates@, froms@, tos@, usable@, inverses@, rates@.len() as int),
        ensures
            r matches Some(Some(x)) ==> {
                &&& x.1@.len() >= 1
                &&& fx_walk(rates@, a@, x.1@) == Some(b@)
                &&& fx_path_rate(rates@, a@, x.1@) == Some(x.0)
                &&& x.0.wf()
                &&& forall|i: int| 0 <= i < x.1@.len() ==> (#[trigger] x.1@[i]) < rates@.len()
            },
            r matches Some(None) ==> !fx_reachable(rates@, a@, b@),
            r matches Some(Some(x)) ==> fx_shortest(rates@, a@, b@, x.1@),
            r matches Some(Some(x)) ==> fx_first_path(rates@, a@, b@, x.1@),
            r is None ==> exists|p: Seq<usize>| fx_walk(rates@, a@, p) is Some && #[trigger] fx_path_rate(rates@, a@, p) is None,
    {
        let n = rates.len();
        let mut q_cur: Vec<String> = Vec::new();
        let mut q_acc: Vec<Dec> = Vec::new();
        let mut q_path: Vec<Vec<usize>> = Vec::new();
        q_cur.push(String::from_str(a));
        q_acc.push(Dec::one());
        q_path.push(Vec::new());
        let mut claimed_to: Vec<bool> = Vec::new();
        let mut claimed_from: Vec<bool> = Vec::new();
        let mut j: usize = 0;
        while j < n
            invariant
                j <= n,
                n == rates@.len(),
                claimed_to@ == Seq::new(j as nat, |i: int| false),
                claimed_from@ == Seq::new(j as nat, |i: int| false),
            decreases n - j,
        {
            claimed_to.push(false);
            claimed_from.push(false);
            j = j + 1;
            assert(claimed_to@ =~= Seq::new(j as nat, |i: int| false));
            assert(claimed_from@ =~= Seq::new(j as nat, |i: int| false));
        }
        proof {
            lemma_count_true_none(n as nat);
            assert(fx_walk(rates@, a@, q_path@[0]@) == Some(a@));
        }
        let mut head: usize = 0;
        proof {
            reveal(AllocationWorksheetService::search_state);
            assert(q_path@[0]@.len() == 0);
        }
        while head < q_cur.len()
            invariant
                n == rates@.len(),
                rates_wf(rates@),
                a@ != b@,
                froms@.len() == n,
                tos@.len() == n,
                usable@.len() == n,
                inverses@.len() == n,
                rate_nodes_ok(rates@, froms@, tos@, usable@, inverses@, n as int),
                q_cur@.len() <= 2 * n + 1,
                Self::search_state(rates@, a@, b@, q_cur@, q_acc@, q_path@, claimed_to@, claimed_from@, head as int),
            decreases 2 * n + 1 - head,
        {
            proof {
                reveal(AllocationWorksheetService::search_state);
            }
            if str_eq(q_cur[head].as_str(), b) {
                let path = q_path[head].clone();
                proof {
                    assert(path@ =~= q_path@[head as int]@);
                    assert(fx_walk(rates@, a@, path@) == Some(q_cur@[head as int]@));
                    if path@.len() == 0 {
                        assert(fx_walk(rates@, a@, path@) == Some(a@));
                    }
                    lemma_walk_in_range(rates@, a@, path@);
                    let paths = q_path@.map_values(|v: Vec<usize>| v@);
                    assert forall|p: Seq<usize>| #[trigger] fx_walk(rates@, a@, p) == Some(b@) && p != path@ implies walk_before(rates@, a@, path@, p) by {
                        assert(head != 0);
                        assert(p.take(0) =~= Seq::<usize>::empty());
                        assert(paths[0] == q_path@[0]@);
                        assert(paths[0] =~= p.take(0));
                        assert(q_cur@[0]@ == fx_walk(rates@, a@, p.take(0)).unwrap());
                        assert(views(q_cur@)[0] == q_cur@[0]@);
                        assert forall|i: int, j: int| 0 <= i < j < views(q_cur@).len() implies walk_before(rates@, a@, #[trigger] paths[i], #[trigger] paths[j]) by {
                            assert(paths[i] == q_path@[i]@ && paths[j] == q_path@[j]@);
                        }
                        assert forall|i: int, k: usize| 0 <= i < head && (#[trigger] fx_step(rates@, views(q_cur@)[i], k)) is Some
                            implies exists|j: int| 0 <= j < views(q_cur@).len() && views(q_cur@)[j] == fx_step(rates@, views(q_cur@)[i], k).unwrap() && walk_le(rates@, a@, paths[j], paths[i].push(k)) by {
                            assert(views(q_cur@)[i] == q_cur@[i]@);
                            assert(fx_step(rates@, q_cur@[i]@, k) is Some);
                            let j = choose|j: int| 0 <= j < q_cur@.len() && q_cur@[j]@ == fx_step(rates@, q_cur@[i]@, k).unwrap() && walk_le(rates@, a@, q_path@[j]@, q_path@[i]@.push(k));
                            assert(views(q_cur@)[j] == q_cur@[j]@);
                            assert(paths[j] == q_path@[j]@ && paths[i] == q_path@[i]@);
                        }
                        assert forall|i: int| 0 <= i < head implies (#[trigger] views(q_cur@)[i]) != b@ by {
                            assert(views(q_cur@)[i] == q_cur@[i]@);
                        }
                        assert forall|i: int| 0 <= i < views(q_cur@).len() implies fx_walk(rates@, a@, #[trigger] paths[i]) == Some(views(q_cur@)[i]) by {
                            assert(views(q_cur@)[i] == q_cur@[i]@);
                            assert(paths[i] == q_path@[i]@);
                        }
                        assert(walk_le(rates@, a@, paths[0], p.take(0)));
                        lemma_bfs_first(rates@, a@, b@, views(q_cur@), paths, head as int, p, 0);
                        assert(paths[head as int] == path@);
                    }
                    law_fx_first_path_shortest(rates@, a@, b@, path@);
                }
                return Some(Some((q_acc[head], path)));
            }
            if !Self::expand_node(a, b, rates, froms, tos, usable, inverses, head, &mut q_cur, &mut q_acc, &mut q_path, &mut claimed_to, &mut claimed_from) {
                return None;
            }
            head = head + 1;
        }
        proof {
            reveal(AllocationWorksheetService::search_state);
            assert forall|c: Seq<char>, k: usize| views(q_cur@).contains(c) && (#[trigger] fx_step(rates@, c, k)) is Some implies views(q_cur@).contains(fx_step(rates@, c, k).unwrap()) by {
                let i = choose|i: int| 0 <= i < views(q_cur@).len() && views(q_cur@)[i] == c;
                assert(fx_step(rates@, q_cur@[i]@, k) is Some);
            }
            assert(views(q_cur@)[0] == a@);
            if fx_reachable(rates@, a@, b@) {
                let path = choose|path: Seq<usize>| fx_walk(rates@, a@, path) == Some(b@);
                lemma_closed_contains_reachable(rates@, a@, views(q_cur@), path);
                let i = choose|i: int| 0 <= i < views(q_cur@).len() && views(q_cur@)[i] == b@;
                assert(q_cur@[i]@ != b@);
            }
        }
        Some(None)
    }

    /// The breadth-first search when the first `head` queued nodes have
    /// been expanded: each queued node with the path that reaches it and
    /// its rate; the claimed rate ends are queued; no expanded node is the
    /// target; the queued walks are in walk order; the last one queued
    /// extends a walk expanded earlier; every neighbour of an expanded node
    /// is queued with a walk no later than the expanded walk extended to it.
    #[verifier::opaque]
    spec fn search_state(
        rates: Seq<ExchangeRate>,
        a: Seq<char>,
        b: Seq<char>,
        q_cur: Seq<String>,
        q_acc: Seq<Dec>,
        q_path: Seq<Vec<usize>>,
        claimed_to: Seq<bool>,
        claimed_from: Seq<bool>,
        head: int,
    ) -> bool {
        let n = rates.len() as int;
        &&& q_acc.len() == q_cur.len()
        &&& q_path.len() == q_cur.len()
        &&& 1 <= q_cur.len()
        &&& 0 <= head <= q_cur.len()
        &&& q_cur[0]@ == a
        &&& claimed_to.len() == n
        &&& claimed_from.len() == n
        &&& q_cur.len() == count_true(claimed_to) + count_true(claimed_from) + 1
        &&& forall|k: int| 0 <= k < n && #[trigger] claimed_to[k] ==> views(q_cur).contains(fx_to(rates[k]))
        &&& forall|k: int| 0 <= k < n && #[trigger] claimed_from[k] ==> views(q_cur).contains(fx_from(rates[k]))
        &&& forall|i: int| 0 <= i < q_cur.len() ==> {
            &&& fx_walk(rates, a, (#[trigger] q_path[i])@) == Some(q_cur[i]@)
            &&& fx_path_rate(rates, a, q_path[i]@) == Some(q_acc[i])
            &&& q_acc[i].wf()
        }
        &&& forall|i: int| 0 <= i < head ==> (#[trigger] q_cur[i])@ != b
        &&& forall|i: int, k: usize| 0 <= i < head && (#[trigger] fx_step(rates, q_cur[i]@, k)) is Some ==> views(q_cur).contains(fx_step(rates, q_cur[i]@, k).unwrap())
        &&& q_path[0]@.len() == 0
        &&& forall|i: int, j: int| 0 <= i < j < q_path.len() ==> walk_before(rates, a, (#[trigger] q_path[i])@, (#[trigger] q_path[j])@)
        &&& q_path.len() - 1 > head ==> exists|i: int, kk: usize| 0 <= i < head && #[trigger] q_path[i]@.push(kk) == q_path[q_path.len() - 1]@
        &&& forall|i: int, k: usize| 0 <= i < head && (#[trigger] fx_step(rates, q_cur[i]@, k)) is Some
            ==> exists|j: int| 0 <= j < q_cur.len() && q_cur[j]@ == fx_step(rates, q_cur[i]@, k).unwrap() && walk_le(rates, a, q_path[j]@, q_path[i]@.push(k))
    }

    /// Expands the queued node at `head`: queues each neighbour not yet
    /// queued, with its path and rate (`false`: a rate product overflowed).
    #[verifier::rlimit(100)]
    #[verifier::spinoff_prover]
    fn expand_node(
        a: &str,
        b: &str,
        rates: &[ExchangeRate],
        froms: &Vec<String>,
        tos: &Vec<String>,
        usable: &Vec<bool>,
        inverses: &Vec<Dec>,
        head: usize,
        q_cur: &mut Vec<String>,
        q_acc: &mut Vec<Dec>,
        q_path: &mut Vec<Vec<usize>>,
        claimed_to: &mut Vec<bool>,
        claimed_from: &mut Vec<bool>,
    ) -> (r: bool)
        requires
            rates_wf(rates@),
            a@ != b@,
            froms@.len() == rates@.len(),
            tos@.len() == rates@.len(),
            usable@.len() == rates@.len(),
            inverses@.len() == rates@.len(),
            rate_nodes_ok(rates@, froms@, tos@, usable@, inverses@, rates@.len() as int),
            head < old(q_cur)@.len(),
            old(q_cur)@[head as int]@ != b@,
            Self::search_state(rates@, a@, b@, old(q_cur)@, old(q_acc)@, old(q_path)@, old(claimed_to)@, old(claimed_from)@, head as int),
        ensures
            !r ==> exists|p: Seq<usize>| fx_walk(rates@, a@, p) is Some && #[trigger] fx_path_rate(rates@, a@, p) is None,
            r ==> Self::search_state(rates@, a@, b@, final(q_cur)@, final(q_acc)@, final(q_path)@, final(claimed_to)@, final(claimed_from)@, head + 1),
            r ==> final(q_cur)@.len() <= 2 * rates@.len() + 1,
    {
        assert(q_acc@.len() == q_cur@.len() && q_path@.len() == q_cur@.len()) by {
            reveal(AllocationWorksheetService::search_state);
        }
        let n = rates.len();
        let u = q_cur[head].clone();
        let acc = q_acc[head];
        let upath = q_path[head].clone();
        proof {
            assert(upath@ =~= q_path@[head as int]@);
        }
        let mut processed: Vec<bool> = Vec::new();
        let mut k: usize = 0;
        while k < n
            invariant
                k <= n,
                n == rates@.len(),
                froms@.len() == n,
                tos@.len() == n,
                usable@.len() == n,
                inverses@.len() == n,
                rate_nodes_ok(rates@, froms@, tos@, usable@, inverses@, n as int),
                processed@.len() == k,
                forall|kk: int| 0 <= kk < k ==> (#[trigger] processed@[kk] <==> fx_step(rates@, u@, kk as usize) is None),
            decreases n - k,
        {
            let edge = usable[k] && (str_eq(froms[k].as_str(), u.as_str()) || str_eq(tos[k].as_str(), u.as_str()));
            let ghost p0 = processed@;
            processed.push(!edge);
            proof {
                assert forall|kk: int| 0 <= kk < k + 1 implies (#[trigger] processed@[kk] <==> fx_step(rates@, u@, kk as usize) is None) by {
                    if kk < k {
                        assert(processed@[kk] == p0[kk]);
                    } else {
                        assert(froms@[kk]@ == fx_from(rates@[kk]));
                        assert(tos@[kk]@ == fx_to(rates@[kk]));
                        assert(usable@[kk] == fx_usable(rates@[kk]));
                    }
                }
            }
            k = k + 1;
        }
        proof {
            lemma_count_true_le(processed@);
            Self::lemma_expand_start(rates@, a@, b@, u@, upath@, acc, head as int, processed@, q_cur@, q_acc@, q_path@, claimed_to@, claimed_from@);
        }
        loop
            invariant
                n == rates@.len(),
                rates_wf(rates@),
                a@ != b@,
                froms@.len() == n,
                tos@.len() == n,
                usable@.len() == n,
                inverses@.len() == n,
                rate_nodes_ok(rates@, froms@, tos@, usable@, inverses@, n as int),
                processed@.len() == n,
                count_true(processed@) <= n,
                Self::expand_state(rates@, a@, b@, u@, upath@, acc, head as int, processed@, q_cur@, q_acc@, q_path@, claimed_to@, claimed_from@),
            ensures
                forall|k: int| 0 <= k < n ==> processed@[k],
            decreases n - count_true(processed@),
        {
            let e = match next_edge(u.as_str(), rates, froms, tos, &processed) {
                Some(e) => e,
                None => break,
            };
            proof {
                lemma_count_true_set(processed@, e as int);
            }
            if !Self::expand_edge(a, b, rates, froms, tos, usable, inverses, head, &u, acc, &upath, e, &mut processed, q_cur, q_acc, q_path, claimed_to, claimed_from) {
                return false;
            }
            proof {
                lemma_count_true_le(processed@);
            }
        }
        proof {
            Self::lemma_expand_done(rates@, a@, b@, u@, upath@, acc, head as int, processed@, q_cur@, q_acc@, q_path@, claimed_to@, claimed_from@);
        }
        true
    }

    /// The expansion of the node at `head` starts from the search state,
    /// with the rates that are no edges of `u` marked as taken.
    proof fn lemma_expand_start(
        rates: Seq<ExchangeRate>,
        a: Seq<char>,
        b: Seq<char>,
        u: Seq<char>,
        upath: Seq<usize>,
        acc: Dec,
        head: int,
        processed: Seq<bool>,
        q_cur: Seq<String>,
        q_acc: Seq<Dec>,
        q_path: Seq<Vec<usize>>,
        claimed_to: Seq<bool>,
        claimed_from: Seq<bool>,
    )
        requires
            Self::search_state(rates, a, b, q_cur, q_acc, q_path, claimed_to, claimed_from, head),
            0 <= head < q_cur.len(),
            q_cur[head]@ == u,
            u != b,
            upath == q_path[head]@,
            acc == q_acc[head],
            processed.len() == rates.len(),
            forall|kk: int| 0 <= kk < rates.len() ==> (#[trigger] processed[kk] <==> fx_step(rates, u, kk as usize) is None),
        ensures
            Self::expand_state(rates, a, b, u, upath, acc, head, processed, q_cur, q_acc, q_path, claimed_to, claimed_from),
    {
        reveal(AllocationWorksheetService::search_state);
        reveal(AllocationWorksheetService::expand_state);
        let n = rates.len() as int;
        let last = q_path.len() - 1;
        assert forall|k: int| 0 <= k < n && !(#[trigger] processed[k]) implies walk_before(rates, a, q_path[last]@, upath.push(k as usize)) by {
            if last > head {
                let (i, kk) = choose|i: int, kk: usize| 0 <= i < head && #[trigger] q_path[i]@.push(kk) == q_path[last]@;
                assert(walk_before(rates, a, q_path[i]@, q_path[head]@));
                lemma_walk_before_push(rates, a, q_path[i]@, upath, kk, k as usize);
            }
        }
    }

    /// Once every rate of `u` is taken, the node at `head` is expanded.
    proof fn lemma_expand_done(
        rates: Seq<ExchangeRate>,
        a: Seq<char>,
        b: Seq<char>,
        u: Seq<char>,
        upath: Seq<usize>,
        acc: Dec,
        head: int,
        processed: Seq<bool>,
        q_cur: Seq<String>,
        q_acc: Seq<Dec>,
        q_path: Seq<Vec<usize>>,
        claimed_to: Seq<bool>,
        claimed_from: Seq<bool>,
    )
        requires
            Self::expand_state(rates, a, b, u, upath, acc, head, processed, q_cur, q_acc, q_path, claimed_to, claimed_from),
            forall|k: int| 0 <= k < rates.len() ==> processed[k],
        ensures
            Self::search_state(rates, a, b, q_cur, q_acc, q_path, claimed_to, claimed_from, head + 1),
            q_cur.len() <= 2 * rates.len() + 1,
    {
        reveal(AllocationWorksheetService::search_state);
        reveal(AllocationWorksheetService::expand_state);
        assert forall|i: int, k: usize| 0 <= i < head + 1 && (#[trigger] fx_step(rates, q_cur[i]@, k)) is Some implies views(q_cur).contains(fx_step(rates, q_cur[i]@, k).unwrap()) by {
            if i == head {
                assert(processed[k as int]);
            }
        }
        assert forall|i: int, k: usize| 0 <= i < head + 1 && (#[trigger] fx_step(rates, q_cur[i]@, k)) is Some
            implies exists|j: int| 0 <= j < q_cur.len() && q_cur[j]@ == fx_step(rates, q_cur[i]@, k).unwrap() && walk_le(rates, a, q_path[j]@, q_path[i]@.push(k)) by {
            if i == head {
                assert(processed[k as int]);
            }
        }
        lemma_count_true_le(claimed_to);
        lemma_count_true_le(claimed_from);
    }

    /// The expansion of the node `u` queued at `head` with the walk `upath`
    /// and its rate `acc`: the search state, with the rates of `u` marked in
    /// `processed` taken; the last queued walk comes before `u`'s walk
    /// extended by any rate not yet taken.
    #[verifier::opaque]
    spec fn expand_state(
        rates: Seq<ExchangeRate>,
        a: Seq<char>,
        b: Seq<char>,
        u: Seq<char>,
        upath: Seq<usize>,
        acc: Dec,
        head: int,
        processed: Seq<bool>,
        q_cur: Seq<String>,
        q_acc: Seq<Dec>,
        q_path: Seq<Vec<usize>>,
        claimed_to: Seq<bool>,
        claimed_from: Seq<bool>,
    ) -> bool {
        let n = rates.len() as int;
        &&& processed.len() == n
        &&& 0 <= head < q_cur.len()
        &&& q_acc.len() == q_cur.len()
        &&& q_path.len() == q_cur.len()
        &&& q_cur[head]@ == u
        &&& u != b
        &&& upath == q_path[head]@
        &&& acc == q_acc[head]
        &&& q_cur[0]@ == a
        &&& claimed_to.len() == n
        &&& claimed_from.len() == n
        &&& q_cur.len() == count_true(claimed_to) + count_true(claimed_from) + 1
        &&& forall|k: int| 0 <= k < n && #[trigger] claimed_to[k] ==> views(q_cur).contains(fx_to(rates[k]))
        &&& forall|k: int| 0 <= k < n && #[trigger] claimed_from[k] ==> views(q_cur).contains(fx_from(rates[k]))
        &&& forall|i: int| 0 <= i < q_cur.len() ==> {
            &&& fx_walk(rates, a, (#[trigger] q_path[i])@) == Some(q_cur[i]@)
            &&& fx_path_rate(rates, a, q_path[i]@) == Some(q_acc[i])
            &&& q_acc[i].wf()
        }
        &&& forall|i: int| 0 <= i < head ==> (#[trigger] q_cur[i])@ != b
        &&& forall|i: int, k: usize| 0 <= i < head && (#[trigger] fx_step(rates, q_cur[i]@, k)) is Some ==> views(q_cur).contains(fx_step(rates, q_cur[i]@, k).unwrap())
        &&& forall|k: int| 0 <= k < n && #[trigger] processed[k] && fx_step(rates, u, k as usize) is Some ==> views(q_cur).contains(fx_step(rates, u, k as usize).unwrap())
        &&& forall|k: int| 0 <= k < n && !(#[trigger] processed[k]) ==> fx_step(rates, u, k as usize) is Some
        &&& q_path[0]@.len() == 0
        &&& forall|i: int, j: int| 0 <= i < j < q_path.len() ==> walk_before(rates, a, (#[trigger] q_path[i])@, (#[trigger] q_path[j])@)
        &&& q_path.len() - 1 > head ==> exists|i: int, kk: usize| 0 <= i <= head && #[trigger] q_path[i]@.push(kk) == q_path[q_path.len() - 1]@
        &&& forall|k: int| 0 <= k < n && !(#[trigger] processed[k]) ==> walk_before(rates, a, q_path[q_path.len() - 1]@, upath.push(k as usize))
        &&& forall|i: int, k: usize| 0 <= i < head && (#[trigger] fx_step(rates, q_cur[i]@, k)) is Some
            ==> exists|j: int| 0 <= j < q_cur.len() && q_cur[j]@ == fx_step(rates, q_cur[i]@, k).unwrap() && walk_le(rates, a, q_path[j]@, q_path[i]@.push(k))
        &&& forall|k: int| 0 <= k < n && #[trigger] processed[k] && fx_step(rates, u, k as usize) is Some
            ==> exists|j: int| 0 <= j < q_cur.len() && q_cur[j]@ == fx_step(rates, u, k as usize).unwrap() && walk_le(rates, a, q_path[j]@, upath.push(k as usize))
    }

    /// Takes the rate `e` of the node being expanded, the first in the
    /// search's order among those not yet taken: its other end is queued
    /// with `u`'s walk extended by `e` unless already queued (`false`: the
    /// rate product overflowed).
    #[verifier::rlimit(100)]
    #[verifier::spinoff_prover]
    fn expand_edge(
        a: &str,
        b: &str,
        rates: &[ExchangeRate],
        froms: &Vec<String>,
        tos: &Vec<String>,
        usable: &Vec<bool>,
        inverses: &Vec<Dec>,
        head: usize,
        u: &String,
        acc: Dec,
        upath: &Vec<usize>,
        e: usize,
        processed: &mut Vec<bool>,
        q_cur: &mut Vec<String>,
        q_acc: &mut Vec<Dec>,
        q_path: &mut Vec<Vec<usize>>,
        claimed_to: &mut Vec<bool>,
        claimed_from: &mut Vec<bool>,
    ) -> (r: bool)
        requires
            rates_wf(rates@),
            froms@.len() == rates@.len(),
            tos@.len() == rates@.len(),
            usable@.len() == rates@.len(),
            inverses@.len() == rates@.len(),
            rate_nodes_ok(rates@, froms@, tos@, usable@, inverses@, rates@.len() as int),
            e < rates@.len(),
            !old(processed)@[e as int],
            forall|j: int| 0 <= j < rates@.len() && !old(processed)@[j] && j != e ==> #[trigger] edge_before(rates@, u@, e, j as usize),
            Self::expand_state(rates@, a@, b@, u@, upath@, acc, head as int, old(processed)@, old(q_cur)@, old(q_acc)@, old(q_path)@, old(claimed_to)@, old(claimed_from)@),
        ensures
            final(processed)@ == old(processed)@.update(e as int, true),
            !r ==> exists|p: Seq<usize>| fx_walk(rates@, a@, p) is Some && #[trigger] fx_path_rate(rates@, a@, p) is None,
            r ==> Self::expand_state(rates@, a@, b@, u@, upath@, acc, head as int, final(processed)@, final(q_cur)@, final(q_acc)@, final(q_path)@, final(claimed_to)@, final(claimed_from)@),
    {
        proof {
            reveal(AllocationWorksheetService::expand_state);
        }
        let n = rates.len();
        let ghost processed_before = processed@;
        let ghost last_before = q_path@.len() - 1;
        proof {
            assert(fx_step(rates@, u@, e) is Some);
            assert(fx_walk(rates@, a@, upath@) == Some(u@));
            assert(walk_before(rates@, a@, q_path@[last_before]@, upath@.push(e)));
        }
        processed.set(e, true);
        let forward = str_eq(froms[e].as_str(), u.as_str());
        let next = if forward { tos[e].clone() } else { froms[e].clone() };
        if !contains_text(q_cur, next.as_str()) {
            let step = if forward { rates[e].rate } else { inverses[e] };
            proof {
                assert(rates@[e as int].rate.wf());
                if forward {
                    if claimed_to@[e as int] {
                        assert(views(q_cur@).contains(fx_to(rates@[e as int])));
                    }
                } else {
                    if claimed_from@[e as int] {
                        assert(views(q_cur@).contains(fx_from(rates@[e as int])));
                    }
                }
            }
            let next_acc = match dec_mul(acc, step) {
                Some(x) => x,
                None => {
                    proof {
                        lemma_walk_push(rates@, a@, upath@, e);
                        assert(fx_path_rate(rates@, a@, upath@) == Some(acc));
                        assert(fx_step(rates@, u@, e) == Some(next@));
                        assert(usable@[e as int] == fx_usable(rates@[e as int]));
                        assert(froms@[e as int]@ == fx_from(rates@[e as int]));
                        assert(tos@[e as int]@ == fx_to(rates@[e as int]));
                        assert(fx_edge_rate(rates@[e as int], u@) == Some(step));
                        assert(fx_walk(rates@, a@, upath@.push(e)) is Some);
                        assert(fx_path_rate(rates@, a@, upath@.push(e)) is None);
                    }
                    return false;
                },
            };
            let mut next_path = upath.clone();
            proof {
                assert(next_path@ =~= upath@);
            }
            next_path.push(e);
            proof {
                lemma_walk_push(rates@, a@, upath@, e);
                if forward {
                    lemma_count_true_set(claimed_to@, e as int);
                } else {
                    lemma_count_true_set(claimed_from@, e as int);
                }
            }
            let ghost before = q_cur@;
            let ghost before_acc = q_acc@;
            let ghost before_path = q_path@;
            proof {
                assert(fx_path_rate(rates@, a@, upath@) == Some(acc));
                assert(fx_step(rates@, u@, e) == Some(next@));
                assert(usable@[e as int] == fx_usable(rates@[e as int]));
                assert(froms@[e as int]@ == fx_from(rates@[e as int]));
                assert(tos@[e as int]@ == fx_to(rates@[e as int]));
                assert(fx_edge_rate(rates@[e as int], u@) == Some(step));
                assert(fx_walk(rates@, a@, next_path@) == Some(next@));
                assert(fx_path_rate(rates@, a@, next_path@) == Some(next_acc));
            }
            if forward {
                claimed_to.set(e, true);
            } else {
                claimed_from.set(e, true);
            }
            q_cur.push(next);
            q_acc.push(next_acc);
            q_path.push(next_path);
            proof {
                let last = q_cur@.len() - 1;
                assert(q_path@[last]@ == upath@.push(e));
                assert forall|i: int| 0 <= i < q_cur@.len() implies {
                    &&& fx_walk(rates@, a@, (#[trigger] q_path@[i])@) == Some(q_cur@[i]@)
                    &&& fx_path_rate(rates@, a@, q_path@[i]@) == Some(q_acc@[i])
                    &&& q_acc@[i].wf()
                } by {
                    if i < before.len() {
                        assert(q_path@[i] == before_path[i]);
                        assert(q_acc@[i] == before_acc[i]);
                        assert(q_cur@[i] == before[i]);
                    }
                }
                assert forall|c: Seq<char>| views(before).contains(c) implies views(q_cur@).contains(c) by {
                    let i = choose|i: int| 0 <= i < views(before).len() && views(before)[i] == c;
                    assert(views(q_cur@)[i] == c);
                }
                assert(views(q_cur@)[last] == next@);
                assert forall|i: int, j: int| 0 <= i < j < q_path@.len() implies walk_before(rates@, a@, (#[trigger] q_path@[i])@, (#[trigger] q_path@[j])@) by {
                    assert(q_path@[i] == before_path[i]);
                    if j < before.len() {
                        assert(q_path@[j] == before_path[j]);
                    } else if i < last_before {
                        assert(walk_before(rates@, a@, before_path[i]@, before_path[last_before]@));
                        lemma_walk_before_transitive(rates@, a@, before_path[i]@, before_path[last_before]@, upath@.push(e));
                    }
                }
                assert(q_path@[head as int]@.push(e) == q_path@[last]@);
                assert forall|k: int| 0 <= k < n && !(#[trigger] processed@[k]) implies walk_before(rates@, a@, q_path@[last]@, upath@.push(k as usize)) by {
                    assert(!processed_before[k] && k != e);
                    assert(edge_before(rates@, u@, e, k as usize));
                    lemma_walk_before_same_prefix(rates@, a@, upath@, e, k as usize);
                }
                assert forall|i: int, k: usize| 0 <= i < head && (#[trigger] fx_step(rates@, q_cur@[i]@, k)) is Some
                    implies exists|j: int| 0 <= j < q_cur@.len() && q_cur@[j]@ == fx_step(rates@, q_cur@[i]@, k).unwrap() && walk_le(rates@, a@, q_path@[j]@, q_path@[i]@.push(k)) by {
                    assert(q_cur@[i] == before[i] && q_path@[i] == before_path[i]);
                    let j = choose|j: int| 0 <= j < before.len() && before[j]@ == fx_step(rates@, before[i]@, k).unwrap() && walk_le(rates@, a@, before_path[j]@, before_path[i]@.push(k));
                    assert(q_cur@[j] == before[j] && q_path@[j] == before_path[j]);
                }
                assert forall|k: int| 0 <= k < n && #[trigger] processed@[k] && fx_step(rates@, u@, k as usize) is Some
                    implies exists|j: int| 0 <= j < q_cur@.len() && q_cur@[j]@ == fx_step(rates@, u@, k as usize).unwrap() && walk_le(rates@, a@, q_path@[j]@, upath@.push(k as usize)) by {
                    if k == e as int {
                        assert(q_cur@[last]@ == next@);
                    } else {
                        assert(processed_before[k]);
                        let j = choose|j: int| 0 <= j < before.len() && before[j]@ == fx_step(rates@, u@, k as usize).unwrap() && walk_le(rates@, a@, before_path[j]@, upath@.push(k as usize));
                        assert(q_cur@[j] == before[j] && q_path@[j] == before_path[j]);
                    }
                }
            }
        } else {
            proof {
                assert(views(q_cur@).contains(next@));
                let j = choose|j: int| 0 <= j < views(q_cur@).len() && views(q_cur@)[j] == next@;
                assert(q_cur@[j]@ == next@);
                assert(froms@[e as int]@ == fx_from(rates@[e as int]));
                assert(tos@[e as int]@ == fx_to(rates@[e as int]));
                if j < last_before {
                    assert(walk_before(rates@, a@, q_path@[j]@, q_path@[last_before]@));
                    lemma_walk_before_transitive(rates@, a@, q_path@[j]@, q_path@[last_before]@, upath@.push(e));
                }
                assert(walk_le(rates@, a@, q_path@[j]@, upath@.push(e)));
                assert forall|k: int| 0 <= k < n && #[trigger] processed@[k] && fx_step(rates@, u@, k as usize) is Some
                    implies exists|jj: int| 0 <= jj < q_cur@.len() && q_cur@[jj]@ == fx_step(rates@, u@, k as usize).unwrap() && walk_le(rates@, a@, q_path@[jj]@, upath@.push(k as usize)) by {
                    if k == e as int {
                        assert(fx_step(rates@, u@, e) == Some(next@));
                    } else {
                        assert(processed_before[k]);
                    }
                }
                assert forall|k: int| 0 <= k < n && !(#[trigger] processed@[k]) implies walk_before(rates@, a@, q_path@[q_path@.len() - 1]@, upath@.push(k as usize)) by {
                    assert(!processed_before[k]);
                }
            }
        }
        true
    }

    /// The rates of a path copied, their ids joined by `>`, the timestamp
    /// text of the oldest, and whether any is from before `today`.
    fn path_records(rates: &[ExchangeRate], path: &Vec<usize>, today: i32) -> (r: (Vec<ExchangeRate>, String, String, bool))
        requires
            path@.len() >= 1,
            forall|i: int| 0 <= i < path@.len() ==> (#[trigger] path@[i]) < rates@.len(),
        ensures
            r.0@.len() == path@.len(),
            forall|i: int| 0 <= i < path@.len() ==> (#[trigger] r.0@[i]).same_as(rates@[path@[i] as int]),
            r.1@ == fx_path_ids(rates@, path@),
            r.2@ == rates@[path@[oldest_position(rates@, path@)] as int].timestamp_text@,
            r.3 == fx_path_stale(rates@, path@, today),
    {
        let mut used: Vec<ExchangeRate> = Vec::new();
        let mut ids = String::new();
        let mut oldest: usize = 0;
        let mut stale = false;
        let mut i: usize = 0;
        while i < path.len()
            invariant
                i <= path@.len(),
                path@.len() >= 1,
                forall|j: int| 0 <= j < path@.len() ==> (#[trigger] path@[j]) < rates@.len(),
                used@.len() == i,
                forall|j: int| 0 <= j < i ==> (#[trigger] used@[j]).same_as(rates@[path@[j] as int]),
                ids@ == fx_path_ids(rates@, path@.take(i as int)),
                i == 0 ==> oldest == 0,
                i > 0 ==> oldest < i && oldest as int == oldest_position(rates@, path@.take(i as int)),
                stale == fx_path_stale(rates@, path@.take(i as int), today),
            decreases path@.len() - i,
        {
            let k = path[i];
            let rate = &rates[k];
            let ghost prefix = path@.take(i as int);
            let ghost next = path@.take(i + 1);
            proof {
                assert(next.drop_last() =~= prefix);
                assert(next.last() == k);
            }
            if i > 0 {
                ids.append(">");
            }
            ids.append(rate.id.as_str());
            let ghost prev_oldest = oldest as int;
            if i > 0 {
                let o = &rates[path[oldest]];
                if rate.timestamp_secs < o.timestamp_secs || (rate.timestamp_secs == o.timestamp_secs && rate.timestamp_nanos < o.timestamp_nanos) {
                    oldest = i;
                }
                proof {
                    assert(prefix[prev_oldest] == next[prev_oldest]);
                    assert(oldest_position(rates@, next) == (if ts_lt(rates@[next.last() as int], rates@[next[prev_oldest] as int]) { i as int } else { prev_oldest }));
                }
            } else {
                assert(next.len() == 1);
            }
            proof {
                if rate.timestamp_day < today {
                    assert(next[i as int] == k);
                } else if fx_path_stale(rates@, next, today) {
                    let j = choose|j: int| 0 <= j < next.len() && rates@[next[j] as int].timestamp_day < today;
                    assert(j < i);
                    assert(prefix[j] == next[j]);
                }
                if stale {
                    let j = choose|j: int| 0 <= j < prefix.len() && rates@[prefix[j] as int].timestamp_day < today;
                    assert(next[j] == prefix[j]);
                }
            }
            stale = stale || rate.timestamp_day < today;
            used.push(rate.duplicate());
            i = i + 1;
        }
        assert(path@.take(i as int) =~= path@);
        let oldest_text = rates[path[oldest]].timestamp_text.clone();
        (used, ids, oldest_text, stale)
    }
}

} // verus!
