//! What happened so far, counted per tenant.
//!
//! Cold start times are kept in whole nanoseconds.

use vstd::prelude::*;

use crate::pool::{distinct, holds, lemma_slot, slot};
use crate::text::same_text;

verus! {

/// The counters of one tenant.
#[derive(Debug, Clone, Copy, PartialEq, Eq)]
pub struct TenantMetrics {
    pub requests: u64,
    pub errors: u64,
    pub cold_starts: u64,
    pub warm_hits: u64,
    pub evictions: u64,
    pub cold_start_ns_last: u64,
    pub cold_start_ns_max: u64,
    pub cold_start_ns_sum: u128,
    pub terminations_cpu: u64,
    pub terminations_mem: u64,
}

/// The counters of a tenant of whom nothing is known yet.
pub open spec fn zeroed() -> TenantMetrics {
    TenantMetrics {
        requests: 0,
        errors: 0,
        cold_starts: 0,
        warm_hits: 0,
        evictions: 0,
        cold_start_ns_last: 0,
        cold_start_ns_max: 0,
        cold_start_ns_sum: 0,
        terminations_cpu: 0,
        terminations_mem: 0,
    }
}

impl Default for TenantMetrics {
    fn default() -> (metrics: Self)
        ensures
            metrics == zeroed(),
    {
        TenantMetrics {
            requests: 0,
            errors: 0,
            cold_starts: 0,
            warm_hits: 0,
            evictions: 0,
            cold_start_ns_last: 0,
            cold_start_ns_max: 0,
            cold_start_ns_sum: 0,
            terminations_cpu: 0,
            terminations_mem: 0,
        }
    }
}

/// The counters after a cold start that took `ns` nanoseconds.
pub open spec fn with_cold_start(metrics: TenantMetrics, ns: u64) -> TenantMetrics {
    TenantMetrics {
        cold_starts: (metrics.cold_starts + 1) as u64,
        cold_start_ns_last: ns,
        cold_start_ns_max: if metrics.cold_start_ns_max < ns {
            ns
        } else {
            metrics.cold_start_ns_max
        },
        cold_start_ns_sum: (metrics.cold_start_ns_sum + ns) as u128,
        ..metrics
    }
}

impl TenantMetrics {
    /// Every counter can still count one more event.
    pub open spec fn room(self) -> bool {
        &&& self.requests < u64::MAX
        &&& self.errors < u64::MAX
        &&& self.cold_starts < u64::MAX
        &&& self.warm_hits < u64::MAX
        &&& self.evictions < u64::MAX
        &&& self.cold_start_ns_sum <= u128::MAX - u64::MAX
        &&& self.terminations_cpu < u64::MAX
        &&& self.terminations_mem < u64::MAX
    }

    /// Whether every counter can still count one more event.
    pub fn has_room(&self) -> (yes: bool)
        ensures
            yes == self.room(),
    {
        self.requests < u64::MAX && self.errors < u64::MAX && self.cold_starts < u64::MAX
            && self.warm_hits < u64::MAX && self.evictions < u64::MAX && self.cold_start_ns_sum
            <= u128::MAX - u64::MAX as u128 && self.terminations_cpu < u64::MAX
            && self.terminations_mem < u64::MAX
    }

    /// Counts a cold start that took `ns` nanoseconds.
    pub fn record_cold_start(&mut self, ns: u64)
        requires
            old(self).cold_starts < u64::MAX,
            old(self).cold_start_ns_sum <= u128::MAX - u64::MAX,
        ensures
            *final(self) == with_cold_start(*old(self), ns),
    {
        self.cold_starts = self.cold_starts + 1;
        self.cold_start_ns_last = ns;
        if self.cold_start_ns_max < ns {
            self.cold_start_ns_max = ns;
        }
        self.cold_start_ns_sum = self.cold_start_ns_sum + ns as u128;
    }
}

/// The counters of all tenants that anything happened to.
///
/// The view maps the names of those tenants to their counters.
pub struct Metrics {
    tenants: Vec<(String, TenantMetrics)>,
}

/// What a list of named counters says.
pub open spec fn named(list: Seq<(String, TenantMetrics)>) -> Seq<(Seq<char>, TenantMetrics)> {
    list.map_values(|entry: (String, TenantMetrics)| (entry.0@, entry.1))
}

/// A list in which no name occurs twice, as a map.
pub open spec fn as_map(list: Seq<(Seq<char>, TenantMetrics)>) -> Map<Seq<char>, TenantMetrics> {
    Map::new(
        |tenant: Seq<char>| holds(list, tenant),
        |tenant: Seq<char>| list[slot(list, tenant)].1,
    )
}

/// The counters of `tenant`, all zero where nothing happened to it.
pub open spec fn counters(
    metrics: Map<Seq<char>, TenantMetrics>,
    tenant: Seq<char>,
) -> TenantMetrics {
    if metrics.contains_key(tenant) {
        metrics[tenant]
    } else {
        zeroed()
    }
}

impl View for Metrics {
    type V = Map<Seq<char>, TenantMetrics>;

    closed spec fn view(&self) -> Map<Seq<char>, TenantMetrics> {
        as_map(named(self.tenants@))
    }
}

impl Default for Metrics {
    fn default() -> (metrics: Self)
        ensures
            metrics.wf(),
            metrics@ == Map::<Seq<char>, TenantMetrics>::empty(),
    {
        let metrics = Metrics { tenants: Vec::new() };
        proof {
            assert(metrics@ =~= Map::<Seq<char>, TenantMetrics>::empty());
        }
        metrics
    }
}

impl Metrics {
    /// No tenant occurs twice.
    pub closed spec fn wf(&self) -> bool {
        distinct(named(self.tenants@))
    }

    /// The counters of `tenant`, to be changed at will; they start at zero.
    pub fn entry(&mut self, tenant: &str) -> (entry: &mut TenantMetrics)
        requires
            old(self).wf(),
        ensures
            *entry == counters(old(self)@, tenant@),
            final(self)@ == old(self)@.insert(tenant@, *final(entry)),
            final(self).wf(),
    {
        let ghost before = named(self.tenants@);
        let mut at: usize = 0;
        while at < self.tenants.len() && !same_text(self.tenants[at].0.as_str(), tenant)
            invariant
                *self == *old(self),
                before == named(self.tenants@),
                at <= self.tenants@.len(),
                forall|j: int| 0 <= j < at ==> (#[trigger] before[j]).0 != tenant@,
            decreases self.tenants@.len() - at,
        {
            proof {
                assert(before[at as int].0 == self.tenants@[at as int].0@);
            }
            at = at + 1;
        }
        if at == self.tenants.len() {
            self.tenants.push((tenant.to_owned(), TenantMetrics::default()));
        }
        proof {
            let mid = self.tenants@;
            let k = at as int;
            assert(mid[k].0@ == tenant@);
            assert(named(mid)[k] == (tenant@, counters(old(self)@, tenant@))) by {
                if k < before.len() {
                    lemma_slot(before, tenant@, k);
                }
            }
            assert forall|m: TenantMetrics| #[trigger] named(mid.update(k, (mid[k].0, m)))
                == placed(before, k, tenant@, m) by {
                assert(named(mid.update(k, (mid[k].0, m))) =~= placed(before, k, tenant@, m));
            }
            assert forall|m: TenantMetrics| #[trigger] as_map(placed(before, k, tenant@, m))
                == as_map(before).insert(tenant@, m) && distinct(placed(before, k, tenant@, m)) by {
                lemma_placed(before, k, tenant@, m);
            }
        }
        &mut self.tenants[at].1
    }

    /// Lets `f` change the counters of `tenant`, which start at zero.
    pub fn with<F: FnOnce(&mut TenantMetrics)>(&mut self, tenant: &str, f: F)
        requires
            old(self).wf(),
            forall|m: &mut TenantMetrics|
                *m == counters(old(self)@, tenant@) ==> #[trigger] call_requires(f, (m,)),
        ensures
            exists|m: &mut TenantMetrics|
                {
                    &&& *m == counters(old(self)@, tenant@)
                    &&& #[trigger] call_ensures(f, (m,), ())
                    &&& final(self)@ == old(self)@.insert(tenant@, *final(m))
                },
            final(self).wf(),
    {
        f(self.entry(tenant));
    }

    /// All tenants that anything happened to, with their counters.
    pub fn snapshot(&self) -> (list: Vec<(String, TenantMetrics)>)
        requires
            self.wf(),
        ensures
            distinct(named(list@)),
            as_map(named(list@)) == self@,
    {
        let mut list: Vec<(String, TenantMetrics)> = Vec::new();
        for i in 0..self.tenants.len()
            invariant
                named(list@) == named(self.tenants@).take(i as int),
        {
            let ghost before = list@;
            list.push((self.tenants[i].0.clone(), self.tenants[i].1));
            proof {
                let all = named(self.tenants@);
                assert(named(list@) =~= named(before).push(all[i as int]));
                assert(all.take(i + 1) =~= all.take(i as int).push(all[i as int]));
            }
        }
        proof {
            assert(named(list@) =~= named(self.tenants@));
        }
        list
    }

    /// Whether every counter of `tenant` can still count one more event.
    pub fn has_room_for(&self, tenant: &str) -> (yes: bool)
        requires
            self.wf(),
        ensures
            yes == counters(self@, tenant@).room(),
    {
        let ghost all = named(self.tenants@);
        for i in 0..self.tenants.len()
            invariant
                self.wf(),
                all == named(self.tenants@),
                forall|j: int| 0 <= j < i ==> (#[trigger] all[j]).0 != tenant@,
        {
            proof {
                assert(all[i as int] == (self.tenants@[i as int].0@, self.tenants@[i as int].1));
            }
            if same_text(self.tenants[i].0.as_str(), tenant) {
                proof {
                    lemma_slot(all, tenant@, i as int);
                }
                return self.tenants[i].1.has_room();
            }
        }
        true
    }
}

/// `list` with the counters of `tenant` at `at`, which may be one past its end.
spec fn placed(
    list: Seq<(Seq<char>, TenantMetrics)>,
    at: int,
    tenant: Seq<char>,
    metrics: TenantMetrics,
) -> Seq<(Seq<char>, TenantMetrics)> {
    if at < list.len() {
        list.update(at, (tenant, metrics))
    } else {
        list.push((tenant, metrics))
    }
}

proof fn lemma_placed(
    list: Seq<(Seq<char>, TenantMetrics)>,
    at: int,
    tenant: Seq<char>,
    metrics: TenantMetrics,
)
    requires
        distinct(list),
        0 <= at <= list.len(),
        at < list.len() ==> list[at].0 == tenant,
        at == list.len() ==> !holds(list, tenant),
    ensures
        as_map(placed(list, at, tenant, metrics)) == as_map(list).insert(tenant, metrics),
        distinct(placed(list, at, tenant, metrics)),
{
    let now = placed(list, at, tenant, metrics);
    assert forall|i: int, j: int| 0 <= i < j < now.len() implies #[trigger] now[i].0
        != #[trigger] now[j].0 by {
        if j < list.len() {
            assert(list[i].0 != list[j].0);
        } else {
            assert(list[i].0 != tenant);
        }
    }
    lemma_slot(now, tenant, at);
    assert forall|other: Seq<char>| other != tenant implies #[trigger] holds(now, other) == holds(
        list,
        other,
    ) && (holds(list, other) ==> now[slot(now, other)] == list[slot(list, other)]) by {
        if holds(list, other) {
            let i = slot(list, other);
            assert(0 <= i < list.len() && list[i].0 == other);
            assert(now[i] == list[i]);
            lemma_slot(now, other, i);
        }
        if holds(now, other) {
            let i = slot(now, other);
            assert(0 <= i < now.len() && now[i].0 == other);
            assert(now[i] == list[i]);
        }
    }
    assert(as_map(now) =~= as_map(list).insert(tenant, metrics));
}

/// The counters after cold starts that took `times`, one after the other.
pub open spec fn with_cold_starts(metrics: TenantMetrics, times: Seq<u64>) -> TenantMetrics
    decreases times.len(),
{
    if times.len() == 0 {
        metrics
    } else {
        with_cold_start(with_cold_starts(metrics, times.drop_last()), times.last())
    }
}

/// The sum of `times`.
pub open spec fn total(times: Seq<u64>) -> nat
    decreases times.len(),
{
    if times.len() == 0 {
        0
    } else {
        total(times.drop_last()) + times.last() as nat
    }
}

/// Whatever cold starts a tenant had, its counters tell how many there were,
/// how long all of them took together, how long the longest one took and how
/// long the last one took; nothing else is counted.
pub proof fn law_cold_start_summary(times: Seq<u64>)
    requires
        times.len() <= u64::MAX,
    ensures
        with_cold_starts(zeroed(), times) == (TenantMetrics {
            cold_starts: times.len() as u64,
            cold_start_ns_sum: total(times) as u128,
            cold_start_ns_max: with_cold_starts(zeroed(), times).cold_start_ns_max,
            cold_start_ns_last: if times.len() == 0 { 0 } else { times.last() },
            ..zeroed()
        }),
        total(times) <= u128::MAX,
        forall|i: int|
            0 <= i < times.len() ==> #[trigger] times[i] <= with_cold_starts(
                zeroed(),
                times,
            ).cold_start_ns_max,
        times.len() > 0 ==> times.contains(with_cold_starts(zeroed(), times).cold_start_ns_max),
    decreases times.len(),
{
    lemma_total_bound(times);
    assert(times.len() * u64::MAX <= u128::MAX) by (nonlinear_arith)
        requires
            times.len() <= u64::MAX,
    ;
    if times.len() > 0 {
        let earlier = times.drop_last();
        law_cold_start_summary(earlier);
        let before = with_cold_starts(zeroed(), earlier).cold_start_ns_max;
        let now = with_cold_starts(zeroed(), times).cold_start_ns_max;
        assert(times[times.len() - 1] == times.last());
        if now == before && earlier.len() > 0 {
            let i = choose|i: int| 0 <= i < earlier.len() && earlier[i] == before;
            assert(times[i] == now);
        }
        assert forall|i: int| 0 <= i < times.len() implies #[trigger] times[i] <= now by {
            if i < earlier.len() {
                assert(earlier[i] == times[i]);
            }
        }
    }
}

proof fn lemma_total_bound(times: Seq<u64>)
    ensures
        total(times) <= times.len() * u64::MAX,
    decreases times.len(),
{
    if times.len() > 0 {
        lemma_total_bound(times.drop_last());
        assert((times.len() - 1) * u64::MAX + u64::MAX == times.len() * u64::MAX)
            by (nonlinear_arith);
    }
}

/// The counters of a tenant are its own. They start at zero, stay as they were
/// left, and no change of one tenant's counters shows in another's.
pub proof fn law_counters_are_kept_apart(
    metrics: &mut Metrics,
    tenant: &str,
    entry: &mut TenantMetrics,
    other: Seq<char>,
)
    requires
        call_ensures(Metrics::entry, (metrics, tenant), entry),
        other != tenant@,
    ensures
        old(metrics)@.contains_key(tenant@) ==> *old(entry) == old(metrics)@[tenant@],
        !old(metrics)@.contains_key(tenant@) ==> {
            &&& old(entry).requests == 0
            &&& old(entry).errors == 0
            &&& old(entry).cold_starts == 0
            &&& old(entry).warm_hits == 0
            &&& old(entry).evictions == 0
            &&& old(entry).cold_start_ns_last == 0
            &&& old(entry).cold_start_ns_max == 0
            &&& old(entry).cold_start_ns_sum == 0
            &&& old(entry).terminations_cpu == 0
            &&& old(entry).terminations_mem == 0
        },
        final(metrics)@.contains_key(tenant@),
        final(metrics)@[tenant@] == *final(entry),
        final(metrics)@.contains_key(other) == old(metrics)@.contains_key(other),
        final(metrics)@[other] == old(metrics)@[other],
{
}

/// A snapshot lists exactly the tenants that anything happened to, each of them
/// once and with its counters.
pub proof fn law_snapshots_are_complete(
    metrics: Metrics,
    list: Vec<(String, TenantMetrics)>,
    tenant: Seq<char>,
)
    requires
        call_ensures(Metrics::snapshot, (&metrics,), list),
    ensures
        metrics@.contains_key(tenant) <==> exists|i: int|
            0 <= i < list@.len() && (#[trigger] list@[i]).0@ == tenant,
        forall|i: int|
            0 <= i < list@.len() && (#[trigger] list@[i]).0@ == tenant ==> list@[i].1
                == metrics@[tenant],
        forall|i: int, j: int|
            0 <= i < j < list@.len() ==> (#[trigger] list@[i]).0@ != (#[trigger] list@[j]).0@,
{
    let all = named(list@);
    assert forall|i: int| 0 <= i < list@.len() implies all[i] == (
        (#[trigger] list@[i]).0@,
        list@[i].1,
    ) by {}
    assert forall|i: int, j: int| 0 <= i < j < list@.len() implies (#[trigger] list@[i]).0@ != (
    #[trigger] list@[j]).0@ by {
        assert(all[i].0 != all[j].0);
    }
    if metrics@.contains_key(tenant) {
        let i = slot(all, tenant);
        assert(holds(all, tenant));
        assert(0 <= i < all.len() && all[i].0 == tenant);
        assert(list@[i].0@ == tenant);
    }
    assert forall|i: int| 0 <= i < list@.len() && (#[trigger] list@[i]).0@
        == tenant implies metrics@.contains_key(tenant) && list@[i].1 == metrics@[tenant] by {
        lemma_slot(all, tenant, i);
        assert(as_map(all).contains_key(tenant));
    }
}

/// A cold start is counted with the time that it took, and nothing else is.
pub proof fn law_cold_starts_are_timed(metrics: &mut TenantMetrics, ns: u64)
    requires
        old(metrics).cold_starts < u64::MAX,
        old(metrics).cold_start_ns_sum <= u128::MAX - u64::MAX,
        call_ensures(TenantMetrics::record_cold_start, (metrics, ns), ()),
    ensures
        final(metrics).cold_starts == old(metrics).cold_starts + 1,
        final(metrics).cold_start_ns_last == ns,
        final(metrics).cold_start_ns_sum == old(metrics).cold_start_ns_sum + ns,
        final(metrics).cold_start_ns_max >= ns,
        final(metrics).cold_start_ns_max >= old(metrics).cold_start_ns_max,
        final(metrics).cold_start_ns_max == ns || final(metrics).cold_start_ns_max
            == old(metrics).cold_start_ns_max,
        final(metrics).requests == old(metrics).requests,
        final(metrics).errors == old(metrics).errors,
        final(metrics).warm_hits == old(metrics).warm_hits,
        final(metrics).evictions == old(metrics).evictions,
        final(metrics).terminations_cpu == old(metrics).terminations_cpu,
        final(metrics).terminations_mem == old(metrics).terminations_mem,
{
}

/// Nothing is counted at first.
pub proof fn law_nothing_is_counted_at_first(
    metrics: Metrics,
    count: TenantMetrics,
    tenant: Seq<char>,
)
    requires
        call_ensures(<Metrics as Default>::default, (), metrics),
        call_ensures(<TenantMetrics as Default>::default, (), count),
    ensures
        !metrics@.contains_key(tenant),
        count.requests == 0,
        count.errors == 0,
        count.cold_starts == 0,
        count.warm_hits == 0,
        count.evictions == 0,
        count.cold_start_ns_last == 0,
        count.cold_start_ns_max == 0,
        count.cold_start_ns_sum == 0,
        count.terminations_cpu == 0,
        count.terminations_mem == 0,
{
}

/// A tenant has room as long as none of its counters is full; an unknown one has.
pub proof fn law_counters_have_room_until_full(
    metrics: Metrics,
    tenant: &str,
    yes: bool,
)
    requires
        call_ensures(Metrics::has_room_for, (&metrics, tenant), yes),
    ensures
        !metrics@.contains_key(tenant@) ==> yes,
        metrics@.contains_key(tenant@) ==> {
            let count = metrics@[tenant@];
            yes <==> count.requests < u64::MAX && count.errors < u64::MAX && count.cold_starts
                < u64::MAX && count.warm_hits < u64::MAX && count.evictions < u64::MAX
                && count.terminations_cpu < u64::MAX && count.terminations_mem < u64::MAX
                && count.cold_start_ns_sum <= u128::MAX - u64::MAX
        },
{
}

/// What changes the counters of one tenant is applied to them as they were, and
/// leaves those of all others.
pub proof fn law_changes_are_kept_apart<F: FnOnce(&mut TenantMetrics)>(
    metrics: &mut Metrics,
    tenant: &str,
    f: F,
    other: Seq<char>,
)
    requires
        call_ensures(Metrics::with::<F>, (metrics, tenant, f), ()),
        other != tenant@,
    ensures
        final(metrics)@.contains_key(tenant@),
        exists|count: &mut TenantMetrics|
            {
                &&& #[trigger] call_ensures(f, (count,), ())
                &&& old(metrics)@.contains_key(tenant@) ==> *count == old(metrics)@[tenant@]
                &&& final(metrics)@[tenant@] == *final(count)
            },
        final(metrics)@.contains_key(other) == old(metrics)@.contains_key(other),
        final(metrics)@[other] == old(metrics)@[other],
{
}

} // verus!
