//! The pool of warm workers that one worker thread owns.
//!
//! The pool is bounded and forgets the least recently used worker first. It is
//! generic in the worker so that it needs no JavaScript engine: a few entries
//! per thread are expected, and a linear search over them is enough.

use vstd::prelude::*;

use crate::text::same_text;

verus! {

/// A bounded map from tenant names to warm workers that evicts in LRU order.
///
/// The view is the sequence of (name, worker) pairs, the least recently used
/// one first.
pub struct Pool<W> {
    capacity: usize,
    entries: Vec<Entry<W>>,
}

struct Entry<W> {
    tenant: String,
    worker: W,
}

impl<W> View for Pool<W> {
    type V = Seq<(Seq<char>, W)>;

    closed spec fn view(&self) -> Seq<(Seq<char>, W)> {
        self.entries@.map_values(|entry: Entry<W>| (entry.tenant@, entry.worker))
    }
}

/// Whether `tenant` has a warm worker among `warm`.
pub open spec fn holds<W>(warm: Seq<(Seq<char>, W)>, tenant: Seq<char>) -> bool {
    exists|i: int| 0 <= i < warm.len() && #[trigger] warm[i].0 == tenant
}

/// Where the warm worker of `tenant` stands.
pub open spec fn slot<W>(warm: Seq<(Seq<char>, W)>, tenant: Seq<char>) -> int
    recommends
        holds(warm, tenant),
{
    choose|i: int| 0 <= i < warm.len() && #[trigger] warm[i].0 == tenant
}

/// No tenant occurs twice.
pub open spec fn distinct<W>(warm: Seq<(Seq<char>, W)>) -> bool {
    forall|i: int, j: int|
        0 <= i < j < warm.len() ==> #[trigger] warm[i].0 != #[trigger] warm[j].0
}

/// `warm` without the entry of `tenant`, if there is one.
pub open spec fn without<W>(warm: Seq<(Seq<char>, W)>, tenant: Seq<char>) -> Seq<(Seq<char>, W)> {
    if holds(warm, tenant) {
        warm.remove(slot(warm, tenant))
    } else {
        warm
    }
}

/// The entry that has to leave before `tenant` comes in: where that would exceed
/// the capacity, the least recently used one.
pub open spec fn victim<W>(
    warm: Seq<(Seq<char>, W)>,
    capacity: nat,
    tenant: Seq<char>,
) -> Option<(Seq<char>, W)> {
    if !holds(warm, tenant) && 0 < warm.len() && capacity <= warm.len() {
        Some(warm.first())
    } else {
        None
    }
}

/// What is left of `warm` once the victim has gone.
pub open spec fn survivors<W>(
    warm: Seq<(Seq<char>, W)>,
    capacity: nat,
    tenant: Seq<char>,
) -> Seq<(Seq<char>, W)> {
    if victim(warm, capacity, tenant) is Some {
        warm.drop_first()
    } else {
        warm
    }
}

/// The pool after an insertion: the victim is gone, and the new worker, which
/// takes the place of an earlier one of that tenant, was used last.
pub open spec fn inserted<W>(
    warm: Seq<(Seq<char>, W)>,
    capacity: nat,
    tenant: Seq<char>,
    worker: W,
) -> Seq<(Seq<char>, W)> {
    without(survivors(warm, capacity, tenant), tenant).push((tenant, worker))
}

/// The pool after a successful lookup that leaves `worker` in the pool.
pub open spec fn touched<W>(
    warm: Seq<(Seq<char>, W)>,
    tenant: Seq<char>,
    worker: W,
) -> Seq<(Seq<char>, W)> {
    without(warm, tenant).push((tenant, worker))
}

/// Where no tenant occurs twice, an entry of `tenant` is the one that `slot` names.
pub proof fn lemma_slot<W>(warm: Seq<(Seq<char>, W)>, tenant: Seq<char>, i: int)
    requires
        distinct(warm),
        0 <= i < warm.len(),
        warm[i].0 == tenant,
    ensures
        holds(warm, tenant),
        slot(warm, tenant) == i,
{
    let j = slot(warm, tenant);
    assert(0 <= j < warm.len() && warm[j].0 == tenant);
    if i < j {
        assert(warm[i].0 != warm[j].0);
    } else if j < i {
        assert(warm[j].0 != warm[i].0);
    }
}

/// Removal keeps tenants distinct, drops `tenant` and keeps everyone else.
pub proof fn lemma_without<W>(warm: Seq<(Seq<char>, W)>, tenant: Seq<char>)
    requires
        distinct(warm),
    ensures
        distinct(without(warm, tenant)),
        !holds(without(warm, tenant), tenant),
        without(warm, tenant).len() == warm.len() - if holds(warm, tenant) { 1int } else { 0int },
        forall|other: Seq<char>|
            other != tenant ==> #[trigger] holds(without(warm, tenant), other) == holds(
                warm,
                other,
            ),
        forall|other: Seq<char>|
            other != tenant && #[trigger] holds(warm, other) ==> warm[slot(warm, other)]
                == without(warm, tenant)[slot(without(warm, tenant), other)],
{
    let rest = without(warm, tenant);
    if holds(warm, tenant) {
        let k = slot(warm, tenant);
        assert(0 <= k < warm.len() && warm[k].0 == tenant);
        assert forall|i: int, j: int| 0 <= i < j < rest.len() implies #[trigger] rest[i].0
            != #[trigger] rest[j].0 by {
            let p = if i < k { i } else { i + 1 };
            let q = if j < k { j } else { j + 1 };
            assert(rest[i] == warm[p] && rest[j] == warm[q]);
        }
        assert forall|i: int| 0 <= i < rest.len() implies (#[trigger] rest[i]).0 != tenant by {
            let p = if i < k { i } else { i + 1 };
            assert(rest[i] == warm[p]);
            lemma_slot(warm, tenant, k);
            if warm[p].0 == tenant {
                lemma_slot(warm, tenant, p);
            }
        }
        assert forall|other: Seq<char>| other != tenant implies #[trigger] holds(rest, other)
            == holds(warm, other) by {
            if holds(warm, other) {
                let p = slot(warm, other);
                assert(0 <= p < warm.len() && warm[p].0 == other);
                let i = if p < k { p } else { p - 1 };
                assert(rest[i] == warm[p]);
            }
            if holds(rest, other) {
                let i = slot(rest, other);
                assert(0 <= i < rest.len() && rest[i].0 == other);
                let p = if i < k { i } else { i + 1 };
                assert(rest[i] == warm[p]);
            }
        }
        assert forall|other: Seq<char>| other != tenant && #[trigger] holds(
            warm,
            other,
        ) implies warm[slot(warm, other)] == rest[slot(rest, other)] by {
            let p = slot(warm, other);
            assert(0 <= p < warm.len() && warm[p].0 == other);
            let i = if p < k { p } else { p - 1 };
            assert(rest[i] == warm[p]);
            lemma_slot(rest, other, i);
        }
    }
}

/// What an insertion keeps: tenants stay distinct, the bound holds, and the
/// new worker is found again.
pub proof fn lemma_inserted<W>(
    warm: Seq<(Seq<char>, W)>,
    capacity: nat,
    tenant: Seq<char>,
    worker: W,
)
    requires
        distinct(warm),
        1 <= capacity,
        warm.len() <= capacity,
    ensures
        distinct(inserted(warm, capacity, tenant, worker)),
        inserted(warm, capacity, tenant, worker).len() <= capacity,
        holds(inserted(warm, capacity, tenant, worker), tenant),
        inserted(warm, capacity, tenant, worker)[slot(
            inserted(warm, capacity, tenant, worker),
            tenant,
        )].1 == worker,
{
    let kept = survivors(warm, capacity, tenant);
    lemma_without(kept, tenant);
    lemma_pushed(without(kept, tenant), tenant, worker);
}

/// A tenant that is not there yet can be appended.
pub proof fn lemma_pushed<W>(warm: Seq<(Seq<char>, W)>, tenant: Seq<char>, worker: W)
    requires
        distinct(warm),
        !holds(warm, tenant),
    ensures
        distinct(warm.push((tenant, worker))),
        holds(warm.push((tenant, worker)), tenant),
        slot(warm.push((tenant, worker)), tenant) == warm.len(),
        forall|other: Seq<char>|
            other != tenant ==> #[trigger] holds(warm.push((tenant, worker)), other) == holds(
                warm,
                other,
            ),
        forall|other: Seq<char>|
            other != tenant && #[trigger] holds(warm, other) ==> warm[slot(warm, other)]
                == warm.push((tenant, worker))[slot(warm.push((tenant, worker)), other)],
{
    let more = warm.push((tenant, worker));
    assert forall|i: int, j: int| 0 <= i < j < more.len() implies #[trigger] more[i].0
        != #[trigger] more[j].0 by {
        assert(more[i] == warm[i]);
        if j < warm.len() {
            assert(more[j] == warm[j]);
        }
    }
    lemma_slot(more, tenant, warm.len() as int);
    assert forall|other: Seq<char>| other != tenant implies #[trigger] holds(more, other) == holds(
        warm,
        other,
    ) by {
        if holds(warm, other) {
            let p = slot(warm, other);
            assert(0 <= p < warm.len() && warm[p].0 == other);
            assert(more[p] == warm[p]);
        }
        if holds(more, other) {
            let p = slot(more, other);
            assert(0 <= p < more.len() && more[p].0 == other);
            assert(more[p] == warm[p]);
        }
    }
    assert forall|other: Seq<char>| other != tenant && #[trigger] holds(
        warm,
        other,
    ) implies warm[slot(warm, other)] == more[slot(more, other)] by {
        let p = slot(warm, other);
        assert(0 <= p < warm.len() && warm[p].0 == other);
        assert(more[p] == warm[p]);
        lemma_slot(more, other, p);
    }
}

impl<W> Pool<W> {
    /// How many workers the pool holds at most.
    pub closed spec fn capacity(&self) -> nat {
        self.capacity as nat
    }

    /// There is room for one worker, the bound is kept and no tenant occurs twice.
    pub open spec fn wf(&self) -> bool {
        &&& 1 <= self.capacity()
        &&& self@.len() <= self.capacity()
        &&& distinct(self@)
    }

    /// An empty pool for `capacity` workers, but for at least one.
    pub fn new(capacity: usize) -> (pool: Self)
        ensures
            pool.wf(),
            pool@ == Seq::<(Seq<char>, W)>::empty(),
            pool.capacity() == if capacity == 0 { 1 } else { capacity as nat },
    {
        let pool = Pool {
            capacity: if capacity == 0 { 1 } else { capacity },
            entries: Vec::new(),
        };
        proof {
            assert(pool@ =~= Seq::<(Seq<char>, W)>::empty());
        }
        pool
    }

    /// Where `tenant` stands in `entries`.
    fn find(&self, tenant: &str) -> (position: Option<usize>)
        ensures
            match position {
                Some(i) => i < self@.len() && self@[i as int].0 == tenant@,
                None => !holds(self@, tenant@),
            },
            self@.len() == self.entries@.len(),
    {
        for i in 0..self.entries.len()
            invariant
                forall|j: int| 0 <= j < i ==> (#[trigger] self@[j]).0 != tenant@,
        {
            proof {
                assert(self@[i as int].0 == self.entries@[i as int].tenant@);
            }
            if same_text(self.entries[i].tenant.as_str(), tenant) {
                return Some(i);
            }
        }
        None
    }

    /// The warm worker of `tenant`, which is now the most recently used one.
    pub fn get(&mut self, tenant: &str) -> (worker: Option<&mut W>)
        requires
            old(self).wf(),
        ensures
            final(self).capacity() == old(self).capacity(),
            match worker {
                Some(w) => {
                    &&& holds(old(self)@, tenant@)
                    &&& *w == old(self)@[slot(old(self)@, tenant@)].1
                    &&& final(self)@ == touched(old(self)@, tenant@, *final(w))
                },
                None => !holds(old(self)@, tenant@) && final(self)@ == old(self)@,
            },
            final(self).wf(),
    {
        match self.find(tenant) {
            Some(i) => {
                let ghost before = self@;
                let entry = self.entries.remove(i);
                self.entries.push(entry);
                let last: usize = self.entries.len() - 1;
                proof {
                    lemma_slot(before, tenant@, i as int);
                    lemma_without(before, tenant@);
                    lemma_pushed(without(before, tenant@), tenant@, entry.worker);
                    assert(self@ =~= touched(before, tenant@, entry.worker));
                    let moved = self.entries@;
                    assert forall|j: int, k: int| 0 <= j < k < moved.len() implies (
                    #[trigger] moved[j]).tenant@ != (#[trigger] moved[k]).tenant@ by {
                        assert(self@[j].0 != self@[k].0);
                    }
                }
                Some(&mut self.entries[last].worker)
            },
            None => None,
        }
    }

    /// Whose worker would have to leave before one for `tenant` comes in.
    pub fn would_evict(&self, tenant: &str) -> (leaver: Option<&str>)
        requires
            self.wf(),
        ensures
            match leaver {
                Some(name) => {
                    &&& victim(self@, self.capacity(), tenant@) is Some
                    &&& (victim(self@, self.capacity(), tenant@)->0).0 == name@
                },
                None => victim(self@, self.capacity(), tenant@) is None,
            },
    {
        match self.find(tenant) {
            Some(_) => None,
            None => if self.entries.len() >= self.capacity {
                proof {
                    assert(self@[0].0 == self.entries@[0].tenant@);
                }
                Some(self.entries[0].tenant.as_str())
            } else {
                None
            },
        }
    }

    /// Adds `worker` for `tenant`. Where that would exceed the capacity, the
    /// least recently used entry is evicted first and handed back; a worker that
    /// takes the place of an earlier one of its tenant exceeds nothing.
    pub fn insert(&mut self, tenant: String, worker: W) -> (evicted: Option<(String, W)>)
        requires
            old(self).wf(),
        ensures
            final(self).wf(),
            final(self).capacity() == old(self).capacity(),
            final(self)@ == inserted(old(self)@, old(self).capacity(), tenant@, worker),
            match evicted {
                Some(e) => victim(old(self)@, old(self).capacity(), tenant@) == Some((e.0@, e.1)),
                None => victim(old(self)@, old(self).capacity(), tenant@) is None,
            },
    {
        let evicted = if self.would_evict(tenant.as_str()).is_some() {
            self.evict_lru()
        } else {
            None
        };
        proof {
            lemma_inserted(old(self)@, self.capacity(), tenant@, worker);
            assert(self@ =~= survivors(old(self)@, self.capacity(), tenant@));
        }
        let replaced = self.remove(tenant.as_str());
        self.entries.push(Entry { tenant, worker });
        proof {
            assert(self@ =~= inserted(old(self)@, old(self).capacity(), tenant@, worker));
        }
        evicted
    }

    /// Takes the worker of `tenant` out of the pool.
    pub fn remove(&mut self, tenant: &str) -> (worker: Option<W>)
        requires
            old(self).wf(),
        ensures
            final(self).wf(),
            final(self).capacity() == old(self).capacity(),
            final(self)@ == without(old(self)@, tenant@),
            match worker {
                Some(w) => holds(old(self)@, tenant@) && w == old(self)@[slot(
                    old(self)@,
                    tenant@,
                )].1,
                None => !holds(old(self)@, tenant@),
            },
    {
        proof {
            lemma_without(self@, tenant@);
        }
        match self.find(tenant) {
            Some(i) => {
                proof {
                    lemma_slot(self@, tenant@, i as int);
                }
                let entry = self.entries.remove(i);
                proof {
                    assert(self@ =~= without(old(self)@, tenant@));
                }
                Some(entry.worker)
            },
            None => None,
        }
    }

    /// How many workers are warm.
    pub fn len(&self) -> (count: usize)
        ensures
            count == self@.len(),
    {
        self.entries.len()
    }

    /// Whether no worker is warm.
    pub fn is_empty(&self) -> (empty: bool)
        ensures
            empty == (self@.len() == 0),
    {
        self.entries.len() == 0
    }

    /// Takes out the least recently used entry.
    fn evict_lru(&mut self) -> (evicted: Option<(String, W)>)
        requires
            old(self).wf(),
        ensures
            final(self).wf(),
            final(self).capacity() == old(self).capacity(),
            match evicted {
                Some(e) => {
                    &&& 0 < old(self)@.len()
                    &&& old(self)@.first() == (e.0@, e.1)
                    &&& final(self)@ == old(self)@.drop_first()
                },
                None => old(self)@.len() == 0 && final(self)@ == old(self)@,
            },
    {
        if self.entries.len() == 0 {
            return None;
        }
        let entry = self.entries.remove(0);
        proof {
            assert(self@ =~= old(self)@.drop_first());
        }
        Some((entry.tenant, entry.worker))
    }
}

/// One call on a pool, with what it leaves behind.
pub enum PoolCall<W> {
    /// A lookup; the worker that is found is left as given.
    Get(Seq<char>, W),
    /// An insertion.
    Insert(Seq<char>, W),
    /// A removal.
    Remove(Seq<char>),
}

/// The pool after one call.
pub open spec fn after_call<W>(
    warm: Seq<(Seq<char>, W)>,
    capacity: nat,
    call: PoolCall<W>,
) -> Seq<(Seq<char>, W)> {
    match call {
        PoolCall::Get(tenant, worker) => if holds(warm, tenant) {
            touched(warm, tenant, worker)
        } else {
            warm
        },
        PoolCall::Insert(tenant, worker) => inserted(warm, capacity, tenant, worker),
        PoolCall::Remove(tenant) => without(warm, tenant),
    }
}

/// What a fresh pool holds after `calls`.
pub open spec fn after_calls<W>(capacity: nat, calls: Seq<PoolCall<W>>) -> Seq<(Seq<char>, W)>
    decreases calls.len(),
{
    if calls.len() == 0 {
        Seq::empty()
    } else {
        after_call(after_calls(capacity, calls.drop_last()), capacity, calls.last())
    }
}

/// The number of the last call that looked up or inserted `tenant`; -1 if none did.
pub open spec fn last_use<W>(calls: Seq<PoolCall<W>>, tenant: Seq<char>) -> int
    decreases calls.len(),
{
    if calls.len() == 0 {
        -1
    } else {
        match calls.last() {
            PoolCall::Get(used, _) | PoolCall::Insert(used, _) => if used == tenant {
                calls.len() - 1
            } else {
                last_use(calls.drop_last(), tenant)
            },
            PoolCall::Remove(_) => last_use(calls.drop_last(), tenant),
        }
    }
}

/// `warm` stands in the order in which `calls` last used its tenants.
pub open spec fn in_use_order<W>(warm: Seq<(Seq<char>, W)>, calls: Seq<PoolCall<W>>) -> bool {
    forall|i: int, j: int|
        0 <= i < j < warm.len() ==> last_use(calls, #[trigger] warm[i].0) < last_use(
            calls,
            #[trigger] warm[j].0,
        )
}

proof fn lemma_last_use_bound<W>(calls: Seq<PoolCall<W>>, tenant: Seq<char>)
    ensures
        -1 <= last_use(calls, tenant) < calls.len(),
    decreases calls.len(),
{
    if calls.len() > 0 {
        lemma_last_use_bound(calls.drop_last(), tenant);
    }
}

/// Whatever is called on a pool, it keeps its bound, holds no tenant twice and
/// stands in the order of last use; so the entry that an insertion evicts is
/// the one whose last use lies furthest back.
pub proof fn law_order_of_last_use<W>(capacity: nat, calls: Seq<PoolCall<W>>)
    requires
        1 <= capacity,
    ensures
        after_calls(capacity, calls).len() <= capacity,
        distinct(after_calls(capacity, calls)),
        in_use_order(after_calls(capacity, calls), calls),
    decreases calls.len(),
{
    if calls.len() > 0 {
        let earlier = calls.drop_last();
        let warm = after_calls(capacity, earlier);
        let now = after_calls(capacity, calls);
        law_order_of_last_use(capacity, earlier);
        match calls.last() {
            PoolCall::Get(tenant, worker) => {
                if holds(warm, tenant) {
                    lemma_without(warm, tenant);
                    lemma_pushed(without(warm, tenant), tenant, worker);
                    lemma_use_order(warm, earlier, calls, tenant, worker);
                } else {
                    assert(now == warm);
                    assert forall|i: int, j: int| 0 <= i < j < now.len() implies last_use(
                        calls,
                        #[trigger] now[i].0,
                    ) < last_use(calls, #[trigger] now[j].0) by {
                        assert(warm[i].0 != tenant && warm[j].0 != tenant);
                    }
                }
            },
            PoolCall::Insert(tenant, worker) => {
                lemma_inserted(warm, capacity, tenant, worker);
                let kept = survivors(warm, capacity, tenant);
                assert forall|i: int, j: int| 0 <= i < j < kept.len() implies last_use(
                    earlier,
                    #[trigger] kept[i].0,
                ) < last_use(earlier, #[trigger] kept[j].0) by {
                    let d: int = if victim(warm, capacity, tenant) is Some { 1 } else { 0 };
                    assert(kept[i] == warm[i + d] && kept[j] == warm[j + d]);
                }
                lemma_use_order(kept, earlier, calls, tenant, worker);
            },
            PoolCall::Remove(tenant) => {
                lemma_without(warm, tenant);
                assert forall|i: int, j: int| 0 <= i < j < now.len() implies last_use(
                    calls,
                    #[trigger] now[i].0,
                ) < last_use(calls, #[trigger] now[j].0) by {
                    if holds(warm, tenant) {
                        let k = slot(warm, tenant);
                        let p = if i < k { i } else { i + 1 };
                        let q = if j < k { j } else { j + 1 };
                        assert(now[i] == warm[p] && now[j] == warm[q]);
                    }
                }
            },
        }
    }
}

/// Moving or adding the tenant of the last call to the end keeps the order of last use.
proof fn lemma_use_order<W>(
    warm: Seq<(Seq<char>, W)>,
    earlier: Seq<PoolCall<W>>,
    calls: Seq<PoolCall<W>>,
    tenant: Seq<char>,
    worker: W,
)
    requires
        distinct(warm),
        calls.len() > 0,
        earlier == calls.drop_last(),
        last_use(calls, tenant) == calls.len() - 1,
        forall|other: Seq<char>|
            other != tenant ==> #[trigger] last_use(calls, other) == last_use(earlier, other),
        in_use_order(warm, earlier),
    ensures
        in_use_order(touched(warm, tenant, worker), calls),
{
    let rest = without(warm, tenant);
    let now = touched(warm, tenant, worker);
    lemma_without(warm, tenant);
    assert forall|i: int, j: int| 0 <= i < j < now.len() implies last_use(
        calls,
        #[trigger] now[i].0,
    ) < last_use(calls, #[trigger] now[j].0) by {
        assert(now[i] == rest[i]);
        assert(rest[i].0 != tenant);
        lemma_last_use_bound(earlier, now[i].0);
        if j < rest.len() {
            assert(now[j] == rest[j]);
            assert(rest[j].0 != tenant);
            if holds(warm, tenant) {
                let k = slot(warm, tenant);
                let p = if i < k { i } else { i + 1 };
                let q = if j < k { j } else { j + 1 };
                assert(rest[i] == warm[p] && rest[j] == warm[q]);
            }
        }
    }
}

/// A worker that was just used is still warm after the next insertion, if the
/// pool has room for two.
pub proof fn law_recent_use_survives<W>(
    warm: Seq<(Seq<char>, W)>,
    capacity: nat,
    tenant: Seq<char>,
    worker: W,
    newcomer: Seq<char>,
    other: W,
)
    requires
        distinct(warm),
        2 <= capacity,
        warm.len() <= capacity,
        holds(warm, tenant),
    ensures
        holds(inserted(touched(warm, tenant, worker), capacity, newcomer, other), tenant),
        victim(touched(warm, tenant, worker), capacity, newcomer) != Some((tenant, worker)),
{
    let now = touched(warm, tenant, worker);
    lemma_without(warm, tenant);
    lemma_pushed(without(warm, tenant), tenant, worker);
    let kept = survivors(now, capacity, newcomer);
    let last = kept.len() - 1;
    assert(kept[last] == (tenant, worker));
    lemma_without(kept, newcomer);
    lemma_pushed(without(kept, newcomer), newcomer, other);
    assert(holds(kept, tenant));
    if victim(now, capacity, newcomer) is Some {
        assert(now[0].0 != now[now.len() - 1].0);
    }
}

/// Only what exceeds the capacity costs anyone a worker: a worker that takes the
/// place of an earlier one of its tenant leaves all others warm, and so does one
/// that comes into a pool with room left.
pub proof fn law_only_excess_evicts<W>(
    warm: Seq<(Seq<char>, W)>,
    capacity: nat,
    tenant: Seq<char>,
    worker: W,
    other: Seq<char>,
)
    requires
        distinct(warm),
        holds(warm, tenant) || warm.len() < capacity,
        other != tenant,
        holds(warm, other),
    ensures
        victim(warm, capacity, tenant) is None,
        holds(inserted(warm, capacity, tenant, worker), other),
        inserted(warm, capacity, tenant, worker)[slot(
            inserted(warm, capacity, tenant, worker),
            other,
        )] == warm[slot(warm, other)],
        inserted(warm, capacity, tenant, worker).len() == if holds(warm, tenant) {
            warm.len()
        } else {
            warm.len() + 1
        },
{
    lemma_without(warm, tenant);
    lemma_pushed(without(warm, tenant), tenant, worker);
    assert(holds(without(warm, tenant), other));
}

/// A full pool makes room for a new tenant by giving up the least recently used
/// worker. Whatever was called before, every worker that stays was used later
/// than the one that leaves, stays as it is, and is the worker of its tenant; and
/// the one that leaves is handed back. Where the pool has room, or the tenant
/// has a worker already, nobody leaves.
pub proof fn law_least_recently_used_leaves<W>(
    calls: Seq<PoolCall<W>>,
    pool: &mut Pool<W>,
    tenant: String,
    worker: W,
    evicted: Option<(String, W)>,
)
    requires
        old(pool).wf(),
        old(pool)@ == after_calls(old(pool).capacity(), calls),
        call_ensures(Pool::<W>::insert, (pool, tenant, worker), evicted),
    ensures
        evicted is Some <==> old(pool)@.len() == old(pool).capacity() && !holds(
            old(pool)@,
            tenant@,
        ),
        evicted is Some ==> {
            let (name, gone) = evicted->0;
            &&& holds(old(pool)@, name@)
            &&& old(pool)@[slot(old(pool)@, name@)].1 == gone
            &&& !holds(final(pool)@, name@)
            &&& forall|other: Seq<char>| #[trigger]
                holds(old(pool)@, other) && other != name@ ==> last_use(calls, name@) < last_use(
                    calls,
                    other,
                )
        },
        forall|other: Seq<char>|
            other != tenant@ ==> #[trigger] holds(final(pool)@, other) == (holds(
                old(pool)@,
                other,
            ) && !(evicted is Some && (evicted->0).0@ == other)),
        forall|other: Seq<char>|
            other != tenant@ && #[trigger] holds(final(pool)@, other) ==> final(pool)@[slot(
                final(pool)@,
                other,
            )] == old(pool)@[slot(old(pool)@, other)],
        holds(final(pool)@, tenant@),
        final(pool)@[slot(final(pool)@, tenant@)].1 == worker,
        final(pool)@.len() <= final(pool).capacity(),
        final(pool).capacity() == old(pool).capacity(),
{
    let warm = old(pool)@;
    let capacity = old(pool).capacity();
    law_order_of_last_use(capacity, calls);
    lemma_inserted(warm, capacity, tenant@, worker);
    let left = survivors(warm, capacity, tenant@);
    if evicted is Some {
        let name = (evicted->0).0@;
        assert(warm[0].0 == name);
        lemma_slot(warm, name, 0);
        assert(without(warm, name) =~= left);
        lemma_without(warm, name);
        assert forall|other: Seq<char>| #[trigger]
            holds(warm, other) && other != name implies last_use(calls, name) < last_use(
            calls,
            other,
        ) by {
            let i = slot(warm, other);
            assert(0 <= i < warm.len() && warm[i].0 == other);
            assert(last_use(calls, warm[0].0) < last_use(calls, warm[i].0));
        }
    }
    lemma_without(left, tenant@);
    lemma_pushed(without(left, tenant@), tenant@, worker);
    assert(!holds(warm, tenant@) || left == warm);
    assert forall|other: Seq<char>| other != tenant@ implies #[trigger] holds(
        final(pool)@,
        other,
    ) == (holds(warm, other) && !(evicted is Some && (evicted->0).0@ == other)) by {
        assert(holds(without(left, tenant@), other) == holds(left, other));
    }
    assert forall|other: Seq<char>| other != tenant@ && #[trigger] holds(
        final(pool)@,
        other,
    ) implies final(pool)@[slot(final(pool)@, other)] == warm[slot(warm, other)] by {
        assert(holds(without(left, tenant@), other));
        assert(holds(left, other));
    }
}

/// A lookup finds the worker of its tenant, if there is one, and may change it;
/// the workers of all others stay as they are.
pub proof fn law_lookups_find_their_worker<W>(
    pool: &mut Pool<W>,
    tenant: &str,
    worker: Option<&mut W>,
    other: Seq<char>,
)
    requires
        old(pool).wf(),
        call_ensures(Pool::<W>::get, (pool, tenant), worker),
        other != tenant@,
    ensures
        worker is Some <==> holds(old(pool)@, tenant@),
        worker is Some ==> {
            &&& *(worker->0) == old(pool)@[slot(old(pool)@, tenant@)].1
            &&& holds(final(pool)@, tenant@)
            &&& final(pool)@[slot(final(pool)@, tenant@)].1 == *final(worker->0)
        },
        worker is None ==> final(pool)@ == old(pool)@,
        holds(final(pool)@, other) == holds(old(pool)@, other),
        holds(old(pool)@, other) ==> final(pool)@[slot(final(pool)@, other)] == old(pool)@[slot(
            old(pool)@,
            other,
        )],
        final(pool)@.len() == old(pool)@.len(),
{
    if worker is Some {
        lemma_without(old(pool)@, tenant@);
        lemma_pushed(without(old(pool)@, tenant@), tenant@, *final(worker->0));
        if holds(old(pool)@, other) {
            assert(holds(without(old(pool)@, tenant@), other));
        }
        assert(holds(final(pool)@, other) == holds(without(old(pool)@, tenant@), other));
    }
}

/// A removal hands out the worker of its tenant, if there is one; the workers of
/// all others stay as they are.
pub proof fn law_removals_take_their_worker<W>(
    pool: &mut Pool<W>,
    tenant: &str,
    worker: Option<W>,
    other: Seq<char>,
)
    requires
        old(pool).wf(),
        call_ensures(Pool::<W>::remove, (pool, tenant), worker),
        other != tenant@,
    ensures
        worker is Some <==> holds(old(pool)@, tenant@),
        worker is Some ==> worker->0 == old(pool)@[slot(old(pool)@, tenant@)].1,
        !holds(final(pool)@, tenant@),
        holds(final(pool)@, other) == holds(old(pool)@, other),
        holds(old(pool)@, other) ==> final(pool)@[slot(final(pool)@, other)] == old(pool)@[slot(
            old(pool)@,
            other,
        )],
        final(pool)@.len() == old(pool)@.len() - if worker is Some { 1int } else { 0int },
{
    lemma_without(old(pool)@, tenant@);
}

/// A pool is made for as many workers as it is asked to keep, but for at least
/// one, and holds none at first.
pub proof fn law_pools_begin_empty<W>(capacity: usize, pool: Pool<W>, count: usize, empty: bool)
    requires
        call_ensures(Pool::<W>::new, (capacity,), pool),
        call_ensures(Pool::<W>::len, (&pool,), count),
        call_ensures(Pool::<W>::is_empty, (&pool,), empty),
    ensures
        count == 0,
        empty,
        capacity > 0 ==> pool.capacity() == capacity,
        capacity == 0 ==> pool.capacity() == 1,
{
}

/// Whoever is said to have to leave is the one that an insertion evicts.
pub proof fn law_evictions_are_foreseen<W>(
    pool: &mut Pool<W>,
    name: &str,
    tenant: String,
    worker: W,
    leaver: Option<&str>,
    evicted: Option<(String, W)>,
)
    requires
        old(pool).wf(),
        name@ == tenant@,
        call_ensures(Pool::<W>::would_evict, (old(pool), name), leaver),
        call_ensures(Pool::<W>::insert, (pool, tenant, worker), evicted),
    ensures
        leaver is Some <==> evicted is Some,
        leaver is Some ==> leaver->0@ == (evicted->0).0@,
{
}

/// A pool is what its calls made of it: a lookup that finds a worker makes it the
/// most recently used one, an insertion adds one at the end, and a removal takes
/// one out; the order of all others stays.
pub proof fn law_pools_follow_their_calls<W>(
    calls: Seq<PoolCall<W>>,
    pool: &mut Pool<W>,
    tenant: &str,
    found: Option<&mut W>,
    other: &mut Pool<W>,
    name: String,
    worker: W,
    evicted: Option<(String, W)>,
    third: &mut Pool<W>,
    removed: Option<W>,
)
    requires
        old(pool).wf(),
        old(pool)@ == after_calls(old(pool).capacity(), calls),
        call_ensures(Pool::<W>::get, (pool, tenant), found),
        *old(other) == *old(pool),
        call_ensures(Pool::<W>::insert, (other, name, worker), evicted),
        *old(third) == *old(pool),
        call_ensures(Pool::<W>::remove, (third, tenant), removed),
    ensures
        found is Some ==> final(pool)@ == after_calls(
            old(pool).capacity(),
            calls.push(PoolCall::Get(tenant@, *final(found->0))),
        ),
        found is Some ==> {
            &&& final(pool)@.last() == (tenant@, *final(found->0))
            &&& final(pool)@.drop_last() == old(pool)@.remove(slot(old(pool)@, tenant@))
        },
        final(other)@ == after_calls(
            old(pool).capacity(),
            calls.push(PoolCall::Insert(name@, worker)),
        ),
        final(other)@.last() == (name@, worker),
        final(third)@ == after_calls(old(pool).capacity(), calls.push(PoolCall::Remove(tenant@))),
        removed is Some ==> final(third)@ == old(pool)@.remove(slot(old(pool)@, tenant@)),
        removed is None ==> final(third)@ == old(pool)@,
{
    if found is Some {
        let call = PoolCall::Get(tenant@, *final(found->0));
        assert(calls.push(call).drop_last() =~= calls);
        assert(final(pool)@.drop_last() =~= old(pool)@.remove(slot(old(pool)@, tenant@)));
    }
    assert(calls.push(PoolCall::Insert(name@, worker)).drop_last() =~= calls);
    assert(calls.push(PoolCall::<W>::Remove(tenant@)).drop_last() =~= calls);
}

} // verus!
