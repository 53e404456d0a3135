//! Resource limits: CPU time and heap size.
//!
//! One watchdog serves the whole process. Before a slice of JavaScript runs,
//! the watchdog is armed with a handle to terminate and a deadline; after the
//! slice it is disarmed. Every arming has a generation of its own, and only
//! the disarming of that generation undoes it, so a message that arrives late
//! does no harm.
//!
//! CPU time is the sum of the time that the slices took. The time between them,
//! in which a worker waits for its operations, costs nothing.
//!
//! Points in time and spans of time are whole nanoseconds; points in time are
//! counted from any fixed origin.

use vstd::prelude::*;

use crate::tally::{lemma_tally_found, lemma_tally_positive, lemma_tally_push, lemma_tally_remove,
    lemma_tally_zero, tally};

verus! {

/// How long the watchdog sleeps while nothing is armed: one hour.
pub const IDLE_WAIT_NS: u128 = 3_600_000_000_000;

/// By how much the heap limit is raised so that a terminated script can unwind.
pub const HEAP_HEADROOM: usize = 8_388_608;

/// A message to the watchdog; `H` is a handle that can terminate a script.
#[derive(Debug, PartialEq, Eq)]
pub enum WatchdogMsg<H> {
    Arm { handle: H, deadline: u128, generation: u64 },
    Disarm { generation: u64 },
}

/// The sending side of the watchdog: it hands out generations.
#[derive(Debug, PartialEq, Eq)]
pub struct Watchdog {
    generation: u64,
}

/// The generation after `generation`. After the last one they start over.
pub open spec fn succeeding(generation: u64) -> u64 {
    if generation == u64::MAX {
        0
    } else {
        (generation + 1) as u64
    }
}

impl Watchdog {
    /// The generation of the next arming.
    pub closed spec fn next_generation(&self) -> u64 {
        self.generation
    }

    /// A watchdog that nobody has armed yet.
    pub fn new() -> (watchdog: Self)
        ensures
            watchdog.next_generation() == 0,
    {
        Watchdog { generation: 0 }
    }

    /// The message after which `handle` is terminated at `deadline`, unless it
    /// is disarmed first, and the generation to disarm.
    pub fn arm<H>(&mut self, handle: H, deadline: u128) -> (armed: (u64, WatchdogMsg<H>))
        ensures
            armed.0 == old(self).next_generation(),
            armed.1 == (WatchdogMsg::Arm {
                handle,
                deadline,
                generation: old(self).next_generation(),
            }),
            final(self).next_generation() == succeeding(old(self).next_generation()),
    {
        let generation: u64 = self.generation;
        self.generation = if generation == u64::MAX { 0 } else { generation + 1 };
        (generation, WatchdogMsg::Arm { handle, deadline, generation })
    }

    /// The message that undoes the arming with this generation.
    pub fn disarm<H>(&self, generation: u64) -> (message: WatchdogMsg<H>)
        ensures
            message == (WatchdogMsg::<H>::Disarm { generation }),
    {
        WatchdogMsg::Disarm { generation }
    }
}

/// What the watchdog is armed with.
#[derive(Debug, PartialEq, Eq)]
pub struct Armed<H> {
    pub handle: H,
    pub deadline: u128,
    pub generation: u64,
}

/// What the watchdog wakes up for.
#[derive(Debug, PartialEq, Eq)]
pub enum WatchdogEvent<H> {
    /// A message arrived.
    Message(WatchdogMsg<H>),
    /// No message arrived in time; it is `now`.
    TimedOut { now: u128 },
    /// No message can arrive any more.
    Disconnected,
}

/// What the watchdog does next.
#[derive(Debug, PartialEq, Eq)]
pub enum WatchdogAction<H> {
    /// Wait for the next event.
    Wait,
    /// Terminate the script of this handle, then wait.
    Terminate(H),
    /// End.
    Stop,
}

/// Where the earliest deadline stands, the first one of several.
pub open spec fn earliest<H>(armed: Seq<Armed<H>>) -> int
    decreases armed.len(),
{
    if armed.len() <= 1 {
        0
    } else {
        let best = earliest(armed.drop_last());
        if armed.last().deadline < armed[best].deadline {
            armed.len() - 1
        } else {
            best
        }
    }
}

/// No deadline is earlier than the earliest one.
pub proof fn lemma_earliest<H>(armed: Seq<Armed<H>>)
    requires
        armed.len() > 0,
    ensures
        0 <= earliest(armed) < armed.len(),
        forall|i: int|
            0 <= i < armed.len() ==> armed[earliest(armed)].deadline <= (
            #[trigger] armed[i]).deadline,
    decreases armed.len(),
{
    if armed.len() > 1 {
        let rest = armed.drop_last();
        lemma_earliest(rest);
        assert(rest[earliest(rest)] == armed[earliest(rest)]);
        assert forall|i: int| 0 <= i < armed.len() implies armed[earliest(armed)].deadline <= (
        #[trigger] armed[i]).deadline by {
            if i < rest.len() {
                assert(rest[i] == armed[i]);
            }
        }
    }
}

/// The armings of other generations.
pub open spec fn spared<H>(armed: Seq<Armed<H>>, generation: u64) -> Seq<Armed<H>>
    decreases armed.len(),
{
    if armed.len() == 0 {
        armed
    } else {
        let rest = spared(armed.drop_last(), generation);
        if armed.last().generation == generation {
            rest
        } else {
            rest.push(armed.last())
        }
    }
}

/// The arming that is over because of `event`: the one with the earliest
/// deadline, if a wait ended at that deadline or later.
pub open spec fn shot<H>(armed: Seq<Armed<H>>, event: WatchdogEvent<H>) -> Option<Armed<H>> {
    match event {
        WatchdogEvent::TimedOut { now } => if armed.len() > 0 && armed[earliest(armed)].deadline
            <= now {
            Some(armed[earliest(armed)])
        } else {
            None
        },
        _ => None,
    }
}

/// What the watchdog is armed with after an event, and what it does.
pub open spec fn watched<H>(
    armed: Seq<Armed<H>>,
    event: WatchdogEvent<H>,
) -> (Seq<Armed<H>>, WatchdogAction<H>) {
    match event {
        WatchdogEvent::Message(WatchdogMsg::Arm { handle, deadline, generation }) => (
            armed.push(Armed { handle, deadline, generation }),
            WatchdogAction::Wait,
        ),
        WatchdogEvent::Message(WatchdogMsg::Disarm { generation }) => (
            spared(armed, generation),
            WatchdogAction::Wait,
        ),
        WatchdogEvent::TimedOut { .. } => match shot(armed, event) {
            Some(due) => (
                armed.remove(earliest(armed)),
                WatchdogAction::Terminate(due.handle),
            ),
            None => (armed, WatchdogAction::Wait),
        },
        WatchdogEvent::Disconnected => (armed, WatchdogAction::Stop),
    }
}

/// The receiving side of the watchdog. Any number of scripts run at a time, so
/// it keeps all armings that were neither disarmed nor ended in a termination.
#[derive(Debug, PartialEq, Eq)]
pub struct WatchdogLoop<H> {
    armed: Vec<Armed<H>>,
}

impl<H> WatchdogLoop<H> {
    /// What the watchdog is armed with, in the order of the armings.
    pub closed spec fn armed(&self) -> Seq<Armed<H>> {
        self.armed@
    }

    /// A watchdog that is not armed.
    pub fn new() -> (watchdog: Self)
        ensures
            watchdog.armed() == Seq::<Armed<H>>::empty(),
    {
        WatchdogLoop { armed: Vec::new() }
    }

    /// Where the earliest deadline stands.
    fn find_earliest(&self) -> (at: usize)
        requires
            self.armed().len() > 0,
        ensures
            at == earliest(self.armed()),
            at < self.armed().len(),
    {
        let mut best: usize = 0;
        for i in 1..self.armed.len()
            invariant
                self.armed@.len() > 0,
                best < i,
                best == earliest(self.armed@.take(i as int)),
        {
            proof {
                assert(self.armed@.take(i + 1).drop_last() =~= self.armed@.take(i as int));
                assert(self.armed@.take(i + 1).last() == self.armed@[i as int]);
                assert(self.armed@.take(i + 1)[best as int] == self.armed@[best as int]);
            }
            if self.armed[i].deadline < self.armed[best].deadline {
                best = i;
            }
        }
        proof {
            assert(self.armed@.take(self.armed@.len() as int) =~= self.armed@);
        }
        best
    }

    /// How long to wait for a message: until the earliest deadline, if there is one.
    pub fn timeout(&self, now: u128) -> (wait: u128)
        ensures
            wait == if self.armed().len() == 0 {
                IDLE_WAIT_NS as int
            } else if now < self.armed()[earliest(self.armed())].deadline {
                self.armed()[earliest(self.armed())].deadline - now
            } else {
                0
            },
    {
        if self.armed.len() == 0 {
            return IDLE_WAIT_NS;
        }
        let deadline: u128 = self.armed[self.find_earliest()].deadline;
        if now < deadline {
            deadline - now
        } else {
            0
        }
    }

    /// Takes an event in. A wait may end early, so the deadline is checked
    /// before anything is terminated.
    pub fn step(&mut self, event: WatchdogEvent<H>) -> (action: WatchdogAction<H>)
        ensures
            (final(self).armed(), action) == watched(old(self).armed(), event),
    {
        match event {
            WatchdogEvent::Message(WatchdogMsg::Arm { handle, deadline, generation }) => {
                self.armed.push(Armed { handle, deadline, generation });
                WatchdogAction::Wait
            },
            WatchdogEvent::Message(WatchdogMsg::Disarm { generation }) => {
                self.spare(generation);
                WatchdogAction::Wait
            },
            WatchdogEvent::TimedOut { now } => {
                if self.armed.len() == 0 {
                    return WatchdogAction::Wait;
                }
                let at: usize = self.find_earliest();
                if self.armed[at].deadline <= now {
                    let due = self.armed.remove(at);
                    WatchdogAction::Terminate(due.handle)
                } else {
                    WatchdogAction::Wait
                }
            },
            WatchdogEvent::Disconnected => WatchdogAction::Stop,
        }
    }

    /// Keeps the armings of other generations only.
    fn spare(&mut self, generation: u64)
        ensures
            final(self).armed() == spared(old(self).armed(), generation),
    {
        let ghost all = self.armed@;
        let mut armed: Vec<Armed<H>> = Vec::new();
        std::mem::swap(&mut armed, &mut self.armed);
        proof {
            assert(all.take(0) =~= Seq::<Armed<H>>::empty());
        }
        for due in it: armed
            invariant
                it.seq() == all,
                self.armed@ == spared(all.take(it.index()), generation),
        {
            proof {
                let k = it.index();
                assert(all.take(k + 1).drop_last() =~= all.take(k));
                assert(all.take(k + 1).last() == due);
            }
            if due.generation != generation {
                self.armed.push(due);
            }
        }
        proof {
            assert(all.take(all.len() as int) =~= all);
        }
    }
}

/// What the watchdog is armed with after `events`.
pub open spec fn armed_after<H>(
    start: Seq<Armed<H>>,
    events: Seq<WatchdogEvent<H>>,
) -> Seq<Armed<H>>
    decreases events.len(),
{
    if events.len() == 0 {
        start
    } else {
        watched(armed_after(start, events.drop_last()), events.last()).0
    }
}

/// The armings that end in a termination on `events`, in that order.
pub open spec fn terminated<H>(
    start: Seq<Armed<H>>,
    events: Seq<WatchdogEvent<H>>,
) -> Seq<Armed<H>>
    decreases events.len(),
{
    if events.len() == 0 {
        Seq::empty()
    } else {
        let earlier = terminated(start, events.drop_last());
        match shot(armed_after(start, events.drop_last()), events.last()) {
            Some(due) => earlier.push(due),
            None => earlier,
        }
    }
}

/// The message that arms the watchdog with `due`.
pub open spec fn arm_message<H>(due: Armed<H>) -> WatchdogEvent<H> {
    WatchdogEvent::Message(
        WatchdogMsg::Arm {
            handle: due.handle,
            deadline: due.deadline,
            generation: due.generation,
        },
    )
}

/// The message that disarms `generation`.
pub open spec fn disarm_message<H>(generation: u64) -> WatchdogEvent<H> {
    WatchdogEvent::Message(WatchdogMsg::Disarm { generation })
}

/// Whether `event` arms the watchdog with `generation`.
pub open spec fn arms<H>(event: WatchdogEvent<H>, generation: u64) -> bool {
    event is Message && event->0 is Arm && event->0->Arm_generation == generation
}

/// Whether `event` is a wait that ended at `deadline` or later.
pub open spec fn overdue<H>(event: WatchdogEvent<H>, deadline: u128) -> bool {
    event is TimedOut && deadline <= event->now
}

/// Nothing in `events` arms the watchdog with `generation`.
pub open spec fn no_arming<H>(events: Seq<WatchdogEvent<H>>, generation: u64) -> bool {
    forall|i: int| 0 <= i < events.len() ==> !arms(#[trigger] events[i], generation)
}

/// No wait in `events` ended at `deadline` or later.
pub open spec fn all_before<H>(events: Seq<WatchdogEvent<H>>, deadline: u128) -> bool {
    forall|i: int| 0 <= i < events.len() ==> !overdue(#[trigger] events[i], deadline)
}

/// Nothing in `events` disarms `generation`.
pub open spec fn no_disarming<H>(events: Seq<WatchdogEvent<H>>, generation: u64) -> bool {
    forall|i: int|
        0 <= i < events.len() ==> #[trigger] events[i] != disarm_message::<H>(generation)
}

/// No arming in `armed` has `generation`.
pub open spec fn unknown<H>(armed: Seq<Armed<H>>, generation: u64) -> bool {
    forall|i: int| 0 <= i < armed.len() ==> (#[trigger] armed[i]).generation != generation
}

/// Which armings have `generation`.
pub open spec fn of_generation<H>(generation: u64) -> spec_fn(Armed<H>) -> bool {
    |due: Armed<H>| due.generation == generation
}

/// Which armings have a deadline no later than `deadline`.
pub open spec fn no_later<H>(deadline: u128) -> spec_fn(Armed<H>) -> bool {
    |due: Armed<H>| due.deadline <= deadline
}

/// Which events arm the watchdog with a deadline no later than `deadline`.
pub open spec fn arming_no_later<H>(deadline: u128) -> spec_fn(WatchdogEvent<H>) -> bool {
    |event: WatchdogEvent<H>|
        event is Message && event->0 is Arm && event->0->deadline <= deadline
}

/// Which events are waits that ended at `deadline` or later.
pub open spec fn overdue_wait<H>(deadline: u128) -> spec_fn(WatchdogEvent<H>) -> bool {
    |event: WatchdogEvent<H>| overdue(event, deadline)
}

/// Whatever in `armed` has the generation of `due` is `due`.
spec fn only<H>(armed: Seq<Armed<H>>, due: Armed<H>) -> bool {
    forall|i: int|
        0 <= i < armed.len() && (#[trigger] armed[i]).generation == due.generation ==> armed[i]
            == due
}

proof fn lemma_append<H>(
    start: Seq<Armed<H>>,
    first: Seq<WatchdogEvent<H>>,
    more: Seq<WatchdogEvent<H>>,
)
    ensures
        armed_after(start, first + more) == armed_after(armed_after(start, first), more),
        terminated(start, first + more) == terminated(start, first) + terminated(
            armed_after(start, first),
            more,
        ),
    decreases more.len(),
{
    if more.len() == 0 {
        assert(first + more =~= first);
        assert(terminated(start, first) + Seq::<Armed<H>>::empty() =~= terminated(start, first));
    } else {
        lemma_append(start, first, more.drop_last());
        assert((first + more).drop_last() =~= first + more.drop_last());
        assert((first + more).last() == more.last());
        let mid = armed_after(start, first);
        if shot(armed_after(mid, more.drop_last()), more.last()) is Some {
            assert(terminated(start, first + more) =~= terminated(start, first) + terminated(
                mid,
                more,
            ));
        }
    }
}

proof fn lemma_one_event<H>(start: Seq<Armed<H>>, event: WatchdogEvent<H>)
    ensures
        armed_after(start, seq![event]) == watched(start, event).0,
        terminated(start, seq![event]) == match shot(start, event) {
            Some(due) => seq![due],
            None => Seq::empty(),
        },
{
    reveal_with_fuel(armed_after, 2);
    reveal_with_fuel(terminated, 2);
    assert(seq![event].drop_last() =~= Seq::<WatchdogEvent<H>>::empty());
    if shot(start, event) is Some {
        assert(Seq::<Armed<H>>::empty().push(shot(start, event)->0) =~= seq![
            shot(start, event)->0,
        ]);
    }
}

/// What is spared stays as it is, and nothing of `generation` is.
proof fn lemma_spared<H>(armed: Seq<Armed<H>>, generation: u64)
    ensures
        unknown(spared(armed, generation), generation),
        forall|i: int|
            0 <= i < spared(armed, generation).len() ==> armed.contains(
                #[trigger] spared(armed, generation)[i],
            ),
        forall|due: Armed<H>| #[trigger]
            armed.contains(due) && due.generation != generation ==> spared(
                armed,
                generation,
            ).contains(due),
        forall|other: u64|
            other != generation ==> #[trigger] tally(
                spared(armed, generation),
                of_generation(other),
            ) == tally(armed, of_generation(other)),
        forall|deadline: u128| #[trigger]
            tally(spared(armed, generation), no_later(deadline)) <= tally(
                armed,
                no_later(deadline),
            ),
    decreases armed.len(),
{
    if armed.len() > 0 {
        let fewer = armed.drop_last();
        let last = armed.last();
        let before = spared(fewer, generation);
        let now = spared(armed, generation);
        lemma_spared(fewer, generation);
        assert(armed[armed.len() - 1] == last);
        assert forall|i: int| 0 <= i < now.len() implies armed.contains(#[trigger] now[i]) by {
            if i < before.len() {
                assert(now[i] == before[i]);
                assert(fewer.contains(before[i]));
                let j = choose|j: int| 0 <= j < fewer.len() && fewer[j] == before[i];
                assert(armed[j] == now[i]);
            }
        }
        assert forall|due: Armed<H>| #[trigger]
            armed.contains(due) && due.generation != generation implies now.contains(due) by {
            let j = choose|j: int| 0 <= j < armed.len() && armed[j] == due;
            if j < fewer.len() {
                assert(fewer[j] == due);
                assert(fewer.contains(due));
                let i = choose|i: int| 0 <= i < before.len() && before[i] == due;
                assert(now[i] == due);
            } else {
                assert(now[now.len() - 1] == due);
            }
        }
        assert forall|other: u64| other != generation implies #[trigger] tally(
            now,
            of_generation(other),
        ) == tally(armed, of_generation(other)) by {
            assert(tally(before, of_generation(other)) == tally(fewer, of_generation(other)));
            lemma_tally_push(before, of_generation(other), last);
        }
        assert forall|deadline: u128| #[trigger] tally(now, no_later(deadline)) <= tally(
            armed,
            no_later(deadline),
        ) by {
            assert(tally(before, no_later(deadline)) <= tally(fewer, no_later(deadline)));
            lemma_tally_push(before, no_later(deadline), last);
        }
    }
}

/// What one event leaves of a generation that it does not arm.
proof fn lemma_step_keeps<H>(armed: Seq<Armed<H>>, event: WatchdogEvent<H>, due: Armed<H>)
    requires
        only(armed, due),
        !arms(event, due.generation),
    ensures
        only(watched(armed, event).0, due),
        unknown(armed, due.generation) ==> unknown(watched(armed, event).0, due.generation),
        match shot(armed, event) {
            Some(over) => {
                &&& over.generation == due.generation ==> over == due && overdue(
                    event,
                    due.deadline,
                )
                &&& unknown(armed, due.generation) ==> over.generation != due.generation
            },
            None => true,
        },
{
    let now = watched(armed, event).0;
    match event {
        WatchdogEvent::Message(WatchdogMsg::Disarm { generation }) => {
            lemma_spared(armed, generation);
            assert forall|i: int| 0 <= i < now.len() implies armed.contains(#[trigger] now[i]) by {
                assert(armed.contains(spared(armed, generation)[i]));
            }
            assert forall|i: int| 0 <= i < now.len() && (#[trigger] now[i]).generation
                == due.generation implies now[i] == due by {
                let j = choose|j: int| 0 <= j < armed.len() && armed[j] == now[i];
                assert(armed[j] == due);
            }
            if unknown(armed, due.generation) {
                assert forall|i: int| 0 <= i < now.len() implies (#[trigger] now[i]).generation
                    != due.generation by {
                    let j = choose|j: int| 0 <= j < armed.len() && armed[j] == now[i];
                    assert(armed[j].generation != due.generation);
                }
            }
        },
        WatchdogEvent::TimedOut { now: time } => {
            if shot(armed, event) is Some {
                lemma_earliest(armed);
                let k = earliest(armed);
                assert forall|i: int| 0 <= i < now.len() implies #[trigger] now[i] == armed[if i
                    < k {
                    i
                } else {
                    i + 1
                }] by {}
            }
        },
        _ => {},
    }
}

proof fn lemma_fewer<H>(events: Seq<WatchdogEvent<H>>)
    requires
        events.len() > 0,
    ensures
        forall|generation: u64| #[trigger]
            no_arming(events, generation) ==> no_arming(events.drop_last(), generation) && !arms(
                events.last(),
                generation,
            ),
        forall|deadline: u128| #[trigger]
            all_before(events, deadline) ==> all_before(events.drop_last(), deadline) && !overdue(
                events.last(),
                deadline,
            ),
        forall|generation: u64| #[trigger]
            no_disarming(events, generation) ==> no_disarming(events.drop_last(), generation)
                && events.last() != disarm_message::<H>(generation),
{
    let fewer = events.drop_last();
    let last = events.len() - 1;
    assert forall|generation: u64| #[trigger] no_arming(events, generation) implies no_arming(
        fewer,
        generation,
    ) && !arms(events.last(), generation) by {
        assert(!arms(events[last], generation));
        assert forall|i: int| 0 <= i < fewer.len() implies !arms(
            #[trigger] fewer[i],
            generation,
        ) by {
            assert(!arms(events[i], generation));
        }
    }
    assert forall|deadline: u128| #[trigger] all_before(events, deadline) implies all_before(
        fewer,
        deadline,
    ) && !overdue(events.last(), deadline) by {
        assert(!overdue(events[last], deadline));
        assert forall|i: int| 0 <= i < fewer.len() implies !overdue(
            #[trigger] fewer[i],
            deadline,
        ) by {
            assert(!overdue(events[i], deadline));
        }
    }
    assert forall|generation: u64| #[trigger] no_disarming(
        events,
        generation,
    ) implies no_disarming(fewer, generation) && events.last() != disarm_message::<H>(
        generation,
    ) by {
        assert(events[last] != disarm_message::<H>(generation));
        assert forall|i: int| 0 <= i < fewer.len() implies #[trigger] fewer[i] != disarm_message::<
            H,
        >(generation) by {
            assert(events[i] != disarm_message::<H>(generation));
        }
    }
}

/// An arming that is not there is not terminated until it is armed, and one
/// that is there is not terminated before its deadline.
proof fn lemma_not_terminated<H>(
    start: Seq<Armed<H>>,
    due: Armed<H>,
    events: Seq<WatchdogEvent<H>>,
)
    requires
        only(start, due),
        no_arming(events, due.generation),
        unknown(start, due.generation) || all_before(events, due.deadline),
    ensures
        only(armed_after(start, events), due),
        unknown(start, due.generation) ==> unknown(armed_after(start, events), due.generation),
        unknown(terminated(start, events), due.generation),
    decreases events.len(),
{
    if events.len() > 0 {
        let fewer = events.drop_last();
        lemma_fewer(events);
        lemma_not_terminated(start, due, fewer);
        lemma_step_keeps(armed_after(start, fewer), events.last(), due);
        let log = terminated(start, events);
        let earlier = terminated(start, fewer);
        assert forall|i: int| 0 <= i < log.len() implies (#[trigger] log[i]).generation
            != due.generation by {
            if i < earlier.len() {
                assert(log[i] == earlier[i]);
            }
        }
    }
}

/// Whoever is disarmed before the deadline is not terminated, however often
/// the watchdog wakes up early in between and whatever else is armed, disarmed
/// or terminated besides.
pub proof fn law_disarmed_in_time<H>(
    start: Seq<Armed<H>>,
    due: Armed<H>,
    early: Seq<WatchdogEvent<H>>,
    later: Seq<WatchdogEvent<H>>,
)
    requires
        unknown(start, due.generation),
        no_arming(early, due.generation),
        all_before(early, due.deadline),
        no_arming(later, due.generation),
    ensures
        unknown(
            terminated(
                start,
                seq![arm_message(due)] + early + seq![disarm_message(due.generation)] + later,
            ),
            due.generation,
        ),
{
    let arm = seq![arm_message(due)];
    let disarm = seq![disarm_message::<H>(due.generation)];
    let armed = start.push(due);
    lemma_one_event(start, arm[0]);
    lemma_append(start, arm, early);
    lemma_not_terminated(armed, due, early);
    lemma_append(start, arm + early, disarm);
    let mid = armed_after(armed, early);
    lemma_one_event(mid, disarm[0]);
    lemma_spared(mid, due.generation);
    let rest = spared(mid, due.generation);
    lemma_append(start, arm + early + disarm, later);
    lemma_not_terminated(rest, due, later);
    let log = terminated(start, arm + early + disarm + later);
    let first = terminated(armed, early);
    let second = terminated(rest, later);
    assert(log =~= first + second);
    assert forall|i: int| 0 <= i < log.len() implies (#[trigger] log[i]).generation
        != due.generation by {
        if i < first.len() {
            assert(log[i] == first[i]);
        } else {
            assert(log[i] == second[i - first.len()]);
        }
    }
}

/// What every event keeps of an arming that is not disarmed: it is there or it
/// was terminated, once; and while it is there, each overdue wait brings it one
/// arming nearer to its turn.
proof fn lemma_turn_comes<H>(start: Seq<Armed<H>>, due: Armed<H>, events: Seq<WatchdogEvent<H>>)
    requires
        only(start, due),
        tally(start, of_generation(due.generation)) == 1,
        no_arming(events, due.generation),
        no_disarming(events, due.generation),
    ensures
        only(armed_after(start, events), due),
        only(terminated(start, events), due),
        tally(armed_after(start, events), of_generation(due.generation)) + tally(
            terminated(start, events),
            of_generation(due.generation),
        ) == 1,
        tally(armed_after(start, events), of_generation(due.generation)) == 1 ==> tally(
            events,
            overdue_wait(due.deadline),
        ) + tally(armed_after(start, events), no_later(due.deadline)) <= tally(
            start,
            no_later(due.deadline),
        ) + tally(events, arming_no_later(due.deadline)),
    decreases events.len(),
{
    if events.len() > 0 {
        let fewer = events.drop_last();
        let event = events.last();
        let armed = armed_after(start, fewer);
        let now = armed_after(start, events);
        let earlier = terminated(start, fewer);
        let log = terminated(start, events);
        let mine = of_generation::<H>(due.generation);
        let ahead = no_later::<H>(due.deadline);
        lemma_fewer(events);
        lemma_turn_comes(start, due, fewer);
        lemma_step_keeps(armed, event, due);
        match event {
            WatchdogEvent::Message(WatchdogMsg::Arm { handle, deadline, generation }) => {
                let other = Armed { handle, deadline, generation };
                lemma_tally_push(armed, mine, other);
                lemma_tally_push(armed, ahead, other);
            },
            WatchdogEvent::Message(WatchdogMsg::Disarm { generation }) => {
                lemma_spared(armed, generation);
                assert(tally(spared(armed, generation), mine) == tally(armed, mine));
                assert(tally(spared(armed, generation), ahead) <= tally(armed, ahead));
            },
            WatchdogEvent::TimedOut { now: time } => {
                if armed.len() > 0 {
                    lemma_earliest(armed);
                }
                if tally(armed, mine) == 1 {
                    let i = lemma_tally_found(armed, mine);
                    assert(armed[i] == due);
                }
                match shot(armed, event) {
                    Some(over) => {
                        lemma_tally_remove(armed, mine, earliest(armed));
                        lemma_tally_remove(armed, ahead, earliest(armed));
                        lemma_tally_push(earlier, mine, over);
                        assert forall|i: int| 0 <= i < log.len() && (#[trigger] log[i]).generation
                            == due.generation implies log[i] == due by {
                            if i < earlier.len() {
                                assert(log[i] == earlier[i]);
                            }
                        }
                    },
                    None => {},
                }
            },
            WatchdogEvent::Disconnected => {},
        }
    }
}

/// Whoever is not disarmed is terminated, once, whatever else is armed or
/// disarmed meanwhile. Every wait that ends at its deadline or later terminates
/// one script, the one with the earliest deadline; so its turn comes at the
/// latest when there were more such waits than armings that may go first: those
/// with a deadline no later than its own.
pub proof fn law_overdue_is_terminated<H>(
    start: Seq<Armed<H>>,
    due: Armed<H>,
    events: Seq<WatchdogEvent<H>>,
)
    requires
        unknown(start, due.generation),
        no_arming(events, due.generation),
        no_disarming(events, due.generation),
        tally(events, overdue_wait(due.deadline)) > tally(start, no_later(due.deadline)) + tally(
            events,
            arming_no_later(due.deadline),
        ),
    ensures
        terminated(start, seq![arm_message(due)] + events).contains(due),
        tally(
            terminated(start, seq![arm_message(due)] + events),
            of_generation(due.generation),
        ) == 1,
{
    let arm = seq![arm_message(due)];
    let armed = start.push(due);
    let mine = of_generation::<H>(due.generation);
    lemma_one_event(start, arm[0]);
    lemma_append(start, arm, events);
    lemma_tally_zero(start, mine);
    lemma_tally_push(start, mine, due);
    lemma_tally_push(start, no_later(due.deadline), due);
    lemma_turn_comes(armed, due, events);
    let log = terminated(armed, events);
    assert(terminated(start, arm + events) =~= log);
    let now = armed_after(armed, events);
    if tally(now, mine) == 1 {
        let i = lemma_tally_found(now, mine);
        lemma_tally_positive(now, no_later(due.deadline), i);
    } else {
        let i = lemma_tally_found(log, mine);
        assert(log[i] == due);
    }
}

/// A script is only ever terminated at its deadline or later, while it is armed.
pub proof fn law_no_early_termination<H>(armed: Seq<Armed<H>>, event: WatchdogEvent<H>)
    ensures
        watched(armed, event).1 is Terminate <==> shot(armed, event) is Some,
        match shot(armed, event) {
            Some(due) => {
                &&& armed.contains(due)
                &&& overdue(event, due.deadline)
                &&& watched(armed, event).1 == WatchdogAction::Terminate(due.handle)
            },
            None => true,
        },
{
    if armed.len() > 0 {
        lemma_earliest(armed);
    }
}

/// Disarming one generation leaves all armings of other generations.
pub proof fn law_stale_disarm_is_ignored<H>(armed: Seq<Armed<H>>, due: Armed<H>, generation: u64)
    requires
        armed.contains(due),
        generation != due.generation,
    ensures
        watched(armed, disarm_message(generation)).0.contains(due),
{
    lemma_spared(armed, generation);
}

/// The generation of the `n`-th arming, counted from 0.
pub open spec fn nth_generation(n: nat) -> u64
    decreases n,
{
    if n == 0 {
        0
    } else {
        succeeding(nth_generation((n - 1) as nat))
    }
}

/// Two armings have different generations, as long as fewer than 2^64 lie
/// between them.
pub proof fn law_generations_differ(n: nat, distance: nat)
    requires
        0 < distance <= u64::MAX,
    ensures
        nth_generation(n) != nth_generation(n + distance),
{
    lemma_generation(n);
    lemma_generation(n + distance);
    let size = u64::MAX as int + 1;
    if nth_generation(n) == nth_generation(n + distance) {
        vstd::arithmetic::div_mod::lemma_fundamental_div_mod(n as int, size);
        vstd::arithmetic::div_mod::lemma_fundamental_div_mod((n + distance) as int, size);
        let a = n as int / size;
        let b = (n + distance) as int / size;
        assert(size * b - size * a == distance);
        assert(size * b - size * a == size * (b - a)) by (nonlinear_arith);
        assert(b > a ==> size * (b - a) >= size) by (nonlinear_arith)
            requires
                size > 0,
        ;
        assert(b <= a ==> size * (b - a) <= 0) by (nonlinear_arith)
            requires
                size > 0,
        ;
    }
}

proof fn lemma_generation(n: nat)
    ensures
        nth_generation(n) == n as int % (u64::MAX as int + 1),
    decreases n,
{
    let size = u64::MAX as int + 1;
    if n > 0 {
        lemma_generation((n - 1) as nat);
        let m = n - 1;
        vstd::arithmetic::div_mod::lemma_fundamental_div_mod(m, size);
        let r = m % size;
        let q = m / size;
        if r == u64::MAX {
            assert(n == size * (q + 1) + 0) by (nonlinear_arith)
                requires
                    n - 1 == size * q + r,
                    r == size - 1,
            ;
            vstd::arithmetic::div_mod::lemma_fundamental_div_mod_converse(n as int, size, q + 1, 0);
        } else {
            assert(n == size * q + (r + 1));
            vstd::arithmetic::div_mod::lemma_fundamental_div_mod_converse(n as int, size, q, r + 1);
        }
    }
}

/// The CPU budget of one request.
#[derive(Debug, PartialEq, Eq)]
pub struct CpuMeter {
    budget: Option<u128>,
    used: u128,
}

/// What is left of `budget` once `used` is spent.
pub open spec fn remaining(budget: u128, used: u128) -> int {
    if used < budget {
        budget - used
    } else {
        0
    }
}

/// `after` is `before` with one more slice, which took `elapsed`.
pub open spec fn charged(before: CpuMeter, elapsed: u128, after: CpuMeter) -> bool {
    &&& after.budget() == before.budget()
    &&& after.spent() == if before.budget() is Some {
        before.spent() + elapsed
    } else {
        before.spent() as int
    }
}

impl CpuMeter {
    /// How much time may be used; `None` is no limit.
    pub closed spec fn budget(&self) -> Option<u128> {
        self.budget
    }

    /// How much time the slices took so far; not counted where there is no limit.
    pub closed spec fn spent(&self) -> u128 {
        self.used
    }

    /// A meter of which nothing is used yet.
    pub fn new(budget: Option<u128>) -> (meter: Self)
        ensures
            meter.budget() == budget,
            meter.spent() == 0,
    {
        CpuMeter { budget, used: 0 }
    }

    /// How much time the slices took so far.
    pub fn used(&self) -> (used: u128)
        ensures
            used == self.spent(),
    {
        self.used
    }

    /// The deadline of a slice that starts now; `None` is no deadline.
    pub fn begin(&self, started: u128) -> (deadline: Option<u128>)
        requires
            self.budget() is Some ==> started + remaining(self.budget()->0, self.spent())
                <= u128::MAX,
        ensures
            match self.budget() {
                Some(budget) => deadline is Some && deadline->0 == started + remaining(
                    budget,
                    self.spent(),
                ),
                None => deadline is None,
            },
    {
        match self.budget {
            Some(budget) => {
                let left: u128 = if self.used < budget { budget - self.used } else { 0 };
                Some(started + left)
            },
            None => None,
        }
    }

    /// Takes the time that a slice took from the budget.
    pub fn finish(&mut self, elapsed: u128)
        requires
            old(self).budget() is Some ==> old(self).spent() + elapsed <= u128::MAX,
        ensures
            charged(*old(self), elapsed, *final(self)),
    {
        match self.budget {
            Some(_) => {
                self.used = self.used + elapsed;
            },
            None => {},
        }
    }
}

/// How long slices that took `elapsed` took together.
pub open spec fn slices_total(elapsed: Seq<u128>) -> int
    decreases elapsed.len(),
{
    if elapsed.len() == 0 {
        0
    } else {
        slices_total(elapsed.drop_last()) + elapsed.last()
    }
}

/// Only slices cost CPU time. Over slices that took `elapsed`, whenever each of
/// them started, a fresh meter is charged exactly what they took together; the
/// time between them is free.
pub proof fn law_waiting_is_free(meters: Seq<CpuMeter>, budget: u128, elapsed: Seq<u128>)
    requires
        meters.len() == elapsed.len() + 1,
        meters[0].budget() == Some(budget),
        meters[0].spent() == 0,
        forall|i: int|
            0 <= i < elapsed.len() ==> charged(#[trigger] meters[i], elapsed[i], meters[i + 1]),
    ensures
        meters.last().budget() == Some(budget),
        meters.last().spent() == slices_total(elapsed),
        remaining(budget, meters.last().spent()) == if slices_total(elapsed) < budget {
            budget - slices_total(elapsed)
        } else {
            0
        },
    decreases elapsed.len(),
{
    if elapsed.len() > 0 {
        let fewer = elapsed.drop_last();
        let earlier = meters.drop_last();
        assert forall|i: int| 0 <= i < fewer.len() implies charged(
            #[trigger] earlier[i],
            fewer[i],
            earlier[i + 1],
        ) by {
            assert(charged(meters[i], elapsed[i], meters[i + 1]));
        }
        law_waiting_is_free(earlier, budget, fewer);
        let n = elapsed.len() - 1;
        assert(charged(meters[n], elapsed[n], meters[n + 1]));
    }
}

/// A slice ends before its deadline exactly if the budget lasts for it, together
/// with all slices before.
pub proof fn law_deadline_is_the_budget(meter: CpuMeter, budget: u128, started: u128, elapsed: u128)
    requires
        meter.budget() == Some(budget),
    ensures
        started + elapsed < started + remaining(budget, meter.spent()) <==> meter.spent() + elapsed
            < budget,
{
}

/// Begins a slice: the message that arms the watchdog for what is left of the
/// budget, and the generation to disarm. Without a budget there is none.
pub fn start_slice<H>(meter: &CpuMeter, watchdog: &mut Watchdog, handle: H, started: u128) -> (
    armed: Option<(u64, WatchdogMsg<H>)>)
    requires
        meter.budget() is Some ==> started + remaining(meter.budget()->0, meter.spent())
            <= u128::MAX,
    ensures
        match meter.budget() {
            Some(budget) => {
                &&& armed == Some(
                    (
                        old(watchdog).next_generation(),
                        WatchdogMsg::Arm {
                            handle,
                            deadline: slice_deadline(budget, meter.spent(), started),
                            generation: old(watchdog).next_generation(),
                        },
                    ),
                )
                &&& final(watchdog).next_generation() == succeeding(
                    old(watchdog).next_generation(),
                )
            },
            None => armed is None && *final(watchdog) == *old(watchdog),
        },
{
    match meter.begin(started) {
        Some(deadline) => Some(watchdog.arm(handle, deadline)),
        None => None,
    }
}

/// Ends a slice that took `elapsed`: the message that disarms its generation.
/// The time is taken from the budget.
pub fn end_slice<H>(meter: &mut CpuMeter, watchdog: &Watchdog, generation: u64, elapsed: u128) -> (
    message: WatchdogMsg<H>)
    requires
        old(meter).budget() is Some ==> old(meter).spent() + elapsed <= u128::MAX,
    ensures
        message == (WatchdogMsg::<H>::Disarm { generation }),
        charged(*old(meter), elapsed, *final(meter)),
{
    meter.finish(elapsed);
    watchdog.disarm(generation)
}

/// The deadline of a slice that starts when `used` of `budget` is spent.
pub open spec fn slice_deadline(budget: u128, used: u128, started: u128) -> u128 {
    (started + remaining(budget, used)) as u128
}

/// A slice that the budget lasts for is not terminated. It is armed as
/// `start_slice` says and disarmed as `end_slice` says, and no wait that the
/// watchdog takes in before the disarming ended after the slice did; then
/// nothing of its generation is ever terminated, whatever other slices do.
pub proof fn law_slice_within_budget<H>(
    start: Seq<Armed<H>>,
    handle: H,
    generation: u64,
    budget: u128,
    used: u128,
    started: u128,
    elapsed: u128,
    early: Seq<WatchdogEvent<H>>,
    later: Seq<WatchdogEvent<H>>,
)
    requires
        started + remaining(budget, used) <= u128::MAX,
        used + elapsed < budget,
        unknown(start, generation),
        no_arming(early, generation),
        forall|i: int|
            0 <= i < early.len() && (#[trigger] early[i]) is TimedOut ==> early[i]->now <= started
                + elapsed,
        no_arming(later, generation),
    ensures
        unknown(
            terminated(
                start,
                seq![
                    WatchdogEvent::Message(
                        WatchdogMsg::Arm {
                            handle,
                            deadline: slice_deadline(budget, used, started),
                            generation,
                        },
                    ),
                ] + early + seq![WatchdogEvent::Message(WatchdogMsg::Disarm { generation })]
                    + later,
            ),
            generation,
        ),
{
    let due = Armed { handle, deadline: slice_deadline(budget, used, started), generation };
    law_disarmed_in_time(start, due, early, later);
}

/// A slice that is not ended is terminated, once, as soon as its turn comes at
/// the end of the budget: see [`law_overdue_is_terminated`].
pub proof fn law_slice_over_budget<H>(
    start: Seq<Armed<H>>,
    due: Armed<H>,
    budget: u128,
    used: u128,
    started: u128,
    events: Seq<WatchdogEvent<H>>,
)
    requires
        due.deadline == slice_deadline(budget, used, started),
        started + remaining(budget, used) <= u128::MAX,
        unknown(start, due.generation),
        no_arming(events, due.generation),
        no_disarming(events, due.generation),
        tally(events, overdue_wait(due.deadline)) > tally(start, no_later(due.deadline)) + tally(
            events,
            arming_no_later(due.deadline),
        ),
    ensures
        terminated(start, seq![arm_message(due)] + events).contains(due),
        tally(
            terminated(start, seq![arm_message(due)] + events),
            of_generation(due.generation),
        ) == 1,
        used < budget ==> due.deadline - started == budget - used,
        used >= budget ==> due.deadline == started,
{
    law_overdue_is_terminated(start, due, events);
}

/// The heap limit that lets a terminated script unwind without hitting the
/// limit again.
pub fn raised_heap_limit(current: usize) -> (limit: usize)
    requires
        current + HEAP_HEADROOM <= usize::MAX,
    ensures
        limit == current + 8 * 1024 * 1024,
{
    current + HEAP_HEADROOM
}

/// What the watchdog does on an event. A script is terminated exactly when a wait
/// ends and some deadline has passed: one whose deadline no other one precedes,
/// and only its arming is forgotten. Arming adds one arming, disarming takes away
/// those of its generation, and nothing else changes what is armed.
pub proof fn law_watchdog_acts<H>(
    watchdog: &mut WatchdogLoop<H>,
    event: WatchdogEvent<H>,
    action: WatchdogAction<H>,
)
    requires
        call_ensures(WatchdogLoop::<H>::step, (watchdog, event), action),
    ensures
        action is Stop <==> event is Disconnected,
        action is Terminate <==> event is TimedOut && exists|i: int|
            0 <= i < old(watchdog).armed().len() && (#[trigger] old(watchdog).armed()[i]).deadline
                <= event->now,
        action is Terminate ==> exists|k: int|
            {
                &&& 0 <= k < old(watchdog).armed().len()
                &&& action == WatchdogAction::Terminate(old(watchdog).armed()[k].handle)
                &&& old(watchdog).armed()[k].deadline <= event->now
                &&& forall|i: int|
                    0 <= i < old(watchdog).armed().len() ==> old(watchdog).armed()[k].deadline <= (
                    #[trigger] old(watchdog).armed()[i]).deadline
                &&& final(watchdog).armed() == #[trigger] old(watchdog).armed().remove(k)
            },
        event is TimedOut && !(action is Terminate) || event is Disconnected
            ==> final(watchdog).armed() == old(watchdog).armed(),
        match event {
            WatchdogEvent::Message(WatchdogMsg::Arm { handle, deadline, generation }) => {
                let due = Armed { handle, deadline, generation };
                final(watchdog).armed() == old(watchdog).armed().push(due)
            },
            WatchdogEvent::Message(WatchdogMsg::Disarm { generation }) => final(watchdog).armed()
                == old(watchdog).armed().filter(|due: Armed<H>| due.generation != generation),
            _ => true,
        },
{
    let armed = old(watchdog).armed();
    if armed.len() > 0 {
        lemma_earliest(armed);
    }
    match event {
        WatchdogEvent::Message(WatchdogMsg::Disarm { generation }) => {
            lemma_spared_are(armed, generation);
        },
        WatchdogEvent::TimedOut { now } => {
            if action is Terminate {
                let k = earliest(armed);
                assert(final(watchdog).armed() == armed.remove(k));
            }
        },
        _ => {},
    }
}

proof fn lemma_spared_are<H>(armed: Seq<Armed<H>>, generation: u64)
    ensures
        spared(armed, generation) == armed.filter(
            |due: Armed<H>| due.generation != generation,
        ),
    decreases armed.len(),
{
    reveal(Seq::filter);
    if armed.len() > 0 {
        lemma_spared_are(armed.drop_last(), generation);
    }
}

/// The watchdog waits until the next deadline: it sleeps past none, and it does
/// not wake up before the first one is reached.
pub proof fn law_watchdog_sleeps_until_a_deadline<H>(
    watchdog: WatchdogLoop<H>,
    now: u128,
    wait: u128,
)
    requires
        call_ensures(WatchdogLoop::<H>::timeout, (&watchdog, now), wait),
    ensures
        watchdog.armed().len() == 0 ==> wait == 3_600_000_000_000,
        forall|i: int|
            0 <= i < watchdog.armed().len() ==> now + wait <= (
            #[trigger] watchdog.armed()[i]).deadline || wait == 0,
        watchdog.armed().len() > 0 ==> exists|i: int|
            0 <= i < watchdog.armed().len() && (#[trigger] watchdog.armed()[i]).deadline <= now
                + wait,
{
    if watchdog.armed().len() > 0 {
        lemma_earliest(watchdog.armed());
        let k = earliest(watchdog.armed());
        assert(watchdog.armed()[k].deadline <= now + wait);
    }
}

/// A watchdog begins without armings.
pub proof fn law_watchdog_begins_unarmed<H>(watchdog: WatchdogLoop<H>, front: Watchdog)
    requires
        call_ensures(WatchdogLoop::<H>::new, (), watchdog),
        call_ensures(Watchdog::new, (), front),
    ensures
        watchdog.armed().len() == 0,
        front.next_generation() == 0,
{
}

/// What is armed is what was asked for, and disarming it names its own
/// generation; the arming after it has another one.
pub proof fn law_armings_are_disarmed_by_generation<H>(
    watchdog: &mut Watchdog,
    again: &mut Watchdog,
    handle: H,
    deadline: u128,
    other: H,
    later: u128,
    armed: (u64, WatchdogMsg<H>),
    next: (u64, WatchdogMsg<H>),
    message: WatchdogMsg<H>,
)
    requires
        call_ensures(Watchdog::arm::<H>, (watchdog, handle, deadline), armed),
        *old(again) == *final(watchdog),
        call_ensures(Watchdog::arm::<H>, (again, other, later), next),
        call_ensures(Watchdog::disarm::<H>, (again, armed.0), message),
    ensures
        armed.1 == (WatchdogMsg::Arm { handle, deadline, generation: armed.0 }),
        next.1 == (WatchdogMsg::Arm { handle: other, deadline: later, generation: next.0 }),
        message == (WatchdogMsg::<H>::Disarm { generation: armed.0 }),
        armed.0 != next.0,
{
}

/// A slice may run for what is left of the budget, and not at all where nothing
/// is left; afterwards exactly the time that it took is gone. Without a budget
/// there is no deadline and nothing is counted.
pub proof fn law_slices_use_up_the_budget(
    meter: &mut CpuMeter,
    started: u128,
    deadline: Option<u128>,
    elapsed: u128,
    used: u128,
)
    requires
        call_ensures(CpuMeter::begin, (old(meter), started), deadline),
        call_ensures(CpuMeter::finish, (meter, elapsed), ()),
        call_ensures(CpuMeter::used, (final(meter),), used),
    ensures
        deadline is Some <==> old(meter).budget() is Some,
        final(meter).budget() == old(meter).budget(),
        match old(meter).budget() {
            Some(budget) => {
                &&& old(meter).spent() < budget ==> deadline->0 - started == budget
                    - old(meter).spent()
                &&& budget <= old(meter).spent() ==> deadline->0 == started
                &&& used == old(meter).spent() + elapsed
            },
            None => used == old(meter).spent(),
        },
{
}

/// A meter begins with its whole budget.
pub proof fn law_meters_begin_unused(budget: Option<u128>, meter: CpuMeter, used: u128)
    requires
        call_ensures(CpuMeter::new, (budget,), meter),
        call_ensures(CpuMeter::used, (&meter,), used),
    ensures
        meter.budget() == budget,
        used == 0,
{
}

/// A slice is armed with its own handle for what is left of the budget, under a
/// generation of its own, and disarmed under the same one.
pub proof fn law_slices_are_watched<H>(
    meter: &mut CpuMeter,
    watchdog: &mut Watchdog,
    handle: H,
    started: u128,
    armed: Option<(u64, WatchdogMsg<H>)>,
    elapsed: u128,
    message: WatchdogMsg<H>,
)
    requires
        old(meter).budget() is Some ==> started + remaining(
            old(meter).budget()->0,
            old(meter).spent(),
        ) <= u128::MAX,
        call_ensures(start_slice::<H>, (old(meter), watchdog, handle, started), armed),
        armed is Some ==> call_ensures(
            end_slice::<H>,
            (meter, final(watchdog), (armed->0).0, elapsed),
            message,
        ),
    ensures
        armed is Some <==> old(meter).budget() is Some,
        armed is Some ==> {
            let (generation, arming) = armed->0;
            &&& arming is Arm
            &&& arming->handle == handle
            &&& arming->Arm_generation == generation
            &&& old(meter).spent() < old(meter).budget()->0 ==> arming->deadline - started
                == old(meter).budget()->0 - old(meter).spent()
            &&& old(meter).budget()->0 <= old(meter).spent() ==> arming->deadline == started
            &&& message == (WatchdogMsg::<H>::Disarm { generation })
            &&& final(meter).spent() == old(meter).spent() + elapsed
            &&& final(meter).budget() == old(meter).budget()
            &&& final(watchdog).next_generation() != generation
        },
        armed is None ==> *final(watchdog) == *old(watchdog),
{
}

/// A terminated script gets eight mebibytes more to unwind in.
pub proof fn law_terminated_scripts_can_unwind(current: usize, limit: usize)
    requires
        call_ensures(raised_heap_limit, (current,), limit),
    ensures
        limit - current == 8 * 1024 * 1024,
{
}

} // verus!
