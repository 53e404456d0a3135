//! The event loop: it runs microtasks and waits for operations, in turn, until
//! a promise is settled.
//!
//! The JavaScript engine stays outside: it reports the state of the promise and
//! settles the promises of operations. Its values (`V`) and resolvers (`R`) are
//! only passed along.

use vstd::prelude::*;

use crate::error::{Fault, WorkerError};
use crate::ops::{after_op, complete_op, settled, LoopEvent, OpCall, OpResult, OpState, Ops,
    Settlement};
use crate::worker::{format_exception, thrown_text};

verus! {

/// The state of the promise that an event loop waits for.
#[derive(Debug, PartialEq, Eq)]
pub enum PromiseState<V> {
    Pending,
    Fulfilled(V),
    Rejected(V),
}

/// What an event loop does once all microtasks have run.
#[derive(Debug, PartialEq, Eq)]
pub enum LoopStep<V> {
    /// It ends with this value.
    Done(V),
    /// It ends with a script error, whose message is this exception's.
    Rejected(V),
    /// It ends with this error.
    Failed(WorkerError),
    /// It waits at most this long, in nanoseconds, for an operation to finish.
    Wait(u128),
}

/// What an event loop does, and what becomes of the operations.
pub open spec fn loop_step<R, V>(
    ops: Ops<R>,
    pending: u64,
    terminating: bool,
    promise: PromiseState<V>,
    deadline: u128,
    now: u128,
) -> (Ops<R>, LoopStep<V>) {
    if terminating {
        (after_op(ops, OpCall::AbortAll), LoopStep::Failed(WorkerError::Terminated))
    } else {
        match promise {
            PromiseState::Fulfilled(value) => (ops, LoopStep::Done(value)),
            PromiseState::Rejected(exception) => (ops, LoopStep::Rejected(exception)),
            PromiseState::Pending => if pending == 0 {
                (ops, LoopStep::Failed(WorkerError::Hung))
            } else if deadline <= now {
                (after_op(ops, OpCall::AbortAll), LoopStep::Failed(WorkerError::Timeout))
            } else {
                (ops, LoopStep::Wait((deadline - now) as u128))
            },
        }
    }
}

/// Decides how an event loop goes on once all microtasks have run.
pub fn after_checkpoint<R, V>(
    ops: &mut OpState<R>,
    terminating: bool,
    promise: PromiseState<V>,
    deadline: u128,
    now: u128,
) -> (step: LoopStep<V>)
    requires
        old(ops).wf(),
    ensures
        final(ops).wf(),
        (final(ops)@, step) == loop_step(
            old(ops)@,
            old(ops).pending(),
            terminating,
            promise,
            deadline,
            now,
        ),
        final(ops).can_fetch() == old(ops).can_fetch(),
{
    if terminating {
        ops.abort_all();
        return LoopStep::Failed(WorkerError::Terminated);
    }
    match promise {
        PromiseState::Fulfilled(value) => return LoopStep::Done(value),
        PromiseState::Rejected(exception) => return LoopStep::Rejected(exception),
        PromiseState::Pending => {},
    }
    if ops.pending_ops() == 0 {
        return LoopStep::Failed(WorkerError::Hung);
    }
    if deadline <= now {
        ops.abort_all();
        return LoopStep::Failed(WorkerError::Timeout);
    }
    LoopStep::Wait(deadline - now)
}

/// The error that an event loop ends with where its promise was rejected: a
/// script error. The exception is given by its `stack`, if that is a string, and
/// by its own text.
pub fn rejection(stack: Option<Option<String>>, text: Option<String>) -> (error: WorkerError)
    ensures
        error@ == Fault::Script(thrown_text(stack, text)),
{
    WorkerError::Script(format_exception(stack, text))
}

/// What ended the wait of an event loop.
#[derive(Debug, PartialEq, Eq)]
pub enum Wake {
    /// Operations finished, in this order.
    Completed(Vec<LoopEvent>),
    /// No operation finished in time.
    TimedOut,
    /// No operation can report any more.
    Disconnected,
}

/// What happens to the promise of the operation that `event` reports.
pub open spec fn settlement<R>(ops: Ops<R>, event: LoopEvent) -> Settlement<R> {
    match event {
        LoopEvent::OpComplete { op_id, result } => if ops.table.contains_key(op_id) {
            settled(ops.table[op_id], result)
        } else {
            Settlement::Ignore
        },
    }
}

/// The operations once `events` are taken in.
pub open spec fn after_events<R>(ops: Ops<R>, events: Seq<LoopEvent>) -> Ops<R>
    decreases events.len(),
{
    if events.len() == 0 {
        ops
    } else {
        match events.last() {
            LoopEvent::OpComplete { op_id, .. } => after_op(
                after_events(ops, events.drop_last()),
                OpCall::Complete(op_id),
            ),
        }
    }
}

/// `settlements` is what happens to the promises of `events`, one by one.
pub open spec fn settles<R>(
    ops: Ops<R>,
    events: Seq<LoopEvent>,
    settlements: Seq<Settlement<R>>,
) -> bool {
    &&& settlements.len() == events.len()
    &&& forall|i: int|
        0 <= i < events.len() ==> #[trigger] settlements[i] == settlement(
            after_events(ops, events.take(i)),
            events[i],
        )
}

/// Takes in what ended the wait: the promises to settle before the loop goes
/// on, or the error that it ends with.
pub fn after_wait<R>(ops: &mut OpState<R>, wake: Wake) -> (settlements: Result<
    Vec<Settlement<R>>,
    WorkerError,
>)
    requires
        old(ops).wf(),
    ensures
        final(ops).wf(),
        final(ops).can_fetch() == old(ops).can_fetch(),
        match wake {
            Wake::Completed(events) => {
                &&& settlements is Ok
                &&& settles(old(ops)@, events@, settlements->Ok_0@)
                &&& final(ops)@ == after_events(old(ops)@, events@)
            },
            Wake::TimedOut => {
                &&& settlements is Err
                &&& settlements->Err_0@ is Timeout
                &&& final(ops)@ == after_op(old(ops)@, OpCall::AbortAll)
            },
            Wake::Disconnected => {
                &&& settlements is Err
                &&& settlements->Err_0@ == Fault::Internal("op channel disconnected"@)
                &&& final(ops)@ == old(ops)@
            },
        },
{
    match wake {
        Wake::Completed(events) => Ok(settle_all(ops, events)),
        Wake::TimedOut => {
            ops.abort_all();
            Err(WorkerError::Timeout)
        },
        Wake::Disconnected => Err(WorkerError::Internal("op channel disconnected".to_owned())),
    }
}

fn settle_all<R>(ops: &mut OpState<R>, events: Vec<LoopEvent>) -> (settlements: Vec<Settlement<R>>)
    requires
        old(ops).wf(),
    ensures
        final(ops).wf(),
        final(ops).can_fetch() == old(ops).can_fetch(),
        settles(old(ops)@, events@, settlements@),
        final(ops)@ == after_events(old(ops)@, events@),
{
    let ghost all = events@;
    let mut settlements: Vec<Settlement<R>> = Vec::new();
    proof {
        assert(all.take(0) =~= Seq::<LoopEvent>::empty());
    }
    for event in it: events
        invariant
            it.seq() == all,
            ops.wf(),
            ops.can_fetch() == old(ops).can_fetch(),
            settlements@.len() == it.index(),
            ops@ == after_events(old(ops)@, all.take(it.index())),
            forall|i: int|
                0 <= i < settlements@.len() ==> #[trigger] settlements@[i] == settlement(
                    after_events(old(ops)@, all.take(i)),
                    all[i],
                ),
    {
        proof {
            let k = it.index();
            assert(all.take(k + 1).drop_last() =~= all.take(k));
            assert(all.take(k + 1).last() == event);
        }
        settlements.push(complete_op(ops, event));
    }
    proof {
        assert(all.take(all.len() as int) =~= all);
    }
    settlements
}

/// An event loop waits only while something can still happen: the script is not
/// terminated, the promise is open, an operation has not finished, and the
/// deadline lies ahead; and it never waits past the deadline.
pub proof fn law_loop_waits_in_bounds<R, V>(
    ops: Ops<R>,
    pending: u64,
    terminating: bool,
    promise: PromiseState<V>,
    deadline: u128,
    now: u128,
)
    ensures
        loop_step(ops, pending, terminating, promise, deadline, now).1 is Wait <==> !terminating
            && promise is Pending && pending > 0 && now < deadline,
        loop_step(ops, pending, terminating, promise, deadline, now).1 is Wait ==> now
            + loop_step(ops, pending, terminating, promise, deadline, now).1->Wait_0 == deadline,
{
}

/// A promise that nothing can settle is found out at once: with no operation
/// left, an open promise ends the loop without any wait.
pub proof fn law_hung_promise_is_found<R, V>(ops: Ops<R>, deadline: u128, now: u128)
    ensures
        loop_step(ops, 0, false, PromiseState::<V>::Pending, deadline, now) == (
            ops,
            LoopStep::<V>::Failed(WorkerError::Hung),
        ),
{
}

/// A loop that ends because the script was terminated or ran out of time leaves
/// no operation behind, so every completion that arrives later is ignored.
pub proof fn law_failed_loop_abandons<R, V>(
    ops: Ops<R>,
    pending: u64,
    terminating: bool,
    promise: PromiseState<V>,
    deadline: u128,
    now: u128,
    late: LoopEvent,
)
    requires
        loop_step(ops, pending, terminating, promise, deadline, now).1 == LoopStep::<V>::Failed(
            WorkerError::Terminated,
        ) || loop_step(ops, pending, terminating, promise, deadline, now).1
            == LoopStep::<V>::Failed(WorkerError::Timeout),
    ensures
        settlement(
            loop_step(ops, pending, terminating, promise, deadline, now).0,
            late,
        ) is Ignore,
{
}

/// How an event loop goes on, and why. A promise that is fulfilled ends it with
/// its value and one that is rejected with its exception, whatever the time is;
/// an open promise fails it where nothing can settle it any more or the time is
/// up. A termination comes before all of this. Operations are given up only
/// where the loop fails for a termination or for the time.
pub proof fn law_loop_ends_with_its_promise<R, V>(
    ops: &mut OpState<R>,
    terminating: bool,
    promise: PromiseState<V>,
    deadline: u128,
    now: u128,
    step: LoopStep<V>,
)
    requires
        call_ensures(after_checkpoint::<R, V>, (ops, terminating, promise, deadline, now), step),
    ensures
        terminating ==> step is Failed && step->Failed_0 is Terminated,
        !terminating ==> match promise {
            PromiseState::Fulfilled(value) => step == LoopStep::Done(value),
            PromiseState::Rejected(exception) => step == LoopStep::Rejected(exception),
            PromiseState::Pending => if old(ops).pending() == 0 {
                step is Failed && step->Failed_0 is Hung
            } else if deadline <= now {
                step is Failed && step->Failed_0 is Timeout
            } else {
                step is Wait && now + step->Wait_0 == deadline
            },
        },
        step is Done ==> !terminating && promise == PromiseState::Fulfilled(step->Done_0),
        step is Rejected ==> !terminating && promise == PromiseState::Rejected(step->Rejected_0),
        step is Failed && !(step->Failed_0 is Hung) ==> final(ops).pending() == 0 && forall|
            op_id: u64,
        | !#[trigger] final(ops)@.table.contains_key(op_id),
        !(step is Failed && !(step->Failed_0 is Hung)) ==> final(ops)@ == old(ops)@,
        final(ops)@.next == old(ops)@.next,
{
}

/// Whether one of `events` reports the operation `op_id`.
pub open spec fn reported(events: Seq<LoopEvent>, op_id: u64) -> bool {
    exists|i: int| 0 <= i < events.len() && (#[trigger] events[i])->op_id == op_id
}

proof fn lemma_after_events<R>(ops: Ops<R>, events: Seq<LoopEvent>)
    ensures
        after_events(ops, events).next == ops.next,
        forall|op_id: u64| #[trigger]
            after_events(ops, events).table.contains_key(op_id) <==> ops.table.contains_key(op_id)
                && !reported(events, op_id),
        forall|op_id: u64| #[trigger]
            after_events(ops, events).table.contains_key(op_id) ==> after_events(
                ops,
                events,
            ).table[op_id] == ops.table[op_id],
    decreases events.len(),
{
    if events.len() > 0 {
        let fewer = events.drop_last();
        lemma_after_events(ops, fewer);
        assert forall|op_id: u64| reported(events, op_id) <==> reported(fewer, op_id)
            || events.last()->op_id == op_id by {
            if reported(fewer, op_id) {
                let i = choose|i: int|
                    0 <= i < fewer.len() && (#[trigger] fewer[i])->op_id == op_id;
                assert(events[i]->op_id == op_id);
            }
            if events.last()->op_id == op_id {
                assert(events[events.len() - 1]->op_id == op_id);
            }
            if reported(events, op_id) {
                let i = choose|i: int|
                    0 <= i < events.len() && (#[trigger] events[i])->op_id == op_id;
                if i < fewer.len() {
                    assert(fewer[i]->op_id == op_id);
                }
            }
        }
    }
}

/// The end of a wait. Every completion settles the promise of its own operation
/// with what that brought, in the order in which they came; the second one for
/// an operation, and one for an operation that is over, settles nothing. All
/// other operations go on waiting. A wait that ends without a completion ends
/// the loop.
pub proof fn law_completions_settle_their_promises<R>(
    ops: &mut OpState<R>,
    wake: Wake,
    settlements: Result<Vec<Settlement<R>>, WorkerError>,
)
    requires
        call_ensures(after_wait::<R>, (ops, wake), settlements),
    ensures
        match wake {
            Wake::Completed(events) => {
                &&& settlements is Ok
                &&& settlements->Ok_0@.len() == events@.len()
                &&& forall|i: int|
                    0 <= i < events@.len() ==> {
                        let id = events@[i]->op_id;
                        let settlement = #[trigger] settlements->Ok_0@[i];
                        if !old(ops)@.table.contains_key(id) || reported(events@.take(i), id) {
                            settlement is Ignore
                        } else {
                            match events@[i]->result {
                                Ok(OpResult::Timer) => settlement == (Settlement::ResolveUndefined {
                                    resolver: old(ops)@.table[id],
                                }),
                                Ok(OpResult::Fetch { status, headers, body }) => {
                                    &&& settlement is ResolveFetched
                                    &&& settlement->ResolveFetched_resolver
                                        == old(ops)@.table[id]
                                    &&& settlement->status == status
                                    &&& settlement->headers == headers
                                    &&& settlement->body == body
                                },
                                Err(message) => settlement == (Settlement::RejectTypeError {
                                    resolver: old(ops)@.table[id],
                                    message,
                                }),
                            }
                        }
                    }
                &&& forall|op_id: u64| #[trigger]
                    final(ops)@.table.contains_key(op_id) <==> old(ops)@.table.contains_key(op_id)
                        && !reported(events@, op_id)
                &&& forall|op_id: u64| #[trigger]
                    final(ops)@.table.contains_key(op_id) ==> final(ops)@.table[op_id]
                        == old(ops)@.table[op_id]
            },
            Wake::TimedOut => {
                &&& settlements is Err
                &&& settlements->Err_0 is Timeout
                &&& final(ops).pending() == 0
                &&& forall|op_id: u64| !#[trigger] final(ops)@.table.contains_key(op_id)
            },
            Wake::Disconnected => {
                &&& settlements is Err
                &&& settlements->Err_0 is Internal
                &&& settlements->Err_0->Internal_0@ == "op channel disconnected"@
                &&& final(ops)@ == old(ops)@
            },
        },
{
    if wake is Completed {
        let events = wake->Completed_0@;
        lemma_after_events(old(ops)@, events);
        assert forall|i: int| 0 <= i < events.len() implies {
            let id = events[i]->op_id;
            let settlement = #[trigger] settlements->Ok_0@[i];
            settlement == if !old(ops)@.table.contains_key(id) || reported(events.take(i), id) {
                Settlement::Ignore
            } else {
                settled(old(ops)@.table[id], events[i]->result)
            }
        } by {
            lemma_after_events(old(ops)@, events.take(i));
        }
    }
}

/// A promise that is rejected is a script error with the text of the exception:
/// its stack, if it has one, and otherwise its own text.
pub proof fn law_rejections_are_script_errors(
    stack: Option<Option<String>>,
    text: Option<String>,
    error: WorkerError,
)
    requires
        call_ensures(rejection, (stack, text), error),
    ensures
        error is Script,
        match stack {
            Some(Some(stack)) => error->Script_0@ == stack@,
            Some(None) => error->Script_0@.len() == 0,
            None => match text {
                Some(text) => error->Script_0@ == text@,
                None => error->Script_0@ == "unknown error"@,
            },
        },
{
}

} // verus!
