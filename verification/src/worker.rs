//! How a worker handles a request.
//!
//! The JavaScript engine stays outside: it is told what to do next and reports
//! what came of it. Its values (`V`) and resolvers (`R`) are only passed along.

use vstd::prelude::*;

use crate::error::{fault_status, Fault, WorkerError};
use crate::limits::CpuMeter;
use crate::ops::{after_op, given_headers, js_header_pairs, JsPair, OpCall, OpState};
use crate::protocol::{ResponseView, WorkerResponse};
use crate::text::pairs;

verus! {

/// How a worker runs a script.
#[derive(Debug, PartialEq, Eq)]
pub struct WorkerConfig {
    /// The variables of the `env` argument.
    pub env: Vec<(String, String)>,
    /// How long a request may take, in nanoseconds.
    pub wall_timeout: u128,
    /// How long the JavaScript of a request may run, in nanoseconds; `None` is no limit.
    pub cpu_budget: Option<u128>,
    /// How many bytes the heap may hold; `None` is no limit.
    pub heap_limit: Option<usize>,
    /// Whether the script can fetch.
    pub fetch_available: bool,
}

impl Default for WorkerConfig {
    fn default() -> (config: Self)
        ensures
            config.env@.len() == 0,
            config.wall_timeout == 10_000_000_000,
            config.cpu_budget is None,
            config.heap_limit is None,
            !config.fetch_available,
    {
        WorkerConfig {
            env: Vec::new(),
            wall_timeout: 10_000_000_000,
            cpu_budget: None,
            heap_limit: None,
            fetch_available: false,
        }
    }
}

/// What came of a call into the engine.
#[derive(Debug, PartialEq, Eq)]
pub enum CallOutcome<V> {
    /// It returned this value, which may be a promise.
    Returned { value: V, is_promise: bool },
    /// It returned nothing: the script was terminated or threw. The exception
    /// is given as text, if there was one.
    Failed { terminated: bool, exception: Option<String> },
}

/// The text of an exception, if there was one.
pub open spec fn exception_text(exception: Option<String>) -> Seq<char> {
    match exception {
        Some(text) => text@,
        None => "unknown error"@,
    }
}

/// The message for an exception that is given as text, if there was one.
pub fn exception_message(exception: Option<String>) -> (message: String)
    ensures
        message@ == exception_text(exception),
{
    match exception {
        Some(text) => text,
        None => "unknown error".to_owned(),
    }
}

/// The text of a value that was thrown.
pub open spec fn thrown_text(stack: Option<Option<String>>, text: Option<String>) -> Seq<char> {
    match stack {
        Some(Some(stack)) => stack@,
        Some(None) => Seq::empty(),
        None => exception_text(text),
    }
}

/// The text of a value that was thrown. Where it is an object whose `stack` is
/// a string, that string counts (`stack` then holds its text, if it has one);
/// otherwise the text of the value itself does, if it has one.
pub fn format_exception(stack: Option<Option<String>>, text: Option<String>) -> (message: String)
    ensures
        message@ == thrown_text(stack, text),
{
    match stack {
        Some(Some(stack)) => stack,
        Some(None) => String::new(),
        None => exception_message(text),
    }
}

/// The parts of a serialized response, each of them if it could be read.
#[derive(Debug, PartialEq, Eq)]
pub struct ResponseParts {
    pub status: Option<u32>,
    pub headers: Option<Vec<Option<JsPair>>>,
    pub body: Option<Vec<u8>>,
}

/// The response that `parts` makes up. The status is cut to 16 bits.
pub open spec fn assembled(parts: ResponseParts) -> ResponseView {
    ResponseView {
        status: match parts.status {
            Some(status) => (status % 65536) as u16,
            None => 200,
        },
        headers: given_headers(parts.headers),
        body: match parts.body {
            Some(body) => body@,
            None => Seq::empty(),
        },
    }
}

/// Puts a response together; what could not be read gets its default.
pub fn assemble_response(parts: ResponseParts) -> (response: WorkerResponse)
    ensures
        response@ == assembled(parts),
{
    let status: u16 = match parts.status {
        Some(status) => (status % 65536) as u16,
        None => 200,
    };
    let headers = js_header_pairs(&parts.headers);
    let body = match parts.body {
        Some(body) => body,
        None => Vec::new(),
    };
    WorkerResponse { status, headers, body }
}

/// How far the handling of a request has come.
#[derive(Debug, Clone, Copy, PartialEq, Eq)]
pub enum Stage {
    /// The request object is being built.
    Building,
    /// The handler of the script is being called.
    Calling,
    /// The promise of the handler is being waited for.
    Responding,
    /// The serializer of the response is being called.
    Serializing,
    /// The promise of the serializer is being waited for.
    Collecting,
    /// The serialized response is being read.
    Reading,
    /// The request is handled.
    Finished,
}

/// What came of the last action.
#[derive(Debug, PartialEq, Eq)]
pub enum HandleEvent<V> {
    /// Of a call.
    Called(CallOutcome<V>),
    /// Of waiting for a promise.
    Settled(Result<V, WorkerError>),
    /// Of reading the serialized response; `None` if it is no array.
    Read(Option<ResponseParts>),
}

/// What the engine does next.
#[derive(Debug, PartialEq, Eq)]
pub enum HandleAction<V> {
    /// Call the handler with this request object.
    CallHandler(V),
    /// Wait for this promise.
    Await(V),
    /// Wait for a promise that is resolved with this value.
    AwaitResolved(V),
    /// Call the serializer with this response object.
    CallSerializer(V),
    /// Read this serialized response.
    ReadParts(V),
    /// The request is handled.
    Finish(Result<WorkerResponse, WorkerError>),
}

/// What a [`HandleAction`] says.
pub enum HandleDo<V> {
    CallHandler(V),
    Await(V),
    AwaitResolved(V),
    CallSerializer(V),
    ReadParts(V),
    Finish(Result<ResponseView, Fault>),
}

impl<V> View for HandleAction<V> {
    type V = HandleDo<V>;

    open spec fn view(&self) -> HandleDo<V> {
        match self {
            HandleAction::CallHandler(request) => HandleDo::CallHandler(*request),
            HandleAction::Await(promise) => HandleDo::Await(*promise),
            HandleAction::AwaitResolved(value) => HandleDo::AwaitResolved(*value),
            HandleAction::CallSerializer(response) => HandleDo::CallSerializer(*response),
            HandleAction::ReadParts(parts) => HandleDo::ReadParts(*parts),
            HandleAction::Finish(Ok(response)) => HandleDo::Finish(Ok(response@)),
            HandleAction::Finish(Err(error)) => HandleDo::Finish(Err(error@)),
        }
    }
}

/// Whether `event` can come of the action that `stage` stands for.
pub open spec fn expects<V>(stage: Stage, event: HandleEvent<V>) -> bool {
    match stage {
        Stage::Building | Stage::Calling | Stage::Serializing => event is Called,
        Stage::Responding | Stage::Collecting => event is Settled,
        Stage::Reading => event is Read,
        Stage::Finished => false,
    }
}

/// The fault of a call that returned nothing.
pub open spec fn call_fault(terminated: bool, exception: Option<String>) -> Fault {
    if terminated {
        Fault::Terminated
    } else {
        Fault::Script(exception_text(exception))
    }
}

/// Where the handling of a request goes on, and with what.
pub open spec fn handled<V>(stage: Stage, event: HandleEvent<V>) -> (Stage, HandleDo<V>) {
    match event {
        HandleEvent::Called(CallOutcome::Returned { value, is_promise }) => match stage {
            Stage::Building => (Stage::Calling, HandleDo::CallHandler(value)),
            Stage::Calling => (
                Stage::Responding,
                if is_promise {
                    HandleDo::Await(value)
                } else {
                    HandleDo::AwaitResolved(value)
                },
            ),
            _ => if is_promise {
                (Stage::Collecting, HandleDo::Await(value))
            } else {
                (
                    Stage::Finished,
                    HandleDo::Finish(
                        Err(Fault::Internal("serializeResponse did not return a promise"@)),
                    ),
                )
            },
        },
        HandleEvent::Called(CallOutcome::Failed { terminated, exception }) => (
            Stage::Finished,
            HandleDo::Finish(
                Err(
                    if stage == Stage::Building && !terminated {
                        Fault::Internal("buildRequest failed: "@ + exception_text(exception))
                    } else {
                        call_fault(terminated, exception)
                    },
                ),
            ),
        ),
        HandleEvent::Settled(Ok(value)) => if stage == Stage::Responding {
            (Stage::Serializing, HandleDo::CallSerializer(value))
        } else {
            (Stage::Reading, HandleDo::ReadParts(value))
        },
        HandleEvent::Settled(Err(error)) => (Stage::Finished, HandleDo::Finish(Err(error@))),
        HandleEvent::Read(Some(parts)) => (Stage::Finished, HandleDo::Finish(Ok(assembled(parts)))),
        HandleEvent::Read(None) => (
            Stage::Finished,
            HandleDo::Finish(Err(Fault::Internal("serializeResponse returned a non-array"@))),
        ),
    }
}

/// The point in time that lies `timeout` after `now`.
pub fn deadline_after(now: u128, timeout: u128) -> (deadline: u128)
    requires
        now + timeout <= u128::MAX,
    ensures
        deadline == now + timeout,
{
    now + timeout
}

/// The body that the request object is built with: none where it is empty.
pub fn body_argument(body: &Vec<u8>) -> (argument: Option<Vec<u8>>)
    ensures
        match argument {
            Some(bytes) => body@.len() > 0 && bytes@ == body@,
            None => body@.len() == 0,
        },
{
    if body.len() == 0 {
        None
    } else {
        Some(vstd::slice::slice_to_vec(body.as_slice()))
    }
}

/// The handling of one request.
#[derive(Debug, PartialEq, Eq)]
pub struct Handling {
    stage: Stage,
    deadline: u128,
}

impl Handling {
    /// How far it has come.
    pub closed spec fn stage(&self) -> Stage {
        self.stage
    }

    /// When it has to be over.
    pub closed spec fn due(&self) -> u128 {
        self.deadline
    }

    /// Begins to handle a request; the first thing to do is to build the
    /// request object. The handling has a deadline and a CPU budget of its own.
    pub fn start(now: u128, wall_timeout: u128, cpu_budget: Option<u128>) -> (started: (
        Self,
        CpuMeter,
    ))
        requires
            now + wall_timeout <= u128::MAX,
        ensures
            started.0.stage() == Stage::Building,
            started.0.due() == now + wall_timeout,
            started.1.budget() == cpu_budget,
            started.1.spent() == 0,
    {
        (
            Handling { stage: Stage::Building, deadline: deadline_after(now, wall_timeout) },
            CpuMeter::new(cpu_budget),
        )
    }

    /// When the handling has to be over.
    pub fn deadline(&self) -> (deadline: u128)
        ensures
            deadline == self.due(),
    {
        self.deadline
    }

    /// Takes in what came of the last action and says what to do next.
    pub fn step<V>(&mut self, event: HandleEvent<V>) -> (action: HandleAction<V>)
        requires
            expects(old(self).stage(), event),
        ensures
            (final(self).stage(), action@) == handled(old(self).stage(), event),
            final(self).due() == old(self).due(),
    {
        let stage = self.stage;
        match event {
            HandleEvent::Called(CallOutcome::Returned { value, is_promise }) => match stage {
                Stage::Building => {
                    self.stage = Stage::Calling;
                    HandleAction::CallHandler(value)
                },
                Stage::Calling => {
                    self.stage = Stage::Responding;
                    if is_promise {
                        HandleAction::Await(value)
                    } else {
                        HandleAction::AwaitResolved(value)
                    }
                },
                _ => if is_promise {
                    self.stage = Stage::Collecting;
                    HandleAction::Await(value)
                } else {
                    self.stage = Stage::Finished;
                    HandleAction::Finish(
                        Err(
                            WorkerError::Internal(
                                "serializeResponse did not return a promise".to_owned(),
                            ),
                        ),
                    )
                },
            },
            HandleEvent::Called(CallOutcome::Failed { terminated, exception }) => {
                self.stage = Stage::Finished;
                let error = match stage {
                    Stage::Building if !terminated => WorkerError::Internal(
                        "buildRequest failed: ".to_owned().concat(
                            exception_message(exception).as_str(),
                        ),
                    ),
                    _ => call_error(terminated, exception),
                };
                HandleAction::Finish(Err(error))
            },
            HandleEvent::Settled(Ok(value)) => match stage {
                Stage::Responding => {
                    self.stage = Stage::Serializing;
                    HandleAction::CallSerializer(value)
                },
                _ => {
                    self.stage = Stage::Reading;
                    HandleAction::ReadParts(value)
                },
            },
            HandleEvent::Settled(Err(error)) => {
                self.stage = Stage::Finished;
                HandleAction::Finish(Err(error))
            },
            HandleEvent::Read(Some(parts)) => {
                self.stage = Stage::Finished;
                HandleAction::Finish(Ok(assemble_response(parts)))
            },
            HandleEvent::Read(None) => {
                self.stage = Stage::Finished;
                HandleAction::Finish(
                    Err(WorkerError::Internal("serializeResponse returned a non-array".to_owned())),
                )
            },
        }
    }
}

/// The error of a call that returned nothing.
pub(crate) fn call_error(terminated: bool, exception: Option<String>) -> (error: WorkerError)
    ensures
        error@ == call_fault(terminated, exception),
{
    if terminated {
        WorkerError::Terminated
    } else {
        WorkerError::Script(exception_message(exception))
    }
}

/// The fault that a termination counts as: it was for memory if the heap limit
/// was hit, and for CPU time otherwise.
pub open spec fn classified(mem_hit: bool) -> Fault {
    if mem_hit {
        Fault::MemExceeded
    } else {
        Fault::CpuExceeded
    }
}

/// Tells terminations apart and abandons the operations that are left.
pub fn classify_termination<R>(ops: &mut OpState<R>, mem_hit: bool) -> (error: WorkerError)
    requires
        old(ops).wf(),
    ensures
        final(ops).wf(),
        final(ops)@ == after_op(old(ops)@, OpCall::AbortAll),
        final(ops).can_fetch() == old(ops).can_fetch(),
        error@ == classified(mem_hit),
{
    ops.abort_all();
    if mem_hit {
        WorkerError::MemExceeded
    } else {
        WorkerError::CpuExceeded
    }
}

/// How the handling of a request ended.
#[derive(Debug, PartialEq, Eq)]
pub struct Conclusion {
    pub result: Result<WorkerResponse, WorkerError>,
    /// Whether the engine's order to terminate is to be taken back, so that
    /// the isolate can run again.
    pub cancel_termination: bool,
}

/// Ends the handling of a request. A termination is told apart by its reason;
/// everything else stays as it is.
pub fn conclude<R>(
    ops: &mut OpState<R>,
    result: Result<WorkerResponse, WorkerError>,
    mem_hit: bool,
) -> (conclusion: Conclusion)
    requires
        old(ops).wf(),
    ensures
        final(ops).wf(),
        final(ops).can_fetch() == old(ops).can_fetch(),
        if result is Err && result->Err_0@ is Terminated {
            &&& conclusion.cancel_termination
            &&& conclusion.result is Err
            &&& conclusion.result->Err_0@ == classified(mem_hit)
            &&& final(ops)@ == after_op(old(ops)@, OpCall::AbortAll)
        } else {
            &&& !conclusion.cancel_termination
            &&& conclusion.result == result
            &&& final(ops)@ == old(ops)@
        },
{
    match result {
        Err(WorkerError::Terminated) => Conclusion {
            result: Err(classify_termination(ops, mem_hit)),
            cancel_termination: true,
        },
        result => Conclusion { result, cancel_termination: false },
    }
}

/// How many stages are left.
pub open spec fn stages_left(stage: Stage) -> nat {
    match stage {
        Stage::Building => 6,
        Stage::Calling => 5,
        Stage::Responding => 4,
        Stage::Serializing => 3,
        Stage::Collecting => 2,
        Stage::Reading => 1,
        Stage::Finished => 0,
    }
}

/// Every request ends: each event brings it at least one stage further, and it
/// is finished exactly when there is a result.
pub proof fn law_request_ends<V>(stage: Stage, event: HandleEvent<V>)
    requires
        expects(stage, event),
    ensures
        stages_left(handled(stage, event).0) < stages_left(stage),
        handled(stage, event).0 == Stage::Finished <==> handled(stage, event).1 is Finish,
{
}

/// Where a request stands after `events`, and what is done next.
pub open spec fn request_after<V>(events: Seq<HandleEvent<V>>) -> (Stage, Option<HandleDo<V>>)
    decreases events.len(),
{
    if events.len() == 0 {
        (Stage::Building, None)
    } else {
        let (stage, action) = handled(request_after(events.drop_last()).0, events.last());
        (stage, Some(action))
    }
}

/// A request that nothing goes wrong with: the handler gets the request object
/// that was built, the serializer gets what the handler's promise was settled
/// with, and the result is the response that was serialized. A handler that
/// returns no promise is treated as one that returns a resolved promise.
pub proof fn law_request_flow<V>(
    events: Seq<HandleEvent<V>>,
    request: V,
    built_promise: bool,
    returned: V,
    is_promise: bool,
    response: V,
    promise: V,
    serialized: V,
    parts: ResponseParts,
)
    requires
        events == seq![
            HandleEvent::Called(
                CallOutcome::Returned { value: request, is_promise: built_promise },
            ),
            HandleEvent::Called(CallOutcome::Returned { value: returned, is_promise }),
            HandleEvent::Settled(Ok(response)),
            HandleEvent::Called(CallOutcome::Returned { value: promise, is_promise: true }),
            HandleEvent::Settled(Ok(serialized)),
            HandleEvent::Read(Some(parts)),
        ],
    ensures
        request_after(events.take(1)) == (Stage::Calling, Some(HandleDo::CallHandler(request))),
        request_after(events.take(2)) == (
            Stage::Responding,
            Some(
                if is_promise {
                    HandleDo::Await(returned)
                } else {
                    HandleDo::AwaitResolved(returned)
                },
            ),
        ),
        request_after(events.take(3)) == (
            Stage::Serializing,
            Some(HandleDo::CallSerializer(response)),
        ),
        request_after(events.take(4)) == (Stage::Collecting, Some(HandleDo::Await(promise))),
        request_after(events.take(5)) == (Stage::Reading, Some(HandleDo::ReadParts(serialized))),
        request_after(events) == (
            Stage::Finished,
            Some(HandleDo::<V>::Finish(Ok(assembled(parts)))),
        ),
        parts.status is Some && parts.status->0 <= 65535
            ==> request_after(events).1->0->Finish_0->Ok_0.status == parts.status->0,
        parts.body is Some ==> request_after(events).1->0->Finish_0->Ok_0.body == parts.body->0@,
{
    assert(events.take(6) =~= events);
    assert(request_after(events.take(0)).0 == Stage::Building);
    lemma_next_event(events, 0);
    lemma_next_event(events, 1);
    lemma_next_event(events, 2);
    lemma_next_event(events, 3);
    lemma_next_event(events, 4);
    lemma_next_event(events, 5);
}

proof fn lemma_next_event<V>(events: Seq<HandleEvent<V>>, k: int)
    requires
        0 <= k < events.len(),
    ensures
        request_after(events.take(k + 1)) == (
            handled(request_after(events.take(k)).0, events[k]).0,
            Some(handled(request_after(events.take(k)).0, events[k]).1),
        ),
{
    assert(events.take(k + 1).drop_last() =~= events.take(k));
    assert(events.take(k + 1).last() == events[k]);
}

/// A call that goes wrong: a termination is one whatever was called, the
/// building of the request object included, and is answered with 503 once its
/// reason is known; what the script throws is its own error, and what the
/// building of the request object throws is the runtime's.
pub proof fn law_failed_calls<V>(
    stage: Stage,
    terminated: bool,
    exception: Option<String>,
    mem_hit: bool,
)
    requires
        stage == Stage::Building || stage == Stage::Calling || stage == Stage::Serializing,
    ensures
        handled(
            stage,
            HandleEvent::<V>::Called(CallOutcome::Failed { terminated, exception }),
        ) == (
            Stage::Finished,
            HandleDo::<V>::Finish(
                Err(
                    if terminated {
                        Fault::Terminated
                    } else if stage == Stage::Building {
                        Fault::Internal("buildRequest failed: "@ + exception_text(exception))
                    } else {
                        Fault::Script(exception_text(exception))
                    },
                ),
            ),
        ),
        fault_status(Fault::Script(exception_text(exception))) == 500,
        fault_status(classified(mem_hit)) == 503,
{
}

/// Where a request goes on depends on its stage alone.
proof fn lemma_same_stage<V>(
    one: Seq<HandleEvent<V>>,
    two: Seq<HandleEvent<V>>,
    rest: Seq<HandleEvent<V>>,
)
    requires
        request_after(one) == request_after(two),
    ensures
        request_after(one + rest) == request_after(two + rest),
    decreases rest.len(),
{
    if rest.len() == 0 {
        assert(one + rest =~= one);
        assert(two + rest =~= two);
    } else {
        lemma_same_stage(one, two, rest.drop_last());
        assert((one + rest).drop_last() =~= one + rest.drop_last());
        assert((two + rest).drop_last() =~= two + rest.drop_last());
    }
}

proof fn lemma_two_events<V>(events: Seq<HandleEvent<V>>, a: HandleEvent<V>, b: HandleEvent<V>)
    ensures
        request_after(events + seq![a]) == (
            handled(request_after(events).0, a).0,
            Some(handled(request_after(events).0, a).1),
        ),
        request_after(events + seq![a, b]) == (
            handled(handled(request_after(events).0, a).0, b).0,
            Some(handled(handled(request_after(events).0, a).0, b).1),
        ),
{
    assert((events + seq![a]).drop_last() =~= events);
    assert((events + seq![a]).last() == a);
    assert(request_after(events + seq![a]).0 == handled(request_after(events).0, a).0);
    assert((events + seq![a, b]).drop_last() =~= events + seq![a]);
    assert((events + seq![a, b]).last() == b);
}

/// A handler that returns a response is like one that returns a promise which is
/// settled with that response: whatever happens afterwards, the request goes the
/// same way and ends the same way.
pub proof fn law_handlers_may_return_either<V>(
    before: Seq<HandleEvent<V>>,
    response: V,
    promise: V,
    rest: Seq<HandleEvent<V>>,
)
    requires
        request_after(before).0 == Stage::Calling,
    ensures
        request_after(
            before + seq![
                HandleEvent::Called(CallOutcome::Returned { value: response, is_promise: false }),
                HandleEvent::Settled(Ok(response)),
            ] + rest,
        ) == request_after(
            before + seq![
                HandleEvent::Called(CallOutcome::Returned { value: promise, is_promise: true }),
                HandleEvent::Settled(Ok(response)),
            ] + rest,
        ),
{
    let settled = HandleEvent::<V>::Settled(Ok(response));
    let plain = HandleEvent::Called(CallOutcome::Returned { value: response, is_promise: false });
    let wrapped = HandleEvent::Called(CallOutcome::Returned { value: promise, is_promise: true });
    lemma_two_events(before, plain, settled);
    lemma_two_events(before, wrapped, settled);
    lemma_same_stage(before + seq![plain, settled], before + seq![wrapped, settled], rest);
}

/// A handler that throws is like one whose promise is rejected with what it
/// threw: both end in a script error with its text.
pub proof fn law_handlers_may_fail_either_way<V>(
    before: Seq<HandleEvent<V>>,
    text: String,
    promise: V,
    is_promise: bool,
    rejected: WorkerError,
)
    requires
        request_after(before).0 == Stage::Calling,
        rejected@ == Fault::Script(text@),
    ensures
        request_after(
            before + seq![
                HandleEvent::Called(
                    CallOutcome::Failed { terminated: false, exception: Some(text) },
                ),
            ],
        ) == (Stage::Finished, Some(HandleDo::<V>::Finish(Err(Fault::Script(text@))))),
        request_after(
            before + seq![
                HandleEvent::Called(CallOutcome::Returned { value: promise, is_promise }),
                HandleEvent::Settled(Err(rejected)),
            ],
        ) == (Stage::Finished, Some(HandleDo::<V>::Finish(Err(Fault::Script(text@))))),
{
    let threw = HandleEvent::<V>::Called(
        CallOutcome::Failed { terminated: false, exception: Some(text) },
    );
    let returned = HandleEvent::Called(CallOutcome::Returned { value: promise, is_promise });
    lemma_two_events(before, threw, threw);
    lemma_two_events(before, returned, HandleEvent::Settled(Err(rejected)));
}

/// A handler that gives something other than a response fails in the serializer,
/// which throws or rejects: that is a script error too.
pub proof fn law_refused_responses<V>(
    before: Seq<HandleEvent<V>>,
    text: String,
    promise: V,
    rejected: WorkerError,
)
    requires
        request_after(before).0 == Stage::Serializing,
        rejected@ == Fault::Script(text@),
    ensures
        request_after(
            before + seq![
                HandleEvent::Called(
                    CallOutcome::Failed { terminated: false, exception: Some(text) },
                ),
            ],
        ) == (Stage::Finished, Some(HandleDo::<V>::Finish(Err(Fault::Script(text@))))),
        request_after(
            before + seq![
                HandleEvent::Called(CallOutcome::Returned { value: promise, is_promise: true }),
                HandleEvent::Settled(Err(rejected)),
            ],
        ) == (Stage::Finished, Some(HandleDo::<V>::Finish(Err(Fault::Script(text@))))),
{
    let threw = HandleEvent::<V>::Called(
        CallOutcome::Failed { terminated: false, exception: Some(text) },
    );
    let returned = HandleEvent::Called(CallOutcome::Returned { value: promise, is_promise: true });
    lemma_two_events(before, threw, threw);
    lemma_two_events(before, returned, HandleEvent::Settled(Err(rejected)));
}

/// The text of an exception is the text that was given for it, and otherwise
/// says that nothing is known; a stack comes before the exception's own text.
pub proof fn law_exceptions_keep_their_text(
    stack: Option<Option<String>>,
    text: Option<String>,
    message: String,
    formatted: String,
)
    requires
        call_ensures(exception_message, (text,), message),
        call_ensures(format_exception, (stack, text), formatted),
    ensures
        text is Some ==> message@ == text->0@,
        text is None ==> message@ == "unknown error"@,
        stack is None ==> formatted@ == message@,
        stack is Some && stack->0 is Some ==> formatted@ == stack->0->0@,
        stack is Some && stack->0 is None ==> formatted@.len() == 0,
{
}

/// The response that a script gives is sent as it is: with its status, of which
/// 16 bits count, with the bytes of its body and with the headers of its rows.
/// What could not be read is 200 for the status and otherwise empty.
pub proof fn law_responses_are_what_the_script_gave(
    parts: ResponseParts,
    response: WorkerResponse,
    headers: Vec<(String, String)>,
)
    requires
        call_ensures(assemble_response, (parts,), response),
        call_ensures(js_header_pairs, (&parts.headers,), headers),
    ensures
        parts.status is Some && parts.status->0 <= 65535 ==> response.status == parts.status->0,
        parts.status is Some ==> (parts.status->0 - response.status) % 65536 == 0,
        parts.status is None ==> response.status == 200,
        parts.body is Some ==> response.body@ == parts.body->0@,
        parts.body is None ==> response.body@.len() == 0,
        response.headers@.len() == headers@.len(),
        forall|i: int|
            0 <= i < headers@.len() ==> (#[trigger] response.headers@[i]).0@ == headers@[i].0@
                && response.headers@[i].1@ == headers@[i].1@,
{
    let kept = response.headers@;
    assert(response@.headers == pairs(kept));
    assert(pairs(kept).len() == kept.len());
    assert(pairs(headers@).len() == headers@.len());
    assert forall|i: int| 0 <= i < headers@.len() implies (#[trigger] kept[i]).0@
        == headers@[i].0@ && kept[i].1@ == headers@[i].1@ by {
        assert(pairs(kept)[i] == pairs(headers@)[i]);
    }
    assert(response@.status == response.status);
}

/// A response that was read is the end of its request: the request finishes with
/// what [`assemble_response`] makes of it.
pub proof fn law_read_responses_finish<V>(
    handling: &mut Handling,
    parts: ResponseParts,
    action: HandleAction<V>,
    response: WorkerResponse,
)
    requires
        old(handling).stage() == Stage::Reading,
        call_ensures(Handling::step::<V>, (handling, HandleEvent::Read(Some(parts))), action),
        call_ensures(assemble_response, (parts,), response),
    ensures
        final(handling).stage() == Stage::Finished,
        final(handling).due() == old(handling).due(),
        action is Finish,
        action->Finish_0 is Ok,
        action->Finish_0->Ok_0.status == response.status,
        action->Finish_0->Ok_0.body@ == response.body@,
        pairs(action->Finish_0->Ok_0.headers@) == pairs(response.headers@),
        parts.status is Some && parts.status->0 <= 65535 ==> action->Finish_0->Ok_0.status
            == parts.status->0,
        parts.body is Some ==> action->Finish_0->Ok_0.body@ == parts.body->0@,
{
    assert(action@ is Finish);
    let finished = action->Finish_0->Ok_0;
    assert(finished@ == response@);
    assert(finished@.status == finished.status);
    assert(finished@.body == finished.body@);
    assert(finished@.headers == pairs(finished.headers@));
    assert(response@.status == response.status);
}

/// What is no serialized response is the runtime's own error.
pub proof fn law_unreadable_responses_fail<V>(handling: &mut Handling, action: HandleAction<V>)
    requires
        old(handling).stage() == Stage::Reading,
        call_ensures(Handling::step::<V>, (handling, HandleEvent::Read(None)), action),
    ensures
        final(handling).stage() == Stage::Finished,
        final(handling).due() == old(handling).due(),
        action is Finish,
        action->Finish_0 is Err,
        action->Finish_0->Err_0 is Internal,
        action->Finish_0->Err_0->Internal_0@ == "serializeResponse returned a non-array"@,
{
    assert(action@ is Finish);
}

/// Whatever error the wait for a promise ends in, that of the handler or that of
/// the serializer, is the error that the request finishes with.
pub proof fn law_failed_waits_finish<V>(
    handling: &mut Handling,
    error: WorkerError,
    action: HandleAction<V>,
)
    requires
        old(handling).stage() == Stage::Responding || old(handling).stage() == Stage::Collecting,
        call_ensures(Handling::step::<V>, (handling, HandleEvent::Settled(Err(error))), action),
    ensures
        final(handling).stage() == Stage::Finished,
        final(handling).due() == old(handling).due(),
        action is Finish,
        action->Finish_0 is Err,
        match error {
            WorkerError::Script(text) => action->Finish_0->Err_0 is Script
                && action->Finish_0->Err_0->Script_0@ == text@,
            WorkerError::Internal(text) => action->Finish_0->Err_0 is Internal
                && action->Finish_0->Err_0->Internal_0@ == text@,
            other => action->Finish_0->Err_0 == other,
        },
{
    assert(action@ is Finish);
    assert(action->Finish_0->Err_0@ == error@);
}

/// What a promise is fulfilled with goes on: from the handler to the serializer,
/// and from the serializer to be read.
pub proof fn law_settled_values_go_on<V>(
    handling: &mut Handling,
    value: V,
    action: HandleAction<V>,
)
    requires
        old(handling).stage() == Stage::Responding || old(handling).stage() == Stage::Collecting,
        call_ensures(Handling::step::<V>, (handling, HandleEvent::Settled(Ok(value))), action),
    ensures
        old(handling).stage() == Stage::Responding ==> action == HandleAction::CallSerializer(value)
            && final(handling).stage() == Stage::Serializing,
        old(handling).stage() == Stage::Collecting ==> action == HandleAction::ReadParts(value)
            && final(handling).stage() == Stage::Reading,
        final(handling).due() == old(handling).due(),
{
    if old(handling).stage() == Stage::Responding {
        assert(action@ == HandleDo::CallSerializer(value));
    } else {
        assert(action@ == HandleDo::ReadParts(value));
    }
}

/// What a call returns goes on: the request object to the handler, and what the
/// handler and the serializer return into the wait for a promise. A serializer
/// must return a promise; a handler need not.
pub proof fn law_returned_values_go_on<V>(
    handling: &mut Handling,
    value: V,
    is_promise: bool,
    action: HandleAction<V>,
)
    requires
        old(handling).stage() == Stage::Building || old(handling).stage() == Stage::Calling
            || old(handling).stage() == Stage::Serializing,
        call_ensures(
            Handling::step::<V>,
            (handling, HandleEvent::Called(CallOutcome::Returned { value, is_promise })),
            action,
        ),
    ensures
        old(handling).stage() == Stage::Building ==> action == HandleAction::CallHandler(value)
            && final(handling).stage() == Stage::Calling,
        old(handling).stage() == Stage::Calling ==> {
            &&& final(handling).stage() == Stage::Responding
            &&& is_promise ==> action == HandleAction::Await(value)
            &&& !is_promise ==> action == HandleAction::AwaitResolved(value)
        },
        old(handling).stage() == Stage::Serializing && is_promise ==> action
            == HandleAction::Await(value) && final(handling).stage() == Stage::Collecting,
        old(handling).stage() == Stage::Serializing && !is_promise ==> {
            &&& final(handling).stage() == Stage::Finished
            &&& action is Finish
            &&& action->Finish_0 is Err
            &&& action->Finish_0->Err_0 is Internal
            &&& action->Finish_0->Err_0->Internal_0@
                == "serializeResponse did not return a promise"@
        },
        final(handling).due() == old(handling).due(),
{
    let stage = old(handling).stage();
    if stage == Stage::Building {
        assert(action@ == HandleDo::CallHandler(value));
    } else if is_promise {
        assert(action@ == HandleDo::Await(value));
    } else if stage == Stage::Calling {
        assert(action@ == HandleDo::AwaitResolved(value));
    } else {
        assert(action@ is Finish);
    }
}

/// A call that returns nothing ends the request: as a termination if it was
/// terminated, whatever was called, and otherwise with the text of what was
/// thrown, by the script or while the request object was built.
pub proof fn law_failed_calls_finish<V>(
    handling: &mut Handling,
    terminated: bool,
    exception: Option<String>,
    action: HandleAction<V>,
    text: String,
)
    requires
        old(handling).stage() == Stage::Building || old(handling).stage() == Stage::Calling
            || old(handling).stage() == Stage::Serializing,
        call_ensures(
            Handling::step::<V>,
            (handling, HandleEvent::Called(CallOutcome::Failed { terminated, exception })),
            action,
        ),
        call_ensures(exception_message, (exception,), text),
    ensures
        final(handling).stage() == Stage::Finished,
        final(handling).due() == old(handling).due(),
        action is Finish,
        action->Finish_0 is Err,
        terminated <==> action->Finish_0->Err_0 is Terminated,
        !terminated && old(handling).stage() == Stage::Building ==> {
            &&& action->Finish_0->Err_0 is Internal
            &&& action->Finish_0->Err_0->Internal_0@ == "buildRequest failed: "@ + text@
        },
        !terminated && old(handling).stage() != Stage::Building ==> {
            &&& action->Finish_0->Err_0 is Script
            &&& action->Finish_0->Err_0->Script_0@ == text@
        },
{
    assert(action@ is Finish);
}

/// A request begins with its whole time and its whole CPU budget, and the time
/// does not change while it is handled.
pub proof fn law_requests_begin_afresh(
    now: u128,
    wall_timeout: u128,
    cpu_budget: Option<u128>,
    started: (Handling, CpuMeter),
    deadline: u128,
)
    requires
        call_ensures(Handling::start, (now, wall_timeout, cpu_budget), started),
        call_ensures(Handling::deadline, (&started.0,), deadline),
    ensures
        deadline == now + wall_timeout,
        started.0.stage() == Stage::Building,
        started.1.budget() == cpu_budget,
        started.1.spent() == 0,
{
}

/// The point in time that a limit of `timeout` ends at.
pub proof fn law_deadlines_lie_ahead(now: u128, timeout: u128, deadline: u128)
    requires
        call_ensures(deadline_after, (now, timeout), deadline),
    ensures
        deadline - now == timeout,
{
}

/// The request object is built with the body of the request, if it has one.
pub proof fn law_request_bodies_are_handed_on(body: Vec<u8>, argument: Option<Vec<u8>>)
    requires
        call_ensures(body_argument, (&body,), argument),
    ensures
        argument is Some <==> body@.len() > 0,
        argument is Some ==> argument->0@ == body@,
{
}

/// The end of a request. A termination is for memory if the heap limit was hit
/// and for CPU time otherwise; it is taken back, and the operations that are
/// left are given up. Everything else stays as it is.
pub proof fn law_terminations_are_told_apart<R>(
    ops: &mut OpState<R>,
    result: Result<WorkerResponse, WorkerError>,
    mem_hit: bool,
    conclusion: Conclusion,
)
    requires
        call_ensures(conclude::<R>, (ops, result, mem_hit), conclusion),
    ensures
        conclusion.cancel_termination <==> result is Err && result->Err_0 is Terminated,
        conclusion.cancel_termination ==> {
            &&& conclusion.result is Err
            &&& mem_hit ==> conclusion.result->Err_0 is MemExceeded
            &&& !mem_hit ==> conclusion.result->Err_0 is CpuExceeded
            &&& final(ops).pending() == 0
            &&& forall|op_id: u64| !#[trigger] final(ops)@.table.contains_key(op_id)
        },
        !conclusion.cancel_termination ==> conclusion.result == result && final(ops)@ == old(ops)@,
{
}

/// A script that runs away is stopped and answered with 503, wherever it was
/// caught: in a call or in the wait for a promise. The answer tells CPU time from
/// memory.
pub proof fn law_runaway_scripts_are_answered<R, V>(
    handling: &mut Handling,
    event: HandleEvent<V>,
    action: HandleAction<V>,
    ops: &mut OpState<R>,
    mem_hit: bool,
    conclusion: Conclusion,
    status: u16,
)
    requires
        expects(old(handling).stage(), event),
        event is Called && event->Called_0 is Failed && event->Called_0->terminated || event
            is Settled && event->Settled_0 is Err && event->Settled_0->Err_0 is Terminated,
        call_ensures(Handling::step::<V>, (handling, event), action),
        action is Finish ==> call_ensures(
            conclude::<R>,
            (ops, action->Finish_0, mem_hit),
            conclusion,
        ),
        conclusion.result is Err ==> call_ensures(
            WorkerError::status,
            (&conclusion.result->Err_0,),
            status,
        ),
    ensures
        action is Finish,
        conclusion.cancel_termination,
        conclusion.result is Err,
        mem_hit ==> conclusion.result->Err_0 is MemExceeded,
        !mem_hit ==> conclusion.result->Err_0 is CpuExceeded,
        status == 503,
{
    assert(action@ is Finish);
    assert(action->Finish_0->Err_0@ is Terminated);
}

/// A worker without a configuration has ten seconds for a request, no other
/// limits and no variables, and cannot fetch.
pub proof fn law_workers_have_defaults(config: WorkerConfig)
    requires
        call_ensures(<WorkerConfig as Default>::default, (), config),
    ensures
        config.env@.len() == 0,
        config.wall_timeout == 10 * 1_000_000_000,
        config.cpu_budget is None,
        config.heap_limit is None,
        !config.fetch_available,
{
}

} // verus!
