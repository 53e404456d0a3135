use toy_edge_worker::error::WorkerError;
use toy_edge_worker::event_loop::{
    after_checkpoint, after_wait, rejection, LoopStep, PromiseState, Wake,
};
use toy_edge_worker::load::{
    bootstrap_name, eval_result, import_error, load_step, EvalRun, LoadAction, LoadEvent, LoadStage,
    ModuleLoad, Property, ScriptRun, WorkerFunctions,
};
use toy_edge_worker::ops::{JsPair, LoopEvent, OpResult, OpState, Settlement};
use toy_edge_worker::protocol::WorkerResponse;
use toy_edge_worker::worker::{
    assemble_response, body_argument, classify_termination, conclude, deadline_after,
    exception_message, format_exception, CallOutcome, HandleAction, HandleEvent, Handling,
    ResponseParts, WorkerConfig,
};

fn returned(value: u8, is_promise: bool) -> CallOutcome<u8> {
    CallOutcome::Returned { value, is_promise }
}

fn threw(message: &str) -> CallOutcome<u8> {
    CallOutcome::Failed { terminated: false, exception: Some(message.into()) }
}

fn terminated() -> CallOutcome<u8> {
    CallOutcome::Failed { terminated: true, exception: None }
}

fn parts() -> ResponseParts {
    ResponseParts {
        status: Some(201),
        headers: Some(vec![Some(JsPair { key: Some("k".into()), value: Some("v".into()) }), None]),
        body: Some(b"hi".to_vec()),
    }
}

fn response() -> WorkerResponse {
    WorkerResponse {
        status: 201,
        headers: vec![("k".into(), "v".into())],
        body: b"hi".to_vec(),
    }
}

#[test]
fn config_defaults() {
    let config = WorkerConfig::default();
    assert_eq!(
        config,
        WorkerConfig {
            env: vec![],
            wall_timeout: 10_000_000_000,
            cpu_budget: None,
            heap_limit: None,
            fetch_available: false,
        }
    );
}

#[test]
fn loop_ends_when_the_promise_is_settled() {
    let mut ops: OpState<u8> = OpState::new(true);
    ops.register(1);
    let step = after_checkpoint(&mut ops, false, PromiseState::Fulfilled(7), 10, 20);
    assert_eq!(step, LoopStep::Done(7));
    let step = after_checkpoint(&mut ops, false, PromiseState::Rejected(8), 10, 20);
    assert_eq!(step, LoopStep::Rejected(8));
    assert_eq!(ops.pending_ops(), 1);
}

#[test]
fn loop_ends_when_terminated() {
    let mut ops: OpState<u8> = OpState::new(true);
    ops.register(1);
    let step = after_checkpoint(&mut ops, true, PromiseState::Fulfilled(7), 10, 0);
    assert_eq!(step, LoopStep::Failed(WorkerError::Terminated));
    assert_eq!(ops.pending_ops(), 0);
}

#[test]
fn hung_promise_is_found() {
    let mut ops: OpState<u8> = OpState::new(true);
    let step = after_checkpoint(&mut ops, false, PromiseState::<u8>::Pending, 10, 0);
    assert_eq!(step, LoopStep::Failed(WorkerError::Hung));
}

#[test]
fn loop_waits_until_the_deadline() {
    let mut ops: OpState<u8> = OpState::new(true);
    ops.register(1);
    let step = after_checkpoint(&mut ops, false, PromiseState::<u8>::Pending, 10, 4);
    assert_eq!(step, LoopStep::Wait(6));
    assert_eq!(ops.pending_ops(), 1);
    let step = after_checkpoint(&mut ops, false, PromiseState::<u8>::Pending, 10, 10);
    assert_eq!(step, LoopStep::Failed(WorkerError::Timeout));
    assert_eq!(ops.pending_ops(), 0);
}

#[test]
fn wait_ends_with_completions() {
    let mut ops: OpState<u8> = OpState::new(true);
    let a = ops.register(1);
    let b = ops.register(2);
    let events = vec![
        LoopEvent::OpComplete { op_id: b, result: Ok(OpResult::Timer) },
        LoopEvent::OpComplete { op_id: 99, result: Ok(OpResult::Timer) },
        LoopEvent::OpComplete { op_id: a, result: Err("x".into()) },
        LoopEvent::OpComplete { op_id: b, result: Ok(OpResult::Timer) },
    ];
    assert_eq!(
        after_wait(&mut ops, Wake::Completed(events)),
        Ok(vec![
            Settlement::ResolveUndefined { resolver: 2 },
            Settlement::Ignore,
            Settlement::RejectTypeError { resolver: 1, message: "x".into() },
            Settlement::Ignore,
        ])
    );
    assert_eq!(ops.pending_ops(), 0);
}

#[test]
fn wait_may_fail() {
    let mut ops: OpState<u8> = OpState::new(true);
    ops.register(1);
    assert_eq!(
        after_wait(&mut ops, Wake::Disconnected),
        Err(WorkerError::Internal("op channel disconnected".into()))
    );
    assert_eq!(ops.pending_ops(), 1);
    assert_eq!(after_wait(&mut ops, Wake::TimedOut), Err(WorkerError::Timeout));
    assert_eq!(ops.pending_ops(), 0);
}

#[test]
fn request_flows_through_all_stages() {
    for is_promise in [true, false] {
        let (mut handling, meter) = Handling::start(100, 10, Some(5));
        assert_eq!(handling.deadline(), 110);
        assert_eq!(meter.begin(100), Some(105));
        assert_eq!(
            handling.step(HandleEvent::Called(returned(1, false))),
            HandleAction::CallHandler(1)
        );
        assert_eq!(
            handling.step(HandleEvent::Called(returned(2, is_promise))),
            if is_promise { HandleAction::Await(2) } else { HandleAction::AwaitResolved(2) }
        );
        assert_eq!(handling.step(HandleEvent::Settled(Ok(3))), HandleAction::CallSerializer(3));
        assert_eq!(
            handling.step(HandleEvent::Called(returned(4, true))),
            HandleAction::Await(4)
        );
        assert_eq!(handling.step(HandleEvent::Settled(Ok(5))), HandleAction::ReadParts(5));
        assert_eq!(
            handling.step(HandleEvent::<u8>::Read(Some(parts()))),
            HandleAction::Finish(Ok(response()))
        );
    }
}

fn failure(events: Vec<HandleEvent<u8>>) -> WorkerError {
    let (mut handling, _) = Handling::start(0, 0, None);
    for event in events {
        if let HandleAction::Finish(result) = handling.step(event) {
            return result.unwrap_err();
        }
    }
    panic!("the request did not end")
}

#[test]
fn request_may_fail_at_every_stage() {
    let called = |outcome| HandleEvent::Called(outcome);
    let settled = |value: u8| HandleEvent::Settled(Ok(value));
    let failed = |error: WorkerError| HandleEvent::<u8>::Settled(Err(error));
    assert_eq!(
        failure(vec![called(threw("bad"))]),
        WorkerError::Internal("buildRequest failed: bad".into())
    );
    let unnamed = CallOutcome::Failed { terminated: false, exception: None };
    assert_eq!(
        failure(vec![called(unnamed)]),
        WorkerError::Internal("buildRequest failed: unknown error".into())
    );
    assert_eq!(failure(vec![called(terminated())]), WorkerError::Terminated);
    assert_eq!(
        failure(vec![called(returned(1, false)), called(threw("boom"))]),
        WorkerError::Script("boom".into())
    );
    assert_eq!(
        failure(vec![called(returned(1, false)), called(terminated())]),
        WorkerError::Terminated
    );
    let until_response = || vec![called(returned(1, false)), called(returned(2, true))];
    for error in [WorkerError::Hung, WorkerError::Timeout, WorkerError::Script("no".into())] {
        let mut events = until_response();
        let message = error.message();
        events.push(failed(error));
        assert_eq!(failure(events).message(), message);
    }
    let mut events = until_response();
    events.extend([settled(3), called(threw("not a Response"))]);
    assert_eq!(failure(events), WorkerError::Script("not a Response".into()));
    let mut events = until_response();
    events.extend([settled(3), called(terminated())]);
    assert_eq!(failure(events), WorkerError::Terminated);
    let mut events = until_response();
    events.extend([settled(3), called(returned(4, false))]);
    assert_eq!(
        failure(events),
        WorkerError::Internal("serializeResponse did not return a promise".into())
    );
    let mut events = until_response();
    events.extend([settled(3), called(returned(4, true)), failed(WorkerError::Hung)]);
    assert_eq!(failure(events), WorkerError::Hung);
    let mut events = until_response();
    events.extend([settled(3), called(returned(4, true)), settled(5), HandleEvent::Read(None)]);
    assert_eq!(
        failure(events),
        WorkerError::Internal("serializeResponse returned a non-array".into())
    );
}

#[test]
fn response_has_defaults() {
    let empty = ResponseParts { status: None, headers: None, body: None };
    assert_eq!(
        assemble_response(empty),
        WorkerResponse { status: 200, headers: vec![], body: vec![] }
    );
    let large = ResponseParts { status: Some(65_536 + 404), headers: None, body: None };
    assert_eq!(assemble_response(large).status, 404);
}

#[test]
fn termination_is_told_apart() {
    let mut ops: OpState<u8> = OpState::new(true);
    ops.register(1);
    let end = conclude(&mut ops, Err(WorkerError::Terminated), false);
    assert_eq!(end.result, Err(WorkerError::CpuExceeded));
    assert!(end.cancel_termination);
    assert_eq!(ops.pending_ops(), 0);
    let end = conclude(&mut ops, Err(WorkerError::Terminated), true);
    assert_eq!(end.result, Err(WorkerError::MemExceeded));
    assert_eq!(classify_termination(&mut ops, true), WorkerError::MemExceeded);
}

#[test]
fn termination_while_building_is_told_apart() {
    for (mem_hit, error) in [(false, WorkerError::CpuExceeded), (true, WorkerError::MemExceeded)] {
        let (mut handling, _) = Handling::start(0, 10, Some(5));
        let mut ops: OpState<u8> = OpState::new(true);
        ops.register(1);
        let HandleAction::Finish(result) = handling.step(HandleEvent::Called(terminated())) else {
            panic!("the request goes on");
        };
        let end = conclude(&mut ops, result, mem_hit);
        assert_eq!(end.result, Err(error));
        assert!(end.cancel_termination);
        assert_eq!(ops.pending_ops(), 0);
    }
}

#[test]
fn rejection_is_a_script_error() {
    let script = |text: &str| WorkerError::Script(text.into());
    assert_eq!(rejection(Some(Some("stack".into())), None), script("stack"));
    assert_eq!(rejection(None, Some("text".into())), script("text"));
    assert_eq!(rejection(None, None), script("unknown error"));
}

#[test]
fn handlers_may_throw_or_reject() {
    let until_call = || vec![HandleEvent::Called(returned(1, false))];
    let mut thrown = until_call();
    thrown.push(HandleEvent::Called(threw("boom")));
    let mut rejected = until_call();
    rejected.push(HandleEvent::Called(returned(2, true)));
    rejected.push(HandleEvent::Settled(Err(rejection(Some(Some("boom".into())), None))));
    assert_eq!(failure(thrown), WorkerError::Script("boom".into()));
    assert_eq!(failure(rejected), WorkerError::Script("boom".into()));
}

#[test]
fn other_results_are_kept() {
    let mut ops: OpState<u8> = OpState::new(true);
    ops.register(1);
    let end = conclude(&mut ops, Ok(response()), true);
    assert_eq!(end.result, Ok(response()));
    assert!(!end.cancel_termination);
    let end = conclude(&mut ops, Err(WorkerError::Timeout), true);
    assert_eq!(end.result, Err(WorkerError::Timeout));
    assert_eq!(ops.pending_ops(), 1);
}

type Stages = Vec<LoadEvent<u8>>;

fn loading() -> Stages {
    vec![
        LoadEvent::Ran(ScriptRun::Done),
        LoadEvent::Helpers {
            runtime: true,
            build_request: Some(1),
            serialize_response: Some(2),
        },
        LoadEvent::Compiled(ModuleLoad::Loaded(())),
        LoadEvent::Evaluated(returned(3, true)),
        LoadEvent::Waited { result: Ok(()), exception: None },
        LoadEvent::Exports(Some(Property::Is(Property::Is(4)))),
    ]
}

fn run(events: Stages) -> Vec<LoadAction<u8>> {
    let mut stage = LoadStage::Bootstrapping;
    let mut actions = Vec::new();
    for event in events {
        let (next, action) = load_step(stage, event);
        stage = next;
        actions.push(action);
    }
    assert_eq!(stage, LoadStage::Over);
    actions
}

fn failing_at(position: usize, event: LoadEvent<u8>) -> WorkerError {
    let mut events = loading();
    events.truncate(position);
    events.push(event);
    match run(events).pop() {
        Some(LoadAction::Fail(error)) => error,
        other => panic!("{other:?}"),
    }
}

#[test]
fn worker_starts() {
    assert_eq!(
        run(loading()),
        vec![
            LoadAction::TakeHelpers,
            LoadAction::Compile,
            LoadAction::Evaluate,
            LoadAction::Await(3),
            LoadAction::ReadExports,
            LoadAction::Start(WorkerFunctions {
                build_request: 1,
                serialize_response: 2,
                fetch_handler: 4,
            }),
        ]
    );
}

#[test]
fn bootstrap_may_fail() {
    assert_eq!(bootstrap_name(), "tew:bootstrap.js");
    let internal = |text: &str| WorkerError::Internal(text.into());
    assert_eq!(
        failing_at(0, LoadEvent::Ran(ScriptRun::TooLong)),
        internal("tew:bootstrap.js: source too long")
    );
    assert_eq!(
        failing_at(0, LoadEvent::Ran(ScriptRun::NotCompiled(Some("x".into())))),
        internal("tew:bootstrap.js: compile error: x")
    );
    assert_eq!(
        failing_at(0, LoadEvent::Ran(ScriptRun::Threw(None))),
        internal("tew:bootstrap.js: unknown error")
    );
    let helpers = |runtime, build_request, serialize_response| LoadEvent::Helpers {
        runtime,
        build_request,
        serialize_response,
    };
    assert_eq!(
        failing_at(1, helpers(false, Some(1), Some(2))),
        internal("__runtime not found after bootstrap")
    );
    assert_eq!(
        failing_at(1, helpers(true, None, None)),
        internal("__runtime.buildRequest not found")
    );
    assert_eq!(
        failing_at(1, helpers(true, Some(1), None)),
        internal("__runtime.serializeResponse not found")
    );
}

#[test]
fn script_may_fail_to_load() {
    let script = |text: &str| WorkerError::Script(text.into());
    assert_eq!(
        failing_at(2, LoadEvent::Compiled(ModuleLoad::TooLong)),
        WorkerError::Internal("script too long".into())
    );
    assert_eq!(
        failing_at(2, LoadEvent::Compiled(ModuleLoad::Failed(Some("syntax".into())))),
        script("syntax")
    );
    assert_eq!(failing_at(3, LoadEvent::Evaluated(threw("top"))), script("top"));
    assert_eq!(failing_at(3, LoadEvent::Evaluated(terminated())), WorkerError::Terminated);
    assert_eq!(
        failing_at(3, LoadEvent::Evaluated(returned(3, false))),
        WorkerError::Internal("module evaluate did not return a promise".into())
    );
    let waited = |exception| LoadEvent::Waited { result: Err(WorkerError::Hung), exception };
    assert_eq!(failing_at(4, waited(None)), WorkerError::Hung);
    assert_eq!(failing_at(4, waited(Some("thrown".into()))), script("thrown"));
    let exports = |namespace| LoadEvent::Exports(namespace);
    assert_eq!(
        failing_at(5, exports(None)),
        WorkerError::Internal("module namespace is not an object".into())
    );
    assert_eq!(
        failing_at(5, exports(Some(Property::Undefined))),
        script("script has no default export")
    );
    assert_eq!(
        failing_at(5, exports(Some(Property::Unreadable))),
        script("script has no default export")
    );
    assert_eq!(
        failing_at(5, exports(Some(Property::Other))),
        script("default export is not an object")
    );
    assert_eq!(
        failing_at(5, exports(Some(Property::Is(Property::Undefined)))),
        script("default export has no fetch handler")
    );
    assert_eq!(
        failing_at(5, exports(Some(Property::Is(Property::Unreadable)))),
        script("default export has no fetch handler")
    );
    assert_eq!(
        failing_at(5, exports(Some(Property::Is(Property::Other)))),
        script("fetch handler is not a function")
    );
}

#[test]
fn exceptions_have_messages() {
    assert_eq!(exception_message(Some("e".into())), "e");
    assert_eq!(exception_message(None), "unknown error");
    assert_eq!(format_exception(Some(Some("stack".into())), Some("text".into())), "stack");
    assert_eq!(format_exception(Some(None), Some("text".into())), "");
    assert_eq!(format_exception(None, Some("text".into())), "text");
    assert_eq!(format_exception(None, None), "unknown error");
    assert_eq!(import_error("./x.js"), "import is not supported yet: ./x.js");
}

#[test]
fn expressions_are_evaluated() {
    let failed = |run| eval_result(run).unwrap_err();
    assert_eq!(eval_result(EvalRun::Value(Some("7".into()))), Ok("7".into()));
    assert_eq!(failed(EvalRun::Value(None)), "failed to stringify result");
    assert_eq!(failed(EvalRun::TooLong), "source too long");
    assert_eq!(failed(EvalRun::NotCompiled(Some("x".into()))), "compile error: x");
    assert_eq!(failed(EvalRun::Threw(None)), "runtime error: unknown error");
}

#[test]
fn arguments_of_a_request() {
    assert_eq!(deadline_after(5, 7), 12);
    assert_eq!(body_argument(&vec![]), None);
    assert_eq!(body_argument(&vec![1, 2]), Some(vec![1, 2]));
}
