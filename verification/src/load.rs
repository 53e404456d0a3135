//! How a worker starts: its bootstrap script, its own script, and the handler
//! that this exports.
//!
//! The JavaScript engine stays outside: it is told what to do next and reports
//! what came of it. Its values (`V`) are only passed along.

use vstd::prelude::*;

use crate::error::{Fault, WorkerError};
use crate::worker::{call_error, call_fault, exception_message, exception_text, CallOutcome};

verus! {

/// What came of running a script of the runtime itself.
#[derive(Debug, PartialEq, Eq)]
pub enum ScriptRun {
    TooLong,
    NotCompiled(Option<String>),
    Threw(Option<String>),
    Done,
}

/// The fault of a script of the runtime that did not run, if it did not.
pub open spec fn script_fault(name: Seq<char>, run: ScriptRun) -> Option<Fault> {
    match run {
        ScriptRun::Done => None,
        ScriptRun::TooLong => Some(Fault::Internal(name + ": source too long"@)),
        ScriptRun::NotCompiled(exception) => Some(
            Fault::Internal(name + ": compile error: "@ + exception_text(exception)),
        ),
        ScriptRun::Threw(exception) => Some(
            Fault::Internal(name + ": "@ + exception_text(exception)),
        ),
    }
}

/// Whether the script `name` of the runtime ran; an error is the runtime's own.
pub fn run_script(name: &str, run: ScriptRun) -> (ran: Result<(), WorkerError>)
    ensures
        match script_fault(name@, run) {
            None => ran is Ok,
            Some(fault) => ran is Err && ran->Err_0@ == fault,
        },
{
    match run {
        ScriptRun::Done => Ok(()),
        ScriptRun::TooLong => Err(
            WorkerError::Internal(name.to_owned().concat(": source too long")),
        ),
        ScriptRun::NotCompiled(exception) => Err(
            WorkerError::Internal(
                name.to_owned().concat(": compile error: ").concat(
                    exception_message(exception).as_str(),
                ),
            ),
        ),
        ScriptRun::Threw(exception) => Err(
            WorkerError::Internal(
                name.to_owned().concat(": ").concat(exception_message(exception).as_str()),
            ),
        ),
    }
}

/// The fault of bootstrap functions that are missing, if they are.
pub open spec fn helpers_fault(
    runtime: bool,
    build_request: bool,
    serialize_response: bool,
) -> Option<Fault> {
    if !runtime {
        Some(Fault::Internal("__runtime not found after bootstrap"@))
    } else if !build_request {
        Some(Fault::Internal("__runtime.buildRequest not found"@))
    } else if !serialize_response {
        Some(Fault::Internal("__runtime.serializeResponse not found"@))
    } else {
        None
    }
}

/// The functions that the bootstrap script leaves for the runtime; `runtime`
/// says whether it left the object that holds them.
pub fn take_runtime_helpers<V>(
    runtime: bool,
    build_request: Option<V>,
    serialize_response: Option<V>,
) -> (helpers: Result<(V, V), WorkerError>)
    ensures
        match helpers_fault(runtime, build_request is Some, serialize_response is Some) {
            None => helpers == Ok::<(V, V), WorkerError>((build_request->0, serialize_response->0)),
            Some(fault) => helpers is Err && helpers->Err_0@ == fault,
        },
{
    if !runtime {
        return Err(WorkerError::Internal("__runtime not found after bootstrap".to_owned()));
    }
    match build_request {
        None => Err(WorkerError::Internal("__runtime.buildRequest not found".to_owned())),
        Some(build_request) => match serialize_response {
            None => Err(WorkerError::Internal("__runtime.serializeResponse not found".to_owned())),
            Some(serialize_response) => Ok((build_request, serialize_response)),
        },
    }
}

/// What came of compiling and linking the module of a worker.
#[derive(Debug, PartialEq, Eq)]
pub enum ModuleLoad<M> {
    TooLong,
    Failed(Option<String>),
    Loaded(M),
}

/// The fault of a module that did not load, if it did not.
pub open spec fn module_fault<M>(load: ModuleLoad<M>) -> Option<Fault> {
    match load {
        ModuleLoad::Loaded(_) => None,
        ModuleLoad::TooLong => Some(Fault::Internal("script too long"@)),
        ModuleLoad::Failed(exception) => Some(Fault::Script(exception_text(exception))),
    }
}

/// The module of a worker, or why there is none.
pub fn compile_and_instantiate<M>(load: ModuleLoad<M>) -> (module: Result<M, WorkerError>)
    ensures
        match module_fault(load) {
            None => module == Ok::<M, WorkerError>(load->Loaded_0),
            Some(fault) => module is Err && module->Err_0@ == fault,
        },
{
    match load {
        ModuleLoad::Loaded(loaded) => Ok(loaded),
        ModuleLoad::TooLong => Err(WorkerError::Internal("script too long".to_owned())),
        ModuleLoad::Failed(exception) => Err(WorkerError::Script(exception_message(exception))),
    }
}

/// What a module that imports `specifier` is told: there are no imports.
pub fn import_error(specifier: &str) -> (message: String)
    ensures
        message@ == "import is not supported yet: "@ + specifier@,
{
    "import is not supported yet: ".to_owned().concat(specifier)
}

/// The fault of an evaluation that gave no promise, if it gave none.
pub open spec fn evaluation_fault<V>(call: CallOutcome<V>) -> Option<Fault> {
    match call {
        CallOutcome::Returned { value, is_promise } => if is_promise {
            None
        } else {
            Some(Fault::Internal("module evaluate did not return a promise"@))
        },
        CallOutcome::Failed { terminated, exception } => Some(call_fault(terminated, exception)),
    }
}

/// The promise to wait for after the call that evaluates a module.
pub fn evaluation_promise<V>(call: CallOutcome<V>) -> (promise: Result<V, WorkerError>)
    ensures
        match evaluation_fault(call) {
            None => promise == Ok::<V, WorkerError>(call->value),
            Some(fault) => promise is Err && promise->Err_0@ == fault,
        },
{
    match call {
        CallOutcome::Returned { value, is_promise } => if is_promise {
            Ok(value)
        } else {
            Err(WorkerError::Internal("module evaluate did not return a promise".to_owned()))
        },
        CallOutcome::Failed { terminated, exception } => Err(call_error(terminated, exception)),
    }
}

/// The fault of a module that could not be evaluated, if it could not.
pub open spec fn waiting_fault(
    waited: Result<(), WorkerError>,
    exception: Option<String>,
) -> Option<Fault> {
    match waited {
        Ok(_) => None,
        Err(error) => match exception {
            Some(text) => Some(Fault::Script(text@)),
            None => Some(error@),
        },
    }
}

/// Whether a module was evaluated. Where waiting for it failed and the module
/// itself ended in an exception, given as text, that exception is reported.
pub fn evaluation_result(waited: Result<(), WorkerError>, exception: Option<String>) -> (
    evaluated: Result<(), WorkerError>)
    ensures
        match waiting_fault(waited, exception) {
            None => evaluated is Ok,
            Some(fault) => evaluated is Err && evaluated->Err_0@ == fault,
        },
{
    match waited {
        Ok(_) => Ok(()),
        Err(error) => match exception {
            Some(text) => Err(WorkerError::Script(text)),
            None => Err(error),
        },
    }
}

/// A property of an object, looked up in the hope that it is a `T`.
#[derive(Debug, PartialEq, Eq)]
pub enum Property<T> {
    /// It could not be read.
    Unreadable,
    Undefined,
    /// It is something else.
    Other,
    Is(T),
}

/// The fault of a module without a handler, if it has none.
pub open spec fn exports_fault<V>(namespace: Option<Property<Property<V>>>) -> Option<Fault> {
    match namespace {
        None => Some(Fault::Internal("module namespace is not an object"@)),
        Some(Property::Unreadable | Property::Undefined) => Some(
            Fault::Script("script has no default export"@),
        ),
        Some(Property::Other) => Some(Fault::Script("default export is not an object"@)),
        Some(Property::Is(Property::Unreadable | Property::Undefined)) => Some(
            Fault::Script("default export has no fetch handler"@),
        ),
        Some(Property::Is(Property::Other)) => Some(
            Fault::Script("fetch handler is not a function"@),
        ),
        Some(Property::Is(Property::Is(_))) => None,
    }
}

/// The `fetch` function of a module's default export. `namespace` is `None`
/// where the module's namespace is no object; else it is the default export,
/// hoped to be an object, with its `fetch`, hoped to be a function.
pub fn extract_fetch_handler<V>(namespace: Option<Property<Property<V>>>) -> (handler: Result<
    V,
    WorkerError,
>)
    ensures
        match exports_fault(namespace) {
            None => handler == Ok::<V, WorkerError>(namespace->0->Is_0->Is_0),
            Some(fault) => handler is Err && handler->Err_0@ == fault,
        },
{
    match namespace {
        None => Err(WorkerError::Internal("module namespace is not an object".to_owned())),
        Some(Property::Unreadable) | Some(Property::Undefined) => Err(
            WorkerError::Script("script has no default export".to_owned()),
        ),
        Some(Property::Other) => Err(
            WorkerError::Script("default export is not an object".to_owned()),
        ),
        Some(Property::Is(Property::Unreadable)) | Some(Property::Is(Property::Undefined)) => Err(
            WorkerError::Script("default export has no fetch handler".to_owned()),
        ),
        Some(Property::Is(Property::Other)) => Err(
            WorkerError::Script("fetch handler is not a function".to_owned()),
        ),
        Some(Property::Is(Property::Is(function))) => Ok(function),
    }
}

/// The functions of a worker: those that the bootstrap script left, and the
/// handler of the worker's own script.
#[derive(Debug, PartialEq, Eq)]
pub struct WorkerFunctions<V> {
    pub build_request: V,
    pub serialize_response: V,
    pub fetch_handler: V,
}

/// How far the start of a worker has come.
#[derive(Debug, PartialEq, Eq)]
pub enum LoadStage<V> {
    /// The bootstrap script is being run.
    Bootstrapping,
    /// The functions that it left are being looked up.
    TakingHelpers,
    /// The worker's own script is being compiled and linked.
    Compiling { helpers: (V, V) },
    /// It is being evaluated.
    Evaluating { helpers: (V, V) },
    /// The promise of its evaluation is being waited for.
    Awaiting { helpers: (V, V) },
    /// Its handler is being looked up.
    Extracting { helpers: (V, V) },
    /// The worker has started or failed.
    Over,
}

/// What came of the last action.
#[derive(Debug, PartialEq, Eq)]
pub enum LoadEvent<V> {
    Ran(ScriptRun),
    Helpers { runtime: bool, build_request: Option<V>, serialize_response: Option<V> },
    Compiled(ModuleLoad<()>),
    Evaluated(CallOutcome<V>),
    /// The promise was waited for; the exception that the module itself ended
    /// in, if it did, is given as text.
    Waited { result: Result<(), WorkerError>, exception: Option<String> },
    Exports(Option<Property<Property<V>>>),
}

/// What the engine does next.
#[derive(Debug, PartialEq, Eq)]
pub enum LoadAction<V> {
    TakeHelpers,
    Compile,
    Evaluate,
    /// Wait for this promise.
    Await(V),
    ReadExports,
    /// The worker has started.
    Start(WorkerFunctions<V>),
    /// The worker has failed.
    Fail(WorkerError),
}

/// What a [`LoadAction`] says.
pub enum LoadDo<V> {
    TakeHelpers,
    Compile,
    Evaluate,
    Await(V),
    ReadExports,
    Start(WorkerFunctions<V>),
    Fail(Fault),
}

impl<V> View for LoadAction<V> {
    type V = LoadDo<V>;

    open spec fn view(&self) -> LoadDo<V> {
        match self {
            LoadAction::TakeHelpers => LoadDo::TakeHelpers,
            LoadAction::Compile => LoadDo::Compile,
            LoadAction::Evaluate => LoadDo::Evaluate,
            LoadAction::Await(promise) => LoadDo::Await(*promise),
            LoadAction::ReadExports => LoadDo::ReadExports,
            LoadAction::Start(functions) => LoadDo::Start(*functions),
            LoadAction::Fail(error) => LoadDo::Fail(error@),
        }
    }
}

/// Whether `event` can come of the action that `stage` stands for.
pub open spec fn load_expects<V>(stage: LoadStage<V>, event: LoadEvent<V>) -> bool {
    match stage {
        LoadStage::Bootstrapping => event is Ran,
        LoadStage::TakingHelpers => event is Helpers,
        LoadStage::Compiling { .. } => event is Compiled,
        LoadStage::Evaluating { .. } => event is Evaluated,
        LoadStage::Awaiting { .. } => event is Waited,
        LoadStage::Extracting { .. } => event is Exports,
        LoadStage::Over => false,
    }
}

/// The name of the bootstrap script.
pub fn bootstrap_name() -> (name: &'static str)
    ensures
        name@ == "tew:bootstrap.js"@,
{
    "tew:bootstrap.js"
}

/// The fault that `event` brings, if it brings any.
pub open spec fn load_fault<V>(event: LoadEvent<V>) -> Option<Fault> {
    match event {
        LoadEvent::Ran(run) => script_fault("tew:bootstrap.js"@, run),
        LoadEvent::Helpers { runtime, build_request, serialize_response } => helpers_fault(
            runtime,
            build_request is Some,
            serialize_response is Some,
        ),
        LoadEvent::Compiled(load) => module_fault(load),
        LoadEvent::Evaluated(call) => evaluation_fault(call),
        LoadEvent::Waited { result, exception } => waiting_fault(result, exception),
        LoadEvent::Exports(namespace) => exports_fault(namespace),
    }
}

/// Where the start of a worker goes on, and with what.
pub open spec fn load_next<V>(stage: LoadStage<V>, event: LoadEvent<V>) -> (
    LoadStage<V>,
    LoadDo<V>,
) {
    match load_fault(event) {
        Some(fault) => (LoadStage::Over, LoadDo::Fail(fault)),
        None => match stage {
            LoadStage::Bootstrapping => (LoadStage::TakingHelpers, LoadDo::TakeHelpers),
            LoadStage::TakingHelpers => (
                LoadStage::Compiling {
                    helpers: (event->build_request->0, event->serialize_response->0),
                },
                LoadDo::Compile,
            ),
            LoadStage::Compiling { helpers } => (
                LoadStage::Evaluating { helpers },
                LoadDo::Evaluate,
            ),
            LoadStage::Evaluating { helpers } => (
                LoadStage::Awaiting { helpers },
                LoadDo::Await(event->Evaluated_0->value),
            ),
            LoadStage::Awaiting { helpers } => (
                LoadStage::Extracting { helpers },
                LoadDo::ReadExports,
            ),
            _ => (
                LoadStage::Over,
                LoadDo::Start(
                    WorkerFunctions {
                        build_request: stage->Extracting_helpers.0,
                        serialize_response: stage->Extracting_helpers.1,
                        fetch_handler: event->Exports_0->0->Is_0->Is_0,
                    },
                ),
            ),
        },
    }
}

/// Takes in what came of the last action and says what to do next. The first
/// thing that goes wrong ends the start of the worker.
pub fn load_step<V>(stage: LoadStage<V>, event: LoadEvent<V>) -> (next: (
    LoadStage<V>,
    LoadAction<V>,
))
    requires
        load_expects(stage, event),
    ensures
        (next.0, next.1@) == load_next(stage, event),
{
    match (stage, event) {
        (LoadStage::Bootstrapping, LoadEvent::Ran(run)) => match run_script(bootstrap_name(), run) {
            Ok(_) => (LoadStage::TakingHelpers, LoadAction::TakeHelpers),
            Err(error) => (LoadStage::Over, LoadAction::Fail(error)),
        },
        (
            LoadStage::TakingHelpers,
            LoadEvent::Helpers { runtime, build_request, serialize_response },
        ) => match take_runtime_helpers(runtime, build_request, serialize_response) {
            Ok(helpers) => (LoadStage::Compiling { helpers }, LoadAction::Compile),
            Err(error) => (LoadStage::Over, LoadAction::Fail(error)),
        },
        (LoadStage::Compiling { helpers }, LoadEvent::Compiled(load)) => {
            match compile_and_instantiate(load) {
                Ok(_) => (LoadStage::Evaluating { helpers }, LoadAction::Evaluate),
                Err(error) => (LoadStage::Over, LoadAction::Fail(error)),
            }
        },
        (LoadStage::Evaluating { helpers }, LoadEvent::Evaluated(call)) => {
            match evaluation_promise(call) {
                Ok(promise) => (LoadStage::Awaiting { helpers }, LoadAction::Await(promise)),
                Err(error) => (LoadStage::Over, LoadAction::Fail(error)),
            }
        },
        (
            LoadStage::Awaiting { helpers },
            LoadEvent::Waited { result, exception },
        ) => match evaluation_result(result, exception) {
            Ok(_) => (LoadStage::Extracting { helpers }, LoadAction::ReadExports),
            Err(error) => (LoadStage::Over, LoadAction::Fail(error)),
        },
        (LoadStage::Extracting { helpers }, LoadEvent::Exports(namespace)) => {
            match extract_fetch_handler(namespace) {
                Ok(fetch_handler) => {
                    let functions = WorkerFunctions {
                        build_request: helpers.0,
                        serialize_response: helpers.1,
                        fetch_handler,
                    };
                    (LoadStage::Over, LoadAction::Start(functions))
                },
                Err(error) => (LoadStage::Over, LoadAction::Fail(error)),
            }
        },
        _ => vstd::pervasive::unreached(),
    }
}

/// What came of evaluating an expression.
#[derive(Debug, PartialEq, Eq)]
pub enum EvalRun {
    TooLong,
    NotCompiled(Option<String>),
    Threw(Option<String>),
    /// It has a value; `None` if that value has no text.
    Value(Option<String>),
}

/// The text of the value of an expression, or the message that says why there is none.
pub fn eval_result(run: EvalRun) -> (result: Result<String, String>)
    ensures
        match run {
            EvalRun::Value(Some(text)) => result == Ok::<String, String>(text),
            EvalRun::Value(None) => result is Err && result->Err_0@
                == "failed to stringify result"@,
            EvalRun::TooLong => result is Err && result->Err_0@ == "source too long"@,
            EvalRun::NotCompiled(exception) => result is Err && result->Err_0@
                == "compile error: "@ + exception_text(exception),
            EvalRun::Threw(exception) => result is Err && result->Err_0@ == "runtime error: "@
                + exception_text(exception),
        },
{
    match run {
        EvalRun::Value(Some(text)) => Ok(text),
        EvalRun::Value(None) => Err("failed to stringify result".to_owned()),
        EvalRun::TooLong => Err("source too long".to_owned()),
        EvalRun::NotCompiled(exception) => Err(
            "compile error: ".to_owned().concat(exception_message(exception).as_str()),
        ),
        EvalRun::Threw(exception) => Err(
            "runtime error: ".to_owned().concat(exception_message(exception).as_str()),
        ),
    }
}

/// How many stages of a worker's start are left.
pub open spec fn load_stages_left<V>(stage: LoadStage<V>) -> nat {
    match stage {
        LoadStage::Bootstrapping => 6,
        LoadStage::TakingHelpers => 5,
        LoadStage::Compiling { .. } => 4,
        LoadStage::Evaluating { .. } => 3,
        LoadStage::Awaiting { .. } => 2,
        LoadStage::Extracting { .. } => 1,
        LoadStage::Over => 0,
    }
}

/// Every start of a worker ends: each event brings it one stage further or to
/// its end, and a fault always ends it, as that fault.
pub proof fn law_load_ends<V>(stage: LoadStage<V>, event: LoadEvent<V>)
    requires
        load_expects(stage, event),
    ensures
        load_stages_left(load_next(stage, event).0) < load_stages_left(stage),
        load_next(stage, event).0 is Over <==> load_next(stage, event).1 is Start || load_next(
            stage,
            event,
        ).1 is Fail,
        match load_fault(event) {
            Some(fault) => load_next(stage, event).1 == LoadDo::<V>::Fail(fault),
            None => !(load_next(stage, event).1 is Fail),
        },
{
}

/// Where the start of a worker stands after `events`, and what is done next.
pub open spec fn load_after<V>(events: Seq<LoadEvent<V>>) -> (LoadStage<V>, Option<LoadDo<V>>)
    decreases events.len(),
{
    if events.len() == 0 {
        (LoadStage::Bootstrapping, None)
    } else {
        let (stage, action) = load_next(load_after(events.drop_last()).0, events.last());
        (stage, Some(action))
    }
}

/// A worker that nothing goes wrong with starts, with the two functions that
/// the bootstrap script left and the handler that its own script exports.
pub proof fn law_load_flow<V>(
    events: Seq<LoadEvent<V>>,
    build_request: V,
    serialize_response: V,
    promise: V,
    exception: Option<String>,
    fetch_handler: V,
)
    requires
        events == seq![
            LoadEvent::Ran(ScriptRun::Done),
            LoadEvent::Helpers {
                runtime: true,
                build_request: Some(build_request),
                serialize_response: Some(serialize_response),
            },
            LoadEvent::Compiled(ModuleLoad::Loaded(())),
            LoadEvent::Evaluated(CallOutcome::Returned { value: promise, is_promise: true }),
            LoadEvent::Waited { result: Ok(()), exception },
            LoadEvent::Exports(Some(Property::Is(Property::Is(fetch_handler)))),
        ],
    ensures
        load_after(events.take(4)).1 == Some(LoadDo::Await(promise)),
        load_after(events) == (
            LoadStage::<V>::Over,
            Some(
                LoadDo::Start(
                    WorkerFunctions { build_request, serialize_response, fetch_handler },
                ),
            ),
        ),
{
    assert(events.take(6) =~= events);
    assert(load_after(events.take(0)).0 == LoadStage::<V>::Bootstrapping);
    lemma_next_load_event(events, 0);
    lemma_next_load_event(events, 1);
    lemma_next_load_event(events, 2);
    lemma_next_load_event(events, 3);
    lemma_next_load_event(events, 4);
    lemma_next_load_event(events, 5);
}

proof fn lemma_next_load_event<V>(events: Seq<LoadEvent<V>>, k: int)
    requires
        0 <= k < events.len(),
    ensures
        load_after(events.take(k + 1)) == (
            load_next(load_after(events.take(k)).0, events[k]).0,
            Some(load_next(load_after(events.take(k)).0, events[k]).1),
        ),
{
    assert(events.take(k + 1).drop_last() =~= events.take(k));
    assert(events.take(k + 1).last() == events[k]);
}

/// A script of the runtime that did not run is the runtime's own error, which
/// names the script and says what went wrong.
pub proof fn law_runtime_scripts_must_run(
    name: &str,
    run: ScriptRun,
    ran: Result<(), WorkerError>,
    exception: Option<String>,
    text: String,
)
    requires
        call_ensures(run_script, (name, run), ran),
        run is NotCompiled ==> run->NotCompiled_0 == exception,
        run is Threw ==> run->Threw_0 == exception,
        call_ensures(exception_message, (exception,), text),
    ensures
        ran is Ok <==> run is Done,
        ran is Err ==> ran->Err_0 is Internal,
        match run {
            ScriptRun::Done => true,
            ScriptRun::TooLong => ran->Err_0->Internal_0@ == name@ + ": source too long"@,
            ScriptRun::NotCompiled(_) => ran->Err_0->Internal_0@ == name@ + ": compile error: "@
                + text@,
            ScriptRun::Threw(_) => ran->Err_0->Internal_0@ == name@ + ": "@ + text@,
        },
{
}

/// The functions of the runtime are taken as they are, each in its place; the
/// first one that is missing is named.
pub proof fn law_runtime_functions_are_taken<V>(
    runtime: bool,
    build_request: Option<V>,
    serialize_response: Option<V>,
    helpers: Result<(V, V), WorkerError>,
)
    requires
        call_ensures(
            take_runtime_helpers::<V>,
            (runtime, build_request, serialize_response),
            helpers,
        ),
    ensures
        helpers is Ok <==> runtime && build_request is Some && serialize_response is Some,
        helpers is Ok ==> helpers->Ok_0.0 == build_request->0,
        helpers is Ok ==> helpers->Ok_0.1 == serialize_response->0,
        helpers is Err ==> helpers->Err_0 is Internal,
        !runtime ==> helpers->Err_0->Internal_0@ == "__runtime not found after bootstrap"@,
        runtime && build_request is None ==> helpers->Err_0->Internal_0@
            == "__runtime.buildRequest not found"@,
        runtime && build_request is Some && serialize_response is None
            ==> helpers->Err_0->Internal_0@ == "__runtime.serializeResponse not found"@,
{
}

/// A script that does not compile is a script error with the text of the
/// exception; one that is too long is the runtime's error; and one that compiles
/// is the module of the worker.
pub proof fn law_modules_must_compile<M>(
    load: ModuleLoad<M>,
    module: Result<M, WorkerError>,
    exception: Option<String>,
    text: String,
)
    requires
        call_ensures(compile_and_instantiate::<M>, (load,), module),
        load is Failed ==> load->Failed_0 == exception,
        call_ensures(exception_message, (exception,), text),
    ensures
        match load {
            ModuleLoad::Loaded(loaded) => module == Ok::<M, WorkerError>(loaded),
            ModuleLoad::TooLong => {
                &&& module is Err
                &&& module->Err_0 is Internal
                &&& module->Err_0->Internal_0@ == "script too long"@
            },
            ModuleLoad::Failed(_) => {
                &&& module is Err
                &&& module->Err_0 is Script
                &&& module->Err_0->Script_0@ == text@
            },
        },
{
}

/// A script that imports is told what it cannot import.
pub proof fn law_imports_are_named(specifier: &str, message: String)
    requires
        call_ensures(import_error, (specifier,), message),
    ensures
        message@ == "import is not supported yet: "@ + specifier@,
{
}

/// The promise of an evaluation is waited for. An evaluation that is terminated
/// is a termination; one that throws is a script error with that text.
pub proof fn law_evaluations_give_promises<V>(
    call: CallOutcome<V>,
    promise: Result<V, WorkerError>,
    exception: Option<String>,
    text: String,
)
    requires
        call_ensures(evaluation_promise::<V>, (call,), promise),
        call is Failed ==> call->exception == exception,
        call_ensures(exception_message, (exception,), text),
    ensures
        match call {
            CallOutcome::Returned { value, is_promise: true } => promise == Ok::<V, WorkerError>(
                value,
            ),
            CallOutcome::Returned { value, is_promise: false } => {
                &&& promise is Err
                &&& promise->Err_0 is Internal
                &&& promise->Err_0->Internal_0@ == "module evaluate did not return a promise"@
            },
            CallOutcome::Failed { terminated: true, .. } => promise is Err && promise->Err_0
                is Terminated,
            CallOutcome::Failed { terminated: false, .. } => {
                &&& promise is Err
                &&& promise->Err_0 is Script
                &&& promise->Err_0->Script_0@ == text@
            },
        },
{
}

/// A module is evaluated if the wait for it succeeds. Otherwise the exception of
/// the module is reported, and where it has none, the error of the wait.
pub proof fn law_evaluations_are_waited_for(
    waited: Result<(), WorkerError>,
    exception: Option<String>,
    evaluated: Result<(), WorkerError>,
)
    requires
        call_ensures(evaluation_result, (waited, exception), evaluated),
    ensures
        evaluated is Ok <==> waited is Ok,
        waited is Err && exception is Some ==> {
            &&& evaluated->Err_0 is Script
            &&& evaluated->Err_0->Script_0@ == exception->0@
        },
        waited is Err && exception is None ==> evaluated->Err_0@ == waited->Err_0@,
        waited is Err && exception is None && waited->Err_0 is Terminated ==> evaluated->Err_0
            is Terminated,
{
}

/// A worker handles requests with the `fetch` function of its script's default
/// export. A script without one is told what is missing.
pub proof fn law_handlers_are_exported<V>(
    namespace: Option<Property<Property<V>>>,
    handler: Result<V, WorkerError>,
)
    requires
        call_ensures(extract_fetch_handler::<V>, (namespace,), handler),
    ensures
        handler is Ok <==> namespace is Some && namespace->0 is Is && namespace->0->Is_0 is Is,
        handler is Ok ==> handler->Ok_0 == namespace->0->Is_0->Is_0,
        handler is Err ==> match namespace {
            None => {
                &&& handler->Err_0 is Internal
                &&& handler->Err_0->Internal_0@ == "module namespace is not an object"@
            },
            Some(default) => {
                &&& handler->Err_0 is Script
                &&& handler->Err_0->Script_0@ == match default {
                    Property::Other => "default export is not an object"@,
                    Property::Is(Property::Other) => "fetch handler is not a function"@,
                    Property::Is(_) => "default export has no fetch handler"@,
                    _ => "script has no default export"@,
                }
            },
        },
{
}

/// The start of a worker goes on only where nothing went wrong, with what came of
/// it, and the functions of the runtime are kept until the end.
pub proof fn law_loads_go_on<V>(
    stage: LoadStage<V>,
    event: LoadEvent<V>,
    next: (LoadStage<V>, LoadAction<V>),
)
    requires
        load_expects(stage, event),
        call_ensures(load_step::<V>, (stage, event), next),
        !(next.1 is Fail),
    ensures
        match stage {
            LoadStage::Bootstrapping => {
                &&& event == LoadEvent::<V>::Ran(ScriptRun::Done)
                &&& next == (LoadStage::<V>::TakingHelpers, LoadAction::<V>::TakeHelpers)
            },
            LoadStage::TakingHelpers => {
                &&& event->runtime
                &&& event->build_request is Some
                &&& event->serialize_response is Some
                &&& next.0 == (LoadStage::Compiling {
                    helpers: (event->build_request->0, event->serialize_response->0),
                })
                &&& next.1 is Compile
            },
            LoadStage::Compiling { helpers } => {
                &&& event->Compiled_0 is Loaded
                &&& next == (LoadStage::Evaluating { helpers }, LoadAction::<V>::Evaluate)
            },
            LoadStage::Evaluating { helpers } => {
                &&& event->Evaluated_0 is Returned
                &&& event->Evaluated_0->is_promise
                &&& next.0 == (LoadStage::Awaiting { helpers })
                &&& next.1 == LoadAction::Await(event->Evaluated_0->value)
            },
            LoadStage::Awaiting { helpers } => {
                &&& event->result is Ok
                &&& next == (LoadStage::Extracting { helpers }, LoadAction::<V>::ReadExports)
            },
            LoadStage::Extracting { helpers } => {
                &&& next.0 is Over
                &&& next.1 is Start
                &&& next.1->Start_0.build_request == helpers.0
                &&& next.1->Start_0.serialize_response == helpers.1
                &&& event->Exports_0 == Some(
                    Property::Is(Property::Is(next.1->Start_0.fetch_handler)),
                )
            },
            LoadStage::Over => false,
        },
{
    match stage {
        LoadStage::Bootstrapping => {
            assert(next.1@ is TakeHelpers || next.1@ is Fail);
        },
        LoadStage::TakingHelpers => {
            assert(next.1@ is Compile || next.1@ is Fail);
        },
        LoadStage::Compiling { .. } => {
            assert(next.1@ is Evaluate || next.1@ is Fail);
        },
        LoadStage::Evaluating { .. } => {
            assert(next.1@ is Await || next.1@ is Fail);
        },
        LoadStage::Awaiting { .. } => {
            assert(next.1@ is ReadExports || next.1@ is Fail);
        },
        _ => {
            assert(next.1@ is Start || next.1@ is Fail);
        },
    }
}

/// The start of a worker fails only where something went wrong, with the error
/// that the part in question gives for it.
pub proof fn law_loads_fail_for_a_reason<V>(
    stage: LoadStage<V>,
    event: LoadEvent<V>,
    next: (LoadStage<V>, LoadAction<V>),
    ran: Result<(), WorkerError>,
    helpers: Result<(V, V), WorkerError>,
    module: Result<(), WorkerError>,
    promise: Result<V, WorkerError>,
    evaluated: Result<(), WorkerError>,
    handler: Result<V, WorkerError>,
)
    requires
        load_expects(stage, event),
        call_ensures(load_step::<V>, (stage, event), next),
        next.1 is Fail,
        event is Ran ==> call_ensures(run_script, ("tew:bootstrap.js", event->Ran_0), ran),
        event is Helpers ==> call_ensures(
            take_runtime_helpers::<V>,
            (event->runtime, event->build_request, event->serialize_response),
            helpers,
        ),
        event is Compiled ==> call_ensures(
            compile_and_instantiate::<()>,
            (event->Compiled_0,),
            module,
        ),
        event is Evaluated ==> call_ensures(
            evaluation_promise::<V>,
            (event->Evaluated_0,),
            promise,
        ),
        event is Waited ==> call_ensures(
            evaluation_result,
            (event->result, event->exception),
            evaluated,
        ),
        event is Exports ==> call_ensures(
            extract_fetch_handler::<V>,
            (event->Exports_0,),
            handler,
        ),
    ensures
        next.0 is Over,
        match event {
            LoadEvent::Ran(_) => ran is Err && next.1->Fail_0@ == ran->Err_0@,
            LoadEvent::Helpers { .. } => helpers is Err && next.1->Fail_0@ == helpers->Err_0@,
            LoadEvent::Compiled(_) => module is Err && next.1->Fail_0@ == module->Err_0@,
            LoadEvent::Evaluated(_) => promise is Err && next.1->Fail_0@ == promise->Err_0@,
            LoadEvent::Waited { .. } => evaluated is Err && next.1->Fail_0@ == evaluated->Err_0@,
            LoadEvent::Exports(_) => handler is Err && next.1->Fail_0@ == handler->Err_0@,
        },
{
    assert(next.1@ is Fail);
}

/// An expression has the text of its value; where it has none, the message says
/// why.
pub proof fn law_expressions_are_shown(
    run: EvalRun,
    result: Result<String, String>,
    exception: Option<String>,
    text: String,
)
    requires
        call_ensures(eval_result, (run,), result),
        run is NotCompiled ==> run->NotCompiled_0 == exception,
        run is Threw ==> run->Threw_0 == exception,
        call_ensures(exception_message, (exception,), text),
    ensures
        result is Ok <==> run is Value && run->Value_0 is Some,
        result is Ok ==> result->Ok_0@ == run->Value_0->0@,
        match run {
            EvalRun::TooLong => result->Err_0@ == "source too long"@,
            EvalRun::NotCompiled(_) => result->Err_0@ == "compile error: "@ + text@,
            EvalRun::Threw(_) => result->Err_0@ == "runtime error: "@ + text@,
            EvalRun::Value(None) => result->Err_0@ == "failed to stringify result"@,
            EvalRun::Value(Some(_)) => true,
        },
{
}

} // verus!
