//! The operations that a script starts and that finish later.
//!
//! A script that starts an operation gets a promise at once. What can settle
//! that promise, its resolver, waits in a table under the number of the
//! operation until a completion with that number arrives. A completion whose
//! number is not in the table any more is ignored, so operations can be
//! abandoned at any time.

use std::collections::HashMap;

use vstd::prelude::*;
use vstd::utf8::{decode_utf8, encode_utf8, valid_utf8};

use crate::http::{is_token, method_is_valid, visible, visible_headers};
use crate::text::{lossy_text, pairs, text_bytes, text_from_bytes};

verus! {

/// The news that an operation finished.
#[derive(Debug, PartialEq, Eq)]
pub enum LoopEvent {
    OpComplete { op_id: u64, result: Result<OpResult, String> },
}

/// What an operation that succeeded brought.
#[derive(Debug, PartialEq, Eq)]
pub enum OpResult {
    Timer,
    Fetch { status: u16, headers: Vec<(String, String)>, body: Vec<u8> },
}

/// The operations of a worker that have not finished, by their numbers, and
/// the number of the next one.
pub struct Ops<R> {
    pub table: Map<u64, R>,
    pub next: u64,
}

/// One call on the operations of a worker.
pub enum OpCall<R> {
    Register(R),
    Complete(u64),
    AbortAll,
}

/// The operations after one call.
pub open spec fn after_op<R>(ops: Ops<R>, call: OpCall<R>) -> Ops<R> {
    match call {
        OpCall::Register(resolver) => Ops {
            table: ops.table.insert(ops.next, resolver),
            next: (ops.next + 1) as u64,
        },
        OpCall::Complete(op_id) => Ops { table: ops.table.remove(op_id), next: ops.next },
        OpCall::AbortAll => Ops { table: Map::empty(), next: ops.next },
    }
}

/// The operations of one worker; `R` is the resolver of a promise.
pub struct OpState<R> {
    resolvers: HashMap<u64, R>,
    pending_ops: u64,
    next_op_id: u64,
    fetch_available: bool,
}

impl<R> View for OpState<R> {
    type V = Ops<R>;

    closed spec fn view(&self) -> Ops<R> {
        Ops { table: self.resolvers@, next: self.next_op_id }
    }
}

impl<R> OpState<R> {
    /// How many operations have not finished.
    pub closed spec fn pending(&self) -> u64 {
        self.pending_ops
    }

    /// Whether scripts can fetch.
    pub closed spec fn can_fetch(&self) -> bool {
        self.fetch_available
    }

    /// The count matches the table, and no number in it is yet to be given out.
    pub open spec fn wf(&self) -> bool {
        &&& self@.table.dom().finite()
        &&& self.pending() == self@.table.dom().len()
        &&& self.pending() <= self@.next
        &&& forall|op_id: u64| #[trigger] self@.table.contains_key(op_id) ==> op_id < self@.next
    }

    /// No operations yet.
    pub fn new(fetch_available: bool) -> (state: Self)
        ensures
            state.wf(),
            state@ == (Ops::<R> { table: Map::empty(), next: 0 }),
            state.can_fetch() == fetch_available,
    {
        OpState { resolvers: HashMap::new(), pending_ops: 0, next_op_id: 0, fetch_available }
    }

    /// How many operations have not finished.
    pub fn pending_ops(&self) -> (count: u64)
        ensures
            count == self.pending(),
    {
        self.pending_ops
    }

    /// Whether another operation can be started.
    pub fn has_room(&self) -> (yes: bool)
        ensures
            yes == (self@.next < u64::MAX),
    {
        self.next_op_id < u64::MAX
    }

    /// Enters an operation and gives it a number.
    pub fn register(&mut self, resolver: R) -> (op_id: u64)
        requires
            old(self).wf(),
            old(self)@.next < u64::MAX,
        ensures
            final(self).wf(),
            op_id == old(self)@.next,
            final(self)@ == after_op(old(self)@, OpCall::Register(resolver)),
            final(self).can_fetch() == old(self).can_fetch(),
    {
        let op_id: u64 = self.next_op_id;
        self.next_op_id = self.next_op_id + 1;
        self.resolvers.insert(op_id, resolver);
        self.pending_ops = self.pending_ops + 1;
        op_id
    }

    /// Takes a finished operation out of the table, if it is still there.
    pub fn complete(&mut self, op_id: u64) -> (resolver: Option<R>)
        requires
            old(self).wf(),
        ensures
            final(self).wf(),
            match resolver {
                Some(r) => old(self)@.table.contains_key(op_id) && r == old(self)@.table[op_id],
                None => !old(self)@.table.contains_key(op_id),
            },
            final(self)@ == after_op(old(self)@, OpCall::Complete(op_id)),
            final(self).can_fetch() == old(self).can_fetch(),
    {
        match self.resolvers.remove(&op_id) {
            Some(resolver) => {
                self.pending_ops = self.pending_ops - 1;
                Some(resolver)
            },
            None => {
                proof {
                    assert(self@.table =~= old(self)@.table.remove(op_id));
                }
                None
            },
        }
    }

    /// Abandons all operations. A completion that arrives late finds nothing.
    pub fn abort_all(&mut self)
        requires
            old(self).wf(),
        ensures
            final(self).wf(),
            final(self)@ == after_op(old(self)@, OpCall::AbortAll),
            final(self).can_fetch() == old(self).can_fetch(),
    {
        self.resolvers.clear();
        self.pending_ops = 0;
    }
}

/// What happens to the promise of an operation that finished.
#[derive(Debug, PartialEq, Eq)]
pub enum Settlement<R> {
    /// Nothing: the operation was abandoned.
    Ignore,
    /// It is resolved with `undefined`.
    ResolveUndefined { resolver: R },
    /// It is resolved with what a fetch brought.
    ResolveFetched { resolver: R, status: u32, headers: Vec<(String, String)>, body: Vec<u8> },
    /// It is rejected with a `TypeError`.
    RejectTypeError { resolver: R, message: String },
}

/// What happens to the promise of `resolver` when its operation brought `result`.
pub open spec fn settled<R>(resolver: R, result: Result<OpResult, String>) -> Settlement<R> {
    match result {
        Ok(OpResult::Timer) => Settlement::ResolveUndefined { resolver },
        Ok(OpResult::Fetch { status, headers, body }) => Settlement::ResolveFetched {
            resolver,
            status: status as u32,
            headers,
            body,
        },
        Err(message) => Settlement::RejectTypeError { resolver, message },
    }
}

/// Takes a completion in and says what happens to the promise.
pub fn complete_op<R>(state: &mut OpState<R>, event: LoopEvent) -> (settlement: Settlement<R>)
    requires
        old(state).wf(),
    ensures
        final(state).wf(),
        match event {
            LoopEvent::OpComplete { op_id, result } => {
                &&& final(state)@ == after_op(old(state)@, OpCall::Complete(op_id))
                &&& settlement == if old(state)@.table.contains_key(op_id) {
                    settled(old(state)@.table[op_id], result)
                } else {
                    Settlement::Ignore
                }
            },
        },
        final(state).can_fetch() == old(state).can_fetch(),
{
    let LoopEvent::OpComplete { op_id, result } = event;
    match state.complete(op_id) {
        None => Settlement::Ignore,
        Some(resolver) => match result {
            Ok(OpResult::Timer) => Settlement::ResolveUndefined { resolver },
            Ok(OpResult::Fetch { status, headers, body }) => Settlement::ResolveFetched {
                resolver,
                status: status as u32,
                headers,
                body,
            },
            Err(message) => Settlement::RejectTypeError { resolver, message },
        },
    }
}

/// The two texts of a `[key, value]` row, each of them if it has a text.
#[derive(Debug, PartialEq, Eq)]
pub struct JsPair {
    pub key: Option<String>,
    pub value: Option<String>,
}

/// The rows that are pairs and have both texts, in order.
pub open spec fn complete_pairs(rows: Seq<Option<JsPair>>) -> Seq<(Seq<char>, Seq<char>)>
    decreases rows.len(),
{
    if rows.len() == 0 {
        Seq::empty()
    } else {
        let earlier = complete_pairs(rows.drop_last());
        match rows.last() {
            Some(JsPair { key: Some(key), value: Some(value) }) => earlier.push((key@, value@)),
            _ => earlier,
        }
    }
}

/// The headers that a script gave: none where it gave no array.
pub open spec fn given_headers(rows: Option<Vec<Option<JsPair>>>) -> Seq<(Seq<char>, Seq<char>)> {
    match rows {
        Some(rows) => complete_pairs(rows@),
        None => Seq::empty(),
    }
}

/// The headers of a `[[key, value], ...]` array; rows that are no pairs of
/// texts are left out, and what is no array (`None`) holds no headers.
pub fn js_header_pairs(rows: &Option<Vec<Option<JsPair>>>) -> (headers: Vec<(String, String)>)
    ensures
        pairs(headers@) == given_headers(*rows),
{
    let mut headers: Vec<(String, String)> = Vec::new();
    proof {
        assert(pairs(headers@) =~= Seq::<(Seq<char>, Seq<char>)>::empty());
    }
    match rows {
        Some(rows) => {
            for i in 0..rows.len()
                invariant
                    pairs(headers@) == complete_pairs(rows@.take(i as int)),
            {
                let ghost before = headers@;
                proof {
                    assert(rows@.take(i + 1).drop_last() =~= rows@.take(i as int));
                    assert(rows@.take(i + 1).last() == rows@[i as int]);
                }
                match &rows[i] {
                    Some(JsPair { key: Some(key), value: Some(value) }) => {
                        headers.push((key.clone(), value.clone()));
                        proof {
                            assert(pairs(headers@) =~= pairs(before).push((key@, value@)));
                        }
                    },
                    _ => {},
                }
            }
            proof {
                assert(rows@.take(rows@.len() as int) =~= rows@);
            }
        },
        None => {},
    }
    headers
}

/// A request that a script wants to have sent.
#[derive(Debug, PartialEq, Eq)]
pub struct FetchRequest {
    pub url: String,
    pub method: String,
    pub headers: Vec<(String, String)>,
    pub body: Option<Vec<u8>>,
}

/// What comes of a script's call of `fetch`.
#[derive(Debug, PartialEq, Eq)]
pub enum FetchStart<R> {
    /// The promise is rejected at once.
    Rejected { resolver: R, message: String },
    /// The operation runs: the request is to be sent, and its end reported
    /// under this number.
    Started { op_id: u64, request: FetchRequest },
}

/// Starts a fetch with the arguments that a script gave; each text is `None`
/// where the argument has none.
pub fn start_fetch<R>(
    state: &mut OpState<R>,
    resolver: R,
    url: Option<String>,
    method: Option<String>,
    headers: &Option<Vec<Option<JsPair>>>,
    body: Option<Vec<u8>>,
) -> (start: FetchStart<R>)
    requires
        old(state).wf(),
        old(state).can_fetch() ==> old(state)@.next < u64::MAX,
    ensures
        final(state).wf(),
        final(state).can_fetch() == old(state).can_fetch(),
        match start {
            FetchStart::Rejected { resolver: rejected, message } => {
                &&& !old(state).can_fetch()
                &&& rejected == resolver
                &&& message@ == "fetch is not available in this runtime"@
                &&& final(state)@ == old(state)@
            },
            FetchStart::Started { op_id, request } => {
                &&& old(state).can_fetch()
                &&& op_id == old(state)@.next
                &&& final(state)@ == after_op(old(state)@, OpCall::Register(resolver))
                &&& request.url@ == match url {
                    Some(url) => url@,
                    None => Seq::empty(),
                }
                &&& request.method@ == match method {
                    Some(method) => method@,
                    None => "GET"@,
                }
                &&& pairs(request.headers@) == given_headers(*headers)
                &&& request.body == body
            },
        },
{
    let url = match url {
        Some(url) => url,
        None => String::new(),
    };
    let method = match method {
        Some(method) => method,
        None => "GET".to_owned(),
    };
    let headers = js_header_pairs(headers);
    if !state.fetch_available {
        return FetchStart::Rejected {
            resolver,
            message: "fetch is not available in this runtime".to_owned(),
        };
    }
    let op_id: u64 = state.register(resolver);
    FetchStart::Started { op_id, request: FetchRequest { url, method, headers, body } }
}

/// Refuses a request whose method is no HTTP token.
pub fn check_fetch(request: FetchRequest) -> (checked: Result<FetchRequest, String>)
    ensures
        match checked {
            Ok(same) => is_token(request.method@) && same == request,
            Err(message) => !is_token(request.method@) && message@ == "invalid method: "@
                + request.method@,
        },
{
    if method_is_valid(request.method.as_str()) {
        Ok(request)
    } else {
        Err("invalid method: ".to_owned().concat(request.method.as_str()))
    }
}

/// A response as it came in.
#[derive(Debug, PartialEq, Eq)]
pub struct FetchResponse {
    pub status: u16,
    pub headers: Vec<(String, Vec<u8>)>,
    pub body: Vec<u8>,
}

/// The result of a fetch: of the headers, those whose values are visible ASCII.
pub fn fetch_result(response: Result<FetchResponse, String>) -> (result: Result<OpResult, String>)
    ensures
        match response {
            Ok(response) => {
                &&& result is Ok
                &&& result->Ok_0 is Fetch
                &&& result->Ok_0->status == response.status
                &&& pairs(result->Ok_0->headers@) == visible(response.headers@)
                &&& result->Ok_0->body == response.body
            },
            Err(message) => result == Err::<OpResult, String>(message),
        },
{
    match response {
        Ok(response) => Ok(
            OpResult::Fetch {
                status: response.status,
                headers: visible_headers(&response.headers),
                body: response.body,
            },
        ),
        Err(message) => Err(message),
    }
}

/// The bytes that a script gets for a text; for what has no text, none.
pub fn op_encode_utf8(text: Option<String>) -> (bytes: Vec<u8>)
    ensures
        bytes@ == match text {
            Some(text) => encode_utf8(text@),
            None => Seq::empty(),
        },
{
    match text {
        Some(text) => text_bytes(text.as_str()),
        None => Vec::new(),
    }
}

/// The text that a script gets for bytes, or the message of the `TypeError`
/// for what holds no bytes (`None`). The bytes of a text give that text back.
pub fn op_decode_utf8(bytes: Option<Vec<u8>>) -> (text: Result<String, String>)
    ensures
        match bytes {
            Some(bytes) => {
                &&& text is Ok
                &&& text->Ok_0@ == lossy_text(bytes@)
                &&& forall|original: Seq<char>|
                    bytes@ == #[trigger] encode_utf8(original) ==> text->Ok_0@ == original
            },
            None => text is Err && text->Err_0@ == "decodeUtf8 expects an ArrayBuffer or view"@,
        },
{
    match bytes {
        Some(bytes) => {
            proof {
                assert forall|original: Seq<char>| bytes@ == #[trigger] encode_utf8(
                    original,
                ) implies valid_utf8(bytes@) && decode_utf8(bytes@) == original by {
                    vstd::utf8::encode_utf8_valid_utf8(original);
                    vstd::utf8::encode_utf8_decode_utf8(original);
                }
            }
            Ok(text_from_bytes(bytes.as_slice()))
        },
        None => Err("decodeUtf8 expects an ArrayBuffer or view".to_owned()),
    }
}

/// The operations after `calls`.
pub open spec fn after_ops<R>(ops: Ops<R>, calls: Seq<OpCall<R>>) -> Ops<R>
    decreases calls.len(),
{
    if calls.len() == 0 {
        ops
    } else {
        after_op(after_ops(ops, calls.drop_last()), calls.last())
    }
}

/// An operation that is over, because it finished or was abandoned, stays over
/// whatever is called afterwards: its number is not given out again, so a
/// completion that arrives late is ignored. (Before the numbers run out.)
pub proof fn law_late_completions_are_ignored<R>(ops: Ops<R>, calls: Seq<OpCall<R>>, op_id: u64)
    requires
        op_id < ops.next,
        !ops.table.contains_key(op_id),
        ops.next + calls.len() <= u64::MAX,
    ensures
        !after_ops(ops, calls).table.contains_key(op_id),
        ops.next <= after_ops(ops, calls).next <= ops.next + calls.len(),
    decreases calls.len(),
{
    if calls.len() > 0 {
        law_late_completions_are_ignored(ops, calls.drop_last(), op_id);
    }
}

/// Operations may finish in any order: each settles its own promise, and the
/// table is the same in the end.
pub proof fn law_completions_commute<R>(ops: Ops<R>, first: u64, second: u64)
    requires
        first != second,
    ensures
        after_ops(ops, seq![OpCall::Complete(first), OpCall::Complete(second)]) == after_ops(
            ops,
            seq![OpCall::Complete(second), OpCall::Complete(first)],
        ),
        ops.table.contains_key(second) ==> {
            &&& after_op(ops, OpCall::Complete(first)).table.contains_key(second)
            &&& after_op(ops, OpCall::Complete(first)).table[second] == ops.table[second]
        },
{
    lemma_two_calls(ops, OpCall::Complete(first), OpCall::Complete(second));
    lemma_two_calls(ops, OpCall::Complete(second), OpCall::Complete(first));
    assert(ops.table.remove(first).remove(second) =~= ops.table.remove(second).remove(first));
}

proof fn lemma_two_calls<R>(ops: Ops<R>, a: OpCall<R>, b: OpCall<R>)
    ensures
        after_ops(ops, seq![a, b]) == after_op(after_op(ops, a), b),
{
    reveal_with_fuel(after_ops, 3);
    assert(seq![a, b].drop_last() =~= seq![a]);
    assert(seq![a].drop_last() =~= Seq::<OpCall<R>>::empty());
}

/// A completion settles the promise of its operation, and of no other one, with
/// exactly what the operation brought: a timer with `undefined`, a fetch with
/// its status, its headers and its body, and a failure with a `TypeError` that
/// carries its message. A completion of an operation that is over does nothing.
pub proof fn law_operations_settle_with_their_results<R>(
    state: &mut OpState<R>,
    op_id: u64,
    result: Result<OpResult, String>,
    settlement: Settlement<R>,
)
    requires
        call_ensures(
            complete_op::<R>,
            (state, LoopEvent::OpComplete { op_id, result }),
            settlement,
        ),
    ensures
        settlement is Ignore <==> !old(state)@.table.contains_key(op_id),
        old(state)@.table.contains_key(op_id) ==> match result {
            Ok(OpResult::Timer) => settlement == (Settlement::ResolveUndefined {
                resolver: old(state)@.table[op_id],
            }),
            Ok(OpResult::Fetch { status, headers, body }) => {
                &&& settlement is ResolveFetched
                &&& settlement->ResolveFetched_resolver == old(state)@.table[op_id]
                &&& settlement->status == status
                &&& settlement->headers == headers
                &&& settlement->body == body
            },
            Err(message) => settlement == (Settlement::RejectTypeError {
                resolver: old(state)@.table[op_id],
                message,
            }),
        },
        settlement is ResolveUndefined ==> result == Ok::<OpResult, String>(OpResult::Timer),
        settlement is ResolveFetched ==> result is Ok && result->Ok_0 is Fetch,
        settlement is RejectTypeError ==> result is Err,
        !final(state)@.table.contains_key(op_id),
        forall|other: u64|
            other != op_id ==> {
                &&& #[trigger] final(state)@.table.contains_key(other)
                    == old(state)@.table.contains_key(other)
                &&& final(state)@.table[other] == old(state)@.table[other]
            },
        final(state)@.next == old(state)@.next,
{
}

/// An operation that is entered gets a number that no operation had before,
/// waits under it until it is over, and counts as one that has not finished.
pub proof fn law_operations_are_entered<R>(state: &mut OpState<R>, resolver: R, op_id: u64)
    requires
        old(state).wf(),
        old(state)@.next < u64::MAX,
        call_ensures(OpState::<R>::register, (state, resolver), op_id),
    ensures
        !old(state)@.table.contains_key(op_id),
        op_id < final(state)@.next,
        old(state)@.next < final(state)@.next,
        final(state)@.table.contains_key(op_id),
        final(state)@.table[op_id] == resolver,
        forall|other: u64|
            other != op_id ==> {
                &&& #[trigger] final(state)@.table.contains_key(other)
                    == old(state)@.table.contains_key(other)
                &&& final(state)@.table[other] == old(state)@.table[other]
            },
        final(state).pending() == old(state).pending() + 1,
{
}

/// An operation is handed out once: its own resolver, and nothing afterwards.
pub proof fn law_operations_finish_once<R>(
    state: &mut OpState<R>,
    again: &mut OpState<R>,
    op_id: u64,
    resolver: Option<R>,
    nothing: Option<R>,
)
    requires
        old(state).wf(),
        call_ensures(OpState::<R>::complete, (state, op_id), resolver),
        *old(again) == *final(state),
        call_ensures(OpState::<R>::complete, (again, op_id), nothing),
    ensures
        old(state)@.table.contains_key(op_id) ==> resolver == Some(old(state)@.table[op_id]),
        !old(state)@.table.contains_key(op_id) ==> resolver is None,
        nothing is None,
        final(state).pending() == old(state).pending() - if resolver is Some {
            1int
        } else {
            0int
        },
        final(again).pending() == final(state).pending(),
{
    assert(final(state)@.table.remove(op_id) =~= final(state)@.table);
    if !old(state)@.table.contains_key(op_id) {
        assert(old(state)@.table.remove(op_id) =~= old(state)@.table);
    }
}

/// Once all operations are abandoned, none is left, and numbers that were given
/// out are not given out again.
pub proof fn law_abandoned_operations_are_gone<R>(state: &mut OpState<R>, op_id: u64)
    requires
        call_ensures(OpState::<R>::abort_all, (state,), ()),
    ensures
        !final(state)@.table.contains_key(op_id),
        final(state).pending() == 0,
        final(state)@.next == old(state)@.next,
{
}

/// A worker starts without operations.
pub proof fn law_no_operations_at_first<R>(fetch_available: bool, state: OpState<R>, op_id: u64)
    requires
        call_ensures(OpState::<R>::new, (fetch_available,), state),
    ensures
        !state@.table.contains_key(op_id),
        state.pending() == 0,
        state.can_fetch() == fetch_available,
{
}

/// The headers that a script gives are its rows, one by one and in order: a row
/// that is a pair of texts adds that pair, and any other row adds nothing.
pub proof fn law_header_rows_are_pairs(
    rows: Vec<Option<JsPair>>,
    row: Option<JsPair>,
    more: Vec<Option<JsPair>>,
    headers: Vec<(String, String)>,
    longer: Vec<(String, String)>,
)
    requires
        more@ == rows@.push(row),
        call_ensures(js_header_pairs, (&Some(rows),), headers),
        call_ensures(js_header_pairs, (&Some(more),), longer),
    ensures
        rows@.len() == 0 ==> headers@.len() == 0,
        match row {
            Some(JsPair { key: Some(key), value: Some(value) }) => {
                &&& longer@.len() == headers@.len() + 1
                &&& longer@.last().0@ == key@
                &&& longer@.last().1@ == value@
            },
            _ => longer@.len() == headers@.len(),
        },
        forall|i: int|
            0 <= i < headers@.len() ==> (#[trigger] longer@[i]).0@ == headers@[i].0@
                && longer@[i].1@ == headers@[i].1@,
{
    assert(more@.drop_last() =~= rows@);
    assert(pairs(headers@).len() == headers@.len());
    assert(pairs(longer@).len() == longer@.len());
    assert forall|i: int| 0 <= i < headers@.len() implies (#[trigger] longer@[i]).0@
        == headers@[i].0@ && longer@[i].1@ == headers@[i].1@ by {
        assert(pairs(longer@)[i] == pairs(headers@)[i]);
    }
    if longer@.len() > headers@.len() {
        let last = longer@.len() - 1;
        assert(pairs(longer@)[last] == (longer@[last].0@, longer@[last].1@));
    }
}

/// What is no array holds no headers.
pub proof fn law_no_header_rows(headers: Vec<(String, String)>)
    requires
        call_ensures(js_header_pairs, (&None,), headers),
    ensures
        headers@.len() == 0,
{
    assert(pairs(headers@).len() == headers@.len());
}

/// A fetch of a worker that can fetch is entered as an operation, and the
/// request to be sent is what the script asked for. Where a worker cannot fetch,
/// the promise is rejected and nothing else happens.
pub proof fn law_fetches_ask_for_what_was_given<R>(
    state: &mut OpState<R>,
    resolver: R,
    url: Option<String>,
    method: Option<String>,
    rows: Option<Vec<Option<JsPair>>>,
    body: Option<Vec<u8>>,
    start: FetchStart<R>,
    headers: Vec<(String, String)>,
)
    requires
        call_ensures(
            start_fetch::<R>,
            (state, resolver, url, method, &rows, body),
            start,
        ),
        call_ensures(js_header_pairs, (&rows,), headers),
    ensures
        start is Started <==> old(state).can_fetch(),
        match start {
            FetchStart::Started { op_id, request } => {
                &&& final(state)@.table.contains_key(op_id)
                &&& final(state)@.table[op_id] == resolver
                &&& url is Some ==> request.url@ == url->0@
                &&& url is None ==> request.url@.len() == 0
                &&& method is Some ==> request.method@ == method->0@
                &&& method is None ==> request.method@ == "GET"@
                &&& request.headers@.len() == headers@.len()
                &&& forall|i: int|
                    0 <= i < headers@.len() ==> (#[trigger] request.headers@[i]).0@
                        == headers@[i].0@ && request.headers@[i].1@ == headers@[i].1@
                &&& request.body == body
            },
            FetchStart::Rejected { resolver: rejected, message } => {
                &&& rejected == resolver
                &&& message@ == "fetch is not available in this runtime"@
                &&& final(state)@ == old(state)@
            },
        },
{
    if start is Started {
        let sent = start->request.headers@;
        assert(pairs(sent).len() == sent.len());
        assert(pairs(headers@).len() == headers@.len());
        assert forall|i: int| 0 <= i < headers@.len() implies (#[trigger] sent[i]).0@
            == headers@[i].0@ && sent[i].1@ == headers@[i].1@ by {
            assert(pairs(sent)[i] == pairs(headers@)[i]);
        }
    }
}

/// A request is sent exactly as it was asked for, if its method is one that HTTP
/// allows; otherwise the method is named as the reason.
pub proof fn law_fetches_are_sent_unchanged(
    request: FetchRequest,
    checked: Result<FetchRequest, String>,
)
    requires
        call_ensures(check_fetch, (request,), checked),
    ensures
        checked is Ok <==> is_token(request.method@),
        checked is Ok ==> checked->Ok_0 == request,
        checked is Err ==> checked->Err_0@ == "invalid method: "@ + request.method@,
{
}

/// What a fetch brings is the response as it came in: its status, its body and,
/// in order, the headers that are text.
pub proof fn law_fetches_bring_the_response(
    response: Result<FetchResponse, String>,
    result: Result<OpResult, String>,
    headers: Vec<(String, String)>,
)
    requires
        call_ensures(fetch_result, (response,), result),
        response is Ok ==> call_ensures(visible_headers, (&response->Ok_0.headers,), headers),
    ensures
        match response {
            Ok(response) => {
                &&& result is Ok
                &&& result->Ok_0 is Fetch
                &&& result->Ok_0->status == response.status
                &&& result->Ok_0->body@ == response.body@
                &&& pairs(result->Ok_0->headers@) == pairs(headers@)
            },
            Err(message) => result is Err && result->Err_0@ == message@,
        },
{
}

/// Text survives the way into bytes and back.
pub proof fn law_utf8_reads_back(text: String, bytes: Vec<u8>, back: Result<String, String>)
    requires
        call_ensures(op_encode_utf8, (Some(text),), bytes),
        call_ensures(op_decode_utf8, (Some(bytes),), back),
    ensures
        back is Ok,
        back->Ok_0@ == text@,
{
}

/// What has no text has no bytes, and what holds no bytes is refused.
pub proof fn law_utf8_of_nothing(bytes: Vec<u8>, text: Result<String, String>)
    requires
        call_ensures(op_encode_utf8, (None,), bytes),
        call_ensures(op_decode_utf8, (None,), text),
    ensures
        bytes@.len() == 0,
        text is Err,
        text->Err_0@ == "decodeUtf8 expects an ArrayBuffer or view"@,
{
}

/// Operations can be started until the numbers run out.
pub proof fn law_operations_have_room<R>(state: OpState<R>, yes: bool, count: u64)
    requires
        call_ensures(OpState::<R>::has_room, (&state,), yes),
        call_ensures(OpState::<R>::pending_ops, (&state,), count),
    ensures
        yes <==> state@.next < u64::MAX,
        count == state.pending(),
{
}

} // verus!
