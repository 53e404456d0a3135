//! The request and the response that the HTTP front end and a worker exchange.
//!
//! Both are plain values, so that neither side depends on how the other works.

use vstd::prelude::*;

use crate::text::pairs;

verus! {

/// One HTTP request as a worker sees it.
#[derive(Debug, Clone, PartialEq, Eq)]
pub struct WorkerRequest {
    pub method: String,
    /// An absolute URL.
    pub url: String,
    pub headers: Vec<(String, String)>,
    pub body: Vec<u8>,
}

/// One HTTP response as a worker gives it.
#[derive(Debug, Clone, PartialEq, Eq)]
pub struct WorkerResponse {
    pub status: u16,
    pub headers: Vec<(String, String)>,
    pub body: Vec<u8>,
}

/// What a request says.
pub struct RequestView {
    pub method: Seq<char>,
    pub url: Seq<char>,
    pub headers: Seq<(Seq<char>, Seq<char>)>,
    pub body: Seq<u8>,
}

/// What a response says.
pub struct ResponseView {
    pub status: u16,
    pub headers: Seq<(Seq<char>, Seq<char>)>,
    pub body: Seq<u8>,
}

impl View for WorkerRequest {
    type V = RequestView;

    open spec fn view(&self) -> RequestView {
        RequestView {
            method: self.method@,
            url: self.url@,
            headers: pairs(self.headers@),
            body: self.body@,
        }
    }
}

impl View for WorkerResponse {
    type V = ResponseView;

    open spec fn view(&self) -> ResponseView {
        ResponseView { status: self.status, headers: pairs(self.headers@), body: self.body@ }
    }
}

/// What a request and a response say is what their parts say.
pub proof fn law_messages_are_their_parts(request: WorkerRequest, response: WorkerResponse)
    ensures
        request@.method == request.method@,
        request@.url == request.url@,
        request@.body == request.body@,
        request@.headers.len() == request.headers@.len(),
        forall|i: int|
            0 <= i < request.headers@.len() ==> #[trigger] request@.headers[i] == (
                request.headers@[i].0@,
                request.headers@[i].1@,
            ),
        response@.status == response.status,
        response@.body == response.body@,
        response@.headers.len() == response.headers@.len(),
        forall|i: int|
            0 <= i < response.headers@.len() ==> #[trigger] response@.headers[i] == (
                response.headers@[i].0@,
                response.headers@[i].1@,
            ),
{
}

} // verus!
