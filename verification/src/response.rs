//! The HTTP responses of the transport layer, as plain values.
//!
//! A response is described here by its status code, headers and body bytes.
//! The server glue turns such a description into the response type of the
//! HTTP stack it runs on.

use vstd::prelude::*;
use vstd::slice::slice_to_vec;
use vstd::utf8::encode_utf8;

verus! {

/// One response header.
#[derive(Debug, PartialEq, Eq)]
pub struct Header {
    pub name: String,
    pub value: String,
}

/// A response: status code, headers in the order they were set, body bytes.
#[derive(Debug, PartialEq, Eq)]
pub struct HttpResponse {
    pub status: u16,
    pub headers: Vec<Header>,
    pub body: Vec<u8>,
}

/// The mathematical content of an [`HttpResponse`].
pub struct ResponseView {
    pub status: u16,
    pub headers: Seq<(Seq<char>, Seq<char>)>,
    pub body: Seq<u8>,
}

impl View for HttpResponse {
    type V = ResponseView;

    open spec fn view(&self) -> ResponseView {
        ResponseView {
            status: self.status,
            headers: Seq::new(
                self.headers@.len(),
                |i: int| (self.headers@[i].name@, self.headers@[i].value@),
            ),
            body: self.body@,
        }
    }
}

/// Why a response could not be built.
#[derive(Clone, Copy, Debug, PartialEq, Eq, Structural)]
pub enum HttpError {
    /// The status code is not a three-digit number.
    InvalidStatusCode,
}

/// The status codes that HTTP allows: 100 to 999.
pub open spec fn valid_status(code: u16) -> bool {
    100 <= code < 1000
}

/// Calls `http::StatusCode::from_u16`.
///
/// Trusted: the call accepts exactly the codes from 100 to 999.
#[verifier::external_body]
fn status_code_accepted(code: u16) -> (ok: bool)
    ensures
        ok == valid_status(code),
{
    http::StatusCode::from_u16(code).is_ok()
}

/// The response with status `code`, no headers and body `body`.
pub open spec fn plain_response(code: u16, body: Seq<u8>) -> ResponseView {
    ResponseView { status: code, headers: Seq::empty(), body }
}

/// Builds the response with status `code` and body `data`.
pub fn http_response(code: u16, data: Vec<u8>) -> (r: Result<HttpResponse, HttpError>)
    ensures
        if valid_status(code) {
            r matches Ok(resp) && resp@ == plain_response(code, data@)
        } else {
            r matches Err(e) && e == HttpError::InvalidStatusCode
        },
{
    if !status_code_accepted(code) {
        return Err(HttpError::InvalidStatusCode);
    }
    let resp = HttpResponse { status: code, headers: Vec::new(), body: data };
    assert(resp@.headers =~= Seq::empty());
    Ok(resp)
}

/// Builds the response with status `code` and an empty body.
pub fn http_empty_response(code: u16) -> (r: Result<HttpResponse, HttpError>)
    ensures
        if valid_status(code) {
            r matches Ok(resp) && resp@ == plain_response(code, Seq::empty())
        } else {
            r matches Err(e) && e == HttpError::InvalidStatusCode
        },
{
    http_response(code, Vec::new())
}

/// The `Sec-WebSocket-Accept` value that answers the `Sec-WebSocket-Key`
/// `request_key`: the base64 text of the SHA-1 digest of the key followed by
/// the protocol's fixed GUID.
pub uninterp spec fn accept_key(request_key: Seq<u8>) -> Seq<char>;

/// Calls `tungstenite::handshake::derive_accept_key`.
///
/// Trusted: the result is a function of the key bytes alone, named
/// [`accept_key`].
#[verifier::external_body]
fn derive_accept_key(request_key: &[u8]) -> (r: String)
    ensures
        r@ == accept_key(request_key@),
{
    tokio_tungstenite::tungstenite::handshake::derive_accept_key(request_key)
}

/// The response that switches protocols, given the accept value: status 101,
/// the headers `upgrade: websocket`, `connection: Upgrade` and
/// `sec-websocket-accept`, and no body.
pub open spec fn switching_protocols(accept: Seq<char>) -> ResponseView {
    ResponseView {
        status: 101,
        headers: seq![
            ("upgrade"@, "websocket"@),
            ("connection"@, "Upgrade"@),
            ("sec-websocket-accept"@, accept),
        ],
        body: Seq::empty(),
    }
}

/// Builds the response that completes a WebSocket handshake whose accept value
/// is `accept`.
pub fn ws_response_with_accept(accept: String) -> (r: HttpResponse)
    ensures
        r@ == switching_protocols(accept@),
{
    let mut headers: Vec<Header> = Vec::new();
    headers.push(Header { name: "upgrade".to_owned(), value: "websocket".to_owned() });
    headers.push(Header { name: "connection".to_owned(), value: "Upgrade".to_owned() });
    headers.push(Header { name: "sec-websocket-accept".to_owned(), value: accept });
    let resp = HttpResponse { status: 101, headers, body: Vec::new() };
    assert(resp@.headers =~= switching_protocols(accept@).headers);
    resp
}

/// Builds the response that completes the WebSocket handshake opened with the
/// `Sec-WebSocket-Key` header `ws_key`.
pub fn ws_response(ws_key: &[u8]) -> (r: HttpResponse)
    ensures
        r@ == switching_protocols(accept_key(ws_key@)),
{
    ws_response_with_accept(derive_accept_key(ws_key))
}

/// What a response future holds.
#[allow(inconsistent_fields)]
pub enum ResponseFutureInner<F, A> {
    CustomRespose { body: String },
    EmptyResponse { code: u16 },
    AsyncResponse { future: A },
    Future { future: F },
}

/// The answer to a request: a response that is known already, or a future
/// that will give one.
///
/// `F` is the future of the inner service, `A` a boxed future of a finished
/// response.
pub struct ResponseFuture<F, A> {
    pub inner: ResponseFutureInner<F, A>,
}

/// What polling a [`ResponseFuture`] comes to.
#[derive(Debug, PartialEq, Eq)]
pub enum PollStep {
    /// The response is ready.
    Ready(HttpResponse),
    /// The inner service's future is to be polled, and its body wrapped.
    PollFuture,
    /// The boxed future is to be polled; its response is passed on as it is.
    PollAsyncResponse,
}

impl<F, A> ResponseFuture<F, A> {
    pub fn empty_response(code: u16) -> (r: Self)
        ensures
            r.inner == (ResponseFutureInner::<F, A>::EmptyResponse { code }),
    {
        Self { inner: ResponseFutureInner::EmptyResponse { code } }
    }

    pub fn custom_response(body: String) -> (r: Self)
        ensures
            r.inner == (ResponseFutureInner::<F, A>::CustomRespose { body }),
    {
        Self { inner: ResponseFutureInner::CustomRespose { body } }
    }

    pub fn new(future: F) -> (r: Self)
        ensures
            r.inner == (ResponseFutureInner::<F, A>::Future { future }),
    {
        Self { inner: ResponseFutureInner::Future { future } }
    }

    pub fn async_response(future: A) -> (r: Self)
        ensures
            r.inner == (ResponseFutureInner::<F, A>::AsyncResponse { future }),
    {
        Self { inner: ResponseFutureInner::AsyncResponse { future } }
    }

    /// What a poll of this future does.
    ///
    /// An empty response is ready with its status code and no body, unless the
    /// code is not a valid status. A custom response is ready with status 200
    /// and the text as its body. The two kinds that hold a future are polled.
    pub fn poll(&self) -> (r: Result<PollStep, HttpError>)
        ensures
            match self.inner {
                ResponseFutureInner::EmptyResponse { code } => if valid_status(code) {
                    r matches Ok(PollStep::Ready(resp)) && resp@ == plain_response(
                        code,
                        Seq::empty(),
                    )
                } else {
                    r matches Err(e) && e == HttpError::InvalidStatusCode
                },
                ResponseFutureInner::CustomRespose { body } => r matches Ok(PollStep::Ready(resp))
                    && resp@ == plain_response(200, encode_utf8(body@)),
                ResponseFutureInner::Future { .. } => r matches Ok(PollStep::PollFuture),
                ResponseFutureInner::AsyncResponse { .. } => r matches Ok(
                    PollStep::PollAsyncResponse,
                ),
            },
    {
        match &self.inner {
            ResponseFutureInner::Future { .. } => Ok(PollStep::PollFuture),
            ResponseFutureInner::EmptyResponse { code } => match http_empty_response(*code) {
                Ok(resp) => Ok(PollStep::Ready(resp)),
                Err(e) => Err(e),
            },
            ResponseFutureInner::CustomRespose { body } => {
                let bytes = slice_to_vec(body.as_str().as_bytes());
                match http_response(200, bytes) {
                    Ok(resp) => Ok(PollStep::Ready(resp)),
                    Err(e) => Err(e),
                }
            },
            ResponseFutureInner::AsyncResponse { .. } => Ok(PollStep::PollAsyncResponse),
        }
    }
}

} // verus!
