//! The typed request/response model of the fetch helper. The transport —
//! the browser call that actually sends bytes and awaits an answer — is an
//! external collaborator; what is modelled here is everything the logic
//! decides on plain values: how a request is configured, how a numeric
//! status is classified, and how a finished exchange is folded into either
//! a typed response or a failure reason.

use vstd::prelude::*;
use crate::assoc::{assoc_map, assoc_put, keys_unique, kvs_view};

verus! {

/// An HTTP method.
#[derive(Clone, Copy, PartialEq, Eq, Structural, Debug)]
pub enum Method {
    Get,
    Head,
    Post,
    Put,
    Delete,
    Connect,
    Options,
    Trace,
    Patch,
}

impl Method {
    /// The request-line name of the method.
    pub fn as_str(&self) -> (r: &'static str)
        ensures
            *self is Get ==> r@ == "GET"@,
            *self is Head ==> r@ == "HEAD"@,
            *self is Post ==> r@ == "POST"@,
            *self is Put ==> r@ == "PUT"@,
            *self is Delete ==> r@ == "DELETE"@,
            *self is Connect ==> r@ == "CONNECT"@,
            *self is Options ==> r@ == "OPTIONS"@,
            *self is Trace ==> r@ == "TRACE"@,
            *self is Patch ==> r@ == "PATCH"@,
    {
        match *self {
            Method::Get => "GET",
            Method::Head => "HEAD",
            Method::Post => "POST",
            Method::Put => "PUT",
            Method::Delete => "DELETE",
            Method::Connect => "CONNECT",
            Method::Options => "OPTIONS",
            Method::Trace => "TRACE",
            Method::Patch => "PATCH",
        }
    }
}

/// A response status, classified by its numeric class.
#[derive(Debug)]
pub enum Status {
    Informational(u16, String),
    Success(u16, String),
    Redirection(u16, String),
    ClientError(u16, String),
    ServerError(u16, String),
}

/// The numeric code a status carries.
pub open spec fn status_code(s: Status) -> u16 {
    match s {
        Status::Informational(code, _) => code,
        Status::Success(code, _) => code,
        Status::Redirection(code, _) => code,
        Status::ClientError(code, _) => code,
        Status::ServerError(code, _) => code,
    }
}

/// The status text a status carries.
pub open spec fn status_text(s: Status) -> Seq<char> {
    match s {
        Status::Informational(_, text) => text@,
        Status::Success(_, text) => text@,
        Status::Redirection(_, text) => text@,
        Status::ClientError(_, text) => text@,
        Status::ServerError(_, text) => text@,
    }
}

impl Status {
    /// Classifies a numeric status code: one variant per hundred. Codes
    /// outside the transport's range are rejected by the caller, never
    /// classified.
    pub fn new(code: u16, text: String) -> (r: Status)
        requires
            100 <= code <= 599,
        ensures
            status_code(r) == code,
            status_text(r) == text@,
            100 <= code <= 199 ==> r is Informational,
            200 <= code <= 299 ==> r is Success,
            300 <= code <= 399 ==> r is Redirection,
            400 <= code <= 499 ==> r is ClientError,
            500 <= code <= 599 ==> r is ServerError,
    {
        if code <= 199 {
            Status::Informational(code, text)
        } else if code <= 299 {
            Status::Success(code, text)
        } else if code <= 399 {
            Status::Redirection(code, text)
        } else if code <= 499 {
            Status::ClientError(code, text)
        } else {
            Status::ServerError(code, text)
        }
    }

    /// The numeric code.
    pub fn code(&self) -> (r: u16)
        ensures
            r == status_code(*self),
    {
        match self {
            Status::Informational(code, _) => *code,
            Status::Success(code, _) => *code,
            Status::Redirection(code, _) => *code,
            Status::ClientError(code, _) => *code,
            Status::ServerError(code, _) => *code,
        }
    }

    /// The status text.
    pub fn text(&self) -> (r: &str)
        ensures
            r@ == status_text(*self),
    {
        match self {
            Status::Informational(_, text) => text.as_str(),
            Status::Success(_, text) => text.as_str(),
            Status::Redirection(_, text) => text.as_str(),
            Status::ClientError(_, text) => text.as_str(),
            Status::ServerError(_, text) => text.as_str(),
        }
    }
}

/// A transport-level failure, carrying the exception's message.
#[derive(Debug)]
pub enum RequestError {
    DomException(String),
}

/// A failure while producing the typed payload.
#[derive(Debug)]
pub enum DataError {
    /// Reading the body failed in the transport.
    DomException(String),
    /// The body was read but did not parse as the expected data.
    SerdeError(String),
}

/// Why a fetch did not yield a typed response: the exchange failed, the
/// status was an error, or the payload did not parse.
#[derive(Debug)]
pub enum FailReason {
    RequestError(RequestError),
    Status(Status),
    DataError(DataError),
}

/// The cancellation handle of a pending request. Aborting drops the
/// transport's pending work — its resolution message is then never
/// delivered — and disarms the timeout with it. Disabling the timeout
/// alone fails when none is armed, exactly once per armed timeout.
pub struct RequestController {
    pub aborted: bool,
    pub timeout_armed: bool,
}

impl RequestController {
    /// Cancels the pending request and whatever timeout guarded it.
    pub fn abort(&mut self)
        ensures
            final(self).aborted,
            !final(self).timeout_armed,
    {
        self.timeout_armed = false;
        self.aborted = true;
    }

    /// Drops the armed timeout, leaving the request itself running.
    pub fn disable_timeout(&mut self) -> (r: Result<(), &'static str>)
        ensures
            !final(self).timeout_armed,
            final(self).aborted == old(self).aborted,
            r is Ok <==> old(self).timeout_armed,
    {
        if self.timeout_armed {
            self.timeout_armed = false;
            Ok(())
        } else {
            Err("disable_timeout: already disabled")
        }
    }
}

/// A finished exchange whose payload arrived and parsed.
pub struct Response<T> {
    pub status: Status,
    pub data: T,
}

/// A finished exchange whose payload may have failed to arrive or parse.
pub struct ResponseWithDataResult<T> {
    pub status: Status,
    pub data: Result<T, DataError>,
}

impl<T> ResponseWithDataResult<T> {
    /// Re-types the payload through the given mapping, keeping the status.
    pub fn map_data<U, F: FnOnce(Result<T, DataError>) -> Result<U, DataError>>(
        self,
        data_mapper: F,
    ) -> (r: ResponseWithDataResult<U>)
        requires
            call_requires(data_mapper, (self.data,)),
        ensures
            r.status == self.status,
            call_ensures(data_mapper, (self.data,), r.data),
    {
        ResponseWithDataResult { status: self.status, data: data_mapper(self.data) }
    }
}

/// The outcome of a fetch: the request that ran, and what came back.
pub struct FetchObject<T> {
    pub request: Request,
    pub result: Result<ResponseWithDataResult<T>, RequestError>,
}

impl<T> FetchObject<T> {
    /// Folds the outcome into either a typed response or the reason it
    /// failed: a transport failure wins, then an error status (at or above
    /// the client-error range), then a payload failure; only a successful
    /// exchange with a parsed payload yields a response.
    pub fn response(self) -> (r: Result<Response<T>, FailReason>)
        ensures
            match self.result {
                Ok(resp) => {
                    if status_code(resp.status) >= 400 {
                        r matches Err(FailReason::Status(s)) && s == resp.status
                    } else {
                        match resp.data {
                            Ok(data) => r matches Ok(out) && out.status == resp.status && out.data
                                == data,
                            Err(data_error) => r == Err::<Response<T>, FailReason>(
                                FailReason::DataError(data_error),
                            ),
                        }
                    }
                },
                Err(request_error) => r == Err::<Response<T>, FailReason>(
                    FailReason::RequestError(request_error),
                ),
            },
    {
        match self.result {
            Ok(response) => {
                if response.status.code() >= 400 {
                    Err(FailReason::Status(response.status))
                } else {
                    match response.data {
                        Ok(data) => Ok(Response { status: response.status, data }),
                        Err(data_error) => Err(FailReason::DataError(data_error)),
                    }
                }
            },
            Err(request_error) => Err(FailReason::RequestError(request_error)),
        }
    }
}

/// Folds a transport's raw outcome — status code, status text and body on
/// success, the exception's message on failure — into the outcome of a
/// fetch over the body text. A status code outside the protocol's range
/// is refused rather than classified: it signals a broken transport.
pub fn fold_exchange(request: Request, outcome: Result<(u16, String, String), String>) -> (r:
    Option<FetchObject<String>>)
    ensures
        match outcome {
            Ok((code, text, body)) => {
                if 100 <= code <= 599 {
                    r matches Some(fo) && fo.request == request && (fo.result matches Ok(resp)
                        && (status_code(resp.status) == code && status_text(resp.status) == text@
                        && (resp.data matches Ok(b) && b@ == body@)))
                } else {
                    r is None
                }
            },
            Err(msg) => r matches Some(fo) && fo.request == request && (fo.result matches Err(
                RequestError::DomException(m),
            ) && m@ == msg@),
        },
{
    match outcome {
        Ok((code, text, body)) => {
            if 100 <= code && code <= 599 {
                Some(
                    FetchObject {
                        request,
                        result: Ok(
                            ResponseWithDataResult { status: Status::new(code, text), data: Ok(body) },
                        ),
                    },
                )
            } else {
                None
            }
        },
        Err(msg) => Some(FetchObject { request, result: Err(RequestError::DomException(msg)) }),
    }
}

/// How the transport may use its cache.
#[derive(Clone, Copy, PartialEq, Eq, Structural, Debug)]
pub enum RequestCache {
    Default,
    NoStore,
    Reload,
    NoCache,
    ForceCache,
    OnlyIfCached,
}

/// Whether credentials accompany the request.
#[derive(Clone, Copy, PartialEq, Eq, Structural, Debug)]
pub enum RequestCredentials {
    Omit,
    SameOrigin,
    Include,
}

/// The cross-origin mode of the request.
#[derive(Clone, Copy, PartialEq, Eq, Structural, Debug)]
pub enum RequestMode {
    SameOrigin,
    NoCors,
    Cors,
    Navigate,
}

/// How the transport follows redirections.
#[derive(Clone, Copy, PartialEq, Eq, Structural, Debug)]
pub enum RequestRedirect {
    Follow,
    Error,
    Manual,
}

/// What referrer information accompanies the request.
#[derive(Clone, Copy, PartialEq, Eq, Structural, Debug)]
pub enum ReferrerPolicy {
    Unset,
    NoReferrer,
    NoReferrerWhenDowngrade,
    Origin,
    OriginWhenCrossOrigin,
    UnsafeUrl,
    SameOrigin,
    StrictOrigin,
    StrictOriginWhenCrossOrigin,
}

/// The configuration of one fetch request. Its methods configure the
/// request and are meant to be chained; the transport reads the finished
/// value. A well-formed request never names a header twice.
pub struct Request {
    pub url: String,
    pub method: Method,
    pub headers: Vec<(String, String)>,
    pub body: Option<String>,
    pub cache: Option<RequestCache>,
    pub credentials: Option<RequestCredentials>,
    pub integrity: Option<String>,
    pub mode: Option<RequestMode>,
    pub redirect: Option<RequestRedirect>,
    pub referrer: Option<String>,
    pub referrer_policy: Option<ReferrerPolicy>,
    pub timeout: Option<u32>,
    pub controller_requested: bool,
}

impl Request {
    /// Header names are unique: setting a header replaces its old value.
    pub open spec fn wf(self) -> bool {
        keys_unique(kvs_view(self.headers@))
    }

    /// A fresh request for `url`, with nothing configured.
    pub fn new(url: String) -> (r: Request)
        ensures
            r.wf(),
            r.url@ == url@,
            r.method is Get,
            r.headers@ == Seq::<(String, String)>::empty(),
            r.body is None,
            r.cache is None,
            r.credentials is None,
            r.integrity is None,
            r.mode is None,
            r.redirect is None,
            r.referrer is None,
            r.referrer_policy is None,
            r.timeout is None,
            !r.controller_requested,
    {
        Request {
            url,
            method: Method::Get,
            headers: Vec::new(),
            body: None,
            cache: None,
            credentials: None,
            integrity: None,
            mode: None,
            redirect: None,
            referrer: None,
            referrer_policy: None,
            timeout: None,
            controller_requested: false,
        }
    }

    /// Sets the HTTP method.
    pub fn method(self, val: Method) -> (r: Request)
        ensures
            r == (Request { method: val, ..self }),
    {
        Request { method: val, ..self }
    }

    /// Binds one header, replacing an earlier binding of the same name.
    fn set_header(&mut self, name: &str, val: &str)
        requires
            old(self).wf(),
        ensures
            final(self).wf(),
            assoc_map(kvs_view(final(self).headers@)) == assoc_map(
                kvs_view(old(self).headers@),
            ).insert(name@, val@),
            *final(self) == (Request { headers: final(self).headers, ..*old(self) }),
    {
        assoc_put(&mut self.headers, name.to_owned(), val.to_owned());
    }

    /// Adds a single header. Chain multiple calls to add several; setting
    /// a name again replaces its value.
    pub fn header(self, name: &str, val: &str) -> (r: Request)
        requires
            self.wf(),
        ensures
            r.wf(),
            assoc_map(kvs_view(r.headers@)) == assoc_map(kvs_view(self.headers@)).insert(
                name@,
                val@,
            ),
            r == (Request { headers: r.headers, ..self }),
    {
        let mut out = self;
        out.set_header(name, val);
        out
    }

    /// Sets the request payload.
    pub fn body(self, val: String) -> (r: Request)
        ensures
            r == (Request { body: Some(val), ..self }),
    {
        Request { body: Some(val), ..self }
    }

    /// Declares a JSON payload already serialized to text: serialization
    /// of the application's own data runs through its serializer before
    /// the request is configured.
    pub fn body_json(self, json: String) -> (r: Request)
        ensures
            r == (Request { body: Some(json), ..self }),
    {
        self.body(json)
    }

    /// Hands a cancellation handle to the caller and marks the request as
    /// carrying one; the handle mirrors whether a timeout is armed.
    pub fn controller<F: FnOnce(RequestController)>(self, controller_transferrer: F) -> (r:
        Request)
        requires
            forall|c: RequestController| call_requires(controller_transferrer, (c,)),
        ensures
            r == (Request { controller_requested: true, ..self }),
            exists|c: RequestController|
                call_ensures(controller_transferrer, (c,), ()) && c.timeout_armed == (self.timeout
                    is Some) && !c.aborted,
    {
        let armed = self.timeout.is_some();
        let handle = RequestController { aborted: false, timeout_armed: armed };
        let ghost handed = handle;
        controller_transferrer(handle);
        proof {
            assert(call_ensures(controller_transferrer, (handed,), ()));
            assert(handed.timeout_armed == (self.timeout is Some));
            assert(!handed.aborted);
        }
        Request { controller_requested: true, ..self }
    }

    /// Sets the cache mode.
    pub fn cache(self, val: RequestCache) -> (r: Request)
        ensures
            r == (Request { cache: Some(val), ..self }),
    {
        Request { cache: Some(val), ..self }
    }

    /// Sets the credentials mode.
    pub fn credentials(self, val: RequestCredentials) -> (r: Request)
        ensures
            r == (Request { credentials: Some(val), ..self }),
    {
        Request { credentials: Some(val), ..self }
    }

    /// Sets the subresource-integrity value.
    pub fn integrity(self, val: &str) -> (r: Request)
        ensures
            r matches (Request { integrity: Some(v), .. }) && v@ == val@,
            r == (Request { integrity: r.integrity, ..self }),
    {
        Request { integrity: Some(val.to_owned()), ..self }
    }

    /// Sets the cross-origin mode.
    pub fn mode(self, val: RequestMode) -> (r: Request)
        ensures
            r == (Request { mode: Some(val), ..self }),
    {
        Request { mode: Some(val), ..self }
    }

    /// Sets the redirect mode.
    pub fn redirect(self, val: RequestRedirect) -> (r: Request)
        ensures
            r == (Request { redirect: Some(val), ..self }),
    {
        Request { redirect: Some(val), ..self }
    }

    /// Sets the referrer.
    pub fn referrer(self, val: &str) -> (r: Request)
        ensures
            r matches (Request { referrer: Some(v), .. }) && v@ == val@,
            r == (Request { referrer: r.referrer, ..self }),
    {
        Request { referrer: Some(val.to_owned()), ..self }
    }

    /// Sets the referrer policy.
    pub fn referrer_policy(self, val: ReferrerPolicy) -> (r: Request)
        ensures
            r == (Request { referrer_policy: Some(val), ..self }),
    {
        Request { referrer_policy: Some(val), ..self }
    }

    /// Arms a timeout: the transport needs an abort controller for it, so
    /// one is requested along the way.
    pub fn timeout(self, millis: u32) -> (r: Request)
        ensures
            r == (Request { timeout: Some(millis), controller_requested: true, ..self }),
    {
        Request { timeout: Some(millis), controller_requested: true, ..self }
    }

    /// Declares a JSON payload: the serialized text becomes the body and
    /// the content type announces it.
    pub fn send_json(self, json: String) -> (r: Request)
        requires
            self.wf(),
        ensures
            r.wf(),
            assoc_map(kvs_view(r.headers@)) == assoc_map(kvs_view(self.headers@)).insert(
                "Content-Type"@,
                "application/json; charset=utf-8"@,
            ),
            r.body matches Some(b) && b@ == json@,
            r == (Request { headers: r.headers, body: r.body, ..self }),
    {
        self.header("Content-Type", "application/json; charset=utf-8").body(json)
    }
}

} // verus!
