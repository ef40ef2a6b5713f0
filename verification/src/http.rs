//! Requests and responses as the core sees them: plain values that the
//! transport builds from the wire and writes back to it.

use vstd::prelude::*;
use vstd::string::StringSliceAdditionalSpecFns;
use crate::bytes::{bytes_eq, bytes_eq_ignore_case, copy_bytes, eq_ignore_case};

verus! {

/// The request method.
#[derive(Clone, Copy, Debug, PartialEq, Eq, Structural)]
pub enum Method {
    Get,
    Post,
    Put,
    Delete,
    Head,
    Options,
    Patch,
    Connect,
    Trace,
}

/// A response status: a code from 100 up to 999.
#[derive(Clone, Copy, Debug, PartialEq, Eq, Structural)]
pub struct StatusCode {
    code: u16,
}

impl StatusCode {
    #[verifier::type_invariant]
    spec fn in_range(self) -> bool {
        100 <= self.code <= 999
    }

    /// The code as a number.
    pub closed spec fn value(self) -> u16 {
        self.code
    }

    /// The status with the code `code`, where there is one.
    pub fn from_u16(code: u16) -> (status: Option<StatusCode>)
        ensures
            status is Some <==> 100 <= code <= 999,
            status matches Some(s) ==> s.value() == code,
    {
        if 100 <= code && code <= 999 {
            Some(StatusCode { code })
        } else {
            None
        }
    }

    /// The code as a number.
    pub fn as_u16(self) -> (code: u16)
        ensures
            code == self.value(),
            100 <= code <= 999,
    {
        proof {
            use_type_invariant(self);
        }
        self.code
    }

    /// 200
    pub fn ok() -> (s: StatusCode)
        ensures
            s.value() == 200,
    {
        StatusCode { code: 200 }
    }

    /// 201
    pub fn created() -> (s: StatusCode)
        ensures
            s.value() == 201,
    {
        StatusCode { code: 201 }
    }

    /// 400
    pub fn bad_request() -> (s: StatusCode)
        ensures
            s.value() == 400,
    {
        StatusCode { code: 400 }
    }

    /// 404
    pub fn not_found() -> (s: StatusCode)
        ensures
            s.value() == 404,
    {
        StatusCode { code: 404 }
    }

    /// 405
    pub fn method_not_allowed() -> (s: StatusCode)
        ensures
            s.value() == 405,
    {
        StatusCode { code: 405 }
    }

    /// 500
    pub fn internal_server_error() -> (s: StatusCode)
        ensures
            s.value() == 500,
    {
        StatusCode { code: 500 }
    }
}

/// One header line.
#[derive(Clone, Debug, PartialEq, Eq)]
pub struct Header {
    pub name: Vec<u8>,
    pub value: Vec<u8>,
}

/// What a [`Header`] stands for.
pub struct HeaderView {
    pub name: Seq<u8>,
    pub value: Seq<u8>,
}

impl View for Header {
    type V = HeaderView;

    open spec fn view(&self) -> HeaderView {
        HeaderView { name: self.name@, value: self.value@ }
    }
}

/// The header lines that a vector of headers stands for.
pub open spec fn headers_view(v: Seq<Header>) -> Seq<HeaderView> {
    Seq::new(v.len(), |i: int| v[i]@)
}

/// Whether `headers` holds a line for `name`, compared without regard to
/// case, whose value is exactly `value`.
pub open spec fn has_header(headers: Seq<HeaderView>, name: Seq<u8>, value: Seq<u8>) -> bool {
    exists|i: int|
        0 <= i < headers.len() && eq_ignore_case((#[trigger] headers[i]).name, name)
            && headers[i].value == value
}

/// An inbound request.
#[derive(Clone, Debug, PartialEq, Eq)]
pub struct Request {
    pub method: Method,
    pub path: Vec<u8>,
    pub headers: Vec<Header>,
}

/// What a [`Request`] stands for.
pub struct RequestView {
    pub method: Method,
    pub path: Seq<u8>,
    pub headers: Seq<HeaderView>,
}

impl View for Request {
    type V = RequestView;

    open spec fn view(&self) -> RequestView {
        RequestView {
            method: self.method,
            path: self.path@,
            headers: headers_view(self.headers@),
        }
    }
}

impl Request {
    /// A request for `path` without headers.
    pub fn new(method: Method, path: &str) -> (request: Request)
        ensures
            request@ == (RequestView {
                method,
                path: path.spec_bytes(),
                headers: Seq::empty(),
            }),
    {
        let request = Request { method, path: copy_bytes(path.as_bytes()), headers: Vec::new() };
        assert(headers_view(request.headers@) =~= Seq::empty());
        request
    }

    /// A `GET` request for `path`.
    pub fn get(path: &str) -> (request: Request)
        ensures
            request@ == (RequestView {
                method: Method::Get,
                path: path.spec_bytes(),
                headers: Seq::empty(),
            }),
    {
        Request::new(Method::Get, path)
    }

    /// The same request with one more header line at the end.
    pub fn header(self, name: &str, value: &str) -> (request: Request)
        ensures
            request@ == (RequestView {
                headers: self@.headers.push(
                    HeaderView { name: name.spec_bytes(), value: value.spec_bytes() },
                ),
                ..self@
            }),
    {
        let mut request = self;
        let line = Header {
            name: copy_bytes(name.as_bytes()),
            value: copy_bytes(value.as_bytes()),
        };
        request.headers.push(line);
        assert(headers_view(request.headers@) =~= headers_view(self.headers@).push(line@));
        request
    }

    /// Whether the request carries the header `name` with the value `value`.
    pub fn has_header(&self, name: &[u8], value: &[u8]) -> (r: bool)
        ensures
            r == has_header(self@.headers, name@, value@),
    {
        let ghost lines = headers_view(self.headers@);
        let mut i: usize = 0;
        while i < self.headers.len()
            invariant
                i <= self.headers.len(),
                lines == headers_view(self.headers@),
                forall|k: int|
                    0 <= k < i ==> !(eq_ignore_case((#[trigger] lines[k]).name, name@)
                        && lines[k].value == value@),
            decreases self.headers.len() - i,
        {
            assert(lines[i as int] == self.headers@[i as int]@);
            if bytes_eq_ignore_case(self.headers[i].name.as_slice(), name) && bytes_eq(
                self.headers[i].value.as_slice(),
                value,
            ) {
                return true;
            }
            i += 1;
        }
        false
    }
}

/// An outbound response.
#[derive(Clone, Debug, PartialEq, Eq)]
pub struct Response {
    pub status: StatusCode,
    pub headers: Vec<Header>,
    pub body: Vec<u8>,
}

/// What a [`Response`] stands for.
pub struct ResponseView {
    pub status: u16,
    pub headers: Seq<HeaderView>,
    pub body: Seq<u8>,
}

impl View for Response {
    type V = ResponseView;

    open spec fn view(&self) -> ResponseView {
        ResponseView {
            status: self.status.value(),
            headers: headers_view(self.headers@),
            body: self.body@,
        }
    }
}

/// The response that has a status and nothing else.
pub open spec fn bare_response(status: u16) -> ResponseView {
    ResponseView { status, headers: Seq::empty(), body: Seq::empty() }
}

impl Response {
    /// A response without headers or body.
    pub fn new(status: StatusCode) -> (response: Response)
        ensures
            response@ == bare_response(status.value()),
    {
        let response = Response { status, headers: Vec::new(), body: Vec::new() };
        assert(headers_view(response.headers@) =~= Seq::empty());
        response
    }

    /// The same response with one more header line at the end.
    pub fn header(self, name: &str, value: &str) -> (response: Response)
        ensures
            response@ == (ResponseView {
                headers: self@.headers.push(
                    HeaderView { name: name.spec_bytes(), value: value.spec_bytes() },
                ),
                ..self@
            }),
    {
        let mut response = self;
        let line = Header {
            name: copy_bytes(name.as_bytes()),
            value: copy_bytes(value.as_bytes()),
        };
        response.headers.push(line);
        assert(headers_view(response.headers@) =~= headers_view(self.headers@).push(line@));
        response
    }

    /// The same response with `body` as its body.
    pub fn body(self, body: &[u8]) -> (response: Response)
        ensures
            response@ == (ResponseView { body: body@, ..self@ }),
    {
        let mut response = self;
        response.body = copy_bytes(body);
        response
    }
}

} // verus!
