//! Requests and responses of the HTTP client: what is asked, what came back,
//! and how a response is put together from what the server sent.

use crate::error::{RtoolsError, RtoolsResult};
use crate::fields::{with_field, FieldMap, Fields};
use crate::number::{parse_usize, parsed_number};
use crate::text::{chars_of, same_chars, spells, to_uppercase, unicode_uppercased};
use vstd::prelude::*;
use vstd::string::StringExecFns;

verus! {

/// The method of a request.
#[derive(Debug, Clone, Copy, PartialEq, Eq, Structural)]
pub enum HttpMethod {
    GET,
    POST,
    PUT,
    DELETE,
    HEAD,
    OPTIONS,
}

/// The method whose name, in upper case, is `raised`.
pub open spec fn method_named(raised: Seq<char>) -> Option<HttpMethod> {
    if raised == "GET"@ {
        Some(HttpMethod::GET)
    } else if raised == "POST"@ {
        Some(HttpMethod::POST)
    } else if raised == "PUT"@ {
        Some(HttpMethod::PUT)
    } else if raised == "DELETE"@ {
        Some(HttpMethod::DELETE)
    } else if raised == "HEAD"@ {
        Some(HttpMethod::HEAD)
    } else if raised == "OPTIONS"@ {
        Some(HttpMethod::OPTIONS)
    } else {
        None
    }
}

impl HttpMethod {
    /// The method whose name, in upper case, is `raised`.
    pub fn from_uppercased(raised: &str) -> (method: Option<HttpMethod>)
        ensures
            method == method_named(raised@),
    {
        let name = chars_of(raised);
        if spells(&name, "GET") {
            Some(HttpMethod::GET)
        } else if spells(&name, "POST") {
            Some(HttpMethod::POST)
        } else if spells(&name, "PUT") {
            Some(HttpMethod::PUT)
        } else if spells(&name, "DELETE") {
            Some(HttpMethod::DELETE)
        } else if spells(&name, "HEAD") {
            Some(HttpMethod::HEAD)
        } else if spells(&name, "OPTIONS") {
            Some(HttpMethod::OPTIONS)
        } else {
            None
        }
    }

    /// The method that `s` names, whatever its case.
    pub fn parse(s: &str) -> (method: Option<HttpMethod>)
        ensures
            method == method_named(unicode_uppercased(s@)),
    {
        let raised = to_uppercase(s);
        HttpMethod::from_uppercased(raised.as_str())
    }
}

/// How long to wait: whole seconds and nanoseconds below one second.
#[derive(Debug, Clone, Copy, PartialEq, Eq, Structural)]
pub struct TimeLimit {
    pub secs: u64,
    pub nanos: u32,
}

impl TimeLimit {
    /// A limit of `secs` seconds.
    pub fn from_secs(secs: u64) -> (limit: TimeLimit)
        ensures
            limit == (TimeLimit { secs, nanos: 0 }),
    {
        TimeLimit { secs, nanos: 0 }
    }
}

/// What is asked of a server.
#[derive(Debug, Clone)]
pub struct HttpRequest {
    pub method: HttpMethod,
    pub url: String,
    pub headers: FieldMap,
    pub body: Option<String>,
    pub timeout: Option<TimeLimit>,
    pub follow_redirects: bool,
}

/// The model of an [`HttpRequest`].
pub struct Request {
    pub method: HttpMethod,
    pub url: Seq<char>,
    pub headers: Fields,
    pub body: Option<Seq<char>>,
    pub timeout: Option<TimeLimit>,
    pub follow_redirects: bool,
}

impl View for HttpRequest {
    type V = Request;

    open spec fn view(&self) -> Request {
        Request {
            method: self.method,
            url: self.url@,
            headers: self.headers@,
            body: match self.body {
                Some(text) => Some(text@),
                None => None,
            },
            timeout: self.timeout,
            follow_redirects: self.follow_redirects,
        }
    }
}

impl Default for HttpRequest {
    /// A `GET` request without address, headers or body, which waits at most
    /// 30 seconds and follows redirects.
    fn default() -> (request: HttpRequest)
        ensures
            request@ == (Request {
                method: HttpMethod::GET,
                url: Seq::empty(),
                headers: Seq::empty(),
                body: None,
                timeout: Some(TimeLimit { secs: 30, nanos: 0 }),
                follow_redirects: true,
            }),
    {
        HttpRequest {
            method: HttpMethod::GET,
            url: String::new(),
            headers: FieldMap::new(),
            body: None,
            timeout: Some(TimeLimit::from_secs(30)),
            follow_redirects: true,
        }
    }
}

impl HttpRequest {
    /// A request to `url` by `method`: no headers, no body, at most 30
    /// seconds of waiting, redirects followed.
    pub fn new(method: HttpMethod, url: String) -> (request: HttpRequest)
        ensures
            request@ == (Request {
                method,
                url: url@,
                headers: Seq::empty(),
                body: None,
                timeout: Some(TimeLimit { secs: 30, nanos: 0 }),
                follow_redirects: true,
            }),
    {
        HttpRequest {
            method,
            url,
            headers: FieldMap::new(),
            body: None,
            timeout: Some(TimeLimit::from_secs(30)),
            follow_redirects: true,
        }
    }

    /// The request with the header `key` set to `value`.
    pub fn with_header(self, key: String, value: String) -> (request: HttpRequest)
        ensures
            request@ == (Request { headers: with_field(self@.headers, key@, value@), ..self@ }),
    {
        let mut request = self;
        request.headers.insert(key, value);
        request
    }

    /// The request with the body `body`.
    pub fn with_body(self, body: String) -> (request: HttpRequest)
        ensures
            request@ == (Request { body: Some(body@), ..self@ }),
    {
        let mut request = self;
        request.body = Some(body);
        request
    }

    /// The request with at most `timeout` of waiting.
    pub fn with_timeout(self, timeout: TimeLimit) -> (request: HttpRequest)
        ensures
            request@ == (Request { timeout: Some(timeout), ..self@ }),
    {
        let mut request = self;
        request.timeout = Some(timeout);
        request
    }

    /// The request that follows redirects if `follow` says so.
    pub fn with_follow_redirects(self, follow: bool) -> (request: HttpRequest)
        ensures
            request@ == (Request { follow_redirects: follow, ..self@ }),
    {
        let mut request = self;
        request.follow_redirects = follow;
        request
    }
}

/// What came back from a server.
#[derive(Debug)]
pub struct HttpResponse {
    pub status_code: u16,
    pub status_text: String,
    pub headers: FieldMap,
    pub body: String,
    pub content_length: Option<usize>,
    pub content_type: Option<String>,
    pub response_time_ms: u128,
}

/// The model of an [`HttpResponse`].
pub struct Response {
    pub status_code: u16,
    pub status_text: Seq<char>,
    pub headers: Fields,
    pub body: Seq<char>,
    pub content_length: Option<usize>,
    pub content_type: Option<Seq<char>>,
    pub response_time_ms: u128,
}

impl View for HttpResponse {
    type V = Response;

    open spec fn view(&self) -> Response {
        Response {
            status_code: self.status_code,
            status_text: self.status_text@,
            headers: self.headers@,
            body: self.body@,
            content_length: self.content_length,
            content_type: match self.content_type {
                Some(text) => Some(text@),
                None => None,
            },
            response_time_ms: self.response_time_ms,
        }
    }
}

impl Default for HttpResponse {
    /// The empty response.
    fn default() -> (response: HttpResponse)
        ensures
            response@ == (Response {
                status_code: 0,
                status_text: Seq::empty(),
                headers: Seq::empty(),
                body: Seq::empty(),
                content_length: None,
                content_type: None,
                response_time_ms: 0,
            }),
    {
        HttpResponse::new()
    }
}

impl HttpResponse {
    /// The empty response: status 0, no text, no headers, no body.
    pub fn new() -> (response: HttpResponse)
        ensures
            response@ == (Response {
                status_code: 0,
                status_text: Seq::empty(),
                headers: Seq::empty(),
                body: Seq::empty(),
                content_length: None,
                content_type: None,
                response_time_ms: 0,
            }),
    {
        HttpResponse {
            status_code: 0,
            status_text: String::new(),
            headers: FieldMap::new(),
            body: String::new(),
            content_length: None,
            content_type: None,
            response_time_ms: 0,
        }
    }

    /// Whether the status is one of success, 200 to 299.
    pub fn is_success(&self) -> (b: bool)
        ensures
            b == (200 <= self.status_code < 300),
    {
        self.status_code >= 200 && self.status_code < 300
    }

    /// Whether the status is a redirect, 300 to 399.
    pub fn is_redirect(&self) -> (b: bool)
        ensures
            b == (300 <= self.status_code < 400),
    {
        self.status_code >= 300 && self.status_code < 400
    }

    /// Whether the status is an error of the client, 400 to 499.
    pub fn is_client_error(&self) -> (b: bool)
        ensures
            b == (400 <= self.status_code < 500),
    {
        self.status_code >= 400 && self.status_code < 500
    }

    /// Whether the status is an error of the server, 500 to 599.
    pub fn is_server_error(&self) -> (b: bool)
        ensures
            b == (500 <= self.status_code < 600),
    {
        self.status_code >= 500 && self.status_code < 600
    }
}

/// One header as a server sent it: its name, and its value where the value
/// is text.
pub type RawHeader = (String, Option<String>);

/// The model of a list of headers as sent.
pub type RawFields = Seq<(Seq<char>, Option<Seq<char>>)>;

/// The models of headers as sent.
pub open spec fn raw_fields(raw: Seq<RawHeader>) -> RawFields {
    raw.map_values(
        |h: RawHeader|
            (
                h.0@,
                match h.1 {
                    Some(text) => Some(text@),
                    None => None,
                },
            ),
    )
}

/// The fields that the headers as sent amount to: those whose value is text,
/// a later one of the same name in place of an earlier one.
pub open spec fn fields_of(raw: RawFields) -> Fields
    decreases raw.len(),
{
    if raw.len() == 0 {
        Seq::empty()
    } else {
        match raw.last().1 {
            Some(value) => with_field(fields_of(raw.drop_last()), raw.last().0, value),
            None => fields_of(raw.drop_last()),
        }
    }
}

/// The index of the first header named `name`, at or after `from`, or
/// `raw.len()`.
pub open spec fn first_named_from(raw: RawFields, name: Seq<char>, from: int) -> int
    decreases raw.len() - from,
{
    if from < 0 || from >= raw.len() {
        raw.len() as int
    } else if raw[from].0 == name {
        from
    } else {
        first_named_from(raw, name, from + 1)
    }
}

/// The content type that the headers state: the value of the first header
/// `content-type`, where it is text.
pub open spec fn content_type_of(raw: RawFields) -> Option<Seq<char>> {
    let i = first_named_from(raw, "content-type"@, 0);
    if i < raw.len() {
        raw[i].1
    } else {
        None
    }
}

/// The content length that the headers state: the number that the first
/// header `content-length` writes. A value that is no text counts as `0`.
pub open spec fn content_length_of(raw: RawFields) -> Option<usize> {
    let i = first_named_from(raw, "content-length"@, 0);
    if i < raw.len() {
        let text = match raw[i].1 {
            Some(value) => value,
            None => "0"@,
        };
        match parsed_number(text, usize::MAX as nat) {
            Some(n) => Some(n as usize),
            None => None,
        }
    } else {
        None
    }
}

/// Whether the body of the response to a request by `method` is read: it is
/// not for `HEAD`.
pub fn reads_body(method: HttpMethod) -> (b: bool)
    ensures
        b == (method != HttpMethod::HEAD),
{
    match method {
        HttpMethod::HEAD => false,
        _ => true,
    }
}

/// Index of the first header named `name`, or the number of headers.
fn first_named(raw: &Vec<RawHeader>, name: &str) -> (i: usize)
    ensures
        i == first_named_from(raw_fields(raw@), name@, 0),
        i <= raw.len(),
{
    let wanted = chars_of(name);
    let mut i: usize = 0;
    while i < raw.len()
        invariant
            i <= raw.len(),
            wanted@ == name@,
            first_named_from(raw_fields(raw@), name@, 0) == first_named_from(
                raw_fields(raw@),
                name@,
                i as int,
            ),
        decreases raw.len() - i,
    {
        let here = chars_of(raw[i].0.as_str());
        if same_chars(&here, &wanted) {
            return i;
        }
        i += 1;
    }
    i
}

impl HttpResponse {
    /// Puts a response together from what a server sent in answer to a
    /// request by `method`: the status, the headers in the order sent, the
    /// body, and the time that the answer took.
    pub fn assemble(
        method: HttpMethod,
        status_code: u16,
        status_text: &str,
        raw_headers: &Vec<RawHeader>,
        body: String,
        response_time_ms: u128,
    ) -> (response: HttpResponse)
        ensures
            response@ == (Response {
                status_code,
                status_text: status_text@,
                headers: fields_of(raw_fields(raw_headers@)),
                body: if method != HttpMethod::HEAD {
                    body@
                } else {
                    Seq::empty()
                },
                content_length: content_length_of(raw_fields(raw_headers@)),
                content_type: content_type_of(raw_fields(raw_headers@)),
                response_time_ms,
            }),
    {
        let ghost raw = raw_fields(raw_headers@);
        let mut headers = FieldMap::new();
        let mut k: usize = 0;
        while k < raw_headers.len()
            invariant
                k <= raw_headers.len(),
                raw == raw_fields(raw_headers@),
                headers@ == fields_of(raw.take(k as int)),
            decreases raw_headers.len() - k,
        {
            proof {
                assert(raw.take(k + 1).drop_last() == raw.take(k as int));
                assert(raw.take(k + 1).last() == raw[k as int]);
            }
            if let Some(value) = &raw_headers[k].1 {
                headers.insert(raw_headers[k].0.clone(), value.clone());
            }
            k += 1;
        }
        assert(raw.take(k as int) == raw);
        let type_at: usize = first_named(raw_headers, "content-type");
        let content_type: Option<String> = if type_at < raw_headers.len() {
            match &raw_headers[type_at].1 {
                Some(value) => Some(value.clone()),
                None => None,
            }
        } else {
            None
        };
        let length_at: usize = first_named(raw_headers, "content-length");
        let content_length: Option<usize> = if length_at < raw_headers.len() {
            match &raw_headers[length_at].1 {
                Some(value) => parse_usize(&chars_of(value.as_str())),
                None => parse_usize(&chars_of("0")),
            }
        } else {
            None
        };
        HttpResponse {
            status_code,
            status_text: status_text.to_owned(),
            headers,
            body: if reads_body(method) {
                body
            } else {
                String::new()
            },
            content_length,
            content_type,
            response_time_ms,
        }
    }
}

/// The request that fetches `url`.
pub fn get_request(url: &str) -> (request: HttpRequest)
    ensures
        request@ == (Request {
            method: HttpMethod::GET,
            url: url@,
            headers: Seq::empty(),
            body: None,
            timeout: Some(TimeLimit { secs: 30, nanos: 0 }),
            follow_redirects: true,
        }),
{
    HttpRequest::new(HttpMethod::GET, url.to_owned())
}

/// The request that posts `body` to `url`.
pub fn post_request(url: &str, body: &str) -> (request: HttpRequest)
    ensures
        request@ == (Request {
            method: HttpMethod::POST,
            url: url@,
            headers: Seq::empty(),
            body: Some(body@),
            timeout: Some(TimeLimit { secs: 30, nanos: 0 }),
            follow_redirects: true,
        }),
{
    HttpRequest::new(HttpMethod::POST, url.to_owned()).with_body(body.to_owned())
}

/// The request that finds out whether `url` can be reached: a `HEAD` request
/// that waits at most 10 seconds.
pub fn check_request(url: &str) -> (request: HttpRequest)
    ensures
        request@ == (Request {
            method: HttpMethod::HEAD,
            url: url@,
            headers: Seq::empty(),
            body: None,
            timeout: Some(TimeLimit { secs: 10, nanos: 0 }),
            follow_redirects: true,
        }),
{
    HttpRequest::new(HttpMethod::HEAD, url.to_owned()).with_timeout(TimeLimit::from_secs(10))
}

/// Whether the outcome of a check request says that the address can be
/// reached: a response with a status of success does, nothing else.
pub fn check_outcome(outcome: &RtoolsResult<HttpResponse>) -> (reachable: bool)
    ensures
        reachable == match outcome {
            Ok(response) => 200 <= response.status_code < 300,
            Err(_) => false,
        },
{
    match outcome {
        Ok(response) => response.is_success(),
        Err(_) => false,
    }
}

/// At which step a request failed.
#[derive(Debug, Clone, Copy, PartialEq, Eq, Structural)]
pub enum Stage {
    /// Setting up the client.
    Client,
    /// Sending the request.
    Request,
    /// Reading the body of the response.
    Body,
}

/// What the message of a failure at `stage` starts with.
pub open spec fn stage_prefix(stage: Stage) -> Seq<char> {
    match stage {
        Stage::Client => "客户端创建失败: "@,
        Stage::Request => "请求失败: "@,
        Stage::Body => "读取响应体失败: "@,
    }
}

/// The error for a request that failed at `stage`, for the reason `detail`.
pub fn request_failed(stage: Stage, detail: &str) -> (error: RtoolsError)
    ensures
        error matches RtoolsError::NetworkError(message) && message@ == stage_prefix(stage)
            + detail@,
{
    let mut message = match stage {
        Stage::Client => String::from_str("客户端创建失败: "),
        Stage::Request => String::from_str("请求失败: "),
        Stage::Body => String::from_str("读取响应体失败: "),
    };
    message.append(detail);
    RtoolsError::NetworkError(message)
}


} // verus!
