//! HTTP responses and their wire form.

use crate::clock::{from_clock, http_date_now, is_date};
use crate::text::str_eq;
use vstd::prelude::*;
use vstd::utf8::encode_utf8;

verus! {

/// The version that the `Server` header announces.
pub const VERSION: &'static str = "0.5.0";

/// Data that a handler can put into the body of a response.
pub trait ToOutput {
    /// The bytes that the value stands for.
    spec fn output(&self) -> Seq<u8>;

    /// Converts the value to a u8 slice.
    fn to_output(&self) -> (bytes: &[u8])
        ensures
            bytes@ == self.output(),
    ;
}

impl ToOutput for str {
    open spec fn output(&self) -> Seq<u8> {
        encode_utf8(self@)
    }

    fn to_output(&self) -> (bytes: &[u8]) {
        self.as_bytes()
    }
}

impl ToOutput for &'static str {
    open spec fn output(&self) -> Seq<u8> {
        encode_utf8(self@)
    }

    fn to_output(&self) -> (bytes: &[u8]) {
        self.as_bytes()
    }
}

impl ToOutput for String {
    open spec fn output(&self) -> Seq<u8> {
        encode_utf8(self@)
    }

    fn to_output(&self) -> (bytes: &[u8]) {
        self.as_str().as_bytes()
    }
}

impl ToOutput for Vec<u8> {
    open spec fn output(&self) -> Seq<u8> {
        self@
    }

    fn to_output(&self) -> (bytes: &[u8]) {
        self.as_slice()
    }
}

/// The reason phrase that goes with a status code. A code that the table does
/// not know reads "OK".
pub open spec fn reason_phrase(status: u16) -> Seq<char> {
    if status == 100 {
        "Continue"@
    } else if status == 101 {
        "Switching Protocols"@
    } else if status == 200 {
        "OK"@
    } else if status == 201 {
        "Created"@
    } else if status == 202 {
        "Accepted"@
    } else if status == 203 {
        "Non-Authoritative Information"@
    } else if status == 204 {
        "No Content"@
    } else if status == 205 {
        "Reset Content"@
    } else if status == 206 {
        "Partial Content"@
    } else if status == 300 {
        "Multiple Choices"@
    } else if status == 301 {
        "Moved Permanently"@
    } else if status == 302 {
        "Found"@
    } else if status == 303 {
        "See Other"@
    } else if status == 304 {
        "Not Modified"@
    } else if status == 305 {
        "Use Proxy"@
    } else if status == 307 {
        "Temporary Redirect"@
    } else if status == 400 {
        "Bad Request"@
    } else if status == 401 {
        "Unauthorized"@
    } else if status == 402 {
        "Payment Required"@
    } else if status == 403 {
        "Forbidden"@
    } else if status == 404 {
        "Not Found"@
    } else if status == 405 {
        "Method Not Allowed"@
    } else if status == 406 {
        "Not Acceptable"@
    } else if status == 407 {
        "Proxy Authentication Required"@
    } else if status == 408 {
        "Request Time Out"@
    } else if status == 409 {
        "Conflict"@
    } else if status == 410 {
        "Gone"@
    } else if status == 411 {
        "Length Required"@
    } else if status == 412 {
        "Precondition Failed"@
    } else if status == 413 {
        "Request Entity Too Large"@
    } else if status == 414 {
        "Request-URI Too Large"@
    } else if status == 415 {
        "Unsupported Media Type"@
    } else if status == 416 {
        "Requested Range Not Satisfiable"@
    } else if status == 417 {
        "Expectation Failed"@
    } else if status == 500 {
        "Internal Server Error"@
    } else if status == 501 {
        "Not Implemented"@
    } else if status == 502 {
        "Bad Gateway"@
    } else if status == 503 {
        "Service Unavailable"@
    } else if status == 504 {
        "Gateway Time-out"@
    } else if status == 505 {
        "HTTP Version Not Supported"@
    } else {
        "OK"@
    }
}

/// The decimal digits of `n`, as ASCII.
pub open spec fn decimal(n: nat) -> Seq<u8>
    decreases n,
{
    if n < 10 {
        seq![(48 + n) as u8]
    } else {
        decimal(n / 10).push((48 + n % 10) as u8)
    }
}

/// Appends the decimal digits of `n` to `out`.
pub fn push_decimal(out: &mut Vec<u8>, n: usize)
    ensures
        final(out)@ == old(out)@ + decimal(n as nat),
    decreases n,
{
    if n >= 10 {
        push_decimal(out, n / 10);
    }
    let digit: u8 = (n % 10) as u8;
    out.push(48 + digit);
    proof {
        if n < 10 {
            assert(old(out)@.push((48 + n) as u8) =~= old(out)@ + decimal(n as nat));
        } else {
            assert((old(out)@ + decimal((n / 10) as nat)).push((48 + n % 10) as u8) =~= old(out)@
                + decimal(n as nat));
        }
    }
}

/// One header: a name and a value.
pub struct Header {
    pub name: String,
    pub value: String,
}

/// The names and values of a list of headers.
pub open spec fn header_views(headers: Seq<Header>) -> Seq<(Seq<char>, Seq<char>)> {
    headers.map_values(|h: Header| (h.name@, h.value@))
}

/// The position of the first header called `name`, or the length of the list.
pub open spec fn header_index(headers: Seq<(Seq<char>, Seq<char>)>, name: Seq<char>) -> int
    decreases headers.len(),
{
    if headers.len() == 0 {
        0
    } else if headers[0].0 == name {
        0
    } else {
        1 + header_index(headers.skip(1), name)
    }
}

/// The list of headers after `name` was set to `value`: the first header of
/// that name changes its value, and without one the header is added at the end.
pub open spec fn with_header(
    headers: Seq<(Seq<char>, Seq<char>)>,
    name: Seq<char>,
    value: Seq<char>,
) -> Seq<(Seq<char>, Seq<char>)> {
    let i = header_index(headers, name);
    if 0 <= i < headers.len() {
        headers.update(i, (name, value))
    } else {
        headers.push((name, value))
    }
}

/// A list of headers in which `name` does not occur before position `i`, and
/// occurs at `i` or `i` is the end, has its first `name` at `i`.
pub proof fn lemma_header_index(headers: Seq<(Seq<char>, Seq<char>)>, name: Seq<char>, i: int)
    requires
        0 <= i <= headers.len(),
        forall|k: int| 0 <= k < i ==> headers[k].0 != name,
        i == headers.len() || headers[i].0 == name,
    ensures
        header_index(headers, name) == i,
    decreases headers.len(),
{
    if i > 0 {
        let rest = headers.skip(1);
        assert forall|k: int| 0 <= k < i - 1 implies rest[k].0 != name by {
            assert(rest[k] == headers[k + 1]);
        }
        lemma_header_index(rest, name, i - 1);
    }
}

/// A response as the contracts see it.
pub struct ResponseView {
    pub status: u16,
    pub content_type: Seq<char>,
    pub headers: Seq<(Seq<char>, Seq<char>)>,
    pub payload: Seq<u8>,
}

/// The line that carries one header.
pub open spec fn header_line(name: Seq<char>, value: Seq<char>) -> Seq<u8> {
    encode_utf8(name) + encode_utf8(": "@) + encode_utf8(value) + encode_utf8("\r\n"@)
}

/// The lines that carry a list of headers, in order.
pub open spec fn header_lines(headers: Seq<(Seq<char>, Seq<char>)>) -> Seq<u8>
    decreases headers.len(),
{
    if headers.len() == 0 {
        Seq::empty()
    } else {
        header_lines(headers.drop_last()) + header_line(headers.last().0, headers.last().1)
    }
}

/// The status line of a response.
pub open spec fn status_line(status: u16) -> Seq<u8> {
    encode_utf8("HTTP/1.1 "@) + decimal(status as nat) + encode_utf8(" "@) + encode_utf8(
        reason_phrase(status),
    ) + encode_utf8("\r\n"@)
}

/// Everything that precedes the body: the status line, the headers that were
/// set, `Content-Type`, `Content-Length`, and one empty line.
pub open spec fn head_bytes(res: ResponseView) -> Seq<u8> {
    status_line(res.status) + header_lines(res.headers) + header_line(
        "Content-Type"@,
        res.content_type,
    ) + encode_utf8("Content-Length: "@) + decimal(res.payload.len()) + encode_utf8("\r\n"@)
        + encode_utf8("\r\n"@)
}

/// The bytes that go over the wire.
pub open spec fn wire_bytes(res: ResponseView) -> Seq<u8> {
    head_bytes(res) + res.payload
}

/// What the `Server` header of a new response says.
pub open spec fn server_token() -> Seq<char> {
    "canteen/"@ + VERSION@
}

/// A new response that carries `date` in its `Date` header: status 200, plain
/// text, no body, and the headers `Connection`, `Server` and `Date`.
pub open spec fn fresh(date: Seq<char>) -> ResponseView {
    ResponseView {
        status: 200,
        content_type: "text/plain"@,
        headers: seq![
            ("Connection"@, "close"@),
            ("Server"@, server_token()),
            ("Date"@, date),
        ],
        payload: Seq::empty(),
    }
}

/// A response after the header `name` was set to `value`. `Content-Type` is
/// the content type of the response, and `Content-Length` is never stored: it
/// is computed when the response is written.
pub open spec fn header_set(res: ResponseView, name: Seq<char>, value: Seq<char>) -> ResponseView {
    if name == "Content-Type"@ {
        ResponseView { content_type: value, ..res }
    } else if name == "Content-Length"@ {
        res
    } else {
        ResponseView { headers: with_header(res.headers, name, value), ..res }
    }
}

/// A response made from a body, a content type and a status, dated `date`.
pub open spec fn response_of(
    body: Seq<u8>,
    c_type: Seq<char>,
    status: u16,
    date: Seq<char>,
) -> ResponseView {
    ResponseView { status, content_type: c_type, payload: body, ..fresh(date) }
}

/// The page that the error handlers show.
pub open spec fn error_page(message: Seq<char>, path: Seq<char>) -> Seq<char> {
    "<html><head><style>body { font-family: helvetica, sans-serif; } p { font-size: 14 }</style></head><body><h3>Your request failed</h3><p>"@
        + message + ": "@ + path + "</p></body></html>"@
}

/// The body of an error page.
pub fn err_body(message: &str, path: &str) -> (page: String)
    ensures
        page@ == error_page(message@, path@),
{
    let mut page = String::from_str(
        "<html><head><style>body { font-family: helvetica, sans-serif; } p { font-size: 14 }</style></head><body><h3>Your request failed</h3><p>",
    );
    page.append(message);
    page.append(": ");
    page.append(path);
    page.append("</p></body></html>");
    page
}

/// The response to an HTTP client.
pub struct Response {
    status: u16,
    ctype: String,
    headers: Vec<Header>,
    payload: Vec<u8>,
}

impl View for Response {
    type V = ResponseView;

    closed spec fn view(&self) -> ResponseView {
        ResponseView {
            status: self.status,
            content_type: self.ctype@,
            headers: header_views(self.headers@),
            payload: self.payload@,
        }
    }
}

impl Response {
    /// Create a new, empty Response, dated now.
    pub fn new() -> (res: Response)
        ensures
            res@ == fresh(res@.headers[2].1),
            is_date(res@.headers[2].1),
            from_clock(res@.headers[2].1),
    {
        let now = http_date_now();
        Response::with_date(now.as_str())
    }

    /// Create a new, empty Response with the given text in its `Date` header.
    pub fn with_date(date: &str) -> (res: Response)
        ensures
            res@ == fresh(date@),
    {
        let mut headers: Vec<Header> = Vec::new();
        headers.push(
            Header { name: String::from_str("Connection"), value: String::from_str("close") },
        );
        let mut server = String::from_str("canteen/");
        server.append(VERSION);
        headers.push(Header { name: String::from_str("Server"), value: server });
        headers.push(Header { name: String::from_str("Date"), value: String::from_str(date) });
        let res = Response {
            status: 200,
            ctype: String::from_str("text/plain"),
            headers,
            payload: Vec::new(),
        };
        assert(res@.headers =~= fresh(date@).headers);
        res
    }

    /// Creates the response to a request for a path that the client may not
    /// see: an error page with status 403.
    pub fn err_403(path: &str) -> (res: Response)
        ensures
            res@ == response_of(
                encode_utf8(error_page("forbidden"@, path@)),
                "text/html"@,
                403,
                res@.headers[2].1,
            ),
            is_date(res@.headers[2].1),
            from_clock(res@.headers[2].1),
    {
        let mut res = Response::new();
        res.set_status(403);
        res.set_content_type("text/html");
        res.append(err_body("forbidden", path));
        assert(res@.payload =~= encode_utf8(error_page("forbidden"@, path@)));
        res
    }

    /// Creates the response to a request for a path that leads nowhere: an
    /// error page with status 404.
    pub fn err_404(path: &str) -> (res: Response)
        ensures
            res@ == response_of(
                encode_utf8(error_page("not found"@, path@)),
                "text/html"@,
                404,
                res@.headers[2].1,
            ),
            is_date(res@.headers[2].1),
            from_clock(res@.headers[2].1),
    {
        let mut res = Response::new();
        res.set_status(404);
        res.set_content_type("text/html");
        res.append(err_body("not found", path));
        assert(res@.payload =~= encode_utf8(error_page("not found"@, path@)));
        res
    }

    /// Creates a Response with a JSON body: `data` is the JSON text.
    pub fn as_json(data: String) -> (res: Response)
        ensures
            res@ == (ResponseView {
                content_type: "application/json"@,
                payload: encode_utf8(data@),
                ..fresh(res@.headers[2].1)
            }),
            is_date(res@.headers[2].1),
            from_clock(res@.headers[2].1),
    {
        let mut res = Response::new();
        res.set_content_type("application/json");
        res.append(data);
        assert(Seq::<u8>::empty() + encode_utf8(data@) =~= encode_utf8(data@));
        res
    }

    /// Sets the response status for the HTTP response.
    pub fn set_status(&mut self, status: u16)
        ensures
            final(self)@ == (ResponseView { status, ..old(self)@ }),
    {
        self.status = status;
    }

    /// Sets the response code for the HTTP response.
    pub fn set_code(&mut self, code: u16)
        ensures
            final(self)@ == (ResponseView { status: code, ..old(self)@ }),
    {
        self.set_status(code);
    }

    /// Sets the Content-Type header for the HTTP response.
    pub fn set_content_type(&mut self, ctype: &str)
        ensures
            final(self)@ == (ResponseView { content_type: ctype@, ..old(self)@ }),
    {
        self.ctype = String::from_str(ctype);
    }

    /// Adds a header to the HTTP response. A header that was set before, by the
    /// framework or by the caller, takes the new value.
    pub fn add_header(&mut self, key: &str, value: &str)
        ensures
            final(self)@ == header_set(old(self)@, key@, value@),
    {
        if str_eq(key, "Content-Type") {
            self.ctype = String::from_str(value);
            return ;
        }
        if str_eq(key, "Content-Length") {
            return ;
        }
        let ghost before = header_views(self.headers@);
        let mut i: usize = 0;
        while i < self.headers.len() && !str_eq(self.headers[i].name.as_str(), key)
            invariant
                0 <= i <= self.headers.len(),
                before == header_views(self.headers@),
                forall|k: int| 0 <= k < i ==> before[k].0 != key@,
            decreases self.headers.len() - i,
        {
            i += 1;
        }
        proof {
            lemma_header_index(before, key@, i as int);
        }
        let header = Header { name: String::from_str(key), value: String::from_str(value) };
        if i < self.headers.len() {
            self.headers.set(i, header);
            assert(header_views(self.headers@) =~= before.update(i as int, (key@, value@)));
        } else {
            self.headers.push(header);
            assert(header_views(self.headers@) =~= before.push((key@, value@)));
        }
    }

    /// Appends data to the body of the HTTP response.
    pub fn append<T: ToOutput>(&mut self, payload: T)
        ensures
            final(self)@ == (ResponseView {
                payload: old(self)@.payload + payload.output(),
                ..old(self)@
            }),
    {
        let bytes = payload.to_output();
        self.payload.extend_from_slice(bytes);
        assert(self.payload@ =~= old(self).payload@ + payload.output());
    }

    /// The status code.
    pub fn status(&self) -> (status: u16)
        ensures
            status == self@.status,
    {
        self.status
    }

    /// Returns a byte array containing the full contents of the HTTP response:
    /// the status line, the headers, `Content-Type` and `Content-Length`, an
    /// empty line, and the body.
    pub fn gen_output(&self) -> (output: Vec<u8>)
        ensures
            output@ == wire_bytes(self@),
    {
        let mut output: Vec<u8> = Vec::new();
        let reason = Response::get_http_message(self.status);
        output.extend_from_slice("HTTP/1.1 ".as_bytes());
        push_decimal(&mut output, self.status as usize);
        output.extend_from_slice(" ".as_bytes());
        output.extend_from_slice(reason.as_str().as_bytes());
        output.extend_from_slice("\r\n".as_bytes());
        assert(output@ =~= status_line(self.status));
        let ghost headers = header_views(self.headers@);
        let mut i: usize = 0;
        assert(headers.take(0) =~= Seq::empty());
        while i < self.headers.len()
            invariant
                0 <= i <= self.headers.len(),
                headers == header_views(self.headers@),
                output@ == status_line(self.status) + header_lines(headers.take(i as int)),
            decreases self.headers.len() - i,
        {
            let ghost before = output@;
            output.extend_from_slice(self.headers[i].name.as_str().as_bytes());
            output.extend_from_slice(": ".as_bytes());
            output.extend_from_slice(self.headers[i].value.as_str().as_bytes());
            output.extend_from_slice("\r\n".as_bytes());
            proof {
                assert(headers.take(i + 1).drop_last() =~= headers.take(i as int));
                assert(headers.take(i + 1).last() == headers[i as int]);
                assert(output@ =~= before + header_line(headers[i as int].0, headers[i as int].1));
            }
            i += 1;
        }
        assert(headers.take(i as int) =~= headers);
        let ghost lines = output@;
        output.extend_from_slice("Content-Type".as_bytes());
        output.extend_from_slice(": ".as_bytes());
        output.extend_from_slice(self.ctype.as_str().as_bytes());
        output.extend_from_slice("\r\n".as_bytes());
        output.extend_from_slice("Content-Length: ".as_bytes());
        push_decimal(&mut output, self.payload.len());
        output.extend_from_slice("\r\n".as_bytes());
        output.extend_from_slice("\r\n".as_bytes());
        assert(output@ =~= head_bytes(self@));
        output.extend_from_slice(self.payload.as_slice());
        output
    }

    /// Gets the HTTP message for a given status.
    pub fn get_http_message(status: u16) -> (msg: String)
        ensures
            msg@ == reason_phrase(status),
    {
        let msg = match status {
            100 => "Continue",
            101 => "Switching Protocols",
            200 => "OK",
            201 => "Created",
            202 => "Accepted",
            203 => "Non-Authoritative Information",
            204 => "No Content",
            205 => "Reset Content",
            206 => "Partial Content",
            300 => "Multiple Choices",
            301 => "Moved Permanently",
            302 => "Found",
            303 => "See Other",
            304 => "Not Modified",
            305 => "Use Proxy",
            307 => "Temporary Redirect",
            400 => "Bad Request",
            401 => "Unauthorized",
            402 => "Payment Required",
            403 => "Forbidden",
            404 => "Not Found",
            405 => "Method Not Allowed",
            406 => "Not Acceptable",
            407 => "Proxy Authentication Required",
            408 => "Request Time Out",
            409 => "Conflict",
            410 => "Gone",
            411 => "Length Required",
            412 => "Precondition Failed",
            413 => "Request Entity Too Large",
            414 => "Request-URI Too Large",
            415 => "Unsupported Media Type",
            416 => "Requested Range Not Satisfiable",
            417 => "Expectation Failed",
            500 => "Internal Server Error",
            501 => "Not Implemented",
            502 => "Bad Gateway",
            503 => "Service Unavailable",
            504 => "Gateway Time-out",
            505 => "HTTP Version Not Supported",
            _ => "OK",
        };
        String::from_str(msg)
    }
}

} // verus!
