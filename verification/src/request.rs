//! HTTP requests and the parser that reads them from the wire.

use crate::bytes::{copy_of, find, find_in, lemma_find_bounds, text_of};
use crate::json::{json_document, read_json};
use crate::text::{bytes_eq, lowercase};
use vstd::hash_map::StringHashMap;
use vstd::prelude::*;
use vstd::slice::slice_subrange;
use vstd::utf8::{decode_utf8, encode_utf8, valid_utf8};

verus! {

/// The HTTP methods that the framework tells apart.
#[derive(PartialEq, Eq, Structural, Hash, Debug, Copy, Clone)]
pub enum Method {
    Get,
    Put,
    Post,
    Delete,
    NoImpl,
}

/// The errors that reading a request can meet.
#[derive(PartialEq, Eq, Structural, Debug, Copy, Clone)]
pub enum RequestError {
    /// The body is not a JSON document.
    JsonStrError,
    /// The body is not UTF-8 text.
    StrCopyError,
    /// The request has no request line with a method and a path.
    BadRequest,
}

/// A map from names to texts, seen through the views of its values.
pub open spec fn texts(m: Map<Seq<char>, String>) -> Map<Seq<char>, Seq<char>> {
    m.map_values(|v: String| v@)
}

/// The end of a line.
pub open spec fn crlf() -> Seq<u8> {
    encode_utf8("\r\n"@)
}

/// What parts the words of the request line.
pub open spec fn space() -> Seq<u8> {
    encode_utf8(" "@)
}

/// What parts the name of a header from its value.
pub open spec fn colon() -> Seq<u8> {
    encode_utf8(": "@)
}

/// The method that a token of the request line names. The token is read as it
/// is written: `get` names no method.
pub open spec fn method_of(token: Seq<u8>) -> Method {
    if token == encode_utf8("GET"@) {
        Method::Get
    } else if token == encode_utf8("PUT"@) || token == encode_utf8("PATCH"@) {
        Method::Put
    } else if token == encode_utf8("POST"@) {
        Method::Post
    } else if token == encode_utf8("DELETE"@) {
        Method::Delete
    } else {
        Method::NoImpl
    }
}

/// The first line of `s`, without its end.
pub open spec fn first_line(s: Seq<u8>) -> Seq<u8> {
    s.take(find(s, crlf()))
}

/// What follows the first line of `s`; nothing where no line ends in `s`.
pub open spec fn after_line(s: Seq<u8>) -> Seq<u8> {
    let end = find(s, crlf());
    if end < s.len() {
        s.skip(end + crlf().len())
    } else {
        Seq::empty()
    }
}

/// The method token of a request line: what stands before the first space.
pub open spec fn line_token(line: Seq<u8>) -> Seq<u8> {
    line.take(find(line, space()))
}

/// The path of a request line: what stands between the first space and the
/// second, or the end of the line. A line without a space has no path.
pub open spec fn line_path(line: Seq<u8>) -> Option<Seq<u8>> {
    let first = find(line, space());
    if first < line.len() {
        let rest = line.skip(first + space().len());
        Some(rest.take(find(rest, space())))
    } else {
        None
    }
}

/// The headers after one more line was read. A line `Name: value` sets the
/// header of that name, written in lower case; any other line changes nothing.
pub open spec fn with_field(headers: Map<Seq<char>, Seq<char>>, line: Seq<u8>) -> Map<
    Seq<char>,
    Seq<char>,
> {
    let at = find(line, colon());
    if at < line.len() && valid_utf8(line.take(at)) && valid_utf8(line.skip(at + colon().len())) {
        headers.insert(
            lowercase(decode_utf8(line.take(at))),
            decode_utf8(line.skip(at + colon().len())),
        )
    } else {
        headers
    }
}

/// The headers that the lines of `s` set on top of `headers`, up to the first
/// empty line. A last line that does not end is read like the others.
pub open spec fn head_fields(headers: Map<Seq<char>, Seq<char>>, s: Seq<u8>) -> Map<
    Seq<char>,
    Seq<char>,
>
    decreases s.len(),
{
    let end = find(s, crlf());
    if end >= s.len() {
        with_field(headers, s)
    } else if end == 0 {
        headers
    } else {
        proof {
            lemma_find_bounds(s, crlf());
        }
        head_fields(with_field(headers, s.take(end)), s.skip(end + crlf().len()))
    }
}

/// The body: everything that follows the first empty line of `s`.
pub open spec fn body(s: Seq<u8>) -> Seq<u8>
    decreases s.len(),
{
    let end = find(s, crlf());
    if end >= s.len() {
        Seq::empty()
    } else if end == 0 {
        s.skip(crlf().len() as int)
    } else {
        proof {
            lemma_find_bounds(s, crlf());
        }
        body(s.skip(end + crlf().len()))
    }
}

/// A request as the contracts see it.
pub struct RequestView {
    pub method: Method,
    pub path: Seq<char>,
    pub payload: Seq<u8>,
    pub params: Map<Seq<char>, Seq<char>>,
    pub headers: Map<Seq<char>, Seq<char>>,
}

/// What the bytes of a request say: the method and the path of the request
/// line, the headers, and the body. There is nothing to read where the first
/// line has no space, or where the path is not UTF-8 text.
pub open spec fn parsed(raw: Seq<u8>) -> Option<RequestView> {
    match line_path(first_line(raw)) {
        Some(path) => if valid_utf8(path) {
            Some(
                RequestView {
                    method: method_of(line_token(first_line(raw))),
                    path: decode_utf8(path),
                    payload: body(after_line(raw)),
                    params: Map::empty(),
                    headers: head_fields(Map::empty(), after_line(raw)),
                },
            )
        } else {
            None
        },
        None => None,
    }
}

/// A type that a path parameter can be read as.
pub trait FromUri: Sized {
    /// Whether `data` is the text of a value of this type.
    spec fn accepts(data: Seq<char>) -> bool;

    /// Whether `value` is what `data` says.
    spec fn reads_as(data: Seq<char>, value: Self) -> bool;

    /// Parse a text into the type, where it is the text of a value.
    fn from_uri(data: &str) -> (r: Option<Self>)
        ensures
            r is Some <==> Self::accepts(data@),
            r is Some ==> Self::reads_as(data@, r->Some_0),
    ;
}

impl FromUri for String {
    open spec fn accepts(data: Seq<char>) -> bool {
        true
    }

    open spec fn reads_as(data: Seq<char>, value: String) -> bool {
        value@ == data
    }

    fn from_uri(data: &str) -> (r: Option<String>) {
        Some(String::from_str(data))
    }
}

/// A request from an HTTP client.
pub struct Request {
    pub method: Method,
    pub path: String,
    pub payload: Vec<u8>,
    pub params: StringHashMap<String>,
    pub headers: StringHashMap<String>,
}

impl View for Request {
    type V = RequestView;

    open spec fn view(&self) -> RequestView {
        RequestView {
            method: self.method,
            path: self.path@,
            payload: self.payload@,
            params: texts(self.params@),
            headers: texts(self.headers@),
        }
    }
}

impl Request {
    /// Create a new, empty Request.
    pub fn new() -> (req: Request)
        ensures
            req@ == (RequestView {
                method: Method::NoImpl,
                path: Seq::empty(),
                payload: Seq::empty(),
                params: Map::empty(),
                headers: Map::empty(),
            }),
    {
        let req = Request {
            method: Method::NoImpl,
            path: String::new(),
            headers: StringHashMap::new(),
            params: StringHashMap::new(),
            payload: Vec::with_capacity(2048),
        };
        assert(req@.params =~= Map::<Seq<char>, Seq<char>>::empty());
        assert(req@.headers =~= Map::<Seq<char>, Seq<char>>::empty());
        req
    }

    /// The method that a token of the request line names.
    fn method_from(token: &[u8]) -> (m: Method)
        ensures
            m == method_of(token@),
    {
        if bytes_eq(token, "GET".as_bytes()) {
            Method::Get
        } else if bytes_eq(token, "PUT".as_bytes()) || bytes_eq(token, "PATCH".as_bytes()) {
            Method::Put
        } else if bytes_eq(token, "POST".as_bytes()) {
            Method::Post
        } else if bytes_eq(token, "DELETE".as_bytes()) {
            Method::Delete
        } else {
            Method::NoImpl
        }
    }

    /// Reads one header line into `headers`.
    fn add_field(headers: &mut StringHashMap<String>, line: &[u8])
        ensures
            texts(final(headers)@) == with_field(texts(old(headers)@), line@),
    {
        let sep = ": ".as_bytes();
        let at = find_in(line, sep);
        if at >= line.len() {
            return ;
        }
        let name_bytes = slice_subrange(line, 0, at);
        let value_bytes = slice_subrange(line, at + sep.len(), line.len());
        assert(name_bytes@ =~= line@.take(at as int));
        assert(value_bytes@ =~= line@.skip(at + colon().len()));
        match text_of(copy_of(name_bytes)) {
            Some(name) => match text_of(copy_of(value_bytes)) {
                Some(value) => {
                    let key = name.as_str().to_lowercase();
                    headers.insert(key, value);
                    assert(texts(headers@) =~= texts(old(headers)@).insert(key@, value@));
                },
                None => {},
            },
            None => {},
        }
    }

    /// Create a Request from the bytes that a client sent: a request line,
    /// header lines, an empty line, and the body. The body is taken as it is,
    /// whatever the headers say of its length.
    pub fn parse(raw: &[u8]) -> (r: Result<Request, RequestError>)
        ensures
            match r {
                Ok(req) => parsed(raw@) == Some(req@),
                Err(e) => e == RequestError::BadRequest && parsed(raw@) is None,
            },
    {
        let eol = "\r\n".as_bytes();
        let sp = " ".as_bytes();
        let end = find_in(raw, eol);
        let line = slice_subrange(raw, 0, end);
        assert(line@ =~= first_line(raw@));
        let first = find_in(line, sp);
        if first >= line.len() {
            return Err(RequestError::BadRequest);
        }
        let token = slice_subrange(line, 0, first);
        assert(token@ =~= line_token(line@));
        let target = slice_subrange(line, first + sp.len(), line.len());
        assert(target@ =~= line@.skip(first + space().len()));
        let second = find_in(target, sp);
        let path_bytes = slice_subrange(target, 0, second);
        assert(path_bytes@ =~= target@.take(second as int));
        let path = match text_of(copy_of(path_bytes)) {
            Some(path) => path,
            None => {
                return Err(RequestError::BadRequest);
            },
        };
        let method = Request::method_from(token);
        let mut headers: StringHashMap<String> = StringHashMap::new();
        let params: StringHashMap<String> = StringHashMap::new();
        let mut rest: &[u8] = if end < raw.len() {
            slice_subrange(raw, end + eol.len(), raw.len())
        } else {
            slice_subrange(raw, raw.len(), raw.len())
        };
        assert(rest@ =~= after_line(raw@));
        assert(texts(headers@) =~= Map::<Seq<char>, Seq<char>>::empty());
        assert(texts(params@) =~= Map::<Seq<char>, Seq<char>>::empty());
        let ghost all = rest@;
        loop
            invariant
                eol@ == crlf(),
                head_fields(Map::empty(), all) == head_fields(texts(headers@), rest@),
                body(all) == body(rest@),
                texts(params@) == Map::<Seq<char>, Seq<char>>::empty(),
                all == after_line(raw@),
                parsed(raw@) is Some,
                parsed(raw@)->Some_0.method == method,
                parsed(raw@)->Some_0.path == path@,
            decreases rest.len(),
        {
            let end = find_in(rest, eol);
            if end >= rest.len() {
                Request::add_field(&mut headers, rest);
                return Ok(Request { method, path, payload: Vec::new(), params, headers });
            }
            if end == 0 {
                let payload = copy_of(slice_subrange(rest, eol.len(), rest.len()));
                assert(payload@ =~= rest@.skip(crlf().len() as int));
                return Ok(Request { method, path, payload, params, headers });
            }
            let field = slice_subrange(rest, 0, end);
            assert(field@ =~= rest@.take(end as int));
            Request::add_field(&mut headers, field);
            let next = slice_subrange(rest, end + eol.len(), rest.len());
            assert(next@ =~= rest@.skip(end + crlf().len()));
            rest = next;
        }
    }

    /// Create a Request from an HTTP request string.
    pub fn from_str(rqstr: &str) -> (r: Result<Request, RequestError>)
        ensures
            match r {
                Ok(req) => parsed(encode_utf8(rqstr@)) == Some(req@),
                Err(e) => e == RequestError::BadRequest && parsed(encode_utf8(rqstr@)) is None,
            },
    {
        Request::parse(rqstr.as_bytes())
    }

    /// Get an HTTP header contained in the Request. The name is looked up in
    /// lower case, as the parser stored it.
    pub fn get_header(&self, name: &str) -> (r: Option<String>)
        ensures
            r is Some <==> self@.headers.contains_key(lowercase(name@)),
            r is Some ==> r->Some_0@ == self@.headers[lowercase(name@)],
    {
        let key = name.to_lowercase();
        match self.headers.get(key.as_str()) {
            Some(val) => Some(val.clone()),
            None => None,
        }
    }

    /// Get a variable from the path, read as a `T`. There is none where the
    /// route declared no parameter of that name, or where its text is not the
    /// text of a `T`.
    pub fn get<T: FromUri>(&self, name: &str) -> (r: Option<T>)
        ensures
            r is Some <==> self@.params.contains_key(name@) && T::accepts(self@.params[name@]),
            r is Some ==> T::reads_as(self@.params[name@], r->Some_0),
    {
        match self.params.get(name) {
            Some(text) => T::from_uri(text.as_str()),
            None => None,
        }
    }

    /// Whether the route that matched gave the request any variables.
    pub fn has_params(&self) -> (r: bool)
        ensures
            r == !self@.params.is_empty(),
    {
        assert(self@.params.dom() =~= self.params@.dom());
        !self.params.is_empty()
    }

    /// The body as text, where it is UTF-8.
    pub fn payload_text(&self) -> (r: Option<String>)
        ensures
            r is Some <==> valid_utf8(self@.payload),
            r is Some ==> r->Some_0@ == decode_utf8(self@.payload),
    {
        text_of(self.payload.clone())
    }

    /// Get a raw JSON payload from the request.
    pub fn get_json(&self) -> (r: Result<serde_json::Value, RequestError>)
        ensures
            match r {
                Ok(value) => valid_utf8(self@.payload) && json_document(
                    decode_utf8(self@.payload),
                ) == Some(value),
                Err(e) => if valid_utf8(self@.payload) {
                    e == RequestError::JsonStrError && json_document(decode_utf8(self@.payload))
                        is None
                } else {
                    e == RequestError::StrCopyError
                },
            },
    {
        match self.payload_text() {
            Some(text) => match read_json(text.as_str()) {
                Ok(value) => Ok(value),
                Err(_) => Err(RequestError::JsonStrError),
            },
            None => Err(RequestError::StrCopyError),
        }
    }
}

impl Default for Request {
    fn default() -> (req: Request)
        ensures
            req@ == (RequestView {
                method: Method::NoImpl,
                path: Seq::empty(),
                payload: Seq::empty(),
                params: Map::empty(),
                headers: Map::empty(),
            }),
    {
        Request::new()
    }
}

impl std::str::FromStr for Request {
    type Err = RequestError;

    /// Create a Request from an HTTP request string: what its bytes say, as
    /// `parse` reads them.
    fn from_str(rqstr: &str) -> (r: Result<Request, RequestError>)
        ensures
            match r {
                Ok(req) => parsed(encode_utf8(rqstr@)) == Some(req@),
                Err(e) => e == RequestError::BadRequest && parsed(encode_utf8(rqstr@)) is None,
            },
    {
        Request::parse(rqstr.as_bytes())
    }
}

} // verus!
