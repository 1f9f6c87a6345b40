//! Helpers for handlers: ready-made responses and the unescaping of paths.

use crate::clock::{
    from_clock, http_date_secs, http_date_text, is_date, read_http_date, write_http_date, Stamp,
};
use crate::request::Request;
use crate::response::{
    err_body, error_page, fresh, header_set, lemma_header_index, response_of, Response,
    ResponseView, ToOutput,
};
use crate::template::{segment_end, segments};
use crate::text::{chars_of, lowercase, str_eq, string_of};
use vstd::prelude::*;
use vstd::utf8::encode_utf8;

verus! {

/// Convenience method for creating a response from the basic components
/// required (a response body, content type, and response status).
pub fn make_response<T: ToOutput>(body: T, c_type: &str, status: u16) -> (res: Response)
    ensures
        res@ == response_of(body.output(), c_type@, status, res@.headers[2].1),
        is_date(res@.headers[2].1),
        from_clock(res@.headers[2].1),
{
    let mut res = Response::new();
    res.set_status(status);
    res.set_content_type(c_type);
    res.append(body);
    assert(res@.payload =~= body.output());
    res
}

/// `s` with every occurrence of `from` replaced by the character `to`, reading
/// from the left.
pub open spec fn replaced(s: Seq<char>, from: Seq<char>, to: char) -> Seq<char>
    decreases s.len(),
{
    if from.len() == 0 || s.len() < from.len() {
        s
    } else if s.take(from.len() as int) == from {
        seq![to] + replaced(s.skip(from.len() as int), from, to)
    } else {
        seq![s[0]] + replaced(s.skip(1), from, to)
    }
}

/// The number of escape codes that `replace_escape` knows.
pub const ESCAPES: usize = 175;

/// The byte that the `k`th escape code writes in hexadecimal: first the
/// printable ASCII characters, then a choice of Latin-1 characters.
pub open spec fn escape_byte(k: int) -> u8 {
    if k < 95 {
        (0x20 + k) as u8
    } else if k < 112 {
        seq![
            0xA2u8,
            0xA3u8,
            0xA5u8,
            0xA6u8,
            0xA7u8,
            0xABu8,
            0xACu8,
            0xADu8,
            0xB0u8,
            0xB1u8,
            0xB2u8,
            0xB4u8,
            0xB5u8,
            0xBBu8,
            0xBCu8,
            0xBDu8,
            0xBFu8,
        ][k - 95]
    } else if k < 135 {
        (0xC0 + (k - 112)) as u8
    } else if k < 143 {
        (0xD8 + (k - 135)) as u8
    } else {
        (0xE0 + (k - 143)) as u8
    }
}

/// The character that stands for the escape code of byte `b`: the character
/// with that code, but for five codes that the table maps otherwise.
pub open spec fn escape_char(b: u8) -> char {
    if b == 0xA6 {
        '|'
    } else if b == 0xAD {
        '\u{af}'
    } else if b == 0xB0 {
        '\u{ba}'
    } else if b == 0xB2 {
        '\u{aa}'
    } else if b == 0xB4 {
        ','
    } else {
        b as char
    }
}

/// The upper-case hexadecimal digit of a number below sixteen.
pub open spec fn hex_digit(n: u8) -> char {
    if n < 10 {
        (48 + n) as char
    } else {
        (55 + n) as char
    }
}

/// The escape code of byte `b`: a percent sign and two hexadecimal digits.
pub open spec fn escape_code(b: u8) -> Seq<char> {
    seq!['%', hex_digit(b / 16), hex_digit(b % 16)]
}

/// `s` after the first `n` escape codes were replaced, one code after the
/// other.
pub open spec fn unescaped_through(s: Seq<char>, n: nat) -> Seq<char>
    decreases n,
{
    if n == 0 {
        s
    } else {
        let k = (n - 1) as int;
        replaced(
            unescaped_through(s, (n - 1) as nat),
            escape_code(escape_byte(k)),
            escape_char(escape_byte(k)),
        )
    }
}

/// `path` with its escape codes replaced by the characters they stand for.
pub open spec fn unescaped(path: Seq<char>) -> Seq<char> {
    unescaped_through(path, ESCAPES as nat)
}

/// The byte of the `k`th escape code.
fn escape_byte_at(k: usize) -> (b: u8)
    requires
        k < ESCAPES,
    ensures
        b == escape_byte(k as int),
{
    if k < 95 {
        (0x20 + k) as u8
    } else if k < 112 {
        let odd: [u8; 17] = [
            0xA2,
            0xA3,
            0xA5,
            0xA6,
            0xA7,
            0xAB,
            0xAC,
            0xAD,
            0xB0,
            0xB1,
            0xB2,
            0xB4,
            0xB5,
            0xBB,
            0xBC,
            0xBD,
            0xBF,
        ];
        odd[k - 95]
    } else if k < 135 {
        (0xC0 + (k - 112)) as u8
    } else if k < 143 {
        (0xD8 + (k - 135)) as u8
    } else {
        (0xE0 + (k - 143)) as u8
    }
}

/// The character that the escape code of byte `b` stands for.
fn escape_char_of(b: u8) -> (c: char)
    ensures
        c == escape_char(b),
{
    if b == 0xA6 {
        '|'
    } else if b == 0xAD {
        '\u{af}'
    } else if b == 0xB0 {
        '\u{ba}'
    } else if b == 0xB2 {
        '\u{aa}'
    } else if b == 0xB4 {
        ','
    } else {
        b as char
    }
}

/// The upper-case hexadecimal digit of `n`.
fn hex_digit_of(n: u8) -> (c: char)
    requires
        n < 16,
    ensures
        c == hex_digit(n),
{
    if n < 10 {
        (48 + n) as char
    } else {
        (55 + n) as char
    }
}

/// Replaces every occurrence of the three characters `from` in `s` by `to`.
fn replace_code(s: &Vec<char>, from: &Vec<char>, to: char) -> (r: Vec<char>)
    requires
        from.len() == 3,
    ensures
        r@ == replaced(s@, from@, to),
{
    let mut r: Vec<char> = Vec::new();
    let mut i: usize = 0;
    assert(s@.skip(0) =~= s@);
    while i < s.len()
        invariant
            0 <= i <= s.len(),
            from.len() == 3,
            replaced(s@, from@, to) == r@ + replaced(s@.skip(i as int), from@, to),
        decreases s.len() - i,
    {
        let ghost here = s@.skip(i as int);
        let ghost before = r@;
        if s.len() - i >= 3 && s[i] == from[0] && s[i + 1] == from[1] && s[i + 2] == from[2] {
            assert(here.take(3) =~= from@);
            assert(here.skip(3) =~= s@.skip(i + 3));
            r.push(to);
            assert(r@ + replaced(s@.skip(i + 3), from@, to) =~= before + (seq![to] + replaced(
                s@.skip(i + 3),
                from@,
                to,
            )));
            i += 3;
        } else {
            proof {
                let rest = s@.skip(i + 1);
                assert(here.skip(1) =~= rest);
                if here.len() >= 3 {
                    if here.take(3) == from@ {
                        assert(here.take(3)[0] == from@[0]);
                        assert(here.take(3)[1] == from@[1]);
                        assert(here.take(3)[2] == from@[2]);
                    }
                } else {
                    assert(replaced(rest, from@, to) == rest);
                    assert(seq![here[0]] + rest =~= here);
                }
            }
            r.push(s[i]);
            assert(r@ + replaced(s@.skip(i + 1), from@, to) =~= before + (seq![here[0]] + replaced(
                s@.skip(i + 1),
                from@,
                to,
            )));
            i += 1;
        }
    }
    assert(s@.skip(i as int) =~= Seq::<char>::empty());
    assert(r@ + Seq::<char>::empty() =~= r@);
    r
}

/// Replace the URI escape codes with the characters they stand for. The codes
/// are replaced one after the other, in the order of the table, each wherever
/// it occurs.
pub fn replace_escape(path: &str) -> (fixed: String)
    ensures
        fixed@ == unescaped(path@),
{
    let mut chars = chars_of(path);
    let mut k: usize = 0;
    while k < ESCAPES
        invariant
            0 <= k <= ESCAPES,
            chars@ == unescaped_through(path@, k as nat),
        decreases ESCAPES - k,
    {
        let b = escape_byte_at(k);
        let mut code: Vec<char> = Vec::new();
        code.push('%');
        code.push(hex_digit_of(b / 16));
        code.push(hex_digit_of(b % 16));
        assert(code@ =~= escape_code(b));
        chars = replace_code(&chars, &code, escape_char_of(b));
        k += 1;
    }
    let n = chars.len();
    let fixed = string_of(&chars, 0, n);
    assert(chars@.subrange(0, n as int) =~= chars@);
    fixed
}

/// The JSON-shaped text that the error handlers for XHR show.
pub open spec fn error_json(message: Seq<char>, detail: Seq<char>) -> Seq<char> {
    "{ message: '"@ + message + ": "@ + detail + "' }"@
}

/// The body of an error message for XHR.
pub fn err_json_body(message: &str, detail: &str) -> (text: String)
    ensures
        text@ == error_json(message@, detail@),
{
    let mut text = String::from_str("{ message: '");
    text.append(message);
    text.append(": ");
    text.append(detail);
    text.append("' }");
    text
}

/// Default handler function for HTTP 403 errors.
pub fn err_403(req: &Request) -> (res: Response)
    ensures
        res@ == response_of(
            encode_utf8(error_page("forbidden"@, req.path@)),
            "text/html"@,
            403,
            res@.headers[2].1,
        ),
        is_date(res@.headers[2].1),
        from_clock(res@.headers[2].1),
{
    Response::err_403(req.path.as_str())
}

/// Default handler function for HTTP 403 errors for XHR.
pub fn err_403_json(message: &str) -> (res: Response)
    ensures
        res@ == response_of(
            encode_utf8(error_json("forbidden"@, message@)),
            "application/json"@,
            403,
            res@.headers[2].1,
        ),
        is_date(res@.headers[2].1),
        from_clock(res@.headers[2].1),
{
    make_response(err_json_body("forbidden", message), "application/json", 403)
}

/// Default handler function for HTTP 404 errors.
pub fn err_404(req: &Request) -> (res: Response)
    ensures
        res@ == response_of(
            encode_utf8(error_page("not found"@, req.path@)),
            "text/html"@,
            404,
            res@.headers[2].1,
        ),
        is_date(res@.headers[2].1),
        from_clock(res@.headers[2].1),
{
    Response::err_404(req.path.as_str())
}

/// Default handler function for HTTP 404 errors for XHR.
pub fn err_404_json(message: &str) -> (res: Response)
    ensures
        res@ == response_of(
            encode_utf8(error_json("not found"@, message@)),
            "application/json"@,
            404,
            res@.headers[2].1,
        ),
        is_date(res@.headers[2].1),
        from_clock(res@.headers[2].1),
{
    make_response(err_json_body("not found", message), "application/json", 404)
}

/// Default handler function for HTTP 500 errors.
pub fn err_500(req: &Request) -> (res: Response)
    ensures
        res@ == response_of(
            encode_utf8(error_page("internal server error"@, req.path@)),
            "text/html"@,
            500,
            res@.headers[2].1,
        ),
        is_date(res@.headers[2].1),
        from_clock(res@.headers[2].1),
{
    make_response(err_body("internal server error", req.path.as_str()), "text/html", 500)
}

/// Default handler function for HTTP 500 errors for XHR.
pub fn err_500_json(message: &str) -> (res: Response)
    ensures
        res@ == response_of(
            encode_utf8(error_json("internal server error"@, message@)),
            "application/json"@,
            500,
            res@.headers[2].1,
        ),
        is_date(res@.headers[2].1),
        from_clock(res@.headers[2].1),
{
    make_response(err_json_body("internal server error", message), "application/json", 500)
}

/// The response to bytes that are no request.
pub fn bad_request() -> (res: Response)
    ensures
        res@ == response_of(
            encode_utf8(error_page("bad request"@, ""@)),
            "text/html"@,
            400,
            res@.headers[2].1,
        ),
        is_date(res@.headers[2].1),
        from_clock(res@.headers[2].1),
{
    make_response(err_body("bad request", ""), "text/html", 400)
}

/// Whether a segment of a path is `.` or `..`.
pub open spec fn is_dots(segment: Seq<char>) -> bool {
    segment == "."@ || segment == ".."@
}

/// The segments but for those that are `.` or `..`.
pub open spec fn without_dots(segs: Seq<Seq<char>>) -> Seq<Seq<char>>
    decreases segs.len(),
{
    if segs.len() == 0 {
        Seq::empty()
    } else if is_dots(segs.last()) {
        without_dots(segs.drop_last())
    } else {
        without_dots(segs.drop_last()).push(segs.last())
    }
}

/// The names that lead from the directory of the static files to the file that
/// a path asks for: the segments of the unescaped path, without `.` and `..`,
/// so that no path leaves the directory.
pub open spec fn static_chunks(path: Seq<char>) -> Seq<Seq<char>> {
    without_dots(segments(unescaped(path)))
}

/// The names that lead to the file that a path asks for.
pub fn static_path(path: &str) -> (chunks: Vec<String>)
    ensures
        chunks@.map_values(|s: String| s@) == static_chunks(path@),
{
    let clean = replace_escape(path);
    let t = chars_of(clean.as_str());
    let mut chunks: Vec<String> = Vec::new();
    let ghost mut done: Seq<Seq<char>> = Seq::empty();
    let mut i: usize = 0;
    assert(t@.skip(0) =~= t@);
    assert(chunks@.map_values(|s: String| s@) =~= without_dots(done));
    while i < t.len()
        invariant
            0 <= i <= t.len(),
            segments(t@) == done + segments(t@.skip(i as int)),
            chunks@.map_values(|s: String| s@) == without_dots(done),
        decreases t.len() - i,
    {
        let ghost here = t@.skip(i as int);
        if t[i] == '/' {
            assert(here.skip(1) =~= t@.skip(i + 1));
            i += 1;
        } else {
            let end = segment_end(&t, i);
            let ghost segment = t@.subrange(i as int, end as int);
            proof {
                assert(here.take(end - i) =~= segment);
                assert(here.skip(end - i) =~= t@.skip(end as int));
                assert(done + (seq![segment] + segments(t@.skip(end as int))) =~= done.push(
                    segment,
                ) + segments(t@.skip(end as int)));
                assert(done.push(segment).drop_last() =~= done);
            }
            let chunk = string_of(&t, i, end);
            let ghost before = chunks@.map_values(|s: String| s@);
            if !(str_eq(chunk.as_str(), ".") || str_eq(chunk.as_str(), "..")) {
                chunks.push(chunk);
                assert(chunks@.map_values(|s: String| s@) =~= before.push(segment));
            }
            proof {
                done = done.push(segment);
            }
            i = end;
        }
    }
    assert(t@.skip(t@.len() as int) =~= Seq::<char>::empty());
    assert(done + Seq::<Seq<char>>::empty() =~= done);
    chunks
}

/// What the file system says of a static file.
pub enum StaticFile {
    /// There is no such file.
    Missing,
    /// The file cannot be read.
    Unreadable,
    /// The file, when it was last modified and what it holds.
    Found { modified: Stamp, body: Vec<u8> },
}

/// Whether a file last modified at `modified` is unchanged for a client that
/// has the version of `since`, a time in whole seconds.
pub open spec fn unchanged_since(since: int, modified: Stamp) -> bool {
    since > modified.secs || (since == modified.secs && modified.nanos == 0)
}

/// Whether the request asks for a file only if it changed, and the file did
/// not.
pub open spec fn not_modified(headers: Map<Seq<char>, Seq<char>>, modified: Stamp) -> bool {
    let name = lowercase("If-Modified-Since"@);
    headers.contains_key(name) && http_date_secs(headers[name]) is Some && unchanged_since(
        http_date_secs(headers[name])->Some_0,
        modified,
    )
}

/// The response that serves a file: its bytes as plain text, and the time of
/// its last change where that time can be written.
pub open spec fn file_response(modified: Stamp, body: Seq<u8>, date: Seq<char>) -> ResponseView {
    let plain = ResponseView {
        status: 200,
        content_type: "text/plain"@,
        payload: body,
        ..fresh(date)
    };
    match http_date_text(modified.secs as int) {
        Some(text) => header_set(plain, "Last-Modified"@, text),
        None => plain,
    }
}

/// The response to a request for a static file, given what the file system
/// says of the file: an error page where the file is missing or cannot be
/// read, status 304 and no body where the client has the file already, and
/// else the file.
pub fn static_response(req: &Request, file: StaticFile) -> (res: Response)
    ensures
        ({
            let date = res@.headers[2].1;
            match file {
                StaticFile::Missing => res@ == response_of(
                    encode_utf8(error_page("not found"@, req.path@)),
                    "text/html"@,
                    404,
                    date,
                ),
                StaticFile::Unreadable => res@ == response_of(
                    encode_utf8(error_page("internal server error"@, req.path@)),
                    "text/html"@,
                    500,
                    date,
                ),
                StaticFile::Found { modified, body } => if not_modified(req@.headers, modified) {
                    res@ == (ResponseView { status: 304, ..fresh(date) })
                } else {
                    res@ == file_response(modified, body@, date)
                },
            }
        }),
        is_date(res@.headers[2].1),
        from_clock(res@.headers[2].1),
{
    match file {
        StaticFile::Missing => err_404(req),
        StaticFile::Unreadable => err_500(req),
        StaticFile::Found { modified, body } => {
            let mut res = Response::new();
            let ghost date = res@.headers[2].1;
            if let Some(hdr) = req.get_header("If-Modified-Since") {
                if let Some(since) = read_http_date(hdr.as_str()) {
                    if since > modified.secs || (since == modified.secs && modified.nanos == 0) {
                        res.set_status(304);
                        return res;
                    }
                }
            }
            if let Some(text) = write_http_date(modified.secs) {
                proof {
                    reveal_strlit("Last-Modified");
                    reveal_strlit("Connection");
                    reveal_strlit("Server");
                    reveal_strlit("Date");
                    reveal_strlit("Content-Type");
                    reveal_strlit("Content-Length");
                    assert("Content-Type"@.len() == 12);
                    assert("Content-Length"@.len() == 14);
                    assert("Last-Modified"@.len() == 13);
                    assert("Connection"@.len() == 10);
                    assert("Server"@.len() == 6);
                    assert("Date"@.len() == 4);
                    assert(res@.headers[0].0 == "Connection"@);
                    assert(res@.headers[1].0 == "Server"@);
                    assert(res@.headers[2].0 == "Date"@);
                    lemma_header_index(res@.headers, "Last-Modified"@, 3);
                }
                res.add_header("Last-Modified", text.as_str());
                assert(res@.headers[2].1 == date);
            }
            res.set_status(200);
            res.set_content_type("text/plain");
            res.append(body);
            proof {
                let expected = file_response(modified, body@, date);
                assert(res@.payload =~= body@);
                assert(res@.headers == expected.headers);
                assert(res@.status == expected.status);
                assert(res@.content_type == expected.content_type);
                assert(res@.payload == expected.payload);
            }
            res
        },
    }
}

} // verus!
