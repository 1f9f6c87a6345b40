use canteen::response::{Response, ToOutput};
use canteen::utils;

#[test]
fn response_test_response_http_message() {
    assert_eq!("OK", Response::get_http_message(200));
}

#[test]
fn tests_test_response_http_message() {
    assert_eq!("OK", Response::get_http_message(200));
}

#[test]
fn test_tooutput_trait_static_str() {
    let ar: [u8; 3] = [97, 98, 99];

    assert_eq!(ar, "abc".to_output());
}

#[test]
fn response_test_tooutput_trait_str() {
    let ar: [u8; 3] = [97, 98, 99];
    let st = "abc";

    assert_eq!(ar, st.to_output());
}

#[test]
fn tests_test_tooutput_trait_str() {
    let ar: [u8; 3] = [97, 98, 99];

    assert_eq!(ar, ToOutput::to_output("abc"));
}

#[test]
fn response_test_tooutput_trait_string() {
    let ar: [u8; 3] = [97, 98, 99];
    let st = String::from("abc");

    assert_eq!(ar, st.to_output());
}

#[test]
fn tests_test_tooutput_trait_string() {
    let ar: [u8; 3] = [97, 98, 99];
    let st = String::from("abc");

    assert_eq!(ar, ToOutput::to_output(&st));
}

#[test]
fn response_test_tooutput_trait_vec() {
    let ar: [u8; 5] = [1, 2, 3, 4, 5];
    let vc: Vec<u8> = vec![1, 2, 3, 4, 5];

    assert_eq!(ar, vc.to_output());
}

#[test]
fn tests_test_tooutput_trait_vec() {
    let ar: [u8; 5] = [1, 2, 3, 4, 5];
    let vc: Vec<u8> = vec![1, 2, 3, 4, 5];

    assert_eq!(ar, ToOutput::to_output(&vc));
}

#[test]
fn test_response_as_json() {
    let encoded = String::from("{\"item\":12345}");
    let res_j = Response::as_json(encoded.clone());
    let mut res_r = Response::with_date("now");

    res_r.set_content_type("application/json");
    res_r.append(encoded);

    let mut out_j = res_j.gen_output();
    let out_r = res_r.gen_output();
    let text = String::from_utf8(out_j.clone()).unwrap();
    let at = text.find("Date: ").unwrap();
    let end = at + text[at..].find("\r\n").unwrap();
    out_j.splice(at + 6..end, "now".bytes());
    assert_eq!(out_r, out_j);
}

#[test]
fn response_wire_form_of_json_body() {
    let mut res = Response::with_date("Tue, 01 Mar 2016, 12:00:00 UTC");
    res.set_status(200);
    res.add_header("Content-Type", "application/json");
    res.append("{\"a\":1}");
    let expected = format!(
        "HTTP/1.1 200 OK\r\nConnection: close\r\nServer: canteen/{}\r\nDate: Tue, 01 Mar 2016, 12:00:00 UTC\r\nContent-Type: application/json\r\nContent-Length: 7\r\n\r\n{{\"a\":1}}",
        canteen::response::VERSION
    );
    assert_eq!(expected.as_bytes(), res.gen_output().as_slice());
}

#[test]
fn response_content_length_of_eight_bytes() {
    let mut res = Response::with_date("d");
    res.set_content_type("application/json");
    res.append("{\"a\": 1}");
    let out = String::from_utf8(res.gen_output()).unwrap();
    assert!(out.starts_with("HTTP/1.1 200 OK\r\n"));
    assert!(out.contains("\r\nContent-Length: 8\r\n\r\n{\"a\": 1}"));
    assert_eq!(1, out.matches("\r\n\r\n").count());
    assert!(out.ends_with("\r\n\r\n{\"a\": 1}"));
}

#[test]
fn response_caller_headers_replace_defaults() {
    let mut res = Response::with_date("d");
    res.add_header("Server", "mine");
    res.add_header("X-One", "1");
    res.add_header("X-One", "2");
    res.add_header("Content-Length", "999");
    res.set_status(404);
    assert_eq!(404, res.status());
    let out = String::from_utf8(res.gen_output()).unwrap();
    assert_eq!(
        "HTTP/1.1 404 Not Found\r\nConnection: close\r\nServer: mine\r\nDate: d\r\nX-One: 2\r\nContent-Type: text/plain\r\nContent-Length: 0\r\n\r\n",
        out
    );
}

#[test]
fn response_unknown_status_reads_ok() {
    assert_eq!("OK", Response::get_http_message(299));
    assert_eq!("Gateway Time-out", Response::get_http_message(504));
    assert_eq!("Continue", Response::get_http_message(100));
    assert_eq!("Expectation Failed", Response::get_http_message(417));
}

#[test]
fn response_new_has_a_date() {
    let out = String::from_utf8(Response::new().gen_output()).unwrap();
    assert!(out.contains("\r\nDate: "));
    assert!(out.contains(" UTC\r\n"));
}

#[test]
fn response_body_of_many_bytes() {
    let mut res = Response::with_date("d");
    res.append(vec![0u8; 1234]);
    let out = res.gen_output();
    let head = String::from_utf8(out[..out.len() - 1234].to_vec()).unwrap();
    assert!(head.ends_with("Content-Length: 1234\r\n\r\n"));
}

#[test]
fn utils_make_response_and_error_pages() {
    let res = utils::make_response("Hello, world!", "text/plain", 200);
    let out = String::from_utf8(res.gen_output()).unwrap();
    assert!(out.ends_with("Content-Type: text/plain\r\nContent-Length: 13\r\n\r\nHello, world!"));

    let mut req = canteen::request::Request::new();
    req.path = String::from("/nope");
    let out = String::from_utf8(utils::err_404(&req).gen_output()).unwrap();
    assert!(out.starts_with("HTTP/1.1 404 Not Found\r\n"));
    assert!(out.ends_with("<html><head><style>body { font-family: helvetica, sans-serif; } p { font-size: 14 }</style></head><body><h3>Your request failed</h3><p>not found: /nope</p></body></html>"));
    let out = String::from_utf8(utils::err_403(&req).gen_output()).unwrap();
    assert!(out.starts_with("HTTP/1.1 403 Forbidden\r\n"));
    assert!(out.contains("<p>forbidden: /nope</p>"));
    let out = String::from_utf8(utils::err_500(&req).gen_output()).unwrap();
    assert!(out.starts_with("HTTP/1.1 500 Internal Server Error\r\n"));
    assert!(out.contains("<p>internal server error: /nope</p>"));

    let out = String::from_utf8(utils::err_403_json("x").gen_output()).unwrap();
    assert!(out.ends_with("Content-Type: application/json\r\nContent-Length: 27\r\n\r\n{ message: 'forbidden: x' }"));
    let out = String::from_utf8(utils::err_404_json("x").gen_output()).unwrap();
    assert!(out.ends_with("\r\n\r\n{ message: 'not found: x' }"));
    let out = String::from_utf8(utils::err_500_json("x").gen_output()).unwrap();
    assert!(out.ends_with("\r\n\r\n{ message: 'internal server error: x' }"));
}

#[test]
fn test_replace_escape() {
    let path = "%61%62%63%64%65%66%67%68%69%6A%6B%6C%6D%6E%6F%70%71%72%73%74%75%76%77%78%79%7A";
    assert_eq!("abcdefghijklmnopqrstuvwxyz", utils::replace_escape(&path));
}

#[test]
fn replace_escape_table_edges() {
    assert_eq!("a b", utils::replace_escape("a%20b"));
    assert_eq!("~", utils::replace_escape("%7E"));
    assert_eq!("%7e", utils::replace_escape("%7e"));
    assert_eq!("\u{ff}", utils::replace_escape("%FF"));
    assert_eq!("|", utils::replace_escape("%A6"));
    assert_eq!("\u{af}", utils::replace_escape("%AD"));
    assert_eq!("\u{ba}", utils::replace_escape("%B0"));
    assert_eq!("\u{aa}", utils::replace_escape("%B2"));
    assert_eq!(",", utils::replace_escape("%B4"));
    assert_eq!("\u{c0}\u{d6}\u{d8}\u{df}\u{e0}", utils::replace_escape("%C0%D6%D8%DF%E0"));
    assert_eq!("%D7", utils::replace_escape("%D7"));
    assert_eq!("A", utils::replace_escape("%2541"));
    assert_eq!("%2", utils::replace_escape("%2"));
    assert_eq!("plain", utils::replace_escape("plain"));
}

#[test]
fn response_error_pages_and_codes() {
    let out = String::from_utf8(Response::err_403("/secret").gen_output()).unwrap();
    assert!(out.starts_with("HTTP/1.1 403 Forbidden\r\n"));
    assert!(out.contains("\r\nContent-Type: text/html\r\n"));
    assert!(out.ends_with("<p>forbidden: /secret</p></body></html>"));
    let out = String::from_utf8(Response::err_404("/gone").gen_output()).unwrap();
    assert!(out.starts_with("HTTP/1.1 404 Not Found\r\n"));
    assert!(out.ends_with("<p>not found: /gone</p></body></html>"));
    let mut res = Response::with_date("d");
    res.set_code(201);
    assert_eq!(201, res.status());
    assert!(String::from_utf8(res.gen_output()).unwrap().starts_with("HTTP/1.1 201 Created\r\n"));
}
