use canteen::request::{FromUri, Method, Request, RequestError};

#[test]
fn request_test_fromuri_trait_i32() {
    let pos = String::from("1234");
    assert_eq!(1234, <i32 as FromUri>::from_uri(&pos).unwrap());

    let neg = String::from("-4321");
    assert_eq!(-4321, <i32 as FromUri>::from_uri(&neg).unwrap());
}

#[test]
fn tests_test_fromuri_trait_i32() {
    let mut orig: String = String::from("1234");
    let mut conv: i32 = FromUri::from_uri(&orig).unwrap();

    assert_eq!(1234, conv);

    orig = String::from("-4321");
    conv = FromUri::from_uri(&orig).unwrap();

    assert_eq!(-4321, conv);
}

#[test]
fn test_fromuri_trait_u32() {
    let orig = String::from("1234");
    assert_eq!(1234, <u32 as FromUri>::from_uri(&orig).unwrap());
}

#[test]
fn request_test_fromuri_trait_string() {
    let orig = String::from("foobar");
    assert_eq!("foobar", <String as FromUri>::from_uri(&orig).unwrap());
}

#[test]
fn tests_test_fromuri_trait_string() {
    let orig: String = String::from("foobar");
    let conv: String = FromUri::from_uri(&orig).unwrap();

    assert_eq!("foobar", conv);
}

#[test]
fn test_get_fromuri_i32() {
    let mut req = Request::new();
    req.params.insert(String::from("test"), String::from("1234"));
    let val: i32 = req.get("test").unwrap();

    assert_eq!(1234, val);
}

#[test]
fn test_get_json() {
    let mut req = Request::new();
    req.payload.extend_from_slice("{ \"item\": 123 }".as_bytes());

    let data = req.get_json().unwrap();

    assert_eq!(true, data.is_object());

    let obj = data.as_object().unwrap();
    let val = obj.get("item").unwrap();

    assert_eq!(true, val.is_u64());
    assert_eq!(123u64, val.as_u64().unwrap());
}

#[test]
fn get_json_tells_its_errors_apart() {
    let mut req = Request::new();
    req.payload.extend_from_slice("{ \"item\": ".as_bytes());
    assert!(matches!(req.get_json(), Err(RequestError::JsonStrError)));
    let mut req = Request::new();
    req.payload.extend_from_slice(&[0xff, 0xfe]);
    assert!(matches!(req.get_json(), Err(RequestError::StrCopyError)));
    assert_eq!(None, req.payload_text());
}

#[test]
fn fromuri_edges() {
    assert_eq!(Some(2147483647), <i32 as FromUri>::from_uri("2147483647"));
    assert_eq!(None, <i32 as FromUri>::from_uri("2147483648"));
    assert_eq!(Some(-2147483648), <i32 as FromUri>::from_uri("-2147483648"));
    assert_eq!(None, <i32 as FromUri>::from_uri("-2147483649"));
    assert_eq!(Some(7), <i32 as FromUri>::from_uri("+7"));
    assert_eq!(Some(7), <i32 as FromUri>::from_uri("007"));
    assert_eq!(None, <i32 as FromUri>::from_uri(""));
    assert_eq!(None, <i32 as FromUri>::from_uri("-"));
    assert_eq!(None, <i32 as FromUri>::from_uri("--5"));
    assert_eq!(None, <i32 as FromUri>::from_uri("12a"));
    assert_eq!(None, <i32 as FromUri>::from_uri("99999999999999999999999"));
    assert_eq!(Some(4294967295), <u32 as FromUri>::from_uri("4294967295"));
    assert_eq!(None, <u32 as FromUri>::from_uri("4294967296"));
    assert_eq!(None, <u32 as FromUri>::from_uri("-0"));
    assert_eq!(Some(0), <u32 as FromUri>::from_uri("+0"));
    assert_eq!("1234".parse::<i32>().ok(), <i32 as FromUri>::from_uri("1234"));
}

#[test]
fn get_of_a_missing_or_malformed_parameter() {
    let mut req = Request::new();
    assert_eq!(false, req.has_params());
    req.params.insert(String::from("id"), String::from("abc"));
    assert_eq!(true, req.has_params());
    assert_eq!(None, req.get::<i32>("id"));
    assert_eq!(None, req.get::<i32>("other"));
    assert_eq!(Some(String::from("abc")), req.get::<String>("id"));
}

#[test]
fn parse_request_with_headers_and_body() {
    let raw = "POST /api/v1/foo?x=1 HTTP/1.1\r\nHost: localhost\r\nContent-Type: text/plain\r\nX-Empty: \r\nbroken line\r\n\r\nline one\r\nline two";
    let req = Request::from_str(raw).unwrap();
    assert_eq!(Method::Post, req.method);
    assert_eq!("/api/v1/foo?x=1", req.path);
    assert_eq!(Some(String::from("localhost")), req.get_header("Host"));
    assert_eq!(Some(String::from("localhost")), req.get_header("host"));
    assert_eq!(Some(String::from("text/plain")), req.get_header("CONTENT-TYPE"));
    assert_eq!(Some(String::from("")), req.get_header("x-empty"));
    assert_eq!(None, req.get_header("broken line"));
    assert_eq!(3, req.headers.len());
    assert_eq!("line one\r\nline two".as_bytes(), req.payload.as_slice());
    assert_eq!(0, req.params.len());
}

#[test]
fn parse_methods() {
    assert_eq!(Method::Get, Request::from_str("GET / HTTP/1.1\r\n\r\n").unwrap().method);
    assert_eq!(Method::Put, Request::from_str("PUT / HTTP/1.1\r\n\r\n").unwrap().method);
    assert_eq!(Method::Put, Request::from_str("PATCH / HTTP/1.1\r\n\r\n").unwrap().method);
    assert_eq!(Method::Post, Request::from_str("POST / HTTP/1.1\r\n\r\n").unwrap().method);
    assert_eq!(Method::Delete, Request::from_str("DELETE / HTTP/1.1\r\n\r\n").unwrap().method);
    assert_eq!(Method::NoImpl, Request::from_str("HEAD / HTTP/1.1\r\n\r\n").unwrap().method);
    assert_eq!(Method::NoImpl, Request::from_str("get / HTTP/1.1\r\n\r\n").unwrap().method);
}

#[test]
fn parse_edges() {
    assert!(matches!(Request::from_str(""), Err(RequestError::BadRequest)));
    assert!(matches!(Request::from_str("GET\r\nHost: x\r\n\r\n"), Err(RequestError::BadRequest)));
    assert!(matches!(Request::parse(&[71, 69, 84, 32, 0xff, 32, 72]), Err(RequestError::BadRequest)));
    let req = Request::from_str("GET /x").unwrap();
    assert_eq!("/x", req.path);
    assert_eq!(0, req.headers.len());
    assert_eq!(0, req.payload.len());
    let req = Request::from_str("GET /x HTTP/1.1\r\nA: 1\r\nB: 2").unwrap();
    assert_eq!(Some(String::from("2")), req.get_header("b"));
    assert_eq!(0, req.payload.len());
    let req = Request::from_str("GET /x HTTP/1.1\r\nA: 1\r\nA: 2\r\n\r\n").unwrap();
    assert_eq!(Some(String::from("2")), req.get_header("a"));
    assert_eq!(0, req.payload.len());
    let req = Request::parse(b"GET /x HTTP/1.1\r\n\r\n\xff\x00").unwrap();
    assert_eq!(&[0xffu8, 0][..], req.payload.as_slice());
    let req = Request::from_str("GET  HTTP/1.1\r\n\r\n").unwrap();
    assert_eq!("", req.path);
}

#[test]
fn request_from_text_and_by_default() {
    let req: Request = "DELETE /item/3 HTTP/1.1\r\nAccept: */*\r\n\r\n".parse().unwrap();
    assert_eq!(Method::Delete, req.method);
    assert_eq!("/item/3", req.path);
    assert_eq!(Some(String::from("*/*")), req.get_header("accept"));
    assert!(matches!("nothing".parse::<Request>(), Err(RequestError::BadRequest)));
    let req = Request::default();
    assert_eq!(Method::NoImpl, req.method);
    assert_eq!("", req.path);
    assert_eq!(0, req.payload.len());
    assert_eq!(Some(String::from("")), req.payload_text());
}

#[test]
fn header_names_are_lower_cased_in_every_script() {
    let req = Request::from_str("GET / HTTP/1.1\r\nX-\u{c9}T\u{c9}: 1\r\n\r\n").unwrap();
    assert_eq!(Some(String::from("1")), req.get_header("x-\u{e9}t\u{e9}"));
    assert_eq!(Some(String::from("1")), req.get_header("X-\u{c9}t\u{c9}"));
    assert_eq!(1, req.headers.len());
    assert_eq!(true, req.headers.contains_key("x-\u{e9}t\u{e9}"));
}
