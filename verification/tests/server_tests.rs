use canteen::clock::{_conv_systemtime, http_date, http_date_now, stamp, Stamp};
use canteen::context::Context;
use canteen::request::{Method, Request};
use canteen::response::Response;
use canteen::route::RouteError;
use canteen::server::{respond, Canteen, Dispatch, FIRST_CONNECTION, LISTENER, MAX_CONNECTIONS};
use canteen::utils::{self, StaticFile};

fn hello_handler(_: &Request) -> Response {
    utils::make_response("Hello, world!", "text/plain", 200)
}

fn double_handler(req: &Request) -> Response {
    let to_dbl: i32 = req.get("to_dbl").unwrap();
    utils::make_response(format!("{}", to_dbl * 2), "text/plain", 200)
}

fn complex_handler(req: &Request) -> Response {
    let site_id: i32 = req.get("site_id").unwrap();
    let user_id: i32 = req.get("user_id").unwrap();
    let prod_id: String = req.get("prod_id").unwrap();
    let result =
        format!("{{ site_id: {}, user_id: {}, prod_id: \"{}\" }}", site_id, user_id, prod_id);

    utils::make_response(result, "text/plain", 200)
}

fn body_of(output: Vec<u8>) -> String {
    let text = String::from_utf8(output).unwrap();
    let at = text.find("\r\n\r\n").unwrap();
    String::from(&text[at + 4..])
}

fn serve(cnt: &mut Canteen<fn(&Request) -> Response>, raw: &str) -> Vec<u8> {
    cnt.answer(raw.as_bytes())
}

#[test]
fn test_no_route() {
    let mut cnt: Canteen<fn(&Request) -> Response> = Canteen::new(utils::err_404);
    cnt.add_route("/", &[Method::Get], hello_handler).unwrap();
    let out = serve(&mut cnt, "GET / HTTP/1.1\r\nHost: localhost:8881\r\n\r\n");
    assert_eq!("Hello, world!", body_of(out));
}

#[test]
fn test_int_route() {
    let mut cnt: Canteen<fn(&Request) -> Response> = Canteen::new(utils::err_404);
    cnt.add_route("/double/<int:to_dbl>", &[Method::Get], double_handler).unwrap();
    let out = serve(&mut cnt, "GET /double/8 HTTP/1.1\r\nHost: localhost:8882\r\n\r\n");
    assert_eq!("16", body_of(out));
}

#[test]
fn test_complex_route() {
    let mut cnt: Canteen<fn(&Request) -> Response> = Canteen::new(utils::err_404);
    cnt.add_route(
        "/api/v1/site/<int:site_id>/user/<int:user_id>/product/<str:prod_id>",
        &[Method::Get],
        complex_handler,
    )
    .unwrap();
    let out = serve(
        &mut cnt,
        "GET /api/v1/site/7/user/382/product/bf73a9cc0 HTTP/1.1\r\nHost: localhost:8883\r\n\r\n",
    );
    assert_eq!("{ site_id: 7, user_id: 382, prod_id: \"bf73a9cc0\" }", body_of(out));
}

#[test]
fn server_falls_back_to_the_default_handler() {
    let mut cnt: Canteen<fn(&Request) -> Response> = Canteen::new(utils::err_404);
    cnt.add_route("/", &[Method::Get], hello_handler).unwrap();
    let out = String::from_utf8(serve(&mut cnt, "GET /nope HTTP/1.1\r\n\r\n")).unwrap();
    assert!(out.starts_with("HTTP/1.1 404 Not Found\r\n"));
    assert!(out.contains("<p>not found: /nope</p>"));
    cnt.set_default(utils::err_500);
    let out = String::from_utf8(serve(&mut cnt, "POST / HTTP/1.1\r\n\r\n")).unwrap();
    assert!(out.starts_with("HTTP/1.1 500 Internal Server Error\r\n"));
}

#[test]
fn server_answers_garbage_with_bad_request() {
    let mut cnt: Canteen<fn(&Request) -> Response> = Canteen::new(utils::err_404);
    assert!(matches!(cnt.handle_request(b"garbage"), Dispatch::BadRequest));
    assert!(cnt.handler_of(&Dispatch::BadRequest).is_none());
    let nowhere = Dispatch::Routed { request: Request::new(), route: 5, probes: 0 };
    assert!(cnt.handler_of(&nowhere).is_none());
    let out = String::from_utf8(serve(&mut cnt, "garbage")).unwrap();
    assert!(out.starts_with("HTTP/1.1 400 Bad Request\r\n"));
    assert!(out.contains("<p>bad request: </p>"));
}

#[test]
fn server_rejects_duplicate_registration() {
    let mut cnt: Canteen<fn(&Request) -> Response> = Canteen::new(utils::err_404);
    assert_eq!(Ok(()), cnt.add_route("/hello", &[Method::Get, Method::Post], hello_handler));
    assert_eq!(
        Err(RouteError::DuplicateRoute),
        cnt.add_route("/hello", &[Method::Post], hello_handler)
    );
    assert_eq!(2, cnt.router.len());
    assert_eq!(LISTENER, cnt.reactor.listener());
    assert_eq!(MAX_CONNECTIONS, cnt.reactor.connections().capacity());
    assert_eq!(false, cnt.reactor.connections().contains(FIRST_CONNECTION));
}

#[test]
fn context_holds_the_request() {
    let mut req = Request::new();
    req.path = String::from("/ctx");
    let ctx = Context::new(req);
    assert_eq!("/ctx", ctx.request.path);
}

#[test]
fn static_path_drops_dots_and_escapes() {
    assert_eq!(vec!["static", "css", "a b.css"], utils::static_path("/static/css/a%20b.css"));
    assert_eq!(vec!["etc", "passwd"], utils::static_path("/../../etc/./passwd"));
    assert_eq!(vec!["etc"], utils::static_path("%2E%2E/etc//"));
    assert_eq!(vec!["...", "x"], utils::static_path(".../x"));
    assert_eq!(0, utils::static_path("/").len());
}

#[test]
fn static_response_for_each_outcome() {
    let mut req = Request::new();
    req.path = String::from("/static/a.txt");
    let out = String::from_utf8(utils::static_response(&req, StaticFile::Missing).gen_output())
        .unwrap();
    assert!(out.starts_with("HTTP/1.1 404 Not Found\r\n"));
    let out = String::from_utf8(utils::static_response(&req, StaticFile::Unreadable).gen_output())
        .unwrap();
    assert!(out.starts_with("HTTP/1.1 500 Internal Server Error\r\n"));

    let modified = Stamp { secs: 1456833600, nanos: 0 };
    let found = StaticFile::Found { modified, body: b"content".to_vec() };
    let out = String::from_utf8(utils::static_response(&req, found).gen_output()).unwrap();
    assert!(out.starts_with("HTTP/1.1 200 OK\r\n"));
    assert!(out.contains("\r\nLast-Modified: Tue, 01 Mar 2016, 12:00:00 UTC\r\n"));
    assert!(out.ends_with("Content-Type: text/plain\r\nContent-Length: 7\r\n\r\ncontent"));

    req.headers
        .insert(String::from("if-modified-since"), String::from("Tue, 01 Mar 2016, 12:00:00 UTC"));
    let found = StaticFile::Found { modified, body: b"content".to_vec() };
    let out = String::from_utf8(utils::static_response(&req, found).gen_output()).unwrap();
    assert!(out.starts_with("HTTP/1.1 304 Not Modified\r\n"));
    assert!(out.ends_with("Content-Length: 0\r\n\r\n"));

    let later = Stamp { secs: 1456833600, nanos: 5 };
    let found = StaticFile::Found { modified: later, body: b"content".to_vec() };
    let out = String::from_utf8(utils::static_response(&req, found).gen_output()).unwrap();
    assert!(out.starts_with("HTTP/1.1 200 OK\r\n"));

    req.headers.insert(String::from("if-modified-since"), String::from("yesterday"));
    let found = StaticFile::Found { modified, body: b"content".to_vec() };
    let out = String::from_utf8(utils::static_response(&req, found).gen_output()).unwrap();
    assert!(out.starts_with("HTTP/1.1 200 OK\r\n"));
}

#[test]
fn test_conv_systemtime() {
    assert_eq!(_conv_systemtime(std::time::UNIX_EPOCH), Some(Stamp { secs: 0, nanos: 0 }));
}

#[test]
fn stamps_before_and_after_the_epoch() {
    let later = std::time::UNIX_EPOCH + std::time::Duration::new(5, 7);
    assert_eq!(_conv_systemtime(later), Some(Stamp { secs: 5, nanos: 7 }));
    let sooner = std::time::UNIX_EPOCH - std::time::Duration::new(5, 7);
    assert_eq!(_conv_systemtime(sooner), Some(Stamp { secs: -6, nanos: 999_999_993 }));
    assert_eq!(stamp(true, 5, 0), Some(Stamp { secs: -5, nanos: 0 }));
    assert_eq!(stamp(false, u64::MAX, 0), None);
    assert_eq!(stamp(true, i64::MAX as u64, 1), None);
    assert_eq!(stamp(true, i64::MAX as u64, 0), Some(Stamp { secs: -i64::MAX, nanos: 0 }));
}

#[test]
fn server_hands_a_request_to_a_worker() {
    let mut cnt: Canteen<fn(&Request) -> Response> = Canteen::new(utils::err_404);
    cnt.add_route("/double/<int:to_dbl>", &[Method::Get], double_handler).unwrap();
    let dispatch = cnt.handle_request(b"GET /double/21 HTTP/1.1\r\n\r\n");
    let handler = *cnt.handler_of(&dispatch).unwrap();
    match dispatch {
        Dispatch::Routed { request, route, probes } => {
            assert_eq!(0, route);
            assert_eq!(1, probes);
            assert_eq!("21", request.params.get("to_dbl").unwrap());
            assert_eq!("42", body_of(respond(&handler, &request)));
        }
        _ => panic!("the request has a route"),
    }
    let dispatch = cnt.handle_request(b"GET /triple/21 HTTP/1.1\r\n\r\n");
    assert!(matches!(dispatch, Dispatch::Unrouted { probes: 1, .. }));
    let dispatch = cnt.handle_request(b"POST /double/21 HTTP/1.1\r\n\r\n");
    assert!(matches!(dispatch, Dispatch::Unrouted { probes: 0, .. }));
}

#[test]
fn dates_of_system_times() {
    assert_eq!("Thu, 01 Jan 1970, 00:00:00 UTC", http_date(std::time::UNIX_EPOCH));
    let later = std::time::UNIX_EPOCH + std::time::Duration::new(1456833600, 999);
    assert_eq!("Tue, 01 Mar 2016, 12:00:00 UTC", http_date(later));
    let sooner = std::time::UNIX_EPOCH - std::time::Duration::new(0, 1);
    assert_eq!("Wed, 31 Dec 1969, 23:59:59 UTC", http_date(sooner));
    let now = http_date_now();
    assert_eq!(30, now.len());
    assert!(now.ends_with(" UTC"));
}
