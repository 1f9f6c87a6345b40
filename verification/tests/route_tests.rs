use canteen::request::{Method, Request};
use canteen::route::{Route, RouteError};
use canteen::utils;

#[test]
fn route_test_route_match_fail() {
    let rt = Route::new("/api/v1/foo/<int:foo_id>", Method::Get, utils::err_404).unwrap();
    let mut req = Request::new();

    req.path = String::from("/api/v1/bar");
    req.method = Method::Get;

    assert_eq!(false, rt.is_match(&req));

    req.path = String::from("/api/v1/foo");
    req.method = Method::Post;

    assert_eq!(false, rt.is_match(&req));

    req.path = String::from("/api/v1/foo/asdf");
    req.method = Method::Get;

    assert_eq!(false, rt.is_match(&req));

    req.path = String::from("/api/v1/foo/123");
    req.method = Method::Get;

    assert_eq!(true, rt.is_match(&req));
}

#[test]
fn route_test_route_match_simple() {
    let route = Route::new("/api/v1/foo/<foo_stuff>", Method::Get, utils::err_404).unwrap();
    let parsed = route.parse("/api/v1/foo/blahblahblah");

    assert_eq!("blahblahblah", parsed.get("foo_stuff").unwrap());
}

#[test]
fn route_test_route_match_single_int() {
    let route = Route::new("/api/v1/foo/<int:foo_id>", Method::Get, utils::err_404).unwrap();
    let parsed = route.parse("/api/v1/foo/123");

    assert_eq!("123", parsed.get("foo_id").unwrap());
}

#[test]
fn test_route_match_single_uint() {
    let route = Route::new("/api/v1/foo/<uint:foo_id>", Method::Get, utils::err_404).unwrap();
    let parsed = route.parse("/api/v1/foo/123");
    let mut badreq = Request::new();

    badreq.method = Method::Get;
    badreq.path = String::from("/api/v1/foo/-123");

    assert_eq!("123", parsed.get("foo_id").unwrap());
    assert_eq!(false, route.is_match(&badreq));
}

#[test]
fn route_test_route_match_single_str() {
    let rt = Route::new("/api/v1/foo/<str:foo_stuff>", Method::Get, utils::err_404).unwrap();
    assert_eq!("blahblahblah", rt.parse("/api/v1/foo/blahblahblah").get("foo_stuff").unwrap());
}

#[test]
fn route_test_route_match_many() {
    let rt = Route::new(
        "/api/v1/foo/<int:foo_id>/bar/<str:bar>/baz/<int:baz_id>",
        Method::Get,
        utils::err_404,
    )
    .unwrap();
    let rm = rt.parse("/api/v1/foo/123/bar/bar/baz/456");

    assert_eq!("123", rm.get("foo_id").unwrap());
    assert_eq!("bar", rm.get("bar").unwrap());
    assert_eq!("456", rm.get("baz_id").unwrap());
}

#[test]
fn route_test_find_route_native_types() {
    let mut request = Request::new();
    let routes = vec![
        Route::new("/api/v1/foo/<int:foo_id>", Method::Get, utils::err_404).unwrap(),
        Route::new("/api/v1/foo/<int:foo_id>/bar/<int:bar_id>", Method::Get, utils::err_404)
            .unwrap(),
    ];

    request.method = Method::Get;
    request.path = String::from("/api/v1/foo/42/bar/1234");

    for route in routes {
        match route.is_match(&request) {
            false => continue,
            true => {
                request.params = route.parse(&request.path);
                break;
            }
        }
    }

    let foo_id: i32 = request.get("foo_id").unwrap();
    let bar_id: i32 = request.get("bar_id").unwrap();

    assert_eq!(42, foo_id);
    assert_eq!(1234, bar_id);
}

#[test]
fn route_rejects_duplicate_names() {
    let r = Route::new("/a/<int:x>/b/<str:x>", Method::Get, 0u8);
    assert!(matches!(r, Err(RouteError::DuplicateParam)));
}

#[test]
fn route_rejects_name_that_starts_with_digit() {
    let r = Route::new("/a/<int:1x>", Method::Get, 0u8);
    assert!(matches!(r, Err(RouteError::BadPattern)));
}

#[test]
fn route_literal_segments_are_verbatim() {
    let rt = Route::new("/a.c/<x>", Method::Get, 0u8).unwrap();
    assert_eq!(true, rt.matches_path("/a.c/1"));
    assert_eq!(false, rt.matches_path("/abc/1"));
    let odd = Route::new("/a(b/<int:a-b>", Method::Get, 0u8).unwrap();
    assert_eq!(true, odd.matches_path("/a(b/<int:a-b>"));
    assert_eq!(false, odd.matches_path("/a(b/12"));
    assert_eq!(0, odd.placeholders());
    assert_eq!(2, odd.prefix());
}

#[test]
fn route_float_and_uint_patterns() {
    let f = Route::new("/v/<float:x>", Method::Get, 0u8).unwrap();
    assert_eq!(true, f.matches_path("/v/123.45"));
    assert_eq!(true, f.matches_path("/v/-54.321"));
    assert_eq!(false, f.matches_path("/v/--5"));
    assert_eq!(false, f.matches_path("/v/abc"));
    let u = Route::new("/v/<uint:x>", Method::Get, 0u8).unwrap();
    assert_eq!(true, u.matches_path("/v/5"));
    assert_eq!(false, u.matches_path("/v/-5"));
    assert_eq!("5", u.parse("/v/5/").get("x").unwrap());
}

#[test]
fn route_path_parameter_takes_the_rest() {
    let p = Route::new("/static/<path:name>", Method::Get, 0u8).unwrap();
    assert_eq!("css/site.css", p.parse("/static/css/site.css").get("name").unwrap());
    assert_eq!(1, p.placeholders());
    assert_eq!(1, p.prefix());
    assert_eq!(0, p.parse("/other/x").len());
}

#[test]
fn route_root_matches_with_and_without_slash() {
    let r = Route::new("/", Method::Get, 0u8).unwrap();
    assert_eq!(true, r.matches_path("/"));
    assert_eq!(true, r.matches_path(""));
    assert_eq!(false, r.matches_path("/x"));
    assert_eq!(Method::Get, r.method());
    assert_eq!(0u8, *r.handler());
}

#[test]
fn tests_test_route_match_fail() {
    let rt = Route::new("/api/v1/foo/<int:foo_id>", Method::Get, utils::err_404).unwrap();
    let mut req = Request::new();

    req.path = String::from("/api/v1/bar");
    req.method = Method::Get;

    assert_eq!(false, rt.is_match(&req));

    req.path = String::from("/api/v1/foo");
    req.method = Method::Post;

    assert_eq!(false, rt.is_match(&req));

    req.path = String::from("/api/v1/foo/asdf");
    req.method = Method::Get;

    assert_eq!(false, rt.is_match(&req));

    req.path = String::from("/api/v1/foo/123");
    req.method = Method::Get;

    assert_eq!(true, rt.is_match(&req));
}

#[test]
fn tests_test_route_match_simple() {
    let route = Route::new("/api/v1/foo/<foo_stuff>", Method::Get, utils::err_404).unwrap();
    let parsed = route.parse("/api/v1/foo/blahblahblah");

    assert_eq!("blahblahblah", parsed.get("foo_stuff").unwrap());
}

#[test]
fn tests_test_route_match_single_int() {
    let route = Route::new("/api/v1/foo/<int:foo_id>", Method::Get, utils::err_404).unwrap();
    let parsed = route.parse("/api/v1/foo/123");

    assert_eq!("123", parsed.get("foo_id").unwrap());
}

#[test]
fn tests_test_route_match_single_str() {
    let rt = Route::new("/api/v1/foo/<str:foo_stuff>", Method::Get, utils::err_404).unwrap();
    assert_eq!("blahblahblah", rt.parse("/api/v1/foo/blahblahblah").get("foo_stuff").unwrap());
}

#[test]
fn tests_test_route_match_many() {
    let rt = Route::new(
        "/api/v1/foo/<int:foo_id>/bar/<str:bar>/baz/<int:baz_id>",
        Method::Get,
        utils::err_404,
    )
    .unwrap();
    let rm = rt.parse("/api/v1/foo/123/bar/bar/baz/456");

    assert_eq!("123", rm.get("foo_id").unwrap());
    assert_eq!("bar", rm.get("bar").unwrap());
    assert_eq!("456", rm.get("baz_id").unwrap());
}

#[test]
fn tests_test_find_route_native_types() {
    let mut request = Request::new();
    let routes: Vec<Route<_>> = vec![
        Route::new("/api/v1/foo/<int:foo_id>", Method::Get, utils::err_404).unwrap(),
        Route::new("/api/v1/foo/<int:foo_id>/bar/<int:bar_id>", Method::Get, utils::err_404)
            .unwrap(),
    ];

    request.method = Method::Get;
    request.path = String::from("/api/v1/foo/42/bar/1234");

    for route in routes {
        match route.is_match(&request) {
            false => continue,
            true => {
                request.params = route.parse(&request.path);
                break;
            }
        }
    }

    let foo_id: i32 = request.get("foo_id").unwrap();
    let bar_id: i32 = request.get("bar_id").unwrap();

    assert_eq!(42, foo_id);
    assert_eq!(1234, bar_id);
}

#[test]
fn route_does_not_match_other_paths() {
    let rt = Route::new("/api/v1/foo/<int:foo_id>", Method::Get, 0u8).unwrap();
    assert_eq!(true, rt.matches_path("/api/v1/foo/123"));
    assert_eq!("123", rt.parse("/api/v1/foo/123").get("foo_id").unwrap());
    assert_eq!(false, rt.matches_path("/api/v1/foo/abc"));
    assert_eq!(false, rt.matches_path("/api/v1/bar"));
    assert_eq!(true, rt.matches_path("/api/v1/foo/-123/"));
    assert_eq!(false, rt.matches_path("/api/v1/foo/123//"));
    assert_eq!(false, rt.matches_path("/api/v1/foo/123/x"));
    assert_eq!(false, rt.matches_path("x/api/v1/foo/123"));
}

#[test]
fn route_names_start_with_a_word_character_of_any_script() {
    let rt = Route::new("/x/<\u{e9}>", Method::Get, 0u8).unwrap();
    assert_eq!(1, rt.placeholders());
    assert_eq!("abc", rt.parse("/x/abc").get("\u{e9}").unwrap());
    let rt = Route::new("/x/<int:\u{e9}t\u{e9}>", Method::Get, 0u8).unwrap();
    assert_eq!(0, rt.placeholders());
    assert_eq!(true, rt.matches_path("/x/<int:\u{e9}t\u{e9}>"));
    let rt = Route::new("/x/<\u{b2}>", Method::Get, 0u8).unwrap();
    assert_eq!(0, rt.placeholders());
    let r = Route::new("/x/<\u{663}>", Method::Get, 0u8);
    assert!(matches!(r, Err(RouteError::BadPattern)));
}
