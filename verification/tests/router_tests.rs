use canteen::request::Method;
use canteen::route::RouteError;
use canteen::router::{Cache, Router};

#[test]
fn router_rejects_a_route_registered_twice() {
    let mut router: Router<u8> = Router::new();
    assert_eq!(Ok(()), router.add("/x", Method::Get, 1));
    assert_eq!(Err(RouteError::DuplicateRoute), router.add("/x", Method::Get, 2));
    assert_eq!(1, router.len());
    assert_eq!(1u8, *router.handler(0));
    assert_eq!(Ok(()), router.add("/x", Method::Post, 3));
    assert_eq!(Ok(()), router.add("/x/", Method::Get, 4));
    assert_eq!(3, router.len());
    assert_eq!(true, router.contains("/x", Method::Post));
    assert_eq!(false, router.contains("/x", Method::Delete));
}

#[test]
fn router_add_route_is_all_or_nothing() {
    let mut router: Router<u8> = Router::new();
    assert_eq!(Ok(()), router.add_route("/a", &[Method::Put], 1));
    let r = router.add_route("/a", &[Method::Get, Method::Put, Method::Post], 2);
    assert_eq!(Err(RouteError::DuplicateRoute), r);
    assert_eq!(1, router.len());
    assert_eq!(false, router.contains("/a", Method::Get));
    let r = router.add_route("/b/<x>/<x>", &[Method::Get, Method::Post], 3);
    assert_eq!(Err(RouteError::DuplicateParam), r);
    let r = router.add_route("/b/<9x>", &[Method::Get], 3);
    assert_eq!(Err(RouteError::BadPattern), r);
    assert_eq!(1, router.len());
    assert_eq!(Ok(()), router.add_route("/b/<9x>", &[], 3));
    assert_eq!(1, router.len());
}

#[test]
fn router_add_route_registers_each_method_once() {
    let mut router: Router<u8> = Router::new();
    let r = router.add_route("/a", &[Method::Get, Method::Post, Method::Get], 7);
    assert_eq!(Ok(()), r);
    assert_eq!(2, router.len());
    assert_eq!(true, router.contains("/a", Method::Get));
    assert_eq!(true, router.contains("/a", Method::Post));
    assert_eq!(Method::Get, router.definition(0).method);
    assert_eq!("/a", router.definition(1).pathdef);
    assert_eq!(Method::Post, router.definition(1).method);
}

#[test]
fn router_second_lookup_hits_the_cache() {
    let mut router: Router<u8> = Router::new();
    router.add("/a", Method::Get, 1).unwrap();
    router.add("/b", Method::Post, 2).unwrap();
    router.add("/c", Method::Get, 3).unwrap();
    router.add("/x", Method::Get, 4).unwrap();
    let first = router.resolve("/x", Method::Get);
    assert_eq!(Some(3), first.route);
    assert_eq!(3, first.probes);
    let second = router.resolve("/x", Method::Get);
    assert_eq!(Some(3), second.route);
    assert_eq!(1, second.probes);
    assert_eq!(4u8, *router.handler(second.route.unwrap()));
    let other = router.resolve("/x", Method::Post);
    assert_eq!(None, other.route);
    assert_eq!(1, other.probes);
    let again = router.resolve("/x", Method::Post);
    assert_eq!(None, again.route);
    assert_eq!(1, again.probes);
}

#[test]
fn router_cache_hit_extracts_the_parameters_again() {
    let mut router: Router<u8> = Router::new();
    router.add("/user/<int:id>", Method::Get, 1).unwrap();
    let first = router.resolve("/user/7", Method::Get);
    assert_eq!("7", first.params.get("id").unwrap());
    let second = router.resolve("/user/7", Method::Get);
    assert_eq!(1, second.probes);
    assert_eq!("7", second.params.get("id").unwrap());
    let third = router.resolve("/user/8", Method::Get);
    assert_eq!(1, third.probes);
    assert_eq!("8", third.params.get("id").unwrap());
}

#[test]
fn router_prefers_the_most_specific_route() {
    let mut router: Router<u8> = Router::new();
    router.add("/foo/<str:name>", Method::Get, 1).unwrap();
    router.add("/<a>/<b>", Method::Get, 2).unwrap();
    router.add("/foo/123", Method::Get, 3).unwrap();
    router.add("/<path:rest>", Method::Get, 4).unwrap();
    router.add("/foo/<int:id>", Method::Get, 5).unwrap();
    assert_eq!("/foo/123", router.definition(0).pathdef);
    assert_eq!("/foo/<str:name>", router.definition(1).pathdef);
    assert_eq!("/foo/<int:id>", router.definition(2).pathdef);
    assert_eq!("/<path:rest>", router.definition(3).pathdef);
    assert_eq!("/<a>/<b>", router.definition(4).pathdef);
    let found = router.resolve("/foo/123", Method::Get);
    assert_eq!(3u8, *router.handler(found.route.unwrap()));
    let found = router.resolve("/foo/abc", Method::Get);
    assert_eq!(1u8, *router.handler(found.route.unwrap()));
    let found = router.resolve("/bar/abc/def", Method::Get);
    assert_eq!(4u8, *router.handler(found.route.unwrap()));
    assert_eq!("bar/abc/def", found.params.get("rest").unwrap());
}

#[test]
fn router_registration_forgets_the_cache() {
    let mut router: Router<u8> = Router::new();
    router.add("/<x>", Method::Get, 1).unwrap();
    assert_eq!(1, router.resolve("/a", Method::Get).probes);
    router.add("/a", Method::Get, 2).unwrap();
    let found = router.resolve("/a", Method::Get);
    assert_eq!(2u8, *router.handler(found.route.unwrap()));
    assert_eq!(1, found.probes);
    let found = router.resolve("/b", Method::Get);
    assert_eq!(1u8, *router.handler(found.route.unwrap()));
    assert_eq!(2, found.probes);
}

#[test]
fn cache_keeps_methods_apart() {
    let mut cache = Cache::new();
    assert_eq!(None, cache.find("/x", Method::Get));
    cache.remember("/x", Method::Get, 3);
    cache.remember("/x", Method::NoImpl, 5);
    assert_eq!(Some(3), cache.find("/x", Method::Get));
    assert_eq!(Some(5), cache.find("/x", Method::NoImpl));
    assert_eq!(None, cache.find("/x", Method::Post));
    assert_eq!(None, cache.find("/y", Method::Get));
    cache.remember("/x", Method::Get, 4);
    assert_eq!(Some(4), cache.find("/x", Method::Get));
}
