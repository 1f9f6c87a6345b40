//! The router: the routes of a server in order of preference, and a cache of
//! the lookups that found one.

use crate::matcher::{regex_compiles, regex_matches};
use crate::request::{texts, Method};
use crate::route::{
    captured, literal_prefix, matcher_source, names_distinct, template_params, Route, RouteDef,
    RouteError,
};
use crate::template::segments;
use crate::text::str_eq;
use vstd::hash_map::StringHashMap;
use vstd::prelude::*;

verus! {

/// A registered route as the contracts see it: the template as it was
/// written, the method, and the handler.
pub struct RouteView<H> {
    pub template: Seq<char>,
    pub method: Method,
    pub handler: H,
}

/// The number of placeholders in a template.
pub open spec fn placeholder_count(template: Seq<char>) -> nat {
    template_params(template).len()
}

/// The number of literal segments before the first placeholder of a template.
pub open spec fn prefix_len(template: Seq<char>) -> nat {
    literal_prefix(segments(template))
}

/// Whether the template `a` is tried no later than `b`: it has fewer
/// placeholders, or as many and a literal prefix that is no shorter.
pub open spec fn no_less_specific(a: Seq<char>, b: Seq<char>) -> bool {
    placeholder_count(a) < placeholder_count(b) || (placeholder_count(a) == placeholder_count(b)
        && prefix_len(a) >= prefix_len(b))
}

/// Whether a route answers to `method` and its matcher accepts `path`.
pub open spec fn accepts<H>(route: RouteView<H>, path: Seq<char>, method: Method) -> bool {
    route.method == method && regex_matches(matcher_source(route.template), path)
}

/// Whether route `i` accepts the request and no route before it does.
pub open spec fn is_first_match<H>(
    routes: Seq<RouteView<H>>,
    i: int,
    path: Seq<char>,
    method: Method,
) -> bool {
    &&& 0 <= i < routes.len()
    &&& accepts(routes[i], path, method)
    &&& forall|j: int| 0 <= j < i ==> !accepts(#[trigger] routes[j], path, method)
}

/// The first route that accepts the request, if one does.
pub open spec fn first_match<H>(routes: Seq<RouteView<H>>, path: Seq<char>, method: Method)
    -> Option<int> {
    if exists|i: int| is_first_match(routes, i, path, method) {
        Some(choose|i: int| is_first_match(routes, i, path, method))
    } else {
        None
    }
}

/// The number of routes among the first `n` that answer to `method`: the
/// number of matchers that a scan of those routes runs.
pub open spec fn count_method<H>(routes: Seq<RouteView<H>>, method: Method, n: int) -> nat
    decreases n,
{
    if n <= 0 || n > routes.len() {
        0
    } else if routes[n - 1].method == method {
        count_method(routes, method, n - 1) + 1
    } else {
        count_method(routes, method, n - 1)
    }
}

/// Whether a route with this template and method is registered.
pub open spec fn has_key<H>(routes: Seq<RouteView<H>>, template: Seq<char>, method: Method)
    -> bool {
    exists|i: int|
        0 <= i < routes.len() && (#[trigger] routes[i]).template == template && routes[i].method
            == method
}

/// Where a new route with `template` goes: before the first route that is less
/// specific, and so behind every route that is no less specific.
pub open spec fn insert_position<H>(routes: Seq<RouteView<H>>, template: Seq<char>) -> int
    decreases routes.len(),
{
    if routes.len() == 0 {
        0
    } else if !no_less_specific(routes[0].template, template) {
        0
    } else {
        1 + insert_position(routes.skip(1), template)
    }
}

/// The routes after one more was registered.
pub open spec fn with_route<H>(routes: Seq<RouteView<H>>, route: RouteView<H>) -> Seq<
    RouteView<H>,
> {
    routes.insert(insert_position(routes, route.template), route)
}

/// The routes in order of preference: no route stands behind a less specific
/// one.
pub open spec fn ordered<H>(routes: Seq<RouteView<H>>) -> bool {
    forall|i: int, j: int|
        0 <= i < j < routes.len() ==> no_less_specific(
            (#[trigger] routes[i]).template,
            (#[trigger] routes[j]).template,
        )
}

/// No two routes have the same template and method.
pub open spec fn keys_distinct<H>(routes: Seq<RouteView<H>>) -> bool {
    forall|i: int, j: int|
        0 <= i < j < routes.len() ==> !((#[trigger] routes[i]).template == (
        #[trigger] routes[j]).template && routes[i].method == routes[j].method)
}

/// Every remembered lookup names the first route that accepts it.
pub open spec fn cache_valid<H>(
    routes: Seq<RouteView<H>>,
    cache: Map<(Method, Seq<char>), usize>,
) -> bool {
    forall|key: (Method, Seq<char>)| #[trigger]
        cache.contains_key(key) ==> is_first_match(routes, cache[key] as int, key.1, key.0)
}

/// What a lookup gives: the route found, the number of matchers it ran, and
/// the cache as it leaves it.
pub struct Lookup {
    pub route: Option<int>,
    pub probes: nat,
    pub cache: Map<(Method, Seq<char>), usize>,
}

/// A lookup of `path` and `method`. A lookup that the cache remembers runs the
/// matcher of the remembered route and no other. Any other lookup runs the
/// matchers of the routes for `method` in order, up to the first that accepts
/// the path, and remembers the route it found.
pub open spec fn lookup<H>(
    routes: Seq<RouteView<H>>,
    cache: Map<(Method, Seq<char>), usize>,
    path: Seq<char>,
    method: Method,
) -> Lookup {
    if cache.contains_key((method, path)) {
        Lookup { route: Some(cache[(method, path)] as int), probes: 1, cache }
    } else {
        match first_match(routes, path, method) {
            Some(i) => Lookup {
                route: Some(i),
                probes: count_method(routes, method, i + 1),
                cache: cache.insert((method, path), i as usize),
            },
            None => Lookup {
                route: None,
                probes: count_method(routes, method, routes.len() as int),
                cache,
            },
        }
    }
}

/// At most one route is the first to accept a request.
pub proof fn lemma_first_match_unique<H>(
    routes: Seq<RouteView<H>>,
    i: int,
    path: Seq<char>,
    method: Method,
)
    requires
        is_first_match(routes, i, path, method),
    ensures
        first_match(routes, path, method) == Some(i),
{
    let k = choose|k: int| is_first_match(routes, k, path, method);
    if k < i {
        assert(!accepts(routes[k], path, method));
    } else if i < k {
        assert(!accepts(routes[i], path, method));
    }
}

/// Where no route accepts a request, there is no first match.
pub proof fn lemma_no_match<H>(routes: Seq<RouteView<H>>, path: Seq<char>, method: Method)
    requires
        forall|j: int| 0 <= j < routes.len() ==> !accepts(#[trigger] routes[j], path, method),
    ensures
        first_match(routes, path, method) is None,
{
}

/// After a lookup that found a route, the same lookup finds the same route
/// again, runs one matcher, and leaves the cache as it is.
pub proof fn lemma_second_lookup_hits<H>(
    routes: Seq<RouteView<H>>,
    cache: Map<(Method, Seq<char>), usize>,
    path: Seq<char>,
    method: Method,
)
    requires
        routes.len() <= usize::MAX,
        cache_valid(routes, cache),
    ensures
        ({
            let first = lookup(routes, cache, path, method);
            let second = lookup(routes, first.cache, path, method);
            first.route is Some ==> second.route == first.route && second.probes == 1
                && second.cache == first.cache && cache_valid(routes, first.cache)
        }),
{
    let first = lookup(routes, cache, path, method);
    if first.route is Some && !cache.contains_key((method, path)) {
        let i = first_match(routes, path, method)->Some_0;
        assert(is_first_match(routes, i, path, method));
        assert(first.cache.contains_key((method, path)));
        assert(first.cache.insert((method, path), i as usize) =~= first.cache);
        assert forall|key: (Method, Seq<char>)| #[trigger]
            first.cache.contains_key(key) implies is_first_match(
            routes,
            first.cache[key] as int,
            key.1,
            key.0,
        ) by {
            if key != (method, path) {
                assert(cache.contains_key(key));
            }
        }
    }
}

/// The route that a lookup finds is no less specific than any other route that
/// accepts the request.
pub proof fn lemma_first_match_most_specific<H>(
    routes: Seq<RouteView<H>>,
    i: int,
    j: int,
    path: Seq<char>,
    method: Method,
)
    requires
        ordered(routes),
        is_first_match(routes, i, path, method),
        0 <= j < routes.len(),
        accepts(routes[j], path, method),
    ensures
        no_less_specific(routes[i].template, routes[j].template),
{
    if j < i {
        assert(!accepts(routes[j], path, method));
    }
}

/// A position before which every route is no less specific than `template`,
/// and at which the routes end or a less specific route stands, is where a
/// route with `template` goes.
pub proof fn lemma_insert_position<H>(routes: Seq<RouteView<H>>, template: Seq<char>, pos: int)
    requires
        0 <= pos <= routes.len(),
        forall|k: int|
            0 <= k < pos ==> no_less_specific((#[trigger] routes[k]).template, template),
        pos == routes.len() || !no_less_specific(routes[pos].template, template),
    ensures
        insert_position(routes, template) == pos,
    decreases routes.len(),
{
    if pos > 0 {
        let rest = routes.skip(1);
        assert(no_less_specific(routes[0].template, template));
        assert forall|k: int| 0 <= k < pos - 1 implies no_less_specific(
            (#[trigger] rest[k]).template,
            template,
        ) by {
            assert(rest[k] == routes[k + 1]);
        }
        lemma_insert_position(rest, template, pos - 1);
    }
}

/// Where a new route goes it keeps the routes in order of preference.
pub proof fn lemma_insert_ordered<H>(routes: Seq<RouteView<H>>, route: RouteView<H>, pos: int)
    requires
        ordered(routes),
        0 <= pos <= routes.len(),
        forall|k: int|
            0 <= k < pos ==> no_less_specific((#[trigger] routes[k]).template, route.template),
        pos == routes.len() || !no_less_specific(routes[pos].template, route.template),
    ensures
        ordered(routes.insert(pos, route)),
{
    let more = routes.insert(pos, route);
    assert forall|i: int, j: int| 0 <= i < j < more.len() implies no_less_specific(
        (#[trigger] more[i]).template,
        (#[trigger] more[j]).template,
    ) by {
        if j < pos {
            assert(more[i] == routes[i] && more[j] == routes[j]);
        } else if j == pos {
            assert(more[i] == routes[i]);
        } else if i < pos {
            assert(more[i] == routes[i] && more[j] == routes[j - 1]);
        } else if i == pos {
            assert(more[j] == routes[j - 1]);
            if pos < j - 1 {
                assert(no_less_specific(routes[pos].template, routes[j - 1].template));
            }
        } else {
            assert(more[i] == routes[i - 1] && more[j] == routes[j - 1]);
        }
    }
}

/// A list of routes with one more has the keys it had before, and the new
/// one.
pub proof fn lemma_insert_keys<H>(
    routes: Seq<RouteView<H>>,
    route: RouteView<H>,
    pos: int,
    template: Seq<char>,
    method: Method,
)
    requires
        0 <= pos <= routes.len(),
    ensures
        has_key(routes.insert(pos, route), template, method) <==> (has_key(
            routes,
            template,
            method,
        ) || (route.template == template && route.method == method)),
{
    let more = routes.insert(pos, route);
    if has_key(routes, template, method) {
        let i = choose|i: int|
            0 <= i < routes.len() && (#[trigger] routes[i]).template == template
                && routes[i].method == method;
        if i < pos {
            assert(more[i] == routes[i]);
        } else {
            assert(more[i + 1] == routes[i]);
        }
    }
    if route.template == template && route.method == method {
        assert(more[pos] == route);
    }
    if has_key(more, template, method) {
        let i = choose|i: int|
            0 <= i < more.len() && (#[trigger] more[i]).template == template && more[i].method
                == method;
        if i < pos {
            assert(more[i] == routes[i]);
        } else if i > pos {
            assert(more[i] == routes[i - 1]);
        }
    }
}

/// A route with a new key keeps the keys distinct.
pub proof fn lemma_insert_distinct<H>(routes: Seq<RouteView<H>>, route: RouteView<H>, pos: int)
    requires
        keys_distinct(routes),
        0 <= pos <= routes.len(),
        !has_key(routes, route.template, route.method),
    ensures
        keys_distinct(routes.insert(pos, route)),
{
    let more = routes.insert(pos, route);
    assert forall|i: int, j: int| 0 <= i < j < more.len() implies !((#[trigger] more[i]).template
        == (#[trigger] more[j]).template && more[i].method == more[j].method) by {
        if i == pos {
            assert(more[j] == routes[j - 1]);
        } else if j == pos {
            assert(more[i] == routes[i]);
        } else {
            let a = if i < pos {
                i
            } else {
                i - 1
            };
            let b = if j < pos {
                j
            } else {
                j - 1
            };
            assert(more[i] == routes[a] && more[j] == routes[b]);
        }
    }
}

/// The lookups that found a route, by method and path.
pub struct Cache {
    get: StringHashMap<usize>,
    put: StringHashMap<usize>,
    post: StringHashMap<usize>,
    delete: StringHashMap<usize>,
    other: StringHashMap<usize>,
}

impl View for Cache {
    type V = Map<(Method, Seq<char>), usize>;

    closed spec fn view(&self) -> Map<(Method, Seq<char>), usize> {
        Map::new(
            |key: (Method, Seq<char>)| self.of(key.0).contains_key(key.1),
            |key: (Method, Seq<char>)| self.of(key.0)[key.1],
        )
    }
}

impl Cache {
    /// The lookups remembered for one method.
    closed spec fn of(&self, method: Method) -> Map<Seq<char>, usize> {
        match method {
            Method::Get => self.get@,
            Method::Put => self.put@,
            Method::Post => self.post@,
            Method::Delete => self.delete@,
            Method::NoImpl => self.other@,
        }
    }

    /// A cache that remembers nothing.
    pub fn new() -> (cache: Cache)
        ensures
            cache@ == Map::<(Method, Seq<char>), usize>::empty(),
    {
        let cache = Cache {
            get: StringHashMap::new(),
            put: StringHashMap::new(),
            post: StringHashMap::new(),
            delete: StringHashMap::new(),
            other: StringHashMap::new(),
        };
        assert(cache@ =~= Map::<(Method, Seq<char>), usize>::empty());
        cache
    }

    /// The route remembered for a lookup.
    pub fn find(&self, path: &str, method: Method) -> (r: Option<usize>)
        ensures
            r is Some <==> self@.contains_key((method, path@)),
            r is Some ==> r->Some_0 == self@[(method, path@)],
    {
        let found = match method {
            Method::Get => self.get.get(path),
            Method::Put => self.put.get(path),
            Method::Post => self.post.get(path),
            Method::Delete => self.delete.get(path),
            Method::NoImpl => self.other.get(path),
        };
        match found {
            Some(i) => Some(*i),
            None => None,
        }
    }

    /// Remembers the route that a lookup found.
    pub fn remember(&mut self, path: &str, method: Method, route: usize)
        ensures
            final(self)@ == old(self)@.insert((method, path@), route),
    {
        let key = String::from_str(path);
        match method {
            Method::Get => self.get.insert(key, route),
            Method::Put => self.put.insert(key, route),
            Method::Post => self.post.insert(key, route),
            Method::Delete => self.delete.insert(key, route),
            Method::NoImpl => self.other.insert(key, route),
        }
        assert(self@ =~= old(self)@.insert((method, path@), route));
    }
}

/// Why a route with `template` and `method` cannot join `routes`, if it
/// cannot.
pub open spec fn refusal<H>(routes: Seq<RouteView<H>>, template: Seq<char>, method: Method)
    -> Option<RouteError> {
    if has_key(routes, template, method) {
        Some(RouteError::DuplicateRoute)
    } else if !names_distinct(template_params(template)) {
        Some(RouteError::DuplicateParam)
    } else if !regex_compiles(matcher_source(template)) {
        Some(RouteError::BadPattern)
    } else {
        None
    }
}

/// The routes after a template was registered for each of `methods`, once for
/// a method that occurs twice.
pub open spec fn with_routes<H>(
    routes: Seq<RouteView<H>>,
    template: Seq<char>,
    methods: Seq<Method>,
    handler: H,
) -> Seq<RouteView<H>>
    decreases methods.len(),
{
    if methods.len() == 0 {
        routes
    } else {
        let before = with_routes(routes, template, methods.drop_last(), handler);
        if methods.drop_last().contains(methods.last()) {
            before
        } else {
            with_route(before, RouteView { template, method: methods.last(), handler })
        }
    }
}

/// Why a template cannot be registered for `methods`, if it cannot: one of
/// the routes exists already, or there is a method and the template is
/// refused.
pub open spec fn refusal_of_all<H>(
    routes: Seq<RouteView<H>>,
    template: Seq<char>,
    methods: Seq<Method>,
) -> Option<RouteError> {
    if exists|k: int| 0 <= k < methods.len() && has_key(routes, template, #[trigger] methods[k]) {
        Some(RouteError::DuplicateRoute)
    } else if methods.len() == 0 {
        None
    } else if !names_distinct(template_params(template)) {
        Some(RouteError::DuplicateParam)
    } else if !regex_compiles(matcher_source(template)) {
        Some(RouteError::BadPattern)
    } else {
        None
    }
}

/// A new route goes to a position within the list.
pub proof fn lemma_insert_position_bounds<H>(routes: Seq<RouteView<H>>, template: Seq<char>)
    ensures
        0 <= insert_position(routes, template) <= routes.len(),
    decreases routes.len(),
{
    if routes.len() > 0 && no_less_specific(routes[0].template, template) {
        lemma_insert_position_bounds(routes.skip(1), template);
    }
}

/// After a template was registered for some methods, its keys are those that
/// were there before and one for each of the methods.
pub proof fn lemma_with_routes_keys<H>(
    routes: Seq<RouteView<H>>,
    template: Seq<char>,
    methods: Seq<Method>,
    handler: H,
    method: Method,
)
    ensures
        has_key(with_routes(routes, template, methods, handler), template, method) <==> has_key(
            routes,
            template,
            method,
        ) || methods.contains(method),
    decreases methods.len(),
{
    if methods.len() > 0 {
        let sooner = methods.drop_last();
        let before = with_routes(routes, template, sooner, handler);
        lemma_with_routes_keys(routes, template, sooner, handler, method);
        lemma_with_routes_keys(routes, template, sooner, handler, methods.last());
        if sooner.contains(method) {
            let i = choose|i: int| 0 <= i < sooner.len() && sooner[i] == method;
            assert(methods[i] == method);
        }
        if methods.contains(method) && method != methods.last() {
            let i = choose|i: int| 0 <= i < methods.len() && methods[i] == method;
            assert(sooner[i] == method);
        }
        if method == methods.last() {
            assert(methods[methods.len() - 1] == method);
        }
        if !sooner.contains(methods.last()) {
            let view = RouteView { template, method: methods.last(), handler };
            lemma_insert_position_bounds(before, template);
            lemma_insert_keys(before, view, insert_position(before, template), template, method);
        }
    }
}

/// A template that was registered for some methods is refused when it is
/// registered again for one of them.
pub proof fn lemma_registered_twice<H>(
    routes: Seq<RouteView<H>>,
    template: Seq<char>,
    methods: Seq<Method>,
    handler: H,
    again: Seq<Method>,
    k: int,
)
    requires
        0 <= k < again.len(),
        methods.contains(again[k]),
    ensures
        refusal_of_all(with_routes(routes, template, methods, handler), template, again) == Some(
            RouteError::DuplicateRoute,
        ),
{
    lemma_with_routes_keys(routes, template, methods, handler, again[k]);
}

/// What a lookup returns: the index of the route found, the variables that its
/// matcher took from the path, and the number of matchers that the lookup ran
/// to find the route.
pub struct Resolution {
    pub route: Option<usize>,
    pub params: StringHashMap<String>,
    pub probes: usize,
}

/// A registered route: the template as written, and what it compiled to.
#[verifier::reject_recursive_types(H)]
pub struct Entry<H> {
    def: RouteDef,
    route: Route<H>,
}

impl<H> Entry<H> {
    /// The entry as the contracts see it.
    pub closed spec fn view(&self) -> RouteView<H> {
        RouteView {
            template: self.def.pathdef@,
            method: self.def.method,
            handler: self.route.handler_spec(),
        }
    }

    /// The route is what the template compiles to.
    pub closed spec fn wf(&self) -> bool {
        self.route.compiled_from(self.def.pathdef@, self.def.method)
    }
}

/// The routes of a server and the cache of its lookups.
#[verifier::reject_recursive_types(H)]
pub struct Router<H> {
    routes: Vec<Entry<H>>,
    cache: Cache,
}

impl<H> Router<H> {
    /// The routes in the order in which a lookup tries them.
    pub closed spec fn routes(&self) -> Seq<RouteView<H>> {
        self.routes@.map_values(|e: Entry<H>| e.view())
    }

    /// The lookups that the cache remembers.
    pub closed spec fn cache(&self) -> Map<(Method, Seq<char>), usize> {
        self.cache@
    }

    /// What holds of every router that `new` made and that the methods below
    /// changed: each route is what its template compiles to, the routes stand
    /// in order of preference, no two share a template and a method, and the
    /// cache remembers first matches only.
    pub closed spec fn wf(&self) -> bool {
        &&& forall|i: int| 0 <= i < self.routes@.len() ==> (#[trigger] self.routes@[i]).wf()
        &&& ordered(self.routes())
        &&& keys_distinct(self.routes())
        &&& cache_valid(self.routes(), self.cache@)
    }

    /// In a well-formed router the routes stand in order of preference, no two
    /// share a template and a method, and the cache remembers first matches
    /// only.
    pub proof fn lemma_wf(&self)
        requires
            self.wf(),
        ensures
            ordered(self.routes()),
            keys_distinct(self.routes()),
            cache_valid(self.routes(), self.cache()),
    {
    }

    /// A router without routes.
    pub fn new() -> (router: Router<H>)
        ensures
            router.wf(),
            router.routes() == Seq::<RouteView<H>>::empty(),
            router.cache() == Map::<(Method, Seq<char>), usize>::empty(),
    {
        let router = Router { routes: Vec::new(), cache: Cache::new() };
        assert(router.routes() =~= Seq::<RouteView<H>>::empty());
        router
    }

    /// The number of routes.
    pub fn len(&self) -> (n: usize)
        ensures
            n == self.routes().len(),
    {
        self.routes.len()
    }

    /// Whether a route with this template and method is registered.
    pub fn contains(&self, path: &str, method: Method) -> (r: bool)
        ensures
            r == has_key(self.routes(), path@, method),
    {
        let mut i: usize = 0;
        while i < self.routes.len()
            invariant
                0 <= i <= self.routes.len(),
                forall|j: int|
                    0 <= j < i ==> !((#[trigger] self.routes()[j]).template == path@
                        && self.routes()[j].method == method),
            decreases self.routes.len() - i,
        {
            let entry = &self.routes[i];
            if entry.def.method == method && str_eq(entry.def.pathdef.as_str(), path) {
                assert(self.routes()[i as int].template == path@);
                return true;
            }
            i += 1;
        }
        false
    }

    /// The handler of route `i`.
    pub fn handler(&self, i: usize) -> (h: &H)
        requires
            i < self.routes().len(),
        ensures
            *h == self.routes()[i as int].handler,
    {
        self.routes[i].route.handler()
    }

    /// The definition of route `i`: its template as it was written, and its
    /// method.
    pub fn definition(&self, i: usize) -> (def: &RouteDef)
        requires
            i < self.routes().len(),
        ensures
            def.pathdef@ == self.routes()[i as int].template,
            def.method == self.routes()[i as int].method,
    {
        &self.routes[i].def
    }

    /// Whether route `i` is no less specific than `route`.
    fn goes_before(&self, i: usize, route: &Route<H>) -> (r: bool)
        requires
            i < self.routes@.len(),
        ensures
            r == (self.routes@[i as int].route.params().len() < route.params().len() || (
            self.routes@[i as int].route.params().len() == route.params().len()
                && self.routes@[i as int].route.prefix_spec() >= route.prefix_spec())),
    {
        let mine = &self.routes[i].route;
        mine.placeholders() < route.placeholders() || (mine.placeholders()
            == route.placeholders() && mine.prefix() >= route.prefix())
    }

    /// Registers a route for one method. The route goes behind the routes that
    /// are no less specific and before the others, and the cache forgets what
    /// it remembered. A route that cannot be registered changes nothing.
    pub fn add(&mut self, path: &str, method: Method, handler: H) -> (r: Result<(), RouteError>)
        requires
            old(self).wf(),
        ensures
            final(self).wf(),
            match refusal(old(self).routes(), path@, method) {
                Some(e) => r == Err::<(), RouteError>(e) && final(self).routes() == old(
                    self,
                ).routes() && final(self).cache() == old(self).cache(),
                None => r is Ok && final(self).routes() == with_route(
                    old(self).routes(),
                    RouteView { template: path@, method, handler },
                ) && final(self).cache() == Map::<(Method, Seq<char>), usize>::empty(),
            },
    {
        if self.contains(path, method) {
            return Err(RouteError::DuplicateRoute);
        }
        let route = match Route::new(path, method, handler) {
            Ok(route) => route,
            Err(e) => {
                return Err(e);
            },
        };
        let ghost routes = self.routes();
        let ghost view = RouteView { template: path@, method, handler };
        let mut pos: usize = 0;
        while pos < self.routes.len() && self.goes_before(pos, &route)
            invariant
                0 <= pos <= self.routes.len(),
                routes == self.routes(),
                route.compiled_from(path@, method),
                forall|k: int| 0 <= k < self.routes@.len() ==> (#[trigger] self.routes@[k]).wf(),
                forall|k: int|
                    0 <= k < pos ==> no_less_specific((#[trigger] routes[k]).template, path@),
            decreases self.routes.len() - pos,
        {
            assert(self.routes@[pos as int].wf());
            assert(routes[pos as int] == self.routes@[pos as int].view());
            pos += 1;
        }
        proof {
            if pos < self.routes.len() {
                assert(self.routes@[pos as int].wf());
                assert(routes[pos as int] == self.routes@[pos as int].view());
            }
            lemma_insert_position(routes, path@, pos as int);
            lemma_insert_ordered(routes, view, pos as int);
            lemma_insert_distinct(routes, view, pos as int);
        }
        let entry = Entry { def: RouteDef { pathdef: String::from_str(path), method }, route };
        assert(entry.view() == view);
        assert(entry.wf());
        self.cache = Cache::new();
        self.routes.insert(pos, entry);
        proof {
            assert(self.routes() =~= routes.insert(pos as int, view));
            assert forall|k: int| 0 <= k < self.routes@.len() implies (
            #[trigger] self.routes@[k]).wf() by {
                if k < pos {
                    assert(self.routes@[k] == old(self).routes@[k]);
                } else if k > pos {
                    assert(self.routes@[k] == old(self).routes@[k - 1]);
                }
            }
        }
        Ok(())
    }

    /// Whether `method` is among the first `k` of `mlist`.
    fn listed_before(mlist: &[Method], k: usize, method: Method) -> (r: bool)
        requires
            k <= mlist.len(),
        ensures
            r == mlist@.take(k as int).contains(method),
    {
        let mut j: usize = 0;
        while j < k
            invariant
                0 <= j <= k <= mlist.len(),
                forall|i: int| 0 <= i < j ==> mlist@[i] != method,
            decreases k - j,
        {
            if mlist[j] == method {
                assert(mlist@.take(k as int)[j as int] == method);
                return true;
            }
            j += 1;
        }
        assert forall|i: int| 0 <= i < k implies mlist@.take(k as int)[i] != method by {
            assert(mlist@.take(k as int)[i] == mlist@[i]);
        }
        false
    }

    /// Adds a new route definition for each of the methods in `mlist`. Either
    /// every route is registered or, where one exists already or the template
    /// is refused, none is.
    pub fn add_route(&mut self, path: &str, mlist: &[Method], handler: H) -> (r: Result<
        (),
        RouteError,
    >) where H: Copy
        requires
            old(self).wf(),
        ensures
            final(self).wf(),
            match refusal_of_all(old(self).routes(), path@, mlist@) {
                Some(e) => r == Err::<(), RouteError>(e) && final(self).routes() == old(
                    self,
                ).routes() && final(self).cache() == old(self).cache(),
                None => r is Ok && final(self).routes() == with_routes(
                    old(self).routes(),
                    path@,
                    mlist@,
                    handler,
                ) && final(self).cache() == if mlist@.len() == 0 {
                    old(self).cache()
                } else {
                    Map::<(Method, Seq<char>), usize>::empty()
                },
            },
    {
        let ghost start = self.routes();
        let mut k: usize = 0;
        while k < mlist.len()
            invariant
                0 <= k <= mlist.len(),
                self.wf(),
                *self == *old(self),
                start == self.routes(),
                forall|j: int| 0 <= j < k ==> !has_key(start, path@, #[trigger] mlist@[j]),
            decreases mlist.len() - k,
        {
            if self.contains(path, mlist[k]) {
                return Err(RouteError::DuplicateRoute);
            }
            k += 1;
        }
        let mut k: usize = 0;
        let ghost mut added: nat = 0;
        assert(mlist@.take(0) =~= Seq::<Method>::empty());
        while k < mlist.len()
            invariant
                0 <= k <= mlist.len(),
                added <= k,
                self.wf(),
                start == old(self).routes(),
                forall|j: int|
                    0 <= j < mlist.len() ==> !has_key(start, path@, #[trigger] mlist@[j]),
                self.routes() == with_routes(start, path@, mlist@.take(k as int), handler),
                added == 0 ==> k == 0 && self.cache() == old(self).cache(),
                added > 0 ==> names_distinct(template_params(path@)) && regex_compiles(
                    matcher_source(path@),
                ) && self.cache() == Map::<(Method, Seq<char>), usize>::empty(),
            decreases mlist.len() - k,
        {
            let method = mlist[k];
            proof {
                assert(mlist@.take(k + 1).drop_last() =~= mlist@.take(k as int));
                lemma_with_routes_keys(start, path@, mlist@.take(k as int), handler, method);
            }
            if !Self::listed_before(mlist, k, method) {
                match self.add(path, method, handler) {
                    Ok(()) => {
                        proof {
                            added = added + 1;
                        }
                    },
                    Err(e) => {
                        return Err(e);
                    },
                }
            }
            k += 1;
        }
        assert(mlist@.take(k as int) =~= mlist@);
        Ok(())
    }

    /// Finds the route for a request. A lookup that the cache remembers runs
    /// the matcher of the remembered route only; any other lookup tries the
    /// routes for `method` in order and remembers the first that accepts
    /// `path`.
    pub fn resolve(&mut self, path: &str, method: Method) -> (r: Resolution)
        requires
            old(self).wf(),
        ensures
            final(self).wf(),
            final(self).routes() == old(self).routes(),
            ({
                let found = lookup(old(self).routes(), old(self).cache(), path@, method);
                &&& final(self).cache() == found.cache
                &&& r.probes == found.probes
                &&& match r.route {
                    Some(i) => found.route == Some(i as int) && is_first_match(
                        old(self).routes(),
                        i as int,
                        path@,
                        method,
                    ) && texts(r.params@) == captured(
                        matcher_source(old(self).routes()[i as int].template),
                        template_params(old(self).routes()[i as int].template),
                        path@,
                    ),
                    None => found.route is None && r.params@.len() == 0,
                }
            }),
    {
        let ghost routes = self.routes();
        let ghost entries = self.routes@;
        let ghost cache = self.cache@;
        match self.cache.find(path, method) {
            Some(i) => {
                assert(is_first_match(routes, i as int, path@, method));
                assert(self.routes@[i as int].wf());
                let params = self.routes[i].route.parse(path);
                Resolution { route: Some(i), params, probes: 1 }
            },
            None => {
                let mut probes: usize = 0;
                let mut i: usize = 0;
                while i < self.routes.len()
                    invariant
                        0 <= i <= self.routes.len(),
                        routes == self.routes(),
                        entries == self.routes@,
                        cache == self.cache@,
                        routes == old(self).routes(),
                        cache == old(self).cache(),
                        cache_valid(routes, cache),
                        !cache.contains_key((method, path@)),
                        ordered(routes),
                        keys_distinct(routes),
                        forall|k: int|
                            0 <= k < self.routes@.len() ==> (#[trigger] self.routes@[k]).wf(),
                        forall|j: int| 0 <= j < i ==> !accepts(#[trigger] routes[j], path@, method),
                        probes == count_method(routes, method, i as int),
                        probes <= i,
                    decreases self.routes.len() - i,
                {
                    let entry = &self.routes[i];
                    assert(entry.wf());
                    assert(routes[i as int] == entry.view());
                    if entry.route.method() == method {
                        probes += 1;
                        if entry.route.matches_path(path) {
                            let params = entry.route.parse(path);
                            proof {
                                assert(is_first_match(routes, i as int, path@, method));
                                lemma_first_match_unique(routes, i as int, path@, method);
                            }
                            self.cache.remember(path, method, i);
                            proof {
                                assert forall|key: (Method, Seq<char>)| #[trigger]
                                    self.cache@.contains_key(key) implies is_first_match(
                                    routes,
                                    self.cache@[key] as int,
                                    key.1,
                                    key.0,
                                ) by {
                                    if key != (method, path@) {
                                        assert(cache.contains_key(key));
                                    }
                                }
                            }
                            return Resolution { route: Some(i), params, probes };
                        }
                    }
                    i += 1;
                }
                proof {
                    lemma_no_match(routes, path@, method);
                }
                Resolution { route: None, params: StringHashMap::new(), probes }
            },
        }
    }
}

} // verus!
