//! Routes: a compiled template, the method it answers to and its handler.

use crate::matcher::{
    escaped, named_group, regex_compiles, regex_group, regex_matches, regex_source,
};
use crate::request::{texts, Method, Request};
use crate::template::{placeholder, placeholder_at, segment_end, segment_len, segments, ParamType};
use crate::text::{chars_of, string_of};
use regex::Regex;
use vstd::hash_map::StringHashMap;
use vstd::prelude::*;

verus! {

/// A route definition: the template as it was written, and a method. No two
/// routes of a server share one.
#[derive(PartialEq, Eq, Hash, Debug)]
pub struct RouteDef {
    pub pathdef: String,
    pub method: Method,
}

/// Why a route was refused.
#[derive(PartialEq, Eq, Structural, Debug, Copy, Clone)]
pub enum RouteError {
    /// Two placeholders of the template have the same name.
    DuplicateParam,
    /// The expression engine rejects the matcher built from the template.
    BadPattern,
    /// A route with the same template and method exists already.
    DuplicateRoute,
}

/// A parameter of a route: its name and its type.
pub struct Param {
    pub name: String,
    pub ptype: ParamType,
}

/// The names and types of a list of parameters.
pub open spec fn param_views(params: Seq<Param>) -> Seq<(Seq<char>, ParamType)> {
    params.map_values(|p: Param| (p.name@, p.ptype))
}

/// The expression that captures a parameter of the given type.
pub open spec fn sub_pattern(ptype: ParamType) -> Seq<char> {
    match ptype {
        ParamType::String => "(?:[^/])+"@,
        ParamType::Integer => "-?[0-9]+"@,
        ParamType::Unsigned => "[0-9]+"@,
        ParamType::Float => "-?[0-9]*[.]?[0-9]+"@,
        ParamType::Path => ".+"@,
    }
}

/// The piece of the matcher that stands for one segment: a named group for a
/// placeholder, the escaped text for a literal segment.
pub open spec fn chunk(segment: Seq<char>) -> Seq<char> {
    match placeholder(segment) {
        Some((ptype, name)) => "/(?P<"@ + name + ">"@ + sub_pattern(ptype) + ")"@,
        None => "/"@ + escaped(segment),
    }
}

/// The pieces of the matcher for a list of segments, one after the other.
pub open spec fn chunks(segs: Seq<Seq<char>>) -> Seq<char>
    decreases segs.len(),
{
    if segs.len() == 0 {
        Seq::empty()
    } else {
        chunks(segs.drop_last()) + chunk(segs.last())
    }
}

/// The expression that a template compiles to. It is anchored at both ends and
/// lets one slash follow the last segment.
pub open spec fn matcher_source(template: Seq<char>) -> Seq<char> {
    "^"@ + chunks(segments(template)) + "/?$"@
}

/// The parameters that a list of segments declares, in order.
pub open spec fn params_in(segs: Seq<Seq<char>>) -> Seq<(Seq<char>, ParamType)>
    decreases segs.len(),
{
    if segs.len() == 0 {
        Seq::empty()
    } else {
        match placeholder(segs.last()) {
            Some((ptype, name)) => params_in(segs.drop_last()).push((name, ptype)),
            None => params_in(segs.drop_last()),
        }
    }
}

/// The parameters that a template declares, in order.
pub open spec fn template_params(template: Seq<char>) -> Seq<(Seq<char>, ParamType)> {
    params_in(segments(template))
}

/// The number of literal segments before the first placeholder.
pub open spec fn literal_prefix(segs: Seq<Seq<char>>) -> nat
    decreases segs.len(),
{
    if segs.len() == 0 {
        0
    } else {
        let before = literal_prefix(segs.drop_last());
        if before == segs.len() - 1 && placeholder(segs.last()) is None {
            before + 1
        } else {
            before
        }
    }
}

/// No name occurs twice.
pub open spec fn names_distinct(params: Seq<(Seq<char>, ParamType)>) -> bool {
    forall|i: int, j: int| 0 <= i < j < params.len() ==> params[i].0 != params[j].0
}

/// The parameters of some segments are the first parameters of any longer list.
pub proof fn lemma_params_in_prefix(done: Seq<Seq<char>>, rest: Seq<Seq<char>>)
    ensures
        params_in(done).len() <= params_in(done + rest).len(),
        params_in(done + rest).take(params_in(done).len() as int) == params_in(done),
    decreases rest.len(),
{
    if rest.len() == 0 {
        assert(done + rest =~= done);
        assert(params_in(done).take(params_in(done).len() as int) =~= params_in(done));
    } else {
        let all = done + rest;
        assert(all.drop_last() =~= done + rest.drop_last());
        assert(all.last() == rest.last());
        lemma_params_in_prefix(done, rest.drop_last());
        let shorter = params_in(done + rest.drop_last());
        let n = params_in(done).len() as int;
        match placeholder(rest.last()) {
            Some((ptype, name)) => {
                assert(shorter.push((name, ptype)).take(n) =~= shorter.take(n));
            },
            None => {},
        }
    }
}

/// Whether one of `params` is called `name`.
pub open spec fn declares(params: Seq<(Seq<char>, ParamType)>, name: Seq<char>) -> bool {
    exists|k: int| 0 <= k < params.len() && (#[trigger] params[k]).0 == name
}

/// What the named groups of `pattern` capture in `text`, for the names among
/// `params`.
pub open spec fn captured(
    pattern: Seq<char>,
    params: Seq<(Seq<char>, ParamType)>,
    text: Seq<char>,
) -> Map<Seq<char>, Seq<char>> {
    Map::new(
        |name: Seq<char>|
            regex_matches(pattern, text) && regex_group(pattern, text, name) is Some && declares(
                params,
                name,
            ),
        |name: Seq<char>| regex_group(pattern, text, name)->Some_0,
    )
}

/// A list of parameters with one more declares the names it declared before,
/// and the new one.
pub proof fn lemma_declares_push(
    params: Seq<(Seq<char>, ParamType)>,
    last: (Seq<char>, ParamType),
    name: Seq<char>,
)
    ensures
        declares(params.push(last), name) <==> (name == last.0 || declares(params, name)),
{
    let more = params.push(last);
    if declares(params, name) {
        let k = choose|k: int| 0 <= k < params.len() && (#[trigger] params[k]).0 == name;
        assert(more[k].0 == name);
    }
    if name == last.0 {
        assert(more[params.len() as int].0 == name);
    }
    if declares(more, name) {
        let k = choose|k: int| 0 <= k < more.len() && (#[trigger] more[k]).0 == name;
        if k < params.len() {
            assert(params[k].0 == name);
        }
    }
}

/// A route or endpoint: what a template compiled to, and who handles the
/// requests that it matches.
#[verifier::reject_recursive_types(H)]
pub struct Route<H> {
    matcher: Regex,
    method: Method,
    params: Vec<Param>,
    prefix: usize,
    handler: H,
}

impl<H> Route<H> {
    /// The expression that decides whether a path matches.
    pub closed spec fn pattern(&self) -> Seq<char> {
        regex_source(self.matcher)
    }

    /// The method that the route answers to.
    pub closed spec fn method_spec(&self) -> Method {
        self.method
    }

    /// The names and types of the parameters, in the order of the template.
    pub closed spec fn params(&self) -> Seq<(Seq<char>, ParamType)> {
        param_views(self.params@)
    }

    /// The number of leading literal segments.
    pub closed spec fn prefix_spec(&self) -> nat {
        self.prefix as nat
    }

    /// The handler that the route was made with.
    pub closed spec fn handler_spec(&self) -> H {
        self.handler
    }

    /// Whether the route is what `template` compiles to for `method`.
    pub open spec fn compiled_from(&self, template: Seq<char>, method: Method) -> bool {
        &&& self.pattern() == matcher_source(template)
        &&& self.method_spec() == method
        &&& self.params() == template_params(template)
        &&& self.prefix_spec() == literal_prefix(segments(template))
    }

    /// Create a new Route from a template.
    ///
    /// The template is refused when two of its placeholders share a name, and
    /// when the expression engine does not accept the matcher.
    pub fn new(path: &str, method: Method, handler: H) -> (r: Result<Route<H>, RouteError>)
        ensures
            match r {
                Ok(route) => {
                    &&& names_distinct(template_params(path@))
                    &&& regex_compiles(matcher_source(path@))
                    &&& route.compiled_from(path@, method)
                    &&& route.handler_spec() == handler
                },
                Err(e) => if names_distinct(template_params(path@)) {
                    e == RouteError::BadPattern && !regex_compiles(matcher_source(path@))
                } else {
                    e == RouteError::DuplicateParam
                },
            },
    {
        let t = chars_of(path);
        let mut matcher = String::from_str("^");
        let mut params: Vec<Param> = Vec::new();
        let mut prefix: usize = 0;
        let mut count: usize = 0;
        let ghost mut done: Seq<Seq<char>> = Seq::empty();
        let mut i: usize = 0;
        assert(t@.skip(0) =~= t@);
        while i < t.len()
            invariant
                t@ == path@,
                0 <= i <= t.len(),
                segments(t@) == done + segments(t@.skip(i as int)),
                matcher@ == "^"@ + chunks(done),
                param_views(params@) == params_in(done),
                names_distinct(params_in(done)),
                prefix == literal_prefix(done),
                count == done.len(),
                prefix <= count <= i,
            decreases t.len() - i,
        {
            let ghost here = t@.skip(i as int);
            if t[i] == '/' {
                assert(here.skip(1) =~= t@.skip(i + 1));
                i += 1;
            } else {
                let end = segment_end(&t, i);
                let ghost segment = t@.subrange(i as int, end as int);
                proof {
                    assert(segment_len(here) > 0);
                    assert(here.take(end - i) =~= segment);
                    assert(here.skip(end - i) =~= t@.skip(end as int));
                    assert(done + (seq![segment] + segments(t@.skip(end as int))) =~= done.push(
                        segment,
                    ) + segments(t@.skip(end as int)));
                    assert(done.push(segment).drop_last() =~= done);
                    lemma_params_in_prefix(done.push(segment), segments(t@.skip(end as int)));
                }
                match placeholder_at(&t, i, end) {
                    Some((ptype, start)) => {
                        let name = string_of(&t, start, end - 1);
                        if Self::has_name(&params, &name) {
                            proof {
                                let all = params_in(segments(t@));
                                let some = params_in(done.push(segment));
                                let k = choose|k: int|
                                    0 <= k < params@.len() && (#[trigger] params@[k]).name@
                                        == name@;
                                assert(param_views(params@)[k].0 == name@);
                                assert(some == params_in(done).push((name@, ptype)));
                                assert(all.take(some.len() as int) == some);
                                assert(all[k] == some[k]);
                                assert(all[some.len() - 1] == some[some.len() - 1]);
                            }
                            return Err(RouteError::DuplicateParam);
                        }
                        proof {
                            assert forall|a: int, b: int|
                                0 <= a < b < params_in(done.push(segment)).len() implies params_in(
                                done.push(segment),
                            )[a].0 != params_in(done.push(segment))[b].0 by {
                                if b == params_in(done).len() {
                                    assert(param_views(params@)[a].0 == params@[a].name@);
                                }
                            }
                        }
                        matcher.append("/(?P<");
                        matcher.append(name.as_str());
                        matcher.append(">");
                        matcher.append(Self::sub_pattern_of(ptype));
                        matcher.append(")");
                        proof {
                            assert(param_views(params@.push(Param { name, ptype }))
                                =~= param_views(params@).push((name@, ptype)));
                        }
                        params.push(Param { name, ptype });
                    },
                    None => {
                        let literal = string_of(&t, i, end);
                        let quoted = regex::escape(literal.as_str());
                        matcher.append("/");
                        matcher.append(quoted.as_str());
                        if prefix == count {
                            prefix += 1;
                        }
                    },
                }
                proof {
                    done = done.push(segment);
                }
                count += 1;
                i = end;
            }
        }
        assert(t@.skip(t@.len() as int) =~= Seq::<char>::empty());
        assert(done + Seq::<Seq<char>>::empty() =~= done);
        matcher.append("/?$");
        match Regex::new(matcher.as_str()) {
            Ok(re) => Ok(
                Route { matcher: re, method, params, prefix, handler },
            ),
            Err(_) => Err(RouteError::BadPattern),
        }
    }

    /// The method that the route answers to.
    pub fn method(&self) -> (m: Method)
        ensures
            m == self.method_spec(),
    {
        self.method
    }

    /// The handler of the route.
    pub fn handler(&self) -> (h: &H)
        ensures
            *h == self.handler_spec(),
    {
        &self.handler
    }

    /// The number of placeholders in the template.
    pub fn placeholders(&self) -> (n: usize)
        ensures
            n == self.params().len(),
    {
        self.params.len()
    }

    /// The number of literal segments before the first placeholder.
    pub fn prefix(&self) -> (n: usize)
        ensures
            n == self.prefix_spec(),
    {
        self.prefix
    }

    /// Check if this Route matches a given path, whatever the method.
    pub fn matches_path(&self, path: &str) -> (b: bool)
        ensures
            b == regex_matches(self.pattern(), path@),
    {
        self.matcher.is_match(path)
    }

    /// Check if this Route matches a given request: its path and its method.
    pub fn is_match(&self, req: &Request) -> (b: bool)
        ensures
            b == (regex_matches(self.pattern(), req.path@) && self.method_spec() == req.method),
    {
        self.matcher.is_match(req.path.as_str()) && self.method == req.method
    }

    /// Parse and extract the variables from a path based on this Route's
    /// definition. A path that does not match gives no variables.
    pub fn parse(&self, path: &str) -> (r: StringHashMap<String>)
        ensures
            texts(r@) == captured(self.pattern(), self.params(), path@),
            !regex_matches(self.pattern(), path@) ==> r@.len() == 0,
    {
        let mut found: StringHashMap<String> = StringHashMap::new();
        let ghost pattern = self.pattern();
        if !self.matcher.is_match(path) {
            assert(texts(found@) =~= captured(pattern, self.params(), path@));
            assert(found@ =~= Map::<Seq<char>, String>::empty());
            return found;
        }
        let mut k: usize = 0;
        assert(texts(found@) =~= captured(pattern, self.params().take(0), path@));
        while k < self.params.len()
            invariant
                0 <= k <= self.params.len(),
                pattern == self.pattern(),
                pattern == regex_source(self.matcher),
                regex_matches(pattern, path@),
                self.params() == param_views(self.params@),
                texts(found@) == captured(pattern, self.params().take(k as int), path@),
            decreases self.params.len() - k,
        {
            let name = &self.params[k].name;
            let ghost before = found@;
            let ghost names = self.params();
            match named_group(&self.matcher, path, name.as_str()) {
                Some(value) => {
                    found.insert(name.clone(), value);
                    assert(texts(found@) =~= texts(before).insert(name@, value@));
                },
                None => {},
            }
            proof {
                assert(names[k as int].0 == name@);
                assert(names.take(k + 1) =~= names.take(k as int).push(names[k as int]));
                assert forall|n: Seq<char>| #[trigger]
                    declares(names.take(k + 1), n) <==> (n == name@ || declares(
                        names.take(k as int),
                        n,
                    )) by {
                    lemma_declares_push(names.take(k as int), names[k as int], n);
                }
                assert(texts(found@) =~= captured(pattern, names.take(k + 1), path@));
            }
            k += 1;
        }
        assert(self.params().take(k as int) =~= self.params());
        found
    }

    /// Whether one of `params` is called `name`.
    fn has_name(params: &Vec<Param>, name: &String) -> (r: bool)
        ensures
            r == exists|k: int| 0 <= k < params@.len() && (#[trigger] params@[k]).name@ == name@,
    {
        let mut k: usize = 0;
        while k < params.len()
            invariant
                0 <= k <= params.len(),
                forall|j: int| 0 <= j < k ==> (#[trigger] params@[j]).name@ != name@,
            decreases params.len() - k,
        {
            if params[k].name == *name {
                return true;
            }
            k += 1;
        }
        false
    }

    /// The expression that captures a parameter of the given type.
    fn sub_pattern_of(ptype: ParamType) -> (s: &'static str)
        ensures
            s@ == sub_pattern(ptype),
    {
        match ptype {
            ParamType::String => "(?:[^/])+",
            ParamType::Integer => "-?[0-9]+",
            ParamType::Unsigned => "[0-9]+",
            ParamType::Float => "-?[0-9]*[.]?[0-9]+",
            ParamType::Path => ".+",
        }
    }
}

} // verus!
