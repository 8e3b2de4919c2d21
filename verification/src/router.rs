//! The route table: registration, and resolution of a request to a route.

use vstd::prelude::*;
use crate::path::{join_segments, split_path, split_segments};
use crate::pattern::{
    accepts, captures, is_catch_all, lemma_capture_names, lemma_catch_all_accepts,
    lemma_lookup_finds, lookup, param_names, pattern_error, pattern_of, well_formed, ParamSet,
    Pattern, PatternError, SegmentModel,
};
use crate::template::{
    declared, lemma_declared_renders, render, template_well_formed, ProxyTemplate,
    TemplateModel,
};
use crate::text::views;

verus! {

/// The method of a request.
#[derive(Clone, Copy, Debug, PartialEq, Eq, Structural)]
pub enum Method {
    Get,
    Head,
    Post,
    Put,
    Delete,
    Connect,
    Options,
    Trace,
    Patch,
    /// Any method that has no name above.
    Other,
}

/// What a route is bound to.
#[derive(Debug)]
pub enum Handler {
    /// A handler of the application, by its number.
    Local(u32),
    /// The media proxy, with the template of the upstream URL.
    Proxy(ProxyTemplate),
}

/// The mathematical model of a [`Handler`].
pub enum HandlerModel {
    Local(u32),
    Proxy(TemplateModel),
}

impl View for Handler {
    type V = HandlerModel;

    open spec fn view(&self) -> HandlerModel {
        match self {
            Handler::Local(id) => HandlerModel::Local(*id),
            Handler::Proxy(t) => HandlerModel::Proxy(t@),
        }
    }
}

/// The mathematical model of a registered route.
pub struct RouteModel {
    pub method: Method,
    pub pattern: Seq<SegmentModel>,
    pub handler: HandlerModel,
}

/// Why a registration is refused.
#[derive(Clone, Copy, Debug, PartialEq, Eq)]
pub enum RegisterError {
    /// A wildcard segment stands before the final segment of the pattern.
    WildcardNotLast,
    /// Two parameters of the pattern have the same name.
    DuplicateParam,
    /// The proxy template has a placeholder that is no parameter of the pattern.
    UndeclaredParam,
}

/// The reason for which a registration is refused, if any. The pattern is judged
/// before the template.
pub open spec fn register_error(p: Seq<SegmentModel>, handler: HandlerModel) -> Option<
    RegisterError,
> {
    match pattern_error(p) {
        Some(PatternError::WildcardNotLast) => Some(RegisterError::WildcardNotLast),
        Some(PatternError::DuplicateParam) => Some(RegisterError::DuplicateParam),
        None => match handler {
            HandlerModel::Proxy(t) => if declared(t.parts, param_names(p)) {
                None
            } else {
                Some(RegisterError::UndeclaredParam)
            },
            HandlerModel::Local(_) => None,
        },
    }
}

/// The invariant of a registered route.
pub open spec fn route_well_formed(route: RouteModel) -> bool {
    &&& well_formed(route.pattern)
    &&& route.handler matches HandlerModel::Proxy(t) ==> template_well_formed(t) && declared(
        t.parts,
        param_names(route.pattern),
    )
}

/// The invariant of a route table.
pub open spec fn table_well_formed(routes: Seq<RouteModel>) -> bool {
    forall|i: int| 0 <= i < routes.len() ==> route_well_formed(#[trigger] routes[i])
}

/// Whether the route answers the request directly: same method, and the pattern
/// accepts the path.
pub open spec fn route_matches(route: RouteModel, method: Method, segments: Seq<Seq<char>>)
    -> bool {
    route.method == method && accepts(route.pattern, segments)
}

/// The first route from `from` on that answers the request directly.
pub open spec fn first_match(
    routes: Seq<RouteModel>,
    method: Method,
    segments: Seq<Seq<char>>,
    from: int,
) -> Option<int>
    decreases routes.len() - from,
{
    if from < 0 || from >= routes.len() {
        None
    } else if route_matches(routes[from], method, segments) {
        Some(from)
    } else {
        first_match(routes, method, segments, from + 1)
    }
}

/// The first route from `from` on whose pattern is `/*`, whatever its method.
pub open spec fn first_catch_all(routes: Seq<RouteModel>, from: int) -> Option<int>
    decreases routes.len() - from,
{
    if from < 0 || from >= routes.len() {
        None
    } else if is_catch_all(routes[from].pattern) {
        Some(from)
    } else {
        first_catch_all(routes, from + 1)
    }
}

/// The route that serves a request, and what its pattern captures: the first route in
/// registration order that answers directly; failing that, the catch-all route.
pub open spec fn resolve_route(routes: Seq<RouteModel>, method: Method, segments: Seq<Seq<char>>)
    -> Option<(int, Seq<(Seq<char>, Seq<char>)>)> {
    match first_match(routes, method, segments, 0) {
        Some(i) => Some((i, captures(routes[i].pattern, segments))),
        None => match first_catch_all(routes, 0) {
            Some(j) => Some((j, captures(routes[j].pattern, segments))),
            None => None,
        },
    }
}

/// One registered route.
#[derive(Debug)]
pub struct Route {
    method: Method,
    pattern: Pattern,
    handler: Handler,
}

impl View for Route {
    type V = RouteModel;

    closed spec fn view(&self) -> RouteModel {
        RouteModel { method: self.method, pattern: self.pattern@, handler: self.handler@ }
    }
}

impl Route {
    /// Every route is well formed.
    #[verifier::type_invariant]
    pub open spec fn valid(&self) -> bool {
        route_well_formed(self@)
    }

    /// The method that the route is registered for.
    pub fn method(&self) -> (m: Method)
        ensures
            m == self@.method,
    {
        self.method
    }

    /// The pattern of the route.
    pub fn pattern(&self) -> (p: &Pattern)
        ensures
            p@ == self@.pattern,
    {
        &self.pattern
    }

    /// What the route is bound to.
    pub fn handler(&self) -> (h: &Handler)
        ensures
            h@ == self@.handler,
    {
        &self.handler
    }
}

/// The route that serves a request.
#[derive(Debug)]
pub struct Resolution<'a> {
    /// The index of the route, in registration order.
    pub route: usize,
    /// What the route is bound to.
    pub handler: &'a Handler,
    /// What the route's pattern captured from the path.
    pub params: ParamSet,
}

/// The route table.
#[derive(Debug)]
pub struct Router {
    routes: Vec<Route>,
}

impl View for Router {
    type V = Seq<RouteModel>;

    closed spec fn view(&self) -> Seq<RouteModel> {
        views(self.routes@)
    }
}

impl Router {
    /// Every route of the table is well formed.
    #[verifier::type_invariant]
    pub open spec fn valid(&self) -> bool {
        table_well_formed(self@)
    }

    /// A table without routes.
    pub fn new() -> (router: Router)
        ensures
            router@ == Seq::<RouteModel>::empty(),
    {
        let router = Router { routes: Vec::new() };
        assert(router@ == Seq::<RouteModel>::empty());
        router
    }

    /// The number of registered routes.
    pub fn len(&self) -> (n: usize)
        ensures
            n == self@.len(),
    {
        self.routes.len()
    }

    /// The route at `index`, in registration order.
    pub fn route(&self, index: usize) -> (route: &Route)
        requires
            index < self@.len(),
        ensures
            route@ == self@[index as int],
    {
        &self.routes[index]
    }

    /// Adds a route behind those that are registered.
    ///
    /// Fails, and leaves the table as it is, if the pattern has a wildcard before its
    /// final segment or a parameter name twice, or if the handler is a proxy whose
    /// template has a placeholder that is no parameter of the pattern.
    pub fn register(&mut self, method: Method, pattern: &str, handler: Handler) -> (r: Result<
        (),
        RegisterError,
    >)
        ensures
            register_error(pattern_of(pattern@), handler@) == match r {
                Ok(_) => None,
                Err(e) => Some(e),
            },
            final(self)@ == match r {
                Ok(_) => old(self)@.push(
                    RouteModel { method, pattern: pattern_of(pattern@), handler: handler@ },
                ),
                Err(_) => old(self)@,
            },
    {
        proof {
            use_type_invariant(&*self);
        }
        let parsed = match Pattern::parse(pattern) {
            Ok(p) => p,
            Err(PatternError::WildcardNotLast) => {
                return Err(RegisterError::WildcardNotLast);
            },
            Err(PatternError::DuplicateParam) => {
                return Err(RegisterError::DuplicateParam);
            },
        };
        match &handler {
            Handler::Proxy(template) => {
                proof {
                    use_type_invariant(template);
                }
                if !template.fits(&parsed) {
                    return Err(RegisterError::UndeclaredParam);
                }
            },
            Handler::Local(_) => {},
        }
        let ghost before = self@;
        let route = Route { method, pattern: parsed, handler };
        let mut routes: Vec<Route> = Vec::new();
        std::mem::swap(&mut routes, &mut self.routes);
        routes.push(route);
        assert(views(routes@) == before.push(route@));
        self.routes = routes;
        Ok(())
    }
}

impl Router {
    /// Finds the route that serves a request.
    ///
    /// The path is split at `/` and empty segments are dropped. The routes are tried in
    /// registration order, and the first whose method is `method` and whose pattern
    /// accepts the path serves the request. If there is none, the first route whose
    /// pattern is `/*` serves it, whatever its method. If there is none either, the
    /// request is not found.
    pub fn resolve(&self, method: Method, path: &str) -> (r: Option<Resolution<'_>>)
        ensures
            match r {
                Some(found) => resolve_route(self@, method, split_segments(path@)) == Some(
                    (found.route as int, found.params@),
                ) && found.route < self@.len() && found.handler@ == self@[found.route as int].handler,
                None => resolve_route(self@, method, split_segments(path@)) is None,
            },
    {
        let segments = split_path(path);
        let ghost routes = self@;
        let ghost segs = split_segments(path@);
        let mut i: usize = 0;
        while i < self.routes.len()
            invariant
                i <= self.routes.len(),
                routes == self@,
                segs == views(segments@),
                segs == split_segments(path@),
                first_match(routes, method, segs, 0) == first_match(routes, method, segs, i as int),
            decreases self.routes.len() - i,
        {
            let route = &self.routes[i];
            assert(routes[i as int] == route@);
            if route.method == method {
                match route.pattern.capture(&segments) {
                    Some(params) => {
                        return Some(Resolution { route: i, handler: &route.handler, params });
                    },
                    None => {},
                }
            }
            i += 1;
        }
        let mut j: usize = 0;
        while j < self.routes.len()
            invariant
                j <= self.routes.len(),
                routes == self@,
                segs == views(segments@),
                segs == split_segments(path@),
                first_match(routes, method, segs, 0) is None,
                first_catch_all(routes, 0) == first_catch_all(routes, j as int),
            decreases self.routes.len() - j,
        {
            let route = &self.routes[j];
            assert(routes[j as int] == route@);
            if route.pattern.is_catch_all() {
                proof {
                    lemma_catch_all_accepts(route.pattern@, segs);
                }
                match route.pattern.capture(&segments) {
                    Some(params) => {
                        return Some(Resolution { route: j, handler: &route.handler, params });
                    },
                    None => {},
                }
            }
            j += 1;
        }
        None
    }
}

/// Resolution is a function of the table and the request: the same method and path
/// always give the same route and the same captured parameters.
pub proof fn resolve_is_deterministic(
    routes: Seq<RouteModel>,
    method: Method,
    path: Seq<char>,
    first: Option<(int, Seq<(Seq<char>, Seq<char>)>)>,
    second: Option<(int, Seq<(Seq<char>, Seq<char>)>)>,
)
    requires
        first == resolve_route(routes, method, split_segments(path)),
        second == resolve_route(routes, method, split_segments(path)),
    ensures
        first == second,
        first matches Some((i, _)) ==> second matches Some((j, _)) && routes[i].handler
            == routes[j].handler,
{
}

/// The first match wins: the route found is in the table, no route before it answers the
/// request directly, and it is the first route that does if any does.
pub proof fn lemma_first_match(
    routes: Seq<RouteModel>,
    method: Method,
    segments: Seq<Seq<char>>,
    from: int,
)
    requires
        0 <= from,
    ensures
        match first_match(routes, method, segments, from) {
            Some(i) => from <= i < routes.len() && route_matches(routes[i], method, segments)
                && forall|j: int| from <= j < i ==> !route_matches(#[trigger] routes[j], method, segments),
            None => forall|j: int|
                from <= j < routes.len() ==> !route_matches(#[trigger] routes[j], method, segments),
        },
    decreases routes.len() - from,
{
    if from < routes.len() && !route_matches(routes[from], method, segments) {
        lemma_first_match(routes, method, segments, from + 1);
    }
}

/// Registration order decides: a request that a route answers directly is still
/// answered by that route after another route is registered.
pub proof fn later_route_changes_no_match(
    routes: Seq<RouteModel>,
    added: RouteModel,
    method: Method,
    segments: Seq<Seq<char>>,
    from: int,
)
    requires
        0 <= from,
        first_match(routes, method, segments, from) is Some,
    ensures
        first_match(routes.push(added), method, segments, from) == first_match(
            routes,
            method,
            segments,
            from,
        ),
    decreases routes.len() - from,
{
    assert(routes.push(added)[from] == routes[from]);
    if !route_matches(routes[from], method, segments) {
        later_route_changes_no_match(routes, added, method, segments, from + 1);
    }
}

/// The catch-all that is used is the first route whose pattern is `/*`.
pub proof fn lemma_first_catch_all(routes: Seq<RouteModel>, from: int)
    requires
        0 <= from,
    ensures
        match first_catch_all(routes, from) {
            Some(i) => from <= i < routes.len() && is_catch_all(routes[i].pattern)
                && forall|j: int| from <= j < i ==> !is_catch_all(#[trigger] routes[j].pattern),
            None => forall|j: int|
                from <= j < routes.len() ==> !is_catch_all(#[trigger] routes[j].pattern),
        },
    decreases routes.len() - from,
{
    if from < routes.len() && !is_catch_all(routes[from].pattern) {
        lemma_first_catch_all(routes, from + 1);
    }
}

/// With a route `/*` in the table, every request resolves, whatever its method and
/// path; a request that no route answers directly goes to the first such route, which
/// captures the whole canonical path.
pub proof fn catch_all_serves_every_request(
    routes: Seq<RouteModel>,
    method: Method,
    segments: Seq<Seq<char>>,
    k: int,
)
    requires
        0 <= k < routes.len(),
        is_catch_all(routes[k].pattern),
    ensures
        resolve_route(routes, method, segments) is Some,
        first_match(routes, method, segments, 0) is None ==> ({
            let (j, params) = resolve_route(routes, method, segments).unwrap();
            &&& 0 <= j <= k
            &&& is_catch_all(routes[j].pattern)
            &&& params == seq![(Seq::<char>::empty(), join_segments(segments))]
        }),
{
    lemma_first_catch_all(routes, 0);
    if first_match(routes, method, segments, 0) is None {
        let j = first_catch_all(routes, 0).unwrap();
        lemma_catch_all_accepts(routes[j].pattern, segments);
    }
}

/// A resolved request can always be forwarded: in a well-formed table, the template
/// of a proxy route is filled by what the route's pattern captured.
pub proof fn resolved_proxy_renders(
    routes: Seq<RouteModel>,
    method: Method,
    segments: Seq<Seq<char>>,
)
    requires
        table_well_formed(routes),
        resolve_route(routes, method, segments) is Some,
    ensures
        ({
            let (i, params) = resolve_route(routes, method, segments).unwrap();
            &&& 0 <= i < routes.len()
            &&& routes[i].handler matches HandlerModel::Proxy(t) ==> render(t, params) is Some
        }),
{
    lemma_first_match(routes, method, segments, 0);
    lemma_first_catch_all(routes, 0);
    let (i, params) = resolve_route(routes, method, segments).unwrap();
    match routes[i].handler {
        HandlerModel::Proxy(t) => {
            lemma_pattern_fills_template(routes[i].pattern, segments, t);
        },
        HandlerModel::Local(_) => {},
    }
}

/// A template whose placeholders are all parameters of a pattern is filled by whatever
/// the pattern captures.
pub proof fn lemma_pattern_fills_template(
    p: Seq<SegmentModel>,
    segments: Seq<Seq<char>>,
    t: TemplateModel,
)
    requires
        declared(t.parts, param_names(p)),
    ensures
        render(t, captures(p, segments)) is Some,
{
    let params = captures(p, segments);
    lemma_capture_names(p, segments);
    assert forall|n: Seq<char>| param_names(p).contains(n) implies lookup(params, n) is Some by {
        lemma_lookup_finds(params, n);
    }
    lemma_declared_renders(t.parts, param_names(p), params);
}

} // verus!
