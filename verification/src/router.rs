//! The resource table and the routing decision.
//!
//! Resources are tried in the order in which they were registered. The first
//! one whose pattern and guards all accept the request wins, and nothing
//! after it is looked at. Inside it the first route whose guards accept the
//! request handles it; where no route does, the resource's own default
//! service does; where it has none, the method is not allowed. Only when no
//! resource accepts the request is the application's default service asked,
//! and without one the request is not found.

use vstd::prelude::*;
use vstd::string::StringSliceAdditionalSpecFns;
use crate::bytes::{copy_bytes, eq_ignore_case};
use crate::http::{has_header, Method, Request, RequestView};
use crate::pattern::{
    captures, lemma_ignore_case_matches, params_view, parse_pattern, pattern_matches, Param,
    ParamView, ResourceDef, SegmentView,
};

verus! {

/// Names a handler service that the application's owner supplies.
pub type HandlerId = u64;

/// Names a type of application data.
pub type TypeKey = u64;

/// A predicate over a request that gates a resource or a route.
#[derive(Clone, Debug, PartialEq, Eq)]
pub enum Guard {
    /// The request has this method.
    Method(Method),
    /// The request carries this header with exactly this value.
    Header { name: Vec<u8>, value: Vec<u8> },
}

/// What a [`Guard`] stands for.
pub enum GuardView {
    Method(Method),
    Header { name: Seq<u8>, value: Seq<u8> },
}

impl View for Guard {
    type V = GuardView;

    open spec fn view(&self) -> GuardView {
        match self {
            Guard::Method(method) => GuardView::Method(*method),
            Guard::Header { name, value } => GuardView::Header { name: name@, value: value@ },
        }
    }
}

/// The guards that a vector of guards stands for.
pub open spec fn guards_view(v: Seq<Guard>) -> Seq<GuardView> {
    Seq::new(v.len(), |i: int| v[i]@)
}

/// Whether one guard accepts a request.
pub open spec fn guard_accepts(guard: GuardView, request: RequestView) -> bool {
    match guard {
        GuardView::Method(method) => request.method == method,
        GuardView::Header { name, value } => has_header(request.headers, name, value),
    }
}

/// Whether every guard accepts a request.
pub open spec fn guards_accept(guards: Seq<GuardView>, request: RequestView) -> bool {
    forall|i: int| 0 <= i < guards.len() ==> guard_accepts(#[trigger] guards[i], request)
}

impl Guard {
    /// A guard on the header `name`.
    pub fn header(name: &str, value: &str) -> (guard: Guard)
        ensures
            guard@ == (GuardView::Header { name: name.spec_bytes(), value: value.spec_bytes() }),
    {
        Guard::Header { name: copy_bytes(name.as_bytes()), value: copy_bytes(value.as_bytes()) }
    }

    /// Evaluates the guard on `request`.
    pub fn check(&self, request: &Request) -> (r: bool)
        ensures
            r == guard_accepts(self@, request@),
    {
        match self {
            Guard::Method(method) => request.method == *method,
            Guard::Header { name, value } => request.has_header(
                name.as_slice(),
                value.as_slice(),
            ),
        }
    }
}

/// Evaluates every guard of `guards` on `request`.
pub fn check_guards(guards: &Vec<Guard>, request: &Request) -> (r: bool)
    ensures
        r == guards_accept(guards_view(guards@), request@),
{
    let mut i: usize = 0;
    while i < guards.len()
        invariant
            i <= guards.len(),
            forall|k: int|
                0 <= k < i ==> guard_accepts(#[trigger] guards_view(guards@)[k], request@),
        decreases guards.len() - i,
    {
        assert(guards_view(guards@)[i as int] == guards@[i as int]@);
        if !guards[i].check(request) {
            return false;
        }
        i += 1;
    }
    true
}

/// A handler with the guards that gate it and the application data that it
/// asks for.
#[derive(Clone, Debug, PartialEq, Eq)]
pub struct Route {
    guards: Vec<Guard>,
    handler: Option<HandlerId>,
    extractors: Vec<TypeKey>,
}

/// What a [`Route`] stands for.
pub struct RouteView {
    pub guards: Seq<GuardView>,
    pub handler: Option<HandlerId>,
    pub extractors: Seq<TypeKey>,
}

impl View for Route {
    type V = RouteView;

    closed spec fn view(&self) -> RouteView {
        RouteView {
            guards: guards_view(self.guards@),
            handler: self.handler,
            extractors: self.extractors@,
        }
    }
}

/// The routes that a vector of routes stands for.
pub open spec fn routes_view(v: Seq<Route>) -> Seq<RouteView> {
    Seq::new(v.len(), |i: int| v[i]@)
}

/// A route that only `method` requests reach.
pub fn method(verb: Method) -> (route: Route)
    ensures
        route@ == (RouteView {
            guards: seq![GuardView::Method(verb)],
            handler: None,
            extractors: Seq::empty(),
        }),
{
    let route = Route::new().method(verb);
    assert(route@.guards =~= seq![GuardView::Method(verb)]);
    route
}

/// A route for `GET` requests.
pub fn get() -> (route: Route)
    ensures
        route@ == (RouteView {
            guards: seq![GuardView::Method(Method::Get)],
            handler: None,
            extractors: Seq::empty(),
        }),
{
    method(Method::Get)
}

/// A route for `POST` requests.
pub fn post() -> (route: Route)
    ensures
        route@ == (RouteView {
            guards: seq![GuardView::Method(Method::Post)],
            handler: None,
            extractors: Seq::empty(),
        }),
{
    method(Method::Post)
}

/// A route for `HEAD` requests.
pub fn head() -> (route: Route)
    ensures
        route@ == (RouteView {
            guards: seq![GuardView::Method(Method::Head)],
            handler: None,
            extractors: Seq::empty(),
        }),
{
    method(Method::Head)
}

impl Route {
    /// A route without guards and without a handler; until it gets one with
    /// [`Route::to`], what reaches it is not found.
    pub fn new() -> (route: Route)
        ensures
            route@ == (RouteView {
                guards: Seq::empty(),
                handler: None,
                extractors: Seq::empty(),
            }),
    {
        let route = Route { guards: Vec::new(), handler: None, extractors: Vec::new() };
        assert(guards_view(route.guards@) =~= Seq::empty());
        route
    }

    /// Adds a guard on the request method.
    pub fn method(self, verb: Method) -> (route: Route)
        ensures
            route@ == (RouteView {
                guards: self@.guards.push(GuardView::Method(verb)),
                ..self@
            }),
    {
        self.guard(Guard::Method(verb))
    }

    /// Adds a guard.
    pub fn guard(self, guard: Guard) -> (route: Route)
        ensures
            route@ == (RouteView { guards: self@.guards.push(guard@), ..self@ }),
    {
        let mut route = self;
        route.guards.push(guard);
        assert(guards_view(route.guards@) =~= guards_view(self.guards@).push(guard@));
        route
    }

    /// Sets the handler.
    pub fn to(self, handler: HandlerId) -> (route: Route)
        ensures
            route@ == (RouteView { handler: Some(handler), ..self@ }),
    {
        let mut route = self;
        route.handler = Some(handler);
        route
    }

    /// Makes the handler ask for the application data of type `key`.
    pub fn data(self, key: TypeKey) -> (route: Route)
        ensures
            route@ == (RouteView { extractors: self@.extractors.push(key), ..self@ }),
    {
        let mut route = self;
        route.extractors.push(key);
        route
    }

    /// Takes the guards out of the route, which is left without any.
    pub fn take_guards(&mut self) -> (guards: Vec<Guard>)
        ensures
            guards_view(guards@) == old(self)@.guards,
            final(self)@ == (RouteView { guards: Seq::empty(), ..old(self)@ }),
    {
        let mut guards: Vec<Guard> = Vec::new();
        std::mem::swap(&mut self.guards, &mut guards);
        assert(guards_view(self.guards@) =~= Seq::empty());
        guards
    }

    /// Whether the route's guards accept `request`.
    pub fn accepts(&self, request: &Request) -> (r: bool)
        ensures
            r == guards_accept(self@.guards, request@),
    {
        check_guards(&self.guards, request)
    }
}

/// A path pattern with the routes registered for it.
#[derive(Clone, Debug, PartialEq, Eq)]
pub struct Resource {
    rdef: ResourceDef,
    guards: Vec<Guard>,
    routes: Vec<Route>,
    default: Option<HandlerId>,
}

/// What a [`Resource`] stands for.
pub struct ResourceView {
    pub name: Seq<u8>,
    pub segments: Seq<SegmentView>,
    pub guards: Seq<GuardView>,
    pub routes: Seq<RouteView>,
    pub default: Option<HandlerId>,
}

impl View for Resource {
    type V = ResourceView;

    closed spec fn view(&self) -> ResourceView {
        ResourceView {
            name: self.rdef.name(),
            segments: self.rdef.segments(),
            guards: guards_view(self.guards@),
            routes: routes_view(self.routes@),
            default: self.default,
        }
    }
}

/// The resources that a vector of resources stands for.
pub open spec fn resources_view(v: Seq<Resource>) -> Seq<ResourceView> {
    Seq::new(v.len(), |i: int| v[i]@)
}

/// The service that a request was routed to.
#[derive(Clone, Copy, Debug, PartialEq, Eq, Structural)]
pub enum Target {
    /// The handler of a route.
    Route(HandlerId),
    /// The default service of the resource that accepted the request.
    ResourceDefault(HandlerId),
    /// The default service of the application.
    AppDefault(HandlerId),
}

/// Where routing ends.
#[derive(Clone, Debug, PartialEq, Eq)]
pub enum Decision {
    /// A service handles the request.
    Dispatch { target: Target, params: Vec<Param>, extractors: Vec<TypeKey> },
    /// A resource accepted the request, but has no route for it and no
    /// default service.
    MethodNotAllowed,
    /// Nothing handles the request.
    NotFound,
}

/// What a [`Decision`] stands for.
pub enum DecisionView {
    Dispatch { target: Target, params: Seq<ParamView>, extractors: Seq<TypeKey> },
    MethodNotAllowed,
    NotFound,
}

impl View for Decision {
    type V = DecisionView;

    open spec fn view(&self) -> DecisionView {
        match self {
            Decision::Dispatch { target, params, extractors } => DecisionView::Dispatch {
                target: *target,
                params: params_view(params@),
                extractors: extractors@,
            },
            Decision::MethodNotAllowed => DecisionView::MethodNotAllowed,
            Decision::NotFound => DecisionView::NotFound,
        }
    }
}

/// Index of the first route from `from` on whose guards accept the request.
pub open spec fn first_route(routes: Seq<RouteView>, request: RequestView, from: int) -> Option<
    int,
>
    decreases routes.len() - from,
{
    if from >= routes.len() {
        None
    } else if guards_accept(routes[from].guards, request) {
        Some(from)
    } else {
        first_route(routes, request, from + 1)
    }
}

/// Whether a resource accepts a request: its pattern accepts the path and
/// each of its guards accepts the request.
pub open spec fn resource_accepts(
    resource: ResourceView,
    request: RequestView,
    ignore_case: bool,
) -> bool {
    pattern_matches(resource.segments, request.path, ignore_case) && guards_accept(
        resource.guards,
        request,
    )
}

/// What a resource that accepted a request does with it.
pub open spec fn resource_decision(resource: ResourceView, request: RequestView) -> DecisionView {
    let params = captures(resource.segments, request.path);
    match first_route(resource.routes, request, 0) {
        Some(j) => match resource.routes[j].handler {
            Some(handler) => DecisionView::Dispatch {
                target: Target::Route(handler),
                params,
                extractors: resource.routes[j].extractors,
            },
            None => DecisionView::NotFound,
        },
        None => match resource.default {
            Some(handler) => DecisionView::Dispatch {
                target: Target::ResourceDefault(handler),
                params,
                extractors: Seq::empty(),
            },
            None => DecisionView::MethodNotAllowed,
        },
    }
}

/// A fresh copy of `keys`.
fn copy_keys(keys: &Vec<TypeKey>) -> (out: Vec<TypeKey>)
    ensures
        out@ == keys@,
{
    let mut out: Vec<TypeKey> = Vec::new();
    let mut i: usize = 0;
    while i < keys.len()
        invariant
            i <= keys.len(),
            out@ == keys@.take(i as int),
        decreases keys.len() - i,
    {
        out.push(keys[i]);
        i += 1;
        assert(out@ =~= keys@.take(i as int));
    }
    assert(keys@.take(keys.len() as int) =~= keys@);
    out
}

impl Resource {
    /// A resource for `pattern`, without name, guards, routes or default.
    pub fn new(pattern: &str) -> (resource: Resource)
        ensures
            resource@ == (ResourceView {
                name: Seq::empty(),
                segments: parse_pattern(pattern.spec_bytes()),
                guards: Seq::empty(),
                routes: Seq::empty(),
                default: None,
            }),
    {
        let resource = Resource {
            rdef: ResourceDef::new(pattern),
            guards: Vec::new(),
            routes: Vec::new(),
            default: None,
        };
        assert(guards_view(resource.guards@) =~= Seq::empty());
        assert(routes_view(resource.routes@) =~= Seq::empty());
        resource
    }

    /// Names the resource, for the generation of paths.
    pub fn name(self, name: &str) -> (resource: Resource)
        ensures
            resource@ == (ResourceView { name: name.spec_bytes(), ..self@ }),
    {
        Resource {
            rdef: self.rdef.named(name),
            guards: self.guards,
            routes: self.routes,
            default: self.default,
        }
    }

    /// Adds a guard.
    pub fn guard(self, guard: Guard) -> (resource: Resource)
        ensures
            resource@ == (ResourceView { guards: self@.guards.push(guard@), ..self@ }),
    {
        let mut resource = self;
        resource.guards.push(guard);
        assert(guards_view(resource.guards@) =~= guards_view(self.guards@).push(guard@));
        resource
    }

    /// Adds `guards`, in their order, after the guards that are there.
    pub fn add_guards(self, guards: Vec<Guard>) -> (resource: Resource)
        ensures
            resource@ == (ResourceView {
                guards: self@.guards + guards_view(guards@),
                ..self@
            }),
    {
        let mut resource = self;
        let mut guards = guards;
        let ghost added = guards@;
        resource.guards.append(&mut guards);
        assert(guards_view(resource.guards@) =~= guards_view(self.guards@) + guards_view(added));
        resource
    }

    /// Adds a route after the routes that are there.
    pub fn route(self, route: Route) -> (resource: Resource)
        ensures
            resource@ == (ResourceView { routes: self@.routes.push(route@), ..self@ }),
    {
        let mut resource = self;
        resource.routes.push(route);
        assert(routes_view(resource.routes@) =~= routes_view(self.routes@).push(route@));
        resource
    }

    /// Adds a route without guards that leads to `handler`.
    pub fn to(self, handler: HandlerId) -> (resource: Resource)
        ensures
            resource@ == (ResourceView {
                routes: self@.routes.push(
                    RouteView {
                        guards: Seq::empty(),
                        handler: Some(handler),
                        extractors: Seq::empty(),
                    },
                ),
                ..self@
            }),
    {
        self.route(Route::new().to(handler))
    }

    /// Sets the service that handles what no route of the resource accepts.
    pub fn default_service(self, handler: HandlerId) -> (resource: Resource)
        ensures
            resource@ == (ResourceView { default: Some(handler), ..self@ }),
    {
        let mut resource = self;
        resource.default = Some(handler);
        resource
    }

    /// The definition under which the resource is found by name, where it
    /// has a name.
    pub fn named_definition(&self) -> (def: Option<ResourceDef>)
        ensures
            def is Some <==> self@.name.len() > 0,
            def matches Some(d) ==> d.name() == self@.name && d.segments() == self@.segments,
    {
        if self.rdef.is_named() {
            Some(self.rdef.duplicate())
        } else {
            None
        }
    }

    /// Tries the resource on `request`: `None` where it does not accept the
    /// request, else what it does with it.
    pub fn recognize(&self, request: &Request, ignore_case: bool) -> (found: Option<Decision>)
        ensures
            found is Some <==> resource_accepts(self@, request@, ignore_case),
            found matches Some(decision) ==> decision@ == resource_decision(self@, request@),
    {
        let params = match self.rdef.match_path(request.path.as_slice(), ignore_case) {
            Some(params) => params,
            None => {
                return None;
            },
        };
        if !check_guards(&self.guards, request) {
            return None;
        }
        let ghost routes = routes_view(self.routes@);
        let mut j: usize = 0;
        while j < self.routes.len()
            invariant
                j <= self.routes.len(),
                routes == routes_view(self.routes@),
                resource_accepts(self@, request@, ignore_case),
                params_view(params@) == captures(self@.segments, request@.path),
                first_route(routes, request@, 0) == first_route(routes, request@, j as int),
            decreases self.routes.len() - j,
        {
            assert(routes[j as int] == self.routes@[j as int]@);
            if self.routes[j].accepts(request) {
                return Some(
                    match self.routes[j].handler {
                        Some(handler) => Decision::Dispatch {
                            target: Target::Route(handler),
                            params,
                            extractors: copy_keys(&self.routes[j].extractors),
                        },
                        None => Decision::NotFound,
                    },
                );
            }
            j += 1;
        }
        Some(
            match self.default {
                Some(handler) => Decision::Dispatch {
                    target: Target::ResourceDefault(handler),
                    params,
                    extractors: Vec::new(),
                },
                None => Decision::MethodNotAllowed,
            },
        )
    }
}

/// The resource table of an application.
pub struct Router {
    resources: Vec<Resource>,
    default: Option<HandlerId>,
    case_insensitive: bool,
}

/// What a [`Router`] stands for.
pub struct RouterView {
    pub resources: Seq<ResourceView>,
    pub default: Option<HandlerId>,
    pub case_insensitive: bool,
}

impl View for Router {
    type V = RouterView;

    closed spec fn view(&self) -> RouterView {
        RouterView {
            resources: resources_view(self.resources@),
            default: self.default,
            case_insensitive: self.case_insensitive,
        }
    }
}

/// Index of the first resource from `from` on that accepts the request.
pub open spec fn first_resource(
    resources: Seq<ResourceView>,
    request: RequestView,
    ignore_case: bool,
    from: int,
) -> Option<int>
    decreases resources.len() - from,
{
    if from >= resources.len() {
        None
    } else if resource_accepts(resources[from], request, ignore_case) {
        Some(from)
    } else {
        first_resource(resources, request, ignore_case, from + 1)
    }
}

/// What the application does when no resource accepts a request.
pub open spec fn fallback(default: Option<HandlerId>) -> DecisionView {
    match default {
        Some(handler) => DecisionView::Dispatch {
            target: Target::AppDefault(handler),
            params: Seq::empty(),
            extractors: Seq::empty(),
        },
        None => DecisionView::NotFound,
    }
}

/// The routing decision for a request.
pub open spec fn route_request(router: RouterView, request: RequestView) -> DecisionView {
    match first_resource(router.resources, request, router.case_insensitive, 0) {
        Some(i) => resource_decision(router.resources[i], request),
        None => fallback(router.default),
    }
}

impl Router {
    /// A router over `resources`, in their order.
    pub fn new(resources: Vec<Resource>, default: Option<HandlerId>, case_insensitive: bool) -> (router:
        Router)
        ensures
            router@ == (RouterView {
                resources: resources_view(resources@),
                default,
                case_insensitive,
            }),
    {
        Router { resources, default, case_insensitive }
    }

    /// Routes `request`.
    pub fn recognize(&self, request: &Request) -> (decision: Decision)
        ensures
            decision@ == route_request(self@, request@),
    {
        let ghost resources = resources_view(self.resources@);
        let mut i: usize = 0;
        while i < self.resources.len()
            invariant
                i <= self.resources.len(),
                resources == resources_view(self.resources@),
                first_resource(resources, request@, self.case_insensitive, 0) == first_resource(
                    resources,
                    request@,
                    self.case_insensitive,
                    i as int,
                ),
            decreases self.resources.len() - i,
        {
            assert(resources[i as int] == self.resources@[i as int]@);
            match self.resources[i].recognize(request, self.case_insensitive) {
                Some(decision) => {
                    return decision;
                },
                None => {},
            }
            i += 1;
        }
        let params: Vec<Param> = Vec::new();
        assert(params_view(params@) =~= Seq::empty());
        match self.default {
            Some(handler) => Decision::Dispatch {
                target: Target::AppDefault(handler),
                params,
                extractors: Vec::new(),
            },
            None => Decision::NotFound,
        }
    }
}

/// What `first_resource` finds: the accepting resource before which, from
/// `from` on, none accepts; or nothing, where none from `from` on accepts.
pub proof fn lemma_first_resource(
    resources: Seq<ResourceView>,
    request: RequestView,
    ignore_case: bool,
    from: int,
)
    requires
        0 <= from,
    ensures
        match first_resource(resources, request, ignore_case, from) {
            Some(i) => from <= i < resources.len() && resource_accepts(
                resources[i],
                request,
                ignore_case,
            ) && forall|j: int|
                from <= j < i ==> !resource_accepts(#[trigger] resources[j], request, ignore_case),
            None => forall|j: int|
                from <= j < resources.len() ==> !resource_accepts(
                    #[trigger] resources[j],
                    request,
                    ignore_case,
                ),
        },
    decreases resources.len() - from,
{
    if from < resources.len() && !resource_accepts(resources[from], request, ignore_case) {
        lemma_first_resource(resources, request, ignore_case, from + 1);
    }
}

/// The resource that accepts a request, with none before it that does, is
/// the one that `first_resource` finds.
pub proof fn lemma_first_resource_is(
    resources: Seq<ResourceView>,
    request: RequestView,
    ignore_case: bool,
    i: int,
)
    requires
        0 <= i < resources.len(),
        resource_accepts(resources[i], request, ignore_case),
        forall|j: int| 0 <= j < i ==> !resource_accepts(#[trigger] resources[j], request, ignore_case),
    ensures
        first_resource(resources, request, ignore_case, 0) == Some(i),
{
    lemma_first_resource(resources, request, ignore_case, 0);
}

/// What `first_route` finds: the accepting route before which, from `from`
/// on, none accepts; or nothing, where none from `from` on accepts.
pub proof fn lemma_first_route(routes: Seq<RouteView>, request: RequestView, from: int)
    requires
        0 <= from,
    ensures
        match first_route(routes, request, from) {
            Some(j) => from <= j < routes.len() && guards_accept(routes[j].guards, request)
                && forall|k: int|
                from <= k < j ==> !guards_accept((#[trigger] routes[k]).guards, request),
            None => forall|k: int|
                from <= k < routes.len() ==> !guards_accept((#[trigger] routes[k]).guards, request),
        },
    decreases routes.len() - from,
{
    if from < routes.len() && !guards_accept(routes[from].guards, request) {
        lemma_first_route(routes, request, from + 1);
    }
}

/// A request that no resource accepts goes to the application's default
/// service where one is registered, and is not found where none is.
pub proof fn lemma_unmatched_request_falls_back(router: RouterView, request: RequestView)
    requires
        forall|i: int|
            0 <= i < router.resources.len() ==> !resource_accepts(
                #[trigger] router.resources[i],
                request,
                router.case_insensitive,
            ),
    ensures
        route_request(router, request) == fallback(router.default),
        router.default is None ==> route_request(router, request) == DecisionView::NotFound,
        router.default matches Some(handler) ==> route_request(router, request)
            == (DecisionView::Dispatch {
            target: Target::AppDefault(handler),
            params: Seq::empty(),
            extractors: Seq::empty(),
        }),
{
    lemma_first_resource(router.resources, request, router.case_insensitive, 0);
}

/// The application's default service is reached only by requests that no
/// resource accepts.
pub proof fn lemma_app_default_only_when_unmatched(router: RouterView, request: RequestView)
    requires
        route_request(router, request) matches DecisionView::Dispatch {
            target: Target::AppDefault(_),
            ..
        },
    ensures
        forall|i: int|
            0 <= i < router.resources.len() ==> !resource_accepts(
                #[trigger] router.resources[i],
                request,
                router.case_insensitive,
            ),
{
    lemma_first_resource(router.resources, request, router.case_insensitive, 0);
}

/// In the first resource that accepts a request, the first route whose
/// guards accept it handles it.
pub proof fn lemma_route_handles(router: RouterView, request: RequestView, i: int, j: int)
    requires
        0 <= i < router.resources.len(),
        resource_accepts(router.resources[i], request, router.case_insensitive),
        forall|k: int|
            0 <= k < i ==> !resource_accepts(
                #[trigger] router.resources[k],
                request,
                router.case_insensitive,
            ),
        0 <= j < router.resources[i].routes.len(),
        guards_accept(router.resources[i].routes[j].guards, request),
        forall|k: int|
            0 <= k < j ==> !guards_accept((#[trigger] router.resources[i].routes[k]).guards, request),
    ensures
        route_request(router, request) == match router.resources[i].routes[j].handler {
            Some(handler) => DecisionView::Dispatch {
                target: Target::Route(handler),
                params: captures(router.resources[i].segments, request.path),
                extractors: router.resources[i].routes[j].extractors,
            },
            None => DecisionView::NotFound,
        },
{
    lemma_first_resource_is(router.resources, request, router.case_insensitive, i);
    lemma_first_route(router.resources[i].routes, request, 0);
}

/// Where the first resource that accepts a request has no route for it, the
/// resource's own default service handles it, whatever default service the
/// application has; a resource without one answers that the method is not
/// allowed.
pub proof fn lemma_resource_default_handles(router: RouterView, request: RequestView, i: int)
    requires
        0 <= i < router.resources.len(),
        resource_accepts(router.resources[i], request, router.case_insensitive),
        forall|k: int|
            0 <= k < i ==> !resource_accepts(
                #[trigger] router.resources[k],
                request,
                router.case_insensitive,
            ),
        forall|k: int|
            0 <= k < router.resources[i].routes.len() ==> !guards_accept(
                (#[trigger] router.resources[i].routes[k]).guards,
                request,
            ),
    ensures
        route_request(router, request) == match router.resources[i].default {
            Some(handler) => DecisionView::Dispatch {
                target: Target::ResourceDefault(handler),
                params: captures(router.resources[i].segments, request.path),
                extractors: Seq::empty(),
            },
            None => DecisionView::MethodNotAllowed,
        },
{
    lemma_first_resource_is(router.resources, request, router.case_insensitive, i);
    lemma_first_route(router.resources[i].routes, request, 0);
}

/// Where the router ignores case, two requests that differ only in the case
/// of ASCII letters in their paths are accepted by the same resource. What
/// is captured is taken from each request's own path (see
/// `lemma_captures_verbatim`).
pub proof fn lemma_ignore_case_same_resource(
    resources: Seq<ResourceView>,
    a: RequestView,
    b: RequestView,
    from: int,
)
    requires
        0 <= from,
        a.method == b.method,
        a.headers == b.headers,
        eq_ignore_case(a.path, b.path),
    ensures
        first_resource(resources, a, true, from) == first_resource(resources, b, true, from),
    decreases resources.len() - from,
{
    if from < resources.len() {
        let resource = resources[from];
        assert(guards_accept(resource.guards, a) == guards_accept(resource.guards, b)) by {
            assert forall|i: int| 0 <= i < resource.guards.len() implies guard_accepts(
                #[trigger] resource.guards[i],
                a,
            ) == guard_accepts(resource.guards[i], b) by {}
        }
        if pattern_matches(resource.segments, a.path, true) {
            lemma_ignore_case_matches(resource.segments, a.path, b.path);
        }
        if pattern_matches(resource.segments, b.path, true) {
            assert(eq_ignore_case(b.path, a.path));
            lemma_ignore_case_matches(resource.segments, b.path, a.path);
        }
        lemma_ignore_case_same_resource(resources, a, b, from + 1);
    }
}

} // verus!
