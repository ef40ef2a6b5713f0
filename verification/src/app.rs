//! The application builder.
//!
//! An application is put together from resources, a default service,
//! middleware, filters and application data. Every call takes the builder
//! and gives back the builder with one more registration; `finish` freezes
//! it into the factory that builds the application's services.

use vstd::prelude::*;
use vstd::string::StringSliceAdditionalSpecFns;
use crate::app_service::{AppFactory, FactoryView};
use crate::config::{
    default_config, external_definition, resource_for, route_resource, AppConfig, AppConfigView,
    ServiceConfig,
};
use crate::data::{DataId, Extensions, FactoryId};
use crate::filter::{AndThen, Filter, FilterChain, FilterId};
use crate::pattern::{ResourceDef, ResourceDefView};
use crate::rmap::{definitions_view, ResourceMap};
use crate::router::{
    resources_view, HandlerId, Resource, ResourceView, Route, Router, RouterView, TypeKey,
};
use crate::service::{DefaultError, ErrorRenderer};
use crate::stack::{Identity, Layers, MiddlewareId, Stack, Transform};

verus! {

/// The builder of an application.
pub struct App<M, F, E> {
    middleware: M,
    filter: F,
    services: Vec<Resource>,
    default: Option<HandlerId>,
    data: Vec<(TypeKey, DataId)>,
    data_factories: Vec<(TypeKey, FactoryId)>,
    external: Vec<ResourceDef>,
    extensions: Extensions,
    error_renderer: E,
    case_insensitive: bool,
}

/// What an [`App`] stands for: its registrations, each kind in the order
/// in which it was made, but for the middleware, which is listed from the
/// outermost layer to the innermost.
pub struct AppView {
    pub order: Seq<MiddlewareId>,
    pub filters: Seq<FilterId>,
    pub services: Seq<ResourceView>,
    pub default: Option<HandlerId>,
    pub data: Seq<(TypeKey, DataId)>,
    pub data_factories: Seq<(TypeKey, FactoryId)>,
    pub external: Seq<ResourceDefView>,
    pub extensions: Map<TypeKey, DataId>,
    pub case_insensitive: bool,
}

/// The application without any registration.
pub open spec fn empty_app() -> AppView {
    AppView {
        order: Seq::empty(),
        filters: Seq::empty(),
        services: Seq::empty(),
        default: None,
        data: Seq::empty(),
        data_factories: Seq::empty(),
        external: Seq::empty(),
        extensions: Map::empty(),
        case_insensitive: false,
    }
}

impl<M: Transform, F: FilterChain, E: ErrorRenderer> View for App<M, F, E> {
    type V = AppView;

    closed spec fn view(&self) -> AppView {
        AppView {
            order: self.middleware.order(),
            filters: self.filter.steps(),
            services: resources_view(self.services@),
            default: self.default,
            data: self.data@,
            data_factories: self.data_factories@,
            external: definitions_view(self.external@),
            extensions: self.extensions@,
            case_insensitive: self.case_insensitive,
        }
    }
}

impl App<Identity, Filter, DefaultError> {
    /// An application without registrations that renders failures with
    /// [`DefaultError`].
    pub fn new() -> (app: Self)
        ensures
            app@ == empty_app(),
            app.renderer() == DefaultError,
    {
        App::with(DefaultError)
    }
}

impl<E: ErrorRenderer> App<Identity, Filter, E> {
    /// An application without registrations that renders failures with
    /// `err`.
    pub fn with(err: E) -> (app: Self)
        ensures
            app@ == empty_app(),
            app.renderer() == err,
    {
        let app = App {
            middleware: Identity,
            filter: Filter::new(),
            data: Vec::new(),
            data_factories: Vec::new(),
            services: Vec::new(),
            default: None,
            external: Vec::new(),
            extensions: Extensions::new(),
            error_renderer: err,
            case_insensitive: false,
        };
        assert(resources_view(app.services@) =~= Seq::empty());
        assert(definitions_view(app.external@) =~= Seq::empty());
        app
    }
}

/// The named definitions among the first `n` resources, in their order.
pub open spec fn named_definitions(resources: Seq<ResourceView>, n: int) -> Seq<ResourceDefView>
    decreases n,
{
    if n <= 0 {
        Seq::empty()
    } else {
        let before = named_definitions(resources, n - 1);
        if resources[n - 1].name.len() > 0 {
            before.push(
                ResourceDefView {
                    name: resources[n - 1].name,
                    segments: resources[n - 1].segments,
                },
            )
        } else {
            before
        }
    }
}

/// The factory that an application freezes into.
pub open spec fn frozen(app: AppView, config: AppConfigView) -> FactoryView {
    FactoryView {
        filters: app.filters,
        order: app.order,
        router: RouterView {
            resources: app.services,
            default: app.default,
            case_insensitive: app.case_insensitive,
        },
        definitions: named_definitions(app.services, app.services.len() as int) + app.external,
        data: app.data,
        data_factories: app.data_factories,
        extensions: app.extensions,
        config,
    }
}

impl<M: Transform, F: FilterChain, E: ErrorRenderer> App<M, F, E> {
    /// The renderer of failures.
    pub closed spec fn renderer(&self) -> E {
        self.error_renderer
    }

    /// Registers application data of the type `key`. Every service that is
    /// built from the application has the value from the start.
    pub fn data(self, key: TypeKey, value: DataId) -> (app: Self)
        ensures
            app@ == (AppView { data: self@.data.push((key, value)), ..self@ }),
            app.renderer() == self.renderer(),
    {
        let mut app = self;
        app.data.push((key, value));
        app
    }

    /// Registers a factory of application data of the type `key`. The
    /// factory runs once for each service that is built from the
    /// application, while the service is built.
    pub fn data_factory(self, key: TypeKey, factory: FactoryId) -> (app: Self)
        ensures
            app@ == (AppView {
                data_factories: self@.data_factories.push((key, factory)),
                ..self@
            }),
            app.renderer() == self.renderer(),
    {
        let mut app = self;
        app.data_factories.push((key, factory));
        app
    }

    /// Puts `value` under `key` in the application's extensions, in place
    /// of what was there.
    pub fn app_data(self, key: TypeKey, value: DataId) -> (app: Self)
        ensures
            app@ == (AppView { extensions: self@.extensions.insert(key, value), ..self@ }),
            app.renderer() == self.renderer(),
    {
        let mut app = self;
        app.extensions.insert(key, value);
        app
    }

    /// Adds the registrations of `cfg` after those of the application.
    pub fn configure(self, cfg: ServiceConfig) -> (app: Self)
        ensures
            app@ == (AppView {
                data: self@.data + cfg@.data,
                services: self@.services + cfg@.services,
                external: self@.external + cfg@.external,
                ..self@
            }),
            app.renderer() == self.renderer(),
    {
        let mut app = self;
        let mut cfg = cfg;
        let ghost added = cfg;
        app.data.append(&mut cfg.data);
        app.services.append(&mut cfg.services);
        app.external.append(&mut cfg.external);
        assert(resources_view(app.services@) =~= resources_view(self.services@) + resources_view(
            added.services@,
        ));
        assert(definitions_view(app.external@) =~= definitions_view(self.external@)
            + definitions_view(added.external@));
        app
    }

    /// Registers a route for `path`: a resource of its own, gated by the
    /// route's guards, so that several routes can share one path.
    pub fn route(self, path: &str, route: Route) -> (app: Self)
        ensures
            app@ == (AppView {
                services: self@.services.push(route_resource(path.spec_bytes(), route@)),
                ..self@
            }),
            app.renderer() == self.renderer(),
    {
        self.service(resource_for(path, route))
    }

    /// Registers a resource after those that are there.
    pub fn service(self, resource: Resource) -> (app: Self)
        ensures
            app@ == (AppView { services: self@.services.push(resource@), ..self@ }),
            app.renderer() == self.renderer(),
    {
        let mut app = self;
        app.services.push(resource);
        assert(resources_view(app.services@) =~= resources_view(self.services@).push(resource@));
        app
    }

    /// Sets the service that handles what no resource accepts.
    pub fn default_service(self, handler: HandlerId) -> (app: Self)
        ensures
            app@ == (AppView { default: Some(handler), ..self@ }),
            app.renderer() == self.renderer(),
    {
        let mut app = self;
        app.default = Some(handler);
        app
    }

    /// Registers an external resource: a name for a pattern from which
    /// paths are generated, and which no request is ever matched against.
    pub fn external_resource(self, name: &str, url: &str) -> (app: Self)
        ensures
            app@ == (AppView {
                external: self@.external.push(
                    external_definition(name.spec_bytes(), url.spec_bytes()),
                ),
                ..self@
            }),
            app.renderer() == self.renderer(),
    {
        let mut app = self;
        let definition = ResourceDef::new(url).named(name);
        app.external.push(definition);
        assert(definitions_view(app.external@) =~= definitions_view(self.external@).push(
            definition@,
        ));
        app
    }

    /// Registers a filter after those that are there.
    pub fn filter<U: FilterChain>(self, filter: U) -> (app: App<M, AndThen<F, U>, E>)
        ensures
            app@ == (AppView { filters: self@.filters + filter.steps(), ..self@ }),
            app.renderer() == self.renderer(),
    {
        App {
            filter: AndThen::new(self.filter, filter),
            middleware: self.middleware,
            data: self.data,
            data_factories: self.data_factories,
            services: self.services,
            default: self.default,
            external: self.external,
            extensions: self.extensions,
            error_renderer: self.error_renderer,
            case_insensitive: self.case_insensitive,
        }
    }

    /// Wraps the application in a middleware, outside of the middleware
    /// that is there.
    pub fn wrap<U: Transform>(self, mw: U) -> (app: App<Stack<M, U>, F, E>)
        ensures
            app@ == (AppView { order: mw.order() + self@.order, ..self@ }),
            app.renderer() == self.renderer(),
    {
        App {
            middleware: Stack::new(self.middleware, mw),
            filter: self.filter,
            data: self.data,
            data_factories: self.data_factories,
            services: self.services,
            default: self.default,
            external: self.external,
            extensions: self.extensions,
            error_renderer: self.error_renderer,
            case_insensitive: self.case_insensitive,
        }
    }

    /// Makes the router compare static segments without regard to the case
    /// of ASCII letters.
    pub fn case_insensitive_routing(self) -> (app: Self)
        ensures
            app@ == (AppView { case_insensitive: true, ..self@ }),
            app.renderer() == self.renderer(),
    {
        let mut app = self;
        app.case_insensitive = true;
        app
    }

    /// Freezes the application into a factory for a server with the
    /// default settings.
    pub fn finish(self) -> (factory: AppFactory<E>)
        ensures
            factory@ == frozen(self@, default_config()),
            factory.renderer() == self.renderer(),
    {
        self.into_factory()
    }

    /// Freezes the application into a factory for a server with the
    /// settings `cfg`.
    pub fn with_config(self, cfg: AppConfig) -> (factory: AppFactory<E>)
        ensures
            factory@ == frozen(self@, cfg@),
            factory.renderer() == self.renderer(),
    {
        self.into_factory().configured(cfg)
    }

    /// Freezes the application: the middleware is laid around the router
    /// from the innermost layer to the outermost, the filters are put in
    /// front, and the named resources go into the map from which paths are
    /// generated, the external ones last.
    pub fn into_factory(self) -> (factory: AppFactory<E>)
        ensures
            factory@ == frozen(self@, default_config()),
            factory.renderer() == self.renderer(),
    {
        let order = self.middleware.new_transform(Layers::bare()).into_order();
        assert(order@ =~= self.middleware.order());
        let mut filters: Vec<FilterId> = Vec::new();
        self.filter.collect(&mut filters);
        assert(filters@ =~= self.filter.steps());
        let ghost resources = resources_view(self.services@);
        let ghost external = definitions_view(self.external@);
        let mut rmap = ResourceMap::new();
        let mut i: usize = 0;
        while i < self.services.len()
            invariant
                i <= self.services.len(),
                resources == resources_view(self.services@),
                rmap@ == named_definitions(resources, i as int),
            decreases self.services.len() - i,
        {
            assert(resources[i as int] == self.services@[i as int]@);
            match self.services[i].named_definition() {
                Some(definition) => {
                    rmap.add(definition);
                },
                None => {},
            }
            i += 1;
        }
        let mut external = self.external;
        let ghost named = rmap@;
        let ghost given = external@;
        let mut k: usize = 0;
        while k < external.len()
            invariant
                k <= external.len(),
                external@ == given,
                rmap@ == named + definitions_view(given).take(k as int),
            decreases external.len() - k,
        {
            rmap.add(external[k].duplicate());
            assert(definitions_view(given)[k as int] == given[k as int]@);
            k += 1;
            assert(rmap@ =~= named + definitions_view(given).take(k as int));
        }
        assert(definitions_view(given).take(external.len() as int) =~= definitions_view(given));
        AppFactory::assemble(
            filters,
            order,
            Router::new(self.services, self.default, self.case_insensitive),
            rmap,
            self.data,
            self.data_factories,
            self.extensions,
            self.error_renderer,
            AppConfig::default(),
        )
    }
}

/// An external resource takes no part in routing: the router of an
/// application is the same with it and without it.
pub proof fn lemma_external_resource_not_routed(
    app: AppView,
    definition: ResourceDefView,
    config: AppConfigView,
)
    ensures
        frozen(AppView { external: app.external.push(definition), ..app }, config).router
            == frozen(app, config).router,
        frozen(AppView { external: app.external.push(definition), ..app }, config).definitions
            == frozen(app, config).definitions.push(definition),
{
    let named = named_definitions(app.services, app.services.len() as int);
    assert(named + app.external.push(definition) =~= (named + app.external).push(definition));
}

/// Middleware that is registered later lies further out: after `a` and
/// then `b` were wrapped around an application, the frozen application has
/// `b` as its outermost layer, `a` next, and inside them what was there.
pub proof fn lemma_wrap_order(app: AppView, a: MiddlewareId, b: MiddlewareId, config: AppConfigView)
    ensures
        ({
            let first = AppView { order: seq![a] + app.order, ..app };
            let second = AppView { order: seq![b] + first.order, ..first };
            frozen(second, config).order == seq![b, a] + app.order
        }),
{
    assert(seq![b] + (seq![a] + app.order) =~= seq![b, a] + app.order);
}

} // verus!
