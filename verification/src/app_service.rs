//! The application as a service: the frozen application builds one service
//! for each worker, and the service takes the requests.

use vstd::prelude::*;
use vstd::string::StringSliceAdditionalSpecFns;
use crate::config::{AppConfig, AppConfigView};
use crate::data::{install, store_with, DataId, Extensions, FactoryId};
use crate::exchange::{
    dispatch, enter, finish, leave, next, outcome_from, start, Action, Event, Exchange, Outcome,
    Phase,
};
use crate::filter::FilterId;
use crate::http::{Request, Response, StatusCode};
use crate::path::segments_view;
use crate::pattern::ResourceDefView;
use crate::rmap::{url_for, ResourceMap, UrlGenerationError};
use crate::router::{Decision, Router, RouterView, TypeKey};
use crate::service::{
    after_check, checked, ErrorRenderer, Failure, InitError, Readiness, ServiceState,
};
use crate::stack::MiddlewareId;

verus! {

/// The frozen application, from which the services are built.
pub struct AppFactory<E> {
    filters: Vec<FilterId>,
    order: Vec<MiddlewareId>,
    router: Router,
    rmap: ResourceMap,
    data: Vec<(TypeKey, DataId)>,
    data_factories: Vec<(TypeKey, FactoryId)>,
    extensions: Extensions,
    renderer: E,
    config: AppConfig,
}

/// What an [`AppFactory`] stands for.
pub struct FactoryView {
    /// The filter steps, in the order in which they run.
    pub filters: Seq<FilterId>,
    /// The middleware, outermost first.
    pub order: Seq<MiddlewareId>,
    pub router: RouterView,
    /// The named resources, those registered later after the earlier ones.
    pub definitions: Seq<ResourceDefView>,
    pub data: Seq<(TypeKey, DataId)>,
    pub data_factories: Seq<(TypeKey, FactoryId)>,
    pub extensions: Map<TypeKey, DataId>,
    pub config: AppConfigView,
}

impl<E: ErrorRenderer> View for AppFactory<E> {
    type V = FactoryView;

    closed spec fn view(&self) -> FactoryView {
        FactoryView {
            filters: self.filters@,
            order: self.order@,
            router: self.router@,
            definitions: self.rmap@,
            data: self.data@,
            data_factories: self.data_factories@,
            extensions: self.extensions@,
            config: self.config@,
        }
    }
}

/// What a service built by a factory stands for: the factory, and the
/// application data that the service was built with.
pub struct ServiceView {
    pub factory: FactoryView,
    pub data: Map<TypeKey, DataId>,
}

/// The application data of a service for whose construction the data
/// factories had the outcomes `outcomes`: the values registered with the
/// application, then what the factories made, each in registration order.
pub open spec fn constructed_data(factory: FactoryView, outcomes: Seq<Option<DataId>>) -> Map<
    TypeKey,
    DataId,
> {
    install(
        store_with(Map::empty(), factory.data),
        factory.data_factories,
        outcomes,
        factory.data_factories.len() as int,
    )
}

impl<E: ErrorRenderer> AppFactory<E> {
    /// The renderer of failures.
    pub closed spec fn renderer(&self) -> E {
        self.renderer
    }

    /// A factory from the parts of an application.
    pub fn assemble(
        filters: Vec<FilterId>,
        order: Vec<MiddlewareId>,
        router: Router,
        rmap: ResourceMap,
        data: Vec<(TypeKey, DataId)>,
        data_factories: Vec<(TypeKey, FactoryId)>,
        extensions: Extensions,
        renderer: E,
        config: AppConfig,
    ) -> (factory: Self)
        ensures
            factory@ == (FactoryView {
                filters: filters@,
                order: order@,
                router: router@,
                definitions: rmap@,
                data: data@,
                data_factories: data_factories@,
                extensions: extensions@,
                config: config@,
            }),
            factory.renderer() == renderer,
    {
        AppFactory {
            filters,
            order,
            router,
            rmap,
            data,
            data_factories,
            extensions,
            renderer,
            config,
        }
    }

    /// The same factory for a server with the settings `config`.
    pub fn configured(self, config: AppConfig) -> (factory: Self)
        ensures
            factory@ == (FactoryView { config: config@, ..self@ }),
            factory.renderer() == self.renderer(),
    {
        let mut factory = self;
        factory.config = config;
        factory
    }

    /// The settings that every service of the application is built with.
    pub fn config(&self) -> (config: &AppConfig)
        ensures
            config@ == self@.config,
    {
        &self.config
    }

    /// The data factories, which run once for each service that is built.
    pub fn data_factories(&self) -> (factories: &Vec<(TypeKey, FactoryId)>)
        ensures
            factories@ == self@.data_factories,
    {
        &self.data_factories
    }

    /// Builds a service. `services_built` says whether the owner's
    /// services were all built; `outcomes` holds, at the position of each
    /// data factory, the value that it made, or nothing where it failed.
    ///
    /// A service that could not be built fails the construction. A data
    /// factory that failed does not: the service is built without that
    /// value.
    pub fn new_service(&self, services_built: bool, outcomes: &Vec<Option<DataId>>) -> (built:
        Result<AppService<'_, E>, InitError>)
        ensures
            built is Ok <==> services_built && outcomes.len() == self@.data_factories.len(),
            built is Err && !services_built ==> built == Err::<AppService<'_, E>, InitError>(
                InitError::Service,
            ),
            built is Err && services_built ==> built == Err::<AppService<'_, E>, InitError>(
                InitError::Outcomes,
            ),
            built matches Ok(service) ==> service@ == (ServiceView {
                factory: self@,
                data: constructed_data(self@, outcomes@),
            }) && service.renderer() == self.renderer() && service.state() == ServiceState::Idle,
    {
        if !services_built {
            return Err(InitError::Service);
        }
        if outcomes.len() != self.data_factories.len() {
            return Err(InitError::Outcomes);
        }
        let mut data = Extensions::new();
        data.extend(&self.data);
        data.install(&self.data_factories, outcomes);
        Ok(AppService { factory: self, data, state: ServiceState::Idle })
    }
}

/// A service of the application.
pub struct AppService<'a, E> {
    factory: &'a AppFactory<E>,
    data: Extensions,
    state: ServiceState,
}

impl<'a, E: ErrorRenderer> View for AppService<'a, E> {
    type V = ServiceView;

    closed spec fn view(&self) -> ServiceView {
        ServiceView { factory: self.factory@, data: self.data@ }
    }
}

impl<'a, E: ErrorRenderer> AppService<'a, E> {
    /// The renderer of failures.
    pub closed spec fn renderer(&self) -> E {
        self.factory.renderer
    }

    /// Where the service stands between readiness checks and calls.
    pub closed spec fn state(&self) -> ServiceState {
        self.state
    }

    /// Checks whether the service takes a call. `reports` holds the
    /// answers of the owner's services to the same question. A service
    /// that has failed stays failed, and a service with a call under way
    /// is pending.
    pub fn poll_ready(&mut self, reports: &[Readiness]) -> (r: Readiness)
        ensures
            r == checked(old(self).state(), reports@),
            final(self).state() == after_check(old(self).state(), reports@),
            final(self)@ == old(self)@,
            final(self).renderer() == old(self).renderer(),
    {
        match self.state {
            ServiceState::Failed => Readiness::Failed,
            ServiceState::Busy => Readiness::Pending,
            _ => {
                let r = Readiness::all(reports);
                self.state = match r {
                    Readiness::Ready => ServiceState::Ready,
                    Readiness::Pending => ServiceState::Idle,
                    Readiness::Failed => ServiceState::Failed,
                };
                r
            },
        }
    }

    /// Whether the last readiness check allows a call.
    pub fn is_ready(&self) -> (r: bool)
        ensures
            r == (self.state() == ServiceState::Ready),
    {
        self.state == ServiceState::Ready
    }

    /// Starts the exchange for `request`. The call uses up the readiness
    /// that the last check found; the service is busy until the exchange
    /// has ended.
    pub fn call(&mut self, request: Request) -> (started: (Exchange, Action))
        requires
            old(self).state() == ServiceState::Ready,
        ensures
            (started.0.phase, started.1@) == start(old(self)@, old(self).renderer(), request@),
            final(self).state() == if started.0.phase == Phase::Done {
                ServiceState::Idle
            } else {
                ServiceState::Busy
            },
            final(self)@ == old(self)@,
            final(self).renderer() == old(self).renderer(),
    {
        let started = if self.factory.filters.len() > 0 {
            (
                Exchange { phase: Phase::Filter(0) },
                Action::Filter { step: self.factory.filters[0], request },
            )
        } else {
            self.enter(0, request)
        };
        self.state = match started.0.phase {
            Phase::Done => ServiceState::Idle,
            _ => ServiceState::Busy,
        };
        started
    }

    /// Starts the exchange for `request` where the service is ready, and
    /// hands the request back where it is not.
    pub fn try_call(&mut self, request: Request) -> (started: Result<(Exchange, Action), Request>)
        ensures
            started is Ok <==> old(self).state() == ServiceState::Ready,
            started matches Ok(pair) ==> (pair.0.phase, pair.1@) == start(
                old(self)@,
                old(self).renderer(),
                request@,
            ) && final(self).state() == if pair.0.phase == Phase::Done {
                ServiceState::Idle
            } else {
                ServiceState::Busy
            },
            started matches Err(back) ==> back == request && final(self).state() == old(
                self,
            ).state(),
            final(self)@ == old(self)@,
            final(self).renderer() == old(self).renderer(),
    {
        if self.is_ready() {
            Ok(self.call(request))
        } else {
            Err(request)
        }
    }

    /// Continues `exchange` with what came of its last action. The event
    /// that ends the exchange ends the call: the service is idle again.
    pub fn resume(&mut self, exchange: Exchange, event: Event) -> (continued: (Exchange, Action))
        ensures
            (continued.0.phase, continued.1@) == next(
                old(self)@,
                old(self).renderer(),
                exchange.phase,
                event@,
            ),
            final(self).state() == if old(self).state() == ServiceState::Busy && exchange.phase
                != Phase::Done && continued.0.phase == Phase::Done {
                ServiceState::Idle
            } else {
                old(self).state()
            },
            final(self)@ == old(self)@,
            final(self).renderer() == old(self).renderer(),
    {
        let continued = self.step(exchange, event);
        let ends = match (exchange.phase, continued.0.phase) {
            (Phase::Done, _) => false,
            (_, Phase::Done) => true,
            _ => false,
        };
        if ends {
            self.release();
        }
        continued
    }

    /// Gives up `exchange`, whose client is gone: nothing more is asked for
    /// it, and the call that started it has ended.
    pub fn cancel(&mut self, exchange: Exchange) -> (cancelled: Exchange)
        ensures
            cancelled.phase == Phase::Done,
            final(self).state() == if old(self).state() == ServiceState::Busy && exchange.phase
                != Phase::Done {
                ServiceState::Idle
            } else {
                old(self).state()
            },
            final(self)@ == old(self)@,
            final(self).renderer() == old(self).renderer(),
    {
        match exchange.phase {
            Phase::Done => {},
            _ => {
                self.release();
            },
        }
        Exchange { phase: Phase::Done }
    }

    /// Ends the call that is under way, if there is one.
    fn release(&mut self)
        ensures
            final(self).state() == if old(self).state() == ServiceState::Busy {
                ServiceState::Idle
            } else {
                old(self).state()
            },
            final(self)@ == old(self)@,
            final(self).renderer() == old(self).renderer(),
    {
        match self.state {
            ServiceState::Busy => {
                self.state = ServiceState::Idle;
            },
            _ => {},
        }
    }

    /// The next action of `exchange` after `event`.
    fn step(&self, exchange: Exchange, event: Event) -> (continued: (Exchange, Action))
        ensures
            (continued.0.phase, continued.1@) == next(
                self@,
                self.renderer(),
                exchange.phase,
                event@,
            ),
    {
        let depth = self.factory.order.len();
        match exchange.phase {
            Phase::Filter(i) => {
                if i >= self.factory.filters.len() {
                    return self.finish(Outcome::Failure(Failure::Protocol));
                }
                match event {
                    Event::Forward(request) => {
                        if i + 1 < self.factory.filters.len() {
                            (
                                Exchange { phase: Phase::Filter(i + 1) },
                                Action::Filter { step: self.factory.filters[i + 1], request },
                            )
                        } else {
                            self.enter(0, request)
                        }
                    },
                    Event::Respond(response) => self.finish(Outcome::Response(response)),
                    Event::Fail(failure) => self.finish(Outcome::Failure(failure)),
                }
            },
            Phase::Inbound(d) => {
                if d >= depth {
                    return self.finish(Outcome::Failure(Failure::Protocol));
                }
                match event {
                    Event::Forward(request) => self.enter(d + 1, request),
                    Event::Respond(response) => self.leave(d, Outcome::Response(response)),
                    Event::Fail(failure) => self.leave(d, Outcome::Failure(failure)),
                }
            },
            Phase::Handler => self.leave(depth, outcome_from(event)),
            Phase::Outbound(d) => {
                if d >= depth {
                    return self.finish(Outcome::Failure(Failure::Protocol));
                }
                self.leave(d, outcome_from(event))
            },
            Phase::Done => (Exchange { phase: Phase::Done }, Action::Finished),
        }
    }

    /// Ends the exchange: a failure that nobody recovered is rendered.
    fn finish(&self, outcome: Outcome) -> (ended: (Exchange, Action))
        ensures
            (ended.0.phase, ended.1@) == finish(self.renderer(), outcome@),
    {
        let response = match outcome {
            Outcome::Response(response) => response,
            Outcome::Failure(failure) => self.factory.renderer.render(failure),
        };
        (Exchange { phase: Phase::Done }, Action::Reply(response))
    }

    /// Sends `outcome` out from inside the `depth` outermost layers.
    fn leave(&self, depth: usize, outcome: Outcome) -> (left: (Exchange, Action))
        ensures
            (left.0.phase, left.1@) == leave(self@, self.renderer(), depth as int, outcome@),
    {
        if 0 < depth && depth <= self.factory.order.len() {
            (
                Exchange { phase: Phase::Outbound(depth - 1) },
                Action::Outbound { layer: self.factory.order[depth - 1], outcome },
            )
        } else {
            self.finish(outcome)
        }
    }

    /// Sends `request` further in from inside the `depth` outermost layers.
    fn enter(&self, depth: usize, request: Request) -> (entered: (Exchange, Action))
        ensures
            (entered.0.phase, entered.1@) == enter(
                self@,
                self.renderer(),
                depth as int,
                request@,
            ),
    {
        if depth < self.factory.order.len() {
            (
                Exchange { phase: Phase::Inbound(depth) },
                Action::Inbound { layer: self.factory.order[depth], request },
            )
        } else {
            self.dispatch(request)
        }
    }

    /// Routes `request` and looks up what its handler asks for.
    fn dispatch(&self, request: Request) -> (dispatched: (Exchange, Action))
        ensures
            (dispatched.0.phase, dispatched.1@) == dispatch(self@, self.renderer(), request@),
    {
        let depth = self.factory.order.len();
        match self.factory.router.recognize(&request) {
            Decision::Dispatch { target, params, extractors } => {
                match self.data.resolve(&extractors) {
                    Ok(data) => (
                        Exchange { phase: Phase::Handler },
                        Action::Handle { target, request, params, data },
                    ),
                    Err(missing) => self.leave(
                        depth,
                        Outcome::Failure(Failure::MissingData(missing)),
                    ),
                }
            },
            Decision::MethodNotAllowed => self.leave(
                depth,
                Outcome::Response(Response::new(StatusCode::method_not_allowed())),
            ),
            Decision::NotFound => self.leave(
                depth,
                Outcome::Response(Response::new(StatusCode::not_found())),
            ),
        }
    }

    /// The application data of the type `key`.
    pub fn data(&self, key: TypeKey) -> (found: Result<DataId, Failure>)
        ensures
            found == if self@.data.contains_key(key) {
                Ok::<DataId, Failure>(self@.data[key])
            } else {
                Err::<DataId, Failure>(Failure::MissingData(key))
            },
    {
        match self.data.get(key) {
            Some(value) => Ok(value),
            None => Err(Failure::MissingData(key)),
        }
    }

    /// What the application's extensions hold under `key`.
    pub fn app_data(&self, key: TypeKey) -> (found: Option<DataId>)
        ensures
            found == if self@.factory.extensions.contains_key(key) {
                Some(self@.factory.extensions[key])
            } else {
                None::<DataId>
            },
    {
        self.factory.extensions.get(key)
    }

    /// The settings that the service was built with.
    pub fn config(&self) -> (config: &AppConfig)
        ensures
            config@ == self@.factory.config,
    {
        &self.factory.config
    }

    /// Generates the path of the resource that was registered under
    /// `name`, with `elements` in place of its dynamic segments.
    pub fn url_for(&self, name: &str, elements: &Vec<Vec<u8>>) -> (generated: Result<
        Vec<u8>,
        UrlGenerationError,
    >)
        ensures
            match generated {
                Ok(path) => url_for(
                    self@.factory.definitions,
                    name.spec_bytes(),
                    segments_view(elements@),
                ) == Ok::<Seq<u8>, UrlGenerationError>(path@),
                Err(error) => url_for(
                    self@.factory.definitions,
                    name.spec_bytes(),
                    segments_view(elements@),
                ) == Err::<Seq<u8>, UrlGenerationError>(error),
            },
    {
        self.factory.rmap.url_for(name.as_bytes(), elements)
    }
}

} // verus!
