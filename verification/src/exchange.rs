//! One request on its way through the application.
//!
//! A request goes through the filters, then inwards through the middleware
//! to the router and the handler that the router picks, and its response
//! comes back outwards through the middleware. The filters, the middleware
//! and the handlers are the owner's code. The service does not run them: it
//! says which of them is next, and is told what came of it.

use vstd::prelude::*;
use crate::app_service::ServiceView;
use crate::data::{resolve, DataId};
use crate::filter::FilterId;
use crate::http::{bare_response, Request, RequestView, Response, ResponseView};
use crate::pattern::{params_view, Param, ParamView};
use crate::router::{
    lemma_unmatched_request_falls_back, resource_accepts, route_request, DecisionView, Target,
    TypeKey,
};
use crate::service::{DefaultError, ErrorRenderer, Failure};
use crate::stack::MiddlewareId;

verus! {

/// What travels outwards through the middleware: a response, or the
/// failure that took its place.
#[derive(Clone, Debug, PartialEq, Eq)]
pub enum Outcome {
    Response(Response),
    Failure(Failure),
}

/// What an [`Outcome`] stands for.
pub enum OutcomeView {
    Response(ResponseView),
    Failure(Failure),
}

impl View for Outcome {
    type V = OutcomeView;

    open spec fn view(&self) -> OutcomeView {
        match self {
            Outcome::Response(response) => OutcomeView::Response(response@),
            Outcome::Failure(failure) => OutcomeView::Failure(*failure),
        }
    }
}

/// What the driver of a service is to do next.
#[derive(Clone, Debug, PartialEq, Eq)]
pub enum Action {
    /// Run a filter step on the request.
    Filter { step: FilterId, request: Request },
    /// Let a middleware see the request on its way in.
    Inbound { layer: MiddlewareId, request: Request },
    /// Run a handler on the request, with what the router captured from
    /// the path and the application data that the handler asked for.
    Handle { target: Target, request: Request, params: Vec<Param>, data: Vec<DataId> },
    /// Let a middleware see the outcome on its way out.
    Outbound { layer: MiddlewareId, outcome: Outcome },
    /// Send the response to the client. The exchange is over.
    Reply(Response),
    /// Nothing: the exchange was over before.
    Finished,
}

/// What an [`Action`] stands for.
pub enum ActionView {
    Filter { step: FilterId, request: RequestView },
    Inbound { layer: MiddlewareId, request: RequestView },
    Handle { target: Target, request: RequestView, params: Seq<ParamView>, data: Seq<DataId> },
    Outbound { layer: MiddlewareId, outcome: OutcomeView },
    Reply(ResponseView),
    Finished,
}

impl View for Action {
    type V = ActionView;

    open spec fn view(&self) -> ActionView {
        match self {
            Action::Filter { step, request } => ActionView::Filter {
                step: *step,
                request: request@,
            },
            Action::Inbound { layer, request } => ActionView::Inbound {
                layer: *layer,
                request: request@,
            },
            Action::Handle { target, request, params, data } => ActionView::Handle {
                target: *target,
                request: request@,
                params: params_view(params@),
                data: data@,
            },
            Action::Outbound { layer, outcome } => ActionView::Outbound {
                layer: *layer,
                outcome: outcome@,
            },
            Action::Reply(response) => ActionView::Reply(response@),
            Action::Finished => ActionView::Finished,
        }
    }
}

/// What came of the last action.
#[derive(Clone, Debug, PartialEq, Eq)]
pub enum Event {
    /// The filter or middleware hands the request on.
    Forward(Request),
    /// The filter, middleware or handler answers with a response.
    Respond(Response),
    /// The filter, middleware or handler failed.
    Fail(Failure),
}

/// What an [`Event`] stands for.
pub enum EventView {
    Forward(RequestView),
    Respond(ResponseView),
    Fail(Failure),
}

impl View for Event {
    type V = EventView;

    open spec fn view(&self) -> EventView {
        match self {
            Event::Forward(request) => EventView::Forward(request@),
            Event::Respond(response) => EventView::Respond(response@),
            Event::Fail(failure) => EventView::Fail(*failure),
        }
    }
}

/// Where an exchange stands: what its last action asked for.
#[derive(Clone, Copy, Debug, PartialEq, Eq, Structural)]
pub enum Phase {
    /// The filter step at this position runs.
    Filter(usize),
    /// The middleware at this position, counted from the outermost, sees
    /// the request.
    Inbound(usize),
    /// The handler runs, inside all the middleware.
    Handler,
    /// The middleware at this position, counted from the outermost, sees
    /// the outcome.
    Outbound(usize),
    /// The response was sent.
    Done,
}

/// One request on its way through a service.
#[derive(Clone, Copy, Debug, PartialEq, Eq)]
pub struct Exchange {
    pub phase: Phase,
}

/// The end of an exchange: the response goes to the client as it is, and
/// a failure as the response that the renderer makes of it.
pub open spec fn finish<E: ErrorRenderer>(renderer: E, outcome: OutcomeView) -> (
    Phase,
    ActionView,
) {
    (
        Phase::Done,
        ActionView::Reply(
            match outcome {
                OutcomeView::Response(response) => response,
                OutcomeView::Failure(failure) => renderer.rendered(failure),
            },
        ),
    )
}

/// The way out from inside the `depth` outermost layers: through the
/// innermost of them, or to the client where there is none.
pub open spec fn leave<E: ErrorRenderer>(
    service: ServiceView,
    renderer: E,
    depth: int,
    outcome: OutcomeView,
) -> (Phase, ActionView) {
    if 0 < depth <= service.factory.order.len() {
        (
            Phase::Outbound((depth - 1) as usize),
            ActionView::Outbound { layer: service.factory.order[depth - 1], outcome },
        )
    } else {
        finish(renderer, outcome)
    }
}

/// What the service does with a request that has passed all the
/// middleware: the router decides; the handler that it picks gets the
/// application data that it asks for, and where the store lacks some of
/// it, the request fails instead; where the router picks no handler, its
/// answer goes out as a response.
pub open spec fn dispatch<E: ErrorRenderer>(
    service: ServiceView,
    renderer: E,
    request: RequestView,
) -> (Phase, ActionView) {
    let depth = service.factory.order.len() as int;
    match route_request(service.factory.router, request) {
        DecisionView::Dispatch { target, params, extractors } => match resolve(
            service.data,
            extractors,
        ) {
            Ok(data) => (Phase::Handler, ActionView::Handle { target, request, params, data }),
            Err(missing) => leave(
                service,
                renderer,
                depth,
                OutcomeView::Failure(Failure::MissingData(missing)),
            ),
        },
        DecisionView::MethodNotAllowed => leave(
            service,
            renderer,
            depth,
            OutcomeView::Response(bare_response(405)),
        ),
        DecisionView::NotFound => leave(
            service,
            renderer,
            depth,
            OutcomeView::Response(bare_response(404)),
        ),
    }
}

/// The way in from inside the `depth` outermost layers: into the next
/// layer, or to the router where there is none.
pub open spec fn enter<E: ErrorRenderer>(
    service: ServiceView,
    renderer: E,
    depth: int,
    request: RequestView,
) -> (Phase, ActionView) {
    if 0 <= depth < service.factory.order.len() {
        (
            Phase::Inbound(depth as usize),
            ActionView::Inbound { layer: service.factory.order[depth], request },
        )
    } else {
        dispatch(service, renderer, request)
    }
}

/// The first action for a request: the first filter step, or the way in
/// where there is no filter.
pub open spec fn start<E: ErrorRenderer>(
    service: ServiceView,
    renderer: E,
    request: RequestView,
) -> (Phase, ActionView) {
    if service.factory.filters.len() > 0 {
        (Phase::Filter(0), ActionView::Filter { step: service.factory.filters[0], request })
    } else {
        enter(service, renderer, 0, request)
    }
}

/// The next action of an exchange in `phase` after `event`.
///
/// A filter that hands the request on passes it to the next filter, the
/// last one to the middleware. A filter that answers or fails ends the
/// exchange. A middleware that hands the request on passes it inwards; one
/// that answers or fails sends the outcome out through the layers outside
/// of it. What the handler or a middleware on the way out gives goes out
/// through the next layer. An event that the phase does not expect counts
/// as a failure.
pub open spec fn next<E: ErrorRenderer>(
    service: ServiceView,
    renderer: E,
    phase: Phase,
    event: EventView,
) -> (Phase, ActionView) {
    let filters = service.factory.filters;
    let depth = service.factory.order.len() as int;
    match phase {
        Phase::Filter(i) => if i >= filters.len() {
            finish(renderer, OutcomeView::Failure(Failure::Protocol))
        } else {
            match event {
                EventView::Forward(request) => if i + 1 < filters.len() {
                    (
                        Phase::Filter((i + 1) as usize),
                        ActionView::Filter { step: filters[i + 1], request },
                    )
                } else {
                    enter(service, renderer, 0, request)
                },
                EventView::Respond(response) => finish(renderer, OutcomeView::Response(response)),
                EventView::Fail(failure) => finish(renderer, OutcomeView::Failure(failure)),
            }
        },
        Phase::Inbound(d) => if d >= depth {
            finish(renderer, OutcomeView::Failure(Failure::Protocol))
        } else {
            match event {
                EventView::Forward(request) => enter(service, renderer, d + 1, request),
                EventView::Respond(response) => leave(
                    service,
                    renderer,
                    d as int,
                    OutcomeView::Response(response),
                ),
                EventView::Fail(failure) => leave(
                    service,
                    renderer,
                    d as int,
                    OutcomeView::Failure(failure),
                ),
            }
        },
        Phase::Handler => leave(service, renderer, depth, outcome_of(event)),
        Phase::Outbound(d) => if d >= depth {
            finish(renderer, OutcomeView::Failure(Failure::Protocol))
        } else {
            leave(service, renderer, d as int, outcome_of(event))
        },
        Phase::Done => (Phase::Done, ActionView::Finished),
    }
}

/// The outcome that a handler, or a middleware on the way out, gave.
pub open spec fn outcome_of(event: EventView) -> OutcomeView {
    match event {
        EventView::Respond(response) => OutcomeView::Response(response),
        EventView::Fail(failure) => OutcomeView::Failure(failure),
        EventView::Forward(_) => OutcomeView::Failure(Failure::Protocol),
    }
}

/// The outcome that a handler, or a middleware on the way out, gave.
pub fn outcome_from(event: Event) -> (outcome: Outcome)
    ensures
        outcome@ == outcome_of(event@),
{
    match event {
        Event::Respond(response) => Outcome::Response(response),
        Event::Fail(failure) => Outcome::Failure(failure),
        Event::Forward(_) => Outcome::Failure(Failure::Protocol),
    }
}

/// The actions of an exchange that is in `phase` and is then told
/// `events`, one after the other.
pub open spec fn run<E: ErrorRenderer>(
    service: ServiceView,
    renderer: E,
    phase: Phase,
    events: Seq<EventView>,
) -> Seq<ActionView>
    decreases events.len(),
{
    if events.len() == 0 {
        Seq::empty()
    } else {
        let (then, action) = next(service, renderer, phase, events[0]);
        seq![action] + run(service, renderer, then, events.skip(1))
    }
}

/// An upper bound on the number of events that an exchange in `phase`
/// still takes before its response is sent.
pub open spec fn steps_left(service: ServiceView, phase: Phase) -> nat {
    let filters = service.factory.filters.len();
    let depth = service.factory.order.len();
    match phase {
        Phase::Filter(i) => if i < filters {
            (filters - i + 2 * depth + 3) as nat
        } else {
            2 * depth + 3
        },
        Phase::Inbound(d) => if d < depth {
            (depth - d + depth + 2) as nat
        } else {
            depth + 2
        },
        Phase::Handler => depth + 1,
        Phase::Outbound(d) => if d < depth {
            (d + 1) as nat
        } else {
            1
        },
        Phase::Done => 0,
    }
}

/// Every exchange comes to its end: each event brings it closer, and a
/// service with `f` filter steps and `n` layers of middleware sends the
/// response after `f + 2 n + 3` events at most.
pub proof fn lemma_exchange_progress<E: ErrorRenderer>(
    service: ServiceView,
    renderer: E,
    phase: Phase,
    event: EventView,
    request: RequestView,
)
    requires
        service.factory.filters.len() <= usize::MAX,
        service.factory.order.len() <= usize::MAX,
    ensures
        phase != Phase::Done ==> steps_left(service, next(service, renderer, phase, event).0)
            < steps_left(service, phase),
        steps_left(service, start(service, renderer, request).0) <= service.factory.filters.len()
            + 2 * service.factory.order.len() + 3,
{
}

/// An exchange sends exactly one response: the action that ends it is the
/// reply, and no other action is one.
pub proof fn lemma_reply_ends_exchange<E: ErrorRenderer>(
    service: ServiceView,
    renderer: E,
    phase: Phase,
    event: EventView,
    request: RequestView,
)
    ensures
        phase != Phase::Done ==> (next(service, renderer, phase, event).0 == Phase::Done <==> next(
            service,
            renderer,
            phase,
            event,
        ).1 is Reply),
        phase == Phase::Done ==> next(service, renderer, phase, event) == (
            Phase::Done,
            ActionView::Finished,
        ),
        start(service, renderer, request).0 == Phase::Done <==> start(
            service,
            renderer,
            request,
        ).1 is Reply,
{
}

/// After the response was sent nothing is asked of anybody any more.
pub proof fn lemma_nothing_after_reply<E: ErrorRenderer>(
    service: ServiceView,
    renderer: E,
    events: Seq<EventView>,
)
    ensures
        run(service, renderer, Phase::Done, events).len() == events.len(),
        forall|k: int|
            0 <= k < events.len() ==> #[trigger] run(service, renderer, Phase::Done, events)[k]
                == ActionView::Finished,
    decreases events.len(),
{
    if events.len() > 0 {
        lemma_nothing_after_reply(service, renderer, events.skip(1));
        let rest = run(service, renderer, Phase::Done, events.skip(1));
        let all = run(service, renderer, Phase::Done, events);
        assert forall|k: int| 0 <= k < events.len() implies #[trigger] all[k]
            == ActionView::Finished by {
            if k > 0 {
                assert(all[k] == rest[k - 1]);
            }
        }
    }
}

/// A filter that answers a request itself ends the exchange on the spot:
/// its response is the reply, and whatever events follow, neither a
/// middleware nor the router nor a handler is ever asked.
pub proof fn lemma_filter_response_short_circuits<E: ErrorRenderer>(
    service: ServiceView,
    renderer: E,
    i: usize,
    response: ResponseView,
    events: Seq<EventView>,
)
    requires
        i < service.factory.filters.len(),
    ensures
        next(service, renderer, Phase::Filter(i), EventView::Respond(response)) == (
            Phase::Done,
            ActionView::Reply(response),
        ),
        run(
            service,
            renderer,
            Phase::Filter(i),
            seq![EventView::Respond(response)] + events,
        ).len() == events.len() + 1,
        run(service, renderer, Phase::Filter(i), seq![EventView::Respond(response)] + events)[0]
            == ActionView::Reply(response),
        forall|k: int|
            1 <= k <= events.len() ==> #[trigger] run(
                service,
                renderer,
                Phase::Filter(i),
                seq![EventView::Respond(response)] + events,
            )[k] == ActionView::Finished,
{
    let all = seq![EventView::Respond(response)] + events;
    assert(all.skip(1) =~= events);
    lemma_nothing_after_reply(service, renderer, events);
    let rest = run(service, renderer, Phase::Done, events);
    let actions = run(service, renderer, Phase::Filter(i), all);
    assert forall|k: int| 1 <= k <= events.len() implies #[trigger] actions[k]
        == ActionView::Finished by {
        assert(actions[k] == rest[k - 1]);
    }
}

/// The filters run in the order in which they were registered: a filter
/// that hands the request on passes it to the next one, and the last one
/// to the outermost middleware or, without middleware, to the router.
pub proof fn lemma_filters_in_order<E: ErrorRenderer>(
    service: ServiceView,
    renderer: E,
    i: usize,
    request: RequestView,
)
    requires
        i < service.factory.filters.len(),
    ensures
        next(service, renderer, Phase::Filter(i), EventView::Forward(request)) == if i + 1
            < service.factory.filters.len() {
            (
                Phase::Filter((i + 1) as usize),
                ActionView::Filter { step: service.factory.filters[i + 1], request },
            )
        } else {
            enter(service, renderer, 0, request)
        },
{
}

/// On the way in the layers see the request from the outermost to the
/// innermost, on the way out they see the outcome from the innermost to
/// the outermost.
pub proof fn lemma_layers_in_order<E: ErrorRenderer>(
    service: ServiceView,
    renderer: E,
    d: usize,
    request: RequestView,
    event: EventView,
)
    requires
        d < service.factory.order.len(),
    ensures
        enter(service, renderer, d as int, request) == (
            Phase::Inbound(d),
            ActionView::Inbound { layer: service.factory.order[d as int], request },
        ),
        next(service, renderer, Phase::Inbound(d), EventView::Forward(request)) == enter(
            service,
            renderer,
            d + 1,
            request,
        ),
        leave(service, renderer, d + 1, outcome_of(event)) == (
            Phase::Outbound(d),
            ActionView::Outbound { layer: service.factory.order[d as int], outcome: outcome_of(event) },
        ),
        next(service, renderer, Phase::Outbound(d), event) == leave(
            service,
            renderer,
            d as int,
            outcome_of(event),
        ),
        next(service, renderer, Phase::Handler, event) == leave(
            service,
            renderer,
            service.factory.order.len() as int,
            outcome_of(event),
        ),
{
}

/// Of two middlewares the one that was wrapped around the application
/// later is the outer one: with `a` wrapped first and `b` second, around
/// whatever was there, and no filter in front, the request is seen by `b`
/// and then by `a`, and the outcome by `a` and then by `b`, whose answer is
/// the reply.
pub proof fn lemma_two_layers<E: ErrorRenderer>(
    service: ServiceView,
    renderer: E,
    a: MiddlewareId,
    b: MiddlewareId,
    inside: Seq<MiddlewareId>,
    request: RequestView,
    seen_by_b: RequestView,
    outcome: OutcomeView,
    from_a: ResponseView,
    from_b: ResponseView,
)
    requires
        service.factory.filters.len() == 0,
        service.factory.order == seq![b, a] + inside,
    ensures
        start(service, renderer, request) == (
            Phase::Inbound(0),
            ActionView::Inbound { layer: b, request },
        ),
        next(service, renderer, Phase::Inbound(0), EventView::Forward(seen_by_b)) == (
            Phase::Inbound(1),
            ActionView::Inbound { layer: a, request: seen_by_b },
        ),
        leave(service, renderer, 2, outcome) == (
            Phase::Outbound(1),
            ActionView::Outbound { layer: a, outcome },
        ),
        next(service, renderer, Phase::Outbound(1), EventView::Respond(from_a)) == (
            Phase::Outbound(0),
            ActionView::Outbound { layer: b, outcome: OutcomeView::Response(from_a) },
        ),
        next(service, renderer, Phase::Outbound(0), EventView::Respond(from_b)) == (
            Phase::Done,
            ActionView::Reply(from_b),
        ),
        inside.len() == 0 ==> next(service, renderer, Phase::Handler, EventView::Respond(from_a))
            == (
            Phase::Outbound(1),
            ActionView::Outbound { layer: a, outcome: OutcomeView::Response(from_a) },
        ),
{
}

/// A request that no resource accepts, in an application without default
/// service, is answered as not found; with a default service, that
/// service handles it.
pub proof fn lemma_unmatched_request<E: ErrorRenderer>(
    service: ServiceView,
    renderer: E,
    request: RequestView,
)
    requires
        forall|i: int|
            0 <= i < service.factory.router.resources.len() ==> !resource_accepts(
                #[trigger] service.factory.router.resources[i],
                request,
                service.factory.router.case_insensitive,
            ),
    ensures
        dispatch(service, renderer, request) == match service.factory.router.default {
            Some(handler) => (
                Phase::Handler,
                ActionView::Handle {
                    target: Target::AppDefault(handler),
                    request,
                    params: Seq::empty(),
                    data: Seq::empty(),
                },
            ),
            None => leave(
                service,
                renderer,
                service.factory.order.len() as int,
                OutcomeView::Response(bare_response(404)),
            ),
        },
{
    lemma_unmatched_request_falls_back(service.factory.router, request);
    assert(resolve(service.data, Seq::<TypeKey>::empty()) == Ok::<Seq<DataId>, TypeKey>(
        Seq::empty(),
    ));
}

/// A handler that asks for application data of a type for which the
/// service has none is not run: the request fails for want of the data,
/// and with the default renderer and no middleware the client gets a
/// bare 500. A handler whose data is all there is run with it.
pub proof fn lemma_missing_data(service: ServiceView, request: RequestView)
    requires
        route_request(service.factory.router, request) is Dispatch,
    ensures
        ({
            let extractors = route_request(service.factory.router, request)->extractors;
            match resolve(service.data, extractors) {
                Err(missing) => dispatch(service, DefaultError, request) == leave(
                    service,
                    DefaultError,
                    service.factory.order.len() as int,
                    OutcomeView::Failure(Failure::MissingData(missing)),
                ) && (service.factory.order.len() == 0 ==> dispatch(
                    service,
                    DefaultError,
                    request,
                ) == (Phase::Done, ActionView::Reply(bare_response(500)))),
                Ok(data) => dispatch(service, DefaultError, request) == (
                    Phase::Handler,
                    ActionView::Handle {
                        target: route_request(service.factory.router, request)->target,
                        request,
                        params: route_request(service.factory.router, request)->params,
                        data,
                    },
                ),
            }
        }),
{
}

/// The phase of an exchange that was in `phase` and was then told
/// `events`, one after the other.
pub open spec fn phase_after<E: ErrorRenderer>(
    service: ServiceView,
    renderer: E,
    phase: Phase,
    events: Seq<EventView>,
) -> Phase
    decreases events.len(),
{
    if events.len() == 0 {
        phase
    } else {
        phase_after(
            service,
            renderer,
            next(service, renderer, phase, events[0]).0,
            events.skip(1),
        )
    }
}

/// What an exchange does on events that come in two batches is what it does
/// on the first batch, followed by what it then does on the second.
pub proof fn lemma_run_in_two<E: ErrorRenderer>(
    service: ServiceView,
    renderer: E,
    phase: Phase,
    first: Seq<EventView>,
    second: Seq<EventView>,
)
    ensures
        run(service, renderer, phase, first + second) == run(service, renderer, phase, first) + run(
            service,
            renderer,
            phase_after(service, renderer, phase, first),
            second,
        ),
        phase_after(service, renderer, phase, first + second) == phase_after(
            service,
            renderer,
            phase_after(service, renderer, phase, first),
            second,
        ),
    decreases first.len(),
{
    if first.len() == 0 {
        assert(first + second =~= second);
        assert(run(service, renderer, phase, first) + run(service, renderer, phase, second)
            =~= run(service, renderer, phase, second));
    } else {
        let then = next(service, renderer, phase, first[0]).0;
        assert((first + second).skip(1) =~= first.skip(1) + second);
        lemma_run_in_two(service, renderer, then, first.skip(1), second);
        let action = seq![next(service, renderer, phase, first[0]).1];
        let middle = run(service, renderer, then, first.skip(1));
        let last = run(
            service,
            renderer,
            phase_after(service, renderer, then, first.skip(1)),
            second,
        );
        assert(action + (middle + last) =~= (action + middle) + last);
    }
}

/// The same event `n` times.
pub open spec fn repeated(event: EventView, n: int) -> Seq<EventView> {
    Seq::new(n as nat, |i: int| event)
}

/// The way in through all the layers: each sees the request, the outermost
/// first.
pub open spec fn way_in(order: Seq<MiddlewareId>, request: RequestView) -> Seq<ActionView> {
    Seq::new(order.len(), |i: int| ActionView::Inbound { layer: order[i], request })
}

/// The way out through all the layers: each sees the response, the
/// innermost first.
pub open spec fn way_out(order: Seq<MiddlewareId>, response: ResponseView) -> Seq<ActionView> {
    Seq::new(
        order.len(),
        |i: int|
            ActionView::Outbound {
                layer: order[order.len() - 1 - i],
                outcome: OutcomeView::Response(response),
            },
    )
}

/// From inside the layer at position `d`, a request that every layer hands
/// on passes the layers inside of it in their order and reaches the router.
proof fn lemma_way_in_from<E: ErrorRenderer>(
    service: ServiceView,
    renderer: E,
    d: int,
    request: RequestView,
)
    requires
        0 <= d < service.factory.order.len() <= usize::MAX,
    ensures
        run(
            service,
            renderer,
            Phase::Inbound(d as usize),
            repeated(EventView::Forward(request), service.factory.order.len() - d),
        ) == way_in(service.factory.order, request).skip(d + 1) + seq![
            dispatch(service, renderer, request).1,
        ],
        phase_after(
            service,
            renderer,
            Phase::Inbound(d as usize),
            repeated(EventView::Forward(request), service.factory.order.len() - d),
        ) == dispatch(service, renderer, request).0,
    decreases service.factory.order.len() - d,
{
    let n = service.factory.order.len() as int;
    let forward = EventView::Forward(request);
    let events = repeated(forward, n - d);
    let rest = repeated(forward, n - d - 1);
    assert(events.skip(1) =~= rest);
    assert(events[0] == forward);
    let then = next(service, renderer, Phase::Inbound(d as usize), forward).0;
    assert(phase_after(service, renderer, Phase::Inbound(d as usize), events) == phase_after(
        service,
        renderer,
        then,
        rest,
    ));
    let all = way_in(service.factory.order, request);
    if d + 1 < n {
        lemma_way_in_from(service, renderer, d + 1, request);
        assert(seq![all[d + 1]] + (all.skip(d + 2) + seq![dispatch(service, renderer, request).1])
            =~= all.skip(d + 1) + seq![dispatch(service, renderer, request).1]);
    } else {
        assert(run(service, renderer, dispatch(service, renderer, request).0, rest)
            =~= Seq::<ActionView>::empty());
        assert(seq![dispatch(service, renderer, request).1] + Seq::<ActionView>::empty()
            =~= all.skip(d + 1) + seq![dispatch(service, renderer, request).1]);
    }
}

/// From the layer at position `d`, a response that every layer hands on
/// passes the layers outside of it in their order and reaches the client.
proof fn lemma_way_out_from<E: ErrorRenderer>(
    service: ServiceView,
    renderer: E,
    d: int,
    response: ResponseView,
)
    requires
        0 <= d < service.factory.order.len() <= usize::MAX,
    ensures
        run(
            service,
            renderer,
            Phase::Outbound(d as usize),
            repeated(EventView::Respond(response), d + 1),
        ) == way_out(service.factory.order, response).skip(service.factory.order.len() - d)
            + seq![ActionView::Reply(response)],
    decreases d,
{
    let n = service.factory.order.len() as int;
    let respond = EventView::Respond(response);
    let events = repeated(respond, d + 1);
    let rest = repeated(respond, d);
    assert(events.skip(1) =~= rest);
    let all = way_out(service.factory.order, response);
    if d > 0 {
        lemma_way_out_from(service, renderer, d - 1, response);
        assert(seq![all[n - d]] + (all.skip(n - d + 1) + seq![ActionView::Reply(response)])
            =~= all.skip(n - d) + seq![ActionView::Reply(response)]);
    } else {
        assert(run(service, renderer, Phase::Done, rest) =~= Seq::<ActionView>::empty());
        assert(seq![ActionView::Reply(response)] + Seq::<ActionView>::empty() =~= all.skip(n)
            + seq![ActionView::Reply(response)]);
    }
}

/// A request that passes through an application without filters, whose
/// middleware hands on what it gets, to a handler: every layer sees the
/// request, from the outermost to the innermost; then the handler runs;
/// then every layer sees the handler's response, from the innermost to the
/// outermost; then the response is sent.
pub proof fn lemma_pass_through<E: ErrorRenderer>(
    service: ServiceView,
    renderer: E,
    request: RequestView,
    response: ResponseView,
)
    requires
        service.factory.filters.len() == 0,
        service.factory.order.len() <= usize::MAX,
        dispatch(service, renderer, request).0 == Phase::Handler,
    ensures
        ({
            let depth = service.factory.order.len() as int;
            let events = repeated(EventView::Forward(request), depth) + repeated(
                EventView::Respond(response),
                depth + 1,
            );
            seq![start(service, renderer, request).1] + run(
                service,
                renderer,
                start(service, renderer, request).0,
                events,
            ) == way_in(service.factory.order, request) + seq![
                dispatch(service, renderer, request).1,
            ] + way_out(service.factory.order, response) + seq![ActionView::Reply(response)]
        }),
{
    let order = service.factory.order;
    let n = order.len() as int;
    let forwards = repeated(EventView::Forward(request), n);
    let responds = repeated(EventView::Respond(response), n + 1);
    let handle = dispatch(service, renderer, request).1;
    let first = start(service, renderer, request);
    lemma_run_in_two(service, renderer, first.0, forwards, responds);
    let answered = run(service, renderer, Phase::Handler, responds);
    assert(responds.skip(1) =~= repeated(EventView::Respond(response), n));
    if n == 0 {
        assert(run(service, renderer, first.0, forwards) =~= Seq::<ActionView>::empty());
        assert(run(service, renderer, Phase::Done, responds.skip(1)) =~= Seq::<ActionView>::empty());
        assert(answered =~= seq![ActionView::Reply(response)]);
        assert(seq![first.1] + (Seq::<ActionView>::empty() + answered) =~= way_in(order, request)
            + seq![handle] + way_out(order, response) + seq![ActionView::Reply(response)]);
    } else {
        lemma_way_in_from(service, renderer, 0, request);
        lemma_way_out_from(service, renderer, n - 1, response);
        let inwards = way_in(order, request);
        let outwards = way_out(order, response);
        assert(answered =~= outwards + seq![ActionView::Reply(response)]) by {
            assert(seq![outwards[0]] + (outwards.skip(1) + seq![ActionView::Reply(response)])
                =~= outwards + seq![ActionView::Reply(response)]);
        }
        assert(seq![first.1] + ((inwards.skip(1) + seq![handle]) + answered) =~= inwards + seq![
            handle,
        ] + outwards + seq![ActionView::Reply(response)]);
    }
}

} // verus!
