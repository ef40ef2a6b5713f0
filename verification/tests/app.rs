use ntex_web::app::App;
use ntex_web::app_service::AppService;
use ntex_web::exchange::{Action, Event, Exchange, Outcome, Phase};
use ntex_web::config::{AppConfig, ServiceConfig};
use ntex_web::filter::FilterFn;
use ntex_web::http::{Method, Request, Response, StatusCode};
use ntex_web::rmap::UrlGenerationError;
use ntex_web::router::{get, post, Guard, Resource, Route, Target};
use ntex_web::service::{DefaultError, Failure, InitError, Readiness};
use ntex_web::stack::Middleware;

const USIZE: u64 = 1;
const U32: u64 = 2;

fn respond(status: u16) -> Response {
    Response::new(StatusCode::from_u16(status).unwrap())
}

/// The handler `n` answers with the status `n`.
fn handler_status(target: Target) -> u16 {
    match target {
        Target::Route(id) | Target::ResourceDefault(id) | Target::AppDefault(id) => id as u16,
    }
}

/// What a driver does where the test has nothing special in mind: filters
/// and middleware hand on what they get, handlers answer with their status.
fn pass(action: Action) -> Event {
    match action {
        Action::Filter { request, .. } | Action::Inbound { request, .. } => Event::Forward(request),
        Action::Handle { target, .. } => Event::Respond(respond(handler_status(target))),
        Action::Outbound { outcome: Outcome::Response(response), .. } => Event::Respond(response),
        Action::Outbound { outcome: Outcome::Failure(failure), .. } => Event::Fail(failure),
        Action::Reply(_) | Action::Finished => unreachable!(),
    }
}

fn drive(
    service: &mut AppService<'_, DefaultError>,
    request: Request,
    mut play: impl FnMut(Action) -> Event,
) -> Response {
    assert_eq!(service.poll_ready(&[]), Readiness::Ready);
    let (mut exchange, mut action) = service.call(request);
    let mut steps = 0;
    loop {
        if let Action::Reply(response) = action {
            assert_eq!(exchange.phase, Phase::Done);
            return response;
        }
        steps += 1;
        assert!(steps < 100);
        let next = service.resume(exchange, play(action));
        exchange = next.0;
        action = next.1;
    }
}

fn status_of(service: &mut AppService<'_, DefaultError>, request: Request) -> u16 {
    drive(service, request, pass).status.as_u16()
}

#[test]
fn test_default_resource() {
    let factory = App::new().service(Resource::new("/test").to(200)).finish();
    let mut srv = factory.new_service(true, &vec![]).unwrap();
    assert_eq!(status_of(&mut srv, Request::get("/test")), 200);
    assert_eq!(status_of(&mut srv, Request::get("/blah")), 404);

    let factory = App::new()
        .service(Resource::new("/test").to(200))
        .service(Resource::new("/test2").default_service(201).route(get().to(200)))
        .default_service(405)
        .finish();
    let mut srv = factory.new_service(true, &vec![]).unwrap();
    assert_eq!(status_of(&mut srv, Request::get("/blah")), 405);
    assert_eq!(status_of(&mut srv, Request::get("/test2")), 200);
    assert_eq!(status_of(&mut srv, Request::new(Method::Post, "/test2")), 201);
}

#[test]
fn default_service_targets_are_told_apart() {
    let factory = App::new()
        .service(Resource::new("/test2").default_service(7).route(get().to(8)))
        .default_service(9)
        .finish();
    let mut srv = factory.new_service(true, &vec![]).unwrap();
    let mut seen = Vec::new();
    for request in [
        Request::get("/test2"),
        Request::new(Method::Post, "/test2"),
        Request::get("/elsewhere"),
    ] {
        drive(&mut srv, request, |action| {
            if let Action::Handle { target, .. } = &action {
                seen.push(*target);
            }
            match action {
                Action::Handle { .. } => Event::Respond(respond(200)),
                other => pass(other),
            }
        });
    }
    assert_eq!(seen, vec![Target::Route(8), Target::ResourceDefault(7), Target::AppDefault(9)]);
}

#[test]
fn resource_without_route_or_default_is_method_not_allowed() {
    let factory = App::new()
        .service(Resource::new("/only-get").route(get().to(200)))
        .default_service(201)
        .finish();
    let mut srv = factory.new_service(true, &vec![]).unwrap();
    assert_eq!(status_of(&mut srv, Request::get("/only-get")), 200);
    assert_eq!(status_of(&mut srv, Request::new(Method::Delete, "/only-get")), 405);
}

#[test]
fn route_without_handler_is_not_found() {
    let factory = App::new().service(Resource::new("/bare").route(Route::new())).finish();
    let mut srv = factory.new_service(true, &vec![]).unwrap();
    assert_eq!(status_of(&mut srv, Request::get("/bare")), 404);
}

#[test]
fn first_registered_resource_wins() {
    let factory = App::new()
        .service(Resource::new("/item/{id}").to(200))
        .service(Resource::new("/item/new").to(201))
        .finish();
    let mut srv = factory.new_service(true, &vec![]).unwrap();
    assert_eq!(status_of(&mut srv, Request::get("/item/new")), 200);

    let factory = App::new()
        .service(Resource::new("/item/new").to(201))
        .service(Resource::new("/item/{id}").to(200))
        .finish();
    let mut srv = factory.new_service(true, &vec![]).unwrap();
    assert_eq!(status_of(&mut srv, Request::get("/item/new")), 201);
    assert_eq!(status_of(&mut srv, Request::get("/item/17")), 200);
}

#[test]
fn routes_share_a_path() {
    let factory = App::new()
        .route("/test", get().to(200))
        .route("/test", post().to(201))
        .finish();
    let mut srv = factory.new_service(true, &vec![]).unwrap();
    assert_eq!(status_of(&mut srv, Request::get("/test")), 200);
    assert_eq!(status_of(&mut srv, Request::new(Method::Post, "/test")), 201);
    assert_eq!(status_of(&mut srv, Request::new(Method::Put, "/test")), 404);
}

#[test]
fn header_guard_gates_a_resource() {
    let factory = App::new()
        .service(Resource::new("/api").guard(Guard::header("accept", "text/json")).to(200))
        .service(Resource::new("/api").to(201))
        .finish();
    let mut srv = factory.new_service(true, &vec![]).unwrap();
    assert_eq!(status_of(&mut srv, Request::get("/api").header("Accept", "text/json")), 200);
    assert_eq!(status_of(&mut srv, Request::get("/api").header("Accept", "Text/Json")), 201);
    assert_eq!(status_of(&mut srv, Request::get("/api")), 201);
}

#[test]
fn test_data_factory() {
    let factory = App::new()
        .data_factory(USIZE, 1)
        .service(Resource::new("/").route(Route::new().data(USIZE).to(200)))
        .finish();
    assert_eq!(factory.data_factories(), &vec![(USIZE, 1)]);
    let mut srv = factory.new_service(true, &vec![Some(10)]).unwrap();
    assert_eq!(status_of(&mut srv, Request::get("/")), 200);
    assert_eq!(srv.data(USIZE), Ok(10));

    let factory = App::new()
        .data_factory(U32, 1)
        .service(Resource::new("/").route(Route::new().data(USIZE).to(200)))
        .finish();
    let mut srv = factory.new_service(true, &vec![Some(10)]).unwrap();
    assert_eq!(status_of(&mut srv, Request::get("/")), 500);
    assert_eq!(srv.data(USIZE), Err(Failure::MissingData(USIZE)));
    assert_eq!(srv.data(U32), Ok(10));
}

#[test]
fn failed_data_factory_leaves_the_entry_absent() {
    let factory = App::new()
        .data_factory(USIZE, 1)
        .service(Resource::new("/").route(Route::new().data(USIZE).to(200)))
        .service(Resource::new("/plain").to(200))
        .finish();
    let mut srv = factory.new_service(true, &vec![None]).unwrap();
    assert_eq!(srv.data(USIZE), Err(Failure::MissingData(USIZE)));
    assert_eq!(status_of(&mut srv, Request::get("/")), 500);
    assert_eq!(status_of(&mut srv, Request::get("/plain")), 200);
}

#[test]
fn handler_gets_its_data_in_extractor_order() {
    let factory = App::new()
        .data(USIZE, 10)
        .data(U32, 20)
        .service(Resource::new("/").route(Route::new().data(U32).data(USIZE).to(200)))
        .finish();
    let mut srv = factory.new_service(true, &vec![]).unwrap();
    let mut got = Vec::new();
    drive(&mut srv, Request::get("/"), |action| {
        if let Action::Handle { data, .. } = &action {
            got = data.clone();
        }
        pass(action)
    });
    assert_eq!(got, vec![20, 10]);
}

#[test]
fn later_data_registration_wins() {
    let factory = App::new().data(USIZE, 10).data(USIZE, 11).finish();
    let srv = factory.new_service(true, &vec![]).unwrap();
    assert_eq!(srv.data(USIZE), Ok(11));

    let factory = App::new().data_factory(USIZE, 1).data(USIZE, 10).data_factory(USIZE, 2).finish();
    let srv = factory.new_service(true, &vec![Some(20), Some(21)]).unwrap();
    assert_eq!(srv.data(USIZE), Ok(21));
    let srv = factory.new_service(true, &vec![Some(20), None]).unwrap();
    assert_eq!(srv.data(USIZE), Ok(20));
    let srv = factory.new_service(true, &vec![None, None]).unwrap();
    assert_eq!(srv.data(USIZE), Ok(10));
}

#[test]
fn construction_fails_apart_from_requests() {
    let factory = App::new().data_factory(USIZE, 1).finish();
    assert_eq!(factory.new_service(false, &vec![Some(1)]).err(), Some(InitError::Service));
    assert_eq!(factory.new_service(true, &vec![]).err(), Some(InitError::Outcomes));
    assert_eq!(factory.new_service(true, &vec![None, None]).err(), Some(InitError::Outcomes));
    assert!(factory.new_service(true, &vec![None]).is_ok());
}

#[test]
fn services_of_one_factory_are_independent() {
    let factory = App::new().data_factory(USIZE, 1).finish();
    let mut first = factory.new_service(true, &vec![Some(1)]).unwrap();
    let second = factory.new_service(true, &vec![Some(2)]).unwrap();
    assert_eq!(first.data(USIZE), Ok(1));
    assert_eq!(second.data(USIZE), Ok(2));
    assert_eq!(first.poll_ready(&[Readiness::Failed]), Readiness::Failed);
    assert!(!second.is_ready());
    let mut second = second;
    assert_eq!(second.poll_ready(&[]), Readiness::Ready);
    assert_eq!(first.poll_ready(&[]), Readiness::Failed);
}

#[test]
fn test_extension() {
    let factory = App::new().app_data(USIZE, 10).service(Resource::new("/").to(200)).finish();
    let mut srv = factory.new_service(true, &vec![]).unwrap();
    assert_eq!(srv.app_data(USIZE), Some(10));
    assert_eq!(srv.app_data(U32), None);
    assert_eq!(srv.data(USIZE), Err(Failure::MissingData(USIZE)));
    assert_eq!(status_of(&mut srv, Request::get("/")), 200);

    let factory = App::new().app_data(USIZE, 10).app_data(USIZE, 12).finish();
    let srv = factory.new_service(true, &vec![]).unwrap();
    assert_eq!(srv.app_data(USIZE), Some(12));
}

#[test]
fn test_filter() {
    let mut seen = false;
    let factory = App::new().filter(FilterFn::new(1)).route("/test", get().to(200)).finish();
    let mut srv = factory.new_service(true, &vec![]).unwrap();
    let response = drive(&mut srv, Request::get("/test"), |action| {
        if let Action::Filter { step, .. } = &action {
            assert_eq!(*step, 1);
            seen = true;
        }
        pass(action)
    });
    assert_eq!(response.status.as_u16(), 200);
    assert!(seen);
}

#[test]
fn filter_response_keeps_the_handler_from_running() {
    let mut handler_ran = false;
    let mut middleware_ran = false;
    let factory = App::new()
        .filter(FilterFn::new(1))
        .filter(FilterFn::new(2))
        .wrap(Middleware::new(5))
        .route("/test", get().to(200))
        .finish();
    let mut srv = factory.new_service(true, &vec![]).unwrap();
    let mut steps = Vec::new();
    let response = drive(&mut srv, Request::get("/test"), |action| match action {
        Action::Filter { step: 1, .. } => {
            steps.push(1);
            Event::Respond(respond(201))
        },
        Action::Filter { step, request } => {
            steps.push(step);
            Event::Forward(request)
        },
        Action::Handle { .. } => {
            handler_ran = true;
            Event::Respond(respond(200))
        },
        other => {
            middleware_ran = true;
            pass(other)
        },
    });
    assert_eq!(response.status.as_u16(), 201);
    assert_eq!(steps, vec![1]);
    assert!(!handler_ran);
    assert!(!middleware_ran);
}

#[test]
fn filters_run_in_registration_order_and_pass_the_request_on() {
    let factory = App::new()
        .filter(FilterFn::new(3))
        .filter(FilterFn::new(1))
        .filter(FilterFn::new(2))
        .route("/b", get().to(200))
        .finish();
    let mut srv = factory.new_service(true, &vec![]).unwrap();
    let mut steps = Vec::new();
    let response = drive(&mut srv, Request::get("/a"), |action| match action {
        Action::Filter { step, request } => {
            steps.push(step);
            if step == 1 {
                assert_eq!(request.path, b"/a".to_vec());
                Event::Forward(Request::get("/b"))
            } else {
                Event::Forward(request)
            }
        },
        other => pass(other),
    });
    assert_eq!(steps, vec![3, 1, 2]);
    assert_eq!(response.status.as_u16(), 200);
}

#[test]
fn filter_failure_is_rendered() {
    let factory = App::new().filter(FilterFn::new(1)).route("/test", get().to(200)).finish();
    let mut srv = factory.new_service(true, &vec![]).unwrap();
    let response = drive(&mut srv, Request::get("/test"), |action| match action {
        Action::Filter { .. } => Event::Fail(Failure::Extraction),
        other => pass(other),
    });
    assert_eq!(response, respond(400));
}

/// The middleware that adds a content type to the responses that have none.
fn default_headers(action: Action) -> Event {
    match action {
        Action::Outbound { outcome: Outcome::Response(response), .. } => {
            if response.headers.iter().any(|h| h.name == b"content-type") {
                Event::Respond(response)
            } else {
                Event::Respond(response.header("content-type", "0001"))
            }
        },
        other => pass(other),
    }
}

#[test]
fn test_wrap() {
    let factory =
        App::new().wrap(Middleware::new(1)).route("/test", get().to(200)).finish();
    let mut srv = factory.new_service(true, &vec![]).unwrap();
    let response = drive(&mut srv, Request::get("/test"), default_headers);
    assert_eq!(response.status.as_u16(), 200);
    assert_eq!(response, respond(200).header("content-type", "0001"));
}

#[test]
fn test_router_wrap() {
    let factory =
        App::new().route("/test", get().to(200)).wrap(Middleware::new(1)).finish();
    let mut srv = factory.new_service(true, &vec![]).unwrap();
    let response = drive(&mut srv, Request::get("/test"), default_headers);
    assert_eq!(response.status.as_u16(), 200);
    assert_eq!(response.headers.len(), 1);
    assert_eq!(response.headers[0].value, b"0001".to_vec());
}

#[test]
fn later_wrap_is_the_outer_layer() {
    let (a, b) = (10, 20);
    let factory = App::new()
        .wrap(Middleware::new(a))
        .wrap(Middleware::new(b))
        .route("/test", get().to(200))
        .finish();
    let mut srv = factory.new_service(true, &vec![]).unwrap();
    let mut trace = Vec::new();
    drive(&mut srv, Request::get("/test"), |action| {
        match &action {
            Action::Inbound { layer, .. } => trace.push(format!("in {}", layer)),
            Action::Handle { .. } => trace.push(format!("handler")),
            Action::Outbound { layer, .. } => trace.push(format!("out {}", layer)),
            _ => {},
        }
        pass(action)
    });
    assert_eq!(trace, vec!["in 20", "in 10", "handler", "out 10", "out 20"]);
}

#[test]
fn middleware_sees_not_found_and_may_recover_failures() {
    let factory = App::new()
        .wrap(Middleware::new(1))
        .wrap(Middleware::new(2))
        .service(Resource::new("/data").route(Route::new().data(USIZE).to(200)))
        .finish();
    let mut srv = factory.new_service(true, &vec![]).unwrap();
    let mut seen = Vec::new();
    let response = drive(&mut srv, Request::get("/nowhere"), |action| {
        if let Action::Outbound { layer, outcome } = &action {
            seen.push((*layer, outcome.clone()));
        }
        pass(action)
    });
    assert_eq!(response, respond(404));
    assert_eq!(
        seen,
        vec![(1, Outcome::Response(respond(404))), (2, Outcome::Response(respond(404)))]
    );

    let response = drive(&mut srv, Request::get("/data"), pass);
    assert_eq!(response, respond(500));

    let response = drive(&mut srv, Request::get("/data"), |action| match action {
        Action::Outbound { layer: 1, outcome: Outcome::Failure(failure) } => {
            assert_eq!(failure, Failure::MissingData(USIZE));
            Event::Respond(respond(201))
        },
        other => pass(other),
    });
    assert_eq!(response, respond(201));
}

#[test]
fn middleware_that_answers_skips_what_is_inside() {
    let factory = App::new()
        .wrap(Middleware::new(1))
        .wrap(Middleware::new(2))
        .wrap(Middleware::new(3))
        .route("/test", get().to(200))
        .finish();
    let mut srv = factory.new_service(true, &vec![]).unwrap();
    let mut trace = Vec::new();
    let response = drive(&mut srv, Request::get("/test"), |action| {
        match &action {
            Action::Inbound { layer, .. } => trace.push(format!("in {}", layer)),
            Action::Handle { .. } => trace.push(format!("handler")),
            Action::Outbound { layer, .. } => trace.push(format!("out {}", layer)),
            _ => {},
        }
        match action {
            Action::Inbound { layer: 2, .. } => Event::Respond(respond(201)),
            other => pass(other),
        }
    });
    assert_eq!(response, respond(201));
    assert_eq!(trace, vec!["in 3", "in 2", "out 3"]);
}

#[test]
fn unexpected_event_counts_as_failure() {
    let factory = App::new().route("/test", get().to(200)).finish();
    let mut srv = factory.new_service(true, &vec![]).unwrap();
    let response = drive(&mut srv, Request::get("/test"), |action| match action {
        Action::Handle { request, .. } => Event::Forward(request),
        other => pass(other),
    });
    assert_eq!(response, respond(500));

    let (exchange, action) = srv.resume(Exchange { phase: Phase::Filter(3) }, Event::Fail(Failure::Service));
    assert_eq!(exchange.phase, Phase::Done);
    assert_eq!(action, Action::Reply(respond(500)));
    let (exchange, action) = srv.resume(exchange, Event::Respond(respond(200)));
    assert_eq!(exchange.phase, Phase::Done);
    assert_eq!(action, Action::Finished);
}

#[test]
fn call_needs_a_readiness_check_each_time() {
    let factory = App::new().route("/test", get().to(200)).finish();
    let mut srv = factory.new_service(true, &vec![]).unwrap();
    assert!(!srv.is_ready());
    assert_eq!(srv.try_call(Request::get("/test")), Err(Request::get("/test")));
    assert_eq!(srv.poll_ready(&[Readiness::Ready, Readiness::Pending]), Readiness::Pending);
    assert!(!srv.is_ready());
    assert_eq!(srv.poll_ready(&[Readiness::Ready, Readiness::Ready]), Readiness::Ready);
    assert!(srv.is_ready());
    let (exchange, _) = srv.try_call(Request::get("/test")).unwrap();
    assert_eq!(exchange.phase, Phase::Handler);
    assert!(!srv.is_ready());
    assert!(srv.try_call(Request::get("/test")).is_err());
    let (exchange, action) = srv.resume(exchange, Event::Respond(respond(200)));
    assert_eq!(exchange.phase, Phase::Done);
    assert_eq!(action, Action::Reply(respond(200)));
    assert!(!srv.is_ready());
    assert_eq!(srv.poll_ready(&[]), Readiness::Ready);
    assert_eq!(srv.poll_ready(&[Readiness::Pending, Readiness::Failed]), Readiness::Failed);
    assert_eq!(srv.poll_ready(&[Readiness::Ready]), Readiness::Failed);
    assert!(srv.try_call(Request::get("/test")).is_err());
}

#[test]
fn busy_service_is_pending_until_the_exchange_ends() {
    let factory =
        App::new().wrap(Middleware::new(1)).route("/test", get().to(200)).finish();
    let mut srv = factory.new_service(true, &vec![]).unwrap();
    assert_eq!(srv.poll_ready(&[]), Readiness::Ready);
    let (exchange, _) = srv.call(Request::get("/test"));
    assert_eq!(exchange.phase, Phase::Inbound(0));
    assert_eq!(srv.poll_ready(&[Readiness::Ready]), Readiness::Pending);
    assert_eq!(srv.poll_ready(&[Readiness::Failed]), Readiness::Pending);
    let (exchange, _) = srv.resume(exchange, Event::Forward(Request::get("/test")));
    assert_eq!(exchange.phase, Phase::Handler);
    assert_eq!(srv.poll_ready(&[]), Readiness::Pending);
    let (exchange, _) = srv.resume(exchange, Event::Respond(respond(200)));
    assert_eq!(exchange.phase, Phase::Outbound(0));
    assert_eq!(srv.poll_ready(&[]), Readiness::Pending);
    let (exchange, action) = srv.resume(exchange, Event::Respond(respond(200)));
    assert_eq!(action, Action::Reply(respond(200)));
    assert_eq!(srv.poll_ready(&[]), Readiness::Ready);

    let (exchange, _) = srv.call(Request::get("/test"));
    assert_eq!(srv.poll_ready(&[]), Readiness::Pending);
    let cancelled = srv.cancel(exchange);
    assert_eq!(cancelled.phase, Phase::Done);
    assert_eq!(srv.resume(cancelled, Event::Respond(respond(200))).1, Action::Finished);
    assert_eq!(srv.poll_ready(&[]), Readiness::Ready);
    assert!(srv.is_ready());
    assert_eq!(srv.cancel(exchange).phase, Phase::Done);
    assert!(srv.is_ready());
}

#[test]
fn test_case_insensitive_router() {
    let factory = App::new().case_insensitive_routing().route("/test", get().to(200)).finish();
    let mut srv = factory.new_service(true, &vec![]).unwrap();
    assert_eq!(status_of(&mut srv, Request::get("/test")), 200);
    assert_eq!(status_of(&mut srv, Request::get("/Test")), 200);

    let factory = App::new().route("/test", get().to(200)).finish();
    let mut srv = factory.new_service(true, &vec![]).unwrap();
    assert_eq!(status_of(&mut srv, Request::get("/test")), 200);
    assert_eq!(status_of(&mut srv, Request::get("/Test")), 404);
}

#[test]
fn case_insensitive_router_captures_verbatim() {
    let factory =
        App::new().case_insensitive_routing().service(Resource::new("/user/{name}").to(200)).finish();
    let mut srv = factory.new_service(true, &vec![]).unwrap();
    let mut captured = Vec::new();
    let response = drive(&mut srv, Request::get("/USER/BobSmith"), |action| {
        if let Action::Handle { params, .. } = &action {
            captured = params.clone();
        }
        pass(action)
    });
    assert_eq!(response.status.as_u16(), 200);
    assert_eq!(captured.len(), 1);
    assert_eq!(captured[0].name, b"name".to_vec());
    assert_eq!(captured[0].value, b"BobSmith".to_vec());
}

#[test]
fn test_external_resource() {
    let factory = App::new()
        .external_resource("youtube", "https://youtube.com/watch/{video_id}")
        .route("/test", get().to(200))
        .finish();
    let mut srv = factory.new_service(true, &vec![]).unwrap();
    assert_eq!(
        srv.url_for("youtube", &vec![b"12345".to_vec()]),
        Ok(b"https://youtube.com/watch/12345".to_vec())
    );
    assert_eq!(
        srv.url_for("vimeo", &vec![b"12345".to_vec()]),
        Err(UrlGenerationError::ResourceNotFound)
    );
    assert_eq!(srv.url_for("", &vec![]), Err(UrlGenerationError::ResourceNotFound));
    assert_eq!(srv.url_for("youtube", &vec![]), Err(UrlGenerationError::NotEnoughElements));
    assert_eq!(status_of(&mut srv, Request::get("/test")), 200);
    assert_eq!(status_of(&mut srv, Request::get("https://youtube.com/watch/12345")), 404);
}

#[test]
fn named_resources_generate_paths_and_externals_come_last() {
    let factory = App::new()
        .external_resource("user", "https://example.org/{id}")
        .service(Resource::new("/user/{id}/{page}").name("user").to(200))
        .service(Resource::new("/about").name("about").to(200))
        .service(Resource::new("/unnamed").to(200))
        .finish();
    let srv = factory.new_service(true, &vec![]).unwrap();
    let values = vec![b"7".to_vec(), b"posts".to_vec(), b"unused".to_vec()];
    assert_eq!(srv.url_for("user", &values), Ok(b"https://example.org/7".to_vec()));
    assert_eq!(srv.url_for("about", &values), Ok(b"/about".to_vec()));

    let factory = App::new()
        .service(Resource::new("/a/{id}").name("user").to(200))
        .service(Resource::new("/b/{id}/{page}").name("user").to(200))
        .finish();
    let srv = factory.new_service(true, &vec![]).unwrap();
    assert_eq!(srv.url_for("user", &values), Ok(b"/b/7/posts".to_vec()));
}

#[test]
fn configure_adds_registrations_in_order() {
    let mut cfg = ServiceConfig::new();
    cfg.service(Resource::new("/test").route(get().to(200)).route(Route::new().method(Method::Head).to(405)));
    cfg.route("/late", post().to(201));
    cfg.data(USIZE, 10);
    cfg.external_resource("docs", "https://docs.example/{page}");
    let factory = App::new()
        .data(USIZE, 9)
        .route("/test", get().to(202))
        .configure(cfg)
        .route("/index.html", get().to(203))
        .finish();
    let mut srv = factory.new_service(true, &vec![]).unwrap();
    assert_eq!(status_of(&mut srv, Request::get("/test")), 202);
    assert_eq!(status_of(&mut srv, Request::new(Method::Head, "/test")), 405);
    assert_eq!(status_of(&mut srv, Request::new(Method::Post, "/late")), 201);
    assert_eq!(status_of(&mut srv, Request::get("/index.html")), 203);
    assert_eq!(srv.data(USIZE), Ok(10));
    assert_eq!(srv.url_for("docs", &vec![b"intro".to_vec()]), Ok(b"https://docs.example/intro".to_vec()));
}

#[test]
fn config_is_threaded_to_the_service() {
    let factory = App::new().finish();
    let srv = factory.new_service(true, &vec![]).unwrap();
    assert_eq!(srv.config(), &AppConfig::default());
    assert_eq!(srv.config().host, b"localhost:8080".to_vec());
    assert!(!srv.config().secure);

    let factory = App::with(DefaultError).with_config(AppConfig::new(true, "example.org"));
    assert_eq!(factory.config(), &AppConfig::new(true, "example.org"));
    let srv = factory.new_service(true, &vec![]).unwrap();
    assert!(srv.config().secure);
    assert_eq!(srv.config().host, b"example.org".to_vec());
}

#[test]
fn into_factory_is_what_finish_gives() {
    let build = || {
        App::new()
            .wrap(Middleware::new(1))
            .filter(FilterFn::new(2))
            .route("/test", get().to(200))
    };
    let factory = build().into_factory();
    let finished = build().finish();
    let mut a = factory.new_service(true, &vec![]).unwrap();
    let mut b = finished.new_service(true, &vec![]).unwrap();
    assert_eq!(a.poll_ready(&[]), Readiness::Ready);
    assert_eq!(b.poll_ready(&[]), Readiness::Ready);
    assert_eq!(a.call(Request::get("/test")), b.call(Request::get("/test")));
    assert_eq!(a.config(), b.config());
}

#[test]
fn exchange_ends_within_its_bound() {
    let factory = App::new()
        .filter(FilterFn::new(1))
        .filter(FilterFn::new(2))
        .wrap(Middleware::new(1))
        .wrap(Middleware::new(2))
        .wrap(Middleware::new(3))
        .route("/test", get().to(200))
        .finish();
    let mut srv = factory.new_service(true, &vec![]).unwrap();
    let (filters, layers) = (2, 3);
    let mut events = 0;
    let response = drive(&mut srv, Request::get("/test"), |action| {
        events += 1;
        pass(action)
    });
    assert_eq!(response, respond(200));
    assert_eq!(events, filters + 2 * layers + 1);
    assert!(events <= filters + 2 * layers + 3);

    let mut events = 0;
    let response = drive(&mut srv, Request::get("/nowhere"), |action| {
        events += 1;
        pass(action)
    });
    assert_eq!(response, respond(404));
    assert_eq!(events, filters + 2 * layers);
}
