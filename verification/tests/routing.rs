use ntex_web::bytes::{bytes_eq, bytes_eq_ignore_case, copy_range, to_lower};
use ntex_web::data::Extensions;
use ntex_web::filter::{AndThen, Filter, FilterChain, FilterFn};
use ntex_web::http::{Method, Request, Response, StatusCode};
use ntex_web::path::{join_segments, split_path};
use ntex_web::pattern::{parse_part, Param, ResourceDef, Segment};
use ntex_web::rmap::{ResourceMap, UrlGenerationError};
use ntex_web::router::{check_guards, get, head, method, Decision, Guard, Resource, Route, Router, Target};
use ntex_web::service::{DefaultError, ErrorRenderer, Failure, Readiness};
use ntex_web::stack::{Identity, Layers, Middleware, Stack, Transform};

fn parts(items: &[&str]) -> Vec<Vec<u8>> {
    items.iter().map(|s| s.as_bytes().to_vec()).collect()
}

#[test]
fn split_keeps_empty_segments() {
    assert_eq!(split_path(b"/a/b"), parts(&["", "a", "b"]));
    assert_eq!(split_path(b""), parts(&[""]));
    assert_eq!(split_path(b"/"), parts(&["", ""]));
    assert_eq!(split_path(b"a//b/"), parts(&["a", "", "b", ""]));
    assert_eq!(split_path(b"plain"), parts(&["plain"]));
}

#[test]
fn join_is_the_inverse_of_split() {
    for path in ["", "/", "/a/b", "a//b/", "https://youtube.com/watch/12345"] {
        assert_eq!(join_segments(&split_path(path.as_bytes())), path.as_bytes().to_vec());
    }
    assert_eq!(join_segments(&vec![]), Vec::<u8>::new());
    assert_eq!(join_segments(&parts(&["a", "b", ""])), b"a/b/".to_vec());
}

#[test]
fn byte_comparisons() {
    assert!(bytes_eq(b"abc", b"abc"));
    assert!(!bytes_eq(b"abc", b"abd"));
    assert!(!bytes_eq(b"abc", b"ab"));
    assert!(bytes_eq_ignore_case(b"Test-09", b"tEST-09"));
    assert!(!bytes_eq_ignore_case(b"test", b"tesd"));
    assert!(!bytes_eq_ignore_case(b"[", b"{"));
    assert!(!bytes_eq_ignore_case(b"@", b"`"));
    assert_eq!(to_lower(b'A'), b'a');
    assert_eq!(to_lower(b'Z'), b'z');
    assert_eq!(to_lower(b'@'), b'@');
    assert_eq!(to_lower(b'['), b'[');
    assert_eq!(to_lower(b'a'), b'a');
    assert_eq!(to_lower(200), 200);
    assert_eq!(copy_range(b"abcdef", 2, 4), b"cd".to_vec());
    assert_eq!(copy_range(b"abcdef", 3, 3), Vec::<u8>::new());
}

#[test]
fn placeholders_are_whole_segments_in_braces() {
    assert_eq!(parse_part(b"{id}"), Segment::Dynamic(b"id".to_vec()));
    assert_eq!(parse_part(b"{}"), Segment::Static(b"{}".to_vec()));
    assert_eq!(parse_part(b"{a}{b}"), Segment::Static(b"{a}{b}".to_vec()));
    assert_eq!(parse_part(b"x{id}"), Segment::Static(b"x{id}".to_vec()));
    assert_eq!(parse_part(b"{id"), Segment::Static(b"{id".to_vec()));
    assert_eq!(parse_part(b""), Segment::Static(Vec::new()));
    assert_eq!(parse_part(b"{a{b}"), Segment::Static(b"{a{b}".to_vec()));
}

#[test]
fn patterns_match_segment_by_segment() {
    let def = ResourceDef::new("/user/{id}/profile");
    assert!(def.is_match(b"/user/42/profile", false));
    assert!(!def.is_match(b"/user/42", false));
    assert!(!def.is_match(b"/user/42/profile/", false));
    assert!(!def.is_match(b"/user//profile", false));
    assert!(!def.is_match(b"/User/42/profile", false));
    assert!(def.is_match(b"/User/42/PROFILE", true));
    assert_eq!(
        def.match_path(b"/user/42/profile", false),
        Some(vec![Param { name: b"id".to_vec(), value: b"42".to_vec() }])
    );
    assert_eq!(def.match_path(b"/user/42/other", false), None);

    let two = ResourceDef::new("/{a}/x/{b}");
    assert_eq!(
        two.match_path(b"/One/X/Two", true),
        Some(vec![
            Param { name: b"a".to_vec(), value: b"One".to_vec() },
            Param { name: b"b".to_vec(), value: b"Two".to_vec() },
        ])
    );
    assert_eq!(ResourceDef::new("/static").match_path(b"/static", false), Some(vec![]));
}

#[test]
fn generated_paths_match_their_pattern() {
    let def = ResourceDef::new("/user/{id}/{page}");
    let path = def.resource_path(&parts(&["42", "Posts"])).unwrap();
    assert_eq!(path, b"/user/42/Posts".to_vec());
    assert_eq!(
        def.match_path(&path, true),
        Some(vec![
            Param { name: b"id".to_vec(), value: b"42".to_vec() },
            Param { name: b"page".to_vec(), value: b"Posts".to_vec() },
        ])
    );
    assert_eq!(def.resource_path(&parts(&["42"])), None);
    assert_eq!(def.resource_path(&parts(&["1", "2", "3"])), Some(b"/user/1/2".to_vec()));
    assert_eq!(ResourceDef::new("/fixed").resource_path(&vec![]), Some(b"/fixed".to_vec()));
}

#[test]
fn definitions_carry_their_name() {
    let def = ResourceDef::new("/a").named("home");
    assert!(def.is_named());
    assert!(def.has_name(b"home"));
    assert!(!def.has_name(b"Home"));
    assert!(!ResourceDef::new("/a").is_named());
    assert_eq!(def.duplicate(), def);
    assert_eq!(Resource::new("/a").name("home").named_definition(), Some(def));
    assert_eq!(Resource::new("/a").named_definition(), None);
}

#[test]
fn resource_map_finds_the_last_of_a_name() {
    let mut map = ResourceMap::new();
    map.add(ResourceDef::new("/first/{x}").named("n"));
    map.add(ResourceDef::new("/other").named("m"));
    map.add(ResourceDef::new("/second/{x}/{y}").named("n"));
    assert_eq!(map.url_for(b"n", &parts(&["1", "2"])), Ok(b"/second/1/2".to_vec()));
    assert_eq!(map.url_for(b"n", &parts(&["1"])), Err(UrlGenerationError::NotEnoughElements));
    assert_eq!(map.url_for(b"m", &vec![]), Ok(b"/other".to_vec()));
    assert_eq!(map.url_for(b"x", &vec![]), Err(UrlGenerationError::ResourceNotFound));
}

#[test]
fn guards_check_method_and_headers() {
    let request = Request::new(Method::Post, "/x").header("X-Token", "abc").header("Accept", "*/*");
    assert!(Guard::Method(Method::Post).check(&request));
    assert!(!Guard::Method(Method::Get).check(&request));
    assert!(Guard::header("x-token", "abc").check(&request));
    assert!(!Guard::header("x-token", "ABC").check(&request));
    assert!(!Guard::header("x-other", "abc").check(&request));
    assert!(request.has_header(b"ACCEPT", b"*/*"));
    assert!(check_guards(&vec![], &request));
    assert!(check_guards(&vec![Guard::Method(Method::Post), Guard::header("accept", "*/*")], &request));
    assert!(!check_guards(&vec![Guard::Method(Method::Post), Guard::header("accept", "x")], &request));
}

#[test]
fn route_builders() {
    assert_eq!(get(), Route::new().method(Method::Get));
    assert_eq!(head(), Route::new().guard(Guard::Method(Method::Head)));
    assert_eq!(method(Method::Put), Route::new().method(Method::Put));
    let mut route = get().guard(Guard::header("a", "b")).to(3).data(9);
    assert!(route.accepts(&Request::get("/").header("A", "b")));
    assert!(!route.accepts(&Request::get("/")));
    let guards = route.take_guards();
    assert_eq!(guards, vec![Guard::Method(Method::Get), Guard::header("a", "b")]);
    assert_eq!(route, Route::new().to(3).data(9));
    assert!(route.accepts(&Request::new(Method::Post, "/")));
}

#[test]
fn router_decisions() {
    let router = Router::new(
        vec![
            Resource::new("/a/{x}").route(get().data(5).data(6).to(1)).default_service(2),
            Resource::new("/a/b").to(3),
            Resource::new("/c").route(get().to(4)),
        ],
        None,
        false,
    );
    assert_eq!(
        router.recognize(&Request::get("/a/b")),
        Decision::Dispatch {
            target: Target::Route(1),
            params: vec![Param { name: b"x".to_vec(), value: b"b".to_vec() }],
            extractors: vec![5, 6],
        }
    );
    assert_eq!(
        router.recognize(&Request::new(Method::Put, "/a/b")),
        Decision::Dispatch {
            target: Target::ResourceDefault(2),
            params: vec![Param { name: b"x".to_vec(), value: b"b".to_vec() }],
            extractors: vec![],
        }
    );
    assert_eq!(router.recognize(&Request::new(Method::Put, "/c")), Decision::MethodNotAllowed);
    assert_eq!(router.recognize(&Request::get("/d")), Decision::NotFound);
    assert_eq!(router.recognize(&Request::get("/C")), Decision::NotFound);

    let router = Router::new(vec![Resource::new("/c").add_guards(vec![Guard::Method(Method::Get)]).to(4)], Some(9), true);
    assert_eq!(
        router.recognize(&Request::get("/C")),
        Decision::Dispatch { target: Target::Route(4), params: vec![], extractors: vec![] }
    );
    assert_eq!(
        router.recognize(&Request::new(Method::Post, "/c")),
        Decision::Dispatch { target: Target::AppDefault(9), params: vec![], extractors: vec![] }
    );
}

#[test]
fn extensions_keep_the_later_value() {
    let mut store = Extensions::new();
    assert_eq!(store.get(1), None);
    store.insert(1, 10);
    store.insert(2, 20);
    store.insert(1, 11);
    assert_eq!(store.get(1), Some(11));
    assert_eq!(store.get(2), Some(20));
    assert!(store.contains(2));
    assert!(!store.contains(3));
    assert_eq!(store.resolve(&vec![2, 1, 2]), Ok(vec![20, 11, 20]));
    assert_eq!(store.resolve(&vec![2, 4, 3]), Err(4));
    assert_eq!(store.resolve(&vec![]), Ok(vec![]));
    store.extend(&vec![(3, 30), (2, 21)]);
    assert_eq!(store.get(2), Some(21));
    assert_eq!(store.get(3), Some(30));
    store.install(&vec![(4, 100), (3, 101), (3, 102)], &vec![None, Some(31), None]);
    assert_eq!(store.get(4), None);
    assert_eq!(store.get(3), Some(31));
    assert_eq!(store.duplicate().get(3), Some(31));
    store.install(&vec![(5, 100), (6, 101)], &vec![Some(50)]);
    assert_eq!(store.get(5), Some(50));
    assert_eq!(store.get(6), None);
}

#[test]
fn readiness_of_many() {
    let (ready, pending, failed) = (Readiness::Ready, Readiness::Pending, Readiness::Failed);
    assert_eq!(Readiness::all(&[]), ready);
    assert_eq!(Readiness::all(&[ready, ready]), ready);
    assert_eq!(Readiness::all(&[ready, pending, ready]), pending);
    assert_eq!(Readiness::all(&[pending, failed, ready]), failed);
    assert_eq!(Readiness::all(&[failed, pending]), failed);
    assert_eq!(ready.and(ready), ready);
    assert_eq!(ready.and(pending), pending);
    assert_eq!(pending.and(failed), failed);
    assert_eq!(failed.and(ready), failed);
}

#[test]
fn identity_filter_is_ready_and_passes_requests() {
    let filter = Filter::new().new_service();
    assert_eq!(filter.poll_ready(), Readiness::Ready);
    let request = Request::new(Method::Put, "/x").header("a", "b");
    assert_eq!(filter.call(request.clone()), request);
    let mut steps = vec![9];
    filter.collect(&mut steps);
    assert_eq!(steps, vec![9]);
}

#[test]
fn filter_chains_collect_in_order() {
    let chain = AndThen::new(AndThen::new(Filter::new(), FilterFn::new(2)), FilterFn::new(1));
    let mut steps = Vec::new();
    chain.collect(&mut steps);
    assert_eq!(steps, vec![2, 1]);
}

#[test]
fn stack_applies_inner_then_outer() {
    let stack = Stack::new(Stack::new(Identity, Middleware::new(1)), Middleware::new(2));
    assert_eq!(stack.new_transform(Layers::bare()).into_order(), vec![2, 1]);
    let regrouped = Stack::new(Identity, Stack::new(Middleware::new(1), Middleware::new(2)));
    assert_eq!(regrouped.new_transform(Layers::bare()).into_order(), vec![2, 1]);
    let swapped = Stack::new(Middleware::new(2), Middleware::new(1));
    assert_eq!(swapped.new_transform(Layers::bare()).into_order(), vec![1, 2]);
    assert_eq!(Identity.new_transform(Layers::bare().wrapped_in(7)).into_order(), vec![7]);
    assert_eq!(
        Middleware::new(3).new_transform(Layers::bare().wrapped_in(7)).into_order(),
        vec![3, 7]
    );
}

#[test]
fn status_codes_have_three_digits() {
    assert_eq!(StatusCode::from_u16(99), None);
    assert_eq!(StatusCode::from_u16(100).map(|s| s.as_u16()), Some(100));
    assert_eq!(StatusCode::from_u16(999).map(|s| s.as_u16()), Some(999));
    assert_eq!(StatusCode::from_u16(1000), None);
    assert_eq!(StatusCode::from_u16(0), None);
    assert_eq!(StatusCode::ok().as_u16(), 200);
    assert_eq!(StatusCode::created().as_u16(), 201);
    assert_eq!(StatusCode::bad_request().as_u16(), 400);
    assert_eq!(StatusCode::not_found().as_u16(), 404);
    assert_eq!(StatusCode::method_not_allowed().as_u16(), 405);
    assert_eq!(StatusCode::internal_server_error().as_u16(), 500);
}

#[test]
fn default_renderer_hides_the_cause() {
    for failure in [Failure::MissingData(3), Failure::Service, Failure::Protocol] {
        assert_eq!(DefaultError.render(failure), Response::new(StatusCode::internal_server_error()));
    }
    let rendered = DefaultError.render(Failure::Extraction);
    assert_eq!(rendered.status.as_u16(), 400);
    assert!(rendered.headers.is_empty());
    assert!(rendered.body.is_empty());
}

#[test]
fn responses_are_built_piece_by_piece() {
    let response = Response::new(StatusCode::ok()).header("a", "1").body(b"hello").header("b", "2");
    assert_eq!(response.status, StatusCode::ok());
    assert_eq!(response.body, b"hello".to_vec());
    assert_eq!(response.headers.len(), 2);
    assert_eq!(response.headers[1].name, b"b".to_vec());
    assert_eq!(response.headers[1].value, b"2".to_vec());
}
