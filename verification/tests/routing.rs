use brz_ds::EphemeralBytesArena;
use brz_http_server::FromState;
use brz_http_server::macros::paths::route_priority;
use brz_http_server::registry::patterns_overlap;
use brz_http_server::registry::{collect, equivalent_shape, ApiRegistration};
use brz_http_server::route::match_route;
use brz_http_server::router::{unmatched, LegacyOffer, PreparedRoute, RouteDescriptor, RouteTarget, Router};
use std::sync::Arc;

#[test]
fn overlap_respects_empty_segments_and_terminal_catch_all() {
    for (left, right, expected) in [
        ("/items/:id", "/items/new", true),
        ("/items/:id", "/items/", false),
        ("/items/:id", "/items", false),
        ("/items/:id", "/items/new/view", false),
        ("/items/:id/view", "/items/new/:action", true),
        ("/items/:id/view", "/items/:other/edit", false),
        ("/items/*rest", "/items", true),
        ("/items/*rest", "/items/", true),
        ("/items/*rest", "/items/:id/view", true),
        ("/items/:id/*rest", "/items/", false),
        ("/items/:id/*rest", "/items/new", true),
        ("/items/:id/*rest", "/items//view", false),
        ("/items/:id/*rest", "/other/*rest", false),
        ("/items/*rest", "/items/:id/*tail", true),
        ("/items//:id", "/items/:other/view", false),
        ("/items/", "/items", false),
        ("/", "/*rest", true),
    ] {
        assert_eq!(patterns_overlap(left, right), expected, "{left}, {right}");
        assert_eq!(patterns_overlap(right, left), expected, "{right}, {left}");
    }
}

#[test]
fn raw_slashes_define_segments_before_component_decoding() {
    let matched = match_route("/files/a%2Fb", "/files/:key").unwrap();
    assert_eq!(matched.capture(0), Some("a/b"));
    assert!(match_route("/files/a%2Fb", "/files/:parent/:name").is_none());
    assert!(match_route("/files/a/b", "/files/:key").is_none());
}

#[test]
fn literals_and_captures_decode_once() {
    assert!(match_route("/users/%E4%B8%AD", "/users/中").is_some());
    let matched = match_route("/files/a%252Fb", "/files/:key").unwrap();
    assert_eq!(matched.capture(0), Some("a%2Fb"));
}


fn route(path: &'static str, methods: u16, priority: usize) -> RouteDescriptor {
    RouteDescriptor {
        path,
        methods,
        priority,
        api_log: true,
    }
}

fn routes(list: Vec<RouteDescriptor>) -> &'static [RouteDescriptor] {
    Box::leak(list.into_boxed_slice())
}

fn registrations(
    left: &'static [RouteDescriptor],
    right: &'static [RouteDescriptor],
) -> [ApiRegistration; 2] {
    [
        ApiRegistration {
            name: "Beta",
            routes: right,
        },
        ApiRegistration {
            name: "Alpha",
            routes: left,
        },
    ]
}

#[test]
fn validates_before_construction_and_reports_shared_methods() {
    let registrations = registrations(
        routes(vec![route("/items/:item", 2 | 32, 10)]),
        routes(vec![route("/items/:other", 2, 10)]),
    );
    let error = collect(&registrations).err().unwrap();
    assert_eq!(error.first_api, "Alpha");
    assert_eq!(error.second_api, "Beta");
    assert_eq!(error.first_path, "/items/:item");
    assert_eq!(error.second_path, "/items/:other");
    assert_eq!(error.methods, 2);
    let display = error.to_string();
    assert!(display.contains("GET"));
    assert!(!display.contains("POST"));
    assert!(display.contains("Alpha `/items/:item`"));
    assert!(display.contains("Beta `/items/:other`"));
}

#[test]
fn rejects_ambiguous_equal_priority_routes_including_same_api() {
    for (left, right) in [
        (
            routes(vec![route("/items/:id/view", 2, 10)]),
            routes(vec![route("/items/new/:action", 2, 10)]),
        ),
        (
            routes(vec![route("/items/:id/*rest", 2, 10)]),
            routes(vec![route("/items/new/*tail", 2, 10)]),
        ),
        (
            routes(vec![
                route("/items/:id", 2, 10),
                route("/items/:other", 2, 10),
            ]),
            routes(vec![]),
        ),
    ] {
        assert!(collect(&registrations(left, right)).is_err());
    }
}

#[test]
fn permits_disjoint_methods_and_specificity_then_constructs_once_in_name_order() {
    let registrations = registrations(
        routes(vec![
            route("/items/:id", 2, 10),
            route("/items/new", 2, 20),
            route("/items/*tail", 2, 0),
            route("/items/:id/view", 2, 30),
        ]),
        routes(vec![
            route("/items/:other", 32, 10),
            route("/items/:id/edit", 2, 30),
        ]),
    );
    let order = collect(&registrations).unwrap();
    let names: Vec<&str> = order.iter().map(|&index| registrations[index].name).collect();
    assert_eq!(names, ["Alpha", "Beta"]);
    assert!(collect(&[]).is_ok());
}

#[test]
fn equivalent_shapes_remain_conflicts_with_different_priorities() {
    let registrations = registrations(
        routes(vec![route("/items/:item", 2, 10)]),
        routes(vec![route("/items/:other", 2, 20)]),
    );
    assert!(collect(&registrations).is_err());
}

#[test]
fn equivalent_parameter_patterns_are_rejected_with_both_routes() {
    let result = collect(&registrations(
        routes(vec![route("/echo/:id", 2, route_priority("/echo/:id"))]),
        routes(vec![route("/echo/:other", 2, route_priority("/echo/:other"))]),
    ));
    let Err(error) = result else {
        panic!("ambiguous routes must be rejected before serving");
    };
    let diagnostic = error.to_string();
    assert!(diagnostic.contains("/echo/:id"), "{diagnostic}");
    assert!(diagnostic.contains("/echo/:other"), "{diagnostic}");
}

#[test]
fn intersecting_patterns_with_equal_specificity_are_rejected() {
    let result = collect(&registrations(
        routes(vec![route(
            "/cross/fixed/:value",
            2,
            route_priority("/cross/fixed/:value"),
        )]),
        routes(vec![route(
            "/cross/:value/fixed",
            2,
            route_priority("/cross/:value/fixed"),
        )]),
    ));
    assert!(
        result.is_err(),
        "both routes accept /cross/fixed/fixed with equal priority"
    );
}

#[test]
fn empty_collection_does_not_construct_unrelated_apis() {
    let order = collect(&[]).unwrap();
    assert!(order.is_empty());
    let router: Router<usize> = Router::default();
    let prepared = router.resolve("/fixture/parcels/blue", "GET");
    assert!(prepared.target.is_none());
    assert_eq!(prepared.allowed, 0);
}

#[test]
fn shapes_ignore_the_names_of_captures() {
    assert!(equivalent_shape("/a/:x/*rest", "/a/:y/*tail"));
    assert!(!equivalent_shape("/a/:x", "/a/*x"));
    assert!(!equivalent_shape("/a/b", "/a/c"));
}

struct Payload {
    value: u32,
}

struct SharedApi<T>
where
    T: Send + Sync,
{
    state: Arc<T>,
}

impl<T: Send + Sync> FromState<Arc<T>> for SharedApi<T> {
    fn from_state(state: &Arc<T>) -> Self {
        SharedApi {
            state: Clone::clone(state),
        }
    }
}

trait Provider {
    type State;
}

struct SharedProvider;
impl Provider for SharedProvider {
    type State = Arc<Payload>;
}

struct ProjectedApi<T: Provider> {
    state: T::State,
}

impl<T: Provider> FromState<T::State> for ProjectedApi<T>
where
    T::State: Clone,
{
    fn from_state(state: &T::State) -> Self {
        ProjectedApi {
            state: state.clone(),
        }
    }
}

struct BorrowedApi<'a, const N: usize> {
    state: &'a [u8; N],
}

impl<'a, const N: usize> FromState<&'a [u8; N]> for BorrowedApi<'a, N> {
    fn from_state(state: &&'a [u8; N]) -> Self {
        BorrowedApi { state: *state }
    }
}

#[test]
fn preserves_generic_bounds_associated_types_and_borrowed_state() {
    // Payload has no Clone implementation; only Arc<Payload> must be cloned.
    let state = Arc::new(Payload { value: 42 });
    let shared = SharedApi::from_state(&state);
    let projected = ProjectedApi::<SharedProvider>::from_state(&state);
    assert!(Arc::ptr_eq(&shared.state, &state));
    assert!(Arc::ptr_eq(&projected.state, &state));
    assert_eq!(shared.state.value, 42);
    assert_eq!(Arc::strong_count(&state), 3);

    let data = [1, 2, 3];
    let borrowed = BorrowedApi::from_state(&&data);
    assert!(std::ptr::eq(borrowed.state, &data));
}

const GET: u16 = 2;
const POST: u16 = 32;

fn add(router: &mut Router<usize>, handler: usize, path: &'static str, methods: u16) {
    router.push(handler, &[route(path, methods, route_priority(path))]);
}

/// The answering handler with the first capture, or the response to a request
/// that none answers.
fn answer(router: &Router<usize>, method: &str, target: &str) -> Result<(usize, String), (u16, String)> {
    let path = target.split('?').next().unwrap();
    let prepared = router.resolve(path, method);
    match prepared.target {
        Some(target) => Ok((
            router.handlers()[target.handler],
            prepared
                .captures
                .unwrap()
                .capture(0)
                .unwrap_or("")
                .to_owned(),
        )),
        None => {
            let arena = EphemeralBytesArena::new(256);
            let response = unmatched(prepared.allowed, &arena);
            let headers = response
                .header_blocks()
                .iter()
                .map(|block| String::from_utf8(block.as_slice().to_vec()).unwrap())
                .collect();
            Err((response.status().as_u16(), headers))
        }
    }
}

const SHAPES: [&str; 28] = [
    "/probe/a/:value",
    "/probe/a/:value/b",
    "/probe/a/:value/c",
    "/probe/a/d/:value/e",
    "/probe/f/g/a/:value/h",
    "/probe/f/g/i/:value",
    "/probe/f/j/:value/k",
    "/probe/l/:value",
    "/probe/l/:value/m",
    "/probe/l/:value/n",
    "/probe/o/p/:value/q",
    "/probe/r/:value",
    "/probe/r/:value/s/t",
    "/probe/r/:value/u",
    "/probe/r/:value/v/w",
    "/probe/r/:value/v/x",
    "/probe/r/:value/v/y",
    "/probe/r/:value/z",
    "/probe/r/:value/j",
    "/probe/aa/:value/j",
    "/probe/ab/ac/:value/ad",
    "/probe/ab/ac/:value/ae",
    "/probe/ab/ac/:value/af",
    "/probe/ab/ac/:value/ag",
    "/probe/ab/ac/:value/ah",
    "/probe/ab/ai/j/:value/b",
    "/probe/ab/aj/:value",
    "/probe/ak/al/:value/l",
];

#[test]
fn synthetic_shape_matrix_selects_every_dynamic_route() {
    let mut router = Router::default();
    for (marker, path) in SHAPES.into_iter().enumerate() {
        add(&mut router, marker, path, GET);
    }
    for (marker, path) in SHAPES.into_iter().enumerate() {
        let plain = path.replace(":value", "plain-value");
        assert_eq!(
            answer(&router, "GET", &plain),
            Ok((marker, "plain-value".to_owned()))
        );
        assert_eq!(
            answer(&router, "GET", &path.replace(":value", "left%2Fright")),
            Ok((marker, "left/right".to_owned()))
        );
        let (status, headers) = answer(&router, "DELETE", &plain).unwrap_err();
        assert_eq!(status, 405, "{path}");
        assert_eq!(headers, "allow: GET\r\n", "{path}");
    }
    assert_eq!(answer(&router, "GET", "/probe/r/v/v/none").unwrap_err().0, 404);
}

const CASES: [&str; 11] = [
    "/svc/parcels/:parcel_id",
    "/svc/parcels/batch/:batch_id/entries",
    "/svc/internal/journal/session/:session_key",
    "/svc/library/pages/:page_key/text",
    "/svc/jobs/:job_id",
    "/svc/jobs/:job_id/remote-node/health",
    "/svc/jobs/:job_id/remote-node/files",
    "/svc/jobs/:job_id/environment-check",
    "/svc/jobs/:job_id/tools",
    "/svc/v2/catalog/tools/:tool_id/package",
    "/svc/v2/events/:event_key",
];

fn fill(template: &str, value: &str) -> String {
    template
        .split('/')
        .map(|segment| if segment.starts_with(':') { value } else { segment })
        .collect::<Vec<_>>()
        .join("/")
}

fn fixture_router(reverse: bool) -> Router<usize> {
    let mut groups: Vec<(usize, &'static str)> = CASES.into_iter().enumerate().collect();
    if reverse {
        groups.reverse();
    }
    groups
        .into_iter()
        .fold(Router::default(), |router, (marker, path)| {
            router.merge(Router::new(marker, &[route(path, GET, route_priority(path))]))
        })
}

#[test]
fn all_eleven_shapes_capture_values_in_both_registration_orders() {
    for reverse in [false, true] {
        let router = fixture_router(reverse);
        for (marker, template) in CASES.into_iter().enumerate() {
            for value in ["0", "7", "123456789"] {
                assert_eq!(
                    answer(&router, "GET", &fill(template, value)),
                    Ok((marker, value.to_owned()))
                );
            }
            assert_eq!(
                answer(
                    &router,
                    "GET",
                    &format!("{}?ignored=/wrong/branch", fill(template, "%34%32"))
                ),
                Ok((marker, "42".to_owned()))
            );
            assert_eq!(
                answer(&router, "GET", &fill(template, "opaque-key%2B%E4%B8%AD")),
                Ok((marker, "opaque-key+中".to_owned()))
            );
            let long = "x".repeat(180);
            assert_eq!(
                answer(&router, "GET", &fill(template, &long)),
                Ok((marker, long.clone()))
            );
        }
    }
}

#[test]
fn malformed_shapes_and_wrong_methods_never_invoke_business_handlers() {
    let router = fixture_router(false);
    for template in CASES {
        let path = fill(template, "42");
        for method in ["POST", "DELETE", "PATCH", "HEAD", "OPTIONS", "CUSTOM"] {
            assert_eq!(
                answer(&router, method, &path),
                Err((405, "allow: GET\r\n".to_owned())),
                "{method} {path}"
            );
        }
        for invalid in [
            fill(template, ""),
            fill(template, "42/extra"),
            format!("{path}/"),
            format!("{path}/extra"),
            path.replacen("/svc/", "/elsewhere/", 1),
        ] {
            assert_eq!(answer(&router, "GET", &invalid), Err((404, String::new())), "GET {invalid}");
        }
    }
    for invalid in [
        "/svc/parcels/batch/42",
        "/svc/jobs/42/remote-node",
        "/svc/jobs/remote-node/42/files",
        "/svc/jobs/42/remote-node/tools",
        "/svc/jobs/42/health",
        "/svc/library/pages/42/entries",
        "/svc/v2/catalog/tools/42/text",
    ] {
        assert_eq!(answer(&router, "GET", invalid), Err((404, String::new())), "GET {invalid}");
    }
}

#[test]
fn encoded_slashes_stay_inside_one_decoded_capture() {
    let router = fixture_router(false);
    assert_eq!(
        answer(&router, "GET", "/svc/v2/events/a%2Fb"),
        Ok((10, "a/b".to_owned()))
    );
    assert_eq!(
        answer(&router, "GET", "/svc/v2/events/a%252Fb"),
        Ok((10, "a%2Fb".to_owned()))
    );
    assert_eq!(
        answer(&router, "GET", "/svc/v2/events/a/b"),
        Err((404, String::new()))
    );
}

#[test]
fn shared_prefixes_and_suffixes_do_not_steal_each_others_routes() {
    for static_first in [false, true] {
        let dynamic = fixture_router(false);
        let mut neighbors = Router::default();
        add(&mut neighbors, 100, "/svc/jobs/search", GET);
        add(&mut neighbors, 101, "/svc/jobs/42/remote-node/health", GET);
        add(&mut neighbors, 102, "/svc/jobs/42/tools", POST);
        let router = if static_first {
            neighbors.merge(dynamic)
        } else {
            dynamic.merge(neighbors)
        };
        assert_eq!(answer(&router, "GET", "/svc/jobs/search").unwrap().0, 100);
        assert_eq!(
            answer(&router, "GET", "/svc/jobs/42/remote-node/health").unwrap().0,
            101
        );
        for (path, marker, value) in [
            ("/svc/jobs/42", 4, "42"),
            ("/svc/jobs/43/remote-node/health", 5, "43"),
            ("/svc/jobs/42/remote-node/files", 6, "42"),
            ("/svc/jobs/42/environment-check", 7, "42"),
            ("/svc/jobs/42/tools", 8, "42"),
        ] {
            assert_eq!(
                answer(&router, "GET", path),
                Ok((marker, value.to_owned()))
            );
        }
        assert_eq!(answer(&router, "POST", "/svc/jobs/42/tools").unwrap().0, 102);
        assert_eq!(
            answer(&router, "DELETE", "/svc/jobs/42/tools"),
            Err((405, "allow: GET, POST\r\n".to_owned()))
        );
    }
}

#[test]
fn merged_same_path_routes_by_method() {
    let router = Router::new(1_usize, &[route("/items", GET, route_priority("/items"))])
        .merge(Router::new(2, &[route("/items", POST, route_priority("/items"))]));
    assert_eq!(answer(&router, "POST", "/items").unwrap().0, 2);
    assert_eq!(answer(&router, "GET", "/items").unwrap().0, 1);
}

#[test]
fn disjoint_methods_share_a_path_and_keep_method_errors() {
    let mut router = Router::default();
    add(&mut router, 1, "/split/:id", GET);
    add(&mut router, 2, "/split/:id", POST);
    for (method, marker) in [("GET", 1), ("POST", 2)] {
        assert_eq!(
            answer(&router, method, "/split/42"),
            Ok((marker, "42".to_owned()))
        );
    }
    assert_eq!(
        answer(&router, "DELETE", "/split/42"),
        Err((405, "allow: GET, POST\r\n".to_owned()))
    );
}

#[test]
fn overlapping_routes_with_different_specificity_keep_static_precedence() {
    let mut router = Router::default();
    add(&mut router, 1, "/choice/:name", GET);
    add(&mut router, 2, "/choice/fixed", GET);
    assert_eq!(answer(&router, "GET", "/choice/fixed").unwrap().0, 2);
    assert_eq!(
        answer(&router, "GET", "/choice/other"),
        Ok((1, "other".to_owned()))
    );
}

#[test]
fn priorities_order_catch_alls_captures_and_literals() {
    assert_eq!(route_priority("/a/b"), (1 << 24) + 3 * 1024 + 3);
    assert_eq!(route_priority("/a/:b"), (1 << 24) + 2 * 1024 + 3);
    assert_eq!(route_priority("/a/*b"), 2 * 1024 + 3);
}

#[test]
fn handlers_without_descriptors_compete_by_priority() {
    let mut router = Router::new(7_usize, &[route("/a", GET, 10)]);
    router.push(8, &[]);
    assert_eq!(*router.legacy_handlers(), [1]);
    let offer = |priority: Option<usize>, metrics: Option<usize>, methods: u16| LegacyOffer {
        priority,
        metrics,
        methods,
    };
    let stays = router.prepare("/a", "GET", &[offer(Some(10), None, POST)]);
    assert_eq!(
        stays.target,
        Some(RouteTarget {
            handler: 0,
            endpoint: Some(0),
            priority: 10,
            api_log: true
        })
    );
    assert_eq!(stays.allowed, GET | POST);
    assert!(stays.captures.is_some());
    let taken = router.prepare("/a", "GET", &[offer(Some(11), Some(11), 0)]);
    assert_eq!(
        taken.target,
        Some(RouteTarget {
            handler: 1,
            endpoint: None,
            priority: 11,
            api_log: true
        })
    );
    assert_eq!(taken.metrics, taken.target);
    assert!(taken.captures.is_none());
    let counted = router.prepare("/b", "GET", &[offer(None, Some(3), POST)]);
    assert!(counted.target.is_none());
    assert_eq!(
        counted.metrics,
        Some(RouteTarget {
            handler: 1,
            endpoint: None,
            priority: 3,
            api_log: true
        })
    );
}

#[test]
fn matches_hold_at_most_eight_captures() {
    assert!(match_route("/1/2/3/4/5/6/7/8", "/:a/:b/:c/:d/:e/:f/:g/:h").is_some());
    assert!(match_route("/1/2/3/4/5/6/7/8/9", "/:a/:b/:c/:d/:e/:f/:g/:h/:i").is_none());
    let rest = match_route("/files", "/files/*rest").unwrap();
    assert_eq!(rest.capture(0), Some(""));
    assert_eq!(rest.capture(1), None);
    let rest = match_route("/files/a%20b/c", "/files/*rest").unwrap();
    assert_eq!(rest.capture(0), Some("a b/c"));
}

#[test]
fn routes_opt_out_of_the_api_log_for_their_own_requests() {
    let mut quiet = route("/health", GET, 10);
    quiet.api_log = false;
    let router = Router::new(1_usize, &[quiet, route("/*rest", GET, 1)]);
    assert!(!router.prepare("/health", "GET", &[]).api_log());
    assert!(router.prepare("/other", "GET", &[]).api_log());
    assert!(router.prepare("/health", "PUT", &[]).api_log());
    assert!(PreparedRoute::legacy(None).api_log());
}

#[test]
fn escaped_slashes_stay_within_their_capture() {
    let matched = match_route("/a%2Fb/c%20d/e", "/:x/:y/e").unwrap();
    assert_eq!(matched.capture(0), Some("a/b"));
    assert_eq!(matched.capture(1), Some("c d"));
    assert_eq!(matched.capture(2), None);
    assert!(match_route("/a%2Fb", "/a/b").is_none());
    assert!(match_route("/a//b", "/a//b").is_some());
    assert!(match_route("/", "/:x").is_none());
}

#[test]
fn overlapping_templates_match_a_path_in_common() {
    for (left, right, path) in [
        ("/items/:id/view", "/items/new/:action", "/items/new/view"),
        ("/:x/b", "/50%/:y", "/%35%30%25/b"),
        ("/items/*rest", "/items", "/items"),
        ("/items/*rest", "/items/:id/*tail", "/items/a/"),
        ("/", "/*rest", "/"),
        ("*all", "/a", "/a"),
    ] {
        assert!(patterns_overlap(left, right), "{left}, {right}");
        assert!(match_route(path, left).is_some(), "{path}, {left}");
        assert!(match_route(path, right).is_some(), "{path}, {right}");
    }
    // Overlap alone is not enough where a template matches nothing.
    assert!(patterns_overlap("/*rest/b", "/a"));
    assert!(match_route("/a", "/*rest/b").is_none());
}
