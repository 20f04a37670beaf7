use std::io::Write;
use std::sync::atomic::{AtomicUsize, Ordering};

use brz_ds::EphemeralBytesArena;
use brz_http_server::auth::{authenticate_optional, authenticate_required};
use brz_http_server::filter::Exchange;
use brz_http_server::rejection::default_rejection;
use brz_http_server::{
    AuthFailure, AuthRequest, Authenticator, BodyError, Cors, FilterDecision, Filtered, Header,
    HttpFilter, NoAuthenticator, Rejection, RejectionKind, Request, Response, ResponseBody,
    StatusCode,
};
use serde::de::{Deserialize, Deserializer, MapAccess, Visitor};

struct Echo {
    calls: AtomicUsize,
}

impl Exchange for Echo {
    fn finish(&self, _request: &Request<'_>, response: Response) -> Response {
        self.calls.fetch_add(1, Ordering::Relaxed);
        response
    }
}

struct Guard;

impl HttpFilter for Guard {
    fn before(&self, request: &Request<'_>) -> FilterDecision {
        if request.header("x-deny").is_some() {
            FilterDecision::respond(Response::empty(StatusCode::new(403)))
        } else {
            FilterDecision::Continue
        }
    }

    fn after(&self, _request: &Request<'_>, response: Response) -> Response {
        if response.status().as_u16() == 200 {
            response.with_status(StatusCode::new(201))
        } else {
            response
        }
    }
}

fn request<'a>(arena: &'a EphemeralBytesArena, headers: &'a [Header<'a>]) -> Request<'a> {
    let body = Box::leak(Box::new(brz_io::Writer::new(arena).into_reader()));
    Request::new("GET", "/", headers, body.view(), "127.0.0.1:1", arena)
}

fn call<E: Exchange>(handler: &E, request: &Request<'_>) -> Response {
    match handler.begin(request) {
        Some(response) => response,
        None => handler.finish(
            request,
            Response::static_bytes(StatusCode::new(200), b"ok"),
        ),
    }
}

#[test]
fn continues_and_filters_the_response() {
    let arena = EphemeralBytesArena::new(128);
    let handler = Filtered::new(
        Echo {
            calls: AtomicUsize::new(0),
        },
        Guard,
    );

    let response = call(&handler, &request(&arena, &[]));

    assert_eq!(response.status(), StatusCode::new(201));
    assert!(matches!(response.body(), ResponseBody::Static(body) if *body == b"ok"));
    assert_eq!(handler.inner().calls.load(Ordering::Relaxed), 1);
}

#[test]
fn short_circuits_the_wrapped_handler() {
    let arena = EphemeralBytesArena::new(128);
    let headers = [Header {
        name: "x-deny",
        value: b"1",
    }];
    let handler = Filtered::new(
        Echo {
            calls: AtomicUsize::new(0),
        },
        Guard,
    );

    let response = call(&handler, &request(&arena, &headers));

    assert_eq!(response.status(), StatusCode::new(403));
    assert_eq!(handler.inner().calls.load(Ordering::Relaxed), 0);
}

struct Stamp(u16);

impl HttpFilter for Stamp {
    fn after(&self, _request: &Request<'_>, response: Response) -> Response {
        let status = response.status().as_u16();
        response.with_status(StatusCode::new((status % 100) * 10 + self.0))
    }
}

#[test]
fn filters_see_the_answers_of_those_inside_them() {
    let arena = EphemeralBytesArena::new(128);
    let echo = Echo {
        calls: AtomicUsize::new(0),
    };
    let inner = Filtered::new(Filtered::new(echo, Guard), Stamp(2));
    let handler = Filtered::new(inner, Stamp(3));
    // 200 is made 201, then 12, then 123.
    let response = call(&handler, &request(&arena, &[]));
    assert_eq!(response.status().as_u16(), 123);
    let headers = [Header {
        name: "X-Deny",
        value: b"1",
    }];
    // 403 goes out through the filters around the one that gave it.
    let response = call(&handler, &request(&arena, &headers));
    assert_eq!(response.status().as_u16(), 323);
}

#[derive(Debug)]
struct Name<'a> {
    name: &'a str,
}

struct NameVisitor;

impl<'de> Visitor<'de> for NameVisitor {
    type Value = Name<'de>;

    fn expecting(&self, formatter: &mut std::fmt::Formatter<'_>) -> std::fmt::Result {
        formatter.write_str("an object with a name")
    }

    fn visit_map<A: MapAccess<'de>>(self, mut map: A) -> Result<Name<'de>, A::Error> {
        let mut name = "";
        while let Some(key) = map.next_key::<&str>()? {
            assert_eq!(key, "name");
            name = map.next_value()?;
        }
        Ok(Name { name })
    }
}

impl<'de> Deserialize<'de> for Name<'de> {
    fn deserialize<D: Deserializer<'de>>(deserializer: D) -> Result<Self, D::Error> {
        deserializer.deserialize_struct("Name", &["name"], NameVisitor)
    }
}

#[test]
fn borrowed_json_and_cached_raw_body_coexist() {
    let arena = EphemeralBytesArena::new(3);
    let raw = br#"{"name":"a\u0062"}"#;
    let mut writer = brz_io::Writer::new(&arena);
    writer.write_all(raw).unwrap();
    let body = writer.into_reader();
    let request = Request::new("POST", "/", &[], body.view(), "127.0.0.1:1", &arena);
    let json = request.json_body();
    let name: Name<'_> = json.decode().unwrap();
    assert_eq!(name.name, "ab");
    assert_eq!(body.position(), 0);
    let first = request.body();
    assert_eq!(first, raw);
    assert_eq!(request.body().as_ptr(), first.as_ptr());
    assert_eq!(request.json_body().decode::<Name<'_>>().unwrap().name, "ab");
    assert_eq!(name.name, "ab");
}

#[test]
fn requests_divide_their_target_and_find_headers() {
    let arena = EphemeralBytesArena::new(128);
    let reader = brz_io::Writer::new(&arena).into_reader();
    let headers = [
        Header {
            name: "X-A",
            value: b"1",
        },
        Header {
            name: "x-a",
            value: b"2",
        },
    ];
    let request = Request::new("GET", "/p?q=1?", &headers, reader.view(), "peer", &arena);
    assert_eq!((request.path(), request.query()), ("/p", Some("q=1?")));
    assert_eq!(request.header("x-A"), Some(&b"1"[..]));
    assert_eq!(request.header("y"), None);
    assert_eq!(request.response_bytes(4).len(), 0);
    let view = AuthRequest::from_request(&request);
    assert_eq!(view.method(), "GET");
    assert_eq!((view.path(), view.query()), ("/p", Some("q=1?")));
    assert_eq!(view.header("X-a"), Some(&b"1"[..]));
    assert_eq!(view.peer_addr(), "peer");
}

struct Strict;

impl Authenticator for Strict {
    fn reject(
        &self,
        _request: AuthRequest<'_>,
        _failure: AuthFailure,
        _arena: &EphemeralBytesArena,
    ) -> Response {
        Response::empty(StatusCode::new(418))
    }
}

#[test]
fn principals_are_admitted_or_refused() {
    let arena = EphemeralBytesArena::new(128);
    let request = request(&arena, &[]);
    let view = || AuthRequest::from_request(&request);
    let missing = || Err::<u8, AuthFailure>(AuthFailure::missing_credentials("Bearer"));
    let invalid = || Err::<u8, AuthFailure>(AuthFailure::invalid_credentials("Bearer"));
    let admitted = authenticate_required(&NoAuthenticator, Ok(7), view(), &arena);
    assert_eq!(admitted.unwrap(), 7);
    let refused = authenticate_required(&NoAuthenticator, missing(), view(), &arena).unwrap_err();
    assert_eq!(refused.status().as_u16(), 401);
    assert_eq!(refused.www_authenticate_ref(), Some("Bearer"));
    let absent = authenticate_optional(&NoAuthenticator, missing(), view(), &arena).unwrap();
    assert_eq!(absent, None);
    let present = authenticate_optional(&NoAuthenticator, Ok(7), view(), &arena).unwrap();
    assert_eq!(present, Some(7));
    let refused = authenticate_optional(&NoAuthenticator, invalid(), view(), &arena).unwrap_err();
    assert_eq!(refused.status().as_u16(), 401);
    let own = authenticate_required(&Strict, invalid(), view(), &arena).unwrap_err();
    assert_eq!(own.status().as_u16(), 418);
    assert!(NoAuthenticator.authenticate::<u8>(view()).is_err());
    for (failure, status) in [
        (AuthFailure::missing_credentials("Basic"), 401),
        (AuthFailure::invalid_credentials("Basic"), 401),
        (AuthFailure::Unavailable, 503),
        (AuthFailure::Internal, 500),
    ] {
        assert_eq!(failure.into_response().status().as_u16(), status);
    }
}

#[test]
fn rejections_keep_what_was_refused() {
    let rejection = Rejection::new(RejectionKind::Query, "page", Some("x"), "bad".to_owned());
    assert_eq!(rejection.parameter, "page");
    assert_eq!(rejection.input.as_deref(), Some("x"));
    assert_eq!(default_rejection(&rejection).status().as_u16(), 400);
    let media = Rejection::of_body(&BodyError::UnsupportedMediaType, "body");
    assert_eq!(media.kind, RejectionKind::ContentType);
    assert_eq!(default_rejection(&media).status().as_u16(), 415);
    let broken = Rejection::of_body(&BodyError::Invalid("broken".to_owned()), "body");
    assert_eq!(broken.kind, RejectionKind::Body);
    assert_eq!(broken.message, BodyError::Invalid("broken".to_owned()).to_string());
}

fn lines(response: &Response) -> String {
    response
        .header_blocks()
        .iter()
        .map(|block| String::from_utf8(block.as_slice().to_vec()).unwrap())
        .collect()
}

fn policy() -> Cors {
    let mut cors = Cors::default();
    cors.allow_origins = vec!["https://a".to_owned()];
    cors.allow_headers = vec!["X-Token".to_owned()];
    cors.expose_headers = vec!["x-b".to_owned(), "x-c".to_owned()];
    cors
}

#[test]
fn origins_are_permitted_by_name_or_all() {
    assert!(policy().permits_origin("https://a"));
    assert!(!policy().permits_origin("https://b"));
    assert!(Cors::permissive().permits_origin("https://b"));
    assert!(policy().validate());
    for change in [
        (|cors| cors.allow_origins = vec!["\n".to_owned()]) as fn(&mut Cors),
        |cors| cors.allow_methods = vec!["GE T".to_owned()],
        |cors| cors.allow_headers = vec!["a b".to_owned()],
        |cors| cors.expose_headers = vec!["".to_owned()],
    ] {
        let mut cors = policy();
        change(&mut cors);
        assert!(!cors.validate());
    }
}

#[test]
fn answers_name_the_permitted_origin() {
    let arena = EphemeralBytesArena::new(1024);
    let apply = |cors: &Cors, origin: Option<&[u8]>| {
        lines(&cors.apply(origin, Response::empty(StatusCode::new(200)), &arena))
    };
    assert_eq!(
        apply(&policy(), Some(b"https://a")),
        "access-control-allow-origin: https://a\r\nvary: Origin\r\naccess-control-expose-headers: x-b, x-c\r\n"
    );
    assert_eq!(apply(&policy(), Some(b"https://b")), "");
    assert_eq!(apply(&policy(), None), "");
    assert_eq!(
        apply(&Cors::permissive(), Some(b"https://b")),
        "access-control-allow-origin: *\r\n"
    );
    let mut credentials = Cors::permissive();
    credentials.allow_credentials = true;
    assert_eq!(
        apply(&credentials, Some(b"https://b")),
        "access-control-allow-origin: https://b\r\nvary: Origin\r\naccess-control-allow-credentials: true\r\n"
    );
}

#[test]
fn preflights_are_answered_by_the_policy() {
    let arena = EphemeralBytesArena::new(1024);
    let reader = brz_io::Writer::new(&arena).into_reader();
    let ask = |method: &'static str, headers: &[(&'static str, &'static str)]| {
        let headers: Vec<Header> = headers
            .iter()
            .map(|(name, value)| Header {
                name,
                value: value.as_bytes(),
            })
            .collect();
        policy().preflight(&Request::new(method, "/", &headers, reader.view(), "peer", &arena))
    };
    let allowed = ask(
        "OPTIONS",
        &[
            ("Origin", "https://a"),
            ("Access-Control-Request-Method", "PUT"),
            ("Access-Control-Request-Headers", "x-token , accept,"),
        ],
    )
    .unwrap();
    assert_eq!(allowed.status().as_u16(), 200);
    assert_eq!(allowed.body().as_slice(), b"OK");
    assert_eq!(allowed.content_type_ref(), Some("text/plain; charset=utf-8"));
    assert_eq!(
        lines(&allowed),
        "access-control-allow-origin: https://a\r\nvary: Origin\r\naccess-control-expose-headers: x-b, x-c\r\naccess-control-allow-methods: GET, HEAD, POST, PUT, PATCH, DELETE, OPTIONS\r\naccess-control-max-age: 600\r\naccess-control-allow-headers: x-token , accept,\r\n"
    );
    let refused = ask(
        "OPTIONS",
        &[
            ("Origin", "https://a"),
            ("Access-Control-Request-Method", "PUT"),
            ("Access-Control-Request-Headers", "x-other"),
        ],
    )
    .unwrap();
    assert_eq!(refused.status().as_u16(), 400);
    assert_eq!(refused.body().as_slice(), b"Disallowed CORS request");
    assert!(!lines(&refused).contains("allow-headers"));
    for headers in [
        &[("Origin", "https://b"), ("Access-Control-Request-Method", "PUT")],
        &[("Origin", "https://a"), ("Access-Control-Request-Method", "TRACE")],
    ] {
        assert_eq!(ask("OPTIONS", headers).unwrap().status().as_u16(), 400);
    }
    assert!(ask("OPTIONS", &[("Origin", "https://a")]).is_none());
    assert!(ask("GET", &[("Origin", "https://a"), ("Access-Control-Request-Method", "PUT")]).is_none());
}
