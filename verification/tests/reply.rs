use brz_ds::EphemeralBytesArena;
use brz_http_server::params::QueryParams;
use brz_http_server::reply::{encode_location, response, result_response};
use brz_http_server::server::write::encode_response_head;
use brz_http_server::{
    ApiError, Binary, Bytes, HeaderBlockError, Html, HttpResponse, IntoHttpError, Redirect,
    Response, ResponseBody, StatusCode, Text,
};

#[test]
fn locations_keep_delimiters_and_escape_the_rest() {
    assert_eq!(encode_location("/a b?q=%20&x=\u{e9}"), "/a%20b?q=%20&x=%C3%A9");
}

fn head(response: &Response) -> String {
    let arena = EphemeralBytesArena::new(4096);
    let head = encode_response_head(&arena, response, true).unwrap();
    String::from_utf8(head.as_slice().to_vec()).unwrap()
}

fn callback(query: &str) -> String {
    let arena = EphemeralBytesArena::new(4096);
    let params = QueryParams::new(Some(query));
    let redirect = params.get("redirect").unwrap();
    head(&response(Redirect::found(redirect.to_owned()), &arena))
}

#[test]
fn redirect_ascii_works() {
    let response = callback("redirect=%2Flogin%3Fsuccess%3Dtrue");
    assert!(response.starts_with("HTTP/1.1 302 Found\r\n"), "{response}");
    assert!(
        response.contains("location: /login?success=true\r\n"),
        "{response}"
    );
    assert!(response.ends_with("\r\n\r\n"));
}

#[test]
fn redirect_encodes_source_error_message() {
    let response = callback("redirect=%2Flogin%3Fmessage%3Dbad+token");
    assert!(
        response.contains("location: /login?message=bad%20token\r\n"),
        "{response}"
    );
}

#[test]
fn api_error_preserves_business_status() {
    assert_eq!(
        ApiError::new(StatusCode::new(409), "conflict".to_owned()).to_string(),
        "conflict"
    );
}

struct Refused;

impl IntoHttpError for Refused {
    fn into_http_error(self, _arena: &EphemeralBytesArena) -> Response {
        Response::empty(StatusCode::new(409))
    }
}

#[test]
fn values_become_responses_by_their_type() {
    let arena = EphemeralBytesArena::new(4096);
    let text = response(Text("a".to_owned()), &arena);
    assert_eq!(text.content_type_ref(), Some("text/plain; charset=utf-8"));
    assert_eq!(text.body().as_slice(), b"a");
    let html = response(Html("<p>".to_owned()), &arena);
    assert_eq!(html.content_type_ref(), Some("text/html; charset=utf-8"));
    let binary = response(Binary::new(Bytes::from_static(b"\0\xff")), &arena);
    assert_eq!(binary.content_type_ref(), Some("application/octet-stream"));
    assert_eq!(binary.body().as_slice(), b"\0\xff");
    let created = response((StatusCode::new(201), Text("a".to_owned())), &arena);
    assert_eq!(created.status().as_u16(), 201);
    assert_eq!(created.body().as_slice(), b"a");
    let empty = response(StatusCode::new(204), &arena);
    assert_eq!(empty.status().as_u16(), 204);
    let ok: Result<Text, Refused> = Ok(Text("a".to_owned()));
    assert_eq!(result_response(ok, &arena).status().as_u16(), 200);
    let refused: Result<Text, Refused> = Err(Refused);
    assert_eq!(result_response(refused, &arena).status().as_u16(), 409);
    let moved = response(Redirect::temporary("/b".to_owned()), &arena);
    assert_eq!(moved.status().as_u16(), 307);
    assert_eq!(ApiError::bad_request("x".to_owned()).status.as_u16(), 400);
    assert_eq!(ApiError::forbidden("x".to_owned()).status.as_u16(), 403);
}

#[test]
fn headers_are_checked_and_kept_in_order() {
    let arena = EphemeralBytesArena::new(4096);
    let built = HttpResponse::new(Text("abc".to_owned()))
        .status(StatusCode::new(206))
        .header("X-One", "1")
        .unwrap()
        .header("x-two", "2")
        .unwrap()
        .header("x-ONE", "3")
        .unwrap();
    let built = response(built, &arena);
    assert_eq!(built.status().as_u16(), 206);
    assert_eq!(
        built.header_blocks()[0].as_slice(),
        b"x-one: 1\r\nx-one: 3\r\nx-two: 2\r\n"
    );
    let plain = || HttpResponse::new(Text(String::new()));
    assert!(matches!(plain().header("a b", "1"), Err(HeaderBlockError::InvalidName)));
    assert!(matches!(plain().header("a", "1\n"), Err(HeaderBlockError::InvalidValue)));
    assert!(matches!(
        plain().header("Content-Length", "1"),
        Err(HeaderBlockError::ReservedName)
    ));
    assert!(matches!(response(plain(), &arena).body(), ResponseBody::Owned(_)));
}
