use std::io::Write;

use brz_ds::EphemeralBytesArena;
use brz_http_server::request::{Header, Request};
use brz_http_server::response::{Response, StatusCode};
use brz_http_server::server::connection::{
    body_permits, conclude, releases_buffer, Conclusion, RequestOutcome, ServeAction, ServeEvent,
    Serving,
};
use brz_http_server::server::receive::{
    accept_head, after_read, answer, answer_early, police, received_body, received_head, validate_partial_head,
    HeadScanner, ReceiveAction, Receiving,
};
use brz_http_server::server::write::{
    encode_response_head, last_chunk_bytes, write_plan, Download, DownloadError, DownloadStep,
    VectoredWrite, WritePlan,
};
use brz_http_server::server::{
    header_contains_token, inspect_parsed_request, map_parse_error, parse_content_length,
    trim_ascii, Duration, HeadError, Inspection, ParsedHead, RequestFailure, ServerConfig,
    MAX_REQUEST_HEADERS,
};
use brz_http_server::{Cors, Error};
use brz_io::Writer;

fn config() -> ServerConfig {
    ServerConfig::new(EphemeralBytesArena::new(64 * 1024))
}

fn parse(raw: &[u8]) -> Option<ParsedHead<'_>> {
    let mut headers = [httparse::EMPTY_HEADER; MAX_REQUEST_HEADERS];
    let mut parsed = httparse::Request::new(&mut headers);
    match parsed.parse(raw) {
        Ok(httparse::Status::Complete(length)) => Some(ParsedHead {
            length,
            version: parsed.version,
            method: parsed.method,
            path: parsed.path,
            headers: parsed
                .headers
                .iter()
                .map(|header| Header {
                    name: header.name,
                    value: header.value,
                })
                .collect(),
        }),
        _ => None,
    }
}

#[test]
fn scanner_handles_every_boundary_lf_and_pipelining() {
    for raw in [
        &b"GET / HTTP/1.1\r\nHost: a\r\n\r\nBODY"[..],
        &b"GET / HTTP/1.1\nHost: a\n\nBODY"[..],
        &b"\r\n\r\nGET / HTTP/1.1\r\n\r\nBODY"[..],
    ] {
        for first in 1..raw.len() {
            let arena = EphemeralBytesArena::new(4096);
            let mut writer = Writer::with_initial_segment_size(&arena, first);
            writer.write_all(raw).unwrap();
            let reader = writer.into_reader();
            let mut scanner = HeadScanner::default();
            let end = scanner.scan(reader.view(), raw.len()).unwrap().unwrap();
            assert_eq!(end, raw.len() - 4);
            let mut headers = [httparse::EMPTY_HEADER; 4];
            let mut parsed = httparse::Request::new(&mut headers);
            assert!(parsed
                .parse(reader.view().peek_bytes(0, end).unwrap())
                .unwrap()
                .is_complete());
        }
    }
}

#[test]
fn scanner_enforces_header_limit() {
    let arena = EphemeralBytesArena::new(4096);
    let mut writer = Writer::new(&arena);
    writer
        .write_all(b"GET / HTTP/1.1\r\nHost: unfinished")
        .unwrap();
    let input = writer.into_reader();
    assert!(matches!(
        HeadScanner::default().scan(input.view(), 8),
        Err(RequestFailure::HeadersTooLarge)
    ));
}

#[test]
fn scanner_agrees_with_httparse_on_generated_complete_requests() {
    let seeds = [
        &b"GET / HTTP/1.1\r\nHost: x\r\n\r\n"[..],
        &b"\r\nGET /x?q=y HTTP/1.1\nHost: x\n\n"[..],
        &b"POST / HTTP/1.1\r\nContent-Length: 0\r\nContent-Length: 0\r\n\r\n"[..],
    ];
    let config = config();
    for seed in seeds {
        for mutation in 0..seed.len() * 8 {
            let mut raw = seed.to_vec();
            let index = mutation / 8;
            raw[index] ^= 1 << (mutation % 8);
            // Ensure framing bytes exist even after mutating the delimiter.
            raw.extend_from_slice(b"\r\n\r\n");
            let expected = parse(&raw).and_then(|head| {
                inspect_parsed_request(&head, head.length, &config)
                    .map(|_| head.length)
                    .ok()
            });
            for initial in [1, 2, 7, 2048] {
                let arena = EphemeralBytesArena::new(4096);
                let mut writer = Writer::with_initial_segment_size(&arena, initial);
                writer.write_all(&raw).unwrap();
                let input = writer.into_reader();
                let end = HeadScanner::default()
                    .scan(input.view(), config.max_request_head_bytes)
                    .unwrap();
                let actual = end.and_then(|end| {
                    let head = input.peek_bytes(0, end).unwrap();
                    accept_head(head, &config).map(|_| end).ok()
                });
                assert_eq!(actual, expected, "input={raw:?}, initial={initial}");
            }
        }
    }
}

#[test]
fn incomplete_header_errors_match_httparse_before_waiting_for_more_bytes() {
    for raw in [
        &b"\0"[..],
        &b"GET / HTTP/1.1\r\nBad Header: x\r\n"[..],
        &b"GET / HTTP/1.1\r\nGood: x\r\nBad\0"[..],
        &b"POST / HTTP/1.1\r\nGood: partial"[..],
    ] {
        let mut headers = [httparse::EMPTY_HEADER; MAX_REQUEST_HEADERS];
        let expected = httparse::Request::new(&mut headers).parse(raw).is_err();
        for initial in [2, 2048] {
            let arena = EphemeralBytesArena::new(4096);
            let mut writer = Writer::with_initial_segment_size(&arena, initial);
            writer.write_all(raw).unwrap();
            let reader = writer.into_reader();
            assert_eq!(
                validate_partial_head(reader.view(), &arena).is_err(),
                expected
            );
            assert_eq!(reader.position(), 0);
        }
    }
}

#[test]
fn vectored_write_handles_partial_progress_and_empty_slices() {
    let mut output: Vec<u8> = Vec::new();
    let mut write = VectoredWrite::new(vec![&b""[..], b"abc", b"", b"defghij", b""]);
    while !write.is_complete() {
        let bytes: Vec<u8> = write.buffers().concat();
        let taken = bytes.len().min(2);
        output.extend_from_slice(&bytes[..taken]);
        assert!(write.advance(taken));
    }
    assert_eq!(&output, b"abcdefghij");
    assert!(VectoredWrite::new(vec![&b""[..]; 3]).is_complete());
}

#[test]
fn a_zero_length_write_does_not_spin() {
    let mut write = VectoredWrite::new(vec![&b"x"[..]]);
    assert!(!write.advance(0));
    assert!(!write.is_complete());
}

#[test]
fn bind_rejects_invalid_limits() {
    let mut invalid = config();
    invalid.max_connections = 0;
    assert!(matches!(
        invalid.validate(),
        Err(Error::InvalidConfig("max_connections must be greater than zero"))
    ));
    assert!(config().validate().is_ok());
}

#[test]
fn every_limit_is_checked_in_order() {
    fn message(change: fn(&mut ServerConfig)) -> String {
        let mut changed = config();
        change(&mut changed);
        changed.validate().unwrap_err().to_string()
    }
    let prefix = "invalid server configuration: ";
    for (change, reason) in [
        (
            (|config| config.initial_request_segment_bytes = 0) as fn(&mut ServerConfig),
            "initial_request_segment_bytes must be greater than zero",
        ),
        (
            |config| {
                let mut cors = Cors::permissive();
                cors.allow_origins = vec!["a\nb".to_owned()];
                config.cors = Some(cors);
            },
            "invalid CORS policy",
        ),
        (
            |config| config.max_request_head_bytes = 0,
            "max_request_head_bytes must be greater than zero",
        ),
        (
            |config| config.max_request_body_bytes = 0,
            "max_request_body_bytes must be greater than zero",
        ),
        (
            |config| config.max_in_flight_request_body_bytes = 1,
            "max_in_flight_request_body_bytes must be at least max_request_body_bytes",
        ),
        (
            |config| {
                config.max_request_body_bytes = u32::MAX as usize + 1;
                config.max_in_flight_request_body_bytes = usize::MAX;
            },
            "max_request_body_bytes must not exceed u32::MAX",
        ),
        (
            |config| config.request_timeout = Duration { nanos: 0 },
            "request_timeout must be greater than zero",
        ),
        (
            |config| config.shutdown_grace = Duration { nanos: 0 },
            "shutdown_grace must be greater than zero",
        ),
    ] {
        assert_eq!(message(change), format!("{prefix}{reason}"));
    }
    assert_eq!(Error::Io("gone".to_owned()).to_string(), "I/O error: gone");
    assert!(Error::Task("gone".to_owned()).to_string().ends_with("gone"));
}

fn inspect(raw: &[u8]) -> Result<Inspection, RequestFailure> {
    accept_head(raw, &config()).map(|head| head.inspection)
}

#[test]
fn framing_is_taken_from_the_headers() {
    let inspection = inspect(b"POST / HTTP/1.1\r\nContent-Length: 3\r\n\r\n").unwrap();
    assert_eq!(inspection.head_len, 38);
    assert_eq!(inspection.total_len, 41);
    assert!(inspection.keep_alive);
    let closing = inspect(b"GET / HTTP/1.1\r\nConnection: x, Close\r\n\r\n").unwrap();
    assert!(!closing.keep_alive);
    for (raw, failure) in [
        (
            &b"POST / HTTP/1.1\r\nTransfer-Encoding: chunked\r\n\r\n"[..],
            RequestFailure::UnsupportedTransferEncoding,
        ),
        (
            &b"POST / HTTP/1.1\r\nContent-Length: 3\r\nContent-Length: 4\r\n\r\n"[..],
            RequestFailure::BadRequest,
        ),
        (
            &b"POST / HTTP/1.1\r\nContent-Length: x\r\n\r\n"[..],
            RequestFailure::BadRequest,
        ),
        (
            &b"GET / HTTP/1.0\r\n\r\n"[..],
            RequestFailure::UnsupportedVersion,
        ),
        (
            &b"POST / HTTP/1.1\r\nContent-Length: 99999999999\r\n\r\n"[..],
            RequestFailure::BodyTooLarge,
        ),
        (&b"GET / HTTP/1.1\r\nBad Header: x\r\n\r\n"[..], RequestFailure::BadRequest),
    ] {
        assert_eq!(
            format!("{:?}", inspect(raw).unwrap_err()),
            format!("{failure:?}"),
            "{raw:?}"
        );
    }
    let head = accept_head(b"GET /a?b HTTP/1.1\r\nX-A: 1\r\n\r\n", &config()).unwrap();
    assert_eq!((head.method, head.target), ("GET", "/a?b"));
    assert_eq!(head.headers[0].name, "X-A");
    assert_eq!(head.headers[0].value, b"1");
    let mut many = b"GET / HTTP/1.1\r\n".to_vec();
    for _ in 0..MAX_REQUEST_HEADERS + 1 {
        many.extend_from_slice(b"a: b\r\n");
    }
    many.extend_from_slice(b"\r\n");
    assert!(matches!(inspect(&many), Err(RequestFailure::HeadersTooLarge)));
    assert!(matches!(
        map_parse_error(HeadError::TooManyHeaders),
        RequestFailure::HeadersTooLarge
    ));
}

#[test]
fn failures_have_statuses_and_messages() {
    for (failure, status) in [
        (RequestFailure::BadRequest, 400),
        (RequestFailure::HeadersTooLarge, 431),
        (RequestFailure::BodyTooLarge, 413),
        (RequestFailure::UnsupportedTransferEncoding, 501),
        (RequestFailure::UnsupportedVersion, 505),
    ] {
        assert_eq!(failure.status().as_u16(), status);
        assert!(!failure.to_string().is_empty());
    }
}

#[test]
fn header_values_are_trimmed_and_searched() {
    assert_eq!(trim_ascii(b" \ta b\t "), b"a b");
    assert_eq!(trim_ascii(b"\t"), b"");
    assert_eq!(parse_content_length(b" 42 ").unwrap(), 42);
    assert!(matches!(
        parse_content_length(b""),
        Err(RequestFailure::BadRequest)
    ));
    assert!(matches!(
        parse_content_length(b"+1"),
        Err(RequestFailure::BadRequest)
    ));
    assert!(parse_content_length(b"99999999999999999999999999").is_err());
    assert!(header_contains_token(b"keep-alive, CLOSE", b"close"));
    assert!(!header_contains_token(b"closed", b"close"));
}

#[test]
fn a_request_is_received_step_by_step() {
    let config = config();
    let arena = EphemeralBytesArena::new(4096);
    let mut writer = Writer::new(&arena);
    writer.write_all(b"POST / HTTP/1.1\r\nContent-Length: 3\r\n").unwrap();
    let reader = writer.into_reader();
    let (action, state) = Receiving::new().next(reader.view(), &config);
    assert!(matches!(action, Ok(ReceiveAction::Read { wait: false, .. })), "{action:?}");

    let mut writer = Writer::new(&arena);
    writer
        .write_all(b"POST / HTTP/1.1\r\nContent-Length: 3\r\n\r\na")
        .unwrap();
    let reader = writer.into_reader();
    let (action, state) = state.next(reader.view(), &config);
    assert_eq!(action.unwrap(), ReceiveAction::ReserveBudget { bytes: 3 });
    let (action, state) = state.next(reader.view(), &config);
    assert!(
        matches!(
            action,
            Ok(ReceiveAction::ReserveRoom { bytes: 2 } | ReceiveAction::Read { wait: false, maximum: 2 })
        ),
        "{action:?}"
    );

    let mut writer = Writer::new(&arena);
    writer
        .write_all(b"POST / HTTP/1.1\r\nContent-Length: 3\r\n\r\nabcGET")
        .unwrap();
    let reader = writer.into_reader();
    let (action, state) = state.next(reader.view(), &config);
    assert_eq!(action.unwrap(), ReceiveAction::Handle);
    let Receiving::Complete(inspection) = state else {
        panic!("the request is complete");
    };
    assert_eq!(received_body(reader.view(), inspection).unwrap().as_slice(), b"abc");
    assert_eq!(
        received_head(reader.view(), inspection).unwrap(),
        b"POST / HTTP/1.1\r\nContent-Length: 3\r\n\r\n"
    );
    assert!(after_read(1).is_ok());
    assert!(after_read(0).is_err());
}

#[test]
fn answers_to_head_and_bad_statuses_are_changed() {
    let inspection = Inspection {
        head_len: 4,
        total_len: 9,
        keep_alive: true,
    };
    let ok = Response::static_bytes(StatusCode::new(200), b"ok");
    let (response, consumed, keep_alive) = answer("HEAD", ok, inspection);
    assert!(!response.sends_body());
    assert_eq!((consumed, keep_alive), (9, true));
    let (response, _, keep_alive) = answer("GET", Response::empty(StatusCode::new(600)), inspection);
    assert_eq!(response.status().as_u16(), 500);
    assert!(response.should_close());
    assert!(!keep_alive);
}

#[test]
fn failed_requests_end_their_connection() {
    assert!(matches!(
        conclude(RequestOutcome::Failed(RequestFailure::Closed)),
        Conclusion::End
    ));
    let Conclusion::Respond {
        response,
        timed_out,
        consumed,
        close,
    } = conclude(RequestOutcome::TimedOut)
    else {
        panic!("a request that timed out is answered");
    };
    assert_eq!(response.status().as_u16(), 408);
    assert!(timed_out && close);
    assert_eq!(consumed, None);
    let Conclusion::Respond { close, consumed, .. } = conclude(RequestOutcome::Handled {
        response: Response::empty(StatusCode::new(204)),
        consumed: 7,
        keep_alive: true,
    }) else {
        panic!("a handled request is answered");
    };
    assert!(!close);
    assert_eq!(consumed, Some(7));
    assert!(releases_buffer(true, 5));
    assert_eq!(body_permits(10), Some(10));
    assert_eq!(body_permits(0), None);
}

#[test]
fn a_listener_accepts_drains_and_ends() {
    let (action, state) = Serving::Running.on(ServeEvent::Accepted { permit: false });
    assert!(matches!(action, ServeAction::Reject));
    let (action, state) = state.on(ServeEvent::Accepted { permit: true });
    assert!(matches!(action, ServeAction::Configure));
    let (action, state) = state.on(ServeEvent::Configured);
    assert!(matches!(action, ServeAction::Spawn));
    let (action, state) = state.on(ServeEvent::ConfigureFailed);
    assert!(matches!(action, ServeAction::Wait));
    let (action, state) = state.on(ServeEvent::Shutdown);
    assert!(matches!(action, ServeAction::Drain));
    let (action, _) = state.on(ServeEvent::GraceElapsed);
    assert!(matches!(action, ServeAction::Abort));
    let (action, _) = state.on(ServeEvent::Idle);
    assert!(matches!(action, ServeAction::Finish(Ok(()))));
    let (action, _) = Serving::Running.on(ServeEvent::AcceptFailed("no".to_owned()));
    assert!(matches!(action, ServeAction::Finish(Err(Error::Io(message))) if message == "no"));
    let (action, _) = Serving::Draining.on(ServeEvent::TaskFailed("no".to_owned()));
    assert!(matches!(action, ServeAction::Finish(Err(Error::Task(message))) if message == "no"));
}

fn head(response: &Response, close: bool) -> String {
    let arena = EphemeralBytesArena::new(4096);
    let head = encode_response_head(&arena, response, close).unwrap();
    String::from_utf8(head.as_slice().to_vec()).unwrap()
}

#[test]
fn heads_name_status_length_and_connection() {
    let ok = Response::static_bytes(StatusCode::new(200), b"hello").content_type("text/plain");
    assert_eq!(
        head(&ok, false),
        "HTTP/1.1 200 OK\r\nContent-Type: text/plain\r\nContent-Length: 5\r\n\r\n"
    );
    assert_eq!(
        head(&Response::method_not_allowed("GET"), true),
        "HTTP/1.1 405 Method Not Allowed\r\nAllow: GET\r\nContent-Length: 0\r\nConnection: close\r\n\r\n"
    );
    assert_eq!(
        head(&Response::unauthorized("Bearer"), false),
        "HTTP/1.1 401 Unauthorized\r\nWWW-Authenticate: Bearer\r\nContent-Length: 0\r\n\r\n"
    );
    assert_eq!(
        head(&Response::empty(StatusCode::new(204)), false),
        "HTTP/1.1 204 No Content\r\n\r\n"
    );
    assert_eq!(
        head(&Response::stream(), false),
        "HTTP/1.1 200 OK\r\nContent-Type: application/octet-stream\r\nTransfer-Encoding: chunked\r\n\r\n"
    );
}

#[test]
fn downloads_keep_their_declared_length() {
    let mut exact = Download::new(Some(3));
    assert_eq!(exact.advance(Some(0)), DownloadStep::Skip);
    assert_eq!(exact.advance(Some(2)), DownloadStep::Plain);
    assert_eq!(
        exact.advance(None),
        DownloadStep::Fail(DownloadError::EndedEarly)
    );
    assert_eq!(
        exact.advance(Some(2)),
        DownloadStep::Fail(DownloadError::Exceeded)
    );
    assert_eq!(exact.advance(Some(1)), DownloadStep::Plain);
    assert_eq!(exact.advance(None), DownloadStep::Done);
    let mut open = Download::new(None);
    assert_eq!(open.advance(Some(usize::MAX)), DownloadStep::Framed);
    assert_eq!(
        open.advance(Some(1)),
        DownloadStep::Fail(DownloadError::LengthOverflow)
    );
    assert_eq!(open.advance(None), DownloadStep::LastChunk);
    assert_eq!(last_chunk_bytes(), b"0\r\n\r\n");
    assert_eq!(
        DownloadError::EndedEarly.to_string(),
        "download ended before Content-Length"
    );
    assert!(matches!(write_plan(&Response::stream()), WritePlan::Stream(_)));
    assert!(matches!(
        write_plan(&Response::empty(StatusCode::new(304))),
        WritePlan::Head
    ));
    assert!(matches!(
        write_plan(&Response::static_bytes(StatusCode::new(200), b"x")),
        WritePlan::Whole
    ));
}

#[test]
fn the_cross_origin_policy_stands_around_the_handler() {
    let mut policed = config();
    policed.cors = Some(Cors::permissive());
    let arena = EphemeralBytesArena::new(1024);
    let reader = Writer::new(&arena).into_reader();
    let headers = [
        Header {
            name: "Origin",
            value: b"https://a",
        },
        Header {
            name: "Access-Control-Request-Method",
            value: b"GET",
        },
    ];
    let request = |method| Request::new(method, "/", &headers, reader.view(), "peer", &arena);
    assert!(answer_early(&config(), &request("OPTIONS")).is_none());
    assert!(answer_early(&policed, &request("GET")).is_none());
    let early = answer_early(&policed, &request("OPTIONS")).unwrap();
    assert_eq!(early.status().as_u16(), 200);
    let plain = || Response::empty(StatusCode::new(200));
    assert!(police(&config(), Some(b"https://a"), plain()).header_blocks().is_empty());
    assert_eq!(
        police(&policed, Some(b"https://a"), plain()).header_blocks()[0].as_slice(),
        b"access-control-allow-origin: *\r\n"
    );
}
