use std::io::Write;

use brz_ds::EphemeralBytesArena;
use brz_http_server::api_metrics::logging::{
    prefix, write_lossy_prefix, write_stripped, BodyExcerpt, ClientIp, RequestId, EXCERPT_BYTES,
};
use brz_http_server::api_metrics::{
    ApiLogContext, ApiMetrics, Counted, Observation, OptionalLength,
};
use brz_http_server::request::Header;
use brz_http_server::response::StatusCode;
use brz_http_server::server::{Duration, ParsedHead};

#[test]
fn prefixes_do_not_split_unicode() {
    assert_eq!(prefix("ab€€", 4), "ab");
    assert_eq!(prefix("ab€€", 5), "ab€");
    assert_eq!(prefix("abcdefghij", 8), "abcdefgh");
}

#[test]
fn request_id_preserves_existing_placeholders_and_sanitizing() {
    for value in [None, Some(&b""[..]), Some(&b" \t"[..])] {
        assert_eq!(RequestId(value).to_string(), "-");
    }
    assert_eq!(RequestId(Some(b"req 123")).to_string(), "req123");
    assert_eq!(
        RequestId(Some(b"\xff\xfe")).to_string(),
        "<invalid-request-id>"
    );
    let long = "请求-1".repeat(100);
    assert_eq!(RequestId(Some(long.as_bytes())).to_string(), long);
}

#[test]
fn client_ip_keeps_all_hops_and_falls_back_to_peer() {
    let peer = "203.0.113.7";
    let format = |value| {
        ClientIp {
            forwarded_for: value,
            peer,
        }
        .to_string()
    };
    for value in [None, Some(&b""[..]), Some(&b" , \t"[..])] {
        assert_eq!(format(value), "203.0.113.7");
    }
    assert_eq!(format(Some(b"\xff")), "<invalid-client-ip>");
    assert_eq!(
        format(Some(b"198.51.100.4,\t203.0.113.9")),
        "198.51.100.4,203.0.113.9"
    );
    let chain = format!("{}203.0.113.9", "1.1.1.1,".repeat(30));
    assert_eq!(format(Some(chain.as_bytes())), chain);
}

fn old_excerpt(bytes: &[u8], capacity: usize) -> String {
    let text = String::from_utf8_lossy(&bytes[..bytes.len().min(capacity)]);
    prefix(&text, capacity).to_owned()
}

#[test]
fn lossy_formatter_matches_original_for_all_two_byte_inputs() {
    for first in 0..=255_u8 {
        for second in 0..=255_u8 {
            let bytes = [first, second];
            for capacity in [1, 2, 3, 4, 6] {
                let actual = write_lossy_prefix(&bytes[..bytes.len().min(capacity)], capacity);
                assert_eq!(
                    actual,
                    old_excerpt(&bytes, capacity),
                    "{bytes:?}, cap {capacity}"
                );
            }
        }
    }
}

#[test]
fn segmented_body_utf8_and_source_output_limits_match_original() {
    let mut bytes = "a€😀".repeat(100).into_bytes();
    bytes.extend_from_slice(b"\xf0\x90\x80\xff\xed\xa0\x80");
    for chunk in [1, 2, 3, 7, 64, 4096] {
        let arena = EphemeralBytesArena::new(chunk);
        let mut writer = brz_io::Writer::new(&arena);
        writer.write_all(&bytes).unwrap();
        let body = writer.into_reader();
        assert_eq!(
            BodyExcerpt(Some(body.view())).to_string(),
            old_excerpt(&bytes, EXCERPT_BYTES)
        );
        assert_eq!(body.position(), 0, "logging must not consume the reader");
    }
    assert_eq!(BodyExcerpt(None).to_string(), "");
}

fn head_of(raw: &[u8]) -> ParsedHead<'_> {
    let mut headers = [httparse::EMPTY_HEADER; 8];
    let mut parsed = httparse::Request::new(&mut headers);
    let length = parsed.parse(raw).unwrap().unwrap();
    ParsedHead {
        length,
        version: parsed.version,
        method: parsed.method,
        path: parsed.path,
        headers: parsed
            .headers
            .iter()
            .map(|header| Header {
                name: header.name,
                value: header.value,
            })
            .collect(),
    }
}

fn prepare<'a>(observation: &mut Observation<'a>, head: &'a [u8], request_len: usize) {
    observation.request_head(&head_of(head), "127.0.0.1:1", "127.0.0.1", request_len);
    // The parsed head does not survive this function.
}

const SLOW: Duration = Duration {
    nanos: 4_000_000_000,
};
const FAST: Duration = Duration { nanos: 7_999_999 };

#[test]
fn api_line_preserves_field_order_after_parser_is_dropped() {
    let head = b"GET /api/items?q=a HTTP/1.1\r\nx-request-id: req-123\r\nx-forwarded-for: 203.0.113.7, 198.51.100.4\r\n\r\n";
    let mut observation = Observation::new();
    observation.matched(None);
    observation.set_api_log(true);
    prepare(&mut observation, head, 128);
    let recorded = observation.record(StatusCode::new(200), Some(512), false, FAST, None);
    let line = recorded.api.unwrap();
    assert!(line.starts_with("GET /api/items?q=a 200 "), "{line}");
    assert!(
        line.contains("128 512 203.0.113.7,198.51.100.4 - req-123"),
        "{line}"
    );
    assert_eq!(
        line,
        "GET /api/items?q=a 200 7ms 128 512 203.0.113.7,198.51.100.4 - req-123"
    );
    assert!(recorded.slow.is_none());
    assert!(recorded.counted.is_none());
}

#[test]
fn overlong_target_is_truncated_without_a_separate_string() {
    let target = format!("/api/items?q={}", "x".repeat(200));
    let head = format!("GET {target} HTTP/1.1\r\n\r\n");
    let mut observation = Observation::new();
    prepare(&mut observation, head.as_bytes(), 0);
    let recorded = observation.record(StatusCode::new(200), Some(2), false, FAST, None);
    let line = recorded.api.unwrap();
    assert!(line.contains(&target[..128]));
    assert!(!line.contains(&target));
}

#[test]
fn disabled_api_log_still_allows_slow_log_but_never_emits_api_line() {
    let head = b"POST /private HTTP/1.1\r\nx-request-id: ignored\r\n\r\n";
    let mut observation = Observation::new();
    observation.set_api_log(false);
    prepare(&mut observation, head, 0);
    let recorded = observation.record(StatusCode::new(200), Some(0), false, SLOW, None);
    assert!(recorded.api.is_none());
    assert!(recorded
        .slow
        .unwrap()
        .starts_with("http-server POST /private 200 "));
}

#[test]
fn slow_line_uses_borrowed_body_and_preserves_timeout_column() {
    let head = b"POST /items HTTP/1.1\r\n\r\n";
    let arena = EphemeralBytesArena::new(2);
    let mut writer = brz_io::Writer::new(&arena);
    writer.write_all("ok€😀".as_bytes()).unwrap();
    let body = writer.into_reader();
    let mut observation = Observation::new();
    observation.set_api_log(false);
    prepare(&mut observation, head, body.len());
    let recorded = observation.record(
        StatusCode::new(408),
        Some(0),
        true,
        SLOW,
        Some(body.view()),
    );
    let line = recorded.slow.unwrap();
    assert!(line.starts_with("http-server POST /items 408 "));
    assert!(line.ends_with("127.0.0.1:1 true ok€😀"), "{line}");
    assert_eq!(body.position(), 0);
    let unknown = observation.record(StatusCode::new(200), None, false, SLOW, None);
    assert_eq!(
        unknown.slow.unwrap(),
        "http-server POST /items 200 4000ms 9 - 127.0.0.1:1 false "
    );
}

#[test]
fn a_fast_request_with_only_slow_log_emits_nothing() {
    let head = b"GET /fast HTTP/1.1\r\n\r\n";
    let mut observation = Observation::new();
    observation.set_api_log(false);
    prepare(&mut observation, head, 0);
    let recorded = observation.record(StatusCode::new(200), Some(0), false, FAST, None);
    assert!(recorded.api.is_none());
    assert!(recorded.slow.is_none());
}

#[test]
fn principal_keeps_inline_and_spill_behavior_and_formats_only_once() {
    let mut disabled = ApiLogContext::default();
    disabled.set_auth_id("ignored");
    assert_eq!(disabled.auth_id(), "-");
    let mut enabled = ApiLogContext::default();
    enabled.set_enabled(true);
    assert!(enabled.wants_auth_id());
    enabled.set_auth_id("alice");
    assert_eq!(enabled.auth_id(), "alice");
    assert!(!enabled.auth_field().unwrap().is_heap_allocated());
    assert!(
        !enabled.wants_auth_id(),
        "a later principal must not be formatted"
    );
    enabled.set_auth_id("bob");
    assert_eq!(enabled.auth_id(), "alice");
    let long = "p".repeat(200);
    let mut spilled = ApiLogContext::default();
    spilled.set_enabled(true);
    spilled.set_auth_id(&long);
    assert_eq!(spilled.auth_id(), long);
    assert!(spilled.auth_field().unwrap().is_heap_allocated());
}

#[test]
fn api_lines_name_the_principal() {
    let mut observation = Observation::new();
    observation.set_api_log(true);
    prepare(&mut observation, b"GET / HTTP/1.1\r\n\r\n", 3);
    observation.set_auth_id("alice");
    assert_eq!(observation.api_log_context().auth_id(), "alice");
    let recorded = observation.record(StatusCode::new(200), None, false, FAST, None);
    assert_eq!(recorded.api.unwrap(), "GET / 200 7ms 3 - 127.0.0.1 alice -");
}

#[test]
fn answers_are_counted_by_class_and_timeouts_apart() {
    let metrics = ApiMetrics::new("/metrics/fixture");
    let mut observation = Observation::new();
    observation.matched(Some(metrics));
    for (status, timed_out, counted) in [
        (200, false, Some(Counted::Status { class: 2, success: true })),
        (302, false, Some(Counted::Status { class: 3, success: true })),
        (404, false, Some(Counted::Status { class: 4, success: false })),
        (500, false, Some(Counted::Status { class: 5, success: false })),
        (101, false, None),
        (408, true, Some(Counted::Timeout)),
    ] {
        let recorded = observation.record(StatusCode::new(status), None, timed_out, FAST, None);
        assert_eq!(recorded.counted, counted);
    }
    let mut seen = Vec::new();
    brz_metrics::visit(|name, kind, snapshot| {
        if name == "/metrics/fixture" {
            seen.push((kind.to_owned(), snapshot.total, snapshot.failure, snapshot.elapsed_us));
        }
    });
    seen.sort();
    assert_eq!(
        seen,
        [
            ("API".to_owned(), 1, 0, 7_999),
            ("API3XX".to_owned(), 1, 0, 7_999),
            ("API4XX".to_owned(), 1, 1, 7_999),
            ("API5XX".to_owned(), 1, 1, 7_999),
            ("APITO".to_owned(), 1, 1, 7_999),
        ]
    );
    assert_eq!(OptionalLength(None).to_string(), "-");
    assert_eq!(OptionalLength(Some(12)).to_string(), "12");
}

#[test]
fn an_observation_counts_by_the_counters_of_the_route_that_matched() {
    let first = ApiMetrics::new("/metrics/first");
    let second = ApiMetrics::new("/metrics/second");
    let mut observation = Observation::new();
    assert!(observation.entry(StatusCode::new(200), false).is_none());
    observation.matched(Some(first));
    observation.matched(Some(second));
    observation.set_api_log(false);
    for (status, timed_out, success) in [
        (204, false, Some(true)),
        (301, false, Some(true)),
        (422, false, Some(false)),
        (503, false, Some(false)),
        (200, true, Some(false)),
        (100, false, None),
        (600, false, None),
    ] {
        let status = StatusCode::new(status);
        let entry = observation.entry(status, timed_out).map(|entry| entry.1);
        assert_eq!(entry, success);
        observation.record(status, None, timed_out, FAST, None);
    }
    let (metric, success) = observation.entry(StatusCode::new(418), false).unwrap();
    assert!(!success);
    assert_eq!(metric.snapshot().total, 1);
    assert_eq!(metric.snapshot().failure, 1);
    first.record(StatusCode::new(418), false, FAST);
    assert_eq!(metric.snapshot().total, 1);
    let mut seen = Vec::new();
    brz_metrics::visit(|name, kind, snapshot| {
        if name == "/metrics/first" || name == "/metrics/second" {
            seen.push((name.to_owned(), kind.to_owned(), snapshot.total));
        }
    });
    seen.sort();
    let total = |name: &str, kind: &str, total: u64| (name.to_owned(), kind.to_owned(), total);
    assert!(seen.contains(&total("/metrics/first", "API4XX", 1)));
    assert!(!seen.contains(&total("/metrics/first", "API", 1)));
    for kind in ["API", "API3XX", "API4XX", "API5XX", "APITO"] {
        assert!(seen.contains(&total("/metrics/second", kind, 1)));
    }
    observation.matched(None);
    assert!(observation.entry(StatusCode::new(200), false).is_none());
}

#[test]
fn stripped_text_loses_ascii_white_space_alone() {
    assert_eq!(write_stripped(" a\tb\u{a0}c\r\n"), "ab\u{a0}c");
}
