use brz_ds::EphemeralBytesArena;
use brz_http_server::methods::{bit_of_name, method_list};
use brz_http_server::response::{
    is_header_name, is_reserved, validate_header_block, HeaderBlock, HeaderBlockError, Response,
    ResponseBody, SegmentedBody, StatusCode,
};
use brz_http_server::router::unmatched;
use brz_http_server::server::write::{
    encode_chunk_head, encode_response_head, write_plan, WritePlan, CHUNK_HEAD_BYTES,
};

#[test]
fn accepts_valid_dynamic_header_block_without_copying() {
    let arena = EphemeralBytesArena::new(128);
    let mut bytes = arena.alloc(22);
    bytes.extend_from_slice(b"X-Request-Id: abc\r\n");
    let bytes = bytes.freeze();
    let pointer = bytes.as_ptr();
    let headers = HeaderBlock::new(bytes).unwrap();

    assert_eq!(headers.as_slice().as_ptr(), pointer);
    assert_eq!(headers.as_slice(), b"X-Request-Id: abc\r\n");
}

#[test]
fn header_blocks_are_appended_in_order() {
    let arena = EphemeralBytesArena::new(1024);
    let block = |lines: &[u8]| {
        let mut bytes = arena.alloc(lines.len());
        bytes.extend_from_slice(lines);
        HeaderBlock::new(bytes.freeze()).unwrap()
    };
    let response = Response::empty(StatusCode::new(200))
        .headers(block(b"X-A: 1\r\n"))
        .headers(block(b"X-B: 2\r\n"));
    let lines = |response: &Response| {
        let blocks = response.header_blocks();
        blocks.iter().flat_map(|block| block.as_slice().to_vec()).collect::<Vec<u8>>()
    };
    assert_eq!(lines(&response), b"X-A: 1\r\nX-B: 2\r\n");
    let mut more = http::HeaderMap::new();
    more.insert("x-c", http::HeaderValue::from_static("3"));
    let response = response.with_http_headers(&more, &arena);
    assert_eq!(lines(&response), b"X-A: 1\r\nX-B: 2\r\nx-c: 3\r\n");
    let response = response.headers(block(b"X-D: 4\r\n"));
    let head = encode_response_head(&arena, &response, false).unwrap();
    assert_eq!(
        head.as_slice(),
        b"HTTP/1.1 200 OK\r\nX-A: 1\r\nX-B: 2\r\nx-c: 3\r\nX-D: 4\r\nContent-Length: 0\r\n\r\n"
    );
}

#[test]
fn rejects_runtime_owned_header_names() {
    let arena = EphemeralBytesArena::new(128);
    let mut bytes = arena.alloc(19);
    bytes.extend_from_slice(b"Content-Length: 1\r\n");
    assert_eq!(
        HeaderBlock::new(bytes.freeze()).unwrap_err(),
        HeaderBlockError::ReservedName
    );
}

#[test]
fn chunk_lengths_match_lower_hex_without_a_string() {
    for length in [0, 1, 15, 16, 255, 256, 8192, usize::MAX] {
        let mut output = [0; CHUNK_HEAD_BYTES];
        assert_eq!(
            encode_chunk_head(length, &mut output),
            format!("{length:x}\r\n").as_bytes()
        );
    }
}

#[test]
fn header_blocks_are_refused_by_their_first_fault() {
    for (block, fault) in [
        (&b"a: b"[..], HeaderBlockError::MissingLineEnding),
        (&b"a: b\n"[..], HeaderBlockError::MissingLineEnding),
        (&b"a: b\r\n\r\n"[..], HeaderBlockError::EmptyLine),
        (&b"a b: c\r\n"[..], HeaderBlockError::InvalidName),
        (&b"abc\r\n"[..], HeaderBlockError::InvalidName),
        (&b": c\r\n"[..], HeaderBlockError::InvalidName),
        (&b"a: \n\r\n"[..], HeaderBlockError::InvalidValue),
        (&b"TRANSFER-encoding: x\r\n"[..], HeaderBlockError::ReservedName),
        (&b"connection: x\r\n"[..], HeaderBlockError::ReservedName),
    ] {
        assert_eq!(validate_header_block(block), Err(fault), "{block:?}");
        assert!(!fault.to_string().is_empty());
    }
    assert_eq!(validate_header_block(b"a: b\r\nc:\td\r\n"), Ok(()));
    assert!(is_header_name(b"x-a!") && !is_header_name(b""));
    assert!(is_reserved(b"Content-Length") && !is_reserved(b"content-type"));
}

#[test]
fn responses_know_whether_they_send_a_body() {
    for code in [101, 204, 304] {
        assert!(!Response::empty(StatusCode::new(code)).permits_body());
    }
    assert!(Response::empty(StatusCode::new(200)).permits_body());
    let mut silent = Response::static_bytes(StatusCode::new(200), b"x");
    assert!(silent.sends_body());
    silent.suppress_body();
    assert!(!silent.sends_body());
    assert_eq!(silent.body().content_length(), Some(1));
    let streamed = Response::stream().set_content_length(9);
    assert_eq!(streamed.body().content_length(), Some(9));
    assert_eq!(Response::stream().body().content_length(), None);
    assert!(Response::empty(StatusCode::new(200)).close().should_close());
    assert_eq!(Response::conversion_failure().status().as_u16(), 500);
    assert!(StatusCode::from_u16(99).is_none());
    assert!(StatusCode::from_u16(1000).is_none());
    assert_eq!(StatusCode::from_u16(404).unwrap().as_u16(), 404);
}

#[test]
fn methods_are_listed_in_a_fixed_order() {
    for (index, name) in ["DELETE", "GET", "HEAD", "OPTIONS", "PATCH", "POST", "PUT"]
        .iter()
        .enumerate()
    {
        assert_eq!(bit_of_name(name), 1 << index);
    }
    assert_eq!(bit_of_name("TRACE"), 0);
    assert_eq!(method_list(bit_of_name("PUT") | bit_of_name("GET")), "GET, PUT");
    let arena = EphemeralBytesArena::new(128);
    let refused = unmatched(bit_of_name("PUT") | bit_of_name("GET"), &arena);
    assert_eq!(refused.status().as_u16(), 405);
    assert_eq!(unmatched(0, &arena).status().as_u16(), 404);
}

#[test]
fn a_segmented_body_keeps_its_reader() {
    let arena = EphemeralBytesArena::new(256);
    let mut writer = brz_io::Writer::new(&arena);
    std::io::Write::write_all(&mut writer, b"segments").unwrap();
    let reader = writer.into_reader();
    let length = reader.len() as u64;
    let response = Response::segmented(StatusCode::new(200), SegmentedBody::new(reader, length))
        .with_status(StatusCode::new(201))
        .content_type("text/plain")
        .close();
    assert_eq!(response.body().content_length(), Some(8));
    assert!(response.body().as_slice().is_empty());
    assert!(matches!(write_plan(&response), WritePlan::Segments));
    let ResponseBody::Segmented(body) = response.into_body() else {
        panic!("the body is in segments");
    };
    let mut reader = body.into_reader();
    let mut bytes = Vec::new();
    std::io::Read::read_to_end(&mut reader, &mut bytes).unwrap();
    assert_eq!(bytes, b"segments");
}
