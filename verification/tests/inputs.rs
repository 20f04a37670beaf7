use brz_http_server::api_metrics::logging::write_lossy_prefix;
use brz_http_server::body::{
    accept_boundary, check_form, is_content_type, is_json_content_type, multipart_boundary,
};
use brz_http_server::extract::{
    header_optional, header_required, param_optional, param_required, path, query_many,
    query_optional, query_required, query_value,
};
use brz_http_server::params::{decode_component, QueryParams};
use brz_http_server::server::parse_content_length;
use brz_http_server::{BodyError, Bytes, ExtractError, Multipart};

#[test]
fn numbers_are_read_within_their_range() {
    assert_eq!(path::<u8>("255").unwrap(), 255);
    assert_eq!(path::<u8>("+7").unwrap(), 7);
    assert_eq!(path::<i8>("-128").unwrap(), -128);
    assert_eq!(path::<u128>("340282366920938463463374607431768211455").unwrap(), u128::MAX);
    assert_eq!(path::<i128>("-170141183460469231731687303715884105728").unwrap(), i128::MIN);
    for text in ["", "256", "-1", "1 ", "0x1", "+", "--1"] {
        assert!(path::<u8>(text).is_err(), "{text}");
    }
    assert!(path::<i8>("128").is_err());
    assert!(path::<i8>("-").is_err());
    assert!(path::<bool>("true").unwrap());
    assert!(!path::<bool>("false").unwrap());
    assert!(path::<bool>("1").is_err());
    assert_eq!(path::<&str>("a").unwrap(), "a");
    assert_eq!(path::<String>("a").unwrap(), "a");
    assert_eq!(ExtractError.to_string(), "invalid HTTP API parameter");
}

#[test]
fn headers_are_read_or_missing() {
    assert_eq!(header_required::<u32>(Some(b"7")).unwrap(), 7);
    assert!(header_required::<u32>(Some(b"invalid")).is_err());
    assert!(header_required::<u32>(None).is_err());
    assert_eq!(header_optional::<&str>(None).unwrap(), None);
    assert_eq!(header_optional::<&str>(Some(b"raw")).unwrap(), Some("raw"));
    assert!(header_optional::<&str>(Some(b"\xff")).is_err());
}

#[test]
fn raw_queries_are_searched_without_decoding() {
    assert_eq!(query_value(Some("a=1&b=%20&a=2"), "a"), Some("1"));
    assert_eq!(query_value(Some("a=1&b=%20"), "b"), Some("%20"));
    assert_eq!(query_value(None, "a"), None);
    assert_eq!(query_required::<u8>(Some("a=1"), "a").unwrap(), 1);
    assert!(query_required::<u8>(Some("a=1"), "b").is_err());
    assert_eq!(query_optional::<u8>(Some("a=1"), "b").unwrap(), None);
    assert!(query_optional::<u8>(Some("a=x"), "a").is_err());
}

#[test]
fn decoded_parameters_are_read_once_or_many_times() {
    let query = QueryParams::new(Some("q=hello+w%2B&n=1&n=2"));
    assert_eq!(param_required::<&str>(&query, "q").unwrap(), "hello w+");
    assert_eq!(param_required::<u8>(&query, "n").unwrap(), 2);
    assert!(param_required::<u8>(&query, "m").is_err());
    assert_eq!(param_optional::<u8>(&query, "m").unwrap(), None);
    assert_eq!(param_optional::<u8>(&query, "n").unwrap(), Some(2));
    assert_eq!(query_many::<u8>(&query, "n").unwrap(), [1, 2]);
    assert!(query_many::<u8>(&query, "m").unwrap().is_empty());
    assert!(query_many::<u8>(&query, "q").is_err());
    assert_eq!(decode_component("a%20b+c"), "a b+c");
}

#[test]
fn content_types_are_compared_without_parameters() {
    assert!(is_content_type(Some(b" Text/Plain ; charset=x"), "text/plain"));
    assert!(!is_content_type(Some(b"text/plainer"), "text/plain"));
    assert!(!is_content_type(Some(b"\xff"), "text/plain"));
    assert!(!is_content_type(None, "text/plain"));
    assert!(is_json_content_type(Some(b"application/json")));
    assert!(check_form(Some(b"application/x-www-form-urlencoded")).is_ok());
    assert!(matches!(
        check_form(Some(b"application/json")),
        Err(BodyError::UnsupportedMediaType)
    ));
}

#[test]
fn boundaries_are_taken_from_the_content_type() {
    assert_eq!(
        multipart_boundary(Some(b"multipart/form-data; boundary=abc")).unwrap(),
        "abc"
    );
    assert!(matches!(
        multipart_boundary(Some(b"multipart/form-data")),
        Err(BodyError::Invalid(_))
    ));
    assert!(matches!(
        multipart_boundary(Some(b"text/plain; boundary=abc")),
        Err(BodyError::UnsupportedMediaType)
    ));
    assert_eq!(accept_boundary(Ok("abc".to_owned())).unwrap(), "abc");
    assert!(matches!(accept_boundary(Err("no".to_owned())), Err(BodyError::Invalid(reason)) if reason == "no"));
}

fn multipart(fields: &[(&str, Option<&str>, &'static [u8])]) -> Multipart {
    let mut multipart = Multipart { fields: Vec::new() };
    for (name, filename, bytes) in fields {
        multipart
            .push(
                Some(name.to_string()),
                filename.map(str::to_owned),
                None,
                Bytes::from_static(bytes),
            )
            .unwrap();
    }
    multipart
}

#[test]
fn fields_are_found_by_name() {
    let mut form = multipart(&[("a", None, b"1"), ("f", Some("x"), b"\xff"), ("a", None, b"2 &")]);
    assert_eq!(form.get("a").unwrap().text().unwrap(), "2 &");
    assert_eq!(form.get_all("a").len(), 2);
    assert_eq!(form.get_all("a")[0].text().unwrap(), "1");
    assert!(form.get("b").is_none());
    assert!(form.get("f").unwrap().text().is_err());
    let pairs = form.texts().unwrap();
    assert_eq!(pairs, [("a".to_owned(), "1".to_owned()), ("a".to_owned(), "2 &".to_owned())]);
    assert_eq!(form.encoded_form().unwrap(), "a=1&a=2+%26");
    let error = form.push(None, None, None, Bytes::new()).unwrap_err();
    assert!(error.to_string().contains("multipart field has no name"));
    assert_eq!(form.fields.len(), 3);
}

#[test]
fn fields_that_are_no_text_are_named_by_their_fault() {
    let form = multipart(&[("a", None, b"1"), ("b", None, b"x\xff"), ("c", None, b"\xff")]);
    let Err(BodyError::Invalid(reason)) = form.texts() else {
        panic!("the second field is no text");
    };
    assert_eq!(reason, std::str::from_utf8(b"x\xff").unwrap_err().to_string());
    assert!(form.encoded_form().is_err());
}

#[test]
fn escapes_are_read_once() {
    assert_eq!(decode_component("%2525"), "%25");
    assert_eq!(decode_component("%25%32%46"), "%2F");
    assert_eq!(decode_component("%zz%4"), "%zz%4");
    assert_eq!(decode_component("%FFa"), "\u{fffd}a");
}

#[test]
fn lengths_and_numbers_are_read_from_their_digits() {
    for length in [0, 9, 10, 4096, usize::MAX] {
        assert_eq!(parse_content_length(length.to_string().as_bytes()).unwrap(), length);
        assert_eq!(path::<usize>(&length.to_string()).unwrap(), length);
        assert_eq!(path::<usize>(&format!("+{length}")).unwrap(), length);
    }
    for number in [0_i64, -1, -10, i64::MIN] {
        assert_eq!(path::<i64>(&number.to_string()).unwrap(), number);
    }
}

fn escaped(bytes: &[u8]) -> String {
    bytes.iter().map(|byte| format!("%{byte:02x}")).collect()
}

#[test]
fn ill_formed_sequences_are_replaced_one_by_one() {
    let check = |bytes: &[u8]| {
        let text = decode_component(&escaped(bytes)).into_owned();
        assert_eq!(text, write_lossy_prefix(bytes, usize::MAX), "{bytes:?}");
        let query = format!("q={}", escaped(bytes));
        assert_eq!(QueryParams::new(Some(&query)).get("q"), Some(text.as_str()));
    };
    for first in 0..=255 {
        check(&[first]);
        for second in 0..=255 {
            check(&[first, second]);
        }
    }
    let edges = [b'a', 0x7f, 0x80, 0x8f, 0x90, 0x9f, 0xa0, 0xbf, 0xc2, 0xe0, 0xff];
    for first in [0xc1, 0xdf, 0xe0, 0xe1, 0xed, 0xef, 0xf0, 0xf1, 0xf4, 0xf5] {
        for second in edges {
            for third in edges {
                check(&[first, second, third]);
                for fourth in edges {
                    check(&[first, second, third, fourth]);
                    check(&[first, second, third, fourth, 0x80]);
                }
            }
        }
    }
    assert_eq!(decode_component("%F0%90%80%FF%ED%A0%80"), "\u{fffd}".repeat(5));
}

#[test]
fn forms_are_decoded_to_their_pairs() {
    let every: String = (0..128_u8).map(char::from).collect();
    let fields: [(&str, &str); 6] = [
        ("a", "1"),
        ("", ""),
        ("b&c=d", "+ %2B"),
        ("", "x"),
        ("\u{4e2d}", "\u{1f600}"),
        (&every, &every),
    ];
    for count in 0..=fields.len() {
        let mut form = Multipart { fields: Vec::new() };
        for (name, value) in &fields[..count] {
            let bytes = Bytes::copy_from_slice(value.as_bytes());
            form.push(Some((*name).to_owned()), None, None, bytes).unwrap();
        }
        let encoded = form.encoded_form().unwrap();
        let params = QueryParams::new(Some(&encoded));
        let pairs = params.pairs().iter();
        let texts: Vec<(&str, &str)> = pairs.iter().map(|pair| (&*pair.0, &*pair.1)).collect();
        assert_eq!(texts, fields[..count]);
    }
    let mut form = Multipart { fields: Vec::new() };
    form.push(Some("a*-._Z~".to_owned()), None, None, Bytes::from_static("\u{e9} +/".as_bytes()))
        .unwrap();
    assert_eq!(form.encoded_form().unwrap(), "a*-._Z%7E=%C3%A9+%2B%2F");
}
