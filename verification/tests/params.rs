use std::borrow::Cow;

use brz_http_server::params::{QueryPairs, QueryParams};

#[test]
fn query_decodes_reserved_characters_after_splitting_and_preserves_repetitions() {
    let params = QueryParams::new(Some(
        "q=old&q=hello%20world%2B%26x%3Dy+%E4%B8%AD&%69ds=1&ids=2",
    ));
    assert_eq!(params.get("q"), Some("hello world+&x=y 中"));
    assert_eq!(params.values("ids"), ["1", "2"]);
    assert_eq!(params.get("x"), None);
}

#[test]
fn unused_query_is_not_parsed_or_materialized() {
    let params = QueryParams::new(Some("unused=%E4%B8%AD+hello&x=%26"));
    assert!(params.decoded().is_none());
}

#[test]
fn ordinary_pairs_borrow_input_and_stay_inline() {
    let raw = "a=one&b=two&c=three&d=four";
    let params = QueryParams::new(Some(raw));
    assert_eq!(params.get("a").unwrap().as_ptr(), raw[2..].as_ptr());
    assert_eq!(params.get("d"), Some("four"));
    assert_eq!(params.pairs().overflow_len(), 0);
    for (name, value) in params.pairs().iter() {
        assert!(matches!(name, Cow::Borrowed(_)));
        assert!(matches!(value, Cow::Borrowed(_)));
    }
}

#[test]
fn repetitions_keep_order_across_inline_overflow_boundary() {
    let params = QueryParams::new(Some("a=0&a=1&a=2&a=3&a=4&a=5"));
    assert_eq!(params.get("a"), Some("5"));
    assert_eq!(params.values("a"), ["0", "1", "2", "3", "4", "5"]);
    assert_eq!(params.pairs().overflow_len(), 2);
}

#[test]
fn what_needs_no_decoding_is_borrowed_beside_what_does() {
    let pairs = QueryPairs::parse("%61=x&b=y+z&c&=%E4%B8%AD&e=caf\u{e9}");
    let pairs = pairs.iter();
    let texts: Vec<(&str, &str)> = pairs.iter().map(|pair| (&*pair.0, &*pair.1)).collect();
    assert_eq!(
        texts,
        [("a", "x"), ("b", "y z"), ("c", ""), ("", "\u{4e2d}"), ("e", "caf\u{e9}")]
    );
    let borrowed: Vec<(bool, bool)> = pairs
        .iter()
        .map(|pair| (matches!(pair.0, Cow::Borrowed(_)), matches!(pair.1, Cow::Borrowed(_))))
        .collect();
    assert_eq!(
        borrowed,
        [(false, true), (true, false), (true, true), (true, false), (true, true)]
    );
}
