//! Laws of requests: their headers, their bodies and why they are refused.
use vstd::prelude::*;
use vstd::string::StringSliceAdditionalSpecFns;
use vstd::utf8::*;

#[allow(unused_imports)]
use crate::laws::texts::{among, law_blanks_around_values_are_dropped, only_blanks};
use crate::request::Header;
#[allow(unused_imports)]
use crate::request::header_value;
#[allow(unused_imports)]
use crate::server::{
    all_digits, config_error, declared_length, digits_value, framing_of, holds_token, inspected,
    is_digit, parse_failure, trimmed, without_leading_blanks, without_trailing_blanks, HeadModel,
};
use crate::server::{HeadError, Inspection, RequestFailure, ServerConfig};
#[allow(unused_imports)]
use crate::text::{same_ignoring_case, split};

verus! {

/// Whether a header of a head has this name, in any case.
pub open spec fn is_named(header: (Seq<char>, Seq<u8>), name: &str) -> bool {
    same_ignoring_case(encode_utf8(header.0), name.spec_bytes())
}

/// Whether one of the headers has this name, in any case.
pub open spec fn any_named(headers: Seq<(Seq<char>, Seq<u8>)>, name: &str) -> bool {
    exists|i: int| 0 <= i < headers.len() && is_named(#[trigger] headers[i], name)
}

/// Whether a header asks for the connection to be closed.
pub open spec fn asks_to_close(header: (Seq<char>, Seq<u8>)) -> bool {
    is_named(header, "connection") && holds_token(header.1, "close".spec_bytes())
}

proof fn lemma_names_differ(name: Seq<u8>)
    ensures
        same_ignoring_case(name, "content-length".spec_bytes()) ==> name.len() == 14,
        same_ignoring_case(name, "transfer-encoding".spec_bytes()) ==> name.len() == 17,
        same_ignoring_case(name, "expect".spec_bytes()) ==> name.len() == 6,
        same_ignoring_case(name, "connection".spec_bytes()) ==> name.len() == 10,
{
    reveal_strlit("content-length");
    reveal_strlit("transfer-encoding");
    reveal_strlit("expect");
    reveal_strlit("connection");
    is_ascii_chars_encode_utf8("content-length"@);
    is_ascii_chars_encode_utf8("transfer-encoding"@);
    is_ascii_chars_encode_utf8("expect"@);
    is_ascii_chars_encode_utf8("connection"@);
}

/// What is wrong with the header at `index`, seen among those before it.
pub open spec fn header_fault(headers: Seq<(Seq<char>, Seq<u8>)>, index: int) -> Option<
    RequestFailure,
> {
    if is_named(headers[index], "content-length") && (declared_length(headers[index].1) is None
        || exists|j: int|
        0 <= j < index && is_named(#[trigger] headers[j], "content-length") && declared_length(
            headers[j].1,
        ) != declared_length(headers[index].1)) {
        Some(RequestFailure::BadRequest)
    } else if is_named(headers[index], "transfer-encoding") {
        Some(RequestFailure::UnsupportedTransferEncoding)
    } else if is_named(headers[index], "expect") {
        Some(RequestFailure::ExpectationFailed)
    } else {
        None
    }
}

/// Whether the header at `index` is the first that something is wrong with.
pub open spec fn first_fault(headers: Seq<(Seq<char>, Seq<u8>)>, index: int) -> bool {
    &&& 0 <= index < headers.len()
    &&& header_fault(headers, index) is Some
    &&& forall|j: int| 0 <= j < index ==> #[trigger] header_fault(headers, j) is None
}

/// Whether `length` and `close` are what the first `count` headers say.
spec fn said(
    headers: Seq<(Seq<char>, Seq<u8>)>,
    count: int,
    length: Option<nat>,
    close: bool,
) -> bool {
    &&& forall|j: int|
        0 <= j < count && is_named(#[trigger] headers[j], "content-length") ==> length is Some
            && declared_length(headers[j].1) == length
    &&& length is Some ==> exists|j: int|
        0 <= j < count && is_named(#[trigger] headers[j], "content-length")
    &&& close == exists|j: int| 0 <= j < count && asks_to_close(#[trigger] headers[j])
}

proof fn lemma_framing(
    headers: Seq<(Seq<char>, Seq<u8>)>,
    count: int,
    length: Option<nat>,
    close: bool,
)
    requires
        0 <= count <= headers.len(),
        said(headers, count, length, close),
        forall|j: int| 0 <= j < count ==> #[trigger] header_fault(headers, j) is None,
    ensures
        match framing_of(headers.skip(count), length, close) {
            Ok((length, close)) => said(headers, headers.len() as int, length, close) && forall|
                j: int,
            |
                0 <= j < headers.len() ==> #[trigger] header_fault(headers, j) is None,
            Err(failure) => exists|i: int| #[trigger]
                first_fault(headers, i) && header_fault(headers, i) == Some(failure),
        },
    decreases headers.len() - count,
{
    let rest = headers.skip(count);
    if count < headers.len() {
        let header = headers[count];
        let name = encode_utf8(header.0);
        lemma_names_differ(name);
        assert(rest[0] == header);
        assert(rest.skip(1) =~= headers.skip(count + 1));
        if is_named(header, "content-length") {
            if let Some(declared) = declared_length(header.1) {
                if length is Some && length != Some(declared) {
                    let j = choose|j: int|
                        0 <= j < count && is_named(#[trigger] headers[j], "content-length");
                    assert(declared_length(headers[j].1) == length);
                    assert(first_fault(headers, count));
                } else {
                    assert(header_fault(headers, count) is None) by {
                        assert forall|j: int|
                            0 <= j < count && is_named(
                                #[trigger] headers[j],
                                "content-length",
                            ) implies declared_length(headers[j].1) == declared_length(
                            header.1,
                        ) by {}
                    }
                    assert(is_named(headers[count], "content-length"));
                    assert(!asks_to_close(headers[count]));
                    assert(said(headers, count + 1, Some(declared), close)) by {
                        if close {
                            let j = choose|j: int|
                                0 <= j < count && asks_to_close(#[trigger] headers[j]);
                            assert(asks_to_close(headers[j]));
                        }
                    }
                    lemma_framing(headers, count + 1, Some(declared), close);
                }
            } else {
                assert(first_fault(headers, count));
            }
        } else if is_named(header, "transfer-encoding") || is_named(header, "expect") {
            assert(first_fault(headers, count));
        } else {
            assert(header_fault(headers, count) is None);
            let closes = close || asks_to_close(header);
            assert(said(headers, count + 1, length, closes)) by {
                if length is Some {
                    let j = choose|j: int|
                        0 <= j < count && is_named(#[trigger] headers[j], "content-length");
                    assert(is_named(headers[j], "content-length"));
                }
                if close {
                    let j = choose|j: int| 0 <= j < count && asks_to_close(#[trigger] headers[j]);
                    assert(asks_to_close(headers[j]));
                }
                if asks_to_close(header) {
                    assert(asks_to_close(headers[count]));
                }
            }
            lemma_framing(headers, count + 1, length, closes);
        }
    } else {
        assert(rest.len() == 0);
    }
}

/// A request that is accepted is framed by its own headers, wherever they
/// stand among the others. Each `Content-Length` declares the length of the
/// body, which is empty where there is none. The connection stays open unless a
/// `Connection` header holds the token `close`. No other transfer is accepted,
/// no expectation, no other version and nothing beyond the limits.
pub proof fn law_accepted_requests_are_framed_by_their_headers(
    head: HeadModel,
    head_len: usize,
    max_head: usize,
    max_body: usize,
    inspection: Inspection,
)
    requires
        inspected(head, head_len, max_head, max_body) == Ok::<Inspection, RequestFailure>(
            inspection,
        ),
    ensures
        inspection.head_len == head_len,
        forall|i: int|
            0 <= i < head.headers.len() && is_named(#[trigger] head.headers[i], "content-length")
                ==> declared_length(head.headers[i].1) == Some(
                (inspection.total_len - head_len) as nat,
            ),
        !any_named(head.headers, "content-length") ==> inspection.total_len == head_len,
        inspection.keep_alive <==> forall|i: int|
            0 <= i < head.headers.len() ==> !asks_to_close(#[trigger] head.headers[i]),
        !any_named(head.headers, "transfer-encoding"),
        !any_named(head.headers, "expect"),
        head.version == Some(1u8),
        head_len <= max_head,
        head_len <= inspection.total_len <= head_len + max_body,
{
    lemma_framing(head.headers, 0, None, false);
    assert(head.headers.skip(0) =~= head.headers);
    assert forall|i: int| 0 <= i < head.headers.len() implies !is_named(
        #[trigger] head.headers[i],
        "transfer-encoding",
    ) && !is_named(head.headers[i], "expect") by {
        assert(header_fault(head.headers, i) is None);
    }
}

/// A request is refused for the first rule that it breaks: the limit for heads,
/// the version, then the first of its headers that something is wrong with,
/// then the limit for bodies.
pub proof fn law_refused_requests_break_a_rule(
    head: HeadModel,
    head_len: usize,
    max_head: usize,
    max_body: usize,
    failure: RequestFailure,
)
    requires
        inspected(head, head_len, max_head, max_body) == Err::<Inspection, RequestFailure>(failure),
    ensures
        if head_len > max_head {
            failure == RequestFailure::HeadersTooLarge
        } else if head.version != Some(1u8) {
            failure == RequestFailure::UnsupportedVersion
        } else {
            ||| exists|i: int| #[trigger]
                first_fault(head.headers, i) && header_fault(head.headers, i) == Some(failure)
            ||| failure == RequestFailure::BodyTooLarge && (forall|i: int|
                0 <= i < head.headers.len() ==> #[trigger] header_fault(head.headers, i) is None)
                && exists|i: int|
                0 <= i < head.headers.len() && is_named(
                    #[trigger] head.headers[i],
                    "content-length",
                ) && declared_length(head.headers[i].1) is Some && (declared_length(
                    head.headers[i].1,
                )->0 > max_body || head_len + declared_length(head.headers[i].1)->0 > usize::MAX)
        },
{
    lemma_framing(head.headers, 0, None, false);
    assert(head.headers.skip(0) =~= head.headers);
}

/// A request that breaks no rule is accepted.
pub proof fn law_proper_requests_are_accepted(
    head: HeadModel,
    head_len: usize,
    max_head: usize,
    max_body: usize,
)
    requires
        head_len <= max_head,
        head.version == Some(1u8),
        !any_named(head.headers, "transfer-encoding"),
        !any_named(head.headers, "expect"),
        forall|i: int|
            0 <= i < head.headers.len() && is_named(#[trigger] head.headers[i], "content-length")
                ==> declared_length(head.headers[i].1) is Some && declared_length(
                head.headers[i].1,
            )->0 <= max_body && head_len + declared_length(head.headers[i].1)->0 <= usize::MAX,
        forall|i: int, j: int|
            0 <= i < head.headers.len() && 0 <= j < head.headers.len() && is_named(
                #[trigger] head.headers[i],
                "content-length",
            ) && is_named(#[trigger] head.headers[j], "content-length") ==> declared_length(
                head.headers[i].1,
            ) == declared_length(head.headers[j].1),
    ensures
        inspected(head, head_len, max_head, max_body) is Ok,
{
    lemma_framing(head.headers, 0, None, false);
    assert(head.headers.skip(0) =~= head.headers);
    assert forall|i: int| 0 <= i < head.headers.len() implies #[trigger] header_fault(
        head.headers,
        i,
    ) is None by {
        assert(!is_named(head.headers[i], "transfer-encoding"));
        assert(!is_named(head.headers[i], "expect"));
    }
}

/// Whether a `Content-Length` is `length` in decimal digits, with spaces and
/// tabs before and behind them.
pub open spec fn writes_length(
    value: Seq<u8>,
    before: Seq<u8>,
    digits: Seq<u8>,
    after: Seq<u8>,
) -> bool {
    &&& value == before + digits + after
    &&& only_blanks(before)
    &&& only_blanks(after)
    &&& digits.len() > 0
    &&& forall|i: int| 0 <= i < digits.len() ==> among(#[trigger] digits[i], "0123456789"@)
}

/// A length is declared by its decimal digits, whatever blanks stand around
/// them, unless it is too large for the machine.
pub proof fn law_lengths_are_declared_in_digits(
    value: Seq<u8>,
    before: Seq<u8>,
    digits: Seq<u8>,
    after: Seq<u8>,
)
    requires
        writes_length(value, before, digits, after),
    ensures
        declared_length(value) == (if digits_value(digits) <= usize::MAX {
            Some(digits_value(digits))
        } else {
            None
        }),
{
    reveal_strlit("0123456789");
    reveal_strlit(" \t");
    let ten = "0123456789"@;
    assert forall|i: int| 0 <= i < digits.len() implies is_digit(#[trigger] digits[i]) by {
        assert(among(digits[i], ten));
        let k = choose|k: int| 0 <= k < ten.len() && ten[k] == digits[i] as char;
        assert(48 <= ten[k] as u8 <= 57);
    }
    assert(is_digit(digits[0]) && is_digit(digits[digits.len() - 1]));
    law_blanks_around_values_are_dropped(before, digits, after);
}

/// What is anything else than decimal digits between blanks declares no length.
pub proof fn law_only_digits_declare_a_length(value: Seq<u8>)
    requires
        declared_length(value) is Some,
    ensures
        exists|before: Seq<u8>, digits: Seq<u8>, after: Seq<u8>| #[trigger]
            writes_length(value, before, digits, after) && declared_length(value) == Some(
                digits_value(digits),
            ),
{
    reveal_strlit("0123456789");
    let (before, after) = lemma_trimmed(value);
    let digits = trimmed(value);
    let ten = "0123456789"@;
    assert forall|i: int| 0 <= i < digits.len() implies among(#[trigger] digits[i], ten) by {
        assert(is_digit(digits[i]));
        assert(ten[digits[i] - 48] == digits[i] as char);
    }
    assert(writes_length(value, before, digits, after));
}

proof fn lemma_trimmed(value: Seq<u8>) -> (around: (Seq<u8>, Seq<u8>))
    ensures
        value == around.0 + trimmed(value) + around.1,
        only_blanks(around.0),
        only_blanks(around.1),
{
    let before = lemma_led(value);
    let after = lemma_trailed(without_leading_blanks(value));
    assert(value =~= before + trimmed(value) + after);
    (before, after)
}

proof fn lemma_led(value: Seq<u8>) -> (before: Seq<u8>)
    ensures
        value == before + without_leading_blanks(value),
        only_blanks(before),
    decreases value.len(),
{
    reveal_strlit(" \t");
    let two = " \t"@;
    assert(two[0] == ' ' && two[1] == '\t');
    if value.len() > 0 && crate::server::blank(value[0]) {
        let rest = lemma_led(value.skip(1));
        let before = seq![value[0]] + rest;
        assert(value =~= seq![value[0]] + value.skip(1));
        assert(without_leading_blanks(value) == without_leading_blanks(value.skip(1)));
        assert(seq![value[0]] + (rest + without_leading_blanks(value)) =~= before
            + without_leading_blanks(value));
        assert forall|i: int| 0 <= i < before.len() implies among(#[trigger] before[i], two) by {
            if i > 0 {
                assert(among(rest[i - 1], two));
            }
        }
        before
    } else {
        assert(value =~= Seq::<u8>::empty() + value);
        Seq::empty()
    }
}

proof fn lemma_trailed(value: Seq<u8>) -> (after: Seq<u8>)
    ensures
        value == without_trailing_blanks(value) + after,
        only_blanks(after),
    decreases value.len(),
{
    reveal_strlit(" \t");
    let two = " \t"@;
    assert(two[0] == ' ' && two[1] == '\t');
    if value.len() > 0 && crate::server::blank(value.last()) {
        let rest = lemma_trailed(value.drop_last());
        let after = rest.push(value.last());
        assert(value =~= value.drop_last().push(value.last()));
        assert(without_trailing_blanks(value) == without_trailing_blanks(value.drop_last()));
        assert((without_trailing_blanks(value) + rest).push(value.last()) =~= without_trailing_blanks(
            value,
        ) + after);
        assert forall|i: int| 0 <= i < after.len() implies among(#[trigger] after[i], two) by {
            if i < rest.len() {
                assert(among(rest[i], two));
            }
        }
        after
    } else {
        assert(value =~= value + Seq::<u8>::empty());
        Seq::empty()
    }
}

/// A list holds a token where one side of a comma does, and without a comma
/// where it is the token, in any case and with any blanks around it.
pub proof fn law_tokens_are_listed_between_commas(left: Seq<u8>, right: Seq<u8>, token: Seq<u8>)
    ensures
        holds_token(left + seq![44u8] + right, token) <==> holds_token(left, token) || holds_token(
            right,
            token,
        ),
        !left.contains(44) ==> (holds_token(left, token) <==> same_ignoring_case(
            trimmed(left),
            token,
        )),
{
    crate::laws::texts::law_separators_part_texts(left, right, 44u8);
    let (a, b) = (split(left, 44), split(right, 44));
    let all = split(left + seq![44u8] + right, 44);
    assert(all == a + b);
    if holds_token(left, token) {
        let i = choose|i: int|
            0 <= i < a.len() && same_ignoring_case(trimmed(#[trigger] a[i]), token);
        assert(all[i] == a[i]);
    }
    if holds_token(right, token) {
        let i = choose|i: int|
            0 <= i < b.len() && same_ignoring_case(trimmed(#[trigger] b[i]), token);
        assert(all[a.len() + i] == b[i]);
    }
    if holds_token(left + seq![44u8] + right, token) {
        let i = choose|i: int|
            0 <= i < all.len() && same_ignoring_case(trimmed(#[trigger] all[i]), token);
        if i < a.len() {
            assert(all[i] == a[i]);
        } else {
            assert(all[i] == b[i - a.len()]);
        }
    }
    if !left.contains(44) {
        assert(a == seq![left]);
        assert(a[0] == left);
    }
}

/// The first header of a name counts, in whatever case it is written; the
/// others of that name and all of other names do not.
pub proof fn law_the_first_header_of_a_name_counts(
    headers: Seq<Header<'_>>,
    name: Seq<u8>,
    index: int,
)
    requires
        0 <= index < headers.len(),
        forall|j: int|
            0 <= j < index ==> !same_ignoring_case((#[trigger] headers[j]).name.spec_bytes(), name),
    ensures
        same_ignoring_case(headers[index].name.spec_bytes(), name) ==> header_value(headers, name)
            == Some(headers[index].value@),
        index == headers.len() - 1 && !same_ignoring_case(headers[index].name.spec_bytes(), name)
            ==> header_value(headers, name) is None,
    decreases index,
{
    if index > 0 {
        let rest = headers.skip(1);
        assert(!same_ignoring_case(headers[0].name.spec_bytes(), name));
        assert forall|j: int| 0 <= j < index - 1 implies !same_ignoring_case(
            (#[trigger] rest[j]).name.spec_bytes(),
            name,
        ) by {
            assert(rest[j] == headers[j + 1]);
        }
        law_the_first_header_of_a_name_counts(rest, name, index - 1);
    } else {
        reveal_with_fuel(header_value, 2);
    }
}

/// Every failure is answered with the status that stands for it.
pub proof fn law_failures_have_their_statuses(failure: RequestFailure, error: HeadError)
    ensures
        failure.code() == 431 <==> failure is HeadersTooLarge,
        failure.code() == 413 <==> failure is BodyTooLarge,
        failure.code() == 417 <==> failure is ExpectationFailed,
        failure.code() == 501 <==> failure is UnsupportedTransferEncoding,
        failure.code() == 505 <==> failure is UnsupportedVersion,
        failure.code() == 503 <==> failure is ServiceUnavailable,
        failure.code() == 400 <==> failure is BadRequest || failure is Closed || failure is Io,
        parse_failure(error) is HeadersTooLarge <==> error is TooManyHeaders,
        parse_failure(error) is BadRequest <==> error is Malformed,
{
}

/// A configuration is valid exactly where every limit is at least one, the
/// budget of all bodies holds the largest one, that one can be counted in 32
/// bits, no time is zero, and the origin policy can be sent in headers.
pub proof fn law_valid_configurations_have_no_empty_limit(config: ServerConfig)
    ensures
        config_error(config) is None <==> {
            &&& config.initial_request_segment_bytes >= 1
            &&& config.max_connections >= 1
            &&& config.max_request_head_bytes >= 1
            &&& 1 <= config.max_request_body_bytes <= 0xffff_ffff
            &&& config.max_in_flight_request_body_bytes >= config.max_request_body_bytes
            &&& config.request_timeout.nanos >= 1
            &&& config.shutdown_grace.nanos >= 1
            &&& config.cors matches Some(cors) ==> cors@.is_valid()
        },
{
}

/// The milliseconds of a span of time are the whole ones that passed.
pub proof fn law_milliseconds_are_whole(duration: crate::server::Duration)
    ensures
        duration.whole_millis() * 1_000_000 <= duration.nanos,
        duration.nanos < (duration.whole_millis() + 1) * 1_000_000,
{
}

} // verus!
