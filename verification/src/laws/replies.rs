//! Laws of replies: statuses, lengths, headers, redirects and downloads.
use vstd::prelude::*;
use vstd::string::StringSliceAdditionalSpecFns;
use vstd::utf8::*;

#[allow(unused_imports)]
use crate::headers::{has_line, is_map_name, is_value, lowered, place_behind, value_byte};
#[allow(unused_imports)]
use crate::laws::heads::{are_head_lines, is_token, law_heads_announce_how_bodies_are_framed};
#[allow(unused_imports)]
use crate::laws::heads::written_lines;
#[allow(unused_imports)]
use crate::laws::texts::among;
#[allow(unused_imports)]
use crate::reply::{location_byte, location_chars, location_text, upper_hex};
use crate::reply::{HttpResponse, Redirect};
#[allow(unused_imports)]
use crate::response::{
    block_error, encoded_line, encoded_lines, law_blocks_can_be_joined,
    law_proper_headers_are_kept, lemma_proper_lines_pass, proper_line, BodyModel, ResponseModel,
};
use crate::server::Inspection;
#[allow(unused_imports)]
use crate::server::receive::answered;
#[allow(unused_imports)]
use crate::server::write::{
    all_bytes, before, chunk_head, crlf, download_step, downloaded, framed, hex_byte, last_chunk,
    law_declared_length_is_kept, lower_hex, phrase, response_head, unbroken_text,
};
use crate::server::write::{DownloadError, DownloadStep};
#[allow(unused_imports)]
use crate::text::decimal;

verus! {

/// A location that is made of letters, digits, delimiters and escapes alone is
/// sent as it is.
pub proof fn law_plain_locations_are_kept(location: Seq<char>)
    requires
        forall|i: int|
            0 <= i < location.len() ==> (
            "ABCDEFGHIJKLMNOPQRSTUVWXYZabcdefghijklmnopqrstuvwxyz0123456789-._~:/%#?=@[]!$&'()*+,;"@).contains(
            #[trigger] location[i]),
    ensures
        location_text(encode_utf8(location)) == location,
    decreases location.len(),
{
    reveal_strlit(
        "ABCDEFGHIJKLMNOPQRSTUVWXYZabcdefghijklmnopqrstuvwxyz0123456789-._~:/%#?=@[]!$&'()*+,;",
    );
    let kept =
        "ABCDEFGHIJKLMNOPQRSTUVWXYZabcdefghijklmnopqrstuvwxyz0123456789-._~:/%#?=@[]!$&'()*+,;"@;
    assert forall|i: int| 0 <= i < location.len() implies (#[trigger] location[i] as u32) < 128
        && location_byte(location[i] as u8) && (location[i] as u8) as char == location[i] by {
        let k = choose|k: int| 0 <= k < kept.len() && kept[k] == location[i];
        assert((kept[k] as u32) < 128 && location_byte(kept[k] as u8));
    }
    assert(is_ascii_chars(location));
    is_ascii_chars_encode_utf8(location);
    let bytes = encode_utf8(location);
    lemma_kept(bytes);
    assert(location_text(bytes) =~= location);
}

proof fn lemma_kept(bytes: Seq<u8>)
    requires
        forall|i: int| 0 <= i < bytes.len() ==> location_byte(#[trigger] bytes[i]),
    ensures
        location_text(bytes) == bytes.map_values(|byte: u8| byte as char),
    decreases bytes.len(),
{
    if bytes.len() > 0 {
        assert forall|i: int| 0 <= i < bytes.drop_last().len() implies location_byte(
            #[trigger] bytes.drop_last()[i],
        ) by {
            assert(location_byte(bytes[i]));
        }
        lemma_kept(bytes.drop_last());
        assert(location_byte(bytes[bytes.len() - 1]));
    }
    assert(location_text(bytes) =~= bytes.map_values(|byte: u8| byte as char));
}

/// Any other byte of a location is sent as `%` and two hexadecimal digits, in
/// its place among the others.
pub proof fn law_other_bytes_of_locations_are_escaped(left: Seq<u8>, byte: u8, right: Seq<u8>)
    ensures
        location_text(left + right) == location_text(left) + location_text(right),
        !among(
            byte,
            "ABCDEFGHIJKLMNOPQRSTUVWXYZabcdefghijklmnopqrstuvwxyz0123456789-._~:/%#?=@[]!$&'()*+,;"@,
        ) ==> location_text(seq![byte]) == seq![
            '%',
            "0123456789ABCDEF"@[byte as int / 16],
            "0123456789ABCDEF"@[byte as int % 16],
        ],
    decreases right.len(),
{
    if right.len() == 0 {
        assert(left + right =~= left);
        assert(location_text(left) + location_text(right) =~= location_text(left));
    } else {
        law_other_bytes_of_locations_are_escaped(left, byte, right.drop_last());
        assert((left + right).drop_last() =~= left + right.drop_last());
        assert(location_text(left + right) =~= location_text(left) + location_text(right));
    }
    reveal_strlit(
        "ABCDEFGHIJKLMNOPQRSTUVWXYZabcdefghijklmnopqrstuvwxyz0123456789-._~:/%#?=@[]!$&'()*+,;",
    );
    reveal_strlit("0123456789ABCDEF");
    let kept =
        "ABCDEFGHIJKLMNOPQRSTUVWXYZabcdefghijklmnopqrstuvwxyz0123456789-._~:/%#?=@[]!$&'()*+,;"@;
    if !among(byte, kept) {
        if location_byte(byte) {
            lemma_location_index(byte);
        }
        assert(seq![byte].drop_last() =~= Seq::<u8>::empty());
        assert(location_text(seq![byte].drop_last()) =~= Seq::<char>::empty());
        assert(location_text(seq![byte]) =~= location_chars(byte));
    }
}

proof fn lemma_location_index(byte: u8)
    requires
        location_byte(byte),
    ensures
        among(
            byte,
            "ABCDEFGHIJKLMNOPQRSTUVWXYZabcdefghijklmnopqrstuvwxyz0123456789-._~:/%#?=@[]!$&'()*+,;"@,
        ),
{
    reveal_strlit(
        "ABCDEFGHIJKLMNOPQRSTUVWXYZabcdefghijklmnopqrstuvwxyz0123456789-._~:/%#?=@[]!$&'()*+,;",
    );
    let kept =
        "ABCDEFGHIJKLMNOPQRSTUVWXYZabcdefghijklmnopqrstuvwxyz0123456789-._~:/%#?=@[]!$&'()*+,;"@;
    let k: int = if 65 <= byte <= 90 {
        byte - 65
    } else if 97 <= byte <= 122 {
        byte - 71
    } else if 48 <= byte <= 57 {
        byte + 4
    } else if byte == 45 {
        62
    } else if byte == 46 {
        63
    } else if byte == 95 {
        64
    } else if byte == 126 {
        65
    } else if byte == 58 {
        66
    } else if byte == 47 {
        67
    } else if byte == 37 {
        68
    } else if byte == 35 {
        69
    } else if byte == 63 {
        70
    } else if byte == 61 {
        71
    } else if byte == 64 {
        72
    } else if byte == 91 {
        73
    } else if byte == 93 {
        74
    } else if byte == 33 {
        75
    } else if byte == 36 {
        76
    } else if byte == 38 {
        77
    } else if byte == 39 {
        78
    } else if byte == 40 {
        79
    } else if byte == 41 {
        80
    } else if byte == 42 {
        81
    } else if byte == 43 {
        82
    } else if byte == 44 {
        83
    } else {
        84
    };
    assert(kept[k] == byte as char);
}

/// A redirect is an empty response that names its location and nothing else.
pub proof fn law_redirects_name_their_location(redirect: Redirect)
    requires
        redirect.response().headers.len() > 0,
    ensures
        redirect.response().headers == "location: ".spec_bytes() + encode_utf8(
            location_text(encode_utf8(redirect.location())),
        ) + seq![13u8, 10u8],
        redirect.response().status == redirect.status_number(),
        redirect.response().body == BodyModel::Whole(Seq::empty()),
        redirect.response().content_type is None,
        !redirect.response().close,
{
    reveal_strlit("location: ");
    reveal_strlit("location");
    is_ascii_chars_encode_utf8("location: "@);
    is_ascii_chars_encode_utf8("location"@);
    let value = encode_utf8(location_text(encode_utf8(redirect.location())));
    let line = ("location".spec_bytes(), value);
    let lines = seq![line];
    assert("location: ".spec_bytes() =~= "location".spec_bytes() + seq![58u8, 32]);
    assert(lines.drop_last() =~= Seq::<(Seq<u8>, Seq<u8>)>::empty());
    assert(encoded_lines(lines.drop_last()) =~= Seq::<u8>::empty());
    assert(encoded_lines(lines) =~= encoded_line(line));
    assert(Seq::<u8>::empty() + encoded_lines(lines) =~= encoded_line(line));
}

/// A redirect of ordinary length is never refused.
pub proof fn law_redirects_are_answered(redirect: Redirect)
    requires
        location_text(encode_utf8(redirect.location())).len() <= isize::MAX - 12,
    ensures
        redirect.response().headers.len() > 0,
{
    reveal_strlit("location");
    crate::reply::lemma_fixed_name("location");
    is_ascii_chars_encode_utf8("location"@);
    let text = location_text(encode_utf8(redirect.location()));
    lemma_location_plain(encode_utf8(redirect.location()));
    crate::reply::lemma_plain_value(text);
    is_ascii_chars_encode_utf8(text);
    let value = encode_utf8(text);
    let line = ("location".spec_bytes(), value);
    let lines = seq![line];
    assert(!value.contains(13) && !value.contains(10)) by {
        assert forall|i: int| 0 <= i < value.len() implies value[i] != 13 && value[i] != 10 by {
            assert(value_byte(value[i]));
        }
    }
    assert(proper_line(line));
    lemma_proper_lines_pass(lines);
    assert(lines.drop_last() =~= Seq::<(Seq<u8>, Seq<u8>)>::empty());
    assert(encoded_lines(lines.drop_last()) =~= Seq::<u8>::empty());
    assert(encoded_lines(lines) =~= encoded_line(line));
    assert(Seq::<u8>::empty() + encoded_lines(lines) =~= encoded_lines(lines));
}

proof fn lemma_location_plain(bytes: Seq<u8>)
    ensures
        crate::reply::plain_text(location_text(bytes)),
        is_ascii_chars(location_text(bytes)),
    decreases bytes.len(),
{
    if bytes.len() > 0 {
        lemma_location_plain(bytes.drop_last());
        let front = location_text(bytes.drop_last());
        let last = location_chars(bytes.last());
        let all = location_text(bytes);
        assert forall|i: int| 0 <= i < all.len() implies ' ' <= #[trigger] all[i] <= '~' by {
            if i < front.len() {
                assert(all[i] == front[i]);
            } else {
                assert(all[i] == last[i - front.len()]);
            }
        }
    }
}

/// A failed conversion is an empty error behind which the connection ends.
pub proof fn law_failed_conversions_are_server_errors()
    ensures
        ResponseModel::failed_conversion().status == 500,
        ResponseModel::failed_conversion().body == BodyModel::Whole(Seq::empty()),
        ResponseModel::failed_conversion().headers == Seq::<u8>::empty(),
        ResponseModel::failed_conversion().content_type is None,
        ResponseModel::failed_conversion().close,
        ResponseModel::failed_conversion().conversion_failed,
        !ResponseModel::failed_conversion().suppress_body,
{
}

/// A plain response says nothing but its status and its body.
pub proof fn law_plain_responses_add_nothing(status: u16, body: BodyModel)
    ensures
        ResponseModel::plain(status, body).status == status,
        ResponseModel::plain(status, body).body == body,
        ResponseModel::plain(status, body).headers == Seq::<u8>::empty(),
        ResponseModel::plain(status, body).content_type is None,
        ResponseModel::plain(status, body).allow is None,
        ResponseModel::plain(status, body).www_authenticate is None,
        !ResponseModel::plain(status, body).close,
        !ResponseModel::plain(status, body).suppress_body,
        !ResponseModel::plain(status, body).conversion_failed,
        ResponseModel::empty(status) == ResponseModel::plain(
            status,
            BodyModel::Whole(Seq::empty()),
        ),
{
}

/// A status takes the place of the one before and changes nothing else.
pub proof fn law_statuses_replace_statuses(response: ResponseModel, status: u16)
    requires
        !response.conversion_failed,
    ensures
        response.with_status(status).status == status,
        response.with_status(status).body == response.body,
        response.with_status(status).headers == response.headers,
        response.with_status(status).content_type == response.content_type,
        response.with_status(status).close == response.close,
        response.with_status(status).suppress_body == response.suppress_body,
        !response.with_status(status).conversion_failed,
{
}

/// A stream takes the length that is declared for it. A body that is at hand
/// keeps its own: another length is a failure, its own changes nothing.
pub proof fn law_lengths_are_declared_for_streams(response: ResponseModel, length: u64)
    ensures
        response.body is Stream ==> {
            &&& response.with_length(length).body == BodyModel::Stream(Some(length))
            &&& response.with_length(length).status == response.status
            &&& response.with_length(length).headers == response.headers
            &&& response.with_length(length).content_type == response.content_type
        },
        response.body matches BodyModel::Whole(bytes) ==> if bytes.len() as u64 == length {
            response.with_length(length) == response
        } else {
            response.with_length(length).status == 500
        },
        response.body matches BodyModel::Segmented { reader, length: own } ==> if own == length {
            response.with_length(length) == response
        } else {
            response.with_length(length).status == 500
        },
{
}

/// Every status from 200 on permits a body but 204 and 304, and no other does.
pub proof fn law_informational_and_empty_statuses_have_no_body(response: ResponseModel)
    ensures
        response.permits_body() <==> !(response.status < 200 || response.status == 204
            || response.status == 304),
        response.sends_body() <==> !response.suppress_body && !(response.status < 200
            || response.status == 204 || response.status == 304),
{
}

/// Header lines are written one behind the other, each as name, colon, space,
/// value and line ending.
pub proof fn law_header_lines_are_written_in_order(
    left: Seq<(Seq<u8>, Seq<u8>)>,
    name: Seq<u8>,
    value: Seq<u8>,
)
    ensures
        encoded_lines(left.push((name, value))) == encoded_lines(left) + name + ": ".spec_bytes()
            + value + "\r\n".spec_bytes(),
        encoded_lines(Seq::<(Seq<u8>, Seq<u8>)>::empty()) == Seq::<u8>::empty(),
{
    reveal_strlit(": ");
    reveal_strlit("\r\n");
    is_ascii_chars_encode_utf8(": "@);
    is_ascii_chars_encode_utf8("\r\n"@);
    assert(": ".spec_bytes() =~= seq![58u8, 32]);
    assert("\r\n".spec_bytes() =~= seq![13u8, 10]);
    assert(left.push((name, value)).drop_last() =~= left);
    assert(encoded_lines(left.push((name, value))) =~= encoded_lines(left) + name
        + ": ".spec_bytes() + value + "\r\n".spec_bytes());
}

/// Adding headers that the application may set keeps all else of a response but
/// a content type that they bring themselves.
pub proof fn law_added_headers_keep_the_rest(
    response: ResponseModel,
    lines: Seq<(Seq<u8>, Seq<u8>)>,
)
    requires
        block_error(response.headers) is None,
        forall|i: int| 0 <= i < lines.len() ==> proper_line(#[trigger] lines[i]),
        (response.headers + encoded_lines(lines)).len() <= isize::MAX,
    ensures
        response.with_lines(lines).headers == response.headers + encoded_lines(lines),
        response.with_lines(lines).status == response.status,
        response.with_lines(lines).body == response.body,
        response.with_lines(lines).allow == response.allow,
        response.with_lines(lines).www_authenticate == response.www_authenticate,
        response.with_lines(lines).close == response.close,
        response.with_lines(lines).suppress_body == response.suppress_body,
        response.with_lines(lines).conversion_failed == response.conversion_failed,
        response.with_lines(lines).content_type == (if exists|i: int|
            0 <= i < lines.len() && (#[trigger] lines[i]).0 == "content-type".spec_bytes() {
            None
        } else {
            response.content_type
        }),
{
    law_proper_headers_are_kept(response, lines);
}

/// The application cannot set how a connection or a body is framed: a response
/// with such a header is a failure.
pub proof fn law_framing_headers_are_refused(
    response: ResponseModel,
    name: Seq<u8>,
    value: Seq<u8>,
)
    requires
        block_error(response.headers) is None,
        is_token(name),
        !value.contains(13),
        !value.contains(10),
        crate::text::same_ignoring_case(name, "connection".spec_bytes())
            || crate::text::same_ignoring_case(name, "content-length".spec_bytes())
            || crate::text::same_ignoring_case(name, "transfer-encoding".spec_bytes()),
    ensures
        response.with_lines(seq![(name, value)]) == ResponseModel::failed_conversion(),
{
    let line = (name, value);
    let lines = seq![line];
    assert(lines.drop_last() =~= Seq::<(Seq<u8>, Seq<u8>)>::empty());
    assert(encoded_lines(lines.drop_last()) =~= Seq::<u8>::empty());
    let text = seq![32u8] + value;
    assert(encoded_lines(lines) =~= name + seq![58u8] + text + seq![13u8, 10u8]
        + Seq::<u8>::empty());
    reveal_strlit(
        "!#$%&'*+-.^_`|~0123456789ABCDEFGHIJKLMNOPQRSTUVWXYZabcdefghijklmnopqrstuvwxyz",
    );
    crate::laws::heads::law_names_are_tokens(name);
    assert forall|i: int| 0 <= i < name.len() implies name[i] != 58 && name[i] != 13 && name[i]
        != 10 by {
        assert(crate::response::token_byte(name[i]));
    }
    assert forall|i: int| 0 <= i < text.len() implies text[i] != 13 && text[i] != 10 by {
        if i > 0 {
            assert(value.contains(value[i - 1]));
        }
    }
    crate::laws::heads::law_lines_are_judged_by_name_and_value(name, text, Seq::empty());
    lemma_error_behind(response.headers, encoded_lines(lines));
}

proof fn lemma_error_behind(left: Seq<u8>, right: Seq<u8>)
    requires
        block_error(left) is None,
    ensures
        block_error(left + right) == block_error(right),
    decreases left.len(),
{
    if left.len() == 0 {
        assert(left + right =~= right);
    } else {
        crate::response::lemma_first_crlf(left);
        let end = crate::response::first_crlf(left);
        let rest = left.skip(end + 2);
        lemma_error_behind(rest, right);
        let both = left + right;
        assert forall|i: int| 0 <= i < end implies !(#[trigger] both[i] == 13 && both[i + 1]
            == 10) by {
            assert(left[i] == both[i]);
            assert(left[i + 1] == both[i + 1]);
        }
        crate::response::lemma_first_crlf_unique(both, end);
        assert(both.take(end) =~= left.take(end));
        assert(both.skip(end + 2) =~= rest + right);
    }
}

/// A reply is its body's response with the status, the length and the headers
/// that it was given. A stream gets the declared length, whatever else is set:
/// the head announces it in `Content-Length`, and no transfer encoding.
pub proof fn law_replies_announce_the_declared_length<T>(
    reply: HttpResponse<T>,
    inner: ResponseModel,
    length: u64,
    reason: Seq<char>,
    close: bool,
)
    requires
        reply.length() == Some(length),
        inner.body is Stream,
        block_error(inner.headers) is None,
        unbroken_text(Some(reason)),
        unbroken_text(inner.content_type),
        unbroken_text(inner.allow),
        unbroken_text(inner.www_authenticate),
        forall|i: int| 0 <= i < reply.lines().len() ==> proper_line(#[trigger] reply.lines()[i]),
        (inner.headers + encoded_lines(reply.lines())).len() <= isize::MAX,
    ensures
        reply.applied(inner).body == BodyModel::Stream(Some(length)),
        reply.applied(inner).headers == inner.headers + encoded_lines(reply.lines()),
        reply.applied(inner).status == (if inner.conversion_failed || reply.status_number() is None {
            inner.status
        } else {
            reply.status_number()->0
        }),
        exists|lines: Seq<Seq<u8>>| #[trigger]
            are_head_lines(lines, reply.applied(inner), reason, close) && response_head(
                reply.applied(inner),
                reason,
                close,
            ) == written_lines(lines) + seq![13u8, 10u8],
{
    law_proper_headers_are_kept(inner, reply.lines());
    lemma_proper_lines_pass(reply.lines());
    law_blocks_can_be_joined(inner.headers, encoded_lines(reply.lines()));
    assert(inner.headers + Seq::<u8>::empty() =~= inner.headers);
    law_heads_announce_how_bodies_are_framed(reply.applied(inner), reason, close);
}

/// Without a declared length, a reply leaves the body of its response as it is.
pub proof fn law_replies_keep_the_body<T>(reply: HttpResponse<T>, inner: ResponseModel)
    requires
        reply.length() is None,
        block_error(inner.headers) is None,
        forall|i: int| 0 <= i < reply.lines().len() ==> proper_line(#[trigger] reply.lines()[i]),
        (inner.headers + encoded_lines(reply.lines())).len() <= isize::MAX,
    ensures
        reply.applied(inner).body == inner.body,
        reply.applied(inner).headers == inner.headers + encoded_lines(reply.lines()),
        reply.applied(inner).status == (if inner.conversion_failed || reply.status_number() is None {
            inner.status
        } else {
            reply.status_number()->0
        }),
        reply.applied(inner).close == inner.close,
{
    law_proper_headers_are_kept(inner, reply.lines());
    lemma_proper_lines_pass(reply.lines());
    law_blocks_can_be_joined(inner.headers, encoded_lines(reply.lines()));
    assert(inner.headers + Seq::<u8>::empty() =~= inner.headers);
}

/// A header comes behind the last one of its name, or behind all where it is
/// the first of its name.
pub proof fn law_headers_are_kept_in_order(lines: Seq<(Seq<u8>, Seq<u8>)>, name: Seq<u8>)
    ensures
        0 <= place_behind(lines, name) <= lines.len(),
        forall|i: int|
            place_behind(lines, name) <= i < lines.len() ==> (#[trigger] lines[i]).0 != name,
        has_line(lines, name) ==> place_behind(lines, name) > 0 && lines[place_behind(lines, name)
            - 1].0 == name,
        !has_line(lines, name) ==> place_behind(lines, name) == lines.len(),
    decreases lines.len(),
{
    if lines.len() > 0 {
        let front = lines.drop_last();
        law_headers_are_kept_in_order(front, name);
        if has_line(lines, name) && lines.last().0 != name {
            let i = choose|i: int| 0 <= i < lines.len() && (#[trigger] lines[i]).0 == name;
            assert(front[i].0 == name);
            assert(has_line(front, name));
            let place = place_behind(front, name);
            assert forall|i: int| place <= i < lines.len() implies (#[trigger] lines[i]).0
                != name by {
                if i < front.len() {
                    assert(front[i].0 != name);
                }
            }
            assert(front[place - 1] == lines[place - 1]);
        } else if lines.last().0 == name {
            assert(lines[lines.len() - 1].0 == name);
        }
    }
}

/// A value is any text without control characters other than tabs.
pub proof fn law_values_have_no_control_characters(value: Seq<u8>)
    ensures
        is_value(value) <==> forall|i: int|
            0 <= i < value.len() ==> !(#[trigger] value[i] < 32 && value[i] != 9) && value[i] != 127,
{
    if is_value(value) {
        assert forall|i: int| 0 <= i < value.len() implies !(#[trigger] value[i] < 32 && value[i]
            != 9) && value[i] != 127 by {
            assert(value_byte(value[i]));
        }
    }
}

/// An answer to `HEAD` is the answer without its body; a status beyond 599 is
/// an error of the server; a request takes its own bytes, no more and no less.
pub proof fn law_answers_fit_their_requests(
    method: Seq<char>,
    response: ResponseModel,
    inspection: Inspection,
)
    ensures
        answered(method, response, inspection).1 == inspection.total_len,
        response.status <= 599 ==> {
            let sent = answered(method, response, inspection).0;
            &&& answered(method, response, inspection).2 == inspection.keep_alive
            &&& sent.status == response.status
            &&& sent.body == response.body
            &&& sent.headers == response.headers
            &&& sent.content_type == response.content_type
            &&& sent.close == response.close
            &&& sent.suppress_body <==> response.suppress_body || method == "HEAD"@
        },
        response.status > 599 ==> {
            let sent = answered(method, response, inspection).0;
            &&& !answered(method, response, inspection).2
            &&& sent.status == 500
            &&& sent.close
            &&& sent.body == BodyModel::Whole(Seq::empty())
            &&& sent.headers == Seq::<u8>::empty()
        },
{
}

/// A download of declared length that does not fit is broken off for the reason
/// that it does not: it has more bytes than declared, or it ends before.
pub proof fn law_broken_downloads_tell_why(length: u64, sent: u64, chunks: Seq<Seq<u8>>)
    requires
        sent <= length,
        sent + all_bytes(chunks).len() <= u64::MAX,
    ensures
        downloaded(Some(length), sent, chunks) == Err::<Seq<u8>, DownloadError>(
            DownloadError::Exceeded,
        ) <==> sent + all_bytes(chunks).len() > length,
        downloaded(Some(length), sent, chunks) == Err::<Seq<u8>, DownloadError>(
            DownloadError::EndedEarly,
        ) <==> sent + all_bytes(chunks).len() < length,
    decreases chunks.len(),
{
    if chunks.len() > 0 {
        let (step, next) = download_step(Some(length), sent, Some(chunks[0].len()));
        match step {
            DownloadStep::Fail(_) => {},
            _ => {
                law_broken_downloads_tell_why(length, next, chunks.skip(1));
                if chunks[0].len() == 0 {
                    assert(all_bytes(chunks) =~= all_bytes(chunks.skip(1)));
                }
            },
        }
    }
}

/// A download without a declared length is never broken off, as far as its
/// bytes can be counted.
pub proof fn law_chunked_downloads_go_on(sent: u64, chunks: Seq<Seq<u8>>)
    ensures
        downloaded(None, sent, chunks) is Ok <==> sent + all_bytes(chunks).len() <= u64::MAX,
    decreases chunks.len(),
{
    if chunks.len() > 0 {
        let (step, next) = download_step(None, sent, Some(chunks[0].len()));
        match step {
            DownloadStep::Fail(_) => {},
            _ => {
                law_chunked_downloads_go_on(next, chunks.skip(1));
                if chunks[0].len() == 0 {
                    assert(all_bytes(chunks) =~= all_bytes(chunks.skip(1)));
                }
            },
        }
    }
}

/// A chunk is written between its length in hexadecimal digits and a line
/// ending, and the last one is followed by an empty chunk.
pub proof fn law_chunks_are_framed_by_their_length(chunk: Seq<u8>, front: nat, digit: int)
    requires
        0 <= digit < 16,
    ensures
        framed(chunk) == lower_hex(chunk.len()) + "\r\n".spec_bytes() + chunk + "\r\n".spec_bytes(),
        last_chunk() == "0\r\n\r\n".spec_bytes(),
        lower_hex(digit as nat) == seq!["0123456789abcdef"@[digit] as u8],
        front > 0 ==> lower_hex((front * 16 + digit) as nat) == lower_hex(front).push(
            "0123456789abcdef"@[digit] as u8,
        ),
{
    reveal_strlit("\r\n");
    reveal_strlit("0\r\n\r\n");
    reveal_strlit("0123456789abcdef");
    is_ascii_chars_encode_utf8("\r\n"@);
    is_ascii_chars_encode_utf8("0\r\n\r\n"@);
    assert("\r\n".spec_bytes() =~= seq![13u8, 10]);
    assert("0\r\n\r\n".spec_bytes() =~= last_chunk());
    if front > 0 {
        let value = (front * 16 + digit) as nat;
        assert(value / 16 == front && value % 16 == digit);
    }
}

/// A status that has no phrase of its own is still given one.
pub proof fn law_every_status_has_a_phrase(reason: Seq<char>)
    ensures
        phrase(Some(reason)) == reason,
        phrase(None) == "Unknown"@,
{
}

/// The length of a body is the number of its bytes, where that is known.
pub proof fn law_bodies_have_their_length(bytes: Seq<u8>, declared: Option<u64>)
    requires
        bytes.len() <= u64::MAX,
    ensures
        BodyModel::Whole(bytes).content_length() == Some(bytes.len() as u64),
        BodyModel::Stream(declared).content_length() == declared,
{
}

} // verus!
