//! Laws of the cross-origin policy.
use vstd::prelude::*;
use vstd::string::StringSliceAdditionalSpecFns;
use vstd::utf8::*;

#[allow(unused_imports)]
use crate::cors::{
    header_or_any, header_text, headers_or_any, lemma_names, lemma_plain_values, lower_case_name,
    optional_line, safelisted, Cors, CorsModel,
};
#[allow(unused_imports)]
use crate::headers::{has_line, is_map_name, is_value, lowered, value_byte};
#[allow(unused_imports)]
use crate::laws::heads::{is_token, law_names_are_tokens};
use crate::request::RequestModel;
#[allow(unused_imports)]
use crate::request::header_value;
#[allow(unused_imports)]
use crate::response::{
    block_error, encoded_lines, is_name, law_proper_headers_are_kept, proper_line, reserved_name,
    token_byte, BodyModel, ResponseModel,
};
#[allow(unused_imports)]
use crate::text::{
    decimal, glued, same_ignoring_case, split, trim_end, trim_start, utf8_text,
};

verus! {

/// Whether the policy names an origin, or all of them.
pub open spec fn origin_is_listed(cors: CorsModel, origin: Seq<char>) -> bool {
    exists|i: int|
        0 <= i < cors.allow_origins.len() && (#[trigger] cors.allow_origins[i] == origin
            || cors.allow_origins[i] == "*"@)
}

/// Whether the policy names a header, in any case, or it is one that needs no
/// naming.
pub open spec fn header_is_listed(cors: CorsModel, name: Seq<char>) -> bool {
    ||| name.len() == 0
    ||| same_ignoring_case(encode_utf8(name), "accept".spec_bytes())
    ||| same_ignoring_case(encode_utf8(name), "accept-language".spec_bytes())
    ||| same_ignoring_case(encode_utf8(name), "content-language".spec_bytes())
    ||| same_ignoring_case(encode_utf8(name), "content-type".spec_bytes())
    ||| exists|i: int|
        0 <= i < cors.allow_headers.len() && same_ignoring_case(
            encode_utf8(name),
            encode_utf8(#[trigger] cors.allow_headers[i]),
        )
}

/// Whether the policy names all headers of a list, or all headers that there are.
pub open spec fn headers_are_listed(cors: CorsModel, requested: Seq<char>) -> bool {
    ||| exists|i: int| 0 <= i < cors.allow_headers.len() && #[trigger] cors.allow_headers[i] == "*"@
    ||| forall|i: int|
        0 <= i < split(requested, ',').len() ==> header_is_listed(
            cors,
            trim_end(trim_start(#[trigger] split(requested, ',')[i])),
        )
}

proof fn lemma_listed(cors: CorsModel, origin: Seq<char>, requested: Seq<char>)
    ensures
        cors.permits_origin(origin) == origin_is_listed(cors, origin),
        cors.permits_headers(requested) == headers_are_listed(cors, requested),
{
    if cors.permits_origin(origin) {
        let i = if cors.allow_origins.contains("*"@) {
            choose|i: int| 0 <= i < cors.allow_origins.len() && cors.allow_origins[i] == "*"@
        } else {
            choose|i: int| 0 <= i < cors.allow_origins.len() && cors.allow_origins[i] == origin
        };
        assert(cors.allow_origins[i] == origin || cors.allow_origins[i] == "*"@);
    }
    assert forall|name: Seq<char>| #[trigger] cors.permits_header(name) == header_is_listed(
        cors,
        name,
    ) by {}
    if cors.allow_headers.contains("*"@) {
        let i = choose|i: int| 0 <= i < cors.allow_headers.len() && cors.allow_headers[i] == "*"@;
        assert(cors.allow_headers[i] == "*"@);
    } else {
        let pieces = split(requested, ',');
        if cors.permits_headers(requested) {
            assert forall|i: int| 0 <= i < pieces.len() implies header_is_listed(
                cors,
                trim_end(trim_start(#[trigger] pieces[i])),
            ) by {
                assert(cors.permits_header(trim_end(trim_start(pieces[i]))));
            }
        }
        if headers_are_listed(cors, requested) {
            assert forall|i: int| 0 <= i < pieces.len() implies cors.permits_header(
                trim_end(trim_start(#[trigger] pieces[i])),
            ) by {
                assert(header_is_listed(cors, trim_end(trim_start(pieces[i]))));
            }
        }
    }
}

/// Whether every line is one that the application may set.
spec fn all_proper(lines: Seq<(Seq<u8>, Seq<u8>)>) -> bool {
    forall|i: int| 0 <= i < lines.len() ==> proper_line(#[trigger] lines[i])
}

proof fn lemma_optional_proper(name: Seq<u8>, value: Seq<char>)
    requires
        lower_case_name(name),
        name.len() == 27 || name.len() == 4 || name.len() == 32 || name.len() == 29 || name.len()
            == 28 || name.len() == 22,
    ensures
        all_proper(optional_line(name, value)),
        is_value(encode_utf8(value)) ==> proper_line((name, encode_utf8(value))),
{
    reveal_strlit("connection");
    reveal_strlit("content-length");
    reveal_strlit("transfer-encoding");
    is_ascii_chars_encode_utf8("connection"@);
    is_ascii_chars_encode_utf8("content-length"@);
    is_ascii_chars_encode_utf8("transfer-encoding"@);
    let bytes = encode_utf8(value);
    if is_value(bytes) {
        assert forall|i: int| 0 <= i < bytes.len() implies bytes[i] != 13 && bytes[i] != 10 by {
            assert(value_byte(bytes[i]));
        }
    }
}

proof fn lemma_proper_join(left: Seq<(Seq<u8>, Seq<u8>)>, right: Seq<(Seq<u8>, Seq<u8>)>)
    requires
        all_proper(left),
        all_proper(right),
    ensures
        all_proper(left + right),
{
    let all = left + right;
    assert forall|i: int| 0 <= i < all.len() implies proper_line(#[trigger] all[i]) by {
        if i < left.len() {
            assert(all[i] == left[i]);
        } else {
            assert(all[i] == right[i - left.len()]);
        }
    }
}

/// The lines of the parts that an answer to an origin consists of.
spec fn vary_part(cors: CorsModel) -> Seq<(Seq<u8>, Seq<u8>)> {
    if cors.reflects() {
        seq![("vary".spec_bytes(), "Origin".spec_bytes())]
    } else {
        Seq::empty()
    }
}

spec fn credentials_part(cors: CorsModel) -> Seq<(Seq<u8>, Seq<u8>)> {
    if cors.allow_credentials {
        seq![("access-control-allow-credentials".spec_bytes(), "true".spec_bytes())]
    } else {
        Seq::empty()
    }
}

spec fn expose_part(cors: CorsModel) -> Seq<(Seq<u8>, Seq<u8>)> {
    if cors.expose_headers.len() > 0 {
        optional_line(
            "access-control-expose-headers".spec_bytes(),
            glued(cors.expose_headers, ", "@),
        )
    } else {
        Seq::empty()
    }
}

spec fn named_part(cors: CorsModel, origin: Seq<char>) -> Seq<(Seq<u8>, Seq<u8>)> {
    optional_line(
        "access-control-allow-origin".spec_bytes(),
        if cors.reflects() {
            origin
        } else {
            "*"@
        },
    )
}

proof fn lemma_lines_proper(cors: CorsModel, origin: Seq<char>, requested: Seq<char>)
    ensures
        all_proper(cors.origin_lines(origin)),
        all_proper(cors.preflight_lines(origin, requested)),
{
    lemma_names();
    lemma_plain_values();
    lemma_optional_proper("access-control-allow-origin".spec_bytes(), origin);
    lemma_optional_proper("access-control-allow-origin".spec_bytes(), "*"@);
    lemma_optional_proper("vary".spec_bytes(), "Origin"@);
    lemma_optional_proper("access-control-allow-credentials".spec_bytes(), "true"@);
    lemma_optional_proper(
        "access-control-expose-headers".spec_bytes(),
        glued(cors.expose_headers, ", "@),
    );
    lemma_optional_proper(
        "access-control-allow-methods".spec_bytes(),
        glued(cors.allow_methods, ", "@),
    );
    lemma_optional_proper(
        "access-control-max-age".spec_bytes(),
        decimal(cors.max_age as nat),
    );
    lemma_optional_proper("access-control-allow-headers".spec_bytes(), requested);
    let (a, b, c, d) = (
        named_part(cors, origin),
        vary_part(cors),
        credentials_part(cors),
        expose_part(cors),
    );
    lemma_proper_join(a, b);
    lemma_proper_join(a + b, c);
    lemma_proper_join(a + b + c, d);
    if cors.permits_origin(origin) {
        assert(cors.origin_lines(origin) == a + b + c + d);
    }
    let lines = cors.origin_lines(origin);
    let e = optional_line(
        "access-control-allow-methods".spec_bytes(),
        glued(cors.allow_methods, ", "@),
    );
    let f = optional_line(
        "access-control-max-age".spec_bytes(),
        decimal(cors.max_age as nat),
    );
    let g = if requested.len() > 0 && cors.permits_headers(requested) {
        optional_line("access-control-allow-headers".spec_bytes(), requested)
    } else {
        Seq::empty()
    };
    lemma_proper_join(lines, e);
    lemma_proper_join(lines + e, f);
    lemma_proper_join(lines + e + f, g);
}

/// A preflight request is answered with `OK` exactly where the policy lists its
/// origin, its method and the headers that it asks for, and with a refusal
/// otherwise. A policy that lists `*` as a header permits every list.
pub proof fn law_preflight_requests_are_answered_by_the_policy(
    cors: CorsModel,
    origin: Seq<char>,
    method: Seq<char>,
    requested: Seq<char>,
)
    requires
        encoded_lines(cors.preflight_lines(origin, requested)).len() <= isize::MAX,
    ensures
        ({
            let answer = cors.preflight_response(origin, method, requested);
            let listed = origin_is_listed(cors, origin) && (exists|i: int|
                0 <= i < cors.allow_methods.len() && #[trigger] cors.allow_methods[i] == method)
                && headers_are_listed(cors, requested);
            &&& answer.status == (if listed {
                200
            } else {
                400int
            })
            &&& answer.body == BodyModel::Whole(
                if listed {
                    "OK".spec_bytes()
                } else {
                    "Disallowed CORS request".spec_bytes()
                },
            )
            &&& answer.content_type == Some("text/plain; charset=utf-8"@)
            &&& answer.headers == encoded_lines(cors.preflight_lines(origin, requested))
            &&& !answer.close
        }),
{
    lemma_listed(cors, origin, requested);
    let lines = cors.preflight_lines(origin, requested);
    lemma_lines_proper(cors, origin, requested);
    if cors.allow_methods.contains(method) {
        let i = choose|i: int| 0 <= i < cors.allow_methods.len() && cors.allow_methods[i] == method;
        assert(cors.allow_methods[i] == method);
    }
    let plain = ResponseModel {
        content_type: Some("text/plain; charset=utf-8"@),
        ..if cors.permits(origin, method, requested) {
            ResponseModel::plain(200, BodyModel::Whole("OK".spec_bytes()))
        } else {
            ResponseModel::plain(400, BodyModel::Whole("Disallowed CORS request".spec_bytes()))
        }
    };
    assert(plain.headers + encoded_lines(lines) =~= encoded_lines(lines));
    assert(block_error(plain.headers) is None);
    assert(all_proper(lines));
    law_proper_headers_are_kept(plain, lines);
    lemma_no_content_type(cors, origin, requested);
}

proof fn lemma_no_content_type(cors: CorsModel, origin: Seq<char>, requested: Seq<char>)
    ensures
        !has_line(cors.preflight_lines(origin, requested), "content-type".spec_bytes()),
        !has_line(cors.origin_lines(origin), "content-type".spec_bytes()),
{
    lemma_names();
    reveal_strlit("content-type");
    is_ascii_chars_encode_utf8("content-type"@);
    let lines = cors.preflight_lines(origin, requested);
    assert forall|i: int| 0 <= i < lines.len() implies (#[trigger] lines[i]).0.len() != 12 by {}
    let own = cors.origin_lines(origin);
    assert forall|i: int| 0 <= i < own.len() implies (#[trigger] own[i]).0.len() != 12 by {}
}

/// Where one of the allowed headers is `*`, no list of headers is refused: an
/// origin and a method that the policy lists are answered with `OK`, whatever
/// headers are asked for, and the answer repeats them.
pub proof fn law_any_header_is_permitted_by_a_star(
    cors: CorsModel,
    origin: Seq<char>,
    method: Seq<char>,
    requested: Seq<char>,
    star: int,
)
    requires
        0 <= star < cors.allow_headers.len(),
        cors.allow_headers[star] == "*"@,
        cors.allow_origins.contains(origin) || cors.allow_origins.contains("*"@),
        cors.allow_methods.contains(method),
        encoded_lines(cors.preflight_lines(origin, requested)).len() <= isize::MAX,
    ensures
        cors.preflight_response(origin, method, requested).status == 200,
        requested.len() > 0 && is_value(encode_utf8(requested)) ==> cors.preflight_lines(
            origin,
            requested,
        ).contains(("access-control-allow-headers".spec_bytes(), encode_utf8(requested))),
{
    lemma_listed(cors, origin, requested);
    assert(cors.allow_headers.contains("*"@));
    law_preflight_requests_are_answered_by_the_policy(cors, origin, method, requested);
    let at = choose|i: int| 0 <= i < cors.allow_methods.len() && cors.allow_methods[i] == method;
    assert(cors.allow_methods[at] == method);
    law_answers_list_what_is_permitted(cors, origin, requested);
}

/// A longer list asks for more: it is permitted exactly where both of its parts
/// are.
pub proof fn law_lists_are_permitted_part_by_part(
    cors: CorsModel,
    left: Seq<char>,
    right: Seq<char>,
)
    ensures
        cors.permits_headers(left + seq![','] + right) <==> cors.permits_headers(left)
            && cors.permits_headers(right),
{
    crate::laws::texts::law_separators_part_texts(left, right, ',');
    let (a, b) = (split(left, ','), split(right, ','));
    let all = split(left + seq![','] + right, ',');
    assert(all == a + b);
    if !cors.allow_headers.contains("*"@) {
        if cors.permits_headers(left + seq![','] + right) {
            assert forall|i: int| 0 <= i < a.len() implies cors.permits_header(
                trim_end(trim_start(#[trigger] a[i])),
            ) by {
                assert(all[i] == a[i]);
            }
            assert forall|i: int| 0 <= i < b.len() implies cors.permits_header(
                trim_end(trim_start(#[trigger] b[i])),
            ) by {
                assert(all[a.len() + i] == b[i]);
            }
        }
        if cors.permits_headers(left) && cors.permits_headers(right) {
            assert forall|i: int| 0 <= i < all.len() implies cors.permits_header(
                trim_end(trim_start(#[trigger] all[i])),
            ) by {
                if i < a.len() {
                    assert(all[i] == a[i]);
                } else {
                    assert(all[i] == b[i - a.len()]);
                }
            }
        }
    }
}

/// A policy that lists more permits no less.
pub proof fn law_more_is_permitted_by_longer_policies(
    cors: CorsModel,
    more: CorsModel,
    origin: Seq<char>,
    method: Seq<char>,
    requested: Seq<char>,
)
    requires
        cors.permits(origin, method, requested),
        forall|x: Seq<char>| cors.allow_origins.contains(x) ==> more.allow_origins.contains(x),
        forall|x: Seq<char>| cors.allow_methods.contains(x) ==> more.allow_methods.contains(x),
        forall|x: Seq<char>| cors.allow_headers.contains(x) ==> more.allow_headers.contains(x),
    ensures
        more.permits(origin, method, requested),
{
    if !more.allow_headers.contains("*"@) {
        let pieces = split(requested, ',');
        assert(!cors.allow_headers.contains("*"@));
        assert forall|i: int| 0 <= i < pieces.len() implies more.permits_header(
            trim_end(trim_start(#[trigger] pieces[i])),
        ) by {
            let name = trim_end(trim_start(pieces[i]));
            assert(cors.permits_header(name));
            if exists|k: int|
                0 <= k < cors.allow_headers.len() && same_ignoring_case(
                    encode_utf8(name),
                    encode_utf8(#[trigger] cors.allow_headers[k]),
                ) {
                let k = choose|k: int|
                    0 <= k < cors.allow_headers.len() && same_ignoring_case(
                        encode_utf8(name),
                        encode_utf8(#[trigger] cors.allow_headers[k]),
                    );
                assert(cors.allow_headers.contains(cors.allow_headers[k]));
                let j = choose|j: int|
                    0 <= j < more.allow_headers.len() && more.allow_headers[j]
                        == cors.allow_headers[k];
                assert(same_ignoring_case(encode_utf8(name), encode_utf8(more.allow_headers[j])));
            }
        }
    }
}

/// An answer to an origin that the policy lists names that origin where it
/// depends on it, and `*` otherwise. It says so to caches, allows credentials
/// and names the exposed headers as the policy says.
pub proof fn law_answers_name_the_permitted_origin(cors: CorsModel, origin: Seq<char>)
    requires
        origin_is_listed(cors, origin),
        is_value(encode_utf8(origin)),
    ensures
        ({
            let lines = cors.origin_lines(origin);
            let star = exists|i: int|
                0 <= i < cors.allow_origins.len() && #[trigger] cors.allow_origins[i] == "*"@;
            let shown = if star && !cors.allow_credentials {
                "*".spec_bytes()
            } else {
                encode_utf8(origin)
            };
            &&& lines.contains(("access-control-allow-origin".spec_bytes(), shown))
            &&& forall|i: int|
                0 <= i < lines.len() && (#[trigger] lines[i]).0
                    == "access-control-allow-origin".spec_bytes() ==> lines[i].1 == shown
            &&& lines.contains(("vary".spec_bytes(), "Origin".spec_bytes())) <==> !(star
                && !cors.allow_credentials)
            &&& lines.contains(
                ("access-control-allow-credentials".spec_bytes(), "true".spec_bytes()),
            ) <==> cors.allow_credentials
            &&& cors.expose_headers.len() > 0 && is_value(
                encode_utf8(glued(cors.expose_headers, ", "@)),
            ) ==> lines.contains(
                (
                    "access-control-expose-headers".spec_bytes(),
                    encode_utf8(glued(cors.expose_headers, ", "@)),
                ),
            )
            &&& cors.expose_headers.len() == 0 ==> !has_line(
                lines,
                "access-control-expose-headers".spec_bytes(),
            )
        }),
{
    lemma_names();
    lemma_plain_values();
    lemma_listed(cors, origin, origin);
    if cors.allow_origins.contains("*"@) {
        let i = choose|i: int| 0 <= i < cors.allow_origins.len() && cors.allow_origins[i] == "*"@;
        assert(cors.allow_origins[i] == "*"@);
    }
    let (a, b, c, d) = (
        named_part(cors, origin),
        vary_part(cors),
        credentials_part(cors),
        expose_part(cors),
    );
    let lines = cors.origin_lines(origin);
    assert(lines == a + b + c + d);
    assert(a.len() == 1);
    assert(lines[0] == a[0]);
    if b.len() > 0 {
        assert(lines[1] == b[0]);
    }
    if c.len() > 0 {
        assert(lines[1 + b.len() as int] == c[0]);
    }
    if d.len() > 0 {
        assert(lines[1 + b.len() as int + c.len()] == d[0]);
    }
    assert forall|i: int| 0 <= i < lines.len() implies #[trigger] lines[i] == (if i < 1 {
        a[0]
    } else if i < 1 + b.len() {
        b[i - 1]
    } else if i < 1 + b.len() + c.len() {
        c[i - 1 - b.len()]
    } else {
        d[i - 1 - b.len() - c.len()]
    }) by {}
}

/// The answer to a preflight request lists the allowed methods and how long it
/// holds, and repeats the headers that were asked for where all are permitted.
pub proof fn law_answers_list_what_is_permitted(
    cors: CorsModel,
    origin: Seq<char>,
    requested: Seq<char>,
)
    ensures
        ({
            let lines = cors.preflight_lines(origin, requested);
            &&& is_value(encode_utf8(glued(cors.allow_methods, ", "@))) ==> lines.contains(
                (
                    "access-control-allow-methods".spec_bytes(),
                    encode_utf8(glued(cors.allow_methods, ", "@)),
                ),
            )
            &&& lines.contains(
                (
                    "access-control-max-age".spec_bytes(),
                    encode_utf8(decimal(cors.max_age as nat)),
                ),
            )
            &&& is_value(encode_utf8(requested)) ==> (has_line(
                lines,
                "access-control-allow-headers".spec_bytes(),
            ) <==> requested.len() > 0 && headers_are_listed(cors, requested))
            &&& forall|i: int|
                0 <= i < lines.len() && (#[trigger] lines[i]).0
                    == "access-control-allow-headers".spec_bytes() ==> lines[i].1 == encode_utf8(
                    requested,
                )
            &&& is_value(encode_utf8(requested)) && requested.len() > 0 && headers_are_listed(
                cors,
                requested,
            ) ==> lines.contains(
                ("access-control-allow-headers".spec_bytes(), encode_utf8(requested)),
            )
            &&& lines.take(cors.origin_lines(origin).len() as int) == cors.origin_lines(origin)
        }),
{
    lemma_names();
    lemma_listed(cors, origin, requested);
    let lines = cors.preflight_lines(origin, requested);
    let own = cors.origin_lines(origin);
    let e = optional_line(
        "access-control-allow-methods".spec_bytes(),
        glued(cors.allow_methods, ", "@),
    );
    let f = optional_line(
        "access-control-max-age".spec_bytes(),
        decimal(cors.max_age as nat),
    );
    let g = if requested.len() > 0 && cors.permits_headers(requested) {
        optional_line("access-control-allow-headers".spec_bytes(), requested)
    } else {
        Seq::empty()
    };
    assert(is_value(encode_utf8(decimal(cors.max_age as nat)))) by {
        crate::server::lemma_decimal_bytes(cors.max_age as nat);
        let bytes = encode_utf8(decimal(cors.max_age as nat));
        assert forall|i: int| 0 <= i < bytes.len() implies value_byte(#[trigger] bytes[i]) by {
            assert(crate::server::is_digit(bytes[i]));
        }
    }
    assert(lines == own + e + f + g);
    let n = own.len() as int;
    if e.len() > 0 {
        assert(lines[n] == e[0]);
    }
    assert(lines[n + e.len()] == f[0]);
    if g.len() > 0 {
        assert(lines[n + e.len() + 1] == g[0]);
    }
    assert(lines.take(n) =~= own);
    assert forall|i: int| 0 <= i < own.len() implies (#[trigger] own[i]).0.len() != 28 by {}
    assert forall|i: int|
        0 <= i < lines.len() && (#[trigger] lines[i]).0
            == "access-control-allow-headers".spec_bytes() implies g.len() > 0 && lines[i]
        == g[0] by {
        if i < n {
            assert(lines[i] == own[i]);
        } else if i < n + e.len() {
            assert(lines[i] == e[0]);
        } else if i < n + e.len() + 1 {
            assert(lines[i] == f[0]);
        }
    }
}

/// A preflight request is an `OPTIONS` request that names its origin and the
/// method that it asks for; only such a request is answered by the policy.
pub proof fn law_preflight_requests_name_origin_and_method(
    cors: CorsModel,
    request: RequestModel<'_>,
    origin: Seq<char>,
    method: Seq<char>,
)
    ensures
        cors.preflight_answer(request) is Some <==> request.method == "OPTIONS"@ && header_text(
            request,
            "origin".spec_bytes(),
        ) is Some && header_text(request, "access-control-request-method".spec_bytes()) is Some,
        request.method == "OPTIONS"@ && header_value(request.headers, "origin".spec_bytes())
            == Some(encode_utf8(origin)) && header_value(
            request.headers,
            "access-control-request-method".spec_bytes(),
        ) == Some(encode_utf8(method)) ==> cors.preflight_answer(request) == Some(
            cors.preflight_response(
                origin,
                method,
                match header_text(request, "access-control-request-headers".spec_bytes()) {
                    Some(requested) => requested,
                    None => Seq::empty(),
                },
            ),
        ),
{
    encode_utf8_valid_utf8(origin);
    encode_utf8_decode_utf8(origin);
    encode_utf8_valid_utf8(method);
    encode_utf8_decode_utf8(method);
}

/// A response to an origin has the headers of the policy behind its own, and
/// keeps all else; without an origin it is left as it is.
pub proof fn law_policies_add_headers_to_responses(
    cors: CorsModel,
    origin: Seq<char>,
    response: ResponseModel,
)
    requires
        block_error(response.headers) is None,
        (response.headers + encoded_lines(cors.origin_lines(origin))).len() <= isize::MAX,
    ensures
        ({
            let applied = cors.applied(Some(encode_utf8(origin)), response);
            &&& applied.headers == response.headers + encoded_lines(cors.origin_lines(origin))
            &&& applied.status == response.status
            &&& applied.body == response.body
            &&& applied.content_type == response.content_type
            &&& applied.close == response.close
        }),
        cors.applied(None, response) == response,
{
    encode_utf8_valid_utf8(origin);
    encode_utf8_decode_utf8(origin);
    lemma_lines_proper(cors, origin, Seq::empty());
    lemma_no_content_type(cors, origin, Seq::empty());
    let lines = cors.origin_lines(origin);
    assert(all_proper(lines));
    law_proper_headers_are_kept(response, lines);
}

/// A policy that says nothing permits no other origin, and the usual methods.
pub proof fn law_the_default_policy_permits_no_origin(origin: Seq<char>, method: Seq<char>)
    ensures
        !CorsModel::default_policy().permits_origin(origin),
        CorsModel::default_policy().allow_methods == seq![
            "GET"@,
            "HEAD"@,
            "POST"@,
            "PUT"@,
            "PATCH"@,
            "DELETE"@,
            "OPTIONS"@,
        ],
        CorsModel::default_policy().allow_headers.len() == 0,
        CorsModel::default_policy().expose_headers.len() == 0,
        !CorsModel::default_policy().allow_credentials,
        CorsModel::default_policy().max_age == 600,
{
}

/// The permissive policy permits every origin and every header, and shares no
/// credentials.
pub proof fn law_the_permissive_policy_permits_all(
    cors: Cors,
    origin: Seq<char>,
    method: Seq<char>,
    requested: Seq<char>,
)
    requires
        call_ensures(Cors::permissive, (), cors),
    ensures
        cors@.permits_origin(origin),
        cors@.permits_headers(requested),
        cors@.permits(origin, method, requested) <==> cors@.allow_methods.contains(method),
        cors@.allow_methods == CorsModel::default_policy().allow_methods,
        !cors@.allow_credentials,
        !cors@.reflects(),
        cors@.max_age == 600,
{
    assert(cors@.allow_origins[0] == "*"@);
    assert(cors@.allow_headers[0] == "*"@);
}

/// A policy is valid exactly where its origins can be header values, its
/// methods are tokens, and its headers are names or `*`.
pub proof fn law_valid_policies_can_be_sent(cors: CorsModel)
    ensures
        cors.is_valid() <==> {
            &&& forall|i: int|
                0 <= i < cors.allow_origins.len() ==> is_value(
                    encode_utf8(#[trigger] cors.allow_origins[i]),
                )
            &&& forall|i: int|
                0 <= i < cors.allow_methods.len() ==> is_token(
                    encode_utf8(#[trigger] cors.allow_methods[i]),
                )
            &&& forall|i: int|
                0 <= i < cors.allow_headers.len() ==> #[trigger] cors.allow_headers[i] == "*"@ || (
                is_token(encode_utf8(cors.allow_headers[i])) && encode_utf8(
                    cors.allow_headers[i],
                ).len() <= 65535)
            &&& forall|i: int|
                0 <= i < cors.expose_headers.len() ==> #[trigger] cors.expose_headers[i] == "*"@
                    || (is_token(encode_utf8(cors.expose_headers[i])) && encode_utf8(
                    cors.expose_headers[i],
                ).len() <= 65535)
        },
{
    assert forall|bytes: Seq<u8>| #[trigger] is_name(bytes) == is_token(bytes) by {
        law_names_are_tokens(bytes);
    }
    assert forall|i: int| 0 <= i < cors.allow_headers.len() implies header_or_any(
        #[trigger] cors.allow_headers[i],
    ) == (cors.allow_headers[i] == "*"@ || (is_token(encode_utf8(cors.allow_headers[i]))
        && encode_utf8(cors.allow_headers[i]).len() <= 65535)) by {
        assert(is_name(encode_utf8(cors.allow_headers[i])) == is_token(
            encode_utf8(cors.allow_headers[i]),
        ));
    }
    assert forall|i: int| 0 <= i < cors.expose_headers.len() implies header_or_any(
        #[trigger] cors.expose_headers[i],
    ) == (cors.expose_headers[i] == "*"@ || (is_token(encode_utf8(cors.expose_headers[i]))
        && encode_utf8(cors.expose_headers[i]).len() <= 65535)) by {
        assert(is_name(encode_utf8(cors.expose_headers[i])) == is_token(
            encode_utf8(cors.expose_headers[i]),
        ));
    }
    assert forall|i: int| 0 <= i < cors.allow_methods.len() implies is_name(
        encode_utf8(#[trigger] cors.allow_methods[i]),
    ) == is_token(encode_utf8(cors.allow_methods[i])) by {
        law_names_are_tokens(encode_utf8(cors.allow_methods[i]));
    }
    if cors.is_valid() {
        assert forall|i: int| 0 <= i < cors.allow_methods.len() implies is_token(
            encode_utf8(#[trigger] cors.allow_methods[i]),
        ) by {
            assert(is_name(encode_utf8(cors.allow_methods[i])));
        }
    }
}

} // verus!
