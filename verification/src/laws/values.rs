//! Laws of ready-made values: responses, configurations, statuses and messages.
use vstd::prelude::*;
use vstd::utf8::*;

use brz_ds::EphemeralBytesArena;

#[allow(unused_imports)]
use crate::arena::shared_bytes;
use crate::registry::RegistryError;
#[allow(unused_imports)]
use crate::registry::{
    conflicting, first_conflict, hex4, law_overlap_is_symmetric, law_shape_is_an_equivalence,
    reports, unambiguous,
};
#[allow(unused_imports)]
use crate::methods::method_list_text;
use crate::reply::kind;
use crate::reply::{ApiError, Binary, Html, HttpResponse, IntoHttpResponse, Redirect, Text};
use crate::request::Request;
use crate::response::{HeaderBlockError, Response, StatusCode};
#[allow(unused_imports)]
use crate::response::{BodyModel, ResponseModel};
use crate::router::{PreparedRoute, RouteDescriptor};
use crate::server::write::{DownloadError, WritePlan};
#[allow(unused_imports)]
use crate::server::write::write_plan;
#[allow(unused_imports)]
use crate::server::config_error;
use crate::server::{Duration, RequestFailure, ServerConfig};

verus! {

/// Texts and documents are answered as what they are, with their bytes.
pub proof fn law_bodies_are_answered_with_their_type(
    text: Text,
    html: Html,
    binary: Binary,
    arena: &EphemeralBytesArena,
    of_text: Response,
    of_html: Response,
    of_binary: Response,
)
    requires
        call_ensures(
            <Text as IntoHttpResponse<kind::Direct>>::into_http_response,
            (text, arena),
            of_text,
        ),
        call_ensures(
            <Html as IntoHttpResponse<kind::Direct>>::into_http_response,
            (html, arena),
            of_html,
        ),
        call_ensures(
            <Binary as IntoHttpResponse<kind::Direct>>::into_http_response,
            (binary, arena),
            of_binary,
        ),
    ensures
        of_text@.status == 200,
        of_text@.content_type == Some("text/plain; charset=utf-8"@),
        of_text@.body == BodyModel::Whole(encode_utf8(text.0@)),
        of_html@.status == 200,
        of_html@.content_type == Some("text/html; charset=utf-8"@),
        of_html@.body == BodyModel::Whole(encode_utf8(html.0@)),
        of_binary@.status == 200,
        of_binary@.content_type == Some("application/octet-stream"@),
        of_binary@.body == BodyModel::Whole(shared_bytes(binary.0)),
{
}

/// A status alone is answered without a body, and a response as it is.
pub proof fn law_statuses_and_responses_are_answered_as_they_are(
    status: StatusCode,
    response: Response,
    arena: &EphemeralBytesArena,
    of_status: Response,
    of_response: Response,
)
    requires
        call_ensures(
            <StatusCode as IntoHttpResponse<kind::Direct>>::into_http_response,
            (status, arena),
            of_status,
        ),
        call_ensures(
            <Response as IntoHttpResponse<kind::Direct>>::into_http_response,
            (response, arena),
            of_response,
        ),
    ensures
        of_status@.status == status.number(),
        of_status@.body == BodyModel::Whole(Seq::empty()),
        of_response@ == response@,
{
}

/// Redirects are found ones or temporary ones, and keep their target.
pub proof fn law_redirects_have_their_statuses(location: String, found: Redirect, temporary: Redirect)
    requires
        call_ensures(Redirect::found, (location,), found),
        call_ensures(Redirect::temporary, (location,), temporary),
    ensures
        found.status_number() == 302,
        temporary.status_number() == 307,
        found.location() == location@,
        temporary.location() == location@,
{
}

/// A declared length, a status and a body are kept by what is declared later.
pub proof fn law_declarations_are_kept<T>(
    body: T,
    status: StatusCode,
    length: u64,
    plain: HttpResponse<T>,
    with_status: HttpResponse<T>,
    with_both: HttpResponse<T>,
)
    requires
        call_ensures(HttpResponse::<T>::new, (body,), plain),
        call_ensures(HttpResponse::<T>::status, (plain, status), with_status),
        call_ensures(HttpResponse::<T>::content_length, (with_status, length), with_both),
    ensures
        plain.status_number() is None,
        plain.length() is None,
        plain.lines().len() == 0,
        with_both.body() == body,
        with_both.status_number() == Some(status.number()),
        with_both.length() == Some(length),
        with_both.lines().len() == 0,
{
}

/// Business errors have the status that they are named after.
pub proof fn law_business_errors_have_their_statuses(
    message: String,
    bad: ApiError,
    forbidden: ApiError,
)
    requires
        call_ensures(ApiError::bad_request, (message,), bad),
        call_ensures(ApiError::forbidden, (message,), forbidden),
    ensures
        bad.status.number() == 400,
        forbidden.status.number() == 403,
        bad.message@ == message@,
        forbidden.message@ == message@,
{
}

/// What a response is given by name is found in it, and nothing else changes.
pub proof fn law_responses_are_built_part_by_part(
    response: Response,
    text: &'static str,
    typed: Response,
    allowing: Response,
    challenging: Response,
    closing: Response,
)
    requires
        call_ensures(Response::content_type, (response, text), typed),
        call_ensures(Response::allow, (response, text), allowing),
        call_ensures(Response::www_authenticate, (response, text), challenging),
        call_ensures(Response::close, (response,), closing),
    ensures
        typed@.content_type == Some(text@),
        allowing@.allow == Some(text@),
        challenging@.www_authenticate == Some(text@),
        closing@.close,
        typed@.status == response@.status && allowing@.status == response@.status
            && challenging@.status == response@.status && closing@.status == response@.status,
        typed@.body == response@.body && allowing@.body == response@.body && challenging@.body
            == response@.body && closing@.body == response@.body,
        typed@.headers == response@.headers && allowing@.headers == response@.headers
            && challenging@.headers == response@.headers && closing@.headers == response@.headers,
        allowing@.content_type == response@.content_type && challenging@.content_type
            == response@.content_type && closing@.content_type == response@.content_type,
        typed@.allow == response@.allow && challenging@.allow == response@.allow && closing@.allow
            == response@.allow,
        typed@.close == response@.close && allowing@.close == response@.close && challenging@.close
            == response@.close,
{
}

/// Refusals by method and by credentials say what would have been accepted.
pub proof fn law_refusals_say_what_is_accepted(
    text: &'static str,
    by_method: Response,
    by_credentials: Response,
    stream: Response,
    failure: Response,
)
    requires
        call_ensures(Response::method_not_allowed, (text,), by_method),
        call_ensures(Response::unauthorized, (text,), by_credentials),
        call_ensures(Response::stream, (), stream),
        call_ensures(Response::conversion_failure, (), failure),
    ensures
        by_method@.status == 405,
        by_method@.allow == Some(text@),
        by_credentials@.status == 401,
        by_credentials@.www_authenticate == Some(text@),
        stream@.status == 200,
        stream@.body == BodyModel::Stream(None),
        stream@.content_type == Some("application/octet-stream"@),
        failure@.status == 500,
        failure@.close,
        failure@.conversion_failed,
{
}

/// A response that stands for a failure keeps doing so: no status changes it.
/// Any other takes the new one and keeps what it was given by name.
pub proof fn law_failures_keep_their_status(response: ResponseModel, status: u16, length: u64)
    ensures
        response.conversion_failed ==> response.with_status(status) == response,
        response.with_status(status).allow == response.allow,
        response.with_status(status).www_authenticate == response.www_authenticate,
        response.body is Stream ==> {
            &&& response.with_length(length).allow == response.allow
            &&& response.with_length(length).www_authenticate == response.www_authenticate
            &&& response.with_length(length).close == response.close
            &&& response.with_length(length).suppress_body == response.suppress_body
            &&& response.with_length(length).conversion_failed == response.conversion_failed
        },
{
}

/// Statuses are numbers of three digits.
pub proof fn law_statuses_have_three_digits(code: u16, status: Option<StatusCode>)
    requires
        call_ensures(StatusCode::from_u16, (code,), status),
    ensures
        status is Some <==> 100 <= code < 1000,
        status matches Some(status) ==> status.number() == code,
{
}

/// A response is written as its body asks for, and its head alone where it
/// sends none.
pub proof fn law_responses_are_written_as_their_body_asks(response: &Response, plan: WritePlan)
    requires
        call_ensures(write_plan, (response,), plan),
    ensures
        plan is Head <==> response@.suppress_body || response@.status < 200 || response@.status
            == 204 || response@.status == 304,
        !(plan is Head) ==> {
            &&& plan is Whole <==> response@.body is Whole
            &&& plan is Segments <==> response@.body is Segmented
            &&& plan is Stream <==> response@.body is Stream
        },
        plan matches WritePlan::Stream(download) ==> response@.body == BodyModel::Stream(
            download.length(),
        ) && download.sent() == 0,
{
}

/// The defaults of a server are valid, bounded, and without a policy.
pub proof fn law_default_servers_are_bounded(arena: EphemeralBytesArena, config: ServerConfig)
    requires
        call_ensures(ServerConfig::new, (arena,), config),
    ensures
        config_error(config) is None,
        config.cors is None,
        config.initial_request_segment_bytes == 2 * 1024,
        config.max_preallocated_request_body_bytes == 64 * 1024,
        config.max_connections == 64 * 1024,
        config.max_request_head_bytes == 32 * 1024,
        config.max_request_body_bytes == 8 * 1024 * 1024,
        config.max_in_flight_request_body_bytes == 8 * config.max_request_body_bytes,
        config.request_timeout.whole_millis() == 15_000,
        config.shutdown_grace.whole_millis() == 10_000,
        config.tcp_nodelay,
{
}

/// A configuration is refused for the first limit that is missing, and told
/// which.
pub proof fn law_configurations_are_refused_by_name(config: ServerConfig)
    ensures
        ({
            let error = config_error(config);
            let policy = config.cors matches Some(cors) && !cors@.is_valid();
            let sizes = config.initial_request_segment_bytes > 0 && !policy;
            let heads = sizes && config.max_connections > 0 && config.max_request_head_bytes > 0;
            let bodies = heads && config.max_request_body_bytes > 0;
            let budget = bodies && config.max_in_flight_request_body_bytes
                >= config.max_request_body_bytes;
            let counted = budget && config.max_request_body_bytes <= 0xffff_ffff;
            &&& config.initial_request_segment_bytes == 0 ==> error == Some(
                "initial_request_segment_bytes must be greater than zero"@,
            )
            &&& config.initial_request_segment_bytes > 0 && policy ==> error == Some(
                "invalid CORS policy"@,
            )
            &&& sizes && config.max_connections == 0 ==> error == Some(
                "max_connections must be greater than zero"@,
            )
            &&& sizes && config.max_connections > 0 && config.max_request_head_bytes == 0 ==> error
                == Some("max_request_head_bytes must be greater than zero"@)
            &&& heads && config.max_request_body_bytes == 0 ==> error == Some(
                "max_request_body_bytes must be greater than zero"@,
            )
            &&& bodies && config.max_in_flight_request_body_bytes < config.max_request_body_bytes
                ==> error == Some(
                "max_in_flight_request_body_bytes must be at least max_request_body_bytes"@,
            )
            &&& budget && config.max_request_body_bytes > 0xffff_ffff ==> error == Some(
                "max_request_body_bytes must not exceed u32::MAX"@,
            )
            &&& counted && config.request_timeout.nanos == 0 ==> error == Some(
                "request_timeout must be greater than zero"@,
            )
            &&& counted && config.request_timeout.nanos > 0 && config.shutdown_grace.nanos == 0
                ==> error == Some("shutdown_grace must be greater than zero"@)
        }),
{
}

/// Every fault has its message.
pub proof fn law_faults_have_their_messages(
    failure: RequestFailure,
    header: HeaderBlockError,
    download: DownloadError,
)
    ensures
        failure is BadRequest ==> failure.message() == "malformed HTTP request"@,
        failure is HeadersTooLarge ==> failure.message()
            == "HTTP request headers exceed configured limit"@,
        failure is BodyTooLarge ==> failure.message()
            == "HTTP request body exceeds configured limit"@,
        failure is ExpectationFailed ==> failure.message() == "HTTP Expect header is unsupported"@,
        failure is UnsupportedTransferEncoding ==> failure.message()
            == "HTTP transfer encoding is unsupported"@,
        failure is UnsupportedVersion ==> failure.message() == "HTTP version is unsupported"@,
        failure is ServiceUnavailable ==> failure.message()
            == "HTTP request body capacity is unavailable"@,
        failure is Closed ==> failure.message() == "peer closed connection"@,
        failure matches RequestFailure::Io(error) ==> failure.message() == error@,
        header is MissingLineEnding ==> header.message()
            == "response header lines must end with CRLF"@,
        header is EmptyLine ==> header.message()
            == "response header block must not contain an empty line"@,
        header is InvalidName ==> header.message() == "response header name is invalid"@,
        header is InvalidValue ==> header.message()
            == "response header value contains a line break"@,
        header is ReservedName ==> header.message()
            == "response header is owned by the server runtime"@,
        download is EndedEarly ==> download.message() == "download ended before Content-Length"@,
        download is Exceeded ==> download.message() == "download exceeded Content-Length"@,
        download is LengthOverflow ==> download.message() == "download length overflow"@,
{
}

/// A collection is refused exactly where two of its routes conflict, whichever
/// of them comes first.
pub proof fn law_collections_are_refused_for_a_conflict(
    routes: Seq<(&'static str, RouteDescriptor)>,
    i: int,
    j: int,
)
    requires
        0 <= i < routes.len(),
        0 <= j < routes.len(),
        i != j,
    ensures
        conflicting(routes[i].1, routes[j].1) ==> !unambiguous(routes),
        routes.len() == 2 && !conflicting(routes[i].1, routes[j].1) ==> unambiguous(routes),
{
    lemma_conflict_is_mutual(routes[i].1, routes[j].1);
    lemma_conflict_is_mutual(routes[j].1, routes[i].1);
}

proof fn lemma_conflict_is_mutual(left: RouteDescriptor, right: RouteDescriptor)
    ensures
        conflicting(left, right) == conflicting(right, left),
{
    let (a, b) = (left.methods, right.methods);
    assert(a & b == b & a) by (bit_vector);
    law_overlap_is_symmetric(left.path@, right.path@);
    law_shape_is_an_equivalence(left.path@, right.path@, right.path@);
}

/// The conflict that is told of is the first one: with the earliest route that
/// conflicts with one before it, and the earliest of those.
pub proof fn law_the_first_conflict_is_told(
    routes: Seq<(&'static str, RouteDescriptor)>,
    first: int,
    second: int,
    i: int,
    j: int,
    error: RegistryError,
    message: String,
)
    requires
        first_conflict(routes, first, second),
        0 <= i < j < routes.len(),
        conflicting(routes[i].1, routes[j].1),
        reports(error, routes, first, second),
        call_ensures(RegistryError::to_string, (&error,), message),
    ensures
        second < j || second == j && first <= i,
        conflicting(routes[first].1, routes[second].1),
        message@ == "conflicting "@ + method_list_text(
            routes[second].1.methods & routes[first].1.methods,
        ) + " routes (method bits 0x"@ + hex4(routes[second].1.methods & routes[first].1.methods)
            + "): "@ + routes[first].0@ + " `"@ + routes[first].1.path@ + "` and "@
            + routes[second].0@ + " `"@ + routes[second].1.path@ + "`"@,
{
    lemma_conflict_is_mutual(routes[i].1, routes[j].1);
    lemma_conflict_is_mutual(routes[first].1, routes[second].1);
    if j < second {
        let before = routes.take(second);
        assert(before[i] == routes[i] && before[j] == routes[j]);
        assert(!conflicting(before[j].1, before[i].1));
    }
}

/// A request is split at the first question mark, and gives back what it was
/// made of.
pub proof fn law_requests_are_split_at_the_question_mark(
    request: &Request<'_>,
    path: &str,
    query: Option<&str>,
)
    requires
        call_ensures(Request::path, (request,), path),
        call_ensures(Request::query, (request,), query),
    ensures
        !path@.contains('?'),
        query is None ==> request@.target == path@,
        query matches Some(query) ==> request@.target == path@ + seq!['?'] + query@,
{
    let target = request@.target;
    let at = crate::text::first_of(target, '?');
    crate::text::lemma_first_of(target, '?');
    if path@.contains('?') {
        let k = choose|k: int| 0 <= k < path@.len() && path@[k] == '?';
        assert(target[k] == '?');
    }
    if at < target.len() {
        assert(target =~= target.take(at) + seq!['?'] + target.skip(at + 1));
    }
}

/// A handler without routes answers for itself, and is logged.
pub proof fn law_handlers_without_routes_are_logged(
    metrics: Option<usize>,
    prepared: PreparedRoute<'_>,
    logged: bool,
)
    requires
        call_ensures(PreparedRoute::legacy, (metrics,), prepared),
        call_ensures(PreparedRoute::api_log, (&prepared,), logged),
    ensures
        logged,
        prepared.target is None,
        prepared.allowed == 0,
        prepared.metrics is Some <==> metrics is Some,
        prepared.metrics matches Some(counted) ==> counted.priority == metrics->0
            && counted.handler == 0 && counted.endpoint is None,
{
}

/// Seconds are counted in nanoseconds, and split into whole ones and the rest.
pub proof fn law_seconds_are_split_from_the_rest(
    seconds: u64,
    duration: Duration,
    whole: u64,
    rest: u32,
)
    requires
        duration.fits(),
        call_ensures(Duration::seconds, (&duration,), whole),
        call_ensures(Duration::subsecond_nanos, (&duration,), rest),
    ensures
        duration.nanos == whole * 1_000_000_000 + rest,
        rest < 1_000_000_000,
        call_ensures(Duration::from_secs, (seconds,), duration) ==> whole == seconds && rest == 0,
{
}

} // verus!
