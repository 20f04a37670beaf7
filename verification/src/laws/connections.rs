//! Laws of connections: receiving requests, answering them and ending.
use vstd::prelude::*;

use brz_io::ReaderView;

#[allow(unused_imports)]
use crate::error::Error;
#[allow(unused_imports)]
use crate::request::{view_bytes, RequestModel};
#[allow(unused_imports)]
use crate::response::{BodyModel, ResponseModel};
#[allow(unused_imports)]
use crate::server::connection::{body_permits, closing, concludes, releases_buffer, serve_step};
use crate::server::connection::{Conclusion, RequestOutcome, ServeAction, ServeEvent, Serving};
#[allow(unused_imports)]
use crate::server::receive::{
    accept_head, accepted, accepted_view, after_read, body_decision, early_answer, ends_head,
    has_content, head_decision, is_head_end, line_byte, partial_head_failure, policed,
    received_body, received_head,
};
use crate::server::receive::{AcceptedHead, ReceiveAction, Receiving};
#[allow(unused_imports)]
use crate::server::{inspected, parse_failure, parsed_head};
use crate::server::{
    HeadError, HeadModel, Inspection, RequestFailure, ServerConfig,
};

verus! {

/// Whether bytes end with these ones.
pub open spec fn ends_with(bytes: Seq<u8>, tail: Seq<u8>) -> bool {
    bytes.len() >= tail.len() && bytes.skip(bytes.len() - tail.len()) == tail
}

/// A head ends with a blank line, which follows a line feed, with or without a
/// carriage return before its own. Line endings alone are no head.
pub proof fn law_heads_end_with_a_blank_line(bytes: Seq<u8>, end: int)
    requires
        0 <= end <= bytes.len(),
    ensures
        ends_head(bytes, end) <==> {
            &&& exists|i: int|
                0 <= i < end && #[trigger] bytes[i] != '\r' as u8 && bytes[i] != '\n' as u8
            &&& {
                ||| ends_with(bytes.take(end), seq!['\n' as u8, '\n' as u8])
                ||| ends_with(bytes.take(end), seq!['\n' as u8, '\r' as u8, '\n' as u8])
            }
        },
        is_head_end(bytes, end) <==> ends_head(bytes, end) && forall|n: int|
            0 <= n < end ==> !ends_head(bytes, n),
{
    let head = bytes.take(end);
    let short = seq!['\n' as u8, '\n' as u8];
    let long = seq!['\n' as u8, '\r' as u8, '\n' as u8];
    if ends_head(bytes, end) {
        let i = choose|i: int| 0 <= i < head.len() && !line_byte(#[trigger] head[i]);
        assert(bytes[i] == head[i]);
        if end >= 2 && bytes[end - 1] == 10 && bytes[end - 2] == 10 {
            assert(head.skip(end - 2) =~= short);
        } else {
            assert(head.skip(end - 3) =~= long);
        }
    }
    if exists|i: int|
        0 <= i < end && #[trigger] bytes[i] != '\r' as u8 && bytes[i] != '\n' as u8 {
        let i = choose|i: int|
            0 <= i < end && #[trigger] bytes[i] != '\r' as u8 && bytes[i] != '\n' as u8;
        assert(!line_byte(head[i]));
        if ends_with(head, short) {
            assert(head.skip(end - 2)[1] == 10 && head.skip(end - 2)[0] == 10);
        } else if ends_with(head, long) {
            assert(head.skip(end - 3)[2] == 10 && head.skip(end - 3)[1] == 13 && head.skip(
                end - 3,
            )[0] == 10);
        }
    }
}

/// A complete head is accepted where it parses to its own length, has a method
/// and a target, and breaks no rule of the framing; and nothing is lost of it.
pub proof fn law_complete_heads_are_accepted(
    outcome: Result<Option<HeadModel>, HeadError>,
    head_len: usize,
    max_head: usize,
    max_body: usize,
)
    ensures
        accepted(outcome, head_len, max_head, max_body) is Ok <==> {
            &&& outcome is Ok
            &&& outcome->Ok_0 is Some
            &&& outcome->Ok_0->0.length == head_len
            &&& outcome->Ok_0->0.method is Some
            &&& outcome->Ok_0->0.path is Some
            &&& inspected(outcome->Ok_0->0, head_len, max_head, max_body) is Ok
        },
        accepted(outcome, head_len, max_head, max_body) matches Ok(head) ==> {
            &&& Some(head.method) == outcome->Ok_0->0.method
            &&& Some(head.target) == outcome->Ok_0->0.path
            &&& head.headers == outcome->Ok_0->0.headers
            &&& inspected(outcome->Ok_0->0, head_len, max_head, max_body) == Ok::<
                Inspection,
                RequestFailure,
            >(head.inspection)
        },
        outcome matches Err(error) ==> accepted(outcome, head_len, max_head, max_body) == Err::<
            crate::server::receive::AcceptedModel,
            RequestFailure,
        >(parse_failure(error)) && partial_head_failure(outcome) == Some(parse_failure(error)),
        outcome == Ok::<Option<HeadModel>, HeadError>(None) ==> accepted(
            outcome,
            head_len,
            max_head,
            max_body,
        ) == Err::<crate::server::receive::AcceptedModel, RequestFailure>(
            RequestFailure::BadRequest,
        ),
        outcome is Ok ==> partial_head_failure(outcome) is None,
{
}

/// While a head is not complete, more is read up to the limit, and one that
/// reaches it is too large. A complete one asks for its body's share of the
/// budget, which is all that follows the head.
pub proof fn law_heads_are_read_up_to_the_limit(
    bytes: Seq<u8>,
    config: ServerConfig,
    decision: Result<ReceiveAction, RequestFailure>,
    after: Receiving,
)
    requires
        head_decision(bytes, config, decision, after),
    ensures
        decision matches Ok(ReceiveAction::Read { wait, maximum }) ==> {
            &&& bytes.len() + maximum == config.max_request_head_bytes
            &&& maximum > 0
            &&& wait <==> bytes.len() == 0
            &&& after is Head
            &&& forall|end: int| end <= config.max_request_head_bytes ==> !is_head_end(bytes, end)
        },
        decision matches Ok(ReceiveAction::ReserveBudget { bytes: share }) ==> {
            &&& after is Budget
            &&& share == (after->Budget_0.total_len - after->Budget_0.head_len) as usize
            &&& exists|end: int|
                end <= config.max_request_head_bytes && #[trigger] is_head_end(bytes, end)
        },
        decision matches Ok(action) ==> action is Read || action is ReserveBudget,
        bytes.len() == 0 && config.max_request_head_bytes > 0 ==> decision is Ok,
        bytes.len() >= config.max_request_head_bytes && (forall|end: int|
            end <= config.max_request_head_bytes ==> !is_head_end(bytes, end)) ==> decision == Err::<
            ReceiveAction,
            RequestFailure,
        >(RequestFailure::HeadersTooLarge),
{
    assert forall|end: int| bytes.len() == 0 implies !is_head_end(bytes, end) by {
        if is_head_end(bytes, end) {
            assert(has_content(bytes.take(end)));
        }
    }
}

/// A complete head is judged by itself, with at most 64 headers, whatever stands
/// behind it. An incomplete one is refused as soon as it cannot become one.
pub proof fn law_heads_are_judged_by_themselves(
    bytes: Seq<u8>,
    config: ServerConfig,
    decision: Result<ReceiveAction, RequestFailure>,
    after: Receiving,
    end: int,
)
    requires
        head_decision(bytes, config, decision, after),
    ensures
        is_head_end(bytes, end) && end <= config.max_request_head_bytes ==> match accepted(
            parsed_head(64, bytes.take(end)),
            end as usize,
            config.max_request_head_bytes,
            config.max_request_body_bytes,
        ) {
            Err(failure) => decision == Err::<ReceiveAction, RequestFailure>(failure),
            Ok(head) => decision is Ok && after == Receiving::Budget(head.inspection),
        },
        (forall|n: int| n <= config.max_request_head_bytes ==> !is_head_end(bytes, n)) && 0
            < bytes.len() < config.max_request_head_bytes && bytes.len() <= isize::MAX ==> {
            &&& parsed_head(64, bytes) matches Err(error) ==> decision == Err::<
                ReceiveAction,
                RequestFailure,
            >(parse_failure(error))
            &&& parsed_head(64, bytes) is Ok ==> decision is Ok
        },
{
    if is_head_end(bytes, end) && end <= config.max_request_head_bytes {
        let limit = config.max_request_head_bytes;
        let other = choose|n: int| n <= limit && is_head_end(bytes, n);
        if other < end {
            assert(!ends_head(bytes, other));
        }
        if end < other {
            assert(!ends_head(bytes, end));
        }
    }
}

/// A head that is at hand is parsed as it is, with at most 64 headers.
pub proof fn law_heads_at_hand_are_parsed_as_they_are<'a>(
    head: &'a [u8],
    config: &ServerConfig,
    outcome: Result<AcceptedHead<'a>, RequestFailure>,
)
    requires
        call_ensures(accept_head, (head, config), outcome),
    ensures
        accepted_view(outcome) == accepted(
            parsed_head(64, head@),
            head@.len() as usize,
            config.max_request_head_bytes,
            config.max_request_body_bytes,
        ),
{
}

/// The body of a request is what stands between its head and its end, and both
/// are there as soon as so many bytes are.
pub proof fn law_bodies_follow_their_head(
    view: ReaderView<'_>,
    inspection: Inspection,
    head: Option<&[u8]>,
    body: Option<ReaderView<'_>>,
)
    requires
        inspection.head_len <= inspection.total_len,
        call_ensures(received_head, (view, inspection), head),
        call_ensures(received_body, (view, inspection), body),
    ensures
        head is Some <==> view_bytes(view).len() >= inspection.head_len,
        body is Some <==> view_bytes(view).len() >= inspection.total_len,
        body matches Some(body) ==> view_bytes(view).take(inspection.total_len as int) == head->0@
            + view_bytes(body),
        body matches Some(body) ==> view_bytes(body).len() == inspection.total_len
            - inspection.head_len,
{
    if body is Some {
        let all = view_bytes(view);
        assert(all.take(inspection.total_len as int) =~= all.take(inspection.head_len as int)
            + all.subrange(inspection.head_len as int, inspection.total_len as int));
    }
}

/// A request is handed over once it is complete, and stays complete.
pub proof fn law_complete_requests_stay_complete(
    inspection: Inspection,
    view: ReaderView<'_>,
    config: &ServerConfig,
    step: (Result<ReceiveAction, RequestFailure>, Receiving),
    begun: (Result<ReceiveAction, RequestFailure>, Receiving),
)
    requires
        call_ensures(Receiving::next, (Receiving::Complete(inspection), view, config), step),
        call_ensures(Receiving::next, (Receiving::Budget(inspection), view, config), begun),
    ensures
        step.0 == Ok::<ReceiveAction, RequestFailure>(ReceiveAction::Handle),
        step.1 == Receiving::Complete(inspection),
        begun.0 is Ok,
        begun.0 == Ok::<ReceiveAction, RequestFailure>(ReceiveAction::Handle) <==> view_bytes(
            view,
        ).len() >= inspection.total_len,
        begun.0 matches Ok(ReceiveAction::ReserveRoom { bytes }) ==> bytes
            <= config.max_preallocated_request_body_bytes,
{
}

/// A request is handed to its handler as soon as all of its bytes are there,
/// and not before.
pub proof fn law_complete_requests_are_handled(
    received: nat,
    inspection: Inspection,
    reserve: bool,
    max_preallocated: usize,
)
    ensures
        ({
            let (action, after) = body_decision(received, inspection, reserve, max_preallocated);
            let missing = inspection.total_len - received;
            &&& action is Handle <==> missing <= 0
            &&& after == (if missing <= 0 {
                Receiving::Complete(inspection)
            } else {
                Receiving::Body(inspection)
            })
            &&& action is ReserveRoom <==> 0 < missing <= max_preallocated && reserve
            &&& action matches ReceiveAction::ReserveRoom { bytes } ==> bytes == missing
            &&& action matches ReceiveAction::Read { wait, maximum } ==> maximum == missing && !wait
            &&& action !is ReserveBudget
        }),
{
}

/// The end of what a client sends is not a failure of the server.
pub proof fn law_clients_end_connections(count: usize, outcome: Result<(), RequestFailure>)
    requires
        call_ensures(after_read, (count,), outcome),
    ensures
        outcome is Ok <==> count > 0,
        outcome matches Err(failure) ==> failure is Closed,
{
}

/// A policy is asked before the handler is, and only where there is one.
pub proof fn law_policies_answer_first(
    config: ServerConfig,
    request: RequestModel<'_>,
    origin: Option<Seq<u8>>,
    response: ResponseModel,
)
    ensures
        config.cors is None ==> early_answer(config, request) is None && policed(
            config,
            origin,
            response,
        ) == response,
        config.cors matches Some(cors) ==> early_answer(config, request) == cors@.preflight_answer(
            request,
        ) && policed(config, origin, response) == cors@.applied(origin, response),
{
}

/// What follows a request: its response, behind which the connection stays open
/// only where both sides want that; and for one that failed an empty response
/// behind which it ends.
pub proof fn law_requests_are_concluded(outcome: RequestOutcome, conclusion: Conclusion)
    requires
        concludes(outcome, conclusion),
    ensures
        conclusion is End <==> (outcome is Failed && outcome->Failed_0 is Closed),
        conclusion matches Conclusion::Respond { response, timed_out, consumed, close } ==> {
            &&& timed_out <==> outcome is TimedOut
            &&& outcome matches RequestOutcome::Handled {
                response: handled,
                consumed: bytes,
                keep_alive,
            } ==> {
                &&& response@ == handled@
                &&& consumed == Some(bytes)
                &&& !close <==> keep_alive && !handled@.close
            }
            &&& outcome !is Handled ==> {
                &&& close
                &&& consumed is None
                &&& response@.close
                &&& response@.headers == Seq::<u8>::empty()
                &&& response@.content_type is None
                &&& response@.body == BodyModel::Whole(Seq::empty())
                &&& response@.status == (if outcome is TimedOut {
                    408
                } else {
                    outcome->Failed_0.code()
                })
            }
        },
{
}

/// Received bytes are kept only for a next request on the same connection.
pub proof fn law_buffers_are_kept_for_the_next_request(close: bool, unread: usize, releases: bool)
    requires
        call_ensures(releases_buffer, (close, unread), releases),
    ensures
        !releases <==> unread > 0 && !close,
{
}

/// A body takes as much of the budget as it has bytes.
pub proof fn law_bodies_take_their_share(body_len: usize, permits: Option<u32>)
    requires
        body_len <= 0xffff_ffff,
        call_ensures(body_permits, (body_len,), permits),
    ensures
        permits is None <==> body_len == 0,
        permits matches Some(share) ==> share == body_len,
{
}

/// A listener runs until it is told to end or fails. Then it waits until no
/// connection is open, for as long as it may, and ends.
pub proof fn law_listeners_drain_before_they_end(
    state: Serving,
    event: ServeEvent,
    action: ServeAction,
    after: Serving,
)
    requires
        serve_step(state, event, action, after),
    ensures
        after is Running ==> state is Running,
        after is Draining <==> state is Draining && (after == state) || state is Running
            && event is Shutdown,
        action is Drain <==> state is Running && event is Shutdown,
        action is Spawn <==> state is Running && event is Configured,
        action is Configure <==> state is Running && event == (ServeEvent::Accepted {
            permit: true,
        }),
        action is Reject <==> state is Running && event == (ServeEvent::Accepted { permit: false }),
        action is Abort <==> state is Draining && event is GraceElapsed,
        action is Finish <==> {
            ||| state is Running && (event is AcceptFailed || event is TaskFailed)
            ||| state is Draining && (event is Idle || event is TaskFailed)
        },
        action is Finish || action is Abort ==> after is Ended,
        state !is Ended && after is Ended ==> action is Finish || action is Abort,
        action matches ServeAction::Finish(result) ==> {
            &&& result is Ok <==> event is Idle
            &&& event is AcceptFailed ==> result->Err_0 is Io && result->Err_0->Io_0@
                == event->AcceptFailed_0@
            &&& event is TaskFailed ==> result->Err_0 is Task && result->Err_0->Task_0@
                == event->TaskFailed_0@
        },
{
}

} // verus!
