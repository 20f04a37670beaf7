//! Receiving of requests: where a head ends, and what is read next.
use brz_ds::EphemeralBytesArena;
use brz_io::ReaderView;

use vstd::prelude::*;

#[allow(unused_imports)]
use crate::arena::{frame_bytes, frame_capacity};
#[allow(unused_imports)]
use crate::body::bytes_of;
#[allow(unused_imports)]
use crate::request::{view_bytes, RequestModel};
use crate::request::{view_part, view_range, Header, Request};
#[allow(unused_imports)]
use crate::response::ResponseModel;
use crate::response::{Response, StatusCode};
#[allow(unused_imports)]
use crate::server::{
    head_outcome, header_models, inspected, parse_failure, parsed_head, HeadModel,
};
use crate::server::{
    inspect_parsed_request, map_parse_error, parse_head, HeadError, Inspection, ParsedHead,
    RequestFailure, ServerConfig, MAX_REQUEST_HEADERS,
};
use crate::text::same_text;

verus! {

/// A byte of a line ending.
pub open spec fn line_byte(byte: u8) -> bool {
    byte == 13 || byte == 10
}

/// Whether something other than line endings stands in `bytes`.
pub open spec fn has_content(bytes: Seq<u8>) -> bool {
    exists|i: int| 0 <= i < bytes.len() && !line_byte(#[trigger] bytes[i])
}

/// Whether the first `end` bytes end with a blank line that follows something.
pub open spec fn ends_head(bytes: Seq<u8>, end: int) -> bool {
    &&& 0 <= end <= bytes.len()
    &&& has_content(bytes.take(end))
    &&& {
        ||| end >= 2 && bytes[end - 1] == 10 && bytes[end - 2] == 10
        ||| end >= 3 && bytes[end - 1] == 10 && bytes[end - 2] == 13 && bytes[end - 3] == 10
    }
}

/// Whether the head ends with the first `end` bytes.
pub open spec fn is_head_end(bytes: Seq<u8>, end: int) -> bool {
    ends_head(bytes, end) && forall|n: int| 0 <= n < end ==> !ends_head(bytes, n)
}

/// Whether no head ends within the first `count` bytes.
pub open spec fn no_head_end(bytes: Seq<u8>, count: int) -> bool {
    forall|n: int| 0 <= n <= count ==> !ends_head(bytes, n)
}

/// Search for the end of a head that goes on where it stopped.
#[derive(Debug)]
pub struct HeadScanner {
    offset: usize,
    tail: u32,
    started: bool,
}

/// The byte that stands `back` places before `end`, zero before the start.
spec fn byte_before(bytes: Seq<u8>, end: int, back: int) -> u8 {
    if end >= back {
        bytes[end - back]
    } else {
        0
    }
}

impl Default for HeadScanner {
    fn default() -> (scanner: Self)
        ensures
            scanner.offset() == 0,
            forall|bytes: Seq<u8>| #[trigger] scanner.scanned(bytes),
    {
        let scanner = HeadScanner { offset: 0, tail: 0, started: false };
        assert(0u32 & 0xff == 0 && (0u32 >> 8) & 0xff == 0 && (0u32 >> 16) & 0xff == 0)
            by (bit_vector);
        scanner
    }
}

impl HeadScanner {
    /// How many bytes were searched.
    pub closed spec fn offset(self) -> nat {
        self.offset as nat
    }

    /// Whether the search went through the first bytes of `bytes` and found no
    /// end of a head there.
    pub closed spec fn scanned(self, bytes: Seq<u8>) -> bool {
        self.offset <= bytes.len() ==> {
            &&& self.started == has_content(bytes.take(self.offset as int))
            &&& self.tail & 0xff == byte_before(bytes, self.offset as int, 1)
            &&& (self.tail >> 8) & 0xff == byte_before(bytes, self.offset as int, 2)
            &&& (self.tail >> 16) & 0xff == byte_before(bytes, self.offset as int, 3)
            &&& no_head_end(bytes, self.offset as int)
        }
    }

    /// Goes on with the search in a view that has grown, up to a limit.
    pub fn scan(&mut self, view: ReaderView<'_>, limit: usize) -> (end: Result<
        Option<usize>,
        RequestFailure,
    >)
        requires
            old(self).scanned(view_bytes(view)),
            old(self).offset() <= view_bytes(view).len(),
        ensures
            match end {
                Ok(Some(end)) => end <= limit && is_head_end(view_bytes(view), end as int),
                Ok(None) => {
                    &&& view_bytes(view).len() < limit
                    &&& no_head_end(view_bytes(view), view_bytes(view).len() as int)
                    &&& final(self).scanned(view_bytes(view))
                    &&& final(self).offset() == view_bytes(view).len()
                },
                Err(failure) => {
                    &&& failure is HeadersTooLarge
                    &&& view_bytes(view).len() >= limit
                    &&& no_head_end(view_bytes(view), limit as int)
                },
            },
    {
        let ghost bytes = view_bytes(view);
        let length: usize = view.len();
        let bound: usize = if length < limit {
            length
        } else {
            limit
        };
        while self.offset < bound
            invariant
                bytes == view_bytes(view),
                length == bytes.len(),
                bound <= length,
                bound <= limit,
                bound == length || bound == limit,
                self.offset <= length,
                self.scanned(bytes),
            decreases bound - self.offset,
        {
            let chunk = view.chunk_at(self.offset);
            let ghost start = self.offset as int;
            let mut i: usize = 0;
            while i < chunk.len() && self.offset < limit
                invariant
                    bytes == view_bytes(view),
                    length == bytes.len(),
                    bound <= length,
                    bound <= limit,
                    0 <= start < bound,
                    0 <= i <= chunk@.len(),
                    self.offset == start + i,
                    self.offset <= limit,
                    0 < chunk@.len() <= length - start,
                    chunk@ == bytes.subrange(start, start + chunk@.len()),
                    self.scanned(bytes),
                decreases chunk@.len() - i,
            {
                let byte: u8 = chunk[i];
                let ghost before = *self;
                assert(byte == bytes[self.offset as int]);
                let tail: u32 = self.tail;
                self.tail = (tail << 8) | (byte as u32);
                self.offset += 1;
                if !(byte == 13 || byte == 10) {
                    self.started = true;
                }
                proof {
                    let at = before.offset as int;
                    let next = self.tail;
                    assert(next & 0xff == byte as u32 && (next >> 8) & 0xff == tail & 0xff && (next
                        >> 16) & 0xff == (tail >> 8) & 0xff) by (bit_vector)
                        requires
                            next == (tail << 8) | (byte as u32),
                    ;
                    assert((next & 0xffff == 0x0a0a) == (next & 0xff == 10 && (next >> 8) & 0xff
                        == 10) && (next & 0xffffff == 0x0a0d0a) == (next & 0xff == 10 && (next >> 8)
                        & 0xff == 13 && (next >> 16) & 0xff == 10)) by (bit_vector);
                    let done = bytes.take(at);
                    let more = bytes.take(at + 1);
                    if has_content(done) {
                        let k = choose|k: int| 0 <= k < done.len() && !line_byte(#[trigger] done[k]);
                        assert(!line_byte(more[k]));
                    }
                    if !line_byte(byte) {
                        assert(!line_byte(more[at]));
                    }
                    if has_content(more) && line_byte(byte) {
                        let k = choose|k: int| 0 <= k < more.len() && !line_byte(#[trigger] more[k]);
                        assert(!line_byte(done[k]));
                    }
                    assert(self.started == has_content(more));
                }
                if self.started && (self.tail & 0xffff == 0x0a0a || self.tail & 0xffffff
                    == 0x0a0d0a) {
                    assert(ends_head(bytes, self.offset as int));
                    return Ok(Some(self.offset));
                }
                assert(!ends_head(bytes, self.offset as int));
                i += 1;
            }
            assert(start < self.offset <= bound);
        }
        if self.offset >= limit {
            Err(RequestFailure::HeadersTooLarge)
        } else {
            Ok(None)
        }
    }
}

/// Whether a head ends at a place depends on the bytes before it alone.
proof fn lemma_ends_head_prefix(short: Seq<u8>, long: Seq<u8>, end: int)
    requires
        short.len() <= long.len(),
        short == long.take(short.len() as int),
        0 <= end <= short.len(),
    ensures
        ends_head(short, end) == ends_head(long, end),
{
    assert(short.take(end) =~= long.take(end));
    assert forall|i: int| 0 <= i < short.len() implies short[i] == long[i] by {
        assert(long.take(short.len() as int)[i] == long[i]);
    }
}

impl HeadScanner {
    /// A search that found nothing so far goes on where more was received.
    pub proof fn law_search_is_incremental(self, short: Seq<u8>, long: Seq<u8>)
        requires
            self.scanned(short),
            self.offset() <= short.len() <= long.len(),
            short == long.take(short.len() as int),
        ensures
            self.scanned(long),
            self.offset() <= long.len(),
    {
        let at = self.offset as int;
        assert(short.take(at) =~= long.take(at));
        assert forall|i: int| 0 <= i < short.len() implies short[i] == long[i] by {
            assert(long.take(short.len() as int)[i] == long[i]);
        }
        assert forall|n: int| 0 <= n <= at implies !ends_head(long, n) by {
            lemma_ends_head_prefix(short, long, n);
            assert(!ends_head(short, n));
        }
    }
}

/// Where a head ends does not depend on how much was received behind it: the
/// bytes of a pipelined request never move the end of the one before.
pub proof fn law_head_end_is_stable(short: Seq<u8>, long: Seq<u8>, end: int)
    requires
        short.len() <= long.len(),
        short == long.take(short.len() as int),
        is_head_end(short, end),
    ensures
        is_head_end(long, end),
{
    lemma_ends_head_prefix(short, long, end);
    assert forall|n: int| 0 <= n < end implies !ends_head(long, n) by {
        lemma_ends_head_prefix(short, long, n);
        assert(!ends_head(short, n));
    }
}

/// What the bytes of an incomplete head are refused for, given what parsing
/// them gave.
pub open spec fn partial_head_failure(
    outcome: Result<Option<HeadModel>, HeadError>,
) -> Option<RequestFailure> {
    match outcome {
        Ok(_) => None,
        Err(error) => Some(parse_failure(error)),
    }
}

pub open spec fn refusal(failure: Option<RequestFailure>) -> Result<(), RequestFailure> {
    match failure {
        Some(failure) => Err(failure),
        None => Ok(()),
    }
}

/// Refuses an incomplete head as soon as no more bytes can make it valid.
pub fn validate_partial_head(view: ReaderView<'_>, arena: &EphemeralBytesArena) -> (checked: Result<
    (),
    RequestFailure,
>)
    ensures
        if view_bytes(view).len() > isize::MAX {
            checked == Err::<(), RequestFailure>(RequestFailure::HeadersTooLarge)
        } else {
            checked == refusal(
                partial_head_failure(parsed_head(MAX_REQUEST_HEADERS, view_bytes(view))),
            )
        },
{
    let length: usize = view.len();
    if length > isize::MAX as usize {
        return Err(RequestFailure::HeadersTooLarge);
    }
    let first = view.chunk_at(0);
    if first.len() == length {
        assert(first@ =~= view_bytes(view));
        return accept_partial(parse_head(MAX_REQUEST_HEADERS, first));
    }
    let mut scratch = arena.alloc(length);
    let mut offset: usize = 0;
    while offset < length
        invariant
            length == view_bytes(view).len(),
            0 <= offset <= length,
            frame_capacity(scratch) == length,
            frame_bytes(scratch) == view_bytes(view).take(offset as int),
        decreases length - offset,
    {
        let bytes = view.chunk_at(offset);
        scratch.extend_from_slice(bytes);
        offset += bytes.len();
        assert(frame_bytes(scratch) =~= view_bytes(view).take(offset as int));
    }
    assert(view_bytes(view).take(offset as int) =~= view_bytes(view));
    accept_partial(parse_head(MAX_REQUEST_HEADERS, scratch.as_slice()))
}

/// Decides about an incomplete head from what parsing it gave.
pub fn accept_partial(
    parsed: Result<Option<ParsedHead<'_>>, HeadError>,
) -> (checked: Result<(), RequestFailure>)
    ensures
        checked == refusal(partial_head_failure(head_outcome(parsed))),
{
    match parsed {
        Ok(_) => Ok(()),
        Err(error) => Err(map_parse_error(error)),
    }
}

/// A head that was accepted.
#[derive(Debug)]
pub struct AcceptedHead<'a> {
    pub inspection: Inspection,
    pub method: &'a str,
    pub target: &'a str,
    pub headers: Vec<Header<'a>>,
}

/// What an [`AcceptedHead`] says.
#[verifier::ext_equal]
pub struct AcceptedModel {
    pub inspection: Inspection,
    pub method: Seq<char>,
    pub target: Seq<char>,
    pub headers: Seq<(Seq<char>, Seq<u8>)>,
}

impl<'a> View for AcceptedHead<'a> {
    type V = AcceptedModel;

    open spec fn view(&self) -> AcceptedModel {
        AcceptedModel {
            inspection: self.inspection,
            method: self.method@,
            target: self.target@,
            headers: header_models(self.headers@),
        }
    }
}

/// What is decided about a complete head of this length, given what parsing it
/// gave.
pub open spec fn accepted(
    outcome: Result<Option<HeadModel>, HeadError>,
    head_len: usize,
    max_head: usize,
    max_body: usize,
) -> Result<AcceptedModel, RequestFailure> {
    match outcome {
        Err(error) => Err(parse_failure(error)),
        Ok(None) => Err(RequestFailure::BadRequest),
        Ok(Some(head)) => match inspected(head, head.length, max_head, max_body) {
            Err(failure) => Err(failure),
            Ok(inspection) => if head.length != head_len || head.method is None
                || head.path is None {
                Err(RequestFailure::BadRequest)
            } else {
                Ok(
                    AcceptedModel {
                        inspection,
                        method: head.method->0,
                        target: head.path->0,
                        headers: head.headers,
                    },
                )
            },
        },
    }
}

pub open spec fn accepted_view(
    head: Result<AcceptedHead<'_>, RequestFailure>,
) -> Result<AcceptedModel, RequestFailure> {
    match head {
        Ok(head) => Ok(head@),
        Err(failure) => Err(failure),
    }
}

/// Decides about a complete head of this length from what parsing it gave.
pub fn accept_parsed<'a>(
    parsed: Result<Option<ParsedHead<'a>>, HeadError>,
    head_len: usize,
    config: &ServerConfig,
) -> (head: Result<AcceptedHead<'a>, RequestFailure>)
    ensures
        accepted_view(head) == accepted(
            head_outcome(parsed),
            head_len,
            config.max_request_head_bytes,
            config.max_request_body_bytes,
        ),
{
    let parsed = match parsed {
        Err(error) => {
            return Err(map_parse_error(error));
        },
        Ok(None) => {
            return Err(RequestFailure::BadRequest);
        },
        Ok(Some(parsed)) => parsed,
    };
    let inspection = match inspect_parsed_request(&parsed, parsed.length, config) {
        Ok(inspection) => inspection,
        Err(failure) => {
            return Err(failure);
        },
    };
    if parsed.length != head_len {
        return Err(RequestFailure::BadRequest);
    }
    match (parsed.method, parsed.path) {
        (Some(method), Some(target)) => Ok(
            AcceptedHead { inspection, method, target, headers: parsed.headers },
        ),
        _ => Err(RequestFailure::BadRequest),
    }
}

/// Decides about a complete head.
pub fn accept_head<'a>(head: &'a [u8], config: &ServerConfig) -> (accepted_head: Result<
    AcceptedHead<'a>,
    RequestFailure,
>)
    ensures
        accepted_view(accepted_head) == accepted(
            parsed_head(MAX_REQUEST_HEADERS, head@),
            head@.len() as usize,
            config.max_request_head_bytes,
            config.max_request_body_bytes,
        ),
{
    accept_parsed(parse_head(MAX_REQUEST_HEADERS, head), head.len(), config)
}

/// How far a request was received.
#[derive(Debug)]
pub enum Receiving {
    /// The end of the head was not found yet.
    Head(HeadScanner),
    /// The head is complete; its body waits for its share of the budget.
    Budget(Inspection),
    /// The body is being received.
    Body(Inspection),
    /// The request is complete.
    Complete(Inspection),
}

/// What the connection does next for a request.
#[derive(Clone, Copy, Debug, PartialEq, Eq, Structural)]
pub enum ReceiveAction {
    /// Reads at most this many bytes, and first waits for the socket to become
    /// readable where nothing was received yet.
    Read { wait: bool, maximum: usize },
    /// Takes this many bytes from the budget of all bodies.
    ReserveBudget { bytes: usize },
    /// Makes room for this many bytes in one piece, then reads them.
    ReserveRoom { bytes: usize },
    /// Hands the request to its handler.
    Handle,
}

/// What is decided while the head is incomplete or was just completed.
pub open spec fn head_decision(
    bytes: Seq<u8>,
    config: ServerConfig,
    decision: Result<ReceiveAction, RequestFailure>,
    after: Receiving,
) -> bool {
    let limit = config.max_request_head_bytes;
    if exists|end: int| end <= limit && is_head_end(bytes, end) {
        let end = choose|end: int| end <= limit && is_head_end(bytes, end);
        let head = accepted(
            parsed_head(MAX_REQUEST_HEADERS, bytes.take(end)),
            end as usize,
            limit,
            config.max_request_body_bytes,
        );
        match head {
            Err(failure) => decision == Err::<ReceiveAction, RequestFailure>(failure),
            Ok(head) => {
                &&& decision == Ok::<ReceiveAction, RequestFailure>(
                    ReceiveAction::ReserveBudget {
                        bytes: (head.inspection.total_len - head.inspection.head_len) as usize,
                    },
                )
                &&& after == Receiving::Budget(head.inspection)
            },
        }
    } else if bytes.len() >= limit || bytes.len() > isize::MAX {
        decision == Err::<ReceiveAction, RequestFailure>(RequestFailure::HeadersTooLarge)
    } else {
        match partial_head_failure(parsed_head(MAX_REQUEST_HEADERS, bytes)) {
            Some(failure) if bytes.len() > 0 => decision == Err::<ReceiveAction, RequestFailure>(
                failure,
            ),
            _ => {
                &&& decision == Ok::<ReceiveAction, RequestFailure>(
                    ReceiveAction::Read {
                        wait: bytes.len() == 0,
                        maximum: (limit - bytes.len()) as usize,
                    },
                )
                &&& after matches Receiving::Head(scanner) && scanner.scanned(bytes)
                    && scanner.offset() == bytes.len()
            },
        }
    }
}

/// What is decided while the body is incomplete or was just completed.
pub open spec fn body_decision(
    received: nat,
    inspection: Inspection,
    reserve: bool,
    max_preallocated: usize,
) -> (ReceiveAction, Receiving) {
    if received >= inspection.total_len {
        (ReceiveAction::Handle, Receiving::Complete(inspection))
    } else {
        let remaining = (inspection.total_len - received) as usize;
        (
            if reserve && remaining <= max_preallocated {
                ReceiveAction::ReserveRoom { bytes: remaining }
            } else {
                ReceiveAction::Read { wait: false, maximum: remaining }
            },
            Receiving::Body(inspection),
        )
    }
}

impl Receiving {
    /// Whether the bytes are those that the search for the head went through.
    pub open spec fn follows(self, bytes: Seq<u8>) -> bool {
        match self {
            Receiving::Head(scanner) => scanner.scanned(bytes) && scanner.offset() <= bytes.len(),
            _ => true,
        }
    }

    pub fn new() -> (receiving: Self)
        ensures
            receiving is Head,
            forall|bytes: Seq<u8>| #[trigger] receiving.follows(bytes),
    {
        Receiving::Head(HeadScanner::default())
    }

    /// Decides what is done next, given the bytes that were received.
    ///
    /// While a head is incomplete more is read, up to the limit for heads. A
    /// complete head takes its body's share of the budget; the body is then read
    /// to its declared end and not beyond it.
    pub fn next(self, view: ReaderView<'_>, config: &ServerConfig) -> (step: (
        Result<ReceiveAction, RequestFailure>,
        Receiving,
    ))
        requires
            self.follows(view_bytes(view)),
        ensures
            match self {
                Receiving::Head(_) => head_decision(view_bytes(view), *config, step.0, step.1),
                Receiving::Budget(inspection) => step == {
                    let (action, after) = body_decision(
                        view_bytes(view).len(),
                        inspection,
                        true,
                        config.max_preallocated_request_body_bytes,
                    );
                    (Ok::<ReceiveAction, RequestFailure>(action), after)
                },
                Receiving::Body(inspection) => step == {
                    let (action, after) = body_decision(
                        view_bytes(view).len(),
                        inspection,
                        false,
                        config.max_preallocated_request_body_bytes,
                    );
                    (Ok::<ReceiveAction, RequestFailure>(action), after)
                },
                Receiving::Complete(inspection) => step == (
                    Ok::<ReceiveAction, RequestFailure>(ReceiveAction::Handle),
                    self,
                ),
            },
    {
        match self {
            Receiving::Head(scanner) => next_for_head(scanner, view, config),
            Receiving::Budget(inspection) => {
                let (action, after) = next_for_body(
                    view.len(),
                    inspection,
                    true,
                    config.max_preallocated_request_body_bytes,
                );
                (Ok(action), after)
            },
            Receiving::Body(inspection) => {
                let (action, after) = next_for_body(
                    view.len(),
                    inspection,
                    false,
                    config.max_preallocated_request_body_bytes,
                );
                (Ok(action), after)
            },
            Receiving::Complete(inspection) => (
                Ok(ReceiveAction::Handle),
                Receiving::Complete(inspection),
            ),
        }
    }
}

fn next_for_head(scanner: HeadScanner, view: ReaderView<'_>, config: &ServerConfig) -> (step: (
    Result<ReceiveAction, RequestFailure>,
    Receiving,
))
    requires
        scanner.scanned(view_bytes(view)),
        scanner.offset() <= view_bytes(view).len(),
    ensures
        head_decision(view_bytes(view), *config, step.0, step.1),
{
    let ghost bytes = view_bytes(view);
    let limit: usize = config.max_request_head_bytes;
    let mut scanner = scanner;
    match scanner.scan(view, limit) {
        Err(failure) => {
            proof {
                lemma_no_end(bytes, limit as int);
            }
            (Err(failure), Receiving::Head(scanner))
        },
        Ok(Some(end)) => {
            proof {
                lemma_one_end(bytes, end as int, limit as int);
            }
            let head = match view_range(&view, 0, end) {
                Some(head) => head,
                None => {
                    return (Err(RequestFailure::BadRequest), Receiving::Head(scanner));
                },
            };
            assert(head@ =~= bytes.take(end as int));
            match accept_head(head, config) {
                Err(failure) => (Err(failure), Receiving::Head(scanner)),
                Ok(head) => {
                    let inspection = head.inspection;
                    (
                        Ok(
                            ReceiveAction::ReserveBudget {
                                bytes: inspection.total_len - inspection.head_len,
                            },
                        ),
                        Receiving::Budget(inspection),
                    )
                },
            }
        },
        Ok(None) => {
            proof {
                lemma_no_end(bytes, bytes.len() as int);
            }
            let length: usize = view.len();
            if length > isize::MAX as usize {
                return (Err(RequestFailure::HeadersTooLarge), Receiving::Head(scanner));
            }
            if length > 0 {
                if let Err(failure) = validate_partial_head(view, &config.arena) {
                    return (Err(failure), Receiving::Head(scanner));
                }
            }
            (
                Ok(ReceiveAction::Read { wait: length == 0, maximum: limit - length }),
                Receiving::Head(scanner),
            )
        },
    }
}

/// The end of a head within the limit is the only one.
proof fn lemma_one_end(bytes: Seq<u8>, end: int, limit: int)
    requires
        is_head_end(bytes, end),
        end <= limit,
    ensures
        end == choose|end: int| end <= limit && is_head_end(bytes, end),
{
    let other = choose|end: int| end <= limit && is_head_end(bytes, end);
    if other < end {
        assert(!ends_head(bytes, other));
    }
    if end < other {
        assert(!ends_head(bytes, end));
    }
}

proof fn lemma_no_end(bytes: Seq<u8>, count: int)
    requires
        no_head_end(bytes, count),
    ensures
        forall|end: int| end <= count ==> !is_head_end(bytes, end),
{
}

fn next_for_body(
    received: usize,
    inspection: Inspection,
    reserve: bool,
    max_preallocated: usize,
) -> (step: (ReceiveAction, Receiving))
    ensures
        step == body_decision(received as nat, inspection, reserve, max_preallocated),
{
    if received >= inspection.total_len {
        return (ReceiveAction::Handle, Receiving::Complete(inspection));
    }
    let remaining: usize = inspection.total_len - received;
    if reserve && remaining <= max_preallocated {
        (ReceiveAction::ReserveRoom { bytes: remaining }, Receiving::Body(inspection))
    } else {
        (ReceiveAction::Read { wait: false, maximum: remaining }, Receiving::Body(inspection))
    }
}

/// Takes note that a read gave this many bytes; none means that the client
/// closed the connection.
pub fn after_read(count: usize) -> (outcome: Result<(), RequestFailure>)
    ensures
        outcome == (if count == 0 {
            Err::<(), RequestFailure>(RequestFailure::Closed)
        } else {
            Ok::<(), RequestFailure>(())
        }),
{
    if count == 0 {
        Err(RequestFailure::Closed)
    } else {
        Ok(())
    }
}

/// The answer that a request gets without being handed to its handler.
pub open spec fn early_answer(config: ServerConfig, request: RequestModel<'_>) -> Option<
    ResponseModel,
> {
    match config.cors {
        Some(cors) => cors@.preflight_answer(request),
        None => None,
    }
}

/// The handler's response, with what the cross-origin policy adds.
pub open spec fn policed(
    config: ServerConfig,
    origin: Option<Seq<u8>>,
    response: ResponseModel,
) -> ResponseModel {
    match config.cors {
        Some(cors) => cors@.applied(origin, response),
        None => response,
    }
}

/// Answers a preflight request in the place of its handler, which any other
/// request is handed to.
pub fn answer_early(config: &ServerConfig, request: &Request<'_>) -> (early: Option<Response>)
    ensures
        match early {
            Some(response) => early_answer(*config, request@) == Some(response@),
            None => early_answer(*config, request@) is None,
        },
{
    match &config.cors {
        Some(cors) => cors.preflight(request),
        None => None,
    }
}

/// Adds what the cross-origin policy says to the response of a handler.
pub fn police(config: &ServerConfig, origin: Option<&[u8]>, response: Response) -> (answer: Response)
    ensures
        answer@ == policed(*config, bytes_of(origin), response@),
{
    match &config.cors {
        Some(cors) => cors.apply(origin, response, &config.arena),
        None => response,
    }
}

/// Without a cross-origin policy every request reaches its handler, whose
/// response is left as it is.
pub proof fn law_no_policy_changes_nothing(
    config: ServerConfig,
    request: RequestModel<'_>,
    origin: Option<Seq<u8>>,
    response: ResponseModel,
)
    requires
        config.cors is None,
    ensures
        early_answer(config, request) is None,
        policed(config, origin, response) == response,
{
}

/// The response that is sent, how many received bytes the request took, and
/// whether the client keeps the connection open.
pub open spec fn answered(
    method: Seq<char>,
    response: ResponseModel,
    inspection: Inspection,
) -> (ResponseModel, usize, bool) {
    if response.status > 599 {
        (
            ResponseModel { close: true, ..ResponseModel::empty(500) },
            inspection.total_len,
            false,
        )
    } else if method == "HEAD"@ {
        (
            ResponseModel { suppress_body: true, ..response },
            inspection.total_len,
            inspection.keep_alive,
        )
    } else {
        (response, inspection.total_len, inspection.keep_alive)
    }
}

/// Turns a handler's response into the one that is sent.
pub fn answer(method: &str, response: Response, inspection: Inspection) -> (answer: (
    Response,
    usize,
    bool,
))
    ensures
        (answer.0@, answer.1, answer.2) == answered(method@, response@, inspection),
{
    let mut response = response;
    if same_text(method, "HEAD") {
        response.suppress_body();
    }
    if response.status().as_u16() > 599 {
        return (Response::empty(StatusCode::new(500)).close(), inspection.total_len, false);
    }
    (response, inspection.total_len, inspection.keep_alive)
}

/// The body of a complete request, without what was received behind it.
pub fn received_body<'a>(view: ReaderView<'a>, inspection: Inspection) -> (body: Option<
    ReaderView<'a>,
>)
    ensures
        match body {
            Some(body) => inspection.head_len <= inspection.total_len <= view_bytes(view).len()
                && view_bytes(body) == view_bytes(view).subrange(
                inspection.head_len as int,
                inspection.total_len as int,
            ),
            None => inspection.head_len > inspection.total_len || inspection.total_len > view_bytes(
                view,
            ).len(),
        },
{
    view_part(&view, inspection.head_len, inspection.total_len)
}

/// The head of a request that was received at least that far.
pub fn received_head<'a>(view: ReaderView<'a>, inspection: Inspection) -> (head: Option<&'a [u8]>)
    ensures
        match head {
            Some(head) => inspection.head_len <= view_bytes(view).len() && head@ == view_bytes(
                view,
            ).take(inspection.head_len as int),
            None => inspection.head_len > view_bytes(view).len(),
        },
{
    let head = view_range(&view, 0, inspection.head_len);
    proof {
        if let Some(head) = head {
            assert(head@ =~= view_bytes(view).take(inspection.head_len as int));
        }
    }
    head
}

/// A request is read no further than its end, and its head no further than the
/// limit: what is asked for never reaches into the next request's body share.
pub proof fn law_reads_stay_within_the_request(
    received: nat,
    inspection: Inspection,
    reserve: bool,
    max_preallocated: usize,
)
    ensures
        match body_decision(received, inspection, reserve, max_preallocated).0 {
            ReceiveAction::Read { wait, maximum } => received + maximum == inspection.total_len,
            ReceiveAction::ReserveRoom { bytes } => received + bytes == inspection.total_len
                && bytes <= max_preallocated,
            _ => received >= inspection.total_len,
        },
{
}

/// A request that a valid configuration accepts can always be given its share
/// of the budget: its body is not larger than the budget of all bodies.
pub proof fn law_accepted_bodies_fit_the_budget(
    config: ServerConfig,
    outcome: Result<Option<HeadModel>, HeadError>,
    head_len: usize,
    head: AcceptedModel,
)
    requires
        crate::server::config_error(config) is None,
        accepted(
            outcome,
            head_len,
            config.max_request_head_bytes,
            config.max_request_body_bytes,
        ) == Ok::<AcceptedModel, RequestFailure>(head),
    ensures
        head.inspection.head_len == head_len,
        head_len <= config.max_request_head_bytes,
        head.inspection.total_len - head_len <= config.max_request_body_bytes,
        head.inspection.total_len - head_len <= config.max_in_flight_request_body_bytes,
        0 <= head.inspection.total_len - head_len <= u32::MAX,
{
}

} // verus!
