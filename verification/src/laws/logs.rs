//! Laws of counters and log lines.
use vstd::prelude::*;
use vstd::string::StringSliceAdditionalSpecFns;
use vstd::utf8::*;

#[allow(unused_imports)]
use crate::api_metrics::logging::{
    ascii_space, client_ip_text, cut_text, excerpt_text, law_kept_text_fits, logged_request,
    names_a_hop, request_id_text, without_spaces,
};
use crate::api_metrics::logging::RequestLogModel;
#[allow(unused_imports)]
use crate::api_metrics::{
    answer_columns, api_line, body_of, body_text, counted, counter_kind, counts_as_success,
    flag_text, length_text, slow_line,
};
use crate::api_metrics::{ApiLogContext, Observation, Recorded};
use crate::server::{Duration, ParsedHead};
#[allow(unused_imports)]
use crate::request::header_value;
use crate::response::StatusCode;
#[allow(unused_imports)]
use crate::text::{decimal, glued, lossy, utf8_text};
use brz_io::ReaderView;

verus! {

/// Answers are counted by the first digit of their status, those below 400 as
/// successes. One that was not ready in time is counted apart, and is none.
pub proof fn law_answers_are_counted_by_their_class(status: u16)
    ensures
        counted(status, false) is None <==> status < 200 || status >= 600,
        counted(status, false) matches Some(how) ==> {
            &&& counts_as_success(how) <==> status < 400
            &&& counter_kind(how) == "API"@ <==> 200 <= status < 300
            &&& counter_kind(how) == "API3XX"@ <==> 300 <= status < 400
            &&& counter_kind(how) == "API4XX"@ <==> 400 <= status < 500
            &&& counter_kind(how) == "API5XX"@ <==> 500 <= status < 600
        },
        counted(status, true) matches Some(how) && counter_kind(how) == "APITO"@
            && !counts_as_success(how),
{
    reveal_strlit("API");
    reveal_strlit("API3XX");
    reveal_strlit("API4XX");
    reveal_strlit("API5XX");
    reveal_strlit("APITO");
    assert("API3XX"@[3] == '3' && "API4XX"@[3] == '4' && "API5XX"@[3] == '5');
    assert("API"@.len() == 3 && "API3XX"@.len() == 6 && "API4XX"@.len() == 6 && "API5XX"@.len()
        == 6);
}

/// What is kept of a text is the longest beginning that fits.
pub proof fn law_the_longest_beginning_is_kept(text: Seq<char>, capacity: int, more: int)
    requires
        0 <= capacity,
        cut_text(text, capacity).len() < more <= text.len(),
    ensures
        cut_text(text, capacity) == text.take(cut_text(text, capacity).len() as int),
        encode_utf8(cut_text(text, capacity)).len() <= capacity,
        encode_utf8(text.take(more)).len() > capacity,
    decreases text.len(),
{
    law_kept_text_fits(text, capacity);
    let kept = cut_text(text, capacity);
    assert(kept =~= text.take(kept.len() as int));
    let shorter = text.drop_last();
    assert(kept == cut_text(shorter, capacity));
    if more == text.len() {
        assert(text.take(more) =~= text);
    } else {
        law_the_longest_beginning_is_kept(shorter, capacity, more);
        assert(shorter.take(more) =~= text.take(more));
    }
}

/// White space is removed from a text character by character, and nothing else is.
pub proof fn law_only_white_space_is_removed(text: Seq<char>, more: Seq<char>, c: char)
    ensures
        without_spaces(text + more) == without_spaces(text) + without_spaces(more),
        without_spaces(seq![c]) == (if seq![' ', '\t', '\n', '\u{c}', '\r'].contains(c) {
            Seq::empty()
        } else {
            seq![c]
        }),
        without_spaces(Seq::empty()) == Seq::<char>::empty(),
    decreases more.len(),
{
    let one = seq![c];
    let spaces = seq![' ', '\t', '\n', '\u{c}', '\r'];
    assert(one.drop_last() =~= Seq::<char>::empty());
    assert(one.last() == c);
    assert(without_spaces(one.drop_last()) =~= Seq::<char>::empty());
    assert(spaces[0] == ' ' && spaces[1] == '\t' && spaces[2] == '\n' && spaces[3] == '\u{c}'
        && spaces[4] == '\r');
    assert(Seq::<char>::empty().push(c) =~= seq![c]);
    if more.len() > 0 {
        law_only_white_space_is_removed(text, more.drop_last(), c);
        assert((text + more).drop_last() =~= text + more.drop_last());
        assert((text + more).last() == more.last());
    } else {
        assert(text + more =~= text);
    }
}

/// A request's identifier is logged without its white space. One that is missing
/// or has nothing else is logged as a dash, and broken text as such.
pub proof fn law_identifiers_are_logged_as_one_word(id: Seq<u8>)
    ensures
        request_id_text(None) == "-"@,
        !valid_utf8(id) ==> request_id_text(Some(id)) == "<invalid-request-id>"@,
        valid_utf8(id) && without_spaces(decode_utf8(id)).len() > 0 ==> request_id_text(Some(id))
            == without_spaces(decode_utf8(id)),
        valid_utf8(id) && without_spaces(decode_utf8(id)).len() == 0 ==> request_id_text(Some(id))
            == "-"@,
{
}

/// The addresses that a request was forwarded for are logged without their white
/// space. Where it names none, the peer's own is logged.
pub proof fn law_forwarded_addresses_are_logged(addresses: Seq<u8>, peer: Seq<char>)
    ensures
        client_ip_text(None, peer) == peer,
        !valid_utf8(addresses) ==> client_ip_text(Some(addresses), peer)
            == "<invalid-client-ip>"@,
        valid_utf8(addresses) ==> {
            let text = decode_utf8(addresses);
            let names_one = exists|i: int|
                0 <= i < text.len() && !seq![' ', '\t', '\n', '\u{c}', '\r', ','].contains(
                    #[trigger] text[i],
                );
            client_ip_text(Some(addresses), peer) == (if names_one {
                without_spaces(text)
            } else {
                peer
            })
        },
{
    let signs = seq![' ', '\t', '\n', '\u{c}', '\r', ','];
    assert(signs[0] == ' ' && signs[1] == '\t' && signs[2] == '\n' && signs[3] == '\u{c}'
        && signs[4] == '\r' && signs[5] == ',');
    if valid_utf8(addresses) {
        let text = decode_utf8(addresses);
        if names_a_hop(text) {
            let i = choose|i: int|
                0 <= i < text.len() && !ascii_space(#[trigger] text[i]) && text[i] != ',';
            assert(!signs.contains(text[i]));
        }
        if exists|i: int| 0 <= i < text.len() && !signs.contains(#[trigger] text[i]) {
            let i = choose|i: int| 0 <= i < text.len() && !signs.contains(#[trigger] text[i]);
            assert(!ascii_space(text[i]) && text[i] != ',');
        }
    }
}

/// At most 512 bytes of a body are logged, as far as they are a text.
pub proof fn law_excerpts_are_short(body: Seq<u8>, more: Seq<u8>)
    ensures
        body.len() <= 512 && encode_utf8(lossy(body)).len() <= 512 ==> excerpt_text(body) == lossy(
            body,
        ),
        body.len() == 512 ==> excerpt_text(body + more) == excerpt_text(body),
        encode_utf8(excerpt_text(body)).len() <= 512,
        body.len() <= 512 ==> excerpt_text(body).is_prefix_of(lossy(body)),
        body_text(None) == Seq::<char>::empty(),
        body_text(Some(body)) == excerpt_text(body),
{
    if body.len() <= 512 {
        law_kept_text_fits(lossy(body), 512);
    } else {
        law_kept_text_fits(lossy(body.take(512)), 512);
    }
    if body.len() == 512 {
        assert((body + more).take(512) =~= body);
    }
}

/// Of a head its method and target are logged; its identifier and the addresses
/// that it was forwarded for only where a line of its own is written.
pub proof fn law_heads_are_logged(
    head: ParsedHead<'_>,
    peer: Seq<char>,
    peer_ip: Seq<char>,
    request_len: usize,
)
    requires
        head.method is Some,
        head.path is Some,
    ensures
        ({
            let with = logged_request(head, peer, peer_ip, request_len, true);
            let without = logged_request(head, peer, peer_ip, request_len, false);
            &&& with.method == head.method->0@
            &&& with.target == head.path->0@
            &&& with.request_id == header_value(head.headers@, "x-request-id".spec_bytes())
            &&& with.forwarded_for == header_value(head.headers@, "x-forwarded-for".spec_bytes())
            &&& with.peer == peer
            &&& with.peer_ip == peer_ip
            &&& with.request_len == request_len
            &&& without == (RequestLogModel { request_id: None, forwarded_for: None, ..with })
        }),
{
}

/// Words with a space between each two.
spec fn spaced(words: Seq<Seq<char>>) -> Seq<char> {
    glued(words, " "@)
}

proof fn lemma_spaced(words: Seq<Seq<char>>, word: Seq<char>)
    requires
        words.len() > 0,
    ensures
        spaced(words.push(word)) == spaced(words) + " "@ + word,
{
    assert(words.push(word).drop_last() =~= words);
}

/// The line of an API request has its columns with a space between each two:
/// method, target, status, milliseconds, the lengths of the request and of the
/// response, the client's address, the principal and the identifier. Of the
/// method at most 16 bytes are kept, of the target at most 128.
pub proof fn law_api_lines_have_nine_columns(
    request: RequestLogModel,
    status: u16,
    length: Option<u64>,
    millis: nat,
    auth: Seq<char>,
)
    ensures
        api_line(request, status, length, millis, auth) == cut_text(request.method, 16) + " "@
            + cut_text(request.target, 128) + " "@ + decimal(status as nat) + " "@ + (decimal(millis)
            + "ms"@) + " "@ + decimal(request.request_len as nat) + " "@ + length_text(length)
            + " "@ + client_ip_text(request.forwarded_for, request.peer_ip) + " "@ + auth + " "@
            + request_id_text(request.request_id),
        length_text(None) == "-"@,
        length matches Some(bytes) ==> length_text(length) == decimal(bytes as nat),
{
    let words = answer_columns(request, status, length, millis) + seq![
        client_ip_text(request.forwarded_for, request.peer_ip),
        auth,
        request_id_text(request.request_id),
    ];
    lemma_columns(words, 9);
}

spec fn columns(words: Seq<Seq<char>>, count: int) -> Seq<char>
    decreases count,
{
    if count <= 1 {
        words[0]
    } else {
        columns(words, count - 1) + " "@ + words[count - 1]
    }
}

proof fn lemma_columns(words: Seq<Seq<char>>, count: int)
    requires
        1 <= count <= words.len(),
        count <= 10,
    ensures
        spaced(words.take(count)) == columns(words, count),
        count == 9 && words.len() == 9 ==> spaced(words) == words[0] + " "@ + words[1] + " "@
            + words[2] + " "@ + words[3] + " "@ + words[4] + " "@ + words[5] + " "@ + words[6]
            + " "@ + words[7] + " "@ + words[8],
        count == 10 && words.len() == 10 ==> spaced(words) == words[0] + " "@ + words[1] + " "@
            + words[2] + " "@ + words[3] + " "@ + words[4] + " "@ + words[5] + " "@ + words[6]
            + " "@ + words[7] + " "@ + words[8] + " "@ + words[9],
    decreases count,
{
    if count > 1 {
        lemma_columns(words, count - 1);
        lemma_spaced(words.take(count - 1), words[count - 1]);
        assert(words.take(count) =~= words.take(count - 1).push(words[count - 1]));
    }
    if count == words.len() {
        assert(words.take(count) =~= words);
        reveal_with_fuel(columns, 11);
    }
}

/// The line of a slow request starts with the server's name, and ends with the
/// peer's address, whether the time was over, and the beginning of the body.
pub proof fn law_slow_lines_have_ten_columns(
    request: RequestLogModel,
    status: u16,
    length: Option<u64>,
    millis: nat,
    timed_out: bool,
    body: Option<Seq<u8>>,
)
    ensures
        slow_line(request, status, length, millis, timed_out, body) == "http-server"@ + " "@
            + cut_text(request.method, 16) + " "@ + cut_text(request.target, 128) + " "@ + decimal(
            status as nat,
        ) + " "@ + (decimal(millis) + "ms"@) + " "@ + decimal(request.request_len as nat) + " "@
            + length_text(length) + " "@ + request.peer + " "@ + (if timed_out {
            "true"@
        } else {
            "false"@
        }) + " "@ + body_text(body),
{
    let words = seq!["http-server"@] + answer_columns(request, status, length, millis) + seq![
        request.peer,
        flag_text(timed_out),
        body_text(body),
    ];
    lemma_columns(words, 10);
}

/// A slow request is one that took three seconds or more. It alone has a slow
/// line, and a request whose route is logged an API line. Neither is written
/// for a request whose head is not known.
pub proof fn law_slow_requests_are_logged_apart(
    observation: &Observation<'_>,
    status: StatusCode,
    length: Option<u64>,
    timed_out: bool,
    elapsed: Duration,
    body: Option<ReaderView<'_>>,
    recorded: Recorded,
)
    requires
        call_ensures(
            Observation::record,
            (observation, status, length, timed_out, elapsed, body),
            recorded,
        ),
    ensures
        recorded.slow is Some <==> observation.request() is Some && elapsed.nanos
            >= 3_000_000_000,
        recorded.api is Some <==> observation.request() is Some && observation.api_logged(),
        recorded.counted is Some <==> observation.metrics() is Some && (timed_out || 200
            <= status.number() < 600),
{
}

/// Of several principals the first is logged, and none where no line is
/// written.
pub proof fn law_the_first_principal_is_logged(context: ApiLogContext)
    ensures
        context.takes_principal() <==> context.enabled() && context.principal() is None,
        context.principal() is None ==> context.auth_text() == "-"@,
        context.principal() matches Some(id) ==> context.auth_text() == id,
{
}

} // verus!
