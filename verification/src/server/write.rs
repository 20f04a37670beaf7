//! Encoding of response heads and framing of response bodies.
use brz_ds::{EphemeralBytes, EphemeralBytesArena};

use vstd::prelude::*;
use vstd::string::StringSliceAdditionalSpecFns;
use vstd::utf8::*;

#[allow(unused_imports)]
use crate::arena::{frame_bytes, frame_capacity, frozen_bytes};
#[allow(unused_imports)]
use crate::response::{text_of, BodyModel, ResponseModel};
use crate::response::{push_blocks, Response, ResponseBody, StatusCode};
#[allow(unused_imports)]
use crate::server::receive::{ends_head, is_head_end, line_byte};
#[allow(unused_imports)]
use crate::text::decimal;

verus! {

/// The bytes of `parts`, one after the other.
pub open spec fn concat(parts: Seq<&[u8]>) -> Seq<u8>
    decreases parts.len(),
{
    if parts.len() == 0 {
        Seq::empty()
    } else {
        concat(parts.drop_last()) + parts.last()@
    }
}

proof fn lemma_concat_push(parts: Seq<&[u8]>, part: &[u8])
    ensures
        concat(parts.push(part)) == concat(parts) + part@,
{
    assert(parts.push(part).drop_last() =~= parts);
}

proof fn lemma_concat_prefix(parts: Seq<&[u8]>, count: int)
    requires
        0 <= count <= parts.len(),
    ensures
        concat(parts.take(count)).len() <= concat(parts).len(),
    decreases parts.len(),
{
    if count < parts.len() {
        lemma_concat_prefix(parts.drop_last(), count);
        assert(parts.drop_last().take(count) =~= parts.take(count));
    } else {
        assert(parts.take(count) =~= parts);
    }
}

/// How many bytes `parts` have, unless no allocation can hold that many.
pub fn total_length(parts: &Vec<&[u8]>) -> (total: Option<usize>)
    ensures
        match total {
            Some(total) => total == concat(parts@).len() && total <= isize::MAX,
            None => concat(parts@).len() > isize::MAX,
        },
{
    let mut total: usize = 0;
    let mut i: usize = 0;
    while i < parts.len()
        invariant
            0 <= i <= parts@.len(),
            total == concat(parts@.take(i as int)).len(),
            total <= isize::MAX,
        decreases parts@.len() - i,
    {
        proof {
            assert(parts@.take(i + 1) =~= parts@.take(i as int).push(parts@[i as int]));
            lemma_concat_push(parts@.take(i as int), parts@[i as int]);
            lemma_concat_prefix(parts@, i + 1);
        }
        let length: usize = parts[i].len();
        match total.checked_add(length) {
            Some(sum) if sum <= isize::MAX as usize => {
                total = sum;
            },
            _ => {
                return None;
            },
        }
        i += 1;
    }
    assert(parts@.take(i as int) =~= parts@);
    Some(total)
}

/// Copies `parts` into one frame of exactly their length.
pub fn encode_parts(arena: &EphemeralBytesArena, parts: &Vec<&[u8]>) -> (encoded: Option<
    EphemeralBytes,
>)
    ensures
        match encoded {
            Some(encoded) => frozen_bytes(encoded) == concat(parts@) && concat(parts@).len()
                <= isize::MAX,
            None => concat(parts@).len() > isize::MAX,
        },
{
    let capacity: usize = match total_length(parts) {
        Some(capacity) => capacity,
        None => {
            return None;
        },
    };
    let mut output = arena.alloc(capacity);
    let mut i: usize = 0;
    while i < parts.len()
        invariant
            0 <= i <= parts@.len(),
            frame_bytes(output) == concat(parts@.take(i as int)),
            frame_capacity(output) == concat(parts@).len(),
        decreases parts@.len() - i,
    {
        proof {
            assert(parts@.take(i + 1) =~= parts@.take(i as int).push(parts@[i as int]));
            lemma_concat_push(parts@.take(i as int), parts@[i as int]);
            lemma_concat_prefix(parts@, i + 1);
        }
        output.extend_from_slice(parts[i]);
        i += 1;
    }
    assert(parts@.take(i as int) =~= parts@);
    Some(output.freeze())
}

/// Carriage return and line feed.
pub open spec fn crlf() -> Seq<u8> {
    seq![13u8, 10]
}

pub fn crlf_bytes() -> (bytes: &'static [u8])
    ensures
        bytes@ == crlf(),
{
    proof {
        reveal_strlit("\r\n");
        is_ascii_chars_encode_utf8("\r\n"@);
        assert("\r\n".spec_bytes() =~= crlf());
    }
    "\r\n".as_bytes()
}

/// `itoa::Buffer::format`: the decimal digits of a number.
#[verifier::external_body]
pub(crate) fn decimal_text(value: u128) -> (digits: String)
    ensures
        digits@ == decimal(value as nat),
{
    itoa::Buffer::new().format(value).to_owned()
}

/// What `http::StatusCode::canonical_reason` gives for a status.
pub uninterp spec fn canonical_reason(code: u16) -> Option<Seq<char>>;

/// `http::StatusCode::canonical_reason`: the standard phrase for a status, if
/// there is one.
#[verifier::external_body]
fn reason_phrase(code: u16) -> (reason: Option<&'static str>)
    requires
        100 <= code <= 999,
    ensures
        text_of(reason) == canonical_reason(code),
{
    http::StatusCode::from_u16(code).ok()?.canonical_reason()
}

/// The phrase that stands behind a status.
pub open spec fn phrase(reason: Option<Seq<char>>) -> Seq<char> {
    match reason {
        Some(reason) => reason,
        None => "Unknown"@,
    }
}

/// A header line, where there is a value for it.
pub open spec fn head_line(label: Seq<u8>, value: Option<Seq<char>>) -> Seq<u8> {
    match value {
        Some(value) => label + encode_utf8(value) + crlf(),
        None => Seq::empty(),
    }
}

/// The line that says how the body is framed: by its length, by chunks, or not
/// at all where the status permits no body.
pub open spec fn framing(response: ResponseModel) -> Seq<u8> {
    if !response.permits_body() {
        Seq::empty()
    } else {
        match response.body.content_length() {
            Some(length) => head_line(
                "Content-Length: ".spec_bytes(),
                Some(decimal(length as nat)),
            ),
            None => "Transfer-Encoding: chunked".spec_bytes() + crlf(),
        }
    }
}

pub open spec fn status_line(status: u16, reason: Seq<char>) -> Seq<u8> {
    "HTTP/1.1 ".spec_bytes() + encode_utf8(decimal(status as nat)) + " ".spec_bytes() + encode_utf8(
        reason,
    ) + crlf()
}

pub open spec fn connection_line(close: bool) -> Seq<u8> {
    if close {
        "Connection: close".spec_bytes() + crlf()
    } else {
        Seq::empty()
    }
}

/// The head of a response: status line, the application's headers, the
/// response's own, the framing of the body, and a blank line.
pub open spec fn response_head(
    response: ResponseModel,
    reason: Seq<char>,
    close: bool,
) -> Seq<u8> {
    status_line(response.status, reason) + response.headers + head_line(
        "Content-Type: ".spec_bytes(),
        response.content_type,
    ) + head_line("Allow: ".spec_bytes(), response.allow) + head_line(
        "WWW-Authenticate: ".spec_bytes(),
        response.www_authenticate,
    ) + framing(response) + connection_line(close) + crlf()
}

/// Appends a header line to the parts of a head.
fn push_line<'a>(parts: &mut Vec<&'a [u8]>, label: &'a str, value: Option<&'a str>)
    ensures
        concat(final(parts)@) == concat(old(parts)@) + head_line(
            label.spec_bytes(),
            text_of(value),
        ),
{
    match value {
        Some(value) => {
            push_part(parts, label.as_bytes());
            push_part(parts, value.as_bytes());
            push_part(parts, crlf_bytes());
            assert(concat(parts@) =~= concat(old(parts)@) + head_line(
                label.spec_bytes(),
                Some(value@),
            ));
        },
        None => {
            assert(concat(parts@) =~= concat(old(parts)@) + Seq::<u8>::empty());
        },
    }
}

pub(crate) fn push_part<'a>(parts: &mut Vec<&'a [u8]>, part: &'a [u8])
    ensures
        final(parts)@ == old(parts)@.push(part),
        concat(final(parts)@) == concat(old(parts)@) + part@,
{
    proof {
        lemma_concat_push(parts@, part);
    }
    parts.push(part);
}

/// Encodes the head of a response with this phrase behind its status.
pub fn encode_head(
    arena: &EphemeralBytesArena,
    response: &Response,
    close: bool,
    reason: &str,
) -> (head: Option<EphemeralBytes>)
    ensures
        match head {
            Some(head) => frozen_bytes(head) == response_head(response@, reason@, close)
                && response_head(response@, reason@, close).len() <= isize::MAX,
            None => response_head(response@, reason@, close).len() > isize::MAX,
        },
{
    let ghost model = response@;
    let body_length = response.body().content_length();
    let status = decimal_text(response.status().as_u16() as u128);
    let content_length = match body_length {
        Some(length) => Some(decimal_text(length as u128)),
        None => None,
    };
    let mut parts: Vec<&[u8]> = Vec::new();
    push_part(&mut parts, "HTTP/1.1 ".as_bytes());
    push_part(&mut parts, status.as_str().as_bytes());
    push_part(&mut parts, " ".as_bytes());
    push_part(&mut parts, reason.as_bytes());
    push_part(&mut parts, crlf_bytes());
    assert(concat(parts@) =~= status_line(model.status, reason@));
    push_blocks(&mut parts, response.header_blocks());
    assert(concat(parts@) =~= status_line(model.status, reason@) + model.headers);
    push_line(&mut parts, "Content-Type: ", response.content_type_ref());
    push_line(&mut parts, "Allow: ", response.allow_ref());
    push_line(&mut parts, "WWW-Authenticate: ", response.www_authenticate_ref());
    let ghost before = concat(parts@);
    if response.permits_body() {
        match &content_length {
            Some(length) => {
                push_line(&mut parts, "Content-Length: ", Some(length.as_str()));
            },
            None => {
                push_part(&mut parts, "Transfer-Encoding: chunked".as_bytes());
                push_part(&mut parts, crlf_bytes());
            },
        }
    }
    assert(concat(parts@) =~= before + framing(model));
    if close {
        push_part(&mut parts, "Connection: close".as_bytes());
        push_part(&mut parts, crlf_bytes());
    }
    assert(concat(parts@) =~= before + framing(model) + connection_line(close));
    push_part(&mut parts, crlf_bytes());
    assert(concat(parts@) =~= response_head(model, reason@, close));
    encode_parts(arena, &parts)
}

/// Encodes the head of a response. There is none if no allocation can hold it.
pub fn encode_response_head(
    arena: &EphemeralBytesArena,
    response: &Response,
    close: bool,
) -> (head: Option<EphemeralBytes>)
    ensures
        match head {
            Some(head) => frozen_bytes(head) == response_head(
                response@,
                phrase(canonical_reason(response@.status)),
                close,
            ) && frozen_bytes(head).len() <= isize::MAX,
            None => response_head(
                response@,
                phrase(canonical_reason(response@.status)),
                close,
            ).len() > isize::MAX,
        },
{
    let reason = match reason_phrase(response.status().as_u16()) {
        Some(reason) => reason,
        None => "Unknown",
    };
    encode_head(arena, response, close, reason)
}

/// The ASCII digit of a value below sixteen.
pub open spec fn hex_byte(value: int) -> u8 {
    if value < 10 {
        (48 + value) as u8
    } else {
        (87 + value) as u8
    }
}

/// The lower-case hexadecimal digits of `value`.
pub open spec fn lower_hex(value: nat) -> Seq<u8>
    decreases value,
{
    if value < 16 {
        seq![hex_byte(value as int)]
    } else {
        lower_hex(value / 16).push(hex_byte((value % 16) as int))
    }
}

/// The number that hexadecimal digits write.
pub open spec fn hex_value(digits: Seq<u8>) -> nat
    decreases digits.len(),
{
    if digits.len() == 0 {
        0
    } else {
        let last = digits.last();
        hex_value(digits.drop_last()) * 16 + (if last < 97 {
            (last - 48) as nat
        } else {
            (last - 87) as nat
        })
    }
}

/// The line before a chunk of this length.
pub open spec fn chunk_head(length: nat) -> Seq<u8> {
    lower_hex(length) + crlf()
}

/// Sixteen to this power.
spec fn power_of_sixteen(exponent: nat) -> nat
    decreases exponent,
{
    if exponent == 0 {
        1
    } else {
        16 * power_of_sixteen((exponent - 1) as nat)
    }
}

/// The longest line before a chunk.
pub const CHUNK_HEAD_BYTES: usize = 18;

fn hex_digit_byte(value: usize) -> (digit: u8)
    requires
        value < 16,
    ensures
        digit == hex_byte(value as int),
{
    if value < 10 {
        48 + value as u8
    } else {
        87 + value as u8
    }
}

/// Writes the line before a chunk of this length into the end of `output`.
pub fn encode_chunk_head(length: usize, output: &mut [u8; 18]) -> (head: &[u8])
    ensures
        head@ == chunk_head(length as nat),
{
    let mut offset: usize = 16;
    let mut rest: usize = length;
    output[16] = 13;
    output[17] = 10;
    proof {
        reveal_with_fuel(power_of_sixteen, 17);
        assert(output@.subrange(16, 18) =~= crlf());
    }
    loop
        invariant
            1 <= offset <= 16,
            rest < power_of_sixteen(offset as nat),
            offset < 16 ==> rest > 0,
            offset == 16 ==> rest == length,
            offset == 16 ==> output@.subrange(16, 18) == crlf(),
            offset < 16 ==> chunk_head(length as nat) == lower_hex(rest as nat) + output@.subrange(
                offset as int,
                18,
            ),
        decreases offset,
    {
        let ghost before = output@;
        let ghost place = offset as int;
        let digit = hex_digit_byte(rest % 16);
        offset -= 1;
        output[offset] = digit;
        proof {
            assert(output@.subrange(offset as int, 18) =~= seq![digit] + before.subrange(place, 18));
            assert(lower_hex(rest as nat) + before.subrange(place, 18) =~= (if rest < 16 {
                Seq::<u8>::empty()
            } else {
                lower_hex((rest / 16) as nat)
            }) + output@.subrange(offset as int, 18));
        }
        rest = rest / 16;
        assert(rest < power_of_sixteen(offset as nat));
        assert(power_of_sixteen(0) == 1);
        if rest == 0 {
            assert(output@.subrange(offset as int, 18) =~= chunk_head(length as nat));
            return &output[offset..18];
        }
    }
}

proof fn lemma_hex_value(value: nat)
    ensures
        hex_value(lower_hex(value)) == value,
        lower_hex(value).len() > 0,
        forall|i: int|
            0 <= i < lower_hex(value).len() ==> 48 <= #[trigger] lower_hex(value)[i] <= 102,
    decreases value,
{
    if value < 16 {
        let digits = seq![hex_byte(value as int)];
        assert(digits.drop_last() =~= Seq::<u8>::empty());
        assert(hex_value(digits.drop_last()) == 0);
    } else {
        lemma_hex_value(value / 16);
        assert(lower_hex(value).drop_last() =~= lower_hex(value / 16));
    }
}

/// Why a download was broken off.
#[derive(Clone, Copy, Debug, PartialEq, Eq, Structural)]
pub enum DownloadError {
    EndedEarly,
    Exceeded,
    LengthOverflow,
}

impl DownloadError {
    pub open spec fn message(self) -> Seq<char> {
        match self {
            DownloadError::EndedEarly => "download ended before Content-Length"@,
            DownloadError::Exceeded => "download exceeded Content-Length"@,
            DownloadError::LengthOverflow => "download length overflow"@,
        }
    }

    pub fn to_string(&self) -> (message: String)
        ensures
            message@ == self.message(),
    {
        match self {
            DownloadError::EndedEarly => String::from_str("download ended before Content-Length"),
            DownloadError::Exceeded => String::from_str("download exceeded Content-Length"),
            DownloadError::LengthOverflow => String::from_str("download length overflow"),
        }
    }
}

/// What is done with a chunk of a download, or with its end.
#[derive(Clone, Copy, Debug, PartialEq, Eq, Structural)]
pub enum DownloadStep {
    /// Nothing is written for an empty chunk.
    Skip,
    /// The chunk is written as it is.
    Plain,
    /// The chunk is written between its length and a line ending.
    Framed,
    /// The mark of the last chunk is written, and the body is complete.
    LastChunk,
    /// The body is complete.
    Done,
    /// The body is broken off.
    Fail(DownloadError),
}

/// What is done with a chunk of this length, or with the end where there is
/// none, and how many bytes were sent afterwards.
pub open spec fn download_step(
    length: Option<u64>,
    sent: u64,
    chunk: Option<nat>,
) -> (DownloadStep, u64) {
    match chunk {
        None => match length {
            Some(length) => if sent == length {
                (DownloadStep::Done, sent)
            } else {
                (DownloadStep::Fail(DownloadError::EndedEarly), sent)
            },
            None => (DownloadStep::LastChunk, sent),
        },
        Some(chunk) => if chunk == 0 {
            (DownloadStep::Skip, sent)
        } else if sent + chunk > u64::MAX {
            (DownloadStep::Fail(DownloadError::LengthOverflow), sent)
        } else {
            match length {
                Some(length) => if sent + chunk > length {
                    (DownloadStep::Fail(DownloadError::Exceeded), sent)
                } else {
                    (DownloadStep::Plain, (sent + chunk) as u64)
                },
                None => (DownloadStep::Framed, (sent + chunk) as u64),
            }
        },
    }
}

/// A body that is sent chunk by chunk.
#[derive(Clone, Copy, Debug)]
pub struct Download {
    length: Option<u64>,
    sent: u64,
}

impl Download {
    #[verifier::type_invariant]
    spec fn within_length(self) -> bool {
        self.length matches Some(length) ==> self.sent <= length
    }

    /// The declared number of bytes.
    pub closed spec fn length(self) -> Option<u64> {
        self.length
    }

    /// How many bytes were sent.
    pub closed spec fn sent(self) -> u64 {
        self.sent
    }

    pub fn new(length: Option<u64>) -> (download: Self)
        ensures
            download.length() == length,
            download.sent() == 0,
    {
        Download { length, sent: 0 }
    }

    /// Decides about the next chunk, given by its length, or about the end.
    pub fn advance(&mut self, chunk: Option<usize>) -> (step: DownloadStep)
        ensures
            (step, final(self).sent()) == download_step(
                old(self).length(),
                old(self).sent(),
                match chunk {
                    Some(chunk) => Some(chunk as nat),
                    None => None,
                },
            ),
            final(self).length() == old(self).length(),
            final(self).length() matches Some(length) ==> final(self).sent() <= length,
    {
        proof {
            use_type_invariant(&*self);
        }
        match chunk {
            None => match self.length {
                Some(length) => if self.sent == length {
                    DownloadStep::Done
                } else {
                    DownloadStep::Fail(DownloadError::EndedEarly)
                },
                None => DownloadStep::LastChunk,
            },
            Some(chunk) => {
                if chunk == 0 {
                    return DownloadStep::Skip;
                }
                let next: u64 = match self.sent.checked_add(chunk as u64) {
                    Some(next) => next,
                    None => {
                        return DownloadStep::Fail(DownloadError::LengthOverflow);
                    },
                };
                match self.length {
                    Some(length) => if next > length {
                        DownloadStep::Fail(DownloadError::Exceeded)
                    } else {
                        self.sent = next;
                        DownloadStep::Plain
                    },
                    None => {
                        self.sent = next;
                        DownloadStep::Framed
                    },
                }
            },
        }
    }
}

/// A chunk between its length and a line ending.
pub open spec fn framed(chunk: Seq<u8>) -> Seq<u8> {
    chunk_head(chunk.len()) + chunk + crlf()
}

/// The mark behind the last chunk.
pub open spec fn last_chunk() -> Seq<u8> {
    seq![48u8] + crlf() + crlf()
}

pub fn last_chunk_bytes() -> (bytes: &'static [u8])
    ensures
        bytes@ == last_chunk(),
{
    proof {
        reveal_strlit("0\r\n\r\n");
        is_ascii_chars_encode_utf8("0\r\n\r\n"@);
        assert("0\r\n\r\n".spec_bytes() =~= last_chunk());
    }
    "0\r\n\r\n".as_bytes()
}

/// The bytes that a download puts on the wire for these chunks and their end.
pub open spec fn downloaded(
    length: Option<u64>,
    sent: u64,
    chunks: Seq<Seq<u8>>,
) -> Result<Seq<u8>, DownloadError>
    decreases chunks.len(),
{
    if chunks.len() == 0 {
        match download_step(length, sent, None).0 {
            DownloadStep::Fail(error) => Err(error),
            DownloadStep::LastChunk => Ok(last_chunk()),
            _ => Ok(Seq::empty()),
        }
    } else {
        let (step, next) = download_step(length, sent, Some(chunks[0].len()));
        let rest = downloaded(length, next, chunks.skip(1));
        match step {
            DownloadStep::Fail(error) => Err(error),
            DownloadStep::Plain => before(chunks[0], rest),
            DownloadStep::Framed => before(framed(chunks[0]), rest),
            _ => rest,
        }
    }
}

pub open spec fn before(
    bytes: Seq<u8>,
    rest: Result<Seq<u8>, DownloadError>,
) -> Result<Seq<u8>, DownloadError> {
    match rest {
        Ok(rest) => Ok(bytes + rest),
        Err(error) => Err(error),
    }
}

/// The bytes of all chunks.
pub open spec fn all_bytes(chunks: Seq<Seq<u8>>) -> Seq<u8>
    decreases chunks.len(),
{
    if chunks.len() == 0 {
        Seq::empty()
    } else {
        chunks[0] + all_bytes(chunks.skip(1))
    }
}

/// A download of declared length succeeds exactly where its chunks have that
/// many bytes, and then those bytes are all that is sent.
pub proof fn law_declared_length_is_kept(length: u64, sent: u64, chunks: Seq<Seq<u8>>)
    requires
        sent <= length,
    ensures
        downloaded(Some(length), sent, chunks) is Ok <==> sent + all_bytes(chunks).len() == length,
        downloaded(Some(length), sent, chunks) matches Ok(wire) ==> wire == all_bytes(chunks),
    decreases chunks.len(),
{
    if chunks.len() > 0 {
        let (step, next) = download_step(Some(length), sent, Some(chunks[0].len()));
        match step {
            DownloadStep::Fail(_) => {},
            _ => {
                law_declared_length_is_kept(length, next, chunks.skip(1));
                assert(Seq::<u8>::empty() + all_bytes(chunks.skip(1)) =~= all_bytes(
                    chunks.skip(1),
                ));
                if chunks[0].len() == 0 {
                    assert(all_bytes(chunks) =~= all_bytes(chunks.skip(1)));
                }
            },
        }
    }
}

/// The body that a chunked transfer carries, if it is complete.
pub open spec fn unchunked(wire: Seq<u8>) -> Option<Seq<u8>>
    decreases wire.len(),
{
    let end = crate::response::first_crlf(wire);
    let length = hex_value(wire.take(end)) as int;
    if !(0 <= end < wire.len()) {
        None
    } else if length == 0 {
        if wire.skip(end + 2) == crlf() {
            Some(Seq::empty())
        } else {
            None
        }
    } else if wire.len() < end + 4 + length || wire.subrange(end + 2 + length, end + 4 + length)
        != crlf() {
        None
    } else {
        match unchunked(wire.skip(end + 4 + length)) {
            Some(rest) => Some(wire.subrange(end + 2, end + 2 + length) + rest),
            None => None,
        }
    }
}

/// What a chunked transfer puts on the wire carries the bytes of its chunks.
pub proof fn law_chunked_transfer_is_read_back(sent: u64, chunks: Seq<Seq<u8>>)
    ensures
        downloaded(None, sent, chunks) matches Ok(wire) ==> unchunked(wire) == Some(
            all_bytes(chunks),
        ),
    decreases chunks.len(),
{
    if chunks.len() == 0 {
        let wire = last_chunk();
        crate::response::lemma_first_crlf_unique(wire, 1);
        assert(wire.take(1) =~= seq![48u8]);
        assert(seq![48u8].drop_last() =~= Seq::<u8>::empty());
        assert(hex_value(seq![48u8].drop_last()) == 0);
        assert(hex_value(seq![48u8]) == 0);
        assert(wire.skip(3) =~= crlf());
    } else {
        let (step, next) = download_step(None, sent, Some(chunks[0].len()));
        law_chunked_transfer_is_read_back(next, chunks.skip(1));
        match step {
            DownloadStep::Framed => {
                let chunk = chunks[0];
                if let Ok(rest) = downloaded(None, next, chunks.skip(1)) {
                    let wire = framed(chunk) + rest;
                    let digits = lower_hex(chunk.len());
                    let end = digits.len() as int;
                    lemma_hex_value(chunk.len());
                    assert forall|i: int| 0 <= i < end implies !(#[trigger] wire[i] == 13
                        && wire[i + 1] == 10) by {
                        assert(wire[i] == digits[i]);
                    }
                    assert(wire[end] == 13 && wire[end + 1] == 10);
                    crate::response::lemma_first_crlf_unique(wire, end);
                    assert(wire.take(end) =~= digits);
                    assert(wire.subrange(end + 2 + chunk.len(), end + 4 + chunk.len()) =~= crlf());
                    assert(wire.skip(end + 4 + chunk.len()) =~= rest);
                    assert(wire.subrange(end + 2, end + 2 + chunk.len()) =~= chunk);
                }
            },
            DownloadStep::Skip => {
                assert(all_bytes(chunks) =~= all_bytes(chunks.skip(1)));
            },
            _ => {},
        }
    }
}

/// How a response is written.
#[derive(Clone, Copy, Debug)]
pub enum WritePlan {
    /// The head alone.
    Head,
    /// The head and a body that is at hand in one piece.
    Whole,
    /// The head and the segments of a reader.
    Segments,
    /// The head, then a body that comes in chunks.
    Stream(Download),
}

/// Decides how a response is written.
pub fn write_plan(response: &Response) -> (plan: WritePlan)
    ensures
        if !response@.sends_body() {
            plan is Head
        } else {
            match response@.body {
                BodyModel::Whole(_) => plan is Whole,
                BodyModel::Segmented { reader: _, length: _ } => plan is Segments,
                BodyModel::Stream(length) => plan matches WritePlan::Stream(download)
                    && download.length() == length && download.sent() == 0,
            }
        },
{
    if !response.sends_body() {
        return WritePlan::Head;
    }
    match response.body() {
        ResponseBody::Segmented(_) => WritePlan::Segments,
        ResponseBody::Stream(stream) => WritePlan::Stream(Download::new(stream.content_length)),
        _ => WritePlan::Whole,
    }
}

/// Buffers that are written one after the other, perhaps in several writes.
#[derive(Debug)]
pub struct VectoredWrite<'a> {
    pending: Vec<&'a [u8]>,
}

proof fn lemma_concat_front(parts: Seq<&[u8]>)
    requires
        parts.len() > 0,
    ensures
        concat(parts) == parts[0]@ + concat(parts.skip(1)),
    decreases parts.len(),
{
    if parts.len() == 1 {
        assert(parts.drop_last() =~= Seq::empty());
        assert(parts.skip(1) =~= Seq::empty());
        assert(concat(parts.drop_last()) =~= Seq::empty());
        assert(concat(parts) =~= parts[0]@ + concat(parts.skip(1)));
    } else {
        lemma_concat_front(parts.drop_last());
        assert(parts.drop_last().skip(1) =~= parts.skip(1).drop_last());
        assert(concat(parts) =~= parts[0]@ + concat(parts.skip(1)));
    }
}

/// `buffers` without the empty ones at their front.
fn without_empty_front<'a>(buffers: Vec<&'a [u8]>) -> (rest: Vec<&'a [u8]>)
    ensures
        concat(rest@) == concat(buffers@),
        rest@.len() > 0 ==> rest@[0]@.len() > 0,
{
    let mut rest = buffers;
    while rest.len() > 0 && rest[0].len() == 0
        invariant
            concat(rest@) == concat(buffers@),
        decreases rest@.len(),
    {
        let ghost parts = rest@;
        proof {
            lemma_concat_front(parts);
        }
        rest.remove(0);
        assert(rest@ =~= parts.skip(1));
        assert(concat(rest@) =~= concat(parts));
    }
    rest
}

impl<'a> VectoredWrite<'a> {
    #[verifier::type_invariant]
    spec fn no_empty_front(self) -> bool {
        self.pending@.len() > 0 ==> self.pending@[0]@.len() > 0
    }

    /// The bytes that are still to be written.
    pub closed spec fn remaining(self) -> Seq<u8> {
        concat(self.pending@)
    }

    pub fn new(buffers: Vec<&'a [u8]>) -> (write: Self)
        ensures
            write.remaining() == concat(buffers@),
    {
        VectoredWrite { pending: without_empty_front(buffers) }
    }

    pub fn is_complete(&self) -> (complete: bool)
        ensures
            complete == (self.remaining().len() == 0),
    {
        proof {
            use_type_invariant(self);
            if self.pending@.len() > 0 {
                lemma_concat_front(self.pending@);
            }
        }
        self.pending.len() == 0
    }

    /// The buffers for the next write.
    pub fn buffers(&self) -> (buffers: &Vec<&'a [u8]>)
        ensures
            concat(buffers@) == self.remaining(),
    {
        &self.pending
    }

    /// Takes note that a write took this many bytes; one that took none gives
    /// `false` and is an error.
    pub fn advance(&mut self, written: usize) -> (progress: bool)
        requires
            written <= old(self).remaining().len(),
        ensures
            progress == (written > 0),
            final(self).remaining() == old(self).remaining().skip(written as int),
    {
        let ghost all = self.remaining();
        let mut pending: Vec<&'a [u8]> = Vec::new();
        std::mem::swap(&mut pending, &mut self.pending);
        let mut left: usize = written;
        while left > 0
            invariant
                left <= written <= all.len(),
                concat(pending@) == all.skip(written - left),
            decreases pending@.len() + left,
        {
            assert(concat(pending@).len() == all.len() - (written - left));
            assert(pending@.len() > 0);
            proof {
                lemma_concat_front(pending@);
            }
            let ghost parts = pending@;
            let ghost open = left;
            let first = pending[0];
            if first.len() <= left {
                left -= first.len();
                pending.remove(0);
                assert(pending@ =~= parts.skip(1));
            } else {
                let rest = &first[left..first.len()];
                left = 0;
                pending[0] = rest;
                proof {
                    lemma_concat_front(pending@);
                    assert(pending@.skip(1) =~= parts.skip(1));
                }
            }
            assert(all.skip(written - left) =~= concat(parts).skip(open - left));
            assert(concat(pending@) =~= concat(parts).skip(open - left));
        }
        self.pending = without_empty_front(pending);
        written > 0
    }
}

/// Whether `bytes` are lines that are not empty, each ended by CRLF.
spec fn whole_lines(bytes: Seq<u8>) -> bool {
    &&& bytes.len() > 0 ==> bytes.last() == 10
    &&& forall|i: int|
        0 <= i < bytes.len() && #[trigger] bytes[i] == 10 ==> i >= 2 && bytes[i - 1] == 13
            && !line_byte(bytes[i - 2])
    &&& forall|i: int|
        0 <= i < bytes.len() && #[trigger] bytes[i] == 13 ==> i + 1 < bytes.len() && bytes[i + 1]
            == 10
}

/// Whether neither byte of a line ending stands in `bytes`.
pub open spec fn unbroken(bytes: Seq<u8>) -> bool {
    forall|i: int| 0 <= i < bytes.len() ==> !line_byte(#[trigger] bytes[i])
}

/// Whether a text has no line breaks.
pub open spec fn unbroken_text(text: Option<Seq<char>>) -> bool {
    text matches Some(text) ==> !text.contains('\r') && !text.contains('\n')
}

proof fn lemma_lines_join(left: Seq<u8>, right: Seq<u8>)
    requires
        whole_lines(left),
        whole_lines(right),
    ensures
        whole_lines(left + right),
{
    let both = left + right;
    let n = left.len() as int;
    assert forall|i: int| 0 <= i < both.len() && #[trigger] both[i] == 10 implies i >= 2 && both[i
        - 1] == 13 && !line_byte(both[i - 2]) by {
        if i < n {
            assert(left[i] == 10);
        } else {
            assert(right[i - n] == 10);
            assert(right[i - n - 1] == both[i - 1]);
            assert(right[i - n - 2] == both[i - 2]);
        }
    }
    assert forall|i: int| 0 <= i < both.len() && #[trigger] both[i] == 13 implies i + 1
        < both.len() && both[i + 1] == 10 by {
        if i < n {
            assert(left[i] == 13);
        } else {
            assert(right[i - n] == 13);
            assert(right[i - n + 1] == both[i + 1]);
        }
    }
}

proof fn lemma_one_line(line: Seq<u8>)
    requires
        line.len() > 0,
        unbroken(line),
    ensures
        whole_lines(line + crlf()),
{
    let bytes = line + crlf();
    let n = line.len() as int;
    assert forall|i: int| 0 <= i < bytes.len() && #[trigger] bytes[i] == 10 implies i >= 2
        && bytes[i - 1] == 13 && !line_byte(bytes[i - 2]) by {
        if i < n {
            assert(!line_byte(line[i]));
        } else {
            assert(i == n + 1);
            assert(!line_byte(line[n - 1]));
        }
    }
    assert forall|i: int| 0 <= i < bytes.len() && #[trigger] bytes[i] == 13 implies i + 1
        < bytes.len() && bytes[i + 1] == 10 by {
        if i < n {
            assert(!line_byte(line[i]));
        }
    }
}

proof fn lemma_unbroken_text(text: Seq<char>)
    requires
        !text.contains('\r'),
        !text.contains('\n'),
    ensures
        unbroken(encode_utf8(text)),
{
    crate::text::lemma_ascii_in_encoding(text, '\r');
    crate::text::lemma_ascii_in_encoding(text, '\n');
    let bytes = encode_utf8(text);
    assert forall|i: int| 0 <= i < bytes.len() implies !line_byte(#[trigger] bytes[i]) by {
        assert(bytes.contains(bytes[i]));
    }
}

proof fn lemma_decimal_text(value: nat)
    ensures
        !decimal(value).contains('\r'),
        !decimal(value).contains('\n'),
        decimal(value).len() > 0,
    decreases value,
{
    if value >= 10 {
        lemma_decimal_text(value / 10);
        let before = decimal(value / 10);
        let all = decimal(value);
        assert forall|i: int| 0 <= i < all.len() implies all[i] != '\r' && all[i] != '\n' by {
            if i < before.len() {
                assert(before[i] == all[i]);
                assert(before.contains(before[i]));
            }
        }
    }
}

proof fn lemma_head_line(label: &str, value: Option<Seq<char>>)
    requires
        label@.len() > 0,
        !label@.contains('\r'),
        !label@.contains('\n'),
        unbroken_text(value),
    ensures
        whole_lines(head_line(label.spec_bytes(), value)),
{
    if let Some(text) = value {
        lemma_unbroken_text(label@);
        lemma_unbroken_text(text);
        encode_utf8_first_scalar(label@);
        let line = label.spec_bytes() + encode_utf8(text);
        assert forall|i: int| 0 <= i < line.len() implies !line_byte(#[trigger] line[i]) by {
            if i < label.spec_bytes().len() {
                assert(!line_byte(label.spec_bytes()[i]));
            } else {
                assert(!line_byte(encode_utf8(text)[i - label.spec_bytes().len()]));
            }
        }
        lemma_one_line(line);
    }
}

proof fn lemma_block_lines(block: Seq<u8>)
    requires
        crate::response::block_error(block) is None,
    ensures
        whole_lines(block),
    decreases block.len(),
{
    if block.len() > 0 {
        crate::response::lemma_first_crlf(block);
        let end = crate::response::first_crlf(block);
        let line = block.take(end);
        let rest = block.skip(end + 2);
        lemma_block_lines(rest);
        assert(crate::response::line_error(line) is None);
        assert forall|i: int| 0 <= i < line.len() implies !line_byte(#[trigger] line[i]) by {
            assert(line.contains(line[i]));
        }
        lemma_one_line(line);
        lemma_lines_join(line + crlf(), rest);
        assert(block =~= line + crlf() + rest);
    }
}

/// The only blank line of an encoded head is the one that ends it: whoever
/// looks for the end of a head finds that of this one.
#[verifier::rlimit(40)]
pub proof fn law_head_ends_with_its_only_blank_line(
    response: ResponseModel,
    reason: Seq<char>,
    close: bool,
)
    requires
        crate::response::block_error(response.headers) is None,
        unbroken_text(Some(reason)),
        unbroken_text(response.content_type),
        unbroken_text(response.allow),
        unbroken_text(response.www_authenticate),
    ensures
        is_head_end(
            response_head(response, reason, close),
            response_head(response, reason, close).len() as int,
        ),
{
    reveal_strlit("HTTP/1.1 ");
    reveal_strlit(" ");
    reveal_strlit("Content-Type: ");
    reveal_strlit("Allow: ");
    reveal_strlit("WWW-Authenticate: ");
    reveal_strlit("Content-Length: ");
    reveal_strlit("Transfer-Encoding: chunked");
    reveal_strlit("Connection: close");
    let status = "HTTP/1.1 "@ + decimal(response.status as nat) + " "@ + reason;
    lemma_decimal_text(response.status as nat);
    assert forall|i: int| 0 <= i < status.len() implies status[i] != '\r' && status[i] != '\n' by {
        let digits = decimal(response.status as nat);
        let j = i - 9;
        let k = j - digits.len() - 1;
        if 0 <= j < digits.len() {
            assert(digits.contains(digits[j]));
        } else if k >= 0 {
            assert(reason.contains(reason[k]));
        }
    }
    lemma_unbroken_text(status);
    lemma_encode_concat("HTTP/1.1 "@ + decimal(response.status as nat) + " "@, reason);
    lemma_encode_concat("HTTP/1.1 "@ + decimal(response.status as nat), " "@);
    lemma_encode_concat("HTTP/1.1 "@, decimal(response.status as nat));
    is_ascii_chars_encode_utf8("HTTP/1.1 "@);
    let first = encode_utf8(status);
    lemma_one_line(first);
    assert(status_line(response.status, reason) =~= first + crlf());
    lemma_block_lines(response.headers);
    lemma_head_line("Content-Type: ", response.content_type);
    lemma_head_line("Allow: ", response.allow);
    lemma_head_line("WWW-Authenticate: ", response.www_authenticate);
    if let Some(length) = response.body.content_length() {
        lemma_decimal_text(length as nat);
        lemma_head_line("Content-Length: ", Some(decimal(length as nat)));
    }
    lemma_fixed_line("Transfer-Encoding: chunked");
    lemma_fixed_line("Connection: close");
    let a = status_line(response.status, reason);
    let b = a + response.headers;
    let c = b + head_line("Content-Type: ".spec_bytes(), response.content_type);
    let d = c + head_line("Allow: ".spec_bytes(), response.allow);
    let e = d + head_line("WWW-Authenticate: ".spec_bytes(), response.www_authenticate);
    let f = e + framing(response);
    let lines = f + connection_line(close);
    lemma_lines_join(a, response.headers);
    lemma_lines_join(b, head_line("Content-Type: ".spec_bytes(), response.content_type));
    lemma_lines_join(c, head_line("Allow: ".spec_bytes(), response.allow));
    lemma_lines_join(d, head_line("WWW-Authenticate: ".spec_bytes(), response.www_authenticate));
    lemma_lines_join(e, framing(response));
    lemma_lines_join(f, connection_line(close));
    let head = lines + crlf();
    assert(head == response_head(response, reason, close));
    assert(head[0] == 72) by {
        assert("HTTP/1.1 ".spec_bytes()[0] == 72);
    }
    lemma_lines_end(lines);
}

proof fn lemma_encode_concat(left: Seq<char>, right: Seq<char>)
    ensures
        encode_utf8(left + right) == encode_utf8(left) + encode_utf8(right),
    decreases left.len(),
{
    if left.len() == 0 {
        assert(left + right =~= right);
        assert(encode_utf8(left) + encode_utf8(right) =~= encode_utf8(right));
    } else {
        lemma_encode_concat(left.drop_first(), right);
        assert((left + right).drop_first() =~= left.drop_first() + right);
        assert(encode_utf8(left + right) =~= encode_utf8(left) + encode_utf8(right));
    }
}

proof fn lemma_fixed_line(line: &str)
    requires
        line@.len() > 0,
        !line@.contains('\r'),
        !line@.contains('\n'),
    ensures
        whole_lines(line.spec_bytes() + crlf()),
{
    lemma_unbroken_text(line@);
    encode_utf8_first_scalar(line@);
    lemma_one_line(line.spec_bytes());
}

proof fn lemma_lines_end(lines: Seq<u8>)
    requires
        whole_lines(lines),
        lines.len() > 0,
        !line_byte(lines[0]),
    ensures
        is_head_end(lines + crlf(), lines.len() as int + 2),
{
    let head = lines + crlf();
    let n = lines.len() as int;
    assert(!line_byte(head.take(n + 2)[0]));
    assert(head[n + 1] == 10 && head[n] == 13 && head[n - 1] == lines[n - 1]);
    assert forall|k: int| 0 <= k < n + 2 implies !ends_head(head, k) by {
        if k > 0 && head[k - 1] == 10 {
            assert(k - 1 < n);
            assert(lines[k - 1] == 10);
            assert(lines[k - 2] == head[k - 2]);
            assert(lines[k - 3] == head[k - 3]);
        }
    }
}

} // verus!
