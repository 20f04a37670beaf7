//! Responses and the validation of their headers.
use brz_ds::{EphemeralBytes, EphemeralBytesArena};
use bytes::Bytes;
use http::HeaderMap;

use vstd::prelude::*;
use vstd::string::StringSliceAdditionalSpecFns;

#[allow(unused_imports)]
use crate::arena::{frozen_bytes, shared_bytes};
use crate::arena::shared_slice;
use crate::headers::map_lines;
#[allow(unused_imports)]
use crate::headers::{has_line, header_lines, line_models};
#[allow(unused_imports)]
use crate::server::write::{concat, crlf};
use crate::server::write::{crlf_bytes, encode_parts, push_part};
use crate::text::{eq_ignore_case, find_byte, same_bytes};
#[allow(unused_imports)]
use crate::text::{first_of, lemma_first_of, same_ignoring_case};

verus! {

/// A status code of three digits.
#[derive(Clone, Copy, Debug, PartialEq, Eq, Structural)]
pub struct StatusCode {
    code: u16,
}

impl StatusCode {
    #[verifier::type_invariant]
    spec fn three_digits(self) -> bool {
        100 <= self.code <= 999
    }

    /// The code as a number.
    pub closed spec fn number(self) -> u16 {
        self.code
    }

    /// The status with this number, which has to have three digits.
    pub fn new(code: u16) -> (status: Self)
        requires
            100 <= code <= 999,
        ensures
            status.number() == code,
    {
        StatusCode { code }
    }

    /// The status with this number, if it has three digits.
    pub fn from_u16(code: u16) -> (status: Option<Self>)
        ensures
            match status {
                Some(status) => 100 <= code <= 999 && status.number() == code,
                None => !(100 <= code <= 999),
            },
    {
        if 100 <= code && code <= 999 {
            Some(StatusCode { code })
        } else {
            None
        }
    }

    pub fn as_u16(self) -> (code: u16)
        ensures
            code == self.number(),
            100 <= code <= 999,
    {
        proof {
            use_type_invariant(&self);
        }
        self.code
    }
}

/// The declared length of a body whose chunks are handed over one by one.
#[derive(Clone, Copy, Debug)]
pub struct ResponseStream {
    pub content_length: Option<u64>,
}

/// A body in the segments of a reader, with the number of bytes that were
/// unread when it was made a body.
#[derive(Debug)]
pub struct SegmentedBody {
    reader: brz_io::Reader,
    length: u64,
}

/// The segmented reader of `brz_io`.
#[verifier::external_type_specification]
#[verifier::external_body]
pub struct ExReader(brz_io::Reader);

impl SegmentedBody {
    pub closed spec fn length(self) -> u64 {
        self.length
    }

    /// The reader whose unread bytes are the body.
    pub closed spec fn reader(self) -> brz_io::Reader {
        self.reader
    }

    pub fn new(reader: brz_io::Reader, length: u64) -> (body: Self)
        ensures
            body.reader() == reader,
            body.length() == length,
    {
        SegmentedBody { reader, length }
    }

    pub fn into_reader(self) -> (reader: brz_io::Reader)
        ensures
            reader == self.reader(),
    {
        self.reader
    }
}

/// A body that is written without being copied by the library.
#[derive(Debug)]
pub enum ResponseBody {
    Empty,
    Static(&'static [u8]),
    Arena(EphemeralBytes),
    Owned(Bytes),
    Segmented(SegmentedBody),
    Stream(ResponseStream),
}

/// What is known of a body.
#[verifier::ext_equal]
pub enum BodyModel {
    /// All bytes are at hand.
    Whole(Seq<u8>),
    /// The bytes are those that a reader holds in segments; their number is
    /// known.
    Segmented { reader: brz_io::Reader, length: u64 },
    /// The bytes come in chunks; their number may be declared.
    Stream(Option<u64>),
}

impl BodyModel {
    pub open spec fn content_length(self) -> Option<u64> {
        match self {
            BodyModel::Whole(bytes) => Some(bytes.len() as u64),
            BodyModel::Segmented { reader: _, length } => Some(length),
            BodyModel::Stream(length) => length,
        }
    }
}

impl View for ResponseBody {
    type V = BodyModel;

    open spec fn view(&self) -> BodyModel {
        match self {
            ResponseBody::Empty => BodyModel::Whole(Seq::empty()),
            ResponseBody::Static(bytes) => BodyModel::Whole(bytes@),
            ResponseBody::Arena(bytes) => BodyModel::Whole(frozen_bytes(*bytes)),
            ResponseBody::Owned(bytes) => BodyModel::Whole(shared_bytes(*bytes)),
            ResponseBody::Segmented(body) => BodyModel::Segmented {
                reader: body.reader(),
                length: body.length(),
            },
            ResponseBody::Stream(stream) => BodyModel::Stream(stream.content_length),
        }
    }
}

impl ResponseBody {
    /// The number of bytes, absent for a stream without a declared length.
    pub fn content_length(&self) -> (length: Option<u64>)
        ensures
            length == self@.content_length(),
    {
        match self {
            ResponseBody::Empty => Some(0),
            ResponseBody::Static(bytes) => Some(bytes.len() as u64),
            ResponseBody::Arena(bytes) => Some(bytes.as_slice().len() as u64),
            ResponseBody::Owned(bytes) => Some(shared_slice(bytes).len() as u64),
            ResponseBody::Segmented(body) => Some(body.length),
            ResponseBody::Stream(stream) => stream.content_length,
        }
    }

    /// The bytes that are at hand in one piece.
    pub fn as_slice(&self) -> (bytes: &[u8])
        ensures
            match self@ {
                BodyModel::Whole(whole) => bytes@ == whole,
                _ => bytes@.len() == 0,
            },
    {
        match self {
            ResponseBody::Static(bytes) => bytes,
            ResponseBody::Arena(bytes) => bytes.as_slice(),
            ResponseBody::Owned(bytes) => shared_slice(bytes),
            _ => {
                proof {
                    reveal_strlit("");
                }
                "".as_bytes()
            },
        }
    }
}

/// Whether a byte may stand in a header's name.
pub open spec fn token_byte(byte: u8) -> bool {
    ||| byte == 33
    ||| 35 <= byte <= 39
    ||| byte == 42
    ||| byte == 43
    ||| byte == 45
    ||| byte == 46
    ||| 94 <= byte <= 96
    ||| byte == 124
    ||| byte == 126
    ||| 48 <= byte <= 57
    ||| 65 <= byte <= 90
    ||| 97 <= byte <= 122
}

pub fn is_token(byte: u8) -> (token: bool)
    ensures
        token == token_byte(byte),
{
    byte == 33 || (35 <= byte && byte <= 39) || byte == 42 || byte == 43 || byte == 45 || byte == 46
        || (94 <= byte && byte <= 96) || byte == 124 || byte == 126 || (48 <= byte && byte <= 57)
        || (65 <= byte && byte <= 90) || (97 <= byte && byte <= 122)
}

/// Why a block of headers was refused.
#[derive(Clone, Copy, Debug, PartialEq, Eq, Structural)]
pub enum HeaderBlockError {
    MissingLineEnding,
    EmptyLine,
    InvalidName,
    InvalidValue,
    ReservedName,
}

impl HeaderBlockError {
    pub open spec fn message(self) -> Seq<char> {
        match self {
            HeaderBlockError::MissingLineEnding => "response header lines must end with CRLF"@,
            HeaderBlockError::EmptyLine => "response header block must not contain an empty line"@,
            HeaderBlockError::InvalidName => "response header name is invalid"@,
            HeaderBlockError::InvalidValue => "response header value contains a line break"@,
            HeaderBlockError::ReservedName => "response header is owned by the server runtime"@,
        }
    }

    pub fn to_string(&self) -> (message: String)
        ensures
            message@ == self.message(),
    {
        match self {
            HeaderBlockError::MissingLineEnding => String::from_str(
                "response header lines must end with CRLF",
            ),
            HeaderBlockError::EmptyLine => String::from_str(
                "response header block must not contain an empty line",
            ),
            HeaderBlockError::InvalidName => String::from_str("response header name is invalid"),
            HeaderBlockError::InvalidValue => String::from_str(
                "response header value contains a line break",
            ),
            HeaderBlockError::ReservedName => String::from_str(
                "response header is owned by the server runtime",
            ),
        }
    }
}

/// Position of the first CRLF, or the length where there is none.
pub open spec fn first_crlf(bytes: Seq<u8>) -> int
    decreases bytes.len(),
{
    if bytes.len() < 2 {
        bytes.len() as int
    } else if bytes[0] == 13 && bytes[1] == 10 {
        0
    } else {
        1 + first_crlf(bytes.skip(1))
    }
}

/// Whether a header of this name is set by the server alone.
pub open spec fn reserved_name(name: Seq<u8>) -> bool {
    ||| same_ignoring_case(name, "connection".spec_bytes())
    ||| same_ignoring_case(name, "content-length".spec_bytes())
    ||| same_ignoring_case(name, "transfer-encoding".spec_bytes())
}

/// Whether `name` can name a header.
pub open spec fn is_name(name: Seq<u8>) -> bool {
    name.len() > 0 && forall|i: int| 0 <= i < name.len() ==> token_byte(#[trigger] name[i])
}

/// What is wrong with one line, given without its line ending.
pub open spec fn line_error(line: Seq<u8>) -> Option<HeaderBlockError> {
    let colon = first_of(line, 58);
    if line.len() == 0 {
        Some(HeaderBlockError::EmptyLine)
    } else if line.contains(13) || line.contains(10) {
        Some(HeaderBlockError::InvalidValue)
    } else if colon == line.len() || !is_name(line.take(colon)) {
        Some(HeaderBlockError::InvalidName)
    } else if reserved_name(line.take(colon)) {
        Some(HeaderBlockError::ReservedName)
    } else {
        None
    }
}

/// What is wrong with the first bad line of a block.
pub open spec fn block_error(bytes: Seq<u8>) -> Option<HeaderBlockError>
    decreases bytes.len(),
{
    let end = first_crlf(bytes);
    if bytes.len() == 0 {
        None
    } else if end >= bytes.len() {
        Some(HeaderBlockError::MissingLineEnding)
    } else if line_error(bytes.take(end)) is Some {
        line_error(bytes.take(end))
    } else {
        proof {
            lemma_first_crlf(bytes);
        }
        block_error(bytes.skip(end + 2))
    }
}

pub proof fn lemma_first_crlf(bytes: Seq<u8>)
    ensures
        0 <= first_crlf(bytes) <= bytes.len(),
        first_crlf(bytes) < bytes.len() ==> first_crlf(bytes) + 1 < bytes.len() && bytes[first_crlf(
            bytes,
        )] == 13 && bytes[first_crlf(bytes) + 1] == 10,
        forall|i: int|
            0 <= i < first_crlf(bytes) && i + 1 < bytes.len() ==> !(#[trigger] bytes[i] == 13 && bytes[i
                + 1] == 10),
    decreases bytes.len(),
{
    if bytes.len() >= 2 && !(bytes[0] == 13 && bytes[1] == 10) {
        let rest = bytes.skip(1);
        lemma_first_crlf(rest);
        assert forall|i: int|
            0 <= i < first_crlf(bytes) && i + 1 < bytes.len() implies !(#[trigger] bytes[i] == 13
            && bytes[i + 1] == 10) by {
            if i > 0 {
                assert(rest[i - 1] == bytes[i]);
                assert(rest[i - 1 + 1] == bytes[i + 1]);
            }
        }
    }
}

pub proof fn lemma_first_crlf_unique(bytes: Seq<u8>, at: int)
    requires
        0 <= at,
        at + 1 < bytes.len(),
        bytes[at] == 13,
        bytes[at + 1] == 10,
        forall|i: int| 0 <= i < at ==> !(#[trigger] bytes[i] == 13 && bytes[i + 1] == 10),
    ensures
        first_crlf(bytes) == at,
{
    lemma_first_crlf(bytes);
    if first_crlf(bytes) < at {
        assert(bytes[first_crlf(bytes)] == 13);
    }
    if first_crlf(bytes) > at {
        assert(bytes[at] == 13);
    }
}

fn find_crlf(bytes: &[u8]) -> (at: usize)
    ensures
        at == first_crlf(bytes@),
{
    let mut i: usize = 0;
    assert(bytes@.skip(0) =~= bytes@);
    while bytes.len() - i >= 2
        invariant
            0 <= i <= bytes@.len(),
            first_crlf(bytes@) == i + first_crlf(bytes@.skip(i as int)),
        decreases bytes@.len() - i,
    {
        if bytes[i] == 13 && bytes[i + 1] == 10 {
            return i;
        }
        assert(bytes@.skip(i as int).skip(1) =~= bytes@.skip(i + 1));
        i += 1;
    }
    bytes.len()
}

fn check_line(line: &[u8]) -> (error: Option<HeaderBlockError>)
    ensures
        error == line_error(line@),
{
    proof {
        lemma_first_of(line@, 58);
        lemma_first_of(line@, 13);
        lemma_first_of(line@, 10);
    }
    if line.len() == 0 {
        return Some(HeaderBlockError::EmptyLine);
    }
    if find_byte(line, 13) < line.len() || find_byte(line, 10) < line.len() {
        return Some(HeaderBlockError::InvalidValue);
    }
    let colon: usize = find_byte(line, 58);
    if colon == line.len() {
        return Some(HeaderBlockError::InvalidName);
    }
    let name = &line[0..colon];
    assert(name@ =~= line@.take(colon as int));
    if !is_header_name(name) {
        return Some(HeaderBlockError::InvalidName);
    }
    if is_reserved(name) {
        return Some(HeaderBlockError::ReservedName);
    }
    None
}

pub fn is_header_name(name: &[u8]) -> (valid: bool)
    ensures
        valid == is_name(name@),
{
    if name.len() == 0 {
        return false;
    }
    let mut i: usize = 0;
    while i < name.len()
        invariant
            0 <= i <= name@.len(),
            forall|j: int| 0 <= j < i ==> token_byte(#[trigger] name@[j]),
        decreases name@.len() - i,
    {
        if !is_token(name[i]) {
            return false;
        }
        i += 1;
    }
    true
}

pub fn is_reserved(name: &[u8]) -> (reserved: bool)
    ensures
        reserved == reserved_name(name@),
{
    eq_ignore_case(name, "connection".as_bytes()) || eq_ignore_case(
        name,
        "content-length".as_bytes(),
    ) || eq_ignore_case(name, "transfer-encoding".as_bytes())
}

/// Checks that every line is a header that the application may set.
pub fn validate_header_block(bytes: &[u8]) -> (checked: Result<(), HeaderBlockError>)
    ensures
        match checked {
            Ok(()) => block_error(bytes@) is None,
            Err(error) => block_error(bytes@) == Some(error),
        },
{
    let mut rest = bytes;
    while rest.len() > 0
        invariant
            block_error(bytes@) == block_error(rest@),
        decreases rest@.len(),
    {
        proof {
            lemma_first_crlf(rest@);
        }
        let end: usize = find_crlf(rest);
        if end >= rest.len() {
            return Err(HeaderBlockError::MissingLineEnding);
        }
        let line = &rest[0..end];
        assert(line@ =~= rest@.take(end as int));
        if let Some(error) = check_line(line) {
            return Err(error);
        }
        let next = &rest[end + 2..rest.len()];
        assert(next@ =~= rest@.skip(end + 2));
        rest = next;
    }
    Ok(())
}

/// A checked block of header lines, each of which ends in CRLF.
///
/// It may hold any headers but `Connection`, `Content-Length` and
/// `Transfer-Encoding`, which the server sets.
#[derive(Debug)]
pub struct HeaderBlock(EphemeralBytes);

impl HeaderBlock {
    #[verifier::type_invariant]
    spec fn checked(self) -> bool {
        block_error(frozen_bytes(self.0)) is None
    }

    /// The encoded lines.
    pub closed spec fn lines(self) -> Seq<u8> {
        frozen_bytes(self.0)
    }

    /// Checks an encoded block without copying it.
    pub fn new(bytes: EphemeralBytes) -> (block: Result<Self, HeaderBlockError>)
        ensures
            match block {
                Ok(block) => block_error(frozen_bytes(bytes)) is None && block.lines()
                    == frozen_bytes(bytes),
                Err(error) => block_error(frozen_bytes(bytes)) == Some(error),
            },
    {
        match validate_header_block(bytes.as_slice()) {
            Ok(()) => Ok(HeaderBlock(bytes)),
            Err(error) => Err(error),
        }
    }

    pub fn as_slice(&self) -> (bytes: &[u8])
        ensures
            bytes@ == self.lines(),
            block_error(bytes@) is None,
    {
        proof {
            use_type_invariant(self);
        }
        self.0.as_slice()
    }
}

/// Blocks that pass the check pass it when one follows the other.
pub proof fn law_blocks_can_be_joined(left: Seq<u8>, right: Seq<u8>)
    requires
        block_error(left) is None,
        block_error(right) is None,
    ensures
        block_error(left + right) is None,
    decreases left.len(),
{
    if left.len() == 0 {
        assert(left + right =~= right);
    } else {
        lemma_first_crlf(left);
        let end = first_crlf(left);
        let rest = left.skip(end + 2);
        law_blocks_can_be_joined(rest, right);
        let both = left + right;
        assert forall|i: int| 0 <= i < end implies !(#[trigger] both[i] == 13 && both[i + 1]
            == 10) by {
            assert(left[i] == both[i]);
            assert(left[i + 1] == both[i + 1]);
        }
        lemma_first_crlf_unique(both, end);
        assert(both.take(end) =~= left.take(end));
        assert(both.skip(end + 2) =~= rest + right);
    }
}

/// A line of a proper name that is not reserved, and a value without line
/// breaks, passes the check.
pub proof fn lemma_line_passes(name: Seq<u8>, value: Seq<u8>)
    requires
        is_name(name),
        !reserved_name(name),
        !value.contains(13),
        !value.contains(10),
    ensures
        block_error(name + seq![58u8, 32] + value + seq![13u8, 10]) is None,
{
    let line = name + seq![58u8, 32] + value;
    let block = line + seq![13u8, 10];
    assert forall|i: int| 0 <= i < line.len() implies line[i] != 13 && line[i] != 10 by {
        if i < name.len() {
            assert(token_byte(name[i]));
        } else if i >= name.len() + 2 {
            assert(value[i - name.len() - 2] == line[i]);
        }
    }
    assert forall|i: int| 0 <= i < line.len() implies !(#[trigger] block[i] == 13 && block[i + 1]
        == 10) by {
        assert(block[i] == line[i]);
    }
    lemma_first_crlf_unique(block, line.len() as int);
    assert(block.take(line.len() as int) =~= line);
    assert(block.skip(line.len() as int + 2) =~= Seq::empty());
    assert forall|i: int| 0 <= i < name.len() implies line[i] != 58 by {
        assert(token_byte(name[i]));
    }
    crate::text::lemma_first_of_unique(line, 58, name.len() as int);
    assert(line.take(name.len() as int) =~= name);
    assert(block_error(Seq::<u8>::empty()) is None);
}

/// The lines of blocks, one block after the other.
pub open spec fn joined_lines(blocks: Seq<HeaderBlock>) -> Seq<u8>
    decreases blocks.len(),
{
    if blocks.len() == 0 {
        Seq::empty()
    } else {
        joined_lines(blocks.drop_last()) + blocks.last().lines()
    }
}

/// A complete response.
#[derive(Debug)]
pub struct Response {
    status: StatusCode,
    body: ResponseBody,
    content_type: Option<&'static str>,
    headers: Vec<HeaderBlock>,
    allow: Option<&'static str>,
    www_authenticate: Option<&'static str>,
    close: bool,
    suppress_body: bool,
    conversion_failed: bool,
}

/// What a [`Response`] says.
#[verifier::ext_equal]
pub struct ResponseModel {
    pub status: u16,
    pub body: BodyModel,
    pub content_type: Option<Seq<char>>,
    /// Encoded lines of the application's own headers.
    pub headers: Seq<u8>,
    pub allow: Option<Seq<char>>,
    pub www_authenticate: Option<Seq<char>>,
    /// Whether the connection is closed behind the response.
    pub close: bool,
    /// Whether the body is left out, as in the answer to `HEAD`.
    pub suppress_body: bool,
    /// Whether this stands for a result that could not be turned into a response.
    pub conversion_failed: bool,
}

impl ResponseModel {
    /// A response of a status and a body alone.
    pub open spec fn plain(status: u16, body: BodyModel) -> Self {
        ResponseModel {
            status,
            body,
            content_type: None,
            headers: Seq::empty(),
            allow: None,
            www_authenticate: None,
            close: false,
            suppress_body: false,
            conversion_failed: false,
        }
    }

    pub open spec fn empty(status: u16) -> Self {
        ResponseModel::plain(status, BodyModel::Whole(Seq::empty()))
    }

    /// The response to a request whose result could not be encoded.
    pub open spec fn failed_conversion() -> Self {
        ResponseModel { close: true, conversion_failed: true, ..ResponseModel::empty(500) }
    }

    /// Whether a response of this status can have a body.
    pub open spec fn permits_body(self) -> bool {
        self.status >= 200 && self.status != 204 && self.status != 304
    }

    pub open spec fn sends_body(self) -> bool {
        !self.suppress_body && self.permits_body()
    }

    /// Whether the body is framed by chunks.
    pub open spec fn chunked(self) -> bool {
        self.permits_body() && self.body.content_length() is None
    }

    /// A new status, which a failed conversion does not take.
    pub open spec fn with_status(self, status: u16) -> Self {
        if self.conversion_failed {
            self
        } else {
            ResponseModel { status, ..self }
        }
    }

    /// The declared length: a stream takes it, any other body has to have it.
    pub open spec fn with_length(self, length: u64) -> Self {
        match self.body {
            BodyModel::Stream(_) => ResponseModel { body: BodyModel::Stream(Some(length)), ..self },
            _ => if self.body.content_length() == Some(length) {
                self
            } else {
                ResponseModel::failed_conversion()
            },
        }
    }
}

pub open spec fn text_of(value: Option<&str>) -> Option<Seq<char>> {
    match value {
        Some(value) => Some(value@),
        None => None,
    }
}

impl View for Response {
    type V = ResponseModel;

    closed spec fn view(&self) -> ResponseModel {
        ResponseModel {
            status: self.status.number(),
            body: self.body@,
            content_type: text_of(self.content_type),
            headers: joined_lines(self.headers@),
            allow: text_of(self.allow),
            www_authenticate: text_of(self.www_authenticate),
            close: self.close,
            suppress_body: self.suppress_body,
            conversion_failed: self.conversion_failed,
        }
    }
}

impl Response {
    pub fn new(status: StatusCode, body: ResponseBody) -> (response: Self)
        ensures
            response@ == ResponseModel::plain(status.number(), body@),
    {
        Response {
            status,
            body,
            content_type: None,
            headers: Vec::new(),
            allow: None,
            www_authenticate: None,
            close: false,
            suppress_body: false,
            conversion_failed: false,
        }
    }

    pub fn empty(status: StatusCode) -> (response: Self)
        ensures
            response@ == ResponseModel::empty(status.number()),
    {
        Response::new(status, ResponseBody::Empty)
    }

    pub fn owned_bytes(status: StatusCode, body: Bytes) -> (response: Self)
        ensures
            response@ == ResponseModel::plain(
                status.number(),
                BodyModel::Whole(shared_bytes(body)),
            ),
    {
        Response::new(status, ResponseBody::Owned(body))
    }

    pub fn static_bytes(status: StatusCode, body: &'static [u8]) -> (response: Self)
        ensures
            response@ == ResponseModel::plain(status.number(), BodyModel::Whole(body@)),
    {
        Response::new(status, ResponseBody::Static(body))
    }

    pub fn bytes(status: StatusCode, body: EphemeralBytes) -> (response: Self)
        ensures
            response@ == ResponseModel::plain(
                status.number(),
                BodyModel::Whole(frozen_bytes(body)),
            ),
    {
        Response::new(status, ResponseBody::Arena(body))
    }

    pub fn ok(body: EphemeralBytes) -> (response: Self)
        ensures
            response@ == ResponseModel::plain(200, BodyModel::Whole(frozen_bytes(body))),
    {
        Response::bytes(StatusCode::new(200), body)
    }

    /// A body in the unread segments of a reader.
    pub fn segmented(status: StatusCode, body: SegmentedBody) -> (response: Self)
        ensures
            response@ == ResponseModel::plain(
                status.number(),
                (BodyModel::Segmented { reader: body.reader(), length: body.length() }),
            ),
    {
        Response::new(status, ResponseBody::Segmented(body))
    }

    /// A body whose chunks are handed over later.
    pub fn stream() -> (response: Self)
        ensures
            response@ == (ResponseModel {
                content_type: Some("application/octet-stream"@),
                ..ResponseModel::plain(200, BodyModel::Stream(None))
            }),
    {
        Response::new(
            StatusCode::new(200),
            ResponseBody::Stream(ResponseStream { content_length: None }),
        ).content_type("application/octet-stream")
    }

    pub fn method_not_allowed(allow: &'static str) -> (response: Self)
        ensures
            response@ == (ResponseModel { allow: Some(allow@), ..ResponseModel::empty(405) }),
    {
        Response::empty(StatusCode::new(405)).allow(allow)
    }

    /// An empty answer with a challenge to authenticate.
    pub fn unauthorized(challenge: &'static str) -> (response: Self)
        ensures
            response@ == (ResponseModel {
                www_authenticate: Some(challenge@),
                ..ResponseModel::empty(401)
            }),
    {
        Response::empty(StatusCode::new(401)).www_authenticate(challenge)
    }

    pub fn conversion_failure() -> (response: Self)
        ensures
            response@ == ResponseModel::failed_conversion(),
    {
        let mut response = Response::empty(StatusCode::new(500)).close();
        response.conversion_failed = true;
        response
    }

    pub fn with_status(self, status: StatusCode) -> (response: Self)
        ensures
            response@ == self@.with_status(status.number()),
    {
        let mut response = self;
        if !response.conversion_failed {
            response.status = status;
        }
        response
    }

    pub fn set_content_length(self, length: u64) -> (response: Self)
        ensures
            response@ == self@.with_length(length),
    {
        let mut response = self;
        if let ResponseBody::Stream(_) = response.body {
            response.body = ResponseBody::Stream(ResponseStream { content_length: Some(length) });
            return response;
        }
        match response.body.content_length() {
            Some(actual) if actual == length => response,
            _ => Response::conversion_failure(),
        }
    }

    pub fn suppress_body(&mut self)
        ensures
            final(self)@ == (ResponseModel { suppress_body: true, ..old(self)@ }),
    {
        self.suppress_body = true;
    }

    pub fn sends_body(&self) -> (sends: bool)
        ensures
            sends == self@.sends_body(),
    {
        !self.suppress_body && self.permits_body()
    }

    pub fn permits_body(&self) -> (permits: bool)
        ensures
            permits == self@.permits_body(),
    {
        let code: u16 = self.status.as_u16();
        code >= 200 && code != 204 && code != 304
    }

    /// Sets the content type to a text without line breaks.
    pub fn content_type(self, content_type: &'static str) -> (response: Self)
        ensures
            response@ == (ResponseModel { content_type: Some(content_type@), ..self@ }),
    {
        let mut response = self;
        response.content_type = Some(content_type);
        response
    }

    /// Appends a block of the application's own headers.
    pub fn headers(self, headers: HeaderBlock) -> (response: Self)
        ensures
            response@ == (ResponseModel { headers: self@.headers + headers.lines(), ..self@ }),
    {
        let mut response = self;
        proof {
            assert(response.headers@.push(headers).drop_last() =~= response.headers@);
        }
        response.headers.push(headers);
        response
    }

    pub fn allow(self, allow: &'static str) -> (response: Self)
        ensures
            response@ == (ResponseModel { allow: Some(allow@), ..self@ }),
    {
        let mut response = self;
        response.allow = Some(allow);
        response
    }

    pub fn www_authenticate(self, challenge: &'static str) -> (response: Self)
        ensures
            response@ == (ResponseModel { www_authenticate: Some(challenge@), ..self@ }),
    {
        let mut response = self;
        response.www_authenticate = Some(challenge);
        response
    }

    /// Closes the connection behind this response.
    pub fn close(self) -> (response: Self)
        ensures
            response@ == (ResponseModel { close: true, ..self@ }),
    {
        let mut response = self;
        response.close = true;
        response
    }

    pub fn status(&self) -> (status: StatusCode)
        ensures
            status.number() == self@.status,
    {
        self.status
    }

    pub fn body(&self) -> (body: &ResponseBody)
        ensures
            body@ == self@.body,
    {
        &self.body
    }

    pub fn into_body(self) -> (body: ResponseBody)
        ensures
            body@ == self@.body,
    {
        self.body
    }

    pub fn content_type_ref(&self) -> (content_type: Option<&'static str>)
        ensures
            text_of(content_type) == self@.content_type,
    {
        self.content_type
    }

    /// The blocks of the application's own headers, in order.
    pub fn header_blocks(&self) -> (blocks: &Vec<HeaderBlock>)
        ensures
            joined_lines(blocks@) == self@.headers,
    {
        &self.headers
    }

    pub fn allow_ref(&self) -> (allow: Option<&'static str>)
        ensures
            text_of(allow) == self@.allow,
    {
        self.allow
    }

    pub fn www_authenticate_ref(&self) -> (challenge: Option<&'static str>)
        ensures
            text_of(challenge) == self@.www_authenticate,
    {
        self.www_authenticate
    }

    pub fn should_close(&self) -> (close: bool)
        ensures
            close == self@.close,
    {
        self.close
    }
}

/// A failed conversion keeps its status, whatever status is asked for later.
pub proof fn law_failed_conversion_keeps_its_status(status: u16)
    ensures
        ResponseModel::failed_conversion().with_status(status)
            == ResponseModel::failed_conversion(),
{
}

/// A header line with its line ending.
pub open spec fn encoded_line(line: (Seq<u8>, Seq<u8>)) -> Seq<u8> {
    line.0 + seq![58u8, 32] + line.1 + crlf()
}

/// Header lines, one after the other.
pub open spec fn encoded_lines(lines: Seq<(Seq<u8>, Seq<u8>)>) -> Seq<u8>
    decreases lines.len(),
{
    if lines.len() == 0 {
        Seq::empty()
    } else {
        encoded_lines(lines.drop_last()) + encoded_line(lines.last())
    }
}

impl ResponseModel {
    /// The response with more headers, unless one of them is the server's own
    /// or they are more than an allocation can hold. A content type among them
    /// takes the place of the response's own.
    pub open spec fn with_lines(self, lines: Seq<(Seq<u8>, Seq<u8>)>) -> Self {
        let headers = self.headers + encoded_lines(lines);
        if lines.len() == 0 {
            self
        } else if headers.len() > isize::MAX || block_error(headers) is Some {
            ResponseModel::failed_conversion()
        } else {
            ResponseModel {
                headers,
                content_type: if has_line(lines, "content-type".spec_bytes()) {
                    None
                } else {
                    self.content_type
                },
                ..self
            }
        }
    }
}

/// Adds the lines of blocks to `parts`.
pub(crate) fn push_blocks<'a>(parts: &mut Vec<&'a [u8]>, blocks: &'a Vec<HeaderBlock>)
    ensures
        concat(final(parts)@) == concat(old(parts)@) + joined_lines(blocks@),
{
    let ghost before = concat(parts@);
    let mut i: usize = 0;
    assert(concat(parts@) =~= before + joined_lines(blocks@.take(0)));
    while i < blocks.len()
        invariant
            0 <= i <= blocks@.len(),
            concat(parts@) == before + joined_lines(blocks@.take(i as int)),
        decreases blocks@.len() - i,
    {
        assert(blocks@.take(i + 1).drop_last() =~= blocks@.take(i as int));
        push_part(parts, blocks[i].as_slice());
        assert(concat(parts@) =~= before + joined_lines(blocks@.take(i + 1)));
        i += 1;
    }
    assert(blocks@.take(i as int) =~= blocks@);
}

/// The bytes between a header's name and its value.
fn colon_bytes() -> (bytes: &'static [u8])
    ensures
        bytes@ == seq![58u8, 32],
{
    proof {
        reveal_strlit(": ");
        vstd::utf8::is_ascii_chars_encode_utf8(": "@);
        assert(": ".spec_bytes() =~= seq![58u8, 32]);
    }
    ": ".as_bytes()
}

impl Response {
    /// Adds the headers of a map behind those that the response has.
    pub fn with_http_headers(
        self,
        headers: &HeaderMap,
        arena: &EphemeralBytesArena,
    ) -> (response: Self)
        ensures
            response@ == self@.with_lines(header_lines(*headers)),
    {
        let lines = map_lines(headers);
        let ghost models = header_lines(*headers);
        if lines.len() == 0 {
            assert(models.len() == 0);
            return self;
        }
        let ghost model = self@;
        let mut response = self;
        let mut parts: Vec<&[u8]> = Vec::new();
        push_blocks(&mut parts, &response.headers);
        assert(concat(parts@) =~= model.headers);
        let mut replaced = false;
        let mut i: usize = 0;
        assert(models.take(0) =~= Seq::empty());
        assert(concat(parts@) =~= model.headers + encoded_lines(models.take(0)));
        while i < lines.len()
            invariant
                0 <= i <= lines@.len(),
                models == line_models(lines@),
                concat(parts@) == model.headers + encoded_lines(models.take(i as int)),
                replaced == has_line(models.take(i as int), "content-type".spec_bytes()),
            decreases lines@.len() - i,
        {
            let line = lines[i];
            let ghost done = models.take(i as int);
            let ghost next = models.take(i + 1);
            assert(next.drop_last() =~= done);
            assert(models[i as int] == (line.0.spec_bytes(), line.1@));
            if same_bytes(line.0.as_bytes(), "content-type".as_bytes()) {
                replaced = true;
                assert(next[i as int].0 == "content-type".spec_bytes());
            }
            proof {
                if has_line(done, "content-type".spec_bytes()) {
                    let k = choose|k: int|
                        0 <= k < done.len() && (#[trigger] done[k]).0 == "content-type".spec_bytes();
                    assert(next[k].0 == "content-type".spec_bytes());
                }
                if has_line(next, "content-type".spec_bytes()) && !replaced {
                    let k = choose|k: int|
                        0 <= k < next.len() && (#[trigger] next[k]).0 == "content-type".spec_bytes();
                    assert(done[k].0 == "content-type".spec_bytes());
                }
            }
            let ghost before = concat(parts@);
            push_part(&mut parts, line.0.as_bytes());
            push_part(&mut parts, colon_bytes());
            push_part(&mut parts, line.1);
            push_part(&mut parts, crlf_bytes());
            assert(concat(parts@) =~= before + encoded_line(models[i as int]));
            assert(concat(parts@) =~= model.headers + encoded_lines(next));
            i += 1;
        }
        assert(models.take(i as int) =~= models);
        let encoded = match encode_parts(arena, &parts) {
            Some(encoded) => encoded,
            None => {
                return Response::conversion_failure();
            },
        };
        match HeaderBlock::new(encoded) {
            Ok(block) => {
                if replaced {
                    response.content_type = None;
                }
                proof {
                    reveal_with_fuel(joined_lines, 2);
                    assert(joined_lines(seq![block]) =~= block.lines());
                }
                response.headers = vec![block];
                response
            },
            Err(_) => Response::conversion_failure(),
        }
    }
}

/// Whether a line can be one of the application's headers.
pub open spec fn proper_line(line: (Seq<u8>, Seq<u8>)) -> bool {
    is_name(line.0) && !reserved_name(line.0) && !line.1.contains(13) && !line.1.contains(10)
}

pub proof fn lemma_proper_lines_pass(lines: Seq<(Seq<u8>, Seq<u8>)>)
    requires
        forall|i: int| 0 <= i < lines.len() ==> proper_line(#[trigger] lines[i]),
    ensures
        block_error(encoded_lines(lines)) is None,
    decreases lines.len(),
{
    if lines.len() > 0 {
        assert forall|i: int| 0 <= i < lines.drop_last().len() implies proper_line(
            #[trigger] lines.drop_last()[i],
        ) by {
            assert(proper_line(lines[i]));
        }
        lemma_proper_lines_pass(lines.drop_last());
        assert(proper_line(lines[lines.len() - 1]));
        lemma_line_passes(lines.last().0, lines.last().1);
        law_blocks_can_be_joined(encoded_lines(lines.drop_last()), encoded_line(lines.last()));
    }
}

/// Headers with proper names that the server does not set itself, and values
/// without line breaks, are never refused.
pub proof fn law_proper_headers_are_kept(
    response: ResponseModel,
    lines: Seq<(Seq<u8>, Seq<u8>)>,
)
    requires
        block_error(response.headers) is None,
        forall|i: int| 0 <= i < lines.len() ==> proper_line(#[trigger] lines[i]),
        (response.headers + encoded_lines(lines)).len() <= isize::MAX,
    ensures
        response.with_lines(lines).headers == response.headers + encoded_lines(lines),
        response.with_lines(lines).status == response.status,
        response.with_lines(lines).body == response.body,
        block_error(response.with_lines(lines).headers) is None,
{
    lemma_proper_lines_pass(lines);
    law_blocks_can_be_joined(response.headers, encoded_lines(lines));
    if lines.len() == 0 {
        assert(response.headers + encoded_lines(lines) =~= response.headers);
    }
}

} // verus!
