//! The server's rules: limits, request framing and responses.
use brz_ds::EphemeralBytesArena;

use vstd::prelude::*;
use vstd::string::StringSliceAdditionalSpecFns;
#[allow(unused_imports)]
use vstd::utf8::{encode_utf8, is_ascii_chars_encode_utf8};

use crate::cors::Cors;
use crate::error::Error;
use crate::request::Header;
#[allow(unused_imports)]
use crate::response::text_of;
use crate::response::StatusCode;
#[allow(unused_imports)]
use crate::text::{decimal, lemma_first_of, same_ignoring_case, split};
use crate::text::{eq_ignore_case, find_byte};

pub mod connection;
pub mod receive;
pub mod write;

verus! {

/// How many headers a request can have.
pub const MAX_REQUEST_HEADERS: usize = 64;

/// A span of time.
#[derive(Clone, Copy, Debug, PartialEq, Eq, Structural)]
pub struct Duration {
    pub nanos: u128,
}

impl Duration {
    pub fn from_secs(seconds: u64) -> (duration: Self)
        ensures
            duration.nanos == seconds * 1_000_000_000,
    {
        Duration { nanos: seconds as u128 * 1_000_000_000 }
    }

    pub fn is_zero(&self) -> (zero: bool)
        ensures
            zero == (self.nanos == 0),
    {
        self.nanos == 0
    }

    /// Whether the whole seconds fit in 64 bits, as those of the clock do.
    pub open spec fn fits(self) -> bool {
        self.nanos / 1_000_000_000 <= u64::MAX
    }

    pub open spec fn whole_millis(self) -> nat {
        (self.nanos / 1_000_000) as nat
    }

    pub fn seconds(&self) -> (seconds: u64)
        requires
            self.fits(),
        ensures
            seconds == self.nanos / 1_000_000_000,
    {
        (self.nanos / 1_000_000_000) as u64
    }

    pub fn subsecond_nanos(&self) -> (nanos: u32)
        ensures
            nanos == self.nanos % 1_000_000_000,
    {
        (self.nanos % 1_000_000_000) as u32
    }

    pub fn as_millis(&self) -> (millis: u128)
        ensures
            millis == self.whole_millis(),
    {
        self.nanos / 1_000_000
    }
}

/// Limits and socket policy of a server.
#[derive(Debug)]
pub struct ServerConfig {
    /// Storage for request bodies, response bodies and generated headers.
    pub arena: EphemeralBytesArena,
    /// Size of the first receive segment.
    pub initial_request_segment_bytes: usize,
    /// The largest rest of a body that is reserved in one piece; zero turns
    /// this off.
    pub max_preallocated_request_body_bytes: usize,
    /// Origin policy, if the application serves other origins.
    pub cors: Option<Cors>,
    /// How many connections there can be at a time.
    pub max_connections: usize,
    /// How many bytes a request's head can have.
    pub max_request_head_bytes: usize,
    /// How many bytes a request's body can have.
    pub max_request_body_bytes: usize,
    /// How many bytes all bodies that are being handled can have together.
    pub max_in_flight_request_body_bytes: usize,
    /// Time for reading and handling a request, or for an inactive write.
    pub request_timeout: Duration,
    /// Time for connections to end after shutdown began.
    pub shutdown_grace: Duration,
    /// Whether sockets send small packets without delay.
    pub tcp_nodelay: bool,
}

/// The first rule that a configuration breaks.
pub open spec fn config_error(config: ServerConfig) -> Option<Seq<char>> {
    if config.initial_request_segment_bytes == 0 {
        Some("initial_request_segment_bytes must be greater than zero"@)
    } else if config.cors matches Some(cors) && !cors@.is_valid() {
        Some("invalid CORS policy"@)
    } else if config.max_connections == 0 {
        Some("max_connections must be greater than zero"@)
    } else if config.max_request_head_bytes == 0 {
        Some("max_request_head_bytes must be greater than zero"@)
    } else if config.max_request_body_bytes == 0 {
        Some("max_request_body_bytes must be greater than zero"@)
    } else if config.max_in_flight_request_body_bytes < config.max_request_body_bytes {
        Some("max_in_flight_request_body_bytes must be at least max_request_body_bytes"@)
    } else if config.max_request_body_bytes > u32::MAX {
        Some("max_request_body_bytes must not exceed u32::MAX"@)
    } else if config.request_timeout.nanos == 0 {
        Some("request_timeout must be greater than zero"@)
    } else if config.shutdown_grace.nanos == 0 {
        Some("shutdown_grace must be greater than zero"@)
    } else {
        None
    }
}

impl ServerConfig {
    /// Bounded defaults around an application's arena.
    pub fn new(arena: EphemeralBytesArena) -> (config: Self)
        ensures
            config == (ServerConfig {
                arena,
                initial_request_segment_bytes: 2048,
                max_preallocated_request_body_bytes: 65536,
                cors: None,
                max_connections: 65536,
                max_request_head_bytes: 32768,
                max_request_body_bytes: 8388608,
                max_in_flight_request_body_bytes: 67108864,
                request_timeout: (Duration { nanos: 15_000_000_000 }),
                shutdown_grace: (Duration { nanos: 10_000_000_000 }),
                tcp_nodelay: true,
            }),
            config_error(config) is None,
    {
        ServerConfig {
            arena,
            initial_request_segment_bytes: 2 * 1024,
            max_preallocated_request_body_bytes: 64 * 1024,
            cors: None,
            max_connections: 65_536,
            max_request_head_bytes: 32 * 1024,
            max_request_body_bytes: 8 * 1024 * 1024,
            max_in_flight_request_body_bytes: 64 * 1024 * 1024,
            request_timeout: Duration::from_secs(15),
            shutdown_grace: Duration::from_secs(10),
            tcp_nodelay: true,
        }
    }

    /// Reports the first rule that the configuration breaks.
    pub fn validate(&self) -> (checked: Result<(), Error>)
        ensures
            match checked {
                Ok(()) => config_error(*self) is None,
                Err(error) => error matches Error::InvalidConfig(reason) && config_error(*self)
                    == Some(reason@),
            },
    {
        if self.initial_request_segment_bytes == 0 {
            return Err(
                Error::InvalidConfig("initial_request_segment_bytes must be greater than zero"),
            );
        }
        if let Some(cors) = &self.cors {
            if !cors.validate() {
                return Err(Error::InvalidConfig("invalid CORS policy"));
            }
        }
        if self.max_connections == 0 {
            return Err(Error::InvalidConfig("max_connections must be greater than zero"));
        }
        if self.max_request_head_bytes == 0 {
            return Err(Error::InvalidConfig("max_request_head_bytes must be greater than zero"));
        }
        if self.max_request_body_bytes == 0 {
            return Err(Error::InvalidConfig("max_request_body_bytes must be greater than zero"));
        }
        if self.max_in_flight_request_body_bytes < self.max_request_body_bytes {
            return Err(
                Error::InvalidConfig(
                    "max_in_flight_request_body_bytes must be at least max_request_body_bytes",
                ),
            );
        }
        if self.max_request_body_bytes as u64 > u32::MAX as u64 {
            return Err(Error::InvalidConfig("max_request_body_bytes must not exceed u32::MAX"));
        }
        if self.request_timeout.is_zero() {
            return Err(Error::InvalidConfig("request_timeout must be greater than zero"));
        }
        if self.shutdown_grace.is_zero() {
            return Err(Error::InvalidConfig("shutdown_grace must be greater than zero"));
        }
        Ok(())
    }
}

/// Why a request was not handled.
#[derive(Debug)]
pub enum RequestFailure {
    BadRequest,
    HeadersTooLarge,
    BodyTooLarge,
    ExpectationFailed,
    UnsupportedTransferEncoding,
    UnsupportedVersion,
    ServiceUnavailable,
    Closed,
    /// An input or output error, by its message.
    Io(String),
}

impl RequestFailure {
    pub open spec fn code(self) -> u16 {
        match self {
            RequestFailure::HeadersTooLarge => 431,
            RequestFailure::BodyTooLarge => 413,
            RequestFailure::ExpectationFailed => 417,
            RequestFailure::UnsupportedTransferEncoding => 501,
            RequestFailure::UnsupportedVersion => 505,
            RequestFailure::ServiceUnavailable => 503,
            _ => 400,
        }
    }

    /// The status that the client is answered with.
    pub fn status(&self) -> (status: StatusCode)
        ensures
            status.number() == self.code(),
    {
        match self {
            RequestFailure::HeadersTooLarge => StatusCode::new(431),
            RequestFailure::BodyTooLarge => StatusCode::new(413),
            RequestFailure::ExpectationFailed => StatusCode::new(417),
            RequestFailure::UnsupportedTransferEncoding => StatusCode::new(501),
            RequestFailure::UnsupportedVersion => StatusCode::new(505),
            RequestFailure::ServiceUnavailable => StatusCode::new(503),
            _ => StatusCode::new(400),
        }
    }

    pub open spec fn message(self) -> Seq<char> {
        match self {
            RequestFailure::BadRequest => "malformed HTTP request"@,
            RequestFailure::HeadersTooLarge => "HTTP request headers exceed configured limit"@,
            RequestFailure::BodyTooLarge => "HTTP request body exceeds configured limit"@,
            RequestFailure::ExpectationFailed => "HTTP Expect header is unsupported"@,
            RequestFailure::UnsupportedTransferEncoding => "HTTP transfer encoding is unsupported"@,
            RequestFailure::UnsupportedVersion => "HTTP version is unsupported"@,
            RequestFailure::ServiceUnavailable => "HTTP request body capacity is unavailable"@,
            RequestFailure::Closed => "peer closed connection"@,
            RequestFailure::Io(error) => error@,
        }
    }

    pub fn to_string(&self) -> (message: String)
        ensures
            message@ == self.message(),
    {
        match self {
            RequestFailure::BadRequest => String::from_str("malformed HTTP request"),
            RequestFailure::HeadersTooLarge => String::from_str(
                "HTTP request headers exceed configured limit",
            ),
            RequestFailure::BodyTooLarge => String::from_str(
                "HTTP request body exceeds configured limit",
            ),
            RequestFailure::ExpectationFailed => String::from_str(
                "HTTP Expect header is unsupported",
            ),
            RequestFailure::UnsupportedTransferEncoding => String::from_str(
                "HTTP transfer encoding is unsupported",
            ),
            RequestFailure::UnsupportedVersion => String::from_str("HTTP version is unsupported"),
            RequestFailure::ServiceUnavailable => String::from_str(
                "HTTP request body capacity is unavailable",
            ),
            RequestFailure::Closed => String::from_str("peer closed connection"),
            RequestFailure::Io(error) => error.clone(),
        }
    }
}

/// A space or a tab.
pub open spec fn blank(byte: u8) -> bool {
    byte == 32 || byte == 9
}

/// `bytes` without the blanks at their start.
pub open spec fn without_leading_blanks(bytes: Seq<u8>) -> Seq<u8>
    decreases bytes.len(),
{
    if bytes.len() > 0 && blank(bytes[0]) {
        without_leading_blanks(bytes.skip(1))
    } else {
        bytes
    }
}

/// `bytes` without the blanks at their end.
pub open spec fn without_trailing_blanks(bytes: Seq<u8>) -> Seq<u8>
    decreases bytes.len(),
{
    if bytes.len() > 0 && blank(bytes.last()) {
        without_trailing_blanks(bytes.drop_last())
    } else {
        bytes
    }
}

/// `bytes` without the blanks around them.
pub open spec fn trimmed(bytes: Seq<u8>) -> Seq<u8> {
    without_trailing_blanks(without_leading_blanks(bytes))
}

/// Removes the spaces and tabs around `bytes`.
pub fn trim_ascii(bytes: &[u8]) -> (trimmed_bytes: &[u8])
    ensures
        trimmed_bytes@ == trimmed(bytes@),
{
    let mut start: usize = 0;
    assert(bytes@.skip(0) =~= bytes@);
    while start < bytes.len() && (bytes[start] == 32 || bytes[start] == 9)
        invariant
            0 <= start <= bytes@.len(),
            without_leading_blanks(bytes@) == without_leading_blanks(bytes@.skip(start as int)),
        decreases bytes@.len() - start,
    {
        assert(bytes@.skip(start as int).skip(1) =~= bytes@.skip(start + 1));
        start += 1;
    }
    let ghost rest = bytes@.skip(start as int);
    assert(without_leading_blanks(bytes@) == rest);
    let mut end: usize = bytes.len();
    assert(bytes@.subrange(start as int, end as int) =~= rest);
    while end > start && (bytes[end - 1] == 32 || bytes[end - 1] == 9)
        invariant
            0 <= start <= end <= bytes@.len(),
            without_trailing_blanks(rest) == without_trailing_blanks(
                bytes@.subrange(start as int, end as int),
            ),
        decreases end,
    {
        assert(bytes@.subrange(start as int, end as int).drop_last() =~= bytes@.subrange(
            start as int,
            end - 1,
        ));
        end -= 1;
    }
    &bytes[start..end]
}

pub open spec fn is_digit(byte: u8) -> bool {
    48 <= byte <= 57
}

pub open spec fn all_digits(bytes: Seq<u8>) -> bool {
    forall|i: int| 0 <= i < bytes.len() ==> is_digit(#[trigger] bytes[i])
}

/// The number that decimal digits write.
pub open spec fn digits_value(digits: Seq<u8>) -> nat
    decreases digits.len(),
{
    if digits.len() == 0 {
        0
    } else {
        digits_value(digits.drop_last()) * 10 + (digits.last() - 48) as nat
    }
}

/// The length that the value of `Content-Length` declares, if it declares one.
pub open spec fn declared_length(value: Seq<u8>) -> Option<nat> {
    let digits = trimmed(value);
    if digits.len() > 0 && all_digits(digits) && digits_value(digits) <= usize::MAX {
        Some(digits_value(digits))
    } else {
        None
    }
}

/// The bytes of a number's decimal digits are digits, and they write it.
pub proof fn lemma_decimal_bytes(value: nat)
    ensures
        encode_utf8(decimal(value)).len() > 0,
        all_digits(encode_utf8(decimal(value))),
        digits_value(encode_utf8(decimal(value))) == value,
    decreases value,
{
    lemma_decimal_characters(value);
    is_ascii_chars_encode_utf8(decimal(value));
    let bytes = encode_utf8(decimal(value));
    assert(all_digits(bytes)) by {
        assert forall|i: int| 0 <= i < bytes.len() implies is_digit(#[trigger] bytes[i]) by {
            assert('0' <= decimal(value)[i] <= '9');
        }
    }
    if value < 10 {
        assert(bytes.drop_last() =~= Seq::empty());
        assert(bytes.last() == 48 + value);
        assert(digits_value(bytes.drop_last()) == 0);
    } else {
        lemma_decimal_bytes(value / 10);
        lemma_decimal_characters(value / 10);
        is_ascii_chars_encode_utf8(decimal(value / 10));
        let front = encode_utf8(decimal(value / 10));
        assert(bytes.drop_last() =~= front) by {
            assert forall|i: int| 0 <= i < front.len() implies bytes.drop_last()[i]
                == front[i] by {
                assert(decimal(value)[i] == decimal(value / 10)[i]);
            }
        }
        assert(bytes.last() == 48 + value % 10);
    }
}

proof fn lemma_decimal_characters(value: nat)
    ensures
        decimal(value).len() > 0,
        forall|i: int| 0 <= i < decimal(value).len() ==> '0' <= #[trigger] decimal(value)[i] <= '9',
    decreases value,
{
    if value >= 10 {
        lemma_decimal_characters(value / 10);
        assert forall|i: int| 0 <= i < decimal(value).len() implies '0' <= #[trigger] decimal(
            value,
        )[i] <= '9' by {
            if i < decimal(value / 10).len() {
                assert(decimal(value)[i] == decimal(value / 10)[i]);
            }
        }
    }
}

/// A length is declared as it is written: what stands in a head as the length
/// of a body is read back as that length.
pub proof fn law_written_lengths_are_read_back(length: nat)
    requires
        length <= usize::MAX,
    ensures
        declared_length(encode_utf8(decimal(length))) == Some(length),
{
    lemma_decimal_bytes(length);
    let bytes = encode_utf8(decimal(length));
    assert(is_digit(bytes[0]) && is_digit(bytes.last()));
    assert(trimmed(bytes) == bytes);
}

/// More digits write no smaller number.
pub proof fn lemma_digits_value_grows(digits: Seq<u8>, count: int)
    requires
        0 <= count <= digits.len(),
        all_digits(digits),
    ensures
        digits_value(digits.take(count)) <= digits_value(digits),
    decreases digits.len(),
{
    if count < digits.len() {
        assert(all_digits(digits.drop_last())) by {
            assert forall|i: int| 0 <= i < digits.drop_last().len() implies is_digit(
                #[trigger] digits.drop_last()[i],
            ) by {
                assert(is_digit(digits[i]));
            }
        }
        lemma_digits_value_grows(digits.drop_last(), count);
        assert(digits.drop_last().take(count) =~= digits.take(count));
        assert(is_digit(digits[digits.len() - 1]));
    } else {
        assert(digits.take(count) =~= digits);
    }
}

/// Reads the value of `Content-Length`.
pub fn parse_content_length(value: &[u8]) -> (length: Result<usize, RequestFailure>)
    ensures
        match length {
            Ok(length) => declared_length(value@) == Some(length as nat),
            Err(failure) => failure is BadRequest && declared_length(value@) is None,
        },
{
    let digits = trim_ascii(value);
    if digits.len() == 0 {
        return Err(RequestFailure::BadRequest);
    }
    let mut i: usize = 0;
    while i < digits.len()
        invariant
            0 <= i <= digits@.len(),
            digits@ == trimmed(value@),
            forall|j: int| 0 <= j < i ==> is_digit(#[trigger] digits@[j]),
        decreases digits@.len() - i,
    {
        if digits[i] < 48 || digits[i] > 57 {
            assert(!is_digit(digits@[i as int]));
            return Err(RequestFailure::BadRequest);
        }
        i += 1;
    }
    let mut length: usize = 0;
    let mut j: usize = 0;
    while j < digits.len()
        invariant
            0 <= j <= digits@.len(),
            digits@ == trimmed(value@),
            all_digits(digits@),
            length == digits_value(digits@.take(j as int)),
        decreases digits@.len() - j,
    {
        proof {
            assert(digits@.take(j + 1).drop_last() =~= digits@.take(j as int));
            lemma_digits_value_grows(digits@, j + 1);
            assert(is_digit(digits@[j as int]));
        }
        let digit: usize = (digits[j] - 48) as usize;
        length = match length.checked_mul(10) {
            Some(tenfold) => match tenfold.checked_add(digit) {
                Some(next) => next,
                None => {
                    return Err(RequestFailure::BadRequest);
                },
            },
            None => {
                return Err(RequestFailure::BadRequest);
            },
        };
        j += 1;
    }
    assert(digits@.take(j as int) =~= digits@);
    Ok(length)
}

/// Whether a list, separated by commas, holds a token, in any case.
pub open spec fn holds_token(value: Seq<u8>, token: Seq<u8>) -> bool {
    exists|i: int|
        0 <= i < split(value, 44).len() && same_ignoring_case(
            trimmed(#[trigger] split(value, 44)[i]),
            token,
        )
}

/// Whether a list, separated by commas, holds a token, in any case.
pub fn header_contains_token(value: &[u8], expected: &[u8]) -> (found: bool)
    ensures
        found == holds_token(value@, expected@),
{
    let ghost all = split(value@, 44);
    let ghost mut done: int = 0;
    let mut rest = value;
    assert(all.skip(0) =~= all);
    loop
        invariant
            0 <= done < all.len(),
            all == split(value@, 44),
            split(rest@, 44) == all.skip(done),
            forall|i: int|
                0 <= i < done ==> !same_ignoring_case(trimmed(#[trigger] all[i]), expected@),
        decreases rest@.len(),
    {
        let at: usize = find_byte(rest, 44);
        proof {
            lemma_first_of(rest@, 44);
        }
        let token = &rest[0..at];
        assert(token@ =~= rest@.take(at as int));
        assert(split(rest@, 44)[0] =~= token@);
        assert(all[done] == token@);
        if eq_ignore_case(trim_ascii(token), expected) {
            return true;
        }
        if at == rest.len() {
            assert(split(rest@, 44).len() == 1);
            return false;
        }
        let next = &rest[at + 1..rest.len()];
        proof {
            assert(next@ =~= rest@.skip(at + 1));
            assert(split(rest@, 44).skip(1) =~= split(next@, 44));
            assert(all.skip(done).skip(1) =~= all.skip(done + 1));
            crate::text::lemma_join_split(next@, 44);
            done = done + 1;
        }
        rest = next;
    }
}

/// Why a head could not be parsed.
#[derive(Clone, Copy, Debug, PartialEq, Eq, Structural)]
pub enum HeadError {
    TooManyHeaders,
    Malformed,
}

/// A parsed head.
#[derive(Debug)]
pub struct ParsedHead<'a> {
    /// How many bytes it has, with the blank line.
    pub length: usize,
    /// The minor version of HTTP/1.
    pub version: Option<u8>,
    pub method: Option<&'a str>,
    pub path: Option<&'a str>,
    pub headers: Vec<Header<'a>>,
}

/// What a [`ParsedHead`] says.
#[verifier::ext_equal]
pub struct HeadModel {
    pub length: usize,
    pub version: Option<u8>,
    pub method: Option<Seq<char>>,
    pub path: Option<Seq<char>>,
    pub headers: Seq<(Seq<char>, Seq<u8>)>,
}

pub open spec fn header_models(headers: Seq<Header<'_>>) -> Seq<(Seq<char>, Seq<u8>)> {
    headers.map_values(|header: Header<'_>| (header.name@, header.value@))
}

impl<'a> View for ParsedHead<'a> {
    type V = HeadModel;

    open spec fn view(&self) -> HeadModel {
        HeadModel {
            length: self.length,
            version: self.version,
            method: text_of(self.method),
            path: text_of(self.path),
            headers: header_models(self.headers@),
        }
    }
}

/// What `httparse::Request::parse` makes of `head` with room for this many
/// headers: a complete head, an incomplete one, or an error.
pub uninterp spec fn parsed_head(
    headers: usize,
    head: Seq<u8>,
) -> Result<Option<HeadModel>, HeadError>;

/// `httparse::Request::parse`: reads a request line and headers. Which bytes it
/// accepts is only named.
#[verifier::external_body]
pub(crate) fn parse_head(limit: usize, head: &[u8]) -> (parsed: Result<Option<ParsedHead<'_>>, HeadError>)
    ensures
        head_outcome(parsed) == parsed_head(limit, head@),
{
    let mut headers = vec![httparse::EMPTY_HEADER; limit];
    let mut request = httparse::Request::new(&mut headers);
    let length = match request.parse(head) {
        Ok(httparse::Status::Complete(length)) => length,
        Ok(httparse::Status::Partial) => return Ok(None),
        Err(httparse::Error::TooManyHeaders) => return Err(HeadError::TooManyHeaders),
        Err(_) => return Err(HeadError::Malformed),
    };
    let (version, method, path) = (request.version, request.method, request.path);
    let headers = request.headers.iter().map(|h| Header { name: h.name, value: h.value }).collect();
    Ok(Some(ParsedHead { length, version, method, path, headers }))
}

pub open spec fn head_outcome(parsed: Result<Option<ParsedHead<'_>>, HeadError>) -> Result<
    Option<HeadModel>,
    HeadError,
> {
    match parsed {
        Ok(Some(head)) => Ok(Some(head@)),
        Ok(None) => Ok(None),
        Err(error) => Err(error),
    }
}

/// The failure that a parse error is reported as.
pub open spec fn parse_failure(error: HeadError) -> RequestFailure {
    match error {
        HeadError::TooManyHeaders => RequestFailure::HeadersTooLarge,
        HeadError::Malformed => RequestFailure::BadRequest,
    }
}

pub fn map_parse_error(error: HeadError) -> (failure: RequestFailure)
    ensures
        failure == parse_failure(error),
{
    match error {
        HeadError::TooManyHeaders => RequestFailure::HeadersTooLarge,
        HeadError::Malformed => RequestFailure::BadRequest,
    }
}

/// How a request is framed.
#[derive(Clone, Copy, Debug, PartialEq, Eq, Structural)]
pub struct Inspection {
    pub head_len: usize,
    /// Length of head and body.
    pub total_len: usize,
    /// Whether the client keeps the connection open.
    pub keep_alive: bool,
}

/// What the headers say of the framing, given what those before them said.
pub open spec fn framing_of(
    headers: Seq<(Seq<char>, Seq<u8>)>,
    length: Option<nat>,
    close: bool,
) -> Result<(Option<nat>, bool), RequestFailure>
    decreases headers.len(),
{
    if headers.len() == 0 {
        Ok((length, close))
    } else {
        let name = encode_utf8(headers[0].0);
        let value = headers[0].1;
        let rest = headers.skip(1);
        if same_ignoring_case(name, "content-length".spec_bytes()) {
            match declared_length(value) {
                Some(declared) => if length matches Some(previous) && previous != declared {
                    Err(RequestFailure::BadRequest)
                } else {
                    framing_of(rest, Some(declared), close)
                },
                None => Err(RequestFailure::BadRequest),
            }
        } else if same_ignoring_case(name, "transfer-encoding".spec_bytes()) {
            Err(RequestFailure::UnsupportedTransferEncoding)
        } else if same_ignoring_case(name, "expect".spec_bytes()) {
            Err(RequestFailure::ExpectationFailed)
        } else if same_ignoring_case(name, "connection".spec_bytes()) && holds_token(
            value,
            "close".spec_bytes(),
        ) {
            framing_of(rest, length, true)
        } else {
            framing_of(rest, length, close)
        }
    }
}

/// How a request with this head is framed, or why it is refused.
pub open spec fn inspected(
    head: HeadModel,
    head_len: usize,
    max_head: usize,
    max_body: usize,
) -> Result<Inspection, RequestFailure> {
    if head_len > max_head {
        Err(RequestFailure::HeadersTooLarge)
    } else if head.version != Some(1u8) {
        Err(RequestFailure::UnsupportedVersion)
    } else {
        match framing_of(head.headers, None, false) {
            Err(failure) => Err(failure),
            Ok((length, close)) => {
                let body = match length {
                    Some(length) => length,
                    None => 0,
                };
                if body > max_body || head_len + body > usize::MAX {
                    Err(RequestFailure::BodyTooLarge)
                } else {
                    Ok(
                        Inspection {
                            head_len,
                            total_len: (head_len + body) as usize,
                            keep_alive: !close,
                        },
                    )
                }
            },
        }
    }
}

/// Decides how a request is framed, or why it is refused.
pub fn inspect_parsed_request(
    parsed: &ParsedHead<'_>,
    head_len: usize,
    config: &ServerConfig,
) -> (inspection: Result<Inspection, RequestFailure>)
    ensures
        inspection == inspected(
            parsed@,
            head_len,
            config.max_request_head_bytes,
            config.max_request_body_bytes,
        ),
{
    if head_len > config.max_request_head_bytes {
        return Err(RequestFailure::HeadersTooLarge);
    }
    match parsed.version {
        Some(1) => {},
        _ => {
            return Err(RequestFailure::UnsupportedVersion);
        },
    }
    let mut content_length: Option<usize> = None;
    let mut close = false;
    let ghost models = header_models(parsed.headers@);
    let mut i: usize = 0;
    assert(models.skip(0) =~= models);
    while i < parsed.headers.len()
        invariant
            0 <= i <= parsed.headers@.len(),
            models == header_models(parsed.headers@),
            models == parsed@.headers,
            head_len <= config.max_request_head_bytes,
            parsed.version == Some(1u8),
            framing_of(models, None, false) == framing_of(
                models.skip(i as int),
                match content_length {
                    Some(length) => Some(length as nat),
                    None => None,
                },
                close,
            ),
        decreases parsed.headers@.len() - i,
    {
        let header = parsed.headers[i];
        let name = header.name.as_bytes();
        assert(models.skip(i as int)[0] == (header.name@, header.value@));
        assert(models.skip(i as int).skip(1) =~= models.skip(i + 1));
        if eq_ignore_case(name, "content-length".as_bytes()) {
            let length: usize = match parse_content_length(header.value) {
                Ok(length) => length,
                Err(failure) => {
                    return Err(failure);
                },
            };
            if let Some(previous) = content_length {
                if previous != length {
                    return Err(RequestFailure::BadRequest);
                }
            }
            content_length = Some(length);
        } else if eq_ignore_case(name, "transfer-encoding".as_bytes()) {
            return Err(RequestFailure::UnsupportedTransferEncoding);
        } else if eq_ignore_case(name, "expect".as_bytes()) {
            return Err(RequestFailure::ExpectationFailed);
        } else if eq_ignore_case(name, "connection".as_bytes()) && header_contains_token(
            header.value,
            "close".as_bytes(),
        ) {
            close = true;
        }
        i += 1;
    }
    let body_len: usize = match content_length {
        Some(length) => length,
        None => 0,
    };
    if body_len > config.max_request_body_bytes {
        return Err(RequestFailure::BodyTooLarge);
    }
    match head_len.checked_add(body_len) {
        Some(total_len) => Ok(Inspection { head_len, total_len, keep_alive: !close }),
        None => Err(RequestFailure::BodyTooLarge),
    }
}

} // verus!
