//! Conversion of results into responses.
use brz_ds::EphemeralBytesArena;
use bytes::Bytes;
use http::HeaderMap;

use vstd::prelude::*;
use vstd::string::StringSliceAdditionalSpecFns;
use vstd::utf8::*;

#[allow(unused_imports)]
use crate::arena::shared_bytes;
use crate::arena::shared_text;
use crate::headers::{accepts_name, accepts_value, append_line, new_map};
#[allow(unused_imports)]
use crate::headers::{
    header_lines, is_map_name, is_value, lowered, place_behind, value_byte, MAX_HEADER_LINES,
};
#[allow(unused_imports)]
use crate::response::{
    is_name, proper_line, reserved_name, token_byte, BodyModel, ResponseModel,
};
use crate::response::{is_reserved, HeaderBlockError, Response, StatusCode};
#[allow(unused_imports)]
use crate::text::{lower, same_ignoring_case};
use crate::text::push_char;

pub mod kind;

verus! {

/// Turns a result into the response that is sent. The kind tells the ways of
/// doing so apart and is inferred.
pub trait IntoHttpResponse<Kind>: Sized {
    fn into_http_response(self, arena: &EphemeralBytesArena) -> Response;
}

/// Turns a business error into the response that is sent.
pub trait IntoHttpError: Sized {
    fn into_http_error(self, arena: &EphemeralBytesArena) -> Response;
}

impl IntoHttpResponse<kind::Direct> for Response {
    fn into_http_response(self, arena: &EphemeralBytesArena) -> (response: Response)
        ensures
            response == self,
    {
        self
    }
}

impl IntoHttpResponse<kind::Direct> for StatusCode {
    fn into_http_response(self, arena: &EphemeralBytesArena) -> (response: Response)
        ensures
            response@ == ResponseModel::empty(self.number()),
    {
        Response::empty(self)
    }
}

impl<T: IntoHttpResponse<K>, K> IntoHttpResponse<kind::Status<K>> for (StatusCode, T) {
    fn into_http_response(self, arena: &EphemeralBytesArena) -> (response: Response)
        ensures
            exists|inner: Response|
                #[trigger] call_ensures(T::into_http_response, (self.1, arena), inner) && response@
                    == inner@.with_status(self.0.number()),
    {
        let inner = self.1.into_http_response(arena);
        assert(call_ensures(T::into_http_response, (self.1, arena), inner));
        inner.with_status(self.0)
    }
}

/// A result with a status, headers or a declared length.
#[derive(Debug)]
pub struct HttpResponse<T> {
    body: T,
    status: Option<StatusCode>,
    headers: HeaderMap,
    content_length: Option<u64>,
}

impl<T> HttpResponse<T> {
    #[verifier::type_invariant]
    spec fn proper(self) -> bool {
        forall|i: int|
            0 <= i < header_lines(self.headers).len() ==> proper_line(
                #[trigger] header_lines(self.headers)[i],
            )
    }

    pub closed spec fn body(self) -> T {
        self.body
    }

    pub closed spec fn status_number(self) -> Option<u16> {
        match self.status {
            Some(status) => Some(status.number()),
            None => None,
        }
    }

    /// The headers in the order in which they are sent.
    pub closed spec fn lines(self) -> Seq<(Seq<u8>, Seq<u8>)> {
        header_lines(self.headers)
    }

    pub closed spec fn length(self) -> Option<u64> {
        self.content_length
    }

    /// What becomes of the body's response.
    pub open spec fn applied(self, inner: ResponseModel) -> ResponseModel {
        let with_status = match self.status_number() {
            Some(status) => inner.with_status(status),
            None => inner,
        };
        let with_length = match self.length() {
            Some(length) => with_status.with_length(length),
            None => with_status,
        };
        with_length.with_lines(self.lines())
    }

    pub fn new(body: T) -> (response: Self)
        ensures
            response.body() == body,
            response.status_number() is None,
            response.lines() == Seq::<(Seq<u8>, Seq<u8>)>::empty(),
            response.length() is None,
    {
        HttpResponse { body, status: None, headers: new_map(), content_length: None }
    }

    pub fn status(self, status: StatusCode) -> (response: Self)
        ensures
            response.body() == self.body(),
            response.status_number() == Some(status.number()),
            response.lines() == self.lines(),
            response.length() == self.length(),
    {
        proof {
            use_type_invariant(&self);
        }
        HttpResponse {
            body: self.body,
            status: Some(status),
            headers: self.headers,
            content_length: self.content_length,
        }
    }

    /// Declares how many bytes a stream has; writing checks it.
    pub fn content_length(self, length: u64) -> (response: Self)
        ensures
            response.body() == self.body(),
            response.status_number() == self.status_number(),
            response.lines() == self.lines(),
            response.length() == Some(length),
    {
        proof {
            use_type_invariant(&self);
        }
        HttpResponse {
            body: self.body,
            status: self.status,
            headers: self.headers,
            content_length: Some(length),
        }
    }

    /// Adds a header behind those of its name, of which there can be several.
    /// The map behind it takes a bounded number of headers.
    pub fn header(self, name: &str, value: &str) -> (response: Result<Self, HeaderBlockError>)
        requires
            self.lines().len() < MAX_HEADER_LINES,
        ensures
            match response {
                Ok(response) => {
                    &&& is_map_name(name.spec_bytes())
                    &&& !reserved_name(name.spec_bytes())
                    &&& is_value(value.spec_bytes())
                    &&& response.body() == self.body()
                    &&& response.status_number() == self.status_number()
                    &&& response.length() == self.length()
                    &&& response.lines() == self.lines().insert(
                        place_behind(self.lines(), lowered(name.spec_bytes())),
                        (lowered(name.spec_bytes()), value.spec_bytes()),
                    )
                },
                Err(HeaderBlockError::InvalidName) => !is_map_name(name.spec_bytes()),
                Err(HeaderBlockError::ReservedName) => is_map_name(name.spec_bytes())
                    && reserved_name(name.spec_bytes()),
                Err(HeaderBlockError::InvalidValue) => is_map_name(name.spec_bytes())
                    && !reserved_name(name.spec_bytes()) && !is_value(value.spec_bytes()),
                Err(_) => false,
            },
    {
        if !accepts_name(name.as_bytes()) {
            return Err(HeaderBlockError::InvalidName);
        }
        if is_reserved(name.as_bytes()) {
            return Err(HeaderBlockError::ReservedName);
        }
        if !accepts_value(value) {
            return Err(HeaderBlockError::InvalidValue);
        }
        proof {
            use_type_invariant(&self);
        }
        let ghost lines = self.lines();
        let HttpResponse { body, status, mut headers, content_length } = self;
        append_line(&mut headers, name, value);
        proof {
            let line = (lowered(name.spec_bytes()), value.spec_bytes());
            let place = place_behind(lines, line.0);
            lemma_place(lines, line.0);
            lemma_lowered(name.spec_bytes());
            assert(!line.1.contains(13) && !line.1.contains(10)) by {
                assert(forall|i: int| 0 <= i < line.1.len() ==> value_byte(#[trigger] line.1[i]));
            }
            assert(proper_line(line));
            assert forall|i: int| 0 <= i < header_lines(headers).len() implies proper_line(
                #[trigger] header_lines(headers)[i],
            ) by {
                if i < place {
                    assert(header_lines(headers)[i] == lines[i]);
                } else if i > place {
                    assert(header_lines(headers)[i] == lines[i - 1]);
                }
            }
        }
        Ok(HttpResponse { body, status, headers, content_length })
    }
}

proof fn lemma_place(lines: Seq<(Seq<u8>, Seq<u8>)>, name: Seq<u8>)
    ensures
        0 <= place_behind(lines, name) <= lines.len(),
    decreases lines.len(),
{
    if lines.len() > 0 {
        lemma_place(lines.drop_last(), name);
    }
}

/// Lower case changes neither whether a name is proper nor whether it is
/// reserved.
proof fn lemma_lowered(name: Seq<u8>)
    ensures
        is_name(name) ==> is_name(lowered(name)),
        reserved_name(lowered(name)) == reserved_name(name),
{
    assert forall|i: int| 0 <= i < name.len() implies lower(#[trigger] lowered(name)[i]) == lower(
        name[i],
    ) by {}
    if is_name(name) {
        assert forall|i: int| 0 <= i < lowered(name).len() implies token_byte(
            #[trigger] lowered(name)[i],
        ) by {
            assert(token_byte(name[i]));
        }
    }
    lemma_same_lowered(name, "connection".spec_bytes());
    lemma_same_lowered(name, "content-length".spec_bytes());
    lemma_same_lowered(name, "transfer-encoding".spec_bytes());
}

proof fn lemma_same_lowered(name: Seq<u8>, other: Seq<u8>)
    ensures
        same_ignoring_case(lowered(name), other) == same_ignoring_case(name, other),
{
    assert forall|i: int| 0 <= i < name.len() implies lower(#[trigger] lowered(name)[i]) == lower(
        name[i],
    ) by {}
    if same_ignoring_case(lowered(name), other) {
        assert forall|i: int| 0 <= i < name.len() implies lower(#[trigger] name[i]) == lower(
            other[i],
        ) by {
            assert(lower(lowered(name)[i]) == lower(other[i]));
        }
    }
}

impl<T: IntoHttpResponse<K>, K> IntoHttpResponse<kind::Headers<K>> for HttpResponse<T> {
    fn into_http_response(self, arena: &EphemeralBytesArena) -> (response: Response)
        ensures
            exists|inner: Response|
                #[trigger] call_ensures(T::into_http_response, (self.body(), arena), inner)
                    && response@ == self.applied(inner@) && (inner@.body is Stream
                    && self.length() is Some ==> response@.body == BodyModel::Stream(self.length())
                    || response@ == ResponseModel::failed_conversion()),
    {
        let HttpResponse { body, status, headers, content_length } = self;
        let inner = body.into_http_response(arena);
        assert(call_ensures(T::into_http_response, (self.body(), arena), inner));
        let mut response = inner;
        if let Some(status) = status {
            response = response.with_status(status);
        }
        if let Some(length) = content_length {
            response = response.set_content_length(length);
        }
        response.with_http_headers(&headers, arena)
    }
}

/// A binary body.
#[derive(Debug)]
pub struct Binary(pub Bytes);

impl Binary {
    pub fn new(body: Bytes) -> (binary: Self)
        ensures
            binary.0 == body,
    {
        Binary(body)
    }
}

impl IntoHttpResponse<kind::Direct> for Binary {
    fn into_http_response(self, arena: &EphemeralBytesArena) -> (response: Response)
        ensures
            response@ == (ResponseModel {
                content_type: Some("application/octet-stream"@),
                ..ResponseModel::plain(200, BodyModel::Whole(shared_bytes(self.0)))
            }),
    {
        Response::owned_bytes(StatusCode::new(200), self.0).content_type("application/octet-stream")
    }
}

/// A plain text.
#[derive(Debug)]
pub struct Text(pub String);

impl IntoHttpResponse<kind::Direct> for Text {
    fn into_http_response(self, arena: &EphemeralBytesArena) -> (response: Response)
        ensures
            response@ == (ResponseModel {
                content_type: Some("text/plain; charset=utf-8"@),
                ..ResponseModel::plain(200, BodyModel::Whole(encode_utf8(self.0@)))
            }),
    {
        Response::owned_bytes(StatusCode::new(200), shared_text(self.0)).content_type(
            "text/plain; charset=utf-8",
        )
    }
}

/// An HTML document.
#[derive(Debug)]
pub struct Html(pub String);

impl IntoHttpResponse<kind::Direct> for Html {
    fn into_http_response(self, arena: &EphemeralBytesArena) -> (response: Response)
        ensures
            response@ == (ResponseModel {
                content_type: Some("text/html; charset=utf-8"@),
                ..ResponseModel::plain(200, BodyModel::Whole(encode_utf8(self.0@)))
            }),
    {
        Response::owned_bytes(StatusCode::new(200), shared_text(self.0)).content_type(
            "text/html; charset=utf-8",
        )
    }
}

/// Whether a byte stays as it is in a `Location`.
pub open spec fn location_byte(byte: u8) -> bool {
    ||| 48 <= byte <= 57
    ||| 65 <= byte <= 90
    ||| 97 <= byte <= 122
    ||| byte == 45
    ||| byte == 46
    ||| byte == 95
    ||| byte == 126
    ||| byte == 58
    ||| byte == 47
    ||| byte == 37
    ||| byte == 35
    ||| byte == 63
    ||| byte == 61
    ||| byte == 64
    ||| byte == 91
    ||| byte == 93
    ||| byte == 33
    ||| byte == 36
    ||| 38 <= byte <= 44
    ||| byte == 59
}

/// The upper-case hexadecimal digit of a value below sixteen.
pub open spec fn upper_hex(value: int) -> char {
    if value < 10 {
        (48 + value) as char
    } else {
        (55 + value) as char
    }
}

/// The characters that stand for a byte in a `Location`.
pub open spec fn location_chars(byte: u8) -> Seq<char> {
    if location_byte(byte) {
        seq![byte as char]
    } else {
        seq!['%', upper_hex((byte / 16) as int), upper_hex((byte % 16) as int)]
    }
}

/// A target of a redirect, with the bytes escaped that cannot stand in one.
pub open spec fn location_text(bytes: Seq<u8>) -> Seq<char>
    decreases bytes.len(),
{
    if bytes.len() == 0 {
        Seq::empty()
    } else {
        location_text(bytes.drop_last()) + location_chars(bytes.last())
    }
}

fn is_location_byte(byte: u8) -> (kept: bool)
    ensures
        kept == location_byte(byte),
{
    (48 <= byte && byte <= 57) || (65 <= byte && byte <= 90) || (97 <= byte && byte <= 122) || byte
        == 45 || byte == 46 || byte == 95 || byte == 126 || byte == 58 || byte == 47 || byte == 37
        || byte == 35 || byte == 63 || byte == 61 || byte == 64 || byte == 91 || byte == 93 || byte
        == 33 || byte == 36 || (38 <= byte && byte <= 44) || byte == 59
}

fn upper_hex_char(value: u8) -> (digit: char)
    requires
        value < 16,
    ensures
        digit == upper_hex(value as int),
{
    if value < 10 {
        (48 + value) as char
    } else {
        (55 + value) as char
    }
}

/// Escapes the bytes that cannot stand in a `Location`; delimiters and escapes
/// that are there stay.
pub fn encode_location(location: &str) -> (encoded: String)
    ensures
        encoded@ == location_text(location.spec_bytes()),
{
    let bytes = location.as_bytes();
    let mut encoded = String::new();
    let mut i: usize = 0;
    while i < bytes.len()
        invariant
            0 <= i <= bytes@.len(),
            encoded@ == location_text(bytes@.take(i as int)),
        decreases bytes@.len() - i,
    {
        let byte: u8 = bytes[i];
        let ghost before = encoded@;
        if is_location_byte(byte) {
            push_char(&mut encoded, byte as char);
        } else {
            push_char(&mut encoded, '%');
            push_char(&mut encoded, upper_hex_char(byte / 16));
            push_char(&mut encoded, upper_hex_char(byte % 16));
        }
        assert(encoded@ =~= before + location_chars(byte));
        assert(bytes@.take(i + 1).drop_last() =~= bytes@.take(i as int));
        i += 1;
    }
    assert(bytes@.take(i as int) =~= bytes@);
    encoded
}

/// Whether every character of a text can stand in a header's value.
pub open spec fn plain_text(text: Seq<char>) -> bool {
    forall|i: int| 0 <= i < text.len() ==> ' ' <= #[trigger] text[i] <= '~'
}

pub(crate) proof fn lemma_plain_value(text: Seq<char>)
    requires
        plain_text(text),
    ensures
        is_value(encode_utf8(text)),
{
    assert forall|i: int| 0 <= i < text.len() implies '\0' <= #[trigger] text[i] <= '\u{7f}' by {
        assert(' ' <= text[i] <= '~');
    }
    is_ascii_chars_encode_utf8(text);
    let bytes = encode_utf8(text);
    assert forall|i: int| 0 <= i < bytes.len() implies value_byte(#[trigger] bytes[i]) by {
        assert(' ' <= text[i] <= '~');
        assert(bytes[i] == text[i] as u8);
    }
}

proof fn lemma_location_plain(bytes: Seq<u8>)
    ensures
        plain_text(location_text(bytes)),
    decreases bytes.len(),
{
    if bytes.len() > 0 {
        lemma_location_plain(bytes.drop_last());
        let before = location_text(bytes.drop_last());
        let last = location_chars(bytes.last());
        let all = location_text(bytes);
        assert forall|i: int| 0 <= i < all.len() implies ' ' <= #[trigger] all[i] <= '~' by {
            if i < before.len() {
                assert(all[i] == before[i]);
            } else {
                assert(all[i] == last[i - before.len()]);
            }
        }
    }
}

/// A redirect to another place.
#[derive(Debug)]
pub struct Redirect {
    location: String,
    status: StatusCode,
}

impl Redirect {
    pub closed spec fn location(self) -> Seq<char> {
        self.location@
    }

    pub closed spec fn status_number(self) -> u16 {
        self.status.number()
    }

    pub fn found(location: String) -> (redirect: Self)
        ensures
            redirect.location() == location@,
            redirect.status_number() == 302,
    {
        Redirect { location, status: StatusCode::new(302) }
    }

    pub fn temporary(location: String) -> (redirect: Self)
        ensures
            redirect.location() == location@,
            redirect.status_number() == 307,
    {
        Redirect { location, status: StatusCode::new(307) }
    }

    /// The response of the redirect.
    pub open spec fn response(self) -> ResponseModel {
        ResponseModel::empty(self.status_number()).with_lines(
            seq![
                (
                    "location".spec_bytes(),
                    encode_utf8(location_text(encode_utf8(self.location()))),
                ),
            ],
        )
    }
}

pub(crate) proof fn lemma_fixed_name(name: &str)
    requires
        0 < name@.len() <= 65535,
        forall|i: int| 0 <= i < name@.len() ==> 'a' <= #[trigger] name@[i] <= 'z',
        name@.len() < 10,
    ensures
        is_map_name(name.spec_bytes()),
        lowered(name.spec_bytes()) == name.spec_bytes(),
        !reserved_name(name.spec_bytes()),
{
    reveal_strlit("connection");
    reveal_strlit("content-length");
    reveal_strlit("transfer-encoding");
    is_ascii_chars_encode_utf8("connection"@);
    is_ascii_chars_encode_utf8("content-length"@);
    is_ascii_chars_encode_utf8("transfer-encoding"@);
    is_ascii_chars_encode_utf8(name@);
    let bytes = name.spec_bytes();
    assert forall|i: int| 0 <= i < bytes.len() implies token_byte(#[trigger] bytes[i]) && lower(
        bytes[i],
    ) == bytes[i] by {
        assert('a' <= name@[i] <= 'z');
    }
    assert(lowered(bytes) =~= bytes);
}

impl IntoHttpResponse<kind::Direct> for Redirect {
    fn into_http_response(self, arena: &EphemeralBytesArena) -> (response: Response)
        ensures
            response@ == self.response(),
    {
        let encoded = encode_location(self.location.as_str());
        proof {
            reveal_strlit("location");
            lemma_fixed_name("location");
            lemma_location_plain(encode_utf8(self.location@));
            lemma_plain_value(encoded@);
        }
        let reply = HttpResponse::new(Response::empty(self.status));
        match reply.header("location", encoded.as_str()) {
            Ok(reply) => {
                assert(reply.lines() =~= seq![("location".spec_bytes(), encode_utf8(encoded@))]);
                reply.into_http_response(arena)
            },
            Err(_) => Response::conversion_failure(),
        }
    }
}

/// Converts a result.
pub fn response<T: IntoHttpResponse<K>, K>(value: T, arena: &EphemeralBytesArena) -> (converted:
    Response)
    ensures
        call_ensures(T::into_http_response, (value, arena), converted),
{
    value.into_http_response(arena)
}

/// Converts a result or an error.
pub fn result_response<T: IntoHttpResponse<K>, E: IntoHttpError, K>(
    value: Result<T, E>,
    arena: &EphemeralBytesArena,
) -> (converted: Response)
    ensures
        match value {
            Ok(value) => call_ensures(T::into_http_response, (value, arena), converted),
            Err(error) => call_ensures(E::into_http_error, (error, arena), converted),
        },
{
    match value {
        Ok(value) => value.into_http_response(arena),
        Err(error) => error.into_http_error(arena),
    }
}

/// A business error with its status.
#[derive(Debug)]
pub struct ApiError {
    pub status: StatusCode,
    pub message: String,
}

impl ApiError {
    pub fn new(status: StatusCode, message: String) -> (error: Self)
        ensures
            error.status == status,
            error.message == message,
    {
        ApiError { status, message }
    }

    pub fn bad_request(message: String) -> (error: Self)
        ensures
            error.status.number() == 400,
            error.message == message,
    {
        ApiError { status: StatusCode::new(400), message }
    }

    pub fn forbidden(message: String) -> (error: Self)
        ensures
            error.status.number() == 403,
            error.message == message,
    {
        ApiError { status: StatusCode::new(403), message }
    }

    pub fn to_string(&self) -> (message: String)
        ensures
            message@ == self.message@,
    {
        self.message.clone()
    }
}

} // verus!
