//! Cross-origin policy.
use brz_ds::EphemeralBytesArena;
use http::HeaderMap;

use vstd::prelude::*;
use vstd::string::StringSliceAdditionalSpecFns;
use vstd::utf8::*;

#[allow(unused_imports)]
use crate::body::bytes_of;
use crate::headers::{accepts_method, accepts_name, accepts_value, insert_line, new_map};
#[allow(unused_imports)]
use crate::headers::{has_line, header_lines, is_map_name, is_value, lowered};
use crate::request::Request;
#[allow(unused_imports)]
use crate::request::{header_value, RequestModel};
#[allow(unused_imports)]
use crate::response::{is_name, token_byte, BodyModel, ResponseModel};
use crate::response::{Response, StatusCode};
use crate::server::write::decimal_text;
#[allow(unused_imports)]
use crate::text::{
    decimal, glued, lower, same_ignoring_case, split, string_texts, trim_end, trim_start, utf8_text,
};
use crate::text::{eq_ignore_case, glue_strings, same_text, text_of_bytes, trim, Pieces};

verus! {

/// Which other origins may use the server, and how.
#[derive(Clone, Debug)]
pub struct Cors {
    pub allow_origins: Vec<String>,
    pub allow_methods: Vec<String>,
    pub allow_headers: Vec<String>,
    pub expose_headers: Vec<String>,
    pub allow_credentials: bool,
    pub max_age: u64,
}

/// What a [`Cors`] says.
#[verifier::ext_equal]
pub struct CorsModel {
    pub allow_origins: Seq<Seq<char>>,
    pub allow_methods: Seq<Seq<char>>,
    pub allow_headers: Seq<Seq<char>>,
    pub expose_headers: Seq<Seq<char>>,
    pub allow_credentials: bool,
    pub max_age: u64,
}

impl View for Cors {
    type V = CorsModel;

    open spec fn view(&self) -> CorsModel {
        CorsModel {
            allow_origins: string_texts(self.allow_origins@),
            allow_methods: string_texts(self.allow_methods@),
            allow_headers: string_texts(self.allow_headers@),
            expose_headers: string_texts(self.expose_headers@),
            allow_credentials: self.allow_credentials,
            max_age: self.max_age,
        }
    }
}

/// The headers that every request may have.
pub open spec fn safelisted(name: Seq<u8>) -> bool {
    ||| same_ignoring_case(name, "accept".spec_bytes())
    ||| same_ignoring_case(name, "accept-language".spec_bytes())
    ||| same_ignoring_case(name, "content-language".spec_bytes())
    ||| same_ignoring_case(name, "content-type".spec_bytes())
}

/// A line for the value, unless it can be no header's value.
pub open spec fn optional_line(name: Seq<u8>, value: Seq<char>) -> Seq<(Seq<u8>, Seq<u8>)> {
    if is_value(encode_utf8(value)) {
        seq![(name, encode_utf8(value))]
    } else {
        Seq::empty()
    }
}

impl CorsModel {
    /// The policy of an application that says nothing more.
    pub open spec fn default_policy() -> Self {
        CorsModel {
            allow_origins: Seq::empty(),
            allow_methods: seq![
                "GET"@,
                "HEAD"@,
                "POST"@,
                "PUT"@,
                "PATCH"@,
                "DELETE"@,
                "OPTIONS"@,
            ],
            allow_headers: Seq::empty(),
            expose_headers: Seq::empty(),
            allow_credentials: false,
            max_age: 600,
        }
    }

    pub open spec fn permits_origin(self, origin: Seq<char>) -> bool {
        self.allow_origins.contains("*"@) || self.allow_origins.contains(origin)
    }

    /// Whether the answer names the origin itself.
    pub open spec fn reflects(self) -> bool {
        self.allow_credentials || !self.allow_origins.contains("*"@)
    }

    /// The headers of an answer to this origin.
    pub open spec fn origin_lines(self, origin: Seq<char>) -> Seq<(Seq<u8>, Seq<u8>)> {
        if !self.permits_origin(origin) {
            Seq::empty()
        } else {
            optional_line(
                "access-control-allow-origin".spec_bytes(),
                if self.reflects() {
                    origin
                } else {
                    "*"@
                },
            ) + (if self.reflects() {
                seq![("vary".spec_bytes(), "Origin".spec_bytes())]
            } else {
                Seq::empty()
            }) + (if self.allow_credentials {
                seq![("access-control-allow-credentials".spec_bytes(), "true".spec_bytes())]
            } else {
                Seq::empty()
            }) + (if self.expose_headers.len() > 0 {
                optional_line(
                    "access-control-expose-headers".spec_bytes(),
                    glued(self.expose_headers, ", "@),
                )
            } else {
                Seq::empty()
            })
        }
    }

    /// Whether a header of this name may be sent.
    pub open spec fn permits_header(self, name: Seq<char>) -> bool {
        ||| name.len() == 0
        ||| safelisted(encode_utf8(name))
        ||| exists|i: int|
            0 <= i < self.allow_headers.len() && same_ignoring_case(
                encode_utf8(name),
                encode_utf8(#[trigger] self.allow_headers[i]),
            )
    }

    /// Whether all headers of a list may be sent.
    pub open spec fn permits_headers(self, requested: Seq<char>) -> bool {
        self.allow_headers.contains("*"@) || forall|i: int|
            0 <= i < split(requested, ',').len() ==> self.permits_header(
                trim_end(trim_start(#[trigger] split(requested, ',')[i])),
            )
    }

    pub open spec fn permits(
        self,
        origin: Seq<char>,
        method: Seq<char>,
        requested: Seq<char>,
    ) -> bool {
        self.permits_origin(origin) && self.allow_methods.contains(method) && self.permits_headers(
            requested,
        )
    }

    /// The headers of the answer to a preflight request.
    pub open spec fn preflight_lines(
        self,
        origin: Seq<char>,
        requested: Seq<char>,
    ) -> Seq<(Seq<u8>, Seq<u8>)> {
        self.origin_lines(origin) + optional_line(
            "access-control-allow-methods".spec_bytes(),
            glued(self.allow_methods, ", "@),
        ) + optional_line(
            "access-control-max-age".spec_bytes(),
            decimal(self.max_age as nat),
        ) + (if requested.len() > 0 && self.permits_headers(requested) {
            optional_line("access-control-allow-headers".spec_bytes(), requested)
        } else {
            Seq::empty()
        })
    }

    /// The answer to a preflight request.
    pub open spec fn preflight_response(
        self,
        origin: Seq<char>,
        method: Seq<char>,
        requested: Seq<char>,
    ) -> ResponseModel {
        (ResponseModel {
            content_type: Some("text/plain; charset=utf-8"@),
            ..if self.permits(origin, method, requested) {
                ResponseModel::plain(200, BodyModel::Whole("OK".spec_bytes()))
            } else {
                ResponseModel::plain(400, BodyModel::Whole("Disallowed CORS request".spec_bytes()))
            }
        }).with_lines(self.preflight_lines(origin, requested))
    }

    /// The answer to a request where it is a preflight request.
    pub open spec fn preflight_answer(self, request: RequestModel<'_>) -> Option<ResponseModel> {
        match (
            header_text(request, "origin".spec_bytes()),
            header_text(request, "access-control-request-method".spec_bytes()),
        ) {
            (Some(origin), Some(method)) if request.method == "OPTIONS"@ => Some(
                self.preflight_response(
                    origin,
                    method,
                    match header_text(request, "access-control-request-headers".spec_bytes()) {
                        Some(requested) => requested,
                        None => Seq::empty(),
                    },
                ),
            ),
            _ => None,
        }
    }

    /// A response with the headers for the origin that a request came from.
    pub open spec fn applied(self, origin: Option<Seq<u8>>, response: ResponseModel) -> ResponseModel {
        match origin {
            Some(origin) => match utf8_text(origin) {
                Some(origin) => response.with_lines(self.origin_lines(origin)),
                None => response,
            },
            None => response,
        }
    }

    /// Whether every part of the policy can stand in a header.
    pub open spec fn is_valid(self) -> bool {
        &&& forall|i: int|
            0 <= i < self.allow_origins.len() ==> is_value(
                encode_utf8(#[trigger] self.allow_origins[i]),
            )
        &&& forall|i: int|
            0 <= i < self.allow_methods.len() ==> is_name(
                encode_utf8(#[trigger] self.allow_methods[i]),
            )
        &&& headers_or_any(self.allow_headers)
        &&& headers_or_any(self.expose_headers)
    }
}

pub open spec fn header_or_any(name: Seq<char>) -> bool {
    name == "*"@ || is_map_name(encode_utf8(name))
}

/// Whether each of the texts names a header or is `*`.
pub open spec fn headers_or_any(names: Seq<Seq<char>>) -> bool {
    forall|i: int| 0 <= i < names.len() ==> header_or_any(#[trigger] names[i])
}

/// The text of a header of a request, if it has one and the value is text.
pub open spec fn header_text(request: RequestModel<'_>, name: Seq<u8>) -> Option<Seq<char>> {
    match header_value(request.headers, name) {
        Some(value) => utf8_text(value),
        None => None,
    }
}

/// Whether `values` hold the text.
fn holds(values: &Vec<String>, text: &str) -> (found: bool)
    ensures
        found == string_texts(values@).contains(text@),
{
    let mut i: usize = 0;
    while i < values.len()
        invariant
            0 <= i <= values@.len(),
            forall|j: int| 0 <= j < i ==> string_texts(values@)[j] != text@,
        decreases values@.len() - i,
    {
        assert(string_texts(values@)[i as int] == values@[i as int]@);
        if same_text(values[i].as_str(), text) {
            return true;
        }
        i += 1;
    }
    false
}

fn owned(text: &str) -> (text_owned: String)
    ensures
        text_owned@ == text@,
{
    text.to_owned()
}

impl Default for Cors {
    fn default() -> (cors: Self)
        ensures
            cors@ == CorsModel::default_policy(),
    {
        let mut allow_methods: Vec<String> = Vec::new();
        allow_methods.push(owned("GET"));
        allow_methods.push(owned("HEAD"));
        allow_methods.push(owned("POST"));
        allow_methods.push(owned("PUT"));
        allow_methods.push(owned("PATCH"));
        allow_methods.push(owned("DELETE"));
        allow_methods.push(owned("OPTIONS"));
        assert(string_texts(allow_methods@) =~= CorsModel::default_policy().allow_methods);
        let cors = Cors {
            allow_origins: Vec::new(),
            allow_methods,
            allow_headers: Vec::new(),
            expose_headers: Vec::new(),
            allow_credentials: false,
            max_age: 600,
        };
        assert(cors@ =~= CorsModel::default_policy());
        cors
    }
}

/// Whether these are the bytes of a header name in lower case.
pub open spec fn lower_case_name(bytes: Seq<u8>) -> bool {
    is_map_name(bytes) && lowered(bytes) == bytes
}

proof fn lemma_lower_case_name(name: &str)
    requires
        0 < name@.len() <= 65535,
        forall|i: int|
            0 <= i < name@.len() ==> ('a' <= #[trigger] name@[i] <= 'z' || name@[i] == '-'),
    ensures
        lower_case_name(name.spec_bytes()),
        name.spec_bytes().len() == name@.len(),
{
    is_ascii_chars_encode_utf8(name@);
    let b = name.spec_bytes();
    assert forall|i: int| 0 <= i < b.len() implies token_byte(#[trigger] b[i]) && lower(b[i])
        == b[i] by {
        assert('a' <= name@[i] <= 'z' || name@[i] == '-');
    }
    assert(lowered(b) =~= b);
}

/// The names that the policy sets are proper and distinct.
pub(crate) proof fn lemma_names()
    ensures
        lower_case_name("access-control-allow-origin".spec_bytes()),
        "access-control-allow-origin".spec_bytes().len() == 27,
        lower_case_name("vary".spec_bytes()),
        "vary".spec_bytes().len() == 4,
        lower_case_name("access-control-allow-credentials".spec_bytes()),
        "access-control-allow-credentials".spec_bytes().len() == 32,
        lower_case_name("access-control-expose-headers".spec_bytes()),
        "access-control-expose-headers".spec_bytes().len() == 29,
        lower_case_name("access-control-allow-methods".spec_bytes()),
        "access-control-allow-methods".spec_bytes().len() == 28,
        lower_case_name("access-control-max-age".spec_bytes()),
        "access-control-max-age".spec_bytes().len() == 22,
        lower_case_name("access-control-allow-headers".spec_bytes()),
        "access-control-allow-headers".spec_bytes().len() == 28,
        "access-control-allow-methods".spec_bytes() != "access-control-allow-headers".spec_bytes(),
{
    reveal_strlit("access-control-allow-origin");
    lemma_lower_case_name("access-control-allow-origin");
    reveal_strlit("vary");
    lemma_lower_case_name("vary");
    reveal_strlit("access-control-allow-credentials");
    lemma_lower_case_name("access-control-allow-credentials");
    reveal_strlit("access-control-expose-headers");
    lemma_lower_case_name("access-control-expose-headers");
    reveal_strlit("access-control-allow-methods");
    lemma_lower_case_name("access-control-allow-methods");
    reveal_strlit("access-control-max-age");
    lemma_lower_case_name("access-control-max-age");
    reveal_strlit("access-control-allow-headers");
    lemma_lower_case_name("access-control-allow-headers");
    is_ascii_chars_encode_utf8("access-control-allow-methods"@);
    is_ascii_chars_encode_utf8("access-control-allow-headers"@);
    assert("access-control-allow-methods"@[21] == 'm');
    assert("access-control-allow-headers"@[21] == 'h');
    assert("access-control-allow-methods".spec_bytes()[21]
        != "access-control-allow-headers".spec_bytes()[21]);
}

/// Adds a line of a new name, unless the value can be no header's value.
fn insert(headers: &mut HeaderMap, name: &'static str, value: &str)
    requires
        header_lines(*old(headers)).len() < 100,
        lower_case_name(name.spec_bytes()),
        !has_line(header_lines(*old(headers)), name.spec_bytes()),
    ensures
        header_lines(*final(headers)) == header_lines(*old(headers)) + optional_line(
            name.spec_bytes(),
            value@,
        ),
{
    if accepts_value(value) {
        insert_line(headers, name, value);
        assert(header_lines(*headers) =~= header_lines(*old(headers)) + optional_line(
            name.spec_bytes(),
            value@,
        ));
    } else {
        assert(header_lines(*headers) =~= header_lines(*old(headers)) + optional_line(
            name.spec_bytes(),
            value@,
        ));
    }
}

/// The lengths of the names that an answer to an origin can have.
spec fn origin_names(lines: Seq<(Seq<u8>, Seq<u8>)>) -> bool {
    lines.len() <= 4 && forall|i: int|
        0 <= i < lines.len() ==> {
            let length = (#[trigger] lines[i]).0.len();
            length == 27 || length == 4 || length == 32 || length == 29
        }
}

pub(crate) proof fn lemma_plain_values()
    ensures
        is_value("*".spec_bytes()),
        is_value("Origin".spec_bytes()),
        is_value("true".spec_bytes()),
{
    reveal_strlit("*");
    reveal_strlit("Origin");
    reveal_strlit("true");
    is_ascii_chars_encode_utf8("*"@);
    is_ascii_chars_encode_utf8("Origin"@);
    is_ascii_chars_encode_utf8("true"@);
}

impl Cors {
    /// A policy that lets every origin send every header.
    pub fn permissive() -> (cors: Self)
        ensures
            cors@ == (CorsModel {
                allow_origins: seq!["*"@],
                allow_headers: seq!["*"@],
                ..CorsModel::default_policy()
            }),
    {
        let mut cors: Cors = Default::default();
        let mut any_origin: Vec<String> = Vec::new();
        any_origin.push(owned("*"));
        let mut any_header: Vec<String> = Vec::new();
        any_header.push(owned("*"));
        cors.allow_origins = any_origin;
        cors.allow_headers = any_header;
        assert(string_texts(cors.allow_origins@) =~= seq!["*"@]);
        assert(string_texts(cors.allow_headers@) =~= seq!["*"@]);
        cors
    }

    /// Whether every part of the policy can stand in a header.
    pub fn validate(&self) -> (valid: bool)
        ensures
            valid == self@.is_valid(),
    {
        let mut i: usize = 0;
        while i < self.allow_origins.len()
            invariant
                0 <= i <= self.allow_origins@.len(),
                forall|j: int|
                    0 <= j < i ==> is_value(encode_utf8(#[trigger] self@.allow_origins[j])),
            decreases self.allow_origins@.len() - i,
        {
            assert(self@.allow_origins[i as int] == self.allow_origins@[i as int]@);
            if !accepts_value(self.allow_origins[i].as_str()) {
                return false;
            }
            i += 1;
        }
        let mut i: usize = 0;
        while i < self.allow_methods.len()
            invariant
                0 <= i <= self.allow_methods@.len(),
                forall|j: int|
                    0 <= j < i ==> is_name(encode_utf8(#[trigger] self@.allow_methods[j])),
            decreases self.allow_methods@.len() - i,
        {
            assert(self@.allow_methods[i as int] == self.allow_methods@[i as int]@);
            if !accepts_method(self.allow_methods[i].as_str().as_bytes()) {
                return false;
            }
            i += 1;
        }
        all_headers(&self.allow_headers) && all_headers(&self.expose_headers)
    }

    pub fn permits_origin(&self, origin: &str) -> (permits: bool)
        ensures
            permits == self@.permits_origin(origin@),
    {
        holds(&self.allow_origins, "*") || holds(&self.allow_origins, origin)
    }

    /// The headers of an answer to this origin.
    pub fn response_headers(&self, origin: &str) -> (headers: HeaderMap)
        ensures
            header_lines(headers) == self@.origin_lines(origin@),
    {
        let mut headers = new_map();
        if !self.permits_origin(origin) {
            return headers;
        }
        proof {
            lemma_names();
            lemma_plain_values();
        }
        let reflected = self.allow_credentials || !holds(&self.allow_origins, "*");
        insert(
            &mut headers,
            "access-control-allow-origin",
            if reflected {
                origin
            } else {
                "*"
            },
        );
        if reflected {
            insert(&mut headers, "vary", "Origin");
        }
        if self.allow_credentials {
            insert(&mut headers, "access-control-allow-credentials", "true");
        }
        if self.expose_headers.len() > 0 {
            insert(
                &mut headers,
                "access-control-expose-headers",
                glue_strings(&self.expose_headers, ", ").as_str(),
            );
        }
        assert(header_lines(headers) =~= self@.origin_lines(origin@));
        headers
    }

    fn permits_header(&self, name: &str) -> (permits: bool)
        ensures
            permits == self@.permits_header(name@),
    {
        let bytes = name.as_bytes();
        if name.is_empty() || eq_ignore_case(bytes, "accept".as_bytes()) || eq_ignore_case(
            bytes,
            "accept-language".as_bytes(),
        ) || eq_ignore_case(bytes, "content-language".as_bytes()) || eq_ignore_case(
            bytes,
            "content-type".as_bytes(),
        ) {
            return true;
        }
        let mut i: usize = 0;
        while i < self.allow_headers.len()
            invariant
                0 <= i <= self.allow_headers@.len(),
                bytes@ == encode_utf8(name@),
                forall|j: int|
                    0 <= j < i ==> !same_ignoring_case(
                        encode_utf8(name@),
                        encode_utf8(#[trigger] self@.allow_headers[j]),
                    ),
            decreases self.allow_headers@.len() - i,
        {
            assert(self@.allow_headers[i as int] == self.allow_headers@[i as int]@);
            if eq_ignore_case(bytes, self.allow_headers[i].as_str().as_bytes()) {
                return true;
            }
            i += 1;
        }
        false
    }

    /// Whether all headers of a list, separated by commas, may be sent.
    pub fn permits_headers(&self, requested: &str) -> (permits: bool)
        ensures
            permits == self@.permits_headers(requested@),
    {
        if holds(&self.allow_headers, "*") {
            return true;
        }
        let ghost all = split(requested@, ',');
        let ghost mut done: int = 0;
        let mut pieces = Pieces::new(requested, 44);
        assert(all.skip(0) =~= all);
        loop
            invariant
                0 <= done <= all.len(),
                all == split(requested@, ','),
                pieces.separator() == ',',
                pieces.pieces() == all.skip(done),
                !self@.allow_headers.contains("*"@),
                forall|i: int|
                    0 <= i < done ==> self@.permits_header(
                        trim_end(trim_start(#[trigger] all[i])),
                    ),
            decreases all.len() - done,
        {
            match pieces.next() {
                None => {
                    return true;
                },
                Some(piece) => {
                    assert(piece@ == all[done]);
                    if !self.permits_header(trim(piece)) {
                        return false;
                    }
                    proof {
                        assert(all.skip(done).skip(1) =~= all.skip(done + 1));
                        done = done + 1;
                    }
                },
            }
        }
    }

    /// The answer to a preflight request; there is none for any other request.
    pub fn preflight(&self, request: &Request<'_>) -> (response: Option<Response>)
        ensures
            match response {
                Some(response) => self@.preflight_answer(request@) == Some(response@),
                None => self@.preflight_answer(request@) is None,
            },
    {
        if !same_text(request.method(), "OPTIONS") {
            return None;
        }
        let origin = match request.header("origin") {
            Some(value) => match text_of_bytes(value) {
                Some(origin) => origin,
                None => {
                    return None;
                },
            },
            None => {
                return None;
            },
        };
        let method = match request.header("access-control-request-method") {
            Some(value) => match text_of_bytes(value) {
                Some(method) => method,
                None => {
                    return None;
                },
            },
            None => {
                return None;
            },
        };
        proof {
            reveal_strlit("");
            assert(""@ =~= Seq::<char>::empty());
        }
        let requested = match request.header("access-control-request-headers") {
            Some(value) => match text_of_bytes(value) {
                Some(requested) => requested,
                None => "",
            },
            None => "",
        };
        let headers_allowed = self.permits_headers(requested);
        let allowed = self.permits_origin(origin) && holds(&self.allow_methods, method)
            && headers_allowed;
        let mut headers = self.response_headers(origin);
        proof {
            lemma_names();
            self@.lemma_origin_names(origin@);
        }
        insert(
            &mut headers,
            "access-control-allow-methods",
            glue_strings(&self.allow_methods, ", ").as_str(),
        );
        insert(&mut headers, "access-control-max-age", decimal_text(self.max_age as u128).as_str());
        if !requested.is_empty() && headers_allowed {
            insert(&mut headers, "access-control-allow-headers", requested);
        }
        assert(header_lines(headers) =~= self@.preflight_lines(origin@, requested@));
        let response = if allowed {
            Response::static_bytes(StatusCode::new(200), "OK".as_bytes())
        } else {
            Response::static_bytes(StatusCode::new(400), "Disallowed CORS request".as_bytes())
        };
        Some(
            response.content_type("text/plain; charset=utf-8").with_http_headers(
                &headers,
                request.response_arena(),
            ),
        )
    }

    /// Adds the policy's headers to the answer to a request from this origin.
    pub fn apply(
        &self,
        origin: Option<&[u8]>,
        response: Response,
        arena: &EphemeralBytesArena,
    ) -> (applied: Response)
        ensures
            applied@ == self@.applied(bytes_of(origin), response@),
    {
        match origin {
            Some(origin) => match text_of_bytes(origin) {
                Some(origin) => response.with_http_headers(&self.response_headers(origin), arena),
                None => response,
            },
            None => response,
        }
    }
}

impl CorsModel {
    proof fn lemma_origin_names(self, origin: Seq<char>)
        ensures
            origin_names(self.origin_lines(origin)),
    {
        lemma_names();
    }
}

/// Whether every value names a header or is `*`.
fn all_headers(values: &Vec<String>) -> (all: bool)
    ensures
        all == headers_or_any(string_texts(values@)),
{
    let mut i: usize = 0;
    while i < values.len()
        invariant
            0 <= i <= values@.len(),
            forall|j: int| 0 <= j < i ==> header_or_any(#[trigger] string_texts(values@)[j]),
        decreases values@.len() - i,
    {
        assert(string_texts(values@)[i as int] == values@[i as int]@);
        if !(same_text(values[i].as_str(), "*") || accepts_name(values[i].as_str().as_bytes())) {
            return false;
        }
        i += 1;
    }
    true
}

/// An origin that the policy does not permit is never named as permitted,
/// neither in an answer nor in the answer to a preflight request.
pub proof fn law_refused_origins_are_not_named(
    cors: CorsModel,
    origin: Seq<char>,
    requested: Seq<char>,
)
    requires
        !cors.permits_origin(origin),
    ensures
        cors.origin_lines(origin).len() == 0,
        !has_line(
            cors.preflight_lines(origin, requested),
            "access-control-allow-origin".spec_bytes(),
        ),
{
    lemma_names();
}

/// A policy that allows credentials names the origin itself as the permitted
/// one, never all of them, and tells caches that the answer depends on it.
pub proof fn law_credentials_name_the_origin(
    cors: CorsModel,
    origin: Seq<char>,
    requested: Seq<char>,
    line: (Seq<u8>, Seq<u8>),
)
    requires
        cors.allow_credentials,
        cors.preflight_lines(origin, requested).contains(line) || cors.origin_lines(
            origin,
        ).contains(line),
        line.0 == "access-control-allow-origin".spec_bytes(),
    ensures
        line.1 == encode_utf8(origin),
        has_line(cors.origin_lines(origin), "vary".spec_bytes()),
        has_line(cors.preflight_lines(origin, requested), "vary".spec_bytes()),
{
    lemma_names();
    let lines = cors.origin_lines(origin);
    let preflight = cors.preflight_lines(origin, requested);
    assert(preflight.take(lines.len() as int) =~= lines);
    let vary = ("vary".spec_bytes(), "Origin".spec_bytes());
    if cors.permits_origin(origin) {
        let at = optional_line(
            "access-control-allow-origin".spec_bytes(),
            origin,
        ).len() as int;
        assert(lines[at] == vary);
        assert(preflight[at] == vary);
    }
}

} // verus!
