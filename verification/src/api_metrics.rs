//! Metrics and log lines of answered requests.
use brz_ds::SmolStr;
use brz_io::ReaderView;
use brz_metrics::Metric;

use vstd::prelude::*;

#[allow(unused_imports)]
use crate::request::view_bytes;
use crate::response::StatusCode;
use crate::server::write::decimal_text;
use crate::server::{Duration, ParsedHead};
use crate::text::glue_strings;
#[allow(unused_imports)]
use crate::text::{decimal, glued, string_texts};

use self::logging::{BodyExcerpt, RequestLog};
#[allow(unused_imports)]
use self::logging::{
    client_ip_text, cut_text, excerpt_text, logged_request, request_id_text, RequestLogModel,
    METHOD_BYTES, TARGET_BYTES,
};

pub mod logging;

verus! {

/// A counter of `brz_metrics`.
#[verifier::external_type_specification]
#[verifier::external_body]
pub struct ExMetric(Metric);

/// The kind that a counter is listed under, and its name.
pub uninterp spec fn counter_name(metric: Metric) -> (Seq<char>, Seq<char>);

/// `Metric::api`: the counter of answers under a name, registered where it was
/// not yet. What it holds is shared by the process and left open.
pub assume_specification[ Metric::api ](name: &str) -> (metric: Metric)
    ensures
        counter_name(metric) == ("API"@, name@),
;

/// `Metric::api_3xx`: the counter of redirects under a name.
pub assume_specification[ Metric::api_3xx ](name: &str) -> (metric: Metric)
    ensures
        counter_name(metric) == ("API3XX"@, name@),
;

/// `Metric::api_4xx`: the counter of client errors under a name.
pub assume_specification[ Metric::api_4xx ](name: &str) -> (metric: Metric)
    ensures
        counter_name(metric) == ("API4XX"@, name@),
;

/// `Metric::api_5xx`: the counter of server errors under a name.
pub assume_specification[ Metric::api_5xx ](name: &str) -> (metric: Metric)
    ensures
        counter_name(metric) == ("API5XX"@, name@),
;

/// `Metric::api_timeout`: the counter of timeouts under a name.
pub assume_specification[ Metric::api_timeout ](name: &str) -> (metric: Metric)
    ensures
        counter_name(metric) == ("APITO"@, name@),
;

/// `Metric::record`: counts one operation of this duration. The counter is
/// shared by the process, so what it holds afterwards is left open.
#[verifier::external_body]
fn record_metric(metric: &Metric, seconds: u64, nanos: u32, success: bool)
    requires
        nanos < 1_000_000_000,
{
    metric.record(std::time::Duration::new(seconds, nanos), success)
}

/// The counter that an answer is counted by, and whether it counts as a success.
#[derive(Clone, Copy, Debug, PartialEq, Eq, Structural)]
pub enum Counted {
    /// An answer of this class of status.
    Status { class: u16, success: bool },
    /// An answer that was not ready in time.
    Timeout,
}

/// How an answer is counted. Statuses outside of the classes 2 to 5 are not.
pub open spec fn counted(status: u16, timed_out: bool) -> Option<Counted> {
    if timed_out {
        Some(Counted::Timeout)
    } else if 200 <= status < 600 {
        Some(Counted::Status { class: (status / 100) as u16, success: status < 400 })
    } else {
        None
    }
}

/// The kind of the counter for an answer that is counted so.
pub open spec fn counter_kind(how: Counted) -> Seq<char> {
    match how {
        Counted::Status { class, .. } => if class == 2 {
            "API"@
        } else if class == 3 {
            "API3XX"@
        } else if class == 4 {
            "API4XX"@
        } else {
            "API5XX"@
        },
        Counted::Timeout => "APITO"@,
    }
}

/// Whether an answer that is counted so counts as a success.
pub open spec fn counts_as_success(how: Counted) -> bool {
    match how {
        Counted::Status { success, .. } => success,
        Counted::Timeout => false,
    }
}

/// Decides how an answer is counted.
pub fn count_as(status: StatusCode, timed_out: bool) -> (how: Option<Counted>)
    ensures
        how == counted(status.number(), timed_out),
        how matches Some(Counted::Status { class, .. }) ==> 2 <= class <= 5,
{
    let class: u16 = status.as_u16() / 100;
    if timed_out {
        Some(Counted::Timeout)
    } else if 2 <= class && class <= 5 {
        Some(Counted::Status { class, success: class < 4 })
    } else {
        None
    }
}

/// Counters of one route template.
#[derive(Clone, Copy, Debug)]
pub struct ApiMetrics {
    statuses: [Metric; 4],
    timeout: Metric,
}

impl ApiMetrics {
    /// The template that the counters are named after.
    pub closed spec fn template(self) -> Seq<char> {
        counter_name(self.timeout).1
    }

    #[verifier::type_invariant]
    spec fn consistent(self) -> bool {
        &&& counter_name(self.timeout).0 == "APITO"@
        &&& counter_name(self.statuses@[0]) == ("API"@, self.template())
        &&& counter_name(self.statuses@[1]) == ("API3XX"@, self.template())
        &&& counter_name(self.statuses@[2]) == ("API4XX"@, self.template())
        &&& counter_name(self.statuses@[3]) == ("API5XX"@, self.template())
    }

    /// Registers the counters of a route template, all of them under its name.
    pub fn new(name: &'static str) -> (metrics: Self)
        ensures
            metrics.template() == name@,
    {
        ApiMetrics {
            statuses: [
                Metric::api(name),
                Metric::api_3xx(name),
                Metric::api_4xx(name),
                Metric::api_5xx(name),
            ],
            timeout: Metric::api_timeout(name),
        }
    }

    /// The counter for an answer that is counted so.
    pub fn counter(&self, how: Counted) -> (metric: &Metric)
        requires
            how matches Counted::Status { class, .. } ==> 2 <= class <= 5,
        ensures
            counter_name(*metric) == (counter_kind(how), self.template()),
    {
        proof {
            use_type_invariant(self);
        }
        match how {
            Counted::Status { class, .. } => &self.statuses[(class - 2) as usize],
            Counted::Timeout => &self.timeout,
        }
    }

    /// The counter for an answer, and whether the answer counts as a success.
    pub fn entry(&self, status: StatusCode, timed_out: bool) -> (entry: Option<(&Metric, bool)>)
        ensures
            match counted(status.number(), timed_out) {
                Some(how) => entry matches Some((metric, success)) && counter_name(*metric) == (
                    counter_kind(how),
                    self.template(),
                ) && success == counts_as_success(how),
                None => entry is None,
            },
    {
        match count_as(status, timed_out) {
            Some(how) => {
                let success = match how {
                    Counted::Status { success, .. } => success,
                    Counted::Timeout => false,
                };
                Some((self.counter(how), success))
            },
            None => None,
        }
    }

    /// Counts an answer by its entry, and tells how it was counted.
    pub fn record(&self, status: StatusCode, timed_out: bool, elapsed: Duration) -> (how: Option<
        Counted,
    >)
        requires
            elapsed.fits(),
        ensures
            how == counted(status.number(), timed_out),
    {
        if let Some((metric, success)) = self.entry(status, timed_out) {
            record_metric(metric, elapsed.seconds(), elapsed.subsecond_nanos(), success);
        }
        count_as(status, timed_out)
    }
}

/// A short text of `brz_ds`.
#[verifier::external_type_specification]
#[verifier::external_body]
pub struct ExSmolStr(SmolStr);

/// The text that a `SmolStr` holds.
pub uninterp spec fn smol_text(text: SmolStr) -> Seq<char>;

/// `SmolStr::new`: an empty text.
pub assume_specification[ SmolStr::new ]() -> (text: SmolStr)
    ensures
        smol_text(text) == Seq::<char>::empty(),
;

/// `SmolStr::push_str`: appends a text, whatever its length.
pub assume_specification[ SmolStr::push_str ](text: &mut SmolStr, value: &str)
    ensures
        smol_text(*final(text)) == smol_text(*old(text)) + value@,
;

/// `SmolStr::as_str`: the text.
pub assume_specification[ SmolStr::as_str ](text: &SmolStr) -> (borrowed: &str)
    ensures
        borrowed@ == smol_text(*text),
;

/// Who a request is logged for.
#[derive(Debug)]
pub struct ApiLogContext {
    enabled: bool,
    auth_id: Option<SmolStr>,
}

impl Default for ApiLogContext {
    fn default() -> (context: Self)
        ensures
            !context.enabled(),
            context.principal() is None,
    {
        ApiLogContext { enabled: false, auth_id: None }
    }
}

impl ApiLogContext {
    pub closed spec fn enabled(self) -> bool {
        self.enabled
    }

    /// The principal that was set, if one was.
    pub closed spec fn principal(self) -> Option<Seq<char>> {
        match self.auth_id {
            Some(id) => Some(smol_text(id)),
            None => None,
        }
    }

    /// How the principal is logged.
    pub open spec fn auth_text(self) -> Seq<char> {
        match self.principal() {
            Some(id) => id,
            None => "-"@,
        }
    }

    /// Whether a principal would be taken: only the first one is, and only
    /// where lines are written. Others need not be formatted.
    pub open spec fn takes_principal(self) -> bool {
        self.enabled() && self.principal() is None
    }

    pub fn set_enabled(&mut self, enabled: bool)
        ensures
            final(self).enabled() == enabled,
            final(self).principal() == old(self).principal(),
    {
        self.enabled = enabled;
    }

    pub fn wants_auth_id(&self) -> (wanted: bool)
        ensures
            wanted == self.takes_principal(),
    {
        self.enabled && self.auth_id.is_none()
    }

    /// Keeps the principal's identifier, uncut, if it is the first one.
    pub fn set_auth_id(&mut self, id: &str)
        ensures
            final(self).enabled() == old(self).enabled(),
            final(self).principal() == (if old(self).takes_principal() {
                Some(id@)
            } else {
                old(self).principal()
            }),
    {
        if !self.wants_auth_id() {
            return;
        }
        let mut field = SmolStr::new();
        field.push_str(id);
        assert(smol_text(field) =~= id@);
        self.auth_id = Some(field);
    }

    pub fn auth_id(&self) -> (id: &str)
        ensures
            id@ == self.auth_text(),
    {
        match &self.auth_id {
            Some(id) => id.as_str(),
            None => "-",
        }
    }

    /// The field that keeps the principal's identifier.
    pub fn auth_field(&self) -> (field: Option<&SmolStr>)
        ensures
            match field {
                Some(field) => self.principal() == Some(smol_text(*field)),
                None => self.principal() is None,
            },
    {
        self.auth_id.as_ref()
    }
}

/// A length that may be unknown.
pub struct OptionalLength(pub Option<u64>);

/// How a length is logged.
pub open spec fn length_text(length: Option<u64>) -> Seq<char> {
    match length {
        Some(length) => decimal(length as nat),
        None => "-"@,
    }
}

impl OptionalLength {
    pub fn to_string(&self) -> (text: String)
        ensures
            text@ == length_text(self.0),
    {
        match self.0 {
            Some(length) => decimal_text(length as u128),
            None => "-".to_owned(),
        }
    }
}

/// How long a request takes at least that is logged as a slow one, in nanoseconds.
pub const SLOW_NANOS: u128 = 3_000_000_000;

/// What both kinds of lines say of an answer: method, target, status, duration
/// and the two lengths.
pub open spec fn answer_columns(
    request: RequestLogModel,
    status: u16,
    response_len: Option<u64>,
    millis: nat,
) -> Seq<Seq<char>> {
    seq![
        cut_text(request.method, METHOD_BYTES as int),
        cut_text(request.target, TARGET_BYTES as int),
        decimal(status as nat),
        decimal(millis) + "ms"@,
        decimal(request.request_len as nat),
        length_text(response_len),
    ]
}

/// The line of an API request.
pub open spec fn api_line(
    request: RequestLogModel,
    status: u16,
    response_len: Option<u64>,
    millis: nat,
    auth: Seq<char>,
) -> Seq<char> {
    glued(
        answer_columns(request, status, response_len, millis) + seq![
            client_ip_text(request.forwarded_for, request.peer_ip),
            auth,
            request_id_text(request.request_id),
        ],
        " "@,
    )
}

pub open spec fn flag_text(flag: bool) -> Seq<char> {
    if flag {
        "true"@
    } else {
        "false"@
    }
}

/// How a body that may be missing is logged.
pub open spec fn body_text(body: Option<Seq<u8>>) -> Seq<char> {
    match body {
        Some(body) => excerpt_text(body),
        None => Seq::empty(),
    }
}

/// The line of a slow request.
pub open spec fn slow_line(
    request: RequestLogModel,
    status: u16,
    response_len: Option<u64>,
    millis: nat,
    timed_out: bool,
    body: Option<Seq<u8>>,
) -> Seq<char> {
    glued(
        seq!["http-server"@] + answer_columns(request, status, response_len, millis) + seq![
            request.peer,
            flag_text(timed_out),
            body_text(body),
        ],
        " "@,
    )
}

/// The bytes of a view that may be missing.
pub open spec fn body_of(body: Option<ReaderView<'_>>) -> Option<Seq<u8>> {
    match body {
        Some(view) => Some(view_bytes(view)),
        None => None,
    }
}

/// What came of recording an answer: how it was counted, and the lines to write.
pub struct Recorded {
    pub counted: Option<Counted>,
    pub api: Option<String>,
    pub slow: Option<String>,
}

/// What is observed of one request.
pub struct Observation<'a> {
    metrics: Option<ApiMetrics>,
    api_log: bool,
    request: Option<RequestLog<'a>>,
    api_log_context: ApiLogContext,
}

impl<'a> Observation<'a> {
    /// The counters of the matched route, where it has some.
    pub closed spec fn metrics(self) -> Option<ApiMetrics> {
        self.metrics
    }

    /// Whether an API line is written.
    pub closed spec fn api_logged(self) -> bool {
        self.api_log
    }

    /// What is kept of the head, once it is known.
    pub closed spec fn request(self) -> Option<RequestLogModel> {
        match self.request {
            Some(request) => Some(request@),
            None => None,
        }
    }

    pub closed spec fn context(self) -> ApiLogContext {
        self.api_log_context
    }

    pub fn new() -> (observation: Self)
        ensures
            observation.metrics() is None,
            observation.api_logged(),
            observation.request() is None,
            !observation.context().enabled(),
            observation.context().principal() is None,
    {
        Observation {
            metrics: None,
            api_log: true,
            request: None,
            api_log_context: ApiLogContext::default(),
        }
    }

    /// Takes the counters of the route that matched. The duration of the
    /// request is measured from here on.
    pub fn matched(&mut self, metrics: Option<ApiMetrics>)
        ensures
            final(self).metrics() == metrics,
            final(self).api_logged() == old(self).api_logged(),
            final(self).request() == old(self).request(),
            final(self).context() == old(self).context(),
    {
        self.metrics = metrics;
    }

    pub fn set_api_log(&mut self, enabled: bool)
        ensures
            final(self).metrics() == old(self).metrics(),
            final(self).api_logged() == enabled,
            final(self).request() == old(self).request(),
            final(self).context().enabled() == enabled,
            final(self).context().principal() == old(self).context().principal(),
    {
        self.api_log = enabled;
        self.api_log_context.set_enabled(enabled);
    }

    /// Keeps the fields of a head that was parsed.
    pub fn request_head(
        &mut self,
        head: &ParsedHead<'a>,
        peer: &'a str,
        peer_ip: &'a str,
        request_len: usize,
    )
        requires
            head.method is Some,
            head.path is Some,
        ensures
            final(self).metrics() == old(self).metrics(),
            final(self).api_logged() == old(self).api_logged(),
            final(self).request() == Some(
                logged_request(*head, peer@, peer_ip@, request_len, old(self).api_logged()),
            ),
            final(self).context() == old(self).context(),
    {
        self.request = Some(RequestLog::new(head, peer, peer_ip, request_len, self.api_log));
    }

    pub fn api_log_context(&self) -> (context: &ApiLogContext)
        ensures
            *context == self.context(),
    {
        &self.api_log_context
    }

    /// Keeps the principal's identifier for the API line.
    pub fn set_auth_id(&mut self, id: &str)
        ensures
            final(self).metrics() == old(self).metrics(),
            final(self).api_logged() == old(self).api_logged(),
            final(self).request() == old(self).request(),
            final(self).context().enabled() == old(self).context().enabled(),
            final(self).context().principal() == (if old(self).context().takes_principal() {
                Some(id@)
            } else {
                old(self).context().principal()
            }),
    {
        self.api_log_context.set_auth_id(id);
    }

    /// The counter of the matched route for an answer, and whether the answer
    /// counts as a success.
    pub fn entry(&self, status: StatusCode, timed_out: bool) -> (entry: Option<(&Metric, bool)>)
        ensures
            match (self.metrics(), counted(status.number(), timed_out)) {
                (Some(metrics), Some(how)) => entry matches Some((metric, success)) && counter_name(
                    *metric,
                ) == (counter_kind(how), metrics.template()) && success == counts_as_success(how),
                _ => entry is None,
            },
    {
        match &self.metrics {
            Some(metrics) => metrics.entry(status, timed_out),
            None => None,
        }
    }

    /// Counts an answer by its entry and makes its log lines. An API line is made unless the
    /// route has it switched off, a slow line for a request that took too long.
    pub fn record(
        &self,
        status: StatusCode,
        response_len: Option<u64>,
        timed_out: bool,
        elapsed: Duration,
        body: Option<ReaderView<'_>>,
    ) -> (recorded: Recorded)
        requires
            elapsed.fits(),
        ensures
            recorded.counted == (if self.metrics() is Some {
                counted(status.number(), timed_out)
            } else {
                None
            }),
            match (self.request(), recorded.api) {
                (Some(request), Some(line)) => self.api_logged() && line@ == api_line(
                    request,
                    status.number(),
                    response_len,
                    elapsed.whole_millis(),
                    self.context().auth_text(),
                ),
                (Some(_), None) => !self.api_logged(),
                (None, line) => line is None,
            },
            match (self.request(), recorded.slow) {
                (Some(request), Some(line)) => elapsed.nanos >= SLOW_NANOS && line@ == slow_line(
                    request,
                    status.number(),
                    response_len,
                    elapsed.whole_millis(),
                    timed_out,
                    body_of(body),
                ),
                (Some(_), None) => elapsed.nanos < SLOW_NANOS,
                (None, line) => line is None,
            },
    {
        if let Some((metric, success)) = self.entry(status, timed_out) {
            record_metric(metric, elapsed.seconds(), elapsed.subsecond_nanos(), success);
        }
        let counted_as = match self.metrics {
            Some(_) => count_as(status, timed_out),
            None => None,
        };
        match &self.request {
            None => Recorded { counted: counted_as, api: None, slow: None },
            Some(request) => {
                let ghost columns = answer_columns(
                    request@,
                    status.number(),
                    response_len,
                    elapsed.whole_millis(),
                );
                let api = if self.api_log {
                    let mut words: Vec<String> = Vec::new();
                    push_columns(&mut words, request, status, response_len, elapsed);
                    words.push(request.client_ip().to_string());
                    words.push(self.api_log_context.auth_id().to_owned());
                    words.push(request.request_id().to_string());
                    assert(string_texts(words@) =~= columns + seq![
                        client_ip_text(request@.forwarded_for, request@.peer_ip),
                        self.context().auth_text(),
                        request_id_text(request@.request_id),
                    ]);
                    Some(glue_strings(&words, " "))
                } else {
                    None
                };
                let slow = if elapsed.nanos >= SLOW_NANOS {
                    let mut words: Vec<String> = Vec::new();
                    words.push("http-server".to_owned());
                    assert(string_texts(words@) =~= seq!["http-server"@]);
                    push_columns(&mut words, request, status, response_len, elapsed);
                    let ghost columns = string_texts(words@);
                    words.push(request.peer().to_owned());
                    words.push(
                        if timed_out {
                            "true".to_owned()
                        } else {
                            "false".to_owned()
                        },
                    );
                    words.push(BodyExcerpt(body).to_string());
                    assert(string_texts(words@) =~= columns + seq![
                        request@.peer,
                        flag_text(timed_out),
                        body_text(body_of(body)),
                    ]);
                    Some(glue_strings(&words, " "))
                } else {
                    None
                };
                Recorded { counted: counted_as, api, slow }
            },
        }
    }
}

fn push_columns(
    words: &mut Vec<String>,
    request: &RequestLog<'_>,
    status: StatusCode,
    response_len: Option<u64>,
    elapsed: Duration,
)
    requires
        elapsed.fits(),
    ensures
        string_texts(final(words)@) == string_texts(old(words)@) + answer_columns(
            request@,
            status.number(),
            response_len,
            elapsed.whole_millis(),
        ),
{
    let ghost before = words@;
    words.push(request.method().to_owned());
    words.push(request.target().to_owned());
    words.push(decimal_text(status.as_u16() as u128));
    words.push(decimal_text(elapsed.as_millis()).concat("ms"));
    words.push(decimal_text(request.request_len() as u128));
    words.push(OptionalLength(response_len).to_string());
    assert(string_texts(words@) =~= string_texts(before) + answer_columns(
        request@,
        status.number(),
        response_len,
        elapsed.whole_millis(),
    ));
}

} // verus!
