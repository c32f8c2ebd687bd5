//! The errors of the gateway, their texts and the statuses they are answered with.
use vstd::prelude::*;

use crate::text::{
    concat, concat3, contains_text, decimal, law_contained_text_has_a_place, option_text,
    push_decimal, push_digits, texts,
};

verus! {

pub type ProxyResult<T> = Result<T, ProxyError>;

/// Why a proxied request failed. A timeout is given in seconds, a recovery time in
/// milliseconds of Unix time; the failures of other components are held by their texts.
#[derive(Debug, PartialEq, Eq)]
pub enum ProxyError {
    ClientAuthFailed,
    ModelNotFound(String),
    AllKeysDisabled { model: String },
    AllKeysCooldown { model: String, earliest_recovery: Option<i64> },
    AllKeysQuotaExhausted { model: String },
    AllKeysExhausted { model: String, attempted_keys: Vec<String>, last_error: Option<String> },
    Upstream { status: u16, body: String },
    InvalidRequest(String),
    Translator(String),
    Storage(String),
    Config(String),
    Io(String),
    Json(String),
    Http(String),
    UpstreamTimeout(u64),
}

/// What the debug format of std makes of a list of strings.
pub uninterp spec fn debug_texts(v: Seq<Seq<char>>) -> Seq<char>;

/// `format!` with `{:?}` on a list of strings: its result depends on the strings alone.
#[verifier::external_body]
fn debug_of_texts(v: &Vec<String>) -> (r: String)
    ensures
        r@ == debug_texts(texts(v@)),
{
    format!("{:?}", v)
}

/// What the debug format of std makes of an optional string.
pub uninterp spec fn debug_option(v: Option<Seq<char>>) -> Seq<char>;

/// `format!` with `{:?}` on an optional string: its result depends on the string alone.
#[verifier::external_body]
fn debug_of_option(v: &Option<String>) -> (r: String)
    ensures
        r@ == debug_option(option_text(*v)),
{
    format!("{:?}", v)
}

/// How chrono's debug format shows an optional time in milliseconds of Unix time.
pub uninterp spec fn debug_time(ms: Option<i64>) -> Seq<char>;

/// `format!` with `{:?}` on what `chrono::DateTime::from_timestamp_millis` makes of a time:
/// its result depends on the time alone.
#[verifier::external_body]
fn debug_of_time(ms: Option<i64>) -> (r: String)
    ensures
        r@ == debug_time(ms),
{
    format!("{:?}", ms.and_then(chrono::DateTime::from_timestamp_millis))
}

/// A whole number of seconds as std's debug format shows a duration.
pub open spec fn duration_text(secs: u64) -> Seq<char> {
    if secs == 0 {
        "0ns"@
    } else {
        decimal(secs as int) + "s"@
    }
}

impl ProxyError {
    /// The text of the error.
    pub open spec fn spec_message(self) -> Seq<char> {
        match self {
            ProxyError::ClientAuthFailed => "client auth failed"@,
            ProxyError::ModelNotFound(m) => "model not found: "@ + m@,
            ProxyError::AllKeysDisabled { model } => "all keys disabled for model: "@ + model@,
            ProxyError::AllKeysCooldown { model, earliest_recovery } =>
                "all keys in cooldown for model: "@ + model@ + ", earliest recovery: "@
                    + debug_time(earliest_recovery),
            ProxyError::AllKeysQuotaExhausted { model } => "all keys quota exhausted for model: "@
                + model@,
            ProxyError::AllKeysExhausted { model, attempted_keys, last_error } =>
                "all keys exhausted for model: "@ + model@ + ", attempted: "@ + debug_texts(
                    texts(attempted_keys@),
                ) + ", last: "@ + debug_option(option_text(last_error)),
            ProxyError::Upstream { status, body } => "upstream error: status "@ + decimal(
                status as int,
            ) + ", body: "@ + body@,
            ProxyError::InvalidRequest(m) => "invalid request: "@ + m@,
            ProxyError::Translator(m) => "translator error: "@ + m@,
            ProxyError::Storage(m) => "storage error: "@ + m@,
            ProxyError::Config(m) => "config error: "@ + m@,
            ProxyError::Io(m) => "io error: "@ + m@,
            ProxyError::Json(m) => "json error: "@ + m@,
            ProxyError::Http(m) => "http error: "@ + m@,
            ProxyError::UpstreamTimeout(secs) => "upstream timeout after "@ + duration_text(secs),
        }
    }

    /// The text of the error.
    pub fn message(&self) -> (r: String)
        ensures
            r@ == self.spec_message(),
    {
        match self {
            ProxyError::ClientAuthFailed => "client auth failed".to_owned(),
            ProxyError::ModelNotFound(m) => concat("model not found: ", m.as_str()),
            ProxyError::AllKeysDisabled { model } => concat(
                "all keys disabled for model: ",
                model.as_str(),
            ),
            ProxyError::AllKeysCooldown { model, earliest_recovery } => {
                let mut r = concat3(
                    "all keys in cooldown for model: ",
                    model.as_str(),
                    ", earliest recovery: ",
                );
                r.append(debug_of_time(*earliest_recovery).as_str());
                r
            },
            ProxyError::AllKeysQuotaExhausted { model } => concat(
                "all keys quota exhausted for model: ",
                model.as_str(),
            ),
            ProxyError::AllKeysExhausted { model, attempted_keys, last_error } => {
                let mut r = concat3(
                    "all keys exhausted for model: ",
                    model.as_str(),
                    ", attempted: ",
                );
                r.append(debug_of_texts(attempted_keys).as_str());
                r.append(", last: ");
                r.append(debug_of_option(last_error).as_str());
                r
            },
            ProxyError::Upstream { status, body } => {
                let mut r = "upstream error: status ".to_owned();
                push_decimal(&mut r, *status as i64);
                r.append(", body: ");
                r.append(body.as_str());
                r
            },
            ProxyError::InvalidRequest(m) => concat("invalid request: ", m.as_str()),
            ProxyError::Translator(m) => concat("translator error: ", m.as_str()),
            ProxyError::Storage(m) => concat("storage error: ", m.as_str()),
            ProxyError::Config(m) => concat("config error: ", m.as_str()),
            ProxyError::Io(m) => concat("io error: ", m.as_str()),
            ProxyError::Json(m) => concat("json error: ", m.as_str()),
            ProxyError::Http(m) => concat("http error: ", m.as_str()),
            ProxyError::UpstreamTimeout(secs) => {
                let mut r = "upstream timeout after ".to_owned();
                if *secs == 0 {
                    r.append("0ns");
                } else {
                    let ghost front = r@;
                    push_digits(&mut r, *secs);
                    r.append("s");
                    proof {
                        assert(r@ =~= front + (decimal(*secs as int) + "s"@));
                    }
                }
                r
            },
        }
    }

    pub open spec fn spec_is_retryable(self) -> bool {
        match self {
            ProxyError::Upstream { status, .. } => status == 429 || 500 <= status < 600,
            ProxyError::UpstreamTimeout(_) => true,
            _ => false,
        }
    }

    pub open spec fn spec_is_fatal(self) -> bool {
        match self {
            ProxyError::Upstream { status, .. } => status == 401 || status == 403,
            _ => false,
        }
    }

    pub open spec fn spec_is_invalid_request(self) -> bool {
        match self {
            ProxyError::Upstream { status, .. } => status == 400 || status == 422,
            ProxyError::InvalidRequest(_) => true,
            _ => false,
        }
    }

    pub open spec fn spec_http_status(self) -> u16 {
        match self {
            ProxyError::ClientAuthFailed => 401,
            ProxyError::ModelNotFound(_) => 404,
            ProxyError::AllKeysDisabled { .. } => 503,
            ProxyError::AllKeysCooldown { .. } => 503,
            ProxyError::AllKeysQuotaExhausted { .. } => 503,
            ProxyError::AllKeysExhausted { .. } => 503,
            ProxyError::Upstream { status, .. } => status,
            ProxyError::InvalidRequest(_) => 400,
            ProxyError::Translator(_) => 502,
            ProxyError::Storage(_) => 500,
            ProxyError::Config(_) => 500,
            ProxyError::Io(_) => 500,
            ProxyError::Json(_) => 500,
            ProxyError::Http(_) => 500,
            ProxyError::UpstreamTimeout(_) => 504,
        }
    }

    /// Whether another try may succeed: the upstream was overloaded, failed or was too slow.
    pub fn is_retryable(&self) -> (r: bool)
        ensures
            r == self.spec_is_retryable(),
    {
        match self {
            ProxyError::Upstream { status, .. } => *status == 429 || (*status >= 500 && *status
                < 600),
            ProxyError::UpstreamTimeout(_) => true,
            _ => false,
        }
    }

    /// Whether the upstream refused the credential.
    pub fn is_fatal(&self) -> (r: bool)
        ensures
            r == self.spec_is_fatal(),
    {
        match self {
            ProxyError::Upstream { status, .. } => *status == 401 || *status == 403,
            _ => false,
        }
    }

    /// Whether the request itself is at fault.
    pub fn is_invalid_request(&self) -> (r: bool)
        ensures
            r == self.spec_is_invalid_request(),
    {
        match self {
            ProxyError::Upstream { status, .. } => *status == 400 || *status == 422,
            ProxyError::InvalidRequest(_) => true,
            _ => false,
        }
    }

    /// The HTTP status that the error is answered with.
    pub fn http_status(&self) -> (r: u16)
        ensures
            r == self.spec_http_status(),
    {
        match self {
            ProxyError::ClientAuthFailed => 401,
            ProxyError::ModelNotFound(_) => 404,
            ProxyError::AllKeysDisabled { .. } => 503,
            ProxyError::AllKeysCooldown { .. } => 503,
            ProxyError::AllKeysQuotaExhausted { .. } => 503,
            ProxyError::AllKeysExhausted { .. } => 503,
            ProxyError::Upstream { status, .. } => *status,
            ProxyError::InvalidRequest(_) => 400,
            ProxyError::Translator(_) => 502,
            ProxyError::Storage(_) => 500,
            ProxyError::Config(_) => 500,
            ProxyError::Io(_) => 500,
            ProxyError::Json(_) => 500,
            ProxyError::Http(_) => 500,
            ProxyError::UpstreamTimeout(_) => 504,
        }
    }

    pub open spec fn spec_error_type(self) -> Seq<char> {
        match self {
            ProxyError::ClientAuthFailed => "authentication_error"@,
            ProxyError::ModelNotFound(_) => "not_found_error"@,
            ProxyError::AllKeysDisabled { .. } => "service_unavailable"@,
            ProxyError::AllKeysCooldown { .. } => "service_unavailable"@,
            ProxyError::AllKeysQuotaExhausted { .. } => "service_unavailable"@,
            ProxyError::AllKeysExhausted { .. } => "service_unavailable"@,
            ProxyError::Upstream { .. } => "upstream_error"@,
            ProxyError::InvalidRequest(_) => "invalid_request_error"@,
            ProxyError::Translator(_) => "translator_error"@,
            ProxyError::Storage(_) => "internal_error"@,
            ProxyError::Config(_) => "config_error"@,
            ProxyError::Io(_) => "internal_error"@,
            ProxyError::Json(_) => "internal_error"@,
            ProxyError::Http(_) => "internal_error"@,
            ProxyError::UpstreamTimeout(_) => "timeout_error"@,
        }
    }

    /// The name of the kind of error in an error response.
    pub fn error_type_name(&self) -> (r: &'static str)
        ensures
            r@ == self.spec_error_type(),
    {
        match self {
            ProxyError::ClientAuthFailed => "authentication_error",
            ProxyError::ModelNotFound(_) => "not_found_error",
            ProxyError::AllKeysDisabled { .. } => "service_unavailable",
            ProxyError::AllKeysCooldown { .. } => "service_unavailable",
            ProxyError::AllKeysQuotaExhausted { .. } => "service_unavailable",
            ProxyError::AllKeysExhausted { .. } => "service_unavailable",
            ProxyError::Upstream { .. } => "upstream_error",
            ProxyError::InvalidRequest(_) => "invalid_request_error",
            ProxyError::Translator(_) => "translator_error",
            ProxyError::Storage(_) => "internal_error",
            ProxyError::Config(_) => "config_error",
            ProxyError::Io(_) => "internal_error",
            ProxyError::Json(_) => "internal_error",
            ProxyError::Http(_) => "internal_error",
            ProxyError::UpstreamTimeout(_) => "timeout_error",
        }
    }
}

/// No error is at once worth a retry, fatal to a key or the client's own fault.
pub proof fn law_error_classes_are_disjoint(e: ProxyError)
    ensures
        !(e.spec_is_retryable() && e.spec_is_fatal()),
        !(e.spec_is_retryable() && e.spec_is_invalid_request()),
        !(e.spec_is_fatal() && e.spec_is_invalid_request()),
{
}

/// Why an admin request failed.
#[derive(Debug, PartialEq, Eq)]
pub enum AdminError {
    NotFound(String),
    BadRequest(String),
    Unauthorized(String),
    Forbidden(String),
    Conflict(String),
    BadGateway(String),
    Internal(String),
}

pub type AdminResult<T> = Result<T, AdminError>;

impl AdminError {
    pub open spec fn spec_status(self) -> u16 {
        match self {
            AdminError::NotFound(_) => 404,
            AdminError::BadRequest(_) => 400,
            AdminError::Unauthorized(_) => 401,
            AdminError::Forbidden(_) => 403,
            AdminError::Conflict(_) => 409,
            AdminError::BadGateway(_) => 502,
            AdminError::Internal(_) => 500,
        }
    }

    pub open spec fn spec_message(self) -> Seq<char> {
        match self {
            AdminError::NotFound(m) => m@,
            AdminError::BadRequest(m) => m@,
            AdminError::Unauthorized(m) => m@,
            AdminError::Forbidden(m) => m@,
            AdminError::Conflict(m) => m@,
            AdminError::BadGateway(m) => m@,
            AdminError::Internal(m) => m@,
        }
    }

    /// The HTTP status that the error is answered with.
    pub fn status(&self) -> (r: u16)
        ensures
            r == self.spec_status(),
    {
        match self {
            AdminError::NotFound(_) => 404,
            AdminError::BadRequest(_) => 400,
            AdminError::Unauthorized(_) => 401,
            AdminError::Forbidden(_) => 403,
            AdminError::Conflict(_) => 409,
            AdminError::BadGateway(_) => 502,
            AdminError::Internal(_) => 500,
        }
    }

    /// The text of the error.
    pub fn message(&self) -> (r: String)
        ensures
            r@ == self.spec_message(),
    {
        match self {
            AdminError::NotFound(m) => m.clone(),
            AdminError::BadRequest(m) => m.clone(),
            AdminError::Unauthorized(m) => m.clone(),
            AdminError::Forbidden(m) => m.clone(),
            AdminError::Conflict(m) => m.clone(),
            AdminError::BadGateway(m) => m.clone(),
            AdminError::Internal(m) => m.clone(),
        }
    }

    /// The admin error for a failure of the proxy: an unknown model is not found, an invalid
    /// request a bad one, and anything else internal.
    pub fn from_proxy(e: ProxyError) -> (r: AdminError)
        ensures
            match e {
                ProxyError::ModelNotFound(m) => r == AdminError::NotFound(m),
                ProxyError::InvalidRequest(m) => r == AdminError::BadRequest(m),
                _ => r is Internal && r.spec_message() == e.spec_message(),
            },
    {
        let text = e.message();
        match e {
            ProxyError::ModelNotFound(m) => AdminError::NotFound(m),
            ProxyError::InvalidRequest(m) => AdminError::BadRequest(m),
            _ => AdminError::Internal(text),
        }
    }
}

/// An error is retryable where the upstream was too busy, failed itself or did not answer in time;
/// fatal where it refused the key; the client's fault where the request was malformed.
pub proof fn law_error_classes_go_by_status(e: ProxyError)
    ensures
        e matches ProxyError::Upstream { status, .. } ==> {
            &&& e.spec_is_retryable() <==> (status == 429 || status / 100 == 5)
            &&& e.spec_is_fatal() <==> (status == 401 || status == 403)
            &&& e.spec_is_invalid_request() <==> (status == 400 || status == 422)
        },
        e !is Upstream ==> {
            &&& e.spec_is_retryable() <==> e is UpstreamTimeout
            &&& !e.spec_is_fatal()
            &&& e.spec_is_invalid_request() <==> e is InvalidRequest
        },
{
}

/// The status of an answer tells whose fault an error is: an upstream's answer is passed on, a
/// client's mistake has a status from 400, and everything else one from 500.
pub proof fn law_statuses_tell_whose_fault_it_is(e: ProxyError)
    ensures
        e matches ProxyError::Upstream { status, .. } ==> e.spec_http_status() == status,
        e !is Upstream ==> {
            &&& 400 <= e.spec_http_status() < 600
            &&& e.spec_http_status() < 500 <==> (e is ClientAuthFailed || e is ModelNotFound || e
                is InvalidRequest)
            &&& e.spec_http_status() == 401 <==> e is ClientAuthFailed
            &&& e.spec_http_status() == 404 <==> e is ModelNotFound
            &&& e.spec_http_status() == 400 <==> e is InvalidRequest
            &&& e.spec_http_status() == 503 <==> (e is AllKeysDisabled || e is AllKeysCooldown || e
                is AllKeysQuotaExhausted || e is AllKeysExhausted)
            &&& e.spec_http_status() == 502 <==> e is Translator
            &&& e.spec_http_status() == 504 <==> e is UpstreamTimeout
            &&& e.spec_http_status() == 500 <==> (e is Storage || e is Config || e is Io || e is Json
                || e is Http)
        },
{
}

/// The type of an error that is not an upstream's goes with its status.
pub proof fn law_error_types_go_with_statuses(e: ProxyError)
    ensures
        e is Upstream ==> e.spec_error_type() == "upstream_error"@,
        e !is Upstream ==> {
            &&& e.spec_http_status() == 401 ==> e.spec_error_type() == "authentication_error"@
            &&& e.spec_http_status() == 404 ==> e.spec_error_type() == "not_found_error"@
            &&& e.spec_http_status() == 400 ==> e.spec_error_type() == "invalid_request_error"@
            &&& e.spec_http_status() == 503 ==> e.spec_error_type() == "service_unavailable"@
            &&& e.spec_http_status() == 502 ==> e.spec_error_type() == "translator_error"@
            &&& e.spec_http_status() == 504 ==> e.spec_error_type() == "timeout_error"@
            &&& e.spec_http_status() == 500 && e !is Config ==> e.spec_error_type()
                == "internal_error"@
            &&& e is Config ==> e.spec_error_type() == "config_error"@
        },
{
}

/// A text ends with another.
pub open spec fn ends_with(s: Seq<char>, end: Seq<char>) -> bool {
    s.len() >= end.len() && s.subrange(s.len() - end.len(), s.len() as int) == end
}

proof fn lemma_ends_with(front: Seq<char>, end: Seq<char>)
    ensures
        ends_with(front + end, end),
{
    assert((front + end).subrange((front + end).len() - end.len(), (front + end).len() as int)
        =~= end);
}

/// The message of an error ends with the text that the error carries, an upstream's with its
/// answer.
pub proof fn law_message_ends_with_its_text(e: ProxyError, text: Seq<char>)
    requires
        match e {
            ProxyError::ModelNotFound(m) => m@ == text,
            ProxyError::AllKeysDisabled { model } => model@ == text,
            ProxyError::AllKeysQuotaExhausted { model } => model@ == text,
            ProxyError::Upstream { body, .. } => body@ == text,
            ProxyError::InvalidRequest(m) => m@ == text,
            ProxyError::Translator(m) => m@ == text,
            ProxyError::Storage(m) => m@ == text,
            ProxyError::Config(m) => m@ == text,
            ProxyError::Io(m) => m@ == text,
            ProxyError::Json(m) => m@ == text,
            ProxyError::Http(m) => m@ == text,
            _ => false,
        },
    ensures
        ends_with(e.spec_message(), text),
{
    lemma_ends_with("model not found: "@, text);
    lemma_ends_with("all keys disabled for model: "@, text);
    lemma_ends_with("all keys quota exhausted for model: "@, text);
    lemma_ends_with("invalid request: "@, text);
    lemma_ends_with("translator error: "@, text);
    lemma_ends_with("storage error: "@, text);
    lemma_ends_with("config error: "@, text);
    lemma_ends_with("io error: "@, text);
    lemma_ends_with("json error: "@, text);
    lemma_ends_with("http error: "@, text);
    if let ProxyError::Upstream { status, .. } = e {
        lemma_ends_with("upstream error: status "@ + decimal(status as int) + ", body: "@, text);
    }
}

/// Each kind of error of the admin interface has a status of its own.
pub proof fn law_admin_statuses(e: AdminError)
    ensures
        e.spec_status() == 404 <==> e is NotFound,
        e.spec_status() == 400 <==> e is BadRequest,
        e.spec_status() == 401 <==> e is Unauthorized,
        e.spec_status() == 403 <==> e is Forbidden,
        e.spec_status() == 409 <==> e is Conflict,
        e.spec_status() == 502 <==> e is BadGateway,
        e.spec_status() == 500 <==> e is Internal,
{
}

/// The message about keys that are all spent or cooling names their model, and what follows tells
/// the keys that were tried, the last error or the recovery.
pub proof fn law_spent_keys_are_told_with_their_model(e: ProxyError)
    ensures
        e matches ProxyError::AllKeysExhausted { model, attempted_keys, last_error } ==> {
            &&& contains_text(e.spec_message(), model@)
            &&& contains_text(e.spec_message(), debug_texts(texts(attempted_keys@)))
            &&& ends_with(e.spec_message(), debug_option(option_text(last_error)))
        },
        e matches ProxyError::AllKeysCooldown { model, earliest_recovery } ==> {
            &&& contains_text(e.spec_message(), model@)
            &&& ends_with(e.spec_message(), debug_time(earliest_recovery))
        },
{
    let m = e.spec_message();
    if let ProxyError::AllKeysExhausted { model, attempted_keys, last_error } = e {
        let tried = debug_texts(texts(attempted_keys@));
        let last = debug_option(option_text(last_error));
        let front = "all keys exhausted for model: "@;
        assert(m =~= front + model@ + (", attempted: "@ + tried + ", last: "@ + last));
        law_contained_text_has_a_place(m, model@);
        assert(m =~= (front + model@ + ", attempted: "@) + tried + (", last: "@ + last));
        law_contained_text_has_a_place(m, tried);
        lemma_ends_with(front + model@ + ", attempted: "@ + tried + ", last: "@, last);
    }
    if let ProxyError::AllKeysCooldown { model, earliest_recovery } = e {
        let time = debug_time(earliest_recovery);
        let front = "all keys in cooldown for model: "@;
        assert(m =~= front + model@ + (", earliest recovery: "@ + time));
        law_contained_text_has_a_place(m, model@);
        lemma_ends_with(front + model@ + ", earliest recovery: "@, time);
    }
}

/// A timeout is told in seconds.
pub proof fn law_timeouts_are_told_in_seconds(secs: u64)
    ensures
        secs > 0 ==> ProxyError::UpstreamTimeout(secs).spec_message() == "upstream timeout after "@
            + decimal(secs as int) + "s"@,
        secs == 0 ==> ProxyError::UpstreamTimeout(secs).spec_message() == "upstream timeout after "@
            + "0ns"@,
{
    assert("upstream timeout after "@ + (decimal(secs as int) + "s"@) =~= "upstream timeout after "@
        + decimal(secs as int) + "s"@);
}

} // verus!
