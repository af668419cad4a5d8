//! The HTTP webhook action: posts the rule snapshot as one JSON document
//! to a configured URL.
//!
//! Failure isolation shapes everything here: a fixed per-request timeout,
//! no retries, no queuing. A refused connection, a slow server, or a 500
//! all become counted, human-readable action errors; the engine keeps
//! running. The configuration checks, the request the executor sends and
//! the reading of what came back are here; the HTTP exchange itself is
//! the application's part.

use vstd::prelude::*;

use crate::actions::{ActionError, ActionRequest, ActionSummary};
use crate::json::{
    clone_json, i64_value, json_i64_value, json_object, json_text_value, members_view, object_of, text_value,
};
use crate::text::{
    char_is_whitespace, chars_of, concat2, concat3, debug_quoted, debug_string, decimal_u64,
    is_blank, is_white, owned, str_blank, u64_to_string,
};

verus! {

/// Default per-request timeout for webhook actions.
pub const DEFAULT_TIMEOUT_MS: u64 = 3_000;

/// Upper bound for the configurable timeout (keeps a misconfiguration
/// from parking worker threads indefinitely).
pub const MAX_TIMEOUT_MS: u64 = 30_000;

/// Cap on the number of configured headers.
pub const MAX_HEADERS: usize = 16;

/// Cap on the size of a header name or value, in bytes.
pub const MAX_HEADER_LEN: usize = 512;

/// The components `reqwest::Url::parse` finds in a URL: its scheme and
/// whether it has a host; `None` when the text is not a valid URL.
pub uninterp spec fn parsed_url(s: Seq<char>) -> Option<(Seq<char>, bool)>;

/// The text of the error `reqwest::Url::parse` reports for an invalid URL.
pub uninterp spec fn url_error_text(s: Seq<char>) -> Seq<char>;

/// Trusted: `reqwest::Url::parse`, read as its scheme and whether a host
/// is present (`parsed_url`), or the parse error's text (`url_error_text`);
/// both depend on the text alone.
#[verifier::external_body]
fn url_parts(url: &str) -> (r: Result<(String, bool), String>)
    ensures
        match r {
            Ok((scheme, has_host)) => parsed_url(url@) == Some((scheme@, has_host)),
            Err(m) => parsed_url(url@) is None && m@ == url_error_text(url@),
        },
{
    match reqwest::Url::parse(url) {
        Ok(parsed) => Ok((parsed.scheme().to_string(), parsed.host_str().is_some())),
        Err(error) => Err(error.to_string()),
    }
}

/// A single configured header.
#[derive(Debug, PartialEq, Eq)]
pub struct WebhookHeader {
    /// Header name, e.g. `authorization`.
    pub name: String,
    /// Header value.
    pub value: String,
}

impl Clone for WebhookHeader {
    fn clone(&self) -> (r: Self)
        ensures
            r == *self,
    {
        WebhookHeader { name: self.name.clone(), value: self.value.clone() }
    }
}

/// HTTP method for a webhook action: POST by default; PUT/PATCH for
/// state-update style receivers.
#[derive(Debug, Clone, Copy, PartialEq, Eq)]
pub enum WebhookMethod {
    /// POST (default).
    Post,
    /// PUT.
    Put,
    /// PATCH.
    Patch,
}

impl Default for WebhookMethod {
    fn default() -> (r: Self)
        ensures
            r == WebhookMethod::Post,
    {
        WebhookMethod::Post
    }
}

/// The method's name on the wire.
pub open spec fn method_name(m: WebhookMethod) -> Seq<char> {
    match m {
        WebhookMethod::Post => "POST"@,
        WebhookMethod::Put => "PUT"@,
        WebhookMethod::Patch => "PATCH"@,
    }
}

impl WebhookMethod {
    /// The method's name on the wire.
    pub fn as_str(self) -> (r: &'static str)
        ensures
            r@ == method_name(self),
    {
        match self {
            WebhookMethod::Post => "POST",
            WebhookMethod::Put => "PUT",
            WebhookMethod::Patch => "PATCH",
        }
    }
}

/// Configuration for one webhook action.
#[derive(Debug, PartialEq)]
pub struct WebhookConfig {
    /// Absolute `http://` or `https://` URL to deliver to.
    pub url: String,
    /// HTTP method. Default POST.
    pub method: WebhookMethod,
    /// Extra headers sent with the request.
    pub headers: Vec<WebhookHeader>,
    /// Per-request timeout in milliseconds. Default 3000, max 30000.
    pub timeout_ms: u64,
}

/// The default per-request timeout.
pub fn default_timeout_ms() -> (r: u64)
    ensures
        r == DEFAULT_TIMEOUT_MS,
{
    DEFAULT_TIMEOUT_MS
}

/// The number of bytes a character takes in UTF-8.
pub open spec fn utf8_width(c: char) -> nat {
    if (c as u32) < 0x80 {
        1
    } else if (c as u32) < 0x800 {
        2
    } else if (c as u32) < 0x10000 {
        3
    } else {
        4
    }
}

/// The number of bytes a text takes in UTF-8 (`str::len`).
pub open spec fn utf8_len(s: Seq<char>) -> nat
    decreases s.len(),
{
    if s.len() == 0 {
        0
    } else {
        utf8_len(s.drop_last()) + utf8_width(s.last())
    }
}

/// Whether the UTF-8 length of `s` exceeds `limit`.
fn longer_than(s: &str, limit: usize) -> (r: bool)
    ensures
        r == (utf8_len(s@) > limit),
{
    let chars = chars_of(s);
    let mut total: usize = 0;
    let mut i: usize = 0;
    while i < chars.len()
        invariant
            i <= chars@.len(),
            chars@ == s@,
            total == utf8_len(chars@.subrange(0, i as int)),
            total <= limit,
        decreases chars@.len() - i,
    {
        let ghost pre = chars@.subrange(0, i as int);
        assert(chars@.subrange(0, i + 1).drop_last() =~= pre);
        let c = chars[i];
        let w: usize = if (c as u32) < 0x80 {
            1
        } else if (c as u32) < 0x800 {
            2
        } else if (c as u32) < 0x10000 {
            3
        } else {
            4
        };
        if w > limit - total {
            proof {
                lemma_utf8_len_prefix(chars@, i + 1);
            }
            return true;
        }
        total = total + w;
        i += 1;
    }
    assert(chars@.subrange(0, i as int) =~= chars@);
    false
}

/// The UTF-8 length of a prefix is at most that of the whole.
proof fn lemma_utf8_len_prefix(s: Seq<char>, k: int)
    requires
        0 <= k <= s.len(),
    ensures
        utf8_len(s.subrange(0, k)) <= utf8_len(s),
    decreases s.len(),
{
    if k < s.len() {
        assert(s.drop_last().subrange(0, k) =~= s.subrange(0, k));
        lemma_utf8_len_prefix(s.drop_last(), k);
    } else {
        assert(s.subrange(0, k) =~= s);
    }
}

/// The header name has a whitespace character or a `:`.
pub open spec fn bad_header_name(name: Seq<char>) -> bool {
    exists|i: int| 0 <= i < name.len() && (is_white(#[trigger] name[i]) || name[i] == ':')
}

/// The first problem with a header, if any.
pub open spec fn header_problem(h: WebhookHeader) -> Option<Seq<char>> {
    if is_blank(h.name@) {
        Some("webhook header name must not be empty"@)
    } else if utf8_len(h.name@) > MAX_HEADER_LEN || utf8_len(h.value@) > MAX_HEADER_LEN {
        Some("webhook header name/value must be at most 512 bytes"@)
    } else if bad_header_name(h.name@) {
        Some("webhook header name "@ + debug_quoted(h.name@) + " must not contain whitespace or ':'"@)
    } else {
        None
    }
}

/// The first header problem among the first `n` headers.
pub open spec fn headers_problem(hs: Seq<WebhookHeader>, n: nat) -> Option<Seq<char>>
    decreases n,
{
    if n == 0 {
        None
    } else {
        match headers_problem(hs, (n - 1) as nat) {
            Some(m) => Some(m),
            None => header_problem(hs[n - 1]),
        }
    }
}

/// The first problem with a webhook configuration, if any: the URL must
/// parse, use http or https and have a host; the timeout must be within
/// `1..=30000` ms; at most 16 headers, each with a non-blank name without
/// whitespace or `:` and name and value of at most 512 bytes.
pub open spec fn config_problem(c: WebhookConfig) -> Option<Seq<char>> {
    let q = debug_quoted(c.url@);
    match parsed_url(c.url@) {
        None => Some("webhook url "@ + q + " is not a valid URL: "@ + url_error_text(c.url@)),
        Some((scheme, has_host)) => if scheme != "http"@ && scheme != "https"@ {
            Some("webhook url must use http:// or https://, got scheme "@ + debug_quoted(scheme) + " in "@ + q)
        } else if !has_host {
            Some("webhook url "@ + q + " has no host"@)
        } else if c.timeout_ms < 1 || c.timeout_ms > MAX_TIMEOUT_MS {
            Some("webhook timeout_ms must be 1..=30000, got "@ + decimal_u64(c.timeout_ms))
        } else if c.headers@.len() > MAX_HEADERS {
            Some("webhook headers must be at most 16 entries, got "@ + decimal_u64(c.headers@.len() as u64))
        } else {
            headers_problem(c.headers@, c.headers@.len())
        },
    }
}

/// Checks one header.
fn check_header(h: &WebhookHeader) -> (r: Result<(), String>)
    ensures
        match r {
            Ok(()) => header_problem(*h) is None,
            Err(m) => header_problem(*h) == Some(m@),
        },
{
    if str_blank(h.name.as_str()) {
        return Err(owned("webhook header name must not be empty"));
    }
    if longer_than(h.name.as_str(), MAX_HEADER_LEN) || longer_than(h.value.as_str(), MAX_HEADER_LEN) {
        return Err(owned("webhook header name/value must be at most 512 bytes"));
    }
    let chars = chars_of(h.name.as_str());
    let mut i: usize = 0;
    while i < chars.len()
        invariant
            i <= chars@.len(),
            chars@ == h.name@,
            !is_blank(h.name@),
            !(utf8_len(h.name@) > MAX_HEADER_LEN || utf8_len(h.value@) > MAX_HEADER_LEN),
            forall|k: int| 0 <= k < i ==> !(is_white(#[trigger] chars@[k]) || chars@[k] == ':'),
        decreases chars@.len() - i,
    {
        if char_is_whitespace(chars[i]) || chars[i] == ':' {
            proof {
                assert(is_white(h.name@[i as int]) || h.name@[i as int] == ':');
            }
            let q = debug_string(h.name.as_str());
            return Err(concat3("webhook header name ", q.as_str(), " must not contain whitespace or ':'"));
        }
        i += 1;
    }
    Ok(())
}

/// Configuration-time validation, so bad webhooks fail before deployment.
pub fn validate_config(config: &WebhookConfig) -> (r: Result<(), String>)
    ensures
        match r {
            Ok(()) => config_problem(*config) is None,
            Err(m) => config_problem(*config) == Some(m@),
        },
{
    let q = debug_string(config.url.as_str());
    let (scheme, has_host) = match url_parts(config.url.as_str()) {
        Ok(parts) => parts,
        Err(e) => {
            let head = concat3("webhook url ", q.as_str(), " is not a valid URL: ");
            return Err(concat2(head.as_str(), e.as_str()));
        },
    };
    let sc = chars_of(scheme.as_str());
    let http = chars_of("http");
    let https = chars_of("https");
    if !crate::text::chars_equal(&sc, &http) && !crate::text::chars_equal(&sc, &https) {
        let qs = debug_string(scheme.as_str());
        let head = concat3("webhook url must use http:// or https://, got scheme ", qs.as_str(), " in ");
        return Err(concat2(head.as_str(), q.as_str()));
    }
    if !has_host {
        return Err(concat3("webhook url ", q.as_str(), " has no host"));
    }
    if config.timeout_ms < 1 || config.timeout_ms > MAX_TIMEOUT_MS {
        let n = u64_to_string(config.timeout_ms);
        return Err(concat2("webhook timeout_ms must be 1..=30000, got ", n.as_str()));
    }
    if config.headers.len() > MAX_HEADERS {
        let n = u64_to_string(config.headers.len() as u64);
        return Err(concat2("webhook headers must be at most 16 entries, got ", n.as_str()));
    }
    let mut i: usize = 0;
    while i < config.headers.len()
        invariant
            i <= config.headers@.len(),
            config_problem(*config) == headers_problem(config.headers@, config.headers@.len()),
            headers_problem(config.headers@, i as nat) is None,
        decreases config.headers@.len() - i,
    {
        match check_header(&config.headers[i]) {
            Ok(()) => {},
            Err(m) => {
                proof {
                    lemma_headers_problem_prefix(config.headers@, (i + 1) as nat, config.headers@.len());
                }
                return Err(m);
            },
        }
        i += 1;
    }
    Ok(())
}

/// A problem among the first `k` headers is the first problem overall.
proof fn lemma_headers_problem_prefix(hs: Seq<WebhookHeader>, k: nat, n: nat)
    requires
        k <= n,
        headers_problem(hs, k) is Some,
    ensures
        headers_problem(hs, n) == headers_problem(hs, k),
    decreases n,
{
    if n > k {
        lemma_headers_problem_prefix(hs, k, (n - 1) as nat);
    }
}

/// The JSON body a webhook posts: an object with the rule id, the action
/// id, the payload and the delivery time.
pub open spec fn body_object(request: ActionRequest, now_ms: i64) -> serde_json::Value {
    object_of(
        seq![
            ("rule_id"@, text_value(request.rule_id@)),
            ("action"@, text_value(request.action@)),
            ("payload"@, request.payload),
            ("ts_ms"@, i64_value(now_ms)),
        ],
    )
}

/// What the HTTP exchange of one delivery gave.
#[derive(Debug, Clone, PartialEq)]
pub enum Delivery {
    /// The receiver answered with this status code and reason phrase.
    Answered { status: u16, reason: Option<String> },
    /// The request timed out.
    TimedOut,
    /// The connection could not be established (with the client's error).
    ConnectFailed(String),
    /// The request failed otherwise (with the client's error).
    Failed(String),
    /// The request could not be sent at all (with the reason).
    NotSent(String),
}

/// An execution failure of the action `action_id`.
fn execution_failed(action_id: &str, reason: String) -> (e: ActionError)
    ensures
        e matches ActionError::ExecutionFailed { action_id: a, reason: m } && a@ == action_id@ && m == reason,
{
    ActionError::ExecutionFailed { action_id: owned(action_id), reason }
}

/// The webhook executor: its validated configuration.
#[derive(Debug)]
pub struct WebhookExecutor {
    config: WebhookConfig,
}

impl WebhookExecutor {
    /// The executor's configuration.
    pub closed spec fn config(&self) -> WebhookConfig {
        self.config
    }

    /// Builds an executor from configuration, validating it so webhook
    /// misconfiguration fails at startup, never mid-run.
    pub fn new(config: WebhookConfig) -> (r: Result<Self, String>)
        ensures
            match r {
                Ok(e) => config_problem(config) is None && e.config() == config,
                Err(m) => config_problem(config) == Some(m@),
            },
    {
        match validate_config(&config) {
            Ok(()) => Ok(WebhookExecutor { config }),
            Err(m) => Err(m),
        }
    }

    /// The URL to deliver to.
    pub fn url(&self) -> (r: &str)
        ensures
            r@ == self.config().url@,
    {
        self.config.url.as_str()
    }

    /// The HTTP method to use.
    pub fn method(&self) -> (r: WebhookMethod)
        ensures
            r == self.config().method,
    {
        self.config.method
    }

    /// The per-request timeout in milliseconds.
    pub fn timeout_ms(&self) -> (r: u64)
        ensures
            r == self.config().timeout_ms,
    {
        self.config.timeout_ms
    }

    /// The configured extra headers.
    pub fn headers(&self) -> (r: &Vec<WebhookHeader>)
        ensures
            *r == self.config().headers,
    {
        &self.config.headers
    }

    /// Builds the JSON body: the rule snapshot (rule id, action id,
    /// payload) plus delivery metadata.
    pub fn build_body(request: &ActionRequest, now_ms: i64) -> (r: serde_json::Value)
        ensures
            r == body_object(*request, now_ms),
    {
        let members = vec![
            (owned("rule_id"), json_text_value(request.rule_id.as_str())),
            (owned("action"), json_text_value(request.action.as_str())),
            (owned("payload"), clone_json(&request.payload)),
            (owned("ts_ms"), json_i64_value(now_ms)),
        ];
        proof {
            assert(members_view(members@) =~= seq![
                ("rule_id"@, text_value(request.rule_id@)),
                ("action"@, text_value(request.action@)),
                ("payload"@, request.payload),
                ("ts_ms"@, i64_value(now_ms)),
            ]);
        }
        json_object(members)
    }

    /// Reads what one delivery gave: a 2xx answer is a success; any other
    /// answer, a timeout, or a failed connection is an execution failure
    /// of the action, with a human-readable reason.
    pub fn settle(&self, action_id: &str, delivery: Delivery) -> (r: Result<ActionSummary, ActionError>)
        ensures
            ({
                let url = self.config().url@;
                let q = debug_quoted(url);
                match delivery {
                    Delivery::Answered { status, reason } => if 200 <= status <= 299 {
                        r matches Ok(s) && s.detail@ == "webhook delivered to "@ + url + " ("@ + decimal_u64(
                            status as u64,
                        ) + ")"@
                    } else {
                        r matches Err(ActionError::ExecutionFailed { action_id: a, reason: m }) && a@ == action_id@
                            && m@ == "webhook to "@ + q + " returned HTTP "@ + decimal_u64(status as u64) + " "@
                            + match reason {
                            Some(p) => p@,
                            None => "Unknown"@,
                        }
                    },
                    Delivery::TimedOut => r matches Err(ActionError::ExecutionFailed { action_id: a, reason: m })
                        && a@ == action_id@ && m@ == "webhook to "@ + q + " timed out after "@ + decimal_u64(
                        self.config().timeout_ms,
                    ) + " ms"@,
                    Delivery::ConnectFailed(e) => r matches Err(
                        ActionError::ExecutionFailed { action_id: a, reason: m },
                    ) && a@ == action_id@ && m@ == "webhook to "@ + q + " could not connect: "@ + e@,
                    Delivery::Failed(e) => r matches Err(ActionError::ExecutionFailed { action_id: a, reason: m })
                        && a@ == action_id@ && m@ == "webhook to "@ + q + " failed: "@ + e@,
                    Delivery::NotSent(e) => r matches Err(ActionError::ExecutionFailed { action_id: a, reason: m })
                        && a@ == action_id@ && m@ == e@,
                }
            }),
    {
        let q = debug_string(self.config.url.as_str());
        match delivery {
            Delivery::Answered { status, reason } => {
                let code = u64_to_string(status as u64);
                if 200 <= status && status <= 299 {
                    let head = concat3("webhook delivered to ", self.config.url.as_str(), " (");
                    let a = concat2(head.as_str(), code.as_str());
                    Ok(ActionSummary { detail: concat2(a.as_str(), ")") })
                } else {
                    let phrase = match reason {
                        Some(p) => p,
                        None => owned("Unknown"),
                    };
                    let head = concat3("webhook to ", q.as_str(), " returned HTTP ");
                    let a = concat3(head.as_str(), code.as_str(), " ");
                    Err(execution_failed(action_id, concat2(a.as_str(), phrase.as_str())))
                }
            },
            Delivery::TimedOut => {
                let n = u64_to_string(self.config.timeout_ms);
                let head = concat3("webhook to ", q.as_str(), " timed out after ");
                Err(execution_failed(action_id, concat3(head.as_str(), n.as_str(), " ms")))
            },
            Delivery::ConnectFailed(e) => {
                let head = concat3("webhook to ", q.as_str(), " could not connect: ");
                Err(execution_failed(action_id, concat2(head.as_str(), e.as_str())))
            },
            Delivery::Failed(e) => {
                let head = concat3("webhook to ", q.as_str(), " failed: ");
                Err(execution_failed(action_id, concat2(head.as_str(), e.as_str())))
            },
            Delivery::NotSent(e) => Err(execution_failed(action_id, e)),
        }
    }
}

} // verus!
