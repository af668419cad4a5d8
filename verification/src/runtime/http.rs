//! The decisions of the HTTP boundary: which request bodies are
//! rejected, with which status, code and message, and how a batch of
//! decoded events is validated before it reaches the engine. Sockets,
//! routing and the JSON envelopes are the application's part.

use vstd::prelude::*;

use crate::event::error::event_error_text;
use crate::event::{event_rejection, event_valid, Event};
use crate::json::{array_items, json_array_items, json_member, member_of};
use crate::text::{concat2, concat3, decimal_u64, owned, u64_to_string};

verus! {

/// HTTP API errors, each mapped to its documented status code.
#[derive(Debug, PartialEq)]
pub enum ApiError {
    /// Malformed JSON or invalid event shape.
    BadRequest(String),
    /// Payload too large.
    TooLarge,
    /// Bounded queue full (overload).
    QueueFull,
    /// Shutting down.
    ShuttingDown,
}

/// The HTTP status of an error.
pub open spec fn status_of(e: ApiError) -> u16 {
    match e {
        ApiError::BadRequest(_) => 400,
        ApiError::TooLarge => 413,
        ApiError::QueueFull => 429,
        ApiError::ShuttingDown => 503,
    }
}

/// The machine-readable code of an error.
pub open spec fn code_of(e: ApiError) -> Seq<char> {
    match e {
        ApiError::BadRequest(_) => "invalid_event"@,
        ApiError::TooLarge => "payload_too_large"@,
        ApiError::QueueFull => "queue_full"@,
        ApiError::ShuttingDown => "shutting_down"@,
    }
}

/// The human-readable message of an error.
pub open spec fn message_of(e: ApiError) -> Seq<char> {
    match e {
        ApiError::BadRequest(m) => m@,
        ApiError::TooLarge => "request body exceeds the configured maximum"@,
        ApiError::QueueFull => "the processing queue is full; retry with backoff"@,
        ApiError::ShuttingDown => "the engine is shutting down"@,
    }
}

impl ApiError {
    /// The HTTP status code: 400, 413, 429 or 503.
    pub fn status(&self) -> (r: u16)
        ensures
            r == status_of(*self),
    {
        match self {
            ApiError::BadRequest(_) => 400,
            ApiError::TooLarge => 413,
            ApiError::QueueFull => 429,
            ApiError::ShuttingDown => 503,
        }
    }

    /// The machine-readable code of the error envelope.
    pub fn code(&self) -> (r: &'static str)
        ensures
            r@ == code_of(*self),
    {
        proof {
            reveal_strlit("invalid_event");
            reveal_strlit("payload_too_large");
            reveal_strlit("queue_full");
            reveal_strlit("shutting_down");
        }
        match self {
            ApiError::BadRequest(_) => "invalid_event",
            ApiError::TooLarge => "payload_too_large",
            ApiError::QueueFull => "queue_full",
            ApiError::ShuttingDown => "shutting_down",
        }
    }
}

/// The message of the error envelope.
pub fn error_message(error: &ApiError) -> (r: String)
    ensures
        r@ == message_of(*error),
{
    match error {
        ApiError::BadRequest(message) => message.clone(),
        ApiError::TooLarge => owned("request body exceeds the configured maximum"),
        ApiError::QueueFull => owned("the processing queue is full; retry with backoff"),
        ApiError::ShuttingDown => owned("the engine is shutting down"),
    }
}

/// The rejection of a body that is not JSON, with the parser's reason.
pub fn invalid_json(detail: &str) -> (r: ApiError)
    ensures
        r matches ApiError::BadRequest(m) && m@ == "request body is not valid JSON: "@ + detail@,
{
    ApiError::BadRequest(concat2("request body is not valid JSON: ", detail))
}

/// Why a request body's `events` member is rejected, if it is: it must
/// be present, be an array, hold at least one event and at most
/// `max_batch`.
pub open spec fn batch_shape_error(body: serde_json::Value, max_batch: usize) -> Option<Seq<char>> {
    match member_of(body, "events"@) {
        None => Some("missing required field: events"@),
        Some(field) => match array_items(field) {
            None => Some("field `events` must be an array"@),
            Some(items) => if items.len() == 0 {
                Some("field `events` must contain at least one event"@)
            } else if items.len() > max_batch {
                Some("batch exceeds the configured maximum of "@ + decimal_u64(max_batch as u64) + " events"@)
            } else {
                None
            },
        },
    }
}

/// The elements of a request body's `events` array, after checking its
/// shape and size.
pub fn batch_items(body: &serde_json::Value, max_batch: usize) -> (r: Result<Vec<serde_json::Value>, ApiError>)
    ensures
        match r {
            Ok(items) => {
                &&& batch_shape_error(*body, max_batch) is None
                &&& member_of(*body, "events"@) matches Some(field) && array_items(field) == Some(items@)
            },
            Err(e) => e matches ApiError::BadRequest(t) && batch_shape_error(*body, max_batch) == Some(t@),
        },
{
    proof {
        reveal_strlit("events");
    }
    let field = match json_member(body, "events") {
        None => {
            return Err(ApiError::BadRequest(owned("missing required field: events")));
        },
        Some(f) => f,
    };
    let items = match json_array_items(&field) {
        None => {
            return Err(ApiError::BadRequest(owned("field `events` must be an array")));
        },
        Some(items) => items,
    };
    if items.len() == 0 {
        return Err(ApiError::BadRequest(owned("field `events` must contain at least one event")));
    }
    if items.len() > max_batch {
        let n = u64_to_string(max_batch as u64);
        return Err(ApiError::BadRequest(concat3("batch exceeds the configured maximum of ", n.as_str(), " events")));
    }
    Ok(items)
}

/// The first rejection among the first `n` decoded elements of a batch:
/// an element that did not decode as an event, or an event that fails
/// validation, named by its index.
pub open spec fn batch_rejection(parsed: Seq<Result<Event, String>>, n: nat) -> Option<Seq<char>>
    decreases n,
{
    if n == 0 {
        None
    } else {
        match batch_rejection(parsed, (n - 1) as nat) {
            Some(m) => Some(m),
            None => match parsed[n - 1] {
                Err(reason) => Some(
                    "events["@ + decimal_u64((n - 1) as u64) + "] is not a valid event: "@ + reason@,
                ),
                Ok(e) => match event_rejection(e.id@, e.source@, e.kind@, e.timestamp, e.payload) {
                    Some(err) => Some(
                        "events["@ + decimal_u64((n - 1) as u64) + "] failed validation: "@ + event_error_text(err),
                    ),
                    None => None,
                },
            },
        }
    }
}

proof fn lemma_rejection_prefix(parsed: Seq<Result<Event, String>>, k: nat, n: nat)
    requires
        k <= n,
        batch_rejection(parsed, k) is Some,
    ensures
        batch_rejection(parsed, n) == batch_rejection(parsed, k),
    decreases n,
{
    if n > k {
        lemma_rejection_prefix(parsed, k, (n - 1) as nat);
    }
}

/// Validates every decoded element of a batch, in order, before anything
/// enters the pipeline; the first rejection names its index. On success
/// the events are returned in request order.
pub fn collect_batch(parsed: Vec<Result<Event, String>>) -> (r: Result<Vec<Event>, ApiError>)
    ensures
        match r {
            Ok(events) => {
                &&& batch_rejection(parsed@, parsed@.len()) is None
                &&& events@.len() == parsed@.len()
                &&& forall|i: int| 0 <= i < events@.len() ==> parsed@[i] == Ok::<Event, String>(#[trigger] events@[i])
            },
            Err(e) => e matches ApiError::BadRequest(m) && batch_rejection(parsed@, parsed@.len()) == Some(m@),
        },
{
    let mut events: Vec<Event> = Vec::new();
    let mut i: usize = 0;
    while i < parsed.len()
        invariant
            i <= parsed@.len(),
            batch_rejection(parsed@, i as nat) is None,
            events@.len() == i,
            forall|q: int| 0 <= q < i ==> parsed@[q] == Ok::<Event, String>(#[trigger] events@[q]),
        decreases parsed@.len() - i,
    {
        let index = u64_to_string(i as u64);
        match &parsed[i] {
            Err(reason) => {
                let head = concat3("events[", index.as_str(), "] is not a valid event: ");
                proof {
                    lemma_rejection_prefix(parsed@, (i + 1) as nat, parsed@.len());
                }
                return Err(ApiError::BadRequest(concat2(head.as_str(), reason.as_str())));
            },
            Ok(e) => match e.clone().validate() {
                Err(err) => {
                    let head = concat3("events[", index.as_str(), "] failed validation: ");
                    let text = err.message();
                    proof {
                        lemma_rejection_prefix(parsed@, (i + 1) as nat, parsed@.len());
                    }
                    return Err(ApiError::BadRequest(concat2(head.as_str(), text.as_str())));
                },
                Ok(valid) => {
                    events.push(valid);
                },
            },
        }
        i += 1;
    }
    Ok(events)
}

/// Law: only valid events pass a batch. When no element among the first
/// `n` is rejected, every one of them decoded as an event that passes
/// validation.
pub proof fn law_collected_batch_is_valid(parsed: Seq<Result<Event, String>>, n: nat)
    requires
        n <= parsed.len(),
        batch_rejection(parsed, n) is None,
    ensures
        forall|i: int| 0 <= i < n ==> (#[trigger] parsed[i] matches Ok(e) && event_valid(e)),
    decreases n,
{
    if n > 0 {
        law_collected_batch_is_valid(parsed, (n - 1) as nat);
    }
}

} // verus!
