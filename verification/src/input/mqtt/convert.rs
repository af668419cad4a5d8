//! Topic + payload to [`Event`] conversion: validation at the boundary.
//! Pure functions, testable without a broker.

use vstd::prelude::*;

use crate::event::error::event_error_text;
use crate::event::{event_rejection, stored_payload, Event, Payload};
use crate::floatbits::FloatArith;
use crate::input::mqtt::{last_segment, topic_to_kind, topic_to_source};
use crate::json::{
    json_document, json_error_text, json_scalar, json_value_member, parse_json, scalar_of, value_member, JsonScalar,
};
use crate::processing::{bump, inc};
use crate::text::{
    chars_of, concat2, concat3, debug_quoted, debug_string, decimal_i64, decimal_u64, lemma_decimal_injective, i64_to_string, lower, owned,
    trimmed, u64_to_string,
};

verus! {

/// What conversion did with one broker message.
#[derive(Debug, PartialEq)]
pub enum ConversionOutcome {
    /// Valid event, ready for the pipeline.
    Event(Event),
    /// Rejected with a reason (counted by the adapter; never silent).
    Rejected(String),
}

/// MQTT adapter counters, surfaced through the status endpoint.
#[derive(Debug)]
pub struct MqttCounters {
    /// Messages received from the broker.
    pub messages_received: u64,
    /// Messages that failed conversion/validation.
    pub messages_rejected: u64,
    /// Messages dropped by the bounded overflow policy (queue full).
    pub messages_dropped: u64,
    /// Broker (re)connections observed.
    pub reconnects: u64,
    /// The most recent rejection reason (diagnostics).
    pub last_rejection: Option<String>,
}

impl Clone for MqttCounters {
    fn clone(&self) -> (r: Self)
        ensures
            r == *self,
    {
        MqttCounters {
            messages_received: self.messages_received,
            messages_rejected: self.messages_rejected,
            messages_dropped: self.messages_dropped,
            reconnects: self.reconnects,
            last_rejection: match &self.last_rejection {
                Some(s) => Some(s.clone()),
                None => None,
            },
        }
    }
}

impl Default for MqttCounters {
    fn default() -> (r: Self)
        ensures
            r.messages_received == 0,
            r.messages_rejected == 0,
            r.messages_dropped == 0,
            r.reconnects == 0,
            r.last_rejection is None,
    {
        MqttCounters {
            messages_received: 0,
            messages_rejected: 0,
            messages_dropped: 0,
            reconnects: 0,
            last_rejection: None,
        }
    }
}

impl MqttCounters {
    /// One message received from the broker.
    pub fn record_received(&mut self)
        ensures
            *final(self) == (MqttCounters { messages_received: inc(old(self).messages_received), ..*old(self) }),
    {
        self.messages_received = bump(self.messages_received);
    }

    /// One message rejected, with its reason.
    pub fn record_rejection(&mut self, reason: String)
        ensures
            *final(self) == (MqttCounters {
                messages_rejected: inc(old(self).messages_rejected),
                last_rejection: Some(reason),
                ..*old(self)
            }),
    {
        self.messages_rejected = bump(self.messages_rejected);
        self.last_rejection = Some(reason);
    }

    /// One subscription that failed (counted as a rejection).
    pub fn record_failed_subscription(&mut self)
        ensures
            *final(self) == (MqttCounters { messages_rejected: inc(old(self).messages_rejected), ..*old(self) }),
    {
        self.messages_rejected = bump(self.messages_rejected);
    }

    /// One message dropped because the engine queue was full or closed.
    pub fn record_dropped(&mut self)
        ensures
            *final(self) == (MqttCounters { messages_dropped: inc(old(self).messages_dropped), ..*old(self) }),
    {
        self.messages_dropped = bump(self.messages_dropped);
    }

    /// One broker (re)connection, or one failed connection attempt.
    pub fn record_reconnect(&mut self)
        ensures
            *final(self) == (MqttCounters { reconnects: inc(old(self).reconnects), ..*old(self) }),
    {
        self.reconnects = bump(self.reconnects);
    }
}

/// The kind a topic maps to (its last non-empty segment, lowercased), if
/// any.
pub open spec fn kind_of_topic(topic: Seq<char>) -> Option<Seq<char>> {
    match last_segment(topic) {
        None => None,
        Some(seg) => if lower(seg).len() == 0 {
            None
        } else {
            Some(lower(seg))
        },
    }
}

/// The payload a decoded document converts to: an object's `value`
/// member if it has one, else the document itself; numbers, strings and
/// booleans become scalar payloads (`number` is what reading the number
/// as binary64 gave; `None` means it has no binary64 form) and anything
/// else is structured.
pub open spec fn payload_of(doc: serde_json::Value, number: Option<u64>) -> Option<Payload> {
    let inner = match value_member(doc) {
        Some(x) => x,
        None => doc,
    };
    match scalar_of(inner) {
        JsonScalar::Number(_) => match number {
            Some(b) => Some(Payload::Numeric { value_bits: b }),
            None => None,
        },
        JsonScalar::Text(s) => Some(Payload::Text { value: s }),
        JsonScalar::Boolean(b) => Some(Payload::Boolean { value: b }),
        JsonScalar::Other(v) => Some(Payload::Json { value: v }),
    }
}

/// The id an event from this message receives: `{topic}#{now_ms}#{seq}`.
pub open spec fn message_id(topic: Seq<char>, now: i64, seq: u64) -> Seq<char> {
    topic + "#"@ + decimal_i64(now) + "#"@ + decimal_u64(seq)
}

/// The adapter's message counter: hands out the sequence numbers that
/// make derived event ids unique, in order, from 0.
#[derive(Debug)]
pub struct MessageSequence {
    next: u64,
}

impl MessageSequence {
    /// The number the next message receives.
    pub closed spec fn upcoming(&self) -> u64 {
        self.next
    }

    /// A counter that starts at 0.
    pub fn new() -> (r: Self)
        ensures
            r.upcoming() == 0,
    {
        MessageSequence { next: 0 }
    }

    /// Takes the next number (wrapping after `u64::MAX`).
    pub fn take(&mut self) -> (r: u64)
        ensures
            r == old(self).upcoming(),
            final(self).upcoming() == if r == u64::MAX {
                0
            } else {
                (r + 1) as u64
            },
    {
        let r = self.next;
        self.next = if r == u64::MAX {
            0
        } else {
            r + 1
        };
        r
    }
}

/// Law (distinct numbers): along a run of `take` calls from a fresh
/// counter, fewer than `2^64` of them, the `i`-th call returns `i`, so no
/// two calls return the same number.
pub proof fn law_sequence_distinct(trace: Seq<MessageSequence>, taken: Seq<u64>)
    requires
        trace.len() == taken.len() + 1,
        taken.len() <= u64::MAX,
        trace[0].upcoming() == 0,
        forall|i: int| 0 <= i < taken.len() ==> {
            &&& #[trigger] taken[i] == trace[i].upcoming()
            &&& trace[i + 1].upcoming() == if taken[i] == u64::MAX {
                0
            } else {
                (taken[i] + 1) as u64
            }
        },
    ensures
        forall|i: int| 0 <= i < taken.len() ==> #[trigger] taken[i] == i,
        forall|i: int, j: int| 0 <= i < j < taken.len() ==> #[trigger] taken[i] != #[trigger] taken[j],
    decreases taken.len(),
{
    if taken.len() > 0 {
        let n = taken.len() - 1;
        let t = trace.take(n + 1);
        let k = taken.take(n);
        assert forall|i: int| 0 <= i < k.len() implies {
            &&& #[trigger] k[i] == t[i].upcoming()
            &&& t[i + 1].upcoming() == if k[i] == u64::MAX {
                0
            } else {
                (k[i] + 1) as u64
            }
        } by {
            assert(taken[i] == trace[i].upcoming());
        }
        law_sequence_distinct(t, k);
        assert forall|i: int| 0 <= i < taken.len() implies #[trigger] taken[i] == i by {
            if i < n {
                assert(k[i] == taken[i]);
            } else {
                assert(taken[n] == trace[n].upcoming());
                if n > 0 {
                    let m = n - 1;
                    assert(k[m] == taken[m]);
                    assert(taken[m] == trace[m].upcoming());
                    assert(trace[m + 1].upcoming() == if taken[m] == u64::MAX {
                        0
                    } else {
                        (taken[m] + 1) as u64
                    });
                }
            }
        }
    }
}

/// Law (unique ids): messages on one topic at one clock reading with
/// different sequence numbers get different event ids.
pub proof fn law_message_ids_differ(topic: Seq<char>, now: i64, seq1: u64, seq2: u64)
    requires
        seq1 != seq2,
    ensures
        message_id(topic, now, seq1) != message_id(topic, now, seq2),
{
    let head = topic + "#"@ + decimal_i64(now) + "#"@;
    if message_id(topic, now, seq1) == message_id(topic, now, seq2) {
        let m1 = message_id(topic, now, seq1);
        assert(m1 == head + decimal_u64(seq1));
        assert(message_id(topic, now, seq2) == head + decimal_u64(seq2));
        assert(decimal_u64(seq1) =~= m1.subrange(head.len() as int, m1.len() as int));
        assert(decimal_u64(seq2) =~= m1.subrange(head.len() as int, m1.len() as int));
        lemma_decimal_injective(seq1 as nat, seq2 as nat);
    }
}

/// The JSON number a message's payload holds, when conversion gets as far
/// as reading it: the topic has a kind, the payload is a JSON document,
/// and its value (or the document itself) is a number.
pub open spec fn number_read(topic: Seq<char>, bytes: Seq<u8>) -> Option<serde_json::Number> {
    if topic.len() == 0 || kind_of_topic(topic) is None || bytes.len() == 0 {
        None
    } else {
        match json_document(bytes) {
            None => None,
            Some(doc) => {
                let inner = match value_member(doc) {
                    Some(x) => x,
                    None => doc,
                };
                match scalar_of(inner) {
                    JsonScalar::Number(n) => Some(n),
                    _ => None,
                }
            },
        }
    }
}

/// The outcome of converting a message, given what reading a number as
/// binary64 gave.
pub open spec fn conversion(topic: Seq<char>, bytes: Seq<u8>, now: i64, seq: u64, number: Option<u64>, r: ConversionOutcome) -> bool {
    if topic.len() == 0 {
        r matches ConversionOutcome::Rejected(m) && m@ == "empty topic"@
    } else if kind_of_topic(topic) is None {
        r matches ConversionOutcome::Rejected(m) && m@ == "topic "@ + debug_quoted(topic) + " has no kind segment"@
    } else if bytes.len() == 0 {
        r matches ConversionOutcome::Rejected(m) && m@ == "empty payload"@
    } else {
        match json_document(bytes) {
            None => r matches ConversionOutcome::Rejected(m) && m@ == "payload is not valid JSON: "@ + json_error_text(bytes),
            Some(doc) => match payload_of(doc, number) {
                None => r matches ConversionOutcome::Rejected(m) && m@ == "numeric payload is not representable as f64"@,
                Some(p) => {
                    let id = message_id(topic, now, seq);
                    let source = "mqtt://"@ + topic;
                    let kind = kind_of_topic(topic)->0;
                    match event_rejection(id, source, kind, now, p) {
                        Some(e) => r matches ConversionOutcome::Rejected(m) && m@ == event_error_text(e),
                        None => r matches ConversionOutcome::Event(ev) && {
                            &&& ev.id@ == trimmed(id)
                            &&& ev.source@ == trimmed(source)
                            &&& ev.kind@ == lower(trimmed(kind))
                            &&& ev.timestamp == now
                            &&& stored_payload(ev.payload, p)
                        },
                    }
                },
            },
        }
    }
}

/// Converts one broker message into an event.
///
/// The payload must be JSON: an object with a `value` member converts to
/// that member's payload (the same tagged shape the HTTP API accepts), a
/// bare scalar converts directly, and anything else is structured.
/// Non-JSON payloads are rejected, never coerced. The timestamp is the
/// adapter's clock (`now_ms`), and the id is `{topic}#{now_ms}#{seq}`
/// with `seq` the adapter's per-process message counter.
pub fn convert_message<F: FloatArith>(topic: &str, payload: &[u8], now_ms: i64, seq: u64, arith: &F) -> (r: ConversionOutcome)
    ensures
        exists|number: Option<u64>|
            {
                &&& #[trigger] conversion(topic@, payload@, now_ms, seq, number, r)
                &&& match number_read(topic@, payload@) {
                    Some(n) => call_ensures(F::json_number, (arith, &n), number),
                    None => number is None,
                }
            },
{
    let tc = chars_of(topic);
    if tc.len() == 0 {
        let r = ConversionOutcome::Rejected(owned("empty topic"));
        assert(conversion(topic@, payload@, now_ms, seq, None, r));
        return r;
    }
    let kind = match topic_to_kind(topic) {
        Some(k) => k,
        None => {
            let q = debug_string(topic);
            let r = ConversionOutcome::Rejected(concat3("topic ", q.as_str(), " has no kind segment"));
            assert(conversion(topic@, payload@, now_ms, seq, None, r));
            return r;
        },
    };
    if payload.len() == 0 {
        let r = ConversionOutcome::Rejected(owned("empty payload"));
        assert(conversion(topic@, payload@, now_ms, seq, None, r));
        return r;
    }
    let value = match parse_json(payload) {
        Ok(v) => v,
        Err(e) => {
            let r = ConversionOutcome::Rejected(concat2("payload is not valid JSON: ", e.as_str()));
            assert(conversion(topic@, payload@, now_ms, seq, None, r));
            return r;
        },
    };
    let ghost doc = value;
    let inner = match json_value_member(&value) {
        Some(x) => x,
        None => value,
    };
    let mut number: Option<u64> = None;
    let event_payload = match json_scalar(inner) {
        JsonScalar::Number(n) => {
            assert(number_read(topic@, payload@) == Some(n));
            number = arith.json_number(&n);
            match number {
                Some(bits) => Payload::Numeric { value_bits: bits },
                None => {
                    let r = ConversionOutcome::Rejected(owned("numeric payload is not representable as f64"));
                    assert(conversion(topic@, payload@, now_ms, seq, number, r));
                    return r;
                },
            }
        },
        JsonScalar::Text(text) => Payload::Text { value: text },
        JsonScalar::Boolean(flag) => Payload::Boolean { value: flag },
        JsonScalar::Other(other) => Payload::Json { value: other },
    };
    assert(payload_of(doc, number) == Some(event_payload));
    let now_text = i64_to_string(now_ms);
    let seq_text = u64_to_string(seq);
    let head = concat3(topic, "#", now_text.as_str());
    let id = concat3(head.as_str(), "#", seq_text.as_str());
    let source = topic_to_source(topic);
    let r = match Event::new(id.as_str(), source.as_str(), kind.as_str(), now_ms, event_payload) {
        Ok(event) => ConversionOutcome::Event(event),
        Err(error) => ConversionOutcome::Rejected(error.message()),
    };
    assert(conversion(topic@, payload@, now_ms, seq, number, r));
    r
}

} // verus!
