//! The MQTT input adapter's logic: topic mapping, broker-URL and QoS
//! checks, and message conversion. The broker connection itself lives in
//! the application.

pub mod config;
pub mod convert;

pub use config::{MqttConfig, Transport};
pub use convert::{ConversionOutcome, MqttCounters};

use vstd::prelude::*;
use crate::processing::inc;

use crate::text::{
    chars_of, concat2, concat3, debug_quoted, debug_string, has_prefix, parse_u16, parsed_u16, string_from_range,
};

verus! {

/// The position of the last `c` in `s`.
pub open spec fn last_index_of(s: Seq<char>, c: char) -> Option<int>
    decreases s.len(),
{
    if s.len() == 0 {
        None
    } else if s.last() == c {
        Some(s.len() - 1)
    } else {
        last_index_of(s.drop_last(), c)
    }
}

pub proof fn lemma_last_index_of(s: Seq<char>, c: char)
    ensures
        match last_index_of(s, c) {
            Some(j) => 0 <= j < s.len() && s[j] == c && forall|k: int| j < k < s.len() ==> s[k] != c,
            None => forall|k: int| 0 <= k < s.len() ==> s[k] != c,
        },
    decreases s.len(),
{
    if s.len() > 0 && s.last() != c {
        lemma_last_index_of(s.drop_last(), c);
        assert forall|k: int| 0 <= k < s.len() - 1 implies s[k] == s.drop_last()[k] by {}
    }
}

/// The position of the last `c` among the first `end` characters.
pub fn find_last(chars: &Vec<char>, end: usize, c: char) -> (r: Option<usize>)
    requires
        end <= chars@.len(),
    ensures
        match (r, last_index_of(chars@.subrange(0, end as int), c)) {
            (Some(j), Some(k)) => j == k,
            (None, None) => true,
            _ => false,
        },
{
    let ghost s = chars@.subrange(0, end as int);
    let mut i = end;
    while i > 0
        invariant
            i <= end <= chars@.len(),
            s == chars@.subrange(0, end as int),
            last_index_of(s, c) == last_index_of(chars@.subrange(0, i as int), c),
        decreases i,
    {
        let ghost t = chars@.subrange(0, i as int);
        assert(t.last() == chars@[i - 1]);
        assert(t.drop_last() =~= chars@.subrange(0, i - 1));
        if chars[i - 1] == c {
            return Some(i - 1);
        }
        i -= 1;
    }
    None
}

/// The last non-empty `/`-separated segment of a topic.
pub open spec fn last_segment(s: Seq<char>) -> Option<Seq<char>>
    decreases s.len(),
{
    match last_index_of(s, '/') {
        None => if s.len() > 0 {
            Some(s)
        } else {
            None
        },
        Some(j) => {
            proof {
                lemma_last_index_of(s, '/');
            }
            let seg = s.subrange(j + 1, s.len() as int);
            if seg.len() > 0 {
                Some(seg)
            } else {
                last_segment(s.subrange(0, j))
            }
        },
    }
}

/// Maps an MQTT topic to an event `source`: `mqtt://<topic>`; the topic is
/// the source identity.
pub fn topic_to_source(topic: &str) -> (r: String)
    ensures
        r@ == "mqtt://"@ + topic@,
{
    concat2("mqtt://", topic)
}

/// Maps an MQTT topic to an event `kind`: the topic's last non-empty
/// segment, lowercased (`sensors/esp32-1/Temperature` gives
/// `temperature`). `None` when there is no non-empty segment.
pub fn topic_to_kind(topic: &str) -> (r: Option<String>)
    ensures
        match last_segment(topic@) {
            None => r is None,
            Some(seg) => if crate::text::lower(seg).len() == 0 {
                r is None
            } else {
                r matches Some(k) && k@ == crate::text::lower(seg)
            },
        },
{
    let chars = chars_of(topic);
    let mut end = chars.len();
    proof {
        assert(chars@.subrange(0, end as int) =~= topic@);
    }
    loop
        invariant
            end <= chars@.len(),
            chars@ == topic@,
            last_segment(topic@) == last_segment(chars@.subrange(0, end as int)),
        decreases end,
    {
        let ghost s = chars@.subrange(0, end as int);
        proof {
            lemma_last_index_of(s, '/');
        }
        match find_last(&chars, end, '/') {
            None => {
                if end == 0 {
                    return None;
                }
                let seg = string_from_range(&chars, 0, end);
                return lowered_segment(seg);
            },
            Some(j) => {
                if j + 1 < end {
                    let seg = string_from_range(&chars, j + 1, end);
                    proof {
                        assert(seg@ =~= s.subrange(j + 1, s.len() as int));
                    }
                    return lowered_segment(seg);
                }
                proof {
                    assert(s.subrange(0, j as int) =~= chars@.subrange(0, j as int));
                }
                end = j;
            },
        }
    }
}

fn lowered_segment(seg: String) -> (r: Option<String>)
    ensures
        if crate::text::lower(seg@).len() == 0 {
            r is None
        } else {
            r matches Some(k) && k@ == crate::text::lower(seg@)
        },
{
    let kind = crate::text::to_lowercase(seg.as_str());
    let kc = chars_of(kind.as_str());
    if kc.len() == 0 {
        None
    } else {
        Some(kind)
    }
}

/// What a broker URL reads as (host and port), or the error message.
pub open spec fn broker_result(url: Seq<char>) -> Result<(Seq<char>, u16), Seq<char>> {
    if !has_prefix(url, "mqtt://"@) {
        Err("broker url must start with mqtt://, got "@ + debug_quoted(url))
    } else {
        let rest = url.subrange(7, url.len() as int);
        match last_index_of(rest, ':') {
            None => Err("broker url must include a port, got "@ + debug_quoted(url)),
            Some(j) => {
                let host = rest.subrange(0, j);
                let port = rest.subrange(j + 1, rest.len() as int);
                if host.len() == 0 {
                    Err("broker url has an empty host: "@ + debug_quoted(url))
                } else {
                    match parsed_u16(port) {
                        None => Err("broker url has an invalid port "@ + debug_quoted(port) + " in "@ + debug_quoted(url)),
                        Some(p) => Ok((host, p)),
                    }
                }
            },
        }
    }
}

/// Parses `mqtt://host:port` (the documented scheme; the port follows the
/// last `:`).
pub fn parse_broker_url(url: &str) -> (r: Result<(String, u16), String>)
    ensures
        match (r, broker_result(url@)) {
            (Ok((h, p)), Ok((hv, pv))) => h@ == hv && p == pv,
            (Err(m), Err(e)) => m@ == e,
            _ => false,
        },
{
    let chars = chars_of(url);
    let scheme = chars_of("mqtt://");
    proof {
        reveal_strlit("mqtt://");
    }
    if !crate::text::chars_have_prefix(&chars, &scheme) {
        let q = debug_string(url);
        return Err(concat2("broker url must start with mqtt://, got ", q.as_str()));
    }
    let rest_s = string_from_range(&chars, 7, chars.len());
    let rest = chars_of(rest_s.as_str());
    proof {
        lemma_last_index_of(rest@, ':');
        assert(rest@.subrange(0, rest@.len() as int) =~= rest@);
    }
    let j = match find_last(&rest, rest.len(), ':') {
        Some(j) => j,
        None => {
            let q = debug_string(url);
            return Err(concat2("broker url must include a port, got ", q.as_str()));
        },
    };
    if j == 0 {
        let q = debug_string(url);
        return Err(concat2("broker url has an empty host: ", q.as_str()));
    }
    let host = string_from_range(&rest, 0, j);
    let port = string_from_range(&rest, j + 1, rest.len());
    match parse_u16(port.as_str()) {
        Some(p) => Ok((host, p)),
        None => {
            let qp = debug_string(port.as_str());
            let qu = debug_string(url);
            let head = concat3("broker url has an invalid port ", qp.as_str(), " in ");
            Err(concat2(head.as_str(), qu.as_str()))
        },
    }
}

/// The QoS level a configured number names: 0, 1 or 2; anything else is
/// a startup configuration error.
pub fn check_qos(qos: u8) -> (r: Result<u8, String>)
    ensures
        match r {
            Ok(q) => q == qos && qos <= 2,
            Err(m) => qos > 2 && m@ == "mqtt qos must be 0, 1, or 2, got "@ + crate::text::decimal_u64(qos as u64),
        },
{
    if qos <= 2 {
        Ok(qos)
    } else {
        let n = crate::text::u64_to_string(qos as u64);
        Err(concat2("mqtt qos must be 0, 1, or 2, got ", n.as_str()))
    }
}

/// One backoff step: the delay doubles, capped at `max_ms`.
pub open spec fn backoff_step(current_ms: u64, max_ms: u64) -> u64 {
    if current_ms * 2 < max_ms {
        (current_ms * 2) as u64
    } else {
        max_ms
    }
}

/// The delay after `k` consecutive failed attempts, starting at `start_ms`.
pub open spec fn backoff_after(start_ms: u64, max_ms: u64, k: nat) -> u64
    decreases k,
{
    if k == 0 {
        start_ms
    } else {
        backoff_step(backoff_after(start_ms, max_ms, (k - 1) as nat), max_ms)
    }
}

/// `s * 2^k`.
pub open spec fn doubled(s: nat, k: nat) -> nat
    decreases k,
{
    if k == 0 {
        s
    } else {
        2 * doubled(s, (k - 1) as nat)
    }
}

/// Law (capped exponential backoff): from a start delay within the cap,
/// the delay after `k` consecutive failures is `min(start * 2^k, max)`.
pub proof fn law_backoff_capped(start_ms: u64, max_ms: u64, k: nat)
    requires
        start_ms <= max_ms,
    ensures
        backoff_after(start_ms, max_ms, k) == if doubled(start_ms as nat, k) < max_ms {
            doubled(start_ms as nat, k)
        } else {
            max_ms as nat
        },
    decreases k,
{
    if k > 0 {
        law_backoff_capped(start_ms, max_ms, (k - 1) as nat);
    }
}

/// The adapter's reconnect backoff: the next delay doubles, capped at
/// `max_ms`.
pub fn next_backoff_ms(current_ms: u64, max_ms: u64) -> (r: u64)
    ensures
        r == backoff_step(current_ms, max_ms),
{
    if current_ms < max_ms / 2 + max_ms % 2 {
        current_ms * 2
    } else {
        max_ms
    }
}

/// The first reconnect delay, in milliseconds.
pub const RECONNECT_BASE_MS: u64 = 100;

/// The longest reconnect delay, in milliseconds.
pub const RECONNECT_MAX_MS: u64 = 30_000;

/// What the broker connection did, as the adapter's loop sees it.
#[derive(Debug, Clone, Copy, PartialEq, Eq)]
pub enum LinkEvent {
    /// The broker acknowledged a connection.
    Connected,
    /// Polling the connection failed.
    Failed,
}

/// The reconnect policy on one event, from the current delay: the time
/// to sleep now and the next delay. An acknowledgement resets the delay
/// and sleeps not at all; a failure sleeps the current delay and doubles
/// the next one, up to the cap.
pub open spec fn reconnect_plan(backoff_ms: u64, event: LinkEvent) -> (u64, u64) {
    match event {
        LinkEvent::Connected => (0, RECONNECT_BASE_MS),
        LinkEvent::Failed => (backoff_ms, backoff_step(backoff_ms, RECONNECT_MAX_MS)),
    }
}

/// One step of the adapter's reconnect policy: counts the event as a
/// reconnect and returns the time to sleep now and the next delay.
pub fn reconnect_step(backoff_ms: u64, event: LinkEvent, counters: &mut MqttCounters) -> (r: (u64, u64))
    ensures
        *final(counters) == (MqttCounters { reconnects: inc(old(counters).reconnects), ..*old(counters) }),
        r == reconnect_plan(backoff_ms, event),
{
    counters.record_reconnect();
    match event {
        LinkEvent::Connected => (0, RECONNECT_BASE_MS),
        LinkEvent::Failed => (backoff_ms, next_backoff_ms(backoff_ms, RECONNECT_MAX_MS)),
    }
}

/// How many failures immediately precede event `i` (since the last
/// acknowledgement, or since the start).
pub open spec fn failures_before(events: Seq<LinkEvent>, i: int) -> nat
    decreases i,
{
    if i <= 0 {
        0
    } else if events[i - 1] is Failed {
        failures_before(events, i - 1) + 1
    } else {
        0
    }
}

/// The delay before event `i` of a run is the base delay doubled once per
/// failure since the last acknowledgement, capped.
proof fn lemma_run_delay(events: Seq<LinkEvent>, delays: Seq<u64>, sleeps: Seq<u64>, i: int)
    requires
        delays.len() == events.len() + 1,
        sleeps.len() == events.len(),
        delays[0] == RECONNECT_BASE_MS,
        forall|j: int| 0 <= j < events.len() ==> #[trigger] reconnect_plan(delays[j], events[j]) == (sleeps[j], delays[j + 1]),
        0 <= i < delays.len(),
    ensures
        delays[i] == backoff_after(RECONNECT_BASE_MS, RECONNECT_MAX_MS, failures_before(events, i)),
    decreases i,
{
    if i > 0 {
        let j = i - 1;
        lemma_run_delay(events, delays, sleeps, j);
        assert(reconnect_plan(delays[j], events[j]) == (sleeps[j], delays[j + 1]));
    }
}

/// Law (reconnect backoff): over any run of the adapter's loop that starts
/// at the base delay, the sleep after a failure is `min(100 * 2^k, 30000)`
/// ms, with `k` the failures since the last acknowledgement (or the
/// start); an acknowledgement resets it and sleeps not at all.
pub proof fn law_reconnect_sleeps(events: Seq<LinkEvent>, delays: Seq<u64>, sleeps: Seq<u64>)
    requires
        delays.len() == events.len() + 1,
        sleeps.len() == events.len(),
        delays[0] == RECONNECT_BASE_MS,
        forall|j: int| 0 <= j < events.len() ==> #[trigger] reconnect_plan(delays[j], events[j]) == (sleeps[j], delays[j + 1]),
    ensures
        forall|i: int|
            0 <= i < events.len() ==> #[trigger] sleeps[i] == match events[i] {
                LinkEvent::Connected => 0,
                LinkEvent::Failed => if doubled(RECONNECT_BASE_MS as nat, failures_before(events, i)) < RECONNECT_MAX_MS {
                    doubled(RECONNECT_BASE_MS as nat, failures_before(events, i))
                } else {
                    RECONNECT_MAX_MS as nat
                },
            },
{
    assert forall|i: int| 0 <= i < events.len() implies #[trigger] sleeps[i] == match events[i] {
        LinkEvent::Connected => 0,
        LinkEvent::Failed => if doubled(RECONNECT_BASE_MS as nat, failures_before(events, i)) < RECONNECT_MAX_MS {
            doubled(RECONNECT_BASE_MS as nat, failures_before(events, i))
        } else {
            RECONNECT_MAX_MS as nat
        },
    } by {
        lemma_run_delay(events, delays, sleeps, i);
        law_backoff_capped(RECONNECT_BASE_MS, RECONNECT_MAX_MS, failures_before(events, i));
        assert(reconnect_plan(delays[i], events[i]) == (sleeps[i], delays[i + 1]));
    }
}

} // verus!
