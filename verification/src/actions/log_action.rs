//! The structured log action: one JSON line per execution.
//!
//! Clock-free: the timestamp is injected by the caller.

use vstd::prelude::*;

use crate::json::{
    clone_json, i64_value, json_i64_value, json_object, json_text, json_text_value, json_to_text, members_view, object_of,
    text_value,
};
use crate::text::{owned, replace_all, replace_all_str};

verus! {

/// Severity levels for log actions (closed set; rendered lowercase).
#[derive(Debug, Clone, Copy, PartialEq, Eq)]
pub enum LogLevel {
    /// Debug severity.
    Debug,
    /// Informational severity.
    Info,
    /// Warning severity.
    Warn,
    /// Error severity.
    Error,
}

/// The lowercase name of a level.
pub open spec fn level_name(level: LogLevel) -> Seq<char> {
    match level {
        LogLevel::Debug => "debug"@,
        LogLevel::Info => "info"@,
        LogLevel::Warn => "warn"@,
        LogLevel::Error => "error"@,
    }
}

impl LogLevel {
    /// Lowercase name used in the JSON line.
    pub fn as_str(&self) -> (r: &'static str)
        ensures
            r@ == level_name(*self),
    {
        proof {
            reveal_strlit("debug");
            reveal_strlit("info");
            reveal_strlit("warn");
            reveal_strlit("error");
        }
        match self {
            LogLevel::Debug => "debug",
            LogLevel::Info => "info",
            LogLevel::Warn => "warn",
            LogLevel::Error => "error",
        }
    }
}

/// The `message` of a log line: the template with `{rule_id}` and then
/// `{payload}` replaced.
pub open spec fn template_message(template: Seq<char>, rule_id: Seq<char>, payload: serde_json::Value) -> Seq<char> {
    replace_all(replace_all(template, "{rule_id}"@, rule_id), "{payload}"@, json_text(payload))
}

/// The members of one structured log line: `ts_ms`, `level`, `action`,
/// `rule_id`, `payload`, and `message` only with a template.
pub open spec fn log_members(
    rule_id: Seq<char>,
    action_id: Seq<char>,
    level: LogLevel,
    payload: serde_json::Value,
    timestamp_ms: i64,
    template: Option<Seq<char>>,
) -> Seq<(Seq<char>, serde_json::Value)> {
    let base = seq![
        ("ts_ms"@, i64_value(timestamp_ms)),
        ("level"@, text_value(level_name(level))),
        ("action"@, text_value(action_id)),
        ("rule_id"@, text_value(rule_id)),
        ("payload"@, payload),
    ];
    match template {
        Some(t) => base.push(("message"@, text_value(template_message(t, rule_id, payload)))),
        None => base,
    }
}

/// One structured log line: the JSON text of the object with the
/// `log_members`.
pub open spec fn log_line(
    rule_id: Seq<char>,
    action_id: Seq<char>,
    level: LogLevel,
    payload: serde_json::Value,
    timestamp_ms: i64,
    template: Option<Seq<char>>,
) -> Seq<char> {
    json_text(object_of(log_members(rule_id, action_id, level, payload, timestamp_ms, template)))
}

/// Renders one structured log line. The rule id, payload, and caller
/// timestamp all appear; `template`, when set, becomes the `message`
/// member with `{rule_id}` and `{payload}` placeholders substituted
/// (plain replacement, no format runtime).
pub fn render_line(
    rule_id: &str,
    action_id: &str,
    level: LogLevel,
    payload: &serde_json::Value,
    timestamp_ms: i64,
    template: Option<&str>,
) -> (r: String)
    ensures
        r@ == log_line(
            rule_id@,
            action_id@,
            level,
            *payload,
            timestamp_ms,
            match template {
                Some(t) => Some(t@),
                None => None,
            },
        ),
{
    proof {
        reveal_strlit("{rule_id}");
        reveal_strlit("{payload}");
    }
    let ghost tv = match template {
        Some(t) => Some(t@),
        None => None::<Seq<char>>,
    };
    let mut members = vec![
        (owned("ts_ms"), json_i64_value(timestamp_ms)),
        (owned("level"), json_text_value(level.as_str())),
        (owned("action"), json_text_value(action_id)),
        (owned("rule_id"), json_text_value(rule_id)),
        (owned("payload"), clone_json(payload)),
    ];
    let ghost base = members@;
    match template {
        Some(t) => {
            let payload_text = json_to_text(payload);
            let step = replace_all_str(t, "{rule_id}", rule_id);
            let text = replace_all_str(step.as_str(), "{payload}", payload_text.as_str());
            members.push((owned("message"), json_text_value(text.as_str())));
            proof {
                assert(members@ == base.push(members@.last()));
                assert(members_view(members@) =~= members_view(base).push(("message"@, text_value(text@))));
            }
        },
        None => {},
    }
    proof {
        assert(members_view(base) =~= seq![
            ("ts_ms"@, i64_value(timestamp_ms)),
            ("level"@, text_value(level_name(level))),
            ("action"@, text_value(action_id@)),
            ("rule_id"@, text_value(rule_id@)),
            ("payload"@, *payload),
        ]);
        assert(members_view(members@) =~= log_members(rule_id@, action_id@, level, *payload, timestamp_ms, tv));
    }
    let object = json_object(members);
    json_to_text(&object)
}

} // verus!
