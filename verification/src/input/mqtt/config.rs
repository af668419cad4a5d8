//! MQTT adapter configuration.

use vstd::prelude::*;

use crate::text::owned;

verus! {

/// MQTT protocol version for the connection: 5.0 by default, 3.1.1 for
/// older brokers.
#[derive(Debug, Clone, Copy, PartialEq, Eq)]
pub enum Transport {
    /// MQTT 5.0 (default).
    Mqtt5,
    /// MQTT 3.1.1 for older brokers.
    Mqtt31,
}

/// MQTT adapter settings (the `mqtt:` config section).
#[derive(Debug, Clone, PartialEq)]
pub struct MqttConfig {
    /// Broker URL, e.g. `mqtt://broker.local:1883`.
    pub broker_url: String,
    /// Client id; a stable id plus a persistent session lets the broker
    /// queue messages while Deltu restarts.
    pub client_id: String,
    /// Topic filters to subscribe (e.g. `sensors/#`).
    pub topics: Vec<String>,
    /// QoS for subscriptions and publishes. Default 1 (at least once:
    /// telemetry must not be silently lost).
    pub qos: u8,
    /// Keep-alive in seconds. Default 30.
    pub keep_alive_secs: u64,
    /// MQTT5 session expiry seconds; `None` = never expire (persistent).
    pub session_expiry_secs: Option<u32>,
    /// Protocol version. Default MQTT 5.
    pub transport: Transport,
}

impl Default for MqttConfig {
    fn default() -> (r: Self)
        ensures
            r.broker_url@ == "mqtt://127.0.0.1:1883"@,
            r.client_id@ == "deltu"@,
            r.topics@.len() == 0,
            r.qos == 1,
            r.keep_alive_secs == 30,
            r.session_expiry_secs is None,
            r.transport == Transport::Mqtt5,
    {
        MqttConfig {
            broker_url: owned("mqtt://127.0.0.1:1883"),
            client_id: owned("deltu"),
            topics: Vec::new(),
            qos: 1,
            keep_alive_secs: 30,
            session_expiry_secs: None,
            transport: Transport::Mqtt5,
        }
    }
}

} // verus!
