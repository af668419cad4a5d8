//! Runtime configuration: sections, documented defaults, environment
//! overrides, and startup validation. No silent defaults beyond the
//! documented ones.

use vstd::prelude::*;

use crate::actions::{ActionConfigError, ActionConfigErrorView, ActionDefinition};
use crate::input::mqtt::MqttConfig;
use crate::processing::PipelineConfig;
use crate::rules::{Rule, Trigger};
use crate::state::StateConfig;
use crate::text::{
    concat2, concat3, debug_quoted, debug_string, is_blank, lemma_blank_iff_trimmed_empty, owned, parse_u64,
    parse_usize, parsed_u64, parsed_usize, str_blank, str_equal, trimmed,
};

verus! {

#[verifier::external_type_specification]
#[verifier::external_body]
pub struct ExIoError(std::io::Error);

/// Trusted: `Display` of an I/O error; what it says depends on the
/// system, so nothing is promised of it.
#[verifier::external_body]
pub(crate) fn io_error_text(e: &std::io::Error) -> String {
    e.to_string()
}

/// Runtime configuration.
#[derive(Debug)]
pub struct RuntimeConfig {
    /// HTTP listener settings.
    pub http: HttpConfig,
    /// Processing pipeline settings.
    pub pipeline: PipelineConfig,
    /// State store settings.
    pub state: StateConfig,
    /// Rule definitions.
    pub rules: Vec<Rule>,
    /// Action definitions.
    pub actions: Vec<ActionDefinition>,
    /// MQTT adapter settings (disabled when `enabled` is false).
    pub mqtt: MqttSection,
    /// Optional persistence (snapshots); disabled by default.
    pub persistence: PersistenceSection,
    /// Bounded work-queue depth between HTTP handlers and the worker.
    pub queue_capacity: usize,
}

/// Persistence section: strictly opt-in; absent or `enabled: false`
/// means no persistence code path runs at all.
#[derive(Debug, Clone, PartialEq)]
pub struct PersistenceSection {
    /// Enable the local snapshot adapter. Default false.
    pub enabled: bool,
    /// Snapshot file path. Required when enabled.
    pub path: Option<String>,
    /// Snapshot cadence in seconds. Default 60.
    pub snapshot_interval_secs: u64,
}

/// The default snapshot cadence, in seconds.
pub fn default_snapshot_interval_secs() -> (r: u64)
    ensures
        r == 60,
{
    60
}

impl Default for PersistenceSection {
    fn default() -> (r: Self)
        ensures
            !r.enabled,
            r.path is None,
            r.snapshot_interval_secs == 60,
    {
        PersistenceSection { enabled: false, path: None, snapshot_interval_secs: default_snapshot_interval_secs() }
    }
}

/// MQTT section: `enabled` gates the adapter (an unconfigured section
/// must not attempt connections).
#[derive(Debug, Clone, PartialEq)]
pub struct MqttSection {
    /// Start the MQTT adapter. Default false.
    pub enabled: bool,
    /// Adapter settings (broker, topics, QoS).
    pub mqtt: MqttConfig,
}

impl Default for MqttSection {
    fn default() -> (r: Self)
        ensures
            !r.enabled,
            r.mqtt.qos == 1,
            r.mqtt.keep_alive_secs == 30,
    {
        MqttSection { enabled: false, mqtt: MqttConfig::default() }
    }
}

/// The default work-queue depth.
pub fn default_queue_capacity() -> (r: usize)
    ensures
        r == 1_000,
{
    1_000
}

/// HTTP listener settings.
#[derive(Debug, Clone, PartialEq)]
pub struct HttpConfig {
    /// Bind address. Default `127.0.0.1:8080` (loopback: local engine).
    pub bind: String,
    /// Maximum accepted request body in bytes. Default 1 MiB.
    pub max_body_bytes: usize,
    /// Maximum events per batch. Default 1_000.
    pub max_batch: usize,
}

/// The default bind address.
pub fn default_bind() -> (r: String)
    ensures
        r@ == "127.0.0.1:8080"@,
{
    owned("127.0.0.1:8080")
}

/// The default maximum request body, in bytes (1 MiB).
pub fn default_max_body_bytes() -> (r: usize)
    ensures
        r == 1_048_576,
{
    1_048_576
}

/// The default maximum number of events per batch.
pub fn default_max_batch() -> (r: usize)
    ensures
        r == 1_000,
{
    1_000
}

impl Default for HttpConfig {
    fn default() -> (r: Self)
        ensures
            r.bind@ == "127.0.0.1:8080"@,
            r.max_body_bytes == 1_048_576,
            r.max_batch == 1_000,
    {
        HttpConfig { bind: default_bind(), max_body_bytes: default_max_body_bytes(), max_batch: default_max_batch() }
    }
}

impl Default for RuntimeConfig {
    fn default() -> (r: Self)
        ensures
            r.http.bind@ == "127.0.0.1:8080"@,
            r.http.max_body_bytes == 1_048_576,
            r.http.max_batch == 1_000,
            r.state.max_entries == 10_000,
            r.state.expire_after_ms == Some(300_000i64),
            r.rules@.len() == 0,
            r.actions@.len() == 0,
            !r.mqtt.enabled,
            !r.persistence.enabled,
            r.persistence.path is None,
            r.persistence.snapshot_interval_secs == 60,
            r.queue_capacity == 1_000,
    {
        RuntimeConfig {
            http: HttpConfig::default(),
            pipeline: PipelineConfig::default(),
            state: StateConfig::default(),
            rules: Vec::new(),
            actions: Vec::new(),
            mqtt: MqttSection::default(),
            persistence: PersistenceSection::default(),
            queue_capacity: default_queue_capacity(),
        }
    }
}

/// Configuration errors: one variant per invalid input, actionable
/// messages, no silent fallback.
#[derive(Debug)]
pub enum ConfigError {
    /// The file could not be read.
    Read(String, std::io::Error),
    /// The file parsed as neither YAML nor JSON.
    Parse {
        /// The file path.
        path: String,
        /// The underlying parse failure.
        source: String,
    },
    /// A value failed validation.
    Validation(String),
    /// Referential integrity failed (rule to action).
    UnknownAction {
        /// Rule that referenced a missing action.
        rule_id: String,
        /// The missing action id.
        action: String,
    },
}

/// A configuration error as character sequences (the I/O error of a
/// read failure is left out).
pub ghost enum ConfigErrorView {
    Read(Seq<char>),
    Parse(Seq<char>, Seq<char>),
    Validation(Seq<char>),
    UnknownAction(Seq<char>, Seq<char>),
}

impl View for ConfigError {
    type V = ConfigErrorView;

    open spec fn view(&self) -> ConfigErrorView {
        match self {
            ConfigError::Read(path, _) => ConfigErrorView::Read(path@),
            ConfigError::Parse { path, source } => ConfigErrorView::Parse(path@, source@),
            ConfigError::Validation(m) => ConfigErrorView::Validation(m@),
            ConfigError::UnknownAction { rule_id, action } => ConfigErrorView::UnknownAction(rule_id@, action@),
        }
    }
}

impl ConfigError {
    /// The human-readable message (what `Display` renders). For a read
    /// failure, the system's description of the I/O error follows the
    /// path.
    pub fn message(&self) -> (r: String)
        ensures
            match self@ {
                ConfigErrorView::Read(path) => r@.len() >= ("failed to read config file "@ + path + ": "@).len()
                    && r@.subrange(0, ("failed to read config file "@ + path + ": "@).len() as int)
                    == "failed to read config file "@ + path + ": "@,
                ConfigErrorView::Parse(path, source) => r@ == "failed to parse config file "@ + path + ": "@ + source,
                ConfigErrorView::Validation(m) => r@ == "invalid configuration: "@ + m,
                ConfigErrorView::UnknownAction(rule_id, action) => r@ == "rule "@ + rule_id + " references unknown action "@
                    + debug_quoted(action),
            },
    {
        match self {
            ConfigError::Read(path, error) => {
                let head = concat3("failed to read config file ", path.as_str(), ": ");
                let detail = io_error_text(error);
                let r = concat2(head.as_str(), detail.as_str());
                assert(r@.subrange(0, head@.len() as int) =~= head@);
                r
            },
            ConfigError::Parse { path, source } => {
                let head = concat3("failed to parse config file ", path.as_str(), ": ");
                concat2(head.as_str(), source.as_str())
            },
            ConfigError::Validation(m) => concat2("invalid configuration: ", m.as_str()),
            ConfigError::UnknownAction { rule_id, action } => {
                let q = debug_string(action.as_str());
                let head = concat3("rule ", rule_id.as_str(), " references unknown action ");
                concat2(head.as_str(), q.as_str())
            },
        }
    }
}

/// Some earlier action has this exact id.
pub open spec fn id_taken(actions: Seq<ActionDefinition>, id: Seq<char>) -> bool {
    exists|j: int| 0 <= j < actions.len() && #[trigger] actions[j].id@ == id
}

/// The first action id that repeats an earlier one, among the first `n`.
pub open spec fn first_duplicate_action(actions: Seq<ActionDefinition>, n: nat) -> Option<Seq<char>>
    decreases n,
{
    if n == 0 {
        None
    } else {
        match first_duplicate_action(actions, (n - 1) as nat) {
            Some(d) => Some(d),
            None => if id_taken(actions.take(n - 1), actions[n - 1].id@) {
                Some(actions[n - 1].id@)
            } else {
                None
            },
        }
    }
}

/// The problem one rule raises, given the rules before it and the
/// configured actions.
pub open spec fn rule_problem(r: Rule, earlier: Seq<Rule>, actions: Seq<ActionDefinition>) -> Option<ConfigErrorView> {
    if exists|j: int| 0 <= j < earlier.len() && #[trigger] earlier[j].id@ == r.id@ {
        Some(ConfigErrorView::Validation("duplicate rule id: "@ + r.id@))
    } else if (match r.on {
        Trigger::Event { kind } => is_blank(kind@),
        _ => false,
    }) {
        Some(ConfigErrorView::Validation("rule "@ + r.id@ + " has an empty trigger kind"@))
    } else if !id_taken(actions, r.action@) {
        Some(ConfigErrorView::UnknownAction(r.id@, r.action@))
    } else {
        None
    }
}

/// The first rule problem among the first `n` rules.
pub open spec fn first_rule_problem(rules: Seq<Rule>, n: nat, actions: Seq<ActionDefinition>) -> Option<ConfigErrorView>
    decreases n,
{
    if n == 0 {
        None
    } else {
        match first_rule_problem(rules, (n - 1) as nat, actions) {
            Some(e) => Some(e),
            None => rule_problem(rules[n - 1], rules.take(n - 1), actions),
        }
    }
}

/// The first problem of a configuration, if any: a positive queue
/// capacity; with persistence enabled, a non-blank path; a positive
/// snapshot interval; unique action ids; unique rule ids, non-blank event
/// trigger kinds, and rule actions that name configured actions.
pub open spec fn config_problem(c: RuntimeConfig) -> Option<ConfigErrorView> {
    if !scalars_valid(c) {
        scalar_problem(c)
    } else {
        match first_duplicate_action(c.actions@, c.actions@.len()) {
            Some(id) => Some(ConfigErrorView::Validation("duplicate action id: "@ + id)),
            None => first_rule_problem(c.rules@, c.rules@.len(), c.actions@),
        }
    }
}

/// The scalar settings pass their checks.
pub open spec fn scalars_valid(c: RuntimeConfig) -> bool {
    scalar_problem(c) is None
}

/// The first problem among the scalar settings, if any.
pub open spec fn scalar_problem(c: RuntimeConfig) -> Option<ConfigErrorView> {
    if c.queue_capacity == 0 {
        Some(ConfigErrorView::Validation("queue_capacity must be > 0"@))
    } else if c.persistence.enabled && (match c.persistence.path {
        Some(p) => is_blank(p@),
        None => true,
    }) {
        Some(ConfigErrorView::Validation("persistence.enabled requires a non-empty persistence.path"@))
    } else if c.persistence.snapshot_interval_secs == 0 {
        Some(ConfigErrorView::Validation("persistence.snapshot_interval_secs must be > 0"@))
    } else {
        None
    }
}

proof fn lemma_duplicate_prefix(actions: Seq<ActionDefinition>, k: nat, n: nat)
    requires
        k <= n,
        first_duplicate_action(actions, k) is Some,
    ensures
        first_duplicate_action(actions, n) == first_duplicate_action(actions, k),
    decreases n,
{
    if n > k {
        lemma_duplicate_prefix(actions, k, (n - 1) as nat);
    }
}

proof fn lemma_rule_problem_prefix(rules: Seq<Rule>, k: nat, n: nat, actions: Seq<ActionDefinition>)
    requires
        k <= n,
        first_rule_problem(rules, k, actions) is Some,
    ensures
        first_rule_problem(rules, n, actions) == first_rule_problem(rules, k, actions),
    decreases n,
{
    if n > k {
        lemma_rule_problem_prefix(rules, k, (n - 1) as nat, actions);
    }
}

/// The settings that environment overrides can change.
pub ghost struct EnvSettings {
    pub bind: Seq<char>,
    pub snapshot_interval_secs: u64,
    pub queue_capacity: usize,
}

/// The overridable settings of a configuration.
pub open spec fn env_settings(c: RuntimeConfig) -> EnvSettings {
    EnvSettings {
        bind: c.http.bind@,
        snapshot_interval_secs: c.persistence.snapshot_interval_secs,
        queue_capacity: c.queue_capacity,
    }
}

/// What one environment variable does to the settings: a recognised key
/// with a valid value replaces its setting, an invalid value is an error,
/// and any other key is ignored.
pub open spec fn env_step(f: EnvSettings, key: Seq<char>, value: Seq<char>) -> Result<EnvSettings, ConfigErrorView> {
    if key == "DELTU_HTTP_BIND"@ {
        Ok(EnvSettings { bind: value, ..f })
    } else if key == "DELTU_SNAPSHOT_INTERVAL_SECS"@ {
        match parsed_u64(value) {
            None => Err(ConfigErrorView::Validation(
                "DELTU_SNAPSHOT_INTERVAL_SECS must be a positive integer, got "@ + debug_quoted(value),
            )),
            Some(v) => if v == 0 {
                Err(ConfigErrorView::Validation("DELTU_SNAPSHOT_INTERVAL_SECS must be > 0"@))
            } else {
                Ok(EnvSettings { snapshot_interval_secs: v, ..f })
            },
        }
    } else if key == "DELTU_QUEUE_CAPACITY"@ {
        match parsed_usize(value) {
            None => Err(ConfigErrorView::Validation(
                "DELTU_QUEUE_CAPACITY must be a positive integer, got "@ + debug_quoted(value),
            )),
            Some(v) => if v == 0 {
                Err(ConfigErrorView::Validation("DELTU_QUEUE_CAPACITY must be > 0"@))
            } else {
                Ok(EnvSettings { queue_capacity: v, ..f })
            },
        }
    } else {
        Ok(f)
    }
}

/// The settings after the first `n` variables, in order, and the error
/// that stopped the application, if one did: variables before the
/// failing one stay applied.
pub open spec fn env_applied(vars: Seq<(String, String)>, n: nat, f: EnvSettings) -> (EnvSettings, Option<ConfigErrorView>)
    decreases n,
{
    if n == 0 {
        (f, None)
    } else {
        let (g, e) = env_applied(vars, (n - 1) as nat, f);
        if e is Some {
            (g, e)
        } else {
            match env_step(g, vars[n - 1].0@, vars[n - 1].1@) {
                Ok(h) => (h, None),
                Err(x) => (g, Some(x)),
            }
        }
    }
}

/// The first problem of an action list as the dispatcher's input: a blank
/// id, or an id that repeats an earlier one exactly.
pub open spec fn listing_error(ds: Seq<ActionDefinition>, n: nat) -> Option<ActionConfigErrorView>
    decreases n,
{
    if n == 0 {
        None
    } else {
        match listing_error(ds, (n - 1) as nat) {
            Some(e) => Some(e),
            None => if is_blank(ds[n - 1].id@) {
                Some(ActionConfigErrorView::EmptyActionId(ds[n - 1].id@))
            } else if id_taken(ds.take(n - 1), ds[n - 1].id@) {
                Some(ActionConfigErrorView::DuplicateActionId(ds[n - 1].id@))
            } else {
                None
            },
        }
    }
}

proof fn lemma_listing_prefix(ds: Seq<ActionDefinition>, k: nat, n: nat)
    requires
        k <= n,
        listing_error(ds, k) is Some,
    ensures
        listing_error(ds, n) == listing_error(ds, k),
    decreases n,
{
    if n > k {
        lemma_listing_prefix(ds, k, (n - 1) as nat);
    }
}

proof fn lemma_env_prefix(vars: Seq<(String, String)>, k: nat, n: nat, f: EnvSettings)
    requires
        k <= n,
        env_applied(vars, k, f).1 is Some,
    ensures
        env_applied(vars, n, f) == env_applied(vars, k, f),
    decreases n,
{
    if n > k {
        lemma_env_prefix(vars, k, (n - 1) as nat, f);
    }
}

/// Whether some action of the list has exactly this id.
fn has_action(actions: &Vec<ActionDefinition>, upto: usize, id: &str) -> (r: bool)
    requires
        upto <= actions@.len(),
    ensures
        r == id_taken(actions@.take(upto as int), id@),
{
    let mut j: usize = 0;
    while j < upto
        invariant
            upto <= actions@.len(),
            j <= upto,
            forall|q: int| 0 <= q < j ==> #[trigger] actions@[q].id@ != id@,
        decreases upto - j,
    {
        if str_equal(actions[j].id.as_str(), id) {
            proof {
                assert(actions@.take(upto as int)[j as int] == actions@[j as int]);
            }
            return true;
        }
        j += 1;
    }
    proof {
        if id_taken(actions@.take(upto as int), id@) {
            let q = choose|q: int| 0 <= q < upto && #[trigger] actions@.take(upto as int)[q].id@ == id@;
            assert(actions@.take(upto as int)[q] == actions@[q]);
        }
    }
    false
}

/// Whether some rule among the first `upto` has exactly this id.
fn has_rule(rules: &Vec<Rule>, upto: usize, id: &str) -> (r: bool)
    requires
        upto <= rules@.len(),
    ensures
        r == exists|j: int| 0 <= j < upto && #[trigger] rules@.take(upto as int)[j].id@ == id@,
{
    let mut j: usize = 0;
    while j < upto
        invariant
            upto <= rules@.len(),
            j <= upto,
            forall|q: int| 0 <= q < j ==> #[trigger] rules@[q].id@ != id@,
        decreases upto - j,
    {
        if str_equal(rules[j].id.as_str(), id) {
            proof {
                assert(rules@.take(upto as int)[j as int] == rules@[j as int]);
            }
            return true;
        }
        j += 1;
    }
    proof {
        if exists|q: int| 0 <= q < upto && #[trigger] rules@.take(upto as int)[q].id@ == id@ {
            let q = choose|q: int| 0 <= q < upto && #[trigger] rules@.take(upto as int)[q].id@ == id@;
            assert(rules@.take(upto as int)[q] == rules@[q]);
        }
    }
    false
}

impl RuntimeConfig {
    /// Cross-referential validation: rule-to-action references must
    /// resolve; action and rule ids must be unique. Each engine validates
    /// its own part of the configuration when it is built.
    pub fn validate(&self) -> (r: Result<(), ConfigError>)
        ensures
            match r {
                Ok(()) => config_problem(*self) is None,
                Err(e) => config_problem(*self) == Some(e@),
            },
    {
        if self.queue_capacity == 0 {
            return Err(ConfigError::Validation(owned("queue_capacity must be > 0")));
        }
        if self.persistence.enabled {
            let missing = match &self.persistence.path {
                Some(p) => str_blank(p.as_str()),
                None => true,
            };
            if missing {
                return Err(ConfigError::Validation(owned("persistence.enabled requires a non-empty persistence.path")));
            }
        }
        if self.persistence.snapshot_interval_secs == 0 {
            return Err(ConfigError::Validation(owned("persistence.snapshot_interval_secs must be > 0")));
        }
        let mut i: usize = 0;
        while i < self.actions.len()
            invariant
                i <= self.actions@.len(),
                scalars_valid(*self),
                first_duplicate_action(self.actions@, i as nat) is None,
            decreases self.actions@.len() - i,
        {
            if has_action(&self.actions, i, self.actions[i].id.as_str()) {
                proof {
                    lemma_duplicate_prefix(self.actions@, (i + 1) as nat, self.actions@.len());
                }
                return Err(ConfigError::Validation(concat2("duplicate action id: ", self.actions[i].id.as_str())));
            }
            i += 1;
        }
        let mut i: usize = 0;
        while i < self.rules.len()
            invariant
                i <= self.rules@.len(),
                scalars_valid(*self),
                first_duplicate_action(self.actions@, self.actions@.len()) is None,
                first_rule_problem(self.rules@, i as nat, self.actions@) is None,
            decreases self.rules@.len() - i,
        {
            let rule = &self.rules[i];
            proof {
                assert(self.actions@.take(self.actions@.len() as int) =~= self.actions@);
            }
            if has_rule(&self.rules, i, rule.id.as_str()) {
                proof {
                    lemma_rule_problem_prefix(self.rules@, (i + 1) as nat, self.rules@.len(), self.actions@);
                }
                return Err(ConfigError::Validation(concat2("duplicate rule id: ", rule.id.as_str())));
            }
            let empty_kind = match &rule.on {
                Trigger::Event { kind } => str_blank(kind.as_str()),
                _ => false,
            };
            if empty_kind {
                proof {
                    lemma_rule_problem_prefix(self.rules@, (i + 1) as nat, self.rules@.len(), self.actions@);
                }
                return Err(ConfigError::Validation(concat3("rule ", rule.id.as_str(), " has an empty trigger kind")));
            }
            if !has_action(&self.actions, self.actions.len(), rule.action.as_str()) {
                proof {
                    lemma_rule_problem_prefix(self.rules@, (i + 1) as nat, self.rules@.len(), self.actions@);
                }
                return Err(ConfigError::UnknownAction { rule_id: rule.id.clone(), action: rule.action.clone() });
            }
            i += 1;
        }
        Ok(())
    }

    /// Applies environment overrides, in order: `DELTU_HTTP_BIND`,
    /// `DELTU_SNAPSHOT_INTERVAL_SECS`, `DELTU_QUEUE_CAPACITY`. Invalid
    /// values are errors, never ignored; other keys are ignored.
    pub fn apply_env_overrides(&mut self, vars: &[(String, String)]) -> (r: Result<(), ConfigError>)
        ensures
            env_settings(*final(self)) == env_applied(vars@, vars@.len(), env_settings(*old(self))).0,
            final(self).http.max_body_bytes == old(self).http.max_body_bytes,
            final(self).http.max_batch == old(self).http.max_batch,
            final(self).pipeline == old(self).pipeline,
            final(self).state == old(self).state,
            final(self).rules == old(self).rules,
            final(self).actions == old(self).actions,
            final(self).mqtt == old(self).mqtt,
            final(self).persistence.enabled == old(self).persistence.enabled,
            final(self).persistence.path == old(self).persistence.path,
            match r {
                Ok(()) => env_applied(vars@, vars@.len(), env_settings(*old(self))).1 is None,
                Err(e) => env_applied(vars@, vars@.len(), env_settings(*old(self))).1 == Some(e@),
            },
    {
        let ghost start = env_settings(*self);
        let mut i: usize = 0;
        while i < vars.len()
            invariant
                i <= vars@.len(),
                env_applied(vars@, i as nat, start) == (env_settings(*self), None::<ConfigErrorView>),
                start == env_settings(*old(self)),
                self.http.max_body_bytes == old(self).http.max_body_bytes,
                self.http.max_batch == old(self).http.max_batch,
                self.pipeline == old(self).pipeline,
                self.state == old(self).state,
                self.rules == old(self).rules,
                self.actions == old(self).actions,
                self.mqtt == old(self).mqtt,
                self.persistence.enabled == old(self).persistence.enabled,
                self.persistence.path == old(self).persistence.path,
            decreases vars@.len() - i,
        {
            let key = vars[i].0.as_str();
            let value = vars[i].1.as_str();
            let ghost before = env_settings(*self);
            if str_equal(key, "DELTU_HTTP_BIND") {
                self.http.bind = owned(value);
            } else if str_equal(key, "DELTU_SNAPSHOT_INTERVAL_SECS") {
                match parse_u64(value) {
                    None => {
                        let q = debug_string(value);
                        proof {
                            lemma_env_prefix(vars@, (i + 1) as nat, vars@.len(), start);
                        }
                        return Err(ConfigError::Validation(concat2(
                            "DELTU_SNAPSHOT_INTERVAL_SECS must be a positive integer, got ",
                            q.as_str(),
                        )));
                    },
                    Some(v) => {
                        if v == 0 {
                            proof {
                                lemma_env_prefix(vars@, (i + 1) as nat, vars@.len(), start);
                            }
                            return Err(ConfigError::Validation(owned("DELTU_SNAPSHOT_INTERVAL_SECS must be > 0")));
                        }
                        self.persistence.snapshot_interval_secs = v;
                    },
                }
            } else if str_equal(key, "DELTU_QUEUE_CAPACITY") {
                match parse_usize(value) {
                    None => {
                        let q = debug_string(value);
                        proof {
                            lemma_env_prefix(vars@, (i + 1) as nat, vars@.len(), start);
                        }
                        return Err(ConfigError::Validation(concat2(
                            "DELTU_QUEUE_CAPACITY must be a positive integer, got ",
                            q.as_str(),
                        )));
                    },
                    Some(v) => {
                        if v == 0 {
                            proof {
                                lemma_env_prefix(vars@, (i + 1) as nat, vars@.len(), start);
                            }
                            return Err(ConfigError::Validation(owned("DELTU_QUEUE_CAPACITY must be > 0")));
                        }
                        self.queue_capacity = v;
                    },
                }
            }
            proof {
                assert(env_step(before, vars@[i as int].0@, vars@[i as int].1@) == Ok::<EnvSettings, ConfigErrorView>(env_settings(*self)));
            }
            i += 1;
        }
        Ok(())
    }

    /// The action definitions as the dispatcher takes them, after checking
    /// that every id is non-blank and no id repeats exactly.
    pub fn validate_actions(&self) -> (r: Result<Vec<ActionDefinition>, ActionConfigError>)
        ensures
            match r {
                Ok(v) => listing_error(self.actions@, self.actions@.len()) is None && v@ == self.actions@,
                Err(e) => listing_error(self.actions@, self.actions@.len()) == Some(e@),
            },
    {
        let mut out: Vec<ActionDefinition> = Vec::new();
        let mut i: usize = 0;
        while i < self.actions.len()
            invariant
                i <= self.actions@.len(),
                listing_error(self.actions@, i as nat) is None,
                out@ == self.actions@.take(i as int),
            decreases self.actions@.len() - i,
        {
            let d = &self.actions[i];
            if str_blank(d.id.as_str()) {
                proof {
                    lemma_listing_prefix(self.actions@, (i + 1) as nat, self.actions@.len());
                }
                return Err(ActionConfigError::EmptyActionId(d.id.clone()));
            }
            if has_action(&self.actions, i, d.id.as_str()) {
                proof {
                    lemma_listing_prefix(self.actions@, (i + 1) as nat, self.actions@.len());
                }
                return Err(ActionConfigError::DuplicateActionId(d.id.clone()));
            }
            out.push(d.clone());
            proof {
                assert(out@ =~= self.actions@.take(i + 1));
            }
            i += 1;
        }
        proof {
            assert(self.actions@.take(self.actions@.len() as int) =~= self.actions@);
        }
        Ok(out)
    }
}

proof fn lemma_rules_resolve(rules: Seq<Rule>, n: nat, actions: Seq<ActionDefinition>)
    requires
        n <= rules.len(),
        first_rule_problem(rules, n, actions) is None,
    ensures
        forall|i: int| 0 <= i < n ==> id_taken(actions, (#[trigger] rules[i]).action@),
        forall|i: int, j: int| 0 <= i < j < n ==> (#[trigger] rules[i]).id@ != (#[trigger] rules[j]).id@,
    decreases n,
{
    if n > 0 {
        lemma_rules_resolve(rules, (n - 1) as nat, actions);
        let earlier = rules.take(n - 1);
        assert forall|i: int| 0 <= i < n - 1 implies (#[trigger] rules[i]).id@ != rules[n - 1].id@ by {
            assert(earlier[i] == rules[i]);
        }
    }
}

proof fn lemma_actions_distinct(actions: Seq<ActionDefinition>, n: nat)
    requires
        n <= actions.len(),
        first_duplicate_action(actions, n) is None,
    ensures
        forall|i: int, j: int| 0 <= i < j < n ==> (#[trigger] actions[i]).id@ != (#[trigger] actions[j]).id@,
    decreases n,
{
    if n > 0 {
        lemma_actions_distinct(actions, (n - 1) as nat);
        let earlier = actions.take(n - 1);
        assert forall|i: int| 0 <= i < n - 1 implies (#[trigger] actions[i]).id@ != actions[n - 1].id@ by {
            assert(earlier[i] == actions[i]);
        }
    }
}

/// Law (referential integrity): a configuration that validates has
/// unique action ids and unique rule ids, and every rule's action names a
/// configured action.
pub proof fn law_valid_config_resolves(c: RuntimeConfig)
    requires
        config_problem(c) is None,
    ensures
        forall|i: int| 0 <= i < c.rules@.len() ==> id_taken(c.actions@, (#[trigger] c.rules@[i]).action@),
        forall|i: int, j: int|
            0 <= i < j < c.rules@.len() ==> (#[trigger] c.rules@[i]).id@ != (#[trigger] c.rules@[j]).id@,
        forall|i: int, j: int|
            0 <= i < j < c.actions@.len() ==> (#[trigger] c.actions@[i]).id@ != (#[trigger] c.actions@[j]).id@,
{
    lemma_actions_distinct(c.actions@, c.actions@.len());
    lemma_rules_resolve(c.rules@, c.rules@.len(), c.actions@);
}

} // verus!
