//! Rule definitions: config-shaped, a closed operator set.
//!
//! No scripting language and no string evaluation; conditions are typed
//! trees over a closed operator set.

use vstd::prelude::*;

verus! {

/// What causes a rule to be considered for firing.
#[derive(Debug, Clone, PartialEq)]
pub enum Trigger {
    /// Fires on inputs of one kind family (e.g. `"temperature"` matches
    /// `temperature.reading`), from a raw event or a window summary.
    Event {
        /// The kind (or dotted kind family) to match.
        kind: String,
    },
    /// Considered on every input; fires when its state key currently
    /// exists.
    State {
        /// State source to watch.
        source: String,
        /// State kind to watch.
        kind: String,
    },
}

/// Which value a condition reads.
#[derive(Debug, PartialEq)]
pub enum Field {
    /// The triggering input's payload value (event payload or summary mean).
    EventValue,
    /// A current state entry's value; missing state compares as `false`.
    State {
        /// State source to read.
        source: String,
        /// State kind to read.
        kind: String,
    },
    /// A statistic of the triggering window summary; `false` when the
    /// triggering input is a raw event.
    Aggregation {
        /// Which statistic of the summary to read.
        stat: Stat,
    },
}

/// A statistic of a closed aggregation window.
#[derive(Debug, Clone, Copy, PartialEq, Eq)]
pub enum Stat {
    /// Arithmetic mean of the window.
    Mean,
    /// Minimum of the window.
    Min,
    /// Maximum of the window.
    Max,
    /// Sum of the window.
    Sum,
    /// Number of events in the window.
    Count,
    /// Last value accumulated in the window.
    Last,
}

/// A scalar comparable literal; numbers are binary64 bit patterns.
#[derive(Debug, PartialEq)]
pub enum Literal {
    /// Numeric comparison value (bit pattern).
    Numeric(u64),
    /// Text comparison value.
    Text(String),
    /// Boolean comparison value.
    Boolean(bool),
}

/// A literal with its text as a character sequence.
pub ghost enum LiteralView {
    Numeric(u64),
    Text(Seq<char>),
    Boolean(bool),
}

impl View for Literal {
    type V = LiteralView;

    open spec fn view(&self) -> LiteralView {
        match self {
            Literal::Numeric(v) => LiteralView::Numeric(*v),
            Literal::Text(v) => LiteralView::Text(v@),
            Literal::Boolean(v) => LiteralView::Boolean(*v),
        }
    }
}

/// The closed operator set. Ordering operators apply to numerics only;
/// text and booleans support equality.
#[derive(Debug, Clone, Copy, PartialEq, Eq)]
pub enum Operator {
    /// Greater than.
    Gt,
    /// Greater than or equal.
    Gte,
    /// Less than.
    Lt,
    /// Less than or equal.
    Lte,
    /// Equal.
    Eq,
    /// Not equal.
    Ne,
}

/// Typed condition tree. `All`/`Any` require at least one child, enforced
/// at configuration time so a malformed rule cannot silently always-fire.
#[derive(Debug, PartialEq)]
pub enum Condition {
    /// True when every child is true.
    All(Vec<Condition>),
    /// True when any child is true.
    Any(Vec<Condition>),
    /// True when the child is false.
    Not(Box<Condition>),
    /// A typed comparison against a scalar literal.
    Comparison {
        /// Which value is read.
        field: Field,
        /// Which operator applies.
        op: Operator,
        /// The scalar literal to compare against.
        value: Literal,
    },
    /// True when the referenced value exists (event payload always does;
    /// a state key must currently be present; `Aggregation` exists only on
    /// summary inputs).
    Exists {
        /// Which value is probed.
        field: Field,
    },
}

impl Clone for Field {
    fn clone(&self) -> (r: Self)
        ensures
            r == *self,
    {
        match self {
            Field::EventValue => Field::EventValue,
            Field::State { source, kind } => Field::State { source: source.clone(), kind: kind.clone() },
            Field::Aggregation { stat } => Field::Aggregation { stat: *stat },
        }
    }
}

impl Clone for Literal {
    fn clone(&self) -> (r: Self)
        ensures
            r == *self,
    {
        match self {
            Literal::Numeric(v) => Literal::Numeric(*v),
            Literal::Text(v) => Literal::Text(v.clone()),
            Literal::Boolean(v) => Literal::Boolean(*v),
        }
    }
}

/// Two condition trees of the same shape with equal leaves.
pub open spec fn same_condition(a: Condition, b: Condition) -> bool
    decreases a,
{
    match a {
        Condition::All(x) => {
            proof {
                vstd::std_specs::vec::axiom_vec_decreases_to_view(x);
            }
            b is All && same_lists(x@, b->All_0@)
        },
        Condition::Any(x) => {
            proof {
                vstd::std_specs::vec::axiom_vec_decreases_to_view(x);
            }
            b is Any && same_lists(x@, b->Any_0@)
        },
        Condition::Not(x) => b is Not && same_condition(*x, *b->Not_0),
        _ => a == b,
    }
}

/// Two lists of condition trees, the same position by position.
pub open spec fn same_lists(x: Seq<Condition>, y: Seq<Condition>) -> bool
    decreases x,
{
    if x.len() == 0 {
        y.len() == 0
    } else {
        y.len() > 0 && same_condition(x[0], y[0]) && same_lists(x.drop_first(), y.drop_first())
    }
}

proof fn lemma_same_lists(x: Seq<Condition>, y: Seq<Condition>)
    requires
        x.len() == y.len(),
        forall|j: int| 0 <= j < x.len() ==> #[trigger] same_condition(x[j], y[j]),
    ensures
        same_lists(x, y),
    decreases x.len(),
{
    if x.len() > 0 {
        assert forall|j: int| 0 <= j < x.len() - 1 implies #[trigger] same_condition(x.drop_first()[j], y.drop_first()[j]) by {
            assert(same_condition(x[j + 1], y[j + 1]));
        }
        lemma_same_lists(x.drop_first(), y.drop_first());
        assert(same_condition(x[0], y[0]));
    }
}

/// A copy of a condition tree.
pub fn copy_condition(c: &Condition) -> (r: Condition)
    ensures
        same_condition(*c, r),
    decreases c,
{
    match c {
        Condition::All(children) => {
            let v = copy_conditions(children);
            proof {
                lemma_same_lists(children@, v@);
            }
            Condition::All(v)
        },
        Condition::Any(children) => {
            let v = copy_conditions(children);
            proof {
                lemma_same_lists(children@, v@);
            }
            Condition::Any(v)
        },
        Condition::Not(child) => Condition::Not(Box::new(copy_condition(child))),
        Condition::Comparison { field, op, value } => Condition::Comparison {
            field: field.clone(),
            op: *op,
            value: value.clone(),
        },
        Condition::Exists { field } => Condition::Exists { field: field.clone() },
    }
}

/// Copies of a list of condition trees.
fn copy_conditions(cs: &Vec<Condition>) -> (r: Vec<Condition>)
    ensures
        r@.len() == cs@.len(),
        forall|j: int| 0 <= j < cs@.len() ==> #[trigger] same_condition(cs@[j], r@[j]),
    decreases cs,
{
    let mut out: Vec<Condition> = Vec::new();
    let mut i: usize = 0;
    while i < cs.len()
        invariant
            i <= cs@.len(),
            out@.len() == i,
            forall|j: int| 0 <= j < i ==> #[trigger] same_condition(cs@[j], out@[j]),
        decreases cs@.len() - i,
    {
        proof {
            vstd::std_specs::vec::axiom_vec_index_decreases(*cs, i as int);
        }
        out.push(copy_condition(&cs[i]));
        i += 1;
    }
    out
}

impl Clone for Condition {
    fn clone(&self) -> (r: Self)
        ensures
            same_condition(*self, r),
    {
        copy_condition(self)
    }
}

/// Trigger-suppression policy: fire at most once per event-time window.
#[derive(Debug, Clone, PartialEq)]
pub struct OncePerWindow {
    /// Tumbling window length in event-time milliseconds.
    pub window_ms: i64,
}

/// A rule definition.
#[derive(Debug, Clone, PartialEq)]
pub struct Rule {
    /// Unique, non-empty identifier.
    pub id: String,
    /// Optional human description.
    pub description: Option<String>,
    /// What causes this rule to be considered.
    pub on: Trigger,
    /// The condition that must hold for the rule to fire.
    pub condition: Condition,
    /// Action id from configuration.
    pub action: String,
    /// Optional once-per-window suppression.
    pub suppression: Option<OncePerWindow>,
}

} // verus!
