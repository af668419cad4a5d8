//! High-level rule DSL parser: compiles developer-friendly rule syntax
//! (`temperature > 80`, `count(http.error) > 10 AND NOT door == 'open'`)
//! into the typed rule definitions.

use vstd::prelude::*;

use crate::floatbits::FloatArith;
use crate::rules::definition::{Condition, Field, Literal, LiteralView, OncePerWindow, Operator, Rule, Stat, Trigger};
use crate::rules::{holds, lemma_lists, EvalInput};
use crate::text::{
    chars_find, chars_have_prefix, chars_have_suffix, chars_of, concat2, concat3, debug_quoted, debug_string,
    first_occurrence, has_prefix, has_suffix, lemma_occurrence_found, lemma_trimmed_len, owned, parse_i64, parsed_i64,
    str_trim, string_from_range, trimmed,
};

verus! {

/// High-level developer-facing rule definition.
#[derive(Debug, Clone, PartialEq)]
pub struct DslRuleConfig {
    /// Unique rule identifier.
    pub id: Option<String>,
    /// Rule name (used as id if `id` is omitted).
    pub name: Option<String>,
    /// Human-readable description.
    pub description: Option<String>,
    /// Condition expression (e.g. `temperature > 80`, `count(http.error) > 10`).
    pub when: String,
    /// Time window for once-per-window suppression (e.g. `60s`, `1m`).
    pub within: Option<String>,
    /// Target action identifier.
    pub action: Option<String>,
}

// ---------------------------------------------------------------------
// Durations
// ---------------------------------------------------------------------

/// What a duration text reads as, in milliseconds, or the error message.
pub open spec fn duration_result(input: Seq<char>) -> Result<i64, Seq<char>> {
    let s = trimmed(input);
    if s.len() == 0 {
        Err("empty duration string"@)
    } else if has_suffix(s, "ms"@) {
        scaled(input, parsed_i64(s.subrange(0, s.len() - 2)), 1, "invalid milliseconds in "@)
    } else if has_suffix(s, "s"@) {
        scaled(input, parsed_i64(s.subrange(0, s.len() - 1)), 1_000, "invalid seconds in "@)
    } else if has_suffix(s, "m"@) {
        scaled(input, parsed_i64(s.subrange(0, s.len() - 1)), 60_000, "invalid minutes in "@)
    } else {
        match parsed_i64(s) {
            Some(v) => scaled(input, Some(v), 1_000, ""@),
            None => Err("unsupported duration format "@ + debug_quoted(input) + " (expected e.g. '60s', '1m', '500ms')"@),
        }
    }
}

/// A parsed count of units, in milliseconds: positive, and small enough
/// that the milliseconds fit in an `i64`.
pub open spec fn scaled(input: Seq<char>, parsed: Option<i64>, unit: i64, invalid: Seq<char>) -> Result<i64, Seq<char>> {
    match parsed {
        None => Err(invalid + debug_quoted(input)),
        Some(v) => if v <= 0 {
            Err("duration must be positive, got "@ + debug_quoted(input))
        } else if v * unit > i64::MAX {
            Err("duration is too long, got "@ + debug_quoted(input))
        } else {
            Ok((v * unit) as i64)
        },
    }
}

fn scale_duration(input: &str, parsed: Option<i64>, unit: i64, invalid: &str) -> (r: Result<i64, String>)
    requires
        unit > 0,
    ensures
        match (r, scaled(input@, parsed, unit, invalid@)) {
            (Ok(v), Ok(w)) => v == w,
            (Err(m), Err(e)) => m@ == e,
            _ => false,
        },
{
    match parsed {
        None => {
            let q = debug_string(input);
            Err(concat2(invalid, q.as_str()))
        },
        Some(v) => {
            if v <= 0 {
                let q = debug_string(input);
                Err(concat2("duration must be positive, got ", q.as_str()))
            } else if v > i64::MAX / unit {
                proof {
                    assert(v * unit > i64::MAX) by (nonlinear_arith)
                        requires
                            v > i64::MAX / unit,
                            unit > 0,
                    ;
                }
                let q = debug_string(input);
                Err(concat2("duration is too long, got ", q.as_str()))
            } else {
                proof {
                    assert(v * unit <= i64::MAX) by (nonlinear_arith)
                        requires
                            v <= i64::MAX / unit,
                            unit > 0,
                    ;
                }
                Ok(v * unit)
            }
        },
    }
}

/// Parses a duration (e.g. "60s", "30s", "1m", "500ms", or a bare number
/// of seconds) into milliseconds.
pub fn parse_duration_ms(input: &str) -> (r: Result<i64, String>)
    ensures
        match (r, duration_result(input@)) {
            (Ok(v), Ok(w)) => v == w,
            (Err(m), Err(e)) => m@ == e,
            _ => false,
        },
{
    let s = str_trim(input);
    let chars = chars_of(s.as_str());
    if chars.len() == 0 {
        return Err(owned("empty duration string"));
    }
    let ms = chars_of("ms");
    let sec = chars_of("s");
    let min = chars_of("m");
    proof {
        reveal_strlit("ms");
        reveal_strlit("s");
        reveal_strlit("m");
    }
    if chars_have_suffix(&chars, &ms) {
        let num = string_from_range(&chars, 0, chars.len() - 2);
        scale_duration(input, parse_i64(num.as_str()), 1, "invalid milliseconds in ")
    } else if chars_have_suffix(&chars, &sec) {
        let num = string_from_range(&chars, 0, chars.len() - 1);
        scale_duration(input, parse_i64(num.as_str()), 1_000, "invalid seconds in ")
    } else if chars_have_suffix(&chars, &min) {
        let num = string_from_range(&chars, 0, chars.len() - 1);
        scale_duration(input, parse_i64(num.as_str()), 60_000, "invalid minutes in ")
    } else {
        match parse_i64(s.as_str()) {
            Some(v) => scale_duration(input, Some(v), 1_000, ""),
            None => {
                let q = debug_string(input);
                Err(concat3("unsupported duration format ", q.as_str(), " (expected e.g. '60s', '1m', '500ms')"))
            },
        }
    }
}

// ---------------------------------------------------------------------
// `when` expressions
// ---------------------------------------------------------------------

/// The shape of a parsed `when` condition; comparisons keep the text of
/// their right-hand side.
pub ghost enum ConditionShape {
    Both(Box<ConditionShape>, Box<ConditionShape>),
    Either(Box<ConditionShape>, Box<ConditionShape>),
    Negated(Box<ConditionShape>),
    Compare(Field, Operator, Seq<char>),
}

/// `s` split around the first occurrence of `op`, both sides trimmed and
/// non-empty.
pub open spec fn split_on(s: Seq<char>, op: Seq<char>) -> Option<(Seq<char>, Seq<char>)> {
    match first_occurrence(s, op) {
        Some(i) => {
            let l = trimmed(s.subrange(0, i));
            let r = trimmed(s.subrange(i + op.len(), s.len() as int));
            if l.len() > 0 && r.len() > 0 {
                Some((l, r))
            } else {
                None
            }
        },
        None => None,
    }
}

pub proof fn lemma_split_shorter(s: Seq<char>, op: Seq<char>)
    requires
        op.len() > 0,
    ensures
        split_on(s, op) matches Some((l, r)) ==> l.len() < s.len() && r.len() < s.len(),
{
    lemma_occurrence_found(s, op, 0);
    if let Some(i) = first_occurrence(s, op) {
        lemma_trimmed_len(s.subrange(0, i));
        lemma_trimmed_len(s.subrange(i + op.len(), s.len() as int));
    }
}

/// The comparison operator of an expression: the first of `>=`, `<=`,
/// `==`, `!=`, `=`, `>`, `<` that occurs in it.
pub open spec fn comparison_op(e: Seq<char>) -> Option<(Seq<char>, Operator)> {
    if first_occurrence(e, ">="@) is Some {
        Some((">="@, Operator::Gte))
    } else if first_occurrence(e, "<="@) is Some {
        Some(("<="@, Operator::Lte))
    } else if first_occurrence(e, "=="@) is Some {
        Some(("=="@, Operator::Eq))
    } else if first_occurrence(e, "!="@) is Some {
        Some(("!="@, Operator::Ne))
    } else if first_occurrence(e, "="@) is Some {
        Some(("="@, Operator::Eq))
    } else if first_occurrence(e, ">"@) is Some {
        Some((">"@, Operator::Gt))
    } else if first_occurrence(e, "<"@) is Some {
        Some(("<"@, Operator::Lt))
    } else {
        None
    }
}

/// The aggregation a left-hand side names: the first of `count(`,
/// `mean(`, `min(`, `max(`, `sum(`, `last(` it starts with, when it also
/// ends with `)`.
pub open spec fn stat_call(lhs: Seq<char>) -> Option<(Seq<char>, Stat)> {
    if !has_suffix(lhs, ")"@) {
        None
    } else if has_prefix(lhs, "count("@) {
        Some(("count("@, Stat::Count))
    } else if has_prefix(lhs, "mean("@) {
        Some(("mean("@, Stat::Mean))
    } else if has_prefix(lhs, "min("@) {
        Some(("min("@, Stat::Min))
    } else if has_prefix(lhs, "max("@) {
        Some(("max("@, Stat::Max))
    } else if has_prefix(lhs, "sum("@) {
        Some(("sum("@, Stat::Sum))
    } else if has_prefix(lhs, "last("@) {
        Some(("last("@, Stat::Last))
    } else {
        None
    }
}

/// The trigger kind and field a left-hand side reads, or the error.
pub open spec fn lhs_result(lhs: Seq<char>) -> Result<(Seq<char>, Field), Seq<char>> {
    if lhs.len() == 0 {
        Err("empty left-hand side in rule condition"@)
    } else {
        match stat_call(lhs) {
            Some((p, stat)) => {
                let inner = trimmed(lhs.subrange(p.len() as int, lhs.len() - 1));
                if inner.len() == 0 {
                    Err("empty aggregation target in "@ + debug_quoted(lhs))
                } else {
                    Ok((inner, Field::Aggregation { stat }))
                }
            },
            None => Ok((lhs, Field::EventValue)),
        }
    }
}

/// `c` equals `w` ignoring ASCII case.
pub open spec fn ascii_lower(c: char) -> char {
    if 'A' <= c <= 'Z' {
        ((c as u32) + 32) as char
    } else {
        c
    }
}

/// `s` equals `t` ignoring ASCII case.
pub open spec fn eq_ignore_ascii_case(s: Seq<char>, t: Seq<char>) -> bool {
    s.len() == t.len() && forall|i: int| 0 <= i < s.len() ==> ascii_lower(#[trigger] s[i]) == ascii_lower(t[i])
}

/// `s` is enclosed in a pair of single or double quotes.
pub open spec fn quoted(s: Seq<char>) -> bool {
    s.len() >= 2 && ((s[0] == '\'' && s.last() == '\'') || (s[0] == '"' && s.last() == '"'))
}

/// The literal a right-hand text denotes, with `number` what reading it
/// as a binary64 number gave: quoted text, then `true`/`false` (any
/// ASCII case), then a number, else the text itself.
pub open spec fn literal_of(s: Seq<char>, number: Option<u64>) -> LiteralView {
    if quoted(s) {
        LiteralView::Text(s.subrange(1, s.len() - 1))
    } else if eq_ignore_ascii_case(s, "true"@) {
        LiteralView::Boolean(true)
    } else if eq_ignore_ascii_case(s, "false"@) {
        LiteralView::Boolean(false)
    } else {
        match number {
            Some(bits) => LiteralView::Numeric(bits),
            None => LiteralView::Text(s),
        }
    }
}

/// `lit` is what the right-hand text `s` denotes, with the number that
/// `arith` read from `s` (as `parse_decimal` on that text returns it).
pub open spec fn literal_read<F: FloatArith>(arith: &F, s: Seq<char>, lit: Literal) -> bool {
    exists|t: &str, number: Option<u64>|
        {
            &&& t@ == s
            &&& #[trigger] call_ensures(F::parse_decimal, (arith, t), number)
            &&& lit@ == literal_of(s, number)
        }
}

/// The trigger kind and condition shape of a single comparison, or the
/// error.
pub open spec fn comparison_result(e: Seq<char>) -> Result<(Seq<char>, ConditionShape), Seq<char>> {
    match comparison_op(e) {
        None => Err("Invalid rule syntax at: "@ + debug_quoted(e) + "\nExpected comparison operator (>, >=, <, <=, ==, !=)"@),
        Some((sym, op)) => match first_occurrence(e, sym) {
            Some(i) => {
                let lhs = trimmed(e.subrange(0, i));
                let rhs = trimmed(trimmed(e.subrange(i + sym.len(), e.len() as int)));
                match lhs_result(lhs) {
                    Err(m) => Err(m),
                    Ok((kind, field)) => if rhs.len() == 0 {
                        Err("empty right-hand value in rule condition"@)
                    } else {
                        Ok((kind, ConditionShape::Compare(field, op, rhs)))
                    },
                }
            },
            None => Err(Seq::empty()),
        },
    }
}

/// The trigger kind and condition shape of a `when` expression, or the
/// error: ` AND ` binds loosest, then ` OR `, then a leading `NOT `; each
/// side of a combinator is parsed on its own and the left side names the
/// trigger.
pub open spec fn when_result(s: Seq<char>) -> Result<(Seq<char>, ConditionShape), Seq<char>>
    decreases s.len(),
{
    let t = trimmed(s);
    proof {
        reveal_strlit(" AND ");
        reveal_strlit(" OR ");
        reveal_strlit("NOT ");
        lemma_trimmed_len(s);
        lemma_split_shorter(t, " AND "@);
        lemma_split_shorter(t, " OR "@);
    }
    if t.len() == 0 {
        Err("empty 'when' expression"@)
    } else {
        match split_on(t, " AND "@) {
            Some((l, r)) => match when_result(l) {
                Err(e) => Err(e),
                Ok((k, c1)) => match when_result(r) {
                    Err(e) => Err(e),
                    Ok((_, c2)) => Ok((k, ConditionShape::Both(Box::new(c1), Box::new(c2)))),
                },
            },
            None => match split_on(t, " OR "@) {
                Some((l, r)) => match when_result(l) {
                    Err(e) => Err(e),
                    Ok((k, c1)) => match when_result(r) {
                        Err(e) => Err(e),
                        Ok((_, c2)) => Ok((k, ConditionShape::Either(Box::new(c1), Box::new(c2)))),
                    },
                },
                None => if has_prefix(t, "NOT "@) {
                    match when_result(t.subrange(4, t.len() as int)) {
                        Err(e) => Err(e),
                        Ok((k, c)) => Ok((k, ConditionShape::Negated(Box::new(c)))),
                    }
                } else {
                    comparison_result(t)
                },
            },
        }
    }
}

/// `c` has the given shape.
pub open spec fn fits<F: FloatArith>(arith: &F, c: Condition, shape: ConditionShape) -> bool
    decreases shape,
{
    match shape {
        ConditionShape::Both(a, b) => match c {
            Condition::All(cs) => cs@.len() == 2 && fits(arith, cs@[0], *a) && fits(arith, cs@[1], *b),
            _ => false,
        },
        ConditionShape::Either(a, b) => match c {
            Condition::Any(cs) => cs@.len() == 2 && fits(arith, cs@[0], *a) && fits(arith, cs@[1], *b),
            _ => false,
        },
        ConditionShape::Negated(a) => match c {
            Condition::Not(x) => fits(arith, *x, *a),
            _ => false,
        },
        ConditionShape::Compare(f, o, rhs) => match c {
            Condition::Comparison { field, op, value } => field == f && op == o && literal_read(arith, rhs, value),
            _ => false,
        },
    }
}

/// `t` is the event trigger on kind `k`.
pub open spec fn event_trigger(t: Trigger, k: Seq<char>) -> bool {
    match t {
        Trigger::Event { kind } => kind@ == k,
        _ => false,
    }
}

/// The parse result agrees with the spec: the same trigger and shape, or
/// the same error message.
pub open spec fn parse_agrees<F: FloatArith>(arith: &F, r: Result<(Trigger, Condition), String>, spec: Result<(Seq<char>, ConditionShape), Seq<char>>) -> bool {
    match (r, spec) {
        (Ok((t, c)), Ok((k, shape))) => event_trigger(t, k) && fits(arith, c, shape),
        (Err(m), Err(e)) => m@ == e,
        _ => false,
    }
}

/// Splits `s` at the first occurrence of `op` into its trimmed sides,
/// when both are non-empty.
pub fn split_top_level_combinator(s: &str, op: &str) -> (r: Option<(String, String)>)
    ensures
        match (r, split_on(s@, op@)) {
            (Some((a, b)), Some((x, y))) => a@ == x && b@ == y,
            (None, None) => true,
            _ => false,
        },
{
    let chars = chars_of(s);
    let pat = chars_of(op);
    match chars_find(&chars, &pat) {
        Some(idx) => {
            proof {
                lemma_occurrence_found(s@, op@, 0);
            }
            let left_raw = string_from_range(&chars, 0, idx);
            let right_raw = string_from_range(&chars, idx + pat.len(), chars.len());
            let left = str_trim(left_raw.as_str());
            let right = str_trim(right_raw.as_str());
            let lc = chars_of(left.as_str());
            let rc = chars_of(right.as_str());
            if lc.len() > 0 && rc.len() > 0 {
                Some((left, right))
            } else {
                None
            }
        },
        None => None,
    }
}

/// Reads the left-hand side of a comparison: `count(kind)`, `mean(kind)`,
/// `min(kind)`, `max(kind)`, `sum(kind)`, `last(kind)`, or a plain kind.
pub fn parse_lhs(lhs: &str) -> (r: Result<(Trigger, Field), String>)
    ensures
        match (r, lhs_result(lhs@)) {
            (Ok((t, f)), Ok((k, g))) => event_trigger(t, k) && f == g,
            (Err(m), Err(e)) => m@ == e,
            _ => false,
        },
{
    let chars = chars_of(lhs);
    if chars.len() == 0 {
        return Err(owned("empty left-hand side in rule condition"));
    }
    let call = stat_prefix(&chars);
    match call {
        Some((plen, stat)) => {
            let inner_raw = string_from_range(&chars, plen, chars.len() - 1);
            let inner = str_trim(inner_raw.as_str());
            let ic = chars_of(inner.as_str());
            if ic.len() == 0 {
                let q = debug_string(lhs);
                return Err(concat2("empty aggregation target in ", q.as_str()));
            }
            Ok((Trigger::Event { kind: inner }, Field::Aggregation { stat }))
        },
        None => Ok((Trigger::Event { kind: owned(lhs) }, Field::EventValue)),
    }
}

/// A call prefix (ending with `(`) of a text that ends with `)` is
/// strictly shorter than the text.
proof fn lemma_call_shorter(s: Seq<char>, p: Seq<char>)
    requires
        p.len() > 0,
        p.last() == '(',
        has_prefix(s, p),
        has_suffix(s, ")"@),
    ensures
        p.len() < s.len(),
{
    reveal_strlit(")");
    assert(s.subrange(0, p.len() as int)[p.len() - 1] == s[p.len() - 1]);
    if s.len() == p.len() {
        assert(s.subrange(s.len() - 1, s.len() as int)[0] == s[s.len() - 1]);
    }
}

/// The length of the aggregation call prefix of a left-hand side, and
/// its statistic.
fn stat_prefix(chars: &Vec<char>) -> (r: Option<(usize, Stat)>)
    ensures
        match (r, stat_call(chars@)) {
            (Some((n, st)), Some((p, st2))) => n == p.len() && st == st2 && n < chars@.len(),
            (None, None) => true,
            _ => false,
        },
{
    let close = chars_of(")");
    let p_count = chars_of("count(");
    let p_mean = chars_of("mean(");
    let p_min = chars_of("min(");
    let p_max = chars_of("max(");
    let p_sum = chars_of("sum(");
    let p_last = chars_of("last(");
    proof {
        reveal_strlit(")");
        reveal_strlit("count(");
        reveal_strlit("mean(");
        reveal_strlit("min(");
        reveal_strlit("max(");
        reveal_strlit("sum(");
        reveal_strlit("last(");
    }
    if !chars_have_suffix(chars, &close) {
        None
    } else if chars_have_prefix(chars, &p_count) {
        proof {
            lemma_call_shorter(chars@, p_count@);
        }
        Some((p_count.len(), Stat::Count))
    } else if chars_have_prefix(chars, &p_mean) {
        proof {
            lemma_call_shorter(chars@, p_mean@);
        }
        Some((p_mean.len(), Stat::Mean))
    } else if chars_have_prefix(chars, &p_min) {
        proof {
            lemma_call_shorter(chars@, p_min@);
        }
        Some((p_min.len(), Stat::Min))
    } else if chars_have_prefix(chars, &p_max) {
        proof {
            lemma_call_shorter(chars@, p_max@);
        }
        Some((p_max.len(), Stat::Max))
    } else if chars_have_prefix(chars, &p_sum) {
        proof {
            lemma_call_shorter(chars@, p_sum@);
        }
        Some((p_sum.len(), Stat::Sum))
    } else if chars_have_prefix(chars, &p_last) {
        proof {
            lemma_call_shorter(chars@, p_last@);
        }
        Some((p_last.len(), Stat::Last))
    } else {
        None
    }
}

fn ascii_lower_exec(c: char) -> (r: char)
    ensures
        r == ascii_lower(c),
{
    if 'A' <= c && c <= 'Z' {
        ((c as u8) + 32) as char
    } else {
        c
    }
}

fn eq_ignore_case_exec(s: &Vec<char>, t: &Vec<char>) -> (r: bool)
    ensures
        r == eq_ignore_ascii_case(s@, t@),
{
    if s.len() != t.len() {
        return false;
    }
    let mut i: usize = 0;
    while i < s.len()
        invariant
            s.len() == t.len(),
            i <= s.len(),
            forall|j: int| 0 <= j < i ==> ascii_lower(#[trigger] s@[j]) == ascii_lower(t@[j]),
        decreases s.len() - i,
    {
        if ascii_lower_exec(s[i]) != ascii_lower_exec(t[i]) {
            return false;
        }
        i += 1;
    }
    true
}

/// The literal a right-hand text denotes, given what reading it as a
/// binary64 number gave.
pub fn literal_from(s: &str, number: Option<u64>) -> (r: Literal)
    ensures
        r@ == literal_of(s@, number),
{
    let chars = chars_of(s);
    let n = chars.len();
    if n >= 2 && ((chars[0] == '\'' && chars[n - 1] == '\'') || (chars[0] == '"' && chars[n - 1] == '"')) {
        return Literal::Text(string_from_range(&chars, 1, n - 1));
    }
    let t = chars_of("true");
    let f = chars_of("false");
    proof {
        reveal_strlit("true");
        reveal_strlit("false");
    }
    if eq_ignore_case_exec(&chars, &t) {
        return Literal::Boolean(true);
    }
    if eq_ignore_case_exec(&chars, &f) {
        return Literal::Boolean(false);
    }
    match number {
        Some(bits) => Literal::Numeric(bits),
        None => Literal::Text(owned(s)),
    }
}

/// Reads the right-hand side of a comparison: quoted text, a boolean, a
/// number (read by `arith`), or else the text itself.
pub fn parse_rhs<F: FloatArith>(rhs: &str, arith: &F) -> (r: Result<Literal, String>)
    ensures
        match r {
            Ok(lit) => trimmed(rhs@).len() > 0 && literal_read(arith, trimmed(rhs@), lit),
            Err(m) => trimmed(rhs@).len() == 0 && m@ == "empty right-hand value in rule condition"@,
        },
{
    let s = str_trim(rhs);
    let chars = chars_of(s.as_str());
    if chars.len() == 0 {
        return Err(owned("empty right-hand value in rule condition"));
    }
    let number = arith.parse_decimal(s.as_str());
    let lit = literal_from(s.as_str(), number);
    assert(lit@ == literal_of(trimmed(rhs@), number));
    Ok(lit)
}

/// Parses a single comparison such as `count(http.error) > 10`,
/// `temperature > 80` or `door == 'open'`.
pub fn parse_single_comparison<F: FloatArith>(expr: &str, arith: &F) -> (r: Result<(Trigger, Condition), String>)
    ensures
        parse_agrees(arith, r, comparison_result(expr@)),
{
    let chars = chars_of(expr);
    let o1 = chars_of(">=");
    let o2 = chars_of("<=");
    let o3 = chars_of("==");
    let o4 = chars_of("!=");
    let o5 = chars_of("=");
    let o6 = chars_of(">");
    let o7 = chars_of("<");
    let found: Option<(Vec<char>, Operator)> = if chars_find(&chars, &o1).is_some() {
        Some((o1, Operator::Gte))
    } else if chars_find(&chars, &o2).is_some() {
        Some((o2, Operator::Lte))
    } else if chars_find(&chars, &o3).is_some() {
        Some((o3, Operator::Eq))
    } else if chars_find(&chars, &o4).is_some() {
        Some((o4, Operator::Ne))
    } else if chars_find(&chars, &o5).is_some() {
        Some((o5, Operator::Eq))
    } else if chars_find(&chars, &o6).is_some() {
        Some((o6, Operator::Gt))
    } else if chars_find(&chars, &o7).is_some() {
        Some((o7, Operator::Lt))
    } else {
        None
    };
    let (sym, op) = match found {
        Some(f) => f,
        None => {
            let q = debug_string(expr);
            return Err(concat3(
                "Invalid rule syntax at: ",
                q.as_str(),
                "\nExpected comparison operator (>, >=, <, <=, ==, !=)",
            ));
        },
    };
    let idx = match chars_find(&chars, &sym) {
        Some(i) => i,
        None => {
            return Err(owned(""));
        },
    };
    proof {
        lemma_occurrence_found(expr@, sym@, 0);
    }
    let lhs_raw = string_from_range(&chars, 0, idx);
    let rhs_raw = string_from_range(&chars, idx + sym.len(), chars.len());
    let lhs = str_trim(lhs_raw.as_str());
    let rhs = str_trim(rhs_raw.as_str());
    let (trigger, field) = match parse_lhs(lhs.as_str()) {
        Ok(p) => p,
        Err(e) => {
            return Err(e);
        },
    };
    let literal = match parse_rhs(rhs.as_str(), arith) {
        Ok(l) => l,
        Err(e) => {
            return Err(e);
        },
    };
    Ok((trigger, Condition::Comparison { field, op, value: literal }))
}

/// Parses a `when` expression into its trigger and condition.
pub fn parse_when_expression<F: FloatArith>(expression: &str, arith: &F) -> (r: Result<(Trigger, Condition), String>)
    ensures
        parse_agrees(arith, r, when_result(expression@)),
    decreases expression@.len(),
{
    let t = str_trim(expression);
    let tc = chars_of(t.as_str());
    proof {
        lemma_trimmed_len(expression@);
        reveal_strlit(" AND ");
        reveal_strlit(" OR ");
        reveal_strlit("NOT ");
        lemma_split_shorter(t@, " AND "@);
        lemma_split_shorter(t@, " OR "@);
    }
    if tc.len() == 0 {
        return Err(owned("empty 'when' expression"));
    }
    match split_top_level_combinator(t.as_str(), " AND ") {
        Some((left, right)) => {
            let (t1, c1) = match parse_when_expression(left.as_str(), arith) {
                Ok(p) => p,
                Err(e) => {
                    return Err(e);
                },
            };
            let (_, c2) = match parse_when_expression(right.as_str(), arith) {
                Ok(p) => p,
                Err(e) => {
                    return Err(e);
                },
            };
            let children = vec![c1, c2];
            return Ok((t1, Condition::All(children)));
        },
        None => {},
    }
    match split_top_level_combinator(t.as_str(), " OR ") {
        Some((left, right)) => {
            let (t1, c1) = match parse_when_expression(left.as_str(), arith) {
                Ok(p) => p,
                Err(e) => {
                    return Err(e);
                },
            };
            let (_, c2) = match parse_when_expression(right.as_str(), arith) {
                Ok(p) => p,
                Err(e) => {
                    return Err(e);
                },
            };
            let children = vec![c1, c2];
            return Ok((t1, Condition::Any(children)));
        },
        None => {},
    }
    let not = chars_of("NOT ");
    if chars_have_prefix(&tc, &not) {
        let rest = string_from_range(&tc, 4, tc.len());
        let (t1, c) = match parse_when_expression(rest.as_str(), arith) {
            Ok(p) => p,
            Err(e) => {
                return Err(e);
            },
        };
        return Ok((t1, Condition::Not(Box::new(c))));
    }
    parse_single_comparison(t.as_str(), arith)
}

impl DslRuleConfig {
    /// Compiles the DSL configuration into a rule: the id is `id`, else
    /// `name`; the action defaults to `"{id}-action"`; `within` becomes a
    /// once-per-window suppression.
    pub fn compile<F: FloatArith>(self, arith: &F) -> (r: Result<Rule, String>)
        ensures
            match r {
                Ok(rule) => {
                    &&& rule.id == (match self.id {
                        Some(id) => id,
                        None => self.name->0,
                    })
                    &&& (self.id is Some || self.name is Some)
                    &&& rule.description == self.description
                    &&& rule.action@ == (match self.action {
                        Some(a) => a@,
                        None => rule.id@ + "-action"@,
                    })
                    &&& parse_agrees(arith, Ok((rule.on, rule.condition)), when_result(self.when@))
                    &&& match self.within {
                        None => rule.suppression is None,
                        Some(w) => match duration_result(w@) {
                            Ok(ms) => rule.suppression == Some(OncePerWindow { window_ms: ms }),
                            Err(_) => false,
                        },
                    }
                },
                Err(m) => if self.id is None && self.name is None {
                    m@ == "DSL rule must specify 'id' or 'name'"@
                } else {
                    match when_result(self.when@) {
                        Err(e) => m@ == e,
                        Ok(_) => match self.within {
                            Some(w) => duration_result(w@) == Err::<i64, Seq<char>>(m@),
                            None => false,
                        },
                    }
                },
            },
    {
        let rule_id = match self.id {
            Some(id) => id,
            None => match self.name {
                Some(name) => name,
                None => {
                    return Err(owned("DSL rule must specify 'id' or 'name'"));
                },
            },
        };
        let action_id = match self.action {
            Some(a) => a,
            None => concat2(rule_id.as_str(), "-action"),
        };
        let parsed = parse_when_expression(self.when.as_str(), arith);
        let (trigger, condition) = match parsed {
            Ok(p) => p,
            Err(e) => {
                return Err(e);
            },
        };
        let suppression = match self.within {
            Some(w) => match parse_duration_ms(w.as_str()) {
                Ok(ms) => Some(OncePerWindow { window_ms: ms }),
                Err(e) => {
                    return Err(e);
                },
            },
            None => None,
        };
        Ok(Rule { id: rule_id, description: self.description, on: trigger, condition, action: action_id, suppression })
    }
}

/// Law (OR is a disjunction): a `when` expression with no top-level
/// ` AND ` that splits at a top-level ` OR ` compiles to an `Any` of two
/// conditions, the left side's (which names the trigger) and the right
/// side's, and it holds on an input exactly when one of them holds.
pub proof fn law_or_is_disjunction<F: FloatArith>(arith: &F, e: Seq<char>, t: Trigger, c: Condition)
    requires
        parse_agrees(arith, Ok((t, c)), when_result(e)),
        split_on(trimmed(e), " AND "@) is None,
        split_on(trimmed(e), " OR "@) is Some,
    ensures
        c matches Condition::Any(cs) && cs@.len() == 2 && {
            let (l, r) = split_on(trimmed(e), " OR "@)->0;
            &&& parse_agrees(arith, Ok((t, cs@[0])), when_result(l))
            &&& when_result(r) matches Ok((_, shape)) && fits(arith, cs@[1], shape)
            &&& forall|i: EvalInput, count_bits: u64|
                #[trigger] holds(c, i, count_bits) == (holds(cs@[0], i, count_bits) || holds(cs@[1], i, count_bits))
        },
{
    lemma_trimmed_len(e);
    assert(trimmed(e).len() > 0) by {
        reveal_strlit(" OR ");
        lemma_split_shorter(trimmed(e), " OR "@);
    }
    let cs = c->Any_0;
    assert forall|i: EvalInput, count_bits: u64|
        #[trigger] holds(c, i, count_bits) == (holds(cs@[0], i, count_bits) || holds(cs@[1], i, count_bits)) by {
        lemma_lists(cs@, i, count_bits);
        if holds(c, i, count_bits) {
            let j = choose|j: int| 0 <= j < cs@.len() && #[trigger] holds(cs@[j], i, count_bits);
            assert(j == 0 || j == 1);
        }
    }
}

/// Law (AND is a conjunction): a `when` expression that splits at a
/// top-level ` AND ` compiles to an `All` of the left and right sides'
/// conditions, and it holds on an input exactly when both hold.
pub proof fn law_and_is_conjunction<F: FloatArith>(arith: &F, e: Seq<char>, t: Trigger, c: Condition)
    requires
        parse_agrees(arith, Ok((t, c)), when_result(e)),
        split_on(trimmed(e), " AND "@) is Some,
    ensures
        c matches Condition::All(cs) && cs@.len() == 2 && {
            let (l, r) = split_on(trimmed(e), " AND "@)->0;
            &&& parse_agrees(arith, Ok((t, cs@[0])), when_result(l))
            &&& when_result(r) matches Ok((_, shape)) && fits(arith, cs@[1], shape)
            &&& forall|i: EvalInput, count_bits: u64|
                #[trigger] holds(c, i, count_bits) == (holds(cs@[0], i, count_bits) && holds(cs@[1], i, count_bits))
        },
{
    lemma_trimmed_len(e);
    assert(trimmed(e).len() > 0) by {
        reveal_strlit(" AND ");
        lemma_split_shorter(trimmed(e), " AND "@);
    }
    let cs = c->All_0;
    assert forall|i: EvalInput, count_bits: u64|
        #[trigger] holds(c, i, count_bits) == (holds(cs@[0], i, count_bits) && holds(cs@[1], i, count_bits)) by {
        lemma_lists(cs@, i, count_bits);
        if holds(cs@[0], i, count_bits) && holds(cs@[1], i, count_bits) {
            assert forall|j: int| 0 <= j < cs@.len() implies #[trigger] holds(cs@[j], i, count_bits) by {
                assert(j == 0 || j == 1);
            }
        }
    }
}

/// Law (aggregation names): a left-hand side `count(k)`, `mean(k)`,
/// `min(k)`, `max(k)`, `sum(k)` or `last(k)` reads that statistic of the
/// summaries of kind `k` (trimmed).
pub proof fn law_aggregation_names(k: Seq<char>)
    requires
        trimmed(k).len() > 0,
    ensures
        lhs_result("count("@ + k + ")"@) == Ok::<(Seq<char>, Field), Seq<char>>((trimmed(k), Field::Aggregation { stat: Stat::Count })),
        lhs_result("mean("@ + k + ")"@) == Ok::<(Seq<char>, Field), Seq<char>>((trimmed(k), Field::Aggregation { stat: Stat::Mean })),
        lhs_result("min("@ + k + ")"@) == Ok::<(Seq<char>, Field), Seq<char>>((trimmed(k), Field::Aggregation { stat: Stat::Min })),
        lhs_result("max("@ + k + ")"@) == Ok::<(Seq<char>, Field), Seq<char>>((trimmed(k), Field::Aggregation { stat: Stat::Max })),
        lhs_result("sum("@ + k + ")"@) == Ok::<(Seq<char>, Field), Seq<char>>((trimmed(k), Field::Aggregation { stat: Stat::Sum })),
        lhs_result("last("@ + k + ")"@) == Ok::<(Seq<char>, Field), Seq<char>>((trimmed(k), Field::Aggregation { stat: Stat::Last })),
{
    reveal_strlit("count(");
    reveal_strlit("mean(");
    reveal_strlit("min(");
    reveal_strlit("max(");
    reveal_strlit("sum(");
    reveal_strlit("last(");
    reveal_strlit(")");
    let count = "count("@ + k + ")"@;
    let mean = "mean("@ + k + ")"@;
    let min = "min("@ + k + ")"@;
    let max = "max("@ + k + ")"@;
    let sum = "sum("@ + k + ")"@;
    let last = "last("@ + k + ")"@;
    lemma_call_shape("count("@, k);
    lemma_call_shape("mean("@, k);
    lemma_call_shape("min("@, k);
    lemma_call_shape("max("@, k);
    lemma_call_shape("sum("@, k);
    lemma_call_shape("last("@, k);
    lemma_not_prefix(mean, "count("@, 0);
    lemma_not_prefix(min, "count("@, 0);
    lemma_not_prefix(min, "mean("@, 1);
    lemma_not_prefix(max, "count("@, 0);
    lemma_not_prefix(max, "mean("@, 1);
    lemma_not_prefix(max, "min("@, 1);
    lemma_not_prefix(sum, "count("@, 0);
    lemma_not_prefix(sum, "mean("@, 0);
    lemma_not_prefix(sum, "min("@, 0);
    lemma_not_prefix(sum, "max("@, 0);
    lemma_not_prefix(last, "count("@, 0);
    lemma_not_prefix(last, "mean("@, 0);
    lemma_not_prefix(last, "min("@, 0);
    lemma_not_prefix(last, "max("@, 0);
    lemma_not_prefix(last, "sum("@, 0);
}

/// A text whose `i`-th character differs from that of `q` does not start
/// with `q`.
proof fn lemma_not_prefix(s: Seq<char>, q: Seq<char>, i: int)
    requires
        0 <= i < q.len(),
        i < s.len(),
        s[i] != q[i],
    ensures
        !has_prefix(s, q),
{
    if has_prefix(s, q) {
        assert(s.subrange(0, q.len() as int)[i] == s[i]);
    }
}

/// The call `p k )`: its prefix, suffix and inner text.
proof fn lemma_call_shape(p: Seq<char>, k: Seq<char>)
    ensures
        has_suffix(p + k + ")"@, ")"@),
        has_prefix(p + k + ")"@, p),
        forall|q: Seq<char>| q.len() <= p.len() && p.subrange(0, q.len() as int) == q ==> has_prefix(p + k + ")"@, q),
        forall|q: Seq<char>| #![trigger has_prefix(p + k + ")"@, q)]
            q.len() <= p.len() && has_prefix(p + k + ")"@, q) ==> p.subrange(0, q.len() as int) == q,
        (p + k + ")"@).subrange(p.len() as int, (p + k + ")"@).len() - 1) == k,
{
    reveal_strlit(")");
    let s = p + k + ")"@;
    assert(s.subrange(s.len() - 1, s.len() as int) =~= ")"@);
    assert(s.subrange(p.len() as int, s.len() - 1) =~= k);
    assert(s.subrange(0, p.len() as int) =~= p);
    assert forall|q: Seq<char>| q.len() <= p.len() && p.subrange(0, q.len() as int) == q implies has_prefix(s, q) by {
        assert(s.subrange(0, q.len() as int) =~= p.subrange(0, q.len() as int));
    }
    assert forall|q: Seq<char>| q.len() <= p.len() && has_prefix(s, q) implies p.subrange(0, q.len() as int) == q by {
        assert(s.subrange(0, q.len() as int) =~= p.subrange(0, q.len() as int));
    }
}

} // verus!
