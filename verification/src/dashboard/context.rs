//! Dispatch of the `/api/context-*` endpoints, and the checks that the
//! overlay and policy endpoints make before they load a store.

use vstd::prelude::*;
use crate::text::{chars_of, owned, push_chars, str_eq, string_from_chars};
use crate::sanitizer::{is_blank, trim, trimmed};

verus! {

/// ASCII case folding of one character, as a code point: `A`..`Z` map to
/// `a`..`z`, every other character to itself.
pub open spec fn ascii_fold(c: char) -> int {
    let u = c as u32;
    if 65 <= u && u <= 90 {
        u + 32
    } else {
        u as int
    }
}

/// Whether two strings are equal up to ASCII case (`str::eq_ignore_ascii_case`).
pub open spec fn eq_ignore_ascii_case(a: Seq<char>, b: Seq<char>) -> bool {
    &&& a.len() == b.len()
    &&& forall|i: int| 0 <= i < a.len() ==> ascii_fold(#[trigger] a[i]) == ascii_fold(b[i])
}

fn fold(c: char) -> (r: u32)
    ensures
        r == ascii_fold(c),
{
    let u = c as u32;
    if 65 <= u && u <= 90 {
        u + 32
    } else {
        u
    }
}

/// Compares two strings up to ASCII case.
pub fn same_ignoring_ascii_case(a: &str, b: &str) -> (r: bool)
    ensures
        r == eq_ignore_ascii_case(a@, b@),
{
    let x = chars_of(a);
    let y = chars_of(b);
    if x.len() != y.len() {
        return false;
    }
    let mut i: usize = 0;
    while i < x.len()
        invariant
            x@ == a@,
            y@ == b@,
            x.len() == y.len(),
            i <= x.len(),
            forall|k: int| 0 <= k < i ==> ascii_fold(#[trigger] x@[k]) == ascii_fold(y@[k]),
        decreases x.len() - i,
    {
        if fold(x[i]) != fold(y[i]) {
            assert(ascii_fold(a@[i as int]) != ascii_fold(b@[i as int]));
            return false;
        }
        i = i + 1;
    }
    true
}

/// The read-only context endpoints.
#[derive(Debug, Clone, Copy, PartialEq, Eq, Structural)]
pub enum ContextEndpoint {
    Ledger,
    Control,
    Field,
    Handles,
    OverlayHistory,
    Plan,
    Bounce,
    Client,
    Pressure,
    DynamicTools,
    Introspect,
    Radar,
}

/// Where a request for a context endpoint goes.
#[derive(Debug, Clone, Copy, PartialEq, Eq, Structural)]
pub enum ContextRoute {
    /// `POST /api/context-overlay`.
    Overlay,
    /// `POST /api/context-policy`.
    Policy,
    /// One of the read-only endpoints, whatever the method.
    Read(ContextEndpoint),
}

/// The read-only endpoint served at `path`.
pub open spec fn endpoint_at(path: Seq<char>) -> Option<ContextEndpoint> {
    if path == "/api/context-ledger"@ {
        Some(ContextEndpoint::Ledger)
    } else if path == "/api/context-control"@ {
        Some(ContextEndpoint::Control)
    } else if path == "/api/context-field"@ {
        Some(ContextEndpoint::Field)
    } else if path == "/api/context-handles"@ {
        Some(ContextEndpoint::Handles)
    } else if path == "/api/context-overlay-history"@ {
        Some(ContextEndpoint::OverlayHistory)
    } else if path == "/api/context-plan"@ {
        Some(ContextEndpoint::Plan)
    } else if path == "/api/context-bounce"@ {
        Some(ContextEndpoint::Bounce)
    } else if path == "/api/context-client"@ {
        Some(ContextEndpoint::Client)
    } else if path == "/api/context-pressure"@ {
        Some(ContextEndpoint::Pressure)
    } else if path == "/api/context-dynamic-tools"@ {
        Some(ContextEndpoint::DynamicTools)
    } else if path == "/api/context-introspect"@ {
        Some(ContextEndpoint::Introspect)
    } else if path == "/api/context-radar"@ {
        Some(ContextEndpoint::Radar)
    } else {
        None
    }
}

/// The route of a request: the two `POST` endpoints (the method compared up
/// to ASCII case), else the read-only endpoint at `path`, if any.
pub open spec fn route_of(path: Seq<char>, method: Seq<char>) -> Option<ContextRoute> {
    if path == "/api/context-overlay"@ && eq_ignore_ascii_case(method, "POST"@) {
        Some(ContextRoute::Overlay)
    } else if path == "/api/context-policy"@ && eq_ignore_ascii_case(method, "POST"@) {
        Some(ContextRoute::Policy)
    } else {
        match endpoint_at(path) {
            Some(e) => Some(ContextRoute::Read(e)),
            None => None,
        }
    }
}

/// The read-only endpoint served at `path`, if any.
pub fn get_routes(path: &str) -> (r: Option<ContextEndpoint>)
    ensures
        r == endpoint_at(path@),
{
    if str_eq(path, "/api/context-ledger") {
        Some(ContextEndpoint::Ledger)
    } else if str_eq(path, "/api/context-control") {
        Some(ContextEndpoint::Control)
    } else if str_eq(path, "/api/context-field") {
        Some(ContextEndpoint::Field)
    } else if str_eq(path, "/api/context-handles") {
        Some(ContextEndpoint::Handles)
    } else if str_eq(path, "/api/context-overlay-history") {
        Some(ContextEndpoint::OverlayHistory)
    } else if str_eq(path, "/api/context-plan") {
        Some(ContextEndpoint::Plan)
    } else if str_eq(path, "/api/context-bounce") {
        Some(ContextEndpoint::Bounce)
    } else if str_eq(path, "/api/context-client") {
        Some(ContextEndpoint::Client)
    } else if str_eq(path, "/api/context-pressure") {
        Some(ContextEndpoint::Pressure)
    } else if str_eq(path, "/api/context-dynamic-tools") {
        Some(ContextEndpoint::DynamicTools)
    } else if str_eq(path, "/api/context-introspect") {
        Some(ContextEndpoint::Introspect)
    } else if str_eq(path, "/api/context-radar") {
        Some(ContextEndpoint::Radar)
    } else {
        None
    }
}

/// Routes a dashboard request for the context endpoints; `None` when the
/// path is none of them.
pub fn handle(path: &str, method: &str) -> (r: Option<ContextRoute>)
    ensures
        r == route_of(path@, method@),
{
    let post = same_ignoring_ascii_case(method, "POST");
    if post && str_eq(path, "/api/context-overlay") {
        Some(ContextRoute::Overlay)
    } else if post && str_eq(path, "/api/context-policy") {
        Some(ContextRoute::Policy)
    } else {
        match get_routes(path) {
            Some(e) => Some(ContextRoute::Read(e)),
            None => None,
        }
    }
}

/// Whether `c` is an ASCII decimal digit.
pub open spec fn is_digit(c: char) -> bool {
    48 <= (c as u32) && (c as u32) <= 57
}

/// The value of the decimal digits `s` (most significant first).
pub open spec fn decimal_value(s: Seq<char>) -> int
    decreases s.len(),
{
    if s.len() == 0 {
        0
    } else {
        10 * decimal_value(s.drop_last()) + ((s.last() as u32) - 48)
    }
}

/// The digits of an unsigned decimal: the text after one optional leading `+`.
pub open spec fn unsigned_digits(s: Seq<char>) -> Seq<char> {
    if s.len() > 0 && s[0] == '+' {
        s.drop_first()
    } else {
        s
    }
}

/// What `str::parse::<u64>` gives: the value of a non-empty run of decimal
/// digits after an optional `+`, when it fits in a `u64`.
pub open spec fn parsed_u64(s: Seq<char>) -> Option<u64> {
    let d = unsigned_digits(s);
    if d.len() > 0 && (forall|i: int| 0 <= i < d.len() ==> is_digit(#[trigger] d[i]))
        && decimal_value(d) <= u64::MAX {
        Some(decimal_value(d) as u64)
    } else {
        None
    }
}

/// A prefix of a run of digits is worth no more than the whole run.
proof fn lemma_decimal_prefix(d: Seq<char>, k: int)
    requires
        0 <= k <= d.len(),
        forall|i: int| 0 <= i < d.len() ==> is_digit(#[trigger] d[i]),
    ensures
        0 <= decimal_value(d.take(k)) <= decimal_value(d),
    decreases d.len(),
{
    if k == d.len() {
        assert(d.take(k) =~= d);
        if d.len() > 0 {
            lemma_decimal_prefix(d.drop_last(), k - 1);
        }
    } else {
        let p = d.drop_last();
        assert forall|i: int| 0 <= i < p.len() implies is_digit(#[trigger] p[i]) by {
            assert(p[i] == d[i]);
        }
        lemma_decimal_prefix(p, k);
        assert(p.take(k) =~= d.take(k));
        lemma_decimal_prefix(p, p.len() as int);
        assert(p.take(p.len() as int) =~= p);
        assert(is_digit(d[d.len() - 1]));
    }
}

/// Parses an unsigned decimal as `str::parse::<u64>` does.
pub fn parse_u64(s: &str) -> (r: Option<u64>)
    ensures
        r == parsed_u64(s@),
{
    let cs = chars_of(s);
    let mut start: usize = 0;
    if cs.len() > 0 && cs[0] == '+' {
        start = 1;
    }
    let ghost d = unsigned_digits(s@);
    assert(d =~= cs@.skip(start as int));
    if start == cs.len() {
        return None;
    }
    let mut v: u64 = 0;
    let mut i: usize = start;
    while i < cs.len()
        invariant
            cs@ == s@,
            d == cs@.skip(start as int),
            d == unsigned_digits(s@),
            start <= i <= cs.len(),
            forall|k: int| 0 <= k < i - start ==> is_digit(#[trigger] d[k]),
            v == decimal_value(d.take(i - start)),
        decreases cs.len() - i,
    {
        let u = cs[i] as u32;
        let ghost j: int = i - start;
        assert(d[j] == cs@[i as int]);
        if u < 48 || u > 57 {
            assert(!is_digit(d[j]));
            return None;
        }
        assert(d.take(j + 1).drop_last() =~= d.take(j));
        assert(d.take(j + 1).last() == d[j]);
        let digit = (u - 48) as u64;
        assert(decimal_value(d.take(j + 1)) == 10 * v + digit);
        match v.checked_mul(10) {
            None => {
                proof {
                    if forall|k: int| 0 <= k < d.len() ==> is_digit(#[trigger] d[k]) {
                        lemma_decimal_prefix(d, j + 1);
                    }
                }
                return None;
            },
            Some(m) => match m.checked_add(digit) {
                None => {
                    proof {
                        if forall|k: int| 0 <= k < d.len() ==> is_digit(#[trigger] d[k]) {
                            lemma_decimal_prefix(d, j + 1);
                        }
                    }
                    return None;
                },
                Some(w) => {
                    v = w;
                },
            },
        }
        i = i + 1;
    }
    assert(d.take(d.len() as int) =~= d);
    Some(v)
}

/// The `value` of an overlay request, by the JSON kind that the handler
/// tells apart.
#[derive(Debug, Clone, PartialEq, Eq)]
pub enum OverlayValue {
    /// A JSON string.
    Text(String),
    /// A JSON number, held as its JSON text.
    Number(String),
    /// A JSON boolean.
    Flag(bool),
    /// `null`, an array or an object, held as its JSON text.
    Other(String),
}

/// The text that an overlay value is handed on as: a string as it is, a
/// number or any other value as its JSON text, `true` as `verbatim`.
pub open spec fn value_text(v: OverlayValue) -> Seq<char> {
    match v {
        OverlayValue::Text(s) => s@,
        OverlayValue::Number(n) => n@,
        OverlayValue::Flag(b) => if b {
            "verbatim"@
        } else {
            "false"@
        },
        OverlayValue::Other(t) => t@,
    }
}

/// Seconds after which an `expire` overlay lapses: a number or a string that
/// reads as a `u64`, else 0.
pub open spec fn expire_after(v: Option<OverlayValue>) -> u64 {
    match v {
        Some(OverlayValue::Number(n)) => match parsed_u64(n@) {
            Some(x) => x,
            None => 0,
        },
        Some(OverlayValue::Text(s)) => match parsed_u64(s@) {
            Some(x) => x,
            None => 0,
        },
        _ => 0,
    }
}

/// The control action that an overlay action stands for: `priority` is
/// spelled `set_priority` there.
pub open spec fn control_action(action: Seq<char>) -> Seq<char> {
    if action == "priority"@ {
        "set_priority"@
    } else {
        action
    }
}

/// What an accepted overlay request does.
#[derive(Debug, Clone, PartialEq, Eq)]
pub enum OverlayPlan {
    /// Add an overlay to the project store that lets `target` lapse.
    Expire { target: String, after_secs: u64 },
    /// Run the context-control `action` on `target` with project scope.
    Control { action: String, target: String, value: Option<String> },
}

/// Why an overlay request is refused.
#[derive(Debug, Clone, Copy, PartialEq, Eq, Structural)]
pub enum OverlayError {
    /// The path is empty once trimmed and normalized.
    PathRequired,
}

impl OverlayError {
    /// The message sent back with the `400 Bad Request`.
    pub fn message(&self) -> (r: String)
        ensures
            r@ == "path is required"@,
    {
        owned("path is required")
    }
}

/// The text handed on for an optional overlay value.
fn value_string(value: &Option<OverlayValue>) -> (r: Option<String>)
    ensures
        r is None <==> value is None,
        *value matches Some(v) ==> r->0@ == value_text(v),
{
    match value {
        None => None,
        Some(OverlayValue::Text(s)) => Some(s.clone()),
        Some(OverlayValue::Number(n)) => Some(n.clone()),
        Some(OverlayValue::Flag(b)) => if *b {
            Some(owned("verbatim"))
        } else {
            Some(owned("false"))
        },
        Some(OverlayValue::Other(t)) => Some(t.clone()),
    }
}

/// The seconds of an `expire` overlay.
fn expire_secs(value: &Option<OverlayValue>) -> (r: u64)
    ensures
        r == expire_after(*value),
{
    let parsed = match value {
        Some(OverlayValue::Number(n)) => parse_u64(n.as_str()),
        Some(OverlayValue::Text(s)) => parse_u64(s.as_str()),
        _ => None,
    };
    match parsed {
        Some(x) => x,
        None => 0,
    }
}

/// Decides an overlay request. `path` is the request's path trimmed and
/// normalized by the dashboard; `action` and `value` are as sent.
pub fn post_context_overlay(action: &str, path: &str, value: &Option<OverlayValue>) -> (r: Result<
    OverlayPlan,
    OverlayError,
>)
    ensures
        path@.len() == 0 ==> r == Err::<OverlayPlan, OverlayError>(OverlayError::PathRequired),
        path@.len() > 0 && control_action(action@) == "expire"@ ==> (r matches Ok(
            OverlayPlan::Expire { target, after_secs },
        ) && target@ == path@ && after_secs == expire_after(*value)),
        path@.len() > 0 && control_action(action@) != "expire"@ ==> (r matches Ok(
            OverlayPlan::Control { action: a, target, value: v },
        ) && a@ == control_action(action@) && target@ == path@ && (v is None <==> value is None)
            && (*value matches Some(x) ==> v->0@ == value_text(x))),
{
    if chars_of(path).len() == 0 {
        return Err(OverlayError::PathRequired);
    }
    let act = if str_eq(action, "priority") {
        owned("set_priority")
    } else {
        owned(action)
    };
    if str_eq(act.as_str(), "expire") {
        return Ok(OverlayPlan::Expire { target: owned(path), after_secs: expire_secs(value) });
    }
    Ok(OverlayPlan::Control { action: act, target: owned(path), value: value_string(value) })
}

/// The actions of the policy endpoint.
#[derive(Debug, Clone, Copy, PartialEq, Eq, Structural)]
pub enum PolicyAction {
    Add,
    Remove,
}

/// Why a policy request is refused.
#[derive(Debug, Clone, PartialEq, Eq)]
pub enum PolicyError {
    /// The action is neither `add` nor `remove`.
    UnknownAction,
    /// The rule to add does not read as a policy; the reader's message.
    InvalidRule(String),
    /// A rule to add lacks a name or a match pattern (blank counts as absent).
    FieldsRequired,
    /// A removal names no rule.
    NameRequired,
    /// No policy has the name to remove.
    NoMatch,
}

/// The message sent back with the `400 Bad Request` for `e`.
pub open spec fn policy_error_text(e: PolicyError) -> Seq<char> {
    match e {
        PolicyError::UnknownAction => "unknown action"@,
        PolicyError::InvalidRule(detail) => "invalid rule: "@ + detail@,
        PolicyError::FieldsRequired => "rule.name and rule.match_pattern are required"@,
        PolicyError::NameRequired => "remove requires rule.name"@,
        PolicyError::NoMatch => "no policy matched name"@,
    }
}

impl PolicyError {
    /// The message sent back with the `400 Bad Request`.
    pub fn message(&self) -> (r: String)
        ensures
            r@ == policy_error_text(*self),
    {
        match self {
            PolicyError::UnknownAction => owned("unknown action"),
            PolicyError::InvalidRule(detail) => {
                let mut out = chars_of("invalid rule: ");
                let d = chars_of(detail.as_str());
                push_chars(&mut out, d.as_slice());
                string_from_chars(out.as_slice())
            },
            PolicyError::FieldsRequired => owned("rule.name and rule.match_pattern are required"),
            PolicyError::NameRequired => owned("remove requires rule.name"),
            PolicyError::NoMatch => owned("no policy matched name"),
        }
    }
}

/// The action of a policy request.
pub fn policy_action(action: &str) -> (r: Result<PolicyAction, PolicyError>)
    ensures
        r == (if action@ == "add"@ {
            Ok(PolicyAction::Add)
        } else if action@ == "remove"@ {
            Ok(PolicyAction::Remove)
        } else {
            Err(PolicyError::UnknownAction)
        }),
{
    if str_eq(action, "add") {
        Ok(PolicyAction::Add)
    } else if str_eq(action, "remove") {
        Ok(PolicyAction::Remove)
    } else {
        Err(PolicyError::UnknownAction)
    }
}

/// Checks a rule to add: its name and match pattern must not be blank.
pub fn check_new_rule(name: &str, match_pattern: &str) -> (r: Result<(), PolicyError>)
    ensures
        r == (if trim(name@).len() == 0 || trim(match_pattern@).len() == 0 {
            Err(PolicyError::FieldsRequired)
        } else {
            Ok(())
        }),
{
    if is_blank(name) || is_blank(match_pattern) {
        Err(PolicyError::FieldsRequired)
    } else {
        Ok(())
    }
}

/// The name of the rule to remove: the request's `rule.name` string, trimmed,
/// which must not be empty.
pub fn removal_name(name: Option<&str>) -> (r: Result<String, PolicyError>)
    ensures
        r is Ok <==> (name is Some && trim(name->0@).len() > 0),
        r matches Ok(n) ==> n@ == trim(name->0@),
        r is Err ==> r == Err::<String, PolicyError>(PolicyError::NameRequired),
{
    match name {
        Some(n) => {
            if is_blank(n) {
                Err(PolicyError::NameRequired)
            } else {
                Ok(trimmed(n))
            }
        },
        None => Err(PolicyError::NameRequired),
    }
}

/// Which policies stay when those named `name` are removed: `keep[i]` is
/// whether the `i`-th name differs from `name`. Refused when none is removed.
pub fn remove_policy(names: &[String], name: &str) -> (r: Result<Vec<bool>, PolicyError>)
    ensures
        r is Err <==> (forall|i: int| 0 <= i < names@.len() ==> (#[trigger] names@[i])@ != name@),
        r is Err ==> r == Err::<Vec<bool>, PolicyError>(PolicyError::NoMatch),
        r matches Ok(keep) ==> (keep@.len() == names@.len() && forall|i: int|
            0 <= i < names@.len() ==> keep@[i] == ((#[trigger] names@[i])@ != name@)),
{
    let mut keep: Vec<bool> = Vec::new();
    let mut removed = false;
    let mut i: usize = 0;
    while i < names.len()
        invariant
            i <= names.len(),
            keep@.len() == i,
            forall|k: int| 0 <= k < i ==> keep@[k] == ((#[trigger] names@[k])@ != name@),
            removed == (exists|k: int| 0 <= k < i && (#[trigger] names@[k])@ == name@),
        decreases names.len() - i,
    {
        let differs = !str_eq(names[i].as_str(), name);
        if !differs {
            removed = true;
        }
        keep.push(differs);
        i = i + 1;
    }
    if removed {
        Ok(keep)
    } else {
        Err(PolicyError::NoMatch)
    }
}

/// How an accepted policy request changes the project's policy list.
#[derive(Debug, Clone, PartialEq, Eq)]
pub enum PolicyChange {
    /// The request's rule is appended to the list.
    Append,
    /// Only the policies `i` with `keep[i]` stay, in their order.
    Retain(Vec<bool>),
}

/// Decides a policy request from its action, its rule, and the names of the
/// project's policies, in order. `rule_error` is the message of reading the
/// rule as a policy when that fails (it matters for `add` only);
/// `rule_name` and `rule_pattern` are the rule's `name` and `match_pattern`,
/// each `None` when the rule has no such string. A refused request changes
/// nothing: the caller saves the list only on `Ok`.
pub fn post_context_policy(
    action: &str,
    rule_error: Option<&str>,
    rule_name: Option<&str>,
    rule_pattern: Option<&str>,
    names: &[String],
) -> (r: Result<PolicyChange, PolicyError>)
    ensures
        action@ != "add"@ && action@ != "remove"@ ==> r == Err::<PolicyChange, PolicyError>(
            PolicyError::UnknownAction,
        ),
        action@ == "add"@ && rule_error is Some ==> (r matches Err(PolicyError::InvalidRule(m))
            && m@ == rule_error->0@),
        action@ == "add"@ && rule_error is None ==> (if rule_name is Some && trim(
            rule_name->0@,
        ).len() > 0
            && rule_pattern is Some && trim(rule_pattern->0@).len() > 0 {
            r == Ok::<PolicyChange, PolicyError>(PolicyChange::Append)
        } else {
            r == Err::<PolicyChange, PolicyError>(PolicyError::FieldsRequired)
        }),
        action@ == "remove"@ && !(rule_name is Some && trim(rule_name->0@).len() > 0) ==> r
            == Err::<PolicyChange, PolicyError>(PolicyError::NameRequired),
        action@ == "remove"@ && rule_name is Some && trim(rule_name->0@).len() > 0 ==> {
            let n = trim(rule_name->0@);
            &&& (forall|i: int| 0 <= i < names@.len() ==> (#[trigger] names@[i])@ != n) ==> r
                == Err::<PolicyChange, PolicyError>(PolicyError::NoMatch)
            &&& (exists|i: int| 0 <= i < names@.len() && (#[trigger] names@[i])@ == n) ==> (
            r matches Ok(PolicyChange::Retain(keep)) && keep@.len() == names@.len() && forall|
                i: int,
            | 0 <= i < names@.len() ==> keep@[i] == ((#[trigger] names@[i])@ != n))
        },
{
    proof {
        reveal_strlit("add");
        reveal_strlit("remove");
        assert("add"@ != "remove"@) by {
            assert("add"@.len() != "remove"@.len());
        }
    }
    match policy_action(action) {
        Err(e) => Err(e),
        Ok(PolicyAction::Add) => {
            if let Some(e) = rule_error {
                return Err(PolicyError::InvalidRule(owned(e)));
            }
            match (rule_name, rule_pattern) {
                (Some(n), Some(p)) => match check_new_rule(n, p) {
                    Ok(()) => Ok(PolicyChange::Append),
                    Err(e) => Err(e),
                },
                _ => Err(PolicyError::FieldsRequired),
            }
        },
        Ok(PolicyAction::Remove) => {
            let name = match removal_name(rule_name) {
                Ok(n) => n,
                Err(e) => return Err(e),
            };
            match remove_policy(names, name.as_str()) {
                Ok(keep) => Ok(PolicyChange::Retain(keep)),
                Err(e) => Err(e),
            }
        },
    }
}

/// The path each read-only context endpoint is served at.
pub open spec fn endpoint_path(e: ContextEndpoint) -> Seq<char> {
    match e {
        ContextEndpoint::Ledger => "/api/context-ledger"@,
        ContextEndpoint::Control => "/api/context-control"@,
        ContextEndpoint::Field => "/api/context-field"@,
        ContextEndpoint::Handles => "/api/context-handles"@,
        ContextEndpoint::OverlayHistory => "/api/context-overlay-history"@,
        ContextEndpoint::Plan => "/api/context-plan"@,
        ContextEndpoint::Bounce => "/api/context-bounce"@,
        ContextEndpoint::Client => "/api/context-client"@,
        ContextEndpoint::Pressure => "/api/context-pressure"@,
        ContextEndpoint::DynamicTools => "/api/context-dynamic-tools"@,
        ContextEndpoint::Introspect => "/api/context-introspect"@,
        ContextEndpoint::Radar => "/api/context-radar"@,
    }
}

/// The context paths are pairwise distinct.
proof fn lemma_context_paths_distinct()
    ensures
        "/api/context-ledger"@ != "/api/context-control"@,
        "/api/context-ledger"@ != "/api/context-field"@,
        "/api/context-ledger"@ != "/api/context-handles"@,
        "/api/context-ledger"@ != "/api/context-overlay-history"@,
        "/api/context-ledger"@ != "/api/context-plan"@,
        "/api/context-ledger"@ != "/api/context-bounce"@,
        "/api/context-ledger"@ != "/api/context-client"@,
        "/api/context-ledger"@ != "/api/context-pressure"@,
        "/api/context-ledger"@ != "/api/context-dynamic-tools"@,
        "/api/context-ledger"@ != "/api/context-introspect"@,
        "/api/context-ledger"@ != "/api/context-radar"@,
        "/api/context-ledger"@ != "/api/context-overlay"@,
        "/api/context-ledger"@ != "/api/context-policy"@,
        "/api/context-control"@ != "/api/context-field"@,
        "/api/context-control"@ != "/api/context-handles"@,
        "/api/context-control"@ != "/api/context-overlay-history"@,
        "/api/context-control"@ != "/api/context-plan"@,
        "/api/context-control"@ != "/api/context-bounce"@,
        "/api/context-control"@ != "/api/context-client"@,
        "/api/context-control"@ != "/api/context-pressure"@,
        "/api/context-control"@ != "/api/context-dynamic-tools"@,
        "/api/context-control"@ != "/api/context-introspect"@,
        "/api/context-control"@ != "/api/context-radar"@,
        "/api/context-control"@ != "/api/context-overlay"@,
        "/api/context-control"@ != "/api/context-policy"@,
        "/api/context-field"@ != "/api/context-handles"@,
        "/api/context-field"@ != "/api/context-overlay-history"@,
        "/api/context-field"@ != "/api/context-plan"@,
        "/api/context-field"@ != "/api/context-bounce"@,
        "/api/context-field"@ != "/api/context-client"@,
        "/api/context-field"@ != "/api/context-pressure"@,
        "/api/context-field"@ != "/api/context-dynamic-tools"@,
        "/api/context-field"@ != "/api/context-introspect"@,
        "/api/context-field"@ != "/api/context-radar"@,
        "/api/context-field"@ != "/api/context-overlay"@,
        "/api/context-field"@ != "/api/context-policy"@,
        "/api/context-handles"@ != "/api/context-overlay-history"@,
        "/api/context-handles"@ != "/api/context-plan"@,
        "/api/context-handles"@ != "/api/context-bounce"@,
        "/api/context-handles"@ != "/api/context-client"@,
        "/api/context-handles"@ != "/api/context-pressure"@,
        "/api/context-handles"@ != "/api/context-dynamic-tools"@,
        "/api/context-handles"@ != "/api/context-introspect"@,
        "/api/context-handles"@ != "/api/context-radar"@,
        "/api/context-handles"@ != "/api/context-overlay"@,
        "/api/context-handles"@ != "/api/context-policy"@,
        "/api/context-overlay-history"@ != "/api/context-plan"@,
        "/api/context-overlay-history"@ != "/api/context-bounce"@,
        "/api/context-overlay-history"@ != "/api/context-client"@,
        "/api/context-overlay-history"@ != "/api/context-pressure"@,
        "/api/context-overlay-history"@ != "/api/context-dynamic-tools"@,
        "/api/context-overlay-history"@ != "/api/context-introspect"@,
        "/api/context-overlay-history"@ != "/api/context-radar"@,
        "/api/context-overlay-history"@ != "/api/context-overlay"@,
        "/api/context-overlay-history"@ != "/api/context-policy"@,
        "/api/context-plan"@ != "/api/context-bounce"@,
        "/api/context-plan"@ != "/api/context-client"@,
        "/api/context-plan"@ != "/api/context-pressure"@,
        "/api/context-plan"@ != "/api/context-dynamic-tools"@,
        "/api/context-plan"@ != "/api/context-introspect"@,
        "/api/context-plan"@ != "/api/context-radar"@,
        "/api/context-plan"@ != "/api/context-overlay"@,
        "/api/context-plan"@ != "/api/context-policy"@,
        "/api/context-bounce"@ != "/api/context-client"@,
        "/api/context-bounce"@ != "/api/context-pressure"@,
        "/api/context-bounce"@ != "/api/context-dynamic-tools"@,
        "/api/context-bounce"@ != "/api/context-introspect"@,
        "/api/context-bounce"@ != "/api/context-radar"@,
        "/api/context-bounce"@ != "/api/context-overlay"@,
        "/api/context-bounce"@ != "/api/context-policy"@,
        "/api/context-client"@ != "/api/context-pressure"@,
        "/api/context-client"@ != "/api/context-dynamic-tools"@,
        "/api/context-client"@ != "/api/context-introspect"@,
        "/api/context-client"@ != "/api/context-radar"@,
        "/api/context-client"@ != "/api/context-overlay"@,
        "/api/context-client"@ != "/api/context-policy"@,
        "/api/context-pressure"@ != "/api/context-dynamic-tools"@,
        "/api/context-pressure"@ != "/api/context-introspect"@,
        "/api/context-pressure"@ != "/api/context-radar"@,
        "/api/context-pressure"@ != "/api/context-overlay"@,
        "/api/context-pressure"@ != "/api/context-policy"@,
        "/api/context-dynamic-tools"@ != "/api/context-introspect"@,
        "/api/context-dynamic-tools"@ != "/api/context-radar"@,
        "/api/context-dynamic-tools"@ != "/api/context-overlay"@,
        "/api/context-dynamic-tools"@ != "/api/context-policy"@,
        "/api/context-introspect"@ != "/api/context-radar"@,
        "/api/context-introspect"@ != "/api/context-overlay"@,
        "/api/context-introspect"@ != "/api/context-policy"@,
        "/api/context-radar"@ != "/api/context-overlay"@,
        "/api/context-radar"@ != "/api/context-policy"@,
        "/api/context-overlay"@ != "/api/context-policy"@,
{
    reveal_strlit("/api/context-ledger");
    reveal_strlit("/api/context-control");
    reveal_strlit("/api/context-field");
    reveal_strlit("/api/context-handles");
    reveal_strlit("/api/context-overlay-history");
    reveal_strlit("/api/context-plan");
    reveal_strlit("/api/context-bounce");
    reveal_strlit("/api/context-client");
    reveal_strlit("/api/context-pressure");
    reveal_strlit("/api/context-dynamic-tools");
    reveal_strlit("/api/context-introspect");
    reveal_strlit("/api/context-radar");
    reveal_strlit("/api/context-overlay");
    reveal_strlit("/api/context-policy");
    assert("/api/context-ledger"@.len() == 19);
    assert("/api/context-control"@.len() == 20);
    assert("/api/context-field"@.len() == 18);
    assert("/api/context-handles"@.len() == 20);
    assert("/api/context-overlay-history"@.len() == 28);
    assert("/api/context-plan"@.len() == 17);
    assert("/api/context-bounce"@.len() == 19);
    assert("/api/context-client"@.len() == 19);
    assert("/api/context-pressure"@.len() == 21);
    assert("/api/context-dynamic-tools"@.len() == 26);
    assert("/api/context-introspect"@.len() == 23);
    assert("/api/context-radar"@.len() == 18);
    assert("/api/context-overlay"@.len() == 20);
    assert("/api/context-policy"@.len() == 19);
    assert("/api/context-ledger"@[13] != "/api/context-bounce"@[13]);
    assert("/api/context-ledger"@[13] != "/api/context-client"@[13]);
    assert("/api/context-ledger"@[13] != "/api/context-policy"@[13]);
    assert("/api/context-bounce"@[13] != "/api/context-client"@[13]);
    assert("/api/context-bounce"@[13] != "/api/context-policy"@[13]);
    assert("/api/context-client"@[13] != "/api/context-policy"@[13]);
    assert("/api/context-control"@[13] != "/api/context-handles"@[13]);
    assert("/api/context-control"@[13] != "/api/context-overlay"@[13]);
    assert("/api/context-handles"@[13] != "/api/context-overlay"@[13]);
    assert("/api/context-field"@[13] != "/api/context-radar"@[13]);
}

/// Every read-only endpoint is reached at its own path, and a path reaches an
/// endpoint only when it is that endpoint's path.
pub proof fn law_each_endpoint_routed(e: ContextEndpoint, path: Seq<char>)
    ensures
        endpoint_at(endpoint_path(e)) == Some(e),
        endpoint_at(path) matches Some(f) ==> path == endpoint_path(f),
{
    lemma_context_paths_distinct();
}

/// A read-only endpoint's path is routed to that endpoint whatever the
/// request method.
pub proof fn law_read_routes_any_method(e: ContextEndpoint, method: Seq<char>)
    ensures
        route_of(endpoint_path(e), method) == Some(ContextRoute::Read(e)),
{
    lemma_context_paths_distinct();
    law_each_endpoint_routed(e, endpoint_path(e));
}

} // verus!
