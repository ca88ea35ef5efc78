//! Dispatch of the ROI endpoints, and the decisions of the team roll-up.

use vstd::prelude::*;
use crate::text::{chars_of, owned, push_chars, str_eq, string_from_chars};
use crate::sanitizer::{is_blank, trim};
use crate::jsonc::{empty_object, is_empty_object, parse_json_text, serde_json_parse};

verus! {

/// The ROI endpoints.
#[derive(Debug, Clone, Copy, PartialEq, Eq, Structural)]
pub enum RoiRoute {
    /// `/api/roi`.
    Roi,
    /// `/api/team-roi`.
    TeamRoi,
}

/// Routes a dashboard request for the ROI endpoints, whatever its method.
pub fn handle(path: &str) -> (r: Option<RoiRoute>)
    ensures
        r == (if path@ == "/api/roi"@ {
            Some(RoiRoute::Roi)
        } else if path@ == "/api/team-roi"@ {
            Some(RoiRoute::TeamRoi)
        } else {
            None
        }),
{
    if str_eq(path, "/api/roi") {
        Some(RoiRoute::Roi)
    } else if str_eq(path, "/api/team-roi") {
        Some(RoiRoute::TeamRoi)
    } else {
        None
    }
}

/// Where the effective commercial plan was resolved from.
#[derive(Debug, Clone, Copy, PartialEq, Eq, Structural)]
pub enum PlanSource {
    /// Verified against the plan service just now.
    Live,
    /// Taken from the local cache within its validity.
    Cached,
    /// Taken from a cache whose validity has run out.
    Expired,
    /// No plan is known.
    Unknown,
}

/// The wire label of a plan source.
pub open spec fn plan_source_text(source: PlanSource) -> Seq<char> {
    match source {
        PlanSource::Live => "live"@,
        PlanSource::Cached => "cached"@,
        PlanSource::Expired => "expired"@,
        PlanSource::Unknown => "none"@,
    }
}

/// The stable wire label of a plan source.
pub fn plan_source_label(source: PlanSource) -> (r: &'static str)
    ensures
        r@ == plan_source_text(source),
{
    match source {
        PlanSource::Live => "live",
        PlanSource::Cached => "cached",
        PlanSource::Expired => "expired",
        PlanSource::Unknown => "none",
    }
}

/// Keeps a configured value only when it is not blank.
pub fn non_blank(value: Option<String>) -> (r: Option<String>)
    ensures
        r is Some <==> (value is Some && trim(value->0@).len() > 0),
        r is Some ==> r == value,
{
    match value {
        Some(v) => if is_blank(v.as_str()) {
            None
        } else {
            Some(v)
        },
        None => None,
    }
}

/// The team server's URL: the configured one, unless it is blank.
pub fn team_url(configured: Option<String>) -> (r: Option<String>)
    ensures
        r is Some <==> (configured is Some && trim(configured->0@).len() > 0),
        r is Some ==> r == configured,
{
    non_blank(configured)
}

/// The bearer token for the team server: the environment's, unless it is
/// blank, else the configured one as it is.
pub fn team_token(from_env: Option<String>, configured: Option<String>) -> (r: Option<String>)
    ensures
        (from_env is Some && trim(from_env->0@).len() > 0) ==> r == from_env,
        !(from_env is Some && trim(from_env->0@).len() > 0) ==> r == configured,
{
    match non_blank(from_env) {
        Some(t) => Some(t),
        None => configured,
    }
}

/// `s` without its trailing slashes (`str::trim_end_matches('/')`).
pub open spec fn without_trailing_slashes(s: Seq<char>) -> Seq<char>
    decreases s.len(),
{
    if s.len() > 0 && s.last() == '/' {
        without_trailing_slashes(s.drop_last())
    } else {
        s
    }
}

/// The path of the team savings summary under a server URL.
pub open spec fn summary_path() -> Seq<char> {
    "/v1/savings/summary"@
}

proof fn lemma_without_trailing_slashes(s: Seq<char>, b: int)
    requires
        0 <= b <= s.len(),
        forall|j: int| b <= j < s.len() ==> s[j] == '/',
        b == 0 || s[b - 1] != '/',
    ensures
        without_trailing_slashes(s) == s.take(b),
    decreases s.len(),
{
    if s.len() > b {
        lemma_without_trailing_slashes(s.drop_last(), b);
        assert(s.drop_last().take(b) =~= s.take(b));
    } else {
        assert(s.take(b) =~= s);
    }
}

/// The URL of the team savings summary: the server URL without trailing
/// slashes, then `/v1/savings/summary`.
pub fn summary_endpoint(url: &str) -> (r: String)
    ensures
        r@ == without_trailing_slashes(url@) + summary_path(),
{
    let cs = chars_of(url);
    let mut b: usize = cs.len();
    while b > 0 && cs[b - 1] == '/'
        invariant
            b <= cs.len(),
            cs@ == url@,
            forall|j: int| b <= j < cs.len() ==> cs@[j] == '/',
        decreases b,
    {
        b = b - 1;
    }
    proof {
        lemma_without_trailing_slashes(url@, b as int);
    }
    let mut out: Vec<char> = Vec::new();
    let mut i: usize = 0;
    while i < b
        invariant
            b <= cs.len(),
            i <= b,
            out@ == cs@.take(i as int),
        decreases b - i,
    {
        out.push(cs[i]);
        i = i + 1;
        assert(out@ =~= cs@.take(i as int));
    }
    let tail = chars_of("/v1/savings/summary");
    push_chars(&mut out, tail.as_slice());
    string_from_chars(out.as_slice())
}

/// The character of a decimal digit.
pub open spec fn digit_char(d: int) -> char {
    if d == 0 {
        '0'
    } else if d == 1 {
        '1'
    } else if d == 2 {
        '2'
    } else if d == 3 {
        '3'
    } else if d == 4 {
        '4'
    } else if d == 5 {
        '5'
    } else if d == 6 {
        '6'
    } else if d == 7 {
        '7'
    } else if d == 8 {
        '8'
    } else {
        '9'
    }
}

/// The decimal text of `n`, without leading zeros (`0` for zero).
pub open spec fn decimal_text(n: nat) -> Seq<char>
    decreases n,
{
    if n < 10 {
        seq![digit_char(n as int)]
    } else {
        decimal_text(n / 10).push(digit_char((n % 10) as int))
    }
}

fn digit(d: u64) -> (c: char)
    requires
        d < 10,
    ensures
        c == digit_char(d as int),
{
    if d == 0 {
        '0'
    } else if d == 1 {
        '1'
    } else if d == 2 {
        '2'
    } else if d == 3 {
        '3'
    } else if d == 4 {
        '4'
    } else if d == 5 {
        '5'
    } else if d == 6 {
        '6'
    } else if d == 7 {
        '7'
    } else if d == 8 {
        '8'
    } else {
        '9'
    }
}

/// Appends the decimal text of `n`.
fn push_decimal(out: &mut Vec<char>, n: u64)
    ensures
        final(out)@ == old(out)@ + decimal_text(n as nat),
    decreases n,
{
    if n >= 10 {
        push_decimal(out, n / 10);
    }
    out.push(digit(n % 10));
    proof {
        if n < 10 {
            assert(decimal_text(n as nat) =~= seq![digit_char(n as int)]);
        }
    }
}

/// What the dashboard shows of the team roll-up once a team server is
/// configured.
#[derive(Debug, Clone, PartialEq, Eq)]
pub enum TeamRoi {
    /// The server's summary, as the body it sent.
    Summary(String),
    /// Why no summary could be had.
    Failed(String),
}

/// The message shown when the team server refuses the token.
pub open spec fn access_denied_text() -> Seq<char> {
    "Access denied — the team token needs the 'audit' scope (owner/admin)."@
}

/// The message shown when the team server answers with another status.
pub open spec fn status_text(status: u16) -> Seq<char> {
    "Team server returned HTTP "@ + decimal_text(status as nat) + "."@
}

/// What the team roll-up shows for the outcome of the summary request:
/// either the status and body of the answer, or why there was none.
pub fn team_outcome(fetched: Result<(u16, String), String>) -> (r: TeamRoi)
    ensures
        fetched matches Ok((s, body)) ==> (s == 200 ==> r == TeamRoi::Summary(body)),
        fetched matches Ok((s, _)) ==> ((s == 401 || s == 403) ==> (r matches TeamRoi::Failed(m)
            && m@ == access_denied_text())),
        fetched matches Ok((s, _)) ==> ((s != 200 && s != 401 && s != 403) ==> (
        r matches TeamRoi::Failed(m) && m@ == status_text(s))),
        fetched matches Err(e) ==> r == TeamRoi::Failed(e),
{
    match fetched {
        Ok((status, body)) => {
            if status == 200 {
                TeamRoi::Summary(body)
            } else if status == 401 || status == 403 {
                TeamRoi::Failed(
                    owned("Access denied — the team token needs the 'audit' scope (owner/admin)."),
                )
            } else {
                let mut out = chars_of("Team server returned HTTP ");
                push_decimal(&mut out, status as u64);
                let dot = chars_of(".");
                push_chars(&mut out, dot.as_slice());
                TeamRoi::Failed(string_from_chars(out.as_slice()))
            }
        },
        Err(e) => TeamRoi::Failed(e),
    }
}

/// The team summary shown for the body of a `200` answer: the body parsed as
/// JSON, or an empty object when it is not JSON.
pub fn team_summary(text: &str) -> (r: serde_json::Value)
    ensures
        serde_json_parse(text@) matches Some(v) ==> r == v,
        serde_json_parse(text@) is None ==> is_empty_object(r),
{
    match parse_json_text(text) {
        Ok(v) => v,
        Err(_) => empty_object(),
    }
}

} // verus!
