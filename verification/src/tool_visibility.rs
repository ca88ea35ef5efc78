//! Tool-visibility policy for the MCP `tools/list` response.
//!
//! Internal tools are never advertised; the active profile, the
//! `disabled_tools` list and the Zed `ctx_edit` quirk filter the candidates;
//! the universal invoker `ctx_call` is force-advertised in non-full mode so
//! that tools hidden by lazy or profile filtering stay reachable.

use vstd::prelude::*;
use crate::text::{list_contains, str_eq};

verus! {

/// The universal invoker tool name. A static-list MCP client can call any
/// registered tool through it, even when that tool is not advertised.
pub const INVOKER: &'static str = "ctx_call";

/// Whether `name` occurs in `disabled`.
pub open spec fn listed(disabled: Seq<String>, name: Seq<char>) -> bool {
    exists|i: int| 0 <= i < disabled.len() && (#[trigger] disabled[i])@ == name
}

/// Decides whether a tool should appear in `tools/list`.
///
/// `internal` is whether the tool's category is the internal one (such tools
/// are invoked automatically or through [`INVOKER`]), `profile_enabled`
/// whether the active profile enables it, and `role_allows` whether the
/// active role permits it; all three are resolved by the caller.
pub fn is_tool_visible(
    name: &str,
    internal: bool,
    profile_enabled: bool,
    disabled: &[String],
    is_zed: bool,
    role_allows: bool,
) -> (r: bool)
    ensures
        r == (!internal && profile_enabled && !listed(disabled@, name@) && !(is_zed && name@
            == "ctx_edit"@) && role_allows),
{
    if internal {
        return false;
    }
    if !profile_enabled {
        return false;
    }
    if list_contains(disabled, name) {
        return false;
    }
    if is_zed && str_eq(name, "ctx_edit") {
        return false;
    }
    role_allows
}

/// Whether the lazy per-category gate filters the advertised tool set: only
/// for clients that support `notifications/tools/list_changed` and only when
/// no explicit profile is set (an explicit profile is advertised in full).
pub fn category_gate_applies(supports_list_changed: bool, explicit_profile: bool) -> (r: bool)
    ensures
        r == (supports_list_changed && !explicit_profile),
{
    supports_list_changed && !explicit_profile
}

/// Whether [`INVOKER`] must be added to the advertised set: only in non-full
/// mode, when it is not already present, the role permits it, and it is not
/// disabled.
pub fn needs_invoker(
    full_mode: bool,
    already_present: bool,
    invoker_role_allowed: bool,
    disabled: &[String],
) -> (r: bool)
    ensures
        r == (!full_mode && !already_present && invoker_role_allowed && !listed(
            disabled@,
            "ctx_call"@,
        )),
{
    !full_mode && !already_present && invoker_role_allowed && !list_contains(disabled, INVOKER)
}

} // verus!
