use lean_ctx::tool_visibility::{category_gate_applies, is_tool_visible, needs_invoker, INVOKER};

// The profile and category lookups live outside this policy: the tests pass
// what they answer. Power enables every tool; Minimal enables `ctx_read` but
// not `ctx_architecture`; Standard enables `ctx_architecture`,
// `ctx_semantic_search` and `ctx_callgraph`; `ctx_metrics`, `ctx_cost` and
// `ctx_discover_tools` are internal tools.

#[test]
fn internal_tools_never_visible_even_in_power() {
    assert!(!is_tool_visible("ctx_metrics", true, true, &[], false, true));
    assert!(!is_tool_visible("ctx_cost", true, true, &[], false, true));
    assert!(!is_tool_visible("ctx_discover_tools", true, true, &[], false, true));
}

#[test]
fn core_tool_visible_under_power() {
    assert!(is_tool_visible("ctx_read", false, true, &[], false, true));
}

#[test]
fn standard_exposes_its_advertised_tools() {
    assert!(is_tool_visible("ctx_architecture", false, true, &[], false, true));
    assert!(is_tool_visible("ctx_semantic_search", false, true, &[], false, true));
    assert!(is_tool_visible("ctx_callgraph", false, true, &[], false, true));
}

#[test]
fn minimal_hides_non_minimal_tools() {
    assert!(is_tool_visible("ctx_read", false, true, &[], false, true));
    assert!(!is_tool_visible("ctx_architecture", false, false, &[], false, true));
}

#[test]
fn disabled_list_filters() {
    let disabled = vec!["ctx_read".to_string()];
    assert!(!is_tool_visible("ctx_read", false, true, &disabled, false, true));
}

#[test]
fn zed_hides_ctx_edit_only() {
    assert!(!is_tool_visible("ctx_edit", false, true, &[], true, true));
    assert!(is_tool_visible("ctx_read", false, true, &[], true, true));
}

#[test]
fn role_block_hides_tool() {
    assert!(!is_tool_visible("ctx_read", false, true, &[], false, false));
}

#[test]
fn category_gate_only_in_default_lean_mode() {
    assert!(category_gate_applies(true, false));
    assert!(!category_gate_applies(true, true));
    assert!(!category_gate_applies(false, false));
    assert!(!category_gate_applies(false, true));
}

#[test]
fn invoker_added_when_missing_in_lazy_mode() {
    assert!(needs_invoker(false, false, true, &[]));
}

#[test]
fn invoker_not_added_in_full_mode() {
    assert!(!needs_invoker(true, false, true, &[]));
}

#[test]
fn invoker_not_duplicated_when_present() {
    assert!(!needs_invoker(false, true, true, &[]));
}

#[test]
fn invoker_respects_role_and_disabled() {
    assert!(!needs_invoker(false, false, false, &[]));
    assert!(!needs_invoker(false, false, true, &["ctx_call".to_string()]));
}

#[test]
fn zed_quirk_does_not_apply_elsewhere_and_disabled_needs_exact_name() {
    assert!(is_tool_visible("ctx_edit", false, true, &[], false, true));
    let disabled = vec!["ctx_rea".to_string(), "ctx_read_x".to_string()];
    assert!(is_tool_visible("ctx_read", false, true, &disabled, false, true));
    assert_eq!(INVOKER, "ctx_call");
    assert!(needs_invoker(false, false, true, &["ctx_read".to_string()]));
}
