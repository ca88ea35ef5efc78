use lean_ctx::dashboard::context::{
    check_new_rule, get_routes, post_context_policy, PolicyChange, handle, parse_u64, policy_action, post_context_overlay,
    remove_policy, removal_name, same_ignoring_ascii_case, ContextEndpoint, ContextRoute,
    OverlayError, OverlayPlan, OverlayValue, PolicyAction, PolicyError,
};
use lean_ctx::dashboard::roi::{
    self, plan_source_label, summary_endpoint, team_outcome, team_summary, team_token, team_url, PlanSource,
    RoiRoute, TeamRoi,
};

#[test]
fn post_routes_need_the_post_method_in_any_case() {
    assert_eq!(handle("/api/context-overlay", "POST"), Some(ContextRoute::Overlay));
    assert_eq!(handle("/api/context-overlay", "post"), Some(ContextRoute::Overlay));
    assert_eq!(handle("/api/context-policy", "Post"), Some(ContextRoute::Policy));
    assert_eq!(handle("/api/context-overlay", "GET"), None);
    assert_eq!(handle("/api/context-policy", "POSTS"), None);
}

#[test]
fn read_routes_ignore_the_method() {
    assert_eq!(
        handle("/api/context-ledger", "GET"),
        Some(ContextRoute::Read(ContextEndpoint::Ledger))
    );
    assert_eq!(
        handle("/api/context-radar", "POST"),
        Some(ContextRoute::Read(ContextEndpoint::Radar))
    );
    assert_eq!(get_routes("/api/context-overlay-history"), Some(ContextEndpoint::OverlayHistory));
    assert_eq!(get_routes("/api/context-dynamic-tools"), Some(ContextEndpoint::DynamicTools));
    assert_eq!(get_routes("/api/context-introspect"), Some(ContextEndpoint::Introspect));
    assert_eq!(get_routes("/api/context-ledger/"), None);
    assert_eq!(get_routes("/api/roi"), None);
    assert_eq!(handle("", "GET"), None);
}

#[test]
fn ascii_case_comparison() {
    assert!(same_ignoring_ascii_case("pOsT", "POST"));
    assert!(!same_ignoring_ascii_case("POS", "POST"));
    assert!(same_ignoring_ascii_case("straße", "STRAßE"));
    assert!(!same_ignoring_ascii_case("é", "É"));
}

#[test]
fn parses_unsigned_decimals_like_std() {
    for s in ["0", "42", "+7", "007", "18446744073709551615", "", "+", "-1", "1.5", " 3", "18446744073709551616", "12a", "٣"] {
        assert_eq!(parse_u64(s), s.parse::<u64>().ok(), "input {s:?}");
    }
}

#[test]
fn overlay_without_path_is_refused() {
    let r = post_context_overlay("pin", "", &None);
    assert_eq!(r, Err(OverlayError::PathRequired));
    assert_eq!(OverlayError::PathRequired.message(), "path is required");
}

#[test]
fn overlay_priority_is_renamed() {
    let r = post_context_overlay("priority", "src/main.rs", &Some(OverlayValue::Number("3".to_string())));
    assert_eq!(
        r,
        Ok(OverlayPlan::Control {
            action: "set_priority".to_string(),
            target: "src/main.rs".to_string(),
            value: Some("3".to_string()),
        })
    );
}

#[test]
fn overlay_values_become_text() {
    let plan = |v: Option<OverlayValue>| match post_context_overlay("pin", "a.rs", &v) {
        Ok(OverlayPlan::Control { value, .. }) => value,
        other => panic!("unexpected {other:?}"),
    };
    assert_eq!(plan(None), None);
    assert_eq!(plan(Some(OverlayValue::Flag(true))), Some("verbatim".to_string()));
    assert_eq!(plan(Some(OverlayValue::Flag(false))), Some("false".to_string()));
    assert_eq!(plan(Some(OverlayValue::Text("full".to_string()))), Some("full".to_string()));
    assert_eq!(plan(Some(OverlayValue::Other("[1,2]".to_string()))), Some("[1,2]".to_string()));
}

#[test]
fn overlay_expire_reads_seconds() {
    let secs = |v: Option<OverlayValue>| match post_context_overlay("expire", "a.rs", &v) {
        Ok(OverlayPlan::Expire { target, after_secs }) => {
            assert_eq!(target, "a.rs");
            after_secs
        }
        other => panic!("unexpected {other:?}"),
    };
    assert_eq!(secs(Some(OverlayValue::Number("600".to_string()))), 600);
    assert_eq!(secs(Some(OverlayValue::Text("90".to_string()))), 90);
    assert_eq!(secs(Some(OverlayValue::Text("soon".to_string()))), 0);
    assert_eq!(secs(Some(OverlayValue::Number("-5".to_string()))), 0);
    assert_eq!(secs(Some(OverlayValue::Number("1.5".to_string()))), 0);
    assert_eq!(secs(Some(OverlayValue::Flag(true))), 0);
    assert_eq!(secs(None), 0);
}

#[test]
fn policy_actions() {
    assert_eq!(policy_action("add"), Ok(PolicyAction::Add));
    assert_eq!(policy_action("remove"), Ok(PolicyAction::Remove));
    assert_eq!(policy_action("Add"), Err(PolicyError::UnknownAction));
    assert_eq!(PolicyError::UnknownAction.message(), "unknown action");
}

#[test]
fn new_rules_need_name_and_pattern() {
    assert_eq!(check_new_rule("keep-docs", "docs/**"), Ok(()));
    assert_eq!(check_new_rule("  ", "docs/**"), Err(PolicyError::FieldsRequired));
    assert_eq!(check_new_rule("keep-docs", "\t"), Err(PolicyError::FieldsRequired));
    assert_eq!(
        PolicyError::FieldsRequired.message(),
        "rule.name and rule.match_pattern are required"
    );
}

#[test]
fn removal_needs_a_name() {
    assert_eq!(removal_name(Some("  keep-docs ")), Ok("keep-docs".to_string()));
    assert_eq!(removal_name(Some("   ")), Err(PolicyError::NameRequired));
    assert_eq!(removal_name(None), Err(PolicyError::NameRequired));
    assert_eq!(PolicyError::NameRequired.message(), "remove requires rule.name");
}

#[test]
fn removal_keeps_other_policies() {
    let names = vec!["a".to_string(), "b".to_string(), "a".to_string()];
    assert_eq!(remove_policy(&names, "a"), Ok(vec![false, true, false]));
    assert_eq!(remove_policy(&names, "c"), Err(PolicyError::NoMatch));
    assert_eq!(remove_policy(&[], "a"), Err(PolicyError::NoMatch));
    assert_eq!(PolicyError::NoMatch.message(), "no policy matched name");
}

#[test]
fn roi_routes() {
    assert_eq!(roi::handle("/api/roi"), Some(RoiRoute::Roi));
    assert_eq!(roi::handle("/api/team-roi"), Some(RoiRoute::TeamRoi));
    assert_eq!(roi::handle("/api/roi/"), None);
}

#[test]
fn plan_source_labels() {
    assert_eq!(plan_source_label(PlanSource::Live), "live");
    assert_eq!(plan_source_label(PlanSource::Cached), "cached");
    assert_eq!(plan_source_label(PlanSource::Expired), "expired");
    assert_eq!(plan_source_label(PlanSource::Unknown), "none");
}

#[test]
fn team_settings() {
    assert_eq!(team_url(None), None);
    assert_eq!(team_url(Some("  ".to_string())), None);
    assert_eq!(team_url(Some("https://t.example".to_string())), Some("https://t.example".to_string()));
    assert_eq!(
        team_token(Some("env".to_string()), Some("cfg".to_string())),
        Some("env".to_string())
    );
    assert_eq!(team_token(Some(" ".to_string()), Some("cfg".to_string())), Some("cfg".to_string()));
    assert_eq!(team_token(None, Some(" ".to_string())), Some(" ".to_string()));
    assert_eq!(team_token(None, None), None);
}

#[test]
fn summary_endpoint_strips_trailing_slashes() {
    assert_eq!(summary_endpoint("https://t.example"), "https://t.example/v1/savings/summary");
    assert_eq!(summary_endpoint("https://t.example///"), "https://t.example/v1/savings/summary");
    assert_eq!(summary_endpoint(""), "/v1/savings/summary");
}

#[test]
fn team_outcomes() {
    assert_eq!(
        team_outcome(Ok((200, "{\"x\":1}".to_string()))),
        TeamRoi::Summary("{\"x\":1}".to_string())
    );
    let denied = TeamRoi::Failed(
        "Access denied — the team token needs the 'audit' scope (owner/admin).".to_string(),
    );
    assert_eq!(team_outcome(Ok((401, String::new()))), denied);
    assert_eq!(team_outcome(Ok((403, String::new()))), denied);
    assert_eq!(
        team_outcome(Ok((502, String::new()))),
        TeamRoi::Failed("Team server returned HTTP 502.".to_string())
    );
    assert_eq!(
        team_outcome(Ok((0, String::new()))),
        TeamRoi::Failed("Team server returned HTTP 0.".to_string())
    );
    assert_eq!(
        team_outcome(Err("Team server timed out.".to_string())),
        TeamRoi::Failed("Team server timed out.".to_string())
    );
}

#[test]
fn policy_requests_decided_whole() {
    let names = vec!["a".to_string(), "b".to_string()];
    assert_eq!(post_context_policy("add", None, Some("c"), Some("src/**"), &names), Ok(PolicyChange::Append));
    assert_eq!(
        post_context_policy("add", None, Some(" "), Some("src/**"), &names),
        Err(PolicyError::FieldsRequired)
    );
    assert_eq!(post_context_policy("add", None, Some("c"), None, &names), Err(PolicyError::FieldsRequired));
    let invalid = post_context_policy("add", Some("invalid type: integer `5`"), None, Some("x"), &names);
    assert_eq!(invalid, Err(PolicyError::InvalidRule("invalid type: integer `5`".to_string())));
    assert_eq!(invalid.unwrap_err().message(), "invalid rule: invalid type: integer `5`");
    assert_eq!(
        post_context_policy("remove", None, Some(" b "), None, &names),
        Ok(PolicyChange::Retain(vec![true, false]))
    );
    assert_eq!(
        post_context_policy("remove", Some("ignored"), Some("a"), None, &names),
        Ok(PolicyChange::Retain(vec![false, true]))
    );
    assert_eq!(post_context_policy("remove", None, None, None, &names), Err(PolicyError::NameRequired));
    assert_eq!(post_context_policy("remove", None, Some("z"), None, &names), Err(PolicyError::NoMatch));
    assert_eq!(post_context_policy("drop", None, Some("a"), None, &names), Err(PolicyError::UnknownAction));
}

#[test]
fn team_summary_falls_back_to_an_empty_object() {
    assert_eq!(team_summary(r#"{"saved": 3}"#)["saved"], 3);
    let empty = serde_json::Value::Object(serde_json::Map::new());
    assert_eq!(team_summary("<html>"), empty);
    assert_eq!(team_summary(""), empty);
    assert_eq!(team_summary("[1]").as_array().map(|a| a.len()), Some(1));
}
