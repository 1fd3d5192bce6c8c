use duckle::audit::{audit_path, entry_line, requirement, Outcome};
use duckle::console_auth::{Identity, Role};

#[test]
fn reading_needs_less_than_running_and_unknown_routes_need_the_most() {
    assert_eq!(requirement("GET", "/api/runs").0, Role::Viewer);
    assert_eq!(requirement("POST", "/api/run").0, Role::Operator);
    // Signing yourself out is not a privileged act. Anyone who could sign in
    // must be able to sign out, whatever their role.
    assert_eq!(requirement("DELETE", "/api/session").0, Role::Viewer);
    assert_eq!(requirement("DELETE", "/api/session").1, "session.sign_out");
    assert_eq!(requirement("POST", "/api/schedules").0, Role::Operator);
    // The important one: a route nobody thought about is admin-only, so adding
    // an endpoint cannot accidentally publish it.
    assert_eq!(requirement("POST", "/api/some-future-thing").0, Role::Admin);
    assert_eq!(requirement("DELETE", "/api/pipelines").0, Role::Admin);
}

#[test]
fn a_viewer_cannot_run_a_pipeline_and_an_operator_can() {
    let (needed, action) = requirement("POST", "/api/run");
    assert_eq!(action, "pipeline.run");
    assert!(!Role::Viewer.allows(needed));
    assert!(Role::Operator.allows(needed));
    assert!(Role::Admin.allows(needed));
}

#[test]
fn events_are_one_line_each_and_name_nobody_they_do_not_know() {
    let ops = Identity { label: "ops".to_string(), role: Role::Operator };
    let line =
        entry_line("2026-01-01T00:00:00Z", Some(&ops), "pipeline.run", "a\nb", Outcome::Allowed);
    assert_eq!(line.matches('\n').count(), 1, "one line per event");
    let parsed: serde_json::Value = serde_json::from_str(&line).expect("each line is JSON");
    assert_eq!(parsed["actor"], "ops");
    assert_eq!(parsed["role"], "operator");
    assert_eq!(parsed["target"], "a\nb");
    assert_eq!(parsed["outcome"], "allowed");

    let line = entry_line("t", None, "pipeline.run", "p", Outcome::Unauthenticated);
    let parsed: serde_json::Value = serde_json::from_str(&line).unwrap();
    assert_eq!(parsed["actor"], "-", "an unknown caller must not be given a name");
    assert_eq!(parsed["outcome"], "unauthenticated");
    assert_eq!(Outcome::Denied.as_str(), "denied");
    assert_eq!(audit_path("/w", false), "/w/logs/audit.ndjson");
}
