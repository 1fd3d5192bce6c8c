use duckle::alerts::{
    alerts_path, build_message, check_mail, classify, cooldown_is_measurable, covers, default_cooldown,
    default_events, default_smtp_port, mail_body, mail_subject, message_json, placeholder_names,
    resolve_env, state_path, webhook_url, AlertRule, AlertState, Alerts, Channel, Event, Message, Turn,
    DELIVERY_TIMEOUT_SECS,
};
use duckle::json::{field, text, Json};
use duckle::moment::Moment;
use duckle::order::TextMap;
use duckle::runs::RunResult;

fn result(status: &str, error: Option<&str>) -> RunResult {
    RunResult {
        status: status.to_string(),
        duration_ms: 1234,
        error: error.map(|e| e.to_string()),
        category: None,
    }
}

fn rule(pattern: &str, cooldown_minutes: u64) -> AlertRule {
    AlertRule {
        pattern: pattern.to_string(),
        on: default_events(),
        cooldown_minutes,
        channel: Channel::Webhook {
            url: "https://example.test/hook".to_string(),
            headers: TextMap::new(),
        },
    }
}

fn at(secs: i64) -> Moment {
    Moment { secs, nanos: 0 }
}

/// One finished run, with a channel that takes or refuses what it is sent.
fn notify(
    state: &mut AlertState,
    alerts: &Alerts,
    pipeline: &str,
    r: &RunResult,
    now: Moment,
    reachable: bool,
) -> Vec<Message> {
    let event = state.event(pipeline, r);
    let mut sent = Vec::new();
    let mut from = 0;
    while let Turn::Send(i) = state.next_rule(&alerts.rules, from, pipeline, event, now) {
        if reachable {
            sent.push(build_message(event, pipeline, r, "1.2"));
            state.delivered(i, pipeline, event, now);
        }
        from = i + 1;
    }
    state.finished(pipeline, r);
    sent
}

#[test]
fn a_return_to_health_is_its_own_event() {
    assert_eq!(classify(&result("error", Some("boom")), None), Event::Failure);
    assert_eq!(classify(&result("ok", None), None), Event::Success);
    assert_eq!(classify(&result("ok", None), Some("ok")), Event::Success);
    assert_eq!(classify(&result("ok", None), Some("error")), Event::Recovery);
    // An unrecognised status counts as a failure: staying silent about a
    // status nobody anticipated is the worse of the two mistakes.
    assert_eq!(classify(&result("weird", None), Some("ok")), Event::Failure);
}

#[test]
fn the_default_is_failures_and_their_all_clear_but_not_every_success() {
    let rule = rule("*", default_cooldown());
    assert_eq!(rule.on, vec![Event::Failure, Event::Recovery]);
    assert!(!rule.on.contains(&Event::Success), "alerting on every success is unreadable");
    assert_eq!(rule.cooldown_minutes, 15);
}

#[test]
fn nothing_is_sent_when_the_workspace_has_no_rules() {
    let alerts = Alerts { rules: vec![] };
    assert!(alerts.is_empty());
    let mut state = AlertState::new();
    let sent = notify(&mut state, &alerts, "nightly", &result("error", Some("boom")), at(0), true);
    assert_eq!(sent.len(), 0);
}

#[test]
fn an_unreachable_channel_is_reported_but_never_raised() {
    let alerts = Alerts { rules: vec![rule("*", 15)] };
    assert!(!alerts.is_empty());
    let mut state = AlertState::new();
    let sent = notify(&mut state, &alerts, "nightly", &result("error", Some("boom")), at(0), false);
    assert_eq!(sent.len(), 0);
    // The status is still remembered, so the eventual recovery is spotted even
    // though the failure alert never landed.
    assert_eq!(state.last_status.get("nightly").map(String::as_str), Some("error"));
    assert_eq!(state.event("nightly", &result("ok", None)), Event::Recovery);
}

#[test]
fn a_pipeline_no_rule_matches_is_left_alone() {
    let alerts = Alerts { rules: vec![rule("nightly-*", 15)] };
    let mut state = AlertState::new();
    let sent =
        notify(&mut state, &alerts, "hourly-sync", &result("error", Some("boom")), at(0), true);
    assert_eq!(sent.len(), 0);
    // It is still tracked, so a rule added later starts from the truth.
    assert_eq!(state.last_status.get("hourly-sync").map(String::as_str), Some("error"));
}

#[test]
fn the_message_leads_with_what_went_wrong() {
    let msg =
        build_message(Event::Failure, "nightly-load", &result("error", Some("ORA-01017")), "1.2");
    // Read in a notification preview, the first few words have to carry it.
    assert!(msg.text.starts_with("Duckle: nightly-load FAILED"), "{}", msg.text);
    assert!(msg.text.contains("ORA-01017"), "the cause was dropped: {}", msg.text);
    assert_eq!(msg.event, "failure");
    assert_eq!(msg.text, "Duckle: nightly-load FAILED after 1.2s - ORA-01017");

    let ok = build_message(Event::Recovery, "nightly-load", &result("ok", None), "1.2");
    assert!(ok.text.contains("recovered"), "{}", ok.text);
    assert!(ok.error.is_none());
}

#[test]
fn a_failure_is_delivered_then_suppressed_until_the_cooldown_passes() {
    let alerts = Alerts { rules: vec![rule("nightly-*", 60)] };
    let mut state = AlertState::new();
    let failed = result("error", Some("ORA-01017"));
    let first = notify(&mut state, &alerts, "nightly-load", &failed, at(1_000), true);
    assert_eq!(first.len(), 1);
    // The second failure inside the window is the one that would have made 288
    // messages a day out of a five-minute schedule.
    assert_eq!(notify(&mut state, &alerts, "nightly-load", &failed, at(1_300), true).len(), 0);
    assert_eq!(notify(&mut state, &alerts, "nightly-load", &failed, at(4_599), true).len(), 0);

    let sent = message_json(&first[0]);
    assert_eq!(text(field(Some(&sent), "event")), Some("failure"));
    assert_eq!(text(field(Some(&sent), "pipeline")), Some("nightly-load"));
    assert_eq!(text(field(Some(&sent), "error")), Some("ORA-01017"));
    assert!(text(field(Some(&sent), "text")).unwrap().starts_with("Duckle: nightly-load FAILED"));
    // What the alert does not have is left out.
    assert!(field(Some(&sent), "category").is_none());

    // Once the hour is over the next one goes out again.
    assert_eq!(notify(&mut state, &alerts, "nightly-load", &failed, at(4_600), true).len(), 1);
}

#[test]
fn the_all_clear_arrives_even_though_the_failure_is_still_in_cooldown() {
    let alerts = Alerts { rules: vec![rule("*", 600)] };
    let mut state = AlertState::new();
    let failed = result("error", Some("boom"));
    assert_eq!(notify(&mut state, &alerts, "nightly-load", &failed, at(0), true).len(), 1);
    assert_eq!(notify(&mut state, &alerts, "nightly-load", &failed, at(1), true).len(), 0, "suppressed");
    // Ten hours of cooldown remain, and the recovery must still land.
    let second = notify(&mut state, &alerts, "nightly-load", &result("ok", None), at(2), true);
    assert_eq!(second.len(), 1);
    assert_eq!(second[0].event, "recovery");
    assert!(second[0].text.contains("recovered"));
    // An ordinary success after that says nothing.
    assert_eq!(notify(&mut state, &alerts, "nightly-load", &result("ok", None), at(3), true).len(), 0);
}

#[test]
fn an_unset_env_placeholder_is_refused_rather_than_posted_to_a_literal_url() {
    let env: TextMap<String> = TextMap::new();
    let err = webhook_url("${ENV:DUCKLE_TEST_UNSET_HOOK}", &env)
        .expect_err("must not post to the placeholder itself");
    assert!(err.contains("ENV:"), "unhelpful error: {err}");
}

#[test]
fn a_url_from_the_environment_is_filled_in() {
    let mut env: TextMap<String> = TextMap::new();
    env.insert("HOOK".to_string(), "https://hooks.test/1".to_string());
    assert_eq!(webhook_url("${ENV: HOOK }/x", &env).as_deref(), Ok("https://hooks.test/1/x"));
    assert_eq!(webhook_url("https://plain.test", &env).as_deref(), Ok("https://plain.test"));
}

#[test]
fn placeholders_are_found_and_expanded_as_a_regular_expression_would() {
    let re = regex::Regex::new(r"\$\{ENV:([^}]+)\}").unwrap();
    let mut env: TextMap<String> = TextMap::new();
    env.insert("A".to_string(), "1".to_string());
    env.insert("B C".to_string(), "2".to_string());
    let samples = [
        "",
        "plain",
        "${ENV:A}",
        "x${ENV:A}y${ENV: B C }z",
        "${ENV:}",
        "${ENV:A",
        "${ENV:${ENV:A}}",
        "$${ENV:A}}",
        "${ENV:MISSING}",
        "${ENV:é}",
        "${ENV:A}${ENV:A}",
        "${ENV:a\nb}",
    ];
    for s in samples {
        let expected = re.replace_all(s, |c: &regex::Captures| {
            match env.get(c[1].trim()) {
                Some(v) => v.clone(),
                None => c[0].to_string(),
            }
        });
        assert_eq!(resolve_env(s, &env), expected, "{s}");
        let names: Vec<String> = re.captures_iter(s).map(|c| c[1].trim().to_string()).collect();
        assert_eq!(placeholder_names(s), names, "{s}");
    }
}

#[test]
fn patterns_cover_pipelines_as_globs() {
    assert!(covers("*", "anything"));
    assert!(covers("nightly-*", "nightly-load"));
    assert!(!covers("nightly-*", "hourly-load"));
    assert!(covers("load?", "load1"));
    assert!(!covers("load?", "load"));
    // A folder of pipelines, at any depth.
    assert!(covers("etl/**", "etl/a/b"));
    assert!(!covers("etl/**", "other/a"));
    // A pattern that is none covers nothing.
    assert!(!covers("[", "["));
}

#[test]
fn addresses_are_checked_before_anything_is_sent() {
    assert!(check_mail("ops@example.com", &vec!["a@example.com".to_string()]).is_ok());
    assert_eq!(
        check_mail("ops@example.com", &vec![]).unwrap_err(),
        "email alert has no recipients"
    );
    let bad_from = check_mail("nobody", &vec!["a@example.com".to_string()]).unwrap_err();
    assert!(bad_from.starts_with("from address: "), "{bad_from}");
    let bad_to =
        check_mail("ops@example.com", &vec!["a@example.com".to_string(), "b".to_string()]).unwrap_err();
    assert!(bad_to.starts_with("to address b: "), "{bad_to}");
}

#[test]
fn a_mail_says_what_the_alert_says() {
    let m = build_message(Event::Failure, "p", &result("error", Some("boom")), "0.5");
    assert_eq!(mail_subject(&m), "[Duckle] p failure");
    assert_eq!(
        mail_body(&m),
        "Duckle: p FAILED after 0.5s - boom\n\nPipeline: p\nError:\nboom\n"
    );
    let ok = build_message(Event::Success, "p", &result("ok", None), "0.5");
    assert_eq!(mail_body(&ok), "Duckle: p succeeded in 0.5s\n\nPipeline: p\n");
    let silent = build_message(Event::Failure, "p", &result("error", None), "0.5");
    assert_eq!(silent.text, "Duckle: p FAILED after 0.5s - no error message");
}

#[test]
fn cooldowns_of_pipelines_and_events_do_not_mix() {
    let mut both = rule("*", 60);
    both.on = vec![Event::Failure, Event::Success];
    let alerts = Alerts { rules: vec![both] };
    let mut state = AlertState::new();
    assert_eq!(notify(&mut state, &alerts, "a", &result("error", None), at(0), true).len(), 1);
    assert_eq!(notify(&mut state, &alerts, "b", &result("error", None), at(1), true).len(), 1);
    assert_eq!(notify(&mut state, &alerts, "c", &result("ok", None), at(2), true).len(), 1);
    assert_eq!(notify(&mut state, &alerts, "a", &result("error", None), at(3), true).len(), 0);
    assert!(state.last_sent.has("a|failure|0"));
    assert!(state.last_sent.has("c|success|0"));
}

#[test]
fn every_rule_that_asks_is_sent_its_own_alert() {
    // A mail to one team and a message to another, for the same failure.
    let alerts = Alerts { rules: vec![rule("*", 15), rule("other-*", 15), rule("night*", 60)] };
    let mut state = AlertState::new();
    let failed = result("error", Some("boom"));
    assert_eq!(notify(&mut state, &alerts, "nightly", &failed, at(0), true).len(), 2);
    assert!(state.last_sent.has("nightly|failure|0"));
    assert!(!state.last_sent.has("nightly|failure|1"));
    assert!(state.last_sent.has("nightly|failure|2"));
    assert_eq!(notify(&mut state, &alerts, "nightly", &failed, at(1), true).len(), 0);
    // Each keeps its own time.
    assert_eq!(notify(&mut state, &alerts, "nightly", &failed, at(900), true).len(), 1);
    assert_eq!(notify(&mut state, &alerts, "nightly", &failed, at(3_600), true).len(), 2);
}

#[test]
fn a_cooldown_that_cannot_be_measured_is_found_when_it_matters() {
    let alerts = Alerts { rules: vec![rule("*", i64::MAX as u64)] };
    let mut state = AlertState::new();
    let turn = |s: &AlertState, e: Event| s.next_rule(&alerts.rules, 0, "a", e, at(5));
    assert_eq!(turn(&state, Event::Failure), Turn::Send(0));
    state.delivered(0, "a", Event::Failure, at(1));
    assert_eq!(turn(&state, Event::Failure), Turn::Unmeasurable(0));
    assert_eq!(turn(&state, Event::Recovery), Turn::Send(0));
    assert_eq!(turn(&state, Event::Success), Turn::Done);
}

#[test]
fn where_the_rules_and_the_state_are_kept() {
    assert_eq!(alerts_path("/w", false), "/w/alerts.json");
    assert_eq!(state_path("/w", false), "/w/.duckle/alert-state.json");
    assert_eq!(default_smtp_port(), 587);
    assert_eq!(DELIVERY_TIMEOUT_SECS, 10);
    assert!(cooldown_is_measurable(15));
    assert!(!cooldown_is_measurable(i64::MAX as u64));
    assert_eq!(Event::Success.as_str(), "success");
}

#[test]
fn an_alert_is_posted_with_everything_it_has() {
    let mut r = result("error", Some("e"));
    r.category = Some("network".to_string());
    let m = build_message(Event::Failure, "p", &r, "1.2");
    match message_json(&m) {
        Json::Object(members) => {
            let keys: Vec<&str> = members.iter().map(|(k, _)| k.as_str()).collect();
            assert_eq!(
                keys,
                vec!["event", "pipeline", "status", "durationMs", "error", "category", "text"]
            );
        }
        other => panic!("{other:?}"),
    }
}
