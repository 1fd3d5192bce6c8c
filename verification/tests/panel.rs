use chrono::{DateTime, Datelike, Local, TimeZone, Timelike, Utc};
use duckle::json::{field, text, Json};
use duckle::moment::Moment;
use duckle::panel::{
    import_is_possible, interval_fits, legacy_entries, legacy_schedules_path, load_schedules, migrate_legacy_schedules,
    next_run_at, panel_json, parse_run_params, parse_save, record_schedule_outcome, roll_forward,
    save_schedule_at, show_occurrence, NextRun, PanelEntry,
};
use duckle::schedules::{Schedule, ScheduleKind};
use duckle::ticker::{cron_decision, decide, missing_pipeline, Armed, Ticker};
use serde_json::Value;

fn to_json(v: &Value) -> Json {
    match v {
        Value::Null => Json::Null,
        Value::Bool(b) => Json::Bool(*b),
        Value::Number(n) => n.as_u64().map_or(Json::OtherNumber(n.clone()), Json::Number),
        Value::String(s) => Json::Text(s.clone()),
        Value::Array(a) => Json::List(a.iter().map(to_json).collect()),
        Value::Object(m) => Json::Object(m.iter().map(|(k, x)| (k.clone(), to_json(x))).collect()),
    }
}

fn json(s: &str) -> Json {
    to_json(&serde_json::from_str(s).unwrap())
}

fn save(list: &mut Vec<Schedule>, body: &str) -> Result<(), String> {
    let save = parse_save(&json(body))?;
    save_schedule_at(list, &save);
    Ok(())
}

fn moment(t: DateTime<Utc>) -> Moment {
    Moment { secs: t.timestamp(), nanos: t.timestamp_subsec_nanos() }
}

fn local(m: Moment) -> DateTime<Local> {
    Local.timestamp_opt(m.secs, m.nanos).single().unwrap()
}

#[test]
fn a_console_save_lands_in_the_store_the_desktop_reads() {
    let mut list: Vec<Schedule> = Vec::new();
    save(&mut list, r#"{ "id": "nightly-load", "enabled": true, "intervalSeconds": 90 }"#).expect("save");
    assert_eq!(list.len(), 1);
    assert_eq!(list[0].pipeline_id, "nightly-load");
    assert!(list[0].enabled);
    // 90 seconds, not "1 minute" or "0 minutes": an interval survives a save
    // from either side unchanged.
    assert!(
        matches!(list[0].kind, ScheduleKind::Interval { seconds: 90 }),
        "interval was not stored exactly: {:?}",
        list[0].kind
    );

    // Saving again edits that record rather than adding a second one.
    save(&mut list, r#"{ "id": "nightly-load", "enabled": false, "cron": "0 9 * * 1" }"#)
        .expect("second save");
    assert_eq!(list.len(), 1, "a second save duplicated the schedule");
    assert!(!list[0].enabled);
    assert!(matches!(&list[0].kind, ScheduleKind::Cron { expr } if expr == "0 9 * * 1"));
}

#[test]
fn an_enabled_schedule_with_no_cron_and_no_interval_is_refused() {
    let mut list: Vec<Schedule> = Vec::new();
    let err = save(&mut list, r#"{ "id": "nightly-load", "enabled": true, "intervalSeconds": 0 }"#)
        .expect_err("an enabled schedule with no trigger must be refused");
    assert!(err.contains("greater than zero"), "unhelpful message: {err}");

    // Disabling it is fine - that is how the console turns a schedule off.
    save(&mut list, r#"{ "id": "nightly-load", "enabled": false, "intervalSeconds": 0 }"#)
        .expect("a disabled schedule needs no trigger");
}

#[test]
fn the_old_console_store_is_carried_over_without_duplicating() {
    let mut list: Vec<Schedule> = Vec::new();
    // The desktop already schedules one of these two pipelines.
    save(&mut list, r#"{ "id": "already-known", "enabled": true, "intervalSeconds": 600 }"#).unwrap();
    let old = legacy_entries(
        r#"{
            "already-known": { "enabled": true, "intervalMinutes": 5, "cron": "" },
            "console-only": { "enabled": true, "intervalMinutes": 15, "cron": "" },
            "never-configured": { "enabled": false, "intervalMinutes": 0, "cron": "" }
        }"#,
    )
    .unwrap();
    assert!(import_is_possible(&old, &list));
    migrate_legacy_schedules(&old, &mut list);

    let ids: std::collections::HashSet<&str> = list.iter().map(|s| s.pipeline_id.as_str()).collect();
    assert!(ids.contains("console-only"), "a console schedule was lost");
    assert!(
        !ids.contains("never-configured"),
        "an entry with no cron and no interval was imported as a schedule"
    );
    assert_eq!(
        list.iter().filter(|s| s.pipeline_id == "already-known").count(),
        1,
        "the pipeline the desktop already scheduled gained a duplicate"
    );
    // ...and it kept the desktop's value rather than the console's 5 minutes.
    let known = list.iter().find(|s| s.pipeline_id == "already-known").unwrap();
    assert!(matches!(known.kind, ScheduleKind::Interval { seconds: 600 }));
    let new = list.iter().find(|s| s.pipeline_id == "console-only").unwrap();
    assert!(matches!(new.kind, ScheduleKind::Interval { seconds: 900 }));

    // Running again is a no-op, so a restart does not re-import.
    let before = list.len();
    migrate_legacy_schedules(&old, &mut list);
    assert_eq!(list.len(), before, "re-imported on restart");
}

#[test]
fn a_store_with_nothing_in_it_is_nothing_to_carry_over() {
    assert!(legacy_entries("{}").is_none());
    assert!(legacy_entries("[1]").is_none());
    assert!(legacy_entries("{ not json").is_none());
    assert!(!interval_fits(&json(r#"{ "intervalMinutes": 18446744073709551615 }"#)));
    assert_eq!(legacy_schedules_path("/w", false), "/w/panel-schedules.json");
}

#[test]
fn what_is_wrong_with_a_save_is_said() {
    let mut list: Vec<Schedule> = Vec::new();
    assert!(save(&mut list, r#"{ "enabled": true }"#).is_err());
    let e = save(&mut list, r#"{ "id": "p", "enabled": true, "cron": "not a cron" }"#).unwrap_err();
    assert!(!e.is_empty());
    assert!(list.is_empty());
}

#[test]
fn an_edited_cron_expression_is_armed_from_the_new_one() {
    let at = |h: u32, m: u32| {
        let t = Local.with_ymd_and_hms(2026, 8, 15, h, m, 0).single().expect("ambiguous local time");
        moment(t.with_timezone(&Utc))
    };

    // 03:00 daily, first seen at 08:00: arm tomorrow, do not fire.
    let (fire, armed) = cron_decision(None, "0 3 * * *", at(8, 0));
    assert!(!fire, "a schedule fired the moment it was first seen");
    let armed = armed.expect("nothing was armed");
    assert_eq!(armed.expr, "0 3 * * *");
    assert_eq!(local(armed.at).hour(), 3, "armed at the wrong hour");

    // Now it is edited to 09:00. The next tick must re-arm from the new
    // expression rather than keep waiting for tomorrow's 03:00.
    let (fire, rearmed) = cron_decision(Some(&armed), "0 9 * * *", at(8, 0));
    assert!(!fire, "the edit itself fired a run");
    let rearmed = rearmed.expect("nothing was armed after the edit");
    assert_eq!(rearmed.expr, "0 9 * * *", "still armed by the old expression");
    assert_eq!(local(rearmed.at).hour(), 9, "did not re-arm from the edited expression");
    assert_eq!(local(rearmed.at).day(), 15, "the edit was pushed to tomorrow");

    // And at 09:00 it fires, then arms the following day.
    let (fire, next) = cron_decision(Some(&rearmed), "0 9 * * *", at(9, 0));
    assert!(fire, "the edited schedule did not fire at its new time");
    let next = next.expect("nothing was armed after firing");
    assert_eq!(local(next.at).day(), 16, "re-armed on the same day, so it would fire twice");

    // An unchanged expression that is not due yet is left exactly alone.
    let (fire, held) = cron_decision(Some(&next), "0 9 * * *", at(9, 1));
    assert!(!fire);
    let held = held.unwrap();
    assert_eq!((held.at.secs, held.at.nanos), (next.at.secs, next.at.nanos));
}

#[test]
fn a_decision_takes_the_occurrence_it_is_given() {
    let now = Moment { secs: 100, nanos: 0 };
    let next = Moment { secs: 200, nanos: 0 };
    let (fire, armed) = decide(None, "e", now, Some(next));
    assert!(!fire);
    assert_eq!(armed.unwrap().at.secs, 200);
    let waiting = Armed { expr: "e".to_string(), at: Moment { secs: 100, nanos: 0 } };
    let (fire, armed) = decide(Some(&waiting), "e", now, None);
    assert!(fire);
    assert!(armed.is_none());
}

fn entry(enabled: bool, interval_seconds: u64, cron: &str) -> PanelEntry {
    PanelEntry { id: "s".to_string(), enabled, interval_seconds, cron: cron.to_string() }
}

#[test]
fn an_interval_fires_after_its_length_and_not_at_first_sight() {
    let mut t = Ticker::new();
    let e = entry(true, 30, "");
    let now = Moment { secs: 1_800_000_000, nanos: 0 };
    let second: u128 = 1_000_000_000;
    assert!(!t.poll("p", &e, 0, now), "fired at first sight");
    assert!(!t.poll("p", &e, 29 * second, now));
    assert!(t.poll("p", &e, 30 * second, now));
    assert!(!t.poll("p", &e, 31 * second, now), "fired twice for one interval");
    // Switched off, it is forgotten: switched on again it starts over.
    assert!(!t.poll("p", &entry(false, 30, ""), 90 * second, now));
    assert!(!t.poll("p", &e, 91 * second, now));
    assert!(!t.poll("q", &e, 200 * second, now), "another schedule's clock was used");
}

#[test]
fn a_cron_schedule_takes_precedence_over_its_interval() {
    let mut t = Ticker::new();
    let e = entry(true, 1, "0 0 3 * * *");
    let now = Moment { secs: 1_800_000_000, nanos: 0 };
    assert!(!t.poll_with("p", &e, 0, now, Some(Moment { secs: 1_800_000_010, nanos: 0 })));
    assert!(!t.poll_with("p", &e, 5_000_000_000, now, None));
    let due = Moment { secs: 1_800_000_010, nanos: 0 };
    assert!(t.poll_with("p", &e, 6_000_000_000, due, Some(Moment { secs: 1_800_086_400, nanos: 0 })));
    assert!(!t.poll_with("p", &e, 7_000_000_000, due, None));
    // One that cannot be evaluated never fires.
    let mut t = Ticker::new();
    assert!(!t.poll("p", &entry(true, 1, "nonsense"), 0, now));
    assert!(!t.poll("p", &entry(true, 1, "nonsense"), 9_000_000_000, now));
}

#[test]
fn a_missing_pipeline_is_a_failed_run() {
    let r = missing_pipeline("gone");
    assert_eq!(r.status, "error");
    assert!(r.error.as_deref().unwrap().contains("'gone'"));
}

#[test]
fn the_panel_shows_the_first_schedule_it_can_express() {
    let mut list: Vec<Schedule> = Vec::new();
    save(&mut list, r#"{ "id": "p", "enabled": true, "intervalSeconds": 90 }"#).unwrap();
    list[0].id = "first".to_string();
    let mut watch = list[0].copy();
    watch.id = "watch".to_string();
    watch.kind = ScheduleKind::FileWatch { path: "/in".to_string(), recursive: false };
    list.insert(0, watch);
    let shown = load_schedules(&list);
    let e = shown.get("p").unwrap();
    assert_eq!((e.id.as_str(), e.interval_seconds, e.cron.as_str()), ("first", 90, ""));
    let sent = panel_json(e);
    assert_eq!(text(field(Some(&sent), "id")), Some("first"));
    assert!(matches!(field(Some(&sent), "intervalMinutes"), Some(Json::Number(1))));
    // A save edits the one that is shown and leaves the watch alone.
    save(&mut list, r#"{ "id": "p", "enabled": true, "intervalSeconds": 120 }"#).unwrap();
    assert_eq!(list.len(), 2);
    assert!(matches!(list[0].kind, ScheduleKind::FileWatch { .. }));
    assert!(matches!(list[1].kind, ScheduleKind::Interval { seconds: 120 }));
}

#[test]
fn an_outcome_goes_to_every_schedule_of_the_pipeline() {
    let mut list: Vec<Schedule> = Vec::new();
    save(&mut list, r#"{ "id": "p", "enabled": true, "intervalSeconds": 90 }"#).unwrap();
    save(&mut list, r#"{ "id": "q", "enabled": true, "intervalSeconds": 90 }"#).unwrap();
    let now = Moment { secs: 5, nanos: 6 };
    record_schedule_outcome(&mut list, "p", now, "error", 12, &Some("boom".to_string()));
    assert_eq!(list[0].last_run_status.as_deref(), Some("error"));
    assert_eq!(list[0].last_run_duration_ms, Some(12));
    assert_eq!(list[0].last_run_error.as_deref(), Some("boom"));
    assert_eq!(list[0].last_run_at.map(|m| (m.secs, m.nanos)), Some((5, 6)));
    assert!(list[1].last_run_status.is_none());
}

#[test]
fn the_next_run_is_shown_in_the_future() {
    let now = moment(Utc.with_ymd_and_hms(2026, 8, 15, 12, 0, 30).unwrap());
    let e = entry(true, 60, "");
    match next_run_at(Some(&e), Some("2026-08-15T11:00:00Z"), now) {
        NextRun::At(t) => assert_eq!(t, "2026-08-15T12:01:00+00:00"),
        other => panic!("{other:?}"),
    }
    match next_run_at(Some(&e), None, now) {
        NextRun::At(t) => assert_eq!(t, "2026-08-15T12:01:30+00:00"),
        other => panic!("{other:?}"),
    }
    // A time that cannot be read counts as none.
    match next_run_at(Some(&e), Some("yesterday"), now) {
        NextRun::At(t) => assert_eq!(t, "2026-08-15T12:01:30+00:00"),
        other => panic!("{other:?}"),
    }
    assert!(matches!(next_run_at(Some(&entry(false, 60, "")), None, now), NextRun::Never));
    assert!(matches!(next_run_at(Some(&entry(true, 0, "")), None, now), NextRun::Never));
    assert!(matches!(next_run_at(None, None, now), NextRun::Never));
    assert!(matches!(next_run_at(Some(&entry(true, 0, "* * *")), None, now), NextRun::Never));
    assert!(matches!(
        next_run_at(Some(&entry(true, u64::MAX, "")), None, now),
        NextRun::OffCalendar
    ));
    match next_run_at(Some(&entry(true, 0, "0 3 * * *")), None, now) {
        NextRun::At(t) => {
            let t = DateTime::parse_from_rfc3339(&t).unwrap();
            assert_eq!((t.hour(), t.minute()), (3, 0));
        }
        other => panic!("{other:?}"),
    }
    let rolled = roll_forward(Moment { secs: 0, nanos: 0 }, 7, Moment { secs: 20, nanos: 0 });
    assert_eq!(rolled.secs, 21);
}

#[test]
fn run_parameters_are_texts_and_blank_ones_are_left_out() {
    let p = parse_run_params(Some(&json(r#"{ "a": "x", "b": "", "c": null, "d": 7, "e": true, "f": [1,"z"] }"#)));
    assert_eq!(p.get("a").map(String::as_str), Some("x"));
    assert!(!p.has("b"));
    assert!(!p.has("c"));
    assert_eq!(p.get("d").map(String::as_str), Some("7"));
    assert_eq!(p.get("e").map(String::as_str), Some("true"));
    assert_eq!(p.get("f").map(String::as_str), Some("[1,\"z\"]"));
    assert_eq!(parse_run_params(None).len(), 0);
    assert_eq!(parse_run_params(Some(&json("[]"))).len(), 0);
}

#[test]
fn an_occurrence_is_shown_in_local_time() {
    let at = moment(Utc.with_ymd_and_hms(2026, 8, 15, 12, 0, 30).unwrap());
    match show_occurrence(Some(at)) {
        NextRun::At(t) => {
            let t = DateTime::parse_from_rfc3339(&t).unwrap();
            assert_eq!(t.timestamp(), at.secs);
        }
        other => panic!("{other:?}"),
    }
    assert!(matches!(show_occurrence(None), NextRun::Never));
}

#[test]
fn an_interval_too_long_to_write_down_counts_only_where_it_is_the_trigger() {
    let long = "18446744073709551615";
    let entries = |text: &str| legacy_entries(&text.replace("LONG", long)).unwrap();
    let mut list: Vec<Schedule> = Vec::new();
    // A cron is the trigger, whatever stands beside it.
    let old = entries(r#"{ "a": { "enabled": true, "intervalMinutes": LONG, "cron": "0 3 * * *" } }"#);
    assert!(interval_fits(&old[0].1));
    assert!(import_is_possible(&old, &list));
    migrate_legacy_schedules(&old, &mut list);
    assert!(matches!(&list[0].kind, ScheduleKind::Cron { expr } if expr == "0 3 * * *"));
    // A pipeline that has a schedule is passed over.
    let known = entries(r#"{ "a": { "intervalMinutes": LONG } }"#);
    assert!(!interval_fits(&known[0].1));
    assert!(import_is_possible(&known, &list));
    migrate_legacy_schedules(&known, &mut list);
    assert_eq!(list.len(), 1);
    // Anything else would have to be written down.
    assert!(!import_is_possible(&entries(r#"{ "b": { "intervalMinutes": LONG } }"#), &list));
    assert!(import_is_possible(&entries(r#"{ "b": { "intervalMinutes": 307445734561825860 } }"#), &list));
    assert!(!import_is_possible(&entries(r#"{ "b": { "intervalMinutes": 307445734561825861 } }"#), &list));
}

#[test]
fn an_interval_is_counted_from_now_as_well() {
    let now = moment(Utc.with_ymd_and_hms(2026, 8, 15, 12, 0, 30).unwrap());
    let room = (8_210_266_876_799 - now.secs) as u64;
    let shown = |seconds: u64, last: &str| next_run_at(Some(&entry(true, seconds, "")), Some(last), now);
    assert!(matches!(shown(room, "1970-01-01T00:00:00Z"), NextRun::At(_)));
    assert!(matches!(shown(room + 1, "1970-01-01T00:00:00Z"), NextRun::OffCalendar));
    // More seconds than a signed number holds step back.
    match shown(u64::MAX, "2026-08-15T13:00:00Z") {
        NextRun::At(t) => assert_eq!(t, "2026-08-15T12:59:59+00:00"),
        other => panic!("{other:?}"),
    }
    assert!(matches!(shown(u64::MAX, "2026-08-15T12:00:00Z"), NextRun::OffCalendar));
}

#[test]
fn numbers_are_passed_on_as_they_were_read() {
    let p = parse_run_params(Some(&json(
        r#"{ "a": 0.99622830388368595, "b": -7, "c": 1e300, "d": 18446744073709551615, "e": [2.50, -0.0] }"#,
    )));
    let get = |k: &str| p.get(k).map(String::as_str);
    assert_eq!(get("a"), Some("0.9962283038836859"));
    assert_eq!(get("b"), Some("-7"));
    let large: Value = serde_json::from_str("1e300").unwrap();
    assert_eq!(get("c"), Some(large.to_string().as_str()));
    assert_eq!(get("d"), Some("18446744073709551615"));
    assert_eq!(get("e"), Some("[2.5,-0.0]"));
}
