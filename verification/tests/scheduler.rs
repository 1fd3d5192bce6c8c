use chrono::{Local, TimeZone, Timelike, Utc};
use duckle::gate::RunGate;
use duckle::moment::{cron_error, cron_is_valid, is_earlier, next_occurrence, normalize_cron, pick_future, plus_seconds, Moment};
use duckle::runs::{elapsed_ms, failed_run, reported_run};
use duckle::scheduler::{
    apply, arming_is_possible, change_is_possible, check_kind, claim_next_run, claim_run, claiming_is_possible,
    compute_next_run, due_schedules, lock_key, positive_setting, run_permits, tick_interval, Change, Claim,
    Scheduler, DEFAULT_PERMITS, WATCH_DEBOUNCE_SECS,
};
use duckle::schedules::{default_true, reads_as_empty, schedules_path, Schedule, ScheduleKind};

fn now() -> Moment {
    let t = Utc::now();
    Moment { secs: t.timestamp(), nanos: t.timestamp_subsec_nanos() }
}

fn schedule(id: &str, pipeline: &str, kind: ScheduleKind) -> Schedule {
    Schedule {
        id: id.to_string(),
        pipeline_id: pipeline.to_string(),
        name: pipeline.to_string(),
        enabled: true,
        kind,
        last_run_at: None,
        last_run_status: None,
        last_run_duration_ms: None,
        last_run_error: None,
        next_run_at: None,
    }
}

fn cron(expr: &str) -> ScheduleKind {
    ScheduleKind::Cron { expr: expr.to_string() }
}

fn local_hour_and_minute(m: Moment) -> (u32, u32) {
    let t = Local.timestamp_opt(m.secs, m.nanos).single().unwrap();
    (t.hour(), t.minute())
}

/// What a save does: the store is changed, and what was written is adopted.
fn commit(sched: &mut Scheduler, store: &mut Vec<Schedule>, change: Change, at: Moment) {
    apply(&change, store, at);
    sched.adopt(store.iter().map(|s| s.copy()).collect(), at);
}

#[test]
fn cron_parses_and_computes_next() {
    let mut s = schedule("t", "p1", cron("0 * * * * *"));
    let at = now();
    assert!(arming_is_possible(&s, at));
    compute_next_run(&mut s, at);
    assert!(s.next_run_at.is_some());
    assert!(is_earlier(at, s.next_run_at.unwrap()));
}

#[test]
fn cron_fires_at_the_local_wall_clock_hour() {
    let mut s = schedule("t", "p1", cron("0 0 3 * * *"));
    compute_next_run(&mut s, now());
    let next = local_hour_and_minute(s.next_run_at.expect("next_run_at set"));
    assert_eq!(next.0, 3, "3am cron must land on 3am local");
    assert_eq!(next.1, 0);
}

#[test]
fn claim_next_run_also_uses_local_time() {
    let mut s = schedule("t", "p1", cron("0 0 3 * * *"));
    let at = now();
    assert!(claiming_is_possible(&s, at));
    claim_next_run(&mut s, at);
    let next = local_hour_and_minute(s.next_run_at.expect("next_run_at set"));
    assert_eq!(next.0, 3, "claim must also be local");
}

#[test]
fn five_field_cron_is_accepted_and_scheduled() {
    let mut s = schedule("t", "p1", cron("0 3 * * *"));
    compute_next_run(&mut s, now());
    let next = local_hour_and_minute(s.next_run_at.expect("5-field cron must schedule"));
    assert_eq!(next.0, 3);
    assert_eq!(next.1, 0);
}

#[test]
fn normalize_cron_rejects_bad_field_counts() {
    assert_eq!(normalize_cron("0 3 * * *").as_deref(), Some("0 0 3 * * *"));
    assert_eq!(normalize_cron("0 0 3 * * *").as_deref(), Some("0 0 3 * * *"));
    assert!(normalize_cron("* * *").is_none());
    assert!(normalize_cron("* * * * * * * *").is_none());
    assert!(normalize_cron("").is_none());
}

#[test]
fn normalize_cron_pads_five_fields_and_validates() {
    let five = normalize_cron("0 9 * * 1").expect("5-field accepted");
    assert_eq!(five, "0 0 9 * * 1");
    assert!(five.parse::<cron::Schedule>().is_ok(), "padded expr parses");
    // A 6-field expression passes through unchanged and parses.
    let six = normalize_cron("*/30 * * * * *").expect("6-field accepted");
    assert_eq!(six, "*/30 * * * * *");
    assert!(six.parse::<cron::Schedule>().is_ok());
    // Garbage and wrong field counts are rejected, and never fire silently.
    assert!(normalize_cron("not a cron").is_none());
    assert!(normalize_cron("* * *").is_none());
    assert!(normalize_cron("").is_none());
}

#[test]
fn interval_computes_next() {
    let mut s = schedule("t", "p1", ScheduleKind::Interval { seconds: 300 });
    let at = now();
    compute_next_run(&mut s, at);
    let next = s.next_run_at.expect("next_run_at set");
    let delta = next.secs - at.secs;
    assert!(delta <= 301 && delta >= 299);
    assert_eq!(delta, 300);
}

#[test]
fn disabled_clears_next() {
    let mut s = schedule("t", "p1", ScheduleKind::Interval { seconds: 60 });
    s.enabled = false;
    s.next_run_at = Some(now());
    compute_next_run(&mut s, now());
    assert!(s.next_run_at.is_none());
}

#[test]
fn a_write_keeps_what_the_other_process_added_in_the_meantime() {
    let at = now();
    let mut store: Vec<Schedule> = Vec::new();
    apply(
        &Change::Put(schedule("id-nightly", "nightly", ScheduleKind::Interval { seconds: 3600 })),
        &mut store,
        at,
    );
    // The desktop app loads the store and holds it in memory.
    let mut desktop = Scheduler::new();
    desktop.set_workspace(Some("/w".to_string()), Ok(store.iter().map(|s| s.copy()).collect()), at);
    assert_eq!(desktop.list().unwrap().len(), 1);

    // The web console adds one while the desktop still holds the old copy.
    apply(
        &Change::Put(schedule("id-hourly", "hourly", ScheduleKind::Interval { seconds: 60 })),
        &mut store,
        at,
    );

    // The desktop now records a run. It must not write its own copy back over
    // the top, which is what a blind save of in-memory state would do.
    commit(
        &mut desktop,
        &mut store,
        Change::Record {
            id: "id-nightly".to_string(),
            started: at,
            result: reported_run("success", 5, None),
        },
        at,
    );
    let ids: Vec<&str> = store.iter().map(|s| s.pipeline_id.as_str()).collect();
    assert_eq!(ids, vec!["nightly", "hourly"], "a concurrent addition was dropped");
    assert_eq!(store[0].last_run_status.as_deref(), Some("success"));
    assert_eq!(desktop.list().unwrap().len(), 2);
}

#[test]
fn an_unrelated_save_does_not_make_a_running_schedule_due_again() {
    let at = now();
    let mut store: Vec<Schedule> = Vec::new();
    let mut sched = Scheduler::new();
    sched.set_workspace(Some("/w".to_string()), Ok(Vec::new()), at);

    let saved =
        sched.upsert(schedule("", "nightly-load", ScheduleKind::Interval { seconds: 3600 }), at).unwrap();
    let running = saved.id.clone();
    assert!(!running.is_empty(), "a new schedule gets an id");
    commit(&mut sched, &mut store, Change::Put(saved), at);
    // Make it due, the way an hour passing would.
    for s in store.iter_mut() {
        s.next_run_at = Some(Moment { secs: at.secs - 1, nanos: at.nanos });
    }
    sched.adopt(store.iter().map(|s| s.copy()).collect(), at);

    let claimed = sched.claim_due(at);
    assert_eq!(claimed.len(), 1, "the schedule was not due when it should have been");
    commit(&mut sched, &mut store, Change::Claim(claimed), at);

    // Now something else saves, which must not undo the claim.
    let other =
        sched.upsert(schedule("", "unrelated", ScheduleKind::Interval { seconds: 3600 }), at).unwrap();
    commit(&mut sched, &mut store, Change::Put(other), at);

    let after = sched.list().unwrap().into_iter().find(|s| s.id == running).unwrap();
    assert!(
        matches!(after.next_run_at, Some(t) if is_earlier(at, t)),
        "the running schedule is due again after an unrelated save: {:?}",
        after.next_run_at
    );
    assert!(due_schedules(&store, at).is_empty());
}

#[test]
fn a_store_that_cannot_be_read_is_not_a_store_that_is_empty() {
    let at = now();
    let mut sched = Scheduler::new();
    let mut store: Vec<Schedule> = Vec::new();
    sched.set_workspace(Some("/w".to_string()), Ok(Vec::new()), at);
    let saved =
        sched.upsert(schedule("", "nightly-load", ScheduleKind::Interval { seconds: 3600 }), at).unwrap();
    let id = saved.id.clone();
    commit(&mut sched, &mut store, Change::Put(saved), at);
    assert_eq!(sched.list().unwrap().len(), 1);

    sched.set_workspace(Some("/w".to_string()), Err("parse schedules.json: damaged".to_string()), at);
    let err = match sched.list() {
        Err(e) => e,
        Ok(_) => panic!("an unreadable store was reported as no schedules"),
    };
    assert!(!err.is_empty(), "the failure has to say something");
    // Nothing fires while it cannot be read.
    assert!(sched.claim_due(at).is_empty(), "a schedule fired from an unreadable store");
    assert!(sched.needs_reload());

    // Repair it, and the next question gets the right answer.
    sched.reload(Ok(store.iter().map(|s| s.copy()).collect()), at);
    let back = sched.list().expect("a repaired store still reported as broken");
    assert_eq!(back.len(), 1);
    assert_eq!(back[0].id, id, "the schedule came back changed");
}

#[test]
fn what_is_locked_is_the_pipeline() {
    let s = schedule("some-uuid", "nightly-load", ScheduleKind::Interval { seconds: 1 });
    assert_eq!(lock_key(&s), "nightly-load");
    assert!(matches!(claim_run(true, true), Claim::Held));
    assert!(matches!(claim_run(true, false), Claim::Taken));
    assert!(matches!(claim_run(false, false), Claim::Unheld));
}

#[test]
fn two_schedulers_decide_alike() {
    let at = now();
    let mut due = schedule("a", "nightly-load", ScheduleKind::Interval { seconds: 60 });
    due.next_run_at = Some(at);
    let mut later = schedule("b", "later", ScheduleKind::Interval { seconds: 60 });
    later.next_run_at = Some(Moment { secs: at.secs + 1, nanos: 0 });
    let mut off = schedule("c", "off", ScheduleKind::Interval { seconds: 60 });
    off.enabled = false;
    off.next_run_at = Some(at);
    let list = vec![due, later, off];
    let a = due_schedules(&list, at);
    let b = due_schedules(&list, at);
    assert_eq!(a.len(), 1);
    assert_eq!(a[0].id, "a");
    assert_eq!(a[0].pipeline_id, b[0].pipeline_id);
}

#[test]
fn a_run_that_never_started_is_recorded_against_its_schedule() {
    let at = now();
    let mut store = vec![schedule("a", "nightly-load", ScheduleKind::Interval { seconds: 3600 })];
    let result = failed_run("pipeline nightly-load not found".to_string(), elapsed_ms(-3));
    apply(&Change::Record { id: "a".to_string(), started: at, result }, &mut store, at);
    assert_eq!(store[0].last_run_status.as_deref(), Some("error"));
    assert_eq!(store[0].last_run_at.map(|m| m.secs), Some(at.secs));
    assert!(store[0].last_run_error.as_deref().unwrap().contains("nightly-load"));
    assert_eq!(store[0].last_run_duration_ms, Some(0));
}

#[test]
fn a_deleted_schedule_takes_no_other_with_it() {
    let at = now();
    let mut store = vec![
        schedule("a", "p", ScheduleKind::Interval { seconds: 1 }),
        schedule("b", "p", ScheduleKind::Interval { seconds: 2 }),
    ];
    apply(&Change::Delete("a".to_string()), &mut store, at);
    assert_eq!(store.len(), 1);
    assert_eq!(store[0].id, "b");
}

#[test]
fn a_save_keeps_the_run_history() {
    let at = now();
    let mut old = schedule("a", "p", ScheduleKind::Interval { seconds: 60 });
    old.last_run_status = Some("ok".to_string());
    old.last_run_at = Some(at);
    let mut store = vec![old];
    let edited = schedule("a", "p", ScheduleKind::Interval { seconds: 90 });
    let mut sched = Scheduler::new();
    sched.set_workspace(Some("/w".to_string()), Ok(store.iter().map(|s| s.copy()).collect()), at);
    let saved = sched.upsert(edited, at).unwrap();
    commit(&mut sched, &mut store, Change::Put(saved), at);
    assert_eq!(store.len(), 1);
    assert!(matches!(store[0].kind, ScheduleKind::Interval { seconds: 90 }));
    assert_eq!(store[0].last_run_status.as_deref(), Some("ok"));
}

#[test]
fn triggers_that_cannot_fire_are_refused() {
    assert!(check_kind(&cron("0 3 * * *")).is_ok());
    assert!(check_kind(&cron("0 0 3 * * *")).is_ok());
    let e = check_kind(&cron("61 * * * * *")).unwrap_err();
    assert!(!e.is_empty());
    assert!(check_kind(&cron("* * *")).is_err());
    assert!(check_kind(&ScheduleKind::Interval { seconds: 60 }).is_ok());
}

#[test]
fn expressions_are_judged_by_the_cron_parser() {
    assert!(cron_is_valid("*/5 * * * *"));
    assert!(!cron_is_valid("99 * * * *"));
    assert!(cron_error("0 0 3 * * *").is_none());
    let said = cron_error("0 0 99 * * *").unwrap();
    let expected = "0 0 99 * * *".parse::<cron::Schedule>().unwrap_err().to_string();
    assert_eq!(said, expected);
    let at = now();
    let next = next_occurrence("0 0 0 1 1 *", at).unwrap();
    let t = Local.timestamp_opt(next.secs, next.nanos).single().unwrap();
    assert_eq!((t.hour(), t.minute()), (0, 0));
    assert!(next_occurrence("0 0 0 1 1 * 2020", at).is_none());
}

#[test]
fn settings_fall_back_when_they_are_no_use() {
    assert_eq!(tick_interval(Some("7")), 7);
    assert_eq!(tick_interval(None), tick_interval(Some("0")));
    assert_eq!(tick_interval(None), tick_interval(Some("soon")));
    assert_eq!(run_permits(Some(" 4 "), 1), 4);
    assert_eq!(run_permits(Some("0"), 1), 1);
    assert_eq!(run_permits(None, DEFAULT_PERMITS), DEFAULT_PERMITS);
    assert_eq!(positive_setting(Some("300"), 255, 9), 9);
    assert_eq!(WATCH_DEBOUNCE_SECS, 2);
    assert!(default_true());
    assert_eq!(schedules_path("/w", false), "/w/schedules.json");
    assert!(reads_as_empty(&None));
    assert!(reads_as_empty(&Some("  \n".to_string())));
    assert!(!reads_as_empty(&Some("[]".to_string())));
}

#[test]
fn files_are_watched_for_what_asks_for_it() {
    let at = now();
    let mut sched = Scheduler::new();
    let mut watch = schedule(
        "w",
        "p",
        ScheduleKind::FileWatch { path: "/in".to_string(), recursive: true },
    );
    let list = vec![
        watch.copy(),
        schedule("i", "q", ScheduleKind::Interval { seconds: 60 }),
    ];
    sched.set_workspace(Some("/w".to_string()), Ok(list), at);
    let watches = sched.watches();
    assert_eq!(watches.len(), 1);
    assert_eq!((watches[0].id.as_str(), watches[0].path.as_str()), ("w", "/in"));
    assert!(watches[0].recursive);
    watch.enabled = false;
    sched.set_workspace(Some("/w".to_string()), Ok(vec![watch]), at);
    assert!(sched.watches().is_empty());
}

#[test]
fn a_run_needs_a_workspace_and_a_schedule() {
    let at = now();
    let mut sched = Scheduler::new();
    assert!(sched.run_target("a").is_err());
    sched.set_workspace(
        Some("/w".to_string()),
        Ok(vec![schedule("a", "p", ScheduleKind::Interval { seconds: 60 })]),
        at,
    );
    let target = sched.run_target("a").unwrap();
    assert_eq!((target.workspace.as_str(), target.pipeline_id.as_str()), ("/w", "p"));
    assert!(sched.run_target("b").is_err());
    assert_eq!(sched.fire_key("a"), "p");
    sched.delete("a");
    sched.change_in_memory(&Change::Delete("a".to_string()), at);
    assert!(sched.list().unwrap().is_empty());
}

#[test]
fn moments_step_and_compare() {
    let a = Moment { secs: 10, nanos: 5 };
    assert!(is_earlier(a, Moment { secs: 10, nanos: 6 }));
    assert!(!is_earlier(a, a));
    let b = plus_seconds(a, 90);
    assert_eq!((b.secs, b.nanos), (100, 5));
}

#[test]
fn a_gate_lets_so_many_through() {
    let mut gate = RunGate::new(2);
    assert!(gate.try_acquire());
    assert!(gate.try_acquire());
    assert!(!gate.try_acquire(), "three ran where two may");
    gate.release();
    assert!(gate.try_acquire());
    assert!(gate.is_held());
    // Zero would let nothing through at all.
    let mut one = RunGate::new(0);
    assert!(one.try_acquire());
    assert!(!one.try_acquire());
}

#[test]
fn a_claimed_schedule_is_not_due_at_once() {
    let at = now();
    for seconds in [0, 1, 300] {
        let mut s = schedule("t", "p1", ScheduleKind::Interval { seconds });
        s.next_run_at = Some(at);
        assert!(claiming_is_possible(&s, at));
        claim_next_run(&mut s, at);
        let next = s.next_run_at.expect("an interval always has a next run");
        assert!(is_earlier(at, next), "an interval of {seconds} s comes up again at once");
        assert_eq!(next.secs, at.secs + std::cmp::max(1, seconds as i64));
        assert!(due_schedules(&vec![s], at).is_empty());
    }
    let mut s = schedule("t", "p1", cron("* * * * * *"));
    s.next_run_at = Some(at);
    claim_next_run(&mut s, at);
    assert!(is_earlier(at, s.next_run_at.unwrap()));
    assert!(due_schedules(&vec![s], at).is_empty());
}

#[test]
fn the_second_reading_of_a_repeated_hour_is_passed_over() {
    let at = |secs: i64| Moment { secs, nanos: 0 };
    assert_eq!(pick_future(&vec![at(10), at(20)], at(9)).map(|m| m.secs), Some(10));
    assert_eq!(pick_future(&vec![at(10), at(20)], at(10)).map(|m| m.secs), Some(20));
    assert!(pick_future(&vec![at(10), at(20)], at(20)).is_none());
    assert!(pick_future(&vec![], at(0)).is_none());
}

#[test]
fn a_change_that_leads_off_the_calendar_is_known_beforehand() {
    let at = now();
    let far = Moment { secs: 8_210_266_876_799, nanos: 0 };
    let list = vec![
        schedule("a", "p", ScheduleKind::Interval { seconds: 60 }),
        schedule("b", "q", cron("0 3 * * *")),
    ];
    let ran = |id: &str, started: Moment| Change::Record {
        id: id.to_string(),
        started,
        result: failed_run("boom".to_string(), 1),
    };
    assert!(change_is_possible(&ran("a", at), &list, at));
    assert!(!change_is_possible(&ran("a", far), &list, at));
    assert!(change_is_possible(&ran("b", far), &list, at));
    assert!(change_is_possible(&ran("gone", far), &list, at));
    assert!(change_is_possible(&Change::Put(list[0].copy()), &list, far));
    assert!(change_is_possible(&Change::Delete("a".to_string()), &list, far));
    let mut armed: Vec<Schedule> = list.iter().map(|s| s.copy()).collect();
    armed[0].next_run_at = Some(at);
    let due = || due_schedules(&armed, at);
    assert_eq!(due().len(), 1);
    assert!(change_is_possible(&Change::Claim(due()), &armed, at));
    assert!(!change_is_possible(&Change::Claim(due()), &armed, far));
    assert!(change_is_possible(&Change::Claim(vec![]), &armed, far));
}
