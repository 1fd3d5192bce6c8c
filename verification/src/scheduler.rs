//! Cron- and interval-based triggers for pipelines.
//!
//! Schedules are persisted so they survive restarts. A poll decides which
//! schedules are due, claims them, and fires each; a save goes through the
//! shared store, so a schedule added by another process is adopted rather than
//! overwritten.
use crate::moment::{
    can_look_ahead, can_step, cron_error, cron_is_valid, cron_refusal, earlier, in_calendar,
    is_cron, is_earlier, later, law_a_step_forward_is_later, law_an_occurrence_is_in_the_future,
    next_occurrence, plus_seconds, upcoming, Moment, FIRST_SECOND, LAST_SECOND, LONGEST_STEP,
};
use crate::number::{decimal, law_decimal_reads_back, number_up_to, read_number};
use crate::runs::RunResult;
use crate::schedules::{copy_opt, find_schedule, lemma_place_of, place_of, Schedule, ScheduleKind};
use crate::text::{
    glue2, is_blank, is_white_space, law_trimmed_to_nothing, same, trim, trimmed,
};
use vstd::prelude::*;
use vstd::string::*;

verus! {

/// The default poll cadence, in seconds.
pub const DEFAULT_TICK_SECS: u64 = 15;

/// How long a watched folder has to be quiet before it fires, in seconds.
pub const WATCH_DEBOUNCE_SECS: u64 = 2;

/// How many scheduled pipelines may execute at once unless it is set.
pub const DEFAULT_PERMITS: u64 = 8;

/// A setting that is a whole number above zero, or else its default.
pub open spec fn positive_or(value: Option<Seq<char>>, limit: nat, default: nat) -> nat {
    match value {
        Some(v) => match number_up_to(v, limit) {
            Some(n) => if n > 0 {
                n
            } else {
                default
            },
            None => default,
        },
        None => default,
    }
}

/// A setting that is a whole number above zero, or else its default.
pub fn positive_setting(value: Option<&str>, limit: u64, default: u64) -> (r: u64)
    ensures
        r == positive_or(crate::text::str_opt(value), limit as nat, default as nat),
{
    match value {
        Some(v) => match read_number(v, limit) {
            Some(n) => if n > 0 {
                n
            } else {
                default
            },
            None => default,
        },
        None => default,
    }
}

/// The poll cadence in seconds: DUCKLE_TICK_INTERVAL if it is set to a whole
/// number above zero, otherwise the default.
pub fn tick_interval(setting: Option<&str>) -> (r: u64)
    ensures
        r == positive_or(crate::text::str_opt(setting), u64::MAX as nat, DEFAULT_TICK_SECS as nat),
        r > 0,
{
    positive_setting(setting, u64::MAX, DEFAULT_TICK_SECS)
}

/// How many runs may execute at once: DUCKLE_MAX_CONCURRENT_RUNS, with the
/// whitespace round it left out, if it is set to a whole number above zero;
/// otherwise `default`.
pub fn run_permits(setting: Option<&str>, default: u64) -> (r: u64)
    requires
        0 < default <= usize::MAX,
    ensures
        r == positive_or(
            match setting {
                Some(v) => Some(trimmed(v@)),
                None => None,
            },
            usize::MAX as nat,
            default as nat,
        ),
        0 < r <= usize::MAX,
{
    match setting {
        Some(v) => {
            let t = trim(v);
            positive_setting(Some(t.as_str()), usize::MAX as u64, default)
        },
        None => default,
    }
}

// ---------------------------------------------------------------------------
// When a schedule runs next
// ---------------------------------------------------------------------------

/// The step of an interval in seconds. It is kept as a signed number of 64 bits.
pub open spec fn step_of(seconds: u64) -> int {
    if seconds <= i64::MAX {
        seconds as int
    } else {
        seconds - 0x1_0000_0000_0000_0000
    }
}

/// The step of an interval in seconds.
pub(crate) fn signed_step(seconds: u64) -> (r: i64)
    ensures
        r == step_of(seconds),
{
    if seconds <= i64::MAX as u64 {
        seconds as i64
    } else {
        -((u64::MAX - seconds) as i64) - 1
    }
}

/// The step by which a claim moves an interval on: at least one second, so that
/// it always leads into the future.
pub open spec fn claim_step(seconds: u64) -> int {
    if step_of(seconds) < 1 {
        1
    } else {
        step_of(seconds)
    }
}

/// The step by which a claim moves an interval on.
fn claim_seconds(seconds: u64) -> (r: u64)
    ensures
        r == claim_step(seconds),
        r <= i64::MAX,
{
    if seconds < 1 || seconds > i64::MAX as u64 {
        1
    } else {
        seconds
    }
}

/// What an interval is counted from: the last run, or now.
pub open spec fn anchor(s: Schedule, now: Moment) -> Moment {
    match s.last_run_at {
        Some(t) => t,
        None => now,
    }
}

/// Whether a next run can be worked out for a schedule.
pub open spec fn can_arm(s: Schedule, now: Moment) -> bool {
    s.enabled ==> match s.kind {
        ScheduleKind::Cron { .. } => can_look_ahead(now),
        ScheduleKind::Interval { seconds } => in_calendar(anchor(s, now)) && can_step(
            anchor(s, now),
            step_of(seconds),
        ),
        ScheduleKind::FileWatch { .. } => true,
    }
}

/// Whether a schedule can be claimed now.
pub open spec fn can_claim(s: Schedule, now: Moment) -> bool {
    match s.kind {
        ScheduleKind::Cron { .. } => can_look_ahead(now),
        ScheduleKind::Interval { seconds } => in_calendar(now) && can_step(now, claim_step(seconds)),
        ScheduleKind::FileWatch { .. } => true,
    }
}

/// When a schedule runs next, once the next occurrence of its cron expression
/// is known. A disabled schedule and a file watch have no such time.
pub open spec fn next_run(s: Schedule, now: Moment, occurrence: Option<Moment>) -> Option<Moment> {
    if !s.enabled {
        None
    } else {
        match s.kind {
            ScheduleKind::Cron { .. } => occurrence,
            ScheduleKind::Interval { seconds } => Some(later(anchor(s, now), step_of(seconds))),
            ScheduleKind::FileWatch { .. } => None,
        }
    }
}

/// The time that claims a due schedule, counted from now whatever its last run.
pub open spec fn claimed_run(s: Schedule, now: Moment, occurrence: Option<Moment>) -> Option<Moment> {
    match s.kind {
        ScheduleKind::Cron { .. } => occurrence,
        ScheduleKind::Interval { seconds } => Some(later(now, claim_step(seconds))),
        ScheduleKind::FileWatch { .. } => None,
    }
}

/// What the next occurrence of a schedule's cron expression can be. Any other
/// schedule has none.
pub open spec fn possible(kind: ScheduleKind, now: Moment, occurrence: Option<Moment>) -> bool {
    match kind {
        ScheduleKind::Cron { expr } => upcoming(expr@, now, occurrence),
        _ => occurrence is None,
    }
}

/// Whether `t` is a schedule's next run, for some next occurrence of its cron
/// expression. A disabled schedule has none.
pub open spec fn arms(s: Schedule, now: Moment, t: Option<Moment>) -> bool {
    if !s.enabled {
        t is None
    } else {
        exists|occurrence: Option<Moment>|
            possible(s.kind, now, occurrence) && t == #[trigger] next_run(s, now, occurrence)
    }
}

/// Whether `t` claims a schedule, for some next occurrence of its cron
/// expression.
pub open spec fn claims(s: Schedule, now: Moment, t: Option<Moment>) -> bool {
    exists|occurrence: Option<Moment>|
        possible(s.kind, now, occurrence) && t == #[trigger] claimed_run(s, now, occurrence)
}

/// A schedule with that next run.
pub open spec fn with_next(s: Schedule, t: Option<Moment>) -> Schedule {
    Schedule { next_run_at: t, ..s }
}

/// Whether a next run can be worked out for a schedule.
pub fn arming_is_possible(s: &Schedule, now: Moment) -> (r: bool)
    ensures
        r == can_arm(*s, now),
{
    if !s.enabled {
        return true;
    }
    match &s.kind {
        ScheduleKind::Cron { .. } => can_look(now),
        ScheduleKind::Interval { seconds } => {
            let base = match s.last_run_at {
                Some(t) => t,
                None => now,
            };
            can_move(base, *seconds)
        },
        ScheduleKind::FileWatch { .. } => true,
    }
}

/// Whether a schedule can be claimed now.
pub fn claiming_is_possible(s: &Schedule, now: Moment) -> (r: bool)
    ensures
        r == can_claim(*s, now),
{
    match &s.kind {
        ScheduleKind::Cron { .. } => can_look(now),
        ScheduleKind::Interval { seconds } => can_move(now, claim_seconds(*seconds)),
        ScheduleKind::FileWatch { .. } => true,
    }
}

/// Whether a moment is one that the calendar has.
pub fn on_calendar(m: Moment) -> (r: bool)
    ensures
        r == in_calendar(m),
{
    if m.secs < FIRST_SECOND || m.secs > LAST_SECOND {
        return false;
    }
    if m.nanos < 1_000_000_000 {
        return true;
    }
    let past: i64 = m.secs - FIRST_SECOND;
    assert(FIRST_SECOND % 60 == 0);
    assert(past % 60 == m.secs % 60);
    m.nanos < 2_000_000_000 && past % 60 == 59
}

/// Whether occurrences can be looked for from here.
pub fn can_look(m: Moment) -> (r: bool)
    ensures
        r == can_look_ahead(m),
{
    on_calendar(m) && FIRST_SECOND + 200_000 <= m.secs && m.secs <= LAST_SECOND - 200_000
}

/// Whether the clock can be moved on from here by an interval.
pub fn can_move(m: Moment, seconds: u64) -> (r: bool)
    ensures
        r == (in_calendar(m) && can_step(m, step_of(seconds))),
{
    if !on_calendar(m) {
        return false;
    }
    let s = signed_step(seconds);
    if s < -LONGEST_STEP || s > LONGEST_STEP {
        return false;
    }
    let to: i64 = if m.nanos >= 1_000_000_000 && s < 0 {
        m.secs + 1 + s
    } else {
        m.secs + s
    };
    FIRST_SECOND <= to && to <= LAST_SECOND
}

/// Set when a schedule runs next, given the next occurrence of its cron
/// expression.
pub fn set_next_run(s: &mut Schedule, now: Moment, occurrence: Option<Moment>)
    requires
        can_arm(*old(s), now),
    ensures
        *final(s) == with_next(*old(s), next_run(*old(s), now, occurrence)),
{
    let next = if !s.enabled {
        None
    } else {
        match &s.kind {
            ScheduleKind::Cron { .. } => occurrence,
            ScheduleKind::Interval { seconds } => {
                let base = match s.last_run_at {
                    Some(t) => t,
                    None => now,
                };
                Some(plus_seconds(base, signed_step(*seconds)))
            },
            ScheduleKind::FileWatch { .. } => None,
        }
    };
    s.next_run_at = next;
}

/// Set the time that claims a schedule, given the next occurrence of its cron
/// expression.
pub fn set_claim(s: &mut Schedule, now: Moment, occurrence: Option<Moment>)
    requires
        can_claim(*old(s), now),
    ensures
        *final(s) == with_next(*old(s), claimed_run(*old(s), now, occurrence)),
        old(s).kind is Interval ==> final(s).next_run_at is Some && earlier(
            now,
            final(s).next_run_at->0,
        ),
{
    let next = match &s.kind {
        ScheduleKind::Cron { .. } => occurrence,
        ScheduleKind::Interval { seconds } => Some(plus_seconds(now, claim_seconds(*seconds) as i64)),
        ScheduleKind::FileWatch { .. } => None,
    };
    s.next_run_at = next;
}

/// The next occurrence of a schedule's cron expression, if it has one.
fn occurrence_for(kind: &ScheduleKind, now: Moment) -> (r: Option<Moment>)
    requires
        kind is Cron ==> can_look_ahead(now),
    ensures
        possible(*kind, now, r),
        r is Some ==> earlier(now, r->0),
{
    match kind {
        ScheduleKind::Cron { expr } => next_occurrence(expr.as_str(), now),
        ScheduleKind::Interval { .. } => None,
        ScheduleKind::FileWatch { .. } => None,
    }
}

/// Work out when a schedule runs next.
pub fn compute_next_run(s: &mut Schedule, now: Moment)
    requires
        can_arm(*old(s), now),
    ensures
        arms(*old(s), now, final(s).next_run_at),
        *final(s) == with_next(*old(s), final(s).next_run_at),
{
    if !s.enabled {
        set_next_run(s, now, None);
        return ;
    }
    let occurrence = occurrence_for(&s.kind, now);
    set_next_run(s, now, occurrence);
    assert(s.next_run_at == next_run(*old(s), now, occurrence));
}

/// Advance a schedule to its next time counted from now, to claim it at
/// dispatch so that the next poll cannot fire it again while it is running.
pub fn claim_next_run(s: &mut Schedule, now: Moment)
    requires
        can_claim(*old(s), now),
    ensures
        claims(*old(s), now, final(s).next_run_at),
        *final(s) == with_next(*old(s), final(s).next_run_at),
        final(s).next_run_at is Some ==> earlier(now, final(s).next_run_at->0),
{
    let occurrence = occurrence_for(&s.kind, now);
    set_claim(s, now, occurrence);
    assert(s.next_run_at == claimed_run(*old(s), now, occurrence));
}

// ---------------------------------------------------------------------------
// Changes to the list of schedules
// ---------------------------------------------------------------------------

/// `uuid::Uuid::new_v4`, written out. It is random; that it has 36 characters is
/// all that is claimed.
#[verifier::external_body]
fn fresh_id() -> (r: String)
    ensures
        r@.len() == 36,
{
    uuid::Uuid::new_v4().to_string()
}

/// What stands against a schedule's trigger, or nothing when it is in order. A
/// cron expression may have five fields, or a leading one for the seconds.
pub open spec fn refusal(kind: ScheduleKind) -> Option<Seq<char>> {
    match kind {
        ScheduleKind::Cron { expr } => if cron_refusal(expr@) is None || is_cron(expr@) {
            None
        } else {
            Some("Invalid cron expression: "@ + cron_refusal(expr@)->0)
        },
        ScheduleKind::Interval { seconds } => if seconds < 1 {
            Some("Interval must be at least 1 second"@)
        } else {
            None
        },
        ScheduleKind::FileWatch { path, .. } => if trimmed(path@).len() == 0 {
            Some("Watch path is required"@)
        } else {
            None
        },
    }
}

/// Check a schedule's trigger.
pub fn check_kind(kind: &ScheduleKind) -> (r: Result<(), String>)
    ensures
        match r {
            Ok(_) => refusal(*kind) is None,
            Err(e) => refusal(*kind) == Some(e@),
        },
{
    match kind {
        ScheduleKind::Cron { expr } => match cron_error(expr.as_str()) {
            Some(e) => if cron_is_valid(expr.as_str()) {
                Ok(())
            } else {
                Err(glue2("Invalid cron expression: ", e.as_str()))
            },
            None => Ok(()),
        },
        ScheduleKind::Interval { seconds } => if *seconds < 1 {
            Err("Interval must be at least 1 second".to_owned())
        } else {
            Ok(())
        },
        ScheduleKind::FileWatch { path, .. } => if is_blank(path.as_str()) {
            Err("Watch path is required".to_owned())
        } else {
            Ok(())
        },
    }
}

/// A schedule as it is saved.
pub open spec fn is_prepared(schedule: Schedule, now: Moment, r: Result<Schedule, String>) -> bool {
    match r {
        Ok(s) => {
            &&& refusal(schedule.kind) is None
            &&& s == (Schedule { id: s.id, next_run_at: s.next_run_at, ..schedule })
            &&& if schedule.id@.len() == 0 {
                s.id@.len() == 36
            } else {
                s.id == schedule.id
            }
            &&& arms(schedule, now, s.next_run_at)
        },
        Err(e) => refusal(schedule.kind) == Some(e@),
    }
}

/// A schedule about to be saved: checked, with an id of its own if it had none,
/// and with its next run worked out.
pub fn prepare(schedule: Schedule, now: Moment) -> (r: Result<Schedule, String>)
    requires
        can_arm(schedule, now),
    ensures
        is_prepared(schedule, now, r),
{
    match check_kind(&schedule.kind) {
        Err(e) => {
            return Err(e);
        },
        Ok(_) => {},
    }
    let ghost given = schedule;
    let mut s = schedule;
    if s.id.as_str().is_empty() {
        s.id = fresh_id();
    }
    let ghost named = s;
    compute_next_run(&mut s, now);
    proof {
        let occurrence = choose|occurrence: Option<Moment>|
            possible(named.kind, now, occurrence) && s.next_run_at == #[trigger] next_run(
                named,
                now,
                occurrence,
            );
        assert(next_run(given, now, occurrence) == next_run(named, now, occurrence));
    }
    Ok(s)
}

/// A saved schedule in place of the one that was there: its settings are the new
/// ones, its run history stays.
pub open spec fn merged(saved: Schedule, before: Schedule) -> Schedule {
    Schedule {
        last_run_at: before.last_run_at,
        last_run_status: before.last_run_status,
        last_run_duration_ms: before.last_run_duration_ms,
        last_run_error: before.last_run_error,
        ..saved
    }
}

/// A list with a schedule saved in it.
pub open spec fn with_saved(list: Seq<Schedule>, saved: Schedule) -> Seq<Schedule> {
    match place_of(list, saved.id@) {
        Some(i) => list.update(i, merged(saved, list[i])),
        None => list.push(saved),
    }
}

/// Save a schedule: in place of the one with its id, or behind the others.
pub fn put_schedule(list: &mut Vec<Schedule>, saved: &Schedule)
    ensures
        final(list)@ == with_saved(old(list)@, *saved),
{
    match find_schedule(list, saved.id.as_str()) {
        Some(i) => {
            let mut next = saved.copy();
            let before = &list[i];
            next.last_run_at = before.last_run_at;
            next.last_run_status = copy_opt(&before.last_run_status);
            next.last_run_duration_ms = before.last_run_duration_ms;
            next.last_run_error = copy_opt(&before.last_run_error);
            list.set(i, next);
        },
        None => {
            list.push(saved.copy());
        },
    }
}

/// Whether a schedule has another id.
pub open spec fn is_other(id: Seq<char>) -> spec_fn(Schedule) -> bool {
    |s: Schedule| s.id@ != id
}

/// Take every schedule with that id off the list.
pub fn remove_schedule(list: &mut Vec<Schedule>, id: &str)
    ensures
        final(list)@ == old(list)@.filter(is_other(id@)),
{
    let mut kept: Vec<Schedule> = Vec::new();
    let mut i: usize = 0;
    proof {
        reveal(Seq::filter);
        assert(list@.take(0).filter(is_other(id@)) == kept@);
    }
    while i < list.len()
        invariant
            i <= list@.len(),
            list@ == old(list)@,
            kept@ == list@.take(i as int).filter(is_other(id@)),
        decreases list@.len() - i,
    {
        reveal(Seq::filter);
        assert(list@.take(i + 1).drop_last() == list@.take(i as int));
        assert(list@.take(i + 1).last() == list@[i as int]);
        if !same(list[i].id.as_str(), id) {
            kept.push(list[i].copy());
        }
        i = i + 1;
    }
    assert(list@.take(i as int) == list@);
    *list = kept;
}

/// A schedule with a run recorded against it.
pub open spec fn with_run(s: Schedule, started: Moment, result: RunResult) -> Schedule {
    Schedule {
        last_run_at: Some(started),
        last_run_status: Some(result.status),
        last_run_duration_ms: Some(result.duration_ms),
        last_run_error: result.error,
        ..s
    }
}

/// Record a run against the schedule with that id, and work out its next run
/// from it. A schedule that is gone has nothing recorded.
pub fn record_run(list: &mut Vec<Schedule>, id: &str, started: Moment, result: &RunResult, now: Moment)
    requires
        match place_of(old(list)@, id@) {
            Some(i) => 0 <= i < old(list)@.len() ==> can_arm(
                with_run(old(list)@[i], started, *result),
                now,
            ),
            None => true,
        },
    ensures
        match place_of(old(list)@, id@) {
            Some(i) => {
                let ran = with_run(old(list)@[i], started, *result);
                &&& 0 <= i < final(list)@.len() == old(list)@.len()
                &&& arms(ran, now, final(list)@[i].next_run_at)
                &&& final(list)@ == old(list)@.update(i, with_next(ran, final(list)@[i].next_run_at))
            },
            None => final(list)@ == old(list)@,
        },
{
    match find_schedule(list, id) {
        Some(i) => {
            let mut s = list[i].copy();
            s.last_run_at = Some(started);
            s.last_run_status = Some(result.status.clone());
            s.last_run_duration_ms = Some(result.duration_ms);
            s.last_run_error = copy_opt(&result.error);
            compute_next_run(&mut s, now);
            list.set(i, s);
        },
        None => {},
    }
}

/// Whether a schedule is due.
pub open spec fn is_due(s: Schedule, now: Moment) -> bool {
    s.enabled && s.next_run_at is Some && !earlier(now, s.next_run_at->0)
}

/// Whether a schedule is due.
fn due(s: &Schedule, now: Moment) -> (r: bool)
    ensures
        r == is_due(*s, now),
{
    match s.next_run_at {
        Some(t) => s.enabled && !is_earlier(now, t),
        None => false,
    }
}

/// What a schedule locks when it fires: the pipeline, not the schedule record.
///
/// The pipeline owns the sink and the watermark, so it is the thing that must
/// not run twice.
pub fn lock_key(s: &Schedule) -> (r: &str)
    ensures
        r@ == s.pipeline_id@,
{
    s.pipeline_id.as_str()
}

/// A schedule that came due, and the pipeline it locks.
#[derive(Debug, Clone)]
pub struct Due {
    pub id: String,
    pub pipeline_id: String,
}

/// The schedules that are due.
pub open spec fn due_in(list: Seq<Schedule>, now: Moment) -> Seq<Schedule> {
    list.filter(|s: Schedule| is_due(s, now))
}

/// Whether `d` lists those schedules, one for one.
pub open spec fn lists_due(d: Seq<Due>, v: Seq<Schedule>) -> bool {
    &&& d.len() == v.len()
    &&& forall|i: int|
        0 <= i < d.len() ==> (#[trigger] d[i]).id == v[i].id && d[i].pipeline_id@ == v[i].pipeline_id@
}

/// Every schedule that is due, with the pipeline it locks.
pub fn due_schedules(list: &Vec<Schedule>, now: Moment) -> (r: Vec<Due>)
    ensures
        lists_due(r@, due_in(list@, now)),
{
    let mut r: Vec<Due> = Vec::new();
    let mut i: usize = 0;
    proof {
        reveal(Seq::filter);
        assert(due_in(list@.take(0), now).len() == 0);
    }
    while i < list.len()
        invariant
            i <= list@.len(),
            lists_due(r@, due_in(list@.take(i as int), now)),
        decreases list@.len() - i,
    {
        reveal(Seq::filter);
        assert(list@.take(i + 1).drop_last() == list@.take(i as int));
        assert(list@.take(i + 1).last() == list@[i as int]);
        if due(&list[i], now) {
            r.push(
                Due { id: list[i].id.clone(), pipeline_id: lock_key(&list[i]).to_owned() },
            );
        }
        i = i + 1;
    }
    assert(list@.take(i as int) == list@);
    r
}

/// Whether an id is among those that came due.
pub open spec fn among(d: Seq<Due>, id: Seq<char>) -> bool {
    exists|i: int| 0 <= i < d.len() && (#[trigger] d[i]).id@ == id
}

/// Whether an id is among those that came due.
fn is_among(d: &Vec<Due>, id: &str) -> (r: bool)
    ensures
        r == among(d@, id@),
{
    let mut i: usize = 0;
    while i < d.len()
        invariant
            i <= d@.len(),
            forall|j: int| 0 <= j < i ==> (#[trigger] d@[j]).id@ != id@,
        decreases d@.len() - i,
    {
        if same(d[i].id.as_str(), id) {
            return true;
        }
        i = i + 1;
    }
    false
}

/// Claim the schedules that came due, by advancing each to its next time. The
/// others stay as they are.
pub fn claim_schedules(list: &mut Vec<Schedule>, claimed: &Vec<Due>, now: Moment)
    requires
        forall|i: int|
            0 <= i < old(list)@.len() && among(claimed@, (#[trigger] old(list)@[i]).id@) ==> can_claim(
                old(list)@[i],
                now,
            ),
    ensures
        final(list)@.len() == old(list)@.len(),
        forall|i: int|
            0 <= i < old(list)@.len() ==> if among(claimed@, (#[trigger] old(list)@[i]).id@) {
                claims(old(list)@[i], now, final(list)@[i].next_run_at) && final(list)@[i] == with_next(
                    old(list)@[i],
                    final(list)@[i].next_run_at,
                )
            } else {
                final(list)@[i] == old(list)@[i]
            },
{
    let mut i: usize = 0;
    let ghost before = list@;
    while i < list.len()
        invariant
            i <= list@.len(),
            list@.len() == before.len(),
            forall|j: int|
                0 <= j < before.len() && among(claimed@, (#[trigger] before[j]).id@) ==> can_claim(
                    before[j],
                    now,
                ),
            forall|j: int| i <= j < before.len() ==> list@[j] == #[trigger] before[j],
            forall|j: int|
                0 <= j < i ==> if among(claimed@, (#[trigger] before[j]).id@) {
                    claims(before[j], now, list@[j].next_run_at) && list@[j] == with_next(
                        before[j],
                        list@[j].next_run_at,
                    )
                } else {
                    list@[j] == before[j]
                },
        decreases list@.len() - i,
    {
        assert(list@[i as int] == before[i as int]);
        if is_among(claimed, list[i].id.as_str()) {
            let mut s = list[i].copy();
            claim_next_run(&mut s, now);
            list.set(i, s);
        }
        i = i + 1;
    }
}

/// Work out the next run of every schedule on the list, or only of those that
/// have none.
pub fn arm_all(list: &mut Vec<Schedule>, only_missing: bool, now: Moment)
    requires
        forall|i: int|
            0 <= i < old(list)@.len() && (!only_missing || old(list)@[i].next_run_at is None)
                ==> can_arm(#[trigger] old(list)@[i], now),
    ensures
        final(list)@.len() == old(list)@.len(),
        forall|i: int|
            0 <= i < old(list)@.len() ==> if !only_missing || (#[trigger] old(list)@[i]).next_run_at is None {
                arms(old(list)@[i], now, final(list)@[i].next_run_at) && final(list)@[i] == with_next(
                    old(list)@[i],
                    final(list)@[i].next_run_at,
                )
            } else {
                final(list)@[i] == old(list)@[i]
            },
{
    let mut i: usize = 0;
    let ghost before = list@;
    while i < list.len()
        invariant
            i <= list@.len(),
            list@.len() == before.len(),
            forall|j: int|
                0 <= j < before.len() && (!only_missing || before[j].next_run_at is None) ==> can_arm(
                    #[trigger] before[j],
                    now,
                ),
            forall|j: int| i <= j < before.len() ==> list@[j] == #[trigger] before[j],
            forall|j: int|
                0 <= j < i ==> if !only_missing || (#[trigger] before[j]).next_run_at is None {
                    arms(before[j], now, list@[j].next_run_at) && list@[j] == with_next(
                        before[j],
                        list@[j].next_run_at,
                    )
                } else {
                    list@[j] == before[j]
                },
        decreases list@.len() - i,
    {
        assert(list@[i as int] == before[i as int]);
        if !only_missing || list[i].next_run_at.is_none() {
            let mut s = list[i].copy();
            compute_next_run(&mut s, now);
            list.set(i, s);
        }
        i = i + 1;
    }
}

// ---------------------------------------------------------------------------
// The scheduler of one process
// ---------------------------------------------------------------------------

/// A change to the store.
pub enum Change {
    /// Save a schedule.
    Put(Schedule),
    /// Delete the schedule with this id.
    Delete(String),
    /// Record a run of the schedule with this id.
    Record { id: String, started: Moment, result: RunResult },
    /// Claim what came due.
    Claim(Vec<Due>),
}

/// Whether a change can be made to a list now.
pub open spec fn can_change(change: Change, list: Seq<Schedule>, now: Moment) -> bool {
    match change {
        Change::Put(_) => true,
        Change::Delete(_) => true,
        Change::Record { id, started, result } => match place_of(list, id@) {
            Some(i) => 0 <= i < list.len() ==> can_arm(with_run(list[i], started, result), now),
            None => true,
        },
        Change::Claim(d) => forall|i: int|
            0 <= i < list.len() && among(d@, (#[trigger] list[i]).id@) ==> can_claim(list[i], now),
    }
}

/// Whether a change can be made to a list now.
pub fn change_is_possible(change: &Change, list: &Vec<Schedule>, now: Moment) -> (r: bool)
    ensures
        r == can_change(*change, list@, now),
{
    match change {
        Change::Put(_) => true,
        Change::Delete(_) => true,
        Change::Record { id, started, result } => match find_schedule(list, id.as_str()) {
            Some(i) => {
                let mut ran = list[i].copy();
                ran.last_run_at = Some(*started);
                let ghost full = with_run(list@[i as int], *started, *result);
                assert(can_arm(ran, now) == can_arm(full, now));
                arming_is_possible(&ran, now)
            },
            None => true,
        },
        Change::Claim(d) => {
            let mut i: usize = 0;
            while i < list.len()
                invariant
                    i <= list@.len(),
                    *change == Change::Claim(*d),
                    forall|j: int|
                        0 <= j < i && among(d@, (#[trigger] list@[j]).id@) ==> can_claim(
                            list@[j],
                            now,
                        ),
                decreases list@.len() - i,
            {
                if is_among(d, list[i].id.as_str()) && !claiming_is_possible(&list[i], now) {
                    return false;
                }
                i = i + 1;
            }
            true
        },
    }
}

/// What a change makes of a list.
pub open spec fn changed(change: Change, before: Seq<Schedule>, after: Seq<Schedule>, now: Moment) -> bool {
    match change {
        Change::Put(s) => after == with_saved(before, s),
        Change::Delete(id) => after == before.filter(is_other(id@)),
        Change::Record { id, started, result } => match place_of(before, id@) {
            Some(i) => {
                let ran = with_run(before[i], started, result);
                &&& 0 <= i < after.len() == before.len()
                &&& arms(ran, now, after[i].next_run_at)
                &&& after == before.update(i, with_next(ran, after[i].next_run_at))
            },
            None => after == before,
        },
        Change::Claim(d) => {
            &&& after.len() == before.len()
            &&& forall|i: int|
                0 <= i < before.len() ==> if among(d@, (#[trigger] before[i]).id@) {
                    claims(before[i], now, after[i].next_run_at) && after[i] == with_next(
                        before[i],
                        after[i].next_run_at,
                    )
                } else {
                    after[i] == before[i]
                }
        },
    }
}

/// Make a change to a list. On a shared store the list is the one on disk at
/// this moment, not a copy read earlier, so that what another process added in
/// between survives.
pub fn apply(change: &Change, list: &mut Vec<Schedule>, now: Moment)
    requires
        can_change(*change, old(list)@, now),
    ensures
        changed(*change, old(list)@, final(list)@, now),
{
    match change {
        Change::Put(s) => put_schedule(list, s),
        Change::Delete(id) => remove_schedule(list, id.as_str()),
        Change::Record { id, started, result } => record_run(list, id.as_str(), *started, result, now),
        Change::Claim(d) => claim_schedules(list, d, now),
    }
}

/// What one process knows of its schedules.
pub struct Scheduler {
    pub schedules: Vec<Schedule>,
    pub workspace_path: Option<String>,
    /// Why the store could not be read, when it could not be. Kept so the
    /// answer to "what are my schedules?" can be the truth rather than an empty
    /// list.
    pub load_error: Option<String>,
}

/// What to watch for a file-watch schedule.
#[derive(Debug, Clone)]
pub struct Watch {
    pub id: String,
    pub path: String,
    pub recursive: bool,
}

/// Whether a schedule is an enabled file watch.
pub open spec fn is_watch(s: Schedule) -> bool {
    s.enabled && s.kind is FileWatch
}

/// Whether `w` lists what to watch for those schedules, one for one.
pub open spec fn lists_watches(w: Seq<Watch>, v: Seq<Schedule>) -> bool {
    &&& w.len() == v.len()
    &&& forall|i: int|
        0 <= i < w.len() ==> {
            &&& (#[trigger] w[i]).id == v[i].id
            &&& v[i].kind == ScheduleKind::FileWatch { path: w[i].path, recursive: w[i].recursive }
        }
}

/// A schedule about to run, and the workspace it runs in.
#[derive(Debug)]
pub struct RunTarget {
    pub workspace: String,
    pub pipeline_id: String,
}

/// Whether this is what a run of the schedule called `id` would run.
pub open spec fn is_run_target(
    list: Seq<Schedule>,
    workspace: Option<String>,
    id: Seq<char>,
    r: Result<RunTarget, String>,
) -> bool {
    match place_of(list, id) {
        None => r matches Err(e) && e@ == "Schedule not found"@,
        Some(i) => match workspace {
            None => r matches Err(e) && e@ == "No workspace set for the scheduler"@,
            Some(w) => r matches Ok(t) && t.workspace == w && t.pipeline_id == list[i].pipeline_id,
        },
    }
}

/// What a fire of the schedule called `id` locks.
pub open spec fn locked_by(list: Seq<Schedule>, id: Seq<char>) -> Seq<char> {
    match place_of(list, id) {
        Some(i) => list[i].pipeline_id@,
        None => id,
    }
}

/// The answer to "may this process run that pipeline right now?".
#[derive(Debug, Clone, Copy, PartialEq, Eq, Structural)]
pub enum Claim {
    /// Yes, with a lock held.
    Held,
    /// Yes, and there is nothing on disk to lock.
    Unheld,
    /// No - another process is already running it.
    Taken,
}

/// Whether a pipeline may be run.
pub open spec fn is_claim(has_workspace: bool, locked: bool, r: Claim) -> bool {
    r == if !has_workspace {
        Claim::Unheld
    } else if locked {
        Claim::Held
    } else {
        Claim::Taken
    }
}

/// Ask for the exclusive right to run a pipeline, once it is known whether there
/// is a workspace and whether its lock could be taken. With no workspace there
/// is nothing for two processes to race over.
pub fn claim_run(has_workspace: bool, locked: bool) -> (r: Claim)
    ensures
        is_claim(has_workspace, locked, r),
{
    if !has_workspace {
        Claim::Unheld
    } else if locked {
        Claim::Held
    } else {
        Claim::Taken
    }
}

impl Scheduler {
    pub fn new() -> (r: Scheduler)
        ensures
            r.schedules@.len() == 0,
            r.workspace_path is None,
            r.load_error is None,
    {
        Scheduler { schedules: Vec::new(), workspace_path: None, load_error: None }
    }

    /// Take in what a read of the store gave; with no workspace there is no
    /// store. A store that could not be read leaves no schedules: this may be
    /// another workspace than the one the old ones came from, and firing those
    /// would be far worse than firing none.
    pub fn reload(&mut self, loaded: Result<Vec<Schedule>, String>, now: Moment)
        requires
            loaded matches Ok(list) ==> forall|i: int|
                0 <= i < list@.len() ==> can_arm(#[trigger] list@[i], now),
        ensures
            final(self).workspace_path == old(self).workspace_path,
            match old(self).workspace_path {
                None => final(self).schedules@.len() == 0 && final(self).load_error is None,
                Some(_) => match loaded {
                    Ok(list) => {
                        &&& final(self).load_error is None
                        &&& final(self).schedules@.len() == list@.len()
                        &&& forall|i: int|
                            0 <= i < list@.len() ==> arms(
                                #[trigger] list@[i],
                                now,
                                final(self).schedules@[i].next_run_at,
                            ) && final(self).schedules@[i] == with_next(
                                list@[i],
                                final(self).schedules@[i].next_run_at,
                            )
                    },
                    Err(e) => final(self).schedules@.len() == 0 && final(self).load_error == Some(e),
                },
            },
    {
        if self.workspace_path.is_none() {
            self.schedules = Vec::new();
            self.load_error = None;
            return ;
        }
        match loaded {
            Ok(mut list) => {
                arm_all(&mut list, false, now);
                self.schedules = list;
                self.load_error = None;
            },
            Err(e) => {
                self.schedules = Vec::new();
                self.load_error = Some(e);
            },
        }
    }

    /// Switch to another workspace, given what a read of its store gave.
    pub fn set_workspace(&mut self, path: Option<String>, loaded: Result<Vec<Schedule>, String>, now: Moment)
        requires
            loaded matches Ok(list) ==> forall|i: int|
                0 <= i < list@.len() ==> can_arm(#[trigger] list@[i], now),
        ensures
            final(self).workspace_path == path,
            match path {
                None => final(self).schedules@.len() == 0 && final(self).load_error is None,
                Some(_) => match loaded {
                    Ok(list) => {
                        &&& final(self).load_error is None
                        &&& final(self).schedules@.len() == list@.len()
                        &&& forall|i: int|
                            0 <= i < list@.len() ==> arms(
                                #[trigger] list@[i],
                                now,
                                final(self).schedules@[i].next_run_at,
                            ) && final(self).schedules@[i] == with_next(
                                list@[i],
                                final(self).schedules@[i].next_run_at,
                            )
                    },
                    Err(e) => final(self).schedules@.len() == 0 && final(self).load_error == Some(e),
                },
            },
    {
        self.workspace_path = path;
        self.reload(loaded, now);
    }

    /// Whether the store is to be read again before the schedules are listed.
    /// While it could not be read that is tried every time, so repairing the
    /// file is enough to recover.
    pub fn needs_reload(&self) -> (r: bool)
        ensures
            r == (self.load_error is Some),
    {
        self.load_error.is_some()
    }

    /// The schedules, or why the store could not be read.
    pub fn list(&self) -> (r: Result<Vec<Schedule>, String>)
        ensures
            match self.load_error {
                Some(e) => r == Err::<Vec<Schedule>, String>(e),
                None => r matches Ok(list) && list@ == self.schedules@,
            },
    {
        match &self.load_error {
            Some(e) => Err(e.clone()),
            None => {
                let mut out: Vec<Schedule> = Vec::new();
                let mut i: usize = 0;
                while i < self.schedules.len()
                    invariant
                        i <= self.schedules@.len(),
                        out@ == self.schedules@.take(i as int),
                    decreases self.schedules@.len() - i,
                {
                    out.push(self.schedules[i].copy());
                    assert(self.schedules@.take(i + 1) == self.schedules@.take(i as int).push(
                        self.schedules@[i as int],
                    ));
                    i = i + 1;
                }
                assert(self.schedules@.take(i as int) == self.schedules@);
                Ok(out)
            },
        }
    }

    /// Make a change in memory alone. With no workspace that is all there is to
    /// do.
    pub fn change_in_memory(&mut self, change: &Change, now: Moment)
        requires
            can_change(*change, old(self).schedules@, now),
        ensures
            changed(*change, old(self).schedules@, final(self).schedules@, now),
            final(self).workspace_path == old(self).workspace_path,
            final(self).load_error == old(self).load_error,
    {
        apply(change, &mut self.schedules, now);
    }

    /// Save a schedule in memory. A refused one changes nothing.
    pub fn upsert(&mut self, schedule: Schedule, now: Moment) -> (r: Result<Schedule, String>)
        requires
            can_arm(schedule, now),
        ensures
            final(self).workspace_path == old(self).workspace_path,
            final(self).load_error == old(self).load_error,
            match r {
                Ok(s) => {
                    &&& refusal(schedule.kind) is None
                    &&& s == (Schedule { id: s.id, next_run_at: s.next_run_at, ..schedule })
                    &&& if schedule.id@.len() == 0 {
                        s.id@.len() == 36
                    } else {
                        s.id == schedule.id
                    }
                    &&& arms(schedule, now, s.next_run_at)
                    &&& final(self).schedules@ == with_saved(old(self).schedules@, s)
                },
                Err(e) => refusal(schedule.kind) == Some(e@) && final(self).schedules@
                    == old(self).schedules@,
            },
    {
        let s = prepare(schedule, now)?;
        put_schedule(&mut self.schedules, &s);
        Ok(s)
    }

    /// Delete a schedule in memory.
    pub fn delete(&mut self, id: &str)
        ensures
            final(self).workspace_path == old(self).workspace_path,
            final(self).load_error == old(self).load_error,
            final(self).schedules@ == old(self).schedules@.filter(is_other(id@)),
    {
        remove_schedule(&mut self.schedules, id);
    }

    /// Adopt the list as it was written to the store. Next-run times that the
    /// list does not have are worked out; those it has stay.
    pub fn adopt(&mut self, written: Vec<Schedule>, now: Moment)
        requires
            forall|i: int|
                0 <= i < written@.len() && written@[i].next_run_at is None ==> can_arm(
                    #[trigger] written@[i],
                    now,
                ),
        ensures
            final(self).workspace_path == old(self).workspace_path,
            final(self).load_error is None,
            final(self).schedules@.len() == written@.len(),
            forall|i: int|
                0 <= i < written@.len() ==> if (#[trigger] written@[i]).next_run_at is None {
                    arms(written@[i], now, final(self).schedules@[i].next_run_at)
                        && final(self).schedules@[i] == with_next(
                        written@[i],
                        final(self).schedules@[i].next_run_at,
                    )
                } else {
                    final(self).schedules@[i] == written@[i]
                },
    {
        let mut list = written;
        arm_all(&mut list, true, now);
        self.schedules = list;
        self.load_error = None;
    }

    /// Every schedule that is due.
    pub fn claim_due(&self, now: Moment) -> (r: Vec<Due>)
        ensures
            lists_due(r@, due_in(self.schedules@, now)),
    {
        due_schedules(&self.schedules, now)
    }

    /// What to watch: one entry for each enabled file-watch schedule.
    pub fn watches(&self) -> (r: Vec<Watch>)
        ensures
            lists_watches(r@, self.schedules@.filter(|s: Schedule| is_watch(s))),
    {
        let mut r: Vec<Watch> = Vec::new();
        let mut i: usize = 0;
        proof {
            reveal(Seq::filter);
            assert(self.schedules@.take(0).filter(|s: Schedule| is_watch(s)).len() == 0);
        }
        while i < self.schedules.len()
            invariant
                i <= self.schedules@.len(),
                lists_watches(r@, self.schedules@.take(i as int).filter(|s: Schedule| is_watch(s))),
            decreases self.schedules@.len() - i,
        {
            let s = &self.schedules[i];
            reveal(Seq::filter);
            assert(self.schedules@.take(i + 1).drop_last() == self.schedules@.take(i as int));
            assert(self.schedules@.take(i + 1).last() == *s);
            if s.enabled {
                if let ScheduleKind::FileWatch { path, recursive } = &s.kind {
                    r.push(Watch { id: s.id.clone(), path: path.clone(), recursive: *recursive });
                }
            }
            i = i + 1;
        }
        assert(self.schedules@.take(i as int) == self.schedules@);
        r
    }

    /// The pipeline that a fire of this schedule locks. A schedule that vanished
    /// has nothing to lock but its own id.
    pub fn fire_key(&self, id: &str) -> (r: String)
        ensures
            r@ == locked_by(self.schedules@, id@),
    {
        match find_schedule(&self.schedules, id) {
            Some(i) => lock_key(&self.schedules[i]).to_owned(),
            None => id.to_owned(),
        }
    }

    /// What a run of this schedule would run, and where.
    pub fn run_target(&self, id: &str) -> (r: Result<RunTarget, String>)
        ensures
            is_run_target(self.schedules@, self.workspace_path, id@, r),
    {
        match find_schedule(&self.schedules, id) {
            None => Err("Schedule not found".to_owned()),
            Some(i) => match &self.workspace_path {
                None => Err("No workspace set for the scheduler".to_owned()),
                Some(w) => Ok(
                    RunTarget {
                        workspace: w.clone(),
                        pipeline_id: self.schedules[i].pipeline_id.clone(),
                    },
                ),
            },
        }
    }
}

// ---------------------------------------------------------------------------
// Laws
// ---------------------------------------------------------------------------

/// A save keeps the run history of the schedule it replaces, and gives it every
/// setting of the new one.
pub proof fn law_a_save_keeps_the_run_history(list: Seq<Schedule>, saved: Schedule)
    requires
        place_of(list, saved.id@) is Some,
    ensures
        ({
            let i = place_of(list, saved.id@)->0;
            let now = with_saved(list, saved)[i];
            &&& now.last_run_at == list[i].last_run_at
            &&& now.last_run_status == list[i].last_run_status
            &&& now.last_run_duration_ms == list[i].last_run_duration_ms
            &&& now.last_run_error == list[i].last_run_error
            &&& now.enabled == saved.enabled
            &&& now.kind == saved.kind
            &&& now.name == saved.name
            &&& now.pipeline_id == saved.pipeline_id
        }),
{
    lemma_place_of(list, saved.id@);
}

/// A save touches no schedule but its own: every other one stays where it is, as
/// it is, and no schedule is lost.
pub proof fn law_a_save_leaves_the_others_alone(list: Seq<Schedule>, saved: Schedule, j: int)
    requires
        0 <= j < list.len(),
        list[j].id@ != saved.id@,
    ensures
        with_saved(list, saved).len() >= list.len(),
        with_saved(list, saved)[j] == list[j],
{
    lemma_place_of(list, saved.id@);
}

/// What was saved is on the list.
pub proof fn law_a_saved_schedule_is_listed(list: Seq<Schedule>, saved: Schedule)
    ensures
        place_of(with_saved(list, saved), saved.id@) is Some,
{
    lemma_place_of(list, saved.id@);
    let after = with_saved(list, saved);
    lemma_place_of(after, saved.id@);
    match place_of(list, saved.id@) {
        Some(i) => {
            assert(after[i].id@ == saved.id@);
        },
        None => {
            assert(after[list.len() as int].id@ == saved.id@);
        },
    }
}

/// A delete takes off the list exactly what has that id.
pub proof fn law_a_delete_takes_only_its_own(list: Seq<Schedule>, id: Seq<char>, s: Schedule)
    ensures
        list.filter(is_other(id)).contains(s) <==> list.contains(s) && s.id@ != id,
{
    list.filter_lemma(is_other(id));
    let kept = list.filter(is_other(id));
    if kept.contains(s) {
        let i = choose|i: int| 0 <= i < kept.len() && kept[i] == s;
        assert(is_other(id)(kept[i]));
        lemma_filter_from(list, is_other(id), i);
    }
    if list.contains(s) && s.id@ != id {
        let i = choose|i: int| 0 <= i < list.len() && list[i] == s;
        assert(is_other(id)(list[i]));
    }
}

proof fn lemma_filter_from(list: Seq<Schedule>, p: spec_fn(Schedule) -> bool, i: int)
    requires
        0 <= i < list.filter(p).len(),
    ensures
        list.contains(list.filter(p)[i]),
    decreases list.len(),
{
    reveal(Seq::filter);
    if list.len() > 0 {
        let front = list.drop_last();
        if i < front.filter(p).len() {
            lemma_filter_from(front, p, i);
            let j = choose|j: int| 0 <= j < front.len() && front[j] == front.filter(p)[i];
            assert(list[j] == front[j]);
        } else {
            assert(list.filter(p)[i] == list.last());
            assert(list[list.len() - 1] == list.last());
        }
    }
}

/// A claimed schedule is not due again at the moment it was claimed, whatever its
/// kind: the next run it has, if any, is in the future, however long overdue it
/// was. An interval always has one.
pub proof fn law_a_claimed_schedule_is_not_due(s: Schedule, now: Moment, t: Option<Moment>)
    requires
        can_claim(s, now),
        claims(s, now, t),
    ensures
        !is_due(with_next(s, t), now),
        t is Some ==> earlier(now, t->0),
        s.kind is Interval ==> t is Some,
{
    let occurrence = choose|occurrence: Option<Moment>|
        possible(s.kind, now, occurrence) && t == #[trigger] claimed_run(s, now, occurrence);
    match s.kind {
        ScheduleKind::Cron { expr } => {
            if occurrence is Some {
                law_an_occurrence_is_in_the_future(expr@, now, occurrence);
            }
        },
        ScheduleKind::Interval { seconds } => {
            law_a_step_forward_is_later(now, claim_step(seconds));
        },
        ScheduleKind::FileWatch { .. } => {},
    }
}

/// Once what is due has been claimed, nothing is due: a second look at the same
/// moment finds no schedule.
pub proof fn law_what_was_claimed_is_not_found_again(
    before: Seq<Schedule>,
    after: Seq<Schedule>,
    claimed: Vec<Due>,
    now: Moment,
)
    requires
        lists_due(claimed@, due_in(before, now)),
        can_change(Change::Claim(claimed), before, now),
        changed(Change::Claim(claimed), before, after, now),
    ensures
        due_in(after, now) == Seq::<Schedule>::empty(),
{
    let wanted = |s: Schedule| is_due(s, now);
    assert forall|i: int| 0 <= i < after.len() implies !is_due(#[trigger] after[i], now) by {
        if among(claimed@, before[i].id@) {
            law_a_claimed_schedule_is_not_due(before[i], now, after[i].next_run_at);
        } else if is_due(before[i], now) {
            before.filter_lemma(wanted);
            let found = due_in(before, now);
            assert(wanted(before[i]));
            assert(found.contains(before[i]));
            let k = choose|k: int| 0 <= k < found.len() && found[k] == before[i];
            assert(claimed@[k].id == found[k].id);
        }
    }
    if due_in(after, now).len() > 0 {
        after.filter_lemma(wanted);
        assert(wanted(due_in(after, now)[0]));
        lemma_filter_from(after, wanted, 0);
    }
}

/// A claim survives a save of another schedule: the save does not touch the
/// claimed record, and when the saved list is adopted it keeps its time, or gets
/// one in the future if it has none. A claimed interval always has one.
pub proof fn law_an_unrelated_save_keeps_a_claim(
    list: Seq<Schedule>,
    saved: Schedule,
    adopted: Seq<Schedule>,
    j: int,
    now: Moment,
)
    requires
        0 <= j < list.len(),
        list[j].id@ != saved.id@,
        list[j].kind is Interval ==> list[j].next_run_at is Some,
        !is_due(list[j], now),
        adopted.len() == with_saved(list, saved).len(),
        forall|i: int|
            0 <= i < adopted.len() ==> {
                let s = #[trigger] with_saved(list, saved)[i];
                if s.next_run_at is Some {
                    adopted[i] == s
                } else {
                    arms(s, now, adopted[i].next_run_at) && adopted[i] == with_next(
                        s,
                        adopted[i].next_run_at,
                    )
                }
            },
    ensures
        list[j].next_run_at is Some ==> adopted[j] == list[j],
        !is_due(adopted[j], now),
{
    law_a_save_leaves_the_others_alone(list, saved, j);
    assert(with_saved(list, saved)[j] == list[j]);
    if list[j].next_run_at is None && list[j].enabled {
        let t = adopted[j].next_run_at;
        let occurrence = choose|occurrence: Option<Moment>|
            possible(list[j].kind, now, occurrence) && t == #[trigger] next_run(
                list[j],
                now,
                occurrence,
            );
        if let ScheduleKind::Cron { expr } = list[j].kind {
            if occurrence is Some {
                law_an_occurrence_is_in_the_future(expr@, now, occurrence);
            }
        }
    }
}

/// A disabled schedule is never due once its next run has been worked out.
pub proof fn law_a_disabled_schedule_never_fires(s: Schedule, now: Moment, t: Option<Moment>)
    requires
        !s.enabled,
        arms(s, now, t),
    ensures
        t is None,
        !is_due(with_next(s, t), now),
{
}

/// Two schedules of one pipeline lock the same thing, whatever their own ids
/// are.
pub proof fn law_one_pipeline_one_lock(list: Seq<Due>, v: Seq<Schedule>, i: int, j: int)
    requires
        lists_due(list, v),
        0 <= i < v.len(),
        0 <= j < v.len(),
        v[i].pipeline_id@ == v[j].pipeline_id@,
    ensures
        list[i].pipeline_id@ == list[j].pipeline_id@,
{
}

/// An enabled interval schedule runs next exactly its interval after its last
/// run, or after now when it never ran.
pub proof fn law_an_interval_runs_one_interval_on(
    s: Schedule,
    seconds: u64,
    from: Moment,
    now: Moment,
    next: Option<Moment>,
)
    requires
        s.enabled,
        s.kind == (ScheduleKind::Interval { seconds }),
        arms(s, now, next),
        from == match s.last_run_at {
            Some(t) => t,
            None => now,
        },
        seconds <= i64::MAX,
        from.secs + seconds < i64::MAX,
    ensures
        next is Some,
        next->0.secs == from.secs + seconds,
        from.nanos < 1_000_000_000 ==> next->0.nanos == from.nanos,
        from.nanos >= 1_000_000_000 && seconds > 0 ==> next->0.nanos == from.nanos - 1_000_000_000,
{
}

/// A schedule whose run was recorded is due again once its interval has passed
/// since the run started, and not before.
pub proof fn law_a_recorded_run_waits_its_interval(
    before: Seq<Schedule>,
    after: Seq<Schedule>,
    i: int,
    id: String,
    seconds: u64,
    started: Moment,
    result: RunResult,
    now: Moment,
    at: Moment,
)
    requires
        place_of(before, id@) == Some(i),
        before[i].kind == (ScheduleKind::Interval { seconds }),
        started.nanos < 1_000_000_000,
        seconds <= i64::MAX,
        started.secs + seconds < i64::MAX,
        changed(Change::Record { id, started, result }, before, after, now),
    ensures
        is_due(after[i], at) <==> before[i].enabled && (at.secs > started.secs + seconds || (at.secs
            == started.secs + seconds && at.nanos >= started.nanos)),
{
    lemma_place_of(before, id@);
    let ran = with_run(before[i], started, result);
    assert(after[i] == with_next(ran, after[i].next_run_at));
    if ran.enabled {
        law_an_interval_runs_one_interval_on(ran, seconds, started, now, after[i].next_run_at);
    }
}

/// A file watch has no time to run at, nor has anything that is disabled; an
/// enabled cron schedule runs at what comes up next for its expression.
pub proof fn law_who_runs_by_the_clock(s: Schedule, now: Moment, next: Option<Moment>)
    requires
        arms(s, now, next),
    ensures
        !s.enabled ==> next is None,
        s.kind is FileWatch ==> next is None,
        s.enabled ==> (s.kind matches ScheduleKind::Cron { expr } ==> upcoming(expr@, now, next)),
{
}

/// A claim moves an interval on to its length after now, at least a second,
/// whenever it last ran and whether or not it is enabled; a cron schedule goes on
/// to what comes up next, and a file watch is left without a time.
pub proof fn law_where_a_claim_moves_to(s: Schedule, now: Moment, next: Option<Moment>)
    requires
        claims(s, now, next),
        now.nanos < 1_000_000_000,
    ensures
        s.kind is FileWatch ==> next is None,
        s.kind matches ScheduleKind::Cron { expr } ==> upcoming(expr@, now, next),
        s.kind matches ScheduleKind::Interval { seconds } ==> (1 <= seconds <= i64::MAX && now.secs
            + seconds < i64::MAX ==> next == Some(
            Moment { secs: (now.secs + seconds) as i64, nanos: now.nanos },
        )),
        s.kind == (ScheduleKind::Interval { seconds: 0 }) && now.secs < i64::MAX ==> next == Some(
            Moment { secs: (now.secs + 1) as i64, nanos: now.nanos },
        ),
{
}

/// Whatever lies in the years that schedules live in can be armed and claimed.
pub proof fn law_a_living_schedule_can_be_armed(s: Schedule, now: Moment)
    requires
        now.nanos < 1_000_000_000,
        -8_000_000_000_000 <= now.secs <= 8_000_000_000_000,
        s.last_run_at matches Some(t) ==> t.nanos < 1_000_000_000 && -8_000_000_000_000 <= t.secs
            <= 8_000_000_000_000,
        s.kind matches ScheduleKind::Interval { seconds } ==> seconds <= 200_000_000_000,
    ensures
        can_arm(s, now),
        can_claim(s, now),
{
}

/// What is due is what is enabled and has a next run that has come, all of it and
/// nothing else, in the order of the list.
pub proof fn law_what_is_due(list: Seq<Schedule>, now: Moment, i: int)
    requires
        0 <= i < list.len(),
    ensures
        due_in(list, now).contains(list[i]) <==> list[i].enabled && (list[i].next_run_at matches Some(t)
            && (t.secs < now.secs || (t.secs == now.secs && t.nanos <= now.nanos))),
        forall|s: Schedule| #[trigger]
            due_in(list, now).contains(s) ==> list.contains(s),
        due_in(list.take(i), now).len() <= due_in(list, now).len(),
{
    let wanted = |s: Schedule| is_due(s, now);
    list.filter_lemma(wanted);
    let found = due_in(list, now);
    if found.contains(list[i]) {
        let k = choose|k: int| 0 <= k < found.len() && found[k] == list[i];
        assert(wanted(found[k]));
    }
    if is_due(list[i], now) {
        assert(wanted(list[i]));
    }
    assert forall|s: Schedule| #[trigger] found.contains(s) implies list.contains(s) by {
        let k = choose|k: int| 0 <= k < found.len() && found[k] == s;
        lemma_filter_from(list, wanted, k);
    }
    lemma_filter_of_a_start(list, wanted, i);
}

/// What a filter keeps of the first items of a list comes first in what it keeps.
proof fn lemma_filter_of_a_start(list: Seq<Schedule>, p: spec_fn(Schedule) -> bool, i: int)
    requires
        0 <= i <= list.len(),
    ensures
        list.take(i).filter(p).len() <= list.filter(p).len(),
        list.filter(p).take(list.take(i).filter(p).len() as int) == list.take(i).filter(p),
    decreases list.len() - i,
{
    reveal(Seq::filter);
    if i < list.len() {
        lemma_filter_of_a_start(list, p, i + 1);
        let more = list.take(i + 1);
        assert(more.drop_last() == list.take(i));
        let a = list.take(i).filter(p);
        let b = more.filter(p);
        assert(b.take(a.len() as int) == a);
        assert(list.filter(p).take(b.len() as int).take(a.len() as int) == list.filter(p).take(
            a.len() as int,
        ));
    } else {
        assert(list.take(i) == list);
        assert(list.filter(p).take(list.filter(p).len() as int) == list.filter(p));
    }
}

/// Due schedules are listed in the order in which they stand.
pub proof fn law_due_schedules_keep_their_order(list: Seq<Schedule>, now: Moment, i: int)
    requires
        0 <= i <= list.len(),
    ensures
        due_in(list.take(i), now) == due_in(list, now).take(due_in(list.take(i), now).len() as int),
{
    lemma_filter_of_a_start(list, |s: Schedule| is_due(s, now), i);
}

/// Recording a run says how it went, and touches nothing else but when the
/// schedule runs next. Nothing is recorded for a schedule that is gone.
pub proof fn law_a_recorded_run_is_shown(
    before: Seq<Schedule>,
    after: Seq<Schedule>,
    id: String,
    started: Moment,
    result: RunResult,
    now: Moment,
    j: int,
)
    requires
        changed(Change::Record { id, started, result }, before, after, now),
        0 <= j < before.len(),
    ensures
        after.len() == before.len(),
        before[j].id@ != id@ ==> after[j] == before[j],
        before[j].id@ == id@ && (forall|k: int|
            0 <= k < before.len() && k != j ==> (#[trigger] before[k]).id@ != id@) ==> {
            &&& after[j].last_run_at == Some(started)
            &&& after[j].last_run_status == Some(result.status)
            &&& after[j].last_run_duration_ms == Some(result.duration_ms)
            &&& after[j].last_run_error == result.error
            &&& after[j].id == before[j].id
            &&& after[j].pipeline_id == before[j].pipeline_id
            &&& after[j].name == before[j].name
            &&& after[j].enabled == before[j].enabled
            &&& after[j].kind == before[j].kind
        },
{
    lemma_place_of(before, id@);
}

/// A claim touches what was claimed and nothing else, and of that only when it
/// runs next.
pub proof fn law_a_claim_touches_only_its_own(
    before: Seq<Schedule>,
    after: Seq<Schedule>,
    claimed: Vec<Due>,
    now: Moment,
    j: int,
)
    requires
        changed(Change::Claim(claimed), before, after, now),
        0 <= j < before.len(),
    ensures
        after.len() == before.len(),
        (forall|k: int| 0 <= k < claimed@.len() ==> (#[trigger] claimed@[k]).id@ != before[j].id@)
            ==> after[j] == before[j],
        (exists|k: int| 0 <= k < claimed@.len() && (#[trigger] claimed@[k]).id@ == before[j].id@)
            ==> claims(before[j], now, after[j].next_run_at),
        after[j].id == before[j].id,
        after[j].enabled == before[j].enabled,
        after[j].kind == before[j].kind,
        after[j].last_run_at == before[j].last_run_at,
        after[j].pipeline_id == before[j].pipeline_id,
        after[j].name == before[j].name,
        after[j].last_run_status == before[j].last_run_status,
        after[j].last_run_duration_ms == before[j].last_run_duration_ms,
        after[j].last_run_error == before[j].last_run_error,
{
}

/// What is due is handed over by its own id and pipeline.
pub proof fn law_due_is_handed_over_by_name(d: Seq<Due>, list: Seq<Schedule>, now: Moment, i: int)
    requires
        lists_due(d, due_in(list, now)),
        0 <= i < d.len(),
    ensures
        d.len() == due_in(list, now).len(),
        d[i].id@ == due_in(list, now)[i].id@,
        d[i].pipeline_id@ == due_in(list, now)[i].pipeline_id@,
        exists|j: int|
            0 <= j < list.len() && (#[trigger] list[j]).id@ == d[i].id@ && list[j].pipeline_id@
                == d[i].pipeline_id@ && list[j].enabled,
{
    let wanted = |s: Schedule| is_due(s, now);
    let found = due_in(list, now);
    list.filter_lemma(wanted);
    assert(wanted(found[i]));
    lemma_filter_from(list, wanted, i);
    let j = choose|j: int| 0 <= j < list.len() && list[j] == found[i];
    assert(list[j].enabled);
}

/// A new schedule goes to the end of the list, with all that was saved of it; one
/// that is known stays in its place and gets the time it was saved with.
pub proof fn law_where_a_save_goes(list: Seq<Schedule>, saved: Schedule, i: int)
    ensures
        (forall|k: int| 0 <= k < list.len() ==> (#[trigger] list[k]).id@ != saved.id@) ==> with_saved(
            list,
            saved,
        ) == list.push(saved),
        0 <= i < list.len() && list[i].id@ == saved.id@ && (forall|k: int|
            0 <= k < i ==> (#[trigger] list[k]).id@ != saved.id@) ==> {
            &&& with_saved(list, saved).len() == list.len()
            &&& with_saved(list, saved)[i].id == saved.id
            &&& with_saved(list, saved)[i].next_run_at == saved.next_run_at
        },
{
    lemma_place_of(list, saved.id@);
}

/// What is refused of a trigger: an interval of no length, a watch of no path,
/// and a cron expression that is none as it stands nor with its seconds put in.
pub proof fn law_what_is_refused(kind: ScheduleKind)
    ensures
        kind matches ScheduleKind::Interval { seconds } ==> (refusal(kind) is None <==> seconds >= 1),
        kind == (ScheduleKind::Interval { seconds: 0 }) ==> refusal(kind) == Some(
            "Interval must be at least 1 second"@,
        ),
        kind matches ScheduleKind::FileWatch { path, recursive } ==> (refusal(kind) is Some <==> forall|
            i: int,
        |
            0 <= i < path@.len() ==> is_white_space(#[trigger] path@[i])),
        kind matches ScheduleKind::FileWatch { path, recursive } ==> refusal(kind) is None
            || refusal(kind) == Some("Watch path is required"@),
        kind matches ScheduleKind::Cron { expr } ==> (refusal(kind) is None <==> cron_refusal(expr@) is None
            || is_cron(expr@)),
        kind matches ScheduleKind::Cron { expr } ==> refusal(kind) is None || refusal(kind) == Some(
            "Invalid cron expression: "@ + cron_refusal(expr@)->0,
        ),
{
    if let ScheduleKind::FileWatch { path, recursive } = kind {
        law_trimmed_to_nothing(path@);
    }
}

/// A setting counts when it is a positive number within its limit, and anything
/// else leaves the default.
pub proof fn law_a_setting_has_to_be_positive(n: nat, limit: nat, default: nat)
    ensures
        positive_or(None, limit, default) == default,
        positive_or(Some(decimal(n)), limit, default) == if 0 < n <= limit {
            n
        } else {
            default
        },
{
    law_decimal_reads_back(n);
}

/// The watches are those of the enabled file-watch schedules.
pub proof fn law_what_is_watched(s: Schedule)
    ensures
        is_watch(s) <==> s.enabled && (s.kind matches ScheduleKind::FileWatch { path, recursive }),
{
}

/// A pipeline may be run where there is nothing to lock, or where its lock was
/// taken, and not while another process has it.
pub proof fn law_when_a_pipeline_may_run(has_workspace: bool, locked: bool, r: Claim)
    requires
        is_claim(has_workspace, locked, r),
    ensures
        has_workspace && !locked <==> r == Claim::Taken,
        has_workspace && locked <==> r == Claim::Held,
        !has_workspace <==> r == Claim::Unheld,
{
}

/// A schedule that is not refused is saved as it was given, with its next run
/// worked out, and under an id of its own where it came without one.
pub proof fn law_what_is_saved(schedule: Schedule, now: Moment, r: Result<Schedule, String>)
    requires
        is_prepared(schedule, now, r),
    ensures
        r is Ok <==> refusal(schedule.kind) is None,
        r matches Err(e) ==> refusal(schedule.kind) == Some(e@),
        r matches Ok(s) ==> {
            &&& s.pipeline_id == schedule.pipeline_id
            &&& s.name == schedule.name
            &&& s.enabled == schedule.enabled
            &&& s.kind == schedule.kind
            &&& s.last_run_at == schedule.last_run_at
            &&& s.last_run_status == schedule.last_run_status
            &&& s.last_run_duration_ms == schedule.last_run_duration_ms
            &&& s.last_run_error == schedule.last_run_error
            &&& schedule.id@.len() > 0 ==> s.id@ == schedule.id@
            &&& schedule.id@.len() == 0 ==> s.id@.len() == 36
            &&& arms(schedule, now, s.next_run_at)
        },
{
}

/// Each watch is listed under the id of its schedule, with its path and with
/// whether folders below are watched too.
pub proof fn law_how_a_watch_is_listed(w: Seq<Watch>, v: Seq<Schedule>, s: Schedule)
    requires
        lists_watches(w, v.filter(|s: Schedule| is_watch(s))),
        v.contains(s),
    ensures
        s.enabled && s.kind is FileWatch ==> (s.kind matches ScheduleKind::FileWatch { path, recursive }
            && exists|i: int|
            0 <= i < w.len() && (#[trigger] w[i]).id@ == s.id@ && w[i].path@ == path@ && w[i].recursive
                == recursive),
{
    let keep = |s: Schedule| is_watch(s);
    if is_watch(s) {
        let k = choose|k: int| 0 <= k < v.len() && v[k] == s;
        v.lemma_filter_contains(keep, k);
        let i = choose|i: int| 0 <= i < v.filter(keep).len() && v.filter(keep)[i] == s;
        assert(w[i].id == s.id);
    }
}

/// A run of a schedule runs the pipeline of the first schedule with that id, in
/// the workspace that is set, and locks that pipeline. Without such a schedule
/// or a workspace nothing is run.
pub proof fn law_what_a_schedule_runs(
    list: Seq<Schedule>,
    workspace: Option<String>,
    id: Seq<char>,
    i: int,
    r: Result<RunTarget, String>,
)
    requires
        is_run_target(list, workspace, id, r),
    ensures
        0 <= i < list.len() && list[i].id@ == id && (forall|j: int|
            0 <= j < i ==> (#[trigger] list[j]).id@ != id) ==> {
            &&& locked_by(list, id) == list[i].pipeline_id@
            &&& workspace matches Some(w) ==> (r matches Ok(t) && t.workspace@ == w@ && t.pipeline_id@
                == list[i].pipeline_id@)
            &&& workspace is None ==> (r matches Err(e) && e@ == "No workspace set for the scheduler"@)
        },
        (forall|j: int| 0 <= j < list.len() ==> (#[trigger] list[j]).id@ != id) ==> {
            &&& locked_by(list, id) == id
            &&& (r matches Err(e) && e@ == "Schedule not found"@)
        },
{
    lemma_place_of(list, id);
}

} // verus!
