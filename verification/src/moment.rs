//! Points in time, and the times that a cron expression names.
use crate::text::{glue2, split_words, text_opt, texts, words};
use chrono::{DateTime, Local, Utc};
use std::str::FromStr;
use vstd::prelude::*;
use vstd::string::*;

verus! {

/// A point in time: seconds since the start of 1970 in UTC, and nanoseconds
/// within the second. In a leap second the nanoseconds run on past one second.
#[derive(Debug, Clone, Copy, PartialEq, Eq, Structural)]
pub struct Moment {
    pub secs: i64,
    pub nanos: u32,
}

/// The first second of the calendar.
pub const FIRST_SECOND: i64 = -8_334_601_228_800;

/// The last second of the calendar.
pub const LAST_SECOND: i64 = 8_210_266_876_799;

/// The longest step that a clock can be moved by, in seconds.
pub const LONGEST_STEP: i64 = 9_223_372_036_854_775;

/// Whether a moment is one that the calendar has.
pub open spec fn in_calendar(m: Moment) -> bool {
    &&& FIRST_SECOND <= m.secs <= LAST_SECOND
    &&& m.nanos < 1_000_000_000 || (m.nanos < 2_000_000_000 && m.secs % 60 == 59)
}

/// Whether `a` is before `b`.
pub open spec fn earlier(a: Moment, b: Moment) -> bool {
    a.secs < b.secs || (a.secs == b.secs && a.nanos < b.nanos)
}

/// Where `s` seconds after `m` stands. A step out of a leap second starts at its
/// end that lies the way of the step.
pub open spec fn later_secs(m: Moment, s: int) -> int {
    if m.nanos >= 1_000_000_000 && s < 0 {
        m.secs + 1 + s
    } else {
        m.secs + s
    }
}

/// The moment `s` seconds after `m`.
pub open spec fn later(m: Moment, s: int) -> Moment {
    Moment {
        secs: later_secs(m, s) as i64,
        nanos: if m.nanos >= 1_000_000_000 && s != 0 {
            (m.nanos - 1_000_000_000) as u32
        } else {
            m.nanos
        },
    }
}

/// Whether the clock can be moved from `m` by `s` seconds.
pub open spec fn can_step(m: Moment, s: int) -> bool {
    &&& -LONGEST_STEP <= s <= LONGEST_STEP
    &&& FIRST_SECOND <= later_secs(m, s) <= LAST_SECOND
}

/// Whether `a` is before `b`.
pub fn is_earlier(a: Moment, b: Moment) -> (r: bool)
    ensures
        r == earlier(a, b),
{
    a.secs < b.secs || (a.secs == b.secs && a.nanos < b.nanos)
}

/// The moment `s` seconds after `m`.
pub fn plus_seconds(m: Moment, s: i64) -> (r: Moment)
    requires
        in_calendar(m),
        can_step(m, s as int),
    ensures
        r == later(m, s as int),
        in_calendar(r),
{
    if m.nanos >= 1_000_000_000 {
        if s > 0 {
            Moment { secs: m.secs + s, nanos: m.nanos - 1_000_000_000 }
        } else if s < 0 {
            Moment { secs: m.secs + 1 + s, nanos: m.nanos - 1_000_000_000 }
        } else {
            m
        }
    } else {
        Moment { secs: m.secs + s, nanos: m.nanos }
    }
}

/// A step forward leads to a later moment.
pub proof fn law_a_step_forward_is_later(m: Moment, s: int)
    requires
        in_calendar(m),
        can_step(m, s),
        s > 0,
    ensures
        earlier(m, later(m, s)),
{
}

/// One moment is before another, after it, or the same.
pub proof fn law_moments_are_ordered(a: Moment, b: Moment, c: Moment)
    ensures
        earlier(a, b) || earlier(b, a) || a == b,
        !(earlier(a, b) && earlier(b, a)),
        !earlier(a, a),
        earlier(a, b) && earlier(b, c) ==> earlier(a, c),
{
}

// ---------------------------------------------------------------------------
// Cron
// ---------------------------------------------------------------------------

/// What the cron parser has against an expression, or nothing when it takes it.
pub uninterp spec fn cron_refusal(expr: Seq<char>) -> Option<Seq<char>>;

/// `cron::Schedule::from_str`, as far as whether it takes the expression and what
/// it says when it does not. The result is named.
#[verifier::external_body]
fn read_cron(expr: &str) -> (r: Option<String>)
    ensures
        text_opt(r) == cron_refusal(expr@),
{
    match cron::Schedule::from_str(expr) {
        Ok(_) => None,
        Err(e) => Some(e.to_string()),
    }
}

/// The first `count` times that an expression names after a moment, in a time
/// zone. The zones are numbered; which number the machine's has is not known.
pub uninterp spec fn occurrences_in(
    expr: Seq<char>,
    after: Moment,
    count: int,
    zone: int,
) -> Seq<Moment>;

/// `cron::Schedule::after` from a moment taken in the machine's time zone, and
/// the first times it gives. They are named, with the time zone as an argument of
/// the name. Each is a whole second in one of the years 1970 to 2100 of local
/// time. On the local clock they are after the moment; where clocks go back, the
/// earlier of two readings of one local time can still lie before it, and comes
/// first.
#[verifier::external_body]
fn first_after(expr: &str, after: Moment, count: usize) -> (r: Vec<Moment>)
    requires
        cron_refusal(expr@) is None,
        can_look_ahead(after),
    ensures
        exists|zone: int| r@ == #[trigger] occurrences_in(expr@, after, count as int, zone),
        r@.len() <= count,
        forall|i: int| 0 <= i < r@.len() ==> is_occurrence(#[trigger] r@[i]),
{
    let at = DateTime::<Utc>::from_timestamp(after.secs, after.nanos).unwrap_or_default();
    match cron::Schedule::from_str(expr) {
        Ok(s) => s
            .after(&at.with_timezone(&Local))
            .take(count)
            .map(|t| Moment { secs: t.timestamp(), nanos: t.timestamp_subsec_nanos() })
            .collect(),
        Err(_) => Vec::new(),
    }
}

/// An expression with a field for the seconds: five fields get a leading `0`,
/// six or seven stay, and any other number is none.
pub open spec fn normalized(expr: Seq<char>) -> Option<Seq<char>> {
    let n = words(expr).len();
    if n == 5 {
        Some("0 "@ + expr)
    } else if n == 6 || n == 7 {
        Some(expr)
    } else {
        None
    }
}

/// Accept a standard five-field cron ("min hour dom mon dow") by prepending a
/// `0` seconds field; pass a six- or seven-field expression through. None for
/// any other field count, so a malformed expression is rejected rather than
/// silently ignored.
pub fn normalize_cron(expr: &str) -> (r: Option<String>)
    ensures
        text_opt(r) == normalized(expr@),
{
    let fields = split_words(expr);
    assert(texts(fields@).len() == fields@.len());
    let n: usize = fields.len();
    if n == 5 {
        Some(glue2("0 ", expr))
    } else if n == 6 || n == 7 {
        Some(expr.to_owned())
    } else {
        None
    }
}

/// Whether an expression can be evaluated at all.
pub open spec fn is_cron(expr: Seq<char>) -> bool {
    match normalized(expr) {
        Some(e) => cron_refusal(e) is None,
        None => false,
    }
}

/// Whether an expression can be evaluated at all.
pub fn cron_is_valid(expr: &str) -> (r: bool)
    ensures
        r == is_cron(expr@),
{
    match normalize_cron(expr) {
        Some(e) => read_cron(e.as_str()).is_none(),
        None => false,
    }
}

/// What the cron parser has against an expression as it is written.
pub fn cron_error(expr: &str) -> (r: Option<String>)
    ensures
        text_opt(r) == cron_refusal(expr@),
{
    read_cron(expr)
}

/// Whether occurrences can be looked for from here.
pub open spec fn can_look_ahead(m: Moment) -> bool {
    in_calendar(m) && FIRST_SECOND + 200_000 <= m.secs <= LAST_SECOND - 200_000
}

/// Whether a moment is a time that a cron expression can name.
pub open spec fn is_occurrence(t: Moment) -> bool {
    in_calendar(t) && t.nanos == 0 && -86_400 <= t.secs <= 4_134_067_200
}

/// The first of some times that is after a moment.
pub open spec fn first_future(times: Seq<Moment>, now: Moment) -> Option<Moment>
    decreases times.len(),
{
    if times.len() == 0 {
        None
    } else if earlier(now, times[0]) {
        Some(times[0])
    } else {
        first_future(times.drop_first(), now)
    }
}

/// The first of some times that is after a moment.
pub fn pick_future(times: &Vec<Moment>, now: Moment) -> (r: Option<Moment>)
    ensures
        r == first_future(times@, now),
        r is Some ==> times@.contains(r->0) && earlier(now, r->0),
{
    let mut i: usize = 0;
    assert(times@.skip(0) == times@);
    while i < times.len()
        invariant
            i <= times@.len(),
            first_future(times@.skip(i as int), now) == first_future(times@, now),
        decreases times@.len() - i,
    {
        let t = times[i];
        if is_earlier(now, t) {
            assert(times@.contains(t));
            return Some(t);
        }
        assert(times@.skip(i as int).drop_first() == times@.skip(i + 1));
        i = i + 1;
    }
    None
}

/// How many times are looked at to find one in the future. A local time is read
/// twice at most, so of two, one is.
pub const READINGS: usize = 2;

/// The next occurrence of an expression after a moment, in a time zone. A time
/// that the clock shows a second time after it was put back is passed over where
/// its first reading has gone by.
pub open spec fn next_in(expr: Seq<char>, now: Moment, zone: int) -> Option<Moment> {
    first_future(occurrences_in(expr, now, READINGS as int, zone), now)
}

/// Whether this is the next occurrence of an expression, in some time zone. An
/// expression that cannot be evaluated has none.
pub open spec fn upcoming(expr: Seq<char>, now: Moment, occurrence: Option<Moment>) -> bool {
    if is_cron(expr) {
        &&& exists|zone: int| occurrence == #[trigger] next_in(normalized(expr)->0, now, zone)
        &&& occurrence is Some ==> is_occurrence(occurrence->0)
    } else {
        occurrence is None
    }
}

/// The next occurrence of an expression, in the machine's local time. Which one
/// it is rests on the time zone; an expression that cannot be evaluated has
/// none. It is after the moment.
pub fn next_occurrence(expr: &str, after: Moment) -> (r: Option<Moment>)
    requires
        can_look_ahead(after),
    ensures
        upcoming(expr@, after, r),
        r is Some ==> earlier(after, r->0),
{
    match normalize_cron(expr) {
        Some(e) => {
            if read_cron(e.as_str()).is_some() {
                return None;
            }
            let times = first_after(e.as_str(), after, READINGS);
            let r = pick_future(&times, after);
            proof {
                let zone = choose|zone: int|
                    times@ == #[trigger] occurrences_in(e@, after, READINGS as int, zone);
                assert(r == next_in(e@, after, zone));
            }
            r
        },
        None => None,
    }
}

/// The next occurrence of an expression is after the moment it was looked for
/// from, whatever the time zone.
pub proof fn law_an_occurrence_is_in_the_future(
    expr: Seq<char>,
    now: Moment,
    occurrence: Option<Moment>,
)
    requires
        upcoming(expr, now, occurrence),
        occurrence is Some,
    ensures
        earlier(now, occurrence->0),
{
    let zone = choose|zone: int| occurrence == #[trigger] next_in(normalized(expr)->0, now, zone);
    lemma_first_future(occurrences_in(normalized(expr)->0, now, READINGS as int, zone), now);
}

proof fn lemma_first_future(times: Seq<Moment>, now: Moment)
    ensures
        first_future(times, now) is Some ==> earlier(now, first_future(times, now)->0),
    decreases times.len(),
{
    if times.len() > 0 {
        lemma_first_future(times.drop_first(), now);
    }
}

/// A six- or seven-field expression is evaluated as it is written.
pub proof fn law_full_expressions_pass_through(expr: Seq<char>)
    requires
        words(expr).len() == 6 || words(expr).len() == 7,
    ensures
        normalized(expr) == Some(expr),
{
}

// ---------------------------------------------------------------------------
// Written times
// ---------------------------------------------------------------------------

/// The moment that an RFC 3339 text names, unless it is none.
pub uninterp spec fn rfc3339_in(text: Seq<char>) -> Option<Moment>;

/// A moment written in RFC 3339, in UTC.
pub uninterp spec fn rfc3339_text(m: Moment) -> Seq<char>;

/// `DateTime::parse_from_rfc3339`, taken in UTC. The result is named; it is a
/// moment of the calendar.
#[verifier::external_body]
pub(crate) fn read_rfc3339(text: &str) -> (r: Option<Moment>)
    ensures
        r == rfc3339_in(text@),
        r is Some ==> in_calendar(r->0),
{
    match DateTime::parse_from_rfc3339(text) {
        Ok(t) => Some(Moment { secs: t.timestamp(), nanos: t.timestamp_subsec_nanos() }),
        Err(_) => None,
    }
}

/// `DateTime::to_rfc3339` of a moment in UTC. The result is named.
#[verifier::external_body]
pub(crate) fn utc_text(m: Moment) -> (r: String)
    requires
        in_calendar(m),
    ensures
        r@ == rfc3339_text(m),
{
    DateTime::<Utc>::from_timestamp(m.secs, m.nanos).unwrap_or_default().to_rfc3339()
}

/// A moment written in RFC 3339, in a time zone. The zones are numbered.
pub uninterp spec fn zoned_text(m: Moment, zone: int) -> Seq<char>;

/// `DateTime::to_rfc3339` of a moment in the machine's time zone. The result is
/// named, with the time zone as an argument of the name.
#[verifier::external_body]
pub(crate) fn local_text(m: Moment) -> (r: String)
    requires
        can_look_ahead(m),
    ensures
        exists|zone: int| r@ == #[trigger] zoned_text(m, zone),
{
    DateTime::<Utc>::from_timestamp(m.secs, m.nanos)
        .unwrap_or_default()
        .with_timezone(&Local)
        .to_rfc3339()
}

/// Moving the clock by whole seconds moves it by exactly that: the fraction of
/// the second stays, and out of a leap second the time is counted from its end
/// that lies the way of the step.
pub proof fn law_a_step_is_exact(m: Moment, s: int)
    requires
        i64::MIN < m.secs + s < i64::MAX,
        m.nanos < 2_000_000_000,
    ensures
        m.nanos < 1_000_000_000 ==> later(m, s).secs == m.secs + s && later(m, s).nanos == m.nanos,
        m.nanos >= 1_000_000_000 && s > 0 ==> later(m, s).secs == m.secs + s && later(m, s).nanos
            == m.nanos - 1_000_000_000,
        m.nanos >= 1_000_000_000 && s < 0 ==> later(m, s).secs == m.secs + s + 1 && later(m, s).nanos
            == m.nanos - 1_000_000_000,
        s == 0 ==> later(m, s) == m,
{
}

/// Two steps lead where the two together do.
pub proof fn law_steps_add_up(m: Moment, s: int, t: int)
    requires
        m.nanos < 1_000_000_000,
        i64::MIN < m.secs + s < i64::MAX,
        i64::MIN < m.secs + s + t < i64::MAX,
    ensures
        later(later(m, s), t) == later(m, s + t),
{
}

/// The calendar has every second from the first of its first year to the last of
/// its last, and no other. Only the last second of a minute can be a leap second.
pub proof fn law_what_the_calendar_has(m: Moment)
    ensures
        m.nanos < 1_000_000_000 ==> (in_calendar(m) <==> -8_334_601_228_800 <= m.secs
            <= 8_210_266_876_799),
        m.nanos >= 2_000_000_000 ==> !in_calendar(m),
        1_000_000_000 <= m.nanos < 2_000_000_000 ==> (in_calendar(m) <==> -8_334_601_228_800 <= m.secs
            <= 8_210_266_876_799 && m.secs % 60 == 59),
{
}

/// The clock can be moved wherever the calendar goes.
pub proof fn law_the_clock_moves_within_the_calendar(m: Moment, s: int)
    requires
        m.nanos < 1_000_000_000,
        -8_334_601_228_800 <= m.secs <= 8_210_266_876_799,
    ensures
        can_step(m, s) <==> -8_334_601_228_800 <= m.secs + s <= 8_210_266_876_799,
{
}

/// Occurrences can be looked for at any time in the years that schedules live in.
pub proof fn law_every_living_moment_can_be_looked_from(m: Moment)
    requires
        m.nanos < 1_000_000_000,
        -8_334_601_028_800 <= m.secs <= 8_210_266_676_799,
    ensures
        can_look_ahead(m),
{
}

/// Earlier means fewer seconds, or as many and fewer nanoseconds.
pub proof fn law_what_is_earlier(a: Moment, b: Moment)
    ensures
        a.secs < b.secs ==> earlier(a, b) && !earlier(b, a),
        a.secs == b.secs ==> (earlier(a, b) <==> a.nanos < b.nanos),
        a.secs > b.secs ==> !earlier(a, b),
{
}

/// A standard expression of five fields fires at second zero, one with its own
/// seconds is taken as it is, and one with any other number of fields is none.
pub proof fn law_how_an_expression_is_read(expr: Seq<char>)
    ensures
        words(expr).len() == 5 ==> normalized(expr) == Some("0 "@ + expr) && (is_cron(expr)
            <==> cron_refusal("0 "@ + expr) is None),
        words(expr).len() == 6 || words(expr).len() == 7 ==> normalized(expr) == Some(expr) && (
        is_cron(expr) <==> cron_refusal(expr) is None),
        words(expr).len() < 5 || words(expr).len() > 7 ==> normalized(expr) is None && !is_cron(expr),
{
}

/// Of some times, the first one that lies after now is picked, and none only
/// where none does.
pub proof fn law_the_first_future_time_is_picked(times: Seq<Moment>, now: Moment)
    ensures
        match first_future(times, now) {
            Some(t) => exists|i: int|
                #![trigger times[i]]
                0 <= i < times.len() && times[i] == t && (now.secs < t.secs || (now.secs == t.secs
                    && now.nanos < t.nanos)) && forall|j: int|
                    #![trigger times[j]]
                    0 <= j < i ==> times[j].secs < now.secs || (times[j].secs == now.secs
                        && times[j].nanos <= now.nanos),
            None => forall|j: int|
                #![trigger times[j]]
                0 <= j < times.len() ==> times[j].secs < now.secs || (times[j].secs == now.secs
                    && times[j].nanos <= now.nanos),
        },
    decreases times.len(),
{
    if times.len() > 0 && !earlier(now, times[0]) {
        let rest = times.drop_first();
        law_the_first_future_time_is_picked(rest, now);
        match first_future(rest, now) {
            Some(t) => {
                let i = choose|i: int|
                    #![trigger rest[i]]
                    0 <= i < rest.len() && rest[i] == t && forall|j: int|
                        #![trigger rest[j]]
                        0 <= j < i ==> rest[j].secs < now.secs || (rest[j].secs == now.secs
                            && rest[j].nanos <= now.nanos);
                assert(times[i + 1] == t);
                assert forall|j: int| #![trigger times[j]] 0 <= j < i + 1 implies times[j].secs < now.secs || (
                times[j].secs == now.secs && times[j].nanos <= now.nanos) by {
                    if j > 0 {
                        assert(times[j] == rest[j - 1]);
                    }
                }
            },
            None => {
                assert forall|j: int| #![trigger times[j]] 0 <= j < times.len() implies times[j].secs
                    < now.secs || (times[j].secs == now.secs && times[j].nanos <= now.nanos) by {
                    if j > 0 {
                        assert(times[j] == rest[j - 1]);
                    }
                }
            },
        }
    } else if times.len() > 0 {
        assert(times[0] == first_future(times, now)->0);
    }
}

/// What comes up next for a cron expression is, in some time zone, the first of
/// the times of its schedule that lies after now; and for what is no cron
/// expression nothing does.
pub proof fn law_what_comes_up_is_on_the_schedule(
    expr: Seq<char>,
    now: Moment,
    occurrence: Option<Moment>,
)
    requires
        upcoming(expr, now, occurrence),
    ensures
        words(expr).len() < 5 || words(expr).len() > 7 ==> occurrence is None,
        words(expr).len() == 5 && cron_refusal("0 "@ + expr) is None ==> exists|zone: int|
            occurrence == first_future(
                #[trigger] occurrences_in("0 "@ + expr, now, 2, zone),
                now,
            ),
        words(expr).len() == 5 && cron_refusal("0 "@ + expr) is Some ==> occurrence is None,
        6 <= words(expr).len() <= 7 && cron_refusal(expr) is None ==> exists|zone: int|
            occurrence == first_future(#[trigger] occurrences_in(expr, now, 2, zone), now),
        6 <= words(expr).len() <= 7 && cron_refusal(expr) is Some ==> occurrence is None,
{
    if is_cron(expr) {
        let e = normalized(expr)->0;
        let zone = choose|zone: int| occurrence == #[trigger] next_in(e, now, zone);
        assert(occurrence == first_future(occurrences_in(e, now, 2, zone), now));
    }
}

} // verus!
