//! The console's own poll over its schedules.
//!
//! Interval schedules are clocked from process start: the first run comes one
//! interval after the schedule was first seen. Cron schedules are evaluated in
//! local time. Both keep their state in memory, so a restart re-arms from the
//! next occurrence with no surprise burst of catch-up runs.
use crate::moment::{
    can_look_ahead, cron_is_valid, earlier, is_cron, is_earlier, law_an_occurrence_is_in_the_future,
    next_occurrence, upcoming, Moment,
};
use crate::order::TextMap;
use crate::panel::PanelEntry;
use crate::runs::{reported_run, RunResult};
use crate::text::{glue3, same, trim, trimmed, words};
use vstd::prelude::*;
use vstd::string::*;

verus! {

/// An occurrence that is waited for, and the expression it came from.
///
/// The two go together: keyed by schedule id alone, an edited cron expression
/// would do nothing until the OLD occurrence came round.
#[derive(Debug)]
pub struct Armed {
    pub expr: String,
    pub at: Moment,
}

/// An armed occurrence, with its expression as a sequence.
pub struct ArmedView {
    pub expr: Seq<char>,
    pub at: Moment,
}

impl View for Armed {
    type V = ArmedView;

    open spec fn view(&self) -> ArmedView {
        ArmedView { expr: self.expr@, at: self.at }
    }
}

/// What an optional armed occurrence is.
pub open spec fn armed_opt(a: Option<Armed>) -> Option<ArmedView> {
    match a {
        Some(x) => Some(x@),
        None => None,
    }
}

/// What an optional borrowed occurrence is.
pub open spec fn armed_ref(a: Option<&Armed>) -> Option<ArmedView> {
    match a {
        Some(x) => Some(x@),
        None => None,
    }
}

/// Whether a cron schedule fires: it was armed from this very expression, and
/// its moment has come.
pub open spec fn fires(armed: Option<ArmedView>, expr: Seq<char>, now: Moment) -> bool {
    armed is Some && armed->0.expr == expr && !earlier(now, armed->0.at)
}

/// What is armed next, given the next occurrence of the expression. One that was
/// armed from this expression and is not due is left exactly as it is:
/// re-arming would push it away on every poll.
pub open spec fn rearmed(
    armed: Option<ArmedView>,
    expr: Seq<char>,
    now: Moment,
    occurrence: Option<Moment>,
) -> Option<ArmedView> {
    if armed is Some && armed->0.expr == expr && earlier(now, armed->0.at) {
        armed
    } else {
        match occurrence {
            Some(at) => Some(ArmedView { expr, at }),
            None => None,
        }
    }
}

/// Decide what this poll does with a cron schedule, and what to arm next, given
/// the next occurrence of the expression.
pub fn decide(
    armed: Option<&Armed>,
    expr: &str,
    now: Moment,
    occurrence: Option<Moment>,
) -> (r: (bool, Option<Armed>))
    ensures
        r.0 == fires(armed_ref(armed), expr@, now),
        armed_opt(r.1) == rearmed(armed_ref(armed), expr@, now, occurrence),
{
    let next = match occurrence {
        Some(at) => Some(Armed { expr: expr.to_owned(), at }),
        None => None,
    };
    match armed {
        Some(a) => {
            if same(a.expr.as_str(), expr) {
                if is_earlier(now, a.at) {
                    (false, Some(Armed { expr: a.expr.clone(), at: a.at }))
                } else {
                    (true, next)
                }
            } else {
                (false, next)
            }
        },
        None => (false, next),
    }
}

/// Decide what this poll does with a cron schedule, and what to arm next. Never
/// seen before, or with its expression changed, it is armed and does not fire:
/// an edit is not itself an occurrence.
pub fn cron_decision(armed: Option<&Armed>, expr: &str, now: Moment) -> (r: (bool, Option<Armed>))
    requires
        can_look_ahead(now),
    ensures
        r.0 == fires(armed_ref(armed), expr@, now),
        exists|occurrence: Option<Moment>|
            upcoming(expr@, now, occurrence) && armed_opt(r.1) == #[trigger] rearmed(
                armed_ref(armed),
                expr@,
                now,
                occurrence,
            ),
{
    let occurrence = next_occurrence(expr, now);
    decide(armed, expr, now, occurrence)
}

/// What the poll keeps between rounds.
pub struct Ticker {
    /// When each interval schedule last fired, on a clock that only goes
    /// forward, in nanoseconds.
    pub last_fired: TextMap<u128>,
    /// What each cron schedule waits for.
    pub cron_next: TextMap<Armed>,
}

/// What each cron schedule waits for.
pub open spec fn waits(m: Map<Seq<char>, Armed>) -> Map<Seq<char>, ArmedView> {
    m.map_values(|a: Armed| a@)
}

/// A map with an optional entry: set, or taken out.
pub open spec fn set_or_clear(
    m: Map<Seq<char>, ArmedView>,
    k: Seq<char>,
    v: Option<ArmedView>,
) -> Map<Seq<char>, ArmedView> {
    match v {
        Some(x) => m.insert(k, x),
        None => m.remove(k),
    }
}

/// What a map holds for a key.
pub open spec fn held(m: Map<Seq<char>, ArmedView>, k: Seq<char>) -> Option<ArmedView> {
    if m.dom().contains(k) {
        Some(m[k])
    } else {
        None
    }
}

/// Whether an interval has passed since a schedule last fired.
pub open spec fn interval_passed(last: u128, clock: u128, seconds: u64) -> bool {
    clock - last >= seconds * 1_000_000_000
}

/// What one poll does with one schedule: the state before, the entry, the two
/// clocks and the next occurrence of its cron expression, to the state after and
/// whether it fires.
pub open spec fn polled(
    last0: Map<Seq<char>, u128>,
    cron0: Map<Seq<char>, ArmedView>,
    id: Seq<char>,
    entry: PanelEntry,
    clock: u128,
    now: Moment,
    occurrence: Option<Moment>,
) -> (Map<Seq<char>, u128>, Map<Seq<char>, ArmedView>, bool) {
    let cron = trimmed(entry.cron@);
    if entry.enabled && cron.len() > 0 {
        if !is_cron(cron) {
            (last0.remove(id), cron0.remove(id), false)
        } else {
            (
                last0.remove(id),
                set_or_clear(cron0, id, rearmed(held(cron0, id), cron, now, occurrence)),
                fires(held(cron0, id), cron, now),
            )
        }
    } else if !entry.enabled || entry.interval_seconds == 0 {
        (last0.remove(id), cron0.remove(id), false)
    } else if !last0.dom().contains(id) {
        (last0.insert(id, clock), cron0.remove(id), false)
    } else if interval_passed(last0[id], clock, entry.interval_seconds) {
        (last0.insert(id, clock), cron0.remove(id), true)
    } else {
        (last0, cron0.remove(id), false)
    }
}

impl Ticker {
    pub fn new() -> (r: Ticker)
        ensures
            r.last_fired@ == Map::<Seq<char>, u128>::empty(),
            r.cron_next@ == Map::<Seq<char>, Armed>::empty(),
    {
        Ticker { last_fired: TextMap::new(), cron_next: TextMap::new() }
    }

    /// Poll one schedule, given the next occurrence of its cron expression.
    pub fn poll_with(
        &mut self,
        id: &str,
        entry: &PanelEntry,
        clock: u128,
        now: Moment,
        occurrence: Option<Moment>,
    ) -> (r: bool)
        ensures
            polled(
                old(self).last_fired@,
                waits(old(self).cron_next@),
                id@,
                *entry,
                clock,
                now,
                occurrence,
            ) == (final(self).last_fired@, waits(final(self).cron_next@), r),
    {
        let ghost last0 = self.last_fired@;
        let ghost cron0 = waits(self.cron_next@);
        let ghost raw0 = self.cron_next@;
        let cron = trim(entry.cron.as_str());
        if entry.enabled && !cron.as_str().is_empty() {
            self.last_fired.remove(id);
            if !cron_is_valid(cron.as_str()) {
                self.cron_next.remove(id);
                assert(waits(self.cron_next@) == cron0.remove(id@));
                return false;
            }
            let (fire, next) = decide(self.cron_next.get(id), cron.as_str(), now, occurrence);
            assert(held(cron0, id@) == if raw0.dom().contains(id@) {
                Some(raw0[id@]@)
            } else {
                None
            });
            let ghost nv = armed_opt(next);
            match next {
                Some(a) => {
                    let ghost av = a@;
                    self.cron_next.insert(id.to_owned(), a);
                    assert(waits(self.cron_next@) == cron0.insert(id@, av));
                },
                None => {
                    self.cron_next.remove(id);
                    assert(waits(self.cron_next@) == cron0.remove(id@));
                },
            }
            return fire;
        }
        self.cron_next.remove(id);
        assert(waits(self.cron_next@) == cron0.remove(id@));
        if !entry.enabled || entry.interval_seconds == 0 {
            self.last_fired.remove(id);
            return false;
        }
        let last: Option<u128> = match self.last_fired.get(id) {
            Some(t) => Some(*t),
            None => None,
        };
        match last {
            None => {
                self.last_fired.insert(id.to_owned(), clock);
                false
            },
            Some(t) => {
                let wanted: u128 = entry.interval_seconds as u128 * 1_000_000_000;
                if clock >= t && clock - t >= wanted {
                    self.last_fired.insert(id.to_owned(), clock);
                    true
                } else {
                    false
                }
            },
        }
    }

    /// Poll one schedule: whether it fires now.
    pub fn poll(&mut self, id: &str, entry: &PanelEntry, clock: u128, now: Moment) -> (r: bool)
        requires
            can_look_ahead(now),
        ensures
            exists|occurrence: Option<Moment>|
                upcoming(trimmed(entry.cron@), now, occurrence) && #[trigger] polled(
                    old(self).last_fired@,
                    waits(old(self).cron_next@),
                    id@,
                    *entry,
                    clock,
                    now,
                    occurrence,
                ) == (final(self).last_fired@, waits(final(self).cron_next@), r),
    {
        let cron = trim(entry.cron.as_str());
        let occurrence = next_occurrence(cron.as_str(), now);
        self.poll_with(id, entry, clock, now, occurrence)
    }
}

/// A schedule whose pipeline is not there: it came due, and that is reported
/// rather than passed over, because everything else would look healthy while
/// the data quietly stops arriving.
pub fn missing_pipeline(id: &str) -> (r: RunResult)
    ensures
        r.status@ == "error"@,
        r.duration_ms == 0,
        r.error is Some,
        r.error->0@ == "scheduled pipeline '"@ + id@
            + "' has no pipeline file in the workspace; it was probably renamed, moved or deleted"@,
        r.category is Some,
        r.category->0@ == crate::error_category::category(r.error->0@),
{
    let why = glue3(
        "scheduled pipeline '",
        id,
        "' has no pipeline file in the workspace; it was probably renamed, moved or deleted",
    );
    reported_run("error", 0, Some(why))
}

/// A schedule never fires the moment it is first seen.
pub proof fn law_first_sight_does_not_fire(
    last0: Map<Seq<char>, u128>,
    cron0: Map<Seq<char>, ArmedView>,
    id: Seq<char>,
    entry: PanelEntry,
    clock: u128,
    now: Moment,
    occurrence: Option<Moment>,
)
    requires
        !last0.dom().contains(id),
        !cron0.dom().contains(id),
    ensures
        !polled(last0, cron0, id, entry, clock, now, occurrence).2,
{
}

/// An edited cron expression takes effect at the next poll: it does not fire
/// then, and what is armed comes from the new expression.
pub proof fn law_an_edit_rearms_without_firing(
    armed: ArmedView,
    expr: Seq<char>,
    now: Moment,
    occurrence: Option<Moment>,
)
    requires
        armed.expr != expr,
    ensures
        !fires(Some(armed), expr, now),
        rearmed(Some(armed), expr, now, occurrence) == match occurrence {
            Some(at) => Some(ArmedView { expr, at }),
            None => None,
        },
{
}

/// An occurrence that is not due is held exactly as it is, poll after poll.
pub proof fn law_a_waiting_occurrence_is_held(
    armed: ArmedView,
    now: Moment,
    occurrence: Option<Moment>,
)
    requires
        earlier(now, armed.at),
    ensures
        !fires(Some(armed), armed.expr, now),
        rearmed(Some(armed), armed.expr, now, occurrence) == Some(armed),
{
}

/// A cron schedule that fired does not fire again at that moment: what is armed
/// next is after it.
pub proof fn law_an_occurrence_fires_once(
    armed: ArmedView,
    now: Moment,
    occurrence: Option<Moment>,
)
    requires
        fires(Some(armed), armed.expr, now),
        upcoming(armed.expr, now, occurrence),
    ensures
        !fires(rearmed(Some(armed), armed.expr, now, occurrence), armed.expr, now),
{
    if occurrence is Some {
        law_an_occurrence_is_in_the_future(armed.expr, now, occurrence);
    }
}

/// An interval schedule that fired waits a whole interval before it is due
/// again, whether or not its pipeline was there to run.
pub proof fn law_an_interval_waits_its_length(
    last0: Map<Seq<char>, u128>,
    cron0: Map<Seq<char>, ArmedView>,
    id: Seq<char>,
    entry: PanelEntry,
    clock: u128,
    later: u128,
    now: Moment,
    occurrence: Option<Moment>,
)
    requires
        entry.enabled,
        trimmed(entry.cron@).len() == 0,
        polled(last0, cron0, id, entry, clock, now, occurrence).2,
        later < clock + entry.interval_seconds * 1_000_000_000,
    ensures
        ({
            let after = polled(last0, cron0, id, entry, clock, now, occurrence);
            !polled(after.0, after.1, id, entry, later, now, occurrence).2
        }),
{
}

/// A disabled schedule does not fire, and nothing of it is kept: when it is
/// enabled again it starts anew.
pub proof fn law_a_disabled_schedule_is_forgotten(
    last0: Map<Seq<char>, u128>,
    cron0: Map<Seq<char>, ArmedView>,
    id: Seq<char>,
    entry: PanelEntry,
    clock: u128,
    now: Moment,
    occurrence: Option<Moment>,
)
    requires
        !entry.enabled,
    ensures
        ({
            let after = polled(last0, cron0, id, entry, clock, now, occurrence);
            !after.2 && !after.0.dom().contains(id) && !after.1.dom().contains(id)
        }),
{
}

/// Polling one schedule leaves what is kept of every other one alone.
pub proof fn law_polls_do_not_mix(
    last0: Map<Seq<char>, u128>,
    cron0: Map<Seq<char>, ArmedView>,
    id: Seq<char>,
    other: Seq<char>,
    entry: PanelEntry,
    clock: u128,
    now: Moment,
    occurrence: Option<Moment>,
)
    requires
        other != id,
    ensures
        ({
            let after = polled(last0, cron0, id, entry, clock, now, occurrence);
            &&& after.0.dom().contains(other) == last0.dom().contains(other)
            &&& last0.dom().contains(other) ==> after.0[other] == last0[other]
            &&& held(after.1, other) == held(cron0, other)
        }),
{
}

/// An enabled cron schedule fires when what it was armed with has come, and only
/// then, whatever interval stands beside it.
pub proof fn law_an_armed_schedule_fires_when_it_is_time(
    last0: Map<Seq<char>, u128>,
    cron0: Map<Seq<char>, ArmedView>,
    id: Seq<char>,
    entry: PanelEntry,
    clock: u128,
    now: Moment,
    occurrence: Option<Moment>,
)
    requires
        entry.enabled,
        is_cron(trimmed(entry.cron@)),
        cron0.dom().contains(id),
        cron0[id].expr == trimmed(entry.cron@),
    ensures
        ({
            let at = cron0[id].at;
            let after = polled(last0, cron0, id, entry, clock, now, occurrence);
            let come = at.secs < now.secs || (at.secs == now.secs && at.nanos <= now.nanos);
            &&& after.2 == come
            &&& !come ==> after.1.dom().contains(id) && after.1[id] == cron0[id]
            &&& come ==> match occurrence {
                Some(t) => after.1.dom().contains(id) && after.1[id].at == t && after.1[id].expr
                    == cron0[id].expr,
                None => !after.1.dom().contains(id),
            }
        }),
{
    assert(words(Seq::<char>::empty()).len() == 0);
    if trimmed(entry.cron@).len() == 0 {
        assert(trimmed(entry.cron@) == Seq::<char>::empty());
    }
}

/// An enabled cron schedule that is seen for the first time, or whose expression
/// was edited, is armed with what comes up next, and does not fire.
pub proof fn law_a_new_cron_schedule_is_armed(
    last0: Map<Seq<char>, u128>,
    cron0: Map<Seq<char>, ArmedView>,
    id: Seq<char>,
    entry: PanelEntry,
    clock: u128,
    now: Moment,
    at: Moment,
)
    requires
        entry.enabled,
        is_cron(trimmed(entry.cron@)),
        cron0.dom().contains(id) ==> cron0[id].expr != trimmed(entry.cron@),
    ensures
        ({
            let after = polled(last0, cron0, id, entry, clock, now, Some(at));
            &&& !after.2
            &&& after.1.dom().contains(id)
            &&& after.1[id].at == at
            &&& after.1[id].expr == trimmed(entry.cron@)
        }),
{
    assert(words(Seq::<char>::empty()).len() == 0);
    if trimmed(entry.cron@).len() == 0 {
        assert(trimmed(entry.cron@) == Seq::<char>::empty());
    }
}

/// What is no cron expression never fires, and nothing is kept of it.
pub proof fn law_a_bad_expression_never_fires(
    last0: Map<Seq<char>, u128>,
    cron0: Map<Seq<char>, ArmedView>,
    id: Seq<char>,
    entry: PanelEntry,
    clock: u128,
    now: Moment,
    occurrence: Option<Moment>,
)
    requires
        trimmed(entry.cron@).len() > 0,
        !is_cron(trimmed(entry.cron@)),
    ensures
        ({
            let after = polled(last0, cron0, id, entry, clock, now, occurrence);
            !after.2 && !after.0.dom().contains(id) && !after.1.dom().contains(id)
        }),
{
}

/// An interval schedule is counted from when it is first seen, fires once its
/// seconds have passed since it was seen or last fired, and not before.
pub proof fn law_an_interval_fires_when_it_has_passed(
    last0: Map<Seq<char>, u128>,
    cron0: Map<Seq<char>, ArmedView>,
    id: Seq<char>,
    entry: PanelEntry,
    clock: u128,
    now: Moment,
    occurrence: Option<Moment>,
)
    requires
        entry.enabled,
        trimmed(entry.cron@).len() == 0,
        entry.interval_seconds > 0,
    ensures
        ({
            let after = polled(last0, cron0, id, entry, clock, now, occurrence);
            &&& after.0.dom().contains(id)
            &&& !after.1.dom().contains(id)
            &&& !last0.dom().contains(id) ==> !after.2 && after.0[id] == clock
            &&& last0.dom().contains(id) ==> {
                let passed = clock >= last0[id] + entry.interval_seconds * 1_000_000_000;
                after.2 == passed && after.0[id] == if passed {
                    clock
                } else {
                    last0[id]
                }
            }
        }),
{
}

/// An interval of no length never fires.
pub proof fn law_no_interval_never_fires(
    last0: Map<Seq<char>, u128>,
    cron0: Map<Seq<char>, ArmedView>,
    id: Seq<char>,
    entry: PanelEntry,
    clock: u128,
    now: Moment,
    occurrence: Option<Moment>,
)
    requires
        trimmed(entry.cron@).len() == 0,
        entry.interval_seconds == 0,
    ensures
        !polled(last0, cron0, id, entry, clock, now, occurrence).2,
{
}

} // verus!
