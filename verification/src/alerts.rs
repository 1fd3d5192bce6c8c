//! Telling someone when a run fails, without every pipeline having to ask.
//!
//! Rules live in `alerts.json` at the workspace root, authored and meant to be
//! committed alongside the pipelines.
//!
//! # What this gets right on purpose
//!
//! **Repeat suppression.** A pipeline on a five-minute schedule that starts
//! failing would otherwise send 288 identical messages a day, and a channel
//! that noisy gets muted, which is worse than no alerting. Each rule has a
//! cooldown per pipeline and event.
//!
//! **The all-clear.** When a pipeline that was failing succeeds again, that is
//! its own event and it ignores the cooldown. Suppressing it would leave
//! someone believing an outage is ongoing hours after it ended.
//!
//! **Never breaking the run.** Delivery happens after the run is recorded, is
//! time-bounded, and reports failures rather than propagating them.
use crate::json::{
    add_member, law_a_member_is_found_by_its_name, law_what_has_no_member, member, members, number_doc,
    number_json, text_json, Doc, Json,
};
use crate::http::map_texts;
use crate::moment::{can_step, in_calendar, later, Moment, FIRST_SECOND, LONGEST_STEP};
use crate::number::{decimal, decimal_of, law_decimal_is_injective, lemma_decimal};
use crate::order::TextMap;
use crate::paths::{join, under};
use crate::runs::RunResult;
use crate::scheduler::{on_calendar, step_of};
use crate::schedules::copy_opt;
use crate::text::{
    begins, chars_of, contains, find, find_from, glue2, glue3, lemma_find, mentions, same, stands,
    stands_at, str_opt, text_of, text_opt, texts, trim, trimmed,
};
use vstd::prelude::*;
use vstd::string::*;

verus! {

/// How long to wait on a channel before giving up, in seconds. Short on purpose:
/// this runs after a pipeline has already finished, and nobody should wait on a
/// chat service.
pub const DELIVERY_TIMEOUT_SECS: u64 = 10;

/// What happened, from the point of view of someone who wants to be told.
#[derive(Debug, Clone, Copy, PartialEq, Eq, Structural)]
pub enum Event {
    /// The run failed.
    Failure,
    /// The run succeeded, and the one before it did not. The all-clear.
    Recovery,
    /// The run succeeded. Rarely wanted; off unless asked for.
    Success,
}

/// The name of an event.
pub open spec fn event_name(e: Event) -> Seq<char> {
    match e {
        Event::Failure => "failure"@,
        Event::Recovery => "recovery"@,
        Event::Success => "success"@,
    }
}

impl Event {
    pub fn as_str(self) -> (r: &'static str)
        ensures
            r@ == event_name(self),
    {
        match self {
            Event::Failure => "failure",
            Event::Recovery => "recovery",
            Event::Success => "success",
        }
    }
}

/// Where an alert goes.
#[derive(Debug)]
pub enum Channel {
    /// A JSON POST. The payload carries a `text` field as well as the
    /// structured fields, because chat services render `text` directly.
    Webhook {
        /// Supports `${ENV:NAME}`, since a webhook url is a credential and
        /// belongs in the environment rather than in a committed file.
        url: String,
        headers: TextMap<String>,
    },
    Email {
        smtp_host: String,
        smtp_port: u16,
        username: String,
        /// Supports `${ENV:NAME}`.
        password: String,
        from: String,
        to: Vec<String>,
    },
}

/// The port that mail is submitted to unless a rule says otherwise.
pub fn default_smtp_port() -> (r: u16)
    ensures
        r == 587,
{
    587
}

/// The events that a rule is for unless it says otherwise: failure and its
/// all-clear. Alerting on every success is how a channel becomes unreadable, so
/// it is opt-in.
pub fn default_events() -> (r: Vec<Event>)
    ensures
        r@ == seq![Event::Failure, Event::Recovery],
{
    let mut v: Vec<Event> = Vec::new();
    v.push(Event::Failure);
    v.push(Event::Recovery);
    v
}

/// The cooldown of a rule unless it says otherwise, in minutes.
pub fn default_cooldown() -> (r: u64)
    ensures
        r == 15,
{
    15
}

#[derive(Debug)]
pub struct AlertRule {
    /// Glob over pipeline ids. `*` covers the whole workspace.
    pub pattern: String,
    pub on: Vec<Event>,
    /// Minutes before the same pipeline may raise the same event again.
    /// Recovery ignores this: an all-clear that arrives late is useless.
    pub cooldown_minutes: u64,
    pub channel: Channel,
}

#[derive(Debug)]
pub struct Alerts {
    pub rules: Vec<AlertRule>,
}

impl Alerts {
    pub fn is_empty(&self) -> (r: bool)
        ensures
            r == (self.rules@.len() == 0),
    {
        self.rules.len() == 0
    }
}

/// The rules in a workspace.
pub fn alerts_path(workspace: &str, windows: bool) -> (r: String)
    ensures
        r@ == under(workspace@, "alerts.json"@, windows),
{
    join(workspace, "alerts.json", windows)
}

/// What is remembered between runs, in a workspace.
pub fn state_path(workspace: &str, windows: bool) -> (r: String)
    ensures
        r@ == under(under(workspace@, ".duckle"@, windows), "alert-state.json"@, windows),
{
    let dir = join(workspace, ".duckle", windows);
    join(dir.as_str(), "alert-state.json", windows)
}

/// What has been sent and how each pipeline last finished.
#[derive(Debug)]
pub struct AlertState {
    /// Pipeline -> the status of its last recorded run, so a return to health
    /// can be told apart from an ordinary success.
    pub last_status: TextMap<String>,
    /// "pipeline|event|rule" -> when that rule last sent it, for its cooldown.
    pub last_sent: TextMap<Moment>,
}

/// One alert, as delivered.
#[derive(Debug, Clone)]
pub struct Message {
    pub event: String,
    pub pipeline: String,
    pub status: String,
    pub duration_ms: u64,
    pub error: Option<String>,
    pub category: Option<String>,
    /// Rendered summary. Chat services show this field as-is.
    pub text: String,
}

// ---------------------------------------------------------------------------
// What to say
// ---------------------------------------------------------------------------

/// The one line that an alert leads with.
pub open spec fn summary(
    event: Event,
    pipeline: Seq<char>,
    seconds: Seq<char>,
    error: Option<Seq<char>>,
) -> Seq<char> {
    match event {
        Event::Failure => "Duckle: "@ + pipeline + " FAILED after "@ + seconds + "s - "@ + (match error {
            Some(e) => e,
            None => "no error message"@,
        }),
        Event::Recovery => "Duckle: "@ + pipeline + " recovered, succeeded in "@ + seconds + "s"@,
        Event::Success => "Duckle: "@ + pipeline + " succeeded in "@ + seconds + "s"@,
    }
}

/// What a message holds.
pub open spec fn is_message(
    event: Event,
    pipeline: &str,
    result: &RunResult,
    seconds: &str,
    r: Message,
) -> bool {
    &&& r.event@ == event_name(event)
    &&& r.pipeline@ == pipeline@
    &&& r.status == result.status
    &&& r.duration_ms == result.duration_ms
    &&& r.error == result.error
    &&& r.category == result.category
    &&& r.text@ == summary(event, pipeline@, seconds@, text_opt(result.error))
}

/// Write an alert. One line, most important part first: people read alerts in a
/// notification preview. `seconds` is how long the run took, in seconds.
pub fn build_message(event: Event, pipeline: &str, result: &RunResult, seconds: &str) -> (r: Message)
    ensures
        is_message(event, pipeline, result, seconds, r),
{
    let mut text = glue2("Duckle: ", pipeline);
    match event {
        Event::Failure => {
            text.append(" FAILED after ");
            text.append(seconds);
            text.append("s - ");
            match &result.error {
                Some(e) => text.append(e.as_str()),
                None => text.append("no error message"),
            }
        },
        Event::Recovery => {
            text.append(" recovered, succeeded in ");
            text.append(seconds);
            text.append("s");
        },
        Event::Success => {
            text.append(" succeeded in ");
            text.append(seconds);
            text.append("s");
        },
    }
    Message {
        event: event.as_str().to_owned(),
        pipeline: pipeline.to_owned(),
        status: result.status.clone(),
        duration_ms: result.duration_ms,
        error: copy_opt(&result.error),
        category: copy_opt(&result.category),
        text,
    }
}

/// An optional member: there, or left out.
pub open spec fn optional(k: Seq<char>, v: Option<Seq<char>>) -> Seq<(Seq<char>, Doc)> {
    match v {
        Some(t) => seq![(k, Doc::Text(t))],
        None => Seq::empty(),
    }
}

/// An alert as it is posted. What it does not have is left out.
pub open spec fn message_members(m: Message) -> Seq<(Seq<char>, Doc)> {
    seq![
        ("event"@, Doc::Text(m.event@)),
        ("pipeline"@, Doc::Text(m.pipeline@)),
        ("status"@, Doc::Text(m.status@)),
        ("durationMs"@, number_doc(m.duration_ms as nat)),
    ] + optional("error"@, text_opt(m.error)) + optional("category"@, text_opt(m.category)) + seq![
        ("text"@, Doc::Text(m.text@)),
    ]
}

/// An alert as it is posted.
pub fn message_json(m: &Message) -> (r: Json)
    ensures
        r@ == Doc::Object(message_members(*m)),
{
    let mut out: Vec<(String, Json)> = Vec::new();
    add_member(&mut out, "event", text_json(m.event.as_str()));
    add_member(&mut out, "pipeline", text_json(m.pipeline.as_str()));
    add_member(&mut out, "status", text_json(m.status.as_str()));
    add_member(&mut out, "durationMs", number_json(m.duration_ms));
    if let Some(e) = &m.error {
        add_member(&mut out, "error", text_json(e.as_str()));
    }
    if let Some(c) = &m.category {
        add_member(&mut out, "category", text_json(c.as_str()));
    }
    add_member(&mut out, "text", text_json(m.text.as_str()));
    assert(members(out@) == message_members(*m));
    Json::Object(out)
}

/// The subject of an alert by mail.
pub fn mail_subject(m: &Message) -> (r: String)
    ensures
        r@ == "[Duckle] "@ + m.pipeline@ + " "@ + m.event@,
{
    let mut out = glue3("[Duckle] ", m.pipeline.as_str(), " ");
    out.append(m.event.as_str());
    out
}

/// The body of an alert by mail: the one-line summary and then the detail, so it
/// is readable in a notification preview as well as in full.
pub fn mail_body(m: &Message) -> (r: String)
    ensures
        r@ == m.text@ + "\n\nPipeline: "@ + m.pipeline@ + (match m.error {
            Some(e) => "\nError:\n"@ + e@ + "\n"@,
            None => "\n"@,
        }),
{
    let mut out = glue3(m.text.as_str(), "\n\nPipeline: ", m.pipeline.as_str());
    match &m.error {
        Some(e) => {
            let detail = glue3("\nError:\n", e.as_str(), "\n");
            out.append(detail.as_str());
        },
        None => out.append("\n"),
    }
    out
}

/// What the mail library has against an address, or nothing when it takes it.
pub uninterp spec fn mailbox_refusal(address: Seq<char>) -> Option<Seq<char>>;

/// `Mailbox::from_str` of lettre, as far as whether it reads the address and
/// what it says when it does not. The result is named.
#[verifier::external_body]
fn mailbox_error(address: &str) -> (r: Option<String>)
    ensures
        text_opt(r) == mailbox_refusal(address@),
{
    match address.parse::<lettre::message::Mailbox>() {
        Ok(_) => None,
        Err(e) => Some(e.to_string()),
    }
}

/// The first recipient that is no address, unless all are.
pub open spec fn bad_recipient(to: Seq<Seq<char>>) -> Option<Seq<char>>
    decreases to.len(),
{
    if to.len() == 0 {
        None
    } else if mailbox_refusal(to[0]) is Some {
        Some(to[0])
    } else {
        bad_recipient(to.drop_first())
    }
}

/// What stands against sending a mail, or nothing.
pub open spec fn mail_refusal(from: Seq<char>, to: Seq<Seq<char>>) -> Option<Seq<char>> {
    if to.len() == 0 {
        Some("email alert has no recipients"@)
    } else if mailbox_refusal(from) is Some {
        Some("from address: "@ + mailbox_refusal(from)->0)
    } else {
        match bad_recipient(to) {
            Some(a) => Some("to address "@ + a + ": "@ + mailbox_refusal(a)->0),
            None => None,
        }
    }
}

/// Check where a mail comes from and goes to.
pub fn check_mail(from: &str, to: &Vec<String>) -> (r: Result<(), String>)
    ensures
        match r {
            Ok(_) => mail_refusal(from@, texts(to@)) is None,
            Err(e) => mail_refusal(from@, texts(to@)) == Some(e@),
        },
{
    if to.len() == 0 {
        return Err("email alert has no recipients".to_owned());
    }
    if let Some(e) = mailbox_error(from) {
        return Err(glue2("from address: ", e.as_str()));
    }
    let ghost all = texts(to@);
    let mut i: usize = 0;
    assert(all.skip(0) == all);
    while i < to.len()
        invariant
            i <= to@.len(),
            to@.len() > 0,
            all == texts(to@),
            mailbox_refusal(from@) is None,
            bad_recipient(all) == bad_recipient(all.skip(i as int)),
        decreases to@.len() - i,
    {
        assert(all.skip(i as int)[0] == to@[i as int]@);
        assert(all.skip(i as int).drop_first() == all.skip(i + 1));
        if let Some(e) = mailbox_error(to[i].as_str()) {
            let mut why = glue3("to address ", to[i].as_str(), ": ");
            why.append(e.as_str());
            return Err(why);
        }
        i = i + 1;
    }
    Ok(())
}

// ---------------------------------------------------------------------------
// Whom to tell
// ---------------------------------------------------------------------------

/// Which event a run represents, given how the pipeline last finished. Anything
/// that is not a clean "ok" counts as a failure, so an unrecognised status
/// raises an alert rather than staying silent.
pub open spec fn event_of(status: Seq<char>, previous: Option<Seq<char>>) -> Event {
    if status != "ok"@ {
        Event::Failure
    } else if previous is Some && previous->0 != "ok"@ {
        Event::Recovery
    } else {
        Event::Success
    }
}

/// Which event a run represents, given how the pipeline last finished.
pub fn classify(result: &RunResult, previous: Option<&str>) -> (r: Event)
    ensures
        r == event_of(result.status@, str_opt(previous)),
{
    if !same(result.status.as_str(), "ok") {
        return Event::Failure;
    }
    match previous {
        Some(prev) => if same(prev, "ok") {
            Event::Success
        } else {
            Event::Recovery
        },
        None => Event::Success,
    }
}

/// Whether a glob matches a text, or nothing when it is no glob. On Windows a `\`
/// separates like a `/`.
pub uninterp spec fn glob_matches(pattern: Seq<char>, text: Seq<char>, windows: bool) -> Option<bool>;

/// `glob::Pattern::new` and `Pattern::matches`. The result is named; it depends
/// on the pattern, the text, and whether the crate was built for Windows, which
/// is left open. That a lone `*` matches everything is claimed as well, and that
/// the platform makes no difference where there is no `\`, the one character that
/// separates on Windows alone.
#[verifier::external_body]
fn matches_glob(pattern: &str, text: &str) -> (r: Option<bool>)
    ensures
        exists|windows: bool| r == #[trigger] glob_matches(pattern@, text@, windows),
        !pattern@.contains('\\') && !text@.contains('\\') ==> forall|windows: bool|
            r == #[trigger] glob_matches(pattern@, text@, windows),
        pattern@ == "*"@ ==> r == Some(true),
{
    match glob::Pattern::new(pattern) {
        Ok(p) => Some(p.matches(text)),
        Err(_) => None,
    }
}

/// Whether a rule with this pattern is for a pipeline. A pattern that is no glob
/// is for none, and `*` covers the whole workspace.
pub open spec fn covered(pattern: Seq<char>, pipeline: Seq<char>, windows: bool) -> bool {
    pattern == "*"@ || glob_matches(pattern, pipeline, windows) == Some(true)
}

/// Whether a rule with this pattern is for a pipeline.
pub fn covers(pattern: &str, pipeline_id: &str) -> (r: bool)
    ensures
        exists|windows: bool| r == #[trigger] covered(pattern@, pipeline_id@, windows),
        !pattern@.contains('\\') && !pipeline_id@.contains('\\') ==> forall|windows: bool|
            r == #[trigger] covered(pattern@, pipeline_id@, windows),
{
    let found = matches_glob(pattern, pipeline_id);
    proof {
        let windows = choose|windows: bool|
            found == #[trigger] glob_matches(pattern@, pipeline_id@, windows);
        assert((found == Some(true)) == covered(pattern@, pipeline_id@, windows));
    }
    match found {
        Some(b) => b,
        None => false,
    }
}

/// What a sent alert is remembered under: the pipeline, the event, and the place
/// of the rule that sent it.
pub open spec fn sent_key(pipeline: Seq<char>, event: Event, rule: int) -> Seq<char> {
    pipeline + "|"@ + event_name(event) + "|"@ + decimal(rule as nat)
}

/// What a sent alert is remembered under.
fn key_of(pipeline: &str, event: Event, rule: usize) -> (r: String)
    ensures
        r@ == sent_key(pipeline@, event, rule as int),
{
    let mut key = glue3(pipeline, "|", event.as_str());
    key.append("|");
    let place = decimal_of(rule as u64);
    key.append(place.as_str());
    key
}

/// The second of its day that a moment lies in.
pub open spec fn second_of_day(m: Moment) -> int {
    m.secs as int % 86_400
}

/// How many nanoseconds passed from one moment to another. A leap second between
/// the two times of day is counted.
pub open spec fn nanos_between(from: Moment, to: Moment) -> int {
    let leap: int = if second_of_day(to) > second_of_day(from) && from.nanos >= 1_000_000_000 {
        1
    } else if second_of_day(to) < second_of_day(from) && to.nanos >= 1_000_000_000 {
        -1
    } else {
        0
    };
    (to.secs - from.secs + leap) * 1_000_000_000 + (to.nanos - from.nanos)
}

/// Whether a cooldown is one that can be measured.
pub open spec fn cooldown_fits(minutes: u64) -> bool {
    -LONGEST_STEP <= step_of(minutes) * 60 <= LONGEST_STEP
}

/// Whether a rule's alert is still being held back.
pub open spec fn cooling(last: Moment, now: Moment, minutes: u64) -> bool {
    nanos_between(last, now) < step_of(minutes) * 60 * 1_000_000_000
}

/// Whether a rule is for an event.
pub open spec fn is_for(rule: AlertRule, event: Event) -> bool {
    rule.on@.contains(event)
}

/// Whether a rule asks for an event of a pipeline at all.
pub open spec fn asks_for(
    rule: AlertRule,
    pipeline: Seq<char>,
    event: Event,
    windows: bool,
) -> bool {
    covered(rule.pattern@, pipeline, windows) && is_for(rule, event)
}

/// Whether the rule at place `i` is held to its cooldown: it sent this before. An
/// all-clear never is.
pub open spec fn on_cooldown_clock(
    i: int,
    sent: Map<Seq<char>, Moment>,
    pipeline: Seq<char>,
    event: Event,
) -> bool {
    event != Event::Recovery && sent.dom().contains(sent_key(pipeline, event, i))
}

/// Whether the rule at place `i` wants an alert sent now.
pub open spec fn wants(
    rule: AlertRule,
    i: int,
    sent: Map<Seq<char>, Moment>,
    pipeline: Seq<char>,
    event: Event,
    now: Moment,
    windows: bool,
) -> bool {
    asks_for(rule, pipeline, event, windows) && (on_cooldown_clock(i, sent, pipeline, event) ==> !cooling(
        sent[sent_key(pipeline, event, i)],
        now,
        rule.cooldown_minutes,
    ))
}

/// Whether the cooldown of the rule at place `i`, where it is held to it, can be
/// measured against now.
pub open spec fn measurable(
    rule: AlertRule,
    i: int,
    sent: Map<Seq<char>, Moment>,
    pipeline: Seq<char>,
    event: Event,
    now: Moment,
    windows: bool,
) -> bool {
    asks_for(rule, pipeline, event, windows) && on_cooldown_clock(i, sent, pipeline, event) ==> {
        &&& cooldown_fits(rule.cooldown_minutes)
        &&& in_calendar(now)
        &&& in_calendar(sent[sent_key(pipeline, event, i)])
    }
}

/// Whether the rule at place `i` has nothing to send now, on the platform the
/// crate was built for.
pub open spec fn is_quiet(
    rule: AlertRule,
    i: int,
    sent: Map<Seq<char>, Moment>,
    pipeline: Seq<char>,
    event: Event,
    now: Moment,
) -> bool {
    exists|windows: bool|
        measurable(rule, i, sent, pipeline, event, now, windows) && !#[trigger] wants(
            rule,
            i,
            sent,
            pipeline,
            event,
            now,
            windows,
        )
}

/// Whether the rule at place `i` wants an alert sent now, on the platform the
/// crate was built for.
pub open spec fn is_wanted(
    rule: AlertRule,
    i: int,
    sent: Map<Seq<char>, Moment>,
    pipeline: Seq<char>,
    event: Event,
    now: Moment,
) -> bool {
    exists|windows: bool|
        measurable(rule, i, sent, pipeline, event, now, windows) && #[trigger] wants(
            rule,
            i,
            sent,
            pipeline,
            event,
            now,
            windows,
        )
}

/// Whether the rule at place `i` is held to a cooldown that cannot be measured
/// against now, on the platform the crate was built for.
pub open spec fn is_unmeasurable(
    rule: AlertRule,
    i: int,
    sent: Map<Seq<char>, Moment>,
    pipeline: Seq<char>,
    event: Event,
    now: Moment,
) -> bool {
    exists|windows: bool|
        !#[trigger] measurable(rule, i, sent, pipeline, event, now, windows)
}

/// Whether the rules from one place up to another have nothing to send now.
pub open spec fn all_quiet(
    rules: Seq<AlertRule>,
    from: int,
    to: int,
    sent: Map<Seq<char>, Moment>,
    pipeline: Seq<char>,
    event: Event,
    now: Moment,
) -> bool {
    forall|j: int|
        from <= j < to ==> is_quiet(#[trigger] rules[j], j, sent, pipeline, event, now)
}

/// What is to be done about the rules next.
#[derive(Debug, PartialEq, Eq)]
pub enum Turn {
    /// Send the alert of the rule at this place.
    Send(usize),
    /// The cooldown of the rule at this place cannot be measured.
    Unmeasurable(usize),
    /// Nothing more.
    Done,
}

/// Whether this is what is to be done about the rules next, from one place on.
pub open spec fn is_turn(
    rules: Seq<AlertRule>,
    from: int,
    sent: Map<Seq<char>, Moment>,
    pipeline: Seq<char>,
    event: Event,
    now: Moment,
    turn: Turn,
) -> bool {
    match turn {
        Turn::Send(i) => {
            &&& from <= i < rules.len()
            &&& is_wanted(rules[i as int], i as int, sent, pipeline, event, now)
            &&& all_quiet(rules, from, i as int, sent, pipeline, event, now)
        },
        Turn::Unmeasurable(i) => {
            &&& from <= i < rules.len()
            &&& is_unmeasurable(rules[i as int], i as int, sent, pipeline, event, now)
            &&& all_quiet(rules, from, i as int, sent, pipeline, event, now)
        },
        Turn::Done => all_quiet(rules, from, rules.len() as int, sent, pipeline, event, now),
    }
}

/// The second of its day that a moment lies in.
fn day_second(m: Moment) -> (r: i64)
    requires
        in_calendar(m),
    ensures
        r == second_of_day(m),
{
    let past: i64 = m.secs - FIRST_SECOND;
    assert(FIRST_SECOND % 86_400 == 0);
    past % 86_400
}

/// Whether a cooldown is one that can be measured.
pub fn cooldown_is_measurable(minutes: u64) -> (r: bool)
    ensures
        r == cooldown_fits(minutes),
{
    if minutes <= i64::MAX as u64 {
        minutes <= (LONGEST_STEP / 60) as u64
    } else {
        u64::MAX - minutes < (LONGEST_STEP / 60) as u64
    }
}

/// Whether a rule's alert is still being held back.
fn is_cooling(last: Moment, now: Moment, minutes: u64) -> (r: bool)
    requires
        in_calendar(last),
        in_calendar(now),
        cooldown_fits(minutes),
    ensures
        r == cooling(last, now, minutes),
{
    let a = day_second(last);
    let b = day_second(now);
    let leap: i128 = if b > a && last.nanos >= 1_000_000_000 {
        1
    } else if b < a && now.nanos >= 1_000_000_000 {
        -1
    } else {
        0
    };
    let passed: i128 = (now.secs as i128 - last.secs as i128 + leap) * 1_000_000_000 + (now.nanos as i128
        - last.nanos as i128);
    let signed: i128 = if minutes <= i64::MAX as u64 {
        minutes as i128
    } else {
        minutes as i128 - 0x1_0000_0000_0000_0000
    };
    passed < signed * 60 * 1_000_000_000
}

/// Whether a list of events holds one.
fn has_event(on: &Vec<Event>, event: Event) -> (r: bool)
    ensures
        r == on@.contains(event),
{
    let mut i: usize = 0;
    while i < on.len()
        invariant
            i <= on@.len(),
            forall|j: int| 0 <= j < i ==> on@[j] != event,
        decreases on@.len() - i,
    {
        if on[i] == event {
            assert(on@[i as int] == event);
            return true;
        }
        i = i + 1;
    }
    false
}

impl AlertState {
    /// Nothing is remembered.
    pub fn new() -> (r: AlertState)
        ensures
            r.last_status@ == Map::<Seq<char>, String>::empty(),
            r.last_sent@ == Map::<Seq<char>, Moment>::empty(),
    {
        AlertState { last_status: TextMap::new(), last_sent: TextMap::new() }
    }

    /// Which event a run represents.
    pub fn event(&self, pipeline_id: &str, result: &RunResult) -> (r: Event)
        ensures
            r == event_of(
                result.status@,
                if self.last_status@.dom().contains(pipeline_id@) {
                    Some(self.last_status@[pipeline_id@]@)
                } else {
                    None
                },
            ),
    {
        match self.last_status.get(pipeline_id) {
            Some(prev) => classify(result, Some(prev.as_str())),
            None => classify(result, None),
        }
    }

    /// The next rule, from this one on, that wants an alert sent now. Each rule
    /// has its own cooldown: what one sent holds no other back.
    pub fn next_rule(
        &self,
        rules: &Vec<AlertRule>,
        from: usize,
        pipeline_id: &str,
        event: Event,
        now: Moment,
    ) -> (r: Turn)
        ensures
            is_turn(rules@, from as int, self.last_sent@, pipeline_id@, event, now, r),
    {
        let mut i: usize = from;
        while i < rules.len()
            invariant
                from <= i,
                i <= rules@.len() || i == from,
                all_quiet(
                    rules@,
                    from as int,
                    i as int,
                    self.last_sent@,
                    pipeline_id@,
                    event,
                    now,
                ),
            decreases rules@.len() - i,
        {
            let rule = &rules[i];
            let mine = covers(rule.pattern.as_str(), pipeline_id);
            let ghost windows = choose|windows: bool|
                mine == #[trigger] covered(rule.pattern@, pipeline_id@, windows);
            let ghost sent = self.last_sent@;
            let ghost wanted = wants(
                rules@[i as int],
                i as int,
                sent,
                pipeline_id@,
                event,
                now,
                windows,
            );
            let ghost measured = measurable(
                rules@[i as int],
                i as int,
                sent,
                pipeline_id@,
                event,
                now,
                windows,
            );
            assert(mine == covered(rule.pattern@, pipeline_id@, windows));
            if mine && has_event(&rule.on, event) {
                let key = key_of(pipeline_id, event, i);
                let last: Option<Moment> = if event == Event::Recovery {
                    None
                } else {
                    match self.last_sent.get(key.as_str()) {
                        Some(t) => Some(*t),
                        None => None,
                    }
                };
                match last {
                    None => {
                        assert(wanted && measured);
                        assert(is_wanted(rules@[i as int], i as int, sent, pipeline_id@, event, now));
                        return Turn::Send(i);
                    },
                    Some(t) => {
                        if !cooldown_is_measurable(rule.cooldown_minutes) || !on_calendar(now)
                            || !on_calendar(t) {
                            assert(!measured);
                            assert(is_unmeasurable(rules@[i as int], i as int, sent, pipeline_id@, event, now));
                            return Turn::Unmeasurable(i);
                        }
                        if !is_cooling(t, now, rule.cooldown_minutes) {
                            assert(wanted && measured);
                            assert(is_wanted(rules@[i as int], i as int, sent, pipeline_id@, event, now));
                            return Turn::Send(i);
                        }
                    },
                }
            }
            assert(measured && !wanted);
            assert(is_quiet(rules@[i as int], i as int, sent, pipeline_id@, event, now));
            i = i + 1;
        }
        Turn::Done
    }

    /// The alert of the rule at this place was delivered: it is remembered, for
    /// that rule's cooldown.
    pub fn delivered(&mut self, rule: usize, pipeline_id: &str, event: Event, now: Moment)
        ensures
            final(self).last_sent@ == old(self).last_sent@.insert(
                sent_key(pipeline_id@, event, rule as int),
                now,
            ),
            final(self).last_status@ == old(self).last_status@,
    {
        self.last_sent.insert(key_of(pipeline_id, event, rule), now);
    }

    /// How the pipeline finished is remembered, whether or not anyone was told,
    /// so that the eventual recovery is spotted.
    pub fn finished(&mut self, pipeline_id: &str, result: &RunResult)
        ensures
            final(self).last_status@ == old(self).last_status@.insert(pipeline_id@, result.status),
            final(self).last_sent@ == old(self).last_sent@,
    {
        self.last_status.insert(pipeline_id.to_owned(), result.status.clone());
    }
}

// ---------------------------------------------------------------------------
// Placeholders
// ---------------------------------------------------------------------------

/// How long the placeholder `${ENV:NAME}` at the front of `s` is, unless there is
/// none. The name has at least one character, and runs to the first `}`.
pub open spec fn placeholder(s: Seq<char>) -> Option<int> {
    if begins(s, "${ENV:"@) {
        let j = find(s.skip(6), '}');
        if 0 < j < s.len() - 6 {
            Some(j + 7)
        } else {
            None
        }
    } else {
        None
    }
}

/// The name in a placeholder of that length.
pub open spec fn placeholder_name(s: Seq<char>, n: int) -> Seq<char> {
    trimmed(s.subrange(6, n - 1))
}

/// A text with its placeholders replaced by the values that are known. One whose
/// value is not known stays.
pub open spec fn expanded(s: Seq<char>, env: Map<Seq<char>, Seq<char>>) -> Seq<char>
    decreases s.len(),
{
    if s.len() == 0 {
        Seq::empty()
    } else {
        match placeholder(s) {
            Some(n) => if 0 < n <= s.len() {
                (if env.dom().contains(placeholder_name(s, n)) {
                    env[placeholder_name(s, n)]
                } else {
                    s.take(n)
                }) + expanded(s.skip(n), env)
            } else {
                Seq::empty()
            },
            None => seq![s[0]] + expanded(s.drop_first(), env),
        }
    }
}

/// The names in the placeholders of a text, in order.
pub open spec fn names_in(s: Seq<char>) -> Seq<Seq<char>>
    decreases s.len(),
{
    if s.len() == 0 {
        Seq::empty()
    } else {
        match placeholder(s) {
            Some(n) => if 0 < n <= s.len() {
                seq![placeholder_name(s, n)] + names_in(s.skip(n))
            } else {
                Seq::empty()
            },
            None => names_in(s.drop_first()),
        }
    }
}

/// Where the placeholder that starts at `i` ends, unless none does.
fn placeholder_end(v: &Vec<char>, i: usize) -> (r: Option<usize>)
    requires
        i <= v@.len(),
    ensures
        match r {
            Some(e) => i + 7 < e <= v@.len() && placeholder(v@.skip(i as int)) == Some(e - i),
            None => placeholder(v@.skip(i as int)) is None,
        },
{
    let mark = chars_of("${ENV:");
    let ghost rest = v@.skip(i as int);
    proof {
        reveal_strlit("${ENV:");
        assert("${ENV:"@.len() == 6);
        assert(i + 6 <= v@.len() ==> v@.subrange(i as int, i + 6) == rest.take(6));
    }
    if !stands(v, &mark, i) {
        return None;
    }
    let total: usize = v.len();
    let close = find_from(v, i + 6, '}');
    proof {
        assert(v@.skip(i + 6) == rest.skip(6));
        lemma_find(rest.skip(6), '}');
    }
    if close == i + 6 || close == total {
        None
    } else {
        Some(close + 1)
    }
}

/// The names in the placeholders of a text, for the caller to look up.
pub fn placeholder_names(value: &str) -> (r: Vec<String>)
    ensures
        texts(r@) == names_in(value@),
{
    let v = chars_of(value);
    let mut out: Vec<String> = Vec::new();
    let mut i: usize = 0;
    assert(v@.skip(0) == v@);
    assert(texts(out@) + names_in(v@) == names_in(v@));
    while i < v.len()
        invariant
            i <= v@.len(),
            v@ == value@,
            texts(out@) + names_in(v@.skip(i as int)) == names_in(value@),
        decreases v@.len() - i,
    {
        let ghost rest = v@.skip(i as int);
        let ghost before = texts(out@);
        match placeholder_end(&v, i) {
            Some(e) => {
                let raw = text_of(&v, i + 6, e - 1);
                assert(raw@ == rest.subrange(6, e - i - 1));
                let name = trim(raw.as_str());
                let ghost nv = name@;
                out.push(name);
                assert(texts(out@) == before.push(nv));
                assert(rest.skip(e - i) == v@.skip(e as int));
                assert(texts(out@) + names_in(v@.skip(e as int)) == before + names_in(rest));
                i = e;
            },
            None => {
                assert(rest.drop_first() == v@.skip(i + 1));
                i = i + 1;
            },
        }
    }
    assert(v@.skip(i as int).len() == 0);
    assert(texts(out@) + Seq::<Seq<char>>::empty() == texts(out@));
    out
}

/// Expand `${ENV:NAME}` with the values that are known, so a webhook url or
/// password is not committed.
pub fn resolve_env(value: &str, env: &TextMap<String>) -> (r: String)
    ensures
        r@ == expanded(value@, map_texts(env@)),
{
    let v = chars_of(value);
    let ghost known = map_texts(env@);
    let mut out = String::new();
    let mut i: usize = 0;
    assert(v@.skip(0) == v@);
    assert(out@ + expanded(v@, known) == expanded(v@, known));
    while i < v.len()
        invariant
            i <= v@.len(),
            v@ == value@,
            known == map_texts(env@),
            out@ + expanded(v@.skip(i as int), known) == expanded(value@, known),
        decreases v@.len() - i,
    {
        let ghost rest = v@.skip(i as int);
        let ghost before = out@;
        match placeholder_end(&v, i) {
            Some(e) => {
                let raw = text_of(&v, i + 6, e - 1);
                assert(raw@ == rest.subrange(6, e - i - 1));
                let name = trim(raw.as_str());
                match env.get(name.as_str()) {
                    Some(known_value) => out.append(known_value.as_str()),
                    None => {
                        let whole = text_of(&v, i, e);
                        assert(whole@ == rest.take(e - i));
                        out.append(whole.as_str());
                    },
                }
                assert(rest.skip(e - i) == v@.skip(e as int));
                assert(out@ + expanded(v@.skip(e as int), known) == before + expanded(rest, known));
                i = e;
            },
            None => {
                out.push(v[i]);
                assert(rest.drop_first() == v@.skip(i + 1));
                assert(out@ + expanded(v@.skip(i + 1), known) == before + expanded(rest, known));
                i = i + 1;
            },
        }
    }
    assert(v@.skip(i as int).len() == 0);
    assert(out@ + Seq::<char>::empty() == out@);
    out
}

/// Where a webhook alert is posted to.
pub open spec fn is_webhook(url: &str, env: &TextMap<String>, r: Result<String, String>) -> bool {
    ({
        let to = expanded(url@, map_texts(env@));
        if mentions(to, "${ENV:"@) {
            r matches Err(e) && e@ == to + " still has an unset ${ENV:...} placeholder"@
        } else {
            r matches Ok(u) && u@ == to
        }
    })
}

/// Where a webhook alert is posted to. A url that still has a placeholder in it
/// is refused rather than posted to.
pub fn webhook_url(url: &str, env: &TextMap<String>) -> (r: Result<String, String>)
    ensures
        is_webhook(url, env, r),
{
    let to = resolve_env(url, env);
    if contains(to.as_str(), "${ENV:") {
        Err(glue2(to.as_str(), " still has an unset ${ENV:...} placeholder"))
    } else {
        Ok(to)
    }
}

// ---------------------------------------------------------------------------
// Laws
// ---------------------------------------------------------------------------

/// A return to health is its own event: a success after anything else than a
/// success, and never any other run.
pub proof fn law_a_return_to_health_is_its_own_event(status: Seq<char>, previous: Option<Seq<char>>)
    ensures
        event_of(status, previous) == Event::Recovery <==> status == "ok"@ && previous is Some
            && previous->0 != "ok"@,
        event_of(status, previous) == Event::Failure <==> status != "ok"@,
{
}

/// A repeat within the cooldown is held back: once a rule sent an alert, it does
/// not want the same event of the same pipeline again before its cooldown is
/// over.
pub proof fn law_repeats_are_suppressed(
    rule: AlertRule,
    i: int,
    sent: Map<Seq<char>, Moment>,
    pipeline: Seq<char>,
    event: Event,
    then: Moment,
    now: Moment,
    windows: bool,
)
    requires
        event != Event::Recovery,
        nanos_between(then, now) < step_of(rule.cooldown_minutes) * 60 * 1_000_000_000,
    ensures
        !wants(
            rule,
            i,
            sent.insert(sent_key(pipeline, event, i), then),
            pipeline,
            event,
            now,
            windows,
        ),
{
}

/// A rule's cooldown is its own: what one rule sent changes nothing for another.
pub proof fn law_rules_do_not_hold_each_other_back(
    rule: AlertRule,
    i: int,
    j: int,
    sent: Map<Seq<char>, Moment>,
    pipeline: Seq<char>,
    event: Event,
    then: Moment,
    now: Moment,
    windows: bool,
)
    requires
        0 <= i,
        0 <= j,
        i != j,
    ensures
        wants(
            rule,
            j,
            sent.insert(sent_key(pipeline, event, i), then),
            pipeline,
            event,
            now,
            windows,
        ) == wants(rule, j, sent, pipeline, event, now, windows),
{
    if sent_key(pipeline, event, i) == sent_key(pipeline, event, j) {
        law_cooldowns_do_not_mix(pipeline, event, i, pipeline, event, j);
    }
}

/// The all-clear goes out however recently anything was sent.
pub proof fn law_the_all_clear_ignores_the_cooldown(
    rule: AlertRule,
    i: int,
    sent: Map<Seq<char>, Moment>,
    pipeline: Seq<char>,
    now: Moment,
    windows: bool,
)
    requires
        asks_for(rule, pipeline, Event::Recovery, windows),
    ensures
        wants(rule, i, sent, pipeline, Event::Recovery, now, windows),
{
}

/// What is remembered for one pipeline, event and rule is not remembered for
/// another.
pub proof fn law_cooldowns_do_not_mix(
    p: Seq<char>,
    e: Event,
    i: int,
    q: Seq<char>,
    f: Event,
    j: int,
)
    requires
        0 <= i,
        0 <= j,
        sent_key(p, e, i) == sent_key(q, f, j),
    ensures
        p == q,
        e == f,
        i == j,
{
    reveal_strlit("|");
    reveal_strlit("failure");
    reveal_strlit("recovery");
    reveal_strlit("success");
    let a = sent_key(p, e, i);
    let b = sent_key(q, f, j);
    let x = decimal(i as nat);
    let y = decimal(j as nat);
    lemma_decimal(i as nat);
    lemma_decimal(j as nat);
    if x.len() < y.len() {
        assert(a[a.len() - x.len() - 1] == '|');
        assert(b[b.len() - x.len() - 1] == y[y.len() - x.len() - 1]);
    } else if y.len() < x.len() {
        assert(b[b.len() - y.len() - 1] == '|');
        assert(a[a.len() - y.len() - 1] == x[x.len() - y.len() - 1]);
    }
    let n = a.len() - x.len();
    assert(x == a.skip(n));
    assert(y == b.skip(n));
    law_decimal_is_injective(i as nat, j as nat);
    let c = p + "|"@ + event_name(e);
    let d = q + "|"@ + event_name(f);
    assert(c == a.take(n - 1));
    assert(d == b.take(n - 1));
    assert(c.last() == event_name(e).last());
    assert(d.last() == event_name(f).last());
    assert(e == f);
    let m = p.len();
    assert(q.len() == m);
    assert(p == c.take(m as int));
    assert(q == d.take(m as int));
}

/// A text without placeholders stays as it is.
pub proof fn law_plain_values_stay(s: Seq<char>, env: Map<Seq<char>, Seq<char>>)
    requires
        !mentions(s, "${ENV:"@),
    ensures
        expanded(s, env) == s,
        names_in(s).len() == 0,
    decreases s.len(),
{
    if s.len() > 0 {
        reveal_strlit("${ENV:");
        if begins(s, "${ENV:"@) {
            assert(s.subrange(0, 6) == s.take(6));
            assert(stands_at(s, "${ENV:"@, 0));
        }
        let rest = s.drop_first();
        assert(!mentions(rest, "${ENV:"@)) by {
            if mentions(rest, "${ENV:"@) {
                let i = choose|i: int| stands_at(rest, "${ENV:"@, i);
                assert(s.subrange(i + 1, i + 7) == rest.subrange(i, i + 6));
                assert(stands_at(s, "${ENV:"@, i + 1));
            }
        }
        law_plain_values_stay(rest, env);
        assert(seq![s[0]] + rest == s);
    }
}

/// A rule that is for the pipeline and the event, and has not sent it before,
/// wants its alert; one that is for another event never does.
pub proof fn law_a_rule_that_asks_is_heard(
    rule: AlertRule,
    i: int,
    sent: Map<Seq<char>, Moment>,
    pipeline: Seq<char>,
    event: Event,
    now: Moment,
    windows: bool,
)
    ensures
        covered(rule.pattern@, pipeline, windows) && rule.on@.contains(event) && !sent.dom().contains(
            sent_key(pipeline, event, i),
        ) ==> wants(rule, i, sent, pipeline, event, now, windows) && measurable(
            rule,
            i,
            sent,
            pipeline,
            event,
            now,
            windows,
        ),
        !rule.on@.contains(event) ==> !wants(rule, i, sent, pipeline, event, now, windows),
        !covered(rule.pattern@, pipeline, windows) ==> !wants(
            rule,
            i,
            sent,
            pipeline,
            event,
            now,
            windows,
        ),
{
}

/// A rule that sent an alert wants the same one again once its minutes have
/// passed, to the nanosecond, and not before. An all-clear does not wait.
pub proof fn law_a_cooldown_lasts_its_minutes(
    rule: AlertRule,
    i: int,
    sent: Map<Seq<char>, Moment>,
    pipeline: Seq<char>,
    event: Event,
    now: Moment,
    windows: bool,
)
    requires
        covered(rule.pattern@, pipeline, windows),
        rule.on@.contains(event),
        sent.dom().contains(sent_key(pipeline, event, i)),
        sent[sent_key(pipeline, event, i)].nanos < 1_000_000_000,
        now.nanos < 1_000_000_000,
        rule.cooldown_minutes <= i64::MAX,
    ensures
        ({
            let last = sent[sent_key(pipeline, event, i)];
            let over = now.secs - last.secs > rule.cooldown_minutes * 60 || (now.secs - last.secs
                == rule.cooldown_minutes * 60 && now.nanos >= last.nanos);
            wants(rule, i, sent, pipeline, event, now, windows) <==> event == Event::Recovery || over
        }),
{
}

/// Ordinary cooldowns at ordinary times can be measured.
pub proof fn law_an_ordinary_cooldown_is_measured(
    rule: AlertRule,
    i: int,
    sent: Map<Seq<char>, Moment>,
    pipeline: Seq<char>,
    event: Event,
    now: Moment,
    windows: bool,
)
    requires
        rule.cooldown_minutes <= 153_722_867_280_912,
        now.nanos < 1_000_000_000,
        -8_334_601_228_800 <= now.secs <= 8_210_266_876_799,
        sent.dom().contains(sent_key(pipeline, event, i)) ==> {
            let last = sent[sent_key(pipeline, event, i)];
            last.nanos < 1_000_000_000 && -8_334_601_228_800 <= last.secs <= 8_210_266_876_799
        },
    ensures
        measurable(rule, i, sent, pipeline, event, now, windows),
{
}

/// A lone star is for every pipeline, and any other pattern for those that the
/// glob matches.
pub proof fn law_whom_a_pattern_covers(pattern: Seq<char>, pipeline: Seq<char>, windows: bool)
    ensures
        covered("*"@, pipeline, windows),
        pattern != "*"@ ==> (covered(pattern, pipeline, windows) <==> glob_matches(
            pattern,
            pipeline,
            windows,
        ) == Some(true)),
{
}

/// What a run counts as: anything but `ok` is a failure; an `ok` after something
/// else is a recovery; any other `ok` is a success.
pub proof fn law_what_a_run_counts_as(status: Seq<char>, previous: Seq<char>)
    ensures
        status != "ok"@ ==> event_of(status, Some(previous)) == Event::Failure && event_of(status, None)
            == Event::Failure,
        status == "ok"@ && previous != "ok"@ ==> event_of(status, Some(previous)) == Event::Recovery,
        status == "ok"@ && previous == "ok"@ ==> event_of(status, Some(previous)) == Event::Success,
        status == "ok"@ ==> event_of(status, None) == Event::Success,
{
}

/// Events are told apart by name.
pub proof fn law_event_names()
    ensures
        event_name(Event::Failure) == "failure"@,
        event_name(Event::Recovery) == "recovery"@,
        event_name(Event::Success) == "success"@,
{
}

/// A message names the pipeline and how long it took, and a failure names its
/// cause last.
pub proof fn law_what_a_message_says(
    pipeline: Seq<char>,
    seconds: Seq<char>,
    error: Seq<char>,
)
    ensures
        summary(Event::Failure, pipeline, seconds, Some(error)) == "Duckle: "@ + pipeline
            + " FAILED after "@ + seconds + "s - "@ + error,
        summary(Event::Failure, pipeline, seconds, None) == "Duckle: "@ + pipeline
            + " FAILED after "@ + seconds + "s - no error message"@,
        summary(Event::Recovery, pipeline, seconds, Some(error)) == "Duckle: "@ + pipeline
            + " recovered, succeeded in "@ + seconds + "s"@,
        summary(Event::Recovery, pipeline, seconds, None) == "Duckle: "@ + pipeline
            + " recovered, succeeded in "@ + seconds + "s"@,
        summary(Event::Success, pipeline, seconds, Some(error)) == "Duckle: "@ + pipeline
            + " succeeded in "@ + seconds + "s"@,
        summary(Event::Success, pipeline, seconds, None) == "Duckle: "@ + pipeline
            + " succeeded in "@ + seconds + "s"@,
{
    reveal_strlit("s - ");
    reveal_strlit("no error message");
    reveal_strlit("s - no error message");
    assert("s - "@ + "no error message"@ == "s - no error message"@);
    let head = "Duckle: "@ + pipeline + " FAILED after "@ + seconds;
    assert(head + "s - "@ + "no error message"@ == head + ("s - "@ + "no error message"@));
}

/// A message is posted with each thing it has under its own name, and without
/// what it does not have.
pub proof fn law_what_is_posted(m: Message)
    ensures
        member(message_members(m), "event"@) == Some(Doc::Text(m.event@)),
        member(message_members(m), "pipeline"@) == Some(Doc::Text(m.pipeline@)),
        member(message_members(m), "status"@) == Some(Doc::Text(m.status@)),
        member(message_members(m), "durationMs"@) == Some(Doc::Number(m.duration_ms)),
        member(message_members(m), "text"@) == Some(Doc::Text(m.text@)),
        member(message_members(m), "error"@) == match m.error {
            Some(e) => Some(Doc::Text(e@)),
            None => None::<Doc>,
        },
        member(message_members(m), "category"@) == match m.category {
            Some(e) => Some(Doc::Text(e@)),
            None => None::<Doc>,
        },
{
    reveal_strlit("event");
    reveal_strlit("pipeline");
    reveal_strlit("status");
    reveal_strlit("durationMs");
    reveal_strlit("text");
    reveal_strlit("error");
    reveal_strlit("category");
    assert("event"@.len() == 5 && "error"@.len() == 5 && "event"@[1] == 'v' && "error"@[1] == 'r');
    assert("pipeline"@.len() == 8 && "category"@.len() == 8 && "pipeline"@[0] == 'p'
        && "category"@[0] == 'c');
    assert("status"@.len() == 6 && "durationMs"@.len() == 10 && "text"@.len() == 4);
    let all = message_members(m);
    let e: Seq<(Seq<char>, Doc)> = optional("error"@, text_opt(m.error));
    let c: Seq<(Seq<char>, Doc)> = optional("category"@, text_opt(m.category));
    let head = seq![
        ("event"@, Doc::Text(m.event@)),
        ("pipeline"@, Doc::Text(m.pipeline@)),
        ("status"@, Doc::Text(m.status@)),
        ("durationMs"@, Doc::Number(m.duration_ms)),
    ];
    let last = seq![("text"@, Doc::Text(m.text@))];
    assert(all == head + e + c + last);
    law_a_member_is_found_by_its_name(all, 0);
    law_a_member_is_found_by_its_name(all, 1);
    law_a_member_is_found_by_its_name(all, 2);
    law_a_member_is_found_by_its_name(all, 3);
    law_a_member_is_found_by_its_name(all, all.len() - 1);
    if m.error is Some {
        assert(all[4] == e[0]);
        law_a_member_is_found_by_its_name(all, 4);
    } else {
        law_what_has_no_member(all, "error"@);
    }
    if m.category is Some {
        assert(all[(4 + e.len()) as int] == c[0]);
        law_a_member_is_found_by_its_name(all, (4 + e.len()) as int);
    } else {
        law_what_has_no_member(all, "category"@);
    }
}

/// A mail goes out when it has recipients and every address on it is one; the
/// first that is not is named.
pub proof fn law_whom_a_mail_reaches(from: Seq<char>, to: Seq<Seq<char>>)
    ensures
        mail_refusal(from, to) is None <==> to.len() > 0 && mailbox_refusal(from) is None && forall|
            i: int,
        |
            0 <= i < to.len() ==> mailbox_refusal(#[trigger] to[i]) is None,
        to.len() == 0 ==> mail_refusal(from, to) == Some("email alert has no recipients"@),
        to.len() > 0 && mailbox_refusal(from) is Some ==> mail_refusal(from, to) == Some(
            "from address: "@ + mailbox_refusal(from)->0,
        ),
        forall|i: int|
            0 <= i < to.len() && mailbox_refusal(from) is None && mailbox_refusal(#[trigger] to[i]) is Some
                && (forall|j: int| 0 <= j < i ==> mailbox_refusal(#[trigger] to[j]) is None)
                ==> mail_refusal(from, to) == Some(
                "to address "@ + to[i] + ": "@ + mailbox_refusal(to[i])->0,
            ),
{
    lemma_bad_recipient(to);
}

proof fn lemma_bad_recipient(to: Seq<Seq<char>>)
    ensures
        bad_recipient(to) is None <==> forall|i: int|
            0 <= i < to.len() ==> mailbox_refusal(#[trigger] to[i]) is None,
        bad_recipient(to) is Some ==> mailbox_refusal(bad_recipient(to)->0) is Some,
        forall|i: int|
            0 <= i < to.len() && mailbox_refusal(#[trigger] to[i]) is Some && (forall|j: int|
                0 <= j < i ==> mailbox_refusal(#[trigger] to[j]) is None) ==> bad_recipient(to)
                == Some(to[i]),
    decreases to.len(),
{
    if to.len() > 0 && mailbox_refusal(to[0]) is None {
        let rest = to.drop_first();
        lemma_bad_recipient(rest);
        assert forall|i: int| 0 <= i < to.len() && mailbox_refusal(#[trigger] to[i]) is Some && (forall|
            j: int,
        |
            0 <= j < i ==> mailbox_refusal(#[trigger] to[j]) is None) implies bad_recipient(to)
            == Some(to[i]) by {
            assert(rest[i - 1] == to[i]);
            assert forall|j: int| 0 <= j < i - 1 implies mailbox_refusal(#[trigger] rest[j]) is None by {
                assert(rest[j] == to[j + 1]);
            }
        }
        if bad_recipient(to) is None {
            assert forall|i: int| 0 <= i < to.len() implies mailbox_refusal(#[trigger] to[i]) is None by {
                if i > 0 {
                    assert(rest[i - 1] == to[i]);
                }
            }
        } else {
            let k = choose|k: int| 0 <= k < rest.len() && mailbox_refusal(#[trigger] rest[k]) is Some;
            assert(rest[k] == to[k + 1]);
        }
    }
}

/// A placeholder is replaced by the value of its variable, and what stands before
/// and behind it is expanded by itself. One that is not set stays.
pub proof fn law_a_placeholder_becomes_its_value(
    name: Seq<char>,
    behind: Seq<char>,
    env: Map<Seq<char>, Seq<char>>,
)
    requires
        name.len() > 0,
        !name.contains('}'),
    ensures
        ({
            let written = "${ENV:"@ + name + "}"@;
            expanded(written + behind, env) == (if env.dom().contains(trimmed(name)) {
                env[trimmed(name)]
            } else {
                written
            }) + expanded(behind, env)
        }),
{
    reveal_strlit("${ENV:");
    reveal_strlit("}");
    let written = "${ENV:"@ + name + "}"@;
    let s = written + behind;
    assert(s.take(6) == "${ENV:"@);
    let tail = s.skip(6);
    assert(tail == name + "}"@ + behind);
    lemma_find(tail, '}');
    assert(tail[name.len() as int] == '}');
    assert(tail.contains('}'));
    assert(find(tail, '}') == name.len()) by {
        let k = find(tail, '}');
        if k < name.len() {
            assert(tail[k] == name[k]);
            assert(name.contains(name[k]));
        }
    }
    let n = name.len() + 7;
    assert(placeholder(s) == Some(n as int));
    assert(s.subrange(6, n - 1) == name);
    assert(s.take(n as int) == written);
    assert(s.skip(n as int) == behind);
}

/// What starts no placeholder is kept, character by character.
pub proof fn law_what_is_no_placeholder_is_kept(
    c: char,
    behind: Seq<char>,
    env: Map<Seq<char>, Seq<char>>,
)
    requires
        c != '$',
    ensures
        expanded(seq![c] + behind, env) == seq![c] + expanded(behind, env),
        expanded(Seq::empty(), env) == Seq::<char>::empty(),
{
    reveal_strlit("${ENV:");
    let s = seq![c] + behind;
    if begins(s, "${ENV:"@) {
        assert(s.take(6)[0] == s[0]);
    }
    assert(s.drop_first() == behind);
}

/// A message is about its pipeline and event, and carries how the run went as it
/// was reported.
pub proof fn law_what_a_message_carries(
    event: Event,
    pipeline: &str,
    result: &RunResult,
    seconds: &str,
    r: Message,
)
    requires
        is_message(event, pipeline, result, seconds, r),
    ensures
        r.event@ == (match event {
            Event::Failure => "failure"@,
            Event::Recovery => "recovery"@,
            Event::Success => "success"@,
        }),
        r.pipeline@ == pipeline@,
        r.status@ == result.status@,
        r.duration_ms == result.duration_ms,
        r.error == result.error,
        r.category == result.category,
        r.text@ == summary(event, pipeline@, seconds@, text_opt(result.error)),
{
}

/// A webhook is posted to the url with its placeholders filled in, and to none
/// while one is left.
pub proof fn law_where_a_webhook_goes(url: &str, env: &TextMap<String>, r: Result<String, String>)
    requires
        is_webhook(url, env, r),
    ensures
        r matches Ok(u) ==> u@ == expanded(url@, map_texts(env@)) && !mentions(u@, "${ENV:"@),
        !mentions(expanded(url@, map_texts(env@)), "${ENV:"@) ==> r is Ok,
        r matches Err(e) ==> e@ == expanded(url@, map_texts(env@))
            + " still has an unset ${ENV:...} placeholder"@,
{
}

/// While a rule for everything asks and has sent nothing, the rules up to it are
/// not all quiet.
pub proof fn law_who_asks_is_not_passed_over(
    rules: Seq<AlertRule>,
    from: int,
    to: int,
    i: int,
    sent: Map<Seq<char>, Moment>,
    pipeline: Seq<char>,
    event: Event,
    now: Moment,
)
    requires
        from <= i < to,
        rules[i].pattern@ == "*"@,
        rules[i].on@.contains(event),
        event == Event::Recovery || !sent.dom().contains(sent_key(pipeline, event, i)),
    ensures
        !all_quiet(rules, from, to, sent, pipeline, event, now),
        !is_quiet(rules[i], i, sent, pipeline, event, now),
        is_wanted(rules[i], i, sent, pipeline, event, now),
        !is_unmeasurable(rules[i], i, sent, pipeline, event, now),
{
    assert(wants(rules[i], i, sent, pipeline, event, now, true));
    if all_quiet(rules, from, to, sent, pipeline, event, now) {
        assert(is_quiet(rules[i], i, sent, pipeline, event, now));
    }
}

/// Rules that are for other events are quiet, and no rule is wanted for an event it
/// is not for.
pub proof fn law_who_does_not_ask_is_passed_over(
    rules: Seq<AlertRule>,
    from: int,
    to: int,
    rule: AlertRule,
    i: int,
    sent: Map<Seq<char>, Moment>,
    pipeline: Seq<char>,
    event: Event,
    now: Moment,
)
    ensures
        (forall|j: int| from <= j < to ==> !(#[trigger] rules[j]).on@.contains(event)) ==> all_quiet(
            rules,
            from,
            to,
            sent,
            pipeline,
            event,
            now,
        ),
        !rule.on@.contains(event) ==> !is_wanted(rule, i, sent, pipeline, event, now) && !is_unmeasurable(
            rule,
            i,
            sent,
            pipeline,
            event,
            now,
        ),
        is_unmeasurable(rule, i, sent, pipeline, event, now) ==> event != Event::Recovery
            && sent.dom().contains(sent_key(pipeline, event, i)),
{
    if forall|j: int| from <= j < to ==> !(#[trigger] rules[j]).on@.contains(event) {
        assert forall|j: int| from <= j < to implies is_quiet(
            #[trigger] rules[j],
            j,
            sent,
            pipeline,
            event,
            now,
        ) by {
            assert(!wants(rules[j], j, sent, pipeline, event, now, true));
        }
    }
}

/// The first rule that asks is the next to be sent: those before it are for other
/// events, it is for every pipeline and for this event, and it has not sent it
/// before.
pub proof fn law_the_first_rule_that_asks_is_sent(
    rules: Seq<AlertRule>,
    from: int,
    i: int,
    sent: Map<Seq<char>, Moment>,
    pipeline: Seq<char>,
    event: Event,
    now: Moment,
    turn: Turn,
)
    requires
        is_turn(rules, from, sent, pipeline, event, now, turn),
        from <= i < rules.len() <= usize::MAX,
        rules[i].pattern@ == "*"@,
        rules[i].on@.contains(event),
        event == Event::Recovery || !sent.dom().contains(sent_key(pipeline, event, i)),
        forall|j: int| from <= j < i ==> !(#[trigger] rules[j]).on@.contains(event),
    ensures
        turn == Turn::Send(i as usize),
{
    law_who_asks_is_not_passed_over(rules, from, rules.len() as int, i, sent, pipeline, event, now);
    match turn {
        Turn::Send(k) => {
            law_who_does_not_ask_is_passed_over(
                rules,
                from,
                from,
                rules[k as int],
                k as int,
                sent,
                pipeline,
                event,
                now,
            );
            if k > i {
                assert(is_quiet(rules[i], i, sent, pipeline, event, now));
            }
        },
        Turn::Unmeasurable(k) => {
            law_who_does_not_ask_is_passed_over(
                rules,
                from,
                from,
                rules[k as int],
                k as int,
                sent,
                pipeline,
                event,
                now,
            );
            if k > i {
                assert(is_quiet(rules[i], i, sent, pipeline, event, now));
            }
        },
        Turn::Done => {},
    }
}

/// Once no rule from a place on is for the event, there is nothing more to do; and
/// what is sent is always of a rule from that place on that is for the event.
pub proof fn law_what_is_sent_was_asked_for(
    rules: Seq<AlertRule>,
    from: int,
    sent: Map<Seq<char>, Moment>,
    pipeline: Seq<char>,
    event: Event,
    now: Moment,
    turn: Turn,
)
    requires
        is_turn(rules, from, sent, pipeline, event, now, turn),
    ensures
        turn matches Turn::Send(i) ==> from <= i < rules.len() && rules[i as int].on@.contains(event) && (
        rules[i as int].pattern@ == "*"@ || exists|windows: bool| #[trigger]
            glob_matches(rules[i as int].pattern@, pipeline, windows) == Some(true)),
        turn matches Turn::Unmeasurable(i) ==> from <= i < rules.len() && rules[i as int].on@.contains(
            event,
        ) && event != Event::Recovery,
        (forall|j: int| from <= j < rules.len() ==> !(#[trigger] rules[j]).on@.contains(event)) ==> turn
            is Done,
{
    match turn {
        Turn::Send(i) => {
            let windows = choose|windows: bool|
                measurable(rules[i as int], i as int, sent, pipeline, event, now, windows)
                    && #[trigger] wants(
                    rules[i as int],
                    i as int,
                    sent,
                    pipeline,
                    event,
                    now,
                    windows,
                );
            assert(covered(rules[i as int].pattern@, pipeline, windows));
        },
        _ => {},
    }
}

/// What passed while the clock moved on by some seconds is those seconds, also
/// from within a leap second, as long as the day stays the same.
pub proof fn law_what_passed_is_measured(from: Moment, s: int)
    requires
        in_calendar(from),
        can_step(from, s),
    ensures
        from.nanos < 1_000_000_000 ==> nanos_between(from, later(from, s)) == s * 1_000_000_000,
        from.secs as int / 86_400 == later(from, s).secs as int / 86_400 ==> nanos_between(
            from,
            later(from, s),
        ) == s * 1_000_000_000,
{
}

/// What passed from one moment to another is what it takes to go back.
pub proof fn law_the_way_back_is_as_long(a: Moment, b: Moment)
    ensures
        nanos_between(b, a) == -nanos_between(a, b),
{
}

} // verus!
