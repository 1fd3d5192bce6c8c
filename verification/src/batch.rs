//! Work handed out as a file, so more than one machine can get through it.
//!
//! A batch is a file in the workspace with one JSON object per line. One object
//! per line means a worker can stream a batch without holding it in memory, and
//! a half-written last line is discardable rather than fatal. `v` is on every
//! line rather than in a header because a worker may start reading at any
//! offset, and a line that cannot say what it is cannot be safely skipped.
use crate::moment::{in_calendar, Moment};
use crate::number::{decimal, decimal_of};
use crate::order::TextMap;
use crate::paths::{join, under};
use crate::runlock::{flatten, flattened, is_plain};
use crate::text::{
    find, glue2, glue3, is_blank, is_digit, is_white_space, law_trimmed_to_nothing, lemma_find, lines, split_lines, texts, trimmed,
    without_cr,
};
use vstd::prelude::*;
use vstd::string::*;

verus! {

/// One unit of work: one row of the driving query, and the child to run for it.
#[derive(Debug)]
pub struct WorkItem {
    /// Format version of THIS line. See the module note.
    pub v: u32,
    /// The batch this line belongs to, repeated per line so a line stays
    /// meaningful when it is copied out of the file into a log or a message.
    pub batch: String,
    /// Position in the driving query. Ordering information, never identity:
    /// see `item`.
    pub index: usize,
    /// What this item IS, from the item key column. This is what makes the run
    /// name and therefore the watermark, so it is the field that decides whether
    /// two items share state.
    pub item: Option<String>,
    /// The child pipeline reference, exactly as authored on the node.
    pub child: String,
    /// The `${ITER_*}` substitutions for this row.
    pub vars: TextMap<String>,
}

/// The folder of batches in a workspace.
pub fn batches_dir(workspace: &str, windows: bool) -> (r: String)
    ensures
        r@ == under(workspace@, "batches"@, windows),
{
    join(workspace, "batches", windows)
}

/// The file of a batch in a workspace.
pub fn batch_path(workspace: &str, batch_id: &str, windows: bool) -> (r: String)
    ensures
        r@ == under(under(workspace@, "batches"@, windows), batch_id@ + ".ndjson"@, windows),
{
    let dir = batches_dir(workspace, windows);
    let name = glue2(batch_id, ".ndjson");
    join(dir.as_str(), name.as_str(), windows)
}

/// The name a batch is written under until it is complete, so that a worker
/// scanning the folder never takes a batch that is still being written for a
/// smaller one.
pub fn temporary_name(batch_id: &str, process_id: u32) -> (r: String)
    ensures
        r@ == batch_id@ + "."@ + decimal(process_id as nat) + ".ndjson.tmp"@,
{
    let n = decimal_of(process_id as u64);
    let mut out = glue3(batch_id, ".", n.as_str());
    out.append(".ndjson.tmp");
    out
}

// ---------------------------------------------------------------------------
// Names for batches
// ---------------------------------------------------------------------------

/// The last `width` decimal digits of `n`.
pub open spec fn pad(n: nat, width: nat) -> Seq<char>
    decreases width,
{
    if width == 0 {
        Seq::empty()
    } else {
        pad(n / 10, (width - 1) as nat).push((48 + n % 10) as char)
    }
}

/// How many days before or after the start of 1970 a date of the Gregorian
/// calendar is.
pub open spec fn day_number(year: int, month: int, day: int) -> int {
    let y = if month <= 2 {
        year - 1
    } else {
        year
    };
    let of_era = y % 400;
    let of_year = (153 * (if month > 2 {
        month - 3
    } else {
        month + 9
    }) + 2) / 5 + day - 1;
    y / 400 * 146_097 + of_era * 365 + of_era / 4 - of_era / 100 + of_year - 719_468
}

/// A date and a time of day, to the millisecond.
pub struct Stamp {
    pub year: int,
    pub month: int,
    pub day: int,
    pub hour: int,
    pub minute: int,
    pub second: int,
    pub milli: int,
}

/// Whether every part of a stamp is in its range.
pub open spec fn is_stamp(s: Stamp) -> bool {
    &&& 0 <= s.year <= 9999
    &&& 1 <= s.month <= 12
    &&& 1 <= s.day <= 31
    &&& 0 <= s.hour <= 23
    &&& 0 <= s.minute <= 59
    &&& 0 <= s.second <= 59
    &&& 0 <= s.milli <= 999
}

/// How many milliseconds after the start of 1970 a stamp is.
pub open spec fn stamp_millis(s: Stamp) -> int {
    (((day_number(s.year, s.month, s.day) * 24 + s.hour) * 60 + s.minute) * 60 + s.second) * 1000 + s.milli
}

/// A stamp as it is written: `20260816T101112123`.
pub open spec fn stamp_text(s: Stamp) -> Seq<char> {
    pad(s.year as nat, 4) + pad(s.month as nat, 2) + pad(s.day as nat, 2) + seq!['T'] + pad(
        s.hour as nat,
        2,
    ) + pad(s.minute as nat, 2) + pad(s.second as nat, 2) + pad(s.milli as nat, 3)
}

/// The milliseconds of a moment.
pub open spec fn millis_of(m: Moment) -> int {
    m.secs * 1000 + m.nanos / 1_000_000
}

/// Whether a moment lies in a year of four digits and in no leap second.
pub open spec fn is_ordinary(m: Moment) -> bool {
    -62_167_219_200 <= m.secs <= 253_402_300_799 && m.nanos < 1_000_000_000
}

/// Whether a text writes down the millisecond of a moment, date and time of day.
pub open spec fn writes_millis(text: Seq<char>, m: Moment) -> bool {
    exists|s: Stamp|
        is_stamp(s) && stamp_millis(s) == millis_of(m) && text == #[trigger] stamp_text(s)
}

/// A moment written as a date and a time of day.
pub uninterp spec fn stamped(m: Moment) -> Seq<char>;

/// `DateTime::format` with `%Y%m%dT%H%M%S%3f`, in UTC. The text is named. It is
/// made of digits, a `T`, and a sign where the year needs one; and for an
/// ordinary moment it writes that moment's date and time of day to the
/// millisecond.
#[verifier::external_body]
fn write_stamp(m: Moment) -> (r: String)
    requires
        in_calendar(m),
    ensures
        r@ == stamped(m),
        forall|i: int|
            0 <= i < r@.len() ==> is_digit(#[trigger] r@[i]) || r@[i] == 'T' || r@[i] == '+' || r@[i] == '-',
        is_ordinary(m) ==> writes_millis(r@, m),
{
    chrono::DateTime::<chrono::Utc>::from_timestamp(m.secs, m.nanos)
        .unwrap_or_default()
        .format("%Y%m%dT%H%M%S%3f")
        .to_string()
}

/// A batch id that is unique per dispatch and still says what it came from.
///
/// The node id leads so a directory listing groups a node's batches together;
/// the timestamp makes two dispatches of the same node distinct. Milliseconds
/// because a fast pipeline can dispatch the same node twice in one second.
pub fn new_batch_id(node_id: &str, at: Moment) -> (r: String)
    requires
        in_calendar(at),
    ensures
        r@ == flattened(node_id@) + "-"@ + stamped(at),
        forall|i: int| 0 <= i < r@.len() ==> (#[trigger] r@[i]) != '/',
        is_ordinary(at) ==> writes_millis(stamped(at), at),
{
    let node = flatten(node_id, usize::MAX);
    let stamp = write_stamp(at);
    let r = glue3(node.as_str(), "-", stamp.as_str());
    proof {
        reveal_strlit("-");
        assert forall|i: int| 0 <= i < r@.len() implies (#[trigger] r@[i]) != '/' by {
            if i < node@.len() {
                assert(r@[i] == node@[i]);
            } else if i > node@.len() {
                assert(r@[i] == stamp@[i - node@.len() - 1]);
            }
        }
    }
    r
}

proof fn lemma_pad(m: nat, n: nat, width: nat, size: nat)
    requires
        m < size,
        n < size,
        size == vstd::arithmetic::power::pow(10, width),
    ensures
        pad(m, width).len() == width,
        pad(m, width) == pad(n, width) ==> m == n,
    decreases width,
{
    if width == 0 {
        vstd::arithmetic::power::lemma_pow0(10);
    } else {
        let w = (width - 1) as nat;
        vstd::arithmetic::power::lemma_pow_positive(10, w);
        let part = vstd::arithmetic::power::pow(10, w) as nat;
        assert(vstd::arithmetic::power::pow(10, width) == 10 * part) by {
            reveal(vstd::arithmetic::power::pow);
        }
        assert(m / 10 < part) by (nonlinear_arith)
            requires
                m < 10 * part,
        ;
        assert(n / 10 < part) by (nonlinear_arith)
            requires
                n < 10 * part,
        ;
        lemma_pad(m / 10, n / 10, w, part);
        if pad(m, width) == pad(n, width) {
            assert(pad(m, width).drop_last() == pad(m / 10, w));
            assert(pad(n, width).drop_last() == pad(n / 10, w));
            assert(pad(m, width).last() == pad(n, width).last());
        }
    }
}

proof fn lemma_pad_small(m: int, n: int, width: nat)
    requires
        width == 2 || width == 3 || width == 4,
        0 <= m,
        0 <= n,
        width == 2 ==> m < 100 && n < 100,
        width == 3 ==> m < 1000 && n < 1000,
        width == 4 ==> m < 10_000 && n < 10_000,
    ensures
        pad(m as nat, width).len() == width,
        pad(m as nat, width) == pad(n as nat, width) ==> m == n,
{
    let size: nat = if width == 2 {
        100
    } else if width == 3 {
        1000
    } else {
        10_000
    };
    assert(vstd::arithmetic::power::pow(10, width) == size) by {
        reveal_with_fuel(vstd::arithmetic::power::pow, 5);
    }
    lemma_pad(m as nat, n as nat, width, size);
}

proof fn lemma_stamp_text(a: Stamp, b: Stamp)
    requires
        is_stamp(a),
        is_stamp(b),
        stamp_text(a) == stamp_text(b),
    ensures
        a == b,
{
    lemma_pad_small(a.year, b.year, 4);
    lemma_pad_small(a.month, b.month, 2);
    lemma_pad_small(a.day, b.day, 2);
    lemma_pad_small(a.hour, b.hour, 2);
    lemma_pad_small(a.minute, b.minute, 2);
    lemma_pad_small(a.second, b.second, 2);
    lemma_pad_small(a.milli, b.milli, 3);
    lemma_pad_small(b.year, a.year, 4);
    lemma_pad_small(b.month, a.month, 2);
    lemma_pad_small(b.day, a.day, 2);
    lemma_pad_small(b.hour, a.hour, 2);
    lemma_pad_small(b.minute, a.minute, 2);
    lemma_pad_small(b.second, a.second, 2);
    lemma_pad_small(b.milli, a.milli, 3);
    let s = stamp_text(a);
    let t = stamp_text(b);
    assert(s.subrange(0, 4) == pad(a.year as nat, 4));
    assert(t.subrange(0, 4) == pad(b.year as nat, 4));
    assert(s.subrange(4, 6) == pad(a.month as nat, 2));
    assert(t.subrange(4, 6) == pad(b.month as nat, 2));
    assert(s.subrange(6, 8) == pad(a.day as nat, 2));
    assert(t.subrange(6, 8) == pad(b.day as nat, 2));
    assert(s.subrange(9, 11) == pad(a.hour as nat, 2));
    assert(t.subrange(9, 11) == pad(b.hour as nat, 2));
    assert(s.subrange(11, 13) == pad(a.minute as nat, 2));
    assert(t.subrange(11, 13) == pad(b.minute as nat, 2));
    assert(s.subrange(13, 15) == pad(a.second as nat, 2));
    assert(t.subrange(13, 15) == pad(b.second as nat, 2));
    assert(s.subrange(15, 18) == pad(a.milli as nat, 3));
    assert(t.subrange(15, 18) == pad(b.milli as nat, 3));
}

/// Two dispatches of one node in different milliseconds are two batches.
pub proof fn law_dispatches_do_not_collide(node: Seq<char>, s: Seq<char>, t: Seq<char>, a: Moment, b: Moment)
    requires
        writes_millis(s, a),
        writes_millis(t, b),
        millis_of(a) != millis_of(b),
    ensures
        flattened(node) + "-"@ + s != flattened(node) + "-"@ + t,
{
    let head = flattened(node) + "-"@;
    if head + s == head + t {
        assert((head + s).skip(head.len() as int) == s);
        assert((head + t).skip(head.len() as int) == t);
        let x = choose|x: Stamp|
            is_stamp(x) && stamp_millis(x) == millis_of(a) && s == #[trigger] stamp_text(x);
        let y = choose|y: Stamp|
            is_stamp(y) && stamp_millis(y) == millis_of(b) && t == #[trigger] stamp_text(y);
        lemma_stamp_text(x, y);
    }
}

/// A batch id leads with the node it came from.
pub proof fn law_a_batch_names_its_node(node: Seq<char>, stamp: Seq<char>)
    requires
        forall|i: int| 0 <= i < node.len() ==> is_plain(#[trigger] node[i]),
    ensures
        (flattened(node) + "-"@ + stamp).take(node.len() as int) == node,
{
    let id = flattened(node) + "-"@ + stamp;
    assert(flattened(node) == node);
    assert(id.take(node.len() as int) == node);
}

// ---------------------------------------------------------------------------
// Lines
// ---------------------------------------------------------------------------

/// Lines as a batch file holds them: each with a line feed behind it.
pub open spec fn framed(v: Seq<Seq<char>>) -> Seq<char>
    decreases v.len(),
{
    if v.len() == 0 {
        Seq::empty()
    } else {
        framed(v.drop_last()) + v.last().push('\n')
    }
}

/// The contents of a batch file with these encoded items.
pub fn frame(encoded: &Vec<String>) -> (r: String)
    ensures
        r@ == framed(texts(encoded@)),
{
    let ghost all = texts(encoded@);
    let mut out = String::new();
    let mut i: usize = 0;
    assert(all.take(0).len() == 0);
    while i < encoded.len()
        invariant
            i <= encoded@.len(),
            all == texts(encoded@),
            out@ == framed(all.take(i as int)),
        decreases encoded@.len() - i,
    {
        let ghost before = out@;
        out.append(encoded[i].as_str());
        out.push('\n');
        assert(all.take(i + 1).drop_last() == all.take(i as int));
        assert(all.take(i + 1).last() == encoded@[i as int]@);
        assert(out@ == before + encoded@[i as int]@.push('\n'));
        i = i + 1;
    }
    assert(all.take(i as int) == all);
    out
}

/// Whether there is more in a line than whitespace.
pub open spec fn has_content(line: Seq<char>) -> bool {
    trimmed(line).len() > 0
}

/// The lines of a batch file that have anything in them.
pub fn lines_in(text: &str) -> (r: Vec<String>)
    ensures
        texts(r@) == lines(text@).filter(|l: Seq<char>| has_content(l)),
{
    let all = split_lines(text);
    let ghost seen = texts(all@);
    let ghost keep = |l: Seq<char>| has_content(l);
    let mut out: Vec<String> = Vec::new();
    let mut i: usize = 0;
    reveal(Seq::filter);
    assert(texts(out@) == seen.take(0).filter(keep));
    while i < all.len()
        invariant
            i <= all@.len(),
            seen == texts(all@),
            keep == (|l: Seq<char>| has_content(l)),
            texts(out@) == seen.take(i as int).filter(keep),
        decreases all@.len() - i,
    {
        reveal(Seq::filter);
        assert(seen.take(i + 1).drop_last() == seen.take(i as int));
        assert(seen.take(i + 1).last() == all@[i as int]@);
        let ghost before = texts(out@);
        if !is_blank(all[i].as_str()) {
            out.push(all[i].clone());
            assert(texts(out@) == before.push(all@[i as int]@));
        }
        i = i + 1;
    }
    assert(seen.take(i as int) == seen);
    out
}

/// The format version that this build understands.
pub const BATCH_VERSION: u32 = 1;

/// Whether a decoded line is work that this build understands.
pub open spec fn is_known(item: Option<WorkItem>) -> bool {
    item is Some && item->0.v == BATCH_VERSION
}

/// The items among decoded lines that this build understands, in order.
pub open spec fn known_items(decoded: Seq<Option<WorkItem>>) -> Seq<WorkItem>
    decreases decoded.len(),
{
    if decoded.len() == 0 {
        Seq::empty()
    } else {
        let rest = known_items(decoded.drop_first());
        if is_known(decoded[0]) {
            seq![decoded[0]->0] + rest
        } else {
            rest
        }
    }
}

/// Sort out the decoded lines of a batch: the items to run, and how many lines
/// were skipped.
///
/// A line that would not parse is skipped and counted rather than failing the
/// whole read, and so is one whose version this build does not know, because
/// guessing at a format from the future is how corruption gets executed.
pub fn accept(decoded: Vec<Option<WorkItem>>) -> (r: (Vec<WorkItem>, usize))
    ensures
        r.0@ == known_items(decoded@),
        r.1 == decoded@.len() - known_items(decoded@).len(),
{
    let ghost all = decoded@;
    let mut rest = decoded;
    let mut backwards: Vec<WorkItem> = Vec::new();
    let mut skipped: usize = 0;
    let total: usize = rest.len();
    assert(all.take(total as int) == all);
    assert(all.skip(total as int).len() == 0);
    while rest.len() > 0
        invariant
            rest@ == all.take(rest@.len() as int),
            rest@.len() <= all.len() == total,
            backwards@.reverse() == known_items(all.skip(rest@.len() as int)),
            skipped + backwards@.len() + rest@.len() == total,
        decreases rest@.len(),
    {
        let ghost n = rest@.len() - 1;
        let ghost after = all.skip(n + 1);
        let ghost before = backwards@;
        assert(all.skip(n).drop_first() == after);
        assert(all.skip(n)[0] == all[n]);
        assert(rest@.last() == all[n]);
        match rest.pop() {
            Some(Some(item)) => {
                if item.v == BATCH_VERSION {
                    backwards.push(item);
                    assert(backwards@.reverse() == seq![item] + before.reverse());
                } else {
                    skipped = skipped + 1;
                }
            },
            _ => {
                skipped = skipped + 1;
            },
        }
        assert(rest@ == all.take(n));
    }
    assert(all.skip(0) == all);
    let mut items: Vec<WorkItem> = Vec::new();
    let ghost whole = backwards@;
    assert(whole.take(whole.len() as int) == whole);
    while backwards.len() > 0
        invariant
            backwards@ == whole.take(backwards@.len() as int),
            backwards@.len() <= whole.len(),
            items@ == whole.skip(backwards@.len() as int).reverse(),
        decreases backwards@.len(),
    {
        let ghost n = backwards@.len() - 1;
        let ghost before = items@;
        match backwards.pop() {
            Some(item) => {
                items.push(item);
                assert(whole.skip(n).reverse() == before.push(whole[n]));
            },
            None => {},
        }
        assert(backwards@ == whole.take(n));
    }
    assert(whole.skip(0) == whole);
    (items, skipped)
}

proof fn lemma_frame_front(v: Seq<Seq<char>>)
    requires
        v.len() > 0,
    ensures
        framed(v) == v[0].push('\n') + framed(v.drop_first()),
    decreases v.len(),
{
    if v.len() == 1 {
        assert(v.drop_last().len() == 0);
        assert(v.drop_first().len() == 0);
        assert(framed(v.drop_last()) == Seq::<char>::empty());
        assert(framed(v.drop_first()) == Seq::<char>::empty());
        assert(framed(v) == v[0].push('\n'));
    } else {
        lemma_frame_front(v.drop_last());
        assert(v.drop_last().drop_first() == v.drop_first().drop_last());
        assert(v.drop_first().last() == v.last());
        assert(framed(v) == v[0].push('\n') + framed(v.drop_first()));
    }
}

/// What was written one item to a line is read back line for line.
pub proof fn law_a_batch_reads_back(v: Seq<Seq<char>>)
    requires
        forall|i: int|
            0 <= i < v.len() ==> !(#[trigger] v[i]).contains('\n') && without_cr(v[i]) == v[i],
    ensures
        lines(framed(v)) == v,
    decreases v.len(),
{
    if v.len() > 0 {
        lemma_frame_front(v);
        let s = framed(v);
        let rest = v.drop_first();
        lemma_find(s, '\n');
        let i = find(s, '\n');
        let n = v[0].len() as int;
        assert(s[n] == '\n');
        assert(i == n) by {
            if i < n {
                assert(s[i] == v[0][i]);
            }
        }
        assert(s.take(i) == v[0]);
        assert(s.skip(i + 1) == framed(rest));
        assert forall|j: int| 0 <= j < rest.len() implies !(#[trigger] rest[j]).contains('\n')
            && without_cr(rest[j]) == rest[j] by {
            assert(rest[j] == v[j + 1]);
        }
        law_a_batch_reads_back(rest);
        assert(seq![v[0]] + rest == v);
    }
}

/// A line that cannot be read, or that is of another version, costs that one
/// line and no other.
pub proof fn law_a_damaged_line_costs_one_item(before: Seq<Option<WorkItem>>, bad: Option<WorkItem>, after: Seq<Option<WorkItem>>)
    requires
        !is_known(bad),
    ensures
        known_items(before + seq![bad] + after) == known_items(before) + known_items(after),
        known_items(before + after) == known_items(before) + known_items(after),
    decreases before.len(),
{
    if before.len() == 0 {
        assert((before + seq![bad] + after).drop_first() == after);
        assert(before + after == after);
        assert(known_items(before) + known_items(after) == known_items(after));
    } else {
        let rest = before.drop_first();
        law_a_damaged_line_costs_one_item(rest, bad, after);
        assert((before + seq![bad] + after).drop_first() == rest + seq![bad] + after);
        assert((before + after).drop_first() == rest + after);
        assert(known_items(before + seq![bad] + after) == known_items(before) + known_items(after));
        assert(known_items(before + after) == known_items(before) + known_items(after));
    }
}

/// Items that this build understands, with what else was decoded behind them.
proof fn lemma_items_come_first(items: Seq<WorkItem>, bad: Seq<Option<WorkItem>>)
    requires
        forall|i: int| 0 <= i < items.len() ==> (#[trigger] items[i]).v == BATCH_VERSION,
        forall|j: int| 0 <= j < bad.len() ==> !is_known(#[trigger] bad[j]),
    ensures
        known_items(items.map_values(|w: WorkItem| Some(w)) + bad) == items,
    decreases items.len() + bad.len(),
{
    let good = items.map_values(|w: WorkItem| Some(w));
    let all = good + bad;
    if items.len() > 0 {
        let rest = items.drop_first();
        assert(all.drop_first() == rest.map_values(|w: WorkItem| Some(w)) + bad);
        assert(all[0] == Some(items[0]));
        lemma_items_come_first(rest, bad);
        assert(seq![items[0]] + rest == items);
    } else if bad.len() > 0 {
        assert(all == bad);
        let rest = bad.drop_first();
        assert(good + rest == rest);
        lemma_items_come_first(items, rest);
        assert(all.drop_first() == rest);
        assert(known_items(all) == items);
    } else {
        assert(all.len() == 0);
        assert(known_items(all) == items);
    }
}

/// A batch that was written reads back whole, in order, however many lines that
/// are no work of this version were put behind it: each of those that is not
/// blank is counted, and a blank one is not. How a line is decoded is left to
/// `decode`; the items are what the written lines decode to.
pub proof fn law_a_written_batch_reads_back(
    written: Seq<Seq<char>>,
    appended: Seq<Seq<char>>,
    items: Seq<WorkItem>,
    decode: spec_fn(Seq<char>) -> Option<WorkItem>,
)
    requires
        written.len() == items.len(),
        forall|i: int|
            #![trigger written[i]]
            0 <= i < written.len() ==> {
                &&& !written[i].contains('\n') && without_cr(written[i]) == written[i]
                &&& has_content(written[i])
                &&& decode(written[i]) == Some(items[i])
                &&& items[i].v == BATCH_VERSION
            },
        forall|j: int|
            #![trigger appended[j]]
            0 <= j < appended.len() ==> {
                &&& !appended[j].contains('\n') && without_cr(appended[j]) == appended[j]
                &&& has_content(appended[j]) ==> !is_known(decode(appended[j]))
            },
    ensures
        ({
            let full = |l: Seq<char>| has_content(l);
            let read = lines(framed(written + appended)).filter(full).map_values(decode);
            &&& known_items(read) == items
            &&& read.len() - known_items(read).len() == appended.filter(full).len()
        }),
{
    let full = |l: Seq<char>| has_content(l);
    let all = written + appended;
    assert forall|i: int| 0 <= i < all.len() implies !(#[trigger] all[i]).contains('\n')
        && without_cr(all[i]) == all[i] by {
        if i < written.len() {
            assert(all[i] == written[i]);
        } else {
            assert(all[i] == appended[i - written.len()]);
        }
    }
    law_a_batch_reads_back(all);
    lemma_all_kept(written, full);
    Seq::filter_distributes_over_add(written, appended, full);
    let extra = appended.filter(full);
    assert(all.filter(full) == written + extra);
    let read = all.filter(full).map_values(decode);
    let bad = extra.map_values(decode);
    let good = items.map_values(|w: WorkItem| Some(w));
    appended.filter_lemma(full);
    assert forall|j: int| 0 <= j < bad.len() implies !is_known(#[trigger] bad[j]) by {
        assert(full(extra[j]));
        lemma_kept_from(appended, full, j);
    }
    assert forall|i: int| 0 <= i < items.len() implies (#[trigger] items[i]).v == BATCH_VERSION by {
        assert(written[i] == written[i]);
    }
    assert(read =~= good + bad);
    lemma_items_come_first(items, bad);
}

proof fn lemma_all_kept(v: Seq<Seq<char>>, p: spec_fn(Seq<char>) -> bool)
    requires
        forall|i: int| 0 <= i < v.len() ==> p(#[trigger] v[i]),
    ensures
        v.filter(p) == v,
    decreases v.len(),
{
    reveal(Seq::filter);
    if v.len() > 0 {
        lemma_all_kept(v.drop_last(), p);
        assert(p(v[v.len() - 1]));
        assert(v.drop_last().push(v.last()) == v);
    }
}

proof fn lemma_kept_from(v: Seq<Seq<char>>, p: spec_fn(Seq<char>) -> bool, i: int)
    requires
        0 <= i < v.filter(p).len(),
    ensures
        exists|j: int| 0 <= j < v.len() && #[trigger] v[j] == v.filter(p)[i],
    decreases v.len(),
{
    reveal(Seq::filter);
    if v.len() > 0 {
        let front = v.drop_last();
        if i < front.filter(p).len() {
            lemma_kept_from(front, p, i);
            let j = choose|j: int| 0 <= j < front.len() && #[trigger] front[j] == front.filter(p)[i];
            assert(v[j] == front[j]);
        } else {
            assert(v[v.len() - 1] == v.filter(p)[i]);
        }
    }
}

/// A batch is its lines, each ended by a line feed.
pub proof fn law_how_lines_are_framed(v: Seq<Seq<char>>, line: Seq<char>)
    ensures
        framed(Seq::empty()) == Seq::<char>::empty(),
        framed(v.push(line)) == framed(v) + line + seq!['\n'],
{
    assert(v.push(line).drop_last() == v);
    assert(framed(v) + line.push('\n') == framed(v) + line + seq!['\n']);
}

/// An item is run when its line could be read and is of the first version, and
/// items are run in the order of their lines.
pub proof fn law_which_items_are_run(decoded: Seq<Option<WorkItem>>, item: WorkItem)
    ensures
        known_items(Seq::empty()).len() == 0,
        item.v == 1 ==> known_items(seq![Some(item)] + decoded) == seq![item] + known_items(decoded),
        item.v != 1 ==> known_items(seq![Some(item)] + decoded) == known_items(decoded),
        known_items(seq![None::<WorkItem>] + decoded) == known_items(decoded),
{
    assert((seq![Some(item)] + decoded).drop_first() == decoded);
    assert((seq![None::<WorkItem>] + decoded).drop_first() == decoded);
}

/// A line counts when there is something on it besides white space.
pub proof fn law_which_lines_count(line: Seq<char>)
    ensures
        has_content(line) <==> exists|i: int|
            0 <= i < line.len() && !is_white_space(#[trigger] line[i]),
{
    law_trimmed_to_nothing(line);
}

/// Days are counted on: the next day of a month is one more, and the first of a
/// month follows the last of the one before.
pub proof fn law_days_are_counted_on(year: int, month: int, day: int)
    requires
        1 <= month <= 12,
    ensures
        day_number(year, month, day + 1) == day_number(year, month, day) + 1,
        day_number(1970, 1, 1) == 0,
        month == 1 || month == 3 || month == 5 || month == 7 || month == 8 || month == 10 ==> day_number(
            year,
            month + 1,
            1,
        ) == day_number(year, month, 31) + 1,
        month == 4 || month == 6 || month == 9 || month == 11 ==> day_number(year, month + 1, 1)
            == day_number(year, month, 30) + 1,
        month == 12 ==> day_number(year + 1, 1, 1) == day_number(year, 12, 31) + 1,
{
}

/// What cannot stand in a file name is made an underscore, character by character.
pub proof fn law_how_names_are_flattened(s: Seq<char>, i: int)
    requires
        0 <= i < s.len(),
    ensures
        flattened(s).len() == s.len(),
        flattened(s)[i] == (if 'a' <= s[i] <= 'z' || 'A' <= s[i] <= 'Z' || '0' <= s[i] <= '9' || s[i]
            == '-' || s[i] == '_' {
            s[i]
        } else {
            '_'
        }),
{
}

} // verus!
