//! Resuming a subscription across a reconnect, without a gap and without a repetition.
//!
//! The provider can serve a subscription from an instant on, that instant included. What has been
//! delivered of the newest instant is counted, so that exactly that much of it can be skipped when
//! it is served again.

use vstd::prelude::*;
use vstd::string::*;
use crate::text::same_text;
use crate::time;
use crate::time::Timestamp;

verus! {

/// The newest instant delivered for a subscription, and how many events of it were delivered.
#[derive(Clone, Copy, PartialEq, Eq, Structural, Debug, Hash)]
pub struct LseWatermark {
    pub time_exchange: Timestamp,
    pub count_at_time: u64,
}

/// The watermark once an event is delivered: a newer instant starts the count anew, the same instant
/// adds to it, and an older one changes nothing.
pub open spec fn recorded(mark: Option<LseWatermark>, time: Timestamp) -> LseWatermark {
    match mark {
        None => LseWatermark { time_exchange: time, count_at_time: 1 },
        Some(mark) => if mark.time_exchange.before(time) {
            LseWatermark { time_exchange: time, count_at_time: 1 }
        } else if mark.time_exchange == time {
            LseWatermark { time_exchange: time, count_at_time: (mark.count_at_time + 1) as u64 }
        } else {
            mark
        },
    }
}

/// What has been delivered, for every subscription.
///
/// It covers reconnects, not restarts. Streams that carry the same symbol must not share one.
#[derive(Debug)]
pub struct LseResumeState {
    marks: Vec<(String, LseWatermark)>,
}

/// The value under a name in a list of names and values.
pub open spec fn found<V>(list: Seq<(String, V)>, name: Seq<char>) -> Option<V>
    decreases list.len(),
{
    if list.len() == 0 {
        None
    } else {
        match found(list.drop_last(), name) {
            Some(value) => Some(value),
            None => if list.last().0@ == name {
                Some(list.last().1)
            } else {
                None
            },
        }
    }
}

/// Whether `at` is where a name is first in a list.
pub open spec fn is_first<V>(list: Seq<(String, V)>, name: Seq<char>, at: int) -> bool {
    &&& 0 <= at < list.len()
    &&& list[at].0@ == name
    &&& forall|k: int| 0 <= k < at ==> (#[trigger] list[k]).0@ != name
}

/// Whether a name is nowhere in a list.
pub open spec fn is_absent<V>(list: Seq<(String, V)>, name: Seq<char>) -> bool {
    forall|k: int| 0 <= k < list.len() ==> (#[trigger] list[k]).0@ != name
}

/// The first place of a name decides what is found under it.
pub(crate) proof fn lemma_found<V>(list: Seq<(String, V)>, name: Seq<char>, at: int)
    requires
        is_first(list, name, at),
    ensures
        found(list, name) == Some(list[at].1),
    decreases list.len(),
{
    if at < list.len() - 1 {
        let shorter = list.drop_last();
        assert(is_first(shorter, name, at)) by {
            assert forall|k: int| 0 <= k < at implies (#[trigger] shorter[k]).0@ != name by {
                assert(list[k].0@ != name);
            }
        }
        lemma_found(shorter, name, at);
    } else {
        let shorter = list.drop_last();
        assert(is_absent(shorter, name)) by {
            assert forall|k: int| 0 <= k < shorter.len() implies (#[trigger] shorter[k]).0@ != name by {
                assert(list[k].0@ != name);
            }
        }
        lemma_absent(shorter, name);
    }
}

/// Nothing is found under a name that is nowhere.
pub(crate) proof fn lemma_absent<V>(list: Seq<(String, V)>, name: Seq<char>)
    requires
        is_absent(list, name),
    ensures
        found(list, name) is None,
    decreases list.len(),
{
    if list.len() > 0 {
        assert(list[list.len() - 1].0@ != name);
        let shorter = list.drop_last();
        assert forall|k: int| 0 <= k < shorter.len() implies (#[trigger] shorter[k]).0@ != name by {
            assert(list[k].0@ != name);
        }
        lemma_absent(shorter, name);
    }
}

/// Changing the value at one name's first place changes what is found under that name only.
pub(crate) proof fn lemma_update<V>(list: Seq<(String, V)>, name: Seq<char>, at: int, entry: (String, V))
    requires
        is_first(list, name, at),
        entry.0@ == name,
    ensures
        found(list.update(at, entry), name) == Some(entry.1),
        forall|other: Seq<char>|
            other != name ==> #[trigger] found(list.update(at, entry), other) == found(list, other),
    decreases list.len(),
{
    let new = list.update(at, entry);
    assert(is_first(new, name, at)) by {
        assert forall|k: int| 0 <= k < at implies (#[trigger] new[k]).0@ != name by {
            assert(list[k].0@ != name);
        }
    }
    lemma_found(new, name, at);
    if at < list.len() - 1 {
        assert(new.drop_last() =~= list.drop_last().update(at, entry));
        let shorter = list.drop_last();
        assert(is_first(shorter, name, at)) by {
            assert forall|k: int| 0 <= k < at implies (#[trigger] shorter[k]).0@ != name by {
                assert(list[k].0@ != name);
            }
        }
        lemma_update(shorter, name, at, entry);
        assert(new.last() == list.last());
        assert forall|other: Seq<char>| other != name implies #[trigger] found(new, other) == found(list, other) by {
            assert(found(shorter.update(at, entry), other) == found(shorter, other));
        }
    } else {
        assert(new.drop_last() =~= list.drop_last());
        assert(list.last().0@ == name && new.last().0@ == name);
    }
}

/// Adding an entry for a name that is nowhere adds what is found under that name only.
pub(crate) proof fn lemma_push<V>(list: Seq<(String, V)>, name: Seq<char>, entry: (String, V))
    requires
        is_absent(list, name),
        entry.0@ == name,
    ensures
        found(list.push(entry), name) == Some(entry.1),
        forall|other: Seq<char>|
            other != name ==> #[trigger] found(list.push(entry), other) == found(list, other),
{
    lemma_absent(list, name);
    assert(list.push(entry).drop_last() =~= list);
}

/// Whether no name is in a list twice.
pub open spec fn names_differ<V>(list: Seq<(String, V)>) -> bool {
    forall|i: int, j: int| 0 <= i < j < list.len() ==> (#[trigger] list[i]).0@ != (#[trigger] list[j]).0@
}

/// Finds where a name is first in a list.
pub(crate) fn find<V>(list: &Vec<(String, V)>, name: &str) -> (r: Option<usize>)
    ensures
        match r {
            Some(at) => is_first(list@, name@, at as int),
            None => is_absent(list@, name@),
        },
{
    let mut i: usize = 0;
    while i < list.len()
        invariant
            i <= list.len(),
            forall|k: int| 0 <= k < i ==> (#[trigger] list@[k]).0@ != name@,
        decreases list.len() - i,
    {
        if same_text(list[i].0.as_str(), name) {
            return Some(i);
        }
        i = i + 1;
    }
    None
}

/// Whether one more event at an instant can be counted: the count of the watermark is full only
/// where the event is of the watermark's own instant.
pub open spec fn can_record(mark: Option<LseWatermark>, time: Timestamp) -> bool {
    mark matches Some(mark) ==> mark.time_exchange == time ==> mark.count_at_time < u64::MAX
}

impl LseResumeState {
    #[verifier::type_invariant]
    spec fn names_each_once(self) -> bool {
        names_differ(self.marks@)
    }

    /// The watermark of a subscription, where anything has been delivered for it.
    pub closed spec fn mark(self, subscription_id: Seq<char>) -> Option<LseWatermark> {
        found(self.marks@, subscription_id)
    }

    /// A state in which nothing has been delivered.
    pub fn new() -> (r: LseResumeState)
        ensures
            forall|id: Seq<char>| (#[trigger] r.mark(id)) is None,
    {
        LseResumeState { marks: Vec::new() }
    }

    /// Records that an event was delivered for a subscription.
    pub fn record(&mut self, subscription_id: &str, time_exchange: Timestamp)
        requires
            can_record(old(self).mark(subscription_id@), time_exchange),
        ensures
            final(self).mark(subscription_id@) == Some(recorded(old(self).mark(subscription_id@), time_exchange)),
            forall|other: Seq<char>|
                other != subscription_id@ ==> #[trigger] final(self).mark(other) == old(self).mark(other),
    {
        proof {
            use_type_invariant(&*self);
        }
        let ghost before = self.marks@;
        let mut marks: Vec<(String, LseWatermark)> = Vec::new();
        std::mem::swap(&mut marks, &mut self.marks);
        match find(&marks, subscription_id) {
            Some(at) => {
                let mark = marks[at].1;
                proof {
                    lemma_found(before, subscription_id@, at as int);
                }
                let updated = if mark.time_exchange.is_before(&time_exchange) {
                    LseWatermark { time_exchange, count_at_time: 1 }
                } else if mark.time_exchange == time_exchange {
                    LseWatermark { time_exchange, count_at_time: mark.count_at_time + 1 }
                } else {
                    mark
                };
                let entry = (marks[at].0.clone(), updated);
                proof {
                    lemma_update(before, subscription_id@, at as int, entry);
                }
                marks.set(at, entry);
            },
            None => {
                let entry = (
                    String::from_str(subscription_id),
                    LseWatermark { time_exchange, count_at_time: 1 },
                );
                proof {
                    lemma_absent(before, subscription_id@);
                    lemma_push(before, subscription_id@, entry);
                }
                marks.push(entry);
            },
        }
        self.marks = marks;
    }

    /// The watermark of a subscription, where anything has been delivered for it.
    pub fn watermark(&self, subscription_id: &str) -> (r: Option<LseWatermark>)
        ensures
            r == self.mark(subscription_id@),
    {
        match find(&self.marks, subscription_id) {
            Some(at) => {
                proof {
                    lemma_found(self.marks@, subscription_id@, at as int);
                }
                Some(self.marks[at].1)
            },
            None => {
                proof {
                    lemma_absent(self.marks@, subscription_id@);
                }
                None
            },
        }
    }

    /// A state with the same watermarks.
    pub fn duplicate(&self) -> (r: LseResumeState)
        ensures
            forall|id: Seq<char>| #[trigger] r.mark(id) == self.mark(id),
    {
        let marks = self.snapshot();
        let copy = LseResumeState { marks };
        assert forall|id: Seq<char>| #[trigger] copy.mark(id) == self.mark(id) by {
            assert(found(marks@, id) == self.mark(id));
        }
        copy
    }

    /// Every watermark, each subscription once.
    pub fn snapshot(&self) -> (r: Vec<(String, LseWatermark)>)
        ensures
            forall|id: Seq<char>| #[trigger] found(r@, id) == self.mark(id),
            names_differ(r@),
    {
        proof {
            use_type_invariant(self);
        }
        let mut copy: Vec<(String, LseWatermark)> = Vec::new();
        let mut i: usize = 0;
        while i < self.marks.len()
            invariant
                i <= self.marks.len(),
                copy@ == self.marks@.take(i as int),
            decreases self.marks.len() - i,
        {
            copy.push((self.marks[i].0.clone(), self.marks[i].1));
            i = i + 1;
            assert(copy@ =~= self.marks@.take(i as int));
        }
        assert(self.marks@.take(i as int) =~= self.marks@);
        copy
    }
}

/// What a connection has still to skip for a subscription: so many events of an instant.
#[derive(Clone, Copy, PartialEq, Eq, Structural, Debug, Hash)]
pub struct PendingDrop {
    pub time_exchange: Timestamp,
    pub remaining: u64,
}

/// What has to be skipped when a subscription is resumed at its watermark: all that was delivered of
/// that instant.
pub open spec fn pending_of(mark: Option<LseWatermark>) -> Option<PendingDrop> {
    match mark {
        Some(mark) => Some(PendingDrop { time_exchange: mark.time_exchange, remaining: mark.count_at_time }),
        None => None,
    }
}

/// Whether an event is skipped: it is of the instant that is being resumed, and not all of that has
/// been skipped yet.
pub open spec fn skips(pending: Option<PendingDrop>, time: Timestamp) -> bool {
    pending matches Some(drop) && drop.time_exchange == time && drop.remaining > 0
}

/// What is left to skip behind an event: one less where it was skipped, and nothing once an event is
/// later than the instant that was resumed.
pub open spec fn pending_after(pending: Option<PendingDrop>, time: Timestamp) -> Option<PendingDrop> {
    match pending {
        None => None,
        Some(drop) => if drop.time_exchange == time && drop.remaining > 0 {
            Some(PendingDrop { time_exchange: drop.time_exchange, remaining: (drop.remaining - 1) as u64 })
        } else if drop.time_exchange.before(time) {
            None
        } else {
            Some(drop)
        },
    }
}

/// What one connection has still to skip, for every subscription.
#[derive(Debug)]
pub struct ResumeTracker {
    pending: Vec<(String, Option<PendingDrop>)>,
}

impl ResumeTracker {
    /// What has still to be skipped for a subscription.
    pub closed spec fn left(self, subscription_id: Seq<char>) -> Option<PendingDrop> {
        match found(self.pending@, subscription_id) {
            Some(pending) => pending,
            None => None,
        }
    }

    /// What a new connection has to skip, by what has been delivered.
    pub fn new(state: &LseResumeState) -> (r: ResumeTracker)
        ensures
            forall|id: Seq<char>| #[trigger] r.left(id) == pending_of(state.mark(id)),
    {
        let marks = state.snapshot();
        let mut pending: Vec<(String, Option<PendingDrop>)> = Vec::new();
        let mut i: usize = 0;
        while i < marks.len()
            invariant
                i <= marks.len(),
                pending.len() == i,
                forall|k: int|
                    0 <= k < i ==> (#[trigger] pending@[k]).0@ == marks@[k].0@ && pending@[k].1 == pending_of(
                        Some(marks@[k].1),
                    ),
            decreases marks.len() - i,
        {
            let mark = marks[i].1;
            pending.push(
                (
                    marks[i].0.clone(),
                    Some(PendingDrop { time_exchange: mark.time_exchange, remaining: mark.count_at_time }),
                ),
            );
            i = i + 1;
        }
        proof {
            assert forall|id: Seq<char>|
                (match found(pending@, id) {
                    Some(pending) => pending,
                    None => None,
                }) == #[trigger] pending_of(state.mark(id)) by {
                lemma_same_places(marks@, pending@, id);
                assert(found(marks@, id) == state.mark(id));
            }
        }
        let tracker = ResumeTracker { pending };
        assert forall|id: Seq<char>| #[trigger] tracker.left(id) == pending_of(state.mark(id)) by {
            assert(pending_of(state.mark(id)) == pending_of(state.mark(id)));
        }
        tracker
    }

    /// Whether an event has been delivered by the connection before, and is skipped for that.
    ///
    /// Once an event is later than the instant that was resumed, nothing more is skipped. An event
    /// that is earlier is not expected, and not skipped.
    pub fn should_drop(&mut self, subscription_id: &str, time_exchange: Timestamp) -> (r: bool)
        ensures
            r == skips(old(self).left(subscription_id@), time_exchange),
            final(self).left(subscription_id@) == pending_after(old(self).left(subscription_id@), time_exchange),
            forall|other: Seq<char>|
                other != subscription_id@ ==> #[trigger] final(self).left(other) == old(self).left(other),
    {
        let at = match find(&self.pending, subscription_id) {
            Some(at) => at,
            None => {
                proof {
                    lemma_absent(self.pending@, subscription_id@);
                }
                return false;
            },
        };
        proof {
            lemma_found(self.pending@, subscription_id@, at as int);
        }
        let drop = match self.pending[at].1 {
            Some(drop) => drop,
            None => {
                return false;
            },
        };
        let skip = drop.time_exchange == time_exchange && drop.remaining > 0;
        let left = if skip {
            Some(PendingDrop { time_exchange: drop.time_exchange, remaining: drop.remaining - 1 })
        } else if drop.time_exchange.is_before(&time_exchange) {
            None
        } else {
            Some(drop)
        };
        let entry = (self.pending[at].0.clone(), left);
        proof {
            lemma_update(self.pending@, subscription_id@, at as int, entry);
        }
        self.pending.set(at, entry);
        skip
    }
}

proof fn lemma_same_places(
    marks: Seq<(String, LseWatermark)>,
    pending: Seq<(String, Option<PendingDrop>)>,
    id: Seq<char>,
)
    requires
        marks.len() == pending.len(),
        forall|k: int|
            0 <= k < marks.len() ==> (#[trigger] pending[k]).0@ == marks[k].0@ && pending[k].1 == pending_of(
                Some(marks[k].1),
            ),
    ensures
        (match found(pending, id) {
            Some(pending) => pending,
            None => None,
        }) == pending_of(found(marks, id)),
        found(pending, id) is None <==> found(marks, id) is None,
    decreases marks.len(),
{
    if marks.len() > 0 {
        let a = marks.drop_last();
        let b = pending.drop_last();
        assert forall|k: int| 0 <= k < a.len() implies (#[trigger] b[k]).0@ == a[k].0@ && b[k].1 == pending_of(
            Some(a[k].1),
        ) by {
            assert(pending[k].0@ == marks[k].0@);
        }
        lemma_same_places(a, b, id);
        assert(pending[marks.len() - 1].0@ == marks[marks.len() - 1].0@);
    }
}

/// The watermark behind a run of delivered events.
pub open spec fn mark_after(times: Seq<Timestamp>) -> Option<LseWatermark>
    decreases times.len(),
{
    if times.len() == 0 {
        None
    } else {
        Some(recorded(mark_after(times.drop_last()), times.last()))
    }
}

/// The times of the events that are not skipped, of a run of events.
pub open spec fn let_through(pending: Option<PendingDrop>, times: Seq<Timestamp>) -> Seq<Timestamp>
    decreases times.len(),
{
    if times.len() == 0 {
        Seq::empty()
    } else {
        let rest = let_through(pending_after(pending, times.first()), times.drop_first());
        if skips(pending, times.first()) {
            rest
        } else {
            seq![times.first()] + rest
        }
    }
}

/// How many events at the end of a run are of its last instant.
pub open spec fn tail_count(times: Seq<Timestamp>) -> nat
    decreases times.len(),
{
    if times.len() == 0 {
        0
    } else if times.len() == 1 || times[times.len() - 2] != times.last() {
        1
    } else {
        tail_count(times.drop_last()) + 1
    }
}

proof fn lemma_tail(times: Seq<Timestamp>)
    requires
        times.len() > 0,
    ensures
        1 <= tail_count(times) <= times.len(),
        forall|k: int| times.len() - tail_count(times) <= k < times.len() ==> #[trigger] times[k] == times.last(),
    decreases times.len(),
{
    if times.len() > 1 && times[times.len() - 2] == times.last() {
        let shorter = times.drop_last();
        lemma_tail(shorter);
        assert forall|k: int| times.len() - tail_count(times) <= k < times.len() implies #[trigger] times[k]
            == times.last() by {
            if k < shorter.len() {
                assert(shorter[k] == shorter.last());
            }
        }
    }
}

/// The watermark behind events in the order of time is their last instant, with the number of events
/// that are of it.
pub proof fn law_watermark_counts_the_last_instant(times: Seq<Timestamp>)
    requires
        time::ascending(times),
        0 < times.len() <= u64::MAX,
    ensures
        mark_after(times) == Some(
            LseWatermark { time_exchange: times.last(), count_at_time: tail_count(times) as u64 },
        ),
        tail_count(times) <= times.len(),
    decreases times.len(),
{
    lemma_tail(times);
    if times.len() > 1 {
        let shorter = times.drop_last();
        assert(time::ascending(shorter)) by {
            assert forall|i: int, j: int| 0 <= i < j < shorter.len() implies !(#[trigger] shorter[j]).before(
                #[trigger] shorter[i],
            ) by {
                assert(!times[j].before(times[i]));
            }
        }
        law_watermark_counts_the_last_instant(shorter);
        assert(!times[times.len() - 1].before(times[times.len() - 2]));
    } else {
        assert(mark_after(times.drop_last()) is None);
    }
}

/// Where nothing is left to skip, everything passes.
proof fn lemma_all_through(pending: Option<PendingDrop>, times: Seq<Timestamp>)
    requires
        !(pending is Some && pending->0.remaining > 0),
    ensures
        let_through(pending, times) == times,
    decreases times.len(),
{
    if times.len() > 0 {
        lemma_all_through(pending_after(pending, times.first()), times.drop_first());
        assert(seq![times.first()] + times.drop_first() =~= times);
    } else {
        assert(times =~= Seq::<Timestamp>::empty());
    }
}

proof fn lemma_prefix_skipped(time: Timestamp, count: nat, rest: Seq<Timestamp>)
    requires
        count <= u64::MAX,
    ensures
        let_through(
            Some(PendingDrop { time_exchange: time, remaining: count as u64 }),
            Seq::new(count, |i: int| time) + rest,
        ) == rest,
    decreases count,
{
    let pending = Some(PendingDrop { time_exchange: time, remaining: count as u64 });
    let all = Seq::new(count, |i: int| time) + rest;
    if count == 0 {
        assert(all =~= rest);
        lemma_all_through(pending, rest);
    } else {
        let fewer = (count - 1) as nat;
        assert(all.first() == time);
        assert(all.drop_first() =~= Seq::new(fewer, |i: int| time) + rest);
        lemma_prefix_skipped(time, fewer, rest);
    }
}

/// Resuming loses nothing and repeats nothing. Let the events of a subscription be in the order of
/// time, and let one connection deliver the first `delivered` of them. The next connection is served
/// every event from the last delivered instant on. It lets through exactly the events that were not
/// delivered, however many share that instant.
pub proof fn law_resume_is_exact(tape: Seq<Timestamp>, delivered: int)
    requires
        time::ascending(tape),
        0 < delivered <= tape.len(),
        tape.len() <= u64::MAX,
    ensures
        ({
            let before = tape.take(delivered);
            let served = tape.skip(delivered - tail_count(before));
            let passed = let_through(pending_of(mark_after(before)), served);
            passed == tape.skip(delivered) && before + passed == tape
        }),
{
    let before = tape.take(delivered);
    assert(time::ascending(before)) by {
        assert forall|i: int, j: int| 0 <= i < j < before.len() implies !(#[trigger] before[j]).before(
            #[trigger] before[i],
        ) by {
            assert(!tape[j].before(tape[i]));
        }
    }
    law_watermark_counts_the_last_instant(before);
    lemma_tail(before);
    let count = tail_count(before);
    let rest = tape.skip(delivered);
    let served = tape.skip(delivered - count);
    let time = before.last();
    let repeated = Seq::new(count, |i: int| time) + rest;
    assert(served =~= repeated) by {
        assert(served.len() == repeated.len());
        assert forall|i: int| 0 <= i < served.len() implies served[i] == repeated[i] by {
            if i < count {
                assert(before[delivered - count + i] == time);
            }
        }
    }
    lemma_prefix_skipped(time, count, rest);
    assert(before + rest =~= tape);
}

/// Nothing past the instant that was resumed is skipped, and once such an event has come nothing is
/// skipped any more, not even an event of the old instant.
pub proof fn law_window_stays_closed(pending: PendingDrop, later: Timestamp, times: Seq<Timestamp>)
    requires
        pending.time_exchange.before(later),
    ensures
        let_through(Some(pending), seq![later] + times) == seq![later] + times,
{
    let all = seq![later] + times;
    assert(all.drop_first() =~= times);
    assert(all.first() == later);
    lemma_all_through(None, times);
}

/// A delivered event moves the watermark only forward: a later instant starts a count of one, the same instant adds one to
/// it, and an earlier one leaves the watermark as it is.
pub proof fn law_watermarks_only_move_forward(mark: Option<LseWatermark>, time: Timestamp)
    requires
        can_record(mark, time),
    ensures
        ({
            let after = recorded(mark, time);
            &&& mark is None ==> after.time_exchange == time && after.count_at_time == 1
            &&& mark is Some && mark->0.time_exchange.before(time) ==> after.time_exchange == time && after.count_at_time == 1
            &&& mark is Some && mark->0.time_exchange == time ==> after.time_exchange == time && after.count_at_time
                == mark->0.count_at_time + 1
            &&& mark is Some && time.before(mark->0.time_exchange) ==> Some(after) == mark
            &&& mark is Some ==> !after.time_exchange.before(mark->0.time_exchange)
        }),
{
}

/// An event before the instant that is being resumed passes, and leaves what is to be skipped as it is.
pub proof fn law_earlier_events_pass(pending: PendingDrop, earlier: Timestamp, times: Seq<Timestamp>)
    requires
        earlier.before(pending.time_exchange),
    ensures
        let_through(Some(pending), seq![earlier] + times) == seq![earlier] + let_through(Some(pending), times),
{
    let all = seq![earlier] + times;
    assert(all.drop_first() =~= times);
    assert(all.first() == earlier);
}

/// No more is skipped than was delivered: of a run of events, at most as many as are left to skip do not pass, and all of
/// them are of the instant that is being resumed.
pub proof fn law_no_more_is_skipped_than_was_delivered(pending: Option<PendingDrop>, times: Seq<Timestamp>)
    ensures
        ({
            let passed = let_through(pending, times);
            let left: int = if pending is Some { pending->0.remaining as int } else { 0 };
            &&& times.len() - left <= passed.len() <= times.len()
            &&& (forall|i: int| 0 <= i < times.len() ==> !(pending is Some && #[trigger] times[i]
                == pending->0.time_exchange)) ==> passed == times
        }),
    decreases times.len(),
{
    if times.len() > 0 {
        let rest = times.drop_first();
        let next = pending_after(pending, times.first());
        law_no_more_is_skipped_than_was_delivered(next, rest);
        if forall|i: int| 0 <= i < times.len() ==> !(pending is Some && #[trigger] times[i] == pending->0.time_exchange) {
            assert(times[0] == times.first());
            assert forall|i: int| 0 <= i < rest.len() implies !(next is Some && #[trigger] rest[i] == next->0.time_exchange) by {
                assert(rest[i] == times[i + 1]);
            }
            assert(seq![times.first()] + rest =~= times);
        }
    } else {
        assert(times =~= Seq::<Timestamp>::empty());
    }
}

/// What is found under a name is the value of its first entry, and nothing is found under a name without one.
pub proof fn law_first_entry_is_found<V>(list: Seq<(String, V)>, name: Seq<char>, at: int)
    requires
        0 <= at < list.len(),
        list[at].0@ == name,
    ensures
        found(list, name) is Some,
        (forall|k: int| 0 <= k < at ==> (#[trigger] list[k]).0@ != name) ==> found(list, name) == Some(list[at].1),
    decreases list.len(),
{
    if at < list.len() - 1 {
        law_first_entry_is_found(list.drop_last(), name, at);
    }
    if forall|k: int| 0 <= k < at ==> (#[trigger] list[k]).0@ != name {
        assert(is_first(list, name, at));
        lemma_found(list, name, at);
    }
}

} // verus!
