//! Merging streams that are each in the order of time into one that is.
//!
//! The merge is lazy: it looks at what each input has next, and takes one item.

use vstd::prelude::*;
use crate::exchange::ExchangeId;
use crate::market::{MarketEvent, MarketStreamEvent};
use crate::time;
use crate::time::Timestamp;

verus! {

/// What an input has next.
#[derive(Clone, Copy, PartialEq, Eq, Structural, Debug, Hash)]
pub enum Head {
    /// Nothing is known yet.
    Pending,
    /// The input has ended.
    Ended,
    /// The input failed.
    Failed,
    /// The input lost its connection. That has no place in the order of time.
    Reconnecting,
    /// An event of this instant.
    Item(Timestamp),
}

/// What the merge does.
#[derive(Clone, Copy, PartialEq, Eq, Structural, Debug, Hash)]
pub enum MergeStep {
    /// Give out what the input at this position has next.
    Take(usize),
    /// Wait for an input that is pending.
    Wait,
    /// Every input has ended.
    Done,
}

/// Whether something is given out as soon as it is seen.
pub open spec fn is_urgent(head: Head) -> bool {
    head is Failed || head is Reconnecting
}

/// Whether an input has the earliest event, and is the first in the list that does.
pub open spec fn is_earliest(heads: Seq<Head>, at: int) -> bool {
    &&& 0 <= at < heads.len()
    &&& heads[at] is Item
    &&& forall|k: int| 0 <= k < heads.len() && (#[trigger] heads[k]) is Item ==> !heads[k]->0.before(heads[at]->0)
    &&& forall|k: int| 0 <= k < at && (#[trigger] heads[k]) is Item ==> heads[at]->0.before(heads[k]->0)
}

/// Whether a step is the one that the inputs call for.
///
/// What is urgent goes first, from the first input that has it. While an input is pending nothing
/// else can be given out: it may be about to have something earlier. Otherwise the earliest event is
/// next, and of several the one of the input that is listed first.
pub open spec fn is_step(heads: Seq<Head>, step: MergeStep) -> bool {
    if exists|k: int| 0 <= k < heads.len() && is_urgent(#[trigger] heads[k]) {
        &&& step matches MergeStep::Take(at)
        &&& at < heads.len()
        &&& is_urgent(heads[at as int])
        &&& forall|k: int| 0 <= k < at ==> !is_urgent(#[trigger] heads[k])
    } else if exists|k: int| 0 <= k < heads.len() && (#[trigger] heads[k]) is Pending {
        step is Wait
    } else if exists|k: int| 0 <= k < heads.len() && (#[trigger] heads[k]) is Item {
        step matches MergeStep::Take(at) && is_earliest(heads, at as int)
    } else {
        step is Done
    }
}

/// Chooses the step that the inputs call for.
pub fn poll_next(heads: &Vec<Head>) -> (r: MergeStep)
    ensures
        is_step(heads@, r),
{
    let mut earliest: Option<(usize, Timestamp)> = None;
    let mut pending = false;
    let mut index: usize = 0;
    while index < heads.len()
        invariant
            index <= heads.len(),
            forall|k: int| 0 <= k < index ==> !is_urgent(#[trigger] heads@[k]),
            pending == exists|k: int| 0 <= k < index && (#[trigger] heads@[k]) is Pending,
            match earliest {
                Some((at, time)) => at < index && heads@[at as int] == Head::Item(time) && is_earliest(
                    heads@.take(index as int),
                    at as int,
                ),
                None => forall|k: int| 0 <= k < index ==> !((#[trigger] heads@[k]) is Item),
            },
        decreases heads.len() - index,
    {
        let ghost so_far = heads@.take(index as int);
        let ghost longer = heads@.take(index + 1);
        assert forall|k: int| 0 <= k < index implies #[trigger] longer[k] == so_far[k] by {}
        assert(longer[index as int] == heads@[index as int]);
        let ghost before = earliest;
        match heads[index] {
            Head::Pending => {
                pending = true;
                assert(heads@[index as int] is Pending);
            },
            Head::Ended => {},
            Head::Failed => {
                assert(is_urgent(heads@[index as int]));
                return MergeStep::Take(index);
            },
            Head::Reconnecting => {
                assert(is_urgent(heads@[index as int]));
                return MergeStep::Take(index);
            },
            Head::Item(time) => {
                let newer = match earliest {
                    Some((_, seen)) => time.is_before(&seen),
                    None => true,
                };
                if newer {
                    earliest = Some((index, time));
                }
            },
        }
        proof {
            if let Some((at, time)) = earliest {
                assert forall|k: int| 0 <= k < longer.len() && (#[trigger] longer[k]) is Item implies
                    !longer[k]->0.before(longer[at as int]->0) by {
                    if k < index {
                        assert(so_far[k] == longer[k]);
                        assert(heads@[k] == longer[k]);
                    }
                }
                assert forall|k: int| 0 <= k < at && (#[trigger] longer[k]) is Item implies longer[at as int]->0.before(
                    longer[k]->0,
                ) by {
                    assert(so_far[k] == longer[k]);
                    assert(heads@[k] == longer[k]);
                }
                assert(is_earliest(longer, at as int));
            }
        }
        index = index + 1;
    }
    assert(heads@.take(index as int) =~= heads@);
    if pending {
        return MergeStep::Wait;
    }
    match earliest {
        Some((at, _)) => MergeStep::Take(at),
        None => MergeStep::Done,
    }
}

/// Tags a payload as an event of one instrument, at an instant.
///
/// A replay has no instant of receipt of its own, so the event's instant stands for it.
pub fn tag_event<InstrumentKey, Kind>(
    exchange: ExchangeId,
    instrument: InstrumentKey,
    time: Timestamp,
    kind: Kind,
) -> (r: MarketStreamEvent<InstrumentKey, Kind>)
    ensures
        r == MarketStreamEvent::Item(
            MarketEvent { time_exchange: time, time_received: time, exchange, instrument, kind },
        ),
{
    MarketStreamEvent::Item(
        MarketEvent { time_exchange: time, time_received: time, exchange, instrument, kind },
    )
}

/// What inputs have next, when what they still hold is all there: events at these instants.
pub open spec fn heads_of(inputs: Seq<Seq<Timestamp>>) -> Seq<Head> {
    inputs.map_values(|input: Seq<Timestamp>| if input.len() == 0 { Head::Ended } else { Head::Item(input.first()) })
}

/// Whether `out` is what comes out when the steps that inputs call for are taken until all have
/// ended: the input and the instant of each event.
pub open spec fn is_merge(inputs: Seq<Seq<Timestamp>>, out: Seq<(usize, Timestamp)>) -> bool
    decreases out.len(),
{
    if out.len() == 0 {
        is_step(heads_of(inputs), MergeStep::Done)
    } else {
        let at = out.first().0 as int;
        &&& is_step(heads_of(inputs), MergeStep::Take(out.first().0))
        &&& out.first().1 == inputs[at].first()
        &&& is_merge(inputs.update(at, inputs[at].drop_first()), out.drop_first())
    }
}

/// The events of one input among what comes out.
pub open spec fn of_input(out: Seq<(usize, Timestamp)>, input: int) -> Seq<Timestamp>
    decreases out.len(),
{
    if out.len() == 0 {
        Seq::empty()
    } else if out.first().0 == input {
        seq![out.first().1] + of_input(out.drop_first(), input)
    } else {
        of_input(out.drop_first(), input)
    }
}

/// Whether an event belongs before another: it is earlier, or of the same instant and of an input
/// that is listed earlier.
pub open spec fn belongs_before(a: (usize, Timestamp), b: (usize, Timestamp)) -> bool {
    a.1.before(b.1) || (a.1 == b.1 && a.0 < b.0)
}

spec fn all_ascend(inputs: Seq<Seq<Timestamp>>) -> bool {
    forall|k: int| 0 <= k < inputs.len() ==> time::ascending(#[trigger] inputs[k])
}

spec fn none_before(inputs: Seq<Seq<Timestamp>>, bound: (usize, Timestamp)) -> bool {
    forall|k: int, i: int|
        0 <= k < inputs.len() && 0 <= i < inputs[k].len() ==> !belongs_before(
            (k as usize, #[trigger] inputs[k][i]),
            bound,
        )
}

proof fn lemma_taken(inputs: Seq<Seq<Timestamp>>, out: Seq<(usize, Timestamp)>)
    requires
        is_merge(inputs, out),
        out.len() > 0,
    ensures
        0 <= out.first().0 < inputs.len(),
        inputs[out.first().0 as int].len() > 0,
        inputs[out.first().0 as int].first() == out.first().1,
        is_earliest(heads_of(inputs), out.first().0 as int),
{
    let heads = heads_of(inputs);
    let at = out.first().0 as int;
    assert forall|k: int| 0 <= k < heads.len() implies !is_urgent(#[trigger] heads[k]) && !(heads[k] is Pending) by {
        assert(heads[k] == if inputs[k].len() == 0 { Head::Ended } else { Head::Item(inputs[k].first()) });
    }
    assert(heads[at] == if inputs[at].len() == 0 { Head::Ended } else { Head::Item(inputs[at].first()) });
}

proof fn lemma_rest_ascends(inputs: Seq<Seq<Timestamp>>, at: int)
    requires
        all_ascend(inputs),
        0 <= at < inputs.len(),
        inputs[at].len() > 0,
    ensures
        all_ascend(inputs.update(at, inputs[at].drop_first())),
{
    let rest = inputs.update(at, inputs[at].drop_first());
    assert forall|k: int| 0 <= k < rest.len() implies time::ascending(#[trigger] rest[k]) by {
        assert(time::ascending(inputs[k]));
        if k == at {
            let times = rest[k];
            assert forall|i: int, j: int| 0 <= i < j < times.len() implies !(#[trigger] times[j]).before(
                #[trigger] times[i],
            ) by {
                assert(times[i] == inputs[at][i + 1]);
                assert(times[j] == inputs[at][j + 1]);
            }
        }
    }
}

proof fn lemma_bound_holds(inputs: Seq<Seq<Timestamp>>, out: Seq<(usize, Timestamp)>, bound: (usize, Timestamp))
    requires
        is_merge(inputs, out),
        none_before(inputs, bound),
    ensures
        forall|j: int| 0 <= j < out.len() ==> !belongs_before(#[trigger] out[j], bound),
    decreases out.len(),
{
    if out.len() > 0 {
        lemma_taken(inputs, out);
        let at = out.first().0 as int;
        let rest = inputs.update(at, inputs[at].drop_first());
        assert(!belongs_before((at as usize, inputs[at][0]), bound));
        assert forall|k: int, i: int| 0 <= k < rest.len() && 0 <= i < rest[k].len() implies !belongs_before(
            (k as usize, #[trigger] rest[k][i]),
            bound,
        ) by {
            if k == at {
                assert(rest[k][i] == inputs[k][i + 1]);
            } else {
                assert(rest[k][i] == inputs[k][i]);
            }
        }
        lemma_bound_holds(rest, out.drop_first(), bound);
        assert forall|j: int| 0 <= j < out.len() implies !belongs_before(#[trigger] out[j], bound) by {
            if j > 0 {
                assert(out.drop_first()[j - 1] == out[j]);
            }
        }
    }
}

/// Inputs that are each in the order of time come out as one that is. Of events of one instant, those
/// of the input that is listed first come first.
pub proof fn law_merge_is_in_order(inputs: Seq<Seq<Timestamp>>, out: Seq<(usize, Timestamp)>)
    requires
        forall|k: int| 0 <= k < inputs.len() ==> time::ascending(#[trigger] inputs[k]),
        inputs.len() <= usize::MAX,
        is_merge(inputs, out),
    ensures
        forall|i: int, j: int| 0 <= i < j < out.len() ==> !belongs_before(#[trigger] out[j], #[trigger] out[i]),
    decreases out.len(),
{
    if out.len() > 0 {
        lemma_taken(inputs, out);
        let first = out.first();
        let at = first.0 as int;
        let heads = heads_of(inputs);
        let rest = inputs.update(at, inputs[at].drop_first());
        assert forall|k: int, i: int| 0 <= k < inputs.len() && 0 <= i < inputs[k].len() implies !belongs_before(
            (k as usize, #[trigger] inputs[k][i]),
            first,
        ) by {
            assert(heads[k] == Head::Item(inputs[k].first()));
            assert(heads[at] == Head::Item(inputs[at].first()));
            assert(time::ascending(inputs[k]));
            if i > 0 {
                assert(!inputs[k][i].before(inputs[k][0]));
            }
        }
        assert forall|k: int, i: int| 0 <= k < rest.len() && 0 <= i < rest[k].len() implies !belongs_before(
            (k as usize, #[trigger] rest[k][i]),
            first,
        ) by {
            if k == at {
                assert(rest[k][i] == inputs[k][i + 1]);
            } else {
                assert(rest[k][i] == inputs[k][i]);
            }
        }
        assert(all_ascend(inputs));
        lemma_rest_ascends(inputs, at);
        lemma_bound_holds(rest, out.drop_first(), first);
        law_merge_is_in_order(rest, out.drop_first());
        assert forall|i: int, j: int| 0 <= i < j < out.len() implies !belongs_before(
            #[trigger] out[j],
            #[trigger] out[i],
        ) by {
            assert(out.drop_first()[j - 1] == out[j]);
            if i > 0 {
                assert(out.drop_first()[i - 1] == out[i]);
            }
        }
    }
}

/// The merge drops nothing, invents nothing and keeps the order of every input: what comes out of an
/// input is what the input holds.
pub proof fn law_merge_keeps_every_input(inputs: Seq<Seq<Timestamp>>, out: Seq<(usize, Timestamp)>, input: int)
    requires
        is_merge(inputs, out),
        0 <= input < inputs.len(),
    ensures
        of_input(out, input) == inputs[input],
    decreases out.len(),
{
    let heads = heads_of(inputs);
    if out.len() > 0 {
        lemma_taken(inputs, out);
        let at = out.first().0 as int;
        let rest = inputs.update(at, inputs[at].drop_first());
        law_merge_keeps_every_input(rest, out.drop_first(), input);
        if at == input {
            assert(seq![inputs[at].first()] + inputs[at].drop_first() =~= inputs[at]);
        }
    } else {
        assert(heads[input] == if inputs[input].len() == 0 { Head::Ended } else { Head::Item(inputs[input].first()) });
        assert(inputs[input] =~= Seq::<Timestamp>::empty());
    }
}

/// The merge is done exactly when every input has ended. It waits exactly while an input is pending and none has anything
/// urgent. What is urgent is given out ahead of everything else, from the first input that has it. An event is given out
/// only when no input is pending, and then there is none that is earlier, and none of its instant in an input listed
/// before.
pub proof fn law_steps_are_what_the_inputs_call_for(heads: Seq<Head>, step: MergeStep, k: int)
    requires
        is_step(heads, step),
        0 <= k < heads.len(),
    ensures
        step is Done ==> heads[k] is Ended,
        (forall|j: int| 0 <= j < heads.len() ==> (#[trigger] heads[j]) is Ended) ==> step is Done,
        step is Wait ==> !(heads[k] is Failed) && !(heads[k] is Reconnecting),
        step is Wait ==> exists|j: int| 0 <= j < heads.len() && (#[trigger] heads[j]) is Pending,
        heads[k] is Pending ==> step is Wait || (step is Take && !(heads[step->Take_0 as int] is Item)),
        heads[k] is Failed || heads[k] is Reconnecting ==> step is Take && step->Take_0 <= k && (
        heads[step->Take_0 as int] is Failed || heads[step->Take_0 as int] is Reconnecting),
        step matches MergeStep::Take(at) ==> {
            &&& at < heads.len()
            &&& heads[at as int] is Failed || heads[at as int] is Reconnecting || heads[at as int] is Item
            &&& heads[at as int] matches Head::Item(time) ==> {
                &&& heads[k] is Item || heads[k] is Ended
                &&& heads[k] matches Head::Item(other) ==> !other.before(time) && (k < at ==> time.before(other))
            }
        },
{
    let urgent = exists|j: int| 0 <= j < heads.len() && is_urgent(#[trigger] heads[j]);
    let pending = exists|j: int| 0 <= j < heads.len() && (#[trigger] heads[j]) is Pending;
    if urgent {
        let j = choose|j: int| 0 <= j < heads.len() && is_urgent(#[trigger] heads[j]);
        assert(!(heads[j] is Ended));
        if is_urgent(heads[k]) {
            assert(!(k < step->Take_0));
        }
    } else {
        assert(!is_urgent(heads[k]));
        if pending {
            let j = choose|j: int| 0 <= j < heads.len() && (#[trigger] heads[j]) is Pending;
            assert(!(heads[j] is Ended));
        } else {
            assert(!(heads[k] is Pending));
            if exists|j: int| 0 <= j < heads.len() && (#[trigger] heads[j]) is Item {
                let j = choose|j: int| 0 <= j < heads.len() && (#[trigger] heads[j]) is Item;
                assert(!(heads[j] is Ended));
            } else {
                assert(!(heads[k] is Item));
            }
        }
    }
}

} // verus!
