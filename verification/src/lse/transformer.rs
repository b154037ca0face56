//! From frames of the live feed to market events.

use vstd::prelude::*;
use vstd::string::*;
use crate::error::DataError;
use crate::exchange::ExchangeId;
use crate::lse::quote::quotes;
use crate::lse::quote;
use crate::lse::resume;
use crate::lse::resume::{find, LseResumeState, PendingDrop, ResumeTracker};
use crate::lse::tick::LseMessage;
use crate::market::{MarketEvent, OrderBookL1};
use crate::time::Timestamp;

verus! {

/// Decodes the frames of one connection, and skips what a replay delivers again.
///
/// Identical ticks in a row are distinct prints: only the part of a replay that was delivered
/// before is ever skipped.
#[derive(Debug)]
pub struct LseTransformer<InstrumentKey> {
    exchange: ExchangeId,
    instruments: Vec<(String, InstrumentKey)>,
    tracker: Option<ResumeTracker>,
}

/// Whether an event is the quote of a tick, with a clone of the instrument's key.
pub open spec fn is_quote_of<InstrumentKey: Clone>(
    event: MarketEvent<InstrumentKey, OrderBookL1>,
    exchange: ExchangeId,
    key: InstrumentKey,
    message: LseMessage,
    received: Timestamp,
) -> bool {
    &&& cloned(key, event.instrument)
    &&& quote::quotes_of(exchange, event.instrument, message, received) == seq![event]
}

impl<InstrumentKey> LseTransformer<InstrumentKey> {
    /// The venue that events are tagged with.
    pub closed spec fn venue(self) -> ExchangeId {
        self.exchange
    }

    /// The instrument of a subscription.
    pub closed spec fn instrument(self, subscription_id: Seq<char>) -> Option<InstrumentKey> {
        resume::found(self.instruments@, subscription_id)
    }

    /// Whether the connection resumes.
    pub closed spec fn resumes(self) -> bool {
        self.tracker is Some
    }

    /// What has still to be skipped for a subscription.
    pub closed spec fn left(self, subscription_id: Seq<char>) -> Option<PendingDrop> {
        match self.tracker {
            Some(tracker) => tracker.left(subscription_id),
            None => None,
        }
    }
}

/// What a frame gives, and what it leaves of a transformer and of the state: nothing of a control frame or of what is
/// skipped, an error of an unknown subscription, and else one quote, which a resuming connection records.
pub open spec fn transforms<InstrumentKey: Clone>(
    before: LseTransformer<InstrumentKey>,
    message: LseMessage,
    received: Timestamp,
    state: LseResumeState,
    after: LseTransformer<InstrumentKey>,
    new_state: LseResumeState,
    given: Seq<Result<MarketEvent<InstrumentKey, OrderBookL1>, DataError>>,
) -> bool {
    &&& after.venue() == before.venue()
    &&& after.resumes() == before.resumes()
    &&& forall|id: Seq<char>| #[trigger] after.instrument(id) == before.instrument(id)
    &&& match message {
        LseMessage::Other => {
            &&& given.len() == 0
            &&& new_state == state
            &&& forall|id: Seq<char>| #[trigger] after.left(id) == before.left(id)
        },
        LseMessage::Tick(tick) => {
            let id = tick.subscription_id@;
            let time = tick.time_exchange;
            &&& after.left(id) == resume::pending_after(before.left(id), time)
            &&& forall|other: Seq<char>| other != id ==> #[trigger] after.left(other) == before.left(other)
            &&& if resume::skips(before.left(id), time) {
                given.len() == 0 && new_state == state
            } else {
                match before.instrument(id) {
                    None => {
                        &&& given.len() == 1
                        &&& given[0] matches Err(DataError::Unidentifiable(unknown))
                        &&& unknown@ == id
                        &&& new_state == state
                    },
                    Some(key) => {
                        &&& given.len() == 1
                        &&& given[0] matches Ok(event)
                        &&& is_quote_of(event, before.venue(), key, message, received)
                        &&& if before.resumes() {
                            &&& new_state.mark(id) == Some(resume::recorded(state.mark(id), time))
                            &&& forall|other: Seq<char>| other != id ==> #[trigger] new_state.mark(other) == state.mark(other)
                        } else {
                            new_state == state
                        }
                    },
                }
            }
        },
    }
}

impl<InstrumentKey: Clone> LseTransformer<InstrumentKey> {
    /// A transformer for the instruments of a connection, by subscription. With a state, what it
    /// says has been delivered will be skipped once.
    pub fn new(
        exchange: ExchangeId,
        instruments: Vec<(String, InstrumentKey)>,
        state: Option<&LseResumeState>,
    ) -> (r: LseTransformer<InstrumentKey>)
        ensures
            r.venue() == exchange,
            forall|id: Seq<char>| #[trigger] r.instrument(id) == resume::found(instruments@, id),
            r.resumes() == (state is Some),
            forall|id: Seq<char>|
                #[trigger] r.left(id) == match state {
                    Some(state) => resume::pending_of(state.mark(id)),
                    None => None,
                },
    {
        let tracker = match state {
            Some(state) => Some(ResumeTracker::new(state)),
            None => None,
        };
        LseTransformer { exchange, instruments, tracker }
    }

    /// Decodes a frame, whether or not it was delivered before.
    fn decode(&self, message: &LseMessage, received: Timestamp) -> (r: Vec<
        Result<MarketEvent<InstrumentKey, OrderBookL1>, DataError>,
    >)
        ensures
            match message {
                LseMessage::Other => r@.len() == 0,
                LseMessage::Tick(tick) => match self.instrument(tick.subscription_id@) {
                    None => {
                        &&& r@.len() == 1
                        &&& r@[0] matches Err(DataError::Unidentifiable(id))
                        &&& id@ == tick.subscription_id@
                    },
                    Some(key) => {
                        &&& r@.len() == 1
                        &&& r@[0] matches Ok(event)
                        &&& is_quote_of(event, self.venue(), key, *message, received)
                    },
                },
            },
    {
        let mut out: Vec<Result<MarketEvent<InstrumentKey, OrderBookL1>, DataError>> = Vec::new();
        let id = match message.id() {
            Some(id) => id,
            None => {
                return out;
            },
        };
        match find(&self.instruments, id.as_str()) {
            None => {
                proof {
                    resume::lemma_absent(self.instruments@, id@);
                }
                out.push(Err(DataError::Unidentifiable(id.clone())));
            },
            Some(at) => {
                proof {
                    resume::lemma_found(self.instruments@, id@, at as int);
                }
                let key = self.instruments[at].1.clone();
                let mut events = quotes(self.exchange, key, message, received);
                assert(events@.len() == 1);
                if let Some(event) = events.pop() {
                    assert(quote::quotes_of(self.exchange, key, *message, received) =~= seq![event]);
                    out.push(Ok(event));
                }
            },
        }
        out
    }

    /// Decodes a frame that was received at an instant.
    ///
    /// A tick that a replay delivers again gives nothing. A tick of an unknown subscription gives an
    /// error, and leaves the state as it is: what nobody received has not been delivered. Any other
    /// tick gives one quote, which a resuming connection records in the state.
    pub fn transform(
        &mut self,
        message: &LseMessage,
        received: Timestamp,
        state: &mut LseResumeState,
    ) -> (r: Vec<Result<MarketEvent<InstrumentKey, OrderBookL1>, DataError>>)
        requires
            message matches LseMessage::Tick(tick) ==> resume::can_record(
                old(state).mark(tick.subscription_id@),
                tick.time_exchange,
            ),
        ensures
            transforms(*old(self), *message, received, *old(state), *final(self), *final(state), r@),
    {
        let (id, time) = match message {
            LseMessage::Tick(tick) => (&tick.subscription_id, tick.time_exchange),
            LseMessage::Other => {
                return Vec::new();
            },
        };
        let resuming = match &mut self.tracker {
            Some(tracker) => {
                if tracker.should_drop(id.as_str(), time) {
                    return Vec::new();
                }
                true
            },
            None => false,
        };
        let out = self.decode(message, received);
        if resuming && out.len() == 1 && out[0].is_ok() {
            state.record(id.as_str(), time);
        }
        out
    }
}

/// A tick of a known subscription gives one quote, with the tick's own bid, ask and instant, unless it is of the instant
/// that is being resumed and was delivered before; then it gives nothing. A tick of an unknown subscription gives one
/// error that names it. No other frame gives anything.
pub proof fn law_ticks_become_quotes<InstrumentKey: Clone>(
    before: LseTransformer<InstrumentKey>,
    message: LseMessage,
    received: Timestamp,
    state: LseResumeState,
    after: LseTransformer<InstrumentKey>,
    new_state: LseResumeState,
    given: Seq<Result<MarketEvent<InstrumentKey, OrderBookL1>, DataError>>,
)
    requires
        transforms(before, message, received, state, after, new_state, given),
    ensures
        message is Other ==> given.len() == 0,
        message matches LseMessage::Tick(tick) ==> {
            let left = before.left(tick.subscription_id@);
            let repeated = left is Some && left->0.time_exchange == tick.time_exchange && left->0.remaining > 0;
            &&& repeated ==> given.len() == 0
            &&& !repeated ==> given.len() == 1
            &&& !repeated ==> (given[0] is Ok <==> before.instrument(tick.subscription_id@) is Some)
            &&& !repeated && given[0] is Ok ==> {
                let event = given[0]->Ok_0;
                &&& event.time_exchange == tick.time_exchange
                &&& event.time_received == received
                &&& event.exchange == before.venue()
                &&& cloned(before.instrument(tick.subscription_id@)->0, event.instrument)
                &&& event.kind.last_update_time == tick.time_exchange
                &&& event.kind.best_bid is Some && event.kind.best_bid->0.price == tick.bid
                &&& event.kind.best_ask is Some && event.kind.best_ask->0.price == tick.ask
            }
            &&& !repeated && given[0] is Err ==> (given[0]->Err_0 matches DataError::Unidentifiable(unknown) && unknown@
                == tick.subscription_id@)
        },
{
    if let LseMessage::Tick(tick) = message {
        if given.len() == 1 && given[0] is Ok {
            let event = given[0]->Ok_0;
            quote::law_ticks_quote_their_sides(before.venue(), event.instrument, message, received);
            assert(quote::quotes_of(before.venue(), event.instrument, message, received)[0] == event);
        }
    }
}

/// What a connection has still to skip shrinks by one with each repeated tick and is dropped with the first later one. An
/// earlier tick, a tick of another subscription and a control frame leave it as it is. No frame changes which instruments
/// a transformer knows, its venue, or whether it resumes.
pub proof fn law_what_is_left_shrinks_with_each_repeated_tick<InstrumentKey: Clone>(
    before: LseTransformer<InstrumentKey>,
    message: LseMessage,
    received: Timestamp,
    state: LseResumeState,
    after: LseTransformer<InstrumentKey>,
    new_state: LseResumeState,
    given: Seq<Result<MarketEvent<InstrumentKey, OrderBookL1>, DataError>>,
    id: Seq<char>,
)
    requires
        transforms(before, message, received, state, after, new_state, given),
    ensures
        after.venue() == before.venue(),
        after.resumes() == before.resumes(),
        after.instrument(id) == before.instrument(id),
        before.left(id) is None ==> after.left(id) is None,
        message is Other || message->Tick_0.subscription_id@ != id ==> after.left(id) == before.left(id),
        message matches LseMessage::Tick(tick) ==> tick.subscription_id@ == id && before.left(id) is Some ==> {
            let left = before.left(id)->0;
            &&& left.time_exchange.before(tick.time_exchange) <==> after.left(id) is None
            &&& tick.time_exchange.before(left.time_exchange) ==> after.left(id) == before.left(id)
            &&& after.left(id) is Some ==> after.left(id)->0.time_exchange == left.time_exchange
            &&& left.time_exchange == tick.time_exchange ==> left.remaining - after.left(id)->0.remaining == (if left.remaining
                > 0 {
                1int
            } else {
                0
            })
        },
{
}

/// What is counted as delivered is what was: the watermark of a subscription moves exactly where one of its ticks gave a
/// quote on a connection that resumes, and no other watermark moves.
pub proof fn law_only_delivered_ticks_are_recorded<InstrumentKey: Clone>(
    before: LseTransformer<InstrumentKey>,
    message: LseMessage,
    received: Timestamp,
    state: LseResumeState,
    after: LseTransformer<InstrumentKey>,
    new_state: LseResumeState,
    given: Seq<Result<MarketEvent<InstrumentKey, OrderBookL1>, DataError>>,
    other: Seq<char>,
)
    requires
        transforms(before, message, received, state, after, new_state, given),
        message matches LseMessage::Tick(tick) ==> resume::can_record(
            state.mark(tick.subscription_id@),
            tick.time_exchange,
        ),
    ensures
        message is Other || !before.resumes() || given.len() == 0 || given[0] is Err ==> new_state == state,
        message matches LseMessage::Tick(tick) ==> {
            let id = tick.subscription_id@;
            &&& other != id ==> new_state.mark(other) == state.mark(other)
            &&& before.resumes() && given.len() == 1 && given[0] is Ok ==> {
                &&& new_state.mark(id) is Some
                &&& state.mark(id) is None || state.mark(id)->0.time_exchange.before(tick.time_exchange)
                    ==> new_state.mark(id)->0.time_exchange == tick.time_exchange && new_state.mark(id)->0.count_at_time == 1
                &&& state.mark(id) is Some && state.mark(id)->0.time_exchange == tick.time_exchange
                    ==> new_state.mark(id)->0.time_exchange == tick.time_exchange && new_state.mark(id)->0.count_at_time
                    == state.mark(id)->0.count_at_time + 1
            }
        },
{
}

} // verus!
