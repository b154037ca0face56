//! What the engine holds of an instrument's market, and the price that follows from it.

use vstd::prelude::*;
use crate::market;
use crate::market::{Candle, DataKind, Decimal, MarketEvent, MidPrice, OrderBookL1};
use crate::time::Timestamp;

verus! {

/// A value and the instant that it is of.
#[derive(Clone, Copy, PartialEq, Eq, Structural, Debug, Hash)]
pub struct Timed {
    pub value: Decimal,
    pub time: Timestamp,
}

/// The best levels, the last trade and the last candle of an instrument.
///
/// The whole candle is held, not its close alone. Depth, liquidations and option greeks are not
/// held: they are no prices.
#[derive(Clone, Copy, PartialEq, Eq, Structural, Debug, Hash)]
pub struct DefaultInstrumentMarketData {
    pub l1: OrderBookL1,
    pub last_traded_price: Option<Timed>,
    /// The most recent candle by its end. It had ended when it came.
    pub candle: Option<Candle>,
}

/// A price, by the instant that it is of and by how fine its source is: 0 for a candle, 1 for a trade
/// and 2 for a book.
pub struct Candidate {
    pub time: Timestamp,
    pub fineness: u8,
    pub price: (i128, u32),
}

/// Whether a candidate beats another: it is of a later instant, or of the same and finer.
pub open spec fn beats(a: Candidate, b: Candidate) -> bool {
    b.time.before(a.time) || (a.time == b.time && a.fineness > b.fineness)
}

impl DefaultInstrumentMarketData {
    /// The candidates for the price: the mid of a two-sided book, the last trade and the close of
    /// the last candle.
    pub open spec fn candidates(self) -> Seq<Candidate> {
        (if self.l1.two_sided() && self.l1.mid() is Some {
            seq![Candidate { time: self.l1.last_update_time, fineness: 2, price: self.l1.mid()->0 }]
        } else {
            Seq::empty()
        }) + (match self.last_traded_price {
            Some(trade) => seq![Candidate { time: trade.time, fineness: 1, price: market::parts(trade.value) }],
            None => Seq::empty(),
        }) + (match self.candle {
            Some(candle) => seq![
                Candidate { time: candle.close_time, fineness: 0, price: market::parts(candle.close) },
            ],
            None => Seq::empty(),
        })
    }

    /// Whether `price` is the one that beats all others, or `None` where there is none.
    pub open spec fn is_price(self, price: Option<Decimal>) -> bool {
        match price {
            None => self.candidates().len() == 0,
            Some(price) => exists|i: int|
                0 <= i < self.candidates().len() && (#[trigger] self.candidates()[i]).price == market::parts(price)
                    && forall|k: int|
                    0 <= k < self.candidates().len() && k != i ==> beats(
                        self.candidates()[i],
                        #[trigger] self.candidates()[k],
                    ),
        }
    }

    /// Whether the mid of the book fits, where the book has one.
    pub open spec fn mid_fits(self) -> bool {
        self.l1.two_sided() ==> self.l1.mid() is Some
    }

    /// The latest price: that of the most recent input. Where several are of one instant, the book
    /// goes before a trade, and a trade before a candle.
    ///
    /// A book that stopped updating never outranks what came later. Half a book has no price.
    pub fn price(&self) -> (r: Option<Decimal>)
        requires
            self.mid_fits(),
        ensures
            self.is_price(r),
    {
        let book = match self.l1.mid_price() {
            MidPrice::Price(price) => Some(Timed { value: price, time: self.l1.last_update_time }),
            MidPrice::OneSided => None,
            MidPrice::Overflow => None,
        };
        let mut best: Option<Timed> = book;
        if let Some(trade) = self.last_traded_price {
            let newer = match best {
                Some(held) => held.time.is_before(&trade.time),
                None => true,
            };
            if newer {
                best = Some(trade);
            }
        }
        let ghost without_candle = best;
        if let Some(candle) = self.candle {
            let newer = match best {
                Some(held) => held.time.is_before(&candle.close_time),
                None => true,
            };
            if newer {
                best = Some(Timed { value: candle.close, time: candle.close_time });
            }
        }
        proof {
            let all = self.candidates();
            let books: int = if self.l1.two_sided() { 1 } else { 0 };
            let trades: int = if self.last_traded_price is Some { 1 } else { 0 };
            if let Some(best) = best {
                if best == (Timed { value: self.candle->0.close, time: self.candle->0.close_time }) && (
                without_candle is None || without_candle->0.time.before(self.candle->0.close_time))
                    && self.candle is Some {
                    let i = books + trades;
                    assert(all[i].price == market::parts(best.value));
                    assert forall|k: int| 0 <= k < all.len() && k != i implies beats(all[i], #[trigger] all[k]) by {}
                } else if self.last_traded_price is Some && best == self.last_traded_price->0 && (book is None
                    || book->0.time.before(best.time)) {
                    let i = books;
                    assert(all[i].price == market::parts(best.value));
                    assert forall|k: int| 0 <= k < all.len() && k != i implies beats(all[i], #[trigger] all[k]) by {}
                } else {
                    let i = 0int;
                    assert(all[i].price == market::parts(best.value));
                    assert forall|k: int| 0 <= k < all.len() && k != i implies beats(all[i], #[trigger] all[k]) by {}
                }
            }
        }
        match best {
            Some(best) => Some(best.value),
            None => None,
        }
    }

    /// The latest price, or `None` where the mid of the book does not fit.
    pub fn try_price(&self) -> (r: Option<Option<Decimal>>)
        ensures
            match r {
                Some(price) => self.mid_fits() && self.is_price(price),
                None => !self.mid_fits(),
            },
    {
        match self.l1.mid_price() {
            MidPrice::Overflow => None,
            MidPrice::OneSided => Some(self.price()),
            MidPrice::Price(_) => Some(self.price()),
        }
    }

    /// What is held after an event.
    pub open spec fn after<InstrumentKey>(
        self,
        event: MarketEvent<InstrumentKey, DataKind>,
    ) -> DefaultInstrumentMarketData {
        match event.kind {
            DataKind::Trade(trade) => if self.last_traded_price is None
                || self.last_traded_price->0.time.before(event.time_exchange) {
                DefaultInstrumentMarketData {
                    last_traded_price: Some(Timed { value: trade.price, time: event.time_exchange }),
                    ..self
                }
            } else {
                self
            },
            DataKind::OrderBookL1(l1) => if self.l1.last_update_time.before(l1.last_update_time) {
                DefaultInstrumentMarketData { l1, ..self }
            } else {
                self
            },
            DataKind::Candle(candle) => if !event.time_exchange.before(candle.close_time) && (self.candle is None
                || self.candle->0.close_time.before(candle.close_time)) {
                DefaultInstrumentMarketData { candle: Some(candle), ..self }
            } else {
                self
            },
            DataKind::OrderBook(_) => self,
            DataKind::Liquidation(_) => self,
            DataKind::OptionGreeks(_) => self,
        }
    }

    /// Applies an event, unless it is not newer than what is held.
    ///
    /// A candle that ends after the event's own instant is dropped: it would mark positions with
    /// the outcome of a period that is not over. A liquidation is a forced fill and no price of the
    /// market, greeks are no prices, and no mid is taken of a book's depth.
    pub fn process<InstrumentKey>(&mut self, event: &MarketEvent<InstrumentKey, DataKind>)
        ensures
            *final(self) == old(self).after(*event),
    {
        match &event.kind {
            DataKind::Trade(trade) => {
                let newer = match self.last_traded_price {
                    Some(held) => held.time.is_before(&event.time_exchange),
                    None => true,
                };
                if newer {
                    self.last_traded_price = Some(Timed { value: trade.price, time: event.time_exchange });
                }
            },
            DataKind::OrderBookL1(l1) => {
                if self.l1.last_update_time.is_before(&l1.last_update_time) {
                    self.l1 = *l1;
                }
            },
            DataKind::Candle(candle) => {
                let newer = match self.candle {
                    Some(held) => held.close_time.is_before(&candle.close_time),
                    None => true,
                };
                if !event.time_exchange.is_before(&candle.close_time) && newer {
                    self.candle = Some(*candle);
                }
            },
            DataKind::OrderBook(_) => {},
            DataKind::Liquidation(_) => {},
            DataKind::OptionGreeks(_) => {},
        }
    }
}

impl Default for DefaultInstrumentMarketData {
    /// Nothing is held: an empty book of 1970, no trade and no candle.
    fn default() -> (r: DefaultInstrumentMarketData)
        ensures
            r == (DefaultInstrumentMarketData {
                l1: (OrderBookL1 {
                    last_update_time: (Timestamp { secs: 0, nanos: 0 }),
                    best_bid: None,
                    best_ask: None,
                }),
                last_traded_price: None,
                candle: None,
            }),
    {
        DefaultInstrumentMarketData {
            l1: OrderBookL1 {
                last_update_time: Timestamp { secs: 0, nanos: 0 },
                best_bid: None,
                best_ask: None,
            },
            last_traded_price: None,
            candle: None,
        }
    }
}

/// What is held of each kind never goes back in time.
pub proof fn law_held_data_never_gets_older<InstrumentKey>(
    data: DefaultInstrumentMarketData,
    event: MarketEvent<InstrumentKey, DataKind>,
)
    ensures
        ({
            let after = data.after(event);
            &&& !after.l1.last_update_time.before(data.l1.last_update_time)
            &&& data.last_traded_price matches Some(held) ==> after.last_traded_price is Some
                && !after.last_traded_price->0.time.before(held.time)
            &&& data.candle matches Some(held) ==> after.candle is Some && !after.candle->0.close_time.before(
                held.close_time,
            )
        }),
{
}

/// No price is of an instant that the engine's clock has not reached: if nothing that is held is of
/// a later instant than the event, then nothing is afterwards, as long as a book is stamped with no
/// later instant than its event.
pub proof fn law_no_lookahead<InstrumentKey>(
    data: DefaultInstrumentMarketData,
    event: MarketEvent<InstrumentKey, DataKind>,
)
    requires
        forall|i: int|
            0 <= i < data.candidates().len() ==> !event.time_exchange.before((#[trigger] data.candidates()[i]).time),
        event.kind matches DataKind::OrderBookL1(l1) ==> !event.time_exchange.before(l1.last_update_time),
    ensures
        forall|i: int|
            0 <= i < data.after(event).candidates().len() ==> !event.time_exchange.before(
                (#[trigger] data.after(event).candidates()[i]).time,
            ),
{
    let before = data.candidates();
    let books: int = if data.l1.two_sided() && data.l1.mid() is Some { 1 } else { 0 };
    let trades: int = if data.last_traded_price is Some { 1 } else { 0 };
    if books == 1 {
        assert(!event.time_exchange.before(before[0].time));
    }
    if trades == 1 {
        assert(!event.time_exchange.before(before[books].time));
    }
    if data.candle is Some {
        assert(!event.time_exchange.before(before[books + trades].time));
    }
}

/// A stale input never outranks a fresh one: whatever the price is of, nothing that is held is of a
/// later instant.
pub proof fn law_price_is_the_most_recent(data: DefaultInstrumentMarketData, price: Decimal)
    requires
        data.is_price(Some(price)),
    ensures
        exists|i: int|
            0 <= i < data.candidates().len() && (#[trigger] data.candidates()[i]).price == market::parts(price)
                && forall|k: int|
                0 <= k < data.candidates().len() ==> !data.candidates()[i].time.before(
                    (#[trigger] data.candidates()[k]).time,
                ),
{
    let i = choose|i: int|
        0 <= i < data.candidates().len() && (#[trigger] data.candidates()[i]).price == market::parts(price)
            && forall|k: int|
            0 <= k < data.candidates().len() && k != i ==> beats(data.candidates()[i], #[trigger] data.candidates()[k]);
    assert(data.candidates()[i].price == market::parts(price));
}

impl DefaultInstrumentMarketData {
    /// What is held after a run of events.
    pub open spec fn after_all<InstrumentKey>(
        self,
        events: Seq<MarketEvent<InstrumentKey, DataKind>>,
    ) -> DefaultInstrumentMarketData
        decreases events.len(),
    {
        if events.len() == 0 {
            self
        } else {
            self.after_all(events.drop_last()).after(events.last())
        }
    }
}

/// A trade, a book or a complete candle that is later than the one held takes its place, and only
/// such a one does; each kind of event leaves what is held of the other kinds.
pub proof fn law_later_data_takes_its_place<InstrumentKey>(
    data: DefaultInstrumentMarketData,
    event: MarketEvent<InstrumentKey, DataKind>,
)
    ensures
        ({
            let after = data.after(event);
            &&& event.kind matches DataKind::Trade(trade) ==> {
                &&& after.l1 == data.l1 && after.candle == data.candle
                &&& if data.last_traded_price matches Some(held) && !held.time.before(event.time_exchange) {
                    after.last_traded_price == data.last_traded_price
                } else {
                    after.last_traded_price matches Some(held) && held.value == trade.price && held.time
                        == event.time_exchange
                }
            }
            &&& event.kind matches DataKind::OrderBookL1(book) ==> {
                &&& after.last_traded_price == data.last_traded_price && after.candle == data.candle
                &&& after.l1 == if data.l1.last_update_time.before(book.last_update_time) { book } else { data.l1 }
            }
            &&& event.kind matches DataKind::Candle(candle) ==> {
                &&& after.l1 == data.l1 && after.last_traded_price == data.last_traded_price
                &&& event.time_exchange.before(candle.close_time) ==> after.candle == data.candle
                &&& !event.time_exchange.before(candle.close_time) ==> after.candle == if data.candle matches Some(held)
                    && !held.close_time.before(candle.close_time) {
                    data.candle
                } else {
                    Some(candle)
                }
            }
            &&& event.kind is OrderBook || event.kind is Liquidation || event.kind is OptionGreeks ==> after == data
        }),
{
}

/// Over any run of events the held trade is the latest of the one held before and those that came,
/// and the first where several are of that instant: it has the price and the instant of its event.
pub proof fn law_held_trade_is_the_latest<InstrumentKey>(
    data: DefaultInstrumentMarketData,
    events: Seq<MarketEvent<InstrumentKey, DataKind>>,
)
    ensures
        match data.after_all(events).last_traded_price {
            None => data.last_traded_price is None && forall|k: int|
                0 <= k < events.len() ==> !((#[trigger] events[k]).kind is Trade),
            Some(held) => {
                ||| data.last_traded_price == Some(held) && forall|k: int|
                    0 <= k < events.len() && (#[trigger] events[k]).kind is Trade ==> !held.time.before(
                        events[k].time_exchange,
                    )
                ||| exists|i: int|
                    0 <= i < events.len() && (#[trigger] events[i]).kind is Trade && held.value
                        == events[i].kind->Trade_0.price && held.time == events[i].time_exchange && (
                    data.last_traded_price matches Some(first) ==> first.time.before(held.time)) && forall|k: int|
                        0 <= k < events.len() && (#[trigger] events[k]).kind is Trade ==> if k < i {
                            events[k].time_exchange.before(held.time)
                        } else {
                            !held.time.before(events[k].time_exchange)
                        }
            },
        },
    decreases events.len(),
{
    if events.len() > 0 {
        let earlier = events.drop_last();
        let last = events.last();
        let n = earlier.len() as int;
        law_held_trade_is_the_latest(data, earlier);
        let before = data.after_all(earlier);
        let after = data.after_all(events);
        assert(after == before.after(last));
        assert(forall|k: int| 0 <= k < n ==> #[trigger] events[k] == earlier[k]);
        assert(events[n] == last);
        if after.last_traded_price != before.last_traded_price {
            let held = after.last_traded_price->0;
            assert(events[n].kind is Trade && held.value == events[n].kind->Trade_0.price);
            assert forall|k: int| 0 <= k < n && (#[trigger] events[k]).kind is Trade implies events[k].time_exchange.before(
                held.time,
            ) by {
                assert(earlier[k].kind is Trade);
            }
        } else if let Some(held) = after.last_traded_price {
            if data.last_traded_price == Some(held) && forall|k: int|
                0 <= k < n && (#[trigger] earlier[k]).kind is Trade ==> !held.time.before(earlier[k].time_exchange) {
                assert forall|k: int| 0 <= k < events.len() && (#[trigger] events[k]).kind is Trade implies !held.time.before(
                    events[k].time_exchange,
                ) by {
                    if k < n {
                        assert(earlier[k].kind is Trade);
                    }
                }
            } else {
                let i = choose|i: int|
                    0 <= i < n && (#[trigger] earlier[i]).kind is Trade && held.value == earlier[i].kind->Trade_0.price
                        && held.time == earlier[i].time_exchange && (data.last_traded_price matches Some(first)
                        ==> first.time.before(held.time)) && forall|k: int|
                        0 <= k < n && (#[trigger] earlier[k]).kind is Trade ==> if k < i {
                            earlier[k].time_exchange.before(held.time)
                        } else {
                            !held.time.before(earlier[k].time_exchange)
                        };
                assert(events[i].kind is Trade);
                assert forall|k: int| 0 <= k < events.len() && (#[trigger] events[k]).kind is Trade implies if k < i {
                    events[k].time_exchange.before(held.time)
                } else {
                    !held.time.before(events[k].time_exchange)
                } by {
                    if k < n {
                        assert(earlier[k].kind is Trade);
                    }
                }
            }
        } else {
            assert forall|k: int| 0 <= k < events.len() implies !((#[trigger] events[k]).kind is Trade) by {
                if k < n {
                    assert(!(earlier[k].kind is Trade));
                }
            }
        }
    }
}

/// Over any run of events the held book is the latest of the one held before and those that came,
/// whole, and the first where several are of that instant.
pub proof fn law_held_book_is_the_latest<InstrumentKey>(
    data: DefaultInstrumentMarketData,
    events: Seq<MarketEvent<InstrumentKey, DataKind>>,
)
    ensures
        ({
            let held = data.after_all(events).l1;
            ||| held == data.l1 && forall|k: int|
                0 <= k < events.len() && (#[trigger] events[k]).kind is OrderBookL1 ==> !held.last_update_time.before(
                    events[k].kind->OrderBookL1_0.last_update_time,
                )
            ||| exists|i: int|
                0 <= i < events.len() && (#[trigger] events[i]).kind is OrderBookL1 && held
                    == events[i].kind->OrderBookL1_0 && data.l1.last_update_time.before(held.last_update_time)
                    && forall|k: int|
                    0 <= k < events.len() && (#[trigger] events[k]).kind is OrderBookL1 ==> if k < i {
                        events[k].kind->OrderBookL1_0.last_update_time.before(held.last_update_time)
                    } else {
                        !held.last_update_time.before(events[k].kind->OrderBookL1_0.last_update_time)
                    }
        }),
    decreases events.len(),
{
    if events.len() > 0 {
        let earlier = events.drop_last();
        let n = earlier.len() as int;
        law_held_book_is_the_latest(data, earlier);
        let before = data.after_all(earlier).l1;
        let held = data.after_all(events).l1;
        assert(data.after_all(events) == data.after_all(earlier).after(events.last()));
        assert(forall|k: int| 0 <= k < n ==> #[trigger] events[k] == earlier[k]);
        assert(events[n] == events.last());
        if events[n].kind is OrderBookL1 && before.last_update_time.before(
            events[n].kind->OrderBookL1_0.last_update_time,
        ) {
            assert(held == events[n].kind->OrderBookL1_0);
            assert forall|k: int| 0 <= k < n && (#[trigger] events[k]).kind is OrderBookL1 implies events[k].kind->OrderBookL1_0.last_update_time.before(
                held.last_update_time,
            ) by {
                assert(earlier[k].kind is OrderBookL1);
            }
        } else if held == data.l1 && forall|k: int|
            0 <= k < n && (#[trigger] earlier[k]).kind is OrderBookL1 ==> !held.last_update_time.before(
                earlier[k].kind->OrderBookL1_0.last_update_time,
            ) {
            assert forall|k: int| 0 <= k < events.len() && (#[trigger] events[k]).kind is OrderBookL1 implies !held.last_update_time.before(
                events[k].kind->OrderBookL1_0.last_update_time,
            ) by {
                if k < n {
                    assert(earlier[k].kind is OrderBookL1);
                }
            }
        } else {
            let i = choose|i: int|
                0 <= i < n && (#[trigger] earlier[i]).kind is OrderBookL1 && held == earlier[i].kind->OrderBookL1_0
                    && data.l1.last_update_time.before(held.last_update_time) && forall|k: int|
                    0 <= k < n && (#[trigger] earlier[k]).kind is OrderBookL1 ==> if k < i {
                        earlier[k].kind->OrderBookL1_0.last_update_time.before(held.last_update_time)
                    } else {
                        !held.last_update_time.before(earlier[k].kind->OrderBookL1_0.last_update_time)
                    };
            assert(events[i].kind is OrderBookL1);
            assert forall|k: int| 0 <= k < events.len() && (#[trigger] events[k]).kind is OrderBookL1 implies if k < i {
                events[k].kind->OrderBookL1_0.last_update_time.before(held.last_update_time)
            } else {
                !held.last_update_time.before(events[k].kind->OrderBookL1_0.last_update_time)
            } by {
                if k < n {
                    assert(earlier[k].kind is OrderBookL1);
                }
            }
        }
    }
}

/// Whether an event brings a candle that had ended when the event came.
pub open spec fn brings_candle<InstrumentKey>(event: MarketEvent<InstrumentKey, DataKind>) -> bool {
    event.kind matches DataKind::Candle(candle) && !event.time_exchange.before(candle.close_time)
}

/// Over any run of events the held candle is the latest of the one held before and those that had
/// ended when they came, whole, and the first where several end at that instant.
pub proof fn law_held_candle_is_the_latest<InstrumentKey>(
    data: DefaultInstrumentMarketData,
    events: Seq<MarketEvent<InstrumentKey, DataKind>>,
)
    ensures
        match data.after_all(events).candle {
            None => data.candle is None && forall|k: int|
                0 <= k < events.len() ==> !brings_candle(#[trigger] events[k]),
            Some(held) => {
                ||| data.candle == Some(held) && forall|k: int|
                    0 <= k < events.len() && brings_candle(#[trigger] events[k]) ==> !held.close_time.before(
                        events[k].kind->Candle_0.close_time,
                    )
                ||| exists|i: int|
                    0 <= i < events.len() && brings_candle(#[trigger] events[i]) && held == events[i].kind->Candle_0 && (
                    data.candle matches Some(first) ==> first.close_time.before(held.close_time)) && forall|k: int|
                        0 <= k < events.len() && brings_candle(#[trigger] events[k]) ==> if k < i {
                            events[k].kind->Candle_0.close_time.before(held.close_time)
                        } else {
                            !held.close_time.before(events[k].kind->Candle_0.close_time)
                        }
            },
        },
    decreases events.len(),
{
    if events.len() > 0 {
        let earlier = events.drop_last();
        let n = earlier.len() as int;
        law_held_candle_is_the_latest(data, earlier);
        let before = data.after_all(earlier).candle;
        let after = data.after_all(events).candle;
        assert(data.after_all(events) == data.after_all(earlier).after(events.last()));
        assert(forall|k: int| 0 <= k < n ==> #[trigger] events[k] == earlier[k]);
        assert(events[n] == events.last());
        if brings_candle(events[n]) && (before is None || before->0.close_time.before(
            events[n].kind->Candle_0.close_time,
        )) {
            let held = events[n].kind->Candle_0;
            assert(after == Some(held));
            assert forall|k: int| 0 <= k < n && brings_candle(#[trigger] events[k]) implies events[k].kind->Candle_0.close_time.before(
                held.close_time,
            ) by {
                assert(brings_candle(earlier[k]));
            }
        } else if let Some(held) = after {
            if data.candle == Some(held) && forall|k: int|
                0 <= k < n && brings_candle(#[trigger] earlier[k]) ==> !held.close_time.before(
                    earlier[k].kind->Candle_0.close_time,
                ) {
                assert forall|k: int| 0 <= k < events.len() && brings_candle(#[trigger] events[k]) implies !held.close_time.before(
                    events[k].kind->Candle_0.close_time,
                ) by {
                    if k < n {
                        assert(brings_candle(earlier[k]));
                    }
                }
            } else {
                let i = choose|i: int|
                    0 <= i < n && brings_candle(#[trigger] earlier[i]) && held == earlier[i].kind->Candle_0 && (
                    data.candle matches Some(first) ==> first.close_time.before(held.close_time)) && forall|k: int|
                        0 <= k < n && brings_candle(#[trigger] earlier[k]) ==> if k < i {
                            earlier[k].kind->Candle_0.close_time.before(held.close_time)
                        } else {
                            !held.close_time.before(earlier[k].kind->Candle_0.close_time)
                        };
                assert(brings_candle(events[i]));
                assert forall|k: int| 0 <= k < events.len() && brings_candle(#[trigger] events[k]) implies if k < i {
                    events[k].kind->Candle_0.close_time.before(held.close_time)
                } else {
                    !held.close_time.before(events[k].kind->Candle_0.close_time)
                } by {
                    if k < n {
                        assert(brings_candle(earlier[k]));
                    }
                }
            }
        } else {
            assert forall|k: int| 0 <= k < events.len() implies !brings_candle(#[trigger] events[k]) by {
                if k < n {
                    assert(!brings_candle(earlier[k]));
                }
            }
        }
    }
}

/// There is a price as soon as there is a two-sided book, a trade or a candle. It is the mid of the
/// book unless a trade or a candle is later, the traded price unless a candle is later, and else the
/// close of the candle.
pub proof fn law_price_comes_from_the_latest_source(data: DefaultInstrumentMarketData, price: Option<Decimal>)
    requires
        data.mid_fits(),
        data.is_price(price),
    ensures
        ({
            let book = data.l1.best_bid is Some && data.l1.best_ask is Some;
            let trade = data.last_traded_price;
            let candle = data.candle;
            let traded_later = book && trade is Some && data.l1.last_update_time.before(trade->0.time);
            let closed_later = book && candle is Some && data.l1.last_update_time.before(candle->0.close_time);
            let closed_after_trade = trade is Some && candle is Some && trade->0.time.before(candle->0.close_time);
            &&& price is None <==> !book && trade is None && candle is None
            &&& book && !traded_later && !closed_later ==> data.l1.mid() == Some(
                (price->0.mantissa, price->0.scale),
            )
            &&& trade is Some && (!book || traded_later) && !closed_after_trade ==> price == Some(trade->0.value)
            &&& candle is Some && (!book || closed_later) && (trade is None || closed_after_trade) ==> price == Some(
                candle->0.close,
            )
        }),
{
    let all = data.candidates();
    let books: int = if data.l1.two_sided() && data.l1.mid() is Some { 1 } else { 0 };
    let trades: int = if data.last_traded_price is Some { 1 } else { 0 };
    if let Some(price) = price {
        let i = choose|i: int|
            0 <= i < all.len() && (#[trigger] all[i]).price == market::parts(price) && forall|k: int|
                0 <= k < all.len() && k != i ==> beats(all[i], #[trigger] all[k]);
        if books == 1 {
            assert(all[0].time == data.l1.last_update_time);
            assert(i != 0 ==> beats(all[i], all[0]));
        }
        if trades == 1 {
            assert(all[books].time == data.last_traded_price->0.time);
            assert(i != books ==> beats(all[i], all[books]));
        }
        if data.candle is Some {
            assert(all[books + trades].time == data.candle->0.close_time);
            assert(i != books + trades ==> beats(all[i], all[books + trades]));
        }
    }
}

} // verus!
