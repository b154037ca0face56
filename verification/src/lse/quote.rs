//! Ticks as quotes.

use vstd::prelude::*;
use crate::exchange::ExchangeId;
use crate::lse::tick::LseMessage;
use crate::market::{Decimal, Level, MarketEvent, OrderBookL1};
use crate::time::Timestamp;

verus! {

/// The book that a tick shows. The feed publishes no sizes, so both are zero: the tick's volume is a
/// traded size and no liquidity. The book's instant is that of the event, by which state is ordered.
pub open spec fn book_of(time: Timestamp, bid: Decimal, ask: Decimal) -> OrderBookL1 {
    OrderBookL1 {
        last_update_time: time,
        best_bid: Some(Level { price: bid, amount: Decimal::spec_zero() }),
        best_ask: Some(Level { price: ask, amount: Decimal::spec_zero() }),
    }
}

/// The events of a frame: one quote of a tick, nothing of a control frame.
pub open spec fn quotes_of<InstrumentKey>(
    exchange: ExchangeId,
    instrument: InstrumentKey,
    message: LseMessage,
    received: Timestamp,
) -> Seq<MarketEvent<InstrumentKey, OrderBookL1>> {
    match message {
        LseMessage::Tick(tick) => seq![
            MarketEvent {
                time_exchange: tick.time_exchange,
                time_received: received,
                exchange,
                instrument,
                kind: book_of(tick.time_exchange, tick.bid, tick.ask),
            },
        ],
        LseMessage::Other => Seq::empty(),
    }
}

/// Decodes a frame that was received at an instant.
pub fn quotes<InstrumentKey>(
    exchange: ExchangeId,
    instrument: InstrumentKey,
    message: &LseMessage,
    received: Timestamp,
) -> (r: Vec<MarketEvent<InstrumentKey, OrderBookL1>>)
    ensures
        r@ == quotes_of(exchange, instrument, *message, received),
{
    let mut events: Vec<MarketEvent<InstrumentKey, OrderBookL1>> = Vec::new();
    if let LseMessage::Tick(tick) = message {
        events.push(
            MarketEvent {
                time_exchange: tick.time_exchange,
                time_received: received,
                exchange,
                instrument,
                kind: OrderBookL1 {
                    last_update_time: tick.time_exchange,
                    best_bid: Some(Level { price: tick.bid, amount: Decimal::zero() }),
                    best_ask: Some(Level { price: tick.ask, amount: Decimal::zero() }),
                },
            },
        );
    }
    assert(events@ =~= quotes_of(exchange, instrument, *message, received));
    events
}

/// A tick gives one quote: its bid on the bid's side and its ask on the ask's, without sizes, at the instant that
/// the provider stamped it with, received when it was, on the venue and for the instrument that it was decoded
/// for. Any other frame gives nothing.
pub proof fn law_ticks_quote_their_sides<InstrumentKey>(
    exchange: ExchangeId,
    instrument: InstrumentKey,
    message: LseMessage,
    received: Timestamp,
)
    ensures
        ({
            let events = quotes_of(exchange, instrument, message, received);
            &&& events.len() == if message is Tick { 1nat } else { 0nat }
            &&& message matches LseMessage::Tick(tick) ==> {
                let event = events[0];
                &&& event.time_exchange == tick.time_exchange
                &&& event.kind.last_update_time == tick.time_exchange
                &&& event.time_received == received
                &&& event.exchange == exchange
                &&& event.instrument == instrument
                &&& event.kind.best_bid matches Some(bid) && bid.price == tick.bid && bid.amount.mantissa == 0
                &&& event.kind.best_ask matches Some(ask) && ask.price == tick.ask && ask.amount.mantissa == 0
            }
        }),
{
}

} // verus!
