//! Market data as it reaches the engine.

use vstd::prelude::*;
use vstd::arithmetic::power;
use crate::exchange::ExchangeId;
use crate::time::Timestamp;

verus! {

/// A decimal number: `mantissa` divided by ten to the power of `scale`.
#[derive(Clone, Copy, PartialEq, Eq, Structural, Debug, Hash)]
pub struct Decimal {
    pub mantissa: i128,
    pub scale: u32,
}

impl Decimal {
    /// Zero.
    pub open spec fn spec_zero() -> Decimal {
        Decimal { mantissa: 0, scale: 0 }
    }

    /// Zero.
    pub fn zero() -> (r: Decimal)
        ensures
            r == Decimal::spec_zero(),
    {
        Decimal { mantissa: 0, scale: 0 }
    }
}

/// The same number without zeros at the end of its fraction.
pub open spec fn reduced(mantissa: int, scale: nat) -> (int, nat)
    decreases scale,
{
    if scale > 0 && mantissa % 10 == 0 {
        reduced(mantissa / 10, (scale - 1) as nat)
    } else {
        (mantissa, scale)
    }
}

/// Whether two decimals are the same number, however many zeros end their fractions.
pub open spec fn same_number(a: Decimal, b: Decimal) -> bool {
    reduced(a.mantissa as int, a.scale as nat) == reduced(b.mantissa as int, b.scale as nat)
}

spec fn signed(negative: bool, size: int) -> int {
    if negative {
        -size
    } else {
        size
    }
}

fn reduce(d: Decimal) -> (r: Decimal)
    ensures
        reduced(d.mantissa as int, d.scale as nat) == (r.mantissa as int, r.scale as nat),
{
    let negative = d.mantissa < 0;
    let mut size: u128 = if negative { (-(d.mantissa + 1)) as u128 + 1 } else { d.mantissa as u128 };
    let mut scale: u32 = d.scale;
    while scale > 0 && size % 10 == 0
        invariant
            size <= 0x8000_0000_0000_0000_0000_0000_0000_0000,
            !negative ==> size <= 0x7fff_ffff_ffff_ffff_ffff_ffff_ffff_ffff,
            reduced(d.mantissa as int, d.scale as nat) == reduced(signed(negative, size as int), scale as nat),
        decreases scale,
    {
        proof {
            let before = signed(negative, size as int);
            assert(before % 10 == 0);
            assert(before / 10 == signed(negative, size as int / 10));
        }
        size = size / 10;
        scale = scale - 1;
    }
    assert(signed(negative, size as int) % 10 == 0 ==> size % 10 == 0);
    let mantissa: i128 = if negative {
        if size == 0 { 0 } else { -((size - 1) as i128) - 1 }
    } else {
        size as i128
    };
    Decimal { mantissa, scale }
}

impl Decimal {
    /// Whether this is the same number as `other`.
    pub fn is_same_number(&self, other: &Decimal) -> (r: bool)
        ensures
            r == same_number(*self, *other),
    {
        let left = reduce(*self);
        let right = reduce(*other);
        left.mantissa == right.mantissa && left.scale == right.scale
    }
}

/// What rust_decimal gives for `a + b`, where both and the sum fit.
pub uninterp spec fn decimal_sum(a: (i128, u32), b: (i128, u32)) -> Option<(i128, u32)>;

/// What rust_decimal gives for `a * b`, where both and the product fit.
pub uninterp spec fn decimal_product(a: (i128, u32), b: (i128, u32)) -> Option<(i128, u32)>;

/// What rust_decimal gives for `a / b`, where both and the quotient fit and `b` is not zero.
pub uninterp spec fn decimal_quotient(a: (i128, u32), b: (i128, u32)) -> Option<(i128, u32)>;

/// Adds through [`rust_decimal::Decimal::checked_add`]: the sum, or `None` where a number or the sum
/// does not fit, is a function of the two numbers.
#[verifier::external_body]
fn add_decimals(a: (i128, u32), b: (i128, u32)) -> (r: Option<(i128, u32)>)
    ensures
        r == decimal_sum(a, b),
{
    let left = rust_decimal::Decimal::try_from_i128_with_scale(a.0, a.1).ok()?;
    let right = rust_decimal::Decimal::try_from_i128_with_scale(b.0, b.1).ok()?;
    left.checked_add(right).map(|sum| (sum.mantissa(), sum.scale()))
}

/// Multiplies through [`rust_decimal::Decimal::checked_mul`]: the product, or `None` where a number
/// or the product does not fit, is a function of the two numbers.
#[verifier::external_body]
fn multiply_decimals(a: (i128, u32), b: (i128, u32)) -> (r: Option<(i128, u32)>)
    ensures
        r == decimal_product(a, b),
{
    let left = rust_decimal::Decimal::try_from_i128_with_scale(a.0, a.1).ok()?;
    let right = rust_decimal::Decimal::try_from_i128_with_scale(b.0, b.1).ok()?;
    left.checked_mul(right).map(|product| (product.mantissa(), product.scale()))
}

/// Divides through [`rust_decimal::Decimal::checked_div`]: the quotient, or `None` where a number or
/// the quotient does not fit or the divisor is zero, is a function of the two numbers.
#[verifier::external_body]
fn divide_decimals(a: (i128, u32), b: (i128, u32)) -> (r: Option<(i128, u32)>)
    ensures
        r == decimal_quotient(a, b),
{
    let left = rust_decimal::Decimal::try_from_i128_with_scale(a.0, a.1).ok()?;
    let right = rust_decimal::Decimal::try_from_i128_with_scale(b.0, b.1).ok()?;
    left.checked_div(right).map(|quotient| (quotient.mantissa(), quotient.scale()))
}

/// The side of an order or a trade.
#[derive(Clone, Copy, PartialEq, Eq, Structural, Debug, Hash)]
pub enum Side {
    Buy,
    Sell,
}

/// One price level of a book.
#[derive(Clone, Copy, PartialEq, Eq, Structural, Debug, Hash)]
pub struct Level {
    pub price: Decimal,
    pub amount: Decimal,
}

/// The best bid and ask of a book.
#[derive(Clone, Copy, PartialEq, Eq, Structural, Debug, Hash)]
pub struct OrderBookL1 {
    /// The venue's instant of the book.
    pub last_update_time: Timestamp,
    pub best_bid: Option<Level>,
    pub best_ask: Option<Level>,
}

/// A number as its two parts.
pub open spec fn parts(d: Decimal) -> (i128, u32) {
    (d.mantissa, d.scale)
}

/// The mean of two prices, where it fits.
pub open spec fn mean(bid: Decimal, ask: Decimal) -> Option<(i128, u32)> {
    match decimal_sum(parts(bid), parts(ask)) {
        Some(sum) => decimal_quotient(sum, (2, 0)),
        None => None,
    }
}

/// The mean of two prices, each weighted with the amount of the other side, where it fits.
pub open spec fn weighted_mean(bid: Level, ask: Level) -> Option<(i128, u32)> {
    match (
        decimal_product(parts(bid.price), parts(ask.amount)),
        decimal_product(parts(ask.price), parts(bid.amount)),
        decimal_sum(parts(bid.amount), parts(ask.amount)),
    ) {
        (Some(low), Some(high), Some(total)) => match decimal_sum(low, high) {
            Some(sum) => decimal_quotient(sum, total),
            None => None,
        },
        _ => None,
    }
}

/// What the arithmetic on a book comes to.
#[derive(Clone, Copy, PartialEq, Eq, Structural, Debug, Hash)]
pub enum MidPrice {
    /// The book has no two sides.
    OneSided,
    /// The mid.
    Price(Decimal),
    /// A number on the way does not fit.
    Overflow,
}

impl OrderBookL1 {
    /// Whether both best levels come without a size.
    pub open spec fn without_sizes(self) -> bool {
        self.best_bid->0.amount.mantissa == 0 && self.best_ask->0.amount.mantissa == 0
    }

    /// The mid of a two-sided book: weighted with the sizes, and the plain mean where both sizes
    /// are zero. `None` where a number on the way does not fit.
    pub open spec fn mid(self) -> Option<(i128, u32)> {
        if self.without_sizes() {
            mean(self.best_bid->0.price, self.best_ask->0.price)
        } else {
            weighted_mean(self.best_bid->0, self.best_ask->0)
        }
    }

    /// Whether the book has both sides.
    pub open spec fn two_sided(self) -> bool {
        self.best_bid is Some && self.best_ask is Some
    }

    /// The mid of the book: weighted with the sizes, and the plain mean where both sizes are zero.
    ///
    /// A book that publishes no sizes has a mid all the same. Half a book has none.
    pub fn mid_price(&self) -> (r: MidPrice)
        ensures
            match r {
                MidPrice::OneSided => !self.two_sided(),
                MidPrice::Price(price) => self.two_sided() && self.mid() == Some(parts(price)),
                MidPrice::Overflow => self.two_sided() && self.mid() is None,
            },
    {
        let (bid, ask) = match (self.best_bid, self.best_ask) {
            (Some(bid), Some(ask)) => (bid, ask),
            _ => {
                return MidPrice::OneSided;
            },
        };
        let found = if bid.amount.mantissa == 0 && ask.amount.mantissa == 0 {
            match add_decimals((bid.price.mantissa, bid.price.scale), (ask.price.mantissa, ask.price.scale)) {
                Some(sum) => divide_decimals(sum, (2, 0)),
                None => None,
            }
        } else {
            weigh(bid, ask)
        };
        match found {
            Some((mantissa, scale)) => MidPrice::Price(Decimal { mantissa, scale }),
            None => MidPrice::Overflow,
        }
    }
}

fn weigh(bid: Level, ask: Level) -> (r: Option<(i128, u32)>)
    ensures
        r == weighted_mean(bid, ask),
{
    let low = multiply_decimals(
        (bid.price.mantissa, bid.price.scale),
        (ask.amount.mantissa, ask.amount.scale),
    );
    let high = multiply_decimals(
        (ask.price.mantissa, ask.price.scale),
        (bid.amount.mantissa, bid.amount.scale),
    );
    let total = add_decimals((bid.amount.mantissa, bid.amount.scale), (ask.amount.mantissa, ask.amount.scale));
    match (low, high, total) {
        (Some(low), Some(high), Some(total)) => match add_decimals(low, high) {
            Some(sum) => divide_decimals(sum, total),
            None => None,
        },
        _ => None,
    }
}

/// A completed bar.
#[derive(Clone, Copy, PartialEq, Eq, Structural, Debug, Hash)]
pub struct Candle {
    /// The exclusive end of the bar's period.
    pub close_time: Timestamp,
    pub open: Decimal,
    pub high: Decimal,
    pub low: Decimal,
    pub close: Decimal,
    /// `None` where the source publishes no volume.
    pub volume: Option<Decimal>,
    /// `None` where the source publishes no count.
    pub trade_count: Option<u64>,
}

/// A trade on the tape.
#[derive(Debug)]
pub struct PublicTrade {
    /// Empty where the source publishes none.
    pub id: String,
    pub price: Decimal,
    pub amount: Decimal,
    /// The side of the aggressor, where it is published.
    pub side: Option<Side>,
}

/// The levels of a book to some depth.
#[derive(Debug)]
pub struct OrderBook {
    pub sequence: u64,
    pub bids: Vec<Level>,
    pub asks: Vec<Level>,
}

/// A forced fill.
#[derive(Clone, Copy, PartialEq, Eq, Structural, Debug, Hash)]
pub struct Liquidation {
    pub side: Side,
    pub price: Decimal,
    pub quantity: Decimal,
    pub time: Timestamp,
}

/// Risk sensitivities of an option.
#[derive(Clone, Copy, PartialEq, Eq, Structural, Debug, Hash)]
pub struct OptionGreeks {
    pub delta: Option<Decimal>,
    pub gamma: Option<Decimal>,
    pub theta: Option<Decimal>,
    pub vega: Option<Decimal>,
}

/// What a market event tells.
#[derive(Debug)]
pub enum DataKind {
    Trade(PublicTrade),
    OrderBookL1(OrderBookL1),
    OrderBook(OrderBook),
    Candle(Candle),
    Liquidation(Liquidation),
    OptionGreeks(OptionGreeks),
}

/// The position of an instrument in the engine's state.
#[derive(Clone, Copy, PartialEq, Eq, Structural, Debug, Hash, PartialOrd, Ord)]
pub struct InstrumentIndex(pub usize);

/// A normalised event of one instrument on one venue.
#[derive(Debug)]
pub struct MarketEvent<InstrumentKey, Kind> {
    /// The instant at which the event enters the timeline.
    pub time_exchange: Timestamp,
    pub time_received: Timestamp,
    pub exchange: ExchangeId,
    pub instrument: InstrumentKey,
    pub kind: Kind,
}

/// An item of a market stream.
#[derive(Debug)]
pub enum MarketStreamEvent<InstrumentKey, Kind> {
    /// The connection to a venue was lost and is made again.
    Reconnecting(ExchangeId),
    Item(MarketEvent<InstrumentKey, Kind>),
}

/// Taking zeros off the end of a fraction keeps the value, and takes all of them off.
proof fn lemma_reduced_keeps_the_value(mantissa: int, scale: nat)
    ensures
        ({
            let (m, s) = reduced(mantissa, scale);
            &&& s <= scale
            &&& mantissa == m * power::pow(10, (scale - s) as nat)
            &&& s > 0 ==> m % 10 != 0
        }),
    decreases scale,
{
    reveal(power::pow);
    if scale > 0 && mantissa % 10 == 0 {
        let tenth = mantissa / 10;
        lemma_reduced_keeps_the_value(tenth, (scale - 1) as nat);
        let (m, s) = reduced(mantissa, scale);
        let tenths = power::pow(10, (scale - 1 - s) as nat);
        assert(power::pow(10, (scale - s) as nat) == 10 * tenths);
        assert(mantissa == m * (10 * tenths)) by (nonlinear_arith)
            requires
                mantissa == 10 * tenth,
                tenth == m * tenths,
        ;
    } else {
        assert(power::pow(10, 0) == 1);
    }
}

/// Two decimals are the same number where their values are equal: the one's mantissa, brought to the
/// other's scale, is the other's brought to its own.
pub proof fn law_same_number_is_the_same_value(a: Decimal, b: Decimal)
    ensures
        same_number(a, b) <==> a.mantissa * power::pow(10, b.scale as nat) == b.mantissa * power::pow(10, a.scale as nat),
{
    let (m, s) = reduced(a.mantissa as int, a.scale as nat);
    let (n, t) = reduced(b.mantissa as int, b.scale as nat);
    lemma_reduced_keeps_the_value(a.mantissa as int, a.scale as nat);
    lemma_reduced_keeps_the_value(b.mantissa as int, b.scale as nat);
    let left = (a.scale - s) as nat;
    let right = (b.scale - t) as nat;
    power::lemma_pow_adds(10, left, b.scale as nat);
    power::lemma_pow_adds(10, right, a.scale as nat);
    power::lemma_pow_positive(10, left);
    power::lemma_pow_positive(10, right);
    power::lemma_pow_positive(10, left + b.scale as nat);
    power::lemma_pow_positive(10, right + a.scale as nat);
    let up = power::pow(10, left + b.scale as nat);
    let down = power::pow(10, right + a.scale as nat);
    assert(a.mantissa * power::pow(10, b.scale as nat) == m * up) by (nonlinear_arith)
        requires
            a.mantissa == m * power::pow(10, left),
            up == power::pow(10, left) * power::pow(10, b.scale as nat),
    ;
    assert(b.mantissa * power::pow(10, a.scale as nat) == n * down) by (nonlinear_arith)
        requires
            b.mantissa == n * power::pow(10, right),
            down == power::pow(10, right) * power::pow(10, a.scale as nat),
    ;
    if m * up == n * down {
        if s < t {
            let gap = (t - s) as nat;
            power::lemma_pow_adds(10, gap, right + a.scale as nat);
            assert(left + b.scale as nat == gap + (right + a.scale as nat));
            assert(n == m * power::pow(10, gap)) by (nonlinear_arith)
                requires
                    m * up == n * down,
                    up == power::pow(10, gap) * down,
                    down > 0,
            ;
            reveal(power::pow);
            let rest = power::pow(10, (gap - 1) as nat);
            assert(n == 10 * (m * rest)) by (nonlinear_arith)
                requires
                    n == m * power::pow(10, gap),
                    power::pow(10, gap) == 10 * rest,
            ;
        } else if t < s {
            let gap = (s - t) as nat;
            power::lemma_pow_adds(10, gap, left + b.scale as nat);
            assert(right + a.scale as nat == gap + (left + b.scale as nat));
            assert(m == n * power::pow(10, gap)) by (nonlinear_arith)
                requires
                    m * up == n * down,
                    down == power::pow(10, gap) * up,
                    up > 0,
            ;
            reveal(power::pow);
            let rest = power::pow(10, (gap - 1) as nat);
            assert(m == 10 * (n * rest)) by (nonlinear_arith)
                requires
                    m == n * power::pow(10, gap),
                    power::pow(10, gap) == 10 * rest,
            ;
        } else {
            assert(m == n) by (nonlinear_arith)
                requires
                    m * up == n * up,
                    up > 0,
            ;
        }
    }
}

/// The mid of a two-sided book. Where neither side has a size it is half the sum of the two prices.
/// Else it is the sum of each price times the size of the other side, over the sum of the sizes.
pub proof fn law_mid_weighs_each_price_with_the_other_size(book: OrderBookL1, bid: Level, ask: Level)
    requires
        book.best_bid == Some(bid),
        book.best_ask == Some(ask),
    ensures
        book.two_sided(),
        bid.amount.mantissa == 0 && ask.amount.mantissa == 0 ==> {
            let sum = decimal_sum((bid.price.mantissa, bid.price.scale), (ask.price.mantissa, ask.price.scale));
            &&& sum is None ==> book.mid() is None
            &&& sum is Some ==> book.mid() == decimal_quotient(sum->0, (2, 0))
        },
        bid.amount.mantissa != 0 || ask.amount.mantissa != 0 ==> {
            let bid_part = decimal_product((bid.price.mantissa, bid.price.scale), (ask.amount.mantissa, ask.amount.scale));
            let ask_part = decimal_product((ask.price.mantissa, ask.price.scale), (bid.amount.mantissa, bid.amount.scale));
            let size = decimal_sum((bid.amount.mantissa, bid.amount.scale), (ask.amount.mantissa, ask.amount.scale));
            &&& bid_part is None || ask_part is None || size is None ==> book.mid() is None
            &&& bid_part is Some && ask_part is Some && size is Some ==> {
                let value = decimal_sum(bid_part->0, ask_part->0);
                &&& value is None ==> book.mid() is None
                &&& value is Some ==> book.mid() == decimal_quotient(value->0, size->0)
            }
        },
{
}

} // verus!
