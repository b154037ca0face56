//! The provider's price datasets and the resolutions that it serves.

use vstd::prelude::*;
use vstd::string::*;
use crate::exchange::ExchangeId;
use crate::text;
use crate::time::CandleInterval;

verus! {

/// A price dataset of the provider.
#[derive(Clone, Copy, PartialEq, Eq, Structural, Debug, Hash)]
pub enum LseDataset {
    Fx,
    Crypto,
    Stocks,
    Etf,
    Futures,
    Commodities,
    Indices,
    Volatility,
    InterestRates,
    CurrencyIndex,
}

impl LseDataset {
    /// Every dataset.
    pub open spec fn all() -> Seq<LseDataset> {
        seq![
            LseDataset::Fx,
            LseDataset::Crypto,
            LseDataset::Stocks,
            LseDataset::Etf,
            LseDataset::Futures,
            LseDataset::Commodities,
            LseDataset::Indices,
            LseDataset::Volatility,
            LseDataset::InterestRates,
            LseDataset::CurrencyIndex,
        ]
    }

    /// The venue of the dataset's instruments.
    pub open spec fn exchange(self) -> ExchangeId {
        match self {
            LseDataset::Fx => ExchangeId::LseFx,
            LseDataset::Crypto => ExchangeId::LseCrypto,
            LseDataset::Stocks => ExchangeId::LseEquities,
            LseDataset::Etf => ExchangeId::LseEquities,
            LseDataset::Futures => ExchangeId::LseFutures,
            _ => ExchangeId::LseCfd,
        }
    }

    /// The dataset's name in the catalog.
    pub open spec fn catalog_name(self) -> Seq<char> {
        match self {
            LseDataset::Fx => "fx"@,
            LseDataset::Crypto => "crypto"@,
            LseDataset::Stocks => "stocks"@,
            LseDataset::Etf => "etf"@,
            LseDataset::Futures => "futures"@,
            LseDataset::Commodities => "commodities"@,
            LseDataset::Indices => "indices"@,
            LseDataset::Volatility => "volatility"@,
            LseDataset::InterestRates => "interest_rates"@,
            LseDataset::CurrencyIndex => "currency_index"@,
        }
    }

    /// Whether candles of the dataset can be exported: the synthetic classes are tick-only there.
    pub open spec fn has_candle_exports(self) -> bool {
        self != LseDataset::Volatility && self != LseDataset::InterestRates && self
            != LseDataset::CurrencyIndex
    }

    /// The category under which the live feed lists the dataset's symbols, where it has one.
    pub open spec fn category(self) -> Option<Seq<char>> {
        match self {
            LseDataset::Fx => Some("Forex"@),
            LseDataset::Crypto => Some("Crypto"@),
            LseDataset::Stocks => Some("Stocks"@),
            LseDataset::Etf => Some("ETFs"@),
            LseDataset::Commodities => Some("Commodities"@),
            LseDataset::Indices => Some("Indices"@),
            _ => None,
        }
    }

    /// Every dataset.
    pub fn list() -> (r: Vec<LseDataset>)
        ensures
            r@ == LseDataset::all(),
    {
        vec![
            LseDataset::Fx,
            LseDataset::Crypto,
            LseDataset::Stocks,
            LseDataset::Etf,
            LseDataset::Futures,
            LseDataset::Commodities,
            LseDataset::Indices,
            LseDataset::Volatility,
            LseDataset::InterestRates,
            LseDataset::CurrencyIndex,
        ]
    }

    /// The venue of the dataset's instruments.
    pub fn exchange_id(&self) -> (r: ExchangeId)
        ensures
            r == self.exchange(),
    {
        match self {
            LseDataset::Fx => ExchangeId::LseFx,
            LseDataset::Crypto => ExchangeId::LseCrypto,
            LseDataset::Stocks => ExchangeId::LseEquities,
            LseDataset::Etf => ExchangeId::LseEquities,
            LseDataset::Futures => ExchangeId::LseFutures,
            _ => ExchangeId::LseCfd,
        }
    }

    /// The dataset's name in the catalog.
    pub fn as_catalog_str(&self) -> (r: &'static str)
        ensures
            r@ == self.catalog_name(),
    {
        match self {
            LseDataset::Fx => "fx",
            LseDataset::Crypto => "crypto",
            LseDataset::Stocks => "stocks",
            LseDataset::Etf => "etf",
            LseDataset::Futures => "futures",
            LseDataset::Commodities => "commodities",
            LseDataset::Indices => "indices",
            LseDataset::Volatility => "volatility",
            LseDataset::InterestRates => "interest_rates",
            LseDataset::CurrencyIndex => "currency_index",
        }
    }

    /// Whether candles of the dataset can be exported.
    pub fn is_candle_class(&self) -> (r: bool)
        ensures
            r == self.has_candle_exports(),
    {
        !matches!(self, LseDataset::Volatility | LseDataset::InterestRates | LseDataset::CurrencyIndex)
    }

    /// The category under which the live feed lists the dataset's symbols, where it has one.
    pub fn ws_category(&self) -> (r: Option<&'static str>)
        ensures
            match r {
                Some(name) => self.category() == Some(name@),
                None => self.category() is None,
            },
    {
        match self {
            LseDataset::Fx => Some("Forex"),
            LseDataset::Crypto => Some("Crypto"),
            LseDataset::Stocks => Some("Stocks"),
            LseDataset::Etf => Some("ETFs"),
            LseDataset::Commodities => Some("Commodities"),
            LseDataset::Indices => Some("Indices"),
            _ => None,
        }
    }
}

/// The provider's spelling of a resolution, where it serves it.
pub open spec fn interval_name(interval: CandleInterval) -> Option<Seq<char>> {
    match interval {
        CandleInterval::Sec1 => Some("1s"@),
        CandleInterval::Sec5 => Some("5s"@),
        CandleInterval::Sec15 => Some("15s"@),
        CandleInterval::Sec30 => Some("30s"@),
        CandleInterval::Min1 => Some("1m"@),
        CandleInterval::Min3 => Some("3m"@),
        CandleInterval::Min5 => Some("5m"@),
        CandleInterval::Min15 => Some("15m"@),
        CandleInterval::Min30 => Some("30m"@),
        CandleInterval::Hour1 => Some("1h"@),
        CandleInterval::Hour4 => Some("4h"@),
        CandleInterval::Day1 => Some("1d"@),
        CandleInterval::Week1 => Some("1w"@),
        CandleInterval::Month1 => Some("1mo"@),
        _ => None,
    }
}

/// The provider's spelling of a resolution, where it serves it.
pub fn candle_interval_str(interval: CandleInterval) -> (r: Option<&'static str>)
    ensures
        match r {
            Some(name) => interval_name(interval) == Some(name@),
            None => interval_name(interval) is None,
        },
{
    match interval {
        CandleInterval::Sec1 => Some("1s"),
        CandleInterval::Sec5 => Some("5s"),
        CandleInterval::Sec15 => Some("15s"),
        CandleInterval::Sec30 => Some("30s"),
        CandleInterval::Min1 => Some("1m"),
        CandleInterval::Min3 => Some("3m"),
        CandleInterval::Min5 => Some("5m"),
        CandleInterval::Min15 => Some("15m"),
        CandleInterval::Min30 => Some("30m"),
        CandleInterval::Hour1 => Some("1h"),
        CandleInterval::Hour4 => Some("4h"),
        CandleInterval::Day1 => Some("1d"),
        CandleInterval::Week1 => Some("1w"),
        CandleInterval::Month1 => Some("1mo"),
        _ => None,
    }
}

/// Every dataset is listed, and none twice.
pub proof fn law_every_dataset_is_listed_once(dataset: LseDataset, i: int, j: int)
    ensures
        LseDataset::all().contains(dataset),
        0 <= i < j < LseDataset::all().len() ==> LseDataset::all()[i] != LseDataset::all()[j],
{
    let all = LseDataset::all();
    let at: int = match dataset {
        LseDataset::Fx => 0,
        LseDataset::Crypto => 1,
        LseDataset::Stocks => 2,
        LseDataset::Etf => 3,
        LseDataset::Futures => 4,
        LseDataset::Commodities => 5,
        LseDataset::Indices => 6,
        LseDataset::Volatility => 7,
        LseDataset::InterestRates => 8,
        LseDataset::CurrencyIndex => 9,
    };
    assert(all[at] == dataset);
}

/// The venue of a dataset of its own is named after it. Stocks and ETFs share the venue of equities, and
/// whatever is left is traded as contracts for difference; no other datasets share a venue.
pub proof fn law_venues_are_named_after_their_datasets(a: LseDataset, b: LseDataset)
    ensures
        a == LseDataset::Fx || a == LseDataset::Crypto || a == LseDataset::Futures ==> a.exchange().name() == "lse_"@
            + a.catalog_name(),
        a.exchange() == b.exchange() <==> {
            ||| a == b
            ||| (a is Stocks || a is Etf) && (b is Stocks || b is Etf)
            ||| !(a is Fx || a is Crypto || a is Futures || a is Stocks || a is Etf) && !(b is Fx || b is Crypto
                || b is Futures || b is Stocks || b is Etf)
        },
        (a is Stocks ==> a.exchange().name() == "lse_equities"@) && (a is Indices ==> a.exchange().name() == "lse_cfd"@),
{
    reveal_strlit("lse_");
    reveal_strlit("fx");
    reveal_strlit("crypto");
    reveal_strlit("futures");
    reveal_strlit("lse_fx");
    reveal_strlit("lse_crypto");
    reveal_strlit("lse_futures");
    if a == LseDataset::Fx {
        assert(a.exchange().name() =~= "lse_"@ + a.catalog_name());
    } else if a == LseDataset::Crypto {
        assert(a.exchange().name() =~= "lse_"@ + a.catalog_name());
    } else if a == LseDataset::Futures {
        assert(a.exchange().name() =~= "lse_"@ + a.catalog_name());
    }
}

/// No two datasets have one name in the catalog.
pub proof fn law_catalog_names_differ(a: LseDataset, b: LseDataset)
    requires
        a.catalog_name() == b.catalog_name(),
    ensures
        a == b,
{
    reveal_strlit("fx");
    reveal_strlit("crypto");
    reveal_strlit("stocks");
    reveal_strlit("etf");
    reveal_strlit("futures");
    reveal_strlit("commodities");
    reveal_strlit("indices");
    reveal_strlit("volatility");
    reveal_strlit("interest_rates");
    reveal_strlit("currency_index");
    let s = a.catalog_name();
    let t = b.catalog_name();
    assert(s.len() == t.len() && s[0] == t[0] && s[1] == t[1]);
}

/// The live feed lists the datasets of which candles are exported, but for futures, each under a category that
/// begins as its name in the catalog does, whatever the case of the letters; foreign exchange alone is spelled
/// out.
pub proof fn law_categories_are_named_after_their_datasets(dataset: LseDataset)
    ensures
        dataset.category() is Some <==> dataset.has_candle_exports() && !(dataset is Futures),
        dataset.has_candle_exports() <==> !(dataset is Volatility || dataset is InterestRates || dataset is CurrencyIndex),
        dataset is Fx ==> dataset.category() == Some("Forex"@),
        dataset.category() is Some && !(dataset is Fx) ==> dataset.category()->0.len()
            >= dataset.catalog_name().len() && text::same_but_for_case(
            dataset.category()->0.take(dataset.catalog_name().len() as int),
            dataset.catalog_name(),
        ),
{
    reveal_strlit("crypto");
    reveal_strlit("stocks");
    reveal_strlit("etf");
    reveal_strlit("commodities");
    reveal_strlit("indices");
    reveal_strlit("Crypto");
    reveal_strlit("Stocks");
    reveal_strlit("ETFs");
    reveal_strlit("Commodities");
    reveal_strlit("Indices");
}

/// A resolution's spelling says how long it is: a number, and behind it the unit that it counts, which is a
/// second, a minute, an hour, a day or a week, or a calendar month.
///
/// Returned are the number and the unit.
pub proof fn law_spelled_resolutions_are_as_long_as_they_say(interval: CandleInterval) -> (r: (nat, Seq<char>))
    requires
        interval_name(interval) is Some,
    ensures
        interval_name(interval)->0 == text::decimal_text(r.0) + r.1,
        ({
            let (n, unit) = r;
            ||| unit == "s"@ && interval.step() is Seconds && interval.step()->Seconds_0 == n
            ||| unit == "m"@ && interval.step() is Seconds && interval.step()->Seconds_0 == n * 60
            ||| unit == "h"@ && interval.step() is Seconds && interval.step()->Seconds_0 == n * 60 * 60
            ||| unit == "d"@ && interval.step() is Seconds && interval.step()->Seconds_0 == n * 24 * 60 * 60
            ||| unit == "w"@ && interval.step() is Seconds && interval.step()->Seconds_0 == n * 7 * 24 * 60 * 60
            ||| unit == "mo"@ && interval.step() is Months && interval.step()->Months_0 == n
        }),
{
    reveal_strlit("s");
    reveal_strlit("m");
    reveal_strlit("h");
    reveal_strlit("d");
    reveal_strlit("w");
    reveal_strlit("mo");
    reveal_strlit("1s");
    reveal_strlit("5s");
    reveal_strlit("15s");
    reveal_strlit("30s");
    reveal_strlit("1m");
    reveal_strlit("3m");
    reveal_strlit("5m");
    reveal_strlit("15m");
    reveal_strlit("30m");
    reveal_strlit("1h");
    reveal_strlit("4h");
    reveal_strlit("1d");
    reveal_strlit("1w");
    reveal_strlit("1mo");
    reveal_with_fuel(text::decimal_text, 3);
    let name = interval_name(interval)->0;
    let (n, unit) = match interval {
        CandleInterval::Sec1 => (1nat, "s"@),
        CandleInterval::Sec5 => (5, "s"@),
        CandleInterval::Sec15 => (15, "s"@),
        CandleInterval::Sec30 => (30, "s"@),
        CandleInterval::Min1 => (1, "m"@),
        CandleInterval::Min3 => (3, "m"@),
        CandleInterval::Min5 => (5, "m"@),
        CandleInterval::Min15 => (15, "m"@),
        CandleInterval::Min30 => (30, "m"@),
        CandleInterval::Hour1 => (1, "h"@),
        CandleInterval::Hour4 => (4, "h"@),
        CandleInterval::Day1 => (1, "d"@),
        CandleInterval::Week1 => (1, "w"@),
        _ => (1, "mo"@),
    };
    let digits = text::decimal_text(n);
    assert(n == 15 ==> digits =~= seq!['1', '5']);
    assert(n == 30 ==> digits =~= seq!['3', '0']);
    assert(name =~= digits + unit);
    (n, unit)
}

/// The provider serves every resolution but those of two, six, eight and twelve hours and of three days.
pub proof fn law_served_resolutions(interval: CandleInterval)
    ensures
        interval_name(interval) is None <==> interval is Hour2 || interval is Hour6 || interval is Hour8 || interval is Hour12
            || interval is Day3,
{
}

proof fn lemma_spellings(interval: CandleInterval)
    ensures
        interval_name(interval) matches Some(name) ==> {
            &&& 2 <= name.len() <= 3
            &&& interval == match (name.len() == 2, name[0], name.last()) {
                (true, '1', 's') => CandleInterval::Sec1,
                (true, '5', 's') => CandleInterval::Sec5,
                (false, '1', 's') => CandleInterval::Sec15,
                (false, '3', 's') => CandleInterval::Sec30,
                (true, '1', 'm') => CandleInterval::Min1,
                (true, '3', 'm') => CandleInterval::Min3,
                (true, '5', 'm') => CandleInterval::Min5,
                (false, '1', 'm') => CandleInterval::Min15,
                (false, '3', 'm') => CandleInterval::Min30,
                (true, '1', 'h') => CandleInterval::Hour1,
                (true, '4', 'h') => CandleInterval::Hour4,
                (true, '1', 'd') => CandleInterval::Day1,
                (true, '1', 'w') => CandleInterval::Week1,
                _ => CandleInterval::Month1,
            }
        },
{
    reveal_strlit("1s");
    reveal_strlit("5s");
    reveal_strlit("15s");
    reveal_strlit("30s");
    reveal_strlit("1m");
    reveal_strlit("3m");
    reveal_strlit("5m");
    reveal_strlit("15m");
    reveal_strlit("30m");
    reveal_strlit("1h");
    reveal_strlit("4h");
    reveal_strlit("1d");
    reveal_strlit("1w");
    reveal_strlit("1mo");
}

/// No two resolutions have one spelling.
pub proof fn law_spellings_tell_resolutions_apart(a: CandleInterval, b: CandleInterval)
    requires
        interval_name(a) is Some,
        interval_name(a) == interval_name(b),
    ensures
        a == b,
{
    lemma_spellings(a);
    lemma_spellings(b);
}

/// A resolution's spelling has two or three characters.
pub proof fn law_spellings_are_short(interval: CandleInterval)
    requires
        interval_name(interval) is Some,
    ensures
        2 <= interval_name(interval)->0.len() <= 3,
{
    lemma_spellings(interval);
}

} // verus!
