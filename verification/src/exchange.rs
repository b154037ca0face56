//! Venues.

use vstd::prelude::*;
use vstd::string::*;
use crate::text;

verus! {

/// A venue that prices or executes instruments.
#[derive(Clone, Copy, PartialEq, Eq, Structural, Debug, Hash, PartialOrd, Ord)]
pub enum ExchangeId {
    BinanceSpot,
    Coinbase,
    LseCfd,
    LseCrypto,
    LseEquities,
    LseFutures,
    LseFx,
}

impl ExchangeId {
    /// The position of this venue in the order of venues.
    pub open spec fn rank(self) -> int {
        match self {
            ExchangeId::BinanceSpot => 0,
            ExchangeId::Coinbase => 1,
            ExchangeId::LseCfd => 2,
            ExchangeId::LseCrypto => 3,
            ExchangeId::LseEquities => 4,
            ExchangeId::LseFutures => 5,
            ExchangeId::LseFx => 6,
        }
    }

    /// The venue's name in snake case.
    pub open spec fn name(self) -> Seq<char> {
        match self {
            ExchangeId::BinanceSpot => "binance_spot"@,
            ExchangeId::Coinbase => "coinbase"@,
            ExchangeId::LseCfd => "lse_cfd"@,
            ExchangeId::LseCrypto => "lse_crypto"@,
            ExchangeId::LseEquities => "lse_equities"@,
            ExchangeId::LseFutures => "lse_futures"@,
            ExchangeId::LseFx => "lse_fx"@,
        }
    }

    /// The venue's name as it stands in messages.
    pub open spec fn label(self) -> Seq<char> {
        match self {
            ExchangeId::BinanceSpot => "BinanceSpot"@,
            ExchangeId::Coinbase => "Coinbase"@,
            ExchangeId::LseCfd => "LseCfd"@,
            ExchangeId::LseCrypto => "LseCrypto"@,
            ExchangeId::LseEquities => "LseEquities"@,
            ExchangeId::LseFutures => "LseFutures"@,
            ExchangeId::LseFx => "LseFx"@,
        }
    }

    /// The position of this venue in the order of venues.
    pub fn position(&self) -> (r: u8)
        ensures
            r == self.rank(),
    {
        match self {
            ExchangeId::BinanceSpot => 0,
            ExchangeId::Coinbase => 1,
            ExchangeId::LseCfd => 2,
            ExchangeId::LseCrypto => 3,
            ExchangeId::LseEquities => 4,
            ExchangeId::LseFutures => 5,
            ExchangeId::LseFx => 6,
        }
    }

    /// The venue's name in snake case.
    pub fn as_str(&self) -> (r: &'static str)
        ensures
            r@ == self.name(),
    {
        match self {
            ExchangeId::BinanceSpot => "binance_spot",
            ExchangeId::Coinbase => "coinbase",
            ExchangeId::LseCfd => "lse_cfd",
            ExchangeId::LseCrypto => "lse_crypto",
            ExchangeId::LseEquities => "lse_equities",
            ExchangeId::LseFutures => "lse_futures",
            ExchangeId::LseFx => "lse_fx",
        }
    }

    /// The venue's name as it stands in messages.
    pub fn display_name(&self) -> (r: &'static str)
        ensures
            r@ == self.label(),
    {
        match self {
            ExchangeId::BinanceSpot => "BinanceSpot",
            ExchangeId::Coinbase => "Coinbase",
            ExchangeId::LseCfd => "LseCfd",
            ExchangeId::LseCrypto => "LseCrypto",
            ExchangeId::LseEquities => "LseEquities",
            ExchangeId::LseFutures => "LseFutures",
            ExchangeId::LseFx => "LseFx",
        }
    }
}

/// The venue at a position in the order of venues, where there is one.
pub open spec fn venue_at(position: u8) -> Option<ExchangeId> {
    match position {
        0 => Some(ExchangeId::BinanceSpot),
        1 => Some(ExchangeId::Coinbase),
        2 => Some(ExchangeId::LseCfd),
        3 => Some(ExchangeId::LseCrypto),
        4 => Some(ExchangeId::LseEquities),
        5 => Some(ExchangeId::LseFutures),
        6 => Some(ExchangeId::LseFx),
        _ => None,
    }
}

/// The venue at a position in the order of venues, where there is one.
pub fn exchange_at(position: u8) -> (r: Option<ExchangeId>)
    ensures
        r == venue_at(position),
{
    match position {
        0 => Some(ExchangeId::BinanceSpot),
        1 => Some(ExchangeId::Coinbase),
        2 => Some(ExchangeId::LseCfd),
        3 => Some(ExchangeId::LseCrypto),
        4 => Some(ExchangeId::LseEquities),
        5 => Some(ExchangeId::LseFutures),
        6 => Some(ExchangeId::LseFx),
        _ => None,
    }
}

/// Every venue is at its own position.
pub proof fn law_venues_are_at_their_positions(exchange: ExchangeId)
    ensures
        venue_at(exchange.rank() as u8) == Some(exchange),
        0 <= exchange.rank() <= u8::MAX,
{
}

/// A venue's name is its label in snake case: the two are the same but for the case of their letters, once
/// the underscore in front of the label's second word is taken out.
///
/// Returned is where the second word of the label starts, or its length where it is one word.
pub proof fn law_names_are_labels_in_snake_case(exchange: ExchangeId) -> (word: int)
    ensures
        ({
            let name = exchange.name();
            let label = exchange.label();
            &&& 0 < word <= label.len()
            &&& text::same_but_for_case(name.take(word), label.take(word))
            &&& forall|i: int| 0 <= i < name.len() ==> !('A' <= #[trigger] name[i] <= 'Z')
            &&& forall|i: int| 0 <= i < label.len() ==> ('A' <= #[trigger] label[i] <= 'Z' <==> i == 0 || i == word)
            &&& word == label.len() ==> name.len() == word
            &&& word < label.len() ==> name[word] == '_' && text::same_but_for_case(
                name.skip(word + 1),
                label.skip(word),
            )
        }),
{
    reveal_strlit("binance_spot");
    reveal_strlit("coinbase");
    reveal_strlit("lse_cfd");
    reveal_strlit("lse_crypto");
    reveal_strlit("lse_equities");
    reveal_strlit("lse_futures");
    reveal_strlit("lse_fx");
    reveal_strlit("BinanceSpot");
    reveal_strlit("Coinbase");
    reveal_strlit("LseCfd");
    reveal_strlit("LseCrypto");
    reveal_strlit("LseEquities");
    reveal_strlit("LseFutures");
    reveal_strlit("LseFx");
    match exchange {
        ExchangeId::BinanceSpot => 7,
        ExchangeId::Coinbase => 8,
        _ => 3,
    }
}

/// Venues are in the order of their names, which are all different.
pub proof fn law_venues_are_in_order_of_their_names(a: ExchangeId, b: ExchangeId)
    ensures
        a.rank() < b.rank() <==> text::text_before(a.name(), b.name()),
        a.name() == b.name() ==> a == b,
{
    reveal_strlit("binance_spot");
    reveal_strlit("coinbase");
    reveal_strlit("lse_cfd");
    reveal_strlit("lse_crypto");
    reveal_strlit("lse_equities");
    reveal_strlit("lse_futures");
    reveal_strlit("lse_fx");
    if a == b {
        text::law_text_order(a.name(), b.name());
    } else {
        let left = a.name();
        let right = b.name();
        // How many characters the two names share.
        let shared: int = if left[0] != right[0] {
            0
        } else if left[4] != right[4] {
            4
        } else {
            5
        };
        assert(left.take(shared) =~= right.take(shared));
        assert(left =~= left.take(shared) + left.skip(shared));
        assert(right =~= left.take(shared) + right.skip(shared));
        text::law_first_difference_decides(left.take(shared), left.skip(shared), right.skip(shared));
    }
}

} // verus!
