//! Errors of building a collection of instruments, and of searching it.

use vstd::prelude::*;
use vstd::string::*;
use crate::text;

verus! {

/// What can go wrong with indexes. More causes may follow.
#[derive(Debug, PartialEq, Eq, Hash)]
#[non_exhaustive]
pub enum IndexError {
    /// No index for a venue. Holds a description of the search.
    ExchangeIndex(String),
    /// No index for an asset. Holds a description of the search.
    AssetIndex(String),
    /// No index for an instrument. Holds a description of the search.
    InstrumentIndex(String),
    /// Two different instruments share an internal name, so state that is keyed by name and read by
    /// position would attach to the wrong one. Holds the name and both instruments.
    DuplicateInstrumentNameInternal(String),
}

impl IndexError {
    /// The error as text.
    pub open spec fn text(self) -> Seq<char> {
        match self {
            IndexError::ExchangeIndex(detail) => "ExchangeIndex: "@ + detail@,
            IndexError::AssetIndex(detail) => "AssetIndex: "@ + detail@,
            IndexError::InstrumentIndex(detail) => "InstrumentIndex: "@ + detail@,
            IndexError::DuplicateInstrumentNameInternal(detail) => "duplicate InstrumentNameInternal: "@
                + detail@,
        }
    }

    /// The error as text.
    pub fn message(&self) -> (r: String)
        ensures
            r@ == self.text(),
    {
        let (kind, detail) = match self {
            IndexError::ExchangeIndex(detail) => ("ExchangeIndex: ", detail),
            IndexError::AssetIndex(detail) => ("AssetIndex: ", detail),
            IndexError::InstrumentIndex(detail) => ("InstrumentIndex: ", detail),
            IndexError::DuplicateInstrumentNameInternal(detail) => ("duplicate InstrumentNameInternal: ", detail),
        };
        let mut out = String::from_str(kind);
        out.append(detail.as_str());
        out
    }
}

/// A message says which search failed, and ends with what the error holds of it.
pub proof fn law_messages_end_with_what_they_carry(detail: String)
    ensures
        text::after_prefix(IndexError::ExchangeIndex(detail).text(), "ExchangeIndex: "@) == Some(detail@),
        text::after_prefix(IndexError::AssetIndex(detail).text(), "AssetIndex: "@) == Some(detail@),
        text::after_prefix(IndexError::InstrumentIndex(detail).text(), "InstrumentIndex: "@) == Some(detail@),
        text::after_prefix(
            IndexError::DuplicateInstrumentNameInternal(detail).text(),
            "duplicate InstrumentNameInternal: "@,
        ) == Some(detail@),
{
    text::law_prefix_is_taken_off("ExchangeIndex: "@, detail@);
    text::law_prefix_is_taken_off("AssetIndex: "@, detail@);
    text::law_prefix_is_taken_off("InstrumentIndex: "@, detail@);
    text::law_prefix_is_taken_off("duplicate InstrumentNameInternal: "@, detail@);
}

} // verus!
