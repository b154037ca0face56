//! The health of the connections to every venue.

use vstd::prelude::*;
use crate::exchange;
use crate::exchange::{exchange_at, ExchangeId};
use crate::index::{ExchangeIndex, IndexedInstrument, IndexedInstruments, Keyed};
use crate::market::InstrumentIndex;

verus! {

/// The health of a connection. A connection starts out as reconnecting.
#[derive(Clone, Copy, PartialEq, Eq, Structural, Debug, Hash, PartialOrd, Ord)]
pub enum Health {
    Healthy,
    Reconnecting,
}

impl Default for Health {
    fn default() -> (r: Health)
        ensures
            r == Health::Reconnecting,
    {
        Health::Reconnecting
    }
}

/// Which connections a venue has.
///
/// A venue that only prices instruments has no account, and one that only executes them has no
/// market data. To ask for both of either would keep it from ever being healthy.
#[derive(Clone, Copy, PartialEq, Eq, Structural, Debug, Hash, PartialOrd, Ord)]
pub enum VenueRole {
    /// The venue prices instruments and executes none.
    DataOnly,
    /// The venue executes instruments and prices none.
    ExecutionOnly,
    Both,
}

impl Default for VenueRole {
    /// The strictest role.
    fn default() -> (r: VenueRole)
        ensures
            r == VenueRole::Both,
    {
        VenueRole::Both
    }
}

impl VenueRole {
    /// Whether a venue in this role has market data.
    pub open spec fn prices(self) -> bool {
        self == VenueRole::DataOnly || self == VenueRole::Both
    }

    /// Whether a venue in this role has an account.
    pub open spec fn executes(self) -> bool {
        self == VenueRole::ExecutionOnly || self == VenueRole::Both
    }

    /// Whether a venue in this role has market data.
    pub fn has_market_data(self) -> (r: bool)
        ensures
            r == self.prices(),
    {
        match self {
            VenueRole::DataOnly => true,
            VenueRole::ExecutionOnly => false,
            VenueRole::Both => true,
        }
    }

    /// Whether a venue in this role has an account.
    pub fn has_account(self) -> (r: bool)
        ensures
            r == self.executes(),
    {
        match self {
            VenueRole::DataOnly => false,
            VenueRole::ExecutionOnly => true,
            VenueRole::Both => true,
        }
    }

    /// The role of a venue by what it was seen to provide. Where that is nothing, it is held to
    /// both.
    pub open spec fn of_dimensions(prices: bool, executes: bool) -> VenueRole {
        if prices == executes {
            VenueRole::Both
        } else if prices {
            VenueRole::DataOnly
        } else {
            VenueRole::ExecutionOnly
        }
    }

    /// The role of a venue by what it was seen to provide.
    pub fn from_dimensions(has_market_data: bool, has_account: bool) -> (r: VenueRole)
        ensures
            r == VenueRole::of_dimensions(has_market_data, has_account),
    {
        match (has_market_data, has_account) {
            (true, true) => VenueRole::Both,
            (true, false) => VenueRole::DataOnly,
            (false, true) => VenueRole::ExecutionOnly,
            (false, false) => VenueRole::Both,
        }
    }
}

/// The connections of one venue.
#[derive(Clone, Copy, PartialEq, Eq, Structural, Debug, Hash, PartialOrd, Ord)]
pub struct ConnectivityState {
    /// The health of the market data connection, where the venue has one.
    pub market_data: Health,
    /// The health of the account connection, where the venue has one.
    pub account: Health,
    pub role: VenueRole,
}

impl ConnectivityState {
    /// Whether every connection that the venue has is healthy.
    pub open spec fn is_healthy(self) -> bool {
        &&& self.role.prices() ==> self.market_data == Health::Healthy
        &&& self.role.executes() ==> self.account == Health::Healthy
    }

    /// A venue in a role, with nothing connected.
    pub open spec fn unconnected(role: VenueRole) -> ConnectivityState {
        ConnectivityState { market_data: Health::Reconnecting, account: Health::Reconnecting, role }
    }

    /// A venue in a role, with nothing connected.
    pub fn new(role: VenueRole) -> (r: ConnectivityState)
        ensures
            r == ConnectivityState::unconnected(role),
    {
        ConnectivityState { market_data: Health::Reconnecting, account: Health::Reconnecting, role }
    }

    /// Whether every connection that the venue has is healthy. One that it does not have is not
    /// asked for.
    pub fn all_healthy(&self) -> (r: bool)
        ensures
            r == self.is_healthy(),
    {
        let market_data = !self.role.has_market_data() || self.market_data == Health::Healthy;
        let account = !self.role.has_account() || self.account == Health::Healthy;
        market_data && account
    }
}

/// The map of [`indexmap`], which keeps the order in which keys were inserted.
#[verifier::external_type_specification]
#[verifier::external_body]
#[verifier::reject_recursive_types(K)]
#[verifier::reject_recursive_types(V)]
#[verifier::reject_recursive_types(S)]
pub struct ExIndexMap<K, V, S>(indexmap::IndexMap<K, V, S>);

/// The keys and values of a map, in its order.
pub uninterp spec fn entries(map: indexmap::IndexMap<u8, ConnectivityState>) -> Seq<(u8, ConnectivityState)>;

/// Where a key is.
pub open spec fn place(entries: Seq<(u8, ConnectivityState)>, key: u8) -> Option<int>
    decreases entries.len(),
{
    if entries.len() == 0 {
        None
    } else {
        match place(entries.drop_last(), key) {
            Some(at) => Some(at),
            None => if entries.last().0 == key {
                Some(entries.len() - 1)
            } else {
                None
            },
        }
    }
}

/// The value of a key.
pub open spec fn value_of(entries: Seq<(u8, ConnectivityState)>, key: u8) -> Option<ConnectivityState> {
    match place(entries, key) {
        Some(at) => Some(entries[at].1),
        None => None,
    }
}

/// Entries with a key set to a value: where the key is, or else at the end.
pub open spec fn with_entry(
    entries: Seq<(u8, ConnectivityState)>,
    key: u8,
    value: ConnectivityState,
) -> Seq<(u8, ConnectivityState)> {
    match place(entries, key) {
        Some(at) => entries.update(at, (key, value)),
        None => entries.push((key, value)),
    }
}

/// Makes a map through [`indexmap::IndexMap::new`]: it is empty.
#[verifier::external_body]
fn new_map() -> (r: indexmap::IndexMap<u8, ConnectivityState>)
    ensures
        entries(r) == Seq::<(u8, ConnectivityState)>::empty(),
{
    indexmap::IndexMap::new()
}

/// Sets a key through [`indexmap::IndexMap::insert`]: a key that is there keeps its place and gets
/// the value, and another key goes to the end.
#[verifier::external_body]
fn insert(map: &mut indexmap::IndexMap<u8, ConnectivityState>, key: u8, value: ConnectivityState)
    ensures
        entries(*final(map)) == with_entry(entries(*old(map)), key, value),
{
    map.insert(key, value);
}

/// Counts entries through [`indexmap::IndexMap::len`].
#[verifier::external_body]
fn len(map: &indexmap::IndexMap<u8, ConnectivityState>) -> (r: usize)
    ensures
        r == entries(*map).len(),
{
    map.len()
}

/// Reads a key through [`indexmap::IndexMap::get`]: its value, where it is there.
#[verifier::external_body]
fn get<'a>(map: &'a indexmap::IndexMap<u8, ConnectivityState>, key: u8) -> (r: Option<&'a ConnectivityState>)
    ensures
        match r {
            Some(state) => value_of(entries(*map), key) == Some(*state),
            None => value_of(entries(*map), key) is None,
        },
{
    map.get(&key)
}

/// Borrows the value of a key through [`indexmap::IndexMap::get_mut`]: what is written there is the
/// key's value afterwards, and nothing else changes.
#[verifier::external_body]
fn get_mut<'a>(map: &'a mut indexmap::IndexMap<u8, ConnectivityState>, key: u8) -> (r: Option<
    &'a mut ConnectivityState,
>)
    ensures
        match r {
            Some(state) => value_of(entries(*old(map)), key) == Some(*state) && entries(*final(map))
                == with_entry(entries(*old(map)), key, *final(state)),
            None => value_of(entries(*old(map)), key) is None && entries(*final(map)) == entries(*old(map)),
        },
{
    map.get_mut(&key)
}

/// Reads a position through [`indexmap::IndexMap::get_index`]: the key and value there. A key is in
/// one place only.
#[verifier::external_body]
fn get_index<'a>(map: &'a indexmap::IndexMap<u8, ConnectivityState>, index: usize) -> (r: Option<
    (u8, &'a ConnectivityState),
>)
    ensures
        match r {
            Some((key, state)) => {
                &&& index < entries(*map).len()
                &&& entries(*map)[index as int] == (key, *state)
                &&& place(entries(*map), key) == Some(index as int)
            },
            None => index >= entries(*map).len(),
        },
{
    map.get_index(index).map(|(key, state)| (*key, state))
}

/// Borrows the value at a position through [`indexmap::IndexMap::get_index_mut`]: what is written
/// there is the value at that position afterwards, and nothing else changes.
#[verifier::external_body]
fn get_index_mut<'a>(map: &'a mut indexmap::IndexMap<u8, ConnectivityState>, index: usize) -> (r: Option<
    &'a mut ConnectivityState,
>)
    ensures
        match r {
            Some(state) => {
                &&& index < entries(*old(map)).len()
                &&& entries(*old(map))[index as int].1 == *state
                &&& entries(*final(map)) == entries(*old(map)).update(
                    index as int,
                    (entries(*old(map))[index as int].0, *final(state)),
                )
            },
            None => index >= entries(*old(map)).len() && entries(*final(map)) == entries(*old(map)),
        },
{
    map.get_index_mut(index).map(|(_, state)| state)
}

/// Whether every connection that a venue of the list has is healthy.
pub open spec fn everything_healthy(list: Seq<(u8, ConnectivityState)>) -> bool {
    forall|i: int| 0 <= i < list.len() ==> (#[trigger] list[i]).1.is_healthy()
}

/// The health of all connections together, and of those of each venue.
///
/// Venues are under their positions in the order of venues.
#[derive(Debug)]
pub struct ConnectivityStates {
    /// Healthy when every connection that a venue has is.
    pub global: Health,
    pub exchanges: indexmap::IndexMap<u8, ConnectivityState>,
}

/// Whether `after` is what an event on the account connection of the venue at a position makes of
/// `before`: nothing changes where all together are healthy; otherwise the connection is healthy and
/// the global health is what the connections say.
pub open spec fn follows_account_event(before: ConnectivityStates, at: int, after: ConnectivityStates) -> bool {
    if before.global == Health::Healthy {
        after == before
    } else {
        let (key, state) = before.list()[at];
        &&& after.list() == before.list().update(
            at,
            (key, ConnectivityState { account: Health::Healthy, ..state }),
        )
        &&& after.in_step()
    }
}

/// Whether `after` is what an event on the market data connection of a venue makes of `before`:
/// nothing changes where all together are healthy; otherwise the connection is healthy and the
/// global health is what the connections say.
pub open spec fn follows_market_event(
    before: ConnectivityStates,
    exchange: ExchangeId,
    after: ConnectivityStates,
) -> bool {
    if before.global == Health::Healthy {
        after == before
    } else {
        let state = before.state(exchange)->0;
        &&& after.list() == with_entry(
            before.list(),
            exchange.rank() as u8,
            ConnectivityState { market_data: Health::Healthy, ..state },
        )
        &&& after.in_step()
    }
}

/// Whether `after` is what the loss of the account connection of a venue makes of `before`: the connection is
/// reconnecting, and so are all together.
pub open spec fn follows_account_loss(
    before: ConnectivityStates,
    exchange: ExchangeId,
    after: ConnectivityStates,
) -> bool {
    let state = before.state(exchange)->0;
    &&& after.global == Health::Reconnecting
    &&& after.list() == with_entry(
        before.list(),
        exchange.rank() as u8,
        ConnectivityState { account: Health::Reconnecting, ..state },
    )
    &&& state.role.executes() ==> after.in_step()
}

/// Whether `after` is what the loss of the market data connection of a venue makes of `before`: the connection is
/// reconnecting, and so are all together.
pub open spec fn follows_market_loss(
    before: ConnectivityStates,
    exchange: ExchangeId,
    after: ConnectivityStates,
) -> bool {
    let state = before.state(exchange)->0;
    &&& after.global == Health::Reconnecting
    &&& after.list() == with_entry(
        before.list(),
        exchange.rank() as u8,
        ConnectivityState { market_data: Health::Reconnecting, ..state },
    )
    &&& state.role.prices() ==> after.in_step()
}

impl ConnectivityStates {
    /// The venues and their connections, in order.
    pub open spec fn list(self) -> Seq<(u8, ConnectivityState)> {
        entries(self.exchanges)
    }

    /// The connections of a venue.
    pub open spec fn state(self, exchange: ExchangeId) -> Option<ConnectivityState> {
        value_of(self.list(), exchange.rank() as u8)
    }

    /// Whether every key is the position of a venue.
    pub open spec fn wf(self) -> bool {
        forall|i: int| 0 <= i < self.list().len() ==> exchange::venue_at((#[trigger] self.list()[i]).0) is Some
    }

    /// Whether the global health is what the connections say.
    pub open spec fn in_step(self) -> bool {
        self.global == Health::Healthy <==> everything_healthy(self.list())
    }

    fn all_states_healthy(&self) -> (r: bool)
        ensures
            r == everything_healthy(self.list()),
    {
        let mut i: usize = 0;
        while i < len(&self.exchanges)
            invariant
                i <= self.list().len(),
                forall|k: int| 0 <= k < i ==> (#[trigger] self.list()[k]).1.is_healthy(),
            decreases self.list().len() - i,
        {
            if let Some((_, state)) = get_index(&self.exchanges, i) {
                if !state.all_healthy() {
                    assert(!self.list()[i as int].1.is_healthy());
                    return false;
                }
            }
            i = i + 1;
        }
        true
    }

    /// Takes note that the account connection of a venue was lost.
    pub fn update_from_account_reconnecting(&mut self, exchange: &ExchangeId)
        requires
            old(self).state(*exchange) is Some,
        ensures
            follows_account_loss(*old(self), *exchange, *final(self)),
            old(self).wf() ==> final(self).wf(),
    {
        let key = exchange.position();
        proof {
            lemma_place(self.list(), key);
        }
        self.global = Health::Reconnecting;
        if let Some(state) = get(&self.exchanges, key) {
            let mut updated = *state;
            updated.account = Health::Reconnecting;
            insert(&mut self.exchanges, key, updated);
            proof {
                lemma_changed(old(self).list(), key, updated);
            }
        }
    }

    /// Takes note that the market data connection of a venue was lost.
    pub fn update_from_market_reconnecting(&mut self, exchange: &ExchangeId)
        requires
            old(self).state(*exchange) is Some,
        ensures
            follows_market_loss(*old(self), *exchange, *final(self)),
            old(self).wf() ==> final(self).wf(),
    {
        let key = exchange.position();
        proof {
            lemma_place(self.list(), key);
        }
        self.global = Health::Reconnecting;
        if let Some(state) = get(&self.exchanges, key) {
            let mut updated = *state;
            updated.market_data = Health::Reconnecting;
            insert(&mut self.exchanges, key, updated);
            proof {
                lemma_changed(old(self).list(), key, updated);
            }
        }
    }

    /// Takes note of an event on the account connection of a venue: the connection is healthy, and
    /// if with it every connection is, so are all together. That holds too where the connection was
    /// healthy before.
    pub fn update_from_account_event(&mut self, exchange: &ExchangeIndex)
        requires
            old(self).global != Health::Healthy ==> exchange.0 < old(self).list().len(),
        ensures
            follows_account_event(*old(self), exchange.0 as int, *final(self)),
            old(self).in_step() ==> final(self).in_step(),
            old(self).wf() ==> final(self).wf(),
    {
        if self.global == Health::Healthy {
            return;
        }
        if let Some((key, state)) = get_index(&self.exchanges, exchange.0) {
            let mut updated = *state;
            updated.account = Health::Healthy;
            insert(&mut self.exchanges, key, updated);
            if self.all_states_healthy() {
                self.global = Health::Healthy;
            }
        }
    }

    /// Takes note of an event on the market data connection of a venue: the connection is healthy,
    /// and if with it every connection is, so are all together. That holds too where the connection
    /// was healthy before.
    pub fn update_from_market_event(&mut self, exchange: &ExchangeId)
        requires
            old(self).global != Health::Healthy ==> old(self).state(*exchange) is Some,
        ensures
            follows_market_event(*old(self), *exchange, *final(self)),
            old(self).in_step() ==> final(self).in_step(),
            old(self).wf() ==> final(self).wf(),
    {
        if self.global == Health::Healthy {
            return;
        }
        let key = exchange.position();
        proof {
            lemma_place(self.list(), key);
        }
        if let Some(state) = get(&self.exchanges, key) {
            let mut updated = *state;
            updated.market_data = Health::Healthy;
            insert(&mut self.exchanges, key, updated);
            if self.all_states_healthy() {
                self.global = Health::Healthy;
            }
        }
    }

    /// The connections of the venue at a position.
    pub fn connectivity_index(&self, key: &ExchangeIndex) -> (r: &ConnectivityState)
        requires
            key.0 < self.list().len(),
        ensures
            *r == self.list()[key.0 as int].1,
    {
        get_index(&self.exchanges, key.0).unwrap().1
    }

    /// The connections of the venue at a position, to change.
    pub fn connectivity_index_mut(&mut self, key: &ExchangeIndex) -> (r: &mut ConnectivityState)
        requires
            key.0 < old(self).list().len(),
        ensures
            *r == old(self).list()[key.0 as int].1,
            final(self).list() == old(self).list().update(
                key.0 as int,
                (old(self).list()[key.0 as int].0, *final(r)),
            ),
            final(self).global == old(self).global,
    {
        get_index_mut(&mut self.exchanges, key.0).unwrap()
    }

    /// The connections of a venue.
    pub fn connectivity(&self, key: &ExchangeId) -> (r: &ConnectivityState)
        requires
            self.state(*key) is Some,
        ensures
            self.state(*key) == Some(*r),
    {
        get(&self.exchanges, key.position()).unwrap()
    }

    /// The connections of a venue, to change.
    pub fn connectivity_mut(&mut self, key: &ExchangeId) -> (r: &mut ConnectivityState)
        requires
            old(self).state(*key) is Some,
        ensures
            old(self).state(*key) == Some(*r),
            final(self).list() == with_entry(old(self).list(), key.rank() as u8, *final(r)),
            final(self).global == old(self).global,
    {
        get_mut(&mut self.exchanges, key.position()).unwrap()
    }

    /// The venues, in order.
    pub fn exchange_ids(&self) -> (r: Vec<ExchangeId>)
        requires
            self.wf(),
        ensures
            r@.len() == self.list().len(),
            forall|i: int|
                0 <= i < r@.len() ==> exchange::venue_at((#[trigger] self.list()[i]).0) == Some(r@[i]),
    {
        let mut out: Vec<ExchangeId> = Vec::new();
        let mut i: usize = 0;
        while i < len(&self.exchanges)
            invariant
                self.wf(),
                i <= self.list().len(),
                out@.len() == i,
                forall|k: int|
                    0 <= k < i ==> exchange::venue_at((#[trigger] self.list()[k]).0) == Some(out@[k]),
            decreases self.list().len() - i,
        {
            if let Some((key, _)) = get_index(&self.exchanges, i) {
                assert(exchange::venue_at(self.list()[i as int].0) is Some);
                if let Some(venue) = exchange_at(key) {
                    out.push(venue);
                }
            }
            i = i + 1;
        }
        out
    }

    /// The connections of every venue, in order.
    pub fn exchange_states(&self) -> (r: Vec<ConnectivityState>)
        ensures
            r@.len() == self.list().len(),
            forall|i: int| 0 <= i < r@.len() ==> r@[i] == (#[trigger] self.list()[i]).1,
    {
        let mut out: Vec<ConnectivityState> = Vec::new();
        let mut i: usize = 0;
        while i < len(&self.exchanges)
            invariant
                i <= self.list().len(),
                out@.len() == i,
                forall|k: int| 0 <= k < i ==> out@[k] == (#[trigger] self.list()[k]).1,
            decreases self.list().len() - i,
        {
            if let Some((_, state)) = get_index(&self.exchanges, i) {
                out.push(*state);
            }
            i = i + 1;
        }
        out
    }
}

proof fn lemma_place(list: Seq<(u8, ConnectivityState)>, key: u8)
    ensures
        match place(list, key) {
            Some(at) => 0 <= at < list.len() && list[at].0 == key,
            None => forall|k: int| 0 <= k < list.len() ==> (#[trigger] list[k]).0 != key,
        },
    decreases list.len(),
{
    if list.len() > 0 {
        let shorter = list.drop_last();
        lemma_place(shorter, key);
        if place(list, key) is None {
            assert forall|k: int| 0 <= k < list.len() implies (#[trigger] list[k]).0 != key by {
                if k < shorter.len() {
                    assert(shorter[k].0 != key);
                }
            }
        }
    }
}

proof fn lemma_changed(list: Seq<(u8, ConnectivityState)>, key: u8, state: ConnectivityState)
    requires
        place(list, key) is Some,
    ensures
        !state.is_healthy() ==> !everything_healthy(with_entry(list, key, state)),
{
    lemma_place(list, key);
    let at = place(list, key)->0;
    assert(with_entry(list, key, state)[at] == (key, state));
}

/// Whether a venue prices one of the instruments.
pub open spec fn is_priced_on(
    instruments: Seq<Keyed<InstrumentIndex, IndexedInstrument>>,
    exchange: ExchangeId,
) -> bool {
    exists|i: int| 0 <= i < instruments.len() && (#[trigger] instruments[i]).value.priced_by().value == exchange
}

/// Whether a venue executes one of the instruments.
pub open spec fn is_executed_on(
    instruments: Seq<Keyed<InstrumentIndex, IndexedInstrument>>,
    exchange: ExchangeId,
) -> bool {
    exists|i: int| 0 <= i < instruments.len() && (#[trigger] instruments[i]).value.exchange.value == exchange
}

/// The role of a venue: each of its dimensions by itself.
pub open spec fn role_of(
    instruments: Seq<Keyed<InstrumentIndex, IndexedInstrument>>,
    exchange: ExchangeId,
) -> VenueRole {
    VenueRole::of_dimensions(is_priced_on(instruments, exchange), is_executed_on(instruments, exchange))
}

fn find_role(instruments: &Vec<Keyed<InstrumentIndex, IndexedInstrument>>, exchange: ExchangeId) -> (r: VenueRole)
    ensures
        r == role_of(instruments@, exchange),
{
    let mut has_market_data = false;
    let mut has_account = false;
    let mut i: usize = 0;
    while i < instruments.len()
        invariant
            i <= instruments.len(),
            has_market_data == exists|k: int|
                0 <= k < i && (#[trigger] instruments@[k]).value.priced_by().value == exchange,
            has_account == exists|k: int|
                0 <= k < i && (#[trigger] instruments@[k]).value.exchange.value == exchange,
        decreases instruments.len() - i,
    {
        let instrument = &instruments[i].value;
        if instrument.data_exchange().value == exchange {
            assert(instruments@[i as int].value.priced_by().value == exchange);
            has_market_data = true;
        }
        if instrument.exchange.value == exchange {
            assert(instruments@[i as int].value.exchange.value == exchange);
            has_account = true;
        }
        i = i + 1;
    }
    VenueRole::from_dimensions(has_market_data, has_account)
}

/// Whether the states are those of the venues of a collection of instruments, each in its role, with nothing connected.
pub open spec fn starts_unconnected(states: ConnectivityStates, instruments: IndexedInstruments) -> bool {
    &&& states.global == Health::Reconnecting
    &&& states.list().len() == instruments.spec_exchanges().len()
    &&& forall|i: int|
        0 <= i < states.list().len() ==> #[trigger] states.list()[i] == (
            instruments.spec_exchanges()[i].value.rank() as u8,
            ConnectivityState::unconnected(
                role_of(instruments.spec_instruments(), instruments.spec_exchanges()[i].value),
            ),
        )
}

/// The connections to the venues of a collection of instruments, with nothing connected.
///
/// A venue has market data if and only if it prices an instrument, and an account if and only if it
/// executes one. Taking the two together would keep a venue that has one of them waiting for the
/// other.
pub fn generate_empty_indexed_connectivity_states(instruments: &IndexedInstruments) -> (r: ConnectivityStates)
    ensures
        starts_unconnected(r, *instruments),
        r.wf(),
        r.list().len() > 0 ==> r.in_step(),
{
    let venues = instruments.exchanges();
    let listed = instruments.instruments();
    let mut exchanges = new_map();
    let mut i: usize = 0;
    while i < venues.len()
        invariant
            i <= venues.len(),
            venues@ == instruments.spec_exchanges(),
            listed@ == instruments.spec_instruments(),
            forall|a: int, b: int|
                0 <= a < b < venues@.len() ==> (#[trigger] venues@[a]).value != (#[trigger] venues@[b]).value,
            entries(exchanges).len() == i,
            forall|k: int|
                0 <= k < i ==> #[trigger] entries(exchanges)[k] == (
                    venues@[k].value.rank() as u8,
                    ConnectivityState::unconnected(role_of(listed@, venues@[k].value)),
                ),
        decreases venues.len() - i,
    {
        let venue = venues[i].value;
        let role = find_role(listed, venue);
        let ghost before = entries(exchanges);
        proof {
            lemma_place(before, venue.rank() as u8);
            exchange::law_venues_are_at_their_positions(venue);
            if let Some(at) = place(before, venue.rank() as u8) {
                exchange::law_venues_are_at_their_positions(venues@[at].value);
                assert(before[at].0 == venues@[at].value.rank() as u8);
                assert(venues@[at].value != venues@[i as int].value);
                assert(false);
            }
        }
        insert(&mut exchanges, venue.position(), ConnectivityState::new(role));
        assert forall|k: int| 0 <= k < i + 1 implies #[trigger] entries(exchanges)[k] == (
            venues@[k].value.rank() as u8,
            ConnectivityState::unconnected(role_of(listed@, venues@[k].value)),
        ) by {
            if k < i {
                assert(entries(exchanges)[k] == before[k]);
            }
        }
        i = i + 1;
    }
    let states = ConnectivityStates { global: Health::Reconnecting, exchanges };
    proof {
        assert forall|k: int| 0 <= k < states.list().len() implies exchange::venue_at(
            (#[trigger] states.list()[k]).0,
        ) is Some by {
            exchange::law_venues_are_at_their_positions(venues@[k].value);
        }
        if states.list().len() > 0 {
            assert(!states.list()[0].1.is_healthy());
        }
    }
    states
}

/// A venue that an instrument names has exactly the connections that its instruments call for.
pub proof fn law_roles_are_what_venues_provide(
    instruments: Seq<Keyed<InstrumentIndex, IndexedInstrument>>,
    exchange: ExchangeId,
)
    requires
        is_priced_on(instruments, exchange) || is_executed_on(instruments, exchange),
    ensures
        role_of(instruments, exchange).prices() == is_priced_on(instruments, exchange),
        role_of(instruments, exchange).executes() == is_executed_on(instruments, exchange),
{
}

/// Behind any event, all together are healthy where every venue is connected as far as it has
/// connections: whichever venue reported last, and whatever the global health was before.
pub proof fn law_connected_venues_are_healthy(
    before: ConnectivityStates,
    at: int,
    exchange: ExchangeId,
    after: ConnectivityStates,
)
    requires
        follows_account_event(before, at, after) || follows_market_event(before, exchange, after),
        forall|i: int|
            0 <= i < after.list().len() ==> {
                let state = (#[trigger] after.list()[i]).1;
                &&& state.role.prices() ==> state.market_data == Health::Healthy
                &&& state.role.executes() ==> state.account == Health::Healthy
            },
    ensures
        after.global == Health::Healthy,
{
}

/// A venue is healthy where the connections of its role are: the market data of one that prices, the account of one that
/// executes, and both of one that does both. What it does not have is not asked for.
pub proof fn law_venues_are_healthy_by_their_role(state: ConnectivityState)
    ensures
        state.is_healthy() <==> match state.role {
            VenueRole::DataOnly => state.market_data is Healthy,
            VenueRole::ExecutionOnly => state.account is Healthy,
            VenueRole::Both => state.market_data is Healthy && state.account is Healthy,
        },
{
}

/// A venue that prices instruments and executes none is for data only, one that executes and prices none for execution
/// only, and any other is for both.
pub proof fn law_roles_by_use(instruments: Seq<Keyed<InstrumentIndex, IndexedInstrument>>, exchange: ExchangeId)
    ensures
        ({
            let prices = exists|i: int|
                0 <= i < instruments.len() && (match (#[trigger] instruments[i]).value.data_venue {
                    Some(venue) => venue.exchange.value == exchange,
                    None => instruments[i].value.exchange.value == exchange,
                });
            let executes = exists|i: int|
                0 <= i < instruments.len() && (#[trigger] instruments[i]).value.exchange.value == exchange;
            &&& role_of(instruments, exchange) is DataOnly <==> prices && !executes
            &&& role_of(instruments, exchange) is ExecutionOnly <==> executes && !prices
            &&& role_of(instruments, exchange) is Both <==> prices == executes
        }),
{
    let prices = exists|i: int|
        0 <= i < instruments.len() && (match (#[trigger] instruments[i]).value.data_venue {
            Some(venue) => venue.exchange.value == exchange,
            None => instruments[i].value.exchange.value == exchange,
        });
    if prices {
        let i = choose|i: int|
            0 <= i < instruments.len() && (match (#[trigger] instruments[i]).value.data_venue {
                Some(venue) => venue.exchange.value == exchange,
                None => instruments[i].value.exchange.value == exchange,
            });
        assert(instruments[i].value.priced_by().value == exchange);
    }
    if is_priced_on(instruments, exchange) {
        let i = choose|i: int|
            0 <= i < instruments.len() && (#[trigger] instruments[i]).value.priced_by().value == exchange;
        assert(match instruments[i].value.data_venue {
            Some(venue) => venue.exchange.value == exchange,
            None => instruments[i].value.exchange.value == exchange,
        });
    }
}

/// A key is in the first place that holds it, and setting it changes the value there and nothing else; a key that is
/// nowhere goes to the end.
pub proof fn law_setting_a_key_changes_one_value(
    list: Seq<(u8, ConnectivityState)>,
    key: u8,
    value: ConnectivityState,
)
    ensures
        value_of(with_entry(list, key, value), key) == Some(value),
        match place(list, key) {
            Some(at) => {
                &&& 0 <= at < list.len() && list[at].0 == key
                &&& forall|k: int| 0 <= k < at ==> (#[trigger] list[k]).0 != key
                &&& with_entry(list, key, value).len() == list.len()
                &&& with_entry(list, key, value)[at] == (key, value)
                &&& forall|k: int| 0 <= k < list.len() && k != at ==> #[trigger] with_entry(list, key, value)[k] == list[k]
            },
            None => {
                &&& forall|k: int| 0 <= k < list.len() ==> (#[trigger] list[k]).0 != key
                &&& with_entry(list, key, value) == list.push((key, value))
            },
        },
{
    lemma_first_place(list, key);
    lemma_first_place(with_entry(list, key, value), key);
    let set = with_entry(list, key, value);
    match place(list, key) {
        Some(at) => {
            assert(set[at] == (key, value));
            assert(place(set, key) is Some);
            let found = place(set, key)->0;
            if found < at {
                assert(set[found] == list[found]);
            }
            if at < found {
                assert(set[at].0 != key);
            }
        },
        None => {
            let end = list.len() as int;
            assert(set[end] == (key, value));
            let found = place(set, key)->0;
            if found < end {
                assert(set[found] == list[found]);
            }
        },
    }
}

proof fn lemma_first_place(list: Seq<(u8, ConnectivityState)>, key: u8)
    ensures
        match place(list, key) {
            Some(at) => {
                &&& 0 <= at < list.len() && list[at].0 == key
                &&& forall|k: int| 0 <= k < at ==> (#[trigger] list[k]).0 != key
            },
            None => forall|k: int| 0 <= k < list.len() ==> (#[trigger] list[k]).0 != key,
        },
    decreases list.len(),
{
    lemma_place(list, key);
    if list.len() > 0 {
        let shorter = list.drop_last();
        lemma_first_place(shorter, key);
        assert(forall|k: int| 0 <= k < shorter.len() ==> #[trigger] list[k] == shorter[k]);
    }
}

/// An event on the account connection of a venue makes that connection healthy and touches nothing else of any venue;
/// all together are then healthy exactly where every venue is. Where they were before, nothing changes.
pub proof fn law_account_event_heals_one_account(before: ConnectivityStates, at: int, after: ConnectivityStates)
    requires
        follows_account_event(before, at, after),
        0 <= at < before.list().len(),
    ensures
        before.global is Healthy ==> after == before,
        before.global is Reconnecting ==> {
            let (key, state) = before.list()[at];
            &&& after.list().len() == before.list().len()
            &&& forall|k: int| 0 <= k < before.list().len() && k != at ==> #[trigger] after.list()[k] == before.list()[k]
            &&& after.list()[at].0 == key
            &&& after.list()[at].1.account is Healthy
            &&& after.list()[at].1.market_data == state.market_data
            &&& after.list()[at].1.role == state.role
            &&& after.global is Healthy <==> forall|k: int|
                0 <= k < after.list().len() ==> (#[trigger] after.list()[k]).1.is_healthy()
        },
{
}

/// An event on the market data connection of a venue makes that connection healthy and touches nothing else of any venue;
/// all together are then healthy exactly where every venue is. Where they were before, nothing changes.
pub proof fn law_market_event_heals_one_feed(
    before: ConnectivityStates,
    exchange: ExchangeId,
    after: ConnectivityStates,
    other: ExchangeId,
)
    requires
        follows_market_event(before, exchange, after),
        before.state(exchange) is Some,
    ensures
        before.global is Healthy ==> after == before,
        before.global is Reconnecting ==> {
            let state = before.state(exchange)->0;
            &&& after.state(exchange) matches Some(new) && new.market_data is Healthy && new.account == state.account
                && new.role == state.role
            &&& other != exchange ==> after.state(other) == before.state(other)
            &&& after.list().len() == before.list().len()
            &&& after.global is Healthy <==> forall|k: int|
                0 <= k < after.list().len() ==> (#[trigger] after.list()[k]).1.is_healthy()
        },
{
    if before.global is Reconnecting {
        let state = before.state(exchange)->0;
        let healed = ConnectivityState { market_data: Health::Healthy, ..state };
        lemma_others_stay(before.list(), exchange, healed, other);
    }
}

proof fn lemma_others_stay(
    list: Seq<(u8, ConnectivityState)>,
    exchange: ExchangeId,
    value: ConnectivityState,
    other: ExchangeId,
)
    requires
        value_of(list, exchange.rank() as u8) is Some,
    ensures
        value_of(with_entry(list, exchange.rank() as u8, value), exchange.rank() as u8) == Some(value),
        other != exchange ==> value_of(with_entry(list, exchange.rank() as u8, value), other.rank() as u8) == value_of(
            list,
            other.rank() as u8,
        ),
        with_entry(list, exchange.rank() as u8, value).len() == list.len(),
{
    let key = exchange.rank() as u8;
    let set = with_entry(list, key, value);
    law_setting_a_key_changes_one_value(list, key, value);
    if other != exchange {
        let second = other.rank() as u8;
        exchange::law_venues_are_at_their_positions(exchange);
        exchange::law_venues_are_at_their_positions(other);
        assert(second != key);
        lemma_first_place(list, second);
        lemma_first_place(set, second);
        let at = place(list, key)->0;
        assert forall|k: int| 0 <= k < list.len() implies (#[trigger] set[k]).0 == list[k].0 && (k != at ==> set[k]
            == list[k]) by {}
        match (place(list, second), place(set, second)) {
            (Some(a), Some(b)) => {
                if a < b {
                    assert(set[a].0 != second);
                } else if b < a {
                    assert(list[b].0 != second);
                    assert(set[b].0 == list[b].0);
                }
            },
            (Some(a), None) => {
                assert(set[a].0 == list[a].0);
            },
            (None, Some(b)) => {
                assert(list[b].0 != second);
                assert(set[b].0 == list[b].0);
            },
            (None, None) => {},
        }
    }
}

/// The loss of a venue's account connection leaves its market data and every other venue as they were, and nothing is
/// healthy as a whole until it is back.
pub proof fn law_account_loss_is_of_one_account(
    before: ConnectivityStates,
    exchange: ExchangeId,
    after: ConnectivityStates,
    other: ExchangeId,
)
    requires
        follows_account_loss(before, exchange, after),
        before.state(exchange) is Some,
    ensures
        after.global is Reconnecting,
        ({
            let state = before.state(exchange)->0;
            after.state(exchange) matches Some(new) && new.account is Reconnecting && new.market_data == state.market_data
                && new.role == state.role
        }),
        other != exchange ==> after.state(other) == before.state(other),
        after.list().len() == before.list().len(),
{
    let state = before.state(exchange)->0;
    lemma_others_stay(
        before.list(),
        exchange,
        ConnectivityState { account: Health::Reconnecting, ..state },
        other,
    );
}

/// The loss of a venue's market data connection leaves its account and every other venue as they were, and nothing is
/// healthy as a whole until it is back.
pub proof fn law_market_loss_is_of_one_feed(
    before: ConnectivityStates,
    exchange: ExchangeId,
    after: ConnectivityStates,
    other: ExchangeId,
)
    requires
        follows_market_loss(before, exchange, after),
        before.state(exchange) is Some,
    ensures
        after.global is Reconnecting,
        ({
            let state = before.state(exchange)->0;
            after.state(exchange) matches Some(new) && new.market_data is Reconnecting && new.account == state.account
                && new.role == state.role
        }),
        other != exchange ==> after.state(other) == before.state(other),
        after.list().len() == before.list().len(),
{
    let state = before.state(exchange)->0;
    lemma_others_stay(
        before.list(),
        exchange,
        ConnectivityState { market_data: Health::Reconnecting, ..state },
        other,
    );
}

/// In the beginning every venue of the collection is there, in its order, and neither of its connections is healthy.
pub proof fn law_venues_start_unconnected(states: ConnectivityStates, instruments: IndexedInstruments, i: int)
    requires
        starts_unconnected(states, instruments),
        0 <= i < instruments.spec_exchanges().len(),
    ensures
        states.global is Reconnecting,
        states.list().len() == instruments.spec_exchanges().len(),
        exchange::venue_at(states.list()[i].0) == Some(instruments.spec_exchanges()[i].value),
        states.list()[i].1.market_data is Reconnecting,
        states.list()[i].1.account is Reconnecting,
        states.list()[i].1.role == role_of(instruments.spec_instruments(), instruments.spec_exchanges()[i].value),
        !states.list()[i].1.is_healthy(),
{
    exchange::law_venues_are_at_their_positions(instruments.spec_exchanges()[i].value);
}

} // verus!
