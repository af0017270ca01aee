//! A venue: the books of its instruments and the balances of its accounts.
use vstd::prelude::*;

use crate::book;
use crate::book::OrderBook;
use crate::fees;
use crate::instrument::{Instrument, VenueConfig};
use crate::ledger::Ledger;
use crate::model;
use crate::model::BookView;
use crate::risk;
use crate::settlement;
use crate::types::{
    AccountId, BookEvent, BookSnapshot, InstrumentId, NewOrder, OrderId, RejectReason, Side,
};
use crate::venue_laws;
use crate::venue_model;
use crate::venue_model::VenueView;

verus! {

/// Why a venue cannot serve a request at all.
#[derive(Debug, Clone, Copy, PartialEq, Eq, Structural)]
pub enum VenueError {
    UnknownInstrument,
}

/// A venue. Orders are checked against the instrument's constraints and the account's balance
/// before they reach the book, and trades are settled as they happen.
pub struct Venue {
    config: VenueConfig,
    books: Vec<OrderBook>,
    ledger: Ledger,
}

impl View for Venue {
    type V = VenueView;

    closed spec fn view(&self) -> VenueView {
        VenueView {
            config: self.config@,
            books: Seq::new(self.books@.len(), |i: int| self.books@[i]@),
            ledger: self.ledger@,
        }
    }
}

/// What a buy or sell order on an instrument sets aside; `None` where a `u128` cannot hold it.
fn obligation_of(instrument: &Instrument, side: Side, price: u64, quantity: u64) -> (result: Option<u128>)
    requires
        instrument@.valid(),
    ensures
        ({
            let amount = risk::obligation(instrument@, side, price as nat, quantity as nat);
            match result {
                Some(n) => n == amount,
                None => amount > u128::MAX,
            }
        }),
{
    match side {
        Side::Buy => fees::hold_of(price, quantity, instrument.taker_fee_bps),
        Side::Sell => Some(quantity as u128),
    }
}

/// The asset that an order on `side` pays with.
fn paid_asset_of(instrument: &Instrument, side: Side) -> (asset: &str)
    ensures
        asset@ == risk::paid_asset(instrument@, side),
{
    match side {
        Side::Buy => instrument.quote.as_str(),
        Side::Sell => instrument.base.as_str(),
    }
}

impl Venue {
    /// The venue is well-formed: all its parts are, and its view is valid.
    pub closed spec fn wf(self) -> bool {
        &&& forall|i: int| 0 <= i < self.books@.len() ==> (#[trigger] self.books@[i]).wf()
        &&& self.ledger.wf()
        &&& self@.valid()
    }

    /// A well-formed venue has a valid view.
    pub proof fn lemma_wf_valid(self)
        requires
            self.wf(),
        ensures
            self@.valid(),
    {
    }

    /// A venue with empty books, and without any balance.
    pub fn new(config: VenueConfig) -> (venue: Self)
        requires
            config@.valid(),
        ensures
            venue.wf(),
            venue@ == VenueView::fresh(config@),
    {
        let n: usize = config.instruments.len();
        let mut books: Vec<OrderBook> = Vec::new();
        let mut i: usize = 0;
        while i < n
            invariant
                i <= n,
                books@.len() == i,
                forall|j: int| 0 <= j < i ==> (#[trigger] books@[j]).wf() && books@[j]@ == BookView::empty(),
            decreases n - i,
        {
            books.push(OrderBook::new());
            i = i + 1;
        }
        let venue = Venue { config, books, ledger: Ledger::new() };
        proof {
            assert(venue@.books =~= VenueView::fresh(venue@.config).books);
            venue_model::law_fresh_venue_is_valid(venue@.config);
        }
        venue
    }

    pub fn config(&self) -> (config: &VenueConfig)
        ensures
            config@ == self@.config,
    {
        &self.config
    }

    /// Adds `amount` to what an account may use of an asset.
    pub fn credit(&mut self, account_id: AccountId, asset: &str, amount: u128)
        requires
            old(self).wf(),
            old(self)@.ledger.supply(asset@) + amount <= u128::MAX,
        ensures
            final(self).wf(),
            final(self)@ == old(self)@.credited(account_id, asset@, amount as nat),
    {
        let ghost before = self@;
        proof {
            venue_laws::law_credit_adds_its_amount(before, account_id, asset@, amount as nat);
        }
        self.ledger.deposit(account_id, asset, amount);
        assert(self@.books =~= before.books);
    }

    /// All that there is of an asset, in accounts and in revenue.
    pub fn supply(&self, asset: &str) -> (amount: u128)
        requires
            self.wf(),
        ensures
            amount == self@.ledger.supply(asset@),
    {
        self.ledger.supply(asset)
    }

    /// What an account may use of an asset.
    pub fn balance(&self, account_id: AccountId, asset: &str) -> (amount: u128)
        requires
            self.wf(),
        ensures
            amount == self@.ledger.available(account_id, asset@),
    {
        self.ledger.available(account_id, asset)
    }

    /// What the resting orders of an account have set aside of an asset.
    pub fn reserved(&self, account_id: AccountId, asset: &str) -> (amount: u128)
        requires
            self.wf(),
        ensures
            amount == self@.ledger.reserved(account_id, asset@),
            amount == self@.owed(account_id, asset@),
    {
        proof {
            assert(self@.ledger.reserved(account_id, asset@) == self@.owed(account_id, asset@));
        }
        self.ledger.reserved(account_id, asset)
    }

    /// What the exchange earned in an asset.
    pub fn revenue(&self, asset: &str) -> (amount: u128)
        requires
            self.wf(),
        ensures
            amount == self@.ledger.revenue(asset@),
    {
        self.ledger.revenue(asset)
    }

    /// Whether the venue lists an instrument.
    pub fn lists(&self, instrument_id: InstrumentId) -> (result: bool)
        ensures
            result == self@.lists(instrument_id),
    {
        (instrument_id as u64) < (self.books.len() as u64)
    }

    /// Whether the sequence numbers of an instrument's book suffice for any one command.
    pub fn has_room(&self, instrument_id: InstrumentId) -> (result: bool)
        ensures
            result == (self@.lists(instrument_id) ==> self@.book(instrument_id).has_room()),
    {
        if self.lists(instrument_id) {
            self.books[instrument_id as usize].has_room()
        } else {
            true
        }
    }

    /// Whether the totals of all levels of an instrument's book fit a `Quantity`.
    pub fn levels_fit(&self, instrument_id: InstrumentId) -> (result: bool)
        requires
            self.wf(),
        ensures
            result == (self@.lists(instrument_id) ==> model::levels_fit(self@.book(instrument_id).bids)
                && model::levels_fit(self@.book(instrument_id).asks)),
    {
        if self.lists(instrument_id) {
            let i: usize = instrument_id as usize;
            assert(self@.books[i as int] == self.books@[i as int]@);
            self.books[i].levels_fit()
        } else {
            true
        }
    }

    /// Whether any command can be carried out on any instrument.
    pub fn is_ready(&self) -> (result: bool)
        requires
            self.wf(),
        ensures
            result == self@.ready(),
    {
        let n: usize = self.books.len();
        let mut i: usize = 0;
        while i < n
            invariant
                i <= n,
                n == self.books@.len(),
                self.wf(),
                forall|j: int|
                    0 <= j < i ==> (#[trigger] self@.books[j]).has_room() && model::levels_fit(
                        self@.books[j].bids,
                    ) && model::levels_fit(self@.books[j].asks),
            decreases n - i,
        {
            assert(self@.books[i as int] == self.books@[i as int]@);
            if !self.books[i].has_room() || !self.books[i].levels_fit() {
                return false;
            }
            i = i + 1;
        }
        true
    }

    /// The best `depth` levels of an instrument's book, with their checksum.
    pub fn snapshot(&self, instrument_id: InstrumentId, depth: usize) -> (result: Result<
        BookSnapshot,
        VenueError,
    >)
        requires
            self.wf(),
            self@.lists(instrument_id) ==> model::visible_fit(self@.book(instrument_id).bids, depth as nat)
                && model::visible_fit(self@.book(instrument_id).asks, depth as nat),
        ensures
            match result {
                Ok(snapshot) => self@.lists(instrument_id) && book::is_snapshot(
                    snapshot,
                    self@.book(instrument_id),
                    depth as nat,
                ),
                Err(error) => !self@.lists(instrument_id) && error == VenueError::UnknownInstrument,
            },
    {
        if !self.lists(instrument_id) {
            return Err(VenueError::UnknownInstrument);
        }
        let i: usize = instrument_id as usize;
        assert(self@.books[i as int] == self.books@[i as int]@);
        Ok(self.books[i].snapshot(depth))
    }

    /// The reason for which the venue refuses `order`, if it does.
    fn refuses(&self, i: usize, order: &NewOrder) -> (reason: Option<RejectReason>)
        requires
            self.wf(),
            i < self.books@.len(),
            i <= u32::MAX,
        ensures
            reason == self@.refusal(i as u32, *order),
    {
        let instrument = &self.config.instruments[i];
        assert(self@.config.instruments[i as int].valid());
        assert(self@.books[i as int] == self.books@[i as int]@);
        if let Some(reason) = self.books[i].refuses(order) {
            return Some(reason);
        }
        if order.price.0 % instrument.price_tick != 0 {
            return Some(RejectReason::InvalidPriceTick);
        }
        if order.quantity % instrument.quantity_step != 0 {
            return Some(RejectReason::InvalidQuantityStep);
        }
        if fees::notional_of(order.price.0, order.quantity) < instrument.min_notional {
            return Some(RejectReason::BelowMinNotional);
        }
        let available: u128 = self.ledger.available(
            order.account_id,
            paid_asset_of(instrument, order.side),
        );
        match obligation_of(instrument, order.side, order.price.0, order.quantity) {
            Some(amount) if amount <= available => None,
            _ => Some(RejectReason::InsufficientBalance),
        }
    }

    /// Submits a limit order to an instrument. An order that the book, the instrument or the
    /// account's balance does not allow is rejected. Any other sets aside what it may have to pay,
    /// is matched, and its trades are settled.
    pub fn submit_limit(&mut self, instrument_id: InstrumentId, order: NewOrder) -> (result: Result<
        Vec<BookEvent>,
        VenueError,
    >)
        requires
            old(self).wf(),
            old(self)@.lists(instrument_id) ==> old(self)@.book(instrument_id).seq + old(
                self,
            )@.submit_events(instrument_id, order).len() <= u64::MAX,
        ensures
            final(self).wf(),
            match result {
                Ok(events) => {
                    &&& old(self)@.lists(instrument_id)
                    &&& events@ == old(self)@.submit_events(instrument_id, order)
                    &&& final(self)@ == old(self)@.submitted(instrument_id, order)
                },
                Err(error) => {
                    &&& !old(self)@.lists(instrument_id)
                    &&& error == VenueError::UnknownInstrument
                    &&& final(self)@ == old(self)@
                },
            },
    {
        if !self.lists(instrument_id) {
            return Err(VenueError::UnknownInstrument);
        }
        let i: usize = instrument_id as usize;
        let ghost before = self@;
        let ghost id = instrument_id;
        proof {
            venue_model::law_submit_keeps_venue_valid(before, id, order);
            assert(self@.books[i as int] == self.books@[i as int]@);
            assert(before.config.instruments[i as int].valid());
        }
        match self.refuses(i, &order) {
            Some(reason) => {
                let event = self.books[i].reject(order.order_id, reason);
                let mut events: Vec<BookEvent> = Vec::new();
                events.push(event);
                assert(self@.books =~= before.submitted(id, order).books);
                assert(events@ =~= before.submit_events(id, order));
                Ok(events)
            },
            None => {
                let instrument = &self.config.instruments[i];
                let amount: u128 = match obligation_of(instrument, order.side, order.price.0, order.quantity) {
                    Some(amount) => amount,
                    None => 0,
                };
                proof {
                    self.ledger.lemma_bounds(order.account_id, before.paid_asset(id, order));
                    venue_model::lemma_accepted_is_backed(before, id, order);
                }
                self.ledger.set_aside(order.account_id, paid_asset_of(instrument, order.side), amount);
                let ghost queue = before.book(id).queue(order.side.other());
                let submission = self.books[i].submit(order);
                proof {
                    crate::validity::lemma_sides_valid(before.book(id), order.side);
                }
                settlement::settle_all(
                    &mut self.ledger,
                    instrument,
                    &order,
                    &submission.fills,
                    Ghost(queue),
                    Ghost(venue_model::besides(before, id, order)),
                );
                assert(self@.books =~= before.submitted(id, order).books);
                Ok(submission.events)
            },
        }
    }

    /// Takes an order out of an instrument's book and releases what it had set aside.
    pub fn cancel(&mut self, instrument_id: InstrumentId, order_id: OrderId) -> (result: Result<
        BookEvent,
        VenueError,
    >)
        requires
            old(self).wf(),
            old(self)@.lists(instrument_id) ==> old(self)@.book(instrument_id).seq < u64::MAX,
        ensures
            final(self).wf(),
            match result {
                Ok(event) => {
                    &&& old(self)@.lists(instrument_id)
                    &&& event == old(self)@.cancel_event(instrument_id, order_id)
                    &&& final(self)@ == old(self)@.cancelled(instrument_id, order_id)
                },
                Err(error) => {
                    &&& !old(self)@.lists(instrument_id)
                    &&& error == VenueError::UnknownInstrument
                    &&& final(self)@ == old(self)@
                },
            },
    {
        if !self.lists(instrument_id) {
            return Err(VenueError::UnknownInstrument);
        }
        let i: usize = instrument_id as usize;
        let ghost before = self@;
        let ghost id = instrument_id;
        proof {
            venue_model::law_cancel_keeps_venue_valid(before, id, order_id);
            assert(self@.books[i as int] == self.books@[i as int]@);
            assert(before.config.instruments[i as int].valid());
        }
        let cancellation = self.books[i].take_out(order_id);
        if let Some((side, q)) = &cancellation.taken {
            let instrument = &self.config.instruments[i];
            let amount: u128 = match obligation_of(instrument, *side, q.price.0, q.order.quantity) {
                Some(amount) => amount,
                None => 0,
            };
            proof {
                venue_model::lemma_cancel_is_backed(before, id, order_id);
            }
            self.ledger.release(q.order.account_id, paid_asset_of(instrument, *side), amount);
        }
        assert(self@.books =~= before.cancelled(id, order_id).books);
        Ok(cancellation.event)
    }

    /// Cancels an order and, where there was one, submits another in its place.
    pub fn replace_limit(&mut self, instrument_id: InstrumentId, old_order_id: OrderId, order: NewOrder) -> (result:
        Result<Vec<BookEvent>, VenueError>)
        requires
            old(self).wf(),
            old(self)@.lists(instrument_id) ==> old(self)@.book(instrument_id).seq + old(
                self,
            )@.replace_events(instrument_id, old_order_id, order).len() <= u64::MAX,
        ensures
            final(self).wf(),
            match result {
                Ok(events) => {
                    &&& old(self)@.lists(instrument_id)
                    &&& events@ == old(self)@.replace_events(instrument_id, old_order_id, order)
                    &&& final(self)@ == old(self)@.replaced(instrument_id, old_order_id, order)
                },
                Err(error) => {
                    &&& !old(self)@.lists(instrument_id)
                    &&& error == VenueError::UnknownInstrument
                    &&& final(self)@ == old(self)@
                },
            },
    {
        let ghost before = self@;
        let event = match self.cancel(instrument_id, old_order_id) {
            Ok(event) => event,
            Err(error) => {
                return Err(error);
            },
        };
        let mut events: Vec<BookEvent> = Vec::new();
        events.push(event);
        assert(events@ =~= seq![before.cancel_event(instrument_id, old_order_id)]);
        if let BookEvent::Canceled { .. } = event {
            let mut more = match self.submit_limit(instrument_id, order) {
                Ok(more) => more,
                Err(error) => {
                    return Err(error);
                },
            };
            events.append(&mut more);
        }
        Ok(events)
    }
}

} // verus!
