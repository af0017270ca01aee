//! The mathematical model of a venue: its books and its ledger, and what commands do to them.
use vstd::prelude::*;

use crate::instrument::{ConfigView, InstrumentView};
use crate::ledger::LedgerView;
use crate::model;
use crate::model::{BookView, Queued};
use crate::risk;
use crate::settlement;
use crate::types::{AccountId, BookEvent, InstrumentId, NewOrder, OrderId, RejectReason, Side};
use crate::validity;

verus! {

/// A venue: one book per instrument, and one ledger for all.
pub struct VenueView {
    pub config: ConfigView,
    pub books: Seq<BookView>,
    pub ledger: LedgerView,
}

impl VenueView {
    /// A venue on which nothing has happened yet.
    pub open spec fn fresh(config: ConfigView) -> VenueView {
        VenueView {
            config,
            books: Seq::new(config.instruments.len(), |i: int| BookView::empty()),
            ledger: LedgerView::empty(),
        }
    }

    pub open spec fn lists(self, id: InstrumentId) -> bool {
        id < self.books.len()
    }

    pub open spec fn instrument(self, id: InstrumentId) -> InstrumentView {
        self.config.instruments[id as int]
    }

    pub open spec fn book(self, id: InstrumentId) -> BookView {
        self.books[id as int]
    }

    pub open spec fn with_book(self, id: InstrumentId, book: BookView) -> VenueView {
        VenueView { books: self.books.update(id as int, book), ..self }
    }

    /// What all resting orders oblige `account` to in `asset`.
    pub open spec fn owed(self, account: AccountId, asset: Seq<char>) -> nat {
        risk::books_owed(self.books, self.config.instruments, self.books.len(), account, asset)
    }

    /// What every command keeps: valid books, a sound ledger, and for every account and asset a
    /// reservation of exactly what its resting orders oblige it to.
    pub open spec fn valid(self) -> bool {
        &&& self.config.valid()
        &&& self.books.len() == self.config.instruments.len()
        &&& forall|i: int| 0 <= i < self.books.len() ==> (#[trigger] self.books[i]).valid()
        &&& risk::sound(self.ledger)
        &&& forall|account: AccountId, asset: Seq<char>| #[trigger]
            self.ledger.reserved(account, asset) == self.owed(account, asset)
    }

    /// Any command can be carried out on any instrument: sequence numbers are left in every book,
    /// and the totals of all levels can be shown.
    pub open spec fn ready(self) -> bool {
        forall|i: int|
            0 <= i < self.books.len() ==> (#[trigger] self.books[i]).has_room() && model::levels_fit(
                self.books[i].bids,
            ) && model::levels_fit(self.books[i].asks)
    }

    /// What `order` has to set aside.
    pub open spec fn obligation(self, id: InstrumentId, order: NewOrder) -> nat {
        risk::obligation(
            self.instrument(id),
            order.side,
            order.price.0 as nat,
            order.quantity as nat,
        )
    }

    pub open spec fn paid_asset(self, id: InstrumentId, order: NewOrder) -> Seq<char> {
        risk::paid_asset(self.instrument(id), order.side)
    }

    /// The reason for which the venue refuses `order`, if it does: first those of the book, then
    /// those of the instrument, and last the balance.
    pub open spec fn refusal(self, id: InstrumentId, order: NewOrder) -> Option<RejectReason> {
        let instrument = self.instrument(id);
        let funds = self.ledger.available(order.account_id, self.paid_asset(id, order));
        if self.book(id).refusal(order) is Some {
            self.book(id).refusal(order)
        } else if order.price.0 % instrument.price_tick != 0 {
            Some(RejectReason::InvalidPriceTick)
        } else if order.quantity % instrument.quantity_step != 0 {
            Some(RejectReason::InvalidQuantityStep)
        } else if order.price.0 * order.quantity < instrument.min_notional {
            Some(RejectReason::BelowMinNotional)
        } else if funds < self.obligation(id, order) {
            Some(RejectReason::InsufficientBalance)
        } else {
            None
        }
    }

    /// The ledger after an accepted `order` set aside what it has to.
    pub open spec fn set_aside(self, id: InstrumentId, order: NewOrder) -> LedgerView {
        self.ledger.set_aside(order.account_id, self.paid_asset(id, order), self.obligation(id, order))
    }

    /// The events of submitting `order` to a listed instrument.
    pub open spec fn submit_events(self, id: InstrumentId, order: NewOrder) -> Seq<BookEvent> {
        match self.refusal(id, order) {
            Some(reason) => seq![self.book(id).reject_event(order.order_id, reason)],
            None => self.book(id).submit_events(order),
        }
    }

    /// The venue after `order` was submitted to a listed instrument.
    pub open spec fn submitted(self, id: InstrumentId, order: NewOrder) -> VenueView {
        match self.refusal(id, order) {
            Some(_) => self.with_book(id, self.book(id).after_reject()),
            None => VenueView {
                ledger: risk::all_settled(
                    self.set_aside(id, order),
                    self.instrument(id),
                    order,
                    order.quantity as nat,
                    self.book(id).matching(order).fills,
                ),
                ..self.with_book(id, self.book(id).submitted(order))
            },
        }
    }

    /// The event of cancelling an order of a listed instrument.
    pub open spec fn cancel_event(self, id: InstrumentId, order_id: OrderId) -> BookEvent {
        self.book(id).cancel_event(order_id)
    }

    /// The venue after an order of a listed instrument was cancelled: what it had set aside is
    /// available again.
    pub open spec fn cancelled(self, id: InstrumentId, order_id: OrderId) -> VenueView {
        let book = self.book(id);
        let after = self.with_book(id, book.cancelled(order_id));
        if !book.contains(order_id) {
            after
        } else {
            let side = book.side_of(order_id);
            let q = model::found(book.queue(side), order_id);
            VenueView {
                ledger: self.ledger.released(
                    q.order.account_id,
                    risk::paid_asset(self.instrument(id), side),
                    risk::obligation(
                        self.instrument(id),
                        side,
                        q.price.0 as nat,
                        q.order.quantity as nat,
                    ),
                ),
                ..after
            }
        }
    }

    /// The events of replacing an order of a listed instrument by `order`: those of its
    /// cancellation and, where there was such an order, those of submitting the new one.
    pub open spec fn replace_events(
        self,
        id: InstrumentId,
        old_order_id: OrderId,
        order: NewOrder,
    ) -> Seq<BookEvent> {
        let cancelled = seq![self.cancel_event(id, old_order_id)];
        if self.book(id).contains(old_order_id) {
            cancelled + self.cancelled(id, old_order_id).submit_events(id, order)
        } else {
            cancelled
        }
    }

    /// The venue after an order of a listed instrument was replaced by `order`.
    pub open spec fn replaced(self, id: InstrumentId, old_order_id: OrderId, order: NewOrder) -> VenueView {
        if self.book(id).contains(old_order_id) {
            self.cancelled(id, old_order_id).submitted(id, order)
        } else {
            self.cancelled(id, old_order_id)
        }
    }

    /// The venue after `amount` came into an account.
    pub open spec fn credited(self, account: AccountId, asset: Seq<char>, amount: nat) -> VenueView {
        VenueView { ledger: self.ledger.deposited(account, asset, amount), ..self }
    }
}

proof fn lemma_queue_owed_concat(
    a: Seq<Queued>,
    b: Seq<Queued>,
    side: Side,
    instrument: InstrumentView,
    account: AccountId,
    asset: Seq<char>,
)
    ensures
        risk::queue_owed(a + b, side, instrument, account, asset) == risk::queue_owed(
            a,
            side,
            instrument,
            account,
            asset,
        ) + risk::queue_owed(b, side, instrument, account, asset),
    decreases a.len(),
{
    if a.len() == 0 {
        assert(a + b =~= b);
    } else {
        assert((a + b).drop_first() =~= a.drop_first() + b);
        lemma_queue_owed_concat(a.drop_first(), b, side, instrument, account, asset);
    }
}

/// An order that is put into a queue adds its own obligation.
pub proof fn lemma_queue_owed_insert(
    queue: Seq<Queued>,
    k: int,
    item: Queued,
    side: Side,
    instrument: InstrumentView,
    account: AccountId,
    asset: Seq<char>,
)
    requires
        0 <= k <= queue.len(),
    ensures
        risk::queue_owed(queue.insert(k, item), side, instrument, account, asset) == risk::queue_owed(
            queue,
            side,
            instrument,
            account,
            asset,
        ) + risk::owed_by(item, side, instrument, account, asset),
{
    let a = queue.take(k);
    let b = queue.skip(k);
    let x = seq![item];
    assert(queue =~= a + b);
    assert(queue.insert(k, item) =~= a + (x + b));
    lemma_queue_owed_concat(a, b, side, instrument, account, asset);
    lemma_queue_owed_concat(a, x + b, side, instrument, account, asset);
    assert((x + b).drop_first() =~= b);
}

/// Replacing one book changes the sum over all books by the difference.
proof fn lemma_books_owed_update(
    books: Seq<BookView>,
    instruments: Seq<InstrumentView>,
    n: nat,
    i: int,
    book: BookView,
    account: AccountId,
    asset: Seq<char>,
)
    requires
        n <= books.len(),
        0 <= i < books.len(),
    ensures
        i < n ==> risk::books_owed(books.update(i, book), instruments, n, account, asset) + risk::book_owed(
            books[i],
            instruments[i],
            account,
            asset,
        ) == risk::books_owed(books, instruments, n, account, asset) + risk::book_owed(
            book,
            instruments[i],
            account,
            asset,
        ),
        i < n ==> risk::book_owed(books[i], instruments[i], account, asset) <= risk::books_owed(
            books,
            instruments,
            n,
            account,
            asset,
        ),
        i >= n ==> risk::books_owed(books.update(i, book), instruments, n, account, asset)
            == risk::books_owed(books, instruments, n, account, asset),
    decreases n,
{
    if n > 0 {
        lemma_books_owed_update(books, instruments, (n - 1) as nat, i, book, account, asset);
    }
}

/// What everything but the queue that `order` meets obliges an account to.
pub open spec fn besides(venue: VenueView, id: InstrumentId, order: NewOrder) -> spec_fn(
    AccountId,
    Seq<char>,
) -> nat {
    |account: AccountId, asset: Seq<char>|
        (venue.owed(account, asset) - risk::queue_owed(
            venue.book(id).queue(order.side.other()),
            order.side.other(),
            venue.instrument(id),
            account,
            asset,
        )) as nat
}

/// The book of one instrument is part of what the venue's orders come to.
pub proof fn lemma_book_within(venue: VenueView, id: InstrumentId, side: Side, account: AccountId, asset: Seq<char>)
    requires
        venue.lists(id),
    ensures
        risk::queue_owed(venue.book(id).queue(side), side, venue.instrument(id), account, asset)
            <= venue.owed(account, asset),
{
    lemma_books_owed_update(
        venue.books,
        venue.config.instruments,
        venue.books.len(),
        id as int,
        venue.book(id),
        account,
        asset,
    );
}

/// When an accepted order has set aside what it has to, its trades are covered.
pub proof fn lemma_accepted_is_backed(venue: VenueView, id: InstrumentId, order: NewOrder)
    requires
        venue.valid(),
        venue.lists(id),
        venue.refusal(id, order) is None,
    ensures
        risk::sound(venue.set_aside(id, order)),
        risk::same_supply(venue.ledger, venue.set_aside(id, order)),
        settlement::backed(
            venue.set_aside(id, order),
            venue.instrument(id),
            venue.book(id).queue(order.side.other()),
            order,
            order.quantity as nat,
            besides(venue, id, order),
        ),
{
    let after = venue.set_aside(id, order);
    risk::lemma_set_aside(
        venue.ledger,
        order.account_id,
        venue.paid_asset(id, order),
        venue.obligation(id, order),
    );
    assert forall|u: AccountId, a: Seq<char>| #[trigger]
        after.reserved(u, a) == risk::queue_owed(
            venue.book(id).queue(order.side.other()),
            order.side.other(),
            venue.instrument(id),
            u,
            a,
        ) + risk::owed_by(
            BookView::resting(order, order.quantity as nat),
            order.side,
            venue.instrument(id),
            u,
            a,
        ) + besides(venue, id, order)(u, a) by {
        lemma_book_within(venue, id, order.side.other(), u, a);
        assert(venue.ledger.reserved(u, a) == venue.owed(u, a));
    }
}

/// What an accepted order leaves in its book obliges an account to as much as before, less the
/// queue that it met, and more by what is left of both.
proof fn lemma_submitted_owed(
    venue: VenueView,
    id: InstrumentId,
    order: NewOrder,
    account: AccountId,
    asset: Seq<char>,
)
    requires
        venue.valid(),
        venue.lists(id),
        venue.book(id).refusal(order) is None,
    ensures
        ({
            let book = venue.book(id);
            let m = book.matching(order);
            let after = venue.with_book(id, book.submitted(order));
            after.owed(account, asset) == risk::queue_owed(
                m.queue,
                order.side.other(),
                venue.instrument(id),
                account,
                asset,
            ) + risk::owed_by(
                BookView::resting(order, m.left),
                order.side,
                venue.instrument(id),
                account,
                asset,
            ) + besides(venue, id, order)(account, asset)
        }),
{
    let book = venue.book(id);
    let instrument = venue.instrument(id);
    let side = order.side;
    let own = book.queue(side);
    let m = book.matching(order);
    let item = BookView::resting(order, m.left);
    let next = book.submitted(order);
    lemma_books_owed_update(
        venue.books,
        venue.config.instruments,
        venue.books.len(),
        id as int,
        next,
        account,
        asset,
    );
    lemma_book_within(venue, id, side.other(), account, asset);
    assert(venue.books[id as int].valid());
    if m.left > 0 {
        validity::lemma_sides_valid(book, side);
        let k = model::lemma_enqueued(own, side, item);
        lemma_queue_owed_insert(own, k, item, side, instrument, account, asset);
    } else {
        crate::fees::lemma_hold_of_nothing(order.price.0 as nat, instrument.taker_fee_bps as nat);
        assert(risk::owed_by(item, side, instrument, account, asset) == 0);
    }
    assert(next.queue(side.other()) == m.queue);
}

/// Submitting an order keeps the venue valid: in particular, every reservation stays exactly what
/// the resting orders call for.
pub proof fn law_submit_keeps_venue_valid(venue: VenueView, id: InstrumentId, order: NewOrder)
    requires
        venue.valid(),
        venue.lists(id),
    ensures
        venue.submitted(id, order).valid(),
{
    let book = venue.book(id);
    let after = venue.submitted(id, order);
    assert(venue.books[id as int].valid());
    if venue.refusal(id, order) is None {
        validity::law_submit_keeps_book_valid(book, order);
        lemma_accepted_is_backed(venue, id, order);
        settlement::lemma_settle_all(
            venue.set_aside(id, order),
            venue.instrument(id),
            book.queue(order.side.other()),
            order,
            order.quantity as nat,
            besides(venue, id, order),
        );
        assert(venue.config.instruments[id as int].valid());
        assert forall|u: AccountId, a: Seq<char>| #[trigger] after.ledger.reserved(u, a) == after.owed(u, a) by {
            lemma_submitted_owed(venue, id, order, u, a);
        }
    } else {
        assert forall|u: AccountId, a: Seq<char>| #[trigger] after.ledger.reserved(u, a) == after.owed(u, a) by {
            assert(venue.ledger.reserved(u, a) == venue.owed(u, a));
            lemma_books_owed_update(
                venue.books,
                venue.config.instruments,
                venue.books.len(),
                id as int,
                book.after_reject(),
                u,
                a,
            );
        }
    }
    assert forall|i: int| 0 <= i < after.books.len() implies (#[trigger] after.books[i]).valid() by {
        assert(venue.books[i].valid());
    }
}

/// Submitting an order moves assets between accounts and revenue, but no asset becomes more or
/// less.
pub proof fn law_submit_conserves_assets(venue: VenueView, id: InstrumentId, order: NewOrder, asset: Seq<char>)
    requires
        venue.valid(),
        venue.lists(id),
    ensures
        venue.submitted(id, order).ledger.supply(asset) == venue.ledger.supply(asset),
{
    if venue.refusal(id, order) is None {
        lemma_accepted_is_backed(venue, id, order);
        assert(venue.config.instruments[id as int].valid());
        settlement::lemma_settle_all(
            venue.set_aside(id, order),
            venue.instrument(id),
            venue.book(id).queue(order.side.other()),
            order,
            order.quantity as nat,
            besides(venue, id, order),
        );
        assert(venue.set_aside(id, order).supply(asset) == venue.ledger.supply(asset));
    }
}

/// Cancelling a resting order takes its obligation out of its book.
proof fn lemma_cancelled_owed(
    venue: VenueView,
    id: InstrumentId,
    order_id: OrderId,
    account: AccountId,
    asset: Seq<char>,
)
    requires
        venue.valid(),
        venue.lists(id),
    ensures
        ({
            let book = venue.book(id);
            let side = book.side_of(order_id);
            let q = model::found(book.queue(side), order_id);
            let after = venue.with_book(id, book.cancelled(order_id));
            after.owed(account, asset) + (if book.contains(order_id) {
                risk::owed_by(q, side, venue.instrument(id), account, asset)
            } else {
                0
            }) == venue.owed(account, asset)
        }),
{
    let book = venue.book(id);
    let instrument = venue.instrument(id);
    let side = book.side_of(order_id);
    let queue = book.queue(side);
    let other = book.queue(side.other());
    assert(venue.books[id as int].valid());
    lemma_books_owed_update(
        venue.books,
        venue.config.instruments,
        venue.books.len(),
        id as int,
        book.cancelled(order_id),
        account,
        asset,
    );
    if book.contains(order_id) {
        assert(model::holds(queue, order_id));
        let n = choose|n: int| 0 <= n < queue.len() && (#[trigger] queue[n]).order.order_id == order_id;
        validity::lemma_sides_valid(book, side);
        assert(!model::holds(other, order_id)) by {
            assert forall|j: int| 0 <= j < other.len() implies (#[trigger] other[j]).order.order_id
                != order_id by {
                assert(queue[n].order.order_id != other[j].order.order_id);
            }
        }
        model::lemma_take_out(queue, n);
        model::lemma_take_out_absent(other, order_id);
        lemma_queue_owed_insert(queue.remove(n), n, queue[n], side, instrument, account, asset);
        assert(queue.remove(n).insert(n, queue[n]) =~= queue);
    } else {
        model::lemma_take_out_absent(book.bids, order_id);
        model::lemma_take_out_absent(book.asks, order_id);
    }
}

/// What a resting order has set aside is there to be released.
pub proof fn lemma_cancel_is_backed(venue: VenueView, id: InstrumentId, order_id: OrderId)
    requires
        venue.valid(),
        venue.lists(id),
        venue.book(id).contains(order_id),
    ensures
        ({
            let book = venue.book(id);
            let side = book.side_of(order_id);
            let q = model::found(book.queue(side), order_id);
            let instrument = venue.instrument(id);
            risk::obligation(instrument, side, q.price.0 as nat, q.order.quantity as nat)
                <= venue.ledger.reserved(q.order.account_id, risk::paid_asset(instrument, side))
        }),
{
    let book = venue.book(id);
    let side = book.side_of(order_id);
    let q = model::found(book.queue(side), order_id);
    let asset = risk::paid_asset(venue.instrument(id), side);
    lemma_cancelled_owed(venue, id, order_id, q.order.account_id, asset);
    assert(venue.ledger.reserved(q.order.account_id, asset) == venue.owed(q.order.account_id, asset));
}

/// Cancelling an order keeps the venue valid.
pub proof fn law_cancel_keeps_venue_valid(venue: VenueView, id: InstrumentId, order_id: OrderId)
    requires
        venue.valid(),
        venue.lists(id),
    ensures
        venue.cancelled(id, order_id).valid(),
{
    let book = venue.book(id);
    let after = venue.cancelled(id, order_id);
    assert(venue.books[id as int].valid());
    validity::law_cancel_keeps_book_valid(book, order_id);
    if book.contains(order_id) {
        let side = book.side_of(order_id);
        let q = model::found(book.queue(side), order_id);
        lemma_cancel_is_backed(venue, id, order_id);
        risk::lemma_released(
            venue.ledger,
            q.order.account_id,
            risk::paid_asset(venue.instrument(id), side),
            risk::obligation(venue.instrument(id), side, q.price.0 as nat, q.order.quantity as nat),
        );
    }
    assert forall|u: AccountId, a: Seq<char>| #[trigger] after.ledger.reserved(u, a) == after.owed(u, a) by {
        assert(venue.ledger.reserved(u, a) == venue.owed(u, a));
        lemma_cancelled_owed(venue, id, order_id, u, a);
    }
    assert forall|i: int| 0 <= i < after.books.len() implies (#[trigger] after.books[i]).valid() by {
        assert(venue.books[i].valid());
    }
}

/// Cancelling an order makes no asset more or less.
pub proof fn law_cancel_conserves_assets(
    venue: VenueView,
    id: InstrumentId,
    order_id: OrderId,
    asset: Seq<char>,
)
    requires
        venue.valid(),
        venue.lists(id),
    ensures
        venue.cancelled(id, order_id).ledger.supply(asset) == venue.ledger.supply(asset),
{
    let book = venue.book(id);
    if book.contains(order_id) {
        let side = book.side_of(order_id);
        let q = model::found(book.queue(side), order_id);
        lemma_cancel_is_backed(venue, id, order_id);
        risk::lemma_released(
            venue.ledger,
            q.order.account_id,
            risk::paid_asset(venue.instrument(id), side),
            risk::obligation(venue.instrument(id), side, q.price.0 as nat, q.order.quantity as nat),
        );
    }
}

/// A fresh venue is valid.
pub proof fn law_fresh_venue_is_valid(config: ConfigView)
    requires
        config.valid(),
    ensures
        VenueView::fresh(config).valid(),
{
    let venue = VenueView::fresh(config);
    assert forall|asset: Seq<char>| #[trigger]
        venue.ledger.assets.contains_key(asset) && venue.ledger.assets[asset].accounts.dom().finite() by {}
    assert forall|asset: Seq<char>| #[trigger] venue.ledger.supply(asset) <= u128::MAX by {
        assert(crate::ledger::holdings(Map::empty()) == 0);
    }
    assert forall|u: AccountId, a: Seq<char>| #[trigger] venue.ledger.reserved(u, a) == venue.owed(u, a) by {
        lemma_fresh_owed(venue, venue.books.len(), u, a);
    }
}

proof fn lemma_fresh_owed(venue: VenueView, n: nat, account: AccountId, asset: Seq<char>)
    requires
        n <= venue.books.len(),
        forall|i: int| 0 <= i < venue.books.len() ==> (#[trigger] venue.books[i]) == BookView::empty(),
    ensures
        risk::books_owed(venue.books, venue.config.instruments, n, account, asset) == 0,
    decreases n,
{
    if n > 0 {
        lemma_fresh_owed(venue, (n - 1) as nat, account, asset);
        assert(venue.books[n - 1] == BookView::empty());
    }
}

} // verus!
