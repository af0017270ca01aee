//! Laws of a venue that relate its commands.
use vstd::prelude::*;

use crate::book_laws;
use crate::instrument::InstrumentView;
use crate::ledger::LedgerView;
use crate::model;
use crate::model::{BookView, Fill, Queued};
use crate::risk;
use crate::risk::Trade;
use crate::settlement;
use crate::types::{AccountId, InstrumentId, NewOrder, OrderId, Side};
use crate::validity;
use crate::venue_model;
use crate::venue_model::VenueView;

verus! {

/// Replacing an order keeps the venue valid.
pub proof fn law_replace_keeps_venue_valid(
    venue: VenueView,
    id: InstrumentId,
    old_order_id: OrderId,
    order: NewOrder,
)
    requires
        venue.valid(),
        venue.lists(id),
    ensures
        venue.replaced(id, old_order_id, order).valid(),
{
    venue_model::law_cancel_keeps_venue_valid(venue, id, old_order_id);
    if venue.book(id).contains(old_order_id) {
        venue_model::law_submit_keeps_venue_valid(venue.cancelled(id, old_order_id), id, order);
    }
}

/// Replacing an order makes no asset more or less.
pub proof fn law_replace_conserves_assets(
    venue: VenueView,
    id: InstrumentId,
    old_order_id: OrderId,
    order: NewOrder,
    asset: Seq<char>,
)
    requires
        venue.valid(),
        venue.lists(id),
    ensures
        venue.replaced(id, old_order_id, order).ledger.supply(asset) == venue.ledger.supply(asset),
{
    venue_model::law_cancel_keeps_venue_valid(venue, id, old_order_id);
    venue_model::law_cancel_conserves_assets(venue, id, old_order_id, asset);
    if venue.book(id).contains(old_order_id) {
        venue_model::law_submit_conserves_assets(venue.cancelled(id, old_order_id), id, order, asset);
    }
}

/// Crediting an account keeps the venue valid and makes the asset more by the amount.
pub proof fn law_credit_adds_its_amount(venue: VenueView, account: AccountId, asset: Seq<char>, amount: nat)
    requires
        venue.valid(),
        venue.ledger.supply(asset) + amount <= u128::MAX,
    ensures
        venue.credited(account, asset, amount).valid(),
        venue.credited(account, asset, amount).ledger.supply(asset) == venue.ledger.supply(asset) + amount,
        venue.credited(account, asset, amount).ledger.available(account, asset)
            == venue.ledger.available(account, asset) + amount,
        forall|other: Seq<char>|
            other != asset ==> #[trigger] venue.credited(account, asset, amount).ledger.supply(other)
                == venue.ledger.supply(other),
{
    let after = venue.credited(account, asset, amount);
    risk::lemma_credited(venue.ledger, account, asset, amount);
    let funds = venue.ledger.funds(account, asset);
    risk::lemma_with_funds(venue.ledger, account, asset, funds);
    assert forall|u: AccountId, a: Seq<char>| #[trigger] after.ledger.reserved(u, a) == after.owed(u, a) by {
        assert(venue.ledger.reserved(u, a) == venue.owed(u, a));
    }
}

/// A refused order leaves every balance, every reservation and all revenue as they were, and both
/// sides of every book.
pub proof fn law_refused_order_changes_no_balance(venue: VenueView, id: InstrumentId, order: NewOrder)
    requires
        venue.valid(),
        venue.lists(id),
        venue.refusal(id, order) is Some,
    ensures
        venue.submitted(id, order).ledger == venue.ledger,
        venue.submitted(id, order).book(id).bids == venue.book(id).bids,
        venue.submitted(id, order).book(id).asks == venue.book(id).asks,
        forall|other: InstrumentId|
            other != id && venue.lists(other) ==> #[trigger] venue.submitted(id, order).book(other)
                == venue.book(other),
{
}

/// An accepted order could be paid for: the account had available what the order has to set aside.
pub proof fn law_accepted_order_is_paid_for(venue: VenueView, id: InstrumentId, order: NewOrder)
    requires
        venue.valid(),
        venue.lists(id),
        venue.submit_events(id, order)[0] is Accepted,
    ensures
        venue.obligation(id, order) <= venue.ledger.available(order.account_id, venue.paid_asset(id, order)),
        order.price.0 % venue.instrument(id).price_tick == 0,
        order.quantity % venue.instrument(id).quantity_step == 0,
        order.price.0 * order.quantity >= venue.instrument(id).min_notional,
{
}

/// What any account has set aside is enough for each of its resting orders.
pub proof fn law_resting_order_is_reserved(venue: VenueView, id: InstrumentId, side: Side, n: int)
    requires
        venue.valid(),
        venue.lists(id),
        0 <= n < venue.book(id).queue(side).len(),
    ensures
        ({
            let q = venue.book(id).queue(side)[n];
            let instrument = venue.instrument(id);
            risk::obligation(instrument, side, q.price.0 as nat, q.order.quantity as nat)
                <= venue.ledger.reserved(q.order.account_id, risk::paid_asset(instrument, side))
        }),
{
    let queue = venue.book(id).queue(side);
    let q = queue[n];
    let asset = risk::paid_asset(venue.instrument(id), side);
    venue_model::lemma_book_within(venue, id, side, q.order.account_id, asset);
    venue_model::lemma_queue_owed_insert(
        queue.remove(n),
        n,
        q,
        side,
        venue.instrument(id),
        q.order.account_id,
        asset,
    );
    assert(queue.remove(n).insert(n, q) =~= queue);
    assert(venue.ledger.reserved(q.order.account_id, asset) == venue.owed(q.order.account_id, asset));
}

/// Cancelling an order that only rested gives every account back what it had.
pub proof fn law_cancel_gives_back_what_was_set_aside(venue: VenueView, id: InstrumentId, order: NewOrder)
    requires
        venue.valid(),
        venue.lists(id),
        venue.refusal(id, order) is None,
        venue.book(id).matching(order).fills.len() == 0,
    ensures
        ({
            let after = venue.submitted(id, order).cancelled(id, order.order_id);
            &&& after.book(id).bids == venue.book(id).bids
            &&& after.book(id).asks == venue.book(id).asks
            &&& forall|account: AccountId, asset: Seq<char>| #[trigger]
                after.ledger.funds(account, asset) == venue.ledger.funds(account, asset)
            &&& forall|asset: Seq<char>| #[trigger]
                after.ledger.revenue(asset) == venue.ledger.revenue(asset)
        }),
{
    let book = venue.book(id);
    let side = order.side;
    let between = venue.submitted(id, order);
    let placed = book.submitted(order);
    let after = between.cancelled(id, order.order_id);
    let asset = venue.paid_asset(id, order);
    let amount = venue.obligation(id, order);
    assert(venue.books[id as int].valid());
    assert(between.ledger == venue.set_aside(id, order));
    assert(between.book(id) == placed);
    model::lemma_matched(book.queue(side.other()), side.other(), order.price, order.quantity as nat);
    assert(book.matching(order).left == order.quantity);
    book_laws::law_rested_order_is_in_book(book, order);
    book_laws::law_cancel_undoes_rest(book, order);
    assert(placed.contains(order.order_id));
    assert(placed.side_of(order.order_id) == side) by {
        if side is Sell {
            assert(!model::holds(placed.bids, order.order_id));
        }
    }
    let q = model::found(placed.queue(side), order.order_id);
    assert(q == BookView::resting(order, order.quantity as nat));
    assert(after.ledger == between.ledger.released(order.account_id, asset, amount));
    let funds = venue.ledger.funds(order.account_id, asset);
    risk::lemma_set_aside(venue.ledger, order.account_id, asset, amount);
    risk::lemma_with_funds(
        venue.ledger,
        order.account_id,
        asset,
        crate::ledger::Funds {
            available: (funds.available - amount) as u128,
            reserved: (funds.reserved + amount) as u128,
        },
    );
    assert(venue.ledger.supply(asset) <= u128::MAX);
    risk::lemma_with_funds(between.ledger, order.account_id, asset, funds);
    assert(after.ledger == between.ledger.with_funds(order.account_id, asset, funds));
}

/// A trade between two accounts moves exactly what it costs: the buyer gives the notional and its
/// fee and gets the quantity, the seller gives the quantity and gets the notional less its fee.
pub proof fn law_trade_moves_what_it_costs(ledger: LedgerView, instrument: InstrumentView, trade: Trade)
    requires
        risk::sound(ledger),
        risk::covered(ledger, instrument, trade),
        trade.buyer != trade.seller,
        instrument.base != instrument.quote,
    ensures
        ({
            let after = risk::settled(ledger, instrument, trade);
            let base = instrument.base;
            let quote = instrument.quote;
            &&& after.funds(trade.buyer, quote).sum() == ledger.funds(trade.buyer, quote).sum() - trade.cost()
            &&& after.available(trade.buyer, quote) == ledger.available(trade.buyer, quote) + trade.freed(
                instrument,
            ) - trade.cost()
            &&& after.available(trade.buyer, base) == ledger.available(trade.buyer, base) + trade.quantity
            &&& after.available(trade.seller, quote) == ledger.available(trade.seller, quote)
                + trade.notional() - trade.seller_fee()
            &&& after.reserved(trade.seller, base) == ledger.reserved(trade.seller, base) - trade.quantity
            &&& after.revenue(quote) == ledger.revenue(quote) + trade.buyer_fee() + trade.seller_fee()
        }),
{
    let base = instrument.base;
    let quote = instrument.quote;
    risk::lemma_settling_fits(ledger, instrument, trade);
    assert(ledger.supply(base) <= u128::MAX && ledger.supply(quote) <= u128::MAX);
    risk::lemma_with_funds(ledger, trade.buyer, quote, ledger.funds(trade.buyer, quote));
    risk::lemma_with_funds(ledger, trade.buyer, base, ledger.funds(trade.buyer, base));
    risk::lemma_with_funds(ledger, trade.seller, quote, ledger.funds(trade.seller, quote));
    risk::lemma_with_funds(ledger, trade.seller, base, ledger.funds(trade.seller, base));
    let freed = trade.freed(instrument);
    let back = (freed - trade.cost()) as nat;
    let l1 = ledger.spent(trade.buyer, quote, freed);
    let l2 = l1.spent(trade.seller, base, trade.quantity);
    let l3 = l2.deposited(trade.buyer, quote, back);
    let l4 = l3.deposited(trade.buyer, base, trade.quantity);
    let l5 = l4.deposited(trade.seller, quote, (trade.notional() - trade.seller_fee()) as nat);
    risk::lemma_with_funds(l2, trade.buyer, quote, l2.funds(trade.buyer, quote));
    risk::lemma_with_funds(l3, trade.buyer, base, l3.funds(trade.buyer, base));
    risk::lemma_with_funds(l4, trade.seller, quote, l4.funds(trade.seller, quote));
}

/// All fees of the trades that `fills` stand for.
pub open spec fn fees_charged(
    instrument: InstrumentView,
    order: NewOrder,
    remaining: nat,
    fills: Seq<Fill>,
) -> nat
    decreases fills.len(),
{
    if fills.len() == 0 {
        0
    } else {
        let trade = risk::trade_of(instrument, order, remaining, fills[0]);
        trade.buyer_fee() + trade.seller_fee() + fees_charged(
            instrument,
            order,
            (remaining - fills[0].quantity) as nat,
            fills.drop_first(),
        )
    }
}

proof fn lemma_revenue_settled(
    ledger: LedgerView,
    instrument: InstrumentView,
    order: NewOrder,
    remaining: nat,
    fills: Seq<Fill>,
    asset: Seq<char>,
)
    ensures
        risk::all_settled(ledger, instrument, order, remaining, fills).revenue(asset) == ledger.revenue(asset)
            + (if asset == instrument.quote {
            fees_charged(instrument, order, remaining, fills)
        } else {
            0
        }),
    decreases fills.len(),
{
    if fills.len() > 0 {
        let trade = risk::trade_of(instrument, order, remaining, fills[0]);
        let next = risk::settled(ledger, instrument, trade);
        assert(next.revenue(asset) == ledger.revenue(asset) + (if asset == instrument.quote {
            trade.buyer_fee() + trade.seller_fee()
        } else {
            0
        }));
        lemma_revenue_settled(
            next,
            instrument,
            order,
            (remaining - fills[0].quantity) as nat,
            fills.drop_first(),
            asset,
        );
    }
}

/// An order adds to the revenue in the quote asset the fees of its trades, and nothing to any other
/// revenue.
pub proof fn law_revenue_grows_by_the_fees(
    venue: VenueView,
    id: InstrumentId,
    order: NewOrder,
    asset: Seq<char>,
)
    requires
        venue.valid(),
        venue.lists(id),
    ensures
        venue.submitted(id, order).ledger.revenue(asset) == venue.ledger.revenue(asset) + (if asset
            == venue.instrument(id).quote && venue.refusal(id, order) is None {
            fees_charged(
                venue.instrument(id),
                order,
                order.quantity as nat,
                venue.book(id).matching(order).fills,
            )
        } else {
            0
        }),
{
    if venue.refusal(id, order) is None {
        lemma_revenue_settled(
            venue.set_aside(id, order),
            venue.instrument(id),
            order,
            order.quantity as nat,
            venue.book(id).matching(order).fills,
            asset,
        );
    }
}

/// While a book has room, its sequence numbers suffice for any order, cancellation or replacement.
pub proof fn law_room_suffices(venue: VenueView, id: InstrumentId, old_order_id: OrderId, order: NewOrder)
    requires
        venue.valid(),
        venue.lists(id),
        venue.book(id).has_room(),
    ensures
        venue.book(id).seq < u64::MAX,
        venue.book(id).seq + venue.submit_events(id, order).len() <= u64::MAX,
        venue.book(id).seq + venue.replace_events(id, old_order_id, order).len() <= u64::MAX,
{
    lemma_submit_length(venue, id, order);
    venue_model::law_cancel_keeps_venue_valid(venue, id, old_order_id);
    let between = venue.cancelled(id, old_order_id);
    lemma_submit_length(between, id, order);
    lemma_those_shorter(venue.book(id).bids, model::other_than(old_order_id));
    lemma_those_shorter(venue.book(id).asks, model::other_than(old_order_id));
}

proof fn lemma_those_shorter(queue: Seq<Queued>, p: spec_fn(Queued) -> bool)
    ensures
        model::those(queue, p).len() <= queue.len(),
    decreases queue.len(),
{
    if queue.len() > 0 {
        lemma_those_shorter(queue.drop_last(), p);
    }
}

proof fn lemma_submit_length(venue: VenueView, id: InstrumentId, order: NewOrder)
    requires
        venue.valid(),
        venue.lists(id),
    ensures
        venue.submit_events(id, order).len() <= venue.book(id).bids.len() + venue.book(id).asks.len() + 2,
{
    let book = venue.book(id);
    assert(venue.books[id as int].valid());
    model::lemma_matched(
        book.queue(order.side.other()),
        order.side.other(),
        order.price,
        order.quantity as nat,
    );
}

/// An order takes no more from what is available than it sets aside itself, and nothing from any
/// other account; what its trades bring comes on top.
pub proof fn law_order_takes_no_more_than_it_sets_aside(
    venue: VenueView,
    id: InstrumentId,
    order: NewOrder,
    account: AccountId,
    asset: Seq<char>,
)
    requires
        venue.valid(),
        venue.lists(id),
    ensures
        ({
            let after = venue.submitted(id, order).ledger.available(account, asset);
            let own = account == order.account_id && asset == venue.paid_asset(id, order);
            after + (if own && venue.refusal(id, order) is None {
                venue.obligation(id, order)
            } else {
                0
            }) >= venue.ledger.available(account, asset)
        }),
{
    if venue.refusal(id, order) is None {
        let aside = venue.set_aside(id, order);
        risk::lemma_set_aside(
            venue.ledger,
            order.account_id,
            venue.paid_asset(id, order),
            venue.obligation(id, order),
        );
        assert(aside.available(account, asset) == aside.available(account, asset));
        venue_model::lemma_accepted_is_backed(venue, id, order);
        settlement::lemma_settle_all(
            aside,
            venue.instrument(id),
            venue.book(id).queue(order.side.other()),
            order,
            order.quantity as nat,
            venue_model::besides(venue, id, order),
        );
        let settled = venue.submitted(id, order).ledger;
        assert(settled.available(account, asset) >= aside.available(account, asset));
    }
}

/// How much of a book's sequence numbers is used up or spoken for.
pub open spec fn footprint(book: BookView) -> nat {
    book.seq as nat + book.bids.len() + book.asks.len()
}

/// One order takes no more than three from the room of its book, however many orders it fills.
pub proof fn law_order_takes_little_room(venue: VenueView, id: InstrumentId, order: NewOrder)
    requires
        venue.valid(),
        venue.lists(id),
        venue.book(id).has_room(),
    ensures
        footprint(venue.submitted(id, order).book(id)) <= footprint(venue.book(id)) + 3,
{
    let book = venue.book(id);
    let side = order.side;
    assert(venue.books[id as int].valid());
    law_room_suffices(venue, id, order.order_id, order);
    if venue.refusal(id, order) is None {
        model::lemma_matched(book.queue(side.other()), side.other(), order.price, order.quantity as nat);
        let m = book.matching(order);
        let item = BookView::resting(order, m.left);
        validity::lemma_sides_valid(book, side);
        let k = model::lemma_enqueued(book.queue(side), side, item);
        assert(book.queue(side).insert(k, item).len() == book.queue(side).len() + 1);
    }
}

} // verus!
