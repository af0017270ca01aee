//! What commands do to balances, told in prices, quantities and basis points.
use vstd::prelude::*;

use crate::fees;
use crate::instrument::{ConfigView, InstrumentView};
use crate::ledger::{Funds, LedgerView};
use crate::model;
use crate::model::{BookView, Fill, Queued};
use crate::order_laws;
use crate::risk;
use crate::risk::Trade;
use crate::runtime;
use crate::runtime::Command;
use crate::settlement;
use crate::types::{AccountId, BookEvent, InstrumentId, NewOrder, OrderId, RejectReason, Side};
use crate::venue_model;
use crate::venue_model::VenueView;

verus! {

/// A trade of an incoming order with a resting one: who the resting order belongs to, at what price
/// and how much.
pub struct Deal {
    pub maker: AccountId,
    pub price: nat,
    pub quantity: nat,
}

impl Deal {
    pub open spec fn notional(self) -> nat {
        self.price * self.quantity
    }

    /// So many basis points of the notional, rounded down.
    pub open spec fn charge(self, bps: u32) -> nat {
        self.price * self.quantity * (bps as nat) / 10_000
    }
}

/// The trades of an order with the first `n` orders that it meets.
pub open spec fn deals(book: BookView, order: NewOrder, n: nat) -> Seq<Deal> {
    let queue = order_laws::facing(book, order.side);
    Seq::new(
        n,
        |j: int|
            Deal {
                maker: queue[j].order.account_id,
                price: queue[j].price.0 as nat,
                quantity: order_laws::traded_with(queue, order.quantity as nat, j as nat),
            },
    )
}

/// What `account` gains or loses of the quote asset in one trade of `order`: the buyer gives the
/// notional and its fee, the seller gets the notional less its fee; the owner of the incoming order
/// is charged as the taker, the owner of the resting one as the maker.
pub open spec fn quote_gain(deal: Deal, order: NewOrder, terms: InstrumentView, account: AccountId) -> int {
    let as_taker = if account != order.account_id {
        0
    } else if order.side is Buy {
        -(deal.notional() + deal.charge(terms.taker_fee_bps))
    } else {
        deal.notional() - deal.charge(terms.taker_fee_bps)
    };
    let as_maker = if account != deal.maker {
        0
    } else if order.side is Buy {
        deal.notional() - deal.charge(terms.maker_fee_bps)
    } else {
        -(deal.notional() + deal.charge(terms.maker_fee_bps))
    };
    as_taker + as_maker
}

/// What `account` gains or loses of the base asset in one trade of `order`.
pub open spec fn base_gain(deal: Deal, order: NewOrder, account: AccountId) -> int {
    let as_taker = if account != order.account_id {
        0
    } else if order.side is Buy {
        deal.quantity as int
    } else {
        -deal.quantity
    };
    let as_maker = if account != deal.maker {
        0
    } else if order.side is Buy {
        -deal.quantity
    } else {
        deal.quantity as int
    };
    as_taker + as_maker
}

/// What `account` gains or loses of `asset` in all trades of `order`.
pub open spec fn gain(
    list: Seq<Deal>,
    order: NewOrder,
    terms: InstrumentView,
    account: AccountId,
    asset: Seq<char>,
) -> int
    decreases list.len(),
{
    if list.len() == 0 {
        0
    } else {
        gain(list.drop_first(), order, terms, account, asset) + (if asset == terms.quote {
            quote_gain(list[0], order, terms, account)
        } else {
            0
        }) + (if asset == terms.base {
            base_gain(list[0], order, account)
        } else {
            0
        })
    }
}

/// The maker's and the taker's fees of all trades.
pub open spec fn charges(list: Seq<Deal>, terms: InstrumentView) -> nat
    decreases list.len(),
{
    if list.len() == 0 {
        0
    } else {
        charges(list.drop_first(), terms) + list[0].charge(terms.maker_fee_bps) + list[0].charge(
            terms.taker_fee_bps,
        )
    }
}

pub open spec fn deals_of(fills: Seq<Fill>) -> Seq<Deal> {
    Seq::new(
        fills.len(),
        |j: int|
            Deal {
                maker: fills[j].maker.order.account_id,
                price: fills[j].maker.price.0 as nat,
                quantity: fills[j].quantity as nat,
            },
    )
}

proof fn lemma_deposit(ledger: LedgerView, account: AccountId, asset: Seq<char>, amount: nat)
    requires
        ledger.complete(),
        ledger.supply(asset) + amount <= u128::MAX,
    ensures
        ({
            let after = ledger.deposited(account, asset, amount);
            &&& forall|u: AccountId, a: Seq<char>| #[trigger]
                after.funds(u, a) == (if u == account && a == asset {
                    Funds {
                        available: (ledger.funds(u, a).available + amount) as u128,
                        ..ledger.funds(u, a)
                    }
                } else {
                    ledger.funds(u, a)
                })
            &&& ledger.funds(account, asset).available + amount <= u128::MAX
        }),
{
    let funds = ledger.funds(account, asset);
    let more = Funds { available: (funds.available + amount) as u128, ..funds };
    risk::lemma_with_funds(ledger, account, asset, more);
}

/// What a trade leaves each side with.
proof fn lemma_trade_moves(ledger: LedgerView, instrument: InstrumentView, trade: Trade, u: AccountId, a: Seq<char>)
    requires
        risk::sound(ledger),
        risk::covered(ledger, instrument, trade),
    ensures
        risk::settled(ledger, instrument, trade).funds(u, a).sum() == ledger.funds(u, a).sum() - (if u
            == trade.buyer && a == instrument.quote {
            trade.cost()
        } else {
            0
        }) - (if u == trade.seller && a == instrument.base {
            trade.quantity
        } else {
            0
        }) + (if u == trade.buyer && a == instrument.base {
            trade.quantity
        } else {
            0
        }) + (if u == trade.seller && a == instrument.quote {
            trade.notional() - trade.seller_fee()
        } else {
            0
        }),
        risk::settled(ledger, instrument, trade).revenue(a) == ledger.revenue(a) + (if a
            == instrument.quote {
            trade.buyer_fee() + trade.seller_fee()
        } else {
            0
        }),
{
    let base = instrument.base;
    let quote = instrument.quote;
    let freed = trade.freed(instrument);
    let back = (freed - trade.cost()) as nat;
    let proceeds = (trade.notional() - trade.seller_fee()) as nat;
    risk::lemma_settling_fits(ledger, instrument, trade);
    let l1 = ledger.spent(trade.buyer, quote, freed);
    let l2 = l1.spent(trade.seller, base, trade.quantity);
    let l3 = l2.deposited(trade.buyer, quote, back);
    let l4 = l3.deposited(trade.buyer, base, trade.quantity);
    let l5 = l4.deposited(trade.seller, quote, proceeds);
    let l6 = l5.earned(quote, trade.buyer_fee() + trade.seller_fee());
    risk::lemma_spent(ledger, trade.buyer, quote, freed);
    assert(l1.available(u, a) == ledger.available(u, a));
    assert(l1.reserved(u, a) == l1.reserved(u, a));
    risk::lemma_spent(l1, trade.seller, base, trade.quantity);
    assert(l2.available(u, a) == l1.available(u, a));
    assert(l2.reserved(u, a) == l2.reserved(u, a));
    lemma_deposit(l2, trade.buyer, quote, back);
    assert(l3.funds(u, a) == l3.funds(u, a));
    lemma_deposit(l3, trade.buyer, base, trade.quantity);
    assert(l4.funds(u, a) == l4.funds(u, a));
    lemma_deposit(l4, trade.seller, quote, proceeds);
    assert(l5.funds(u, a) == l5.funds(u, a));
    assert(l6.funds(u, a) == l5.funds(u, a));
}

/// What all trades of an order leave an account with.
proof fn lemma_trades_move(
    ledger: LedgerView,
    instrument: InstrumentView,
    queue: Seq<Queued>,
    order: NewOrder,
    remaining: nat,
    others: spec_fn(AccountId, Seq<char>) -> nat,
    u: AccountId,
    a: Seq<char>,
)
    requires
        risk::sound(ledger),
        instrument.valid(),
        settlement::backed(ledger, instrument, queue, order, remaining, others),
        remaining <= u64::MAX,
    ensures
        ({
            let m = model::matched(queue, order.side.other(), order.price, remaining);
            let after = risk::all_settled(ledger, instrument, order, remaining, m.fills);
            &&& after.funds(u, a).sum() == ledger.funds(u, a).sum() + gain(
                deals_of(m.fills),
                order,
                instrument,
                u,
                a,
            )
            &&& after.revenue(a) == ledger.revenue(a) + (if a == instrument.quote {
                charges(deals_of(m.fills), instrument)
            } else {
                0
            })
        }),
    decreases queue.len(),
{
    let side = order.side.other();
    let m = model::matched(queue, side, order.price, remaining);
    if remaining == 0 || queue.len() == 0 || !model::no_worse(side, queue[0].price, order.price) {
        assert(deals_of(m.fills) =~= seq![]);
    } else {
        let head = queue[0];
        let traded = model::least(remaining, head.order.quantity as nat);
        let fill = Fill { maker: head, quantity: traded as u64 };
        let left = (remaining - traded) as nat;
        settlement::lemma_settle_head(ledger, instrument, queue, order, remaining, fill, others);
        let trade = risk::trade_of(instrument, order, remaining, fill);
        let next = risk::settled(ledger, instrument, trade);
        lemma_trade_moves(ledger, instrument, trade, u, a);
        let list = deals_of(m.fills);
        assert(list[0] == Deal {
            maker: head.order.account_id,
            price: head.price.0 as nat,
            quantity: traded,
        });
        assert(list[0].charge(instrument.taker_fee_bps) == fees::fee(
            trade.notional(),
            instrument.taker_fee_bps as nat,
        ));
        assert(list[0].charge(instrument.maker_fee_bps) == fees::fee(
            trade.notional(),
            instrument.maker_fee_bps as nat,
        ));
        assert(list.drop_first() =~= deals_of(m.fills.drop_first()));
        if traded < head.order.quantity {
            assert(m.fills.drop_first() =~= seq![]);
            assert(risk::all_settled(next, instrument, order, left, m.fills.drop_first()) == next);
            assert(list.drop_first() =~= seq![]);
            assert(gain(list.drop_first(), order, instrument, u, a) == 0);
            assert(charges(list.drop_first(), instrument) == 0);
        } else {
            let n = model::matched(queue.drop_first(), side, order.price, left);
            assert(m.fills.drop_first() =~= n.fills);
            lemma_trades_move(next, instrument, queue.drop_first(), order, left, others, u, a);
        }
    }
}

/// An accepted order moves the price of each of its trades, and charges each of them: what every
/// account has of every asset, available and set aside together, changes by what its trades come to,
/// and the exchange earns the maker's and the taker's fee of every one.
pub proof fn law_every_trade_is_paid_and_charged(
    venue: VenueView,
    id: InstrumentId,
    order: NewOrder,
    n: nat,
    account: AccountId,
    asset: Seq<char>,
)
    requires
        venue.valid(),
        venue.lists(id),
        venue.submit_events(id, order)[0] is Accepted,
        order_laws::trades_with(
            order_laws::facing(venue.books[id as int], order.side),
            order.side,
            order.price,
            order.quantity as nat,
            n,
        ),
    ensures
        ({
            let terms = venue.config.instruments[id as int];
            let list = deals(venue.books[id as int], order, n);
            let before = venue.ledger;
            let after = venue.submitted(id, order).ledger;
            &&& after.available(account, asset) + after.reserved(account, asset) == before.available(
                account,
                asset,
            ) + before.reserved(account, asset) + gain(list, order, terms, account, asset)
            &&& after.revenue(asset) == before.revenue(asset) + (if asset == terms.quote {
                charges(list, terms)
            } else {
                0
            })
        }),
{
    let book = venue.books[id as int];
    let queue = order_laws::facing(book, order.side);
    let quantity = order.quantity as nat;
    assert(book.valid());
    assert(venue.config.instruments[id as int].valid());
    order_laws::law_order_is_accepted_when_it_keeps_the_terms(venue, id, order);
    assert(venue.refusal(id, order) is None);
    let aside = venue.set_aside(id, order);
    risk::lemma_set_aside(
        venue.ledger,
        order.account_id,
        venue.paid_asset(id, order),
        venue.obligation(id, order),
    );
    let moved = if account == order.account_id && asset == venue.paid_asset(id, order) {
        venue.obligation(id, order)
    } else {
        0
    };
    assert(aside.available(account, asset) == venue.ledger.available(account, asset) - moved);
    assert(aside.reserved(account, asset) == venue.ledger.reserved(account, asset) + moved);
    assert(aside.revenue(asset) == venue.ledger.revenue(asset));
    assert(aside.funds(account, asset).sum() == venue.ledger.funds(account, asset).sum());
    assert(venue.book(id).queue(order.side.other()) == queue);
    venue_model::lemma_accepted_is_backed(venue, id, order);
    lemma_trades_move(
        aside,
        venue.instrument(id),
        queue,
        order,
        quantity,
        venue_model::besides(venue, id, order),
        account,
        asset,
    );
    order_laws::lemma_matching_plays_out(queue, order.side, order.price, quantity);
    let m = book.matching(order);
    order_laws::lemma_trades_with_one_number(
        queue,
        order.side,
        order.price,
        quantity,
        n,
        m.fills.len(),
    );
    let after = venue.submitted(id, order).ledger;
    assert(after == risk::all_settled(aside, venue.instrument(id), order, quantity, m.fills));
    assert(deals_of(m.fills) =~= deals(book, order, n)) by {
        assert forall|j: int| 0 <= j < n implies deals_of(m.fills)[j] == #[trigger] deals(book, order, n)[j] by {
            assert(m.fills[j].maker == queue[j]);
            assert(order_laws::traded_with(queue, quantity, j as nat) <= queue[j].order.quantity);
        }
    }
}

/// What the first `n` orders of a queue of bids keep set aside for `account`: for each of its
/// orders the notional at the limit and the taker fee on it.
pub open spec fn bids_need(bids: Seq<Queued>, n: nat, taker_fee_bps: u32, account: AccountId) -> nat
    decreases n,
{
    if n == 0 {
        0
    } else {
        let q = bids[n - 1];
        let notional = q.price.0 as nat * q.order.quantity as nat;
        bids_need(bids, (n - 1) as nat, taker_fee_bps, account) + (if q.order.account_id == account {
            notional + notional * (taker_fee_bps as nat) / 10_000
        } else {
            0
        })
    }
}

/// What the first `n` orders of a queue of asks keep set aside for `account`: the quantity of each
/// of its orders.
pub open spec fn asks_need(asks: Seq<Queued>, n: nat, account: AccountId) -> nat
    decreases n,
{
    if n == 0 {
        0
    } else {
        let q = asks[n - 1];
        asks_need(asks, (n - 1) as nat, account) + (if q.order.account_id == account {
            q.order.quantity as nat
        } else {
            0
        })
    }
}

/// What the resting orders of the first `n` books keep set aside for `account` of `asset`.
pub open spec fn books_need(venue: VenueView, n: nat, account: AccountId, asset: Seq<char>) -> nat
    decreases n,
{
    if n == 0 {
        0
    } else {
        let book = venue.books[n - 1];
        let terms = venue.config.instruments[n - 1];
        books_need(venue, (n - 1) as nat, account, asset) + (if asset == terms.quote {
            bids_need(book.bids, book.bids.len(), terms.taker_fee_bps, account)
        } else {
            0
        }) + (if asset == terms.base {
            asks_need(book.asks, book.asks.len(), account)
        } else {
            0
        })
    }
}

proof fn lemma_queue_owed_last(
    queue: Seq<Queued>,
    side: Side,
    instrument: InstrumentView,
    account: AccountId,
    asset: Seq<char>,
)
    requires
        queue.len() > 0,
    ensures
        risk::queue_owed(queue, side, instrument, account, asset) == risk::queue_owed(
            queue.drop_last(),
            side,
            instrument,
            account,
            asset,
        ) + risk::owed_by(queue.last(), side, instrument, account, asset),
    decreases queue.len(),
{
    if queue.len() == 1 {
        assert(queue.drop_first() =~= seq![]);
        assert(queue.drop_last() =~= seq![]);
        assert(risk::queue_owed(queue.drop_first(), side, instrument, account, asset) == 0);
    } else {
        lemma_queue_owed_last(queue.drop_first(), side, instrument, account, asset);
        assert(queue.drop_first().drop_last() =~= queue.drop_last().drop_first());
        assert(queue.drop_last()[0] == queue[0]);
    }
}

proof fn lemma_bids_need(bids: Seq<Queued>, n: nat, instrument: InstrumentView, account: AccountId, asset: Seq<char>)
    requires
        n <= bids.len(),
    ensures
        risk::queue_owed(bids.take(n as int), Side::Buy, instrument, account, asset) == (if asset
            == instrument.quote {
            bids_need(bids, n, instrument.taker_fee_bps, account)
        } else {
            0
        }),
    decreases n,
{
    if n > 0 {
        lemma_bids_need(bids, (n - 1) as nat, instrument, account, asset);
        let part = bids.take(n as int);
        assert(part.drop_last() =~= bids.take(n - 1));
        lemma_queue_owed_last(part, Side::Buy, instrument, account, asset);
    } else {
        assert(bids.take(0) =~= seq![]);
    }
}

proof fn lemma_asks_need(asks: Seq<Queued>, n: nat, instrument: InstrumentView, account: AccountId, asset: Seq<char>)
    requires
        n <= asks.len(),
    ensures
        risk::queue_owed(asks.take(n as int), Side::Sell, instrument, account, asset) == (if asset
            == instrument.base {
            asks_need(asks, n, account)
        } else {
            0
        }),
    decreases n,
{
    if n > 0 {
        lemma_asks_need(asks, (n - 1) as nat, instrument, account, asset);
        let part = asks.take(n as int);
        assert(part.drop_last() =~= asks.take(n - 1));
        lemma_queue_owed_last(part, Side::Sell, instrument, account, asset);
    } else {
        assert(asks.take(0) =~= seq![]);
    }
}

proof fn lemma_books_need(venue: VenueView, n: nat, account: AccountId, asset: Seq<char>)
    requires
        n <= venue.books.len(),
    ensures
        risk::books_owed(venue.books, venue.config.instruments, n, account, asset) == books_need(
            venue,
            n,
            account,
            asset,
        ),
    decreases n,
{
    if n > 0 {
        let book = venue.books[n - 1];
        let terms = venue.config.instruments[n - 1];
        lemma_books_need(venue, (n - 1) as nat, account, asset);
        lemma_bids_need(book.bids, book.bids.len(), terms, account, asset);
        lemma_asks_need(book.asks, book.asks.len(), terms, account, asset);
        assert(book.bids.take(book.bids.len() as int) =~= book.bids);
        assert(book.asks.take(book.asks.len() as int) =~= book.asks);
    }
}

/// On every venue, at every time, an account has set aside exactly what its resting orders call for:
/// for each bid its notional at the limit and the taker fee on it, for each ask its quantity.
pub proof fn law_reserved_is_what_resting_orders_call_for(venue: VenueView, account: AccountId, asset: Seq<char>)
    requires
        venue.valid(),
    ensures
        venue.ledger.reserved(account, asset) == books_need(venue, venue.books.len(), account, asset),
{
    lemma_books_need(venue, venue.books.len(), account, asset);
    assert(venue.ledger.reserved(account, asset) == venue.owed(account, asset));
}

/// Cancelling an order that rests takes it out of its queue, whole and alone, and reports its side,
/// price and open quantity. No account has more or less for it, available and set aside together,
/// and the exchange earns nothing.
pub proof fn law_cancellation_takes_the_order_out(
    venue: VenueView,
    id: InstrumentId,
    side: Side,
    n: int,
    account: AccountId,
    asset: Seq<char>,
)
    requires
        venue.valid(),
        venue.lists(id),
        0 <= n < order_laws::own(venue.books[id as int], side).len(),
    ensures
        ({
            let book = venue.books[id as int];
            let queue = order_laws::own(book, side);
            let q = queue[n];
            let after = venue.cancelled(id, q.order.order_id);
            &&& venue.cancel_event(id, q.order.order_id) == (BookEvent::Canceled {
                seq: (book.seq + 1) as u64,
                order_id: q.order.order_id,
                side,
                price: q.price,
                quantity: q.order.quantity,
            })
            &&& order_laws::own(after.books[id as int], side) == queue.remove(n)
            &&& order_laws::facing(after.books[id as int], side) == order_laws::facing(book, side)
            &&& after.books[id as int].seq == (book.seq + 1) as u64
            &&& after.config == venue.config
            &&& after.books.len() == venue.books.len()
            &&& forall|i: int| 0 <= i < venue.books.len() && i != id ==> #[trigger] after.books[i] == venue.books[i]
            &&& after.ledger.available(account, asset) + after.ledger.reserved(account, asset)
                == venue.ledger.available(account, asset) + venue.ledger.reserved(account, asset)
            &&& after.ledger.revenue(asset) == venue.ledger.revenue(asset)
        }),
{
    let book = venue.books[id as int];
    let queue = order_laws::own(book, side);
    let other = order_laws::facing(book, side);
    let q = queue[n];
    let order_id = q.order.order_id;
    assert(book.valid());
    model::lemma_take_out(queue, n);
    assert(order_laws::unused(other, order_id));
    model::lemma_take_out_absent(other, order_id);
    assert(model::holds(queue, order_id));
    assert(!model::holds(other, order_id));
    assert(book.side_of(order_id) == side);
    venue_model::lemma_cancel_is_backed(venue, id, order_id);
    let payer = q.order.account_id;
    let paid = risk::paid_asset(venue.instrument(id), side);
    let amount = risk::obligation(venue.instrument(id), side, q.price.0 as nat, q.order.quantity as nat);
    let funds = venue.ledger.funds(payer, paid);
    let after = venue.cancelled(id, order_id);
    assert(after.ledger == venue.ledger.released(payer, paid, amount));
    risk::lemma_with_funds(
        venue.ledger,
        payer,
        paid,
        Funds {
            available: (funds.available + amount) as u128,
            reserved: (funds.reserved - amount) as u128,
        },
    );
    assert(venue.ledger.supply(paid) <= u128::MAX);
    assert(after.ledger.funds(account, asset) == after.ledger.funds(account, asset));
}

/// Cancelling an order that does not rest is refused, takes a sequence number and changes nothing
/// else.
pub proof fn law_unknown_order_is_not_cancelled(venue: VenueView, id: InstrumentId, order_id: OrderId)
    requires
        venue.valid(),
        venue.lists(id),
        order_laws::unused(venue.books[id as int].bids, order_id),
        order_laws::unused(venue.books[id as int].asks, order_id),
    ensures
        ({
            let book = venue.books[id as int];
            let after = venue.cancelled(id, order_id);
            &&& venue.cancel_event(id, order_id) == (BookEvent::Rejected {
                seq: (book.seq + 1) as u64,
                order_id,
                reason: RejectReason::UnknownOrderId,
            })
            &&& after.ledger == venue.ledger
            &&& after.books[id as int].bids == book.bids
            &&& after.books[id as int].asks == book.asks
            &&& after.books[id as int].seq == (book.seq + 1) as u64
            &&& after.config == venue.config
            &&& forall|i: int| 0 <= i < venue.books.len() && i != id ==> #[trigger] after.books[i] == venue.books[i]
        }),
{
    let book = venue.books[id as int];
    model::lemma_take_out_absent(book.bids, order_id);
    model::lemma_take_out_absent(book.asks, order_id);
}

/// A book on its own cancels in the same way.
pub proof fn law_book_cancels_the_order_with_the_id(book: BookView, side: Side, n: int)
    requires
        book.valid(),
        0 <= n < order_laws::own(book, side).len(),
    ensures
        ({
            let queue = order_laws::own(book, side);
            let q = queue[n];
            let after = book.cancelled(q.order.order_id);
            &&& book.cancel_event(q.order.order_id) == (BookEvent::Canceled {
                seq: (book.seq + 1) as u64,
                order_id: q.order.order_id,
                side,
                price: q.price,
                quantity: q.order.quantity,
            })
            &&& order_laws::own(after, side) == queue.remove(n)
            &&& order_laws::facing(after, side) == order_laws::facing(book, side)
            &&& after.seq == (book.seq + 1) as u64
        }),
{
    let queue = order_laws::own(book, side);
    let other = order_laws::facing(book, side);
    let order_id = queue[n].order.order_id;
    model::lemma_take_out(queue, n);
    assert(order_laws::unused(other, order_id));
    model::lemma_take_out_absent(other, order_id);
    assert(model::holds(queue, order_id));
    assert(!model::holds(other, order_id));
}

/// Replacing an order is cancelling it and then, where it rested, submitting the new one; where it
/// did not rest, the refusal of the cancellation is all that happens.
pub proof fn law_replacement_is_cancellation_and_submission(
    venue: VenueView,
    id: InstrumentId,
    old_order_id: OrderId,
    order: NewOrder,
)
    requires
        venue.lists(id),
    ensures
        ({
            let book = venue.books[id as int];
            let between = venue.cancelled(id, old_order_id);
            let rested = !order_laws::unused(book.bids, old_order_id) || !order_laws::unused(
                book.asks,
                old_order_id,
            );
            let cancellation = venue.cancel_event(id, old_order_id);
            &&& rested ==> venue.replaced(id, old_order_id, order) == between.submitted(id, order)
            &&& rested ==> venue.replace_events(id, old_order_id, order) == seq![cancellation]
                + between.submit_events(id, order)
            &&& !rested ==> venue.replaced(id, old_order_id, order) == between
            &&& !rested ==> venue.replace_events(id, old_order_id, order) == seq![cancellation]
        }),
{
}

/// Crediting an account gives it the amount, available, and touches nothing else on the venue.
pub proof fn law_credit_touches_nothing_else(
    venue: VenueView,
    account: AccountId,
    asset: Seq<char>,
    amount: nat,
    other: AccountId,
    other_asset: Seq<char>,
)
    requires
        venue.valid(),
        venue.ledger.supply(asset) + amount <= u128::MAX,
    ensures
        ({
            let after = venue.credited(account, asset, amount);
            &&& after.books == venue.books
            &&& after.config == venue.config
            &&& after.ledger.revenue(other_asset) == venue.ledger.revenue(other_asset)
            &&& after.ledger.reserved(other, other_asset) == venue.ledger.reserved(other, other_asset)
            &&& after.ledger.available(other, other_asset) == venue.ledger.available(other, other_asset) + (
            if other == account && other_asset == asset {
                amount
            } else {
                0
            })
        }),
{
    lemma_deposit(venue.ledger, account, asset, amount);
    let after = venue.credited(account, asset, amount).ledger;
    assert(after.funds(other, other_asset) == after.funds(other, other_asset));
}

/// On a fresh venue nobody has anything, nothing was earned, and every book is empty.
pub proof fn law_fresh_venue_is_empty(config: ConfigView, account: AccountId, asset: Seq<char>)
    ensures
        ({
            let venue = VenueView::fresh(config);
            &&& venue.config == config
            &&& venue.books.len() == config.instruments.len()
            &&& forall|i: int|
                0 <= i < venue.books.len() ==> (#[trigger] venue.books[i]).seq == 0 && venue.books[i].bids.len()
                    == 0 && venue.books[i].asks.len() == 0
            &&& venue.ledger.available(account, asset) == 0
            &&& venue.ledger.reserved(account, asset) == 0
            &&& venue.ledger.revenue(asset) == 0
        }),
{
}

/// A command of the runtime does what the venue's operation of its name does.
pub proof fn law_command_is_the_operation_of_its_name(
    venue: VenueView,
    id: InstrumentId,
    old_order_id: OrderId,
    order: NewOrder,
)
    ensures
        runtime::command_events(venue, id, Command::Submit { order }) == venue.submit_events(id, order),
        runtime::after_command(venue, id, Command::Submit { order }) == venue.submitted(id, order),
        runtime::command_events(venue, id, Command::Cancel { order_id: old_order_id }) == seq![
            venue.cancel_event(id, old_order_id),
        ],
        runtime::after_command(venue, id, Command::Cancel { order_id: old_order_id }) == venue.cancelled(
            id,
            old_order_id,
        ),
        runtime::command_events(venue, id, Command::Replace { old_order_id, order })
            == venue.replace_events(id, old_order_id, order),
        runtime::after_command(venue, id, Command::Replace { old_order_id, order }) == venue.replaced(
            id,
            old_order_id,
            order,
        ),
{
}

} // verus!
