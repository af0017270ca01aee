//! What the resting orders of a venue oblige its accounts to, and how trades are settled.
use vstd::prelude::*;

use crate::fees;
use crate::instrument::InstrumentView;
use crate::ledger;
use crate::ledger::{Funds, LedgerView};
use crate::model::{BookView, Fill, Queued};
use crate::types::{AccountId, NewOrder, Side};

verus! {

/// The asset that an order on `side` pays with.
pub open spec fn paid_asset(instrument: InstrumentView, side: Side) -> Seq<char> {
    match side {
        Side::Buy => instrument.quote,
        Side::Sell => instrument.base,
    }
}

/// What an order sets aside of the asset that it pays with: a buy order the quote notional at its
/// limit and the taker fee on it, a sell order its quantity.
pub open spec fn obligation(instrument: InstrumentView, side: Side, price: nat, quantity: nat) -> nat {
    match side {
        Side::Buy => fees::hold(price, quantity, instrument.taker_fee_bps as nat),
        Side::Sell => quantity,
    }
}

/// What one queued order obliges `account` to in `asset`.
pub open spec fn owed_by(
    q: Queued,
    side: Side,
    instrument: InstrumentView,
    account: AccountId,
    asset: Seq<char>,
) -> nat {
    if q.order.account_id == account && paid_asset(instrument, side) == asset {
        obligation(instrument, side, q.price.0 as nat, q.order.quantity as nat)
    } else {
        0
    }
}

/// What the orders of a queue oblige `account` to in `asset`.
pub open spec fn queue_owed(
    queue: Seq<Queued>,
    side: Side,
    instrument: InstrumentView,
    account: AccountId,
    asset: Seq<char>,
) -> nat
    decreases queue.len(),
{
    if queue.len() == 0 {
        0
    } else {
        owed_by(queue[0], side, instrument, account, asset) + queue_owed(
            queue.drop_first(),
            side,
            instrument,
            account,
            asset,
        )
    }
}

/// What the orders of a book oblige `account` to in `asset`.
pub open spec fn book_owed(
    book: BookView,
    instrument: InstrumentView,
    account: AccountId,
    asset: Seq<char>,
) -> nat {
    queue_owed(book.bids, Side::Buy, instrument, account, asset) + queue_owed(
        book.asks,
        Side::Sell,
        instrument,
        account,
        asset,
    )
}

/// What the orders of the first `n` books oblige `account` to in `asset`.
pub open spec fn books_owed(
    books: Seq<BookView>,
    instruments: Seq<InstrumentView>,
    n: nat,
    account: AccountId,
    asset: Seq<char>,
) -> nat
    decreases n,
{
    if n == 0 {
        0
    } else {
        books_owed(books, instruments, (n - 1) as nat, account, asset) + book_owed(
            books[n - 1],
            instruments[n - 1],
            account,
            asset,
        )
    }
}

/// A trade to settle: the buyer had `open` left at limit `limit` before it.
pub struct Trade {
    pub buyer: AccountId,
    pub seller: AccountId,
    pub limit: nat,
    pub open: nat,
    pub price: nat,
    pub quantity: nat,
    pub buyer_bps: nat,
    pub seller_bps: nat,
}

/// The trade that `fill` stands for, when `remaining` of the incoming `order` were open before it.
/// The resting order is the maker, the incoming order the taker.
pub open spec fn trade_of(instrument: InstrumentView, order: NewOrder, remaining: nat, fill: Fill) -> Trade {
    let maker = fill.maker;
    match order.side {
        Side::Buy => Trade {
            buyer: order.account_id,
            seller: maker.order.account_id,
            limit: order.price.0 as nat,
            open: remaining,
            price: maker.price.0 as nat,
            quantity: fill.quantity as nat,
            buyer_bps: instrument.taker_fee_bps as nat,
            seller_bps: instrument.maker_fee_bps as nat,
        },
        Side::Sell => Trade {
            buyer: maker.order.account_id,
            seller: order.account_id,
            limit: maker.price.0 as nat,
            open: maker.order.quantity as nat,
            price: maker.price.0 as nat,
            quantity: fill.quantity as nat,
            buyer_bps: instrument.maker_fee_bps as nat,
            seller_bps: instrument.taker_fee_bps as nat,
        },
    }
}

impl Trade {
    pub open spec fn notional(self) -> nat {
        self.price * self.quantity
    }

    pub open spec fn buyer_fee(self) -> nat {
        fees::fee(self.notional(), self.buyer_bps)
    }

    pub open spec fn seller_fee(self) -> nat {
        fees::fee(self.notional(), self.seller_bps)
    }

    /// What the buyer pays in all.
    pub open spec fn cost(self) -> nat {
        self.notional() + self.buyer_fee()
    }

    /// The part of what the buyer's order set aside that it no longer needs after the trade.
    pub open spec fn freed(self, instrument: InstrumentView) -> nat {
        let bps = instrument.taker_fee_bps as nat;
        (fees::hold(self.limit, self.open, bps) - fees::hold(
            self.limit,
            (self.open - self.quantity) as nat,
            bps,
        )) as nat
    }
}

/// The ledger after a trade: what both sides had set aside for it is spent, the buyer receives the
/// base quantity and gets back what was not needed, the seller receives the notional less its fee,
/// and both fees become revenue.
pub open spec fn settled(ledger: LedgerView, instrument: InstrumentView, trade: Trade) -> LedgerView {
    let base = instrument.base;
    let quote = instrument.quote;
    let freed = trade.freed(instrument);
    ledger.spent(trade.buyer, quote, freed).spent(trade.seller, base, trade.quantity).deposited(
        trade.buyer,
        quote,
        (freed - trade.cost()) as nat,
    ).deposited(trade.buyer, base, trade.quantity).deposited(
        trade.seller,
        quote,
        (trade.notional() - trade.seller_fee()) as nat,
    ).earned(quote, trade.buyer_fee() + trade.seller_fee())
}

/// The ledger after all trades of an order that came in with `remaining`.
pub open spec fn all_settled(
    ledger: LedgerView,
    instrument: InstrumentView,
    order: NewOrder,
    remaining: nat,
    fills: Seq<Fill>,
) -> LedgerView
    decreases fills.len(),
{
    if fills.len() == 0 {
        ledger
    } else {
        all_settled(
            settled(ledger, instrument, trade_of(instrument, order, remaining, fills[0])),
            instrument,
            order,
            (remaining - fills[0].quantity) as nat,
            fills.drop_first(),
        )
    }
}

/// The ledger is complete, and no asset amounts to more than a `u128` can hold.
pub open spec fn sound(ledger: LedgerView) -> bool {
    &&& ledger.complete()
    &&& forall|asset: Seq<char>| #[trigger] ledger.supply(asset) <= u128::MAX
}

/// No asset became more or less from `a` to `b`.
pub open spec fn same_supply(a: LedgerView, b: LedgerView) -> bool {
    forall|asset: Seq<char>| #[trigger] b.supply(asset) == a.supply(asset)
}

/// What replacing the funds of one account does to a ledger.
pub proof fn lemma_with_funds(ledger: LedgerView, account: AccountId, asset: Seq<char>, funds: Funds)
    requires
        ledger.complete(),
    ensures
        ({
            let after = ledger.with_funds(account, asset, funds);
            &&& after.complete()
            &&& forall|u: AccountId, a: Seq<char>| #[trigger]
                after.funds(u, a) == (if u == account && a == asset {
                    funds
                } else {
                    ledger.funds(u, a)
                })
            &&& after.supply(asset) + ledger.funds(account, asset).sum() == ledger.supply(asset)
                + funds.sum()
            &&& ledger.funds(account, asset).sum() <= ledger.supply(asset)
            &&& forall|a: Seq<char>| a != asset ==> #[trigger] after.supply(a) == ledger.supply(a)
        }),
{
    let after = ledger.with_funds(account, asset, funds);
    assert(ledger.assets.contains_key(asset));
    assert forall|a: Seq<char>| #[trigger]
        after.assets.contains_key(a) && after.assets[a].accounts.dom().finite() by {
        assert(ledger.assets.contains_key(a));
    }
    ledger::lemma_holdings_insert(ledger.assets[asset].accounts, account, funds);
}

/// What spending an amount that was set aside does to a ledger.
pub proof fn lemma_spent(ledger: LedgerView, account: AccountId, asset: Seq<char>, amount: nat)
    requires
        ledger.complete(),
        amount <= ledger.reserved(account, asset),
    ensures
        ({
            let after = ledger.spent(account, asset, amount);
            &&& after.complete()
            &&& forall|u: AccountId, a: Seq<char>| #[trigger]
                after.available(u, a) == ledger.available(u, a)
            &&& forall|u: AccountId, a: Seq<char>| #[trigger]
                after.reserved(u, a) == ledger.reserved(u, a) - (if u == account && a == asset {
                    amount
                } else {
                    0
                })
            &&& forall|a: Seq<char>| #[trigger]
                after.supply(a) == ledger.supply(a) - (if a == asset {
                    amount
                } else {
                    0
                })
        }),
{
    let funds = ledger.funds(account, asset);
    let less = Funds { reserved: (funds.reserved - amount) as u128, ..funds };
    lemma_with_funds(ledger, account, asset, less);
    let after = ledger.spent(account, asset, amount);
    assert forall|u: AccountId, a: Seq<char>| #[trigger] after.available(u, a) == ledger.available(u, a) by {
        assert(after.funds(u, a) == after.funds(u, a));
    }
    assert forall|u: AccountId, a: Seq<char>| #[trigger]
        after.reserved(u, a) == ledger.reserved(u, a) - (if u == account && a == asset {
            amount
        } else {
            0
        }) by {
        assert(after.funds(u, a) == after.funds(u, a));
    }
}

proof fn lemma_deposited(ledger: LedgerView, account: AccountId, asset: Seq<char>, amount: nat)
    requires
        ledger.complete(),
        ledger.supply(asset) + amount <= u128::MAX,
    ensures
        ({
            let after = ledger.deposited(account, asset, amount);
            &&& after.complete()
            &&& forall|u: AccountId, a: Seq<char>| #[trigger]
                after.available(u, a) >= ledger.available(u, a)
            &&& forall|u: AccountId, a: Seq<char>| #[trigger] after.reserved(u, a) == ledger.reserved(u, a)
            &&& forall|a: Seq<char>| #[trigger]
                after.supply(a) == ledger.supply(a) + (if a == asset {
                    amount
                } else {
                    0
                })
        }),
{
    let funds = ledger.funds(account, asset);
    let more = Funds { available: (funds.available + amount) as u128, ..funds };
    lemma_with_funds(ledger, account, asset, more);
    let after = ledger.deposited(account, asset, amount);
    assert forall|u: AccountId, a: Seq<char>| #[trigger] after.available(u, a) >= ledger.available(u, a) by {
        assert(after.funds(u, a) == after.funds(u, a));
        assert(funds.sum() <= ledger.supply(asset));
    }
    assert forall|u: AccountId, a: Seq<char>| #[trigger] after.reserved(u, a) == ledger.reserved(u, a) by {
        assert(after.funds(u, a) == after.funds(u, a));
    }
}

proof fn lemma_earned(ledger: LedgerView, asset: Seq<char>, amount: nat)
    requires
        ledger.complete(),
    ensures
        ({
            let after = ledger.earned(asset, amount);
            &&& after.complete()
            &&& forall|u: AccountId, a: Seq<char>| #[trigger] after.funds(u, a) == ledger.funds(u, a)
            &&& forall|a: Seq<char>| #[trigger]
                after.supply(a) == ledger.supply(a) + (if a == asset {
                    amount
                } else {
                    0
                })
        }),
{
    let after = ledger.earned(asset, amount);
    assert(ledger.assets.contains_key(asset));
    assert forall|a: Seq<char>| #[trigger]
        after.assets.contains_key(a) && after.assets[a].accounts.dom().finite() by {
        assert(ledger.assets.contains_key(a));
    }
}

/// What setting an amount aside does to a ledger.
pub proof fn lemma_set_aside(ledger: LedgerView, account: AccountId, asset: Seq<char>, amount: nat)
    requires
        sound(ledger),
        amount <= ledger.available(account, asset),
    ensures
        ({
            let after = ledger.set_aside(account, asset, amount);
            &&& sound(after)
            &&& same_supply(ledger, after)
            &&& forall|u: AccountId, a: Seq<char>| #[trigger]
                after.available(u, a) == ledger.available(u, a) - (if u == account && a == asset {
                    amount
                } else {
                    0
                })
            &&& forall|u: AccountId, a: Seq<char>| #[trigger]
                after.reserved(u, a) == ledger.reserved(u, a) + (if u == account && a == asset {
                    amount
                } else {
                    0
                })
        }),
{
    let funds = ledger.funds(account, asset);
    let moved = Funds {
        available: (funds.available - amount) as u128,
        reserved: (funds.reserved + amount) as u128,
    };
    lemma_with_funds(ledger, account, asset, moved);
    let after = ledger.set_aside(account, asset, amount);
    assert(ledger.supply(asset) <= u128::MAX);
    assert(funds.sum() <= u128::MAX);
    assert(moved.sum() == funds.sum());
    assert forall|a: Seq<char>| #[trigger] after.supply(a) == ledger.supply(a) by {}
    assert forall|u: AccountId, a: Seq<char>| #[trigger]
        after.available(u, a) == ledger.available(u, a) - (if u == account && a == asset {
            amount
        } else {
            0
        }) by {
        assert(after.funds(u, a) == after.funds(u, a));
    }
    assert forall|u: AccountId, a: Seq<char>| #[trigger]
        after.reserved(u, a) == ledger.reserved(u, a) + (if u == account && a == asset {
            amount
        } else {
            0
        }) by {
        assert(after.funds(u, a) == after.funds(u, a));
    }
    assert forall|a: Seq<char>| #[trigger] after.supply(a) <= u128::MAX by {
        assert(ledger.supply(a) <= u128::MAX);
    }
}

/// What releasing an amount does to a ledger.
pub proof fn lemma_released(ledger: LedgerView, account: AccountId, asset: Seq<char>, amount: nat)
    requires
        sound(ledger),
        amount <= ledger.reserved(account, asset),
    ensures
        ({
            let after = ledger.released(account, asset, amount);
            &&& sound(after)
            &&& same_supply(ledger, after)
            &&& forall|u: AccountId, a: Seq<char>| #[trigger]
                after.reserved(u, a) == ledger.reserved(u, a) - (if u == account && a == asset {
                    amount
                } else {
                    0
                })
        }),
{
    let funds = ledger.funds(account, asset);
    let moved = Funds {
        available: (funds.available + amount) as u128,
        reserved: (funds.reserved - amount) as u128,
    };
    lemma_with_funds(ledger, account, asset, moved);
    let after = ledger.released(account, asset, amount);
    assert(ledger.supply(asset) <= u128::MAX);
    assert(moved.sum() == funds.sum());
    assert forall|u: AccountId, a: Seq<char>| #[trigger]
        after.reserved(u, a) == ledger.reserved(u, a) - (if u == account && a == asset {
            amount
        } else {
            0
        }) by {
        assert(after.funds(u, a) == after.funds(u, a));
    }
    assert forall|a: Seq<char>| #[trigger] after.supply(a) <= u128::MAX by {
        assert(ledger.supply(a) <= u128::MAX);
    }
}

/// What crediting an account does to a ledger.
pub proof fn lemma_credited(ledger: LedgerView, account: AccountId, asset: Seq<char>, amount: nat)
    requires
        sound(ledger),
        ledger.supply(asset) + amount <= u128::MAX,
    ensures
        ({
            let after = ledger.deposited(account, asset, amount);
            &&& sound(after)
            &&& forall|u: AccountId, a: Seq<char>| #[trigger] after.reserved(u, a) == ledger.reserved(u, a)
            &&& forall|a: Seq<char>| #[trigger]
                after.supply(a) == ledger.supply(a) + (if a == asset {
                    amount
                } else {
                    0
                })
        }),
{
    lemma_deposited(ledger, account, asset, amount);
    let after = ledger.deposited(account, asset, amount);
    assert forall|a: Seq<char>| #[trigger] after.supply(a) <= u128::MAX by {
        assert(ledger.supply(a) <= u128::MAX);
    }
}

/// Both sides of a trade have set aside what it takes from them, the buyer enough for its cost, and
/// the seller's fee is within the notional.
pub open spec fn covered(ledger: LedgerView, instrument: InstrumentView, trade: Trade) -> bool {
    let freed = trade.freed(instrument);
    &&& freed <= ledger.reserved(trade.buyer, instrument.quote)
    &&& trade.quantity <= ledger.spent(trade.buyer, instrument.quote, freed).reserved(
        trade.seller,
        instrument.base,
    )
    &&& trade.cost() <= freed
    &&& trade.seller_fee() <= trade.notional()
}

/// What settling a trade does to a ledger: each side's obligation goes down by what it set aside
/// for the trade, what is available to an account does not go down, and no asset becomes more or
/// less.
pub proof fn lemma_settled(ledger: LedgerView, instrument: InstrumentView, trade: Trade)
    requires
        sound(ledger),
        covered(ledger, instrument, trade),
    ensures
        ({
            let after = settled(ledger, instrument, trade);
            &&& sound(after)
            &&& same_supply(ledger, after)
            &&& forall|u: AccountId, a: Seq<char>| #[trigger]
                after.available(u, a) >= ledger.available(u, a)
            &&& forall|u: AccountId, a: Seq<char>| #[trigger]
                after.reserved(u, a) == ledger.reserved(u, a) - (if u == trade.buyer && a
                    == instrument.quote {
                    trade.freed(instrument)
                } else {
                    0
                }) - (if u == trade.seller && a == instrument.base {
                    trade.quantity
                } else {
                    0
                })
        }),
{
    let base = instrument.base;
    let quote = instrument.quote;
    let freed = trade.freed(instrument);
    let back = (freed - trade.cost()) as nat;
    let proceeds = (trade.notional() - trade.seller_fee()) as nat;
    let earnings = trade.buyer_fee() + trade.seller_fee();
    assert(ledger.supply(quote) <= u128::MAX);
    assert(ledger.supply(base) <= u128::MAX);
    lemma_spent(ledger, trade.buyer, quote, freed);
    let l1 = ledger.spent(trade.buyer, quote, freed);
    lemma_spent(l1, trade.seller, base, trade.quantity);
    let l2 = l1.spent(trade.seller, base, trade.quantity);
    lemma_deposited(l2, trade.buyer, quote, back);
    let l3 = l2.deposited(trade.buyer, quote, back);
    lemma_deposited(l3, trade.buyer, base, trade.quantity);
    let l4 = l3.deposited(trade.buyer, base, trade.quantity);
    lemma_deposited(l4, trade.seller, quote, proceeds);
    let l5 = l4.deposited(trade.seller, quote, proceeds);
    lemma_earned(l5, quote, earnings);
    let l6 = l5.earned(quote, earnings);
    assert(l6 == settled(ledger, instrument, trade));
    assert forall|a: Seq<char>| #[trigger] l6.supply(a) == ledger.supply(a) by {
        assert(l1.supply(a) == l1.supply(a));
        assert(l2.supply(a) == l2.supply(a));
        assert(l3.supply(a) == l3.supply(a));
        assert(l4.supply(a) == l4.supply(a));
        assert(l5.supply(a) == l5.supply(a));
    }
    assert forall|u: AccountId, a: Seq<char>| #[trigger] l6.available(u, a) >= ledger.available(u, a) by {
        assert(l6.funds(u, a) == l5.funds(u, a));
        assert(l5.available(u, a) >= l4.available(u, a));
        assert(l4.available(u, a) >= l3.available(u, a));
        assert(l3.available(u, a) >= l2.available(u, a));
        assert(l2.available(u, a) == l1.available(u, a));
        assert(l1.available(u, a) == ledger.available(u, a));
    }
    assert forall|a: Seq<char>| #[trigger] l6.supply(a) <= u128::MAX by {
        assert(ledger.supply(a) <= u128::MAX);
    }
    assert forall|u: AccountId, a: Seq<char>| #[trigger]
        l6.reserved(u, a) == ledger.reserved(u, a) - (if u == trade.buyer && a == quote {
            freed
        } else {
            0
        }) - (if u == trade.seller && a == base {
            trade.quantity
        } else {
            0
        }) by {
        assert(l6.funds(u, a) == l5.funds(u, a));
        assert(l5.reserved(u, a) == l4.reserved(u, a));
        assert(l4.reserved(u, a) == l3.reserved(u, a));
        assert(l3.reserved(u, a) == l2.reserved(u, a));
        assert(l2.reserved(u, a) == l2.reserved(u, a));
        assert(l1.reserved(u, a) == l1.reserved(u, a));
    }
}

/// While a trade is settled, step by step, no asset comes to more than before the trade.
pub proof fn lemma_settling_fits(ledger: LedgerView, instrument: InstrumentView, trade: Trade)
    requires
        sound(ledger),
        covered(ledger, instrument, trade),
    ensures
        ({
            let base = instrument.base;
            let quote = instrument.quote;
            let freed = trade.freed(instrument);
            let back = (freed - trade.cost()) as nat;
            let proceeds = (trade.notional() - trade.seller_fee()) as nat;
            let l2 = ledger.spent(trade.buyer, quote, freed).spent(trade.seller, base, trade.quantity);
            let l3 = l2.deposited(trade.buyer, quote, back);
            let l4 = l3.deposited(trade.buyer, base, trade.quantity);
            let l5 = l4.deposited(trade.seller, quote, proceeds);
            &&& l2.complete() && l3.complete() && l4.complete() && l5.complete()
            &&& l2.supply(quote) + back <= u128::MAX
            &&& l3.supply(base) + trade.quantity <= u128::MAX
            &&& l4.supply(quote) + proceeds <= u128::MAX
            &&& l5.supply(quote) + trade.buyer_fee() + trade.seller_fee() <= u128::MAX
        }),
{
    let base = instrument.base;
    let quote = instrument.quote;
    let freed = trade.freed(instrument);
    let back = (freed - trade.cost()) as nat;
    let proceeds = (trade.notional() - trade.seller_fee()) as nat;
    assert(ledger.supply(quote) <= u128::MAX);
    assert(ledger.supply(base) <= u128::MAX);
    lemma_spent(ledger, trade.buyer, quote, freed);
    let l1 = ledger.spent(trade.buyer, quote, freed);
    lemma_spent(l1, trade.seller, base, trade.quantity);
    let l2 = l1.spent(trade.seller, base, trade.quantity);
    lemma_deposited(l2, trade.buyer, quote, back);
    let l3 = l2.deposited(trade.buyer, quote, back);
    lemma_deposited(l3, trade.buyer, base, trade.quantity);
    let l4 = l3.deposited(trade.buyer, base, trade.quantity);
    lemma_deposited(l4, trade.seller, quote, proceeds);
}

} // verus!
