//! Settling the trades of an incoming order against what the resting orders have set aside.
use vstd::prelude::*;

use crate::fees;
use crate::instrument::{Instrument, InstrumentView};
use crate::ledger::{Ledger, LedgerView};
use crate::model;
use crate::model::{BookView, Fill, Queued};
use crate::risk;
use crate::types::{AccountId, NewOrder, RestingOrder, Side};

verus! {

/// Every reservation is what the incoming order, with `remaining` open, and the orders of the
/// `queue` that it meets oblige an account to, and `others` besides.
pub open spec fn backed(
    ledger: LedgerView,
    instrument: InstrumentView,
    queue: Seq<Queued>,
    order: NewOrder,
    remaining: nat,
    others: spec_fn(AccountId, Seq<char>) -> nat,
) -> bool {
    forall|account: AccountId, asset: Seq<char>| #[trigger]
        ledger.reserved(account, asset) == risk::queue_owed(
            queue,
            order.side.other(),
            instrument,
            account,
            asset,
        ) + risk::owed_by(
            BookView::resting(order, remaining),
            order.side,
            instrument,
            account,
            asset,
        ) + others(account, asset)
}

/// The queue after `quantity` of its first order was filled.
pub open spec fn after_fill(queue: Seq<Queued>, quantity: nat) -> Seq<Queued> {
    let head = queue[0];
    if quantity < head.order.quantity {
        let rest = RestingOrder { quantity: (head.order.quantity - quantity) as u64, ..head.order };
        queue.update(0, Queued { order: rest, ..head })
    } else {
        queue.drop_first()
    }
}

/// One fill of the head of the queue can be settled, and what it leaves is backed again.
pub proof fn lemma_settle_head(
    ledger: LedgerView,
    instrument: InstrumentView,
    queue: Seq<Queued>,
    order: NewOrder,
    remaining: nat,
    fill: Fill,
    others: spec_fn(AccountId, Seq<char>) -> nat,
)
    requires
        risk::sound(ledger),
        instrument.valid(),
        backed(ledger, instrument, queue, order, remaining, others),
        queue.len() > 0,
        model::no_worse(order.side.other(), queue[0].price, order.price),
        remaining <= u64::MAX,
        fill.maker == queue[0],
        fill.quantity <= remaining,
        fill.quantity <= queue[0].order.quantity,
    ensures
        ({
            let trade = risk::trade_of(instrument, order, remaining, fill);
            let after = risk::settled(ledger, instrument, trade);
            &&& risk::covered(ledger, instrument, trade)
            &&& risk::sound(after)
            &&& risk::same_supply(ledger, after)
            &&& forall|u: AccountId, a: Seq<char>| #[trigger]
                after.available(u, a) >= ledger.available(u, a)
            &&& backed(
                after,
                instrument,
                after_fill(queue, fill.quantity as nat),
                order,
                (remaining - fill.quantity) as nat,
                others,
            )
        }),
{
    let trade = risk::trade_of(instrument, order, remaining, fill);
    let head = queue[0];
    let side = order.side.other();
    let bps = instrument.taker_fee_bps as nat;
    let left = (remaining - fill.quantity) as nat;
    let next = after_fill(queue, fill.quantity as nat);
    let taker = BookView::resting(order, remaining);
    let taker_left = BookView::resting(order, left);
    let freed = trade.freed(instrument);
    fees::law_trade_costs_no_more_than_set_aside(
        trade.limit,
        trade.open,
        trade.price,
        trade.quantity,
        trade.buyer_bps,
        bps,
    );
    fees::lemma_fee_bound(trade.notional(), trade.seller_bps);
    assert forall|u: AccountId, a: Seq<char>|
        #![trigger ledger.reserved(u, a)]
        ledger.reserved(u, a) >= (if u == trade.buyer && a == instrument.quote {
            freed
        } else {
            0
        }) + (if u == trade.seller && a == instrument.base {
            trade.quantity
        } else {
            0
        }) by {
        assert(risk::queue_owed(queue, side, instrument, u, a) >= risk::owed_by(head, side, instrument, u, a));
    }
    assert(risk::covered(ledger, instrument, trade)) by {
        assert(ledger.reserved(trade.buyer, instrument.quote) >= freed);
        assert(ledger.reserved(trade.seller, instrument.base) >= trade.quantity);
        let funds = ledger.funds(trade.buyer, instrument.quote);
        let less = crate::ledger::Funds { reserved: (funds.reserved - freed) as u128, ..funds };
        risk::lemma_with_funds(ledger, trade.buyer, instrument.quote, less);
        let spent = ledger.spent(trade.buyer, instrument.quote, freed);
        assert(spent.funds(trade.seller, instrument.base) == spent.funds(trade.seller, instrument.base));
    }
    risk::lemma_settled(ledger, instrument, trade);
    let after = risk::settled(ledger, instrument, trade);
    assert forall|u: AccountId, a: Seq<char>| #[trigger]
        after.reserved(u, a) == risk::queue_owed(next, side, instrument, u, a) + risk::owed_by(
            taker_left,
            order.side,
            instrument,
            u,
            a,
        ) + others(u, a) by {
        assert(ledger.reserved(u, a) == ledger.reserved(u, a));
        fees::lemma_hold_of_nothing(head.price.0 as nat, bps);
        if fill.quantity < head.order.quantity {
            assert(next.drop_first() =~= queue.drop_first());
        }
        assert(risk::queue_owed(queue, side, instrument, u, a) == risk::owed_by(head, side, instrument, u, a)
            + risk::queue_owed(queue.drop_first(), side, instrument, u, a));
    }
}

/// All fills of an order can be settled, and what they leave is backed again.
pub proof fn lemma_settle_all(
    ledger: LedgerView,
    instrument: InstrumentView,
    queue: Seq<Queued>,
    order: NewOrder,
    remaining: nat,
    others: spec_fn(AccountId, Seq<char>) -> nat,
)
    requires
        risk::sound(ledger),
        instrument.valid(),
        backed(ledger, instrument, queue, order, remaining, others),
        remaining <= u64::MAX,
    ensures
        ({
            let m = model::matched(queue, order.side.other(), order.price, remaining);
            let after = risk::all_settled(ledger, instrument, order, remaining, m.fills);
            &&& risk::sound(after)
            &&& risk::same_supply(ledger, after)
            &&& forall|u: AccountId, a: Seq<char>| #[trigger]
                after.available(u, a) >= ledger.available(u, a)
            &&& backed(after, instrument, m.queue, order, m.left, others)
        }),
    decreases queue.len(),
{
    let side = order.side.other();
    let m = model::matched(queue, side, order.price, remaining);
    if remaining == 0 || queue.len() == 0 || !model::no_worse(side, queue[0].price, order.price) {
    } else {
        let head = queue[0];
        let traded = model::least(remaining, head.order.quantity as nat);
        let fill = Fill { maker: head, quantity: traded as u64 };
        let left = (remaining - traded) as nat;
        lemma_settle_head(ledger, instrument, queue, order, remaining, fill, others);
        let trade = risk::trade_of(instrument, order, remaining, fill);
        let next = risk::settled(ledger, instrument, trade);
        if traded < head.order.quantity {
            assert(m.fills.drop_first() =~= seq![]);
            assert(risk::all_settled(next, instrument, order, left, m.fills.drop_first()) == next);
        } else {
            let n = model::matched(queue.drop_first(), side, order.price, left);
            assert(m.fills.drop_first() =~= n.fills);
            lemma_settle_all(next, instrument, queue.drop_first(), order, left, others);
            let after = risk::all_settled(ledger, instrument, order, remaining, m.fills);
            assert(after == risk::all_settled(next, instrument, order, left, n.fills));
            assert forall|a: Seq<char>| #[trigger] after.supply(a) == ledger.supply(a) by {
                assert(next.supply(a) == ledger.supply(a));
            }
            assert forall|u: AccountId, a: Seq<char>| #[trigger]
                after.available(u, a) >= ledger.available(u, a) by {
                assert(next.available(u, a) >= ledger.available(u, a));
            }
        }
    }
}

/// The part of what a buy order set aside that it no longer needs when `quantity` of the `open`
/// were bought.
fn freed_by(limit: u64, open: u64, quantity: u64, bps: u32) -> (freed: u128)
    requires
        bps <= fees::WHOLE_BPS,
        quantity <= open,
        fees::hold(limit as nat, open as nat, bps as nat) - fees::hold(
            limit as nat,
            (open - quantity) as nat,
            bps as nat,
        ) <= u128::MAX,
    ensures
        freed == fees::hold(limit as nat, open as nat, bps as nat) - fees::hold(
            limit as nat,
            (open - quantity) as nat,
            bps as nat,
        ),
{
    proof {
        fees::law_trade_costs_no_more_than_set_aside(
            limit as nat,
            open as nat,
            limit as nat,
            quantity as nat,
            bps as nat,
            bps as nat,
        );
        vstd::arithmetic::mul::lemma_mul_is_distributive_add(
            limit as int,
            (open - quantity) as int,
            quantity as int,
        );
    }
    let before: u128 = fees::notional_of(limit, open);
    let after: u128 = fees::notional_of(limit, open - quantity);
    let fee_before: u128 = fees::fee_of(before, bps);
    let fee_after: u128 = fees::fee_of(after, bps);
    (before - after) + (fee_before - fee_after)
}

/// Settles one trade: see [`risk::settled`].
fn settle(ledger: &mut Ledger, instrument: &Instrument, order: &NewOrder, remaining: u64, fill: &Fill)
    requires
        old(ledger).wf(),
        risk::sound(old(ledger)@),
        instrument@.valid(),
        fill.quantity <= remaining,
        fill.quantity <= fill.maker.order.quantity,
        risk::covered(
            old(ledger)@,
            instrument@,
            risk::trade_of(instrument@, *order, remaining as nat, *fill),
        ),
    ensures
        final(ledger).wf(),
        final(ledger)@ == risk::settled(
            old(ledger)@,
            instrument@,
            risk::trade_of(instrument@, *order, remaining as nat, *fill),
        ),
{
    let maker = &fill.maker;
    let buying: bool = match order.side {
        Side::Buy => true,
        Side::Sell => false,
    };
    let buyer: AccountId = if buying { order.account_id } else { maker.order.account_id };
    let seller: AccountId = if buying { maker.order.account_id } else { order.account_id };
    let limit: u64 = if buying { order.price.0 } else { maker.price.0 };
    let open: u64 = if buying { remaining } else { maker.order.quantity };
    let buyer_bps: u32 = if buying { instrument.taker_fee_bps } else { instrument.maker_fee_bps };
    let seller_bps: u32 = if buying { instrument.maker_fee_bps } else { instrument.taker_fee_bps };
    proof {
        let trade = risk::trade_of(instrument@, *order, remaining as nat, *fill);
        risk::lemma_settling_fits(ledger@, instrument@, trade);
    }
    let notional: u128 = fees::notional_of(maker.price.0, fill.quantity);
    let buyer_fee: u128 = fees::fee_of(notional, buyer_bps);
    let seller_fee: u128 = fees::fee_of(notional, seller_bps);
    let freed: u128 = freed_by(limit, open, fill.quantity, instrument.taker_fee_bps);
    let base = instrument.base.as_str();
    let quote = instrument.quote.as_str();
    ledger.spend(buyer, quote, freed);
    ledger.spend(seller, base, fill.quantity as u128);
    ledger.deposit(buyer, quote, freed - notional - buyer_fee);
    ledger.deposit(buyer, base, fill.quantity as u128);
    ledger.deposit(seller, quote, notional - seller_fee);
    ledger.earn(quote, buyer_fee + seller_fee);
}

/// Settles all fills of an incoming order, of which nothing was traded before.
pub(crate) fn settle_all(
    ledger: &mut Ledger,
    instrument: &Instrument,
    order: &NewOrder,
    fills: &Vec<Fill>,
    Ghost(queue): Ghost<Seq<Queued>>,
    Ghost(others): Ghost<spec_fn(AccountId, Seq<char>) -> nat>,
)
    requires
        old(ledger).wf(),
        risk::sound(old(ledger)@),
        instrument@.valid(),
        model::all_open(queue),
        backed(old(ledger)@, instrument@, queue, *order, order.quantity as nat, others),
        fills@ == model::matched(queue, order.side.other(), order.price, order.quantity as nat).fills,
    ensures
        final(ledger).wf(),
        final(ledger)@ == risk::all_settled(
            old(ledger)@,
            instrument@,
            *order,
            order.quantity as nat,
            fills@,
        ),
{
    let ghost side = order.side.other();
    let ghost mut rest = queue;
    let ghost done = risk::all_settled(ledger@, instrument@, *order, order.quantity as nat, fills@);
    let mut remaining: u64 = order.quantity;
    let n: usize = fills.len();
    let mut i: usize = 0;
    assert(fills@.skip(0) =~= fills@);
    while i < n
        invariant
            i <= n,
            n == fills@.len(),
            ledger.wf(),
            risk::sound(ledger@),
            instrument@.valid(),
            side == order.side.other(),
            model::all_open(rest),
            backed(ledger@, instrument@, rest, *order, remaining as nat, others),
            fills@.skip(i as int) == model::matched(rest, side, order.price, remaining as nat).fills,
            done == risk::all_settled(
                ledger@,
                instrument@,
                *order,
                remaining as nat,
                fills@.skip(i as int),
            ),
        decreases n - i,
    {
        let ghost m = model::matched(rest, side, order.price, remaining as nat);
        let ghost before = rest;
        let fill = &fills[i];
        proof {
            assert(*fill == fills@.skip(i as int)[0]);
            assert(m.fills[0] == *fill);
            assert(rest[0].order.quantity > 0);
            lemma_settle_head(ledger@, instrument@, rest, *order, remaining as nat, *fill, others);
        }
        settle(ledger, instrument, order, remaining, fill);
        remaining = remaining - fill.quantity;
        i = i + 1;
        proof {
            rest = after_fill(before, fill.quantity as nat);
            let next = model::matched(rest, side, order.price, remaining as nat);
            assert(fills@.skip(i as int) =~= m.fills.drop_first());
            if fill.quantity < before[0].order.quantity {
                assert(m.fills.drop_first() =~= seq![]);
                assert(next.fills =~= seq![]);
                assert forall|j: int| 0 <= j < rest.len() implies (#[trigger] rest[j]).order.quantity > 0 by {
                    assert(before[j].order.quantity > 0);
                }
            } else {
                assert(m.fills.drop_first() =~= next.fills);
                assert forall|j: int| 0 <= j < rest.len() implies (#[trigger] rest[j]).order.quantity > 0 by {
                    assert(before[j + 1].order.quantity > 0);
                }
            }
        }
    }
    assert(fills@.skip(n as int) =~= seq![]);
}

} // verus!
