//! What holds of every order book, whatever is submitted or cancelled.
use vstd::prelude::*;

use crate::model;
use crate::model::{BookView, Fill, LevelTotal, Queued};
use crate::types::{BookEvent, NewOrder, OrderId, Price, Side};
use crate::validity;

verus! {

/// The quantity that the executions among `events` traded.
pub open spec fn executed_quantity(events: Seq<BookEvent>) -> nat
    decreases events.len(),
{
    if events.len() == 0 {
        0
    } else {
        let rest = executed_quantity(events.drop_first());
        match events[0] {
            BookEvent::Executed { execution, .. } => execution.quantity as nat + rest,
            _ => rest,
        }
    }
}

/// The quantity that rests in a book.
pub open spec fn resting_quantity(book: BookView) -> nat {
    model::total(book.bids) + model::total(book.asks)
}

/// Sequence numbers are strictly increasing: the events of an order carry the next numbers, one
/// after the other, and the book remembers the last of them.
pub proof fn law_submit_numbers_are_consecutive(book: BookView, order: NewOrder)
    requires
        book.seq + book.submit_events(order).len() <= u64::MAX,
    ensures
        forall|i: int|
            0 <= i < book.submit_events(order).len() ==> (#[trigger] book.submit_events(order)[i]).number()
                == book.seq + 1 + i,
        book.submitted(order).seq == book.seq + book.submit_events(order).len(),
{
}

/// A cancellation takes one sequence number, the next one.
pub proof fn law_cancel_number_is_next(book: BookView, id: OrderId)
    requires
        book.seq < u64::MAX,
    ensures
        book.cancel_event(id).number() == book.seq + 1,
        book.cancelled(id).seq == book.seq + 1,
{
}

proof fn lemma_executed_concat(a: Seq<BookEvent>, b: Seq<BookEvent>)
    ensures
        executed_quantity(a + b) == executed_quantity(a) + executed_quantity(b),
    decreases a.len(),
{
    if a.len() == 0 {
        assert(a + b =~= b);
    } else {
        lemma_executed_concat(a.drop_first(), b);
        assert((a + b).drop_first() =~= a.drop_first() + b);
        assert((a + b)[0] == a[0]);
    }
}

proof fn lemma_executed_fills(fills: Seq<Fill>, id: OrderId, first: int)
    ensures
        executed_quantity(model::executions(fills, id, first)) == model::filled(fills),
    decreases fills.len(),
{
    if fills.len() > 0 {
        lemma_executed_fills(fills.drop_first(), id, first + 1);
        assert(model::executions(fills, id, first).drop_first() =~= model::executions(
            fills.drop_first(),
            id,
            first + 1,
        ));
    }
}

/// The executions among the events of an accepted order trade what its fills say.
proof fn lemma_submit_executes(book: BookView, order: NewOrder)
    requires
        book.refusal(order) is None,
    ensures
        executed_quantity(book.submit_events(order)) == model::filled(book.matching(order).fills),
{
    let m = book.matching(order);
    let events = book.submit_events(order);
    let traded = model::executions(m.fills, order.order_id, book.seq + 2);
    let accepted = events.take(1);
    let rested = events.skip(1 + traded.len() as int);
    assert(events =~= accepted + traded + rested);
    lemma_executed_concat(accepted + traded, rested);
    lemma_executed_concat(accepted, traded);
    lemma_executed_fills(m.fills, order.order_id, book.seq + 2);
    assert(accepted.drop_first() =~= seq![]);
    assert(executed_quantity(accepted.drop_first()) == 0);
    if rested.len() > 0 {
        assert(rested.drop_first() =~= seq![]);
        assert(executed_quantity(rested.drop_first()) == 0);
    }
}

pub proof fn lemma_total_concat(a: Seq<Queued>, b: Seq<Queued>)
    ensures
        model::total(a + b) == model::total(a) + model::total(b),
    decreases a.len(),
{
    if a.len() == 0 {
        assert(a + b =~= b);
    } else {
        lemma_total_concat(a.drop_first(), b);
        assert((a + b).drop_first() =~= a.drop_first() + b);
    }
}

proof fn lemma_total_insert(queue: Seq<Queued>, k: int, item: Queued)
    requires
        0 <= k <= queue.len(),
    ensures
        model::total(queue.insert(k, item)) == model::total(queue) + item.order.quantity,
{
    let a = queue.take(k);
    let b = queue.skip(k);
    let x = seq![item];
    assert(queue =~= a + b);
    assert(queue.insert(k, item) =~= a + x + b);
    lemma_total_concat(a, b);
    lemma_total_concat(a + x, b);
    lemma_total_concat(a, x);
    assert(x.drop_first() =~= seq![]);
    assert(model::total(x.drop_first()) == 0);
}

proof fn lemma_total_matched(queue: Seq<Queued>, side: Side, limit: Price, quantity: nat)
    requires
        model::all_open(queue),
        quantity <= u64::MAX,
    ensures
        ({
            let m = model::matched(queue, side, limit, quantity);
            &&& model::total(m.queue) + model::filled(m.fills) == model::total(queue)
            &&& model::filled(m.fills) + m.left == quantity
        }),
    decreases queue.len(),
{
    let m = model::matched(queue, side, limit, quantity);
    if quantity == 0 || queue.len() == 0 || !model::no_worse(side, queue[0].price, limit) {
    } else {
        let head = queue[0];
        let traded = model::least(quantity, head.order.quantity as nat);
        if traded < head.order.quantity {
            assert(m.fills.drop_first() =~= seq![]);
            assert(model::filled(m.fills.drop_first()) == 0);
            assert(m.queue.drop_first() =~= queue.drop_first());
        } else {
            let rest = queue.drop_first();
            lemma_total_matched(rest, side, limit, (quantity - traded) as nat);
            let n = model::matched(rest, side, limit, (quantity - traded) as nat);
            assert(m.fills.drop_first() =~= n.fills);
        }
    }
}

/// Quantity is neither made nor lost: each execution takes its quantity from the resting side and
/// from the order that arrived, and the rest of that order rests. A refused order changes nothing.
pub proof fn law_submit_conserves_quantity(book: BookView, order: NewOrder)
    requires
        book.valid(),
    ensures
        book.refusal(order) is None ==> resting_quantity(book.submitted(order)) + 2 * executed_quantity(
            book.submit_events(order),
        ) == resting_quantity(book) + order.quantity,
        book.refusal(order) is Some ==> resting_quantity(book.submitted(order)) == resting_quantity(book)
            && executed_quantity(book.submit_events(order)) == 0,
{
    if book.refusal(order) is None {
        let side = order.side;
        let m = book.matching(order);
        lemma_submit_executes(book, order);
        lemma_total_matched(book.queue(side.other()), side.other(), order.price, order.quantity as nat);
        if m.left > 0 {
            let item = BookView::resting(order, m.left);
            let k = model::lemma_enqueued(book.queue(side), side, item);
            lemma_total_insert(book.queue(side), k, item);
        }
    } else {
        let events = book.submit_events(order);
        assert(events.drop_first() =~= seq![]);
        assert(executed_quantity(events.drop_first()) == 0);
    }
}

proof fn lemma_total_take_out(queue: Seq<Queued>, id: OrderId)
    requires
        model::distinct_ids(queue),
    ensures
        model::holds(queue, id) ==> model::total(model::those(queue, model::other_than(id))) + model::found(
            queue,
            id,
        ).order.quantity == model::total(queue),
        !model::holds(queue, id) ==> model::those(queue, model::other_than(id)) == queue,
{
    if model::holds(queue, id) {
        let n = choose|n: int| 0 <= n < queue.len() && (#[trigger] queue[n]).order.order_id == id;
        model::lemma_take_out(queue, n);
        assert(queue.remove(n).insert(n, queue[n]) =~= queue);
        lemma_total_insert(queue.remove(n), n, queue[n]);
    } else {
        model::lemma_take_out_absent(queue, id);
    }
}

/// A cancellation takes exactly the quantity that it reports out of the book, and a refused one
/// changes no queue.
pub proof fn law_cancel_conserves_quantity(book: BookView, id: OrderId)
    requires
        book.valid(),
    ensures
        match book.cancel_event(id) {
            BookEvent::Canceled { quantity, .. } => resting_quantity(book.cancelled(id)) + quantity
                == resting_quantity(book),
            _ => book.cancelled(id).bids == book.bids && book.cancelled(id).asks == book.asks,
        },
{
    lemma_total_take_out(book.bids, id);
    lemma_total_take_out(book.asks, id);
    if model::holds(book.bids, id) {
        let n = choose|n: int| 0 <= n < book.bids.len() && (#[trigger] book.bids[n]).order.order_id == id;
        assert forall|j: int| 0 <= j < book.asks.len() implies (#[trigger] book.asks[j]).order.order_id != id by {
            assert(book.bids[n].order.order_id != book.asks[j].order.order_id);
        }
    }
}

/// Executions are in price-time priority: the j-th execution of an order is with the j-th order of
/// the opposite side, at that order's price, which reaches the limit; so bids meet the lowest asks
/// and asks the highest bids, and at one price the older order comes first.
pub proof fn law_executions_follow_priority(book: BookView, order: NewOrder)
    requires
        book.valid(),
        book.refusal(order) is None,
    ensures
        ({
            let side = order.side.other();
            let queue = book.queue(side);
            let count = book.matching(order).fills.len();
            let events = book.submit_events(order);
            &&& count <= queue.len()
            &&& events.len() >= 1 + count
            &&& forall|j: int|
                0 <= j < count ==> {
                    &&& (#[trigger] events[1 + j]) is Executed
                    &&& events[1 + j]->execution.resting_order_id == queue[j].order.order_id
                    &&& events[1 + j]->execution.price == queue[j].price
                    &&& 0 < events[1 + j]->execution.quantity <= queue[j].order.quantity
                    &&& model::no_worse(side, queue[j].price, order.price)
                }
            &&& forall|j: int, i: int|
                0 <= j < count && 0 <= i < book.submitted(order).queue(side).len() ==> model::no_worse(
                    side,
                    (#[trigger] events[1 + j])->execution.price,
                    (#[trigger] book.submitted(order).queue(side)[i]).price,
                )
        }),
{
    let side = order.side.other();
    let queue = book.queue(side);
    let m = book.matching(order);
    let events = book.submit_events(order);
    let after = book.submitted(order).queue(side);
    model::lemma_matched(queue, side, order.price, order.quantity as nat);
    assert(after == m.queue);
    let k = queue.len() - m.queue.len();
    assert forall|j: int| 0 <= j < m.fills.len() implies {
        &&& (#[trigger] events[1 + j]) is Executed
        &&& events[1 + j]->execution.resting_order_id == queue[j].order.order_id
        &&& events[1 + j]->execution.price == queue[j].price
        &&& 0 < events[1 + j]->execution.quantity <= queue[j].order.quantity
        &&& model::no_worse(side, queue[j].price, order.price)
    } by {
        assert(m.fills[j].maker == queue[j]);
    }
    assert forall|j: int, i: int| 0 <= j < m.fills.len() && 0 <= i < after.len() implies model::no_worse(
        side,
        (#[trigger] events[1 + j])->execution.price,
        (#[trigger] after[i]).price,
    ) by {
        assert(m.fills[j].maker == queue[j]);
        assert(after[i].price == queue[k + i].price) by {
            if i > 0 {
                assert(m.queue[i] == queue[k + i]);
            }
        }
        assert(model::no_worse(side, queue[j].price, queue[k + i].price));
    }
}

/// An order never rests while an order on the opposite side reaches its limit.
pub proof fn law_no_rest_while_matchable(book: BookView, order: NewOrder)
    requires
        book.valid(),
        book.submit_events(order).last() is Rested,
    ensures
        forall|i: int|
            0 <= i < book.submitted(order).queue(order.side.other()).len() ==> !model::no_worse(
                order.side.other(),
                (#[trigger] book.submitted(order).queue(order.side.other())[i]).price,
                order.price,
            ),
{
    let side = order.side.other();
    let queue = book.queue(side);
    let m = book.matching(order);
    model::lemma_matched(queue, side, order.price, order.quantity as nat);
    validity::law_submit_keeps_book_valid(book, order);
    let after = book.submitted(order);
    validity::lemma_sides_valid(after, side);
    assert(after.queue(side) == m.queue);
    assert(m.left > 0);
    assert forall|i: int| 0 <= i < m.queue.len() implies !model::no_worse(
        side,
        (#[trigger] m.queue[i]).price,
        order.price,
    ) by {
        assert(model::no_worse(side, m.queue[0].price, m.queue[i].price));
    }
}

/// Cancelling an order that only rested puts both sides back as they were.
pub proof fn law_cancel_undoes_rest(book: BookView, order: NewOrder)
    requires
        book.valid(),
        book.refusal(order) is None,
        book.matching(order).fills.len() == 0,
    ensures
        ({
            let after = book.submitted(order).cancelled(order.order_id);
            after.bids == book.bids && after.asks == book.asks
        }),
{
    let side = order.side;
    let own = book.queue(side);
    let opposite = book.queue(side.other());
    let after = book.submitted(order);
    let item = BookView::resting(order, order.quantity as nat);
    lemma_only_rests(book, order);
    assert(model::those(after.queue(side), model::other_than(order.order_id)) == own) by {
        validity::law_submit_keeps_book_valid(book, order);
        lemma_take_out_enqueued(own, side, item);
    }
    assert(model::those(after.queue(side.other()), model::other_than(order.order_id)) == opposite) by {
        model::lemma_take_out_absent(opposite, order.order_id);
    }
}

/// An accepted order without fills rests as a whole.
proof fn lemma_only_rests(book: BookView, order: NewOrder)
    requires
        book.refusal(order) is None,
        book.matching(order).fills.len() == 0,
    ensures
        book.submitted(order).queue(order.side) == model::enqueued(
            book.queue(order.side),
            order.side,
            BookView::resting(order, order.quantity as nat),
        ),
        book.submitted(order).queue(order.side.other()) == book.queue(order.side.other()),
{
}

/// Taking out what was just put in.
proof fn lemma_take_out_enqueued(queue: Seq<Queued>, side: Side, item: Queued)
    requires
        model::in_priority(queue, side),
        model::distinct_ids(model::enqueued(queue, side, item)),
    ensures
        model::those(model::enqueued(queue, side, item), model::other_than(item.order.order_id)) == queue,
{
    let k = model::lemma_enqueued(queue, side, item);
    let now = queue.insert(k, item);
    assert(now[k] == item);
    model::lemma_take_out(now, k);
    assert(now.remove(k) =~= queue);
}

/// The order that rests can be found in the book under its id, with the price and the quantity
/// that its event reports.
pub proof fn law_rested_order_is_in_book(book: BookView, order: NewOrder)
    requires
        book.valid(),
        book.submit_events(order).last() is Rested,
    ensures
        model::holds(book.submitted(order).queue(order.side), order.order_id),
        model::found(book.submitted(order).queue(order.side), order.order_id) == BookView::resting(
            order,
            book.submit_events(order).last()->Rested_quantity as nat,
        ),
{
    let side = order.side;
    let own = book.queue(side);
    let m = book.matching(order);
    model::lemma_matched(book.queue(side.other()), side.other(), order.price, order.quantity as nat);
    let item = BookView::resting(order, m.left);
    let k = model::lemma_enqueued(own, side, item);
    validity::law_submit_keeps_book_valid(book, order);
    let now = own.insert(k, item);
    assert(book.submitted(order).queue(side) == now);
    assert(now[k] == item);
    model::lemma_take_out(now, k);
}

/// After a cancellation no order has the id, and every other order is where it was.
pub proof fn law_cancelled_order_is_gone(book: BookView, id: OrderId)
    requires
        book.valid(),
    ensures
        !book.cancelled(id).contains(id),
        forall|other: OrderId|
            other != id ==> (#[trigger] book.cancelled(id).contains(other) <==> book.contains(other)),
{
    lemma_filter_ids(book.bids, id);
    lemma_filter_ids(book.asks, id);
}

proof fn lemma_filter_ids(queue: Seq<Queued>, id: OrderId)
    ensures
        !model::holds(model::those(queue, model::other_than(id)), id),
        forall|other: OrderId|
            other != id ==> (#[trigger] model::holds(model::those(queue, model::other_than(id)), other)
                <==> model::holds(queue, other)),
    decreases queue.len(),
{
    let p = model::other_than(id);
    let kept = model::those(queue, p);
    if queue.len() > 0 {
        let rest = queue.drop_last();
        let below = model::those(rest, p);
        lemma_filter_ids(rest, id);
        assert forall|i: int| 0 <= i < kept.len() implies (#[trigger] kept[i]).order.order_id != id by {
            if i < below.len() {
                assert(kept[i] == below[i]);
            }
        }
        assert forall|other: OrderId| other != id implies (#[trigger] model::holds(kept, other)
            <==> model::holds(queue, other)) by {
            if model::holds(kept, other) {
                let i = choose|i: int| 0 <= i < kept.len() && (#[trigger] kept[i]).order.order_id == other;
                if i < below.len() {
                    assert(below[i].order.order_id == other);
                    assert(model::holds(below, other));
                    let j = choose|j: int| 0 <= j < rest.len() && (#[trigger] rest[j]).order.order_id == other;
                    assert(queue[j].order.order_id == other);
                } else {
                    assert(queue[queue.len() - 1].order.order_id == other);
                }
            }
            if model::holds(queue, other) {
                let j = choose|j: int| 0 <= j < queue.len() && (#[trigger] queue[j]).order.order_id == other;
                if j < rest.len() {
                    assert(rest[j].order.order_id == other);
                    assert(model::holds(rest, other));
                    assert(model::holds(below, other));
                    let i = choose|i: int| 0 <= i < below.len() && (#[trigger] below[i]).order.order_id == other;
                    assert(kept[i].order.order_id == other);
                } else {
                    assert(kept[kept.len() - 1].order.order_id == other);
                }
            }
        }
    }
}

/// The sum of the quantities of levels.
pub open spec fn levels_quantity(levels: Seq<LevelTotal>) -> nat
    decreases levels.len(),
{
    if levels.len() == 0 {
        0
    } else {
        levels[0].quantity + levels_quantity(levels.drop_first())
    }
}

/// The levels of one side run strictly from the best price to the worst, none is empty, and
/// together they hold the whole quantity of the side.
pub proof fn law_levels_are_in_order(queue: Seq<Queued>, side: Side)
    requires
        model::in_priority(queue, side),
        model::all_open(queue),
    ensures
        forall|i: int, j: int|
            0 <= i < j < model::price_levels(queue).len() ==> model::better(
                side,
                (#[trigger] model::price_levels(queue)[i]).price,
                (#[trigger] model::price_levels(queue)[j]).price,
            ),
        forall|i: int|
            0 <= i < model::price_levels(queue).len() ==> (#[trigger] model::price_levels(queue)[i]).quantity
                > 0,
        levels_quantity(model::price_levels(queue)) == model::total(queue),
    decreases queue.len(),
{
    let all = model::price_levels(queue);
    if queue.len() > 0 {
        let tail = queue.drop_first();
        let rest = model::price_levels(tail);
        law_levels_are_in_order(tail, side);
        model::lemma_first_level(tail);
        if tail.len() > 0 {
            assert(model::no_worse(side, queue[0].price, queue[1].price));
        }
        if rest.len() > 0 && rest[0].price == queue[0].price {
            assert(all.drop_first() =~= rest.drop_first());
            assert forall|i: int, j: int| 0 <= i < j < all.len() implies model::better(
                side,
                (#[trigger] all[i]).price,
                (#[trigger] all[j]).price,
            ) by {
                assert(all[i].price == rest[i].price);
                assert(all[j].price == rest[j].price);
            }
        } else {
            assert(all.drop_first() =~= rest);
            assert forall|i: int, j: int| 0 <= i < j < all.len() implies model::better(
                side,
                (#[trigger] all[i]).price,
                (#[trigger] all[j]).price,
            ) by {
                assert(all[j] == rest[j - 1]);
                if i > 0 {
                    assert(all[i] == rest[i - 1]);
                } else if j > 1 {
                    assert(model::better(side, rest[0].price, rest[j - 1].price));
                }
            }
        }
    }
}

/// Filling the best level takes as much of it as there is to fill it with. The level is gone when
/// all of it was filled, else it shrinks by what was filled; the other levels stay as they are.
pub proof fn law_best_level_is_filled(queue: Seq<Queued>, side: Side, quantity: nat)
    requires
        model::in_priority(queue, side),
        model::all_open(queue),
        queue.len() > 0,
    ensures
        ({
            let levels = model::price_levels(queue);
            let m = model::matched(queue, side, queue[0].price, quantity);
            let filled = model::least(quantity, levels[0].quantity);
            &&& levels.len() > 0
            &&& levels[0].price == queue[0].price
            &&& model::filled(m.fills) == filled
            &&& m.left == quantity - filled
            &&& m.fills.len() <= queue.len()
            &&& forall|j: int|
                0 <= j < m.fills.len() ==> (#[trigger] m.fills[j]).maker == queue[j] && queue[j].price
                    == queue[0].price
            &&& model::price_levels(m.queue) == (if filled == levels[0].quantity {
                levels.drop_first()
            } else {
                levels.update(
                    0,
                    LevelTotal { quantity: (levels[0].quantity - filled) as nat, ..levels[0] },
                )
            })
        }),
    decreases queue.len(),
{
    let best = queue[0].price;
    let head = queue[0].order.quantity as nat;
    let tail = queue.drop_first();
    let levels = model::price_levels(queue);
    let below = model::price_levels(tail);
    let m = model::matched(queue, side, best, quantity);
    model::lemma_first_level(queue);
    model::lemma_first_level(tail);
    assert(head > 0);
    reveal_with_fuel(model::filled, 2);
    if quantity >= head {
        let rest = model::matched(tail, side, best, (quantity - head) as nat);
        if tail.len() > 0 && tail[0].price == best {
            law_best_level_is_filled(tail, side, (quantity - head) as nat);
            assert(levels[0].quantity == head + below[0].quantity);
            assert(levels.drop_first() =~= below.drop_first());
            assert forall|t: LevelTotal| levels.update(0, t) == #[trigger] below.update(0, t) by {
                assert(levels.update(0, t) =~= below.update(0, t));
            }
        } else {
            if tail.len() > 0 {
                assert(model::no_worse(side, queue[0].price, queue[1].price));
            }
            assert(levels.drop_first() =~= below);
            assert(rest.fills =~= seq![]);
        }
        assert(m.fills =~= seq![m.fills[0]] + rest.fills);
        assert(m.fills.drop_first() =~= rest.fills);
        assert forall|j: int| 0 <= j < m.fills.len() implies (#[trigger] m.fills[j]).maker == queue[j]
            && queue[j].price == queue[0].price by {
            if j > 0 {
                assert(m.fills[j] == rest.fills[j - 1]);
                assert(rest.fills[j - 1].maker == tail[j - 1]);
            }
        }
    } else if quantity > 0 {
        assert(m.queue.drop_first() =~= tail);
        assert(m.fills.drop_first() =~= seq![]);
        model::lemma_first_level(m.queue);
        assert(model::price_levels(m.queue) =~= levels.update(
            0,
            LevelTotal { quantity: (levels[0].quantity - quantity) as nat, ..levels[0] },
        ));
    } else {
        assert(levels.update(0, levels[0]) =~= levels);
    }
}

} // verus!
