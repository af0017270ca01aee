//! Every operation of the book model keeps the book valid.
use vstd::prelude::*;

use crate::model;
use crate::model::{BookView, Queued};
use crate::types::{NewOrder, OrderId, Price, Side};

verus! {

/// The two sides of a valid book, seen from `side`.
pub open spec fn sides_valid(own: Seq<Queued>, opposite: Seq<Queued>, side: Side) -> bool {
    &&& model::in_priority(own, side)
    &&& model::in_priority(opposite, side.other())
    &&& model::all_open(own)
    &&& model::all_open(opposite)
    &&& model::distinct_ids(own)
    &&& model::distinct_ids(opposite)
    &&& forall|i: int, j: int|
        0 <= i < own.len() && 0 <= j < opposite.len() ==> (#[trigger] own[i]).order.order_id != (
        #[trigger] opposite[j]).order.order_id
    &&& forall|i: int, j: int|
        0 <= i < own.len() && 0 <= j < opposite.len() ==> !model::no_worse(
            side.other(),
            (#[trigger] opposite[j]).price,
            (#[trigger] own[i]).price,
        )
}

pub proof fn lemma_sides_valid(book: BookView, side: Side)
    ensures
        book.valid() <==> sides_valid(book.queue(side), book.queue(side.other()), side),
{
    let own = book.queue(side);
    let opposite = book.queue(side.other());
    if book.valid() {
        assert forall|i: int, j: int|
            0 <= i < own.len() && 0 <= j < opposite.len() implies (#[trigger] own[i]).order.order_id != (
        #[trigger] opposite[j]).order.order_id && !model::no_worse(
            side.other(),
            opposite[j].price,
            own[i].price,
        ) by {
            if side is Buy {
                assert(book.bids[i].price.0 < book.asks[j].price.0);
            } else {
                assert(book.bids[j].price.0 < book.asks[i].price.0);
            }
        }
    }
    if sides_valid(own, opposite, side) {
        assert forall|i: int, j: int| 0 <= i < book.bids.len() && 0 <= j < book.asks.len() implies (
        #[trigger] book.bids[i]).order.order_id != (#[trigger] book.asks[j]).order.order_id
            && book.bids[i].price.0 < book.asks[j].price.0 by {
            if side is Buy {
                assert(own[i].order.order_id != opposite[j].order.order_id);
            } else {
                assert(own[j].order.order_id != opposite[i].order.order_id);
            }
        }
    }
}

/// Meeting the opposite side keeps both sides valid.
proof fn lemma_met_valid(own: Seq<Queued>, opposite: Seq<Queued>, side: Side, limit: Price, quantity: nat)
    requires
        sides_valid(own, opposite, side),
        quantity <= u64::MAX,
    ensures
        sides_valid(own, model::matched(opposite, side.other(), limit, quantity).queue, side),
{
    let m = model::matched(opposite, side.other(), limit, quantity);
    model::lemma_matched(opposite, side.other(), limit, quantity);
    let k = opposite.len() - m.queue.len();
    assert forall|i: int| 0 <= i < m.queue.len() implies (#[trigger] m.queue[i]).price == opposite[k + i].price
        && m.queue[i].order.order_id == opposite[k + i].order.order_id && m.queue[i].order.quantity > 0 by {
        if i > 0 {
            assert(m.queue[i] == opposite[k + i]);
        }
    }
    assert forall|i: int, j: int| 0 <= i <= j < m.queue.len() implies model::no_worse(
        side.other(),
        (#[trigger] m.queue[i]).price,
        (#[trigger] m.queue[j]).price,
    ) by {
        assert(model::no_worse(side.other(), opposite[k + i].price, opposite[k + j].price));
    }
    assert forall|i: int, j: int| 0 <= i < j < m.queue.len() implies (#[trigger] m.queue[i]).order.order_id
        != (#[trigger] m.queue[j]).order.order_id by {
        assert(opposite[k + i].order.order_id != opposite[k + j].order.order_id);
    }
    assert forall|i: int, j: int| 0 <= i < own.len() && 0 <= j < m.queue.len() implies (
    #[trigger] own[i]).order.order_id != (#[trigger] m.queue[j]).order.order_id && !model::no_worse(
        side.other(),
        m.queue[j].price,
        own[i].price,
    ) by {
        assert(own[i].order.order_id != opposite[k + j].order.order_id);
        assert(!model::no_worse(side.other(), opposite[k + j].price, own[i].price));
    }
}

/// An order that reaches no opposite price, with an id of its own, can rest.
proof fn lemma_rest_valid(own: Seq<Queued>, opposite: Seq<Queued>, side: Side, item: Queued)
    requires
        sides_valid(own, opposite, side),
        item.order.quantity > 0,
        !model::holds(own, item.order.order_id),
        !model::holds(opposite, item.order.order_id),
        opposite.len() > 0 ==> !model::no_worse(side.other(), opposite[0].price, item.price),
    ensures
        sides_valid(model::enqueued(own, side, item), opposite, side),
{
    let k = model::lemma_enqueued(own, side, item);
    let now = own.insert(k, item);
    assert forall|i: int| 0 <= i < now.len() implies #[trigger] now[i] == (if i < k {
        own[i]
    } else if i == k {
        item
    } else {
        own[i - 1]
    }) by {}
    assert forall|i: int, j: int| 0 <= i <= j < now.len() implies model::no_worse(
        side,
        (#[trigger] now[i]).price,
        (#[trigger] now[j]).price,
    ) by {
        if i < k && j > k {
            assert(model::no_worse(side, own[i].price, own[j - 1].price));
        } else if j < k {
            assert(model::no_worse(side, own[i].price, own[j].price));
        } else if i > k {
            assert(model::no_worse(side, own[i - 1].price, own[j - 1].price));
        } else if i == k && j > k {
            assert(!model::no_worse(side, own[j - 1].price, item.price));
        } else if i < k {
            assert(model::no_worse(side, own[i].price, item.price));
        }
    }
    assert forall|i: int, j: int| 0 <= i < j < now.len() implies (#[trigger] now[i]).order.order_id != (
    #[trigger] now[j]).order.order_id by {
        if i < k && j > k {
            assert(own[i].order.order_id != own[j - 1].order.order_id);
        } else if j < k {
            assert(own[i].order.order_id != own[j].order.order_id);
        } else if i > k {
            assert(own[i - 1].order.order_id != own[j - 1].order.order_id);
        } else if i == k {
            assert(own[j - 1].order.order_id != item.order.order_id);
        } else {
            assert(own[i].order.order_id != item.order.order_id);
        }
    }
    assert forall|i: int, j: int| 0 <= i < now.len() && 0 <= j < opposite.len() implies (
    #[trigger] now[i]).order.order_id != (#[trigger] opposite[j]).order.order_id && !model::no_worse(
        side.other(),
        opposite[j].price,
        now[i].price,
    ) by {
        if i == k {
            assert(model::no_worse(side.other(), opposite[0].price, opposite[j].price));
        } else {
            let h = if i < k { i } else { i - 1 };
            assert(own[h].order.order_id != opposite[j].order.order_id);
            assert(!model::no_worse(side.other(), opposite[j].price, own[h].price));
        }
    }
}

/// Ids that the queue held are the only ones that are left.
pub proof fn lemma_met_ids(queue: Seq<Queued>, side: Side, limit: Price, quantity: nat, id: OrderId)
    requires
        model::all_open(queue),
        quantity <= u64::MAX,
        !model::holds(queue, id),
    ensures
        !model::holds(model::matched(queue, side, limit, quantity).queue, id),
{
    let m = model::matched(queue, side, limit, quantity);
    model::lemma_matched(queue, side, limit, quantity);
    let k = queue.len() - m.queue.len();
    assert forall|i: int| 0 <= i < m.queue.len() implies (#[trigger] m.queue[i]).order.order_id != id by {
        assert(queue[k + i].order.order_id != id);
        if i > 0 {
            assert(m.queue[i] == queue[k + i]);
        }
    }
}

/// Submitting an order keeps a book valid: every resting order stays in one place only, both sides
/// stay in price-time priority, and no bid reaches an ask.
pub proof fn law_submit_keeps_book_valid(book: BookView, order: NewOrder)
    requires
        book.valid(),
    ensures
        book.submitted(order).valid(),
{
    let side = order.side;
    let own = book.queue(side);
    let opposite = book.queue(side.other());
    let after = book.submitted(order);
    lemma_sides_valid(book, side);
    lemma_sides_valid(after, side);
    if book.refusal(order) is None {
        let m = book.matching(order);
        lemma_met_valid(own, opposite, side, order.price, order.quantity as nat);
        model::lemma_matched(opposite, side.other(), order.price, order.quantity as nat);
        lemma_met_ids(opposite, side.other(), order.price, order.quantity as nat, order.order_id);
        if m.left > 0 {
            lemma_rest_valid(own, m.queue, side, BookView::resting(order, m.left));
        }
    }
}

proof fn lemma_filtered_valid(own: Seq<Queued>, opposite: Seq<Queued>, side: Side, id: OrderId)
    requires
        sides_valid(own, opposite, side),
    ensures
        sides_valid(model::those(own, model::other_than(id)), opposite, side),
{
    if model::holds(own, id) {
        let n = choose|n: int| 0 <= n < own.len() && (#[trigger] own[n]).order.order_id == id;
        model::lemma_take_out(own, n);
        let now = own.remove(n);
        assert forall|i: int| 0 <= i < now.len() implies #[trigger] now[i] == (if i < n {
            own[i]
        } else {
            own[i + 1]
        }) by {}
    } else {
        model::lemma_take_out_absent(own, id);
    }
}

/// Cancelling an order keeps a book valid.
pub proof fn law_cancel_keeps_book_valid(book: BookView, id: OrderId)
    requires
        book.valid(),
    ensures
        book.cancelled(id).valid(),
{
    let bids = model::those(book.bids, model::other_than(id));
    let asks = model::those(book.asks, model::other_than(id));
    let half = BookView { bids, ..book };
    lemma_sides_valid(book, Side::Buy);
    lemma_filtered_valid(book.bids, book.asks, Side::Buy, id);
    lemma_sides_valid(half, Side::Buy);
    lemma_sides_valid(half, Side::Sell);
    lemma_filtered_valid(book.asks, bids, Side::Sell, id);
    lemma_sides_valid(book.cancelled(id), Side::Sell);
}

} // verus!
