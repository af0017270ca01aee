//! A client that only sees the public feed can keep its own copy of the visible book.
use vstd::prelude::*;

use crate::model;
use crate::model::{BookView, Fill, Queued};
use crate::types::{BookEvent, NewOrder, OrderId, Price, RestingOrder, Side};
use crate::validity;

verus! {

/// A queue as the public sees it: without the accounts.
pub open spec fn nameless(queue: Seq<Queued>) -> Seq<Queued> {
    Seq::new(queue.len(), |i: int| unnamed(queue[i]))
}

pub open spec fn unnamed(q: Queued) -> Queued {
    Queued { order: RestingOrder { account_id: 0, ..q.order }, ..q }
}

/// Both sides of a book as the public sees them.
pub struct PublicBook {
    pub bids: Seq<Queued>,
    pub asks: Seq<Queued>,
}

pub open spec fn public_book(book: BookView) -> PublicBook {
    PublicBook { bids: nameless(book.bids), asks: nameless(book.asks) }
}

/// Takes `quantity` off the order with this id, and the order out where nothing is left of it.
pub open spec fn reduced(queue: Seq<Queued>, id: OrderId, quantity: nat) -> Seq<Queued>
    decreases queue.len(),
{
    if queue.len() == 0 {
        queue
    } else if queue[0].order.order_id != id {
        seq![queue[0]] + reduced(queue.drop_first(), id, quantity)
    } else if queue[0].order.quantity <= quantity {
        queue.drop_first()
    } else {
        let order = RestingOrder {
            quantity: (queue[0].order.quantity - quantity) as u64,
            ..queue[0].order
        };
        queue.update(0, Queued { order, ..queue[0] })
    }
}

/// What one event tells a client about the book.
pub open spec fn applied(book: PublicBook, event: BookEvent) -> PublicBook {
    match event {
        BookEvent::Executed { execution, .. } => PublicBook {
            bids: reduced(book.bids, execution.resting_order_id, execution.quantity as nat),
            asks: reduced(book.asks, execution.resting_order_id, execution.quantity as nat),
        },
        BookEvent::Rested { order_id, side, price, quantity, .. } => {
            let item = Queued { price, order: RestingOrder { order_id, account_id: 0, quantity } };
            match side {
                Side::Buy => PublicBook { bids: model::enqueued(book.bids, side, item), ..book },
                Side::Sell => PublicBook { asks: model::enqueued(book.asks, side, item), ..book },
            }
        },
        BookEvent::Canceled { order_id, .. } => PublicBook {
            bids: model::those(book.bids, model::other_than(order_id)),
            asks: model::those(book.asks, model::other_than(order_id)),
        },
        BookEvent::Accepted { .. } => book,
        BookEvent::Rejected { .. } => book,
    }
}

/// The client's copy after `events`.
pub open spec fn replayed(book: PublicBook, events: Seq<BookEvent>) -> PublicBook
    decreases events.len(),
{
    if events.len() == 0 {
        book
    } else {
        replayed(applied(book, events[0]), events.drop_first())
    }
}

/// The events that go to the public feed.
pub open spec fn public_events(events: Seq<BookEvent>) -> Seq<BookEvent> {
    model::those(events, |e: BookEvent| e.is_public())
}

/// Applying two runs of events is applying one after the other.
pub proof fn lemma_replayed_concat(book: PublicBook, a: Seq<BookEvent>, b: Seq<BookEvent>)
    ensures
        replayed(book, a + b) == replayed(replayed(book, a), b),
    decreases a.len(),
{
    if a.len() == 0 {
        assert(a + b =~= b);
    } else {
        lemma_replayed_concat(applied(book, a[0]), a.drop_first(), b);
        assert((a + b).drop_first() =~= a.drop_first() + b);
    }
}

/// Events that are not public tell a client nothing about the book.
proof fn lemma_private_events_change_nothing(book: PublicBook, events: Seq<BookEvent>)
    ensures
        replayed(book, public_events(events)) == replayed(book, events),
    decreases events.len(),
{
    if events.len() > 0 {
        let rest = events.drop_last();
        let last = seq![events.last()];
        lemma_private_events_change_nothing(book, rest);
        assert(events =~= rest + last);
        lemma_replayed_concat(book, rest, last);
        assert(last.drop_first() =~= seq![]);
        assert(replayed(replayed(book, rest), last) == applied(replayed(book, rest), last[0])) by {
            reveal_with_fuel(replayed, 2);
        }
        if events.last().is_public() {
            assert(public_events(events) =~= public_events(rest) + last);
            lemma_replayed_concat(book, public_events(rest), last);
        }
    }
}

proof fn lemma_reduced_absent(queue: Seq<Queued>, id: OrderId, quantity: nat)
    requires
        !model::holds(queue, id),
    ensures
        reduced(queue, id, quantity) == queue,
    decreases queue.len(),
{
    if queue.len() > 0 {
        let rest = queue.drop_first();
        assert(queue[0].order.order_id != id);
        assert forall|i: int| 0 <= i < rest.len() implies (#[trigger] rest[i]).order.order_id != id by {
            assert(queue[i + 1].order.order_id != id);
        }
        lemma_reduced_absent(rest, id, quantity);
        assert(seq![queue[0]] + rest =~= queue);
    }
}

/// The book of one side `own` and the other side `opposite`.
spec fn joined(side: Side, own: Seq<Queued>, opposite: Seq<Queued>) -> PublicBook {
    match side {
        Side::Buy => PublicBook { bids: own, asks: opposite },
        Side::Sell => PublicBook { bids: opposite, asks: own },
    }
}

/// Replaying the executions of an order brings the opposite side to where matching brought it.
proof fn lemma_replay_fills(
    side: Side,
    own: Seq<Queued>,
    queue: Seq<Queued>,
    limit: Price,
    quantity: nat,
    aggressor: OrderId,
    first: int,
)
    requires
        model::all_open(queue),
        quantity <= u64::MAX,
        forall|i: int, j: int|
            0 <= i < own.len() && 0 <= j < queue.len() ==> (#[trigger] own[i]).order.order_id != (
            #[trigger] queue[j]).order.order_id,
    ensures
        ({
            let m = model::matched(queue, side.other(), limit, quantity);
            replayed(
                joined(side, nameless(own), nameless(queue)),
                model::executions(m.fills, aggressor, first),
            ) == joined(side, nameless(own), nameless(m.queue))
        }),
    decreases queue.len(),
{
    let m = model::matched(queue, side.other(), limit, quantity);
    let events = model::executions(m.fills, aggressor, first);
    let start = joined(side, nameless(own), nameless(queue));
    if quantity == 0 || queue.len() == 0 || !model::no_worse(side.other(), queue[0].price, limit) {
    } else {
        let head = queue[0];
        let id = head.order.order_id;
        let traded = model::least(quantity, head.order.quantity as nat);
        assert(events.len() > 0);
        assert(m.fills[0] == Fill { maker: head, quantity: traded as u64 });
        assert(!model::holds(nameless(own), id)) by {
            assert forall|i: int| 0 <= i < nameless(own).len() implies (
            #[trigger] nameless(own)[i]).order.order_id != id by {
                assert(own[i].order.order_id != queue[0].order.order_id);
            }
        }
        lemma_reduced_absent(nameless(own), id, traded);
        if traded < head.order.quantity {
            assert(events.drop_first() =~= seq![]);
            assert(reduced(nameless(queue), id, traded) =~= nameless(m.queue));
            assert(replayed(applied(start, events[0]), events.drop_first()) == applied(start, events[0]));
        } else {
            let rest = queue.drop_first();
            let n = model::matched(rest, side.other(), limit, (quantity - traded) as nat);
            assert(m.fills.drop_first() =~= n.fills);
            assert(events.drop_first() =~= model::executions(n.fills, aggressor, first + 1));
            assert(reduced(nameless(queue), id, traded) =~= nameless(rest));
            assert forall|i: int, j: int| 0 <= i < own.len() && 0 <= j < rest.len() implies (
            #[trigger] own[i]).order.order_id != (#[trigger] rest[j]).order.order_id by {
                assert(own[i].order.order_id != queue[j + 1].order.order_id);
            }
            lemma_replay_fills(side, own, rest, limit, (quantity - traded) as nat, aggressor, first + 1);
        }
    }
}

/// Hiding the accounts and selecting by something else than the account can change places.
proof fn lemma_nameless_those(queue: Seq<Queued>, p: spec_fn(Queued) -> bool)
    requires
        forall|q: Queued| #[trigger] p(q) == p(unnamed(q)),
    ensures
        model::those(nameless(queue), p) == nameless(model::those(queue, p)),
    decreases queue.len(),
{
    if queue.len() > 0 {
        let rest = queue.drop_last();
        lemma_nameless_those(rest, p);
        assert(nameless(queue).drop_last() =~= nameless(rest));
        assert(p(queue.last()) == p(unnamed(queue.last())));
        assert(model::those(nameless(queue), p) =~= nameless(model::those(queue, p)));
    } else {
        assert(model::those(nameless(queue), p) =~= nameless(model::those(queue, p)));
    }
}

proof fn lemma_nameless_enqueued(queue: Seq<Queued>, side: Side, item: Queued)
    ensures
        model::enqueued(nameless(queue), side, unnamed(item)) == nameless(
            model::enqueued(queue, side, item),
        ),
{
    lemma_nameless_those(queue, model::ahead_of(side, item.price));
    lemma_nameless_those(queue, model::behind(side, item.price));
    assert(model::enqueued(nameless(queue), side, unnamed(item)) =~= nameless(
        model::enqueued(queue, side, item),
    ));
}

/// A client that applies the public events of an order to its copy of the visible book has the
/// visible book that the order left.
pub proof fn law_feed_rebuilds_book_after_submit(book: BookView, order: NewOrder)
    requires
        book.valid(),
    ensures
        replayed(public_book(book), public_events(book.submit_events(order))) == public_book(
            book.submitted(order),
        ),
{
    let events = book.submit_events(order);
    let start = public_book(book);
    lemma_private_events_change_nothing(start, events);
    reveal_with_fuel(replayed, 2);
    if book.refusal(order) is None {
        let side = order.side;
        let own = book.queue(side);
        let opposite = book.queue(side.other());
        let m = book.matching(order);
        let traded = model::executions(m.fills, order.order_id, book.seq + 2);
        let accepted = events.take(1);
        let rested = events.skip(1 + traded.len() as int);
        assert(events =~= accepted + traded + rested);
        lemma_replayed_concat(start, accepted + traded, rested);
        lemma_replayed_concat(start, accepted, traded);
        assert(accepted.drop_first() =~= seq![]);
        assert(replayed(start, accepted) == start);
        validity::lemma_sides_valid(book, side);
        lemma_replay_fills(
            side,
            own,
            opposite,
            order.price,
            order.quantity as nat,
            order.order_id,
            book.seq + 2,
        );
        let met = joined(side, nameless(own), nameless(m.queue));
        assert(replayed(start, traded) == met);
        if m.left > 0 {
            let item = BookView::resting(order, m.left);
            lemma_nameless_enqueued(own, side, item);
            assert(rested.drop_first() =~= seq![]);
            assert(replayed(met, rested) == applied(met, rested[0]));
        }
    } else {
        assert(events.drop_first() =~= seq![]);
    }
}

/// A client that applies the event of a cancellation to its copy of the visible book has the
/// visible book that the cancellation left.
pub proof fn law_feed_rebuilds_book_after_cancel(book: BookView, id: OrderId)
    requires
        book.valid(),
    ensures
        replayed(public_book(book), public_events(seq![book.cancel_event(id)])) == public_book(
            book.cancelled(id),
        ),
{
    let events = seq![book.cancel_event(id)];
    lemma_private_events_change_nothing(public_book(book), events);
    reveal_with_fuel(replayed, 2);
    assert(events.drop_first() =~= seq![]);
    lemma_nameless_those(book.bids, model::other_than(id));
    lemma_nameless_those(book.asks, model::other_than(id));
    if !book.contains(id) {
        model::lemma_take_out_absent(book.bids, id);
        model::lemma_take_out_absent(book.asks, id);
    }
}

/// Each fill changes what the public sees of the opposite side.
proof fn lemma_fill_changes(
    side: Side,
    own: Seq<Queued>,
    queue: Seq<Queued>,
    limit: Price,
    quantity: nat,
    aggressor: OrderId,
    first: int,
    k: int,
)
    requires
        model::all_open(queue),
        quantity <= u64::MAX,
        forall|i: int, j: int|
            0 <= i < own.len() && 0 <= j < queue.len() ==> (#[trigger] own[i]).order.order_id != (
            #[trigger] queue[j]).order.order_id,
        0 <= k < model::matched(queue, side.other(), limit, quantity).fills.len(),
    ensures
        ({
            let fills = model::matched(queue, side.other(), limit, quantity).fills;
            let events = model::executions(fills, aggressor, first);
            let before = replayed(joined(side, nameless(own), nameless(queue)), events.take(k));
            applied(before, events[k]) != before
        }),
    decreases queue.len(),
{
    let m = model::matched(queue, side.other(), limit, quantity);
    let events = model::executions(m.fills, aggressor, first);
    let start = joined(side, nameless(own), nameless(queue));
    let head = queue[0];
    let id = head.order.order_id;
    let traded = model::least(quantity, head.order.quantity as nat);
    assert(m.fills[0] == Fill { maker: head, quantity: traded as u64 });
    assert(!model::holds(nameless(own), id)) by {
        assert forall|i: int| 0 <= i < nameless(own).len() implies (
        #[trigger] nameless(own)[i]).order.order_id != id by {
            assert(own[i].order.order_id != queue[0].order.order_id);
        }
    }
    lemma_reduced_absent(nameless(own), id, traded);
    let less = reduced(nameless(queue), id, traded);
    assert(applied(start, events[0]) == joined(side, nameless(own), less));
    assert(head.order.quantity > 0);
    if k == 0 {
        assert(events.take(0) =~= seq![]);
        assert(less != nameless(queue)) by {
            if traded < head.order.quantity {
                assert(less[0].order.quantity == head.order.quantity - traded);
                assert(nameless(queue)[0].order.quantity == head.order.quantity);
            } else {
                assert(less.len() == queue.len() - 1);
            }
        }
    } else {
        let rest = queue.drop_first();
        let n = model::matched(rest, side.other(), limit, (quantity - traded) as nat);
        assert(m.fills.drop_first() =~= n.fills);
        let later = model::executions(n.fills, aggressor, first + 1);
        assert(events.take(k).drop_first() =~= later.take(k - 1));
        assert(events.take(k)[0] == events[0]);
        assert(events[k] == later[k - 1]);
        assert(less =~= nameless(rest));
        assert forall|i: int, j: int| 0 <= i < own.len() && 0 <= j < rest.len() implies (
        #[trigger] own[i]).order.order_id != (#[trigger] rest[j]).order.order_id by {
            assert(own[i].order.order_id != queue[j + 1].order.order_id);
        }
        lemma_fill_changes(
            side,
            own,
            rest,
            limit,
            (quantity - traded) as nat,
            aggressor,
            first + 1,
            k - 1,
        );
    }
}

/// Among the events of an order exactly those are public that change the visible book.
pub proof fn law_public_events_are_those_that_change_the_book(book: BookView, order: NewOrder, i: int)
    requires
        book.valid(),
        0 <= i < book.submit_events(order).len(),
    ensures
        ({
            let events = book.submit_events(order);
            let before = replayed(public_book(book), events.take(i));
            events[i].is_public() <==> applied(before, events[i]) != before
        }),
{
    let events = book.submit_events(order);
    let start = public_book(book);
    if book.refusal(order) is None && i > 0 {
        let side = order.side;
        let own = book.queue(side);
        let opposite = book.queue(side.other());
        let m = book.matching(order);
        let traded = model::executions(m.fills, order.order_id, book.seq + 2);
        let accepted = events.take(1);
        assert(replayed(start, accepted) == start) by {
            reveal_with_fuel(replayed, 2);
            assert(accepted.drop_first() =~= seq![]);
        }
        validity::lemma_sides_valid(book, side);
        assert(start == joined(side, nameless(own), nameless(opposite)));
        if i <= m.fills.len() {
            assert(events.take(i) =~= accepted + traded.take(i - 1));
            lemma_replayed_concat(start, accepted, traded.take(i - 1));
            lemma_fill_changes(
                side,
                own,
                opposite,
                order.price,
                order.quantity as nat,
                order.order_id,
                book.seq + 2,
                i - 1,
            );
            assert(events[i] == traded[i - 1]);
        } else {
            assert(events.take(i) =~= accepted + traded);
            lemma_replayed_concat(start, accepted, traded);
            lemma_replay_fills(
                side,
                own,
                opposite,
                order.price,
                order.quantity as nat,
                order.order_id,
                book.seq + 2,
            );
            let item = BookView::resting(order, m.left);
            lemma_nameless_enqueued(own, side, item);
            let k = model::lemma_enqueued(own, side, item);
            assert(own.insert(k, item).len() == own.len() + 1);
            assert(nameless(model::enqueued(own, side, item)).len() == nameless(own).len() + 1);
        }
    }
}

/// The event of a cancellation is public if and only if it changes the visible book.
pub proof fn law_cancellation_is_public_if_it_changes_the_book(book: BookView, id: OrderId)
    requires
        book.valid(),
    ensures
        book.cancel_event(id).is_public() <==> applied(public_book(book), book.cancel_event(id))
            != public_book(book),
{
    if book.contains(id) {
        let side = book.side_of(id);
        let queue = book.queue(side);
        let n = choose|n: int| 0 <= n < queue.len() && (#[trigger] queue[n]).order.order_id == id;
        model::lemma_take_out(queue, n);
        lemma_nameless_those(queue, model::other_than(id));
        assert(nameless(queue.remove(n)).len() == nameless(queue).len() - 1);
    }
}

} // verus!
