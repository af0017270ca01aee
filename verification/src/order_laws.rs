//! What an order does to a book and to a venue, told by its terms and by what rests before it.
use vstd::prelude::*;

use crate::model;
use crate::model::{BookView, Fill, Matched, Queued};
use crate::types::{
    BookEvent, Execution, InstrumentId, NewOrder, OrderId, Price, RejectReason, RestingOrder, Side,
};
use crate::validity;
use crate::venue_model::VenueView;

verus! {

/// No order of a queue has this id.
pub open spec fn unused(queue: Seq<Queued>, id: OrderId) -> bool {
    forall|i: int| 0 <= i < queue.len() ==> (#[trigger] queue[i]).order.order_id != id
}

/// What an order has to have available: a purchase its notional at the limit and the taker fee on
/// it, a sale its quantity.
pub open spec fn needed(order: NewOrder, taker_fee_bps: nat) -> nat {
    let notional = order.price.0 as nat * order.quantity as nat;
    match order.side {
        Side::Buy => notional + notional * taker_fee_bps / 10_000,
        Side::Sell => order.quantity as nat,
    }
}

/// A venue accepts an order if and only if it has a quantity and a new id, keeps to the tick, the
/// step and the minimum notional, and its account has available what it needs, whatever else the
/// account has set aside. A refused order has one event, which names the first of these that it
/// fails.
pub proof fn law_order_is_accepted_when_it_keeps_the_terms(venue: VenueView, id: InstrumentId, order: NewOrder)
    requires
        venue.lists(id),
    ensures
        ({
            let book = venue.books[id as int];
            let terms = venue.config.instruments[id as int];
            let events = venue.submit_events(id, order);
            let new = unused(book.bids, order.order_id) && unused(book.asks, order.order_id);
            let asset = if order.side is Buy {
                terms.quote
            } else {
                terms.base
            };
            let enough = venue.ledger.available(order.account_id, asset) >= needed(
                order,
                terms.taker_fee_bps as nat,
            );
            let accepted = order.quantity > 0 && new && order.price.0 % terms.price_tick == 0
                && order.quantity % terms.quantity_step == 0 && order.price.0 * order.quantity
                >= terms.min_notional && enough;
            let first = (book.seq + 1) as u64;
            &&& accepted <==> events[0] == (BookEvent::Accepted { seq: first, order_id: order.order_id })
            &&& !accepted ==> events == seq![
                BookEvent::Rejected {
                    seq: first,
                    order_id: order.order_id,
                    reason: if order.quantity == 0 {
                        RejectReason::ZeroQuantity
                    } else if !new {
                        RejectReason::DuplicateOrderId
                    } else if order.price.0 % terms.price_tick != 0 {
                        RejectReason::InvalidPriceTick
                    } else if order.quantity % terms.quantity_step != 0 {
                        RejectReason::InvalidQuantityStep
                    } else if order.price.0 * order.quantity < terms.min_notional {
                        RejectReason::BelowMinNotional
                    } else {
                        RejectReason::InsufficientBalance
                    },
                },
            ]
        }),
{
}

/// A book on its own accepts every order with a quantity and a new id.
pub proof fn law_book_accepts_new_orders(book: BookView, order: NewOrder)
    ensures
        ({
            let events = book.submit_events(order);
            let new = unused(book.bids, order.order_id) && unused(book.asks, order.order_id);
            let first = (book.seq + 1) as u64;
            &&& order.quantity > 0 && new <==> events[0] == (BookEvent::Accepted {
                seq: first,
                order_id: order.order_id,
            })
            &&& !(order.quantity > 0 && new) ==> events == seq![
                BookEvent::Rejected {
                    seq: first,
                    order_id: order.order_id,
                    reason: if order.quantity == 0 {
                        RejectReason::ZeroQuantity
                    } else {
                        RejectReason::DuplicateOrderId
                    },
                },
            ]
        }),
{
}

/// What the first `n` orders of a queue come to.
pub open spec fn ahead(queue: Seq<Queued>, n: nat) -> nat
    decreases n,
{
    if n == 0 {
        0
    } else {
        ahead(queue, (n - 1) as nat) + queue[n - 1].order.quantity as nat
    }
}

/// The orders that an order on `side` meets: those of the other side, best first.
pub open spec fn facing(book: BookView, side: Side) -> Seq<Queued> {
    match side {
        Side::Buy => book.asks,
        Side::Sell => book.bids,
    }
}

pub open spec fn own(book: BookView, side: Side) -> Seq<Queued> {
    match side {
        Side::Buy => book.bids,
        Side::Sell => book.asks,
    }
}

/// Whether an order on `side` with this limit trades at `price`.
pub open spec fn reaches(side: Side, limit: Price, price: Price) -> bool {
    match side {
        Side::Buy => price.0 <= limit.0,
        Side::Sell => price.0 >= limit.0,
    }
}

/// How much of an order is traded with number `j` of the queue that it meets: what is left of the
/// order, at most what that resting order has.
pub open spec fn traded_with(queue: Seq<Queued>, quantity: nat, j: nat) -> nat {
    let open = quantity - ahead(queue, j);
    if open <= queue[j as int].order.quantity {
        open as nat
    } else {
        queue[j as int].order.quantity as nat
    }
}

/// Exactly the first `n` orders of a queue trade with an order: each of them reaches the limit while
/// something of the order is left, and the next one does not, or nothing is left.
pub open spec fn trades_with(queue: Seq<Queued>, side: Side, limit: Price, quantity: nat, n: nat) -> bool {
    &&& n <= queue.len()
    &&& forall|j: int|
        0 <= j < n ==> reaches(side, limit, (#[trigger] queue[j]).price) && ahead(queue, j as nat) < quantity
    &&& n < queue.len() ==> !reaches(side, limit, queue[n as int].price) || ahead(queue, n) >= quantity
}

/// What is left of a quantity that met the first `n` orders of a queue.
pub open spec fn left_over(queue: Seq<Queued>, quantity: nat, n: nat) -> nat {
    if ahead(queue, n) >= quantity {
        0
    } else {
        (quantity - ahead(queue, n)) as nat
    }
}

/// What is left of a queue of which the first `n` orders met a quantity: the last of them stays
/// where it was not used up.
pub open spec fn left_of_queue(queue: Seq<Queued>, quantity: nat, n: nat) -> Seq<Queued> {
    if ahead(queue, n) <= quantity {
        queue.skip(n as int)
    } else {
        let last = queue[n - 1];
        let rest = RestingOrder { quantity: (ahead(queue, n) - quantity) as u64, ..last.order };
        queue.skip(n - 1).update(0, Queued { order: rest, ..last })
    }
}

/// An order went into a queue behind every order with a price as good as its own, and before every
/// other one.
pub open spec fn lined_up(before: Seq<Queued>, side: Side, item: Queued, after: Seq<Queued>) -> bool {
    exists|k: int|
        #![trigger before.insert(k, item)]
        {
            &&& 0 <= k <= before.len()
            &&& after == before.insert(k, item)
            &&& forall|i: int|
                0 <= i < k ==> (if side is Buy {
                    (#[trigger] before[i]).price.0 >= item.price.0
                } else {
                    before[i].price.0 <= item.price.0
                })
            &&& forall|i: int|
                k <= i < before.len() ==> (if side is Buy {
                    (#[trigger] before[i]).price.0 < item.price.0
                } else {
                    before[i].price.0 > item.price.0
                })
        }
}

/// What an accepted order comes to, when it trades with the first `n` orders of the other side: one
/// event for its acceptance, one for each trade, at the price of the resting order, and one for what
/// rests of it; the book gives up what was traded and takes what rests.
pub open spec fn plays_out(
    book: BookView,
    order: NewOrder,
    n: nat,
    events: Seq<BookEvent>,
    after: BookView,
) -> bool {
    let queue = facing(book, order.side);
    let quantity = order.quantity as nat;
    let left = left_over(queue, quantity, n);
    &&& trades_with(queue, order.side, order.price, quantity, n)
    &&& events.len() == 1 + n + (if left > 0 {
        1int
    } else {
        0
    })
    &&& events[0] == (BookEvent::Accepted { seq: (book.seq + 1) as u64, order_id: order.order_id })
    &&& forall|j: int|
        0 <= j < n ==> #[trigger] events[1 + j] == (BookEvent::Executed {
            seq: (book.seq + 2 + j) as u64,
            execution: Execution {
                resting_order_id: queue[j].order.order_id,
                aggressing_order_id: order.order_id,
                price: queue[j].price,
                quantity: traded_with(queue, quantity, j as nat) as u64,
            },
        })
    &&& left > 0 ==> events[1 + n as int] == (BookEvent::Rested {
        seq: (book.seq + 2 + n) as u64,
        order_id: order.order_id,
        side: order.side,
        price: order.price,
        quantity: left as u64,
    })
    &&& facing(after, order.side) == left_of_queue(queue, quantity, n)
    &&& left == 0 ==> own(after, order.side) == own(book, order.side)
    &&& left > 0 ==> lined_up(
        own(book, order.side),
        order.side,
        Queued {
            price: order.price,
            order: RestingOrder {
                order_id: order.order_id,
                account_id: order.account_id,
                quantity: left as u64,
            },
        },
        own(after, order.side),
    )
    &&& after.seq == (book.seq + events.len()) as u64
}

proof fn lemma_ahead_first(queue: Seq<Queued>, n: nat)
    requires
        0 < n <= queue.len(),
    ensures
        ahead(queue, n) == queue[0].order.quantity + ahead(queue.drop_first(), (n - 1) as nat),
    decreases n,
{
    if n > 1 {
        lemma_ahead_first(queue, (n - 1) as nat);
    } else {
        assert(ahead(queue, 0) == 0);
        assert(ahead(queue.drop_first(), 0) == 0);
    }
}

/// `m` is what matching makes of a queue: it trades with the orders of the queue from the first on,
/// as long as they reach the limit and something is left.
pub open spec fn matches_from_first(queue: Seq<Queued>, side: Side, limit: Price, quantity: nat, m: Matched) -> bool {
    let n = m.fills.len();
    &&& trades_with(queue, side, limit, quantity, n)
    &&& m.left == left_over(queue, quantity, n)
    &&& m.queue == left_of_queue(queue, quantity, n)
    &&& forall|j: int|
        0 <= j < n ==> #[trigger] m.fills[j] == (Fill {
            maker: queue[j],
            quantity: traded_with(queue, quantity, j as nat) as u64,
        })
}

/// An order that is used up is a trade for all of it, and then the rest of the queue is met.
proof fn lemma_first_used_up(queue: Seq<Queued>, side: Side, limit: Price, quantity: nat, rest: Matched)
    requires
        queue.len() > 0,
        queue[0].order.quantity > 0,
        queue[0].order.quantity <= quantity,
        quantity <= u64::MAX,
        reaches(side, limit, queue[0].price),
        matches_from_first(
            queue.drop_first(),
            side,
            limit,
            (quantity - queue[0].order.quantity) as nat,
            rest,
        ),
    ensures
        ({
            let fill = Fill { maker: queue[0], quantity: queue[0].order.quantity };
            let m = Matched { fills: seq![fill] + rest.fills, ..rest };
            matches_from_first(queue, side, limit, quantity, m)
        }),
{
    let tail = queue.drop_first();
    let size = queue[0].order.quantity as nat;
    let fill = Fill { maker: queue[0], quantity: queue[0].order.quantity };
    let m = Matched { fills: seq![fill] + rest.fills, ..rest };
    let n = m.fills.len();
    assert(ahead(queue, 0) == 0);
    assert forall|j: nat| 0 < j <= queue.len() implies #[trigger] ahead(queue, j) == size + ahead(
        tail,
        (j - 1) as nat,
    ) by {
        lemma_ahead_first(queue, j);
    }
    assert(trades_with(queue, side, limit, quantity, n)) by {
        assert forall|j: int| 0 <= j < n implies reaches(side, limit, (#[trigger] queue[j]).price) && ahead(
            queue,
            j as nat,
        ) < quantity by {
            if j > 0 {
                assert(queue[j] == tail[j - 1]);
            }
        }
        if n < queue.len() {
            assert(queue[n as int] == tail[n - 1]);
        }
    }
    assert forall|j: int| 0 <= j < n implies #[trigger] m.fills[j] == (Fill {
        maker: queue[j],
        quantity: traded_with(queue, quantity, j as nat) as u64,
    }) by {
        if j > 0 {
            assert(m.fills[j] == rest.fills[j - 1]);
            assert(queue[j] == tail[j - 1]);
        }
    }
    if ahead(queue, n) <= quantity {
        assert(queue.skip(n as int) =~= tail.skip(n - 1));
    } else {
        assert(n > 1);
        assert(queue[n - 1] == tail[n - 2]);
        assert(queue.skip(n - 1) =~= tail.skip(n - 2));
    }
}

/// Matching trades with the orders of a queue from the first on.
pub proof fn lemma_matching_plays_out(queue: Seq<Queued>, side: Side, limit: Price, quantity: nat)
    requires
        model::all_open(queue),
        quantity <= u64::MAX,
    ensures
        matches_from_first(queue, side, limit, quantity, model::matched(queue, side.other(), limit, quantity)),
    decreases queue.len(),
{
    let m = model::matched(queue, side.other(), limit, quantity);
    assert(ahead(queue, 0) == 0);
    if quantity == 0 || queue.len() == 0 || !model::no_worse(side.other(), queue[0].price, limit) {
        assert(queue.skip(0) =~= queue);
    } else {
        let tail = queue.drop_first();
        let size = queue[0].order.quantity as nat;
        if quantity < size {
            assert(ahead(queue, 1) == size);
            assert(m.fills.len() == 1);
            assert(queue.skip(0) =~= queue);
        } else {
            lemma_matching_plays_out(tail, side, limit, (quantity - size) as nat);
            let rest = model::matched(tail, side.other(), limit, (quantity - size) as nat);
            lemma_first_used_up(queue, side, limit, quantity, rest);
        }
    }
}

/// No two numbers of orders can both be the number with which an order trades.
pub proof fn lemma_trades_with_one_number(
    queue: Seq<Queued>,
    side: Side,
    limit: Price,
    quantity: nat,
    m: nat,
    n: nat,
)
    requires
        trades_with(queue, side, limit, quantity, m),
        trades_with(queue, side, limit, quantity, n),
    ensures
        m == n,
{
    if m < n {
        assert(reaches(side, limit, queue[m as int].price));
    }
    if n < m {
        assert(reaches(side, limit, queue[n as int].price));
    }
}

proof fn lemma_lined_up(queue: Seq<Queued>, side: Side, item: Queued)
    requires
        model::in_priority(queue, side),
    ensures
        lined_up(queue, side, item, model::enqueued(queue, side, item)),
{
    let k = model::lemma_enqueued(queue, side, item);
    assert(model::enqueued(queue, side, item) == queue.insert(k, item));
}

/// An accepted order plays out against the book: it trades at the prices of the resting orders, best
/// price first and oldest first, until it is used up or no price reaches its limit, and what is left
/// of it rests behind the orders of its price.
pub proof fn law_order_plays_out_in_price_time_priority(book: BookView, order: NewOrder) -> (n: nat)
    requires
        book.valid(),
        order.quantity > 0,
        unused(book.bids, order.order_id),
        unused(book.asks, order.order_id),
    ensures
        plays_out(book, order, n, book.submit_events(order), book.submitted(order)),
{
    let queue = facing(book, order.side);
    let m = book.matching(order);
    let n = m.fills.len();
    validity::lemma_sides_valid(book, order.side);
    lemma_matching_plays_out(queue, order.side, order.price, order.quantity as nat);
    if m.left > 0 {
        lemma_lined_up(own(book, order.side), order.side, BookView::resting(order, m.left));
    }
    n
}

/// On a venue an accepted order plays out against the book of its instrument in the same way, and
/// leaves all other books; a refused one takes a sequence number and changes nothing else.
pub proof fn law_venue_order_plays_out(venue: VenueView, id: InstrumentId, order: NewOrder) -> (n: nat)
    requires
        venue.valid(),
        venue.lists(id),
    ensures
        ({
            let book = venue.books[id as int];
            let after = venue.submitted(id, order);
            let events = venue.submit_events(id, order);
            &&& events[0] is Accepted ==> plays_out(book, order, n, events, after.books[id as int])
            &&& !(events[0] is Accepted) ==> {
                &&& after.ledger == venue.ledger
                &&& after.books[id as int].bids == book.bids
                &&& after.books[id as int].asks == book.asks
                &&& after.books[id as int].seq == (book.seq + 1) as u64
            }
            &&& after.config == venue.config
            &&& after.books.len() == venue.books.len()
            &&& forall|i: int| 0 <= i < venue.books.len() && i != id ==> #[trigger] after.books[i] == venue.books[i]
        }),
{
    let book = venue.books[id as int];
    assert(book.valid());
    law_order_is_accepted_when_it_keeps_the_terms(venue, id, order);
    if venue.refusal(id, order) is None {
        law_order_plays_out_in_price_time_priority(book, order)
    } else {
        0
    }
}

} // verus!
