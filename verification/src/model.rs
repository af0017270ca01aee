//! The mathematical model of an order book: two queues in price-time priority.
use vstd::prelude::*;

use crate::types::{
    BookEvent, Execution, Level, NewOrder, OrderId, Price, Quantity, RejectReason, RestingOrder, Sequence, Side,
};

verus! {

/// A resting order together with the price it rests at.
pub struct Queued {
    pub price: Price,
    pub order: RestingOrder,
}

/// Whether, for an order resting on `side`, price `a` is at least as good as price `b`: bids are
/// better when higher, asks when lower.
pub open spec fn no_worse(side: Side, a: Price, b: Price) -> bool {
    match side {
        Side::Buy => a.0 >= b.0,
        Side::Sell => a.0 <= b.0,
    }
}

/// Whether price `a` is strictly better than price `b` for an order resting on `side`.
pub open spec fn better(side: Side, a: Price, b: Price) -> bool {
    !no_worse(side, b, a)
}

/// Part of a resting order that was executed; `maker` is that order as it stood before.
pub struct Fill {
    pub maker: Queued,
    pub quantity: Quantity,
}

/// What is left when an incoming order has met a queue.
pub struct Matched {
    pub fills: Seq<Fill>,
    pub left: nat,
    pub queue: Seq<Queued>,
}

pub open spec fn least(a: nat, b: nat) -> nat {
    if a <= b {
        a
    } else {
        b
    }
}

/// Meets `queue`, resting on `side`, with an incoming order for `quantity` at `limit`. The head of
/// the queue is filled first; matching stops when the incoming quantity or the queue is used up, or
/// when the head's price does not reach the limit.
pub open spec fn matched(queue: Seq<Queued>, side: Side, limit: Price, quantity: nat) -> Matched
    decreases queue.len(),
{
    if quantity == 0 || queue.len() == 0 || !no_worse(side, queue[0].price, limit) {
        Matched { fills: seq![], left: quantity, queue }
    } else {
        let head = queue[0];
        let traded = least(quantity, head.order.quantity as nat);
        let fill = Fill { maker: head, quantity: traded as u64 };
        if traded < head.order.quantity {
            let rest = RestingOrder { quantity: (head.order.quantity - traded) as u64, ..head.order };
            Matched {
                fills: seq![fill],
                left: 0,
                queue: queue.update(0, Queued { order: rest, ..head }),
            }
        } else {
            let m = matched(queue.drop_first(), side, limit, (quantity - traded) as nat);
            Matched { fills: seq![fill] + m.fills, ..m }
        }
    }
}

/// A limit that is looser for the incoming order gives it no fewer fills.
pub proof fn lemma_looser_limit(queue: Seq<Queued>, side: Side, tight: Price, loose: Price, quantity: nat)
    requires
        no_worse(side, tight, loose),
    ensures
        matched(queue, side, tight, quantity).fills.len() <= matched(queue, side, loose, quantity).fills.len(),
    decreases queue.len(),
{
    if quantity > 0 && queue.len() > 0 && no_worse(side, queue[0].price, tight) {
        let traded = least(quantity, queue[0].order.quantity as nat);
        lemma_looser_limit(queue.drop_first(), side, tight, loose, (quantity - traded) as nat);
    }
}

/// The elements of `s` that satisfy `p`, in their order.
pub open spec fn those<A>(s: Seq<A>, p: spec_fn(A) -> bool) -> Seq<A>
    decreases s.len(),
{
    if s.len() == 0 {
        seq![]
    } else if p(s.last()) {
        those(s.drop_last(), p).push(s.last())
    } else {
        those(s.drop_last(), p)
    }
}

/// Whether a queued order has a price at least as good as `price`.
pub open spec fn ahead_of(side: Side, price: Price) -> spec_fn(Queued) -> bool {
    |q: Queued| no_worse(side, q.price, price)
}

/// Whether a queued order has a price worse than `price`.
pub open spec fn behind(side: Side, price: Price) -> spec_fn(Queued) -> bool {
    |q: Queued| !no_worse(side, q.price, price)
}

/// Puts `item` behind every order of `queue` with the same or a better price, and before every
/// order with a worse one.
pub open spec fn enqueued(queue: Seq<Queued>, side: Side, item: Queued) -> Seq<Queued> {
    those(queue, ahead_of(side, item.price)).push(item) + those(queue, behind(side, item.price))
}

pub open spec fn with_id(id: OrderId) -> spec_fn(Queued) -> bool {
    |q: Queued| q.order.order_id == id
}

pub open spec fn other_than(id: OrderId) -> spec_fn(Queued) -> bool {
    |q: Queued| q.order.order_id != id
}

/// Whether an order with this id is in the queue.
pub open spec fn holds(queue: Seq<Queued>, id: OrderId) -> bool {
    exists|i: int| 0 <= i < queue.len() && (#[trigger] queue[i]).order.order_id == id
}

/// The order with this id, where the queue holds one.
pub open spec fn found(queue: Seq<Queued>, id: OrderId) -> Queued {
    those(queue, with_id(id))[0]
}

/// The sum of the quantities of a queue.
pub open spec fn total(queue: Seq<Queued>) -> nat
    decreases queue.len(),
{
    if queue.len() == 0 {
        0
    } else {
        queue[0].order.quantity as nat + total(queue.drop_first())
    }
}

/// The total quantity at one price.
pub struct LevelTotal {
    pub price: Price,
    pub quantity: nat,
}

/// The levels of a queue: orders that follow each other at one price form a level.
pub open spec fn price_levels(queue: Seq<Queued>) -> Seq<LevelTotal>
    decreases queue.len(),
{
    if queue.len() == 0 {
        seq![]
    } else {
        let head = LevelTotal { price: queue[0].price, quantity: queue[0].order.quantity as nat };
        let rest = price_levels(queue.drop_first());
        if rest.len() > 0 && rest[0].price == head.price {
            rest.update(0, LevelTotal { quantity: head.quantity + rest[0].quantity, ..head })
        } else {
            seq![head] + rest
        }
    }
}

/// The best `depth` levels of a queue.
pub open spec fn visible(queue: Seq<Queued>, depth: nat) -> Seq<LevelTotal> {
    let all = price_levels(queue);
    if depth < all.len() {
        all.take(depth as int)
    } else {
        all
    }
}

/// Whether the totals of the best `depth` levels fit a `Quantity`.
pub open spec fn visible_fit(queue: Seq<Queued>, depth: nat) -> bool {
    forall|i: int|
        0 <= i < visible(queue, depth).len() ==> (#[trigger] visible(queue, depth)[i]).quantity <= u64::MAX
}

/// Whether the totals of all levels fit a `Quantity`.
pub open spec fn levels_fit(queue: Seq<Queued>) -> bool {
    forall|i: int|
        0 <= i < price_levels(queue).len() ==> (#[trigger] price_levels(queue)[i]).quantity <= u64::MAX
}

/// Where all totals fit, those of the best levels do.
pub proof fn lemma_visible_fit(queue: Seq<Queued>, depth: nat)
    requires
        levels_fit(queue),
    ensures
        visible_fit(queue, depth),
{
    assert forall|i: int| 0 <= i < visible(queue, depth).len() implies (
    #[trigger] visible(queue, depth)[i]).quantity <= u64::MAX by {
        assert(price_levels(queue)[i].quantity <= u64::MAX);
    }
}

/// The best `depth` levels of a queue, as a snapshot lists them.
pub open spec fn shown_levels(queue: Seq<Queued>, depth: nat) -> Seq<Level> {
    let all = visible(queue, depth);
    Seq::new(all.len(), |i: int| Level { price: all[i].price, quantity: all[i].quantity as u64 })
}

/// Whether `levels` are the best `depth` levels of a queue.
pub open spec fn shows(levels: Seq<Level>, queue: Seq<Queued>, depth: nat) -> bool {
    &&& levels.len() == visible(queue, depth).len()
    &&& forall|i: int|
        0 <= i < levels.len() ==> (#[trigger] levels[i]).price == visible(queue, depth)[i].price
            && levels[i].quantity == visible(queue, depth)[i].quantity
}

/// Best price first.
pub open spec fn in_priority(queue: Seq<Queued>, side: Side) -> bool {
    forall|i: int, j: int|
        0 <= i <= j < queue.len() ==> no_worse(side, (#[trigger] queue[i]).price, (#[trigger] queue[j]).price)
}

/// No two orders share an id.
pub open spec fn distinct_ids(queue: Seq<Queued>) -> bool {
    forall|i: int, j: int|
        0 <= i < j < queue.len() ==> (#[trigger] queue[i]).order.order_id != (#[trigger] queue[j]).order.order_id
}

/// Every order has something left to trade.
pub open spec fn all_open(queue: Seq<Queued>) -> bool {
    forall|i: int| 0 <= i < queue.len() ==> (#[trigger] queue[i]).order.quantity > 0
}

/// An order book: both sides as queues, best order first, and the last sequence number given out.
pub struct BookView {
    pub seq: Sequence,
    pub bids: Seq<Queued>,
    pub asks: Seq<Queued>,
}

/// The events of the executions that `fills` stand for, numbered from `first`.
pub open spec fn executions(fills: Seq<Fill>, aggressor: OrderId, first: int) -> Seq<BookEvent> {
    Seq::new(
        fills.len(),
        |j: int|
            BookEvent::Executed {
                seq: (first + j) as u64,
                execution: Execution {
                    resting_order_id: fills[j].maker.order.order_id,
                    aggressing_order_id: aggressor,
                    price: fills[j].maker.price,
                    quantity: fills[j].quantity,
                },
            },
    )
}

impl BookView {
    pub open spec fn empty() -> BookView {
        BookView { seq: 0, bids: seq![], asks: seq![] }
    }

    pub open spec fn queue(self, side: Side) -> Seq<Queued> {
        match side {
            Side::Buy => self.bids,
            Side::Sell => self.asks,
        }
    }

    pub open spec fn with_queue(self, side: Side, queue: Seq<Queued>) -> BookView {
        match side {
            Side::Buy => BookView { bids: queue, ..self },
            Side::Sell => BookView { asks: queue, ..self },
        }
    }

    /// The book after `count` more sequence numbers were given out.
    pub open spec fn advanced(self, count: nat) -> BookView {
        BookView { seq: (self.seq + count) as u64, ..self }
    }

    pub open spec fn contains(self, id: OrderId) -> bool {
        holds(self.bids, id) || holds(self.asks, id)
    }

    /// The side on which an order of the book rests.
    pub open spec fn side_of(self, id: OrderId) -> Side {
        if holds(self.bids, id) {
            Side::Buy
        } else {
            Side::Sell
        }
    }

    /// What every operation keeps: both sides in price-time priority, no order without quantity,
    /// every id in one place only, and no bid that reaches an ask.
    pub open spec fn valid(self) -> bool {
        &&& in_priority(self.bids, Side::Buy)
        &&& in_priority(self.asks, Side::Sell)
        &&& all_open(self.bids)
        &&& all_open(self.asks)
        &&& distinct_ids(self.bids)
        &&& distinct_ids(self.asks)
        &&& forall|i: int, j: int|
            0 <= i < self.bids.len() && 0 <= j < self.asks.len() ==> (
            #[trigger] self.bids[i]).order.order_id != (#[trigger] self.asks[j]).order.order_id
        &&& forall|i: int, j: int|
            0 <= i < self.bids.len() && 0 <= j < self.asks.len() ==> (#[trigger] self.bids[i]).price.0 < (
            #[trigger] self.asks[j]).price.0
    }

    /// The sequence numbers that are left suffice for any one command, even for one that fills
    /// every resting order and replaces another.
    pub open spec fn has_room(self) -> bool {
        self.seq + self.bids.len() + self.asks.len() + 3 <= u64::MAX
    }

    /// The reason for which the book refuses `order`, if it does.
    pub open spec fn refusal(self, order: NewOrder) -> Option<RejectReason> {
        if order.quantity == 0 {
            Some(RejectReason::ZeroQuantity)
        } else if self.contains(order.order_id) {
            Some(RejectReason::DuplicateOrderId)
        } else {
            None
        }
    }

    /// The event and the book after a request about order `id` was refused.
    pub open spec fn after_reject(self) -> BookView {
        self.advanced(1)
    }

    pub open spec fn reject_event(self, id: OrderId, reason: RejectReason) -> BookEvent {
        BookEvent::Rejected { seq: (self.seq + 1) as u64, order_id: id, reason }
    }

    /// How an accepted `order` meets the opposite side.
    pub open spec fn matching(self, order: NewOrder) -> Matched {
        matched(self.queue(order.side.other()), order.side.other(), order.price, order.quantity as nat)
    }

    /// The part of `order` that rests when `left` of it was not executed.
    pub open spec fn resting(order: NewOrder, left: nat) -> Queued {
        Queued {
            price: order.price,
            order: RestingOrder {
                order_id: order.order_id,
                account_id: order.account_id,
                quantity: left as u64,
            },
        }
    }

    /// All events of submitting `order`.
    pub open spec fn submit_events(self, order: NewOrder) -> Seq<BookEvent> {
        match self.refusal(order) {
            Some(reason) => seq![self.reject_event(order.order_id, reason)],
            None => {
                let m = self.matching(order);
                let accepted = seq![
                    BookEvent::Accepted { seq: (self.seq + 1) as u64, order_id: order.order_id },
                ];
                let traded = executions(m.fills, order.order_id, self.seq + 2);
                let rested = if m.left > 0 {
                    seq![
                        BookEvent::Rested {
                            seq: (self.seq + 2 + m.fills.len()) as u64,
                            order_id: order.order_id,
                            side: order.side,
                            price: order.price,
                            quantity: m.left as u64,
                        },
                    ]
                } else {
                    seq![]
                };
                accepted + traded + rested
            },
        }
    }

    /// The book after `order` was submitted.
    pub open spec fn submitted(self, order: NewOrder) -> BookView {
        let count = self.submit_events(order).len();
        match self.refusal(order) {
            Some(_) => self.advanced(count),
            None => {
                let m = self.matching(order);
                let met = self.with_queue(order.side.other(), m.queue);
                let own = self.queue(order.side);
                let kept = if m.left > 0 {
                    enqueued(own, order.side, BookView::resting(order, m.left))
                } else {
                    own
                };
                met.with_queue(order.side, kept).advanced(count)
            },
        }
    }

    /// The event of cancelling order `id`.
    pub open spec fn cancel_event(self, id: OrderId) -> BookEvent {
        if holds(self.bids, id) {
            let q = found(self.bids, id);
            BookEvent::Canceled {
                seq: (self.seq + 1) as u64,
                order_id: id,
                side: Side::Buy,
                price: q.price,
                quantity: q.order.quantity,
            }
        } else if holds(self.asks, id) {
            let q = found(self.asks, id);
            BookEvent::Canceled {
                seq: (self.seq + 1) as u64,
                order_id: id,
                side: Side::Sell,
                price: q.price,
                quantity: q.order.quantity,
            }
        } else {
            self.reject_event(id, RejectReason::UnknownOrderId)
        }
    }

    /// The book after order `id` was cancelled: no order with that id is left.
    pub open spec fn cancelled(self, id: OrderId) -> BookView {
        BookView {
            seq: (self.seq + 1) as u64,
            bids: those(self.bids, other_than(id)),
            asks: those(self.asks, other_than(id)),
        }
    }
}

pub proof fn lemma_those_concat<A>(a: Seq<A>, b: Seq<A>, p: spec_fn(A) -> bool)
    ensures
        those(a + b, p) == those(a, p) + those(b, p),
    decreases b.len(),
{
    if b.len() == 0 {
        assert(a + b =~= a);
        assert(those(a, p) + those(b, p) =~= those(a, p));
    } else {
        lemma_those_concat(a, b.drop_last(), p);
        assert((a + b).drop_last() =~= a + b.drop_last());
        assert(those(a, p) + those(b, p) =~= those(a + b, p));
    }
}

pub proof fn lemma_those_all<A>(s: Seq<A>, p: spec_fn(A) -> bool)
    requires
        forall|i: int| 0 <= i < s.len() ==> p(#[trigger] s[i]),
    ensures
        those(s, p) == s,
    decreases s.len(),
{
    if s.len() > 0 {
        let rest = s.drop_last();
        assert forall|i: int| 0 <= i < rest.len() implies p(#[trigger] rest[i]) by {
            assert(p(s[i]));
        }
        lemma_those_all(rest, p);
        assert(rest.push(s.last()) =~= s);
    }
}

pub proof fn lemma_those_none<A>(s: Seq<A>, p: spec_fn(A) -> bool)
    requires
        forall|i: int| 0 <= i < s.len() ==> !p(#[trigger] s[i]),
    ensures
        those(s, p) == Seq::<A>::empty(),
    decreases s.len(),
{
    if s.len() > 0 {
        let rest = s.drop_last();
        assert forall|i: int| 0 <= i < rest.len() implies !p(#[trigger] rest[i]) by {
            assert(!p(s[i]));
        }
        lemma_those_none(rest, p);
    }
}

/// Where ids are distinct, taking out an id takes out the one order that has it.
pub proof fn lemma_take_out(queue: Seq<Queued>, n: int)
    requires
        distinct_ids(queue),
        0 <= n < queue.len(),
    ensures
        those(queue, other_than(queue[n].order.order_id)) == queue.remove(n),
        those(queue, with_id(queue[n].order.order_id)) == seq![queue[n]],
        found(queue, queue[n].order.order_id) == queue[n],
{
    let id = queue[n].order.order_id;
    let a = queue.take(n);
    let x = seq![queue[n]];
    let b = queue.skip(n + 1);
    assert(queue =~= a + x + b);
    lemma_those_concat(a + x, b, other_than(id));
    lemma_those_concat(a, x, other_than(id));
    lemma_those_concat(a + x, b, with_id(id));
    lemma_those_concat(a, x, with_id(id));
    lemma_those_all(a, other_than(id));
    lemma_those_all(b, other_than(id));
    lemma_those_none(x, other_than(id));
    lemma_those_none(a, with_id(id));
    lemma_those_none(b, with_id(id));
    lemma_those_all(x, with_id(id));
    assert(those(queue, other_than(id)) =~= queue.remove(n));
    assert(those(queue, with_id(id)) =~= seq![queue[n]]);
}

/// Taking out an id that is not there changes nothing.
pub proof fn lemma_take_out_absent(queue: Seq<Queued>, id: OrderId)
    requires
        !holds(queue, id),
    ensures
        those(queue, other_than(id)) == queue,
{
    lemma_those_all(queue, other_than(id));
}

/// The first level of a queue has the price of its first order.
pub proof fn lemma_first_level(queue: Seq<Queued>)
    ensures
        price_levels(queue).len() == 0 <==> queue.len() == 0,
        queue.len() > 0 ==> price_levels(queue)[0].price == queue[0].price,
    decreases queue.len(),
{
    if queue.len() > 0 {
        lemma_first_level(queue.drop_first());
    }
}

/// Orders at one price, followed by orders that start at another price, form a level of their own.
pub proof fn lemma_own_level(level: Seq<Queued>, rest: Seq<Queued>, price: Price)
    requires
        level.len() > 0,
        forall|i: int| 0 <= i < level.len() ==> (#[trigger] level[i]).price == price,
        rest.len() > 0 ==> rest[0].price != price,
    ensures
        price_levels(level + rest) == seq![LevelTotal { price, quantity: total(level) }]
            + price_levels(rest),
    decreases level.len(),
{
    let queue = level + rest;
    let tail = level.drop_first();
    assert(queue.drop_first() =~= tail + rest);
    assert(queue[0] == level[0]);
    if tail.len() == 0 {
        assert(tail + rest =~= rest);
        lemma_first_level(rest);
        assert(total(tail) == 0);
    } else {
        lemma_own_level(tail, rest, price);
        let below = seq![LevelTotal { price, quantity: total(tail) }] + price_levels(rest);
        assert(below.update(0, LevelTotal { price, quantity: total(level) }) =~= seq![
            LevelTotal { price, quantity: total(level) },
        ] + price_levels(rest));
    }
}

/// The sum of the quantities of fills.
pub open spec fn filled(fills: Seq<Fill>) -> nat
    decreases fills.len(),
{
    if fills.len() == 0 {
        0
    } else {
        fills[0].quantity as nat + filled(fills.drop_first())
    }
}

/// How matching uses up a queue: the fills go through the queue from its head, each for the whole
/// order but perhaps the last; what stays of the queue is its tail, whose head may be smaller; and
/// a quantity that is left over finds no order at its limit any more.
pub proof fn lemma_matched(queue: Seq<Queued>, side: Side, limit: Price, quantity: nat)
    requires
        all_open(queue),
        quantity <= u64::MAX,
    ensures
        ({
            let m = matched(queue, side, limit, quantity);
            let k = queue.len() - m.queue.len();
            &&& k >= 0
            &&& m.left <= quantity
            &&& filled(m.fills) + m.left == quantity
            &&& m.fills.len() == k || m.fills.len() == k + 1
            &&& forall|j: int|
                0 <= j < m.fills.len() ==> (#[trigger] m.fills[j]).maker == queue[j] && no_worse(
                    side,
                    queue[j].price,
                    limit,
                ) && 0 < m.fills[j].quantity <= queue[j].order.quantity
            &&& forall|j: int| 0 <= j < k ==> (#[trigger] m.fills[j]).quantity == queue[j].order.quantity
            &&& m.fills.len() == k + 1 ==> {
                &&& m.left == 0
                &&& m.queue.len() > 0
                &&& m.fills[k].quantity < queue[k].order.quantity
                &&& m.queue[0] == Queued {
                    order: RestingOrder {
                        quantity: (queue[k].order.quantity - m.fills[k].quantity) as u64,
                        ..queue[k].order
                    },
                    ..queue[k]
                }
            }
            &&& m.fills.len() == k && m.queue.len() > 0 ==> m.queue[0] == queue[k]
            &&& forall|i: int| 0 < i < m.queue.len() ==> #[trigger] m.queue[i] == queue[k + i]
            &&& m.left > 0 && m.queue.len() > 0 ==> !no_worse(side, m.queue[0].price, limit)
        }),
    decreases queue.len(),
{
    let m = matched(queue, side, limit, quantity);
    if quantity == 0 || queue.len() == 0 || !no_worse(side, queue[0].price, limit) {
    } else {
        let head = queue[0];
        let traded = least(quantity, head.order.quantity as nat);
        let fill = Fill { maker: head, quantity: traded as u64 };
        if traded < head.order.quantity {
            assert(m.fills =~= seq![fill]);
            assert(m.fills.drop_first() =~= seq![]);
            assert(filled(m.fills.drop_first()) == 0);
            assert(filled(m.fills) == traded);
            assert(m.queue.len() == queue.len());
            assert(forall|i: int| 0 < i < queue.len() ==> #[trigger] m.queue[i] == queue[i]);
        } else {
            let rest = queue.drop_first();
            lemma_matched(rest, side, limit, (quantity - traded) as nat);
            let n = matched(rest, side, limit, (quantity - traded) as nat);
            assert(m.fills.drop_first() =~= n.fills);
            assert(m.fills[0] == fill && m.queue == n.queue && m.left == n.left);
            assert(filled(m.fills) == traded + filled(n.fills));
            let k = rest.len() - n.queue.len();
            if m.fills.len() == k + 2 {
                assert(m.fills[k + 1] == n.fills[k]);
                assert(queue[k + 1] == rest[k]);
            }
            if n.queue.len() > 0 {
                assert(queue[k + 1] == rest[k]);
            }
            assert forall|j: int| 0 <= j < m.fills.len() implies (#[trigger] m.fills[j]).maker == queue[j]
                && no_worse(side, queue[j].price, limit) && 0 < m.fills[j].quantity
                <= queue[j].order.quantity by {
                if j > 0 {
                    assert(m.fills[j] == n.fills[j - 1]);
                }
            }
            assert forall|j: int| 0 <= j < k + 1 implies (#[trigger] m.fills[j]).quantity
                == queue[j].order.quantity by {
                if j > 0 {
                    assert(m.fills[j] == n.fills[j - 1]);
                }
            }
            assert forall|i: int| 0 < i < m.queue.len() implies #[trigger] m.queue[i] == queue[k + 1 + i] by {
                assert(n.queue[i] == rest[k + i]);
            }
        }
    }
}

/// In a queue in priority, an order goes between the prices that are at least as good as its own
/// and the worse ones.
pub proof fn lemma_enqueued(queue: Seq<Queued>, side: Side, item: Queued) -> (k: int)
    requires
        in_priority(queue, side),
    ensures
        0 <= k <= queue.len(),
        enqueued(queue, side, item) == queue.insert(k, item),
        forall|i: int| 0 <= i < k ==> no_worse(side, (#[trigger] queue[i]).price, item.price),
        forall|i: int| k <= i < queue.len() ==> !no_worse(side, (#[trigger] queue[i]).price, item.price),
{
    let k = lemma_priority_cut(queue, side, item.price);
    assert(enqueued(queue, side, item) =~= queue.insert(k, item));
    k
}

proof fn lemma_priority_cut(queue: Seq<Queued>, side: Side, price: Price) -> (k: int)
    requires
        in_priority(queue, side),
    ensures
        0 <= k <= queue.len(),
        those(queue, ahead_of(side, price)) == queue.take(k),
        those(queue, behind(side, price)) == queue.skip(k),
        forall|i: int| 0 <= i < k ==> no_worse(side, (#[trigger] queue[i]).price, price),
        forall|i: int| k <= i < queue.len() ==> !no_worse(side, (#[trigger] queue[i]).price, price),
    decreases queue.len(),
{
    if queue.len() == 0 {
        assert(queue.take(0) =~= queue);
        assert(queue.skip(0) =~= queue);
        0
    } else if no_worse(side, queue.last().price, price) {
        assert forall|i: int| 0 <= i < queue.len() implies ahead_of(side, price)(#[trigger] queue[i]) by {
            assert(no_worse(side, queue[i].price, queue[queue.len() - 1].price));
        }
        lemma_those_all(queue, ahead_of(side, price));
        lemma_those_none(queue, behind(side, price));
        assert(queue.take(queue.len() as int) =~= queue);
        assert(queue.skip(queue.len() as int) =~= seq![]);
        queue.len() as int
    } else {
        let rest = queue.drop_last();
        let k = lemma_priority_cut(rest, side, price);
        assert(queue.take(k) =~= rest.take(k));
        assert(queue.skip(k) =~= rest.skip(k).push(queue.last()));
        assert forall|i: int| 0 <= i < k implies no_worse(side, (#[trigger] queue[i]).price, price) by {
            assert(rest[i] == queue[i]);
        }
        assert forall|i: int| k <= i < queue.len() implies !no_worse(side, (#[trigger] queue[i]).price, price) by {
            if i < rest.len() {
                assert(rest[i] == queue[i]);
            }
        }
        k
    }
}

/// The numbering of executions goes on from one run of fills to the next.
pub proof fn lemma_executions_concat(a: Seq<Fill>, b: Seq<Fill>, aggressor: OrderId, first: int)
    ensures
        executions(a + b, aggressor, first) == executions(a, aggressor, first) + executions(
            b,
            aggressor,
            first + a.len(),
        ),
{
    assert(executions(a + b, aggressor, first) =~= executions(a, aggressor, first) + executions(
        b,
        aggressor,
        first + a.len(),
    ));
}

} // verus!
