//! One side of a book: price levels, each with its orders in arrival order.
use std::collections::VecDeque;
use vstd::prelude::*;

use crate::model;
use crate::model::{Fill, LevelTotal, Queued};
use crate::types::{Level, OrderId, Price, Quantity, RestingOrder, Side};

verus! {

/// The orders that rest at one price, oldest first.
#[derive(Debug)]
pub struct PriceLevel {
    pub price: Price,
    pub orders: VecDeque<RestingOrder>,
}

impl PriceLevel {
    pub open spec fn queue(self) -> Seq<Queued> {
        Seq::new(self.orders@.len(), |i: int| Queued { price: self.price, order: self.orders@[i] })
    }
}

/// The orders of all levels in priority: the last level is the best one and comes first.
pub open spec fn flat(levels: Seq<PriceLevel>) -> Seq<Queued>
    decreases levels.len(),
{
    if levels.len() == 0 {
        seq![]
    } else {
        levels.last().queue() + flat(levels.drop_last())
    }
}

/// Levels from the worst price to the best, none of them empty.
pub open spec fn ordered(levels: Seq<PriceLevel>, side: Side) -> bool {
    &&& forall|i: int| 0 <= i < levels.len() ==> (#[trigger] levels[i]).orders@.len() > 0
    &&& forall|i: int, j: int|
        0 <= i < j < levels.len() ==> model::better(
            side,
            (#[trigger] levels[j]).price,
            (#[trigger] levels[i]).price,
        )
}

/// The levels below `k`, level `k` and the levels above it, in priority.
pub proof fn lemma_flat_at(levels: Seq<PriceLevel>, k: int)
    requires
        0 <= k < levels.len(),
    ensures
        flat(levels) == flat(levels.skip(k + 1)) + levels[k].queue() + flat(levels.take(k)),
    decreases levels.len(),
{
    if k == levels.len() - 1 {
        assert(levels.take(k) =~= levels.drop_last());
        assert(levels.skip(k + 1) =~= seq![]);
        assert(flat(levels) =~= flat(levels.skip(k + 1)) + levels[k].queue() + flat(levels.take(k)));
    } else {
        let rest = levels.drop_last();
        lemma_flat_at(rest, k);
        assert(rest.take(k) =~= levels.take(k));
        assert(levels.skip(k + 1).drop_last() =~= rest.skip(k + 1));
        assert(flat(levels) =~= flat(levels.skip(k + 1)) + levels[k].queue() + flat(levels.take(k)));
    }
}

/// Every order of the flattened levels comes from some level, with that level's price.
pub proof fn lemma_flat_from(levels: Seq<PriceLevel>, n: int)
    requires
        0 <= n < flat(levels).len(),
    ensures
        exists|k: int|
            0 <= k < levels.len() && (#[trigger] levels[k]).price == flat(levels)[n].price,
    decreases levels.len(),
{
    let last = levels.last().queue();
    if n < last.len() {
        assert(flat(levels)[n] == last[n]);
        assert(levels[levels.len() - 1].price == flat(levels)[n].price);
    } else {
        let rest = levels.drop_last();
        assert(flat(levels)[n] == flat(rest)[n - last.len()]);
        lemma_flat_from(rest, n - last.len());
        let k = choose|k: int|
            0 <= k < rest.len() && (#[trigger] rest[k]).price == flat(rest)[n - last.len()].price;
        assert(levels[k].price == flat(levels)[n].price);
    }
}

/// Where the levels from `k` on are at least as good as `price` and the others are worse, they are
/// what an order at `price` has ahead of it and behind it.
pub proof fn lemma_enqueue_split(levels: Seq<PriceLevel>, side: Side, price: Price, k: int)
    requires
        0 <= k <= levels.len(),
        forall|i: int| k <= i < levels.len() ==> model::no_worse(side, (#[trigger] levels[i]).price, price),
        forall|i: int| 0 <= i < k ==> !model::no_worse(side, (#[trigger] levels[i]).price, price),
    ensures
        model::those(flat(levels), model::ahead_of(side, price)) == flat(levels.skip(k)),
        model::those(flat(levels), model::behind(side, price)) == flat(levels.take(k)),
{
    let good = flat(levels.skip(k));
    let bad = flat(levels.take(k));
    lemma_flat_split(levels, k);
    assert forall|n: int| 0 <= n < good.len() implies model::ahead_of(side, price)(#[trigger] good[n]) by {
        lemma_flat_from(levels.skip(k), n);
        let i = choose|i: int|
            0 <= i < levels.skip(k).len() && (#[trigger] levels.skip(k)[i]).price == good[n].price;
        assert(levels[k + i].price == good[n].price);
    }
    assert forall|n: int| 0 <= n < bad.len() implies model::behind(side, price)(#[trigger] bad[n]) by {
        lemma_flat_from(levels.take(k), n);
        let i = choose|i: int|
            0 <= i < levels.take(k).len() && (#[trigger] levels.take(k)[i]).price == bad[n].price;
        assert(levels[i].price == bad[n].price);
    }
    model::lemma_those_concat(good, bad, model::ahead_of(side, price));
    model::lemma_those_concat(good, bad, model::behind(side, price));
    model::lemma_those_all(good, model::ahead_of(side, price));
    model::lemma_those_none(bad, model::ahead_of(side, price));
    model::lemma_those_none(good, model::behind(side, price));
    model::lemma_those_all(bad, model::behind(side, price));
    assert(good + Seq::<Queued>::empty() =~= good);
    assert(Seq::<Queued>::empty() + bad =~= bad);
}

pub proof fn lemma_flat_split(levels: Seq<PriceLevel>, k: int)
    requires
        0 <= k <= levels.len(),
    ensures
        flat(levels) == flat(levels.skip(k)) + flat(levels.take(k)),
    decreases levels.len() - k,
{
    if k == levels.len() {
        assert(levels.skip(k) =~= seq![]);
        assert(levels.take(k) =~= levels);
        assert(flat(levels) =~= flat(levels.skip(k)) + flat(levels.take(k)));
    } else {
        lemma_flat_at(levels, k);
        lemma_flat_at(levels.skip(k), 0);
        assert(levels.skip(k).skip(1) =~= levels.skip(k + 1));
        assert(levels.skip(k).take(0) =~= seq![]);
        assert(flat(levels) =~= flat(levels.skip(k)) + flat(levels.take(k)));
    }
}

/// Adding an order at the end of level `k`, which has its price.
proof fn lemma_enqueue_existing(
    levels: Seq<PriceLevel>,
    now: Seq<PriceLevel>,
    side: Side,
    item: Queued,
    k: int,
)
    requires
        ordered(levels, side),
        0 <= k < levels.len(),
        levels[k].price == item.price,
        now.len() == levels.len(),
        forall|i: int| 0 <= i < levels.len() && i != k ==> #[trigger] now[i] == levels[i],
        now[k].price == levels[k].price,
        now[k].orders@ == levels[k].orders@.push(item.order),
    ensures
        ordered(now, side),
        flat(now) == model::enqueued(flat(levels), side, item),
{
    assert forall|i: int| k <= i < levels.len() implies model::no_worse(
        side,
        (#[trigger] levels[i]).price,
        item.price,
    ) by {
        if i > k {
            assert(model::better(side, levels[i].price, levels[k].price));
        }
    }
    assert forall|i: int| 0 <= i < k implies !model::no_worse(side, (#[trigger] levels[i]).price, item.price) by {
        assert(model::better(side, levels[k].price, levels[i].price));
    }
    lemma_enqueue_split(levels, side, item.price, k);
    lemma_flat_at(levels.skip(k), 0);
    assert(levels.skip(k).skip(1) =~= levels.skip(k + 1));
    assert(levels.skip(k).take(0) =~= seq![]);
    lemma_flat_at(now, k);
    assert(now.skip(k + 1) =~= levels.skip(k + 1));
    assert(now.take(k) =~= levels.take(k));
    assert(now[k].queue() =~= levels[k].queue().push(item));
    assert(flat(now) =~= model::enqueued(flat(levels), side, item));
    assert forall|i: int, j: int| 0 <= i < j < now.len() implies model::better(
        side,
        (#[trigger] now[j]).price,
        (#[trigger] now[i]).price,
    ) by {
        assert(model::better(side, levels[j].price, levels[i].price));
    }
}

/// Adding a new level for an order between the better and the worse levels.
proof fn lemma_enqueue_new(
    levels: Seq<PriceLevel>,
    now: Seq<PriceLevel>,
    side: Side,
    item: Queued,
    k: int,
)
    requires
        ordered(levels, side),
        0 <= k <= levels.len(),
        forall|i: int| k <= i < levels.len() ==> model::better(side, (#[trigger] levels[i]).price, item.price),
        k > 0 ==> model::better(side, item.price, levels[k - 1].price),
        now.len() == levels.len() + 1,
        now == levels.insert(k, now[k]),
        now[k].price == item.price,
        now[k].orders@ == seq![item.order],
    ensures
        ordered(now, side),
        flat(now) == model::enqueued(flat(levels), side, item),
{
    assert forall|i: int| 0 <= i < k implies model::better(side, item.price, (#[trigger] levels[i]).price) by {
        if i < k - 1 {
            assert(model::better(side, levels[k - 1].price, levels[i].price));
        }
    }
    lemma_enqueue_split(levels, side, item.price, k);
    lemma_flat_at(now, k);
    assert(now.skip(k + 1) =~= levels.skip(k));
    assert(now.take(k) =~= levels.take(k));
    assert(now[k].queue() =~= seq![item]);
    assert(flat(now) =~= model::enqueued(flat(levels), side, item));
    assert forall|i: int, j: int| 0 <= i < j < now.len() implies model::better(
        side,
        (#[trigger] now[j]).price,
        (#[trigger] now[i]).price,
    ) by {
        if j < k {
            assert(model::better(side, levels[j].price, levels[i].price));
        } else if i > k {
            assert(model::better(side, levels[j - 1].price, levels[i - 1].price));
        } else if i < k && j > k {
            assert(model::better(side, levels[j - 1].price, levels[i].price));
        } else if j == k {
            assert(now[i] == levels[i]);
        } else {
            assert(now[j] == levels[j - 1]);
        }
    }
}

/// An id that is neither in level `k` nor in a worse one.
proof fn lemma_not_in_level(levels: Seq<PriceLevel>, k: int, id: OrderId)
    requires
        0 <= k < levels.len(),
        !model::holds(flat(levels.take(k)), id),
        forall|i: int|
            0 <= i < levels[k].orders@.len() ==> (#[trigger] levels[k].orders@[i]).order_id != id,
    ensures
        !model::holds(flat(levels.take(k + 1)), id),
{
    let upto = levels.take(k + 1);
    let queue = levels[k].queue();
    let below = flat(levels.take(k));
    assert(upto.drop_last() =~= levels.take(k));
    assert forall|n: int| 0 <= n < flat(upto).len() implies (#[trigger] flat(upto)[n]).order.order_id != id by {
        if n < queue.len() {
            assert(flat(upto)[n] == queue[n]);
        } else {
            assert(flat(upto)[n] == below[n - queue.len()]);
        }
    }
}

/// Taking the order at position `j` out of level `k`.
proof fn lemma_remove_at(levels: Seq<PriceLevel>, now: Seq<PriceLevel>, k: int, j: int)
    requires
        model::distinct_ids(flat(levels)),
        0 <= k < levels.len(),
        0 <= j < levels[k].orders@.len(),
        now.len() == levels.len(),
        forall|i: int| 0 <= i < levels.len() && i != k ==> #[trigger] now[i] == levels[i],
        now[k].price == levels[k].price,
        now[k].orders@ == levels[k].orders@.remove(j),
    ensures
        ({
            let id = levels[k].orders@[j].order_id;
            &&& flat(now) == model::those(flat(levels), model::other_than(id))
            &&& model::holds(flat(levels), id)
            &&& model::found(flat(levels), id) == levels[k].queue()[j]
        }),
{
    let above = flat(levels.skip(k + 1));
    let n = above.len() + j;
    lemma_flat_at(levels, k);
    lemma_flat_at(now, k);
    assert(now.skip(k + 1) =~= levels.skip(k + 1));
    assert(now.take(k) =~= levels.take(k));
    assert(now[k].queue() =~= levels[k].queue().remove(j));
    assert(flat(levels)[n] == levels[k].queue()[j]);
    assert(flat(now) =~= flat(levels).remove(n));
    model::lemma_take_out(flat(levels), n);
}

/// A level without orders can be dropped.
proof fn lemma_drop_empty(levels: Seq<PriceLevel>, now: Seq<PriceLevel>, k: int)
    requires
        0 <= k < levels.len(),
        levels[k].orders@.len() == 0,
        now == levels.remove(k),
    ensures
        flat(now) == flat(levels),
{
    lemma_flat_at(levels, k);
    lemma_flat_split(now, k);
    assert(now.skip(k) =~= levels.skip(k + 1));
    assert(now.take(k) =~= levels.take(k));
    assert(flat(now) =~= flat(levels));
}

/// The totals of the levels, best level first.
pub open spec fn level_totals(levels: Seq<PriceLevel>) -> Seq<LevelTotal>
    decreases levels.len(),
{
    if levels.len() == 0 {
        seq![]
    } else {
        seq![
            LevelTotal {
                price: levels.last().price,
                quantity: model::total(levels.last().queue()),
            },
        ] + level_totals(levels.drop_last())
    }
}

/// The price levels of the flattened orders are the totals of the levels.
pub proof fn lemma_level_totals(levels: Seq<PriceLevel>, side: Side)
    requires
        ordered(levels, side),
    ensures
        model::price_levels(flat(levels)) == level_totals(levels),
    decreases levels.len(),
{
    if levels.len() > 0 {
        let rest = levels.drop_last();
        if flat(rest).len() > 0 {
            assert(flat(rest)[0] == rest.last().queue()[0]);
            assert(model::better(side, levels[levels.len() - 1].price, levels[levels.len() - 2].price));
        }
        model::lemma_own_level(levels.last().queue(), flat(rest), levels.last().price);
        lemma_level_totals(rest, side);
    }
}

/// One side of a book.
#[derive(Debug)]
pub struct BookSide {
    side: Side,
    levels: Vec<PriceLevel>,
}

impl View for BookSide {
    type V = Seq<Queued>;

    closed spec fn view(&self) -> Seq<Queued> {
        flat(self.levels@)
    }
}

impl BookSide {
    pub closed spec fn wf(self) -> bool {
        ordered(self.levels@, self.side)
    }

    pub closed spec fn side(self) -> Side {
        self.side
    }

    pub fn new(side: Side) -> (book_side: BookSide)
        ensures
            book_side.wf(),
            book_side.side() == side,
            book_side@ == Seq::<Queued>::empty(),
    {
        BookSide { side, levels: Vec::new() }
    }

    /// The best price on this side.
    pub fn best_price(&self) -> (price: Option<Price>)
        requires
            self.wf(),
        ensures
            match price {
                Some(p) => self@.len() > 0 && self@[0].price == p,
                None => self@.len() == 0,
            },
    {
        let n: usize = self.levels.len();
        if n == 0 {
            None
        } else {
            assert(self.levels@.last().queue()[0] == self@[0]);
            Some(self.levels[n - 1].price)
        }
    }

    /// Fills the orders of the best level, oldest first, as far as `quantity` goes, and returns the
    /// fills and what is left of `quantity`.
    pub fn fill_best(&mut self, quantity: Quantity) -> (result: (Vec<Fill>, Quantity))
        requires
            old(self).wf(),
            old(self)@.len() > 0,
            quantity > 0,
        ensures
            final(self).wf(),
            final(self).side() == old(self).side(),
            result.1 <= quantity,
            result.1 > 0 ==> final(self)@.len() < old(self)@.len(),
            ({
                let best = old(self)@[0].price;
                let m = model::matched(old(self)@, old(self).side(), best, quantity as nat);
                result.0@ == m.fills && result.1 == m.left && final(self)@ == m.queue
            }),
            forall|limit: Price|
                model::no_worse(old(self).side(), old(self)@[0].price, limit) ==> {
                    let m = model::matched(final(self)@, old(self).side(), limit, result.1 as nat);
                    #[trigger] model::matched(old(self)@, old(self).side(), limit, quantity as nat) == (
                    model::Matched { fills: result.0@ + m.fills, ..m })
                },
    {
        let ghost before = self@;
        let ghost all = self.levels@;
        let ghost side = self.side;
        assert(all.last().queue()[0] == before[0]);
        let mut fills: Vec<Fill> = Vec::new();
        let mut remaining: Quantity = quantity;
        let mut level = self.levels.pop().unwrap();
        let ghost rest = flat(self.levels@);
        assert(self.levels@ == all.drop_last());
        while remaining > 0 && level.orders.len() > 0
            invariant
                level.price == before[0].price,
                remaining <= quantity,
                self.levels@ == all.drop_last(),
                self.side == side,
                rest == flat(all.drop_last()),
                forall|limit: Price|
                    model::no_worse(side, before[0].price, limit) ==> {
                        let m = model::matched(level.queue() + rest, side, limit, remaining as nat);
                        #[trigger] model::matched(before, side, limit, quantity as nat) == (model::Matched {
                            fills: fills@ + m.fills,
                            ..m
                        })
                    },
            decreases remaining, level.orders@.len(),
        {
            let ghost queue = level.queue() + rest;
            let ghost fills_before = fills@;
            let ghost remaining_before = remaining;
            let mut resting = level.orders.pop_front().unwrap();
            let ghost head = Queued { price: level.price, order: resting };
            let traded: Quantity = if remaining <= resting.quantity {
                remaining
            } else {
                resting.quantity
            };
            fills.push(Fill { maker: Queued { price: level.price, order: resting }, quantity: traded });
            resting.quantity = resting.quantity - traded;
            remaining = remaining - traded;
            if resting.quantity > 0 {
                level.orders.push_front(resting);
            }
            let ghost now = level.queue() + rest;
            proof {
                assert(queue[0] == head);
                if resting.quantity > 0 {
                    assert(now =~= queue.update(0, Queued { price: level.price, order: resting }));
                } else {
                    assert(now =~= queue.drop_first());
                }
                assert forall|limit: Price| model::no_worse(side, before[0].price, limit) implies {
                    let m = model::matched(now, side, limit, remaining as nat);
                    #[trigger] model::matched(before, side, limit, quantity as nat) == (model::Matched {
                        fills: fills@ + m.fills,
                        ..m
                    })
                } by {
                    let m0 = model::matched(queue, side, limit, remaining_before as nat);
                    let m = model::matched(now, side, limit, remaining as nat);
                    let fill = Fill { maker: head, quantity: traded };
                    assert(m0.fills =~= seq![fill] + m.fills);
                    assert(m0.left == m.left);
                    assert(m0.queue =~= m.queue);
                    assert(fills_before + m0.fills =~= fills@ + m.fills);
                }
            }
        }
        if level.orders.len() > 0 {
            proof {
                assert(all.drop_last().push(level).drop_last() =~= all.drop_last());
            }
            self.levels.push(level);
        } else {
            assert(level.queue() + rest =~= rest);
        }
        proof {
            // What comes next is worse than the level, or nothing is left to fill it with.
            let best = before[0].price;
            let now = self@;
            if remaining > 0 && now.len() > 0 {
                let next = all.drop_last();
                lemma_flat_from(next, 0);
                let k = choose|k: int| 0 <= k < next.len() && (#[trigger] next[k]).price == now[0].price;
                assert(model::better(side, all[all.len() - 1].price, all[k].price));
            }
            assert(model::no_worse(side, best, best));
            let m = model::matched(before, side, best, quantity as nat);
            assert(model::matched(now, side, best, remaining as nat).fills =~= seq![]);
            assert(m.fills =~= fills@);
        }
        (fills, remaining)
    }

    /// Whether an order with this id rests on this side.
    pub fn contains(&self, id: OrderId) -> (result: bool)
        ensures
            result == model::holds(self@, id),
    {
        let n: usize = self.levels.len();
        let mut i: usize = 0;
        while i < n
            invariant
                i <= n,
                n == self.levels@.len(),
                !model::holds(flat(self.levels@.take(i as int)), id),
            decreases n - i,
        {
            match self.position_in(i, id) {
                Some(j) => {
                    proof {
                        lemma_flat_at(self.levels@, i as int);
                        let above = flat(self.levels@.skip(i + 1));
                        assert(self@[above.len() + j] == self.levels@[i as int].queue()[j as int]);
                    }
                    return true;
                },
                None => {},
            }
            proof {
                lemma_not_in_level(self.levels@, i as int, id);
            }
            i = i + 1;
        }
        assert(self.levels@.take(n as int) =~= self.levels@);
        false
    }

    /// Where the order with this id stands in level `i`.
    fn position_in(&self, i: usize, id: OrderId) -> (result: Option<usize>)
        requires
            i < self.levels@.len(),
        ensures
            match result {
                Some(j) => j < self.levels@[i as int].orders@.len()
                    && self.levels@[i as int].orders@[j as int].order_id == id,
                None => forall|k: int|
                    0 <= k < self.levels@[i as int].orders@.len()
                        ==> (#[trigger] self.levels@[i as int].orders@[k]).order_id != id,
            },
    {
        let orders = &self.levels[i].orders;
        let n: usize = orders.len();
        let mut j: usize = 0;
        while j < n
            invariant
                j <= n,
                n == orders@.len(),
                i < self.levels@.len(),
                *orders == self.levels@[i as int].orders,
                forall|k: int| 0 <= k < j ==> (#[trigger] orders@[k]).order_id != id,
            decreases n - j,
        {
            if orders[j].order_id == id {
                return Some(j);
            }
            j = j + 1;
        }
        None
    }

    /// Puts an order behind all orders with the same or a better price.
    pub fn enqueue(&mut self, price: Price, order: RestingOrder)
        requires
            old(self).wf(),
        ensures
            final(self).wf(),
            final(self).side() == old(self).side(),
            final(self)@ == model::enqueued(old(self)@, old(self).side(), Queued { price, order }),
    {
        let ghost levels = self.levels@;
        let ghost side = self.side;
        let ghost item = Queued { price, order };
        let mut i: usize = self.levels.len();
        while i > 0 && self.is_better(self.levels[i - 1].price, price)
            invariant
                i <= levels.len(),
                self.levels@ == levels,
                self.side == side,
                forall|k: int| i <= k < levels.len() ==> model::better(side, (#[trigger] levels[k]).price, price),
            decreases i,
        {
            i = i - 1;
        }
        if i > 0 && self.levels[i - 1].price.0 == price.0 {
            let level = &mut self.levels[i - 1];
            level.orders.push_back(order);
            proof {
                lemma_enqueue_existing(levels, self.levels@, side, item, i - 1);
            }
        } else {
            let mut orders: VecDeque<RestingOrder> = VecDeque::new();
            orders.push_back(order);
            self.levels.insert(i, PriceLevel { price, orders });
            proof {
                lemma_enqueue_new(levels, self.levels@, side, item, i as int);
            }
        }
    }

    /// Whether price `a` is strictly better than price `b` on this side.
    fn is_better(&self, a: Price, b: Price) -> (result: bool)
        ensures
            result == model::better(self.side, a, b),
    {
        match self.side {
            Side::Buy => a.0 > b.0,
            Side::Sell => a.0 < b.0,
        }
    }

    /// Takes the order with this id out of the side, and returns its price and quantity.
    pub fn remove(&mut self, id: OrderId) -> (result: Option<Queued>)
        requires
            old(self).wf(),
            model::distinct_ids(old(self)@),
        ensures
            final(self).wf(),
            final(self).side() == old(self).side(),
            final(self)@ == model::those(old(self)@, model::other_than(id)),
            match result {
                Some(q) => model::holds(old(self)@, id) && q == model::found(old(self)@, id),
                None => !model::holds(old(self)@, id),
            },
    {
        let ghost levels = self.levels@;
        let ghost side = self.side;
        let n: usize = self.levels.len();
        let mut i: usize = 0;
        while i < n
            invariant
                i <= n,
                n == levels.len(),
                self.levels@ == levels,
                self.side == side,
                ordered(levels, side),
                old(self)@ == flat(levels),
                old(self).side() == side,
                model::distinct_ids(flat(levels)),
                !model::holds(flat(levels.take(i as int)), id),
            decreases n - i,
        {
            match self.position_in(i, id) {
                Some(j) => {
                    let price = self.levels[i].price;
                    let level = &mut self.levels[i];
                    let removed = level.orders.remove(j).unwrap();
                    proof {
                        lemma_remove_at(levels, self.levels@, i as int, j as int);
                    }
                    if self.levels[i].orders.len() == 0 {
                        let ghost emptied = self.levels@;
                        self.levels.remove(i);
                        proof {
                            lemma_drop_empty(emptied, self.levels@, i as int);
                        }
                    }
                    return Some(Queued { price, order: removed });
                },
                None => {},
            }
            proof {
                lemma_not_in_level(levels, i as int, id);
            }
            i = i + 1;
        }
        proof {
            assert(levels.take(n as int) =~= levels);
            model::lemma_take_out_absent(flat(levels), id);
        }
        None
    }

    /// The sum of the quantities in level `i`.
    fn level_quantity(&self, i: usize) -> (quantity: Quantity)
        requires
            i < self.levels@.len(),
            model::total(self.levels@[i as int].queue()) <= u64::MAX,
        ensures
            quantity == model::total(self.levels@[i as int].queue()),
    {
        let orders = &self.levels[i].orders;
        let ghost queue = self.levels@[i as int].queue();
        let n: usize = orders.len();
        let mut sum: Quantity = 0;
        let mut j: usize = 0;
        assert(queue.skip(0) =~= queue);
        while j < n
            invariant
                j <= n,
                n == orders@.len(),
                n == queue.len(),
                i < self.levels@.len(),
                *orders == self.levels@[i as int].orders,
                queue == self.levels@[i as int].queue(),
                sum + model::total(queue.skip(j as int)) == model::total(queue),
                model::total(queue) <= u64::MAX,
            decreases n - j,
        {
            assert(queue.skip(j as int).drop_first() =~= queue.skip(j + 1));
            assert(queue.skip(j as int)[0] == queue[j as int]);
            sum = sum + orders[j].quantity;
            j = j + 1;
        }
        sum
    }

    /// The best `depth` levels, best first.
    pub fn levels(&self, depth: usize) -> (result: Vec<Level>)
        requires
            self.wf(),
            model::visible_fit(self@, depth as nat),
        ensures
            model::shows(result@, self@, depth as nat),
    {
        let ghost all = level_totals(self.levels@);
        proof {
            lemma_level_totals(self.levels@, self.side);
            assert(self.levels@.take(self.levels@.len() as int) =~= self.levels@);
        }
        let mut result: Vec<Level> = Vec::new();
        let mut i: usize = self.levels.len();
        while i > 0 && result.len() < depth
            invariant
                self.wf(),
                all == model::price_levels(self@),
                i <= self.levels@.len(),
                result@.len() <= depth,
                result@.len() + level_totals(self.levels@.take(i as int)).len() == all.len(),
                forall|k: int| #![trigger all[k]]
                    result@.len() <= k < all.len() ==> all[k] == level_totals(
                        self.levels@.take(i as int),
                    )[k - result@.len()],
                forall|k: int| #![trigger result@[k]]
                    0 <= k < result@.len() ==> result@[k].price == all[k].price && result@[k].quantity
                        == all[k].quantity,
                model::visible_fit(self@, depth as nat),
            decreases i,
        {
            let ghost upto = self.levels@.take(i as int);
            let ghost done = result@.len() as int;
            proof {
                assert(upto.drop_last() =~= self.levels@.take(i - 1));
                assert(upto.last() == self.levels@[i - 1]);
                assert(all[done] == level_totals(upto)[0]);
                assert(model::visible(self@, depth as nat)[done] == all[done]);
            }
            let quantity: Quantity = self.level_quantity(i - 1);
            result.push(Level { price: self.levels[i - 1].price, quantity });
            i = i - 1;
            proof {
                let rest = level_totals(self.levels@.take(i as int));
                assert forall|k: int| #![trigger all[k]] result@.len() <= k < all.len() implies all[k]
                    == rest[k - result@.len()] by {
                    assert(all[k] == level_totals(upto)[k - done]);
                }
            }
        }
        result
    }

    /// How many orders rest on this side.
    pub fn count(&self) -> (result: u128)
        ensures
            result == self@.len(),
    {
        let n: usize = self.levels.len();
        let mut sum: u128 = 0;
        let mut i: usize = 0;
        while i < n
            invariant
                i <= n,
                n == self.levels@.len(),
                sum == flat(self.levels@.take(i as int)).len(),
                sum <= i * usize::MAX,
            decreases n - i,
        {
            assert(self.levels@.take(i + 1).drop_last() =~= self.levels@.take(i as int));
            assert(i * usize::MAX + usize::MAX == (i + 1) * usize::MAX) by (nonlinear_arith);
            assert((i + 1) * usize::MAX <= usize::MAX * usize::MAX) by (nonlinear_arith)
                requires
                    i + 1 <= usize::MAX,
            ;
            assert(usize::MAX * usize::MAX <= u128::MAX);
            sum = sum + self.levels[i].orders.len() as u128;
            i = i + 1;
        }
        assert(self.levels@.take(n as int) =~= self.levels@);
        sum
    }

    /// Whether the total of level `i` fits a `Quantity`.
    fn level_fits(&self, i: usize) -> (result: bool)
        requires
            i < self.levels@.len(),
        ensures
            result == (model::total(self.levels@[i as int].queue()) <= u64::MAX),
    {
        let orders = &self.levels[i].orders;
        let ghost queue = self.levels@[i as int].queue();
        let n: usize = orders.len();
        let mut sum: u128 = 0;
        let mut j: usize = 0;
        assert(queue.skip(0) =~= queue);
        while j < n
            invariant
                j <= n,
                n == orders@.len(),
                n == queue.len(),
                i < self.levels@.len(),
                *orders == self.levels@[i as int].orders,
                queue == self.levels@[i as int].queue(),
                sum + model::total(queue.skip(j as int)) == model::total(queue),
                sum <= u64::MAX,
            decreases n - j,
        {
            assert(queue.skip(j as int).drop_first() =~= queue.skip(j + 1));
            assert(queue.skip(j as int)[0] == queue[j as int]);
            sum = sum + orders[j].quantity as u128;
            j = j + 1;
            if sum > u64::MAX as u128 {
                return false;
            }
        }
        true
    }

    /// Whether the total of every level fits a `Quantity`.
    pub fn levels_fit(&self) -> (result: bool)
        requires
            self.wf(),
        ensures
            result == model::levels_fit(self@),
    {
        let n: usize = self.levels.len();
        proof {
            lemma_level_totals(self.levels@, self.side);
            assert(self.levels@.take(n as int) =~= self.levels@);
            lemma_totals_fit(self.levels@);
        }
        let mut i: usize = 0;
        while i < n
            invariant
                i <= n,
                n == self.levels@.len(),
                model::price_levels(self@) == level_totals(self.levels@),
                forall|k: int|
                    0 <= k < i ==> model::total((#[trigger] self.levels@[k]).queue()) <= u64::MAX,
            decreases n - i,
        {
            if !self.level_fits(i) {
                proof {
                    lemma_totals_fit(self.levels@);
                }
                return false;
            }
            i = i + 1;
        }
        true
    }
}

/// All totals fit where the total of every level does.
proof fn lemma_totals_fit(levels: Seq<PriceLevel>)
    ensures
        (forall|k: int|
            0 <= k < level_totals(levels).len() ==> (#[trigger] level_totals(levels)[k]).quantity <= u64::MAX)
            <==> (forall|k: int|
            0 <= k < levels.len() ==> model::total((#[trigger] levels[k]).queue()) <= u64::MAX),
    decreases levels.len(),
{
    if levels.len() > 0 {
        let rest = levels.drop_last();
        let totals = level_totals(levels);
        let below = level_totals(rest);
        lemma_totals_fit(rest);
        assert(totals[0].quantity == model::total(levels[levels.len() - 1].queue()));
        assert(forall|k: int| 0 <= k < below.len() ==> #[trigger] below[k] == totals[k + 1]);
        if forall|k: int| 0 <= k < totals.len() ==> (#[trigger] totals[k]).quantity <= u64::MAX {
            assert forall|k: int| 0 <= k < below.len() implies (#[trigger] below[k]).quantity <= u64::MAX by {
                assert(totals[k + 1].quantity <= u64::MAX);
            }
            assert forall|k: int| 0 <= k < levels.len() implies model::total((#[trigger] levels[k]).queue())
                <= u64::MAX by {
                if k < rest.len() {
                    assert(rest[k] == levels[k]);
                } else {
                    assert(totals[0].quantity <= u64::MAX);
                }
            }
        }
        if forall|k: int| 0 <= k < levels.len() ==> model::total((#[trigger] levels[k]).queue()) <= u64::MAX {
            assert forall|k: int| 0 <= k < rest.len() implies model::total((#[trigger] rest[k]).queue())
                <= u64::MAX by {
                assert(rest[k] == levels[k]);
            }
            assert forall|k: int| 0 <= k < totals.len() implies (#[trigger] totals[k]).quantity <= u64::MAX by {
                if k > 0 {
                    assert(below[k - 1] == totals[k]);
                }
            }
        }
    }
}

} // verus!
