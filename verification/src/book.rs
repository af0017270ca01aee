//! The matching engine of one instrument: a limit order book in price-time priority.
use vstd::prelude::*;

use crate::checksum;
use crate::model;
use crate::model::{BookView, Fill, Queued};
use crate::side::BookSide;
use crate::types::{
    BookEvent, BookSnapshot, Execution, NewOrder, OrderId, Price, Quantity, RejectReason, RestingOrder,
    Sequence, Side,
};
use crate::validity;

verus! {

/// An order book. Its view is a pair of queues, best order first; see [`BookView`].
#[derive(Debug)]
pub struct OrderBook {
    seq: Sequence,
    bids: BookSide,
    asks: BookSide,
}

impl View for OrderBook {
    type V = BookView;

    closed spec fn view(&self) -> BookView {
        BookView { seq: self.seq, bids: self.bids@, asks: self.asks@ }
    }
}

/// What an order did to the book: its events, and the fills that the executions among them stand
/// for.
pub struct Submission {
    pub events: Vec<BookEvent>,
    pub fills: Vec<Fill>,
}

/// Whether `snapshot` is what a book shows of its best `depth` levels.
pub open spec fn is_snapshot(snapshot: BookSnapshot, book: BookView, depth: nat) -> bool {
    &&& snapshot.seq == book.seq
    &&& snapshot.bids@ == model::shown_levels(book.bids, depth)
    &&& snapshot.asks@ == model::shown_levels(book.asks, depth)
    &&& snapshot.checksum == checksum::checksum_of(snapshot.bids@, snapshot.asks@)
}

/// A cancellation: its event, and the order that it took out, with the side on which it rested.
pub struct Cancellation {
    pub event: BookEvent,
    pub taken: Option<(Side, Queued)>,
}

impl OrderBook {
    /// The book is well-formed: its representation is in order and its view is valid.
    pub closed spec fn wf(self) -> bool {
        &&& self.bids.wf()
        &&& self.asks.wf()
        &&& self.bids.side() is Buy
        &&& self.asks.side() is Sell
        &&& self@.valid()
    }

    /// A well-formed book has a valid view.
    pub proof fn lemma_wf_valid(self)
        requires
            self.wf(),
        ensures
            self@.valid(),
    {
    }

    pub fn new() -> (book: Self)
        ensures
            book.wf(),
            book@ == BookView::empty(),
    {
        OrderBook { seq: 0, bids: BookSide::new(Side::Buy), asks: BookSide::new(Side::Sell) }
    }

    /// Submits a limit order. An order without quantity, or with the id of a resting order, is
    /// rejected. Any other is accepted, meets the opposite side in price-time priority, and rests
    /// with what is left of it.
    pub fn submit_limit(&mut self, order: NewOrder) -> (events: Vec<BookEvent>)
        requires
            old(self).wf(),
            old(self)@.seq + old(self)@.submit_events(order).len() <= u64::MAX,
        ensures
            final(self).wf(),
            final(self)@ == old(self)@.submitted(order),
            events@ == old(self)@.submit_events(order),
    {
        self.submit(order).events
    }

    /// Submits a limit order and tells, besides the events, which resting orders were filled.
    pub fn submit(&mut self, order: NewOrder) -> (submission: Submission)
        requires
            old(self).wf(),
            old(self)@.seq + old(self)@.submit_events(order).len() <= u64::MAX,
        ensures
            final(self).wf(),
            final(self)@ == old(self)@.submitted(order),
            submission.events@ == old(self)@.submit_events(order),
            submission.fills@ == (if old(self)@.refusal(order) is None {
                old(self)@.matching(order).fills
            } else {
                seq![]
            }),
    {
        let ghost before = self@;
        let mut events: Vec<BookEvent> = Vec::new();
        let mut fills: Vec<Fill> = Vec::new();

        if order.quantity == 0 {
            events.push(self.rejected(order.order_id, RejectReason::ZeroQuantity));
            return Submission { events, fills };
        }
        if self.contains_order(order.order_id) {
            events.push(self.rejected(order.order_id, RejectReason::DuplicateOrderId));
            return Submission { events, fills };
        }
        let ghost m = before.matching(order);
        let ghost side = order.side.other();
        proof {
            assert(before.submit_events(order).len() >= 1 + m.fills.len());
        }
        events.push(self.accepted(order.order_id));

        let mut remaining: Quantity = order.quantity;
        let mut best = self.matchable_price(order.side, order.price);
        proof {
            assert(model::executions(fills@, order.order_id, before.seq + 2) =~= seq![]);
            assert(events@ =~= seq![events@[0]] + model::executions(fills@, order.order_id, before.seq + 2));
            assert(fills@ + m.fills =~= m.fills);
        }
        while remaining > 0 && best.is_some()
            invariant
                self.parts_wf(),
                m == before.matching(order),
                side == order.side.other(),
                before.seq + before.submit_events(order).len() <= u64::MAX,
                before.submit_events(order).len() >= 1 + m.fills.len(),
                remaining <= order.quantity,
                self@.queue(order.side) == before.queue(order.side),
                self@.seq == before.seq + 1 + fills@.len(),
                ({
                    let rest = model::matched(self@.queue(side), side, order.price, remaining as nat);
                    m == model::Matched { fills: fills@ + rest.fills, ..rest }
                }),
                events@ == seq![
                    BookEvent::Accepted { seq: (before.seq + 1) as u64, order_id: order.order_id },
                ] + model::executions(fills@, order.order_id, before.seq + 2),
                best is Some ==> self@.queue(side).len() > 0 && model::no_worse(
                    side,
                    self@.queue(side)[0].price,
                    order.price,
                ),
                best is None ==> self@.queue(side).len() == 0 || !model::no_worse(
                    side,
                    self@.queue(side)[0].price,
                    order.price,
                ),
            decreases
                (if remaining == 0 {
                    0
                } else {
                    1 + self@.queue(side).len()
                }),
        {
            let ghost fills_before = fills@;
            let ghost seq_before = self@.seq;
            let ghost rest_before = model::matched(self@.queue(side), side, order.price, remaining as nat);
            proof {
                model::lemma_looser_limit(
                    self@.queue(side),
                    side,
                    self@.queue(side)[0].price,
                    order.price,
                    remaining as nat,
                );
            }
            let (mut new_fills, left) = self.fill_at_price(
                order.side.opposite(),
                order.order_id,
                remaining,
                &mut events,
            );
            let ghost added = new_fills@;
            let ghost rest = model::matched(self@.queue(side), side, order.price, left as nat);
            proof {
                assert(rest_before == model::Matched { fills: added + rest.fills, ..rest });
                assert(m.fills =~= fills_before + added + rest.fills);
            }
            remaining = left;
            fills.append(&mut new_fills);
            proof {
                model::lemma_executions_concat(fills_before, added, order.order_id, before.seq + 2);
            }
            best = self.matchable_price(order.side, order.price);
        }
        proof {
            let rest = model::matched(self@.queue(side), side, order.price, remaining as nat);
            assert(rest.fills =~= seq![]);
            assert(fills@ =~= m.fills);
        }
        if remaining > 0 {
            let resting = RestingOrder {
                order_id: order.order_id,
                account_id: order.account_id,
                quantity: remaining,
            };
            self.side_mut(order.side).enqueue(order.price, resting);
            events.push(self.rested(order.order_id, order.side, order.price, remaining));
        }
        proof {
            validity::law_submit_keeps_book_valid(before, order);
            assert(events@ =~= before.submit_events(order));
            assert(self@ =~= before.submitted(order));
        }
        Submission { events, fills }
    }

    /// Takes the order with this id out of the book.
    pub fn cancel(&mut self, order_id: OrderId) -> (event: BookEvent)
        requires
            old(self).wf(),
            old(self)@.seq < u64::MAX,
        ensures
            final(self).wf(),
            final(self)@ == old(self)@.cancelled(order_id),
            event == old(self)@.cancel_event(order_id),
    {
        self.take_out(order_id).event
    }

    /// Takes the order with this id out of the book and tells, besides the event, which order that
    /// was.
    pub fn take_out(&mut self, order_id: OrderId) -> (cancellation: Cancellation)
        requires
            old(self).wf(),
            old(self)@.seq < u64::MAX,
        ensures
            final(self).wf(),
            final(self)@ == old(self)@.cancelled(order_id),
            cancellation.event == old(self)@.cancel_event(order_id),
            match cancellation.taken {
                Some((side, q)) => {
                    &&& old(self)@.contains(order_id)
                    &&& side == old(self)@.side_of(order_id)
                    &&& q == model::found(old(self)@.queue(side), order_id)
                },
                None => !old(self)@.contains(order_id),
            },
    {
        let ghost before = self@;
        proof {
            validity::law_cancel_keeps_book_valid(before, order_id);
        }
        let taken = self.remove_order(order_id);
        let event = match &taken {
            Some((side, q)) => self.canceled(order_id, *side, q.price, q.order.quantity),
            None => self.rejected(order_id, RejectReason::UnknownOrderId),
        };
        Cancellation { event, taken }
    }

    /// The best `depth` levels of both sides, with their checksum.
    pub fn snapshot(&self, depth: usize) -> (snapshot: BookSnapshot)
        requires
            self.wf(),
            model::visible_fit(self@.bids, depth as nat),
            model::visible_fit(self@.asks, depth as nat),
        ensures
            model::shows(snapshot.bids@, self@.bids, depth as nat),
            model::shows(snapshot.asks@, self@.asks, depth as nat),
            is_snapshot(snapshot, self@, depth as nat),
    {
        let bids = self.bids.levels(depth);
        let asks = self.asks.levels(depth);
        assert(bids@ =~= model::shown_levels(self@.bids, depth as nat));
        assert(asks@ =~= model::shown_levels(self@.asks, depth as nat));
        let checksum: u32 = checksum::checksum(bids.as_slice(), asks.as_slice());
        BookSnapshot { seq: self.seq, bids, asks, checksum }
    }

    /// Refuses a request about order `order_id` for a reason that lies outside the book.
    pub fn reject(&mut self, order_id: OrderId, reason: RejectReason) -> (event: BookEvent)
        requires
            old(self).wf(),
            old(self)@.seq < u64::MAX,
        ensures
            final(self).wf(),
            final(self)@ == old(self)@.after_reject(),
            event == old(self)@.reject_event(order_id, reason),
    {
        self.rejected(order_id, reason)
    }

    /// The book's own reason to refuse `order`.
    pub fn refuses(&self, order: &NewOrder) -> (reason: Option<RejectReason>)
        requires
            self.wf(),
        ensures
            reason == self@.refusal(*order),
    {
        if order.quantity == 0 {
            Some(RejectReason::ZeroQuantity)
        } else if self.contains_order(order.order_id) {
            Some(RejectReason::DuplicateOrderId)
        } else {
            None
        }
    }

    /// The last sequence number given out.
    pub fn last_seq(&self) -> (seq: Sequence)
        ensures
            seq == self@.seq,
    {
        self.seq
    }

    /// Whether the sequence numbers that are left suffice for any one command.
    pub fn has_room(&self) -> (result: bool)
        ensures
            result == self@.has_room(),
    {
        let room: u128 = (u64::MAX - self.seq) as u128;
        let bids: u128 = self.bids.count();
        let asks: u128 = self.asks.count();
        bids <= room && asks <= room && bids + asks + 3 <= room
    }

    /// Whether the totals of all levels fit a `Quantity`.
    pub fn levels_fit(&self) -> (result: bool)
        requires
            self.wf(),
        ensures
            result == (model::levels_fit(self@.bids) && model::levels_fit(self@.asks)),
    {
        self.bids.levels_fit() && self.asks.levels_fit()
    }

    /// The representation is in order; the view may be between two valid states.
    closed spec fn parts_wf(self) -> bool {
        &&& self.bids.wf()
        &&& self.asks.wf()
        &&& self.bids.side() is Buy
        &&& self.asks.side() is Sell
    }

    /// The best price opposite to `side`, where it reaches the limit.
    fn matchable_price(&self, side: Side, limit_price: Price) -> (result: Option<Price>)
        requires
            self.parts_wf(),
        ensures
            ({
                let queue = self@.queue(side.other());
                let reached = queue.len() > 0 && model::no_worse(side.other(), queue[0].price, limit_price);
                &&& result is Some <==> reached
                &&& result is Some ==> result->0 == queue[0].price
            }),
    {
        match side {
            Side::Buy => match self.asks.best_price() {
                Some(price) => if price.0 <= limit_price.0 {
                    Some(price)
                } else {
                    None
                },
                None => None,
            },
            Side::Sell => match self.bids.best_price() {
                Some(price) => if price.0 >= limit_price.0 {
                    Some(price)
                } else {
                    None
                },
                None => None,
            },
        }
    }

    /// Fills the orders at the best price of `resting_side`, oldest first, as far as `remaining`
    /// goes, and appends their executions to `events`. Returns the fills and what is left.
    fn fill_at_price(
        &mut self,
        resting_side: Side,
        aggressing_order_id: OrderId,
        remaining: Quantity,
        events: &mut Vec<BookEvent>,
    ) -> (result: (Vec<Fill>, Quantity))
        requires
            old(self).parts_wf(),
            old(self)@.queue(resting_side).len() > 0,
            remaining > 0,
            ({
                let q = old(self)@.queue(resting_side);
                let m = model::matched(q, resting_side, q[0].price, remaining as nat);
                old(self)@.seq + m.fills.len() <= u64::MAX
            }),
        ensures
            final(self).parts_wf(),
            ({
                let q = old(self)@.queue(resting_side);
                let m = model::matched(q, resting_side, q[0].price, remaining as nat);
                &&& result.0@ == m.fills
                &&& result.1 == m.left
                &&& final(self)@.queue(resting_side) == m.queue
            }),
            final(self)@.queue(resting_side.other()) == old(self)@.queue(resting_side.other()),
            final(self)@.seq == old(self)@.seq + result.0@.len(),
            final(events)@ == old(events)@ + model::executions(
                result.0@,
                aggressing_order_id,
                old(self)@.seq + 1,
            ),
            result.1 <= remaining,
            result.1 > 0 ==> final(self)@.queue(resting_side).len() < old(self)@.queue(resting_side).len(),
            forall|limit: Price|
                model::no_worse(resting_side, old(self)@.queue(resting_side)[0].price, limit) ==> {
                    let m = model::matched(
                        final(self)@.queue(resting_side),
                        resting_side,
                        limit,
                        result.1 as nat,
                    );
                    #[trigger] model::matched(
                        old(self)@.queue(resting_side),
                        resting_side,
                        limit,
                        remaining as nat,
                    ) == (model::Matched { fills: result.0@ + m.fills, ..m })
                },
    {
        let (fills, left) = self.side_mut(resting_side).fill_best(remaining);
        self.report(&fills, aggressing_order_id, events);
        (fills, left)
    }

    /// Numbers the executions that `fills` stand for and appends them to `events`.
    fn report(&mut self, fills: &Vec<Fill>, aggressing_order_id: OrderId, events: &mut Vec<BookEvent>)
        requires
            old(self).parts_wf(),
            old(self)@.seq + fills@.len() <= u64::MAX,
        ensures
            final(self).parts_wf(),
            final(self)@ == old(self)@.advanced(fills@.len()),
            final(events)@ == old(events)@ + model::executions(
                fills@,
                aggressing_order_id,
                old(self)@.seq + 1,
            ),
    {
        let ghost before = self@;
        let ghost start = events@;
        let n: usize = fills.len();
        let mut i: usize = 0;
        assert(events@ =~= start + model::executions(fills@.take(0), aggressing_order_id, before.seq + 1));
        while i < n
            invariant
                i <= n,
                n == fills@.len(),
                before.seq + n <= u64::MAX,
                self.parts_wf(),
                self@ == before.advanced(i as nat),
                events@ == start + model::executions(
                    fills@.take(i as int),
                    aggressing_order_id,
                    before.seq + 1,
                ),
            decreases n - i,
        {
            let execution = Execution {
                resting_order_id: fills[i].maker.order.order_id,
                aggressing_order_id,
                price: fills[i].maker.price,
                quantity: fills[i].quantity,
            };
            events.push(self.executed(execution));
            i = i + 1;
            assert(events@ =~= start + model::executions(
                fills@.take(i as int),
                aggressing_order_id,
                before.seq + 1,
            ));
        }
        assert(fills@.take(n as int) =~= fills@);
    }

    /// Takes the order with this id out of the side on which it rests.
    fn remove_order(&mut self, order_id: OrderId) -> (result: Option<(Side, Queued)>)
        requires
            old(self).wf(),
        ensures
            final(self).parts_wf(),
            final(self)@.seq == old(self)@.seq,
            final(self)@.bids == model::those(old(self)@.bids, model::other_than(order_id)),
            final(self)@.asks == model::those(old(self)@.asks, model::other_than(order_id)),
            match result {
                Some((side, q)) => {
                    &&& model::holds(old(self)@.queue(side), order_id)
                    &&& side is Sell ==> !model::holds(old(self)@.bids, order_id)
                    &&& q == model::found(old(self)@.queue(side), order_id)
                },
                None => !old(self)@.contains(order_id),
            },
    {
        let ghost before = self@;
        match self.bids.remove(order_id) {
            Some(q) => {
                proof {
                    let n = choose|n: int|
                        0 <= n < before.bids.len() && (#[trigger] before.bids[n]).order.order_id == order_id;
                    assert forall|j: int| 0 <= j < before.asks.len() implies (
                    #[trigger] before.asks[j]).order.order_id != order_id by {
                        assert(before.bids[n].order.order_id != before.asks[j].order.order_id);
                    }
                    model::lemma_take_out_absent(before.asks, order_id);
                }
                Some((Side::Buy, q))
            },
            None => match self.asks.remove(order_id) {
                Some(q) => Some((Side::Sell, q)),
                None => None,
            },
        }
    }

    fn contains_order(&self, order_id: OrderId) -> (result: bool)
        ensures
            result == self@.contains(order_id),
    {
        self.bids.contains(order_id) || self.asks.contains(order_id)
    }

    fn side_mut(&mut self, side: Side) -> (result: &mut BookSide)
        ensures
            *result == (match side {
                Side::Buy => old(self).bids,
                Side::Sell => old(self).asks,
            }),
            *final(self) == (match side {
                Side::Buy => OrderBook { bids: *final(result), ..*old(self) },
                Side::Sell => OrderBook { asks: *final(result), ..*old(self) },
            }),
    {
        match side {
            Side::Buy => &mut self.bids,
            Side::Sell => &mut self.asks,
        }
    }

    fn accepted(&mut self, order_id: OrderId) -> (event: BookEvent)
        requires
            old(self).seq < u64::MAX,
        ensures
            *final(self) == (OrderBook { seq: (old(self).seq + 1) as u64, ..*old(self) }),
            event == (BookEvent::Accepted { seq: final(self).seq, order_id }),
    {
        self.seq = self.seq + 1;
        BookEvent::Accepted { seq: self.seq, order_id }
    }

    fn executed(&mut self, execution: Execution) -> (event: BookEvent)
        requires
            old(self).seq < u64::MAX,
        ensures
            *final(self) == (OrderBook { seq: (old(self).seq + 1) as u64, ..*old(self) }),
            event == (BookEvent::Executed { seq: final(self).seq, execution }),
    {
        self.seq = self.seq + 1;
        BookEvent::Executed { seq: self.seq, execution }
    }

    fn rested(&mut self, order_id: OrderId, side: Side, price: Price, quantity: Quantity) -> (event: BookEvent)
        requires
            old(self).seq < u64::MAX,
        ensures
            *final(self) == (OrderBook { seq: (old(self).seq + 1) as u64, ..*old(self) }),
            event == (BookEvent::Rested { seq: final(self).seq, order_id, side, price, quantity }),
    {
        self.seq = self.seq + 1;
        BookEvent::Rested { seq: self.seq, order_id, side, price, quantity }
    }

    fn canceled(&mut self, order_id: OrderId, side: Side, price: Price, quantity: Quantity) -> (event: BookEvent)
        requires
            old(self).seq < u64::MAX,
        ensures
            *final(self) == (OrderBook { seq: (old(self).seq + 1) as u64, ..*old(self) }),
            event == (BookEvent::Canceled { seq: final(self).seq, order_id, side, price, quantity }),
    {
        self.seq = self.seq + 1;
        BookEvent::Canceled { seq: self.seq, order_id, side, price, quantity }
    }

    fn rejected(&mut self, order_id: OrderId, reason: RejectReason) -> (event: BookEvent)
        requires
            old(self).seq < u64::MAX,
        ensures
            *final(self) == (OrderBook { seq: (old(self).seq + 1) as u64, ..*old(self) }),
            event == (BookEvent::Rejected { seq: final(self).seq, order_id, reason }),
    {
        self.seq = self.seq + 1;
        BookEvent::Rejected { seq: self.seq, order_id, reason }
    }
}

impl Default for OrderBook {
    fn default() -> (book: Self)
        ensures
            book.wf(),
            book@ == BookView::empty(),
    {
        OrderBook::new()
    }
}

} // verus!
