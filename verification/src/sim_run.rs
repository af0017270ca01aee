//! What all simulations share: what they count, measure and return.
use vstd::prelude::*;

use crate::model;
use crate::model::Fill;
use crate::rebuild;
use crate::seeding;
use crate::sim_feed;
use crate::types::{BookEvent, NewOrder};
use crate::venue_laws;
use crate::venue_model::VenueView;

verus! {

/// No simulation runs more commands than this: the sequence numbers of a book suffice for as many.
pub const MAX_COMMANDS: u64 = 6_000_000_000_000_000_000;

/// The distribution of measured latencies.
#[derive(Debug, Clone, Copy, PartialEq, Eq)]
pub struct LatencyStats {
    pub min: u128,
    pub p50: u128,
    pub p95: u128,
    pub p99: u128,
    pub max: u128,
}

pub open spec fn no_more() -> spec_fn(u128, u128) -> bool {
    |a: u128, b: u128| a <= b
}

/// The values in ascending order.
pub open spec fn ascending(values: Seq<u128>) -> Seq<u128> {
    values.sort_by(no_more())
}

/// The value at a percentile of ascending values.
pub open spec fn value_at(values: Seq<u128>, percentile: nat) -> u128 {
    values[((values.len() - 1) * percentile) / 100]
}

/// The distribution of values; zeros where there are none.
pub open spec fn stats_of(values: Seq<u128>) -> LatencyStats {
    if values.len() == 0 {
        LatencyStats { min: 0, p50: 0, p95: 0, p99: 0, max: 0 }
    } else {
        let sorted = ascending(values);
        LatencyStats {
            min: sorted[0],
            p50: value_at(sorted, 50),
            p95: value_at(sorted, 95),
            p99: value_at(sorted, 99),
            max: sorted[sorted.len() - 1],
        }
    }
}

/// Sorts with the standard library's `slice::sort_unstable`. Trusted: afterwards the same values
/// are there, each as often as before, in ascending order.
#[verifier::external_body]
fn sort_unstable(values: &mut Vec<u128>)
    ensures
        final(values)@.to_multiset() == old(values)@.to_multiset(),
        forall|i: int, j: int| 0 <= i <= j < final(values)@.len() ==> final(values)@[i] <= final(values)@[j],
{
    values.sort_unstable();
}

/// The value at a percentile of ascending values.
fn percentile(values: &Vec<u128>, percent: usize) -> (value: u128)
    requires
        values@.len() > 0,
        percent <= 100,
    ensures
        value == value_at(values@, percent as nat),
{
    let last: u128 = values.len() as u128 - 1;
    proof {
        assert(last * percent <= last * 100) by (nonlinear_arith)
            requires
                percent <= 100,
        ;
    }
    let index: u128 = last * (percent as u128) / 100;
    values[index as usize]
}

/// The distribution of the values.
pub fn latency_stats(values: Vec<u128>) -> (stats: LatencyStats)
    ensures
        stats == stats_of(values@),
{
    if values.len() == 0 {
        return LatencyStats { min: 0, p50: 0, p95: 0, p99: 0, max: 0 };
    }
    let ghost given = values@;
    let mut sorted = values;
    sort_unstable(&mut sorted);
    proof {
        lemma_ascending(given, sorted@);
    }
    LatencyStats {
        min: sorted[0],
        p50: percentile(&sorted, 50),
        p95: percentile(&sorted, 95),
        p99: percentile(&sorted, 99),
        max: sorted[sorted.len() - 1],
    }
}

/// There is one way only to put values into ascending order.
proof fn lemma_ascending(values: Seq<u128>, sorted: Seq<u128>)
    requires
        sorted.to_multiset() == values.to_multiset(),
        forall|i: int, j: int| 0 <= i <= j < sorted.len() ==> sorted[i] <= sorted[j],
    ensures
        sorted == ascending(values),
        sorted.len() == values.len(),
{
    let leq = no_more();
    assert(vstd::relations::total_ordering(leq));
    values.lemma_sort_by_ensures(leq);
    assert(vstd::relations::sorted_by(sorted, leq));
    vstd::seq_lib::lemma_sorted_unique(sorted, values.sort_by(leq), leq);
    vstd::seq_lib::to_multiset_len(sorted);
    vstd::seq_lib::to_multiset_len(values);
}

/// The spans together, at most what a `u128` can hold.
pub open spec fn total_span(spans: Seq<u128>) -> u128
    decreases spans.len(),
{
    if spans.len() == 0 {
        0
    } else {
        plus_span(total_span(spans.drop_last()), spans.last())
    }
}

/// One span more, at most what a `u128` can hold.
pub open spec fn plus_span(total: u128, span: u128) -> u128 {
    if total + span <= u128::MAX {
        (total + span) as u128
    } else {
        u128::MAX
    }
}

/// What a simulation has counted and measured so far.
pub struct SimTally {
    pub private_events: u64,
    pub public_events: u64,
    pub matcher_elapsed: u128,
    pub latencies: Vec<u128>,
}

impl SimTally {
    pub fn new() -> (tally: Self)
        ensures
            tally.private_events == 0,
            tally.public_events == 0,
            tally.matcher_elapsed == 0,
            tally.latencies@ == Seq::<u128>::empty(),
    {
        SimTally { private_events: 0, public_events: 0, matcher_elapsed: 0, latencies: Vec::new() }
    }

    /// Counts a command on which the matcher spent `span` nanoseconds, with `events` events, of
    /// which `emitted` went to the feed within `latency` nanoseconds. Only where something went to
    /// the feed there is a latency.
    pub fn record(&mut self, span: u128, events: u64, emitted: u64, latency: u128)
        requires
            old(self).private_events + events <= u64::MAX,
            old(self).public_events + emitted <= u64::MAX,
        ensures
            final(self).private_events == old(self).private_events + events,
            final(self).public_events == old(self).public_events + emitted,
            final(self).matcher_elapsed == plus_span(old(self).matcher_elapsed, span),
            final(self).latencies@ == (if emitted > 0 {
                old(self).latencies@.push(latency)
            } else {
                old(self).latencies@
            }),
    {
        self.matcher_elapsed = self.matcher_elapsed.saturating_add(span);
        self.private_events = self.private_events + events;
        if emitted > 0 {
            self.public_events = self.public_events + emitted;
            self.latencies.push(latency);
        }
    }
}

/// What a simulation returns. Times are in nanoseconds.
pub struct SimResult {
    pub world: &'static str,
    pub venues: usize,
    pub instruments: u64,
    pub commands: u64,
    pub private_events: u64,
    pub public_events: u64,
    pub elapsed: u128,
    pub matcher_elapsed: u128,
    pub feed_latency: LatencyStats,
}

impl SimTally {
    /// The result of a run over what was counted.
    pub fn result(
        self,
        world: &'static str,
        venues: usize,
        instruments: u64,
        commands: u64,
        elapsed: u128,
    ) -> (result: SimResult)
        ensures
            result == (SimResult {
                world,
                venues,
                instruments,
                commands,
                private_events: self.private_events,
                public_events: self.public_events,
                elapsed,
                matcher_elapsed: self.matcher_elapsed,
                feed_latency: stats_of(self.latencies@),
            }),
    {
        SimResult {
            world,
            venues,
            instruments,
            commands,
            private_events: self.private_events,
            public_events: self.public_events,
            elapsed,
            matcher_elapsed: self.matcher_elapsed,
            feed_latency: latency_stats(self.latencies),
        }
    }
}

/// What a run of commands counts: all events, those among them that are public, and the commands
/// that had any of these.
pub struct Counts {
    pub private_events: nat,
    pub public_events: nat,
    pub measured: nat,
}

impl Counts {
    pub open spec fn none() -> Counts {
        Counts { private_events: 0, public_events: 0, measured: 0 }
    }

    /// The counts after one more command.
    pub open spec fn plus(self, events: Seq<BookEvent>) -> Counts {
        let public = sim_feed::public_texts(events).len();
        Counts {
            private_events: self.private_events + events.len(),
            public_events: self.public_events + public,
            measured: self.measured + if public > 0 {
                1nat
            } else {
                0
            },
        }
    }
}

/// A venue after the first `n` of `orders` were submitted to its first instrument.
pub open spec fn after_orders(venue: VenueView, orders: spec_fn(nat) -> NewOrder, n: nat) -> VenueView
    decreases n,
{
    if n == 0 {
        venue
    } else {
        let last = (n - 1) as nat;
        after_orders(venue, orders, last).submitted(0, orders(last))
    }
}

/// What the first `n` of `orders` count when they are submitted to a venue's first instrument.
pub open spec fn counts_of_orders(venue: VenueView, orders: spec_fn(nat) -> NewOrder, n: nat) -> Counts
    decreases n,
{
    if n == 0 {
        Counts::none()
    } else {
        let last = (n - 1) as nat;
        counts_of_orders(venue, orders, last).plus(
            after_orders(venue, orders, last).submit_events(0, orders(last)),
        )
    }
}

/// A tally holds these counts, with a latency for each command that was measured, and the sum of
/// the spans that the matcher spent on the commands.
pub open spec fn tallied(tally: SimTally, counts: Counts, spans: Seq<u128>) -> bool {
    &&& tally.matcher_elapsed == total_span(spans)
    &&& tally.private_events == counts.private_events
    &&& tally.public_events == counts.public_events
    &&& tally.latencies@.len() == counts.measured
}

/// A result holds these counts, the sum of one span for each command, and the distribution of as
/// many latencies as were measured.
pub open spec fn reports(result: SimResult, counts: Counts) -> bool {
    &&& exists|spans: Seq<u128>|
        spans.len() == result.commands && result.matcher_elapsed == #[trigger] total_span(spans)
    &&& result.private_events == counts.private_events
    &&& result.public_events == counts.public_events
    &&& exists|latencies: Seq<u128>|
        latencies.len() == counts.measured && result.feed_latency == #[trigger] stats_of(latencies)
}

proof fn lemma_fills_no_more_than_filled(fills: Seq<Fill>)
    requires
        forall|j: int| 0 <= j < fills.len() ==> (#[trigger] fills[j]).quantity > 0,
    ensures
        fills.len() <= model::filled(fills),
    decreases fills.len(),
{
    if fills.len() > 0 {
        assert forall|j: int| 0 <= j < fills.drop_first().len() implies (
        #[trigger] fills.drop_first()[j]).quantity > 0 by {
            assert(fills.drop_first()[j] == fills[j + 1]);
        }
        lemma_fills_no_more_than_filled(fills.drop_first());
    }
}

proof fn lemma_public_no_more(events: Seq<BookEvent>)
    ensures
        rebuild::public_events(events).len() <= events.len(),
    decreases events.len(),
{
    if events.len() > 0 {
        lemma_public_no_more(events.drop_last());
    }
}

/// An order has no more events than one and its quantity, and no more of them are public.
pub proof fn lemma_few_events(venue: VenueView, id: u32, order: NewOrder)
    requires
        venue.valid(),
        venue.lists(id),
    ensures
        venue.submit_events(id, order).len() <= 1 + order.quantity,
        sim_feed::public_texts(venue.submit_events(id, order)).len() <= venue.submit_events(id, order).len(),
{
    let book = venue.book(id);
    let side = order.side.other();
    assert(venue.books[id as int].valid());
    lemma_public_no_more(venue.submit_events(id, order));
    if venue.refusal(id, order) is None {
        model::lemma_matched(book.queue(side), side, order.price, order.quantity as nat);
        lemma_fills_no_more_than_filled(book.matching(order).fills);
    }
}

/// Every book of a venue has used no more than three sequence numbers, resting orders counted in,
/// for each of `commands` commands.
pub open spec fn within(venue: VenueView, commands: nat) -> bool {
    forall|i: int|
        0 <= i < venue.books.len() ==> venue_laws::footprint(#[trigger] venue.books[i]) <= 3 * commands
}

/// Seeding does not touch the books.
pub proof fn lemma_seeded_books(venue: VenueView, count: nat, endowment: seeding::Endowment)
    ensures
        seeding::seeded(venue, count, endowment).books == venue.books,
        seeding::seeded(venue, count, endowment).config == venue.config,
    decreases count,
{
    if count > 0 {
        lemma_seeded_books(venue, (count - 1) as nat, endowment);
        let before = seeding::seeded(venue, (count - 1) as nat, endowment).credited(
            count as u64,
            endowment.quote,
            endowment.quote_amount,
        );
        lemma_credited_books(before, count as u64, endowment.bases, endowment.base_amount);
    }
}

proof fn lemma_credited_books(venue: VenueView, account: u64, assets: Seq<Seq<char>>, amount: nat)
    ensures
        seeding::credited_each(venue, account, assets, amount).books == venue.books,
        seeding::credited_each(venue, account, assets, amount).config == venue.config,
    decreases assets.len(),
{
    if assets.len() > 0 {
        lemma_credited_books(venue, account, assets.drop_last(), amount);
    }
}

/// One more order uses no more than three sequence numbers.
pub proof fn lemma_within_submitted(venue: VenueView, id: u32, order: NewOrder, commands: nat)
    requires
        venue.valid(),
        venue.lists(id),
        within(venue, commands),
        commands < MAX_COMMANDS,
    ensures
        venue.book(id).has_room(),
        within(venue.submitted(id, order), commands + 1),
{
    assert(venue_laws::footprint(venue.books[id as int]) <= 3 * commands);
    venue_laws::law_order_takes_little_room(venue, id, order);
    let after = venue.submitted(id, order);
    assert forall|i: int| 0 <= i < after.books.len() implies venue_laws::footprint(#[trigger] after.books[i])
        <= 3 * (commands + 1) by {
        if i != id {
            assert(after.books[i] == venue.books[i]);
        }
    }
}

/// The distribution of values is read off their ascending order, however that was found: the first
/// and the last, and those at the percentiles, rounded down to a place in the order.
pub proof fn law_distribution_is_read_off_the_order(values: Seq<u128>, order: Seq<u128>)
    requires
        values.len() > 0,
        order.to_multiset() == values.to_multiset(),
        forall|i: int, j: int| 0 <= i <= j < order.len() ==> order[i] <= order[j],
    ensures
        ({
            let stats = stats_of(values);
            let last = order.len() - 1;
            &&& stats.min == order[0]
            &&& stats.p50 == order[last * 50 / 100]
            &&& stats.p95 == order[last * 95 / 100]
            &&& stats.p99 == order[last * 99 / 100]
            &&& stats.max == order[last]
        }),
{
    lemma_ascending(values, order);
}

/// No distribution is made of nothing.
pub proof fn law_nothing_has_no_distribution()
    ensures
        stats_of(seq![]) == (LatencyStats { min: 0, p50: 0, p95: 0, p99: 0, max: 0 }),
{
}

/// How many events are executions, orders that rest, or cancellations.
pub open spec fn public_count(events: Seq<BookEvent>) -> nat
    decreases events.len(),
{
    if events.len() == 0 {
        0
    } else {
        public_count(events.drop_last()) + (match events.last() {
            BookEvent::Executed { .. } => 1nat,
            BookEvent::Rested { .. } => 1,
            BookEvent::Canceled { .. } => 1,
            BookEvent::Accepted { .. } => 0,
            BookEvent::Rejected { .. } => 0,
        })
    }
}

/// As many texts go to the feed as there are public events.
pub proof fn lemma_public_count(events: Seq<BookEvent>)
    ensures
        sim_feed::public_texts(events).len() == public_count(events),
    decreases events.len(),
{
    if events.len() > 0 {
        lemma_public_count(events.drop_last());
    }
}

/// A run counts all events of each of its commands, those among them that are executions, orders
/// that rest or cancellations, and the commands that have any of these.
pub proof fn law_run_counts_each_command(venue: VenueView, orders: spec_fn(nat) -> NewOrder, n: nat)
    ensures
        counts_of_orders(venue, orders, 0) == (Counts { private_events: 0, public_events: 0, measured: 0 }),
        ({
            let before = counts_of_orders(venue, orders, n);
            let after = counts_of_orders(venue, orders, n + 1);
            let events = after_orders(venue, orders, n).submit_events(0, orders(n));
            &&& after.private_events == before.private_events + events.len()
            &&& after.public_events == before.public_events + public_count(events)
            &&& after.measured == before.measured + (if public_count(events) > 0 {
                1int
            } else {
                0
            })
        }),
        after_orders(venue, orders, 0) == venue,
        after_orders(venue, orders, n + 1) == after_orders(venue, orders, n).submitted(0, orders(n)),
{
    lemma_public_count(after_orders(venue, orders, n).submit_events(0, orders(n)));
}

/// The texts that go to the feed are those of the executions, the orders that rest and the
/// cancellations, in their order.
pub proof fn law_feed_texts_are_the_public_ones(events: Seq<BookEvent>, event: BookEvent)
    ensures
        sim_feed::public_texts(seq![]) == Seq::<Seq<char>>::empty(),
        sim_feed::public_texts(events.push(event)) == sim_feed::public_texts(events) + (match event {
            BookEvent::Accepted { .. } => seq![],
            BookEvent::Rejected { .. } => seq![],
            _ => seq![crate::events::event_text(event)],
        }),
{
    assert(events.push(event).drop_last() =~= events);
    let before = sim_feed::public_texts(events);
    let after = sim_feed::public_texts(events.push(event));
    assert(sim_feed::public_texts(seq![]) =~= Seq::<Seq<char>>::empty());
    if event is Accepted || event is Rejected {
        assert(after =~= before + Seq::<Seq<char>>::empty());
    } else {
        assert(after =~= before + seq![crate::events::event_text(event)]);
    }
}

/// A span is added to the total as it is, up to what a `u128` can hold.
pub proof fn law_spans_add_up(spans: Seq<u128>, span: u128)
    ensures
        total_span(seq![]) == 0,
        total_span(spans) + span <= u128::MAX ==> total_span(spans.push(span)) == total_span(spans) + span,
        total_span(spans) + span > u128::MAX ==> total_span(spans.push(span)) == u128::MAX,
{
    assert(spans.push(span).drop_last() =~= spans);
}

} // verus!
