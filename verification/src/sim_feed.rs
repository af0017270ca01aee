//! Where the public events of a simulation go.
use std::collections::VecDeque;

use vstd::prelude::*;

use crate::events;
use crate::rebuild;
use crate::sim_world;
use crate::sim_world::VenueRuntime;
use crate::text;
use crate::types::{BookEvent, InstrumentId};

verus! {

/// The texts of the public ones among `events`.
pub open spec fn public_texts(events: Seq<BookEvent>) -> Seq<Seq<char>> {
    let public = rebuild::public_events(events);
    Seq::new(public.len(), |i: int| events::event_text(public[i]))
}

/// The texts of the public ones among `events`.
pub fn public_lines(events: &Vec<BookEvent>) -> (lines: Vec<String>)
    ensures
        text::texts(lines@) == public_texts(events@),
{
    let n: usize = events.len();
    let mut lines: Vec<String> = Vec::new();
    let mut i: usize = 0;
    assert(text::texts(lines@) =~= public_texts(events@.take(0)));
    while i < n
        invariant
            i <= n,
            n == events@.len(),
            text::texts(lines@) == public_texts(events@.take(i as int)),
        decreases n - i,
    {
        let event = &events[i];
        let ghost before = lines@;
        proof {
            assert(events@.take(i + 1).drop_last() =~= events@.take(i as int));
            assert(events@.take(i + 1).last() == *event);
        }
        if events::is_public_event(event) {
            lines.push(events::format_public_event(event));
            assert(text::texts(lines@) =~= text::texts(before).push(events::event_text(*event)));
        }
        i = i + 1;
        assert(text::texts(lines@) =~= public_texts(events@.take(i as int)));
    }
    assert(events@.take(n as int) =~= events@);
    lines
}

/// A feed that every subscriber hears in full.
#[derive(Debug)]
pub struct FeedSink {
    pub subscribers: Vec<VecDeque<String>>,
}

impl View for FeedSink {
    type V = Seq<Seq<Seq<char>>>;

    open spec fn view(&self) -> Seq<Seq<Seq<char>>> {
        Seq::new(self.subscribers@.len(), |i: int| text::texts(self.subscribers@[i]@))
    }
}

/// Puts copies of `lines` at the end of `queue`.
fn append_lines(queue: &mut VecDeque<String>, lines: &Vec<String>)
    ensures
        text::texts(final(queue)@) == text::texts(old(queue)@) + text::texts(lines@),
{
    let ghost before = text::texts(queue@);
    let ghost all = text::texts(lines@);
    let n: usize = lines.len();
    let mut i: usize = 0;
    assert(text::texts(queue@) =~= before + all.take(0));
    while i < n
        invariant
            i <= n,
            n == lines@.len(),
            all == text::texts(lines@),
            text::texts(queue@) == before + all.take(i as int),
        decreases n - i,
    {
        let ghost now = queue@;
        queue.push_back(lines[i].clone());
        i = i + 1;
        assert(text::texts(queue@) =~= text::texts(now).push(all[i - 1]));
        assert(text::texts(queue@) =~= before + all.take(i as int));
    }
    assert(all.take(n as int) =~= all);
}

impl FeedSink {
    /// A feed with `subscriber_count` subscribers who have heard nothing yet.
    pub fn new(subscriber_count: u64) -> (sink: Self)
        requires
            subscriber_count <= usize::MAX,
        ensures
            sink@ == Seq::new(subscriber_count as nat, |i: int| Seq::<Seq<char>>::empty()),
    {
        let mut subscribers: Vec<VecDeque<String>> = Vec::new();
        let mut i: u64 = 0;
        while i < subscriber_count
            invariant
                i <= subscriber_count,
                subscriber_count <= usize::MAX,
                subscribers@.len() == i,
                forall|j: int| 0 <= j < i ==> (#[trigger] subscribers@[j])@.len() == 0,
            decreases subscriber_count - i,
        {
            subscribers.push(VecDeque::new());
            i = i + 1;
        }
        let sink = FeedSink { subscribers };
        assert forall|j: int| 0 <= j < sink@.len() implies #[trigger] sink@[j]
            =~= Seq::<Seq<char>>::empty() by {
            assert(sink.subscribers@[j]@.len() == 0);
        }
        assert(sink@ =~= Seq::new(subscriber_count as nat, |i: int| Seq::<Seq<char>>::empty()));
        sink
    }

    /// Sends the public ones among `events` to every subscriber, and returns how many there are.
    pub fn publish(&mut self, events: &Vec<BookEvent>) -> (public_events: u64)
        ensures
            public_events == public_texts(events@).len(),
            final(self)@ == Seq::new(
                old(self)@.len(),
                |i: int| old(self)@[i] + public_texts(events@),
            ),
    {
        let messages = public_lines(events);
        let ghost lines = public_texts(events@);
        let ghost before = self@;
        assert(text::texts(messages@).len() == messages@.len());
        let public_events: u64 = messages.len() as u64;
        let n: usize = self.subscribers.len();
        let mut i: usize = 0;
        while i < n
            invariant
                i <= n,
                n == self.subscribers@.len(),
                n == before.len(),
                lines == text::texts(messages@),
                forall|j: int|
                    0 <= j < n ==> text::texts((#[trigger] self.subscribers@[j])@) == (if j < i {
                        before[j] + lines
                    } else {
                        before[j]
                    }),
            decreases n - i,
        {
            let ghost now = self.subscribers@;
            assert(text::texts(now[i as int]@) == before[i as int]);
            append_lines(&mut self.subscribers[i], &messages);
            assert forall|j: int| 0 <= j < n && j != i implies #[trigger] self.subscribers@[j] == now[j] by {}
            i = i + 1;
        }
        proof {
            let after = self@;
            assert forall|j: int| 0 <= j < n implies #[trigger] after[j] == before[j] + lines by {
                assert(text::texts(self.subscribers@[j]@) == before[j] + lines);
            }
            assert(after =~= Seq::new(before.len(), |i: int| before[i] + lines));
        }
        public_events
    }
}

/// One instrument of one venue of a world.
#[derive(Debug, Clone, Copy, PartialEq, Eq, Structural)]
pub struct EdgeId {
    pub venue_index: usize,
    pub instrument_id: InstrumentId,
}

impl EdgeId {
    /// Edges are ordered by venue, and within a venue by instrument.
    pub open spec fn before(self, other: EdgeId) -> bool {
        self.venue_index < other.venue_index || self.venue_index == other.venue_index
            && self.instrument_id < other.instrument_id
    }
}

/// A public event and the edge on which it happened.
#[derive(Debug, PartialEq, Eq)]
pub struct ObservedBookEvent {
    pub edge: EdgeId,
    pub message: String,
}

/// An observed event as contracts speak of it.
pub struct ObservedView {
    pub edge: EdgeId,
    pub message: Seq<char>,
}

impl View for ObservedBookEvent {
    type V = ObservedView;

    open spec fn view(&self) -> ObservedView {
        ObservedView { edge: self.edge, message: self.message@ }
    }
}

pub open spec fn observed_views(events: Seq<ObservedBookEvent>) -> Seq<ObservedView> {
    Seq::new(events.len(), |i: int| events[i]@)
}

/// The events of `edge` with these texts.
pub open spec fn observed(edge: EdgeId, messages: Seq<Seq<char>>) -> Seq<ObservedView> {
    Seq::new(messages.len(), |i: int| ObservedView { edge, message: messages[i] })
}

/// What one trader sees of a world: the edges that it follows, and what it heard from them.
#[derive(Debug)]
pub struct TraderMarketDataView {
    pub subscribed_edges: Vec<EdgeId>,
    pub inbox: VecDeque<ObservedBookEvent>,
}

pub open spec fn in_order(edges: Seq<EdgeId>) -> bool {
    forall|i: int, j: int| 0 <= i < j < edges.len() ==> (#[trigger] edges[i]).before(#[trigger] edges[j])
}

/// The number of edges of the first `n` venues, which have these numbers of instruments.
pub open spec fn edge_count(instrument_counts: Seq<u32>, n: nat) -> nat
    decreases n,
{
    if n == 0 {
        0
    } else {
        edge_count(instrument_counts, (n - 1) as nat) + instrument_counts[n - 1] as nat
    }
}

/// Whether `edge` is an edge of a world whose venues have these numbers of instruments.
pub open spec fn is_edge(instrument_counts: Seq<u32>, edge: EdgeId) -> bool {
    edge.venue_index < instrument_counts.len() && edge.instrument_id
        < instrument_counts[edge.venue_index as int]
}

impl TraderMarketDataView {
    /// The edges are in order, and none occurs twice.
    pub open spec fn wf(self) -> bool {
        in_order(self.subscribed_edges@)
    }

    /// What the trader heard, oldest first.
    pub open spec fn heard(self) -> Seq<ObservedView> {
        observed_views(self.inbox@)
    }

    /// A trader who follows every edge of a world.
    pub fn subscribe_all_edges(venues: &Vec<VenueRuntime>) -> (view: Self)
        ensures
            view.wf(),
            view.heard() == Seq::<ObservedView>::empty(),
            ({
                let counts = sim_world::counts_of(sim_world::world_views(venues@));
                &&& view.subscribed_edges@.len() == edge_count(counts, counts.len())
                &&& forall|edge: EdgeId| #[trigger]
                    view.subscribed_edges@.contains(edge) <==> is_edge(counts, edge)
            }),
    {
        Self::follow_all(&sim_world::instrument_counts(venues))
    }

    /// A trader who follows every edge of a world whose venues have these numbers of instruments.
    pub fn follow_all(instrument_counts: &Vec<u32>) -> (view: Self)
        ensures
            view.wf(),
            view.heard() == Seq::<ObservedView>::empty(),
            view.subscribed_edges@.len() == edge_count(instrument_counts@, instrument_counts@.len()),
            forall|edge: EdgeId| #[trigger]
                view.subscribed_edges@.contains(edge) <==> is_edge(instrument_counts@, edge),
    {
        let mut subscribed_edges: Vec<EdgeId> = Vec::new();
        let n: usize = instrument_counts.len();
        let mut venue_index: usize = 0;
        while venue_index < n
            invariant
                venue_index <= n,
                n == instrument_counts@.len(),
                in_order(subscribed_edges@),
                subscribed_edges@.len() == edge_count(instrument_counts@, venue_index as nat),
                forall|k: int|
                    0 <= k < subscribed_edges@.len() ==> (#[trigger] subscribed_edges@[k]).venue_index
                        < venue_index && is_edge(instrument_counts@, subscribed_edges@[k]),
                forall|edge: EdgeId|
                    is_edge(instrument_counts@, edge) && edge.venue_index < venue_index
                        ==> #[trigger] subscribed_edges@.contains(edge),
            decreases n - venue_index,
        {
            let count: u32 = instrument_counts[venue_index];
            let ghost start = subscribed_edges@;
            let mut instrument_id: u32 = 0;
            while instrument_id < count
                invariant
                    venue_index < n,
                    n == instrument_counts@.len(),
                    count == instrument_counts@[venue_index as int],
                    instrument_id <= count,
                    in_order(subscribed_edges@),
                    start.len() == edge_count(instrument_counts@, venue_index as nat),
                    subscribed_edges@.len() == start.len() + instrument_id,
                    forall|k: int|
                        0 <= k < subscribed_edges@.len() ==> is_edge(
                            instrument_counts@,
                            #[trigger] subscribed_edges@[k],
                        ) && (subscribed_edges@[k].venue_index < venue_index
                            || subscribed_edges@[k].venue_index == venue_index
                            && subscribed_edges@[k].instrument_id < instrument_id),
                    forall|edge: EdgeId|
                        is_edge(instrument_counts@, edge) && (edge.venue_index < venue_index
                            || edge.venue_index == venue_index && edge.instrument_id < instrument_id)
                            ==> #[trigger] subscribed_edges@.contains(edge),
                decreases count - instrument_id,
            {
                let ghost before = subscribed_edges@;
                let edge = EdgeId { venue_index, instrument_id };
                subscribed_edges.push(edge);
                proof {
                    let now = subscribed_edges@;
                    assert forall|e: EdgeId|
                        is_edge(instrument_counts@, e) && (e.venue_index < venue_index || e.venue_index
                            == venue_index && e.instrument_id < instrument_id + 1) implies #[trigger]
                    now.contains(e) by {
                        if e == edge {
                            assert(now[now.len() - 1] == e);
                        } else {
                            assert(before.contains(e));
                            let k = choose|k: int| 0 <= k < before.len() && before[k] == e;
                            assert(now[k] == e);
                        }
                    }
                }
                instrument_id = instrument_id + 1;
            }
            venue_index = venue_index + 1;
        }
        let view = TraderMarketDataView { subscribed_edges, inbox: VecDeque::new() };
        proof {
            assert(view.heard() =~= Seq::<ObservedView>::empty());
            let edges = view.subscribed_edges@;
            assert forall|edge: EdgeId| #[trigger] edges.contains(edge) implies is_edge(
                instrument_counts@,
                edge,
            ) by {
                let k = choose|k: int| 0 <= k < edges.len() && edges[k] == edge;
                assert(is_edge(instrument_counts@, edges[k]));
            }
        }
        view
    }

    /// Whether the trader follows `edge`.
    pub fn is_subscribed(&self, edge: EdgeId) -> (result: bool)
        requires
            self.wf(),
        ensures
            result == self.subscribed_edges@.contains(edge),
    {
        let ghost edges = self.subscribed_edges@;
        let mut low: usize = 0;
        let mut high: usize = self.subscribed_edges.len();
        while low < high
            invariant
                low <= high <= edges.len(),
                edges == self.subscribed_edges@,
                in_order(edges),
                forall|k: int| 0 <= k < low ==> (#[trigger] edges[k]).before(edge),
                forall|k: int| high <= k < edges.len() ==> edge.before(#[trigger] edges[k]),
            decreases high - low,
        {
            let middle: usize = low + (high - low) / 2;
            let found = self.subscribed_edges[middle];
            if found == edge {
                assert(edges[middle as int] == edge);
                return true;
            }
            if found.venue_index < edge.venue_index || (found.venue_index == edge.venue_index
                && found.instrument_id < edge.instrument_id) {
                proof {
                    assert(found.before(edge));
                    assert forall|k: int| 0 <= k < middle + 1 implies (#[trigger] edges[k]).before(edge) by {
                        if k < middle {
                            assert(edges[k].before(edges[middle as int]));
                        }
                    }
                }
                low = middle + 1;
            } else {
                proof {
                    assert(edge.before(found));
                    assert forall|k: int| middle <= k < edges.len() implies edge.before(#[trigger] edges[k]) by {
                        if k > middle {
                            assert(edges[middle as int].before(edges[k]));
                        }
                    }
                }
                high = middle;
            }
        }
        assert(!edges.contains(edge)) by {
            if edges.contains(edge) {
                let k = choose|k: int| 0 <= k < edges.len() && edges[k] == edge;
                if k < low {
                    assert(edges[k].before(edge));
                } else {
                    assert(edge.before(edges[k]));
                }
            }
        }
        false
    }

    /// Puts an event at the end of the inbox.
    pub fn receive(&mut self, event: ObservedBookEvent)
        ensures
            final(self).subscribed_edges == old(self).subscribed_edges,
            final(self).heard() == old(self).heard().push(event@),
    {
        let ghost before = self.heard();
        let ghost view = event@;
        self.inbox.push_back(event);
        assert(self.heard() =~= before.push(view));
    }
}

/// The traders of a world, each with its own view of the market.
#[derive(Debug)]
pub struct MarketDataFabric {
    pub traders: Vec<TraderMarketDataView>,
}

impl MarketDataFabric {
    pub open spec fn wf(self) -> bool {
        forall|i: int| 0 <= i < self.traders@.len() ==> (#[trigger] self.traders@[i]).wf()
    }

    /// Traders who all follow every edge of a world.
    pub fn with_omniscient_traders(trader_count: u64, venues: &Vec<VenueRuntime>) -> (fabric: Self)
        requires
            trader_count <= usize::MAX,
        ensures
            fabric.wf(),
            fabric.traders@.len() == trader_count,
            forall|i: int|
                0 <= i < trader_count ==> (#[trigger] fabric.traders@[i]).heard()
                    == Seq::<ObservedView>::empty(),
            forall|i: int, edge: EdgeId|
                0 <= i < trader_count ==> (#[trigger] fabric.traders@[i].subscribed_edges@.contains(edge)
                    <==> is_edge(
                        sim_world::counts_of(sim_world::world_views(venues@)),
                        edge,
                    )),
            forall|i: int|
                0 <= i < trader_count ==> (#[trigger] fabric.traders@[i]).subscribed_edges@.len()
                    == edge_count(
                    sim_world::counts_of(sim_world::world_views(venues@)),
                    venues@.len(),
                ),
    {
        let instrument_counts = sim_world::instrument_counts(venues);
        let mut traders: Vec<TraderMarketDataView> = Vec::new();
        let mut i: u64 = 0;
        while i < trader_count
            invariant
                i <= trader_count,
                trader_count <= usize::MAX,
                traders@.len() == i,
                forall|j: int| 0 <= j < i ==> (#[trigger] traders@[j]).wf(),
                forall|j: int| 0 <= j < i ==> (#[trigger] traders@[j]).heard() == Seq::<ObservedView>::empty(),
                forall|j: int, edge: EdgeId|
                    0 <= j < i ==> (#[trigger] traders@[j].subscribed_edges@.contains(edge) <==> is_edge(
                        instrument_counts@,
                        edge,
                    )),
                forall|j: int|
                    0 <= j < i ==> (#[trigger] traders@[j]).subscribed_edges@.len() == edge_count(
                        instrument_counts@,
                        instrument_counts@.len(),
                    ),
            decreases trader_count - i,
        {
            traders.push(TraderMarketDataView::follow_all(&instrument_counts));
            i = i + 1;
        }
        MarketDataFabric { traders }
    }

    /// Sends the public ones among the `events` of an edge to every trader who follows it, and
    /// returns how many there are.
    pub fn publish(&mut self, edge: EdgeId, events: &Vec<BookEvent>) -> (public_events: u64)
        requires
            old(self).wf(),
        ensures
            final(self).wf(),
            public_events == public_texts(events@).len(),
            final(self).traders@.len() == old(self).traders@.len(),
            forall|i: int|
                #![trigger final(self).traders@[i]]
                #![trigger old(self).traders@[i]]
                0 <= i < old(self).traders@.len() ==> {
                    let before = old(self).traders@[i];
                    let after = final(self).traders@[i];
                    &&& after.subscribed_edges == before.subscribed_edges
                    &&& after.heard() == (if before.subscribed_edges@.contains(edge) {
                        before.heard() + observed(edge, public_texts(events@))
                    } else {
                        before.heard()
                    })
                },
    {
        let messages = public_lines(events);
        let ghost lines = public_texts(events@);
        let ghost before = self.traders@;
        assert(text::texts(messages@).len() == messages@.len());
        let public_events: u64 = messages.len() as u64;
        let n: usize = self.traders.len();
        let mut i: usize = 0;
        while i < n
            invariant
                i <= n,
                n == self.traders@.len(),
                n == before.len(),
                lines == text::texts(messages@),
                forall|j: int| 0 <= j < n ==> (#[trigger] before[j]).wf(),
                forall|j: int| i <= j < n ==> #[trigger] self.traders@[j] == before[j],
                forall|j: int|
                    #![trigger self.traders@[j]]
                    0 <= j < i ==> self.traders@[j].subscribed_edges == before[j].subscribed_edges
                        && self.traders@[j].heard() == (if before[j].subscribed_edges@.contains(edge) {
                        before[j].heard() + observed(edge, lines)
                    } else {
                        before[j].heard()
                    }),
            decreases n - i,
        {
            let ghost now = self.traders@;
            assert(self.traders@[i as int] == before[i as int]);
            if self.traders[i].is_subscribed(edge) {
                deliver(&mut self.traders[i], edge, &messages);
            }
            assert forall|j: int| 0 <= j < n && j != i implies #[trigger] self.traders@[j] == now[j] by {}
            i = i + 1;
        }
        proof {
            assert forall|j: int| 0 <= j < n implies (#[trigger] self.traders@[j]).wf() by {
                assert(before[j].wf());
            }
        }
        public_events
    }
}

/// Sends messages of an edge to one trader.
fn deliver(trader: &mut TraderMarketDataView, edge: EdgeId, messages: &Vec<String>)
    ensures
        final(trader).subscribed_edges == old(trader).subscribed_edges,
        final(trader).heard() == old(trader).heard() + observed(edge, text::texts(messages@)),
{
    let ghost before = trader.heard();
    let ghost all = text::texts(messages@);
    let n: usize = messages.len();
    let mut i: usize = 0;
    assert(trader.heard() =~= before + observed(edge, all.take(0)));
    while i < n
        invariant
            i <= n,
            n == messages@.len(),
            all == text::texts(messages@),
            trader.subscribed_edges == old(trader).subscribed_edges,
            trader.heard() == before + observed(edge, all.take(i as int)),
        decreases n - i,
    {
        trader.receive(ObservedBookEvent { edge, message: messages[i].clone() });
        i = i + 1;
        assert(trader.heard() =~= before + observed(edge, all.take(i as int)));
    }
    assert(all.take(n as int) =~= all);
}

/// An edge is one instrument of one venue, and there are as many as the venues have instruments.
pub proof fn law_edges_are_the_instruments(counts: Seq<u32>, count: u32, edge: EdgeId)
    ensures
        is_edge(counts, edge) <==> edge.venue_index < counts.len() && edge.instrument_id
            < counts[edge.venue_index as int],
        edge_count(seq![], 0) == 0,
        edge_count(counts.push(count), (counts.len() + 1) as nat) == edge_count(counts, counts.len()) + count,
{
    lemma_same_edges(counts, counts.push(count), counts.len());
}

proof fn lemma_same_edges(counts: Seq<u32>, more: Seq<u32>, n: nat)
    requires
        n <= counts.len() <= more.len(),
        forall|i: int| 0 <= i < n ==> #[trigger] counts[i] == more[i],
    ensures
        edge_count(counts, n) == edge_count(more, n),
    decreases n,
{
    if n > 0 {
        lemma_same_edges(counts, more, (n - 1) as nat);
    }
}

/// A message is observed at the edge that it came from, and messages in the order in which they came.
pub proof fn law_messages_are_observed_in_turn(edge: EdgeId, messages: Seq<Seq<char>>, message: Seq<char>)
    ensures
        observed(edge, seq![]) == Seq::<ObservedView>::empty(),
        observed(edge, messages.push(message)) == observed(edge, messages).push(ObservedView { edge, message }),
{
    assert(observed(edge, seq![]) =~= Seq::<ObservedView>::empty());
    assert(observed(edge, messages.push(message)) =~= observed(edge, messages).push(
        ObservedView { edge, message },
    ));
}

} // verus!
