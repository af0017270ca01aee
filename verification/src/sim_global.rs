//! The simulation of a world of many venues.
use vstd::prelude::*;

use crate::clock;
use crate::instrument::ConfigView;
use crate::sim_config::SimConfig;
use crate::sim_feed;
use crate::sim_feed::{EdgeId, MarketDataFabric};
use crate::sim_run;
use crate::sim_run::{Counts, SimResult, SimTally, MAX_COMMANDS};
use crate::sim_world;
use crate::sim_world::{DeterministicRng, VenueRuntime, WorldVenue};
use crate::text;
use crate::types::{BookEvent, NewOrder};
use crate::venue_laws;
use crate::venue_model::VenueView;

verus! {

/// An order, and where it goes.
#[derive(Debug, Clone, Copy)]
pub struct Planned {
    pub edge: EdgeId,
    pub order: NewOrder,
}

/// A simulation of a whole world.
pub struct GlobalSim {
    venues: Vec<VenueRuntime>,
    market_data: MarketDataFabric,
    instruments: u64,
    rng: DeterministicRng,
    total_weight: u64,
    traders: u64,
    planned: u64,
    placed: u64,
}

/// The seed from which the global world draws.
pub const GLOBAL_SEED: u64 = 0x51d0_ecc0_ffee;

/// A world in the midst of a run: its venues, and the state from which the next numbers are drawn.
pub struct WorldState {
    pub world: Seq<WorldVenue>,
    pub rng: u64,
}

impl WorldState {
    /// The venue on which the next order falls.
    pub open spec fn drawn_venue(self) -> int {
        let draw = DeterministicRng::next_state(self.rng) % 11_520;
        sim_world::fallen_on(self.world, 0, draw as nat) as int
    }

    /// The state after a venue and an instrument were drawn.
    pub open spec fn next_rng(self) -> u64 {
        DeterministicRng::next_state(DeterministicRng::next_state(self.rng))
    }

    /// The instrument of that venue on which the next order falls.
    pub open spec fn drawn_instrument(self) -> u32 {
        (self.next_rng() % (self.world[self.drawn_venue()].instrument_count as u64)) as u32
    }

    /// The order that arrives as number `index`.
    pub open spec fn order(self, traders: u64, index: nat) -> NewOrder {
        sim_world::arriving(index as u64, traders, self.world[self.drawn_venue()].next_order_id)
    }

    /// The events of that order.
    pub open spec fn events(self, traders: u64, index: nat) -> Seq<BookEvent> {
        self.world[self.drawn_venue()].venue.submit_events(
            self.drawn_instrument(),
            self.order(traders, index),
        )
    }

    /// The world after that order.
    pub open spec fn next(self, traders: u64, index: nat) -> WorldState {
        let at = self.drawn_venue();
        let venue = self.world[at];
        WorldState {
            world: self.world.update(
                at,
                WorldVenue {
                    venue: venue.venue.submitted(self.drawn_instrument(), self.order(traders, index)),
                    next_order_id: (venue.next_order_id + 1) as u64,
                    ..venue
                },
            ),
            rng: self.next_rng(),
        }
    }
}

/// The global world after the first `n` commands.
pub open spec fn world_after(traders: u64, n: nat) -> WorldState
    decreases n,
{
    if n == 0 {
        WorldState { world: sim_world::global_world(traders), rng: GLOBAL_SEED }
    } else {
        world_after(traders, (n - 1) as nat).next(traders, (n - 1) as nat)
    }
}

/// What the first `n` commands count.
pub open spec fn counted(traders: u64, n: nat) -> Counts
    decreases n,
{
    if n == 0 {
        Counts::none()
    } else {
        counted(traders, (n - 1) as nat).plus(
            world_after(traders, (n - 1) as nat).events(traders, (n - 1) as nat),
        )
    }
}

/// The sum of the weights of all venues.
fn sum_of_weights(venues: &Vec<VenueRuntime>) -> (total: u64)
    requires
        sim_world::weight_below(sim_world::world_views(venues@), venues@.len()) <= u64::MAX,
    ensures
        total == sim_world::weight_below(sim_world::world_views(venues@), venues@.len()),
{
    let ghost all = sim_world::world_views(venues@);
    let n: usize = venues.len();
    let mut total: u64 = 0;
    let mut i: usize = 0;
    while i < n
        invariant
            i <= n,
            n == venues@.len(),
            all == sim_world::world_views(venues@),
            sim_world::weight_below(all, n as nat) <= u64::MAX,
            total == sim_world::weight_below(all, i as nat),
        decreases n - i,
    {
        proof {
            sim_world::lemma_weight_grows(all, (i + 1) as nat, n as nat);
            assert(all[i as int] == venues@[i as int]@);
        }
        total = total + venues[i].command_weight;
        i = i + 1;
    }
    total
}

/// How many instruments there are on all venues.
fn sum_of_counts(counts: &Vec<u32>) -> (total: u64)
    requires
        sim_feed::edge_count(counts@, counts@.len()) <= u64::MAX,
    ensures
        total == sim_feed::edge_count(counts@, counts@.len()),
{
    let n: usize = counts.len();
    let mut total: u64 = 0;
    let mut i: usize = 0;
    while i < n
        invariant
            i <= n,
            n == counts@.len(),
            sim_feed::edge_count(counts@, n as nat) <= u64::MAX,
            total == sim_feed::edge_count(counts@, i as nat),
        decreases n - i,
    {
        proof {
            lemma_edges_grow(counts@, (i + 1) as nat, n as nat);
        }
        total = total + counts[i] as u64;
        i = i + 1;
    }
    total
}

proof fn lemma_edges_grow(counts: Seq<u32>, i: nat, j: nat)
    requires
        i <= j,
    ensures
        sim_feed::edge_count(counts, i) <= sim_feed::edge_count(counts, j),
    decreases j - i,
{
    if i < j {
        lemma_edges_grow(counts, i, (j - 1) as nat);
    }
}

impl GlobalSim {
    pub closed spec fn wf(self) -> bool {
        &&& sim_world::world_wf(self.venues@)
        &&& self.market_data.wf()
        &&& self.venues@.len() > 0
        &&& self.instruments == sim_feed::edge_count(
            sim_world::counts_of(self.world()),
            self.venues@.len(),
        )
        &&& forall|i: int|
            0 <= i < self.venues@.len() ==> {
                let v = #[trigger] self.venues@[i];
                &&& v.instrument_count > 0
                &&& v.venue@.books.len() == v.instrument_count
                &&& sim_run::within(v.venue@, self.placed as nat)
                &&& v.next_order_id <= self.planned + 1
            }
    }

    /// The venues.
    pub closed spec fn world(self) -> Seq<WorldVenue> {
        sim_world::world_views(self.venues@)
    }

    /// The venues are valid, and have as many books as instruments.
    pub proof fn lemma_wf_valid(&self, at: int)
        requires
            self.wf(),
            0 <= at < self.world().len(),
        ensures
            self.world()[at].venue.valid(),
            self.world()[at].venue.books.len() == self.world()[at].instrument_count,
    {
        assert(self.venues@[at].venue.wf());
        assert(self.venues@[at].venue@.books.len() == self.venues@[at].instrument_count);
        self.venues@[at].venue.lemma_wf_valid();
    }

    /// The traders.
    pub closed spec fn fabric(self) -> MarketDataFabric {
        self.market_data
    }

    /// How many orders were planned.
    pub closed spec fn planned_count(self) -> nat {
        self.planned as nat
    }

    /// How many orders were placed.
    pub closed spec fn placed_count(self) -> nat {
        self.placed as nat
    }

    pub closed spec fn trader_count(self) -> u64 {
        self.traders
    }

    pub closed spec fn rng_state(self) -> u64 {
        self.rng.state()
    }

    pub closed spec fn weight(self) -> u64 {
        self.total_weight
    }

    /// How many venues there are.
    pub fn venue_count(&self) -> (count: usize)
        ensures
            count == self.world().len(),
    {
        self.venues.len()
    }

    /// How many instruments there are on all venues.
    pub fn instrument_count(&self) -> (count: u64)
        requires
            self.wf(),
        ensures
            count == sim_feed::edge_count(sim_world::counts_of(self.world()), self.world().len()),
    {
        self.instruments
    }

    pub fn new(config: &SimConfig) -> (sim: Self)
        requires
            config.traders < u64::MAX,
            config.feed_subscribers <= usize::MAX,
        ensures
            sim.wf(),
            sim.world() == sim_world::global_world(config.traders),
            sim.planned_count() == 0,
            sim.placed_count() == 0,
            sim.trader_count() == config.traders,
            sim.rng_state() == GLOBAL_SEED,
            sim.weight() == 11_520,
            sim.fabric().traders@.len() == config.feed_subscribers,
            forall|i: int|
                0 <= i < config.feed_subscribers ==> (
                #[trigger] sim.fabric().traders@[i]).subscribed_edges@.len() == 10_200,
            forall|i: int, edge: EdgeId|
                0 <= i < config.feed_subscribers ==> (
                #[trigger] sim.fabric().traders@[i].subscribed_edges@.contains(edge) <==> sim_feed::is_edge(
                    sim_world::counts_of(sim.world()),
                    edge,
                )),
            forall|i: int|
                0 <= i < config.feed_subscribers ==> (#[trigger] sim.fabric().traders@[i]).heard()
                    == Seq::<sim_feed::ObservedView>::empty(),
    {
        let venues = sim_world::global_lob_world(config.traders);
        let ghost all = sim_world::world_views(venues@);
        proof {
            sim_world::law_global_world_size(config.traders);
            sim_world::law_global_world_weight(config.traders);
            lemma_global_world_is_fresh(config.traders);
        }
        let total_weight: u64 = sum_of_weights(&venues);
        let counts = sim_world::instrument_counts(&venues);
        let market_data = MarketDataFabric::with_omniscient_traders(config.feed_subscribers, &venues);
        let instruments: u64 = sum_of_counts(&counts);
        let sim = GlobalSim {
            venues,
            market_data,
            instruments,
            rng: DeterministicRng::new(GLOBAL_SEED),
            total_weight,
            traders: config.traders,
            planned: 0,
            placed: 0,
        };
        proof {
            assert forall|i: int| 0 <= i < sim.venues@.len() implies {
                let v = #[trigger] sim.venues@[i];
                &&& v.instrument_count > 0
                &&& v.venue@.books.len() == v.instrument_count
                &&& sim_run::within(v.venue@, 0)
                &&& v.next_order_id <= 1
            } by {
                assert(all[i] == sim.venues@[i]@);
            }
        }
        sim
    }

    /// Draws where the next order goes, and makes it up.
    pub fn plan(&mut self) -> (planned: Planned)
        requires
            old(self).wf(),
            old(self).planned_count() < MAX_COMMANDS,
        ensures
            final(self).wf(),
            final(self).planned_count() == old(self).planned_count() + 1,
            final(self).placed_count() == old(self).placed_count(),
            final(self).trader_count() == old(self).trader_count(),
            final(self).weight() == old(self).weight(),
            final(self).fabric() == old(self).fabric(),
            ({
                let first = DeterministicRng::next_state(old(self).rng_state());
                let second = DeterministicRng::next_state(first);
                let before = old(self).world();
                let draw = first % sim_world::at_least_one(old(self).weight());
                let at = sim_world::fallen_on(before, 0, draw as nat) as int;
                let venue = before[at];
                &&& final(self).rng_state() == second
                &&& planned.edge.venue_index == at
                &&& 0 <= at < before.len()
                &&& planned.edge.instrument_id == second % (venue.instrument_count as u64)
                &&& planned.edge.instrument_id < venue.instrument_count
                &&& planned.order == sim_world::arriving(
                    old(self).planned_count() as u64,
                    old(self).trader_count(),
                    venue.next_order_id,
                )
                &&& final(self).world() == before.update(
                    at,
                    WorldVenue {
                        next_order_id: (venue.next_order_id + 1) as u64,
                        ..venue
                    },
                )
            }),
    {
        let ghost before = sim_world::world_views(self.venues@);
        let ghost start = self.venues@;
        let venue_index: usize = sim_world::weighted_venue_index(
            &mut self.rng,
            &self.venues,
            self.total_weight,
        );
        assert(before[venue_index as int] == self.venues@[venue_index as int]@);
        assert(self.venues@[venue_index as int].instrument_count > 0);
        let count: u32 = self.venues[venue_index].instrument_count;
        let instrument_id: u32 = self.rng.next_u32(count);
        let order_id: u64 = self.venues[venue_index].next_order_id;
        let order = sim_world::synthetic_world_order(self.planned, self.traders, order_id);
        self.venues[venue_index].next_order_id = order_id + 1;
        self.planned = self.planned + 1;
        proof {
            assert forall|i: int| 0 <= i < self.venues@.len() implies {
                let v = #[trigger] self.venues@[i];
                &&& v.venue.wf()
                &&& v.instrument_count > 0
                &&& v.venue@.books.len() == v.instrument_count
                &&& sim_run::within(v.venue@, self.placed as nat)
                &&& v.next_order_id <= self.planned + 1
            } by {
                assert(start[i].venue.wf());
                assert(start[i].venue@.books.len() == start[i].instrument_count);
            }
            let venue = before[venue_index as int];
            assert(sim_world::counts_of(self.world()) =~= sim_world::counts_of(before));
            assert(sim_world::world_views(self.venues@) =~= before.update(
                venue_index as int,
                WorldVenue { next_order_id: (venue.next_order_id + 1) as u64, ..venue },
            ));
        }
        Planned { edge: EdgeId { venue_index, instrument_id }, order }
    }

    /// Places a planned order and returns its events.
    pub fn place(&mut self, planned: &Planned) -> (events: Vec<BookEvent>)
        requires
            old(self).wf(),
            old(self).placed_count() < MAX_COMMANDS,
            planned.edge.venue_index < old(self).world().len(),
            planned.edge.instrument_id < old(self).world()[planned.edge.venue_index as int].instrument_count,
        ensures
            final(self).wf(),
            final(self).planned_count() == old(self).planned_count(),
            final(self).placed_count() == old(self).placed_count() + 1,
            final(self).trader_count() == old(self).trader_count(),
            final(self).weight() == old(self).weight(),
            final(self).rng_state() == old(self).rng_state(),
            final(self).fabric() == old(self).fabric(),
            ({
                let before = old(self).world();
                let at = planned.edge.venue_index as int;
                let venue = before[at].venue;
                &&& events@ == venue.submit_events(planned.edge.instrument_id, planned.order)
                &&& final(self).world() == before.update(
                    at,
                    WorldVenue {
                        venue: venue.submitted(planned.edge.instrument_id, planned.order),
                        ..before[at]
                    },
                )
            }),
    {
        let ghost before = sim_world::world_views(self.venues@);
        let ghost start = self.venues@;
        let ghost done = self.placed as nat;
        let at: usize = planned.edge.venue_index;
        let id: u32 = planned.edge.instrument_id;
        let order = planned.order;
        proof {
            assert(start[at as int].venue.wf());
            assert(start[at as int].venue@.books.len() == start[at as int].instrument_count);
            assert(before[at as int] == start[at as int]@);
            start[at as int].venue.lemma_wf_valid();
            sim_run::lemma_within_submitted(start[at as int].venue@, id, order, done);
            venue_laws::law_room_suffices(start[at as int].venue@, id, order.order_id, order);
        }
        let events = match self.venues[at].venue.submit_limit(id, order) {
            Ok(events) => events,
            Err(_) => Vec::new(),
        };
        self.placed = self.placed + 1;
        proof {
            assert forall|i: int| 0 <= i < self.venues@.len() implies {
                let v = #[trigger] self.venues@[i];
                &&& v.venue.wf()
                &&& v.instrument_count > 0
                &&& v.venue@.books.len() == v.instrument_count
                &&& sim_run::within(v.venue@, self.placed as nat)
                &&& v.next_order_id <= self.planned + 1
            } by {
                assert(start[i].venue.wf());
                assert(start[i].venue@.books.len() == start[i].instrument_count);
                assert(sim_run::within(start[i].venue@, done));
                if i != at {
                    assert(self.venues@[i] == start[i]);
                    assert forall|k: int| 0 <= k < start[i].venue@.books.len() implies venue_laws::footprint(
                        #[trigger] start[i].venue@.books[k],
                    ) <= 3 * (done + 1) by {}
                }
            }
            assert(sim_world::counts_of(self.world()) =~= sim_world::counts_of(before));
            assert(sim_world::world_views(self.venues@) =~= before.update(
                at as int,
                WorldVenue {
                    venue: before[at as int].venue.submitted(id, order),
                    ..before[at as int]
                },
            ));
        }
        events
    }

    /// Sends the public ones among the events of an edge to the traders, and returns how many there
    /// are.
    pub fn publish(&mut self, edge: EdgeId, events: &Vec<BookEvent>) -> (public_events: u64)
        requires
            old(self).wf(),
        ensures
            final(self).wf(),
            final(self).world() == old(self).world(),
            final(self).planned_count() == old(self).planned_count(),
            final(self).placed_count() == old(self).placed_count(),
            final(self).trader_count() == old(self).trader_count(),
            final(self).weight() == old(self).weight(),
            final(self).rng_state() == old(self).rng_state(),
            public_events == sim_feed::public_texts(events@).len(),
            final(self).fabric().traders@.len() == old(self).fabric().traders@.len(),
            forall|i: int|
                #![trigger final(self).fabric().traders@[i]]
                0 <= i < old(self).fabric().traders@.len() ==> {
                    let before = old(self).fabric().traders@[i];
                    let after = final(self).fabric().traders@[i];
                    &&& after.subscribed_edges == before.subscribed_edges
                    &&& after.heard() == (if before.subscribed_edges@.contains(edge) {
                        before.heard() + sim_feed::observed(edge, sim_feed::public_texts(events@))
                    } else {
                        before.heard()
                    })
                },
    {
        self.market_data.publish(edge, events)
    }
}

/// Runs the commands of a configuration through the global world.
pub fn run_global_lob_sim(config: &SimConfig) -> (result: SimResult)
    requires
        config.traders < u64::MAX,
        config.feed_subscribers <= usize::MAX,
        config.commands <= MAX_COMMANDS,
    ensures
        result.world@ == "global-lob"@,
        result.venues == 96,
        result.instruments == 10_200,
        result.commands == config.commands,
        sim_run::reports(result, counted(config.traders, config.commands as nat)),
{
    let ghost traders = config.traders;
    let mut sim = GlobalSim::new(config);
    let venues: usize = sim.venue_count();
    let instruments: u64 = sim.instrument_count();
    proof {
        sim_world::law_global_world_size(traders);
    }
    let mut tally = SimTally::new();
    let ghost mut spans: Seq<u128> = seq![];
    let mut index: u64 = 0;
    let started = std::time::Instant::now();
    while index < config.commands
        invariant
            index <= config.commands <= MAX_COMMANDS,
            traders == config.traders,
            sim.wf(),
            sim.planned_count() == index,
            sim.placed_count() == index,
            sim.trader_count() == traders,
            sim.weight() == 11_520,
            sim.world() == world_after(traders, index as nat).world,
            sim.rng_state() == world_after(traders, index as nat).rng,
            sim_run::tallied(tally, counted(traders, index as nat), spans),
            spans.len() == index,
            tally.private_events <= 2 * index,
            tally.public_events <= 2 * index,
        decreases config.commands - index,
    {
        let ghost state = world_after(traders, index as nat);
        let planned = sim.plan();
        let ghost at = state.drawn_venue();
        proof {
            assert(planned.edge.instrument_id == state.drawn_instrument());
            assert(planned.order == state.order(traders, index as nat));
            sim.lemma_wf_valid(at);
            sim_run::lemma_few_events(state.world[at].venue, planned.edge.instrument_id, planned.order);
        }
        let matcher_started = std::time::Instant::now();
        let events = sim.place(&planned);
        let matcher_done = std::time::Instant::now();
        let span: u128 = clock::nanos_between(matcher_started, matcher_done);
        let emitted: u64 = sim.publish(planned.edge, &events);
        let feed_done = std::time::Instant::now();
        assert(sim.world() =~= state.next(traders, index as nat).world);
        let latency: u128 = clock::nanos_between(matcher_done, feed_done);
        tally.record(span, events.len() as u64, emitted, latency);
        proof {
            assert(spans.push(span).drop_last() =~= spans);
            spans = spans.push(span);
        }
        index = index + 1;
    }
    let elapsed: u128 = clock::nanos_between(started, std::time::Instant::now());
    tally.result("global-lob", venues, instruments, config.commands, elapsed)
}

/// Every venue of the global world starts with empty books, and with as many as it has instruments.
proof fn lemma_global_world_is_fresh(traders: u64)
    ensures
        forall|i: int|
            0 <= i < sim_world::global_world(traders).len() ==> {
                let v = #[trigger] sim_world::global_world(traders)[i];
                &&& v.instrument_count > 0
                &&& v.venue.books.len() == v.instrument_count
                &&& sim_run::within(v.venue, 0)
                &&& v.next_order_id == 1
            },
{
    let world = sim_world::global_world(traders);
    let a = sim_world::tier_venues("equity-global"@, 4, 500, 900, traders);
    let b = sim_world::tier_venues("equity-regional"@, 16, 120, 180, traders);
    let c = sim_world::tier_venues("equity-local"@, 32, 25, 35, traders);
    let d = sim_world::tier_venues("crypto-major"@, 12, 350, 260, traders);
    let e = sim_world::tier_venues("crypto-tail"@, 32, 40, 25, traders);
    assert(world == a + b + c + d + e);
    assert forall|i: int| 0 <= i < world.len() implies {
        let v = #[trigger] world[i];
        &&& v.instrument_count > 0
        &&& v.venue.books.len() == v.instrument_count
        &&& sim_run::within(v.venue, 0)
        &&& v.next_order_id == 1
    } by {
        if i < 4 {
            lemma_tier_is_fresh("equity-global"@, i as nat, 500, 900, traders);
        } else if i < 20 {
            lemma_tier_is_fresh("equity-regional"@, (i - 4) as nat, 120, 180, traders);
        } else if i < 52 {
            lemma_tier_is_fresh("equity-local"@, (i - 20) as nat, 25, 35, traders);
        } else if i < 64 {
            lemma_tier_is_fresh("crypto-major"@, (i - 52) as nat, 350, 260, traders);
        } else {
            lemma_tier_is_fresh("crypto-tail"@, (i - 64) as nat, 40, 25, traders);
        }
    }
}

proof fn lemma_tier_is_fresh(tier: Seq<char>, index: nat, symbols: nat, weight: u64, traders: u64)
    requires
        0 < symbols <= u32::MAX,
    ensures
        ({
            let v = sim_world::tier_venue(tier, index, symbols, weight, traders);
            &&& v.instrument_count == symbols
            &&& v.venue.books.len() == symbols
            &&& sim_run::within(v.venue, 0)
            &&& v.next_order_id == 1
        }),
{
    let names = sim_world::symbols_of(tier, index, symbols);
    let name = tier + "-"@ + text::padded(index, 2);
    sim_run::lemma_seeded_books(
        VenueView::fresh(ConfigView::star(name, "USD"@, names)),
        sim_world::at_least_one(traders) as nat,
        sim_world::world_endowment(names),
    );
}

} // verus!
