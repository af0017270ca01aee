//! The simulation of one venue with one instrument.
use vstd::prelude::*;

use crate::clock;
use crate::instrument::{ConfigView, VenueConfig};
use crate::seeding;
use crate::sim_config::SimConfig;
use crate::sim_feed;
use crate::sim_feed::FeedSink;
use crate::sim_run;
use crate::sim_run::{Counts, SimResult, SimTally, MAX_COMMANDS};
use crate::sim_world;
use crate::text;
use crate::types::{BookEvent, NewOrder};
use crate::venue::Venue;
use crate::venue_laws;
use crate::venue_model::VenueView;

verus! {

/// A simulation of one venue with one instrument.
pub struct SingleBinSim {
    venue: Venue,
    feed: FeedSink,
    traders: u64,
    placed: u64,
}

/// The venue of a single-instrument simulation before its first command.
pub open spec fn single_venue(traders: u64) -> VenueView {
    seeding::seeded(
        VenueView::fresh(ConfigView::star("sim"@, "USD"@, seq!["AAA"@])),
        sim_world::at_least_one(traders) as nat,
        sim_world::world_endowment(seq!["AAA"@]),
    )
}

/// The orders that arrive, one after the other.
pub open spec fn single_orders(traders: u64) -> spec_fn(nat) -> NewOrder {
    |index: nat| sim_world::arriving(index as u64, traders, (index + 1) as u64)
}

/// What the first `n` commands count.
pub open spec fn counted(traders: u64, n: nat) -> Counts {
    sim_run::counts_of_orders(single_venue(traders), single_orders(traders), n)
}

impl SingleBinSim {
    pub closed spec fn wf(self) -> bool {
        &&& self.venue.wf()
        &&& self.venue@.books.len() == 1
        &&& sim_run::within(self.venue@, self.placed as nat)
    }

    pub closed spec fn venue(self) -> VenueView {
        self.venue@
    }

    /// The venue is valid and has one instrument.
    pub proof fn lemma_wf_valid(&self)
        requires
            self.wf(),
        ensures
            self.venue().valid(),
            self.venue().lists(0),
    {
        self.venue.lemma_wf_valid();
    }

    /// How many orders were placed.
    pub closed spec fn count(self) -> nat {
        self.placed as nat
    }

    pub closed spec fn trader_count(self) -> u64 {
        self.traders
    }

    /// What the subscribers have heard.
    pub closed spec fn heard(self) -> Seq<Seq<Seq<char>>> {
        self.feed@
    }

    pub fn new(config: &SimConfig) -> (sim: Self)
        requires
            config.traders < u64::MAX,
            config.feed_subscribers <= usize::MAX,
        ensures
            sim.wf(),
            sim.venue() == single_venue(config.traders),
            sim.count() == 0,
            sim.trader_count() == config.traders,
            sim.heard() == Seq::new(
                config.feed_subscribers as nat,
                |i: int| Seq::<Seq<char>>::empty(),
            ),
    {
        let mut assets: Vec<String> = Vec::new();
        assets.push("AAA".to_owned());
        assert(text::texts(assets@) =~= seq!["AAA"@]);
        let mut venue = Venue::new(VenueConfig::star("sim", "USD", &assets));
        let ghost fresh = venue@;
        proof {
            sim_world::lemma_world_credit_fits(config.traders, 1);
            seeding::lemma_fresh_can_take(fresh.config, sim_world::world_credit(config.traders, 1));
        }
        sim_world::seed_world_accounts(&mut venue, &assets, config.traders);
        proof {
            sim_run::lemma_seeded_books(
                fresh,
                sim_world::at_least_one(config.traders) as nat,
                sim_world::world_endowment(seq!["AAA"@]),
            );
        }
        SingleBinSim {
            venue,
            feed: FeedSink::new(config.feed_subscribers),
            traders: config.traders,
            placed: 0,
        }
    }

    /// Places the next order and returns its events.
    pub fn place(&mut self) -> (events: Vec<BookEvent>)
        requires
            old(self).wf(),
            old(self).count() < MAX_COMMANDS,
        ensures
            final(self).wf(),
            final(self).count() == old(self).count() + 1,
            final(self).trader_count() == old(self).trader_count(),
            final(self).heard() == old(self).heard(),
            ({
                let index = old(self).count() as u64;
                let order = sim_world::arriving(index, old(self).trader_count(), (index + 1) as u64);
                &&& events@ == old(self).venue().submit_events(0, order)
                &&& final(self).venue() == old(self).venue().submitted(0, order)
            }),
    {
        let order = sim_world::synthetic_order(self.placed, self.traders);
        proof {
            self.venue.lemma_wf_valid();
            sim_run::lemma_within_submitted(self.venue@, 0, order, self.placed as nat);
            venue_laws::law_room_suffices(self.venue@, 0, order.order_id, order);
        }
        let events = match self.venue.submit_limit(0, order) {
            Ok(events) => events,
            Err(_) => Vec::new(),
        };
        self.placed = self.placed + 1;
        events
    }

    /// Sends the public ones among `events` to the feed, and returns how many there are.
    pub fn publish(&mut self, events: &Vec<BookEvent>) -> (public_events: u64)
        requires
            old(self).wf(),
        ensures
            final(self).wf(),
            final(self).venue() == old(self).venue(),
            final(self).count() == old(self).count(),
            final(self).trader_count() == old(self).trader_count(),
            public_events == sim_feed::public_texts(events@).len(),
            final(self).heard() == Seq::new(
                old(self).heard().len(),
                |i: int| old(self).heard()[i] + sim_feed::public_texts(events@),
            ),
    {
        self.feed.publish(events)
    }
}

/// Runs the commands of a configuration through one venue with one instrument.
pub fn run_single_bin_sim(config: &SimConfig) -> (result: SimResult)
    requires
        config.traders < u64::MAX,
        config.feed_subscribers <= usize::MAX,
        config.commands <= MAX_COMMANDS,
    ensures
        result.world@ == "single-bin"@,
        result.venues == 1,
        result.instruments == 1,
        result.commands == config.commands,
        sim_run::reports(result, counted(config.traders, config.commands as nat)),
{
    let ghost start = single_venue(config.traders);
    let ghost orders = single_orders(config.traders);
    let mut sim = SingleBinSim::new(config);
    let mut tally = SimTally::new();
    let ghost mut spans: Seq<u128> = seq![];
    let mut index: u64 = 0;
    let started = std::time::Instant::now();
    while index < config.commands
        invariant
            index <= config.commands <= MAX_COMMANDS,
            start == single_venue(config.traders),
            orders == single_orders(config.traders),
            sim.wf(),
            sim.count() == index,
            sim.trader_count() == config.traders,
            sim.venue() == sim_run::after_orders(start, orders, index as nat),
            sim_run::tallied(tally, sim_run::counts_of_orders(start, orders, index as nat), spans),
            spans.len() == index,
            tally.private_events <= 2 * index,
            tally.public_events <= 2 * index,
        decreases config.commands - index,
    {
        proof {
            sim.lemma_wf_valid();
            sim_run::lemma_few_events(sim.venue(), 0, orders(index as nat));
        }
        let matcher_started = std::time::Instant::now();
        let events = sim.place();
        let matcher_done = std::time::Instant::now();
        let span: u128 = clock::nanos_between(matcher_started, matcher_done);
        let emitted: u64 = sim.publish(&events);
        let feed_done = std::time::Instant::now();
        let latency: u128 = clock::nanos_between(matcher_done, feed_done);
        tally.record(span, events.len() as u64, emitted, latency);
        proof {
            assert(spans.push(span).drop_last() =~= spans);
            spans = spans.push(span);
        }
        index = index + 1;
    }
    let elapsed: u128 = clock::nanos_between(started, std::time::Instant::now());
    tally.result("single-bin", 1, 1, config.commands, elapsed)
}

} // verus!
