//! The simulation of one book that a large purchase shakes halfway through the run.
use vstd::prelude::*;

use crate::book_laws;
use crate::chart;
use crate::chart::{ChartPoint, CHART_LEVELS};
use crate::clock;
use crate::instrument::{ConfigView, VenueConfig};
use crate::model;
use crate::model::{LevelTotal, Queued};
use crate::seeding;
use crate::sim_config::SimConfig;
use crate::sim_feed;
use crate::sim_feed::FeedSink;
use crate::sim_run;
use crate::sim_run::{Counts, SimResult, SimTally};
use crate::sim_world;
use crate::text;
use crate::types::{BookEvent, NewOrder, Price, Side};
use crate::venue::Venue;
use crate::venue_laws;
use crate::venue_model::VenueView;

verus! {

/// No shock simulation runs more commands than this: the totals of its levels and its event
/// counters stay below 2^64.
pub const MAX_SHOCK_COMMANDS: u64 = 50_000_000_000_000_000;

/// How many orders give the book its depth before the run, half of them on each side.
pub const SEED_ORDERS: u64 = 20;

/// What a command of the run is for.
#[derive(Debug, Clone, Copy, PartialEq, Eq, Structural)]
pub enum ShockPhase {
    /// The ordinary flow of small orders on both sides.
    Background,
    /// The large purchase.
    Shock,
    /// New offers after the large purchase.
    Replenishment,
}

/// What command `index` of a run of `commands` is for. The shock comes halfway; after it, every
/// second command replenishes the ask side.
pub open spec fn phase_of(index: u64, commands: u64) -> ShockPhase {
    let half = commands / 2;
    if index == half {
        ShockPhase::Shock
    } else if index > half && (index - half) % 2 == 1 {
        ShockPhase::Replenishment
    } else {
        ShockPhase::Background
    }
}

pub fn phase(index: u64, commands: u64) -> (phase: ShockPhase)
    ensures
        phase == phase_of(index, commands),
{
    let half: u64 = commands / 2;
    if index == half {
        ShockPhase::Shock
    } else if index > half && (index - half) % 2 == 1 {
        ShockPhase::Replenishment
    } else {
        ShockPhase::Background
    }
}

/// An order without its number and its account.
#[derive(Debug, Clone, Copy, PartialEq, Eq)]
pub struct Terms {
    pub side: Side,
    pub price: u64,
    pub quantity: u64,
}

/// The terms of a seed order: ten bids from 9,999 down, then ten asks from 10,001 up, of 50 each.
pub open spec fn seed_terms(index: u64) -> Terms {
    if index < 10 {
        Terms { side: Side::Buy, price: (9_999 - index) as u64, quantity: 50 }
    } else {
        Terms { side: Side::Sell, price: (10_001 + (index - 10) % 10) as u64, quantity: 50 }
    }
}

fn seed(index: u64) -> (terms: Terms)
    ensures
        terms == seed_terms(index),
{
    if index < 10 {
        Terms { side: Side::Buy, price: 9_999 - index, quantity: 50 }
    } else {
        Terms { side: Side::Sell, price: 10_001 + (index - 10) % 10, quantity: 50 }
    }
}

/// The terms of command `index` of a run of `commands`. The background joins each side a little
/// away from the best price and takes a little from each side in turn; the shock buys 300, which is
/// six levels of the seeded depth; replenishment offers 20 at one of ten prices in turn.
pub open spec fn command_terms(index: u64, commands: u64) -> Terms {
    match phase_of(index, commands) {
        ShockPhase::Background => if index % 4 == 0 {
            Terms { side: Side::Buy, price: 9_998, quantity: 2 }
        } else if index % 4 == 1 {
            Terms { side: Side::Sell, price: 10_002, quantity: 2 }
        } else if index % 4 == 2 {
            Terms { side: Side::Buy, price: 10_050, quantity: 1 }
        } else {
            Terms { side: Side::Sell, price: 9_950, quantity: 1 }
        },
        ShockPhase::Shock => Terms { side: Side::Buy, price: 10_100, quantity: 300 },
        ShockPhase::Replenishment => Terms {
            side: Side::Sell,
            price: (10_001 + index % 10) as u64,
            quantity: 20,
        },
    }
}

fn command(index: u64, commands: u64) -> (terms: Terms)
    ensures
        terms == command_terms(index, commands),
{
    match phase(index, commands) {
        ShockPhase::Background => if index % 4 == 0 {
            Terms { side: Side::Buy, price: 9_998, quantity: 2 }
        } else if index % 4 == 1 {
            Terms { side: Side::Sell, price: 10_002, quantity: 2 }
        } else if index % 4 == 2 {
            Terms { side: Side::Buy, price: 10_050, quantity: 1 }
        } else {
            Terms { side: Side::Sell, price: 9_950, quantity: 1 }
        },
        ShockPhase::Shock => Terms { side: Side::Buy, price: 10_100, quantity: 300 },
        ShockPhase::Replenishment => Terms {
            side: Side::Sell,
            price: 10_001 + index % 10,
            quantity: 20,
        },
    }
}

/// The order with these terms, by the traders in turn.
pub open spec fn order_on(terms: Terms, index: u64, traders: u64, order_id: u64) -> NewOrder {
    NewOrder {
        order_id,
        account_id: (index % sim_world::at_least_one(traders) + 1) as u64,
        side: terms.side,
        price: Price(terms.price),
        quantity: terms.quantity,
    }
}

fn make_order(terms: Terms, index: u64, traders: u64, order_id: u64) -> (order: NewOrder)
    ensures
        order == order_on(terms, index, traders, order_id),
{
    let count: u64 = if traders == 0 { 1 } else { traders };
    NewOrder {
        order_id,
        account_id: index % count + 1,
        side: terms.side,
        price: Price(terms.price),
        quantity: terms.quantity,
    }
}

/// The orders that give the book its depth.
pub open spec fn seed_orders(traders: u64) -> spec_fn(nat) -> NewOrder {
    |index: nat| order_on(seed_terms(index as u64), index as u64, traders, (index + 1) as u64)
}

/// The orders of the run.
pub open spec fn run_orders(traders: u64, commands: u64) -> spec_fn(nat) -> NewOrder {
    |index: nat|
        order_on(
            command_terms(index as u64, commands),
            index as u64,
            traders,
            (SEED_ORDERS + 1 + index) as u64,
        )
}

/// The venue before its book has any depth.
pub open spec fn bare_venue(traders: u64) -> VenueView {
    seeding::seeded(
        VenueView::fresh(ConfigView::star("shock-demo"@, "USD"@, seq!["AAA"@])),
        sim_world::at_least_one(traders) as nat,
        sim_world::world_endowment(seq!["AAA"@]),
    )
}

/// The venue at the start of the run.
pub open spec fn shock_venue(traders: u64) -> VenueView {
    sim_run::after_orders(bare_venue(traders), seed_orders(traders), SEED_ORDERS as nat)
}

/// The venue after `n` commands of the run.
pub open spec fn venue_after(traders: u64, commands: u64, n: nat) -> VenueView {
    sim_run::after_orders(shock_venue(traders), run_orders(traders, commands), n)
}

/// What the first `n` commands of the run count.
pub open spec fn counted(traders: u64, commands: u64, n: nat) -> Counts {
    sim_run::counts_of_orders(shock_venue(traders), run_orders(traders, commands), n)
}

/// What the chart shows: the book at the start and after each command.
pub open spec fn chart_of(traders: u64, commands: u64) -> Seq<ChartPoint> {
    Seq::new(
        commands as nat + 1,
        |i: int| chart::point_of(venue_after(traders, commands, i as nat).book(0)),
    )
}

/// An order adds no more than its quantity to what rests.
proof fn lemma_resting_grows(venue: VenueView, order: NewOrder)
    requires
        venue.valid(),
        venue.lists(0),
    ensures
        book_laws::resting_quantity(venue.submitted(0, order).book(0)) <= book_laws::resting_quantity(
            venue.book(0),
        ) + order.quantity,
{
    assert(venue.books[0].valid());
    book_laws::law_submit_conserves_quantity(venue.book(0), order);
}

proof fn lemma_level_within(all: Seq<LevelTotal>, i: int)
    requires
        0 <= i < all.len(),
    ensures
        all[i].quantity <= book_laws::levels_quantity(all),
    decreases all.len(),
{
    if i > 0 {
        lemma_level_within(all.drop_first(), i - 1);
    }
}

/// Where all that rests on one side fits a `Quantity`, so do its levels.
proof fn lemma_levels_fit(queue: Seq<Queued>, side: Side)
    requires
        model::in_priority(queue, side),
        model::all_open(queue),
        model::total(queue) <= u64::MAX,
    ensures
        model::visible_fit(queue, CHART_LEVELS as nat),
{
    book_laws::law_levels_are_in_order(queue, side);
    assert forall|i: int| 0 <= i < model::price_levels(queue).len() implies (
    #[trigger] model::price_levels(queue)[i]).quantity <= u64::MAX by {
        lemma_level_within(model::price_levels(queue), i);
    }
    model::lemma_visible_fit(queue, CHART_LEVELS as nat);
}

/// A run of the shock simulation.
pub struct ShockSim {
    venue: Venue,
    feed: FeedSink,
    traders: u64,
    commands: u64,
    submitted: u64,
}

impl ShockSim {
    pub closed spec fn wf(self) -> bool {
        &&& self.venue.wf()
        &&& self.venue@.books.len() == 1
        &&& sim_run::within(self.venue@, self.submitted as nat)
        &&& book_laws::resting_quantity(self.venue@.book(0)) <= 300 * self.submitted
        &&& self.submitted <= SEED_ORDERS + MAX_SHOCK_COMMANDS
    }

    pub closed spec fn venue(self) -> VenueView {
        self.venue@
    }

    /// How many orders were submitted, those that gave the book its depth counted in.
    pub closed spec fn count(self) -> nat {
        self.submitted as nat
    }

    pub closed spec fn trader_count(self) -> u64 {
        self.traders
    }

    pub closed spec fn command_count(self) -> u64 {
        self.commands
    }

    /// What the subscribers have heard.
    pub closed spec fn heard(self) -> Seq<Seq<Seq<char>>> {
        self.feed@
    }

    /// The venue is valid and has one instrument.
    pub proof fn lemma_wf_valid(&self)
        requires
            self.wf(),
        ensures
            self.venue().valid(),
            self.venue().lists(0),
    {
        self.venue.lemma_wf_valid();
    }

    fn submit(&mut self, order: NewOrder) -> (events: Vec<BookEvent>)
        requires
            old(self).wf(),
            order.quantity <= 300,
            old(self).count() < SEED_ORDERS + MAX_SHOCK_COMMANDS,
        ensures
            final(self).wf(),
            final(self).count() == old(self).count() + 1,
            final(self).trader_count() == old(self).trader_count(),
            final(self).command_count() == old(self).command_count(),
            final(self).heard() == old(self).heard(),
            events@ == old(self).venue().submit_events(0, order),
            final(self).venue() == old(self).venue().submitted(0, order),
    {
        proof {
            self.venue.lemma_wf_valid();
            sim_run::lemma_within_submitted(self.venue@, 0, order, self.submitted as nat);
            venue_laws::law_room_suffices(self.venue@, 0, order.order_id, order);
            lemma_resting_grows(self.venue@, order);
        }
        let events = match self.venue.submit_limit(0, order) {
            Ok(events) => events,
            Err(_) => Vec::new(),
        };
        self.submitted = self.submitted + 1;
        events
    }

    /// A venue whose book has depth on both sides.
    pub fn new(config: &SimConfig) -> (sim: Self)
        requires
            config.traders < u64::MAX,
            config.feed_subscribers <= usize::MAX,
        ensures
            sim.wf(),
            sim.venue() == shock_venue(config.traders),
            sim.count() == SEED_ORDERS,
            sim.trader_count() == config.traders,
            sim.command_count() == config.commands,
            sim.heard() == Seq::new(
                config.feed_subscribers as nat,
                |i: int| Seq::<Seq<char>>::empty(),
            ),
    {
        let ghost traders = config.traders;
        let mut assets: Vec<String> = Vec::new();
        assets.push("AAA".to_owned());
        assert(text::texts(assets@) =~= seq!["AAA"@]);
        let mut venue = Venue::new(VenueConfig::star("shock-demo", "USD", &assets));
        let ghost fresh = venue@;
        proof {
            sim_world::lemma_world_credit_fits(traders, 1);
            seeding::lemma_fresh_can_take(fresh.config, sim_world::world_credit(traders, 1));
        }
        sim_world::seed_world_accounts(&mut venue, &assets, config.traders);
        proof {
            sim_run::lemma_seeded_books(
                fresh,
                sim_world::at_least_one(traders) as nat,
                sim_world::world_endowment(seq!["AAA"@]),
            );
        }
        let mut sim = ShockSim {
            venue,
            feed: FeedSink::new(config.feed_subscribers),
            traders: config.traders,
            commands: config.commands,
            submitted: 0,
        };
        let ghost silent = sim.heard();
        let mut index: u64 = 0;
        while index < SEED_ORDERS
            invariant
                index <= SEED_ORDERS,
                traders == config.traders,
                sim.wf(),
                sim.count() == index,
                sim.trader_count() == config.traders,
                sim.command_count() == config.commands,
                sim.heard() == silent,
                sim.venue() == sim_run::after_orders(
                    bare_venue(traders),
                    seed_orders(traders),
                    index as nat,
                ),
            decreases SEED_ORDERS - index,
        {
            let order = make_order(seed(index), index, config.traders, index + 1);
            assert(order == seed_orders(traders)(index as nat));
            sim.submit(order);
            index = index + 1;
        }
        sim
    }

    /// Places the next command of the run and returns its events.
    pub fn place(&mut self) -> (events: Vec<BookEvent>)
        requires
            old(self).wf(),
            SEED_ORDERS <= old(self).count() < SEED_ORDERS + MAX_SHOCK_COMMANDS,
        ensures
            final(self).wf(),
            final(self).count() == old(self).count() + 1,
            final(self).trader_count() == old(self).trader_count(),
            final(self).command_count() == old(self).command_count(),
            final(self).heard() == old(self).heard(),
            ({
                let index = (old(self).count() - SEED_ORDERS) as nat;
                let order = run_orders(old(self).trader_count(), old(self).command_count())(index);
                &&& events@ == old(self).venue().submit_events(0, order)
                &&& final(self).venue() == old(self).venue().submitted(0, order)
            }),
    {
        let index: u64 = self.submitted - SEED_ORDERS;
        let order = make_order(
            command(index, self.commands),
            index,
            self.traders,
            self.submitted + 1,
        );
        self.submit(order)
    }

    /// Sends the public ones among `events` to the feed, and returns how many there are.
    pub fn publish(&mut self, events: &Vec<BookEvent>) -> (public_events: u64)
        requires
            old(self).wf(),
        ensures
            final(self).wf(),
            final(self).venue() == old(self).venue(),
            final(self).count() == old(self).count(),
            final(self).trader_count() == old(self).trader_count(),
            final(self).command_count() == old(self).command_count(),
            public_events == sim_feed::public_texts(events@).len(),
            final(self).heard() == Seq::new(
                old(self).heard().len(),
                |i: int| old(self).heard()[i] + sim_feed::public_texts(events@),
            ),
    {
        self.feed.publish(events)
    }

    /// What the chart shows of the book as it stands.
    pub fn chart_point(&self) -> (point: ChartPoint)
        requires
            self.wf(),
        ensures
            point == chart::point_of(self.venue().book(0)),
    {
        let ghost book = self.venue@.book(0);
        proof {
            self.venue.lemma_wf_valid();
            assert(self.venue@.books[0].valid());
            lemma_levels_fit(book.bids, Side::Buy);
            lemma_levels_fit(book.asks, Side::Sell);
        }
        match self.venue.snapshot(0, CHART_LEVELS) {
            Ok(snapshot) => {
                proof {
                    chart::lemma_point_of_book(book, snapshot.bids@, snapshot.asks@);
                }
                chart::chart_point(&snapshot.bids, &snapshot.asks)
            },
            Err(_) => ChartPoint { quote: None, bid_depth: 0, ask_depth: 0 },
        }
    }
}

/// What the shock simulation returns: its result, and the figures of its chart.
pub struct ShockRun {
    pub result: SimResult,
    pub chart: Vec<ChartPoint>,
}

/// Runs the commands of a configuration through the shock simulation.
pub fn run_shock_demo_sim(config: &SimConfig) -> (run: ShockRun)
    requires
        config.traders < u64::MAX,
        config.feed_subscribers <= usize::MAX,
        config.commands <= MAX_SHOCK_COMMANDS,
    ensures
        run.result.world@ == "shock-demo"@,
        run.result.venues == 1,
        run.result.instruments == 1,
        run.result.commands == config.commands,
        sim_run::reports(
            run.result,
            counted(config.traders, config.commands, config.commands as nat),
        ),
        run.chart@ == chart_of(config.traders, config.commands),
{
    let ghost traders = config.traders;
    let ghost commands = config.commands;
    let ghost all = chart_of(traders, commands);
    let mut sim = ShockSim::new(config);
    let mut tally = SimTally::new();
    let mut chart: Vec<ChartPoint> = Vec::new();
    chart.push(sim.chart_point());
    assert(chart@ =~= all.take(1));
    let ghost mut spans: Seq<u128> = seq![];
    let mut index: u64 = 0;
    let started = std::time::Instant::now();
    while index < config.commands
        invariant
            index <= config.commands <= MAX_SHOCK_COMMANDS,
            traders == config.traders,
            commands == config.commands,
            all == chart_of(traders, commands),
            sim.wf(),
            sim.count() == SEED_ORDERS + index,
            sim.trader_count() == traders,
            sim.command_count() == commands,
            sim.venue() == venue_after(traders, commands, index as nat),
            sim_run::tallied(tally, counted(traders, commands, index as nat), spans),
            spans.len() == index,
            tally.private_events <= 301 * index,
            tally.public_events <= 301 * index,
            chart@ == all.take(index + 1),
        decreases config.commands - index,
    {
        proof {
            sim.lemma_wf_valid();
            sim_run::lemma_few_events(sim.venue(), 0, run_orders(traders, commands)(index as nat));
        }
        let matcher_started = std::time::Instant::now();
        let events = sim.place();
        let matcher_done = std::time::Instant::now();
        let span: u128 = clock::nanos_between(matcher_started, matcher_done);
        let emitted: u64 = sim.publish(&events);
        let feed_done = std::time::Instant::now();
        let latency: u128 = clock::nanos_between(matcher_done, feed_done);
        tally.record(span, events.len() as u64, emitted, latency);
        proof {
            assert(spans.push(span).drop_last() =~= spans);
            spans = spans.push(span);
        }
        index = index + 1;
        chart.push(sim.chart_point());
        assert(chart@ =~= all.take(index + 1));
    }
    assert(all.take(index + 1) =~= all);
    let elapsed: u128 = clock::nanos_between(started, std::time::Instant::now());
    let result = tally.result("shock-demo", 1, 1, config.commands, elapsed);
    ShockRun { result, chart }
}

} // verus!
