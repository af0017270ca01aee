use exch::research;
use exch::research::ResearchCommand;
use exch::sim_config::{ArgsError, SimConfig, SimWorld};
use exch::sim_feed::{EdgeId, FeedSink, MarketDataFabric, TraderMarketDataView};
use exch::chart::{chart_point, ChartPoint, Quote};
use exch::sim_global::{run_global_lob_sim, GlobalSim};
use exch::sim_run::{latency_stats, LatencyStats, SimTally};
use exch::sim_shock::{phase, run_shock_demo_sim, ShockPhase, ShockSim};
use exch::sim_single::{run_single_bin_sim, SingleBinSim};
use exch::sim_world::{
    add_venue_tier, global_lob_world, instrument_counts, synthetic_order, synthetic_world_order, tier_symbol_prefix,
    weighted_venue_index, DeterministicRng,
};
use exch::types::{BookEvent, Level, NewOrder, Price, Side};

fn args(list: &[&str]) -> Vec<String> {
    list.iter().map(|s| s.to_string()).collect()
}

fn config(world: SimWorld, commands: u64, traders: u64, feed_subscribers: u64) -> SimConfig {
    SimConfig { world, commands, traders, feed_subscribers, visualization: None }
}

#[test]
fn omniscient_trader_subscribes_to_every_global_lob_edge() {
    let mut venues = global_lob_world(2);
    let mut market_data = MarketDataFabric::with_omniscient_traders(1, &venues);
    let trader = market_data.traders.first().expect("one omniscient trader should be configured");

    assert_eq!(trader.subscribed_edges.len(), 10_200);
    assert!(trader.is_subscribed(EdgeId { venue_index: 0, instrument_id: 0 }));
    assert!(trader.is_subscribed(EdgeId { venue_index: 95, instrument_id: 39 }));

    let edge = EdgeId { venue_index: 0, instrument_id: 0 };
    let events = venues[edge.venue_index]
        .venue
        .submit_limit(
            edge.instrument_id,
            NewOrder {
                order_id: 1,
                account_id: 1,
                side: Side::Sell,
                price: Price(10_000),
                quantity: 1,
            },
        )
        .expect("generated edge should exist");

    assert_eq!(market_data.publish(edge, &events), 1);
    let observed = market_data.traders[0]
        .inbox
        .pop_front()
        .expect("trader should receive the public rested event");
    assert_eq!(observed.edge, edge);
    assert!(observed.message.contains("rested:2:order=1"));
}

#[test]
fn traders_follow_exactly_the_edges_of_the_world() {
    let trader = TraderMarketDataView::follow_all(&vec![2, 0, 3]);
    let edges: Vec<(usize, u32)> =
        trader.subscribed_edges.iter().map(|e| (e.venue_index, e.instrument_id)).collect();
    assert_eq!(edges, vec![(0, 0), (0, 1), (2, 0), (2, 1), (2, 2)]);
    for venue_index in 0..4 {
        for instrument_id in 0..4 {
            let edge = EdgeId { venue_index, instrument_id };
            assert_eq!(trader.is_subscribed(edge), edges.contains(&(venue_index, instrument_id)));
        }
    }
}

#[test]
fn traders_hear_nothing_of_other_edges() {
    let mut venues = vec![];
    add_venue_tier(&mut venues, "small", 1, 1, 1, 1);
    assert_eq!(venues[0].venue.config().instruments[0].base, "SX000000");
    assert_eq!(TraderMarketDataView::subscribe_all_edges(&venues).subscribed_edges.len(), 1);
    let mut fabric = MarketDataFabric::with_omniscient_traders(2, &venues);
    let events = vec![
        BookEvent::Accepted { seq: 1, order_id: 1 },
        BookEvent::Rested { seq: 2, order_id: 1, side: Side::Buy, price: Price(5), quantity: 3 },
    ];
    assert_eq!(fabric.publish(EdgeId { venue_index: 1, instrument_id: 0 }, &events), 1);
    assert!(fabric.traders.iter().all(|t| t.inbox.is_empty()));
    assert_eq!(fabric.publish(EdgeId { venue_index: 0, instrument_id: 0 }, &events), 1);
    assert!(fabric.traders.iter().all(|t| t.inbox.len() == 1));
}

#[test]
fn sinks_copy_public_events_to_every_subscriber() {
    let mut sink = FeedSink::new(2);
    let events = vec![
        BookEvent::Accepted { seq: 1, order_id: 1 },
        BookEvent::Canceled { seq: 2, order_id: 1, side: Side::Buy, price: Price(5), quantity: 3 },
    ];
    assert_eq!(sink.publish(&events), 1);
    assert_eq!(sink.publish(&events[..1].to_vec()), 0);
    for subscriber in &sink.subscribers {
        assert_eq!(subscriber, &vec!["canceled:2:order=1:side=buy:qty=3:price=5".to_string()]);
    }
}

#[test]
fn the_global_world_has_its_tiers() {
    let venues = global_lob_world(1);
    assert_eq!(venues.len(), 96);
    let counts = instrument_counts(&venues);
    assert_eq!(counts.iter().map(|n| *n as u64).sum::<u64>(), 10_200);
    assert_eq!((counts[0], counts[4], counts[20], counts[52], counts[64], counts[95]), (500, 120, 25, 350, 40, 40));
    assert_eq!(venues.iter().map(|v| v.command_weight).sum::<u64>(), 11_520);
    assert_eq!(venues[3].venue.config().name, "equity-global-03");
    assert_eq!(venues[3].venue.config().instruments[499].symbol(), "EG030499/USD");
    assert_eq!(venues[95].venue.config().name, "crypto-tail-31");
    assert_eq!(venues[95].venue.config().instruments[7].base, "CT310007");
    assert_eq!(venues[95].venue.balance(1, "CT310007"), 1_000_000_000);
    assert_eq!(venues[0].venue.balance(1, "USD"), 1_000_000_000_000);
    assert_eq!(venues[0].venue.balance(2, "USD"), 0);
    for (tier, prefix) in [
        ("equity-global", "EG"),
        ("equity-regional", "ER"),
        ("equity-local", "EL"),
        ("crypto-major", "CM"),
        ("crypto-tail", "CT"),
        ("other", "SX"),
    ] {
        assert_eq!(tier_symbol_prefix(tier), prefix);
    }
}

#[test]
fn numbers_are_drawn_by_a_linear_congruence() {
    let mut rng = DeterministicRng::new(0x51d0_ecc0_ffee);
    let mut state: u64 = 0x51d0_ecc0_ffee;
    for modulo in [7u64, 1, 1_000_003, u64::MAX, 12] {
        state = state.wrapping_mul(6_364_136_223_846_793_005).wrapping_add(1);
        assert_eq!(rng.next_u64(modulo), state % modulo);
    }
    state = state.wrapping_mul(6_364_136_223_846_793_005).wrapping_add(1);
    assert_eq!(rng.next_u32(0), 0);
    state = state.wrapping_mul(6_364_136_223_846_793_005).wrapping_add(1);
    assert_eq!(rng.next_u32(90) as u64, state % 90);
    let mut zero = DeterministicRng::new(0);
    let mut one = DeterministicRng::new(1);
    assert_eq!(zero.next_u64(1_000), one.next_u64(1_000));
}

#[test]
fn venues_are_drawn_by_weight() {
    let venues = global_lob_world(1);
    let total: u64 = venues.iter().map(|v| v.command_weight).sum();
    let mut rng = DeterministicRng::new(9);
    let mut check = DeterministicRng::new(9);
    for _ in 0..200 {
        let draw = check.next_u64(total);
        let index = weighted_venue_index(&mut rng, &venues, total);
        let below: u64 = venues[..index].iter().map(|v| v.command_weight).sum();
        assert!(below <= draw && draw < below + venues[index].command_weight);
    }
    assert_eq!(weighted_venue_index(&mut rng, &vec![], 0), 0);
    assert_eq!(weighted_venue_index(&mut DeterministicRng::new(5), &vec![], 100), 0);
}

#[test]
fn arriving_orders_alternate() {
    let first = synthetic_order(0, 3);
    assert_eq!((first.order_id, first.account_id, first.side, first.price, first.quantity), (1, 1, Side::Sell, Price(10_000), 1));
    let later = synthetic_order(7, 3);
    assert_eq!((later.order_id, later.account_id, later.side, later.price), (8, 2, Side::Buy, Price(10_001)));
    assert_eq!(synthetic_order(4, 0).account_id, 1);
    assert_eq!(synthetic_world_order(7, 3, 99), NewOrder { order_id: 99, ..later });
}

#[test]
fn arguments_override_the_defaults() {
    let default = SimConfig::from_args(&args(&[])).unwrap();
    assert_eq!(default, config(SimWorld::SingleBin, 100_000, 100, 1));
    let read = SimConfig::from_args(&args(&[
        "--world", "global-lob", "--commands", "5", "--traders", "6", "--feed-subscribers", "7", "--commands", "8",
    ]));
    assert_eq!(read.unwrap(), config(SimWorld::GlobalLob, 8, 6, 7));
    let message = |list: &[&str]| SimConfig::from_args(&args(list)).unwrap_err().message();
    assert_eq!(message(&["--speed", "1"]), "unknown arg: --speed");
    assert_eq!(message(&["--commands"]), "--commands requires a value");
    assert_eq!(message(&["--traders", "many"]), "--traders must be a positive integer");
    assert_eq!(message(&["--feed-subscribers", "-1"]), "--feed-subscribers must be a positive integer");
    assert_eq!(message(&["--world", "flat"]), "unknown world: flat");
    assert_eq!(message(&["--world"]), "--world requires a value");
    assert_eq!(message(&["--visualization"]), "--visualization requires a value");
    assert!(message(&["--help"]).starts_with("usage: "));
    assert!(message(&["--help"]).ends_with("worlds: single-bin, global-lob, shock-demo"));
    assert!(matches!(SimConfig::from_args(&args(&["--help", "--bad"])), Err(ArgsError::Help)));
    assert!(matches!(SimConfig::from_args(&args(&["--bad", "--help"])), Err(ArgsError::Unknown { .. })));
    assert!(matches!(SimConfig::from_args(&args(&["--traders", ""])), Err(ArgsError::NotANumber { .. })));
    assert!(matches!(SimConfig::from_args(&args(&["--world", "x"])), Err(ArgsError::UnknownWorld { .. })));
    assert!(matches!(SimConfig::from_args(&args(&["--traders"])), Err(ArgsError::Missing { .. })));
}

#[test]
fn latencies_are_summed_up_by_percentiles() {
    let zeros = LatencyStats { min: 0, p50: 0, p95: 0, p99: 0, max: 0 };
    assert_eq!(latency_stats(vec![]), zeros);
    assert_eq!(latency_stats(vec![7]), LatencyStats { min: 7, p50: 7, p95: 7, p99: 7, max: 7 });
    let descending: Vec<u128> = (1..=200).rev().collect();
    assert_eq!(
        latency_stats(descending),
        LatencyStats { min: 1, p50: 100, p95: 190, p99: 198, max: 200 }
    );
    assert_eq!(
        latency_stats(vec![5, 1, 5, 3]),
        LatencyStats { min: 1, p50: 3, p95: 5, p99: 5, max: 5 }
    );
}

#[test]
fn a_single_bin_matches_every_second_order() {
    let config = config(SimWorld::SingleBin, 100, 4, 1);
    let mut sim = SingleBinSim::new(&config);
    let mut tally = SimTally::new();
    for index in 0..config.commands {
        let events = sim.place();
        let emitted = sim.publish(&events);
        assert_eq!((events.len(), emitted), (2, 1));
        if index % 2 == 0 {
            assert!(matches!(events[1], BookEvent::Rested { .. }));
        } else {
            assert!(matches!(events[1], BookEvent::Executed { .. }));
        }
        tally.record(3, events.len() as u64, emitted, index as u128);
    }
    assert_eq!((tally.private_events, tally.public_events, tally.matcher_elapsed), (200, 100, 300));
    assert_eq!(latency_stats(tally.latencies).max, 99);
}

#[test]
fn latencies_are_kept_for_public_events_only() {
    let mut tally = SimTally::new();
    tally.record(5, 1, 0, 77);
    tally.record(6, 3, 2, 88);
    assert_eq!((tally.private_events, tally.public_events), (4, 2));
    assert_eq!(tally.matcher_elapsed, 11);
    tally.record(u128::MAX - 10, 1, 0, 0);
    assert_eq!((tally.matcher_elapsed, tally.latencies), (u128::MAX, vec![88]));
}

#[test]
fn a_global_world_runs() {
    let config = config(SimWorld::GlobalLob, 50, 1, 1);
    let mut sim = GlobalSim::new(&config);
    assert_eq!((sim.venue_count(), sim.instrument_count()), (96, 10_200));
    let mut check = DeterministicRng::new(0x51d0_ecc0_ffee);
    let mut orders = 0u64;
    for index in 0..config.commands {
        let planned = sim.plan();
        let draw = check.next_u64(11_520);
        assert_eq!(planned.edge.venue_index < 4, draw < 3_600);
        check.next_u64(1);
        assert_eq!(planned.order.side == Side::Sell, index % 2 == 0);
        let events = sim.place(&planned);
        assert!(matches!(events[0], BookEvent::Accepted { .. }));
        orders += sim.publish(planned.edge, &events);
    }
    assert!(orders >= 50);
}

#[test]
fn the_shock_demo_is_asked_for_by_name() {
    let read = SimConfig::from_args(&args(&[
        "--world", "shock-demo", "--commands", "160", "--traders", "40", "--feed-subscribers", "1",
        "--visualization", "/tmp/exch-shock-demo.html",
    ]))
    .unwrap();
    assert_eq!(read.visualization.as_deref(), Some("/tmp/exch-shock-demo.html"));
    assert_eq!(SimConfig { visualization: None, ..read }, config(SimWorld::ShockDemo, 160, 40, 1));
}

#[test]
fn a_single_bin_run_counts_two_events_per_command() {
    let result = run_single_bin_sim(&config(SimWorld::SingleBin, 101, 3, 2));
    assert_eq!((result.world, result.venues, result.instruments, result.commands), ("single-bin", 1, 1, 101));
    assert_eq!((result.private_events, result.public_events), (202, 101));
    assert!(result.matcher_elapsed <= result.elapsed);
    let stats = result.feed_latency;
    assert!(stats.min <= stats.p50 && stats.p50 <= stats.p95 && stats.p95 <= stats.p99 && stats.p99 <= stats.max);
    assert!(result.elapsed > 0 && stats.max > 0 && result.matcher_elapsed > 0);
    let nothing = run_single_bin_sim(&config(SimWorld::SingleBin, 0, 0, 0));
    assert_eq!((nothing.private_events, nothing.public_events, nothing.matcher_elapsed), (0, 0, 0));
    assert_eq!(nothing.feed_latency, LatencyStats { min: 0, p50: 0, p95: 0, p99: 0, max: 0 });
}

#[test]
fn a_global_run_counts_what_its_steps_count() {
    let config = config(SimWorld::GlobalLob, 60, 2, 1);
    let result = run_global_lob_sim(&config);
    assert_eq!((result.world, result.venues, result.instruments, result.commands), ("global-lob", 96, 10_200, 60));
    let mut sim = GlobalSim::new(&config);
    let mut counted = (0, 0);
    for _ in 0..config.commands {
        let planned = sim.plan();
        let events = sim.place(&planned);
        counted = (counted.0 + events.len() as u64, counted.1 + sim.publish(planned.edge, &events));
    }
    assert_eq!((result.private_events, result.public_events), counted);
    assert_eq!(counted, (120, 60));
}

#[test]
fn one_command_of_the_shock_demo_is_the_shock() {
    let phases: Vec<ShockPhase> = (0..8).map(|index| phase(index, 8)).collect();
    assert_eq!(
        phases,
        vec![
            ShockPhase::Background,
            ShockPhase::Background,
            ShockPhase::Background,
            ShockPhase::Background,
            ShockPhase::Shock,
            ShockPhase::Replenishment,
            ShockPhase::Background,
            ShockPhase::Replenishment,
        ]
    );
    assert_eq!(phase(0, 1), ShockPhase::Shock);
}

#[test]
fn a_shock_empties_the_best_asks_and_offers_return() {
    let config = config(SimWorld::ShockDemo, 160, 40, 1);
    let run = run_shock_demo_sim(&config);
    assert_eq!(
        (run.result.world, run.result.venues, run.result.instruments, run.result.commands),
        ("shock-demo", 1, 1, 160)
    );
    assert_eq!(run.chart.len(), 161);
    let start = ChartPoint {
        quote: Some(Quote { twice_midprice: 20_000, spread: 2 }),
        bid_depth: 250,
        ask_depth: 250,
    };
    assert_eq!(run.chart[0], start);
    let quote = |index: usize| run.chart[index].quote.unwrap();
    assert!(quote(81).spread > quote(80).spread);
    assert!(quote(81).twice_midprice > quote(80).twice_midprice);
    assert!(run.chart[81].ask_depth < run.chart[80].ask_depth);
    assert_eq!(run.chart[81].bid_depth, run.chart[80].bid_depth);
    assert!(quote(160).spread < quote(81).spread);

    let mut sim = ShockSim::new(&config);
    let mut counted = (0, 0);
    for index in 0..config.commands {
        let events = sim.place();
        assert!(matches!(events[0], BookEvent::Accepted { .. }));
        if index == 80 {
            let bought: u64 = events
                .iter()
                .map(|event| match event {
                    BookEvent::Executed { execution, .. } => execution.quantity,
                    _ => 0,
                })
                .sum();
            assert_eq!(bought, 300);
        }
        counted = (counted.0 + events.len() as u64, counted.1 + sim.publish(&events));
        assert_eq!(sim.chart_point(), run.chart[index as usize + 1]);
    }
    assert_eq!((run.result.private_events, run.result.public_events), counted);
}

#[test]
fn a_chart_point_needs_both_sides_for_a_quote() {
    let level = |price, quantity| Level { price: Price(price), quantity };
    assert_eq!(
        chart_point(&vec![level(99, 3), level(98, 4)], &vec![]),
        ChartPoint { quote: None, bid_depth: 7, ask_depth: 0 }
    );
    assert_eq!(
        chart_point(&vec![level(99, 3)], &vec![level(104, u64::MAX), level(105, u64::MAX)]),
        ChartPoint {
            quote: Some(Quote { twice_midprice: 203, spread: 5 }),
            bid_depth: 3,
            ask_depth: 2 * (u64::MAX as u128),
        }
    );
}

#[test]
fn sources_are_listed_and_found() {
    let lines = research::list_sources();
    assert_eq!(lines.len(), 8);
    assert_eq!(lines[0], "bis-fx-2025 https://www.bis.org/statistics/rpfx25_fx.htm");
    assert_eq!(lines[1], "  BIS 2025 Triennial Survey summary for global OTC FX turnover and currency shares");
    assert_eq!(
        research::find_source("cmc-spot-exchanges").unwrap().url,
        "https://coinmarketcap.com/rankings/exchanges/"
    );
    assert!(research::find_source("nowhere").is_none());
    let some = |s: &str| Some(s.to_string());
    let plan = research::plan_fetch(some("bis-fx-2025-annex"), some("out.pdf")).unwrap_or_else(|_| panic!());
    assert_eq!(plan.done_line(), "ok fetched source=bis-fx-2025-annex output=out.pdf");
    assert_eq!(
        plan.failed_line(),
        "fetch failed for bis-fx-2025-annex from https://www.bis.org/statistics/rpfx25_fx_annex.pdf"
    );
    let error = |a, b| research::plan_fetch(a, b).err().unwrap();
    assert_eq!(error(None, None), "fetch requires a source id");
    assert_eq!(error(some("x"), None), "fetch requires an output path");
    assert_eq!(error(some("x"), some("y")), "unknown source: x");
}

#[test]
fn research_commands_are_read() {
    assert!(matches!(research::read_command(&args(&[])), ResearchCommand::Help));
    assert!(matches!(research::read_command(&args(&["-h", "x"])), ResearchCommand::Help));
    assert!(matches!(research::read_command(&args(&["sources"])), ResearchCommand::Sources));
    assert!(matches!(research::read_command(&args(&["profile"])), ResearchCommand::Profile { name: None }));
    assert!(matches!(
        research::read_command(&args(&["fetch", "a", "b"])),
        ResearchCommand::Fetch { source_id: Some(a), output_path: Some(b) } if a == "a" && b == "b"
    ));
    assert!(matches!(
        research::read_command(&args(&["dig"])),
        ResearchCommand::Unknown { command } if command == "dig"
    ));
    assert!(research::usage().contains("fetch <source-id> <output-path>"));
}

#[test]
fn the_profile_tells_the_shape_of_the_world() {
    let lines = research::profile(Some("global-lob".to_string())).unwrap();
    assert_eq!(lines[..3], ["profile=global-lob", "venues=96", "instruments=10200"]);
    assert_eq!(lines[3], "tier=equity-global venues=4 instruments_per_venue=500 command_weight=900");
    assert_eq!(lines[7], "tier=crypto-tail venues=32 instruments_per_venue=40 command_weight=25");
    assert_eq!(lines.len(), 9);
    assert_eq!(research::profile(Some("x".to_string())).unwrap_err(), "unknown profile: x");
    assert_eq!(research::profile(None).unwrap_err(), "profile requires a name");
}
