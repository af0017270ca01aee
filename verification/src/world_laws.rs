//! What generated venues and worlds are made of, and which orders arrive at them.
use vstd::prelude::*;

use crate::chart;
use crate::instrument::ConfigView;
use crate::level_laws;
use crate::model;
use crate::model::BookView;
use crate::order_entry;
use crate::research;
use crate::research::TierView;
use crate::seeding;
use crate::sim_global;
use crate::sim_global::WorldState;
use crate::sim_run;
use crate::sim_shock;
use crate::sim_single;
use crate::sim_world;
use crate::sim_world::{DeterministicRng, WorldVenue};
use crate::text;
use crate::types::{AccountId, Level, OrderId, Side};
use crate::venue_model::VenueView;

verus! {

/// A generated venue trades each base asset against the quote asset, in the order given, numbered
/// from zero; with unit ticks and steps, a minimum notional of one, no maker fee and a taker fee of
/// ten basis points; and shows ten levels where nothing else is said.
pub proof fn law_generated_venue_has_the_default_terms(
    name: Seq<char>,
    quote: Seq<char>,
    bases: Seq<Seq<char>>,
    i: int,
)
    requires
        bases.len() <= u32::MAX,
        0 <= i < bases.len(),
    ensures
        ({
            let config = ConfigView::star(name, quote, bases);
            let terms = config.instruments[i];
            &&& config.name == name
            &&& config.default_snapshot_depth == 10
            &&& config.instruments.len() == bases.len()
            &&& terms.id == i
            &&& terms.base == bases[i]
            &&& terms.quote == quote
            &&& terms.price_tick == 1
            &&& terms.quantity_step == 1
            &&& terms.min_notional == 1
            &&& terms.maker_fee_bps == 0
            &&& terms.taker_fee_bps == 10
        }),
{
}

/// The demonstration venue trades six assets, and a thousand accounts have a thousand million of the
/// quote asset and a million of each other one; nobody else has anything.
pub proof fn law_demo_accounts_have_their_balances(account: AccountId, asset: Seq<char>)
    ensures
        ({
            let venue = seeding::seeded(
                VenueView::fresh(seeding::demo_config()),
                1_000,
                seeding::demo_endowment(),
            );
            let base = asset == "AAA"@ || asset == "BBB"@ || asset == "CCC"@ || asset == "DDD"@ || asset == "EEE"@
                || asset == "FFF"@;
            &&& seeding::demo_config() == ConfigView::star(
                "local-equities"@,
                "USD"@,
                seq!["AAA"@, "BBB"@, "CCC"@, "DDD"@, "EEE"@, "FFF"@],
            )
            &&& venue.ledger.available(account, asset) == (if !(1 <= account <= 1_000) {
                0
            } else if asset == "USD"@ {
                1_000_000_000
            } else if base {
                1_000_000
            } else {
                0int
            })
        }),
{
    reveal_strlit("AAA");
    reveal_strlit("BBB");
    reveal_strlit("CCC");
    reveal_strlit("DDD");
    reveal_strlit("EEE");
    reveal_strlit("FFF");
    reveal_strlit("USD");
    let bases = seeding::demo_bases();
    assert("AAA"@[0] == 'A' && "BBB"@[0] == 'B' && "CCC"@[0] == 'C' && "DDD"@[0] == 'D' && "EEE"@[0] == 'E'
        && "FFF"@[0] == 'F' && "USD"@[0] == 'U');
    assert(bases.no_duplicates());
    assert(!bases.contains("USD"@));
    seeding::law_seeded_accounts_hold_their_endowment(
        seeding::demo_config(),
        1_000,
        seeding::demo_endowment(),
        account,
        asset,
    );
    let base = asset == "AAA"@ || asset == "BBB"@ || asset == "CCC"@ || asset == "DDD"@ || asset == "EEE"@ || asset
        == "FFF"@;
    assert(bases[0] == "AAA"@ && bases[1] == "BBB"@ && bases[2] == "CCC"@ && bases[3] == "DDD"@ && bases[4] == "EEE"@
        && bases[5] == "FFF"@);
    assert(bases.contains(asset) <==> base);
}

/// A connection may send a hundred commands per second.
pub proof fn law_hundred_commands_per_second()
    ensures
        order_entry::ORDER_COMMANDS_PER_SECOND == 100,
{
}

/// Sales at 10,000 and purchases at 10,001 arrive in turn, of one each; the traders, numbered from
/// one, take turns.
pub proof fn law_orders_arrive_in_turn(index: u64, traders: u64, id: OrderId)
    ensures
        ({
            let order = sim_world::arriving(index, traders, id);
            &&& order.order_id == id
            &&& order.quantity == 1
            &&& index % 2 == 0 ==> order.side is Sell && order.price.0 == 10_000
            &&& index % 2 == 1 ==> order.side is Buy && order.price.0 == 10_001
            &&& traders <= 1 ==> order.account_id == 1
            &&& traders > 1 && index < traders ==> order.account_id == index + 1
            &&& traders > 1 && index + traders <= u64::MAX ==> order.account_id == sim_world::arriving(
                (index + traders) as u64,
                traders,
                id,
            ).account_id
        }),
{
    if traders > 1 {
        let t = traders as int;
        vstd::arithmetic::div_mod::lemma_mod_add_multiples_vanish(index as int, t);
        if index < traders {
            vstd::arithmetic::div_mod::lemma_small_mod(index as nat, traders as nat);
        }
        assert(index % traders < traders) by (nonlinear_arith)
            requires
                traders > 0,
        ;
    } else {
        assert(index % 1 == 0);
    }
}

/// The next number is congruent to the last times a constant, and one, modulo 2^64.
pub proof fn law_numbers_follow_a_congruence(state: u64)
    ensures
        exists|q: int|
            state * 6_364_136_223_846_793_005 + 1 == #[trigger] (q * 0x1_0000_0000_0000_0000)
                + DeterministicRng::next_state(state),
{
    let x = state * 6_364_136_223_846_793_005 + 1;
    let q = x / 0x1_0000_0000_0000_0000;
    assert(x == q * 0x1_0000_0000_0000_0000 + x % 0x1_0000_0000_0000_0000);
}

/// All venues of tiers, one tier after the other.
pub open spec fn venues_of(tiers: Seq<TierView>, traders: u64) -> Seq<WorldVenue>
    decreases tiers.len(),
{
    if tiers.len() == 0 {
        seq![]
    } else {
        let last = tiers.last();
        venues_of(tiers.drop_last(), traders) + sim_world::tier_venues(
            last.name,
            last.venues as nat,
            last.symbols as nat,
            last.weight,
            traders,
        )
    }
}

/// The global world is made of the tiers that its profile tells of.
pub proof fn law_profile_describes_the_world(traders: u64)
    ensures
        sim_world::global_world(traders) == venues_of(research::global_tiers(), traders),
{
    let t = research::global_tiers();
    let t4 = t.drop_last();
    let t3 = t4.drop_last();
    let t2 = t3.drop_last();
    let t1 = t2.drop_last();
    assert(t1.drop_last() =~= seq![]);
    reveal_with_fuel(venues_of, 6);
    let a = sim_world::tier_venues("equity-global"@, 4, 500, 900, traders);
    assert(venues_of(t1.drop_last(), traders) =~= seq![]);
    assert(venues_of(t1, traders) =~= a);
    assert(t2.last() == t[1] && t3.last() == t[2] && t4.last() == t[3]);
}

/// A venue of a tier is named by the tier and its number; its symbols begin with the letters of the
/// tier and end with the numbers of the venue and of the symbol; its orders are numbered from one;
/// and every trader starts with a million million of the quote asset and a thousand million of each
/// symbol.
pub proof fn law_tier_venue_is_named_and_endowed(
    tier: Seq<char>,
    index: nat,
    symbols: nat,
    weight: u64,
    traders: u64,
    k: int,
)
    requires
        symbols <= u32::MAX,
        0 <= k < symbols,
    ensures
        ({
            let v = sim_world::tier_venue(tier, index, symbols, weight, traders);
            let names = sim_world::symbols_of(tier, index, symbols);
            let endowment = sim_world::world_endowment(names);
            &&& v.instrument_count == symbols
            &&& v.command_weight == weight
            &&& v.next_order_id == 1
            &&& names.len() == symbols
            &&& names[k] == sim_world::prefix_text(tier) + text::padded(index, 2) + text::padded(k as nat, 4)
            &&& endowment.quote == "USD"@
            &&& endowment.quote_amount == 1_000_000_000_000
            &&& endowment.bases == names
            &&& endowment.base_amount == 1_000_000_000
            &&& v.venue == seeding::seeded(
                VenueView::fresh(
                    ConfigView::star(tier + "-"@ + text::padded(index, 2), "USD"@, names),
                ),
                if traders == 0 {
                    1
                } else {
                    traders as nat
                },
                endowment,
            )
        }),
{
}

/// The symbols of each tier begin with letters of their own.
pub proof fn law_tiers_have_their_letters(tier: Seq<char>)
    ensures
        sim_world::prefix_text("equity-global"@) == "EG"@,
        sim_world::prefix_text("equity-regional"@) == "ER"@,
        sim_world::prefix_text("equity-local"@) == "EL"@,
        sim_world::prefix_text("crypto-major"@) == "CM"@,
        sim_world::prefix_text("crypto-tail"@) == "CT"@,
        tier != "equity-global"@ && tier != "equity-regional"@ && tier != "equity-local"@ && tier
            != "crypto-major"@ && tier != "crypto-tail"@ ==> sim_world::prefix_text(tier) == "SX"@,
{
    reveal_strlit("equity-global");
    reveal_strlit("equity-regional");
    reveal_strlit("equity-local");
    reveal_strlit("crypto-major");
    reveal_strlit("crypto-tail");
    assert("equity-local"@[0] != "crypto-major"@[0]);
    assert("equity-global"@.len() == 13 && "equity-regional"@.len() == 15 && "equity-local"@.len() == 12
        && "crypto-major"@.len() == 12 && "crypto-tail"@.len() == 11);
}

/// A command of the global run falls on a venue by weight and on one of its instruments, both drawn
/// one after the other; its order takes the venue's next number; all other venues stay as they are.
pub proof fn law_global_command_goes_to_what_was_drawn(state: WorldState, traders: u64, index: nat, at: int)
    requires
        0 <= at < state.world.len(),
        state.world[at].instrument_count > 0,
        sim_world::weight_below(state.world, at as nat) <= DeterministicRng::next_state(state.rng) % 11_520
            < sim_world::weight_below(state.world, at as nat + 1),
    ensures
        ({
            let first = DeterministicRng::next_state(state.rng);
            let second = DeterministicRng::next_state(first);
            let v = state.world[at];
            let id = (second % (v.instrument_count as u64)) as u32;
            let order = sim_world::arriving(index as u64, traders, v.next_order_id);
            let next = state.next(traders, index);
            &&& state.events(traders, index) == v.venue.submit_events(id, order)
            &&& next.rng == second
            &&& next.world.len() == state.world.len()
            &&& next.world[at].venue == v.venue.submitted(id, order)
            &&& next.world[at].next_order_id == (v.next_order_id + 1) as u64
            &&& next.world[at].instrument_count == v.instrument_count
            &&& next.world[at].command_weight == v.command_weight
            &&& forall|i: int| 0 <= i < state.world.len() && i != at ==> #[trigger] next.world[i] == state.world[i]
        }),
{
    let draw = DeterministicRng::next_state(state.rng) % 11_520;
    sim_world::law_draws_fall_by_weight(state.world, draw as nat, at as nat);
}

/// The global run starts with the global world, and each command is counted once: all its events,
/// and those that are public.
pub proof fn law_global_run_counts_each_command(traders: u64, n: nat)
    ensures
        sim_global::world_after(traders, 0) == (WorldState {
            world: sim_world::global_world(traders),
            rng: 0x51d0_ecc0_ffee,
        }),
        sim_global::world_after(traders, n + 1) == sim_global::world_after(traders, n).next(traders, n),
        sim_global::counted(traders, 0).private_events == 0,
        sim_global::counted(traders, 0).public_events == 0,
        sim_global::counted(traders, n + 1).private_events == sim_global::counted(traders, n).private_events
            + sim_global::world_after(traders, n).events(traders, n).len(),
        sim_global::counted(traders, n + 1).public_events == sim_global::counted(traders, n).public_events
            + sim_run::public_count(sim_global::world_after(traders, n).events(traders, n)),
{
    sim_run::lemma_public_count(sim_global::world_after(traders, n).events(traders, n));
}

/// What a chart shows of a book: the sum and the difference of the best prices where both sides have
/// one, and all that rests in the five best levels of each side.
pub proof fn law_chart_shows_quote_and_depth(book: BookView, bids: Seq<Level>, asks: Seq<Level>)
    requires
        book.valid(),
        model::visible_fit(book.bids, 5),
        model::visible_fit(book.asks, 5),
        bids == model::shown_levels(book.bids, 5),
        asks == model::shown_levels(book.asks, 5),
    ensures
        level_laws::best_levels(bids, book.bids, Side::Buy, 5),
        level_laws::best_levels(asks, book.asks, Side::Sell, 5),
        ({
            let point = chart::point_of(book);
            &&& bids.len() > 0 && asks.len() > 0 ==> point.quote is Some && point.quote->0.twice_midprice
                == bids[0].price.0 + asks[0].price.0 && point.quote->0.spread == asks[0].price.0
                - bids[0].price.0
            &&& bids.len() == 0 || asks.len() == 0 ==> point.quote is None
            &&& point.bid_depth == listed(bids) as u128
            &&& point.ask_depth == listed(asks) as u128
        }),
{
    level_laws::law_best_levels_are_shown(book.bids, Side::Buy, 5);
    level_laws::law_best_levels_are_shown(book.asks, Side::Sell, 5);
    chart::lemma_point_of_book(book, bids, asks);
    lemma_listed(bids);
    lemma_listed(asks);
}

/// The quantities of listed levels together.
pub open spec fn listed(levels: Seq<Level>) -> nat
    decreases levels.len(),
{
    if levels.len() == 0 {
        0
    } else {
        listed(levels.drop_last()) + levels.last().quantity as nat
    }
}

proof fn lemma_listed(levels: Seq<Level>)
    ensures
        listed(levels) == chart::levels_sum(levels),
    decreases levels.len(),
{
    if levels.len() > 0 {
        lemma_listed(levels.drop_last());
    }
}

/// The run on one venue starts with an empty book and the endowed traders, and takes the arriving
/// orders as they come, numbered from one.
pub proof fn law_single_run_takes_the_arriving_orders(traders: u64, n: nat, index: nat)
    ensures
        sim_single::single_venue(traders) == seeding::seeded(
            VenueView::fresh(ConfigView::star("sim"@, "USD"@, seq!["AAA"@])),
            if traders == 0 {
                1
            } else {
                traders as nat
            },
            sim_world::world_endowment(seq!["AAA"@]),
        ),
        sim_single::single_orders(traders)(index) == sim_world::arriving(
            index as u64,
            traders,
            (index + 1) as u64,
        ),
        sim_single::counted(traders, n) == sim_run::counts_of_orders(
            sim_single::single_venue(traders),
            sim_single::single_orders(traders),
            n,
        ),
{
}

/// The chart of the shock simulation has a point for the start and one behind each command, and each
/// is that of the book as it stands there.
pub proof fn law_chart_follows_the_run(traders: u64, commands: u64, i: int)
    requires
        0 <= i <= commands,
    ensures
        ({
            let points = sim_shock::chart_of(traders, commands);
            let start = sim_shock::shock_venue(traders);
            let orders = sim_shock::run_orders(traders, commands);
            &&& points.len() == commands + 1
            &&& points[i] == chart::point_of(sim_run::after_orders(start, orders, i as nat).books[0])
            &&& sim_shock::counted(traders, commands, i as nat) == sim_run::counts_of_orders(
                start,
                orders,
                i as nat,
            )
        }),
{
}

/// The orders of the shock simulation come from the traders in turn, numbered behind those that gave
/// the book its depth; the shock reaches all of that depth, the background trades on both sides, and
/// replenishment offers where the depth was.
pub proof fn law_shock_orders(traders: u64, commands: u64, index: u64)
    requires
        index < commands,
        commands <= sim_shock::MAX_SHOCK_COMMANDS,
    ensures
        ({
            let order = sim_shock::run_orders(traders, commands)(index as nat);
            let phase = sim_shock::phase_of(index, commands);
            &&& order.order_id == 21 + index
            &&& order.account_id == sim_world::arriving(index, traders, 0).account_id
            &&& phase is Shock <==> index == commands / 2
            &&& phase is Replenishment <==> index > commands / 2 && (index - commands / 2) % 2 == 1
            &&& phase is Shock ==> order.side is Buy && order.price.0 == 10_100 && order.quantity == 300
            &&& phase is Replenishment ==> order.side is Sell && order.price.0 == 10_001 + index % 10
                && order.quantity == 20
            &&& phase is Background ==> {
                &&& order.side is Buy <==> index % 2 == 0
                &&& index % 4 < 2 ==> order.quantity == 2 && order.price.0 == (if order.side is Buy {
                    9_998int
                } else {
                    10_002
                })
                &&& index % 4 >= 2 ==> order.quantity == 1 && order.price.0 == (if order.side is Buy {
                    10_050int
                } else {
                    9_950
                })
            }
        }),
{
}

} // verus!
