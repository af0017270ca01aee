//! What the simulation of one venue counts.
use vstd::prelude::*;

use crate::instrument::{ConfigView, InstrumentView};
use crate::model;
use crate::model::{BookView, Queued};
use crate::seeding;
use crate::sim_feed;
use crate::sim_run;
use crate::sim_run::MAX_COMMANDS;
use crate::sim_single;
use crate::sim_world;
use crate::types::{AccountId, Side};
use crate::venue_laws;
use crate::venue_model;
use crate::venue_model::VenueView;

verus! {

/// How many of the first `n` commands fall to the trader with number `r` of `traders`.
pub open spec fn turns(r: nat, traders: nat, n: nat) -> nat
    decreases n,
{
    if n == 0 {
        0
    } else {
        turns(r, traders, (n - 1) as nat) + if (n - 1) % (traders as int) == r {
            1nat
        } else {
            0
        }
    }
}

/// Every trader gets a turn in each round.
proof fn lemma_turns(r: nat, traders: nat, n: nat)
    requires
        r < traders,
    ensures
        turns(r, traders, n) == n as int / traders as int + (if n % traders > r {
            1int
        } else {
            0
        }),
    decreases n,
{
    let t = traders as int;
    if n == 0 {
        assert(0int / t == 0 && 0int % t == 0) by (nonlinear_arith)
            requires
                t > 0,
        ;
    } else {
        lemma_turns(r, traders, (n - 1) as nat);
        let q = (n - 1) / t;
        let s = (n - 1) % t;
        vstd::arithmetic::div_mod::lemma_fundamental_div_mod(n - 1, t);
        vstd::arithmetic::div_mod::lemma_mod_bound(n - 1, t);
        if s + 1 < t {
            vstd::arithmetic::div_mod::lemma_fundamental_div_mod_converse(n as int, t, q, s + 1);
        } else {
            assert((q + 1) * t == t * q + t) by (nonlinear_arith);
            vstd::arithmetic::div_mod::lemma_fundamental_div_mod_converse(n as int, t, q + 1, 0);
        }
    }
}

proof fn lemma_few_turns(r: nat, traders: nat, n: nat, rounds: nat)
    requires
        r < traders,
        n < traders * rounds,
    ensures
        turns(r, traders, n) <= rounds,
{
    lemma_turns(r, traders, n);
    let t = traders as int;
    vstd::arithmetic::div_mod::lemma_fundamental_div_mod(n as int, t);
    assert(n as int / t < rounds) by (nonlinear_arith)
        requires
            n == t * (n as int / t) + n as int % t,
            n as int % t >= 0,
            n < t * rounds,
            t > 0,
    ;
}

/// The order that rests after `n` commands, if one does: the last sale, where no purchase followed.
pub open spec fn last_sale(traders: u64, n: nat) -> Seq<Queued> {
    if n % 2 == 0 {
        seq![]
    } else {
        seq![BookView::resting(sim_single::single_orders(traders)((n - 1) as nat), 1)]
    }
}

/// The state of the venue after `n` commands that were all accepted.
spec fn steady(venue: VenueView, traders: u64, n: nat) -> bool {
    let count = sim_world::at_least_one(traders) as nat;
    &&& venue.valid()
    &&& venue.config == ConfigView::star("sim"@, "USD"@, seq!["AAA"@])
    &&& venue.book(0).bids == Seq::<Queued>::empty()
    &&& venue.book(0).asks == last_sale(traders, n)
    &&& forall|u: AccountId|
        1 <= u <= count ==> {
            &&& (#[trigger] venue.ledger.available(u, "USD"@)) + 10_011 * turns((u - 1) as nat, count, n)
                >= 1_000_000_000_000
            &&& venue.ledger.available(u, "AAA"@) + turns((u - 1) as nat, count, n) >= 1_000_000_000
        }
}

proof fn lemma_steady_start(traders: u64)
    requires
        traders < u64::MAX,
    ensures
        steady(sim_single::single_venue(traders), traders, 0),
{
    let bases = seq!["AAA"@];
    let config = ConfigView::star("sim"@, "USD"@, bases);
    let fresh = VenueView::fresh(config);
    let count = sim_world::at_least_one(traders) as nat;
    let endowment = sim_world::world_endowment(bases);
    let venue = sim_single::single_venue(traders);
    reveal_strlit("AAA");
    reveal_strlit("USD");
    assert("AAA"@[0] != "USD"@[0]);
    assert(config.valid());
    venue_model::law_fresh_venue_is_valid(config);
    sim_world::lemma_world_credit_fits(traders, 1);
    seeding::lemma_fresh_can_take(config, sim_world::world_credit(traders, 1));
    assert(endowment.sum() == 1_000_000_000_000 + 1 * 1_000_000_000);
    seeding::law_seeding_keeps_venue_valid(fresh, count, endowment, 0);
    sim_run::lemma_seeded_books(fresh, count, endowment);
    assert forall|u: AccountId| 1 <= u <= count implies {
        &&& (#[trigger] venue.ledger.available(u, "USD"@)) + 10_011 * turns((u - 1) as nat, count, 0)
            >= 1_000_000_000_000
        &&& venue.ledger.available(u, "AAA"@) + turns((u - 1) as nat, count, 0) >= 1_000_000_000
    } by {
        assert(bases[0] == "AAA"@);
        assert(bases.contains("AAA"@));
        assert(!bases.contains("USD"@));
        seeding::law_seeded_accounts_hold_their_endowment(config, count, endowment, u, "USD"@);
        seeding::law_seeded_accounts_hold_their_endowment(config, count, endowment, u, "AAA"@);
    }
}

/// What a purchase of one at 10,001 sets aside.
proof fn lemma_price_of_one(instrument: InstrumentView)
    requires
        instrument == InstrumentView::plain(0, "AAA"@, "USD"@),
    ensures
        crate::risk::obligation(instrument, Side::Buy, 10_001, 1) == 10_011,
        crate::risk::obligation(instrument, Side::Sell, 10_000, 1) == 1,
{
    assert(10_001nat * 1nat == 10_001nat);
    assert(10_001nat * 10nat == 100_010nat);
}

/// One command of a steady run: it is accepted, has two events, of which one is public, and leaves
/// the run steady.
proof fn lemma_steady_step(venue: VenueView, traders: u64, n: nat)
    requires
        steady(venue, traders, n),
        n < MAX_COMMANDS,
        n < sim_world::at_least_one(traders) * 99_000_000,
    ensures
        ({
            let order = sim_single::single_orders(traders)(n);
            let events = venue.submit_events(0, order);
            &&& events.len() == 2
            &&& sim_feed::public_texts(events).len() == 1
            &&& steady(venue.submitted(0, order), traders, n + 1)
        }),
{
    let count = sim_world::at_least_one(traders) as nat;
    let order = sim_single::single_orders(traders)(n);
    let u = order.account_id;
    let r = (u - 1) as nat;
    let book = venue.book(0);
    let events = venue.submit_events(0, order);
    let after = venue.submitted(0, order);
    assert(n % count < count) by (nonlinear_arith)
        requires
            count > 0,
    ;
    assert(r == n % count);
    lemma_few_turns(r, count, n, 99_000_000);
    assert(venue.instrument(0) == InstrumentView::plain(0, "AAA"@, "USD"@));
    lemma_price_of_one(venue.instrument(0));
    assert(venue.ledger.available(u, "USD"@) >= 10_011);
    assert(venue.books[0].valid());
    assert(book.refusal(order) is None) by {
        if n % 2 == 1 {
            assert(book.asks[0].order.order_id == n);
        }
    }
    assert(order.price.0 * order.quantity == order.price.0);
    assert(venue.refusal(0, order) is None);
    venue_model::law_submit_keeps_venue_valid(venue, 0, order);
    let m = book.matching(order);
    if n % 2 == 0 {
        let item = BookView::resting(order, 1);
        assert(m.fills =~= seq![] && m.left == 1);
        assert(model::enqueued(book.asks, Side::Sell, item) =~= seq![item]);
    } else {
        let rest = model::matched(book.asks.drop_first(), Side::Sell, order.price, 0);
        assert(book.asks.drop_first() =~= seq![]);
        assert(m.fills.len() == 1 && m.left == 0);
        assert(m.queue =~= seq![]);
    }
    assert(events.len() == 2);
    assert(events.drop_last().drop_last() =~= seq![]);
    reveal_with_fuel(model::those, 3);
    assert(events[0] is Accepted);
    assert(sim_feed::public_texts(events).len() == 1);
    assert forall|v: AccountId| 1 <= v <= count implies {
        &&& (#[trigger] after.ledger.available(v, "USD"@)) + 10_011 * turns((v - 1) as nat, count, n + 1)
            >= 1_000_000_000_000
        &&& after.ledger.available(v, "AAA"@) + turns((v - 1) as nat, count, n + 1) >= 1_000_000_000
    } by {
        assert(venue.ledger.available(v, "USD"@) >= 0);
        venue_laws::law_order_takes_no_more_than_it_sets_aside(venue, 0, order, v, "USD"@);
        venue_laws::law_order_takes_no_more_than_it_sets_aside(venue, 0, order, v, "AAA"@);
        assert((n % count == (v - 1)) == (v == u));
    }
}

proof fn lemma_steady(traders: u64, n: nat)
    requires
        traders < u64::MAX,
        n <= MAX_COMMANDS,
        n <= sim_world::at_least_one(traders) * 99_000_000,
    ensures
        steady(
            sim_run::after_orders(
                sim_single::single_venue(traders),
                sim_single::single_orders(traders),
                n,
            ),
            traders,
            n,
        ),
        sim_single::counted(traders, n) == (sim_run::Counts {
            private_events: 2 * n,
            public_events: n,
            measured: n,
        }),
    decreases n,
{
    if n == 0 {
        lemma_steady_start(traders);
    } else {
        lemma_steady(traders, (n - 1) as nat);
        lemma_steady_step(
            sim_run::after_orders(
                sim_single::single_venue(traders),
                sim_single::single_orders(traders),
                (n - 1) as nat,
            ),
            traders,
            (n - 1) as nat,
        );
    }
}

/// As long as the traders' balances last, every command of the single-instrument simulation is
/// accepted and has two events, of which one is public: a sale rests, and the purchase that follows
/// meets it.
pub proof fn law_every_command_has_two_events(traders: u64, n: nat)
    requires
        traders < u64::MAX,
        n <= MAX_COMMANDS,
        n <= sim_world::at_least_one(traders) * 99_000_000,
    ensures
        sim_single::counted(traders, n) == (sim_run::Counts {
            private_events: 2 * n,
            public_events: n,
            measured: n,
        }),
{
    lemma_steady(traders, n);
}

} // verus!
