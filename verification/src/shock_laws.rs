//! What the shock simulation promises of its orders and of the book that it starts with.
use vstd::prelude::*;

use crate::instrument::{ConfigView, InstrumentView};
use crate::model;
use crate::model::{BookView, Queued};
use crate::seeding;
use crate::sim_run;
use crate::sim_shock;
use crate::sim_world;
use crate::types::{AccountId, Side};
use crate::venue_laws;
use crate::venue_model;
use crate::venue_model::VenueView;

verus! {

/// Of any number of commands exactly one is the shock, the one halfway. It buys, and more than any
/// other command trades.
pub proof fn law_one_large_purchase_halfway(commands: u64)
    requires
        commands > 0,
    ensures
        commands / 2 < commands,
        forall|i: u64|
            i < commands ==> (#[trigger] sim_shock::phase_of(i, commands) is Shock <==> i == commands / 2),
        sim_shock::command_terms(commands / 2, commands).side is Buy,
        forall|i: u64|
            i < commands && i != commands / 2 ==> (#[trigger] sim_shock::command_terms(
                i,
                commands,
            )).quantity < sim_shock::command_terms(commands / 2, commands).quantity,
{
}

/// Before the shock there is only the background; replenishment comes after the shock, and only on
/// the ask side; and where two commands follow the shock, the first of them is one.
pub proof fn law_offers_return_after_the_shock(commands: u64)
    ensures
        forall|i: u64|
            i < commands / 2 ==> #[trigger] sim_shock::phase_of(i, commands) is Background,
        forall|i: u64| #[trigger]
            sim_shock::phase_of(i, commands) is Replenishment ==> i > commands / 2
                && sim_shock::command_terms(i, commands).side is Sell,
        commands >= 3 ==> {
            let next = (commands / 2 + 1) as u64;
            next < commands && sim_shock::phase_of(next, commands) is Replenishment
        },
{
}

/// The orders of one side that give the book its depth, the first `n` of them.
pub open spec fn depth_queue(traders: u64, from: nat, n: nat) -> Seq<Queued> {
    Seq::new(n, |k: int| BookView::resting(sim_shock::seed_orders(traders)((from + k) as nat), 50))
}

/// The state of the venue after `n` of the orders that give its book depth.
spec fn deepening(venue: VenueView, traders: u64, n: nat) -> bool {
    let count = sim_world::at_least_one(traders) as nat;
    &&& venue.valid()
    &&& venue.config == ConfigView::star("shock-demo"@, "USD"@, seq!["AAA"@])
    &&& venue.book(0).bids == depth_queue(traders, 0, model::least(n, 10))
    &&& venue.book(0).asks == depth_queue(traders, 10, (n - model::least(n, 10)) as nat)
    &&& forall|u: AccountId|
        1 <= u <= count ==> {
            &&& (#[trigger] venue.ledger.available(u, "USD"@)) + 501_000 * n >= 1_000_000_000_000
            &&& venue.ledger.available(u, "AAA"@) + 50 * n >= 1_000_000_000
        }
}

proof fn lemma_deepening_start(traders: u64)
    requires
        traders < u64::MAX,
    ensures
        deepening(sim_shock::bare_venue(traders), traders, 0),
{
    let bases = seq!["AAA"@];
    let config = ConfigView::star("shock-demo"@, "USD"@, bases);
    let fresh = VenueView::fresh(config);
    let count = sim_world::at_least_one(traders) as nat;
    let endowment = sim_world::world_endowment(bases);
    let venue = sim_shock::bare_venue(traders);
    reveal_strlit("AAA");
    reveal_strlit("USD");
    assert("AAA"@[0] != "USD"@[0]);
    assert(config.valid());
    venue_model::law_fresh_venue_is_valid(config);
    sim_world::lemma_world_credit_fits(traders, 1);
    seeding::lemma_fresh_can_take(config, sim_world::world_credit(traders, 1));
    assert(endowment.sum() == 1_000_000_000_000 + 1 * 1_000_000_000);
    seeding::law_seeding_keeps_venue_valid(fresh, count, endowment, 0);
    sim_run::lemma_seeded_books(fresh, count, endowment);
    assert(venue.book(0).bids =~= depth_queue(traders, 0, 0));
    assert(venue.book(0).asks =~= depth_queue(traders, 10, 0));
    assert forall|u: AccountId| 1 <= u <= count implies {
        &&& (#[trigger] venue.ledger.available(u, "USD"@)) >= 1_000_000_000_000
        &&& venue.ledger.available(u, "AAA"@) >= 1_000_000_000
    } by {
        assert(bases[0] == "AAA"@);
        assert(bases.contains("AAA"@));
        assert(!bases.contains("USD"@));
        seeding::law_seeded_accounts_hold_their_endowment(config, count, endowment, u, "USD"@);
        seeding::law_seeded_accounts_hold_their_endowment(config, count, endowment, u, "AAA"@);
    }
}

/// An order that is worse than all others of its side goes to the end.
proof fn lemma_worst_goes_last(queue: Seq<Queued>, side: Side, item: Queued)
    requires
        forall|i: int| 0 <= i < queue.len() ==> model::better(side, (#[trigger] queue[i]).price, item.price),
    ensures
        model::enqueued(queue, side, item) == queue.push(item),
{
    model::lemma_those_all(queue, model::ahead_of(side, item.price));
    model::lemma_those_none(queue, model::behind(side, item.price));
    assert(model::enqueued(queue, side, item) =~= queue.push(item));
}

proof fn lemma_deepening_step(venue: VenueView, traders: u64, n: nat)
    requires
        deepening(venue, traders, n),
        n < 20,
    ensures
        deepening(venue.submitted(0, sim_shock::seed_orders(traders)(n)), traders, n + 1),
{
    let count = sim_world::at_least_one(traders) as nat;
    let order = sim_shock::seed_orders(traders)(n);
    let u = order.account_id;
    let book = venue.book(0);
    let after = venue.submitted(0, order);
    assert(n % count < count) by (nonlinear_arith)
        requires
            count > 0,
    ;
    assert(venue.instrument(0) == InstrumentView::plain(0, "AAA"@, "USD"@));
    assert(venue.ledger.available(u, "USD"@) >= 501_000);
    assert(venue.books[0].valid());
    assert(venue.obligation(0, order) <= (if n < 10 {
        501_000int
    } else {
        50
    })) by {
        let price = order.price.0 as nat;
        assert(price * 50 * 10 == price * 500) by (nonlinear_arith);
    }
    assert(book.refusal(order) is None) by {
        assert forall|i: int| 0 <= i < book.bids.len() implies (#[trigger] book.bids[i]).order.order_id
            != order.order_id by {}
        assert forall|i: int| 0 <= i < book.asks.len() implies (#[trigger] book.asks[i]).order.order_id
            != order.order_id by {}
    }
    assert(order.price.0 * order.quantity == order.price.0 * 50);
    assert(venue.refusal(0, order) is None);
    venue_model::law_submit_keeps_venue_valid(venue, 0, order);
    let m = book.matching(order);
    let item = BookView::resting(order, 50);
    let own = book.queue(order.side);
    assert(m.fills =~= seq![] && m.left == 50) by {
        if n >= 10 {
            assert(book.bids.len() == 10);
            assert(book.bids[0].price.0 == 9_999);
        } else {
            assert(book.asks.len() == 0);
        }
    }
    lemma_worst_goes_last(own, order.side, item);
    if n < 10 {
        assert(after.book(0).bids =~= depth_queue(traders, 0, n + 1));
        assert(after.book(0).asks =~= depth_queue(traders, 10, 0));
    } else {
        assert(after.book(0).bids =~= depth_queue(traders, 0, 10));
        assert(after.book(0).asks =~= depth_queue(traders, 10, (n + 1 - 10) as nat));
    }
    assert forall|v: AccountId| 1 <= v <= count implies {
        &&& (#[trigger] after.ledger.available(v, "USD"@)) + 501_000 * (n + 1) >= 1_000_000_000_000
        &&& after.ledger.available(v, "AAA"@) + 50 * (n + 1) >= 1_000_000_000
    } by {
        assert(venue.ledger.available(v, "USD"@) >= 0);
        venue_laws::law_order_takes_no_more_than_it_sets_aside(venue, 0, order, v, "USD"@);
        venue_laws::law_order_takes_no_more_than_it_sets_aside(venue, 0, order, v, "AAA"@);
    }
}

proof fn lemma_deepening(traders: u64, n: nat)
    requires
        traders < u64::MAX,
        n <= 20,
    ensures
        deepening(
            sim_run::after_orders(sim_shock::bare_venue(traders), sim_shock::seed_orders(traders), n),
            traders,
            n,
        ),
    decreases n,
{
    if n == 0 {
        lemma_deepening_start(traders);
    } else {
        let last = (n - 1) as nat;
        lemma_deepening(traders, last);
        lemma_deepening_step(
            sim_run::after_orders(sim_shock::bare_venue(traders), sim_shock::seed_orders(traders), last),
            traders,
            last,
        );
    }
}

/// The run starts with depth on both sides: ten bids of 50 from 9,999 down, and ten asks of 50 from
/// 10,001 up, whatever the number of traders.
pub proof fn law_book_starts_with_depth(traders: u64)
    requires
        traders < u64::MAX,
    ensures
        ({
            let book = sim_shock::shock_venue(traders).book(0);
            &&& book.bids.len() == 10
            &&& book.asks.len() == 10
            &&& forall|k: int|
                0 <= k < 10 ==> (#[trigger] book.bids[k]).price.0 == 9_999 - k
                    && book.bids[k].order.quantity == 50
            &&& forall|k: int|
                0 <= k < 10 ==> (#[trigger] book.asks[k]).price.0 == 10_001 + k
                    && book.asks[k].order.quantity == 50
        }),
{
    lemma_deepening(traders, 20);
}

} // verus!
