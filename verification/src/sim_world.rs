//! Generated worlds: venues of uneven size and activity, and the orders that arrive at them.
use vstd::prelude::*;

use crate::instrument::{ConfigView, VenueConfig};
use crate::seeding;
use crate::seeding::Endowment;
use crate::sim_feed;
use crate::text;
use crate::types::{NewOrder, OrderId, Price, Side};
use crate::venue::Venue;
use crate::venue_model::VenueView;

verus! {

/// A generator of numbers that look random and are the same in every run.
#[derive(Debug)]
pub struct DeterministicRng(u64);

impl DeterministicRng {
    pub closed spec fn state(self) -> u64 {
        self.0
    }

    /// The state after the next number was drawn: a linear congruence modulo 2^64.
    pub open spec fn next_state(state: u64) -> u64 {
        ((state * 6_364_136_223_846_793_005 + 1) % 0x1_0000_0000_0000_0000) as u64
    }

    pub fn new(seed: u64) -> (rng: Self)
        ensures
            rng.state() == (if seed == 0 {
                1
            } else {
                seed
            }),
    {
        if seed == 0 {
            DeterministicRng(1)
        } else {
            DeterministicRng(seed)
        }
    }

    /// A number below `modulo`.
    pub fn next_u64(&mut self, modulo: u64) -> (result: u64)
        requires
            modulo > 0,
        ensures
            final(self).state() == Self::next_state(old(self).state()),
            result == final(self).state() % modulo,
            result < modulo,
    {
        let state: u128 = self.0 as u128;
        assert(state * 6_364_136_223_846_793_005 <= 0xffff_ffff_ffff_ffff * 6_364_136_223_846_793_005)
            by (nonlinear_arith)
            requires
                state <= 0xffff_ffff_ffff_ffff,
        ;
        self.0 = ((state * 6_364_136_223_846_793_005 + 1) % 0x1_0000_0000_0000_0000) as u64;
        self.0 % modulo
    }

    /// A number below `modulo`, or zero where `modulo` is zero.
    pub fn next_u32(&mut self, modulo: u32) -> (result: u32)
        ensures
            final(self).state() == Self::next_state(old(self).state()),
            result == (if modulo == 0 {
                0
            } else {
                final(self).state() % (modulo as u64)
            }),
            modulo > 0 ==> result < modulo,
    {
        if modulo == 0 {
            self.next_u64(1) as u32
        } else {
            self.next_u64(modulo as u64) as u32
        }
    }
}

/// The order that arrives as number `index`: sales and purchases in turn, at prices that meet, by
/// the traders in turn.
pub open spec fn arriving(index: u64, traders: u64, order_id: OrderId) -> NewOrder {
    NewOrder {
        order_id,
        account_id: (index % at_least_one(traders) + 1) as u64,
        side: if index % 2 == 0 {
            Side::Sell
        } else {
            Side::Buy
        },
        price: Price(
            if index % 2 == 0 {
                10_000
            } else {
                10_001
            },
        ),
        quantity: 1,
    }
}

pub open spec fn at_least_one(n: u64) -> u64 {
    if n == 0 {
        1
    } else {
        n
    }
}

fn or_one(n: u64) -> (result: u64)
    ensures
        result == at_least_one(n),
{
    if n == 0 {
        1
    } else {
        n
    }
}

/// The order that arrives as number `index` at a world.
pub fn synthetic_world_order(index: u64, traders: u64, order_id: OrderId) -> (order: NewOrder)
    ensures
        order == arriving(index, traders, order_id),
{
    let even: bool = index % 2 == 0;
    let side: Side = if even { Side::Sell } else { Side::Buy };
    let price: u64 = if even { 10_000 } else { 10_001 };
    NewOrder {
        order_id,
        account_id: index % or_one(traders) + 1,
        side,
        price: Price(price),
        quantity: 1,
    }
}

/// The order that arrives as number `index` at a single venue.
pub fn synthetic_order(index: u64, traders: u64) -> (order: NewOrder)
    requires
        index < u64::MAX,
    ensures
        order == arriving(index, traders, (index + 1) as u64),
{
    synthetic_world_order(index, traders, index + 1)
}

/// A venue of a world, with what the world needs to know of it.
pub struct VenueRuntime {
    pub venue: Venue,
    pub instrument_count: u32,
    pub command_weight: u64,
    pub next_order_id: u64,
}

/// A venue of a world as contracts speak of it.
pub struct WorldVenue {
    pub venue: VenueView,
    pub instrument_count: u32,
    pub command_weight: u64,
    pub next_order_id: u64,
}

impl View for VenueRuntime {
    type V = WorldVenue;

    open spec fn view(&self) -> WorldVenue {
        WorldVenue {
            venue: self.venue@,
            instrument_count: self.instrument_count,
            command_weight: self.command_weight,
            next_order_id: self.next_order_id,
        }
    }
}

pub open spec fn world_views(venues: Seq<VenueRuntime>) -> Seq<WorldVenue> {
    Seq::new(venues.len(), |i: int| venues[i]@)
}

/// Every venue of a world is well-formed.
pub open spec fn world_wf(venues: Seq<VenueRuntime>) -> bool {
    forall|i: int| 0 <= i < venues.len() ==> (#[trigger] venues[i]).venue.wf()
}

/// The letters with which the symbols of a tier begin.
pub open spec fn prefix_text(tier: Seq<char>) -> Seq<char> {
    if tier == "equity-global"@ {
        "EG"@
    } else if tier == "equity-regional"@ {
        "ER"@
    } else if tier == "equity-local"@ {
        "EL"@
    } else if tier == "crypto-major"@ {
        "CM"@
    } else if tier == "crypto-tail"@ {
        "CT"@
    } else {
        "SX"@
    }
}

pub fn tier_symbol_prefix(tier: &str) -> (prefix: &'static str)
    ensures
        prefix@ == prefix_text(tier@),
{
    if text::same(tier, "equity-global") {
        "EG"
    } else if text::same(tier, "equity-regional") {
        "ER"
    } else if text::same(tier, "equity-local") {
        "EL"
    } else if text::same(tier, "crypto-major") {
        "CM"
    } else if text::same(tier, "crypto-tail") {
        "CT"
    } else {
        "SX"
    }
}

/// The symbols of the venue with number `index` in a tier.
pub open spec fn symbols_of(tier: Seq<char>, index: nat, count: nat) -> Seq<Seq<char>> {
    Seq::new(
        count,
        |k: int| prefix_text(tier) + text::padded(index, 2) + text::padded(k as nat, 4),
    )
}

/// What every trader of a world starts with.
pub open spec fn world_endowment(symbols: Seq<Seq<char>>) -> Endowment {
    Endowment {
        quote: "USD"@,
        quote_amount: 1_000_000_000_000,
        bases: symbols,
        base_amount: 1_000_000_000,
    }
}

/// The venue with number `index` in a tier.
pub open spec fn tier_venue(
    tier: Seq<char>,
    index: nat,
    symbols_per_venue: nat,
    command_weight: u64,
    traders: u64,
) -> WorldVenue {
    let symbols = symbols_of(tier, index, symbols_per_venue);
    let name = tier + "-"@ + text::padded(index, 2);
    WorldVenue {
        venue: seeding::seeded(
            VenueView::fresh(ConfigView::star(name, "USD"@, symbols)),
            at_least_one(traders) as nat,
            world_endowment(symbols),
        ),
        instrument_count: symbols_per_venue as u32,
        command_weight,
        next_order_id: 1,
    }
}

/// All venues of a tier.
pub open spec fn tier_venues(
    tier: Seq<char>,
    venue_count: nat,
    symbols_per_venue: nat,
    command_weight: u64,
    traders: u64,
) -> Seq<WorldVenue> {
    Seq::new(
        venue_count,
        |i: int| tier_venue(tier, i as nat, symbols_per_venue, command_weight, traders),
    )
}

/// The symbols of the venue with number `index` in a tier.
fn make_symbols(tier: &str, index: usize, count: usize) -> (symbols: Vec<String>)
    ensures
        text::texts(symbols@) == symbols_of(tier@, index as nat, count as nat),
{
    let mut symbols: Vec<String> = Vec::new();
    let mut k: usize = 0;
    while k < count
        invariant
            k <= count,
            symbols@.len() == k,
            forall|j: int|
                0 <= j < k ==> (#[trigger] symbols@[j])@ == prefix_text(tier@) + text::padded(
                    index as nat,
                    2,
                ) + text::padded(j as nat, 4),
        decreases count - k,
    {
        let mut symbol = tier_symbol_prefix(tier).to_owned();
        text::append_padded(&mut symbol, index as u128, 2);
        text::append_padded(&mut symbol, k as u128, 4);
        symbols.push(symbol);
        k = k + 1;
    }
    assert(text::texts(symbols@) =~= symbols_of(tier@, index as nat, count as nat));
    symbols
}

/// All that the traders of a venue are credited with, over all assets.
pub open spec fn world_credit(traders: u64, symbols: nat) -> nat {
    at_least_one(traders) as nat * (1_000_000_000_000 + symbols * 1_000_000_000)
}

/// What the traders of a venue are credited with fits a `u128`.
pub proof fn lemma_world_credit_fits(traders: u64, symbols: nat)
    requires
        symbols <= u32::MAX,
    ensures
        world_credit(traders, symbols) <= u128::MAX,
{
    let count = at_least_one(traders) as nat;
    assert(count * (1_000_000_000_000 + symbols * 1_000_000_000) <= 0xffff_ffff_ffff_ffff * (1_000_000_000_000
        + 0xffff_ffff * 1_000_000_000)) by (nonlinear_arith)
        requires
            count <= 0xffff_ffff_ffff_ffff,
            symbols <= 0xffff_ffff,
    ;
}

/// Gives every trader of a venue the starting balances of a world.
pub fn seed_world_accounts(venue: &mut Venue, symbols: &Vec<String>, traders: u64)
    requires
        old(venue).wf(),
        traders < u64::MAX,
        seeding::can_take(old(venue)@, world_credit(traders, symbols@.len())),
    ensures
        final(venue).wf(),
        final(venue)@ == seeding::seeded(
            old(venue)@,
            at_least_one(traders) as nat,
            world_endowment(text::texts(symbols@)),
        ),
{
    seeding::seed_accounts(venue, or_one(traders), "USD", 1_000_000_000_000, symbols, 1_000_000_000);
}

/// Adds the venues of a tier to a world.
pub fn add_venue_tier(
    venues: &mut Vec<VenueRuntime>,
    tier: &str,
    venue_count: usize,
    symbols_per_venue: usize,
    command_weight: u64,
    traders: u64,
)
    requires
        world_wf(old(venues)@),
        symbols_per_venue <= u32::MAX,
        traders < u64::MAX,
    ensures
        world_wf(final(venues)@),
        world_views(final(venues)@) == world_views(old(venues)@) + tier_venues(
            tier@,
            venue_count as nat,
            symbols_per_venue as nat,
            command_weight,
            traders,
        ),
{
    let ghost before = world_views(venues@);
    let ghost all = tier_venues(
        tier@,
        venue_count as nat,
        symbols_per_venue as nat,
        command_weight,
        traders,
    );
    let mut index: usize = 0;
    assert(world_views(venues@) =~= before + all.take(0));
    while index < venue_count
        invariant
            index <= venue_count,
            symbols_per_venue <= u32::MAX,
            traders < u64::MAX,
            world_wf(venues@),
            all == tier_venues(
                tier@,
                venue_count as nat,
                symbols_per_venue as nat,
                command_weight,
                traders,
            ),
            world_views(venues@) == before + all.take(index as int),
        decreases venue_count - index,
    {
        let mut name = tier.to_owned();
        name.append("-");
        text::append_padded(&mut name, index as u128, 2);
        let symbols = make_symbols(tier, index, symbols_per_venue);
        assert(text::texts(symbols@).len() == symbols_per_venue);
        let config = VenueConfig::star(name.as_str(), "USD", &symbols);
        let ghost view = config@;
        let mut venue = Venue::new(config);
        proof {
            lemma_world_credit_fits(traders, symbols_per_venue as nat);
            seeding::lemma_fresh_can_take(view, world_credit(traders, symbols_per_venue as nat));
        }
        seed_world_accounts(&mut venue, &symbols, traders);
        let ghost now = venues@;
        venues.push(
            VenueRuntime {
                venue,
                instrument_count: symbols_per_venue as u32,
                command_weight,
                next_order_id: 1,
            },
        );
        proof {
            assert forall|i: int| 0 <= i < venues@.len() implies (#[trigger] venues@[i]).venue.wf() by {
                if i < now.len() {
                    assert(venues@[i] == now[i]);
                }
            }
            assert(venues@.last()@ == all[index as int]);
            assert(world_views(venues@) =~= world_views(now).push(all[index as int]));
            assert(all.take(index + 1) =~= all.take(index as int).push(all[index as int]));
            assert(world_views(venues@) =~= before + all.take(index + 1));
        }
        index = index + 1;
    }
    assert(all.take(venue_count as int) =~= all);
}

/// The venues of the global world, tier by tier.
pub open spec fn global_world(traders: u64) -> Seq<WorldVenue> {
    tier_venues("equity-global"@, 4, 500, 900, traders) + tier_venues(
        "equity-regional"@,
        16,
        120,
        180,
        traders,
    ) + tier_venues("equity-local"@, 32, 25, 35, traders) + tier_venues(
        "crypto-major"@,
        12,
        350,
        260,
        traders,
    ) + tier_venues("crypto-tail"@, 32, 40, 25, traders)
}

/// The global world: a few large venues, more regional ones, and two long tails.
pub fn global_lob_world(traders: u64) -> (venues: Vec<VenueRuntime>)
    requires
        traders < u64::MAX,
    ensures
        world_wf(venues@),
        world_views(venues@) == global_world(traders),
{
    let mut venues: Vec<VenueRuntime> = Vec::new();
    let ghost start = world_views(venues@);
    add_venue_tier(&mut venues, "equity-global", 4, 500, 900, traders);
    assert(start + tier_venues("equity-global"@, 4, 500, 900, traders) =~= tier_venues(
        "equity-global"@,
        4,
        500,
        900,
        traders,
    ));
    add_venue_tier(&mut venues, "equity-regional", 16, 120, 180, traders);
    add_venue_tier(&mut venues, "equity-local", 32, 25, 35, traders);
    add_venue_tier(&mut venues, "crypto-major", 12, 350, 260, traders);
    add_venue_tier(&mut venues, "crypto-tail", 32, 40, 25, traders);
    venues
}

/// How many instruments each venue has.
pub open spec fn counts_of(venues: Seq<WorldVenue>) -> Seq<u32> {
    Seq::new(venues.len(), |i: int| venues[i].instrument_count)
}

/// How many instruments each venue has.
pub fn instrument_counts(venues: &Vec<VenueRuntime>) -> (counts: Vec<u32>)
    ensures
        counts@ == counts_of(world_views(venues@)),
{
    let n: usize = venues.len();
    let mut counts: Vec<u32> = Vec::new();
    let mut i: usize = 0;
    while i < n
        invariant
            i <= n,
            n == venues@.len(),
            counts@.len() == i,
            forall|j: int| 0 <= j < i ==> #[trigger] counts@[j] == venues@[j].instrument_count,
        decreases n - i,
    {
        counts.push(venues[i].instrument_count);
        i = i + 1;
    }
    assert(counts@ =~= counts_of(world_views(venues@)));
    counts
}

/// The weights of the first `n` venues together.
pub open spec fn weight_below(venues: Seq<WorldVenue>, n: nat) -> nat
    decreases n,
{
    if n == 0 {
        0
    } else {
        weight_below(venues, (n - 1) as nat) + venues[n - 1].command_weight as nat
    }
}

/// The venue that a draw falls on, from number `i` on: the first whose weight exceeds what is left
/// of the draw, and the last one where there is none.
pub open spec fn fallen_on(venues: Seq<WorldVenue>, i: nat, draw: nat) -> nat
    decreases venues.len() - i,
{
    if i >= venues.len() {
        if venues.len() == 0 {
            0
        } else {
            (venues.len() - 1) as nat
        }
    } else if draw < venues[i as int].command_weight {
        i
    } else {
        fallen_on(venues, i + 1, (draw - venues[i as int].command_weight) as nat)
    }
}

/// Draws a venue; the more weight it has, the more often.
pub fn weighted_venue_index(rng: &mut DeterministicRng, venues: &Vec<VenueRuntime>, total_weight: u64) -> (index:
    usize)
    ensures
        final(rng).state() == DeterministicRng::next_state(old(rng).state()),
        index == fallen_on(
            world_views(venues@),
            0,
            (final(rng).state() % at_least_one(total_weight)) as nat,
        ),
        venues@.len() > 0 ==> index < venues@.len(),
{
    let ghost all = world_views(venues@);
    let mut draw: u64 = rng.next_u64(or_one(total_weight));
    let ghost first = draw as nat;
    let n: usize = venues.len();
    let mut i: usize = 0;
    while i < n
        invariant
            i <= n,
            n == venues@.len(),
            all == world_views(venues@),
            fallen_on(all, 0, first) == fallen_on(all, i as nat, draw as nat),
            rng.state() == DeterministicRng::next_state(old(rng).state()),
            first == rng.state() % at_least_one(total_weight),
        decreases n - i,
    {
        assert(all[i as int] == venues@[i as int]@);
        if draw < venues[i].command_weight {
            return i;
        }
        draw = draw - venues[i].command_weight;
        i = i + 1;
    }
    if n == 0 {
        0
    } else {
        n - 1
    }
}

/// A draw below the total weight falls on a venue if it lies in the stretch that the venue's weight
/// takes up, so that of all draws each venue gets as many as it has weight.
pub proof fn law_draws_fall_by_weight(venues: Seq<WorldVenue>, draw: nat, index: nat)
    requires
        index < venues.len(),
        weight_below(venues, index) <= draw < weight_below(venues, index + 1),
    ensures
        fallen_on(venues, 0, draw) == index,
{
    lemma_fallen_on(venues, 0, draw, index);
}

proof fn lemma_fallen_on(venues: Seq<WorldVenue>, i: nat, draw: nat, index: nat)
    requires
        i <= index < venues.len(),
        weight_below(venues, index) <= draw + weight_below(venues, i) < weight_below(venues, index + 1),
    ensures
        fallen_on(venues, i, draw) == index,
    decreases index - i,
{
    if i < index {
        lemma_weight_grows(venues, i + 1, index);
        assert(weight_below(venues, i + 1) == weight_below(venues, i) + venues[i as int].command_weight as nat);
        lemma_fallen_on(venues, i + 1, (draw - venues[i as int].command_weight) as nat, index);
    }
}

/// More venues have no less weight.
pub proof fn lemma_weight_grows(venues: Seq<WorldVenue>, i: nat, j: nat)
    requires
        i <= j,
    ensures
        weight_below(venues, i) <= weight_below(venues, j),
    decreases j - i,
{
    if i < j {
        lemma_weight_grows(venues, i, (j - 1) as nat);
    }
}

/// The global world has 96 venues and 10,200 instruments.
pub proof fn law_global_world_size(traders: u64)
    ensures
        global_world(traders).len() == 96,
        sim_feed::edge_count(counts_of(global_world(traders)), 96) == 10_200,
{
    let a = tier_venues("equity-global"@, 4, 500, 900, traders);
    let b = tier_venues("equity-regional"@, 16, 120, 180, traders);
    let c = tier_venues("equity-local"@, 32, 25, 35, traders);
    let d = tier_venues("crypto-major"@, 12, 350, 260, traders);
    let e = tier_venues("crypto-tail"@, 32, 40, 25, traders);
    let counts = counts_of(global_world(traders));
    assert(global_world(traders) == a + b + c + d + e);
    lemma_same_counts(counts, 0, 4, 500);
    lemma_same_counts(counts, 4, 20, 120);
    lemma_same_counts(counts, 20, 52, 25);
    lemma_same_counts(counts, 52, 64, 350);
    lemma_same_counts(counts, 64, 96, 40);
}

proof fn lemma_same_counts(counts: Seq<u32>, i: nat, j: nat, each: nat)
    requires
        i <= j <= counts.len(),
        forall|k: int| i <= k < j ==> #[trigger] counts[k] == each,
    ensures
        sim_feed::edge_count(counts, j) == sim_feed::edge_count(counts, i) + (j - i) * each,
    decreases j - i,
{
    if i < j {
        lemma_same_counts(counts, i, (j - 1) as nat, each);
        assert(counts[j - 1] == each);
        assert((j - i) * each == (j - 1 - i) * each + each) by (nonlinear_arith);
    } else {
        assert((j - i) * each == 0) by (nonlinear_arith)
            requires
                j == i,
        ;
    }
}

/// The venues of the global world have a weight of 11,520 together.
pub proof fn law_global_world_weight(traders: u64)
    ensures
        weight_below(global_world(traders), global_world(traders).len()) == 11_520,
{
    let a = tier_venues("equity-global"@, 4, 500, 900, traders);
    let b = tier_venues("equity-regional"@, 16, 120, 180, traders);
    let c = tier_venues("equity-local"@, 32, 25, 35, traders);
    let d = tier_venues("crypto-major"@, 12, 350, 260, traders);
    let e = tier_venues("crypto-tail"@, 32, 40, 25, traders);
    let world = global_world(traders);
    assert(world == a + b + c + d + e);
    lemma_same_weights(world, 0, 4, 900);
    lemma_same_weights(world, 4, 20, 180);
    lemma_same_weights(world, 20, 52, 35);
    lemma_same_weights(world, 52, 64, 260);
    lemma_same_weights(world, 64, 96, 25);
}

proof fn lemma_same_weights(venues: Seq<WorldVenue>, i: nat, j: nat, each: nat)
    requires
        i <= j <= venues.len(),
        forall|k: int| i <= k < j ==> (#[trigger] venues[k]).command_weight == each,
    ensures
        weight_below(venues, j) == weight_below(venues, i) + (j - i) * each,
    decreases j - i,
{
    if i < j {
        lemma_same_weights(venues, i, (j - 1) as nat, each);
        assert(venues[j - 1].command_weight == each);
        assert((j - i) * each == (j - 1 - i) * each + each) by (nonlinear_arith);
    } else {
        assert((j - i) * each == 0) by (nonlinear_arith)
            requires
                j == i,
        ;
    }
}

} // verus!
