//! Accounts with starting balances, and the demonstration venue.
use vstd::prelude::*;

use crate::instrument::{ConfigView, VenueConfig};
use crate::text;
use crate::types::AccountId;
use crate::venue::Venue;
use crate::venue_laws;
use crate::venue_model::VenueView;

verus! {

/// The venue after `account` was credited with `amount` of each of `assets`.
pub open spec fn credited_each(
    venue: VenueView,
    account: AccountId,
    assets: Seq<Seq<char>>,
    amount: nat,
) -> VenueView
    decreases assets.len(),
{
    if assets.len() == 0 {
        venue
    } else {
        credited_each(venue, account, assets.drop_last(), amount).credited(account, assets.last(), amount)
    }
}

/// What every seeded account starts with.
pub struct Endowment {
    pub quote: Seq<char>,
    pub quote_amount: nat,
    pub bases: Seq<Seq<char>>,
    pub base_amount: nat,
}

impl Endowment {
    /// All that one account is credited with, over all assets.
    pub open spec fn sum(self) -> nat {
        self.quote_amount + self.bases.len() * self.base_amount
    }
}

/// The venue after the accounts from 1 to `count` were credited with their endowment.
pub open spec fn seeded(venue: VenueView, count: nat, endowment: Endowment) -> VenueView
    decreases count,
{
    if count == 0 {
        venue
    } else {
        let account = count as u64;
        let before = seeded(venue, (count - 1) as nat, endowment);
        credited_each(
            before.credited(account, endowment.quote, endowment.quote_amount),
            account,
            endowment.bases,
            endowment.base_amount,
        )
    }
}

/// Whether every asset can take `amount` more.
pub open spec fn can_take(venue: VenueView, amount: nat) -> bool {
    forall|asset: Seq<char>| #[trigger] venue.ledger.supply(asset) + amount <= u128::MAX
}

/// A venue that can take an amount can take what is left of it after a part was credited.
proof fn lemma_can_take_credited(
    venue: VenueView,
    account: AccountId,
    asset: Seq<char>,
    amount: nat,
    rest: nat,
)
    requires
        venue.valid(),
        can_take(venue, amount + rest),
    ensures
        can_take(venue.credited(account, asset, amount), rest),
{
    assert(venue.ledger.supply(asset) + (amount + rest) <= u128::MAX);
    venue_laws::law_credit_adds_its_amount(venue, account, asset, amount);
    let after = venue.credited(account, asset, amount);
    assert forall|a: Seq<char>| #[trigger] after.ledger.supply(a) + rest <= u128::MAX by {
        assert(venue.ledger.supply(a) + (amount + rest) <= u128::MAX);
    }
}

/// Credits an account with `amount` of each of `assets`.
fn credit_each(venue: &mut Venue, account_id: AccountId, assets: &Vec<String>, amount: u128, Ghost(rest): Ghost<nat>)
    requires
        old(venue).wf(),
        can_take(old(venue)@, assets@.len() * (amount as nat) + rest),
    ensures
        final(venue).wf(),
        final(venue)@ == credited_each(old(venue)@, account_id, text::texts(assets@), amount as nat),
        can_take(final(venue)@, rest),
{
    let ghost before = venue@;
    let ghost all = text::texts(assets@);
    let n: usize = assets.len();
    let mut i: usize = 0;
    assert(all.take(0) =~= seq![]);
    while i < n
        invariant
            i <= n,
            n == assets@.len(),
            all == text::texts(assets@),
            venue.wf(),
            venue@ == credited_each(before, account_id, all.take(i as int), amount as nat),
            can_take(venue@, ((n - i) * amount + rest) as nat),
        decreases n - i,
    {
        let ghost left = ((n - i - 1) * amount + rest) as nat;
        proof {
            assert((n - i) * amount == (n - i - 1) * amount + amount) by (nonlinear_arith);
            assert((n - i - 1) * amount >= 0) by (nonlinear_arith)
                requires
                    i < n,
            ;
            assert(all.take(i + 1).drop_last() =~= all.take(i as int));
            assert(all.take(i + 1).last() == assets@[i as int]@);
            venue.lemma_wf_valid();
            lemma_can_take_credited(venue@, account_id, assets@[i as int]@, amount as nat, left);
            assert(venue@.ledger.supply(assets@[i as int]@) + (amount + left) <= u128::MAX);
        }
        venue.credit(account_id, assets[i].as_str(), amount);
        i = i + 1;
    }
    assert(all.take(n as int) =~= all);
    assert((n - n) * amount == 0) by (nonlinear_arith);
}

/// Credits the accounts from 1 to `count` with an amount of the quote asset and an amount of every
/// base asset.
pub fn seed_accounts(
    venue: &mut Venue,
    count: u64,
    quote: &str,
    quote_amount: u128,
    bases: &Vec<String>,
    base_amount: u128,
)
    requires
        old(venue).wf(),
        count < u64::MAX,
        can_take(old(venue)@, count as nat * (quote_amount as nat + bases@.len() * base_amount as nat)),
    ensures
        final(venue).wf(),
        final(venue)@ == seeded(
            old(venue)@,
            count as nat,
            (Endowment {
                quote: quote@,
                quote_amount: quote_amount as nat,
                bases: text::texts(bases@),
                base_amount: base_amount as nat,
            }),
        ),
{
    let ghost before = venue@;
    let ghost endowment = Endowment {
        quote: quote@,
        quote_amount: quote_amount as nat,
        bases: text::texts(bases@),
        base_amount: base_amount as nat,
    };
    let ghost one = endowment.sum();
    let mut account_id: u64 = 1;
    assert((count as nat - 0) * one == count as nat * one);
    while account_id <= count
        invariant
            1 <= account_id <= count + 1,
            count < u64::MAX,
            endowment == (Endowment {
                quote: quote@,
                quote_amount: quote_amount as nat,
                bases: text::texts(bases@),
                base_amount: base_amount as nat,
            }),
            one == quote_amount + bases@.len() * base_amount,
            venue.wf(),
            venue@ == seeded(before, (account_id - 1) as nat, endowment),
            can_take(venue@, ((count - account_id + 1) * one) as nat),
        decreases count + 1 - account_id,
    {
        let ghost left = ((count - account_id) * one) as nat;
        let ghost each = (bases@.len() * base_amount + left) as nat;
        proof {
            assert((count - account_id + 1) * one == (count - account_id) * one + one) by (nonlinear_arith);
            assert((count - account_id) * one >= 0) by (nonlinear_arith)
                requires
                    account_id <= count,
            ;
            venue.lemma_wf_valid();
            lemma_can_take_credited(venue@, account_id, quote@, quote_amount as nat, each);
            assert(venue@.ledger.supply(quote@) + (quote_amount + each) <= u128::MAX);
        }
        venue.credit(account_id, quote, quote_amount);
        credit_each(venue, account_id, bases, base_amount, Ghost(left));
        account_id = account_id + 1;
    }
}

/// The base assets of the demonstration venue.
pub open spec fn demo_bases() -> Seq<Seq<char>> {
    seq!["AAA"@, "BBB"@, "CCC"@, "DDD"@, "EEE"@, "FFF"@]
}

/// The base assets of the demonstration venue.
pub fn demo_assets() -> (assets: Vec<String>)
    ensures
        text::texts(assets@) == demo_bases(),
{
    let mut assets: Vec<String> = Vec::new();
    assets.push("AAA".to_owned());
    assets.push("BBB".to_owned());
    assets.push("CCC".to_owned());
    assets.push("DDD".to_owned());
    assets.push("EEE".to_owned());
    assets.push("FFF".to_owned());
    assert(text::texts(assets@) =~= demo_bases());
    assets
}

/// The demonstration venue: six assets against one quote asset.
pub open spec fn demo_config() -> ConfigView {
    ConfigView::star("local-equities"@, "USD"@, demo_bases())
}

/// The demonstration venue: six assets against one quote asset.
pub fn default_config() -> (config: VenueConfig)
    ensures
        config@ == demo_config(),
        config@.valid(),
{
    let assets = demo_assets();
    assert(text::texts(assets@).len() == 6);
    VenueConfig::star("local-equities", "USD", &assets)
}

/// What every demonstration account starts with.
pub open spec fn demo_endowment() -> Endowment {
    Endowment {
        quote: "USD"@,
        quote_amount: 1_000_000_000,
        bases: demo_bases(),
        base_amount: 1_000_000,
    }
}

/// Gives a thousand demonstration accounts their starting balances.
pub fn seed_demo_accounts(venue: &mut Venue)
    requires
        old(venue).wf(),
        can_take(old(venue)@, 1_006_000_000_000),
    ensures
        final(venue).wf(),
        final(venue)@ == seeded(old(venue)@, 1_000, demo_endowment()),
{
    let assets = demo_assets();
    assert(text::texts(assets@).len() == 6);
    seed_accounts(venue, 1_000, "USD", 1_000_000_000, &assets, 1_000_000);
}

/// The demonstration venue, with its accounts.
pub fn demo_venue() -> (venue: Venue)
    ensures
        venue.wf(),
        venue@ == seeded(VenueView::fresh(demo_config()), 1_000, demo_endowment()),
{
    let mut venue = Venue::new(default_config());
    proof {
        lemma_fresh_can_take(demo_config(), 1_006_000_000_000);
    }
    seed_demo_accounts(&mut venue);
    venue
}

/// A fresh venue can take any amount that a `u128` can hold.
pub proof fn lemma_fresh_can_take(config: ConfigView, amount: nat)
    requires
        amount <= u128::MAX,
    ensures
        can_take(VenueView::fresh(config), amount),
{
    assert forall|asset: Seq<char>| #[trigger]
        VenueView::fresh(config).ledger.supply(asset) + amount <= u128::MAX by {
        assert(crate::ledger::holdings(Map::empty()) == 0);
    }
}

proof fn lemma_credited_each(
    venue: VenueView,
    account: AccountId,
    assets: Seq<Seq<char>>,
    amount: nat,
    u: AccountId,
    a: Seq<char>,
)
    requires
        assets.no_duplicates(),
        u == account && assets.contains(a) ==> venue.ledger.available(u, a) + amount <= u128::MAX,
    ensures
        credited_each(venue, account, assets, amount).ledger.available(u, a) == venue.ledger.available(u, a)
            + (if u == account && assets.contains(a) {
            amount
        } else {
            0
        }),
    decreases assets.len(),
{
    if assets.len() > 0 {
        let rest = assets.drop_last();
        let last = assets[assets.len() - 1];
        assert(rest.no_duplicates());
        assert(!rest.contains(last)) by {
            if rest.contains(last) {
                let i = choose|i: int| 0 <= i < rest.len() && rest[i] == last;
                assert(assets[i] == assets[assets.len() - 1]);
            }
        }
        assert(assets.contains(last));
        if rest.contains(a) {
            let i = choose|i: int| 0 <= i < rest.len() && rest[i] == a;
            assert(assets[i] == a);
        }
        if assets.contains(a) && a != last {
            let i = choose|i: int| 0 <= i < assets.len() && assets[i] == a;
            assert(rest[i] == a);
        }
        lemma_credited_each(venue, account, rest, amount, u, a);
    }
}

/// On a fresh venue every seeded account has exactly its endowment available, and no other account
/// anything.
pub proof fn law_seeded_accounts_hold_their_endowment(
    config: ConfigView,
    count: nat,
    endowment: Endowment,
    account: AccountId,
    asset: Seq<char>,
)
    requires
        count <= u64::MAX,
        endowment.quote_amount <= u128::MAX,
        endowment.base_amount <= u128::MAX,
        endowment.bases.no_duplicates(),
        !endowment.bases.contains(endowment.quote),
    ensures
        seeded(VenueView::fresh(config), count, endowment).ledger.available(account, asset) == (if 1 <= account
            <= count {
            if asset == endowment.quote {
                endowment.quote_amount
            } else if endowment.bases.contains(asset) {
                endowment.base_amount
            } else {
                0
            }
        } else {
            0
        }),
    decreases count,
{
    if count > 0 {
        let before = seeded(VenueView::fresh(config), (count - 1) as nat, endowment);
        let last = count as u64;
        law_seeded_accounts_hold_their_endowment(config, (count - 1) as nat, endowment, account, asset);
        let paid = before.credited(last, endowment.quote, endowment.quote_amount);
        lemma_credited_each(paid, last, endowment.bases, endowment.base_amount, account, asset);
    }
}

proof fn lemma_credited_each_valid(
    venue: VenueView,
    account: AccountId,
    assets: Seq<Seq<char>>,
    amount: nat,
    rest: nat,
)
    requires
        venue.valid(),
        can_take(venue, assets.len() * amount + rest),
    ensures
        credited_each(venue, account, assets, amount).valid(),
        can_take(credited_each(venue, account, assets, amount), rest),
    decreases assets.len(),
{
    if assets.len() == 0 {
        assert(assets.len() * amount == 0) by (nonlinear_arith)
            requires
                assets.len() == 0,
        ;
    } else {
        let n = assets.len();
        assert(n * amount == (n - 1) * amount + amount) by (nonlinear_arith);
        lemma_credited_each_valid(venue, account, assets.drop_last(), amount, amount + rest);
        let before = credited_each(venue, account, assets.drop_last(), amount);
        assert(before.ledger.supply(assets.last()) + (amount + rest) <= u128::MAX);
        venue_laws::law_credit_adds_its_amount(before, account, assets.last(), amount);
        lemma_can_take_credited(before, account, assets.last(), amount, rest);
    }
}

/// Seeding accounts keeps a venue valid that can take what they are credited with.
pub proof fn law_seeding_keeps_venue_valid(venue: VenueView, count: nat, endowment: Endowment, rest: nat)
    requires
        venue.valid(),
        can_take(venue, count * endowment.sum() + rest),
    ensures
        seeded(venue, count, endowment).valid(),
        can_take(seeded(venue, count, endowment), rest),
    decreases count,
{
    if count == 0 {
        assert(count * endowment.sum() == 0) by (nonlinear_arith)
            requires
                count == 0,
        ;
    } else {
        let one = endowment.sum();
        let each = endowment.bases.len() * endowment.base_amount + rest;
        assert(count * one == (count - 1) * one + one) by (nonlinear_arith);
        law_seeding_keeps_venue_valid(venue, (count - 1) as nat, endowment, one + rest);
        let before = seeded(venue, (count - 1) as nat, endowment);
        let account = count as u64;
        assert(before.ledger.supply(endowment.quote) + (one + rest) <= u128::MAX);
        venue_laws::law_credit_adds_its_amount(
            before,
            account,
            endowment.quote,
            endowment.quote_amount,
        );
        lemma_can_take_credited(before, account, endowment.quote, endowment.quote_amount, each);
        lemma_credited_each_valid(
            before.credited(account, endowment.quote, endowment.quote_amount),
            account,
            endowment.bases,
            endowment.base_amount,
            rest,
        );
    }
}

} // verus!
