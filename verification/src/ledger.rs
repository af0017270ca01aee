//! Balances per account and asset, and what the exchange earned in each asset.
use std::collections::BTreeMap;

use vstd::hash_map::StringHashMap;
use vstd::prelude::*;

use crate::types::AccountId;

verus! {

/// What an account holds of one asset: what it may use, and what its orders have set aside.
#[derive(Debug, Clone, Copy)]
pub struct Funds {
    pub available: u128,
    pub reserved: u128,
}

impl Funds {
    pub open spec fn nothing() -> Funds {
        Funds { available: 0, reserved: 0 }
    }

    pub open spec fn sum(self) -> nat {
        (self.available + self.reserved) as nat
    }
}

/// Everything that a finite number of accounts hold together.
pub open spec fn holdings(accounts: Map<AccountId, Funds>) -> nat
    decreases accounts.dom().len(),
{
    if accounts.dom().finite() && accounts.dom().len() > 0 {
        let account = accounts.dom().choose();
        accounts[account].sum() + holdings(accounts.remove(account))
    } else {
        0
    }
}

/// One asset: who holds how much of it, and what the exchange earned in it.
pub struct AssetView {
    pub accounts: Map<AccountId, Funds>,
    pub revenue: nat,
}

impl AssetView {
    pub open spec fn empty() -> AssetView {
        AssetView { accounts: Map::empty(), revenue: 0 }
    }

    pub open spec fn funds(self, account: AccountId) -> Funds {
        if self.accounts.contains_key(account) {
            self.accounts[account]
        } else {
            Funds::nothing()
        }
    }

    pub open spec fn with_funds(self, account: AccountId, funds: Funds) -> AssetView {
        AssetView { accounts: self.accounts.insert(account, funds), ..self }
    }

    /// All that there is of the asset, in accounts and in the exchange's own revenue.
    pub open spec fn supply(self) -> nat {
        self.revenue + holdings(self.accounts)
    }
}

/// The balances of every account in every asset. An asset that nobody was ever credited with is
/// there too, and empty.
pub struct LedgerView {
    pub assets: Map<Seq<char>, AssetView>,
}

impl LedgerView {
    pub open spec fn empty() -> LedgerView {
        LedgerView { assets: Map::new(|asset: Seq<char>| true, |asset: Seq<char>| AssetView::empty()) }
    }

    pub open spec fn funds(self, account: AccountId, asset: Seq<char>) -> Funds {
        self.assets[asset].funds(account)
    }

    pub open spec fn available(self, account: AccountId, asset: Seq<char>) -> nat {
        self.funds(account, asset).available as nat
    }

    pub open spec fn reserved(self, account: AccountId, asset: Seq<char>) -> nat {
        self.funds(account, asset).reserved as nat
    }

    pub open spec fn revenue(self, asset: Seq<char>) -> nat {
        self.assets[asset].revenue
    }

    pub open spec fn supply(self, asset: Seq<char>) -> nat {
        self.assets[asset].supply()
    }

    pub open spec fn with_funds(self, account: AccountId, asset: Seq<char>, funds: Funds) -> LedgerView {
        LedgerView { assets: self.assets.insert(asset, self.assets[asset].with_funds(account, funds)) }
    }

    /// After `amount` came into an account.
    pub open spec fn deposited(self, account: AccountId, asset: Seq<char>, amount: nat) -> LedgerView {
        let funds = self.funds(account, asset);
        self.with_funds(account, asset, Funds { available: (funds.available + amount) as u128, ..funds })
    }

    /// After `amount` was set aside for an order.
    pub open spec fn set_aside(self, account: AccountId, asset: Seq<char>, amount: nat) -> LedgerView {
        let funds = self.funds(account, asset);
        self.with_funds(
            account,
            asset,
            Funds {
                available: (funds.available - amount) as u128,
                reserved: (funds.reserved + amount) as u128,
            },
        )
    }

    /// After `amount` that was set aside became available again.
    pub open spec fn released(self, account: AccountId, asset: Seq<char>, amount: nat) -> LedgerView {
        let funds = self.funds(account, asset);
        self.with_funds(
            account,
            asset,
            Funds {
                available: (funds.available + amount) as u128,
                reserved: (funds.reserved - amount) as u128,
            },
        )
    }

    /// After `amount` that was set aside left the account.
    pub open spec fn spent(self, account: AccountId, asset: Seq<char>, amount: nat) -> LedgerView {
        let funds = self.funds(account, asset);
        self.with_funds(account, asset, Funds { reserved: (funds.reserved - amount) as u128, ..funds })
    }

    /// After the exchange earned `amount`.
    pub open spec fn earned(self, asset: Seq<char>, amount: nat) -> LedgerView {
        let sheet = self.assets[asset];
        LedgerView {
            assets: self.assets.insert(asset, AssetView { revenue: sheet.revenue + amount, ..sheet }),
        }
    }

    /// Every asset is there, and held by finitely many accounts.
    pub open spec fn complete(self) -> bool {
        forall|asset: Seq<char>| #[trigger]
            self.assets.contains_key(asset) && self.assets[asset].accounts.dom().finite()
    }
}

proof fn lemma_holdings_remove(accounts: Map<AccountId, Funds>, account: AccountId)
    requires
        accounts.dom().finite(),
        accounts.contains_key(account),
    ensures
        holdings(accounts) == accounts[account].sum() + holdings(accounts.remove(account)),
    decreases accounts.dom().len(),
{
    assert(accounts.dom().len() > 0) by {
        if accounts.dom().len() == 0 {
            assert(accounts.dom() =~= Set::empty());
        }
    }
    let first = accounts.dom().choose();
    if first != account {
        let rest = accounts.remove(first);
        lemma_holdings_remove(rest, account);
        assert(rest.remove(account) =~= accounts.remove(account).remove(first));
        lemma_holdings_remove(accounts.remove(account), first);
    }
}

/// Replacing the funds of one account changes the sum by the difference.
pub proof fn lemma_holdings_insert(accounts: Map<AccountId, Funds>, account: AccountId, funds: Funds)
    requires
        accounts.dom().finite(),
    ensures
        holdings(accounts.insert(account, funds)) + (if accounts.contains_key(account) {
            accounts[account].sum()
        } else {
            0
        }) == holdings(accounts) + funds.sum(),
        accounts.contains_key(account) ==> accounts[account].sum() <= holdings(accounts),
{
    let after = accounts.insert(account, funds);
    lemma_holdings_remove(after, account);
    if accounts.contains_key(account) {
        lemma_holdings_remove(accounts, account);
        assert(after.remove(account) =~= accounts.remove(account));
    } else {
        assert(after.remove(account) =~= accounts);
    }
}

/// The books of one asset. `supply` is kept up to date with all that the asset amounts to.
struct AssetSheet {
    accounts: BTreeMap<AccountId, Funds>,
    revenue: u128,
    supply: u128,
}

impl View for AssetSheet {
    type V = AssetView;

    closed spec fn view(&self) -> AssetView {
        AssetView { accounts: self.accounts@, revenue: self.revenue as nat }
    }
}

impl AssetSheet {
    spec fn wf(self) -> bool {
        self.supply == self@.supply()
    }

    fn new() -> (sheet: Self)
        ensures
            sheet.wf(),
            sheet@ == AssetView::empty(),
    {
        AssetSheet { accounts: BTreeMap::new(), revenue: 0, supply: 0 }
    }

    fn funds(&self, account: AccountId) -> (funds: Funds)
        ensures
            funds == self@.funds(account),
    {
        broadcast use vstd::std_specs::btree::group_btree_axioms;
        match self.accounts.get(&account) {
            Some(funds) => *funds,
            None => Funds { available: 0, reserved: 0 },
        }
    }

    /// Replaces the funds of an account by `funds`, and the supply accordingly.
    fn put(&mut self, account: AccountId, funds: Funds)
        requires
            old(self).wf(),
            old(self)@.supply() + funds.sum() <= u128::MAX + old(self)@.funds(account).sum(),
        ensures
            final(self).wf(),
            final(self)@ == old(self)@.with_funds(account, funds),
            final(self)@.supply() + old(self)@.funds(account).sum() == old(self)@.supply() + funds.sum(),
    {
        broadcast use vstd::std_specs::btree::group_btree_axioms;
        let before = self.funds(account);
        proof {
            lemma_holdings_insert(self.accounts@, account, funds);
        }
        self.supply = self.supply - before.available - before.reserved + funds.available + funds.reserved;
        self.accounts.insert(account, funds);
    }

    fn earn(&mut self, amount: u128)
        requires
            old(self).wf(),
            old(self)@.supply() + amount <= u128::MAX,
        ensures
            final(self).wf(),
            final(self)@ == (AssetView { revenue: old(self)@.revenue + amount as nat, ..old(self)@ }),
    {
        self.revenue = self.revenue + amount;
        self.supply = self.supply + amount;
    }
}

/// The balances of every account, and the revenue of the exchange, in every asset.
pub struct Ledger {
    index: StringHashMap<usize>,
    sheets: Vec<AssetSheet>,
}

impl View for Ledger {
    type V = LedgerView;

    closed spec fn view(&self) -> LedgerView {
        LedgerView {
            assets: Map::new(
                |asset: Seq<char>| true,
                |asset: Seq<char>|
                    if self.index@.contains_key(asset) {
                        self.sheets@[self.index@[asset] as int]@
                    } else {
                        AssetView::empty()
                    },
            ),
        }
    }
}

impl Ledger {
    /// Every asset has a sheet of its own, and no asset amounts to more than a `u128` can hold.
    pub closed spec fn wf(self) -> bool {
        &&& forall|asset: Seq<char>| #[trigger]
            self.index@.contains_key(asset) ==> self.index@[asset] < self.sheets@.len()
        &&& forall|a: Seq<char>, b: Seq<char>| #[trigger]
            self.index@.contains_key(a) && #[trigger] self.index@.contains_key(b) && a != b
                ==> self.index@[a] != self.index@[b]
        &&& forall|i: int| 0 <= i < self.sheets@.len() ==> (#[trigger] self.sheets@[i]).wf()
    }

    /// In a well-formed ledger no asset amounts to more than a `u128` can hold, and no account to
    /// more than the asset.
    pub proof fn lemma_bounds(self, account: AccountId, asset: Seq<char>)
        requires
            self.wf(),
        ensures
            self@.complete(),
            self@.supply(asset) <= u128::MAX,
            self@.funds(account, asset).sum() + self@.revenue(asset) <= self@.supply(asset),
    {
        broadcast use vstd::std_specs::btree::group_btree_axioms;

        assert forall|a: Seq<char>| #[trigger]
            self@.assets.contains_key(a) && self@.assets[a].accounts.dom().finite() by {
            if self.index@.contains_key(a) {
            } else {
                assert(self@.assets[a].accounts =~= Map::empty());
            }
        }
        if self.index@.contains_key(asset) {
            assert(self.sheets@[self.index@[asset] as int].wf());
        } else {
            assert(self@.assets[asset] == AssetView::empty());
            assert(holdings(Map::empty()) == 0);
        }
        lemma_holdings_insert(self@.assets[asset].accounts, account, Funds::nothing());
    }

    pub fn new() -> (ledger: Self)
        ensures
            ledger.wf(),
            ledger@ == LedgerView::empty(),
    {
        let ledger = Ledger { index: StringHashMap::new(), sheets: Vec::new() };
        assert(ledger@.assets =~= LedgerView::empty().assets);
        ledger
    }

    pub fn funds(&self, account: AccountId, asset: &str) -> (funds: Funds)
        requires
            self.wf(),
        ensures
            funds == self@.funds(account, asset@),
    {
        match self.index.get(asset) {
            Some(i) => self.sheets[*i].funds(account),
            None => Funds { available: 0, reserved: 0 },
        }
    }

    /// What an account may use of an asset.
    pub fn available(&self, account: AccountId, asset: &str) -> (amount: u128)
        requires
            self.wf(),
        ensures
            amount == self@.available(account, asset@),
    {
        self.funds(account, asset).available
    }

    /// What the orders of an account have set aside of an asset.
    pub fn reserved(&self, account: AccountId, asset: &str) -> (amount: u128)
        requires
            self.wf(),
        ensures
            amount == self@.reserved(account, asset@),
    {
        self.funds(account, asset).reserved
    }

    /// What the exchange earned in an asset.
    pub fn revenue(&self, asset: &str) -> (amount: u128)
        requires
            self.wf(),
        ensures
            amount == self@.revenue(asset@),
    {
        match self.index.get(asset) {
            Some(i) => self.sheets[*i].revenue,
            None => 0,
        }
    }

    /// All that there is of an asset.
    pub fn supply(&self, asset: &str) -> (amount: u128)
        requires
            self.wf(),
        ensures
            amount == self@.supply(asset@),
    {
        assert(holdings(Map::empty()) == 0);
        match self.index.get(asset) {
            Some(i) => self.sheets[*i].supply,
            None => 0,
        }
    }

    /// The place of the sheet of an asset, which is laid out where there was none.
    fn place(&mut self, asset: &str) -> (i: usize)
        requires
            old(self).wf(),
        ensures
            final(self).wf(),
            final(self)@ == old(self)@,
            final(self).index@.contains_key(asset@),
            final(self).index@[asset@] == i,
            i < final(self).sheets@.len(),
            final(self).sheets@[i as int]@ == old(self)@.assets[asset@],
    {
        if let Some(i) = self.index.get(asset) {
            return *i;
        }
        let ghost before = *self;
        let i: usize = self.sheets.len();
        self.index.insert(asset.to_owned(), i);
        self.sheets.push(AssetSheet::new());
        proof {
            assert forall|a: Seq<char>| #[trigger] self.index@.contains_key(a) implies self.index@[a]
                < self.sheets@.len() by {
                if a != asset@ {
                    assert(before.index@.contains_key(a));
                }
            }
            assert forall|a: Seq<char>, b: Seq<char>| #[trigger]
                self.index@.contains_key(a) && #[trigger] self.index@.contains_key(b) && a
                    != b implies self.index@[a] != self.index@[b] by {
                if a != asset@ {
                    assert(before.index@.contains_key(a));
                }
                if b != asset@ {
                    assert(before.index@.contains_key(b));
                }
            }
            assert(self@.assets =~= before@.assets) by {
                assert forall|a: Seq<char>| #[trigger] self@.assets[a] == before@.assets[a] by {
                    if before.index@.contains_key(a) {
                        assert(self.index@.contains_key(a));
                    }
                }
            }
        }
        i
    }

    /// The ledger after the sheet of one asset was replaced.
    proof fn lemma_replaced(before: Self, after: Self, asset: Seq<char>, i: int)
        requires
            before.wf(),
            before.index@.contains_key(asset),
            before.index@[asset] == i,
            0 <= i < before.sheets@.len(),
            after.index == before.index,
            after.sheets@ == before.sheets@.update(i, after.sheets@[i]),
            after.sheets@[i].wf(),
        ensures
            after.wf(),
            after@ == (LedgerView { assets: before@.assets.insert(asset, after.sheets@[i]@) }),
    {
        assert(after@.assets =~= before@.assets.insert(asset, after.sheets@[i]@)) by {
            assert forall|a: Seq<char>| a != asset implies #[trigger] after@.assets[a]
                == before@.assets[a] by {
                if before.index@.contains_key(a) {
                    assert(before.index@[a] != i);
                }
            }
        }
    }

    /// Replaces the funds of an account in an asset.
    fn put(&mut self, account: AccountId, asset: &str, funds: Funds)
        requires
            old(self).wf(),
            old(self)@.supply(asset@) + funds.sum() <= u128::MAX + old(self)@.funds(account, asset@).sum(),
        ensures
            final(self).wf(),
            final(self)@ == old(self)@.with_funds(account, asset@, funds),
    {
        let i: usize = self.place(asset);
        let ghost placed = *self;
        self.sheets[i].put(account, funds);
        proof {
            Self::lemma_replaced(placed, *self, asset@, i as int);
        }
    }

    /// Adds `amount` to what an account may use.
    pub fn deposit(&mut self, account: AccountId, asset: &str, amount: u128)
        requires
            old(self).wf(),
            old(self)@.supply(asset@) + amount <= u128::MAX,
        ensures
            final(self).wf(),
            final(self)@ == old(self)@.deposited(account, asset@, amount as nat),
    {
        let funds = self.funds(account, asset);
        proof {
            self.lemma_bounds(account, asset@);
        }
        self.put(account, asset, Funds { available: funds.available + amount, ..funds });
    }

    /// Sets `amount` aside for an order.
    pub fn set_aside(&mut self, account: AccountId, asset: &str, amount: u128)
        requires
            old(self).wf(),
            old(self)@.available(account, asset@) >= amount,
        ensures
            final(self).wf(),
            final(self)@ == old(self)@.set_aside(account, asset@, amount as nat),
    {
        let funds = self.funds(account, asset);
        proof {
            self.lemma_bounds(account, asset@);
        }
        self.put(
            account,
            asset,
            Funds { available: funds.available - amount, reserved: funds.reserved + amount },
        );
    }

    /// Makes `amount` that was set aside available again.
    pub fn release(&mut self, account: AccountId, asset: &str, amount: u128)
        requires
            old(self).wf(),
            old(self)@.reserved(account, asset@) >= amount,
        ensures
            final(self).wf(),
            final(self)@ == old(self)@.released(account, asset@, amount as nat),
    {
        let funds = self.funds(account, asset);
        proof {
            self.lemma_bounds(account, asset@);
        }
        self.put(
            account,
            asset,
            Funds { available: funds.available + amount, reserved: funds.reserved - amount },
        );
    }

    /// Takes `amount` that was set aside out of the account.
    pub fn spend(&mut self, account: AccountId, asset: &str, amount: u128)
        requires
            old(self).wf(),
            old(self)@.reserved(account, asset@) >= amount,
        ensures
            final(self).wf(),
            final(self)@ == old(self)@.spent(account, asset@, amount as nat),
    {
        let funds = self.funds(account, asset);
        proof {
            self.lemma_bounds(account, asset@);
        }
        self.put(account, asset, Funds { reserved: funds.reserved - amount, ..funds });
    }

    /// Adds `amount` to what the exchange earned.
    pub fn earn(&mut self, asset: &str, amount: u128)
        requires
            old(self).wf(),
            old(self)@.supply(asset@) + amount <= u128::MAX,
        ensures
            final(self).wf(),
            final(self)@ == old(self)@.earned(asset@, amount as nat),
    {
        let i: usize = self.place(asset);
        let ghost placed = *self;
        self.sheets[i].earn(amount);
        proof {
            Self::lemma_replaced(placed, *self, asset@, i as int);
        }
    }
}

} // verus!
