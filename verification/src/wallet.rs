//! The account store: per-account wallets holding one unsigned balance per
//! asset symbol, and the store that maps an account identifier to its wallet.
//!
//! A missing entry is equivalent to a balance of zero, balances are never
//! negative, and each symbol (and each owner, in the store) appears at most
//! once.

use vstd::prelude::*;
use vstd::pervasive::VecAdditionalExecFns;

use crate::AccountId;

verus! {

/// One asset's balance inside a wallet.
pub struct BalanceEntry {
    pub symbol: String,
    pub amount: u128,
}

/// A single account's record: its owner and its per-symbol balances.
pub struct Wallet {
    pub owner: AccountId,
    pub balances: Vec<BalanceEntry>,
}

/// Each symbol appears at most once among the entries.
pub open spec fn entries_wf(es: Seq<BalanceEntry>) -> bool {
    forall|i: int, j: int| 0 <= i < j < es.len() ==> es[i].symbol@ != es[j].symbol@
}

/// The balance recorded for `sym`, or zero when no entry holds it.
pub open spec fn entry_bal(es: Seq<BalanceEntry>, sym: Seq<char>) -> u128
    decreases es.len(),
{
    if es.len() == 0 {
        0
    } else if es.last().symbol@ == sym {
        es.last().amount
    } else {
        entry_bal(es.drop_last(), sym)
    }
}

proof fn lemma_entry_bal_found(es: Seq<BalanceEntry>, sym: Seq<char>, i: int)
    requires
        entries_wf(es),
        0 <= i < es.len(),
        es[i].symbol@ == sym,
    ensures
        entry_bal(es, sym) == es[i].amount,
    decreases es.len(),
{
    if i < es.len() - 1 {
        assert(es[i].symbol@ != es[es.len() - 1].symbol@);
        assert(entries_wf(es.drop_last()));
        lemma_entry_bal_found(es.drop_last(), sym, i);
    }
}

proof fn lemma_entry_bal_absent(es: Seq<BalanceEntry>, sym: Seq<char>)
    requires
        forall|k: int| 0 <= k < es.len() ==> es[k].symbol@ != sym,
    ensures
        entry_bal(es, sym) == 0,
    decreases es.len(),
{
    if es.len() > 0 {
        lemma_entry_bal_absent(es.drop_last(), sym);
    }
}

proof fn lemma_entry_bal_update_other(es: Seq<BalanceEntry>, i: int, e2: BalanceEntry, s: Seq<char>)
    requires
        0 <= i < es.len(),
        es[i].symbol@ != s,
        e2.symbol@ != s,
    ensures
        entry_bal(es.update(i, e2), s) == entry_bal(es, s),
    decreases es.len(),
{
    let es2 = es.update(i, e2);
    if i == es.len() - 1 {
        assert(es2.drop_last() =~= es.drop_last());
    } else {
        assert(es2.last() == es.last());
        assert(es2.drop_last() =~= es.drop_last().update(i, e2));
        lemma_entry_bal_update_other(es.drop_last(), i, e2, s);
    }
}

impl Wallet {
    /// No symbol is recorded twice.
    pub open spec fn wf(self) -> bool {
        entries_wf(self.balances@)
    }

    /// The balance this wallet holds for `sym`; zero when absent.
    pub open spec fn bal(self, sym: Seq<char>) -> u128 {
        entry_bal(self.balances@, sym)
    }

    pub fn new(owner: AccountId) -> (w: Wallet)
        ensures
            w.owner == owner,
            w.balances@ == Seq::<BalanceEntry>::empty(),
            w.wf(),
            forall|s: Seq<char>| w.bal(s) == 0,
    {
        let w = Wallet { owner, balances: Vec::new() };
        proof {
            assert(w.balances@ =~= Seq::<BalanceEntry>::empty());
        }
        w
    }

    fn find_entry(&self, token_symbol: &String) -> (r: Option<usize>)
        ensures
            match r {
                Some(i) => i < self.balances@.len()
                    && self.balances@[i as int].symbol@ == token_symbol@,
                None => forall|k: int|
                    0 <= k < self.balances@.len() ==> self.balances@[k].symbol@ != token_symbol@,
            },
    {
        let n = self.balances.len();
        let mut i: usize = 0;
        while i < n
            invariant
                n == self.balances@.len(),
                i <= n,
                forall|k: int| 0 <= k < i ==> self.balances@[k].symbol@ != token_symbol@,
            decreases n - i,
        {
            if self.balances[i].symbol == *token_symbol {
                return Some(i);
            }
            i += 1;
        }
        None
    }

    /// The stored balance for the symbol, or zero when no entry holds it.
    pub fn get_balance(&self, token_symbol: &String) -> (r: u128)
        requires
            self.wf(),
        ensures
            r == self.bal(token_symbol@),
    {
        match self.find_entry(token_symbol) {
            Some(i) => {
                proof {
                    lemma_entry_bal_found(self.balances@, token_symbol@, i as int);
                }
                self.balances[i].amount
            },
            None => {
                proof {
                    lemma_entry_bal_absent(self.balances@, token_symbol@);
                }
                0
            },
        }
    }

    /// Overwrites the stored balance for the symbol, creating the entry when
    /// it is absent; every other symbol's balance is untouched.
    pub fn update_balance(&mut self, token_symbol: &String, amount: u128)
        requires
            old(self).wf(),
        ensures
            final(self).wf(),
            final(self).owner == old(self).owner,
            final(self).bal(token_symbol@) == amount,
            forall|s: Seq<char>|
                s != token_symbol@ ==> final(self).bal(s) == old(self).bal(s),
    {
        let e = BalanceEntry { symbol: token_symbol.clone(), amount };
        match self.find_entry(token_symbol) {
            Some(i) => {
                self.balances.set(i, e);
                proof {
                    assert forall|a: int, b: int|
                        0 <= a < b < self.balances@.len() implies self.balances@[a].symbol@
                        != self.balances@[b].symbol@ by {
                        assert(old(self).balances@[a].symbol@ != old(self).balances@[b].symbol@);
                    }
                    lemma_entry_bal_found(self.balances@, token_symbol@, i as int);
                    assert forall|s: Seq<char>| s != token_symbol@ implies self.bal(s) == old(
                        self,
                    ).bal(s) by {
                        lemma_entry_bal_update_other(
                            old(self).balances@,
                            i as int,
                            self.balances@[i as int],
                            s,
                        );
                    }
                }
            },
            None => {
                self.balances.push(e);
                proof {
                    assert(self.balances@.drop_last() =~= old(self).balances@);
                    assert forall|s: Seq<char>| s != token_symbol@ implies self.bal(s) == old(
                        self,
                    ).bal(s) by {
                        assert(self.balances@.last().symbol@ == token_symbol@);
                    }
                }
            },
        }
    }
}

/// Each owner appears at most once among the wallets.
pub open spec fn owners_unique(ws: Seq<Wallet>) -> bool {
    forall|i: int, j: int| 0 <= i < j < ws.len() ==> ws[i].owner != ws[j].owner
}

/// Owners are unique and every wallet's entries are well formed.
pub open spec fn store_wf(ws: Seq<Wallet>) -> bool {
    owners_unique(ws) && forall|i: int| 0 <= i < ws.len() ==> ws[i].wf()
}

/// Whether some wallet belongs to `id`.
pub open spec fn has_acct(ws: Seq<Wallet>, id: AccountId) -> bool {
    exists|i: int| 0 <= i < ws.len() && ws[i].owner == id
}

/// The balance `id` holds for `sym`; zero when `id` has no wallet.
pub open spec fn acct_bal(ws: Seq<Wallet>, id: AccountId, sym: Seq<char>) -> u128
    decreases ws.len(),
{
    if ws.len() == 0 {
        0
    } else if ws.last().owner == id {
        ws.last().bal(sym)
    } else {
        acct_bal(ws.drop_last(), id, sym)
    }
}

/// The sum of every wallet's balance for `sym`.
pub open spec fn sum_bal(ws: Seq<Wallet>, sym: Seq<char>) -> int
    decreases ws.len(),
{
    if ws.len() == 0 {
        0
    } else {
        sum_bal(ws.drop_last(), sym) + ws.last().bal(sym)
    }
}

proof fn lemma_acct_bal_found(ws: Seq<Wallet>, id: AccountId, sym: Seq<char>, i: int)
    requires
        owners_unique(ws),
        0 <= i < ws.len(),
        ws[i].owner == id,
    ensures
        acct_bal(ws, id, sym) == ws[i].bal(sym),
    decreases ws.len(),
{
    if i < ws.len() - 1 {
        assert(ws[i].owner != ws[ws.len() - 1].owner);
        assert(owners_unique(ws.drop_last()));
        lemma_acct_bal_found(ws.drop_last(), id, sym, i);
    }
}

proof fn lemma_acct_bal_absent(ws: Seq<Wallet>, id: AccountId, sym: Seq<char>)
    requires
        !has_acct(ws, id),
    ensures
        acct_bal(ws, id, sym) == 0,
    decreases ws.len(),
{
    if ws.len() > 0 {
        assert(ws.last().owner != id);
        assert forall|k: int| 0 <= k < ws.drop_last().len() implies ws.drop_last()[k].owner
            != id by {
            assert(ws[k].owner != id);
        }
        lemma_acct_bal_absent(ws.drop_last(), id, sym);
    }
}

proof fn lemma_acct_bal_update_other(
    ws: Seq<Wallet>,
    i: int,
    w2: Wallet,
    id: AccountId,
    sym: Seq<char>,
)
    requires
        0 <= i < ws.len(),
        ws[i].owner != id,
        w2.owner != id,
    ensures
        acct_bal(ws.update(i, w2), id, sym) == acct_bal(ws, id, sym),
    decreases ws.len(),
{
    let ws2 = ws.update(i, w2);
    if i == ws.len() - 1 {
        assert(ws2.drop_last() =~= ws.drop_last());
    } else {
        assert(ws2.last() == ws.last());
        assert(ws2.drop_last() =~= ws.drop_last().update(i, w2));
        lemma_acct_bal_update_other(ws.drop_last(), i, w2, id, sym);
    }
}

proof fn lemma_sum_nonneg(ws: Seq<Wallet>, sym: Seq<char>)
    ensures
        sum_bal(ws, sym) >= 0,
    decreases ws.len(),
{
    if ws.len() > 0 {
        lemma_sum_nonneg(ws.drop_last(), sym);
    }
}

proof fn lemma_sum_update(ws: Seq<Wallet>, i: int, w2: Wallet, sym: Seq<char>)
    requires
        0 <= i < ws.len(),
    ensures
        sum_bal(ws.update(i, w2), sym) == sum_bal(ws, sym) - ws[i].bal(sym) + w2.bal(sym),
    decreases ws.len(),
{
    let ws2 = ws.update(i, w2);
    if i == ws.len() - 1 {
        assert(ws2.drop_last() =~= ws.drop_last());
    } else {
        assert(ws2.last() == ws.last());
        assert(ws2.drop_last() =~= ws.drop_last().update(i, w2));
        lemma_sum_update(ws.drop_last(), i, w2, sym);
    }
}

/// No single account's balance can exceed the sum of all balances.
pub proof fn lemma_bal_le_sum(ws: Seq<Wallet>, id: AccountId, sym: Seq<char>)
    ensures
        acct_bal(ws, id, sym) <= sum_bal(ws, sym),
    decreases ws.len(),
{
    if ws.len() > 0 {
        if ws.last().owner == id {
            lemma_sum_nonneg(ws.drop_last(), sym);
        } else {
            lemma_bal_le_sum(ws.drop_last(), id, sym);
        }
    }
}

/// The account store: one wallet per owner, created on first reference and
/// never deleted.
pub struct WalletStore {
    pub wallets: Vec<Wallet>,
}

impl WalletStore {
    pub open spec fn wf(self) -> bool {
        store_wf(self.wallets@)
    }

    pub open spec fn has(self, id: AccountId) -> bool {
        has_acct(self.wallets@, id)
    }

    pub open spec fn bal(self, id: AccountId, sym: Seq<char>) -> u128 {
        acct_bal(self.wallets@, id, sym)
    }

    pub open spec fn total(self, sym: Seq<char>) -> int {
        sum_bal(self.wallets@, sym)
    }

    pub fn new() -> (s: WalletStore)
        ensures
            s.wf(),
            s.wallets@.len() == 0,
            forall|id: AccountId| !s.has(id),
            forall|id: AccountId, sym: Seq<char>| s.bal(id, sym) == 0,
            forall|sym: Seq<char>| s.total(sym) == 0,
    {
        WalletStore { wallets: Vec::new() }
    }

    fn find(&self, id: AccountId) -> (r: Option<usize>)
        ensures
            match r {
                Some(i) => i < self.wallets@.len() && self.wallets@[i as int].owner == id,
                None => !self.has(id),
            },
    {
        let n = self.wallets.len();
        let mut i: usize = 0;
        while i < n
            invariant
                n == self.wallets@.len(),
                i <= n,
                forall|k: int| 0 <= k < i ==> self.wallets@[k].owner != id,
            decreases n - i,
        {
            if self.wallets[i].owner == id {
                return Some(i);
            }
            i += 1;
        }
        None
    }

    /// Whether an account for `id` is present.
    pub fn contains(&self, id: AccountId) -> (r: bool)
        ensures
            r == self.has(id),
    {
        self.find(id).is_some()
    }

    /// Inserts a fresh zero-balance wallet for `id` and returns `true`, or
    /// returns `false`, leaving the store untouched, when one is present.
    /// Either way no balance and no total changes.
    pub fn create(&mut self, id: AccountId) -> (r: bool)
        requires
            old(self).wf(),
        ensures
            final(self).wf(),
            r == !old(self).has(id),
            final(self).has(id),
            forall|id2: AccountId|
                final(self).has(id2) == (old(self).has(id2) || id2 == id),
            forall|id2: AccountId, s: Seq<char>|
                final(self).bal(id2, s) == old(self).bal(id2, s),
            forall|s: Seq<char>| final(self).total(s) == old(self).total(s),
            !r ==> *final(self) == *old(self),
    {
        match self.find(id) {
            Some(_) => false,
            None => {
                self.wallets.push(Wallet::new(id));
                proof {
                    let ws = old(self).wallets@;
                    let ws2 = self.wallets@;
                    assert(ws2.drop_last() =~= ws);
                    assert(ws2.last().owner == id);
                    assert forall|a: int, b: int| 0 <= a < b < ws2.len() implies ws2[a].owner
                        != ws2[b].owner by {
                        if b < ws2.len() - 1 {
                            assert(ws[a].owner != ws[b].owner);
                        } else {
                            assert(ws[a].owner != id);
                        }
                    }
                    assert forall|id2: AccountId|
                        final(self).has(id2) == (old(self).has(id2) || id2 == id) by {
                        if has_acct(ws2, id2) {
                            let i = choose|i: int| 0 <= i < ws2.len() && ws2[i].owner == id2;
                            if i < ws.len() {
                                assert(ws[i].owner == id2);
                            }
                        }
                        if has_acct(ws, id2) {
                            let i = choose|i: int| 0 <= i < ws.len() && ws[i].owner == id2;
                            assert(ws2[i].owner == id2);
                        }
                        if id2 == id {
                            assert(ws2[ws2.len() - 1].owner == id2);
                        }
                    }
                    assert forall|id2: AccountId, s: Seq<char>|
                        final(self).bal(id2, s) == old(self).bal(id2, s) by {
                        if id2 == id {
                            lemma_acct_bal_absent(ws, id, s);
                        }
                    }
                }
                true
            },
        }
    }

    /// The balance `id` holds for the symbol; zero when `id` has no account
    /// or no entry for the symbol.
    pub fn balance_of(&self, id: AccountId, symbol: &String) -> (r: u128)
        requires
            self.wf(),
        ensures
            r == self.bal(id, symbol@),
    {
        match self.find(id) {
            Some(i) => {
                proof {
                    lemma_acct_bal_found(self.wallets@, id, symbol@, i as int);
                }
                self.wallets[i].get_balance(symbol)
            },
            None => {
                proof {
                    lemma_acct_bal_absent(self.wallets@, id, symbol@);
                }
                0
            },
        }
    }

    /// Overwrites the balance `id` holds for the symbol. Every other
    /// account's balances and every other symbol's total stay as they were;
    /// the symbol's total moves by exactly the difference.
    pub fn set_balance(&mut self, id: AccountId, symbol: &String, value: u128)
        requires
            old(self).wf(),
            old(self).has(id),
        ensures
            final(self).wf(),
            final(self).bal(id, symbol@) == value,
            forall|id2: AccountId, s: Seq<char>|
                !(id2 == id && s == symbol@) ==> final(self).bal(id2, s) == old(self).bal(id2, s),
            forall|id2: AccountId| final(self).has(id2) == old(self).has(id2),
            final(self).total(symbol@) == old(self).total(symbol@) - old(self).bal(id, symbol@)
                + value,
            forall|s: Seq<char>| s != symbol@ ==> final(self).total(s) == old(self).total(s),
    {
        match self.find(id) {
            None => {
                proof {
                    assert(false);
                }
            },
            Some(i) => {
                let ghost ws = old(self).wallets@;
                let mut w = Wallet::new(id);
                self.wallets.set_and_swap(i, &mut w);
                assert(w == ws[i as int]);
                w.update_balance(symbol, value);
                let ghost w2 = w;
                self.wallets.set(i, w);
                proof {
                    let ws2 = self.wallets@;
                    assert(ws2 =~= ws.update(i as int, w2));
                    assert(w2.owner == id);
                    assert forall|a: int, b: int| 0 <= a < b < ws2.len() implies ws2[a].owner
                        != ws2[b].owner by {
                        assert(ws[a].owner != ws[b].owner);
                    }
                    assert forall|k: int| 0 <= k < ws2.len() implies ws2[k].wf() by {
                        assert(ws[k].wf());
                    }
                    lemma_acct_bal_found(ws2, id, symbol@, i as int);
                    lemma_acct_bal_found(ws, id, symbol@, i as int);
                    assert forall|id2: AccountId, s: Seq<char>|
                        !(id2 == id && s == symbol@) implies acct_bal(ws2, id2, s) == acct_bal(
                        ws,
                        id2,
                        s,
                    ) by {
                        if id2 == id {
                            lemma_acct_bal_found(ws2, id, s, i as int);
                            lemma_acct_bal_found(ws, id, s, i as int);
                        } else {
                            lemma_acct_bal_update_other(ws, i as int, w2, id2, s);
                        }
                    }
                    assert forall|id2: AccountId|
                        has_acct(ws2, id2) == has_acct(ws, id2) by {
                        if has_acct(ws2, id2) {
                            let k = choose|k: int| 0 <= k < ws2.len() && ws2[k].owner == id2;
                            assert(ws[k].owner == id2);
                        }
                        if has_acct(ws, id2) {
                            let k = choose|k: int| 0 <= k < ws.len() && ws[k].owner == id2;
                            assert(ws2[k].owner == id2);
                        }
                    }
                    lemma_sum_update(ws, i as int, w2, symbol@);
                    assert forall|s: Seq<char>| s != symbol@ implies sum_bal(ws2, s) == sum_bal(
                        ws,
                        s,
                    ) by {
                        lemma_sum_update(ws, i as int, w2, s);
                    }
                }
            },
        }
    }
}

} // verus!
