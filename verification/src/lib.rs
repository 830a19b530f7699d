//! A single-asset token ledger: per-account balances, a total-supply counter,
//! an append-only event log, and a single-administrator authorization gate.
//!
//! The central invariant, carried by [`Ledger::wf`], is that the declared
//! total supply always equals the sum of every account's balance for the
//! ledger's token symbol, and that every failed operation leaves the state
//! exactly as it was.

pub mod token;
pub mod transfer;
pub mod wallet;

use vstd::prelude::*;
use vstd::string::StringExecFns;

use crate::token::Token;
use crate::transfer::SimpleTransferManager;
use crate::transfer::TransferManager;
use crate::wallet::lemma_bal_le_sum;
use crate::wallet::WalletStore;

verus! {

/// An already-authenticated account identifier, supplied by the surrounding
/// environment. Opaque to the ledger: only compared for equality.
#[derive(Clone, Copy, PartialEq, Eq, Structural, Hash, Debug)]
pub struct AccountId {
    pub id: u64,
}

/// The identifier used as the sentinel "none" party: the source of a mint
/// and the destination of a burn.
pub open spec fn anonymous_id() -> AccountId {
    AccountId { id: 0 }
}

impl AccountId {
    /// The sentinel identifier standing for "no account".
    pub fn anonymous() -> (a: AccountId)
        ensures
            a == anonymous_id(),
    {
        AccountId { id: 0 }
    }
}

/// One immutable entry of the event log: a transfer, a mint (source is the
/// sentinel), or a burn (destination is the sentinel).
#[derive(Clone, Copy, PartialEq, Eq, Structural, Debug)]
pub struct TransferEvent {
    pub from: AccountId,
    pub to: AccountId,
    pub amount: u128,
    pub timestamp: u64,
}

/// Every way a balance-affecting operation can fail. A failed operation
/// leaves the ledger unchanged.
#[derive(Clone, Copy, PartialEq, Eq, Structural, Debug)]
pub enum TransferError {
    InsufficientBalance,
    RecipientWalletNotFound,
    SenderWalletNotFound,
    Unauthorized,
    InvalidAmount,
    OverflowError,
}

/// The balances map after moving `amount` from `from` to `to`: the sender is
/// debited first, then the recipient (who may be the sender) is credited.
pub open spec fn transfer_effect(
    m: Map<AccountId, u128>,
    from: AccountId,
    to: AccountId,
    amount: u128,
) -> Map<AccountId, u128> {
    let debited = m.insert(from, (m[from] - amount) as u128);
    debited.insert(to, (debited[to] + amount) as u128)
}

/// Conservation: transferring `x` from `a` to `b` and then `x` back from `b`
/// to `a` restores every balance, absent overflow on the first credit.
pub proof fn lemma_transfer_round_trip(m: Map<AccountId, u128>, a: AccountId, b: AccountId, x: u128)
    requires
        m.dom().contains(a),
        m.dom().contains(b),
        x <= m[a],
        (if b == a {
            m[a] - x
        } else {
            m[b] as int
        }) + x <= u128::MAX,
    ensures
        transfer_effect(transfer_effect(m, a, b, x), b, a, x) == m,
{
    let m2 = transfer_effect(transfer_effect(m, a, b, x), b, a, x);
    assert(m2 =~= m);
}

/// For every well-formed ledger, the declared total supply equals the sum of
/// every account's balance for the ledger's token symbol.
pub proof fn lemma_supply_equals_sum(l: Ledger)
    requires
        l.wf(),
    ensures
        l.token.total_supply as int == wallet::sum_bal(l.store.wallets@, l.token.symbol@),
{
}

/// No account balance is ever negative: balances are unsigned, and every
/// operation checks sufficiency before it subtracts.
pub proof fn lemma_no_negative_balance(l: Ledger, id: AccountId)
    ensures
        l.balance(id) >= 0,
{
}

/// The whole ledger: token supply, account store, event log, administrator.
pub struct Ledger {
    pub token: Token,
    pub store: WalletStore,
    pub events: Vec<TransferEvent>,
    pub owner: AccountId,
}

impl Ledger {
    /// Well-formedness: the store's internal invariants hold and the declared
    /// total supply equals the sum of every account's balance for the
    /// ledger's token symbol.
    pub open spec fn wf(self) -> bool {
        &&& self.store.wf()
        &&& self.token.total_supply as int == self.store.total(self.token.symbol@)
    }

    /// The ledger's asset symbol.
    pub open spec fn sym(self) -> Seq<char> {
        self.token.symbol@
    }

    /// The balance of one account for the ledger's symbol; zero when absent.
    pub open spec fn balance(self, id: AccountId) -> u128 {
        self.store.bal(id, self.sym())
    }

    /// Whether an account is present for `id`.
    pub open spec fn has_account(self, id: AccountId) -> bool {
        self.store.has(id)
    }

    /// Every account's balance for the ledger's symbol, as a total map.
    pub open spec fn balances(self) -> Map<AccountId, u128> {
        Map::new(|id: AccountId| true, |id: AccountId| self.balance(id))
    }

    /// A fresh ledger whose administrator is whoever first initializes the
    /// system. No accounts, no events, and no supply yet.
    pub fn init(caller: AccountId) -> (l: Ledger)
        ensures
            l.wf(),
            l.owner == caller,
            l.token.name@ == "ICP Token"@,
            l.token.symbol@ == "ICPT"@,
            l.token.decimals == 8,
            l.token.total_supply == 0,
            forall|id: AccountId| !l.has_account(id),
            forall|id: AccountId| l.balance(id) == 0,
            l.events@ == Seq::<TransferEvent>::empty(),
    {
        let token = Token::new(String::from_str("ICP Token"), String::from_str("ICPT"), 8, 0);
        let l = Ledger { token, store: WalletStore::new(), events: Vec::new(), owner: caller };
        proof {
            assert(l.events@ =~= Seq::<TransferEvent>::empty());
        }
        l
    }

    /// The balance of `owner` for the ledger's token; zero when no account
    /// or no entry exists. Never fails.
    pub fn get_balance(&self, owner: AccountId) -> (r: u128)
        requires
            self.wf(),
        ensures
            r == self.balance(owner),
    {
        self.store.balance_of(owner, &self.token.symbol)
    }

    /// A copy of the token metadata and the current total supply.
    pub fn get_token_info(&self) -> (t: Token)
        ensures
            t == self.token,
    {
        Token::new(
            self.token.name.clone(),
            self.token.symbol.clone(),
            self.token.decimals,
            self.token.total_supply,
        )
    }

    /// Whether an account for `id` is present in the store.
    pub fn has_wallet(&self, id: AccountId) -> (r: bool)
        ensures
            r == self.has_account(id),
    {
        self.store.contains(id)
    }

    /// Creates a zero-balance account for the caller; fails when one already
    /// exists, changing nothing.
    pub fn create_wallet(&mut self, caller: AccountId) -> (r: Result<AccountId, String>)
        requires
            old(self).wf(),
        ensures
            final(self).wf(),
            r is Ok <==> !old(self).has_account(caller),
            r is Ok ==> r == Ok::<AccountId, String>(caller),
            r is Err ==> *final(self) == *old(self),
            (r matches Err(m) ==> m@ == "Wallet already exists"@),
            final(self).has_account(caller),
            forall|id: AccountId|
                final(self).has_account(id) == (old(self).has_account(id) || id == caller),
            forall|id: AccountId, s: Seq<char>|
                final(self).store.bal(id, s) == old(self).store.bal(id, s),
            final(self).token == old(self).token,
            final(self).events == old(self).events,
            final(self).owner == old(self).owner,
    {
        if self.store.create(caller) {
            Ok(caller)
        } else {
            Err(String::from_str("Wallet already exists"))
        }
    }

    /// Whether the caller is the administrator.
    pub fn is_owner(&self, caller: AccountId) -> (r: bool)
        ensures
            r == (caller == self.owner),
    {
        caller == self.owner
    }

    /// Hands the administrator role to `new_owner`; only the current
    /// administrator may do so. `new_owner` need not hold an account.
    pub fn change_owner(&mut self, caller: AccountId, new_owner: AccountId) -> (r: Result<
        (),
        TransferError,
    >)
        requires
            old(self).wf(),
        ensures
            final(self).wf(),
            r is Ok <==> caller == old(self).owner,
            (r == Err::<(), TransferError>(TransferError::Unauthorized)) <==> caller != old(
                self,
            ).owner,
            r is Err ==> *final(self) == *old(self),
            r is Ok ==> final(self).owner == new_owner,
            final(self).token == old(self).token,
            final(self).store == old(self).store,
            final(self).events == old(self).events,
    {
        if !self.is_owner(caller) {
            return Err(TransferError::Unauthorized);
        }
        self.owner = new_owner;
        Ok(())
    }

    /// Moves `amount` of the ledger's token from the caller to `to`,
    /// creating the recipient's account when absent, and appends one
    /// transfer event. Validation precedes every mutation: a failure leaves
    /// the ledger exactly as it was.
    pub fn transfer(&mut self, caller: AccountId, to: AccountId, amount: u128, now: u64) -> (r:
        Result<bool, TransferError>)
        requires
            old(self).wf(),
        ensures
            final(self).wf(),
            r is Err ==> *final(self) == *old(self),
            (r == Err::<bool, TransferError>(TransferError::InvalidAmount)) <==> amount == 0,
            amount > 0 ==> ((r == Err::<bool, TransferError>(TransferError::SenderWalletNotFound))
                <==> !old(self).has_account(caller)),
            amount > 0 && old(self).has_account(caller) ==> ((r == Err::<bool, TransferError>(
                TransferError::InsufficientBalance,
            )) <==> old(self).balance(caller) < amount),
            amount > 0 && old(self).has_account(caller) && old(self).balance(caller) >= amount
                ==> ((r == Err::<bool, TransferError>(TransferError::OverflowError)) <==> (
            if to == caller {
                old(self).balance(caller) - amount
            } else {
                old(self).balance(to) as int
            }) + amount > u128::MAX),
            r is Ok <==> (amount > 0 && old(self).has_account(caller) && old(self).balance(caller)
                >= amount && (if to == caller {
                old(self).balance(caller) - amount
            } else {
                old(self).balance(to) as int
            }) + amount <= u128::MAX),
            r is Ok ==> r == Ok::<bool, TransferError>(true),
            r is Ok ==> final(self).balances() == transfer_effect(
                old(self).balances(),
                caller,
                to,
                amount,
            ),
            r is Ok ==> final(self).balance(to) == (if to == caller {
                old(self).balance(caller) as int
            } else {
                old(self).balance(to) + amount
            }),
            r is Ok && to != caller ==> final(self).balance(caller) == old(self).balance(caller)
                - amount,
            r is Ok ==> forall|id: AccountId|
                id != caller && id != to ==> final(self).balance(id) == old(self).balance(id),
            r is Ok ==> forall|id: AccountId, s: Seq<char>|
                s != old(self).sym() ==> final(self).store.bal(id, s) == old(self).store.bal(id, s),
            r is Ok ==> forall|id: AccountId|
                final(self).has_account(id) == (old(self).has_account(id) || id == to),
            r is Ok ==> final(self).events@ == old(self).events@.push(
                TransferEvent { from: caller, to, amount, timestamp: now },
            ),
            final(self).token == old(self).token,
            final(self).owner == old(self).owner,
    {
        if amount == 0 {
            return Err(TransferError::InvalidAmount);
        }
        let manager = SimpleTransferManager::new();
        match manager.transfer(&mut self.store, &self.token.symbol, caller, to, amount) {
            Err(e) => Err(e),
            Ok(()) => {
                self.events.push(TransferEvent { from: caller, to, amount, timestamp: now });
                proof {
                    let eff = transfer_effect(old(self).balances(), caller, to, amount);
                    assert forall|id: AccountId| self.balances()[id] == eff[id] by {}
                    assert(self.balances() =~= eff);
                }
                Ok(true)
            },
        }
    }

    /// Creates `amount` new tokens and credits them to `to`, creating the
    /// account when absent; administrator only. Supply and recipient balance
    /// move together or not at all. Appends one mint event whose source is
    /// the sentinel identifier.
    pub fn mint(&mut self, caller: AccountId, to: AccountId, amount: u128, now: u64) -> (r: Result<
        bool,
        TransferError,
    >)
        requires
            old(self).wf(),
        ensures
            final(self).wf(),
            r is Err ==> *final(self) == *old(self),
            (r == Err::<bool, TransferError>(TransferError::Unauthorized)) <==> caller != old(
                self,
            ).owner,
            caller == old(self).owner ==> ((r == Err::<bool, TransferError>(
                TransferError::InvalidAmount,
            )) <==> amount == 0),
            caller == old(self).owner && amount > 0 ==> ((r == Err::<bool, TransferError>(
                TransferError::OverflowError,
            )) <==> old(self).token.total_supply + amount > u128::MAX),
            r is Ok <==> (caller == old(self).owner && amount > 0 && old(self).token.total_supply
                + amount <= u128::MAX),
            r is Ok ==> r == Ok::<bool, TransferError>(true),
            r is Ok ==> final(self).token.total_supply == old(self).token.total_supply + amount,
            r is Ok ==> final(self).balance(to) == old(self).balance(to) + amount,
            r is Ok ==> forall|id: AccountId|
                id != to ==> final(self).balance(id) == old(self).balance(id),
            r is Ok ==> forall|id: AccountId, s: Seq<char>|
                s != old(self).sym() ==> final(self).store.bal(id, s) == old(self).store.bal(id, s),
            r is Ok ==> forall|id: AccountId|
                final(self).has_account(id) == (old(self).has_account(id) || id == to),
            r is Ok ==> final(self).events@ == old(self).events@.push(
                TransferEvent { from: anonymous_id(), to, amount, timestamp: now },
            ),
            final(self).token.name == old(self).token.name,
            final(self).token.symbol == old(self).token.symbol,
            final(self).token.decimals == old(self).token.decimals,
            final(self).owner == old(self).owner,
    {
        if !self.is_owner(caller) {
            return Err(TransferError::Unauthorized);
        }
        if amount == 0 {
            return Err(TransferError::InvalidAmount);
        }
        let bal_to = self.store.balance_of(to, &self.token.symbol);
        proof {
            lemma_bal_le_sum(self.store.wallets@, to, self.token.symbol@);
        }
        let credited = match bal_to.checked_add(amount) {
            None => {
                return Err(TransferError::OverflowError);
            },
            Some(c) => c,
        };
        match self.token.mint(amount) {
            Err(e) => {
                return Err(e);
            },
            Ok(()) => {},
        }
        let _ = self.store.create(to);
        self.store.set_balance(to, &self.token.symbol, credited);
        self.events.push(TransferEvent { from: AccountId::anonymous(), to, amount, timestamp: now });
        Ok(true)
    }

    /// Destroys `amount` tokens from the caller's own account, decreasing
    /// balance and supply together or not at all. Appends one burn event
    /// whose destination is the sentinel identifier.
    pub fn burn(&mut self, caller: AccountId, amount: u128, now: u64) -> (r: Result<
        bool,
        TransferError,
    >)
        requires
            old(self).wf(),
        ensures
            final(self).wf(),
            r is Err ==> *final(self) == *old(self),
            (r == Err::<bool, TransferError>(TransferError::InvalidAmount)) <==> amount == 0,
            amount > 0 ==> ((r == Err::<bool, TransferError>(TransferError::SenderWalletNotFound))
                <==> !old(self).has_account(caller)),
            amount > 0 && old(self).has_account(caller) ==> ((r == Err::<bool, TransferError>(
                TransferError::InsufficientBalance,
            )) <==> old(self).balance(caller) < amount),
            r is Ok <==> (amount > 0 && old(self).has_account(caller) && old(self).balance(caller)
                >= amount),
            r is Ok ==> r == Ok::<bool, TransferError>(true),
            r is Ok ==> final(self).token.total_supply == old(self).token.total_supply - amount,
            r is Ok ==> final(self).balance(caller) == old(self).balance(caller) - amount,
            r is Ok ==> forall|id: AccountId|
                id != caller ==> final(self).balance(id) == old(self).balance(id),
            r is Ok ==> forall|id: AccountId, s: Seq<char>|
                s != old(self).sym() ==> final(self).store.bal(id, s) == old(self).store.bal(id, s),
            r is Ok ==> forall|id: AccountId|
                final(self).has_account(id) == old(self).has_account(id),
            r is Ok ==> final(self).events@ == old(self).events@.push(
                TransferEvent { from: caller, to: anonymous_id(), amount, timestamp: now },
            ),
            final(self).token.name == old(self).token.name,
            final(self).token.symbol == old(self).token.symbol,
            final(self).token.decimals == old(self).token.decimals,
            final(self).owner == old(self).owner,
    {
        if amount == 0 {
            return Err(TransferError::InvalidAmount);
        }
        if !self.store.contains(caller) {
            return Err(TransferError::SenderWalletNotFound);
        }
        let balance = self.store.balance_of(caller, &self.token.symbol);
        if balance < amount {
            return Err(TransferError::InsufficientBalance);
        }
        proof {
            lemma_bal_le_sum(self.store.wallets@, caller, self.token.symbol@);
        }
        match self.token.burn(amount) {
            Err(e) => {
                return Err(e);
            },
            Ok(()) => {},
        }
        self.store.set_balance(caller, &self.token.symbol, balance - amount);
        self.events.push(TransferEvent { from: caller, to: AccountId::anonymous(), amount, timestamp: now });
        Ok(true)
    }

    /// The full event log, oldest first.
    pub fn get_transfer_history(&self) -> (r: Vec<TransferEvent>)
        ensures
            r@ == self.events@,
    {
        let mut out: Vec<TransferEvent> = Vec::new();
        let n = self.events.len();
        let mut i: usize = 0;
        while i < n
            invariant
                n == self.events@.len(),
                i <= n,
                out@ == self.events@.take(i as int),
            decreases n - i,
        {
            out.push(self.events[i]);
            proof {
                assert(self.events@.take(i + 1 as int) =~= self.events@.take(i as int).push(
                    self.events@[i as int],
                ));
            }
            i += 1;
        }
        proof {
            assert(self.events@.take(n as int) =~= self.events@);
        }
        out
    }
}

} // verus!
