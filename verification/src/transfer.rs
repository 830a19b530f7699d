//! The transfer engine: moves a balance between two accounts atomically.
//! Every precondition is validated before the first mutation, so a failure
//! leaves the store exactly as it was and no value is ever created or
//! destroyed by a transfer.

use vstd::prelude::*;

use crate::wallet::WalletStore;
use crate::AccountId;
use crate::TransferError;

verus! {

/// Moves `amount` of the asset named `symbol` from `from` to `to` inside
/// `store`, creating the recipient's wallet when absent.
pub trait TransferManager {
    fn transfer(
        &self,
        store: &mut WalletStore,
        symbol: &String,
        from: AccountId,
        to: AccountId,
        amount: u128,
    ) -> (r: Result<(), TransferError>)
        requires
            old(store).wf(),
        ensures
            final(store).wf(),
            (r == Err::<(), TransferError>(TransferError::SenderWalletNotFound)) <==> !old(
                store,
            ).has(from),
            old(store).has(from) ==> ((r == Err::<(), TransferError>(
                TransferError::InsufficientBalance,
            )) <==> old(store).bal(from, symbol@) < amount),
            old(store).has(from) && old(store).bal(from, symbol@) >= amount ==> ((r == Err::<
                (),
                TransferError,
            >(TransferError::OverflowError)) <==> (if to == from {
                old(store).bal(from, symbol@) - amount
            } else {
                old(store).bal(to, symbol@) as int
            }) + amount > u128::MAX),
            r is Ok <==> (old(store).has(from) && old(store).bal(from, symbol@) >= amount && (
            if to == from {
                old(store).bal(from, symbol@) - amount
            } else {
                old(store).bal(to, symbol@) as int
            }) + amount <= u128::MAX),
            r is Err ==> *final(store) == *old(store),
            r is Ok ==> final(store).bal(to, symbol@) == (if to == from {
                old(store).bal(from, symbol@) as int
            } else {
                old(store).bal(to, symbol@) + amount
            }),
            r is Ok && to != from ==> final(store).bal(from, symbol@) == old(store).bal(
                from,
                symbol@,
            ) - amount,
            r is Ok ==> forall|id2: AccountId|
                id2 != from && id2 != to ==> final(store).bal(id2, symbol@) == old(store).bal(
                    id2,
                    symbol@,
                ),
            r is Ok ==> forall|id2: AccountId, s: Seq<char>|
                s != symbol@ ==> final(store).bal(id2, s) == old(store).bal(id2, s),
            r is Ok ==> forall|id2: AccountId|
                final(store).has(id2) == (old(store).has(id2) || id2 == to),
            r is Ok ==> forall|s: Seq<char>| final(store).total(s) == old(store).total(s),
    ;
}

/// The one transfer engine of this ledger: validate first, then debit the
/// sender and credit the recipient as one uninterruptible step.
pub struct SimpleTransferManager;

impl SimpleTransferManager {
    pub fn new() -> (m: SimpleTransferManager)
        ensures
            m == (SimpleTransferManager {  }),
    {
        SimpleTransferManager
    }
}

impl TransferManager for SimpleTransferManager {
    fn transfer(
        &self,
        store: &mut WalletStore,
        symbol: &String,
        from: AccountId,
        to: AccountId,
        amount: u128,
    ) -> (r: Result<(), TransferError>) {
        if !store.contains(from) {
            return Err(TransferError::SenderWalletNotFound);
        }
        let sender_balance = store.balance_of(from, symbol);
        if sender_balance < amount {
            return Err(TransferError::InsufficientBalance);
        }
        let debited = sender_balance - amount;
        let to_balance = if to == from {
            debited
        } else {
            store.balance_of(to, symbol)
        };
        match to_balance.checked_add(amount) {
            None => Err(TransferError::OverflowError),
            Some(credited) => {
                store.set_balance(from, symbol, debited);
                let _ = store.create(to);
                store.set_balance(to, symbol, credited);
                Ok(())
            },
        }
    }
}

} // verus!
