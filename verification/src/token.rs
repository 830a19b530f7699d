//! The supply ledger: token metadata and the total-supply counter, mutated
//! only through checked mint and burn steps that fail closed.

use vstd::prelude::*;

use crate::TransferError;

verus! {

/// Token metadata together with the total outstanding supply.
pub struct Token {
    pub name: String,
    pub symbol: String,
    pub decimals: u8,
    pub total_supply: u128,
}

impl Token {
    pub fn new(name: String, symbol: String, decimals: u8, initial_supply: u128) -> (t: Token)
        ensures
            t.name == name,
            t.symbol == symbol,
            t.decimals == decimals,
            t.total_supply == initial_supply,
    {
        Token { name, symbol, decimals, total_supply: initial_supply }
    }

    /// Adds `amount` to the total supply with checked addition; fails closed
    /// on overflow, leaving the supply untouched.
    pub fn mint(&mut self, amount: u128) -> (r: Result<(), TransferError>)
        ensures
            r is Ok <==> old(self).total_supply + amount <= u128::MAX,
            r is Ok ==> final(self).total_supply == old(self).total_supply + amount,
            r is Err ==> r == Err::<(), TransferError>(TransferError::OverflowError)
                && *final(self) == *old(self),
            final(self).name == old(self).name,
            final(self).symbol == old(self).symbol,
            final(self).decimals == old(self).decimals,
    {
        match self.total_supply.checked_add(amount) {
            Some(s) => {
                self.total_supply = s;
                Ok(())
            },
            None => Err(TransferError::OverflowError),
        }
    }

    /// Subtracts `amount` from the total supply with checked subtraction;
    /// fails closed on underflow, leaving the supply untouched.
    pub fn burn(&mut self, amount: u128) -> (r: Result<(), TransferError>)
        ensures
            r is Ok <==> amount <= old(self).total_supply,
            r is Ok ==> final(self).total_supply == old(self).total_supply - amount,
            r is Err ==> r == Err::<(), TransferError>(TransferError::OverflowError)
                && *final(self) == *old(self),
            final(self).name == old(self).name,
            final(self).symbol == old(self).symbol,
            final(self).decimals == old(self).decimals,
    {
        match self.total_supply.checked_sub(amount) {
            Some(s) => {
                self.total_supply = s;
                Ok(())
            },
            None => Err(TransferError::OverflowError),
        }
    }
}

} // verus!
