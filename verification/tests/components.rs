use token_ledger::token::Token;
use token_ledger::transfer::{SimpleTransferManager, TransferManager};
use token_ledger::wallet::{Wallet, WalletStore};
use token_ledger::{AccountId, TransferError};

fn account(id: u64) -> AccountId {
    AccountId { id }
}

#[test]
fn token_new_sets_fields() {
    let t = Token::new(String::from("Example"), String::from("EXM"), 6, 42);
    assert_eq!(t.name, "Example");
    assert_eq!(t.symbol, "EXM");
    assert_eq!(t.decimals, 6);
    assert_eq!(t.total_supply, 42);
}

#[test]
fn token_mint_and_burn_are_checked() {
    let mut t = Token::new(String::from("Example"), String::from("EXM"), 6, 10);
    assert_eq!(t.mint(5), Ok(()));
    assert_eq!(t.total_supply, 15);
    assert_eq!(t.mint(u128::MAX), Err(TransferError::OverflowError));
    assert_eq!(t.total_supply, 15);
    assert_eq!(t.burn(15), Ok(()));
    assert_eq!(t.total_supply, 0);
    assert_eq!(t.burn(1), Err(TransferError::OverflowError));
    assert_eq!(t.total_supply, 0);
}

#[test]
fn wallet_balances_default_to_zero_per_symbol() {
    let symbol = String::from("ICPT");
    let other = String::from("OTHER");
    let mut w = Wallet::new(account(1));
    assert_eq!(w.owner, account(1));
    assert_eq!(w.get_balance(&symbol), 0);

    w.update_balance(&symbol, 12);
    assert_eq!(w.get_balance(&symbol), 12);
    assert_eq!(w.get_balance(&other), 0);

    w.update_balance(&other, 3);
    w.update_balance(&symbol, 7);
    assert_eq!(w.get_balance(&symbol), 7);
    assert_eq!(w.get_balance(&other), 3);
}

#[test]
fn store_create_balance_and_set_balance() {
    let symbol = String::from("ICPT");
    let mut store = WalletStore::new();
    let a = account(1);
    assert!(!store.contains(a));
    assert_eq!(store.balance_of(a, &symbol), 0);

    assert!(store.create(a));
    assert!(store.contains(a));
    assert!(!store.create(a));

    store.set_balance(a, &symbol, 25);
    assert_eq!(store.balance_of(a, &symbol), 25);
}

#[test]
fn transfer_manager_moves_balance_between_wallets() {
    let symbol = String::from("ICPT");
    let mut store = WalletStore::new();
    let a = account(1);
    let b = account(2);
    assert!(store.create(a));
    store.set_balance(a, &symbol, 30);

    let manager = SimpleTransferManager::new();
    assert_eq!(manager.transfer(&mut store, &symbol, a, b, 12), Ok(()));
    assert_eq!(store.balance_of(a, &symbol), 18);
    assert_eq!(store.balance_of(b, &symbol), 12);

    assert_eq!(
        manager.transfer(&mut store, &symbol, b, a, 13),
        Err(TransferError::InsufficientBalance)
    );
    assert_eq!(
        manager.transfer(&mut store, &symbol, account(3), a, 1),
        Err(TransferError::SenderWalletNotFound)
    );
    assert_eq!(store.balance_of(a, &symbol), 18);
    assert_eq!(store.balance_of(b, &symbol), 12);
}

#[test]
fn transfer_manager_reports_recipient_overflow_without_state_change() {
    let symbol = String::from("ICPT");
    let mut store = WalletStore::new();
    let a = account(1);
    let b = account(2);
    assert!(store.create(a));
    assert!(store.create(b));
    store.set_balance(a, &symbol, 10);
    store.set_balance(b, &symbol, u128::MAX);

    let manager = SimpleTransferManager::new();
    assert_eq!(
        manager.transfer(&mut store, &symbol, a, b, 5),
        Err(TransferError::OverflowError)
    );
    assert_eq!(store.balance_of(a, &symbol), 10);
    assert_eq!(store.balance_of(b, &symbol), u128::MAX);
}
