use token_ledger::{AccountId, Ledger, TransferError};

fn account(id: u64) -> AccountId {
    AccountId { id }
}

#[test]
fn test_create_wallet() {
    let principal = AccountId::anonymous();
    let mut ledger = Ledger::init(principal);
    assert!(!ledger.has_wallet(principal));

    assert!(ledger.create_wallet(principal).is_ok());
    assert!(ledger.has_wallet(principal));
}

#[test]
fn create_wallet_twice_fails() {
    let a = account(1);
    let mut ledger = Ledger::init(a);
    assert!(ledger.create_wallet(a).is_ok());
    let again = ledger.create_wallet(a);
    assert_eq!(again, Err(String::from("Wallet already exists")));
    assert!(ledger.has_wallet(a));
}

#[test]
fn scenario_mint_transfer_burn() {
    let admin = account(9);
    let a = account(1);
    let b = account(2);
    let mut ledger = Ledger::init(admin);
    assert!(ledger.create_wallet(a).is_ok());
    assert!(ledger.create_wallet(b).is_ok());

    assert_eq!(ledger.mint(admin, a, 100, 11), Ok(true));
    assert_eq!(ledger.get_token_info().total_supply, 100);
    assert_eq!(ledger.get_balance(a), 100);

    assert_eq!(ledger.transfer(a, b, 40, 22), Ok(true));
    assert_eq!(ledger.get_balance(a), 60);
    assert_eq!(ledger.get_balance(b), 40);
    assert_eq!(ledger.get_token_info().total_supply, 100);

    assert_eq!(ledger.burn(a, 10, 33), Ok(true));
    assert_eq!(ledger.get_balance(a), 50);
    assert_eq!(ledger.get_token_info().total_supply, 90);
}

#[test]
fn event_log_holds_exactly_the_successful_operations() {
    let admin = account(9);
    let a = account(1);
    let b = account(2);
    let mut ledger = Ledger::init(admin);
    assert!(ledger.create_wallet(a).is_ok());
    assert!(ledger.create_wallet(b).is_ok());
    assert_eq!(ledger.mint(admin, a, 100, 11), Ok(true));
    assert_eq!(ledger.transfer(a, b, 40, 22), Ok(true));
    // Failed operations append nothing.
    assert_eq!(ledger.transfer(a, b, 0, 23), Err(TransferError::InvalidAmount));
    assert_eq!(ledger.mint(a, a, 5, 24), Err(TransferError::Unauthorized));
    assert_eq!(ledger.burn(a, 10, 33), Ok(true));

    let history = ledger.get_transfer_history();
    assert_eq!(history.len(), 3);
    assert_eq!(history[0].from, AccountId::anonymous());
    assert_eq!(history[0].to, a);
    assert_eq!(history[0].amount, 100);
    assert_eq!(history[0].timestamp, 11);
    assert_eq!(history[1].from, a);
    assert_eq!(history[1].to, b);
    assert_eq!(history[1].amount, 40);
    assert_eq!(history[1].timestamp, 22);
    assert_eq!(history[2].from, a);
    assert_eq!(history[2].to, AccountId::anonymous());
    assert_eq!(history[2].amount, 10);
    assert_eq!(history[2].timestamp, 33);
}

#[test]
fn zero_amount_transfer_fails_without_state_change() {
    let a = account(1);
    let b = account(2);
    let mut ledger = Ledger::init(a);
    assert!(ledger.create_wallet(a).is_ok());
    assert_eq!(ledger.mint(a, a, 100, 1), Ok(true));

    assert_eq!(ledger.transfer(a, b, 0, 2), Err(TransferError::InvalidAmount));
    assert_eq!(ledger.get_balance(a), 100);
    assert_eq!(ledger.get_balance(b), 0);
    assert!(!ledger.has_wallet(b));
    assert_eq!(ledger.get_token_info().total_supply, 100);
    assert_eq!(ledger.get_transfer_history().len(), 1);
}

#[test]
fn unauthorized_mint_fails_without_state_change() {
    let admin = account(9);
    let outsider = account(3);
    let mut ledger = Ledger::init(admin);
    assert_eq!(ledger.mint(outsider, outsider, 100, 1), Err(TransferError::Unauthorized));
    assert_eq!(ledger.get_balance(outsider), 0);
    assert_eq!(ledger.get_token_info().total_supply, 0);
    assert_eq!(ledger.get_transfer_history().len(), 0);
    assert!(ledger.is_owner(admin));
}

#[test]
fn insufficient_balance_transfer_fails_without_state_change() {
    let a = account(1);
    let b = account(2);
    let mut ledger = Ledger::init(a);
    assert!(ledger.create_wallet(a).is_ok());
    assert_eq!(ledger.mint(a, a, 5, 1), Ok(true));

    assert_eq!(ledger.transfer(a, b, 10, 2), Err(TransferError::InsufficientBalance));
    assert_eq!(ledger.get_balance(a), 5);
    assert_eq!(ledger.get_balance(b), 0);
    assert_eq!(ledger.get_token_info().total_supply, 5);
    assert_eq!(ledger.get_transfer_history().len(), 1);
}

#[test]
fn transfer_without_sender_wallet_fails() {
    let a = account(1);
    let b = account(2);
    let mut ledger = Ledger::init(a);
    assert_eq!(ledger.transfer(a, b, 5, 1), Err(TransferError::SenderWalletNotFound));
    assert_eq!(ledger.get_transfer_history().len(), 0);
}

#[test]
fn burn_errors() {
    let a = account(1);
    let mut ledger = Ledger::init(a);
    assert_eq!(ledger.burn(a, 0, 1), Err(TransferError::InvalidAmount));
    assert_eq!(ledger.burn(a, 5, 2), Err(TransferError::SenderWalletNotFound));
    assert!(ledger.create_wallet(a).is_ok());
    assert_eq!(ledger.mint(a, a, 3, 3), Ok(true));
    assert_eq!(ledger.burn(a, 5, 4), Err(TransferError::InsufficientBalance));
    assert_eq!(ledger.get_balance(a), 3);
    assert_eq!(ledger.get_token_info().total_supply, 3);
}

#[test]
fn mint_overflow_fails_without_state_change() {
    let a = account(1);
    let mut ledger = Ledger::init(a);
    assert_eq!(ledger.mint(a, a, u128::MAX, 1), Ok(true));
    assert_eq!(ledger.mint(a, a, 1, 2), Err(TransferError::OverflowError));
    assert_eq!(ledger.get_balance(a), u128::MAX);
    assert_eq!(ledger.get_token_info().total_supply, u128::MAX);
    assert_eq!(ledger.get_transfer_history().len(), 1);
}

#[test]
fn mint_zero_fails() {
    let a = account(1);
    let mut ledger = Ledger::init(a);
    assert_eq!(ledger.mint(a, a, 0, 1), Err(TransferError::InvalidAmount));
    assert_eq!(ledger.get_token_info().total_supply, 0);
}

#[test]
fn mint_creates_recipient_account() {
    let admin = account(9);
    let b = account(2);
    let mut ledger = Ledger::init(admin);
    assert!(!ledger.has_wallet(b));
    assert_eq!(ledger.mint(admin, b, 7, 1), Ok(true));
    assert!(ledger.has_wallet(b));
    assert_eq!(ledger.get_balance(b), 7);
}

#[test]
fn transfer_to_self_changes_nothing_but_logs_event() {
    let a = account(1);
    let mut ledger = Ledger::init(a);
    assert!(ledger.create_wallet(a).is_ok());
    assert_eq!(ledger.mint(a, a, 50, 1), Ok(true));
    assert_eq!(ledger.transfer(a, a, 20, 2), Ok(true));
    assert_eq!(ledger.get_balance(a), 50);
    assert_eq!(ledger.get_token_info().total_supply, 50);
    assert_eq!(ledger.get_transfer_history().len(), 2);
}

#[test]
fn round_trip_transfer_restores_balances() {
    let admin = account(9);
    let a = account(1);
    let b = account(2);
    let mut ledger = Ledger::init(admin);
    assert!(ledger.create_wallet(a).is_ok());
    assert!(ledger.create_wallet(b).is_ok());
    assert_eq!(ledger.mint(admin, a, 70, 1), Ok(true));
    assert_eq!(ledger.mint(admin, b, 30, 2), Ok(true));

    assert_eq!(ledger.transfer(a, b, 25, 3), Ok(true));
    assert_eq!(ledger.transfer(b, a, 25, 4), Ok(true));
    assert_eq!(ledger.get_balance(a), 70);
    assert_eq!(ledger.get_balance(b), 30);
    assert_eq!(ledger.get_token_info().total_supply, 100);
}

#[test]
fn change_owner_gates_minting() {
    let admin = account(9);
    let next = account(5);
    let mut ledger = Ledger::init(admin);
    assert_eq!(ledger.change_owner(next, next), Err(TransferError::Unauthorized));
    assert!(ledger.is_owner(admin));

    assert_eq!(ledger.change_owner(admin, next), Ok(()));
    assert!(ledger.is_owner(next));
    assert!(!ledger.is_owner(admin));
    assert_eq!(ledger.mint(admin, admin, 5, 1), Err(TransferError::Unauthorized));
    assert_eq!(ledger.mint(next, next, 5, 2), Ok(true));
}

#[test]
fn token_info_reports_metadata() {
    let a = account(1);
    let ledger = Ledger::init(a);
    let info = ledger.get_token_info();
    assert_eq!(info.name, "ICP Token");
    assert_eq!(info.symbol, "ICPT");
    assert_eq!(info.decimals, 8);
    assert_eq!(info.total_supply, 0);
}
