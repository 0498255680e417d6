use memecoin::{Deployment, LedgerError, MemeCoin};

fn active() -> Deployment {
    let mut d = Deployment::uninitialized();
    assert_eq!(d.initialize(), Ok(()));
    d
}

fn alice() -> String {
    "alice".to_string()
}

#[test]
fn scenario_mint_then_balance() {
    let mut d = active();
    assert_eq!(d.mint(alice(), 100, 2), Ok(()));
    assert_eq!(d.get_balance(alice()), Ok(100));
    assert_eq!(d.total_supply(), Ok(100));
}

#[test]
fn scenario_payment_gate_rejects_zero() {
    let mut d = active();
    assert_eq!(d.mint(alice(), 100, 2), Ok(()));
    assert_eq!(d.mint(alice(), 50, 0), Err(LedgerError::InsufficientPayment));
    assert_eq!(d.get_balance(alice()), Ok(100));
    assert_eq!(d.total_supply(), Ok(100));
}

#[test]
fn scenario_two_mints_accumulate() {
    let mut d = active();
    assert_eq!(d.mint(alice(), 100, 2), Ok(()));
    assert_eq!(d.mint(alice(), 25, 2), Ok(()));
    assert_eq!(d.mint(alice(), 25, 2), Ok(()));
    assert_eq!(d.get_balance(alice()), Ok(150));
    assert_eq!(d.total_supply(), Ok(150));
}

#[test]
fn scenario_unminted_account_is_zero() {
    let mut d = active();
    assert_eq!(d.get_balance("bob".to_string()), Ok(0));
    assert_eq!(d.mint(alice(), 10, 2), Ok(()));
    assert_eq!(d.get_balance("bob".to_string()), Ok(0));
}

#[test]
fn scenario_initialize_twice_fails() {
    let mut d = active();
    assert_eq!(d.mint(alice(), 7, 5), Ok(()));
    assert_eq!(d.initialize(), Err(LedgerError::AlreadyInitialized));
    assert_eq!(d.get_balance(alice()), Ok(7));
    assert_eq!(d.total_supply(), Ok(7));
}

#[test]
fn payment_of_exactly_one_unit_is_refused() {
    let mut d = active();
    assert_eq!(d.mint(alice(), 5, 1), Err(LedgerError::InsufficientPayment));
    assert_eq!(d.get_balance(alice()), Ok(0));
    assert_eq!(d.total_supply(), Ok(0));
    assert_eq!(d.mint(alice(), 5, 2), Ok(()));
    assert_eq!(d.get_balance(alice()), Ok(5));
}

#[test]
fn calls_before_initialize_fail() {
    let mut d = Deployment::uninitialized();
    assert_eq!(d.mint(alice(), 5, 2), Err(LedgerError::NotInitialized));
    assert_eq!(d.get_balance(alice()), Err(LedgerError::NotInitialized));
    assert_eq!(d.total_supply(), Err(LedgerError::NotInitialized));
    assert_eq!(d.initialize(), Ok(()));
    assert_eq!(d.get_balance(alice()), Ok(0));
}

#[test]
fn supply_equals_sum_of_balances() {
    let mut c = MemeCoin::new();
    assert_eq!(c.mint(alice(), 30, 2), Ok(()));
    assert_eq!(c.mint("bob".to_string(), 12, 3), Ok(()));
    assert_eq!(c.mint("carol.near".to_string(), 0, 2), Ok(()));
    assert_eq!(c.mint(alice(), 8, 2), Ok(()));
    let sum = c.get_balance(alice())
        + c.get_balance("bob".to_string())
        + c.get_balance("carol.near".to_string());
    assert_eq!(c.get_balance(alice()), 38);
    assert_eq!(c.get_balance("bob".to_string()), 12);
    assert_eq!(c.get_balance("carol.near".to_string()), 0);
    assert_eq!(c.total_supply(), 50);
    assert_eq!(sum, 50);
}

#[test]
fn fresh_ledger_has_nothing() {
    let c = MemeCoin::new();
    assert_eq!(c.total_supply(), 0);
    assert_eq!(c.get_balance(alice()), 0);
    assert_eq!(c.get_balance(String::new()), 0);
}

#[test]
fn largest_supply_is_reached_then_refused() {
    let mut c = MemeCoin::new();
    assert_eq!(c.mint(alice(), u128::MAX - 1, 2), Ok(()));
    assert_eq!(c.mint("bob".to_string(), 1, 2), Ok(()));
    assert_eq!(c.total_supply(), u128::MAX);
    assert_eq!(c.mint("bob".to_string(), 1, 2), Err(LedgerError::SupplyOverflow));
    assert_eq!(c.get_balance("bob".to_string()), 1);
    assert_eq!(c.get_balance(alice()), u128::MAX - 1);
    assert_eq!(c.total_supply(), u128::MAX);
}

#[test]
fn balances_are_kept_per_account() {
    let mut c = MemeCoin::new();
    assert_eq!(c.mint("ab".to_string(), 3, 2), Ok(()));
    assert_eq!(c.mint("a".to_string(), 4, 2), Ok(()));
    assert_eq!(c.get_balance("ab".to_string()), 3);
    assert_eq!(c.get_balance("a".to_string()), 4);
    assert_eq!(c.get_balance("b".to_string()), 0);
}

#[test]
fn refused_mint_changes_nothing_on_active_ledger() {
    let mut c = MemeCoin::new();
    assert_eq!(c.mint(alice(), 9, 3), Ok(()));
    assert_eq!(c.mint(alice(), 4, 0), Err(LedgerError::InsufficientPayment));
    assert_eq!(c.mint("dave".to_string(), 4, 1), Err(LedgerError::InsufficientPayment));
    assert_eq!(c.get_balance(alice()), 9);
    assert_eq!(c.get_balance("dave".to_string()), 0);
    assert_eq!(c.total_supply(), 9);
}

#[test]
fn persisted_parts_rebuild_the_same_ledger() {
    let mut c = MemeCoin::new();
    assert_eq!(c.mint(alice(), 21, 2), Ok(()));
    let (balances, total_supply) = c.into_parts();
    assert_eq!(total_supply, 21);
    let mut c = MemeCoin::from_parts(balances, total_supply);
    assert_eq!(c.get_balance(alice()), 21);
    assert_eq!(c.mint(alice(), 1, 2), Ok(()));
    assert_eq!(c.get_balance(alice()), 22);
    assert_eq!(c.total_supply(), 22);
}

#[test]
fn one_entry_per_account() {
    let mut c = MemeCoin::new();
    assert_eq!(c.mint(alice(), 2, 2), Ok(()));
    assert_eq!(c.mint("bob".to_string(), 3, 2), Ok(()));
    assert_eq!(c.mint(alice(), 4, 2), Ok(()));
    let (entries, total_supply) = c.into_parts();
    assert_eq!(entries, vec![(alice(), 6), ("bob".to_string(), 3)]);
    assert_eq!(total_supply, 9);
}
