use kitties::erc20::{Approval, Erc20, Error, TokenEvent, Transfer};

#[test]
fn new_token_credits_creator_and_logs_creation() {
    let t = Erc20::new(1, 1000);
    assert_eq!(t.total_supply(), 1000);
    assert_eq!(t.balance_of(1), 1000);
    assert_eq!(t.balance_of(2), 0);
    assert_eq!(t.events(), &vec![TokenEvent::Transfer(Transfer { from: None, to: Some(1), value: 1000 })]);
}

#[test]
fn token_transfer_moves_balance() {
    let mut t = Erc20::new(1, 1000);
    assert_eq!(t.transfer(1, 2, 300), Ok(()));
    assert_eq!(t.balance_of(1), 700);
    assert_eq!(t.balance_of(2), 300);
    assert_eq!(t.events().last(), Some(&TokenEvent::Transfer(Transfer { from: Some(1), to: Some(2), value: 300 })));
}

#[test]
fn token_transfer_to_self_keeps_balance() {
    let mut t = Erc20::new(1, 1000);
    assert_eq!(t.transfer(1, 1, 400), Ok(()));
    assert_eq!(t.balance_of(1), 1000);
}

#[test]
fn token_transfer_fails_without_funds() {
    let mut t = Erc20::new(1, 1000);
    assert_eq!(t.transfer(2, 1, 1), Err(Error::InsufficientBalance));
    assert_eq!(t.transfer(1, 2, 1001), Err(Error::InsufficientBalance));
    assert_eq!(t.balance_of(1), 1000);
    assert_eq!(t.events().len(), 1);
}

#[test]
fn token_transfer_of_whole_supply() {
    let mut t = Erc20::new(1, u128::MAX);
    assert_eq!(t.approve(1, 2, 5), Ok(()));
    assert_eq!(t.inner_transfer(1, 2, 5), Ok(()));
    assert_eq!(t.balance_of(2), 5);
}

#[test]
fn token_approve_and_transfer_from() {
    let mut t = Erc20::new(1, 1000);
    assert_eq!(t.approve(1, 2, 500), Ok(()));
    assert_eq!(t.allowance(1, 2), 500);
    assert_eq!(t.events().last(), Some(&TokenEvent::Approval(Approval { owner: 1, spender: 2, value: 500 })));
    assert_eq!(t.transfer_from(2, 1, 3, 200), Ok(()));
    assert_eq!(t.allowance(1, 2), 300);
    assert_eq!(t.balance_of(1), 800);
    assert_eq!(t.balance_of(3), 200);
}

#[test]
fn token_transfer_from_needs_approval() {
    let mut t = Erc20::new(1, 1000);
    assert_eq!(t.approve(1, 2, 100), Ok(()));
    assert_eq!(t.transfer_from(2, 1, 3, 101), Err(Error::InsufficientApproval));
    assert_eq!(t.allowance(1, 2), 100);
    assert_eq!(t.balance_of(1), 1000);
}

#[test]
fn token_transfer_from_keeps_allowance_when_balance_short() {
    let mut t = Erc20::new(1, 1000);
    assert_eq!(t.transfer(1, 2, 950), Ok(()));
    assert_eq!(t.approve(1, 3, 100), Ok(()));
    assert_eq!(t.transfer_from(3, 1, 3, 60), Err(Error::InsufficientBalance));
    assert_eq!(t.allowance(1, 3), 100);
}
