use kitties::balances::Balances;
use kitties::pallet::Pallet;
use kitties::types::{Config, Entropy, Error, Event, Gender, Kitty};

const MAX_KITTY_OWNED: u32 = 3;
const RESERVATION_FEE: u128 = 1000;
const EXISTENTIAL_DEPOSIT: u128 = 500;

/// Accounts 1 and 2 are rich, account 3 holds less than one fee.
fn new_test_ext() -> Pallet {
    let mut balances = Balances::new(EXISTENTIAL_DEPOSIT);
    balances.set_free_balance(1, 10_000_000_000);
    balances.set_free_balance(2, 10_000_000_000);
    balances.set_free_balance(3, 900);
    Pallet::new(
        Config { max_kitty_owned: MAX_KITTY_OWNED, reservation_fee: RESERVATION_FEE },
        balances,
    )
}

fn entropy(n: u8) -> Entropy {
    Entropy { dna_seed: [n; 32], gender_seed: [n; 32], block_number: 1 }
}

fn create(p: &mut Pallet, who: u64) -> u64 {
    let n = p.kitties_count() as u8;
    p.create_kitty(who, &entropy(n)).unwrap()
}

/// Everything a refused operation must leave as it was.
fn snapshot(p: &Pallet) -> (u64, Vec<Option<Kitty>>, Vec<Vec<u64>>, Vec<(u128, u128)>, usize) {
    let kitties = (0..p.kitties_count() + 1).map(|i| p.kitties(i)).collect();
    let owned = (0..5).map(|a| p.kitties_owned(a)).collect();
    let bal = (0..5).map(|a| (p.free_balance(a), p.reserved_balance(a))).collect();
    (p.kitties_count(), kitties, owned, bal, p.events().len())
}

fn assert_noop<T: std::fmt::Debug>(p: &mut Pallet, f: impl FnOnce(&mut Pallet) -> Result<T, Error>, e: Error) {
    let before = snapshot(p);
    let r = f(p);
    assert_eq!(r.unwrap_err(), e);
    assert_eq!(snapshot(p), before);
}

#[test]
fn create_kitty_works() {
    let mut p = new_test_ext();
    assert_eq!(p.create_kitty(1, &entropy(0)), Ok(0));
    assert_eq!(p.kitties_count(), 1);
    assert_eq!(p.owner(0), Some(1));
}

#[test]
fn create_kitty_failed_when_sender_has_less_balance() {
    let mut p = new_test_ext();
    assert_noop(&mut p, |p| p.create_kitty(3, &entropy(0)), Error::NotEnoughBalance);
}

#[test]
fn set_price_works() {
    let mut p = new_test_ext();
    create(&mut p, 1);
    assert_eq!(p.set_price(1, 0, Some(10)), Ok(()));
    assert_eq!(p.kitties(0).unwrap().price, Some(10));
}

#[test]
fn set_price_failed_when_sender_is_not_owner() {
    let mut p = new_test_ext();
    create(&mut p, 1);
    assert_noop(&mut p, |p| p.set_price(2, 0, Some(10)), Error::NotKittyOwner);
}

#[test]
fn set_price_failed_when_invalid_kitty_id() {
    let mut p = new_test_ext();
    create(&mut p, 1);
    assert_noop(&mut p, |p| p.set_price(1, 1, Some(10)), Error::KittyNotExist);
}

#[test]
fn transfer_works() {
    let mut p = new_test_ext();
    create(&mut p, 1);
    assert_eq!(p.transfer(1, 2, 0), Ok(()));
    assert_eq!(p.owner(0), Some(2));
}

#[test]
fn transfer_failed_when_sender_is_not_owner() {
    let mut p = new_test_ext();
    create(&mut p, 1);
    assert_noop(&mut p, |p| p.transfer(2, 3, 0), Error::NotKittyOwner);
}

#[test]
fn transfer_failed_when_transfer_to_self() {
    let mut p = new_test_ext();
    create(&mut p, 1);
    assert_noop(&mut p, |p| p.transfer(1, 1, 0), Error::TransferToSelf);
}

#[test]
fn transfer_failed_when_kitties_is_out_of_limit() {
    let mut p = new_test_ext();
    create(&mut p, 2);
    create(&mut p, 1);
    create(&mut p, 1);
    create(&mut p, 1);
    assert_noop(&mut p, |p| p.transfer(2, 1, 0), Error::ExceedMaxKittyOwned);
}

#[test]
fn transfer_failed_when_invalid_kitty_id() {
    let mut p = new_test_ext();
    create(&mut p, 1);
    assert_noop(&mut p, |p| p.transfer(1, 2, 1), Error::KittyNotExist);
}

#[test]
fn buy_kitty_works() {
    let mut p = new_test_ext();
    create(&mut p, 1);
    assert_eq!(p.set_price(1, 0, Some(10)), Ok(()));
    assert_eq!(p.buy_kitty(2, 0, 11), Ok(11));
    assert_eq!(p.owner(0), Some(2));
}

#[test]
fn buy_kitty_failed_when_invalid_kitty_id() {
    let mut p = new_test_ext();
    create(&mut p, 1);
    assert_eq!(p.set_price(1, 0, Some(10)), Ok(()));
    assert_noop(&mut p, |p| p.buy_kitty(2, 1, 11), Error::KittyNotExist);
}

#[test]
fn buy_kitty_failed_when_buyer_is_owner() {
    let mut p = new_test_ext();
    create(&mut p, 1);
    assert_eq!(p.set_price(1, 0, Some(10)), Ok(()));
    assert_noop(&mut p, |p| p.buy_kitty(1, 0, 11), Error::BuyerIsKittyOwner);
}

#[test]
fn buy_kitty_failed_when_bid_price_too_low() {
    let mut p = new_test_ext();
    create(&mut p, 1);
    assert_eq!(p.set_price(1, 0, Some(10)), Ok(()));
    assert_noop(&mut p, |p| p.buy_kitty(2, 0, 9), Error::KittyBidPriceTooLow);
}

#[test]
fn buy_kitty_failed_when_kitty_not_for_sale() {
    let mut p = new_test_ext();
    create(&mut p, 1);
    assert_noop(&mut p, |p| p.buy_kitty(2, 0, 10), Error::KittyNotForSale);
}

#[test]
fn buy_kitty_failed_when_not_enough_balance() {
    let mut p = new_test_ext();
    create(&mut p, 1);
    assert_eq!(p.set_price(1, 0, Some(100)), Ok(()));
    assert_noop(&mut p, |p| p.buy_kitty(3, 0, 10000000), Error::NotEnoughBalance);
}

#[test]
fn buy_kitty_failed_when_buyer_kitty_over_limited() {
    let mut p = new_test_ext();
    create(&mut p, 2);
    create(&mut p, 1);
    create(&mut p, 1);
    create(&mut p, 1);
    assert_eq!(p.set_price(2, 0, Some(10)), Ok(()));
    assert_noop(&mut p, |p| p.buy_kitty(1, 0, 11), Error::ExceedMaxKittyOwned);
}

#[test]
fn breed_kitty_works() {
    let mut p = new_test_ext();
    create(&mut p, 1);
    create(&mut p, 1);
    assert_eq!(p.breed_kitty(1, 0, 1, &entropy(7)), Ok(2));
    assert_eq!(p.kitties_owned(1).len(), 3);
}

#[test]
fn breed_kitty_failed_when_parent_is_not_owned_by_sender() {
    let mut p = new_test_ext();
    create(&mut p, 1);
    create(&mut p, 1);
    assert_noop(&mut p, |p| p.breed_kitty(2, 0, 1, &entropy(7)), Error::NotKittyOwner);
}

#[test]
fn breed_kitty_failed_when_kitties_is_out_of_limit() {
    let mut p = new_test_ext();
    create(&mut p, 1);
    create(&mut p, 1);
    create(&mut p, 1);
    assert_noop(&mut p, |p| p.breed_kitty(1, 0, 1, &entropy(7)), Error::ExceedMaxKittyOwned);
}
