use kitties::balances::{BalanceError, Balances};
use kitties::dna::{gen_dna, gen_gender, mix_dna_bytes};
use kitties::pallet::{GenesisConfig, Pallet};
use kitties::types::{Config, Entropy, Error, Event, Gender, Kitty};

fn ledger(max_owned: u32, fee: u128, funds: &[(u64, u128)]) -> Pallet {
    let mut balances = Balances::new(500);
    for (who, amount) in funds {
        balances.set_free_balance(*who, *amount);
    }
    Pallet::new(Config { max_kitty_owned: max_owned, reservation_fee: fee }, balances)
}

fn entropy(n: u8) -> Entropy {
    Entropy { dna_seed: [n; 32], gender_seed: [n; 32], block_number: 1 }
}

#[test]
fn scenario_mint_with_enough_balance() {
    let mut p = ledger(3, 1000, &[(1, 5000)]);
    assert_eq!(p.create_kitty(1, &entropy(0)), Ok(0));
    assert_eq!(p.owner(0), Some(1));
    assert_eq!(p.kitties_count(), 1);
    assert_eq!(p.free_balance(1), 4000);
    assert_eq!(p.reserved_balance(1), 1000);
    assert_eq!(p.kitties_owned(1), vec![0]);
    assert_eq!(p.events(), &vec![Event::KittyCreated(1, 0, 1000)]);
    let k = p.kitties(0).unwrap();
    assert_eq!(k.price, None);
    assert_eq!(k.dna, gen_dna(&[0; 32], 1));
    assert_eq!(k.gender, Gender::Male);
}

#[test]
fn scenario_mint_with_low_balance() {
    let mut p = ledger(3, 1000, &[(1, 999)]);
    assert_eq!(p.create_kitty(1, &entropy(0)), Err(Error::NotEnoughBalance));
    assert_eq!(p.kitties_count(), 0);
    assert_eq!(p.free_balance(1), 999);
    assert_eq!(p.reserved_balance(1), 0);
}

#[test]
fn scenario_buy_pays_seller_and_clears_price() {
    let mut p = ledger(3, 1000, &[(1, 5000), (2, 600)]);
    assert_eq!(p.create_kitty(1, &entropy(0)), Ok(0));
    assert_eq!(p.set_price(1, 0, Some(10)), Ok(()));
    let seller_before = p.free_balance(1);
    assert_eq!(p.buy_kitty(2, 0, 11), Ok(11));
    assert_eq!(p.owner(0), Some(2));
    assert_eq!(p.kitties(0).unwrap().price, None);
    assert_eq!(p.free_balance(1), seller_before + 11);
    assert_eq!(p.free_balance(2), 589);
    assert_eq!(p.kitties_owned(1), Vec::<u64>::new());
    assert_eq!(p.kitties_owned(2), vec![0]);
    assert_eq!(p.events().last(), Some(&Event::KittyBought(2, 1, 0, 11, 0)));
}

#[test]
fn buy_releases_the_buyers_reservation() {
    let mut p = ledger(3, 1000, &[(1, 5000), (2, 5000)]);
    assert_eq!(p.create_kitty(1, &entropy(0)), Ok(0));
    assert_eq!(p.create_kitty(2, &entropy(1)), Ok(1));
    assert_eq!(p.set_price(1, 0, Some(100)), Ok(()));
    assert_eq!(p.buy_kitty(2, 0, 100), Ok(100));
    assert_eq!(p.reserved_balance(2), 0);
    assert_eq!(p.free_balance(2), 4000 - 100 + 1000);
    assert_eq!(p.reserved_balance(1), 1000);
    assert_eq!(p.events().last(), Some(&Event::KittyBought(2, 1, 0, 100, 1000)));
}

#[test]
fn buy_refused_when_payer_would_fall_below_existential_deposit() {
    let mut p = ledger(3, 1000, &[(1, 5000), (2, 600)]);
    assert_eq!(p.create_kitty(1, &entropy(0)), Ok(0));
    assert_eq!(p.set_price(1, 0, Some(200)), Ok(()));
    assert_eq!(p.buy_kitty(2, 0, 200), Err(Error::NotEnoughBalance));
    assert_eq!(p.owner(0), Some(1));
    assert_eq!(p.free_balance(2), 600);
}

#[test]
fn scenario_transfer_to_self_refused() {
    let mut p = ledger(3, 1000, &[(1, 5000)]);
    assert_eq!(p.create_kitty(1, &entropy(0)), Ok(0));
    assert_eq!(p.transfer(1, 1, 0), Err(Error::TransferToSelf));
    assert_eq!(p.owner(0), Some(1));
}

#[test]
fn scenario_fourth_mint_exceeds_cap() {
    let mut p = ledger(3, 1000, &[(1, 10_000)]);
    for i in 0..3u64 {
        assert_eq!(p.create_kitty(1, &entropy(i as u8)), Ok(i));
    }
    assert_eq!(p.create_kitty(1, &entropy(9)), Err(Error::ExceedMaxKittyOwned));
    assert_eq!(p.kitties_count(), 3);
    assert_eq!(p.reserved_balance(1), 3000);
    assert_eq!(p.free_balance(1), 7000);
}

#[test]
fn ids_are_sequential_across_mint_and_breed() {
    let mut p = ledger(10, 10, &[(1, 10_000), (2, 10_000)]);
    assert_eq!(p.create_kitty(1, &entropy(0)), Ok(0));
    assert_eq!(p.create_kitty(2, &entropy(1)), Ok(1));
    assert_eq!(p.transfer(2, 1, 1), Ok(()));
    assert_eq!(p.breed_kitty(1, 0, 1, &entropy(2)), Ok(2));
    assert_eq!(p.mint(2, None, None, &entropy(3)), Ok(3));
    assert_eq!(p.create_kitty(1, &entropy(4)), Ok(4));
    assert_eq!(p.kitties_count(), 5);
}

#[test]
fn every_kitty_listed_under_its_owner_only() {
    let mut p = ledger(3, 10, &[(1, 10_000), (2, 10_000), (3, 10_000)]);
    assert_eq!(p.create_kitty(1, &entropy(0)), Ok(0));
    assert_eq!(p.create_kitty(1, &entropy(1)), Ok(1));
    assert_eq!(p.create_kitty(2, &entropy(2)), Ok(2));
    assert_eq!(p.transfer(1, 3, 0), Ok(()));
    assert_eq!(p.set_price(2, 2, Some(50)), Ok(()));
    assert_eq!(p.buy_kitty(1, 2, 50), Ok(50));
    for id in 0..p.kitties_count() {
        let owner = p.owner(id).unwrap();
        for a in 0..5u64 {
            let listed = p.kitties_owned(a).contains(&id);
            assert_eq!(listed, a == owner);
        }
    }
    assert_eq!(p.kitties_owned(1), vec![1, 2]);
}

#[test]
fn transfer_clears_price() {
    let mut p = ledger(3, 10, &[(1, 10_000)]);
    assert_eq!(p.create_kitty(1, &entropy(0)), Ok(0));
    assert_eq!(p.set_price(1, 0, Some(7)), Ok(()));
    assert_eq!(p.transfer(1, 2, 0), Ok(()));
    assert_eq!(p.kitties(0).unwrap().price, None);
    assert_eq!(p.events().last(), Some(&Event::KittyTransferred(1, 2, 0)));
}

#[test]
fn low_bid_leaves_owner_and_price() {
    let mut p = ledger(3, 10, &[(1, 10_000), (2, 10_000)]);
    assert_eq!(p.create_kitty(1, &entropy(0)), Ok(0));
    assert_eq!(p.set_price(1, 0, Some(100)), Ok(()));
    assert_eq!(p.buy_kitty(2, 0, 99), Err(Error::KittyBidPriceTooLow));
    assert_eq!(p.owner(0), Some(1));
    assert_eq!(p.kitties(0).unwrap().price, Some(100));
}

#[test]
fn bred_genome_takes_each_bit_from_a_parent() {
    let mut p = ledger(5, 10, &[(1, 10_000)]);
    assert_eq!(p.mint(1, Some([0x0f; 16]), Some(Gender::Male), &entropy(0)), Ok(0));
    assert_eq!(p.mint(1, Some([0xf0; 16]), Some(Gender::Female), &entropy(0)), Ok(1));
    let e = entropy(5);
    let mask = gen_dna(&e.dna_seed, e.block_number);
    assert_eq!(p.breed_kitty(1, 0, 1, &e), Ok(2));
    let child = p.kitties(2).unwrap();
    for i in 0..16 {
        assert_eq!(child.dna[i], (mask[i] & 0x0f) | (!mask[i] & 0xf0));
    }
    assert_eq!(child.gender, gen_gender(&e.gender_seed));
    assert_eq!(p.reserved_balance(1), 10);
    assert_eq!(p.events().last(), Some(&Event::KittyBreed(1, 2)));
}

#[test]
fn breed_needs_existing_parents() {
    let mut p = ledger(5, 10, &[(1, 10_000)]);
    assert_eq!(p.create_kitty(1, &entropy(0)), Ok(0));
    assert_eq!(p.breed_kitty(1, 0, 4, &entropy(1)), Err(Error::KittyNotExist));
    assert_eq!(p.breed_dna(0, 4, &entropy(1)), Err(Error::KittyNotExist));
    assert_eq!(p.breed_kitty(1, 0, 0, &entropy(1)), Ok(1));
}

#[test]
fn mix_picks_bits_by_mask() {
    assert_eq!(mix_dna_bytes(&[0xff; 16], &[0xaa; 16], &[0x55; 16]), [0xaa; 16]);
    assert_eq!(mix_dna_bytes(&[0x00; 16], &[0xaa; 16], &[0x55; 16]), [0x55; 16]);
    assert_eq!(mix_dna_bytes(&[0xf0; 16], &[0x12; 16], &[0x34; 16]), [0x14; 16]);
}

#[test]
fn gen_dna_hashes_seed_and_height() {
    let a = gen_dna(&[1; 32], 1);
    assert_eq!(a, gen_dna(&[1; 32], 1));
    assert_ne!(a, gen_dna(&[1; 32], 2));
    assert_ne!(a, gen_dna(&[2; 32], 1));
    assert_ne!(a, [1; 16]);
    assert_ne!(gen_dna(&[0; 32], 0), [0; 16]);
}

#[test]
fn gen_gender_follows_first_byte_parity() {
    assert_eq!(gen_gender(&[4; 32]), Gender::Male);
    assert_eq!(gen_gender(&[7; 32]), Gender::Female);
}

#[test]
fn mint_uses_supplied_genome_without_fee() {
    let mut p = ledger(3, 1000, &[(1, 0)]);
    assert_eq!(p.mint(1, Some([9; 16]), Some(Gender::Female), &entropy(0)), Ok(0));
    assert_eq!(
        p.kitties(0),
        Some(Kitty { dna: [9; 16], price: None, gender: Gender::Female, owner: 1 })
    );
    assert_eq!(p.reserved_balance(1), 0);
    assert!(p.events().is_empty());
}

#[test]
fn is_kitty_owner_reports() {
    let mut p = ledger(3, 10, &[(1, 100)]);
    assert_eq!(p.create_kitty(1, &entropy(0)), Ok(0));
    assert_eq!(p.is_kitty_owner(0, 1), Ok(true));
    assert_eq!(p.is_kitty_owner(0, 2), Ok(false));
    assert_eq!(p.is_kitty_owner(1, 1), Err(Error::KittyNotExist));
}

#[test]
fn transfer_kitty_to_same_owner_keeps_listing() {
    let mut p = ledger(2, 10, &[(1, 100)]);
    assert_eq!(p.create_kitty(1, &entropy(0)), Ok(0));
    assert_eq!(p.create_kitty(1, &entropy(1)), Ok(1));
    assert_eq!(p.transfer_kitty_to(0, 1), Ok(()));
    assert_eq!(p.kitties_owned(1), vec![1, 0]);
    assert_eq!(p.transfer_kitty_to(5, 1), Err(Error::KittyNotExist));
}

#[test]
fn genesis_mints_listed_kitties() {
    let mut p = ledger(2, 1000, &[]);
    let g = GenesisConfig { kitties: vec![(1, [1; 16], Gender::Male), (2, [2; 16], Gender::Female)] };
    assert_eq!(g.build(&mut p), Ok(()));
    assert_eq!(p.kitties_count(), 2);
    assert_eq!(p.kitties(1), Some(Kitty { dna: [2; 16], price: None, gender: Gender::Female, owner: 2 }));
    assert_eq!(p.kitties_owned(1), vec![0]);
    let empty = GenesisConfig::default();
    assert_eq!(empty.build(&mut p), Ok(()));
    assert_eq!(p.kitties_count(), 2);
}

#[test]
fn genesis_fails_past_cap() {
    let mut p = ledger(1, 1000, &[]);
    let g = GenesisConfig { kitties: vec![(1, [1; 16], Gender::Male), (1, [2; 16], Gender::Female)] };
    assert_eq!(g.build(&mut p), Err(Error::ExceedMaxKittyOwned));
}

#[test]
fn balances_reserve_unreserve_transfer() {
    let mut b = Balances::new(500);
    b.set_free_balance(1, 1000);
    assert_eq!(b.reserve(1, 1001), Err(BalanceError::InsufficientBalance));
    assert_eq!(b.reserve(1, 300), Ok(()));
    assert_eq!((b.free_balance(1), b.reserved_balance(1)), (700, 300));
    assert_eq!(b.unreserve(1, 1000), 300);
    assert_eq!((b.free_balance(1), b.reserved_balance(1)), (1000, 0));
    assert_eq!(b.transfer(1, 2, 100), Err(BalanceError::ExistentialDeposit));
    assert_eq!(b.transfer(1, 2, 501), Err(BalanceError::KeepAlive));
    assert_eq!(b.transfer(1, 2, 500), Ok(()));
    assert_eq!((b.free_balance(1), b.free_balance(2)), (500, 500));
    b.set_free_balance(3, u128::MAX);
    assert_eq!(b.transfer(1, 3, 1), Err(BalanceError::Overflow));
}
