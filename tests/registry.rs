use kitties::dna::random_value;
use kitties::simple_kitties::{Error, Event, Kitty, Pallet, RandomSource};

fn src(n: u8) -> RandomSource {
    RandomSource { random_seed: [n; 32], extrinsic_index: Some(n as u32) }
}

#[test]
fn registry_create_assigns_ids_from_zero() {
    let mut p = Pallet::new();
    assert_eq!(p.kitties_count(), None);
    assert_eq!(p.create(1, &src(0)), Ok(0));
    assert_eq!(p.create(2, &src(1)), Ok(1));
    assert_eq!(p.kitties_count(), Some(2));
    assert_eq!(p.owner(1), Some(2));
    assert_eq!(p.kitties(0), Some(Kitty(random_value(&[0; 32], 1, Some(0)))));
    assert_eq!(p.events(), &vec![Event::KittyCreate(1, 0), Event::KittyCreate(2, 1)]);
}

#[test]
fn registry_random_value_depends_on_sender_and_index() {
    let a = random_value(&[3; 32], 1, Some(0));
    assert_eq!(a, random_value(&[3; 32], 1, Some(0)));
    assert_ne!(a, random_value(&[3; 32], 2, Some(0)));
    assert_ne!(a, random_value(&[3; 32], 1, None));
    assert_ne!(a, random_value(&[3; 32], 1, Some(1)));
    assert_ne!(a, [3; 16]);
}

#[test]
fn registry_transfer_needs_owner() {
    let mut p = Pallet::new();
    assert_eq!(p.create(1, &src(0)), Ok(0));
    assert_eq!(p.transfer(2, 3, 0), Err(Error::NotOwner));
    assert_eq!(p.transfer(1, 3, 5), Err(Error::NotOwner));
    assert_eq!(p.transfer(1, 3, 0), Ok(()));
    assert_eq!(p.owner(0), Some(3));
    assert_eq!(p.events().last(), Some(&Event::KittyTransfer(1, 3, 0)));
}

#[test]
fn registry_breed_mixes_parents() {
    let mut p = Pallet::new();
    assert_eq!(p.create(1, &src(0)), Ok(0));
    assert_eq!(p.create(1, &src(1)), Ok(1));
    assert_eq!(p.breed(1, 0, 0, &src(2)), Err(Error::SameKittyIndex));
    assert_eq!(p.breed(1, 0, 7, &src(2)), Err(Error::InvalidKittyIndex));
    assert_eq!(p.breed(5, 0, 1, &src(2)), Ok(2));
    let d1 = p.kitties(0).unwrap().0;
    let d2 = p.kitties(1).unwrap().0;
    let sel = random_value(&[2; 32], 5, Some(2));
    let child = p.kitties(2).unwrap().0;
    for i in 0..16 {
        assert_eq!(child[i], (sel[i] & d1[i]) | (!sel[i] & d2[i]));
    }
    assert_eq!(p.owner(2), Some(5));
    assert_eq!(p.kitties_count(), Some(3));
}
