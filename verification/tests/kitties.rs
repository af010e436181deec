use kitties::currency::Balances;
use kitties::dispatch::{DispatchError, Origin};
use kitties::kitties::{breed_dna, Config, Error, Event, Kitty, Pallet, RandomnessSource};
use parity_scale_codec::Encode;

const RESERVE: u128 = 10;
const MAX_OWNED: u32 = 4;

fn source() -> RandomnessSource {
    RandomnessSource { random_seed: [7u8; 32], seed_block: 3, extrinsic_index: Some(1) }
}

/// Accounts 0, 1 and 2 hold 100, 98 and 50; every other account holds nothing.
fn new_test_ext() -> Pallet {
    let balances = Balances::from_genesis(&vec![(0, 100), (1, 98), (2, 50)]);
    Pallet::new(Config { max_kitty_index: MAX_OWNED, reserve_for_create_kitty: RESERVE }, balances)
}

fn create(p: &mut Pallet, who: u64) -> Result<(), DispatchError> {
    p.create(Origin::Signed(who), &source())
}

fn breed(p: &mut Pallet, who: u64, a: u32, b: u32) -> Result<(), DispatchError> {
    p.breed(Origin::Signed(who), a, b, &source())
}

/// Everything a caller can observe of the pallet for the accounts 0..8 and
/// the kitties 0..16.
#[derive(Debug, PartialEq)]
struct Snapshot {
    next: u32,
    kitties: Vec<Option<Kitty>>,
    owners: Vec<Option<u64>>,
    lists: Vec<Vec<u32>>,
    balances: Vec<(u128, u128)>,
    events: Vec<Event>,
}

fn snapshot(p: &Pallet) -> Snapshot {
    Snapshot {
        next: p.next_kitty_id(),
        kitties: (0..16).map(|k| p.kitties(k)).collect(),
        owners: (0..16).map(|k| p.kitty_owner(k)).collect(),
        lists: (0..8).map(|a| p.all_kitties(a)).collect(),
        balances: (0..8)
            .map(|a| (p.currency().free_balance(a), p.currency().reserved_balance(a)))
            .collect(),
        events: p.events().clone(),
    }
}

fn assert_noop(p: &mut Pallet, call: impl FnOnce(&mut Pallet) -> Result<(), DispatchError>, e: DispatchError) {
    let before = snapshot(p);
    assert_eq!(call(p), Err(e));
    assert_eq!(snapshot(p), before);
}

fn expected_random(src: &RandomnessSource, who: u64) -> [u8; 16] {
    let payload = ((src.random_seed, src.seed_block), who, src.extrinsic_index);
    sp_io::hashing::blake2_128(&payload.encode())
}

#[test]
fn create_kitty_works() {
    let mut p = new_test_ext();
    let account_id: u64 = 1;
    let kitty_id: u32 = p.next_kitty_id();
    assert_eq!(kitty_id, 0);
    assert_eq!(create(&mut p, account_id), Ok(()));
    assert_eq!(p.all_kitties(1).len(), 1);
    assert_eq!(p.next_kitty_id(), 1);
    assert_eq!(p.next_kitty_id(), kitty_id.checked_add(1).unwrap());
    assert_ne!(p.kitties(kitty_id), None);
    let acc = p.kitty_owner(kitty_id).unwrap();
    assert_eq!(acc, account_id);
    assert_eq!(p.all_kitties(5).len(), 0);
    assert_eq!(create(&mut p, account_id), Ok(()));
    assert_eq!(p.all_kitties(1).len(), 2);
    assert_eq!(p.next_kitty_id(), 2);
}

#[test]
fn create_kitty_not_enough_balance_should_fail() {
    let mut p = new_test_ext();
    assert_noop(&mut p, |p| create(p, 5), DispatchError::Module(Error::NotEnoughBalance));
}

#[test]
fn create_kitty_exceed_max_kitty_owned_should_fail() {
    let mut p = new_test_ext();
    assert_eq!(create(&mut p, 1), Ok(()));
    assert_eq!(create(&mut p, 1), Ok(()));
    assert_eq!(create(&mut p, 1), Ok(()));
    assert_eq!(create(&mut p, 1), Ok(()));
    assert_noop(&mut p, |p| create(p, 1), DispatchError::Module(Error::ExceedMaxKittyOwned));
}

#[test]
fn create_kitty_count_overflow_should_fail() {
    let mut p = new_test_ext();
    p.set_next_kitty_id(u32::MAX);
    assert_noop(&mut p, |p| create(p, 1), DispatchError::Module(Error::InvalidKittyId));
}

#[test]
fn create_kitty_next_kitty_id_overflow_should_fail() {
    let mut p = new_test_ext();
    p.set_next_kitty_id(u32::MAX);
    assert_noop(&mut p, |p| create(p, 1), DispatchError::Module(Error::InvalidKittyId));
}

#[test]
fn breed_kitty_works() {
    let mut p = new_test_ext();
    let account_id: u64 = 1;
    let _ = create(&mut p, account_id);
    let _ = create(&mut p, account_id);
    let kitty_id1 = p.all_kitties(1)[0];
    let kitty_id2 = p.all_kitties(1)[1];
    assert_eq!(breed(&mut p, account_id, kitty_id1, kitty_id2), Ok(()));
}

#[test]
fn breed_kitty_not_owner_should_fail() {
    let mut p = new_test_ext();
    let account_id: u64 = 1;
    let _ = create(&mut p, account_id);
    let _ = create(&mut p, account_id);
    let kitty_id1 = p.all_kitties(1)[0];
    let kitty_id2 = p.all_kitties(1)[1];
    let account_id2: u64 = 2;
    assert_noop(
        &mut p,
        |p| breed(p, account_id2, kitty_id1, kitty_id2),
        DispatchError::Module(Error::NotOwner),
    );
}

#[test]
fn get_default_value_is_zero() {
    assert_eq!(kitties::kitties::GetDefaultValue(), 0);
}

#[test]
fn create_reserves_and_deposits_event() {
    let mut p = new_test_ext();
    assert_eq!(create(&mut p, 1), Ok(()));
    assert_eq!(p.currency().free_balance(1), 88);
    assert_eq!(p.currency().reserved_balance(1), 10);
    assert_eq!(p.events(), &vec![Event::KittyCreated(1, 0)]);
}

#[test]
fn create_kitty_dna_is_digest_of_encoded_payload() {
    let mut p = new_test_ext();
    let src = source();
    assert_eq!(create(&mut p, 2), Ok(()));
    let expected = expected_random(&src, 2);
    assert_eq!(p.kitties(0), Some(Kitty(expected)));
    // The payload is 32 + 4 + 8 + 5 bytes, not the digest's 16.
    assert_ne!(expected.to_vec(), ((src.random_seed, src.seed_block), 2u64, src.extrinsic_index).encode());
}

#[test]
fn create_kitty_dna_depends_on_sender_and_extrinsic() {
    let mut p = new_test_ext();
    assert_eq!(create(&mut p, 1), Ok(()));
    assert_eq!(create(&mut p, 2), Ok(()));
    let other = RandomnessSource { extrinsic_index: None, ..source() };
    assert_eq!(p.create(Origin::Signed(0), &other), Ok(()));
    let k0 = p.kitties(0).unwrap();
    let k1 = p.kitties(1).unwrap();
    let k2 = p.kitties(2).unwrap();
    assert_ne!(k0, k1);
    assert_ne!(k0, k2);
    assert_eq!(k2, Kitty(expected_random(&other, 0)));
}

#[test]
fn create_unsigned_is_bad_origin() {
    let mut p = new_test_ext();
    assert_noop(&mut p, |p| p.create(Origin::Root, &source()), DispatchError::BadOrigin);
    assert_noop(&mut p, |p| p.create(Origin::Unsigned, &source()), DispatchError::BadOrigin);
}

#[test]
fn breed_mixes_parent_dna_with_random_selector() {
    let mut p = new_test_ext();
    let _ = create(&mut p, 1);
    let src2 = RandomnessSource { extrinsic_index: Some(9), ..source() };
    assert_eq!(p.create(Origin::Signed(1), &src2), Ok(()));
    let k1 = p.kitties(0).unwrap();
    let k2 = p.kitties(1).unwrap();
    assert_eq!(breed(&mut p, 1, 0, 1), Ok(()));
    let selector = expected_random(&source(), 1);
    let mut expected = [0u8; 16];
    for i in 0..16 {
        expected[i] = (k1.0[i] & selector[i]) | (k2.0[i] & !selector[i]);
    }
    assert_eq!(p.kitties(2), Some(Kitty(expected)));
    assert_eq!(p.kitty_owner(2), Some(1));
    assert_eq!(p.all_kitties(1), vec![0, 1, 2]);
    // Breeding reserves nothing more.
    assert_eq!(p.currency().reserved_balance(1), 20);
    assert_eq!(p.events().last(), Some(&Event::KittyBred(1, 2)));
}

#[test]
fn breed_same_kitty_should_fail() {
    let mut p = new_test_ext();
    let _ = create(&mut p, 1);
    assert_noop(&mut p, |p| breed(p, 1, 0, 0), DispatchError::Module(Error::SameKittyId));
}

#[test]
fn breed_unknown_kitty_should_fail() {
    let mut p = new_test_ext();
    let _ = create(&mut p, 1);
    assert_noop(&mut p, |p| breed(p, 1, 0, 7), DispatchError::Module(Error::InvalidKittyId));
    assert_noop(&mut p, |p| breed(p, 1, 7, 0), DispatchError::Module(Error::InvalidKittyId));
}

#[test]
fn breed_without_balance_should_fail() {
    let mut p = new_test_ext();
    assert_noop(&mut p, |p| breed(p, 5, 0, 1), DispatchError::Module(Error::NotEnoughBalance));
}

#[test]
fn breed_exceeding_max_owned_should_fail() {
    let mut p = new_test_ext();
    for _ in 0..4 {
        assert_eq!(create(&mut p, 1), Ok(()));
    }
    assert_noop(&mut p, |p| breed(p, 1, 0, 1), DispatchError::Module(Error::ExceedMaxKittyOwned));
}

#[test]
fn breed_dna_takes_selected_bits() {
    let a = Kitty([0xF0; 16]);
    let b = Kitty([0x0F; 16]);
    let mut selector = [0u8; 16];
    selector[0] = 0xFF;
    selector[1] = 0x3C;
    let child = breed_dna(&a, &b, &selector);
    assert_eq!(child[0], 0xF0);
    assert_eq!(child[1], 0x33);
    assert_eq!(child[2], 0x0F);
    assert_eq!(breed_dna(&a, &a, &selector), a.0);
}

#[test]
fn transfer_moves_kitty_and_reserve() {
    let mut p = new_test_ext();
    let _ = create(&mut p, 1);
    let _ = create(&mut p, 1);
    assert_eq!(p.transfer(Origin::Signed(1), 0, 2), Ok(()));
    assert_eq!(p.kitty_owner(0), Some(2));
    assert_eq!(p.all_kitties(1), vec![1]);
    assert_eq!(p.all_kitties(2), vec![0]);
    assert_eq!(p.currency().reserved_balance(1), 10);
    assert_eq!(p.currency().free_balance(1), 88);
    assert_eq!(p.currency().reserved_balance(2), 10);
    assert_eq!(p.currency().free_balance(2), 40);
    assert_eq!(p.events().last(), Some(&Event::KittyTransferred(1, 2, 0)));
}

#[test]
fn transfer_to_self_moves_kitty_to_end_of_list() {
    let mut p = new_test_ext();
    let _ = create(&mut p, 1);
    let _ = create(&mut p, 1);
    assert_eq!(p.transfer(Origin::Signed(1), 0, 1), Ok(()));
    assert_eq!(p.all_kitties(1), vec![1, 0]);
    assert_eq!(p.currency().reserved_balance(1), 20);
}

#[test]
fn transfer_not_owner_should_fail() {
    let mut p = new_test_ext();
    let _ = create(&mut p, 1);
    assert_noop(&mut p, |p| p.transfer(Origin::Signed(2), 0, 0), DispatchError::Module(Error::NotOwner));
    assert_noop(&mut p, |p| p.transfer(Origin::Signed(1), 3, 0), DispatchError::Module(Error::NotOwner));
}

#[test]
fn transfer_to_account_without_funds_should_fail() {
    let mut p = new_test_ext();
    let _ = create(&mut p, 1);
    assert_noop(&mut p, |p| p.transfer(Origin::Signed(1), 0, 5), DispatchError::InsufficientBalance);
}

#[test]
fn transfer_to_full_account_should_fail() {
    let mut p = new_test_ext();
    for _ in 0..4 {
        assert_eq!(create(&mut p, 0), Ok(()));
    }
    let _ = create(&mut p, 1);
    assert_noop(&mut p, |p| p.transfer(Origin::Signed(1), 4, 0), DispatchError::Module(Error::ExceedMaxKittyOwned));
}

#[test]
fn transfer_without_balance_should_fail() {
    let mut p = new_test_ext();
    assert_noop(&mut p, |p| p.transfer(Origin::Signed(6), 0, 1), DispatchError::Module(Error::NotEnoughBalance));
    assert_noop(&mut p, |p| p.transfer(Origin::Unsigned, 0, 1), DispatchError::BadOrigin);
}

#[test]
fn mint_assigns_ids_in_order() {
    let mut p = new_test_ext();
    assert_eq!(p.mint(3, [1u8; 16]), Ok(0));
    assert_eq!(p.mint(3, [2u8; 16]), Ok(1));
    assert_eq!(p.kitties(1), Some(Kitty([2u8; 16])));
    assert_eq!(p.all_kitties(3), vec![0, 1]);
    assert_eq!(p.next_kitty_id(), 2);
    // Minting reserves nothing and deposits no event.
    assert_eq!(p.currency().reserved_balance(3), 0);
    assert!(p.events().is_empty());
}

#[test]
fn balances_reserve_and_unreserve() {
    let mut b = Balances::from_genesis(&vec![(1, 30), (1, 40)]);
    assert_eq!(b.free_balance(1), 40);
    assert!(b.can_reserve(1, 40));
    assert!(!b.can_reserve(1, 41));
    assert_eq!(b.reserve(1, 41), Err(DispatchError::InsufficientBalance));
    assert_eq!(b.reserve(1, 25), Ok(()));
    assert_eq!((b.free_balance(1), b.reserved_balance(1)), (15, 25));
    assert_eq!(b.unreserve(1, 30), 5);
    assert_eq!((b.free_balance(1), b.reserved_balance(1)), (40, 0));
    assert_eq!(b.unreserve(9, 3), 3);
}

#[test]
fn mint_on_full_list_writes_kitty_but_not_list() {
    let mut p = new_test_ext();
    for i in 0..4u8 {
        assert_eq!(p.mint(3, [i; 16]), Ok(i as u32));
    }
    assert_eq!(p.mint(3, [9u8; 16]), Err(Error::ExceedMaxKittyOwned));
    assert_eq!(p.kitties(4), Some(Kitty([9u8; 16])));
    assert_eq!(p.kitty_owner(4), Some(3));
    assert_eq!(p.next_kitty_id(), 5);
    assert_eq!(p.all_kitties(3), vec![0, 1, 2, 3]);
}

#[test]
fn mint_at_last_id_changes_nothing() {
    let mut p = new_test_ext();
    p.set_next_kitty_id(u32::MAX);
    let before = snapshot(&p);
    assert_eq!(p.mint(3, [1u8; 16]), Err(Error::InvalidKittyId));
    assert_eq!(snapshot(&p), before);
}
