use pallets::allocator::{IndexAllocator, OverflowError};
use pallets::dna::{mix, random_value, Context};
use pallets::escrow::{EscrowLedger, InsufficientFunds, IssuanceOverflow};
use pallets::origin::{ensure_signed, BadOrigin, Origin};
use pallets::store::{Asset, AssetStore, Kitty, NotFound};

fn seed_counting() -> [u8; 32] {
    let mut seed = [0u8; 32];
    for (i, byte) in seed.iter_mut().enumerate() {
        *byte = i as u8;
    }
    seed
}

#[test]
fn allocator_starts_at_zero() {
    let allocator = IndexAllocator::new();
    assert_eq!(allocator.next_index(), 0);
}

#[test]
fn allocator_next_index_does_not_advance() {
    let allocator = IndexAllocator::new();
    assert_eq!(allocator.next_index(), 0);
    assert_eq!(allocator.next_index(), 0);
}

#[test]
fn allocator_issues_consecutive_indices() {
    let mut allocator = IndexAllocator::new();
    assert_eq!(allocator.allocate(), Ok(0));
    assert_eq!(allocator.allocate(), Ok(1));
    assert_eq!(allocator.allocate(), Ok(2));
    assert_eq!(allocator.next_index(), 3);
}

#[test]
fn allocator_never_issues_the_largest_index() {
    let mut allocator = IndexAllocator::starting_at(u32::MAX - 1);
    assert_eq!(allocator.allocate(), Ok(u32::MAX - 1));
    assert_eq!(allocator.next_index(), u32::MAX);
    assert_eq!(allocator.allocate(), Err(OverflowError));
    assert_eq!(allocator.next_index(), u32::MAX);
    assert_eq!(allocator.allocate(), Err(OverflowError));
}

#[test]
fn store_is_empty_at_first() {
    let store = AssetStore::new();
    assert!(!store.contains(0));
    assert_eq!(store.get(0), Err(NotFound));
    assert_eq!(store.owner_of(0), Err(NotFound));
}

#[test]
fn store_insert_then_get() {
    let mut store = AssetStore::new();
    store.insert(3, Kitty([5; 16]), 42);
    assert!(store.contains(3));
    assert_eq!(store.get(3), Ok(Asset { payload: Kitty([5; 16]), owner: 42 }));
    assert_eq!(store.owner_of(3), Ok(42));
    assert_eq!(store.get(2), Err(NotFound));
}

#[test]
fn store_set_owner_keeps_the_payload() {
    let mut store = AssetStore::new();
    store.insert(0, Kitty([1; 16]), 7);
    store.insert(1, Kitty([2; 16]), 7);
    assert_eq!(store.set_owner(0, 8), Ok(()));
    assert_eq!(store.get(0), Ok(Asset { payload: Kitty([1; 16]), owner: 8 }));
    assert_eq!(store.get(1), Ok(Asset { payload: Kitty([2; 16]), owner: 7 }));
}

#[test]
fn store_set_owner_of_missing_asset_fails() {
    let mut store = AssetStore::new();
    store.insert(0, Kitty([1; 16]), 7);
    assert_eq!(store.set_owner(1, 8), Err(NotFound));
    assert!(!store.contains(1));
    assert_eq!(store.owner_of(0), Ok(7));
}

#[test]
fn ledger_is_empty_at_first() {
    let ledger = EscrowLedger::new();
    assert_eq!(ledger.available(1), 0);
    assert_eq!(ledger.held(1), 0);
    assert_eq!(ledger.total_issuance(), 0);
}

#[test]
fn ledger_deposit_adds_available_funds() {
    let mut ledger = EscrowLedger::new();
    assert_eq!(ledger.deposit(1, 100), Ok(()));
    assert_eq!(ledger.deposit(1, 20), Ok(()));
    assert_eq!(ledger.deposit(2, 3), Ok(()));
    assert_eq!(ledger.available(1), 120);
    assert_eq!(ledger.available(2), 3);
    assert_eq!(ledger.held(1), 0);
    assert_eq!(ledger.total_issuance(), 123);
}

#[test]
fn ledger_deposit_refuses_to_overflow_the_issuance() {
    let mut ledger = EscrowLedger::new();
    assert_eq!(ledger.deposit(1, u128::MAX - 1), Ok(()));
    assert_eq!(ledger.deposit(2, 2), Err(IssuanceOverflow));
    assert_eq!(ledger.available(2), 0);
    assert_eq!(ledger.total_issuance(), u128::MAX - 1);
    assert_eq!(ledger.deposit(2, 1), Ok(()));
    assert_eq!(ledger.total_issuance(), u128::MAX);
}

#[test]
fn ledger_hold_moves_available_to_held() {
    let mut ledger = EscrowLedger::new();
    ledger.deposit(1, 100).unwrap();
    assert_eq!(ledger.hold(1, 30), Ok(()));
    assert_eq!(ledger.available(1), 70);
    assert_eq!(ledger.held(1), 30);
    assert_eq!(ledger.hold(1, 70), Ok(()));
    assert_eq!(ledger.available(1), 0);
    assert_eq!(ledger.held(1), 100);
    assert_eq!(ledger.total_issuance(), 100);
}

#[test]
fn ledger_hold_fails_without_funds() {
    let mut ledger = EscrowLedger::new();
    ledger.deposit(1, 100).unwrap();
    assert_eq!(ledger.hold(1, 101), Err(InsufficientFunds));
    assert_eq!(ledger.available(1), 100);
    assert_eq!(ledger.held(1), 0);
    assert_eq!(ledger.hold(2, 1), Err(InsufficientFunds));
    assert_eq!(ledger.hold(2, 0), Ok(()));
    assert_eq!(ledger.held(2), 0);
}

#[test]
fn ledger_release_gives_back_what_is_held() {
    let mut ledger = EscrowLedger::new();
    ledger.deposit(1, 100).unwrap();
    ledger.hold(1, 30).unwrap();
    assert_eq!(ledger.release(1, 10), 0);
    assert_eq!(ledger.available(1), 80);
    assert_eq!(ledger.held(1), 20);
}

#[test]
fn ledger_release_stops_at_what_is_held() {
    let mut ledger = EscrowLedger::new();
    ledger.deposit(1, 100).unwrap();
    ledger.hold(1, 30).unwrap();
    assert_eq!(ledger.release(1, 45), 15);
    assert_eq!(ledger.available(1), 100);
    assert_eq!(ledger.held(1), 0);
    assert_eq!(ledger.release(2, 5), 5);
    assert_eq!(ledger.available(2), 0);
    assert_eq!(ledger.total_issuance(), 100);
}

#[test]
fn ledger_transfer_moves_available_funds() {
    let mut ledger = EscrowLedger::new();
    ledger.deposit(1, 100).unwrap();
    ledger.hold(1, 30).unwrap();
    assert_eq!(ledger.transfer(1, 2, 70), Ok(()));
    assert_eq!(ledger.available(1), 0);
    assert_eq!(ledger.held(1), 30);
    assert_eq!(ledger.available(2), 70);
    assert_eq!(ledger.held(2), 0);
    assert_eq!(ledger.total_issuance(), 100);
}

#[test]
fn ledger_transfer_fails_without_funds() {
    let mut ledger = EscrowLedger::new();
    ledger.deposit(1, 100).unwrap();
    ledger.hold(1, 30).unwrap();
    assert_eq!(ledger.transfer(1, 2, 71), Err(InsufficientFunds));
    assert_eq!(ledger.available(1), 70);
    assert_eq!(ledger.available(2), 0);
    assert_eq!(ledger.transfer(3, 2, 1), Err(InsufficientFunds));
}

#[test]
fn ledger_transfer_to_oneself_changes_nothing() {
    let mut ledger = EscrowLedger::new();
    ledger.deposit(1, 100).unwrap();
    assert_eq!(ledger.transfer(1, 1, 60), Ok(()));
    assert_eq!(ledger.available(1), 100);
    assert_eq!(ledger.transfer(1, 1, 101), Err(InsufficientFunds));
    assert_eq!(ledger.total_issuance(), 100);
}

#[test]
fn random_value_is_the_digest_of_seed_sender_and_position() {
    let context = Context { seed: seed_counting(), extrinsic_index: Some(2) };
    assert_eq!(
        random_value(1, &context),
        [47, 229, 118, 246, 2, 26, 170, 11, 173, 116, 226, 128, 82, 172, 234, 156]
    );
}

#[test]
fn random_value_without_a_position() {
    let context = Context { seed: [0; 32], extrinsic_index: None };
    assert_eq!(
        random_value(0, &context),
        [203, 196, 164, 177, 232, 177, 125, 51, 187, 110, 161, 156, 235, 158, 148, 34]
    );
    let context = Context { seed: seed_counting(), extrinsic_index: None };
    assert_eq!(
        random_value(1, &context),
        [250, 9, 114, 33, 97, 80, 91, 212, 5, 17, 116, 33, 59, 54, 184, 197]
    );
}

#[test]
fn random_value_encodes_integers_least_significant_byte_first() {
    let context = Context { seed: [0xff; 32], extrinsic_index: Some(0x0a0b0c0d) };
    assert_eq!(
        random_value(0x0102030405060708, &context),
        [197, 124, 57, 111, 125, 147, 3, 69, 224, 156, 39, 96, 241, 223, 119, 236]
    );
}

#[test]
fn random_value_depends_on_the_sender() {
    let context = Context { seed: seed_counting(), extrinsic_index: Some(2) };
    assert_eq!(
        random_value(2, &context),
        [109, 87, 26, 160, 145, 215, 33, 108, 131, 68, 34, 20, 35, 51, 57, 166]
    );
    assert_ne!(random_value(1, &context), random_value(2, &context));
}

#[test]
fn random_value_is_reproducible() {
    let context = Context { seed: [9; 32], extrinsic_index: Some(7) };
    assert_eq!(random_value(5, &context), random_value(5, &context));
}

#[test]
fn random_value_agrees_with_the_digest_of_the_encoding() {
    let context = Context { seed: seed_counting(), extrinsic_index: Some(2) };
    let mut bytes: Vec<u8> = seed_counting().to_vec();
    bytes.extend_from_slice(&[1, 0, 0, 0, 0, 0, 0, 0]);
    bytes.extend_from_slice(&[1, 2, 0, 0, 0]);
    assert_eq!(random_value(1, &context), sp_io::hashing::blake2_128(&bytes));
}

#[test]
fn mix_takes_each_bit_from_one_parent() {
    let selector = [0b1111_0000u8; 16];
    let a = [0b1010_1010u8; 16];
    let b = [0b0101_0101u8; 16];
    assert_eq!(mix(&selector, &a, &b), [0b1010_0101u8; 16]);
}

#[test]
fn mix_with_full_selector_copies_the_first_parent() {
    let a = [1, 2, 3, 4, 5, 6, 7, 8, 9, 10, 11, 12, 13, 14, 15, 16];
    let b = [0xee; 16];
    assert_eq!(mix(&[0xff; 16], &a, &b), a);
    assert_eq!(mix(&[0x00; 16], &a, &b), b);
}

#[test]
fn mix_works_byte_by_byte() {
    let mut selector = [0u8; 16];
    let mut a = [0u8; 16];
    let mut b = [0u8; 16];
    let mut expected = [0u8; 16];
    for i in 0..16 {
        selector[i] = (i as u8).wrapping_mul(37);
        a[i] = (i as u8).wrapping_mul(101).wrapping_add(3);
        b[i] = (i as u8).wrapping_mul(59).wrapping_add(200);
        expected[i] = (selector[i] & a[i]) | (!selector[i] & b[i]);
    }
    assert_eq!(mix(&selector, &a, &b), expected);
    assert_eq!(expected[1], (37 & 104) | (!37u8 & 3));
}

#[test]
fn ensure_signed_accepts_a_signer_only() {
    assert_eq!(ensure_signed(Origin::signed(1)), Ok(1));
    assert_eq!(ensure_signed(Origin::Signed(77)), Ok(77));
    assert_eq!(ensure_signed(Origin::none()), Err(BadOrigin));
    assert_eq!(ensure_signed(Origin::root()), Err(BadOrigin));
}
