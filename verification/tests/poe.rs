use pallets::origin::Origin;
use pallets::poe::{Config, Error, Event, Pallet};

const BLOCK: u64 = 1;

fn new_test_ext() -> Pallet {
    Pallet::new(Config { claim_limit: 128 })
}

#[test]
fn create_claim_works() {
    let mut poe = new_test_ext();
    let claim = vec![0, 1, 2, 3];
    assert!(poe.create_claim(Origin::signed(1), claim.clone(), BLOCK).is_ok());
    assert_eq!(poe.get_proofs(&claim), Some((1, BLOCK)));
}

#[test]
fn create_claim_user_not_signed_fails() {
    let mut poe = new_test_ext();
    let claim = vec![0, 1, 2, 3];
    assert_eq!(poe.create_claim(Origin::none(), claim.clone(), BLOCK), Err(Error::BadOrigin));
    assert_eq!(poe.get_proofs(&claim), None);
}

#[test]
fn create_claim_too_long_fails() {
    let mut poe = new_test_ext();
    let claim = vec![0; 129];
    assert_eq!(
        poe.create_claim(Origin::signed(1), claim.clone(), BLOCK),
        Err(Error::ClaimLengthExceedsLimit)
    );
    assert_eq!(poe.get_proofs(&claim), None);
}

#[test]
fn create_claim_already_created_fails() {
    let mut poe = new_test_ext();
    let claim = vec![0, 1, 2, 3];
    let _ = poe.create_claim(Origin::signed(1), claim.clone(), BLOCK);
    assert_eq!(
        poe.create_claim(Origin::signed(1), claim.clone(), BLOCK),
        Err(Error::ProofAlreadyClaimed)
    );
    assert_eq!(poe.get_proofs(&claim), Some((1, BLOCK)));
}

#[test]
fn revoke_claim_works() {
    let mut poe = new_test_ext();
    let claim = vec![0, 1, 2, 3];
    let _ = poe.create_claim(Origin::signed(1), claim.clone(), BLOCK);
    assert_eq!(poe.get_proofs(&claim), Some((1, BLOCK)));
    assert!(poe.revoke_claim(Origin::signed(1), claim.clone()).is_ok());
    assert_eq!(poe.get_proofs(&claim), None);
}

#[test]
fn revoke_claim_user_not_signed_fails() {
    let mut poe = new_test_ext();
    let claim = vec![0, 1, 2, 3];
    let _ = poe.create_claim(Origin::signed(1), claim.clone(), BLOCK);
    assert_eq!(poe.revoke_claim(Origin::none(), claim.clone()), Err(Error::BadOrigin));
    assert_eq!(poe.get_proofs(&claim), Some((1, BLOCK)));
}

#[test]
fn revoke_claim_not_created_fails() {
    let mut poe = new_test_ext();
    let claim = vec![0, 1, 2, 3];
    assert_eq!(poe.revoke_claim(Origin::signed(1), claim.clone()), Err(Error::NoSuchProof));
    assert_eq!(poe.get_proofs(&claim), None);
}

#[test]
fn revoke_claim_not_owner_fails() {
    let mut poe = new_test_ext();
    let claim = vec![0, 1, 2, 3];
    let _ = poe.create_claim(Origin::signed(1), claim.clone(), BLOCK);
    assert_eq!(poe.revoke_claim(Origin::signed(2), claim.clone()), Err(Error::NotProofOwner));
    assert_eq!(poe.get_proofs(&claim), Some((1, BLOCK)));
}

#[test]
fn transfer_claim_works() {
    let mut poe = new_test_ext();
    let claim = vec![0, 1, 2, 3];
    let _ = poe.create_claim(Origin::signed(1), claim.clone(), BLOCK);
    assert!(poe.transfer_claim(Origin::signed(1), 2, claim.clone(), BLOCK).is_ok());
    assert_eq!(poe.get_proofs(&claim), Some((2, BLOCK)));
}

#[test]
fn transfer_claim_user_not_signed_fails() {
    let mut poe = new_test_ext();
    let claim = vec![0, 1, 2, 3];
    let _ = poe.create_claim(Origin::signed(1), claim.clone(), BLOCK);
    assert_eq!(poe.get_proofs(&claim), Some((1, BLOCK)));
    assert_eq!(poe.transfer_claim(Origin::none(), 2, claim.clone(), BLOCK), Err(Error::BadOrigin));
    assert_eq!(poe.get_proofs(&claim), Some((1, BLOCK)));
}

#[test]
fn transfer_claim_transfer_to_self_fails() {
    let mut poe = new_test_ext();
    let claim = vec![0, 1, 2, 3];
    let _ = poe.create_claim(Origin::signed(1), claim.clone(), BLOCK);
    assert_eq!(poe.get_proofs(&claim), Some((1, BLOCK)));
    assert_eq!(
        poe.transfer_claim(Origin::signed(1), 1, claim.clone(), BLOCK),
        Err(Error::TransferToSelf)
    );
    assert_eq!(poe.get_proofs(&claim), Some((1, BLOCK)));
}

#[test]
fn transfer_claim_not_created_fails() {
    let mut poe = new_test_ext();
    let claim = vec![0, 1, 2, 3];
    assert_eq!(
        poe.transfer_claim(Origin::signed(1), 2, claim.clone(), BLOCK),
        Err(Error::NoSuchProof)
    );
    assert_eq!(poe.get_proofs(&claim), None);
}

#[test]
fn transfer_claim_not_owner_fails() {
    let mut poe = new_test_ext();
    let claim = vec![0, 1, 2, 3];
    let _ = poe.create_claim(Origin::signed(1), claim.clone(), BLOCK);
    assert_eq!(
        poe.transfer_claim(Origin::signed(2), 3, claim.clone(), BLOCK),
        Err(Error::NotProofOwner)
    );
    assert_eq!(poe.get_proofs(&claim), Some((1, BLOCK)));
}

#[test]
fn claim_events_name_the_parties() {
    let mut poe = new_test_ext();
    let claim = vec![9, 8, 7];
    assert_eq!(
        poe.create_claim(Origin::signed(1), claim.clone(), 4),
        Ok(Event::ClaimCreated(1, claim.clone()))
    );
    assert_eq!(
        poe.transfer_claim(Origin::signed(1), 2, claim.clone(), 6),
        Ok(Event::ClaimTransferred(1, 2, claim.clone()))
    );
    assert_eq!(
        poe.revoke_claim(Origin::signed(2), claim.clone()),
        Ok(Event::ClaimRevoked(2, claim.clone()))
    );
}

#[test]
fn claim_of_exactly_the_limit_is_accepted() {
    let mut poe = new_test_ext();
    let claim = vec![3; 128];
    assert!(poe.create_claim(Origin::signed(1), claim.clone(), BLOCK).is_ok());
    assert_eq!(poe.get_proofs(&claim), Some((1, BLOCK)));
    let empty: Vec<u8> = Vec::new();
    assert!(poe.create_claim(Origin::signed(2), empty.clone(), BLOCK).is_ok());
    assert_eq!(poe.get_proofs(&empty), Some((2, BLOCK)));
}

#[test]
fn claim_without_room_for_anything() {
    let mut poe = Pallet::new(Config { claim_limit: 0 });
    assert_eq!(
        poe.create_claim(Origin::signed(1), vec![1], BLOCK),
        Err(Error::ClaimLengthExceedsLimit)
    );
    assert!(poe.create_claim(Origin::signed(1), vec![], BLOCK).is_ok());
}

#[test]
fn transfer_claim_records_the_block_of_the_transfer() {
    let mut poe = new_test_ext();
    let claim = vec![0, 1, 2, 3];
    let other = vec![0, 1, 2];
    let _ = poe.create_claim(Origin::signed(1), claim.clone(), 5);
    let _ = poe.create_claim(Origin::signed(1), other.clone(), 6);
    assert!(poe.transfer_claim(Origin::signed(1), 2, claim.clone(), 9).is_ok());
    assert_eq!(poe.get_proofs(&claim), Some((2, 9)));
    assert_eq!(poe.get_proofs(&other), Some((1, 6)));
}

#[test]
fn revoked_claim_can_be_entered_again() {
    let mut poe = new_test_ext();
    let first = vec![1];
    let second = vec![2];
    let third = vec![3];
    let _ = poe.create_claim(Origin::signed(1), first.clone(), 1);
    let _ = poe.create_claim(Origin::signed(2), second.clone(), 2);
    let _ = poe.create_claim(Origin::signed(3), third.clone(), 3);
    assert!(poe.revoke_claim(Origin::signed(1), first.clone()).is_ok());
    assert_eq!(poe.get_proofs(&first), None);
    assert_eq!(poe.get_proofs(&second), Some((2, 2)));
    assert_eq!(poe.get_proofs(&third), Some((3, 3)));
    assert!(poe.create_claim(Origin::signed(3), first.clone(), 8).is_ok());
    assert_eq!(poe.get_proofs(&first), Some((3, 8)));
}

#[test]
fn claim_checks_come_in_order() {
    let mut poe = new_test_ext();
    let long = vec![0; 129];
    assert_eq!(poe.create_claim(Origin::root(), long.clone(), BLOCK), Err(Error::BadOrigin));
    assert_eq!(poe.revoke_claim(Origin::signed(1), long.clone()), Err(Error::ClaimLengthExceedsLimit));
    assert_eq!(
        poe.transfer_claim(Origin::signed(1), 1, long.clone(), BLOCK),
        Err(Error::TransferToSelf)
    );
    assert_eq!(
        poe.transfer_claim(Origin::signed(1), 2, long.clone(), BLOCK),
        Err(Error::ClaimLengthExceedsLimit)
    );
}
