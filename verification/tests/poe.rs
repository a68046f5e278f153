use substrate_pallets::poe::{Config, Error, Event, Pallet};
use substrate_pallets::system::{DispatchError, Origin};

const BLOCK: u64 = 1;

fn new_test_ext() -> Pallet {
    Pallet::new(Config { max_claim_length: 10 })
}

#[test]
fn create_claim_works() {
    let mut poe = new_test_ext();
    let claim = vec![0, 1];
    assert!(poe.create_claim(Origin::signed(1), claim.clone(), BLOCK).is_ok());
    assert_eq!(poe.proofs(&claim), Some((1, BLOCK)));
}

#[test]
fn create_claim_failed_when_claim_already_exist() {
    let mut poe = new_test_ext();
    let claim = vec![0, 1];
    assert!(poe.create_claim(Origin::signed(1), claim.clone(), BLOCK).is_ok());
    let before = poe.clone();
    assert_eq!(
        poe.create_claim(Origin::signed(1), claim.clone(), BLOCK),
        Err(DispatchError::Module(Error::ProofAlreadyClaimed))
    );
    assert_eq!(poe, before);
}

#[test]
fn revoke_claim_works() {
    let mut poe = new_test_ext();
    let claim = vec![0, 1];
    assert!(poe.create_claim(Origin::signed(1), claim.clone(), BLOCK).is_ok());
    assert!(poe.revoke_claim(Origin::signed(1), claim.clone()).is_ok());
    assert_eq!(poe.proofs(&claim), None);
}

#[test]
fn revoke_claim_failed_when_claim_notexist() {
    let mut poe = new_test_ext();
    let claim = vec![0, 1, 2, 3, 4];
    let before = poe.clone();
    assert_eq!(
        poe.revoke_claim(Origin::signed(1), claim.clone()),
        Err(DispatchError::Module(Error::NoSuchProof))
    );
    assert_eq!(poe, before);
}

#[test]
fn transfer_claim_works() {
    let mut poe = new_test_ext();
    let claim = vec![0, 1, 2, 3];
    assert!(poe.create_claim(Origin::signed(1), claim.clone(), BLOCK).is_ok());
    assert!(poe.transfer_claim(Origin::signed(1), 2, claim.clone(), BLOCK).is_ok());
    assert_eq!(poe.proofs(&claim), Some((2, BLOCK)));
}

#[test]
#[allow(non_snake_case)]
fn transfer_claim_failed_when_claim_not_Owner() {
    let mut poe = new_test_ext();
    let claim = vec![0, 1, 2, 3, 4];
    assert!(poe.create_claim(Origin::signed(1), claim.clone(), BLOCK).is_ok());
    let before = poe.clone();
    assert_eq!(
        poe.transfer_claim(Origin::signed(3), 2, claim.clone(), BLOCK),
        Err(DispatchError::Module(Error::NotProofOwner))
    );
    assert_eq!(poe, before);
}

#[test]
fn transfer_claim_failed_when_claim_not_exist() {
    let mut poe = new_test_ext();
    let claim = vec![0, 1];
    assert!(poe.create_claim(Origin::signed(1), claim.clone(), BLOCK).is_ok());
    let claim2 = vec![0, 1, 2, 3, 4];
    let before = poe.clone();
    assert_eq!(
        poe.transfer_claim(Origin::signed(1), 2, claim2.clone(), BLOCK),
        Err(DispatchError::Module(Error::NoSuchProof))
    );
    assert_eq!(poe, before);
}

#[test]
fn create_claim_reports_event_and_block() {
    let mut poe = new_test_ext();
    let claim = vec![9, 8, 7];
    assert_eq!(
        poe.create_claim(Origin::signed(5), claim.clone(), 42),
        Ok(Event::ClaimCreated(5, claim.clone()))
    );
    assert_eq!(poe.proofs(&claim), Some((5, 42)));
    assert_eq!(poe.proofs(&vec![9, 8]), None);
}

#[test]
fn claim_longer_than_maximum_is_refused() {
    let mut poe = new_test_ext();
    let long = vec![0u8; 11];
    let exact = vec![0u8; 10];
    let before = poe.clone();
    assert_eq!(
        poe.create_claim(Origin::signed(1), long.clone(), BLOCK),
        Err(DispatchError::Module(Error::ClaimTooLong))
    );
    assert_eq!(
        poe.revoke_claim(Origin::signed(1), long.clone()),
        Err(DispatchError::Module(Error::ClaimTooLong))
    );
    assert_eq!(
        poe.transfer_claim(Origin::signed(1), 2, long.clone(), BLOCK),
        Err(DispatchError::Module(Error::ClaimTooLong))
    );
    assert_eq!(poe, before);
    assert!(poe.create_claim(Origin::signed(1), exact, BLOCK).is_ok());
    assert_eq!(poe.max_claim_length(), 10);
}

#[test]
fn unsigned_claim_calls_are_refused() {
    let mut poe = new_test_ext();
    let claim = vec![1];
    assert_eq!(poe.create_claim(Origin::Root, claim.clone(), BLOCK), Err(DispatchError::BadOrigin));
    assert_eq!(poe.create_claim(Origin::Unsigned, claim.clone(), BLOCK), Err(DispatchError::BadOrigin));
    assert!(poe.create_claim(Origin::signed(1), claim.clone(), BLOCK).is_ok());
    assert_eq!(poe.revoke_claim(Origin::Root, claim.clone()), Err(DispatchError::BadOrigin));
    assert_eq!(poe.transfer_claim(Origin::Unsigned, 2, claim.clone(), BLOCK), Err(DispatchError::BadOrigin));
    assert_eq!(poe.proofs(&claim), Some((1, BLOCK)));
}

#[test]
fn revoke_undoes_create() {
    let mut poe = new_test_ext();
    assert!(poe.create_claim(Origin::signed(1), vec![1, 2], BLOCK).is_ok());
    let before = poe.clone();
    assert!(poe.create_claim(Origin::signed(2), vec![3, 4, 5], 7).is_ok());
    assert_eq!(poe.revoke_claim(Origin::signed(2), vec![3, 4, 5]), Ok(Event::ClaimRevoked(2, vec![3, 4, 5])));
    assert_eq!(poe, before);
}

#[test]
fn claim_is_exclusive_and_only_owner_acts() {
    let mut poe = new_test_ext();
    let claim = vec![7, 7];
    assert!(poe.create_claim(Origin::signed(1), claim.clone(), BLOCK).is_ok());
    assert_eq!(
        poe.create_claim(Origin::signed(2), claim.clone(), BLOCK),
        Err(DispatchError::Module(Error::ProofAlreadyClaimed))
    );
    assert_eq!(
        poe.revoke_claim(Origin::signed(2), claim.clone()),
        Err(DispatchError::Module(Error::NotProofOwner))
    );
    assert_eq!(poe.proofs(&claim), Some((1, BLOCK)));
}

#[test]
fn transfer_hands_claim_over() {
    let mut poe = new_test_ext();
    let claim = vec![4, 2];
    assert!(poe.create_claim(Origin::signed(1), claim.clone(), BLOCK).is_ok());
    assert_eq!(
        poe.transfer_claim(Origin::signed(1), 2, claim.clone(), 3),
        Ok(Event::ClaimTransfered(1, 2, claim.clone()))
    );
    assert_eq!(poe.proofs(&claim), Some((2, 3)));
    assert_eq!(
        poe.revoke_claim(Origin::signed(1), claim.clone()),
        Err(DispatchError::Module(Error::NotProofOwner))
    );
    assert!(poe.revoke_claim(Origin::signed(2), claim.clone()).is_ok());
    assert_eq!(poe.proofs(&claim), None);
}

#[test]
fn many_claims_are_kept_apart() {
    let mut poe = new_test_ext();
    for i in 0..5u8 {
        assert!(poe.create_claim(Origin::signed(i as u64), vec![i, i], i as u64).is_ok());
    }
    assert!(poe.revoke_claim(Origin::signed(1), vec![1, 1]).is_ok());
    for i in 0..5u8 {
        let expected = if i == 1 { None } else { Some((i as u64, i as u64)) };
        assert_eq!(poe.proofs(&vec![i, i]), expected);
    }
}
