use std::collections::HashMap;
use substrate_pallets::kitties::{
    dna_from_entropy, gender_from_seed, mix_dna, Balance, Config, Error, Event, Gender, Pallet,
};
use substrate_pallets::system::{DispatchError, Origin};
use vstd::prelude::Seq;

const EXISTENTIAL_DEPOSIT: Balance = 500;
const MAX_KITTY_OWNED: u32 = 9;
const KITTY_STAKE: Balance = 1_000;

/// A runtime for the tests: balances with free and reserved parts, and a
/// deterministic source of randomness.
#[derive(Clone, Debug, PartialEq)]
struct TestRuntime {
    free: HashMap<u64, Balance>,
    reserved: HashMap<u64, Balance>,
    block: u64,
}

impl TestRuntime {
    fn reserved(&self, who: u64) -> Balance {
        *self.reserved.get(&who).unwrap_or(&0)
    }

    /// Why a transfer of `value` from `source` to `dest` would be refused.
    fn payment_error(&self, source: u64, dest: u64, value: Balance) -> Option<BalanceError> {
        if source == dest {
            return None;
        }
        let from = self.free_balance(source);
        if from < value {
            return Some(BalanceError::InsufficientBalance);
        }
        if from - value < EXISTENTIAL_DEPOSIT {
            return Some(BalanceError::KeepAlive);
        }
        if self.free_balance(dest) + value < EXISTENTIAL_DEPOSIT {
            return Some(BalanceError::ExistentialDeposit);
        }
        None
    }
}

/// Why the test currency refused a transfer.
#[derive(Clone, Copy, Debug, PartialEq, Eq)]
enum BalanceError {
    InsufficientBalance,
    KeepAlive,
    ExistentialDeposit,
}

impl Config for TestRuntime {
    type CurrencyError = BalanceError;

    // The seven functions below are the specification's model of the
    // runtime; verified code reads them only in contracts.
    fn free_of(&self, who: u64) -> Balance {
        self.free_balance(who)
    }

    fn reserved_of(&self, who: u64) -> Balance {
        self.reserved(who)
    }

    fn can_reserve(&self, who: u64, amount: Balance) -> bool {
        self.free_balance(who) >= amount
    }

    fn can_transfer(&self, source: u64, dest: u64, value: Balance) -> bool {
        self.payment_error(source, dest, value).is_none()
    }

    fn random_seed(&self, _subject: Seq<u8>) -> [u8; 32] {
        unreachable!("a specification sequence carries no bytes when compiled")
    }

    fn current_extrinsic_index(&self) -> Option<u32> {
        self.extrinsic_index()
    }

    fn current_block(&self) -> u64 {
        self.block
    }

    fn reserve(&mut self, who: u64, amount: Balance) -> Result<(), ()> {
        if amount == 0 {
            return Ok(());
        }
        let free = self.free_balance(who);
        if !self.can_reserve(who, amount) {
            return Err(());
        }
        self.free.insert(who, free - amount);
        let reserved = self.reserved(who);
        self.reserved.insert(who, reserved + amount);
        Ok(())
    }

    fn unreserve(&mut self, who: u64, amount: Balance) -> Balance {
        let reserved = self.reserved(who);
        let actual = amount.min(reserved);
        self.reserved.insert(who, reserved - actual);
        let free = self.free_balance(who);
        self.free.insert(who, free.saturating_add(actual));
        amount - actual
    }

    fn free_balance(&self, who: u64) -> Balance {
        *self.free.get(&who).unwrap_or(&0)
    }

    fn transfer(&mut self, source: u64, dest: u64, value: Balance) -> Result<(), BalanceError> {
        if let Some(e) = self.payment_error(source, dest, value) {
            return Err(e);
        }
        if source == dest {
            return Ok(());
        }
        let from = self.free_balance(source);
        let to = self.free_balance(dest);
        self.free.insert(source, from - value);
        self.free.insert(dest, to + value);
        Ok(())
    }

    fn random(&self, subject: &[u8]) -> [u8; 32] {
        let mut data = subject.to_vec();
        data.extend_from_slice(&self.block.to_le_bytes());
        sp_crypto_hashing::blake2_256(&data)
    }

    fn extrinsic_index(&self) -> Option<u32> {
        None
    }

    fn block_number(&self) -> u64 {
        self.block
    }
}

fn new_test_ext() -> (Pallet, TestRuntime) {
    let mut free = HashMap::new();
    free.insert(1, 10_000_000_000);
    free.insert(2, 10_000_000_000);
    free.insert(3, 500);
    (
        Pallet::new(MAX_KITTY_OWNED, KITTY_STAKE),
        TestRuntime { free, reserved: HashMap::new(), block: 1 },
    )
}

#[test]
fn create_kitty_ok() {
    let (mut kitties, mut rt) = new_test_ext();
    assert!(kitties.create_kitty(&mut rt, Origin::signed(1)).is_ok());
}

#[test]
fn create_kitty_not_enough_balance() {
    let (mut kitties, mut rt) = new_test_ext();
    rt.block = 1;
    let (before, rt_before) = (kitties.clone(), rt.clone());
    assert_eq!(
        kitties.create_kitty(&mut rt, Origin::signed(4)),
        Err(DispatchError::Module(Error::NotEnoughBalance))
    );
    assert_eq!((kitties, rt), (before, rt_before));
}

#[test]
fn create_kitty_next_kitty_id() {
    let (mut kitties, mut rt) = new_test_ext();
    rt.block = 1;
    assert!(kitties.create_kitty(&mut rt, Origin::signed(1)).is_ok());
    assert_eq!(kitties.get_kitty_id(), 1);
}

#[test]
fn transfer_ok_err() {
    let (mut kitties, mut rt) = new_test_ext();
    assert!(kitties.create_kitty(&mut rt, Origin::signed(1)).is_ok());
    assert!(kitties.create_kitty(&mut rt, Origin::signed(2)).is_ok());

    assert!(kitties.transfer(&mut rt, Origin::signed(1), 2, 0).is_ok());
    assert_eq!(rt.reserved(1), 0);
    assert_eq!(rt.reserved(2), 2 * KITTY_STAKE);

    let (before, rt_before) = (kitties.clone(), rt.clone());
    assert_eq!(
        kitties.transfer(&mut rt, Origin::signed(2), 2, 0),
        Err(DispatchError::Module(Error::TransferToSelf))
    );
    assert_eq!((&kitties, &rt), (&before, &rt_before));

    assert_eq!(
        kitties.transfer(&mut rt, Origin::signed(1), 2, 1),
        Err(DispatchError::Module(Error::NotKittyOwner))
    );
    assert_eq!((&kitties, &rt), (&before, &rt_before));

    assert_eq!(
        kitties.transfer(&mut rt, Origin::signed(2), 3, 1),
        Err(DispatchError::Module(Error::NotEnoughBalance))
    );
    assert_eq!((&kitties, &rt), (&before, &rt_before));
}

#[test]
fn buy_kitty_ok_err() {
    let (mut kitties, mut rt) = new_test_ext();
    assert!(kitties.create_kitty(&mut rt, Origin::signed(1)).is_ok());
    assert!(kitties.set_price(Origin::signed(1), 0, Some(10000)).is_ok());
}

#[test]
fn breed_kitty_ok_err() {
    let (mut kitties, mut rt) = new_test_ext();
    assert!(kitties.create_kitty(&mut rt, Origin::signed(1)).is_ok());
    assert!(kitties.create_kitty(&mut rt, Origin::signed(1)).is_ok());
    assert!(kitties.create_kitty(&mut rt, Origin::signed(2)).is_ok());

    let (before, rt_before) = (kitties.clone(), rt.clone());
    assert_eq!(
        kitties.breed_kitty(&mut rt, Origin::signed(3), 0, 1),
        Err(DispatchError::Module(Error::NotEnoughBalance))
    );
    assert_eq!((&kitties, &rt), (&before, &rt_before));

    assert!(kitties.breed_kitty(&mut rt, Origin::signed(1), 0, 1).is_ok());
}

#[test]
fn create_kitty_mints_in_order_and_reserves_stake() {
    let (mut kitties, mut rt) = new_test_ext();
    assert_eq!(kitties.create_kitty(&mut rt, Origin::signed(1)), Ok(Event::Created(1, 0)));
    assert_eq!(kitties.create_kitty(&mut rt, Origin::signed(2)), Ok(Event::Created(2, 1)));
    assert_eq!(kitties.create_kitty(&mut rt, Origin::signed(1)), Ok(Event::Created(1, 2)));
    assert_eq!(kitties.get_kitty_id(), 3);
    assert_eq!(kitties.kitties_owned(1), vec![0, 2]);
    assert_eq!(kitties.kitties_owned(2), vec![1]);
    assert_eq!(kitties.kitties_owned(3), Vec::<u32>::new());
    assert_eq!(rt.reserved(1), 2 * KITTY_STAKE);
    let kitty = kitties.kitties(0).unwrap();
    assert_eq!(kitty.owner, 1);
    assert_eq!(kitty.price, None);
    assert_eq!(kitties.kitties(3), None);
}

#[test]
fn unsigned_kitty_calls_are_refused() {
    let (mut kitties, mut rt) = new_test_ext();
    assert_eq!(kitties.create_kitty(&mut rt, Origin::Root), Err(DispatchError::BadOrigin));
    assert_eq!(kitties.set_price(Origin::Unsigned, 0, None), Err(DispatchError::BadOrigin));
    assert_eq!(kitties.transfer(&mut rt, Origin::Root, 2, 0), Err(DispatchError::BadOrigin));
    assert_eq!(kitties.buy_kitty(&mut rt, Origin::Unsigned, 0, 1), Err(DispatchError::BadOrigin));
    assert_eq!(kitties.breed_kitty(&mut rt, Origin::Root, 0, 1), Err(DispatchError::BadOrigin));
    assert_eq!(kitties.get_kitty_id(), 0);
}

#[test]
fn set_price_errors_and_effect() {
    let (mut kitties, mut rt) = new_test_ext();
    assert!(kitties.create_kitty(&mut rt, Origin::signed(1)).is_ok());
    assert!(kitties.create_kitty(&mut rt, Origin::signed(2)).is_ok());
    assert_eq!(kitties.set_price(Origin::signed(1), 0, Some(10000)), Ok(Event::PriceSet(1, 0, Some(10000))));
    let before = kitties.clone();
    assert_eq!(
        kitties.set_price(Origin::signed(3), 0, Some(10000)),
        Err(DispatchError::Module(Error::NotKittyOwner))
    );
    assert_eq!(
        kitties.set_price(Origin::signed(3), 55, Some(10000)),
        Err(DispatchError::Module(Error::KittyNotExist))
    );
    assert_eq!(kitties, before);
    let kitty = kitties.kitties(0).unwrap();
    assert_eq!(kitty.price, Some(10000));
    assert_eq!(kitties.kitties(1).unwrap().price, None);
    assert!(kitties.set_price(Origin::signed(1), 0, None).is_ok());
    assert_eq!(kitties.kitties(0).unwrap(), kitty_with_price(kitty, None));
}

fn kitty_with_price(mut kitty: substrate_pallets::kitties::Kitty, price: Option<Balance>) -> substrate_pallets::kitties::Kitty {
    kitty.price = price;
    kitty
}

#[test]
fn buy_kitty_checks_in_order() {
    let (mut kitties, mut rt) = new_test_ext();
    assert!(kitties.create_kitty(&mut rt, Origin::signed(1)).is_ok());
    let (before, rt_before) = (kitties.clone(), rt.clone());
    assert_eq!(
        kitties.buy_kitty(&mut rt, Origin::signed(2), 0, 10000),
        Err(DispatchError::Module(Error::KittyNotForSale))
    );
    assert_eq!((&kitties, &rt), (&before, &rt_before));
    assert!(kitties.set_price(Origin::signed(1), 0, Some(10000)).is_ok());
    let (before, rt_before) = (kitties.clone(), rt.clone());
    assert_eq!(
        kitties.buy_kitty(&mut rt, Origin::signed(2), 55, 10000),
        Err(DispatchError::Module(Error::KittyNotExist))
    );
    assert_eq!(
        kitties.buy_kitty(&mut rt, Origin::signed(1), 0, 10000),
        Err(DispatchError::Module(Error::BuyerIsKittyOwner))
    );
    assert_eq!(
        kitties.buy_kitty(&mut rt, Origin::signed(2), 0, 200),
        Err(DispatchError::Module(Error::KittyBidPriceTooLow))
    );
    assert_eq!(
        kitties.buy_kitty(&mut rt, Origin::signed(3), 0, 10001),
        Err(DispatchError::Module(Error::NotEnoughBalance))
    );
    assert_eq!(
        kitties.buy_kitty(&mut rt, Origin::signed(2), 0, u128::MAX),
        Err(DispatchError::Module(Error::NotEnoughBalance))
    );
    assert_eq!((&kitties, &rt), (&before, &rt_before));
}

#[test]
fn buy_kitty_moves_kitty_and_money() {
    let (mut kitties, mut rt) = new_test_ext();
    assert!(kitties.create_kitty(&mut rt, Origin::signed(1)).is_ok());
    assert!(kitties.set_price(Origin::signed(1), 0, Some(10000)).is_ok());
    let (before, rt_before) = (kitties.clone(), rt.clone());
    assert_eq!(
        kitties.buy_kitty(&mut rt, Origin::signed(2), 0, 10000),
        Err(DispatchError::Module(Error::KittyBidPriceTooLow))
    );
    assert_eq!((&kitties, &rt), (&before, &rt_before));
    assert_eq!(
        kitties.buy_kitty(&mut rt, Origin::signed(2), 0, 10001),
        Ok(Event::Bought(2, 1, 0, 10001))
    );
    let kitty = kitties.kitties(0).unwrap();
    assert_eq!(kitty.owner, 2);
    assert_eq!(kitty.price, None);
    assert_eq!(kitties.kitties_owned(1), Vec::<u32>::new());
    assert_eq!(kitties.kitties_owned(2), vec![0]);
    assert_eq!(rt.free_balance(1), 10_000_000_000 + 10001);
    assert_eq!(rt.free_balance(2), 10_000_000_000 - 10001 - KITTY_STAKE);
    assert_eq!(rt.reserved(1), 0);
    assert_eq!(rt.reserved(2), KITTY_STAKE);
}

#[test]
fn transfer_moves_kitty_and_stake() {
    let (mut kitties, mut rt) = new_test_ext();
    assert!(kitties.create_kitty(&mut rt, Origin::signed(1)).is_ok());
    assert!(kitties.create_kitty(&mut rt, Origin::signed(1)).is_ok());
    assert!(kitties.set_price(Origin::signed(1), 0, Some(5)).is_ok());
    assert_eq!(kitties.transfer(&mut rt, Origin::signed(1), 2, 0), Ok(Event::Transferred(1, 2, 0)));
    let kitty = kitties.kitties(0).unwrap();
    assert_eq!(kitty.owner, 2);
    assert_eq!(kitty.price, None);
    assert_eq!(kitties.kitties_owned(1), vec![1]);
    assert_eq!(kitties.kitties_owned(2), vec![0]);
    assert_eq!(rt.reserved(1), KITTY_STAKE);
    assert_eq!(rt.reserved(2), KITTY_STAKE);
    assert_eq!(kitties.get_kitty_id(), 2);
}

#[test]
fn transfer_to_a_full_account_is_refused() {
    let (mut kitties, mut rt) = new_test_ext();
    for _ in 0..MAX_KITTY_OWNED {
        assert!(kitties.create_kitty(&mut rt, Origin::signed(2)).is_ok());
    }
    let (before, rt_before) = (kitties.clone(), rt.clone());
    assert_eq!(
        kitties.create_kitty(&mut rt, Origin::signed(2)).map(|_| ()),
        Err(DispatchError::Module(Error::ExceedMaxKittyOwned))
    );
    assert_eq!(kitties, before);
    rt = rt_before.clone();
    assert!(kitties.create_kitty(&mut rt, Origin::signed(1)).is_ok());
    let (before, rt_before) = (kitties.clone(), rt.clone());
    assert_eq!(
        kitties.transfer(&mut rt, Origin::signed(1), 2, MAX_KITTY_OWNED),
        Err(DispatchError::Module(Error::ExceedMaxKittyOwned))
    );
    assert_eq!((&kitties, &rt), (&before, &rt_before));
}

#[test]
fn transfer_kitty_to_and_is_kitty_owner() {
    let (mut kitties, mut rt) = new_test_ext();
    assert!(kitties.create_kitty(&mut rt, Origin::signed(1)).is_ok());
    assert_eq!(kitties.is_kitty_owner(0, 1), Ok(true));
    assert_eq!(kitties.is_kitty_owner(0, 2), Ok(false));
    assert_eq!(kitties.is_kitty_owner(7, 1), Err(Error::KittyNotExist));
    assert_eq!(kitties.transfer_kitty_to(7, 2), Err(Error::KittyNotExist));
    assert_eq!(kitties.transfer_kitty_to(0, 2), Ok(()));
    assert_eq!(kitties.is_kitty_owner(0, 2), Ok(true));
    assert_eq!(kitties.kitties_owned(2), vec![0]);
    assert_eq!(kitties.get_next_id(), Ok(2));
}

#[test]
fn mint_with_given_dna_and_gender() {
    let (mut kitties, rt) = new_test_ext();
    let dna = [7u8; 16];
    assert_eq!(kitties.mint(&rt, 3, Some(dna), Some(Gender::Female)), Ok(0));
    let kitty = kitties.kitties(0).unwrap();
    assert_eq!(kitty.dna, dna);
    assert_eq!(kitty.gender, Gender::Female);
    assert_eq!(kitty.owner, 3);
    assert_eq!(kitties.mint_kitty(3, [1u8; 16], Gender::Male), Ok(1));
    assert_eq!(kitties.kitties_owned(3), vec![0, 1]);
}

#[test]
fn breed_kitty_checks_and_child() {
    let (mut kitties, mut rt) = new_test_ext();
    assert_eq!(kitties.mint(&rt, 1, Some([0xF0u8; 16]), Some(Gender::Male)), Ok(0));
    assert_eq!(kitties.mint(&rt, 1, Some([0x0Fu8; 16]), Some(Gender::Female)), Ok(1));
    assert_eq!(kitties.mint(&rt, 2, Some([0xAAu8; 16]), Some(Gender::Female)), Ok(2));
    let before = kitties.clone();
    assert_eq!(
        kitties.breed_kitty(&mut rt, Origin::signed(1), 0, 2),
        Err(DispatchError::Module(Error::NotKittyOwner))
    );
    assert_eq!(
        kitties.breed_kitty(&mut rt, Origin::signed(1), 9, 0),
        Err(DispatchError::Module(Error::KittyNotExist))
    );
    assert_eq!(kitties, before);
    assert_eq!(kitties.breed_kitty(&mut rt, Origin::signed(1), 0, 1), Ok(Event::BredSuccess(1, 3, 0, 1)));
    let child = kitties.kitties(3).unwrap();
    assert_eq!(child.owner, 1);
    for b in child.dna.iter() {
        assert_eq!(*b & !(0xF0 | 0x0F), 0);
    }
    assert_eq!(kitties.kitties_owned(1), vec![0, 1, 3]);
}

#[test]
fn breed_dna_of_identical_parents_is_theirs() {
    let (mut kitties, rt) = new_test_ext();
    let dna = [0x5Au8; 16];
    assert_eq!(kitties.mint(&rt, 1, Some(dna), Some(Gender::Male)), Ok(0));
    assert_eq!(kitties.mint(&rt, 1, Some(dna), Some(Gender::Female)), Ok(1));
    assert_eq!(kitties.breed_dna(&rt, 0, 1), Ok(dna));
    assert_eq!(kitties.breed_dna(&rt, 0, 5), Err(Error::KittyNotExist));
}

#[test]
fn mix_dna_takes_bits_by_selector() {
    let selector = [0xF0u8; 16];
    let a = [0xABu8; 16];
    let b = [0x12u8; 16];
    assert_eq!(mix_dna(&selector, &a, &b), [0xA2u8; 16]);
    let mut sel = [0u8; 16];
    sel[0] = 0xFF;
    let r = mix_dna(&sel, &a, &b);
    assert_eq!(r[0], 0xAB);
    assert_eq!(r[1], 0x12);
}

#[test]
fn gender_follows_seed_parity() {
    let mut seed = [0u8; 32];
    assert_eq!(gender_from_seed(&seed), Gender::Male);
    seed[0] = 3;
    assert_eq!(gender_from_seed(&seed), Gender::Female);
    seed[0] = 200;
    seed[1] = 1;
    assert_eq!(gender_from_seed(&seed), Gender::Male);
}

#[test]
fn fresh_dna_is_blake2_of_encoded_payload() {
    let seed = [9u8; 32];
    let mut payload = seed.to_vec();
    payload.extend_from_slice(&7u32.to_le_bytes());
    payload.extend_from_slice(&0x0102_0304_0506_0708u64.to_le_bytes());
    let expected = sp_crypto_hashing::blake2_128(&payload);
    let dna = dna_from_entropy(&seed, 7, 0x0102_0304_0506_0708);
    assert_eq!(dna, expected);
    assert_ne!(&dna[..], &payload[..16]);
    assert_ne!(dna_from_entropy(&seed, 8, 0x0102_0304_0506_0708), dna);
}

#[test]
fn transfer_there_and_back_restores_balances_and_lists() {
    let (mut kitties, mut rt) = new_test_ext();
    assert!(kitties.create_kitty(&mut rt, Origin::signed(1)).is_ok());
    assert!(kitties.create_kitty(&mut rt, Origin::signed(2)).is_ok());
    assert!(kitties.set_price(Origin::signed(1), 0, Some(3)).is_ok());
    let rt_before = rt.clone();
    let kitty_before = kitties.kitties(0).unwrap();
    assert!(kitties.transfer(&mut rt, Origin::signed(1), 2, 0).is_ok());
    assert_eq!(kitties.kitties_owned(2), vec![1, 0]);
    assert!(kitties.transfer(&mut rt, Origin::signed(2), 1, 0).is_ok());
    assert_eq!(rt, rt_before);
    assert_eq!(kitties.kitties(0).unwrap(), kitty_with_price(kitty_before, None));
    assert_eq!(kitties.kitties_owned(1), vec![0]);
    assert_eq!(kitties.kitties_owned(2), vec![1]);
}

#[test]
fn breed_kitty_reserves_stake_even_when_refused() {
    let (mut kitties, mut rt) = new_test_ext();
    assert!(kitties.create_kitty(&mut rt, Origin::signed(1)).is_ok());
    assert!(kitties.create_kitty(&mut rt, Origin::signed(2)).is_ok());
    let before = kitties.clone();
    assert_eq!(
        kitties.breed_kitty(&mut rt, Origin::signed(1), 0, 1),
        Err(DispatchError::Module(Error::NotKittyOwner))
    );
    assert_eq!(kitties, before);
    assert_eq!(rt.reserved(1), 2 * KITTY_STAKE);
    assert!(kitties.create_kitty(&mut rt, Origin::signed(1)).is_ok());
    assert_eq!(kitties.breed_kitty(&mut rt, Origin::signed(1), 0, 2), Ok(Event::BredSuccess(1, 3, 0, 2)));
    assert_eq!(rt.reserved(1), 4 * KITTY_STAKE);
    assert_eq!(rt.free_balance(1), 10_000_000_000 - 4 * KITTY_STAKE);
}

#[test]
fn refused_payment_answers_the_currency_error() {
    let (mut kitties, mut rt) = new_test_ext();
    rt.free.insert(5, 3_000);
    assert!(kitties.create_kitty(&mut rt, Origin::signed(1)).is_ok());
    assert!(kitties.set_price(Origin::signed(1), 0, Some(1)).is_ok());
    let before = kitties.clone();
    assert_eq!(
        kitties.buy_kitty(&mut rt, Origin::signed(5), 0, 1_800),
        Err(DispatchError::Runtime(BalanceError::KeepAlive))
    );
    assert_eq!(kitties, before);
    assert_eq!(rt.free_balance(5), 3_000 - KITTY_STAKE);
    assert_eq!(rt.reserved(5), KITTY_STAKE);
    assert_eq!(rt.reserved(1), 0);
}

#[test]
fn buy_kitty_pays_the_bid_to_the_seller() {
    let (mut kitties, mut rt) = new_test_ext();
    assert!(kitties.create_kitty(&mut rt, Origin::signed(1)).is_ok());
    assert!(kitties.set_price(Origin::signed(1), 0, Some(10000)).is_ok());
    assert_eq!(kitties.buy_kitty(&mut rt, Origin::signed(2), 0, 20000), Ok(Event::Bought(2, 1, 0, 20000)));
    let kitty = kitties.kitties(0).unwrap();
    assert_eq!(kitty.owner, 2);
    assert_eq!(kitty.price, None);
    assert_eq!(kitties.kitties_owned(1), Vec::<u32>::new());
    assert_eq!(kitties.kitties_owned(2), vec![0]);
    assert_eq!(rt.free_balance(1), 10_000_020_000);
    assert_eq!(rt.reserved(1), 0);
    assert_eq!(rt.free_balance(2), 9_999_979_000);
    assert_eq!(rt.reserved(2), 1_000);
}
