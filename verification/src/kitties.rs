//! Kitties: accounts mint kitties by staking a deposit, set prices, hand
//! kitties to each other, buy them and breed new ones from two parents.

use vstd::prelude::*;
use std::collections::HashMap;
use crate::system::{ensure_signed, signer, AccountId, BlockNumber, DispatchError, Origin};

verus! {

broadcast use vstd::std_specs::hash::group_hash_axioms;

/// A kitty's identifier.
pub type KittyIndex = u32;

/// An amount of the runtime's currency.
pub type Balance = u128;

/// A kitty's gender.
#[derive(Clone, Copy, Debug, PartialEq, Eq)]
pub enum Gender {
    Male,
    Female,
}

/// A kitty: its DNA, its asking price (when for sale), its gender and its owner.
#[derive(Clone, Copy, Debug, PartialEq, Eq)]
pub struct Kitty {
    pub dna: [u8; 16],
    pub price: Option<Balance>,
    pub gender: Gender,
    pub owner: AccountId,
}

/// The pallet's own errors.
#[derive(Clone, Copy, Debug, PartialEq, Eq)]
pub enum Error {
    /// The kitty counter would reach its maximum.
    KittyIndexOverflow,
    /// The account already owns as many kitties as allowed.
    ExceedMaxKittyOwned,
    /// The buyer already owns the kitty.
    BuyerIsKittyOwner,
    /// A kitty cannot be transferred to its owner.
    TransferToSelf,
    /// No kitty has this identifier.
    KittyNotExist,
    /// A kitty with this identifier exists already.
    KittyExists,
    /// The caller does not own the kitty.
    NotKittyOwner,
    /// The kitty has no asking price.
    KittyNotForSale,
    /// The bid is not above the asking price.
    KittyBidPriceTooLow,
    /// The account cannot pay the stake or the price.
    NotEnoughBalance,
}

/// What a successful dispatchable reports.
#[derive(Clone, Copy, Debug, PartialEq, Eq)]
pub enum Event {
    /// `(sender, kitty_id)`: a kitty was minted.
    Created(AccountId, KittyIndex),
    /// `(sender, kitty_id, new_price)`: a price was set.
    PriceSet(AccountId, KittyIndex, Option<Balance>),
    /// `(from, to, kitty_id)`: a kitty changed hands.
    Transferred(AccountId, AccountId, KittyIndex),
    /// `(buyer, seller, kitty_id, bid_price)`: a kitty was sold.
    Bought(AccountId, AccountId, KittyIndex, Balance),
    /// `(sender, new_kitty_id, parent1, parent2)`: a kitty was bred.
    BredSuccess(AccountId, KittyIndex, KittyIndex, KittyIndex),
}

/// The answer of a dispatchable.
pub type DispatchResult<C> = Result<Event, DispatchError<Error, C>>;

/// The pallet's storage, read abstractly.
pub struct KittyStore {
    /// How many kitties one account may own.
    pub max_kitty_owned: u32,
    /// What an account stakes for each kitty it holds.
    pub kitty_stake: Balance,
    /// The identifier the next minted kitty gets.
    pub next_kitty_id: KittyIndex,
    /// Every kitty by its identifier.
    pub kitties: Map<KittyIndex, Kitty>,
    /// The kitties each account owns, in storage order.
    pub owned: Map<AccountId, Seq<KittyIndex>>,
}

/// The pallet and its storage.
#[derive(Clone, Debug, PartialEq, Eq)]
pub struct Pallet {
    max_kitty_owned: u32,
    kitty_stake: Balance,
    next_kitty_id: KittyIndex,
    kitties: HashMap<KittyIndex, Kitty>,
    kitties_owned: HashMap<AccountId, Vec<KittyIndex>>,
}

impl View for Pallet {
    type V = KittyStore;

    closed spec fn view(&self) -> KittyStore {
        KittyStore {
            max_kitty_owned: self.max_kitty_owned,
            kitty_stake: self.kitty_stake,
            next_kitty_id: self.next_kitty_id,
            kitties: self.kitties@,
            owned: self.kitties_owned@.map_values(|v: Vec<KittyIndex>| v@),
        }
    }
}

/// The kitties `who` owns; an account never written to owns none.
pub open spec fn owned_of(s: KittyStore, who: AccountId) -> Seq<KittyIndex> {
    if s.owned.contains_key(who) {
        s.owned[who]
    } else {
        Seq::empty()
    }
}

/// The storage invariant: identifiers are handed out in order from zero,
/// and each kitty is listed exactly once, under its owner, whose list stays
/// within the allowed size.
pub open spec fn store_wf(s: KittyStore) -> bool {
    &&& s.next_kitty_id < u32::MAX
    &&& forall|k: KittyIndex| #[trigger] s.kitties.contains_key(k) <==> k < s.next_kitty_id
    &&& forall|a: AccountId|
        #![trigger owned_of(s, a)]
        owned_of(s, a).len() <= s.max_kitty_owned && owned_of(s, a).no_duplicates()
    &&& forall|a: AccountId, k: KittyIndex|
        #[trigger] owned_of(s, a).contains(k) ==> s.kitties.contains_key(k) && s.kitties[k].owner == a
    &&& forall|k: KittyIndex|
        #[trigger] s.kitties.contains_key(k) ==> owned_of(s, s.kitties[k].owner).contains(k)
}

/// What `get_next_id` answers.
pub open spec fn spec_next_id(s: KittyStore) -> Result<KittyIndex, Error> {
    if s.next_kitty_id + 1 == u32::MAX {
        Err(Error::KittyIndexOverflow)
    } else {
        Ok((s.next_kitty_id + 1) as KittyIndex)
    }
}

/// What `is_kitty_owner` answers.
pub open spec fn spec_is_kitty_owner(s: KittyStore, kitty_id: KittyIndex, acct: AccountId) -> Result<bool, Error> {
    if s.kitties.contains_key(kitty_id) {
        Ok(s.kitties[kitty_id].owner == acct)
    } else {
        Err(Error::KittyNotExist)
    }
}

/// The storage after minting a kitty with the given DNA and gender for
/// `owner`, and the new kitty's identifier.
pub open spec fn spec_mint(s: KittyStore, owner: AccountId, dna: [u8; 16], gender: Gender) -> (
    KittyStore,
    Result<KittyIndex, Error>,
) {
    let kitty_id = s.next_kitty_id;
    if s.next_kitty_id + 1 == u32::MAX {
        (s, Err(Error::KittyIndexOverflow))
    } else if s.kitties.contains_key(kitty_id) {
        (s, Err(Error::KittyExists))
    } else if owned_of(s, owner).len() >= s.max_kitty_owned {
        (s, Err(Error::ExceedMaxKittyOwned))
    } else {
        (
            KittyStore {
                next_kitty_id: (kitty_id + 1) as KittyIndex,
                kitties: s.kitties.insert(kitty_id, Kitty { dna, price: None, gender, owner }),
                owned: s.owned.insert(owner, owned_of(s, owner).push(kitty_id)),
                ..s
            },
            Ok(kitty_id),
        )
    }
}

/// The storage after `set_price` and whether it succeeded.
pub open spec fn spec_set_price(s: KittyStore, origin: Origin, kitty_id: KittyIndex, new_price: Option<Balance>) -> (
    KittyStore,
    Result<(), DispatchError<Error, ()>>,
) {
    match signer(origin) {
        None => (s, Err(DispatchError::BadOrigin)),
        Some(who) => if !s.kitties.contains_key(kitty_id) {
            (s, Err(DispatchError::Module(Error::KittyNotExist)))
        } else if s.kitties[kitty_id].owner != who {
            (s, Err(DispatchError::Module(Error::NotKittyOwner)))
        } else {
            (
                KittyStore {
                    kitties: s.kitties.insert(kitty_id, Kitty { price: new_price, ..s.kitties[kitty_id] }),
                    ..s
                },
                Ok(()),
            )
        },
    }
}


/// The first slot of `l` that holds `x`.
pub open spec fn first_index(l: Seq<KittyIndex>, x: KittyIndex) -> int {
    choose|i: int| 0 <= i < l.len() && l[i] == x && forall|j: int| 0 <= j < i ==> l[j] != x
}

/// `l` with its last element moved into slot `i` and the last slot dropped.
pub open spec fn swap_remove_at(l: Seq<KittyIndex>, i: int) -> Seq<KittyIndex> {
    l.update(i, l.last()).drop_last()
}

/// The storage after moving kitty `kitty_id` to `to` (its price is
/// cleared), and whether that succeeded. A receiver with a full list fails
/// the move after the kitty has left its previous owner's list.
pub open spec fn spec_transfer_kitty_to(s: KittyStore, kitty_id: KittyIndex, to: AccountId) -> (
    KittyStore,
    Result<(), Error>,
) {
    if !s.kitties.contains_key(kitty_id) {
        (s, Err(Error::KittyNotExist))
    } else {
        let kitty = s.kitties[kitty_id];
        let prev = kitty.owner;
        let list = owned_of(s, prev);
        if !list.contains(kitty_id) {
            (s, Err(Error::KittyNotExist))
        } else {
            let s1 = KittyStore {
                owned: s.owned.insert(prev, swap_remove_at(list, first_index(list, kitty_id))),
                kitties: s.kitties.insert(kitty_id, Kitty { owner: to, price: None, ..kitty }),
                ..s
            };
            let to_list = owned_of(s1, to);
            if to_list.len() >= s.max_kitty_owned {
                (s1, Err(Error::ExceedMaxKittyOwned))
            } else {
                (KittyStore { owned: s1.owned.insert(to, to_list.push(kitty_id)), ..s1 }, Ok(()))
            }
        }
    }
}

/// The first slot of `l` that holds `x`, if any.
fn position(l: &Vec<KittyIndex>, x: KittyIndex) -> (r: Option<usize>)
    ensures
        match r {
            Some(i) => i < l@.len() && l@[i as int] == x && i == first_index(l@, x),
            None => !l@.contains(x),
        },
{
    let n = l.len();
    let mut i: usize = 0;
    while i < n
        invariant
            n == l@.len(),
            0 <= i <= n,
            forall|j: int| 0 <= j < i ==> l@[j] != x,
        decreases n - i,
    {
        if l[i] == x {
            proof {
                let c = first_index(l@, x);
                assert(0 <= c < l@.len() && l@[c] == x && forall|j: int| 0 <= j < c ==> l@[j] != x);
                if c < i {
                    assert(l@[c] != x);
                } else if c > i {
                    assert(l@[i as int] != x);
                }
            }
            return Some(i);
        }
        i = i + 1;
    }
    None
}

/// Removing slot `i` of a list without duplicates by moving the last
/// element there drops exactly the element at `i`.
pub proof fn lemma_swap_remove_contents(l: Seq<KittyIndex>, i: int)
    requires
        l.no_duplicates(),
        0 <= i < l.len(),
    ensures
        swap_remove_at(l, i).len() == l.len() - 1,
        swap_remove_at(l, i).no_duplicates(),
        forall|x: KittyIndex| #[trigger] swap_remove_at(l, i).contains(x) <==> (l.contains(x) && x != l[i]),
{
    let t = swap_remove_at(l, i);
    let n = l.len() - 1;
    assert forall|a: int| 0 <= a < t.len() implies #[trigger] t[a] == l[if a == i { n } else { a }] by {}
    assert forall|a: int, b: int| 0 <= a < t.len() && 0 <= b < t.len() && a != b implies t[a] != t[b] by {
        let sa = if a == i { n } else { a };
        let sb = if b == i { n } else { b };
        assert(t[a] == l[sa]);
        assert(t[b] == l[sb]);
    }
    assert forall|x: KittyIndex| #[trigger] t.contains(x) <==> (l.contains(x) && x != l[i]) by {
        if t.contains(x) {
            let a = choose|a: int| 0 <= a < t.len() && t[a] == x;
            let sa = if a == i { n } else { a };
            assert(t[a] == l[sa]);
            assert(sa != i);
            assert(l[sa] != l[i]);
        }
        if l.contains(x) && x != l[i] {
            let a = choose|a: int| 0 <= a < l.len() && l[a] == x;
            assert(a != i);
            if a == n {
                assert(t[i] == l[n]);
            } else {
                assert(t[a] == l[a]);
            }
        }
    }
}

/// On a well-formed store, moving a kitty fails only when it does not
/// exist or when the receiver is another account whose list is full; a
/// successful move keeps the storage invariant.
pub proof fn lemma_transfer_kitty_to_wf(s: KittyStore, kitty_id: KittyIndex, to: AccountId)
    requires
        store_wf(s),
    ensures
        spec_transfer_kitty_to(s, kitty_id, to).1 == (if !s.kitties.contains_key(kitty_id) {
            Err::<(), Error>(Error::KittyNotExist)
        } else if to != s.kitties[kitty_id].owner && owned_of(s, to).len() >= s.max_kitty_owned {
            Err::<(), Error>(Error::ExceedMaxKittyOwned)
        } else {
            Ok::<(), Error>(())
        }),
        spec_transfer_kitty_to(s, kitty_id, to).1 is Ok ==> store_wf(spec_transfer_kitty_to(s, kitty_id, to).0),
{
    if s.kitties.contains_key(kitty_id) {
        let kitty = s.kitties[kitty_id];
        let prev = kitty.owner;
        let list = owned_of(s, prev);
        assert(list.contains(kitty_id));
        let idx = first_index(list, kitty_id);
        let pi = choose|i: int| 0 <= i < list.len() && list[i] == kitty_id;
        assert(exists|i: int| 0 <= i < list.len() && list[i] == kitty_id && forall|j: int| 0 <= j < i ==> list[j] != kitty_id) by {
            assert(list.no_duplicates());
            assert forall|j: int| 0 <= j < pi implies list[j] != kitty_id by {}
        }
        assert(list[idx] == kitty_id);
        lemma_swap_remove_contents(list, idx);
        let rest = swap_remove_at(list, idx);
        let s1 = KittyStore {
            owned: s.owned.insert(prev, rest),
            kitties: s.kitties.insert(kitty_id, Kitty { owner: to, price: None, ..kitty }),
            ..s
        };
        assert(owned_of(s1, prev) == rest);
        let to_list = owned_of(s1, to);
        if to == prev {
            assert(to_list.len() < s.max_kitty_owned);
        } else {
            assert(to_list == owned_of(s, to));
        }
        let (t, r) = spec_transfer_kitty_to(s, kitty_id, to);
        if r is Ok {
            assert(!to_list.contains(kitty_id)) by {
                if to != prev && to_list.contains(kitty_id) {
                    assert(owned_of(s, to).contains(kitty_id));
                }
            }
            assert(owned_of(t, to) == to_list.push(kitty_id));
            assert forall|a: AccountId| #![trigger owned_of(t, a)]
                owned_of(t, a).len() <= t.max_kitty_owned && owned_of(t, a).no_duplicates() by {
                if a == to {
                    let l = to_list;
                    assert forall|i: int, j: int| 0 <= i < l.push(kitty_id).len() && 0 <= j < l.push(kitty_id).len() && i != j
                        implies l.push(kitty_id)[i] != l.push(kitty_id)[j] by {
                        if i < l.len() && j < l.len() {
                            if to != prev {
                                assert(owned_of(s, to).no_duplicates());
                            }
                        } else if i < l.len() {
                            assert(l.contains(l[i]));
                        } else {
                            assert(l.contains(l[j]));
                        }
                    }
                } else if a == prev {
                    assert(owned_of(t, a) == rest);
                } else {
                    assert(owned_of(t, a) == owned_of(s, a));
                }
            }
            assert forall|a: AccountId, k: KittyIndex| #[trigger] owned_of(t, a).contains(k)
                implies t.kitties.contains_key(k) && t.kitties[k].owner == a by {
                if a == to {
                    if k != kitty_id {
                        let i = choose|i: int| 0 <= i < to_list.push(kitty_id).len() && to_list.push(kitty_id)[i] == k;
                        assert(to_list[i] == k);
                        assert(to_list.contains(k));
                        if to == prev {
                            assert(rest.contains(k));
                            assert(list.contains(k));
                        } else {
                            assert(owned_of(s, to).contains(k));
                        }
                    }
                } else if a == prev {
                    assert(owned_of(t, a) == rest);
                    assert(rest.contains(k));
                    assert(list.contains(k));
                } else {
                    assert(owned_of(t, a) == owned_of(s, a));
                    assert(owned_of(s, a).contains(k));
                    assert(k != kitty_id);
                }
            }
            assert forall|k: KittyIndex| #[trigger] t.kitties.contains_key(k)
                implies owned_of(t, t.kitties[k].owner).contains(k) by {
                if k == kitty_id {
                    assert(to_list.push(kitty_id)[to_list.len() as int] == kitty_id);
                } else {
                    let a = s.kitties[k].owner;
                    assert(owned_of(s, a).contains(k));
                    assert(t.kitties[k] == s.kitties[k]);
                    if a == prev {
                        assert(rest.contains(k));
                        if to == prev {
                            let i = choose|i: int| 0 <= i < rest.len() && rest[i] == k;
                            assert(to_list.push(kitty_id)[i] == k);
                        } else {
                            assert(owned_of(t, a) == rest);
                        }
                    } else if a == to {
                        let i = choose|i: int| 0 <= i < owned_of(s, to).len() && owned_of(s, to)[i] == k;
                        assert(to_list.push(kitty_id)[i] == k);
                    } else {
                        assert(owned_of(t, a) == owned_of(s, a));
                    }
                }
            }
        }
    }
}


/// What the runtime supplies to the pallet: its currency, its source of
/// randomness and the position of the current extrinsic. The runtime that
/// hosts the pallet implements it; the clauses below are what an
/// implementation owes: the currency keeps a free and a reserved balance
/// per account and moves amounts between them as each method says.
pub trait Config: Sized {
    /// The currency's own error.
    type CurrencyError;

    /// The free balance of `who`.
    spec fn free_of(&self, who: AccountId) -> Balance;

    /// The reserved balance of `who`.
    spec fn reserved_of(&self, who: AccountId) -> Balance;

    /// Whether reserving `amount` of `who`'s balance would succeed now.
    spec fn can_reserve(&self, who: AccountId, amount: Balance) -> bool;

    /// Whether transferring `value` from `source` to `dest` would succeed now.
    spec fn can_transfer(&self, source: AccountId, dest: AccountId, value: Balance) -> bool;

    /// The random hash the runtime currently gives for `subject`.
    spec fn random_seed(&self, subject: Seq<u8>) -> [u8; 32];

    /// The index of the extrinsic being executed, if any.
    spec fn current_extrinsic_index(&self) -> Option<u32>;

    /// The current block number.
    spec fn current_block(&self) -> BlockNumber;

    /// Move `amount` of `who`'s free balance to its reserved balance. It
    /// succeeds exactly when `can_reserve` says so, never when the free
    /// balance is lower than `amount`; a failed call moves nothing.
    fn reserve(&mut self, who: AccountId, amount: Balance) -> (r: Result<(), ()>)
        ensures
            r is Ok == old(self).can_reserve(who, amount),
            old(self).free_of(who) < amount ==> r is Err,
            r is Ok ==> forall|a: AccountId|
                #![trigger final(self).free_of(a)]
                #![trigger final(self).reserved_of(a)]
                final(self).free_of(a) == old(self).free_of(a) - (if a == who { amount as int } else { 0 })
                && final(self).reserved_of(a) == old(self).reserved_of(a) + (if a == who { amount as int } else { 0 }),
            r is Err ==> *final(self) == *old(self),
    ;

    /// Move as much as possible, up to `amount`, of `who`'s reserved balance
    /// back to its free balance, which saturates at the largest balance;
    /// answers the part that could not be moved.
    fn unreserve(&mut self, who: AccountId, amount: Balance) -> (r: Balance)
        ensures
            r == amount - unreserved_part(old(self).reserved_of(who), amount),
            forall|a: AccountId|
                #![trigger final(self).free_of(a)]
                #![trigger final(self).reserved_of(a)]
                final(self).free_of(a) == old(self).free_of(a) + (if a == who {
                    saturating_credit(old(self).free_of(who), unreserved_part(old(self).reserved_of(who), amount) as int)
                } else {
                    0
                })
                && final(self).reserved_of(a) == old(self).reserved_of(a)
                    - (if a == who { unreserved_part(old(self).reserved_of(who), amount) as int } else { 0 }),
    ;

    /// The free balance of `who`.
    fn free_balance(&self, who: AccountId) -> (r: Balance)
        ensures
            r == self.free_of(who),
    ;

    /// Transfer `value` of free balance from `source` to `dest`, keeping
    /// `source` alive. It succeeds exactly when `can_transfer` says so,
    /// never when `source`'s free balance is lower than `value`; a failed
    /// call changes nothing.
    fn transfer(&mut self, source: AccountId, dest: AccountId, value: Balance) -> (r: Result<(), Self::CurrencyError>)
        ensures
            r is Ok == old(self).can_transfer(source, dest, value),
            old(self).free_of(source) < value ==> r is Err,
            r is Err ==> *final(self) == *old(self),
            r is Ok && source != dest ==> forall|a: AccountId|
                #![trigger final(self).free_of(a)]
                #![trigger final(self).reserved_of(a)]
                final(self).free_of(a) == old(self).free_of(a)
                    - (if a == source { value as int } else { 0 }) + (if a == dest { value as int } else { 0 })
                && final(self).reserved_of(a) == old(self).reserved_of(a),
            source == dest ==> forall|a: AccountId|
                #![trigger final(self).free_of(a)]
                #![trigger final(self).reserved_of(a)]
                final(self).free_of(a) == old(self).free_of(a) && final(self).reserved_of(a) == old(self).reserved_of(a),
    ;

    /// The random hash for `subject`.
    fn random(&self, subject: &[u8]) -> (r: [u8; 32])
        ensures
            r == self.random_seed(subject@),
    ;

    /// The index of the extrinsic being executed, if any.
    fn extrinsic_index(&self) -> (r: Option<u32>)
        ensures
            r == self.current_extrinsic_index(),
    ;

    /// The current block number.
    fn block_number(&self) -> (r: BlockNumber)
        ensures
            r == self.current_block(),
    ;
}

/// How much of `amount` an unreserve moves when `reserved` is held.
pub open spec fn unreserved_part(reserved: Balance, amount: Balance) -> Balance {
    if amount <= reserved {
        amount
    } else {
        reserved
    }
}

/// What adding `amount` to the free balance `free` adds once it saturates
/// at the largest balance.
pub open spec fn saturating_credit(free: Balance, amount: int) -> int {
    if free + amount > u128::MAX {
        u128::MAX - free
    } else {
        amount
    }
}

/// What releasing up to `amount` of `who`'s reserve in `rt` adds to its
/// free balance.
pub open spec fn release_credit<T: Config>(rt: T, who: AccountId, amount: Balance) -> int {
    saturating_credit(rt.free_of(who), unreserved_part(rt.reserved_of(who), amount) as int)
}

/// Each account's free and reserved balances in `t` are those in `s`
/// changed by `free` and `reserved`.
pub open spec fn balances_moved<T: Config>(
    s: T,
    t: T,
    free: spec_fn(AccountId) -> int,
    reserved: spec_fn(AccountId) -> int,
) -> bool {
    forall|a: AccountId|
        #![trigger t.free_of(a)]
        #![trigger t.reserved_of(a)]
        t.free_of(a) == s.free_of(a) + free(a) && t.reserved_of(a) == s.reserved_of(a) + reserved(a)
}

/// `x` for `who`, nothing for any other account.
pub open spec fn only(who: AccountId, x: int) -> spec_fn(AccountId) -> int {
    |a: AccountId| if a == who { x } else { 0 }
}

/// `x` for `first`, `y` for `second`, nothing for any other account.
pub open spec fn pair(first: AccountId, x: int, second: AccountId, y: int) -> spec_fn(AccountId) -> int {
    |a: AccountId| if a == first { x } else if a == second { y } else { 0 }
}

/// No balance changed between `s` and `t`.
pub open spec fn same_balances<T: Config>(s: T, t: T) -> bool {
    balances_moved(s, t, only(0, 0), only(0, 0))
}

/// The subject under which fresh DNA is drawn: the bytes of "dna".
pub open spec fn dna_subject() -> Seq<u8> {
    seq![100u8, 110u8, 97u8]
}

/// The subject under which a gender is drawn: the bytes of "gender".
pub open spec fn gender_subject() -> Seq<u8> {
    seq![103u8, 101u8, 110u8, 100u8, 101u8, 114u8]
}

/// The fresh DNA the runtime `rt` gives: drawn from its randomness for
/// "dna", its extrinsic index (zero when there is none) and its block.
pub open spec fn fresh_dna_of<T: Config>(rt: T) -> Seq<u8> {
    spec_fresh_dna(
        rt.random_seed(dna_subject()),
        match rt.current_extrinsic_index() {
            Some(i) => i,
            None => 0,
        },
        rt.current_block(),
    )
}

/// The gender the runtime `rt` gives: from its randomness for "gender".
pub open spec fn gender_from_runtime<T: Config>(rt: T) -> Gender {
    spec_gender_of(rt.random_seed(gender_subject()))
}

/// The Blake2b-128 hash of `data`.
pub uninterp spec fn blake2_128_hash(data: Seq<u8>) -> Seq<u8>;

/// `sp_io::hashing::blake2_128`: the 16-byte Blake2b hash of `data`. Its
/// contract only names the result as a function of the bytes hashed.
#[verifier::external_body]
fn blake2_128(data: &Vec<u8>) -> (r: [u8; 16])
    ensures
        r@ == blake2_128_hash(data@),
{
    sp_io::hashing::blake2_128(data.as_slice())
}

/// The four bytes of `x`, least significant first.
pub open spec fn le_bytes_u32(x: u32) -> Seq<u8> {
    seq![(x % 256) as u8, ((x / 256) % 256) as u8, ((x / 65536) % 256) as u8, ((x / 16777216) % 256) as u8]
}

/// The eight bytes of `x`, least significant first.
pub open spec fn le_bytes_u64(x: u64) -> Seq<u8> {
    le_bytes_u32((x % 4294967296) as u32) + le_bytes_u32((x / 4294967296) as u32)
}

/// The encoding of the tuple (random seed, extrinsic index, block number)
/// that fresh DNA is hashed from: the seed's bytes, then each integer's
/// bytes least significant first.
pub open spec fn dna_payload(seed: Seq<u8>, extrinsic_index: u32, block_number: BlockNumber) -> Seq<u8> {
    seed + le_bytes_u32(extrinsic_index) + le_bytes_u64(block_number)
}

/// Fresh DNA drawn from the given seed, extrinsic index and block number.
pub open spec fn spec_fresh_dna(seed: [u8; 32], extrinsic_index: u32, block_number: BlockNumber) -> Seq<u8> {
    blake2_128_hash(dna_payload(seed@, extrinsic_index, block_number))
}

/// One byte of a child's DNA: the bits of `a` where `selector` is set,
/// the bits of `b` elsewhere.
pub open spec fn mix_byte(selector: u8, a: u8, b: u8) -> u8 {
    (selector & a) | (!selector & b)
}

/// `child` is the byte-wise mix of `a` and `b` under `selector`.
pub open spec fn dna_mixes(child: Seq<u8>, selector: Seq<u8>, a: Seq<u8>, b: Seq<u8>) -> bool {
    &&& child.len() == 16
    &&& forall|i: int| 0 <= i < 16 ==> #[trigger] child[i] == mix_byte(selector[i], a[i], b[i])
}

/// The gender a random seed gives: male when its first byte is even.
pub open spec fn spec_gender_of(seed: [u8; 32]) -> Gender {
    if seed[0] % 2 == 0 {
        Gender::Male
    } else {
        Gender::Female
    }
}

/// Append the bytes of `x`, least significant first.
fn push_le_u32(out: &mut Vec<u8>, x: u32)
    ensures
        final(out)@ == old(out)@ + le_bytes_u32(x),
{
    out.push((x % 256) as u8);
    out.push(((x / 256) % 256) as u8);
    out.push(((x / 65536) % 256) as u8);
    out.push(((x / 16777216) % 256) as u8);
    assert(out@ =~= old(out)@ + le_bytes_u32(x));
}

/// The bytes that fresh DNA is hashed from.
fn encode_dna_payload(seed: &[u8; 32], extrinsic_index: u32, block_number: BlockNumber) -> (r: Vec<u8>)
    ensures
        r@ == dna_payload(seed@, extrinsic_index, block_number),
{
    let mut out: Vec<u8> = Vec::new();
    let mut i: usize = 0;
    while i < 32
        invariant
            0 <= i <= 32,
            out@ == seed@.subrange(0, i as int),
        decreases 32 - i,
    {
        out.push(seed[i]);
        i = i + 1;
        assert(out@ =~= seed@.subrange(0, i as int));
    }
    assert(seed@.subrange(0, 32) =~= seed@);
    push_le_u32(&mut out, extrinsic_index);
    push_le_u32(&mut out, (block_number % 4294967296) as u32);
    push_le_u32(&mut out, (block_number / 4294967296) as u32);
    assert(out@ =~= dna_payload(seed@, extrinsic_index, block_number));
    out
}

/// Fresh DNA: the Blake2b-128 hash of the encoded seed, extrinsic index
/// and block number.
pub fn dna_from_entropy(seed: &[u8; 32], extrinsic_index: u32, block_number: BlockNumber) -> (r: [u8; 16])
    ensures
        r@ == spec_fresh_dna(*seed, extrinsic_index, block_number),
{
    let payload = encode_dna_payload(seed, extrinsic_index, block_number);
    blake2_128(&payload)
}

/// The byte-wise mix of `dna1` and `dna2`: each bit from `dna1` where
/// `selector` has it set, from `dna2` elsewhere.
pub fn mix_dna(selector: &[u8; 16], dna1: &[u8; 16], dna2: &[u8; 16]) -> (r: [u8; 16])
    ensures
        dna_mixes(r@, selector@, dna1@, dna2@),
{
    let mut out: [u8; 16] = *selector;
    let mut i: usize = 0;
    while i < 16
        invariant
            0 <= i <= 16,
            out@.len() == 16,
            forall|j: int| 0 <= j < i ==> #[trigger] out@[j] == mix_byte(selector@[j], dna1@[j], dna2@[j]),
        decreases 16 - i,
    {
        let s = selector[i];
        out[i] = (s & dna1[i]) | (!s & dna2[i]);
        i = i + 1;
    }
    out
}

/// The gender a random seed gives.
pub fn gender_from_seed(seed: &[u8; 32]) -> (r: Gender)
    ensures
        r == spec_gender_of(*seed),
        (r == Gender::Male) <==> seed[0] % 2 == 0,
{
    if seed[0] % 2 == 0 {
        Gender::Male
    } else {
        Gender::Female
    }
}

/// Fresh DNA from the runtime's randomness for "dna", the extrinsic index
/// (zero when there is none) and the block number.
fn gen_dna<T: Config>(rt: &T) -> (r: [u8; 16])
    ensures
        r@ == fresh_dna_of(*rt),
{
    let subject: [u8; 3] = [100, 110, 97];
    assert(subject@ =~= dna_subject());
    let seed = rt.random(subject.as_slice());
    let index = match rt.extrinsic_index() {
        Some(i) => i,
        None => 0,
    };
    let block = rt.block_number();
    dna_from_entropy(&seed, index, block)
}

/// A gender from the runtime's randomness for "gender".
fn gen_gender<T: Config>(rt: &T) -> (r: Gender)
    ensures
        r == gender_from_runtime(*rt),
{
    let subject: [u8; 6] = [103, 101, 110, 100, 101, 114];
    assert(subject@ =~= gender_subject());
    let seed = rt.random(subject.as_slice());
    gender_from_seed(&seed)
}


/// The answer to an unsigned call.
pub open spec fn bad_origin<C>() -> DispatchResult<C> {
    Err(DispatchError::BadOrigin)
}

/// The answer when the pallet refuses a call with `e`.
pub open spec fn refused<C>(e: Error) -> DispatchResult<C> {
    Err(DispatchError::Module(e))
}

/// The answer a dispatchable gives for the outcome of a mint, reporting a
/// new kitty with `event`.
pub open spec fn mint_answer<C>(m: Result<KittyIndex, Error>, event: Event) -> DispatchResult<C> {
    match m {
        Ok(_) => Ok(event),
        Err(e) => Err(DispatchError::Module(e)),
    }
}

/// The checks that `transfer` makes before touching the currency, in order.
pub open spec fn transfer_error(s: KittyStore, from: AccountId, to: AccountId, kitty_id: KittyIndex) -> Option<Error> {
    if !s.kitties.contains_key(kitty_id) {
        Some(Error::KittyNotExist)
    } else if s.kitties[kitty_id].owner != from {
        Some(Error::NotKittyOwner)
    } else if from == to {
        Some(Error::TransferToSelf)
    } else if owned_of(s, to).len() >= s.max_kitty_owned {
        Some(Error::ExceedMaxKittyOwned)
    } else {
        None
    }
}

/// The checks that `buy_kitty` makes before touching the currency, in order.
pub open spec fn buy_error(s: KittyStore, buyer: AccountId, kitty_id: KittyIndex, bid_price: Balance) -> Option<Error> {
    if !s.kitties.contains_key(kitty_id) {
        Some(Error::KittyNotExist)
    } else if s.kitties[kitty_id].owner == buyer {
        Some(Error::BuyerIsKittyOwner)
    } else if owned_of(s, buyer).len() >= s.max_kitty_owned {
        Some(Error::ExceedMaxKittyOwned)
    } else {
        match s.kitties[kitty_id].price {
            Some(ask) => if bid_price <= ask {
                Some(Error::KittyBidPriceTooLow)
            } else {
                None
            },
            None => Some(Error::KittyNotForSale),
        }
    }
}

/// The checks that `breed_kitty` makes once the stake is reserved, in order.
pub open spec fn breed_error(s: KittyStore, who: AccountId, parent1: KittyIndex, parent2: KittyIndex) -> Option<Error> {
    match spec_is_kitty_owner(s, parent1, who) {
        Err(e) => Some(e),
        Ok(false) => Some(Error::NotKittyOwner),
        Ok(true) => match spec_is_kitty_owner(s, parent2, who) {
            Err(e) => Some(e),
            Ok(false) => Some(Error::NotKittyOwner),
            Ok(true) => None,
        },
    }
}

impl Pallet {
    /// The storage invariant holds.
    pub open spec fn wf(&self) -> bool {
        store_wf(self@)
    }

    /// An empty pallet: no kitties, identifiers starting from zero.
    pub fn new(max_kitty_owned: u32, kitty_stake: Balance) -> (p: Pallet)
        ensures
            p.wf(),
            p@.max_kitty_owned == max_kitty_owned,
            p@.kitty_stake == kitty_stake,
            p@.next_kitty_id == 0,
            p@.kitties == Map::<KittyIndex, Kitty>::empty(),
            p@.owned == Map::<AccountId, Seq<KittyIndex>>::empty(),
    {
        let p = Pallet {
            max_kitty_owned,
            kitty_stake,
            next_kitty_id: 0,
            kitties: HashMap::new(),
            kitties_owned: HashMap::new(),
        };
        assert(p@.owned =~= Map::<AccountId, Seq<KittyIndex>>::empty());
        p
    }

    /// How many kitties one account may own.
    pub fn max_kitty_owned(&self) -> (r: u32)
        ensures
            r == self@.max_kitty_owned,
    {
        self.max_kitty_owned
    }

    /// The stake reserved for each kitty.
    pub fn kitty_stake(&self) -> (r: Balance)
        ensures
            r == self@.kitty_stake,
    {
        self.kitty_stake
    }

    /// The identifier the next minted kitty gets.
    pub fn get_kitty_id(&self) -> (r: KittyIndex)
        ensures
            r == self@.next_kitty_id,
    {
        self.next_kitty_id
    }

    /// The kitty with identifier `kitty_id`, if any.
    pub fn kitties(&self, kitty_id: KittyIndex) -> (r: Option<Kitty>)
        ensures
            r == (if self@.kitties.contains_key(kitty_id) {
                Some(self@.kitties[kitty_id])
            } else {
                None::<Kitty>
            }),
    {
        match self.kitties.get(&kitty_id) {
            Some(k) => Some(*k),
            None => None,
        }
    }

    /// The kitties `who` owns.
    pub fn kitties_owned(&self, who: AccountId) -> (r: Vec<KittyIndex>)
        ensures
            r@ == owned_of(self@, who),
    {
        match self.kitties_owned.get(&who) {
            Some(v) => {
                let r = v.clone();
                assert(r@ =~= v@);
                r
            },
            None => Vec::new(),
        }
    }

    /// The identifier after the current one, unless that would be the
    /// largest identifier.
    pub fn get_next_id(&self) -> (r: Result<KittyIndex, Error>)
        requires
            self@.next_kitty_id < u32::MAX,
        ensures
            r == spec_next_id(self@),
    {
        let kitty_id = self.next_kitty_id + 1;
        if kitty_id == u32::MAX {
            return Err(Error::KittyIndexOverflow);
        }
        Ok(kitty_id)
    }

    /// The kitty with identifier `kitty_id`, or `KittyNotExist`.
    fn get_kitty(&self, kitty_id: KittyIndex) -> (r: Result<Kitty, Error>)
        ensures
            r == (if self@.kitties.contains_key(kitty_id) {
                Ok::<Kitty, Error>(self@.kitties[kitty_id])
            } else {
                Err::<Kitty, Error>(Error::KittyNotExist)
            }),
    {
        match self.kitties(kitty_id) {
            Some(kitty) => Ok(kitty),
            None => Err(Error::KittyNotExist),
        }
    }

    /// Whether `acct` owns kitty `kitty_id`, or `KittyNotExist`.
    pub fn is_kitty_owner(&self, kitty_id: KittyIndex, acct: AccountId) -> (r: Result<bool, Error>)
        ensures
            r == spec_is_kitty_owner(self@, kitty_id, acct),
    {
        match self.kitties(kitty_id) {
            Some(kitty) => Ok(kitty.owner == acct),
            None => Err(Error::KittyNotExist),
        }
    }

    /// Write `list` as the kitties `who` owns.
    fn put_owned(&mut self, who: AccountId, list: Vec<KittyIndex>)
        ensures
            final(self)@ == (KittyStore { owned: old(self)@.owned.insert(who, list@), ..old(self)@ }),
    {
        self.kitties_owned.insert(who, list);
        assert(self@.owned =~= old(self)@.owned.insert(who, list@));
    }

    /// Write `kitty` under `kitty_id`.
    fn put_kitty(&mut self, kitty_id: KittyIndex, kitty: Kitty)
        ensures
            final(self)@ == (KittyStore { kitties: old(self)@.kitties.insert(kitty_id, kitty), ..old(self)@ }),
    {
        self.kitties.insert(kitty_id, kitty);
        assert(self@.owned =~= old(self)@.owned);
    }

    /// Mint a kitty with the given DNA and gender for `owner`.
    pub fn mint_kitty(&mut self, owner: AccountId, dna: [u8; 16], gender: Gender) -> (r: Result<KittyIndex, Error>)
        requires
            old(self).wf(),
        ensures
            final(self).wf(),
            (final(self)@, r) == spec_mint(old(self)@, owner, dna, gender),
    {
        let kitty = Kitty { dna, price: None, gender, owner };
        let kitty_id = self.next_kitty_id;
        let next_id = match self.get_next_id() {
            Ok(id) => id,
            Err(e) => return Err(e),
        };
        if self.kitties(kitty_id).is_some() {
            return Err(Error::KittyExists);
        }
        let mut list = self.kitties_owned(owner);
        if list.len() >= self.max_kitty_owned as usize {
            return Err(Error::ExceedMaxKittyOwned);
        }
        list.push(kitty_id);
        self.put_owned(owner, list);
        self.put_kitty(kitty_id, kitty);
        self.next_kitty_id = next_id;
        proof {
            lemma_mint_keeps_wf(old(self)@, owner, dna, gender);
        }
        Ok(kitty_id)
    }

    /// Move kitty `kitty_id` from its owner to `to` and take it off sale.
    pub fn transfer_kitty_to(&mut self, kitty_id: KittyIndex, to: AccountId) -> (r: Result<(), Error>)
        ensures
            (final(self)@, r) == spec_transfer_kitty_to(old(self)@, kitty_id, to),
            old(self).wf() && r is Ok ==> final(self).wf(),
    {
        let mut kitty = match self.kitties(kitty_id) {
            Some(k) => k,
            None => return Err(Error::KittyNotExist),
        };
        let prev_owner = kitty.owner;
        let mut owned = self.kitties_owned(prev_owner);
        let ind = match position(&owned, kitty_id) {
            Some(i) => i,
            None => return Err(Error::KittyNotExist),
        };
        owned.swap_remove(ind);
        self.put_owned(prev_owner, owned);
        kitty.owner = to;
        kitty.price = None;
        self.put_kitty(kitty_id, kitty);
        let mut to_owned = self.kitties_owned(to);
        if to_owned.len() >= self.max_kitty_owned as usize {
            return Err(Error::ExceedMaxKittyOwned);
        }
        to_owned.push(kitty_id);
        self.put_owned(to, to_owned);
        proof {
            if old(self).wf() {
                lemma_transfer_kitty_to_wf(old(self)@, kitty_id, to);
            }
        }
        Ok(())
    }

    /// New DNA for a child of `parent1` and `parent2`: each bit comes from
    /// one of the parents, chosen by the runtime's fresh DNA.
    pub fn breed_dna<T: Config>(&self, rt: &T, parent1: KittyIndex, parent2: KittyIndex) -> (r: Result<[u8; 16], Error>)
        ensures
            !self@.kitties.contains_key(parent1) ==> r == Err::<[u8; 16], Error>(Error::KittyNotExist),
            self@.kitties.contains_key(parent1) && !self@.kitties.contains_key(parent2)
                ==> r == Err::<[u8; 16], Error>(Error::KittyNotExist),
            self@.kitties.contains_key(parent1) && self@.kitties.contains_key(parent2) ==> {
                &&& r is Ok
                &&& dna_mixes(r->Ok_0@, fresh_dna_of(*rt), self@.kitties[parent1].dna@, self@.kitties[parent2].dna@)
            },
    {
        let dna1 = match self.get_kitty(parent1) {
            Ok(k) => k.dna,
            Err(e) => return Err(e),
        };
        let dna2 = match self.get_kitty(parent2) {
            Ok(k) => k.dna,
            Err(e) => return Err(e),
        };
        let selector = gen_dna(rt);
        let new_dna = mix_dna(&selector, &dna1, &dna2);
        Ok(new_dna)
    }

    /// Mint a kitty for `owner`, with the given DNA and gender or, where
    /// they are missing, the runtime's fresh ones.
    pub fn mint<T: Config>(&mut self, rt: &T, owner: AccountId, dna: Option<[u8; 16]>, gender: Option<Gender>) -> (r: Result<KittyIndex, Error>)
        requires
            old(self).wf(),
        ensures
            final(self).wf(),
            exists|d: [u8; 16], g: Gender| {
                &&& (final(self)@, r) == #[trigger] spec_mint(old(self)@, owner, d, g)
                &&& match dna {
                    Some(x) => d == x,
                    None => d@ == fresh_dna_of(*rt),
                }
                &&& match gender {
                    Some(x) => g == x,
                    None => g == gender_from_runtime(*rt),
                }
            },
    {
        let d = match dna {
            Some(x) => x,
            None => gen_dna(rt),
        };
        let g = match gender {
            Some(x) => x,
            None => gen_gender(rt),
        };
        let r = self.mint_kitty(owner, d, g);
        assert((final(self)@, r) == spec_mint(old(self)@, owner, d, g));
        r
    }

    /// Stake the deposit and mint a kitty with the runtime's fresh DNA and
    /// gender for the signer.
    pub fn create_kitty<T: Config>(&mut self, rt: &mut T, origin: Origin) -> (r: DispatchResult<T::CurrencyError>)
        requires
            old(self).wf(),
        ensures
            final(self).wf(),
            match signer(origin) {
                None => r == bad_origin::<T::CurrencyError>() && final(self)@ == old(self)@ && *final(rt) == *old(rt),
                Some(who) => {
                    let stake = old(self)@.kitty_stake;
                    if !old(rt).can_reserve(who, stake) {
                        r == refused::<T::CurrencyError>(Error::NotEnoughBalance) && final(self)@ == old(self)@
                            && *final(rt) == *old(rt)
                    } else {
                        &&& balances_moved(*old(rt), *final(rt), only(who, -(stake as int)), only(who, stake as int))
                        &&& exists|d: [u8; 16], g: Gender| {
                            &&& d@ == fresh_dna_of(*final(rt))
                            &&& g == gender_from_runtime(*final(rt))
                            &&& final(self)@ == (#[trigger] spec_mint(old(self)@, who, d, g)).0
                            &&& r == mint_answer::<T::CurrencyError>(spec_mint(old(self)@, who, d, g).1,
                                Event::Created(who, old(self)@.next_kitty_id))
                        }
                    }
                },
            },
    {
        let sender = match ensure_signed(origin) {
            Ok(who) => who,
            Err(_) => return Err(DispatchError::BadOrigin),
        };
        let stake_amount = self.kitty_stake;
        if rt.reserve(sender, stake_amount).is_err() {
            return Err(DispatchError::Module(Error::NotEnoughBalance));
        }
        let ghost before = self@;
        let minted = self.mint(rt, sender, None, None);
        let ghost (d, g) = choose|d: [u8; 16], g: Gender|
            (self@, minted) == #[trigger] spec_mint(before, sender, d, g) && d@ == fresh_dna_of(*rt)
                && g == gender_from_runtime(*rt);
        match minted {
            Ok(kitty_id) => {
                assert(spec_mint(before, sender, d, g).1 == Ok::<KittyIndex, Error>(kitty_id));
                Ok(Event::Created(sender, kitty_id))
            },
            Err(e) => Err(DispatchError::Module(e)),
        }
    }

    /// Hand a kitty the signer owns to `to`: `to` stakes the deposit, the
    /// signer's deposit is released, and the kitty changes hands.
    pub fn transfer<T: Config>(&mut self, rt: &mut T, origin: Origin, to: AccountId, kitty_id: KittyIndex) -> (r: DispatchResult<T::CurrencyError>)
        requires
            old(self).wf(),
        ensures
            final(self).wf(),
            match signer(origin) {
                None => r == bad_origin::<T::CurrencyError>() && final(self)@ == old(self)@ && *final(rt) == *old(rt),
                Some(from) => match transfer_error(old(self)@, from, to, kitty_id) {
                    Some(e) => r == refused::<T::CurrencyError>(e) && final(self)@ == old(self)@ && *final(rt) == *old(rt),
                    None => {
                        let stake = old(self)@.kitty_stake;
                        let part = unreserved_part(old(rt).reserved_of(from), stake) as int;
                        let credit = release_credit(*old(rt), from, stake);
                        if !old(rt).can_reserve(to, stake) {
                            r == refused::<T::CurrencyError>(Error::NotEnoughBalance) && final(self)@ == old(self)@
                                && *final(rt) == *old(rt)
                        } else {
                            &&& r == Ok::<Event, DispatchError<Error, T::CurrencyError>>(Event::Transferred(from, to, kitty_id))
                            &&& final(self)@ == spec_transfer_kitty_to(old(self)@, kitty_id, to).0
                            &&& balances_moved(*old(rt), *final(rt), pair(to, -(stake as int), from, credit),
                                pair(to, stake as int, from, -part))
                        }
                    },
                },
            },
    {
        let from = match ensure_signed(origin) {
            Ok(who) => who,
            Err(_) => return Err(DispatchError::BadOrigin),
        };
        match self.is_kitty_owner(kitty_id, from) {
            Ok(true) => {},
            Ok(false) => return Err(DispatchError::Module(Error::NotKittyOwner)),
            Err(e) => return Err(DispatchError::Module(e)),
        }
        if from == to {
            return Err(DispatchError::Module(Error::TransferToSelf));
        }
        let to_owned = self.kitties_owned(to);
        if to_owned.len() >= self.max_kitty_owned as usize {
            return Err(DispatchError::Module(Error::ExceedMaxKittyOwned));
        }
        let stake_amount = self.kitty_stake;
        let ghost rt0 = *rt;
        if rt.reserve(to, stake_amount).is_err() {
            return Err(DispatchError::Module(Error::NotEnoughBalance));
        }
        let ghost rt1 = *rt;
        rt.unreserve(from, stake_amount);
        proof {
            let stake = stake_amount as int;
            let part = unreserved_part(rt0.reserved_of(from), stake_amount) as int;
            let credit = release_credit(rt0, from, stake_amount);
            assert(rt1.reserved_of(from) == rt0.reserved_of(from));
            assert(rt1.free_of(from) == rt0.free_of(from));
            assert forall|a: AccountId|
                #![trigger rt.free_of(a)]
                #![trigger rt.reserved_of(a)]
                rt.free_of(a) == rt0.free_of(a) + pair(to, -stake, from, credit)(a)
                && rt.reserved_of(a) == rt0.reserved_of(a) + pair(to, stake, from, -part)(a) by {
                assert(rt1.free_of(a) == rt0.free_of(a) - (if a == to { stake } else { 0 }));
                assert(rt1.reserved_of(a) == rt0.reserved_of(a) + (if a == to { stake } else { 0 }));
            }
            lemma_transfer_kitty_to_wf(self@, kitty_id, to);
        }
        match self.transfer_kitty_to(kitty_id, to) {
            Ok(()) => {},
            Err(e) => return Err(DispatchError::Module(e)),
        }
        Ok(Event::Transferred(from, to, kitty_id))
    }

    /// Buy a kitty that is for sale at a price below `bid_price`: the buyer
    /// stakes the deposit, the seller's deposit is released, the bid is paid
    /// to the seller and the kitty changes hands.
    pub fn buy_kitty<T: Config>(&mut self, rt: &mut T, origin: Origin, kitty_id: KittyIndex, bid_price: Balance) -> (r: DispatchResult<T::CurrencyError>)
        requires
            old(self).wf(),
        ensures
            final(self).wf(),
            match signer(origin) {
                None => r == bad_origin::<T::CurrencyError>() && final(self)@ == old(self)@ && *final(rt) == *old(rt),
                Some(buyer) => match buy_error(old(self)@, buyer, kitty_id, bid_price) {
                    Some(e) => r == refused::<T::CurrencyError>(e) && final(self)@ == old(self)@ && *final(rt) == *old(rt),
                    None => {
                        let seller = old(self)@.kitties[kitty_id].owner;
                        let stake = old(self)@.kitty_stake;
                        let bid = bid_price as int;
                        let part = unreserved_part(old(rt).reserved_of(seller), stake) as int;
                        let credit = release_credit(*old(rt), seller, stake);
                        if old(rt).free_of(buyer) <= bid + stake {
                            r == refused::<T::CurrencyError>(Error::NotEnoughBalance) && final(self)@ == old(self)@
                                && *final(rt) == *old(rt)
                        } else if !old(rt).can_reserve(buyer, stake) {
                            r == refused::<T::CurrencyError>(Error::NotEnoughBalance) && final(self)@ == old(self)@
                                && *final(rt) == *old(rt)
                        } else {
                            ||| r matches Err(DispatchError::Runtime(_))
                                && !final(rt).can_transfer(buyer, seller, bid_price)
                                && final(self)@ == old(self)@
                                && balances_moved(*old(rt), *final(rt), pair(buyer, -(stake as int), seller, credit),
                                    pair(buyer, stake as int, seller, -part))
                            ||| r == Ok::<Event, DispatchError<Error, T::CurrencyError>>(Event::Bought(buyer, seller, kitty_id, bid_price))
                                && final(self)@ == spec_transfer_kitty_to(old(self)@, kitty_id, buyer).0
                                && balances_moved(*old(rt), *final(rt), pair(buyer, -(stake as int) - bid, seller, credit + bid),
                                    pair(buyer, stake as int, seller, -part))
                        }
                    },
                },
            },
    {
        let buyer = match ensure_signed(origin) {
            Ok(who) => who,
            Err(_) => return Err(DispatchError::BadOrigin),
        };
        let kitty = match self.kitties(kitty_id) {
            Some(k) => k,
            None => return Err(DispatchError::Module(Error::KittyNotExist)),
        };
        if kitty.owner == buyer {
            return Err(DispatchError::Module(Error::BuyerIsKittyOwner));
        }
        let to_owned = self.kitties_owned(buyer);
        if to_owned.len() >= self.max_kitty_owned as usize {
            return Err(DispatchError::Module(Error::ExceedMaxKittyOwned));
        }
        let seller = kitty.owner;
        match kitty.price {
            Some(ask_price) => {
                if bid_price <= ask_price {
                    return Err(DispatchError::Module(Error::KittyBidPriceTooLow));
                }
            },
            None => return Err(DispatchError::Module(Error::KittyNotForSale)),
        }
        let stake_amount = self.kitty_stake;
        let buyer_balance = rt.free_balance(buyer);
        // A total beyond the largest balance is more than any account holds.
        let enough = match bid_price.checked_add(stake_amount) {
            Some(total) => buyer_balance > total,
            None => false,
        };
        if !enough {
            return Err(DispatchError::Module(Error::NotEnoughBalance));
        }
        let ghost rt0 = *rt;
        if rt.reserve(buyer, stake_amount).is_err() {
            return Err(DispatchError::Module(Error::NotEnoughBalance));
        }
        let ghost rt1 = *rt;
        rt.unreserve(seller, stake_amount);
        let ghost rt2 = *rt;
        let stake = Ghost(stake_amount as int);
        let part = Ghost(unreserved_part(rt0.reserved_of(seller), stake_amount) as int);
        let credit = Ghost(release_credit(rt0, seller, stake_amount));
        proof {
            assert(rt1.reserved_of(seller) == rt0.reserved_of(seller));
            assert(rt1.free_of(seller) == rt0.free_of(seller));
            assert(rt1.free_of(buyer) == rt0.free_of(buyer) - stake@);
            assert forall|a: AccountId|
                #![trigger rt2.free_of(a)]
                #![trigger rt2.reserved_of(a)]
                rt2.free_of(a) == rt0.free_of(a) + pair(buyer, -stake@, seller, credit@)(a)
                && rt2.reserved_of(a) == rt0.reserved_of(a) + pair(buyer, stake@, seller, -part@)(a) by {
                assert(rt1.free_of(a) == rt0.free_of(a) - (if a == buyer { stake@ } else { 0 }));
                assert(rt1.reserved_of(a) == rt0.reserved_of(a) + (if a == buyer { stake@ } else { 0 }));
            }
        }
        if rt.free_balance(buyer) < bid_price {
            return Err(DispatchError::Module(Error::NotEnoughBalance));
        }
        match rt.transfer(buyer, seller, bid_price) {
            Ok(()) => {},
            Err(e) => return Err(DispatchError::Runtime(e)),
        }
        proof {
            let bid = bid_price as int;
            assert forall|a: AccountId|
                #![trigger rt.free_of(a)]
                #![trigger rt.reserved_of(a)]
                rt.free_of(a) == rt0.free_of(a) + pair(buyer, -stake@ - bid, seller, credit@ + bid)(a)
                && rt.reserved_of(a) == rt0.reserved_of(a) + pair(buyer, stake@, seller, -part@)(a) by {
                assert(rt2.free_of(a) == rt0.free_of(a) + pair(buyer, -stake@, seller, credit@)(a));
                assert(rt2.reserved_of(a) == rt0.reserved_of(a) + pair(buyer, stake@, seller, -part@)(a));
            }
            lemma_transfer_kitty_to_wf(self@, kitty_id, buyer);
        }
        match self.transfer_kitty_to(kitty_id, buyer) {
            Ok(()) => {},
            Err(e) => return Err(DispatchError::Module(e)),
        }
        Ok(Event::Bought(buyer, seller, kitty_id, bid_price))
    }

    /// Stake the deposit and breed a new kitty for the signer from two
    /// kitties it owns.
    pub fn breed_kitty<T: Config>(&mut self, rt: &mut T, origin: Origin, parent1: KittyIndex, parent2: KittyIndex) -> (r: DispatchResult<T::CurrencyError>)
        requires
            old(self).wf(),
        ensures
            final(self).wf(),
            match signer(origin) {
                None => r == bad_origin::<T::CurrencyError>() && final(self)@ == old(self)@ && *final(rt) == *old(rt),
                Some(who) => {
                    let stake = old(self)@.kitty_stake;
                    if !old(rt).can_reserve(who, stake) {
                        r == refused::<T::CurrencyError>(Error::NotEnoughBalance) && final(self)@ == old(self)@
                            && *final(rt) == *old(rt)
                    } else {
                        &&& balances_moved(*old(rt), *final(rt), only(who, -(stake as int)), only(who, stake as int))
                        &&& match breed_error(old(self)@, who, parent1, parent2) {
                            Some(e) => r == refused::<T::CurrencyError>(e) && final(self)@ == old(self)@,
                            None => exists|d: [u8; 16], g: Gender| {
                                &&& dna_mixes(d@, fresh_dna_of(*final(rt)),
                                    old(self)@.kitties[parent1].dna@, old(self)@.kitties[parent2].dna@)
                                &&& g == gender_from_runtime(*final(rt))
                                &&& final(self)@ == (#[trigger] spec_mint(old(self)@, who, d, g)).0
                                &&& r == mint_answer::<T::CurrencyError>(spec_mint(old(self)@, who, d, g).1,
                                    Event::BredSuccess(who, old(self)@.next_kitty_id, parent1, parent2))
                            },
                        }
                    }
                },
            },
    {
        let sender = match ensure_signed(origin) {
            Ok(who) => who,
            Err(_) => return Err(DispatchError::BadOrigin),
        };
        let stake_amount = self.kitty_stake;
        if rt.reserve(sender, stake_amount).is_err() {
            return Err(DispatchError::Module(Error::NotEnoughBalance));
        }
        match self.is_kitty_owner(parent1, sender) {
            Ok(true) => {},
            Ok(false) => return Err(DispatchError::Module(Error::NotKittyOwner)),
            Err(e) => return Err(DispatchError::Module(e)),
        }
        match self.is_kitty_owner(parent2, sender) {
            Ok(true) => {},
            Ok(false) => return Err(DispatchError::Module(Error::NotKittyOwner)),
            Err(e) => return Err(DispatchError::Module(e)),
        }
        let new_dna = match self.breed_dna(rt, parent1, parent2) {
            Ok(d) => d,
            Err(e) => return Err(DispatchError::Module(e)),
        };
        let ghost before = self@;
        let minted = self.mint(rt, sender, Some(new_dna), None);
        let ghost g = choose|g: Gender|
            (self@, minted) == #[trigger] spec_mint(before, sender, new_dna, g) && g == gender_from_runtime(*rt);
        assert(dna_mixes(new_dna@, fresh_dna_of(*rt), before.kitties[parent1].dna@, before.kitties[parent2].dna@));
        match minted {
            Ok(kitty_id) => {
                assert(spec_mint(before, sender, new_dna, g).1 == Ok::<KittyIndex, Error>(kitty_id));
                Ok(Event::BredSuccess(sender, kitty_id, parent1, parent2))
            },
            Err(e) => Err(DispatchError::Module(e)),
        }
    }

    /// Set the asking price of a kitty the signer owns; `None` takes it off sale.
    pub fn set_price(&mut self, origin: Origin, kitty_id: KittyIndex, new_price: Option<Balance>) -> (r: DispatchResult<()>)
        requires
            old(self).wf(),
        ensures
            final(self).wf(),
            final(self)@ == spec_set_price(old(self)@, origin, kitty_id, new_price).0,
            match r {
                Ok(ev) => spec_set_price(old(self)@, origin, kitty_id, new_price).1 is Ok
                    && ev == Event::PriceSet(signer(origin)->0, kitty_id, new_price),
                Err(e) => spec_set_price(old(self)@, origin, kitty_id, new_price).1 == Err::<(), DispatchError<Error, ()>>(e),
            },
    {
        let sender = match ensure_signed(origin) {
            Ok(who) => who,
            Err(_) => return Err(DispatchError::BadOrigin),
        };
        match self.is_kitty_owner(kitty_id, sender) {
            Ok(true) => {},
            Ok(false) => return Err(DispatchError::Module(Error::NotKittyOwner)),
            Err(e) => return Err(DispatchError::Module(e)),
        }
        let mut kitty = match self.kitties(kitty_id) {
            Some(k) => k,
            None => return Err(DispatchError::Module(Error::KittyNotExist)),
        };
        kitty.price = new_price;
        self.put_kitty(kitty_id, kitty);
        proof {
            lemma_set_price_keeps_wf(old(self)@, sender, kitty_id, new_price);
        }
        Ok(Event::PriceSet(sender, kitty_id, new_price))
    }
}

/// Minting keeps the storage invariant.
pub proof fn lemma_mint_keeps_wf(s: KittyStore, owner: AccountId, dna: [u8; 16], gender: Gender)
    requires
        store_wf(s),
    ensures
        store_wf(spec_mint(s, owner, dna, gender).0),
{
    let (t, r) = spec_mint(s, owner, dna, gender);
    if r is Ok {
        let id = s.next_kitty_id;
        assert(!s.kitties.contains_key(id));
        assert forall|a: AccountId| #![trigger owned_of(t, a)]
            owned_of(t, a).len() <= t.max_kitty_owned && owned_of(t, a).no_duplicates() by {
            if a == owner {
                let l = owned_of(s, owner);
                assert(owned_of(t, a) == l.push(id));
                assert(!l.contains(id));
                assert forall|i: int, j: int| 0 <= i < l.push(id).len() && 0 <= j < l.push(id).len() && i != j
                    implies l.push(id)[i] != l.push(id)[j] by {
                    if i < l.len() && j < l.len() {
                    } else if i < l.len() {
                        assert(l.contains(l[i]));
                    } else {
                        assert(l.contains(l[j]));
                    }
                }
            } else {
                assert(owned_of(t, a) == owned_of(s, a));
            }
        }
        assert forall|a: AccountId, k: KittyIndex| #[trigger] owned_of(t, a).contains(k)
            implies t.kitties.contains_key(k) && t.kitties[k].owner == a by {
            if a == owner {
                let l = owned_of(s, owner);
                assert(owned_of(t, a) == l.push(id));
                if k != id {
                    let i = choose|i: int| 0 <= i < l.push(id).len() && l.push(id)[i] == k;
                    assert(l[i] == k);
                    assert(l.contains(k));
                }
            } else {
                assert(owned_of(t, a) == owned_of(s, a));
            }
        }
        assert forall|k: KittyIndex| #[trigger] t.kitties.contains_key(k)
            implies owned_of(t, t.kitties[k].owner).contains(k) by {
            if k == id {
                assert(owned_of(t, owner) == owned_of(s, owner).push(id));
                assert(owned_of(t, owner)[owned_of(s, owner).len() as int] == id);
            } else {
                let a = s.kitties[k].owner;
                assert(owned_of(s, a).contains(k));
                if a == owner {
                    let l = owned_of(s, owner);
                    let i = choose|i: int| 0 <= i < l.len() && l[i] == k;
                    assert(l.push(id)[i] == k);
                } else {
                    assert(owned_of(t, a) == owned_of(s, a));
                }
            }
        }
    }
}

/// Setting a price keeps the storage invariant.
pub proof fn lemma_set_price_keeps_wf(s: KittyStore, who: AccountId, kitty_id: KittyIndex, new_price: Option<Balance>)
    requires
        store_wf(s),
    ensures
        store_wf(spec_set_price(s, Origin::Signed(who), kitty_id, new_price).0),
{
    let t = spec_set_price(s, Origin::Signed(who), kitty_id, new_price).0;
    assert forall|a: AccountId| #![trigger owned_of(t, a)] owned_of(t, a) == owned_of(s, a) by {}
}


/// On a well-formed store a mint never finds its identifier taken: it fails
/// only when the counter would reach its maximum or the owner's list is
/// full; otherwise the new kitty gets the current counter value, the
/// counter moves up by one, and the kitty is off sale and listed last under
/// its owner.
pub proof fn lemma_mint_allocates_next_id(s: KittyStore, owner: AccountId, dna: [u8; 16], gender: Gender)
    requires
        store_wf(s),
    ensures
        spec_mint(s, owner, dna, gender).1 == (if s.next_kitty_id + 1 == u32::MAX {
            Err::<KittyIndex, Error>(Error::KittyIndexOverflow)
        } else if owned_of(s, owner).len() >= s.max_kitty_owned {
            Err::<KittyIndex, Error>(Error::ExceedMaxKittyOwned)
        } else {
            Ok::<KittyIndex, Error>(s.next_kitty_id)
        }),
        spec_mint(s, owner, dna, gender).1 is Ok ==> {
            let t = spec_mint(s, owner, dna, gender).0;
            &&& t.next_kitty_id == s.next_kitty_id + 1
            &&& t.kitties[s.next_kitty_id] == Kitty { dna, price: None, gender, owner }
            &&& owned_of(t, owner) == owned_of(s, owner).push(s.next_kitty_id)
        },
{
}

/// No operation removes a kitty or changes a kitty's DNA or gender.
pub proof fn lemma_kitties_persist(
    s: KittyStore,
    owner: AccountId,
    dna: [u8; 16],
    gender: Gender,
    origin: Origin,
    kitty_id: KittyIndex,
    new_price: Option<Balance>,
    to: AccountId,
    k: KittyIndex,
)
    requires
        s.kitties.contains_key(k),
    ensures
        ({
            let t = spec_mint(s, owner, dna, gender).0;
            t.kitties.contains_key(k) && t.kitties[k].dna == s.kitties[k].dna && t.kitties[k].gender == s.kitties[k].gender
        }),
        ({
            let t = spec_set_price(s, origin, kitty_id, new_price).0;
            t.kitties.contains_key(k) && t.kitties[k].dna == s.kitties[k].dna && t.kitties[k].gender == s.kitties[k].gender
        }),
        ({
            let t = spec_transfer_kitty_to(s, kitty_id, to).0;
            t.kitties.contains_key(k) && t.kitties[k].dna == s.kitties[k].dna && t.kitties[k].gender == s.kitties[k].gender
        }),
{
}

/// In a well-formed store a kitty is listed under one account only: its owner.
pub proof fn lemma_listed_only_under_owner(s: KittyStore, a: AccountId, k: KittyIndex)
    requires
        store_wf(s),
        owned_of(s, a).contains(k),
    ensures
        s.kitties.contains_key(k),
        a == s.kitties[k].owner,
{
}

/// A successful move makes `to` the owner of the kitty, takes it off sale,
/// lists it under `to` and no longer under its previous owner, and leaves
/// every other kitty as it was.
pub proof fn lemma_transfer_kitty_to_moves(s: KittyStore, kitty_id: KittyIndex, to: AccountId)
    requires
        store_wf(s),
        spec_transfer_kitty_to(s, kitty_id, to).1 is Ok,
    ensures
        ({
            let t = spec_transfer_kitty_to(s, kitty_id, to).0;
            let prev = s.kitties[kitty_id].owner;
            &&& t.kitties[kitty_id] == Kitty { owner: to, price: None, ..s.kitties[kitty_id] }
            &&& owned_of(t, to).contains(kitty_id)
            &&& prev != to ==> !owned_of(t, prev).contains(kitty_id)
            &&& t.kitties.dom() == s.kitties.dom()
            &&& forall|j: KittyIndex| j != kitty_id && #[trigger] s.kitties.contains_key(j) ==> t.kitties[j] == s.kitties[j]
            &&& t.next_kitty_id == s.next_kitty_id
        }),
{
    lemma_transfer_kitty_to_wf(s, kitty_id, to);
    let t = spec_transfer_kitty_to(s, kitty_id, to).0;
    assert(t.kitties.dom() =~= s.kitties.dom());
    assert(store_wf(t));
    let prev = s.kitties[kitty_id].owner;
    if prev != to && owned_of(t, prev).contains(kitty_id) {
        assert(t.kitties[kitty_id].owner == prev);
    }
}

/// A successful `set_price` changes the price of that kitty and nothing else.
pub proof fn lemma_set_price_changes_only_price(s: KittyStore, origin: Origin, kitty_id: KittyIndex, new_price: Option<Balance>)
    requires
        spec_set_price(s, origin, kitty_id, new_price).1 is Ok,
    ensures
        ({
            let t = spec_set_price(s, origin, kitty_id, new_price).0;
            &&& t.kitties[kitty_id] == Kitty { price: new_price, ..s.kitties[kitty_id] }
            &&& t.kitties.remove(kitty_id) == s.kitties.remove(kitty_id)
            &&& t.owned == s.owned
            &&& t.next_kitty_id == s.next_kitty_id
        }),
{
    let t = spec_set_price(s, origin, kitty_id, new_price).0;
    assert(t.kitties.remove(kitty_id) =~= s.kitties.remove(kitty_id));
}

/// Every bit of a child's DNA byte is a bit of one of the parents' bytes;
/// a bit both parents share is kept; parents that agree give that byte.
pub proof fn lemma_mix_byte_inherits(selector: u8, a: u8, b: u8)
    ensures
        mix_byte(selector, a, b) & !(a | b) == 0,
        (a & b) & !mix_byte(selector, a, b) == 0,
        a == b ==> mix_byte(selector, a, b) == a,
{
    assert(((selector & a) | (!selector & b)) & !(a | b) == 0) by (bit_vector);
    assert((a & b) & !((selector & a) | (!selector & b)) == 0) by (bit_vector);
    assert(a == b ==> (selector & a) | (!selector & b) == a) by (bit_vector);
}

/// Breeding two kitties with the same DNA gives a child with that DNA,
/// whatever the random selector.
pub proof fn lemma_same_parents_same_child(child: Seq<u8>, selector: Seq<u8>, dna: Seq<u8>)
    requires
        dna_mixes(child, selector, dna, dna),
        dna.len() == 16,
    ensures
        child == dna,
{
    assert forall|i: int| 0 <= i < 16 implies child[i] == dna[i] by {
        lemma_mix_byte_inherits(selector[i], dna[i], dna[i]);
    }
    assert(child =~= dna);
}


/// Handing a kitty to another account and straight back leaves every kitty
/// as it was, except that the moved one is off sale, and lists the same
/// kitties under each account (in possibly another order). The return
/// transfer passes all of the pallet's own checks.
pub proof fn lemma_transfer_round_trip(s: KittyStore, kitty_id: KittyIndex, to: AccountId)
    requires
        store_wf(s),
        s.kitties.contains_key(kitty_id),
        s.kitties[kitty_id].owner != to,
        owned_of(s, to).len() < s.max_kitty_owned,
    ensures
        ({
            let from = s.kitties[kitty_id].owner;
            let (t1, r1) = spec_transfer_kitty_to(s, kitty_id, to);
            let (t2, r2) = spec_transfer_kitty_to(t1, kitty_id, from);
            &&& r1 is Ok
            &&& transfer_error(t1, to, from, kitty_id) is None
            &&& r2 is Ok
            &&& t2.kitties == s.kitties.insert(kitty_id, Kitty { price: None, ..s.kitties[kitty_id] })
            &&& forall|a: AccountId, k: KittyIndex| #[trigger] owned_of(t2, a).contains(k) == owned_of(s, a).contains(k)
        }),
{
    let from = s.kitties[kitty_id].owner;
    lemma_transfer_kitty_to_wf(s, kitty_id, to);
    lemma_transfer_kitty_to_moves(s, kitty_id, to);
    let (t1, r1) = spec_transfer_kitty_to(s, kitty_id, to);
    // The sender's list lost one entry.
    let list = owned_of(s, from);
    let pi = choose|i: int| 0 <= i < list.len() && list[i] == kitty_id;
    assert(exists|i: int| 0 <= i < list.len() && list[i] == kitty_id && forall|j: int| 0 <= j < i ==> list[j] != kitty_id) by {
        assert(list.no_duplicates());
        assert forall|j: int| 0 <= j < pi implies list[j] != kitty_id by {}
    }
    lemma_swap_remove_contents(list, first_index(list, kitty_id));
    assert(owned_of(t1, from) == swap_remove_at(list, first_index(list, kitty_id)));
    assert(owned_of(t1, from).len() < t1.max_kitty_owned);
    lemma_transfer_kitty_to_wf(t1, kitty_id, from);
    lemma_transfer_kitty_to_moves(t1, kitty_id, from);
    let (t2, r2) = spec_transfer_kitty_to(t1, kitty_id, from);
    assert(t2.kitties =~= s.kitties.insert(kitty_id, Kitty { price: None, ..s.kitties[kitty_id] }));
    assert forall|a: AccountId, k: KittyIndex| #[trigger] owned_of(t2, a).contains(k) == owned_of(s, a).contains(k) by {
        if owned_of(t2, a).contains(k) {
            lemma_listed_only_under_owner(t2, a, k);
        }
        if owned_of(s, a).contains(k) {
            lemma_listed_only_under_owner(s, a, k);
        }
    }
}

/// When the sender holds its stake reserved (and its balances fit the
/// balance type), a transfer to another account and straight back leaves
/// every balance as it was.
pub proof fn lemma_stake_round_trip<T: Config>(s0: T, s1: T, s2: T, from: AccountId, to: AccountId, stake: Balance)
    requires
        from != to,
        s0.reserved_of(from) >= stake,
        s0.free_of(from) + s0.reserved_of(from) <= u128::MAX,
        balances_moved(s0, s1,
            pair(to, -(stake as int), from, release_credit(s0, from, stake)),
            pair(to, stake as int, from, -(unreserved_part(s0.reserved_of(from), stake) as int))),
        balances_moved(s1, s2,
            pair(from, -(stake as int), to, release_credit(s1, to, stake)),
            pair(from, stake as int, to, -(unreserved_part(s1.reserved_of(to), stake) as int))),
    ensures
        same_balances(s0, s2),
{
    assert(s1.reserved_of(to) == s0.reserved_of(to) + stake);
    assert(s1.free_of(to) == s0.free_of(to) - stake);
    assert(release_credit(s0, from, stake) == stake);
    assert(release_credit(s1, to, stake) == stake);
    assert forall|a: AccountId|
        #![trigger s2.free_of(a)]
        #![trigger s2.reserved_of(a)]
        s2.free_of(a) == s0.free_of(a) + only(0, 0)(a) && s2.reserved_of(a) == s0.reserved_of(a) + only(0, 0)(a) by {
        assert(s1.free_of(a) == s0.free_of(a) + pair(to, -(stake as int), from, stake as int)(a));
        assert(s1.reserved_of(a) == s0.reserved_of(a) + pair(to, stake as int, from, -(stake as int))(a));
    }
}


/// The gender a seed gives is male exactly when its first byte is even.
pub proof fn lemma_gender_is_parity_of_first_byte(seed: [u8; 32])
    ensures
        (spec_gender_of(seed) == Gender::Male) <==> seed[0] % 2 == 0,
        (spec_gender_of(seed) == Gender::Female) <==> seed[0] % 2 == 1,
{
}

/// Where the selector has a bit set the child has `a`'s bit, elsewhere `b`'s.
pub proof fn lemma_mix_byte_selects(selector: u8, a: u8, b: u8)
    ensures
        mix_byte(selector, a, b) & selector == a & selector,
        mix_byte(selector, a, b) & !selector == b & !selector,
        mix_byte(0xFFu8, a, b) == a,
        mix_byte(0u8, a, b) == b,
{
    assert(((selector & a) | (!selector & b)) & selector == a & selector) by (bit_vector);
    assert(((selector & a) | (!selector & b)) & !selector == b & !selector) by (bit_vector);
    assert((0xFFu8 & a) | (!0xFFu8 & b) == a) by (bit_vector);
    assert((0u8 & a) | (!0u8 & b) == b) by (bit_vector);
}

/// The four bytes of `x` read least significant first give back `x`.
pub proof fn lemma_le_bytes_u32_value(x: u32)
    ensures
        le_bytes_u32(x).len() == 4,
        le_bytes_u32(x)[0] + 256 * le_bytes_u32(x)[1] + 65536 * le_bytes_u32(x)[2] + 16777216 * le_bytes_u32(x)[3] == x,
{
}

/// The eight bytes of `x` are its low half's bytes, then its high half's.
pub proof fn lemma_le_bytes_u64_value(x: u64)
    ensures
        le_bytes_u64(x).len() == 8,
        le_bytes_u64(x).subrange(0, 4) == le_bytes_u32((x % 4294967296) as u32),
        le_bytes_u64(x).subrange(4, 8) == le_bytes_u32((x / 4294967296) as u32),
        (x % 4294967296) + 4294967296 * (x / 4294967296) == x,
{
    assert(le_bytes_u64(x).subrange(0, 4) =~= le_bytes_u32((x % 4294967296) as u32));
    assert(le_bytes_u64(x).subrange(4, 8) =~= le_bytes_u32((x / 4294967296) as u32));
}

/// The counter's successor is refused exactly when it would be the largest
/// identifier; otherwise it is the counter plus one.
pub proof fn lemma_next_id_outcome(s: KittyStore)
    requires
        s.next_kitty_id < u32::MAX,
    ensures
        spec_next_id(s) is Err <==> s.next_kitty_id + 1 == u32::MAX,
        spec_next_id(s) is Err ==> spec_next_id(s) == Err::<KittyIndex, Error>(Error::KittyIndexOverflow),
        spec_next_id(s) is Ok ==> spec_next_id(s) == Ok::<KittyIndex, Error>((s.next_kitty_id + 1) as KittyIndex),
{
}

/// Ownership is asked of an existing kitty only; the answer is whether the
/// account is its owner.
pub proof fn lemma_is_kitty_owner_outcome(s: KittyStore, kitty_id: KittyIndex, acct: AccountId)
    ensures
        !s.kitties.contains_key(kitty_id) ==> spec_is_kitty_owner(s, kitty_id, acct) == Err::<bool, Error>(Error::KittyNotExist),
        s.kitties.contains_key(kitty_id) ==> spec_is_kitty_owner(s, kitty_id, acct)
            == Ok::<bool, Error>(s.kitties[kitty_id].owner == acct),
{
}

/// Only the owner of a kitty may price it: an unsigned call, a missing
/// kitty or another account is refused and changes nothing; the owner's
/// call changes that kitty's price and nothing else.
pub proof fn lemma_set_price_only_by_owner(s: KittyStore, origin: Origin, kitty_id: KittyIndex, new_price: Option<Balance>)
    ensures
        !(origin is Signed) ==> spec_set_price(s, origin, kitty_id, new_price)
            == (s, Err::<(), DispatchError<Error, ()>>(DispatchError::BadOrigin)),
        origin is Signed && !s.kitties.contains_key(kitty_id) ==> spec_set_price(s, origin, kitty_id, new_price)
            == (s, Err::<(), DispatchError<Error, ()>>(DispatchError::Module(Error::KittyNotExist))),
        origin matches Origin::Signed(who) && s.kitties.contains_key(kitty_id) && s.kitties[kitty_id].owner != who
            ==> spec_set_price(s, origin, kitty_id, new_price)
            == (s, Err::<(), DispatchError<Error, ()>>(DispatchError::Module(Error::NotKittyOwner))),
        spec_set_price(s, origin, kitty_id, new_price).1 is Ok ==> {
            &&& origin matches Origin::Signed(who) && s.kitties.contains_key(kitty_id) && s.kitties[kitty_id].owner == who
            &&& spec_set_price(s, origin, kitty_id, new_price).0.kitties
                == s.kitties.insert(kitty_id, Kitty { price: new_price, ..s.kitties[kitty_id] })
        },
        origin matches Origin::Signed(who) && s.kitties.contains_key(kitty_id) && s.kitties[kitty_id].owner == who
            ==> spec_set_price(s, origin, kitty_id, new_price).1 is Ok,
{
}

/// Only the owner may hand a kitty on, never to itself, and only to an
/// account with room: the transfer passes the pallet's checks exactly
/// then, and each refusal names the first condition that fails.
pub proof fn lemma_transfer_only_by_owner(s: KittyStore, from: AccountId, to: AccountId, kitty_id: KittyIndex)
    ensures
        transfer_error(s, from, to, kitty_id) is None <==> (s.kitties.contains_key(kitty_id) && s.kitties[kitty_id].owner
            == from && from != to && owned_of(s, to).len() < s.max_kitty_owned),
        !s.kitties.contains_key(kitty_id) ==> transfer_error(s, from, to, kitty_id) == Some(Error::KittyNotExist),
        s.kitties.contains_key(kitty_id) && s.kitties[kitty_id].owner != from
            ==> transfer_error(s, from, to, kitty_id) == Some(Error::NotKittyOwner),
        s.kitties.contains_key(kitty_id) && s.kitties[kitty_id].owner == from && from == to
            ==> transfer_error(s, from, to, kitty_id) == Some(Error::TransferToSelf),
        s.kitties.contains_key(kitty_id) && s.kitties[kitty_id].owner == from && from != to && owned_of(s, to).len()
            >= s.max_kitty_owned ==> transfer_error(s, from, to, kitty_id) == Some(Error::ExceedMaxKittyOwned),
{
}

/// A kitty can be bought only when it exists, belongs to someone else, the
/// buyer has room, and it is for sale at a price below the bid; each
/// refusal names the first condition that fails.
pub proof fn lemma_buy_checks(s: KittyStore, buyer: AccountId, kitty_id: KittyIndex, bid_price: Balance)
    ensures
        buy_error(s, buyer, kitty_id, bid_price) is None <==> (s.kitties.contains_key(kitty_id)
            && s.kitties[kitty_id].owner != buyer && owned_of(s, buyer).len() < s.max_kitty_owned
            && s.kitties[kitty_id].price is Some && s.kitties[kitty_id].price->0 < bid_price),
        !s.kitties.contains_key(kitty_id) ==> buy_error(s, buyer, kitty_id, bid_price) == Some(Error::KittyNotExist),
        s.kitties.contains_key(kitty_id) && s.kitties[kitty_id].owner == buyer
            ==> buy_error(s, buyer, kitty_id, bid_price) == Some(Error::BuyerIsKittyOwner),
        s.kitties.contains_key(kitty_id) && s.kitties[kitty_id].owner != buyer && owned_of(s, buyer).len()
            >= s.max_kitty_owned ==> buy_error(s, buyer, kitty_id, bid_price) == Some(Error::ExceedMaxKittyOwned),
        s.kitties.contains_key(kitty_id) && s.kitties[kitty_id].owner != buyer && owned_of(s, buyer).len()
            < s.max_kitty_owned && s.kitties[kitty_id].price is None
            ==> buy_error(s, buyer, kitty_id, bid_price) == Some(Error::KittyNotForSale),
        s.kitties.contains_key(kitty_id) && s.kitties[kitty_id].owner != buyer && owned_of(s, buyer).len()
            < s.max_kitty_owned && s.kitties[kitty_id].price is Some && bid_price <= s.kitties[kitty_id].price->0
            ==> buy_error(s, buyer, kitty_id, bid_price) == Some(Error::KittyBidPriceTooLow),
{
}

/// Breeding passes the pallet's checks exactly when the caller owns both
/// parents; a missing parent or a parent of another account is refused,
/// the first parent checked before the second.
pub proof fn lemma_breed_requires_both_parents(s: KittyStore, who: AccountId, parent1: KittyIndex, parent2: KittyIndex)
    ensures
        breed_error(s, who, parent1, parent2) is None <==> (s.kitties.contains_key(parent1) && s.kitties[parent1].owner
            == who && s.kitties.contains_key(parent2) && s.kitties[parent2].owner == who),
        !s.kitties.contains_key(parent1) ==> breed_error(s, who, parent1, parent2) == Some(Error::KittyNotExist),
        s.kitties.contains_key(parent1) && s.kitties[parent1].owner != who
            ==> breed_error(s, who, parent1, parent2) == Some(Error::NotKittyOwner),
        s.kitties.contains_key(parent1) && s.kitties[parent1].owner == who && !s.kitties.contains_key(parent2)
            ==> breed_error(s, who, parent1, parent2) == Some(Error::KittyNotExist),
        s.kitties.contains_key(parent1) && s.kitties[parent1].owner == who && s.kitties.contains_key(parent2)
            && s.kitties[parent2].owner != who ==> breed_error(s, who, parent1, parent2) == Some(Error::NotKittyOwner),
{
}


/// The bytes fresh DNA is hashed from are the 32 seed bytes, then the
/// extrinsic index's four bytes, then the block number's eight.
pub proof fn lemma_dna_payload_layout(seed: [u8; 32], extrinsic_index: u32, block_number: BlockNumber)
    ensures
        dna_payload(seed@, extrinsic_index, block_number).len() == 44,
        dna_payload(seed@, extrinsic_index, block_number).subrange(0, 32) == seed@,
        dna_payload(seed@, extrinsic_index, block_number).subrange(32, 36) == le_bytes_u32(extrinsic_index),
        dna_payload(seed@, extrinsic_index, block_number).subrange(36, 44) == le_bytes_u64(block_number),
{
    let p = dna_payload(seed@, extrinsic_index, block_number);
    assert(p.subrange(0, 32) =~= seed@);
    assert(p.subrange(32, 36) =~= le_bytes_u32(extrinsic_index));
    assert(p.subrange(36, 44) =~= le_bytes_u64(block_number));
}

} // verus!
