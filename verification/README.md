# substrate_pallets

Two FRAME pallets written as verified Verus code.

- `src/poe.rs` — proof of existence: accounts claim byte strings, revoke
  them and hand them over. Storage is an association list read as a map
  from claim to (owner, block).
- `src/kitties.rs` — kitties: minting against a stake, prices, transfers,
  sales and breeding. Storage is the kitty map, the per-account lists of
  owned kitties and the identifier counter. The runtime's currency and
  randomness reach the pallet through the `Config` trait, which models
  free and reserved balances and states what reserving, releasing and
  transferring do to them; contracts state the balances each dispatchable
  leaves. DNA is hashed with `sp_io::hashing::blake2_128`.
- `src/system.rs` — origins and dispatch errors.
- `src/assoc.rs` — association lists and their lemmas.

Every dispatchable states, over the abstract view of the storage, the
new storage and its answer; the storage invariants and the laws relating
the operations are proof functions beside them.

FRAME's storage items are fields of each `Pallet`; the length bounds that
FRAME's bounded vectors enforce are checked by the dispatchables and held
as storage invariants (`wf`, `store_wf`).
