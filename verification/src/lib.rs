//! Two FRAME pallets as verified state machines: a proof-of-existence
//! registry (`poe`) and a kitty registry with a marketplace (`kitties`).
//! Each pallet's storage is a value of its `Pallet` type; every dispatchable
//! is a method whose contract states the new storage and the answer it gives.

pub mod system;
pub mod assoc;
pub mod poe;
pub mod kitties;
