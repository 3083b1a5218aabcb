//! A ledger of breedable collectibles ("kitties"): minting with a reserved
//! fee, asking prices, transfers, purchases and breeding, over an explicit
//! state whose invariants are proved. Alongside it: a plainer kitty
//! registry, a fungible token and a proof-of-existence claim store.

pub mod types;
pub mod dna;
pub mod balances;
pub mod pallet;
pub mod laws;
pub mod simple_kitties;
pub mod erc20;
pub mod poe;
