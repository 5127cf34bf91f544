//! A minimal non-fungible-token ownership registry.
//!
//! The registry records which single account owns each distinct token
//! identifier and keeps a per-account count of owned tokens. Minting
//! establishes an ownership record, transferring moves one token from its
//! current owner to another account, and a balance query reports how many
//! tokens an account holds. The per-account counts are proved to stay
//! consistent with the authoritative token-to-owner map after every
//! operation.

pub mod account;
pub mod assoc;
pub mod registry;

pub use account::AccountId;
pub use registry::NFT;
