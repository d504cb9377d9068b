//! Keypom: linkdrops with multi-use access keys, asset bundles per use, funder balances and
//! keys that behave like non-fungible tokens.
//!
//! The state of the contract and every decision it takes are modelled here over plain values;
//! the runtime (signer, clock, attached deposit, storage measurements and the promises that
//! move tokens) is passed in as values and handed back as actions.

pub mod strmap;
pub mod external;
pub mod types;
pub mod token_id;
pub mod assets;
pub mod uses;
pub mod state;
pub mod creation;
pub mod claiming;
pub mod helpers;
pub mod resolution;
pub mod deletion;
pub mod nft_keys;
pub mod deposits;
pub mod fc_args;
pub mod allowlist;
pub mod key_allowance;
pub mod views;
pub mod events;
pub mod json;
pub mod fc_claims;
pub mod invariants;
