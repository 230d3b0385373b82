//! The verification core of a light client for a chain whose ledger is
//! certified by committees of validators.
//!
//! A light client trusts a committee and follows the chain by checking
//! proofs. Two proofs are checked here. An epoch change hands trust on from
//! one committee to the next ([`epoch_change`], [`trusted_state`]). An
//! inclusion shows that a key is bound to a value in the state that a signed
//! ledger header certifies ([`inclusion`]), by way of the transaction
//! accumulator ([`accumulator`]) and the sparse state tree ([`sparse`]).
//!
//! Every check is a function of its input alone and fails for good: there is
//! no retry, and a failure commits to nothing. The contracts are stated over
//! two functions that are named and not defined here, the hash
//! ([`digest::sha3_256`]) and the signature check
//! ([`signature::bls_signature_valid`]); all else is proved.

pub mod accumulator;
pub mod committee;
pub mod digest;
pub mod encoding;
pub mod epoch_change;
pub mod error;
pub mod inclusion;
pub mod ledger;
pub mod signature;
pub mod sparse;
pub mod trusted_state;
