//! A verified core for a majority-vote block ledger.
//!
//! Participants append observations — a period id together with an 8-byte
//! value digest — into a growable ledger account. Each distinct value keeps
//! the set of voters that backed it. A later pass walks a sealed snapshot,
//! declares the value with a strict integer majority the winner, and credits
//! the winning voters, guarding against double credit and self credit. A
//! separately stored aggregate of per-voter balances can be read back in
//! pages. Storage growth and the funding needed to keep the account alive
//! follow an occupancy-driven policy.
//!
//! Account addresses are program-derived: the derivation itself is delegated
//! to `solana_program` behind a small trusted boundary, as is the rent
//! schedule that prices a given capacity.

pub mod aggregate;
pub mod errors;
pub mod growth;
pub mod ids;
pub mod ledger;
pub mod ops;
pub mod sampling;
pub mod tally;
