//! A permissioned, branched value-transfer ledger.
//!
//! A main chain of hash-linked blocks records transfers between named
//! wallets. Each department funded by the governance authority gets a branch
//! chain of its own, which only an approved validator may extend. Validator
//! status is granted by a two-thirds vote of the validators in office.

pub mod text;
pub mod digest;
pub mod clock;
pub mod transaction;
pub mod block;
pub mod keyed;
pub mod wallet;
pub mod validators;
pub mod blockchain;
