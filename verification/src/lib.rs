//! A small account ledger beside a store of notes.
//!
//! The ledger holds a balance for every identity, moves tokens between
//! balances, hands transfers on to an external asset ledger in two phases, and
//! keeps a history of what was transferred for every identity. Every public
//! function states what it returns and changes, and the statements are proved.

pub mod amount;
pub mod balance;
pub mod bridge;
pub mod error;
pub mod history;
pub mod identity;
pub mod laws;
pub mod ledger;
pub mod model;
pub mod notes;
pub mod record;
pub mod text;
