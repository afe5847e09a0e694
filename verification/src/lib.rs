//! Building blocks for contracts that manage funds and expose paginated
//! read queries over an ordered key-value store: a fixed-point fee-splitting
//! calculator and a cursor-based pagination engine.

pub mod fees;
pub mod keyed;
pub mod numbered;
pub mod pagination;
pub mod store;
