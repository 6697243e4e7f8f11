//! Cost estimation for a single transaction, ahead of scheduling.
//!
//! The estimate has four parts: signature verification, write locks, instruction
//! data and execution. The first three come from fixed unit costs; the last is
//! looked up per program in an [`execute_cost_table::ExecuteCostTable`] that
//! averages observed costs and falls back to its most frequent cost for
//! programs it has never seen.
//!
//! The estimate works on a [`transaction::TransactionStructure`] and on
//! [`address::Address`]es; [`sdk`] reads them from a sanitized transaction and
//! from public keys of the SDK.
pub mod address;
pub mod block_cost_limits;
pub mod cost_model;
pub mod execute_cost_table;
pub mod sdk;
pub mod transaction;
