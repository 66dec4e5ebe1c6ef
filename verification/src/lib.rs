//! A bank transaction processor: per-client accounts that apply deposits,
//! withdrawals, disputes, resolves and chargebacks, together with the
//! decoding of the CSV records that carry those transactions.

pub mod amount;
pub mod record;
pub mod transaction;
pub mod text;
pub mod client;
pub mod engine;
pub mod mmap_record_parser;
pub mod processing;
pub mod laws;
