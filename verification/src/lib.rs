//! A parallel executor for blocks of EVM transactions in the manner of Block-STM:
//! transactions run optimistically against a multi-version memory and are
//! re-executed when a validation finds that what they read has changed.
pub mod primitives;
pub mod hashing;
pub mod types;
pub mod collections;
pub mod mv_memory;
pub mod vm;
pub mod execution;
pub mod chain;
pub mod compat;
pub mod pevm;
pub mod validation;
pub mod journal;
pub mod receipts;
pub mod deposits;
pub mod storage;
pub mod precompiles;
pub mod warm_addresses;
