//! An on-chain value-distribution library: one funding source, a
//! caller-supplied list of amounts, and a list of destination accounts.
//! A raw instruction buffer is decoded into one of three commands, and the
//! disbursement engine partitions the account list and plans one delegated
//! transfer per amount, failing the whole invocation if any partition check
//! fails.

pub mod account;
pub mod codec;
pub mod error;
pub mod event;
pub mod instruction;
pub mod ledger;
pub mod processor;
pub mod program;
