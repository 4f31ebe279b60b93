//! The logical core of a data-processing worker: relation trees with their
//! validated metadata, and the account rules that guard access to a node.

pub mod account;
pub mod ansatz;
pub mod context;
pub mod error;
pub mod key;
pub mod label;
pub mod meta;
pub mod rebase;
pub mod rel;
pub mod tree;
