//! Word-frequency statistics over an in-memory text, and a small set of
//! functional building blocks, each with a machine-checked contract.

pub mod chars;
pub mod token;
pub mod order;
pub mod filter;
pub mod table;
pub mod report;
pub mod analyzer;
pub mod arguments;
pub mod concepts;
pub mod higher_order;
