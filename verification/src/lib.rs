//! A minimal single-node ledger: an ordered chain of mined blocks, a wallet
//! registry with balances, and a pool of pending transactions, with local
//! proof-of-work mining and Merkle-root computation when a block is sealed.
//!
//! Monetary values are plain integers in thousandths of a coin; the fee is a
//! rate in thousandths. Every operation's behaviour is stated in its
//! contract, over the mathematical views of the data types.

pub mod block;
pub mod chain;
mod clock;
pub mod digest;
pub mod laws;
pub mod pagination;
pub mod transaction;
pub mod wallet;
