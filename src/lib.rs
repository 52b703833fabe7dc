//! A mirrored rebasing token: the codec for the source chain's rebase logs and
//! the engine that applies a rebase to the locally held balances.
//!
//! - `abi_word`: the 32-byte big-endian words that carry integers in a log.
//! - `account`: which texts are account identifiers.
//! - `hex_text`: the hexadecimal text of token addresses.
//! - `event`: the two rebase schemas, their logs, and the round-trip laws.
//! - `muldiv`: `floor(a * b / c)` over 128-bit integers.
//! - `ledger`: balances, the proportional rebase, and its drift bound.
//! - `token`: the contract state and the gates in front of each operation.

pub mod abi_word;
pub mod account;
pub mod event;
pub mod hex_text;
pub mod ledger;
pub mod muldiv;
pub mod token;
