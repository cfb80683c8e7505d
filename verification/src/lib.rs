//! Core of a chat-command bridge that turns short text commands from a group
//! conversation into ledger transactions on a remote bookkeeping service.
//!
//! The verified library holds the command grammar, the transaction
//! synthesizer and the per-message dispatch decisions; the surrounding
//! process (chat transport, HTTP, bootstrap) lives outside it and exchanges
//! plain values with it.

pub mod amount;
pub mod dispatch;
pub mod ledger;
pub mod parse;
pub mod text;
