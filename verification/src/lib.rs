//! Grammar-constrained, turn-based text generation.
//!
//! The crate ranks a language model's token candidates, intersects them with
//! an allow-mask produced by a grammar engine, commits the chosen token
//! together with any fast-forward tokens the grammar forces, and keeps the
//! inference backend and the grammar engine in lockstep while a conversation
//! alternates between a human and an assistant turn.

pub mod constraints;
pub mod conversation_grammar;
pub mod conversation_loop;
pub mod csv_loader;
pub mod grammar;
pub mod inference;
pub mod strutil;
pub mod token;
pub mod tokenizer;
