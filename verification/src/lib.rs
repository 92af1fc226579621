//! Deterministic, context-free Lindenmayer systems over an alphabet given by a
//! Rust type.
//!
//! A system is a starting word and a production rule that rewrites one symbol
//! into a word. [`LSystemType`] holds the two; [`LSystemType::iter`] hands out
//! a cursor, [`LSystemIterator`], whose `next` returns the starting word first
//! and from then on the word obtained by rewriting every symbol of the word it
//! returned before, in order.
//!
//! The module `rewriting` defines what one rewriting step is, `model` the
//! abstract values of the two types and the steps between them, `system` the
//! executable types, and `laws` what follows for whole runs.

pub mod laws;
pub mod model;
pub mod rewriting;
pub mod system;

pub use system::{LSystemIterator, LSystemType};
