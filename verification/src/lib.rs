//! A verified interpreter for an eight-symbol language on a circular byte tape.
//!
//! - `symbol`: the alphabet, and the loader that scans source text into a program.
//! - `tape`: the tape and its data pointer.
//! - `semantics`: the model of the engine, its state and what one step does to it.
//! - `engine`: the engine itself, one step at a time, with the I/O left to the caller.
//! - `brainfuck`: whole runs over a source and a sink in memory, within a step budget.
//! - `laws`: what is proved of the model.

pub mod symbol;
pub mod tape;
pub mod semantics;
pub mod engine;
pub mod brainfuck;
pub mod laws;
