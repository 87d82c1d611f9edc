//! A verified Brainfuck interpreter.
//!
//! The library has two halves. The program model ([`types`]) parses source
//! text into a located instruction sequence and validates that the loop
//! brackets are well paired, building a jump table for O(1) loop jumps. The
//! tape/execution engine ([`interp`]) owns the cells, the data pointer and
//! the program pointer, and runs a program instruction by instruction against
//! byte-oriented input and output sinks ([`io`]), under a configuration of
//! plain values ([`config`]). The engine is proved to follow a small-step
//! specification machine exactly, step by step.

pub mod config;
pub mod interp;
pub mod io;
pub mod types;
