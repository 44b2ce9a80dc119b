//! A deterministic finite automaton: its validated definition and the engine
//! that runs it over an input.
//!
//! `model` holds the definition and the rules that it is held to when an
//! `Automaton` is built. `engine` runs an automaton over an input, to a verdict
//! or a typed error, and records the run on request. `table` says how a list
//! of entries is read as a map.

pub mod engine;
pub mod model;
pub mod table;

pub use engine::{ExecutionError, TraceEntry};
pub use model::{Automaton, State, Transition, ValidationError};
