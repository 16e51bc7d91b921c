//! A verified core for an interactive, model-judged branching dialogue game.
//!
//! The library holds the pieces worth proving: the chat-message model, the
//! decision parser that extracts a structured choice from free-form model
//! text, the judge-protocol message assembly and validation, the scenario
//! graph with its longest-path measure, the session state machine that
//! applies judged transitions, and the bounded decode-loop accounting of the
//! generation engine.  Terminal I/O and the actual model inference live
//! outside, handing the library plain values.

pub mod chat;
pub mod decision;
pub mod engine;
pub mod json;
pub mod judge;
pub mod laws;
pub mod node;
pub mod session;
pub mod strutil;
pub mod text;
pub mod tree;
