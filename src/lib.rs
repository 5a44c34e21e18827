//! Export, import and forward the tokens of Rust items across macro invocations.
//!
//! An exported item becomes a registry slot: a `macro_rules!` callback whose name is derived
//! from the item's name. Importers and forwarders invoke that slot with a continuation of their
//! choosing, and the slot hands the captured tokens (plus an optional payload) to it. Everything
//! here is a pure transformation from a plain model of the input syntax to generated source text.

mod text;

pub mod bridge;
pub mod codec;
pub mod naming;
pub mod protocol;
