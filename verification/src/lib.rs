//! Front end and dual-backend execution engine for a minimal eight-symbol
//! tape-manipulation language.
//!
//! The pipeline is: source text -> tokens ([`token`]) -> syntax tree
//! ([`ast`]) -> either direct execution against a bounded byte tape
//! ([`interp`]) or lowering into a graph of basic blocks for a downstream
//! native-code backend ([`lower`]). The two execution strategies are proved
//! semantically equivalent in [`equiv`].

pub mod ast;
pub mod equiv;
pub mod interp;
pub mod lower;
pub mod token;
