//! A compiler and interpreter for a small, dynamically-typed
//! templating language: source text with embedded output expressions
//! (`{{ ... }}`) and control constructs (`{% ... %}`) is parsed, under
//! a pluggable registry of tags, blocks and filters, into an
//! executable tree, and then rendered against a runtime data context.
//!
//! The crate is organised around the compilation pipeline:
//! [`value`] holds the dynamic value model with its nil-safe ordering
//! and truthiness rules; [`registry`] the language configuration;
//! [`token`] and [`parser`] the lexed element stream, the cursor
//! protocol and the recursive descent over it; [`render`] the
//! executable tree and the render pass; [`context`] the variable
//! scopes, per-construct registers and the break/continue signal; and
//! [`filters`] the declarative argument-binding protocol with the
//! filter catalog.
//!
//! The registries are open at configuration time — any name can be
//! bound, rebound or shadowed — while the constructors they hold are
//! the closed capability enums of this dialect, since the verifier
//! offers no contracts through boxed trait objects.
use vstd::prelude::*;

pub mod context;
pub mod error;
pub mod expression;
pub mod filters;
pub mod parser;
pub mod registry;
pub mod render;
pub mod token;
pub mod value;

verus! {

} // verus!
