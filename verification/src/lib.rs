//! The core of a server-rendered content site: a time-bounded cache beside the
//! content repository, and the sequencer that brings the store up at start.
//!
//! Every module is verified with Verus. The modules whose name ends in `_laws`
//! hold no executable code: they state what follows from the contracts of the
//! module they are named after, and prove it.

pub mod bootstrap;
pub mod bootstrap_laws;
pub mod cache;
pub mod cache_laws;
pub mod clock;
pub mod comments;
pub mod error;
pub mod filters;
pub mod seed;
