//! Decoders and protocol logic for a game whose rules run inside an external,
//! purely functional lambda-calculus interpreter.
//!
//! The interpreter is a separate process spoken to over a line-oriented
//! request/response channel.  This crate holds everything that can be stated
//! and proved about that exchange: the decoder for the structural integer
//! encoding (CLNI), the Church-boolean decoder, the decoder for Church-encoded
//! lists of rectangles, and the pure state kept by the game adapter.  The
//! process handling itself (spawning, pipes, polling) lives with the caller;
//! the decisions it must take are functions of this crate.

pub mod church;
pub mod clni;
pub mod clni_laws;
pub mod errors;
pub mod lambda;
pub mod rect_laws;
pub mod rects;
pub mod text;
