//! A fixed-capacity byte buffer that accumulates text fragments and hands
//! the written prefix back as text.
//!
//! The capacity is a const parameter of [`WriteBuffer`], so the storage
//! lives wherever the buffer lives and never grows. An append either takes
//! the whole fragment or refuses it and changes nothing. The written
//! prefix is well-formed UTF-8 at all times, which is why reading it as
//! text cannot fail.
//!
//! - [`buffer`] holds the type and its operations, each with its contract.
//! - [`model`] says what an append does to a bounded byte sequence, and
//!   proves what follows for sequences of appends.
//! - [`text`] holds the conversions between bytes and text that the
//!   standard library provides, and the lemmas on UTF-8 that the proofs
//!   use.

pub mod buffer;
pub mod model;
pub mod text;

pub use buffer::WriteBuffer;
pub use buffer::WriteError;
