//! Marshalling of binary buffers and structured records between native code
//! and a foreign runtime's term heap.
//!
//! The runtime's values are held as plain data. A [`term::Term`] carries
//! what an inspection of a foreign term yields, bound to the scope of the
//! call in progress. The buffers of [`binary`] own their bytes: an
//! [`binary::OwnedBinary`] is the single writable handle, a
//! [`binary::Binary`] an immutable view bound to a scope, and handing the
//! first over to a scope consumes it. Every function that asks the
//! allocator has a companion that takes the allocator's answer as an
//! argument and says what follows from each answer. [`codec`] builds, from
//! the description of a record type, the decoder and the encoder that
//! exchange its records as map terms.
//!
//! Calls into the runtime itself are made outside this library, which
//! hands over and takes back these plain values.

pub mod binary;
pub mod codec;
pub mod error;
pub mod term;
