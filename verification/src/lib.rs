//! Field-level Fiat-Shamir challengers over a byte transcript.
//!
//! A byte transcript absorbs bytes and squeezes bytes. The challengers of this
//! crate put prime-field elements on top of it: an element is observed as the
//! little-endian bytes of its canonical representative, and elements are
//! sampled by rejection, so that every value below the field order is equally
//! likely whenever the transcript's bytes are. A proof-of-work search and the
//! configuration that holds a commitment scheme next to a transform engine
//! complete the crate.
//!
//! Field elements appear here as their canonical representatives: unsigned
//! integers below the order of the field.

pub mod config;
pub mod encoding;
pub mod grinding;
pub mod sampling;
pub mod serializing;
pub mod transcript;
pub mod word;

pub use config::{StarkConfig, StarkConfigImpl};
pub use serializing::{SerializingChallenger32, SerializingChallenger64};
pub use transcript::ByteTranscript;
