//! Decoder (and symmetric message encoder) for the Open Sound Control (OSC)
//! 1.0 wire format: null-padded tokens, big-endian 32-bit primitives,
//! length-prefixed blobs, typestring-driven messages, and recursively nested,
//! size-prefixed bundles.
//!
//! The wire grammar is written down once, as spec functions over byte
//! sequences (`wire`); every executable reader is proved to agree with it
//! exactly, on success and on failure alike.

pub mod bundle_visitor;
pub mod de;
pub mod encode;
pub mod error;
pub mod laws;
pub mod packet;
pub mod prim;
pub mod value;
pub mod wire;

pub use bundle_visitor::{BundleItem, BundleState, BundleVisitor};
pub use de::{DecodeState, OscDeserializer};
pub use encode::encode_message;
pub use error::OscError;
pub use packet::{from_vec, read_packet, MAX_BUNDLE_DEPTH};
pub use value::{Bundle, Message, OscArg, Packet};
