//! Binary wire codec for a ZooKeeper-style coordination service.
//!
//! Every multi-byte integer on the wire is big-endian. Buffers and strings
//! are length-prefixed with a signed 32-bit length; strings are strict UTF-8.
//! The crate covers the primitive layer, the record codecs, the
//! per-operation request/response codecs, frame assembly, the
//! multi-operation transaction codec, and the watch-event decoder.

pub mod data;
pub mod multi;
pub mod proto;
pub mod wire;
