//! Length-prefixed message framing over a raw byte stream, together with the
//! lifecycle logic for a periodically renewed router port mapping.
//!
//! The crate holds the parts with real invariants: the frame buffer that
//! reassembles partial reads into whole frames, the wire-format codec for the
//! 8-byte big-endian length prefix, and the lease state machine driven by a
//! background renewal task. Transport, gateway and serialization calls are
//! left to the surrounding application, which hands this crate plain bytes
//! and events.

pub mod forward;
pub mod frame;
pub mod lease;
