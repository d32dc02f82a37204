//! An HTTP-facing gateway core: each inbound request becomes a structured
//! call message, is routed deterministically to one member of a fixed pool
//! of isolated execution contexts, and the context's reply message is
//! translated back into an HTTP response.
//!
//! The crate verifies the protocol logic: the call/reply message shape, the
//! byte-level framing exchanged with the pool, the thread-to-context routing
//! scheme, the context-id lifecycle, and the synchronous call/response
//! handshake. Listening, spawning and running guest code are left to the
//! surrounding program.

pub mod codec;
pub mod context;
pub mod gateway;
pub mod msg;
pub mod opts;
pub mod router;
pub mod text;
pub mod wire;
