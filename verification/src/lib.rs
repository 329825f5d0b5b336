//! A verified control-plane engine for an RTSP-style streaming session
//! protocol: a byte-level message codec, a per-connection session state
//! machine, and a shared server-port allocator.
//!
//! The library is pure logic: it turns received bytes into requests,
//! requests into responses and state transitions, and responses back into
//! bytes. All socket handling lives outside the library; callers feed it
//! plain byte buffers and carry out the actions it returns.

pub mod bytes;
pub mod codec;
pub mod msg;
pub mod ports;
pub mod session;
