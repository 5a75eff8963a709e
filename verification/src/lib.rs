//! Verified core of a PostgreSQL wire-protocol proxy.
//!
//! The crate decodes protocol messages out of a growable receive buffer,
//! re-serializes them byte-exactly, and tracks the startup phase and the
//! authentication state a proxy session observes. Socket handling lives
//! outside the library; everything here is pure logic over buffered bytes.

pub mod buffer;
pub mod protocol;
pub mod session;
