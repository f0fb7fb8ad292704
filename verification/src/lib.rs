//! Session and handle management plus address-space introspection for a
//! remote-memory backend.
//!
//! The crate holds the decision logic of a handle-based process-inspection
//! surface: an opaque-handle table for opened remote processes, the algorithm
//! that turns a raw virtual-address translation map into a compact list of
//! contiguous sections, and the effective-address computation of the raw
//! read/write paths.  The backend that supplies process lists, translation
//! maps and raw memory access is an outside collaborator: callers fetch its
//! data and hand it in here as plain values.

pub mod handles;
pub mod memory;
pub mod sections;
pub mod session;
