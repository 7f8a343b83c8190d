//! Per-frame GPU command recording and submission layer.
//!
//! Applications record draw/dispatch work and resource bindings into a
//! transient, per-frame structure; the library resolves named bindings,
//! stages transient data in a fixed-capacity upload ring, inserts the
//! minimum necessary memory barriers between dependent operations, and
//! lays the work out in a well-defined submission order.  Everything the
//! GPU driver must eventually execute is described by plain data, so the
//! surrounding application only has to carry the plan out.

pub mod barrier;
pub mod commands;
pub mod errors;
pub mod frame;
pub mod pipeline;
pub mod reflect;
pub mod resources;
pub mod resource_manager;
pub mod submit;
pub mod upload_heap;
