//! Host-side entity store for a sandboxed guest module: generation-counted
//! handles, a slot allocator with an embedded free list, the byte-level
//! bridge into guest memory, and the guest's fault report record.

pub mod wasm_entity;
pub mod visual;
pub mod shared;
pub mod world;
pub mod wasm;
pub mod sys;
