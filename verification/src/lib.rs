//! An in-process tracing sink that captures span enter/exit and instant
//! events and serializes them into a Perfetto-compatible binary trace.
//!
//! The byte-level protobuf emitter, the interning dictionary, the packet
//! model and the writer logic are verified; the surrounding runtime
//! (threads, files, the host instrumentation framework) lives outside
//! this crate.

pub mod annotations;
pub mod emit;
pub mod intern;
pub mod layer;
pub mod message;
pub mod packet;
pub mod shims;
pub mod text;
pub mod writer;

pub use layer::PerfettoLayerBuilder;
