//! Front end of an image-editing pipeline.
//!
//! A caller describes a sequence of image operations as a typed,
//! single-assignment instruction log ([`command::CommandBuffer`]), which is
//! validated per operation against the descriptors of its operand registers.
//! A finished log is compiled into per-register liveness intervals and a
//! lowered, resource-scheduled instruction sequence ([`program::Program`]).
//! The resource pool ([`pool::Pool`]) owns the pixel data backing each
//! register at run time and governs when that data may be moved, copied, or
//! destructively reused.

pub mod buffer;
pub mod command;
pub mod pool;
pub mod program;

