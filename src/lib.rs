//! Host-side runtime layer for a kernel-executing compute device: contexts,
//! command queues, device buffers, kernels and completion events.

pub mod context;
pub mod error;
pub mod kernel;
pub mod pipeline;
pub mod queue;
pub mod runtime;
