//! Tensor arithmetic with a batched accelerator execution engine.
//!
//! The crate has two halves:
//!
//! * host-side tensors and their arithmetic: [`tensor::Tensor`] with
//!   elementwise, broadcast and matrix operations;
//! * a batching engine that flattens many independent operations
//!   ("samples") into contiguous transfer buffers, validates that they are
//!   batch-compatible, and splits oversized batches into device-sized
//!   chunks that never cut a sample in half.

pub mod arithmetic;
pub mod broadcasting;
pub mod machine_learning;
pub mod device;
pub mod gpu_data;
pub mod runner;
pub mod sample;
pub mod shaders;
pub mod subtypes;
pub mod tensor;
