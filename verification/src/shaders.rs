//! The operation registry: a closed enumeration of the compute programs
//! the accelerator backend can run.  Each identifier maps one-to-one to a
//! compute-program source held by the execution layer.

use vstd::prelude::*;

verus! {

/// Accelerator tensor operations supported by this library.
#[derive(Debug, PartialEq, Eq, Structural, Clone, Copy)]
pub enum GpuOperations {
    NoOp,
    Add,
    TensAdd,
    Sub,
    TensSub,
    Mul,
    TensMul,
    Div,
    TensDiv,
    NLog,
    Log,
    Matmul,
    ReLU,
    ReLUDer,
    Sigmoid,
    SigmoidDer,
    BroadcastAdd,
    BroadcastSub,
    BroadcastMul,
    BroadcastDiv,
    MatrixTranspose,
    MatrixRowSum,
    MatrixRowProd,
    MatrixColSum,
    MatrixColProd,
    ForwardNoActiv,
    ForwardSigmoid,
    ForwardRelu,
    BackwardWeight,
    BackwardBias,
    BackwardGradient,
    BackwardRelu,
    BackwardSigmoid,
}

} // verus!
