//! Outcome of nonlinear least-squares optimization.

use vstd::prelude::*;

verus! {

/// Reason an optimization run stopped.
#[derive(Debug, Clone, Copy, PartialEq, Eq, Structural)]
pub enum TerminationReason {
    /// Cost tolerance reached
    CostConverged,
    /// Parameter tolerance reached
    ParamConverged,
    /// Gradient tolerance reached
    GradientConverged,
    /// Maximum iterations reached
    MaxIterations,
    /// Lambda exceeded maximum (stuck)
    LambdaExceeded,
    /// Invalid residuals (NaN or Inf)
    InvalidResiduals,
}

} // verus!
