use vstd::prelude::*;

verus! {

/// The kind of statistical noise to inject into the processed frame.
#[derive(Copy, Clone, PartialEq, Eq, PartialOrd, Ord, Structural, Debug)]
pub enum NoiseType {
    /// Per-channel additive noise drawn from a normal distribution.
    Gaussian,
    /// Per-pixel replacement by pure white or pure black.
    SaltPepper,
    /// Per-channel replacement by a draw whose rate is the channel value.
    Poisson,
}

} // verus!
