//! The choices that describe a reconstruction network.
use vstd::prelude::*;

verus! {

/// What the network is fitted to.
#[derive(Clone, Copy, Debug, PartialEq, Eq, Structural)]
pub enum Objective {
    Direct,
    Diffusion,
}

/// What the network puts out.
#[derive(Clone, Copy, Debug, PartialEq, Eq, Structural)]
pub enum Prediction {
    SubpixelResidual,
    LowResolutionResidual,
    SubpixelKernel,
}

/// What the output of the network is added to.
#[derive(Clone, Copy, Debug, PartialEq, Eq, Structural)]
pub enum ReconstructionBase {
    Nearest,
    Bilinear,
    GuidedBilinear,
    HighResolutionGuided,
    /// No base of its own: the network gathers samples directly.
    Sample,
}

/// What the network is told of earlier frames.
#[derive(Clone, Copy, Debug, PartialEq, Eq, Structural)]
pub enum Features {
    Basic,
    Variance,
}

impl Objective {
    /// The objectives by number.
    pub open spec fn nth(i: int) -> Objective {
        if i == 1 {
            Objective::Diffusion
        } else {
            Objective::Direct
        }
    }

    /// The objective of this number.
    pub fn from_place(i: usize) -> (result: Objective)
        ensures
            result == Objective::nth(i as int),
    {
        if i == 1 {
            Objective::Diffusion
        } else {
            Objective::Direct
        }
    }
}

impl Prediction {
    /// The predictions by number.
    pub open spec fn nth(i: int) -> Prediction {
        if i == 1 {
            Prediction::LowResolutionResidual
        } else if i == 2 {
            Prediction::SubpixelKernel
        } else {
            Prediction::SubpixelResidual
        }
    }

    /// The prediction of this number.
    pub fn from_place(i: usize) -> (result: Prediction)
        ensures
            result == Prediction::nth(i as int),
    {
        if i == 1 {
            Prediction::LowResolutionResidual
        } else if i == 2 {
            Prediction::SubpixelKernel
        } else {
            Prediction::SubpixelResidual
        }
    }
}

impl ReconstructionBase {
    /// The bases by number.
    pub open spec fn nth(i: int) -> ReconstructionBase {
        if i == 0 {
            ReconstructionBase::Nearest
        } else if i == 1 {
            ReconstructionBase::Bilinear
        } else if i == 3 {
            ReconstructionBase::HighResolutionGuided
        } else if i == 4 {
            ReconstructionBase::Sample
        } else {
            ReconstructionBase::GuidedBilinear
        }
    }

    /// The base of this number.
    pub fn from_place(i: usize) -> (result: ReconstructionBase)
        ensures
            result == ReconstructionBase::nth(i as int),
    {
        if i == 0 {
            ReconstructionBase::Nearest
        } else if i == 1 {
            ReconstructionBase::Bilinear
        } else if i == 3 {
            ReconstructionBase::HighResolutionGuided
        } else if i == 4 {
            ReconstructionBase::Sample
        } else {
            ReconstructionBase::GuidedBilinear
        }
    }
}

impl Features {
    /// The features by number.
    pub open spec fn nth(i: int) -> Features {
        if i == 0 {
            Features::Basic
        } else {
            Features::Variance
        }
    }

    /// The features of this number.
    pub fn from_place(i: usize) -> (result: Features)
        ensures
            result == Features::nth(i as int),
    {
        if i == 0 {
            Features::Basic
        } else {
            Features::Variance
        }
    }
}

} // verus!
