//! The planes of the accumulated radiance, split by lobe.
use vstd::prelude::*;

use crate::dataset;
use crate::dataset::{Plane, PlaneSet, PLANE_COUNT};

verus! {

/// The planes, in the order in which they are written.
pub const PLANES: [Plane; 3] = [
    Plane::DiffuseIllumination,
    Plane::SpecularRadiance,
    Plane::EmissiveRadiance,
];

/// The planes as a set.
pub open spec fn planes() -> Set<Plane> {
    Set::empty().insert(Plane::DiffuseIllumination).insert(Plane::SpecularRadiance).insert(
        Plane::EmissiveRadiance,
    )
}

/// The planes as a set.
pub fn plane_set() -> (result: PlaneSet)
    ensures
        result@ == planes(),
{
    PlaneSet::new().with(Plane::DiffuseIllumination).with(Plane::SpecularRadiance).with(
        Plane::EmissiveRadiance,
    )
}

/// A record lists the planes as they are written, in nine channels.
pub proof fn planes_have_record_order()
    ensures
        dataset::walk(planes(), 0) == PLANES@,
        dataset::channels_below(planes(), PLANE_COUNT as int) == 9,
{
    reveal_with_fuel(dataset::walk, 12);
    reveal_with_fuel(dataset::channels_below, 12);
    assert(dataset::walk(planes(), 0) =~= PLANES@);
}

} // verus!
