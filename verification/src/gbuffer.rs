//! The geometry and material planes that are captured beside the colour.
use vstd::prelude::*;

use crate::dataset;
use crate::dataset::{Plane, PlaneSet, PLANE_COUNT};

verus! {

/// The planes, in the order in which they are written.
pub const PLANES: [Plane; 5] = [
    Plane::Depth,
    Plane::Normal,
    Plane::DiffuseAlbedo,
    Plane::SpecularF0,
    Plane::Roughness,
];

/// The planes as a set.
pub open spec fn planes() -> Set<Plane> {
    Set::empty().insert(Plane::Depth).insert(Plane::Normal).insert(Plane::DiffuseAlbedo).insert(
        Plane::SpecularF0,
    ).insert(Plane::Roughness)
}

/// The planes as a set.
pub fn plane_set() -> (result: PlaneSet)
    ensures
        result@ == planes(),
{
    PlaneSet::new().with(Plane::Depth).with(Plane::Normal).with(Plane::DiffuseAlbedo).with(
        Plane::SpecularF0,
    ).with(Plane::Roughness)
}

/// How many values a pixel takes.
pub fn channels() -> (result: usize)
    ensures
        result == 11,
        result == dataset::channels_below(planes(), PLANE_COUNT as int),
{
    let set = plane_set();
    proof {
        reveal_with_fuel(dataset::channels_below, 12);
    }
    set.channels()
}

/// A record lists colour first and then the planes as they are written.
pub proof fn planes_have_record_order()
    ensures
        dataset::walk(planes().insert(Plane::Color), 0) == seq![Plane::Color] + PLANES@,
        dataset::walk(planes(), 0) == PLANES@,
{
    reveal_with_fuel(dataset::walk, 12);
    assert(dataset::walk(planes().insert(Plane::Color), 0) =~= seq![Plane::Color] + PLANES@);
    assert(dataset::walk(planes(), 0) =~= PLANES@);
}

/// How many groups of eight cover a length.
pub open spec fn groups(length: int) -> int {
    (length + 7) / 8
}

/// How many groups of eight cover a length.
pub fn group_count(length: u32) -> (result: u32)
    ensures
        result == groups(length as int),
        8 * (result - 1) < length <= 8 * result,
{
    length / 8 + if length % 8 == 0 {
        0
    } else {
        1
    }
}

/// How many values a probe of this extent holds.
pub fn probe_len(channels: usize, width: u32, height: u32) -> (result: usize)
    requires
        channels * width * height <= usize::MAX,
        width * height <= u32::MAX,
    ensures
        result == channels * width * height,
{
    assert(channels * width * height == channels * (width * height)) by (nonlinear_arith);
    channels * (width * height) as usize
}

} // verus!
