//! How the vertices of procedural shapes are joined to triangles.
use vstd::prelude::*;

verus! {

/// How often a sphere is divided around its axis.
pub const SPHERE_SEGMENTS: u32 = 24;

/// How often a sphere is divided along its axis.
pub const SPHERE_RINGS: u32 = 12;

/// How many vertices a sphere has: the seam and the poles are doubled.
pub const SPHERE_VERTICES: u32 = 325;

/// The offset from the first vertex of a cell of a sphere to the vertex at
/// place `k` of its two triangles.
pub open spec fn cell_offset(k: int) -> int {
    let stride = SPHERE_SEGMENTS + 1;
    if k == 0 {
        0
    } else if k == 1 || k == 3 {
        1
    } else if k == 4 {
        stride + 1
    } else {
        stride
    }
}

/// The vertex at place `i` of the triangles of a sphere. The cells are listed
/// ring by ring, six places each.
pub open spec fn sphere_index(i: int) -> int {
    let cell = i / 6;
    cell / SPHERE_SEGMENTS as int * (SPHERE_SEGMENTS + 1) + cell % SPHERE_SEGMENTS as int
        + cell_offset(i % 6)
}

/// Joins the vertices of a sphere, which stand ring by ring, counter-clockwise
/// seen from outside.
pub fn sphere_indices() -> (result: Vec<u32>)
    ensures
        result@.len() == SPHERE_RINGS * SPHERE_SEGMENTS * 6,
        forall|i: int| 0 <= i < result@.len() ==> #[trigger] result@[i] == sphere_index(i),
        forall|i: int| 0 <= i < result@.len() ==> #[trigger] result@[i] < SPHERE_VERTICES,
{
    let mut indices: Vec<u32> = Vec::new();
    let stride: u32 = SPHERE_SEGMENTS + 1;
    let mut cell: u32 = 0;
    while cell < SPHERE_RINGS * SPHERE_SEGMENTS
        invariant
            cell <= SPHERE_RINGS * SPHERE_SEGMENTS,
            stride == SPHERE_SEGMENTS + 1,
            indices@.len() == 6 * cell,
            forall|i: int| 0 <= i < indices@.len() ==> #[trigger] indices@[i] == sphere_index(i),
            forall|i: int| 0 <= i < indices@.len() ==> #[trigger] indices@[i] < SPHERE_VERTICES,
        decreases SPHERE_RINGS * SPHERE_SEGMENTS - cell,
    {
        let ring: u32 = cell / SPHERE_SEGMENTS;
        assert(ring < SPHERE_RINGS && ring * stride == ring * 25 && ring * 25 <= 11 * 25);
        let base: u32 = ring * stride + cell % SPHERE_SEGMENTS;
        indices.push(base);
        indices.push(base + 1);
        indices.push(base + stride);
        indices.push(base + 1);
        indices.push(base + stride + 1);
        indices.push(base + stride);
        cell = cell + 1;
    }
    indices
}

/// The vertex at place `k` of the two triangles of a rectangle.
pub open spec fn rect_index(k: int) -> int {
    if k == 0 || k == 3 {
        0
    } else if k == 1 {
        1
    } else if k == 5 {
        3
    } else {
        2
    }
}

/// Joins the vertices of `faces` rectangles, four each, counter-clockwise.
pub fn face_indices(faces: u32) -> (result: Vec<u32>)
    requires
        faces <= 0x1000_0000,
    ensures
        result@.len() == 6 * faces,
        forall|i: int|
            0 <= i < result@.len() ==> #[trigger] result@[i] == i / 6 * 4 + rect_index(i % 6),
        forall|i: int| 0 <= i < result@.len() ==> #[trigger] result@[i] < 4 * faces,
{
    let mut indices: Vec<u32> = Vec::new();
    let mut face: u32 = 0;
    while face < faces
        invariant
            face <= faces <= 0x1000_0000,
            indices@.len() == 6 * face,
            forall|i: int|
                0 <= i < indices@.len() ==> #[trigger] indices@[i] == i / 6 * 4 + rect_index(i % 6),
            forall|i: int| 0 <= i < indices@.len() ==> #[trigger] indices@[i] < 4 * face,
        decreases faces - face,
    {
        let base: u32 = 4 * face;
        indices.push(base);
        indices.push(base + 1);
        indices.push(base + 2);
        indices.push(base);
        indices.push(base + 2);
        indices.push(base + 3);
        face = face + 1;
    }
    indices
}

/// Joins the vertices of a rectangle.
pub fn rect_indices() -> (result: Vec<u32>)
    ensures
        result@ == seq![0u32, 1, 2, 0, 2, 3],
{
    let indices = face_indices(1);
    assert(indices@ =~= seq![0u32, 1, 2, 0, 2, 3]);
    indices
}

/// Joins the vertices of a box, whose six faces have four vertices of their own.
pub fn box_indices() -> (result: Vec<u32>)
    ensures
        result@.len() == 36,
        forall|i: int|
            0 <= i < 36 ==> #[trigger] result@[i] == i / 6 * 4 + rect_index(i % 6),
        forall|i: int| 0 <= i < 36 ==> #[trigger] result@[i] < 24,
{
    face_indices(6)
}

/// Packs the three components of a direction, each a byte in two's complement,
/// the first lowest.
pub fn pack_normal(x: u8, y: u8, z: u8) -> (result: u32)
    ensures
        result == x + 0x100 * y + 0x1_0000 * z,
{
    x as u32 + 0x100 * y as u32 + 0x1_0000 * z as u32
}

/// A cell of a sphere is covered by two triangles that share its diagonal, from the
/// corner after its first to the one below its first.
pub proof fn cells_are_two_triangles(result: Vec<u32>, ring: int, segment: int)
    requires
        call_ensures(sphere_indices, (), result),
        0 <= ring < SPHERE_RINGS,
        0 <= segment < SPHERE_SEGMENTS,
    ensures
        ({
            let i = (ring * 24 + segment) * 6;
            let first = ring * 25 + segment;
            &&& result@.len() == 12 * 24 * 6
            &&& result@[i] == first
            &&& result@[i + 1] == first + 1 && result@[i + 3] == first + 1
            &&& result@[i + 2] == first + 25 && result@[i + 5] == first + 25
            &&& result@[i + 4] == first + 26
        }),
{
    let cell = ring * 24 + segment;
    let i = cell * 6;
    assert(result@[i] == sphere_index(i));
    assert(result@[i + 1] == sphere_index(i + 1));
    assert(result@[i + 2] == sphere_index(i + 2));
    assert(result@[i + 3] == sphere_index(i + 3));
    assert(result@[i + 4] == sphere_index(i + 4));
    assert(result@[i + 5] == sphere_index(i + 5));
}

/// A face is covered by two triangles from its first corner, and no two faces share
/// one.
pub proof fn faces_are_two_triangles(faces: u32, result: Vec<u32>, face: int)
    requires
        faces <= 0x1000_0000,
        call_ensures(face_indices, (faces,), result),
        0 <= face < faces,
    ensures
        result@.len() == 6 * faces,
        result@[6 * face] == 4 * face,
        result@[6 * face + 1] == 4 * face + 1,
        result@[6 * face + 2] == 4 * face + 2,
        result@[6 * face + 3] == 4 * face,
        result@[6 * face + 4] == 4 * face + 2,
        result@[6 * face + 5] == 4 * face + 3,
{
    let i = 6 * face;
    assert(result@[i] == i / 6 * 4 + rect_index(i % 6));
    assert(result@[i + 1] == (i + 1) / 6 * 4 + rect_index((i + 1) % 6));
    assert(result@[i + 2] == (i + 2) / 6 * 4 + rect_index((i + 2) % 6));
    assert(result@[i + 3] == (i + 3) / 6 * 4 + rect_index((i + 3) % 6));
    assert(result@[i + 4] == (i + 4) / 6 * 4 + rect_index((i + 4) % 6));
    assert(result@[i + 5] == (i + 5) / 6 * 4 + rect_index((i + 5) % 6));
}

} // verus!
