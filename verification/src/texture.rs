//! Procedural base-colour textures.
//!
//! Shades are worked out elsewhere; here is where each of them goes, and how a
//! texture becomes a file.
use vstd::prelude::*;

use crate::image;
use crate::image::write_png;

verus! {

/// Edge length of a texture.
pub const SIZE: usize = 256;

/// What a texture looks like.
#[derive(Clone, Copy, Debug, PartialEq, Eq, Structural)]
pub enum Kind {
    /// Hard-edged squares, each of its own shade.
    Checker,
    /// Value noise over several octaves.
    Noise,
    /// Small dark discs on a light field.
    Dots,
}

/// All looks of a texture.
pub const KINDS: [Kind; 3] = [Kind::Checker, Kind::Noise, Kind::Dots];

/// How many squares of edge `cell` a row begins, with one to spare.
pub open spec fn columns(cell: int) -> int {
    SIZE as int / cell + 1
}

/// The square that a texel lies in.
pub open spec fn square(index: int, cell: int) -> int {
    index / SIZE as int / cell * columns(cell) + index % SIZE as int / cell
}

/// Whether the square that a texel lies in is a dark one.
pub open spec fn dark_square(index: int, cell: int) -> bool {
    (index % SIZE as int / cell + index / SIZE as int / cell) % 2 != 0
}

proof fn lemma_square(index: int, cell: int)
    requires
        0 <= index < SIZE * SIZE,
        0 < cell,
    ensures
        0 <= index % SIZE as int / cell < columns(cell),
        0 <= index / SIZE as int / cell < columns(cell),
        0 <= square(index, cell) < columns(cell) * columns(cell),
{
    let x = index % SIZE as int;
    let y = index / SIZE as int;
    vstd::arithmetic::div_mod::lemma_div_is_ordered(x, SIZE as int, cell);
    vstd::arithmetic::div_mod::lemma_div_is_ordered(y, SIZE as int, cell);
    vstd::arithmetic::div_mod::lemma_div_pos_is_pos(x, cell);
    vstd::arithmetic::div_mod::lemma_div_pos_is_pos(y, cell);
    let (p, q, n) = (x / cell, y / cell, columns(cell));
    assert(0 <= q * n + p < n * n) by (nonlinear_arith)
        requires
            0 <= p < n,
            0 <= q < n,
    ;
}

/// Lays squares of edge `cell`, each in its own shade: light where the sum of
/// its column and row is even, dark elsewhere.
pub fn checker<T: Copy>(cell: usize, light: &[T], dark: &[T]) -> (result: Vec<T>)
    requires
        0 < cell,
        light@.len() == columns(cell as int) * columns(cell as int),
        dark@.len() == light@.len(),
    ensures
        result@.len() == SIZE * SIZE,
        forall|i: int|
            0 <= i < SIZE * SIZE ==> #[trigger] result@[i] == if dark_square(i, cell as int) {
                dark@[square(i, cell as int)]
            } else {
                light@[square(i, cell as int)]
            },
{
    let wide: usize = SIZE / cell + 1;
    let mut out: Vec<T> = Vec::new();
    let mut i: usize = 0;
    while i < SIZE * SIZE
        invariant
            i <= SIZE * SIZE,
            0 < cell,
            wide == columns(cell as int),
            light@.len() == columns(cell as int) * columns(cell as int),
            dark@.len() == light@.len(),
            out@.len() == i,
            forall|j: int|
                0 <= j < i ==> #[trigger] out@[j] == if dark_square(j, cell as int) {
                    dark@[square(j, cell as int)]
                } else {
                    light@[square(j, cell as int)]
                },
        decreases SIZE * SIZE - i,
    {
        let x: usize = i % SIZE / cell;
        let y: usize = i / SIZE / cell;
        proof {
            lemma_square(i as int, cell as int);
            vstd::arithmetic::div_mod::lemma_div_is_ordered_by_denominator(
                SIZE as int,
                1,
                cell as int,
            );
            vstd::arithmetic::div_mod::lemma_div_is_ordered_by_denominator(
                (i / SIZE) as int,
                1,
                cell as int,
            );
            assert(0 <= y * wide <= SIZE * (SIZE + 1)) by (nonlinear_arith)
                requires
                    y <= SIZE,
                    wide <= SIZE + 1,
            ;
        }
        let at: usize = y * wide + x;
        if (x + y) % 2 == 0 {
            out.push(light[at]);
        } else {
            out.push(dark[at]);
        }
        i = i + 1;
    }
    out
}

/// The four corners of the lattice cell that a texel lies in, and how far into
/// it the texel lies, in parts of `step`.
#[derive(Clone, Copy, Debug, PartialEq, Eq, Structural)]
pub struct LatticeTap {
    pub top_left: usize,
    pub top_right: usize,
    pub bottom_left: usize,
    pub bottom_right: usize,
    pub x: usize,
    pub y: usize,
    pub step: usize,
}

/// The corner of a lattice that tiles: past the last one comes the first.
pub open spec fn corner(x: int, y: int, lattice: int) -> int {
    (y % lattice) * lattice + x % lattice
}

/// The tap of a texel on a lattice of `SIZE / step` corners a side.
pub open spec fn lattice_tap(x: int, y: int, lattice: int) -> LatticeTap {
    let step = SIZE as int / lattice;
    let (x0, y0) = (x / step, y / step);
    LatticeTap {
        top_left: corner(x0, y0, lattice) as usize,
        top_right: corner(x0 + 1, y0, lattice) as usize,
        bottom_left: corner(x0, y0 + 1, lattice) as usize,
        bottom_right: corner(x0 + 1, y0 + 1, lattice) as usize,
        x: (x % step) as usize,
        y: (y % step) as usize,
        step: step as usize,
    }
}

/// A corner of a lattice is one of its values.
pub proof fn corner_inside(x: int, y: int, lattice: int)
    requires
        0 < lattice,
    ensures
        0 <= corner(x, y, lattice) < lattice * lattice,
{
    let (p, q) = (x % lattice, y % lattice);
    assert(0 <= q * lattice + p < lattice * lattice) by (nonlinear_arith)
        requires
            0 <= p < lattice,
            0 <= q < lattice,
    ;
}

/// A lattice tiles without a seam: a step past its edge is where it began.
pub proof fn lattice_tiles(x: int, y: int, lattice: int)
    requires
        0 < lattice,
    ensures
        corner(x + lattice, y, lattice) == corner(x, y, lattice),
        corner(x, y + lattice, lattice) == corner(x, y, lattice),
{
    vstd::arithmetic::div_mod::lemma_mod_add_multiples_vanish(x, lattice);
    vstd::arithmetic::div_mod::lemma_mod_add_multiples_vanish(y, lattice);
}

/// Finds the tap of a texel.
pub fn tap_lattice(x: usize, y: usize, lattice: usize) -> (result: LatticeTap)
    requires
        x < SIZE,
        y < SIZE,
        0 < lattice <= SIZE,
        SIZE % lattice == 0,
    ensures
        result == lattice_tap(x as int, y as int, lattice as int),
        result.top_left < lattice * lattice,
        result.top_right < lattice * lattice,
        result.bottom_left < lattice * lattice,
        result.bottom_right < lattice * lattice,
        result.x < result.step,
        result.y < result.step,
{
    let step: usize = SIZE / lattice;
    proof {
        vstd::arithmetic::div_mod::lemma_div_non_zero(SIZE as int, lattice as int);
    }
    let x0: usize = x / step;
    let y0: usize = y / step;
    proof {
        let (l, i, j) = (lattice as int, x0 as int, y0 as int);
        corner_inside(i, j, l);
        corner_inside(i + 1, j, l);
        corner_inside(i, j + 1, l);
        corner_inside(i + 1, j + 1, l);
        assert(l * l <= SIZE * SIZE) by (nonlinear_arith)
            requires
                0 < l <= SIZE,
        ;
        vstd::arithmetic::div_mod::lemma_div_is_ordered_by_denominator(x as int, 1, step as int);
        vstd::arithmetic::div_mod::lemma_div_is_ordered_by_denominator(y as int, 1, step as int);
    }
    let left: usize = x0 % lattice;
    let right: usize = (x0 + 1) % lattice;
    let top: usize = y0 % lattice;
    let bottom: usize = (y0 + 1) % lattice;
    assert(top * lattice <= lattice * lattice && bottom * lattice <= lattice * lattice)
        by (nonlinear_arith)
        requires
            top < lattice,
            bottom < lattice,
    ;
    LatticeTap {
        top_left: top * lattice + left,
        top_right: top * lattice + right,
        bottom_left: bottom * lattice + left,
        bottom_right: bottom * lattice + right,
        x: x % step,
        y: y % step,
        step,
    }
}

/// Edge length of the cell that holds one dot.
pub const DOT_CELL: usize = 24;

/// How many dots a row holds.
pub const DOTS: usize = 10;

/// Whether a texel is one that a dot about a center covers.
pub open spec fn covered(i: int, x: int, y: int, span: int, inside: Seq<bool>) -> bool {
    let (dx, dy) = (i % SIZE as int - x, i / SIZE as int - y);
    -span <= dx <= span && -span <= dy <= span && inside[(dy + span) * (2 * span + 1) + dx + span]
}

/// Puts a dot on a texture. The texels within `span` of the center in either
/// direction are marked row by row as inside or outside the disc; what lies
/// beyond the texture is left out.
pub fn stamp_dot<T: Copy>(
    texture: &mut Vec<T>,
    x: i32,
    y: i32,
    span: i32,
    inside: &[bool],
    shade: T,
)
    requires
        old(texture)@.len() == SIZE * SIZE,
        0 <= span,
        i32::MIN <= x - span,
        x + span <= i32::MAX,
        i32::MIN <= y - span,
        y + span <= i32::MAX,
        inside@.len() == (2 * span + 1) * (2 * span + 1),
    ensures
        final(texture)@.len() == SIZE * SIZE,
        forall|i: int|
            0 <= i < SIZE * SIZE ==> #[trigger] final(texture)@[i] == if covered(
                i,
                x as int,
                y as int,
                span as int,
                inside@,
            ) {
                shade
            } else {
                old(texture)@[i]
            },
{
    let count: usize = inside.len();
    assert(2 * span + 1 <= (2 * span + 1) * (2 * span + 1)) by (nonlinear_arith)
        requires
            0 <= span,
    ;
    let wide: usize = (2 * span as i64 + 1) as usize;
    let (left, top, reach): (i64, i64, i64) = (x as i64, y as i64, span as i64);
    let mut i: usize = 0;
    while i < SIZE * SIZE
        invariant
            i <= SIZE * SIZE,
            texture@.len() == SIZE * SIZE,
            old(texture)@.len() == SIZE * SIZE,
            0 <= span,
            left == x,
            top == y,
            reach == span,
            wide == 2 * span + 1,
            count == inside@.len() == wide * wide,
            forall|j: int|
                0 <= j < i ==> #[trigger] texture@[j] == if covered(
                    j,
                    x as int,
                    y as int,
                    span as int,
                    inside@,
                ) {
                    shade
                } else {
                    old(texture)@[j]
                },
            forall|j: int| i <= j < SIZE * SIZE ==> #[trigger] texture@[j] == old(texture)@[j],
        decreases SIZE * SIZE - i,
    {
        let dx: i64 = (i % SIZE) as i64 - left;
        let dy: i64 = (i / SIZE) as i64 - top;
        if -reach <= dx && dx <= reach && -reach <= dy && dy <= reach {
            let row: usize = (dy + reach) as usize;
            let column: usize = (dx + reach) as usize;
            assert(row * wide + column < wide * wide && 0 <= row * wide) by (nonlinear_arith)
                requires
                    row < wide,
                    column < wide,
            ;
            if inside[row * wide + column] {
                texture.set(i, shade);
            }
        }
        i = i + 1;
    }
}

/// The opaque pixels of greys.
pub open spec fn grey_pixels(greys: Seq<u8>) -> Seq<u8> {
    Seq::new(
        4 * greys.len(),
        |k: int|
            if k % 4 < 3 {
                greys[k / 4]
            } else {
                255
            },
    )
}

/// Repeats each grey in three channels and puts opaque alpha behind it.
fn spread_greys(greys: &[u8]) -> (result: Vec<u8>)
    requires
        greys@.len() == SIZE * SIZE,
    ensures
        result@ == grey_pixels(greys@),
{
    let mut out: Vec<u8> = Vec::new();
    let mut i: usize = 0;
    while i < greys.len()
        invariant
            i <= greys.len(),
            greys@.len() == SIZE * SIZE,
            out@.len() == 4 * i,
            forall|k: int| 0 <= k < 4 * i ==> #[trigger] out@[k] == grey_pixels(greys@)[k],
        decreases greys.len() - i,
    {
        let grey: u8 = greys[i];
        out.push(grey);
        out.push(grey);
        out.push(grey);
        out.push(255);
        i = i + 1;
    }
    assert(out@ =~= grey_pixels(greys@));
    out
}

/// Writes a texture, given as the encoded grey of each texel, as a PNG file. The
/// file says that it is `SIZE` by `SIZE`.
pub fn bake(greys: &[u8]) -> (result: Vec<u8>)
    requires
        greys@.len() == SIZE * SIZE,
    ensures
        result@ == image::png_file(SIZE as u32, SIZE as u32, true, grey_pixels(greys@)),
        result@.len() >= 24,
        image::word_at(result@, 16) == SIZE,
        image::word_at(result@, 20) == SIZE,
{
    let pixels = spread_greys(greys);
    match write_png(pixels.as_slice(), SIZE as u32, SIZE as u32, true) {
        Some(file) => file,
        None => {
            assert(image::samples_fit(pixels@.len() as int, SIZE as u32, SIZE as u32, true));
            Vec::new()
        },
    }
}

/// Texels of one square have one shade, and squares that share an edge are not both
/// light or both dark.
pub proof fn squares_take_turns<T: Copy>(
    cell: usize,
    light: &[T],
    dark: &[T],
    result: Vec<T>,
    x: int,
    y: int,
)
    requires
        0 < cell,
        light@.len() == columns(cell as int) * columns(cell as int),
        dark@.len() == light@.len(),
        call_ensures(checker::<T>, (cell, light, dark), result),
        0 <= x < SIZE,
        0 <= y < SIZE,
    ensures
        result@.len() == SIZE * SIZE,
        ({
            let (column, row) = (x / cell as int, y / cell as int);
            let at = row * (SIZE as int / cell as int + 1) + column;
            result@[y * SIZE + x] == if (column + row) % 2 == 1 {
                dark@[at]
            } else {
                light@[at]
            }
        }),
{
    let i = y * SIZE + x;
    vstd::arithmetic::div_mod::lemma_fundamental_div_mod_converse(i, SIZE as int, y, x);
    assert(0 <= i < SIZE * SIZE);
    assert(result@[i] == if dark_square(i, cell as int) {
        dark@[square(i, cell as int)]
    } else {
        light@[square(i, cell as int)]
    });
}

/// A tap lies between the four corners around it: its own, the next in its row, and
/// the two below, where the first of a row or a column follows the last.
pub proof fn taps_lie_between_their_corners(
    x: usize,
    y: usize,
    lattice: usize,
    result: LatticeTap,
)
    requires
        x < SIZE,
        y < SIZE,
        0 < lattice <= SIZE,
        SIZE % lattice == 0,
        call_ensures(tap_lattice, (x, y, lattice), result),
    ensures
        result.step * lattice == SIZE,
        ({
            let (column, row) = (
                result.top_left as int % lattice as int,
                result.top_left as int / lattice as int,
            );
            let right = if column + 1 == lattice {
                0
            } else {
                column + 1
            };
            let below = if row + 1 == lattice {
                0
            } else {
                row + 1
            };
            &&& x == column * result.step + result.x
            &&& y == row * result.step + result.y
            &&& result.x < result.step && result.y < result.step
            &&& result.top_right == row * lattice + right
            &&& result.bottom_left == below * lattice + column
            &&& result.bottom_right == below * lattice + right
        }),
{
    let (l, size) = (lattice as int, SIZE as int);
    let step = size / l;
    vstd::arithmetic::div_mod::lemma_fundamental_div_mod(size, l);
    assert(step * l == size) by (nonlinear_arith)
        requires
            size == l * step + 0,
    ;
    assert(step > 0) by (nonlinear_arith)
        requires
            step * l == size,
            size > 0,
            l > 0,
    ;
    lemma_lattice_place(x as int, step, l);
    lemma_lattice_place(y as int, step, l);
    let (x0, y0) = (x as int / step, y as int / step);
    vstd::arithmetic::div_mod::lemma_small_mod(x0 as nat, l as nat);
    vstd::arithmetic::div_mod::lemma_small_mod(y0 as nat, l as nat);
    lemma_next_place(x0, l);
    lemma_next_place(y0, l);
    corner_inside(x0, y0, l);
    corner_inside(x0 + 1, y0, l);
    corner_inside(x0, y0 + 1, l);
    corner_inside(x0 + 1, y0 + 1, l);
    assert(l * l <= usize::MAX) by (nonlinear_arith)
        requires
            0 < l <= size,
            size * size <= usize::MAX,
    ;
    assert(result.top_left == y0 * l + x0);
    vstd::arithmetic::div_mod::lemma_fundamental_div_mod_converse(y0 * l + x0, l, y0, x0);
}

proof fn lemma_lattice_place(x: int, step: int, l: int)
    requires
        0 < step,
        0 < l,
        0 <= x < step * l,
    ensures
        0 <= x / step < l,
        x == x / step * step + x % step,
        0 <= x % step < step,
{
    vstd::arithmetic::div_mod::lemma_fundamental_div_mod(x, step);
    vstd::arithmetic::div_mod::lemma_mod_bound(x, step);
    let q = x / step;
    assert(0 <= q < l) by (nonlinear_arith)
        requires
            0 <= x < step * l,
            0 < step,
            0 <= x - step * q < step,
    ;
    assert(q * step == step * q) by (nonlinear_arith);
}

proof fn lemma_next_place(x: int, l: int)
    requires
        0 <= x < l,
    ensures
        (x + 1) % l == if x + 1 == l {
            0
        } else {
            x + 1
        },
{
    if x + 1 == l {
        vstd::arithmetic::div_mod::lemma_mod_self_0(l);
    } else {
        vstd::arithmetic::div_mod::lemma_small_mod((x + 1) as nat, l as nat);
    }
}

/// The pixels of a grey picture have its value in each color, and are opaque.
pub proof fn greys_are_opaque(greys: Seq<u8>, i: int)
    requires
        0 <= i < greys.len(),
    ensures
        grey_pixels(greys).len() == 4 * greys.len(),
        grey_pixels(greys)[4 * i] == greys[i],
        grey_pixels(greys)[4 * i + 1] == greys[i],
        grey_pixels(greys)[4 * i + 2] == greys[i],
        grey_pixels(greys)[4 * i + 3] == 255,
{
}

} // verus!
