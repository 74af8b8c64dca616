//! Moving image values about: every function here only says where each value
//! goes, so it works on values of any kind.
use vstd::prelude::*;

use crate::dataset;
use crate::dataset::{Plane, PlaneSet};

verus! {

/// Where channel `c` of the texel at `(x, y)` stands in an interleaved image
/// of three channels.
pub open spec fn at(width: int, x: int, y: int, c: int) -> int {
    (y * width + x) * 3 + c
}

/// Where the texel at `(x, y)` stands in a row-major grid.
pub open spec fn cell(width: int, x: int, y: int) -> int {
    y * width + x
}

/// A cell's place tells its column and row.
pub proof fn cell_coordinates(width: int, x: int, y: int)
    requires
        0 <= x < width,
        0 <= y,
    ensures
        cell(width, x, y) >= 0,
        cell(width, x, y) % width == x,
        cell(width, x, y) / width == y,
{
    assert(y * width >= 0) by (nonlinear_arith)
        requires
            0 <= y,
            0 < width,
    ;
    vstd::arithmetic::div_mod::lemma_fundamental_div_mod_converse(y * width + x, width, y, x);
}

/// A value's place in an interleaved image tells its texel and channel.
pub proof fn value_coordinates(width: int, x: int, y: int, c: int)
    requires
        0 <= x < width,
        0 <= y,
        0 <= c < 3,
    ensures
        at(width, x, y, c) >= 0,
        at(width, x, y, c) % 3 == c,
        at(width, x, y, c) / 3 == cell(width, x, y),
        (at(width, x, y, c) / 3) % width == x,
        (at(width, x, y, c) / 3) / width == y,
{
    cell_coordinates(width, x, y);
}

/// A cell inside a grid has a place inside it.
pub proof fn cell_inside(width: int, height: int, x: int, y: int)
    requires
        0 <= x < width,
        0 <= y < height,
    ensures
        0 <= cell(width, x, y) < width * height,
{
    assert(0 <= y * width + x < width * height) by (nonlinear_arith)
        requires
            0 <= x < width,
            0 <= y < height,
    ;
}

/// A place inside a grid has a column and a row inside it.
pub proof fn coordinates_inside(width: int, height: int, k: int)
    requires
        0 <= k < width * height,
        0 < width,
    ensures
        0 <= k % width < width,
        0 <= k / width < height,
        k == cell(width, k % width, k / width),
{
    vstd::arithmetic::div_mod::lemma_fundamental_div_mod(k, width);
    vstd::arithmetic::mul::lemma_mul_is_commutative(width, k / width);
    vstd::arithmetic::mul::lemma_mul_is_commutative(width, height);
    vstd::arithmetic::div_mod::lemma_multiply_divide_lt(k, width, height);
    vstd::arithmetic::div_mod::lemma_div_pos_is_pos(k, width);
}

/// Whether `out` is `low` with every texel repeated `scale` times along each
/// axis.
pub open spec fn repeated<T>(out: Seq<T>, low: Seq<T>, width: int, height: int, scale: int) -> bool {
    &&& out.len() == width * scale * height * scale * 3
    &&& forall|x: int, y: int, c: int|
        0 <= x < width * scale && 0 <= y < height * scale && 0 <= c < 3
            ==> #[trigger] out[at(width * scale, x, y, c)] == low[at(
            width,
            x / scale,
            y / scale,
            c,
        )]
}

/// Nearest-neighbour upsampling of an interleaved image.
pub fn nearest<T: Copy>(low: &[T], width: usize, height: usize, scale: usize) -> (result: Vec<T>)
    requires
        low.len() == width * height * 3,
        width * scale * height * scale * 3 <= usize::MAX,
        width * scale <= usize::MAX,
    ensures
        repeated(result@, low@, width as int, height as int, scale as int),
{
    let ghost w = width as int;
    let ghost h = height as int;
    let ghost s = scale as int;
    let mut out: Vec<T> = Vec::new();
    let row: usize = width * scale;
    proof {
        lemma_scaled_bounds(w, h, s);
    }
    if row == 0 || height == 0 {
        proof {
            lemma_empty_product(w, h, s);
        }
        return out;
    }
    let texels: usize = row * height * scale;
    let mut k: usize = 0;
    let n: usize = texels * 3;
    while k < n
        invariant
            w == width,
            h == height,
            s == scale,
            k <= n,
            n == texels * 3,
            texels == row * (h * s),
            row == w * s,
            row > 0,
            low.len() == w * h * 3,
            0 < w,
            0 < s,
            0 < h,
            out.len() == k,
            forall|j: int|
                0 <= j < k ==> #[trigger] out[j] == low[at(
                    w,
                    ((j / 3) % (w * s)) / s,
                    ((j / 3) / (w * s)) / s,
                    j % 3,
                )],
        decreases n - k,
    {
        let t: usize = k / 3;
        let x: usize = (t % row) / scale;
        let y: usize = (t / row) / scale;
        proof {
            coordinates_inside(row as int, h * s, t as int);
            lemma_scaled_coordinate((t % row) as int, w, s);
            lemma_scaled_coordinate((t / row) as int, h, s);
            cell_inside(w, h, x as int, y as int);
            assert(y * width >= 0) by (nonlinear_arith);
        }
        out.push(low[(y * width + x) * 3 + k % 3]);
        k = k + 1;
    }
    proof {
        assert(n == w * s * h * s * 3) by (nonlinear_arith)
            requires
                n == texels * 3,
                texels == row * (h * s),
                row == w * s,
        ;
        assert forall|x: int, y: int, c: int|
            0 <= x < w * s && 0 <= y < h * s && 0 <= c < 3 implies #[trigger] out[at(
            w * s,
            x,
            y,
            c,
        )] == low[at(w, x / s, y / s, c)] by {
            value_coordinates(w * s, x, y, c);
            cell_inside(w * s, h * s, x, y);
        }
    }
    out
}

proof fn lemma_scaled_bounds(w: int, h: int, s: int)
    requires
        0 <= w,
        0 <= h,
        0 <= s,
    ensures
        w * s * h * s == (w * s) * (h * s),
        w * s > 0 && h > 0 ==> w * s * h <= w * s * h * s && w * s * h * s <= w * s * h * s * 3
            && w > 0 && s > 0,
{
    assert(w * s * h * s == (w * s) * (h * s)) by (nonlinear_arith);
    if w * s > 0 && h > 0 {
        assert(w > 0 && s > 0) by (nonlinear_arith)
            requires
                w * s > 0,
                0 <= w,
                0 <= s,
        ;
        assert((w * s * h) * s >= w * s * h && w * s * h * s >= 0) by (nonlinear_arith)
            requires
                w * s > 0,
                h > 0,
                s > 0,
        ;
    }
}

proof fn lemma_empty_product(w: int, h: int, s: int)
    requires
        0 <= w,
        0 <= h,
        0 <= s,
        w * s == 0 || h == 0,
    ensures
        w * s * h * s * 3 == 0,
        h * s == 0 || w * s == 0,
{
    assert(w * s * h == 0) by (nonlinear_arith)
        requires
            w * s == 0 || h == 0,
    ;
    assert(w * s * h * s == 0) by (nonlinear_arith)
        requires
            w * s * h == 0,
    ;
    assert(h == 0 ==> h * s == 0) by (nonlinear_arith);
}

proof fn lemma_scaled_coordinate(k: int, n: int, s: int)
    requires
        0 <= k < n * s,
        0 < s,
    ensures
        0 <= k / s < n,
{
    vstd::arithmetic::mul::lemma_mul_is_commutative(s, n);
    vstd::arithmetic::div_mod::lemma_multiply_divide_lt(k, s, n);
    vstd::arithmetic::div_mod::lemma_div_pos_is_pos(k, s);
}

/// Whether `rgb` holds, texel by texel, what `planes` holds channel by channel.
pub open spec fn interleaves<T>(rgb: Seq<T>, planes: Seq<T>, texels: int) -> bool {
    &&& rgb.len() == texels * 3
    &&& planes.len() == texels * 3
    &&& forall|t: int, c: int|
        0 <= t < texels && 0 <= c < 3 ==> #[trigger] rgb[t * 3 + c] == planes[cell(texels, t, c)]
}

/// From texel after texel to channel after channel.
pub fn to_planes<T: Copy>(rgb: &[T], texels: usize) -> (result: Vec<T>)
    requires
        rgb.len() == texels * 3,
    ensures
        interleaves(rgb@, result@, texels as int),
{
    let mut out: Vec<T> = Vec::new();
    let ghost n = texels as int;
    let mut channel: usize = 0;
    while channel < 3
        invariant
            channel <= 3,
            n == texels,
            rgb.len() == texels * 3,
            out.len() == channel * n,
            forall|t: int, c: int|
                0 <= t < n && 0 <= c < channel ==> rgb[t * 3 + c] == #[trigger] out[cell(n, t, c)],
        decreases 3 - channel,
    {
        let mut texel: usize = 0;
        while texel < texels
            invariant
                texel <= texels,
                channel < 3,
                n == texels,
                rgb.len() == texels * 3,
                out.len() == channel * n + texel,
                forall|t: int, c: int|
                    0 <= t < n && 0 <= c < channel ==> rgb[t * 3 + c] == #[trigger] out[cell(
                        n,
                        t,
                        c,
                    )],
                forall|t: int|
                    0 <= t < texel ==> rgb[t * 3 + channel] == #[trigger] out[cell(
                        n,
                        t,
                        channel as int,
                    )],
            decreases texels - texel,
        {
            let ghost before = out@;
            out.push(rgb[texel * 3 + channel]);
            proof {
                assert forall|t: int, c: int| 0 <= t < n && 0 <= c < channel implies rgb[t * 3 + c]
                    == #[trigger] out[cell(n, t, c)] by {
                    cell_inside(n, channel as int, t, c);
                    assert(out[cell(n, t, c)] == before[cell(n, t, c)]);
                }
                assert forall|t: int| 0 <= t < texel + 1 implies rgb[t * 3 + channel]
                    == #[trigger] out[cell(n, t, channel as int)] by {
                    if t < texel {
                        assert(out[cell(n, t, channel as int)] == before[cell(
                            n,
                            t,
                            channel as int,
                        )]);
                    }
                }
            }
            texel = texel + 1;
        }
        assert(channel * n + n == (channel + 1) * n) by (nonlinear_arith);
        channel = channel + 1;
    }
    out
}

/// From channel after channel to texel after texel.
pub fn from_planes<T: Copy>(planes: &[T], texels: usize) -> (result: Vec<T>)
    requires
        planes.len() == texels * 3,
    ensures
        interleaves(result@, planes@, texels as int),
{
    let mut out: Vec<T> = Vec::new();
    let ghost n = texels as int;
    let mut k: usize = 0;
    while k < planes.len()
        invariant
            k <= planes.len(),
            n == texels,
            planes.len() == n * 3,
            out.len() == k,
            forall|j: int| 0 <= j < k ==> #[trigger] out[j] == planes[cell(n, j / 3, j % 3)],
        decreases planes.len() - k,
    {
        let c: usize = k % 3;
        let t: usize = k / 3;
        proof {
            cell_inside(n, 3, t as int, c as int);
            assert(0 <= c * texels <= 2 * texels) by (nonlinear_arith)
                requires
                    0 <= c <= 2,
            ;
        }
        out.push(planes[c * texels + t]);
        k = k + 1;
    }
    proof {
        assert forall|t: int, c: int| 0 <= t < n && 0 <= c < 3 implies #[trigger] out[t * 3 + c]
            == planes[cell(n, t, c)] by {
            assert((t * 3 + c) / 3 == t && (t * 3 + c) % 3 == c);
        }
    }
    out
}

/// Going to planes and back, or back and forth, changes nothing.
pub proof fn planes_round_trip<T>(a: Seq<T>, planes: Seq<T>, b: Seq<T>, texels: int)
    requires
        0 <= texels,
        interleaves(a, planes, texels),
        interleaves(b, planes, texels),
    ensures
        a == b,
{
    assert forall|k: int| 0 <= k < a.len() implies a[k] == b[k] by {
        let t = k / 3;
        let c = k % 3;
        assert(k == t * 3 + c);
        assert(a[t * 3 + c] == b[t * 3 + c]);
    }
    assert(a =~= b);
}

/// Two sets of planes that give the same interleaved image are the same.
pub proof fn planes_are_determined<T>(rgb: Seq<T>, a: Seq<T>, b: Seq<T>, texels: int)
    requires
        0 <= texels,
        interleaves(rgb, a, texels),
        interleaves(rgb, b, texels),
    ensures
        a == b,
{
    assert forall|k: int| 0 <= k < a.len() implies a[k] == b[k] by {
        coordinates_inside(texels, 3, k);
        let t = k % texels;
        let c = k / texels;
        assert(rgb[t * 3 + c] == a[cell(texels, t, c)]);
        assert(rgb[t * 3 + c] == b[cell(texels, t, c)]);
    }
    assert(a =~= b);
}

/// The three channels of `plane` in a record of planar channels, interleaved.
pub fn interleaved<T: Copy>(record: &[T], planes: &PlaneSet, plane: Plane, texels: usize) -> (result:
    Option<Vec<T>>)
    requires
        plane.width() == 3,
        record.len() == dataset::channels_below(planes@, dataset::PLANE_COUNT as int) * texels,
    ensures
        result is Some <==> planes@.contains(plane),
        result matches Some(rgb) ==> {
            let first = dataset::channels_below(planes@, plane.number()) * texels;
            &&& first + 3 * texels <= record.len()
            &&& interleaves(rgb@, record@.subrange(first, first + 3 * texels), texels as int)
        },
{
    match planes.channel_offset(plane) {
        None => None,
        Some(offset) => {
            let ghost n = texels as int;
            let ghost o = offset as int;
            let ghost all = dataset::channels_below(planes@, dataset::PLANE_COUNT as int) as int;
            proof {
                dataset::offset_leaves_room(planes@, plane);
                assert(o * n + 3 * n <= all * n && o * n >= 0) by (nonlinear_arith)
                    requires
                        0 <= o,
                        o + 3 <= all,
                        0 <= n,
                ;
            }
            let first: usize = offset * texels;
            let part = vstd::slice::slice_subrange(record, first, first + 3 * texels);
            Some(from_planes(part, texels))
        },
    }
}

/// Drops every fourth value: red, green and blue stay, and alpha goes.
pub fn drop_alpha<T: Copy>(rgba: &[T], texels: usize) -> (result: Vec<T>)
    requires
        rgba.len() == texels * 4,
    ensures
        result.len() == texels * 3,
        forall|t: int, c: int|
            0 <= t < texels && 0 <= c < 3 ==> #[trigger] result[t * 3 + c] == rgba[t * 4 + c],
{
    let mut out: Vec<T> = Vec::new();
    let mut texel: usize = 0;
    while texel < texels
        invariant
            texel <= texels,
            rgba.len() == texels * 4,
            out.len() == texel * 3,
            forall|t: int, c: int|
                0 <= t < texel && 0 <= c < 3 ==> #[trigger] out[t * 3 + c] == rgba[t * 4 + c],
        decreases texels - texel,
    {
        out.push(rgba[texel * 4]);
        out.push(rgba[texel * 4 + 1]);
        out.push(rgba[texel * 4 + 2]);
        texel = texel + 1;
    }
    out
}

/// Where a texel of an upsampled axis lies between two texels of the axis.
#[derive(Clone, Copy, Debug, PartialEq, Eq, Structural)]
pub struct Tap {
    /// The texel at or below, kept inside the axis.
    pub low: usize,
    /// The texel above, kept inside the axis.
    pub high: usize,
    /// How far towards the texel above, in units of half an output texel.
    pub weight: usize,
}

/// `i`, kept between zero and `n - 1`.
pub open spec fn clamped(i: int, n: int) -> int {
    if i < 0 {
        0
    } else if i > n - 1 {
        n - 1
    } else {
        i
    }
}

/// The position of output texel `o` on the input axis, in units of half an
/// output texel, with the centres of texels aligned.
pub open spec fn axis_position(o: int, scale: int) -> int {
    2 * o + 1 - scale
}

/// Finds the two texels that output texel `o` is interpolated between, on an
/// axis of `n` texels that is upsampled `scale` times.
pub fn bilinear_tap(o: usize, n: usize, scale: usize) -> (result: Tap)
    requires
        0 < n,
        0 < scale,
        2 * scale <= usize::MAX,
        2 * o + 1 <= usize::MAX,
    ensures
        result.low == clamped(axis_position(o as int, scale as int) / (2 * scale), n as int),
        result.high == clamped(axis_position(o as int, scale as int) / (2 * scale) + 1, n as int),
        result.weight == axis_position(o as int, scale as int) % (2 * scale),
        result.low < n,
        result.high < n,
{
    let double: usize = 2 * scale;
    let twice: usize = 2 * o + 1;
    if twice >= scale {
        let p: usize = twice - scale;
        let f: usize = p / double;
        let last: usize = n - 1;
        proof {
            vstd::arithmetic::div_mod::lemma_div_is_ordered_by_denominator(p as int, 1, double as int);
        }
        Tap {
            low: if f > last {
                last
            } else {
                f
            },
            high: if f >= last {
                last
            } else {
                f + 1
            },
            weight: p % double,
        }
    } else {
        proof {
            let p = axis_position(o as int, scale as int);
            let d = double as int;
            vstd::arithmetic::div_mod::lemma_fundamental_div_mod_converse(p, d, -1, p + d);
        }
        Tap { low: 0, high: 0, weight: double - (scale - twice) }
    }
}

/// Whether `(x, y)` lies in the square of side `tile` with its corner at
/// `(x0, y0)`.
pub open spec fn in_tile(x: int, y: int, x0: int, y0: int, tile: int) -> bool {
    x0 <= x < x0 + tile && y0 <= y < y0 + tile
}

/// Puts a square image into a larger one, at `(x0, y0)`.
pub fn paste_tile<T: Copy>(
    full: &mut Vec<T>,
    width: usize,
    height: usize,
    x0: usize,
    y0: usize,
    tile: usize,
    part: &[T],
)
    requires
        old(full).len() == width * height * 3,
        part.len() == tile * tile * 3,
        x0 + tile <= width,
        y0 + tile <= height,
    ensures
        final(full).len() == old(full).len(),
        forall|x: int, y: int, c: int|
            0 <= x < width && 0 <= y < height && 0 <= c < 3 ==> #[trigger] final(full)@[at(
                width as int,
                x,
                y,
                c,
            )] == if in_tile(x, y, x0 as int, y0 as int, tile as int) {
                part@[at(tile as int, x - x0, y - y0, c)]
            } else {
                old(full)@[at(width as int, x, y, c)]
            },
{
    let ghost w = width as int;
    let ghost h = height as int;
    let ghost t = tile as int;
    let ghost source = full@;
    let mut k: usize = 0;
    let n: usize = full.len();
    while k < n
        invariant
            w == width,
            h == height,
            t == tile,
            k <= n,
            n == w * h * 3,
            full.len() == n,
            source.len() == n,
            part.len() == t * t * 3,
            x0 + t <= w,
            y0 + t <= h,
            forall|j: int| k <= j < n ==> #[trigger] full@[j] == source[j],
            forall|j: int|
                0 <= j < k ==> #[trigger] full@[j] == {
                    let x = (j / 3) % w;
                    let y = (j / 3) / w;
                    if in_tile(x, y, x0 as int, y0 as int, t) {
                        part@[at(t, x - x0, y - y0, j % 3)]
                    } else {
                        source[j]
                    }
                },
        decreases n - k,
    {
        let texel: usize = k / 3;
        proof {
            assert(w > 0) by (nonlinear_arith)
                requires
                    0 <= k < w * h * 3,
                    0 <= w,
                    0 <= h,
            ;
            coordinates_inside(w, h, texel as int);
        }
        let x: usize = texel % width;
        let y: usize = texel / width;
        if x0 <= x && x < x0 + tile && y0 <= y && y < y0 + tile {
            proof {
                cell_inside(t, t, x - x0, y - y0);
                assert(0 <= (y - y0) * t) by (nonlinear_arith)
                    requires
                        y0 <= y,
                        0 <= t,
                ;
            }
            let value: T = part[((y - y0) * tile + (x - x0)) * 3 + k % 3];
            full.set(k, value);
        }
        k = k + 1;
    }
    proof {
        assert forall|x: int, y: int, c: int|
            0 <= x < w && 0 <= y < h && 0 <= c < 3 implies #[trigger] full@[at(w, x, y, c)]
            == if in_tile(x, y, x0 as int, y0 as int, t) {
            part@[at(t, x - x0, y - y0, c)]
        } else {
            source[at(w, x, y, c)]
        } by {
            value_coordinates(w, x, y, c);
            cell_inside(w, h, x, y);
        }
    }
}

/// Cuts a square out of a grid, at `(x0, y0)`.
pub fn crop_grid<T: Copy>(
    grid: &[T],
    width: usize,
    height: usize,
    x0: usize,
    y0: usize,
    tile: usize,
) -> (result: Vec<T>)
    requires
        grid.len() == width * height,
        x0 + tile <= width,
        y0 + tile <= height,
        tile * tile <= usize::MAX,
    ensures
        result.len() == tile * tile,
        forall|x: int, y: int|
            0 <= x < tile && 0 <= y < tile ==> #[trigger] result[cell(tile as int, x, y)]
                == grid[cell(width as int, x0 + x, y0 + y)],
{
    let ghost w = width as int;
    let ghost h = height as int;
    let ghost t = tile as int;
    let mut out: Vec<T> = Vec::new();
    let mut k: usize = 0;
    let n: usize = tile * tile;
    while k < n
        invariant
            w == width,
            h == height,
            t == tile,
            k <= n,
            n == t * t,
            out.len() == k,
            grid.len() == w * h,
            x0 + t <= w,
            y0 + t <= h,
            forall|j: int|
                0 <= j < k ==> #[trigger] out[j] == grid[cell(w, x0 + j % t, y0 + j / t)],
        decreases n - k,
    {
        proof {
            assert(t > 0) by (nonlinear_arith)
                requires
                    0 <= k < t * t,
                    0 <= t,
            ;
            coordinates_inside(t, t, k as int);
        }
        let x: usize = x0 + k % tile;
        let y: usize = y0 + k / tile;
        proof {
            cell_inside(w, h, x as int, y as int);
            assert(0 <= y * width) by (nonlinear_arith);
        }
        out.push(grid[y * width + x]);
        k = k + 1;
    }
    proof {
        assert forall|x: int, y: int| 0 <= x < t && 0 <= y < t implies #[trigger] out[cell(
            t,
            x,
            y,
        )] == grid[cell(w, x0 + x, y0 + y)] by {
            cell_coordinates(t, x, y);
            cell_inside(t, t, x, y);
        }
    }
    out
}

/// Two lists of values, taken in turns.
#[verifier::spinoff_prover]
pub fn zip_pairs<T: Copy>(a: &[T], b: &[T]) -> (result: Vec<T>)
    requires
        a.len() == b.len(),
        2 * a.len() <= usize::MAX,
    ensures
        result.len() == 2 * a.len(),
        forall|i: int|
            0 <= i < a.len() ==> result[2 * i] == #[trigger] a[i] && result[2 * i + 1] == b[i],
{
    let mut out: Vec<T> = Vec::new();
    let mut i: usize = 0;
    while i < a.len()
        invariant
            i <= a.len(),
            a.len() == b.len(),
            out.len() == 2 * i,
            forall|j: int|
                0 <= j < i ==> out[2 * j] == #[trigger] a[j] && out[2 * j + 1] == b[j],
        decreases a.len() - i,
    {
        let ghost before = out@;
        out.push(a[i]);
        out.push(b[i]);
        assert forall|j: int| 0 <= j < i + 1 implies out[2 * j] == #[trigger] a[j] && out[2 * j + 1]
            == b[j] by {
            if j < i {
                assert(before[2 * j] == a[j] && before[2 * j + 1] == b[j]);
                assert(out[2 * j] == before[2 * j]);
                assert(out[2 * j + 1] == before[2 * j + 1]);
            } else {
                assert(out[2 * j] == a[j] && out[2 * j + 1] == b[j]);
            }
        }
        i = i + 1;
    }
    out
}

/// The motion and the validity of the pixels of a crop: the evidence that a
/// comparison with the frame before rests on. `accepted` marks the pixels whose
/// history was taken.
pub fn temporal_evidence<T: Copy>(
    motion_x: &[T],
    motion_y: &[T],
    accepted: &[bool],
    width: usize,
    height: usize,
    x0: usize,
    y0: usize,
    tile: usize,
) -> (result: (Vec<T>, Vec<bool>))
    requires
        motion_x.len() == width * height,
        motion_y.len() == width * height,
        accepted.len() == width * height,
        x0 + tile <= width,
        y0 + tile <= height,
        2 * (tile * tile) <= usize::MAX,
    ensures
        result.0.len() == 2 * (tile * tile),
        result.1.len() == tile * tile,
        forall|x: int, y: int|
            0 <= x < tile && 0 <= y < tile ==> {
                let i = cell(tile as int, x, y);
                let j = cell(width as int, x0 + x, y0 + y);
                &&& #[trigger] result.1[cell(tile as int, x, y)] == accepted[j]
                &&& result.0[2 * i] == motion_x[j]
                &&& result.0[2 * i + 1] == motion_y[j]
            },
{
    let mx = crop_grid(motion_x, width, height, x0, y0, tile);
    let my = crop_grid(motion_y, width, height, x0, y0, tile);
    let valid = crop_grid(accepted, width, height, x0, y0, tile);
    let xs = mx.as_slice();
    let ys = my.as_slice();
    let motion = zip_pairs(xs, ys);
    proof {
        let t = tile as int;
        assert forall|x: int, y: int| 0 <= x < tile && 0 <= y < tile implies {
            let i = cell(t, x, y);
            let j = cell(width as int, x0 + x, y0 + y);
            &&& #[trigger] valid[cell(t, x, y)] == accepted[j]
            &&& motion[2 * i] == motion_x[j]
            &&& motion[2 * i + 1] == motion_y[j]
        } by {
            let i = cell(t, x, y);
            cell_inside(t, t, x, y);
            assert(mx[i] == motion_x[cell(width as int, x0 + x, y0 + y)]);
            assert(my[i] == motion_y[cell(width as int, x0 + x, y0 + y)]);
            assert(motion[2 * i] == xs[i] && motion[2 * i + 1] == ys[i]);
        }
    }
    (motion, valid)
}

/// Enlarging repeats each texel over a square: every texel of the large picture is
/// the texel of the small one that covers it.
pub proof fn enlarged_texels_fill_squares<T: Copy>(
    low: &[T],
    width: usize,
    height: usize,
    scale: usize,
    result: Vec<T>,
    x: int,
    y: int,
    dx: int,
    dy: int,
    c: int,
)
    requires
        low@.len() == width * height * 3,
        width * scale * height * scale * 3 <= usize::MAX,
        width * scale <= usize::MAX,
        call_ensures(nearest::<T>, (low, width, height, scale), result),
        0 <= x < width,
        0 <= y < height,
        0 <= dx < scale,
        0 <= dy < scale,
        0 <= c < 3,
    ensures
        result@.len() == 3 * ((width * scale) * (height * scale)),
        result@[3 * ((y * scale + dy) * (width * scale) + (x * scale + dx)) + c] == low@[3 * (y
            * width + x) + c],
{
    let (w, h, s) = (width as int, height as int, scale as int);
    let (p, q) = (x * s + dx, y * s + dy);
    assert(w * s * h * s * 3 == 3 * ((w * s) * (h * s))) by (nonlinear_arith);
    assert(0 <= p < w * s && 0 <= q < h * s) by (nonlinear_arith)
        requires
            0 <= x < w,
            0 <= y < h,
            0 <= dx < s,
            0 <= dy < s,
            p == x * s + dx,
            q == y * s + dy,
    ;
    vstd::arithmetic::div_mod::lemma_fundamental_div_mod_converse(p, s, x, dx);
    vstd::arithmetic::div_mod::lemma_fundamental_div_mod_converse(q, s, y, dy);
    assert(result@[at(w * s, p, q, c)] == low@[at(w, p / s, q / s, c)]);
    assert(at(w * s, p, q, c) == 3 * (q * (w * s) + p) + c);
}

/// Channels and texels change places: channel `c` of texel `t` is the third of
/// its list that far on, and back again it is where it was.
pub proof fn planes_hold_the_channels<T: Copy>(
    rgb: &[T],
    texels: usize,
    planes: Vec<T>,
    view: &[T],
    back: Vec<T>,
    t: int,
    c: int,
)
    requires
        rgb@.len() == texels * 3,
        call_ensures(to_planes::<T>, (rgb, texels), planes),
        view@ == planes@,
        call_ensures(from_planes::<T>, (view, texels), back),
        0 <= t < texels,
        0 <= c < 3,
    ensures
        planes@.len() == 3 * texels,
        planes@[c * texels + t] == rgb@[3 * t + c],
        back@ == rgb@,
{
    assert(rgb@[t * 3 + c] == planes@[cell(texels as int, t, c)]);
    planes_round_trip(rgb@, planes@, back@, texels as int);
}

/// A plane of three channels is read out of a record behind the channels of the
/// planes before it.
pub proof fn planes_are_read_from_their_place<T: Copy>(
    record: &[T],
    planes: PlaneSet,
    plane: Plane,
    texels: usize,
    offset: Option<usize>,
    result: Option<Vec<T>>,
    t: int,
    c: int,
)
    requires
        plane.width() == 3,
        record@.len() == dataset::channels_below(planes@, dataset::PLANE_COUNT as int) * texels,
        call_ensures(PlaneSet::channel_offset, (&planes, plane), offset),
        call_ensures(interleaved::<T>, (record, &planes, plane, texels), result),
        0 <= t < texels,
        0 <= c < 3,
    ensures
        result is Some <==> offset is Some,
        result matches Some(rgb) ==> rgb@.len() == 3 * texels && rgb@[3 * t + c] == record@[(
        offset->0 + c) * texels + t],
{
    if result is Some {
        let rgb = result->0@;
        let n = texels as int;
        let o = offset->0 as int;
        let first = o * n;
        let part = record@.subrange(first, first + 3 * n);
        assert(rgb[t * 3 + c] == part[cell(n, t, c)]);
        assert(0 <= c * n + t < 3 * n) by (nonlinear_arith)
            requires
                0 <= c <= 2,
                0 <= t < n,
        ;
        assert((o + c) * n + t == first + (c * n + t)) by (nonlinear_arith)
            requires
                first == o * n,
        ;
    }
}

/// What is cut out of a grid is its square at that corner, row by row.
pub proof fn crops_keep_their_places<T: Copy>(
    grid: &[T],
    width: usize,
    height: usize,
    x0: usize,
    y0: usize,
    tile: usize,
    result: Vec<T>,
    x: int,
    y: int,
)
    requires
        grid@.len() == width * height,
        x0 + tile <= width,
        y0 + tile <= height,
        tile * tile <= usize::MAX,
        call_ensures(crop_grid::<T>, (grid, width, height, x0, y0, tile), result),
        0 <= x < tile,
        0 <= y < tile,
    ensures
        result@.len() == tile * tile,
        result@[y * tile + x] == grid@[(y0 + y) * width + (x0 + x)],
{
    assert(result@[cell(tile as int, x, y)] == grid@[cell(width as int, x0 + x, y0 + y)]);
}

/// An output texel lies between the two input texels whose centres are around its
/// own, as far from the lower one as its centre is; at the borders both are the
/// last texel that there is.
pub proof fn taps_are_around_their_texel(o: usize, n: usize, scale: usize, tap: Tap)
    requires
        0 < n,
        0 < scale,
        2 * scale <= usize::MAX,
        2 * o + 1 <= usize::MAX,
        o < n * scale,
        call_ensures(bilinear_tap, (o, n, scale), tap),
    ensures
        tap.low <= tap.high <= tap.low + 1,
        tap.high < n,
        tap.weight < 2 * scale,
        2 * o + 1 >= scale && tap.high == tap.low + 1 ==> (2 * tap.low + 1) * scale + tap.weight == 2
            * o + 1,
        2 * o + 1 < scale ==> tap.low == 0 && tap.high == 0,
        tap.low == tap.high ==> tap.low == 0 || tap.low == n - 1,
        (2 * tap.low + 1) * scale <= 2 * o + 1 < (2 * tap.low + 3) * scale || tap.low == tap.high,
{
    let p = axis_position(o as int, scale as int);
    let d = 2 * scale as int;
    vstd::arithmetic::div_mod::lemma_fundamental_div_mod(p, d);
    vstd::arithmetic::div_mod::lemma_mod_bound(p, d);
    let f = p / d;
    assert(d * f == 2 * (f * scale)) by (nonlinear_arith)
        requires
            d == 2 * scale,
    ;
    assert(f < n) by {
        assert(p < d * n) by (nonlinear_arith)
            requires
                p == 2 * o + 1 - scale,
                o < n * scale,
                d == 2 * scale,
                0 < scale,
        ;
        vstd::arithmetic::mul::lemma_mul_is_commutative(d, n as int);
        if p >= 0 {
            vstd::arithmetic::div_mod::lemma_multiply_divide_lt(p, d, n as int);
        } else {
            assert(f < 0) by (nonlinear_arith)
                requires
                    p == d * f + p % d,
                    0 <= p % d,
                    p < 0,
                    d > 0,
            ;
        }
    }
    assert(f >= -1) by (nonlinear_arith)
        requires
            p == d * f + p % d,
            p % d < d,
            p >= 1 - scale,
            d == 2 * scale,
            scale > 0,
    ;
    assert((2 * f + 1) * scale == 2 * (f * scale) + scale && (2 * f + 3) * scale == 2 * (f * scale)
        + 3 * scale) by (nonlinear_arith);
    if p >= 0 {
        assert(f >= 0) by {
            vstd::arithmetic::div_mod::lemma_div_pos_is_pos(p, d);
        }
    } else {
        assert(f < 0) by (nonlinear_arith)
            requires
                p == d * f + p % d,
                0 <= p % d,
                p < 0,
                d > 0,
        ;
    }
}

} // verus!
