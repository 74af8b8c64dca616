//! Accumulating frames along their motion: the command line, which datasets will
//! do, and where texels are read and written.
use vstd::prelude::*;

use crate::bits;
use crate::bits::is_at_most32;
use crate::dataset;
use crate::dataset::{Layout, Plane, PlaneSet};
use crate::options;
use crate::options::Word;
use crate::pixels;
use crate::pixels::to_planes;
use crate::text;
use crate::text::{parse_unsigned, IntFault};

verus! {

/// How the tool is called.
pub const USAGE: &'static str =
    "usage: temporal-oracle DATASET.omd [DEPTH_DELTA NORMAL_COSINE ALBEDO_DELTA2 [HISTORY_FRAMES]]";

/// The bits of the `f32` numbers that reject history where nothing else is asked.
pub const DEPTH_DELTA: u32 = 0x3c23_d70a;

pub const NORMAL_COSINE: u32 = 0x3f66_6666;

pub const ALBEDO_DELTA2: u32 = 0x3d23_d70a;

/// When history is rejected: each limit as the bits of an `f32`.
#[derive(Clone, Copy, Debug, PartialEq, Eq, Structural)]
pub struct RejectConfig {
    pub depth_delta: u32,
    pub normal_cosine: u32,
    pub albedo_delta2: u32,
}

/// What the tool was asked to do.
#[derive(Debug)]
pub struct Args {
    pub path: String,
    pub rejection: RejectConfig,
    /// How many frames a history may have, as it was written.
    pub history: Option<String>,
}

/// What keeps a command line from being followed.
#[derive(Clone, Copy, Debug, PartialEq, Eq, Structural)]
pub enum ArgsError {
    Usage,
    DepthDelta,
    NormalCosine,
    AlbedoDelta2,
}

impl ArgsError {
    /// What is said of it.
    pub open spec fn said(self) -> Seq<char> {
        match self {
            ArgsError::Usage => USAGE@,
            ArgsError::DepthDelta => "invalid depth delta"@,
            ArgsError::NormalCosine => "invalid normal cosine"@,
            ArgsError::AlbedoDelta2 => "invalid albedo delta²"@,
        }
    }

    /// Says why in words.
    pub fn words(self) -> (result: &'static str)
        ensures
            result@ == self.said(),
    {
        match self {
            ArgsError::Usage => USAGE,
            ArgsError::DepthDelta => "invalid depth delta",
            ArgsError::NormalCosine => "invalid normal cosine",
            ArgsError::AlbedoDelta2 => "invalid albedo delta²",
        }
    }
}

/// The limit that word `i` gives: the default where there is no such word, and
/// nothing where it is no number.
pub open spec fn limit_at(words: Seq<Word>, i: int, default: u32) -> Option<u32> {
    if i >= words.len() {
        Some(default)
    } else {
        match words[i].real {
            Ok(bits) => Some(bits),
            Err(_) => None,
        }
    }
}

/// Reads the limit that a word gives.
fn read_limit(words: &Vec<Word>, i: usize, default: u32) -> (result: Option<u32>)
    ensures
        result == limit_at(words@, i as int, default),
{
    if i >= words.len() {
        return Some(default);
    }
    match words[i].real {
        Ok(bits) => Some(bits),
        Err(_) => None,
    }
}

/// Reads the command line.
pub fn read_args(words: &Vec<Word>) -> (result: Result<Args, ArgsError>)
    ensures
        ({
            let depth = limit_at(words@, 1, DEPTH_DELTA);
            let normal = limit_at(words@, 2, NORMAL_COSINE);
            let albedo = limit_at(words@, 3, ALBEDO_DELTA2);
            if words.len() == 0 {
                result == Err::<Args, ArgsError>(ArgsError::Usage)
            } else if depth is None {
                result == Err::<Args, ArgsError>(ArgsError::DepthDelta)
            } else if normal is None {
                result == Err::<Args, ArgsError>(ArgsError::NormalCosine)
            } else if albedo is None {
                result == Err::<Args, ArgsError>(ArgsError::AlbedoDelta2)
            } else {
                result matches Ok(args) && args.path@ == words@[0].text@ && args.rejection == (
                RejectConfig {
                    depth_delta: depth->0,
                    normal_cosine: normal->0,
                    albedo_delta2: albedo->0,
                }) && options::text_option(args.history) == if words.len() > 4 {
                    Some(words@[4].text@)
                } else {
                    None
                }
            }
        }),
{
    if words.len() == 0 {
        return Err(ArgsError::Usage);
    }
    let depth_delta: u32 = match read_limit(words, 1, DEPTH_DELTA) {
        Some(bits) => bits,
        None => {
            return Err(ArgsError::DepthDelta);
        },
    };
    let normal_cosine: u32 = match read_limit(words, 2, NORMAL_COSINE) {
        Some(bits) => bits,
        None => {
            return Err(ArgsError::NormalCosine);
        },
    };
    let albedo_delta2: u32 = match read_limit(words, 3, ALBEDO_DELTA2) {
        Some(bits) => bits,
        None => {
            return Err(ArgsError::AlbedoDelta2);
        },
    };
    let history: Option<String> = if words.len() > 4 {
        Some(words[4].text.as_str().to_owned())
    } else {
        None
    };
    Ok(
        Args {
            path: words[0].text.as_str().to_owned(),
            rejection: RejectConfig { depth_delta, normal_cosine, albedo_delta2 },
            history,
        },
    )
}

/// How many frames a history may have: as many as a sequence where nothing was
/// asked, and nothing where what was asked is not from two up to that.
pub open spec fn history_of(asked: Option<Seq<char>>, length: int) -> Option<int> {
    match asked {
        None => Some(length),
        Some(s) => match text::read_unsigned(s, usize::MAX as int) {
            Ok(n) if 2 <= n && n <= length => Some(n),
            _ => None,
        },
    }
}

/// Finds how many frames a history may have.
pub fn history_frames(asked: &Option<String>, length: usize) -> (result: Option<usize>)
    ensures
        match history_of(options::text_option(*asked), length as int) {
            Some(n) => result matches Some(m) && m == n,
            None => result is None,
        },
{
    match asked {
        None => Some(length),
        Some(s) => match parse_unsigned(s.as_str(), usize::MAX as u64) {
            Ok(n) => if 2 <= n && n <= length as u64 {
                Some(n as usize)
            } else {
                None
            },
            Err(_) => None,
        },
    }
}

/// Why a dataset will not do.
#[derive(Clone, Copy, Debug, PartialEq, Eq, Structural)]
pub enum DatasetError {
    /// It does not hold sequences.
    Sequences,
    /// Its frames are not square.
    Square,
    /// It lacks this plane at low resolution.
    Low(Plane),
    /// It lacks this plane at high resolution.
    High(Plane),
}

/// The planes needed: at low resolution all of these, at high resolution all but
/// the last.
pub open spec fn needed() -> Seq<Plane> {
    seq![Plane::Color, Plane::Depth, Plane::Normal, Plane::DiffuseAlbedo, Plane::Motion]
}

/// The first of the first `k` planes needed that is missing.
pub open spec fn lacks(planes: Set<Plane>, k: int) -> Option<Plane>
    decreases k,
{
    if k <= 0 {
        None
    } else {
        match lacks(planes, k - 1) {
            Some(plane) => Some(plane),
            None => if planes.contains(needed()[k - 1]) {
                None
            } else {
                Some(needed()[k - 1])
            },
        }
    }
}

/// Finds the first of the first `k` planes needed that is missing.
fn find_lack(planes: &PlaneSet, k: usize) -> (result: Option<Plane>)
    requires
        k <= 5,
    ensures
        result == lacks(planes@, k as int),
{
    let all: Vec<Plane> = vec![
        Plane::Color,
        Plane::Depth,
        Plane::Normal,
        Plane::DiffuseAlbedo,
        Plane::Motion,
    ];
    assert(all@ =~= needed());
    let mut found: Option<Plane> = None;
    let mut i: usize = 0;
    while i < k
        invariant
            i <= k <= 5,
            all@ == needed(),
            all.len() == 5,
            found == lacks(planes@, i as int),
        decreases k - i,
    {
        if found.is_none() && !planes.contains(all[i]) {
            found = Some(all[i]);
        }
        i = i + 1;
    }
    found
}

/// What is wrong with a dataset: the first of these that holds.
pub open spec fn dataset_fault(layout: Layout) -> Option<DatasetError> {
    if layout.lr_width != layout.lr_height {
        Some(DatasetError::Square)
    } else {
        match lacks(layout.lr_planes@, 5) {
            Some(plane) => Some(DatasetError::Low(plane)),
            None => match lacks(layout.hr_planes@, 4) {
                Some(plane) => Some(DatasetError::High(plane)),
                None => None,
            },
        }
    }
}

/// Checks that a dataset holds sequences.
pub fn check_length(length: usize) -> (result: Result<(), DatasetError>)
    ensures
        if length > 1 {
            result is Ok
        } else {
            result == Err::<(), DatasetError>(DatasetError::Sequences)
        },
{
    if length > 1 {
        Ok(())
    } else {
        Err(DatasetError::Sequences)
    }
}

/// Checks the layout of a dataset.
pub fn check_layout(layout: &Layout) -> (result: Result<(), DatasetError>)
    ensures
        match dataset_fault(*layout) {
            Some(error) => result == Err::<(), DatasetError>(error),
            None => result is Ok,
        },
{
    if layout.lr_width != layout.lr_height {
        return Err(DatasetError::Square);
    }
    if let Some(plane) = find_lack(&layout.lr_planes, 5) {
        return Err(DatasetError::Low(plane));
    }
    if let Some(plane) = find_lack(&layout.hr_planes, 4) {
        return Err(DatasetError::High(plane));
    }
    Ok(())
}

/// Whether a place lies inside a picture: each coordinate, and the last one of
/// each axis, as the bits of an `f32`.
pub open spec fn inside(place: (u32, u32), last: (u32, u32)) -> bool {
    &&& bits::at_most32(0, place.0)
    &&& bits::at_most32(0, place.1)
    &&& bits::at_most32(place.0, last.0)
    &&& bits::at_most32(place.1, last.1)
}

/// Finds whether a place lies inside a picture.
pub fn is_inside(place: (u32, u32), last: (u32, u32)) -> (result: bool)
    ensures
        result == inside(place, last),
{
    is_at_most32(0, place.0) && is_at_most32(0, place.1) && is_at_most32(place.0, last.0)
        && is_at_most32(place.1, last.1)
}

/// Where a channel of a texel's colour stands in a record.
pub open spec fn color_place(planes: Set<Plane>, texels: int, channel: int, index: int) -> int {
    (dataset::channels_below(planes, Plane::Color.number()) + channel) * texels + index
}

/// Whether a record starts with the channels of a color, texel by texel.
pub open spec fn starts_with_color<T>(record: Seq<T>, color: Seq<T>, texels: int) -> bool {
    forall|channel: int, index: int|
        0 <= channel < 3 && 0 <= index < texels ==> color[#[trigger] pixels::cell(
            3,
            channel,
            index,
        )] == record[pixels::cell(texels, index, channel)]
}

/// Replaces the colour of a record. Nothing else of it changes.
pub fn with_color<T: Copy>(record: &Vec<T>, planes: &PlaneSet, texels: usize, color: &[T]) -> (result: Vec<
    T,
>)
    requires
        planes@.contains(Plane::Color),
        record.len() == dataset::channels_below(planes@, dataset::PLANE_COUNT as int) * texels,
        color@.len() == texels * 3,
    ensures
        result.len() == record.len(),
        forall|channel: int, index: int|
            0 <= channel < 3 && 0 <= index < texels ==> result@[#[trigger] color_place(
                planes@,
                texels as int,
                channel,
                index,
            )] == color@[index * 3 + channel],
        forall|k: int|
            3 * texels <= k < record.len() ==> #[trigger] result@[k] == record@[k],
        starts_with_color(result@, color@, texels as int),
{
    let planar = to_planes(color, texels);
    let ghost all = dataset::channels_below(planes@, dataset::PLANE_COUNT as int) as int;
    let ghost n = texels as int;
    proof {
        dataset::offset_leaves_room(planes@, Plane::Color);
        assert(dataset::channels_below(planes@, 0) == 0);
        assert(3 * n <= all * n) by (nonlinear_arith)
            requires
                3 <= all,
                0 <= n,
        ;
    }
    let mut out: Vec<T> = Vec::new();
    let mut k: usize = 0;
    while k < record.len()
        invariant
            k <= record.len(),
            n == texels,
            planar.len() == 3 * n,
            out.len() == k,
            forall|j: int| 0 <= j < k && j < 3 * n ==> #[trigger] out@[j] == planar@[j],
            forall|j: int| 3 * n <= j < k ==> #[trigger] out@[j] == record@[j],
        decreases record.len() - k,
    {
        if k < planar.len() {
            out.push(planar[k]);
        } else {
            out.push(record[k]);
        }
        k = k + 1;
    }
    assert forall|channel: int, index: int|
        0 <= channel < 3 && 0 <= index < texels implies out@[#[trigger] color_place(
        planes@,
        n,
        channel,
        index,
    )] == color@[index * 3 + channel] by {
        let at = color_place(planes@, n, channel, index);
        assert(at == channel * n + index) by {
            assert(dataset::channels_below(planes@, 0) == 0);
        }
        pixels::cell_inside(n, 3, index, channel);
        assert(pixels::cell(n, index, channel) == at);
        assert(color@[index * 3 + channel] == planar@[pixels::cell(n, index, channel)]);
    }
    assert forall|channel: int, index: int| 0 <= channel < 3 && 0 <= index
        < texels implies color@[#[trigger] pixels::cell(3, channel, index)]
        == out@[pixels::cell(n, index, channel)] by {
        let at = color_place(planes@, n, channel, index);
        assert(at == pixels::cell(n, index, channel)) by {
            assert(dataset::channels_below(planes@, 0) == 0);
        }
        assert(out@[at] == color@[index * 3 + channel]);
    }
    out
}

/// Where texel (`dx`, `dy`) of the square under texel (`x`, `y`) stands in a
/// picture that is `scale` times as wide and as high.
pub open spec fn fine_cell(x: int, y: int, dx: int, dy: int, scale: int, width: int) -> int {
    (y * scale + dy) * (width * scale) + (x * scale + dx)
}

/// Lists the texels of the square under a texel, row by row.
pub fn fine_cells(x: usize, y: usize, scale: usize, width: usize, height: usize) -> (result: Vec<usize>)
    requires
        x < width,
        y < height,
        scale > 0,
        (width * scale) * (height * scale) <= usize::MAX,
    ensures
        result.len() == scale * scale,
        forall|dy: int, dx: int|
            0 <= dy < scale && 0 <= dx < scale ==> #[trigger] result@[dy * scale + dx] == fine_cell(
                x as int,
                y as int,
                dx,
                dy,
                scale as int,
                width as int,
            ) && result@[dy * scale + dx] < (width * scale) * (height * scale),
{
    let ghost (w, h, s) = (width as int, height as int, scale as int);
    proof {
        assert(0 < w * s && 0 < h * s && w * s <= (w * s) * (h * s)) by (nonlinear_arith)
            requires
                0 < w,
                0 < h,
                0 < s,
        ;
        assert(h * s <= (w * s) * (h * s)) by (nonlinear_arith)
            requires
                0 < w * s,
                0 < h * s,
        ;
    }
    let row: usize = width * scale;
    let mut cells: Vec<usize> = Vec::new();
    let mut dy: usize = 0;
    while dy < scale
        invariant
            dy <= scale,
            scale > 0,
            x < width,
            y < height,
            w == width,
            h == height,
            s == scale,
            row == w * s,
            w * s <= (w * s) * (h * s),
            h * s <= (w * s) * (h * s),
            (w * s) * (h * s) <= usize::MAX,
            cells.len() == dy * s,
            forall|a: int, b: int|
                0 <= a < dy && 0 <= b < s ==> #[trigger] cells@[a * s + b] == fine_cell(
                    x as int,
                    y as int,
                    b,
                    a,
                    s,
                    w,
                ) && cells@[a * s + b] < (w * s) * (h * s),
        decreases scale - dy,
    {
        let mut dx: usize = 0;
        while dx < scale
            invariant
                dx <= scale,
                dy < scale,
                x < width,
                y < height,
                w == width,
                h == height,
                s == scale,
                row == w * s,
                w * s <= (w * s) * (h * s),
                h * s <= (w * s) * (h * s),
                (w * s) * (h * s) <= usize::MAX,
                cells.len() == dy * s + dx,
                forall|a: int, b: int|
                    0 <= a < dy && 0 <= b < s ==> #[trigger] cells@[a * s + b] == fine_cell(
                        x as int,
                        y as int,
                        b,
                        a,
                        s,
                        w,
                    ) && cells@[a * s + b] < (w * s) * (h * s),
                forall|b: int|
                    0 <= b < dx ==> #[trigger] cells@[dy * s + b] == fine_cell(
                        x as int,
                        y as int,
                        b,
                        dy as int,
                        s,
                        w,
                    ) && cells@[dy * s + b] < (w * s) * (h * s),
            decreases scale - dx,
        {
            let ghost before = cells@;
            proof {
                lemma_fine_inside(x as int, y as int, dx as int, dy as int, s, w, h);
            }
            let cell: usize = (y * scale + dy) * row + (x * scale + dx);
            cells.push(cell);
            proof {
                assert forall|a: int, b: int| 0 <= a < dy && 0 <= b < s implies #[trigger] cells@[a
                    * s + b] == fine_cell(x as int, y as int, b, a, s, w) && cells@[a * s + b] < (w
                    * s) * (h * s) by {
                    assert(0 <= a * s + b < dy * s) by (nonlinear_arith)
                        requires
                            0 <= a,
                            a + 1 <= dy,
                            0 <= b < s,
                    ;
                    assert(cells@[a * s + b] == before[a * s + b]);
                }
                assert forall|b: int| 0 <= b < dx + 1 implies #[trigger] cells@[dy * s + b]
                    == fine_cell(x as int, y as int, b, dy as int, s, w) && cells@[dy * s + b] < (w
                    * s) * (h * s) by {
                    if b < dx {
                        assert(cells@[dy * s + b] == before[dy * s + b]);
                    }
                }
            }
            dx = dx + 1;
        }
        proof {
            assert((dy + 1) * s == dy * s + s) by (nonlinear_arith);
            assert forall|a: int, b: int| 0 <= a < dy + 1 && 0 <= b < s implies #[trigger] cells@[a
                * s + b] == fine_cell(x as int, y as int, b, a, s, w) && cells@[a * s + b] < (w * s)
                * (h * s) by {
                if a == dy {
                    assert(cells@[dy * s + b] == fine_cell(x as int, y as int, b, dy as int, s, w));
                }
            }
        }
        dy = dy + 1;
    }
    cells
}

proof fn lemma_fine_inside(x: int, y: int, dx: int, dy: int, s: int, w: int, h: int)
    requires
        0 <= x < w,
        0 <= y < h,
        0 <= dx < s,
        0 <= dy < s,
    ensures
        0 <= x * s,
        0 <= y * s,
        x * s + dx < w * s,
        y * s + dy < h * s,
        0 <= (y * s + dy) * (w * s),
        fine_cell(x, y, dx, dy, s, w) < (w * s) * (h * s),
{
    assert(0 <= x * s && x * s + dx < w * s) by (nonlinear_arith)
        requires
            0 <= x,
            x + 1 <= w,
            0 <= dx < s,
    ;
    assert(0 <= y * s && y * s + dy < h * s) by (nonlinear_arith)
        requires
            0 <= y,
            y + 1 <= h,
            0 <= dy < s,
    ;
    let (a, b, c, d) = (y * s + dy, w * s, h * s, x * s + dx);
    assert(0 <= a * b && a * b + d < b * c) by (nonlinear_arith)
        requires
            0 <= a,
            a + 1 <= c,
            0 <= d < b,
    ;
}

/// No texel of the finer picture lies under two texels.
pub proof fn squares_are_apart(
    a: (int, int),
    b: (int, int),
    c: (int, int),
    d: (int, int),
    scale: int,
    width: int,
)
    requires
        0 <= a.0 < width,
        0 <= b.0 < width,
        0 <= a.1,
        0 <= b.1,
        0 <= c.0 < scale,
        0 <= c.1 < scale,
        0 <= d.0 < scale,
        0 <= d.1 < scale,
        fine_cell(a.0, a.1, c.0, c.1, scale, width) == fine_cell(
            b.0,
            b.1,
            d.0,
            d.1,
            scale,
            width,
        ),
    ensures
        a == b && c == d,
{
    let row = width * scale;
    let (ax, ay) = (a.0 * scale + c.0, a.1 * scale + c.1);
    let (bx, by) = (b.0 * scale + d.0, b.1 * scale + d.1);
    assert(0 <= ax && ax < row) by (nonlinear_arith)
        requires
            row == width * scale,
            ax == a.0 * scale + c.0,
            0 <= a.0,
            a.0 + 1 <= width,
            0 <= c.0 < scale,
    ;
    assert(0 <= bx && bx < row) by (nonlinear_arith)
        requires
            row == width * scale,
            bx == b.0 * scale + d.0,
            0 <= b.0,
            b.0 + 1 <= width,
            0 <= d.0 < scale,
    ;
    vstd::arithmetic::div_mod::lemma_fundamental_div_mod_converse(ay * row + ax, row, ay, ax);
    vstd::arithmetic::div_mod::lemma_fundamental_div_mod_converse(by * row + bx, row, by, bx);
    vstd::arithmetic::div_mod::lemma_fundamental_div_mod_converse(ax, scale, a.0, c.0);
    vstd::arithmetic::div_mod::lemma_fundamental_div_mod_converse(bx, scale, b.0, d.0);
    vstd::arithmetic::div_mod::lemma_fundamental_div_mod_converse(ay, scale, a.1, c.1);
    vstd::arithmetic::div_mod::lemma_fundamental_div_mod_converse(by, scale, b.1, d.1);
}

/// A word after the path is a limit, in the order depth, normal, albedo. Without it
/// the limit is the usual one, and where it is no number nothing else is read.
pub proof fn limits_are_read_in_order(words: Vec<Word>, result: Result<Args, ArgsError>)
    requires
        call_ensures(read_args, (&words,), result),
    ensures
        result is Ok <==> {
            &&& words@.len() > 0
            &&& words@.len() > 1 ==> words@[1].real is Ok
            &&& words@.len() > 2 ==> words@[2].real is Ok
            &&& words@.len() > 3 ==> words@[3].real is Ok
        },
        result matches Ok(args) ==> {
            &&& args.path@ == words@[0].text@
            &&& words@.len() > 1 ==> words@[1].real->Ok_0 == args.rejection.depth_delta
            &&& words@.len() > 2 ==> words@[2].real->Ok_0 == args.rejection.normal_cosine
            &&& words@.len() > 3 ==> words@[3].real->Ok_0 == args.rejection.albedo_delta2
            &&& words@.len() <= 1 ==> args.rejection.depth_delta == 0x3c23_d70a
            &&& words@.len() <= 2 ==> args.rejection.normal_cosine == 0x3f66_6666
            &&& words@.len() <= 3 ==> args.rejection.albedo_delta2 == 0x3d23_d70a
            &&& args.history is Some <==> words@.len() > 4
            &&& words@.len() > 4 ==> args.history->0@ == words@[4].text@
        },
{
}

/// A history has the frames that are asked for, two or more and no more than there
/// are. Where none are asked for it has all.
pub proof fn histories_stay_in_their_sequence(
    asked: Option<String>,
    length: usize,
    result: Option<usize>,
)
    requires
        call_ensures(history_frames, (&asked, length), result),
    ensures
        asked is None ==> result == Some(length),
        asked matches Some(s) ==> (result matches Some(n) ==> {
            &&& 2 <= n <= length
            &&& text::read_unsigned(s@, usize::MAX as int) == Ok::<int, IntFault>(n as int)
        }),
        asked matches Some(s) ==> (result is None ==> (text::read_unsigned(
            s@,
            usize::MAX as int,
        ) matches Ok(n) ==> n < 2 || n > length)),
{
}

/// A dataset is accepted exactly if its frames are square and every plane that is
/// followed is there, motion at low resolution only.
pub proof fn followed_planes_are_there(layout: Layout, result: Result<(), DatasetError>)
    requires
        call_ensures(check_layout, (&layout,), result),
    ensures
        result is Ok <==> {
            let (low, high) = (layout.lr_planes@, layout.hr_planes@);
            &&& layout.lr_width == layout.lr_height
            &&& low.contains(Plane::Color) && high.contains(Plane::Color)
            &&& low.contains(Plane::Depth) && high.contains(Plane::Depth)
            &&& low.contains(Plane::Normal) && high.contains(Plane::Normal)
            &&& low.contains(Plane::DiffuseAlbedo) && high.contains(Plane::DiffuseAlbedo)
            &&& low.contains(Plane::Motion)
        },
        result == Err::<(), DatasetError>(DatasetError::Square) <==> layout.lr_width
            != layout.lr_height,
        result matches Err(DatasetError::Low(plane)) ==> !layout.lr_planes@.contains(plane),
        result matches Err(DatasetError::High(plane)) ==> !layout.hr_planes@.contains(plane),
{
    reveal_with_fuel(lacks, 6);
}

/// A color takes the place of the first three channels, texel for texel, and
/// everything else stays.
pub proof fn colors_take_the_first_channels<T: Copy>(
    record: Vec<T>,
    planes: PlaneSet,
    texels: usize,
    color: &[T],
    result: Vec<T>,
    channel: int,
    index: int,
    k: int,
)
    requires
        planes@.contains(Plane::Color),
        record@.len() == dataset::channels_below(planes@, dataset::PLANE_COUNT as int) * texels,
        color@.len() == texels * 3,
        call_ensures(with_color::<T>, (&record, &planes, texels, color), result),
        0 <= channel < 3,
        0 <= index < texels,
        3 * texels <= k < record@.len(),
    ensures
        result@.len() == record@.len(),
        result@[channel * texels + index] == color@[index * 3 + channel],
        result@[k] == record@[k],
{
    assert(starts_with_color(result@, color@, texels as int));
    assert(color@[pixels::cell(3, channel, index)] == result@[pixels::cell(
        texels as int,
        index,
        channel,
    )]);
}

/// The fine texels of a coarse one are those whose place is in its square.
pub proof fn squares_are_whole(
    x: usize,
    y: usize,
    scale: usize,
    width: usize,
    height: usize,
    result: Vec<usize>,
    dx: int,
    dy: int,
)
    requires
        x < width,
        y < height,
        scale > 0,
        (width * scale) * (height * scale) <= usize::MAX,
        call_ensures(fine_cells, (x, y, scale, width, height), result),
        0 <= dx < scale,
        0 <= dy < scale,
    ensures
        result@.len() == scale * scale,
        ({
            let fine = result@[dy * scale + dx] as int;
            &&& fine % (width * scale) == x * scale + dx
            &&& fine / (width * scale) == y * scale + dy
        }),
{
    let (w, s) = (width as int, scale as int);
    lemma_fine_inside(x as int, y as int, dx, dy, s, w, height as int);
    let fine = result@[dy * scale + dx] as int;
    assert(fine == fine_cell(x as int, y as int, dx, dy, s, w));
    vstd::arithmetic::div_mod::lemma_fundamental_div_mod_converse(
        fine,
        w * s,
        y * s + dy,
        x * s + dx,
    );
}

} // verus!
