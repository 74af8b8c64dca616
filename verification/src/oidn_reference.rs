//! A spatial denoiser as an outside reference: the command line, what it is
//! shown, how it is called, and how its frames are numbered.
use vstd::prelude::*;

use crate::dataset;
use crate::dataset::{Layout, Plane, PlaneSet};
use crate::options;
use crate::options::{
    all_texts, is_given, last_integer, last_text, scan, Fault, FaultView, Kind, KindView, Opt,
    OptView, Setting, SettingView, Word,
};
use crate::paths;
use crate::paths::join_path;
use crate::pixels;
use crate::pixels::interleaved;
use crate::text;
use crate::text::{decimal3_text, join5};

verus! {

/// How the tool is called.
pub const USAGE: &'static str = "\
oidn-reference --oidn PATH_TO_oidnDenoise --eval-data FILE --out DIR [--save-linear] [--limit N]
Repeat --eval-data in the same order as the learned evaluation. Native LR, HDR/high quality, clean primary guides, CPU/4 threads; bilinear upsample only after denoising. No history, HR guides or target inputs. --eval-only is accepted for the common evaluation protocol.";

/// The option `--eval-only`.
pub const EVAL_ONLY: u32 = 0;

/// The option `--save-linear`.
pub const SAVE_LINEAR: u32 = 1;

/// The option `--eval-data`.
pub const EVAL_DATA: u32 = 2;

/// The option `--out`.
pub const OUT: u32 = 3;

/// The option `--oidn`.
pub const OIDN: u32 = 4;

/// The option `--limit`.
pub const LIMIT: u32 = 5;

/// What asks for the usage text.
pub const HELP: u32 = 6;

/// What the tool was asked to do.
#[derive(Debug)]
pub struct Args {
    pub linear: bool,
    pub data: Vec<String>,
    pub out: Option<String>,
    pub executable: Option<String>,
    pub limit: usize,
}

/// The options of the tool.
pub open spec fn option_table() -> Seq<OptView> {
    seq![
        OptView { name: "--help"@, id: HELP, kind: KindView::Help },
        OptView { name: "--eval-only"@, id: EVAL_ONLY, kind: KindView::Switch },
        OptView { name: "--save-linear"@, id: SAVE_LINEAR, kind: KindView::Switch },
        OptView { name: "--eval-data"@, id: EVAL_DATA, kind: KindView::Text },
        OptView { name: "--out"@, id: OUT, kind: KindView::Text },
        OptView { name: "--oidn"@, id: OIDN, kind: KindView::Text },
        OptView { name: "--limit"@, id: LIMIT, kind: KindView::Integer(usize::MAX as u64) },
    ]
}

/// The options of the tool.
fn options_list() -> (result: Vec<Opt>)
    ensures
        options::table_view(result@) == option_table(),
{
    let result: Vec<Opt> = vec![
        Opt { name: "--help", id: HELP, kind: Kind::Help },
        Opt { name: "--eval-only", id: EVAL_ONLY, kind: Kind::Switch },
        Opt { name: "--save-linear", id: SAVE_LINEAR, kind: Kind::Switch },
        Opt { name: "--eval-data", id: EVAL_DATA, kind: Kind::Text },
        Opt { name: "--out", id: OUT, kind: Kind::Text },
        Opt { name: "--oidn", id: OIDN, kind: Kind::Text },
        Opt { name: "--limit", id: LIMIT, kind: Kind::Integer(usize::MAX as u64) },
    ];
    assert(options::table_view(result@) =~= option_table());
    result
}

/// The settings that a command line gives the tool.
pub open spec fn line_settings(words: Seq<Word>) -> Result<Seq<SettingView>, FaultView> {
    options::scanned(options::words_view(words), option_table(), false, 0, Seq::empty())
}

/// Each value is the last one given, or else the default.
pub open spec fn follows(args: Args, s: Seq<SettingView>) -> bool {
    &&& args.linear == options::given(s, SAVE_LINEAR)
    &&& options::texts_view(args.data@) == options::texts_given(s, EVAL_DATA)
    &&& options::text_option(args.out) == options::text_given(s, OUT)
    &&& options::text_option(args.executable) == options::text_given(s, OIDN)
    &&& args.limit == options::integer_or(s, LIMIT, usize::MAX as u64) as usize
}

/// Sets each value from the last one given, or else the default.
fn collect(settings: &Vec<Setting>) -> (result: Args)
    ensures
        follows(result, options::settings_view(settings@)),
{
    Args {
        linear: is_given(settings, SAVE_LINEAR),
        data: all_texts(settings, EVAL_DATA),
        out: last_text(settings, OUT),
        executable: last_text(settings, OIDN),
        limit: last_integer(settings, LIMIT, usize::MAX as u64) as usize,
    }
}

/// What keeps a command line from being followed.
#[derive(Debug)]
pub enum ArgsError {
    Line(Fault),
    NoExecutable,
    NoOut,
    /// There is no data, or no frame of it is wanted.
    Nothing,
}

/// What is wrong with settings: the first of these that holds.
pub open spec fn refusal(s: Seq<SettingView>) -> Option<ArgsError> {
    if options::text_given(s, OIDN) is None {
        Some(ArgsError::NoExecutable)
    } else if options::text_given(s, OUT) is None {
        Some(ArgsError::NoOut)
    } else if options::texts_given(s, EVAL_DATA).len() == 0 || options::integer_or(
        s,
        LIMIT,
        usize::MAX as u64,
    ) as usize == 0 {
        Some(ArgsError::Nothing)
    } else {
        None
    }
}

/// Reads the command line.
pub fn parse_args(words: &Vec<Word>) -> (result: Result<Args, ArgsError>)
    ensures
        match line_settings(words@) {
            Err(fault) => result matches Err(ArgsError::Line(f)) && f@ == fault,
            Ok(settings) => match refusal(settings) {
                Some(error) => result == Err::<Args, ArgsError>(error),
                None => result matches Ok(args) && follows(args, settings),
            },
        },
{
    let table = options_list();
    match scan(words, &table, false) {
        Err(fault) => Err(ArgsError::Line(fault)),
        Ok(settings) => {
            let args = collect(&settings);
            assert(options::texts_view(args.data@).len() == args.data.len());
            if args.executable.is_none() {
                Err(ArgsError::NoExecutable)
            } else if args.out.is_none() {
                Err(ArgsError::NoOut)
            } else if args.data.len() == 0 || args.limit == 0 {
                Err(ArgsError::Nothing)
            } else {
                Ok(args)
            }
        },
    }
}

/// What the captures of one comparison have in common.
#[derive(Clone, Copy, Debug, PartialEq, Eq, Structural)]
pub struct Shape {
    pub lr_width: u32,
    pub lr_height: u32,
    pub scale: u32,
    pub length: usize,
}

/// The shape of a capture.
pub fn shape_of(layout: &Layout, length: usize) -> (result: Shape)
    ensures
        result == (Shape {
            lr_width: layout.lr_width,
            lr_height: layout.lr_height,
            scale: layout.scale,
            length,
        }),
{
    Shape {
        lr_width: layout.lr_width,
        lr_height: layout.lr_height,
        scale: layout.scale,
        length,
    }
}

/// Whether every shape is that of the first.
pub open spec fn alike(shapes: Seq<Shape>) -> bool {
    forall|i: int| 0 <= i < shapes.len() ==> #[trigger] shapes[i] == shapes[0]
}

/// Finds the first capture whose shape differs from that of the one before it.
pub fn find_mismatch(shapes: &Vec<Shape>) -> (result: Option<usize>)
    ensures
        match result {
            None => forall|i: int, j: int|
                0 <= i < shapes.len() && 0 <= j < shapes.len() ==> #[trigger] shapes@[i]
                    == #[trigger] shapes@[j],
            Some(k) => {
                &&& 0 < k < shapes.len()
                &&& shapes@[k as int] != shapes@[k - 1]
                &&& forall|i: int| 0 <= i < k ==> #[trigger] shapes@[i] == shapes@[0]
            },
        },
        result is None <==> alike(shapes@),
{
    let mut k: usize = 1;
    while k < shapes.len()
        invariant
            1 <= k,
            forall|i: int| 0 <= i < k && i < shapes.len() ==> #[trigger] shapes@[i] == shapes@[0],
        decreases shapes.len() - k,
    {
        assert(shapes@[k - 1] == shapes@[0]);
        if shapes[k] != shapes[k - 1] {
            return Some(k);
        }
        k = k + 1;
    }
    None
}

/// What the denoiser is shown of a record, each texel by texel, and the jitter of
/// its samples where it is recorded. All of it is low resolution.
#[derive(Debug)]
pub struct Observation<T> {
    pub color: Vec<T>,
    pub diffuse: Vec<T>,
    pub specular: Vec<T>,
    pub normal: Vec<T>,
    pub jitter: Option<(T, T)>,
}

/// Whether values are those of a plane of a record, texel by texel.
pub open spec fn shows<T>(rgb: Seq<T>, record: Seq<T>, planes: PlaneSet, plane: Plane, texels: int) -> bool {
    let first = dataset::channels_below(planes@, plane.number()) * texels;
    pixels::interleaves(rgb, record.subrange(first, first + 3 * texels), texels)
}

/// Whether an observation is that of a record.
pub open spec fn observation_of<T>(
    seen: Observation<T>,
    record: Seq<T>,
    planes: PlaneSet,
    texels: int,
) -> bool {
    &&& shows(seen.color@, record, planes, Plane::Color, texels)
    &&& shows(seen.diffuse@, record, planes, Plane::DiffuseAlbedo, texels)
    &&& shows(seen.specular@, record, planes, Plane::SpecularF0, texels)
    &&& shows(seen.normal@, record, planes, Plane::Normal, texels)
    &&& match seen.jitter {
        None => !planes@.contains(Plane::Jitter),
        Some((x, y)) => {
            let first = dataset::channels_below(planes@, Plane::Jitter.number()) * texels;
            &&& planes@.contains(Plane::Jitter)
            &&& x == record[first]
            &&& y == record[first + texels]
        },
    }
}

/// Whether a record has what the denoiser is shown.
pub open spec fn observable(planes: Set<Plane>) -> bool {
    &&& planes.contains(Plane::Color)
    &&& planes.contains(Plane::DiffuseAlbedo)
    &&& planes.contains(Plane::SpecularF0)
    &&& planes.contains(Plane::Normal)
}

/// The jitter of a record.
fn read_jitter<T: Copy>(record: &[T], planes: &PlaneSet, texels: usize) -> (result: Option<(T, T)>)
    requires
        texels > 0,
        record@.len() == dataset::channels_below(planes@, dataset::PLANE_COUNT as int) * texels,
    ensures
        match result {
            None => !planes@.contains(Plane::Jitter),
            Some((x, y)) => {
                let first = dataset::channels_below(planes@, Plane::Jitter.number()) * texels;
                &&& planes@.contains(Plane::Jitter)
                &&& x == record@[first]
                &&& y == record@[first + texels]
            },
        },
{
    let total: usize = record.len();
    match planes.channel_offset(Plane::Jitter) {
        None => None,
        Some(offset) => {
            proof {
                dataset::offset_leaves_room(planes@, Plane::Jitter);
                let all = dataset::channels_below(planes@, dataset::PLANE_COUNT as int) as int;
                let (o, n) = (offset as int, texels as int);
                assert(0 <= o * n && o * n + 2 * n <= all * n) by (nonlinear_arith)
                    requires
                        0 <= o,
                        o + 2 <= all,
                        0 < n,
                ;
                assert(total == all * n);
            }
            let first: usize = offset * texels;
            Some((record[first], record[first + texels]))
        },
    }
}

/// What the denoiser is shown of the low resolution record of a frame: nothing
/// where a plane is missing.
pub fn observed<T: Copy>(record: &[T], planes: &PlaneSet, texels: usize) -> (result: Option<
    Observation<T>,
>)
    requires
        texels > 0,
        record@.len() == dataset::channels_below(planes@, dataset::PLANE_COUNT as int) * texels,
    ensures
        result is Some <==> observable(planes@),
        result matches Some(seen) ==> observation_of(seen, record@, *planes, texels as int),
{
    let color = interleaved(record, planes, Plane::Color, texels);
    let diffuse = interleaved(record, planes, Plane::DiffuseAlbedo, texels);
    let specular = interleaved(record, planes, Plane::SpecularF0, texels);
    let normal = interleaved(record, planes, Plane::Normal, texels);
    let jitter = read_jitter(record, planes, texels);
    match (color, diffuse, specular, normal) {
        (Some(color), Some(diffuse), Some(specular), Some(normal)) => Some(
            Observation { color, diffuse, specular, normal, jitter },
        ),
        _ => None,
    }
}

/// The cell at corner `k` around a place, kept inside the picture.
pub open spec fn corner(at: (usize, usize), low: (usize, usize), k: int) -> int {
    let x = if at.0 + k % 2 < low.0 {
        at.0 + k % 2
    } else {
        low.0 - 1
    };
    let y = if at.1 + k / 2 < low.1 {
        at.1 + k / 2
    } else {
        low.1 - 1
    };
    y * low.0 + x
}

/// The four cells around a place.
pub fn find_corners(at: (usize, usize), low: (usize, usize)) -> (result: Vec<usize>)
    requires
        at.0 < low.0,
        at.1 < low.1,
        low.0 * low.1 <= usize::MAX,
    ensures
        result.len() == 4,
        forall|k: int|
            0 <= k < 4 ==> #[trigger] result@[k] == corner(at, low, k) && result@[k] < low.0
                * low.1,
{
    let mut cells: Vec<usize> = Vec::new();
    let mut k: usize = 0;
    while k < 4
        invariant
            k <= 4,
            at.0 < low.0,
            at.1 < low.1,
            low.0 * low.1 <= usize::MAX,
            cells.len() == k,
            forall|j: int|
                0 <= j < k ==> #[trigger] cells@[j] == corner(at, low, j) && cells@[j] < low.0
                    * low.1,
        decreases 4 - k,
    {
        let x: usize = if k % 2 == 1 && at.0 + 1 < low.0 {
            at.0 + 1
        } else {
            at.0
        };
        let y: usize = if k / 2 == 1 && at.1 + 1 < low.1 {
            at.1 + 1
        } else {
            at.1
        };
        let (w, h): (usize, usize) = low;
        assert(0 <= y * w && y * w + x < w * h) by (nonlinear_arith)
            requires
                0 <= x < w,
                0 <= y,
                y + 1 <= h,
        ;
        cells.push(y * w + x);
        k = k + 1;
    }
    cells
}

/// What the denoiser is called with: how it runs, and the files it reads and
/// writes.
pub open spec fn denoiser_arguments(scratch: Seq<char>) -> Seq<Seq<char>> {
    seq![
        "--device"@,
        "cpu"@,
        "--filter"@,
        "RT"@,
        "--quality"@,
        "high"@,
        "--threads"@,
        "4"@,
        "--affinity"@,
        "0"@,
        "--clean_aux"@,
        "--hdr"@,
        paths::joined(scratch, "color.pfm"@),
        "--alb"@,
        paths::joined(scratch, "albedo.pfm"@),
        "--nrm"@,
        paths::joined(scratch, "normal.pfm"@),
        "--output"@,
        paths::joined(scratch, "output.pfm"@),
    ]
}

/// Lists what the denoiser is called with.
pub fn list_arguments(scratch: &str) -> (result: Vec<String>)
    ensures
        options::texts_view(result@) == denoiser_arguments(scratch@),
{
    let list: Vec<String> = vec![
        "--device".to_owned(),
        "cpu".to_owned(),
        "--filter".to_owned(),
        "RT".to_owned(),
        "--quality".to_owned(),
        "high".to_owned(),
        "--threads".to_owned(),
        "4".to_owned(),
        "--affinity".to_owned(),
        "0".to_owned(),
        "--clean_aux".to_owned(),
        "--hdr".to_owned(),
        join_path(scratch, "color.pfm"),
        "--alb".to_owned(),
        join_path(scratch, "albedo.pfm"),
        "--nrm".to_owned(),
        join_path(scratch, "normal.pfm"),
        "--output".to_owned(),
        join_path(scratch, "output.pfm"),
    ];
    assert(options::texts_view(list@) =~= denoiser_arguments(scratch@));
    list
}

/// How many records a capture has, and how many of them a sequence.
#[derive(Clone, Copy, Debug, PartialEq, Eq, Structural)]
pub struct CaptureLength {
    pub len: usize,
    pub length: usize,
}

/// Where a frame stands: its capture, its record there, and its sequence and
/// place in it over all captures.
#[derive(Clone, Copy, Debug, PartialEq, Eq, Structural)]
pub struct FramePlace {
    pub capture: usize,
    pub record: usize,
    pub sequence: usize,
    pub frame: usize,
}

/// The number of the first sequence of capture `k`: how many whole sequences come
/// before it.
pub open spec fn first_sequence(captures: Seq<CaptureLength>, k: int) -> int
    decreases k,
{
    if k <= 0 {
        0
    } else {
        first_sequence(captures, k - 1) + captures[k - 1].len as int / captures[k - 1].length as int
    }
}

/// How many records of a capture are taken.
pub open spec fn taken(capture: CaptureLength, limit: int) -> int {
    if capture.len < limit {
        capture.len as int
    } else {
        limit
    }
}

/// Where record `i` of capture `k` stands.
pub open spec fn place_of(captures: Seq<CaptureLength>, k: int, i: int) -> FramePlace {
    let length = captures[k].length as int;
    FramePlace {
        capture: k as usize,
        record: i as usize,
        sequence: (first_sequence(captures, k) + i / length) as usize,
        frame: (i % length) as usize,
    }
}

/// The frames of the first `k` captures, in their order.
pub open spec fn numbered(captures: Seq<CaptureLength>, limit: int, k: int) -> Seq<FramePlace>
    decreases k,
{
    if k <= 0 {
        seq![]
    } else {
        numbered(captures, limit, k - 1) + Seq::new(
            taken(captures[k - 1], limit) as nat,
            |i: int| place_of(captures, k - 1, i),
        )
    }
}

/// Numbers the frames of captures. No more than `limit` of each are taken.
pub fn number_frames(captures: &Vec<CaptureLength>, limit: usize) -> (result: Vec<FramePlace>)
    requires
        forall|k: int| 0 <= k < captures.len() ==> (#[trigger] captures@[k]).length > 0,
        forall|k: int|
            0 <= k <= captures.len() ==> #[trigger] first_sequence(captures@, k) < usize::MAX,
    ensures
        result@ == numbered(captures@, limit as int, captures.len() as int),
{
    let mut places: Vec<FramePlace> = Vec::new();
    let mut sequence: usize = 0;
    let mut k: usize = 0;
    while k < captures.len()
        invariant
            k <= captures.len(),
            forall|k: int| 0 <= k < captures.len() ==> (#[trigger] captures@[k]).length > 0,
            forall|k: int|
                0 <= k <= captures.len() ==> #[trigger] first_sequence(captures@, k) < usize::MAX,
            sequence == first_sequence(captures@, k as int),
            places@ == numbered(captures@, limit as int, k as int),
        decreases captures.len() - k,
    {
        let capture: CaptureLength = captures[k];
        assert(captures@[k as int].length > 0);
        let count: usize = if capture.len < limit {
            capture.len
        } else {
            limit
        };
        let ghost before = places@;
        assert(first_sequence(captures@, k + 1) < usize::MAX);
        let mut i: usize = 0;
        while i < count
            invariant
                i <= count <= capture.len,
                k < captures.len(),
                capture == captures@[k as int],
                capture.length > 0,
                sequence == first_sequence(captures@, k as int),
                sequence + capture.len as int / capture.length as int <= usize::MAX,
                places@ == before + Seq::new(i as nat, |j: int| place_of(captures@, k as int, j)),
            decreases count - i,
        {
            proof {
                vstd::arithmetic::div_mod::lemma_div_is_ordered(
                    i as int,
                    capture.len as int,
                    capture.length as int,
                );
            }
            places.push(
                FramePlace {
                    capture: k,
                    record: i,
                    sequence: sequence + i / capture.length,
                    frame: i % capture.length,
                },
            );
            assert(places@ =~= before + Seq::new(
                (i + 1) as nat,
                |j: int| place_of(captures@, k as int, j),
            ));
            i = i + 1;
        }
        sequence = sequence + capture.len / capture.length;
        k = k + 1;
    }
    places
}

proof fn lemma_sequences_grow(captures: Seq<CaptureLength>, a: int, b: int)
    requires
        0 <= a <= b <= captures.len(),
        forall|k: int| 0 <= k < captures.len() ==> (#[trigger] captures[k]).length > 0,
    ensures
        first_sequence(captures, a) <= first_sequence(captures, b),
    decreases b,
{
    if a < b {
        lemma_sequences_grow(captures, a, b - 1);
        assert(captures[b - 1].length > 0);
        vstd::arithmetic::div_mod::lemma_div_pos_is_pos(
            captures[b - 1].len as int,
            captures[b - 1].length as int,
        );
    }
}

/// Where captures hold whole sequences, no two records have the same number, so
/// that no picture takes the place of another.
pub proof fn frames_have_numbers_of_their_own(
    captures: Seq<CaptureLength>,
    a: int,
    i: int,
    b: int,
    j: int,
)
    requires
        forall|k: int|
            0 <= k < captures.len() ==> (#[trigger] captures[k]).length > 0
                && captures[k].len as int % captures[k].length as int == 0,
        first_sequence(captures, captures.len() as int) <= usize::MAX,
        0 <= a < captures.len(),
        0 <= b < captures.len(),
        0 <= i < captures[a].len,
        0 <= j < captures[b].len,
        place_of(captures, a, i).sequence == place_of(captures, b, j).sequence,
        place_of(captures, a, i).frame == place_of(captures, b, j).frame,
    ensures
        a == b && i == j,
    decreases
        (if a > b {
            1int
        } else {
            0int
        }),
{
    if a > b {
        frames_have_numbers_of_their_own(captures, b, j, a, i);
    } else {
        let (m, n) = (captures[a].length as int, captures[b].length as int);
        let (la, lb) = (captures[a].len as int, captures[b].len as int);
        lemma_within(i, la, m);
        lemma_within(j, lb, n);
        lemma_sequences_grow(captures, a + 1, captures.len() as int);
        lemma_sequences_grow(captures, b + 1, captures.len() as int);
        lemma_sequences_grow(captures, 0, a);
        lemma_sequences_grow(captures, 0, b);
        if a < b {
            lemma_sequences_grow(captures, a + 1, b);
        }
        vstd::arithmetic::div_mod::lemma_fundamental_div_mod(i, m);
        vstd::arithmetic::div_mod::lemma_fundamental_div_mod(j, m);
    }
}

proof fn lemma_within(i: int, len: int, length: int)
    requires
        0 <= i < len,
        0 < length,
        len % length == 0,
    ensures
        0 <= i / length < len / length,
{
    let q = len / length;
    vstd::arithmetic::div_mod::lemma_fundamental_div_mod(len, length);
    vstd::arithmetic::div_mod::lemma_div_pos_is_pos(i, length);
    vstd::arithmetic::mul::lemma_mul_is_commutative(length, q);
    vstd::arithmetic::div_mod::lemma_multiply_divide_lt(i, length, q);
}

/// Names what is shown of a frame.
pub fn frame_name(place: &FramePlace, what: &str) -> (result: String)
    ensures
        result@ == text::decimal3(place.sequence as nat) + "-"@ + text::decimal3(
            place.frame as nat,
        ) + "-"@ + what@,
{
    join5(
        decimal3_text(place.sequence as u64).as_str(),
        "-",
        decimal3_text(place.frame as u64).as_str(),
        "-",
        what,
    )
}

/// Whether progress is reported after `count` frames.
pub fn reports_progress(count: usize) -> (result: bool)
    ensures
        result == (count as int % 16 == 0),
{
    count % 16 == 0
}

/// Shapes agree exactly if no two differ, and the first that differs is told.
pub proof fn first_mismatch_is_told(shapes: Vec<Shape>, result: Option<usize>, i: int)
    requires
        call_ensures(find_mismatch, (&shapes,), result),
        0 <= i < shapes@.len(),
    ensures
        match result {
            None => shapes@[i].lr_width == shapes@[0].lr_width && shapes@[i].lr_height
                == shapes@[0].lr_height && shapes@[i].scale == shapes@[0].scale && shapes@[i].length
                == shapes@[0].length,
            Some(k) => k < shapes@.len() && shapes@[k as int] != shapes@[0] && (i < k ==> shapes@[i]
                == shapes@[0]),
        },
{
    match result {
        None => {
            assert(alike(shapes@));
            assert(shapes@[i] == shapes@[0]);
        },
        Some(k) => {
            assert(shapes@[k - 1] == shapes@[0]);
        },
    }
}

proof fn lemma_numbered(captures: Seq<CaptureLength>, limit: int, k: int, c: int, i: int)
    requires
        0 <= c < k <= captures.len(),
        0 <= i < captures[c].len,
        i < limit,
    ensures
        numbered(captures, limit, k).contains(place_of(captures, c, i)),
    decreases k,
{
    let before = numbered(captures, limit, k - 1);
    let all = numbered(captures, limit, k);
    let place = place_of(captures, c, i);
    if c == k - 1 {
        assert(all[before.len() + i] == place);
    } else {
        lemma_numbered(captures, limit, k - 1, c, i);
        let j = choose|j: int| 0 <= j < before.len() && before[j] == place;
        assert(all[j] == place);
    }
}

/// Every frame of a capture up to the limit gets a number, the first frame of a
/// sequence the number 0, and the next frame that of the next place: in the same
/// sequence, or in the next where the sequence is over.
pub proof fn frames_are_numbered_in_order(
    captures: Vec<CaptureLength>,
    limit: usize,
    result: Vec<FramePlace>,
    c: usize,
    i: usize,
)
    requires
        forall|k: int| 0 <= k < captures@.len() ==> (#[trigger] captures@[k]).length > 0,
        forall|k: int|
            0 <= k <= captures@.len() ==> #[trigger] first_sequence(captures@, k) < usize::MAX,
        call_ensures(number_frames, (&captures, limit), result),
        c < captures@.len(),
        i < captures@[c as int].len,
        i < limit,
    ensures
        exists|j: int|
            0 <= j < result@.len() && (#[trigger] result@[j]).capture == c && result@[j].record == i
                && result@[j].frame as int == i as int % captures@[c as int].length as int,
        c == 0 ==> exists|j: int|
            0 <= j < result@.len() && (#[trigger] result@[j]).capture == c && result@[j].record == i
                && result@[j].sequence * captures@[c as int].length + result@[j].frame == i,
{
    lemma_numbered(captures@, limit as int, captures@.len() as int, c as int, i as int);
    let place = place_of(captures@, c as int, i as int);
    let j = choose|j: int| 0 <= j < result@.len() && result@[j] == place;
    let length = captures@[c as int].length as int;
    vstd::arithmetic::div_mod::lemma_mod_bound(i as int, length);
    vstd::arithmetic::div_mod::lemma_fundamental_div_mod(i as int, length);
    assert(i as int % length <= i) by {
        vstd::arithmetic::div_mod::lemma_mod_decreases(i as nat, length as nat);
    }
    assert(result@[j].capture == c && result@[j].record == i);
    assert(0 <= i as int / length <= i) by {
        vstd::arithmetic::div_mod::lemma_div_is_ordered_by_denominator(i as int, 1, length);
        vstd::arithmetic::div_mod::lemma_div_pos_is_pos(i as int, length);
    }
    assert((i as int / length) * length == length * (i as int / length)) by (nonlinear_arith);
    assert(first_sequence(captures@, 0) == 0);
}

/// The four corners of a place go right and down from it, but not beyond the last
/// column and row.
pub proof fn corners_are_neighbors(
    at: (usize, usize),
    low: (usize, usize),
    result: Vec<usize>,
)
    requires
        at.0 < low.0,
        at.1 < low.1,
        low.0 * low.1 <= usize::MAX,
        call_ensures(find_corners, (at, low), result),
    ensures
        result@.len() == 4,
        result@[0] == at.1 * low.0 + at.0,
        at.0 + 1 < low.0 ==> result@[1] == result@[0] + 1 && result@[3] == result@[2] + 1,
        at.0 + 1 == low.0 ==> result@[1] == result@[0] && result@[3] == result@[2],
        at.1 + 1 < low.1 ==> result@[2] == result@[0] + low.0 && result@[3] == result@[1] + low.0,
        at.1 + 1 == low.1 ==> result@[2] == result@[0] && result@[3] == result@[1],
{
    assert(result@[0] == corner(at, low, 0) && result@[1] == corner(at, low, 1));
    assert(result@[2] == corner(at, low, 2) && result@[3] == corner(at, low, 3));
    assert((at.1 + 1) * low.0 == at.1 * low.0 + low.0) by (nonlinear_arith);
}

} // verus!
