//! Choosing a filter scale for each block of a picture: the command line, which
//! frames are scored, and how blocks are chosen and put together.
use vstd::prelude::*;

use crate::bits;
use crate::bits::is_before64;
use crate::dataset::{Layout, Plane, PlaneSet};
use crate::options;
use crate::options::{
    last_integer_given, last_list, last_text, scan, Fault, FaultView, Kind, KindView, Opt,
    OptView, Setting, SettingView, Word,
};
use crate::pixels;
use crate::text;
use crate::text::{decimal_text, join3};

verus! {

/// How the tool is called.
pub const USAGE: &'static str = "\
measure block-constrained per-lobe filter-scale headroom

usage: lobe-scale-oracle --data PATH [options]

  --reference-data PATH  matched dataset carrying cleaner HR lobe references
  --blocks N,N,...       output-pixel block sizes [4,8,16,32]
  --max-sequences N      score only the first N matched sequences
  --out DIR              write a mature-frame comparison
  -h, --help             show this text";

/// The option `--data`.
pub const DATA: u32 = 0;

/// The option `--reference-data`.
pub const REFERENCE_DATA: u32 = 1;

/// The option `--out`.
pub const OUT: u32 = 2;

/// The option `--blocks`.
pub const BLOCKS: u32 = 3;

/// The option `--max-sequences`.
pub const MAX_SEQUENCES: u32 = 4;

/// What asks for the usage text.
pub const HELP: u32 = 5;

/// What the tool was asked to do.
#[derive(Debug)]
pub struct Args {
    pub data: Option<String>,
    pub reference_data: Option<String>,
    pub out: Option<String>,
    pub blocks: Vec<u64>,
    pub max_sequences: Option<usize>,
}

/// The options of the tool.
pub open spec fn option_table() -> Seq<OptView> {
    seq![
        OptView { name: "-h"@, id: HELP, kind: KindView::Help },
        OptView { name: "--help"@, id: HELP, kind: KindView::Help },
        OptView { name: "--data"@, id: DATA, kind: KindView::Text },
        OptView { name: "--reference-data"@, id: REFERENCE_DATA, kind: KindView::Text },
        OptView { name: "--out"@, id: OUT, kind: KindView::Text },
        OptView { name: "--blocks"@, id: BLOCKS, kind: KindView::List },
        OptView { name: "--max-sequences"@, id: MAX_SEQUENCES, kind: KindView::Integer(usize::MAX as u64) },
    ]
}

/// The options of the tool.
fn options_list() -> (result: Vec<Opt>)
    ensures
        options::table_view(result@) == option_table(),
{
    let result: Vec<Opt> = vec![
        Opt { name: "-h", id: HELP, kind: Kind::Help },
        Opt { name: "--help", id: HELP, kind: Kind::Help },
        Opt { name: "--data", id: DATA, kind: Kind::Text },
        Opt { name: "--reference-data", id: REFERENCE_DATA, kind: Kind::Text },
        Opt { name: "--out", id: OUT, kind: Kind::Text },
        Opt { name: "--blocks", id: BLOCKS, kind: Kind::List },
        Opt { name: "--max-sequences", id: MAX_SEQUENCES, kind: Kind::Integer(usize::MAX as u64) },
    ];
    assert(options::table_view(result@) =~= option_table());
    result
}

/// The settings that a command line gives the tool.
pub open spec fn line_settings(words: Seq<Word>) -> Result<Seq<SettingView>, FaultView> {
    options::scanned(options::words_view(words), option_table(), false, 0, Seq::empty())
}

/// Each value is the last one given, or else the default.
pub open spec fn follows(args: Args, s: Seq<SettingView>) -> bool {
    &&& options::text_option(args.data) == options::text_given(s, DATA)
    &&& options::text_option(args.reference_data) == options::text_given(s, REFERENCE_DATA)
    &&& options::text_option(args.out) == options::text_given(s, OUT)
    &&& args.blocks@ == options::list_or(s, BLOCKS, seq![4u64, 8, 16, 32])
    &&& args.max_sequences == match options::integer_given(s, MAX_SEQUENCES) {
        Some(n) => Some(n as usize),
        None => None,
    }
}

/// Sets each value from the last one given, or else the default.
fn collect(settings: &Vec<Setting>) -> (result: Args)
    ensures
        follows(result, options::settings_view(settings@)),
{
    let blocks_default: Vec<u64> = vec![4, 8, 16, 32];
    Args {
        data: last_text(settings, DATA),
        reference_data: last_text(settings, REFERENCE_DATA),
        out: last_text(settings, OUT),
        blocks: last_list(settings, BLOCKS, blocks_default),
        max_sequences: match last_integer_given(settings, MAX_SEQUENCES) {
            Some(n) => Some(n as usize),
            None => None,
        },
    }
}

/// What keeps a command line from being followed.
#[derive(Debug)]
pub enum ArgsError {
    Line(Fault),
    /// There is no block size, or one is zero.
    Blocks,
    /// No sequence is wanted.
    MaxSequences,
    NoData,
}

/// What is wrong with settings: the first of these that holds.
pub open spec fn refusal(s: Seq<SettingView>) -> Option<ArgsError> {
    let blocks = options::list_or(s, BLOCKS, seq![4, 8, 16, 32]);
    if blocks.len() == 0 || blocks.contains(0) {
        Some(ArgsError::Blocks)
    } else if options::integer_given(s, MAX_SEQUENCES) matches Some(n) && n as usize == 0 {
        Some(ArgsError::MaxSequences)
    } else if options::text_given(s, DATA) is None {
        Some(ArgsError::NoData)
    } else {
        None
    }
}

/// Whether a list holds zero.
fn has_zero(list: &Vec<u64>) -> (result: bool)
    ensures
        result == list@.contains(0),
{
    let mut i: usize = 0;
    while i < list.len()
        invariant
            i <= list.len(),
            forall|j: int| 0 <= j < i ==> #[trigger] list@[j] != 0,
        decreases list.len() - i,
    {
        if list[i] == 0 {
            assert(list@[i as int] == 0);
            return true;
        }
        i = i + 1;
    }
    false
}

/// Reads the command line.
pub fn parse_args(words: &Vec<Word>) -> (result: Result<Args, ArgsError>)
    ensures
        match line_settings(words@) {
            Err(fault) => result matches Err(ArgsError::Line(f)) && f@ == fault,
            Ok(settings) => match refusal(settings) {
                Some(error) => result == Err::<Args, ArgsError>(error),
                None => result matches Ok(args) && follows(args, settings),
            },
        },
{
    let table = options_list();
    match scan(words, &table, false) {
        Err(fault) => Err(ArgsError::Line(fault)),
        Ok(settings) => {
            let args = collect(&settings);
            if args.blocks.len() == 0 || has_zero(&args.blocks) {
                return Err(ArgsError::Blocks);
            }
            if let Some(n) = args.max_sequences {
                if n == 0 {
                    return Err(ArgsError::MaxSequences);
                }
            }
            if args.data.is_none() {
                return Err(ArgsError::NoData);
            }
            Ok(args)
        },
    }
}

/// Why two datasets are not scored against each other.
#[derive(Clone, Copy, Debug, PartialEq, Eq, Structural)]
pub enum LayoutError {
    /// Their extents differ.
    Extents,
    /// The reference lacks this plane at high resolution.
    Reference(Plane),
    /// The input lacks this plane at low resolution.
    Low(Plane),
    /// The input lacks this plane at high resolution.
    High(Plane),
}

/// The planes that the reference needs.
pub open spec fn reference_planes() -> Seq<Plane> {
    seq![Plane::Color, Plane::DiffuseIllumination, Plane::SpecularRadiance]
}

/// The planes that the input needs at low resolution.
pub open spec fn low_planes() -> Seq<Plane> {
    seq![
        Plane::DiffuseIllumination,
        Plane::SpecularRadiance,
        Plane::EmissiveRadiance,
        Plane::Depth,
        Plane::Normal,
        Plane::DiffuseAlbedo,
    ]
}

/// The planes that the input needs at high resolution.
pub open spec fn high_planes() -> Seq<Plane> {
    seq![Plane::Color, Plane::Depth, Plane::Normal, Plane::DiffuseAlbedo, Plane::Roughness]
}

/// The first of these planes from `i` on that is not in a set.
pub open spec fn first_missing(needed: Seq<Plane>, planes: Set<Plane>, i: int) -> Option<Plane>
    decreases needed.len() - i,
{
    if i >= needed.len() {
        None
    } else if !planes.contains(needed[i]) {
        Some(needed[i])
    } else {
        first_missing(needed, planes, i + 1)
    }
}

/// Finds the first of these planes that is not in a set.
fn find_missing(needed: &Vec<Plane>, planes: &PlaneSet) -> (result: Option<Plane>)
    ensures
        result == first_missing(needed@, planes@, 0),
{
    let mut i: usize = 0;
    while i < needed.len()
        invariant
            i <= needed.len(),
            first_missing(needed@, planes@, 0) == first_missing(needed@, planes@, i as int),
        decreases needed.len() - i,
    {
        if !planes.contains(needed[i]) {
            return Some(needed[i]);
        }
        i = i + 1;
    }
    None
}

/// What keeps two datasets apart: the first of these that holds.
pub open spec fn layout_fault(data: Layout, reference: Layout) -> Option<LayoutError> {
    if data.scale != reference.scale || data.lr_width != reference.lr_width || data.lr_height
        != reference.lr_height {
        Some(LayoutError::Extents)
    } else {
        match first_missing(reference_planes(), reference.hr_planes@, 0) {
            Some(plane) => Some(LayoutError::Reference(plane)),
            None => match first_missing(low_planes(), data.lr_planes@, 0) {
                Some(plane) => Some(LayoutError::Low(plane)),
                None => match first_missing(high_planes(), data.hr_planes@, 0) {
                    Some(plane) => Some(LayoutError::High(plane)),
                    None => None,
                },
            },
        }
    }
}

/// Checks that a dataset can be scored against a reference.
pub fn validate_layout(data: &Layout, reference: &Layout) -> (result: Result<(), LayoutError>)
    ensures
        match layout_fault(*data, *reference) {
            Some(error) => result == Err::<(), LayoutError>(error),
            None => result is Ok,
        },
{
    if data.scale != reference.scale || data.lr_width != reference.lr_width || data.lr_height
        != reference.lr_height {
        return Err(LayoutError::Extents);
    }
    let needed: Vec<Plane> = vec![
        Plane::Color,
        Plane::DiffuseIllumination,
        Plane::SpecularRadiance,
    ];
    assert(needed@ =~= reference_planes());
    if let Some(plane) = find_missing(&needed, &reference.hr_planes) {
        return Err(LayoutError::Reference(plane));
    }
    let needed: Vec<Plane> = vec![
        Plane::DiffuseIllumination,
        Plane::SpecularRadiance,
        Plane::EmissiveRadiance,
        Plane::Depth,
        Plane::Normal,
        Plane::DiffuseAlbedo,
    ];
    assert(needed@ =~= low_planes());
    if let Some(plane) = find_missing(&needed, &data.lr_planes) {
        return Err(LayoutError::Low(plane));
    }
    let needed: Vec<Plane> = vec![
        Plane::Color,
        Plane::Depth,
        Plane::Normal,
        Plane::DiffuseAlbedo,
        Plane::Roughness,
    ];
    assert(needed@ =~= high_planes());
    if let Some(plane) = find_missing(&needed, &data.hr_planes) {
        return Err(LayoutError::High(plane));
    }
    Ok(())
}

/// Why the sequences of two datasets do not match.
#[derive(Clone, Copy, Debug, PartialEq, Eq, Structural)]
pub enum SequenceError {
    /// A sequence of the reference has neither one frame nor as many as the input.
    Length,
    /// There is no sequence with an earlier frame to look back to.
    Nothing,
}

impl SequenceError {
    /// What is said of it.
    pub open spec fn said(self) -> Seq<char> {
        match self {
            SequenceError::Length => "reference sequence length must be one or match the input"@,
            SequenceError::Nothing => "the matched data contains no temporal sequences"@,
        }
    }

    /// Says why in words.
    pub fn words(self) -> (result: &'static str)
        ensures
            result@ == self.said(),
    {
        match self {
            SequenceError::Length => "reference sequence length must be one or match the input",
            SequenceError::Nothing => "the matched data contains no temporal sequences",
        }
    }
}

/// How many sequences are scored, and how many frames a sequence of the reference
/// has.
#[derive(Clone, Copy, Debug, PartialEq, Eq, Structural)]
pub struct Matched {
    pub sequences: usize,
    pub reference_length: usize,
}

/// How many whole sequences there are.
pub open spec fn whole(len: int, length: int) -> int {
    len / length
}

/// How many sequences are scored: no more than there are on either side, and no
/// more than wanted.
pub open spec fn scored(data: int, reference: int, wanted: Option<usize>) -> int {
    let fewer = if reference < data {
        reference
    } else {
        data
    };
    match wanted {
        Some(n) if n < fewer => n as int,
        _ => fewer,
    }
}

/// Matches the sequences of an input with those of its reference. Without a
/// reference of its own the input is scored against itself.
pub fn match_sequences(
    len: usize,
    length: usize,
    reference: Option<(usize, usize)>,
    wanted: Option<usize>,
) -> (result: Result<Matched, SequenceError>)
    requires
        length > 0,
        reference matches Some(r) ==> r.1 > 0,
    ensures
        ({
            let other: (usize, usize) = match reference {
                Some(r) => r,
                None => (len, length),
            };
            let sequences = scored(
                whole(len as int, length as int),
                whole(other.0 as int, other.1 as int),
                wanted,
            );
            if other.1 != 1 && other.1 != length {
                result == Err::<Matched, SequenceError>(SequenceError::Length)
            } else if sequences == 0 || length < 2 {
                result == Err::<Matched, SequenceError>(SequenceError::Nothing)
            } else {
                result == Ok::<Matched, SequenceError>(
                    Matched { sequences: sequences as usize, reference_length: other.1 },
                )
            }
        }),
{
    let (other_len, other_length): (usize, usize) = match reference {
        Some(r) => r,
        None => (len, length),
    };
    if other_length != 1 && other_length != length {
        return Err(SequenceError::Length);
    }
    let mut sequences: usize = len / length;
    let others: usize = other_len / other_length;
    if others < sequences {
        sequences = others;
    }
    if let Some(n) = wanted {
        if n < sequences {
            sequences = n;
        }
    }
    if sequences == 0 || length < 2 {
        return Err(SequenceError::Nothing);
    }
    Ok(Matched { sequences, reference_length: other_length })
}

/// A frame that is scored: its record, the record of its reference, whether the
/// choices of an earlier frame are there, and whether its pictures are kept.
#[derive(Clone, Copy, Debug, PartialEq, Eq, Structural)]
pub struct ScoredFrame {
    pub index: usize,
    pub reference: usize,
    pub lagged: bool,
    pub kept: bool,
}

/// Frame `frame` of a sequence.
pub open spec fn frame_of(sequence: int, frame: int, length: int, reference_length: int) -> ScoredFrame {
    ScoredFrame {
        index: (sequence * length + frame) as usize,
        reference: (sequence * reference_length + (if reference_length == 1 {
            0
        } else {
            frame
        })) as usize,
        lagged: frame > 1,
        kept: sequence == 0 && frame + 1 == length,
    }
}

/// The frames that are scored, sequence by sequence: all but the first of each.
pub open spec fn frames_of(sequences: int, length: int, reference_length: int) -> Seq<ScoredFrame>
    decreases sequences,
{
    if sequences <= 0 {
        seq![]
    } else {
        frames_of(sequences - 1, length, reference_length) + Seq::new(
            (length - 1) as nat,
            |f: int| frame_of(sequences - 1, f + 1, length, reference_length),
        )
    }
}

/// Lists the frames that are scored.
pub fn plan_frames(matched: Matched, length: usize) -> (result: Vec<ScoredFrame>)
    requires
        length >= 2,
        matched.reference_length == 1 || matched.reference_length == length,
        matched.sequences * length <= usize::MAX,
    ensures
        result@ == frames_of(
            matched.sequences as int,
            length as int,
            matched.reference_length as int,
        ),
{
    let mut frames: Vec<ScoredFrame> = Vec::new();
    let other: usize = matched.reference_length;
    let mut s: usize = 0;
    while s < matched.sequences
        invariant
            s <= matched.sequences,
            length >= 2,
            other == matched.reference_length,
            other == 1 || other == length,
            matched.sequences * length <= usize::MAX,
            frames@ == frames_of(s as int, length as int, other as int),
        decreases matched.sequences - s,
    {
        let ghost before = frames@;
        proof {
            let (n, l, r) = (matched.sequences as int, length as int, other as int);
            assert(s * l + l <= n * l && 0 <= s * l && 0 <= s * r && s * r <= s * l)
                by (nonlinear_arith)
                requires
                    0 <= s,
                    s + 1 <= n,
                    1 <= r <= l,
            ;
        }
        let mut f: usize = 1;
        assert(frames@ =~= before + Seq::new(
            (f - 1) as nat,
            |j: int| frame_of(s as int, j + 1, length as int, other as int),
        ));
        while f < length
            invariant
                1 <= f <= length,
                s < matched.sequences,
                other == 1 || other == length,
                0 <= s * length,
                s * length + length <= usize::MAX,
                0 <= s * other <= s * length,
                frames@ == before + Seq::new(
                    (f - 1) as nat,
                    |j: int| frame_of(s as int, j + 1, length as int, other as int),
                ),
            decreases length - f,
        {
            let reference: usize = if other == 1 {
                s * other
            } else {
                s * other + f
            };
            frames.push(
                ScoredFrame {
                    index: s * length + f,
                    reference,
                    lagged: f > 1,
                    kept: s == 0 && f + 1 == length,
                },
            );
            assert(frames@ =~= before + Seq::new(
                f as nat,
                |j: int| frame_of(s as int, j + 1, length as int, other as int),
            ));
            f = f + 1;
        }
        s = s + 1;
    }
    frames
}

/// How many blocks an axis takes.
pub open spec fn block_count(length: int, block: int) -> int {
    (length + block - 1) / block
}

/// The block that a texel belongs to, counted along the rows of blocks.
pub open spec fn block_of(x: int, y: int, width: int, block: int) -> int {
    y / block * block_count(width, block) + x / block
}

/// What part of an axis a block takes: where it starts and ends.
pub open spec fn block_span(k: int, length: int, block: int) -> (int, int) {
    (
        k * block,
        if (k + 1) * block < length {
            (k + 1) * block
        } else {
            length
        },
    )
}

/// Counts the blocks of an axis.
fn count_blocks(length: usize, block: usize) -> (result: usize)
    requires
        block > 0,
    ensures
        result == block_count(length as int, block as int),
{
    let q: usize = length / block;
    let r: usize = length % block;
    proof {
        let (n, b) = (length as int, block as int);
        vstd::arithmetic::div_mod::lemma_fundamental_div_mod(n, b);
        vstd::arithmetic::mul::lemma_mul_is_commutative(b, q as int);
        if r == 0 {
            vstd::arithmetic::div_mod::lemma_fundamental_div_mod_converse(
                n + b - 1,
                b,
                q as int,
                b - 1,
            );
        } else {
            assert((q + 1) * b == q * b + b) by (nonlinear_arith);
            vstd::arithmetic::div_mod::lemma_fundamental_div_mod_converse(
                n + b - 1,
                b,
                q + 1,
                r - 1,
            );
        }
        assert(q + 1 <= n || b == 1 || n == 0 || r == 0) by (nonlinear_arith)
            requires
                n == b * q + r,
                0 <= r < b,
                0 <= q,
                0 <= n,
        ;
    }
    if r == 0 {
        q
    } else {
        q + 1
    }
}

/// Every texel belongs to one block, and lies in the part of each axis that the
/// block takes.
pub proof fn texels_have_blocks(x: int, y: int, width: int, height: int, block: int)
    requires
        0 < block,
        0 <= x < width,
        0 <= y < height,
    ensures
        0 <= x / block < block_count(width, block),
        0 <= y / block < block_count(height, block),
        0 <= block_of(x, y, width, block) < block_count(width, block) * block_count(height, block),
        block_span(x / block, width, block).0 <= x < block_span(x / block, width, block).1,
        block_span(y / block, height, block).0 <= y < block_span(y / block, height, block).1,
{
    lemma_in_span(x, width, block);
    lemma_in_span(y, height, block);
    let (across, down) = (block_count(width, block), block_count(height, block));
    let (i, j) = (x / block, y / block);
    assert(0 <= j * across + i && j * across + i < across * down) by (nonlinear_arith)
        requires
            0 <= i < across,
            0 <= j,
            j + 1 <= down,
    ;
}

proof fn lemma_in_span(x: int, length: int, block: int)
    requires
        0 < block,
        0 <= x < length,
    ensures
        0 <= x / block < block_count(length, block),
        block_span(x / block, length, block).0 <= x < block_span(x / block, length, block).1,
{
    let k = x / block;
    vstd::arithmetic::div_mod::lemma_fundamental_div_mod(x, block);
    vstd::arithmetic::div_mod::lemma_div_pos_is_pos(x, block);
    vstd::arithmetic::mul::lemma_mul_is_commutative(block, k);
    assert((k + 1) * block == k * block + block) by (nonlinear_arith);
    let n = length + block - 1;
    let q = n / block;
    vstd::arithmetic::div_mod::lemma_fundamental_div_mod(n, block);
    assert(k < q) by (nonlinear_arith)
        requires
            n == block * q + n % block,
            0 <= n % block < block,
            k * block + block <= x + block,
            x + block <= n,
            block > 0,
    ;
}

/// Whether `best` is the first of the candidates whose error is lowest.
pub open spec fn first_best(errors: Seq<u64>, best: int) -> bool {
    &&& 0 <= best < errors.len()
    &&& forall|k: int|
        0 <= k < errors.len() ==> bits::total_rank64(errors[best]) <= bits::total_rank64(
            #[trigger] errors[k],
        )
    &&& forall|k: int|
        0 <= k < best ==> bits::total_rank64(errors[best]) < bits::total_rank64(
            #[trigger] errors[k],
        )
}

/// Finds the first of the candidates whose error is lowest.
fn find_best(errors: &Vec<u64>) -> (result: usize)
    requires
        errors.len() > 0,
    ensures
        first_best(errors@, result as int),
{
    let mut best: usize = 0;
    let mut k: usize = 1;
    while k < errors.len()
        invariant
            1 <= k <= errors.len(),
            best < k,
            forall|j: int|
                0 <= j < k ==> bits::total_rank64(errors@[best as int]) <= bits::total_rank64(
                    #[trigger] errors@[j],
                ),
            forall|j: int|
                0 <= j < best ==> bits::total_rank64(errors@[best as int]) < bits::total_rank64(
                    #[trigger] errors@[j],
                ),
        decreases errors.len() - k,
    {
        if is_before64(errors[k], errors[best]) {
            best = k;
        }
        k = k + 1;
    }
    best
}

/// How a picture is divided.
#[derive(Clone, Copy, Debug, PartialEq, Eq, Structural)]
pub struct Grid {
    pub width: usize,
    pub height: usize,
    pub block: usize,
}

impl Grid {
    /// Whether there are blocks, and a picture of three channels fits in memory.
    pub open spec fn fits(self) -> bool {
        self.block > 0 && self.width * self.height * 3 <= usize::MAX
    }

    /// How many blocks there are.
    pub open spec fn blocks(self) -> int {
        block_count(self.width as int, self.block as int) * block_count(
            self.height as int,
            self.block as int,
        )
    }

    /// The block of cell `i`.
    pub open spec fn block_at(self, i: int) -> int {
        block_of(
            i % self.width as int,
            i / self.width as int,
            self.width as int,
            self.block as int,
        )
    }
}

/// Whether a picture takes each of its texels from the candidate that is chosen
/// for the block of that texel.
pub open spec fn taken_from<T>(
    image: Seq<T>,
    candidates: Seq<Vec<T>>,
    labels: Seq<usize>,
    grid: Grid,
) -> bool {
    &&& image.len() == grid.width * grid.height * 3
    &&& forall|i: int, c: int|
        0 <= i < grid.width * grid.height && 0 <= c < 3 ==> #[trigger] image[i * 3 + c]
            == candidates[labels[grid.block_at(i)] as int]@[i * 3 + c]
}

/// Puts a picture together out of the candidates that are chosen for its blocks.
pub fn apply_blocks<T: Copy>(candidates: &Vec<Vec<T>>, grid: Grid, labels: &Vec<usize>) -> (result: Vec<
    T,
>)
    requires
        grid.fits(),
        labels.len() == grid.blocks(),
        forall|b: int| 0 <= b < labels.len() ==> #[trigger] labels@[b] < candidates.len(),
        forall|k: int|
            0 <= k < candidates.len() ==> (#[trigger] candidates@[k]).len() == grid.width
                * grid.height * 3,
    ensures
        taken_from(result@, candidates@, labels@, grid),
{
    let mut image: Vec<T> = Vec::new();
    let across: usize = count_blocks(grid.width, grid.block);
    proof {
        let (w, h) = (grid.width as int, grid.height as int);
        assert(0 <= w * h) by (nonlinear_arith)
            requires
                0 <= w,
                0 <= h,
        ;
    }
    let cells: usize = grid.width * grid.height;
    let mut i: usize = 0;
    while i < cells
        invariant
            i <= cells,
            cells == grid.width * grid.height,
            cells * 3 <= usize::MAX,
            grid.fits(),
            across == block_count(grid.width as int, grid.block as int),
            labels.len() == grid.blocks(),
            forall|b: int| 0 <= b < labels.len() ==> #[trigger] labels@[b] < candidates.len(),
            forall|k: int|
                0 <= k < candidates.len() ==> (#[trigger] candidates@[k]).len() == grid.width
                    * grid.height * 3,
            image.len() == i * 3,
            forall|j: int, c: int|
                0 <= j < i && 0 <= c < 3 ==> #[trigger] image@[j * 3 + c]
                    == candidates@[labels@[grid.block_at(j)] as int]@[j * 3 + c],
        decreases cells - i,
    {
        proof {
            pixels::coordinates_inside(grid.width as int, grid.height as int, i as int);
            texels_have_blocks(
                i as int % grid.width as int,
                i as int / grid.width as int,
                grid.width as int,
                grid.height as int,
                grid.block as int,
            );
            let (a, d) = (across as int, block_count(grid.height as int, grid.block as int));
            let row = i as int / grid.width as int / grid.block as int;
            assert(0 <= row * a && row * a <= a * d) by (nonlinear_arith)
                requires
                    0 <= row < d,
                    0 <= a,
            ;
        }
        let x: usize = i % grid.width;
        let y: usize = i / grid.width;
        let b: usize = y / grid.block * across + x / grid.block;
        assert(b == grid.block_at(i as int));
        assert(labels@[b as int] < candidates.len());
        let candidate = &candidates[labels[b]];
        assert(candidates@[labels@[b as int] as int].len() == grid.width * grid.height * 3);
        image.push(candidate[i * 3]);
        image.push(candidate[i * 3 + 1]);
        image.push(candidate[i * 3 + 2]);
        i = i + 1;
    }
    image
}

/// How many of the first `k` cells belong to blocks for which this candidate is
/// chosen.
pub open spec fn cells_of(labels: Seq<usize>, grid: Grid, candidate: int, k: int) -> int
    decreases k,
{
    if k <= 0 {
        0
    } else if labels[grid.block_at(k - 1)] == candidate {
        cells_of(labels, grid, candidate, k - 1) + 1
    } else {
        cells_of(labels, grid, candidate, k - 1)
    }
}

/// Counts for each candidate the cells that are taken from it.
fn count_cells(labels: &Vec<usize>, grid: Grid, candidates: usize) -> (result: Vec<usize>)
    requires
        grid.fits(),
        labels.len() == grid.blocks(),
        forall|b: int| 0 <= b < labels.len() ==> #[trigger] labels@[b] < candidates,
    ensures
        result.len() == candidates,
        forall|k: int|
            0 <= k < candidates ==> #[trigger] result@[k] == cells_of(
                labels@,
                grid,
                k,
                grid.width * grid.height,
            ),
{
    let mut counts: Vec<usize> = Vec::new();
    let mut k: usize = 0;
    while k < candidates
        invariant
            k <= candidates,
            counts.len() == k,
            forall|j: int| 0 <= j < k ==> #[trigger] counts@[j] == 0,
        decreases candidates - k,
    {
        counts.push(0);
        k = k + 1;
    }
    let across: usize = count_blocks(grid.width, grid.block);
    proof {
        let (w, h) = (grid.width as int, grid.height as int);
        assert(0 <= w * h) by (nonlinear_arith)
            requires
                0 <= w,
                0 <= h,
        ;
    }
    let cells: usize = grid.width * grid.height;
    let mut i: usize = 0;
    while i < cells
        invariant
            i <= cells,
            cells == grid.width * grid.height,
            grid.fits(),
            across == block_count(grid.width as int, grid.block as int),
            labels.len() == grid.blocks(),
            forall|b: int| 0 <= b < labels.len() ==> #[trigger] labels@[b] < candidates,
            counts.len() == candidates,
            forall|k: int|
                0 <= k < candidates ==> #[trigger] counts@[k] == cells_of(
                    labels@,
                    grid,
                    k,
                    i as int,
                ) && counts@[k] <= i,
        decreases cells - i,
    {
        proof {
            pixels::coordinates_inside(grid.width as int, grid.height as int, i as int);
            texels_have_blocks(
                i as int % grid.width as int,
                i as int / grid.width as int,
                grid.width as int,
                grid.height as int,
                grid.block as int,
            );
            let (a, d) = (across as int, block_count(grid.height as int, grid.block as int));
            let row = i as int / grid.width as int / grid.block as int;
            assert(0 <= row * a && row * a <= a * d) by (nonlinear_arith)
                requires
                    0 <= row < d,
                    0 <= a,
            ;
        }
        let x: usize = i % grid.width;
        let y: usize = i / grid.width;
        let b: usize = y / grid.block * across + x / grid.block;
        assert(b == grid.block_at(i as int));
        let label: usize = labels[b];
        assert(counts@[label as int] <= i);
        let more: usize = counts[label] + 1;
        counts.set(label, more);
        i = i + 1;
    }
    counts
}

/// The candidates that are chosen for the blocks of a picture, the picture that
/// they make, and how many cells each candidate gives.
#[derive(Debug)]
pub struct BlockSelection<T> {
    pub image: Vec<T>,
    pub histogram: Vec<usize>,
    pub labels: Vec<usize>,
}

/// Chooses for each block the first candidate whose error there is lowest. The
/// errors stand block by block along the rows of blocks.
pub fn choose_blocks<T: Copy>(candidates: &Vec<Vec<T>>, errors: &Vec<Vec<u64>>, grid: Grid) -> (result:
    BlockSelection<T>)
    requires
        grid.fits(),
        candidates.len() > 0,
        errors.len() == grid.blocks(),
        forall|b: int| 0 <= b < errors.len() ==> (#[trigger] errors@[b]).len() == candidates.len(),
        forall|k: int|
            0 <= k < candidates.len() ==> (#[trigger] candidates@[k]).len() == grid.width
                * grid.height * 3,
    ensures
        result.labels.len() == errors.len(),
        forall|b: int|
            0 <= b < errors.len() ==> first_best(
                errors@[b]@,
                #[trigger] result.labels@[b] as int,
            ),
        taken_from(result.image@, candidates@, result.labels@, grid),
        result.histogram.len() == candidates.len(),
        forall|k: int|
            0 <= k < candidates.len() ==> #[trigger] result.histogram@[k] == cells_of(
                result.labels@,
                grid,
                k,
                grid.width * grid.height,
            ),
{
    let mut labels: Vec<usize> = Vec::new();
    let mut b: usize = 0;
    while b < errors.len()
        invariant
            b <= errors.len(),
            candidates.len() > 0,
            forall|b: int|
                0 <= b < errors.len() ==> (#[trigger] errors@[b]).len() == candidates.len(),
            labels.len() == b,
            forall|j: int|
                0 <= j < b ==> first_best(errors@[j]@, #[trigger] labels@[j] as int) && labels@[j]
                    < candidates.len(),
        decreases errors.len() - b,
    {
        assert(errors@[b as int].len() == candidates.len());
        labels.push(find_best(&errors[b]));
        b = b + 1;
    }
    let image = apply_blocks(candidates, grid, &labels);
    let histogram = count_cells(&labels, grid, candidates.len());
    BlockSelection { image, histogram, labels }
}

/// The total of the first `k` numbers.
pub open spec fn total(list: Seq<int>, k: int) -> int
    decreases k,
{
    if k <= 0 {
        0
    } else {
        total(list, k - 1) + list[k - 1]
    }
}

/// Every cell is taken from one candidate: the cells of all candidates together
/// are the cells of the picture.
pub proof fn histograms_are_complete(labels: Seq<usize>, grid: Grid, candidates: int, k: int)
    requires
        0 <= k,
        forall|i: int|
            0 <= i < k ==> 0 <= labels[#[trigger] grid.block_at(i)] < candidates,
    ensures
        total(
            Seq::new(candidates as nat, |c: int| cells_of(labels, grid, c, k)),
            candidates,
        ) == k,
    decreases k,
{
    let now = Seq::new(candidates as nat, |c: int| cells_of(labels, grid, c, k));
    if k > 0 {
        histograms_are_complete(labels, grid, candidates, k - 1);
        let before = Seq::new(candidates as nat, |c: int| cells_of(labels, grid, c, k - 1));
        let label = labels[grid.block_at(k - 1)] as int;
        assert(0 <= labels[grid.block_at(k - 1)] < candidates);
        lemma_one_more_cell(before, now, label, candidates);
    } else {
        lemma_no_cells(now, candidates);
    }
}

proof fn lemma_no_cells(list: Seq<int>, k: int)
    requires
        0 <= k <= list.len() || k <= 0,
        forall|c: int| 0 <= c < k ==> list[c] == 0,
    ensures
        total(list, k) == 0,
    decreases k,
{
    if k > 0 {
        lemma_no_cells(list, k - 1);
    }
}

proof fn lemma_one_more_cell(before: Seq<int>, now: Seq<int>, at: int, k: int)
    requires
        0 <= at,
        0 <= k <= before.len() == now.len(),
        forall|c: int|
            0 <= c < now.len() ==> now[c] == before[c] + (if c == at {
                1int
            } else {
                0
            }),
    ensures
        total(now, k) == total(before, k) + (if at < k {
            1int
        } else {
            0
        }),
    decreases k,
{
    if k > 0 {
        lemma_one_more_cell(before, now, at, k - 1);
    }
}

/// Adds the counts of a frame to those of the frames before it.
pub fn accumulate_histogram(total: &mut Vec<usize>, frame: &Vec<usize>)
    requires
        old(total).len() == frame.len(),
        forall|k: int| 0 <= k < frame.len() ==> old(total)@[k] + #[trigger] frame@[k] <= usize::MAX,
    ensures
        final(total).len() == frame.len(),
        forall|k: int|
            0 <= k < frame.len() ==> #[trigger] final(total)@[k] == old(total)@[k] + frame@[k],
{
    let ghost before = total@;
    let mut k: usize = 0;
    while k < frame.len()
        invariant
            k <= frame.len() == total.len() == before.len(),
            forall|j: int| 0 <= j < frame.len() ==> before[j] + #[trigger] frame@[j] <= usize::MAX,
            forall|j: int| 0 <= j < k ==> #[trigger] total@[j] == before[j] + frame@[j],
            forall|j: int| k <= j < frame.len() ==> #[trigger] total@[j] == before[j],
        decreases frame.len() - k,
    {
        assert(before[k as int] + frame@[k as int] <= usize::MAX);
        let sum: usize = total[k] + frame[k];
        total.set(k, sum);
        k = k + 1;
    }
}

/// Names the picture that is made with blocks of this size.
pub fn oracle_name(block: u64) -> (result: String)
    ensures
        result@ == "lobe-oracle-b"@ + text::decimal(block as nat) + ".png"@,
{
    join3("lobe-oracle-b", decimal_text(block).as_str(), ".png")
}

/// Sequences are matched whole: as many as are wanted, unless one more would go
/// beyond the input or the reference.
pub proof fn sequences_are_matched_whole(
    len: usize,
    length: usize,
    reference: Option<(usize, usize)>,
    wanted: Option<usize>,
    result: Result<Matched, SequenceError>,
)
    requires
        length > 0,
        reference matches Some(r) ==> r.1 > 0,
        call_ensures(match_sequences, (len, length, reference, wanted), result),
    ensures
        result matches Ok(m) ==> {
            let other = match reference {
                Some(r) => r,
                None => (len, length),
            };
            &&& length >= 2 && m.sequences > 0
            &&& m.reference_length == other.1
            &&& m.reference_length == 1 || m.reference_length == length
            &&& m.sequences * length <= len
            &&& m.sequences * other.1 <= other.0
            &&& wanted matches Some(n) ==> m.sequences <= n
            &&& (m.sequences + 1) * length > len || (m.sequences + 1) * other.1 > other.0 || wanted
                == Some(m.sequences)
        },
        result == Err::<Matched, SequenceError>(SequenceError::Length) <==> (reference matches Some(
            r,
        ) && r.1 != 1 && r.1 != length),
        result == Err::<Matched, SequenceError>(SequenceError::Nothing) ==> length < 2 || len
            < length || wanted == Some(0usize) || (reference matches Some(r) && r.0 < r.1),
{
    let other = match reference {
        Some(r) => r,
        None => (len, length),
    };
    let (a, b) = (len as int / length as int, other.0 as int / other.1 as int);
    vstd::arithmetic::div_mod::lemma_fundamental_div_mod(len as int, length as int);
    vstd::arithmetic::div_mod::lemma_fundamental_div_mod(other.0 as int, other.1 as int);
    vstd::arithmetic::div_mod::lemma_mod_bound(len as int, length as int);
    vstd::arithmetic::div_mod::lemma_mod_bound(other.0 as int, other.1 as int);
    if result is Ok {
        let s = result->Ok_0.sequences as int;
        let (l, r) = (length as int, other.1 as int);
        assert(s <= a ==> s * l <= l * a) by (nonlinear_arith)
            requires
                l > 0,
        ;
        assert(s <= b ==> s * r <= r * b) by (nonlinear_arith)
            requires
                r > 0,
        ;
        assert(s == a ==> (s + 1) * l == l * a + l) by (nonlinear_arith);
        assert(s == b ==> (s + 1) * r == r * b + r) by (nonlinear_arith);
    } else {
        let (l, r) = (length as int, other.1 as int);
        assert(a == 0 ==> l * a == 0) by (nonlinear_arith);
        assert(b == 0 ==> r * b == 0) by (nonlinear_arith);
    }
}

proof fn lemma_frames_of(sequences: int, length: int, reference_length: int, s: int, f: int)
    requires
        0 <= s < sequences,
        0 < f < length,
    ensures
        frames_of(sequences, length, reference_length).len() == sequences * (length - 1),
        0 <= s * (length - 1) + f - 1 < sequences * (length - 1),
        frames_of(sequences, length, reference_length)[s * (length - 1) + f - 1] == frame_of(
            s,
            f,
            length,
            reference_length,
        ),
    decreases sequences,
{
    let fewer = sequences - 1;
    assert(sequences * (length - 1) == fewer * (length - 1) + (length - 1)) by (nonlinear_arith)
        requires
            fewer == sequences - 1,
    ;
    assert(0 <= s * (length - 1)) by (nonlinear_arith)
        requires
            0 <= s,
            0 < length,
    ;
    if s < fewer {
        lemma_frames_of(fewer, length, reference_length, s, f);
    } else {
        lemma_frames_len(fewer, length, reference_length);
    }
}

proof fn lemma_frames_len(sequences: int, length: int, reference_length: int)
    requires
        0 <= sequences,
        0 < length,
    ensures
        frames_of(sequences, length, reference_length).len() == sequences * (length - 1),
    decreases sequences,
{
    let fewer = sequences - 1;
    if sequences > 0 {
        lemma_frames_len(fewer, length, reference_length);
        assert(sequences * (length - 1) == fewer * (length - 1) + (length - 1)) by (nonlinear_arith)
            requires
                fewer == sequences - 1,
        ;
    } else {
        assert(sequences * (length - 1) == 0) by (nonlinear_arith)
            requires
                sequences == 0,
        ;
    }
}

/// Every frame of a matched sequence but its first is scored, in order, against the
/// reference of its own place or against the only one that its sequence has. It is
/// lagged from the third frame on, and kept where it ends the first sequence.
pub proof fn frames_are_scored_against_their_reference(
    matched: Matched,
    length: usize,
    result: Vec<ScoredFrame>,
    s: int,
    f: int,
)
    requires
        length >= 2,
        matched.reference_length == 1 || matched.reference_length == length,
        matched.sequences * length <= usize::MAX,
        call_ensures(plan_frames, (matched, length), result),
        0 <= s < matched.sequences,
        0 < f < length,
    ensures
        result@.len() == matched.sequences * (length - 1),
        ({
            let frame = result@[s * (length - 1) + f - 1];
            &&& frame.index == s * length + f
            &&& matched.reference_length == length ==> frame.reference == frame.index
            &&& matched.reference_length == 1 ==> frame.reference == s
            &&& frame.lagged <==> f >= 2
            &&& frame.kept <==> s == 0 && f == length - 1
        }),
{
    let (n, l) = (matched.sequences as int, length as int);
    lemma_frames_of(n, l, matched.reference_length as int, s, f);
    assert(0 <= s * l && s * l + l <= n * l) by (nonlinear_arith)
        requires
            0 <= s < n,
            l >= 2,
    ;
    assert(s < n * l) by (nonlinear_arith)
        requires
            0 <= s < n,
            l >= 2,
    ;
}

/// A layout is accepted exactly if the extents agree and every plane that the
/// scoring reads is there.
pub proof fn layouts_have_what_is_read(
    data: Layout,
    reference: Layout,
    result: Result<(), LayoutError>,
)
    requires
        call_ensures(validate_layout, (&data, &reference), result),
    ensures
        result is Ok <==> {
            let (low, high) = (data.lr_planes@, data.hr_planes@);
            let other = reference.hr_planes@;
            &&& data.scale == reference.scale
            &&& data.lr_width == reference.lr_width
            &&& data.lr_height == reference.lr_height
            &&& other.contains(Plane::Color)
            &&& other.contains(Plane::DiffuseIllumination)
            &&& other.contains(Plane::SpecularRadiance)
            &&& low.contains(Plane::DiffuseIllumination)
            &&& low.contains(Plane::SpecularRadiance)
            &&& low.contains(Plane::EmissiveRadiance)
            &&& low.contains(Plane::Depth)
            &&& low.contains(Plane::Normal)
            &&& low.contains(Plane::DiffuseAlbedo)
            &&& high.contains(Plane::Color)
            &&& high.contains(Plane::Depth)
            &&& high.contains(Plane::Normal)
            &&& high.contains(Plane::DiffuseAlbedo)
            &&& high.contains(Plane::Roughness)
        },
        result matches Err(LayoutError::Reference(plane)) ==> !reference.hr_planes@.contains(plane),
        result matches Err(LayoutError::Low(plane)) ==> !data.lr_planes@.contains(plane),
        result matches Err(LayoutError::High(plane)) ==> !data.hr_planes@.contains(plane),
{
    reveal_with_fuel(first_missing, 7);
}

/// Texels of one block come from one candidate, and none has a lower error in that
/// block.
pub proof fn blocks_are_filled_from_the_best<T: Copy>(
    candidates: Vec<Vec<T>>,
    errors: Vec<Vec<u64>>,
    grid: Grid,
    result: BlockSelection<T>,
    x: int,
    y: int,
    k: int,
)
    requires
        grid.fits(),
        candidates@.len() > 0,
        errors@.len() == grid.blocks(),
        forall|b: int|
            0 <= b < errors@.len() ==> (#[trigger] errors@[b]).len() == candidates@.len(),
        forall|k: int|
            0 <= k < candidates@.len() ==> (#[trigger] candidates@[k]).len() == grid.width
                * grid.height * 3,
        call_ensures(choose_blocks::<T>, (&candidates, &errors, grid), result),
        0 <= x < grid.width,
        0 <= y < grid.height,
        0 <= k < candidates@.len(),
    ensures
        ({
            let i = y * grid.width + x;
            let across = (grid.width + grid.block - 1) / grid.block as int;
            let b = y / grid.block as int * across + x / grid.block as int;
            let best = result.labels@[b] as int;
            &&& 0 <= b < errors@.len()
            &&& 0 <= best < candidates@.len()
            &&& bits::total_rank64(errors@[b]@[best]) <= bits::total_rank64(errors@[b]@[k])
            &&& result.image@[i * 3] == candidates@[best]@[i * 3]
            &&& result.image@[i * 3 + 1] == candidates@[best]@[i * 3 + 1]
            &&& result.image@[i * 3 + 2] == candidates@[best]@[i * 3 + 2]
        }),
{
    let w = grid.width as int;
    let h = grid.height as int;
    let i = y * w + x;
    texels_have_blocks(x, y, w, h, grid.block as int);
    vstd::arithmetic::div_mod::lemma_fundamental_div_mod_converse(i, w, y, x);
    let b = block_of(x, y, w, grid.block as int);
    assert(grid.block_at(i) == b);
    assert(0 <= i < w * h) by (nonlinear_arith)
        requires
            0 <= x < w,
            0 <= y < h,
            i == y * w + x,
    ;
    assert(first_best(errors@[b]@, result.labels@[b] as int));
    assert(result.image@[i * 3 + 0] == candidates@[result.labels@[b] as int]@[i * 3 + 0]);
    assert(result.image@[i * 3 + 1] == candidates@[result.labels@[b] as int]@[i * 3 + 1]);
    assert(result.image@[i * 3 + 2] == candidates@[result.labels@[b] as int]@[i * 3 + 2]);
}

/// A histogram counts a texel for the candidate of its block, and for no other.
pub proof fn texels_count_for_their_candidate(
    labels: Seq<usize>,
    grid: Grid,
    candidate: int,
    x: int,
    y: int,
)
    requires
        grid.fits(),
        0 <= x < grid.width,
        0 <= y,
    ensures
        ({
            let i = y * grid.width + x;
            let across = (grid.width + grid.block - 1) / grid.block as int;
            let b = y / grid.block as int * across + x / grid.block as int;
            cells_of(labels, grid, candidate, i + 1) - cells_of(labels, grid, candidate, i) == if labels[b]
                == candidate {
                1int
            } else {
                0
            }
        }),
        cells_of(labels, grid, candidate, 0) == 0,
{
    let w = grid.width as int;
    let i = y * w + x;
    vstd::arithmetic::div_mod::lemma_fundamental_div_mod_converse(i, w, y, x);
    assert(0 <= i) by (nonlinear_arith)
        requires
            0 <= x < w,
            0 <= y,
            i == y * w + x,
    ;
}

/// What was asked for can be done: there is data, every block has texels, and where
/// sequences are counted one is wanted.
pub proof fn accepted_lines_ask_for_something(words: Vec<Word>, result: Result<Args, ArgsError>)
    requires
        call_ensures(parse_args, (&words,), result),
    ensures
        result matches Ok(args) ==> {
            &&& args.data is Some
            &&& args.blocks@.len() > 0
            &&& forall|i: int| 0 <= i < args.blocks@.len() ==> #[trigger] args.blocks@[i] > 0
            &&& args.max_sequences != Some(0usize)
        },
{
    if result is Ok {
        let s = line_settings(words@)->Ok_0;
        let args = result->Ok_0;
        assert(refusal(s) is None);
        assert(follows(args, s));
        assert(!args.blocks@.contains(0)) by {
            assert(args.blocks@ == options::list_or(s, BLOCKS, seq![4u64, 8, 16, 32]));
        }
        assert forall|i: int| 0 <= i < args.blocks@.len() implies #[trigger] args.blocks@[i]
            > 0 by {
            if args.blocks@[i] == 0 {
                assert(args.blocks@.contains(0));
            }
        }
    }
}

} // verus!
