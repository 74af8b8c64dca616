//! Fitting and scoring the reconstructor on whole sequences.
use vstd::prelude::*;

use crate::bits;
use crate::bits::{is_equal32, is_finite32, is_less32};
use crate::options;
use crate::options::{
    all_texts, is_given, last_device, last_integer, last_real, last_text, last_text_or, scan,
    Fault, FaultView, Kind, KindView, Opt, OptView, Setting, SettingView, Word,
};
use crate::paths;
use crate::paths::join_path;
use crate::text;
use crate::text::{decimal3_text, decimal_text, join2, join3, join5};

verus! {

/// How the tool is called.
pub const USAGE: &'static str = "\
transport --data TRAIN.omd --eval-data DEV.omd --out DIR
  --steps N [4000] --unroll N [2] --channels N [16] --seed N [7]
  --lr F [0.0003] --eval-every N [500] --device-id ID
  --checkpoint FILE (weights-only warm start, or evaluation input)
  --eval-only (loads checkpoint sidecar; evaluation resolution may differ)
  --reset-history (eval-only diagnostic: reset the model before every frame)
  --save-lobes (save diffuse/specular images alongside per-frame diagnostics)
  --compressed-weight F [1] --physical-weight F [0.005]
  --low-frequency-weight F [0.01] --temporal-weight F [0.02]
  --lobe-weight F [0.5] (absolute diffuse/specular supervision)
Repeat data arguments for multiple captures. Training and development scene
seeds/catalog families must be disjoint. Use a separate final audit split.";

/// The option `--eval-only`.
pub const EVAL_ONLY: u32 = 0;

/// The option `--reset-history`.
pub const RESET_HISTORY: u32 = 1;

/// The option `--save-lobes`.
pub const SAVE_LOBES: u32 = 2;

/// The option `--data`.
pub const DATA: u32 = 3;

/// The option `--eval-data`.
pub const EVAL_DATA: u32 = 4;

/// The option `--out`.
pub const OUT: u32 = 5;

/// The option `--steps`.
pub const STEPS: u32 = 6;

/// The option `--unroll`.
pub const UNROLL: u32 = 7;

/// The option `--channels`.
pub const CHANNELS: u32 = 8;

/// The option `--seed`.
pub const SEED: u32 = 9;

/// The option `--lr`.
pub const LR: u32 = 10;

/// The option `--eval-every`.
pub const EVAL_EVERY: u32 = 11;

/// The option `--checkpoint`.
pub const CHECKPOINT: u32 = 12;

/// The option `--device-id`.
pub const DEVICE_ID: u32 = 13;

/// The option `--compressed-weight`.
pub const COMPRESSED_WEIGHT: u32 = 14;

/// The option `--physical-weight`.
pub const PHYSICAL_WEIGHT: u32 = 15;

/// The option `--low-frequency-weight`.
pub const LOW_FREQUENCY_WEIGHT: u32 = 16;

/// The option `--temporal-weight`.
pub const TEMPORAL_WEIGHT: u32 = 17;

/// The option `--lobe-weight`.
pub const LOBE_WEIGHT: u32 = 18;

/// What asks for the usage text.
pub const HELP: u32 = 19;

/// What the tool was asked to do. Real numbers stand as the bits of an `f32`.
#[derive(Debug)]
pub struct Args {
    pub eval_only: bool,
    pub reset_history: bool,
    pub save_lobes: bool,
    pub data: Vec<String>,
    pub eval: Vec<String>,
    pub out: String,
    pub steps: usize,
    pub unroll: usize,
    pub channels: u32,
    pub seed: u64,
    pub rate: u32,
    pub eval_every: usize,
    pub checkpoint: Option<String>,
    pub device_id: Option<u32>,
    pub compressed_weight: u32,
    pub physical_weight: u32,
    pub low_frequency_weight: u32,
    pub temporal_weight: u32,
    pub lobe_weight: u32,
}

/// The options of the tool.
pub open spec fn option_table() -> Seq<OptView> {
    seq![
        OptView { name: "--help"@, id: HELP, kind: KindView::Help },
        OptView { name: "--eval-only"@, id: EVAL_ONLY, kind: KindView::Switch },
        OptView { name: "--reset-history"@, id: RESET_HISTORY, kind: KindView::Switch },
        OptView { name: "--save-lobes"@, id: SAVE_LOBES, kind: KindView::Switch },
        OptView { name: "--data"@, id: DATA, kind: KindView::Text },
        OptView { name: "--eval-data"@, id: EVAL_DATA, kind: KindView::Text },
        OptView { name: "--out"@, id: OUT, kind: KindView::Text },
        OptView { name: "--steps"@, id: STEPS, kind: KindView::Integer(usize::MAX as u64) },
        OptView { name: "--unroll"@, id: UNROLL, kind: KindView::Integer(usize::MAX as u64) },
        OptView { name: "--channels"@, id: CHANNELS, kind: KindView::Integer(u32::MAX as u64) },
        OptView { name: "--seed"@, id: SEED, kind: KindView::Integer(u64::MAX) },
        OptView { name: "--lr"@, id: LR, kind: KindView::Real },
        OptView { name: "--eval-every"@, id: EVAL_EVERY, kind: KindView::Integer(usize::MAX as u64) },
        OptView { name: "--checkpoint"@, id: CHECKPOINT, kind: KindView::Text },
        OptView { name: "--device-id"@, id: DEVICE_ID, kind: KindView::Device },
        OptView { name: "--compressed-weight"@, id: COMPRESSED_WEIGHT, kind: KindView::Real },
        OptView { name: "--physical-weight"@, id: PHYSICAL_WEIGHT, kind: KindView::Real },
        OptView { name: "--low-frequency-weight"@, id: LOW_FREQUENCY_WEIGHT, kind: KindView::Real },
        OptView { name: "--temporal-weight"@, id: TEMPORAL_WEIGHT, kind: KindView::Real },
        OptView { name: "--lobe-weight"@, id: LOBE_WEIGHT, kind: KindView::Real },
    ]
}

/// The options of the tool.
fn options_list() -> (result: Vec<Opt>)
    ensures
        options::table_view(result@) == option_table(),
{
    let result: Vec<Opt> = vec![
        Opt { name: "--help", id: HELP, kind: Kind::Help },
        Opt { name: "--eval-only", id: EVAL_ONLY, kind: Kind::Switch },
        Opt { name: "--reset-history", id: RESET_HISTORY, kind: Kind::Switch },
        Opt { name: "--save-lobes", id: SAVE_LOBES, kind: Kind::Switch },
        Opt { name: "--data", id: DATA, kind: Kind::Text },
        Opt { name: "--eval-data", id: EVAL_DATA, kind: Kind::Text },
        Opt { name: "--out", id: OUT, kind: Kind::Text },
        Opt { name: "--steps", id: STEPS, kind: Kind::Integer(usize::MAX as u64) },
        Opt { name: "--unroll", id: UNROLL, kind: Kind::Integer(usize::MAX as u64) },
        Opt { name: "--channels", id: CHANNELS, kind: Kind::Integer(u32::MAX as u64) },
        Opt { name: "--seed", id: SEED, kind: Kind::Integer(u64::MAX) },
        Opt { name: "--lr", id: LR, kind: Kind::Real },
        Opt { name: "--eval-every", id: EVAL_EVERY, kind: Kind::Integer(usize::MAX as u64) },
        Opt { name: "--checkpoint", id: CHECKPOINT, kind: Kind::Text },
        Opt { name: "--device-id", id: DEVICE_ID, kind: Kind::Device },
        Opt { name: "--compressed-weight", id: COMPRESSED_WEIGHT, kind: Kind::Real },
        Opt { name: "--physical-weight", id: PHYSICAL_WEIGHT, kind: Kind::Real },
        Opt { name: "--low-frequency-weight", id: LOW_FREQUENCY_WEIGHT, kind: Kind::Real },
        Opt { name: "--temporal-weight", id: TEMPORAL_WEIGHT, kind: Kind::Real },
        Opt { name: "--lobe-weight", id: LOBE_WEIGHT, kind: Kind::Real },
    ];
    assert(options::table_view(result@) =~= option_table());
    result
}

/// The settings that a command line gives the tool.
pub open spec fn line_settings(words: Seq<Word>) -> Result<Seq<SettingView>, FaultView> {
    options::scanned(options::words_view(words), option_table(), true, 0, Seq::empty())
}

/// Each value is the last one given, or else the default.
pub open spec fn follows(args: Args, s: Seq<SettingView>) -> bool {
    &&& args.eval_only == options::given(s, EVAL_ONLY)
    &&& args.reset_history == options::given(s, RESET_HISTORY)
    &&& args.save_lobes == options::given(s, SAVE_LOBES)
    &&& options::texts_view(args.data@) == options::texts_given(s, DATA)
    &&& options::texts_view(args.eval@) == options::texts_given(s, EVAL_DATA)
    &&& args.out@ == options::text_or(s, OUT, "runs/transport"@)
    &&& args.steps == options::integer_or(s, STEPS, 4000) as usize
    &&& args.unroll == options::integer_or(s, UNROLL, 2) as usize
    &&& args.channels == options::integer_or(s, CHANNELS, 16) as u32
    &&& args.seed == options::integer_or(s, SEED, 7)
    &&& args.rate == options::real_or(s, LR, 0x399d_4952)
    &&& args.eval_every == options::integer_or(s, EVAL_EVERY, 500) as usize
    &&& options::text_option(args.checkpoint) == options::text_given(s, CHECKPOINT)
    &&& args.device_id == options::device_given(s, DEVICE_ID)
    &&& args.compressed_weight == options::real_or(s, COMPRESSED_WEIGHT, 0x3f80_0000)
    &&& args.physical_weight == options::real_or(s, PHYSICAL_WEIGHT, 0x3ba3_d70a)
    &&& args.low_frequency_weight == options::real_or(s, LOW_FREQUENCY_WEIGHT, 0x3c23_d70a)
    &&& args.temporal_weight == options::real_or(s, TEMPORAL_WEIGHT, 0x3ca3_d70a)
    &&& args.lobe_weight == options::real_or(s, LOBE_WEIGHT, 0x3f00_0000)
}

/// Sets each value from the last one given, or else the default.
fn collect(settings: &Vec<Setting>) -> (result: Args)
    ensures
        follows(result, options::settings_view(settings@)),
{
    Args {
        eval_only: is_given(settings, EVAL_ONLY),
        reset_history: is_given(settings, RESET_HISTORY),
        save_lobes: is_given(settings, SAVE_LOBES),
        data: all_texts(settings, DATA),
        eval: all_texts(settings, EVAL_DATA),
        out: last_text_or(settings, OUT, "runs/transport"),
        steps: last_integer(settings, STEPS, 4000) as usize,
        unroll: last_integer(settings, UNROLL, 2) as usize,
        channels: last_integer(settings, CHANNELS, 16) as u32,
        seed: last_integer(settings, SEED, 7),
        rate: last_real(settings, LR, 0x399d_4952),
        eval_every: last_integer(settings, EVAL_EVERY, 500) as usize,
        checkpoint: last_text(settings, CHECKPOINT),
        device_id: last_device(settings, DEVICE_ID),
        compressed_weight: last_real(settings, COMPRESSED_WEIGHT, 0x3f80_0000),
        physical_weight: last_real(settings, PHYSICAL_WEIGHT, 0x3ba3_d70a),
        low_frequency_weight: last_real(settings, LOW_FREQUENCY_WEIGHT, 0x3c23_d70a),
        temporal_weight: last_real(settings, TEMPORAL_WEIGHT, 0x3ca3_d70a),
        lobe_weight: last_real(settings, LOBE_WEIGHT, 0x3f00_0000),
    }
}

/// Reads the command line.
pub fn parse_args(words: &Vec<Word>) -> (result: Result<Args, Fault>)
    ensures
        match line_settings(words@) {
            Err(fault) => result matches Err(f) && f@ == fault,
            Ok(settings) => result matches Ok(args) && follows(args, settings),
        },
{
    let table = options_list();
    match scan(words, &table, true) {
        Err(fault) => Err(fault),
        Ok(settings) => Ok(collect(&settings)),
    }
}

/// Why a run does not start.
#[derive(Clone, Copy, Debug, PartialEq, Eq, Structural)]
pub enum StartError {
    /// The weights of the loss do not do.
    Weights,
    /// History is reset outside of an evaluation.
    ResetHistory,
    /// A checkpoint would be overwritten.
    Overwrite,
    /// The unroll, the step count or the learning rate does not do.
    Numbers,
    /// There is nothing to evaluate.
    NoEvaluation,
    /// There is nothing to train on.
    NoData,
    /// A sequence is shorter than the unroll, or the extents differ.
    Sequences,
}

impl StartError {
    /// What is said of it.
    pub open spec fn said(self) -> Seq<char> {
        match self {
            StartError::Weights => "invalid loss weights"@,
            StartError::ResetHistory => "--reset-history is an evaluation-only diagnostic"@,
            StartError::Overwrite => "refusing to overwrite an existing checkpoint"@,
            StartError::Numbers => "invalid unroll, step count or learning rate"@,
            StartError::NoEvaluation => "--eval-data required"@,
            StartError::NoData => "--data required"@,
            StartError::Sequences => "unroll exceeds sequence or extents differ"@,
        }
    }

    /// Says why in words.
    pub fn words(self) -> (result: &'static str)
        ensures
            result@ == self.said(),
    {
        match self {
            StartError::Weights => "invalid loss weights",
            StartError::ResetHistory => "--reset-history is an evaluation-only diagnostic",
            StartError::Overwrite => "refusing to overwrite an existing checkpoint",
            StartError::Numbers => "invalid unroll, step count or learning rate",
            StartError::NoEvaluation => "--eval-data required",
            StartError::NoData => "--data required",
            StartError::Sequences => "unroll exceeds sequence or extents differ",
        }
    }
}

/// What keeps a run from starting before anything is read: the first of these
/// that holds.
pub open spec fn start_fault(args: Args, weights_valid: bool, checkpoint_exists: bool) -> Option<
    StartError,
> {
    if !weights_valid {
        Some(StartError::Weights)
    } else if args.reset_history && !args.eval_only {
        Some(StartError::ResetHistory)
    } else if !args.eval_only && checkpoint_exists {
        Some(StartError::Overwrite)
    } else if !(1 <= args.unroll <= 8) || !bits::finite32(args.rate) || !bits::less32(0, args.rate)
        || args.steps == 0 {
        Some(StartError::Numbers)
    } else {
        None
    }
}

/// Checks a run before anything is read.
pub fn check_start(args: &Args, weights_valid: bool, checkpoint_exists: bool) -> (result: Result<
    (),
    StartError,
>)
    ensures
        match start_fault(*args, weights_valid, checkpoint_exists) {
            Some(error) => result == Err::<(), StartError>(error),
            None => result is Ok,
        },
{
    if !weights_valid {
        return Err(StartError::Weights);
    }
    if args.reset_history && !args.eval_only {
        return Err(StartError::ResetHistory);
    }
    if !args.eval_only && checkpoint_exists {
        return Err(StartError::Overwrite);
    }
    if args.unroll < 1 || args.unroll > 8 || !is_finite32(args.rate) || !is_less32(0, args.rate)
        || args.steps == 0 {
        return Err(StartError::Numbers);
    }
    Ok(())
}

/// Where the weights of a run are written.
pub fn checkpoint_path(out: &str) -> (result: String)
    ensures
        result@ == paths::joined(out@, "model.safetensors"@),
{
    join_path(out, "model.safetensors")
}

/// The checkpoint that a run reads: the one it is given, and where it only
/// evaluates, else the one it would have written.
pub fn checkpoint_input(args: &Args) -> (result: Option<String>)
    ensures
        options::text_option(result) == match args.checkpoint {
            Some(path) => Some(path@),
            None => if args.eval_only {
                Some(paths::joined(args.out@, "model.safetensors"@))
            } else {
                None
            },
        },
{
    match &args.checkpoint {
        Some(path) => Some(path.clone()),
        None => if args.eval_only {
            Some(checkpoint_path(args.out.as_str()))
        } else {
            None
        },
    }
}

/// Checks that there is something to evaluate, and to train on where that is
/// asked for.
pub fn check_data(args: &Args) -> (result: Result<(), StartError>)
    ensures
        if args.eval.len() == 0 {
            result == Err::<(), StartError>(StartError::NoEvaluation)
        } else if !args.eval_only && args.data.len() == 0 {
            result == Err::<(), StartError>(StartError::NoData)
        } else {
            result is Ok
        },
{
    if args.eval.len() == 0 {
        return Err(StartError::NoEvaluation);
    }
    if !args.eval_only && args.data.len() == 0 {
        return Err(StartError::NoData);
    }
    Ok(())
}

/// Checks that the frames to train on suit the run: a sequence holds the
/// unroll, and all inputs have the extent of the evaluation.
pub fn check_training(
    unroll: usize,
    length: usize,
    extents: &Vec<(u32, u32)>,
    extent: (u32, u32),
) -> (result: Result<(), StartError>)
    ensures
        if unroll <= length && forall|i: int|
            0 <= i < extents.len() ==> #[trigger] extents@[i] == extent {
            result is Ok
        } else {
            result == Err::<(), StartError>(StartError::Sequences)
        },
{
    if unroll > length {
        return Err(StartError::Sequences);
    }
    let mut i: usize = 0;
    while i < extents.len()
        invariant
            i <= extents.len(),
            unroll <= length,
            forall|j: int| 0 <= j < i ==> #[trigger] extents@[j] == extent,
        decreases extents.len() - i,
    {
        if extents[i].0 != extent.0 || extents[i].1 != extent.1 {
            assert(extents@[i as int] != extent);
            return Err(StartError::Sequences);
        }
        i = i + 1;
    }
    Ok(())
}

/// What one frame of an evaluation takes.
#[derive(Clone, Copy, Debug, PartialEq, Eq, Structural)]
pub struct FramePlan {
    pub sequence: usize,
    pub frame: usize,
    /// The models forget what they saw.
    pub reset: bool,
    /// The frame is held against the one before.
    pub compare: bool,
}

/// What frame `index` of an evaluation takes.
pub open spec fn frame_plan(index: int, length: int, reset_history: bool) -> FramePlan {
    FramePlan {
        sequence: (index / length) as usize,
        frame: (index % length) as usize,
        reset: index % length == 0 || reset_history,
        compare: index % length != 0,
    }
}

/// Plans frame `index` of an evaluation.
pub fn plan_frame(index: usize, length: usize, reset_history: bool) -> (result: FramePlan)
    requires
        length > 0,
    ensures
        result == frame_plan(index as int, length as int, reset_history),
{
    let frame: usize = index % length;
    FramePlan {
        sequence: index / length,
        frame,
        reset: frame == 0 || reset_history,
        compare: frame != 0,
    }
}

/// What two models made of a frame: whether their pictures are finite, where
/// their history was rejected, and whether it could be held against the frame
/// before.
#[derive(Debug)]
pub struct FrameFacts {
    pub finite: (bool, bool),
    pub rejected: (Vec<bool>, Vec<bool>),
    pub temporal: (bool, bool),
}

/// What was counted of one model.
#[derive(Clone, Copy, Debug, PartialEq, Eq, Structural)]
pub struct Tally {
    pub frames: usize,
    pub resets: usize,
    pub temporal_frames: usize,
    pub history_pixels: usize,
    pub rejected_pixels: usize,
}

/// What is counted, without a bound.
pub struct TallyView {
    pub frames: int,
    pub resets: int,
    pub temporal_frames: int,
    pub history_pixels: int,
    pub rejected_pixels: int,
}

impl View for Tally {
    type V = TallyView;

    open spec fn view(&self) -> TallyView {
        TallyView {
            frames: self.frames as int,
            resets: self.resets as int,
            temporal_frames: self.temporal_frames as int,
            history_pixels: self.history_pixels as int,
            rejected_pixels: self.rejected_pixels as int,
        }
    }
}

/// How many of the first `k` are marked.
pub open spec fn marked(mask: Seq<bool>, k: int) -> int
    decreases k,
{
    if k <= 0 {
        0
    } else {
        marked(mask, k - 1) + if mask[k - 1] {
            1int
        } else {
            0
        }
    }
}

/// Of how many pixels the history was asked for, and how many rejected it: none
/// where the models had forgotten it.
pub open spec fn history_of(mask: Seq<bool>, reset: bool) -> (int, int) {
    if reset {
        (0, 0)
    } else {
        (mask.len() as int, marked(mask, mask.len() as int))
    }
}

/// What a frame adds to a count.
pub open spec fn tallied(t: TallyView, plan: FramePlan, mask: Seq<bool>, temporal: bool) -> TallyView {
    TallyView {
        frames: t.frames + 1,
        resets: t.resets + if plan.reset {
            1int
        } else {
            0
        },
        temporal_frames: t.temporal_frames + if plan.compare && temporal {
            1int
        } else {
            0
        },
        history_pixels: t.history_pixels + history_of(mask, plan.reset).0,
        rejected_pixels: t.rejected_pixels + history_of(mask, plan.reset).1,
    }
}

/// What is counted of a model over the first `k` frames: the baseline, or the
/// learned one.
pub open spec fn counted(
    facts: Seq<FrameFacts>,
    length: int,
    reset_history: bool,
    learned: bool,
    k: int,
) -> TallyView
    decreases k,
{
    if k <= 0 {
        TallyView {
            frames: 0,
            resets: 0,
            temporal_frames: 0,
            history_pixels: 0,
            rejected_pixels: 0,
        }
    } else {
        let f = facts[k - 1];
        tallied(
            counted(facts, length, reset_history, learned, k - 1),
            frame_plan(k - 1, length, reset_history),
            if learned {
                f.rejected.1@
            } else {
                f.rejected.0@
            },
            if learned {
                f.temporal.1
            } else {
                f.temporal.0
            },
        )
    }
}

/// How many pixels the first `k` frames have in masks.
pub open spec fn mask_pixels(facts: Seq<FrameFacts>, k: int) -> int
    decreases k,
{
    if k <= 0 {
        0
    } else {
        mask_pixels(facts, k - 1) + facts[k - 1].rejected.0.len() + facts[k - 1].rejected.1.len()
    }
}

proof fn lemma_mask_pixels(facts: Seq<FrameFacts>, j: int, k: int)
    requires
        0 <= j <= k,
    ensures
        0 <= mask_pixels(facts, j) <= mask_pixels(facts, k),
    decreases k,
{
    if j < k {
        lemma_mask_pixels(facts, j, k - 1);
    } else if j > 0 {
        lemma_mask_pixels(facts, j - 1, j - 1);
    }
}

proof fn lemma_marked(mask: Seq<bool>, k: int)
    requires
        0 <= k <= mask.len(),
    ensures
        0 <= marked(mask, k) <= k,
    decreases k,
{
    if k > 0 {
        lemma_marked(mask, k - 1);
    }
}

/// Counts what is marked.
fn count_marked(mask: &Vec<bool>) -> (result: usize)
    ensures
        result == marked(mask@, mask.len() as int),
        result <= mask.len(),
{
    let mut count: usize = 0;
    let mut i: usize = 0;
    while i < mask.len()
        invariant
            i <= mask.len(),
            count == marked(mask@, i as int),
            count <= i,
        decreases mask.len() - i,
    {
        if mask[i] {
            count = count + 1;
        }
        i = i + 1;
    }
    count
}

/// Adds a frame to a count.
fn add_frame(t: Tally, plan: FramePlan, mask: &Vec<bool>, temporal: bool) -> (result: Tally)
    requires
        t.frames < usize::MAX,
        t.resets < usize::MAX,
        t.temporal_frames < usize::MAX,
        t.rejected_pixels <= t.history_pixels,
        t.history_pixels + mask.len() <= usize::MAX,
    ensures
        result@ == tallied(t@, plan, mask@, temporal),
        result.rejected_pixels <= result.history_pixels,
        result.history_pixels <= t.history_pixels + mask.len(),
        result.resets <= t.resets + 1,
        result.temporal_frames <= t.temporal_frames + 1,
{
    let marked_pixels: usize = count_marked(mask);
    let (asked, rejected): (usize, usize) = if plan.reset {
        (0, 0)
    } else {
        (mask.len(), marked_pixels)
    };
    Tally {
        frames: t.frames + 1,
        resets: t.resets + if plan.reset {
            1
        } else {
            0
        },
        temporal_frames: t.temporal_frames + if plan.compare && temporal {
            1
        } else {
            0
        },
        history_pixels: t.history_pixels + asked,
        rejected_pixels: t.rejected_pixels + rejected,
    }
}

/// What an evaluation counted of the baseline and of the learned model.
#[derive(Clone, Copy, Debug, PartialEq, Eq, Structural)]
pub struct Evaluation {
    pub baseline: Tally,
    pub learned: Tally,
}

/// Whether all pictures of a frame are finite.
pub open spec fn all_finite(f: FrameFacts) -> bool {
    f.finite.0 && f.finite.1
}

/// Counts what an evaluation scores. It fails at the first frame of which a
/// picture is not finite, and says which.
pub fn evaluate(facts: &Vec<FrameFacts>, length: usize, reset_history: bool) -> (result: Result<
    Evaluation,
    usize,
>)
    requires
        length > 0,
        mask_pixels(facts@, facts.len() as int) <= usize::MAX,
    ensures
        match result {
            Ok(e) => {
                &&& forall|i: int| 0 <= i < facts.len() ==> all_finite(#[trigger] facts@[i])
                &&& e.baseline@ == counted(
                    facts@,
                    length as int,
                    reset_history,
                    false,
                    facts.len() as int,
                )
                &&& e.learned@ == counted(
                    facts@,
                    length as int,
                    reset_history,
                    true,
                    facts.len() as int,
                )
            },
            Err(at) => {
                &&& at < facts.len()
                &&& !all_finite(facts@[at as int])
                &&& forall|i: int| 0 <= i < at ==> all_finite(#[trigger] facts@[i])
            },
        },
{
    let none = Tally {
        frames: 0,
        resets: 0,
        temporal_frames: 0,
        history_pixels: 0,
        rejected_pixels: 0,
    };
    let mut baseline = none;
    let mut learned = none;
    let mut i: usize = 0;
    while i < facts.len()
        invariant
            i <= facts.len(),
            length > 0,
            mask_pixels(facts@, facts.len() as int) <= usize::MAX,
            baseline.frames == i,
            learned.frames == i,
            baseline.resets <= i,
            learned.resets <= i,
            baseline.temporal_frames <= i,
            learned.temporal_frames <= i,
            baseline.rejected_pixels <= baseline.history_pixels <= mask_pixels(facts@, i as int),
            learned.rejected_pixels <= learned.history_pixels <= mask_pixels(facts@, i as int),
            baseline@ == counted(facts@, length as int, reset_history, false, i as int),
            learned@ == counted(facts@, length as int, reset_history, true, i as int),
            forall|j: int| 0 <= j < i ==> all_finite(#[trigger] facts@[j]),
        decreases facts.len() - i,
    {
        let f = &facts[i];
        if !f.finite.0 || !f.finite.1 {
            return Err(i);
        }
        proof {
            lemma_mask_pixels(facts@, i + 1, facts.len() as int);
        }
        let plan = plan_frame(i, length, reset_history);
        baseline = add_frame(baseline, plan, &f.rejected.0, f.temporal.0);
        learned = add_frame(learned, plan, &f.rejected.1, f.temporal.1);
        i = i + 1;
    }
    Ok(Evaluation { baseline, learned })
}

/// An evaluation that resets history before every frame asks for none of it.
pub proof fn reset_evaluations_have_no_history(
    facts: Seq<FrameFacts>,
    length: int,
    learned: bool,
    k: int,
)
    requires
        0 <= k,
    ensures
        counted(facts, length, true, learned, k).frames == k,
        counted(facts, length, true, learned, k).resets == k,
        counted(facts, length, true, learned, k).history_pixels == 0,
        counted(facts, length, true, learned, k).rejected_pixels == 0,
    decreases k,
{
    if k > 0 {
        reset_evaluations_have_no_history(facts, length, learned, k - 1);
    }
}

/// No frame is held against one of another sequence.
pub proof fn comparisons_stay_in_a_sequence(index: int, length: int, reset_history: bool)
    requires
        0 < index,
        0 < length,
        frame_plan(index, length, reset_history).compare,
    ensures
        index / length == (index - 1) / length,
        index % length == (index - 1) % length + 1,
{
    vstd::arithmetic::div_mod::lemma_fundamental_div_mod(index, length);
    let (q, r) = (index / length, index % length);
    assert(index - 1 == q * length + (r - 1)) by (nonlinear_arith)
        requires
            index == length * q + r,
    ;
    vstd::arithmetic::div_mod::lemma_fundamental_div_mod_converse(index - 1, length, q, r - 1);
}

/// What the files of a frame begin with.
pub open spec fn prefix(sequence: int, frame: int) -> Seq<char> {
    text::decimal3(sequence as nat) + "-"@ + text::decimal3(frame as nat)
}

/// What the files of a frame begin with.
pub fn frame_prefix(sequence: usize, frame: usize) -> (result: String)
    ensures
        result@ == prefix(sequence as int, frame as int),
{
    join3(
        decimal3_text(sequence as u64).as_str(),
        "-",
        decimal3_text(frame as u64).as_str(),
    )
}

/// The name of a picture of a lobe.
pub open spec fn lobe_file(start: Seq<char>, model: Seq<char>, file: Seq<char>) -> Seq<char> {
    start + "-"@ + model + "-"@ + file
}

/// The names of the pictures of a frame, in the order they are written: the
/// lobes of the baseline, the learned model and the reference where they are
/// asked for, then what each of the three shows.
pub open spec fn frame_files(start: Seq<char>, save_lobes: bool) -> Seq<Seq<char>> {
    (if save_lobes {
        seq![
            lobe_file(start, "baseline"@, "diffuse.png"@),
            lobe_file(start, "baseline"@, "specular.png"@),
            lobe_file(start, "learned"@, "diffuse.png"@),
            lobe_file(start, "learned"@, "specular.png"@),
            lobe_file(start, "reference"@, "diffuse.png"@),
            lobe_file(start, "reference"@, "specular.png"@),
        ]
    } else {
        seq![]
    }) + seq![
        start + "-"@ + "base.png"@,
        start + "-"@ + "learned.png"@,
        start + "-"@ + "reference.png"@,
    ]
}

/// Adds the pictures of the lobes of a model.
fn add_lobes(files: &mut Vec<String>, start: &str, model: &str)
    ensures
        options::texts_view(final(files)@) == options::texts_view(old(files)@) + seq![
            lobe_file(start@, model@, "diffuse.png"@),
            lobe_file(start@, model@, "specular.png"@),
        ],
{
    files.push(join5(start, "-", model, "-", "diffuse.png"));
    files.push(join5(start, "-", model, "-", "specular.png"));
    assert(options::texts_view(files@) =~= options::texts_view(old(files)@) + seq![
        lobe_file(start@, model@, "diffuse.png"@),
        lobe_file(start@, model@, "specular.png"@),
    ]);
}

/// Names the pictures of a frame.
pub fn name_files(start: &str, save_lobes: bool) -> (result: Vec<String>)
    ensures
        options::texts_view(result@) == frame_files(start@, save_lobes),
{
    let mut files: Vec<String> = Vec::new();
    assert(options::texts_view(files@) =~= seq![]);
    if save_lobes {
        add_lobes(&mut files, start, "baseline");
        add_lobes(&mut files, start, "learned");
        add_lobes(&mut files, start, "reference");
    }
    let ghost before = options::texts_view(files@);
    files.push(join3(start, "-", "base.png"));
    files.push(join3(start, "-", "learned.png"));
    files.push(join3(start, "-", "reference.png"));
    proof {
        assert(options::texts_view(files@) =~= before + seq![
            start@ + "-"@ + "base.png"@,
            start@ + "-"@ + "learned.png"@,
            start@ + "-"@ + "reference.png"@,
        ]);
        assert(options::texts_view(files@) =~= frame_files(start@, save_lobes));
    }
    files
}

/// Whether a value marks history that was found.
pub open spec fn valid_mark(value: u32) -> bool {
    bits::equal32(value, 0) || bits::equal32(value, bits::ONE32)
}

/// Marks the pixels whose history was not found in either lobe. The values of
/// lobe `l` and pixel `i` stand where place `l * n + i` of the table says.
pub fn rejected_history_mask(validity: &[u32], table: &[usize], n: usize) -> (result: Vec<bool>)
    requires
        2 * n <= usize::MAX,
        validity@.len() == 2 * n,
        table@.len() == 2 * n,
        forall|j: int| 0 <= j < 2 * n ==> #[trigger] table@[j] < 2 * n,
        forall|j: int| 0 <= j < 2 * n ==> valid_mark(#[trigger] validity@[j]),
    ensures
        result@.len() == n,
        forall|i: int|
            0 <= i < n ==> #[trigger] result@[i] == (bits::equal32(
                validity@[table@[i] as int],
                0,
            ) || bits::equal32(validity@[table@[n + i] as int], 0)),
{
    let mut mask: Vec<bool> = Vec::new();
    let mut i: usize = 0;
    while i < n
        invariant
            i <= n,
            2 * n <= usize::MAX,
            validity@.len() == 2 * n,
            table@.len() == 2 * n,
            forall|j: int| 0 <= j < 2 * n ==> #[trigger] table@[j] < 2 * n,
            mask@.len() == i,
            forall|j: int|
                0 <= j < i ==> #[trigger] mask@[j] == (bits::equal32(
                    validity@[table@[j] as int],
                    0,
                ) || bits::equal32(validity@[table@[n + j] as int], 0)),
        decreases n - i,
    {
        let first: usize = table[i];
        let second: usize = table[n + i];
        mask.push(is_equal32(validity[first], 0) || is_equal32(validity[second], 0));
        i = i + 1;
    }
    mask
}

/// Reads a lobe out of its packing: the value of channel `c` of pixel `i` stands
/// where place `(3 * lobe + c) * n + i` of the table says.
pub fn unpack_lobe<T: Copy>(values: &[T], table: &[usize], n: usize, lobe: usize) -> (result: Vec<T>)
    requires
        lobe < 2,
        6 * n <= usize::MAX,
        values@.len() == 6 * n,
        table@.len() == 6 * n,
        forall|j: int| 0 <= j < 6 * n ==> #[trigger] table@[j] < 6 * n,
    ensures
        result@.len() == 3 * n,
        forall|k: int|
            0 <= k < 3 * n ==> #[trigger] result@[k] == values@[table@[(3 * lobe + k % 3) * n + k
                / 3] as int],
{
    let mut out: Vec<T> = Vec::new();
    let mut k: usize = 0;
    while k < 3 * n
        invariant
            k <= 3 * n,
            lobe < 2,
            6 * n <= usize::MAX,
            values@.len() == 6 * n,
            table@.len() == 6 * n,
            forall|j: int| 0 <= j < 6 * n ==> #[trigger] table@[j] < 6 * n,
            out@.len() == k,
            forall|j: int|
                0 <= j < k ==> #[trigger] out@[j] == values@[table@[(3 * lobe + j % 3) * n + j
                    / 3] as int],
        decreases 3 * n - k,
    {
        let channel: usize = 3 * lobe + k % 3;
        assert(channel <= 5);
        assert(channel * n + k / 3 < 6 * n && channel * n <= 5 * n) by (nonlinear_arith)
            requires
                channel <= 5,
                k < 3 * n,
        ;
        let at: usize = table[channel * n + k / 3];
        out.push(values[at]);
        k = k + 1;
    }
    out
}

/// The two lobes of a reference.
pub fn reference_lobes<T: Copy>(values: &[T], table: &[usize], n: usize) -> (result: (
    Vec<T>,
    Vec<T>,
))
    requires
        6 * n <= usize::MAX,
        values@.len() == 6 * n,
        table@.len() == 6 * n,
        forall|j: int| 0 <= j < 6 * n ==> #[trigger] table@[j] < 6 * n,
    ensures
        result.0@.len() == 3 * n,
        result.1@.len() == 3 * n,
        forall|k: int|
            0 <= k < 3 * n ==> #[trigger] result.0@[k] == values@[table@[(k % 3) * n + k
                / 3] as int],
        forall|k: int|
            0 <= k < 3 * n ==> #[trigger] result.1@[k] == values@[table@[(3 + k % 3) * n + k
                / 3] as int],
{
    let diffuse = unpack_lobe(values, table, n, 0);
    let specular = unpack_lobe(values, table, n, 1);
    (diffuse, specular)
}

/// What one update of the weights takes.
#[derive(Clone, Copy, Debug, PartialEq, Eq, Structural)]
pub struct UpdatePlan {
    /// The first frame of the sequence.
    pub offset: usize,
    /// How many frames are run before the first that is fitted.
    pub start: usize,
    /// Progress is reported.
    pub log: bool,
    /// The weights are saved and scored.
    pub score: bool,
}

/// Whether the weights are scored after this many updates: every so many of
/// them, but not after the last, after which they are scored anyway.
pub open spec fn scores_after(done: int, steps: int, every: int) -> bool {
    every > 0 && done % every == 0 && done < steps
}

/// Plans an update: `sequence` and `start` are drawn among the sequences, and
/// among the places where the unroll fits into one.
pub fn plan_update(
    update: usize,
    steps: usize,
    every: usize,
    frames: usize,
    length: usize,
    unroll: usize,
    sequence: usize,
    start: usize,
) -> (result: UpdatePlan)
    requires
        update < steps,
        0 < unroll <= length,
        sequence < frames as int / length as int,
        start <= length - unroll,
    ensures
        result.offset == sequence * length,
        result.start == start,
        result.log == (update % 16 == 0),
        result.score == scores_after(update + 1, steps as int, every as int),
        result.offset + result.start + unroll <= (sequence + 1) * length <= frames,
{
    proof {
        let (f, l, s) = (frames as int, length as int, sequence as int);
        vstd::arithmetic::div_mod::lemma_fundamental_div_mod(f, l);
        assert((s + 1) * l <= f) by (nonlinear_arith)
            requires
                s + 1 <= f / l,
                f == l * (f / l) + f % l,
                f % l >= 0,
                l > 0,
        ;
        assert(s * l + l == (s + 1) * l) by (nonlinear_arith);
        assert(0 <= s * l) by (nonlinear_arith)
            requires
                s >= 0,
                l >= 0,
        ;
    }
    UpdatePlan {
        offset: sequence * length,
        start,
        log: update % 16 == 0,
        score: every > 0 && (update + 1) % every == 0 && update + 1 < steps,
    }
}

/// Where the weights and the scores of an update are written.
pub fn update_paths(out: &str, done: usize) -> (result: (String, String))
    ensures
        result.0@ == paths::joined(
            out@,
            "step-"@ + text::decimal(done as nat) + ".safetensors"@,
        ),
        result.1@ == paths::joined(out@, "dev-"@ + text::decimal(done as nat)),
{
    let number = decimal_text(done as u64);
    let weights = join3("step-", number.as_str(), ".safetensors");
    let scores = join2("dev-", number.as_str());
    (join_path(out, weights.as_str()), join_path(out, scores.as_str()))
}

proof fn lemma_marked_is_count(mask: Seq<bool>, k: int)
    requires
        0 <= k <= mask.len(),
    ensures
        marked(mask, k) == mask.take(k).to_multiset().count(true),
    decreases k,
{
    if k == 0 {
        assert(mask.take(0) =~= Seq::<bool>::empty());
        mask.take(0).to_multiset_ensures();
        assert(mask.take(0).to_multiset().len() == 0);
    } else {
        lemma_marked_is_count(mask, k - 1);
        assert(mask.take(k) =~= mask.take(k - 1).push(mask[k - 1]));
        mask.take(k - 1).to_multiset_ensures();
    }
}

/// What one more frame adds to what was counted of a model.
pub open spec fn adds(
    now: Tally,
    then: Tally,
    starts: bool,
    reset_history: bool,
    mask: Seq<bool>,
    temporal: bool,
) -> bool {
    &&& now.frames == then.frames + 1
    &&& now.resets == then.resets + if starts || reset_history {
        1int
    } else {
        0
    }
    &&& now.temporal_frames == then.temporal_frames + if !starts && temporal {
        1int
    } else {
        0
    }
    &&& now.history_pixels == then.history_pixels + if starts || reset_history {
        0
    } else {
        mask.len() as int
    }
    &&& now.rejected_pixels == then.rejected_pixels + if starts || reset_history {
        0
    } else {
        mask.to_multiset().count(true) as int
    }
}

/// Each frame of an evaluation counts once, for either model by its own facts: it
/// is a reset where its sequence starts or history is reset, it is held against
/// the frame before unless its sequence starts, and it adds the pixels whose
/// history was asked for, and those that rejected it, unless it is a reset.
pub proof fn each_frame_counts_once(
    facts: Vec<FrameFacts>,
    fewer: Vec<FrameFacts>,
    length: usize,
    reset_history: bool,
    now: Result<Evaluation, usize>,
    then: Result<Evaluation, usize>,
)
    requires
        length > 0,
        facts@.len() > 0,
        fewer@ == facts@.drop_last(),
        mask_pixels(facts@, facts@.len() as int) <= usize::MAX,
        call_ensures(evaluate, (&facts, length, reset_history), now),
        call_ensures(evaluate, (&fewer, length, reset_history), then),
    ensures
        now matches Ok(e) ==> then matches Ok(d) && {
            let last = facts@.last();
            let starts = fewer@.len() as int % length as int == 0;
            &&& last.finite.0 && last.finite.1
            &&& adds(e.baseline, d.baseline, starts, reset_history, last.rejected.0@, last.temporal.0)
            &&& adds(e.learned, d.learned, starts, reset_history, last.rejected.1@, last.temporal.1)
        },
        now matches Err(at) ==> at < facts@.len() && !(facts@[at as int].finite.0
            && facts@[at as int].finite.1),
        now matches Err(at) ==> (at < fewer@.len() <==> then is Err),
        then is Err ==> now == then,
        then is Ok && facts@.last().finite.0 && facts@.last().finite.1 ==> now is Ok,
        now matches Ok(e) ==> e.baseline.frames == facts@.len() && e.learned.frames == facts@.len(),
        fewer@.len() == 0 ==> (then matches Ok(d) && d.baseline.frames == 0 && d.baseline.resets == 0
            && d.baseline.history_pixels == 0 && d.baseline.rejected_pixels == 0
            && d.baseline.temporal_frames == 0 && d.learned == d.baseline),
{
    let n = facts@.len() as int;
    let k = n - 1;
    assert(forall|i: int| 0 <= i < k ==> fewer@[i] == #[trigger] facts@[i]);
    assert(forall|i: int| 0 <= i < k ==> #[trigger] fewer@[i] == facts@[i]);
    lemma_counted_prefix(facts@, fewer@, length as int, reset_history, k);
    let last = facts@.last();
    lemma_marked_is_count(last.rejected.0@, last.rejected.0@.len() as int);
    lemma_marked_is_count(last.rejected.1@, last.rejected.1@.len() as int);
    assert(last.rejected.0@.take(last.rejected.0@.len() as int) =~= last.rejected.0@);
    assert(last.rejected.1@.take(last.rejected.1@.len() as int) =~= last.rejected.1@);
    lemma_counted_frames(facts@, length as int, reset_history, false, n);
    lemma_counted_frames(facts@, length as int, reset_history, true, n);
    match (now, then) {
        (Ok(e), Err(at)) => {
            assert(all_finite(facts@[at as int]));
            assert(!all_finite(fewer@[at as int]));
        },
        (Ok(e), Ok(d)) => {
            assert(all_finite(facts@[k]));
        },
        (Err(at), Ok(d)) => {
            if at < k {
                assert(all_finite(fewer@[at as int]));
            }
        },
        (Err(at), Err(by)) => {
            if at < by {
                assert(all_finite(fewer@[at as int]));
            } else if by < at {
                assert(all_finite(facts@[by as int]));
            }
        },
    }
}

proof fn lemma_counted_prefix(
    a: Seq<FrameFacts>,
    b: Seq<FrameFacts>,
    length: int,
    reset_history: bool,
    k: int,
)
    requires
        0 <= k <= b.len() <= a.len(),
        forall|i: int| 0 <= i < k ==> a[i] == b[i],
    ensures
        counted(a, length, reset_history, false, k) == counted(b, length, reset_history, false, k),
        counted(a, length, reset_history, true, k) == counted(b, length, reset_history, true, k),
    decreases k,
{
    if k > 0 {
        lemma_counted_prefix(a, b, length, reset_history, k - 1);
    }
}

proof fn lemma_counted_frames(
    facts: Seq<FrameFacts>,
    length: int,
    reset_history: bool,
    learned: bool,
    k: int,
)
    requires
        0 <= k,
    ensures
        counted(facts, length, reset_history, learned, k).frames == k,
    decreases k,
{
    if k > 0 {
        lemma_counted_frames(facts, length, reset_history, learned, k - 1);
    }
}

/// Frames are counted through their sequences. The models forget where a sequence
/// starts, and otherwise only where they are told to; a frame is held against the
/// one before it unless its sequence starts.
pub proof fn sequences_start_afresh(
    index: usize,
    length: usize,
    reset_history: bool,
    plan: FramePlan,
)
    requires
        length > 0,
        call_ensures(plan_frame, (index, length, reset_history), plan),
    ensures
        plan.sequence * length + plan.frame == index,
        plan.frame < length,
        plan.reset <==> plan.frame == 0 || reset_history,
        plan.compare <==> plan.frame > 0,
{
    let (i, l) = (index as int, length as int);
    vstd::arithmetic::div_mod::lemma_fundamental_div_mod(i, l);
    vstd::arithmetic::div_mod::lemma_div_pos_is_pos(i, l);
    vstd::arithmetic::div_mod::lemma_mod_bound(i, l);
    vstd::arithmetic::mul::lemma_mul_is_commutative(l, i / l);
    assert(i / l <= i && i % l <= i) by (nonlinear_arith)
        requires
            i >= 0,
            l > 0,
    ;
}

/// A run starts exactly if its weights are valid, history is reset only to
/// evaluate, nothing is overwritten by training, one to eight frames are unrolled,
/// the rate is a positive number and there is a step to make.
pub proof fn runs_are_refused_for_a_reason(
    args: Args,
    weights_valid: bool,
    checkpoint_exists: bool,
    result: Result<(), StartError>,
)
    requires
        call_ensures(check_start, (&args, weights_valid, checkpoint_exists), result),
    ensures
        result is Ok <==> {
            &&& weights_valid
            &&& args.reset_history ==> args.eval_only
            &&& checkpoint_exists ==> args.eval_only
            &&& 1 <= args.unroll && args.unroll <= 8
            &&& bits::finite32(args.rate) && bits::less32(0, args.rate)
            &&& args.steps > 0
        },
        result matches Err(StartError::Weights) ==> !weights_valid,
        result matches Err(StartError::ResetHistory) ==> args.reset_history && !args.eval_only,
        result matches Err(StartError::Overwrite) ==> checkpoint_exists && !args.eval_only,
{
}

/// An update takes a run of frames inside one sequence, and weights are scored
/// after every so many updates, but for the last, and never where zero is asked
/// for.
pub proof fn updates_stay_in_a_sequence(
    update: usize,
    steps: usize,
    every: usize,
    frames: usize,
    length: usize,
    unroll: usize,
    sequence: usize,
    start: usize,
    k: int,
    plan: UpdatePlan,
)
    requires
        update < steps,
        0 < unroll <= length,
        sequence < frames as int / length as int,
        start <= length - unroll,
        0 <= k,
        call_ensures(
            plan_update,
            (update, steps, every, frames, length, unroll, sequence, start),
            plan,
        ),
    ensures
        sequence * length <= plan.offset + plan.start,
        plan.offset + plan.start + unroll <= (sequence + 1) * length <= frames,
        plan.start == start,
        update + 1 == steps ==> !plan.score,
        every == 0 ==> !plan.score,
        every > 0 && update + 1 == k * every && update + 1 < steps ==> plan.score,
        k * every < update + 1 < (k + 1) * every ==> !plan.score,
        update == 16 * k ==> plan.log,
        16 * k < update < 16 * k + 16 ==> !plan.log,
{
    let done = update + 1;
    let e = every as int;
    if e > 0 {
        assert((k + 1) * e == k * e + e) by (nonlinear_arith);
        if k * e <= done < (k + 1) * e {
            vstd::arithmetic::div_mod::lemma_fundamental_div_mod_converse(done, e, k, done - k * e);
        }
    }
}

/// A history is rejected at a pixel exactly if one of its two lobes is not valid there,
/// wherever the table puts it.
pub proof fn histories_need_both_lobes(
    validity: &[u32],
    table: &[usize],
    n: usize,
    result: Vec<bool>,
    i: int,
)
    requires
        2 * n <= usize::MAX,
        validity@.len() == 2 * n,
        table@.len() == 2 * n,
        forall|j: int| 0 <= j < 2 * n ==> #[trigger] table@[j] < 2 * n,
        call_ensures(rejected_history_mask, (validity, table, n), result),
        0 <= i < n,
    ensures
        result@.len() == n,
        !result@[i] ==> {
            &&& !bits::equal32(validity@[table@[i] as int], 0)
            &&& !bits::equal32(validity@[table@[n + i] as int], 0)
        },
        result@[i] ==> {
            ||| bits::equal32(validity@[table@[i] as int], 0)
            ||| bits::equal32(validity@[table@[n + i] as int], 0)
        },
{
    let (a, b) = (validity@[table@[i] as int], validity@[table@[n + i] as int]);
    assert(result@[i] == (bits::equal32(a, 0) || bits::equal32(b, 0)));
}

/// The two lobes together are all values, each once: channel `c` of texel `t` of a lobe
/// is what the table has in row `3 * lobe + c`.
pub proof fn lobes_are_unpacked_by_channel<T: Copy>(
    values: &[T],
    table: &[usize],
    n: usize,
    lobe: usize,
    result: Vec<T>,
    t: int,
    c: int,
)
    requires
        lobe < 2,
        6 * n <= usize::MAX,
        values@.len() == 6 * n,
        table@.len() == 6 * n,
        forall|j: int| 0 <= j < 6 * n ==> #[trigger] table@[j] < 6 * n,
        call_ensures(unpack_lobe::<T>, (values, table, n, lobe), result),
        0 <= t < n,
        0 <= c < 3,
    ensures
        result@.len() == 3 * n,
        result@[3 * t + c] == values@[table@[(3 * lobe + c) * n + t] as int],
{
    let k = 3 * t + c;
    assert(k % 3 == c && k / 3 == t);
    assert(result@[k] == values@[table@[(3 * lobe + k % 3) * n + k / 3] as int]);
}

} // verus!
