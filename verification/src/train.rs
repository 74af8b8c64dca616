//! Training: the command line, the split of a dataset, and the schedule of a run.
use vstd::prelude::*;

use crate::bits;
use crate::bits::{is_at_most32, is_less32, ONE32};
use crate::model::{Features, Objective, Prediction, ReconstructionBase};
use crate::options;
use crate::options::{
    is_given, last_choice, last_device, last_integer, last_real, last_real_given, last_text,
    last_text_or, scan, ArgumentView, Fault, FaultView, Kind, KindView, Opt, OptView, Setting,
    SettingView, Word,
};

verus! {

/// How the trainer is called.
pub const USAGE: &'static str = "\
train the ommatidia reconstruction network

usage: ommatidia-train [options]

  --data PATH          dataset to train on  [data/train.omd]
  --out STEM           checkpoint stem, gets .safetensors and .ron  [runs/ommatidia]
  --steps N            optimizer steps  [1000]
  --batch N            crops per step  [8]
  --tile N             square crop size, in input pixels  [64]
  --lr F               Adam learning rate  [2e-4]
  --lr-final F         decay the rate to this by the last step, on a cosine.
                       Worth setting on a long run: a rate that was right for
                       the first hour is too coarse to settle in the last one
  --grad-clip F        clip the gradient norm to this, 0 to disable  [1.0]
  --base-channels N    channel width of the first level  [8]
  --levels N           U-Net levels  [3]
  --blocks N           residual blocks per level  [1]
  --num-groups N       GroupNorm groups; must divide every level width  [8]
  --timesteps N        diffusion schedule length  [1000]
  --sampler-steps N    DDIM steps used when evaluating  [20]
  --objective KIND     direct or diffusion  [direct]
  --prediction KIND    subpixel or low-color residual, or kernel for the
                       single-operation sample gather  [subpixel]
  --reconstruction-base KIND
                       nearest, bilinear, guided, hr-guided, or sample, which
                       is the only one with no separate denoise  [guided]
  --kernel-radius N    half-width of the neighbourhood a kernel gathers, in
                       input pixels  [2]
  --demodulate         gather radiance divided by albedo and multiply the exact
                       output-resolution albedo back, so the texture is put
                       back rather than reconstructed. Kernel checkpoints only
  --temporal-weight F  weight of the temporal term in the loss. A per-frame
                       squared error is indifferent to whether consecutive
                       frames agree, so without this a reconstruction fitted to
                       one will flicker whenever its input does  [0]
  --teacher-every N    steps between resynchronising the detached copy of the
                       network that the temporal target is built from  [250]
  --head-kernel N      kernel size of the output convolution. A kernel head is
                       wide, so at 3 it is a quarter of the arithmetic; the
                       features it reads already have a wide receptive field  [3]
  --demodulation-offset F
                       added to the albedo on both sides, bounding how far a
                       pixel can be rescaled. 0.05 allows 20x and loses 1.5 dB
                       to the compressed gather; 0.25 allows 4x  [0.25]
  --seed N             seed for init and batching  [0]
  --device-id ID       adapter ID for this standalone process (hex or decimal)
  --history-frames N   surface-reprojected sparse frames, 1 for spatial [1]
  --temporal-features KIND
                       basic or variance history conditioning [variance]
  --log-every N        steps between loss lines  [50]
  --eval-out DIR       write comparison PNGs of the first held-out crop
  --val-fraction F     share of the set held out for scoring  [0.15]
  --eval-crops N       cap on held-out crops scored  [64]
  --eval-every N       score the held-out set every N steps, 0 for only at
                       the end  [0]
  --checkpoint-every N save the checkpoint every N steps as well as at the
                       end, so a long run survives a crash  [0]
  --eval-only          load the checkpoint at --out and score it without
                       training, so a finished run can be re-examined under a
                       different --sampler-steps
  --color-only         condition on colour alone, ignoring the dataset's
                       G-buffer planes; the other half of that ablation is
                       simply leaving this off
  --allow-filtered-input
                       allow a legacy dataset whose input already passed
                       through Blade's SVGF denoiser; for historical
                       comparisons only, not a denoiser-replacement model
  -h, --help           this message
";

/// The option `--data`.
pub const DATA: u32 = 0;

/// The option `--out`.
pub const OUT: u32 = 1;

/// The option `--steps`.
pub const STEPS: u32 = 2;

/// The option `--batch`.
pub const BATCH: u32 = 3;

/// The option `--tile`.
pub const TILE: u32 = 4;

/// The option `--lr`.
pub const LR: u32 = 5;

/// The option `--lr-final`.
pub const LR_FINAL: u32 = 6;

/// The option `--grad-clip`.
pub const GRAD_CLIP: u32 = 7;

/// The option `--base-channels`.
pub const BASE_CHANNELS: u32 = 8;

/// The option `--levels`.
pub const LEVELS: u32 = 9;

/// The option `--blocks`.
pub const BLOCKS: u32 = 10;

/// The option `--num-groups`.
pub const NUM_GROUPS: u32 = 11;

/// The option `--timesteps`.
pub const TIMESTEPS: u32 = 12;

/// The option `--sampler-steps`.
pub const SAMPLER_STEPS: u32 = 13;

/// The option `--objective`.
pub const OBJECTIVE: u32 = 14;

/// The option `--prediction`.
pub const PREDICTION: u32 = 15;

/// The option `--reconstruction-base`.
pub const RECONSTRUCTION_BASE: u32 = 16;

/// The option `--kernel-radius`.
pub const KERNEL_RADIUS: u32 = 17;

/// The option `--demodulate`.
pub const DEMODULATE: u32 = 18;

/// The option `--demodulation-offset`.
pub const DEMODULATION_OFFSET: u32 = 19;

/// The option `--head-kernel`.
pub const HEAD_KERNEL: u32 = 20;

/// The option `--temporal-weight`.
pub const TEMPORAL_WEIGHT: u32 = 21;

/// The option `--teacher-every`.
pub const TEACHER_EVERY: u32 = 22;

/// The option `--seed`.
pub const SEED: u32 = 23;

/// The option `--log-every`.
pub const LOG_EVERY: u32 = 24;

/// The option `--eval-out`.
pub const EVAL_OUT: u32 = 25;

/// The option `--color-only`.
pub const COLOR_ONLY: u32 = 26;

/// The option `--val-fraction`.
pub const VAL_FRACTION: u32 = 27;

/// The option `--eval-crops`.
pub const EVAL_CROPS: u32 = 28;

/// The option `--eval-every`.
pub const EVAL_EVERY: u32 = 29;

/// The option `--checkpoint-every`.
pub const CHECKPOINT_EVERY: u32 = 30;

/// The option `--eval-only`.
pub const EVAL_ONLY: u32 = 31;

/// The option `--allow-filtered-input`.
pub const ALLOW_FILTERED_INPUT: u32 = 32;

/// The option `--device-id`.
pub const DEVICE_ID: u32 = 33;

/// The option `--history-frames`.
pub const HISTORY_FRAMES: u32 = 34;

/// The option `--temporal-features`.
pub const TEMPORAL_FEATURES: u32 = 35;

/// The options that ask for the usage text.
pub const HELP: u32 = 36;

/// What the trainer was asked to do. Real numbers stand as the bits of an `f32`.
#[derive(Debug)]
pub struct Args {
    pub data: String,
    pub out: String,
    pub steps: usize,
    pub batch: u32,
    pub tile: u32,
    pub learning_rate: u32,
    pub learning_rate_final: Option<u32>,
    pub grad_clip: u32,
    pub base_channels: u32,
    pub levels: usize,
    pub blocks_per_level: usize,
    pub num_groups: u32,
    pub timesteps: usize,
    pub sampler_steps: usize,
    pub objective: Objective,
    pub prediction: Prediction,
    pub reconstruction_base: ReconstructionBase,
    pub kernel_radius: u32,
    pub demodulate: bool,
    pub demodulation_offset: u32,
    pub head_kernel: u32,
    pub temporal_weight: u32,
    pub teacher_every: usize,
    pub seed: u64,
    pub log_every: usize,
    pub eval_out: Option<String>,
    pub color_only: bool,
    pub val_fraction: u32,
    pub eval_crops: usize,
    pub eval_every: usize,
    pub checkpoint_every: usize,
    pub eval_only: bool,
    pub allow_filtered_input: bool,
    pub device_id: Option<u32>,
    pub history_frames: u32,
    pub temporal_features: Features,
}

/// Why the trainer does not start.
#[derive(Debug)]
pub enum ArgsError {
    /// The command line does not read.
    Line(Fault),
    /// No optimizer step is asked for.
    Steps,
    /// The share held out for scoring is not in `[0, 1)`.
    ValFraction(u32),
    /// No crop is to be scored.
    EvalCrops,
    /// No frame of history is to be used, not even the current one.
    HistoryFrames,
}

impl ArgsError {
    /// What is said of it, apart from what a command line or a share adds.
    pub open spec fn said(self) -> Seq<char> {
        match self {
            ArgsError::Line(_) => "the command line does not read"@,
            ArgsError::Steps => "--steps must be positive"@,
            ArgsError::ValFraction(_) => "--val-fraction must be in [0, 1)"@,
            ArgsError::EvalCrops => "--eval-crops must be positive"@,
            ArgsError::HistoryFrames => "--history-frames must be positive"@,
        }
    }

    /// Says why in words.
    pub fn words(&self) -> (result: &'static str)
        ensures
            result@ == self.said(),
    {
        match self {
            ArgsError::Line(_) => "the command line does not read",
            ArgsError::Steps => "--steps must be positive",
            ArgsError::ValFraction(_) => "--val-fraction must be in [0, 1)",
            ArgsError::EvalCrops => "--eval-crops must be positive",
            ArgsError::HistoryFrames => "--history-frames must be positive",
        }
    }
}

/// The options of the trainer.
pub open spec fn option_table() -> Seq<OptView> {
    seq![
        OptView { name: "-h"@, id: HELP, kind: KindView::Help },
        OptView { name: "--help"@, id: HELP, kind: KindView::Help },
        OptView { name: "--data"@, id: DATA, kind: KindView::Text },
        OptView { name: "--out"@, id: OUT, kind: KindView::Text },
        OptView { name: "--steps"@, id: STEPS, kind: KindView::Integer(usize::MAX as u64) },
        OptView { name: "--batch"@, id: BATCH, kind: KindView::Integer(u32::MAX as u64) },
        OptView { name: "--tile"@, id: TILE, kind: KindView::Integer(u32::MAX as u64) },
        OptView { name: "--lr"@, id: LR, kind: KindView::Real },
        OptView { name: "--lr-final"@, id: LR_FINAL, kind: KindView::Real },
        OptView { name: "--grad-clip"@, id: GRAD_CLIP, kind: KindView::Real },
        OptView { name: "--base-channels"@, id: BASE_CHANNELS, kind: KindView::Integer(u32::MAX as u64) },
        OptView { name: "--levels"@, id: LEVELS, kind: KindView::Integer(usize::MAX as u64) },
        OptView { name: "--blocks"@, id: BLOCKS, kind: KindView::Integer(usize::MAX as u64) },
        OptView { name: "--num-groups"@, id: NUM_GROUPS, kind: KindView::Integer(u32::MAX as u64) },
        OptView { name: "--timesteps"@, id: TIMESTEPS, kind: KindView::Integer(usize::MAX as u64) },
        OptView { name: "--sampler-steps"@, id: SAMPLER_STEPS, kind: KindView::Integer(usize::MAX as u64) },
        OptView { name: "--objective"@, id: OBJECTIVE, kind: KindView::Choice("objective"@, seq!["direct"@, "diffusion"@]) },
        OptView { name: "--prediction"@, id: PREDICTION, kind: KindView::Choice("prediction"@, seq!["subpixel"@, "low-color"@, "kernel"@]) },
        OptView { name: "--reconstruction-base"@, id: RECONSTRUCTION_BASE, kind: KindView::Choice("reconstruction base"@, seq!["nearest"@, "bilinear"@, "guided"@, "hr-guided"@, "sample"@]) },
        OptView { name: "--kernel-radius"@, id: KERNEL_RADIUS, kind: KindView::Integer(u32::MAX as u64) },
        OptView { name: "--demodulate"@, id: DEMODULATE, kind: KindView::Switch },
        OptView { name: "--demodulation-offset"@, id: DEMODULATION_OFFSET, kind: KindView::Real },
        OptView { name: "--head-kernel"@, id: HEAD_KERNEL, kind: KindView::Integer(u32::MAX as u64) },
        OptView { name: "--temporal-weight"@, id: TEMPORAL_WEIGHT, kind: KindView::Real },
        OptView { name: "--teacher-every"@, id: TEACHER_EVERY, kind: KindView::Integer(usize::MAX as u64) },
        OptView { name: "--seed"@, id: SEED, kind: KindView::Integer(u64::MAX) },
        OptView { name: "--log-every"@, id: LOG_EVERY, kind: KindView::Integer(usize::MAX as u64) },
        OptView { name: "--eval-out"@, id: EVAL_OUT, kind: KindView::Text },
        OptView { name: "--color-only"@, id: COLOR_ONLY, kind: KindView::Switch },
        OptView { name: "--val-fraction"@, id: VAL_FRACTION, kind: KindView::Real },
        OptView { name: "--eval-crops"@, id: EVAL_CROPS, kind: KindView::Integer(usize::MAX as u64) },
        OptView { name: "--eval-every"@, id: EVAL_EVERY, kind: KindView::Integer(usize::MAX as u64) },
        OptView { name: "--checkpoint-every"@, id: CHECKPOINT_EVERY, kind: KindView::Integer(usize::MAX as u64) },
        OptView { name: "--eval-only"@, id: EVAL_ONLY, kind: KindView::Switch },
        OptView { name: "--allow-filtered-input"@, id: ALLOW_FILTERED_INPUT, kind: KindView::Switch },
        OptView { name: "--device-id"@, id: DEVICE_ID, kind: KindView::Device },
        OptView { name: "--history-frames"@, id: HISTORY_FRAMES, kind: KindView::Integer(u32::MAX as u64) },
        OptView { name: "--temporal-features"@, id: TEMPORAL_FEATURES, kind: KindView::Choice("temporal features"@, seq!["basic"@, "variance"@]) },
    ]
}

/// The options of the trainer.
fn options_list() -> (result: Vec<Opt>)
    ensures
        options::table_view(result@) == option_table(),
{
    let result: Vec<Opt> = vec![
        Opt { name: "-h", id: HELP, kind: Kind::Help },
        Opt { name: "--help", id: HELP, kind: Kind::Help },
        Opt { name: "--data", id: DATA, kind: Kind::Text },
        Opt { name: "--out", id: OUT, kind: Kind::Text },
        Opt { name: "--steps", id: STEPS, kind: Kind::Integer(usize::MAX as u64) },
        Opt { name: "--batch", id: BATCH, kind: Kind::Integer(u32::MAX as u64) },
        Opt { name: "--tile", id: TILE, kind: Kind::Integer(u32::MAX as u64) },
        Opt { name: "--lr", id: LR, kind: Kind::Real },
        Opt { name: "--lr-final", id: LR_FINAL, kind: Kind::Real },
        Opt { name: "--grad-clip", id: GRAD_CLIP, kind: Kind::Real },
        Opt { name: "--base-channels", id: BASE_CHANNELS, kind: Kind::Integer(u32::MAX as u64) },
        Opt { name: "--levels", id: LEVELS, kind: Kind::Integer(usize::MAX as u64) },
        Opt { name: "--blocks", id: BLOCKS, kind: Kind::Integer(usize::MAX as u64) },
        Opt { name: "--num-groups", id: NUM_GROUPS, kind: Kind::Integer(u32::MAX as u64) },
        Opt { name: "--timesteps", id: TIMESTEPS, kind: Kind::Integer(usize::MAX as u64) },
        Opt { name: "--sampler-steps", id: SAMPLER_STEPS, kind: Kind::Integer(usize::MAX as u64) },
        Opt { name: "--objective", id: OBJECTIVE, kind: Kind::Choice("objective", vec!["direct", "diffusion"]) },
        Opt { name: "--prediction", id: PREDICTION, kind: Kind::Choice("prediction", vec!["subpixel", "low-color", "kernel"]) },
        Opt { name: "--reconstruction-base", id: RECONSTRUCTION_BASE, kind: Kind::Choice("reconstruction base", vec!["nearest", "bilinear", "guided", "hr-guided", "sample"]) },
        Opt { name: "--kernel-radius", id: KERNEL_RADIUS, kind: Kind::Integer(u32::MAX as u64) },
        Opt { name: "--demodulate", id: DEMODULATE, kind: Kind::Switch },
        Opt { name: "--demodulation-offset", id: DEMODULATION_OFFSET, kind: Kind::Real },
        Opt { name: "--head-kernel", id: HEAD_KERNEL, kind: Kind::Integer(u32::MAX as u64) },
        Opt { name: "--temporal-weight", id: TEMPORAL_WEIGHT, kind: Kind::Real },
        Opt { name: "--teacher-every", id: TEACHER_EVERY, kind: Kind::Integer(usize::MAX as u64) },
        Opt { name: "--seed", id: SEED, kind: Kind::Integer(u64::MAX) },
        Opt { name: "--log-every", id: LOG_EVERY, kind: Kind::Integer(usize::MAX as u64) },
        Opt { name: "--eval-out", id: EVAL_OUT, kind: Kind::Text },
        Opt { name: "--color-only", id: COLOR_ONLY, kind: Kind::Switch },
        Opt { name: "--val-fraction", id: VAL_FRACTION, kind: Kind::Real },
        Opt { name: "--eval-crops", id: EVAL_CROPS, kind: Kind::Integer(usize::MAX as u64) },
        Opt { name: "--eval-every", id: EVAL_EVERY, kind: Kind::Integer(usize::MAX as u64) },
        Opt { name: "--checkpoint-every", id: CHECKPOINT_EVERY, kind: Kind::Integer(usize::MAX as u64) },
        Opt { name: "--eval-only", id: EVAL_ONLY, kind: Kind::Switch },
        Opt { name: "--allow-filtered-input", id: ALLOW_FILTERED_INPUT, kind: Kind::Switch },
        Opt { name: "--device-id", id: DEVICE_ID, kind: Kind::Device },
        Opt { name: "--history-frames", id: HISTORY_FRAMES, kind: Kind::Integer(u32::MAX as u64) },
        Opt { name: "--temporal-features", id: TEMPORAL_FEATURES, kind: Kind::Choice("temporal features", vec!["basic", "variance"]) },
    ];
    proof {
        let v = options::table_view(result@);
        assert(v[16].kind->Choice_1 =~= option_table()[16].kind->Choice_1);
        assert(v[17].kind->Choice_1 =~= option_table()[17].kind->Choice_1);
        assert(v[18].kind->Choice_1 =~= option_table()[18].kind->Choice_1);
        assert(v[37].kind->Choice_1 =~= option_table()[37].kind->Choice_1);
        assert(v =~= option_table());
    }
    result
}

/// The settings that a command line gives the trainer.
pub open spec fn line_settings(words: Seq<Word>) -> Result<Seq<SettingView>, FaultView> {
    options::scanned(options::words_view(words), option_table(), false, 0, Seq::empty())
}

/// Each value is the last one given, or else the default.
pub open spec fn follows(args: Args, s: Seq<SettingView>) -> bool {
    &&& args.data@ == options::text_or(s, DATA, "data/train.omd"@)
    &&& args.out@ == options::text_or(s, OUT, "runs/ommatidia"@)
    &&& args.steps == options::integer_or(s, STEPS, 1000) as usize
    &&& args.batch == options::integer_or(s, BATCH, 8) as u32
    &&& args.tile == options::integer_or(s, TILE, 64) as u32
    &&& args.learning_rate == options::real_or(s, LR, 0x3951_b717)
    &&& args.learning_rate_final == options::real_given(s, LR_FINAL)
    &&& args.grad_clip == options::real_or(s, GRAD_CLIP, 0x3f80_0000)
    &&& args.base_channels == options::integer_or(s, BASE_CHANNELS, 8) as u32
    &&& args.levels == options::integer_or(s, LEVELS, 3) as usize
    &&& args.blocks_per_level == options::integer_or(s, BLOCKS, 1) as usize
    &&& args.num_groups == options::integer_or(s, NUM_GROUPS, 8) as u32
    &&& args.timesteps == options::integer_or(s, TIMESTEPS, 1000) as usize
    &&& args.sampler_steps == options::integer_or(s, SAMPLER_STEPS, 20) as usize
    &&& args.objective == Objective::nth(options::choice_or(s, OBJECTIVE, 0))
    &&& args.prediction == Prediction::nth(options::choice_or(s, PREDICTION, 0))
    &&& args.reconstruction_base == ReconstructionBase::nth(options::choice_or(s, RECONSTRUCTION_BASE, 2))
    &&& args.kernel_radius == options::integer_or(s, KERNEL_RADIUS, 2) as u32
    &&& args.demodulate == options::given(s, DEMODULATE)
    &&& args.demodulation_offset == options::real_or(s, DEMODULATION_OFFSET, 0x3e80_0000)
    &&& args.head_kernel == options::integer_or(s, HEAD_KERNEL, 3) as u32
    &&& args.temporal_weight == options::real_or(s, TEMPORAL_WEIGHT, 0)
    &&& args.teacher_every == options::integer_or(s, TEACHER_EVERY, 250) as usize
    &&& args.seed == options::integer_or(s, SEED, 0)
    &&& args.log_every == options::integer_or(s, LOG_EVERY, 50) as usize
    &&& options::text_option(args.eval_out) == options::text_given(s, EVAL_OUT)
    &&& args.color_only == options::given(s, COLOR_ONLY)
    &&& args.val_fraction == options::real_or(s, VAL_FRACTION, 0x3e19_999a)
    &&& args.eval_crops == options::integer_or(s, EVAL_CROPS, 64) as usize
    &&& args.eval_every == options::integer_or(s, EVAL_EVERY, 0) as usize
    &&& args.checkpoint_every == options::integer_or(s, CHECKPOINT_EVERY, 0) as usize
    &&& args.eval_only == options::given(s, EVAL_ONLY)
    &&& args.allow_filtered_input == options::given(s, ALLOW_FILTERED_INPUT)
    &&& args.device_id == options::device_given(s, DEVICE_ID)
    &&& args.history_frames == options::integer_or(s, HISTORY_FRAMES, 1) as u32
    &&& args.temporal_features == Features::nth(options::choice_or(s, TEMPORAL_FEATURES, 1))
}

/// Sets each value from the last one given, or else the default.
fn collect(settings: &Vec<Setting>) -> (result: Args)
    ensures
        follows(result, options::settings_view(settings@)),
{
    Args {
        data: last_text_or(settings, DATA, "data/train.omd"),
        out: last_text_or(settings, OUT, "runs/ommatidia"),
        steps: last_integer(settings, STEPS, 1000) as usize,
        batch: last_integer(settings, BATCH, 8) as u32,
        tile: last_integer(settings, TILE, 64) as u32,
        learning_rate: last_real(settings, LR, 0x3951_b717),
        learning_rate_final: last_real_given(settings, LR_FINAL),
        grad_clip: last_real(settings, GRAD_CLIP, 0x3f80_0000),
        base_channels: last_integer(settings, BASE_CHANNELS, 8) as u32,
        levels: last_integer(settings, LEVELS, 3) as usize,
        blocks_per_level: last_integer(settings, BLOCKS, 1) as usize,
        num_groups: last_integer(settings, NUM_GROUPS, 8) as u32,
        timesteps: last_integer(settings, TIMESTEPS, 1000) as usize,
        sampler_steps: last_integer(settings, SAMPLER_STEPS, 20) as usize,
        objective: Objective::from_place(last_choice(settings, OBJECTIVE, 0)),
        prediction: Prediction::from_place(last_choice(settings, PREDICTION, 0)),
        reconstruction_base: ReconstructionBase::from_place(last_choice(settings, RECONSTRUCTION_BASE, 2)),
        kernel_radius: last_integer(settings, KERNEL_RADIUS, 2) as u32,
        demodulate: is_given(settings, DEMODULATE),
        demodulation_offset: last_real(settings, DEMODULATION_OFFSET, 0x3e80_0000),
        head_kernel: last_integer(settings, HEAD_KERNEL, 3) as u32,
        temporal_weight: last_real(settings, TEMPORAL_WEIGHT, 0),
        teacher_every: last_integer(settings, TEACHER_EVERY, 250) as usize,
        seed: last_integer(settings, SEED, 0),
        log_every: last_integer(settings, LOG_EVERY, 50) as usize,
        eval_out: last_text(settings, EVAL_OUT),
        color_only: is_given(settings, COLOR_ONLY),
        val_fraction: last_real(settings, VAL_FRACTION, 0x3e19_999a),
        eval_crops: last_integer(settings, EVAL_CROPS, 64) as usize,
        eval_every: last_integer(settings, EVAL_EVERY, 0) as usize,
        checkpoint_every: last_integer(settings, CHECKPOINT_EVERY, 0) as usize,
        eval_only: is_given(settings, EVAL_ONLY),
        allow_filtered_input: is_given(settings, ALLOW_FILTERED_INPUT),
        device_id: last_device(settings, DEVICE_ID),
        history_frames: last_integer(settings, HISTORY_FRAMES, 1) as u32,
        temporal_features: Features::from_place(last_choice(settings, TEMPORAL_FEATURES, 1)),
    }
}

/// Whether the share held out for scoring is in `[0, 1)`.
pub open spec fn fraction_fits(val_fraction: u32) -> bool {
    bits::at_most32(0, val_fraction) && bits::less32(val_fraction, ONE32)
}

/// What keeps a run with these settings from starting: the first of these
/// that holds.
pub open spec fn refusal(s: Seq<SettingView>) -> Option<ArgsError> {
    if options::integer_or(s, STEPS, 1000) as usize == 0 {
        Some(ArgsError::Steps)
    } else if !fraction_fits(options::real_or(s, VAL_FRACTION, 0x3e19_999a)) {
        Some(ArgsError::ValFraction(options::real_or(s, VAL_FRACTION, 0x3e19_999a)))
    } else if options::integer_or(s, EVAL_CROPS, 64) as usize == 0 {
        Some(ArgsError::EvalCrops)
    } else if options::integer_or(s, HISTORY_FRAMES, 1) as u32 == 0 {
        Some(ArgsError::HistoryFrames)
    } else {
        None
    }
}

/// Reads the trainer's command line.
///
/// The line must read, and the values that it gives must let a run start.
pub fn parse_from(words: &Vec<Word>) -> (result: Result<Args, ArgsError>)
    ensures
        match line_settings(words@) {
            Err(fault) => result matches Err(ArgsError::Line(f)) && f@ == fault,
            Ok(settings) => match refusal(settings) {
                Some(error) => result == Err::<Args, ArgsError>(error),
                None => result matches Ok(args) && follows(args, settings),
            },
        },
{
    let table = options_list();
    match scan(words, &table, false) {
        Err(fault) => Err(ArgsError::Line(fault)),
        Ok(settings) => {
            let args = collect(&settings);
            if args.steps == 0 {
                return Err(ArgsError::Steps);
            }
            let share: u32 = args.val_fraction;
            if !(is_at_most32(0, share) && is_less32(share, ONE32)) {
                return Err(ArgsError::ValFraction(share));
            }
            if args.eval_crops == 0 {
                return Err(ArgsError::EvalCrops);
            }
            if args.history_frames == 0 {
                return Err(ArgsError::HistoryFrames);
            }
            Ok(args)
        },
    }
}

/// A line is accepted only where there is something to train and to score: a step, a
/// crop, a frame of history, and a share held out that is neither negative nor all.
pub proof fn accepted_lines_can_be_trained(words: Vec<Word>, result: Result<Args, ArgsError>)
    requires
        call_ensures(parse_from, (&words,), result),
    ensures
        match result {
            Ok(args) => {
                &&& args.steps > 0
                &&& args.eval_crops > 0
                &&& args.history_frames > 0
                &&& bits::at_most32(0, args.val_fraction)
                &&& bits::less32(args.val_fraction, 0x3f80_0000)
            },
            Err(ArgsError::ValFraction(share)) => !bits::at_most32(0, share) || !bits::less32(
                share,
                0x3f80_0000,
            ),
            Err(_) => true,
        },
{
}

/// What a line does not set has its usual value, and what it does set has that of the
/// last setting.
pub proof fn settings_reach_their_field(words: Vec<Word>, args: Args, s: Seq<SettingView>)
    requires
        call_ensures(parse_from, (&words,), Ok(args)),
        line_settings(words@) == Ok::<Seq<SettingView>, FaultView>(s),
    ensures
        options::latest(s, STEPS) is None ==> args.steps == 1000,
        options::latest(s, STEPS) matches Some(ArgumentView::Integer(n)) ==> args.steps == n as usize,
        options::latest(s, BATCH) is None ==> args.batch == 8,
        options::latest(s, BATCH) matches Some(ArgumentView::Integer(n)) ==> args.batch == n as u32,
        options::latest(s, TILE) is None ==> args.tile == 64,
        options::latest(s, TILE) matches Some(ArgumentView::Integer(n)) ==> args.tile == n as u32,
        options::latest(s, SEED) is None ==> args.seed == 0,
        options::latest(s, SEED) matches Some(ArgumentView::Integer(n)) ==> args.seed == n,
        options::latest(s, LR) is None ==> args.learning_rate == 0x3951_b717,
        options::latest(s, LR) matches Some(ArgumentView::Real(r)) ==> args.learning_rate == r,
        options::latest(s, LR_FINAL) is None ==> args.learning_rate_final is None,
        options::latest(s, LR_FINAL) matches Some(ArgumentView::Real(r)) ==> args.learning_rate_final
            == Some(r),
        options::latest(s, GRAD_CLIP) is None ==> args.grad_clip == 0x3f80_0000,
        options::latest(s, LEVELS) is None ==> args.levels == 3,
        options::latest(s, TIMESTEPS) is None ==> args.timesteps == 1000,
        options::latest(s, SAMPLER_STEPS) is None ==> args.sampler_steps == 20,
        options::latest(s, TEACHER_EVERY) is None ==> args.teacher_every == 250,
        options::latest(s, VAL_FRACTION) is None ==> args.val_fraction == 0x3e19_999a,
        options::latest(s, VAL_FRACTION) matches Some(ArgumentView::Real(r)) ==> args.val_fraction == r,
        options::latest(s, EVAL_CROPS) is None ==> args.eval_crops == 64,
        options::latest(s, HISTORY_FRAMES) is None ==> args.history_frames == 1,
        options::latest(s, OBJECTIVE) is None ==> args.objective == Objective::Direct,
        options::latest(s, OBJECTIVE) == Some(ArgumentView::Choice(0)) ==> args.objective
            == Objective::Direct,
        options::latest(s, OBJECTIVE) == Some(ArgumentView::Choice(1)) ==> args.objective
            == Objective::Diffusion,
        options::latest(s, PREDICTION) is None ==> args.prediction == Prediction::SubpixelResidual,
        options::latest(s, PREDICTION) == Some(ArgumentView::Choice(0)) ==> args.prediction
            == Prediction::SubpixelResidual,
        options::latest(s, PREDICTION) == Some(ArgumentView::Choice(1)) ==> args.prediction
            == Prediction::LowResolutionResidual,
        options::latest(s, PREDICTION) == Some(ArgumentView::Choice(2)) ==> args.prediction
            == Prediction::SubpixelKernel,
        options::latest(s, RECONSTRUCTION_BASE) is None ==> args.reconstruction_base
            == ReconstructionBase::GuidedBilinear,
        options::latest(s, RECONSTRUCTION_BASE) == Some(ArgumentView::Choice(0))
            ==> args.reconstruction_base == ReconstructionBase::Nearest,
        options::latest(s, RECONSTRUCTION_BASE) == Some(ArgumentView::Choice(1))
            ==> args.reconstruction_base == ReconstructionBase::Bilinear,
        options::latest(s, RECONSTRUCTION_BASE) == Some(ArgumentView::Choice(2))
            ==> args.reconstruction_base == ReconstructionBase::GuidedBilinear,
        options::latest(s, RECONSTRUCTION_BASE) == Some(ArgumentView::Choice(3))
            ==> args.reconstruction_base == ReconstructionBase::HighResolutionGuided,
        options::latest(s, RECONSTRUCTION_BASE) == Some(ArgumentView::Choice(4))
            ==> args.reconstruction_base == ReconstructionBase::Sample,
        options::latest(s, TEMPORAL_FEATURES) is None ==> args.temporal_features
            == Features::Variance,
        options::latest(s, TEMPORAL_FEATURES) == Some(ArgumentView::Choice(0))
            ==> args.temporal_features == Features::Basic,
        options::latest(s, TEMPORAL_FEATURES) == Some(ArgumentView::Choice(1))
            ==> args.temporal_features == Features::Variance,
        args.demodulate <==> options::latest(s, DEMODULATE) is Some,
        args.color_only <==> options::latest(s, COLOR_ONLY) is Some,
        args.eval_only <==> options::latest(s, EVAL_ONLY) is Some,
        args.allow_filtered_input <==> options::latest(s, ALLOW_FILTERED_INPUT) is Some,
{
}

} // verus!
