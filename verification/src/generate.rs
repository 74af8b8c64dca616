//! Generating a dataset: the command line, and what each record takes.
use vstd::prelude::*;

use crate::bits;
use crate::bits::{is_equal16, is_equal32, is_finite32, is_less32};
use crate::dataset;
use crate::dataset::{InputSource, Layout, Plane, PlaneSet};
use crate::gbuffer;
use crate::json;
use crate::json::{Json, JsonView, Numeral};
use crate::options;
use crate::options::{
    is_given, last_device, last_extent, last_integer, last_real, last_text, last_text_or, scan,
    Fault, FaultView, Kind, KindView, Opt, OptView, Setting, SettingView, Word,
};
use crate::paths;
use crate::paths::join_path;
use crate::pixels;
use crate::pixels::to_planes;
use crate::provenance;
use crate::provenance::DatasetFacts;
use crate::render;
use crate::render::{capture, capture_to, Action, Pass, RenderMode};
use crate::schedule::{validate_input_source, StartError};
use crate::text;
use crate::text::{decimal3_text, decimal_text, join2, join4};

verus! {

/// How the generator is called.
pub const USAGE: &'static str = "\
generate an ommatidia training set

usage: ommatidia-data [options]

  --out PATH                where to write the dataset  [data/train.omd]
  --samples N               number of scene/camera pairs  [64]
  --lr WxH                  low resolution extent  [128x128]
  --scale S                 high resolution is low times this  [2]
  --canonical-frames N      accumulated reference frames, 4 spp each [1024]
  --canonical-bounces N     maximum reference path depth [8]
  --input-frames N          sparse path-traced input samples per pixel [1]
  --input-bounces N         maximum input path depth; 3 reproduces historical
                            truncated inputs [8]
  --sequence-frames N       consecutive frames per scene [1]
  --camera-motion F         world-X camera translation per sequence frame [0]
  --random-camera-motion F  deterministic curved camera motion, with nominal
                            translation F per frame [0]
  --enclosed                put the scene in a room, so the emissive spheres
                            are the only light. Without it the fallback
                            environment is a white furnace and nothing in the
                            frame can be in shadow
  --ground-patches N        subdivide the central ground into N by N patches
                            with independent albedo, giving the frame detail
                            finer than a whole object  [0]
  --object-motion F         move one sphere and one box independently, with
                            nominal translation F per frame [0]
  --seed N                  base seed for scenes and cameras  [0]
  --device-id ID            adapter ID for this standalone process (hex or decimal)
  --shader-dir PATH         blade-render shader directory [../blade/blade-render/code]
  --preview DIR             also write PNGs of the first few pairs
  --no-gbuffer              store only colour, leaving out the G-buffer planes
  --hr-gbuffer              also store a high-resolution G-buffer for
                            geometry-aware upsampling experiments
  --svgf-input              capture Blade's built-in variance-guided filter
                            instead of raw ReSTIR; baseline comparisons only
  --restir-input            capture raw ReSTIR instead of sparse path tracing;
                            baseline comparisons only
  --checkpoint STEM         also run this Ommatidium checkpoint directly on
                            the live Blade views and write predicted previews
  --reference-from PATH     copy high-resolution records from a matched .omd
                            instead of rendering them again
  -h, --help                this message
";

/// The option `--out`.
pub const OUT: u32 = 0;

/// The option `--samples`.
pub const SAMPLES: u32 = 1;

/// The option `--lr`.
pub const LR: u32 = 2;

/// The option `--scale`.
pub const SCALE: u32 = 3;

/// The option `--canonical-frames`.
pub const CANONICAL_FRAMES: u32 = 4;

/// The option `--canonical-bounces`.
pub const CANONICAL_BOUNCES: u32 = 5;

/// The option `--input-frames`.
pub const INPUT_FRAMES: u32 = 6;

/// The option `--sequence-frames`.
pub const SEQUENCE_FRAMES: u32 = 7;

/// The option `--camera-motion`.
pub const CAMERA_MOTION: u32 = 8;

/// The option `--random-camera-motion`.
pub const RANDOM_CAMERA_MOTION: u32 = 9;

/// The option `--object-motion`.
pub const OBJECT_MOTION: u32 = 10;

/// The option `--enclosed`.
pub const ENCLOSED: u32 = 11;

/// The option `--ground-patches`.
pub const GROUND_PATCHES: u32 = 12;

/// The option `--seed`.
pub const SEED: u32 = 13;

/// The option `--device-id`.
pub const DEVICE_ID: u32 = 14;

/// The option `--shader-dir`.
pub const SHADER_DIR: u32 = 15;

/// The option `--preview`.
pub const PREVIEW: u32 = 16;

/// The option `--no-gbuffer`.
pub const NO_GBUFFER: u32 = 17;

/// The option `--hr-gbuffer`.
pub const HR_GBUFFER: u32 = 18;

/// The option `--svgf-input`.
pub const SVGF_INPUT: u32 = 19;

/// The option `--restir-input`.
pub const RESTIR_INPUT: u32 = 20;

/// The option `--checkpoint`.
pub const CHECKPOINT: u32 = 21;

/// The option `--reference-from`.
pub const REFERENCE_FROM: u32 = 22;

/// What asks for the usage text.
pub const HELP: u32 = 23;

/// The option `--input-bounces`.
pub const INPUT_BOUNCES: u32 = 24;

/// What the generator was asked to do. Real numbers stand as the bits of an `f32`.
#[derive(Debug)]
pub struct Args {
    pub out: String,
    pub samples: usize,
    pub lr_width: u32,
    pub lr_height: u32,
    pub scale: u32,
    pub canonical_frames: usize,
    pub canonical_bounces: u32,
    pub input_frames: usize,
    pub input_bounces: u32,
    pub sequence_frames: usize,
    pub camera_motion: u32,
    pub random_camera_motion: u32,
    pub object_motion: u32,
    pub enclosed: bool,
    pub ground_patches: usize,
    pub seed: u64,
    pub device_id: Option<u32>,
    pub shader_dir: Option<String>,
    pub preview: Option<String>,
    pub gbuffer: bool,
    pub hr_gbuffer: bool,
    pub svgf_input: bool,
    pub restir_input: bool,
    pub checkpoint: Option<String>,
    pub reference_from: Option<String>,
}

/// The options of the generator.
pub open spec fn option_table() -> Seq<OptView> {
    seq![
        OptView { name: "-h"@, id: HELP, kind: KindView::Help },
        OptView { name: "--help"@, id: HELP, kind: KindView::Help },
        OptView { name: "--out"@, id: OUT, kind: KindView::Text },
        OptView { name: "--samples"@, id: SAMPLES, kind: KindView::Integer(usize::MAX as u64) },
        OptView { name: "--lr"@, id: LR, kind: KindView::Extent },
        OptView { name: "--scale"@, id: SCALE, kind: KindView::Integer(u32::MAX as u64) },
        OptView { name: "--canonical-frames"@, id: CANONICAL_FRAMES, kind: KindView::Integer(usize::MAX as u64) },
        OptView { name: "--canonical-bounces"@, id: CANONICAL_BOUNCES, kind: KindView::Integer(u32::MAX as u64) },
        OptView { name: "--input-frames"@, id: INPUT_FRAMES, kind: KindView::Integer(usize::MAX as u64) },
        OptView { name: "--input-bounces"@, id: INPUT_BOUNCES, kind: KindView::Integer(u32::MAX as u64) },
        OptView { name: "--sequence-frames"@, id: SEQUENCE_FRAMES, kind: KindView::Integer(usize::MAX as u64) },
        OptView { name: "--camera-motion"@, id: CAMERA_MOTION, kind: KindView::Real },
        OptView { name: "--random-camera-motion"@, id: RANDOM_CAMERA_MOTION, kind: KindView::Real },
        OptView { name: "--object-motion"@, id: OBJECT_MOTION, kind: KindView::Real },
        OptView { name: "--enclosed"@, id: ENCLOSED, kind: KindView::Switch },
        OptView { name: "--ground-patches"@, id: GROUND_PATCHES, kind: KindView::Integer(usize::MAX as u64) },
        OptView { name: "--seed"@, id: SEED, kind: KindView::Integer(u64::MAX) },
        OptView { name: "--device-id"@, id: DEVICE_ID, kind: KindView::Device },
        OptView { name: "--shader-dir"@, id: SHADER_DIR, kind: KindView::Text },
        OptView { name: "--preview"@, id: PREVIEW, kind: KindView::Text },
        OptView { name: "--no-gbuffer"@, id: NO_GBUFFER, kind: KindView::Switch },
        OptView { name: "--hr-gbuffer"@, id: HR_GBUFFER, kind: KindView::Switch },
        OptView { name: "--svgf-input"@, id: SVGF_INPUT, kind: KindView::Switch },
        OptView { name: "--restir-input"@, id: RESTIR_INPUT, kind: KindView::Switch },
        OptView { name: "--checkpoint"@, id: CHECKPOINT, kind: KindView::Text },
        OptView { name: "--reference-from"@, id: REFERENCE_FROM, kind: KindView::Text },
    ]
}

/// The options of the generator.
fn options_list() -> (result: Vec<Opt>)
    ensures
        options::table_view(result@) == option_table(),
{
    let result: Vec<Opt> = vec![
        Opt { name: "-h", id: HELP, kind: Kind::Help },
        Opt { name: "--help", id: HELP, kind: Kind::Help },
        Opt { name: "--out", id: OUT, kind: Kind::Text },
        Opt { name: "--samples", id: SAMPLES, kind: Kind::Integer(usize::MAX as u64) },
        Opt { name: "--lr", id: LR, kind: Kind::Extent },
        Opt { name: "--scale", id: SCALE, kind: Kind::Integer(u32::MAX as u64) },
        Opt { name: "--canonical-frames", id: CANONICAL_FRAMES, kind: Kind::Integer(usize::MAX as u64) },
        Opt { name: "--canonical-bounces", id: CANONICAL_BOUNCES, kind: Kind::Integer(u32::MAX as u64) },
        Opt { name: "--input-frames", id: INPUT_FRAMES, kind: Kind::Integer(usize::MAX as u64) },
        Opt { name: "--input-bounces", id: INPUT_BOUNCES, kind: Kind::Integer(u32::MAX as u64) },
        Opt { name: "--sequence-frames", id: SEQUENCE_FRAMES, kind: Kind::Integer(usize::MAX as u64) },
        Opt { name: "--camera-motion", id: CAMERA_MOTION, kind: Kind::Real },
        Opt { name: "--random-camera-motion", id: RANDOM_CAMERA_MOTION, kind: Kind::Real },
        Opt { name: "--object-motion", id: OBJECT_MOTION, kind: Kind::Real },
        Opt { name: "--enclosed", id: ENCLOSED, kind: Kind::Switch },
        Opt { name: "--ground-patches", id: GROUND_PATCHES, kind: Kind::Integer(usize::MAX as u64) },
        Opt { name: "--seed", id: SEED, kind: Kind::Integer(u64::MAX) },
        Opt { name: "--device-id", id: DEVICE_ID, kind: Kind::Device },
        Opt { name: "--shader-dir", id: SHADER_DIR, kind: Kind::Text },
        Opt { name: "--preview", id: PREVIEW, kind: Kind::Text },
        Opt { name: "--no-gbuffer", id: NO_GBUFFER, kind: Kind::Switch },
        Opt { name: "--hr-gbuffer", id: HR_GBUFFER, kind: Kind::Switch },
        Opt { name: "--svgf-input", id: SVGF_INPUT, kind: Kind::Switch },
        Opt { name: "--restir-input", id: RESTIR_INPUT, kind: Kind::Switch },
        Opt { name: "--checkpoint", id: CHECKPOINT, kind: Kind::Text },
        Opt { name: "--reference-from", id: REFERENCE_FROM, kind: Kind::Text },
    ];
    assert(options::table_view(result@) =~= option_table());
    result
}

/// The settings that a command line gives the generator.
pub open spec fn line_settings(words: Seq<Word>) -> Result<Seq<SettingView>, FaultView> {
    options::scanned(options::words_view(words), option_table(), false, 0, Seq::empty())
}

/// Each value is the last one given, or else the default.
pub open spec fn follows(args: Args, s: Seq<SettingView>) -> bool {
    &&& args.out@ == options::text_or(s, OUT, "data/train.omd"@)
    &&& args.samples == options::integer_or(s, SAMPLES, 64) as usize
    &&& (args.lr_width, args.lr_height) == options::extent_or(s, LR, (128, 128))
    &&& args.scale == options::integer_or(s, SCALE, 2) as u32
    &&& args.canonical_frames == options::integer_or(s, CANONICAL_FRAMES, 1024) as usize
    &&& args.canonical_bounces == options::integer_or(s, CANONICAL_BOUNCES, 8) as u32
    &&& args.input_frames == options::integer_or(s, INPUT_FRAMES, 1) as usize
    &&& args.input_bounces == options::integer_or(s, INPUT_BOUNCES, 8) as u32
    &&& args.sequence_frames == options::integer_or(s, SEQUENCE_FRAMES, 1) as usize
    &&& args.camera_motion == options::real_or(s, CAMERA_MOTION, 0)
    &&& args.random_camera_motion == options::real_or(s, RANDOM_CAMERA_MOTION, 0)
    &&& args.object_motion == options::real_or(s, OBJECT_MOTION, 0)
    &&& args.enclosed == options::given(s, ENCLOSED)
    &&& args.ground_patches == options::integer_or(s, GROUND_PATCHES, 0) as usize
    &&& args.seed == options::integer_or(s, SEED, 0)
    &&& args.device_id == options::device_given(s, DEVICE_ID)
    &&& options::text_option(args.shader_dir) == options::text_given(s, SHADER_DIR)
    &&& options::text_option(args.preview) == options::text_given(s, PREVIEW)
    &&& args.gbuffer == !options::given(s, NO_GBUFFER)
    &&& args.hr_gbuffer == options::given(s, HR_GBUFFER)
    &&& args.svgf_input == options::given(s, SVGF_INPUT)
    &&& args.restir_input == options::given(s, RESTIR_INPUT)
    &&& options::text_option(args.checkpoint) == options::text_given(s, CHECKPOINT)
    &&& options::text_option(args.reference_from) == options::text_given(s, REFERENCE_FROM)
}

/// Sets each value from the last one given, or else the default.
fn collect(settings: &Vec<Setting>) -> (result: Args)
    ensures
        follows(result, options::settings_view(settings@)),
{
    let (lr_width, lr_height): (u32, u32) = last_extent(settings, LR, (128, 128));
    Args {
        out: last_text_or(settings, OUT, "data/train.omd"),
        samples: last_integer(settings, SAMPLES, 64) as usize,
        lr_width,
        lr_height,
        scale: last_integer(settings, SCALE, 2) as u32,
        canonical_frames: last_integer(settings, CANONICAL_FRAMES, 1024) as usize,
        canonical_bounces: last_integer(settings, CANONICAL_BOUNCES, 8) as u32,
        input_frames: last_integer(settings, INPUT_FRAMES, 1) as usize,
        input_bounces: last_integer(settings, INPUT_BOUNCES, 8) as u32,
        sequence_frames: last_integer(settings, SEQUENCE_FRAMES, 1) as usize,
        camera_motion: last_real(settings, CAMERA_MOTION, 0),
        random_camera_motion: last_real(settings, RANDOM_CAMERA_MOTION, 0),
        object_motion: last_real(settings, OBJECT_MOTION, 0),
        enclosed: is_given(settings, ENCLOSED),
        ground_patches: last_integer(settings, GROUND_PATCHES, 0) as usize,
        seed: last_integer(settings, SEED, 0),
        device_id: last_device(settings, DEVICE_ID),
        shader_dir: last_text(settings, SHADER_DIR),
        preview: last_text(settings, PREVIEW),
        gbuffer: !is_given(settings, NO_GBUFFER),
        hr_gbuffer: is_given(settings, HR_GBUFFER),
        svgf_input: is_given(settings, SVGF_INPUT),
        restir_input: is_given(settings, RESTIR_INPUT),
        checkpoint: last_text(settings, CHECKPOINT),
        reference_from: last_text(settings, REFERENCE_FROM),
    }
}

/// Why the generator does not start.
#[derive(Debug)]
pub enum ArgsError {
    /// The command line does not read.
    Line(Fault),
    /// The scale is below two.
    Scale(u32),
    /// No sample is asked for.
    Samples,
    /// An input is to have no sample.
    InputFrames,
    /// A sequence is to have no frame.
    SequenceFrames,
    /// The camera motion is not finite.
    CameraMotion,
    /// The random camera motion is not finite, or negative.
    RandomCameraMotion,
    /// The object motion is not finite, or negative.
    ObjectMotion,
    /// Both camera motions are asked for.
    BothMotions,
    /// Something moves, but there is one frame only.
    MotionNeedsSequence,
    /// Something moves, but the references do not.
    MotionNeedsReferences,
    /// Both comparison inputs are asked for.
    BothInputs,
    /// References are reused, but nothing shows that they fit.
    ReferenceNeedsGbuffer,
}

impl ArgsError {
    /// What is said of it, apart from what a command line or a scale adds.
    pub open spec fn said(self) -> Seq<char> {
        match self {
            ArgsError::Line(_) => "the command line does not read"@,
            ArgsError::Scale(_) => "--scale must be at least 2"@,
            ArgsError::Samples => "--samples must be positive"@,
            ArgsError::InputFrames => "--input-frames must be positive"@,
            ArgsError::SequenceFrames => "--sequence-frames must be positive"@,
            ArgsError::CameraMotion => "--camera-motion must be finite"@,
            ArgsError::RandomCameraMotion => "--random-camera-motion must be finite and non-negative"@,
            ArgsError::ObjectMotion => "--object-motion must be finite and non-negative"@,
            ArgsError::BothMotions => "--camera-motion and --random-camera-motion are mutually exclusive"@,
            ArgsError::MotionNeedsSequence => "motion needs --sequence-frames above one"@,
            ArgsError::MotionNeedsReferences => "motion cannot reuse static references"@,
            ArgsError::BothInputs => "--svgf-input and --restir-input are mutually exclusive"@,
            ArgsError::ReferenceNeedsGbuffer => "--reference-from needs the G-buffer to verify scene alignment"@,
        }
    }

    /// Says why in words.
    pub fn words(&self) -> (result: &'static str)
        ensures
            result@ == self.said(),
    {
        match self {
            ArgsError::Line(_) => "the command line does not read",
            ArgsError::Scale(_) => "--scale must be at least 2",
            ArgsError::Samples => "--samples must be positive",
            ArgsError::InputFrames => "--input-frames must be positive",
            ArgsError::SequenceFrames => "--sequence-frames must be positive",
            ArgsError::CameraMotion => "--camera-motion must be finite",
            ArgsError::RandomCameraMotion => "--random-camera-motion must be finite and non-negative",
            ArgsError::ObjectMotion => "--object-motion must be finite and non-negative",
            ArgsError::BothMotions => "--camera-motion and --random-camera-motion are mutually exclusive",
            ArgsError::MotionNeedsSequence => "motion needs --sequence-frames above one",
            ArgsError::MotionNeedsReferences => "motion cannot reuse static references",
            ArgsError::BothInputs => "--svgf-input and --restir-input are mutually exclusive",
            ArgsError::ReferenceNeedsGbuffer => "--reference-from needs the G-buffer to verify scene alignment",
        }
    }
}

/// Whether anything moves.
pub open spec fn moving(s: Seq<SettingView>) -> bool {
    !bits::equal32(options::real_or(s, CAMERA_MOTION, 0), 0) || !bits::equal32(
        options::real_or(s, RANDOM_CAMERA_MOTION, 0),
        0,
    ) || !bits::equal32(options::real_or(s, OBJECT_MOTION, 0), 0)
}

/// Whether a number is finite and not negative.
pub open spec fn distance(value: u32) -> bool {
    bits::finite32(value) && !bits::less32(value, 0)
}

/// What keeps a run with these settings from starting: the first of these that
/// holds.
pub open spec fn refusal(s: Seq<SettingView>) -> Option<ArgsError> {
    let scale = options::integer_or(s, SCALE, 2) as u32;
    let camera = options::real_or(s, CAMERA_MOTION, 0);
    let random = options::real_or(s, RANDOM_CAMERA_MOTION, 0);
    let reused = options::text_given(s, REFERENCE_FROM) is Some;
    if scale < 2 {
        Some(ArgsError::Scale(scale))
    } else if options::integer_or(s, SAMPLES, 64) as usize == 0 {
        Some(ArgsError::Samples)
    } else if options::integer_or(s, INPUT_FRAMES, 1) as usize == 0 {
        Some(ArgsError::InputFrames)
    } else if options::integer_or(s, SEQUENCE_FRAMES, 1) as usize == 0 {
        Some(ArgsError::SequenceFrames)
    } else if !bits::finite32(camera) {
        Some(ArgsError::CameraMotion)
    } else if !distance(random) {
        Some(ArgsError::RandomCameraMotion)
    } else if !distance(options::real_or(s, OBJECT_MOTION, 0)) {
        Some(ArgsError::ObjectMotion)
    } else if !bits::equal32(camera, 0) && !bits::equal32(random, 0) {
        Some(ArgsError::BothMotions)
    } else if moving(s) && options::integer_or(s, SEQUENCE_FRAMES, 1) as usize == 1 {
        Some(ArgsError::MotionNeedsSequence)
    } else if moving(s) && reused {
        Some(ArgsError::MotionNeedsReferences)
    } else if options::given(s, SVGF_INPUT) && options::given(s, RESTIR_INPUT) {
        Some(ArgsError::BothInputs)
    } else if reused && options::given(s, NO_GBUFFER) {
        Some(ArgsError::ReferenceNeedsGbuffer)
    } else {
        None
    }
}

/// Whether a number is finite and not negative.
fn is_distance(value: u32) -> (result: bool)
    ensures
        result == distance(value),
{
    is_finite32(value) && !is_less32(value, 0)
}

/// Finds what keeps a run from starting.
fn check(args: &Args) -> (result: Result<(), ArgsError>)
    ensures
        forall|s: Seq<SettingView>| #[trigger]
            follows(*args, s) ==> match refusal(s) {
                Some(error) => result == Err::<(), ArgsError>(error),
                None => result is Ok,
            },
{
    if args.scale < 2 {
        return Err(ArgsError::Scale(args.scale));
    }
    if args.samples == 0 {
        return Err(ArgsError::Samples);
    }
    if args.input_frames == 0 {
        return Err(ArgsError::InputFrames);
    }
    if args.sequence_frames == 0 {
        return Err(ArgsError::SequenceFrames);
    }
    if !is_finite32(args.camera_motion) {
        return Err(ArgsError::CameraMotion);
    }
    if !is_distance(args.random_camera_motion) {
        return Err(ArgsError::RandomCameraMotion);
    }
    if !is_distance(args.object_motion) {
        return Err(ArgsError::ObjectMotion);
    }
    let moves_camera = !is_equal32(args.camera_motion, 0);
    let moves_randomly = !is_equal32(args.random_camera_motion, 0);
    if moves_camera && moves_randomly {
        return Err(ArgsError::BothMotions);
    }
    let moves = moves_camera || moves_randomly || !is_equal32(args.object_motion, 0);
    if moves && args.sequence_frames == 1 {
        return Err(ArgsError::MotionNeedsSequence);
    }
    if moves && args.reference_from.is_some() {
        return Err(ArgsError::MotionNeedsReferences);
    }
    if args.svgf_input && args.restir_input {
        return Err(ArgsError::BothInputs);
    }
    if args.reference_from.is_some() && !args.gbuffer {
        return Err(ArgsError::ReferenceNeedsGbuffer);
    }
    Ok(())
}

/// Reads the generator's command line.
///
/// The line must read, and the values that it gives must let a run start.
pub fn parse_args(words: &Vec<Word>) -> (result: Result<Args, ArgsError>)
    ensures
        match line_settings(words@) {
            Err(fault) => result matches Err(ArgsError::Line(f)) && f@ == fault,
            Ok(settings) => match refusal(settings) {
                Some(error) => result == Err::<Args, ArgsError>(error),
                None => result matches Ok(args) && follows(args, settings),
            },
        },
{
    let table = options_list();
    match scan(words, &table, false) {
        Err(fault) => Err(ArgsError::Line(fault)),
        Ok(settings) => {
            let args = collect(&settings);
            match check(&args) {
                Err(error) => Err(error),
                Ok(_) => Ok(args),
            }
        },
    }
}

/// The planes of a record at either resolution: colour, and geometry where it is
/// captured, with motion where there are sequences.
pub open spec fn record_planes(geometry: bool, sequences: bool) -> Set<Plane> {
    let bare = Set::<Plane>::empty().insert(Plane::Color);
    if !geometry {
        bare
    } else if sequences {
        gbuffer::planes().insert(Plane::Motion).insert(Plane::Color)
    } else {
        gbuffer::planes().insert(Plane::Color)
    }
}

/// Where the input of a dataset comes from.
pub open spec fn input_source(svgf: bool, restir: bool) -> InputSource {
    if svgf {
        InputSource::Svgf
    } else if restir {
        InputSource::RawRestir
    } else {
        InputSource::PathTrace
    }
}

/// Whether a layout is what a run asks for.
pub open spec fn laid_out(layout: Layout, args: Args) -> bool {
    &&& layout.scale == args.scale
    &&& layout.lr_width == args.lr_width
    &&& layout.lr_height == args.lr_height
    &&& layout.lr_source == input_source(args.svgf_input, args.restir_input)
    &&& layout.lr_planes@ == record_planes(args.gbuffer, args.sequence_frames > 1)
    &&& layout.hr_planes@ == record_planes(args.hr_gbuffer, args.sequence_frames > 1)
}

/// The set of planes of a record.
fn plane_choice(geometry: bool, sequences: bool) -> (result: PlaneSet)
    ensures
        result@ == record_planes(geometry, sequences),
{
    if !geometry {
        PlaneSet::new().with(Plane::Color)
    } else if sequences {
        gbuffer::plane_set().with(Plane::Motion).with(Plane::Color)
    } else {
        gbuffer::plane_set().with(Plane::Color)
    }
}

/// Lays out the records of a run.
pub fn choose_layout(args: &Args) -> (result: Layout)
    ensures
        laid_out(result, *args),
{
    let lr_source = if args.svgf_input {
        InputSource::Svgf
    } else if args.restir_input {
        InputSource::RawRestir
    } else {
        InputSource::PathTrace
    };
    Layout {
        scale: args.scale,
        lr_width: args.lr_width,
        lr_height: args.lr_height,
        lr_source,
        lr_planes: plane_choice(args.gbuffer, args.sequence_frames > 1),
        hr_planes: plane_choice(args.hr_gbuffer, args.sequence_frames > 1),
    }
}

/// Why references cannot be reused.
#[derive(Clone, Copy, Debug, PartialEq, Eq, Structural)]
pub enum ReferenceError {
    Sequences,
    Scale,
    Width,
    Height,
    Planes,
    NoColor,
    /// There are too few of them.
    Count,
}

/// What is wrong with references from a dataset of this layout: the first of
/// these that holds.
pub open spec fn reference_fault(
    source: Layout,
    sequence_length: usize,
    len: usize,
    layout: Layout,
    samples: usize,
) -> Option<ReferenceError> {
    if sequence_length != 1 {
        Some(ReferenceError::Sequences)
    } else if source.scale != layout.scale {
        Some(ReferenceError::Scale)
    } else if source.lr_width != layout.lr_width {
        Some(ReferenceError::Width)
    } else if source.lr_height != layout.lr_height {
        Some(ReferenceError::Height)
    } else if source.lr_planes@ != layout.lr_planes@.remove(Plane::Motion) {
        Some(ReferenceError::Planes)
    } else if !source.hr_planes@.contains(Plane::Color) {
        Some(ReferenceError::NoColor)
    } else if len < samples {
        Some(ReferenceError::Count)
    } else {
        None
    }
}

/// Checks references that are to be reused.
pub fn check_references(
    source: &Layout,
    sequence_length: usize,
    len: usize,
    layout: &Layout,
    samples: usize,
) -> (result: Result<(), ReferenceError>)
    ensures
        match reference_fault(*source, sequence_length, len, *layout, samples) {
            Some(error) => result == Err::<(), ReferenceError>(error),
            None => result is Ok,
        },
{
    if sequence_length != 1 {
        Err(ReferenceError::Sequences)
    } else if source.scale != layout.scale {
        Err(ReferenceError::Scale)
    } else if source.lr_width != layout.lr_width {
        Err(ReferenceError::Width)
    } else if source.lr_height != layout.lr_height {
        Err(ReferenceError::Height)
    } else if !source.lr_planes.same_as(&layout.lr_planes.without(Plane::Motion)) {
        Err(ReferenceError::Planes)
    } else if !source.hr_planes.contains(Plane::Color) {
        Err(ReferenceError::NoColor)
    } else if len < samples {
        Err(ReferenceError::Count)
    } else {
        Ok(())
    }
}

/// Whether anything is rendered at high resolution: references that are not
/// reused, or geometry.
pub fn renders_high(args: &Args) -> (result: bool)
    ensures
        result == (args.reference_from is None || args.hr_gbuffer),
{
    args.reference_from.is_none() || args.hr_gbuffer
}

/// The pass that makes the inputs.
pub open spec fn input_pass_of(args: Args) -> Pass {
    if args.svgf_input || args.restir_input {
        Pass::RealTime
    } else {
        Pass::PathTrace { frames: args.input_frames }
    }
}

/// The pass that makes the inputs.
pub fn input_pass(args: &Args) -> (result: Pass)
    ensures
        result == input_pass_of(*args),
{
    if args.svgf_input || args.restir_input {
        Pass::RealTime
    } else {
        Pass::PathTrace { frames: args.input_frames }
    }
}

/// How a high-resolution picture is made.
#[derive(Clone, Copy, Debug, PartialEq, Eq, Structural)]
pub enum HighPass {
    /// A reference is rendered, to this path depth.
    Render { pass: Pass, max_bounces: u32 },
    /// A reference is copied, and its geometry rendered.
    Geometry { pass: Pass },
    /// A reference is copied.
    Copy,
}

/// How the high-resolution pictures of a run are made.
pub open spec fn high_pass_of(args: Args) -> HighPass {
    if args.reference_from is None {
        HighPass::Render {
            pass: Pass::Canonical { frames: args.canonical_frames },
            max_bounces: args.canonical_bounces,
        }
    } else if args.hr_gbuffer {
        HighPass::Geometry { pass: Pass::PathTrace { frames: 1 } }
    } else {
        HighPass::Copy
    }
}

/// How the high-resolution pictures of a run are made.
pub fn high_pass(args: &Args) -> (result: HighPass)
    ensures
        result == high_pass_of(*args),
{
    if args.reference_from.is_none() {
        HighPass::Render {
            pass: Pass::Canonical { frames: args.canonical_frames },
            max_bounces: args.canonical_bounces,
        }
    } else if args.hr_gbuffer {
        HighPass::Geometry { pass: Pass::PathTrace { frames: 1 } }
    } else {
        HighPass::Copy
    }
}

/// How deep the paths of the inputs are: as deep as was asked for where they are
/// traced, and else as deep as the pass has them.
pub open spec fn input_depth_of(args: Args) -> u32 {
    if input_pass_of(args) is PathTrace {
        args.input_bounces
    } else {
        input_pass_of(args).rays().max_bounces
    }
}

/// How deep the paths of the inputs are.
pub fn input_depth(args: &Args) -> (result: u32)
    ensures
        result == input_depth_of(*args),
{
    if args.svgf_input || args.restir_input {
        Pass::RealTime.ray_config().max_bounces
    } else {
        args.input_bounces
    }
}

/// Plans what is done at low resolution for a record: the pass that makes the
/// inputs, to their depth.
pub fn capture_input(args: &Args) -> (result: Vec<Action>)
    ensures
        result@ == render::captured(
            input_pass_of(*args),
            input_depth_of(*args),
            args.svgf_input,
            args.gbuffer,
        ),
{
    capture_to(input_pass(args), input_depth(args), args.svgf_input, args.gbuffer)
}

/// Plans what is done at high resolution for a record: the reference to its own
/// depth, the geometry of a reference that is copied, or nothing.
pub fn capture_high(args: &Args) -> (result: Vec<Action>)
    ensures
        result@ == match high_pass_of(*args) {
            HighPass::Render { pass, max_bounces } => render::captured(
                pass,
                max_bounces,
                false,
                args.hr_gbuffer,
            ),
            HighPass::Geometry { pass } => render::captured(
                pass,
                pass.rays().max_bounces,
                false,
                true,
            ),
            HighPass::Copy => seq![],
        },
{
    match high_pass(args) {
        HighPass::Render { pass, max_bounces } => capture_to(
            pass,
            max_bounces,
            false,
            args.hr_gbuffer,
        ),
        HighPass::Geometry { pass } => capture(pass, false, true),
        HighPass::Copy => Vec::new(),
    }
}

/// How many records a run writes, where that is a number.
pub fn record_count(samples: usize, sequence_frames: usize) -> (result: Option<usize>)
    ensures
        match result {
            Some(count) => count == samples * sequence_frames,
            None => samples * sequence_frames > usize::MAX,
        },
{
    samples.checked_mul(sequence_frames)
}

/// What one record of a run takes.
#[derive(Clone, Copy, Debug, PartialEq, Eq, Structural)]
pub struct RecordPlan {
    pub scene: usize,
    pub frame: usize,
    /// The frame before, or the first one itself.
    pub previous: usize,
    /// A scene begins.
    pub fresh: bool,
    /// What the scene is built from.
    pub scene_seed: u64,
    /// What picks the objects that move.
    pub split_seed: u64,
    /// What the motions are made from.
    pub motion_seed: u64,
    /// The pictures are written out as well.
    pub preview: bool,
    /// The ranges of the planes are reported.
    pub report: bool,
    /// Progress is reported.
    pub log: bool,
}

/// How many records are written out as pictures.
pub const PREVIEWS: usize = 4;

/// What a scene of a run is built from.
pub open spec fn scene_seed(seed: u64, scene: int) -> u64 {
    seed ^ vstd::wrapping::u64_specs::wrapping_mul(scene as u64, 0x9E37_79B9)
}

/// What record `index` of a run takes.
pub open spec fn record_plan(
    seed: u64,
    sequence_frames: int,
    preview: bool,
    index: int,
    count: int,
) -> RecordPlan {
    let scene = index / sequence_frames;
    let frame = index % sequence_frames;
    RecordPlan {
        scene: scene as usize,
        frame: frame as usize,
        previous: (if frame > 0 {
            frame - 1
        } else {
            0
        }) as usize,
        fresh: frame == 0,
        scene_seed: scene_seed(seed, scene),
        split_seed: seed ^ (scene as u64),
        motion_seed: seed ^ vstd::wrapping::u64_specs::wrapping_mul(
            scene as u64,
            0xD1B5_4A32_D192_ED03,
        ),
        preview: preview && index < PREVIEWS,
        report: index == 0,
        log: index % 8 == 0 || index + 1 == count,
    }
}

/// Plans record `index` of a run.
pub fn plan_record(
    seed: u64,
    sequence_frames: usize,
    preview: bool,
    index: usize,
    count: usize,
) -> (result: RecordPlan)
    requires
        sequence_frames > 0,
        index < count,
    ensures
        result == record_plan(
            seed,
            sequence_frames as int,
            preview,
            index as int,
            count as int,
        ),
{
    let scene: usize = index / sequence_frames;
    let frame: usize = index % sequence_frames;
    RecordPlan {
        scene,
        frame,
        previous: if frame > 0 {
            frame - 1
        } else {
            0
        },
        fresh: frame == 0,
        scene_seed: seed ^ (scene as u64).wrapping_mul(0x9E37_79B9),
        split_seed: seed ^ (scene as u64),
        motion_seed: seed ^ (scene as u64).wrapping_mul(0xD1B5_4A32_D192_ED03),
        preview: preview && index < PREVIEWS,
        report: index == 0,
        log: index % 8 == 0 || index + 1 == count,
    }
}

/// The records of a run are the frames of its scenes, each once, in order.
pub proof fn records_are_frames(sequence_frames: int, index: int, count: int, scenes: int)
    requires
        sequence_frames > 0,
        count == scenes * sequence_frames,
        0 <= index < count <= usize::MAX,
    ensures
        ({
            let plan = record_plan(0, sequence_frames, false, index, count);
            &&& plan.scene < scenes
            &&& plan.frame < sequence_frames
            &&& plan.scene * sequence_frames + plan.frame == index
        }),
{
    vstd::arithmetic::div_mod::lemma_fundamental_div_mod(index, sequence_frames);
    vstd::arithmetic::div_mod::lemma_div_pos_is_pos(index, sequence_frames);
    vstd::arithmetic::mul::lemma_mul_is_commutative(sequence_frames, index / sequence_frames);
    vstd::arithmetic::mul::lemma_mul_is_commutative(scenes, sequence_frames);
    vstd::arithmetic::div_mod::lemma_multiply_divide_lt(index, sequence_frames, scenes);
    assert(index / sequence_frames <= index) by (nonlinear_arith)
        requires
            index >= 0,
            sequence_frames > 0,
    ;
    assert(index % sequence_frames <= index) by (nonlinear_arith)
        requires
            index >= 0,
            sequence_frames > 0,
    ;
}

/// The seed of the path of a moving object.
pub fn object_seed(motion_seed: u64, object: usize) -> (result: u64)
    ensures
        result == motion_seed ^ vstd::wrapping::u64_specs::wrapping_mul(
            object as u64,
            0x9E37_79B9_7F4A_7C15,
        ) ^ 0x8EBC_6AF0_9C88_C6E3,
{
    motion_seed ^ (object as u64).wrapping_mul(0x9E37_79B9_7F4A_7C15) ^ 0x8EBC_6AF0_9C88_C6E3
}

/// What the motion of the camera is made from.
pub fn camera_seed(motion_seed: u64) -> (result: u64)
    ensures
        result == motion_seed ^ 0xA24B_AED4_963E_E407,
{
    motion_seed ^ 0xA24B_AED4_963E_E407
}

/// What the choice of the objects that move is made from.
pub fn mover_seed(split_seed: u64) -> (result: u64)
    ensures
        result == split_seed ^ 0xE703_7ED1_A0B4_28DB,
{
    split_seed ^ 0xE703_7ED1_A0B4_28DB
}

/// Whether a motion of this step has left its start: never at the first frame.
pub fn has_moved(frame: usize, step: u32) -> (result: bool)
    ensures
        result == (frame != 0 && !bits::equal32(step, 0)),
{
    frame != 0 && !is_equal32(step, 0)
}

/// A record: the colour channel by channel, then the other planes as they were
/// captured.
pub fn to_record<T: Copy>(color: &[T], planes: Option<&Vec<T>>, texels: usize) -> (result: Vec<T>)
    requires
        color@.len() == texels * 3,
    ensures
        pixels::interleaves(color@, result@.take(texels * 3), texels as int),
        result@.len() == texels * 3 + match planes {
            Some(list) => list@.len(),
            None => 0,
        },
        planes matches Some(list) ==> result@.skip(texels * 3) == list@,
{
    let mut out = to_planes(color, texels);
    let ghost colors = out@;
    match planes {
        Some(list) => {
            let mut i: usize = 0;
            while i < list.len()
                invariant
                    i <= list.len(),
                    out@ == colors + list@.take(i as int),
                decreases list.len() - i,
            {
                out.push(list[i]);
                assert(list@.take(i + 1) =~= list@.take(i as int).push(list@[i as int]));
                i = i + 1;
            }
            assert(list@.take(list.len() as int) =~= list@);
            assert(out@.skip(texels * 3) =~= list@);
        },
        None => {},
    }
    assert(out@.take(texels * 3) =~= colors);
    out
}

/// Whether a record shows the scene of a reused reference: what follows the
/// colour is the same, as far as the reference goes. Values are the bits of
/// `f16` numbers.
pub open spec fn shows_same_scene(record: Seq<u16>, reference: Seq<u16>, start: int) -> bool {
    forall|i: int|
        start <= i < reference.len() ==> bits::equal16(#[trigger] record[i], reference[i])
}

/// Compares a record with a reused reference.
pub fn same_scene(record: &[u16], reference: &[u16], start: usize) -> (result: bool)
    requires
        start <= reference@.len() <= record@.len(),
    ensures
        result == shows_same_scene(record@, reference@, start as int),
{
    let mut i: usize = start;
    while i < reference.len()
        invariant
            start <= i <= reference@.len() <= record@.len(),
            forall|j: int|
                start <= j < i ==> bits::equal16(#[trigger] record@[j], reference@[j]),
        decreases reference@.len() - i,
    {
        if !is_equal16(record[i], reference[i]) {
            assert(!bits::equal16(record@[i as int], reference@[i as int]));
            return false;
        }
        i = i + 1;
    }
    true
}

/// A channel of a record: the component of a plane.
#[derive(Clone, Copy, Debug, PartialEq, Eq, Structural)]
pub struct Channel {
    pub plane: Plane,
    pub component: usize,
}

/// The components of a plane.
pub open spec fn components(plane: Plane) -> Seq<Channel> {
    Seq::new(plane.width(), |k: int| Channel { plane, component: k as usize })
}

/// The components of planes, one plane after the other.
pub open spec fn channels_of(planes: Seq<Plane>) -> Seq<Channel>
    decreases planes.len(),
{
    if planes.len() == 0 {
        Seq::empty()
    } else {
        channels_of(planes.drop_last()) + components(planes.last())
    }
}

/// Lists the channels of a record, in record order.
pub fn report_planes(planes: &PlaneSet) -> (result: Vec<Channel>)
    ensures
        result@ == channels_of(dataset::walk(planes@, 0)),
{
    let list = planes.list();
    let mut channels: Vec<Channel> = Vec::new();
    let mut i: usize = 0;
    assert(list@.take(0) =~= Seq::empty());
    while i < list.len()
        invariant
            i <= list.len(),
            channels@ == channels_of(list@.take(i as int)),
        decreases list.len() - i,
    {
        let plane = list[i];
        let ghost before = channels@;
        let count: usize = plane.channels();
        let mut k: usize = 0;
        assert(before + components(plane).take(0) =~= before);
        while k < count
            invariant
                k <= count,
                count == plane.width(),
                channels@ == before + components(plane).take(k as int),
            decreases count - k,
        {
            let channel = Channel { plane, component: k };
            channels.push(channel);
            assert(components(plane).take(k + 1) =~= components(plane).take(k as int).push(
                channel,
            ));
            assert(channels@ =~= before + components(plane).take(k + 1));
            k = k + 1;
        }
        assert(components(plane).take(count as int) =~= components(plane));
        assert(list@.take(i + 1).drop_last() =~= list@.take(i as int));
        i = i + 1;
    }
    assert(list@.take(list.len() as int) =~= list@);
    channels
}

/// Where the shaders of the renderer are: where the caller says, or in the
/// checkout beside this one.
pub fn shader_dir(override_dir: Option<&str>, manifest_dir: &str) -> (result: String)
    ensures
        result@ == match override_dir {
            Some(dir) => dir@,
            None => paths::joined(manifest_dir@, "../../blade/blade-render/code"@),
        },
{
    match override_dir {
        Some(dir) => dir.to_owned(),
        None => join_path(manifest_dir, "../../blade/blade-render/code"),
    }
}

/// How many workers to start: one for each processor, up to eight, and two
/// where their number is not known.
pub fn num_workers(available: Option<usize>) -> (result: usize)
    ensures
        result == match available {
            Some(n) => if n < 8 {
                n
            } else {
                8
            },
            None => 2,
        },
{
    match available {
        Some(n) => if n < 8 {
            n
        } else {
            8
        },
        None => 2,
    }
}

/// What the model of a scene is called, or the model of an object that moves in
/// it.
pub fn model_name(scene: usize, moving: Option<usize>) -> (result: String)
    ensures
        result@ == match moving {
            None => "scene"@ + text::decimal(scene as nat),
            Some(object) => "scene"@ + text::decimal(scene as nat) + "-moving"@ + text::decimal(
                object as nat,
            ),
        },
{
    let number = decimal_text(scene as u64);
    match moving {
        None => join2("scene", number.as_str()),
        Some(object) => join4(
            "scene",
            number.as_str(),
            "-moving",
            decimal_text(object as u64).as_str(),
        ),
    }
}

/// What a preview is called: the number of the record, and what it shows.
pub fn preview_name(index: usize, suffix: &str) -> (result: String)
    ensures
        result@ == text::decimal3(index as nat) + "-"@ + suffix@ + ".png"@,
{
    join4(decimal3_text(index as u64).as_str(), "-", suffix, ".png")
}

/// An unsigned number in JSON.
pub open spec fn number(n: u64) -> JsonView {
    JsonView::Number(Numeral::Unsigned(n))
}

/// What the sidecar of a capture says of its paths. The depths are known to match
/// where inputs and references are traced in the same run; nothing is said of how
/// a copied reference was made.
pub open spec fn path_record(args: Args, records: usize) -> JsonView {
    let traced = input_pass_of(args) is PathTrace;
    let fresh = args.reference_from is None;
    JsonView::Object(
        seq![
            (
                "canonical_frames"@,
                if fresh {
                    number(args.canonical_frames as u64)
                } else {
                    JsonView::Null
                },
            ),
            ("capture_seed"@, number(args.seed)),
            ("family_ids"@, JsonView::Array(seq![])),
            (
                "input_estimator"@,
                if traced {
                    JsonView::Text("independent-paths"@)
                } else {
                    JsonView::Null
                },
            ),
            ("input_frames"@, number(args.input_frames as u64)),
            ("input_max_bounces"@, number(input_depth_of(args) as u64)),
            (
                "matching_path_depth"@,
                JsonView::Bool(traced && fresh && args.input_bounces == args.canonical_bounces),
            ),
            ("records"@, number(records as u64)),
            (
                "reference_from"@,
                match args.reference_from {
                    Some(path) => JsonView::Text(path@),
                    None => JsonView::Null,
                },
            ),
            (
                "reference_max_bounces"@,
                if fresh {
                    number(args.canonical_bounces as u64)
                } else {
                    JsonView::Null
                },
            ),
            (
                "scene_seeds"@,
                JsonView::Array(
                    Seq::new(args.samples as nat, |i: int| number(scene_seed(args.seed, i))),
                ),
            ),
        ],
    )
}

/// An unsigned number in JSON.
fn number_json(n: u64) -> (result: Json)
    ensures
        result@ == number(n),
{
    Json::Number(Numeral::Unsigned(n))
}

/// Lists what the scenes of a run are built from.
fn list_seeds(seed: u64, samples: usize) -> (result: Json)
    ensures
        result@ == JsonView::Array(
            Seq::new(samples as nat, |i: int| number(scene_seed(seed, i))),
        ),
{
    let mut items: Vec<Json> = Vec::new();
    let mut i: usize = 0;
    while i < samples
        invariant
            i <= samples,
            items.len() == i,
            forall|j: int|
                0 <= j < i ==> (#[trigger] items@[j])@ == number(scene_seed(seed, j)),
        decreases samples - i,
    {
        items.push(number_json(seed ^ (i as u64).wrapping_mul(0x9E37_79B9)));
        i = i + 1;
    }
    proof {
        json::each_item_says(items@);
        assert(json::items_said(items@) =~= Seq::new(
            samples as nat,
            |i: int| number(scene_seed(seed, i)),
        ));
    }
    Json::Array(items)
}

/// Describes the paths of a capture of this many records, as its sidecar does.
pub fn describe_paths(args: &Args, records: usize) -> (result: Json)
    ensures
        result@ == path_record(*args, records),
{
    let traced = !(args.svgf_input || args.restir_input);
    let fresh = args.reference_from.is_none();
    let estimator = if traced {
        Json::Text("independent-paths".to_string())
    } else {
        Json::Null
    };
    let (frames, depth): (Json, Json) = if fresh {
        (
            number_json(args.canonical_frames as u64),
            number_json(args.canonical_bounces as u64),
        )
    } else {
        (Json::Null, Json::Null)
    };
    let source = match &args.reference_from {
        Some(path) => Json::Text(path.clone()),
        None => Json::Null,
    };
    let matching = traced && fresh && args.input_bounces == args.canonical_bounces;
    let families = Json::Array(Vec::new());
    let seeds = list_seeds(args.seed, args.samples);
    let members: Vec<(String, Json)> = vec![
        ("canonical_frames".to_string(), frames),
        ("capture_seed".to_string(), number_json(args.seed)),
        ("family_ids".to_string(), families),
        ("input_estimator".to_string(), estimator),
        ("input_frames".to_string(), number_json(args.input_frames as u64)),
        ("input_max_bounces".to_string(), number_json(input_depth(args) as u64)),
        ("matching_path_depth".to_string(), Json::Bool(matching)),
        ("records".to_string(), number_json(records as u64)),
        ("reference_from".to_string(), source),
        ("reference_max_bounces".to_string(), depth),
        ("scene_seeds".to_string(), seeds),
    ];
    proof {
        json::each_member_says(members@);
        assert(json::items_said(Seq::<Json>::empty()) =~= seq![]);
        assert(json::members_said(members@) =~= path_record(*args, records)->Object_0);
    }
    Json::Object(members)
}

/// What a sidecar says under the names that decide whether its capture is used.
proof fn lemma_path_record(args: Args, records: usize)
    ensures
        ({
            let p = path_record(args, records);
            let list = p->Object_0;
            &&& p.field("input_estimator"@) == list[3].1
            &&& p.field("matching_path_depth"@) == list[6].1
            &&& p.field("records"@) == list[7].1
            &&& p.field("minimum_catalog_visible_fraction"@) is Null
        }),
{
    reveal_strlit("canonical_frames");
    reveal_strlit("capture_seed");
    reveal_strlit("family_ids");
    reveal_strlit("input_estimator");
    reveal_strlit("input_frames");
    reveal_strlit("input_max_bounces");
    reveal_strlit("matching_path_depth");
    reveal_strlit("records");
    reveal_strlit("reference_from");
    reveal_strlit("reference_max_bounces");
    reveal_strlit("scene_seeds");
    reveal_strlit("minimum_catalog_visible_fraction");
    let list = path_record(args, records)->Object_0;
    assert(list[0].0.len() == 16 && list[1].0.len() == 12 && list[2].0.len() == 10);
    assert(list[3].0.len() == 15 && list[4].0.len() == 12 && list[5].0.len() == 17);
    assert(list[6].0.len() == 19 && list[7].0.len() == 7 && list[8].0.len() == 14);
    assert(list[9].0.len() == 21 && list[10].0.len() == 11);
    json::first_member_counts(list, "input_estimator"@, 0, 3);
    json::first_member_counts(list, "matching_path_depth"@, 0, 6);
    json::first_member_counts(list, "records"@, 0, 7);
    json::first_member_counts(list, "minimum_catalog_visible_fraction"@, 0, 11);
}

/// A capture of sequences whose inputs and references are traced in the same run
/// to the same depth can be trained on.
pub proof fn matched_captures_open(args: Args, records: usize)
    requires
        input_pass_of(args) is PathTrace,
        args.reference_from is None,
        args.input_bounces == args.canonical_bounces,
        args.sequence_frames >= 2,
        records > 0,
    ensures
        provenance::opening_fault(
            path_record(args, records),
            (DatasetFacts {
                source: input_source(args.svgf_input, args.restir_input),
                len: records,
                sequence_length: args.sequence_frames,
            }),
        ) is None,
{
    lemma_path_record(args, records);
}

/// A capture with copied references, with truncated inputs or with inputs of
/// another estimator is never taken for a matched one.
pub proof fn other_captures_stay_unmatched(args: Args, records: usize)
    requires
        args.reference_from is Some || args.input_bounces != args.canonical_bounces
            || input_pass_of(args) !is PathTrace,
    ensures
        !provenance::matched(path_record(args, records)),
{
    lemma_path_record(args, records);
}

/// What two to the sixty-fourth is.
spec fn wraps_at() -> int {
    0x1_0000_0000_0000_0000
}

/// A product with an odd number keeps all of what was multiplied, though it wraps.
proof fn lemma_recovered(x: u64, c: int, d: int, k: int)
    requires
        c * d == 1 + k * wraps_at(),
    ensures
        ((x * c) % wraps_at() * d) % wraps_at() == x,
{
    let m = wraps_at();
    let n = x as int;
    vstd::arithmetic::div_mod::lemma_mul_mod_noop_left(n * c, d, m);
    assert((n * c) * d == m * (n * k) + n) by (nonlinear_arith)
        requires
            c * d == 1 + k * m,
    ;
    vstd::arithmetic::div_mod::lemma_mod_multiples_vanish(n * k, n, m);
    vstd::arithmetic::div_mod::lemma_small_mod(x as nat, m as nat);
}

/// The three numbers that scenes and objects are told apart by are odd.
pub proof fn lemma_kept_apart(x: u64, y: u64)
    requires
        x != y,
    ensures
        vstd::wrapping::u64_specs::wrapping_mul(x, 0x9E37_79B9)
            != vstd::wrapping::u64_specs::wrapping_mul(y, 0x9E37_79B9),
        vstd::wrapping::u64_specs::wrapping_mul(x, 0xD1B5_4A32_D192_ED03)
            != vstd::wrapping::u64_specs::wrapping_mul(y, 0xD1B5_4A32_D192_ED03),
        vstd::wrapping::u64_specs::wrapping_mul(x, 0x9E37_79B9_7F4A_7C15)
            != vstd::wrapping::u64_specs::wrapping_mul(y, 0x9E37_79B9_7F4A_7C15),
{
    lemma_recovered(x, 0x9E37_79B9, 0xE85E_E980_144C_BC89, 2409426686);
    lemma_recovered(y, 0x9E37_79B9, 0xE85E_E980_144C_BC89, 2409426686);
    lemma_recovered(x, 0xD1B5_4A32_D192_ED03, 0x0610_6CCF_A448_E5AB, 357952832567956711);
    lemma_recovered(y, 0xD1B5_4A32_D192_ED03, 0x0610_6CCF_A448_E5AB, 357952832567956711);
    lemma_recovered(x, 0x9E37_79B9_7F4A_7C15, 0xF1DE_83E1_9937_733D, 10771413168148108919);
    lemma_recovered(y, 0x9E37_79B9_7F4A_7C15, 0xF1DE_83E1_9937_733D, 10771413168148108919);
}

/// Records of two scenes are built, moved and picked from seeds of their own, and
/// records of one scene from the same. The first scene goes by the seed of the
/// run, and from a scene to the next the seeds, taken against that of the run, go
/// on by fixed steps.
pub proof fn scenes_have_seeds_of_their_own(
    seed: u64,
    sequence_frames: usize,
    preview: bool,
    i: usize,
    j: usize,
    count: usize,
    a: RecordPlan,
    b: RecordPlan,
)
    requires
        sequence_frames > 0,
        i < count,
        j < count,
        call_ensures(plan_record, (seed, sequence_frames, preview, i, count), a),
        call_ensures(plan_record, (seed, sequence_frames, preview, j, count), b),
    ensures
        a.scene != b.scene ==> a.scene_seed != b.scene_seed && a.split_seed != b.split_seed
            && a.motion_seed != b.motion_seed,
        a.scene == b.scene ==> a.scene_seed == b.scene_seed && a.split_seed == b.split_seed
            && a.motion_seed == b.motion_seed,
        a.scene == 0 ==> a.scene_seed == seed && a.split_seed == seed && a.motion_seed == seed,
        b.scene == a.scene + 1 ==> {
            &&& (seed ^ b.scene_seed) as int == ((seed ^ a.scene_seed) + 0x9E37_79B9)
                % 0x1_0000_0000_0000_0000
            &&& (seed ^ b.motion_seed) as int == ((seed ^ a.motion_seed) + 0xD1B5_4A32_D192_ED03)
                % 0x1_0000_0000_0000_0000
            &&& (seed ^ b.split_seed) == (seed ^ a.split_seed) + 1
        },
{
    lemma_places_of_a_record(sequence_frames as int, i as int);
    lemma_places_of_a_record(sequence_frames as int, j as int);
    let x = a.scene as u64;
    let y = b.scene as u64;
    let (p, q) = (
        vstd::wrapping::u64_specs::wrapping_mul(x, 0x9E37_79B9),
        vstd::wrapping::u64_specs::wrapping_mul(y, 0x9E37_79B9),
    );
    let (r, s) = (
        vstd::wrapping::u64_specs::wrapping_mul(x, 0xD1B5_4A32_D192_ED03),
        vstd::wrapping::u64_specs::wrapping_mul(y, 0xD1B5_4A32_D192_ED03),
    );
    if x != y {
        lemma_kept_apart(x, y);
        lemma_seed_kept(seed, p, q);
        lemma_seed_kept(seed, r, s);
        lemma_seed_kept(seed, x, y);
    }
    lemma_seed_kept(seed, p, q);
    lemma_seed_kept(seed, r, s);
    lemma_seed_kept(seed, x, y);
    if x == 0 {
        assert(0int * 0x9E37_79B9 == 0 && 0int * 0xD1B5_4A32_D192_ED03 == 0);
        assert(seed ^ 0 == seed) by (bit_vector);
    }
    if b.scene == a.scene + 1 {
        lemma_step(x, 0x9E37_79B9);
        lemma_step(x, 0xD1B5_4A32_D192_ED03);
    }
}

proof fn lemma_seed_kept(seed: u64, x: u64, y: u64)
    ensures
        seed ^ x == seed ^ y <==> x == y,
        seed ^ (seed ^ x) == x,
        seed ^ (seed ^ y) == y,
{
    assert(seed ^ (seed ^ x) == x) by (bit_vector);
    assert(seed ^ (seed ^ y) == y) by (bit_vector);
}

proof fn lemma_step(x: u64, c: u64)
    requires
        x + 1 <= u64::MAX,
    ensures
        vstd::wrapping::u64_specs::wrapping_mul((x + 1) as u64, c) as int == (
        vstd::wrapping::u64_specs::wrapping_mul(x, c) + c) % 0x1_0000_0000_0000_0000,
{
    let m = wraps_at();
    assert((x + 1) * c == x * c + c) by (nonlinear_arith);
    vstd::arithmetic::div_mod::lemma_add_mod_noop(x * c, c as int, m);
    vstd::arithmetic::div_mod::lemma_add_mod_noop((x * c) % m, c as int, m);
    vstd::arithmetic::div_mod::lemma_mod_twice(x * c, m);
}

/// Where a record stands: its scene and its frame are numbers that fit.
proof fn lemma_places_of_a_record(sequence_frames: int, index: int)
    requires
        sequence_frames > 0,
        0 <= index <= usize::MAX,
    ensures
        0 <= index / sequence_frames <= index,
        0 <= index % sequence_frames <= index,
        index % sequence_frames < sequence_frames,
        index == (index / sequence_frames) * sequence_frames + index % sequence_frames,
{
    vstd::arithmetic::div_mod::lemma_fundamental_div_mod(index, sequence_frames);
    vstd::arithmetic::div_mod::lemma_div_pos_is_pos(index, sequence_frames);
    vstd::arithmetic::mul::lemma_mul_is_commutative(sequence_frames, index / sequence_frames);
    vstd::arithmetic::div_mod::lemma_mod_bound(index, sequence_frames);
    assert(index / sequence_frames <= index) by (nonlinear_arith)
        requires
            index >= 0,
            sequence_frames > 0,
    ;
    assert(0 <= (index / sequence_frames) * sequence_frames) by (nonlinear_arith)
        requires
            index / sequence_frames >= 0,
            sequence_frames > 0,
    ;
}

/// A record is one frame of one scene: scene by scene, frame by frame. A scene
/// begins at its first frame, every later frame follows the one before it, the
/// first few records are shown where previews are asked for, the first is
/// reported, and the last is always logged.
pub proof fn records_follow_one_another(
    seed: u64,
    sequence_frames: usize,
    preview: bool,
    index: usize,
    count: usize,
    plan: RecordPlan,
)
    requires
        sequence_frames > 0,
        index < count,
        call_ensures(plan_record, (seed, sequence_frames, preview, index, count), plan),
    ensures
        plan.scene * sequence_frames + plan.frame == index,
        plan.frame < sequence_frames,
        plan.fresh <==> plan.frame == 0,
        plan.frame > 0 ==> plan.previous + 1 == plan.frame,
        plan.frame == 0 ==> plan.previous == 0,
        plan.preview <==> preview && index < 4,
        plan.report <==> index == 0,
        index + 1 == count || index == 0 ==> plan.log,
        plan.log && index + 1 < count ==> exists|k: int| index == #[trigger] (8 * k),
{
    lemma_places_of_a_record(sequence_frames as int, index as int);
    if plan.log && index + 1 < count {
        assert(index == 8 * (index as int / 8));
    }
}

/// The seed that the scene of a record is built from is the one that the sidecar
/// of the run lists at the place of that scene, and the sidecar lists one for
/// every scene.
pub proof fn records_are_built_from_listed_seeds(
    args: Args,
    preview: bool,
    index: usize,
    count: usize,
    records: usize,
    plan: RecordPlan,
    sidecar: Json,
)
    requires
        args.sequence_frames > 0,
        index < count,
        count == args.samples * args.sequence_frames,
        call_ensures(plan_record, (args.seed, args.sequence_frames, preview, index, count), plan),
        call_ensures(describe_paths, (&args, records), sidecar),
    ensures
        sidecar@.field("scene_seeds"@) matches JsonView::Array(list) && list.len() == args.samples
            && plan.scene < list.len() && list[plan.scene as int] == JsonView::Number(
            Numeral::Unsigned(plan.scene_seed),
        ),
{
    lemma_places_of_a_record(args.sequence_frames as int, index as int);
    lemma_fields(args, records);
    records_are_frames(
        args.sequence_frames as int,
        index as int,
        count as int,
        args.samples as int,
    );
}

/// No two scenes of a run are listed with the same seed.
pub proof fn listed_seeds_are_apart(args: Args, records: usize, i: int, j: int, sidecar: Json)
    requires
        call_ensures(describe_paths, (&args, records), sidecar),
        0 <= i < j < args.samples,
    ensures
        sidecar@.field("scene_seeds"@) matches JsonView::Array(list) && list.len() == args.samples
            && list[i] != list[j],
{
    lemma_fields(args, records);
    lemma_kept_apart(i as u64, j as u64);
    lemma_seed_kept(
        args.seed,
        vstd::wrapping::u64_specs::wrapping_mul(i as u64, 0x9E37_79B9),
        vstd::wrapping::u64_specs::wrapping_mul(j as u64, 0x9E37_79B9),
    );
}

/// Objects that move in one scene move on paths of their own.
pub proof fn objects_have_seeds_of_their_own(
    motion_seed: u64,
    i: usize,
    j: usize,
    a: u64,
    b: u64,
)
    requires
        i != j,
        call_ensures(object_seed, (motion_seed, i), a),
        call_ensures(object_seed, (motion_seed, j), b),
    ensures
        a != b,
{
    lemma_kept_apart(i as u64, j as u64);
    let x = vstd::wrapping::u64_specs::wrapping_mul(i as u64, 0x9E37_79B9_7F4A_7C15);
    let y = vstd::wrapping::u64_specs::wrapping_mul(j as u64, 0x9E37_79B9_7F4A_7C15);
    assert(x != y ==> motion_seed ^ x ^ 0x8EBC_6AF0_9C88_C6E3 != motion_seed ^ y
        ^ 0x8EBC_6AF0_9C88_C6E3) by (bit_vector);
}

/// What a sidecar says under each of its names.
proof fn lemma_fields(args: Args, records: usize)
    ensures
        ({
            let p = path_record(args, records);
            let list = p->Object_0;
            &&& p.field("canonical_frames"@) == list[0].1
            &&& p.field("capture_seed"@) == list[1].1
            &&& p.field("family_ids"@) == list[2].1
            &&& p.field("input_estimator"@) == list[3].1
            &&& p.field("input_frames"@) == list[4].1
            &&& p.field("input_max_bounces"@) == list[5].1
            &&& p.field("matching_path_depth"@) == list[6].1
            &&& p.field("records"@) == list[7].1
            &&& p.field("reference_from"@) == list[8].1
            &&& p.field("reference_max_bounces"@) == list[9].1
            &&& p.field("scene_seeds"@) == list[10].1
        }),
{
    reveal_strlit("canonical_frames");
    reveal_strlit("capture_seed");
    reveal_strlit("family_ids");
    reveal_strlit("input_estimator");
    reveal_strlit("input_frames");
    reveal_strlit("input_max_bounces");
    reveal_strlit("matching_path_depth");
    reveal_strlit("records");
    reveal_strlit("reference_from");
    reveal_strlit("reference_max_bounces");
    reveal_strlit("scene_seeds");
    let list = path_record(args, records)->Object_0;
    assert(list[0].0.len() == 16 && list[1].0.len() == 12 && list[2].0.len() == 10);
    assert(list[3].0.len() == 15 && list[4].0.len() == 12 && list[5].0.len() == 17);
    assert(list[6].0.len() == 19 && list[7].0.len() == 7 && list[8].0.len() == 14);
    assert(list[9].0.len() == 21 && list[10].0.len() == 11);
    assert(list[1].0[0] == 'c' && list[4].0[0] == 'i');
    json::first_member_counts(list, "canonical_frames"@, 0, 0);
    json::first_member_counts(list, "capture_seed"@, 0, 1);
    json::first_member_counts(list, "family_ids"@, 0, 2);
    json::first_member_counts(list, "input_estimator"@, 0, 3);
    json::first_member_counts(list, "input_frames"@, 0, 4);
    json::first_member_counts(list, "input_max_bounces"@, 0, 5);
    json::first_member_counts(list, "matching_path_depth"@, 0, 6);
    json::first_member_counts(list, "records"@, 0, 7);
    json::first_member_counts(list, "reference_from"@, 0, 8);
    json::first_member_counts(list, "reference_max_bounces"@, 0, 9);
    json::first_member_counts(list, "scene_seeds"@, 0, 10);
}

/// The sidecar tells what was done: the inputs are rendered as often as it says
/// and to the depth that it says, and so are the references where they are not
/// copied. What is filtered or resampled is not called independent, and the
/// depths are said to match exactly where both pictures are traced in this run
/// and every one of their frames goes to one depth.
pub proof fn sidecars_tell_what_was_done(
    args: Args,
    records: usize,
    inputs: Vec<Action>,
    references: Vec<Action>,
    sidecar: Json,
)
    requires
        call_ensures(capture_input, (&args,), inputs),
        call_ensures(capture_high, (&args,), references),
        call_ensures(describe_paths, (&args, records), sidecar),
    ensures
        sidecar@.field("records"@) == JsonView::Number(Numeral::Unsigned(records as u64)),
        sidecar@.field("capture_seed"@) == JsonView::Number(Numeral::Unsigned(args.seed)),
        sidecar@.field("family_ids"@) == JsonView::Array(seq![]),
        sidecar@.field("input_frames"@) == JsonView::Number(
            Numeral::Unsigned(args.input_frames as u64),
        ),
        forall|i: int|
            0 <= i < inputs@.len() ==> (#[trigger] inputs@[i] matches Action::Render {
                rays,
                mode,
                denoiser,
            } ==> sidecar@.field("input_max_bounces"@) == JsonView::Number(
                Numeral::Unsigned(rays.max_bounces as u64),
            ) && (denoiser is Some <==> args.svgf_input) && (mode == RenderMode::RealTime <==> (
            args.svgf_input || args.restir_input))),
        !(args.svgf_input || args.restir_input) ==> render::rendered(
            inputs@,
            inputs@.len() as int,
        ) == args.input_frames && (forall|i: int|
            0 <= i < inputs@.len() ==> (#[trigger] inputs@[i] matches Action::Render { rays, .. }
                ==> rays.max_bounces == args.input_bounces)),
        sidecar@.field("input_estimator"@) == if args.svgf_input || args.restir_input {
            JsonView::Null
        } else {
            JsonView::Text("independent-paths"@)
        },
        args.reference_from is None ==> render::rendered(references@, references@.len() as int)
            == args.canonical_frames && sidecar@.field("canonical_frames"@) == JsonView::Number(
            Numeral::Unsigned(args.canonical_frames as u64),
        ) && sidecar@.field("reference_max_bounces"@) == JsonView::Number(
            Numeral::Unsigned(args.canonical_bounces as u64),
        ) && sidecar@.field("reference_from"@) is Null && (forall|i: int|
            0 <= i < references@.len() ==> (#[trigger] references@[i] matches Action::Render {
                rays,
                mode,
                denoiser,
            } ==> rays.max_bounces == args.canonical_bounces && mode == RenderMode::Canonical
                && denoiser is None)),
        args.reference_from matches Some(path) ==> {
            &&& render::rendered(references@, references@.len() as int) == if args.hr_gbuffer {
                1int
            } else {
                0
            }
            &&& sidecar@.field("canonical_frames"@) is Null
            &&& sidecar@.field("reference_max_bounces"@) is Null
            &&& sidecar@.field("reference_from"@) == JsonView::Text(path@)
        },
        sidecar@.field("matching_path_depth"@) == JsonView::Bool(
            !(args.svgf_input || args.restir_input) && args.reference_from is None
                && args.input_bounces == args.canonical_bounces,
        ),
{
    lemma_fields(args, records);
    render::captured_frames_accumulate(
        input_pass_of(args),
        input_depth_of(args),
        args.svgf_input,
        args.gbuffer,
        inputs@,
    );
    match high_pass_of(args) {
        HighPass::Render { pass, max_bounces } => {
            render::captured_frames_accumulate(
                pass,
                max_bounces,
                false,
                args.hr_gbuffer,
                references@,
            );
        },
        HighPass::Geometry { pass } => {
            render::captured_frames_accumulate(
                pass,
                pass.rays().max_bounces,
                false,
                true,
                references@,
            );
        },
        HighPass::Copy => {},
    }
}

/// A dataset is laid out as it was asked for: colour is in every record, geometry
/// where it is captured, and motion where there is geometry of sequences.
pub proof fn layouts_hold_what_is_captured(args: Args, layout: Layout, plane: Plane)
    requires
        call_ensures(choose_layout, (&args,), layout),
    ensures
        layout.scale == args.scale,
        layout.lr_width == args.lr_width,
        layout.lr_height == args.lr_height,
        layout.lr_planes@.contains(plane) <==> match plane {
            Plane::Color => true,
            Plane::Depth | Plane::Normal | Plane::DiffuseAlbedo | Plane::SpecularF0
            | Plane::Roughness => args.gbuffer,
            Plane::Motion => args.gbuffer && args.sequence_frames > 1,
            _ => false,
        },
        layout.hr_planes@.contains(plane) <==> match plane {
            Plane::Color => true,
            Plane::Depth | Plane::Normal | Plane::DiffuseAlbedo | Plane::SpecularF0
            | Plane::Roughness => args.hr_gbuffer,
            Plane::Motion => args.hr_gbuffer && args.sequence_frames > 1,
            _ => false,
        },
        layout.lr_source == InputSource::Svgf <==> args.svgf_input,
        layout.lr_source == InputSource::RawRestir <==> args.restir_input && !args.svgf_input,
        layout.lr_source == InputSource::PathTrace <==> !args.restir_input && !args.svgf_input,
{
}

/// What a run makes can be trained on as it is, unless its inputs are filtered;
/// those are refused until they are asked for.
pub proof fn unfiltered_datasets_are_accepted(
    args: Args,
    layout: Layout,
    allow_filtered: bool,
    result: Result<(), StartError>,
)
    requires
        call_ensures(choose_layout, (&args,), layout),
        call_ensures(validate_input_source, (&layout, allow_filtered), result),
    ensures
        result is Ok <==> !args.svgf_input || allow_filtered,
{
}

/// References are reused exactly if they are single frames of the same extent and
/// scale, with the same planes but for motion, hold colour, and are as many as
/// the scenes.
pub proof fn reused_references_fit(
    source: Layout,
    sequence_length: usize,
    len: usize,
    layout: Layout,
    samples: usize,
    result: Result<(), ReferenceError>,
)
    requires
        call_ensures(check_references, (&source, sequence_length, len, &layout, samples), result),
    ensures
        result is Ok <==> {
            &&& sequence_length == 1
            &&& source.scale == layout.scale
            &&& source.lr_width == layout.lr_width
            &&& source.lr_height == layout.lr_height
            &&& forall|p: Plane| #[trigger]
                source.lr_planes@.contains(p) <==> layout.lr_planes@.contains(p) && p
                    != Plane::Motion
            &&& source.hr_planes@.contains(Plane::Color)
            &&& len >= samples
        },
        result matches Err(ReferenceError::Count) ==> len < samples,
        result matches Err(ReferenceError::Sequences) ==> sequence_length != 1,
        result matches Err(ReferenceError::NoColor) ==> !source.hr_planes@.contains(Plane::Color),
{
    let want = layout.lr_planes@.remove(Plane::Motion);
    if forall|p: Plane| #[trigger]
        source.lr_planes@.contains(p) <==> layout.lr_planes@.contains(p) && p != Plane::Motion {
        assert(source.lr_planes@ =~= want);
    }
    if source.lr_planes@ == want {
        assert forall|p: Plane| #[trigger] source.lr_planes@.contains(p) <==> layout.lr_planes@.contains(
            p,
        ) && p != Plane::Motion by {
            assert(want.contains(p) <==> layout.lr_planes@.contains(p) && p != Plane::Motion);
        }
    }
}

/// A run that is let start has something to do: it upscales, it has scenes, inputs
/// and frames, its motions are numbers, one of them at most moves the camera, and
/// nothing moves where there is one frame or where the references do not.
pub proof fn accepted_runs_can_start(words: Vec<Word>, result: Result<Args, ArgsError>)
    requires
        call_ensures(parse_args, (&words,), result),
    ensures
        result matches Ok(args) ==> {
            let panned = !bits::equal32(args.camera_motion, 0);
            let shaken = !bits::equal32(args.random_camera_motion, 0);
            let moving = panned || shaken || !bits::equal32(args.object_motion, 0);
            &&& args.scale >= 2
            &&& args.samples > 0 && args.input_frames > 0 && args.sequence_frames > 0
            &&& bits::finite32(args.camera_motion)
            &&& bits::finite32(args.random_camera_motion) && !bits::less32(
                args.random_camera_motion,
                0,
            )
            &&& bits::finite32(args.object_motion) && !bits::less32(args.object_motion, 0)
            &&& !(panned && shaken)
            &&& moving ==> args.sequence_frames > 1 && args.reference_from is None
            &&& !(args.svgf_input && args.restir_input)
            &&& args.reference_from is Some ==> args.gbuffer
        },
{
}

/// A reference of another run is never rendered again: it is copied, and its geometry
/// is traced where that is wanted. Without one the reference is rendered with the
/// frames and the depth that were asked for.
pub proof fn references_are_rendered_once(args: Args, result: HighPass)
    requires
        call_ensures(high_pass, (&args,), result),
    ensures
        result is Render <==> args.reference_from is None,
        result is Copy <==> args.reference_from is Some && !args.hr_gbuffer,
        result is Geometry ==> result->Geometry_pass == (Pass::PathTrace { frames: 1 }),
        result is Render ==> result->max_bounces == args.canonical_bounces && result->Render_pass == (
        Pass::Canonical { frames: args.canonical_frames }),
{
}

/// A record shows the scene of its reference exactly if every value after the color is
/// the same number.
pub proof fn scenes_are_the_same_in_full(
    record: &[u16],
    reference: &[u16],
    start: usize,
    result: bool,
    i: int,
)
    requires
        start <= reference@.len() <= record@.len(),
        call_ensures(same_scene, (record, reference, start), result),
    ensures
        result && start <= i < reference@.len() ==> bits::equal16(record@[i], reference@[i]),
        !result ==> exists|k: int|
            start <= k < reference@.len() && !bits::equal16(#[trigger] record@[k], reference@[k]),
{
    assert(result == shows_same_scene(record@, reference@, start as int));
    if result && start <= i < reference@.len() {
        assert(bits::equal16(record@[i], reference@[i]));
    }
}

/// A record starts with its color, channel after channel, and ends with its other
/// planes as they are.
pub proof fn records_start_with_their_color<T: Copy>(
    color: &[T],
    planes: Vec<T>,
    texels: usize,
    result: Vec<T>,
    t: int,
    c: int,
    k: int,
)
    requires
        color@.len() == texels * 3,
        call_ensures(to_record::<T>, (color, Some(&planes), texels), result),
        0 <= t < texels,
        0 <= c < 3,
        0 <= k < planes@.len(),
    ensures
        result@.len() == texels * 3 + planes@.len(),
        result@[c * texels + t] == color@[t * 3 + c],
        result@[texels * 3 + k] == planes@[k],
{
    let head = result@.take(texels * 3);
    pixels::cell_inside(texels as int, 3, t, c);
    assert(color@[t * 3 + c] == head[pixels::cell(texels as int, t, c)]);
    assert(result@.skip(texels * 3)[k] == planes@[k]);
}

/// Each refusal of a line that reads has its reason among the settings.
pub proof fn lines_are_refused_for_a_reason(
    words: Vec<Word>,
    error: ArgsError,
    s: Seq<SettingView>,
)
    requires
        call_ensures(parse_args, (&words,), Err(error)),
        line_settings(words@) == Ok::<Seq<SettingView>, FaultView>(s),
    ensures
        ({
            let frames = options::integer_or(s, SEQUENCE_FRAMES, 1) as usize;
            let camera = options::real_or(s, CAMERA_MOTION, 0);
            let random = options::real_or(s, RANDOM_CAMERA_MOTION, 0);
            let object = options::real_or(s, OBJECT_MOTION, 0);
            let still = bits::equal32(camera, 0) && bits::equal32(random, 0) && bits::equal32(
                object,
                0,
            );
            let reused = options::text_given(s, REFERENCE_FROM) is Some;
            match error {
                ArgsError::Line(_) => false,
                ArgsError::Scale(n) => n == options::integer_or(s, SCALE, 2) as u32 && n < 2,
                ArgsError::Samples => options::integer_or(s, SAMPLES, 64) as usize == 0,
                ArgsError::InputFrames => options::integer_or(s, INPUT_FRAMES, 1) as usize == 0,
                ArgsError::SequenceFrames => frames == 0,
                ArgsError::CameraMotion => !bits::finite32(camera),
                ArgsError::RandomCameraMotion => !bits::finite32(random) || bits::less32(random, 0),
                ArgsError::ObjectMotion => !bits::finite32(object) || bits::less32(object, 0),
                ArgsError::BothMotions => !bits::equal32(camera, 0) && !bits::equal32(random, 0),
                ArgsError::MotionNeedsSequence => !still && frames == 1,
                ArgsError::MotionNeedsReferences => !still && reused,
                ArgsError::BothInputs => options::given(s, SVGF_INPUT) && options::given(
                    s,
                    RESTIR_INPUT,
                ),
                ArgsError::ReferenceNeedsGbuffer => reused && options::given(s, NO_GBUFFER),
            }
        }),
{
}

} // verus!
