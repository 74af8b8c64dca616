//! Fitting a field to posed pictures: the command line, how cameras are shared
//! out, and how pictures are rendered batch by batch.
use vstd::prelude::*;

use crate::bits;
use crate::bits::{is_at_most32, is_equal32, is_finite32, is_less32, ONE32};
use crate::dataset::Layout;
use crate::fit;
use crate::fit::find_contexts;
use crate::options;
use crate::options::{
    all_texts, is_given, last_choice, last_integer, last_integer_given, last_real,
    last_real_given, last_text, last_text_or, scan, Fault, FaultView, Kind, KindView, Opt,
    OptView, Setting, SettingView, Word,
};
use crate::pfm;
use crate::pfm::all_radiant;
use crate::pixels;
use crate::pixels::from_planes;
use crate::text;
use crate::text::{decimal_text, join3};

verus! {

/// How the tool is called.
pub const USAGE: &'static str = "\
field --data CAPTURE.omd [--data OTHER.omd] [--eval-data UNSEEN.omd]
  --out DIR --steps N --seed N --image N --views N --channels N --hidden N
  --rays N --samples N --probes N --rate F --stratified
  --view-fusion moments|late-rgb|visible-rgb --visibility-weight F [0.05] --eval-checkpoint PATH
  --surface-weight F (opt-in; 0 retains matched control graph)
  --consistency-rays N [0] --consistency-weight F [0.05]
  --emitter-fraction F [0] --diagnostics
  --incident-rays N [0] --incident-weight F [0.1 when incident rays enabled]
Posed RGB only. Final camera is held; light labels supervise separate heads.
Output: weights/config, RGB contexts, fixed-budget held-camera quality, PNGs.";

/// The option `--stratified`.
pub const STRATIFIED: u32 = 0;

/// The option `--diagnostics`.
pub const DIAGNOSTICS: u32 = 1;

/// The option `--data`.
pub const DATA: u32 = 2;

/// The option `--eval-data`.
pub const EVAL_DATA: u32 = 3;

/// The option `--eval-checkpoint`.
pub const EVAL_CHECKPOINT: u32 = 4;

/// The option `--visibility-weight`.
pub const VISIBILITY_WEIGHT: u32 = 5;

/// The option `--consistency-rays`.
pub const CONSISTENCY_RAYS: u32 = 6;

/// The option `--consistency-weight`.
pub const CONSISTENCY_WEIGHT: u32 = 7;

/// The option `--view-fusion`.
pub const VIEW_FUSION: u32 = 8;

/// The option `--out`.
pub const OUT: u32 = 9;

/// The option `--steps`.
pub const STEPS: u32 = 10;

/// The option `--seed`.
pub const SEED: u32 = 11;

/// The option `--image`.
pub const IMAGE: u32 = 12;

/// The option `--views`.
pub const VIEWS: u32 = 13;

/// The option `--channels`.
pub const CHANNELS: u32 = 14;

/// The option `--hidden`.
pub const HIDDEN: u32 = 15;

/// The option `--rays`.
pub const RAYS: u32 = 16;

/// The option `--samples`.
pub const SAMPLES: u32 = 17;

/// The option `--probes`.
pub const PROBES: u32 = 18;

/// The option `--rate`.
pub const RATE: u32 = 19;

/// The option `--incident-rays`.
pub const INCIDENT_RAYS: u32 = 20;

/// The option `--incident-weight`.
pub const INCIDENT_WEIGHT: u32 = 21;

/// The option `--surface-weight`.
pub const SURFACE_WEIGHT: u32 = 22;

/// The option `--emitter-fraction`.
pub const EMITTER_FRACTION: u32 = 23;

/// What asks for the usage text.
pub const HELP: u32 = 24;

/// What the tool was asked to do. Real numbers stand as the bits of an `f32`.
#[derive(Debug)]
pub struct Args {
    pub stratified: bool,
    pub diagnostics: bool,
    pub data: Vec<String>,
    pub eval: Option<String>,
    pub eval_checkpoint: Option<String>,
    pub visibility_weight: u32,
    pub consistency_rays: usize,
    pub consistency_weight: u32,
    pub view_fusion: usize,
    pub out: String,
    pub steps: usize,
    pub seed: u64,
    pub image: Option<u32>,
    pub views: Option<usize>,
    pub channels: Option<usize>,
    pub hidden: Option<usize>,
    pub rays: usize,
    pub samples: usize,
    pub probes: usize,
    pub rate: u32,
    pub incident_rays: usize,
    pub incident_weight: u32,
    pub surface_weight: Option<u32>,
    pub emitter_fraction: u32,
}

/// The options of the tool.
pub open spec fn option_table() -> Seq<OptView> {
    seq![
        OptView { name: "-h"@, id: HELP, kind: KindView::Help },
        OptView { name: "--help"@, id: HELP, kind: KindView::Help },
        OptView { name: "--stratified"@, id: STRATIFIED, kind: KindView::Switch },
        OptView { name: "--diagnostics"@, id: DIAGNOSTICS, kind: KindView::Switch },
        OptView { name: "--data"@, id: DATA, kind: KindView::Text },
        OptView { name: "--eval-data"@, id: EVAL_DATA, kind: KindView::Text },
        OptView { name: "--eval-checkpoint"@, id: EVAL_CHECKPOINT, kind: KindView::Text },
        OptView { name: "--visibility-weight"@, id: VISIBILITY_WEIGHT, kind: KindView::Real },
        OptView { name: "--consistency-rays"@, id: CONSISTENCY_RAYS, kind: KindView::Integer(usize::MAX as u64) },
        OptView { name: "--consistency-weight"@, id: CONSISTENCY_WEIGHT, kind: KindView::Real },
        OptView { name: "--view-fusion"@, id: VIEW_FUSION, kind: KindView::Choice("view fusion"@, seq!["moments"@, "late-rgb"@, "visible-rgb"@]) },
        OptView { name: "--out"@, id: OUT, kind: KindView::Text },
        OptView { name: "--steps"@, id: STEPS, kind: KindView::Integer(usize::MAX as u64) },
        OptView { name: "--seed"@, id: SEED, kind: KindView::Integer(u64::MAX) },
        OptView { name: "--image"@, id: IMAGE, kind: KindView::Integer(u32::MAX as u64) },
        OptView { name: "--views"@, id: VIEWS, kind: KindView::Integer(usize::MAX as u64) },
        OptView { name: "--channels"@, id: CHANNELS, kind: KindView::Integer(usize::MAX as u64) },
        OptView { name: "--hidden"@, id: HIDDEN, kind: KindView::Integer(usize::MAX as u64) },
        OptView { name: "--rays"@, id: RAYS, kind: KindView::Integer(usize::MAX as u64) },
        OptView { name: "--samples"@, id: SAMPLES, kind: KindView::Integer(usize::MAX as u64) },
        OptView { name: "--probes"@, id: PROBES, kind: KindView::Integer(usize::MAX as u64) },
        OptView { name: "--rate"@, id: RATE, kind: KindView::Real },
        OptView { name: "--incident-rays"@, id: INCIDENT_RAYS, kind: KindView::Integer(usize::MAX as u64) },
        OptView { name: "--incident-weight"@, id: INCIDENT_WEIGHT, kind: KindView::Real },
        OptView { name: "--surface-weight"@, id: SURFACE_WEIGHT, kind: KindView::Real },
        OptView { name: "--emitter-fraction"@, id: EMITTER_FRACTION, kind: KindView::Real },
    ]
}

/// The options of the tool.
fn options_list() -> (result: Vec<Opt>)
    ensures
        options::table_view(result@) == option_table(),
{
    let result: Vec<Opt> = vec![
        Opt { name: "-h", id: HELP, kind: Kind::Help },
        Opt { name: "--help", id: HELP, kind: Kind::Help },
        Opt { name: "--stratified", id: STRATIFIED, kind: Kind::Switch },
        Opt { name: "--diagnostics", id: DIAGNOSTICS, kind: Kind::Switch },
        Opt { name: "--data", id: DATA, kind: Kind::Text },
        Opt { name: "--eval-data", id: EVAL_DATA, kind: Kind::Text },
        Opt { name: "--eval-checkpoint", id: EVAL_CHECKPOINT, kind: Kind::Text },
        Opt { name: "--visibility-weight", id: VISIBILITY_WEIGHT, kind: Kind::Real },
        Opt { name: "--consistency-rays", id: CONSISTENCY_RAYS, kind: Kind::Integer(usize::MAX as u64) },
        Opt { name: "--consistency-weight", id: CONSISTENCY_WEIGHT, kind: Kind::Real },
        Opt { name: "--view-fusion", id: VIEW_FUSION, kind: Kind::Choice("view fusion", vec!["moments", "late-rgb", "visible-rgb"]) },
        Opt { name: "--out", id: OUT, kind: Kind::Text },
        Opt { name: "--steps", id: STEPS, kind: Kind::Integer(usize::MAX as u64) },
        Opt { name: "--seed", id: SEED, kind: Kind::Integer(u64::MAX) },
        Opt { name: "--image", id: IMAGE, kind: Kind::Integer(u32::MAX as u64) },
        Opt { name: "--views", id: VIEWS, kind: Kind::Integer(usize::MAX as u64) },
        Opt { name: "--channels", id: CHANNELS, kind: Kind::Integer(usize::MAX as u64) },
        Opt { name: "--hidden", id: HIDDEN, kind: Kind::Integer(usize::MAX as u64) },
        Opt { name: "--rays", id: RAYS, kind: Kind::Integer(usize::MAX as u64) },
        Opt { name: "--samples", id: SAMPLES, kind: Kind::Integer(usize::MAX as u64) },
        Opt { name: "--probes", id: PROBES, kind: Kind::Integer(usize::MAX as u64) },
        Opt { name: "--rate", id: RATE, kind: Kind::Real },
        Opt { name: "--incident-rays", id: INCIDENT_RAYS, kind: Kind::Integer(usize::MAX as u64) },
        Opt { name: "--incident-weight", id: INCIDENT_WEIGHT, kind: Kind::Real },
        Opt { name: "--surface-weight", id: SURFACE_WEIGHT, kind: Kind::Real },
        Opt { name: "--emitter-fraction", id: EMITTER_FRACTION, kind: Kind::Real },
    ];
    proof {
        let v = options::table_view(result@);
        assert(v[10].kind->Choice_1 =~= option_table()[10].kind->Choice_1);
        assert(v =~= option_table());
    }
    result
}

/// The settings that a command line gives the tool.
pub open spec fn line_settings(words: Seq<Word>) -> Result<Seq<SettingView>, FaultView> {
    options::scanned(options::words_view(words), option_table(), true, 0, Seq::empty())
}

/// Each value is the last one given, or else the default.
pub open spec fn follows(args: Args, s: Seq<SettingView>) -> bool {
    &&& args.stratified == options::given(s, STRATIFIED)
    &&& args.diagnostics == options::given(s, DIAGNOSTICS)
    &&& options::texts_view(args.data@) == options::texts_given(s, DATA)
    &&& options::text_option(args.eval) == options::text_given(s, EVAL_DATA)
    &&& options::text_option(args.eval_checkpoint) == options::text_given(s, EVAL_CHECKPOINT)
    &&& args.visibility_weight == options::real_or(s, VISIBILITY_WEIGHT, 0x3d4c_cccd)
    &&& args.consistency_rays == options::integer_or(s, CONSISTENCY_RAYS, 0) as usize
    &&& args.consistency_weight == options::real_or(s, CONSISTENCY_WEIGHT, 0x3d4c_cccd)
    &&& args.view_fusion == options::choice_or(s, VIEW_FUSION, 3)
    &&& args.out@ == options::text_or(s, OUT, "target/field"@)
    &&& args.steps == options::integer_or(s, STEPS, 256) as usize
    &&& args.seed == options::integer_or(s, SEED, 7)
    &&& args.image == match options::integer_given(s, IMAGE) {
        Some(n) => Some(n as u32),
        None => None,
    }
    &&& args.views == match options::integer_given(s, VIEWS) {
        Some(n) => Some(n as usize),
        None => None,
    }
    &&& args.channels == match options::integer_given(s, CHANNELS) {
        Some(n) => Some(n as usize),
        None => None,
    }
    &&& args.hidden == match options::integer_given(s, HIDDEN) {
        Some(n) => Some(n as usize),
        None => None,
    }
    &&& args.rays == options::integer_or(s, RAYS, 16) as usize
    &&& args.samples == options::integer_or(s, SAMPLES, 32) as usize
    &&& args.probes == options::integer_or(s, PROBES, 16) as usize
    &&& args.rate == options::real_or(s, RATE, 0x3a83_126f)
    &&& args.incident_rays == options::integer_or(s, INCIDENT_RAYS, 0) as usize
    &&& args.incident_weight == options::real_or(s, INCIDENT_WEIGHT, 0x3dcc_cccd)
    &&& args.surface_weight == options::real_given(s, SURFACE_WEIGHT)
    &&& args.emitter_fraction == options::real_or(s, EMITTER_FRACTION, 0)
}

/// Sets each value from the last one given, or else the default.
fn collect(settings: &Vec<Setting>) -> (result: Args)
    ensures
        follows(result, options::settings_view(settings@)),
{
    Args {
        stratified: is_given(settings, STRATIFIED),
        diagnostics: is_given(settings, DIAGNOSTICS),
        data: all_texts(settings, DATA),
        eval: last_text(settings, EVAL_DATA),
        eval_checkpoint: last_text(settings, EVAL_CHECKPOINT),
        visibility_weight: last_real(settings, VISIBILITY_WEIGHT, 0x3d4c_cccd),
        consistency_rays: last_integer(settings, CONSISTENCY_RAYS, 0) as usize,
        consistency_weight: last_real(settings, CONSISTENCY_WEIGHT, 0x3d4c_cccd),
        view_fusion: last_choice(settings, VIEW_FUSION, 3),
        out: last_text_or(settings, OUT, "target/field"),
        steps: last_integer(settings, STEPS, 256) as usize,
        seed: last_integer(settings, SEED, 7),
        image: match last_integer_given(settings, IMAGE) {
            Some(n) => Some(n as u32),
            None => None,
        },
        views: match last_integer_given(settings, VIEWS) {
            Some(n) => Some(n as usize),
            None => None,
        },
        channels: match last_integer_given(settings, CHANNELS) {
            Some(n) => Some(n as usize),
            None => None,
        },
        hidden: match last_integer_given(settings, HIDDEN) {
            Some(n) => Some(n as usize),
            None => None,
        },
        rays: last_integer(settings, RAYS, 16) as usize,
        samples: last_integer(settings, SAMPLES, 32) as usize,
        probes: last_integer(settings, PROBES, 16) as usize,
        rate: last_real(settings, RATE, 0x3a83_126f),
        incident_rays: last_integer(settings, INCIDENT_RAYS, 0) as usize,
        incident_weight: last_real(settings, INCIDENT_WEIGHT, 0x3dcc_cccd),
        surface_weight: last_real_given(settings, SURFACE_WEIGHT),
        emitter_fraction: last_real(settings, EMITTER_FRACTION, 0),
    }
}

/// Reads the command line.
pub fn parse_args(words: &Vec<Word>) -> (result: Result<Args, Fault>)
    ensures
        match line_settings(words@) {
            Err(fault) => result matches Err(f) && f@ == fault,
            Ok(settings) => result matches Ok(args) && follows(args, settings),
        },
{
    let table = options_list();
    match scan(words, &table, true) {
        Err(fault) => Err(fault),
        Ok(settings) => Ok(collect(&settings)),
    }
}

/// Why a run does not start.
#[derive(Clone, Copy, Debug, PartialEq, Eq, Structural)]
pub enum StartError {
    /// The weight of the surfaces or the share of emitters does not do.
    SurfaceWeight,
    /// What is recovered would be overwritten.
    SameDirectory,
    /// The settings of the field do not do.
    Settings,
    /// There are too many rays.
    Rays,
    /// Consistency cannot be trained, or its weight does not do.
    Consistency,
    /// The weight of incident light does not do.
    IncidentWeight,
    /// There is no data, no step to take, or the rate does not do.
    Nothing,
    /// The captures hold nothing.
    EmptyCorpus,
    /// A scene has no incident light.
    NoIncident,
    /// A camera has no surfaces.
    NoSurfaces,
    /// The weight of visibility does not do.
    VisibilityWeight,
    /// A scene that is evaluated was trained on.
    SeenScene,
}

impl StartError {
    /// What is said of it.
    pub open spec fn said(self) -> Seq<char> {
        match self {
            StartError::SurfaceWeight => "surface weight must be nonnegative; emitter fraction must be in [0,1]"@,
            StartError::SameDirectory => "checkpoint recovery requires a separate output directory"@,
            StartError::Settings => "invalid field settings"@,
            StartError::Rays => "too many rays"@,
            StartError::Consistency => "consistency needs visible-rgb training, samples divisible by 16, and finite nonnegative weight"@,
            StartError::IncidentWeight => "incident weight must be finite and nonnegative"@,
            StartError::Nothing => "need data, positive updates and finite positive rate"@,
            StartError::EmptyCorpus => "empty corpus"@,
            StartError::NoIncident => "incident training requires --incident-probes captures for every fitting scene"@,
            StartError::NoSurfaces => "surface training requires --surface-labels captures, including the weight-zero arm"@,
            StartError::VisibilityWeight => "visibility weight must be finite and nonnegative"@,
            StartError::SeenScene => "--eval-data must contain unseen scene seeds, including across lighting variants"@,
        }
    }

    /// Says why in words.
    pub fn words(self) -> (result: &'static str)
        ensures
            result@ == self.said(),
    {
        match self {
            StartError::SurfaceWeight => "surface weight must be nonnegative; emitter fraction must be in [0,1]",
            StartError::SameDirectory => "checkpoint recovery requires a separate output directory",
            StartError::Settings => "invalid field settings",
            StartError::Rays => "too many rays",
            StartError::Consistency => "consistency needs visible-rgb training, samples divisible by 16, and finite nonnegative weight",
            StartError::IncidentWeight => "incident weight must be finite and nonnegative",
            StartError::Nothing => "need data, positive updates and finite positive rate",
            StartError::EmptyCorpus => "empty corpus",
            StartError::NoIncident => "incident training requires --incident-probes captures for every fitting scene",
            StartError::NoSurfaces => "surface training requires --surface-labels captures, including the weight-zero arm",
            StartError::VisibilityWeight => "visibility weight must be finite and nonnegative",
            StartError::SeenScene => "--eval-data must contain unseen scene seeds, including across lighting variants",
        }
    }
}

/// What is known of a run besides its command line.
#[derive(Clone, Copy, Debug, PartialEq, Eq, Structural)]
pub struct Known {
    /// The output is the directory of the checkpoint that is recovered.
    pub same_directory: bool,
    /// The settings of the field, and its rays without and with those that only
    /// training adds, are accepted.
    pub settings_valid: bool,
    pub rays_valid: bool,
    pub training_rays_valid: bool,
    /// The views are fused by visibility.
    pub visible_rgb: bool,
    /// How many bins visibility has.
    pub bins: usize,
}

/// Whether a weight is finite and not negative.
pub open spec fn weight_fits(w: u32) -> bool {
    bits::finite32(w) && !bits::less32(w, 0)
}

/// Whether a weight is finite and not negative.
pub fn is_weight(w: u32) -> (result: bool)
    ensures
        result == weight_fits(w),
{
    is_finite32(w) && !is_less32(w, 0)
}

/// Whether a share is between none and all.
pub open spec fn share_fits(f: u32) -> bool {
    bits::finite32(f) && bits::at_most32(0, f) && bits::at_most32(f, ONE32)
}

/// How many steps a run takes: none where a checkpoint is recovered.
pub open spec fn steps_of(args: Args) -> usize {
    if args.eval_checkpoint is Some {
        0
    } else {
        args.steps
    }
}

/// How many rays a step takes.
pub open spec fn training_rays(args: Args) -> int {
    args.rays + args.incident_rays + args.consistency_rays
}

/// What keeps a run from starting before anything is read: the first of these
/// that holds.
pub open spec fn start_fault(args: Args, known: Known) -> Option<StartError> {
    if (args.surface_weight matches Some(w) && !weight_fits(w)) || !share_fits(
        args.emitter_fraction,
    ) {
        Some(StartError::SurfaceWeight)
    } else if args.eval_checkpoint is Some && known.same_directory {
        Some(StartError::SameDirectory)
    } else if !known.settings_valid || !known.rays_valid {
        Some(StartError::Settings)
    } else if training_rays(args) > usize::MAX {
        Some(StartError::Rays)
    } else if !known.training_rays_valid {
        Some(StartError::Settings)
    } else if !weight_fits(args.consistency_weight) || (args.consistency_rays != 0 && (
    !known.visible_rgb || args.samples as int % known.bins as int != 0
        || args.eval_checkpoint is Some)) {
        Some(StartError::Consistency)
    } else if !weight_fits(args.incident_weight) {
        Some(StartError::IncidentWeight)
    } else if args.data.len() == 0 || (args.steps == 0 && args.eval_checkpoint is None)
        || !bits::finite32(args.rate) || !bits::less32(0, args.rate) {
        Some(StartError::Nothing)
    } else {
        None
    }
}

/// What a run is to do.
#[derive(Clone, Copy, Debug, PartialEq, Eq, Structural)]
pub struct Plan {
    pub steps: usize,
    pub training_rays: usize,
    /// Without incident rays their weight is zero.
    pub incident_weight: u32,
}

/// Checks a run before anything is read.
pub fn check_start(args: &Args, known: Known) -> (result: Result<Plan, StartError>)
    requires
        known.bins > 0,
    ensures
        match start_fault(*args, known) {
            Some(error) => result == Err::<Plan, StartError>(error),
            None => result == Ok::<Plan, StartError>(
                Plan {
                    steps: steps_of(*args),
                    training_rays: training_rays(*args) as usize,
                    incident_weight: if args.incident_rays == 0 {
                        0
                    } else {
                        args.incident_weight
                    },
                },
            ),
        },
{
    let surface_fits = match args.surface_weight {
        Some(w) => is_weight(w),
        None => true,
    };
    let share: u32 = args.emitter_fraction;
    if !surface_fits || !(is_finite32(share) && is_at_most32(0, share) && is_at_most32(
        share,
        ONE32,
    )) {
        return Err(StartError::SurfaceWeight);
    }
    let recovers = args.eval_checkpoint.is_some();
    if recovers && known.same_directory {
        return Err(StartError::SameDirectory);
    }
    if !known.settings_valid || !known.rays_valid {
        return Err(StartError::Settings);
    }
    let training_rays: usize = match args.rays.checked_add(args.incident_rays) {
        None => {
            return Err(StartError::Rays);
        },
        Some(n) => match n.checked_add(args.consistency_rays) {
            None => {
                return Err(StartError::Rays);
            },
            Some(n) => n,
        },
    };
    if !known.training_rays_valid {
        return Err(StartError::Settings);
    }
    if !is_weight(args.consistency_weight) || (args.consistency_rays != 0 && (!known.visible_rgb
        || args.samples % known.bins != 0 || recovers)) {
        return Err(StartError::Consistency);
    }
    if !is_weight(args.incident_weight) {
        return Err(StartError::IncidentWeight);
    }
    if args.data.len() == 0 || (args.steps == 0 && !recovers) || !is_finite32(args.rate)
        || !is_less32(0, args.rate) {
        return Err(StartError::Nothing);
    }
    Ok(
        Plan {
            steps: if recovers {
                0
            } else {
                args.steps
            },
            training_rays,
            incident_weight: if args.incident_rays == 0 {
                0
            } else {
                args.incident_weight
            },
        },
    )
}

/// What is known of a scene that is trained on.
#[derive(Clone, Copy, Debug, PartialEq, Eq, Structural)]
pub struct SceneFacts {
    pub scene_seed: u64,
    pub incident: bool,
    /// Every camera that is fitted to has surfaces.
    pub surfaces: bool,
}

/// Whether a scene that is evaluated was trained on.
pub open spec fn seen(train: Seq<SceneFacts>, held: Seq<u64>) -> bool {
    exists|i: int, j: int|
        0 <= i < train.len() && 0 <= j < held.len() && (#[trigger] train[i]).scene_seed
            == #[trigger] held[j]
}

/// What is wrong with what was read: the first of these that holds.
pub open spec fn corpus_fault(args: Args, train: Seq<SceneFacts>, held: Seq<u64>) -> Option<
    StartError,
> {
    if train.len() == 0 {
        Some(StartError::EmptyCorpus)
    } else if args.incident_rays > 0 && exists|i: int|
        0 <= i < train.len() && !(#[trigger] train[i]).incident {
        Some(StartError::NoIncident)
    } else if (args.surface_weight is Some || bits::less32(0, args.emitter_fraction)) && exists|
        i: int,
    |
        0 <= i < train.len() && !(#[trigger] train[i]).surfaces {
        Some(StartError::NoSurfaces)
    } else if !weight_fits(args.visibility_weight) {
        Some(StartError::VisibilityWeight)
    } else if seen(train, held) {
        Some(StartError::SeenScene)
    } else {
        None
    }
}

/// Checks what was read.
pub fn check_corpus(args: &Args, train: &Vec<SceneFacts>, held: &Vec<u64>) -> (result: Result<
    (),
    StartError,
>)
    ensures
        match corpus_fault(*args, train@, held@) {
            Some(error) => result == Err::<(), StartError>(error),
            None => result is Ok,
        },
{
    if train.len() == 0 {
        return Err(StartError::EmptyCorpus);
    }
    let mut all_incident = true;
    let mut all_surfaces = true;
    let mut any_seen = false;
    let mut i: usize = 0;
    while i < train.len()
        invariant
            i <= train.len(),
            all_incident == forall|j: int| 0 <= j < i ==> (#[trigger] train@[j]).incident,
            all_surfaces == forall|j: int| 0 <= j < i ==> (#[trigger] train@[j]).surfaces,
            any_seen == exists|j: int, k: int|
                0 <= j < i && 0 <= k < held.len() && (#[trigger] train@[j]).scene_seed
                    == #[trigger] held@[k],
        decreases train.len() - i,
    {
        let scene: SceneFacts = train[i];
        assert(train@[i as int] == scene);
        if !scene.incident {
            all_incident = false;
        }
        if !scene.surfaces {
            all_surfaces = false;
        }
        let ghost seen_before = any_seen;
        let mut k: usize = 0;
        while k < held.len()
            invariant
                i < train.len(),
                k <= held.len(),
                scene == train@[i as int],
                any_seen == (seen_before || exists|l: int|
                    0 <= l < k && scene.scene_seed == #[trigger] held@[l]),
            decreases held.len() - k,
        {
            if held[k] == scene.scene_seed {
                assert(held@[k as int] == scene.scene_seed);
                any_seen = true;
            }
            k = k + 1;
        }
        i = i + 1;
    }
    if args.incident_rays > 0 && !all_incident {
        return Err(StartError::NoIncident);
    }
    if (args.surface_weight.is_some() || is_less32(0, args.emitter_fraction)) && !all_surfaces {
        return Err(StartError::NoSurfaces);
    }
    if !is_weight(args.visibility_weight) {
        return Err(StartError::VisibilityWeight);
    }
    if any_seen {
        return Err(StartError::SeenScene);
    }
    Ok(())
}

/// Why the cameras of a capture do not do.
#[derive(Clone, Copy, Debug, PartialEq, Eq, Structural)]
pub enum LoadError {
    /// The pictures do not have the extent of the settings.
    Extent,
    /// There are too few of them.
    Cameras,
    /// A picture has no colour.
    NoColor,
    /// A picture holds what cannot be radiance.
    Color,
    /// The one held out stands where a view is taken from.
    Duplicate,
}

impl LoadError {
    /// What is said of it.
    pub open spec fn said(self) -> Seq<char> {
        match self {
            LoadError::Extent => "capture/config extent mismatch; choose --image to match the HR capture"@,
            LoadError::Cameras => "need context views, a fitting camera and a held camera per scene"@,
            LoadError::NoColor => "missing HR RGB"@,
            LoadError::Color => "invalid scene-linear RGB target"@,
            LoadError::Duplicate => "held camera duplicates context or no fitting views remain; use --field-views"@,
        }
    }

    /// Says why in words.
    pub fn words(self) -> (result: &'static str)
        ensures
            result@ == self.said(),
    {
        match self {
            LoadError::Extent => "capture/config extent mismatch; choose --image to match the HR capture",
            LoadError::Cameras => "need context views, a fitting camera and a held camera per scene",
            LoadError::NoColor => "missing HR RGB",
            LoadError::Color => "invalid scene-linear RGB target",
            LoadError::Duplicate => "held camera duplicates context or no fitting views remain; use --field-views",
        }
    }
}

/// How the cameras of a scene are shared out: views that the field is given,
/// cameras that it is fitted to, and one that is held out.
#[derive(Debug)]
pub struct ViewSplit {
    pub contexts: Vec<usize>,
    pub train: Vec<usize>,
    pub held: usize,
}

/// The cameras among the first `k` that are no views.
pub open spec fn left_over(contexts: Seq<usize>, k: int) -> Seq<usize>
    decreases k,
{
    if k <= 0 {
        seq![]
    } else if contexts.contains((k - 1) as usize) {
        left_over(contexts, k - 1)
    } else {
        left_over(contexts, k - 1).push((k - 1) as usize)
    }
}

/// Whether the camera held out stands where a view is taken from.
pub open spec fn duplicated(contexts: Seq<usize>, same_origin: Seq<bool>) -> bool {
    exists|v: int| 0 <= v < contexts.len() && same_origin[#[trigger] contexts[v] as int]
}

/// Finds whether a camera is a view.
fn is_context(contexts: &Vec<usize>, i: usize) -> (result: bool)
    ensures
        result == contexts@.contains(i),
{
    let mut k: usize = 0;
    while k < contexts.len()
        invariant
            k <= contexts.len(),
            forall|j: int| 0 <= j < k ==> #[trigger] contexts@[j] != i,
        decreases contexts.len() - k,
    {
        if contexts[k] == i {
            assert(contexts@[k as int] == i);
            return true;
        }
        k = k + 1;
    }
    false
}

/// Shares out the cameras of a scene: the last is held out, views are taken
/// evenly from the others, and what is left is fitted to. For each camera it is
/// known whether it stands where the last one does.
pub fn split_views(views: usize, same_origin: &Vec<bool>) -> (result: Result<ViewSplit, LoadError>)
    requires
        0 < views,
        views + 2 <= usize::MAX,
        views * same_origin.len() <= usize::MAX,
    ensures
        ({
            let cameras = same_origin.len() as int;
            let contexts = fit::context_records(views as int, cameras);
            if cameras < views + 2 {
                result == Err::<ViewSplit, LoadError>(LoadError::Cameras)
            } else if duplicated(contexts, same_origin@) {
                result == Err::<ViewSplit, LoadError>(LoadError::Duplicate)
            } else {
                result matches Ok(split) && split.contexts@ == contexts && split.train@
                    == left_over(contexts, cameras - 1) && split.held == cameras - 1
            }
        }),
{
    let cameras: usize = same_origin.len();
    if cameras < views + 2 {
        return Err(LoadError::Cameras);
    }
    let contexts = find_contexts(views, cameras);
    let mut v: usize = 0;
    while v < contexts.len()
        invariant
            v <= contexts.len() == views,
            cameras == same_origin.len(),
            forall|j: int| 0 <= j < views ==> #[trigger] contexts@[j] < cameras - 1,
            forall|j: int| 0 <= j < v ==> !same_origin@[#[trigger] contexts@[j] as int],
            contexts@ == fit::context_records(views as int, cameras as int),
            cameras >= views + 2,
        decreases contexts.len() - v,
    {
        assert(contexts@[v as int] < cameras - 1);
        if same_origin[contexts[v]] {
            assert(same_origin@[contexts@[v as int] as int]);
            return Err(LoadError::Duplicate);
        }
        v = v + 1;
    }
    let mut train: Vec<usize> = Vec::new();
    let mut i: usize = 0;
    while i < cameras - 1
        invariant
            i <= cameras - 1,
            train@ == left_over(contexts@, i as int),
        decreases cameras - 1 - i,
    {
        if !is_context(&contexts, i) {
            train.push(i);
        }
        i = i + 1;
    }
    assert(!duplicated(contexts@, same_origin@));
    Ok(ViewSplit { contexts, train, held: cameras - 1 })
}

proof fn lemma_left_over(contexts: Seq<usize>, k: int)
    requires
        0 <= k <= usize::MAX,
    ensures
        forall|i: int|
            0 <= i < k ==> (left_over(contexts, k).contains(i as usize) <==> !contexts.contains(
                #[trigger] (i as usize),
            )),
        forall|j: int| 0 <= j < left_over(contexts, k).len() ==> #[trigger] left_over(contexts, k)[j] < k,
    decreases k,
{
    if k > 0 {
        lemma_left_over(contexts, k - 1);
        let before = left_over(contexts, k - 1);
        let after = left_over(contexts, k);
        assert forall|i: int| 0 <= i < k implies (after.contains(i as usize) <==> !contexts.contains(
            #[trigger] (i as usize),
        )) by {
            if after.contains(i as usize) {
                let j = choose|j: int| 0 <= j < after.len() && after[j] == i as usize;
                if j < before.len() {
                    assert(before.contains(i as usize));
                }
            } else if i < k - 1 && before.contains(i as usize) {
                let j = choose|j: int| 0 <= j < before.len() && before[j] == i as usize;
                assert(after[j] == i as usize);
            } else if i == k - 1 && !contexts.contains(i as usize) {
                assert(after[after.len() - 1] == i as usize);
            }
        }
    }
}

proof fn lemma_contexts_apart(views: int, cameras: int, a: int, b: int)
    requires
        0 <= a < b < views,
        views <= cameras - 1,
    ensures
        fit::context_record(a, views, cameras) < fit::context_record(b, views, cameras),
{
    let n = cameras - 1;
    vstd::arithmetic::div_mod::lemma_fundamental_div_mod(a * n, views);
    vstd::arithmetic::div_mod::lemma_fundamental_div_mod(b * n, views);
    let (p, q) = (a * n / views, b * n / views);
    let (r, s) = (a * n % views, b * n % views);
    assert(p < q) by (nonlinear_arith)
        requires
            a * n == views * p + r,
            b * n == views * q + s,
            0 <= r < views,
            0 <= s < views,
            a + 1 <= b,
            views <= n,
            views > 0,
    {
        assert(b * n >= a * n + n);
        assert(views * q + s >= views * p + r + views);
        assert(views * q > views * p);
    }
}

/// Of the cameras of a scene each has one use: it is a view, it is fitted to, or
/// it is held out. No camera is a view twice, and some are fitted to.
pub proof fn cameras_are_shared_out(views: int, cameras: int)
    requires
        0 < views,
        views + 2 <= cameras <= usize::MAX,
    ensures
        ({
            let contexts = fit::context_records(views, cameras);
            let train = left_over(contexts, cameras - 1);
            &&& forall|i: int|
                0 <= i < cameras - 1 ==> (train.contains(i as usize) <==> !contexts.contains(
                    #[trigger] (i as usize),
                ))
            &&& !contexts.contains((cameras - 1) as usize)
            &&& !train.contains((cameras - 1) as usize)
            &&& forall|a: int, b: int|
                0 <= a < b < contexts.len() ==> #[trigger] contexts[a] != #[trigger] contexts[b]
            &&& train.len() > 0
        }),
{
    let contexts = fit::context_records(views, cameras);
    let train = left_over(contexts, cameras - 1);
    let n = cameras - 1;
    lemma_left_over(contexts, n);
    assert forall|v: int| 0 <= v < views implies 0 <= #[trigger] fit::context_record(
        v,
        views,
        cameras,
    ) < n by {
        assert(0 <= v * n < views * n) by (nonlinear_arith)
            requires
                0 <= v < views,
                0 < n,
        ;
        vstd::arithmetic::div_mod::lemma_multiply_divide_lt(v * n, views, n);
        vstd::arithmetic::div_mod::lemma_div_pos_is_pos(v * n, views);
    }
    assert forall|a: int, b: int| 0 <= a < b < contexts.len() implies #[trigger] contexts[a]
        != #[trigger] contexts[b] by {
        lemma_contexts_apart(views, cameras, a, b);
        assert(0 <= fit::context_record(a, views, cameras) < n);
        assert(0 <= fit::context_record(b, views, cameras) < n);
    }
    if contexts.contains(n as usize) {
        let v = choose|v: int| 0 <= v < contexts.len() && contexts[v] == n as usize;
        assert(0 <= fit::context_record(v, views, cameras) < n);
    }
    if train.contains(n as usize) {
        let j = choose|j: int| 0 <= j < train.len() && train[j] == n as usize;
        assert(train[j] < n);
    }
    lemma_some_left(contexts, n);
}

proof fn lemma_some_left(contexts: Seq<usize>, n: int)
    requires
        contexts.len() < n <= usize::MAX,
    ensures
        left_over(contexts, n).len() > 0,
{
    lemma_left_counts(contexts, n);
}

proof fn lemma_left_counts(contexts: Seq<usize>, n: int)
    requires
        0 <= n <= usize::MAX,
    ensures
        left_over(contexts, n).len() >= n - contexts.len(),
    decreases contexts.len(),
{
    if contexts.len() == 0 {
        lemma_none_taken(contexts, n);
    } else {
        let fewer = contexts.drop_last();
        lemma_left_counts(fewer, n);
        lemma_one_more(contexts, n);
    }
}

proof fn lemma_none_taken(contexts: Seq<usize>, n: int)
    requires
        contexts.len() == 0,
        0 <= n,
    ensures
        left_over(contexts, n).len() == n,
    decreases n,
{
    if n > 0 {
        lemma_none_taken(contexts, n - 1);
    }
}

proof fn lemma_one_more(contexts: Seq<usize>, n: int)
    requires
        contexts.len() > 0,
        0 <= n <= usize::MAX,
    ensures
        left_over(contexts, n).len() + (if n > contexts.last() {
            1int
        } else {
            0
        }) >= left_over(contexts.drop_last(), n).len(),
    decreases n,
{
    let fewer = contexts.drop_last();
    if n > 0 {
        lemma_one_more(contexts, n - 1);
        let i = (n - 1) as usize;
        if fewer.contains(i) {
            let j = choose|j: int| 0 <= j < fewer.len() && fewer[j] == i;
            assert(contexts[j] == i);
        }
        if contexts.contains(i) && !fewer.contains(i) {
            let j = choose|j: int| 0 <= j < contexts.len() && contexts[j] == i;
            if j < fewer.len() {
                assert(fewer[j] == i);
            }
            assert(contexts.last() == i);
        }
    }
}

/// The pixel of ray `i` of a batch that starts at `start`: rays past the end
/// repeat the last pixel.
pub open spec fn batch_pixel(start: int, i: int, n: int) -> int {
    if start + i < n {
        start + i
    } else {
        n - 1
    }
}

/// The pixels of a batch.
pub fn batch_pixels(start: usize, rays: usize, n: usize) -> (result: Vec<usize>)
    requires
        start < n,
        start + rays <= usize::MAX,
    ensures
        result@.len() == rays,
        forall|i: int|
            0 <= i < rays ==> #[trigger] result@[i] == batch_pixel(start as int, i, n as int)
                && result@[i] < n,
{
    let mut list: Vec<usize> = Vec::new();
    let mut i: usize = 0;
    while i < rays
        invariant
            i <= rays,
            start < n,
            start + rays <= usize::MAX,
            list@.len() == i,
            forall|j: int|
                0 <= j < i ==> #[trigger] list@[j] == batch_pixel(start as int, j, n as int)
                    && list@[j] < n,
        decreases rays - i,
    {
        let p: usize = if start + i < n {
            start + i
        } else {
            n - 1
        };
        list.push(p);
        i = i + 1;
    }
    list
}

/// How many rays of a batch count.
pub open spec fn batch_len(start: int, rays: int, n: int) -> int {
    if n - start < rays {
        n - start
    } else {
        rays
    }
}

/// How many batches a picture takes.
pub open spec fn batch_count(n: int, rays: int) -> int {
    (n + rays - 1) / rays
}

/// Puts a picture together from its batches, `channels` values a ray. What
/// counts of each batch follows what counts of the one before.
pub fn gather_batches<T: Copy>(batches: &Vec<Vec<T>>, rays: usize, channels: usize, n: usize) -> (result:
    Vec<T>)
    requires
        rays > 0,
        n + rays <= usize::MAX,
        n * channels <= usize::MAX,
        rays * channels <= usize::MAX,
        batches.len() == batch_count(n as int, rays as int),
        forall|b: int|
            0 <= b < batches.len() ==> (#[trigger] batches@[b])@.len() == rays * channels,
    ensures
        result@.len() == n * channels,
        forall|p: int, c: int|
            0 <= p < n && 0 <= c < channels ==> #[trigger] result@[p * channels + c] == batches@[p
                / rays as int]@[(p % rays as int) * channels + c],
{
    let mut out: Vec<T> = Vec::new();
    let mut p: usize = 0;
    while p < n
        invariant
            p <= n,
            rays > 0,
            n + rays <= usize::MAX,
            n * channels <= usize::MAX,
            rays * channels <= usize::MAX,
            batches.len() == batch_count(n as int, rays as int),
            forall|b: int|
                0 <= b < batches.len() ==> (#[trigger] batches@[b])@.len() == rays * channels,
            out@.len() == p * channels,
            forall|q: int, c: int|
                0 <= q < p && 0 <= c < channels ==> #[trigger] out@[q * channels + c] == batches@[q
                    / rays as int]@[(q % rays as int) * channels + c],
        decreases n - p,
    {
        let b: usize = p / rays;
        let r: usize = p % rays;
        proof {
            let (x, y) = (n as int + rays as int - 1, rays as int);
            vstd::arithmetic::div_mod::lemma_fundamental_div_mod(x, y);
            vstd::arithmetic::div_mod::lemma_fundamental_div_mod(p as int, y);
            let (q, k) = (x / y, p as int / y);
            assert(k < q) by (nonlinear_arith)
                requires
                    x == y * q + x % y,
                    0 <= x % y < y,
                    p == y * k + p as int % y,
                    0 <= p as int % y,
                    p + y <= x,
                    y > 0,
            ;
        }
        let batch = &batches[b];
        assert(batches@[b as int]@.len() == rays * channels);
        let mut c: usize = 0;
        while c < channels
            invariant
                c <= channels,
                p < n,
                r < rays,
                r == p as int % rays as int,
                b == p as int / rays as int,
                b < batches.len(),
                batch == batches@[b as int],
                batch@.len() == rays * channels,
                rays * channels <= usize::MAX,
                out@.len() == p * channels + c,
                forall|q: int, k: int|
                    0 <= q < p && 0 <= k < channels ==> #[trigger] out@[q * channels + k]
                        == batches@[q / rays as int]@[(q % rays as int) * channels + k],
                forall|k: int|
                    0 <= k < c ==> #[trigger] out@[p * channels + k] == batch@[r * channels + k],
            decreases channels - c,
        {
            assert(0 <= r * channels && r * channels + c < rays * channels) by (nonlinear_arith)
                requires
                    0 <= r,
                    r + 1 <= rays,
                    0 <= c < channels,
            ;
            let ghost before = out@;
            out.push(batch[r * channels + c]);
            assert forall|q: int, k: int| 0 <= q < p && 0 <= k < channels implies #[trigger] out@[q
                * channels + k] == batches@[q / rays as int]@[(q % rays as int) * channels + k] by {
                assert(0 <= q * channels + k < p * channels) by (nonlinear_arith)
                    requires
                        0 <= q,
                        q + 1 <= p,
                        0 <= k < channels,
                ;
                assert(out@[q * channels + k] == before[q * channels + k]);
            }
            c = c + 1;
        }
        assert forall|q: int, k: int| 0 <= q < p + 1 && 0 <= k < channels implies #[trigger] out@[q
            * channels + k] == batches@[q / rays as int]@[(q % rays as int) * channels + k] by {
            if q == p {
                assert(out@[p * channels + k] == batch@[r * channels + k]);
            }
        }
        assert((p + 1) * channels == p * channels + channels) by (nonlinear_arith);
        p = p + 1;
    }
    out
}

/// Every pixel of a picture counts in one batch: the one that starts at or
/// before it, less than a batch away.
pub proof fn batches_cover_the_picture(p: int, rays: int, n: int)
    requires
        0 < rays,
        0 <= p < n,
    ensures
        ({
            let start = p / rays * rays;
            &&& start <= p < start + batch_len(start, rays, n)
            &&& batch_pixel(start, p % rays, n) == p
        }),
{
    vstd::arithmetic::div_mod::lemma_fundamental_div_mod(p, rays);
    vstd::arithmetic::mul::lemma_mul_is_commutative(rays, p / rays);
}

/// The weights of ray `r` along its samples, out of weights that stand sample by
/// sample.
pub fn ray_weights<T: Copy>(mass: &[T], rays: usize, samples: usize, r: usize) -> (result: Vec<T>)
    requires
        r < rays,
        mass@.len() == samples * rays,
    ensures
        result@.len() == samples,
        forall|s: int| 0 <= s < samples ==> #[trigger] result@[s] == mass@[s * rays + r],
{
    let total: usize = mass.len();
    let mut list: Vec<T> = Vec::new();
    let mut s: usize = 0;
    while s < samples
        invariant
            s <= samples,
            r < rays,
            total == mass@.len() == samples * rays,
            list@.len() == s,
            forall|k: int| 0 <= k < s ==> #[trigger] list@[k] == mass@[k * rays + r],
        decreases samples - s,
    {
        assert(0 <= s * rays && s * rays + r < samples * rays) by (nonlinear_arith)
            requires
                0 <= s,
                s + 1 <= samples,
                0 <= r < rays,
        ;
        list.push(mass[s * rays + r]);
        s = s + 1;
    }
    list
}

/// A list that starts `k` places later and goes around.
pub open spec fn rotated<T>(list: Seq<T>, k: int) -> Seq<T> {
    list.skip(k) + list.take(k)
}

/// What view `i` shows when its link to the pictures is cut: nothing, or the
/// picture of the next view, or where there is one view only, its own picture a
/// third of the way around.
pub open spec fn ablated_view<T>(views: Seq<Vec<T>>, zero: bool, blank: T, i: int) -> Seq<T> {
    if zero {
        Seq::new(views[i]@.len(), |k: int| blank)
    } else if views.len() > 1 {
        views[(i + 1) % views.len() as int]@
    } else {
        rotated(views[i]@, 3 * (views[i]@.len() as int / 3 / 3))
    }
}

/// Copies part of a list.
fn add_part<T: Copy>(out: &mut Vec<T>, list: &Vec<T>, from: usize, to: usize)
    requires
        from <= to <= list.len(),
    ensures
        final(out)@ == old(out)@ + list@.subrange(from as int, to as int),
{
    let ghost before = out@;
    let mut k: usize = from;
    assert(before + list@.subrange(from as int, from as int) =~= before);
    while k < to
        invariant
            from <= k <= to <= list.len(),
            out@ == before + list@.subrange(from as int, k as int),
        decreases to - k,
    {
        out.push(list[k]);
        assert(list@.subrange(from as int, k + 1) =~= list@.subrange(from as int, k as int).push(
            list@[k as int],
        ));
        assert(out@ =~= before + list@.subrange(from as int, k + 1));
        k = k + 1;
    }
}

/// Cuts the link between views and their pictures.
pub fn ablated<T: Copy>(views: &Vec<Vec<T>>, zero: bool, blank: T) -> (result: Vec<Vec<T>>)
    ensures
        result.len() == views.len(),
        forall|i: int|
            0 <= i < views.len() ==> (#[trigger] result@[i])@ == ablated_view(
                views@,
                zero,
                blank,
                i,
            ),
{
    let mut out: Vec<Vec<T>> = Vec::new();
    let mut i: usize = 0;
    while i < views.len()
        invariant
            i <= views.len(),
            out.len() == i,
            forall|j: int|
                0 <= j < i ==> (#[trigger] out@[j])@ == ablated_view(views@, zero, blank, j),
        decreases views.len() - i,
    {
        let mut picture: Vec<T> = Vec::new();
        let own = &views[i];
        if zero {
            let mut k: usize = 0;
            while k < own.len()
                invariant
                    k <= own.len(),
                    picture@ == Seq::new(k as nat, |j: int| blank),
                decreases own.len() - k,
            {
                picture.push(blank);
                assert(picture@ =~= Seq::new((k + 1) as nat, |j: int| blank));
                k = k + 1;
            }
        } else if views.len() > 1 {
            let next: usize = if i + 1 < views.len() {
                i + 1
            } else {
                0
            };
            proof {
                if i + 1 < views.len() {
                    vstd::arithmetic::div_mod::lemma_small_mod((i + 1) as nat, views@.len());
                } else {
                    vstd::arithmetic::div_mod::lemma_mod_self_0(views@.len() as int);
                }
            }
            add_part(&mut picture, &views[next], 0, views[next].len());
            assert(picture@ =~= views@[next as int]@);
        } else {
            let turn: usize = 3 * (own.len() / 3 / 3);
            add_part(&mut picture, own, turn, own.len());
            add_part(&mut picture, own, 0, turn);
            assert(picture@ =~= rotated(own@, turn as int));
        }
        out.push(picture);
        i = i + 1;
    }
    out
}

/// What is known of one ray when its depth is scored.
#[derive(Clone, Copy, Debug, PartialEq, Eq, Structural)]
pub struct RayFacts {
    /// The ray has a class to be held against.
    pub classed: bool,
    /// At least half of it ends somewhere.
    pub opaque: bool,
    /// It should meet a surface.
    pub hit: bool,
    /// That surface shines.
    pub source: bool,
}

/// What is counted of rays.
#[derive(Clone, Copy, Debug, PartialEq, Eq, Structural)]
pub struct RayCounts {
    pub valid: usize,
    pub excluded: usize,
    pub correct: usize,
    pub hits: usize,
    pub sources: usize,
}

/// One where it holds.
pub open spec fn one_if(b: bool) -> int {
    if b {
        1
    } else {
        0
    }
}

/// How many of the first `k` rays are scored, told right, should hit, and should
/// hit a light.
pub open spec fn rays_counted(rays: Seq<RayFacts>, k: int) -> (int, int, int, int)
    decreases k,
{
    if k <= 0 {
        (0, 0, 0, 0)
    } else {
        let (valid, correct, hits, sources) = rays_counted(rays, k - 1);
        let r = rays[k - 1];
        (
            valid + one_if(r.classed),
            correct + one_if(r.classed && r.opaque == r.hit),
            hits + one_if(r.classed && r.hit),
            sources + one_if(r.classed && r.hit && r.source),
        )
    }
}

/// Counts the rays of a picture whose depth is scored.
pub fn geometry(rays: &Vec<RayFacts>) -> (result: RayCounts)
    ensures
        (
            result.valid as int,
            result.correct as int,
            result.hits as int,
            result.sources as int,
        ) == rays_counted(rays@, rays.len() as int),
        result.excluded == rays.len() - result.valid,
        result.sources <= result.hits <= result.valid,
        result.correct <= result.valid,
{
    let mut valid: usize = 0;
    let mut correct: usize = 0;
    let mut hits: usize = 0;
    let mut sources: usize = 0;
    let mut i: usize = 0;
    while i < rays.len()
        invariant
            i <= rays.len(),
            valid <= i,
            correct <= valid,
            sources <= hits <= valid,
            (valid as int, correct as int, hits as int, sources as int) == rays_counted(
                rays@,
                i as int,
            ),
        decreases rays.len() - i,
    {
        let r: RayFacts = rays[i];
        if r.classed {
            valid = valid + 1;
            if r.opaque == r.hit {
                correct = correct + 1;
            }
            if r.hit {
                hits = hits + 1;
                if r.source {
                    sources = sources + 1;
                }
            }
        }
        i = i + 1;
    }
    RayCounts { valid, excluded: rays.len() - valid, correct, hits, sources }
}

/// How many rays consistency is scored on, at least.
pub const CONSISTENCY_SCORED: usize = 512;

/// The seeds of the batches that consistency is scored on. There are none where
/// the samples do not fall into the bins.
#[verifier::spinoff_prover]
pub fn consistency_seeds(rays: usize, samples: usize, bins: usize) -> (result: Option<Vec<u64>>)
    requires
        rays > 0,
        bins > 0,
    ensures
        match result {
            None => samples as int % bins as int != 0,
            Some(list) => {
                &&& samples as int % bins as int == 0
                &&& list.len() * rays >= CONSISTENCY_SCORED
                &&& (list.len() - 1) * rays < CONSISTENCY_SCORED
                &&& forall|b: int|
                    0 <= b < list.len() ==> #[trigger] list@[b] == 0x32A7_4DA9u64 ^ (b as u64)
            },
        },
{
    if samples % bins != 0 {
        return None;
    }
    let mut list: Vec<u64> = Vec::new();
    let mut covered: usize = 0;
    assert(list.len() * rays == 0) by (nonlinear_arith)
        requires
            list.len() == 0,
    ;
    while covered < CONSISTENCY_SCORED
        invariant
            rays > 0,
            list.len() <= CONSISTENCY_SCORED,
            list.len() <= covered,
            covered <= CONSISTENCY_SCORED ==> covered == list.len() * rays,
            covered > CONSISTENCY_SCORED ==> list.len() * rays > CONSISTENCY_SCORED,
            list.len() > 0 ==> (list.len() - 1) * rays < CONSISTENCY_SCORED,
            forall|b: int|
                0 <= b < list.len() ==> #[trigger] list@[b] == 0x32A7_4DA9u64 ^ (b as u64),
        decreases CONSISTENCY_SCORED - list.len(),
    {
        let ghost k = list.len() as int;
        assert((k + 1) * rays == k * rays + rays) by (nonlinear_arith);
        list.push(0x32A7_4DA9 ^ list.len() as u64);
        assert(list.len() == k + 1);
        covered = if rays >= CONSISTENCY_SCORED - covered {
            if rays == CONSISTENCY_SCORED - covered {
                CONSISTENCY_SCORED
            } else {
                CONSISTENCY_SCORED + 1
            }
        } else {
            covered + rays
        };
    }
    Some(list)
}

/// The pixels among the first `k` that show a light.
pub open spec fn source_pixels(luminous: Seq<bool>, k: int) -> Seq<usize>
    decreases k,
{
    if k <= 0 {
        seq![]
    } else if luminous[k - 1] {
        source_pixels(luminous, k - 1).push((k - 1) as usize)
    } else {
        source_pixels(luminous, k - 1)
    }
}

/// Finds the pixels that show a light.
pub fn find_sources(luminous: &Vec<bool>) -> (result: Vec<usize>)
    ensures
        result@ == source_pixels(luminous@, luminous.len() as int),
        forall|j: int| 0 <= j < result.len() ==> #[trigger] result@[j] < luminous.len(),
{
    let mut list: Vec<usize> = Vec::new();
    let mut k: usize = 0;
    while k < luminous.len()
        invariant
            k <= luminous.len(),
            list@ == source_pixels(luminous@, k as int),
            forall|j: int| 0 <= j < list.len() ==> #[trigger] list@[j] < luminous.len(),
        decreases luminous.len() - k,
    {
        if luminous[k] {
            list.push(k);
        }
        k = k + 1;
    }
    list
}

/// The pixel that ray `i` of a step is drawn from: the first `quota` rays are
/// drawn among those that show a light, where there are any, and the others
/// among all.
pub open spec fn drawn_pixel(sources: Seq<usize>, quota: int, n: int, i: int, number: int) -> int {
    if sources.len() > 0 && i < quota {
        sources[number % sources.len() as int] as int
    } else {
        number % n
    }
}

/// Draws the pixels of a step.
pub fn draw_pixels(sources: &Vec<usize>, quota: usize, n: usize, draws: &Vec<usize>) -> (result: Vec<
    usize,
>)
    requires
        n > 0,
        forall|j: int| 0 <= j < sources.len() ==> #[trigger] sources@[j] < n,
    ensures
        result.len() == draws.len(),
        forall|i: int|
            0 <= i < draws.len() ==> #[trigger] result@[i] == drawn_pixel(
                sources@,
                quota as int,
                n as int,
                i,
                draws@[i] as int,
            ) && result@[i] < n,
{
    let mut list: Vec<usize> = Vec::new();
    let mut i: usize = 0;
    while i < draws.len()
        invariant
            i <= draws.len(),
            n > 0,
            forall|j: int| 0 <= j < sources.len() ==> #[trigger] sources@[j] < n,
            list.len() == i,
            forall|j: int|
                0 <= j < i ==> #[trigger] list@[j] == drawn_pixel(
                    sources@,
                    quota as int,
                    n as int,
                    j,
                    draws@[j] as int,
                ) && list@[j] < n,
        decreases draws.len() - i,
    {
        let number: usize = draws[i];
        let p: usize = if sources.len() > 0 && i < quota {
            let at: usize = number % sources.len();
            assert(sources@[at as int] < n);
            sources[at]
        } else {
            number % n
        };
        list.push(p);
        i = i + 1;
    }
    list
}

/// The seeds of a step: of the incident rays, of the rays between views, of the
/// places along the rays, and of the probes of emission. Each has its own, so
/// that one may change without the others.
#[derive(Clone, Copy, Debug, PartialEq, Eq, Structural)]
pub struct StepSeeds {
    pub incident: u64,
    pub consistency: u64,
    pub samples: u64,
    pub emission: u64,
}

/// The seeds of a step.
pub fn step_seeds(seed: u64, step: usize) -> (result: StepSeeds)
    requires
        seed + step <= u64::MAX,
    ensures
        result.emission == seed + step,
        result.incident == seed ^ vstd::wrapping::u64_specs::wrapping_mul(
            step as u64,
            0xD1B5_4A32_D192_ED03,
        ),
        result.consistency == seed ^ 0xBE54_66CF_34E9_0C6C ^ vstd::wrapping::u64_specs::wrapping_mul(
            step as u64,
            0x9E37_79B9_7F4A_7C15,
        ),
        result.samples == seed ^ 0xA24B_AED4_963E_E407 ^ vstd::wrapping::u64_specs::wrapping_mul(
            step as u64,
            0x9E37_79B9_7F4A_7C15,
        ),
{
    let odd: u64 = (step as u64).wrapping_mul(0x9E37_79B9_7F4A_7C15);
    StepSeeds {
        incident: seed ^ (step as u64).wrapping_mul(0xD1B5_4A32_D192_ED03),
        consistency: seed ^ 0xBE54_66CF_34E9_0C6C ^ odd,
        samples: seed ^ 0xA24B_AED4_963E_E407 ^ odd,
        emission: seed + step as u64,
    }
}

/// One camera of a capture: its scene, where it stands, and the colour of its
/// picture channel by channel, where the picture has one.
#[derive(Debug)]
pub struct Camera {
    pub scene: usize,
    pub origin: (u32, u32, u32),
    pub planes: Option<Vec<u32>>,
}

/// The cameras of a scene among the first `k`, in their order.
pub open spec fn members(cameras: Seq<Camera>, scene: int, k: int) -> Seq<usize>
    decreases k,
{
    if k <= 0 {
        seq![]
    } else if cameras[k - 1].scene == scene {
        members(cameras, scene, k - 1).push((k - 1) as usize)
    } else {
        members(cameras, scene, k - 1)
    }
}

/// Finds the cameras of a scene.
fn find_members(cameras: &Vec<Camera>, scene: usize) -> (result: Vec<usize>)
    ensures
        result@ == members(cameras@, scene as int, cameras.len() as int),
        result.len() <= cameras.len(),
        forall|j: int| 0 <= j < result.len() ==> #[trigger] result@[j] < cameras.len(),
{
    let mut list: Vec<usize> = Vec::new();
    let mut k: usize = 0;
    while k < cameras.len()
        invariant
            k <= cameras.len(),
            list@ == members(cameras@, scene as int, k as int),
            list.len() <= k,
            forall|j: int| 0 <= j < list.len() ==> #[trigger] list@[j] < cameras.len(),
        decreases cameras.len() - k,
    {
        if cameras[k].scene == scene {
            list.push(k);
        }
        k = k + 1;
    }
    list
}

/// What is wrong with the picture of a camera.
pub open spec fn picture_fault(camera: Camera) -> Option<LoadError> {
    match camera.planes {
        None => Some(LoadError::NoColor),
        Some(planes) => if exists|i: int|
            0 <= i < planes.len() && !pfm::radiant(#[trigger] planes@[i]) {
            Some(LoadError::Color)
        } else {
            None
        },
    }
}

/// What is wrong with the pictures of the first `k` of these cameras: what is
/// wrong with the first bad one.
pub open spec fn pictures_fault(cameras: Seq<Camera>, ids: Seq<usize>, k: int) -> Option<LoadError>
    decreases k,
{
    if k <= 0 {
        None
    } else {
        match pictures_fault(cameras, ids, k - 1) {
            Some(error) => Some(error),
            None => picture_fault(cameras[ids[k - 1] as int]),
        }
    }
}

/// Whether two cameras stand in one place.
pub open spec fn one_place(a: (u32, u32, u32), b: (u32, u32, u32)) -> bool {
    bits::equal32(a.0, b.0) && bits::equal32(a.1, b.1) && bits::equal32(a.2, b.2)
}

/// For each of these cameras, whether it stands where the last one does.
pub open spec fn with_last(cameras: Seq<Camera>, ids: Seq<usize>) -> Seq<bool> {
    Seq::new(
        ids.len(),
        |i: int| one_place(cameras[ids[i] as int].origin, cameras[ids.last() as int].origin),
    )
}

/// What is wrong with a scene.
pub open spec fn scene_fault(cameras: Seq<Camera>, scene: int, views: int) -> Option<LoadError> {
    let ids = members(cameras, scene, cameras.len() as int);
    if ids.len() < views + 2 {
        Some(LoadError::Cameras)
    } else {
        match pictures_fault(cameras, ids, ids.len() as int) {
            Some(error) => Some(error),
            None => if duplicated(
                fit::context_records(views, ids.len() as int),
                with_last(cameras, ids),
            ) {
                Some(LoadError::Duplicate)
            } else {
                None
            },
        }
    }
}

/// A scene as it is trained on: its cameras, what each sees texel by texel, and
/// how the cameras are shared out.
#[derive(Debug)]
pub struct Example {
    pub cameras: Vec<usize>,
    pub pictures: Vec<Vec<u32>>,
    pub split: ViewSplit,
}

/// Whether an example is what a scene gives.
pub open spec fn example_of(
    example: Example,
    cameras: Seq<Camera>,
    scene: int,
    views: int,
    texels: int,
) -> bool {
    let ids = members(cameras, scene, cameras.len() as int);
    let contexts = fit::context_records(views, ids.len() as int);
    &&& example.cameras@ == ids
    &&& example.pictures.len() == ids.len()
    &&& forall|i: int|
        0 <= i < ids.len() ==> pixels::interleaves(
            (#[trigger] example.pictures@[i])@,
            cameras[ids[i] as int].planes->0@,
            texels,
        )
    &&& example.split.contexts@ == contexts
    &&& example.split.train@ == left_over(contexts, ids.len() - 1)
    &&& example.split.held == ids.len() - 1
}

/// Whether every picture that is there has the extent.
pub open spec fn pictures_fit(cameras: Seq<Camera>, texels: int) -> bool {
    forall|i: int|
        0 <= i < cameras.len() ==> ((#[trigger] cameras[i]).planes matches Some(p) ==> p.len()
            == texels * 3)
}

/// Takes the pictures of these cameras.
fn take_pictures(cameras: &Vec<Camera>, ids: &Vec<usize>, texels: usize) -> (result: Result<
    Vec<Vec<u32>>,
    LoadError,
>)
    requires
        pictures_fit(cameras@, texels as int),
        forall|j: int| 0 <= j < ids.len() ==> #[trigger] ids@[j] < cameras.len(),
    ensures
        match pictures_fault(cameras@, ids@, ids.len() as int) {
            Some(error) => result == Err::<Vec<Vec<u32>>, LoadError>(error),
            None => result matches Ok(list) && list.len() == ids.len() && forall|i: int|
                0 <= i < ids.len() ==> pixels::interleaves(
                    (#[trigger] list@[i])@,
                    cameras@[ids@[i] as int].planes->0@,
                    texels as int,
                ),
        },
{
    let mut list: Vec<Vec<u32>> = Vec::new();
    let mut k: usize = 0;
    while k < ids.len()
        invariant
            k <= ids.len(),
            pictures_fit(cameras@, texels as int),
            forall|j: int| 0 <= j < ids.len() ==> #[trigger] ids@[j] < cameras.len(),
            pictures_fault(cameras@, ids@, k as int) is None,
            list.len() == k,
            forall|i: int|
                0 <= i < k ==> pixels::interleaves(
                    (#[trigger] list@[i])@,
                    cameras@[ids@[i] as int].planes->0@,
                    texels as int,
                ),
        decreases ids.len() - k,
    {
        let id: usize = ids[k];
        assert(ids@[k as int] < cameras.len());
        let camera = &cameras[id];
        match &camera.planes {
            None => {
                assert(pictures_fault(cameras@, ids@, k + 1) == Some(LoadError::NoColor));
                proof {
                    lemma_first_fault(cameras@, ids@, k + 1, ids.len() as int);
                }
                return Err(LoadError::NoColor);
            },
            Some(planes) => {
                if !all_radiant(planes.as_slice()) {
                    assert(pictures_fault(cameras@, ids@, k + 1) == Some(LoadError::Color));
                    proof {
                        lemma_first_fault(cameras@, ids@, k + 1, ids.len() as int);
                    }
                    return Err(LoadError::Color);
                }
                assert(cameras@[id as int].planes->0.len() == texels * 3);
                list.push(from_planes(planes.as_slice(), texels));
            },
        }
        k = k + 1;
    }
    Ok(list)
}

proof fn lemma_first_fault(cameras: Seq<Camera>, ids: Seq<usize>, k: int, n: int)
    requires
        0 <= k <= n,
        pictures_fault(cameras, ids, k) is Some,
    ensures
        pictures_fault(cameras, ids, n) == pictures_fault(cameras, ids, k),
    decreases n - k,
{
    if k < n {
        assert(pictures_fault(cameras, ids, k + 1) == pictures_fault(cameras, ids, k));
        lemma_first_fault(cameras, ids, k + 1, n);
    }
}

/// Loads a scene.
fn load_scene(cameras: &Vec<Camera>, scene: usize, views: usize, texels: usize) -> (result: Result<
    Example,
    LoadError,
>)
    requires
        0 < views,
        views + 2 <= usize::MAX,
        views * cameras.len() <= usize::MAX,
        pictures_fit(cameras@, texels as int),
    ensures
        match scene_fault(cameras@, scene as int, views as int) {
            Some(error) => result == Err::<Example, LoadError>(error),
            None => result matches Ok(example) && example_of(
                example,
                cameras@,
                scene as int,
                views as int,
                texels as int,
            ),
        },
{
    let ids = find_members(cameras, scene);
    let count: usize = ids.len();
    if count < views + 2 {
        return Err(LoadError::Cameras);
    }
    let pictures = match take_pictures(cameras, &ids, texels) {
        Ok(list) => list,
        Err(error) => {
            return Err(error);
        },
    };
    let mut same_origin: Vec<bool> = Vec::new();
    assert(ids@[count - 1] < cameras.len());
    let last: (u32, u32, u32) = cameras[ids[count - 1]].origin;
    let mut i: usize = 0;
    while i < count
        invariant
            i <= count == ids.len(),
            count > 0,
            forall|j: int| 0 <= j < ids.len() ==> #[trigger] ids@[j] < cameras.len(),
            last == cameras@[ids@.last() as int].origin,
            same_origin@ == with_last(cameras@, ids@).take(i as int),
        decreases count - i,
    {
        assert(ids@[i as int] < cameras.len());
        let place: (u32, u32, u32) = cameras[ids[i]].origin;
        let same = is_equal32(place.0, last.0) && is_equal32(place.1, last.1) && is_equal32(
            place.2,
            last.2,
        );
        same_origin.push(same);
        assert(same_origin@ =~= with_last(cameras@, ids@).take(i + 1));
        i = i + 1;
    }
    assert(same_origin@ =~= with_last(cameras@, ids@));
    assert(views * count <= views * cameras.len()) by (nonlinear_arith)
        requires
            count <= cameras.len(),
            0 < views,
    ;
    match split_views(views, &same_origin) {
        Ok(split) => Ok(Example { cameras: ids, pictures, split }),
        Err(error) => Err(error),
    }
}

/// What is wrong with the first `k` scenes: what is wrong with the first bad one.
pub open spec fn scenes_fault(cameras: Seq<Camera>, views: int, k: int) -> Option<LoadError>
    decreases k,
{
    if k <= 0 {
        None
    } else {
        match scenes_fault(cameras, views, k - 1) {
            Some(error) => Some(error),
            None => scene_fault(cameras, k - 1, views),
        }
    }
}

proof fn lemma_first_scene_fault(cameras: Seq<Camera>, views: int, k: int, n: int)
    requires
        0 <= k <= n,
        scenes_fault(cameras, views, k) is Some,
    ensures
        scenes_fault(cameras, views, n) == scenes_fault(cameras, views, k),
    decreases n - k,
{
    if k < n {
        assert(scenes_fault(cameras, views, k + 1) == scenes_fault(cameras, views, k));
        lemma_first_scene_fault(cameras, views, k + 1, n);
    }
}

/// Finds whether a capture has the extent that a field is made for: by its
/// manifest, and by the layout of its records at high resolution.
pub fn extents_match(manifest: (u32, u32), layout: &Layout, extent: (u32, u32)) -> (result: bool)
    ensures
        result == (manifest == extent && layout.lr_width * layout.scale == extent.0
            && layout.lr_height * layout.scale == extent.1),
{
    assert(layout.lr_width * layout.scale <= u32::MAX * u32::MAX) by (nonlinear_arith)
        requires
            layout.lr_width <= u32::MAX,
            layout.scale <= u32::MAX,
    ;
    assert(layout.lr_height * layout.scale <= u32::MAX * u32::MAX) by (nonlinear_arith)
        requires
            layout.lr_height <= u32::MAX,
            layout.scale <= u32::MAX,
    ;
    let width: u64 = layout.lr_width as u64 * layout.scale as u64;
    let height: u64 = layout.lr_height as u64 * layout.scale as u64;
    manifest.0 == extent.0 && manifest.1 == extent.1 && width == extent.0 as u64 && height
        == extent.1 as u64
}

/// Loads the scenes of a capture. Nothing of a record but its colour is read.
pub fn load(
    extent_matches: bool,
    scenes: usize,
    cameras: &Vec<Camera>,
    views: usize,
    texels: usize,
) -> (result: Result<Vec<Example>, LoadError>)
    requires
        0 < views,
        views + 2 <= usize::MAX,
        views * cameras.len() <= usize::MAX,
        pictures_fit(cameras@, texels as int),
    ensures
        if !extent_matches {
            result == Err::<Vec<Example>, LoadError>(LoadError::Extent)
        } else {
            match scenes_fault(cameras@, views as int, scenes as int) {
                Some(error) => result == Err::<Vec<Example>, LoadError>(error),
                None => result matches Ok(list) && list.len() == scenes && forall|s: int|
                    0 <= s < scenes ==> example_of(
                        #[trigger] list@[s],
                        cameras@,
                        s,
                        views as int,
                        texels as int,
                    ),
            }
        },
{
    if !extent_matches {
        return Err(LoadError::Extent);
    }
    let mut list: Vec<Example> = Vec::new();
    let mut s: usize = 0;
    while s < scenes
        invariant
            s <= scenes,
            extent_matches,
            0 < views,
            views + 2 <= usize::MAX,
            views * cameras.len() <= usize::MAX,
            pictures_fit(cameras@, texels as int),
            scenes_fault(cameras@, views as int, s as int) is None,
            list.len() == s,
            forall|t: int|
                0 <= t < s ==> example_of(
                    #[trigger] list@[t],
                    cameras@,
                    t,
                    views as int,
                    texels as int,
                ),
        decreases scenes - s,
    {
        match load_scene(cameras, s, views, texels) {
            Ok(example) => {
                list.push(example);
            },
            Err(error) => {
                assert(scenes_fault(cameras@, views as int, s + 1) == Some(error));
                proof {
                    lemma_first_scene_fault(cameras@, views as int, s + 1, scenes as int);
                }
                return Err(error);
            },
        }
        s = s + 1;
    }
    Ok(list)
}

/// What is built to be trained or run.
#[derive(Clone, Copy, Debug, PartialEq, Eq, Structural)]
pub enum Graph {
    /// A checkpoint is recovered: nothing is trained.
    Recovered,
    /// Rays between views are trained too, with or without surfaces.
    Consistent { surfaces: bool },
    /// Surfaces are trained too.
    Surfaces,
    Plain,
}

/// Which graph a run builds.
pub fn choose_graph(args: &Args) -> (result: Graph)
    ensures
        result == if args.eval_checkpoint is Some {
            Graph::Recovered
        } else if args.consistency_rays != 0 {
            Graph::Consistent { surfaces: args.surface_weight is Some }
        } else if args.surface_weight is Some {
            Graph::Surfaces
        } else {
            Graph::Plain
        },
{
    if args.eval_checkpoint.is_some() {
        Graph::Recovered
    } else if args.consistency_rays != 0 {
        Graph::Consistent { surfaces: args.surface_weight.is_some() }
    } else if args.surface_weight.is_some() {
        Graph::Surfaces
    } else {
        Graph::Plain
    }
}

/// The file that holds this of example `i`.
pub fn example_file(i: u64, what: &str) -> (result: String)
    ensures
        result@ == text::decimal(i as nat) + "-"@ + what@,
{
    join3(decimal_text(i).as_str(), "-", what)
}

/// Whether an update is reported.
pub fn reports_update(step: usize) -> (result: bool)
    ensures
        result == (step as int % 16 == 0),
{
    step % 16 == 0
}

/// A weight is a finite number from zero on; a negative zero is one.
pub proof fn weights_are_finite_and_not_negative(w: u32, result: bool)
    requires
        call_ensures(is_weight, (w,), result),
    ensures
        result <==> w < 0x7f80_0000 || w == 0x8000_0000,
{
}

/// A run starts exactly if all its weights are weights, its share is one, a
/// checkpoint is recovered into another directory, its settings and rays are
/// accepted, rays between views come with what they need, and there is something
/// to do at a positive rate. What it is to do is what was asked for.
pub proof fn runs_start_for_a_reason(args: Args, known: Known, result: Result<Plan, StartError>)
    requires
        known.bins > 0,
        call_ensures(check_start, (&args, known), result),
    ensures
        result is Ok <==> {
            &&& args.surface_weight matches Some(w) ==> w < 0x7f80_0000 || w == 0x8000_0000
            &&& args.emitter_fraction <= 0x3f80_0000 || args.emitter_fraction == 0x8000_0000
            &&& args.eval_checkpoint is Some ==> !known.same_directory
            &&& known.settings_valid && known.rays_valid && known.training_rays_valid
            &&& args.rays + args.incident_rays + args.consistency_rays <= usize::MAX
            &&& args.consistency_weight < 0x7f80_0000 || args.consistency_weight == 0x8000_0000
            &&& args.consistency_rays != 0 ==> known.visible_rgb && args.samples as int
                % known.bins as int == 0 && args.eval_checkpoint is None
            &&& args.incident_weight < 0x7f80_0000 || args.incident_weight == 0x8000_0000
            &&& args.data@.len() > 0
            &&& args.steps > 0 || args.eval_checkpoint is Some
            &&& 0 < args.rate && args.rate < 0x7f80_0000
        },
        result matches Ok(plan) ==> {
            &&& args.eval_checkpoint is Some ==> plan.steps == 0
            &&& args.eval_checkpoint is None ==> plan.steps == args.steps
            &&& plan.training_rays == args.rays + args.incident_rays + args.consistency_rays
            &&& args.incident_rays > 0 ==> plan.incident_weight == args.incident_weight
            &&& args.incident_rays == 0 ==> plan.incident_weight == 0
        },
{
}

/// What was read is trained on exactly if there is some of it, every scene has what
/// the run asks for, visibility has a weight, and no scene that is evaluated was
/// trained on, whichever of them it is.
pub proof fn no_seen_scene_is_evaluated(
    args: Args,
    train: Vec<SceneFacts>,
    held: Vec<u64>,
    result: Result<(), StartError>,
)
    requires
        call_ensures(check_corpus, (&args, &train, &held), result),
    ensures
        result is Ok <==> {
            &&& train@.len() > 0
            &&& args.incident_rays > 0 ==> forall|i: int|
                0 <= i < train@.len() ==> (#[trigger] train@[i]).incident
            &&& args.surface_weight is Some || bits::less32(0, args.emitter_fraction) ==> forall|
                i: int,
            |
                0 <= i < train@.len() ==> (#[trigger] train@[i]).surfaces
            &&& args.visibility_weight < 0x7f80_0000 || args.visibility_weight == 0x8000_0000
            &&& forall|i: int, j: int|
                0 <= i < train@.len() && 0 <= j < held@.len() ==> (#[trigger] train@[i]).scene_seed
                    != #[trigger] held@[j]
        },
{
    let t = train@;
    let h = held@;
    if seen(t, h) {
        let (i, j) = choose|i: int, j: int|
            0 <= i < t.len() && 0 <= j < h.len() && (#[trigger] t[i]).scene_seed == #[trigger] h[j];
        assert(t[i].scene_seed == h[j]);
    }
    if exists|i: int| 0 <= i < t.len() && !(#[trigger] t[i]).incident {
        let i = choose|i: int| 0 <= i < t.len() && !(#[trigger] t[i]).incident;
        assert(!t[i].incident);
    }
    if exists|i: int| 0 <= i < t.len() && !(#[trigger] t[i]).surfaces {
        let i = choose|i: int| 0 <= i < t.len() && !(#[trigger] t[i]).surfaces;
        assert(!t[i].surfaces);
    }
}

/// The cameras of a scene are shared out whole: the last is held out, as many views
/// as were asked for are taken from the others, in order from the first on, and
/// every camera that is left is fitted to. No view stands where the one held out
/// does.
pub proof fn splits_use_each_camera_once(
    views: usize,
    same_origin: Vec<bool>,
    result: Result<ViewSplit, LoadError>,
    i: usize,
)
    requires
        0 < views,
        views + 2 <= usize::MAX,
        views * same_origin@.len() <= usize::MAX,
        call_ensures(split_views, (views, &same_origin), result),
        i < same_origin@.len(),
    ensures
        result matches Err(LoadError::Cameras) <==> same_origin@.len() < views + 2,
        result matches Ok(split) ==> {
            &&& split.held == same_origin@.len() - 1
            &&& split.contexts@.len() == views
            &&& split.contexts@[0] == 0
            &&& forall|a: int, b: int|
                0 <= a < b < views ==> #[trigger] split.contexts@[a] < #[trigger] split.contexts@[b]
            &&& split.contexts@.contains(i) ==> !same_origin@[i as int] && i != split.held
            &&& split.train@.contains(i) <==> i != split.held && !split.contexts@.contains(i)
            &&& split.train@.len() > 0
        },
{
    let n = same_origin@.len() as int;
    if result is Ok {
        let split = result->Ok_0;
        let contexts = fit::context_records(views as int, n);
        cameras_are_shared_out(views as int, n);
        if i < n - 1 {
            assert(split.train@.contains(i as int as usize) <==> !contexts.contains(
                i as int as usize,
            ));
        }
        assert forall|v: int| 0 <= v < views implies 0 <= #[trigger] fit::context_record(
            v,
            views as int,
            n,
        ) < n - 1 by {
            let m = n - 1;
            assert(0 <= v * m < views * m) by (nonlinear_arith)
                requires
                    0 <= v < views,
                    0 < m,
            ;
            vstd::arithmetic::div_mod::lemma_multiply_divide_lt(v * m, views as int, m);
            vstd::arithmetic::div_mod::lemma_div_pos_is_pos(v * m, views as int);
        }
        assert forall|a: int, b: int| 0 <= a < b < views implies #[trigger] split.contexts@[a]
            < #[trigger] split.contexts@[b] by {
            lemma_contexts_apart(views as int, n, a, b);
            assert(0 <= fit::context_record(a, views as int, n) < n - 1);
            assert(0 <= fit::context_record(b, views as int, n) < n - 1);
        }
        assert(fit::context_record(0, views as int, n) == 0) by {
            assert(0 * (n - 1) == 0);
            vstd::arithmetic::div_mod::lemma_div_of0(views as int);
        }
        if contexts.contains(i) {
            let v = choose|v: int| 0 <= v < contexts.len() && contexts[v] == i;
            assert(!same_origin@[contexts[v] as int]);
        }
    }
}

/// Pictures are put together from their batches as they are: where every ray of a
/// batch brings what its pixel shows, the picture shows it too.
pub proof fn batches_make_the_picture<T: Copy>(
    picture: Seq<T>,
    batches: Vec<Vec<T>>,
    rays: usize,
    channels: usize,
    n: usize,
    start: usize,
    pixels: Vec<usize>,
    result: Vec<T>,
    p: int,
    c: int,
)
    requires
        rays > 0,
        n + rays <= usize::MAX,
        n * channels <= usize::MAX,
        rays * channels <= usize::MAX,
        batches@.len() == batch_count(n as int, rays as int),
        forall|b: int|
            0 <= b < batches@.len() ==> (#[trigger] batches@[b])@.len() == rays * channels,
        call_ensures(gather_batches::<T>, (&batches, rays, channels, n), result),
        0 <= p < n,
        0 <= c < channels,
        start == p / rays as int * rays,
        call_ensures(batch_pixels, (start, rays, n), pixels),
        batches@[p / rays as int]@[(p % rays as int) * channels + c] == picture[pixels@[p
            % rays as int] * channels + c],
    ensures
        result@.len() == n * channels,
        result@[p * channels + c] == picture[p * channels + c],
        pixels@.len() == rays,
        forall|i: int|
            0 <= i < rays ==> #[trigger] pixels@[i] == if start + i < n {
                start + i
            } else {
                n - 1
            },
{
    batches_cover_the_picture(p, rays as int, n as int);
    vstd::arithmetic::div_mod::lemma_mod_bound(p, rays as int);
    assert(pixels@[p % rays as int] == batch_pixel(start as int, p % rays as int, n as int));
    assert(result@[p * channels + c] == batches@[p / rays as int]@[(p % rays as int) * channels
        + c]);
}

/// With its link to the pictures cut a view shows nothing, or the picture of the
/// next view and the last that of the first, or where it is alone its own picture
/// turned by a third of its texels.
pub proof fn cut_views_show_something_else<T: Copy>(
    views: Vec<Vec<T>>,
    zero: bool,
    blank: T,
    result: Vec<Vec<T>>,
    i: int,
    k: int,
)
    requires
        call_ensures(ablated::<T>, (&views, zero, blank), result),
        0 <= i < views@.len(),
        0 <= k < views@[i]@.len(),
    ensures
        result@.len() == views@.len(),
        zero ==> result@[i]@.len() == views@[i]@.len() && result@[i]@[k] == blank,
        !zero && i + 1 < views@.len() ==> result@[i]@ == views@[i + 1]@,
        !zero && views@.len() > 1 && i + 1 == views@.len() ==> result@[i]@ == views@[0]@,
        !zero && views@.len() == 1 ==> {
            let n = views@[0]@.len() as int;
            let turn = 3 * (n / 3 / 3);
            &&& result@[0]@.len() == n
            &&& k + turn < n ==> result@[0]@[k] == views@[0]@[k + turn]
            &&& k + turn >= n ==> result@[0]@[k] == views@[0]@[k + turn - n]
        },
{
    assert(result@[i]@ == ablated_view(views@, zero, blank, i));
    if !zero && views@.len() > 1 {
        if i + 1 < views@.len() {
            vstd::arithmetic::div_mod::lemma_small_mod((i + 1) as nat, views@.len());
        } else {
            vstd::arithmetic::div_mod::lemma_mod_self_0(views@.len() as int);
        }
    }
}

/// One more ray counts as what it is: as scored or as left out, as told right
/// exactly if it ends where it should, and as a hit or a source only where it is
/// scored.
pub proof fn each_ray_counts_once(
    rays: Vec<RayFacts>,
    fewer: Vec<RayFacts>,
    now: RayCounts,
    then: RayCounts,
)
    requires
        rays@.len() > 0,
        fewer@ == rays@.drop_last(),
        call_ensures(geometry, (&rays,), now),
        call_ensures(geometry, (&fewer,), then),
    ensures
        ({
            let r = rays@.last();
            &&& now.valid - then.valid == if r.classed {
                1int
            } else {
                0
            }
            &&& now.excluded - then.excluded == if r.classed {
                0int
            } else {
                1
            }
            &&& now.correct - then.correct == if r.classed && (r.opaque <==> r.hit) {
                1int
            } else {
                0
            }
            &&& now.hits - then.hits == if r.classed && r.hit {
                1int
            } else {
                0
            }
            &&& now.sources - then.sources == if r.classed && r.hit && r.source {
                1int
            } else {
                0
            }
            &&& fewer@.len() == 0 ==> then.valid == 0 && then.excluded == 0 && then.correct == 0
                && then.hits == 0 && then.sources == 0
        }),
{
    lemma_rays_prefix(rays@, fewer@, fewer@.len() as int);
}

proof fn lemma_rays_prefix(a: Seq<RayFacts>, b: Seq<RayFacts>, k: int)
    requires
        0 <= k <= b.len() <= a.len(),
        forall|i: int| 0 <= i < k ==> a[i] == b[i],
    ensures
        rays_counted(a, k) == rays_counted(b, k),
    decreases k,
{
    if k > 0 {
        lemma_rays_prefix(a, b, k - 1);
    }
}

proof fn lemma_sources(luminous: Seq<bool>, k: int)
    requires
        0 <= k <= luminous.len(),
        luminous.len() <= usize::MAX,
    ensures
        ({
            let list = source_pixels(luminous, k);
            &&& forall|j: int|
                0 <= j < list.len() ==> #[trigger] list[j] < k && luminous[list[j] as int]
            &&& forall|a: int, b: int|
                0 <= a < b < list.len() ==> #[trigger] list[a] < #[trigger] list[b]
            &&& forall|i: int|
                0 <= i < k && #[trigger] luminous[i] ==> list.contains(i as usize)
        }),
    decreases k,
{
    if k > 0 {
        lemma_sources(luminous, k - 1);
        let before = source_pixels(luminous, k - 1);
        let list = source_pixels(luminous, k);
        assert forall|i: int| 0 <= i < k && #[trigger] luminous[i] implies list.contains(
            i as usize,
        ) by {
            if i < k - 1 {
                assert(before.contains(i as usize));
                let j = choose|j: int| 0 <= j < before.len() && before[j] == i as usize;
                assert(list[j] == i as usize);
            } else {
                assert(list[list.len() - 1] == i as usize);
            }
        }
    }
}

/// The rays of a step go to lights first: as many as their share are drawn among
/// the pixels that show one, where there is one, and the others among all pixels.
/// The pixels that show a light are all of them, each once.
pub proof fn lights_have_their_share_of_rays(
    luminous: Vec<bool>,
    sources: Vec<usize>,
    quota: usize,
    draws: Vec<usize>,
    pixels: Vec<usize>,
    i: int,
    p: usize,
)
    requires
        luminous@.len() > 0,
        call_ensures(find_sources, (&luminous,), sources),
        call_ensures(
            draw_pixels,
            (&sources, quota, luminous@.len() as usize, &draws),
            pixels,
        ),
        luminous@.len() <= usize::MAX,
        0 <= i < draws@.len(),
        p < luminous@.len(),
    ensures
        sources@.contains(p) <==> luminous@[p as int],
        forall|a: int, b: int|
            0 <= a < b < sources@.len() ==> #[trigger] sources@[a] < #[trigger] sources@[b],
        pixels@.len() == draws@.len(),
        pixels@[i] < luminous@.len(),
        i < quota && sources@.len() > 0 ==> luminous@[pixels@[i] as int],
        i < quota && draws@[i] < sources@.len() ==> pixels@[i] == sources@[draws@[i] as int],
        (i >= quota || sources@.len() == 0) && draws@[i] < luminous@.len() ==> pixels@[i]
            == draws@[i],
{
    let n = luminous@.len() as int;
    lemma_sources(luminous@, n);
    if sources@.contains(p) {
        let j = choose|j: int| 0 <= j < sources@.len() && sources@[j] == p;
        assert(luminous@[sources@[j] as int]);
    }
    let number = draws@[i] as int;
    assert(pixels@[i] == drawn_pixel(sources@, quota as int, n, i, number));
    if sources@.len() > 0 {
        let m = sources@.len() as int;
        assert(0 <= number % m < m);
        assert(luminous@[sources@[number % m] as int]);
        if number < m {
            vstd::arithmetic::div_mod::lemma_small_mod(number as nat, m as nat);
        }
    }
    if number < n {
        vstd::arithmetic::div_mod::lemma_small_mod(number as nat, n as nat);
    }
}

/// No two steps draw from the same seeds, and the seeds of one step differ between
/// what is sampled and what is held between views.
pub proof fn steps_have_seeds_of_their_own(
    seed: u64,
    i: usize,
    j: usize,
    a: StepSeeds,
    b: StepSeeds,
)
    requires
        i != j,
        seed + i <= u64::MAX,
        seed + j <= u64::MAX,
        call_ensures(step_seeds, (seed, i), a),
        call_ensures(step_seeds, (seed, j), b),
    ensures
        a.incident != b.incident,
        a.consistency != b.consistency,
        a.samples != b.samples,
        a.emission != b.emission,
        a.consistency != a.samples,
{
    crate::generate::lemma_kept_apart(i as u64, j as u64);
    let (x, y) = (
        vstd::wrapping::u64_specs::wrapping_mul(i as u64, 0xD1B5_4A32_D192_ED03),
        vstd::wrapping::u64_specs::wrapping_mul(j as u64, 0xD1B5_4A32_D192_ED03),
    );
    let (p, q) = (
        vstd::wrapping::u64_specs::wrapping_mul(i as u64, 0x9E37_79B9_7F4A_7C15),
        vstd::wrapping::u64_specs::wrapping_mul(j as u64, 0x9E37_79B9_7F4A_7C15),
    );
    assert(x != y ==> seed ^ x != seed ^ y) by (bit_vector);
    assert(p != q ==> seed ^ 0xBE54_66CF_34E9_0C6C ^ p != seed ^ 0xBE54_66CF_34E9_0C6C ^ q)
        by (bit_vector);
    assert(p != q ==> seed ^ 0xA24B_AED4_963E_E407 ^ p != seed ^ 0xA24B_AED4_963E_E407 ^ q)
        by (bit_vector);
    assert(seed ^ 0xBE54_66CF_34E9_0C6C ^ p != seed ^ 0xA24B_AED4_963E_E407 ^ p) by (bit_vector);
}

proof fn lemma_members(cameras: Seq<Camera>, scene: int, k: int)
    requires
        0 <= k <= cameras.len() <= usize::MAX,
    ensures
        ({
            let list = members(cameras, scene, k);
            &&& forall|j: int|
                0 <= j < list.len() ==> #[trigger] list[j] < k && cameras[list[j] as int].scene
                    == scene
            &&& forall|a: int, b: int|
                0 <= a < b < list.len() ==> #[trigger] list[a] < #[trigger] list[b]
            &&& forall|i: int|
                0 <= i < k && (#[trigger] cameras[i]).scene == scene ==> list.contains(i as usize)
        }),
    decreases k,
{
    if k > 0 {
        lemma_members(cameras, scene, k - 1);
        let before = members(cameras, scene, k - 1);
        let list = members(cameras, scene, k);
        assert forall|i: int| 0 <= i < k && (#[trigger] cameras[i]).scene
            == scene implies list.contains(i as usize) by {
            if i < k - 1 {
                assert(before.contains(i as usize));
                let j = choose|j: int| 0 <= j < before.len() && before[j] == i as usize;
                assert(list[j] == i as usize);
            } else {
                assert(list[list.len() - 1] == i as usize);
            }
        }
    }
}

/// A scene is loaded with exactly its own cameras, in their order, each with its own
/// picture texel by texel, and the last of them is the one held out.
pub proof fn scenes_are_loaded_with_their_cameras(
    extent_matches: bool,
    scenes: usize,
    cameras: Vec<Camera>,
    views: usize,
    texels: usize,
    result: Result<Vec<Example>, LoadError>,
    s: int,
    i: usize,
    j: int,
    t: int,
    c: int,
)
    requires
        0 < views,
        views + 2 <= usize::MAX,
        views * cameras@.len() <= usize::MAX,
        cameras@.len() <= usize::MAX,
        pictures_fit(cameras@, texels as int),
        call_ensures(load, (extent_matches, scenes, &cameras, views, texels), result),
        0 <= s < scenes,
        i < cameras@.len(),
        result is Ok,
        0 <= j < result->Ok_0@[s].cameras@.len(),
        0 <= t < texels,
        0 <= c < 3,
    ensures
        ({
            let example = result->Ok_0@[s];
            &&& extent_matches
            &&& result->Ok_0@.len() == scenes
            &&& example.cameras@.contains(i) <==> cameras@[i as int].scene == s
            &&& forall|a: int, b: int|
                0 <= a < b < example.cameras@.len() ==> #[trigger] example.cameras@[a]
                    < #[trigger] example.cameras@[b]
            &&& example.pictures@.len() == example.cameras@.len()
            &&& example.pictures@[j]@[3 * t + c] == cameras@[example.cameras@[j] as int].planes->0@[c
                * texels + t]
            &&& example.split.held == example.cameras@.len() - 1
            &&& example.split.contexts@.len() == views
        }),
{
    let example = result->Ok_0@[s];
    let n = cameras@.len() as int;
    assert(example_of(example, cameras@, s, views as int, texels as int));
    lemma_members(cameras@, s, n);
    let ids = members(cameras@, s, n);
    if ids.contains(i) {
        let k = choose|k: int| 0 <= k < ids.len() && ids[k] == i;
        assert(cameras@[ids[k] as int].scene == s);
    }
    assert(pixels::interleaves(
        example.pictures@[j]@,
        cameras@[ids[j] as int].planes->0@,
        texels as int,
    ));
    assert(example.pictures@[j]@[t * 3 + c] == cameras@[ids[j] as int].planes->0@[pixels::cell(
        texels as int,
        t,
        c,
    )]);
}

/// Consistency is scored in as few rounds as have the rays for it, each with a seed of
/// its own, and only where the samples fill their bins evenly.
pub proof fn rounds_have_seeds_of_their_own(
    rays: usize,
    samples: usize,
    bins: usize,
    list: Vec<u64>,
    a: int,
    b: int,
)
    requires
        rays > 0,
        bins > 0,
        call_ensures(consistency_seeds, (rays, samples, bins), Some(list)),
        0 <= a < b < list@.len(),
        list@.len() <= u64::MAX,
    ensures
        list@[a] != list@[b],
        samples as int % bins as int == 0,
        list@.len() * rays >= CONSISTENCY_SCORED,
        a * rays < CONSISTENCY_SCORED,
{
    let (x, y) = (a as u64, b as u64);
    assert(list@[a] == 0x32A7_4DA9u64 ^ x);
    assert(list@[b] == 0x32A7_4DA9u64 ^ y);
    assert((0x32A7_4DA9u64 ^ x) == (0x32A7_4DA9u64 ^ y) ==> x == y) by (bit_vector);
    assert(a * rays <= (list@.len() - 1) * rays) by (nonlinear_arith)
        requires
            0 <= a <= list@.len() - 1,
            rays > 0,
    ;
}

proof fn lemma_no_scene_fails(cameras: Seq<Camera>, views: int, k: int, s: int)
    requires
        0 <= s < k,
        scenes_fault(cameras, views, k) is None,
    ensures
        scene_fault(cameras, s, views) is None,
    decreases k,
{
    if s < k - 1 {
        lemma_no_scene_fails(cameras, views, k - 1, s);
    }
}

/// No camera that a scene is seen from stands where the one held out does, and a scene
/// has two cameras more than it is seen from.
pub proof fn held_cameras_stand_apart(
    scenes: usize,
    cameras: Vec<Camera>,
    views: usize,
    texels: usize,
    list: Vec<Example>,
    s: int,
    v: int,
)
    requires
        0 < views,
        views + 2 <= usize::MAX,
        views * cameras@.len() <= usize::MAX,
        pictures_fit(cameras@, texels as int),
        call_ensures(load, (true, scenes, &cameras, views, texels), Ok(list)),
        0 <= s < scenes,
        0 <= v < views,
        list@[s].split.contexts@[v] < list@[s].cameras@.len(),
    ensures
        ({
            let example = list@[s];
            let a = cameras@[example.cameras@[example.split.contexts@[v] as int] as int].origin;
            let b = cameras@[example.cameras@.last() as int].origin;
            &&& example.cameras@.len() >= views + 2
            &&& !(bits::equal32(a.0, b.0) && bits::equal32(a.1, b.1) && bits::equal32(a.2, b.2))
        }),
{
    lemma_no_scene_fails(cameras@, views as int, scenes as int, s);
    let example = list@[s];
    assert(example_of(example, cameras@, s, views as int, texels as int));
    let ids = members(cameras@, s, cameras@.len() as int);
    let contexts = fit::context_records(views as int, ids.len() as int);
    let same = with_last(cameras@, ids);
    assert(!duplicated(contexts, same));
    assert(!same[contexts[v] as int]);
}

} // verus!
