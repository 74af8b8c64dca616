//! How a training run is set up from a dataset, and what each step does.
use vstd::prelude::*;

use crate::dataset::{InputSource, Layout, Plane, PlaneSet};
use crate::model::{Prediction, ReconstructionBase};

verus! {

/// How a dataset is divided between fitting and scoring: the tail is held out.
#[derive(Clone, Copy, Debug, PartialEq, Eq, Structural)]
pub struct Split {
    pub train: usize,
    pub total: usize,
}

/// How many sequences are held out when `proposed` of `sequences` are asked
/// for: at least one on each side.
pub open spec fn held_sequences(sequences: int, proposed: int) -> int {
    if proposed < 1 {
        1
    } else if proposed > sequences - 1 {
        sequences - 1
    } else {
        proposed
    }
}

impl Split {
    /// A split of whole sequences with something on each side.
    pub open spec fn wf(self, sequence_length: int) -> bool {
        &&& sequence_length > 0
        &&& 0 < self.train < self.total
        &&& self.train as int % sequence_length == 0
        &&& self.total as int % sequence_length == 0
    }

    /// Holds out `proposed` sequences, or the nearest number that leaves at
    /// least one sequence on each side.
    ///
    /// `proposed` is the wanted share of the sequences, rounded.
    pub fn new(total: usize, sequence_length: usize, proposed: usize) -> (result: Self)
        requires
            sequence_length > 0,
            total as int % sequence_length as int == 0,
            total as int / sequence_length as int >= 2,
        ensures
            result.total == total,
            result.train == total - held_sequences(
                total as int / sequence_length as int,
                proposed as int,
            ) * sequence_length,
            result.wf(sequence_length as int),
    {
        let sequences: usize = total / sequence_length;
        let held_count: usize = if proposed < 1 {
            1
        } else if proposed > sequences - 1 {
            sequences - 1
        } else {
            proposed
        };
        proof {
            let s = sequence_length as int;
            let n = sequences as int;
            let h = held_count as int;
            vstd::arithmetic::div_mod::lemma_fundamental_div_mod(total as int, s);
            assert(total == n * s) by {
                vstd::arithmetic::mul::lemma_mul_is_commutative(s, n);
            }
            assert(0 < h * s < n * s && (n - h) * s == n * s - h * s) by (nonlinear_arith)
                requires
                    0 < s,
                    0 < h < n,
            ;
            assert(((n - h) * s) % s == 0) by {
                vstd::arithmetic::mul::lemma_mul_is_commutative(n - h, s);
                vstd::arithmetic::div_mod::lemma_mod_multiples_basic(n - h, s);
            }
        }
        let held: usize = held_count * sequence_length;
        Split { train: total - held, total }
    }

    /// The records to fit to.
    pub fn training(&self) -> (result: std::ops::Range<usize>)
        ensures
            result.start == 0,
            result.end == self.train,
    {
        0..self.train
    }

    /// The records to score on.
    pub fn validation(&self) -> (result: std::ops::Range<usize>)
        ensures
            result.start == self.train,
            result.end == self.total,
    {
        self.train..self.total
    }
}

/// No sequence has frames on both sides of a split, and no record is on both.
pub proof fn no_sequence_is_cut(split: Split, sequence_length: int, a: int, b: int)
    requires
        split.wf(sequence_length),
        0 <= a < split.train,
        split.train <= b < split.total,
    ensures
        a != b,
        a / sequence_length < b / sequence_length,
{
    let s = sequence_length;
    let t = split.train as int;
    vstd::arithmetic::div_mod::lemma_fundamental_div_mod(t, s);
    assert(t == s * (t / s));
    vstd::arithmetic::mul::lemma_mul_is_commutative(s, t / s);
    vstd::arithmetic::div_mod::lemma_multiply_divide_lt(a, s, t / s);
    assert(b / s >= t / s) by {
        vstd::arithmetic::div_mod::lemma_div_is_ordered(t, b, s);
    }
}

/// Why a dataset cannot be trained on.
#[derive(Clone, Copy, Debug, PartialEq, Eq, Structural)]
pub enum StartError {
    /// It holds sequences, and no history is asked for.
    SequencesNeedHistory,
    /// It holds single frames, and history is asked for.
    HistoryNeedsSequences,
    /// Its input went through a denoiser, and that is not allowed for.
    FilteredInput,
    /// It holds nothing.
    Empty,
    /// It holds too few sequences to put one on each side of a split.
    TooFewSequences,
}

/// Whether a dataset's input may be trained on.
pub open spec fn source_fits(source: InputSource, allow_filtered: bool) -> bool {
    source != InputSource::Svgf || allow_filtered
}

/// Refuses the output of another denoiser as input, unless it is asked for.
pub fn validate_input_source(layout: &Layout, allow_filtered: bool) -> (result: Result<
    (),
    StartError,
>)
    ensures
        result == if source_fits(layout.lr_source, allow_filtered) {
            Ok::<(), StartError>(())
        } else {
            Err(StartError::FilteredInput)
        },
        result is Err <==> layout.lr_source == InputSource::Svgf && !allow_filtered,
{
    if layout.lr_source != InputSource::Svgf || allow_filtered {
        Ok(())
    } else {
        Err(StartError::FilteredInput)
    }
}

/// Only the output of another denoiser is ever refused as input, and only where
/// it is not asked for.
pub proof fn only_filtered_input_is_refused(
    layout: Layout,
    allow_filtered: bool,
    result: Result<(), StartError>,
)
    requires
        call_ensures(validate_input_source, (&layout, allow_filtered), result),
    ensures
        result is Err <==> layout.lr_source == InputSource::Svgf && !allow_filtered,
        layout.lr_source == InputSource::PathTrace ==> result is Ok,
        layout.lr_source == InputSource::RawRestir ==> result is Ok,
        allow_filtered ==> result is Ok,
        result matches Err(error) ==> error == StartError::FilteredInput,
{
}

/// The first reason why a dataset cannot be trained on.
pub open spec fn start_refusal(
    len: int,
    sequence_length: int,
    source: InputSource,
    eval_only: bool,
    history_frames: int,
    allow_filtered: bool,
) -> Option<StartError> {
    if sequence_length > 1 && !eval_only && history_frames < 2 {
        Some(StartError::SequencesNeedHistory)
    } else if sequence_length == 1 && history_frames > 1 {
        Some(StartError::HistoryNeedsSequences)
    } else if !source_fits(source, allow_filtered) {
        Some(StartError::FilteredInput)
    } else if len == 0 {
        Some(StartError::Empty)
    } else if len / sequence_length < 2 {
        Some(StartError::TooFewSequences)
    } else {
        None
    }
}

/// Checks that a dataset can be trained on.
pub fn check_start(
    len: usize,
    sequence_length: usize,
    layout: &Layout,
    eval_only: bool,
    history_frames: u32,
    allow_filtered: bool,
) -> (result: Result<(), StartError>)
    requires
        sequence_length > 0,
    ensures
        match start_refusal(
            len as int,
            sequence_length as int,
            layout.lr_source,
            eval_only,
            history_frames as int,
            allow_filtered,
        ) {
            Some(error) => result == Err::<(), StartError>(error),
            None => result is Ok,
        },
{
    if sequence_length > 1 && !eval_only && history_frames < 2 {
        return Err(StartError::SequencesNeedHistory);
    }
    if sequence_length == 1 && history_frames > 1 {
        return Err(StartError::HistoryNeedsSequences);
    }
    match validate_input_source(layout, allow_filtered) {
        Err(error) => {
            return Err(error);
        },
        Ok(_) => {},
    }
    if len == 0 {
        return Err(StartError::Empty);
    }
    if len / sequence_length < 2 {
        return Err(StartError::TooFewSequences);
    }
    Ok(())
}

/// A dataset is trained on exactly if it holds two sequences or more, its input
/// may be used, sequences come with history to fit, and single frames without.
pub proof fn starts_are_refused_for_a_reason(
    len: usize,
    sequence_length: usize,
    layout: Layout,
    eval_only: bool,
    history_frames: u32,
    allow_filtered: bool,
    result: Result<(), StartError>,
)
    requires
        sequence_length > 0,
        call_ensures(
            check_start,
            (len, sequence_length, &layout, eval_only, history_frames, allow_filtered),
            result,
        ),
    ensures
        result is Ok <==> {
            &&& len >= 2 * sequence_length
            &&& layout.lr_source != InputSource::Svgf || allow_filtered
            &&& sequence_length > 1 ==> eval_only || history_frames >= 2
            &&& sequence_length == 1 ==> history_frames <= 1
        },
        result matches Err(StartError::FilteredInput) ==> layout.lr_source == InputSource::Svgf
            && !allow_filtered,
        result matches Err(StartError::Empty) ==> len == 0,
        result matches Err(StartError::TooFewSequences) ==> 0 < len < 2 * sequence_length,
        result matches Err(StartError::SequencesNeedHistory) ==> sequence_length > 1
            && history_frames < 2 && !eval_only,
        result matches Err(StartError::HistoryNeedsSequences) ==> sequence_length == 1
            && history_frames > 1,
{
    let n = len as int;
    let s = sequence_length as int;
    assert(n / s >= 2 <==> n >= 2 * s) by {
        vstd::arithmetic::div_mod::lemma_fundamental_div_mod(n, s);
        vstd::arithmetic::div_mod::lemma_mod_bound(n, s);
        let q = n / s;
        let r = n % s;
        assert(q >= 2 <==> s * q + r >= 2 * s) by (nonlinear_arith)
            requires
                s > 0,
                0 <= r < s,
        ;
    }
}

/// The crop size: the wanted one, or what the records have room for.
pub fn clamp_tile(tile: u32, layout: &Layout) -> (result: u32)
    ensures
        result <= tile,
        result <= layout.lr_width,
        result <= layout.lr_height,
        result == tile || result == layout.lr_width || result == layout.lr_height,
{
    let narrow: u32 = if tile < layout.lr_width {
        tile
    } else {
        layout.lr_width
    };
    if narrow < layout.lr_height {
        narrow
    } else {
        layout.lr_height
    }
}

/// The choices that fix a network's graph.
#[derive(Clone, Copy, Debug, PartialEq, Eq, Structural)]
pub struct GraphChoice {
    pub prediction: Prediction,
    pub kernel_radius: u32,
    pub demodulate: bool,
    /// The bits of an `f32`.
    pub demodulation_offset: u32,
    pub reconstruction_base: ReconstructionBase,
}

/// A stored network keeps all of its choices. Otherwise the wanted ones hold,
/// except that colour alone leaves nothing to guide a base with.
pub fn choose_graph(stored: Option<GraphChoice>, wanted: GraphChoice, color_only: bool) -> (result:
    GraphChoice)
    ensures
        result == match stored {
            Some(choice) => choice,
            None => if color_only {
                GraphChoice { reconstruction_base: ReconstructionBase::Bilinear, ..wanted }
            } else {
                wanted
            },
        },
{
    match stored {
        Some(choice) => choice,
        None => if color_only {
            GraphChoice { reconstruction_base: ReconstructionBase::Bilinear, ..wanted }
        } else {
            wanted
        },
    }
}

/// Whether the planes that guide a reconstruction are all there.
pub open spec fn guided_by(planes: Set<Plane>) -> bool {
    planes.contains(Plane::Depth) && planes.contains(Plane::Normal) && planes.contains(
        Plane::DiffuseAlbedo,
    )
}

/// The first guiding plane that is missing.
pub open spec fn missing_guide(planes: Set<Plane>) -> Option<Plane> {
    if !planes.contains(Plane::Depth) {
        Some(Plane::Depth)
    } else if !planes.contains(Plane::Normal) {
        Some(Plane::Normal)
    } else if !planes.contains(Plane::DiffuseAlbedo) {
        Some(Plane::DiffuseAlbedo)
    } else {
        None
    }
}

/// Whether the planes that guide a reconstruction are all there.
pub fn has_guides(planes: &PlaneSet) -> (result: bool)
    ensures
        result == guided_by(planes@),
{
    planes.contains(Plane::Depth) && planes.contains(Plane::Normal) && planes.contains(
        Plane::DiffuseAlbedo,
    )
}

/// The plane that a base lacks, where it takes the high-resolution guides.
pub fn check_base(base: ReconstructionBase, hr_planes: &PlaneSet) -> (result: Option<Plane>)
    ensures
        result == if base == ReconstructionBase::HighResolutionGuided {
            missing_guide(hr_planes@)
        } else {
            None
        },
{
    if base != ReconstructionBase::HighResolutionGuided {
        return None;
    }
    if !hr_planes.contains(Plane::Depth) {
        Some(Plane::Depth)
    } else if !hr_planes.contains(Plane::Normal) {
        Some(Plane::Normal)
    } else if !hr_planes.contains(Plane::DiffuseAlbedo) {
        Some(Plane::DiffuseAlbedo)
    } else {
        None
    }
}

/// The planes that a network sees.
pub fn conditioning_planes(lr_planes: PlaneSet, color_only: bool, history_frames: u32) -> (result:
    PlaneSet)
    ensures
        result@ == if color_only {
            Set::<Plane>::empty().insert(Plane::Color)
        } else if history_frames > 1 {
            lr_planes@.remove(Plane::Motion)
        } else {
            lr_planes@
        },
{
    if color_only {
        PlaneSet::new().with(Plane::Color)
    } else if history_frames > 1 {
        lr_planes.without(Plane::Motion)
    } else {
        lr_planes
    }
}

/// The channel width of each level, as a multiple of the first: each level
/// doubles the one before.
pub fn level_multipliers(levels: usize) -> (result: Vec<u32>)
    requires
        levels <= 32,
    ensures
        result.len() == levels,
        forall|i: int| 0 <= i < levels ==> #[trigger] result[i] == vstd::arithmetic::power2::pow2(i as nat),
{
    let mut result: Vec<u32> = Vec::new();
    let mut i: usize = 0;
    proof {
        vstd::arithmetic::power2::lemma2_to64();
    }
    let mut next: u64 = 1;
    while i < levels
        invariant
            i <= levels <= 32,
            result.len() == i,
            next == vstd::arithmetic::power2::pow2(i as nat),
            forall|j: int| 0 <= j < i ==> #[trigger] result[j] == vstd::arithmetic::power2::pow2(j as nat),
        decreases levels - i,
    {
        proof {
            vstd::arithmetic::power2::lemma2_to64();
            if i < 32 {
                vstd::arithmetic::power2::lemma_pow2_strictly_increases(i as nat, 32);
            }
            vstd::arithmetic::power2::lemma_pow2_unfold((i + 1) as nat);
        }
        result.push(next as u32);
        next = next * 2;
        i = i + 1;
    }
    result
}

/// How many samples measure the residual at most.
pub const GAIN_PROBE_SAMPLES: usize = 16;

/// How many samples measure the residual of `len` records.
pub open spec fn probe_count(len: int) -> int {
    if len < GAIN_PROBE_SAMPLES {
        len
    } else {
        GAIN_PROBE_SAMPLES as int
    }
}

/// The records that measure the residual, spread evenly over the dataset.
pub fn spatial_probes(len: usize) -> (result: Vec<usize>)
    requires
        len * GAIN_PROBE_SAMPLES <= usize::MAX,
    ensures
        result.len() == probe_count(len as int),
        forall|i: int|
            0 <= i < result.len() ==> #[trigger] result[i] == i * len / probe_count(len as int),
{
    let probe: usize = if len < GAIN_PROBE_SAMPLES {
        len
    } else {
        GAIN_PROBE_SAMPLES
    };
    let mut result: Vec<usize> = Vec::new();
    let mut i: usize = 0;
    while i < probe
        invariant
            i <= probe,
            probe == probe_count(len as int),
            probe <= 16,
            len * GAIN_PROBE_SAMPLES <= usize::MAX,
            result.len() == i,
            forall|j: int|
                0 <= j < i ==> #[trigger] result[j] == j * len / probe_count(len as int),
        decreases probe - i,
    {
        assert(i * len <= 16 * len) by (nonlinear_arith)
            requires
                i <= 16,
        ;
        result.push(i * len / probe);
        i = i + 1;
    }
    result
}

/// How many sequences measure the residual.
pub open spec fn sequence_probe_count(len: int, sequences: int) -> int {
    if probe_count(len) < sequences {
        probe_count(len)
    } else {
        sequences
    }
}

/// The records that measure the residual where history counts: the last frame
/// of sequences spread evenly over those to fit to.
pub fn temporal_probes(len: usize, train: usize, sequence_length: usize) -> (result: Vec<usize>)
    requires
        0 < sequence_length,
        train <= len,
        train as int % sequence_length as int == 0,
        len * GAIN_PROBE_SAMPLES <= usize::MAX,
    ensures
        result.len() == sequence_probe_count(len as int, train as int / sequence_length as int),
        forall|i: int|
            0 <= i < result.len() ==> {
                let sequences = train as int / sequence_length as int;
                #[trigger] result[i] == (i * sequences / sequence_probe_count(
                    len as int,
                    sequences,
                )) * sequence_length + sequence_length - 1
            },
        forall|i: int| 0 <= i < result.len() ==> #[trigger] result[i] < train,
{
    let sequences: usize = train / sequence_length;
    let probe: usize = if len < GAIN_PROBE_SAMPLES {
        len
    } else {
        GAIN_PROBE_SAMPLES
    };
    let count: usize = if probe < sequences {
        probe
    } else {
        sequences
    };
    let mut result: Vec<usize> = Vec::new();
    let mut i: usize = 0;
    proof {
        vstd::arithmetic::div_mod::lemma_fundamental_div_mod(train as int, sequence_length as int);
        vstd::arithmetic::mul::lemma_mul_is_commutative(sequence_length as int, sequences as int);
        assert(sequences <= train) by (nonlinear_arith)
            requires
                train == sequences * sequence_length,
                sequence_length >= 1,
        ;
    }
    while i < count
        invariant
            i <= count <= 16,
            count <= sequences,
            count == sequence_probe_count(len as int, sequences as int),
            sequences == train / sequence_length,
            train == sequences * sequence_length,
            sequences <= train <= len,
            0 < sequence_length,
            len * GAIN_PROBE_SAMPLES <= usize::MAX,
            result.len() == i,
            forall|j: int|
                0 <= j < i ==> #[trigger] result[j] == (j * (sequences as int) / (count as int))
                    * sequence_length + sequence_length - 1,
            forall|j: int| 0 <= j < i ==> #[trigger] result[j] < train,
        decreases count - i,
    {
        proof {
            assert(i * sequences <= 16 * len) by (nonlinear_arith)
                requires
                    i <= 16,
                    sequences <= len,
            ;
            let p = i * sequences / (count as int);
            assert(p < sequences) by {
                vstd::arithmetic::mul::lemma_mul_is_commutative(i as int, sequences as int);
                assert(i * sequences < sequences * count) by (nonlinear_arith)
                    requires
                        i < count,
                        sequences > 0,
                ;
                vstd::arithmetic::div_mod::lemma_multiply_divide_lt(i * sequences, count as int, sequences as int);
            }
            assert(p >= 0) by {
                vstd::arithmetic::div_mod::lemma_div_pos_is_pos(i * sequences, count as int);
            }
            assert(p * sequence_length + sequence_length <= sequences * sequence_length && p
                * sequence_length >= 0) by (nonlinear_arith)
                requires
                    0 <= p < sequences,
                    0 < sequence_length,
            ;
        }
        let sequence: usize = i * sequences / count;
        result.push(sequence * sequence_length + (sequence_length - 1));
        i = i + 1;
    }
    result
}

/// What a training step does besides fitting.
#[derive(Clone, Copy, Debug, PartialEq, Eq, Structural)]
pub struct StepPlan {
    /// Bring the detached copy of the network up to date, before fitting.
    pub sync_teacher: bool,
    /// Report the average loss.
    pub log: bool,
    /// Score the held-out records.
    pub evaluate: bool,
    /// Save the network.
    pub checkpoint: bool,
}

/// Whether an occasion that comes every so many steps comes after `done` of
/// them. Zero means never.
pub open spec fn due(done: int, every: int) -> bool {
    every > 0 && done % every == 0
}

/// What step `step` of `steps` does. The last one leaves scoring and saving to
/// the end of the run.
pub fn plan_step(
    step: usize,
    steps: usize,
    log_every: usize,
    eval_every: usize,
    checkpoint_every: usize,
    teacher_every: usize,
) -> (result: StepPlan)
    requires
        step < steps,
        log_every > 0,
    ensures
        result.sync_teacher == (step == 0 || due(step as int, teacher_every as int)),
        result.log == (due(step + 1, log_every as int) || step + 1 == steps),
        result.evaluate == (due(step + 1, eval_every as int) && step + 1 != steps),
        result.checkpoint == (due(step + 1, checkpoint_every as int) && step + 1 != steps),
{
    let done: usize = step + 1;
    let last: bool = done == steps;
    StepPlan {
        sync_teacher: step == 0 || (teacher_every > 0 && step % teacher_every == 0),
        log: done % log_every == 0 || last,
        evaluate: eval_every > 0 && done % eval_every == 0 && !last,
        checkpoint: checkpoint_every > 0 && done % checkpoint_every == 0 && !last,
    }
}

/// A dataset is divided into whole sequences: as many are held out as were
/// proposed, or the nearest number that leaves at least one on each side, and
/// every record is either fitted to or scored on, never both.
pub proof fn splits_hold_out_what_is_proposed(
    total: usize,
    sequence_length: usize,
    proposed: usize,
    sequences: int,
    split: Split,
    training: std::ops::Range<usize>,
    validation: std::ops::Range<usize>,
    record: usize,
)
    requires
        sequence_length > 0,
        total == sequences * sequence_length,
        sequences >= 2,
        call_ensures(Split::new, (total, sequence_length, proposed), split),
        call_ensures(Split::training, (&split,), training),
        call_ensures(Split::validation, (&split,), validation),
    ensures
        exists|held: int|
            #![trigger held * sequence_length]
            {
                &&& validation.end - validation.start == held * sequence_length
                &&& 1 <= held < sequences
                &&& 1 <= proposed < sequences ==> held == proposed
                &&& proposed < 1 ==> held == 1
                &&& proposed >= sequences ==> held == sequences - 1
            },
        record < total <==> (training.start <= record < training.end || validation.start <= record
            < validation.end),
        !(training.start <= record < training.end && validation.start <= record < validation.end),
        training.start <= record < training.end && validation.start <= total ==> record
            < validation.start,
{
    let s = sequence_length as int;
    vstd::arithmetic::div_mod::lemma_div_multiples_vanish(sequences, s);
    vstd::arithmetic::mul::lemma_mul_is_commutative(sequences, s);
    vstd::arithmetic::div_mod::lemma_mod_multiples_basic(sequences, s);
    assert(total as int / s == sequences);
    assert(total as int % s == 0);
    let held = held_sequences(sequences, proposed as int);
    assert(split.total - split.train == held * s);
    assert(validation.end - validation.start == held * sequence_length);
}

/// The first step brings the detached copy up to date. The last step reports, and
/// leaves scoring and saving to the end of the run. Besides, each occasion comes
/// exactly after every so many steps, and one that never comes is asked for as
/// zero.
pub proof fn occasions_come_in_turn(
    step: usize,
    steps: usize,
    log_every: usize,
    eval_every: usize,
    checkpoint_every: usize,
    teacher_every: usize,
    k: int,
    plan: StepPlan,
)
    requires
        step < steps,
        log_every > 0,
        0 <= k,
        call_ensures(
            plan_step,
            (step, steps, log_every, eval_every, checkpoint_every, teacher_every),
            plan,
        ),
    ensures
        step == 0 ==> plan.sync_teacher,
        step + 1 == steps ==> plan.log && !plan.evaluate && !plan.checkpoint,
        eval_every == 0 ==> !plan.evaluate,
        checkpoint_every == 0 ==> !plan.checkpoint,
        teacher_every == 0 && step > 0 ==> !plan.sync_teacher,
        step + 1 == k * log_every ==> plan.log,
        eval_every > 0 && step + 1 == k * eval_every && step + 1 < steps ==> plan.evaluate,
        checkpoint_every > 0 && step + 1 == k * checkpoint_every && step + 1 < steps
            ==> plan.checkpoint,
        teacher_every > 0 && step == k * teacher_every ==> plan.sync_teacher,
        k * eval_every < step + 1 < (k + 1) * eval_every ==> !plan.evaluate,
        k * checkpoint_every < step + 1 < (k + 1) * checkpoint_every ==> !plan.checkpoint,
        k * teacher_every < step < (k + 1) * teacher_every && step > 0 ==> !plan.sync_teacher,
        k * log_every < step + 1 < (k + 1) * log_every && step + 1 < steps ==> !plan.log,
{
    lemma_turn(step + 1, log_every as int, k);
    lemma_turn(step + 1, eval_every as int, k);
    lemma_turn(step + 1, checkpoint_every as int, k);
    lemma_turn(step as int, teacher_every as int, k);
}

proof fn lemma_turn(done: int, every: int, k: int)
    requires
        0 <= every,
        0 <= k,
    ensures
        every > 0 && done == k * every ==> done % every == 0,
        every > 0 && k * every < done < (k + 1) * every ==> done % every != 0,
{
    if every > 0 {
        assert((k + 1) * every == k * every + every) by (nonlinear_arith);
        if k * every <= done < (k + 1) * every {
            vstd::arithmetic::div_mod::lemma_fundamental_div_mod_converse(
                done,
                every,
                k,
                done - k * every,
            );
        }
    }
}

/// A plane is missed exactly where a base takes the high-resolution guides and one
/// of depth, normals and albedo is not there; what is said to be missing is one of
/// these, and is.
pub proof fn guides_are_asked_for(
    base: ReconstructionBase,
    planes: PlaneSet,
    missing: Option<Plane>,
    all: bool,
)
    requires
        call_ensures(check_base, (base, &planes), missing),
        call_ensures(has_guides, (&planes,), all),
    ensures
        all <==> planes@.contains(Plane::Depth) && planes@.contains(Plane::Normal)
            && planes@.contains(Plane::DiffuseAlbedo),
        missing is None <==> base != ReconstructionBase::HighResolutionGuided || all,
        missing matches Some(p) ==> !planes@.contains(p) && (p == Plane::Depth || p == Plane::Normal
            || p == Plane::DiffuseAlbedo),
{
}

/// The records that measure the residual are records, no two of them are the same,
/// they come in order from the first on, and there are sixteen of them, or all.
pub proof fn probes_are_spread(len: usize, probes: Vec<usize>, i: int, j: int)
    requires
        len * GAIN_PROBE_SAMPLES <= usize::MAX,
        call_ensures(spatial_probes, (len,), probes),
        0 <= i < j < probes@.len(),
    ensures
        probes@.len() == 16 || probes@.len() == len,
        probes@.len() <= len && probes@.len() <= 16,
        probes@[0] == 0,
        probes@[i] < probes@[j] < len,
        len <= 16 ==> probes@[i] == i,
{
    let p = probe_count(len as int);
    lemma_spread(len as int, p, i, j);
    assert(probes@[i] == i * len / p);
    assert(probes@[j] == j * len / p);
    assert(probes@[0] == 0int * len / p);
    assert(0int / p == 0) by {
        vstd::arithmetic::div_mod::lemma_div_of0(p);
    }
    if len <= 16 {
        vstd::arithmetic::div_mod::lemma_div_multiples_vanish(i, len as int);
        vstd::arithmetic::mul::lemma_mul_is_commutative(i, len as int);
    }
}

/// Places spread evenly over as many or more are apart, and inside.
proof fn lemma_spread(n: int, p: int, i: int, j: int)
    requires
        0 < p <= n,
        0 <= i < j < p,
    ensures
        0 <= i * n / p < j * n / p < n,
{
    assert(j * n >= i * n + p && 0 <= i * n && j * n < n * p) by (nonlinear_arith)
        requires
            0 <= i,
            i + 1 <= j,
            j < p,
            0 < p <= n,
    ;
    vstd::arithmetic::div_mod::lemma_div_pos_is_pos(i * n, p);
    vstd::arithmetic::div_mod::lemma_div_is_ordered(i * n + p, j * n, p);
    assert((i * n + p) / p == i * n / p + 1) by {
        vstd::arithmetic::div_mod::lemma_div_plus_one(i * n, p);
    }
    vstd::arithmetic::div_mod::lemma_multiply_divide_lt(j * n, p, n);
}

/// Where history counts, the residual is measured on the last frames of sequences
/// to fit to, no two of them of one sequence.
pub proof fn temporal_probes_end_their_sequences(
    len: usize,
    train: usize,
    sequence_length: usize,
    probes: Vec<usize>,
    i: int,
    j: int,
)
    requires
        0 < sequence_length,
        train <= len,
        train as int % sequence_length as int == 0,
        len * GAIN_PROBE_SAMPLES <= usize::MAX,
        call_ensures(temporal_probes, (len, train, sequence_length), probes),
        0 <= i < j < probes@.len(),
    ensures
        probes@.len() <= 16,
        (probes@[i] + 1) as int % sequence_length as int == 0,
        probes@[i] + sequence_length <= probes@[j] < train,
        probes@[0] == sequence_length - 1,
{
    let s = sequence_length as int;
    let n = train as int / s;
    let c = sequence_probe_count(len as int, n);
    lemma_spread(n, c, i, j);
    let (x, y) = (i * n / c, j * n / c);
    assert(probes@[i] == x * sequence_length + sequence_length - 1);
    assert(probes@[j] == y * sequence_length + sequence_length - 1);
    assert(probes@[0] == (0int * n / c) * sequence_length + sequence_length - 1);
    assert(0int / c == 0) by {
        vstd::arithmetic::div_mod::lemma_div_of0(c);
    }
    assert(0int * s == 0);
    assert(y * s >= x * s + s) by (nonlinear_arith)
        requires
            x + 1 <= y,
            s > 0,
    ;
    assert(x * s + s == s * (x + 1)) by (nonlinear_arith);
    vstd::arithmetic::div_mod::lemma_mod_multiples_basic(x + 1, s);
    vstd::arithmetic::mul::lemma_mul_is_commutative(x + 1, s);
}

/// Each level has twice the channels of the one before it, and the first has them once.
pub proof fn levels_double_their_channels(levels: usize, result: Vec<u32>, i: int)
    requires
        levels <= 32,
        call_ensures(level_multipliers, (levels,), result),
        0 <= i < levels,
    ensures
        result@.len() == levels,
        result@[0] == 1,
        i > 0 ==> result@[i] == 2 * result@[i - 1],
{
    assert(result@[0] == vstd::arithmetic::power2::pow2(0));
    assert(result@[i] == vstd::arithmetic::power2::pow2(i as nat));
    vstd::arithmetic::power2::lemma2_to64();
    if i > 0 {
        assert(result@[i - 1] == vstd::arithmetic::power2::pow2((i - 1) as nat));
        vstd::arithmetic::power2::lemma_pow2_unfold(i as nat);
    }
}

/// A tile is as large as wanted, unless the picture is smaller.
pub proof fn tiles_stay_inside(tile: u32, layout: Layout, result: u32)
    requires
        call_ensures(clamp_tile, (tile, &layout), result),
    ensures
        result <= tile && result <= layout.lr_width && result <= layout.lr_height,
        result < tile ==> result == layout.lr_width || result == layout.lr_height,
{
}

/// A network without geometry sees colors only, and one with a history sees no motion.
/// Every other plane of the input is seen.
pub proof fn networks_see_their_planes(
    lr_planes: PlaneSet,
    color_only: bool,
    history_frames: u32,
    result: PlaneSet,
    plane: Plane,
)
    requires
        call_ensures(conditioning_planes, (lr_planes, color_only, history_frames), result),
    ensures
        color_only ==> (result@.contains(plane) <==> plane == Plane::Color),
        !color_only ==> (result@.contains(plane) <==> lr_planes@.contains(plane) && !(plane
            == Plane::Motion && history_frames > 1)),
{
}

/// A stored network keeps its choices, and a new one without geometry is not guided.
pub proof fn stored_choices_stay(
    stored: Option<GraphChoice>,
    wanted: GraphChoice,
    color_only: bool,
    result: GraphChoice,
)
    requires
        call_ensures(choose_graph, (stored, wanted, color_only), result),
    ensures
        stored matches Some(choice) ==> result == choice,
        stored is None && !color_only ==> result == wanted,
        stored is None && color_only ==> result.reconstruction_base == ReconstructionBase::Bilinear,
{
}

} // verus!
