//! How one picture is captured: which estimator runs, with what settings, and
//! what is done around each of its frames.
use vstd::prelude::*;

verus! {

/// Frames that the real-time estimator gets to settle.
pub const RESTIR_FRAMES: usize = 8;

/// Path depth of the inputs.
pub const INPUT_MAX_BOUNCES: u32 = 3;

/// Path depth of the references.
pub const REFERENCE_MAX_BOUNCES: u32 = 8;

/// How many frames are submitted together at most.
pub const FRAMES_PER_SUBMISSION: usize = 32;

/// The bits of the `f32` one hundredth.
pub const HUNDREDTH32: u32 = 0x3c23_d70a;

/// The bits of the `f32` one tenth.
pub const TENTH32: u32 = 0x3dcc_cccd;

/// Which estimator runs.
#[derive(Clone, Copy, Debug, PartialEq, Eq, Structural)]
pub enum Pass {
    /// Raw resampling, a comparison input.
    RealTime,
    /// Sparse unbiased paths, the input of the network.
    PathTrace { frames: usize },
    /// Accumulated path tracing, the reference.
    Canonical { frames: usize },
}

/// How the renderer estimates light.
#[derive(Clone, Copy, Debug, PartialEq, Eq, Structural)]
pub enum RenderMode {
    RealTime,
    Canonical,
}

/// What the renderer is told about rays. Real numbers stand as the bits of an
/// `f32`.
#[derive(Clone, Copy, Debug, PartialEq, Eq, Structural)]
pub struct RayConfig {
    pub num_environment_samples: u32,
    pub num_brdf_samples: u32,
    pub environment_importance_sampling: bool,
    pub max_bounces: u32,
    pub max_accumulated_samples: u32,
    pub tap_count: u32,
    pub tap_radius: u32,
    pub tap_confidence_near: u32,
    pub tap_confidence_far: u32,
    pub t_start: u32,
    pub pairwise_mis: bool,
    pub defensive_mis: u32,
}

/// What the filter of the renderer is told.
#[derive(Clone, Copy, Debug, PartialEq, Eq, Structural)]
pub struct DenoiserConfig {
    pub num_passes: u32,
    pub temporal_weight: u32,
}

impl Pass {
    /// How the renderer estimates light.
    pub fn mode(self) -> (result: RenderMode)
        ensures
            result == if self is RealTime {
                RenderMode::RealTime
            } else {
                RenderMode::Canonical
            },
    {
        match self {
            Pass::RealTime => RenderMode::RealTime,
            Pass::PathTrace { .. } => RenderMode::Canonical,
            Pass::Canonical { .. } => RenderMode::Canonical,
        }
    }

    /// How many frames are rendered.
    pub open spec fn count(self) -> usize {
        match self {
            Pass::RealTime => RESTIR_FRAMES,
            Pass::PathTrace { frames } => frames,
            Pass::Canonical { frames } => frames,
        }
    }

    /// How many frames are rendered.
    pub fn frames(self) -> (result: usize)
        ensures
            result == self.count(),
    {
        match self {
            Pass::RealTime => RESTIR_FRAMES,
            Pass::PathTrace { frames } => frames,
            Pass::Canonical { frames } => frames,
        }
    }

    /// What the renderer is told about rays: environment samples at every vertex
    /// are few where paths are traced, an input takes one path a pixel, and a
    /// reference follows paths further.
    pub open spec fn rays(self) -> RayConfig {
        RayConfig {
            num_environment_samples: if self is RealTime {
                4
            } else {
                1
            },
            num_brdf_samples: if self is PathTrace {
                1
            } else {
                4
            },
            environment_importance_sampling: false,
            max_bounces: if self is Canonical {
                REFERENCE_MAX_BOUNCES
            } else {
                INPUT_MAX_BOUNCES
            },
            max_accumulated_samples: 0,
            tap_count: 2,
            tap_radius: 16,
            tap_confidence_near: 8,
            tap_confidence_far: 4,
            t_start: HUNDREDTH32,
            pairwise_mis: true,
            defensive_mis: TENTH32,
        }
    }

    /// What the renderer is told about rays.
    pub fn ray_config(self) -> (result: RayConfig)
        ensures
            result == self.rays(),
    {
        let (num_environment_samples, num_brdf_samples, max_bounces): (u32, u32, u32) =
            match self {
            Pass::RealTime => (4, 4, INPUT_MAX_BOUNCES),
            Pass::PathTrace { .. } => (1, 1, INPUT_MAX_BOUNCES),
            Pass::Canonical { .. } => (1, 4, REFERENCE_MAX_BOUNCES),
        };
        RayConfig {
            num_environment_samples,
            num_brdf_samples,
            environment_importance_sampling: false,
            max_bounces,
            max_accumulated_samples: 0,
            tap_count: 2,
            tap_radius: 16,
            tap_confidence_near: 8,
            tap_confidence_far: 4,
            t_start: HUNDREDTH32,
            pairwise_mis: true,
            defensive_mis: TENTH32,
        }
    }
}

/// What the renderer is told about rays of a pass that follows paths to this
/// depth.
pub open spec fn rays_to(pass: Pass, max_bounces: u32) -> RayConfig {
    RayConfig { max_bounces, ..pass.rays() }
}

/// References follow paths further than inputs, so that they are not truncated
/// in the same manner.
pub proof fn references_are_deeper(input: Pass, reference: Pass)
    requires
        input !is Canonical,
        reference is Canonical,
    ensures
        reference.rays().max_bounces > input.rays().max_bounces,
{
}

/// What is done around one frame of a capture.
#[derive(Clone, Copy, Debug, PartialEq, Eq, Structural)]
pub struct FramePlan {
    /// Variance, reservoirs and accumulation start over.
    pub reset: bool,
    pub denoiser: Option<DenoiserConfig>,
    /// What was recorded is submitted and waited for, and its resources freed.
    pub submit: bool,
}

/// Whether a capture of `frames` frames submits after frame `frame`.
pub open spec fn submits(frame: int, frames: int) -> bool {
    (frame + 1) % FRAMES_PER_SUBMISSION as int == 0 && frame + 1 < frames
}

/// What is done around frame `frame` of a capture.
pub open spec fn frame_plan(pass: Pass, svgf_input: bool, frame: int) -> FramePlan {
    FramePlan {
        reset: frame == 0,
        denoiser: if pass is RealTime && svgf_input {
            Some(DenoiserConfig { num_passes: 3, temporal_weight: TENTH32 })
        } else {
            None
        },
        submit: submits(frame, pass.count() as int),
    }
}

/// Plans frame `frame` of a capture.
pub fn plan_frame(pass: Pass, svgf_input: bool, frame: usize) -> (result: FramePlan)
    requires
        frame < pass.count(),
    ensures
        result == frame_plan(pass, svgf_input, frame as int),
{
    let denoiser = match pass {
        Pass::RealTime => if svgf_input {
            Some(DenoiserConfig { num_passes: 3, temporal_weight: TENTH32 })
        } else {
            None
        },
        _ => None,
    };
    FramePlan {
        reset: frame == 0,
        denoiser,
        submit: (frame + 1) % FRAMES_PER_SUBMISSION == 0 && frame + 1 < pass.frames(),
    }
}

/// Whether the planes of geometry have to be filled once the frames are done:
/// only the real-time estimator fills them on its way.
pub fn fills_gbuffer(pass: Pass) -> (result: bool)
    ensures
        result == !(pass is RealTime),
{
    match pass {
        Pass::RealTime => false,
        _ => true,
    }
}

/// One thing that is done for a capture.
#[derive(Clone, Copy, Debug, PartialEq, Eq, Structural)]
pub enum Action {
    /// Recording starts.
    Start,
    /// New assets are uploaded.
    Flush,
    /// The scene is built for the next frame.
    BuildScene,
    /// The frame is prepared; `reset` starts variance, reservoirs and
    /// accumulation over.
    Prepare { reset: bool },
    Render { mode: RenderMode, rays: RayConfig, denoiser: Option<DenoiserConfig> },
    /// What was recorded is submitted and waited for, and its resources freed.
    Submit,
    FillGbuffer,
    /// The planes of geometry are copied, while they still show the last frame.
    RecordProbe,
    /// The radiance is drawn to the target, with nothing that compresses it.
    Draw,
    /// What was recorded is submitted and waited for, and the target read.
    ReadColor,
    ReadProbe,
    /// The resources of the last frames are freed.
    Release,
}

/// What is done for one frame of a capture.
pub open spec fn frame_actions(pass: Pass, depth: u32, svgf_input: bool, frame: int) -> Seq<
    Action,
> {
    let plan = frame_plan(pass, svgf_input, frame);
    let mode = if pass is RealTime {
        RenderMode::RealTime
    } else {
        RenderMode::Canonical
    };
    seq![
        Action::BuildScene,
        Action::Prepare { reset: plan.reset },
        Action::Render { mode, rays: rays_to(pass, depth), denoiser: plan.denoiser },
    ] + if plan.submit {
        seq![Action::Submit, Action::Start]
    } else {
        seq![]
    }
}

/// What is done for the first frames of a capture.
pub open spec fn frames_actions(pass: Pass, depth: u32, svgf_input: bool, frames: int) -> Seq<
    Action,
>
    decreases frames,
{
    if frames <= 0 {
        seq![]
    } else {
        frames_actions(pass, depth, svgf_input, frames - 1) + frame_actions(
            pass,
            depth,
            svgf_input,
            frames - 1,
        )
    }
}

/// What is done once the frames of a capture are rendered.
pub open spec fn closing_actions(pass: Pass, probe: bool) -> Seq<Action> {
    (if pass is RealTime {
        seq![]
    } else {
        seq![Action::FillGbuffer]
    }) + (if probe {
        seq![Action::RecordProbe]
    } else {
        seq![]
    }) + seq![Action::Draw, Action::ReadColor] + (if probe {
        seq![Action::ReadProbe]
    } else {
        seq![]
    }) + seq![Action::Release]
}

/// Adds what is done for one frame of a capture.
fn record_frame(
    actions: &mut Vec<Action>,
    pass: Pass,
    depth: u32,
    svgf_input: bool,
    frame: usize,
)
    requires
        frame < pass.count(),
    ensures
        final(actions)@ == old(actions)@ + frame_actions(pass, depth, svgf_input, frame as int),
{
    let plan = plan_frame(pass, svgf_input, frame);
    actions.push(Action::BuildScene);
    actions.push(Action::Prepare { reset: plan.reset });
    let mut rays = pass.ray_config();
    rays.max_bounces = depth;
    actions.push(Action::Render { mode: pass.mode(), rays, denoiser: plan.denoiser });
    if plan.submit {
        actions.push(Action::Submit);
        actions.push(Action::Start);
    }
    assert(actions@ =~= old(actions)@ + frame_actions(pass, depth, svgf_input, frame as int));
}

/// Adds what is done once the frames of a capture are rendered.
fn record_closing(actions: &mut Vec<Action>, pass: Pass, probe: bool)
    ensures
        final(actions)@ == old(actions)@ + closing_actions(pass, probe),
{
    if fills_gbuffer(pass) {
        actions.push(Action::FillGbuffer);
    }
    if probe {
        actions.push(Action::RecordProbe);
    }
    actions.push(Action::Draw);
    actions.push(Action::ReadColor);
    if probe {
        actions.push(Action::ReadProbe);
    }
    actions.push(Action::Release);
    assert(actions@ =~= old(actions)@ + closing_actions(pass, probe));
}

/// All that is done for a capture to this path depth, with or without a probe of
/// the geometry.
pub open spec fn captured(pass: Pass, depth: u32, svgf_input: bool, probe: bool) -> Seq<Action> {
    seq![Action::Start, Action::Flush] + frames_actions(
        pass,
        depth,
        svgf_input,
        pass.count() as int,
    ) + closing_actions(pass, probe)
}

/// Plans all that is done for a capture to this path depth.
pub fn capture_to(pass: Pass, depth: u32, svgf_input: bool, probe: bool) -> (result: Vec<Action>)
    ensures
        result@ == captured(pass, depth, svgf_input, probe),
{
    let mut actions: Vec<Action> = Vec::new();
    actions.push(Action::Start);
    actions.push(Action::Flush);
    let ghost opening = seq![Action::Start, Action::Flush];
    let mut frame: usize = 0;
    assert(actions@ =~= opening + frames_actions(pass, depth, svgf_input, 0));
    while frame < pass.frames()
        invariant
            frame <= pass.count(),
            actions@ == opening + frames_actions(pass, depth, svgf_input, frame as int),
        decreases pass.count() - frame,
    {
        record_frame(&mut actions, pass, depth, svgf_input, frame);
        proof {
            let a = frames_actions(pass, depth, svgf_input, frame as int);
            let b = frame_actions(pass, depth, svgf_input, frame as int);
            assert(opening + a + b =~= opening + (a + b));
        }
        frame = frame + 1;
    }
    record_closing(&mut actions, pass, probe);
    actions
}

/// Plans all that is done for a capture to the path depth of its pass.
pub fn capture(pass: Pass, svgf_input: bool, probe: bool) -> (result: Vec<Action>)
    ensures
        result@ == captured(pass, pass.rays().max_bounces, svgf_input, probe),
{
    capture_to(pass, pass.ray_config().max_bounces, svgf_input, probe)
}

/// No submission holds more than its share of frames: of that many frames in a
/// row, one submits, unless the capture ends within them.
pub proof fn submissions_are_bounded(frame: int, frames: int)
    requires
        0 <= frame < frames,
    ensures
        frame + FRAMES_PER_SUBMISSION >= frames || exists|k: int|
            frame <= k < frame + FRAMES_PER_SUBMISSION && #[trigger] submits(k, frames),
{
    if frame + FRAMES_PER_SUBMISSION < frames {
        let n = FRAMES_PER_SUBMISSION as int;
        let k = frame - frame % n + n - 1;
        assert((k + 1) % n == 0) by {
            assert(k + 1 == n * (frame / n + 1));
            vstd::arithmetic::div_mod::lemma_mod_multiples_basic(frame / n + 1, n);
        }
        assert(submits(k, frames));
    }
}

/// How many of the first `k` actions render a frame.
pub open spec fn rendered(actions: Seq<Action>, k: int) -> int
    decreases k,
{
    if k <= 0 {
        0
    } else {
        rendered(actions, k - 1) + if actions[k - 1] is Render {
            1int
        } else {
            0
        }
    }
}

/// How many frames are recorded, but not submitted, once the first `k` actions
/// are done.
pub open spec fn pending(actions: Seq<Action>, k: int) -> int
    decreases k,
{
    if k <= 0 || actions[k - 1] is Submit || actions[k - 1] is ReadColor {
        0
    } else {
        pending(actions, k - 1) + if actions[k - 1] is Render {
            1int
        } else {
            0
        }
    }
}

proof fn lemma_prefix(a: Seq<Action>, b: Seq<Action>, k: int)
    requires
        0 <= k <= a.len(),
    ensures
        rendered(a + b, k) == rendered(a, k),
        pending(a + b, k) == pending(a, k),
    decreases k,
{
    if k > 0 {
        lemma_prefix(a, b, k - 1);
    }
}

/// What a capture has done once its first `n` frames are rendered.
spec fn opened(pass: Pass, depth: u32, svgf_input: bool, n: int) -> Seq<Action> {
    seq![Action::Start, Action::Flush] + frames_actions(pass, depth, svgf_input, n)
}

/// What every action among those of the first frames keeps to.
spec fn keeps_order(a: Seq<Action>, i: int, pass: Pass, depth: u32, svgf_input: bool) -> bool {
    match a[i] {
        Action::Prepare { reset } => reset <==> forall|j: int|
            0 <= j < i ==> !(#[trigger] a[j] is Prepare),
        Action::Render { mode, rays, denoiser } => {
            &&& i >= 2
            &&& a[i - 1] is Prepare
            &&& a[i - 2] is BuildScene
            &&& rays.max_bounces == depth
            &&& mode == RenderMode::RealTime <==> pass is RealTime
            &&& denoiser is Some <==> pass is RealTime && svgf_input
        },
        Action::Submit => pending(a, i) == 32 && i + 1 < a.len() && a[i + 1] is Start,
        Action::Start => i == 0 || a[i - 1] is Submit,
        Action::Flush => i == 1,
        Action::BuildScene => i + 2 < a.len() && a[i + 1] is Prepare && a[i + 2] is Render,
        _ => false,
    }
}

/// The frames of a capture, one after the other.
proof fn lemma_next(pass: Pass, depth: u32, svgf_input: bool, n: int)
    requires
        0 < n <= pass.count(),
    ensures
        ({
            let a = opened(pass, depth, svgf_input, n);
            let b = opened(pass, depth, svgf_input, n - 1);
            let m = b.len() as int;
            let submit = submits(n - 1, pass.count() as int);
            &&& a == b + frame_actions(pass, depth, svgf_input, n - 1)
            &&& a.len() == m + if submit {
                5int
            } else {
                3
            }
            &&& a[m] is BuildScene
            &&& a[m + 1] == (Action::Prepare { reset: n == 1 })
            &&& a[m + 2] is Render
            &&& a[m + 2]->rays.max_bounces == depth
            &&& a[m + 2]->mode == RenderMode::RealTime <==> pass is RealTime
            &&& a[m + 2]->denoiser is Some <==> pass is RealTime && svgf_input
            &&& submit ==> a[m + 3] is Submit && a[m + 4] is Start
            &&& forall|i: int| 0 <= i < m ==> #[trigger] a[i] == b[i]
        }),
{
    let a = opened(pass, depth, svgf_input, n);
    let b = opened(pass, depth, svgf_input, n - 1);
    let f = frame_actions(pass, depth, svgf_input, n - 1);
    assert(a =~= b + f);
    let m = b.len() as int;
    assert(forall|i: int| 0 <= i < f.len() ==> a[m + i] == #[trigger] f[i]);
    assert(a[m] == f[0] && a[m + 1] == f[1] && a[m + 2] == f[2]);
    if submits(n - 1, pass.count() as int) {
        assert(a[m + 3] == f[3] && a[m + 4] == f[4]);
    }
}

proof fn lemma_counted(pass: Pass, depth: u32, svgf_input: bool, n: int)
    requires
        0 <= n <= pass.count(),
    ensures
        ({
            let a = opened(pass, depth, svgf_input, n);
            &&& a.len() >= 2
            &&& n > 0 ==> a.len() >= 5 && a[3] is Prepare
            &&& n == 0 ==> a.len() == 2
            &&& a[0] is Start && a[1] is Flush
            &&& rendered(a, a.len() as int) == n
            &&& pending(a, a.len() as int) == if n == pass.count() && n > 0 {
                (n - 1) % 32 + 1
            } else {
                n % 32
            }
            &&& forall|k: int| 0 <= k <= a.len() ==> 0 <= #[trigger] pending(a, k) <= 32
        }),
    decreases n,
{
    let a = opened(pass, depth, svgf_input, n);
    if n == 0 {
        assert(a =~= seq![Action::Start, Action::Flush]);
        reveal_with_fuel(rendered, 4);
        reveal_with_fuel(pending, 4);
        assert forall|k: int| 0 <= k <= a.len() implies 0 <= #[trigger] pending(a, k) <= 32 by {
            assert(k == 0 || k == 1 || k == 2);
        }
    } else {
        let b = opened(pass, depth, svgf_input, n - 1);
        let f = frame_actions(pass, depth, svgf_input, n - 1);
        lemma_counted(pass, depth, svgf_input, n - 1);
        lemma_next(pass, depth, svgf_input, n);
        let m = b.len() as int;
        lemma_prefix(b, f, m);
        assert(pending(a, m) == (n - 1) % 32);
        assert(pending(a, m + 1) == pending(a, m));
        assert(pending(a, m + 2) == pending(a, m + 1));
        assert(pending(a, m + 3) == pending(a, m + 2) + 1);
        assert(rendered(a, m) == n - 1);
        assert(rendered(a, m + 1) == rendered(a, m));
        assert(rendered(a, m + 2) == rendered(a, m + 1));
        assert(rendered(a, m + 3) == rendered(a, m + 2) + 1);
        if submits(n - 1, pass.count() as int) {
            assert(pending(a, m + 4) == 0);
            assert(pending(a, m + 5) == pending(a, m + 4));
            assert(rendered(a, m + 4) == rendered(a, m + 3));
            assert(rendered(a, m + 5) == rendered(a, m + 4));
        }
        assert forall|k: int| 0 <= k <= a.len() implies 0 <= #[trigger] pending(a, k) <= 32 by {
            if k <= m {
                lemma_prefix(b, f, k);
                assert(0 <= pending(b, k) <= 32);
            } else {
                assert(k == m + 1 || k == m + 2 || k == m + 3 || k == m + 4 || k == m + 5);
            }
        }
    }
}

/// What keeps to the order among actions keeps to it where more follow.
proof fn lemma_order_kept(
    b: Seq<Action>,
    f: Seq<Action>,
    i: int,
    pass: Pass,
    depth: u32,
    svgf_input: bool,
)
    requires
        0 <= i < b.len(),
        keeps_order(b, i, pass, depth, svgf_input),
    ensures
        keeps_order(b + f, i, pass, depth, svgf_input),
{
    let a = b + f;
    assert(forall|j: int| 0 <= j < b.len() ==> #[trigger] a[j] == b[j]);
    lemma_prefix(b, f, i);
    if forall|j: int| 0 <= j < i ==> !(#[trigger] b[j] is Prepare) {
        assert forall|j: int| 0 <= j < i implies !(#[trigger] a[j] is Prepare) by {
            assert(!(b[j] is Prepare));
        }
    }
    if forall|j: int| 0 <= j < i ==> !(#[trigger] a[j] is Prepare) {
        assert forall|j: int| 0 <= j < i implies !(#[trigger] b[j] is Prepare) by {
            assert(!(a[j] is Prepare));
        }
    }
}

proof fn lemma_opened(pass: Pass, depth: u32, svgf_input: bool, n: int)
    requires
        0 <= n <= pass.count(),
    ensures
        forall|i: int|
            0 <= i < opened(pass, depth, svgf_input, n).len() ==> #[trigger] keeps_order(
                opened(pass, depth, svgf_input, n),
                i,
                pass,
                depth,
                svgf_input,
            ),
    decreases n,
{
    let a = opened(pass, depth, svgf_input, n);
    lemma_counted(pass, depth, svgf_input, n);
    if n == 0 {
        assert forall|i: int| 0 <= i < a.len() implies #[trigger] keeps_order(
            a,
            i,
            pass,
            depth,
            svgf_input,
        ) by {
            assert(i == 0 || i == 1);
        }
    } else {
        let b = opened(pass, depth, svgf_input, n - 1);
        let f = frame_actions(pass, depth, svgf_input, n - 1);
        lemma_opened(pass, depth, svgf_input, n - 1);
        lemma_counted(pass, depth, svgf_input, n - 1);
        lemma_next(pass, depth, svgf_input, n);
        let m = b.len() as int;
        assert forall|i: int| 0 <= i < a.len() implies #[trigger] keeps_order(
            a,
            i,
            pass,
            depth,
            svgf_input,
        ) by {
            if i < m {
                assert(keeps_order(b, i, pass, depth, svgf_input));
                lemma_order_kept(b, f, i, pass, depth, svgf_input);
            } else if i == m + 1 {
                if n == 1 {
                    assert forall|j: int| 0 <= j < i implies !(#[trigger] a[j] is Prepare) by {
                        assert(j == 0 || j == 1 || j == 2);
                    }
                } else {
                    assert(a[3] is Prepare);
                }
            } else if i == m + 3 {
                lemma_prefix(b, f, m);
                assert(pending(a, m + 1) == pending(a, m));
                assert(pending(a, m + 2) == pending(a, m + 1));
                assert(pending(a, m + 3) == pending(a, m + 2) + 1);
                assert((n - 1) % 32 == 31);
            }
        }
    }
}

/// How many frames a pass renders.
pub open spec fn wanted(pass: Pass) -> int {
    match pass {
        Pass::RealTime => 8,
        Pass::PathTrace { frames } => frames as int,
        Pass::Canonical { frames } => frames as int,
    }
}

/// What holds of all that is done for a capture.
pub proof fn captured_frames_accumulate(
    pass: Pass,
    depth: u32,
    svgf_input: bool,
    probe: bool,
    w: Seq<Action>,
)
    requires
        w == captured(pass, depth, svgf_input, probe),
    ensures
        rendered(w, w.len() as int) == wanted(pass),
        wanted(pass) > 0 ==> w.len() > 3 && w[3] == (Action::Prepare { reset: true }),
        forall|i: int, j: int|
            0 <= i < j < w.len() && #[trigger] w[i] is Prepare
                && #[trigger] w[j] is Prepare ==> w[j] == (Action::Prepare {
                reset: false,
            }),
        forall|i: int|
            0 <= i < w.len() ==> match #[trigger] w[i] {
                Action::Prepare { reset } => reset <==> forall|j: int|
                    0 <= j < i ==> !(#[trigger] w[j] is Prepare),
                Action::Render { mode, rays, denoiser } => {
                    &&& i >= 2 && w[i - 1] is Prepare && w[i - 2] is BuildScene
                    &&& rays.max_bounces == depth
                    &&& mode == RenderMode::RealTime <==> pass is RealTime
                    &&& denoiser is Some <==> pass is RealTime && svgf_input
                },
                _ => true,
            },
{
    let n = pass.count() as int;
    let a = opened(pass, depth, svgf_input, n);
    let c = closing_actions(pass, probe);
    lemma_counted(pass, depth, svgf_input, n);
    lemma_opened(pass, depth, svgf_input, n);
    assert(w =~= a + c);
    lemma_closing(a, pass, probe);
    assert forall|i: int| 0 <= i < w.len() && (#[trigger] w[i] is Prepare
        || w[i] is Render) implies keeps_order(w, i, pass, depth, svgf_input) by {
        assert(i < a.len());
        assert(keeps_order(a, i, pass, depth, svgf_input));
        assert(forall|j: int| 0 <= j <= i ==> #[trigger] w[j] == a[j]);
        if forall|j: int| 0 <= j < i ==> !(#[trigger] a[j] is Prepare) {
            assert forall|j: int| 0 <= j < i implies !(#[trigger] w[j] is Prepare) by {
                assert(!(a[j] is Prepare));
            }
        }
        if forall|j: int| 0 <= j < i ==> !(#[trigger] w[j] is Prepare) {
            assert forall|j: int| 0 <= j < i implies !(#[trigger] a[j] is Prepare) by {
                assert(!(w[j] is Prepare));
            }
        }
    }
    assert(n > 0 ==> w[3] == a[3]);
    if n > 0 {
        assert(keeps_order(w, 3, pass, depth, svgf_input));
        assert forall|j: int| 0 <= j < 3 implies !(#[trigger] w[j] is Prepare) by {
            assert(a[0] is Start && a[1] is Flush);
            assert(keeps_order(a, 2, pass, depth, svgf_input));
            assert(j == 2 ==> a[2] is BuildScene) by {
                lemma_third(pass, depth, svgf_input, n);
            }
        }
    }
}

/// Every picture is the mean of all its frames: each frame that was asked for is
/// rendered, on a scene and a preparation of its own, to the depth that was asked
/// for, and what was accumulated starts over before the first of them and never
/// again.
pub proof fn frames_accumulate(
    pass: Pass,
    depth: u32,
    svgf_input: bool,
    probe: bool,
    actions: Vec<Action>,
)
    requires
        call_ensures(capture_to, (pass, depth, svgf_input, probe), actions),
    ensures
        rendered(actions@, actions@.len() as int) == wanted(pass),
        wanted(pass) > 0 ==> actions@.len() > 3 && actions@[3] == (Action::Prepare { reset: true }),
        forall|i: int, j: int|
            0 <= i < j < actions@.len() && #[trigger] actions@[i] is Prepare
                && #[trigger] actions@[j] is Prepare ==> actions@[j] == (Action::Prepare {
                reset: false,
            }),
        forall|i: int|
            0 <= i < actions@.len() ==> match #[trigger] actions@[i] {
                Action::Prepare { reset } => reset <==> forall|j: int|
                    0 <= j < i ==> !(#[trigger] actions@[j] is Prepare),
                Action::Render { mode, rays, denoiser } => {
                    &&& i >= 2 && actions@[i - 1] is Prepare && actions@[i - 2] is BuildScene
                    &&& rays.max_bounces == depth
                    &&& mode == RenderMode::RealTime <==> pass is RealTime
                    &&& denoiser is Some <==> pass is RealTime && svgf_input
                },
                _ => true,
            },
{
    captured_frames_accumulate(pass, depth, svgf_input, probe, actions@);
}

proof fn lemma_third(pass: Pass, depth: u32, svgf_input: bool, n: int)
    requires
        0 < n,
    ensures
        opened(pass, depth, svgf_input, n).len() >= 5,
        opened(pass, depth, svgf_input, n)[2] is BuildScene,
    decreases n,
{
    let a = frames_actions(pass, depth, svgf_input, n);
    let b = frames_actions(pass, depth, svgf_input, n - 1);
    let f = frame_actions(pass, depth, svgf_input, n - 1);
    assert(a == b + f);
    if n == 1 {
        assert(b.len() == 0);
        assert(a[0] == f[0]);
    } else {
        lemma_third(pass, depth, svgf_input, n - 1);
        assert(a[0] == b[0]);
    }
}

/// What follows the frames prepares and renders nothing more.
proof fn lemma_closing(a: Seq<Action>, pass: Pass, probe: bool)
    ensures
        ({
            let c = closing_actions(pass, probe);
            let w = a + c;
            &&& rendered(w, w.len() as int) == rendered(a, a.len() as int)
            &&& forall|k: int|
                0 <= k <= w.len() ==> #[trigger] pending(w, k) == if k <= a.len() {
                    pending(a, k)
                } else if exists|j: int| a.len() <= j < k && w[j] is ReadColor {
                    0
                } else {
                    pending(a, a.len() as int)
                }
            &&& forall|i: int|
                a.len() <= i < w.len() ==> !(#[trigger] w[i] is Prepare || w[i] is Render
                    || w[i] is Submit || w[i] is Start || w[i] is BuildScene || w[i] is Flush)
        }),
{
    let c = closing_actions(pass, probe);
    let w = a + c;
    assert forall|i: int| a.len() <= i < w.len() implies !(#[trigger] w[i] is Prepare
        || w[i] is Render || w[i] is Submit || w[i] is Start || w[i] is BuildScene
        || w[i] is Flush) by {
        assert(w[i] == c[i - a.len()]);
    }
    lemma_prefix(a, c, a.len() as int);
    lemma_tail(a, c, w.len() as int);
    assert forall|k: int| 0 <= k <= w.len() implies #[trigger] pending(w, k) == if k <= a.len() {
        pending(a, k)
    } else if exists|j: int| a.len() <= j < k && w[j] is ReadColor {
        0
    } else {
        pending(a, a.len() as int)
    } by {
        if k <= a.len() {
            lemma_prefix(a, c, k);
        } else {
            lemma_tail(a, c, k);
        }
    }
}

proof fn lemma_tail(a: Seq<Action>, c: Seq<Action>, k: int)
    requires
        a.len() <= k <= a.len() + c.len(),
        forall|i: int|
            a.len() <= i < a.len() + c.len() ==> !(#[trigger] (a + c)[i] is Render || (a
                + c)[i] is Submit),
    ensures
        rendered(a + c, k) == rendered(a, a.len() as int),
        pending(a + c, k) == if exists|j: int| a.len() <= j < k && (a + c)[j] is ReadColor {
            0
        } else {
            pending(a, a.len() as int)
        },
    decreases k,
{
    let w = a + c;
    if k == a.len() {
        lemma_prefix(a, c, k);
    } else {
        lemma_tail(a, c, k - 1);
        assert(!(w[k - 1] is Render || w[k - 1] is Submit));
        if w[k - 1] is ReadColor {
            assert(pending(w, k) == 0);
        } else {
            assert(pending(w, k) == pending(w, k - 1));
            assert((exists|j: int| a.len() <= j < k && w[j] is ReadColor) == (exists|j: int|
                a.len() <= j < k - 1 && w[j] is ReadColor)) by {
                if exists|j: int| a.len() <= j < k && w[j] is ReadColor {
                    let j = choose|j: int| a.len() <= j < k && w[j] is ReadColor;
                    assert(a.len() <= j < k - 1 && w[j] is ReadColor);
                }
            }
        }
    }
}

/// No submission holds more than its share of frames, none is made before its
/// share is full, recording goes on after each, and what was recorded last is
/// submitted when the picture is read.
pub proof fn submissions_hold_their_share(
    pass: Pass,
    depth: u32,
    svgf_input: bool,
    probe: bool,
    actions: Vec<Action>,
)
    requires
        call_ensures(capture_to, (pass, depth, svgf_input, probe), actions),
    ensures
        forall|k: int| 0 <= k <= actions@.len() ==> 0 <= #[trigger] pending(actions@, k) <= 32,
        forall|i: int|
            0 <= i < actions@.len() && #[trigger] actions@[i] is Submit ==> pending(actions@, i)
                == 32 && i + 1 < actions@.len() && actions@[i + 1] is Start,
        forall|i: int|
            0 < i < actions@.len() && #[trigger] actions@[i] is Start ==> actions@[i - 1] is Submit,
        pending(actions@, actions@.len() as int) == 0,
{
    let n = pass.count() as int;
    let a = opened(pass, depth, svgf_input, n);
    let c = closing_actions(pass, probe);
    lemma_counted(pass, depth, svgf_input, n);
    lemma_opened(pass, depth, svgf_input, n);
    assert(actions@ =~= a + c);
    lemma_closing(a, pass, probe);
    assert forall|k: int| 0 <= k <= actions@.len() implies 0 <= #[trigger] pending(actions@, k)
        <= 32 by {
        if k <= a.len() {
            assert(pending(actions@, k) == pending(a, k));
        } else {
            assert(0 <= pending(a, a.len() as int) <= 32);
        }
    }
    assert forall|i: int| 0 <= i < actions@.len() && #[trigger] actions@[i] is Submit implies pending(
        actions@,
        i,
    ) == 32 && i + 1 < actions@.len() && actions@[i + 1] is Start by {
        assert(i < a.len());
        assert(actions@[i] == a[i]);
        assert(keeps_order(a, i, pass, depth, svgf_input));
        assert(actions@[i + 1] == a[i + 1]);
        assert(pending(actions@, i) == pending(a, i));
    }
    assert forall|i: int| 0 < i < actions@.len() && #[trigger] actions@[i] is Start implies actions@[i
        - 1] is Submit by {
        assert(i < a.len());
        assert(actions@[i] == a[i]);
        assert(keeps_order(a, i, pass, depth, svgf_input));
        assert(actions@[i - 1] == a[i - 1]);
    }
    lemma_read(a, pass, probe);
}

/// Where the picture is read among what follows the frames.
proof fn lemma_read(a: Seq<Action>, pass: Pass, probe: bool)
    ensures
        ({
            let c = closing_actions(pass, probe);
            let w = a + c;
            let g = (if pass is RealTime {
                0int
            } else {
                1
            });
            let p = (if probe {
                1int
            } else {
                0
            });
            let m = a.len() as int;
            &&& c.len() == g + 2 * p + 3
            &&& g == 1 ==> w[m] is FillGbuffer
            &&& p == 1 ==> w[m + g] is RecordProbe
            &&& w[m + g + p] is Draw
            &&& w[m + g + p + 1] is ReadColor
            &&& p == 1 ==> w[m + g + p + 2] is ReadProbe
            &&& w.last() is Release
        }),
{
    let c = closing_actions(pass, probe);
    let w = a + c;
    assert(forall|i: int| 0 <= i < c.len() ==> w[a.len() + i] == #[trigger] c[i]);
    assert(w.last() == c.last());
}

/// The picture is drawn, and the geometry copied, once all frames are rendered:
/// the geometry is copied before the picture is drawn over it, both are read
/// once what was recorded is done, and the resources go last.
pub proof fn pictures_are_read_last(
    pass: Pass,
    depth: u32,
    svgf_input: bool,
    probe: bool,
    actions: Vec<Action>,
)
    requires
        call_ensures(capture_to, (pass, depth, svgf_input, probe), actions),
    ensures
        actions@.last() is Release,
        actions@[0] is Start,
        actions@[1] is Flush,
        exists|i: int|
            0 <= i < actions@.len() - 2 && #[trigger] actions@[i] is Draw && actions@[i
                + 1] is ReadColor && rendered(actions@, i) == wanted(pass) && (probe
                ==> actions@[i - 1] is RecordProbe && actions@[i + 2] is ReadProbe),
        probe <==> exists|i: int|
            0 <= i < actions@.len() && #[trigger] actions@[i] is RecordProbe,
        pass !is RealTime <==> exists|i: int|
            0 <= i < actions@.len() && #[trigger] actions@[i] is FillGbuffer && rendered(
                actions@,
                i,
            ) == wanted(pass),
{
    let n = pass.count() as int;
    let a = opened(pass, depth, svgf_input, n);
    let c = closing_actions(pass, probe);
    lemma_counted(pass, depth, svgf_input, n);
    lemma_opened(pass, depth, svgf_input, n);
    assert(actions@ =~= a + c);
    lemma_closing(a, pass, probe);
    lemma_read(a, pass, probe);
    let w = actions@;
    let m = a.len() as int;
    let g = (if pass is RealTime {
        0int
    } else {
        1
    });
    let p = (if probe {
        1int
    } else {
        0
    });
    let d = m + g + p;
    lemma_tail(a, c, d);
    assert(w[d] is Draw);
    if probe {
        assert(w[m + g] is RecordProbe);
    }
    if g == 1 {
        lemma_tail(a, c, m);
        assert(w[m] is FillGbuffer);
    }
    assert forall|i: int| 0 <= i < w.len() && (#[trigger] w[i] is RecordProbe
        || w[i] is FillGbuffer) implies i >= m by {
        if i < m {
            assert(keeps_order(a, i, pass, depth, svgf_input));
            assert(a[i] == w[i]);
        }
    }
    assert forall|i: int| m <= i < w.len() implies (#[trigger] w[i] is RecordProbe ==> probe) && (
    w[i] is FillGbuffer ==> pass !is RealTime) by {
        assert(w[i] == c[i - m]);
    }
}

/// What is accumulated starts over before the first frame of a capture and before
/// no other, whatever the pass; only the real-time estimator is ever filtered,
/// and only where that is asked for; the last frame is left to the reading of
/// the picture.
pub proof fn first_frames_start_over(
    pass: Pass,
    svgf_input: bool,
    frame: usize,
    plan: FramePlan,
)
    requires
        frame < wanted(pass),
        call_ensures(plan_frame, (pass, svgf_input, frame), plan),
    ensures
        plan.reset <==> frame == 0,
        plan.denoiser is Some <==> pass is RealTime && svgf_input,
        plan.submit ==> frame + 1 < wanted(pass),
{
}

/// The estimators differ in what they sample: an input takes one path a pixel and
/// light at one place of the sky a vertex, a reference follows four paths a pixel,
/// and no picture keeps samples from before.
pub proof fn estimators_differ(pass: Pass, rays: RayConfig)
    requires
        call_ensures(Pass::ray_config, (pass,), rays),
    ensures
        rays.num_brdf_samples == 1 <==> pass is PathTrace,
        rays.num_environment_samples == 1 <==> pass !is RealTime,
        rays.num_environment_samples >= 1 && rays.num_brdf_samples >= 1,
        rays.max_bounces == 8 <==> pass is Canonical,
        rays.max_bounces == 3 <==> pass !is Canonical,
        rays.max_accumulated_samples == 0,
        !rays.environment_importance_sampling,
{
}

} // verus!
