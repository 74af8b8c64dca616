//! Scoring held-out records crop by crop.
use vstd::prelude::*;

use crate::model::{Objective, ReconstructionBase};

verus! {

/// A reconstruction that a network is held against.
#[derive(Clone, Copy, Debug, PartialEq, Eq, Structural)]
pub enum Baseline {
    Nearest,
    Bilinear,
    Guided,
    HighResolutionGuided,
}

impl Baseline {
    /// What reports call the baseline.
    pub open spec fn name_text(self) -> Seq<char> {
        match self {
            Baseline::Nearest => "nearest"@,
            Baseline::Bilinear => "bilinear"@,
            Baseline::Guided => "guided"@,
            Baseline::HighResolutionGuided => "HR guide"@,
        }
    }

    /// What reports call the baseline.
    pub fn name(self) -> (result: &'static str)
        ensures
            result@ == self.name_text(),
    {
        match self {
            Baseline::Nearest => "nearest",
            Baseline::Bilinear => "bilinear",
            Baseline::Guided => "guided",
            Baseline::HighResolutionGuided => "HR guide",
        }
    }
}

/// What the output of a network with this base is added to. A kernel network
/// has no base of its own and is held against the best one that the dataset
/// supports.
pub open spec fn baseline_of(base: ReconstructionBase, guides: bool, hr_guides: bool) -> Baseline {
    match base {
        ReconstructionBase::Nearest => Baseline::Nearest,
        ReconstructionBase::Bilinear => Baseline::Bilinear,
        ReconstructionBase::GuidedBilinear => Baseline::Guided,
        ReconstructionBase::HighResolutionGuided => Baseline::HighResolutionGuided,
        ReconstructionBase::Sample => if hr_guides {
            Baseline::HighResolutionGuided
        } else if guides {
            Baseline::Guided
        } else {
            Baseline::Bilinear
        },
    }
}

/// Picks what a network is held against.
///
/// A guided network needs its guides.
pub fn choose_baseline(base: ReconstructionBase, guides: bool, hr_guides: bool) -> (result: Baseline)
    requires
        base == ReconstructionBase::GuidedBilinear ==> guides,
        base == ReconstructionBase::HighResolutionGuided ==> hr_guides,
    ensures
        result == baseline_of(base, guides, hr_guides),
        result == Baseline::Guided ==> guides,
        result == Baseline::HighResolutionGuided ==> hr_guides,
{
    match base {
        ReconstructionBase::Nearest => Baseline::Nearest,
        ReconstructionBase::Bilinear => Baseline::Bilinear,
        ReconstructionBase::GuidedBilinear => Baseline::Guided,
        ReconstructionBase::HighResolutionGuided => Baseline::HighResolutionGuided,
        ReconstructionBase::Sample => if hr_guides {
            Baseline::HighResolutionGuided
        } else if guides {
            Baseline::Guided
        } else {
            Baseline::Bilinear
        },
    }
}

/// The guided image that the network's output is added to, where it has one.
pub fn model_base(base: ReconstructionBase) -> (result: Option<Baseline>)
    ensures
        result == match base {
            ReconstructionBase::GuidedBilinear => Some(Baseline::Guided),
            ReconstructionBase::HighResolutionGuided => Some(Baseline::HighResolutionGuided),
            _ => None,
        },
{
    match base {
        ReconstructionBase::GuidedBilinear => Some(Baseline::Guided),
        ReconstructionBase::HighResolutionGuided => Some(Baseline::HighResolutionGuided),
        _ => None,
    }
}

/// Pixels whose history is valid and which moved: the motion vector, two `f32`
/// in bits, is not zero.
pub open spec fn moved(valid: Seq<bool>, motion: Seq<u32>, i: int) -> bool {
    valid[i] && (motion[2 * i] % 0x8000_0000 != 0 || motion[2 * i + 1] % 0x8000_0000 != 0)
}

/// Marks the pixels whose history is valid and which moved.
pub fn moving_mask(valid: &Vec<bool>, motion: &Vec<u32>) -> (result: Vec<bool>)
    requires
        motion.len() == 2 * valid.len(),
    ensures
        result.len() == valid.len(),
        forall|i: int| 0 <= i < valid.len() ==> #[trigger] result[i] == moved(valid@, motion@, i),
{
    let mut result: Vec<bool> = Vec::new();
    let mut i: usize = 0;
    while i < valid.len()
        invariant
            i <= valid.len(),
            motion.len() == 2 * valid.len(),
            result.len() == i,
            forall|j: int| 0 <= j < i ==> #[trigger] result[j] == moved(valid@, motion@, j),
        decreases valid.len() - i,
    {
        let x: u32 = motion[2 * i];
        let y: u32 = motion[2 * i + 1];
        result.push(valid[i] && (x % 0x8000_0000 != 0 || y % 0x8000_0000 != 0));
        i = i + 1;
    }
    result
}

/// The length of the longest parameter, or zero.
pub fn widest(lengths: &Vec<usize>) -> (result: usize)
    ensures
        forall|i: int| 0 <= i < lengths.len() ==> #[trigger] lengths[i] <= result,
        lengths.len() == 0 ==> result == 0,
        lengths.len() > 0 ==> exists|i: int| 0 <= i < lengths.len() && #[trigger] lengths[i]
            == result,
{
    let mut result: usize = 0;
    let mut i: usize = 0;
    while i < lengths.len()
        invariant
            i <= lengths.len(),
            forall|j: int| 0 <= j < i ==> #[trigger] lengths[j] <= result,
            i == 0 ==> result == 0,
            i > 0 ==> exists|j: int| 0 <= j < i && #[trigger] lengths[j] == result,
        decreases lengths.len() - i,
    {
        if i == 0 || lengths[i] > result {
            result = lengths[i];
            assert(lengths[i as int] == result);
        }
        i = i + 1;
    }
    result
}

/// How a pass over the held-out records stands.
#[derive(Debug)]
pub struct Scoring {
    /// How many crops are scored at most.
    pub limit: usize,
    /// How many crops have been scored.
    pub counted: usize,
    /// For each crop of a record, whether the frame before it is kept.
    pub kept: Vec<bool>,
    /// How many crops were compared with the frame before.
    pub pairs: u64,
    /// How many values those comparisons had together.
    pub pair_values: u64,
    /// How many of the values were of pixels that moved.
    pub moving_values: u64,
}

/// What to do with a record.
#[derive(Clone, Copy, Debug, PartialEq, Eq, Structural)]
pub enum Next {
    /// Pass over it: it has no history yet.
    Skip,
    /// End the pass.
    Stop,
    /// Score its crops.
    Score,
}

/// How to score a crop.
#[derive(Clone, Copy, Debug, PartialEq, Eq, Structural)]
pub struct CropTask {
    /// The seed of the sampler's noise, another for each crop.
    pub seed: u64,
    /// Whether the images are to be written.
    pub pictures: bool,
    /// Whether there is a frame before to compare with.
    pub compare: bool,
}

/// What comparing a crop with the frame before came to: the number of values
/// that the network and its baseline were compared on.
#[derive(Clone, Copy, Debug, PartialEq, Eq, Structural)]
pub struct Comparison {
    pub network: Option<u64>,
    pub base: Option<u64>,
    pub moving_network: Option<u64>,
    pub moving_base: Option<u64>,
}

/// The number of values of a comparison that both sides have.
pub open spec fn paired(a: Option<u64>, b: Option<u64>) -> Option<u64> {
    match (a, b) {
        (Some(n), Some(_)) => Some(n),
        _ => None,
    }
}

/// Whether both sides were compared on as many values, where both were.
pub open spec fn agree(a: Option<u64>, b: Option<u64>) -> bool {
    a is Some && b is Some ==> a == b
}

/// The number of values of a comparison that both sides have.
fn pair(a: Option<u64>, b: Option<u64>) -> (result: Option<u64>)
    ensures
        result == paired(a, b),
{
    match (a, b) {
        (Some(n), Some(_)) => Some(n),
        _ => None,
    }
}

/// A count, raised where there is something to raise it by.
pub open spec fn raised(count: u64, by: Option<u64>) -> int {
    match by {
        Some(n) => count + n,
        None => count as int,
    }
}

impl Scoring {
    /// Never more crops than the limit.
    pub open spec fn wf(&self) -> bool {
        self.counted <= self.limit
    }

    /// Starts a pass over records of `crops` crops each. Without a crop there
    /// is nothing to score.
    pub fn new(crops: usize, limit: usize) -> (result: Option<Self>)
        ensures
            result is None <==> crops == 0,
            result matches Some(s) ==> {
                &&& s.wf()
                &&& s.limit == limit
                &&& s.counted == 0
                &&& s.kept@ == Seq::new(crops as nat, |i: int| false)
                &&& s.pairs == 0
                &&& s.pair_values == 0
                &&& s.moving_values == 0
            },
    {
        if crops == 0 {
            return None;
        }
        let kept: Vec<bool> = vec![false; crops];
        assert(kept@ =~= Seq::new(crops as nat, |i: int| false));
        Some(
            Scoring { limit, counted: 0, kept, pairs: 0, pair_values: 0, moving_values: 0 },
        )
    }

    /// Opens a record. One without history breaks the sequence: no frame before
    /// it is kept. One that cannot be read ends the pass.
    pub fn open_record(&mut self, has_history: bool, readable: bool) -> (result: Next)
        requires
            old(self).wf(),
        ensures
            final(self).wf(),
            result == if !has_history {
                Next::Skip
            } else if !readable {
                Next::Stop
            } else {
                Next::Score
            },
            final(self).kept@ == if has_history {
                old(self).kept@
            } else {
                Seq::new(old(self).kept@.len(), |i: int| false)
            },
            final(self).limit == old(self).limit,
            final(self).counted == old(self).counted,
            final(self).pairs == old(self).pairs,
            final(self).pair_values == old(self).pair_values,
            final(self).moving_values == old(self).moving_values,
    {
        if !has_history {
            let crops: usize = self.kept.len();
            self.kept = vec![false; crops];
            assert(self.kept@ =~= Seq::new(old(self).kept@.len(), |i: int| false));
            return Next::Skip;
        }
        if !readable {
            return Next::Stop;
        }
        Next::Score
    }

    /// Opens a crop of the current record, unless enough have been scored. The
    /// images of the first one are written where a directory is given.
    pub fn open_crop(&self, crop: usize, seed: u64, directory: bool) -> (result: Option<CropTask>)
        requires
            self.wf(),
            crop < self.kept.len(),
        ensures
            result is None <==> self.counted == self.limit,
            result matches Some(task) ==> {
                &&& task.seed == (seed + self.counted) % 0x1_0000_0000_0000_0000
                &&& task.pictures == (self.counted == 0 && directory)
                &&& task.compare == self.kept[crop as int]
            },
    {
        if self.counted >= self.limit {
            return None;
        }
        Some(
            CropTask {
                seed: seed.wrapping_add(self.counted as u64),
                pictures: self.counted == 0 && directory,
                compare: self.kept[crop],
            },
        )
    }

    /// Closes a crop that was scored.
    ///
    /// Where there was temporal evidence, the frame is kept for the next
    /// record, and where a frame before had been kept, the comparison counts.
    pub fn close_crop(&mut self, crop: usize, evidence: Option<Comparison>)
        requires
            old(self).wf(),
            old(self).counted < old(self).limit,
            crop < old(self).kept.len(),
            evidence matches Some(c) ==> {
                &&& agree(c.network, c.base)
                &&& agree(c.moving_network, c.moving_base)
                &&& old(self).pairs < u64::MAX
                &&& raised(old(self).pair_values, paired(c.network, c.base)) <= u64::MAX
                &&& raised(
                    old(self).moving_values,
                    paired(c.moving_network, c.moving_base),
                ) <= u64::MAX
            },
        ensures
            final(self).wf(),
            final(self).limit == old(self).limit,
            final(self).counted == old(self).counted + 1,
            match evidence {
                None => {
                    &&& final(self).kept@ == old(self).kept@
                    &&& final(self).pairs == old(self).pairs
                    &&& final(self).pair_values == old(self).pair_values
                    &&& final(self).moving_values == old(self).moving_values
                },
                Some(c) => {
                    let counts = old(self).kept[crop as int];
                    &&& final(self).kept@ == old(self).kept@.update(crop as int, true)
                    &&& final(self).pairs == old(self).pairs + if counts && paired(
                        c.network,
                        c.base,
                    ) is Some {
                        1int
                    } else {
                        0
                    }
                    &&& final(self).pair_values == if counts {
                        raised(old(self).pair_values, paired(c.network, c.base))
                    } else {
                        old(self).pair_values as int
                    }
                    &&& final(self).moving_values == if counts {
                        raised(old(self).moving_values, paired(c.moving_network, c.moving_base))
                    } else {
                        old(self).moving_values as int
                    }
                },
            },
    {
        match evidence {
            None => {},
            Some(c) => {
                if self.kept[crop] {
                    match pair(c.network, c.base) {
                        Some(n) => {
                            self.pairs = self.pairs + 1;
                            self.pair_values = self.pair_values + n;
                        },
                        None => {},
                    }
                    match pair(c.moving_network, c.moving_base) {
                        Some(n) => {
                            self.moving_values = self.moving_values + n;
                        },
                        None => {},
                    }
                }
                self.kept.set(crop, true);
            },
        }
        self.counted = self.counted + 1;
    }

    /// Whether the pass scored anything.
    pub fn scored(&self) -> (result: bool)
        ensures
            result == (self.counted > 0),
    {
        self.counted > 0
    }

    /// Which parts of the report there is something to say in: the pairs of
    /// frames, and among them the pixels that moved.
    pub fn temporal_report(&self) -> (result: (bool, bool))
        ensures
            result.0 == (self.pairs > 0),
            result.1 == (self.pairs > 0 && self.moving_values > 0),
    {
        (self.pairs > 0, self.pairs > 0 && self.moving_values > 0)
    }
}

/// No two crops of a pass are scored with the same noise.
pub proof fn crops_have_seeds_of_their_own(seed: u64, i: u64, j: u64)
    requires
        i != j,
    ensures
        (seed + i) % 0x1_0000_0000_0000_0000 != (seed + j) % 0x1_0000_0000_0000_0000,
{
}

/// A picture that is written of the first crop.
#[derive(Clone, Copy, Debug, PartialEq, Eq, Structural)]
pub enum Picture {
    Input,
    Base(Baseline),
    Predicted,
    Reference,
}

impl Picture {
    /// What the file of the picture is called.
    pub open spec fn file_text(self) -> Seq<char> {
        match self {
            Picture::Input => "input.png"@,
            Picture::Base(Baseline::Nearest) => "nearest.png"@,
            Picture::Base(Baseline::Bilinear) => "bilinear.png"@,
            Picture::Base(Baseline::Guided) => "guided.png"@,
            Picture::Base(Baseline::HighResolutionGuided) => "hr-guided.png"@,
            Picture::Predicted => "predicted.png"@,
            Picture::Reference => "reference.png"@,
        }
    }

    /// What the file of the picture is called.
    pub fn file_name(self) -> (result: &'static str)
        ensures
            result@ == self.file_text(),
    {
        match self {
            Picture::Input => "input.png",
            Picture::Base(Baseline::Nearest) => "nearest.png",
            Picture::Base(Baseline::Bilinear) => "bilinear.png",
            Picture::Base(Baseline::Guided) => "guided.png",
            Picture::Base(Baseline::HighResolutionGuided) => "hr-guided.png",
            Picture::Predicted => "predicted.png",
            Picture::Reference => "reference.png",
        }
    }
}

/// The pictures that are written of the first crop: those of the guided bases
/// where the dataset has the guides.
pub open spec fn pictures_of(guides: bool, hr_guides: bool) -> Seq<Picture> {
    seq![
        Picture::Input,
        Picture::Base(Baseline::Nearest),
        Picture::Base(Baseline::Bilinear),
        Picture::Predicted,
        Picture::Reference,
    ] + (if guides {
        seq![Picture::Base(Baseline::Guided)]
    } else {
        seq![]
    }) + (if hr_guides {
        seq![Picture::Base(Baseline::HighResolutionGuided)]
    } else {
        seq![]
    })
}

/// Lists the pictures that are written of the first crop.
pub fn list_pictures(guides: bool, hr_guides: bool) -> (result: Vec<Picture>)
    ensures
        result@ == pictures_of(guides, hr_guides),
{
    let mut pictures: Vec<Picture> = Vec::new();
    pictures.push(Picture::Input);
    pictures.push(Picture::Base(Baseline::Nearest));
    pictures.push(Picture::Base(Baseline::Bilinear));
    pictures.push(Picture::Predicted);
    pictures.push(Picture::Reference);
    if guides {
        pictures.push(Picture::Base(Baseline::Guided));
    }
    if hr_guides {
        pictures.push(Picture::Base(Baseline::HighResolutionGuided));
    }
    assert(pictures@ =~= pictures_of(guides, hr_guides));
    pictures
}

/// The bases that a report on a pass has a line for: each that was scored.
pub open spec fn lines_of(guides: bool, hr_guides: bool) -> Seq<Baseline> {
    seq![Baseline::Nearest, Baseline::Bilinear] + (if guides {
        seq![Baseline::Guided]
    } else {
        seq![]
    }) + (if hr_guides {
        seq![Baseline::HighResolutionGuided]
    } else {
        seq![]
    })
}

/// Lists the bases that a report has a line for.
pub fn list_baselines(guides: bool, hr_guides: bool) -> (result: Vec<Baseline>)
    ensures
        result@ == lines_of(guides, hr_guides),
{
    let mut lines: Vec<Baseline> = Vec::new();
    lines.push(Baseline::Nearest);
    lines.push(Baseline::Bilinear);
    if guides {
        lines.push(Baseline::Guided);
    }
    if hr_guides {
        lines.push(Baseline::HighResolutionGuided);
    }
    assert(lines@ =~= lines_of(guides, hr_guides));
    lines
}

/// What a network is held against has a line of its own in the report.
pub proof fn baseline_is_reported(base: ReconstructionBase, guides: bool, hr_guides: bool)
    requires
        base == ReconstructionBase::GuidedBilinear ==> guides,
        base == ReconstructionBase::HighResolutionGuided ==> hr_guides,
    ensures
        lines_of(guides, hr_guides).contains(baseline_of(base, guides, hr_guides)),
{
    let lines = lines_of(guides, hr_guides);
    let chosen = baseline_of(base, guides, hr_guides);
    assert(lines[0] == Baseline::Nearest && lines[1] == Baseline::Bilinear);
    if chosen == Baseline::Guided {
        assert(lines[2] == chosen);
    } else if chosen == Baseline::HighResolutionGuided {
        assert(lines[lines.len() - 1] == chosen);
    }
}

/// One run of the network: the noise level it is told, and the level that its
/// answer is taken to. Without noise it is told none.
#[derive(Clone, Copy, Debug, PartialEq, Eq, Structural)]
pub struct Pass {
    pub level: Option<usize>,
    pub next: Option<usize>,
}

/// The runs that one reconstruction takes: a single one, or where noise is
/// removed, one for each of the noise levels, each handing on to the next.
pub open spec fn passes_of(objective: Objective, levels: Seq<usize>) -> Seq<Pass> {
    match objective {
        Objective::Direct => seq![Pass { level: None, next: None }],
        Objective::Diffusion => Seq::new(
            levels.len(),
            |i: int|
                Pass {
                    level: Some(levels[i]),
                    next: if i + 1 < levels.len() {
                        Some(levels[i + 1])
                    } else {
                        None
                    },
                },
        ),
    }
}

/// Plans the runs that one reconstruction takes.
pub fn plan_passes(objective: Objective, levels: &Vec<usize>) -> (result: Vec<Pass>)
    ensures
        result@ == passes_of(objective, levels@),
{
    let mut passes: Vec<Pass> = Vec::new();
    match objective {
        Objective::Direct => {
            passes.push(Pass { level: None, next: None });
            assert(passes@ =~= passes_of(objective, levels@));
        },
        Objective::Diffusion => {
            let mut i: usize = 0;
            while i < levels.len()
                invariant
                    i <= levels.len(),
                    passes.len() == i,
                    forall|j: int|
                        0 <= j < i ==> #[trigger] passes@[j] == passes_of(
                            Objective::Diffusion,
                            levels@,
                        )[j],
                decreases levels.len() - i,
            {
                let next: Option<usize> = if i + 1 < levels.len() {
                    Some(levels[i + 1])
                } else {
                    None
                };
                passes.push(Pass { level: Some(levels[i]), next });
                i = i + 1;
            }
            assert(passes@ =~= passes_of(objective, levels@));
        },
    }
    passes
}

/// A pixel counts as moving exactly if its history is valid and its motion vector
/// is not zero, whatever the signs of its zeros.
pub proof fn only_moved_pixels_are_marked(
    valid: Vec<bool>,
    motion: Vec<u32>,
    mask: Vec<bool>,
    i: int,
)
    requires
        motion@.len() == 2 * valid@.len(),
        call_ensures(moving_mask, (&valid, &motion), mask),
        0 <= i < valid@.len(),
    ensures
        mask@.len() == valid@.len(),
        !valid@[i] ==> !mask@[i],
        valid@[i] ==> (mask@[i] <==> !((motion@[2 * i] == 0 || motion@[2 * i] == 0x8000_0000) && (
        motion@[2 * i + 1] == 0 || motion@[2 * i + 1] == 0x8000_0000))),
{
    assert(mask@[i] == moved(valid@, motion@, i));
}

/// A network is held against what it adds to. One without a base of its own is
/// held against the best that there is: the high-resolution guides where there
/// are some, else the guides, else none.
pub proof fn networks_meet_their_bases(
    base: ReconstructionBase,
    guides: bool,
    hr_guides: bool,
    chosen: Baseline,
    own: Option<Baseline>,
    lines: Vec<Baseline>,
    pictures: Vec<Picture>,
)
    requires
        base == ReconstructionBase::GuidedBilinear ==> guides,
        base == ReconstructionBase::HighResolutionGuided ==> hr_guides,
        call_ensures(choose_baseline, (base, guides, hr_guides), chosen),
        call_ensures(model_base, (base,), own),
        call_ensures(list_baselines, (guides, hr_guides), lines),
        call_ensures(list_pictures, (guides, hr_guides), pictures),
    ensures
        own matches Some(b) ==> chosen == b,
        own is Some <==> base == ReconstructionBase::GuidedBilinear || base
            == ReconstructionBase::HighResolutionGuided,
        base == ReconstructionBase::Nearest <==> chosen == Baseline::Nearest,
        chosen == Baseline::HighResolutionGuided <==> base
            == ReconstructionBase::HighResolutionGuided || base == ReconstructionBase::Sample
            && hr_guides,
        chosen == Baseline::Guided <==> base == ReconstructionBase::GuidedBilinear || base
            == ReconstructionBase::Sample && guides && !hr_guides,
        lines@.contains(chosen),
        lines@.contains(Baseline::Guided) <==> guides,
        lines@.contains(Baseline::HighResolutionGuided) <==> hr_guides,
        lines@.contains(Baseline::Nearest) && lines@.contains(Baseline::Bilinear),
        pictures@.contains(Picture::Input) && pictures@.contains(Picture::Predicted)
            && pictures@.contains(Picture::Reference),
        forall|b: Baseline|
            #![trigger lines@.contains(b)]
            lines@.contains(b) <==> pictures@.contains(Picture::Base(b)),
{
    baseline_is_reported(base, guides, hr_guides);
    assert(lines@[0] == Baseline::Nearest && lines@[1] == Baseline::Bilinear);
    assert(pictures@[0] == Picture::Input && pictures@[3] == Picture::Predicted && pictures@[4]
        == Picture::Reference);
    assert(pictures@[1] == Picture::Base(Baseline::Nearest));
    assert(pictures@[2] == Picture::Base(Baseline::Bilinear));
    if guides {
        assert(lines@[2] == Baseline::Guided);
        assert(pictures@[5] == Picture::Base(Baseline::Guided));
    }
    if hr_guides {
        assert(lines@[lines@.len() - 1] == Baseline::HighResolutionGuided);
        assert(pictures@[pictures@.len() - 1] == Picture::Base(Baseline::HighResolutionGuided));
    }
    assert forall|b: Baseline|
        #![trigger lines@.contains(b)]
        lines@.contains(b) <==> pictures@.contains(Picture::Base(b)) by {
        match b {
            Baseline::Nearest => {},
            Baseline::Bilinear => {},
            Baseline::Guided => {},
            Baseline::HighResolutionGuided => {},
        }
    }
}

/// No two pictures of a crop go to one file.
pub proof fn pictures_have_files_of_their_own(
    a: Picture,
    b: Picture,
    x: &'static str,
    y: &'static str,
)
    requires
        a != b,
        call_ensures(Picture::file_name, (a,), x),
        call_ensures(Picture::file_name, (b,), y),
    ensures
        x@ != y@,
{
    reveal_strlit("input.png");
    reveal_strlit("nearest.png");
    reveal_strlit("bilinear.png");
    reveal_strlit("guided.png");
    reveal_strlit("hr-guided.png");
    reveal_strlit("predicted.png");
    reveal_strlit("reference.png");
    assert("input.png"@[0] == 'i' && "nearest.png"@[0] == 'n' && "bilinear.png"@[0] == 'b');
    assert("guided.png"@[0] == 'g' && "hr-guided.png"@[0] == 'h' && "predicted.png"@[0] == 'p');
    assert("reference.png"@[0] == 'r');
}

/// Where noise is removed, the network runs once for each level, in their order,
/// and each run hands on to the level of the next; otherwise it runs once and is
/// told no level.
pub proof fn passes_hand_on(
    objective: Objective,
    levels: Vec<usize>,
    passes: Vec<Pass>,
    i: int,
)
    requires
        call_ensures(plan_passes, (objective, &levels), passes),
        0 <= i < passes@.len(),
    ensures
        objective == Objective::Direct ==> passes@.len() == 1 && passes@[0].level is None
            && passes@[0].next is None,
        objective == Objective::Diffusion ==> passes@.len() == levels@.len() && passes@[i].level
            == Some(levels@[i]),
        i + 1 < passes@.len() ==> passes@[i].next is Some && passes@[i].next == passes@[i
            + 1].level,
        i + 1 == passes@.len() ==> passes@[i].next is None,
{
}

/// A pass ends once enough crops are scored and not before, its images are those
/// of its first crop, each crop has noise of its own, and a crop is compared with
/// the frame before exactly if that frame was scored with evidence since the last
/// break of its sequence.
pub proof fn crops_follow_their_frames(
    before: Scoring,
    crop: usize,
    other: usize,
    seed: u64,
    directory: bool,
    task: Option<CropTask>,
    next: Option<CropTask>,
    after: Scoring,
)
    requires
        before.wf(),
        after.wf(),
        after.limit == before.limit,
        after.counted == before.counted + 1,
        crop < before.kept@.len(),
        other < after.kept@.len(),
        call_ensures(Scoring::open_crop, (&before, crop, seed, directory), task),
        call_ensures(Scoring::open_crop, (&after, other, seed, directory), next),
    ensures
        task is Some,
        next is Some <==> before.counted + 1 < before.limit,
        next matches Some(n) ==> !n.pictures && n.seed != task->0.seed && n.compare
            == after.kept@[other as int],
        task->0.pictures ==> directory && before.counted == 0,
        directory && before.counted == 0 ==> task->0.pictures,
        before.counted == 0 ==> task->0.seed == seed,
        task->0.compare == before.kept@[crop as int],
{
}

} // verus!
