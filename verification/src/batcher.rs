//! Training batches: which crops of which samples they hold, and how the slots
//! of a batch are laid out.
use vstd::prelude::*;

use crate::dataset::Layout;
use crate::model::Objective;

verus! {

/// Frequency spread of the timestep embedding: the bits of the `f32` ten
/// thousand.
pub const MAX_PERIOD: u32 = 0x461c_4000;

/// A square of a sample, by its corner.
#[derive(Clone, Copy, Debug, PartialEq, Eq, Structural)]
pub struct Crop {
    pub x: u32,
    pub y: u32,
    pub tile: u32,
}

/// The random numbers of one slot: for its sample, for its crop, and for its
/// noise level.
#[derive(Clone, Copy, Debug, PartialEq, Eq, Structural)]
pub struct SlotDraw {
    pub index: u32,
    pub x: u32,
    pub y: u32,
    pub step: u32,
}

/// What the random numbers of a slot are drawn below.
#[derive(Clone, Copy, Debug, PartialEq, Eq, Structural)]
pub struct SlotBounds {
    pub index: u32,
    pub x: u32,
    pub y: u32,
    /// Noise levels, where noise is trained on.
    pub step: Option<u32>,
}

/// What a slot of a batch shows. It has a noise level only where noise is
/// trained on.
#[derive(Clone, Copy, Debug, PartialEq, Eq, Structural)]
pub struct Slot {
    pub index: usize,
    pub crop: Crop,
    pub step: Option<usize>,
}

/// The values of one slot.
#[derive(Debug)]
pub struct SlotValues<T> {
    pub cond: Vec<T>,
    pub residual: Vec<T>,
    pub noised: Vec<T>,
    pub embedding: Vec<T>,
}

/// The values one training step needs, slot after slot.
#[derive(Debug)]
pub struct Batch<T> {
    pub cond: Vec<T>,
    /// The noised residual. Empty under `Objective::Direct`.
    pub x_t: Vec<T>,
    /// The embedded noise levels. Empty under `Objective::Direct`.
    pub t_emb: Vec<T>,
    /// The clean residual, under either objective.
    pub target: Vec<T>,
}

/// Draws batches from the samples it is allowed to draw from. Everything past
/// these is held out for scoring.
#[derive(Clone, Copy, Debug)]
pub struct Batcher {
    layout: Layout,
    objective: Objective,
    tile: u32,
    /// How many noise levels there are.
    steps: u32,
    start: usize,
    /// How many samples may be drawn.
    count: u32,
}

/// The values of a list of slots, by slot and by place in the slot.
pub open spec fn stacked<T>(out: Seq<T>, parts: Seq<Seq<T>>, width: int) -> bool {
    &&& out.len() == parts.len() * width
    &&& forall|s: int, k: int|
        0 <= s < parts.len() && 0 <= k < width ==> #[trigger] out[s * width + k] == parts[s][k]
}

/// One part of each slot.
pub open spec fn conds<T>(slots: Seq<SlotValues<T>>) -> Seq<Seq<T>> {
    Seq::new(slots.len(), |s: int| slots[s].cond@)
}

/// The clean residual of each slot.
pub open spec fn residuals<T>(slots: Seq<SlotValues<T>>) -> Seq<Seq<T>> {
    Seq::new(slots.len(), |s: int| slots[s].residual@)
}

/// The noised residual of each slot.
pub open spec fn noised_residuals<T>(slots: Seq<SlotValues<T>>) -> Seq<Seq<T>> {
    Seq::new(slots.len(), |s: int| slots[s].noised@)
}

/// The embedded noise level of each slot.
pub open spec fn embeddings<T>(slots: Seq<SlotValues<T>>) -> Seq<Seq<T>> {
    Seq::new(slots.len(), |s: int| slots[s].embedding@)
}

/// Puts the values of one more slot behind those of the others.
fn push_part<T: Copy>(out: &mut Vec<T>, part: &Vec<T>, Ghost(parts): Ghost<Seq<Seq<T>>>, width: usize, s: usize)
    requires
        0 <= s < parts.len(),
        parts[s as int] == part@,
        part.len() == width,
        stacked(old(out)@, parts.take(s as int), width as int),
    ensures
        stacked(final(out)@, parts.take(s + 1), width as int),
{
    let ghost before = out@;
    let ghost w = width as int;
    let mut k: usize = 0;
    while k < width
        invariant
            k <= width == part.len(),
            w == width,
            0 <= s < parts.len(),
            parts[s as int] == part@,
            before.len() == s * w,
            out@ == before + part@.take(k as int),
        decreases width - k,
    {
        out.push(part[k]);
        assert(out@ =~= before + part@.take(k + 1));
        k = k + 1;
    }
    proof {
        assert((s + 1) * w == s * w + w) by (nonlinear_arith);
        assert forall|t: int, k: int| 0 <= t < s + 1 && 0 <= k < w implies #[trigger] out@[t * w
            + k] == parts.take(s + 1)[t][k] by {
            if t < s {
                assert(0 <= t * w + k < s * w) by (nonlinear_arith)
                    requires
                        0 <= t,
                        t + 1 <= s,
                        0 <= k < w,
                ;
                assert(before[t * w + k] == parts.take(s as int)[t][k]);
                assert(out@[t * w + k] == before[t * w + k]);
            } else {
                assert(out@[s * w + k] == part@[k]);
            }
        }
    }
}

impl Batcher {
    /// The samples that may be drawn: where they start and end.
    pub closed spec fn range(self) -> (int, int) {
        (self.start as int, self.start + self.count)
    }

    /// The layout of the samples.
    pub closed spec fn shape(self) -> Layout {
        self.layout
    }

    /// The side of a crop.
    pub closed spec fn side(self) -> u32 {
        self.tile
    }

    /// How many noise levels there are.
    pub closed spec fn levels(self) -> int {
        self.steps as int
    }

    /// Whether noise is trained on.
    pub closed spec fn diffusing(self) -> bool {
        self.objective == Objective::Diffusion
    }

    /// Whether there is something to draw, and a crop fits inside a sample.
    pub open spec fn well_formed(self) -> bool {
        &&& 0 <= self.range().0 < self.range().1 <= usize::MAX
        &&& self.range().1 - self.range().0 <= u32::MAX
        &&& 0 < self.side() <= self.shape().lr_width
        &&& self.side() <= self.shape().lr_height
        &&& self.diffusing() ==> self.levels() > 0
    }

    /// A batcher that draws from the samples from `start` up to `end`.
    pub fn new(
        layout: Layout,
        objective: Objective,
        tile: u32,
        steps: u32,
        start: usize,
        end: usize,
    ) -> (result: Self)
        requires
            start < end,
            end - start <= u32::MAX,
            0 < tile <= layout.lr_width,
            tile <= layout.lr_height,
            objective == Objective::Diffusion ==> steps > 0,
        ensures
            result.well_formed(),
            result.range() == (start as int, end as int),
            result.shape() == layout,
            result.side() == tile,
            result.levels() == steps,
            result.diffusing() == (objective == Objective::Diffusion),
    {
        Batcher { layout, objective, tile, steps, start, count: (end - start) as u32 }
    }

    /// The layout of the samples.
    pub fn layout(&self) -> (result: &Layout)
        ensures
            *result == self.shape(),
    {
        &self.layout
    }

    /// How many places a crop has along each axis.
    pub open spec fn spans(self) -> (int, int) {
        (
            self.shape().lr_width - self.side() + 1,
            self.shape().lr_height - self.side() + 1,
        )
    }

    /// What the random numbers of a slot are drawn below, in the order in which
    /// they are drawn.
    pub fn bounds(&self) -> (result: SlotBounds)
        requires
            self.well_formed(),
        ensures
            result.index == self.range().1 - self.range().0,
            result.x == self.spans().0,
            result.y == self.spans().1,
            match result.step {
                Some(step) => self.diffusing() && step == self.levels(),
                None => !self.diffusing(),
            },
    {
        SlotBounds {
            index: self.count,
            x: self.layout.lr_width - self.tile + 1,
            y: self.layout.lr_height - self.tile + 1,
            step: if self.objective == Objective::Diffusion {
                Some(self.steps)
            } else {
                None
            },
        }
    }

    /// The crop that two random numbers select.
    pub fn random_crop(&self, x: u32, y: u32) -> (result: Crop)
        requires
            self.well_formed(),
        ensures
            result.x == x as int % self.spans().0,
            result.y == y as int % self.spans().1,
            result.tile == self.side(),
            result.x + result.tile <= self.shape().lr_width,
            result.y + result.tile <= self.shape().lr_height,
    {
        let span_x: u32 = self.layout.lr_width - self.tile + 1;
        let span_y: u32 = self.layout.lr_height - self.tile + 1;
        Crop { x: x % span_x, y: y % span_y, tile: self.tile }
    }

    /// What the slot of these random numbers shows.
    pub open spec fn slot_of(self, draw: SlotDraw) -> Slot {
        Slot {
            index: (self.range().0 + draw.index as int % (self.range().1 - self.range().0)) as usize,
            crop: Crop {
                x: (draw.x as int % self.spans().0) as u32,
                y: (draw.y as int % self.spans().1) as u32,
                tile: self.side(),
            },
            step: if self.diffusing() {
                Some((draw.step as int % self.levels()) as usize)
            } else {
                None
            },
        }
    }

    /// Whether a slot shows a crop inside a sample that may be drawn.
    pub open spec fn admits(self, slot: Slot) -> bool {
        &&& self.range().0 <= slot.index < self.range().1
        &&& slot.crop.tile == self.side()
        &&& slot.crop.x + slot.crop.tile <= self.shape().lr_width
        &&& slot.crop.y + slot.crop.tile <= self.shape().lr_height
        &&& slot.step is Some == self.diffusing()
        &&& slot.step matches Some(t) ==> t < self.levels()
    }

    /// Whatever random numbers come, a slot never shows a sample that is held
    /// out, nor anything outside its sample.
    pub proof fn never_past_its_split(self, draw: SlotDraw)
        requires
            self.well_formed(),
        ensures
            self.admits(self.slot_of(draw)),
    {
        let n = self.range().1 - self.range().0;
        assert(0 <= draw.index as int % n < n);
        assert(0 <= draw.x as int % self.spans().0 < self.spans().0);
        assert(0 <= draw.y as int % self.spans().1 < self.spans().1);
        if self.diffusing() {
            assert(0 <= draw.step as int % self.levels() < self.levels());
        }
    }

    /// Numbers that are drawn below their bounds select as they are.
    pub proof fn draws_select(self, draw: SlotDraw)
        requires
            self.well_formed(),
            draw.index < self.range().1 - self.range().0,
            draw.x < self.spans().0,
            draw.y < self.spans().1,
            self.diffusing() ==> draw.step < self.levels(),
        ensures
            self.slot_of(draw).index == self.range().0 + draw.index,
            self.slot_of(draw).crop.x == draw.x,
            self.slot_of(draw).crop.y == draw.y,
            self.slot_of(draw).step == if self.diffusing() {
                Some(draw.step as usize)
            } else {
                None
            },
    {
        let n = self.range().1 - self.range().0;
        vstd::arithmetic::div_mod::lemma_small_mod(draw.index as nat, n as nat);
        vstd::arithmetic::div_mod::lemma_small_mod(draw.x as nat, self.spans().0 as nat);
        vstd::arithmetic::div_mod::lemma_small_mod(draw.y as nat, self.spans().1 as nat);
        if self.diffusing() {
            vstd::arithmetic::div_mod::lemma_small_mod(draw.step as nat, self.levels() as nat);
        }
    }

    /// Chooses the slots of a batch.
    pub fn plan(&self, draws: &Vec<SlotDraw>) -> (result: Vec<Slot>)
        requires
            self.well_formed(),
        ensures
            result.len() == draws.len(),
            forall|s: int|
                0 <= s < draws.len() ==> #[trigger] result@[s] == self.slot_of(draws@[s])
                    && self.admits(result@[s]),
    {
        let mut slots: Vec<Slot> = Vec::new();
        let mut s: usize = 0;
        while s < draws.len()
            invariant
                s <= draws.len(),
                self.well_formed(),
                slots.len() == s,
                forall|t: int|
                    0 <= t < s ==> #[trigger] slots@[t] == self.slot_of(draws@[t]) && self.admits(
                        slots@[t],
                    ),
            decreases draws.len() - s,
        {
            let draw: SlotDraw = draws[s];
            proof {
                self.never_past_its_split(draw);
            }
            let index: usize = self.start + (draw.index % self.count) as usize;
            let crop = self.random_crop(draw.x, draw.y);
            let step: Option<usize> = if self.objective == Objective::Diffusion {
                Some((draw.step % self.steps) as usize)
            } else {
                None
            };
            slots.push(Slot { index, crop, step });
            s = s + 1;
        }
        slots
    }

    /// Builds one batch out of its slots. Every slot has its own place in every
    /// list.
    pub fn next<T: Copy>(&self, slots: &Vec<SlotValues<T>>, widths: (usize, usize, usize)) -> (result: Batch<T>)
        requires
            forall|s: int|
                0 <= s < slots.len() ==> {
                    &&& (#[trigger] slots@[s]).cond.len() == widths.0
                    &&& slots@[s].residual.len() == widths.1
                    &&& self.diffusing() ==> slots@[s].noised.len() == widths.1
                        && slots@[s].embedding.len() == widths.2
                },
        ensures
            stacked(result.cond@, conds(slots@), widths.0 as int),
            stacked(result.target@, residuals(slots@), widths.1 as int),
            self.diffusing() ==> stacked(
                result.x_t@,
                noised_residuals(slots@),
                widths.1 as int,
            ) && stacked(result.t_emb@, embeddings(slots@), widths.2 as int),
            !self.diffusing() ==> result.x_t.len() == 0 && result.t_emb.len() == 0,
    {
        let diffusing = self.objective == Objective::Diffusion;
        let mut cond: Vec<T> = Vec::new();
        let mut target: Vec<T> = Vec::new();
        let mut x_t: Vec<T> = Vec::new();
        let mut t_emb: Vec<T> = Vec::new();
        let mut s: usize = 0;
        proof {
            assert(conds(slots@).take(0).len() == 0);
            assert(residuals(slots@).take(0).len() == 0);
            assert(noised_residuals(slots@).take(0).len() == 0);
            assert(embeddings(slots@).take(0).len() == 0);
        }
        while s < slots.len()
            invariant
                s <= slots.len(),
                diffusing == self.diffusing(),
                forall|s: int|
                    0 <= s < slots.len() ==> {
                        &&& (#[trigger] slots@[s]).cond.len() == widths.0
                        &&& slots@[s].residual.len() == widths.1
                        &&& self.diffusing() ==> slots@[s].noised.len() == widths.1
                            && slots@[s].embedding.len() == widths.2
                    },
                stacked(cond@, conds(slots@).take(s as int), widths.0 as int),
                stacked(target@, residuals(slots@).take(s as int), widths.1 as int),
                diffusing ==> stacked(
                    x_t@,
                    noised_residuals(slots@).take(s as int),
                    widths.1 as int,
                ) && stacked(t_emb@, embeddings(slots@).take(s as int), widths.2 as int),
                !diffusing ==> x_t.len() == 0 && t_emb.len() == 0,
            decreases slots.len() - s,
        {
            let slot = &slots[s];
            push_part(&mut cond, &slot.cond, Ghost(conds(slots@)), widths.0, s);
            push_part(&mut target, &slot.residual, Ghost(residuals(slots@)), widths.1, s);
            if diffusing {
                push_part(&mut x_t, &slot.noised, Ghost(noised_residuals(slots@)), widths.1, s);
                push_part(&mut t_emb, &slot.embedding, Ghost(embeddings(slots@)), widths.2, s);
            }
            s = s + 1;
        }
        proof {
            assert(conds(slots@).take(s as int) =~= conds(slots@));
            assert(residuals(slots@).take(s as int) =~= residuals(slots@));
            assert(noised_residuals(slots@).take(s as int) =~= noised_residuals(slots@));
            assert(embeddings(slots@).take(s as int) =~= embeddings(slots@));
        }
        Batch { cond, x_t, t_emb, target }
    }
}

/// Whatever random numbers come, a batch shows only samples of its side of a
/// split, each by a whole crop of it, with a noise level where noise is trained
/// on. And nothing is out of reach: every sample of that side, every place of a
/// crop and every level has numbers that select it.
pub proof fn batches_stay_on_their_side(
    layout: Layout,
    objective: Objective,
    tile: u32,
    steps: u32,
    start: usize,
    end: usize,
    batcher: Batcher,
    draws: Vec<SlotDraw>,
    slots: Vec<Slot>,
    s: int,
)
    requires
        start < end,
        end - start <= u32::MAX,
        0 < tile <= layout.lr_width,
        tile <= layout.lr_height,
        objective == Objective::Diffusion ==> steps > 0,
        call_ensures(Batcher::new, (layout, objective, tile, steps, start, end), batcher),
        call_ensures(Batcher::plan, (&batcher, &draws), slots),
        0 <= s < draws@.len(),
    ensures
        slots@.len() == draws@.len(),
        start <= slots@[s].index < end,
        slots@[s].crop.tile == tile,
        slots@[s].crop.x + tile <= layout.lr_width,
        slots@[s].crop.y + tile <= layout.lr_height,
        slots@[s].step is Some <==> objective == Objective::Diffusion,
        slots@[s].step matches Some(t) ==> t < steps,
        draws@[s].index < end - start ==> slots@[s].index == start + draws@[s].index,
        draws@[s].x + tile <= layout.lr_width ==> slots@[s].crop.x == draws@[s].x,
        draws@[s].y + tile <= layout.lr_height ==> slots@[s].crop.y == draws@[s].y,
        objective == Objective::Diffusion && draws@[s].step < steps ==> slots@[s].step == Some(
            draws@[s].step as usize,
        ),
{
    let d = draws@[s];
    batcher.never_past_its_split(d);
    assert(slots@[s] == batcher.slot_of(d));
    if d.index < end - start {
        vstd::arithmetic::div_mod::lemma_small_mod(d.index as nat, (end - start) as nat);
    }
    if d.x + tile <= layout.lr_width {
        vstd::arithmetic::div_mod::lemma_small_mod(d.x as nat, batcher.spans().0 as nat);
    }
    if d.y + tile <= layout.lr_height {
        vstd::arithmetic::div_mod::lemma_small_mod(d.y as nat, batcher.spans().1 as nat);
    }
    if objective == Objective::Diffusion && d.step < steps {
        vstd::arithmetic::div_mod::lemma_small_mod(d.step as nat, steps as nat);
    }
}

/// Every value of every slot of a batch is where its slot is: conditions and clean
/// residuals always, noised residuals and levels only where noise is trained on.
pub proof fn slots_keep_their_values<T: Copy>(
    layout: Layout,
    objective: Objective,
    tile: u32,
    steps: u32,
    start: usize,
    end: usize,
    batcher: Batcher,
    slots: Vec<SlotValues<T>>,
    widths: (usize, usize, usize),
    batch: Batch<T>,
    s: int,
    k: int,
)
    requires
        call_ensures(Batcher::new, (layout, objective, tile, steps, start, end), batcher),
        call_ensures(Batcher::next::<T>, (&batcher, &slots, widths), batch),
        0 <= s < slots@.len(),
        0 <= k,
    ensures
        batch.cond@.len() == slots@.len() * widths.0,
        batch.target@.len() == slots@.len() * widths.1,
        k < widths.0 ==> batch.cond@[s * widths.0 + k] == slots@[s].cond@[k],
        k < widths.1 ==> batch.target@[s * widths.1 + k] == slots@[s].residual@[k],
        objective == Objective::Diffusion ==> {
            &&& batch.x_t@.len() == slots@.len() * widths.1
            &&& batch.t_emb@.len() == slots@.len() * widths.2
            &&& k < widths.1 ==> batch.x_t@[s * widths.1 + k] == slots@[s].noised@[k]
            &&& k < widths.2 ==> batch.t_emb@[s * widths.2 + k] == slots@[s].embedding@[k]
        },
        objective == Objective::Direct ==> batch.x_t@.len() == 0 && batch.t_emb@.len() == 0,
{
    if k < widths.0 {
        assert(batch.cond@[s * widths.0 + k] == conds(slots@)[s][k]);
    }
    if k < widths.1 {
        assert(batch.target@[s * widths.1 + k] == residuals(slots@)[s][k]);
    }
    if objective == Objective::Diffusion {
        if k < widths.1 {
            assert(batch.x_t@[s * widths.1 + k] == noised_residuals(slots@)[s][k]);
        }
        if k < widths.2 {
            assert(batch.t_emb@[s * widths.2 + k] == embeddings(slots@)[s][k]);
        }
    }
}

} // verus!
