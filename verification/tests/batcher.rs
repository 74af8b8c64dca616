use ommatidia_tools::batcher::{Batcher, SlotDraw, SlotValues, MAX_PERIOD};
use ommatidia_tools::dataset::{InputSource, Layout, Plane, PlaneSet};
use ommatidia_tools::model::Objective;

fn layout(extent: u32) -> Layout {
    Layout {
        scale: 2,
        lr_width: extent,
        lr_height: extent,
        lr_source: InputSource::RawRestir,
        lr_planes: PlaneSet::new().with(Plane::Color),
        hr_planes: PlaneSet::new().with(Plane::Color),
    }
}

struct Numbers(u64);

impl Numbers {
    fn next(&mut self) -> u32 {
        self.0 = self
            .0
            .wrapping_mul(6364136223846793005)
            .wrapping_add(1442695040888963407);
        (self.0 >> 33) as u32
    }

    fn draws(&mut self, count: usize) -> Vec<SlotDraw> {
        (0..count)
            .map(|_| SlotDraw {
                index: self.next(),
                x: self.next(),
                y: self.next(),
                step: self.next(),
            })
            .collect()
    }
}

fn compress(x: f32) -> f32 {
    x / (1.0 + x)
}

/// Slots whose conditioning is the compressed radiance of their sample: sample
/// `i` is filled with the radiance `i`.
fn values(batcher: &Batcher, draws: &Vec<SlotDraw>) -> Vec<SlotValues<f32>> {
    batcher
        .plan(draws)
        .iter()
        .map(|slot| SlotValues {
            cond: vec![compress(slot.index as f32); 4],
            residual: vec![0.0; 2],
            noised: vec![slot.step.unwrap_or(0) as f32; 2],
            embedding: vec![1.0; 3],
        })
        .collect()
}

#[test]
fn the_batcher_never_reaches_past_its_split() {
    const COUNT: usize = 8;
    const TRAIN: usize = 6;

    let layout = layout(8);
    let batcher = Batcher::new(layout, Objective::Direct, layout.lr_width, 100, 0, TRAIN);
    let mut numbers = Numbers(13);

    // The conditioning is the compressed radiance, so the highest value a
    // legitimate batch can carry comes from sample TRAIN - 1.
    let ceiling = compress((TRAIN - 1) as f32);
    let mut seen: f32 = 0.0;
    for _ in 0..400 {
        let slots = values(&batcher, &numbers.draws(3));
        let batch = batcher.next(&slots, (4, 2, 3));
        seen = seen.max(batch.cond.iter().copied().fold(0.0, f32::max));
    }
    assert!(
        seen <= ceiling + 1e-4,
        "a batch carried radiance {seen}, above the {ceiling} the training \
         split can produce, so it reached into the held-out samples"
    );
    // And it did draw from the top of the training split, so the bound is
    // tight rather than accidentally satisfied.
    assert!(
        seen > compress((TRAIN - 2) as f32),
        "the batcher never drew the last training sample, so this proves \
         nothing"
    );
    assert!(TRAIN < COUNT);
}

/// Slots of a tile of 8 texels at scale 2: three planes of conditioning, twelve of
/// a residual within its bound, the same with noise mixed in, and sixteen numbers
/// for the noise level.
fn noisy(batcher: &Batcher, draws: &Vec<SlotDraw>, bound: f32) -> Vec<SlotValues<f32>> {
    let mut numbers = Numbers(1);
    let mut signed = move || numbers.next() as f32 / (1u32 << 30) as f32 - 1.0;
    batcher
        .plan(draws)
        .iter()
        .map(|slot| {
            let residual: Vec<f32> = (0..768).map(|_| 0.9 * bound * signed()).collect();
            let level = slot.step.unwrap_or(0) as f32 / 100.0;
            SlotValues {
                cond: (0..192).map(|_| signed().abs()).collect(),
                noised: residual.iter().map(|r| r + 4.0 * level * signed()).collect(),
                residual,
                embedding: (0..16).map(|k| (level * (k + 1) as f32).sin()).collect(),
            }
        })
        .collect()
}

#[test]
fn diffusion_batches_are_shaped_and_corrupted() {
    let batcher = Batcher::new(layout(16), Objective::Diffusion, 8, 100, 0, 4);
    let bound = 1.0;
    let slots = noisy(&batcher, &Numbers(7).draws(3), bound);
    let batch = batcher.next(&slots, (192, 768, 16));

    assert_eq!(batch.cond.len(), 3 * 192);
    assert_eq!(batch.x_t.len(), 3 * 768);
    assert_eq!(batch.target.len(), 3 * 768);
    assert_eq!(batch.t_emb.len(), 3 * 16);
    assert!(batch.cond.iter().all(|v| v.is_finite()));
    assert!(batch.x_t.iter().all(|v| v.is_finite()));
    assert!(
        batch.target.iter().all(|v| v.abs() <= bound),
        "the target is not a clean residual, it left the bound {bound}"
    );
    let extreme = batch.x_t.iter().filter(|v| v.abs() > bound).count();
    assert!(extreme > 0, "x_t does not look corrupted");
    assert_ne!(batch.x_t, batch.target, "x_t should be the noised target");
    // Slots should draw independent timesteps rather than sharing one.
    assert_ne!(
        batch.t_emb[..16],
        batch.t_emb[16..32],
        "every slot should get its own noise level"
    );
}

#[test]
fn direct_batches_carry_the_residual_and_no_noise() {
    let batcher = Batcher::new(layout(16), Objective::Direct, 8, 100, 0, 4);
    let slots = noisy(&batcher, &Numbers(7).draws(3), 1.0);
    let batch = batcher.next(&slots, (192, 768, 16));

    assert!(batch.x_t.is_empty(), "direct regression takes no x_t");
    assert!(
        batch.t_emb.is_empty(),
        "direct regression takes no timestep"
    );
    assert_eq!(batch.target.len(), 3 * 768);
    assert!(
        batch.target.iter().all(|v| v.abs() < 1.0),
        "the residual left the unit interval"
    );
}

#[test]
fn batches_are_reproducible_from_a_seed() {
    let make = || {
        let batcher = Batcher::new(layout(16), Objective::Diffusion, 8, 100, 0, 4);
        let slots = values(&batcher, &Numbers(42).draws(3));
        batcher.next(&slots, (4, 2, 3))
    };
    assert_eq!(make().cond, make().cond);
    assert_eq!(make().x_t, make().x_t);
}

#[test]
fn slots_have_their_own_places() {
    let slot = |k: u32| SlotValues {
        cond: vec![k, k + 1],
        residual: vec![10 + k],
        noised: vec![20 + k],
        embedding: vec![30 + k],
    };
    let slots = vec![slot(0), slot(5)];
    let diffusing = Batcher::new(layout(8), Objective::Diffusion, 8, 10, 2, 4);
    let batch = diffusing.next(&slots, (2, 1, 1));
    assert_eq!(batch.cond, [0, 1, 5, 6]);
    assert_eq!(batch.target, [10, 15]);
    assert_eq!(batch.x_t, [20, 25]);
    assert_eq!(batch.t_emb, [30, 35]);
    let direct = Batcher::new(layout(8), Objective::Direct, 8, 10, 2, 4);
    let batch = direct.next(&slots, (2, 1, 1));
    assert_eq!(batch.target, [10, 15]);
    assert!(batch.x_t.is_empty(), "direct regression takes no x_t");
    assert!(
        batch.t_emb.is_empty(),
        "direct regression takes no timestep"
    );
    assert_eq!(direct.layout().lr_width, 8);
    assert_eq!(f32::from_bits(MAX_PERIOD), 10_000.0);
}

#[test]
fn crops_stay_inside_their_sample() {
    let batcher = Batcher::new(layout(16), Objective::Diffusion, 8, 100, 3, 7);
    let draw = SlotDraw {
        index: 6,
        x: 10,
        y: 8,
        step: 205,
    };
    let slot = batcher.plan(&vec![draw])[0];
    assert_eq!(slot.index, 3 + 2);
    assert_eq!((slot.crop.x, slot.crop.y, slot.crop.tile), (1, 8, 8));
    assert_eq!(slot.step, Some(5));
    assert_eq!(batcher.random_crop(9, 0).x, 0);
}

#[test]
fn draws_have_bounds() {
    let batcher = Batcher::new(layout(16), Objective::Diffusion, 6, 100, 3, 8);
    let bounds = batcher.bounds();
    assert_eq!((bounds.index, bounds.x, bounds.y, bounds.step), (5, 11, 11, Some(100)));
    let draw = SlotDraw { index: 4, x: 10, y: 0, step: 99 };
    let slot = batcher.plan(&vec![draw])[0];
    assert_eq!((slot.index, slot.crop.x, slot.crop.y, slot.step), (7, 10, 0, Some(99)));
    let direct = Batcher::new(layout(16), Objective::Direct, 16, 100, 0, 1);
    assert_eq!(direct.bounds().step, None);
    assert_eq!(direct.bounds().x, 1);
}
