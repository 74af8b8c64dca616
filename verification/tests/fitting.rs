use ommatidia_tools::candidates::{highest, legal, lowest, pack, pair_up, pixels, points, read_point};
use ommatidia_tools::evaluator::{
    choose_baseline, list_baselines, list_pictures, model_base, moving_mask, plan_passes, widest,
    Baseline, Comparison, Next, Picture, Scoring,
};
use ommatidia_tools::fit::{
    check_labels, classes, find_broken, find_contexts, find_fitting, find_peak, find_task,
    fit_pixels, gradient_probes, hit_targets, parse, picture_fits, plan_fit, reports_step, take_marked,
    transpose, FitError, RunError, Task,
};
use ommatidia_tools::model::{Objective, ReconstructionBase};
use ommatidia_tools::options::{Fault, Word};
use ommatidia_tools::selector::{
    find_error, find_logits, frames_to_run, hull_fits, mixture_terms, probe_logit, probe_parameters,
    sequence_start, spread_weights, Arm, Hull, NodeFacts, Parameter, ProbeError, ARMS,
    HEAD, HULL_ROUNDS,
};

fn words(list: &[&str]) -> Vec<Word> {
    list.iter()
        .map(|text| Word {
            text: text.to_string(),
            real: Err("no number".into()),
            device: Err("no device".into()),
        })
        .collect()
}

fn bits(values: &[f32]) -> Vec<u32> {
    values.iter().map(|v| v.to_bits()).collect()
}

fn keys(values: &[f64]) -> Vec<u64> {
    values.iter().map(|v| v.to_bits()).collect()
}

#[test]
fn tasks_are_found_by_name() {
    for task in [
        Task::SelectorLobes,
        Task::SelectorRgb,
        Task::SourceDepth,
        Task::VolumeDepth,
        Task::SurfaceAppearance,
    ] {
        assert_eq!(find_task(task.name()), Some(task));
    }
    assert_eq!(find_task("other"), None);
    assert!(Task::SelectorRgb.fits_selector());
    assert!(!Task::SourceDepth.fits_selector());
    assert_eq!(
        gradient_probes(Task::SourceDepth),
        ["field.visibility.weight", "adapter.rgb_rays"]
    );
    assert_eq!(gradient_probes(Task::SurfaceAppearance)[0], "field.appearance.out.weight");
}

#[test]
fn requests_are_checked() {
    let list = ["--task", "source-depth", "--data", "d", "--out", "o"];
    let request = parse(&words(&list), true, false).unwrap();
    assert_eq!(request.task, Task::SourceDepth);
    assert!(matches!(
        parse(&words(&list), true, true),
        Err(FitError::Overwrite)
    ));
    assert!(matches!(
        parse(&words(&["--task", "odd"]), true, false),
        Err(FitError::Request)
    ));
    assert!(matches!(
        parse(&words(&["--help"]), true, false),
        Err(FitError::Line(Fault::Help))
    ));
}

#[test]
fn steps_are_reported_sparsely() {
    assert!(reports_step(0, 100));
    assert!(reports_step(99, 100));
    assert_eq!(find_broken(&bits(&[1.0, f32::NAN, 2.0])), Some(1));
    assert_eq!(find_broken(&bits(&[1.0])), None);
    assert!(picture_fits(&bits(&[1.0, 2.0, 3.0]), 1, 1));
    assert!(!picture_fits(&bits(&[1.0, 2.0]), 1, 1));
}

#[test]
fn classes_are_counted_by_their_peak() {
    assert_eq!(transpose(&[1, 2, 3, 4, 5, 6], 2, 3), [1, 4, 2, 5, 3, 6]);
    // The last of equal peaks.
    assert_eq!(find_peak(&bits(&[0.5, 0.5, 0.1]), 0, 3), 1);
    let prob = bits(&[0.1, 0.9, 0.8, 0.2, 0.5, 0.1]);
    let labels = bits(&[0.0, 1.0, 0.0, 1.0, 0.0, 0.0]);
    let counted = classes(&prob, &labels, 2, 3);
    assert_eq!((counted.valid, counted.correct), (2, 1));
}

#[test]
fn fits_leave_a_camera() {
    assert_eq!(find_contexts(3, 7), [0, 2, 4]);
    assert_eq!(find_fitting(&vec![0, 2, 4], 7), Some(1));
    let pixels = fit_pixels(16, 16).unwrap();
    assert_eq!(pixels.len(), 64);
    let plan = plan_fit(&vec![true; 7], 16, 16).unwrap();
    assert_eq!(plan.contexts, [0, 2, 4]);
    assert_eq!(plan.fitting, 1);
    assert_eq!(plan.pixels, pixels);
    assert_eq!(
        plan_fit(&vec![true; 3], 16, 16).unwrap_err(),
        RunError::Records
    );
    assert_eq!(
        plan_fit(&vec![false; 7], 16, 16).unwrap_err(),
        RunError::NoSurface
    );
    assert_eq!(
        plan_fit(&vec![true; 7], 4, 4).unwrap_err(),
        RunError::Extent
    );
    assert!(fit_pixels(8, 1).is_none() && fit_pixels(7, 64).is_none());
    let mut least = fit_pixels(8, 8).unwrap();
    least.dedup();
    assert_eq!(least, (0..64).collect::<Vec<_>>());
    assert_eq!(check_labels(0, 1, 1), Err(RunError::SourceLabels));
    assert_eq!(check_labels(1, 0, 1), Err(RunError::VolumeLabels));
    assert_eq!(check_labels(1, 1, 0), Err(RunError::NoHits));
    assert_eq!(check_labels(1, 1, 1), Ok(()));
    let targets = hit_targets(&vec![true, false], &vec![1, 0], &[1, 2, 3, 4, 5, 6], 0, 9);
    assert_eq!(targets.rgb, [4, 5, 6, 0, 0, 0]);
    assert_eq!(targets.mask, [9, 9, 9, 0, 0, 0]);
    assert_eq!(targets.valid, 1);
    let (blank, mark) = (0.0f32.to_bits(), 1.5f32.to_bits());
    let seen = bits(&[0.1, 0.2, 0.3, 0.4, 0.5, 0.6]);
    let targets = hit_targets(&vec![false, true], &vec![1, 0], &seen, blank, mark);
    assert_eq!(take_marked(&[1, 2, 3, 4, 5, 6], &targets.mask), [4, 5, 6]);
    assert_eq!(take_marked(&targets.rgb, &targets.mask), bits(&[0.1, 0.2, 0.3]));
}

#[test]
fn candidates_stand_in_their_places() {
    // One scale and the history, two pixels.
    let spatial: Vec<i32> = (0..12).collect();
    let history: Vec<i32> = (100..112).collect();
    assert_eq!(read_point(&spatial, &history, 1, 2, 0, 1, 1), (7, 9, 11));
    assert_eq!(
        points(&spatial, &history, 1, 2, 0, 0),
        [(0, 2, 4), (100, 102, 104)]
    );
    let prior = bits(&[1.0, 0.0, 0.5, 0.5, 0.0, 0.0, 1.0, 1.0]);
    assert_eq!(legal(&prior, 2, 2, 0, 0), [0]);
    assert_eq!(legal(&prior, 2, 2, 1, 0), [0, 1]);
    let terms = mixture_terms(&prior, 2, 2, 0, 1);
    assert_eq!(terms.len(), 2);
    assert!(terms.iter().all(|t| !t.active));
    assert_eq!(
        pair_up(&vec![1, 2], &vec![3, 4]),
        [(1, 3), (1, 4), (2, 3), (2, 4)]
    );
    let errors = keys(&[3.0, 1.0, 1.0]);
    assert_eq!(lowest(&vec![0, 2, 1], &errors), Some(2));
    assert_eq!(lowest(&vec![], &errors), None);
    assert_eq!(highest(&keys(&[1.0, 3.0, 3.0, 2.0])), Some(2));
    assert_eq!(highest(&vec![]), None);
}

#[test]
fn packing_is_undone() {
    let table = [5, 3, 1, 4, 2, 0];
    let rgb = [10, 11, 12, 13, 14, 15];
    let packed = pack(&rgb, &table, 2, vec![0; 6]);
    assert_eq!(pixels(&packed, &table, 2), rgb);
}

#[test]
fn selectors_are_probed_at_their_head() {
    let node = |id, parameter: Option<&str>, inputs: &[u32], convolution| NodeFacts {
        id,
        parameter: parameter.map(str::to_string),
        inputs: inputs.to_vec(),
        convolution,
    };
    let mut nodes = vec![
        node(0, None, &[], false),
        node(1, Some(HEAD), &[], false),
        node(2, None, &[0, 1], true),
    ];
    assert_eq!(find_logits(&nodes), Ok(2));
    nodes.push(node(3, None, &[2, 1], true));
    assert_eq!(find_logits(&nodes), Err(ProbeError::Changed));
    assert_eq!(find_logits(&vec![]), Err(ProbeError::NoHead));
    let native = || {
        vec![Parameter {
            name: "a".into(),
            len: 3,
        }]
    };
    let kept = probe_parameters(native(), false, 4, 6);
    assert_eq!((kept.len(), kept[0].len), (1, 3));
    let free = probe_parameters(native(), true, 4, 6);
    assert_eq!(free.len(), 1);
    assert_eq!(free[0].name, "fit.logits");
    assert_eq!(free[0].len, 48);
    assert_eq!(sequence_start(9, 4), 8);
    assert_eq!(frames_to_run(9, 10, 4), Some((8, 9)));
    assert_eq!(frames_to_run(9, 10, 0), Some((9, 9)));
    assert_eq!(frames_to_run(10, 10, 4), None);
    assert_eq!(ARMS.map(Arm::name), ["free-logits", "network"]);
    assert_eq!(ARMS.map(Arm::is_free), [true, false]);
    assert_eq!(ARMS.map(|arm| f32::from_bits(arm.rate())), [0.03, 0.001]);
    assert_eq!(Arm::FreeLogits.gradient_probes(), ["fit.logits"]);
    assert_eq!(
        Arm::Network.gradient_probes(),
        ["head.lobe_candidates", "core.up0", "adapter.observation"]
    );
    assert_ne!(probe_logit(0), probe_logit(1));
    assert!(find_error(4, 1, 2, 3, false) < 24);
}

#[test]
fn hulls_drop_vertices_without_weight() {
    let mut hull = Hull::new();
    assert_eq!(hull.active, [0]);
    assert!(hull.advance(3, false, &bits(&[1.0]), 5));
    assert_eq!(hull.active, [0, 3]);
    assert!(hull.advance(4, false, &bits(&[0.0, 1.0]), 5));
    assert_eq!(hull.active, [3, 4]);
    assert!(!hull.advance(3, false, &bits(&[0.5, 0.5]), 5));
    assert!(!hull.advance(1, true, &bits(&[0.5, 0.5]), 5));
    assert_eq!(hull.rounds, 2);
    assert!(hull.rounds < HULL_ROUNDS);
    assert_eq!(
        spread_weights(&hull.active, &bits(&[0.25, 0.75]), 5),
        bits(&[0.0, 0.0, 0.0, 0.25, 0.75])
    );
    let origin = (0, 0, 0);
    assert!(hull_fits(&vec![origin], origin));
    assert!(!hull_fits(&vec![], origin));
    assert!(!hull_fits(&vec![(f32::NAN.to_bits(), 0, 0)], origin));
}

#[test]
fn baselines_follow_what_is_recorded() {
    let choose = |base, guides, high| choose_baseline(base, guides, high);
    assert_eq!(
        choose(ReconstructionBase::GuidedBilinear, true, false),
        Baseline::Guided
    );
    assert_eq!(
        choose(ReconstructionBase::HighResolutionGuided, true, true),
        Baseline::HighResolutionGuided
    );
    assert_eq!(model_base(ReconstructionBase::Sample), None);
    assert_eq!(model_base(ReconstructionBase::Nearest), None);
    assert_eq!(
        model_base(ReconstructionBase::GuidedBilinear),
        Some(Baseline::Guided)
    );
    assert_eq!(Baseline::HighResolutionGuided.name(), "HR guide");
    assert_eq!(widest(&vec![3, 9, 4]), 9);
    assert_eq!(
        moving_mask(&vec![true, true, false], &bits(&[0.0, 0.0, 1.0, 0.0, 2.0, 2.0])),
        [false, true, false]
    );
}

#[test]
fn reconstructions_walk_down_the_noise() {
    assert_eq!(plan_passes(Objective::Direct, &vec![9, 5]).len(), 1);
    let passes: Vec<_> = plan_passes(Objective::Diffusion, &vec![9, 5, 0])
        .iter()
        .map(|p| (p.level, p.next))
        .collect();
    assert_eq!(
        passes,
        [
            (Some(9), Some(5)),
            (Some(5), Some(0)),
            (Some(0), None)
        ]
    );
}

#[test]
fn crops_are_scored_until_the_limit() {
    assert!(Scoring::new(0, 3).is_none());
    let mut scoring = Scoring::new(1, 2).unwrap();
    assert_eq!(scoring.open_record(true, true), Next::Score);
    let task = scoring.open_crop(0, 7, true).unwrap();
    assert_eq!((task.seed, task.pictures, task.compare), (7, true, false));
    let evidence = Comparison {
        network: Some(4),
        base: Some(4),
        moving_network: None,
        moving_base: Some(1),
    };
    scoring.close_crop(0, Some(evidence));
    assert_eq!(scoring.pair_values, 0);
    let task = scoring.open_crop(0, 7, true).unwrap();
    assert_eq!((task.seed, task.pictures, task.compare), (8, false, true));
    scoring.close_crop(0, Some(evidence));
    assert!(scoring.open_crop(0, 7, true).is_none());
    assert!(scoring.scored());
    assert_eq!(scoring.pair_values, 4);
    assert_eq!(scoring.moving_values, 0);
    assert_eq!(scoring.open_record(false, true), Next::Skip);
    assert_eq!(scoring.open_record(true, false), Next::Stop);
}

#[test]
fn reports_hold_what_was_compared() {
    let mut scoring = Scoring::new(2, 8).unwrap();
    assert_eq!(scoring.temporal_report(), (false, false));
    let still = Comparison {
        network: Some(6),
        base: Some(6),
        moving_network: None,
        moving_base: None,
    };
    let moving = Comparison {
        moving_network: Some(2),
        moving_base: Some(2),
        ..still
    };
    scoring.close_crop(1, Some(moving));
    assert_eq!(scoring.temporal_report(), (false, false));
    scoring.close_crop(1, Some(still));
    assert_eq!(scoring.temporal_report(), (true, false));
    scoring.close_crop(1, Some(moving));
    assert_eq!(scoring.temporal_report(), (true, true));
    assert_eq!((scoring.pairs, scoring.pair_values, scoring.moving_values), (2, 12, 2));
}

#[test]
fn crops_draw_noise_of_their_own() {
    let mut scoring = Scoring::new(1, 3).unwrap();
    let mut seeds = Vec::new();
    while let Some(task) = scoring.open_crop(0, u64::MAX, false) {
        seeds.push(task.seed);
        scoring.close_crop(0, None);
    }
    assert_eq!(seeds, [u64::MAX, 0, 1]);
}

#[test]
fn pictures_follow_the_guides() {
    let names = |guides, hr_guides| -> Vec<&str> {
        list_pictures(guides, hr_guides)
            .into_iter()
            .map(|picture| picture.file_name())
            .collect()
    };
    let plain = ["input.png", "nearest.png", "bilinear.png", "predicted.png", "reference.png"];
    assert_eq!(names(false, false), plain);
    assert_eq!(names(true, true)[5..], ["guided.png", "hr-guided.png"]);
    assert_eq!(
        list_pictures(false, true)[5],
        Picture::Base(Baseline::HighResolutionGuided)
    );
    let lines: Vec<&str> = list_baselines(true, true).into_iter().map(Baseline::name).collect();
    assert_eq!(lines, ["nearest", "bilinear", "guided", "HR guide"]);
    assert_eq!(list_baselines(false, true).len(), 3);
    let held = choose_baseline(ReconstructionBase::Sample, true, false);
    assert!(list_baselines(true, false).contains(&held));
}
