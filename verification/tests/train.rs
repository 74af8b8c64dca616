use ommatidia_tools::dataset::{InputSource, Layout, Plane, PlaneSet};
use ommatidia_tools::model::{Features, Objective, Prediction, ReconstructionBase};
use ommatidia_tools::options::{Fault, Word};
use ommatidia_tools::schedule::{
    check_base, check_start, choose_graph, clamp_tile, conditioning_planes, has_guides,
    level_multipliers, plan_step, spatial_probes, temporal_probes, validate_input_source,
    GraphChoice, Split, StartError, StepPlan,
};
use ommatidia_tools::train::{parse_from, Args, ArgsError, USAGE};

fn word(text: &str) -> Word {
    Word {
        text: text.into(),
        real: text
            .parse::<f32>()
            .map(f32::to_bits)
            .map_err(|e| e.to_string()),
        device: text.parse::<u32>().map_err(|e| e.to_string()),
    }
}

fn parse(words: &[&str]) -> Result<Args, ArgsError> {
    parse_from(&words.iter().map(|w| word(w)).collect())
}

fn layout(source: InputSource) -> Layout {
    Layout {
        scale: 2,
        lr_width: 8,
        lr_height: 8,
        lr_source: source,
        lr_planes: PlaneSet::new().with(Plane::Color),
        hr_planes: PlaneSet::new().with(Plane::Color),
    }
}

#[test]
fn every_documented_flag_is_parsed() {
    // A value that parses as a number, a float, and a path alike.
    const VALUE: &str = "1";
    for line in USAGE.lines() {
        let trimmed = line.trim_start();
        let Some(rest) = trimmed.strip_prefix("--") else {
            continue;
        };
        let flag = format!("--{}", rest.split_whitespace().next().unwrap());
        if flag == "--help" {
            continue; // exits the process
        }
        // Flags whose value is constrained beyond "parses as a number".
        // Arity is not listed: a flag is tried with a value and then
        // without, so a new switch needs no entry here to stay covered.
        let candidates: Vec<Vec<&str>> = match flag.as_str() {
            "--objective" => vec![vec!["--objective", "direct"]],
            "--prediction" => vec![
                vec!["--prediction", "subpixel"],
                vec!["--prediction", "kernel", "--reconstruction-base", "sample"],
            ],
            "--head-kernel" => vec![vec!["--head-kernel", "1"]],
            "--teacher-every" => vec![vec!["--teacher-every", "100"]],
            "--temporal-weight" => vec![vec![
                "--temporal-weight",
                "1",
                "--history-frames",
                "4",
                "--prediction",
                "kernel",
                "--reconstruction-base",
                "sample",
            ]],
            "--demodulation-offset" => vec![vec![
                "--demodulation-offset",
                "0.25",
                "--demodulate",
                "--prediction",
                "kernel",
                "--reconstruction-base",
                "sample",
            ]],
            "--demodulate" => vec![vec![
                "--demodulate",
                "--prediction",
                "kernel",
                "--reconstruction-base",
                "sample",
            ]],
            "--reconstruction-base" => {
                vec![vec!["--reconstruction-base", "guided"]]
            }
            "--temporal-features" => vec![vec!["--temporal-features", "variance"]],
            "--val-fraction" => vec![vec!["--val-fraction", "0.1"]],
            _ => vec![vec![&flag, VALUE], vec![&flag]],
        };
        let accepted = candidates.iter().any(|words| parse(words).is_ok());
        assert!(
            accepted,
            "{flag} is documented but not accepted, with a value or without: {:?}",
            parse(&candidates[0]).err()
        );
    }
}

#[test]
fn the_periodic_flags_reach_the_fields() {
    let args = parse(&["--eval-every", "250", "--checkpoint-every", "500"]).unwrap();
    assert_eq!(args.eval_every, 250);
    assert_eq!(args.checkpoint_every, 500);
    // And stay off unless asked for, so a short run pays nothing.
    let plain = parse(&[]).unwrap();
    assert_eq!(plain.eval_every, 0);
    assert_eq!(plain.checkpoint_every, 0);
}

#[test]
fn defaults_select_the_semi_realtime_direct_model() {
    let args = parse(&[]).unwrap();
    assert_eq!(args.objective, Objective::Direct);
    assert_eq!(args.base_channels, 8);
    assert_eq!(args.levels, 3);
    assert_eq!(args.blocks_per_level, 1);
    assert_eq!(args.batch, 8);
    assert_eq!(args.temporal_features, Features::Variance);
    assert!(!args.allow_filtered_input);
}

#[test]
fn validation_never_cuts_a_frame_sequence() {
    // The share of the sequences that is held out, rounded.
    let proposed = (10.0f32 * 0.15).round() as usize;
    let split = Split::new(40, 4, proposed);
    assert_eq!(split.training(), 0..32);
    assert_eq!(split.validation(), 32..40);
}

#[test]
fn filtered_training_data_requires_an_explicit_override() {
    let mut layout = layout(InputSource::Svgf);
    let plain = parse(&[]).unwrap();
    assert!(validate_input_source(&layout, plain.allow_filtered_input).is_err());

    let overridden = parse(&["--allow-filtered-input"]).unwrap();
    assert!(validate_input_source(&layout, overridden.allow_filtered_input).is_ok());

    layout.lr_source = InputSource::RawRestir;
    assert!(validate_input_source(&layout, plain.allow_filtered_input).is_ok());
}

#[test]
fn an_unknown_flag_is_rejected() {
    assert!(parse(&["--not-a-flag", "1"]).is_err());
}

#[test]
fn bad_values_are_told_apart() {
    assert!(matches!(parse(&["--help"]), Err(ArgsError::Line(Fault::Help))));
    assert!(matches!(
        parse(&["--steps"]),
        Err(ArgsError::Line(Fault::Missing(_)))
    ));
    assert!(matches!(
        parse(&["--steps", "x"]),
        Err(ArgsError::Line(Fault::Integer(_, _)))
    ));
    assert!(matches!(
        parse(&["--lr", "x"]),
        Err(ArgsError::Line(Fault::Real(_, _)))
    ));
    assert!(matches!(
        parse(&["--device-id", "x"]),
        Err(ArgsError::Line(Fault::Device(_)))
    ));
    assert!(matches!(
        parse(&["--objective", "both"]),
        Err(ArgsError::Line(Fault::Choice(_, _)))
    ));
    assert!(matches!(parse(&["--steps", "0"]), Err(ArgsError::Steps)));
    assert!(matches!(
        parse(&["--val-fraction", "1"]),
        Err(ArgsError::ValFraction(_))
    ));
    assert!(matches!(
        parse(&["--val-fraction", "nan"]),
        Err(ArgsError::ValFraction(_))
    ));
    assert!(matches!(
        parse(&["--eval-crops", "0"]),
        Err(ArgsError::EvalCrops)
    ));
    assert!(matches!(
        parse(&["--history-frames", "0"]),
        Err(ArgsError::HistoryFrames)
    ));
    let last = parse(&["--steps", "3", "--steps", "4"]).unwrap();
    assert_eq!(last.steps, 4);
}

#[test]
fn a_split_leaves_something_on_each_side() {
    let split = Split::new(8, 4, 0);
    assert_eq!(split.training(), 0..4);
    let split = Split::new(12, 4, 99);
    assert_eq!(split.training(), 0..4);
    assert_eq!(split.validation(), 4..12);
}

#[test]
fn what_cannot_start_is_told_apart() {
    let raw = layout(InputSource::RawRestir);
    let start = |len, length, history| check_start(len, length, &raw, false, history, false);
    assert_eq!(start(8, 1, 1), Ok(()));
    assert_eq!(start(8, 4, 1), Err(StartError::SequencesNeedHistory));
    assert_eq!(start(8, 1, 4), Err(StartError::HistoryNeedsSequences));
    assert_eq!(start(0, 1, 1), Err(StartError::Empty));
    assert_eq!(start(1, 1, 1), Err(StartError::TooFewSequences));
    let filtered = layout(InputSource::Svgf);
    assert_eq!(
        check_start(8, 1, &filtered, false, 1, false),
        Err(StartError::FilteredInput)
    );
}

#[test]
fn the_graph_follows_the_dataset() {
    let raw = layout(InputSource::RawRestir);
    assert_eq!(clamp_tile(32, &raw), 8);
    assert_eq!(clamp_tile(4, &raw), 4);
    assert_eq!(level_multipliers(3), [1, 2, 4]);
    assert!(!has_guides(&raw.lr_planes));
    let wanted = GraphChoice {
        prediction: Prediction::SubpixelKernel,
        kernel_radius: 2,
        demodulate: true,
        demodulation_offset: 0,
        reconstruction_base: ReconstructionBase::Sample,
    };
    assert_eq!(choose_graph(None, wanted, false), wanted);
    let stored = GraphChoice {
        prediction: Prediction::SubpixelResidual,
        ..wanted
    };
    assert_eq!(
        choose_graph(Some(stored), wanted, false).prediction,
        Prediction::SubpixelResidual
    );
    let all = raw.lr_planes.with(Plane::Depth).with(Plane::Motion);
    let only = conditioning_planes(all, true, 1);
    assert!(only.contains(Plane::Color) && !only.contains(Plane::Depth));
    assert!(check_base(ReconstructionBase::Bilinear, &raw.hr_planes).is_none());
    assert!(check_base(ReconstructionBase::HighResolutionGuided, &raw.hr_planes).is_some());
}

#[test]
fn gains_are_probed_over_the_whole_set() {
    let probes = spatial_probes(160);
    assert_eq!(probes.len(), 16);
    assert_eq!((probes[0], probes[1], probes[15]), (0, 10, 150));
    for probe in temporal_probes(160, 120, 4) {
        assert!(probe < 120);
    }
}

#[test]
fn periodic_work_falls_on_its_steps() {
    let quiet = StepPlan {
        sync_teacher: false,
        log: false,
        evaluate: false,
        checkpoint: false,
    };
    assert_eq!(plan_step(1, 100, 10, 0, 0, 0), quiet);
    assert!(plan_step(0, 100, 10, 0, 0, 0).sync_teacher);
    assert!(plan_step(20, 100, 10, 0, 0, 5).sync_teacher);
    assert!(plan_step(9, 100, 10, 0, 0, 0).log);
    assert!(plan_step(99, 100, 10, 0, 0, 0).log);
    assert!(plan_step(9, 100, 50, 10, 0, 0).evaluate);
    assert!(plan_step(9, 100, 50, 0, 10, 0).checkpoint);
    let last = plan_step(99, 100, 50, 10, 10, 0);
    assert!(last.log && !last.evaluate && !last.checkpoint);
}
