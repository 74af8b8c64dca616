use ommatidia_tools::options::{Fault, Word};
use ommatidia_tools::transport::{
    check_data, check_start, check_training, checkpoint_input, checkpoint_path, evaluate,
    frame_prefix, name_files, parse_args, plan_frame, plan_update, reference_lobes,
    rejected_history_mask, unpack_lobe, update_paths, FrameFacts, StartError,
};

fn word(text: &str) -> Word {
    Word {
        text: text.into(),
        real: text
            .parse::<f32>()
            .map(f32::to_bits)
            .map_err(|e| e.to_string()),
        device: text.parse::<u32>().map_err(|e| e.to_string()),
    }
}

fn words(list: &[&str]) -> Vec<Word> {
    list.iter().map(|w| word(w)).collect()
}

/// Where a channel of a pixel stands when each square of `scale` pixels is packed
/// into the channels of one low resolution texel.
fn index(low: [usize; 2], scale: usize, channel: usize, x: usize, y: usize) -> usize {
    let plane = (channel * scale + y % scale) * scale + x % scale;
    plane * low[0] * low[1] + (y / scale) * low[0] + x / scale
}

/// The packing of `channels` channels, pixel after pixel, channel after channel.
fn table(low: [usize; 2], scale: usize, channels: usize) -> Vec<usize> {
    let (width, height) = (low[0] * scale, low[1] * scale);
    (0..channels * width * height)
        .map(|k| {
            let (c, i) = (k / (width * height), k % (width * height));
            index(low, scale, c, i % width, i / width)
        })
        .collect()
}

#[test]
fn lobe_diagnostics_preserve_subpixel_packing_and_observed_materials() {
    let low = [4, 8];
    let n = low[0] * low[1] * 4;
    let table = table(low, 2, 6);
    let albedo = [0.2f32, 0.4, 0.8];
    let emission = [0.01f32, 0.02, 0.03];
    let mut target = vec![0.0f32; 6 * n];
    for i in 0..n {
        for c in 0..6 {
            target[index(low, 2, c, i % 8, i / 8)] = c as f32 + i as f32 * 0.01;
        }
    }
    let lobes = reference_lobes(&target, &table, n);
    for i in 0..n {
        for c in 0..3 {
            assert_eq!(lobes.0[i * 3 + c], c as f32 + i as f32 * 0.01);
            assert_eq!(lobes.1[i * 3 + c], (c + 3) as f32 + i as f32 * 0.01);
            let composed = lobes.0[i * 3 + c] * albedo[c] + lobes.1[i * 3 + c] + emission[c];
            assert_eq!(
                composed,
                (c as f32 + i as f32 * 0.01) * albedo[c]
                    + ((c + 3) as f32 + i as f32 * 0.01)
                    + emission[c]
            );
        }
    }
    assert_eq!(unpack_lobe(&target, &table, n, 0), lobes.0);
    assert_eq!(unpack_lobe(&target, &table, n, 1), lobes.1);
}

#[test]
fn rejected_history_preserves_lobe_and_subpixel_layout() {
    let low = [4, 8];
    let n = 8 * 16;
    let table = table(low, 2, 2);
    let mut validity = vec![1.0f32.to_bits(); 2 * 8 * 16];
    assert!(!rejected_history_mask(&validity, &table, n).contains(&true));
    validity[index(low, 2, 0, 3, 0)] = 0.0f32.to_bits();
    validity[index(low, 2, 1, 0, 15)] = 0.0f32.to_bits();
    let mask = rejected_history_mask(&validity, &table, n);
    assert_eq!(mask.iter().filter(|&&v| v).count(), 2);
    assert!(mask[3] && mask[120]);
}

fn facts(rejected: Vec<bool>) -> FrameFacts {
    FrameFacts {
        finite: (true, true),
        rejected: (rejected.clone(), rejected),
        temporal: (true, true),
    }
}

#[test]
fn rejected_history_is_pixel_weighted_and_empty_is_unscored() {
    // The frame in front resets the history, so its mask does not count.
    let frames = vec![
        facts(vec![true; 3]),
        facts(vec![false; 3]),
        facts(vec![true, false, false]),
        facts(vec![true; 3]),
    ];
    let tally = evaluate(&frames, 4, false).unwrap().learned;
    assert_eq!(tally.frames, 4);
    assert_eq!(tally.resets, 1);
    assert_eq!(tally.rejected_pixels, 4);
    assert_eq!(tally.history_pixels, 9);
    let empty = evaluate(&vec![], 3, false).unwrap().learned;
    assert_eq!((empty.history_pixels, empty.rejected_pixels), (0, 0));
    let mut broken = vec![facts(vec![]), facts(vec![])];
    broken[1].finite = (true, false);
    assert!(evaluate(&broken, 2, false).is_err());
}

#[test]
fn histories_end_with_their_sequence() {
    let plan = plan_frame(8, 4, false);
    assert_eq!((plan.sequence, plan.frame), (2, 0));
    assert!(plan.reset && !plan.compare);
    let plan = plan_frame(9, 4, false);
    assert_eq!((plan.sequence, plan.frame), (2, 1));
    assert!(!plan.reset && plan.compare);
    assert!(plan_frame(9, 4, true).reset);
}

#[test]
fn command_lines_are_read() {
    let args = parse_args(&words(&[
        "--data", "a", "--data", "b", "--eval-data", "c", "--steps", "9", "--reset-history",
    ]))
    .unwrap();
    assert_eq!(args.data, ["a", "b"]);
    assert_eq!(args.eval, ["c"]);
    assert_eq!((args.steps, args.unroll, args.channels, args.seed), (9, 2, 16, 7));
    assert!(args.reset_history && !args.eval_only);
    assert_eq!(f32::from_bits(args.rate), 3e-4);
    assert!(matches!(parse_args(&words(&["--help"])), Err(Fault::Help)));
    // A value is taken before the option is looked up.
    assert!(matches!(
        parse_args(&words(&["--odd"])),
        Err(Fault::Missing(_))
    ));
    assert!(matches!(
        parse_args(&words(&["--odd", "1"])),
        Err(Fault::Unknown(_))
    ));
}

#[test]
fn runs_that_cannot_start_are_told_apart() {
    let args = |list: &[&str]| parse_args(&words(list)).unwrap();
    let good = args(&["--data", "a", "--eval-data", "b"]);
    assert_eq!(check_start(&good, true, false), Ok(()));
    assert_eq!(check_start(&good, false, false), Err(StartError::Weights));
    assert_eq!(check_start(&good, true, true), Err(StartError::Overwrite));
    let reset = args(&["--data", "a", "--eval-data", "b", "--reset-history"]);
    assert_eq!(
        check_start(&reset, true, false),
        Err(StartError::ResetHistory)
    );
    let none = args(&["--data", "a", "--eval-data", "b", "--steps", "0"]);
    assert_eq!(check_start(&none, true, false), Err(StartError::Numbers));
    let unscored = args(&["--data", "a"]);
    assert_eq!(check_data(&unscored), Err(StartError::NoEvaluation));
    let untrained = args(&["--eval-data", "b"]);
    assert_eq!(check_data(&untrained), Err(StartError::NoData));
    assert_eq!(check_data(&good), Ok(()));
    assert_eq!(check_training(2, 4, &vec![(8, 8)], (8, 8)), Ok(()));
    assert_eq!(
        check_training(5, 4, &vec![(8, 8)], (8, 8)),
        Err(StartError::Sequences)
    );
    assert_eq!(
        check_training(2, 4, &vec![(8, 9)], (8, 8)),
        Err(StartError::Sequences)
    );
}

#[test]
fn files_have_names() {
    assert_eq!(frame_prefix(3, 12), "003-012");
    assert_eq!(
        name_files("003-012", false),
        ["003-012-base.png", "003-012-learned.png", "003-012-reference.png"]
    );
    assert_eq!(name_files("a", true).len(), 9);
    assert_eq!(name_files("a", true)[0], "a-baseline-diffuse.png");
    assert_eq!(checkpoint_path("out"), "out/model.safetensors");
    let args = parse_args(&words(&["--checkpoint", "warm"])).unwrap();
    assert_eq!(checkpoint_input(&args).unwrap(), "warm");
    let (a, b) = update_paths("out", 500);
    assert!(a.starts_with("out/") && b.starts_with("out/") && a != b);
}

#[test]
fn updates_stay_inside_their_sequence() {
    let plan = plan_update(9, 100, 10, 16, 4, 2, 3, 2);
    assert_eq!((plan.offset, plan.start), (12, 2));
    assert!(plan.score);
    let plan = plan_update(10, 100, 10, 16, 4, 2, 0, 0);
    assert_eq!((plan.offset, plan.start), (0, 0));
    assert!(!plan.score);
}
