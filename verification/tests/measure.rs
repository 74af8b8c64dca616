use ommatidia_tools::benchmark::{
    self, check_args, check_time, count_runs, measured, record_memory, sequence_records, statistics,
    BenchmarkError,
};
use ommatidia_tools::dataset::{InputSource, Layout, Plane, PlaneSet};
use ommatidia_tools::oidn_reference::{
    self, find_corners, find_mismatch, frame_name, list_arguments, number_frames, observed,
    reports_progress, shape_of, CaptureLength,
};
use ommatidia_tools::options::{Fault, Word};
use ommatidia_tools::reference_noise::{
    self, match_references, same_inputs, MatchError, ReferenceFacts,
};

fn words(list: &[&str]) -> Vec<Word> {
    list.iter()
        .map(|text| Word {
            text: text.to_string(),
            real: text
                .parse::<f32>()
                .map(f32::to_bits)
                .map_err(|e| e.to_string()),
            device: text.parse::<u32>().map_err(|e| e.to_string()),
        })
        .collect()
}

fn bits(values: &[f64]) -> Vec<u64> {
    values.iter().map(|v| v.to_bits()).collect()
}

fn layout(planes: PlaneSet) -> Layout {
    Layout {
        scale: 2,
        lr_width: 1,
        lr_height: 1,
        lr_source: InputSource::PathTrace,
        lr_planes: planes,
        hr_planes: PlaneSet::new().with(Plane::Color).with(Plane::Normal),
    }
}

fn guides() -> PlaneSet {
    PlaneSet::new()
        .with(Plane::Color)
        .with(Plane::DiffuseAlbedo)
        .with(Plane::SpecularF0)
        .with(Plane::Normal)
        .with(Plane::Jitter)
}

#[test]
fn percentiles_use_nearest_rank_without_reordering_samples() {
    let values = [4.0, 1.0, 3.0, 2.0];
    let samples = bits(&values);
    let s = statistics(&samples);
    let mean = samples.iter().map(|v| f64::from_bits(*v)).sum::<f64>() / s.samples as f64;
    assert_eq!(mean, 2.5);
    assert_eq!(f64::from_bits(s.p50), 2.0);
    assert_eq!(f64::from_bits(s.p95), 4.0);
    assert_eq!(f64::from_bits(statistics(&bits(&[7.0])).p50), 7.0);
    assert_eq!(f64::from_bits(samples[0]), 4.0);
}

#[test]
fn ranks_round_up() {
    let values: Vec<f64> = (1..=100).rev().map(|v| v as f64).collect();
    let s = statistics(&bits(&values));
    assert_eq!(f64::from_bits(s.p50), 50.0);
    assert_eq!(f64::from_bits(s.p95), 95.0);
    assert_eq!((f64::from_bits(s.min), f64::from_bits(s.max)), (1.0, 100.0));
    let values: Vec<f64> = (1..=21).map(|v| v as f64).collect();
    let s = statistics(&bits(&values));
    assert_eq!(f64::from_bits(s.p50), 11.0);
    assert_eq!(f64::from_bits(s.p95), 20.0);
    let s = statistics(&bits(&[0.0, -0.0, f64::NEG_INFINITY, -1.0]));
    assert_eq!(s.min, f64::NEG_INFINITY.to_bits());
    assert_eq!(s.max, 0.0f64.to_bits());
    assert_eq!(s.p50, (-1.0f64).to_bits());
}

#[test]
fn benchmarks_name_what_is_missing() {
    let check = |list: &[&str]| check_args(&benchmark::parse_args(&words(list)).unwrap());
    let all = ["--checkpoint", "c", "--data", "d", "--out", "o"];
    assert_eq!(check(&all), Ok(()));
    assert_eq!(check(&[]), Err(BenchmarkError::NoCheckpoint));
    assert_eq!(check(&all[..2]), Err(BenchmarkError::NoData));
    assert_eq!(check(&all[..4]), Err(BenchmarkError::NoOut));
    assert_eq!(check(&["--repeats", "0"]), Err(BenchmarkError::Counts));
    assert_eq!(
        check(&["--warmup-sequences", "0"]),
        Err(BenchmarkError::Counts)
    );
    assert!(matches!(
        benchmark::parse_args(&words(&["--help"])),
        Err(Fault::Help)
    ));
}

#[test]
fn only_whole_sequences_are_measured() {
    assert_eq!(sequence_records(1, 9, 4), Ok((4, 8)));
    assert_eq!(sequence_records(2, 9, 4), Err(BenchmarkError::Sequence));
    assert_eq!(measured(1, 2), None);
    assert_eq!(measured(2, 2), Some(0));
    assert_eq!(count_runs(2, 3), Ok(5));
    assert_eq!(count_runs(usize::MAX, 1), Err(BenchmarkError::Overflow));
    assert!(check_time(1.5f64.to_bits()));
    assert!(!check_time(0.0f64.to_bits()));
    assert!(!check_time(f64::NAN.to_bits()));
}

#[test]
fn memory_keeps_its_extremes() {
    let memory = record_memory(&vec![None, Some((3, 90)), Some((7, 95)), None, Some((5, 80))]);
    assert_eq!(memory.max_usage, Some(7));
    assert_eq!(memory.min_budget, Some(80));
    assert_eq!(record_memory(&vec![None]).max_usage, None);
}

#[test]
fn observations_do_not_use_reference_or_hr_guides() {
    let layout = layout(guides());
    let lr = vec![0u16; layout.lr_planes.channels()];
    let original = observed(&lr, &layout.lr_planes, 1).unwrap();
    // Only low-resolution planes are handed over; the guides at high resolution
    // make no difference.
    let mut bare = layout;
    bare.hr_planes = PlaneSet::new().with(Plane::Color);
    let again = observed(&lr, &bare.lr_planes, 1).unwrap();
    assert_eq!(original.color, again.color);
    assert_eq!(original.diffuse, again.diffuse);
    assert_eq!(original.specular, again.specular);
    assert_eq!(original.normal, again.normal);
    assert_eq!(original.jitter, again.jitter);
}

#[test]
fn observations_follow_the_planes() {
    // Colour, normal, diffuse albedo, specular reflectance, jitter.
    let record: Vec<u16> = (0..14).collect();
    let seen = observed(&record, &guides(), 1).unwrap();
    assert_eq!(seen.color, [0, 1, 2]);
    assert_eq!(seen.normal, [3, 4, 5]);
    assert_eq!(seen.diffuse, [6, 7, 8]);
    assert_eq!(seen.specular, [9, 10, 11]);
    assert_eq!(seen.jitter, Some((12, 13)));
    let bare = guides().without(Plane::Jitter);
    assert_eq!(observed(&record[..12], &bare, 1).unwrap().jitter, None);
    let fewer = bare.without(Plane::Normal);
    assert!(observed(&record[..9], &fewer, 1).is_none());
}

/// Bilinear upsampling with the jitter of the samples removed.
fn resample(rgb: &[f32], low: [usize; 2], scale: usize, jitter: [f32; 2]) -> Vec<f32> {
    let high = low.map(|v| v * scale);
    let mut result = vec![0.0; high[0] * high[1] * 3];
    for y in 0..high[1] {
        for x in 0..high[0] {
            let q = [0, 1].map(|axis| {
                ((([x, y][axis] as f32 + 0.5) / scale as f32) - 0.5 - jitter[axis])
                    .clamp(0.0, (low[axis] - 1) as f32)
            });
            let at = q.map(|v| v.floor() as usize);
            let t = [q[0] - at[0] as f32, q[1] - at[1] as f32];
            for (k, cell) in find_corners((at[0], at[1]), (low[0], low[1]))
                .into_iter()
                .enumerate()
            {
                let weight = (if k % 2 == 0 { 1.0 - t[0] } else { t[0] })
                    * (if k / 2 == 0 { 1.0 - t[1] } else { t[1] });
                for c in 0..3 {
                    result[(y * high[0] + x) * 3 + c] += weight * rgb[cell * 3 + c];
                }
            }
        }
    }
    result
}

#[test]
fn resampling_removes_jitter_and_preserves_constants() {
    assert_eq!(
        resample(&[2.0; 12], [2, 2], 2, [0.25, -0.25]),
        vec![2.0; 48]
    );
    let ramp = [
        0.0, 0.0, 0.0, 4.0, 4.0, 4.0, 8.0, 8.0, 8.0, 12.0, 12.0, 12.0,
    ];
    let regular = resample(&ramp, [2, 2], 2, [0.0; 2]);
    assert_eq!(regular[3], 1.0);
    let jittered = resample(&ramp, [2, 2], 2, [0.25, -0.25]);
    assert_eq!(jittered[3], 0.0);
    assert_eq!(jittered[9], 4.0);
}

#[test]
fn the_denoiser_is_called_with_its_files() {
    let list = list_arguments("out/scratch");
    assert_eq!(list.len(), 19);
    assert_eq!(&list[..4], &["--device", "cpu", "--filter", "RT"]);
    assert_eq!(&list[11..13], &["--hdr", "out/scratch/color.pfm"]);
    assert_eq!(list[18], "out/scratch/output.pfm");
}

#[test]
fn frames_are_numbered_over_captures() {
    let captures = vec![
        CaptureLength { len: 4, length: 2 },
        CaptureLength { len: 2, length: 2 },
    ];
    let places = number_frames(&captures, 3);
    let numbers: Vec<_> = places
        .iter()
        .map(|p| (p.capture, p.record, p.sequence, p.frame))
        .collect();
    assert_eq!(
        numbers,
        [(0, 0, 0, 0), (0, 1, 0, 1), (0, 2, 1, 0), (1, 0, 2, 0), (1, 1, 2, 1)]
    );
    assert_eq!(frame_name(&places[4], "learned"), "002-001-learned");
    assert!(reports_progress(16) && !reports_progress(17));
    let shape = shape_of(&layout(guides()), 2);
    let other = shape_of(&layout(guides()), 4);
    assert_eq!(find_mismatch(&vec![shape, shape]), None);
    assert_eq!(find_mismatch(&vec![shape, shape, other]), Some(2));
}

#[test]
fn reference_tools_name_what_is_missing() {
    use_line(&["--eval-data", "a", "--out", "o", "--oidn", "x"]);
    let fails = |list: &[&str]| oidn_reference::parse_args(&words(list)).unwrap_err();
    assert!(matches!(
        fails(&["--eval-data", "a"]),
        oidn_reference::ArgsError::NoExecutable
    ));
    assert!(matches!(
        fails(&["--oidn", "x"]),
        oidn_reference::ArgsError::NoOut
    ));
    assert!(matches!(
        fails(&["--oidn", "x", "--out", "o"]),
        oidn_reference::ArgsError::Nothing
    ));
    assert!(matches!(
        fails(&["--oidn", "x", "--out", "o", "--eval-data", "a", "--limit", "0"]),
        oidn_reference::ArgsError::Nothing
    ));
    assert!(matches!(
        fails(&["--odd"]),
        oidn_reference::ArgsError::Line(Fault::Unknown(_))
    ));
    let args = reference_noise::parse_args(&words(&["--a", "x", "--b", "y"])).unwrap();
    assert_eq!(args.limit, usize::MAX);
    let fails = |list: &[&str]| reference_noise::parse_args(&words(list)).unwrap_err();
    assert!(matches!(
        fails(&["--b", "y"]),
        reference_noise::ArgsError::NoA
    ));
    assert!(matches!(
        fails(&["--a", "x"]),
        reference_noise::ArgsError::NoB
    ));
}

fn use_line(list: &[&str]) {
    let args = oidn_reference::parse_args(&words(list)).unwrap();
    assert_eq!(args.data, ["a"]);
    assert_eq!(args.limit, usize::MAX);
    assert!(!args.linear);
}

#[test]
fn references_are_matched_record_by_record() {
    let facts = |len, sequence_length| ReferenceFacts {
        layout: layout(guides()),
        sequence_length,
        len,
    };
    assert_eq!(match_references(&facts(8, 1), &facts(5, 1), 99), Ok(5));
    assert_eq!(match_references(&facts(8, 1), &facts(5, 1), 3), Ok(3));
    assert_eq!(
        match_references(&facts(8, 1), &facts(5, 2), 3),
        Err(MatchError::Sequence)
    );
    assert_eq!(
        match_references(&facts(8, 1), &facts(0, 1), 3),
        Err(MatchError::Empty)
    );
    let mut other = facts(8, 1);
    other.layout.lr_source = InputSource::Svgf;
    assert_eq!(
        match_references(&facts(8, 1), &other, 3),
        Err(MatchError::Layout)
    );
    let half = |v: f32| half::f16::from_f32(v).to_bits();
    assert!(same_inputs(&[half(0.0), half(1.0)], &[half(-0.0), half(1.0)]));
    assert!(!same_inputs(&[half(f32::NAN)], &[half(f32::NAN)]));
    assert!(!same_inputs(&[half(1.0)], &[]));
}
