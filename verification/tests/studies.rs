use ommatidia_tools::compare::{
    self, check_case, check_checkpoint, check_control, check_picture, list_methods, write_note, CompareError, Method,
};
use ommatidia_tools::dataset::{InputSource, Layout, Plane, PlaneSet};
use ommatidia_tools::json::parse_json;
use ommatidia_tools::lobe_scale::{
    self, accumulate_histogram, apply_blocks, choose_blocks, match_sequences, oracle_name,
    plan_frames, validate_layout, Grid, LayoutError, Matched, SequenceError,
};
use ommatidia_tools::model::{Objective, Prediction};
use ommatidia_tools::noise_risk::{read_stream, validate, Capture, NoiseError, Observation};
use ommatidia_tools::noise_study::{
    self, check_args, count_offers, find_available, method_name, picture_name, reference_name,
    resets, risk_key, study_pixel, Spot, StudyError, METHODS, UNSEEN,
};
use ommatidia_tools::options::{Fault, Word};
use ommatidia_tools::temporal_oracle::{
    self, check_length, fine_cells, history_frames, is_inside, read_args, with_color, DatasetError,
};

fn words(list: &[&str]) -> Vec<Word> {
    list.iter()
        .map(|text| Word {
            text: text.to_string(),
            real: text
                .parse::<f32>()
                .map(f32::to_bits)
                .map_err(|e| e.to_string()),
            device: text.parse::<u32>().map_err(|e| e.to_string()),
        })
        .collect()
}

fn bits(values: &[f32]) -> Vec<u32> {
    values.iter().map(|v| v.to_bits()).collect()
}

fn keys(values: &[f64]) -> Vec<u64> {
    values.iter().map(|v| v.to_bits()).collect()
}

fn every_plane() -> PlaneSet {
    (0..11).fold(PlaneSet::new(), |set, i| set.with(Plane::from_index(i)))
}

fn layout() -> Layout {
    Layout {
        scale: 2,
        lr_width: 8,
        lr_height: 8,
        lr_source: InputSource::PathTrace,
        lr_planes: every_plane(),
        hr_planes: every_plane(),
    }
}

#[test]
fn cases_are_named_and_numbered() {
    let args = compare::parse_args(&words(&["--case", "red-box:12", "--case", "b:0"])).unwrap();
    assert_eq!(args.cases, [("red-box".to_string(), 12), ("b".to_string(), 0)]);
    assert_eq!(args.oidn_device, "default");
    let fails = |list: &[&str]| compare::parse_args(&words(list)).unwrap_err();
    assert!(matches!(fails(&[]), compare::ArgsError::NoCase));
    assert!(matches!(
        fails(&["--case", "a"]),
        compare::ArgsError::Line(Fault::CaseForm(_))
    ));
    assert!(matches!(
        fails(&["--case", "A:1"]),
        compare::ArgsError::Line(Fault::CaseName(_))
    ));
    assert!(matches!(
        fails(&["--case", ":1"]),
        compare::ArgsError::Line(Fault::CaseName(_))
    ));
    assert!(matches!(
        fails(&["--case", "a:b"]),
        compare::ArgsError::Line(Fault::CaseIndex(_, _))
    ));
}

#[test]
fn comparisons_are_refused_for_a_reason() {
    assert_eq!(compare::check_layout(&layout()), Ok(()));
    let wide = Layout {
        lr_width: 9,
        ..layout()
    };
    assert_eq!(compare::check_layout(&wide), Err(CompareError::Square));
    let flat = Layout {
        hr_planes: every_plane().without(Plane::Normal),
        ..layout()
    };
    assert_eq!(
        compare::check_layout(&flat),
        Err(CompareError::Missing(Plane::Normal))
    );
    assert_eq!(check_control(&layout(), &None), Ok(()));
    assert_eq!(check_control(&layout(), &Some(layout())), Ok(()));
    assert_eq!(
        check_control(&layout(), &Some(flat)),
        Err(CompareError::Control)
    );
    let check = |objective, prediction, temporal| check_checkpoint(objective, prediction, temporal);
    assert_eq!(
        check(Objective::Direct, Prediction::SubpixelKernel, false),
        Ok(())
    );
    assert_eq!(
        check(Objective::Direct, Prediction::SubpixelResidual, true),
        Err(CompareError::Checkpoint)
    );
    assert_eq!(
        check(Objective::Direct, Prediction::SubpixelKernel, true),
        Err(CompareError::Temporal)
    );
}

#[test]
fn methods_are_listed_in_their_order() {
    let names = |restir, oidn| {
        list_methods(restir, oidn)
            .into_iter()
            .map(Method::name)
            .collect::<Vec<_>>()
    };
    assert_eq!(names(false, false), ["bilinear", "ommatidium"]);
    assert_eq!(
        names(true, true),
        [
            "bilinear",
            "ommatidium",
            "restir-svgf",
            "oidn-input-high",
            "oidn-input-fast",
            "oidn-output-high"
        ]
    );
    assert!(Method::Bilinear.denoising().is_none());
    let fast = Method::OidnInputFast.denoising().unwrap();
    assert_eq!((fast.quality, fast.work, fast.high), ("fast", "oidn-low-fast-work", false));
    assert!(Method::OidnOutputHigh.denoising().unwrap().high);
    let list = compare::list_arguments("0", "high", "dir");
    assert_eq!(
        list.join(" "),
        "--device 0 --hdr dir/color.pfm --alb dir/albedo.pfm --nrm dir/normal.pfm \
         --clean_aux --quality high --output dir/output.pfm"
    );
}

#[test]
fn a_note_is_kept_of_a_comparison() {
    let args = compare::parse_args(&words(&["--case", "a:1", "--data", "d"])).unwrap();
    assert_eq!(
        write_note(&args, &Some("oidnDenoise".into())),
        "data=d\nrestir_svgf_data=none\ncheckpoint=runs/rich-kernel-b16-demod025\n\
         oidn=oidnDenoise\noidn_device=default\n"
    );
}

#[test]
fn block_sizes_are_positive() {
    let args = lobe_scale::parse_args(&words(&["--data", "d"])).unwrap();
    assert_eq!(args.blocks, [4, 8, 16, 32]);
    let args = lobe_scale::parse_args(&words(&["--data", "d", "--blocks", "2,3"])).unwrap();
    assert_eq!(args.blocks, [2, 3]);
    let fails = |list: &[&str]| lobe_scale::parse_args(&words(list)).unwrap_err();
    assert!(matches!(
        fails(&["--blocks", "2,0"]),
        lobe_scale::ArgsError::Blocks
    ));
    assert!(matches!(
        fails(&["--blocks", ""]),
        lobe_scale::ArgsError::Line(Fault::ListItem(_, _))
    ));
    assert!(matches!(
        fails(&["--max-sequences", "0"]),
        lobe_scale::ArgsError::MaxSequences
    ));
    assert!(matches!(fails(&[]), lobe_scale::ArgsError::NoData));
}

#[test]
fn layouts_lack_the_first_plane_missing() {
    assert_eq!(validate_layout(&layout(), &layout()), Ok(()));
    let small = Layout {
        scale: 4,
        ..layout()
    };
    assert_eq!(
        validate_layout(&layout(), &small),
        Err(LayoutError::Extents)
    );
    let lobeless = Layout {
        hr_planes: PlaneSet::new().with(Plane::Color),
        ..layout()
    };
    assert_eq!(
        validate_layout(&layout(), &lobeless),
        Err(LayoutError::Reference(Plane::DiffuseIllumination))
    );
    let low = Layout {
        lr_planes: every_plane().without(Plane::Depth),
        ..layout()
    };
    assert_eq!(
        validate_layout(&low, &layout()),
        Err(LayoutError::Low(Plane::Depth))
    );
    let high = Layout {
        hr_planes: every_plane().without(Plane::Roughness),
        ..layout()
    };
    assert_eq!(
        validate_layout(&high, &layout()),
        Err(LayoutError::High(Plane::Roughness))
    );
}

#[test]
fn sequences_are_matched_with_their_reference() {
    assert_eq!(
        match_sequences(12, 4, None, None),
        Ok(Matched {
            sequences: 3,
            reference_length: 4
        })
    );
    assert_eq!(
        match_sequences(12, 4, Some((2, 1)), None).unwrap().sequences,
        2
    );
    assert_eq!(
        match_sequences(12, 4, None, Some(1)).unwrap().sequences,
        1
    );
    assert_eq!(
        match_sequences(12, 4, Some((6, 3)), None),
        Err(SequenceError::Length)
    );
    assert_eq!(match_sequences(3, 4, None, None), Err(SequenceError::Nothing));
    assert_eq!(match_sequences(3, 1, None, None), Err(SequenceError::Nothing));
    let still = Matched {
        sequences: 2,
        reference_length: 1,
    };
    let frames: Vec<_> = plan_frames(still, 3)
        .iter()
        .map(|f| (f.index, f.reference, f.lagged, f.kept))
        .collect();
    assert_eq!(
        frames,
        [
            (1, 0, false, false),
            (2, 0, true, true),
            (4, 1, false, false),
            (5, 1, true, false)
        ]
    );
}

#[test]
fn blocks_take_their_best_candidate() {
    // Three by two texels in blocks of two: two blocks, the second cut.
    let grid = Grid {
        width: 3,
        height: 2,
        block: 2,
    };
    let candidates: Vec<Vec<i32>> = vec![(0..18).collect(), (100..118).collect()];
    let errors = vec![keys(&[1.0, 0.5]), keys(&[2.0, 2.0])];
    let chosen = choose_blocks(&candidates, &errors, grid);
    assert_eq!(chosen.labels, [1, 0]);
    assert_eq!(chosen.histogram, [2, 4]);
    assert_eq!(
        chosen.image,
        [100, 101, 102, 103, 104, 105, 6, 7, 8, 109, 110, 111, 112, 113, 114, 15, 16, 17]
    );
    assert_eq!(apply_blocks(&candidates, grid, &chosen.labels), chosen.image);
    let mut total = vec![1, 1];
    accumulate_histogram(&mut total, &chosen.histogram);
    assert_eq!(total, [3, 5]);
    assert_eq!(oracle_name(16), "lobe-oracle-b16.png");
}

#[test]
fn history_lengths_are_bounded() {
    assert_eq!(history_frames(&None, 8), Some(8));
    assert_eq!(history_frames(&Some("2".into()), 8), Some(2));
    assert_eq!(history_frames(&Some("8".into()), 8), Some(8));
    assert_eq!(history_frames(&Some("9".into()), 8), None);
    assert_eq!(history_frames(&Some("1".into()), 8), None);
    assert_eq!(history_frames(&Some("x".into()), 8), None);
}

#[test]
fn limits_are_read_in_their_order() {
    let args = read_args(&words(&["set.omd", "0.5"])).unwrap();
    assert_eq!(args.path, "set.omd");
    assert_eq!(f32::from_bits(args.rejection.depth_delta), 0.5);
    assert_eq!(f32::from_bits(args.rejection.normal_cosine), 0.9);
    assert_eq!(f32::from_bits(args.rejection.albedo_delta2), 0.04);
    assert_eq!(args.history, None);
    let args = read_args(&words(&["set.omd", "0.5", "0.8", "0.1", "4"])).unwrap();
    assert_eq!(args.history.unwrap(), "4");
    let fails = |list: &[&str]| read_args(&words(list)).unwrap_err();
    assert_eq!(fails(&[]), temporal_oracle::ArgsError::Usage);
    assert_eq!(fails(&["a", "x"]), temporal_oracle::ArgsError::DepthDelta);
    assert_eq!(
        fails(&["a", "1", "x"]),
        temporal_oracle::ArgsError::NormalCosine
    );
    assert_eq!(
        fails(&["a", "1", "1", "x"]),
        temporal_oracle::ArgsError::AlbedoDelta2
    );
}

#[test]
fn datasets_for_histories_are_checked() {
    assert_eq!(check_length(2), Ok(()));
    assert_eq!(check_length(1), Err(DatasetError::Sequences));
    assert_eq!(temporal_oracle::check_layout(&layout()), Ok(()));
    let wide = Layout {
        lr_width: 9,
        ..layout()
    };
    assert_eq!(
        temporal_oracle::check_layout(&wide),
        Err(DatasetError::Square)
    );
    let still = Layout {
        lr_planes: every_plane().without(Plane::Motion),
        hr_planes: every_plane().without(Plane::Motion),
        ..layout()
    };
    assert_eq!(
        temporal_oracle::check_layout(&still),
        Err(DatasetError::Low(Plane::Motion))
    );
    let high = Layout {
        hr_planes: PlaneSet::new().with(Plane::Color),
        ..layout()
    };
    assert_eq!(
        temporal_oracle::check_layout(&high),
        Err(DatasetError::High(Plane::Depth))
    );
}

#[test]
fn places_inside_include_the_edges() {
    let last = (2.0f32.to_bits(), 0.0f32.to_bits());
    let at = |x: f32, y: f32| is_inside((x.to_bits(), y.to_bits()), last);
    assert!(at(0.0, 0.0) && at(-0.0, 0.0) && at(2.0, -0.0));
    assert!(!at(2.5, 0.0) && !at(-0.5, 0.0) && !at(f32::NAN, 0.0));
}

#[test]
fn colour_is_replaced_and_nothing_else() {
    let planes = PlaneSet::new().with(Plane::Color).with(Plane::Depth);
    let record = vec![1, 2, 3, 4, 5, 6, 7, 8];
    assert_eq!(
        with_color(&record, &planes, 2, &[10, 20, 30, 11, 21, 31]),
        [10, 11, 20, 21, 30, 31, 7, 8]
    );
    assert_eq!(fine_cells(1, 1, 2, 2, 2), [10, 11, 14, 15]);
}

fn observation(radiance: f32) -> Observation {
    Observation {
        width: 1,
        height: 1,
        jitter: bits(&[0.0, 0.0]),
        rays: 1,
        geometry: bits(&[1.0]),
        radiance: bits(&[radiance]),
        surfaces: 1,
        guides: bits(&[2.0]),
        lobes: bits(&[3.0]),
        rgb: bits(&[4.0]),
    }
}

fn capture(offset: u64, radiance: f32) -> Capture {
    let text = format!(
        r#"{{"matching_path_depth":true,"input_estimator":"independent-paths",
            "input_sample_offset":{offset},"input_frames":2,"records":1,
            "reference_sample_offset":100}}"#
    );
    let provenance = parse_json(text.as_bytes()).unwrap();
    Capture {
        frames: vec![observation(radiance)],
        length: 1,
        stream: read_stream(&provenance, 1).unwrap(),
        provenance,
    }
}

#[test]
fn paired_captures_differ_in_noise_alone() {
    assert_eq!(validate(&vec![capture(0, 1.0), capture(2, 2.0)]), Ok(()));
    assert_eq!(
        validate(&vec![capture(0, 1.0), capture(1, 2.0)]),
        Err(NoiseError::Overlap)
    );
    assert_eq!(
        validate(&vec![capture(0, 1.0), capture(2, 1.0)]),
        Err(NoiseError::Unchanged)
    );
    assert_eq!(
        validate(&vec![capture(99, 1.0)]),
        Err(NoiseError::Reference)
    );
    let mut other = capture(2, 2.0);
    other.frames[0].rgb = bits(&[5.0]);
    assert_eq!(
        validate(&vec![capture(0, 1.0), other]),
        Err(NoiseError::Targets)
    );
    let mut other = capture(2, 2.0);
    other.frames[0].geometry = bits(&[5.0]);
    assert_eq!(
        validate(&vec![capture(0, 1.0), other]),
        Err(NoiseError::Geometry)
    );
    let mut other = capture(2, 2.0);
    other.frames[0].guides = bits(&[5.0]);
    assert_eq!(
        validate(&vec![capture(0, 1.0), other]),
        Err(NoiseError::Guides)
    );
    let mut other = capture(2, 2.0);
    other.length = 2;
    assert_eq!(
        validate(&vec![capture(0, 1.0), other]),
        Err(NoiseError::Layout)
    );
}

#[test]
fn streams_say_where_they_start() {
    let read = |text: &str, len| read_stream(&parse_json(text.as_bytes()).unwrap(), len);
    let start = r#"{"matching_path_depth":true,"input_estimator":"independent-paths""#;
    assert_eq!(read("{}", 1).unwrap_err(), NoiseError::NotFresh);
    assert_eq!(
        read(&format!("{start}}}"), 1).unwrap_err(),
        NoiseError::NoOffset
    );
    assert_eq!(
        read(&format!(r#"{start},"input_sample_offset":3}}"#), 1).unwrap_err(),
        NoiseError::NoCount
    );
    let text = format!(r#"{start},"input_sample_offset":3,"input_frames":2,"records":4}}"#);
    assert_eq!(read(&text, 5).unwrap_err(), NoiseError::Invalid);
    let stream = read(&text, 4).unwrap();
    assert_eq!((stream.offset, stream.frames_per_input), (3, 2));
    let copied = format!(r#"{start},"reference_from":"x"}}"#);
    assert_eq!(read(&copied, 1).unwrap_err(), NoiseError::NotFresh);
}

#[test]
fn studies_need_streams_on_both_sides() {
    let check = |list: &[&str]| check_args(&noise_study::parse_args(&words(list)).unwrap());
    let five = [
        "--data", "a", "--data", "b", "--data", "c", "--data", "d", "--data", "e",
    ];
    assert_eq!(check(&five), Err(StudyError::NoCheckpoint));
    let mut all = five.to_vec();
    all.extend(["--checkpoint", "m"]);
    assert_eq!(check(&all), Ok(()));
    assert_eq!(check(&five[..8]), Err(StudyError::Realizations));
    all.extend(["--fit-realizations", "1"]);
    assert_eq!(check(&all), Err(StudyError::Realizations));
    assert!(resets(false, 3, 2) && resets(true, 4, 2) && !resets(true, 3, 2));
    assert_eq!(METHODS, 6);
    assert_eq!(method_name(3), "cross-noise-risk");
    assert_eq!(picture_name(7, 3, 0), "007-noise3-learned.png");
    assert_eq!(reference_name(12), "012-reference.png");
    assert_eq!(risk_key(None), UNSEEN);
    assert_eq!(risk_key(Some(5)), 5);
}

#[test]
fn winners_are_compared_across_streams() {
    // One pixel, two lobes, three candidates.
    let spot = Spot {
        candidates: 3,
        n: 1,
        l: 0,
        i: 0,
    };
    let prior = |a: f32, b: f32, c: f32| bits(&[a, 0.0, b, 0.0, c, 0.0]);
    let priors = vec![
        prior(1.0, 1.0, 0.0),
        prior(1.0, 1.0, 1.0),
        prior(1.0, 1.0, 1.0),
        prior(1.0, 0.0, 1.0),
    ];
    assert_eq!(find_available(&priors, 2, spot), [true, true, false]);
    let errors = vec![
        keys(&[2.0, 1.0, 0.0]),
        keys(&[1.0, 1.0, 2.0]),
        keys(&[3.0, 1.0, 1.0]),
        keys(&[3.0, 0.0, 3.0]),
    ];
    let risks = vec![keys(&[1.0, 2.0, 0.5]), vec![UNSEEN, 0, UNSEEN]];
    let study = study_pixel(&priors, 2, spot, &errors, &risks, 1, true);
    assert_eq!(study.winners, [1, 0, 1, 0]);
    assert_eq!(study.predicted, [2, 0]);
    assert_eq!(study.fallback, [false, true]);
    assert_eq!((study.agree, study.comparisons), (2, 4));
    let flat = study_pixel(&priors, 2, spot, &errors, &risks, 0, false);
    assert_eq!((flat.agree, flat.comparisons), (0, 0));
    assert_eq!(flat.fallback, [false, false]);
    assert_eq!(count_offers(&priors[0], 3, 1, 0, 1), 1);
    assert_eq!(count_offers(&priors[0], 3, 1, 1, 1), 0);
}

#[test]
fn cases_match_their_control() {
    let one = 0x3c00u16;
    assert_eq!(check_case(&[one, 0], &[one, 0x8000]), Ok(()));
    assert_eq!(check_case(&[one, 0], &[one, one]), Err(CompareError::Canonical));
    assert_eq!(check_case(&[one], &[one, one]), Err(CompareError::Canonical));
    assert_eq!(check_case(&[0x7e00], &[0x7e00]), Err(CompareError::Canonical));
    assert_eq!(check_picture((4, 2), (4, 2)), Ok(()));
    assert_eq!(check_picture((4, 2), (2, 4)), Err(CompareError::Picture));
}
