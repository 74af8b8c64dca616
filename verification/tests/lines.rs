use std::path::Path;

use ommatidia_tools::bits::{
    is_at_most32, is_before32, is_before64, is_equal16, is_equal32, is_finite32, is_less32, is_less64,
};
use ommatidia_tools::catalog::{Catalog, Entry, Kind, Source, Split};
use ommatidia_tools::dataset::{InputSource, Plane};
use ommatidia_tools::furnishing::{
    find_object_root, furnish, object_path, FurnishError, Load, Loaded,
};
use ommatidia_tools::generate::{
    camera_seed, capture_high, capture_input, check_references, choose_layout, describe_paths,
    has_moved, high_pass, input_depth, input_pass, model_name, mover_seed, num_workers,
    object_seed, parse_args, plan_record, preview_name, record_count, renders_high, report_planes,
    same_scene, shader_dir, to_record, Args, ArgsError, HighPass, ReferenceError,
};
use ommatidia_tools::json::Json;
use ommatidia_tools::options::{Fault, Word};
use ommatidia_tools::paths::{
    file_name_of, file_stem_of, is_absolute, join_path, parent_path, replace_file_name,
};
use ommatidia_tools::provenance::{check_capture, CaptureError, DatasetFacts};
use ommatidia_tools::render::{Action, Pass};
use ommatidia_tools::text::{
    decimal3_text, decimal_text, find_cut, is_blank, next_word, parse_unsigned, starts_with,
    trim_text, IntFault,
};

fn line(list: &[&str]) -> Result<Args, ArgsError> {
    parse_args(
        &list
            .iter()
            .map(|text| Word {
                text: text.to_string(),
                real: text
                    .parse::<f32>()
                    .map(f32::to_bits)
                    .map_err(|e| e.to_string()),
                device: text.parse::<u32>().map_err(|e| e.to_string()),
            })
            .collect(),
    )
}

#[test]
fn generators_are_told_what_to_make() {
    let args = line(&["--samples", "3", "--lr", "64x48"]).unwrap();
    assert_eq!(args.samples, 3);
    assert_eq!((args.lr_width, args.lr_height), (64, 48));
    let layout = choose_layout(&args);
    assert_eq!((layout.lr_width, layout.lr_height), (64, 48));
    assert!(layout.lr_planes.contains(Plane::Color));
    assert!(layout.lr_planes.contains(Plane::Depth));
    assert_eq!(layout.lr_source, InputSource::PathTrace);
    let bare = choose_layout(&line(&["--no-gbuffer", "--restir-input"]).unwrap());
    assert!(!bare.lr_planes.contains(Plane::Depth));
    assert_eq!(bare.lr_source, InputSource::RawRestir);
    assert!(matches!(line(&["--lr", "64"]), Err(ArgsError::Line(Fault::ExtentForm(_)))));
    assert!(matches!(line(&["--lr", "ax4"]), Err(ArgsError::Line(Fault::ExtentWidth(_)))));
    assert!(matches!(line(&["--lr", "4xa"]), Err(ArgsError::Line(Fault::ExtentHeight(_)))));
    assert!(matches!(line(&["--scale", "1"]), Err(ArgsError::Scale(1))));
    assert!(matches!(line(&["--samples", "0"]), Err(ArgsError::Samples)));
}

#[test]
fn faults_are_described() {
    let described = |list: &[&str]| match line(list) {
        Err(ArgsError::Line(fault)) => fault.describe("usage"),
        _ => panic!("no fault"),
    };
    assert_eq!(described(&["--samples"]), "--samples needs a value");
    assert!(described(&["--odd\n"]).contains(r#""--odd\n""#));
    assert!(described(&["--samples", "x"]).contains("invalid digit found in string"));
    assert!(described(&["--samples", ""]).contains("cannot parse integer from empty string"));
}

#[test]
fn records_follow_their_sequences() {
    assert_eq!(record_count(3, 4), Some(12));
    assert_eq!(record_count(usize::MAX, 2), None);
    let plan = plan_record(7, 4, true, 5, 12);
    assert_eq!((plan.scene, plan.frame, plan.previous), (1, 1, 0));
    assert!(!plan.fresh);
    let plan = plan_record(7, 4, true, 8, 12);
    assert_eq!((plan.scene, plan.frame), (2, 0));
    assert!(plan.fresh);
    assert_ne!(object_seed(7, 0), object_seed(7, 1));
    assert_eq!(camera_seed(0xA24B_AED4_963E_E407), 0);
    assert_eq!(mover_seed(0xE703_7ED1_A0B4_28DA), 1);
    assert!(!has_moved(0, 1.0f32.to_bits()));
    assert!(has_moved(1, 1.0f32.to_bits()));
    assert_eq!(to_record(&[1, 2, 3, 4, 5, 6], Some(&vec![7, 8]), 2), [1, 4, 2, 5, 3, 6, 7, 8]);
}

fn depths(actions: &[Action]) -> Vec<u32> {
    actions
        .iter()
        .filter_map(|action| match action {
            Action::Render { rays, .. } => Some(rays.max_bounces),
            _ => None,
        })
        .collect()
}

#[test]
fn inputs_are_as_deep_as_asked() {
    let plain = line(&[]).unwrap();
    assert_eq!((plain.input_bounces, plain.canonical_bounces), (8, 8));
    assert_eq!(depths(&capture_input(&plain)), [8]);
    let truncated = line(&["--input-bounces", "3", "--input-frames", "2"]).unwrap();
    assert_eq!(truncated.input_bounces, 3);
    assert_eq!(depths(&capture_input(&truncated)), [3, 3]);
    assert!(matches!(
        line(&["--input-bounces", "x"]),
        Err(ArgsError::Line(Fault::Integer(_, _)))
    ));
    for filtered in ["--svgf-input", "--restir-input"] {
        let args = line(&[filtered, "--input-bounces", "5"]).unwrap();
        assert_eq!(input_depth(&args), 3);
        assert!(depths(&capture_input(&args)).iter().all(|depth| *depth == 3));
        let said = describe_paths(&args, 1);
        assert_eq!(said.get("input_max_bounces").as_unsigned(), Some(3));
    }
    let few = ["--canonical-frames", "2", "--canonical-bounces", "5"];
    assert_eq!(depths(&capture_high(&line(&few).unwrap())), [5, 5]);
    assert!(capture_high(&line(&["--reference-from", "r"]).unwrap()).is_empty());
    let geometry = capture_high(&line(&["--reference-from", "r", "--hr-gbuffer"]).unwrap());
    assert_eq!(depths(&geometry), [3]);
    assert!(geometry.contains(&Action::ReadProbe));
}

#[test]
fn sequences_store_motion_at_both_resolutions() {
    let moving = choose_layout(&line(&["--hr-gbuffer", "--sequence-frames", "4"]).unwrap());
    assert!(moving.lr_planes.contains(Plane::Motion));
    assert!(moving.hr_planes.contains(Plane::Motion));
    let still = choose_layout(&line(&["--hr-gbuffer"]).unwrap());
    assert!(!still.hr_planes.contains(Plane::Motion));
    let bare = choose_layout(&line(&["--sequence-frames", "4"]).unwrap());
    assert!(!bare.hr_planes.contains(Plane::Motion));
}

#[test]
fn sidecars_say_how_paths_were_traced() {
    let facts = DatasetFacts {
        source: InputSource::PathTrace,
        len: 6,
        sequence_length: 3,
    };
    let said = |list: &[&str]| describe_paths(&line(list).unwrap(), 6);
    let matched = said(&["--samples", "2", "--sequence-frames", "3", "--seed", "5"]);
    assert_eq!(check_capture(&matched, facts), Ok(()));
    assert_eq!(matched.get("records").as_unsigned(), Some(6));
    assert_eq!(matched.get("input_max_bounces").as_unsigned(), Some(8));
    assert_eq!(matched.get("capture_seed").as_unsigned(), Some(5));
    match matched.get("scene_seeds") {
        Json::Array(seeds) => {
            let seeds: Vec<_> = seeds.iter().map(|seed| seed.as_unsigned()).collect();
            assert_eq!(seeds, [Some(5), Some(5 ^ 0x9E37_79B9)]);
        }
        other => panic!("{other:?}"),
    }
    let truncated = said(&["--input-bounces", "3"]);
    assert_eq!(check_capture(&truncated, facts), Err(CaptureError::Unmatched));
    let copied = said(&["--reference-from", "r.omd"]);
    assert_eq!(check_capture(&copied, facts), Err(CaptureError::Unmatched));
    assert!(copied.get("reference_max_bounces").is_null());
    assert!(copied.get("reference_from").is_text("r.omd"));
    let filtered = said(&["--svgf-input"]);
    assert_eq!(check_capture(&filtered, facts), Err(CaptureError::Unmatched));
}

#[test]
fn passes_follow_the_line() {
    let plain = line(&[]).unwrap();
    assert_eq!(input_pass(&plain), Pass::PathTrace { frames: plain.input_frames });
    assert_eq!(input_pass(&line(&["--svgf-input"]).unwrap()), Pass::RealTime);
    assert!(renders_high(&plain));
    assert!(matches!(high_pass(&plain), HighPass::Render { .. }));
    let layout = choose_layout(&plain);
    assert_eq!(check_references(&layout, 1, 9, &layout, 9), Ok(()));
    assert_eq!(
        check_references(&layout, 2, 9, &layout, 9),
        Err(ReferenceError::Sequences)
    );
    assert_eq!(
        check_references(&layout, 1, 8, &layout, 9),
        Err(ReferenceError::Count)
    );
    let channels = report_planes(&layout.hr_planes);
    assert_eq!(channels.len(), layout.hr_planes.channels());
    assert!(same_scene(&[1, 2, 3], &[9, 2, 3], 1));
    assert!(!same_scene(&[1, 2, 3], &[9, 2, 4], 1));
}

#[test]
fn names_are_made_of_numbers() {
    assert_eq!(num_workers(None), 2);
    assert_eq!(num_workers(Some(1)), 1);
    assert_eq!(num_workers(Some(64)), 8);
    assert_ne!(model_name(1, None), model_name(1, Some(0)));
    assert!(preview_name(3, "lr").contains("lr"));
    assert_eq!(shader_dir(Some("mine"), "root"), "mine");
    assert!(shader_dir(None, "root").starts_with("root"));
    assert_eq!(decimal_text(0), "0");
    assert_eq!(decimal_text(u64::MAX), u64::MAX.to_string());
    assert_eq!(decimal3_text(7), "007");
    assert_eq!(decimal3_text(1234), "1234");
}

#[test]
fn integers_are_read_as_the_standard_library_does() {
    for text in ["0", "+7", "007", "", "+", "-", "-1", "1x", "256", "255", "99999999999999999999"] {
        let expected = text.parse::<u8>();
        match parse_unsigned(text, 255) {
            Ok(value) => assert_eq!(expected, Ok(value as u8)),
            Err(fault) => assert_eq!(expected.unwrap_err().to_string(), fault.words()),
        }
    }
    assert_eq!(parse_unsigned("1", 0), Err(IntFault::Overflow));
}

#[test]
fn texts_are_cut_at_blanks() {
    assert_eq!(trim_text(" \t a b \n"), "a b");
    assert_eq!(next_word("  a  b").map(|w| w.0).unwrap(), "a");
    assert!(next_word("  ").is_none());
    assert!(is_blank("\u{3000}") && !is_blank("x"));
    assert!(starts_with("sphere3", "sphere") && !starts_with("box", "sphere"));
    assert_eq!(find_cut("a:b", ':', ':'), 1);
}

#[test]
fn paths_are_taken_apart_as_the_standard_library_does() {
    for text in ["a/b.c", "/a/b", "a", "/", "", "a/", "a//b", "./a", "..", "a/..", ".x", "a.b.c"] {
        let path = Path::new(text);
        let own = |p: Option<&Path>| p.map(|p| p.to_str().unwrap().to_string());
        assert_eq!(parent_path(text), own(path.parent()), "parent of {text:?}");
        assert_eq!(
            file_name_of(text),
            path.file_name().map(|n| n.to_str().unwrap().to_string()),
            "name of {text:?}"
        );
        assert_eq!(
            file_stem_of(text),
            path.file_stem().map(|n| n.to_str().unwrap().to_string()),
            "stem of {text:?}"
        );
        assert_eq!(is_absolute(text), path.is_absolute());
        assert_eq!(join_path("d", text), Path::new("d").join(text).to_str().unwrap());
    }
    assert_eq!(replace_file_name("a/b.c", "x"), "a/x");
}

#[test]
fn bits_are_ordered_as_the_numbers_are() {
    let list = [
        0.0f32,
        -0.0,
        1.0,
        -1.0,
        f32::MIN_POSITIVE,
        -f32::MIN_POSITIVE,
        f32::MAX,
        f32::INFINITY,
        f32::NEG_INFINITY,
        f32::NAN,
        -f32::NAN,
    ];
    for a in list {
        assert_eq!(is_finite32(a.to_bits()), a.is_finite());
        for b in list {
            assert_eq!(is_less32(a.to_bits(), b.to_bits()), a < b);
            assert_eq!(is_at_most32(a.to_bits(), b.to_bits()), a <= b);
            assert_eq!(is_equal32(a.to_bits(), b.to_bits()), a == b);
            assert_eq!(
                is_before32(a.to_bits(), b.to_bits()),
                a.total_cmp(&b).is_lt()
            );
            let (c, d) = (a as f64, b as f64);
            assert_eq!(is_less64(c.to_bits(), d.to_bits()), c < d);
            assert_eq!(
                is_before64(c.to_bits(), d.to_bits()),
                c.total_cmp(&d).is_lt()
            );
            let (c, d) = (half::f16::from_f32(a), half::f16::from_f32(b));
            assert_eq!(is_equal16(c.to_bits(), d.to_bits()), c == d);
        }
    }
}

fn entry(id: &str) -> Entry {
    Entry {
        id: id.into(),
        source: Source::Hssd,
        license: "MIT".into(),
        kind: Kind::Interior,
        family: id.into(),
        split: Split::Train,
        path: format!("{id}.glb"),
        scene: None,
        object_root: None,
    }
}

#[test]
fn models_are_loaded_once() {
    let catalog = Catalog {
        dir: "data".into(),
        entries: vec![entry("a"), entry("b")],
    };
    let mut loaded = Loaded::new(catalog);
    assert_eq!(loaded.bake(0, true).unwrap(), 0);
    assert_eq!(loaded.bake(1, true).unwrap(), 1);
    assert_eq!(loaded.handle("b"), Some(1));
    assert_eq!(loaded.handle("c"), None);
    assert!(loaded.furnishings("a").is_empty());
    let names = vec!["chair".to_string()];
    let (placed, _) = furnish(&mut loaded.loads, "objects", &names, &vec![true]).unwrap();
    loaded.add_furnishings("a".into(), placed);
    assert_eq!(loaded.furnishings("a")[0].handle, 2);
    assert_eq!(loaded.handle("hssd-object/chair"), Some(2));
    assert!(loaded.furnishings("b").is_empty());
    let missing = Catalog {
        dir: "data".into(),
        entries: vec![entry("a")],
    };
    assert!(Loaded::new(missing).bake(0, false).is_err());
}

#[test]
fn furnishings_share_their_models() {
    let mut loads: Vec<Load> = Vec::new();
    let names = vec!["chair".to_string(), "lamp".to_string(), "chair".to_string()];
    let (placed, missing) =
        furnish(&mut loads, "objects", &names, &vec![true, false, true]).unwrap();
    assert_eq!(placed.len(), 2);
    assert_eq!(missing, 1);
    assert_eq!(placed[0].handle, placed[1].handle);
    assert_eq!((placed[0].object, placed[1].object), (0, 2));
    assert_eq!(loads.len(), 1);
    assert_eq!(
        furnish(&mut loads, "objects", &names, &vec![false; 3]).unwrap_err(),
        FurnishError::NothingPlaced
    );
    let broken = vec!["bed".to_string(), String::new()];
    assert_eq!(
        furnish(&mut loads, "objects", &broken, &vec![true; 2]).unwrap_err(),
        FurnishError::EmptyName
    );
    assert_eq!(loads.len(), 1);
    assert_eq!(object_path("objects", ""), None);
    assert_eq!(
        object_path("objects", "chair").unwrap(),
        "objects/c/chair.glb"
    );
    assert_eq!(
        find_object_root("hssd/scenes/a.json", Some("given".into())).unwrap(),
        "given"
    );
    assert_eq!(
        find_object_root("hssd/scenes/a.json", None).unwrap(),
        "hssd/objects"
    );
    assert_eq!(
        find_object_root("a.json", None).unwrap_err(),
        FurnishError::NoRoot
    );
}
