use ommatidia_tools::dataset::InputSource;
use ommatidia_tools::json::{equal_json, is_visible_share, parse_json, Json, Numeral};
use ommatidia_tools::provenance::{
    check_corpus, check_reference, disjoint, open_capture, validate_capture, CaptureError,
    CombineError, Corpus, DatasetFacts, OverlapError,
};

fn json(text: &str) -> Json {
    parse_json(text.as_bytes()).unwrap()
}

fn covered(coverage: &str) -> Json {
    json(&format!(
        r#"{{"matching_path_depth":true,"input_estimator":"independent-paths",
            "minimum_catalog_visible_fraction":{coverage}}}"#
    ))
}

#[test]
fn capture_quality_rejects_invalid_provenance_and_invisible_assets() {
    assert!(validate_capture(&json("{}")).is_err());
    let p = json(r#"{"matching_path_depth":true,"input_estimator":"independent-paths"}"#);
    assert!(validate_capture(&p).is_ok());
    for coverage in ["0", "-1", "1.1", r#""unknown""#] {
        assert!(validate_capture(&covered(coverage)).is_err());
    }
    assert!(validate_capture(&covered("0.05")).is_ok());
}

#[test]
fn capture_quality_rejects_measured_invisible_assets() {
    let p = json(r#"{"matching_path_depth":true,"input_estimator":"independent-paths"}"#);
    assert!(validate_capture(&p).is_ok());
    for coverage in ["0", "-1", "1.1", r#""unknown""#] {
        assert!(validate_capture(&covered(coverage)).is_err());
    }
    assert!(validate_capture(&covered("0.05")).is_ok());
}

#[test]
fn training_and_development_must_not_share_scenes_or_families() {
    let corpus = |seed: u32, family: &str| Corpus::<u8> {
        frames: Vec::new(),
        width: 1,
        height: 1,
        length: 8,
        provenance: json(&format!(
            r#"{{"scene_seeds":[{seed}],"family_ids":["{family}"]}}"#
        )),
    };
    let training = corpus(7, "chair-a");
    assert!(training.disjoint(&corpus(7, "chair-b")).is_err());
    assert!(training.disjoint(&corpus(8, "chair-a")).is_err());
    assert!(training.disjoint(&corpus(8, "chair-b")).is_ok());
}

#[test]
fn overlaps_are_told_apart_and_go_both_ways() {
    let a = json(r#"{"scene_seeds":[1,2],"family_ids":["x"]}"#);
    let seeds = json(r#"{"scene_seeds":[2],"family_ids":["y"]}"#);
    let families = json(r#"{"scene_seeds":[3],"family_ids":["x"]}"#);
    assert_eq!(disjoint(&a, &seeds), Err(OverlapError::Seeds));
    assert_eq!(disjoint(&seeds, &a), Err(OverlapError::Seeds));
    assert_eq!(disjoint(&a, &families), Err(OverlapError::Families));
    assert_eq!(disjoint(&families, &a), Err(OverlapError::Families));
    assert_eq!(
        disjoint(&a, &json(r#"{"family_ids":[]}"#)),
        Err(OverlapError::NoSeeds)
    );
    assert_eq!(
        disjoint(&a, &json(r#"{"scene_seeds":["one"]}"#)),
        Err(OverlapError::BadSeed)
    );
}

fn facts(len: usize, sequence_length: usize) -> DatasetFacts {
    DatasetFacts {
        source: InputSource::PathTrace,
        len,
        sequence_length,
    }
}

#[test]
fn what_a_capture_lacks_is_told_apart() {
    let text = |records: &str| {
        format!(
            r#"{{"matching_path_depth":true,"input_estimator":"independent-paths","records":{records}}}"#
        )
    };
    let open = |text: &str, facts| open_capture(text.as_bytes(), facts).map(|_| ());
    assert_eq!(open(&text("8"), facts(8, 4)), Ok(()));
    assert_eq!(open("{", facts(8, 4)), Err(CaptureError::Malformed));
    assert_eq!(open("{}", facts(8, 4)), Err(CaptureError::Unmatched));
    assert_eq!(open(&text("7"), facts(8, 4)), Err(CaptureError::Records));
    let filtered = DatasetFacts {
        source: InputSource::Svgf,
        ..facts(8, 4)
    };
    assert_eq!(open(&text("8"), filtered), Err(CaptureError::Source));
    assert_eq!(
        validate_capture(&covered(r#""unknown""#)),
        Err(CaptureError::Coverage)
    );
    assert_eq!(validate_capture(&covered("0")), Err(CaptureError::Invisible));
}

#[test]
fn corpora_are_joined_in_their_order() {
    let corpus = |frames: Vec<u8>, seed: u32, width: u32| Corpus {
        frames,
        width,
        height: 2,
        length: 2,
        provenance: json(&format!(r#"{{"scene_seeds":[{seed}],"family_ids":[]}}"#)),
    };
    let joined = Corpus::combine(vec![corpus(vec![1, 2], 1, 2), corpus(vec![3, 4], 2, 2)]).unwrap();
    assert_eq!(joined.frames, [1, 2, 3, 4]);
    assert_eq!(
        Corpus::combine(vec![corpus(vec![1, 2], 1, 2), corpus(vec![3, 4], 2, 3)]).unwrap_err(),
        CombineError::Mismatch
    );
    assert_eq!(
        Corpus::<u8>::combine(vec![]).unwrap_err(),
        CombineError::Empty
    );
}

#[test]
fn a_black_reference_is_refused() {
    let bits = |v: &[f32]| v.iter().map(|v| v.to_bits()).collect::<Vec<_>>();
    assert!(check_reference(&bits(&[0.0, 0.5]), &bits(&[1.0])));
    assert!(!check_reference(&bits(&[0.0, 1e-7]), &bits(&[1.0])));
    assert!(!check_reference(&bits(&[0.5]), &bits(&[-1.0])));
    assert!(!check_reference(&bits(&[f32::NAN]), &bits(&[1.0])));
    assert!(check_corpus(&json("{}"), 8, 4).is_err());
}

#[test]
fn json_is_read_and_looked_into() {
    let p = json(r#"{"a":[1,-2,0.5,true,null],"b":"text"}"#);
    assert!(p.get("b").is_text("text"));
    assert!(p.get("c").is_null());
    match p.get("a") {
        Json::Array(items) => {
            assert_eq!(items.len(), 5);
            assert_eq!(items[0].as_unsigned(), Some(1));
            assert_eq!(items[1].as_unsigned(), None);
            assert!(matches!(items[1], Json::Number(Numeral::Negative(-2))));
            assert!(matches!(items[2], Json::Number(Numeral::Real(b)) if f64::from_bits(b) == 0.5));
            assert!(items[3].is_true());
            assert!(items[4].is_null());
        }
        _ => panic!("not a list"),
    }
    assert!(parse_json(b"[1,").is_err());
    assert!(equal_json(&p, &json(r#"{"b":"text","a":[1,-2,0.5,true,null]}"#)));
    assert!(!equal_json(&json("1"), &json("1.0")));
    assert!(!equal_json(&p, &json("{}")));
}

#[test]
fn shares_are_between_a_hundredth_and_one() {
    assert!(is_visible_share(Numeral::Real(0.05f64.to_bits())));
    assert!(is_visible_share(Numeral::Unsigned(1)));
    assert!(!is_visible_share(Numeral::Unsigned(0)));
    assert!(!is_visible_share(Numeral::Unsigned(2)));
    assert!(!is_visible_share(Numeral::Negative(-1)));
    assert!(!is_visible_share(Numeral::Real(1.1f64.to_bits())));
}
