use ommatidia_tools::dataset::{InputSource, Layout, PlaneSet};
use ommatidia_tools::field::{
    ablated, batch_pixels, check_corpus, check_start, choose_graph, consistency_seeds, draw_pixels,
    example_file, extents_match, find_sources, gather_batches, geometry, is_weight, load,
    parse_args, ray_weights, reports_update, split_views, step_seeds, Args, Camera, Graph, Known,
    LoadError, Plan, RayFacts, SceneFacts, StartError,
};
use ommatidia_tools::options::{Fault, Word};

fn line(list: &[&str]) -> Result<Args, Fault> {
    parse_args(
        &list
            .iter()
            .map(|text| Word {
                text: text.to_string(),
                real: text
                    .parse::<f32>()
                    .map(f32::to_bits)
                    .map_err(|e| e.to_string()),
                device: Err("no device".into()),
            })
            .collect(),
    )
}

fn known() -> Known {
    Known {
        same_directory: false,
        settings_valid: true,
        rays_valid: true,
        training_rays_valid: true,
        visible_rgb: true,
        bins: 16,
    }
}

fn start(list: &[&str], known: Known) -> Result<Plan, StartError> {
    check_start(&line(list).unwrap(), known)
}

#[test]
fn recovery_rejects_its_source_directory() {
    let recovered = Known {
        same_directory: true,
        ..known()
    };
    let list = ["--data", "not-read.omd", "--eval-checkpoint", "model"];
    assert_eq!(start(&list, recovered), Err(StartError::SameDirectory));
    let plan = start(&list, known()).unwrap();
    assert_eq!(plan.steps, 0);
    // Without a checkpoint the directory is free.
    assert_eq!(start(&list[..2], recovered).unwrap().steps, 256);
}

#[test]
fn lines_are_read() {
    let args = line(&["--data", "a", "--view-fusion", "late-rgb", "--image", "64"]).unwrap();
    assert_eq!(args.view_fusion, 1);
    assert_eq!(args.image, Some(64));
    assert_eq!(args.out, "target/field");
    assert_eq!((args.rays, args.samples, args.probes), (16, 32, 16));
    assert_eq!(f32::from_bits(args.rate), 1e-3);
    assert_eq!(f32::from_bits(args.incident_weight), 0.1);
    assert_eq!(f32::from_bits(args.visibility_weight), 0.05);
    assert_eq!(args.surface_weight, None);
    assert!(matches!(
        line(&["--view-fusion", "other"]),
        Err(Fault::Choice(_, _))
    ));
    assert!(matches!(line(&["-h"]), Err(Fault::Help)));
}

#[test]
fn starts_are_refused_for_a_reason() {
    let base = ["--data", "a"];
    let plan = start(&base, known()).unwrap();
    assert_eq!((plan.steps, plan.training_rays, plan.incident_weight), (256, 16, 0));
    let plan = start(&["--data", "a", "--incident-rays", "4"], known()).unwrap();
    assert_eq!(plan.training_rays, 20);
    assert_eq!(f32::from_bits(plan.incident_weight), 0.1);
    let fails = |more: &[&str]| {
        let mut list = vec!["--data", "a"];
        list.extend_from_slice(more);
        start(&list, known()).unwrap_err()
    };
    assert_eq!(
        fails(&["--surface-weight", "-1"]),
        StartError::SurfaceWeight
    );
    assert_eq!(
        fails(&["--emitter-fraction", "1.5"]),
        StartError::SurfaceWeight
    );
    let huge = usize::MAX.to_string();
    assert_eq!(fails(&["--incident-rays", &huge]), StartError::Rays);
    assert_eq!(
        fails(&["--consistency-weight", "nan"]),
        StartError::Consistency
    );
    assert_eq!(
        fails(&["--consistency-rays", "4", "--samples", "40"]),
        StartError::Consistency
    );
    assert_eq!(
        fails(&["--incident-weight", "inf"]),
        StartError::IncidentWeight
    );
    assert_eq!(fails(&["--steps", "0"]), StartError::Nothing);
    assert_eq!(fails(&["--rate", "0"]), StartError::Nothing);
    assert_eq!(start(&[], known()), Err(StartError::Nothing));
    let invalid = Known {
        settings_valid: false,
        ..known()
    };
    assert_eq!(start(&base, invalid), Err(StartError::Settings));
    assert!(is_weight(0) && is_weight((-0.0f32).to_bits()));
    assert!(!is_weight((-1.0f32).to_bits()));
}

#[test]
fn evaluated_scenes_must_be_unseen() {
    let scene = |scene_seed| SceneFacts {
        scene_seed,
        incident: true,
        surfaces: true,
    };
    let plain = line(&["--data", "a"]).unwrap();
    let train = vec![scene(1), scene(2)];
    assert_eq!(check_corpus(&plain, &train, &vec![3]), Ok(()));
    assert_eq!(
        check_corpus(&plain, &train, &vec![3, 2]),
        Err(StartError::SeenScene)
    );
    assert_eq!(
        check_corpus(&plain, &vec![], &vec![]),
        Err(StartError::EmptyCorpus)
    );
    let dark = vec![SceneFacts {
        incident: false,
        ..scene(1)
    }];
    let incident = line(&["--incident-rays", "1"]).unwrap();
    assert_eq!(check_corpus(&plain, &dark, &vec![]), Ok(()));
    assert_eq!(
        check_corpus(&incident, &dark, &vec![]),
        Err(StartError::NoIncident)
    );
    let bare = vec![SceneFacts {
        surfaces: false,
        ..scene(1)
    }];
    let surfaces = line(&["--surface-weight", "0"]).unwrap();
    assert_eq!(
        check_corpus(&surfaces, &bare, &vec![]),
        Err(StartError::NoSurfaces)
    );
    let weight = line(&["--visibility-weight", "-1"]).unwrap();
    assert_eq!(
        check_corpus(&weight, &train, &vec![]),
        Err(StartError::VisibilityWeight)
    );
}

#[test]
fn graphs_follow_what_is_trained() {
    let graph = |list: &[&str]| choose_graph(&line(list).unwrap());
    assert_eq!(graph(&[]), Graph::Plain);
    assert_eq!(graph(&["--surface-weight", "0"]), Graph::Surfaces);
    assert_eq!(
        graph(&["--consistency-rays", "1"]),
        Graph::Consistent { surfaces: false }
    );
    assert_eq!(graph(&["--eval-checkpoint", "x"]), Graph::Recovered);
}

#[test]
fn cameras_have_one_use_each() {
    let split = split_views(3, &vec![false; 8]).unwrap();
    assert_eq!(split.contexts, [0, 2, 4]);
    assert_eq!(split.train, [1, 3, 5, 6]);
    assert_eq!(split.held, 7);
    assert_eq!(
        split_views(3, &vec![false; 4]).unwrap_err(),
        LoadError::Cameras
    );
    let mut same = vec![false; 8];
    same[2] = true;
    assert_eq!(split_views(3, &same).unwrap_err(), LoadError::Duplicate);
    same[2] = false;
    same[1] = true;
    assert!(split_views(3, &same).is_ok());
}

fn camera(scene: usize, x: f32) -> Camera {
    Camera {
        scene,
        origin: (x.to_bits(), 0, 0),
        planes: Some([x, 1.0, 2.0].map(f32::to_bits).to_vec()),
    }
}

#[test]
fn captures_are_loaded_scene_by_scene() {
    let cameras = vec![
        camera(0, 1.0),
        camera(1, 5.0),
        camera(0, 2.0),
        camera(1, 6.0),
        camera(0, 3.0),
        camera(1, 7.0),
    ];
    let list = load(true, 2, &cameras, 1, 1).unwrap();
    assert_eq!(list[0].cameras, [0, 2, 4]);
    assert_eq!(list[1].cameras, [1, 3, 5]);
    assert_eq!(list[0].split.contexts, [0]);
    assert_eq!(list[0].split.train, [1]);
    assert_eq!(list[0].split.held, 2);
    assert_eq!(list[1].pictures[1], [6.0, 1.0, 2.0].map(f32::to_bits));
    assert_eq!(
        load(false, 2, &cameras, 1, 1).unwrap_err(),
        LoadError::Extent
    );
    assert_eq!(
        load(true, 3, &cameras, 1, 1).unwrap_err(),
        LoadError::Cameras
    );
}

#[test]
fn bad_pictures_are_told_apart() {
    let mut cameras = vec![camera(0, 1.0), camera(0, 2.0), camera(0, 3.0)];
    cameras[1].planes = None;
    assert_eq!(
        load(true, 1, &cameras, 1, 1).unwrap_err(),
        LoadError::NoColor
    );
    cameras[1] = camera(0, -2.0);
    assert_eq!(load(true, 1, &cameras, 1, 1).unwrap_err(), LoadError::Color);
    cameras[1] = camera(0, 2.0);
    cameras[2].origin = ((1.0f32).to_bits(), (-0.0f32).to_bits(), 0);
    assert_eq!(
        load(true, 1, &cameras, 1, 1).unwrap_err(),
        LoadError::Duplicate
    );
}

#[test]
fn pictures_are_gathered_from_their_batches() {
    assert_eq!(batch_pixels(3, 3, 5), [3, 4, 4]);
    let batches = vec![vec![0, 10, 1, 11, 2, 12], vec![3, 13, 4, 14, 9, 9]];
    assert_eq!(
        gather_batches(&batches, 3, 2, 5),
        [0, 10, 1, 11, 2, 12, 3, 13, 4, 14]
    );
    assert_eq!(ray_weights(&[1, 2, 3, 4, 5, 6], 2, 3, 1), [2, 4, 6]);
}

#[test]
fn views_lose_their_pictures() {
    let views = vec![vec![1, 2, 3], vec![4, 5, 6], vec![7, 8, 9]];
    assert_eq!(ablated(&views, true, 0), vec![vec![0; 3]; 3]);
    assert_eq!(
        ablated(&views, false, 0),
        [vec![4, 5, 6], vec![7, 8, 9], vec![1, 2, 3]]
    );
    let one = vec![(0..12).collect::<Vec<i32>>()];
    // Four texels turn by one.
    assert_eq!(
        ablated(&one, false, 0),
        [vec![3, 4, 5, 6, 7, 8, 9, 10, 11, 0, 1, 2]]
    );
}

#[test]
fn rays_are_counted() {
    let ray = |classed, opaque, hit, source| RayFacts {
        classed,
        opaque,
        hit,
        source,
    };
    let counts = geometry(&vec![
        ray(true, true, true, true),
        ray(true, true, false, false),
        ray(true, false, true, false),
        ray(false, true, true, true),
    ]);
    assert_eq!((counts.valid, counts.excluded), (3, 1));
    assert_eq!((counts.correct, counts.hits, counts.sources), (1, 2, 1));
}

#[test]
fn consistency_is_scored_on_enough_rays() {
    let seeds = consistency_seeds(100, 32, 16).unwrap();
    assert_eq!(seeds.len(), 6);
    assert_eq!(seeds[1], 0x32A7_4DA9 ^ 1);
    assert_eq!(consistency_seeds(512, 32, 16).unwrap().len(), 1);
    assert_eq!(consistency_seeds(1000, 32, 16).unwrap().len(), 1);
    assert!(consistency_seeds(16, 33, 16).is_none());
}

#[test]
fn lights_are_drawn_first() {
    let sources = find_sources(&vec![false, true, false, true]);
    assert_eq!(sources, [1, 3]);
    assert_eq!(draw_pixels(&sources, 2, 4, &vec![4, 5, 6]), [1, 3, 2]);
    assert_eq!(draw_pixels(&vec![], 2, 4, &vec![4, 5, 6]), [0, 1, 2]);
}

#[test]
fn steps_have_seeds_of_their_own() {
    let seeds = step_seeds(7, 0);
    assert_eq!(seeds.incident, 7);
    assert_eq!(seeds.consistency, 7 ^ 0xBE54_66CF_34E9_0C6C);
    assert_eq!(seeds.samples, 7 ^ 0xA24B_AED4_963E_E407);
    assert_eq!(step_seeds(7, 3).emission, 10);
    assert_eq!(
        step_seeds(7, 3).incident,
        7 ^ 3u64.wrapping_mul(0xD1B5_4A32_D192_ED03)
    );
    assert!(reports_update(16) && !reports_update(15));
    assert_eq!(example_file(2, "fit.png"), "2-fit.png");
}

#[test]
fn captures_have_the_extent_of_their_field() {
    let layout = Layout {
        scale: 2,
        lr_width: 8,
        lr_height: 4,
        lr_source: InputSource::PathTrace,
        lr_planes: PlaneSet::new(),
        hr_planes: PlaneSet::new(),
    };
    assert!(extents_match((16, 8), &layout, (16, 8)));
    assert!(!extents_match((16, 16), &layout, (16, 8)));
    assert!(!extents_match((8, 4), &layout, (8, 4)));
}
