use ommatidia_tools::field_capture::{labels, relight};
use ommatidia_tools::incident::{
    any_light, direct_parts, emission_spots, find_emitters, find_receivers, queries, Batch, Facets,
    IncidentError, Proposal, QueryDraw, Rgb, DISTANCE, SKY_DEPTH,
};
use ommatidia_tools::scene::{build, split_moving_geometry, SceneConfig, Shape, Surface};

/// Uniform numbers in `[0, 1)` as bits.
fn draws(seed: u64, count: usize) -> Vec<u32> {
    let mut state = seed.wrapping_mul(0x9E37_79B9_7F4A_7C15) | 1;
    (0..count)
        .map(|_| {
            state = state
                .wrapping_mul(6364136223846793005)
                .wrapping_add(1442695040888963407);
            (((state >> 40) as f32) / (1u64 << 24) as f32).to_bits()
        })
        .collect()
}

fn scene(config: &SceneConfig, seed: u64) -> Vec<Surface> {
    build(config, &draws(seed, 4096))
}

fn total(config: &SceneConfig) -> usize {
    config.sphere_count + config.box_count + config.light_count + 1
}

#[test]
fn scenes_are_deterministic_and_varied() {
    let config = SceneConfig::default();
    let a = scene(&config, 1);
    let b = scene(&config, 1);
    let c = scene(&config, 2);
    assert_eq!(a.len(), total(&config));
    let roughness = |s: &Surface, seed| draws(seed, 4096)[s.roughness.unwrap()];
    assert_eq!(
        roughness(&a[1], 1),
        roughness(&b[1], 1),
        "same seed, same scene"
    );
    assert_ne!(roughness(&a[1], 1), roughness(&c[1], 2), "seeds should differ");
}

#[test]
fn moving_geometry_is_one_sphere_and_one_box() {
    let config = SceneConfig::default();
    let (static_geometry, moving_geometry) = split_moving_geometry(scene(&config, 5), 7, 3);
    assert_eq!(
        static_geometry.len() + moving_geometry.len(),
        config.sphere_count + config.box_count + config.light_count + 1
    );
    assert_eq!(moving_geometry.len(), 2);
    assert!(moving_geometry
        .iter()
        .any(|surface| surface.name.starts_with("sphere")));
    assert!(moving_geometry
        .iter()
        .any(|surface| surface.name.starts_with("box")));
    assert!(static_geometry
        .iter()
        .any(|surface| surface.name == "ground"));
}

#[test]
fn textures_reach_surfaces_but_never_the_lights() {
    let plain = SceneConfig::default();
    assert!(
        scene(&plain, 5).iter().all(|s| s.texture.is_none()),
        "textures are off by default, so every published dataset still means what it meant"
    );

    let config = SceneConfig {
        textures: true,
        ..SceneConfig::default()
    };
    let scene = scene(&config, 5);
    let textured = scene.iter().filter(|s| s.texture.is_some()).count();
    assert!(
        textured >= 3,
        "only {textured} of {} surfaces got a texture",
        scene.len()
    );
    // An emissive sphere is the light, not a surface being lit, and
    // multiplying its base colour by a pattern would do nothing anyway.
    assert!(
        scene
            .iter()
            .filter(|s| s.name.starts_with("light"))
            .all(|s| s.texture.is_none()),
        "a light was given a texture"
    );
    // One scene should not be one pattern repeated, or a network can learn
    // the texture as a constant rather than reconstructing it.
    let kinds: std::collections::BTreeSet<_> = scene
        .iter()
        .filter_map(|s| s.texture.map(|kind| format!("{kind:?}")))
        .collect();
    assert!(kinds.len() > 1, "the whole scene used {kinds:?}");
}

#[test]
fn gloss_adds_a_tight_lobe_without_removing_the_rough_ones() {
    let config = SceneConfig {
        gloss: true,
        ..SceneConfig::default()
    };
    let numbers = draws(11, 4096);
    let shaded = |config: &SceneConfig| -> Vec<f32> {
        scene(config, 11)
            .iter()
            .filter(|s| s.name.starts_with("sphere") || s.name.starts_with("box"))
            .map(|s| {
                let drawn = f32::from_bits(numbers[s.roughness.unwrap()]);
                if s.tight {
                    0.04 + 0.1 * drawn
                } else {
                    0.15 + 0.75 * drawn
                }
            })
            .collect()
    };
    let glossy = shaded(&config);
    assert!(
        glossy.iter().any(|&r| r < 0.15),
        "no surface got a tight lobe: {glossy:?}"
    );
    assert!(
        glossy.iter().any(|&r| r > 0.5),
        "everything went glossy, which would make the input mostly variance: {glossy:?}"
    );
    // Without the flag the floor holds, because that is what keeps the
    // sparse estimator's variance down on the existing sets.
    let plain = shaded(&SceneConfig::default());
    assert_eq!(plain.len(), config.sphere_count + config.box_count);
    assert!(
        plain.iter().all(|&r| r >= 0.15),
        "the default roughness floor moved"
    );
}

#[test]
fn patches_and_canopies_take_the_place_of_the_ground() {
    let config = SceneConfig {
        ground_patches: 3,
        ..SceneConfig::default()
    };
    let patched = scene(&config, 3);
    assert_eq!(
        patched
            .iter()
            .filter(|s| matches!(s.shape, Shape::Patch { .. }))
            .count(),
        9
    );
    assert!(patched.iter().all(|s| s.shape != Shape::Ground));
    let config = SceneConfig {
        canopy: true,
        ..SceneConfig::default()
    };
    assert!(scene(&config, 3)
        .iter()
        .any(|s| matches!(s.shape, Shape::Canopy(_))));
}

fn rgb(r: f32, g: f32, b: f32) -> Rgb {
    Rgb {
        r: r.to_bits(),
        g: g.to_bits(),
        b: b.to_bits(),
    }
}

#[test]
fn probes_are_deterministic_and_do_not_change_with_emitter_intensity() {
    let config = SceneConfig::default();
    let surfaces = scene(&config, 7);
    let mut emissions: Vec<Rgb> = surfaces
        .iter()
        .map(|s| match s.shape {
            Shape::Light => rgb(4.0, 2.0, 1.0),
            _ => rgb(0.0, 0.0, 0.0),
        })
        .collect();
    let facets = |emissions: &[Rgb]| -> Vec<Facets> {
        emissions
            .iter()
            .map(|&emission| Facets {
                emission,
                triangles: 12,
            })
            .collect()
    };
    let drawn = || -> Vec<QueryDraw> {
        (0..32)
            .map(|i| QueryDraw {
                surface: i * 7,
                triangle: i * 5,
                aims: vec![false, i % 3 == 0],
            })
            .collect()
    };
    let a = queries(&facets(&emissions), &drawn()).unwrap();
    let lights = find_emitters(&emissions).len();
    relight(&mut emissions, &Some(vec![rgb(0.5, 8.0, 0.25); lights]));
    let b = queries(&facets(&emissions), &drawn()).unwrap();
    assert_eq!(a.len(), 32);
    assert!(a.iter().zip(&b).all(|(a, b)| a == b));
    assert!(a.iter().any(|q| q.proposal() == Proposal::EmitterAimed));
}

#[test]
fn relighting_preserves_geometry_and_labels_actual_emitters() {
    let config = SceneConfig::default();
    let surfaces = scene(&config, 3);
    for (a, b) in surfaces.iter().zip(&scene(&config, 3)) {
        assert_eq!((&a.name, a.shape, a.at), (&b.name, b.shape, b.at));
    }
    let before: Vec<Rgb> = surfaces
        .iter()
        .map(|s| match s.shape {
            Shape::Light => rgb(4.0, 2.0, 1.0),
            _ => rgb(0.0, 0.0, 0.0),
        })
        .collect();
    let mut after = before.clone();
    relight(&mut after, &None);
    assert_eq!(after, before);
    let colors = (0..config.light_count)
        .map(|i| rgb(i as f32 + 1.0, 1.0, 1.0))
        .collect();
    relight(&mut after, &Some(colors));
    assert_ne!(after, before);
    let labelled = labels(&after, &vec![12; after.len()]);
    assert_eq!(labelled.emitters.len(), config.light_count);
    assert_eq!(labelled.emitters, find_emitters(&before));
    for (i, light) in labelled.emitters.iter().enumerate() {
        assert_eq!(after[*light], rgb(i as f32 + 1.0, 1.0, 1.0));
    }
    assert!(labelled
        .probes
        .iter()
        .any(|p| after[p.surface] == rgb(0.0, 0.0, 0.0)));
}

#[test]
fn queries_need_a_surface_that_receives_light() {
    let light = Facets {
        emission: rgb(1.0, 0.0, 0.0),
        triangles: 4,
    };
    let flat = Facets {
        emission: rgb(0.0, 0.0, 0.0),
        triangles: 0,
    };
    let wall = Facets {
        triangles: 2,
        ..flat
    };
    assert!(queries(&vec![light, flat], &vec![]).is_none());
    assert_eq!(find_receivers(&vec![light, wall, flat, wall]), [1, 3]);
    assert!(any_light(&vec![light]));
    assert!(!any_light(&vec![wall]));
    let drawn = QueryDraw {
        surface: 0,
        triangle: 3,
        aims: vec![true],
    };
    let list = queries(&vec![wall, light], &vec![drawn]).unwrap();
    assert_eq!(
        (list[0].surface, list[0].triangle, list[0].aim),
        (0, 1, None)
    );
}

#[test]
fn large_surfaces_are_probed_sparsely() {
    let spots = emission_spots(&vec![1, 0, 640]);
    assert_eq!(spots.len(), 1 + 64);
    assert_eq!((spots[0].surface, spots[0].triangle), (0, 0));
    assert_eq!((spots[2].surface, spots[2].triangle), (2, 10));
}

#[test]
fn direct_light_is_emission_or_sky() {
    let batch = |depth: u32| Batch {
        depth,
        light: rgb(3.0, 3.0, 3.0),
        emission: rgb(2.0, 1.0, 0.5),
        below: false,
    };
    let near = 2.0f32.to_bits();
    assert_eq!(
        direct_parts(true, &vec![batch(near)]).unwrap(),
        [rgb(2.0, 1.0, 0.5)]
    );
    assert_eq!(
        direct_parts(true, &vec![batch(SKY_DEPTH)]).unwrap(),
        [rgb(3.0, 3.0, 3.0)]
    );
    assert_eq!(
        direct_parts(false, &vec![batch(near)]).unwrap_err(),
        IncidentError::Camera
    );
    let below = Batch {
        below: true,
        ..batch(near)
    };
    assert_eq!(
        direct_parts(true, &vec![below]).unwrap_err(),
        IncidentError::Below
    );
    assert!(f32::from_bits(DISTANCE) < f32::from_bits(SKY_DEPTH));
}
