use ommatidia_tools::dataset::{same_layout, InputSource, Layout, Plane, PlaneSet};
use ommatidia_tools::gbuffer;
use ommatidia_tools::mesh::{box_indices, face_indices, pack_normal, rect_indices, sphere_indices};
use ommatidia_tools::radiance;
use ommatidia_tools::render::{
    capture, capture_to, plan_frame, Action, Pass, RayConfig, RenderMode, FRAMES_PER_SUBMISSION,
    INPUT_MAX_BOUNCES, REFERENCE_MAX_BOUNCES, RESTIR_FRAMES,
};
use ommatidia_tools::texture::{bake, checker, stamp_dot, tap_lattice, KINDS, SIZE};

#[test]
fn the_probe_matches_the_dataset_plane_order() {
    // The generator concatenates colour and then these, so the shader's
    // write order has to be the order `PlaneSet::list` walks.
    let set = gbuffer::plane_set().with(Plane::Color);
    let walked: Vec<Plane> = set.list();
    assert_eq!(walked[0], Plane::Color);
    assert_eq!(&walked[1..], &gbuffer::PLANES);
    assert_eq!(gbuffer::channels(), 11);
    assert_eq!(set.channels(), 14);
}

#[test]
fn planes_have_dataset_order() {
    assert_eq!(radiance::plane_set().list(), radiance::PLANES);
    assert_eq!(radiance::plane_set().channels(), 9);
}

#[test]
fn reference_paths_are_deeper_than_realtime_inputs() {
    let input = Pass::PathTrace { frames: 1 }.ray_config();
    let reference = Pass::Canonical { frames: 1 }.ray_config();

    assert_eq!(input.num_brdf_samples, 1);
    assert_eq!(input.max_bounces, INPUT_MAX_BOUNCES);
    assert_eq!(reference.num_brdf_samples, 4);
    assert_eq!(reference.max_bounces, REFERENCE_MAX_BOUNCES);
    assert!(reference.max_bounces > input.max_bounces);
}

#[test]
fn baking_produces_a_decodable_png_of_the_right_size() {
    for (shift, _) in KINDS.iter().enumerate() {
        let greys: Vec<u8> = (0..SIZE * SIZE).map(|i| (i >> shift) as u8).collect();
        let bytes = bake(&greys);
        let decoder = png::Decoder::new(std::io::Cursor::new(&bytes));
        let mut reader = decoder.read_info().expect("decodes");
        let info = reader.info();
        assert_eq!((info.width as usize, info.height as usize), (SIZE, SIZE));
        let mut read = vec![0; reader.output_buffer_size()];
        reader.next_frame(&mut read).unwrap();
        for (texel, grey) in read.chunks_exact(4).zip(&greys) {
            assert_eq!(texel, [*grey, *grey, *grey, 255]);
        }
    }
}

#[test]
fn groups_cover_their_length() {
    assert_eq!(gbuffer::group_count(1), 1);
    assert_eq!(gbuffer::group_count(8), 1);
    assert_eq!(gbuffer::group_count(9), 2);
    assert_eq!(gbuffer::probe_len(11, 3, 2), 66);
}

#[test]
fn plane_sets_hold_what_they_are_given() {
    let set = PlaneSet::new().with(Plane::Motion).with(Plane::Color);
    assert!(set.contains(Plane::Motion) && !set.contains(Plane::Depth));
    assert_eq!(set.channel_offset(Plane::Motion), Some(3));
    assert_eq!(set.channel_offset(Plane::Depth), None);
    assert_eq!(set.without(Plane::Color).list(), [Plane::Motion]);
    assert!(set.same_as(&PlaneSet::new().with(Plane::Color).with(Plane::Motion)));
    for i in 0..11 {
        assert_eq!(Plane::from_index(i).index(), i);
    }
    let layout = Layout {
        scale: 2,
        lr_width: 4,
        lr_height: 4,
        lr_source: InputSource::PathTrace,
        lr_planes: set,
        hr_planes: set,
    };
    let other = Layout {
        lr_source: InputSource::Svgf,
        ..layout
    };
    assert!(same_layout(&layout, &other));
    let other = Layout { scale: 4, ..layout };
    assert!(!same_layout(&layout, &other));
}

#[test]
fn passes_render_as_many_frames_as_they_need() {
    assert_eq!(Pass::RealTime.frames(), RESTIR_FRAMES);
    assert_eq!(Pass::PathTrace { frames: 3 }.frames(), 3);
    assert_eq!(Pass::Canonical { frames: 64 }.frames(), 64);
    assert_eq!(Pass::RealTime.mode(), RenderMode::RealTime);
    assert_eq!(Pass::Canonical { frames: 1 }.mode(), RenderMode::Canonical);
    assert!(plan_frame(Pass::RealTime, false, 0).reset);
    assert!(!plan_frame(Pass::RealTime, false, 1).reset);
}

#[test]
fn submissions_stay_bounded() {
    let count = |pass: Pass| {
        capture(pass, false, false)
            .iter()
            .filter(|a| matches!(a, Action::Render { .. }))
            .count()
    };
    assert_eq!(count(Pass::Canonical { frames: 70 }), 70);
    let mut since = 0;
    for action in capture(Pass::Canonical { frames: 70 }, false, true) {
        match action {
            Action::Render { .. } => since += 1,
            Action::Submit => since = 0,
            _ => {}
        }
        assert!(since <= FRAMES_PER_SUBMISSION);
    }
    let probed = capture(Pass::RealTime, true, true);
    assert!(probed.iter().any(|a| matches!(a, Action::ReadProbe)));
    let plain = capture(Pass::RealTime, true, false);
    assert!(!plain.iter().any(|a| matches!(a, Action::ReadProbe)));
    assert!(plain.iter().any(|a| matches!(a, Action::ReadColor)));
    let deep = capture_to(Pass::PathTrace { frames: 1 }, 6, false, false);
    let deeper = RayConfig {
        max_bounces: 6,
        ..Pass::PathTrace { frames: 1 }.ray_config()
    };
    assert!(deep.contains(&Action::Render {
        mode: RenderMode::Canonical,
        rays: deeper,
        denoiser: None,
    }));
    let own = capture(Pass::RealTime, false, false);
    assert_eq!(own, capture_to(Pass::RealTime, INPUT_MAX_BOUNCES, false, false));
}

#[test]
fn lattices_tile() {
    let last = tap_lattice(SIZE - 1, SIZE - 1, 4);
    assert_eq!(last.top_right % 4, 0);
    assert_eq!(last.step, SIZE / 4);
    let first = tap_lattice(0, 0, 4);
    assert_eq!((first.top_left, first.x, first.y), (0, 0, 0));
}

#[test]
fn checkers_alternate() {
    let columns = SIZE / 32 + 1;
    let light = vec![1; columns * columns];
    let dark = vec![0; columns * columns];
    let texture = checker(32, &light, &dark);
    assert_eq!(texture.len(), SIZE * SIZE);
    assert_ne!(texture[0], texture[32]);
    assert_ne!(texture[0], texture[32 * SIZE]);
    assert_eq!(texture[0], texture[33 * SIZE + 33]);
}

#[test]
fn dots_are_cut_at_the_edges() {
    let mut texture = vec![0; SIZE * SIZE];
    stamp_dot(&mut texture, 0, 0, 1, &[true; 9], 5);
    assert_eq!(texture.iter().filter(|v| **v == 5).count(), 4);
    assert_eq!(texture[SIZE + 1], 5);
    assert_eq!(texture[SIZE * SIZE - 1], 0);
    stamp_dot(&mut texture, 8, 8, 0, &[false], 7);
    assert!(!texture.contains(&7));
    stamp_dot(&mut texture, 8, 8, 0, &[true], 7);
    assert_eq!(texture[8 * SIZE + 8], 7);
    stamp_dot(&mut texture, i32::MAX, i32::MIN, 0, &[true], 9);
    assert!(!texture.contains(&9));
}

#[test]
fn meshes_are_made_of_triangles() {
    assert_eq!(rect_indices().len(), 6);
    assert_eq!(box_indices().len(), 36);
    assert_eq!(face_indices(2)[6..].iter().min(), Some(&4));
    let sphere = sphere_indices();
    assert_eq!(sphere.len() % 3, 0);
    assert!(!sphere.is_empty());
    assert_eq!(pack_normal(1, 2, 3), 0x0003_0201);
}

#[test]
fn plane_sets_hold_nothing_but_their_planes() {
    let set = PlaneSet::new().with(Plane::Color).with(Plane::Depth);
    assert_eq!((PlaneSet::new().bits, set.bits), (0, 0b11));
    assert_eq!(set.without(Plane::Color).bits, 0b10);
}

#[test]
fn equal_plane_sets_have_equal_masks() {
    let one = PlaneSet::new().with(Plane::Jitter).with(Plane::Color);
    let other = PlaneSet::new()
        .with(Plane::Color)
        .with(Plane::Depth)
        .with(Plane::Jitter)
        .without(Plane::Depth);
    assert!(one.same_as(&other));
    assert_eq!((one.bits, other.bits), (0b100_0000_0001, 0b100_0000_0001));
}
