use ommatidia_tools::dataset::{Plane, PlaneSet};
use ommatidia_tools::image::{with_alpha, write_png};
use ommatidia_tools::pixels::{
    bilinear_tap, crop_grid, drop_alpha, from_planes, interleaved, nearest, paste_tile,
    temporal_evidence, to_planes, zip_pairs,
};

/// Bilinear upsampling of interleaved colour, by the taps of each axis.
fn bilinear(low: &[f32], width: usize, height: usize, scale: usize) -> Vec<f32> {
    let mut out = Vec::new();
    for oy in 0..height * scale {
        let y = bilinear_tap(oy, height, scale);
        let ty = y.weight as f32 / (2 * scale) as f32;
        for ox in 0..width * scale {
            let x = bilinear_tap(ox, width, scale);
            let tx = x.weight as f32 / (2 * scale) as f32;
            for c in 0..3 {
                let at = |x: usize, y: usize| low[(y * width + x) * 3 + c];
                let top = at(x.low, y.low) + tx * (at(x.high, y.low) - at(x.low, y.low));
                let bottom = at(x.low, y.high) + tx * (at(x.high, y.high) - at(x.low, y.high));
                out.push(top + ty * (bottom - top));
            }
        }
    }
    out
}

#[test]
fn nearest_replicates_every_pixel() {
    // Two pixels in one row, scaled by 2, so the output is 4x2.
    let low = vec![1.0, 2.0, 3.0, 4.0, 5.0, 6.0];
    let up = nearest(&low, 2, 1, 2);
    assert_eq!(up.len(), 4 * 2 * 3);

    // Both output rows are the input row with each pixel doubled.
    for row in 0..2 {
        let base = row * 4 * 3;
        assert_eq!(&up[base..base + 3], &[1.0, 2.0, 3.0]);
        assert_eq!(&up[base + 3..base + 6], &[1.0, 2.0, 3.0]);
        assert_eq!(&up[base + 6..base + 9], &[4.0, 5.0, 6.0]);
        assert_eq!(&up[base + 9..base + 12], &[4.0, 5.0, 6.0]);
    }
}

#[test]
fn bilinear_aligns_texel_centers_and_clamps_edges() {
    let low = vec![
        0.0, 0.0, 0.0, // left
        4.0, 8.0, 12.0, // right
    ];
    let up = bilinear(&low, 2, 1, 2);
    let red: Vec<_> = up.chunks_exact(3).map(|rgb| rgb[0]).collect();
    assert_eq!(red, vec![0.0, 1.0, 3.0, 4.0, 0.0, 1.0, 3.0, 4.0]);
}

#[test]
fn bilinear_aligns_texel_centres() {
    let input = vec![0.0, 0.0, 0.0, 4.0, 8.0, 12.0];
    let output = bilinear(&input, 2, 1, 2);
    let red: Vec<_> = output.chunks_exact(3).map(|rgb| rgb[0]).collect();
    assert_eq!(red, vec![0.0, 1.0, 3.0, 4.0, 0.0, 1.0, 3.0, 4.0]);
}

#[test]
fn taps_hold_odd_scales() {
    // Output texel 4 of 6 lies on input texel 1; texel 3 lies a third before it.
    let tap = bilinear_tap(4, 2, 3);
    assert_eq!((tap.low, tap.high, tap.weight), (1, 1, 0));
    let tap = bilinear_tap(3, 2, 3);
    assert_eq!((tap.low, tap.high, tap.weight), (0, 1, 4));
}

#[test]
fn planes_and_texels_are_one_picture() {
    let rgb = [1, 2, 3, 4, 5, 6];
    let planes = to_planes(&rgb, 2);
    assert_eq!(planes, [1, 4, 2, 5, 3, 6]);
    assert_eq!(from_planes(&planes, 2), rgb);
    assert_eq!(drop_alpha(&[1, 2, 3, 0, 4, 5, 6, 0], 2), rgb);
    assert_eq!(zip_pairs(&[1, 2], &[3, 4]), [1, 3, 2, 4]);
}

#[test]
fn a_plane_is_found_behind_the_planes_before_it() {
    let planes = PlaneSet::new().with(Plane::Normal).with(Plane::Depth);
    // One texel: depth, then the normal.
    let record = [9, 1, 2, 3];
    assert_eq!(interleaved(&record, &planes, Plane::Normal, 1).unwrap(), [1, 2, 3]);
    assert_eq!(interleaved(&record, &planes, Plane::Color, 1), None);
}

#[test]
fn tiles_are_pasted_and_cropped_in_place() {
    let mut full = vec![0; 3 * 3 * 3];
    let part: Vec<i32> = (1..=12).collect();
    paste_tile(&mut full, 3, 3, 1, 1, 2, &part);
    assert_eq!(&full[..12], &[0; 12]);
    assert_eq!(&full[12..18], &[1, 2, 3, 4, 5, 6]);
    assert_eq!(&full[18..21], &[0; 3]);
    assert_eq!(&full[21..], &[7, 8, 9, 10, 11, 12]);
    let grid = [1, 2, 3, 4, 5, 6, 7, 8, 9];
    assert_eq!(crop_grid(&grid, 3, 3, 1, 1, 2), [5, 6, 8, 9]);
    let (motion, valid) = temporal_evidence(
        &grid,
        &[0; 9],
        &[true, false, true, false, true, false, true, false, true],
        3,
        3,
        0,
        1,
        2,
    );
    assert_eq!(motion, [4, 0, 5, 0, 7, 0, 8, 0]);
    assert_eq!(valid, [false, true, true, false]);
}

#[test]
fn pictures_are_written_as_png() {
    let samples = [255, 0, 0, 0, 255, 0, 0, 0, 255, 10, 20, 30];
    let bytes = write_png(&samples, 2, 2, false).unwrap();
    let mut reader = png::Decoder::new(std::io::Cursor::new(&bytes))
        .read_info()
        .unwrap();
    let mut read = vec![0; reader.output_buffer_size()];
    let info = reader.next_frame(&mut read).unwrap();
    assert_eq!((info.width, info.height), (2, 2));
    assert_eq!(info.color_type, png::ColorType::Rgb);
    assert_eq!(read, samples);
    let opaque = with_alpha(&samples);
    assert_eq!(&opaque[..8], &[255, 0, 0, 255, 0, 255, 0, 255]);
    let bytes = write_png(&opaque, 2, 2, true).unwrap();
    let mut reader = png::Decoder::new(std::io::Cursor::new(&bytes))
        .read_info()
        .unwrap();
    let mut read = vec![0; reader.output_buffer_size()];
    assert_eq!(
        reader.next_frame(&mut read).unwrap().color_type,
        png::ColorType::Rgba
    );
    assert_eq!(read, opaque);
    assert!(write_png(&samples, 3, 2, false).is_none());
    assert!(write_png(&[], 0, 2, false).is_none());
}
