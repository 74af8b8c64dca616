use ommatidia_tools::pfm::{
    all_radiant, flip_rows, read_expected, read_header, read_lines, read_pfm, write_nonempty_pfm,
    write_pfm, PfmError,
};

fn bits(values: &[f32]) -> Vec<u32> {
    values.iter().map(|v| v.to_bits()).collect()
}

fn scale(text: &str) -> Option<u32> {
    text.trim().parse::<f32>().ok().map(f32::to_bits)
}

fn read(bytes: &[u8]) -> Result<(Vec<u32>, usize, usize), PfmError> {
    let header = read_header(bytes)?;
    let rgb = read_pfm(bytes, &header, scale(&header.scale))?;
    Ok((rgb, header.width, header.height))
}

fn expect(bytes: &[u8], extent: [usize; 2]) -> Result<Vec<u32>, PfmError> {
    let lines = read_lines(bytes).unwrap();
    read_expected(bytes, &lines, extent[0], extent[1], scale(&lines.third))
}

#[test]
fn pfm_round_trip_preserves_orientation_and_hdr() {
    let image = bits(&[
        1.0, 2.0, 3.0, 4.0, 5.0, 6.0, // top row
        7.0, 8.0, 9.0, 10.0, 11.0, 1000.0, // bottom row
    ]);
    let bytes = write_pfm(&image, 2, 2).unwrap();
    let (back, width, height) = read(&bytes).unwrap();
    assert_eq!([width, height], [2, 2]);
    assert_eq!(back, image);
}

#[test]
fn pfm_preserves_orientation_and_hdr() {
    let image = bits(&[1.0, 2.0, 3.0, 1000.0, 20.0, 30.0]);
    let bytes = write_nonempty_pfm(&image, 1, 2).unwrap();
    assert!(bytes.starts_with(b"PF\n1 2\n-1.0\n"));
    assert_eq!(&bytes[12..16], &1000.0f32.to_le_bytes());
    assert_eq!(expect(&bytes, [1, 2]).unwrap(), image);
    assert!(expect(&bytes, [2, 1]).is_err());
}

#[test]
fn maps_of_another_size_are_refused() {
    assert_eq!(write_pfm(&[0; 5], 1, 2), Err(PfmError::Extent));
    assert_eq!(write_nonempty_pfm(&[], 0, 2), Err(PfmError::Extent));
    assert_eq!(write_pfm(&[], 0, 2).unwrap(), b"PF\n0 2\n-1.0\n");
}

#[test]
fn broken_headers_are_told_apart() {
    assert_eq!(read(b"P6\n1 1\n-1\n").unwrap_err(), PfmError::Magic);
    assert_eq!(read(b"PF\n\n-1\n").unwrap_err(), PfmError::WidthMissing);
    assert_eq!(read(b"PF\n1\n-1\n").unwrap_err(), PfmError::HeightMissing);
    assert!(matches!(read(b"PF\nx 1\n-1\n").unwrap_err(), PfmError::Width(_)));
    assert!(matches!(read(b"PF\n1 -\n-1\n").unwrap_err(), PfmError::Height(_)));
    assert_eq!(read(b"PF\n1 1\nabc\n").unwrap_err(), PfmError::Scale);
    assert_eq!(read(b"PF\n1 1\n1.0\n").unwrap_err(), PfmError::BigEndian);
    assert_eq!(read(b"PF\n1 1\n-1.0\nabc").unwrap_err(), PfmError::Truncated);
    assert_eq!(read(b"\xff\n1 1\n-1.0\n").unwrap_err(), PfmError::Encoding);
}

#[test]
fn a_header_may_hold_blanks() {
    let mut bytes = b" PF \n 1   1 \n -2.5 \n".to_vec();
    for value in [1.0f32, 2.0, 3.0] {
        bytes.extend_from_slice(&value.to_le_bytes());
    }
    bytes.push(7);
    assert_eq!(read(&bytes).unwrap(), (bits(&[1.0, 2.0, 3.0]), 1, 1));
    // An expected map has nothing behind its values, and no other scale.
    assert_eq!(expect(&bytes, [1, 1]), Err(PfmError::Unexpected));
}

#[test]
fn an_expected_map_holds_radiance() {
    let good = write_pfm(&bits(&[1.0, 2.0, 3.0]), 1, 1).unwrap();
    assert_eq!(expect(&good, [1, 1]).unwrap(), bits(&[1.0, 2.0, 3.0]));
    let mut longer = good.clone();
    longer.push(0);
    assert_eq!(expect(&longer, [1, 1]), Err(PfmError::ByteCount));
    let negative = write_pfm(&bits(&[1.0, -2.0, 3.0]), 1, 1).unwrap();
    assert_eq!(expect(&negative, [1, 1]), Err(PfmError::Radiance));
    let endless = write_pfm(&bits(&[1.0, f32::INFINITY, 3.0]), 1, 1).unwrap();
    assert_eq!(expect(&endless, [1, 1]), Err(PfmError::Radiance));
    assert!(all_radiant(&bits(&[0.0, -0.0, f32::MAX])));
    assert!(!all_radiant(&bits(&[f32::NAN])));
}

#[test]
fn flipping_twice_changes_nothing() {
    let rows = [1, 2, 3, 4, 5, 6];
    assert_eq!(flip_rows(&rows, 2, 3), [5, 6, 3, 4, 1, 2]);
    assert_eq!(flip_rows(&flip_rows(&rows, 2, 3), 2, 3), rows);
}
