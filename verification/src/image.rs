//! Pictures as PNG files.
use vstd::prelude::*;

verus! {

/// How many bytes a pixel takes.
pub open spec fn pixel_bytes(alpha: bool) -> int {
    if alpha {
        4
    } else {
        3
    }
}

/// Whether samples are the pixels of a picture of this extent: it is not empty,
/// and its rows, each with a byte more, fit in memory.
pub open spec fn samples_fit(len: int, width: u32, height: u32, alpha: bool) -> bool {
    &&& width > 0
    &&& height > 0
    &&& len == width * pixel_bytes(alpha) * height
    &&& (width * pixel_bytes(alpha) + 1) * height <= usize::MAX
}

/// The PNG file of a picture, eight bits to a sample.
pub uninterp spec fn png_file(width: u32, height: u32, alpha: bool, samples: Seq<u8>) -> Seq<u8>;

/// The big-endian number at a place of a file.
pub open spec fn word_at(file: Seq<u8>, at: int) -> int {
    file[at] * 0x100_0000 + file[at + 1] * 0x1_0000 + file[at + 2] * 0x100 + file[at + 3]
}

/// Writes a picture with `png::Encoder`: `new`, `set_color`, `set_depth` and
/// `write_header`, then `write_image_data` of its `Writer`, which ends the file
/// when it is dropped. Writing into memory does not fail, so the encoder refuses
/// an empty extent and samples that do not match it, and nothing else. The file
/// begins with the signature and the header chunk, which holds the extent. What
/// follows depends on the arguments alone and is left to the name.
#[verifier::external_body]
fn encode(samples: &[u8], width: u32, height: u32, alpha: bool) -> (result: Option<Vec<u8>>)
    requires
        (width * pixel_bytes(alpha) + 1) * height <= usize::MAX,
    ensures
        match result {
            Some(file) => samples_fit(samples@.len() as int, width, height, alpha) && file@
                == png_file(width, height, alpha, samples@) && file@.len() >= 24 && word_at(
                file@,
                16,
            ) == width && word_at(file@, 20) == height,
            None => !samples_fit(samples@.len() as int, width, height, alpha),
        },
{
    let mut file = Vec::new();
    let mut encoder = png::Encoder::new(&mut file, width, height);
    match alpha {
        true => encoder.set_color(png::ColorType::Rgba),
        false => encoder.set_color(png::ColorType::Rgb),
    }
    encoder.set_depth(png::BitDepth::Eight);
    let mut writer = encoder.write_header().ok()?;
    writer.write_image_data(samples).ok()?;
    drop(writer);
    Some(file)
}

/// Writes a picture as a PNG file. There is none of samples that are not the
/// pixels of the extent.
pub fn write_png(samples: &[u8], width: u32, height: u32, alpha: bool) -> (result: Option<Vec<u8>>)
    ensures
        match result {
            Some(file) => samples_fit(samples@.len() as int, width, height, alpha) && file@
                == png_file(width, height, alpha, samples@) && file@.len() >= 24 && word_at(
                file@,
                16,
            ) == width && word_at(file@, 20) == height,
            None => !samples_fit(samples@.len() as int, width, height, alpha),
        },
{
    let bytes: u128 = if alpha {
        4
    } else {
        3
    };
    assert((width as u128 * bytes + 1) * height <= (u32::MAX * 4 + 1) * u32::MAX)
        by (nonlinear_arith)
        requires
            width <= u32::MAX,
            height <= u32::MAX,
            bytes <= 4,
    ;
    assert(width * bytes <= u32::MAX * 4) by (nonlinear_arith)
        requires
            width <= u32::MAX,
            bytes <= 4,
    ;
    if (width as u128 * bytes + 1) * height as u128 > usize::MAX as u128 {
        return None;
    }
    encode(samples, width, height, alpha)
}

/// A picture with opaque alpha behind each pixel. What is left of a last pixel
/// is left out.
pub open spec fn opaque_pixels(rgb: Seq<u8>) -> Seq<u8> {
    Seq::new(
        rgb.len() / 3 * 4,
        |k: int|
            if k % 4 < 3 {
                rgb[k / 4 * 3 + k % 4]
            } else {
                255
            },
    )
}

/// Puts opaque alpha behind each pixel.
pub fn with_alpha(rgb: &[u8]) -> (result: Vec<u8>)
    requires
        rgb@.len() / 3 * 4 <= usize::MAX,
    ensures
        result@ == opaque_pixels(rgb@),
{
    let pixels: usize = rgb.len() / 3;
    let mut out: Vec<u8> = Vec::new();
    let mut i: usize = 0;
    while i < pixels
        invariant
            i <= pixels,
            pixels == rgb@.len() / 3,
            rgb@.len() / 3 * 4 <= usize::MAX,
            out@.len() == 4 * i,
            forall|k: int| 0 <= k < 4 * i ==> #[trigger] out@[k] == opaque_pixels(rgb@)[k],
        decreases pixels - i,
    {
        out.push(rgb[3 * i]);
        out.push(rgb[3 * i + 1]);
        out.push(rgb[3 * i + 2]);
        out.push(255);
        i = i + 1;
    }
    assert(out@ =~= opaque_pixels(rgb@));
    out
}

/// Every pixel keeps its three colors and becomes opaque.
pub proof fn pixels_become_opaque(rgb: &[u8], result: Vec<u8>, i: int)
    requires
        rgb@.len() / 3 * 4 <= usize::MAX,
        call_ensures(with_alpha, (rgb,), result),
        0 <= i < rgb@.len() / 3,
    ensures
        result@.len() == rgb@.len() / 3 * 4,
        result@[4 * i] == rgb@[3 * i],
        result@[4 * i + 1] == rgb@[3 * i + 1],
        result@[4 * i + 2] == rgb@[3 * i + 2],
        result@[4 * i + 3] == 255,
{
}

/// A picture is written exactly if it has pixels and three or four bytes for each of
/// them, and its header tells its width and height.
pub proof fn pictures_have_all_their_samples(
    samples: &[u8],
    width: u32,
    height: u32,
    alpha: bool,
    result: Option<Vec<u8>>,
)
    requires
        call_ensures(write_png, (samples, width, height, alpha), result),
    ensures
        result matches Some(file) ==> {
            &&& width > 0 && height > 0
            &&& alpha ==> samples@.len() == 4 * (width * height)
            &&& !alpha ==> samples@.len() == 3 * (width * height)
            &&& file@.len() >= 24
            &&& word_at(file@, 16) == width
            &&& word_at(file@, 20) == height
        },
        result is None && width > 0 && height > 0 && 5 * (width * height) <= usize::MAX ==> {
            &&& alpha ==> samples@.len() != 4 * (width * height)
            &&& !alpha ==> samples@.len() != 3 * (width * height)
        },
{
    let (w, h) = (width as int, height as int);
    assert(w * 4 * h == 4 * (w * h)) by (nonlinear_arith);
    assert(w * 3 * h == 3 * (w * h)) by (nonlinear_arith);
    assert((w * 4 + 1) * h == 4 * (w * h) + h) by (nonlinear_arith);
    assert((w * 3 + 1) * h == 3 * (w * h) + h) by (nonlinear_arith);
    assert(w > 0 ==> h <= w * h) by (nonlinear_arith)
        requires
            0 <= h,
    ;
}

} // verus!
