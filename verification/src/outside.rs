//! The trusted boundary: every call into an outside crate, and into the
//! few std functions vstd gives no specification, stands here behind a
//! contract that Verus believes without proof. Each item's doc comment
//! names the outside function relied on.

use vstd::prelude::*;

verus! {

#[verifier::external_type_specification]
#[verifier::external_body]
pub struct ExDynamicImage(image::DynamicImage);

/// The width and height, in pixels, of a decoded image.
pub uninterp spec fn image_dims(img: image::DynamicImage) -> (nat, nat);

/// The RGBA samples of a decoded image, by (column, row) position.
pub uninterp spec fn image_pixels(img: image::DynamicImage) -> Map<(int, int), (u8, u8, u8, u8)>;

/// The RGBA samples, by (column, row) position, of `img` resampled to
/// exactly `w` by `h` pixels with the triangle (linear) filter. The
/// resampling is a pure function of the source image and the target
/// dimensions.
pub uninterp spec fn resampled(img: image::DynamicImage, w: u32, h: u32) -> Map<
    (int, int),
    (u8, u8, u8, u8),
>;

/// Relies on `image::GenericImageView::dimensions` for `DynamicImage`: it
/// returns the image's width and height.
#[verifier::external_body]
pub fn dimensions_of(img: &image::DynamicImage) -> (d: (u32, u32))
    ensures
        image_dims(*img) == (d.0 as nat, d.1 as nat),
{
    image::GenericImageView::dimensions(img)
}

/// Relies on `image::DynamicImage::resize_to_fill`: with positive source
/// and target dimensions it scales the source to cover the target box,
/// preserving the aspect ratio, and crops the result to exactly `w` by `h`.
/// The cover itself must fit 32-bit dimensions — the crate clamps an
/// overflowing cover axis and then crops to something smaller than asked —
/// so the preconditions bound both cover axes, with one unit of slack for
/// the crate's floating-point rounding of the scale ratio.
#[verifier::external_body]
pub fn resize_to_fill(img: &image::DynamicImage, w: u32, h: u32) -> (r: image::DynamicImage)
    requires
        w > 0,
        h > 0,
        image_dims(*img).0 > 0,
        image_dims(*img).1 > 0,
        image_dims(*img).0 * h <= image_dims(*img).1 * 0xFFFF_FFFE,
        image_dims(*img).1 * w <= image_dims(*img).0 * 0xFFFF_FFFE,
    ensures
        image_dims(r) == (w as nat, h as nat),
        image_pixels(r) == resampled(*img, w, h),
{
    img.resize_to_fill(w, h, image::imageops::FilterType::Triangle)
}

/// Relies on `image::GenericImageView::get_pixel` for `DynamicImage`: in
/// bounds it returns the RGBA sample at (x, y); out of bounds it panics,
/// which the precondition rules out.
#[verifier::external_body]
pub fn pixel_at(img: &image::DynamicImage, x: u32, y: u32) -> (p: (u8, u8, u8, u8))
    requires
        (x as nat) < image_dims(*img).0,
        (y as nat) < image_dims(*img).1,
    ensures
        p == image_pixels(*img)[(x as int, y as int)],
{
    let q = image::GenericImageView::get_pixel(img, x, y);
    (q.0[0], q.0[1], q.0[2], q.0[3])
}

/// The bit pattern of the single-precision `l` component of the OkLCh
/// value of an sRGB sample: a pure function of the red, green and blue
/// channels alone.
pub uninterp spec fn oklch_l_bits(r: u8, g: u8, b: u8) -> u32;

/// Relies on palette's `Srgba` to `Oklcha` conversion: the gamma-encoded
/// channels are linearized and projected onto the OkLab/OkLCh lightness
/// axis, deterministically and from the red, green and blue channels alone
/// (the alpha channel only passes through).
#[verifier::external_body]
pub fn pixel_lightness_bits(r: u8, g: u8, b: u8, a: u8) -> (l: u32)
    ensures
        l == oklch_l_bits(r, g, b),
{
    let lin = palette::Srgba::from([r, g, b, a]).into_linear();
    let ok: palette::Oklcha = palette::IntoColor::into_color(lin);
    ok.l.to_bits()
}

/// Relies on `char::from_u32`: for a value below the surrogate range it
/// returns the character with that scalar value.
#[verifier::external_body]
pub fn char_from_scalar(v: u32) -> (c: char)
    requires
        v < 0xD800,
    ensures
        c as u32 == v,
{
    char::from_u32(v).unwrap()
}

/// Relies on `String::push`: it appends the given character.
#[verifier::external_body]
pub fn push_char(s: &mut String, c: char)
    ensures
        final(s)@ == old(s)@.push(c),
{
    s.push(c);
}

} // verus!
