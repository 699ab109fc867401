//! Error-diffusion dithering: before the dots are decided, the resampled
//! grid is binarized in raster order, with the quantization error of each
//! pixel spread to its right and lower neighbours by the classic
//! Floyd-Steinberg weights 7/16, 3/16, 5/16 and 1/16.
//!
//! The model below works per channel in plain channel units, with the
//! diffused error carried as a numerator over 16 and divided (rounding
//! toward minus infinity) when it is applied. A pixel's working value is
//! its sample plus the incoming error, clamped to the channel range; the
//! dot decider's test on the working value picks the palette entry (pure
//! white when the test names the visually bright side, pure black
//! otherwise), the dot decision is the test itself, and the error is the
//! working value minus the chosen entry. Alpha takes no part.

use vstd::prelude::*;

use crate::braille::DotGrid;
use crate::dot::{is_dot_on, spec_dot_on};
use crate::outside::{image_dims, image_pixels, oklch_l_bits, pixel_at, pixel_lightness_bits};

verus! {

/// Clamps a channel value to its range.
pub open spec fn clamp255(v: int) -> int {
    if v < 0 {
        0
    } else if v > 255 {
        255
    } else {
        v
    }
}

/// The error numerators (over 16) that the row above row `y` sends to the
/// pixel at column `x`: weight 3 from its upper right, 5 from above, 1
/// from its upper left.
pub open spec fn fs_above(
    pix: Map<(int, int), (u8, u8, u8, u8)>,
    w: int,
    t: u32,
    inv: bool,
    x: int,
    y: int,
) -> (int, int, int)
    decreases y, x, 0int,
{
    if y < 1 {
        (0, 0, 0)
    } else {
        let b = fs_err(pix, w, t, inv, x + 1, y - 1);
        let c = fs_err(pix, w, t, inv, x, y - 1);
        let d = if x >= 1 {
            fs_err(pix, w, t, inv, x - 1, y - 1)
        } else {
            (0, 0, 0)
        };
        (3 * b.0 + 5 * c.0 + d.0, 3 * b.1 + 5 * c.1 + d.1, 3 * b.2 + 5 * c.2 + d.2)
    }
}

/// The whole incoming error numerator (over 16) of the pixel at `(x, y)`:
/// weight 7 from its left neighbour plus the row above's share.
pub open spec fn fs_inc(
    pix: Map<(int, int), (u8, u8, u8, u8)>,
    w: int,
    t: u32,
    inv: bool,
    x: int,
    y: int,
) -> (int, int, int)
    decreases y, x, 1int,
{
    if x < 0 || y < 0 || x >= w {
        (0, 0, 0)
    } else {
        let l = if x >= 1 {
            fs_err(pix, w, t, inv, x - 1, y)
        } else {
            (0, 0, 0)
        };
        let a = fs_above(pix, w, t, inv, x, y);
        (7 * l.0 + a.0, 7 * l.1 + a.1, 7 * l.2 + a.2)
    }
}

/// The working value of the pixel at `(x, y)`: its sample plus the applied
/// incoming error, per channel, clamped.
pub open spec fn fs_working(
    pix: Map<(int, int), (u8, u8, u8, u8)>,
    w: int,
    t: u32,
    inv: bool,
    x: int,
    y: int,
) -> (int, int, int)
    decreases y, x, 2int,
{
    if x < 0 || y < 0 || x >= w {
        (0, 0, 0)
    } else {
        let p = pix[(x, y)];
        let i = fs_inc(pix, w, t, inv, x, y);
        (clamp255(p.0 + i.0 / 16), clamp255(p.1 + i.1 / 16), clamp255(p.2 + i.2 / 16))
    }
}

/// The dot decision of the dithered pixel at `(x, y)`: the dot decider's
/// test on the working value's lightness.
pub open spec fn fs_on(
    pix: Map<(int, int), (u8, u8, u8, u8)>,
    w: int,
    t: u32,
    inv: bool,
    x: int,
    y: int,
) -> bool
    decreases y, x, 3int,
{
    let wk = fs_working(pix, w, t, inv, x, y);
    spec_dot_on(oklch_l_bits(wk.0 as u8, wk.1 as u8, wk.2 as u8), t, inv)
}

/// The quantization error of the pixel at `(x, y)`: working value minus
/// the chosen palette entry, which is pure white when the decision names
/// the visually bright side and pure black otherwise.
pub open spec fn fs_err(
    pix: Map<(int, int), (u8, u8, u8, u8)>,
    w: int,
    t: u32,
    inv: bool,
    x: int,
    y: int,
) -> (int, int, int)
    decreases y, x, 4int,
{
    if x < 0 || y < 0 || x >= w {
        (0, 0, 0)
    } else {
        let wk = fs_working(pix, w, t, inv, x, y);
        let on = fs_on(pix, w, t, inv, x, y);
        let white = if inv {
            !on
        } else {
            on
        };
        let chosen = if white {
            255int
        } else {
            0int
        };
        (wk.0 - chosen, wk.1 - chosen, wk.2 - chosen)
    }
}

/// Every quantization error stays within one channel range.
pub proof fn lemma_fs_err_bounds(
    pix: Map<(int, int), (u8, u8, u8, u8)>,
    w: int,
    t: u32,
    inv: bool,
    x: int,
    y: int,
)
    ensures
        -255 <= fs_err(pix, w, t, inv, x, y).0 <= 255,
        -255 <= fs_err(pix, w, t, inv, x, y).1 <= 255,
        -255 <= fs_err(pix, w, t, inv, x, y).2 <= 255,
{
}

/// The row above sends at most nine error shares in channel units.
pub proof fn lemma_fs_above_bounds(
    pix: Map<(int, int), (u8, u8, u8, u8)>,
    w: int,
    t: u32,
    inv: bool,
    x: int,
    y: int,
)
    ensures
        -2295 <= fs_above(pix, w, t, inv, x, y).0 <= 2295,
        -2295 <= fs_above(pix, w, t, inv, x, y).1 <= 2295,
        -2295 <= fs_above(pix, w, t, inv, x, y).2 <= 2295,
{
    if y >= 1 {
        lemma_fs_err_bounds(pix, w, t, inv, x + 1, y - 1);
        lemma_fs_err_bounds(pix, w, t, inv, x, y - 1);
        lemma_fs_err_bounds(pix, w, t, inv, x - 1, y - 1);
    }
}

/// The shares the already processed prefix of row `y` (columns below
/// `upto`) has sent to the pixel at `(x, y + 1)`.
pub open spec fn fs_above_partial(
    pix: Map<(int, int), (u8, u8, u8, u8)>,
    w: int,
    t: u32,
    inv: bool,
    x: int,
    y: int,
    upto: int,
) -> (int, int, int) {
    let b = if x + 1 < upto {
        fs_err(pix, w, t, inv, x + 1, y)
    } else {
        (0, 0, 0)
    };
    let c = if x < upto {
        fs_err(pix, w, t, inv, x, y)
    } else {
        (0, 0, 0)
    };
    let d = if x >= 1 && x - 1 < upto {
        fs_err(pix, w, t, inv, x - 1, y)
    } else {
        (0, 0, 0)
    };
    (3 * b.0 + 5 * c.0 + d.0, 3 * b.1 + 5 * c.1 + d.1, 3 * b.2 + 5 * c.2 + d.2)
}

/// Once a row is fully processed, its partial shares are exactly what the
/// next row receives from above.
pub proof fn lemma_fs_above_full(
    pix: Map<(int, int), (u8, u8, u8, u8)>,
    w: int,
    t: u32,
    inv: bool,
    x: int,
    y: int,
)
    requires
        0 <= x < w,
        0 <= y,
    ensures
        fs_above_partial(pix, w, t, inv, x, y, w) == fs_above(pix, w, t, inv, x, y + 1),
{
    if x + 1 >= w {
        assert(fs_err(pix, w, t, inv, x + 1, y) == (0int, 0int, 0int));
    }
}

/// How one processed pixel changes the shares sent to the next row: the
/// pixel at `(x, y)` adds 3 shares to its lower left, 5 below, 1 to its
/// lower right, and nothing anywhere else.
pub proof fn lemma_partial_step(
    pix: Map<(int, int), (u8, u8, u8, u8)>,
    w: int,
    t: u32,
    inv: bool,
    xp: int,
    x: int,
    y: int,
)
    requires
        0 <= x,
    ensures
        ({
            let before = fs_above_partial(pix, w, t, inv, xp, y, x);
            let after = fs_above_partial(pix, w, t, inv, xp, y, x + 1);
            let e = fs_err(pix, w, t, inv, x, y);
            if xp == x - 1 {
                after == (before.0 + 3 * e.0, before.1 + 3 * e.1, before.2 + 3 * e.2)
            } else if xp == x {
                after == (before.0 + 5 * e.0, before.1 + 5 * e.1, before.2 + 5 * e.2)
            } else if xp == x + 1 {
                after == (before.0 + e.0, before.1 + e.1, before.2 + e.2)
            } else {
                after == before
            }
        }),
{
}

/// A partial share stays within nine error units per channel.
pub proof fn lemma_partial_bounds(
    pix: Map<(int, int), (u8, u8, u8, u8)>,
    w: int,
    t: u32,
    inv: bool,
    xp: int,
    y: int,
    upto: int,
)
    ensures
        -2295 <= fs_above_partial(pix, w, t, inv, xp, y, upto).0 <= 2295,
        -2295 <= fs_above_partial(pix, w, t, inv, xp, y, upto).1 <= 2295,
        -2295 <= fs_above_partial(pix, w, t, inv, xp, y, upto).2 <= 2295,
{
    lemma_fs_err_bounds(pix, w, t, inv, xp + 1, y);
    lemma_fs_err_bounds(pix, w, t, inv, xp, y);
    lemma_fs_err_bounds(pix, w, t, inv, xp - 1, y);
}

/// Division by 16 rounding toward minus infinity, for error numerators.
fn floor_div16(v: i32) -> (r: i32)
    requires
        -65536 <= v <= 65536,
    ensures
        r as int == (v as int) / 16,
{
    let shifted: u32 = (v + 65536) as u32;
    let q: u32 = shifted / 16;
    proof {
        vstd::arithmetic::div_mod::lemma_hoist_over_denominator(v as int, 4096, 16nat);
        assert(shifted as int == v + 4096 * 16);
    }
    (q as i32) - 4096
}

/// One clamped channel of a working value.
fn clamp_channel(base: u8, inc: i32) -> (r: u8)
    requires
        -70000 <= inc <= 70000,
    ensures
        r as int == clamp255(base + inc),
{
    let v: i32 = (base as i32) + inc;
    if v < 0 {
        0
    } else if v > 255 {
        255
    } else {
        v as u8
    }
}

/// Quantizes one pixel: applies the incoming error to its sample, decides
/// its dot, and returns the decision with the new quantization error.
fn quantize_pixel(
    img: &image::DynamicImage,
    w: u32,
    h: u32,
    x: u32,
    y: u32,
    inc: (i32, i32, i32),
    t_bits: u32,
    invert: bool,
) -> (r: (bool, (i32, i32, i32)))
    requires
        image_dims(*img) == (w as nat, h as nat),
        x < w,
        y < h,
        (inc.0 as int, inc.1 as int, inc.2 as int) == fs_inc(
            image_pixels(*img),
            w as int,
            t_bits,
            invert,
            x as int,
            y as int,
        ),
        -4080 <= inc.0 <= 4080,
        -4080 <= inc.1 <= 4080,
        -4080 <= inc.2 <= 4080,
    ensures
        r.0 == fs_on(image_pixels(*img), w as int, t_bits, invert, x as int, y as int),
        (r.1.0 as int, r.1.1 as int, r.1.2 as int) == fs_err(
            image_pixels(*img),
            w as int,
            t_bits,
            invert,
            x as int,
            y as int,
        ),
{
    let p = pixel_at(img, x, y);
    let w0 = clamp_channel(p.0, floor_div16(inc.0));
    let w1 = clamp_channel(p.1, floor_div16(inc.1));
    let w2 = clamp_channel(p.2, floor_div16(inc.2));
    proof {
        assert((w0 as int, w1 as int, w2 as int) == fs_working(
            image_pixels(*img),
            w as int,
            t_bits,
            invert,
            x as int,
            y as int,
        ));
    }
    let l = pixel_lightness_bits(w0, w1, w2, p.3);
    let d = is_dot_on(l, t_bits, invert);
    let white = if invert {
        !d
    } else {
        d
    };
    let chosen: i32 = if white {
        255
    } else {
        0
    };
    ((d), ((w0 as i32) - chosen, (w1 as i32) - chosen, (w2 as i32) - chosen))
}

/// Adds the processed pixel's shares to the next row's incoming errors.
fn diffuse_down(
    next: &mut Vec<(i32, i32, i32)>,
    w: u32,
    x: u32,
    e: (i32, i32, i32),
    Ghost(pix): Ghost<Map<(int, int), (u8, u8, u8, u8)>>,
    Ghost(t_bits): Ghost<u32>,
    Ghost(invert): Ghost<bool>,
    Ghost(y): Ghost<int>,
)
    requires
        x < w,
        old(next)@.len() == w,
        (e.0 as int, e.1 as int, e.2 as int) == fs_err(pix, w as int, t_bits, invert, x as int, y),
        forall|xp: int|
            0 <= xp < w ==> (
            #[trigger] old(next)@[xp].0 as int,
            old(next)@[xp].1 as int,
            old(next)@[xp].2 as int,
            ) == fs_above_partial(pix, w as int, t_bits, invert, xp, y, x as int),
    ensures
        final(next)@.len() == w,
        forall|xp: int|
            0 <= xp < w ==> (
            #[trigger] final(next)@[xp].0 as int,
            final(next)@[xp].1 as int,
            final(next)@[xp].2 as int,
            ) == fs_above_partial(pix, w as int, t_bits, invert, xp, y, x as int + 1),
{
    let ghost wi = w as int;
    let ghost xi = x as int;
    proof {
        lemma_fs_err_bounds(pix, wi, t_bits, invert, xi, y);
        lemma_partial_bounds(pix, wi, t_bits, invert, xi - 1, y, xi);
        lemma_partial_bounds(pix, wi, t_bits, invert, xi, y, xi);
        lemma_partial_bounds(pix, wi, t_bits, invert, xi + 1, y, xi);
    }
    if x >= 1 {
        let prior = next[(x - 1) as usize];
        next.set((x - 1) as usize, (prior.0 + 3 * e.0, prior.1 + 3 * e.1, prior.2 + 3 * e.2));
    }
    let prior5 = next[x as usize];
    next.set(x as usize, (prior5.0 + 5 * e.0, prior5.1 + 5 * e.1, prior5.2 + 5 * e.2));
    if x + 1 < w {
        let prior1 = next[(x + 1) as usize];
        next.set((x + 1) as usize, (prior1.0 + e.0, prior1.1 + e.1, prior1.2 + e.2));
    }
    proof {
        assert forall|xp: int| 0 <= xp < w implies (
        #[trigger] next@[xp].0 as int,
        next@[xp].1 as int,
        next@[xp].2 as int,
        ) == fs_above_partial(pix, wi, t_bits, invert, xp, y, xi + 1) by {
            lemma_partial_step(pix, wi, t_bits, invert, xp, xi, y);
        }
    }
}

/// Row-major flat indices of distinct rows never collide.
pub proof fn lemma_flat_index(yq: int, xq: int, y: int, w: int)
    requires
        0 <= yq < y,
        0 <= xq < w,
    ensures
        0 <= yq * w + xq < y * w,
    decreases y,
{
    if yq + 1 == y {
    } else {
        lemma_flat_index(yq, xq, y - 1, w);
        assert((y - 1) * w <= y * w) by (nonlinear_arith)
            requires
                w >= 0,
        ;
    }
    assert(yq * w + xq < (yq + 1) * w) by (nonlinear_arith)
        requires
            0 <= xq < w,
    ;
    assert((yq + 1) * w <= y * w) by (nonlinear_arith)
        requires
            yq + 1 <= y && w >= 0,
    ;
}

/// Binarizes the resampled image by Floyd-Steinberg error diffusion and
/// returns the dot grid its decisions form.
#[verifier::rlimit(100)]
pub fn binarize_dithered(img: &image::DynamicImage, w: u32, h: u32, t_bits: u32, invert: bool) -> (g:
    DotGrid)
    requires
        image_dims(*img) == (w as nat, h as nat),
    ensures
        g.wf(),
        g.dot_cols == w,
        g.dot_rows == h,
        forall|x: int, y: int|
            0 <= x < w && 0 <= y < h ==> g.dot(x, y) == fs_on(
                image_pixels(*img),
                w as int,
                t_bits,
                invert,
                x,
                y,
            ),
{
    let ghost pix = image_pixels(*img);
    let ghost wi = w as int;
    let mut data: Vec<bool> = Vec::new();
    let mut above: Vec<(i32, i32, i32)> = Vec::new();
    let mut x0: u32 = 0;
    while x0 < w
        invariant
            x0 <= w,
            above@.len() == x0,
            forall|xp: int| 0 <= xp < x0 ==> above@[xp] == (0i32, 0i32, 0i32),
        decreases w - x0,
    {
        above.push((0i32, 0i32, 0i32));
        x0 = x0 + 1;
    }
    let mut y: u32 = 0;
    while y < h
        invariant
            image_dims(*img) == (w as nat, h as nat),
            pix == image_pixels(*img),
            wi == w as int,
            y <= h,
            data@.len() == y * w,
            forall|xq: int, yq: int|
                0 <= yq < y && 0 <= xq < w ==> #[trigger] data@[yq * wi + xq] == fs_on(
                    pix,
                    wi,
                    t_bits,
                    invert,
                    xq,
                    yq,
                ),
            above@.len() == w,
            forall|xp: int|
                0 <= xp < w ==> (
                #[trigger] above@[xp].0 as int,
                above@[xp].1 as int,
                above@[xp].2 as int,
                ) == fs_above(pix, wi, t_bits, invert, xp, y as int),
        decreases h - y,
    {
        let ghost yi = y as int;
        let mut next: Vec<(i32, i32, i32)> = Vec::new();
        let mut x1: u32 = 0;
        while x1 < w
            invariant
                x1 <= w,
                next@.len() == x1,
                forall|xp: int| 0 <= xp < x1 ==> next@[xp] == (0i32, 0i32, 0i32),
            decreases w - x1,
        {
            next.push((0i32, 0i32, 0i32));
            x1 = x1 + 1;
        }
        let mut prev_err: (i32, i32, i32) = (0, 0, 0);
        let mut x: u32 = 0;
        while x < w
            invariant
                image_dims(*img) == (w as nat, h as nat),
                pix == image_pixels(*img),
                wi == w as int,
                yi == y as int,
                y < h,
                x <= w,
                data@.len() == y * w + x,
                forall|xq: int, yq: int|
                    0 <= yq < y && 0 <= xq < w ==> #[trigger] data@[yq * wi + xq] == fs_on(
                        pix,
                        wi,
                        t_bits,
                        invert,
                        xq,
                        yq,
                    ),
                forall|xq: int|
                    0 <= xq < x ==> #[trigger] data@[yi * wi + xq] == fs_on(
                        pix,
                        wi,
                        t_bits,
                        invert,
                        xq,
                        yi,
                    ),
                (prev_err.0 as int, prev_err.1 as int, prev_err.2 as int) == fs_err(
                    pix,
                    wi,
                    t_bits,
                    invert,
                    x as int - 1,
                    yi,
                ),
                above@.len() == w,
                forall|xp: int|
                    0 <= xp < w ==> (
                    #[trigger] above@[xp].0 as int,
                    above@[xp].1 as int,
                    above@[xp].2 as int,
                    ) == fs_above(pix, wi, t_bits, invert, xp, yi),
                next@.len() == w,
                forall|xp: int|
                    0 <= xp < w ==> (
                    #[trigger] next@[xp].0 as int,
                    next@[xp].1 as int,
                    next@[xp].2 as int,
                    ) == fs_above_partial(pix, wi, t_bits, invert, xp, yi, x as int),
            decreases w - x,
        {
            let ghost xi = x as int;
            proof {
                lemma_fs_err_bounds(pix, wi, t_bits, invert, xi - 1, yi);
                lemma_fs_above_bounds(pix, wi, t_bits, invert, xi, yi);
            }
            let a = above[x as usize];
            let inc: (i32, i32, i32) = (
                7 * prev_err.0 + a.0,
                7 * prev_err.1 + a.1,
                7 * prev_err.2 + a.2,
            );
            proof {
                assert((inc.0 as int, inc.1 as int, inc.2 as int) == fs_inc(
                    pix,
                    wi,
                    t_bits,
                    invert,
                    xi,
                    yi,
                ));
            }
            let (d, e) = quantize_pixel(img, w, h, x, y, inc, t_bits, invert);
            proof {
                assert(data@.len() == yi * wi + xi) by (nonlinear_arith)
                    requires
                        data@.len() == y * w + x && wi == w as int && xi == x as int && yi
                            == y as int,
                ;
            }
            data.push(d);
            proof {
                assert forall|xq: int, yq: int| 0 <= yq < y && 0 <= xq < w implies #[trigger] data@[
                    yq * wi + xq] == fs_on(pix, wi, t_bits, invert, xq, yq) by {
                    lemma_flat_index(yq, xq, yi, wi);
                }
            }
            diffuse_down(
                &mut next,
                w,
                x,
                e,
                Ghost(pix),
                Ghost(t_bits),
                Ghost(invert),
                Ghost(yi),
            );
            prev_err = e;
            x = x + 1;
        }
        proof {
            assert forall|xp: int| 0 <= xp < w implies (
            #[trigger] next@[xp].0 as int,
            next@[xp].1 as int,
            next@[xp].2 as int,
            ) == fs_above(pix, wi, t_bits, invert, xp, yi + 1) by {
                lemma_fs_above_full(pix, wi, t_bits, invert, xp, yi);
            }
            assert((y + 1) * w == y * w + w) by (nonlinear_arith);
        }
        above = next;
        y = y + 1;
    }
    proof {
        assert(data@.len() == h * w);
    }
    DotGrid { dot_cols: w, dot_rows: h, data }
}

} // verus!
