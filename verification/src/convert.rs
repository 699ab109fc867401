//! The conversion pipeline: a decoded image, a requested column count, a
//! threshold and the invert and dither flags go in; the packed grid of
//! Braille cell bytes comes out. The pipeline is one linear pass: compute
//! the target geometry, resample, decide every dot, pack.

use vstd::prelude::*;

use crate::braille::{pack, spec_cell, spec_cell_of, spec_block, DotGrid};
use crate::dither::{binarize_dithered, fs_on, lemma_flat_index};
use crate::dot::{is_dot_on, spec_dot_on};
use crate::geometry::{
    grid_dims,
    lemma_cover_height_bound,
    lemma_rows_bound,
    spec_cell_rows,
    Dims,
    GeometryError,
};
use crate::outside::{
    dimensions_of,
    image_dims,
    image_pixels,
    oklch_l_bits,
    pixel_at,
    pixel_lightness_bits,
    resampled,
    resize_to_fill,
};

verus! {

/// The dot decision for the resampled pixel at `(x, y)` under plain
/// per-pixel thresholding.
pub open spec fn direct_on(
    pix: Map<(int, int), (u8, u8, u8, u8)>,
    t: u32,
    inv: bool,
    x: int,
    y: int,
) -> bool {
    let p = pix[(x, y)];
    spec_dot_on(oklch_l_bits(p.0, p.1, p.2), t, inv)
}

/// The decision for the dot at `(x, y)`: by error diffusion when dithering
/// is enabled, by per-pixel thresholding otherwise.
pub open spec fn spec_dot_decision(
    pix: Map<(int, int), (u8, u8, u8, u8)>,
    w: int,
    t: u32,
    inv: bool,
    dither: bool,
    x: int,
    y: int,
) -> bool {
    if dither {
        fs_on(pix, w, t, inv, x, y)
    } else {
        direct_on(pix, t, inv, x, y)
    }
}

/// The byte of the cell at row `cr`, column `cc` for a conversion over the
/// resampled pixels `pix` of a `w` dots wide grid.
pub open spec fn spec_cell_value(
    pix: Map<(int, int), (u8, u8, u8, u8)>,
    w: int,
    t: u32,
    inv: bool,
    dither: bool,
    cr: int,
    cc: int,
) -> int {
    spec_cell_of(
        Seq::new(8, |k: int| spec_dot_decision(pix, w, t, inv, dither, 2 * cc + k % 2, 4 * cr + k / 2)),
    )
}

/// Decides every dot by plain per-pixel thresholding.
fn binarize_direct(img: &image::DynamicImage, w: u32, h: u32, t_bits: u32, invert: bool) -> (g:
    DotGrid)
    requires
        image_dims(*img) == (w as nat, h as nat),
    ensures
        g.wf(),
        g.dot_cols == w,
        g.dot_rows == h,
        forall|x: int, y: int|
            0 <= x < w && 0 <= y < h ==> g.dot(x, y) == direct_on(
                image_pixels(*img),
                t_bits,
                invert,
                x,
                y,
            ),
{
    let ghost pix = image_pixels(*img);
    let ghost wi = w as int;
    let mut data: Vec<bool> = Vec::new();
    let mut y: u32 = 0;
    while y < h
        invariant
            image_dims(*img) == (w as nat, h as nat),
            pix == image_pixels(*img),
            wi == w as int,
            y <= h,
            data@.len() == y * w,
            forall|xq: int, yq: int|
                0 <= yq < y && 0 <= xq < w ==> #[trigger] data@[yq * wi + xq] == direct_on(
                    pix,
                    t_bits,
                    invert,
                    xq,
                    yq,
                ),
        decreases h - y,
    {
        let ghost yi = y as int;
        let mut x: u32 = 0;
        while x < w
            invariant
                image_dims(*img) == (w as nat, h as nat),
                pix == image_pixels(*img),
                wi == w as int,
                yi == y as int,
                y < h,
                x <= w,
                data@.len() == y * w + x,
                forall|xq: int, yq: int|
                    0 <= yq < y && 0 <= xq < w ==> #[trigger] data@[yq * wi + xq] == direct_on(
                        pix,
                        t_bits,
                        invert,
                        xq,
                        yq,
                    ),
                forall|xq: int|
                    0 <= xq < x ==> #[trigger] data@[yi * wi + xq] == direct_on(
                        pix,
                        t_bits,
                        invert,
                        xq,
                        yi,
                    ),
            decreases w - x,
        {
            let ghost xi = x as int;
            let p = pixel_at(img, x, y);
            let l = pixel_lightness_bits(p.0, p.1, p.2, p.3);
            let d = is_dot_on(l, t_bits, invert);
            proof {
                assert(data@.len() == yi * wi + xi) by (nonlinear_arith)
                    requires
                        data@.len() == y * w + x && wi == w as int && xi == x as int && yi
                            == y as int,
                ;
            }
            data.push(d);
            proof {
                assert forall|xq: int, yq: int| 0 <= yq < y && 0 <= xq < w implies #[trigger] data@[
                    yq * wi + xq] == direct_on(pix, t_bits, invert, xq, yq) by {
                    lemma_flat_index(yq, xq, yi, wi);
                }
            }
            x = x + 1;
        }
        proof {
            assert((y + 1) * w == y * w + w) by (nonlinear_arith);
        }
        y = y + 1;
    }
    DotGrid { dot_cols: w, dot_rows: h, data }
}

/// Decides every dot of the resampled image, by the configured strategy.
fn binarize(img: &image::DynamicImage, w: u32, h: u32, t_bits: u32, invert: bool, dither: bool) -> (g:
    DotGrid)
    requires
        image_dims(*img) == (w as nat, h as nat),
    ensures
        g.wf(),
        g.dot_cols == w,
        g.dot_rows == h,
        forall|x: int, y: int|
            0 <= x < w && 0 <= y < h ==> #[trigger] g.dot(x, y) == spec_dot_decision(
                image_pixels(*img),
                w as int,
                t_bits,
                invert,
                dither,
                x,
                y,
            ),
{
    if dither {
        binarize_dithered(img, w, h, t_bits, invert)
    } else {
        binarize_direct(img, w, h, t_bits, invert)
    }
}

/// A packed cell over a dot grid whose dots follow the decision function
/// equals the cell value stated over the resampled pixels.
proof fn lemma_cells_match(
    grid: DotGrid,
    pix: Map<(int, int), (u8, u8, u8, u8)>,
    t: u32,
    inv: bool,
    dither: bool,
    rows: int,
    cols: int,
)
    requires
        grid.dot_cols == 2 * cols,
        grid.dot_rows == 4 * rows,
        forall|x: int, y: int|
            0 <= x < grid.dot_cols && 0 <= y < grid.dot_rows ==> #[trigger] grid.dot(x, y)
                == spec_dot_decision(pix, grid.dot_cols as int, t, inv, dither, x, y),
    ensures
        forall|i: int, j: int|
            0 <= i < rows && 0 <= j < cols ==> #[trigger] spec_cell(grid, i, j) == spec_cell_value(
                pix,
                2 * cols,
                t,
                inv,
                dither,
                i,
                j,
            ),
{
    assert forall|i: int, j: int| 0 <= i < rows && 0 <= j < cols implies #[trigger] spec_cell(
        grid,
        i,
        j,
    ) == spec_cell_value(pix, 2 * cols, t, inv, dither, i, j) by {
        let blk = spec_block(grid, i, j);
        let want = Seq::new(
            8,
            |k: int| spec_dot_decision(pix, 2 * cols, t, inv, dither, 2 * j + k % 2, 4 * i + k / 2),
        );
        assert forall|k: int| 0 <= k < 8 implies blk[k] == want[k] by {
            assert(0 <= 2 * j + k % 2 < grid.dot_cols);
            assert(0 <= 4 * i + k / 2 < grid.dot_rows);
        }
        assert(blk =~= want);
    }
}

/// Converts a decoded image to the grid of Braille cell bytes: `cell_rows`
/// rows (per the geometry of the source and the requested columns) of
/// `cols` bytes each. Fails exactly when the source width is zero; a
/// request for zero columns, or a geometry that yields zero rows, succeeds
/// with an empty grid.
#[verifier::rlimit(100)]
pub fn image_to_braille(
    img: &image::DynamicImage,
    cols: u32,
    threshold_bits: u32,
    invert: bool,
    dither: bool,
) -> (r: Result<Vec<Vec<u8>>, GeometryError>)
    requires
        2 * cols <= u32::MAX,
        image_dims(*img).0 > 0 ==> image_dims(*img).1 * (2 * cols) <= image_dims(*img).0
            * 0xFFFF_FFFE,
    ensures
        r is Err <==> image_dims(*img).0 == 0,
        r is Err ==> r == Result::<Vec<Vec<u8>>, GeometryError>::Err(GeometryError::ZeroWidth),
        r matches Ok(v) ==> ({
            let w = image_dims(*img).0 as int;
            let h = image_dims(*img).1 as int;
            let rows = spec_cell_rows(w, h, cols as int);
            &&& v@.len() == rows
            &&& forall|i: int| 0 <= i < rows ==> #[trigger] v@[i]@.len() == cols
            &&& forall|i: int, j: int|
                0 <= i < rows && 0 <= j < cols ==> #[trigger] v@[i]@[j] as int == spec_cell_value(
                    resampled(*img, (2 * cols) as u32, (4 * rows) as u32),
                    2 * cols as int,
                    threshold_bits,
                    invert,
                    dither,
                    i,
                    j,
                )
        }),
{
    let (width, height) = dimensions_of(img);
    proof {
        if width > 0 {
            lemma_rows_bound(width as int, height as int, cols as int);
        }
    }
    let d = match grid_dims(width, height, cols) {
        Ok(d) => d,
        Err(e) => {
            return Err(e);
        },
    };
    let ghost rows = spec_cell_rows(width as int, height as int, cols as int);
    if d.cell_rows == 0 || d.cell_cols == 0 {
        proof {
            if height == 0 {
                assert((height as int) * (cols as int) == 0) by (nonlinear_arith)
                    requires
                        height == 0,
                ;
                vstd::arithmetic::div_mod::lemma_div_of0(width as int);
            }
            assert(rows == 0 || cols == 0);
            if cols == 0 {
                assert((height as int) * (cols as int) == 0) by (nonlinear_arith)
                    requires
                        cols == 0,
                ;
                vstd::arithmetic::div_mod::lemma_div_of0(width as int);
            }
            assert(rows == 0);
        }
        return Ok(Vec::new());
    }
    proof {
        if height == 0 {
            assert((height as int) * (cols as int) == 0) by (nonlinear_arith)
                requires
                    height == 0,
            ;
            vstd::arithmetic::div_mod::lemma_div_of0(width as int);
        }
        assert(height > 0);
    }
    let cells = convert_sized(img, cols, d, threshold_bits, invert, dither, Ghost(rows));
    Ok(cells)
}

/// Resamples, decides and packs once the geometry is known to be
/// non-degenerate.
#[verifier::rlimit(100)]
fn convert_sized(
    img: &image::DynamicImage,
    cols: u32,
    d: Dims,
    threshold_bits: u32,
    invert: bool,
    dither: bool,
    Ghost(rows): Ghost<int>,
) -> (v: Vec<Vec<u8>>)
    requires
        image_dims(*img).0 > 0,
        image_dims(*img).1 > 0,
        rows == spec_cell_rows(image_dims(*img).0 as int, image_dims(*img).1 as int, cols as int),
        image_dims(*img).1 * (2 * cols) <= image_dims(*img).0 * 0xFFFF_FFFE,
        2 * cols <= 0xFFFF_FFFE,
        0 < rows,
        0 < cols,
        d.cell_cols == cols,
        d.cell_rows == rows,
        d.dot_cols == 2 * cols,
        d.dot_rows == 4 * rows,
    ensures
        v@.len() == rows,
        forall|i: int| 0 <= i < rows ==> #[trigger] v@[i]@.len() == cols,
        forall|i: int, j: int|
            0 <= i < rows && 0 <= j < cols ==> #[trigger] v@[i]@[j] as int == spec_cell_value(
                resampled(*img, (2 * cols) as u32, (4 * rows) as u32),
                2 * cols as int,
                threshold_bits,
                invert,
                dither,
                i,
                j,
            ),
{
    proof {
        lemma_cover_height_bound(image_dims(*img).0 as int, image_dims(*img).1 as int, cols as int);
    }
    let resized = resize_to_fill(img, d.dot_cols, d.dot_rows);
    let grid = binarize(&resized, d.dot_cols, d.dot_rows, threshold_bits, invert, dither);
    let cells = pack(&grid, d.cell_cols, d.cell_rows);
    proof {
        let pix = resampled(*img, (2 * cols) as u32, (4 * rows) as u32);
        assert(d.dot_cols == (2 * cols) as u32);
        assert(d.dot_rows == (4 * rows) as u32);
        assert(image_pixels(resized) == pix);
        lemma_cells_match(grid, pix, threshold_bits, invert, dither, rows, cols as int);
        assert forall|i: int, j: int| 0 <= i < rows && 0 <= j < cols implies #[trigger] cells@[i]@[j]
            as int == spec_cell_value(
            pix,
            2 * cols as int,
            threshold_bits,
            invert,
            dither,
            i,
            j,
        ) by {
            assert(cells@[i]@[j] as int == spec_cell(grid, i, j));
            assert(spec_cell(grid, i, j) == spec_cell_value(
                pix,
                2 * cols as int,
                threshold_bits,
                invert,
                dither,
                i,
                j,
            ));
        }
    }
    cells
}

} // verus!
