//! Target grid geometry: from the source dimensions and the requested
//! column count to the cell grid and dot grid dimensions.

use vstd::prelude::*;

verus! {

/// Why a conversion was rejected before any pixel was read.
#[derive(Clone, Copy, Debug, PartialEq, Eq, Structural)]
pub enum GeometryError {
    /// The source image has zero width, so no row count can be derived.
    ZeroWidth,
}

/// The dimensions of one conversion: the cell grid holds `cell_rows` rows
/// of `cell_cols` Braille cells; the dot grid is exactly twice as wide and
/// four times as tall.
#[derive(Clone, Copy, Debug, PartialEq, Eq, Structural)]
pub struct Dims {
    pub cell_cols: u32,
    pub cell_rows: u32,
    pub dot_cols: u32,
    pub dot_rows: u32,
}

/// The number of cell rows for a source of width `w` and height `h` shown
/// at `c` columns: `floor(h*c/w/2)`, rounded down to the nearest even
/// number. The even row count keeps the dot rows aligned to whole cells and
/// compensates for glyph cells being taller than wide.
pub open spec fn spec_cell_rows(w: int, h: int, c: int) -> int {
    let q = h * c / w / 2;
    q - q % 2
}

impl Dims {
    /// The dimensions a conversion of a `w` by `h` source at `c` requested
    /// columns must have.
    pub open spec fn spec_of(w: int, h: int, c: int) -> Dims {
        Dims {
            cell_cols: c as u32,
            cell_rows: spec_cell_rows(w, h, c) as u32,
            dot_cols: (2 * c) as u32,
            dot_rows: (4 * spec_cell_rows(w, h, c)) as u32,
        }
    }
}

/// When the source height times the doubled column count stays within the
/// source width widened by the 32-bit dimension bound, the dot row count
/// fits that bound too.
pub proof fn lemma_rows_bound(w: int, h: int, c: int)
    requires
        w > 0,
        0 <= h,
        0 <= c,
        h * (2 * c) <= w * 0xFFFF_FFFE,
    ensures
        4 * spec_cell_rows(w, h, c) <= 0xFFFF_FFFE,
{
    let a = h * c;
    let q0 = a / w;
    let q = q0 / 2;
    let rows = spec_cell_rows(w, h, c);
    assert(2 * a == h * (2 * c)) by (nonlinear_arith)
        requires
            a == h * c,
    ;
    vstd::arithmetic::div_mod::lemma_mod_bound(q, 2);
    assert(rows <= q);
    vstd::arithmetic::div_mod::lemma_fundamental_div_mod(q0, 2);
    vstd::arithmetic::div_mod::lemma_mod_bound(q0, 2);
    assert(2 * q <= q0);
    vstd::arithmetic::div_mod::lemma_fundamental_div_mod(a, w);
    vstd::arithmetic::div_mod::lemma_mod_bound(a, w);
    assert(w * q0 <= a);
    assert(2 * q0 <= 0xFFFF_FFFE) by (nonlinear_arith)
        requires
            w > 0 && w * q0 <= a && 2 * a <= w * 0xFFFF_FFFE,
    ;
    assert(4 * rows <= 2 * q0);
}

/// The aspect-preserving cover of the target dot grid never needs a height
/// beyond the 32-bit dimension bound: the dot rows, scaled back by the
/// source width, stay within the source height so widened.
pub proof fn lemma_cover_height_bound(w: int, h: int, c: int)
    requires
        w > 0,
        0 <= h,
        0 <= c,
        2 * c <= 0xFFFF_FFFE,
    ensures
        w * (4 * spec_cell_rows(w, h, c)) <= h * 0xFFFF_FFFE,
{
    let a = h * c;
    let q0 = a / w;
    let q = q0 / 2;
    let rows = spec_cell_rows(w, h, c);
    vstd::arithmetic::div_mod::lemma_mod_bound(q, 2);
    assert(rows <= q);
    vstd::arithmetic::div_mod::lemma_fundamental_div_mod(q0, 2);
    vstd::arithmetic::div_mod::lemma_mod_bound(q0, 2);
    assert(2 * q <= q0);
    vstd::arithmetic::div_mod::lemma_fundamental_div_mod(a, w);
    vstd::arithmetic::div_mod::lemma_mod_bound(a, w);
    assert(w * q0 <= a);
    assert(w * (4 * rows) <= 2 * a) by (nonlinear_arith)
        requires
            w > 0 && 4 * rows <= 2 * q0 && w * q0 <= a,
    ;
    assert(2 * a <= h * 0xFFFF_FFFE) by (nonlinear_arith)
        requires
            a == h * c && 2 * c <= 0xFFFF_FFFE && 0 <= h,
    ;
}

/// A request for zero columns yields a grid with zero columns and zero
/// rows, and therefore an empty rendering, for every source.
pub proof fn lemma_zero_columns(w: int, h: int)
    requires
        w > 0,
    ensures
        spec_cell_rows(w, h, 0) == 0,
{
    assert(h * 0 == 0) by (nonlinear_arith);
    vstd::arithmetic::div_mod::lemma_div_of0(w);
}

/// Computes the target grid dimensions. Fails exactly when the source
/// width is zero; any other source, including one that yields zero rows or
/// zero columns, is valid. The cell row count is always even.
pub fn grid_dims(width: u32, height: u32, cols: u32) -> (r: Result<Dims, GeometryError>)
    requires
        2 * cols <= u32::MAX,
        width > 0 ==> 4 * spec_cell_rows(width as int, height as int, cols as int) <= u32::MAX,
    ensures
        r is Err <==> width == 0,
        r is Err ==> r == Result::<Dims, GeometryError>::Err(GeometryError::ZeroWidth),
        r matches Ok(d) ==> d == Dims::spec_of(width as int, height as int, cols as int),
        r matches Ok(d) ==> d.cell_rows % 2 == 0 && d.dot_cols == 2 * cols && d.dot_rows == 4
            * d.cell_rows,
{
    if width == 0 {
        return Err(GeometryError::ZeroWidth);
    }
    proof {
        assert((height as u64) * (cols as u64) == height * cols) by (nonlinear_arith);
        assert(height * cols <= u64::MAX) by (nonlinear_arith)
            requires
                height <= u32::MAX && cols <= u32::MAX,
        ;
    }
    let prod: u64 = (height as u64) * (cols as u64);
    let q: u64 = prod / (width as u64) / 2;
    let rows: u64 = q - q % 2;
    proof {
        assert(rows == spec_cell_rows(width as int, height as int, cols as int));
        assert(rows % 2 == 0);
    }
    let d = Dims {
        cell_cols: cols,
        cell_rows: rows as u32,
        dot_cols: 2 * cols,
        dot_rows: 4 * (rows as u32),
    };
    Ok(d)
}

} // verus!
