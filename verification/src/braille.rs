//! Packing dot decisions into Braille cell values and rendering them as
//! glyph lines. A cell covers a 2 wide by 4 tall block of dots; the local
//! index of a dot inside its block is `dy * 2 + dx`, and the bit the cell
//! byte carries for it is given by a fixed permutation table from the
//! Braille Patterns Unicode block.

use vstd::prelude::*;

use crate::outside::{char_from_scalar, push_char};

verus! {

/// The fixed local-index-to-bit-position table of the Braille Patterns
/// block: local indices 0 through 7 map to output bits 0, 3, 1, 4, 2, 5,
/// 6, 7. The table encodes the block's historical dot numbering and is
/// reproduced, not derived.
pub open spec fn braille_bit(local: int) -> int {
    if local == 0 {
        0
    } else if local == 1 {
        3
    } else if local == 2 {
        1
    } else if local == 3 {
        4
    } else if local == 4 {
        2
    } else if local == 5 {
        5
    } else if local == 6 {
        6
    } else {
        7
    }
}

/// Two to the power `e`.
pub open spec fn pow2(e: int) -> int
    decreases e,
{
    if e <= 0 {
        1
    } else {
        2 * pow2(e - 1)
    }
}

/// The value a cell byte gains from the dot with the given local index:
/// `2 ^ braille_bit(local)`, written out.
pub open spec fn braille_weight(local: int) -> int {
    if local == 0 {
        1
    } else if local == 1 {
        8
    } else if local == 2 {
        2
    } else if local == 3 {
        16
    } else if local == 4 {
        4
    } else if local == 5 {
        32
    } else if local == 6 {
        64
    } else {
        128
    }
}

/// Each weight is exactly the power of two of the table's bit position.
pub proof fn lemma_weight_is_table_bit(local: int)
    requires
        0 <= local < 8,
    ensures
        braille_weight(local) == pow2(braille_bit(local)),
{
    reveal_with_fuel(pow2, 9);
}

/// The value of one cell, from the eight dot decisions of its block in
/// local index order.
pub open spec fn spec_cell_of(d: Seq<bool>) -> int {
    (if d[0] {
        1int
    } else {
        0int
    }) + (if d[1] {
        8int
    } else {
        0int
    }) + (if d[2] {
        2int
    } else {
        0int
    }) + (if d[3] {
        16int
    } else {
        0int
    }) + (if d[4] {
        4int
    } else {
        0int
    }) + (if d[5] {
        32int
    } else {
        0int
    }) + (if d[6] {
        64int
    } else {
        0int
    }) + (if d[7] {
        128int
    } else {
        0int
    })
}

/// The packer sets exactly the bit the table names: for every local index
/// `k`, bit `braille_bit(k)` of the cell value is set if and only if dot
/// `k` is on.
pub proof fn lemma_cell_bit(d: Seq<bool>, k: int)
    requires
        0 <= k < 8,
    ensures
        spec_cell_of(d) / pow2(braille_bit(k)) % 2 == (if d[k] {
            1int
        } else {
            0int
        }),
{
    reveal_with_fuel(pow2, 9);
    let b0: u8 = if d[0] {
        1
    } else {
        0
    };
    let b1: u8 = if d[1] {
        1
    } else {
        0
    };
    let b2: u8 = if d[2] {
        1
    } else {
        0
    };
    let b3: u8 = if d[3] {
        1
    } else {
        0
    };
    let b4: u8 = if d[4] {
        1
    } else {
        0
    };
    let b5: u8 = if d[5] {
        1
    } else {
        0
    };
    let b6: u8 = if d[6] {
        1
    } else {
        0
    };
    let b7: u8 = if d[7] {
        1
    } else {
        0
    };
    let v: u8 = (b0 + 8 * b1 + 2 * b2 + 16 * b3 + 4 * b4 + 32 * b5 + 64 * b6 + 128 * b7) as u8;
    assert(v / 1 % 2 == b0 && v / 8 % 2 == b1 && v / 2 % 2 == b2 && v / 16 % 2 == b3 && v / 4 % 2
        == b4 && v / 32 % 2 == b5 && v / 64 % 2 == b6 && v / 128 % 2 == b7) by (bit_vector)
        requires
            b0 <= 1 && b1 <= 1 && b2 <= 1 && b3 <= 1 && b4 <= 1 && b5 <= 1 && b6 <= 1 && b7 <= 1
                && v == b0 + 8 * b1 + 2 * b2 + 16 * b3 + 4 * b4 + 32 * b5 + 64 * b6 + 128 * b7,
    ;
    assert(v == spec_cell_of(d));
}

/// A block with exactly one dot on, at local index `k`, packs to exactly
/// the table's power of two.
pub proof fn lemma_single_dot(d: Seq<bool>, k: int)
    requires
        0 <= k < 8,
        forall|i: int| 0 <= i < 8 ==> (d[i] <==> i == k),
    ensures
        spec_cell_of(d) == pow2(braille_bit(k)),
{
    reveal_with_fuel(pow2, 9);
}

/// A rectangular grid of dot decisions, row-major.
pub struct DotGrid {
    pub dot_cols: u32,
    pub dot_rows: u32,
    pub data: Vec<bool>,
}

impl DotGrid {
    /// The stored data covers the stated rectangle.
    pub open spec fn wf(self) -> bool {
        self.data@.len() == self.dot_rows * self.dot_cols
    }

    /// The decision for the dot at column `x`, row `y`.
    pub open spec fn dot(self, x: int, y: int) -> bool {
        self.data@[y * self.dot_cols + x]
    }
}

/// The dot decisions of the block of the cell at row `cr`, column `cc`, in
/// local index order.
pub open spec fn spec_block(g: DotGrid, cr: int, cc: int) -> Seq<bool> {
    Seq::new(8, |k: int| g.dot(2 * cc + k % 2, 4 * cr + k / 2))
}

/// The cell value at row `cr`, column `cc` of the packed grid.
pub open spec fn spec_cell(g: DotGrid, cr: int, cc: int) -> int {
    spec_cell_of(spec_block(g, cr, cc))
}

/// Reads one dot.
fn read_dot(g: &DotGrid, x: u32, y: u32) -> (r: bool)
    requires
        g.wf(),
        x < g.dot_cols,
        y < g.dot_rows,
    ensures
        r == g.dot(x as int, y as int),
{
    let n: usize = g.data.len();
    proof {
        assert(y * g.dot_cols + x < g.dot_rows * g.dot_cols) by (nonlinear_arith)
            requires
                x < g.dot_cols && y < g.dot_rows,
        ;
        assert(g.dot_rows * g.dot_cols == n);
    }
    let idx: usize = (y as usize) * (g.dot_cols as usize) + (x as usize);
    g.data[idx]
}

/// Packs the 2 by 4 block of the cell at row `cr`, column `cc` into one
/// byte, bit positions per the fixed table.
fn pack_cell(g: &DotGrid, cr: u32, cc: u32) -> (v: u8)
    requires
        g.wf(),
        4 * cr + 4 <= g.dot_rows,
        2 * cc + 2 <= g.dot_cols,
    ensures
        v as int == spec_cell(*g, cr as int, cc as int),
{
    let x0: u32 = 2 * cc;
    let y0: u32 = 4 * cr;
    let mut v: u8 = 0;
    if read_dot(g, x0, y0) {
        v = v + 1;
    }
    if read_dot(g, x0 + 1, y0) {
        v = v + 8;
    }
    if read_dot(g, x0, y0 + 1) {
        v = v + 2;
    }
    if read_dot(g, x0 + 1, y0 + 1) {
        v = v + 16;
    }
    if read_dot(g, x0, y0 + 2) {
        v = v + 4;
    }
    if read_dot(g, x0 + 1, y0 + 2) {
        v = v + 32;
    }
    if read_dot(g, x0, y0 + 3) {
        v = v + 64;
    }
    if read_dot(g, x0 + 1, y0 + 3) {
        v = v + 128;
    }
    proof {
        let d = spec_block(*g, cr as int, cc as int);
        assert(d[0] == g.dot(x0 as int, y0 as int));
        assert(d[1] == g.dot(x0 + 1 as int, y0 as int));
        assert(d[2] == g.dot(x0 as int, y0 + 1 as int));
        assert(d[3] == g.dot(x0 + 1 as int, y0 + 1 as int));
        assert(d[4] == g.dot(x0 as int, y0 + 2 as int));
        assert(d[5] == g.dot(x0 + 1 as int, y0 + 2 as int));
        assert(d[6] == g.dot(x0 as int, y0 + 3 as int));
        assert(d[7] == g.dot(x0 + 1 as int, y0 + 3 as int));
    }
    v
}

/// Packs a dot grid into the cell grid: `cell_rows` rows of `cell_cols`
/// bytes, each the packed value of its 2 by 4 block.
pub fn pack(g: &DotGrid, cell_cols: u32, cell_rows: u32) -> (out: Vec<Vec<u8>>)
    requires
        g.wf(),
        g.dot_cols == 2 * cell_cols,
        g.dot_rows == 4 * cell_rows,
    ensures
        out@.len() == cell_rows,
        forall|i: int| 0 <= i < cell_rows ==> out@[i]@.len() == cell_cols,
        forall|i: int, j: int|
            0 <= i < cell_rows && 0 <= j < cell_cols ==> out@[i]@[j] as int == spec_cell(
                *g,
                i,
                j,
            ),
{
    let mut out: Vec<Vec<u8>> = Vec::new();
    let mut i: u32 = 0;
    while i < cell_rows
        invariant
            g.wf(),
            g.dot_cols == 2 * cell_cols,
            g.dot_rows == 4 * cell_rows,
            i <= cell_rows,
            out@.len() == i,
            forall|r: int| 0 <= r < i ==> out@[r]@.len() == cell_cols,
            forall|r: int, c: int|
                0 <= r < i && 0 <= c < cell_cols ==> out@[r]@[c] as int == spec_cell(*g, r, c),
        decreases cell_rows - i,
    {
        let mut row: Vec<u8> = Vec::new();
        let mut j: u32 = 0;
        while j < cell_cols
            invariant
                g.wf(),
                g.dot_cols == 2 * cell_cols,
                g.dot_rows == 4 * cell_rows,
                i < cell_rows,
                j <= cell_cols,
                row@.len() == j,
                forall|c: int| 0 <= c < j ==> row@[c] as int == spec_cell(*g, i as int, c),
            decreases cell_cols - j,
        {
            let v = pack_cell(g, i, j);
            row.push(v);
            j = j + 1;
        }
        out.push(row);
        i = i + 1;
    }
    out
}

/// The Braille glyph for a cell byte: the character at `0x2800 + byte` in
/// the Braille Patterns block. Byte 0 is the blank Braille glyph.
pub fn u8_to_braille(byte: u8) -> (c: char)
    ensures
        c as u32 == 0x2800 + byte,
{
    char_from_scalar(0x2800 + (byte as u32))
}

/// Renders the cell grid as one line of glyphs per cell row.
pub fn render(cells: &Vec<Vec<u8>>) -> (lines: Vec<String>)
    ensures
        lines@.len() == cells@.len(),
        forall|i: int| 0 <= i < cells@.len() ==> lines@[i]@.len() == cells@[i]@.len(),
        forall|i: int, j: int|
            0 <= i < cells@.len() && 0 <= j < cells@[i]@.len() ==> lines@[i]@[j] as u32 == 0x2800
                + cells@[i]@[j],
{
    let mut lines: Vec<String> = Vec::new();
    let mut i: usize = 0;
    while i < cells.len()
        invariant
            i <= cells@.len(),
            lines@.len() == i,
            forall|r: int| 0 <= r < i ==> lines@[r]@.len() == cells@[r]@.len(),
            forall|r: int, c: int|
                0 <= r < i && 0 <= c < cells@[r]@.len() ==> lines@[r]@[c] as u32 == 0x2800
                    + cells@[r]@[c],
        decreases cells@.len() - i,
    {
        let row = &cells[i];
        let mut line = String::new();
        let mut j: usize = 0;
        while j < row.len()
            invariant
                row == &cells@[i as int],
                i < cells@.len(),
                j <= row@.len(),
                line@.len() == j,
                forall|c: int| 0 <= c < j ==> line@[c] as u32 == 0x2800 + row@[c],
            decreases row@.len() - j,
        {
            let ch = u8_to_braille(row[j]);
            push_char(&mut line, ch);
            j = j + 1;
        }
        lines.push(line);
        i = i + 1;
    }
    lines
}

} // verus!
