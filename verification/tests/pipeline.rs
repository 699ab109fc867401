use braillify::braille::{pack, render, u8_to_braille, DotGrid};
use braillify::convert::image_to_braille;
use braillify::geometry::{grid_dims, GeometryError};

fn uniform_image(w: u32, h: u32, px: [u8; 4]) -> image::DynamicImage {
    let buf = image::ImageBuffer::from_pixel(w, h, image::Rgba(px));
    image::DynamicImage::ImageRgba8(buf)
}

fn lines_of(cells: Vec<Vec<u8>>) -> Vec<String> {
    render(&cells)
}

#[test]
fn test_braille() {
    assert_eq!(u8_to_braille(0b00000000), '⠀', "blank braille failed");
    assert_eq!(u8_to_braille(0b00000001), '⠁', "braille dots-1 failed");
    assert_eq!(u8_to_braille(0b01000000), '⡀', "braille dots-7 failed");
}

#[test]
fn single_dot_hits_table_bit() {
    let table: [u8; 8] = [0, 3, 1, 4, 2, 5, 6, 7];
    for k in 0..8usize {
        let mut data = vec![false; 8];
        data[k] = true;
        let grid = DotGrid { dot_cols: 2, dot_rows: 4, data };
        let cells = pack(&grid, 1, 1);
        assert_eq!(cells.len(), 1);
        assert_eq!(cells[0].len(), 1);
        assert_eq!(cells[0][0], 1u8 << table[k], "local dot {} failed", k);
    }
}

#[test]
fn all_dots_pack_to_full_cell() {
    let grid = DotGrid { dot_cols: 2, dot_rows: 4, data: vec![true; 8] };
    let cells = pack(&grid, 1, 1);
    assert_eq!(cells[0][0], 0xFF);
}

#[test]
fn render_maps_bytes_to_glyphs() {
    let cells = vec![vec![0x00u8, 0x01], vec![0x40, 0xFF]];
    let lines = render(&cells);
    assert_eq!(lines, vec!["\u{2800}\u{2801}".to_string(), "\u{2840}\u{28FF}".to_string()]);
}

#[test]
fn grid_dims_follows_formula() {
    // rows = floor(50 * 60 / 100 / 2) = 15, rounded down to even = 14.
    let d = grid_dims(100, 50, 60).unwrap();
    assert_eq!(d.cell_cols, 60);
    assert_eq!(d.cell_rows, 14);
    assert_eq!(d.dot_cols, 120);
    assert_eq!(d.dot_rows, 56);
    assert_eq!(d.cell_rows % 2, 0);
}

#[test]
fn grid_dims_zero_width_is_geometry_error() {
    assert_eq!(grid_dims(0, 50, 60), Err(GeometryError::ZeroWidth));
}

#[test]
fn zero_width_image_is_geometry_error() {
    let buf = image::ImageBuffer::from_pixel(0, 2, image::Rgba([255u8, 255, 255, 255]));
    let img = image::DynamicImage::ImageRgba8(buf);
    let t = 0.5f32.to_bits();
    assert_eq!(image_to_braille(&img, 2, t, false, false), Err(GeometryError::ZeroWidth));
}

#[test]
fn zero_columns_gives_empty_output() {
    let img = uniform_image(3, 3, [255, 255, 255, 255]);
    let t = 0.5f32.to_bits();
    let cells = image_to_braille(&img, 0, t, false, false).unwrap();
    assert_eq!(cells.len(), 0);
    assert_eq!(lines_of(cells).len(), 0);
}

#[test]
fn zero_rows_gives_empty_output() {
    // A wide, thin source: rows = floor(2 * 2 / 40 / 2) = 0.
    let img = uniform_image(40, 2, [255, 255, 255, 255]);
    let t = 0.5f32.to_bits();
    let cells = image_to_braille(&img, 2, t, false, false).unwrap();
    assert_eq!(cells.len(), 0);
}

#[test]
fn white_image_renders_full_glyphs() {
    // 4 wide, 16 tall: rows = floor(16 * 2 / 4 / 2) = 4, already even.
    let img = uniform_image(4, 16, [255, 255, 255, 255]);
    let t = 0.5f32.to_bits();
    let cells = image_to_braille(&img, 2, t, false, false).unwrap();
    let lines = lines_of(cells);
    assert_eq!(lines, vec!["\u{28FF}\u{28FF}"; 4]);
}

#[test]
fn white_image_inverted_renders_blank_glyphs() {
    let img = uniform_image(4, 16, [255, 255, 255, 255]);
    let t = 0.5f32.to_bits();
    let cells = image_to_braille(&img, 2, t, true, false).unwrap();
    let lines = lines_of(cells);
    assert_eq!(lines, vec!["\u{2800}\u{2800}"; 4]);
}

#[test]
fn black_image_renders_blank_glyphs() {
    let img = uniform_image(4, 16, [0, 0, 0, 255]);
    let t = 0.5f32.to_bits();
    let cells = image_to_braille(&img, 2, t, false, false).unwrap();
    let lines = lines_of(cells);
    assert_eq!(lines, vec!["\u{2800}\u{2800}"; 4]);
}

#[test]
fn dithered_uniform_extremes_match_direct() {
    let t = 0.5f32.to_bits();
    let white = uniform_image(4, 16, [255, 255, 255, 255]);
    let cells = image_to_braille(&white, 2, t, false, true).unwrap();
    assert_eq!(lines_of(cells), vec!["\u{28FF}\u{28FF}"; 4]);
    let black = uniform_image(4, 16, [0, 0, 0, 255]);
    let cells = image_to_braille(&black, 2, t, false, true).unwrap();
    assert_eq!(lines_of(cells), vec!["\u{2800}\u{2800}"; 4]);
    let white_inv = image_to_braille(&white, 2, t, true, true).unwrap();
    assert_eq!(lines_of(white_inv), vec!["\u{2800}\u{2800}"; 4]);
}

fn split_image(w: u32, h: u32, horizontal: bool) -> image::DynamicImage {
    let buf = image::ImageBuffer::from_fn(w, h, |x, y| {
        let bright = if horizontal {
            y >= h / 2
        } else {
            x >= w / 2
        };
        if bright {
            image::Rgba([255u8, 255, 255, 255])
        } else {
            image::Rgba([0u8, 0, 0, 255])
        }
    });
    image::DynamicImage::ImageRgba8(buf)
}

#[test]
fn left_black_right_white_splits_cells() {
    let img = split_image(4, 16, false);
    let t = 0.5f32.to_bits();
    let cells = image_to_braille(&img, 2, t, false, false).unwrap();
    let lines = lines_of(cells);
    assert_eq!(lines, vec!["\u{2800}\u{28FF}"; 4]);
}

#[test]
fn top_black_bottom_white_splits_rows() {
    let img = split_image(4, 16, true);
    let t = 0.5f32.to_bits();
    let cells = image_to_braille(&img, 2, t, false, false).unwrap();
    let lines = lines_of(cells);
    assert_eq!(
        lines,
        vec![
            "\u{2800}\u{2800}".to_string(),
            "\u{2800}\u{2800}".to_string(),
            "\u{28FF}\u{28FF}".to_string(),
            "\u{28FF}\u{28FF}".to_string(),
        ]
    );
}
