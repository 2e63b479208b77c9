use ascii_frames::frame::Frame;
use ascii_frames::raster::{
    measure, rasterize, render, render_frame, RasterBatch, Rgb, CHAR_WIDTH_PERCENT,
    DARKNESS_THRESHOLD, LINE_HEIGHT_PERCENT, SPACE,
};
use ascii_frames::CFrameData;

fn rgb(red: u8, green: u8, blue: u8) -> Rgb {
    Rgb { red, green, blue }
}

fn brief(batches: &[RasterBatch]) -> Vec<(String, u32, u32, Rgb)> {
    batches.iter().map(|b| (b.text.clone(), b.row, b.col, b.color)).collect()
}

fn frame(width: u32, height: u32, cells: &[(u8, u8, u8, u8)]) -> CFrameData {
    let chars = cells.iter().map(|c| c.0).collect();
    let rgb = cells.iter().flat_map(|c| [c.1, c.2, c.3]).collect();
    CFrameData { width, height, chars, rgb }
}

#[test]
fn glyphs_of_one_colour_side_by_side_are_one_batch() {
    let cells = frame(
        4,
        1,
        &[(b'A', 255, 0, 0), (b'B', 255, 0, 0), (b' ', 0, 0, 0), (b'C', 0, 255, 0)],
    );
    assert_eq!(
        brief(&rasterize(&cells)),
        vec![
            ("AB".to_string(), 0, 0, rgb(255, 0, 0)),
            ("C".to_string(), 0, 3, rgb(0, 255, 0)),
        ]
    );
}

#[test]
fn dark_cells_and_spaces_are_not_drawn() {
    assert_eq!(DARKNESS_THRESHOLD, 5);
    assert_eq!(SPACE, b' ');
    let cells = frame(
        6,
        1,
        &[
            (b'A', 255, 0, 0),
            (b'B', 2, 2, 2),
            (b'C', 255, 0, 0),
            (b' ', 255, 0, 0),
            (b'D', 4, 4, 5),
            (b'E', 4, 4, 4),
        ],
    );
    assert_eq!(
        brief(&rasterize(&cells)),
        vec![
            ("A".to_string(), 0, 0, rgb(255, 0, 0)),
            ("C".to_string(), 0, 2, rgb(255, 0, 0)),
            ("D".to_string(), 0, 4, rgb(4, 4, 5)),
        ]
    );
}

#[test]
fn a_batch_ends_with_its_row() {
    let cells = frame(
        2,
        2,
        &[(b'A', 9, 9, 9), (b'B', 9, 9, 9), (b'C', 9, 9, 9), (b'D', 9, 9, 8)],
    );
    assert_eq!(
        brief(&rasterize(&cells)),
        vec![
            ("AB".to_string(), 0, 0, rgb(9, 9, 9)),
            ("C".to_string(), 1, 0, rgb(9, 9, 9)),
            ("D".to_string(), 1, 1, rgb(9, 9, 8)),
        ]
    );
}

#[test]
fn an_empty_or_blank_frame_has_no_batch() {
    assert!(rasterize(&frame(0, 0, &[])).is_empty());
    assert!(rasterize(&frame(0, 5, &[])).is_empty());
    assert!(rasterize(&frame(5, 0, &[])).is_empty());
    assert!(rasterize(&frame(2, 1, &[(b' ', 255, 255, 255), (b'x', 0, 0, 0)])).is_empty());
}

#[test]
fn glyph_bytes_are_drawn_as_code_points() {
    let cells = frame(2, 1, &[(0xe9, 50, 50, 50), (0xff, 50, 50, 50)]);
    assert_eq!(brief(&rasterize(&cells)), vec![("\u{e9}\u{ff}".to_string(), 0, 0, rgb(50, 50, 50))]);
}

fn pattern(width: u32, height: u32, seed: u32) -> CFrameData {
    let mut state = seed;
    let mut next = move || {
        state = state.wrapping_mul(1664525).wrapping_add(1013904223);
        (state >> 24) as u8
    };
    let mut cells = Vec::new();
    for _ in 0..width * height {
        let glyph = [b' ', b'#', b'.', b'@'][(next() % 4) as usize];
        let shade = [0u8, 4, 5, 200][(next() % 4) as usize];
        let tint = [0u8, 4, 200][(next() % 3) as usize];
        cells.push((glyph, shade, tint, shade));
    }
    frame(width, height, &cells)
}

#[test]
fn every_drawn_cell_lies_in_one_batch_with_its_own_glyph_and_colour() {
    for seed in 0..40 {
        let cells = pattern(9, 5, seed);
        let batches = rasterize(&cells);
        let mut drawn = vec![None; 45];
        for batch in &batches {
            assert!(!batch.text.is_empty());
            for (j, c) in batch.text.chars().enumerate() {
                let at = batch.row as usize * 9 + batch.col as usize + j;
                assert!(batch.col as usize + j < 9);
                assert!(drawn[at].is_none());
                drawn[at] = Some((c, batch.color));
            }
        }
        for at in 0..45 {
            let color = rgb(cells.rgb[3 * at], cells.rgb[3 * at + 1], cells.rgb[3 * at + 2]);
            let dark = color.red < 5 && color.green < 5 && color.blue < 5;
            if cells.chars[at] == b' ' || dark {
                assert_eq!(drawn[at], None);
            } else {
                assert_eq!(drawn[at], Some((cells.chars[at] as char, color)));
            }
        }
        for pair in batches.windows(2) {
            let end = pair[0].col as usize + pair[0].text.chars().count();
            assert!((pair[0].row, end) <= (pair[1].row, pair[1].col as usize));
            if pair[0].row == pair[1].row && end == pair[1].col as usize {
                assert_ne!(pair[0].color, pair[1].color);
            }
        }
    }
}

#[test]
fn rasterizing_twice_gives_the_same_batches() {
    for seed in 0..10 {
        let cells = pattern(7, 4, seed);
        assert_eq!(brief(&rasterize(&cells)), brief(&rasterize(&cells)));
        let first = render(&cells, 1250);
        let second = render(&cells, 1250);
        assert_eq!(brief(&first.batches), brief(&second.batches));
        assert_eq!((first.width_px, first.height_px), (second.width_px, second.height_px));
        for (a, b) in first.batches.iter().zip(second.batches.iter()) {
            assert_eq!(a.origin(1250), b.origin(1250));
        }
    }
}

#[test]
fn the_batches_are_those_of_the_viewer_core() {
    for seed in 0..40 {
        let cells = pattern(11, 6, seed);
        let theirs = cascii_core_view::render::render_cframe(
            &cascii_core_view::CFrameData::new(11, 6, cells.chars.clone(), cells.rgb.clone()),
            &cascii_core_view::RenderConfig::new(12.5),
        );
        let ours = render(&cells, 1250);
        assert_eq!(ours.batches.len(), theirs.batches.len());
        for (a, b) in ours.batches.iter().zip(theirs.batches.iter()) {
            assert_eq!(a.text, b.text);
            assert_eq!((a.color.red, a.color.green, a.color.blue), b.color);
            let (x, y) = a.origin(1250);
            assert!((x as f64 / 10000.0 - b.x).abs() < 1e-9);
            assert!((y as f64 / 10000.0 - b.y).abs() < 1e-9);
        }
        assert_eq!(ours.width_px as f64, theirs.width.ceil());
        assert_eq!(ours.height_px as f64, theirs.height.ceil());
    }
}

#[test]
fn a_raster_is_as_wide_and_as_high_as_its_cells() {
    assert_eq!(CHAR_WIDTH_PERCENT, 60);
    assert_eq!(LINE_HEIGHT_PERCENT, 111);
    assert_eq!(measure(80, 24, 1000), (480, 267));
    assert_eq!(measure(80, 24, 1200), (576, 320));
    assert_eq!(measure(1, 1, 100), (1, 2));
    assert_eq!(measure(1, 1, 1), (1, 1));
    assert_eq!(measure(0, 0, 1000), (0, 0));
    assert_eq!(measure(3, 2, 0), (0, 0));
    assert_eq!(measure(5, 100, 1000), (30, 1110));
    assert_eq!(
        measure(u32::MAX, u32::MAX, u32::MAX),
        (110680464390717703, 204758859122827749)
    );
}

#[test]
fn a_batch_is_drawn_at_the_corner_of_its_first_cell() {
    let batch = RasterBatch { text: "x".to_string(), row: 5, col: 10, color: rgb(1, 2, 3) };
    assert_eq!(batch.origin(1200), (720_000, 666_000));
    assert_eq!(batch.origin(0), (0, 0));
    let far = RasterBatch { text: "x".to_string(), row: u32::MAX, col: u32::MAX, color: rgb(1, 2, 3) };
    let size = u32::MAX as u128;
    assert_eq!(far.origin(u32::MAX), (size * 60 * size, size * 111 * size));
}

#[test]
fn a_frame_without_colours_has_no_raster() {
    let mut frame = Frame::text_only("AB\n".to_string());
    assert!(render_frame(&frame, 1000).is_none());
    frame.cframe = Some(CFrameData { width: 2, height: 1, chars: vec![b'A'], rgb: vec![9; 6] });
    assert!(render_frame(&frame, 1000).is_none());
    frame.cframe =
        Some(CFrameData { width: 2, height: 1, chars: vec![b'A', b'B'], rgb: vec![9; 6] });
    let raster = render_frame(&frame, 1000).unwrap();
    assert_eq!(raster.font_centi, 1000);
    assert_eq!((raster.width_px, raster.height_px), (12, 12));
    assert_eq!(brief(&raster.batches), vec![("AB".to_string(), 0, 0, rgb(9, 9, 9))]);
}
