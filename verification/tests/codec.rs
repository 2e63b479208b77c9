use ascii_frames::codec::{
    decode_cframe, decode_cframe_text, decode_colors, read_header, Container, FormatError,
};
use ascii_frames::{CFrameData, ColorData};

fn header(width: u32, height: u32) -> Vec<u8> {
    let mut bytes = width.to_le_bytes().to_vec();
    bytes.extend_from_slice(&height.to_le_bytes());
    bytes
}

fn sample_cframe() -> Vec<u8> {
    let mut bytes = header(2, 2);
    bytes.extend_from_slice(&[b'A', 255, 0, 0]);
    bytes.extend_from_slice(&[b'B', 0, 255, 0]);
    bytes.extend_from_slice(&[b'C', 0, 0, 255]);
    bytes.extend_from_slice(&[b'D', 128, 128, 128]);
    bytes
}

#[test]
fn cframe_decodes_to_glyphs_and_colours() {
    let frame = decode_cframe(&sample_cframe()).unwrap();
    assert_eq!(frame.width, 2);
    assert_eq!(frame.height, 2);
    assert_eq!(frame.chars, vec![b'A', b'B', b'C', b'D']);
    assert_eq!(frame.rgb, vec![255, 0, 0, 0, 255, 0, 0, 0, 255, 128, 128, 128]);
    assert!(frame.is_well_formed());
}

#[test]
fn cframe_decodes_to_text_with_a_break_behind_every_row() {
    assert_eq!(decode_cframe_text(&sample_cframe()).unwrap(), "AB\nCD\n");
    let mut bytes = header(3, 2);
    for glyph in b"ABCDEF" {
        bytes.extend_from_slice(&[*glyph, 0, 0, 0]);
    }
    assert_eq!(decode_cframe_text(&bytes).unwrap(), "ABC\nDEF\n");
}

#[test]
fn glyph_bytes_are_code_points() {
    let mut bytes = header(2, 1);
    bytes.extend_from_slice(&[0xe9, 1, 2, 3, 0x00, 4, 5, 6]);
    assert_eq!(decode_cframe_text(&bytes).unwrap(), "\u{e9}\u{0}\n");
    assert_eq!(decode_cframe(&bytes).unwrap().to_text(), "\u{e9}\u{0}\n");
}

#[test]
fn the_two_ways_of_decoding_a_cframe_agree() {
    let mut bytes = header(5, 3);
    for i in 0..15u8 {
        bytes.extend_from_slice(&[b'a' + i, i, 2 * i, 3 * i]);
    }
    let frame = decode_cframe(&bytes).unwrap();
    let text = decode_cframe_text(&bytes).unwrap();
    assert_eq!(frame.to_text(), text);
    let rows: Vec<&str> = text.lines().collect();
    assert_eq!(rows.len(), 3);
    for (row, line) in rows.iter().enumerate() {
        for (col, c) in line.chars().enumerate() {
            assert_eq!(c, frame.chars[row * 5 + col] as char);
        }
    }
}

#[test]
fn colors_decode_to_the_body() {
    let mut bytes = header(2, 1);
    bytes.extend_from_slice(&[1, 2, 3, 4, 5, 6]);
    let colors = decode_colors(&bytes).unwrap();
    assert_eq!(colors.width, 2);
    assert_eq!(colors.height, 1);
    assert_eq!(colors.rgb, vec![1, 2, 3, 4, 5, 6]);
}

#[test]
fn bytes_behind_the_last_cell_are_not_read() {
    let mut bytes = sample_cframe();
    bytes.extend_from_slice(&[9, 9, 9]);
    let frame = decode_cframe(&bytes).unwrap();
    assert_eq!(frame.chars, vec![b'A', b'B', b'C', b'D']);
    assert_eq!(frame.rgb.len(), 12);
    assert_eq!(decode_cframe_text(&bytes).unwrap(), "AB\nCD\n");

    let mut bytes = header(1, 1);
    bytes.extend_from_slice(&[1, 2, 3, 4, 5]);
    assert_eq!(decode_colors(&bytes).unwrap().rgb, vec![1, 2, 3]);
}

#[test]
fn a_buffer_without_a_header_is_refused() {
    for length in 0..8usize {
        let bytes = vec![1u8; length];
        let expected = FormatError::HeaderTooShort { kind: Container::CFrame, actual: length };
        assert_eq!(decode_cframe(&bytes).unwrap_err(), expected);
        assert_eq!(decode_cframe_text(&bytes).unwrap_err(), expected);
        assert_eq!(expected.message(), "CFrame file too small (missing header)");
        let expected = FormatError::HeaderTooShort { kind: Container::Colors, actual: length };
        assert_eq!(decode_colors(&bytes).unwrap_err(), expected);
        assert_eq!(expected.message(), "Colors file too small (missing header)");
    }
}

#[test]
fn a_buffer_shorter_than_its_header_says_is_refused() {
    let mut bytes = header(2, 2);
    bytes.extend_from_slice(&[b'A', 255, 0, 0]);
    let expected =
        FormatError::SizeMismatch { kind: Container::CFrame, expected: 24, actual: 12 };
    assert_eq!(decode_cframe(&bytes).unwrap_err(), expected);
    assert_eq!(decode_cframe_text(&bytes).unwrap_err(), expected);
    assert_eq!(expected.message(), "CFrame file size mismatch: expected 24 bytes, got 12");

    let expected =
        FormatError::SizeMismatch { kind: Container::Colors, expected: 20, actual: 12 };
    assert_eq!(decode_colors(&bytes).unwrap_err(), expected);
    assert_eq!(expected.message(), "Colors file size mismatch: expected 20 bytes, got 12");
}

#[test]
fn every_shorter_buffer_is_refused_and_the_full_one_is_not() {
    let full = sample_cframe();
    for length in 8..full.len() {
        let error = decode_cframe(&full[..length]).unwrap_err();
        assert_eq!(
            error,
            FormatError::SizeMismatch { kind: Container::CFrame, expected: 24, actual: length }
        );
    }
    assert!(decode_cframe(&full).is_ok());
    for length in 8..20 {
        assert!(decode_colors(&full[..length]).is_err());
    }
    assert!(decode_colors(&full[..20]).is_ok());
}

#[test]
fn a_header_that_asks_for_more_than_memory_holds_is_refused() {
    let bytes = header(u32::MAX, u32::MAX);
    let cells = (u32::MAX as u128) * (u32::MAX as u128);
    assert_eq!(
        decode_cframe(&bytes).unwrap_err(),
        FormatError::SizeMismatch { kind: Container::CFrame, expected: 8 + cells * 4, actual: 8 }
    );
    assert_eq!(
        decode_colors(&bytes).unwrap_err(),
        FormatError::SizeMismatch { kind: Container::Colors, expected: 8 + cells * 3, actual: 8 }
    );
    let error = decode_cframe(&bytes).unwrap_err();
    assert_eq!(
        error.message(),
        "CFrame file size mismatch: expected 73786976260478468108 bytes, got 8"
    );
}

#[test]
fn a_grid_without_cells_is_a_container() {
    let frame = decode_cframe(&header(0, 3)).unwrap();
    assert_eq!((frame.width, frame.height), (0, 3));
    assert!(frame.chars.is_empty() && frame.rgb.is_empty());
    assert_eq!(decode_cframe_text(&header(0, 3)).unwrap(), "\n\n\n");
    assert_eq!(frame.to_text(), "\n\n\n");
    assert_eq!(decode_cframe_text(&header(3, 0)).unwrap(), "");
    assert_eq!(decode_colors(&header(0, 0)).unwrap().rgb, Vec::<u8>::new());
}

#[test]
fn the_header_is_read_low_byte_first() {
    let mut bytes = vec![0x01, 0x02, 0, 0, 0x03, 0, 0, 0];
    bytes.extend_from_slice(&vec![0u8; 0x201 * 3 * 4]);
    let header = read_header(Container::CFrame, &bytes).unwrap();
    assert_eq!(header.width, 0x201);
    assert_eq!(header.height, 3);
    assert_eq!(header.cells, 0x201 * 3);
    let bytes = [0, 0, 0, 1, 1, 0, 0, 0];
    assert_eq!(
        read_header(Container::Colors, &bytes).unwrap_err(),
        FormatError::SizeMismatch {
            kind: Container::Colors,
            expected: 8 + 3 * (1u128 << 24),
            actual: 8
        }
    );
}

#[test]
fn decoding_agrees_with_the_viewer_core() {
    let mut bytes = header(4, 3);
    for i in 0..12u8 {
        bytes.extend_from_slice(&[b' ' + i * 7, i * 20, 255 - i, i]);
    }
    let ours = decode_cframe(&bytes).unwrap();
    let theirs = cascii_core_view::parse_cframe(&bytes).unwrap();
    assert_eq!((ours.width, ours.height), (theirs.width, theirs.height));
    assert_eq!(ours.chars, theirs.chars);
    assert_eq!(ours.rgb, theirs.rgb);
    assert_eq!(
        decode_cframe_text(&bytes).unwrap(),
        cascii_core_view::parse_cframe_text(&bytes).unwrap()
    );
    assert_eq!(ours.to_text(), theirs.to_text());
}

#[test]
fn well_formedness_is_tested() {
    let good = CFrameData { width: 2, height: 1, chars: vec![1, 2], rgb: vec![0; 6] };
    assert!(good.is_well_formed());
    let short = CFrameData { width: 2, height: 1, chars: vec![1], rgb: vec![0; 6] };
    assert!(!short.is_well_formed());
    let long = CFrameData { width: 2, height: 1, chars: vec![1, 2], rgb: vec![0; 7] };
    assert!(!long.is_well_formed());
    let huge = CFrameData { width: u32::MAX, height: u32::MAX, chars: vec![], rgb: vec![] };
    assert!(!huge.is_well_formed());
    let colors = ColorData { width: 1, height: 1, rgb: vec![1, 2, 3] };
    assert_eq!(colors.rgb.len(), 3);
}
