use base64::Engine;
use herdr_hop::model::{CellSize, PaneId, Rect, Target, LABELS};
use herdr_hop::render::{
    draw_label, encode_png, glyph_for, has_glyph, overlay_for, plan_placement, png_from_idat, Rgba, GLYPHS,
    LABEL_Z_INDEX,
};
use std::io::Read;

fn target(label: char, w: u16, h: u16) -> Target {
    Target {
        label,
        pane_id: PaneId::new("w:p1".to_string()),
        rect: Rect {
            x: 0,
            y: 0,
            width: w,
            height: h,
        },
        focused: false,
    }
}

#[test]
fn placement_centers_the_label_block_in_the_pane() {
    let plan = plan_placement(
        Rect {
            x: 0,
            y: 0,
            width: 80,
            height: 24,
        },
        CellSize {
            width_px: 17,
            height_px: 40,
        },
    );
    // symmetric margins on each axis
    assert_eq!(
        plan.placement.viewport_col as u32 * 2 + plan.placement.grid_cols,
        80 - (80 - plan.placement.grid_cols) % 2
    );
    assert_eq!(plan.image_width, plan.placement.grid_cols * 17);
    assert_eq!(plan.image_height, plan.placement.grid_rows * 40);
}

#[test]
fn placement_never_exceeds_a_small_pane() {
    let plan = plan_placement(
        Rect {
            x: 0,
            y: 0,
            width: 6,
            height: 5,
        },
        CellSize {
            width_px: 10,
            height_px: 20,
        },
    );
    assert!(plan.placement.grid_cols <= 6);
    assert!(plan.placement.grid_rows <= 5);
    assert!(plan.placement.viewport_col >= 0 && plan.placement.viewport_row >= 0);
}

#[test]
fn placement_exact_values() {
    // 24 rows: 24 * 68 / 100 = 16 rows; 16 * 72 / 100 = 11 columns.
    let plan = plan_placement(
        Rect { x: 3, y: 4, width: 80, height: 24 },
        CellSize { width_px: 17, height_px: 40 },
    );
    assert_eq!(plan.placement.grid_rows, 16);
    assert_eq!(plan.placement.grid_cols, 11);
    assert_eq!(plan.placement.viewport_col, 34);
    assert_eq!(plan.placement.viewport_row, 4);
    assert_eq!(plan.image_width, 187);
    assert_eq!(plan.image_height, 640);
    // A huge pane is clamped to 20 rows and 16 columns; a zero-sized one counts as 1x1.
    let big = plan_placement(
        Rect { x: 0, y: 0, width: 500, height: 200 },
        CellSize { width_px: 1, height_px: 1 },
    );
    assert_eq!((big.placement.grid_cols, big.placement.grid_rows), (14, 20));
    let empty = plan_placement(
        Rect { x: 0, y: 0, width: 0, height: 0 },
        CellSize { width_px: 1, height_px: 1 },
    );
    assert_eq!((empty.placement.grid_cols, empty.placement.grid_rows), (1, 1));
}

#[test]
fn overlay_png_is_valid_and_within_the_size_budget() {
    let overlay = overlay_for(
        &target('1', 200, 60),
        CellSize {
            width_px: 17,
            height_px: 40,
        },
        0,
    )
    .unwrap();
    let png = base64::engine::general_purpose::STANDARD
        .decode(&overlay.data_base64)
        .unwrap();
    assert_eq!(&png[..8], &[0x89, 0x50, 0x4e, 0x47, 0x0d, 0x0a, 0x1a, 0x0a]);
    assert!(png.len() < 512 * 1024, "PNG must fit Herdr's set limit");
    assert_eq!(overlay.format, "png");
    assert_eq!(overlay.z_index, LABEL_Z_INDEX);
}

#[test]
fn every_label_has_a_glyph() {
    for &label in LABELS.iter() {
        assert!(
            GLYPHS.iter().any(|(c, _)| *c == label),
            "missing glyph for label {label}"
        );
        assert!(has_glyph(label));
    }
}

#[test]
fn drawn_glyph_actually_marks_pixels() {
    let image = draw_label('8', 100, 140, [255, 0, 0, 255]);
    assert!(
        image.data.chunks(4).any(|p| p == [255, 0, 0, 255]),
        "a drawn glyph must set at least one colored pixel"
    );
}

#[test]
fn unknown_labels_fall_back_to_the_first_glyph() {
    assert!(!has_glyph('z'));
    assert_eq!(glyph_for('z'), GLYPHS[0].1);
    assert_eq!(glyph_for('g'), GLYPHS[15].1);
}

#[test]
fn glyph_is_scaled_and_centered() {
    // 12x14: scale = min(12/5, 14/7) = 2, glyph 10x14, origin (1, 0).
    let image = draw_label('1', 12, 14, [1, 2, 3, 4]);
    let px = |row: usize, col: usize| &image.data[(row * 12 + col) * 4..(row * 12 + col) * 4 + 4];
    // '1' row 0 is 00100: glyph column 2 covers image columns 5 and 6 of rows 0 and 1.
    assert_eq!(px(0, 5), &[1, 2, 3, 4]);
    assert_eq!(px(1, 6), &[1, 2, 3, 4]);
    assert_eq!(px(0, 4), &[0, 0, 0, 0]);
    assert_eq!(px(0, 7), &[0, 0, 0, 0]);
    // bottom row 01110 covers columns 3..9 of rows 12 and 13.
    assert_eq!(px(13, 3), &[1, 2, 3, 4]);
    assert_eq!(px(13, 8), &[1, 2, 3, 4]);
    assert_eq!(px(13, 9), &[0, 0, 0, 0]);
    // the margin column 0 stays transparent
    assert!((0..14).all(|r| px(r, 0) == [0, 0, 0, 0]));
}

#[test]
fn fill_rect_clips_to_the_image() {
    let mut image = Rgba::new(3, 2);
    image.fill_rect(2, 1, 5, 5, [9, 9, 9, 9]);
    let colored: Vec<usize> = image
        .data
        .chunks(4)
        .enumerate()
        .filter(|(_, p)| *p == [9, 9, 9, 9])
        .map(|(i, _)| i)
        .collect();
    assert_eq!(colored, vec![5]);
}

#[test]
fn png_round_trips_through_zlib() {
    let mut image = Rgba::new(2, 1);
    image.fill_rect(1, 0, 1, 1, [10, 20, 30, 40]);
    let png = encode_png(&image).unwrap();
    // signature, IHDR chunk header and data
    assert_eq!(&png[8..16], &[0, 0, 0, 13, b'I', b'H', b'D', b'R']);
    assert_eq!(&png[16..29], &[0, 0, 0, 2, 0, 0, 0, 1, 8, 6, 0, 0, 0]);
    // IEND closes the file with its well-known CRC
    assert_eq!(&png[png.len() - 12..], &[0, 0, 0, 0, b'I', b'E', b'N', b'D', 0xae, 0x42, 0x60, 0x82]);
    // IDAT holds the zlib-compressed scanline: filter byte, then the two pixels
    let idat_len = u32::from_be_bytes([png[33], png[34], png[35], png[36]]) as usize;
    assert_eq!(&png[37..41], b"IDAT");
    let idat = &png[41..41 + idat_len];
    let mut raw = Vec::new();
    flate2::read::ZlibDecoder::new(idat).read_to_end(&mut raw).unwrap();
    assert_eq!(raw, vec![0, 0, 0, 0, 0, 10, 20, 30, 40]);
    // IHDR's CRC, as flate2 and any PNG reader compute it
    let mut crc = flate2::Crc::new();
    crc.update(&png[12..29]);
    assert_eq!(&png[29..33], &crc.sum().to_be_bytes());
}

#[test]
fn overlay_fields_follow_the_plan() {
    let t = target('a', 80, 24);
    let cell = CellSize { width_px: 17, height_px: 40 };
    let plan = plan_placement(t.rect, cell);
    let overlay = overlay_for(&t, cell, 7).unwrap();
    assert_eq!(overlay.pane_id, "w:p1");
    assert_eq!(overlay.image_width, plan.image_width);
    assert_eq!(overlay.image_height, plan.image_height);
    assert_eq!(overlay.placement, plan.placement);
    let png = base64::engine::general_purpose::STANDARD
        .decode(&overlay.data_base64)
        .unwrap();
    let image = draw_label('a', plan.image_width, plan.image_height, [64, 156, 255, 245]);
    assert_eq!(png, encode_png(&image).unwrap());
}

#[test]
fn png_is_assembled_around_its_idat() {
    let png = png_from_idat(3, 2, &[1, 2, 3]);
    assert_eq!(&png[..8], &[0x89, 0x50, 0x4e, 0x47, 0x0d, 0x0a, 0x1a, 0x0a]);
    assert_eq!(&png[8..29], &[0, 0, 0, 13, b'I', b'H', b'D', b'R', 0, 0, 0, 3, 0, 0, 0, 2, 8, 6, 0, 0, 0]);
    assert_eq!(&png[33..44], &[0, 0, 0, 3, b'I', b'D', b'A', b'T', 1, 2, 3]);
    let mut crc = flate2::Crc::new();
    crc.update(b"IDAT");
    crc.update(&[1, 2, 3]);
    assert_eq!(&png[44..48], &crc.sum().to_be_bytes());
    assert_eq!(&png[48..], &[0, 0, 0, 0, b'I', b'E', b'N', b'D', 0xae, 0x42, 0x60, 0x82]);
    assert_eq!(png.len(), 60);
}
