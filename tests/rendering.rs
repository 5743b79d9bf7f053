use boot_logger::console::{unit_bytes, TextConsole};
use boot_logger::fade::{faded_grey, grey_of, FadeCompositor};
use boot_logger::glyph::{render_glyph, GlyphAtlas, ABSENT};
use boot_logger::rle::{decode_frame, Command, DecodeError};
use boot_logger::surface::{Geometry, GeometryError, Vbuf};

/// A two-pixel-high atlas with `?` at column 0, `A` at 2 and `B` at 4.
fn small_atlas() -> GlyphAtlas {
    let data = vec![10, 11, 20, 21, 30, 31, 12, 13, 22, 23, 32, 33];
    let mut offsets = vec![ABSENT; 256];
    offsets[0x3F] = 0;
    offsets[0x41] = 2;
    offsets[0x42] = 4;
    GlyphAtlas::new(data, 2, offsets).expect("valid atlas")
}

fn rgbx(width: usize, height: usize) -> Geometry {
    Geometry {
        width,
        height,
        stride: width * 4,
        bits_per_pixel: 32,
        red_bits: 8,
        green_bits: 8,
        blue_bits: 8,
    }
}

fn surface(width: usize, height: usize) -> Vbuf {
    Vbuf::new(rgbx(width, height), vec![0; width * 4 * height]).expect("valid surface")
}

fn grey_at(vb: &Vbuf, x: usize, y: usize) -> u8 {
    let g = vb.geometry_of();
    let base = y * g.stride + x * (g.bits_per_pixel / 8);
    let b = vb.bytes();
    assert_eq!(b[base], b[base + 1]);
    assert_eq!(b[base], b[base + 2]);
    b[base]
}

#[test]
fn glyph_pixels_in_row_major_order() {
    let atlas = small_atlas();
    let mut it = render_glyph(&atlas, 'A').expect("A is present");
    assert_eq!(it.width(), 2);
    let mut seen = Vec::new();
    while let Some(p) = it.next() {
        seen.push(p);
    }
    assert_eq!(seen, vec![(0, 0, 20), (1, 0, 21), (0, 1, 22), (1, 1, 23)]);
}

#[test]
fn absent_glyph_is_none() {
    let atlas = small_atlas();
    assert!(render_glyph(&atlas, 'C').is_none());
    assert!(render_glyph(&atlas, '\u{0}').is_none());
}

#[test]
fn last_glyph_ends_at_row_width() {
    let atlas = small_atlas();
    let mut it = render_glyph(&atlas, 'B').expect("B is present");
    assert_eq!(it.width(), 2);
    let mut n = 0;
    while let Some((x, y, v)) = it.next() {
        assert!(x < 2 && y < 2);
        assert_eq!(v, [30, 31, 32, 33][y * 2 + x]);
        n += 1;
    }
    assert_eq!(n, 4);
}

#[test]
fn glyph_width_skips_absent_neighbours() {
    let atlas = small_atlas();
    // '?' is followed by absent code points up to 'A'.
    let it = render_glyph(&atlas, '?').expect("? is present");
    assert_eq!(it.width(), 2);
}

#[test]
fn atlas_rejects_bad_parts() {
    let offsets = vec![ABSENT; 256];
    assert!(GlyphAtlas::new(vec![0; 5], 2, offsets.clone()).is_none());
    assert!(GlyphAtlas::new(vec![0; 4], 0, offsets.clone()).is_none());
    assert!(GlyphAtlas::new(vec![0; 4], 2, vec![ABSENT; 255]).is_none());
    let mut unordered = offsets.clone();
    unordered[1] = 1;
    unordered[2] = 0;
    assert!(GlyphAtlas::new(vec![0; 4], 2, unordered).is_none());
    let mut too_far = offsets.clone();
    too_far[7] = 3;
    assert!(GlyphAtlas::new(vec![0; 4], 2, too_far).is_none());
    assert!(GlyphAtlas::new(vec![0; 4], 2, offsets).is_some());
}

#[test]
fn geometry_errors() {
    let good = rgbx(4, 4);
    let mut g = good;
    g.bits_per_pixel = 30;
    assert_eq!(Vbuf::new(g, vec![0; 64]).err(), Some(GeometryError::NotByteAligned));
    let mut g = good;
    g.red_bits = 5;
    assert_eq!(Vbuf::new(g, vec![0; 64]).err(), Some(GeometryError::RedChannel));
    let mut g = good;
    g.green_bits = 6;
    assert_eq!(Vbuf::new(g, vec![0; 64]).err(), Some(GeometryError::GreenChannel));
    let mut g = good;
    g.blue_bits = 4;
    assert_eq!(Vbuf::new(g, vec![0; 64]).err(), Some(GeometryError::BlueChannel));
    assert_eq!(Vbuf::new(good, vec![0; 62]).err(), Some(GeometryError::BufferTooSmall));
    // The last pixel only needs its three colour bytes.
    assert!(Vbuf::new(good, vec![0; 63]).is_ok());
}

#[test]
fn pixel_writes_use_stride_and_skip_the_fourth_byte() {
    let g = Geometry { width: 3, height: 2, stride: 16, bits_per_pixel: 32, red_bits: 8, green_bits: 8, blue_bits: 8 };
    let mut vb = Vbuf::new(g, vec![1; 32]).unwrap();
    vb.set_grey_pixel(2, 1, 0x40);
    let b = vb.bytes();
    assert_eq!(&b[24..28], &[0x40, 0x40, 0x40, 1]);
    vb.set_grey_pixel(3, 1, 0x50);
    vb.set_grey_pixel(0, 2, 0x50);
    assert!(vb.bytes().iter().all(|&v| v == 1 || v == 0x40));
}

#[test]
fn fill_box_with_origin_off_surface_is_noop() {
    let mut vb = surface(10, 10);
    vb.fill_box(12, 0, 20, 20, 7);
    vb.fill_box(0, 10, 20, 20, 7);
    assert!(vb.bytes().iter().all(|&v| v == 0));
}

#[test]
fn fill_box_clamps_far_corner() {
    let g = Geometry { width: 10, height: 10, stride: 32, bits_per_pixel: 24, red_bits: 8, green_bits: 8, blue_bits: 8 };
    let mut vb = Vbuf::new(g, vec![0; 320]).unwrap();
    vb.fill_box(8, 8, 100, 100, 7);
    for y in 0..10 {
        for x in 0..10 {
            let want = if x >= 8 && y >= 8 { 7 } else { 0 };
            assert_eq!(grey_at(&vb, x, y), want);
        }
        // Row padding is never written.
        assert_eq!(vb.bytes()[y * 32 + 30], 0);
        assert_eq!(vb.bytes()[y * 32 + 31], 0);
    }
}

#[test]
fn draw_box_outlines() {
    let mut vb = surface(8, 8);
    vb.draw_box(1, 1, 4, 4, 9);
    for y in 0..8 {
        for x in 0..8 {
            let on_edge = (x == 1 || x == 4) && (1..=4).contains(&y) || (y == 1 || y == 4) && (1..=4).contains(&x);
            assert_eq!(grey_at(&vb, x, y), if on_edge { 9 } else { 0 }, "({x}, {y})");
        }
    }
}

#[test]
fn draw_box_far_corner_off_surface() {
    let mut vb = surface(6, 6);
    vb.draw_box(2, 2, 50, 50, 5);
    for y in 0..6 {
        for x in 0..6 {
            let on_edge = (x == 2 && y >= 2) || (y == 2 && x >= 2);
            assert_eq!(grey_at(&vb, x, y), if on_edge { 5 } else { 0 }, "({x}, {y})");
        }
    }
}

#[test]
fn draw_box_with_origin_off_surface_is_noop() {
    let mut vb = surface(4, 4);
    vb.draw_box(10, 0, 1, 1, 7);
    vb.draw_box(0, 10, 1, 1, 7);
    vb.draw_box(10, 10, 20, 20, 7);
    assert!(vb.bytes().iter().all(|&v| v == 0));
}

#[test]
fn decode_frame_with_skip() {
    let cmds = vec![Command::Draw(3, 1), Command::Skip(1), Command::End];
    let f = decode_frame(&cmds, 0, 2, 2).unwrap();
    assert_eq!(f.pixels, vec![Some(1), Some(1), Some(1), None]);
    assert_eq!(f.next, 3);
}

#[test]
fn decode_frame_masks_lightness_and_restarts() {
    let cmds = vec![Command::Draw(2, 7), Command::End, Command::Skip(1), Command::Draw(1, 2), Command::End];
    let f = decode_frame(&cmds, 0, 2, 1).unwrap();
    assert_eq!(f.pixels, vec![Some(3), Some(3)]);
    let f = decode_frame(&cmds, f.next, 2, 1).unwrap();
    assert_eq!(f.pixels, vec![None, Some(2)]);
    assert_eq!(f.next, 5);
}

#[test]
fn decode_frame_errors() {
    assert_eq!(decode_frame(&vec![Command::Draw(3, 1)], 0, 2, 2).err(), Some(DecodeError::Exhausted));
    assert_eq!(decode_frame(&vec![], 0, 2, 2).err(), Some(DecodeError::Exhausted));
    assert_eq!(
        decode_frame(&vec![Command::Draw(5, 1), Command::End], 0, 2, 2).err(),
        Some(DecodeError::Overrun)
    );
    assert_eq!(
        decode_frame(&vec![Command::Skip(3), Command::Skip(2), Command::End], 0, 2, 2).err(),
        Some(DecodeError::Overrun)
    );
    assert_eq!(
        decode_frame(&vec![Command::Draw(3, 1), Command::End], 0, 2, 2).err(),
        Some(DecodeError::ShortFrame)
    );
}

#[test]
fn grey_levels() {
    assert_eq!(grey_of(0), 0);
    assert_eq!(grey_of(1), 0x55);
    assert_eq!(grey_of(2), 0xAA);
    assert_eq!(grey_of(3), 0xFF);
    assert_eq!(faded_grey(2, 0x30), 0x7A);
    assert_eq!(faded_grey(1, 0x60), 0);
}

#[test]
fn fade_is_monotonic_in_counter() {
    for code in 0..4u8 {
        let mut prev = faded_grey(code, 255);
        for fade in (0..255u8).rev() {
            let now = faded_grey(code, fade);
            assert!(now >= prev);
            prev = now;
        }
        assert_eq!(faded_grey(code, 0), grey_of(code));
    }
}

#[test]
fn full_draw_frame_ends_white() {
    let mut vb = surface(4, 4);
    let mut comp = FadeCompositor::new(4, 4, 0, 0);
    let cmds = vec![Command::Draw(16, 3), Command::End];
    assert_eq!(comp.run_frame(&cmds, 0, &mut vb), Ok(0));
    assert_eq!(comp.fade(), 253);
    assert_eq!(grey_at(&vb, 3, 3), 2);
    let mut frames = 1;
    while comp.fade() > 0 {
        assert_eq!(comp.run_frame(&cmds, 0, &mut vb), Ok(0));
        frames += 1;
    }
    assert_eq!(frames, 128);
    for y in 0..4 {
        for x in 0..4 {
            assert_eq!(grey_at(&vb, x, y), 0xFF);
        }
    }
}

#[test]
fn fade_blit_keeps_skipped_pixels_of_the_plane() {
    let mut vb = surface(6, 6);
    let mut comp = FadeCompositor::new(2, 1, 3, 4);
    let first = vec![Command::Draw(2, 3), Command::End];
    assert_eq!(comp.run_frame(&first, 0, &mut vb), Ok(0));
    let second = vec![Command::Skip(1), Command::Draw(1, 1), Command::End];
    assert_eq!(comp.run_frame(&second, 0, &mut vb), Ok(0));
    assert_eq!(comp.fade(), 251);
    assert_eq!(grey_at(&vb, 3, 4), 4);
    assert_eq!(grey_at(&vb, 4, 4), 0);
}

#[test]
fn run_frame_refuses_corrupt_stream() {
    let mut vb = surface(4, 4);
    let mut comp = FadeCompositor::new(4, 4, 0, 0);
    let cmds = vec![Command::Draw(15, 3), Command::End];
    assert_eq!(comp.run_frame(&cmds, 0, &mut vb), Err(DecodeError::ShortFrame));
    assert!(vb.bytes().iter().all(|&v| v == 0));
}

#[test]
fn unit_bytes_stop_at_zero() {
    assert_eq!(unit_bytes(0x4142_0A3F_0000_0000), vec![0x41, 0x42, 0x0A, 0x3F]);
    assert_eq!(unit_bytes(0x4100_4200_0000_0000), vec![0x41]);
    assert_eq!(unit_bytes(0x0102_0304_0506_0708), vec![1, 2, 3, 4, 5, 6, 7, 8]);
    assert!(unit_bytes(0).is_empty());
}

#[test]
fn console_writes_two_lines() {
    let atlas = small_atlas();
    let mut vb = surface(40, 30);
    let mut con = TextConsole::new(40, 30, 4, 4).expect("room for a line");
    con.draw_cursor(&mut vb);
    assert_eq!(grey_at(&vb, 5, 5), 101);
    // Stale content on the second line.
    vb.fill_box(15, 9, 25, 13, 0x99);
    // The unit ends in zero bytes: its text is taken, and nothing more is ready.
    assert!(!con.feed_unit(0x4142_0A3F_0000_0000, &atlas, &mut vb));
    // 'A' then 'B' on the first line.
    assert_eq!(grey_at(&vb, 15, 5), 20);
    assert_eq!(grey_at(&vb, 16, 6), 23);
    assert_eq!(grey_at(&vb, 17, 5), 30);
    assert_eq!(grey_at(&vb, 18, 6), 33);
    // The second line was wiped across the region before '?' was drawn.
    assert_eq!(grey_at(&vb, 15, 9), 10);
    assert_eq!(grey_at(&vb, 16, 10), 13);
    assert_eq!(grey_at(&vb, 20, 11), 0);
    assert_eq!(grey_at(&vb, 21, 13), 0);
    assert_eq!(grey_at(&vb, 22, 11), 0x99);
    let s = con.snapshot();
    assert_eq!((s.column, s.row, s.cursor_row, s.last_cursor_row), (2, 1, 1, 0));
    con.draw_cursor(&mut vb);
    assert_eq!(grey_at(&vb, 5, 5), 0);
    assert_eq!(grey_at(&vb, 10, 8), 0);
    assert_eq!(grey_at(&vb, 5, 9), 108);
    assert_eq!(grey_at(&vb, 10, 13), 108);
    assert_eq!(con.snapshot().last_cursor_row, 1);
}

#[test]
fn console_falls_back_to_question_mark() {
    let atlas = small_atlas();
    let mut vb = surface(40, 30);
    let mut con = TextConsole::new(40, 30, 4, 4).unwrap();
    con.put_byte(b'Z', &atlas, &mut vb);
    assert_eq!(grey_at(&vb, 15, 5), 10);
    assert_eq!(con.snapshot().column, 2);
}

#[test]
fn console_clips_glyphs_at_the_right_of_the_region() {
    let atlas = small_atlas();
    let mut vb = surface(40, 30);
    // The region spans surface columns 15 to 20.
    let mut con = TextConsole::new(40, 30, 4, 4).unwrap();
    con.put_bytes(&b"AAAA".to_vec(), &atlas, &mut vb);
    assert_eq!(con.snapshot().column, 8);
    assert_eq!(grey_at(&vb, 20, 5), 21);
    assert_eq!(grey_at(&vb, 21, 5), 0);
    assert_eq!(grey_at(&vb, 22, 5), 0);
}

#[test]
fn console_drops_bytes_once_column_reaches_right() {
    let atlas = small_atlas();
    let mut vb = surface(30, 30);
    let mut con = TextConsole::new(30, 30, 4, 4).unwrap();
    assert_eq!(con.snapshot().right, 11);
    con.put_bytes(&b"AAAAAAAA".to_vec(), &atlas, &mut vb);
    assert_eq!(con.snapshot().column, 12);
    con.put_byte(b'\n', &atlas, &mut vb);
    assert_eq!(con.snapshot().column, 0);
}

#[test]
fn console_wraps_rows_inside_region() {
    let atlas = small_atlas();
    let mut vb = surface(40, 14);
    let mut con = TextConsole::new(40, 14, 4, 4).unwrap();
    let mut rows = Vec::new();
    for _ in 0..5 {
        con.put_byte(b'\n', &atlas, &mut vb);
        let s = con.snapshot();
        assert!(s.row * s.line_height + s.line_height <= s.bottom);
        rows.push(s.row);
    }
    assert_eq!(rows, vec![1, 0, 1, 0, 1]);
}

#[test]
fn console_needs_room_for_a_line() {
    assert!(TextConsole::new(40, 8, 4, 4).is_none());
    assert!(TextConsole::new(10, 30, 4, 4).is_none());
    assert!(TextConsole::new(40, 30, 4, 0).is_none());
    assert!(TextConsole::new(40, 9, 4, 4).is_some());
}

#[test]
fn full_unit_means_more_text_may_follow() {
    let atlas = small_atlas();
    let mut vb = surface(40, 30);
    let mut con = TextConsole::new(40, 30, 4, 4).unwrap();
    assert!(con.feed_unit(0x4141_4141_4141_4141, &atlas, &mut vb));
    assert_eq!(con.snapshot().column, 16);
}

#[test]
fn empty_unit_means_no_more_text() {
    let atlas = small_atlas();
    let mut vb = surface(40, 30);
    let mut con = TextConsole::new(40, 30, 4, 4).unwrap();
    assert!(!con.feed_unit(0, &atlas, &mut vb));
    assert_eq!(con.snapshot().column, 0);
}
