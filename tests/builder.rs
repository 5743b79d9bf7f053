use boot_logger::builder::{AtlasBuilder, BuildError, RasterGlyph};
use boot_logger::glyph::{render_glyph, GlyphAtlas, ABSENT};

fn glyph(min_x: i32, min_y: i32, width: usize, height: usize, coverage: Vec<u8>) -> RasterGlyph {
    RasterGlyph { min_x, min_y, width, height, coverage }
}

#[test]
fn builder_places_glyphs_at_the_pen_and_pads_rows() {
    let mut b = AtlasBuilder::new(2, 1);
    assert_eq!(b.add_glyph(&glyph(0, -1, 2, 2, vec![1, 2, 3, 4]), 3), Ok(()));
    assert_eq!(b.add_missing(), Ok(()));
    assert_eq!(b.add_glyph(&glyph(1, 0, 1, 1, vec![9]), 2), Ok(()));
    let (data, offsets) = b.finish();
    assert_eq!(data, vec![1, 2, 0, 0, 0, 3, 4, 0, 0, 9]);
    assert_eq!(offsets, vec![0, ABSENT, 3]);
}

#[test]
fn builder_drops_rows_outside_the_strip() {
    let mut b = AtlasBuilder::new(2, 0);
    assert_eq!(b.add_glyph(&glyph(0, -1, 1, 3, vec![5, 6, 7]), 1), Ok(()));
    let (data, _) = b.finish();
    assert_eq!(data, vec![6, 7]);
}

#[test]
fn builder_output_makes_an_atlas() {
    let mut b = AtlasBuilder::new(2, 1);
    for c in 0..256 {
        if c == 0x41 {
            assert_eq!(b.add_glyph(&glyph(0, -1, 2, 2, vec![1, 2, 3, 4]), 2), Ok(()));
        } else if c == 0x3F {
            assert_eq!(b.add_glyph(&glyph(0, -1, 1, 2, vec![7, 8]), 1), Ok(()));
        } else {
            assert_eq!(b.add_missing(), Ok(()));
        }
    }
    assert_eq!(b.add_missing(), Err(BuildError::TableFull));
    let (data, offsets) = b.finish();
    let atlas = GlyphAtlas::new(data, 2, offsets).expect("valid atlas");
    let mut it = render_glyph(&atlas, 'A').unwrap();
    assert_eq!(it.width(), 2);
    let mut px = Vec::new();
    while let Some(p) = it.next() {
        px.push(p);
    }
    assert_eq!(px, vec![(0, 0, 1), (1, 0, 2), (0, 1, 3), (1, 1, 4)]);
    assert_eq!(render_glyph(&atlas, '?').unwrap().width(), 1);
}

#[test]
fn builder_errors() {
    let mut b = AtlasBuilder::new(2, 0);
    assert_eq!(b.add_glyph(&glyph(0, 0, 2, 2, vec![1, 2, 3]), 2), Err(BuildError::CoverageSize));
    assert_eq!(b.add_glyph(&glyph(0, 0, 1, 0x8000_0000, vec![]), 2), Err(BuildError::CoverageSize));
    assert_eq!(b.add_glyph(&glyph(0, 0, 1, 1, vec![1]), usize::MAX), Ok(()));
    assert_eq!(b.add_glyph(&glyph(0, 0, 1, 1, vec![1]), 1), Err(BuildError::TooWide));
    let (_, offsets) = b.finish();
    assert_eq!(offsets, vec![0]);
}
