//! A text console over the surface: it writes incoming bytes as glyphs line
//! by line, wraps back to the first line at the bottom of its region, and
//! keeps a blinking cursor cell beside the current line.

use vstd::prelude::*;
use crate::glyph::{render_glyph, GlyphAtlas};
use crate::surface::{apply_writes, fill_result, lemma_apply_writes_step, Geometry, PixelWrite, Vbuf};

verus! {

/// Left edge of the text region.
pub const TEXT_LEFT: usize = 15;
/// Top edge of the text region.
pub const TEXT_TOP: usize = 5;
/// Space kept below the text region.
pub const TEXT_BOTTOM_MARGIN: usize = 5;
/// Space kept between the text region and the logo on its right.
pub const LOGO_MARGIN: usize = 15;
/// Left edge of the cursor cell.
pub const CURSOR_LEFT: usize = 5;
/// Right edge of the cursor cell.
pub const CURSOR_RIGHT: usize = 10;
/// The glyph drawn for a byte that the atlas has no glyph for: `'?'`.
pub const FALLBACK: u8 = 0x3F;
/// The newline byte.
pub const NEWLINE: u8 = 0x0A;
/// Length of one period of the cursor's brightness wave.
pub const WAVE_PERIOD: usize = 310;
/// How far the cursor's brightness wave moves each frame.
pub const WAVE_STEP: usize = 7;

/// Where the console writes and what it has written so far.
#[derive(Clone, Copy, Debug, PartialEq, Eq)]
pub struct ConsoleState {
    /// Column of the next glyph, in pixels from the left of the region.
    pub column: usize,
    /// Line of the next glyph.
    pub row: usize,
    /// Line that the cursor cell stands beside.
    pub cursor_row: usize,
    /// Line where the cursor cell was drawn last.
    pub last_cursor_row: usize,
    /// The text region, in surface pixels: columns `[left, right)` and rows
    /// `[top, bottom)`.
    pub left: usize,
    pub right: usize,
    pub top: usize,
    pub bottom: usize,
    /// Height of a line: glyph height and leading.
    pub line_height: usize,
    /// Position in the cursor's brightness wave.
    pub phase: usize,
}

/// The console's invariant: every line that it can stand on lies within the
/// region.
pub open spec fn state_wf(s: ConsoleState) -> bool {
    &&& s.line_height > 0
    &&& s.row * s.line_height + s.line_height <= s.bottom
    &&& s.cursor_row * s.line_height + s.line_height <= s.bottom
    &&& s.last_cursor_row * s.line_height + s.line_height <= s.bottom
    &&& s.top + s.bottom <= usize::MAX
    &&& s.phase < WAVE_PERIOD
}

/// Brightness of the cursor at a position of its wave: up from 101 to 255,
/// then down from 254 to 100.
pub open spec fn wave_level(phase: int) -> int {
    if phase < 155 {
        101 + phase
    } else {
        409 - phase
    }
}

/// The line after `row`, back at the first when it would not fit above the
/// bottom of the region.
pub open spec fn next_row(s: ConsoleState) -> int {
    if (s.row + 2) * s.line_height >= s.bottom {
        0
    } else {
        s.row + 1
    }
}

/// Top of line `row`, in surface pixels.
pub open spec fn line_top(s: ConsoleState, row: int) -> int {
    s.top + row * s.line_height
}

/// The glyph drawn for byte `b`: its own, or the fallback.
pub open spec fn glyph_for(atlas: GlyphAtlas, b: u8) -> int {
    if atlas.present(b as int) {
        b as int
    } else {
        FALLBACK as int
    }
}

/// The writes that draw glyph `c` at column `column` of the current line:
/// its pixels, less those that fall outside the region.
pub open spec fn glyph_writes(s: ConsoleState, atlas: GlyphAtlas, c: int, column: int) -> Seq<PixelWrite> {
    Seq::new(
        atlas.glyph_pixels(c).len(),
        |k: int|
            {
                let p = atlas.glyph_pixels(c)[k];
                let x = s.left + p.0 + column;
                let y = line_top(s, s.row as int) + p.1;
                if x < s.right && y < s.bottom {
                    Some((x, y, p.2))
                } else {
                    None
                }
            },
    )
}

pub open spec fn saturating_add(a: int, b: int) -> int {
    if a + b > usize::MAX {
        usize::MAX as int
    } else {
        a + b
    }
}

/// The console's position after byte `b`.
pub open spec fn step_state(atlas: GlyphAtlas, s: ConsoleState, b: u8) -> ConsoleState {
    if b == NEWLINE {
        ConsoleState { column: 0, row: next_row(s) as usize, ..s }
    } else if s.column >= s.right {
        s
    } else {
        ConsoleState {
            column: saturating_add(s.column as int, atlas.glyph_width(glyph_for(atlas, b))) as usize,
            cursor_row: if s.column == 0 {
                s.row
            } else {
                s.cursor_row
            },
            ..s
        }
    }
}

/// The framebuffer `d` after the console, standing at `s`, takes byte `b`:
/// untouched by a newline or a dropped byte; else the glyph's writes, after
/// the line is cleared when the glyph is its first.
pub open spec fn byte_frame(g: Geometry, atlas: GlyphAtlas, s: ConsoleState, d: Seq<u8>, b: u8) -> Seq<u8> {
    if b == NEWLINE || s.column >= s.right {
        d
    } else {
        let top = line_top(s, s.row as int);
        let cleared = if s.column == 0 {
            fill_result(g, d, s.left as int, top, s.right as int, top + s.line_height, 0)
        } else {
            d
        };
        apply_writes(g, cleared, glyph_writes(s, atlas, glyph_for(atlas, b), s.column as int))
    }
}

/// The framebuffer `d` after the console, standing at `s`, takes the bytes
/// of `bytes`, in order.
pub open spec fn bytes_frame(g: Geometry, atlas: GlyphAtlas, s: ConsoleState, d: Seq<u8>, bytes: Seq<u8>) -> Seq<
    u8,
>
    decreases bytes.len(),
{
    if bytes.len() == 0 {
        d
    } else {
        byte_frame(
            g,
            atlas,
            run_bytes(atlas, s, bytes.drop_last()),
            bytes_frame(g, atlas, s, d, bytes.drop_last()),
            bytes.last(),
        )
    }
}

/// The console's position after the bytes of `bytes`, in order.
pub open spec fn run_bytes(atlas: GlyphAtlas, s: ConsoleState, bytes: Seq<u8>) -> ConsoleState
    decreases bytes.len(),
{
    if bytes.len() == 0 {
        s
    } else {
        step_state(atlas, run_bytes(atlas, s, bytes.drop_last()), bytes.last())
    }
}

/// Byte `i` (0 to 7) of a transport unit, most significant first.
pub open spec fn unit_byte(unit: u64, i: int) -> u8 {
    ((unit >> (56 - 8 * i) as u64) & 0xFFu64) as u8
}

/// The bytes of a transport unit from byte `i` on, up to the first zero.
pub open spec fn unit_bytes_from(unit: u64, i: int) -> Seq<u8>
    decreases 8 - i,
{
    if i >= 8 || i < 0 || unit_byte(unit, i) == 0 {
        Seq::empty()
    } else {
        seq![unit_byte(unit, i)] + unit_bytes_from(unit, i + 1)
    }
}

/// The text that a transport unit carries: its bytes, most significant
/// first, up to the first zero.
pub open spec fn unit_text(unit: u64) -> Seq<u8> {
    unit_bytes_from(unit, 0)
}

proof fn lemma_step_preserves_wf(atlas: GlyphAtlas, s: ConsoleState, b: u8)
    requires
        state_wf(s),
    ensures
        state_wf(step_state(atlas, s, b)),
{
    let lh = s.line_height as int;
    assert(0 <= s.row * lh && s.row <= s.row * lh) by (nonlinear_arith)
        requires lh > 0, s.row >= 0;
    assert((s.row + 1) * lh == s.row * lh + lh) by (nonlinear_arith);
    assert((s.row + 2) * lh == (s.row + 1) * lh + lh) by (nonlinear_arith);
    assert(0 * lh == 0);
}

/// Whatever bytes the console takes, its current line, and the line of its
/// cursor, stay within the text region: rows wrap to the first before a
/// line would cross the region's bottom.
pub proof fn lemma_rows_stay_in_region(atlas: GlyphAtlas, s: ConsoleState, bytes: Seq<u8>)
    requires
        state_wf(s),
    ensures
        state_wf(run_bytes(atlas, s, bytes)),
        run_bytes(atlas, s, bytes).row * run_bytes(atlas, s, bytes).line_height + run_bytes(
            atlas,
            s,
            bytes,
        ).line_height <= run_bytes(atlas, s, bytes).bottom,
    decreases bytes.len(),
{
    if bytes.len() > 0 {
        lemma_rows_stay_in_region(atlas, s, bytes.drop_last());
        lemma_step_preserves_wf(atlas, run_bytes(atlas, s, bytes.drop_last()), bytes.last());
    }
}

/// `base + a + b` when it is below `limit`.
fn offset_below(base: usize, a: usize, b: usize, limit: usize) -> (r: Option<usize>)
    ensures
        r is Some <==> base + a + b < limit,
        r matches Some(v) ==> v == base + a + b,
{
    if a >= limit || base >= limit - a {
        return None;
    }
    let s = base + a;
    if b >= limit - s {
        return None;
    }
    Some(s + b)
}

/// The text that a transport unit carries: its bytes, most significant
/// first, up to the first zero byte.
pub fn unit_bytes(unit: u64) -> (r: Vec<u8>)
    ensures
        r@ == unit_text(unit),
{
    let mut out: Vec<u8> = Vec::new();
    let mut i: usize = 0;
    while i < 8
        invariant
            i <= 8,
            out@ + unit_bytes_from(unit, i as int) == unit_text(unit),
        decreases 8 - i,
    {
        let shift: u64 = 56 - 8 * (i as u64);
        let byte = ((unit >> shift) & 0xFF) as u8;
        assert(byte == unit_byte(unit, i as int));
        if byte == 0 {
            assert(unit_bytes_from(unit, i as int) =~= Seq::<u8>::empty());
            assert(out@ + Seq::<u8>::empty() =~= out@);
            return out;
        }
        let ghost before = out@;
        out.push(byte);
        assert(before + unit_bytes_from(unit, i as int) =~= out@ + unit_bytes_from(unit, i + 1));
        i = i + 1;
    }
    assert(out@ + unit_bytes_from(unit, 8) =~= out@);
    out
}

pub struct TextConsole {
    st: ConsoleState,
}

impl TextConsole {
    pub closed spec fn state(self) -> ConsoleState {
        self.st
    }

    pub open spec fn wf(self) -> bool {
        state_wf(self.state())
    }

    /// A console for a surface of `width` x `height` pixels with a logo of
    /// `logo_width` pixels at its right, writing lines of `line_height`
    /// pixels; `None` when no line fits.
    pub fn new(width: usize, height: usize, logo_width: usize, line_height: usize) -> (r: Option<TextConsole>)
        ensures
            r is Some <==> (line_height > 0 && width >= LOGO_MARGIN + logo_width && height
                >= TEXT_BOTTOM_MARGIN + line_height),
            r matches Some(c) ==> c.wf() && c.state() == (ConsoleState {
                column: 0,
                row: 0,
                cursor_row: 0,
                last_cursor_row: 0,
                left: TEXT_LEFT,
                right: (width - LOGO_MARGIN - logo_width) as usize,
                top: TEXT_TOP,
                bottom: (height - TEXT_BOTTOM_MARGIN) as usize,
                line_height,
                phase: 0,
            }),
    {
        if line_height == 0 || logo_width > width || width - logo_width < LOGO_MARGIN || height
            < TEXT_BOTTOM_MARGIN || height - TEXT_BOTTOM_MARGIN < line_height {
            return None;
        }
        Some(
            TextConsole {
                st: ConsoleState {
                    column: 0,
                    row: 0,
                    cursor_row: 0,
                    last_cursor_row: 0,
                    left: TEXT_LEFT,
                    right: width - LOGO_MARGIN - logo_width,
                    top: TEXT_TOP,
                    bottom: height - TEXT_BOTTOM_MARGIN,
                    line_height,
                    phase: 0,
                },
            },
        )
    }

    /// Where the console stands.
    pub fn snapshot(&self) -> (r: ConsoleState)
        ensures
            r == self.state(),
    {
        self.st
    }

    /// Takes the bytes of `bytes` in order, each as `put_byte` does.
    pub fn put_bytes(&mut self, bytes: &Vec<u8>, atlas: &GlyphAtlas, vb: &mut Vbuf)
        requires
            old(self).wf(),
            atlas.wf(),
            atlas.present(FALLBACK as int),
            old(vb).wf(),
        ensures
            final(self).wf(),
            final(self).state() == run_bytes(*atlas, old(self).state(), bytes@),
            final(vb).wf(),
            final(vb).geometry() == old(vb).geometry(),
            final(vb).frame() == bytes_frame(old(vb).geometry(), *atlas, old(self).state(), old(vb).frame(), bytes@),
    {
        let mut i: usize = 0;
        while i < bytes.len()
            invariant
                i <= bytes@.len(),
                self.wf(),
                atlas.wf(),
                atlas.present(FALLBACK as int),
                vb.wf(),
                vb.geometry() == old(vb).geometry(),
                self.state() == run_bytes(*atlas, old(self).state(), bytes@.take(i as int)),
                vb.frame() == bytes_frame(
                    old(vb).geometry(),
                    *atlas,
                    old(self).state(),
                    old(vb).frame(),
                    bytes@.take(i as int),
                ),
            decreases bytes@.len() - i,
        {
            self.put_byte(bytes[i], atlas, vb);
            assert(bytes@.take(i + 1).drop_last() =~= bytes@.take(i as int));
            i = i + 1;
        }
        assert(bytes@.take(i as int) =~= bytes@);
    }

    /// Takes one transport unit of debug text: its bytes up to the first
    /// zero. Returns `false` when the unit held a zero byte, or was zero,
    /// which means that no more text is ready for now.
    pub fn feed_unit(&mut self, unit: u64, atlas: &GlyphAtlas, vb: &mut Vbuf) -> (r: bool)
        requires
            old(self).wf(),
            atlas.wf(),
            atlas.present(FALLBACK as int),
            old(vb).wf(),
        ensures
            r == (unit_text(unit).len() == 8),
            final(self).wf(),
            final(self).state() == run_bytes(*atlas, old(self).state(), unit_text(unit)),
            final(vb).wf(),
            final(vb).geometry() == old(vb).geometry(),
            final(vb).frame() == bytes_frame(
                old(vb).geometry(),
                *atlas,
                old(self).state(),
                old(vb).frame(),
                unit_text(unit),
            ),
    {
        let bytes = unit_bytes(unit);
        self.put_bytes(&bytes, atlas, vb);
        bytes.len() == 8
    }

    /// Redraws the cursor cell beside the cursor's line at the next
    /// brightness of its wave, after clearing the cell on the line where it
    /// stood before if that line has changed.
    pub fn draw_cursor(&mut self, vb: &mut Vbuf)
        requires
            old(self).wf(),
            old(vb).wf(),
        ensures
            final(self).wf(),
            final(self).state() == (ConsoleState {
                last_cursor_row: old(self).state().cursor_row,
                phase: ((old(self).state().phase + WAVE_STEP) % (WAVE_PERIOD as int)) as usize,
                ..old(self).state()
            }),
            final(vb).wf(),
            final(vb).geometry() == old(vb).geometry(),
            ({
                let s = old(self).state();
                let g = old(vb).geometry();
                let old_top = line_top(s, s.last_cursor_row as int);
                let top = line_top(s, s.cursor_row as int);
                let cleared = if s.last_cursor_row != s.cursor_row {
                    fill_result(
                        g,
                        old(vb).frame(),
                        CURSOR_LEFT as int,
                        old_top,
                        CURSOR_RIGHT as int,
                        old_top + s.line_height,
                        0,
                    )
                } else {
                    old(vb).frame()
                };
                final(vb).frame() == fill_result(
                    g,
                    cleared,
                    CURSOR_LEFT as int,
                    top,
                    CURSOR_RIGHT as int,
                    top + s.line_height,
                    wave_level(s.phase as int) as u8,
                )
            }),
    {
        let lh = self.st.line_height;
        proof {
            Self::lemma_line_fits(self.st, self.st.cursor_row as int);
            Self::lemma_line_fits(self.st, self.st.last_cursor_row as int);
        }
        if self.st.last_cursor_row != self.st.cursor_row {
            let old_top = self.st.last_cursor_row * lh + self.st.top;
            vb.fill_box(CURSOR_LEFT, old_top, CURSOR_RIGHT, old_top + lh, 0);
            self.st.last_cursor_row = self.st.cursor_row;
        }
        let top = self.st.cursor_row * lh + self.st.top;
        let phase = self.st.phase;
        let level: u8 = if phase < 155 {
            (101 + phase) as u8
        } else {
            (409 - phase) as u8
        };
        vb.fill_box(CURSOR_LEFT, top, CURSOR_RIGHT, top + lh, level);
        self.st.phase = (phase + WAVE_STEP) % WAVE_PERIOD;
    }

    proof fn lemma_line_fits(s: ConsoleState, row: int)
        requires
            s.line_height > 0,
            0 <= row,
            row * s.line_height + s.line_height <= s.bottom,
            s.top + s.bottom <= usize::MAX,
        ensures
            0 <= row * s.line_height,
            line_top(s, row) + s.line_height <= usize::MAX,
    {
        assert(0 <= row * s.line_height) by (nonlinear_arith)
            requires 0 <= row, s.line_height > 0;
    }

    /// Takes one byte of text. A newline moves to the start of the next
    /// line, back to the first when the next one would not fit; a byte past
    /// the right of the region is dropped; any other byte is drawn as its
    /// glyph, or as `'?'` when the atlas has none, after the line is cleared
    /// if it is the line's first.
    pub fn put_byte(&mut self, b: u8, atlas: &GlyphAtlas, vb: &mut Vbuf)
        requires
            old(self).wf(),
            atlas.wf(),
            atlas.present(FALLBACK as int),
            old(vb).wf(),
        ensures
            final(self).wf(),
            final(self).state().row * final(self).state().line_height + final(self).state().line_height
                <= final(self).state().bottom,
            final(vb).wf(),
            final(vb).geometry() == old(vb).geometry(),
            final(self).state() == step_state(*atlas, old(self).state(), b),
            final(vb).frame() == byte_frame(old(vb).geometry(), *atlas, old(self).state(), old(vb).frame(), b),
    {
        if b == NEWLINE {
            let lh = self.st.line_height;
            proof {
                let s = self.st;
                assert((s.row + 1) * lh == s.row * lh + lh) by (nonlinear_arith);
                assert((s.row + 2) * lh == (s.row + 1) * lh + lh) by (nonlinear_arith);
                assert(s.row <= s.row * lh && 0 <= s.row * lh) by (nonlinear_arith)
                    requires lh > 0, s.row >= 0;
            }
            let row = self.st.row + 1;
            let used = row * lh;
            if self.st.bottom - used <= lh {
                self.st.row = 0;
                assert(self.st.row * lh == 0);
            } else {
                self.st.row = row;
            }
            self.st.column = 0;
            return;
        }
        if self.st.column >= self.st.right {
            return;
        }
        let glyph = match render_glyph(atlas, b as char) {
            Some(g) => g,
            None => match render_glyph(atlas, FALLBACK as char) {
                Some(g) => g,
                None => {
                    return;
                },
            },
        };
        assert((b as char) as int == b as int);
        assert((FALLBACK as char) as int == FALLBACK as int);
        let ghost s = self.st;
        let ghost c = glyph_for(*atlas, b);
        let ghost g = vb.geometry();
        let xoff = self.st.column;
        let width = glyph.width();
        self.st.column = if width > usize::MAX - xoff {
            usize::MAX
        } else {
            xoff + width
        };
        proof {
            Self::lemma_line_fits(s, s.row as int);
        }
        let lh = self.st.line_height;
        let top = self.st.top + self.st.row * lh;
        if xoff == 0 {
            vb.fill_box(self.st.left, top, self.st.right, top + lh, 0);
            self.st.cursor_row = self.st.row;
        }
        let ghost start = vb.frame();
        let ghost writes = glyph_writes(s, *atlas, c, xoff as int);
        let ghost pix = atlas.glyph_pixels(c);
        let mut it = glyph;
        let mut k: usize = 0;
        loop
            invariant
                it.wf(),
                it.pixels() == pix,
                it.position() == k,
                k <= pix.len(),
                pix.len() <= usize::MAX,
                top == line_top(s, s.row as int),
                pix == atlas.glyph_pixels(c),
                xoff == s.column,
                writes.len() == pix.len(),
                writes == glyph_writes(s, *atlas, c, xoff as int),
                self.st == (ConsoleState {
                    column: saturating_add(s.column as int, atlas.glyph_width(c)) as usize,
                    cursor_row: if s.column == 0 {
                        s.row
                    } else {
                        s.cursor_row
                    },
                    ..s
                }),
                vb.wf(),
                vb.geometry() == g,
                vb.frame() == apply_writes(g, start, writes.take(k as int)),
            ensures
                k == pix.len(),
            decreases pix.len() - k,
        {
            proof {
                if k < pix.len() {
                    lemma_apply_writes_step(g, start, writes, k as int);
                }
            }
            match it.next() {
                None => break,
                Some((x, y, v)) => {
                    assert(pix[k as int] == (x, y, v));
                    let px = offset_below(self.st.left, x, xoff, self.st.right);
                    let py = offset_below(top, y, 0, self.st.bottom);

                    match px {
                        Some(px) => match py {
                            Some(py) => vb.set_grey_pixel(px, py, v),
                            None => {},
                        },
                        None => {},
                    }
                    k = k + 1;
                },
            }
        }
        assert(writes.take(k as int) =~= writes);
    }
}

} // verus!
