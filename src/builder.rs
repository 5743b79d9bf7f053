//! Packing rasterized glyphs into an atlas strip: each glyph's pixels land
//! in per-row buffers at the pen position, the pen moves on by the glyph's
//! advance, and the rows are finally padded to one width and laid end to end.

use vstd::prelude::*;
use crate::glyph::{ABSENT, CODE_POINTS};

verus! {

/// A glyph as the font rasterizer gives it, with its intensities already
/// quantized.
pub struct RasterGlyph {
    /// Left edge of the glyph's pixel box, relative to the pen.
    pub min_x: i32,
    /// Top edge of the glyph's pixel box, relative to the baseline.
    pub min_y: i32,
    /// Width of the pixel box.
    pub width: usize,
    /// Height of the pixel box.
    pub height: usize,
    /// Intensities of the pixel box, row-major.
    pub coverage: Vec<u8>,
}

/// Why a glyph cannot be added to the atlas.
#[derive(Clone, Copy, Debug, PartialEq, Eq)]
pub enum BuildError {
    /// Every code point already has its entry.
    TableFull,
    /// The coverage does not hold `width * height` intensities.
    CoverageSize,
    /// The glyph's box is taller than the builder can place.
    TooTall,
    /// The glyph would start or end beyond the widest strip an offset can address.
    TooWide,
}

/// Tallest glyph box that can be placed.
pub const MAX_GLYPH_HEIGHT: usize = 0x7FFF_FFFF;

/// `r` with byte `x` set to `v`, grown with zeros first when it is shorter.
pub open spec fn set_grow(r: Seq<u8>, x: int, v: u8) -> Seq<u8> {
    if x < r.len() {
        r.update(x, v)
    } else {
        (r + Seq::new((x - r.len()) as nat, |i: int| 0u8)).push(v)
    }
}

/// `rows` with pixel `(x, y)` set to `v`; rows outside the strip are dropped.
pub open spec fn put_in_rows(rows: Seq<Seq<u8>>, x: int, y: int, v: u8) -> Seq<Seq<u8>> {
    if 0 <= y < rows.len() {
        rows.update(y, set_grow(rows[y], x, v))
    } else {
        rows
    }
}

/// How far right of the pen the glyph's box starts.
pub open spec fn shift_of(g: RasterGlyph) -> int {
    if g.min_x > 0 {
        g.min_x as int
    } else {
        0
    }
}

/// Column at which pixel `k` of the glyph lands, with the pen at `pen`.
pub open spec fn glyph_x(g: RasterGlyph, pen: int, k: int) -> int {
    pen + k % (g.width as int) + shift_of(g)
}

/// Row at which pixel `k` of the glyph lands, with the baseline at `baseline`.
pub open spec fn glyph_y(g: RasterGlyph, baseline: int, k: int) -> int {
    k / (g.width as int) + g.min_y + baseline
}

/// `rows` after the first `n` pixels of the glyph are placed.
pub open spec fn place_glyph(rows: Seq<Seq<u8>>, g: RasterGlyph, pen: int, baseline: int, n: int) -> Seq<
    Seq<u8>,
>
    decreases n,
{
    if n <= 0 {
        rows
    } else {
        put_in_rows(
            place_glyph(rows, g, pen, baseline, n - 1),
            glyph_x(g, pen, n - 1),
            glyph_y(g, baseline, n - 1),
            g.coverage@[n - 1],
        )
    }
}

/// Length of the longest row.
pub open spec fn max_len(rows: Seq<Seq<u8>>) -> int
    decreases rows.len(),
{
    if rows.len() == 0 {
        0
    } else {
        let m = max_len(rows.drop_last());
        if rows.last().len() > m {
            rows.last().len() as int
        } else {
            m
        }
    }
}

/// `r` padded with zeros to `width`.
pub open spec fn pad(r: Seq<u8>, width: int) -> Seq<u8> {
    r + Seq::new((width - r.len()) as nat, |i: int| 0u8)
}

/// The rows laid end to end.
pub open spec fn concat_rows(rows: Seq<Seq<u8>>) -> Seq<u8>
    decreases rows.len(),
{
    if rows.len() == 0 {
        Seq::empty()
    } else {
        concat_rows(rows.drop_last()) + rows.last()
    }
}

/// The strip that the rows make: each padded to the longest, row-major.
pub open spec fn strip(rows: Seq<Seq<u8>>) -> Seq<u8> {
    concat_rows(Seq::new(rows.len(), |y: int| pad(rows[y], max_len(rows))))
}

/// Builds the atlas strip and offset table, one code point after another.
pub struct AtlasBuilder {
    baseline: i32,
    rows: Vec<Vec<u8>>,
    pen: usize,
    offsets: Vec<u32>,
}

impl AtlasBuilder {
    pub closed spec fn rows_view(self) -> Seq<Seq<u8>> {
        Seq::new(self.rows@.len(), |y: int| self.rows@[y]@)
    }

    pub closed spec fn pen_view(self) -> int {
        self.pen as int
    }

    pub closed spec fn offsets_view(self) -> Seq<u32> {
        self.offsets@
    }

    pub closed spec fn baseline_view(self) -> int {
        self.baseline as int
    }

    pub closed spec fn wf(self) -> bool {
        self.offsets@.len() <= CODE_POINTS
    }

    /// The error that adding glyph `g` with advance `advance` gives, checked
    /// in this order, or `None` when it can be added.
    pub open spec fn add_error(self, g: RasterGlyph, advance: int) -> Option<BuildError> {
        if self.offsets_view().len() >= CODE_POINTS {
            Some(BuildError::TableFull)
        } else if g.coverage@.len() != g.width * g.height {
            Some(BuildError::CoverageSize)
        } else if g.height > MAX_GLYPH_HEIGHT {
            Some(BuildError::TooTall)
        } else if self.pen_view() >= ABSENT || self.pen_view() + shift_of(g) + g.width > usize::MAX
            || self.pen_view() + advance > usize::MAX {
            Some(BuildError::TooWide)
        } else {
            None
        }
    }

    /// A builder for glyphs `height` pixels high whose baseline lies
    /// `baseline` rows below the top of the strip.
    pub fn new(height: usize, baseline: i32) -> (r: AtlasBuilder)
        ensures
            r.wf(),
            r.rows_view() == Seq::new(height as nat, |y: int| Seq::<u8>::empty()),
            r.pen_view() == 0,
            r.offsets_view() == Seq::<u32>::empty(),
            r.baseline_view() == baseline,
    {
        let mut rows: Vec<Vec<u8>> = Vec::new();
        let mut y: usize = 0;
        while y < height
            invariant
                y <= height,
                rows@.len() == y,
                forall|j: int| 0 <= j < y ==> (#[trigger] rows@[j])@ == Seq::<u8>::empty(),
            decreases height - y,
        {
            rows.push(Vec::new());
            y = y + 1;
        }
        let r = AtlasBuilder { baseline, rows, pen: 0, offsets: Vec::new() };
        assert(r.rows_view() =~= Seq::new(height as nat, |y: int| Seq::<u8>::empty()));
        r
    }

    /// Records that the next code point has no glyph.
    pub fn add_missing(&mut self) -> (r: Result<(), BuildError>)
        requires
            old(self).wf(),
        ensures
            final(self).wf(),
            final(self).rows_view() == old(self).rows_view(),
            final(self).pen_view() == old(self).pen_view(),
            final(self).baseline_view() == old(self).baseline_view(),
            old(self).offsets_view().len() >= CODE_POINTS ==> r == Err::<(), BuildError>(BuildError::TableFull)
                && final(self).offsets_view() == old(self).offsets_view(),
            old(self).offsets_view().len() < CODE_POINTS ==> r is Ok && final(self).offsets_view() == old(
                self,
            ).offsets_view().push(ABSENT),
    {
        if self.offsets.len() >= CODE_POINTS {
            return Err(BuildError::TableFull);
        }
        self.offsets.push(ABSENT);
        Ok(())
    }

    /// Writes intensity `v` at `(x, y)` of the strip, growing the row as needed.
    fn put(&mut self, x: usize, y: usize, v: u8)
        requires
            y < old(self).rows@.len(),
        ensures
            final(self).offsets == old(self).offsets,
            final(self).pen == old(self).pen,
            final(self).baseline == old(self).baseline,
            final(self).rows@.len() == old(self).rows@.len(),
            final(self).rows_view() == put_in_rows(old(self).rows_view(), x as int, y as int, v),
    {
        let ghost before = self.rows@[y as int]@;
        if x >= self.rows[y].len() {
            while self.rows[y].len() < x
                invariant
                    y < self.rows@.len(),
                    self.rows@.len() == old(self).rows@.len(),
                    forall|j: int| 0 <= j < self.rows@.len() && j != y ==> self.rows@[j] == old(self).rows@[j],
                    before.len() <= self.rows@[y as int]@.len() <= x,
                    self.rows@[y as int]@ == before + Seq::new(
                        (self.rows@[y as int]@.len() - before.len()) as nat,
                        |i: int| 0u8,
                    ),
                    self.offsets == old(self).offsets,
                    self.pen == old(self).pen,
                    self.baseline == old(self).baseline,
                decreases x - self.rows@[y as int]@.len(),
            {
                self.rows[y].push(0);
                assert(self.rows@[y as int]@ =~= before + Seq::new(
                    (self.rows@[y as int]@.len() - before.len()) as nat,
                    |i: int| 0u8,
                ));
            }
            self.rows[y].push(v);
        } else {
            self.rows[y].set(x, v);
        }
        assert(self.rows_view() =~= put_in_rows(old(self).rows_view(), x as int, y as int, v));
    }

    /// Adds the glyph of the next code point: its pixels are placed with the
    /// pen at the current column, the pen's column becomes the code point's
    /// offset, and the pen moves on by `advance`.
    pub fn add_glyph(&mut self, g: &RasterGlyph, advance: usize) -> (r: Result<(), BuildError>)
        requires
            old(self).wf(),
        ensures
            final(self).wf(),
            final(self).baseline_view() == old(self).baseline_view(),
            match old(self).add_error(*g, advance as int) {
                Some(e) => r == Err::<(), BuildError>(e) && final(self).rows_view() == old(self).rows_view()
                    && final(self).pen_view() == old(self).pen_view() && final(self).offsets_view() == old(
                    self,
                ).offsets_view(),
                None => r is Ok && final(self).rows_view() == place_glyph(
                    old(self).rows_view(),
                    *g,
                    old(self).pen_view(),
                    old(self).baseline_view(),
                    g.width * g.height,
                ) && final(self).pen_view() == old(self).pen_view() + advance && final(self).offsets_view()
                    == old(self).offsets_view().push(old(self).pen_view() as u32),
            },
    {
        if self.offsets.len() >= CODE_POINTS {
            return Err(BuildError::TableFull);
        }
        let len = g.coverage.len();
        let n = match g.width.checked_mul(g.height) {
            Some(n) => n,
            None => {
                return Err(BuildError::CoverageSize);
            },
        };
        if len != n {
            return Err(BuildError::CoverageSize);
        }
        if g.height > MAX_GLYPH_HEIGHT {
            return Err(BuildError::TooTall);
        }
        let shift: usize = if g.min_x > 0 {
            g.min_x as usize
        } else {
            0
        };
        if self.pen >= ABSENT as usize || shift > usize::MAX - self.pen || g.width > usize::MAX - self.pen - shift
            || advance > usize::MAX - self.pen {
            return Err(BuildError::TooWide);
        }
        let h = self.rows.len();
        let ghost rows0 = self.rows_view();
        let mut k: usize = 0;
        while k < n
            invariant
                n == g.width * g.height,
                g.coverage@.len() == n,
                g.height <= MAX_GLYPH_HEIGHT,
                k <= n,
                self.pen == old(self).pen,
                self.offsets == old(self).offsets,
                self.baseline == old(self).baseline,
                h == self.rows@.len(),
                rows0 == old(self).rows_view(),
                shift == shift_of(*g),
                self.pen + shift + g.width <= usize::MAX,
                self.rows_view() == place_glyph(rows0, *g, self.pen as int, self.baseline as int, k as int),
            decreases n - k,
        {
            proof {
                assert(g.width > 0) by (nonlinear_arith)
                    requires k < n, n == g.width * g.height;
                assert(k % g.width < g.width && k / g.width < g.height) by (nonlinear_arith)
                    requires k < n, n == g.width * g.height, g.width > 0;
            }
            let gx = k % g.width;
            let gy = k / g.width;
            let y: i64 = gy as i64 + g.min_y as i64 + self.baseline as i64;
            if y >= 0 && (y as u64) < (h as u64) {
                self.put(self.pen + gx + shift, y as usize, g.coverage[k]);
            }
            k = k + 1;
        }
        self.offsets.push(self.pen as u32);
        self.pen = self.pen + advance;
        Ok(())
    }

    /// The strip, each row padded with zeros to the longest and laid end to
    /// end, and the offset table.
    pub fn finish(&self) -> (r: (Vec<u8>, Vec<u32>))
        ensures
            r.0@ == strip(self.rows_view()),
            r.1@ == self.offsets_view(),
    {
        let rows = &self.rows;
        let ghost rv = self.rows_view();
        let mut width: usize = 0;
        let mut y: usize = 0;
        while y < rows.len()
            invariant
                y <= rows@.len(),
                rv == self.rows_view(),
                rows == &self.rows,
                width == max_len(rv.take(y as int)),
            decreases rows@.len() - y,
        {
            assert(rv.take(y + 1).drop_last() =~= rv.take(y as int));
            if rows[y].len() > width {
                width = rows[y].len();
            }
            y = y + 1;
        }
        assert(rv.take(y as int) =~= rv);
        let ghost padded = Seq::new(rv.len(), |j: int| pad(rv[j], max_len(rv)));
        let mut data: Vec<u8> = Vec::new();
        let mut y: usize = 0;
        while y < rows.len()
            invariant
                y <= rows@.len(),
                rv == self.rows_view(),
                rows == &self.rows,
                width == max_len(rv),
                padded == Seq::new(rv.len(), |j: int| pad(rv[j], max_len(rv))),
                data@ == concat_rows(padded.take(y as int)),
            decreases rows@.len() - y,
        {
            let row = &rows[y];
            let ghost before = data@;
            proof {
                lemma_max_len_bounds(rv, y as int);
            }
            let mut x: usize = 0;
            while x < width
                invariant
                    x <= width,
                    row@ == rv[y as int],
                    row@.len() <= width,
                    data@ == before + pad(row@, width as int).take(x as int),
                decreases width - x,
            {
                let v = if x < row.len() {
                    row[x]
                } else {
                    0
                };
                data.push(v);
                x = x + 1;
                assert(data@ =~= before + pad(row@, width as int).take(x as int));
            }
            assert(pad(row@, width as int).take(x as int) =~= padded[y as int]);
            assert(padded.take(y + 1).drop_last() =~= padded.take(y as int));
            y = y + 1;
        }
        assert(padded.take(y as int) =~= padded);
        (data, self.offsets.clone())
    }
}

proof fn lemma_max_len_bounds(rows: Seq<Seq<u8>>, y: int)
    requires
        0 <= y < rows.len(),
    ensures
        rows[y].len() <= max_len(rows),
    decreases rows.len(),
{
    if y < rows.len() - 1 {
        lemma_max_len_bounds(rows.drop_last(), y);
    }
}

} // verus!
