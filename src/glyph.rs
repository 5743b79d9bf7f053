//! The glyph atlas and the iterator over one glyph's pixels.

use vstd::prelude::*;

verus! {

/// Offset-table entry of a code point that has no glyph.
pub const ABSENT: u32 = 0xFFFF_FFFF;

/// Number of code points that the atlas covers.
pub const CODE_POINTS: usize = 256;

/// Whether `data`, `height` and `offsets` make a usable atlas: the strip is
/// a whole number of rows, there is one offset per code point, and the
/// present offsets are ascending and lie within a row.
pub open spec fn atlas_parts_valid(data: Seq<u8>, height: int, offsets: Seq<u32>) -> bool {
    &&& height > 0
    &&& data.len() <= usize::MAX
    &&& data.len() as int % height == 0
    &&& offsets.len() == CODE_POINTS
    &&& forall|i: int|
        0 <= i < CODE_POINTS && offsets[i] != ABSENT ==> offsets[i] <= data.len() as int / height
    &&& forall|i: int, j: int|
        0 <= i < j < CODE_POINTS && offsets[i] != ABSENT && offsets[j] != ABSENT
            ==> offsets[i] <= offsets[j]
}

/// A packed greyscale glyph strip: `height` rows laid out one after the
/// other, and for each code point the column at which its glyph starts.
pub struct GlyphAtlas {
    data: Vec<u8>,
    height: usize,
    offsets: Vec<u32>,
}

impl GlyphAtlas {
    pub open spec fn wf(self) -> bool {
        atlas_parts_valid(self.data_view(), self.height_view(), self.offsets_view())
    }

    pub closed spec fn data_view(self) -> Seq<u8> {
        self.data@
    }

    pub closed spec fn offsets_view(self) -> Seq<u32> {
        self.offsets@
    }

    pub closed spec fn height_view(self) -> int {
        self.height as int
    }

    /// Pixels in one row of the strip.
    pub open spec fn row_width(self) -> int {
        self.data_view().len() as int / self.height_view()
    }

    pub open spec fn present(self, c: int) -> bool {
        self.offsets_view()[c] != ABSENT
    }

    /// The column after the last one of glyph `c`: the start of the next
    /// present glyph, or the row width when no present glyph follows.
    pub open spec fn glyph_end(self, c: int) -> int
        decreases CODE_POINTS - c,
    {
        if c + 1 >= CODE_POINTS {
            self.row_width()
        } else if self.present(c + 1) {
            self.offsets_view()[c + 1] as int
        } else {
            self.glyph_end(c + 1)
        }
    }

    pub open spec fn glyph_start(self, c: int) -> int {
        self.offsets_view()[c] as int
    }

    /// Position of pixel `(x, y)` of glyph `c` in row-major order.
    pub open spec fn pixel_index(self, c: int, x: int, y: int) -> int {
        y * self.glyph_width(c) + x
    }

    pub open spec fn glyph_width(self, c: int) -> int {
        self.glyph_end(c) - self.glyph_start(c)
    }

    /// Intensity of pixel `(x, y)` of the glyph that starts at column `start`.
    pub open spec fn intensity(self, start: int, x: int, y: int) -> u8 {
        self.data_view()[start + y * self.row_width() + x]
    }

    /// The pixels of glyph `c` in row-major order, each as `(x, y, intensity)`.
    pub open spec fn glyph_pixels(self, c: int) -> Seq<(usize, usize, u8)> {
        let w = self.glyph_width(c);
        Seq::new(
            (w * self.height_view()) as nat,
            |k: int| ((k % w) as usize, (k / w) as usize, self.intensity(self.glyph_start(c), k % w, k / w)),
        )
    }

    proof fn lemma_glyph_end_bounds(self, c: int)
        requires
            self.wf(),
            0 <= c < CODE_POINTS,
        ensures
            self.glyph_end(c) <= self.row_width(),
            forall|k: int| 0 <= k <= c && self.present(k) ==> self.glyph_start(k) <= self.glyph_end(c),
        decreases CODE_POINTS - c,
    {
        if c + 1 < CODE_POINTS && !self.present(c + 1) {
            self.lemma_glyph_end_bounds(c + 1);
        }
    }

    /// Builds an atlas from its strip, its height and its offset table;
    /// `None` when the parts do not form a usable atlas.
    pub fn new(data: Vec<u8>, height: usize, offsets: Vec<u32>) -> (r: Option<GlyphAtlas>)
        ensures
            r is Some <==> atlas_parts_valid(data@, height as int, offsets@),
            r matches Some(a) ==> a.wf() && a.data_view() == data@ && a.height_view() == height
                && a.offsets_view() == offsets@,
    {
        if height == 0 || data.len() % height != 0 || offsets.len() != CODE_POINTS {
            return None;
        }
        let row_width: usize = data.len() / height;
        let mut last: u32 = 0;
        let mut i: usize = 0;
        while i < CODE_POINTS
            invariant
                height > 0,
                row_width == data@.len() as int / (height as int),
                offsets@.len() == CODE_POINTS,
                0 <= i <= CODE_POINTS,
                forall|k: int| 0 <= k < i && offsets@[k] != ABSENT ==> offsets@[k] <= row_width,
                forall|k: int, j: int|
                    0 <= k < j < i && offsets@[k] != ABSENT && offsets@[j] != ABSENT
                        ==> offsets@[k] <= offsets@[j],
                forall|k: int| 0 <= k < i && offsets@[k] != ABSENT ==> offsets@[k] <= last,
                last == 0 || exists|k: int| 0 <= k < i && offsets@[k] != ABSENT && offsets@[k] == last,
            decreases CODE_POINTS - i,
        {
            let o = offsets[i];
            if o != ABSENT {
                if o < last {
                    proof {
                        let k = choose|k: int| 0 <= k < i && offsets@[k] != ABSENT && offsets@[k] == last;
                        assert(offsets@[k] > offsets@[i as int]);
                    }
                    return None;
                }
                if o as usize > row_width {
                    assert(offsets@[i as int] > data@.len() as int / (height as int));
                    return None;
                }
                last = o;
            }
            i = i + 1;
        }
        Some(GlyphAtlas { data, height, offsets })
    }

    /// Height of every glyph, in pixels.
    pub fn height(&self) -> (r: usize)
        ensures
            r == self.height_view(),
    {
        self.height
    }
}

/// The pixels of a present glyph are its `width * height` positions in
/// row-major order: each lies inside the glyph's box, and each position of
/// the box is yielded exactly once.
pub proof fn lemma_glyph_pixels_cover_box(atlas: GlyphAtlas, c: int)
    requires
        atlas.wf(),
        0 <= c < CODE_POINTS,
        atlas.present(c),
    ensures
        atlas.glyph_width(c) >= 0,
        atlas.glyph_pixels(c).len() == atlas.glyph_width(c) * atlas.height_view(),
        forall|k: int|
            0 <= k < atlas.glyph_pixels(c).len() ==> (#[trigger] atlas.glyph_pixels(c)[k]).0 < atlas.glyph_width(c)
                && atlas.glyph_pixels(c)[k].1 < atlas.height_view(),
        forall|k1: int, k2: int|
            0 <= k1 < k2 < atlas.glyph_pixels(c).len() ==> ((#[trigger] atlas.glyph_pixels(c)[k1]).0,
            atlas.glyph_pixels(c)[k1].1) != ((#[trigger] atlas.glyph_pixels(c)[k2]).0, atlas.glyph_pixels(c)[k2].1),
        forall|x: int, y: int|
            0 <= x < atlas.glyph_width(c) && 0 <= y < atlas.height_view() ==> #[trigger] atlas.pixel_index(c, x, y)
                < atlas.glyph_pixels(c).len() && atlas.glyph_pixels(c)[atlas.pixel_index(c, x, y)].0 == x
                && atlas.glyph_pixels(c)[atlas.pixel_index(c, x, y)].1 == y,
{
    atlas.lemma_glyph_end_bounds(c);
    let w = atlas.glyph_width(c);
    let h = atlas.height_view();
    let p = atlas.glyph_pixels(c);
    assert(w * h >= 0) by (nonlinear_arith)
        requires w >= 0, h > 0;
    assert(w <= usize::MAX) by {
        assert(atlas.row_width() <= atlas.data_view().len()) by (nonlinear_arith)
            requires atlas.row_width() == atlas.data_view().len() as int / h, h > 0;
    }
    assert forall|k: int| 0 <= k < p.len() implies (#[trigger] p[k]).0 == k % w && p[k].1 == k / w && k % w < w
        && k / w < h by {
        assert(w > 0) by (nonlinear_arith)
            requires 0 <= k < w * h, w >= 0;
        assert(k / w < h && k % w < w && k / w >= 0 && k % w >= 0) by (nonlinear_arith)
            requires 0 <= k < w * h, w > 0;
    }
    assert forall|k1: int, k2: int| 0 <= k1 < k2 < p.len() implies ((#[trigger] p[k1]).0, p[k1].1) != ((
    #[trigger] p[k2]).0, p[k2].1) by {
        assert(w > 0) by (nonlinear_arith)
            requires 0 <= k2 < w * h, w >= 0;
        vstd::arithmetic::div_mod::lemma_fundamental_div_mod(k1, w);
        vstd::arithmetic::div_mod::lemma_fundamental_div_mod(k2, w);
    }
    assert forall|x: int, y: int|
        0 <= x < atlas.glyph_width(c) && 0 <= y < atlas.height_view() implies #[trigger] atlas.pixel_index(c, x, y)
            < atlas.glyph_pixels(c).len() && atlas.glyph_pixels(c)[atlas.pixel_index(c, x, y)].0 == x
            && atlas.glyph_pixels(c)[atlas.pixel_index(c, x, y)].1 == y by {
        assert(0 <= y * w + x < w * h) by (nonlinear_arith)
            requires 0 <= x < w, 0 <= y < h;
        vstd::arithmetic::div_mod::lemma_fundamental_div_mod_converse(y * w + x, w, y, x);
        assert(p[y * w + x].0 == (y * w + x) % w);
    }
}

/// Looks up glyph `c` in the atlas; `None` when the atlas has no glyph for it.
/// The iterator yields the glyph's pixels in row-major order.
pub fn render_glyph<'a>(atlas: &'a GlyphAtlas, c: char) -> (r: Option<GlyphIterator<'a>>)
    requires
        atlas.wf(),
        (c as u32) < CODE_POINTS,
    ensures
        r is Some <==> atlas.present(c as int),
        r matches Some(it) ==> it.wf() && it.source() == *atlas && it.pixels() == atlas.glyph_pixels(c as int)
            && it.position() == 0 && it.width_view() == atlas.glyph_width(c as int) && it.pixels().len()
            <= usize::MAX,
{
    let ci = c as u32 as usize;
    let offset = atlas.offsets[ci];
    if offset == ABSENT {
        return None;
    }
    proof {
        atlas.lemma_glyph_end_bounds(ci as int);
    }
    let next_offset = glyph_end(atlas, ci);
    assert(atlas.present(ci as int));
    assert(atlas.glyph_start(ci as int) <= atlas.glyph_end(ci as int));
    let width = next_offset - offset as usize;
    proof {
        let rw = atlas.row_width();
        let h = atlas.height as int;
        assert(rw * h <= atlas.data@.len()) by (nonlinear_arith)
            requires rw == atlas.data@.len() as int / h, h > 0;
        assert(width * h <= rw * h) by (nonlinear_arith)
            requires width <= rw, h > 0;
    }
    let total = width * atlas.height;
    Some(GlyphIterator { atlas, x_offset: offset as usize, width, offset: 0, total })
}

/// Executable form of `glyph_end`.
fn glyph_end(atlas: &GlyphAtlas, c: usize) -> (r: usize)
    requires
        atlas.wf(),
        c < CODE_POINTS,
    ensures
        r == atlas.glyph_end(c as int),
{
    let mut j: usize = c + 1;
    while j < CODE_POINTS
        invariant
            atlas.wf(),
            c < j <= CODE_POINTS,
            atlas.glyph_end(c as int) == atlas.glyph_end(j as int - 1),
            forall|k: int| c < k < j ==> !atlas.present(k),
        decreases CODE_POINTS - j,
    {
        if atlas.offsets[j] != ABSENT {
            return atlas.offsets[j] as usize;
        }
        j = j + 1;
    }
    atlas.data.len() / atlas.height
}

/// Iterates over the pixels of one glyph.
pub struct GlyphIterator<'a> {
    atlas: &'a GlyphAtlas,
    /// First column of the glyph in the strip.
    x_offset: usize,
    /// Width of the glyph, in pixels.
    width: usize,
    /// Index of the next pixel to yield.
    offset: usize,
    /// Number of pixels in the glyph.
    total: usize,
}

impl<'a> GlyphIterator<'a> {
    pub closed spec fn width_view(self) -> int {
        self.width as int
    }

    /// The atlas that the glyph is read from.
    pub closed spec fn source(self) -> GlyphAtlas {
        *self.atlas
    }

    pub closed spec fn position(self) -> int {
        self.offset as int
    }

    /// Every pixel of the glyph, in the order the iterator yields them.
    pub closed spec fn pixels(self) -> Seq<(usize, usize, u8)> {
        Seq::new(
            self.total as nat,
            |k: int|
                (
                    (k % self.width as int) as usize,
                    (k / self.width as int) as usize,
                    self.atlas.intensity(self.x_offset as int, k % self.width as int, k / self.width as int),
                ),
        )
    }

    pub closed spec fn wf(self) -> bool {
        &&& self.atlas.wf()
        &&& self.total == self.width * self.atlas.height_view()
        &&& self.x_offset + self.width <= self.atlas.row_width()
        &&& self.offset <= self.total
    }

    /// Returns the width of the glyph.
    pub fn width(&self) -> (r: usize)
        ensures
            r == self.width_view(),
    {
        self.width
    }

    /// Yields the next pixel as `(x, y, intensity)`, or `None` once all
    /// pixels have been yielded.
    pub fn next(&mut self) -> (r: Option<(usize, usize, u8)>)
        requires
            old(self).wf(),
        ensures
            final(self).wf(),
            final(self).pixels() == old(self).pixels(),
            final(self).source() == old(self).source(),
            final(self).width_view() == old(self).width_view(),
            old(self).position() < old(self).pixels().len() ==> r == Some(old(self).pixels()[old(self).position()])
                && final(self).position() == old(self).position() + 1,
            old(self).position() >= old(self).pixels().len() ==> r is None
                && final(self).position() == old(self).position(),
    {
        if self.offset >= self.total {
            return None;
        }
        let w = self.width;
        let h = self.atlas.height;
        let rw = self.atlas.data.len() / h;
        let k = self.offset;
        proof {
            assert(w > 0) by (nonlinear_arith)
                requires k < self.total, self.total == w * h;
            assert(k / w < h) by (nonlinear_arith)
                requires k < w * h, w > 0;
            assert(k % w < w) by (nonlinear_arith)
                requires w > 0;
            let y = k / w;
            let x = k % w;
            assert(rw * h == self.atlas.data@.len()) by (nonlinear_arith)
                requires rw == self.atlas.data@.len() as int / (h as int), self.atlas.data@.len() as int % (h as int) == 0, h > 0;
            assert(self.x_offset + y * rw + x < self.atlas.data@.len()) by (nonlinear_arith)
                requires y < h, x < w, self.x_offset + w <= rw, rw * h == self.atlas.data@.len();
        }
        let x = k % w;
        let y = k / w;
        let byte = self.atlas.data[self.x_offset + y * rw + x];
        self.offset = k + 1;
        Some((x, y, byte))
    }
}

} // verus!
