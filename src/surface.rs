//! A greyscale drawing surface over a linear framebuffer whose rows may be
//! padded.

use vstd::prelude::*;

verus! {

/// Framebuffer layout as reported by the device.
#[derive(Clone, Copy, Debug, PartialEq, Eq)]
pub struct Geometry {
    /// Pixels per row.
    pub width: usize,
    /// Number of rows.
    pub height: usize,
    /// Bytes per row; may exceed `width * bytes_per_pixel` because of padding.
    pub stride: usize,
    /// Bits per pixel.
    pub bits_per_pixel: usize,
    /// Bits of the red channel.
    pub red_bits: usize,
    /// Bits of the green channel.
    pub green_bits: usize,
    /// Bits of the blue channel.
    pub blue_bits: usize,
}

/// Why a framebuffer layout cannot be drawn on.
#[derive(Clone, Copy, Debug, PartialEq, Eq)]
pub enum GeometryError {
    /// A pixel is not a whole number of bytes.
    NotByteAligned,
    /// The red channel is not 8 bits wide.
    RedChannel,
    /// The green channel is not 8 bits wide.
    GreenChannel,
    /// The blue channel is not 8 bits wide.
    BlueChannel,
    /// The memory region does not hold every pixel of the layout.
    BufferTooSmall,
}

pub open spec fn bytes_per_pixel(g: Geometry) -> int {
    g.bits_per_pixel as int / 8
}

/// First byte of pixel `(x, y)`.
pub open spec fn pixel_base(g: Geometry, x: int, y: int) -> int {
    y * g.stride + x * bytes_per_pixel(g)
}

/// Whether a region of `len` bytes holds the three colour bytes of every
/// pixel of the layout.
pub open spec fn region_fits(g: Geometry, len: int) -> bool {
    g.width == 0 || g.height == 0 || pixel_base(g, g.width - 1, g.height - 1) + 3 <= len
}

/// The error that a layout and a region of `len` bytes give, checked in
/// this order, or `None` when they can be drawn on.
pub open spec fn geometry_error(g: Geometry, len: int) -> Option<GeometryError> {
    if g.bits_per_pixel % 8 != 0 {
        Some(GeometryError::NotByteAligned)
    } else if g.red_bits != 8 {
        Some(GeometryError::RedChannel)
    } else if g.green_bits != 8 {
        Some(GeometryError::GreenChannel)
    } else if g.blue_bits != 8 {
        Some(GeometryError::BlueChannel)
    } else if !region_fits(g, len) {
        Some(GeometryError::BufferTooSmall)
    } else {
        None
    }
}

pub open spec fn clamp(v: int, lo: int, hi: int) -> int {
    if v < lo {
        lo
    } else if v > hi {
        hi
    } else {
        v
    }
}

pub open spec fn on_surface(g: Geometry, x: int, y: int) -> bool {
    0 <= x < g.width && 0 <= y < g.height
}

/// Whether byte `i` is one of the three colour bytes of pixel `(x, y)`.
pub open spec fn touches(g: Geometry, x: int, y: int, i: int) -> bool {
    pixel_base(g, x, y) <= i < pixel_base(g, x, y) + 3
}

/// `d` after pixel `(x, y)` is set to `level`; nothing changes for a pixel
/// off the surface.
pub open spec fn with_pixel(g: Geometry, d: Seq<u8>, x: int, y: int, level: u8) -> Seq<u8> {
    if on_surface(g, x, y) {
        let b = pixel_base(g, x, y);
        d.update(b, level).update(b + 1, level).update(b + 2, level)
    } else {
        d
    }
}

/// A pixel write: `(x, y, level)`, or `None` for a pixel left alone.
pub type PixelWrite = Option<(int, int, u8)>;

/// `d` after the writes of `w`, in order.
pub open spec fn apply_writes(g: Geometry, d: Seq<u8>, w: Seq<PixelWrite>) -> Seq<u8>
    decreases w.len(),
{
    if w.len() == 0 {
        d
    } else {
        let before = apply_writes(g, d, w.drop_last());
        match w.last() {
            Some((x, y, level)) => with_pixel(g, before, x, y, level),
            None => before,
        }
    }
}

/// The writes of `w` up to and including its `k`-th, given those before it.
pub proof fn lemma_apply_writes_step(g: Geometry, d: Seq<u8>, w: Seq<PixelWrite>, k: int)
    requires
        0 <= k < w.len(),
    ensures
        apply_writes(g, d, w.take(k + 1)) == match w[k] {
            Some((x, y, level)) => with_pixel(g, apply_writes(g, d, w.take(k)), x, y, level),
            None => apply_writes(g, d, w.take(k)),
        },
{
    assert(w.take(k + 1).drop_last() =~= w.take(k));
}

/// Whether byte `i` belongs to a pixel of row `y` with `xa <= x <= xb`.
pub open spec fn row_covers(g: Geometry, xa: int, xb: int, y: int, i: int) -> bool
    decreases xb - xa + 1,
{
    if xb < xa {
        false
    } else {
        row_covers(g, xa, xb - 1, y, i) || touches(g, xb, y, i)
    }
}

/// Whether byte `i` belongs to a pixel of the rectangle `[xa, xb] x [ya, yb]`.
pub open spec fn rect_covers(g: Geometry, xa: int, xb: int, ya: int, yb: int, i: int) -> bool
    decreases yb - ya + 1,
{
    if yb < ya {
        false
    } else {
        rect_covers(g, xa, xb, ya, yb - 1, i) || row_covers(g, xa, xb, yb, i)
    }
}

/// Bytes written by a filled box from `(x1, y1)` to `(x2, y2)`: nothing when
/// the first corner is off the surface, else the rectangle with the far
/// corner clamped onto the surface.
pub open spec fn fill_covers(g: Geometry, x1: int, y1: int, x2: int, y2: int, i: int) -> bool {
    x1 < g.width && y1 < g.height && rect_covers(
        g,
        x1,
        clamp(x2, x1, g.width - 1),
        y1,
        clamp(y2, y1, g.height - 1),
        i,
    )
}

pub open spec fn hline_covers(g: Geometry, x1: int, x2: int, y: int, i: int) -> bool {
    fill_covers(g, x1, y, x2, y, i)
}

pub open spec fn vline_covers(g: Geometry, x: int, y1: int, y2: int, i: int) -> bool {
    fill_covers(g, x, y1, x, y2, i)
}

/// `d` after the filled box from `(x1, y1)` to `(x2, y2)` is drawn at `level`.
pub open spec fn fill_result(g: Geometry, d: Seq<u8>, x1: int, y1: int, x2: int, y2: int, level: u8) -> Seq<u8> {
    Seq::new(d.len(), |i: int| if fill_covers(g, x1, y1, x2, y2, i) { level } else { d[i] })
}

/// Bytes written by the outline of a box: nothing when its origin is off
/// the surface, else its four edges, each drawn as a line that is clipped on
/// its own.
pub open spec fn box_covers(g: Geometry, x1: int, y1: int, x2: int, y2: int, i: int) -> bool {
    &&& x1 < g.width
    &&& y1 < g.height
    &&& hline_covers(g, x1, x2, y1, i) || hline_covers(g, x1, x2, y2, i) || vline_covers(g, x1, y1, y2, i)
        || vline_covers(g, x2, y1, y2, i)
}

proof fn lemma_row_covers_within(g: Geometry, xa: int, xb: int, y: int, i: int)
    requires
        row_covers(g, xa, xb, y, i),
    ensures
        exists|x: int| xa <= x <= xb && touches(g, x, y, i),
    decreases xb - xa + 1,
{
    if !touches(g, xb, y, i) {
        lemma_row_covers_within(g, xa, xb - 1, y, i);
    }
}

proof fn lemma_rect_covers_within(g: Geometry, xa: int, xb: int, ya: int, yb: int, i: int)
    requires
        rect_covers(g, xa, xb, ya, yb, i),
    ensures
        exists|x: int, y: int| xa <= x <= xb && ya <= y <= yb && touches(g, x, y, i),
    decreases yb - ya + 1,
{
    if row_covers(g, xa, xb, yb, i) {
        lemma_row_covers_within(g, xa, xb, yb, i);
    } else {
        lemma_rect_covers_within(g, xa, xb, ya, yb - 1, i);
    }
}

proof fn lemma_rect_on_surface(g: Geometry, xa: int, xb: int, ya: int, yb: int, i: int)
    requires
        rect_covers(g, xa, xb, ya, yb, i),
        0 <= xa && xb < g.width && 0 <= ya && yb < g.height,
    ensures
        exists|x: int, y: int| on_surface(g, x, y) && touches(g, x, y, i),
{
    lemma_rect_covers_within(g, xa, xb, ya, yb, i);
    let (x, y) = choose|x: int, y: int| xa <= x <= xb && ya <= y <= yb && touches(g, x, y, i);
    assert(on_surface(g, x, y) && touches(g, x, y, i));
}

/// A filled box, or the outline of a box, only writes bytes that belong to
/// pixels on the surface, whatever its corners: the far corner is clamped
/// onto the surface.
pub proof fn lemma_boxes_stay_on_surface(g: Geometry, x1: int, y1: int, x2: int, y2: int, i: int)
    requires
        0 <= x1 && 0 <= y1 && 0 <= x2 && 0 <= y2,
        fill_covers(g, x1, y1, x2, y2, i) || box_covers(g, x1, y1, x2, y2, i),
    ensures
        exists|x: int, y: int| on_surface(g, x, y) && touches(g, x, y, i),
{
    let w = g.width as int;
    let h = g.height as int;
    if fill_covers(g, x1, y1, x2, y2, i) {
        lemma_rect_on_surface(g, x1, clamp(x2, x1, w - 1), y1, clamp(y2, y1, h - 1), i);
    } else if hline_covers(g, x1, x2, y1, i) {
        lemma_rect_on_surface(g, x1, clamp(x2, x1, w - 1), y1, y1, i);
    } else if hline_covers(g, x1, x2, y2, i) {
        lemma_rect_on_surface(g, x1, clamp(x2, x1, w - 1), y2, y2, i);
    } else if vline_covers(g, x1, y1, y2, i) {
        lemma_rect_on_surface(g, x1, x1, y1, clamp(y2, y1, h - 1), i);
    } else {
        lemma_rect_on_surface(g, x2, x2, y1, clamp(y2, y1, h - 1), i);
    }
}

/// A filled box, or the outline of a box, writes nothing when its origin is
/// off the surface, wherever its far corner lies.
pub proof fn lemma_box_off_surface_writes_nothing(g: Geometry, x1: int, y1: int, x2: int, y2: int, i: int)
    requires
        x1 >= g.width || y1 >= g.height,
    ensures
        !fill_covers(g, x1, y1, x2, y2, i),
        !box_covers(g, x1, y1, x2, y2, i),
{
}

/// A framebuffer that every draw writes as grey: the same level in the
/// first three bytes of a pixel.
pub struct Vbuf {
    geom: Geometry,
    data: Vec<u8>,
}

impl Vbuf {
    pub closed spec fn geometry(self) -> Geometry {
        self.geom
    }

    /// The bytes of the framebuffer.
    pub closed spec fn frame(self) -> Seq<u8> {
        self.data@
    }

    pub open spec fn wf(self) -> bool {
        &&& geometry_error(self.geometry(), self.frame().len() as int) is None
        &&& self.frame().len() <= usize::MAX
    }

    pub open spec fn in_bounds(self, x: int, y: int) -> bool {
        on_surface(self.geometry(), x, y)
    }

    /// Makes a surface over `data` for the layout `geom`, refusing layouts
    /// that are not 8-bit RGB with whole-byte pixels, and regions too small
    /// for the layout.
    pub fn new(geom: Geometry, data: Vec<u8>) -> (r: Result<Vbuf, GeometryError>)
        ensures
            match r {
                Ok(v) => geometry_error(geom, data@.len() as int) is None && v.wf() && v.geometry() == geom
                    && v.frame() == data@,
                Err(e) => geometry_error(geom, data@.len() as int) == Some(e),
            },
    {
        let len = data.len();
        if geom.bits_per_pixel % 8 != 0 {
            return Err(GeometryError::NotByteAligned);
        }
        if geom.red_bits != 8 {
            return Err(GeometryError::RedChannel);
        }
        if geom.green_bits != 8 {
            return Err(GeometryError::GreenChannel);
        }
        if geom.blue_bits != 8 {
            return Err(GeometryError::BlueChannel);
        }
        if geom.width > 0 && geom.height > 0 {
            let bpp = geom.bits_per_pixel / 8;
            let row = (geom.height - 1).checked_mul(geom.stride);
            let col = (geom.width - 1).checked_mul(bpp);
            let fits = match (row, col) {
                (Some(r), Some(c)) => match r.checked_add(c) {
                    Some(b) => b < len && len - b >= 3,
                    None => false,
                },
                _ => false,
            };
            if !fits {
                proof {
                    let g = geom;
                    assert((g.height - 1) * g.stride >= 0 && (g.width - 1) * bpp >= 0) by (nonlinear_arith)
                        requires g.height >= 1, g.width >= 1, bpp >= 0;
                }
                return Err(GeometryError::BufferTooSmall);
            }
        }
        Ok(Vbuf { geom, data })
    }

    /// The layout of the surface.
    pub fn geometry_of(&self) -> (r: Geometry)
        ensures
            r == self.geometry(),
    {
        self.geom
    }

    /// The bytes of the framebuffer.
    pub fn bytes(&self) -> (r: &Vec<u8>)
        ensures
            r@ == self.frame(),
    {
        &self.data
    }

    proof fn lemma_base_in_region(self, x: int, y: int)
        requires
            self.wf(),
            self.in_bounds(x, y),
        ensures
            0 <= y * self.geometry().stride,
            0 <= x * bytes_per_pixel(self.geometry()),
            0 <= pixel_base(self.geometry(), x, y),
            pixel_base(self.geometry(), x, y) + 3 <= self.frame().len(),
    {
        let g = self.geometry();
        let bpp = bytes_per_pixel(g);
        assert(0 <= y * g.stride <= (g.height - 1) * g.stride) by (nonlinear_arith)
            requires 0 <= y < g.height, g.stride >= 0;
        assert(0 <= x * bpp <= (g.width - 1) * bpp) by (nonlinear_arith)
            requires 0 <= x < g.width, bpp >= 0;
    }

    /// Writes `level` into the colour bytes of a pixel that lies on the surface.
    fn put_pixel(&mut self, x: usize, y: usize, level: u8)
        requires
            old(self).wf(),
            old(self).in_bounds(x as int, y as int),
        ensures
            final(self).geometry() == old(self).geometry(),
            final(self).frame() == with_pixel(old(self).geometry(), old(self).frame(), x as int, y as int, level),
            final(self).frame().len() == old(self).frame().len(),
            forall|i: int|
                0 <= i < old(self).frame().len() ==> #[trigger] final(self).frame()[i] == if touches(old(self).geometry(), 
                    x as int,
                    y as int,
                    i,
                ) {
                    level
                } else {
                    old(self).frame()[i]
                },
    {
        proof {
            self.lemma_base_in_region(x as int, y as int);
        }
        let base = y * self.geom.stride + x * (self.geom.bits_per_pixel / 8);
        self.data.set(base, level);
        self.data.set(base + 1, level);
        self.data.set(base + 2, level);
    }

    /// Sets a pixel to a grey level; does nothing for a pixel off the surface.
    pub fn set_grey_pixel(&mut self, x: usize, y: usize, level: u8)
        requires
            old(self).wf(),
        ensures
            final(self).geometry() == old(self).geometry(),
            final(self).frame().len() == old(self).frame().len(),
            final(self).frame() == with_pixel(old(self).geometry(), old(self).frame(), x as int, y as int, level),
    {
        if x >= self.geom.width || y >= self.geom.height {
            return;
        }
        self.put_pixel(x, y, level);
    }

    /// Sets every pixel of the rectangle `[xa, xb] x [ya, yb]`, which lies on
    /// the surface, to `level`.
    fn paint_rect(&mut self, xa: usize, xb: usize, ya: usize, yb: usize, level: u8)
        requires
            old(self).wf(),
            xa <= xb < old(self).geometry().width,
            ya <= yb < old(self).geometry().height,
        ensures
            final(self).geometry() == old(self).geometry(),
            final(self).frame().len() == old(self).frame().len(),
            forall|i: int|
                0 <= i < old(self).frame().len() ==> #[trigger] final(self).frame()[i] == if rect_covers(old(self).geometry(), 
                    xa as int,
                    xb as int,
                    ya as int,
                    yb as int,
                    i,
                ) {
                    level
                } else {
                    old(self).frame()[i]
                },
    {
        let ghost start = self.frame();
        let mut y: usize = ya;
        while y <= yb
            invariant
                self.wf(),
                self.geometry() == old(self).geometry(),
                start == old(self).frame(),
                xa <= xb < self.geometry().width,
                ya <= yb < self.geometry().height,
                ya <= y <= yb + 1,
                self.frame().len() == start.len(),
                forall|i: int|
                    0 <= i < start.len() ==> #[trigger] self.frame()[i] == if rect_covers(self.geometry(), 
                        xa as int,
                        xb as int,
                        ya as int,
                        y - 1,
                        i,
                    ) {
                        level
                    } else {
                        start[i]
                    },
            decreases yb + 1 - y,
        {
            let mut x: usize = xa;
            while x <= xb
                invariant
                    self.wf(),
                    self.geometry() == old(self).geometry(),
                    xa <= xb < self.geometry().width,
                    ya <= y <= yb < self.geometry().height,
                    xa <= x <= xb + 1,
                    self.frame().len() == start.len(),
                    forall|i: int|
                        0 <= i < start.len() ==> #[trigger] self.frame()[i] == if rect_covers(self.geometry(), 
                            xa as int,
                            xb as int,
                            ya as int,
                            y - 1,
                            i,
                        ) || row_covers(self.geometry(), xa as int, x - 1, y as int, i) {
                            level
                        } else {
                            start[i]
                        },
                decreases xb + 1 - x,
            {
                self.put_pixel(x, y, level);
                assert forall|i: int| #[trigger] row_covers(self.geometry(), xa as int, x as int, y as int, i) == (
                row_covers(self.geometry(), xa as int, x - 1, y as int, i) || touches(
                    self.geometry(),
                    x as int,
                    y as int,
                    i,
                )) by {}
                x = x + 1;
            }
            assert forall|i: int| #[trigger] rect_covers(self.geometry(), xa as int, xb as int, ya as int, y as int, i)
                == (rect_covers(self.geometry(), xa as int, xb as int, ya as int, y - 1, i) || row_covers(
                self.geometry(),
                xa as int,
                xb as int,
                y as int,
                i,
            )) by {}
            y = y + 1;
        }
    }

    /// Draws a vertical line from `(x, y1)` to `(x, y2)`; nothing when its
    /// first end is off the surface, and `y2` is clamped onto it.
    pub fn draw_vline(&mut self, x: usize, y1: usize, y2: usize, level: u8)
        requires
            old(self).wf(),
        ensures
            final(self).geometry() == old(self).geometry(),
            final(self).frame().len() == old(self).frame().len(),
            forall|i: int|
                0 <= i < old(self).frame().len() ==> #[trigger] final(self).frame()[i] == if vline_covers(old(self).geometry(), x as int, y1 as int, y2 as int, i) {
                    level
                } else {
                    old(self).frame()[i]
                },
    {
        if x >= self.geom.width || y1 >= self.geom.height {
            return;
        }
        let y2 = clamp_usize(y2, y1, self.geom.height - 1);
        self.paint_rect(x, x, y1, y2, level);
    }

    /// Draws a horizontal line from `(x1, y)` to `(x2, y)`; nothing when its
    /// first end is off the surface, and `x2` is clamped onto it.
    pub fn draw_hline(&mut self, x1: usize, x2: usize, y: usize, level: u8)
        requires
            old(self).wf(),
        ensures
            final(self).geometry() == old(self).geometry(),
            final(self).frame().len() == old(self).frame().len(),
            forall|i: int|
                0 <= i < old(self).frame().len() ==> #[trigger] final(self).frame()[i] == if hline_covers(old(self).geometry(), x1 as int, x2 as int, y as int, i) {
                    level
                } else {
                    old(self).frame()[i]
                },
    {
        if x1 >= self.geom.width || y >= self.geom.height {
            return;
        }
        let x2 = clamp_usize(x2, x1, self.geom.width - 1);
        self.paint_rect(x1, x2, y, y, level);
    }

    /// Draws the outline of the box from `(x1, y1)` to `(x2, y2)` as four
    /// lines; nothing when `(x1, y1)` is off the surface.
    pub fn draw_box(&mut self, x1: usize, y1: usize, x2: usize, y2: usize, level: u8)
        requires
            old(self).wf(),
        ensures
            final(self).geometry() == old(self).geometry(),
            final(self).frame().len() == old(self).frame().len(),
            forall|i: int|
                0 <= i < old(self).frame().len() ==> #[trigger] final(self).frame()[i] == if box_covers(old(self).geometry(), x1 as int, y1 as int, x2 as int, y2 as int, i) {
                    level
                } else {
                    old(self).frame()[i]
                },
            x1 >= old(self).geometry().width || y1 >= old(self).geometry().height ==> final(self).frame() == old(
                self,
            ).frame(),
    {
        if x1 >= self.geom.width || y1 >= self.geom.height {
            return;
        }
        self.draw_hline(x1, x2, y1, level);
        self.draw_hline(x1, x2, y2, level);
        self.draw_vline(x1, y1, y2, level);
        self.draw_vline(x2, y1, y2, level);
    }

    /// Fills the box from `(x1, y1)` to `(x2, y2)` with `level`: nothing
    /// when `(x1, y1)` is off the surface, and the far corner is clamped
    /// onto it.
    pub fn fill_box(&mut self, x1: usize, y1: usize, x2: usize, y2: usize, level: u8)
        requires
            old(self).wf(),
        ensures
            final(self).geometry() == old(self).geometry(),
            final(self).frame().len() == old(self).frame().len(),
            forall|i: int|
                0 <= i < old(self).frame().len() ==> #[trigger] final(self).frame()[i] == if fill_covers(old(self).geometry(), x1 as int, y1 as int, x2 as int, y2 as int, i) {
                    level
                } else {
                    old(self).frame()[i]
                },
            x1 >= old(self).geometry().width || y1 >= old(self).geometry().height ==> final(self).frame() == old(
                self,
            ).frame(),
            final(self).frame() == fill_result(
                old(self).geometry(),
                old(self).frame(),
                x1 as int,
                y1 as int,
                x2 as int,
                y2 as int,
                level,
            ),
    {
        if x1 >= self.geom.width || y1 >= self.geom.height {
            assert(self.frame() =~= fill_result(self.geometry(), self.frame(), x1 as int, y1 as int, x2 as int, y2 as int, level));
            return;
        }
        let cx2 = clamp_usize(x2, x1, self.geom.width - 1);
        let cy2 = clamp_usize(y2, y1, self.geom.height - 1);
        self.paint_rect(x1, cx2, y1, cy2, level);
        assert(self.frame() =~= fill_result(old(self).geometry(), old(self).frame(), x1 as int, y1 as int, x2 as int, y2 as int, level));
    }
}

/// `v` limited to `[lo, hi]`.
fn clamp_usize(v: usize, lo: usize, hi: usize) -> (r: usize)
    requires
        lo <= hi,
    ensures
        r == clamp(v as int, lo as int, hi as int),
{
    if v < lo {
        lo
    } else if v > hi {
        hi
    } else {
        v
    }
}

} // verus!
