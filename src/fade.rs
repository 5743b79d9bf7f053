//! Fade-in compositing of the logo: while the fade lasts, frames are drawn
//! into a packed plane of 2-bit lightness codes and blitted darkened; once it
//! is over, they are drawn straight onto the surface.

use vstd::prelude::*;
use crate::rle::{decode_frame, frame_from, Command, DecodeError, DecodedFrame};
use crate::surface::{apply_writes, lemma_apply_writes_step, PixelWrite, Vbuf};

verus! {

/// How much the fade counter drops each frame.
pub const FADE_IN_STEP: u8 = 2;

/// Grey level of a lightness code.
pub open spec fn grey(code: u8) -> u8 {
    if code == 0 {
        0
    } else if code == 1 {
        0x55
    } else if code == 2 {
        0xAA
    } else {
        0xFF
    }
}

pub open spec fn saturating_sub_u8(a: u8, b: u8) -> u8 {
    if a > b {
        (a - b) as u8
    } else {
        0
    }
}

/// Grey level of a lightness code while the fade counter is at `fade`.
pub open spec fn faded(code: u8, fade: u8) -> u8 {
    saturating_sub_u8(grey(code), fade)
}

/// Code in slot `slot` (0 to 3) of a packed byte.
pub open spec fn slot_code(b: u8, slot: u8) -> u8 {
    (b >> (2 * slot) as u8) & 3u8
}

/// Grey level of a lightness code in `0..4`.
pub fn grey_of(code: u8) -> (r: u8)
    requires
        code < 4,
    ensures
        r == grey(code),
{
    if code == 0 {
        0
    } else if code == 1 {
        0x55
    } else if code == 2 {
        0xAA
    } else {
        0xFF
    }
}

/// Grey level of a lightness code in `0..4` while the fade counter is at `fade`.
pub fn faded_grey(code: u8, fade: u8) -> (r: u8)
    requires
        code < 4,
    ensures
        r == faded(code, fade),
{
    grey_of(code).saturating_sub(fade)
}

/// Lowering the fade counter never darkens a pixel, and with the counter
/// at 0 a code gets the same grey as when it is drawn directly.
pub proof fn lemma_fade_monotonic(code: u8, f1: u8, f2: u8)
    requires
        f1 <= f2,
    ensures
        faded(code, f2) <= faded(code, f1),
        faded(code, 0) == grey(code),
{
}

proof fn lemma_pack(b: u8, s: u8, c: u8, t: u8)
    requires
        s < 4,
        c < 4,
        t < 4,
    ensures
        slot_code((b & !(3u8 << (2 * s) as u8)) | (c << (2 * s) as u8), t) == if t == s {
            c
        } else {
            slot_code(b, t)
        },
{
    assert((((b & !(3u8 << (2 * s) as u8)) | (c << (2 * s) as u8)) >> (2 * t) as u8) & 3u8 == if t == s {
        c
    } else {
        (b >> (2 * t) as u8) & 3u8
    }) by (bit_vector)
        requires
            s < 4,
            c < 4,
            t < 4,
    ;
}

/// The logo's compositor: the fade counter, the plane of lightness codes,
/// and where the logo stands on the surface.
pub struct FadeCompositor {
    fade: u8,
    plane: Vec<u8>,
    width: usize,
    height: usize,
    left: usize,
    top: usize,
}

impl FadeCompositor {
    pub closed spec fn fade_view(self) -> u8 {
        self.fade
    }

    pub closed spec fn width_view(self) -> int {
        self.width as int
    }

    pub closed spec fn height_view(self) -> int {
        self.height as int
    }

    pub closed spec fn left_view(self) -> int {
        self.left as int
    }

    pub closed spec fn top_view(self) -> int {
        self.top as int
    }

    pub open spec fn size(self) -> int {
        self.width_view() * self.height_view()
    }

    /// The lightness code of each logo pixel held in the plane, row-major.
    pub closed spec fn codes(self) -> Seq<u8> {
        Seq::new(self.size() as nat, |k: int| slot_code(self.plane@[k / 4], (k % 4) as u8))
    }

    pub closed spec fn wf(self) -> bool {
        &&& self.width * self.height <= usize::MAX
        &&& self.plane@.len() * 4 >= self.width * self.height
        &&& self.left + self.width <= usize::MAX
        &&& self.top + self.height <= usize::MAX
    }

    /// Surface position of logo pixel `k`.
    pub open spec fn pixel_x(self, k: int) -> int {
        self.left_view() + k % self.width_view()
    }

    pub open spec fn pixel_y(self, k: int) -> int {
        self.top_view() + k / self.width_view()
    }

    /// The blit of the plane at the current fade level: every logo pixel,
    /// darkened by the fade counter.
    pub open spec fn blit_writes(self) -> Seq<PixelWrite> {
        Seq::new(
            self.size() as nat,
            |k: int| Some((self.pixel_x(k), self.pixel_y(k), faded(self.codes()[k], self.fade_view()))),
        )
    }

    /// Direct drawing of a decoded frame: each drawn pixel at its grey level.
    pub open spec fn direct_writes(self, pixels: Seq<Option<u8>>) -> Seq<PixelWrite> {
        Seq::new(
            pixels.len(),
            |k: int|
                match pixels[k] {
                    Some(code) => Some((self.pixel_x(k), self.pixel_y(k), grey(code % 4))),
                    None => None,
                },
        )
    }

    /// The plane's codes after the drawn pixels of a frame are stored.
    pub open spec fn overlay(codes: Seq<u8>, pixels: Seq<Option<u8>>) -> Seq<u8> {
        Seq::new(
            codes.len(),
            |k: int|
                match pixels[k] {
                    Some(code) => code % 4,
                    None => codes[k],
                },
        )
    }

    /// The fade counter after one more frame.
    pub open spec fn next_fade(fade: u8) -> u8 {
        saturating_sub_u8(fade, FADE_IN_STEP)
    }

    /// A compositor for a `width` x `height` logo whose top left corner
    /// stands at `(left, top)`, with the fade just begun and a blank plane.
    pub fn new(width: usize, height: usize, left: usize, top: usize) -> (r: FadeCompositor)
        requires
            width * height <= usize::MAX,
            left + width <= usize::MAX,
            top + height <= usize::MAX,
        ensures
            r.wf(),
            r.fade_view() == 255,
            r.width_view() == width,
            r.height_view() == height,
            r.left_view() == left,
            r.top_view() == top,
            forall|k: int| 0 <= k < r.size() ==> #[trigger] r.codes()[k] == 0,
    {
        let n: usize = width * height / 4 + 1;
        let mut plane: Vec<u8> = Vec::new();
        let mut i: usize = 0;
        while i < n
            invariant
                i <= n,
                plane@.len() == i,
                forall|j: int| 0 <= j < i ==> plane@[j] == 0,
            decreases n - i,
        {
            plane.push(0);
            i = i + 1;
        }
        let r = FadeCompositor { fade: 255, plane, width, height, left, top };
        assert forall|k: int| 0 <= k < r.size() implies #[trigger] r.codes()[k] == 0 by {
            let s = (k % 4) as u8;
            assert(k / 4 < n);
            assert((0u8 >> (2 * s) as u8) & 3u8 == 0) by (bit_vector);
        }
        r
    }

    /// The current fade counter; 0 once the fade is over.
    pub fn fade(&self) -> (r: u8)
        ensures
            r == self.fade_view(),
    {
        self.fade
    }

    /// The code of logo pixel `k`.
    fn code_at(&self, k: usize) -> (r: u8)
        requires
            self.wf(),
            k < self.size(),
        ensures
            r == self.codes()[k as int],
            r < 4,
    {
        let b = self.plane[k / 4];
        let s = (k % 4) as u8;
        assert((b >> (2 * s) as u8) & 3u8 < 4) by (bit_vector);
        (b >> (2 * s)) & 3
    }

    proof fn lemma_pixel_fits(self, k: int)
        requires
            self.wf(),
            0 <= k < self.size(),
        ensures
            0 <= k % self.width_view() < self.width_view(),
            0 <= k / self.width_view() < self.height_view(),
            self.pixel_x(k) <= usize::MAX,
            self.pixel_y(k) <= usize::MAX,
    {
        let w = self.width_view();
        let h = self.height_view();
        assert(w > 0 && h > 0) by (nonlinear_arith)
            requires 0 <= k < w * h, w >= 0, h >= 0;
        assert(0 <= k / w < h && 0 <= k % w < w) by (nonlinear_arith)
            requires 0 <= k < w * h, w > 0;
    }

    /// Every pixel that a frame of the logo writes, by the fade blit or by
    /// direct drawing, lies in the logo's box on the surface: pixel `k` of
    /// the frame, `k < width * height`, goes to column `left + k % width` and
    /// row `top + k / width`.
    pub proof fn lemma_writes_stay_in_logo_box(self, pixels: Seq<Option<u8>>, k: int)
        requires
            self.wf(),
            0 <= k < self.size(),
            pixels.len() == self.size(),
        ensures
            self.blit_writes()[k] matches Some((x, y, _)) ==> self.left_view() <= x < self.left_view()
                + self.width_view() && self.top_view() <= y < self.top_view() + self.height_view(),
            self.direct_writes(pixels)[k] matches Some((x, y, _)) ==> self.left_view() <= x < self.left_view()
                + self.width_view() && self.top_view() <= y < self.top_view() + self.height_view(),
    {
        self.lemma_pixel_fits(k);
    }

    /// Draws a decoded frame of the logo: while the fade lasts, the drawn
    /// pixels go into the plane and the whole plane is then blitted
    /// darkened by the fade counter; once it is over, the drawn pixels go
    /// straight onto the surface.
    pub fn draw_frame(&mut self, pixels: &Vec<Option<u8>>, vb: &mut Vbuf)
        requires
            old(self).wf(),
            old(vb).wf(),
            pixels@.len() == old(self).size(),
        ensures
            final(self).wf(),
            final(self).fade_view() == old(self).fade_view(),
            final(self).width_view() == old(self).width_view(),
            final(self).height_view() == old(self).height_view(),
            final(self).left_view() == old(self).left_view(),
            final(self).top_view() == old(self).top_view(),
            final(vb).wf(),
            final(vb).geometry() == old(vb).geometry(),
            old(self).fade_view() > 0 ==> final(self).codes() == Self::overlay(old(self).codes(), pixels@)
                && final(vb).frame() == apply_writes(old(vb).geometry(), old(vb).frame(), final(self).blit_writes()),
            old(self).fade_view() == 0 ==> final(self).codes() == old(self).codes() && final(vb).frame()
                == apply_writes(old(vb).geometry(), old(vb).frame(), old(self).direct_writes(pixels@)),
    {
        let n = self.width * self.height;
        let ghost g = vb.geometry();
        let ghost start = vb.frame();
        if self.fade > 0 {
            let ghost codes0 = self.codes();
            let mut k: usize = 0;
            while k < n
                invariant
                    self.wf(),
                    n == self.size(),
                    pixels@.len() == n,
                    k <= n,
                    self.fade_view() == old(self).fade_view(),
                    self.width_view() == old(self).width_view(),
                    self.height_view() == old(self).height_view(),
                    self.left_view() == old(self).left_view(),
                    self.top_view() == old(self).top_view(),
                    codes0 == old(self).codes(),
                    self.codes().len() == n,
                    forall|j: int| 0 <= j < n ==> #[trigger] self.codes()[j] == if j < k {
                        Self::overlay(codes0, pixels@)[j]
                    } else {
                        codes0[j]
                    },
                decreases n - k,
            {
                if let Some(code) = pixels[k] {
                    let c = code & 3;
                    assert(code & 3 == code % 4) by (bit_vector);
                    self.store_code(k, c);
                }
                k = k + 1;
            }
            assert(self.codes() =~= Self::overlay(codes0, pixels@));
            let ghost writes = self.blit_writes();
            let mut k: usize = 0;
            while k < n
                invariant
                    self.wf(),
                    n == self.size(),
                    k <= n,
                    writes == self.blit_writes(),
                    vb.wf(),
                    vb.geometry() == g,
                    vb.frame() == apply_writes(g, start, writes.take(k as int)),
                decreases n - k,
            {
                proof {
                    self.lemma_pixel_fits(k as int);
                    lemma_apply_writes_step(g, start, writes, k as int);
                }
                let code = self.code_at(k);
                let level = faded_grey(code, self.fade);
                vb.set_grey_pixel(self.left + k % self.width, self.top + k / self.width, level);
                k = k + 1;
            }
            assert(writes.take(n as int) =~= writes);
        } else {
            let ghost writes = self.direct_writes(pixels@);
            let mut k: usize = 0;
            while k < n
                invariant
                    self.wf(),
                    n == self.size(),
                    pixels@.len() == n,
                    k <= n,
                    writes == self.direct_writes(pixels@),
                    vb.wf(),
                    vb.geometry() == g,
                    vb.frame() == apply_writes(g, start, writes.take(k as int)),
                decreases n - k,
            {
                proof {
                    self.lemma_pixel_fits(k as int);
                    lemma_apply_writes_step(g, start, writes, k as int);
                }
                if let Some(code) = pixels[k] {
                    assert(code & 3 == code % 4) by (bit_vector);
                    let level = grey_of(code & 3);
                    vb.set_grey_pixel(self.left + k % self.width, self.top + k / self.width, level);
                }
                k = k + 1;
            }
            assert(writes.take(n as int) =~= writes);
        }
    }

    /// Runs the logo for one frame: lowers the fade counter, decodes the
    /// frame that starts at `pos` of the stream and draws it. Returns where
    /// the next frame starts, back at 0 once the stream is used up; a stream
    /// that does not hold a well-formed frame there is refused, with nothing
    /// drawn.
    pub fn run_frame(&mut self, cmds: &Vec<Command>, pos: usize, vb: &mut Vbuf) -> (r: Result<usize, DecodeError>)
        requires
            old(self).wf(),
            old(vb).wf(),
        ensures
            final(self).wf(),
            final(self).fade_view() == Self::next_fade(old(self).fade_view()),
            final(self).width_view() == old(self).width_view(),
            final(self).height_view() == old(self).height_view(),
            final(self).left_view() == old(self).left_view(),
            final(self).top_view() == old(self).top_view(),
            final(vb).wf(),
            final(vb).geometry() == old(vb).geometry(),
            match frame_from(cmds@, pos as int, old(self).width_view(), old(self).height_view()) {
                Ok((pixels, next)) => {
                    &&& r == Ok::<usize, DecodeError>(if next == cmds@.len() { 0 } else { next as usize })
                    &&& final(self).fade_view() > 0 ==> final(self).codes() == Self::overlay(old(self).codes(), pixels)
                        && final(vb).frame() == apply_writes(old(vb).geometry(), old(vb).frame(), final(self).blit_writes())
                    &&& final(self).fade_view() == 0 ==> final(self).codes() == old(self).codes() && final(vb).frame()
                        == apply_writes(old(vb).geometry(), old(vb).frame(), old(self).direct_writes(pixels))
                },
                Err(e) => {
                    &&& r == Err::<usize, DecodeError>(e)
                    &&& final(self).codes() == old(self).codes()
                    &&& final(vb).frame() == old(vb).frame()
                },
            },
    {
        self.fade = self.fade.saturating_sub(FADE_IN_STEP);
        match decode_frame(cmds, pos, self.width, self.height) {
            Ok(frame) => {
                proof {
                    assert(self.codes() =~= old(self).codes());
                    assert(self.direct_writes(frame.pixels@) =~= old(self).direct_writes(frame.pixels@));
                }
                self.draw_frame(&frame.pixels, vb);
                if frame.next == cmds.len() {
                    Ok(0)
                } else {
                    Ok(frame.next)
                }
            },
            Err(e) => {
                assert(self.codes() =~= old(self).codes());
                Err(e)
            },
        }
    }

    /// Stores lightness code `code` for logo pixel `k` in the plane.
    fn store_code(&mut self, k: usize, code: u8)
        requires
            old(self).wf(),
            k < old(self).size(),
            code < 4,
        ensures
            final(self).wf(),
            final(self).fade_view() == old(self).fade_view(),
            final(self).width_view() == old(self).width_view(),
            final(self).height_view() == old(self).height_view(),
            final(self).left_view() == old(self).left_view(),
            final(self).top_view() == old(self).top_view(),
            final(self).codes() == old(self).codes().update(k as int, code),
    {
        let byte_off = k / 4;
        let s = (k % 4) as u8;
        let b = self.plane[byte_off];
        let nb = (b & !(3u8 << (2 * s))) | (code << (2 * s));
        self.plane.set(byte_off, nb);
        proof {
            let old_codes = old(self).codes();
            assert forall|j: int| 0 <= j < self.size() implies #[trigger] self.codes()[j] == old_codes.update(
                k as int,
                code,
            )[j] by {
                lemma_pack(b, s, code, (j % 4) as u8);
                if j / 4 != k / 4 {
                    assert(self.plane@[j / 4] == old(self).plane@[j / 4]);
                } else if j != k {
                    assert(j % 4 != k % 4);
                }
            }
            assert(self.codes() =~= old_codes.update(k as int, code));
        }
    }
}

} // verus!
