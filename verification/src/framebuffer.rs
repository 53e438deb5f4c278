//! The framebuffer as a grid of packed pixel words.
//!
//! Every drawing operation of the desktop goes through this type. It keeps
//! one packed 32-bit word per pixel, in the channel layout that the display
//! reports (one bit offset per channel); the caller copies the grid to the
//! display memory at `byte_offset` of each pixel.
use vstd::prelude::*;
use crate::theme::{Color, blend_spec};

verus! {

/// The abstract picture held by a framebuffer: its size, its channel
/// layout and the packed word of every pixel (0 outside the picture).
#[verifier::ext_equal]
pub struct Raster {
    pub width: int,
    pub height: int,
    pub red_shift: u8,
    pub green_shift: u8,
    pub blue_shift: u8,
    pub px: spec_fn(int, int) -> u32,
}

impl Raster {
    pub open spec fn in_bounds(self, x: int, y: int) -> bool {
        0 <= x < self.width && 0 <= y < self.height
    }

    /// The packed word of a colour in this layout (its alpha is dropped).
    pub open spec fn pack(self, c: Color) -> u32 {
        (((c.r as u32) << self.red_shift) | ((c.g as u32) << self.green_shift)) | ((c.b as u32)
            << self.blue_shift)
    }

    /// The opaque colour that a packed word holds in this layout.
    pub open spec fn unpack(self, w: u32) -> Color {
        Color {
            r: ((w >> self.red_shift) & 0xff) as u8,
            g: ((w >> self.green_shift) & 0xff) as u8,
            b: ((w >> self.blue_shift) & 0xff) as u8,
            a: 255,
        }
    }

    /// The colour that reading pixel (x, y) gives: black outside the picture.
    pub open spec fn color_at(self, x: int, y: int) -> Color {
        if self.in_bounds(x, y) {
            self.unpack((self.px)(x, y))
        } else {
            Color { r: 0, g: 0, b: 0, a: 255 }
        }
    }

    /// The same picture with the packed word `w` at (x, y), if that pixel exists.
    pub open spec fn with_word(self, x: int, y: int, w: u32) -> Raster {
        Raster {
            px: |a: int, b: int|
                if a == x && b == y && self.in_bounds(x, y) {
                    w
                } else {
                    (self.px)(a, b)
                },
            ..self
        }
    }

    /// Writing colour `c` at (x, y).
    pub open spec fn with_pixel(self, x: int, y: int, c: Color) -> Raster {
        self.with_word(x, y, self.pack(c))
    }

    /// Blending colour `c` over the pixel at (x, y).
    pub open spec fn with_blended(self, x: int, y: int, c: Color) -> Raster {
        self.with_pixel(x, y, blend_spec(c, self.color_at(x, y)))
    }

    pub open spec fn in_rect(x: int, y: int, x0: int, y0: int, w: int, h: int) -> bool {
        x0 <= x < x0 + w && y0 <= y < y0 + h
    }

    /// Every pixel of the rectangle (clipped to the picture) set to `c`.
    pub open spec fn fill(self, x0: int, y0: int, w: int, h: int, c: Color) -> Raster {
        Raster {
            px: |a: int, b: int|
                if self.in_bounds(a, b) && Self::in_rect(a, b, x0, y0, w, h) {
                    self.pack(c)
                } else {
                    (self.px)(a, b)
                },
            ..self
        }
    }

    /// Every pixel of the rectangle (clipped to the picture) blended with `c`.
    pub open spec fn fill_blended(self, x0: int, y0: int, w: int, h: int, c: Color) -> Raster {
        Raster {
            px: |a: int, b: int|
                if self.in_bounds(a, b) && Self::in_rect(a, b, x0, y0, w, h) {
                    self.pack(blend_spec(c, self.color_at(a, b)))
                } else {
                    (self.px)(a, b)
                },
            ..self
        }
    }

    /// The rectangle's full rows `0..rows` and, in row `rows`, its columns up
    /// to `x`: the part of a fill that is done after a row-major prefix.
    pub open spec fn done_part(a: int, b: int, x0: int, y0: int, w: int, rows: int, x: int) -> bool {
        Self::in_rect(a, b, x0, y0, w, rows) || (b == y0 + rows && x0 <= a < x)
    }

    pub open spec fn fill_upto(self, x0: int, y0: int, w: int, rows: int, x: int, c: Color) -> Raster {
        Raster {
            px: |a: int, b: int|
                if self.in_bounds(a, b) && Self::done_part(a, b, x0, y0, w, rows, x) {
                    self.pack(c)
                } else {
                    (self.px)(a, b)
                },
            ..self
        }
    }

    pub open spec fn fill_blended_upto(self, x0: int, y0: int, w: int, rows: int, x: int, c: Color) -> Raster {
        Raster {
            px: |a: int, b: int|
                if self.in_bounds(a, b) && Self::done_part(a, b, x0, y0, w, rows, x) {
                    self.pack(blend_spec(c, self.color_at(a, b)))
                } else {
                    (self.px)(a, b)
                },
            ..self
        }
    }

    /// Every pixel (a, b) with a < w and b < h, within the picture, set to `f(a, b)`.
    pub open spec fn paint(self, w: int, h: int, f: spec_fn(int, int) -> Color) -> Raster {
        Raster {
            px: |a: int, b: int|
                if self.in_bounds(a, b) && 0 <= a < w && 0 <= b < h {
                    self.pack(f(a, b))
                } else {
                    (self.px)(a, b)
                },
            ..self
        }
    }

    /// The part of `paint` done after rows `0..rows` and, in row `rows`,
    /// columns `0..x`.
    pub open spec fn paint_upto(self, w: int, rows: int, x: int, f: spec_fn(int, int) -> Color) -> Raster {
        Raster {
            px: |a: int, b: int|
                if self.in_bounds(a, b) && 0 <= a < w && 0 <= b && (b < rows || (b == rows && a < x)) {
                    self.pack(f(a, b))
                } else {
                    (self.px)(a, b)
                },
            ..self
        }
    }

    /// This picture with the rectangle at (x0, y0) of size w x h (clipped to
    /// the picture) taken from `other`, and every other pixel kept.
    pub open spec fn with_rect_from(self, other: Raster, x0: int, y0: int, w: int, h: int) -> Raster {
        Raster {
            px: |a: int, b: int|
                if self.in_bounds(a, b) && Self::in_rect(a, b, x0, y0, w, h) {
                    (other.px)(a, b)
                } else {
                    (self.px)(a, b)
                },
            ..self
        }
    }

    /// The part of `with_rect_from` done after a row-major prefix.
    pub open spec fn with_rect_from_upto(self, other: Raster, x0: int, y0: int, w: int, rows: int, x: int) -> Raster {
        Raster {
            px: |a: int, b: int|
                if self.in_bounds(a, b) && Self::done_part(a, b, x0, y0, w, rows, x) {
                    (other.px)(a, b)
                } else {
                    (self.px)(a, b)
                },
            ..self
        }
    }

    /// Same size and channel layout.
    pub open spec fn same_frame(self, other: Raster) -> bool {
        &&& self.width == other.width
        &&& self.height == other.height
        &&& self.red_shift == other.red_shift
        &&& self.green_shift == other.green_shift
        &&& self.blue_shift == other.blue_shift
    }
}

pub struct Framebuffer {
    pixels: Vec<u32>,
    pub width: usize,
    pub height: usize,
    pitch: usize,
    bpp: usize,
    red_shift: u8,
    green_shift: u8,
    blue_shift: u8,
}

proof fn lemma_index_in_range(x: int, y: int, w: int, h: int)
    requires
        0 <= x < w,
        0 <= y < h,
    ensures
        0 <= y * w + x < w * h,
{
    assert(0 <= y * w + x < w * h) by (nonlinear_arith)
        requires 0 <= x < w, 0 <= y < h;
}

proof fn lemma_index_injective(x1: int, y1: int, x2: int, y2: int, w: int)
    requires
        0 <= x1 < w,
        0 <= x2 < w,
        0 <= y1,
        0 <= y2,
        y1 * w + x1 == y2 * w + x2,
    ensures
        x1 == x2,
        y1 == y2,
{
    vstd::arithmetic::div_mod::lemma_fundamental_div_mod_converse(y1 * w + x1, w, y1, x1);
    vstd::arithmetic::div_mod::lemma_fundamental_div_mod_converse(y2 * w + x2, w, y2, x2);
}

/// A framebuffer's size is never negative.
pub broadcast proof fn lemma_view_size(fb: &Framebuffer)
    ensures
        0 <= #[trigger] fb.view().width <= usize::MAX,
        0 <= fb.view().height <= usize::MAX,
{
}

/// Byte `k` (0..=3) of `w`, least significant first.
pub open spec fn le_byte(w: u32, k: int) -> u8 {
    if k == 0 {
        (w & 0xff) as u8
    } else if k == 1 {
        ((w >> 8u32) & 0xff) as u8
    } else if k == 2 {
        ((w >> 16u32) & 0xff) as u8
    } else {
        ((w >> 24u32) & 0xff) as u8
    }
}

/// Display memory after the 32-bit word `w` is stored little-endian at byte
/// `off`; bytes past the end of the memory are not stored.
pub open spec fn store_word(mem: Seq<u8>, off: int, w: u32) -> Seq<u8> {
    Seq::new(mem.len(), |i: int| if off <= i < off + 4 { le_byte(w, i - off) } else { mem[i] })
}

/// Display memory after the pixels of rows `0..y` and of row `y` up to
/// column `x` are stored, one after the other, each as a 32-bit word at
/// byte `row * pitch + column * (bpp / 8)`. Below 32 bits per pixel each
/// word reaches into the next pixel's bytes, which that pixel's own store
/// then overwrites.
pub open spec fn stored_upto(r: Raster, pitch: int, bpp: int, mem: Seq<u8>, y: int, x: int) -> Seq<u8>
    decreases y, x,
{
    if x > 0 {
        store_word(stored_upto(r, pitch, bpp, mem, y, x - 1), y * pitch + (x - 1) * (bpp / 8), (r.px)(x - 1, y))
    } else if y > 0 {
        stored_upto(r, pitch, bpp, mem, y - 1, r.width)
    } else {
        mem
    }
}

/// A framebuffer's picture holds nothing outside its bounds.
pub proof fn lemma_view_outside(fb: &Framebuffer)
    ensures
        forall|a: int, b: int| !fb.view().in_bounds(a, b) ==> #[trigger] (fb.view().px)(a, b) == 0u32,
{
}

impl Framebuffer {
    /// The layout invariant: one word per pixel, channel offsets inside a word.
    pub closed spec fn wf(&self) -> bool {
        &&& self.pixels@.len() == self.width * self.height
        &&& self.red_shift < 32
        &&& self.green_shift < 32
        &&& self.blue_shift < 32
    }

    pub closed spec fn view(&self) -> Raster {
        Raster {
            width: self.width as int,
            height: self.height as int,
            red_shift: self.red_shift,
            green_shift: self.green_shift,
            blue_shift: self.blue_shift,
            px: |x: int, y: int|
                if 0 <= x < self.width && 0 <= y < self.height {
                    self.pixels@[y * self.width + x]
                } else {
                    0u32
                },
        }
    }

    pub closed spec fn spec_pitch(&self) -> usize {
        self.pitch
    }

    pub closed spec fn spec_bpp(&self) -> usize {
        self.bpp
    }

    /// A black framebuffer of `width` x `height` pixels; `pitch` (bytes per
    /// row) and `bpp` (bits per pixel) describe the display memory, and the
    /// shifts give each channel's bit offset inside a pixel word.
    pub fn new(
        width: usize,
        height: usize,
        pitch: usize,
        bpp: usize,
        red_shift: u8,
        green_shift: u8,
        blue_shift: u8,
    ) -> (fb: Framebuffer)
        requires
            width * height <= usize::MAX,
            red_shift < 32,
            green_shift < 32,
            blue_shift < 32,
        ensures
            fb.wf(),
            fb.spec_pitch() == pitch,
            fb.spec_bpp() == bpp,
            fb.view().width == width,
            fb.view().height == height,
            fb.view().red_shift == red_shift,
            fb.view().green_shift == green_shift,
            fb.view().blue_shift == blue_shift,
            forall|x: int, y: int| #[trigger] (fb.view().px)(x, y) == 0u32,
    {
        let n = width * height;
        let pixels: Vec<u32> = vec![0u32; n];
        let fb = Framebuffer { pixels, width, height, pitch, bpp, red_shift, green_shift, blue_shift };
        assert forall|x: int, y: int| #[trigger] (fb.view().px)(x, y) == 0u32 by {
            if 0 <= x < width && 0 <= y < height {
                lemma_index_in_range(x, y, width as int, height as int);
            }
        }
        fb
    }

    pub fn width(&self) -> (w: usize)
        ensures
            w == self.view().width,
    {
        self.width
    }

    pub fn height(&self) -> (h: usize)
        ensures
            h == self.view().height,
    {
        self.height
    }

    pub fn pitch(&self) -> (p: usize)
        ensures
            p == self.spec_pitch(),
    {
        self.pitch
    }

    pub fn bpp(&self) -> (b: usize)
        ensures
            b == self.spec_bpp(),
    {
        self.bpp
    }

    /// Where pixel (x, y) starts in the display memory, in bytes.
    pub fn byte_offset(&self, x: usize, y: usize) -> (off: usize)
        requires
            y * self.spec_pitch() + x * (self.spec_bpp() / 8) <= usize::MAX,
        ensures
            off == y * self.spec_pitch() + x * (self.spec_bpp() / 8),
    {
        let bytes_per_pixel = self.bpp / 8;
        assert(y * self.pitch <= usize::MAX && x * bytes_per_pixel <= usize::MAX) by (nonlinear_arith)
            requires y * self.pitch + x * bytes_per_pixel <= usize::MAX, y >= 0, x >= 0,
            self.pitch >= 0, bytes_per_pixel >= 0;
        y * self.pitch + x * bytes_per_pixel
    }

    /// The packed word of pixel (x, y), as it goes to the display memory.
    pub fn word(&self, x: usize, y: usize) -> (w: u32)
        requires
            self.wf(),
            x < self.view().width,
            y < self.view().height,
        ensures
            w == (self.view().px)(x as int, y as int),
    {
        proof { lemma_index_in_range(x as int, y as int, self.width as int, self.height as int); }
        assert(y * self.width <= y * self.width + x < self.pixels.len());
        self.pixels[y * self.width + x]
    }

    fn pack(&self, c: Color) -> (w: u32)
        requires
            self.wf(),
        ensures
            w == self.view().pack(c),
    {
        (((c.r as u32) << self.red_shift) | ((c.g as u32) << self.green_shift)) | ((c.b as u32)
            << self.blue_shift)
    }

    /// Writes pixel (x, y); a pixel outside the framebuffer is ignored.
    pub fn put_pixel(&mut self, x: usize, y: usize, color: Color)
        requires
            old(self).wf(),
        ensures
            final(self).wf(),
            final(self).spec_pitch() == old(self).spec_pitch(),
            final(self).spec_bpp() == old(self).spec_bpp(),
            final(self).view() == old(self).view().with_pixel(x as int, y as int, color),
    {
        if x >= self.width || y >= self.height {
            assert(self.view() =~= old(self).view().with_pixel(x as int, y as int, color));
            return;
        }
        let value = self.pack(color);
        proof { lemma_index_in_range(x as int, y as int, self.width as int, self.height as int); }
        assert(y * self.width <= y * self.width + x < self.pixels.len());
        let idx = y * self.width + x;
        self.pixels.set(idx, value);
        proof {
            let v0 = old(self).view();
            let v1 = self.view();
            let tgt = v0.with_pixel(x as int, y as int, color);
            assert forall|a: int, b: int| #[trigger] (v1.px)(a, b) == (tgt.px)(a, b) by {
                if 0 <= a < self.width && 0 <= b < self.height {
                    lemma_index_in_range(a, b, self.width as int, self.height as int);
                    if b * self.width + a == idx {
                        lemma_index_injective(a, b, x as int, y as int, self.width as int);
                    }
                }
            }
            assert(v1 =~= tgt);
        }
    }

    /// Writes the packed word `w` at pixel (x, y), which must exist.
    fn set_word(&mut self, x: usize, y: usize, w: u32)
        requires
            old(self).wf(),
            x < old(self).view().width,
            y < old(self).view().height,
        ensures
            final(self).wf(),
            final(self).spec_pitch() == old(self).spec_pitch(),
            final(self).spec_bpp() == old(self).spec_bpp(),
            final(self).view() == old(self).view().with_word(x as int, y as int, w),
    {
        proof { lemma_index_in_range(x as int, y as int, self.width as int, self.height as int); }
        assert(y * self.width <= y * self.width + x < self.pixels.len());
        let idx = y * self.width + x;
        self.pixels.set(idx, w);
        proof {
            let v0 = old(self).view();
            let v1 = self.view();
            let tgt = v0.with_word(x as int, y as int, w);
            assert forall|a: int, b: int| #[trigger] (v1.px)(a, b) == (tgt.px)(a, b) by {
                if 0 <= a < self.width && 0 <= b < self.height {
                    lemma_index_in_range(a, b, self.width as int, self.height as int);
                    if b * self.width + a == idx {
                        lemma_index_injective(a, b, x as int, y as int, self.width as int);
                    }
                }
            }
            assert(v1 =~= tgt);
        }
    }

    /// A copy of this framebuffer, to draw on off screen.
    pub fn copy(&self) -> (c: Framebuffer)
        requires
            self.wf(),
        ensures
            c.wf(),
            c.spec_pitch() == self.spec_pitch(),
            c.spec_bpp() == self.spec_bpp(),
            c.view() == self.view(),
    {
        let n = self.pixels.len();
        let mut pixels: Vec<u32> = Vec::new();
        let mut i: usize = 0;
        while i < n
            invariant
                n == self.pixels@.len(),
                i <= n,
                pixels@ == self.pixels@.take(i as int),
            decreases n - i,
        {
            pixels.push(self.pixels[i]);
            assert(self.pixels@.take(i + 1) =~= self.pixels@.take(i as int).push(self.pixels@[i as int]));
            i = i + 1;
        }
        assert(self.pixels@.take(n as int) =~= self.pixels@);
        let c = Framebuffer {
            pixels,
            width: self.width,
            height: self.height,
            pitch: self.pitch,
            bpp: self.bpp,
            red_shift: self.red_shift,
            green_shift: self.green_shift,
            blue_shift: self.blue_shift,
        };
        assert(c.view() =~= self.view());
        c
    }

    /// Copies the rectangle at (x0, y0) of size w x h (clipped to the
    /// framebuffer) from `src`, a framebuffer of the same size and layout;
    /// every other pixel keeps its value.
    pub fn copy_rect_from(&mut self, src: &Framebuffer, x0: usize, y0: usize, w: usize, h: usize)
        requires
            old(self).wf(),
            src.wf(),
            src.view().same_frame(old(self).view()),
            x0 + w <= usize::MAX,
            y0 + h <= usize::MAX,
        ensures
            final(self).wf(),
            final(self).spec_pitch() == old(self).spec_pitch(),
            final(self).spec_bpp() == old(self).spec_bpp(),
            final(self).view() == old(self).view().with_rect_from(src.view(), x0 as int, y0 as int, w as int, h as int),
    {
        let ghost v0 = self.view();
        let ghost sv = src.view();
        let y_end = if y0 + h < self.height { y0 + h } else { self.height };
        let x_end = if x0 + w < self.width { x0 + w } else { self.width };
        let mut y = y0;
        while y < y_end
            invariant
                self.wf(),
                src.wf(),
                sv == src.view(),
                sv.same_frame(v0),
                self.view().same_frame(v0),
                self.spec_pitch() == old(self).spec_pitch(),
                self.spec_bpp() == old(self).spec_bpp(),
                v0 == old(self).view(),
                y_end == (if y0 + h < v0.height { y0 + h } else { v0.height }),
                x_end == (if x0 + w < v0.width { x0 + w } else { v0.width }),
                y <= y_end || y == y0,
                y0 <= y,
                self.view() == v0.with_rect_from(sv, x0 as int, y0 as int, w as int, (y - y0) as int),
            decreases y_end - y,
        {
            let mut x = x0;
            assert(self.view() =~= v0.with_rect_from_upto(sv, x0 as int, y0 as int, w as int, (y - y0) as int, x as int));
            while x < x_end
                invariant
                    self.wf(),
                    src.wf(),
                    sv == src.view(),
                    sv.same_frame(v0),
                    self.view().same_frame(v0),
                    self.spec_pitch() == old(self).spec_pitch(),
                    self.spec_bpp() == old(self).spec_bpp(),
                    v0 == old(self).view(),
                    x_end == (if x0 + w < v0.width { x0 + w } else { v0.width }),
                    y0 <= y < y_end,
                    y_end <= v0.height,
                    x0 <= x,
                    x <= x_end || x == x0,
                    y < y0 + h,
                    self.view() == v0.with_rect_from_upto(sv, x0 as int, y0 as int, w as int, (y - y0) as int, x as int),
                decreases x_end - x,
            {
                let word = src.word(x, y);
                self.set_word(x, y, word);
                assert(self.view() =~= v0.with_rect_from_upto(sv, x0 as int, y0 as int, w as int, (y - y0) as int, x + 1));
                x = x + 1;
            }
            proof {
                let cur = self.view();
                let tgt = v0.with_rect_from(sv, x0 as int, y0 as int, w as int, (y + 1 - y0) as int);
                assert forall|a: int, b: int| #[trigger] (cur.px)(a, b) == (tgt.px)(a, b) by {
                    let up = v0.with_rect_from_upto(sv, x0 as int, y0 as int, w as int, (y - y0) as int, x as int);
                    assert((cur.px)(a, b) == (up.px)(a, b));
                    if v0.in_bounds(a, b) && b == y && x0 <= a < x0 + w {
                        assert(a < x_end);
                    }
                }
                assert(cur =~= tgt);
            }
            y = y + 1;
        }
        proof {
            let cur = self.view();
            let tgt = v0.with_rect_from(sv, x0 as int, y0 as int, w as int, h as int);
            assert forall|a: int, b: int| #[trigger] (cur.px)(a, b) == (tgt.px)(a, b) by {
                if v0.in_bounds(a, b) && y0 <= b < y0 + h {
                    assert(b < y_end);
                }
            }
            assert(cur =~= tgt);
        }
    }

    fn store(mem: &mut Vec<u8>, off: usize, w: u32)
        requires
            off + 4 <= usize::MAX,
        ensures
            final(mem)@ == store_word(old(mem)@, off as int, w),
    {
        let n = mem.len();
        let bytes = [(w & 0xff) as u8, ((w >> 8u32) & 0xff) as u8, ((w >> 16u32) & 0xff) as u8, ((w >> 24u32) & 0xff) as u8];
        let mut k: usize = 0;
        while k < 4
            invariant
                k <= 4,
                n == mem@.len(),
                n == old(mem)@.len(),
                off + 4 <= usize::MAX,
                forall|j: int| 0 <= j < 4 ==> #[trigger] bytes@[j] == le_byte(w, j),
                mem@ == Seq::new(n as nat, |i: int| if off <= i < off + k { le_byte(w, i - off) } else { old(mem)@[i] }),
            decreases 4 - k,
        {
            if off + k < n {
                mem.set(off + k, bytes[k]);
            }
            assert(mem@ =~= Seq::new(n as nat, |i: int| if off <= i < off + k + 1 { le_byte(w, i - off) } else { old(mem)@[i] }));
            k = k + 1;
        }
        assert(mem@ =~= store_word(old(mem)@, off as int, w));
    }

    /// Lays the picture into display memory `mem`: each pixel, row by row,
    /// as its packed 32-bit word at byte `y * pitch + x * (bpp / 8)`, the way
    /// the display expects it.
    pub fn store_into(&self, mem: &mut Vec<u8>)
        requires
            self.wf(),
            self.view().height * self.spec_pitch() + self.view().width * (self.spec_bpp() / 8) + 4 <= usize::MAX,
        ensures
            final(mem)@ == stored_upto(self.view(), self.spec_pitch() as int, self.spec_bpp() as int, old(mem)@,
                self.view().height, 0),
    {
        let ghost v = self.view();
        let ghost m0 = old(mem)@;
        let pitch = self.pitch;
        let bpp = self.bpp;
        let bytes_per_pixel = bpp / 8;
        let mut y: usize = 0;
        while y < self.height
            invariant
                self.wf(),
                v == self.view(),
                pitch == self.spec_pitch(),
                bpp == self.spec_bpp(),
                bytes_per_pixel == bpp / 8,
                y <= self.height,
                self.height * pitch + self.width * bytes_per_pixel + 4 <= usize::MAX,
                mem@ == stored_upto(v, pitch as int, bpp as int, m0, y as int, 0),
            decreases self.height - y,
        {
            let mut x: usize = 0;
            while x < self.width
                invariant
                    self.wf(),
                    v == self.view(),
                    pitch == self.spec_pitch(),
                    bpp == self.spec_bpp(),
                    bytes_per_pixel == bpp / 8,
                    y < self.height,
                    x <= self.width,
                    self.height * pitch + self.width * bytes_per_pixel + 4 <= usize::MAX,
                    mem@ == stored_upto(v, pitch as int, bpp as int, m0, y as int, x as int),
                decreases self.width - x,
            {
                assert(y * pitch + x * bytes_per_pixel + 4 <= usize::MAX) by (nonlinear_arith)
                    requires
                        y < self.height,
                        x < self.width,
                        self.height * pitch + self.width * bytes_per_pixel + 4 <= usize::MAX,
                        pitch >= 0,
                        bytes_per_pixel >= 0;
                let off = y * pitch + x * bytes_per_pixel;
                let w = self.word(x, y);
                Self::store(mem, off, w);
                x = x + 1;
            }
            assert(stored_upto(v, pitch as int, bpp as int, m0, y + 1, 0) == stored_upto(v, pitch as int, bpp as int, m0, y as int, v.width));
            y = y + 1;
        }
    }

    /// Reads pixel (x, y) back as an opaque colour; outside the framebuffer
    /// this is black.
    pub fn get_pixel(&self, x: usize, y: usize) -> (c: Color)
        requires
            self.wf(),
        ensures
            c == self.view().color_at(x as int, y as int),
    {
        if x >= self.width || y >= self.height {
            return Color::rgb(0, 0, 0);
        }
        let value = self.word(x, y);
        let r = ((value >> self.red_shift) & 0xFF) as u8;
        let g = ((value >> self.green_shift) & 0xFF) as u8;
        let b = ((value >> self.blue_shift) & 0xFF) as u8;
        Color::rgb(r, g, b)
    }

    /// Blends `color` over pixel (x, y); a pixel outside is ignored.
    pub fn blend_pixel(&mut self, x: usize, y: usize, color: Color)
        requires
            old(self).wf(),
        ensures
            final(self).wf(),
            final(self).spec_pitch() == old(self).spec_pitch(),
            final(self).spec_bpp() == old(self).spec_bpp(),
            final(self).view() == old(self).view().with_blended(x as int, y as int, color),
    {
        let under = self.get_pixel(x, y);
        let blended = color.blend_over(under);
        self.put_pixel(x, y, blended);
    }

    /// Sets every pixel of the rectangle at (x0, y0) of size w x h, clipped
    /// to the framebuffer, to `color`.
    pub fn fill_rect(&mut self, x0: usize, y0: usize, w: usize, h: usize, color: Color)
        requires
            old(self).wf(),
            x0 + w <= usize::MAX,
            y0 + h <= usize::MAX,
        ensures
            final(self).wf(),
            final(self).spec_pitch() == old(self).spec_pitch(),
            final(self).spec_bpp() == old(self).spec_bpp(),
            final(self).view() == old(self).view().fill(x0 as int, y0 as int, w as int, h as int, color),
    {
        let ghost v0 = self.view();
        let y_end = if y0 + h < self.height { y0 + h } else { self.height };
        let x_end = if x0 + w < self.width { x0 + w } else { self.width };
        let mut y = y0;
        while y < y_end
            invariant
                self.wf(),
                self.view().same_frame(v0),
                self.spec_pitch() == old(self).spec_pitch(),
                self.spec_bpp() == old(self).spec_bpp(),
                v0 == old(self).view(),
                y_end == (if y0 + h < v0.height { y0 + h } else { v0.height }),
                x_end == (if x0 + w < v0.width { x0 + w } else { v0.width }),
                y <= y_end || y == y0,
                y0 <= y,
                self.view() == v0.fill(x0 as int, y0 as int, w as int, (y - y0) as int, color),
            decreases y_end - y,
        {
            let mut x = x0;
            assert(self.view() =~= v0.fill_upto(x0 as int, y0 as int, w as int, (y - y0) as int, x as int, color));
            while x < x_end
                invariant
                    self.wf(),
                    self.view().same_frame(v0),
                    self.spec_pitch() == old(self).spec_pitch(),
                    self.spec_bpp() == old(self).spec_bpp(),
                    v0 == old(self).view(),
                    x_end == (if x0 + w < v0.width { x0 + w } else { v0.width }),
                    y0 <= y < y_end,
                    y_end <= v0.height,
                    x0 <= x,
                    x <= x_end || x == x0,
                    y < y0 + h,
                    self.view() == v0.fill_upto(x0 as int, y0 as int, w as int, (y - y0) as int, x as int, color),
                decreases x_end - x,
            {
                self.put_pixel(x, y, color);
                assert(self.view() =~= v0.fill_upto(x0 as int, y0 as int, w as int, (y - y0) as int, x + 1, color));
                x = x + 1;
            }
            proof {
                let cur = self.view();
                let tgt = v0.fill(x0 as int, y0 as int, w as int, (y + 1 - y0) as int, color);
                assert forall|a: int, b: int| #[trigger] (cur.px)(a, b) == (tgt.px)(a, b) by {
                    let up = v0.fill_upto(x0 as int, y0 as int, w as int, (y - y0) as int, x as int, color);
                    assert((cur.px)(a, b) == (up.px)(a, b));
                    if v0.in_bounds(a, b) && b == y && x0 <= a < x0 + w {
                        assert(a < x_end);
                    }
                }
                assert(cur =~= tgt);
            }
            y = y + 1;
        }
        proof {
            let cur = self.view();
            let tgt = v0.fill(x0 as int, y0 as int, w as int, h as int, color);
            assert forall|a: int, b: int| #[trigger] (cur.px)(a, b) == (tgt.px)(a, b) by {
                if v0.in_bounds(a, b) && y0 <= b < y0 + h {
                    assert(b < y_end);
                }
            }
            assert(cur =~= tgt);
        }
    }

    /// Blends `color` over every pixel of the rectangle at (x0, y0) of size
    /// w x h, clipped to the framebuffer: how the translucent panel and bar are drawn.
    pub fn fill_rect_blended(&mut self, x0: usize, y0: usize, w: usize, h: usize, color: Color)
        requires
            old(self).wf(),
            x0 + w <= usize::MAX,
            y0 + h <= usize::MAX,
        ensures
            final(self).wf(),
            final(self).spec_pitch() == old(self).spec_pitch(),
            final(self).spec_bpp() == old(self).spec_bpp(),
            final(self).view() == old(self).view().fill_blended(x0 as int, y0 as int, w as int, h as int, color),
    {
        let ghost v0 = self.view();
        let y_end = if y0 + h < self.height { y0 + h } else { self.height };
        let x_end = if x0 + w < self.width { x0 + w } else { self.width };
        let mut y = y0;
        while y < y_end
            invariant
                self.wf(),
                self.view().same_frame(v0),
                self.spec_pitch() == old(self).spec_pitch(),
                self.spec_bpp() == old(self).spec_bpp(),
                v0 == old(self).view(),
                y_end == (if y0 + h < v0.height { y0 + h } else { v0.height }),
                x_end == (if x0 + w < v0.width { x0 + w } else { v0.width }),
                y <= y_end || y == y0,
                y0 <= y,
                self.view() == v0.fill_blended(x0 as int, y0 as int, w as int, (y - y0) as int, color),
            decreases y_end - y,
        {
            let mut x = x0;
            assert(self.view() =~= v0.fill_blended_upto(x0 as int, y0 as int, w as int, (y - y0) as int, x as int, color));
            while x < x_end
                invariant
                    self.wf(),
                    self.view().same_frame(v0),
                    self.spec_pitch() == old(self).spec_pitch(),
                    self.spec_bpp() == old(self).spec_bpp(),
                    v0 == old(self).view(),
                    x_end == (if x0 + w < v0.width { x0 + w } else { v0.width }),
                    y0 <= y < y_end,
                    y_end <= v0.height,
                    x0 <= x,
                    x <= x_end || x == x0,
                    y < y0 + h,
                    self.view() == v0.fill_blended_upto(x0 as int, y0 as int, w as int, (y - y0) as int, x as int, color),
                decreases x_end - x,
            {
                self.blend_pixel(x, y, color);
                assert(self.view() =~= v0.fill_blended_upto(x0 as int, y0 as int, w as int, (y - y0) as int, x + 1, color));
                x = x + 1;
            }
            proof {
                let cur = self.view();
                let tgt = v0.fill_blended(x0 as int, y0 as int, w as int, (y + 1 - y0) as int, color);
                assert forall|a: int, b: int| #[trigger] (cur.px)(a, b) == (tgt.px)(a, b) by {
                    let up = v0.fill_blended_upto(x0 as int, y0 as int, w as int, (y - y0) as int, x as int, color);
                    assert((cur.px)(a, b) == (up.px)(a, b));
                    if v0.in_bounds(a, b) && b == y && x0 <= a < x0 + w {
                        assert(a < x_end);
                    }
                }
                assert(cur =~= tgt);
            }
            y = y + 1;
        }
        proof {
            let cur = self.view();
            let tgt = v0.fill_blended(x0 as int, y0 as int, w as int, h as int, color);
            assert forall|a: int, b: int| #[trigger] (cur.px)(a, b) == (tgt.px)(a, b) by {
                if v0.in_bounds(a, b) && y0 <= b < y0 + h {
                    assert(b < y_end);
                }
            }
            assert(cur =~= tgt);
        }
    }
}

} // verus!
