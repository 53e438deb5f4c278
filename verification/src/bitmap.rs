//! Wallpaper bitmaps: RGB8 pixels row by row, stretched over the whole
//! framebuffer by nearest-neighbour sampling (aspect ratio not kept).
use vstd::prelude::*;
use crate::framebuffer::{Framebuffer, Raster};
use crate::theme::Color;

verus! {

pub struct Bitmap {
    pub width: u32,
    pub height: u32,
    /// RGB8, row by row, without the file header.
    pub pixels: Vec<u8>,
}

/// Length of the wallpaper file header: width and height, each a
/// little-endian u32.
pub const HEADER_LEN: usize = 8;

pub open spec fn le_u32(b: Seq<u8>, off: int) -> u32 {
    (b[off] as int + b[off + 1] as int * 0x100 + b[off + 2] as int * 0x10000 + b[off + 3] as int
        * 0x1000000) as u32
}

/// Reads the little-endian u32 at `off`.
pub fn read_u32(bytes: &[u8], offset: usize) -> (v: u32)
    requires
        offset + 4 <= bytes@.len(),
    ensures
        v == le_u32(bytes@, offset as int),
{
    let b0 = bytes[offset] as u32;
    let b1 = bytes[offset + 1] as u32;
    let b2 = bytes[offset + 2] as u32;
    let b3 = bytes[offset + 3] as u32;
    b0 + b1 * 0x100 + b2 * 0x10000 + b3 * 0x1000000
}

/// What a wallpaper file holds: (width, height, pixels), or `None` when
/// it is shorter than its header says or the picture is empty.
pub open spec fn wallpaper_of(raw: Seq<u8>) -> Option<(u32, u32, Seq<u8>)> {
    if raw.len() < HEADER_LEN || le_u32(raw, 0) == 0 || le_u32(raw, 4) == 0
        || le_u32(raw, 0) * le_u32(raw, 4) * 3 > raw.len() - HEADER_LEN {
        None
    } else {
        Some((le_u32(raw, 0), le_u32(raw, 4), raw.skip(HEADER_LEN as int)))
    }
}

impl Bitmap {
    /// The pixels cover the picture, which is not empty.
    pub open spec fn wf(&self) -> bool {
        &&& self.width > 0
        &&& self.height > 0
        &&& self.width * self.height * 3 <= self.pixels@.len()
    }

    /// The colour of pixel (x, y), clamped to the picture.
    pub open spec fn sample_spec(&self, x: int, y: int) -> Color {
        let cx = if x < self.width - 1 { x } else { self.width - 1 };
        let cy = if y < self.height - 1 { y } else { self.height - 1 };
        let idx = (cy * self.width + cx) * 3;
        Color { r: self.pixels@[idx], g: self.pixels@[idx + 1], b: self.pixels@[idx + 2], a: 255 }
    }

    /// A wallpaper file: the header (width, height), then the pixels; `None`
    /// if the file is shorter than the header says or the picture is empty.
    pub fn from_raw(raw: &[u8]) -> (r: Option<Bitmap>)
        ensures
            match r {
                Some(b) => wallpaper_of(raw@) == Some((b.width, b.height, b.pixels@)) && b.wf(),
                None => wallpaper_of(raw@) is None,
            },
    {
        if raw.len() < HEADER_LEN {
            return None;
        }
        let w = read_u32(raw, 0);
        let h = read_u32(raw, 4);
        if w == 0 || h == 0 {
            return None;
        }
        assert(w as u64 * h as u64 <= 0xffff_ffff_ffff_ffff) by (nonlinear_arith)
            requires w <= 0xffff_ffff, h <= 0xffff_ffff;
        let wide = w as u64 * h as u64;
        if wide > (raw.len() - HEADER_LEN) as u64 / 3 {
            return None;
        }
        let pixels = vstd::slice::slice_to_vec(&raw[HEADER_LEN..raw.len()]);
        Some(Bitmap { width: w, height: h, pixels })
    }

    fn sample(&self, x: u32, y: u32) -> (c: Color)
        requires
            self.wf(),
        ensures
            c == self.sample_spec(x as int, y as int),
    {
        let x = if x < self.width - 1 { x } else { self.width - 1 } as usize;
        let y = if y < self.height - 1 { y } else { self.height - 1 } as usize;
        let w = self.width as usize;
        let n = self.pixels.len();
        assert(y * w + x < w * self.height) by (nonlinear_arith)
            requires x < w, y < self.height;
        assert((y * w + x) * 3 + 2 < w * self.height * 3) by (nonlinear_arith)
            requires y * w + x < w * self.height;
        assert(y * w <= y * w + x);
        let idx = (y * w + x) * 3;
        Color::rgb(self.pixels[idx], self.pixels[idx + 1], self.pixels[idx + 2])
    }

    /// The source pixel that destination pixel (x, y) shows when stretching
    /// this bitmap over `dw` x `dh` pixels.
    pub open spec fn scaled(&self, dw: int, dh: int) -> spec_fn(int, int) -> Color {
        |x: int, y: int| self.sample_spec(x * self.width / dw, y * self.height / dh)
    }

    /// The picture `r` shows once this bitmap is stretched over all of it.
    pub open spec fn stretched(&self, r: Raster) -> Raster {
        r.paint(
            r.width,
            r.height,
            self.scaled(if r.width > 0 { r.width } else { 1 }, if r.height > 0 { r.height } else { 1 }),
        )
    }

    /// Stretches the picture over the whole framebuffer (nearest neighbour).
    pub fn blit_scaled(&self, fb: &mut Framebuffer)
        requires
            self.wf(),
            old(fb).wf(),
            old(fb).view().width * self.width <= u32::MAX,
            old(fb).view().height * self.height <= u32::MAX,
        ensures
            final(fb).wf(),
            final(fb).spec_pitch() == old(fb).spec_pitch(),
            final(fb).spec_bpp() == old(fb).spec_bpp(),
            final(fb).view() == self.stretched(old(fb).view()),
    {
        let ghost v0 = fb.view();
        let fw = fb.width();
        let fh = fb.height();
        assert(fw <= u32::MAX && fh <= u32::MAX) by (nonlinear_arith)
            requires fw * self.width <= u32::MAX, fh * self.height <= u32::MAX, self.width > 0,
            self.height > 0;
        let dst_w = (if fw > 1 { fw } else { 1 }) as u32;
        let dst_h = (if fh > 1 { fh } else { 1 }) as u32;
        let ghost f = self.scaled(dst_w as int, dst_h as int);
        let mut y: u32 = 0;
        while y < dst_h
            invariant
                self.wf(),
                fb.wf(),
                fb.spec_pitch() == old(fb).spec_pitch(),
                fb.spec_bpp() == old(fb).spec_bpp(),
                v0 == old(fb).view(),
                fw == v0.width,
                fh == v0.height,
                dst_w == (if fw > 1 { fw } else { 1 }),
                dst_h == (if fh > 1 { fh } else { 1 }),
                v0.width * self.width <= u32::MAX,
                v0.height * self.height <= u32::MAX,
                f == self.scaled(dst_w as int, dst_h as int),
                y <= dst_h,
                fb.view() == v0.paint_upto(fw as int, y as int, 0, f),
            decreases dst_h - y,
        {
            assert(y * self.height <= u32::MAX) by (nonlinear_arith)
                requires y < dst_h, dst_h <= (if fh > 1 { fh } else { 1 }), fh * self.height <= u32::MAX,
                self.height > 0;
            let src_y = y * self.height / dst_h;
            let mut x: u32 = 0;
            while x < dst_w
                invariant
                    self.wf(),
                    fb.wf(),
                    fb.spec_pitch() == old(fb).spec_pitch(),
                    fb.spec_bpp() == old(fb).spec_bpp(),
                    v0 == old(fb).view(),
                    fw == v0.width,
                    fh == v0.height,
                    dst_w == (if fw > 1 { fw } else { 1 }),
                    dst_h == (if fh > 1 { fh } else { 1 }),
                    v0.width * self.width <= u32::MAX,
                    f == self.scaled(dst_w as int, dst_h as int),
                    y < dst_h,
                    src_y == (y * self.height) as int / dst_h as int,
                    x <= dst_w,
                    fb.view() == v0.paint_upto(fw as int, y as int, x as int, f),
                decreases dst_w - x,
            {
                assert(x * self.width <= u32::MAX) by (nonlinear_arith)
                    requires x < dst_w, dst_w <= (if fw > 1 { fw } else { 1 }), fw * self.width <= u32::MAX,
                    self.width > 0;
                let src_x = x * self.width / dst_w;
                let color = self.sample(src_x, src_y);
                fb.put_pixel(x as usize, y as usize, color);
                assert(fb.view() =~= v0.paint_upto(fw as int, y as int, x + 1, f));
                x = x + 1;
            }
            assert(fb.view() =~= v0.paint_upto(fw as int, y + 1, 0, f));
            y = y + 1;
        }
        assert(fb.view() =~= v0.paint(fw as int, fh as int, f));
    }
}

/// Nearest-neighbour stretching, per axis: screen pixel (x, y) of a
/// `w` x `h` screen shows bitmap pixel (x * bitmap width / w,
/// y * bitmap height / h), which always lies inside the bitmap, so columns
/// depend only on the widths and rows only on the heights. In particular,
/// when the screen is at least as large as the bitmap, its last row and
/// last column show the bitmap's last row and column. Pixels off the screen
/// keep their value.
pub proof fn law_stretch_nearest(b: Bitmap, r: Raster, x: int, y: int)
    requires
        b.wf(),
    ensures
        !r.in_bounds(x, y) ==> (b.stretched(r).px)(x, y) == (r.px)(x, y),
        b.stretched(r).same_frame(r),
        r.in_bounds(x, y) ==> ({
            let sx = x * b.width / r.width;
            let sy = y * b.height / r.height;
            let idx = (sy * b.width + sx) * 3;
            &&& 0 <= sx < b.width
            &&& 0 <= sy < b.height
            &&& (b.stretched(r).px)(x, y) == r.pack(
                Color { r: b.pixels@[idx], g: b.pixels@[idx + 1], b: b.pixels@[idx + 2], a: 255 },
            )
            &&& y == r.height - 1 && b.height <= r.height ==> sy == b.height - 1
            &&& x == r.width - 1 && b.width <= r.width ==> sx == b.width - 1
        }),
{
    if r.in_bounds(x, y) {
        let w = r.width as int;
        let h = r.height as int;
        let bw = b.width as int;
        let bh = b.height as int;
        lemma_stretch_axis(x, w, bw);
        lemma_stretch_axis(y, h, bh);
    }
}

/// Along one axis of `n` screen pixels stretched from `m` source pixels:
/// the source index of position `i` lies in `0..m`, and the last position
/// maps to the last source pixel when `m <= n`.
proof fn lemma_stretch_axis(i: int, n: int, m: int)
    requires
        0 <= i < n,
        m > 0,
    ensures
        0 <= i * m / n < m,
        i == n - 1 && m <= n ==> i * m / n == m - 1,
{
    assert(0 <= i * m < n * m) by (nonlinear_arith)
        requires 0 <= i < n, m > 0;
    vstd::arithmetic::div_mod::lemma_div_pos_is_pos(i * m, n);
    assert(i * m / n < m) by {
        vstd::arithmetic::div_mod::lemma_fundamental_div_mod(i * m, n);
        vstd::arithmetic::div_mod::lemma_mod_bound(i * m, n);
        let q = i * m / n;
        assert(q < m) by (nonlinear_arith)
            requires i * m == n * q + (i * m) % n, 0 <= (i * m) % n, i * m < n * m, n > 0;
    }
    if i == n - 1 && m <= n {
        assert(i * m == (m - 1) * n + (n - m)) by (nonlinear_arith)
            requires i == n - 1;
        vstd::arithmetic::div_mod::lemma_fundamental_div_mod_converse(i * m, n, m - 1, n - m);
    }
}

} // verus!
