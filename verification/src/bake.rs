//! The files that the host tools write for the desktop: the wallpaper
//! picture (width, height, RGB8 pixels) and the glyph atlas of the font.
//! The wallpaper is decoded and stretched by the `image` crate; the glyphs
//! are rasterised by the font tool; this module lays the results out.
use vstd::prelude::*;
use crate::bitmap::{le_u32, wallpaper_of, HEADER_LEN};
use crate::font::{has_header, signature};

verus! {

/// The size every wallpaper is stretched to when it is baked.
pub const WALLPAPER_W: u32 = 640;

pub const WALLPAPER_H: u32 = 400;

/// The four little-endian bytes of `v`.
pub open spec fn le_bytes(v: u32) -> Seq<u8> {
    seq![(v & 0xff) as u8, ((v >> 8) & 0xff) as u8, ((v >> 16) & 0xff) as u8, ((v >> 24) & 0xff) as u8]
}

proof fn lemma_le_bytes(v: u32)
    ensures
        le_u32(le_bytes(v), 0) == v,
        le_bytes(v).len() == 4,
{
    let b0 = v & 0xff;
    let b1 = (v >> 8) & 0xff;
    let b2 = (v >> 16) & 0xff;
    let b3 = (v >> 24) & 0xff;
    assert(b0 < 256 && b1 < 256 && b2 < 256 && b3 < 256) by (bit_vector)
        requires b0 == v & 0xff, b1 == (v >> 8) & 0xff, b2 == (v >> 16) & 0xff, b3 == (v >> 24) & 0xff;
    assert(b0 + b1 * 0x100 + b2 * 0x10000 + b3 * 0x1000000 == v) by (bit_vector)
        requires b0 == v & 0xff, b1 == (v >> 8) & 0xff, b2 == (v >> 16) & 0xff, b3 == (v >> 24) & 0xff;
    let s = le_bytes(v);
    assert(s[0] as int == b0 && s[1] as int == b1 && s[2] as int == b2 && s[3] as int == b3);
}

/// A u32 read at `off` from bytes that have `le_bytes(v)` there is `v`.
proof fn lemma_le_at(prefix: Seq<u8>, v: u32, rest: Seq<u8>)
    ensures
        le_u32(prefix + le_bytes(v) + rest, prefix.len() as int) == v,
{
    lemma_le_bytes(v);
    let s = prefix + le_bytes(v) + rest;
    let o = prefix.len() as int;
    assert(s[o] == le_bytes(v)[0] && s[o + 1] == le_bytes(v)[1]);
    assert(s[o + 2] == le_bytes(v)[2] && s[o + 3] == le_bytes(v)[3]);
}

fn push_le(out: &mut Vec<u8>, v: u32)
    ensures
        final(out)@ == old(out)@ + le_bytes(v),
{
    out.push((v & 0xff) as u8);
    out.push(((v >> 8) & 0xff) as u8);
    out.push(((v >> 16) & 0xff) as u8);
    out.push(((v >> 24) & 0xff) as u8);
    assert(out@ =~= old(out)@ + le_bytes(v));
}

fn push_all(out: &mut Vec<u8>, bytes: &[u8])
    ensures
        final(out)@ == old(out)@ + bytes@,
{
    let mut i: usize = 0;
    while i < bytes.len()
        invariant
            i <= bytes@.len(),
            out@ == old(out)@ + bytes@.take(i as int),
        decreases bytes.len() - i,
    {
        out.push(bytes[i]);
        assert(bytes@.take(i + 1) =~= bytes@.take(i as int).push(bytes@[i as int]));
        i = i + 1;
    }
    assert(bytes@.take(bytes@.len() as int) =~= bytes@);
}

/// A wallpaper file: width and height, then the RGB8 pixels row by row.
pub open spec fn wallpaper_bytes(width: u32, height: u32, rgb: Seq<u8>) -> Seq<u8> {
    le_bytes(width) + le_bytes(height) + rgb
}

/// Lays out a wallpaper file.
pub fn encode_wallpaper(width: u32, height: u32, rgb: &[u8]) -> (out: Vec<u8>)
    ensures
        out@ == wallpaper_bytes(width, height, rgb@),
{
    let mut out: Vec<u8> = Vec::new();
    push_le(&mut out, width);
    push_le(&mut out, height);
    push_all(&mut out, rgb);
    assert(out@ =~= wallpaper_bytes(width, height, rgb@));
    out
}

/// Why the `image` crate could not decode a picture.
#[verifier::external_type_specification]
#[verifier::external_body]
pub struct ExImageError(image::ImageError);

/// Why a wallpaper could not be baked.
pub enum BakeError {
    /// The bytes are no picture that the decoder reads (JPEG or PNG, told
    /// apart by their content), or a damaged one; with the decoder's message.
    Decode(String),
}

/// Whether `image::load_from_memory` decodes these bytes: the format is
/// guessed from their content and the decoder runs with the crate's
/// default limits, so the answer depends on the bytes alone.
pub uninterp spec fn picture_decodes(bytes: Seq<u8>) -> bool;

/// The RGB bytes, row by row, of the picture in `bytes` stretched to
/// `width` x `height` by `DynamicImage::resize_exact` with the Lanczos3
/// filter and converted by `to_rgb8`.
pub uninterp spec fn stretched_rgb(bytes: Seq<u8>, width: u32, height: u32) -> Seq<u8>;

/// `image::load_from_memory`, then on success `resize_exact` to
/// `width` x `height` with the Lanczos3 filter, `to_rgb8` and `into_raw`.
/// The claims: the call succeeds exactly when the bytes decode; the bytes
/// that come back are the stretched picture, three per pixel of the new
/// size (the length the crate's source gives its buffers). The buffer's
/// length must fit in `usize`, else the crate panics.
#[verifier::external_body]
fn decode_stretched(bytes: &[u8], width: u32, height: u32) -> (r: Result<Vec<u8>, image::ImageError>)
    requires
        width * height * 4 <= usize::MAX,
    ensures
        r is Ok <==> picture_decodes(bytes@),
        r matches Ok(v) ==> v@ == stretched_rgb(bytes@, width, height) && v@.len() == width * height * 3,
{
    match image::load_from_memory(bytes) {
        Ok(img) => Ok(img.resize_exact(width, height, image::imageops::FilterType::Lanczos3).to_rgb8().into_raw()),
        Err(e) => Err(e),
    }
}

/// The message of a decoding error, as its `Display` writes it. Nothing is
/// stated of the text.
#[verifier::external_body]
fn image_error_text(e: &image::ImageError) -> (s: String) {
    format!("{e}")
}

/// Bakes a wallpaper file from the bytes of a JPEG or PNG picture: the
/// picture stretched to `WALLPAPER_W` x `WALLPAPER_H`, laid out as
/// `encode_wallpaper` writes it, so that `Bitmap::from_raw` reads it back.
/// Fails exactly where the decoder refuses the bytes.
pub fn bake_wallpaper(picture: &[u8]) -> (r: Result<Vec<u8>, BakeError>)
    ensures
        r is Ok <==> picture_decodes(picture@),
        r matches Ok(out) ==> out@ == wallpaper_bytes(
            WALLPAPER_W,
            WALLPAPER_H,
            stretched_rgb(picture@, WALLPAPER_W, WALLPAPER_H),
        ),
{
    match decode_stretched(picture, WALLPAPER_W, WALLPAPER_H) {
        Ok(rgb) => Ok(encode_wallpaper(WALLPAPER_W, WALLPAPER_H, &rgb)),
        Err(e) => Err(BakeError::Decode(image_error_text(&e))),
    }
}

/// Reading a baked wallpaper file gives back its size and pixels.
pub proof fn law_wallpaper_round_trip(width: u32, height: u32, rgb: Seq<u8>)
    requires
        width > 0,
        height > 0,
        width * height * 3 <= rgb.len(),
    ensures
        wallpaper_of(wallpaper_bytes(width, height, rgb)) == Some((width, height, rgb)),
{
    let e = wallpaper_bytes(width, height, rgb);
    lemma_le_bytes(width);
    lemma_le_bytes(height);
    lemma_le_at(seq![], width, le_bytes(height) + rgb);
    assert(e == Seq::<u8>::empty() + le_bytes(width) + (le_bytes(height) + rgb));
    lemma_le_at(le_bytes(width), height, rgb);
    assert(e.skip(HEADER_LEN as int) =~= rgb);
}

/// A glyph atlas: the `CFA1` signature, the first code point, the number
/// of glyphs, the cell width and height, then the glyph coverage bytes.
pub open spec fn atlas_bytes(first: u32, count: u32, cell_w: u32, cell_h: u32, glyphs: Seq<u8>) -> Seq<u8> {
    signature() + le_bytes(first) + le_bytes(count) + le_bytes(cell_w) + le_bytes(cell_h) + glyphs
}

/// Lays out a glyph atlas file.
pub fn encode_atlas(first: u32, count: u32, cell_w: u32, cell_h: u32, glyphs: &[u8]) -> (out: Vec<u8>)
    ensures
        out@ == atlas_bytes(first, count, cell_w, cell_h, glyphs@),
{
    let mut out: Vec<u8> = Vec::new();
    out.push(0x43);
    out.push(0x46);
    out.push(0x41);
    out.push(0x31);
    assert(out@ =~= signature());
    push_le(&mut out, first);
    push_le(&mut out, count);
    push_le(&mut out, cell_w);
    push_le(&mut out, cell_h);
    push_all(&mut out, glyphs);
    out
}

/// Reading a baked atlas gives back its header fields and glyph bytes.
pub proof fn law_atlas_round_trip(first: u32, count: u32, cell_w: u32, cell_h: u32, glyphs: Seq<u8>)
    ensures
        ({
            let e = atlas_bytes(first, count, cell_w, cell_h, glyphs);
            &&& has_header(e)
            &&& le_u32(e, 4) == first
            &&& le_u32(e, 8) == count
            &&& le_u32(e, 12) == cell_w
            &&& le_u32(e, 16) == cell_h
            &&& e.skip(crate::font::HEADER_LEN as int) == glyphs
        }),
{
    let sg = signature();
    let a = le_bytes(first);
    let b = le_bytes(count);
    let c = le_bytes(cell_w);
    let d = le_bytes(cell_h);
    lemma_le_bytes(first);
    lemma_le_bytes(count);
    lemma_le_bytes(cell_w);
    lemma_le_bytes(cell_h);
    let e = atlas_bytes(first, count, cell_w, cell_h, glyphs);
    assert(e == sg + a + (b + c + d + glyphs));
    lemma_le_at(sg, first, b + c + d + glyphs);
    assert(e == (sg + a) + b + (c + d + glyphs));
    lemma_le_at(sg + a, count, c + d + glyphs);
    assert(e == (sg + a + b) + c + (d + glyphs));
    lemma_le_at(sg + a + b, cell_w, d + glyphs);
    assert(e == (sg + a + b + c) + d + glyphs);
    lemma_le_at(sg + a + b + c, cell_h, glyphs);
    assert(e.take(4) =~= sg);
    assert(e.skip(crate::font::HEADER_LEN as int) =~= glyphs);
}


/// The coverage that cell pixel (x, y) gets from a glyph bitmap of
/// `w` x `h` pixels whose top-left corner lands at (x0, y0) in the cell,
/// or `old` where the bitmap does not reach.
pub open spec fn placed(old: u8, x: int, y: int, x0: int, y0: int, w: int, h: int, bitmap: Seq<u8>) -> u8 {
    if x0 <= x < x0 + w && y0 <= y < y0 + h {
        bitmap[(y - y0) * w + (x - x0)]
    } else {
        old
    }
}

/// Where the bitmap's top row lands: its bottom edge (`ymin` above the
/// baseline) sits `ascent` rows below the top of the cell.
pub open spec fn glyph_top(ascent: int, ymin: int, height: int) -> int {
    ascent - ymin - height
}

proof fn lemma_cell_index(x: int, y: int, cw: int, ch: int, base: int)
    requires
        0 <= x < cw,
        0 <= y < ch,
    ensures
        base <= base + y * cw + x < base + cw * ch,
{
    assert(0 <= y * cw + x < cw * ch) by (nonlinear_arith)
        requires 0 <= x < cw, 0 <= y < ch;
}

proof fn lemma_cell_index_injective(x1: int, y1: int, x2: int, y2: int, cw: int)
    requires
        0 <= x1 < cw,
        0 <= x2 < cw,
        0 <= y1,
        0 <= y2,
        y1 * cw + x1 == y2 * cw + x2,
    ensures
        x1 == x2,
        y1 == y2,
{
    vstd::arithmetic::div_mod::lemma_fundamental_div_mod_converse(y1 * cw + x1, cw, y1, x1);
    vstd::arithmetic::div_mod::lemma_fundamental_div_mod_converse(y2 * cw + x2, cw, y2, x2);
}

/// Copies the coverage bitmap of glyph `index` (`width` x `height` bytes,
/// row by row) into its `cell_w` x `cell_h` cell of the atlas, left edge at
/// column `xmin` and bottom edge `ymin` above the baseline, the baseline
/// being row `ascent` of the cell. What falls outside the cell is cut off.
pub fn place_glyph(
    atlas: &mut Vec<u8>,
    index: usize,
    cell_w: usize,
    cell_h: usize,
    ascent: i32,
    xmin: i32,
    ymin: i32,
    width: usize,
    height: usize,
    bitmap: &[u8],
)
    requires
        index * (cell_w * cell_h) + cell_w * cell_h <= old(atlas)@.len(),
        width * height <= bitmap@.len(),
        width <= i32::MAX,
        height <= i32::MAX,
        xmin + width <= i32::MAX,
        i32::MIN <= glyph_top(ascent as int, ymin as int, height as int),
        ascent - ymin <= i32::MAX,
    ensures
        final(atlas)@.len() == old(atlas)@.len(),
        forall|k: int|
            0 <= k < old(atlas)@.len() && !(index * (cell_w * cell_h) <= k < index * (cell_w * cell_h) + cell_w
                * cell_h) ==> #[trigger] final(atlas)@[k] == old(atlas)@[k],
        forall|x: int, y: int|
            0 <= x < cell_w && 0 <= y < cell_h ==> #[trigger] final(atlas)@[index * (cell_w * cell_h) + y * cell_w + x]
                == placed(
                old(atlas)@[index * (cell_w * cell_h) + y * cell_w + x],
                x,
                y,
                xmin as int,
                glyph_top(ascent as int, ymin as int, height as int),
                width as int,
                height as int,
                bitmap@,
            ),
{
    let ghost a0 = atlas@;
    let ghost base = index * (cell_w * cell_h);
    let ghost x0 = xmin as int;
    let ghost y0 = glyph_top(ascent as int, ymin as int, height as int);
    let n = atlas.len();
    let blen = bitmap.len();
    assert(index * (cell_w * cell_h) >= 0 && cell_w * cell_h >= 0) by (nonlinear_arith);
    let cell_base = index * (cell_w * cell_h);
    let dst_x0 = xmin;
    let dst_y0 = ascent - ymin - height as i32;
    let mut gy: usize = 0;
    while gy < height
        invariant
            0 <= gy <= height,
            atlas@.len() == a0.len(),
            cell_base == base,
            base + cell_w * cell_h <= a0.len(),
            width * height <= bitmap@.len(),
            blen == bitmap@.len(),
            n == a0.len(),
            width <= i32::MAX,
            height <= i32::MAX,
            x0 + width <= i32::MAX,
            dst_x0 == x0,
            dst_y0 == y0,
            y0 + height <= i32::MAX,
            i32::MIN <= y0,
            forall|k: int| 0 <= k < a0.len() && !(base <= k < base + cell_w * cell_h) ==> #[trigger] atlas@[k] == a0[k],
            forall|x: int, y: int|
                0 <= x < cell_w && 0 <= y < cell_h ==> #[trigger] atlas@[base + y * cell_w + x] == placed(
                    a0[base + y * cell_w + x],
                    x,
                    y,
                    x0,
                    y0,
                    width as int,
                    gy as int,
                    bitmap@,
                ),
        decreases height - gy,
    {
        let dst_y = dst_y0 + gy as i32;
        let mut gx: usize = 0;
        while gx < width
            invariant
                0 <= gy < height,
                0 <= gx <= width,
                atlas@.len() == a0.len(),
                cell_base == base,
                base + cell_w * cell_h <= a0.len(),
                width * height <= bitmap@.len(),
                blen == bitmap@.len(),
                n == a0.len(),
                width <= i32::MAX,
                x0 + width <= i32::MAX,
                dst_x0 == x0,
                dst_y == y0 + gy,
                forall|k: int| 0 <= k < a0.len() && !(base <= k < base + cell_w * cell_h) ==> #[trigger] atlas@[k] == a0[k],
                forall|x: int, y: int|
                    0 <= x < cell_w && 0 <= y < cell_h ==> #[trigger] atlas@[base + y * cell_w + x] == if y == y0 + gy
                        && x0 <= x < x0 + gx {
                        bitmap@[gy * width + (x - x0)]
                    } else {
                        placed(a0[base + y * cell_w + x], x, y, x0, y0, width as int, gy as int, bitmap@)
                    },
            decreases width - gx,
        {
            let dst_x = dst_x0 + gx as i32;
            if dst_y >= 0 && (dst_y as usize) < cell_h && dst_x >= 0 && (dst_x as usize) < cell_w {
                let ty = dst_y as usize;
                let tx = dst_x as usize;
                assert(gy * width + gx < width * height) by (nonlinear_arith)
                    requires gy < height, gx < width;
                let coverage = bitmap[gy * width + gx];
                proof { lemma_cell_index(tx as int, ty as int, cell_w as int, cell_h as int, base); }
                let dst_index = cell_base + ty * cell_w + tx;
                let ghost prev = atlas@;
                atlas.set(dst_index, coverage);
                assert forall|x: int, y: int| 0 <= x < cell_w && 0 <= y < cell_h implies #[trigger] atlas@[base + y * cell_w + x]
                    == if y == y0 + gy && x0 <= x < x0 + gx + 1 {
                        bitmap@[gy * width + (x - x0)]
                    } else {
                        placed(a0[base + y * cell_w + x], x, y, x0, y0, width as int, gy as int, bitmap@)
                    } by {
                    lemma_cell_index(x, y, cell_w as int, cell_h as int, base);
                    if base + y * cell_w + x == dst_index {
                        lemma_cell_index_injective(x, y, tx as int, ty as int, cell_w as int);
                    }
                }
                assert forall|k: int| 0 <= k < a0.len() && !(base <= k < base + cell_w * cell_h) implies #[trigger] atlas@[k] == a0[k] by {
                    assert(prev[k] == a0[k]);
                }
            } else {
                assert forall|x: int, y: int| 0 <= x < cell_w && 0 <= y < cell_h implies #[trigger] atlas@[base + y * cell_w + x]
                    == if y == y0 + gy && x0 <= x < x0 + gx + 1 {
                        bitmap@[gy * width + (x - x0)]
                    } else {
                        placed(a0[base + y * cell_w + x], x, y, x0, y0, width as int, gy as int, bitmap@)
                    } by {
                    assert(!(y == y0 + gy && x == x0 + gx));
                }
            }
            gx = gx + 1;
        }
        assert forall|x: int, y: int| 0 <= x < cell_w && 0 <= y < cell_h implies #[trigger] atlas@[base + y * cell_w + x]
            == placed(a0[base + y * cell_w + x], x, y, x0, y0, width as int, gy + 1, bitmap@) by {
            if y == y0 + gy && x0 <= x < x0 + width {
                assert((y - y0) * width == gy * width);
            }
        }
        gy = gy + 1;
    }
}


/// One rasterised glyph: its coverage bitmap (`width` x `height` bytes,
/// row by row), its left edge `xmin` and its bottom edge `ymin` above the
/// baseline.
pub struct RasterGlyph {
    pub xmin: i32,
    pub ymin: i32,
    pub width: usize,
    pub height: usize,
    pub bitmap: Vec<u8>,
}

/// The cell height of the atlas: ascent minus descent, at least one row.
pub open spec fn cell_height(ascent: i32, descent: i32) -> int {
    if ascent - descent >= 1 {
        ascent - descent
    } else {
        1
    }
}

/// The coverage of pixel (x, y) of a glyph's cell, where the cell starts
/// empty and the glyph is placed on the baseline `ascent`.
pub open spec fn glyph_cell_byte(g: RasterGlyph, ascent: int, x: int, y: int) -> u8 {
    placed(0, x, y, g.xmin as int, glyph_top(ascent, g.ymin as int, g.height as int), g.width as int, g.height as int, g.bitmap@)
}

/// The glyph bytes of an atlas: one `cw` x `ch` cell per glyph, in order,
/// each row by row.
pub open spec fn atlas_cells(glyphs: Seq<RasterGlyph>, cw: int, ch: int, ascent: int) -> Seq<u8> {
    Seq::new(
        (glyphs.len() * (cw * ch)) as nat,
        |k: int|
            {
                let r = k % (cw * ch);
                glyph_cell_byte(glyphs[k / (cw * ch)], ascent, r % cw, r / cw)
            },
    )
}

/// The glyph's bitmap holds its pixels, and placing it stays within `i32`.
pub open spec fn glyph_fits(g: RasterGlyph, ascent: i32) -> bool {
    &&& g.width * g.height <= g.bitmap@.len()
    &&& g.width <= i32::MAX
    &&& g.height <= i32::MAX
    &&& g.xmin + g.width <= i32::MAX
    &&& i32::MIN <= glyph_top(ascent as int, g.ymin as int, g.height as int)
    &&& ascent - g.ymin <= i32::MAX
}

proof fn lemma_cell_of(k: int, cw: int, ch: int, n: int)
    requires
        0 <= k < n * (cw * ch),
        cw >= 0,
        ch >= 0,
    ensures
        cw * ch > 0,
        0 <= k / (cw * ch) < n,
        0 <= (k % (cw * ch)) % cw < cw,
        0 <= (k % (cw * ch)) / cw < ch,
        k == (k / (cw * ch)) * (cw * ch) + ((k % (cw * ch)) / cw) * cw + (k % (cw * ch)) % cw,
{
    let c = cw * ch;
    assert(c > 0) by (nonlinear_arith)
        requires 0 <= k < n * c, c >= 0;
    assert(cw > 0) by (nonlinear_arith)
        requires c == cw * ch, c > 0, cw >= 0, ch >= 0;
    let i = k / c;
    let r = k % c;
    vstd::arithmetic::div_mod::lemma_fundamental_div_mod(k, c);
    vstd::arithmetic::div_mod::lemma_mod_bound(k, c);
    vstd::arithmetic::div_mod::lemma_div_pos_is_pos(k, c);
    assert(i < n) by (nonlinear_arith)
        requires k == c * i + r, 0 <= r, k < n * c, c > 0;
    let y = r / cw;
    let x = r % cw;
    vstd::arithmetic::div_mod::lemma_fundamental_div_mod(r, cw);
    vstd::arithmetic::div_mod::lemma_mod_bound(r, cw);
    vstd::arithmetic::div_mod::lemma_div_pos_is_pos(r, cw);
    assert(y < ch) by (nonlinear_arith)
        requires r == cw * y + x, 0 <= x, r < c, c == cw * ch, cw > 0;
    assert(k == i * c + y * cw + x) by (nonlinear_arith)
        requires k == c * i + r, r == cw * y + x;
}

/// Bakes a glyph atlas: each glyph, in order, placed on the baseline
/// `ascent` of a fresh `cell_w` x `cell_height(ascent, descent)` cell, what
/// falls outside the cell cut off; then laid out as `encode_atlas` writes it,
/// the first glyph standing for code point `first`.
pub fn bake_atlas(first: u32, cell_w: usize, ascent: i32, descent: i32, glyphs: &[RasterGlyph]) -> (out: Vec<u8>)
    requires
        cell_w <= u32::MAX,
        glyphs@.len() <= u32::MAX,
        cell_w * cell_height(ascent, descent) <= usize::MAX,
        glyphs@.len() * (cell_w * cell_height(ascent, descent)) <= usize::MAX,
        forall|i: int| 0 <= i < glyphs@.len() ==> glyph_fits(#[trigger] glyphs@[i], ascent),
    ensures
        out@ == atlas_bytes(
            first,
            glyphs@.len() as u32,
            cell_w as u32,
            cell_height(ascent, descent) as u32,
            atlas_cells(glyphs@, cell_w as int, cell_height(ascent, descent), ascent as int),
        ),
{
    let rows: i64 = ascent as i64 - descent as i64;
    let cell_h: usize = if rows >= 1 { rows as usize } else { 1 };
    assert(cell_h == cell_height(ascent, descent));
    let cell = cell_w * cell_h;
    let n = glyphs.len();
    let total = n * cell;
    let mut atlas: Vec<u8> = vec![0u8; total];
    assert(forall|k: int| 0 <= k < total ==> atlas@[k] == 0u8);
    let mut i: usize = 0;
    while i < n
        invariant
            0 <= i <= n,
            n == glyphs@.len(),
            cell == cell_w * cell_h,
            total == n * cell,
            atlas@.len() == total,
            forall|j: int| 0 <= j < n ==> glyph_fits(#[trigger] glyphs@[j], ascent),
            forall|j: int, x: int, y: int|
                0 <= j < i && 0 <= x < cell_w && 0 <= y < cell_h ==> #[trigger] atlas@[j * (cell_w * cell_h) + y * cell_w
                    + x] == glyph_cell_byte(glyphs@[j], ascent as int, x, y),
            forall|k: int| i * cell <= k < total ==> #[trigger] atlas@[k] == 0u8,
        decreases n - i,
    {
        let g = &glyphs[i];
        assert(glyph_fits(glyphs@[i as int], ascent));
        assert(i * cell + cell <= n * cell) by (nonlinear_arith)
            requires i < n, cell >= 0;
        let ghost prev = atlas@;
        place_glyph(&mut atlas, i, cell_w, cell_h, ascent, g.xmin, g.ymin, g.width, g.height, &g.bitmap);
        assert forall|j: int, x: int, y: int|
            0 <= j < i + 1 && 0 <= x < cell_w && 0 <= y < cell_h implies #[trigger] atlas@[j * (cell_w * cell_h) + y
                * cell_w + x] == glyph_cell_byte(glyphs@[j], ascent as int, x, y) by {
            lemma_cell_index(x, y, cell_w as int, cell_h as int, j * cell);
            if j < i {
                assert(j * cell + cell <= i * cell) by (nonlinear_arith)
                    requires j < i, cell >= 0;
                assert(prev[j * (cell_w * cell_h) + y * cell_w + x] == glyph_cell_byte(glyphs@[j], ascent as int, x, y));
            } else {
                assert(prev[i * cell + y * cell_w + x] == 0u8);
            }
        }
        assert forall|k: int| (i + 1) * cell <= k < total implies #[trigger] atlas@[k] == 0u8 by {
            assert((i + 1) * cell == i * cell + cell) by (nonlinear_arith);
            assert(prev[k] == 0u8);
        }
        i = i + 1;
    }
    let ghost cells = atlas_cells(glyphs@, cell_w as int, cell_h as int, ascent as int);
    assert forall|k: int| 0 <= k < total implies atlas@[k] == cells[k] by {
        lemma_cell_of(k, cell_w as int, cell_h as int, n as int);
    }
    assert(atlas@ =~= cells);
    encode_atlas(first, n as u32, cell_w as u32, cell_h as u32, &atlas)
}

} // verus!
