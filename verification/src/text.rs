//! Drawing text with the glyph atlas.
use vstd::prelude::*;
use crate::font::Font;
use crate::framebuffer::{Framebuffer, Raster};
use crate::strings::chars_of;
use crate::theme::{Color, blend_spec};

verus! {

/// Pixel (a, b) of the glyph cell at (x, y) of width `cw`, if it is one.
pub open spec fn cell_index(a: int, b: int, x: int, y: int, cw: int) -> int {
    (b - y) * cw + (a - x)
}

/// The glyph cell of `rows` full rows and `cols` pixels of the next row.
pub open spec fn in_glyph_part(a: int, b: int, x: int, y: int, cw: int, rows: int, cols: int) -> bool {
    x <= a < x + cw && y <= b && (b < y + rows || (b == y + rows && a < x + cols))
}

/// Glyph coverage `g` blended in colour `fg` onto the cell at (x, y); the
/// first `rows` rows and `cols` pixels of the row after them.
pub open spec fn glyph_part(
    r: Raster,
    g: Seq<u8>,
    cw: int,
    x: int,
    y: int,
    rows: int,
    cols: int,
    fg: Color,
) -> Raster {
    Raster {
        px: |a: int, b: int|
            if r.in_bounds(a, b) && in_glyph_part(a, b, x, y, cw, rows, cols) && g[cell_index(a, b, x, y, cw)] != 0 {
                r.pack(blend_spec(Color { r: fg.r, g: fg.g, b: fg.b, a: g[cell_index(a, b, x, y, cw)] }, r.color_at(a, b)))
            } else {
                (r.px)(a, b)
            },
        ..r
    }
}

/// One character drawn with its left edge at x: its glyph, if the font has
/// one (a character without a glyph leaves a blank cell).
pub open spec fn char_raster(r: Raster, font: &Font, x: int, y: int, c: char, fg: Color) -> Raster {
    match font.glyph_spec(c) {
        Some(g) => glyph_part(r, g, font.cell_width() as int, x, y, font.cell_height() as int, 0, fg),
        None => r,
    }
}

/// `chars` drawn left to right, one cell each, from (x, y).
pub open spec fn text_raster(r: Raster, font: &Font, x: int, y: int, chars: Seq<char>, fg: Color) -> Raster
    decreases chars.len(),
{
    if chars.len() == 0 {
        r
    } else {
        char_raster(
            text_raster(r, font, x, y, chars.drop_last(), fg),
            font,
            x + (chars.len() - 1) * font.cell_width(),
            y,
            chars.last(),
            fg,
        )
    }
}

/// Text drawn at (x, y) changes no pixel outside its cells: the rectangle
/// `chars.len()` cells wide and one cell high.
pub proof fn lemma_text_frame(r: Raster, font: &Font, x: int, y: int, chars: Seq<char>, fg: Color, a: int, b: int)
    requires
        font.cell_width() > 0,
        !(x <= a < x + chars.len() * font.cell_width() && y <= b < y + font.cell_height()),
    ensures
        (text_raster(r, font, x, y, chars, fg).px)(a, b) == (r.px)(a, b),
    decreases chars.len(),
{
    if chars.len() > 0 {
        let cw = font.cell_width() as int;
        let n = chars.len() - 1;
        assert(n * cw + cw == chars.len() * cw) by (nonlinear_arith)
            requires n == chars.len() - 1;
        assert(n * cw <= chars.len() * cw) by (nonlinear_arith)
            requires n == chars.len() - 1, cw > 0;
        lemma_text_frame(r, font, x, y, chars.drop_last(), fg, a, b);
    }
}

/// Draws `text` in the monospace font with (x0, y0) the top-left corner of
/// its first cell; every glyph pixel is blended in `fg` with the glyph's
/// coverage as alpha. Characters outside the atlas leave a blank cell.
pub fn draw_text(fb: &mut Framebuffer, font: &Font, x0: usize, y0: usize, text: &str, fg: Color)
    requires
        old(fb).wf(),
        font.wf(),
        x0 + text@.len() * font.cell_width() <= usize::MAX,
        y0 + font.cell_height() <= usize::MAX,
    ensures
        final(fb).wf(),
        final(fb).spec_pitch() == old(fb).spec_pitch(),
        final(fb).spec_bpp() == old(fb).spec_bpp(),
        final(fb).view() == text_raster(old(fb).view(), font, x0 as int, y0 as int, text@, fg),
        final(fb).view().same_frame(old(fb).view()),
{
    let chars = chars_of(text);
    let ghost v0 = fb.view();
    let cw = font.cell_w();
    let chh = font.cell_h();
    let mut cursor_x = x0;
    let mut i: usize = 0;
    assert(chars@.take(0) =~= seq![]);
    while i < chars.len()
        invariant
            fb.wf(),
            font.wf(),
            fb.spec_pitch() == old(fb).spec_pitch(),
            fb.spec_bpp() == old(fb).spec_bpp(),
            v0 == old(fb).view(),
            chars@ == text@,
            cw == font.cell_width(),
            chh == font.cell_height(),
            i <= chars@.len(),
            cursor_x == x0 + i * cw,
            x0 + chars@.len() * cw <= usize::MAX,
            y0 + chh <= usize::MAX,
            fb.view() == text_raster(v0, font, x0 as int, y0 as int, chars@.take(i as int), fg),
            fb.view().same_frame(v0),
        decreases chars.len() - i,
    {
        let ghost before = fb.view();
        assert(chars@.take(i + 1).drop_last() =~= chars@.take(i as int));
        assert(chars@.take(i + 1).last() == chars@[i as int]);
        assert(x0 + (i + 1) * cw <= x0 + chars@.len() * cw) by (nonlinear_arith)
            requires i + 1 <= chars@.len(), cw >= 0;
        assert((i + 1) * cw == i * cw + cw) by (nonlinear_arith);
        match font.glyph(chars[i]) {
            Some(glyph) => {
                let ghost g = glyph@;
                let mut gy: usize = 0;
                assert(before =~= glyph_part(before, g, cw as int, cursor_x as int, y0 as int, 0, 0, fg));
                while gy < chh
                    invariant
                        fb.wf(),
                        fb.spec_pitch() == old(fb).spec_pitch(),
                        fb.spec_bpp() == old(fb).spec_bpp(),
                        g == glyph@,
                        g.len() == cw * chh,
                        cw * chh <= usize::MAX,
                        gy <= chh,
                        cursor_x + cw <= usize::MAX,
                        y0 + chh <= usize::MAX,
                        fb.view() == glyph_part(before, g, cw as int, cursor_x as int, y0 as int, gy as int, 0, fg),
                        before.same_frame(v0),
                    decreases chh - gy,
                {
                    let mut gx: usize = 0;
                    while gx < cw
                        invariant
                            fb.wf(),
                            fb.spec_pitch() == old(fb).spec_pitch(),
                            fb.spec_bpp() == old(fb).spec_bpp(),
                            g == glyph@,
                            g.len() == cw * chh,
                            cw * chh <= usize::MAX,
                            gy < chh,
                            gx <= cw,
                            cursor_x + cw <= usize::MAX,
                            y0 + chh <= usize::MAX,
                            fb.view() == glyph_part(before, g, cw as int, cursor_x as int, y0 as int, gy as int, gx as int, fg),
                            before.same_frame(v0),
                        decreases cw - gx,
                    {
                        assert(gy * cw + gx < cw * chh) by (nonlinear_arith)
                            requires gy < chh, gx < cw;
                        let coverage = glyph[gy * cw + gx];
                        let px = cursor_x + gx;
                        let py = y0 + gy;
                        if coverage != 0 {
                            let px_color = Color::rgba(fg.r, fg.g, fg.b, coverage);
                            fb.blend_pixel(px, py, px_color);
                        }
                        proof {
                            let cur = fb.view();
                            let tgt = glyph_part(before, g, cw as int, cursor_x as int, y0 as int, gy as int, gx + 1, fg);
                            assert(cell_index(px as int, py as int, cursor_x as int, y0 as int, cw as int) == gy * cw + gx);
                            assert forall|a: int, b: int| #[trigger] (cur.px)(a, b) == (tgt.px)(a, b) by {
                                if a == px && b == py {
                                } else {
                                }
                            }
                            assert(cur =~= tgt);
                        }
                        gx = gx + 1;
                    }
                    assert(fb.view() =~= glyph_part(before, g, cw as int, cursor_x as int, y0 as int, gy + 1, 0, fg));
                    gy = gy + 1;
                }
            },
            None => {},
        }
        cursor_x = cursor_x + cw;
        i = i + 1;
    }
    assert(chars@.take(chars@.len() as int) =~= chars@);
}

} // verus!
