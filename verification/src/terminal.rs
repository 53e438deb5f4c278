//! Rendering of the desktop: wallpaper, status bar and the translucent
//! panel that each mode (shell, file manager, theme menu, theme editor)
//! fills in its own way.
//!
//! The full-frame functions (`draw_desktop`, ...) repaint wallpaper and bar
//! too and are meant for the first frame and theme changes; the `_panel`
//! functions repaint only the panel area, for ordinary key presses.
use vstd::prelude::*;
use crate::bitmap::Bitmap;
use crate::font::Font;
use crate::framebuffer::{lemma_view_outside, Framebuffer, Raster};
use crate::fs::str_views;
use crate::nano::{main_shortcuts, main_shortcuts_spec, title_parts, NanoScreen, NanoScreenView};
use crate::strings::{append_chars, chars_of, string_of, copy_range};
use crate::text::{draw_text, text_raster};
use crate::theme::{BarPosition, BuiltinWallpaper, Color, PanelShape, Theme, Wallpaper};

verus! {

broadcast use crate::framebuffer::lemma_view_size;

pub open spec fn sat_sub(a: int, b: int) -> int {
    if a > b { a - b } else { 0 }
}

pub open spec fn min_int(a: int, b: int) -> int {
    if a < b { a } else { b }
}

pub open spec fn max1(a: int) -> int {
    if a > 1 { a } else { 1 }
}

/// At most the first `n` characters of `s`.
pub open spec fn clip(s: Seq<char>, n: int) -> Seq<char> {
    if s.len() > n { s.take(n) } else { s }
}

/// The first `max_cols` characters of `s`, so that text stays inside the panel.
fn clip_to_cols(s: &[char], max_cols: usize) -> (r: String)
    ensures
        r@ == clip(s@, max_cols as int),
{
    if s.len() > max_cols {
        let v = copy_range(s, 0, max_cols);
        assert(s@.subrange(0, max_cols as int) =~= s@.take(max_cols as int));
        string_of(v.as_slice())
    } else {
        string_of(s)
    }
}

/// Height of the bar as far as the panel is concerned (none when hidden).
pub open spec fn bar_space(t: Theme) -> int {
    match t.bar.position {
        BarPosition::Hidden => 0,
        _ => t.bar.height_px as int,
    }
}

/// The panel rectangle (x, y, w, h) on a `width` x `height` screen: the
/// area inside the padding and above or below the bar, or for a square
/// panel the largest square centred in it.
pub open spec fn panel_spec(width: int, height: int, t: Theme) -> (int, int, int, int) {
    let pad = t.terminal_padding_px as int;
    let aw = sat_sub(width, pad * 2);
    let ah = sat_sub(height, pad * 2 + bar_space(t));
    match t.panel_shape {
        PanelShape::Fill => (pad, pad, aw, ah),
        PanelShape::Square => {
            let side = min_int(aw, ah);
            (pad + sat_sub(aw, side) / 2, pad + sat_sub(ah, side) / 2, side, side)
        },
    }
}

/// The sizes stay far enough below the address range that no pixel
/// coordinate computed while drawing can overflow.
pub open spec fn sizes_fit(width: int, height: int, t: Theme, font: &Font) -> bool {
    16 * (width + height + t.terminal_padding_px + t.bar.height_px + font.cell_width()
        + font.cell_height() + 64) <= usize::MAX
}

/// The panel geometry of the current screen and theme.
fn panel_geometry(fb: &Framebuffer, theme: &Theme) -> (r: (usize, usize, usize, usize))
    requires
        4 * (fb.view().width + fb.view().height + theme.terminal_padding_px + theme.bar.height_px)
            <= usize::MAX,
    ensures
        (r.0 as int, r.1 as int, r.2 as int, r.3 as int) == panel_spec(fb.view().width, fb.view().height, *theme),
{
    let pad = theme.terminal_padding_px as usize;
    let bar_h = match theme.bar.position {
        BarPosition::Hidden => 0,
        _ => theme.bar.height_px as usize,
    };
    let width = fb.width();
    let height = fb.height();
    let avail_w = width.saturating_sub(pad * 2);
    let avail_h = height.saturating_sub(pad * 2 + bar_h);
    match theme.panel_shape {
        PanelShape::Fill => (pad, pad, avail_w, avail_h),
        PanelShape::Square => {
            let side = if avail_w < avail_h { avail_w } else { avail_h };
            let x0 = pad + (avail_w.saturating_sub(side)) / 2;
            let y0 = pad + (avail_h.saturating_sub(side)) / 2;
            (x0, y0, side, side)
        },
    }
}

/// The panel lies inside the padding, clear of the bar, and a square panel
/// is a square centred in that area.
pub proof fn law_panel_inside(width: int, height: int, t: Theme)
    requires
        width >= 0,
        height >= 0,
    ensures
        ({
            let (x, y, w, h) = panel_spec(width, height, t);
            let pad = t.terminal_padding_px as int;
            &&& x >= pad
            &&& y >= pad
            &&& w >= 0
            &&& h >= 0
            &&& x - pad + w <= sat_sub(width, pad * 2)
            &&& y - pad + h <= sat_sub(height, pad * 2 + bar_space(t))
            &&& t.panel_shape == PanelShape::Square ==> w == h
                && x - pad == (sat_sub(width, pad * 2) - w) / 2
                && y - pad == (sat_sub(height, pad * 2 + bar_space(t)) - h) / 2
        }),
{
}

/// The built-in wallpaper pictures.
pub struct Wallpapers {
    pub default: Bitmap,
    pub autumn: Bitmap,
    pub snow: Bitmap,
}

impl Wallpapers {
    pub open spec fn spec_get(&self, id: BuiltinWallpaper) -> &Bitmap {
        match id {
            BuiltinWallpaper::Default => &self.default,
            BuiltinWallpaper::Autumn => &self.autumn,
            BuiltinWallpaper::Snow => &self.snow,
        }
    }

    pub fn get(&self, id: BuiltinWallpaper) -> (b: &Bitmap)
        ensures
            b == self.spec_get(id),
    {
        match id {
            BuiltinWallpaper::Default => &self.default,
            BuiltinWallpaper::Autumn => &self.autumn,
            BuiltinWallpaper::Snow => &self.snow,
        }
    }
}

/// One channel of the vertical gradient at mix `t` (0 = top, 255 = bottom).
pub open spec fn mix_channel(top: u8, bottom: u8, t: int) -> int {
    (top as int * (255 - t) + bottom as int * t) / 255
}

/// The colour of row `y` of a vertical gradient over `h` rows.
pub open spec fn gradient_color(top: Color, bottom: Color, y: int, h: int) -> Color {
    let t = y * 255 / max1(h);
    Color {
        r: mix_channel(top.r, bottom.r, t) as u8,
        g: mix_channel(top.g, bottom.g, t) as u8,
        b: mix_channel(top.b, bottom.b, t) as u8,
        a: 255,
    }
}

/// The wallpaper of `t` painted over the whole picture.
pub open spec fn wallpaper_raster(r: Raster, t: Theme, wp: &Wallpapers) -> Raster {
    match t.wallpaper {
        Wallpaper::Solid(c) => r.fill(0, 0, r.width, r.height, c),
        Wallpaper::VerticalGradient(top, bottom) => r.paint(
            r.width,
            r.height,
            |x: int, y: int| gradient_color(top, bottom, y, r.height),
        ),
        Wallpaper::Bitmap(id) => r.paint(
            r.width,
            r.height,
            wp.spec_get(id).scaled(max1(r.width), max1(r.height)),
        ),
    }
}

/// What painting the wallpaper of `t` asks: bitmaps that hold their
/// pictures, and sizes for which the scaling arithmetic stays in u32.
pub open spec fn wallpaper_fits(width: int, height: int, t: Theme, wp: &Wallpapers) -> bool {
    match t.wallpaper {
        Wallpaper::Solid(_) => true,
        Wallpaper::VerticalGradient(_, _) => height <= u32::MAX && (height - 1) * 255 <= u32::MAX,
        Wallpaper::Bitmap(id) => {
            &&& wp.spec_get(id).wf()
            &&& width * wp.spec_get(id).width <= u32::MAX
            &&& height * wp.spec_get(id).height <= u32::MAX
        },
    }
}

proof fn lemma_mix_channel(top: u8, bottom: u8, t: int)
    requires
        0 <= t <= 255,
    ensures
        0 <= mix_channel(top, bottom, t) <= 255,
        0 <= top as int * (255 - t) + bottom as int * t <= 255 * 255,
{
    let a = top as int;
    let b = bottom as int;
    assert(0 <= a * (255 - t) + b * t <= 255 * 255) by (nonlinear_arith)
        requires 0 <= a <= 255, 0 <= b <= 255, 0 <= t <= 255;
}

fn draw_wallpaper(fb: &mut Framebuffer, theme: &Theme, wp: &Wallpapers)
    requires
        old(fb).wf(),
        wallpaper_fits(old(fb).view().width, old(fb).view().height, *theme, wp),
    ensures
        final(fb).wf(),
        final(fb).spec_pitch() == old(fb).spec_pitch(),
        final(fb).spec_bpp() == old(fb).spec_bpp(),
        final(fb).view() == wallpaper_raster(old(fb).view(), *theme, wp),
        final(fb).view().same_frame(old(fb).view()),
{
    match theme.wallpaper {
        Wallpaper::Solid(color) => {
            let w = fb.width();
            let h = fb.height();
            fb.fill_rect(0, 0, w, h, color);
        },
        Wallpaper::VerticalGradient(top, bottom) => {
            let ghost v0 = fb.view();
            let ghost f = |x: int, y: int| gradient_color(top, bottom, y, v0.height);
            let fw = fb.width();
            let fh = fb.height();
            let hh: u32 = if fh > 1 { fh as u32 } else { 1 };
            let mut y: usize = 0;
            while y < fh
                invariant
                    fb.wf(),
                    fb.spec_pitch() == old(fb).spec_pitch(),
                    fb.spec_bpp() == old(fb).spec_bpp(),
                    v0 == old(fb).view(),
                    fw == v0.width,
                    fh == v0.height,
                    fh <= u32::MAX,
                    (fh - 1) * 255 <= u32::MAX,
                    hh == max1(fh as int),
                    f == (|x: int, y: int| gradient_color(top, bottom, y, v0.height)),
                    y <= fh,
                    fb.view() == v0.paint_upto(fw as int, y as int, 0, f),
                decreases fh - y,
            {
                let t = y as u32 * 255 / hh;
                assert(t <= 255) by (nonlinear_arith)
                    requires t == (y * 255) / hh as int, y < hh, hh >= 1;
                proof {
                    lemma_mix_channel(top.r, bottom.r, t as int);
                    lemma_mix_channel(top.g, bottom.g, t as int);
                    lemma_mix_channel(top.b, bottom.b, t as int);
                }
                let r = (top.r as u32 * (255 - t) + bottom.r as u32 * t) / 255;
                let g = (top.g as u32 * (255 - t) + bottom.g as u32 * t) / 255;
                let b = (top.b as u32 * (255 - t) + bottom.b as u32 * t) / 255;
                let color = Color::rgb(r as u8, g as u8, b as u8);
                assert(color == gradient_color(top, bottom, y as int, v0.height));
                let mut x: usize = 0;
                while x < fw
                    invariant
                        fb.wf(),
                        fb.spec_pitch() == old(fb).spec_pitch(),
                        fb.spec_bpp() == old(fb).spec_bpp(),
                        v0 == old(fb).view(),
                        fw == v0.width,
                        fh == v0.height,
                        f == (|x: int, y: int| gradient_color(top, bottom, y, v0.height)),
                        color == gradient_color(top, bottom, y as int, v0.height),
                        y < fh,
                        x <= fw,
                        fb.view() == v0.paint_upto(fw as int, y as int, x as int, f),
                    decreases fw - x,
                {
                    fb.put_pixel(x, y, color);
                    assert(fb.view() =~= v0.paint_upto(fw as int, y as int, x + 1, f));
                    x = x + 1;
                }
                assert(fb.view() =~= v0.paint_upto(fw as int, y + 1, 0, f));
                y = y + 1;
            }
            assert(fb.view() =~= v0.paint(fw as int, fh as int, f));
        },
        Wallpaper::Bitmap(id) => {
            let bmp = wp.get(id);
            bmp.blit_scaled(fb);
            assert(fb.view() =~= wallpaper_raster(old(fb).view(), *theme, wp));
        },
    }
}

/// Where the bar goes: its top row, or `None` when it is hidden.
pub open spec fn bar_top(height: int, t: Theme) -> Option<int> {
    match t.bar.position {
        BarPosition::Top => Some(0),
        BarPosition::Bottom => Some(sat_sub(height, t.bar.height_px as int)),
        BarPosition::Hidden => None,
    }
}

pub open spec fn bar_raster(r: Raster, t: Theme) -> Raster {
    match bar_top(r.height, t) {
        Some(y0) => r.fill_blended(0, y0, r.width, t.bar.height_px as int, t.bar.background),
        None => r,
    }
}

fn draw_bar(fb: &mut Framebuffer, theme: &Theme)
    requires
        old(fb).wf(),
        old(fb).view().height + theme.bar.height_px <= usize::MAX,
    ensures
        final(fb).wf(),
        final(fb).spec_pitch() == old(fb).spec_pitch(),
        final(fb).spec_bpp() == old(fb).spec_bpp(),
        final(fb).view() == bar_raster(old(fb).view(), *theme),
        final(fb).view().same_frame(old(fb).view()),
{
    let h = theme.bar.height_px as usize;
    let y0 = match theme.bar.position {
        BarPosition::Top => 0,
        BarPosition::Bottom => fb.height().saturating_sub(h),
        BarPosition::Hidden => return,
    };
    let w = fb.width();
    fb.fill_rect_blended(0, y0, w, h, theme.bar.background);
}

/// Rows of text that fit in a panel of height `h` (at least one).
pub open spec fn max_rows(h: int, ch: int) -> int {
    max1(sat_sub(h, 24) / ch)
}

/// Columns of text that fit in a panel of width `w` (at least one).
pub open spec fn max_cols(w: int, cw: int) -> int {
    max1(sat_sub(w, 24) / cw)
}

proof fn lemma_fit(a: int, c: int)
    requires
        a >= 0,
        c > 0,
    ensures
        max1(a / c) * c <= a + c,
        max1(a / c) >= 1,
{
    assert((a / c) * c <= a) by (nonlinear_arith)
        requires a >= 0, c > 0;
}

/// Lines drawn one below the other from (x, y), one cell high each.
pub open spec fn text_lines(r: Raster, font: &Font, x: int, y: int, lines: Seq<Seq<char>>, fg: Color) -> Raster
    decreases lines.len(),
{
    if lines.len() == 0 {
        r
    } else {
        text_raster(
            text_lines(r, font, x, y, lines.drop_last(), fg),
            font,
            x,
            y + (lines.len() - 1) * font.cell_height(),
            lines.last(),
            fg,
        )
    }
}

pub open spec fn clip_all(lines: Seq<Seq<char>>, n: int) -> Seq<Seq<char>> {
    lines.map_values(|l: Seq<char>| clip(l, n))
}

/// The shell panel: history lines that fit above a `> ` prompt line with
/// the input text and a block cursor at `cursor`.
pub open spec fn terminal_panel_drawing(
    r: Raster,
    t: Theme,
    font: &Font,
    history: Seq<Seq<char>>,
    input: Seq<char>,
    cursor: int,
) -> Raster {
    let (x0, y0, w, h) = panel_spec(r.width, r.height, t);
    let cw = font.cell_width() as int;
    let ch = font.cell_height() as int;
    let r1 = r.fill_blended(x0, y0, w, h, t.terminal_bg);
    let text_x = x0 + 12;
    let mc = max_cols(w, cw);
    let start = sat_sub(history.len() as int, sat_sub(max_rows(h, ch), 1));
    let shown = clip_all(history.skip(start), mc);
    let r2 = text_lines(r1, font, text_x, y0 + 12, shown, t.terminal_fg);
    let text_y = y0 + 12 + shown.len() * ch;
    let r3 = text_raster(r2, font, text_x, text_y, "> "@, t.terminal_fg);
    let input_x = text_x + "> "@.len() * cw;
    let imc = sat_sub(mc, "> "@.len() as int);
    let r4 = text_raster(r3, font, input_x, text_y, clip(input, imc), t.terminal_fg);
    r4.fill(input_x + min_int(cursor, imc) * cw, text_y, cw, ch, t.cursor)
}

/// Draws the shell panel on a frame as it lays out, text and cursor not
/// clipped to the panel (`draw_*_panel` clip it).
#[verifier::rlimit(80)]
#[verifier::spinoff_prover]
fn paint_terminal_panel(
    fb: &mut Framebuffer,
    theme: &Theme,
    font: &Font,
    history: &[String],
    prompt_text: &str,
    prompt_cursor: usize,
)
    requires
        old(fb).wf(),
        font.wf(),
        font.cell_width() > 0,
        font.cell_height() > 0,
        sizes_fit(old(fb).view().width, old(fb).view().height, *theme, font),
    ensures
        final(fb).view().same_frame(old(fb).view()),
        final(fb).wf(),
        final(fb).spec_pitch() == old(fb).spec_pitch(),
        final(fb).spec_bpp() == old(fb).spec_bpp(),
        final(fb).view() == terminal_panel_drawing(
            old(fb).view(),
            *theme,
            font,
            history@.map_values(|s: String| s@),
            prompt_text@,
            prompt_cursor as int,
        ),
{
    let ghost v0 = fb.view();
    let ghost hv = history@.map_values(|s: String| s@);
    let fw = fb.width();
    let fh = fb.height();
    let (x0, y0, w, h) = panel_geometry(fb, theme);
    proof { law_panel_inside(fw as int, fh as int, *theme); }
    fb.fill_rect_blended(x0, y0, w, h, theme.terminal_bg);
    let ghost r1 = fb.view();
    let cw = font.cell_w();
    let ch = font.cell_h();
    let inner_pad: usize = 12;
    let text_x = x0 + inner_pad;
    let usable_h = h.saturating_sub(inner_pad * 2);
    let usable_w = w.saturating_sub(inner_pad * 2);
    let max_rows = if usable_h / ch > 1 { usable_h / ch } else { 1 };
    let max_cols = if usable_w / cw > 1 { usable_w / cw } else { 1 };
    proof {
        lemma_fit(usable_h as int, ch as int);
        lemma_fit(usable_w as int, cw as int);
    }
    let history_rows = max_rows.saturating_sub(1);
    assert(history_rows * ch <= usable_h) by (nonlinear_arith)
        requires history_rows <= max_rows - 1, max_rows * ch <= usable_h + ch, ch > 0;
    let start = history.len().saturating_sub(history_rows);
    let ghost shown = clip_all(hv.skip(start as int), max_cols as int);
    let mut text_y = y0 + inner_pad;
    let mut i = start;
    assert(shown.take(0) =~= seq![]);
    while i < history.len()
        invariant
            fb.view().same_frame(v0),
            fb.wf(),
            font.wf(),
            fb.spec_pitch() == old(fb).spec_pitch(),
            fb.spec_bpp() == old(fb).spec_bpp(),
            cw == font.cell_width(),
            ch == font.cell_height(),
            cw > 0,
            ch > 0,
            hv == history@.map_values(|s: String| s@),
            shown == clip_all(hv.skip(start as int), max_cols as int),
            start <= i <= history@.len(),
            history@.len() - start <= history_rows,
            history_rows < max_rows,
            max_rows * ch <= usable_h + ch,
            history_rows * ch <= usable_h,
            max_cols * cw <= usable_w + cw,
            usable_w <= w,
            usable_h <= h,
            text_x == x0 + 12,
            16 * (v0.width + v0.height + theme.terminal_padding_px + theme.bar.height_px + cw + ch + 64)
                <= usize::MAX,
            x0 <= theme.terminal_padding_px + v0.width,
            y0 <= theme.terminal_padding_px + v0.height,
            w <= v0.width,
            h <= v0.height,
            text_y == y0 + 12 + (i - start) * ch,
            fb.view() == text_lines(r1, font, text_x as int, (y0 + 12) as int, shown.take(i - start), theme.terminal_fg),
        decreases history.len() - i,
    {
        let line = chars_of(history[i].as_str());
        let clipped = clip_to_cols(line.as_slice(), max_cols);
        assert((i - start + 1) * ch <= history_rows * ch) by (nonlinear_arith)
            requires i - start + 1 <= history_rows, ch > 0;
        assert((i - start + 1) * ch == (i - start) * ch + ch) by (nonlinear_arith);
        assert(clipped@.len() * cw <= max_cols * cw) by (nonlinear_arith)
            requires clipped@.len() <= max_cols, cw > 0;
        draw_text(fb, font, text_x, text_y, clipped.as_str(), theme.terminal_fg);
        proof {
            let k = i - start;
            assert(shown.take(k + 1).drop_last() =~= shown.take(k));
            assert(shown.take(k + 1).last() == clipped@);
            assert(text_y + 0 == y0 + 12 + k * ch);
        }
        assert((i - start + 1) * ch == (i - start) * ch + ch) by (nonlinear_arith);
        text_y = text_y + ch;
        i = i + 1;
    }
    assert(shown.take(history@.len() - start) =~= shown);
    let prompt = "> ";
    proof { reveal_strlit("> "); }
    let pchars = chars_of(prompt);
    assert((history@.len() - start) * ch <= history_rows * ch) by (nonlinear_arith)
        requires history@.len() - start <= history_rows, ch > 0;
    draw_text(fb, font, text_x, text_y, prompt, theme.terminal_fg);
    let plen = pchars.len();
    let input_x = text_x + plen * cw;
    let input_max_cols = max_cols.saturating_sub(plen);
    let pv = chars_of(prompt_text);
    let clipped = clip_to_cols(pv.as_slice(), input_max_cols);
    assert(clipped@.len() * cw <= max_cols * cw) by (nonlinear_arith)
        requires clipped@.len() <= input_max_cols, input_max_cols <= max_cols, cw > 0;
    assert(plen * cw + input_max_cols * cw <= max_cols * cw + 2 * cw) by (nonlinear_arith)
        requires plen == 2, input_max_cols == if max_cols > plen { max_cols - plen } else { 0 }, cw > 0;
    draw_text(fb, font, input_x, text_y, clipped.as_str(), theme.terminal_fg);
    let col = if prompt_cursor < input_max_cols { prompt_cursor } else { input_max_cols };
    assert(col * cw <= input_max_cols * cw) by (nonlinear_arith)
        requires col <= input_max_cols, cw > 0;
    let cursor_x = input_x + col * cw;
    fb.fill_rect(cursor_x, text_y, cw, ch, theme.cursor);
}

/// The terminal panel as drawn on the whole frame, kept to the panel rectangle:
/// nothing outside the panel changes.
pub open spec fn terminal_panel_raster(
    r: Raster,
    t: Theme,
    font: &Font,
    history: Seq<Seq<char>>,
    input: Seq<char>,
    cursor: int,
) -> Raster {
    let (x0, y0, w, h) = panel_spec(r.width, r.height, t);
    r.with_rect_from(terminal_panel_drawing(r, t, font, history, input, cursor), x0, y0, w, h)
}

/// Repaints only the panel (the light repaint after a key press): the
/// panel is drawn off screen and its rectangle copied in, so text and
/// cursor are clipped to it.
pub fn draw_terminal_panel(
    fb: &mut Framebuffer,
    theme: &Theme,
    font: &Font,
    history: &[String],
    prompt_text: &str,
    prompt_cursor: usize,
)
    requires
        old(fb).wf(),
        font.wf(),
        font.cell_width() > 0,
        font.cell_height() > 0,
        sizes_fit(old(fb).view().width, old(fb).view().height, *theme, font),
    ensures
        final(fb).wf(),
        final(fb).spec_pitch() == old(fb).spec_pitch(),
        final(fb).spec_bpp() == old(fb).spec_bpp(),
        final(fb).view() == terminal_panel_raster(
            old(fb).view(),
            *theme,
            font,
            history@.map_values(|s: String| s@),
            prompt_text@,
            prompt_cursor as int,
        ),
{
    let fw = fb.width();
    let fh = fb.height();
    let (x0, y0, w, h) = panel_geometry(fb, theme);
    proof { law_panel_inside(fw as int, fh as int, *theme); }
    let mut scratch = fb.copy();
    paint_terminal_panel(&mut scratch, theme, font, history, prompt_text, prompt_cursor);
    fb.copy_rect_from(&scratch, x0, y0, w, h);
}

/// Full frame of the shell: wallpaper, bar and panel (first frame and
/// theme changes).
pub fn draw_desktop(
    fb: &mut Framebuffer,
    theme: &Theme,
    wallpapers: &Wallpapers,
    font: &Font,
    history: &[String],
    prompt_text: &str,
    prompt_cursor: usize,
)
    requires
        old(fb).wf(),
        font.wf(),
        font.cell_width() > 0,
        font.cell_height() > 0,
        sizes_fit(old(fb).view().width, old(fb).view().height, *theme, font),
        wallpaper_fits(old(fb).view().width, old(fb).view().height, *theme, wallpapers),
    ensures
        final(fb).wf(),
        final(fb).spec_pitch() == old(fb).spec_pitch(),
        final(fb).spec_bpp() == old(fb).spec_bpp(),
        final(fb).view() == terminal_panel_raster(
            bar_raster(wallpaper_raster(old(fb).view(), *theme, wallpapers), *theme),
            *theme,
            font,
            history@.map_values(|s: String| s@),
            prompt_text@,
            prompt_cursor as int,
        ),
{
    draw_wallpaper(fb, theme, wallpapers);
    draw_bar(fb, theme);
    draw_terminal_panel(fb, theme, font, history, prompt_text, prompt_cursor);
}

/// Items listed one per row from (x, y): the item whose index (counted
/// from `first`) is `selected` gets a bar of `bar_w` pixels in the cursor
/// colour and is written in `hl`; the others in the foreground colour.
/// Each text starts one cell right of x and is clipped to `cols`.
pub open spec fn item_rows(
    r: Raster,
    font: &Font,
    t: Theme,
    x: int,
    y: int,
    items: Seq<Seq<char>>,
    first: int,
    selected: int,
    cols: int,
    bar_w: int,
    hl: Color,
) -> Raster
    decreases items.len(),
{
    if items.len() == 0 {
        r
    } else {
        let prev = item_rows(r, font, t, x, y, items.drop_last(), first, selected, cols, bar_w, hl);
        let j = items.len() - 1;
        let yy = y + j * font.cell_height();
        let cw = font.cell_width() as int;
        if first + j == selected {
            text_raster(prev.fill(x, yy, bar_w, font.cell_height() as int, t.cursor), font, x + cw, yy, clip(items.last(), cols), hl)
        } else {
            text_raster(prev, font, x + cw, yy, clip(items.last(), cols), t.terminal_fg)
        }
    }
}

/// Draws `items[lo..hi]` as `item_rows` does.
fn draw_item_rows(
    fb: &mut Framebuffer,
    font: &Font,
    theme: &Theme,
    x: usize,
    y: usize,
    items: &Vec<Vec<char>>,
    lo: usize,
    hi: usize,
    selected: usize,
    cols: usize,
    bar_w: usize,
    hl: Color,
)
    requires
        old(fb).wf(),
        font.wf(),
        font.cell_width() > 0,
        font.cell_height() > 0,
        lo <= hi <= items@.len(),
        x + font.cell_width() + cols * font.cell_width() <= usize::MAX,
        x + bar_w <= usize::MAX,
        y + (hi - lo) * font.cell_height() <= usize::MAX,
    ensures
        final(fb).view().same_frame(old(fb).view()),
        final(fb).wf(),
        final(fb).spec_pitch() == old(fb).spec_pitch(),
        final(fb).spec_bpp() == old(fb).spec_bpp(),
        final(fb).view() == item_rows(
            old(fb).view(),
            font,
            *theme,
            x as int,
            y as int,
            crate::strings::views(items@).subrange(lo as int, hi as int),
            lo as int,
            selected as int,
            cols as int,
            bar_w as int,
            hl,
        ),
{
    let ghost v0 = fb.view();
    let ghost all = crate::strings::views(items@).subrange(lo as int, hi as int);
    let cw = font.cell_w();
    let ch = font.cell_h();
    let mut i = lo;
    let mut yy = y;
    assert(all.take(0) =~= seq![]);
    while i < hi
        invariant
            fb.wf(),
            fb.view().same_frame(v0),
            font.wf(),
            fb.spec_pitch() == old(fb).spec_pitch(),
            fb.spec_bpp() == old(fb).spec_bpp(),
            cw == font.cell_width(),
            ch == font.cell_height(),
            cw > 0,
            ch > 0,
            lo <= i <= hi,
            hi <= items@.len(),
            all == crate::strings::views(items@).subrange(lo as int, hi as int),
            x + cw + cols * cw <= usize::MAX,
            x + bar_w <= usize::MAX,
            y + (hi - lo) * ch <= usize::MAX,
            yy == y + (i - lo) * ch,
            fb.view() == item_rows(v0, font, *theme, x as int, y as int, all.take(i - lo), lo as int,
                selected as int, cols as int, bar_w as int, hl),
        decreases hi - i,
    {
        assert((i - lo + 1) * ch <= (hi - lo) * ch) by (nonlinear_arith)
            requires i - lo + 1 <= hi - lo, ch > 0;
        assert((i - lo + 1) * ch == (i - lo) * ch + ch) by (nonlinear_arith);
        let clipped = clip_to_cols(items[i].as_slice(), cols);
        assert(clipped@.len() * cw <= cols * cw) by (nonlinear_arith)
            requires clipped@.len() <= cols, cw > 0;
        proof {
            let k = i - lo;
            assert(all.take(k + 1).drop_last() =~= all.take(k));
            assert(all.take(k + 1).last() == items@[i as int]@);
        }
        if i == selected {
            fb.fill_rect(x, yy, bar_w, ch, theme.cursor);
            draw_text(fb, font, x + cw, yy, clipped.as_str(), hl);
        } else {
            draw_text(fb, font, x + cw, yy, clipped.as_str(), theme.terminal_fg);
        }
        yy = yy + ch;
        i = i + 1;
    }
    assert(all.take(hi - lo) =~= all);
}

/// The colour of highlighted text: the panel background, made opaque.
pub open spec fn highlight_fg(t: Theme) -> Color {
    Color { r: t.terminal_bg.r, g: t.terminal_bg.g, b: t.terminal_bg.b, a: 255 }
}

/// The header and the first list row of a list panel.
pub open spec fn list_header(r: Raster, t: Theme, font: &Font, header: Seq<char>) -> Raster {
    let (x0, y0, w, h) = panel_spec(r.width, r.height, t);
    let r1 = r.fill_blended(x0, y0, w, h, t.terminal_bg);
    text_raster(r1, font, x0 + 12, y0 + 12, clip(header, max_cols(w, font.cell_width() as int)), t.terminal_fg)
}

/// Fills the panel and writes a header line; gives the panel geometry.
fn draw_list_header(fb: &mut Framebuffer, theme: &Theme, font: &Font, header: &[char]) -> (g: (usize, usize, usize, usize))
    requires
        old(fb).wf(),
        font.wf(),
        font.cell_width() > 0,
        font.cell_height() > 0,
        sizes_fit(old(fb).view().width, old(fb).view().height, *theme, font),
    ensures
        final(fb).wf(),
        final(fb).spec_pitch() == old(fb).spec_pitch(),
        final(fb).spec_bpp() == old(fb).spec_bpp(),
        final(fb).view().same_frame(old(fb).view()),
        final(fb).view() == list_header(old(fb).view(), *theme, font, header@),
        (g.0 as int, g.1 as int, g.2 as int, g.3 as int) == panel_spec(old(fb).view().width, old(fb).view().height, *theme),
        g.0 <= theme.terminal_padding_px + old(fb).view().width,
        g.1 <= theme.terminal_padding_px + old(fb).view().height,
        g.2 <= old(fb).view().width,
        g.3 <= old(fb).view().height,
{
    let fw = fb.width();
    let fh = fb.height();
    let (x0, y0, w, h) = panel_geometry(fb, theme);
    proof { law_panel_inside(fw as int, fh as int, *theme); }
    fb.fill_rect_blended(x0, y0, w, h, theme.terminal_bg);
    let cw = font.cell_w();
    let usable_w = w.saturating_sub(24);
    let max_cols = if usable_w / cw > 1 { usable_w / cw } else { 1 };
    proof { lemma_fit(usable_w as int, cw as int); }
    let clipped = clip_to_cols(header, max_cols);
    assert(clipped@.len() * cw <= max_cols * cw) by (nonlinear_arith)
        requires clipped@.len() <= max_cols, cw > 0;
    draw_text(fb, font, x0 + 12, y0 + 12, clipped.as_str(), theme.terminal_fg);
    (x0, y0, w, h)
}

/// Where the list window of `len` entries starts so that `selected` shows.
pub open spec fn list_start(selected: int, rows: int) -> int {
    if selected >= rows { selected + 1 - rows } else { 0 }
}

pub open spec fn fm_header(path: Seq<char>) -> Seq<char> {
    "file-sys: "@ + path + "  (arrows/enter/backspace/esc)"@
}

/// The file manager panel: a header with the path, then the entries that
/// fit, scrolled so that the selected one shows and highlighted.
pub open spec fn file_manager_drawing(
    r: Raster,
    t: Theme,
    font: &Font,
    path: Seq<char>,
    entries: Seq<Seq<char>>,
    selected: int,
) -> Raster {
    let (x0, y0, w, h) = panel_spec(r.width, r.height, t);
    let cw = font.cell_width() as int;
    let ch = font.cell_height() as int;
    let r2 = list_header(r, t, font, fm_header(path));
    let y = y0 + 12 + ch + 4;
    let list_rows = sat_sub(max_rows(h, ch), 2);
    let start = list_start(selected, list_rows);
    let end = min_int(entries.len() as int, start + list_rows);
    if entries.len() == 0 {
        text_raster(r2, font, x0 + 12 + cw, y, "(empty)"@, t.terminal_fg)
    } else {
        item_rows(r2, font, t, x0 + 12, y, entries.subrange(start, end), start, selected,
            sat_sub(max_cols(w, cw), 2), sat_sub(w, 24), highlight_fg(t))
    }
}

/// What the file manager needs of `selected`: its window starts within
/// the list.
pub open spec fn selection_fits(width: int, height: int, t: Theme, font: &Font, len: int, selected: int) -> bool {
    let (x0, y0, w, h) = panel_spec(width, height, t);
    len == 0 || list_start(selected, sat_sub(max_rows(h, font.cell_height() as int), 2)) <= len
}

/// The characters of each string.
fn char_lines(entries: &[String]) -> (items: Vec<Vec<char>>)
    ensures
        crate::strings::views(items@) == entries@.map_values(|s: String| s@),
{
    let n = entries.len();
    let mut items: Vec<Vec<char>> = Vec::new();
    let mut i: usize = 0;
    while i < n
        invariant
            i <= n,
            n == entries@.len(),
            crate::strings::views(items@) =~= entries@.map_values(|s: String| s@).take(i as int),
        decreases n - i,
    {
        let c = chars_of(entries[i].as_str());
        let ghost old_items = items@;
        items.push(c);
        assert(crate::strings::views(items@) =~= crate::strings::views(old_items).push(c@));
        i = i + 1;
    }
    assert(crate::strings::views(items@) =~= entries@.map_values(|s: String| s@));
    items
}

/// Draws the file manager panel on a frame as it lays out, text and cursor not
/// clipped to the panel (`draw_*_panel` clip it).
#[verifier::rlimit(80)]
#[verifier::spinoff_prover]
fn paint_file_manager_panel(
    fb: &mut Framebuffer,
    theme: &Theme,
    font: &Font,
    path: &str,
    entries: &[String],
    selected: usize,
)
    requires
        old(fb).wf(),
        font.wf(),
        font.cell_width() > 0,
        font.cell_height() > 0,
        sizes_fit(old(fb).view().width, old(fb).view().height, *theme, font),
        selection_fits(old(fb).view().width, old(fb).view().height, *theme, font, entries@.len() as int, selected as int),
    ensures
        final(fb).view().same_frame(old(fb).view()),
        final(fb).wf(),
        final(fb).spec_pitch() == old(fb).spec_pitch(),
        final(fb).spec_bpp() == old(fb).spec_bpp(),
        final(fb).view() == file_manager_drawing(
            old(fb).view(),
            *theme,
            font,
            path@,
            entries@.map_values(|s: String| s@),
            selected as int,
        ),
{
    let ghost v0 = fb.view();
    let mut header = chars_of("file-sys: ");
    let pv = chars_of(path);
    crate::strings::append_chars(&mut header, pv.as_slice());
    let tail = chars_of("  (arrows/enter/backspace/esc)");
    crate::strings::append_chars(&mut header, tail.as_slice());
    let (x0, y0, w, h) = draw_list_header(fb, theme, font, header.as_slice());
    let cw = font.cell_w();
    let ch = font.cell_h();
    let usable_h = h.saturating_sub(24);
    let usable_w = w.saturating_sub(24);
    let max_rows = if usable_h / ch > 1 { usable_h / ch } else { 1 };
    let max_cols = if usable_w / cw > 1 { usable_w / cw } else { 1 };
    proof {
        lemma_fit(usable_h as int, ch as int);
        lemma_fit(usable_w as int, cw as int);
    }
    let text_x = x0 + 12;
    let y = y0 + 12 + ch + 4;
    let hl = Color::rgb(theme.terminal_bg.r, theme.terminal_bg.g, theme.terminal_bg.b);
    let list_rows = max_rows.saturating_sub(2);
    let n = entries.len();
    if n == 0 {
        let empty = "(empty)";
        proof { reveal_strlit("(empty)"); }
        draw_text(fb, font, text_x + cw, y, empty, theme.terminal_fg);
        return;
    }
    assert(list_start(selected as int, list_rows as int) <= n);
    let start = if selected >= list_rows { selected - list_rows + 1 } else { 0 };
    let end = if n - start < list_rows { n } else { start + list_rows };
    let items = char_lines(entries);
    assert(crate::strings::views(items@).len() == items@.len());
    assert(items@.len() == n);
    assert((end - start) * ch <= list_rows * ch) by (nonlinear_arith)
        requires end - start <= list_rows, ch > 0;
    assert(list_rows * ch <= usable_h) by (nonlinear_arith)
        requires list_rows <= max_rows, max_rows * ch <= usable_h + ch, ch > 0, list_rows == if max_rows > 2 { max_rows - 2 } else { 0 };
    let cols = max_cols.saturating_sub(2);
    assert(cols * cw <= max_cols * cw) by (nonlinear_arith)
        requires cols <= max_cols, cw > 0;
    draw_item_rows(fb, font, theme, text_x, y, &items, start, end, selected, cols, usable_w, hl);
}

/// The file manager as drawn on the whole frame, kept to the panel rectangle:
/// nothing outside the panel changes.
pub open spec fn file_manager_raster(
    r: Raster,
    t: Theme,
    font: &Font,
    path: Seq<char>,
    entries: Seq<Seq<char>>,
    selected: int,
) -> Raster {
    let (x0, y0, w, h) = panel_spec(r.width, r.height, t);
    r.with_rect_from(file_manager_drawing(r, t, font, path, entries, selected), x0, y0, w, h)
}

/// Repaints only the panel (the light repaint after a key press): the
/// panel is drawn off screen and its rectangle copied in, so text and
/// cursor are clipped to it.
pub fn draw_file_manager_panel(
    fb: &mut Framebuffer,
    theme: &Theme,
    font: &Font,
    path: &str,
    entries: &[String],
    selected: usize,
)
    requires
        old(fb).wf(),
        font.wf(),
        font.cell_width() > 0,
        font.cell_height() > 0,
        sizes_fit(old(fb).view().width, old(fb).view().height, *theme, font),
        selection_fits(old(fb).view().width, old(fb).view().height, *theme, font, entries@.len() as int, selected as int),
    ensures
        final(fb).wf(),
        final(fb).spec_pitch() == old(fb).spec_pitch(),
        final(fb).spec_bpp() == old(fb).spec_bpp(),
        final(fb).view() == file_manager_raster(
            old(fb).view(),
            *theme,
            font,
            path@,
            entries@.map_values(|s: String| s@),
            selected as int,
        ),
{
    let fw = fb.width();
    let fh = fb.height();
    let (x0, y0, w, h) = panel_geometry(fb, theme);
    proof { law_panel_inside(fw as int, fh as int, *theme); }
    let mut scratch = fb.copy();
    paint_file_manager_panel(&mut scratch, theme, font, path, entries, selected);
    fb.copy_rect_from(&scratch, x0, y0, w, h);
}

/// Full frame of the file manager.
pub fn draw_file_manager(
    fb: &mut Framebuffer,
    theme: &Theme,
    wallpapers: &Wallpapers,
    font: &Font,
    path: &str,
    entries: &[String],
    selected: usize,
)
    requires
        old(fb).wf(),
        font.wf(),
        font.cell_width() > 0,
        font.cell_height() > 0,
        sizes_fit(old(fb).view().width, old(fb).view().height, *theme, font),
        wallpaper_fits(old(fb).view().width, old(fb).view().height, *theme, wallpapers),
        selection_fits(old(fb).view().width, old(fb).view().height, *theme, font, entries@.len() as int, selected as int),
    ensures
        final(fb).wf(),
        final(fb).spec_pitch() == old(fb).spec_pitch(),
        final(fb).spec_bpp() == old(fb).spec_bpp(),
        final(fb).view() == file_manager_raster(
            bar_raster(wallpaper_raster(old(fb).view(), *theme, wallpapers), *theme),
            *theme,
            font,
            path@,
            entries@.map_values(|s: String| s@),
            selected as int,
        ),
{
    draw_wallpaper(fb, theme, wallpapers);
    draw_bar(fb, theme);
    draw_file_manager_panel(fb, theme, font, path, entries, selected);
}

/// Draws `lines[lo..hi]` clipped to `cols`, one below the other from (x, y).
fn draw_text_lines(
    fb: &mut Framebuffer,
    font: &Font,
    x: usize,
    y: usize,
    lines: &Vec<Vec<char>>,
    lo: usize,
    hi: usize,
    cols: usize,
    fg: Color,
)
    requires
        old(fb).wf(),
        font.wf(),
        font.cell_width() > 0,
        font.cell_height() > 0,
        lo <= hi <= lines@.len(),
        x + cols * font.cell_width() <= usize::MAX,
        y + (hi - lo) * font.cell_height() <= usize::MAX,
    ensures
        final(fb).wf(),
        final(fb).spec_pitch() == old(fb).spec_pitch(),
        final(fb).spec_bpp() == old(fb).spec_bpp(),
        final(fb).view().same_frame(old(fb).view()),
        final(fb).view() == text_lines(
            old(fb).view(),
            font,
            x as int,
            y as int,
            clip_all(crate::strings::views(lines@).subrange(lo as int, hi as int), cols as int),
            fg,
        ),
{
    let ghost v0 = fb.view();
    let ghost all = clip_all(crate::strings::views(lines@).subrange(lo as int, hi as int), cols as int);
    let cw = font.cell_w();
    let ch = font.cell_h();
    let mut i = lo;
    let mut yy = y;
    assert(all.take(0) =~= seq![]);
    while i < hi
        invariant
            fb.wf(),
            font.wf(),
            fb.spec_pitch() == old(fb).spec_pitch(),
            fb.spec_bpp() == old(fb).spec_bpp(),
            fb.view().same_frame(v0),
            cw == font.cell_width(),
            ch == font.cell_height(),
            cw > 0,
            ch > 0,
            lo <= i <= hi,
            hi <= lines@.len(),
            all == clip_all(crate::strings::views(lines@).subrange(lo as int, hi as int), cols as int),
            x + cols * cw <= usize::MAX,
            y + (hi - lo) * ch <= usize::MAX,
            yy == y + (i - lo) * ch,
            fb.view() == text_lines(v0, font, x as int, y as int, all.take(i - lo), fg),
        decreases hi - i,
    {
        assert((i - lo + 1) * ch <= (hi - lo) * ch) by (nonlinear_arith)
            requires i - lo + 1 <= hi - lo, ch > 0;
        assert((i - lo + 1) * ch == (i - lo) * ch + ch) by (nonlinear_arith);
        let clipped = clip_to_cols(lines[i].as_slice(), cols);
        assert(clipped@.len() * cw <= cols * cw) by (nonlinear_arith)
            requires clipped@.len() <= cols, cw > 0;
        proof {
            let k = i - lo;
            assert(all.take(k + 1).drop_last() =~= all.take(k));
            assert(all.take(k + 1).last() == clipped@);
        }
        draw_text(fb, font, x, yy, clipped.as_str(), fg);
        yy = yy + ch;
        i = i + 1;
    }
    assert(all.take(hi - lo) =~= all);
}

pub open spec fn css_menu_options_spec() -> Seq<Seq<char>> {
    seq!["Create custom CSS"@, "Default"@, "Autumn"@, "Snow"@]
}

/// The entries of the `css` menu, in the order the main loop indexes them.
pub fn css_menu_options() -> (r: Vec<&'static str>)
    ensures
        r@.map_values(|s: &str| s@) == css_menu_options_spec(),
{
    let r = vec!["Create custom CSS", "Default", "Autumn", "Snow"];
    assert(r@.map_values(|s: &str| s@) =~= css_menu_options_spec());
    r
}

/// The theme menu panel: a header and the four entries, the selected one
/// highlighted.
pub open spec fn css_menu_drawing(r: Raster, t: Theme, font: &Font, selected: int) -> Raster {
    let (x0, y0, w, h) = panel_spec(r.width, r.height, t);
    let cw = font.cell_width() as int;
    let ch = font.cell_height() as int;
    let r2 = list_header(r, t, font, "css: choose a theme (arrows/enter)"@);
    item_rows(r2, font, t, x0 + 12, y0 + 12 + ch + 4, css_menu_options_spec(), 0, selected,
        sat_sub(max_cols(w, cw), 2), sat_sub(w, 24), highlight_fg(t))
}

/// Draws the theme menu panel on a frame as it lays out, text and cursor not
/// clipped to the panel (`draw_*_panel` clip it).
fn paint_css_menu_panel(fb: &mut Framebuffer, theme: &Theme, font: &Font, selected: usize)
    requires
        old(fb).wf(),
        font.wf(),
        font.cell_width() > 0,
        font.cell_height() > 0,
        sizes_fit(old(fb).view().width, old(fb).view().height, *theme, font),
    ensures
        final(fb).view().same_frame(old(fb).view()),
        final(fb).wf(),
        final(fb).spec_pitch() == old(fb).spec_pitch(),
        final(fb).spec_bpp() == old(fb).spec_bpp(),
        final(fb).view() == css_menu_drawing(old(fb).view(), *theme, font, selected as int),
{
    let header = chars_of("css: choose a theme (arrows/enter)");
    let (x0, y0, w, h) = draw_list_header(fb, theme, font, header.as_slice());
    let cw = font.cell_w();
    let ch = font.cell_h();
    let usable_w = w.saturating_sub(24);
    let max_cols = if usable_w / cw > 1 { usable_w / cw } else { 1 };
    proof { lemma_fit(usable_w as int, cw as int); }
    let hl = Color::rgb(theme.terminal_bg.r, theme.terminal_bg.g, theme.terminal_bg.b);
    let opts = css_menu_options();
    let mut items: Vec<Vec<char>> = Vec::new();
    let mut i: usize = 0;
    while i < opts.len()
        invariant
            i <= opts@.len(),
            opts@.map_values(|s: &str| s@) == css_menu_options_spec(),
            crate::strings::views(items@) =~= css_menu_options_spec().take(i as int),
        decreases opts.len() - i,
    {
        assert(opts@.map_values(|s: &str| s@)[i as int] == opts@[i as int]@);
        let c = chars_of(opts[i]);
        let ghost old_items = items@;
        items.push(c);
        assert(crate::strings::views(items@) =~= crate::strings::views(old_items).push(c@));
        i = i + 1;
    }
    assert(crate::strings::views(items@) =~= css_menu_options_spec());
    assert(crate::strings::views(items@).subrange(0, 4) =~= css_menu_options_spec());
    let cols = max_cols.saturating_sub(2);
    assert(cols * cw <= max_cols * cw) by (nonlinear_arith)
        requires cols <= max_cols, cw > 0;
    assert(4 * ch <= 4 * ch);
    draw_item_rows(fb, font, theme, x0 + 12, y0 + 12 + ch + 4, &items, 0, 4, selected, cols, usable_w, hl);
}

/// The css menu as drawn on the whole frame, kept to the panel rectangle:
/// nothing outside the panel changes.
pub open spec fn css_menu_raster(
    r: Raster,
    t: Theme,
    font: &Font,
    selected: int,
) -> Raster {
    let (x0, y0, w, h) = panel_spec(r.width, r.height, t);
    r.with_rect_from(css_menu_drawing(r, t, font, selected), x0, y0, w, h)
}

/// Repaints only the panel (the light repaint after a key press): the
/// panel is drawn off screen and its rectangle copied in, so text and
/// cursor are clipped to it.
pub fn draw_css_menu_panel(
    fb: &mut Framebuffer,
    theme: &Theme,
    font: &Font,
    selected: usize,
)
    requires
        old(fb).wf(),
        font.wf(),
        font.cell_width() > 0,
        font.cell_height() > 0,
        sizes_fit(old(fb).view().width, old(fb).view().height, *theme, font),
    ensures
        final(fb).wf(),
        final(fb).spec_pitch() == old(fb).spec_pitch(),
        final(fb).spec_bpp() == old(fb).spec_bpp(),
        final(fb).view() == css_menu_raster(
            old(fb).view(),
            *theme,
            font,
            selected as int,
        ),
{
    let fw = fb.width();
    let fh = fb.height();
    let (x0, y0, w, h) = panel_geometry(fb, theme);
    proof { law_panel_inside(fw as int, fh as int, *theme); }
    let mut scratch = fb.copy();
    paint_css_menu_panel(&mut scratch, theme, font, selected);
    fb.copy_rect_from(&scratch, x0, y0, w, h);
}

/// Full frame of the theme menu.
pub fn draw_css_menu(fb: &mut Framebuffer, theme: &Theme, wallpapers: &Wallpapers, font: &Font, selected: usize)
    requires
        old(fb).wf(),
        font.wf(),
        font.cell_width() > 0,
        font.cell_height() > 0,
        sizes_fit(old(fb).view().width, old(fb).view().height, *theme, font),
        wallpaper_fits(old(fb).view().width, old(fb).view().height, *theme, wallpapers),
    ensures
        final(fb).wf(),
        final(fb).spec_pitch() == old(fb).spec_pitch(),
        final(fb).spec_bpp() == old(fb).spec_bpp(),
        final(fb).view() == css_menu_raster(
            bar_raster(wallpaper_raster(old(fb).view(), *theme, wallpapers), *theme),
            *theme,
            font,
            selected as int,
        ),
{
    draw_wallpaper(fb, theme, wallpapers);
    draw_bar(fb, theme);
    draw_css_menu_panel(fb, theme, font, selected);
}

/// The theme editor panel: a header, the last lines of the text that fit,
/// and a block cursor after the last line.
pub open spec fn css_editor_drawing(r: Raster, t: Theme, font: &Font, buffer: Seq<char>) -> Raster {
    let (x0, y0, w, h) = panel_spec(r.width, r.height, t);
    let cw = font.cell_width() as int;
    let ch = font.cell_height() as int;
    let r2 = list_header(r, t, font, "css editor - Escape applies (empty+Escape cancels)"@);
    let y = y0 + 12 + ch + 4;
    let mc = max_cols(w, cw);
    let lines = crate::strings::split(buffer, '\n');
    let body_rows = max1(sat_sub(max_rows(h, ch), 2));
    let start = sat_sub(lines.len() as int, body_rows);
    let shown = clip_all(lines.skip(start), mc);
    let r3 = text_lines(r2, font, x0 + 12, y, shown, t.terminal_fg);
    let col = min_int(lines.last().len() as int, mc);
    r3.fill(x0 + 12 + col * cw, sat_sub(y + shown.len() * ch, ch), cw, ch, t.cursor)
}

/// Draws the theme editor panel on a frame as it lays out, text and cursor not
/// clipped to the panel (`draw_*_panel` clip it).
#[verifier::rlimit(40)]
fn paint_css_editor_panel(fb: &mut Framebuffer, theme: &Theme, font: &Font, buffer: &str)
    requires
        old(fb).wf(),
        font.wf(),
        font.cell_width() > 0,
        font.cell_height() > 0,
        sizes_fit(old(fb).view().width, old(fb).view().height, *theme, font),
    ensures
        final(fb).view().same_frame(old(fb).view()),
        final(fb).wf(),
        final(fb).spec_pitch() == old(fb).spec_pitch(),
        final(fb).spec_bpp() == old(fb).spec_bpp(),
        final(fb).view() == css_editor_drawing(old(fb).view(), *theme, font, buffer@),
{
    let header = chars_of("css editor - Escape applies (empty+Escape cancels)");
    let (x0, y0, w, h) = draw_list_header(fb, theme, font, header.as_slice());
    let cw = font.cell_w();
    let ch = font.cell_h();
    let usable_h = h.saturating_sub(24);
    let usable_w = w.saturating_sub(24);
    let max_rows = if usable_h / ch > 1 { usable_h / ch } else { 1 };
    let max_cols = if usable_w / cw > 1 { usable_w / cw } else { 1 };
    proof {
        lemma_fit(usable_h as int, ch as int);
        lemma_fit(usable_w as int, cw as int);
    }
    let text_x = x0 + 12;
    let y = y0 + 12 + ch + 4;
    let bv = chars_of(buffer);
    let lines = crate::strings::split_chars(bv.as_slice(), '\n');
    proof { crate::strings::lemma_split_nonempty(buffer@, '\n'); }
    assert(crate::strings::views(lines@).len() == lines@.len());
    let n = lines.len();
    let rows2 = max_rows.saturating_sub(2);
    let body_rows = if rows2 > 1 { rows2 } else { 1 };
    let start = n.saturating_sub(body_rows);
    assert((n - start) * ch <= body_rows * ch) by (nonlinear_arith)
        requires n - start <= body_rows, ch > 0;
    assert(body_rows * ch <= usable_h + ch) by (nonlinear_arith)
        requires body_rows <= max_rows, max_rows * ch <= usable_h + ch, ch > 0;
    draw_text_lines(fb, font, text_x, y, &lines, start, n, max_cols, theme.terminal_fg);
    proof {
        assert(crate::strings::views(lines@).subrange(start as int, n as int) =~= crate::strings::split(buffer@, '\n').skip(start as int));
    }
    let last_len = lines[n - 1].len();
    assert(crate::strings::views(lines@)[n - 1] == lines@[n - 1]@);
    let col = if last_len < max_cols { last_len } else { max_cols };
    assert(col * cw <= max_cols * cw) by (nonlinear_arith)
        requires col <= max_cols, cw > 0;
    let y_end = y + (n - start) * ch;
    let cursor_y = y_end.saturating_sub(ch);
    fb.fill_rect(text_x + col * cw, cursor_y, cw, ch, theme.cursor);
}

/// The css editor as drawn on the whole frame, kept to the panel rectangle:
/// nothing outside the panel changes.
pub open spec fn css_editor_raster(
    r: Raster,
    t: Theme,
    font: &Font,
    buffer: Seq<char>,
) -> Raster {
    let (x0, y0, w, h) = panel_spec(r.width, r.height, t);
    r.with_rect_from(css_editor_drawing(r, t, font, buffer), x0, y0, w, h)
}

/// Repaints only the panel (the light repaint after a key press): the
/// panel is drawn off screen and its rectangle copied in, so text and
/// cursor are clipped to it.
pub fn draw_css_editor_panel(
    fb: &mut Framebuffer,
    theme: &Theme,
    font: &Font,
    buffer: &str,
)
    requires
        old(fb).wf(),
        font.wf(),
        font.cell_width() > 0,
        font.cell_height() > 0,
        sizes_fit(old(fb).view().width, old(fb).view().height, *theme, font),
    ensures
        final(fb).wf(),
        final(fb).spec_pitch() == old(fb).spec_pitch(),
        final(fb).spec_bpp() == old(fb).spec_bpp(),
        final(fb).view() == css_editor_raster(
            old(fb).view(),
            *theme,
            font,
            buffer@,
        ),
{
    let fw = fb.width();
    let fh = fb.height();
    let (x0, y0, w, h) = panel_geometry(fb, theme);
    proof { law_panel_inside(fw as int, fh as int, *theme); }
    let mut scratch = fb.copy();
    paint_css_editor_panel(&mut scratch, theme, font, buffer);
    fb.copy_rect_from(&scratch, x0, y0, w, h);
}

/// Full frame of the theme editor.
pub fn draw_css_editor(fb: &mut Framebuffer, theme: &Theme, wallpapers: &Wallpapers, font: &Font, buffer: &str)
    requires
        old(fb).wf(),
        font.wf(),
        font.cell_width() > 0,
        font.cell_height() > 0,
        sizes_fit(old(fb).view().width, old(fb).view().height, *theme, font),
        wallpaper_fits(old(fb).view().width, old(fb).view().height, *theme, wallpapers),
    ensures
        final(fb).wf(),
        final(fb).spec_pitch() == old(fb).spec_pitch(),
        final(fb).spec_bpp() == old(fb).spec_bpp(),
        final(fb).view() == css_editor_raster(
            bar_raster(wallpaper_raster(old(fb).view(), *theme, wallpapers), *theme),
            *theme,
            font,
            buffer@,
        ),
{
    draw_wallpaper(fb, theme, wallpapers);
    draw_bar(fb, theme);
    draw_css_editor_panel(fb, theme, font, buffer);
}


/// The editor's title line: the program name, then the file or `New
/// Buffer`, then `[Modified]` for a changed buffer.
pub open spec fn nano_title(filename: Option<Seq<char>>, modified: bool) -> Seq<char> {
    let base = match filename {
        Some(f) => "cIos nano-clone    File: "@ + f,
        None => "cIos nano-clone    New Buffer"@,
    };
    if modified {
        base + "   [Modified]"@
    } else {
        base
    }
}

/// The title bar: a bar in the cursor colour across the top of the panel
/// with the title centred in it.
pub open spec fn nano_head(r: Raster, t: Theme, font: &Font, x0: int, y0: int, w: int, title: Seq<char>) -> Raster {
    let cw = font.cell_width() as int;
    let ch = font.cell_height() as int;
    let mc = max_cols(w, cw);
    let tc = min_int(title.len() as int, mc);
    let r1 = r.fill(x0, y0, w, ch, t.cursor);
    text_raster(r1, font, x0 + 12 + sat_sub(sat_sub(w, 24), tc * cw) / 2, y0 + 12, clip(title, mc), highlight_fg(t))
}

/// How many rows at the bottom of a panel of height `h` are kept for the
/// status line and the two shortcut rows.
pub open spec fn nano_reserved(h: int, ch: int) -> int {
    min_int(3, sat_sub(max_rows(h, ch), 1))
}

/// The row of the status line.
pub open spec fn nano_bottom_y(y0: int, h: int, ch: int) -> int {
    y0 + sat_sub(h, 12) - nano_reserved(h, ch) * ch
}

/// The first `k` shortcuts, two rows of six cells of width `cell` from
/// (x, y): the key in the cursor colour, its description after it.
pub open spec fn shortcut_cells(r: Raster, font: &Font, t: Theme, x: int, y: int, cell: int, k: int) -> Raster
    decreases k,
{
    if k <= 0 {
        r
    } else {
        let prev = shortcut_cells(r, font, t, x, y, cell, k - 1);
        let i = k - 1;
        let key = main_shortcuts_spec()[i].0;
        let desc = main_shortcuts_spec()[i].1;
        let cw = font.cell_width() as int;
        let cx = x + (i / 2) * cell;
        let cy = y + (i % 2) * font.cell_height();
        let kc = key.len() + 1;
        let r1 = text_raster(prev, font, cx, cy, key, t.cursor);
        text_raster(r1, font, cx + kc * cw, cy, clip(desc, max1(sat_sub(cell, kc * cw)) / cw), t.terminal_fg)
    }
}

/// The status or prompt line with its cursor, and the shortcut rows when
/// there is room for them.
pub open spec fn nano_status(
    r: Raster,
    t: Theme,
    font: &Font,
    x0: int,
    w: int,
    h: int,
    by: int,
    prompt: Seq<char>,
    has_cursor: bool,
) -> Raster {
    let cw = font.cell_width() as int;
    let ch = font.cell_height() as int;
    let mc = max_cols(w, cw);
    let r1 = text_raster(r, font, x0 + 12, by, clip(prompt, mc), t.terminal_fg);
    let r2 = if has_cursor {
        r1.fill(x0 + 12 + min_int(prompt.len() as int, mc) * cw, by, cw, ch, t.cursor)
    } else {
        r1
    };
    if nano_reserved(h, ch) >= 3 {
        shortcut_cells(r2, font, t, x0 + 12, by + ch, sat_sub(w, 24) / 6, 12)
    } else {
        r2
    }
}

/// What of a buffer line shows from column `left` in `mc` columns: a `$`
/// replaces the first character when the line is scrolled and the last
/// one when the line goes on past the right edge.
pub open spec fn shown_line(line: Seq<char>, left: int, mc: int) -> Seq<char> {
    let s = if left < line.len() {
        line.subrange(left, min_int(left + mc, line.len() as int))
    } else {
        seq![]
    };
    let s1 = if left > 0 && s.len() > 0 { s.update(0, '$') } else { s };
    if line.len() > left + s1.len() && s1.len() > 0 {
        s1.update(s1.len() - 1, '$')
    } else {
        s1
    }
}

/// The buffer lines `start..start + k`, one per row from (x, y), with the
/// block cursor on the cursor's line.
pub open spec fn body_lines(
    r: Raster,
    font: &Font,
    t: Theme,
    x: int,
    y: int,
    lines: Seq<Seq<char>>,
    start: int,
    k: int,
    left: int,
    mc: int,
    cl: int,
    cc: int,
) -> Raster
    decreases k,
{
    if k <= 0 {
        r
    } else {
        let prev = body_lines(r, font, t, x, y, lines, start, k - 1, left, mc, cl, cc);
        let li = start + k - 1;
        let ch = font.cell_height() as int;
        let cw = font.cell_width() as int;
        let yy = y + (k - 1) * ch;
        let r1 = text_raster(prev, font, x, yy, shown_line(lines[li], left, mc), t.terminal_fg);
        if li == cl {
            r1.fill(x + sat_sub(cc, left) * cw, yy, cw, ch, t.cursor)
        } else {
            r1
        }
    }
}

/// The column of a line that shows first, so that the cursor column shows.
pub open spec fn nano_left(cc: int, mc: int) -> int {
    if cc >= mc { cc + 1 - mc } else { 0 }
}

/// The body between title and status line: the help text when help is
/// open, else the window of buffer lines that keeps the cursor in view.
pub open spec fn nano_body(r: Raster, t: Theme, font: &Font, x0: int, y0: int, w: int, by: int, s: NanoScreenView) -> Raster {
    let cw = font.cell_width() as int;
    let ch = font.cell_height() as int;
    let mc = max_cols(w, cw);
    let body_top = y0 + 12 + ch + 4;
    let body_rows = if by > body_top { (by - body_top) / ch } else { 0 };
    if s.help_active {
        text_lines(r, font, x0 + 12, body_top, clip_all(s.help.take(min_int(body_rows, s.help.len() as int)), mc), t.terminal_fg)
    } else if body_rows == 0 {
        r
    } else {
        let start = if s.cursor_line >= body_rows { s.cursor_line + 1 - body_rows } else { 0 };
        let count = sat_sub(min_int(s.lines.len() as int, start + body_rows), start);
        body_lines(r, font, t, x0 + 12, body_top, s.lines, start, count, nano_left(s.cursor_col, mc), mc,
            s.cursor_line, s.cursor_col)
    }
}

/// The editor panel: title bar, body, status line and shortcut rows.
pub open spec fn nano_panel_drawing(r: Raster, t: Theme, font: &Font, s: NanoScreenView) -> Raster {
    let (x0, y0, w, h) = panel_spec(r.width, r.height, t);
    let r1 = r.fill_blended(x0, y0, w, h, t.terminal_bg);
    let r2 = nano_head(r1, t, font, x0, y0, w, nano_title(s.filename, s.modified));
    let by = nano_bottom_y(y0, h, font.cell_height() as int);
    let r3 = nano_status(r2, t, font, x0, w, h, by, s.prompt, s.prompt_has_cursor);
    nano_body(r3, t, font, x0, y0, w, by, s)
}

/// The panel coordinates leave room for every sum computed while drawing.
pub open spec fn nano_fits(x0: int, y0: int, w: int, h: int, cw: int, ch: int) -> bool {
    8 * (x0 + w + y0 + h + cw + ch + 64) <= usize::MAX
}

fn title_text(filename: Option<&str>, modified: bool) -> (r: Vec<char>)
    ensures
        r@ == nano_title(
            match filename {
                Some(f) => Some(f@),
                None => None,
            },
            modified,
        ),
{
    let (prefix, path, state) = title_parts(filename, modified);
    let mut title = chars_of("cIos nano-clone    ");
    let pv = chars_of(prefix);
    append_chars(&mut title, pv.as_slice());
    if pv.len() > 0 {
        title.push(' ');
    }
    let pathv = chars_of(path.as_str());
    append_chars(&mut title, pathv.as_slice());
    let ghost t2 = title@;
    let sv = chars_of(state);
    if sv.len() > 0 {
        let open = chars_of("   [");
        append_chars(&mut title, open.as_slice());
        append_chars(&mut title, sv.as_slice());
        title.push(']');
    }
    proof {
        reveal_strlit("cIos nano-clone    ");
        reveal_strlit("cIos nano-clone    File: ");
        reveal_strlit("cIos nano-clone    New Buffer");
        reveal_strlit("   [Modified]");
        reveal_strlit("   [");
        reveal_strlit("File:");
        reveal_strlit("Modified");
        reveal_strlit("New Buffer");
        reveal_strlit("");
        let base = match filename {
            Some(f) => "cIos nano-clone    File: "@ + f@,
            None => "cIos nano-clone    New Buffer"@,
        };
        assert(t2 =~= base);
        if modified {
            assert(title@ =~= base + "   [Modified]"@);
        } else {
            assert(title@ =~= base);
        }
    }
    title
}

/// The key of a shortcut is drawn in the cursor colour.
fn inverse_fg_shortcut(theme: &Theme) -> (c: Color)
    ensures
        c == theme.cursor,
{
    theme.cursor
}

proof fn lemma_shortcut_keys()
    ensures
        main_shortcuts_spec().len() == 12,
        forall|i: int| 0 <= i < 12 ==> #[trigger] main_shortcuts_spec()[i].0.len() == 2,
{
    reveal_strlit("^G");
    reveal_strlit("^X");
    reveal_strlit("^O");
    reveal_strlit("^J");
    reveal_strlit("^R");
    reveal_strlit("^W");
    reveal_strlit("^\\");
    reveal_strlit("^_");
    reveal_strlit("^K");
    reveal_strlit("^U");
    reveal_strlit("^C");
    reveal_strlit("^^");
}

fn draw_nano_head(fb: &mut Framebuffer, theme: &Theme, font: &Font, x0: usize, y0: usize, w: usize, title: &[char])
    requires
        old(fb).wf(),
        font.wf(),
        font.cell_width() > 0,
        font.cell_height() > 0,
        nano_fits(x0 as int, y0 as int, w as int, 0, font.cell_width() as int, font.cell_height() as int),
    ensures
        final(fb).wf(),
        final(fb).spec_pitch() == old(fb).spec_pitch(),
        final(fb).spec_bpp() == old(fb).spec_bpp(),
        final(fb).view().same_frame(old(fb).view()),
        final(fb).view() == nano_head(old(fb).view(), *theme, font, x0 as int, y0 as int, w as int, title@),
{
    let cw = font.cell_w();
    let ch = font.cell_h();
    fb.fill_rect(x0, y0, w, ch, theme.cursor);
    let usable_w = w.saturating_sub(24);
    let mc = if usable_w / cw > 1 { usable_w / cw } else { 1 };
    proof { lemma_fit(usable_w as int, cw as int); }
    let tc = if title.len() < mc { title.len() } else { mc };
    assert(tc * cw <= mc * cw) by (nonlinear_arith)
        requires tc <= mc, cw > 0;
    let clipped = clip_to_cols(title, mc);
    assert(clipped@.len() * cw <= mc * cw) by (nonlinear_arith)
        requires clipped@.len() <= mc, cw > 0;
    let tx = x0 + 12 + usable_w.saturating_sub(tc * cw) / 2;
    let fg = Color::rgb(theme.terminal_bg.r, theme.terminal_bg.g, theme.terminal_bg.b);
    draw_text(fb, font, tx, y0 + 12, clipped.as_str(), fg);
}

fn draw_shortcuts(fb: &mut Framebuffer, theme: &Theme, font: &Font, x: usize, y: usize, cell: usize)
    requires
        old(fb).wf(),
        font.wf(),
        font.cell_width() > 0,
        font.cell_height() > 0,
        x + 6 * cell + 4 * font.cell_width() + 1 <= usize::MAX,
        y + 2 * font.cell_height() <= usize::MAX,
    ensures
        final(fb).wf(),
        final(fb).spec_pitch() == old(fb).spec_pitch(),
        final(fb).spec_bpp() == old(fb).spec_bpp(),
        final(fb).view().same_frame(old(fb).view()),
        final(fb).view() == shortcut_cells(old(fb).view(), font, *theme, x as int, y as int, cell as int, 12),
{
    let ghost v0 = fb.view();
    let items = main_shortcuts();
    proof { lemma_shortcut_keys(); }
    assert(items@.len() == 12) by {
        assert(items@.map_values(|p: (&str, &str)| (p.0@, p.1@)).len() == items@.len());
    }
    let cw = font.cell_w();
    let ch = font.cell_h();
    let mut i: usize = 0;
    while i < 12
        invariant
            fb.wf(),
            font.wf(),
            fb.spec_pitch() == old(fb).spec_pitch(),
            fb.spec_bpp() == old(fb).spec_bpp(),
            fb.view().same_frame(v0),
            cw == font.cell_width(),
            ch == font.cell_height(),
            cw > 0,
            ch > 0,
            i <= 12,
            items@.len() == 12,
            items@.map_values(|p: (&str, &str)| (p.0@, p.1@)) == main_shortcuts_spec(),
            forall|j: int| 0 <= j < 12 ==> #[trigger] main_shortcuts_spec()[j].0.len() == 2,
            x + 6 * cell + 4 * cw + 1 <= usize::MAX,
            y + 2 * ch <= usize::MAX,
            fb.view() == shortcut_cells(v0, font, *theme, x as int, y as int, cell as int, i as int),
        decreases 12 - i,
    {
        let (key, desc) = items[i];
        assert(items@.map_values(|p: (&str, &str)| (p.0@, p.1@))[i as int] == (key@, desc@));
        assert(main_shortcuts_spec()[i as int].0 == key@);
        assert(key@.len() == 2);
        let row = i % 2;
        let col = i / 2;
        assert(col * cell <= 5 * cell) by (nonlinear_arith)
            requires col <= 5;
        assert(row * ch <= ch) by (nonlinear_arith)
            requires row <= 1, ch > 0;
        let cx = x + col * cell;
        let cy = y + row * ch;
        draw_text(fb, font, cx, cy, key, inverse_fg_shortcut(theme));
        let kc: usize = 3;
        let room = cell.saturating_sub(kc * cw);
        let dcols = (if room > 1 { room } else { 1 }) / cw;
        assert(dcols * cw <= (if room > 1 { room } else { 1 })) by (nonlinear_arith)
            requires dcols == (if room > 1 { room } else { 1 }) / cw, cw > 0;
        let dv = chars_of(desc);
        let clipped = clip_to_cols(dv.as_slice(), dcols);
        assert(clipped@.len() * cw <= dcols * cw) by (nonlinear_arith)
            requires clipped@.len() <= dcols, cw > 0;
        draw_text(fb, font, cx + kc * cw, cy, clipped.as_str(), theme.terminal_fg);
        i = i + 1;
    }
}

fn shown_line_of(line: &[char], left: usize, mc: usize) -> (r: Vec<char>)
    ensures
        r@ == shown_line(line@, left as int, mc as int),
        r@.len() <= mc,
{
    let n = line.len();
    let mut s = if left < n {
        let e = if mc < n - left { left + mc } else { n };
        copy_range(line, left, e)
    } else {
        Vec::new()
    };
    if left > 0 && s.len() > 0 {
        s.set(0, '$');
    }
    if s.len() > 0 && n - left > s.len() {
        let k = s.len() - 1;
        s.set(k, '$');
    }
    s
}

fn draw_nano_body_lines(
    fb: &mut Framebuffer,
    theme: &Theme,
    font: &Font,
    x: usize,
    y: usize,
    lines: &Vec<Vec<char>>,
    start: usize,
    count: usize,
    mc: usize,
    cl: usize,
    cc: usize,
)
    requires
        old(fb).wf(),
        font.wf(),
        font.cell_width() > 0,
        font.cell_height() > 0,
        mc >= 1,
        start + count <= lines@.len(),
        x + (mc + 1) * font.cell_width() <= usize::MAX,
        y + count * font.cell_height() <= usize::MAX,
    ensures
        final(fb).wf(),
        final(fb).spec_pitch() == old(fb).spec_pitch(),
        final(fb).spec_bpp() == old(fb).spec_bpp(),
        final(fb).view().same_frame(old(fb).view()),
        final(fb).view() == body_lines(old(fb).view(), font, *theme, x as int, y as int,
            crate::strings::views(lines@), start as int, count as int,
            nano_left(cc as int, mc as int), mc as int, cl as int, cc as int),
{
    let ghost v0 = fb.view();
    let ghost lv = crate::strings::views(lines@);
    let cw = font.cell_w();
    let ch = font.cell_h();
    let left = if cc >= mc { cc - (mc - 1) } else { 0 };
    let col = if cc >= mc { mc - 1 } else { cc };
    assert(col * cw <= mc * cw) by (nonlinear_arith)
        requires col <= mc, cw > 0;
    let nlines = lines.len();
    assert((mc + 1) * cw == mc * cw + cw) by (nonlinear_arith);
    let mut k: usize = 0;
    let mut yy = y;
    while k < count
        invariant
            nlines == lines@.len(),
            x + mc * cw + cw <= usize::MAX,
            fb.wf(),
            font.wf(),
            fb.spec_pitch() == old(fb).spec_pitch(),
            fb.spec_bpp() == old(fb).spec_bpp(),
            fb.view().same_frame(v0),
            cw == font.cell_width(),
            ch == font.cell_height(),
            cw > 0,
            ch > 0,
            mc >= 1,
            k <= count,
            start + count <= lines@.len(),
            lv == crate::strings::views(lines@),
            left as int == nano_left(cc as int, mc as int),
            col as int == sat_sub(cc as int, left as int),
            col * cw <= mc * cw,
            x + (mc + 1) * cw <= usize::MAX,
            y + count * ch <= usize::MAX,
            yy == y + k * ch,
            fb.view() == body_lines(v0, font, *theme, x as int, y as int, lv, start as int, k as int,
                left as int, mc as int, cl as int, cc as int),
        decreases count - k,
    {
        assert((k + 1) * ch <= count * ch) by (nonlinear_arith)
            requires k + 1 <= count, ch > 0;
        assert((k + 1) * ch == k * ch + ch) by (nonlinear_arith);
        let li = start + k;
        assert(lv[li as int] == lines@[li as int]@);
        let shown = shown_line_of(lines[li].as_slice(), left, mc);
        assert(shown@.len() * cw <= mc * cw) by (nonlinear_arith)
            requires shown@.len() <= mc, cw > 0;
        draw_text(fb, font, x, yy, string_of(shown.as_slice()).as_str(), theme.terminal_fg);
        if li == cl {
            fb.fill_rect(x + col * cw, yy, cw, ch, theme.cursor);
        }
        yy = yy + ch;
        k = k + 1;
    }
}

fn draw_nano_status(
    fb: &mut Framebuffer,
    theme: &Theme,
    font: &Font,
    x0: usize,
    y0: usize,
    w: usize,
    h: usize,
    by: usize,
    prompt: &str,
    has_cursor: bool,
)
    requires
        old(fb).wf(),
        font.wf(),
        font.cell_width() > 0,
        font.cell_height() > 0,
        nano_fits(x0 as int, y0 as int, w as int, h as int, font.cell_width() as int, font.cell_height() as int),
        by <= y0 + h,
    ensures
        final(fb).wf(),
        final(fb).spec_pitch() == old(fb).spec_pitch(),
        final(fb).spec_bpp() == old(fb).spec_bpp(),
        final(fb).view().same_frame(old(fb).view()),
        final(fb).view() == nano_status(old(fb).view(), *theme, font, x0 as int, w as int, h as int, by as int,
            prompt@, has_cursor),
{
    let cw = font.cell_w();
    let ch = font.cell_h();
    let usable_h = h.saturating_sub(24);
    let usable_w = w.saturating_sub(24);
    let max_rows = if usable_h / ch > 1 { usable_h / ch } else { 1 };
    let max_cols = if usable_w / cw > 1 { usable_w / cw } else { 1 };
    proof {
        lemma_fit(usable_w as int, cw as int);
    }
    let rows1 = max_rows.saturating_sub(1);
    let reserved = if rows1 < 3 { rows1 } else { 3 };
    let text_x = x0 + 12;
    let pv = chars_of(prompt);
    let pclip = clip_to_cols(pv.as_slice(), max_cols);
    assert(pclip@.len() * cw <= max_cols * cw) by (nonlinear_arith)
        requires pclip@.len() <= max_cols, cw > 0;
    draw_text(fb, font, text_x, by, pclip.as_str(), theme.terminal_fg);
    if has_cursor {
        let pc = if pv.len() < max_cols { pv.len() } else { max_cols };
        assert(pc * cw <= max_cols * cw) by (nonlinear_arith)
            requires pc <= max_cols, cw > 0;
        fb.fill_rect(text_x + pc * cw, by, cw, ch, theme.cursor);
    }
    if reserved >= 3 {
        let cell = usable_w / 6;
        assert(6 * cell <= usable_w) by (nonlinear_arith)
            requires cell == usable_w / 6;
        draw_shortcuts(fb, theme, font, text_x, by + ch, cell);
    }
}

fn draw_nano_body(
    fb: &mut Framebuffer,
    theme: &Theme,
    font: &Font,
    x0: usize,
    y0: usize,
    w: usize,
    h: usize,
    by: usize,
    screen: &NanoScreen,
)
    requires
        old(fb).wf(),
        font.wf(),
        font.cell_width() > 0,
        font.cell_height() > 0,
        nano_fits(x0 as int, y0 as int, w as int, h as int, font.cell_width() as int, font.cell_height() as int),
        by <= y0 + h,
    ensures
        final(fb).view().same_frame(old(fb).view()),
        final(fb).wf(),
        final(fb).spec_pitch() == old(fb).spec_pitch(),
        final(fb).spec_bpp() == old(fb).spec_bpp(),
        final(fb).view() == nano_body(old(fb).view(), *theme, font, x0 as int, y0 as int, w as int, by as int,
            screen.view()),
{
    let cw = font.cell_w();
    let ch = font.cell_h();
    let usable_w = w.saturating_sub(24);
    let max_cols = if usable_w / cw > 1 { usable_w / cw } else { 1 };
    proof {
        lemma_fit(usable_w as int, cw as int);
    }
    let text_x = x0 + 12;
    let body_top = y0 + 12 + ch + 4;
    let body_rows = if by > body_top { (by - body_top) / ch } else { 0 };
    assert(body_rows == 0 || body_top + body_rows * ch <= by) by (nonlinear_arith)
        requires
            by > body_top ==> body_rows as int == (by - body_top) as int / (ch as int),
            by <= body_top ==> body_rows == 0,
            ch > 0;
    if screen.help_active {
        let hl = char_lines(screen.help_lines.as_slice());
        let n = if body_rows < hl.len() { body_rows } else { hl.len() };
        assert(n * ch <= body_rows * ch) by (nonlinear_arith)
            requires n <= body_rows, ch > 0;
        assert(body_top + (n - 0) * ch <= usize::MAX) by (nonlinear_arith)
            requires
                n == 0 || body_top + n * ch <= by,
                by <= usize::MAX,
                body_top <= usize::MAX,
                n >= 0;
        draw_text_lines(fb, font, text_x, body_top, &hl, 0, n, max_cols, theme.terminal_fg);
        proof {
            assert(crate::strings::views(hl@).subrange(0, n as int)
                =~= str_views(screen.help_lines@).take(n as int));
        }
        return;
    }
    if body_rows == 0 {
        return;
    }
    let cl = screen.cursor_line;
    let start = if cl >= body_rows { cl - (body_rows - 1) } else { 0 };
    let lines = char_lines(screen.lines.as_slice());
    let nl = lines.len();
    assert(crate::strings::views(lines@).len() == lines@.len());
    assert(crate::strings::views(lines@) == str_views(screen.lines@));
    let count = if start >= nl { 0 } else if nl - start < body_rows { nl - start } else { body_rows };
    if count > 0 {
        assert(count * ch <= body_rows * ch) by (nonlinear_arith)
            requires count <= body_rows, ch > 0;
        assert((max_cols + 1) * cw == max_cols * cw + cw) by (nonlinear_arith);
        draw_nano_body_lines(fb, theme, font, text_x, body_top, &lines, start, count, max_cols, cl, screen.cursor_col);
    }
}

/// Draws the editor panel on a frame as it lays out, text and cursor not
/// clipped to the panel (`draw_*_panel` clip it).
#[verifier::rlimit(40)]
fn paint_nano_panel(fb: &mut Framebuffer, theme: &Theme, font: &Font, screen: &NanoScreen)
    requires
        old(fb).wf(),
        font.wf(),
        font.cell_width() > 0,
        font.cell_height() > 0,
        sizes_fit(old(fb).view().width, old(fb).view().height, *theme, font),
    ensures
        final(fb).view().same_frame(old(fb).view()),
        final(fb).wf(),
        final(fb).spec_pitch() == old(fb).spec_pitch(),
        final(fb).spec_bpp() == old(fb).spec_bpp(),
        final(fb).view() == nano_panel_drawing(old(fb).view(), *theme, font, screen.view()),
{
    let fw = fb.width();
    let fh = fb.height();
    let (x0, y0, w, h) = panel_geometry(fb, theme);
    proof { law_panel_inside(fw as int, fh as int, *theme); }
    let cw = font.cell_w();
    let ch = font.cell_h();
    assert(nano_fits(x0 as int, y0 as int, w as int, h as int, cw as int, ch as int));
    fb.fill_rect_blended(x0, y0, w, h, theme.terminal_bg);
    let fname = match &screen.filename {
        Some(f) => Some(f.as_str()),
        None => None,
    };
    let title = title_text(fname, screen.modified);
    draw_nano_head(fb, theme, font, x0, y0, w, title.as_slice());
    let usable_h = h.saturating_sub(24);
    let max_rows = if usable_h / ch > 1 { usable_h / ch } else { 1 };
    let rows1 = max_rows.saturating_sub(1);
    let reserved = if rows1 < 3 { rows1 } else { 3 };
    assert(reserved * ch <= h.saturating_sub(12)) by (nonlinear_arith)
        requires
            reserved <= max_rows - 1,
            max_rows == (if usable_h / ch > 1 { usable_h / ch } else { 1 }),
            usable_h == (if h > 24 { h - 24 } else { 0 }),
            ch > 0,
    {
        if max_rows > 1 {
            assert((usable_h / ch) * ch <= usable_h);
            assert(reserved * ch <= (max_rows - 1) * ch);
        }
    }
    let by = y0 + h.saturating_sub(12) - reserved * ch;
    draw_nano_status(fb, theme, font, x0, y0, w, h, by, screen.prompt.as_str(), screen.prompt_has_cursor);
    draw_nano_body(fb, theme, font, x0, y0, w, h, by, screen);
}

/// The nano panel as drawn on the whole frame, kept to the panel rectangle:
/// nothing outside the panel changes.
pub open spec fn nano_panel_raster(
    r: Raster,
    t: Theme,
    font: &Font,
    s: NanoScreenView,
) -> Raster {
    let (x0, y0, w, h) = panel_spec(r.width, r.height, t);
    r.with_rect_from(nano_panel_drawing(r, t, font, s), x0, y0, w, h)
}

/// Repaints only the panel (the light repaint after a key press): the
/// panel is drawn off screen and its rectangle copied in, so text and
/// cursor are clipped to it.
pub fn draw_nano_panel(
    fb: &mut Framebuffer,
    theme: &Theme,
    font: &Font,
    screen: &NanoScreen,
)
    requires
        old(fb).wf(),
        font.wf(),
        font.cell_width() > 0,
        font.cell_height() > 0,
        sizes_fit(old(fb).view().width, old(fb).view().height, *theme, font),
    ensures
        final(fb).wf(),
        final(fb).spec_pitch() == old(fb).spec_pitch(),
        final(fb).spec_bpp() == old(fb).spec_bpp(),
        final(fb).view() == nano_panel_raster(
            old(fb).view(),
            *theme,
            font,
            screen.view(),
        ),
{
    let fw = fb.width();
    let fh = fb.height();
    let (x0, y0, w, h) = panel_geometry(fb, theme);
    proof { law_panel_inside(fw as int, fh as int, *theme); }
    let mut scratch = fb.copy();
    paint_nano_panel(&mut scratch, theme, font, screen);
    fb.copy_rect_from(&scratch, x0, y0, w, h);
}

/// Full frame of the editor: wallpaper, bar and panel.
pub fn draw_nano(fb: &mut Framebuffer, theme: &Theme, wallpapers: &Wallpapers, font: &Font, screen: &NanoScreen)
    requires
        old(fb).wf(),
        font.wf(),
        font.cell_width() > 0,
        font.cell_height() > 0,
        sizes_fit(old(fb).view().width, old(fb).view().height, *theme, font),
        wallpaper_fits(old(fb).view().width, old(fb).view().height, *theme, wallpapers),
    ensures
        final(fb).wf(),
        final(fb).spec_pitch() == old(fb).spec_pitch(),
        final(fb).spec_bpp() == old(fb).spec_bpp(),
        final(fb).view() == nano_panel_raster(
            bar_raster(wallpaper_raster(old(fb).view(), *theme, wallpapers), *theme),
            *theme,
            font,
            screen.view(),
        ),
{
    draw_wallpaper(fb, theme, wallpapers);
    draw_bar(fb, theme);
    draw_nano_panel(fb, theme, font, screen);
}


/// Whether the screen, theme and font sizes leave room for the drawing
/// arithmetic (`sizes_fit`), which every drawing function asks.
pub fn sizes_ok(fb: &Framebuffer, theme: &Theme, font: &Font) -> (b: bool)
    ensures
        b == sizes_fit(fb.view().width, fb.view().height, *theme, font),
{
    let sum: u128 = fb.width() as u128 + fb.height() as u128 + theme.terminal_padding_px as u128
        + theme.bar.height_px as u128 + font.cell_w() as u128 + font.cell_h() as u128 + 64;
    16 * sum <= usize::MAX as u128
}

/// Whether the theme's wallpaper can be painted on this screen
/// (`wallpaper_fits`).
pub fn wallpaper_ok(fb: &Framebuffer, theme: &Theme, wallpapers: &Wallpapers) -> (b: bool)
    ensures
        b == wallpaper_fits(fb.view().width, fb.view().height, *theme, wallpapers),
{
    let w = fb.width() as u128;
    let h = fb.height() as u128;
    match theme.wallpaper {
        Wallpaper::Solid(_) => true,
        Wallpaper::VerticalGradient(_, _) => h <= u32::MAX as u128 && (h == 0 || (h - 1) * 255 <= u32::MAX as u128),
        Wallpaper::Bitmap(id) => {
            let bmp = wallpapers.get(id);
            let bw = bmp.width as u128;
            let bh = bmp.height as u128;
            assert(bw * bh * 3 <= 0xffff_ffff_ffff_ffff_ffff_ffff_ffff_ffff) by (nonlinear_arith)
                requires bw <= u32::MAX, bh <= u32::MAX;
            assert(w * bw <= 0xffff_ffff_ffff_ffff_ffff_ffff_ffff_ffff) by (nonlinear_arith)
                requires w <= usize::MAX, bw <= u32::MAX;
            assert(h * bh <= 0xffff_ffff_ffff_ffff_ffff_ffff_ffff_ffff) by (nonlinear_arith)
                requires h <= usize::MAX, bh <= u32::MAX;
            bw > 0 && bh > 0 && bw * bh * 3 <= bmp.pixels.len() as u128 && w * bw <= u32::MAX as u128
                && h * bh <= u32::MAX as u128
        },
    }
}

/// Whether the file manager's window for `selected` starts within a list
/// of `len` entries (`selection_fits`).
pub fn selection_ok(fb: &Framebuffer, theme: &Theme, font: &Font, len: usize, selected: usize) -> (b: bool)
    requires
        sizes_fit(fb.view().width, fb.view().height, *theme, font),
        font.cell_height() > 0,
    ensures
        b == selection_fits(fb.view().width, fb.view().height, *theme, font, len as int, selected as int),
{
    let (x0, y0, w, h) = panel_geometry(fb, theme);
    let ch = font.cell_h();
    let usable_h = h.saturating_sub(24);
    let max_rows = if usable_h / ch > 1 { usable_h / ch } else { 1 };
    let rows = max_rows.saturating_sub(2);
    let start: u128 = if selected >= rows { selected as u128 - rows as u128 + 1 } else { 0 };
    len == 0 || start <= len as u128
}

/// Repainting the shell panel changes no pixel outside the panel.
pub proof fn law_terminal_panel_stays_inside(
    r: Raster,
    t: Theme,
    font: &Font,
    history: Seq<Seq<char>>,
    input: Seq<char>,
    cursor: int,
    a: int,
    b: int,
)
    requires
        ({
            let (x0, y0, w, h) = panel_spec(r.width, r.height, t);
            !Raster::in_rect(a, b, x0, y0, w, h)
        }),
    ensures
        (terminal_panel_raster(r, t, font, history, input, cursor).px)(a, b) == (r.px)(a, b),
{
}

/// Repainting the file manager panel changes no pixel outside the panel.
pub proof fn law_file_manager_stays_inside(
    r: Raster,
    t: Theme,
    font: &Font,
    path: Seq<char>,
    entries: Seq<Seq<char>>,
    selected: int,
    a: int,
    b: int,
)
    requires
        ({
            let (x0, y0, w, h) = panel_spec(r.width, r.height, t);
            !Raster::in_rect(a, b, x0, y0, w, h)
        }),
    ensures
        (file_manager_raster(r, t, font, path, entries, selected).px)(a, b) == (r.px)(a, b),
{
}

/// Repainting the theme menu changes no pixel outside the panel.
pub proof fn law_css_menu_stays_inside(
    r: Raster,
    t: Theme,
    font: &Font,
    selected: int,
    a: int,
    b: int,
)
    requires
        ({
            let (x0, y0, w, h) = panel_spec(r.width, r.height, t);
            !Raster::in_rect(a, b, x0, y0, w, h)
        }),
    ensures
        (css_menu_raster(r, t, font, selected).px)(a, b) == (r.px)(a, b),
{
}

/// Repainting the theme editor changes no pixel outside the panel.
pub proof fn law_css_editor_stays_inside(
    r: Raster,
    t: Theme,
    font: &Font,
    buffer: Seq<char>,
    a: int,
    b: int,
)
    requires
        ({
            let (x0, y0, w, h) = panel_spec(r.width, r.height, t);
            !Raster::in_rect(a, b, x0, y0, w, h)
        }),
    ensures
        (css_editor_raster(r, t, font, buffer).px)(a, b) == (r.px)(a, b),
{
}

/// Repainting the editor panel changes no pixel outside the panel.
pub proof fn law_nano_panel_stays_inside(
    r: Raster,
    t: Theme,
    font: &Font,
    s: NanoScreenView,
    a: int,
    b: int,
)
    requires
        ({
            let (x0, y0, w, h) = panel_spec(r.width, r.height, t);
            !Raster::in_rect(a, b, x0, y0, w, h)
        }),
    ensures
        (nano_panel_raster(r, t, font, s).px)(a, b) == (r.px)(a, b),
{
}

/// A full frame of the shell does not depend on what the screen showed
/// before: two screens of the same size and channel layout, whatever they
/// held, come out the same.
pub proof fn law_desktop_full_frame(
    fb1: &Framebuffer,
    fb2: &Framebuffer,
    t: Theme,
    wp: &Wallpapers,
    font: &Font,
    history: Seq<Seq<char>>,
    input: Seq<char>,
    cursor: int,
)
    requires
        fb1.view().same_frame(fb2.view()),
    ensures
        terminal_panel_raster(bar_raster(wallpaper_raster(fb1.view(), t, wp), t), t, font, history, input, cursor)
            == terminal_panel_raster(bar_raster(wallpaper_raster(fb2.view(), t, wp), t), t, font, history, input, cursor),
{
    let r1 = fb1.view();
    let r2 = fb2.view();
    lemma_view_outside(fb1);
    lemma_view_outside(fb2);
    let w1 = wallpaper_raster(r1, t, wp);
    let w2 = wallpaper_raster(r2, t, wp);
    assert forall|a: int, b: int| #[trigger] (w1.px)(a, b) == (w2.px)(a, b) by {
        if !r1.in_bounds(a, b) {
            assert((r1.px)(a, b) == (r2.px)(a, b));
        }
    }
    assert(w1 =~= w2);
}

/// The bar is the background colour blended over exactly its rows, across
/// the whole width: the last `height_px` rows of the screen when it sits at
/// the bottom, the first `height_px` rows at the top, none when hidden.
/// Every other pixel keeps its value.
pub proof fn law_bar_rows(r: Raster, t: Theme, x: int, y: int)
    ensures
        bar_raster(r, t).same_frame(r),
        t.bar.position == BarPosition::Bottom ==> (bar_raster(r, t).px)(x, y) == if r.in_bounds(x, y) && y
            >= r.height - t.bar.height_px {
            r.pack(crate::theme::blend_spec(t.bar.background, r.color_at(x, y)))
        } else {
            (r.px)(x, y)
        },
        t.bar.position == BarPosition::Top ==> (bar_raster(r, t).px)(x, y) == if r.in_bounds(x, y) && y
            < t.bar.height_px {
            r.pack(crate::theme::blend_spec(t.bar.background, r.color_at(x, y)))
        } else {
            (r.px)(x, y)
        },
        t.bar.position == BarPosition::Hidden ==> bar_raster(r, t) == r,
{
}

} // verus!
