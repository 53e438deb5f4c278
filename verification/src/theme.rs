//! Colours, alpha blending and the theme model: wallpaper, terminal panel,
//! status bar and cursor colours, plus the four built-in themes.
use vstd::prelude::*;

verus! {

/// An RGBA colour; `a == 0` is fully transparent, `a == 255` fully opaque.
#[derive(Clone, Copy, Debug, PartialEq, Eq, Structural)]
pub struct Color {
    pub r: u8,
    pub g: u8,
    pub b: u8,
    pub a: u8,
}

/// One channel of "src over dst" with source opacity `a` (0..=255).
pub open spec fn blend_channel(src: u8, dst: u8, a: u8) -> int {
    (src as int * a as int + dst as int * (255 - a as int)) / 255
}

/// "src over dst": an opaque source replaces the destination, a fully
/// transparent one leaves it, anything in between mixes every channel by the
/// source alpha and yields an opaque colour.
pub open spec fn blend_spec(src: Color, dst: Color) -> Color {
    if src.a == 255 {
        src
    } else if src.a == 0 {
        dst
    } else {
        Color {
            r: blend_channel(src.r, dst.r, src.a) as u8,
            g: blend_channel(src.g, dst.g, src.a) as u8,
            b: blend_channel(src.b, dst.b, src.a) as u8,
            a: 255,
        }
    }
}

proof fn lemma_blend_channel_bounds(s: u8, d: u8, a: u8)
    ensures
        0 <= blend_channel(s, d, a) <= 255,
        (s <= d ==> s <= blend_channel(s, d, a) <= d),
        (d <= s ==> d <= blend_channel(s, d, a) <= s),
{
    let si = s as int;
    let di = d as int;
    let ai = a as int;
    assert(0 <= si * ai + di * (255 - ai) <= 255 * 255) by (nonlinear_arith)
        requires 0 <= si <= 255, 0 <= di <= 255, 0 <= ai <= 255;
    assert(si <= di ==> si * 255 <= si * ai + di * (255 - ai) <= di * 255) by (nonlinear_arith)
        requires 0 <= si <= 255, 0 <= di <= 255, 0 <= ai <= 255;
    assert(di <= si ==> di * 255 <= si * ai + di * (255 - ai) <= si * 255) by (nonlinear_arith)
        requires 0 <= si <= 255, 0 <= di <= 255, 0 <= ai <= 255;
    let t = si * ai + di * (255 - ai);
    assert(t / 255 <= 255 && t / 255 >= 0) by (nonlinear_arith)
        requires 0 <= t <= 255 * 255;
    assert(si <= di ==> si <= t / 255 <= di) by (nonlinear_arith)
        requires si <= di ==> si * 255 <= t <= di * 255, 0 <= t;
    assert(di <= si ==> di <= t / 255 <= si) by (nonlinear_arith)
        requires di <= si ==> di * 255 <= t <= si * 255, 0 <= t;
}

impl Color {
    /// An opaque colour.
    pub fn rgb(r: u8, g: u8, b: u8) -> (c: Color)
        ensures
            c == (Color { r, g, b, a: 255 }),
    {
        Color { r, g, b, a: 255 }
    }

    /// A colour with the given opacity.
    pub fn rgba(r: u8, g: u8, b: u8, a: u8) -> (c: Color)
        ensures
            c == (Color { r, g, b, a }),
    {
        Color { r, g, b, a }
    }

    /// Alpha blending "self over dst", the operation that draws the
    /// translucent terminal panel over the wallpaper.
    pub fn blend_over(self, dst: Color) -> (c: Color)
        ensures
            c == blend_spec(self, dst),
    {
        if self.a == 255 {
            return self;
        }
        if self.a == 0 {
            return dst;
        }
        let a = self.a as u32;
        let inv_a = 255 - a;
        proof {
            lemma_blend_channel_bounds(self.r, dst.r, self.a);
            lemma_blend_channel_bounds(self.g, dst.g, self.a);
            lemma_blend_channel_bounds(self.b, dst.b, self.a);
        }
        assert(self.r as u32 * a + dst.r as u32 * inv_a <= 65025) by (nonlinear_arith)
            requires self.r <= 255, dst.r <= 255, a <= 255, inv_a == 255 - a;
        assert(self.g as u32 * a + dst.g as u32 * inv_a <= 65025) by (nonlinear_arith)
            requires self.g <= 255, dst.g <= 255, a <= 255, inv_a == 255 - a;
        assert(self.b as u32 * a + dst.b as u32 * inv_a <= 65025) by (nonlinear_arith)
            requires self.b <= 255, dst.b <= 255, a <= 255, inv_a == 255 - a;
        let r = (self.r as u32 * a + dst.r as u32 * inv_a) / 255;
        let g = (self.g as u32 * a + dst.g as u32 * inv_a) / 255;
        let b = (self.b as u32 * a + dst.b as u32 * inv_a) / 255;
        Color::rgb(r as u8, g as u8, b as u8)
    }
}

/// Blending is well behaved: an opaque source hides the destination, a
/// transparent one leaves it as it was, and otherwise each channel of the
/// result lies between the source's and the destination's channel and the
/// result is opaque.
pub proof fn law_blend_over(src: Color, dst: Color)
    ensures
        src.a == 255 ==> blend_spec(src, dst) == src,
        src.a == 0 ==> blend_spec(src, dst) == dst,
        (0 < src.a < 255) ==> {
            let c = blend_spec(src, dst);
            &&& c.a == 255
            &&& (src.r <= dst.r ==> src.r <= c.r <= dst.r)
            &&& (dst.r <= src.r ==> dst.r <= c.r <= src.r)
            &&& (src.g <= dst.g ==> src.g <= c.g <= dst.g)
            &&& (dst.g <= src.g ==> dst.g <= c.g <= src.g)
            &&& (src.b <= dst.b ==> src.b <= c.b <= dst.b)
            &&& (dst.b <= src.b ==> dst.b <= c.b <= src.b)
        },
{
    lemma_blend_channel_bounds(src.r, dst.r, src.a);
    lemma_blend_channel_bounds(src.g, dst.g, src.a);
    lemma_blend_channel_bounds(src.b, dst.b, src.a);
}

/// The wallpapers that are built into the kernel image.
#[derive(Clone, Copy, Debug, PartialEq, Eq, Structural)]
pub enum BuiltinWallpaper {
    Default,
    Autumn,
    Snow,
}

#[derive(Clone, Copy, Debug, PartialEq, Eq, Structural)]
pub enum Wallpaper {
    Solid(Color),
    /// Vertical gradient from the first colour (top) to the second (bottom).
    VerticalGradient(Color, Color),
    /// One of the built-in bitmaps, stretched over the whole screen.
    Bitmap(BuiltinWallpaper),
}

/// Shape of the terminal panel: `Square` is a centred square, `Fill` takes
/// the whole area inside the padding.
#[derive(Clone, Copy, Debug, PartialEq, Eq, Structural)]
pub enum PanelShape {
    Fill,
    Square,
}

#[derive(Clone, Copy, Debug, PartialEq, Eq, Structural)]
pub enum BarPosition {
    Top,
    Bottom,
    Hidden,
}

#[derive(Clone, Copy, Debug, PartialEq, Eq, Structural)]
pub struct BarTheme {
    pub position: BarPosition,
    pub background: Color,
    pub foreground: Color,
    pub height_px: u32,
}

#[derive(Clone, Copy, Debug, PartialEq, Eq, Structural)]
pub struct Theme {
    pub wallpaper: Wallpaper,
    /// Background of the terminal panel; its alpha makes the panel translucent.
    pub terminal_bg: Color,
    pub terminal_fg: Color,
    pub terminal_padding_px: u32,
    pub panel_shape: PanelShape,
    pub bar: BarTheme,
    pub cursor: Color,
}

pub open spec fn opaque(r: u8, g: u8, b: u8) -> Color {
    Color { r, g, b, a: 255 }
}

pub open spec fn translucent(r: u8, g: u8, b: u8, a: u8) -> Color {
    Color { r, g, b, a }
}

pub open spec fn default_theme_spec() -> Theme {
    Theme {
        wallpaper: Wallpaper::Bitmap(BuiltinWallpaper::Default),
        terminal_bg: translucent(10, 10, 16, 178),
        terminal_fg: opaque(235, 235, 240),
        terminal_padding_px: 24,
        panel_shape: PanelShape::Square,
        bar: BarTheme {
            position: BarPosition::Bottom,
            background: translucent(0, 0, 0, 160),
            foreground: opaque(255, 255, 255),
            height_px: 28,
        },
        cursor: opaque(255, 255, 255),
    }
}

pub open spec fn solid_theme_spec() -> Theme {
    Theme {
        wallpaper: Wallpaper::Solid(opaque(12, 12, 16)),
        terminal_bg: translucent(0, 0, 0, 255),
        terminal_fg: opaque(220, 220, 220),
        terminal_padding_px: 16,
        panel_shape: PanelShape::Fill,
        bar: BarTheme {
            position: BarPosition::Top,
            background: opaque(20, 20, 20),
            foreground: opaque(200, 200, 200),
            height_px: 24,
        },
        cursor: opaque(0, 255, 120),
    }
}

pub open spec fn autumn_theme_spec() -> Theme {
    Theme {
        wallpaper: Wallpaper::Bitmap(BuiltinWallpaper::Autumn),
        terminal_bg: translucent(26, 16, 14, 225),
        terminal_fg: opaque(240, 225, 210),
        terminal_padding_px: 24,
        panel_shape: PanelShape::Fill,
        bar: BarTheme {
            position: BarPosition::Bottom,
            background: translucent(20, 10, 8, 200),
            foreground: opaque(250, 220, 180),
            height_px: 28,
        },
        cursor: opaque(255, 200, 120),
    }
}

pub open spec fn snow_theme_spec() -> Theme {
    Theme {
        wallpaper: Wallpaper::Bitmap(BuiltinWallpaper::Snow),
        terminal_bg: translucent(0x43, 0x3A, 0x44, 225),
        terminal_fg: opaque(235, 230, 240),
        terminal_padding_px: 24,
        panel_shape: PanelShape::Fill,
        bar: BarTheme {
            position: BarPosition::Bottom,
            background: translucent(30, 26, 34, 200),
            foreground: opaque(230, 225, 240),
            height_px: 28,
        },
        cursor: opaque(210, 225, 255),
    }
}

/// The default theme: constellation wallpaper and a square translucent panel.
pub fn default_theme() -> (t: Theme)
    ensures
        t == default_theme_spec(),
{
    Theme {
        wallpaper: Wallpaper::Bitmap(BuiltinWallpaper::Default),
        terminal_bg: Color::rgba(10, 10, 16, 178),
        terminal_fg: Color::rgb(235, 235, 240),
        terminal_padding_px: 24,
        panel_shape: PanelShape::Square,
        bar: BarTheme {
            position: BarPosition::Bottom,
            background: Color::rgba(0, 0, 0, 160),
            foreground: Color::rgb(255, 255, 255),
            height_px: 28,
        },
        cursor: Color::rgb(255, 255, 255),
    }
}

/// A theme with a fully opaque terminal, for comparison.
pub fn solid_theme() -> (t: Theme)
    ensures
        t == solid_theme_spec(),
{
    Theme {
        wallpaper: Wallpaper::Solid(Color::rgb(12, 12, 16)),
        terminal_bg: Color::rgba(0, 0, 0, 255),
        terminal_fg: Color::rgb(220, 220, 220),
        terminal_padding_px: 16,
        panel_shape: PanelShape::Fill,
        bar: BarTheme {
            position: BarPosition::Top,
            background: Color::rgb(20, 20, 20),
            foreground: Color::rgb(200, 200, 200),
            height_px: 24,
        },
        cursor: Color::rgb(0, 255, 120),
    }
}

/// Autumn: the alley photo and a warm, almost opaque panel.
pub fn autumn_theme() -> (t: Theme)
    ensures
        t == autumn_theme_spec(),
{
    Theme {
        wallpaper: Wallpaper::Bitmap(BuiltinWallpaper::Autumn),
        terminal_bg: Color::rgba(26, 16, 14, 225),
        terminal_fg: Color::rgb(240, 225, 210),
        terminal_padding_px: 24,
        panel_shape: PanelShape::Fill,
        bar: BarTheme {
            position: BarPosition::Bottom,
            background: Color::rgba(20, 10, 8, 200),
            foreground: Color::rgb(250, 220, 180),
            height_px: 28,
        },
        cursor: Color::rgb(255, 200, 120),
    }
}

/// Snow: the snowy city and a #433A44 panel.
pub fn snow_theme() -> (t: Theme)
    ensures
        t == snow_theme_spec(),
{
    Theme {
        wallpaper: Wallpaper::Bitmap(BuiltinWallpaper::Snow),
        terminal_bg: Color::rgba(0x43, 0x3A, 0x44, 225),
        terminal_fg: Color::rgb(235, 230, 240),
        terminal_padding_px: 24,
        panel_shape: PanelShape::Fill,
        bar: BarTheme {
            position: BarPosition::Bottom,
            background: Color::rgba(30, 26, 34, 200),
            foreground: Color::rgb(230, 225, 240),
            height_px: 28,
        },
        cursor: Color::rgb(210, 225, 255),
    }
}

} // verus!
