use cios::css::parse;
use cios::theme::{
    autumn_theme, default_theme, snow_theme, solid_theme, BarPosition, BuiltinWallpaper, Color, PanelShape,
    Wallpaper,
};

fn alpha(s: &str) -> Option<u8> {
    s.parse::<f32>().ok().map(|a| (a.clamp(0.0, 1.0) * 255.0) as u8)
}

#[test]
fn blend_opaque_source_replaces_destination() {
    let src = Color::rgba(10, 20, 30, 255);
    let dst = Color::rgb(200, 200, 200);
    assert_eq!(src.blend_over(dst), src);
}

#[test]
fn blend_transparent_source_keeps_destination() {
    let src = Color::rgba(10, 20, 30, 0);
    let dst = Color::rgba(200, 100, 50, 255);
    assert_eq!(src.blend_over(dst), dst);
}

#[test]
fn blend_mixes_by_alpha() {
    let src = Color::rgba(255, 0, 100, 51);
    let dst = Color::rgb(0, 255, 100);
    // (255*51 + 0*204)/255 = 51, (0*51 + 255*204)/255 = 204, 100 stays 100
    assert_eq!(src.blend_over(dst), Color::rgb(51, 204, 100));
}

#[test]
fn blend_result_lies_between_the_two_colours() {
    let src = Color::rgba(10, 240, 128, 178);
    let dst = Color::rgb(200, 20, 128);
    let c = src.blend_over(dst);
    assert_eq!(c.a, 255);
    assert!(10 <= c.r && c.r <= 200);
    assert!(20 <= c.g && c.g <= 240);
    assert_eq!(c.b, 128);
}

#[test]
fn builtin_themes_have_their_documented_looks() {
    let d = default_theme();
    assert_eq!(d.wallpaper, Wallpaper::Bitmap(BuiltinWallpaper::Default));
    assert_eq!(d.panel_shape, PanelShape::Square);
    assert!(d.terminal_bg.a < 255);
    let s = solid_theme();
    assert_eq!(s.terminal_bg.a, 255);
    assert_eq!(s.bar.position, BarPosition::Top);
    assert_eq!(autumn_theme().wallpaper, Wallpaper::Bitmap(BuiltinWallpaper::Autumn));
    let snow = snow_theme();
    assert_eq!(snow.wallpaper, Wallpaper::Bitmap(BuiltinWallpaper::Snow));
    assert_eq!((snow.terminal_bg.r, snow.terminal_bg.g, snow.terminal_bg.b), (0x43, 0x3A, 0x44));
}

#[test]
fn css_readme_example_sets_every_part() {
    let input = "terminal { background: rgba(10,10,16,0.7); color: #ebebf0; shape: square; }\n\
                 wallpaper { type: bitmap; bitmap: autumn; }\n\
                 bar { position: bottom; background: rgba(0,0,0,0.6); height: 28; }\n\
                 cursor { color: #ffffff; }";
    let t = parse(input, solid_theme(), &alpha);
    assert_eq!(t.terminal_bg, Color::rgba(10, 10, 16, 178));
    assert_eq!(t.terminal_fg, Color::rgb(0xeb, 0xeb, 0xf0));
    assert_eq!(t.panel_shape, PanelShape::Square);
    assert_eq!(t.wallpaper, Wallpaper::Bitmap(BuiltinWallpaper::Autumn));
    assert_eq!(t.bar.position, BarPosition::Bottom);
    assert_eq!(t.bar.background, Color::rgba(0, 0, 0, 153));
    assert_eq!(t.bar.height_px, 28);
    assert_eq!(t.cursor, Color::rgb(255, 255, 255));
}

#[test]
fn css_empty_text_keeps_the_base_theme() {
    let base = autumn_theme();
    assert_eq!(parse("", base, &alpha), base);
    assert_eq!(parse("   \n  ", base, &alpha), base);
}

#[test]
fn css_unknown_blocks_and_bad_values_are_ignored() {
    let base = default_theme();
    let t = parse("window { color: #000000; }\nterminal { color: #12; padding: lots; }", base, &alpha);
    assert_eq!(t, base);
}

#[test]
fn css_solid_and_gradient_wallpapers() {
    let base = default_theme();
    let t = parse("wallpaper { type: solid; color: rgb(1,2,3); }", base, &alpha);
    assert_eq!(t.wallpaper, Wallpaper::Solid(Color::rgb(1, 2, 3)));
    let g = parse("wallpaper { type: gradient; color: #000000; color2: #ffffff; }", base, &alpha);
    assert_eq!(g.wallpaper, Wallpaper::VerticalGradient(Color::rgb(0, 0, 0), Color::rgb(255, 255, 255)));
}

#[test]
fn css_alpha_is_clamped_by_the_reader() {
    let t = parse("terminal { background: rgba(1,2,3,7.5); }", default_theme(), &alpha);
    assert_eq!(t.terminal_bg, Color::rgba(1, 2, 3, 255));
    let u = parse("terminal { background: rgba(1,2,3,abc); }", default_theme(), &alpha);
    assert_eq!(u.terminal_bg, default_theme().terminal_bg);
}

#[test]
fn css_terminal_and_bar_properties() {
    let t = parse(
        "terminal { padding: +7; shape: fill; color: #ABCDEF; color: rgb( 1 , 2 , 3 ); }\n\
         bar { position: hidden; color: #010203; height: 30; }",
        default_theme(),
        &alpha,
    );
    assert_eq!(t.terminal_padding_px, 7);
    assert_eq!(t.panel_shape, PanelShape::Fill);
    assert_eq!(t.terminal_fg, Color::rgb(1, 2, 3));
    assert_eq!(t.bar.position, BarPosition::Hidden);
    assert_eq!(t.bar.foreground, Color::rgb(1, 2, 3));
    assert_eq!(t.bar.height_px, 30);
}

#[test]
fn css_rejected_values_keep_the_base() {
    let base = default_theme();
    let t = parse(
        "terminal { padding: -1; shape: round; color: rgb(256,0,0); background: rgba(1,2,3); }\n\
         wallpaper { type: gradient; color: #000000; }\n\
         bar { position: left; height: 99999999999; }",
        base,
        &alpha,
    );
    assert_eq!(t, base);
    let u = parse("wallpaper { type: bitmap; bitmap: moon; }", base, &alpha);
    assert_eq!(u, base);
}

#[test]
fn css_first_wallpaper_type_wins_and_blocks_need_names() {
    let base = default_theme();
    let t = parse("wallpaper { type: solid; type: bitmap; bitmap: snow; color: #0a0b0c; }", base, &alpha);
    assert_eq!(t.wallpaper, Wallpaper::Solid(Color::rgb(10, 11, 12)));
    let u = parse("{ color: #000000; } cursor { color: #010101; }", base, &alpha);
    assert_eq!(u.cursor, Color::rgb(1, 1, 1));
    let v = parse("cursor { color: #020202; } bar { height: 5;", base, &alpha);
    assert_eq!(v.cursor, Color::rgb(2, 2, 2));
    assert_eq!(v.bar, base.bar);
}

#[test]
fn parsing_two_texts_in_a_row_applies_the_second_over_the_first() {
    let a = "terminal { color: #ff0000; }\n";
    let b = "terminal { color: #00ff00; } bar { height: 30px; }";
    let whole = parse(&format!("{a}{b}"), default_theme(), &alpha);
    let stepwise = parse(b, parse(a, default_theme(), &alpha), &alpha);
    assert_eq!(whole, stepwise);
}
