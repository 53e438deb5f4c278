use cios::bake::{
    bake_atlas, bake_wallpaper, encode_atlas, encode_wallpaper, place_glyph, BakeError, RasterGlyph, WALLPAPER_H,
    WALLPAPER_W,
};
use cios::bitmap::Bitmap;
use cios::font::{font, has_signature, Font};
use cios::framebuffer::Framebuffer;
use cios::nano::NanoScreen;
use cios::terminal::{
    draw_css_editor_panel, draw_css_menu_panel, draw_desktop, draw_file_manager_panel, draw_nano_panel,
    draw_terminal_panel, Wallpapers,
};
use cios::text::draw_text;
use cios::theme::{default_theme, solid_theme, Color};

/// A font of 2x3 cells where every character but the space is a full block.
fn block_font() -> Font {
    let count = 95usize;
    let mut glyphs = vec![255u8; count * 6];
    for b in glyphs.iter_mut().take(6) {
        *b = 0;
    }
    let atlas = encode_atlas(0x20, count as u32, 2, 3, &glyphs);
    assert!(has_signature(&atlas));
    font(&atlas)
}

fn wallpaper(w: u32, h: u32, rgb: &[u8]) -> Bitmap {
    Bitmap::from_raw(&encode_wallpaper(w, h, rgb)).unwrap()
}

#[test]
fn atlas_round_trip_gives_header_and_glyphs() {
    let glyphs: Vec<u8> = (0..24u8).collect();
    let atlas = encode_atlas(0x41, 2, 3, 4, &glyphs);
    assert_eq!(&atlas[0..4], b"CFA1");
    assert_eq!(atlas.len(), 20 + 24);
    let f = font(&atlas);
    assert_eq!(f.first_codepoint(), 0x41);
    assert_eq!(f.glyph_count(), 2);
    assert_eq!((f.cell_w(), f.cell_h()), (3, 4));
    assert_eq!(f.glyph('B'), Some(&glyphs[12..24]));
    assert_eq!(f.glyph('C'), None);
    assert_eq!(f.glyph('@'), None);
}

#[test]
fn atlas_signature_is_checked() {
    assert!(!has_signature(b"CFA1short"));
    assert!(!has_signature(b"XFA1aaaabbbbccccdddd"));
    assert!(has_signature(b"CFA1aaaabbbbccccdddd"));
}

#[test]
fn wallpaper_round_trip() {
    let rgb = [1u8, 2, 3, 4, 5, 6];
    let raw = encode_wallpaper(2, 1, &rgb);
    assert_eq!(&raw[0..8], &[2, 0, 0, 0, 1, 0, 0, 0]);
    let b = Bitmap::from_raw(&raw).unwrap();
    assert_eq!((b.width, b.height), (2, 1));
    assert_eq!(b.pixels, rgb.to_vec());
}

#[test]
fn wallpaper_files_that_do_not_hold_their_picture_are_refused() {
    assert!(Bitmap::from_raw(&[1, 0, 0]).is_none());
    assert!(Bitmap::from_raw(&encode_wallpaper(0, 1, &[])).is_none());
    assert!(Bitmap::from_raw(&encode_wallpaper(2, 2, &[0; 11])).is_none());
    assert!(Bitmap::from_raw(&encode_wallpaper(2, 2, &[0; 12])).is_some());
}

#[test]
fn framebuffer_pixels_and_offsets() {
    let mut fb = Framebuffer::new(8, 4, 40, 32, 16, 8, 0);
    assert_eq!(fb.get_pixel(3, 2), Color::rgb(0, 0, 0));
    fb.put_pixel(3, 2, Color::rgb(1, 2, 3));
    assert_eq!(fb.get_pixel(3, 2), Color::rgb(1, 2, 3));
    assert_eq!(fb.word(3, 2), 0x010203);
    fb.put_pixel(100, 100, Color::rgb(9, 9, 9));
    assert_eq!(fb.get_pixel(100, 100), Color::rgb(0, 0, 0));
    assert_eq!(fb.byte_offset(3, 2), 2 * 40 + 3 * 4);
    assert_eq!((fb.width(), fb.height(), fb.pitch(), fb.bpp()), (8, 4, 40, 32));
}

#[test]
fn fill_rect_is_clipped_to_the_framebuffer() {
    let mut fb = Framebuffer::new(4, 4, 16, 32, 16, 8, 0);
    fb.fill_rect(2, 2, 10, 10, Color::rgb(255, 0, 0));
    assert_eq!(fb.get_pixel(3, 3), Color::rgb(255, 0, 0));
    assert_eq!(fb.get_pixel(1, 3), Color::rgb(0, 0, 0));
    fb.fill_rect_blended(0, 0, 4, 4, Color::rgba(255, 255, 255, 51));
    assert_eq!(fb.get_pixel(0, 0), Color::rgb(51, 51, 51));
    assert_eq!(fb.get_pixel(3, 3), Color::rgb(255, 51, 51));
}

#[test]
fn text_is_drawn_cell_by_cell() {
    let f = block_font();
    let mut fb = Framebuffer::new(10, 5, 40, 32, 16, 8, 0);
    draw_text(&mut fb, &f, 1, 1, "A B", Color::rgb(255, 0, 0));
    assert_eq!(fb.get_pixel(1, 1), Color::rgb(255, 0, 0));
    assert_eq!(fb.get_pixel(2, 3), Color::rgb(255, 0, 0));
    assert_eq!(fb.get_pixel(3, 1), Color::rgb(0, 0, 0));
    assert_eq!(fb.get_pixel(5, 2), Color::rgb(255, 0, 0));
    assert_eq!(fb.get_pixel(1, 4), Color::rgb(0, 0, 0));
    draw_text(&mut fb, &f, 0, 0, "\u{263a}", Color::rgb(0, 255, 0));
    assert_eq!(fb.get_pixel(0, 0), Color::rgb(0, 0, 0));
}

#[test]
fn bitmap_is_stretched_nearest_neighbour() {
    let b = wallpaper(2, 1, &[255, 0, 0, 0, 0, 255]);
    let mut fb = Framebuffer::new(4, 2, 16, 32, 16, 8, 0);
    b.blit_scaled(&mut fb);
    assert_eq!(fb.get_pixel(0, 0), Color::rgb(255, 0, 0));
    assert_eq!(fb.get_pixel(1, 1), Color::rgb(255, 0, 0));
    assert_eq!(fb.get_pixel(2, 0), Color::rgb(0, 0, 255));
    assert_eq!(fb.get_pixel(3, 1), Color::rgb(0, 0, 255));
}

#[test]
fn desktop_frame_shows_wallpaper_bar_and_panel() {
    let f = block_font();
    let w = Wallpapers {
        default: wallpaper(1, 1, &[1, 2, 3]),
        autumn: wallpaper(1, 1, &[4, 5, 6]),
        snow: wallpaper(1, 1, &[7, 8, 9]),
    };
    let theme = solid_theme();
    let mut fb = Framebuffer::new(120, 90, 480, 32, 16, 8, 0);
    draw_desktop(&mut fb, &theme, &w, &f, &[String::from("hi")], "ls", 1);
    // padding 16, bar on top: the wallpaper colour shows in the padding
    assert_eq!(fb.get_pixel(2, 60), Color::rgb(12, 12, 16));
    // the bar at the top is opaque
    assert_eq!(fb.get_pixel(60, 1), Color::rgb(20, 20, 20));
    // the panel is opaque black in this theme; the history text is written at (28, 28)
    assert_eq!(fb.get_pixel(16, 16), Color::rgb(0, 0, 0));
    assert_eq!(fb.get_pixel(28, 28), Color::rgb(220, 220, 220));
}

#[test]
fn editor_panel_has_title_bar_and_title() {
    let f = block_font();
    let theme = default_theme();
    let mut fb = Framebuffer::new(320, 240, 1280, 32, 16, 8, 0);
    let screen = NanoScreen {
        filename: None,
        modified: false,
        prompt: String::from(""),
        prompt_has_cursor: false,
        help_active: false,
        help_lines: vec![],
        lines: vec![String::from("hello")],
        cursor_line: 0,
        cursor_col: 0,
    };
    draw_nano_panel(&mut fb, &theme, &f, &screen);
    // square panel at (78, 24), 164 pixels wide: the title bar is the cursor colour
    assert_eq!(fb.get_pixel(78, 24), Color::rgb(255, 255, 255));
    // the panel background blended over black
    assert_eq!(fb.get_pixel(79, 30), Color::rgb(6, 6, 11));
    // the centred title starts at x = 131 in the panel background colour
    assert_eq!(fb.get_pixel(131, 36), Color::rgb(10, 10, 16));
    assert_eq!(fb.get_pixel(130, 36), Color::rgb(6, 6, 11));
    // the first body row starts at y = 24 + 12 + 3 + 4 = 43; the cursor covers the first column
    assert_eq!(fb.get_pixel(90, 43), Color::rgb(255, 255, 255));
    assert_eq!(fb.get_pixel(92, 43), Color::rgb(235, 235, 240));
}

#[test]
fn glyphs_are_placed_on_the_baseline_and_clipped_to_their_cell() {
    let mut atlas = vec![0u8; 18];
    place_glyph(&mut atlas, 1, 3, 3, 2, 1, 0, 2, 2, &[1, 2, 3, 4]);
    assert_eq!(atlas, vec![0, 0, 0, 0, 0, 0, 0, 0, 0, 0, 1, 2, 0, 3, 4, 0, 0, 0]);
    let mut clipped = vec![9u8; 9];
    // one row below the baseline and one column past the right edge are cut
    place_glyph(&mut clipped, 0, 3, 3, 3, 2, -1, 2, 2, &[1, 2, 3, 4]);
    assert_eq!(clipped, vec![9, 9, 9, 9, 9, 9, 9, 9, 1]);
}

#[test]
fn panel_repaints_leave_the_rest_of_the_screen_alone() {
    let f = block_font();
    let theme = default_theme();
    let grey = Color::rgb(7, 7, 7);
    let fresh = || {
        let mut fb = Framebuffer::new(320, 240, 1280, 32, 16, 8, 0);
        fb.fill_rect(0, 0, 320, 240, grey);
        fb
    };
    // the square panel covers x 78..242 and y 24..188
    let outside = [(0usize, 0usize), (77, 100), (242, 100), (160, 23), (160, 188), (319, 239)];
    let long = "x".repeat(500);
    let mut fb = fresh();
    draw_terminal_panel(&mut fb, &theme, &f, &[long.clone(), String::from("b")], &long, 500);
    for &(x, y) in outside.iter() {
        assert_eq!(fb.get_pixel(x, y), grey);
    }
    let mut fb = fresh();
    let entries: Vec<String> = (0..100).map(|i| format!("entry{i}")).collect();
    draw_file_manager_panel(&mut fb, &theme, &f, "/", &entries, 99);
    for &(x, y) in outside.iter() {
        assert_eq!(fb.get_pixel(x, y), grey);
    }
    let mut fb = fresh();
    draw_css_menu_panel(&mut fb, &theme, &f, 3);
    for &(x, y) in outside.iter() {
        assert_eq!(fb.get_pixel(x, y), grey);
    }
    let mut fb = fresh();
    draw_css_editor_panel(&mut fb, &theme, &f, &format!("{long}\n{long}"));
    for &(x, y) in outside.iter() {
        assert_eq!(fb.get_pixel(x, y), grey);
    }
    let mut fb = fresh();
    let screen = NanoScreen {
        filename: Some(long.clone()),
        modified: true,
        prompt: long.clone(),
        prompt_has_cursor: true,
        help_active: false,
        help_lines: vec![],
        lines: vec![long.clone(); 200],
        cursor_line: 150,
        cursor_col: 400,
    };
    draw_nano_panel(&mut fb, &theme, &f, &screen);
    for &(x, y) in outside.iter() {
        assert_eq!(fb.get_pixel(x, y), grey);
    }
    assert_ne!(fb.get_pixel(160, 100), grey);
}

#[test]
fn wide_cells_are_clipped_to_the_panel() {
    let count = 95usize;
    let glyphs = vec![255u8; count * 400];
    let f = font(&encode_atlas(0x20, count as u32, 20, 20, &glyphs));
    let theme = default_theme();
    let grey = Color::rgb(7, 7, 7);
    let mut fb = Framebuffer::new(1000, 1000, 4000, 32, 16, 8, 0);
    fb.fill_rect(0, 0, 1000, 1000, grey);
    draw_terminal_panel(&mut fb, &theme, &f, &[], "", 50);
    // the panel spans x 38..962; the cursor after a full line would reach past it
    assert_eq!(fb.get_pixel(965, 36), grey);
    assert_eq!(fb.get_pixel(962, 36), grey);
    assert_ne!(fb.get_pixel(961, 36), grey);
}

#[test]
fn display_memory_at_24_bits_takes_overlapping_words() {
    let mut fb = Framebuffer::new(2, 1, 6, 24, 16, 8, 0);
    fb.put_pixel(0, 0, Color::rgb(1, 2, 3));
    fb.put_pixel(1, 0, Color::rgb(4, 5, 6));
    let mut mem = vec![0u8; 6];
    fb.store_into(&mut mem);
    // each word spills one byte into the next pixel, which writes over it;
    // the last word's spill falls past the end of memory
    assert_eq!(mem, vec![3, 2, 1, 6, 5, 4]);
    let mut fb = Framebuffer::new(2, 1, 8, 32, 16, 8, 0);
    fb.put_pixel(0, 0, Color::rgb(1, 2, 3));
    fb.put_pixel(1, 0, Color::rgb(4, 5, 6));
    let mut mem = vec![9u8; 8];
    fb.store_into(&mut mem);
    assert_eq!(mem, vec![3, 2, 1, 0, 6, 5, 4, 0]);
}

#[test]
fn a_full_desktop_frame_forgets_the_old_screen() {
    let f = block_font();
    let w = Wallpapers {
        default: wallpaper(2, 2, &[1, 2, 3, 40, 50, 60, 70, 80, 90, 100, 110, 120]),
        autumn: wallpaper(1, 1, &[4, 5, 6]),
        snow: wallpaper(1, 1, &[7, 8, 9]),
    };
    let theme = default_theme();
    let mut a = Framebuffer::new(120, 90, 480, 32, 16, 8, 0);
    let mut b = Framebuffer::new(120, 90, 480, 32, 16, 8, 0);
    b.fill_rect(0, 0, 120, 90, Color::rgb(200, 100, 50));
    b.fill_rect(30, 30, 10, 10, Color::rgb(1, 255, 1));
    let history = [String::from("one"), String::from("two")];
    draw_desktop(&mut a, &theme, &w, &f, &history, "ls", 2);
    draw_desktop(&mut b, &theme, &w, &f, &history, "ls", 2);
    for y in 0..90 {
        for x in 0..120 {
            assert_eq!(a.get_pixel(x, y), b.get_pixel(x, y));
        }
    }
}

fn png_of(width: u32, height: u32, rgb: [u8; 3]) -> Vec<u8> {
    let img = image::DynamicImage::ImageRgb8(image::RgbImage::from_pixel(width, height, image::Rgb(rgb)));
    let mut out = std::io::Cursor::new(Vec::new());
    img.write_to(&mut out, image::ImageFormat::Png).unwrap();
    out.into_inner()
}

#[test]
fn baked_wallpaper_is_stretched_to_the_reference_size() {
    let raw = bake_wallpaper(&png_of(3, 2, [200, 10, 30])).ok().unwrap();
    assert_eq!((WALLPAPER_W, WALLPAPER_H), (640, 400));
    assert_eq!(&raw[0..8], &[0x80, 2, 0, 0, 0x90, 1, 0, 0]);
    assert_eq!(raw.len(), 8 + 640 * 400 * 3);
    let b = Bitmap::from_raw(&raw).unwrap();
    assert_eq!((b.width, b.height), (640, 400));
    let mid = (200 * 640 + 320) * 3;
    assert_eq!(&b.pixels[mid..mid + 3], &[200, 10, 30]);
}

#[test]
fn pictures_the_decoder_refuses_are_not_baked() {
    assert!(matches!(bake_wallpaper(b"not a picture"), Err(BakeError::Decode(_))));
    let mut png = png_of(2, 2, [1, 2, 3]);
    png.truncate(20);
    assert!(matches!(bake_wallpaper(&png), Err(BakeError::Decode(_))));
}

#[test]
fn atlas_is_baked_cell_by_cell_on_the_baseline() {
    let glyphs = vec![
        RasterGlyph { xmin: 0, ymin: 0, width: 2, height: 2, bitmap: vec![1, 2, 3, 4] },
        RasterGlyph { xmin: 2, ymin: -1, width: 2, height: 1, bitmap: vec![9, 8] },
    ];
    // ascent 2, descent -1: cells of 3 x 3, baseline at row 2
    let out = bake_atlas(0x41, 3, 2, -1, &glyphs);
    let cells = [1, 2, 0, 3, 4, 0, 0, 0, 0, 0, 0, 0, 0, 0, 0, 0, 0, 9];
    assert_eq!(out, encode_atlas(0x41, 2, 3, 3, &cells));
    let f = font(&out);
    assert_eq!((f.cell_w(), f.cell_h()), (3, 3));
    assert_eq!(f.glyph('B'), Some(&cells[9..18]));
}

#[test]
fn atlas_cells_are_at_least_one_row_high() {
    let glyphs = vec![RasterGlyph { xmin: 0, ymin: 0, width: 1, height: 1, bitmap: vec![7] }];
    let out = bake_atlas(0x20, 2, 3, 5, &glyphs);
    // ascent 3 puts the one-row bitmap at row 2, below the single row
    assert_eq!(out, encode_atlas(0x20, 1, 2, 1, &[0, 0]));
}
