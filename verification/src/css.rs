//! The theme configuration language: a CSS-like text of blocks
//! `name { property: value; ... }` laid over a base theme.
//!
//! ```text
//! terminal  { background: rgba(10,10,16,0.7); color: #ebebf0; padding: 24; shape: square; }
//! wallpaper { type: bitmap; bitmap: autumn; }     /* or type: solid / gradient, color, color2 */
//! bar       { position: bottom; background: rgba(0,0,0,0.63); color: #ffffff; height: 28; }
//! cursor    { color: #ffffff; }
//! ```
//!
//! The parser is lenient: unknown blocks, properties and values are
//! skipped, and whatever is not recognised keeps the base theme's value.
//! Blocks do not nest. A `rgba(..)` alpha is a decimal fraction from 0 to 1;
//! reading it takes floating point, so the caller supplies that conversion.
use vstd::prelude::*;
use crate::strings::{
    chars_eq, chars_of, copy_range, find_char, find_from, is_text, lemma_find_char, parse_unsigned,
    parse_unsigned_chars, split, split_chars, starts_with_text, string_of, trim, trimmed, views, is_ws,
    lemma_find_char_append, lemma_trim_ws_prefix,
};
use crate::theme::{BarPosition, BarTheme, BuiltinWallpaper, Color, PanelShape, Theme, Wallpaper};

verus! {

/// `f` computes the function `af` on every text it is given.
pub open spec fn alpha_agrees<F: Fn(&str) -> Option<u8>>(
    f: F,
    af: spec_fn(Seq<char>) -> Option<u8>,
) -> bool {
    forall|s: &str, r: Option<u8>| #[trigger] f.ensures((s,), r) ==> r == af(s@)
}

pub type Text = Seq<char>;

/// The `name { body }` blocks of `s`, in order; a block with an empty
/// (all-whitespace) name is dropped, and scanning stops at a `{` without a
/// closing `}`.
pub open spec fn blocks(s: Text) -> Seq<(Text, Text)>
    decreases s.len(),
{
    match find_char(s, '{') {
        None => seq![],
        Some(o) => {
            let rest = s.skip(o + 1);
            match find_char(rest, '}') {
                None => seq![],
                Some(c) => {
                    proof {
                        lemma_find_char(s, '{');
                        lemma_find_char(rest, '}');
                    }
                    let name = trim(s.take(o));
                    let tail = blocks(rest.skip(c + 1));
                    if name.len() > 0 {
                        seq![(name, rest.take(c))] + tail
                    } else {
                        tail
                    }
                },
            }
        },
    }
}

/// One `property: value` piece: both sides trimmed, both non-empty.
pub open spec fn decl_of(d: Text) -> Option<(Text, Text)> {
    match find_char(d, ':') {
        None => None,
        Some(i) => {
            let k = trim(d.take(i));
            let v = trim(d.skip(i + 1));
            if k.len() == 0 || v.len() == 0 {
                None
            } else {
                Some((k, v))
            }
        },
    }
}

pub open spec fn decls_of_pieces(pieces: Seq<Text>) -> Seq<(Text, Text)>
    decreases pieces.len(),
{
    if pieces.len() == 0 {
        seq![]
    } else {
        let rest = decls_of_pieces(pieces.drop_last());
        match decl_of(pieces.last()) {
            Some(p) => rest.push(p),
            None => rest,
        }
    }
}

/// The declarations of a block body: its `;`-separated pieces that hold a
/// property and a value.
pub open spec fn declarations(body: Text) -> Seq<(Text, Text)> {
    decls_of_pieces(split(body, ';'))
}

/// The value of the first declaration of `key`.
pub open spec fn lookup(decls: Seq<(Text, Text)>, key: Text) -> Option<Text>
    decreases decls.len(),
{
    if decls.len() == 0 {
        None
    } else {
        match lookup(decls.drop_last(), key) {
            Some(v) => Some(v),
            None => if decls.last().0 == key {
                Some(decls.last().1)
            } else {
                None
            },
        }
    }
}

pub open spec fn hex_digit(c: char) -> Option<int> {
    if '0' <= c <= '9' {
        Some(c as int - '0' as int)
    } else if 'a' <= c <= 'f' {
        Some(c as int - 'a' as int + 10)
    } else if 'A' <= c <= 'F' {
        Some(c as int - 'A' as int + 10)
    } else {
        None
    }
}

/// Two characters read as a hexadecimal byte the way `u8::from_str_radix`
/// reads them: two hex digits, or `+` and one hex digit.
pub open spec fn hex_pair(a: char, b: char) -> Option<u8> {
    if a == '+' {
        match hex_digit(b) {
            Some(y) => Some(y as u8),
            None => None,
        }
    } else {
        match (hex_digit(a), hex_digit(b)) {
            (Some(x), Some(y)) => Some((16 * x + y) as u8),
            _ => None,
        }
    }
}

/// The inner text of `s` between `prefix` and a closing `)`, if `s` has both.
pub open spec fn call_args(s: Text, prefix: Text) -> Option<Text> {
    if prefix.len() <= s.len() && s.take(prefix.len() as int) == prefix && s.len() > prefix.len()
        && s.last() == ')' {
        Some(s.subrange(prefix.len() as int, s.len() - 1))
    } else {
        None
    }
}

/// The `,`-separated, trimmed arguments of a colour function.
pub open spec fn args_of(inner: Text) -> Seq<Text> {
    split(inner, ',').map_values(|p: Text| trim(p))
}

pub open spec fn byte_of(s: Text) -> Option<u8> {
    match parse_unsigned(s, 255) {
        Some(n) => Some(n as u8),
        None => None,
    }
}

/// A colour value: `#rrggbb`, `rgb(r,g,b)` or `rgba(r,g,b,a)`, with decimal
/// channels and the alpha as `af` reads it.
pub open spec fn parse_color_spec(s0: Text, af: spec_fn(Text) -> Option<u8>) -> Option<Color> {
    let s = trim(s0);
    if s.len() > 0 && s[0] == '#' {
        let hex = s.drop_first();
        if hex.len() != 6 {
            None
        } else {
            match (hex_pair(hex[0], hex[1]), hex_pair(hex[2], hex[3]), hex_pair(hex[4], hex[5])) {
                (Some(r), Some(g), Some(b)) => Some(Color { r, g, b, a: 255 }),
                _ => None,
            }
        }
    } else if call_args(s, "rgba("@) is Some {
        let parts = args_of(call_args(s, "rgba("@)->0);
        if parts.len() != 4 {
            None
        } else {
            match (byte_of(parts[0]), byte_of(parts[1]), byte_of(parts[2]), af(parts[3])) {
                (Some(r), Some(g), Some(b), Some(a)) => Some(Color { r, g, b, a }),
                _ => None,
            }
        }
    } else if call_args(s, "rgb("@) is Some {
        let parts = args_of(call_args(s, "rgb("@)->0);
        if parts.len() != 3 {
            None
        } else {
            match (byte_of(parts[0]), byte_of(parts[1]), byte_of(parts[2])) {
                (Some(r), Some(g), Some(b)) => Some(Color { r, g, b, a: 255 }),
                _ => None,
            }
        }
    } else {
        None
    }
}

pub open spec fn u32_of(s: Text) -> Option<u32> {
    match parse_unsigned(trim(s), u32::MAX as int) {
        Some(n) => Some(n as u32),
        None => None,
    }
}

pub open spec fn terminal_decl(t: Theme, d: (Text, Text), af: spec_fn(Text) -> Option<u8>) -> Theme {
    let (k, v) = d;
    if k == "background"@ {
        match parse_color_spec(v, af) {
            Some(c) => Theme { terminal_bg: c, ..t },
            None => t,
        }
    } else if k == "color"@ {
        match parse_color_spec(v, af) {
            Some(c) => Theme { terminal_fg: c, ..t },
            None => t,
        }
    } else if k == "padding"@ {
        match u32_of(v) {
            Some(n) => Theme { terminal_padding_px: n, ..t },
            None => t,
        }
    } else if k == "shape"@ {
        if v == "square"@ {
            Theme { panel_shape: PanelShape::Square, ..t }
        } else if v == "fill"@ {
            Theme { panel_shape: PanelShape::Fill, ..t }
        } else {
            t
        }
    } else {
        t
    }
}

pub open spec fn bar_decl(t: Theme, d: (Text, Text), af: spec_fn(Text) -> Option<u8>) -> Theme {
    let (k, v) = d;
    if k == "position"@ {
        if v == "top"@ {
            Theme { bar: BarTheme { position: BarPosition::Top, ..t.bar }, ..t }
        } else if v == "bottom"@ {
            Theme { bar: BarTheme { position: BarPosition::Bottom, ..t.bar }, ..t }
        } else if v == "hidden"@ {
            Theme { bar: BarTheme { position: BarPosition::Hidden, ..t.bar }, ..t }
        } else {
            t
        }
    } else if k == "background"@ {
        match parse_color_spec(v, af) {
            Some(c) => Theme { bar: BarTheme { background: c, ..t.bar }, ..t },
            None => t,
        }
    } else if k == "color"@ {
        match parse_color_spec(v, af) {
            Some(c) => Theme { bar: BarTheme { foreground: c, ..t.bar }, ..t },
            None => t,
        }
    } else if k == "height"@ {
        match u32_of(v) {
            Some(n) => Theme { bar: BarTheme { height_px: n, ..t.bar }, ..t },
            None => t,
        }
    } else {
        t
    }
}

pub open spec fn cursor_decl(t: Theme, d: (Text, Text), af: spec_fn(Text) -> Option<u8>) -> Theme {
    if d.0 == "color"@ {
        match parse_color_spec(d.1, af) {
            Some(c) => Theme { cursor: c, ..t },
            None => t,
        }
    } else {
        t
    }
}

/// Which declarations a block applies one after another.
#[derive(Clone, Copy)]
pub enum BlockKind {
    Terminal,
    Bar,
    Cursor,
}

pub open spec fn apply_decls(
    kind: BlockKind,
    t: Theme,
    ds: Seq<(Text, Text)>,
    af: spec_fn(Text) -> Option<u8>,
) -> Theme
    decreases ds.len(),
{
    if ds.len() == 0 {
        t
    } else {
        let prev = apply_decls(kind, t, ds.drop_last(), af);
        match kind {
            BlockKind::Terminal => terminal_decl(prev, ds.last(), af),
            BlockKind::Bar => bar_decl(prev, ds.last(), af),
            BlockKind::Cursor => cursor_decl(prev, ds.last(), af),
        }
    }
}

pub open spec fn color_of_key(
    ds: Seq<(Text, Text)>,
    key: Text,
    af: spec_fn(Text) -> Option<u8>,
) -> Option<Color> {
    match lookup(ds, key) {
        Some(v) => parse_color_spec(v, af),
        None => None,
    }
}

/// A wallpaper block: its `type` picks which other properties count.
pub open spec fn wallpaper_spec(t: Theme, ds: Seq<(Text, Text)>, af: spec_fn(Text) -> Option<u8>) -> Theme {
    match lookup(ds, "type"@) {
        Some(kind) => if kind == "solid"@ {
            match color_of_key(ds, "color"@, af) {
                Some(c) => Theme { wallpaper: Wallpaper::Solid(c), ..t },
                None => t,
            }
        } else if kind == "gradient"@ {
            match (color_of_key(ds, "color"@, af), color_of_key(ds, "color2"@, af)) {
                (Some(c1), Some(c2)) => Theme { wallpaper: Wallpaper::VerticalGradient(c1, c2), ..t },
                _ => t,
            }
        } else if kind == "bitmap"@ {
            match lookup(ds, "bitmap"@) {
                Some(v) => if v == "default"@ {
                    Theme { wallpaper: Wallpaper::Bitmap(BuiltinWallpaper::Default), ..t }
                } else if v == "autumn"@ {
                    Theme { wallpaper: Wallpaper::Bitmap(BuiltinWallpaper::Autumn), ..t }
                } else if v == "snow"@ {
                    Theme { wallpaper: Wallpaper::Bitmap(BuiltinWallpaper::Snow), ..t }
                } else {
                    t
                },
                None => t,
            }
        } else {
            t
        },
        None => t,
    }
}

pub open spec fn block_spec(t: Theme, b: (Text, Text), af: spec_fn(Text) -> Option<u8>) -> Theme {
    let ds = declarations(b.1);
    if b.0 == "terminal"@ {
        apply_decls(BlockKind::Terminal, t, ds, af)
    } else if b.0 == "wallpaper"@ {
        wallpaper_spec(t, ds, af)
    } else if b.0 == "bar"@ {
        apply_decls(BlockKind::Bar, t, ds, af)
    } else if b.0 == "cursor"@ {
        apply_decls(BlockKind::Cursor, t, ds, af)
    } else {
        t
    }
}

pub open spec fn apply_blocks(t: Theme, bs: Seq<(Text, Text)>, af: spec_fn(Text) -> Option<u8>) -> Theme
    decreases bs.len(),
{
    if bs.len() == 0 {
        t
    } else {
        block_spec(apply_blocks(t, bs.drop_last(), af), bs.last(), af)
    }
}

/// The theme that `input` describes over `base`.
pub open spec fn parse_spec(input: Text, base: Theme, af: spec_fn(Text) -> Option<u8>) -> Theme {
    apply_blocks(base, blocks(input), af)
}

pub open spec fn known_block(name: Text) -> bool {
    name == "terminal"@ || name == "wallpaper"@ || name == "bar"@ || name == "cursor"@
}

proof fn lemma_unknown_blocks_keep(t: Theme, bs: Seq<(Text, Text)>, af: spec_fn(Text) -> Option<u8>)
    requires
        forall|i: int| 0 <= i < bs.len() ==> !known_block(#[trigger] bs[i].0),
    ensures
        apply_blocks(t, bs, af) == t,
    decreases bs.len(),
{
    if bs.len() > 0 {
        lemma_unknown_blocks_keep(t, bs.drop_last(), af);
        assert(!known_block(bs[bs.len() - 1].0));
    }
}

proof fn lemma_bar_position_last(t: Theme, ds: Seq<(Text, Text)>, i: int, af: spec_fn(Text) -> Option<u8>)
    requires
        0 <= i < ds.len(),
        ds[i].0 == "position"@,
        ds[i].1 == "top"@ || ds[i].1 == "bottom"@ || ds[i].1 == "hidden"@,
        forall|j: int| i < j < ds.len() ==> #[trigger] ds[j].0 != "position"@,
    ensures
        ds[i].1 == "top"@ ==> apply_decls(BlockKind::Bar, t, ds, af).bar.position == BarPosition::Top,
        ds[i].1 == "bottom"@ ==> apply_decls(BlockKind::Bar, t, ds, af).bar.position == BarPosition::Bottom,
        ds[i].1 == "hidden"@ ==> apply_decls(BlockKind::Bar, t, ds, af).bar.position == BarPosition::Hidden,
    decreases ds.len(),
{
    reveal_strlit("top");
    reveal_strlit("bottom");
    reveal_strlit("hidden");
    assert("top"@.len() == 3 && "bottom"@.len() == 6 && "hidden"@.len() == 6);
    assert("bottom"@[0] == 'b' && "hidden"@[0] == 'h');
    if i < ds.len() - 1 {
        let ds2 = ds.drop_last();
        assert forall|j: int| i < j < ds2.len() implies #[trigger] ds2[j].0 != "position"@ by {
            assert(ds2[j] == ds[j]);
        }
        lemma_bar_position_last(t, ds2, i, af);
        assert(ds.last().0 != "position"@);
    }
}

/// The bar sits where a bar block last says: when the last block of a
/// theme text is a `bar` block whose last `position` declaration is `top`,
/// `bottom` or `hidden` (other declarations may follow it), the theme's bar
/// is at the top, at the bottom or hidden, whatever the base theme.
pub proof fn law_bar_position(input: Text, base: Theme, i: int, af: spec_fn(Text) -> Option<u8>)
    requires
        blocks(input).len() > 0,
        blocks(input).last().0 == "bar"@,
        0 <= i < declarations(blocks(input).last().1).len(),
        declarations(blocks(input).last().1)[i].0 == "position"@,
        forall|j: int|
            i < j < declarations(blocks(input).last().1).len() ==> #[trigger] declarations(
                blocks(input).last().1,
            )[j].0 != "position"@,
    ensures
        declarations(blocks(input).last().1)[i].1 == "top"@ ==> parse_spec(input, base, af).bar.position
            == BarPosition::Top,
        declarations(blocks(input).last().1)[i].1 == "bottom"@ ==> parse_spec(input, base, af).bar.position
            == BarPosition::Bottom,
        declarations(blocks(input).last().1)[i].1 == "hidden"@ ==> parse_spec(input, base, af).bar.position
            == BarPosition::Hidden,
{
    reveal_strlit("bar");
    reveal_strlit("terminal");
    reveal_strlit("wallpaper");
    let bs = blocks(input);
    let ds = declarations(bs.last().1);
    let prev = apply_blocks(base, bs.drop_last(), af);
    assert(parse_spec(input, base, af) == block_spec(prev, bs.last(), af));
    assert("bar"@.len() == 3 && "terminal"@.len() == 8 && "wallpaper"@.len() == 9);
    assert(block_spec(prev, bs.last(), af) == apply_decls(BlockKind::Bar, prev, ds, af));
    let v = ds[i].1;
    if v == "top"@ || v == "bottom"@ || v == "hidden"@ {
        lemma_bar_position_last(prev, ds, i, af);
    }
}

/// Text without any `{` holds no block, so it leaves the base theme as it is.
pub proof fn law_no_blocks_keeps_base(input: Text, base: Theme, af: spec_fn(Text) -> Option<u8>)
    requires
        find_char(input, '{') is None,
    ensures
        parse_spec(input, base, af) == base,
{
}

/// Blocks of unknown names are skipped: a text whose every block has a name
/// other than terminal, wallpaper, bar and cursor leaves the base theme.
pub proof fn law_unknown_blocks_keep_base(input: Text, base: Theme, af: spec_fn(Text) -> Option<u8>)
    requires
        forall|i: int| 0 <= i < blocks(input).len() ==> !known_block(#[trigger] blocks(input)[i].0),
    ensures
        parse_spec(input, base, af) == base,
{
    lemma_unknown_blocks_keep(base, blocks(input), af);
}

/// Text made of whole `name { body }` blocks with only whitespace after
/// the last one.
pub open spec fn whole_blocks(a: Text) -> bool
    decreases a.len(),
{
    match find_char(a, '{') {
        None => forall|j: int| 0 <= j < a.len() ==> is_ws(#[trigger] a[j]),
        Some(o) => {
            let rest = a.skip(o + 1);
            match find_char(rest, '}') {
                None => false,
                Some(c) => {
                    proof {
                        lemma_find_char(a, '{');
                        lemma_find_char(rest, '}');
                    }
                    whole_blocks(rest.skip(c + 1))
                },
            }
        },
    }
}

proof fn lemma_blocks_append(a: Text, b: Text)
    requires
        whole_blocks(a),
    ensures
        blocks(a + b) == blocks(a) + blocks(b),
    decreases a.len(),
{
    lemma_find_char(a, '{');
    lemma_find_char_append(a, b, '{');
    match find_char(a, '{') {
        None => {
            assert(blocks(a) == Seq::<(Text, Text)>::empty());
            match find_char(b, '{') {
                None => {
                    assert(blocks(b) + Seq::<(Text, Text)>::empty() =~= blocks(b));
                },
                Some(o) => {
                    lemma_find_char(b, '{');
                    let ab = a + b;
                    let oo = a.len() + o;
                    assert(ab.skip(oo + 1) =~= b.skip(o + 1));
                    assert(ab.take(oo) =~= a + b.take(o));
                    lemma_trim_ws_prefix(a, b.take(o));
                    assert(Seq::<(Text, Text)>::empty() + blocks(b) =~= blocks(b));
                },
            }
        },
        Some(o) => {
            let rest = a.skip(o + 1);
            let ab = a + b;
            assert(ab.skip(o + 1) =~= rest + b);
            assert(ab.take(o) =~= a.take(o));
            lemma_find_char(rest, '}');
            lemma_find_char_append(rest, b, '}');
            let c = find_char(rest, '}')->0;
            assert((rest + b).take(c) =~= rest.take(c));
            assert((rest + b).skip(c + 1) =~= rest.skip(c + 1) + b);
            lemma_blocks_append(rest.skip(c + 1), b);
            let name = trim(a.take(o));
            let tail = blocks(rest.skip(c + 1));
            if name.len() > 0 {
                assert(seq![(name, rest.take(c))] + (tail + blocks(b)) =~= (seq![(name, rest.take(c))] + tail)
                    + blocks(b));
            }
        },
    }
}

proof fn lemma_apply_blocks_append(
    t: Theme,
    p: Seq<(Text, Text)>,
    q: Seq<(Text, Text)>,
    af: spec_fn(Text) -> Option<u8>,
)
    ensures
        apply_blocks(t, p + q, af) == apply_blocks(apply_blocks(t, p, af), q, af),
    decreases q.len(),
{
    if q.len() == 0 {
        assert(p + q =~= p);
    } else {
        assert((p + q).drop_last() =~= p + q.drop_last());
        assert((p + q).last() == q.last());
        lemma_apply_blocks_append(t, p, q.drop_last(), af);
    }
}

/// Blocks apply left to right: parsing a text of whole blocks followed by
/// more text is parsing the rest over what the first part gave.
pub proof fn law_parse_concat(a: Text, b: Text, base: Theme, af: spec_fn(Text) -> Option<u8>)
    requires
        whole_blocks(a),
    ensures
        parse_spec(a + b, base, af) == parse_spec(b, parse_spec(a, base, af), af),
{
    lemma_blocks_append(a, b);
    lemma_apply_blocks_append(base, blocks(a), blocks(b), af);
}

pub open spec fn pair_views(r: Seq<(Vec<char>, Vec<char>)>) -> Seq<(Text, Text)> {
    r.map_values(|p: (Vec<char>, Vec<char>)| (p.0@, p.1@))
}

/// Finds the `name { body }` blocks of `v` (no nesting).
fn find_blocks(v: &[char]) -> (r: Vec<(Vec<char>, Vec<char>)>)
    ensures
        pair_views(r@) == blocks(v@),
{
    let mut r: Vec<(Vec<char>, Vec<char>)> = Vec::new();
    let mut pos: usize = 0;
    let n = v.len();
    assert(v@.skip(0) =~= v@);
    loop
        invariant
            pos <= n,
            n == v@.len(),
            pair_views(r@) + blocks(v@.skip(pos as int)) == blocks(v@),
        decreases n - pos,
    {
        let ghost rest = v@.skip(pos as int);
        proof { lemma_find_char(rest, '{'); }
        let ghost fo = find_char(rest, '{');
        let o = match find_from(v, pos, '{') {
            None => {
                assert(pair_views(r@) + blocks(rest) =~= pair_views(r@));
                return r;
            },
            Some(o) => o,
        };
        assert(fo is Some && o == pos + fo->0);
        assert(o < n);
        let ghost rest2 = rest.skip(fo->0 + 1);
        assert(rest2 =~= v@.skip(o + 1));
        proof { lemma_find_char(rest2, '}'); }
        let ghost fc = find_char(rest2, '}');
        let c = match find_from(v, o + 1, '}') {
            None => {
                assert(pair_views(r@) + blocks(rest) =~= pair_views(r@));
                return r;
            },
            Some(c) => c,
        };
        assert(fc is Some && c == o + 1 + fc->0);
        assert(c < n);
        let name_raw = copy_range(v, pos, o);
        let name = trimmed(name_raw.as_slice());
        let body = copy_range(v, o + 1, c);
        proof {
            assert(name_raw@ =~= rest.take(fo->0));
            assert(body@ =~= rest2.take(fc->0));
            assert(rest2.skip(fc->0 + 1) =~= v@.skip(c + 1));
        }
        if name.len() > 0 {
            let ghost old_r = r@;
            r.push((name, body));
            assert(pair_views(r@) =~= pair_views(old_r).push((name@, body@)));
            assert(pair_views(r@) + blocks(v@.skip(c + 1)) =~= pair_views(old_r) + blocks(rest));
        }
        pos = c + 1;
    }
}

/// One `property: value` piece.
fn decl_of_chars(d: &[char]) -> (r: Option<(Vec<char>, Vec<char>)>)
    ensures
        match decl_of(d@) {
            Some(p) => r is Some && (r->0).0@ == p.0 && (r->0).1@ == p.1,
            None => r is None,
        },
{
    proof { lemma_find_char(d@, ':'); }
    let ghost fi = find_char(d@, ':');
    assert(d@.skip(0) =~= d@);
    match find_from(d, 0, ':') {
        None => None,
        Some(i) => {
            let n = d.len();
            assert(i < n);
            let k_raw = copy_range(d, 0, i);
            let v_raw = copy_range(d, i + 1, n);
            assert(k_raw@ =~= d@.take(fi->0));
            assert(v_raw@ =~= d@.skip(fi->0 + 1));
            let k = trimmed(k_raw.as_slice());
            let v = trimmed(v_raw.as_slice());
            if k.len() == 0 || v.len() == 0 {
                None
            } else {
                Some((k, v))
            }
        },
    }
}

/// The declarations of a block body.
fn declarations_of(body: &[char]) -> (r: Vec<(Vec<char>, Vec<char>)>)
    ensures
        pair_views(r@) == declarations(body@),
{
    let pieces = split_chars(body, ';');
    let mut r: Vec<(Vec<char>, Vec<char>)> = Vec::new();
    let mut i: usize = 0;
    assert(views(pieces@).take(0) =~= seq![]);
    while i < pieces.len()
        invariant
            i <= pieces@.len(),
            views(pieces@) == split(body@, ';'),
            pair_views(r@) == decls_of_pieces(views(pieces@).take(i as int)),
        decreases pieces.len() - i,
    {
        let ghost pre = views(pieces@).take(i as int);
        let ghost next = views(pieces@).take(i + 1);
        assert(next.drop_last() =~= pre);
        assert(next.last() == pieces@[i as int]@);
        match decl_of_chars(pieces[i].as_slice()) {
            Some(p) => {
                let ghost old_r = r@;
                r.push(p);
                assert(pair_views(r@) =~= pair_views(old_r).push((p.0@, p.1@)));
            },
            None => {},
        }
        i = i + 1;
    }
    assert(views(pieces@).take(pieces@.len() as int) =~= views(pieces@));
    r
}

/// Index of the first declaration of `key`.
fn lookup_index(ds: &Vec<(Vec<char>, Vec<char>)>, key: &str) -> (r: Option<usize>)
    ensures
        match lookup(pair_views(ds@), key@) {
            Some(v) => r is Some && r->0 < ds@.len() && ds@[r->0 as int].1@ == v,
            None => r is None,
        },
{
    let mut found: Option<usize> = None;
    let mut i: usize = 0;
    assert(pair_views(ds@).take(0) =~= seq![]);
    while i < ds.len()
        invariant
            i <= ds@.len(),
            match lookup(pair_views(ds@).take(i as int), key@) {
                Some(v) => found is Some && found->0 < ds@.len() && ds@[found->0 as int].1@ == v,
                None => found is None,
            },
        decreases ds.len() - i,
    {
        let ghost pre = pair_views(ds@).take(i as int);
        let ghost next = pair_views(ds@).take(i + 1);
        assert(next.drop_last() =~= pre);
        assert(next.last() == (ds@[i as int].0@, ds@[i as int].1@));
        if found.is_none() && is_text(ds[i].0.as_slice(), key) {
            found = Some(i);
        }
        i = i + 1;
    }
    assert(pair_views(ds@).take(ds@.len() as int) =~= pair_views(ds@));
    found
}

fn hex_digit_of(c: char) -> (r: Option<u32>)
    ensures
        match hex_digit(c) {
            Some(x) => r == Some(x as u32),
            None => r is None,
        },
{
    if '0' <= c && c <= '9' {
        Some(c as u32 - '0' as u32)
    } else if 'a' <= c && c <= 'f' {
        Some(c as u32 - 'a' as u32 + 10)
    } else if 'A' <= c && c <= 'F' {
        Some(c as u32 - 'A' as u32 + 10)
    } else {
        None
    }
}

fn hex_pair_of(a: char, b: char) -> (r: Option<u8>)
    ensures
        r == hex_pair(a, b),
{
    if a == '+' {
        match hex_digit_of(b) {
            Some(y) => Some(y as u8),
            None => None,
        }
    } else {
        match (hex_digit_of(a), hex_digit_of(b)) {
            (Some(x), Some(y)) => Some((16 * x + y) as u8),
            _ => None,
        }
    }
}

/// The text between `prefix` and a final `)`.
fn call_args_of(s: &[char], prefix: &str) -> (r: Option<Vec<char>>)
    ensures
        match call_args(s@, prefix@) {
            Some(inner) => r is Some && r->0@ == inner,
            None => r is None,
        },
{
    let p = chars_of(prefix);
    if starts_with_text(s, prefix) && s.len() > p.len() && s[s.len() - 1] == ')' {
        Some(copy_range(s, p.len(), s.len() - 1))
    } else {
        None
    }
}

fn args_of_chars(inner: &[char]) -> (r: Vec<Vec<char>>)
    ensures
        views(r@) == args_of(inner@),
{
    let pieces = split_chars(inner, ',');
    assert(views(pieces@).len() == pieces@.len());
    let mut r: Vec<Vec<char>> = Vec::new();
    let mut i: usize = 0;
    while i < pieces.len()
        invariant
            i <= pieces@.len(),
            views(pieces@) == split(inner@, ','),
            views(r@) =~= args_of(inner@).take(i as int),
            args_of(inner@).len() == pieces@.len(),
        decreases pieces.len() - i,
    {
        let t = trimmed(pieces[i].as_slice());
        assert(pieces@[i as int]@ == split(inner@, ',')[i as int]);
        assert(views(pieces@).len() == pieces@.len());
        let ghost old_r = r@;
        r.push(t);
        assert(views(r@) =~= views(old_r).push(t@));
        assert(args_of(inner@)[i as int] == trim(split(inner@, ',')[i as int]));
        i = i + 1;
    }
    r
}

fn byte_of_chars(v: &[char]) -> (r: Option<u8>)
    ensures
        r == byte_of(v@),
{
    match parse_unsigned_chars(v, 255) {
        Some(n) => Some(n as u8),
        None => None,
    }
}

fn alpha_of<F: Fn(&str) -> Option<u8>>(v: &[char], alpha: &F) -> (r: Option<u8>)
    requires
        forall|t: &str| alpha.requires((t,)),
    ensures
        forall|af: spec_fn(Text) -> Option<u8>| alpha_agrees(*alpha, af) ==> r == af(v@),
{
    let s = string_of(v);
    alpha(s.as_str())
}

/// A colour value; see `parse_color_spec`.
fn parse_color<F: Fn(&str) -> Option<u8>>(v0: &[char], alpha: &F) -> (r: Option<Color>)
    requires
        forall|t: &str| alpha.requires((t,)),
    ensures
        forall|af: spec_fn(Text) -> Option<u8>| alpha_agrees(*alpha, af) ==> r == parse_color_spec(v0@, af),
{
    let s = trimmed(v0);
    if s.len() > 0 && s[0] == '#' {
        if s.len() != 7 {
            return None;
        }
        let r = hex_pair_of(s[1], s[2]);
        let g = hex_pair_of(s[3], s[4]);
        let b = hex_pair_of(s[5], s[6]);
        proof {
            let hex = s@.drop_first();
            assert(hex[0] == s@[1] && hex[1] == s@[2] && hex[2] == s@[3]);
            assert(hex[3] == s@[4] && hex[4] == s@[5] && hex[5] == s@[6]);
        }
        return match (r, g, b) {
            (Some(r), Some(g), Some(b)) => Some(Color::rgb(r, g, b)),
            _ => None,
        };
    }
    match call_args_of(s.as_slice(), "rgba(") {
        Some(inner) => {
            let parts = args_of_chars(inner.as_slice());
            if parts.len() != 4 {
                return None;
            }
            let r = byte_of_chars(parts[0].as_slice());
            let g = byte_of_chars(parts[1].as_slice());
            let b = byte_of_chars(parts[2].as_slice());
            let a = alpha_of(parts[3].as_slice(), alpha);
            return match (r, g, b, a) {
                (Some(r), Some(g), Some(b), Some(a)) => Some(Color::rgba(r, g, b, a)),
                _ => None,
            };
        },
        None => {},
    }
    match call_args_of(s.as_slice(), "rgb(") {
        Some(inner) => {
            let parts = args_of_chars(inner.as_slice());
            if parts.len() != 3 {
                return None;
            }
            let r = byte_of_chars(parts[0].as_slice());
            let g = byte_of_chars(parts[1].as_slice());
            let b = byte_of_chars(parts[2].as_slice());
            match (r, g, b) {
                (Some(r), Some(g), Some(b)) => Some(Color::rgb(r, g, b)),
                _ => None,
            }
        },
        None => None,
    }
}

fn parse_u32(v: &[char]) -> (r: Option<u32>)
    ensures
        r == u32_of(v@),
{
    let t = trimmed(v);
    match parse_unsigned_chars(t.as_slice(), 0xFFFF_FFFF) {
        Some(n) => Some(n as u32),
        None => None,
    }
}

fn terminal_decl_exec<F: Fn(&str) -> Option<u8>>(theme: &mut Theme, k: &[char], v: &[char], alpha: &F)
    requires
        forall|t: &str| alpha.requires((t,)),
    ensures
        forall|af: spec_fn(Text) -> Option<u8>| alpha_agrees(*alpha, af)
            ==> *final(theme) == terminal_decl(*old(theme), (k@, v@), af),
{
    if is_text(k, "background") {
        if let Some(c) = parse_color(v, alpha) {
            theme.terminal_bg = c;
        }
    } else if is_text(k, "color") {
        if let Some(c) = parse_color(v, alpha) {
            theme.terminal_fg = c;
        }
    } else if is_text(k, "padding") {
        if let Some(n) = parse_u32(v) {
            theme.terminal_padding_px = n;
        }
    } else if is_text(k, "shape") {
        if is_text(v, "square") {
            theme.panel_shape = PanelShape::Square;
        } else if is_text(v, "fill") {
            theme.panel_shape = PanelShape::Fill;
        }
    }
}

fn bar_decl_exec<F: Fn(&str) -> Option<u8>>(theme: &mut Theme, k: &[char], v: &[char], alpha: &F)
    requires
        forall|t: &str| alpha.requires((t,)),
    ensures
        forall|af: spec_fn(Text) -> Option<u8>| alpha_agrees(*alpha, af)
            ==> *final(theme) == bar_decl(*old(theme), (k@, v@), af),
{
    if is_text(k, "position") {
        if is_text(v, "top") {
            theme.bar.position = BarPosition::Top;
        } else if is_text(v, "bottom") {
            theme.bar.position = BarPosition::Bottom;
        } else if is_text(v, "hidden") {
            theme.bar.position = BarPosition::Hidden;
        }
    } else if is_text(k, "background") {
        if let Some(c) = parse_color(v, alpha) {
            theme.bar.background = c;
        }
    } else if is_text(k, "color") {
        if let Some(c) = parse_color(v, alpha) {
            theme.bar.foreground = c;
        }
    } else if is_text(k, "height") {
        if let Some(n) = parse_u32(v) {
            theme.bar.height_px = n;
        }
    }
}

fn cursor_decl_exec<F: Fn(&str) -> Option<u8>>(theme: &mut Theme, k: &[char], v: &[char], alpha: &F)
    requires
        forall|t: &str| alpha.requires((t,)),
    ensures
        forall|af: spec_fn(Text) -> Option<u8>| alpha_agrees(*alpha, af)
            ==> *final(theme) == cursor_decl(*old(theme), (k@, v@), af),
{
    if is_text(k, "color") {
        if let Some(c) = parse_color(v, alpha) {
            theme.cursor = c;
        }
    }
}

/// Applies each declaration of a terminal, bar or cursor block in order.
fn apply_block_decls<F: Fn(&str) -> Option<u8>>(
    kind: BlockKind,
    theme: &mut Theme,
    body: &[char],
    alpha: &F,
)
    requires
        forall|t: &str| alpha.requires((t,)),
    ensures
        forall|af: spec_fn(Text) -> Option<u8>| alpha_agrees(*alpha, af)
            ==> *final(theme) == apply_decls(kind, *old(theme), declarations(body@), af),
{
    let ds = declarations_of(body);
    let mut i: usize = 0;
    assert(pair_views(ds@).take(0) =~= seq![]);
    while i < ds.len()
        invariant
            i <= ds@.len(),
            forall|t: &str| alpha.requires((t,)),
            pair_views(ds@) == declarations(body@),
            forall|af: spec_fn(Text) -> Option<u8>| alpha_agrees(*alpha, af)
                ==> *theme == apply_decls(kind, *old(theme), pair_views(ds@).take(i as int), af),
        decreases ds.len() - i,
    {
        let ghost pre = pair_views(ds@).take(i as int);
        let ghost next = pair_views(ds@).take(i + 1);
        assert(next.drop_last() =~= pre);
        assert(next.last() == (ds@[i as int].0@, ds@[i as int].1@));
        let k = ds[i].0.as_slice();
        let v = ds[i].1.as_slice();
        match kind {
            BlockKind::Terminal => terminal_decl_exec(theme, k, v, alpha),
            BlockKind::Bar => bar_decl_exec(theme, k, v, alpha),
            BlockKind::Cursor => cursor_decl_exec(theme, k, v, alpha),
        }
        i = i + 1;
    }
    assert(pair_views(ds@).take(ds@.len() as int) =~= pair_views(ds@));
}

fn color_of_key_exec<F: Fn(&str) -> Option<u8>>(
    ds: &Vec<(Vec<char>, Vec<char>)>,
    key: &str,
    alpha: &F,
) -> (r: Option<Color>)
    requires
        forall|t: &str| alpha.requires((t,)),
    ensures
        forall|af: spec_fn(Text) -> Option<u8>| alpha_agrees(*alpha, af)
            ==> r == color_of_key(pair_views(ds@), key@, af),
{
    match lookup_index(ds, key) {
        Some(i) => parse_color(ds[i].1.as_slice(), alpha),
        None => None,
    }
}

/// A wallpaper block.
fn apply_wallpaper<F: Fn(&str) -> Option<u8>>(theme: &mut Theme, body: &[char], alpha: &F)
    requires
        forall|t: &str| alpha.requires((t,)),
    ensures
        forall|af: spec_fn(Text) -> Option<u8>| alpha_agrees(*alpha, af)
            ==> *final(theme) == wallpaper_spec(*old(theme), declarations(body@), af),
{
    let ds = declarations_of(body);
    let kind = match lookup_index(&ds, "type") {
        Some(i) => i,
        None => return,
    };
    let kv = ds[kind].1.as_slice();
    if is_text(kv, "solid") {
        if let Some(c) = color_of_key_exec(&ds, "color", alpha) {
            theme.wallpaper = Wallpaper::Solid(c);
        }
    } else if is_text(kv, "gradient") {
        let c1 = color_of_key_exec(&ds, "color", alpha);
        let c2 = color_of_key_exec(&ds, "color2", alpha);
        if let (Some(c1), Some(c2)) = (c1, c2) {
            theme.wallpaper = Wallpaper::VerticalGradient(c1, c2);
        }
    } else if is_text(kv, "bitmap") {
        if let Some(j) = lookup_index(&ds, "bitmap") {
            let v = ds[j].1.as_slice();
            if is_text(v, "default") {
                theme.wallpaper = Wallpaper::Bitmap(BuiltinWallpaper::Default);
            } else if is_text(v, "autumn") {
                theme.wallpaper = Wallpaper::Bitmap(BuiltinWallpaper::Autumn);
            } else if is_text(v, "snow") {
                theme.wallpaper = Wallpaper::Bitmap(BuiltinWallpaper::Snow);
            }
        }
    }
}

/// Reads the CSS-like `input` and lays what it sets over `base`; anything
/// it does not recognise keeps the base value. `alpha` turns the text of a
/// `rgba(..)` alpha into a byte (`None` if it is not a number).
pub fn parse<F: Fn(&str) -> Option<u8>>(input: &str, base: Theme, alpha: &F) -> (theme: Theme)
    requires
        forall|t: &str| alpha.requires((t,)),
    ensures
        forall|af: spec_fn(Text) -> Option<u8>| alpha_agrees(*alpha, af)
            ==> theme == parse_spec(input@, base, af),
{
    let text = chars_of(input);
    let bs = find_blocks(text.as_slice());
    let mut theme = base;
    let mut i: usize = 0;
    assert(pair_views(bs@).take(0) =~= seq![]);
    while i < bs.len()
        invariant
            i <= bs@.len(),
            forall|t: &str| alpha.requires((t,)),
            pair_views(bs@) == blocks(input@),
            text@ == input@,
            forall|af: spec_fn(Text) -> Option<u8>| alpha_agrees(*alpha, af)
                ==> theme == apply_blocks(base, pair_views(bs@).take(i as int), af),
        decreases bs.len() - i,
    {
        let ghost pre = pair_views(bs@).take(i as int);
        let ghost next = pair_views(bs@).take(i + 1);
        assert(next.drop_last() =~= pre);
        assert(next.last() == (bs@[i as int].0@, bs@[i as int].1@));
        let name = bs[i].0.as_slice();
        let body = bs[i].1.as_slice();
        if is_text(name, "terminal") {
            apply_block_decls(BlockKind::Terminal, &mut theme, body, alpha);
        } else if is_text(name, "wallpaper") {
            apply_wallpaper(&mut theme, body, alpha);
        } else if is_text(name, "bar") {
            apply_block_decls(BlockKind::Bar, &mut theme, body, alpha);
        } else if is_text(name, "cursor") {
            apply_block_decls(BlockKind::Cursor, &mut theme, body, alpha);
        }
        i = i + 1;
    }
    assert(pair_views(bs@).take(bs@.len() as int) =~= pair_views(bs@));
    theme
}

} // verus!
