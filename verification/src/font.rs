//! The glyph atlas of the built-in monospace font.
//!
//! Atlas format (little-endian): the signature `CFA1`, then four u32 —
//! the first code point, the number of glyphs, the cell width and the cell
//! height — then one coverage byte (0..=255) per pixel of each glyph, glyph
//! after glyph, row by row.
use vstd::prelude::*;
use crate::bitmap::{le_u32, read_u32};

verus! {

pub const HEADER_LEN: usize = 20;

pub open spec fn signature() -> Seq<u8> {
    seq![0x43u8, 0x46u8, 0x41u8, 0x31u8]
}

/// The atlas starts with the `CFA1` signature and holds a whole header.
pub open spec fn has_header(atlas: Seq<u8>) -> bool {
    atlas.len() >= HEADER_LEN && atlas.take(4) == signature()
}

pub struct Font {
    first_codepoint: u32,
    glyph_count: u32,
    pub cell_w: usize,
    pub cell_h: usize,
    glyphs: Vec<u8>,
}

impl Font {
    pub closed spec fn first(&self) -> u32 {
        self.first_codepoint
    }

    pub closed spec fn count(&self) -> u32 {
        self.glyph_count
    }

    pub closed spec fn cell_width(&self) -> usize {
        self.cell_w
    }

    pub closed spec fn cell_height(&self) -> usize {
        self.cell_h
    }

    pub closed spec fn glyph_data(&self) -> Seq<u8> {
        self.glyphs@
    }

    /// Every glyph the atlas claims is there, and code points stay in range.
    pub open spec fn wf(&self) -> bool {
        &&& self.first() + self.count() <= u32::MAX
        &&& self.cell_width() * self.cell_height() <= usize::MAX
        &&& self.count() * (self.cell_width() * self.cell_height()) <= self.glyph_data().len()
    }

    /// The coverage bitmap of `ch` (cell_w * cell_h bytes, row by row), if
    /// the atlas has it.
    pub open spec fn glyph_spec(&self, ch: char) -> Option<Seq<u8>> {
        let cp = ch as u32;
        if cp < self.first() || cp >= self.first() + self.count() {
            None
        } else {
            let cell = self.cell_width() * self.cell_height();
            let start = (cp - self.first()) * cell;
            Some(self.glyph_data().subrange(start, start + cell))
        }
    }

    /// Whether the atlas holds every glyph it claims (`wf`).
    pub fn is_well_formed(&self) -> (b: bool)
        ensures
            b == self.wf(),
    {
        assert(self.cell_w as u128 * self.cell_h as u128 <= 0xffff_ffff_ffff_ffff_ffff_ffff_ffff_ffffu128) by (nonlinear_arith)
            requires self.cell_w <= usize::MAX, self.cell_h <= usize::MAX, usize::MAX <= 0xffff_ffff_ffff_ffffu64;
        let cells = self.cell_w as u128 * self.cell_h as u128;
        if cells > usize::MAX as u128 {
            return false;
        }
        assert(self.glyph_count as u128 * cells <= 0xffff_ffff_ffff_ffff_ffff_ffff_ffff_ffffu128) by (nonlinear_arith)
            requires cells <= 0xffff_ffff_ffff_ffffu128, self.glyph_count <= u32::MAX;
        self.first_codepoint as u64 + self.glyph_count as u64 <= u32::MAX as u64
            && self.glyph_count as u128 * cells <= self.glyphs.len() as u128
    }

    pub fn cell_w(&self) -> (w: usize)
        ensures
            w == self.cell_width(),
    {
        self.cell_w
    }

    pub fn cell_h(&self) -> (h: usize)
        ensures
            h == self.cell_height(),
    {
        self.cell_h
    }

    pub fn first_codepoint(&self) -> (c: u32)
        ensures
            c == self.first(),
    {
        self.first_codepoint
    }

    pub fn glyph_count(&self) -> (c: u32)
        ensures
            c == self.count(),
    {
        self.glyph_count
    }

    /// The coverage bitmap of `ch`, or `None` if the atlas does not have it
    /// (it holds ASCII 0x20..=0x7E).
    pub fn glyph(&self, ch: char) -> (g: Option<&[u8]>)
        requires
            self.wf(),
        ensures
            match self.glyph_spec(ch) {
                Some(s) => g is Some && g->0@ == s,
                None => g is None,
            },
            g is Some ==> g->0@.len() == self.cell_width() * self.cell_height(),
    {
        let codepoint = ch as u32;
        if codepoint < self.first_codepoint || codepoint >= self.first_codepoint + self.glyph_count {
            return None;
        }
        let index = (codepoint - self.first_codepoint) as usize;
        let cell_size = self.cell_w * self.cell_h;
        assert(index * cell_size + cell_size <= self.glyph_count * cell_size) by (nonlinear_arith)
            requires index < self.glyph_count, cell_size >= 0;
        let n = self.glyphs.len();
        assert(index * cell_size <= index * cell_size + cell_size);
        let start = index * cell_size;
        Some(&self.glyphs.as_slice()[start..start + cell_size])
    }
}

/// Reads the atlas: its header, and the glyph data after it.
pub fn font(atlas: &[u8]) -> (f: Font)
    requires
        has_header(atlas@),
    ensures
        f.first() == le_u32(atlas@, 4),
        f.count() == le_u32(atlas@, 8),
        f.cell_width() == le_u32(atlas@, 12),
        f.cell_height() == le_u32(atlas@, 16),
        f.glyph_data() == atlas@.skip(HEADER_LEN as int),
{
    let first_codepoint = read_u32(atlas, 4);
    let glyph_count = read_u32(atlas, 8);
    let cell_w = read_u32(atlas, 12) as usize;
    let cell_h = read_u32(atlas, 16) as usize;
    Font {
        first_codepoint,
        glyph_count,
        cell_w,
        cell_h,
        glyphs: vstd::slice::slice_to_vec(&atlas[HEADER_LEN..atlas.len()]),
    }
}

/// Whether `atlas` starts with a whole header and the `CFA1` signature,
/// which `font` asks of it.
pub fn has_signature(atlas: &[u8]) -> (b: bool)
    ensures
        b == has_header(atlas@),
{
    if atlas.len() < HEADER_LEN {
        return false;
    }
    let ok = atlas[0] == 0x43 && atlas[1] == 0x46 && atlas[2] == 0x41 && atlas[3] == 0x31;
    proof {
        if ok {
            assert(atlas@.take(4) =~= signature());
        } else {
            assert(atlas@.take(4)[0] == atlas@[0] && atlas@.take(4)[1] == atlas@[1]);
            assert(atlas@.take(4)[2] == atlas@[2] && atlas@.take(4)[3] == atlas@[3]);
        }
    }
    ok
}

} // verus!
