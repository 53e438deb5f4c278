//! Interrupt bookkeeping that does not touch the hardware: the vectors the
//! legacy PICs are remapped to, the Ctrl/Alt state kept from raw scan codes,
//! and the hex digits of a scan code for the serial log.
use vstd::prelude::*;

verus! {

/// IRQ 0..7 land on vectors 32..39, after the CPU exceptions (0..31).
pub const PIC_1_OFFSET: u8 = 32;
/// IRQ 8..15 land on vectors 40..47.
pub const PIC_2_OFFSET: u8 = PIC_1_OFFSET + 8;

#[derive(Clone, Copy, Debug, PartialEq, Eq, Structural)]
pub enum InterruptIndex {
    /// IRQ 0, the timer.
    Timer,
    /// IRQ 1, the keyboard.
    Keyboard,
}

impl InterruptIndex {
    /// The interrupt vector of this IRQ.
    pub fn as_u8(self) -> (v: u8)
        ensures
            v == match self {
                InterruptIndex::Timer => PIC_1_OFFSET,
                InterruptIndex::Keyboard => (PIC_1_OFFSET + 1) as u8,
            },
    {
        match self {
            InterruptIndex::Timer => PIC_1_OFFSET,
            InterruptIndex::Keyboard => PIC_1_OFFSET + 1,
        }
    }
}

/// Whether Ctrl and Alt are held down.
#[derive(Clone, Copy, Debug, PartialEq, Eq, Structural)]
pub struct Modifiers {
    pub ctrl: bool,
    pub alt: bool,
}

/// The modifier state after scan code `sc` of scan code set 1: `0xE0` only
/// announces an extended key; otherwise bit 7 tells a release from a press,
/// and the low 7 bits 0x1D (Ctrl) or 0x38 (Alt) name the key, left or right.
pub open spec fn track_spec(m: Modifiers, sc: u8) -> Modifiers {
    if sc == 0xE0 {
        m
    } else {
        let pressed = sc < 0x80;
        let code = sc % 0x80;
        if code == 0x1D {
            Modifiers { ctrl: pressed, ..m }
        } else if code == 0x38 {
            Modifiers { alt: pressed, ..m }
        } else {
            m
        }
    }
}

/// Follows Ctrl and Alt from the raw scan codes.
pub fn track_modifiers(mods: &mut Modifiers, scancode: u8)
    ensures
        *final(mods) == track_spec(*old(mods), scancode),
{
    if scancode == 0xE0 {
        return;
    }
    let is_break = scancode & 0x80 != 0;
    let code = scancode & 0x7F;
    assert(is_break == (scancode >= 0x80)) by (bit_vector)
        requires is_break == (scancode & 0x80 != 0);
    assert(code == scancode % 0x80) by (bit_vector)
        requires code == scancode & 0x7F;
    if code == 0x1D {
        mods.ctrl = !is_break;
    } else if code == 0x38 {
        mods.alt = !is_break;
    }
}

/// The lowercase hex digit of `n` (0..=15), as an ASCII byte.
pub open spec fn hex_digit_byte(n: int) -> u8 {
    if n < 10 {
        (0x30 + n) as u8
    } else {
        (0x61 + n - 10) as u8
    }
}

/// The two lowercase hex digits of `b`, high nibble first.
pub fn hex_byte(b: u8) -> (r: [u8; 2])
    ensures
        r@ == seq![hex_digit_byte(b as int / 16), hex_digit_byte(b as int % 16)],
{
    let hi = b / 16;
    let lo = b % 16;
    let h = if hi < 10 { 0x30 + hi } else { 0x61 + hi - 10 };
    let l = if lo < 10 { 0x30 + lo } else { 0x61 + lo - 10 };
    let r = [h, l];
    assert(r@ =~= seq![hex_digit_byte(b as int / 16), hex_digit_byte(b as int % 16)]);
    r
}

} // verus!
