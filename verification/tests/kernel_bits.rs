use cios::desktop::Key;
use cios::interrupts::{hex_byte, track_modifiers, InterruptIndex, Modifiers, PIC_1_OFFSET, PIC_2_OFFSET};
use cios::keyboard_queue::{KeyEvent, RingBuffer, CAPACITY};
use cios::nano::{
    c_array_to_string, editor_outcome, main_shortcuts, nano_key_code, nul_terminated, title_parts, NanoRawKey, Outcome,
};
use pc_keyboard::DecodedKey;

fn ev(c: char) -> KeyEvent {
    KeyEvent { key: DecodedKey::Unicode(c), ctrl: false, alt: false }
}

fn ch(e: Option<KeyEvent>) -> Option<char> {
    match e {
        Some(KeyEvent { key: DecodedKey::Unicode(c), .. }) => Some(c),
        _ => None,
    }
}

#[test]
fn queue_is_first_in_first_out() {
    let mut q = RingBuffer::new();
    assert_eq!(q.len(), 0);
    assert!(q.pop().is_none());
    q.push(ev('a'));
    q.push(ev('b'));
    assert_eq!(q.len(), 2);
    assert_eq!(ch(q.pop()), Some('a'));
    q.push(ev('c'));
    assert_eq!(ch(q.pop()), Some('b'));
    assert_eq!(ch(q.pop()), Some('c'));
    assert!(q.pop().is_none());
}

#[test]
fn full_queue_drops_the_oldest_press() {
    let mut q = RingBuffer::new();
    for i in 0..(CAPACITY + 6) {
        q.push(ev(char::from_u32(0x100 + i as u32).unwrap()));
    }
    assert_eq!(q.len(), CAPACITY);
    assert_eq!(ch(q.pop()), char::from_u32(0x100 + 6));
    let mut last = None;
    while let Some(e) = q.pop() {
        last = ch(Some(e));
    }
    assert_eq!(last, char::from_u32(0x100 + CAPACITY as u32 + 5));
}

#[test]
fn interrupt_vectors_follow_the_pic_offsets() {
    assert_eq!(PIC_1_OFFSET, 32);
    assert_eq!(PIC_2_OFFSET, 40);
    assert_eq!(InterruptIndex::Timer.as_u8(), 32);
    assert_eq!(InterruptIndex::Keyboard.as_u8(), 33);
}

#[test]
fn modifiers_follow_press_and_release() {
    let mut m = Modifiers { ctrl: false, alt: false };
    track_modifiers(&mut m, 0x1D);
    assert_eq!(m, Modifiers { ctrl: true, alt: false });
    track_modifiers(&mut m, 0x38);
    assert_eq!(m, Modifiers { ctrl: true, alt: true });
    track_modifiers(&mut m, 0x9D);
    assert_eq!(m, Modifiers { ctrl: false, alt: true });
    track_modifiers(&mut m, 0xE0);
    assert_eq!(m, Modifiers { ctrl: false, alt: true });
    track_modifiers(&mut m, 0xB8);
    track_modifiers(&mut m, 0x1E);
    assert_eq!(m, Modifiers { ctrl: false, alt: false });
}

#[test]
fn hex_byte_is_lowercase_high_nibble_first() {
    assert_eq!(hex_byte(0xAB), [b'a', b'b']);
    assert_eq!(hex_byte(0x09), [b'0', b'9']);
    assert_eq!(hex_byte(0xF0), [b'f', b'0']);
}

#[test]
fn title_parts_for_files_and_new_buffers() {
    assert_eq!(title_parts(Some("/a.txt"), true), ("File:", String::from("/a.txt"), "Modified"));
    assert_eq!(title_parts(None, false), ("", String::from("New Buffer"), ""));
}

#[test]
fn nul_terminated_appends_a_nul() {
    assert_eq!(nul_terminated("h\u{e9}"), vec![b'h', 0xc3, 0xa9, 0]);
    assert_eq!(nul_terminated(""), vec![0]);
}

#[test]
fn keys_reach_the_editor_as_code_points_or_raw_codes() {
    assert_eq!(nano_key_code(Key::Unicode('x')), (0x78, NanoRawKey::Unmapped, false));
    assert_eq!(nano_key_code(Key::Home), (0, NanoRawKey::Home, true));
    assert_eq!(nano_key_code(Key::Delete), (0, NanoRawKey::Delete, true));
    assert_eq!(nano_key_code(Key::Other), (0, NanoRawKey::Unmapped, true));
}

#[test]
fn c_strings_end_at_the_first_nul() {
    assert_eq!(c_array_to_string(b"hi\0junk"), "hi");
    assert_eq!(c_array_to_string(b"ab\xff"), "ab\u{FFFD}");
    assert_eq!(c_array_to_string(b""), "");
}

#[test]
fn shortcut_bar_has_twelve_entries() {
    let s = main_shortcuts();
    assert_eq!(s.len(), 12);
    assert_eq!(s[0], ("^G", "Get Help"));
    assert_eq!(s[11], ("^^", "Mark Text"));
}

#[test]
fn editor_outcome_reads_the_message_up_to_its_nul() {
    assert!(matches!(editor_outcome(1, b"hi\0x"), Outcome::Exit(m) if m == "hi"));
    assert!(matches!(editor_outcome(-3, b"saved"), Outcome::Exit(m) if m == "saved"));
    assert!(matches!(editor_outcome(0, b"hi\0x"), Outcome::Continue));
}
