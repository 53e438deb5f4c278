//! What the desktop needs of the `nano` editor besides the editor itself:
//! how a session ends, the shortcut bar, the title line, and C strings.
use vstd::prelude::*;
use crate::desktop::Key;
use crate::fs::{message, str_views};
use crate::shell::{lossy_text, text_from_bytes};

verus! {

/// What a key press did to the editor session.
pub enum Outcome {
    Continue,
    /// The editor closed, with this message for the terminal history.
    Exit(String),
}

pub open spec fn main_shortcuts_spec() -> Seq<(Seq<char>, Seq<char>)> {
    seq![
        ("^G"@, "Get Help"@),
        ("^X"@, "Exit"@),
        ("^O"@, "Write Out"@),
        ("^J"@, "Justify"@),
        ("^R"@, "Read File"@),
        ("^W"@, "Where Is"@),
        ("^\\"@, "Replace"@),
        ("^_"@, "Go To Line"@),
        ("^K"@, "Cut Text"@),
        ("^U"@, "Paste Text"@),
        ("^C"@, "Cur Pos"@),
        ("^^"@, "Mark Text"@),
    ]
}

/// The shortcut bar at the bottom of the editor, as (key, description).
pub fn main_shortcuts() -> (r: Vec<(&'static str, &'static str)>)
    ensures
        r@.map_values(|p: (&str, &str)| (p.0@, p.1@)) == main_shortcuts_spec(),
{
    let r = vec![
        ("^G", "Get Help"),
        ("^X", "Exit"),
        ("^O", "Write Out"),
        ("^J", "Justify"),
        ("^R", "Read File"),
        ("^W", "Where Is"),
        ("^\\", "Replace"),
        ("^_", "Go To Line"),
        ("^K", "Cut Text"),
        ("^U", "Paste Text"),
        ("^C", "Cur Pos"),
        ("^^", "Mark Text"),
    ];
    assert(r@.map_values(|p: (&str, &str)| (p.0@, p.1@)) =~= main_shortcuts_spec());
    r
}

/// The three parts of the editor's title: `File:` and the file name, or
/// nothing and `New Buffer`; then `Modified` if the buffer changed.
pub fn title_parts(filename: Option<&str>, modified: bool) -> (r: (&'static str, String, &'static str))
    ensures
        r.0@ == (if filename is Some { "File:"@ } else { ""@ }),
        r.1@ == (match filename {
            Some(f) => f@,
            None => "New Buffer"@,
        }),
        r.2@ == (if modified { "Modified"@ } else { ""@ }),
{
    let prefix = if filename.is_some() { "File:" } else { "" };
    let path = match filename {
        Some(f) => message(f),
        None => message("New Buffer"),
    };
    let state = if modified { "Modified" } else { "" };
    (prefix, path, state)
}

/// What the editor shows, read from it before a repaint: the title
/// data, the status or prompt line, the help text when help is open, the
/// buffer's lines and the cursor.
pub struct NanoScreen {
    pub filename: Option<String>,
    pub modified: bool,
    pub prompt: String,
    pub prompt_has_cursor: bool,
    pub help_active: bool,
    pub help_lines: Vec<String>,
    pub lines: Vec<String>,
    pub cursor_line: usize,
    pub cursor_col: usize,
}

pub struct NanoScreenView {
    pub filename: Option<Seq<char>>,
    pub modified: bool,
    pub prompt: Seq<char>,
    pub prompt_has_cursor: bool,
    pub help_active: bool,
    pub help: Seq<Seq<char>>,
    pub lines: Seq<Seq<char>>,
    pub cursor_line: int,
    pub cursor_col: int,
}

impl NanoScreen {
    pub open spec fn view(&self) -> NanoScreenView {
        NanoScreenView {
            filename: match self.filename {
                Some(f) => Some(f@),
                None => None,
            },
            modified: self.modified,
            prompt: self.prompt@,
            prompt_has_cursor: self.prompt_has_cursor,
            help_active: self.help_active,
            help: str_views(self.help_lines@),
            lines: str_views(self.lines@),
            cursor_line: self.cursor_line as int,
            cursor_col: self.cursor_col as int,
        }
    }
}

/// The editor's codes for keys without a character, in the order of its
/// C interface.
#[derive(Clone, Copy, Debug, PartialEq, Eq, Structural)]
pub enum NanoRawKey {
    /// No raw key: a character, or a key the editor does not know.
    Unmapped,
    ArrowLeft,
    ArrowRight,
    ArrowUp,
    ArrowDown,
    Home,
    End,
    PageUp,
    PageDown,
    Delete,
    Backspace,
    Escape,
}

/// How a key reaches the editor: (code point, raw key, whether it is raw).
/// A character goes as its code point; every other key as a raw code, with
/// `None` for keys the editor does not know.
pub open spec fn nano_key_spec(k: Key) -> (u32, NanoRawKey, bool) {
    match k {
        Key::Unicode(c) => (c as u32, NanoRawKey::Unmapped, false),
        Key::ArrowLeft => (0, NanoRawKey::ArrowLeft, true),
        Key::ArrowRight => (0, NanoRawKey::ArrowRight, true),
        Key::ArrowUp => (0, NanoRawKey::ArrowUp, true),
        Key::ArrowDown => (0, NanoRawKey::ArrowDown, true),
        Key::Home => (0, NanoRawKey::Home, true),
        Key::End => (0, NanoRawKey::End, true),
        Key::PageUp => (0, NanoRawKey::PageUp, true),
        Key::PageDown => (0, NanoRawKey::PageDown, true),
        Key::Delete => (0, NanoRawKey::Delete, true),
        Key::Backspace => (0, NanoRawKey::Backspace, true),
        Key::Escape => (0, NanoRawKey::Escape, true),
        Key::Other => (0, NanoRawKey::Unmapped, true),
    }
}

/// The form in which the editor takes `key`.
pub fn nano_key_code(key: Key) -> (r: (u32, NanoRawKey, bool))
    ensures
        r == nano_key_spec(key),
{
    match key {
        Key::Unicode(c) => (c as u32, NanoRawKey::Unmapped, false),
        Key::ArrowLeft => (0, NanoRawKey::ArrowLeft, true),
        Key::ArrowRight => (0, NanoRawKey::ArrowRight, true),
        Key::ArrowUp => (0, NanoRawKey::ArrowUp, true),
        Key::ArrowDown => (0, NanoRawKey::ArrowDown, true),
        Key::Home => (0, NanoRawKey::Home, true),
        Key::End => (0, NanoRawKey::End, true),
        Key::PageUp => (0, NanoRawKey::PageUp, true),
        Key::PageDown => (0, NanoRawKey::PageDown, true),
        Key::Delete => (0, NanoRawKey::Delete, true),
        Key::Backspace => (0, NanoRawKey::Backspace, true),
        Key::Escape => (0, NanoRawKey::Escape, true),
        Key::Other => (0, NanoRawKey::Unmapped, true),
    }
}

/// The length of the C string in `bytes`: the bytes before the first NUL,
/// or all of them when there is none.
pub open spec fn c_len(bytes: Seq<u8>) -> nat
    decreases bytes.len(),
{
    if bytes.len() == 0 || bytes[0] == 0 {
        0
    } else {
        1 + c_len(bytes.drop_first())
    }
}

proof fn lemma_c_len(bytes: Seq<u8>, i: int)
    requires
        0 <= i <= bytes.len(),
        forall|j: int| 0 <= j < i ==> bytes[j] != 0,
        i == bytes.len() || bytes[i] == 0,
    ensures
        c_len(bytes) == i,
    decreases i,
{
    if i > 0 {
        lemma_c_len(bytes.drop_first(), i - 1);
    }
}

/// The text of a NUL-terminated C character array, invalid UTF-8 replaced
/// as `String::from_utf8_lossy` does.
pub fn c_array_to_string(buf: &[u8]) -> (s: String)
    ensures
        s@ == lossy_text(buf@.take(c_len(buf@) as int)),
{
    let mut i: usize = 0;
    while i < buf.len() && buf[i] != 0
        invariant
            i <= buf@.len(),
            forall|j: int| 0 <= j < i ==> buf@[j] != 0,
        decreases buf.len() - i,
    {
        i = i + 1;
    }
    proof { lemma_c_len(buf@, i as int); }
    let bytes = vstd::slice::slice_subrange(buf, 0, i);
    assert(bytes@ =~= buf@.take(i as int));
    text_from_bytes(bytes)
}

/// What an editor key press came to, from the editor's report: `Exit` with
/// the text of its NUL-terminated message when `should_exit` is set, else
/// `Continue`.
pub fn editor_outcome(should_exit: i32, message: &[u8]) -> (o: Outcome)
    ensures
        should_exit != 0 ==> (o matches Outcome::Exit(m) && m@ == lossy_text(message@.take(c_len(message@) as int))),
        should_exit == 0 ==> o is Continue,
{
    if should_exit != 0 {
        Outcome::Exit(c_array_to_string(message))
    } else {
        Outcome::Continue
    }
}

/// The UTF-8 bytes of `s` followed by a NUL, as C expects a string.
pub fn nul_terminated(s: &str) -> (v: Vec<u8>)
    ensures
        v@ == vstd::utf8::encode_utf8(s@).push(0u8),
{
    let mut v = vstd::slice::slice_to_vec(s.as_bytes());
    v.push(0);
    v
}

} // verus!
