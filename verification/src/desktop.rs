//! The decisions of the desktop's main loop: which mode the desktop is in
//! (shell, file manager, theme menu, theme editor, editor) and what each key
//! press does to it. The caller reads the keys, runs the editor, and draws.
use vstd::prelude::*;
use crate::css::{alpha_agrees, parse, parse_spec, Text};
use crate::fs::{components, find_tree, list, listed_names, message, resolve, resolve_spec, str_views, tree_of, Node, Tree};
use crate::shell::{execute, execute_spec};
use crate::strings::{append_chars, chars_of, is_text, push_char, starts_with_text, string_of, text_order, trim, trimmed};
use crate::theme::{autumn_theme_spec, default_theme_spec, snow_theme_spec, autumn_theme, default_theme, snow_theme, Theme};

verus! {

/// A decoded key press as the desktop sees it.
#[derive(Clone, Copy, Debug, PartialEq, Eq, Structural)]
pub enum Key {
    Unicode(char),
    Backspace,
    ArrowLeft,
    ArrowRight,
    ArrowUp,
    ArrowDown,
    Home,
    End,
    PageUp,
    PageDown,
    Delete,
    Escape,
    /// Any other key without a character.
    Other,
}

pub open spec fn is_backspace(k: Key) -> bool {
    k == Key::Unicode('\u{8}') || k == Key::Backspace
}

pub open spec fn is_enter(k: Key) -> bool {
    k == Key::Unicode('\n') || k == Key::Unicode('\r')
}

/// A printable ASCII character, the only ones that go into typed text.
pub open spec fn printable(k: Key) -> bool {
    k matches Key::Unicode(c) && 0x20 <= c as u32 && (c as u32) < 0x7F
}

pub enum Mode {
    Shell,
    /// The interactive file manager over the directory `path`.
    FileManager { path: String, entries: Vec<String>, selected: usize },
    /// The theme menu.
    CssMenu { selected: usize },
    /// The theme editor with the text typed so far.
    CssEditor { buffer: String },
    /// The text editor, which the caller runs.
    Nano,
}

pub enum ModeView {
    Shell,
    FileManager(Seq<char>, Seq<Seq<char>>, int),
    CssMenu(int),
    CssEditor(Seq<char>),
    Nano,
}

pub open spec fn mode_view(m: Mode) -> ModeView {
    match m {
        Mode::Shell => ModeView::Shell,
        Mode::FileManager { path, entries, selected } => ModeView::FileManager(
            path@,
            str_views(entries@),
            selected as int,
        ),
        Mode::CssMenu { selected } => ModeView::CssMenu(selected as int),
        Mode::CssEditor { buffer } => ModeView::CssEditor(buffer@),
        Mode::Nano => ModeView::Nano,
    }
}

/// What the caller has to do after a key press.
pub enum Request {
    Nothing,
    /// Open the editor on this absolute path, or on a new buffer.
    OpenNano(Option<String>),
    /// The key belongs to the editor.
    EditorKey,
}

pub enum RequestView {
    Nothing,
    OpenNano(Option<Seq<char>>),
    EditorKey,
}

pub open spec fn request_view(r: Request) -> RequestView {
    match r {
        Request::Nothing => RequestView::Nothing,
        Request::OpenNano(p) => RequestView::OpenNano(
            match p {
                Some(s) => Some(s@),
                None => None,
            },
        ),
        Request::EditorKey => RequestView::EditorKey,
    }
}

/// The longest command line the shell takes.
pub const LINE_CAPACITY: usize = 63;

/// The most history lines kept; older ones are dropped.
pub const MAX_HISTORY: usize = 200;

/// Everything the main loop keeps between key presses.
pub struct Session {
    pub mode: Mode,
    /// The command line being typed, and the cursor in it.
    pub line: Vec<char>,
    pub cursor: usize,
    pub history: Vec<String>,
    pub cwd: String,
    pub theme: Theme,
    pub root: Node,
}

pub struct SessionView {
    pub mode: ModeView,
    pub line: Seq<char>,
    pub cursor: int,
    pub history: Seq<Seq<char>>,
    pub cwd: Seq<char>,
    pub theme: Theme,
    pub tree: Tree,
}

impl Session {
    pub open spec fn view(&self) -> SessionView {
        SessionView {
            mode: mode_view(self.mode),
            line: self.line@,
            cursor: self.cursor as int,
            history: str_views(self.history@),
            cwd: self.cwd@,
            theme: self.theme,
            tree: tree_of(self.root),
        }
    }

    /// The command line fits its capacity and the cursor is within it.
    pub open spec fn wf(&self) -> bool {
        &&& self.line@.len() <= LINE_CAPACITY
        &&& self.cursor <= self.line@.len()
    }
}

/// The entries of the directory at `path` as `list` gives them, or none.
pub open spec fn list_or_empty(t: Tree, path: Seq<char>) -> Seq<Seq<char>> {
    match find_tree(t, components(path)) {
        Some(Tree::Dir(ch)) => listed_names(ch).sort_by(text_order()),
        _ => seq![],
    }
}

pub open spec fn with_mode(s: SessionView, m: ModeView) -> SessionView {
    SessionView { mode: m, ..s }
}

pub open spec fn say(s: SessionView, line: Seq<char>) -> SessionView {
    SessionView { history: s.history.push(line), ..s }
}

/// Enter in the shell: `file-sys`, `css` and `nano` switch modes; any other
/// line is echoed after the working directory and run, and the history is
/// cut to its last 200 lines. The command line is cleared.
pub open spec fn shell_enter(s: SessionView) -> (SessionView, RequestView) {
    let t = trim(s.line);
    let cleared = SessionView { line: seq![], cursor: 0, ..s };
    if t == "file-sys"@ {
        let path = resolve_spec(s.cwd, "."@);
        (with_mode(cleared, ModeView::FileManager(path, list_or_empty(s.tree, path), 0)), RequestView::Nothing)
    } else if t == "css"@ {
        (with_mode(cleared, ModeView::CssMenu(0)), RequestView::Nothing)
    } else if t == "nano"@ || ("nano "@.len() <= t.len() && t.take("nano "@.len() as int) == "nano "@) {
        let arg = trim(t.skip("nano"@.len() as int));
        let path = if arg.len() == 0 { None } else { Some(resolve_spec(s.cwd, arg)) };
        (with_mode(cleared, ModeView::Nano), RequestView::OpenNano(path))
    } else {
        let h1 = s.history.push(s.cwd + " > "@ + s.line);
        let (t2, c2, h2) = execute_spec(s.tree, s.line, s.cwd, h1);
        let h3 = if h2.len() > MAX_HISTORY { h2.skip(h2.len() - MAX_HISTORY) } else { h2 };
        (SessionView { tree: t2, cwd: c2, history: h3, ..cleared }, RequestView::Nothing)
    }
}

/// A key in the shell: line editing, or Enter.
pub open spec fn shell_key(s: SessionView, k: Key) -> (SessionView, RequestView) {
    if is_backspace(k) {
        if s.cursor > 0 {
            (SessionView { line: s.line.remove(s.cursor - 1), cursor: s.cursor - 1, ..s }, RequestView::Nothing)
        } else {
            (s, RequestView::Nothing)
        }
    } else if is_enter(k) {
        shell_enter(s)
    } else if k == Key::ArrowLeft {
        (SessionView { cursor: if s.cursor > 0 { s.cursor - 1 } else { 0 }, ..s }, RequestView::Nothing)
    } else if k == Key::ArrowRight {
        (SessionView { cursor: if s.cursor < s.line.len() { s.cursor + 1 } else { s.cursor }, ..s }, RequestView::Nothing)
    } else if printable(k) {
        if s.line.len() < LINE_CAPACITY {
            (SessionView { line: s.line.insert(s.cursor, k->Unicode_0), cursor: s.cursor + 1, ..s }, RequestView::Nothing)
        } else {
            (s, RequestView::Nothing)
        }
    } else {
        (s, RequestView::Nothing)
    }
}

/// A key in the file manager: arrows move the selection, Enter opens the
/// selected directory, Backspace or Left goes up, Escape or `q` closes it
/// and makes its directory the working directory.
pub open spec fn file_manager_key(
    s: SessionView,
    path: Seq<char>,
    entries: Seq<Seq<char>>,
    sel: int,
    k: Key,
) -> SessionView {
    if k == Key::ArrowUp {
        with_mode(s, ModeView::FileManager(path, entries, if sel > 0 { sel - 1 } else { 0 }))
    } else if k == Key::ArrowDown {
        if entries.len() > 0 {
            let next = if sel + 1 < entries.len() - 1 { sel + 1 } else { entries.len() - 1 };
            with_mode(s, ModeView::FileManager(path, entries, next))
        } else {
            s
        }
    } else if is_enter(k) {
        if 0 <= sel < entries.len() && entries[sel].len() > 0 && entries[sel].last() == '/' {
            let p2 = resolve_spec(path, entries[sel].drop_last());
            with_mode(s, ModeView::FileManager(p2, list_or_empty(s.tree, p2), 0))
        } else {
            s
        }
    } else if is_backspace(k) || k == Key::ArrowLeft {
        let p2 = resolve_spec(path, ".."@);
        with_mode(s, ModeView::FileManager(p2, list_or_empty(s.tree, p2), 0))
    } else if k == Key::Escape || k == Key::Unicode('q') {
        with_mode(say(SessionView { cwd: path, ..s }, "file-sys: closed"@), ModeView::Shell)
    } else {
        s
    }
}

/// A key in the theme menu; picking a built-in theme switches to it.
pub open spec fn css_menu_key(s: SessionView, sel: int, k: Key) -> (SessionView, bool) {
    if k == Key::ArrowUp {
        (with_mode(s, ModeView::CssMenu(if sel > 0 { sel - 1 } else { 0 })), false)
    } else if k == Key::ArrowDown {
        (with_mode(s, ModeView::CssMenu(if sel + 1 < 3 { sel + 1 } else { 3 })), false)
    } else if is_enter(k) {
        if sel == 0 {
            (with_mode(s, ModeView::CssEditor(seq![])), false)
        } else if sel == 1 {
            (with_mode(say(SessionView { theme: default_theme_spec(), ..s }, "theme: default"@), ModeView::Shell), true)
        } else if sel == 2 {
            (with_mode(say(SessionView { theme: autumn_theme_spec(), ..s }, "theme: autumn"@), ModeView::Shell), true)
        } else if sel == 3 {
            (with_mode(say(SessionView { theme: snow_theme_spec(), ..s }, "theme: snow"@), ModeView::Shell), true)
        } else {
            (s, false)
        }
    } else if k == Key::Escape || k == Key::Unicode('q') {
        (with_mode(s, ModeView::Shell), false)
    } else {
        (s, false)
    }
}

/// A key in the theme editor; Escape applies the text (or cancels on an
/// empty one) and goes back to the shell.
pub open spec fn css_editor_key(s: SessionView, buf: Seq<char>, k: Key, af: spec_fn(Text) -> Option<u8>) -> (
    SessionView,
    bool,
) {
    if is_backspace(k) {
        (with_mode(s, ModeView::CssEditor(if buf.len() > 0 { buf.drop_last() } else { buf })), false)
    } else if is_enter(k) {
        (with_mode(s, ModeView::CssEditor(buf.push('\n'))), false)
    } else if k == Key::Escape {
        if trim(buf).len() == 0 {
            (with_mode(say(s, "css: cancelled"@), ModeView::Shell), false)
        } else {
            (with_mode(say(SessionView { theme: parse_spec(buf, s.theme, af), ..s }, "css: custom theme applied"@),
                ModeView::Shell), true)
        }
    } else if printable(k) {
        (with_mode(s, ModeView::CssEditor(buf.push(k->Unicode_0))), false)
    } else {
        (s, false)
    }
}

/// One key press: the new state, what the caller must do, and whether the
/// theme changed (which calls for a full repaint).
pub open spec fn key_spec(s: SessionView, k: Key, af: spec_fn(Text) -> Option<u8>) -> (SessionView, RequestView, bool) {
    match s.mode {
        ModeView::Shell => {
            let (s2, r) = shell_key(s, k);
            (s2, r, false)
        },
        ModeView::FileManager(path, entries, sel) => (file_manager_key(s, path, entries, sel, k), RequestView::Nothing, false),
        ModeView::CssMenu(sel) => {
            let (s2, c) = css_menu_key(s, sel, k);
            (s2, RequestView::Nothing, c)
        },
        ModeView::CssEditor(buf) => {
            let (s2, c) = css_editor_key(s, buf, k, af);
            (s2, RequestView::Nothing, c)
        },
        ModeView::Nano => (s, RequestView::EditorKey, false),
    }
}

} // verus!

verus! {

/// The entries of a directory, or none if `path` is not one.
fn list_or_none(root: &Node, path: &String) -> (r: Vec<String>)
    ensures
        str_views(r@) == list_or_empty(tree_of(*root), path@),
{
    match list(root, path.as_str()) {
        Ok(v) => v,
        Err(_) => {
            let v: Vec<String> = Vec::new();
            assert(str_views(v@) =~= seq![]);
            v
        },
    }
}

fn is_backspace_key(k: Key) -> (b: bool)
    ensures
        b == is_backspace(k),
{
    match k {
        Key::Backspace => true,
        Key::Unicode(c) => c == '\u{8}',
        _ => false,
    }
}

fn is_enter_key(k: Key) -> (b: bool)
    ensures
        b == is_enter(k),
{
    match k {
        Key::Unicode(c) => c == '\n' || c == '\r',
        _ => false,
    }
}

fn printable_char(k: Key) -> (r: Option<char>)
    ensures
        printable(k) ==> r == Some(k->Unicode_0),
        !printable(k) ==> r is None,
{
    match k {
        Key::Unicode(c) => if 0x20 <= c as u32 && (c as u32) < 0x7F {
            Some(c)
        } else {
            None
        },
        _ => None,
    }
}

fn push_history(history: &mut Vec<String>, line: String)
    ensures
        str_views(final(history)@) == str_views(old(history)@).push(line@),
{
    history.push(line);
    assert(str_views(history@) =~= str_views(old(history)@).push(line@));
}

impl Session {
    /// The desktop at boot: the shell in `/` with a greeting, on `root`
    /// with `theme`.
    pub fn new(root: Node, theme: Theme) -> (s: Session)
        ensures
            s.wf(),
            s.view() == (SessionView {
                mode: ModeView::Shell,
                line: seq![],
                cursor: 0,
                history: seq!["CIOS - type 'help' for a list of commands"@],
                cwd: "/"@,
                theme,
                tree: tree_of(root),
            }),
    {
        let mut history: Vec<String> = Vec::new();
        push_history(&mut history, message("CIOS - type 'help' for a list of commands"));
        let s = Session {
            mode: Mode::Shell,
            line: Vec::new(),
            cursor: 0,
            history,
            cwd: message("/"),
            theme,
            root,
        };
        assert(s.view().history =~= seq!["CIOS - type 'help' for a list of commands"@]);
        s
    }

    /// The command line as a string.
    pub fn line_text(&self) -> (s: String)
        ensures
            s@ == self.line@,
    {
        string_of(self.line.as_slice())
    }

    fn shell_enter_exec(&mut self) -> (r: Request)
        requires
            old(self).wf(),
            old(self).mode is Shell,
        ensures
            final(self).wf(),
            (final(self).view(), request_view(r)) == shell_enter(old(self).view()),
    {
        let t = trimmed(self.line.as_slice());
        let line = string_of(self.line.as_slice());
        if is_text(t.as_slice(), "file-sys") {
            let path = resolve(self.cwd.as_str(), ".");
            let entries = list_or_none(&self.root, &path);
            self.mode = Mode::FileManager { path, entries, selected: 0 };
            self.line = Vec::new();
            self.cursor = 0;
            return Request::Nothing;
        } else if is_text(t.as_slice(), "css") {
            self.mode = Mode::CssMenu { selected: 0 };
            self.line = Vec::new();
            self.cursor = 0;
            return Request::Nothing;
        } else if is_text(t.as_slice(), "nano") || starts_with_text(t.as_slice(), "nano ") {
            proof {
                reveal_strlit("nano");
                reveal_strlit("nano ");
            }
            let nano_len = chars_of("nano").len();
            let n = t.len();
            let rest = crate::strings::copy_range(t.as_slice(), nano_len, n);
            assert(rest@ =~= t@.skip("nano"@.len() as int));
            let arg = trimmed(rest.as_slice());
            let path = if arg.len() == 0 {
                None
            } else {
                let a = string_of(arg.as_slice());
                Some(resolve(self.cwd.as_str(), a.as_str()))
            };
            self.mode = Mode::Nano;
            self.line = Vec::new();
            self.cursor = 0;
            return Request::OpenNano(path);
        }
        let mut echo = chars_of(self.cwd.as_str());
        let sep = chars_of(" > ");
        append_chars(&mut echo, sep.as_slice());
        append_chars(&mut echo, self.line.as_slice());
        push_history(&mut self.history, string_of(echo.as_slice()));
        execute(&mut self.root, line.as_str(), &mut self.cwd, &mut self.history);
        let n = self.history.len();
        if n > MAX_HISTORY {
            let excess = n - MAX_HISTORY;
            let ghost h2 = self.history@;
            let kept = self.history.split_off(excess);
            self.history = kept;
            assert(str_views(self.history@) =~= str_views(h2).skip(excess as int));
        }
        self.line = Vec::new();
        self.cursor = 0;
        Request::Nothing
    }

    fn shell_key_exec(&mut self, key: Key) -> (r: Request)
        requires
            old(self).wf(),
            old(self).mode is Shell,
        ensures
            final(self).wf(),
            (final(self).view(), request_view(r)) == shell_key(old(self).view(), key),
    {
        if is_backspace_key(key) {
            if self.cursor > 0 {
                self.line.remove(self.cursor - 1);
                self.cursor = self.cursor - 1;
            }
            Request::Nothing
        } else if is_enter_key(key) {
            self.shell_enter_exec()
        } else if key == Key::ArrowLeft {
            if self.cursor > 0 {
                self.cursor = self.cursor - 1;
            }
            Request::Nothing
        } else if key == Key::ArrowRight {
            if self.cursor < self.line.len() {
                self.cursor = self.cursor + 1;
            }
            Request::Nothing
        } else {
            match printable_char(key) {
                Some(c) => {
                    if self.line.len() < LINE_CAPACITY {
                        self.line.insert(self.cursor, c);
                        self.cursor = self.cursor + 1;
                    }
                },
                None => {},
            }
            Request::Nothing
        }
    }

    fn file_manager_key_exec(&mut self, path: String, entries: Vec<String>, selected: usize, key: Key)
        requires
            old(self).wf(),
            old(self).mode is Nano,
        ensures
            final(self).wf(),
            final(self).view() == file_manager_key(
                SessionView { mode: ModeView::FileManager(path@, str_views(entries@), selected as int), ..old(self).view() },
                path@,
                str_views(entries@),
                selected as int,
                key,
            ),
    {
        let n = entries.len();
        assert(str_views(entries@).len() == n);
        if key == Key::ArrowUp {
            let sel = if selected > 0 { selected - 1 } else { 0 };
            self.mode = Mode::FileManager { path, entries, selected: sel };
        } else if key == Key::ArrowDown {
            let sel = if n > 0 {
                if selected < n - 1 { selected + 1 } else { n - 1 }
            } else {
                selected
            };
            self.mode = Mode::FileManager { path, entries, selected: sel };
        } else if is_enter_key(key) {
            let mut opened = false;
            if selected < n {
                let name = chars_of(entries[selected].as_str());
                assert(str_views(entries@)[selected as int] == name@);
                let m = name.len();
                if m > 0 && name[m - 1] == '/' {
                    let dir = crate::strings::copy_range(name.as_slice(), 0, m - 1);
                    assert(dir@ =~= name@.drop_last());
                    let ds = string_of(dir.as_slice());
                    let p2 = resolve(path.as_str(), ds.as_str());
                    let e2 = list_or_none(&self.root, &p2);
                    self.mode = Mode::FileManager { path: p2, entries: e2, selected: 0 };
                    opened = true;
                }
            }
            if !opened {
                self.mode = Mode::FileManager { path, entries, selected };
            }
        } else if is_backspace_key(key) || key == Key::ArrowLeft {
            let p2 = resolve(path.as_str(), "..");
            let e2 = list_or_none(&self.root, &p2);
            self.mode = Mode::FileManager { path: p2, entries: e2, selected: 0 };
        } else if key == Key::Escape || key == Key::Unicode('q') {
            self.cwd = path;
            push_history(&mut self.history, message("file-sys: closed"));
            self.mode = Mode::Shell;
        } else {
            self.mode = Mode::FileManager { path, entries, selected };
        }
    }

    fn css_menu_key_exec(&mut self, selected: usize, key: Key) -> (changed: bool)
        requires
            old(self).wf(),
            old(self).mode is Nano,
        ensures
            final(self).wf(),
            (final(self).view(), changed) == css_menu_key(
                SessionView { mode: ModeView::CssMenu(selected as int), ..old(self).view() },
                selected as int,
                key,
            ),
    {
        if key == Key::ArrowUp {
            self.mode = Mode::CssMenu { selected: if selected > 0 { selected - 1 } else { 0 } };
            false
        } else if key == Key::ArrowDown {
            self.mode = Mode::CssMenu { selected: if selected < 2 { selected + 1 } else { 3 } };
            false
        } else if is_enter_key(key) {
            if selected == 0 {
                self.mode = Mode::CssEditor { buffer: String::new() };
                false
            } else if selected == 1 {
                self.theme = default_theme();
                push_history(&mut self.history, message("theme: default"));
                self.mode = Mode::Shell;
                true
            } else if selected == 2 {
                self.theme = autumn_theme();
                push_history(&mut self.history, message("theme: autumn"));
                self.mode = Mode::Shell;
                true
            } else if selected == 3 {
                self.theme = snow_theme();
                push_history(&mut self.history, message("theme: snow"));
                self.mode = Mode::Shell;
                true
            } else {
                self.mode = Mode::CssMenu { selected };
                false
            }
        } else if key == Key::Escape || key == Key::Unicode('q') {
            self.mode = Mode::Shell;
            false
        } else {
            self.mode = Mode::CssMenu { selected };
            false
        }
    }

    fn css_editor_key_exec<F: Fn(&str) -> Option<u8>>(&mut self, buffer: String, key: Key, alpha: &F) -> (changed: bool)
        requires
            old(self).wf(),
            old(self).mode is Nano,
            forall|t: &str| alpha.requires((t,)),
        ensures
            final(self).wf(),
            forall|af: spec_fn(Text) -> Option<u8>| alpha_agrees(*alpha, af) ==> (final(self).view(), changed)
                == css_editor_key(
                    SessionView { mode: ModeView::CssEditor(buffer@), ..old(self).view() },
                    buffer@,
                    key,
                    af,
                ),
    {
        let mut buffer = buffer;
        if is_backspace_key(key) {
            let bv = chars_of(buffer.as_str());
            if bv.len() > 0 {
                let kept = crate::strings::copy_range(bv.as_slice(), 0, bv.len() - 1);
                assert(kept@ =~= buffer@.drop_last());
                buffer = string_of(kept.as_slice());
            }
            self.mode = Mode::CssEditor { buffer };
            false
        } else if is_enter_key(key) {
            push_char(&mut buffer, '\n');
            self.mode = Mode::CssEditor { buffer };
            false
        } else if key == Key::Escape {
            let bv = chars_of(buffer.as_str());
            let t = trimmed(bv.as_slice());
            if t.len() == 0 {
                push_history(&mut self.history, message("css: cancelled"));
                self.mode = Mode::Shell;
                false
            } else {
                self.theme = parse(buffer.as_str(), self.theme, alpha);
                push_history(&mut self.history, message("css: custom theme applied"));
                self.mode = Mode::Shell;
                true
            }
        } else {
            match printable_char(key) {
                Some(c) => {
                    push_char(&mut buffer, c);
                },
                None => {},
            }
            self.mode = Mode::CssEditor { buffer };
            false
        }
    }

    /// Handles one key press. Returns what the caller must do and whether
    /// the theme changed. `alpha` reads the alpha of `rgba(..)` colours, as
    /// for `css::parse`.
    pub fn handle_key<F: Fn(&str) -> Option<u8>>(&mut self, key: Key, alpha: &F) -> (r: (Request, bool))
        requires
            old(self).wf(),
            forall|t: &str| alpha.requires((t,)),
        ensures
            final(self).wf(),
            forall|af: spec_fn(Text) -> Option<u8>| alpha_agrees(*alpha, af) ==> (final(self).view(), request_view(r.0), r.1)
                == key_spec(old(self).view(), key, af),
    {
        let mut mode = Mode::Nano;
        std::mem::swap(&mut mode, &mut self.mode);
        match mode {
            Mode::Shell => {
                self.mode = Mode::Shell;
                let r = self.shell_key_exec(key);
                (r, false)
            },
            Mode::FileManager { path, entries, selected } => {
                self.file_manager_key_exec(path, entries, selected, key);
                (Request::Nothing, false)
            },
            Mode::CssMenu { selected } => {
                let c = self.css_menu_key_exec(selected, key);
                (Request::Nothing, c)
            },
            Mode::CssEditor { buffer } => {
                let c = self.css_editor_key_exec(buffer, key, alpha);
                (Request::Nothing, c)
            },
            Mode::Nano => {
                self.mode = Mode::Nano;
                (Request::EditorKey, false)
            },
        }
    }

    /// The editor closed with `message`: it goes to the history and the
    /// shell is back.
    pub fn close_editor(&mut self, message: String)
        requires
            old(self).wf(),
        ensures
            final(self).wf(),
            final(self).view() == with_mode(say(old(self).view(), message@), ModeView::Shell),
    {
        push_history(&mut self.history, message);
        self.mode = Mode::Shell;
    }
}


/// Enter on a directory entry `name/` in the file manager opens that child
/// of the directory being shown: the new path is the shown path resolved
/// with `name`, which for a plain name is that path with `/name` added; the
/// entries are that directory's listing and the first one is selected. The
/// shell's working directory plays no part and, like the tree and the
/// history, is left as it was.
pub proof fn law_file_manager_enter_opens_child(
    s: SessionView,
    path: Seq<char>,
    entries: Seq<Seq<char>>,
    sel: int,
    k: Key,
    other_cwd: Seq<char>,
    af: spec_fn(Text) -> Option<u8>,
)
    requires
        s.mode == ModeView::FileManager(path, entries, sel),
        is_enter(k),
        0 <= sel < entries.len(),
        entries[sel].len() > 0,
        entries[sel].last() == '/',
    ensures
        ({
            let name = entries[sel].drop_last();
            let p2 = resolve_spec(path, name);
            let s2 = key_spec(s, k, af).0;
            &&& s2.mode == ModeView::FileManager(p2, list_or_empty(s.tree, p2), 0)
            &&& s2.cwd == s.cwd
            &&& s2.tree == s.tree
            &&& s2.history == s.history
            &&& key_spec(SessionView { cwd: other_cwd, ..s }, k, af).0.mode == s2.mode
            &&& crate::fs::normal_name(name) && components(path).len() > 0 ==> p2 == resolve_spec(path, "."@) + seq![
                '/',
            ] + name
            &&& crate::fs::normal_name(name) && components(path).len() == 0 ==> p2 == seq!['/'] + name
        }),
{
    let name = entries[sel].drop_last();
    if crate::fs::normal_name(name) {
        crate::fs::law_resolve_child(path, name);
    }
}

/// Backspace or Left in the file manager shows the parent of the directory
/// being shown (the root stays the root), with its listing and the first
/// entry selected; Escape or `q` closes the file manager, making the shown
/// directory the working directory and saying so in the history.
pub proof fn law_file_manager_up_and_close(
    s: SessionView,
    path: Seq<char>,
    entries: Seq<Seq<char>>,
    sel: int,
    k: Key,
    af: spec_fn(Text) -> Option<u8>,
)
    requires
        s.mode == ModeView::FileManager(path, entries, sel),
    ensures
        (is_backspace(k) || k == Key::ArrowLeft) ==> ({
            let p2 = resolve_spec(path, ".."@);
            let s2 = key_spec(s, k, af).0;
            &&& s2 == (SessionView { mode: ModeView::FileManager(p2, list_or_empty(s.tree, p2), 0), ..s })
            &&& components(path).len() > 0 ==> crate::fs::resolve_stack(path, ".."@) == components(path).drop_last()
            &&& components(path).len() == 0 ==> p2 == seq!['/']
        }),
        (k == Key::Escape || k == Key::Unicode('q')) ==> key_spec(s, k, af).0 == (SessionView {
            mode: ModeView::Shell,
            cwd: path,
            history: s.history.push("file-sys: closed"@),
            ..s
        }),
{
    crate::fs::law_resolve_parent(path);
}

/// `file-sys` entered in the shell opens the file manager on the working
/// directory (its names as the working directory has them), with that
/// directory's listing and the first entry selected; the command line is
/// cleared and nothing else changes.
pub proof fn law_file_sys_opens_cwd(s: SessionView, k: Key, af: spec_fn(Text) -> Option<u8>)
    requires
        s.mode == ModeView::Shell,
        is_enter(k),
        trim(s.line) == "file-sys"@,
    ensures
        ({
            let p = resolve_spec(s.cwd, "."@);
            &&& key_spec(s, k, af).0 == (SessionView {
                mode: ModeView::FileManager(p, list_or_empty(s.tree, p), 0),
                line: seq![],
                cursor: 0,
                ..s
            })
            &&& crate::fs::resolve_stack(s.cwd, "."@) == components(s.cwd)
        }),
{
    crate::fs::law_resolve_dot(s.cwd);
}
} // verus!
