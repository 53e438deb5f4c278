use cios::desktop::{Key, Mode, Request, Session, LINE_CAPACITY, MAX_HISTORY};
use cios::fs::init;
use cios::theme::{autumn_theme, default_theme, snow_theme, Color};

fn alpha(s: &str) -> Option<u8> {
    s.parse::<f32>().ok().map(|a| (a.clamp(0.0, 1.0) * 255.0) as u8)
}

fn type_text(s: &mut Session, text: &str) {
    for c in text.chars() {
        let (r, changed) = s.handle_key(Key::Unicode(c), &alpha);
        assert!(matches!(r, Request::Nothing));
        assert!(!changed);
    }
}

fn enter(s: &mut Session) -> Request {
    s.handle_key(Key::Unicode('\n'), &alpha).0
}

#[test]
fn boot_session_greets_in_root() {
    let s = Session::new(init(), default_theme());
    assert!(matches!(s.mode, Mode::Shell));
    assert_eq!(s.history, vec![String::from("CIOS - type 'help' for a list of commands")]);
    assert_eq!(s.cwd, "/");
    assert_eq!(s.line_text(), "");
}

#[test]
fn typing_editing_and_cursor_moves() {
    let mut s = Session::new(init(), default_theme());
    type_text(&mut s, "lx");
    s.handle_key(Key::ArrowLeft, &alpha);
    s.handle_key(Key::Unicode('s'), &alpha);
    assert_eq!(s.line_text(), "lsx");
    assert_eq!(s.cursor, 2);
    s.handle_key(Key::ArrowRight, &alpha);
    s.handle_key(Key::Backspace, &alpha);
    assert_eq!(s.line_text(), "ls");
    s.handle_key(Key::Unicode('\u{8}'), &alpha);
    assert_eq!(s.line_text(), "l");
    s.handle_key(Key::Unicode('\u{7}'), &alpha);
    s.handle_key(Key::Unicode('é'), &alpha);
    assert_eq!(s.line_text(), "l");
}

#[test]
fn the_command_line_holds_at_most_its_capacity() {
    let mut s = Session::new(init(), default_theme());
    for _ in 0..LINE_CAPACITY + 5 {
        s.handle_key(Key::Unicode('a'), &alpha);
    }
    assert_eq!(s.line.len(), LINE_CAPACITY);
    assert_eq!(s.cursor, LINE_CAPACITY);
}

#[test]
fn enter_echoes_and_runs_the_line() {
    let mut s = Session::new(init(), default_theme());
    type_text(&mut s, "ls");
    assert!(matches!(enter(&mut s), Request::Nothing));
    assert_eq!(s.history[1..], [String::from("/ > ls"), String::from("home/  readme.txt")]);
    assert_eq!(s.line_text(), "");
    assert_eq!(s.cursor, 0);
    type_text(&mut s, "cd home");
    enter(&mut s);
    assert_eq!(s.cwd, "/home");
    assert_eq!(s.history.last().unwrap(), "/ > cd home");
}

#[test]
fn history_keeps_the_last_lines() {
    let mut s = Session::new(init(), default_theme());
    for _ in 0..150 {
        type_text(&mut s, "pwd");
        enter(&mut s);
    }
    assert_eq!(s.history.len(), MAX_HISTORY);
    assert_eq!(s.history[MAX_HISTORY - 1], "/");
    assert_eq!(s.history[MAX_HISTORY - 2], "/ > pwd");
}

#[test]
fn file_manager_navigation() {
    let mut s = Session::new(init(), default_theme());
    type_text(&mut s, "file-sys");
    enter(&mut s);
    match &s.mode {
        Mode::FileManager { path, entries, selected } => {
            assert_eq!(path, "/");
            assert_eq!(entries, &vec![String::from("home/"), String::from("readme.txt")]);
            assert_eq!(*selected, 0);
        },
        _ => panic!("not in the file manager"),
    }
    s.handle_key(Key::ArrowDown, &alpha);
    s.handle_key(Key::ArrowDown, &alpha);
    match &s.mode {
        Mode::FileManager { selected, .. } => assert_eq!(*selected, 1),
        _ => panic!("not in the file manager"),
    }
    s.handle_key(Key::ArrowUp, &alpha);
    s.handle_key(Key::Unicode('\r'), &alpha);
    match &s.mode {
        Mode::FileManager { path, entries, selected } => {
            assert_eq!(path, "/home");
            assert!(entries.is_empty());
            assert_eq!(*selected, 0);
        },
        _ => panic!("not in the file manager"),
    }
    s.handle_key(Key::Unicode('q'), &alpha);
    assert!(matches!(s.mode, Mode::Shell));
    assert_eq!(s.cwd, "/home");
    assert_eq!(s.history.last().unwrap(), "file-sys: closed");
}

#[test]
fn file_manager_goes_up_and_ignores_files() {
    let mut s = Session::new(init(), default_theme());
    type_text(&mut s, "cd home");
    enter(&mut s);
    type_text(&mut s, "file-sys");
    enter(&mut s);
    s.handle_key(Key::Backspace, &alpha);
    s.handle_key(Key::ArrowDown, &alpha);
    s.handle_key(Key::Unicode('\n'), &alpha);
    match &s.mode {
        Mode::FileManager { path, selected, .. } => {
            assert_eq!(path, "/");
            assert_eq!(*selected, 1);
        },
        _ => panic!("not in the file manager"),
    }
    s.handle_key(Key::Escape, &alpha);
    assert_eq!(s.cwd, "/");
}

#[test]
fn css_menu_switches_themes() {
    let mut s = Session::new(init(), default_theme());
    type_text(&mut s, "css");
    enter(&mut s);
    assert!(matches!(s.mode, Mode::CssMenu { selected: 0 }));
    s.handle_key(Key::ArrowDown, &alpha);
    s.handle_key(Key::ArrowDown, &alpha);
    let (_, changed) = s.handle_key(Key::Unicode('\n'), &alpha);
    assert!(changed);
    assert_eq!(s.theme, autumn_theme());
    assert_eq!(s.history.last().unwrap(), "theme: autumn");
    type_text(&mut s, "css");
    enter(&mut s);
    for _ in 0..10 {
        s.handle_key(Key::ArrowDown, &alpha);
    }
    assert!(matches!(s.mode, Mode::CssMenu { selected: 3 }));
    s.handle_key(Key::Unicode('\r'), &alpha);
    assert_eq!(s.theme, snow_theme());
    type_text(&mut s, "css");
    enter(&mut s);
    s.handle_key(Key::Unicode('q'), &alpha);
    assert!(matches!(s.mode, Mode::Shell));
    assert_eq!(s.theme, snow_theme());
}

#[test]
fn css_editor_applies_or_cancels() {
    let mut s = Session::new(init(), default_theme());
    type_text(&mut s, "css");
    enter(&mut s);
    s.handle_key(Key::Unicode('\n'), &alpha);
    assert!(matches!(&s.mode, Mode::CssEditor { buffer } if buffer.is_empty()));
    s.handle_key(Key::Unicode(' '), &alpha);
    let (_, changed) = s.handle_key(Key::Escape, &alpha);
    assert!(!changed);
    assert_eq!(s.history.last().unwrap(), "css: cancelled");
    assert_eq!(s.theme, default_theme());

    type_text(&mut s, "css");
    enter(&mut s);
    s.handle_key(Key::Unicode('\n'), &alpha);
    type_text(&mut s, "cursor { color: #0000ff; }x");
    s.handle_key(Key::Backspace, &alpha);
    s.handle_key(Key::Unicode('\n'), &alpha);
    assert!(matches!(&s.mode, Mode::CssEditor { buffer } if buffer == "cursor { color: #0000ff; }\n"));
    let (_, changed) = s.handle_key(Key::Escape, &alpha);
    assert!(changed);
    assert_eq!(s.theme.cursor, Color::rgb(0, 0, 255));
    assert_eq!(s.history.last().unwrap(), "css: custom theme applied");
}

#[test]
fn nano_opens_on_a_resolved_path_and_closes_with_a_message() {
    let mut s = Session::new(init(), default_theme());
    type_text(&mut s, "nano  readme.txt ");
    match enter(&mut s) {
        Request::OpenNano(Some(p)) => assert_eq!(p, "/readme.txt"),
        _ => panic!("expected the editor to open"),
    }
    assert!(matches!(s.mode, Mode::Nano));
    assert!(matches!(s.handle_key(Key::Unicode('a'), &alpha).0, Request::EditorKey));
    s.close_editor(String::from("nano: closed"));
    assert!(matches!(s.mode, Mode::Shell));
    assert_eq!(s.history.last().unwrap(), "nano: closed");
    type_text(&mut s, "nano");
    assert!(matches!(enter(&mut s), Request::OpenNano(None)));
}

#[test]
fn nanotext_is_an_ordinary_command() {
    let mut s = Session::new(init(), default_theme());
    type_text(&mut s, "nanotext");
    assert!(matches!(enter(&mut s), Request::Nothing));
    assert_eq!(s.history.last().unwrap(), "nanotext: command not found");
}
