//! Shell commands over the in-memory file system: each command line appends
//! its output, line by line, to the terminal history.
use vstd::prelude::*;
use crate::fs::{
    components, edit_at, find_tree, is_dir, list, listed_names, make_dir, make_file, message, read,
    remove, resolve, resolve_spec, str_views, tree_of, EditKind, Node, Outcome, Tree,
};
use crate::strings::{
    append_chars, chars_of, is_text, join_chars, join_with, lines, lines_of, string_of, text_order,
    views, words, words_of,
};

verus! {

/// Text of a byte string as `String::from_utf8_lossy` makes it.
pub uninterp spec fn lossy_text(bytes: Seq<u8>) -> Seq<char>;

/// std `String::from_utf8_lossy`: the text that `bytes` encode, with each
/// invalid sequence replaced by U+FFFD; on valid UTF-8 exactly the decoded
/// text.
#[verifier::external_body]
pub(crate) fn text_from_bytes(bytes: &[u8]) -> (s: String)
    ensures
        s@ == lossy_text(bytes@),
        vstd::utf8::valid_utf8(bytes@) ==> s@ == vstd::utf8::decode_utf8(bytes@),
{
    String::from_utf8_lossy(bytes).into_owned()
}

pub open spec fn commands_spec() -> Seq<Seq<char>> {
    seq![
        "ls"@,
        "cat"@,
        "rm"@,
        "mkdir"@,
        "touch"@,
        "cd"@,
        "pwd"@,
        "echo"@,
        "clear"@,
        "help"@,
        "file-sys"@,
    ]
}

/// The commands that `help` lists.
pub fn commands() -> (r: Vec<&'static str>)
    ensures
        r@.map_values(|s: &str| s@) == commands_spec(),
{
    let r = vec!["ls", "cat", "rm", "mkdir", "touch", "cd", "pwd", "echo", "clear", "help", "file-sys"];
    assert(r@.map_values(|s: &str| s@) =~= commands_spec());
    r
}

pub open spec fn help_line() -> Seq<char> {
    "commands: "@ + join_with(commands_spec(), " "@)
}

pub open spec fn err_line(cmd: Seq<char>, target: Seq<char>, e: Seq<char>) -> Seq<char> {
    cmd + ": "@ + target + ": "@ + e
}

pub open spec fn ls_line(t: Tree, cwd: Seq<char>, target: Seq<char>) -> Seq<char> {
    let p = resolve_spec(cwd, target);
    match find_tree(t, components(p)) {
        Some(Tree::Dir(ch)) => {
            let names = listed_names(ch).sort_by(text_order());
            if names.len() == 0 {
                "(empty)"@
            } else {
                join_with(names, "  "@)
            }
        },
        Some(Tree::File(_)) => err_line("ls"@, target, "not a directory"@),
        None => err_line("ls"@, target, "no such file or directory"@),
    }
}

pub open spec fn cat_lines(t: Tree, cwd: Seq<char>, target: Seq<char>) -> Seq<Seq<char>> {
    let p = resolve_spec(cwd, target);
    match find_tree(t, components(p)) {
        Some(Tree::File(bytes)) => lines(lossy_text(bytes)),
        Some(Tree::Dir(_)) => seq![err_line("cat"@, target, "is a directory"@)],
        None => seq![err_line("cat"@, target, "no such file or directory"@)],
    }
}

/// `rm`, `mkdir` or `touch` on `target`: the new tree and the lines it prints.
pub open spec fn edit_cmd(t: Tree, cwd: Seq<char>, target: Seq<char>, kind: EditKind) -> (Tree, Seq<Seq<char>>) {
    let cmd = match kind {
        EditKind::Remove => "rm"@,
        EditKind::MakeDir => "mkdir"@,
        EditKind::MakeFile => "touch"@,
    };
    let p = resolve_spec(cwd, target);
    if components(p).len() == 0 {
        let e = if kind == EditKind::Remove { "cannot remove root"@ } else { "cannot create root"@ };
        (t, seq![err_line(cmd, target, e)])
    } else {
        let (t2, o) = edit_at(t, p, kind);
        if o == Outcome::Done {
            (t2, seq![])
        } else {
            let e = if kind == EditKind::Remove {
                "no such file or directory"@
            } else if o == Outcome::Exists {
                "already exists"@
            } else {
                "no such parent directory"@
            };
            (t2, seq![err_line(cmd, target, e)])
        }
    }
}

pub open spec fn usage_line(cmd: Seq<char>) -> Seq<char> {
    "usage: "@ + cmd + " <path>"@
}

pub open spec fn file_sys_line() -> Seq<char> {
    "file-sys takes no arguments \u{2014} just run 'file-sys'"@
}

/// The file system, working directory and history after running `line`.
pub open spec fn execute_spec(t: Tree, line: Seq<char>, cwd: Seq<char>, h: Seq<Seq<char>>) -> (
    Tree,
    Seq<char>,
    Seq<Seq<char>>,
) {
    let ws = words(line);
    if ws.len() == 0 {
        (t, cwd, h)
    } else {
        let cmd = ws[0];
        let args = ws.drop_first();
        if cmd == "help"@ {
            (t, cwd, h.push(help_line()))
        } else if cmd == "pwd"@ {
            (t, cwd, h.push(cwd))
        } else if cmd == "ls"@ {
            let target = if args.len() > 0 { args[0] } else { "."@ };
            (t, cwd, h.push(ls_line(t, cwd, target)))
        } else if cmd == "cat"@ {
            if args.len() == 0 {
                (t, cwd, h.push(usage_line(cmd)))
            } else {
                (t, cwd, h + cat_lines(t, cwd, args[0]))
            }
        } else if cmd == "rm"@ || cmd == "mkdir"@ || cmd == "touch"@ {
            if args.len() == 0 {
                (t, cwd, h.push(usage_line(cmd)))
            } else {
                let kind = if cmd == "rm"@ {
                    EditKind::Remove
                } else if cmd == "mkdir"@ {
                    EditKind::MakeDir
                } else {
                    EditKind::MakeFile
                };
                let (t2, out) = edit_cmd(t, cwd, args[0], kind);
                (t2, cwd, h + out)
            }
        } else if cmd == "cd"@ {
            let target = if args.len() > 0 { args[0] } else { "/"@ };
            let p = resolve_spec(cwd, target);
            if find_tree(t, components(p)) matches Some(Tree::Dir(_)) {
                (t, p, h)
            } else {
                (t, cwd, h.push(err_line("cd"@, target, "not a directory"@)))
            }
        } else if cmd == "echo"@ {
            (t, cwd, h.push(join_with(args, " "@)))
        } else if cmd == "clear"@ {
            (t, cwd, seq![])
        } else if cmd == "file-sys"@ {
            (t, cwd, h.push(file_sys_line()))
        } else {
            (t, cwd, h.push(cmd + ": command not found"@))
        }
    }
}

} // verus!

verus! {

fn err_text(cmd: &str, target: &[char], e: &[char]) -> (r: String)
    ensures
        r@ == err_line(cmd@, target@, e@),
{
    let mut out = chars_of(cmd);
    let sep = chars_of(": ");
    append_chars(&mut out, sep.as_slice());
    append_chars(&mut out, target);
    append_chars(&mut out, sep.as_slice());
    append_chars(&mut out, e);
    string_of(out.as_slice())
}

fn push_line(history: &mut Vec<String>, line: String)
    ensures
        str_views(final(history)@) == str_views(old(history)@).push(line@),
{
    history.push(line);
    assert(str_views(history@) =~= str_views(old(history)@).push(line@));
}

/// `ls`: the line it prints.
fn ls_text(root: &Node, cwd: &String, target: &[char]) -> (r: String)
    ensures
        r@ == ls_line(tree_of(*root), cwd@, target@),
{
    let ts = string_of(target);
    let path = resolve(cwd.as_str(), ts.as_str());
    match list(root, path.as_str()) {
        Ok(names) => {
            if names.len() == 0 {
                message("(empty)")
            } else {
                let mut nv: Vec<Vec<char>> = Vec::new();
                let mut i: usize = 0;
                while i < names.len()
                    invariant
                        i <= names@.len(),
                        views(nv@) =~= str_views(names@).take(i as int),
                    decreases names.len() - i,
                {
                    let c = chars_of(names[i].as_str());
                    let ghost old_nv = nv@;
                    nv.push(c);
                    assert(views(nv@) =~= views(old_nv).push(c@));
                    i = i + 1;
                }
                assert(views(nv@) =~= str_views(names@));
                let j = join_chars(&nv, "  ");
                string_of(j.as_slice())
            }
        },
        Err(e) => {
            let ev = chars_of(e.as_str());
            err_text("ls", target, ev.as_slice())
        },
    }
}

/// `cat`: appends the file's lines, or the error.
fn cat_into(root: &Node, cwd: &String, target: &[char], history: &mut Vec<String>)
    ensures
        str_views(final(history)@) == str_views(old(history)@) + cat_lines(tree_of(*root), cwd@, target@),
{
    let ts = string_of(target);
    let path = resolve(cwd.as_str(), ts.as_str());
    match read(root, path.as_str()) {
        Ok(content) => {
            let text = text_from_bytes(content.as_slice());
            let tv = chars_of(text.as_str());
            let ls = lines_of(tv.as_slice());
            let mut i: usize = 0;
            while i < ls.len()
                invariant
                    i <= ls@.len(),
                    str_views(history@) =~= str_views(old(history)@) + views(ls@).take(i as int),
                decreases ls.len() - i,
            {
                let l = string_of(ls[i].as_slice());
                push_line(history, l);
                i = i + 1;
            }
            assert(views(ls@).take(ls@.len() as int) =~= views(ls@));
        },
        Err(e) => {
            let ev = chars_of(e.as_str());
            let line = err_text("cat", target, ev.as_slice());
            push_line(history, line);
            assert(str_views(history@) =~= str_views(old(history)@) + seq![line@]);
        },
    }
}

/// `rm`, `mkdir` and `touch`.
fn edit_into(root: &mut Node, cwd: &String, target: &[char], kind: EditKind, history: &mut Vec<String>)
    ensures
        ({
            let (t2, out) = edit_cmd(tree_of(*old(root)), cwd@, target@, kind);
            &&& tree_of(*final(root)) == t2
            &&& str_views(final(history)@) == str_views(old(history)@) + out
        }),
{
    let ts = string_of(target);
    let path = resolve(cwd.as_str(), ts.as_str());
    let (cmd, r) = match kind {
        EditKind::Remove => ("rm", remove(root, path.as_str())),
        EditKind::MakeDir => ("mkdir", make_dir(root, path.as_str())),
        EditKind::MakeFile => ("touch", make_file(root, path.as_str())),
    };
    match r {
        Ok(()) => {
            assert(str_views(history@) =~= str_views(old(history)@) + seq![]);
        },
        Err(e) => {
            let ev = chars_of(e.as_str());
            let line = err_text(cmd, target, ev.as_slice());
            push_line(history, line);
            assert(str_views(history@) =~= str_views(old(history)@) + seq![line@]);
        },
    }
}

fn usage_text(cmd: &[char]) -> (r: String)
    ensures
        r@ == usage_line(cmd@),
{
    let mut out = chars_of("usage: ");
    append_chars(&mut out, cmd);
    let tail = chars_of(" <path>");
    append_chars(&mut out, tail.as_slice());
    string_of(out.as_slice())
}

/// Runs one command line: its output lines go to the end of `history`,
/// `cd` changes `cwd` (an absolute path), and `rm`, `mkdir` and `touch`
/// change the file system.
pub fn execute(root: &mut Node, line: &str, cwd: &mut String, history: &mut Vec<String>)
    ensures
        ({
            let (t, c, h) = execute_spec(tree_of(*old(root)), line@, old(cwd)@, str_views(old(history)@));
            &&& tree_of(*final(root)) == t
            &&& final(cwd)@ == c
            &&& str_views(final(history)@) == h
        }),
{
    let lv = chars_of(line);
    let ws = words_of(lv.as_slice());
    if ws.len() == 0 {
        return;
    }
    let cmd = ws[0].as_slice();
    let nargs = ws.len() - 1;
    let ghost args = views(ws@).drop_first();
    assert(views(ws@)[0] == cmd@);
    assert(args.len() == nargs);
    assert(nargs > 0 ==> args[0] == ws@[1]@);
    if is_text(cmd, "help") {
        let cs = commands();
        let mut cv: Vec<Vec<char>> = Vec::new();
        let mut i: usize = 0;
        while i < cs.len()
            invariant
                i <= cs@.len(),
                cs@.map_values(|s: &str| s@) == commands_spec(),
                views(cv@) =~= commands_spec().take(i as int),
            decreases cs.len() - i,
        {
            assert(cs@.map_values(|s: &str| s@)[i as int] == cs@[i as int]@);
            let c = chars_of(cs[i]);
            let ghost old_cv = cv@;
            cv.push(c);
            assert(views(cv@) =~= views(old_cv).push(c@));
            i = i + 1;
        }
        assert(views(cv@) =~= commands_spec());
        let joined = join_chars(&cv, " ");
        let mut out = chars_of("commands: ");
        append_chars(&mut out, joined.as_slice());
        push_line(history, string_of(out.as_slice()));
    } else if is_text(cmd, "pwd") {
        let c = cwd.clone();
        push_line(history, c);
    } else if is_text(cmd, "ls") {
        let dot = chars_of(".");
        let target = if nargs > 0 { ws[1].as_slice() } else { dot.as_slice() };
        let l = ls_text(root, cwd, target);
        push_line(history, l);
    } else if is_text(cmd, "cat") {
        if nargs == 0 {
            push_line(history, usage_text(cmd));
        } else {
            cat_into(root, cwd, ws[1].as_slice(), history);
        }
    } else if is_text(cmd, "rm") || is_text(cmd, "mkdir") || is_text(cmd, "touch") {
        if nargs == 0 {
            push_line(history, usage_text(cmd));
        } else {
            let kind = if is_text(cmd, "rm") {
                EditKind::Remove
            } else if is_text(cmd, "mkdir") {
                EditKind::MakeDir
            } else {
                EditKind::MakeFile
            };
            edit_into(root, cwd, ws[1].as_slice(), kind, history);
        }
    } else if is_text(cmd, "cd") {
        let slash = chars_of("/");
        let target = if nargs > 0 { ws[1].as_slice() } else { slash.as_slice() };
        let ts = string_of(target);
        let path = resolve(cwd.as_str(), ts.as_str());
        if is_dir(root, path.as_str()) {
            *cwd = path;
        } else {
            let nd = chars_of("not a directory");
            push_line(history, err_text("cd", target, nd.as_slice()));
        }
    } else if is_text(cmd, "echo") {
        let rest = copy_words(&ws, 1);
        assert(views(rest@) =~= args);
        let j = join_chars(&rest, " ");
        push_line(history, string_of(j.as_slice()));
    } else if is_text(cmd, "clear") {
        history.clear();
        assert(str_views(history@) =~= seq![]);
    } else if is_text(cmd, "file-sys") {
        push_line(history, message("file-sys takes no arguments \u{2014} just run 'file-sys'"));
    } else {
        let mut out: Vec<char> = Vec::new();
        append_chars(&mut out, cmd);
        let tail = chars_of(": command not found");
        append_chars(&mut out, tail.as_slice());
        push_line(history, string_of(out.as_slice()));
    }
}

/// Copies of `ws[from..]`.
fn copy_words(ws: &Vec<Vec<char>>, from: usize) -> (r: Vec<Vec<char>>)
    requires
        from <= ws@.len(),
    ensures
        views(r@) == views(ws@).skip(from as int),
{
    let mut r: Vec<Vec<char>> = Vec::new();
    let mut i = from;
    while i < ws.len()
        invariant
            from <= i <= ws@.len(),
            views(r@) =~= views(ws@).subrange(from as int, i as int),
        decreases ws.len() - i,
    {
        let w = ws[i].as_slice();
        let ghost old_r = r@;
        let c = crate::strings::copy_range(w, 0, w.len());
        r.push(c);
        assert(w@.subrange(0, w@.len() as int) =~= w@);
        assert(views(r@) =~= views(old_r).push(w@));
        assert(views(ws@)[i as int] == w@);
        i = i + 1;
    }
    r
}


/// `cd target` moves to the directory that `target` names from the working
/// directory (the same path `ls`, `cat`, `rm`, `mkdir` and `touch` would
/// use for it) and prints nothing; when no directory is there, the working
/// directory stays and one error line is printed. The tree is never changed.
pub proof fn law_cd(t: Tree, line: Seq<char>, cwd: Seq<char>, h: Seq<Seq<char>>)
    requires
        words(line).len() >= 2,
        words(line)[0] == "cd"@,
    ensures
        ({
            let target = words(line)[1];
            let p = resolve_spec(cwd, target);
            &&& find_tree(t, components(p)) matches Some(Tree::Dir(_)) ==> execute_spec(t, line, cwd, h) == (t, p, h)
            &&& !(find_tree(t, components(p)) matches Some(Tree::Dir(_))) ==> execute_spec(t, line, cwd, h) == (
                t,
                cwd,
                h.push(err_line("cd"@, target, "not a directory"@)),
            )
        }),
{
    reveal_strlit("cd");
    reveal_strlit("help");
    reveal_strlit("pwd");
    reveal_strlit("ls");
    reveal_strlit("cat");
    reveal_strlit("rm");
    reveal_strlit("mkdir");
    reveal_strlit("touch");
    assert("cd"@.len() == 2 && "cd"@[0] == 'c' && "cd"@[1] == 'd');
    assert("help"@.len() == 4 && "pwd"@.len() == 3 && "cat"@.len() == 3);
    assert("mkdir"@.len() == 5 && "touch"@.len() == 5);
    assert("ls"@.len() == 2 && "ls"@[0] == 'l');
    assert("rm"@.len() == 2 && "rm"@[0] == 'r');
    let args = words(line).drop_first();
    assert(args[0] == words(line)[1]);
}
} // verus!
