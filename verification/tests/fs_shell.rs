use cios::fs::{init, is_dir, list, make_dir, make_file, read, remove, resolve, Node};
use cios::shell::{commands, execute};

fn run(root: &mut Node, cwd: &mut String, line: &str) -> Vec<String> {
    let mut history: Vec<String> = Vec::new();
    execute(root, line, cwd, &mut history);
    history
}

#[test]
fn resolve_normalises_paths() {
    assert_eq!(resolve("/", "home"), "/home");
    assert_eq!(resolve("/home", ".."), "/");
    assert_eq!(resolve("/home", "../.."), "/");
    assert_eq!(resolve("/a/b", "./c//d/../e"), "/a/b/c/e");
    assert_eq!(resolve("/a/b", "/x/y"), "/x/y");
    assert_eq!(resolve("/a", "."), "/a");
    assert_eq!(resolve("/", ""), "/");
}

#[test]
fn resolve_of_a_resolved_path_is_itself() {
    let p = resolve("/a/b", "../c/./d");
    assert_eq!(resolve("/somewhere/else", &p), p);
}

#[test]
fn boot_file_system_has_readme_and_home() {
    let root = init();
    assert_eq!(list(&root, "/"), Ok(vec![String::from("home/"), String::from("readme.txt")]));
    assert_eq!(
        read(&root, "/readme.txt"),
        Ok(b"welcome to CIOS.\ntype 'help' for a list of commands.\n".to_vec())
    );
    assert!(is_dir(&root, "/home"));
    assert!(!is_dir(&root, "/readme.txt"));
    assert!(is_dir(&root, "/"));
}

#[test]
fn list_and_read_report_errors() {
    let root = init();
    assert_eq!(list(&root, "/readme.txt"), Err(String::from("not a directory")));
    assert_eq!(list(&root, "/nope"), Err(String::from("no such file or directory")));
    assert_eq!(read(&root, "/home"), Err(String::from("is a directory")));
    assert_eq!(read(&root, "/nope"), Err(String::from("no such file or directory")));
}

#[test]
fn make_dir_then_it_is_an_empty_directory() {
    let mut root = init();
    assert_eq!(make_dir(&mut root, "/home/docs"), Ok(()));
    assert!(is_dir(&root, "/home/docs"));
    assert_eq!(list(&root, "/home/docs"), Ok(vec![]));
    assert_eq!(make_dir(&mut root, "/home/docs"), Err(String::from("already exists")));
    assert_eq!(make_dir(&mut root, "/missing/docs"), Err(String::from("no such parent directory")));
    assert_eq!(make_dir(&mut root, "/"), Err(String::from("cannot create root")));
}

#[test]
fn make_file_then_it_reads_empty() {
    let mut root = init();
    assert_eq!(make_file(&mut root, "/home/a.txt"), Ok(()));
    assert_eq!(read(&root, "/home/a.txt"), Ok(vec![]));
    assert_eq!(make_file(&mut root, "/readme.txt"), Err(String::from("already exists")));
    assert_eq!(make_file(&mut root, "/readme.txt/x"), Err(String::from("no such parent directory")));
}

#[test]
fn remove_then_it_is_gone() {
    let mut root = init();
    assert_eq!(remove(&mut root, "/readme.txt"), Ok(()));
    assert_eq!(read(&root, "/readme.txt"), Err(String::from("no such file or directory")));
    assert_eq!(remove(&mut root, "/readme.txt"), Err(String::from("no such file or directory")));
    assert_eq!(remove(&mut root, "/"), Err(String::from("cannot remove root")));
    assert_eq!(list(&root, "/"), Ok(vec![String::from("home/")]));
}

#[test]
fn list_is_sorted() {
    let mut root = init();
    make_file(&mut root, "/zeta").unwrap();
    make_dir(&mut root, "/alpha").unwrap();
    make_file(&mut root, "/Beta").unwrap();
    assert_eq!(
        list(&root, "/"),
        Ok(vec![
            String::from("Beta"),
            String::from("alpha/"),
            String::from("home/"),
            String::from("readme.txt"),
            String::from("zeta"),
        ])
    );
}

#[test]
fn shell_help_lists_commands() {
    let mut root = init();
    let mut cwd = String::from("/");
    let out = run(&mut root, &mut cwd, "help");
    assert_eq!(out, vec![String::from("commands: ls cat rm mkdir touch cd pwd echo clear help file-sys")]);
    assert_eq!(commands().len(), 11);
}

#[test]
fn shell_ls_cat_pwd_echo() {
    let mut root = init();
    let mut cwd = String::from("/");
    assert_eq!(run(&mut root, &mut cwd, "ls"), vec![String::from("home/  readme.txt")]);
    assert_eq!(run(&mut root, &mut cwd, "ls home"), vec![String::from("(empty)")]);
    assert_eq!(
        run(&mut root, &mut cwd, "cat readme.txt"),
        vec![String::from("welcome to CIOS."), String::from("type 'help' for a list of commands.")]
    );
    assert_eq!(run(&mut root, &mut cwd, "pwd"), vec![String::from("/")]);
    assert_eq!(run(&mut root, &mut cwd, "echo  hello   world "), vec![String::from("hello world")]);
    assert_eq!(run(&mut root, &mut cwd, "   "), Vec::<String>::new());
}

#[test]
fn shell_errors_name_command_and_target() {
    let mut root = init();
    let mut cwd = String::from("/");
    assert_eq!(run(&mut root, &mut cwd, "ls nope"), vec![String::from("ls: nope: no such file or directory")]);
    assert_eq!(run(&mut root, &mut cwd, "ls readme.txt"), vec![String::from("ls: readme.txt: not a directory")]);
    assert_eq!(run(&mut root, &mut cwd, "cat home"), vec![String::from("cat: home: is a directory")]);
    assert_eq!(run(&mut root, &mut cwd, "cat"), vec![String::from("usage: cat <path>")]);
    assert_eq!(run(&mut root, &mut cwd, "rm"), vec![String::from("usage: rm <path>")]);
    assert_eq!(run(&mut root, &mut cwd, "rm nope"), vec![String::from("rm: nope: no such file or directory")]);
    assert_eq!(run(&mut root, &mut cwd, "mkdir home"), vec![String::from("mkdir: home: already exists")]);
    assert_eq!(run(&mut root, &mut cwd, "touch a/b"), vec![String::from("touch: a/b: no such parent directory")]);
    assert_eq!(run(&mut root, &mut cwd, "rm /"), vec![String::from("rm: /: cannot remove root")]);
    assert_eq!(run(&mut root, &mut cwd, "cd readme.txt"), vec![String::from("cd: readme.txt: not a directory")]);
    assert_eq!(run(&mut root, &mut cwd, "frobnicate now"), vec![String::from("frobnicate: command not found")]);
    assert_eq!(
        run(&mut root, &mut cwd, "file-sys x"),
        vec![String::from("file-sys takes no arguments \u{2014} just run 'file-sys'")]
    );
}

#[test]
fn shell_cd_mkdir_touch_rm_change_state() {
    let mut root = init();
    let mut cwd = String::from("/");
    assert!(run(&mut root, &mut cwd, "cd home").is_empty());
    assert_eq!(cwd, "/home");
    assert!(run(&mut root, &mut cwd, "mkdir docs").is_empty());
    assert!(run(&mut root, &mut cwd, "touch docs/notes").is_empty());
    assert_eq!(run(&mut root, &mut cwd, "ls docs"), vec![String::from("notes")]);
    assert!(run(&mut root, &mut cwd, "rm docs/notes").is_empty());
    assert_eq!(run(&mut root, &mut cwd, "ls docs"), vec![String::from("(empty)")]);
    assert!(run(&mut root, &mut cwd, "cd").is_empty());
    assert_eq!(cwd, "/");
}

#[test]
fn shell_clear_empties_history() {
    let mut root = init();
    let mut cwd = String::from("/");
    let mut history = vec![String::from("old line")];
    execute(&mut root, "clear", &mut cwd, &mut history);
    assert!(history.is_empty());
}

#[test]
fn cat_replaces_invalid_utf8() {
    let mut root = Node::Dir(vec![(String::from("bin"), Node::File(vec![b'o', b'k', 0xff, b'\n', b'x']))]);
    let mut cwd = String::from("/");
    assert_eq!(run(&mut root, &mut cwd, "cat bin"), vec![String::from("ok\u{FFFD}"), String::from("x")]);
}

#[test]
fn write_then_read_gives_the_content_back() {
    let mut root = init();
    assert_eq!(cios::fs::write(&mut root, "/home/new.txt", b"abc"), Ok(()));
    assert_eq!(read(&root, "/home/new.txt"), Ok(b"abc".to_vec()));
    assert_eq!(cios::fs::write(&mut root, "/readme.txt", b""), Ok(()));
    assert_eq!(read(&root, "/readme.txt"), Ok(vec![]));
    assert_eq!(list(&root, "/"), Ok(vec![String::from("home/"), String::from("readme.txt")]));
}

#[test]
fn write_refuses_directories_root_and_missing_parents() {
    let mut root = init();
    assert_eq!(cios::fs::write(&mut root, "/home", b"x"), Err(String::from("is a directory")));
    assert_eq!(cios::fs::write(&mut root, "/", b"x"), Err(String::from("cannot write root")));
    assert_eq!(cios::fs::write(&mut root, "/nope/a", b"x"), Err(String::from("no such parent directory")));
    assert!(is_dir(&root, "/home"));
}

#[test]
fn absolute_targets_ignore_the_directory_and_relative_ones_join_it() {
    assert_eq!(resolve("/home/user", "/etc/x"), resolve("/", "/etc/x"));
    assert_eq!(resolve("/home", "a/../b"), resolve("/", "/home/a/../b"));
    assert_eq!(resolve("/home", "a"), "/home/a");
}

#[test]
fn remove_undoes_a_create() {
    let mut root = init();
    let listing = |root: &Node| (list(root, "/"), list(root, "/home"));
    let before = listing(&root);
    assert_eq!(make_dir(&mut root, "/home/new"), Ok(()));
    assert!(is_dir(&root, "/home/new"));
    assert_eq!(remove(&mut root, "/home/new"), Ok(()));
    assert_eq!(listing(&root), before);
    assert_eq!(make_file(&mut root, "/home/f.txt"), Ok(()));
    assert_eq!(remove(&mut root, "/home/f.txt"), Ok(()));
    assert_eq!(listing(&root), before);
    assert_eq!(read(&root, "/readme.txt"), read(&init(), "/readme.txt"));
}
