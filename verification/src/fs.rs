//! The in-memory file system: a tree of directories and files, addressed by
//! `/`-separated paths. Everything lives in RAM and is lost on reboot.
use vstd::prelude::*;
use crate::strings::{
    chars_eq, chars_of, copy_range, lemma_find_char, push_char, split, split_chars, string_of, text_le,
    text_le_chars, text_order, views,
};

verus! {

/// A file (its bytes) or a directory (its entries, in insertion order).
pub enum Node {
    File(Vec<u8>),
    /// Children as (name, node) pairs, searched linearly.
    Dir(Vec<(String, Node)>),
}

/// The abstract tree: names and file contents as sequences.
pub enum Tree {
    File(Seq<u8>),
    Dir(Seq<(Seq<char>, Tree)>),
}

pub open spec fn tree_of(n: Node) -> Tree
    decreases n,
{
    match n {
        Node::File(b) => Tree::File(b@),
        Node::Dir(ch) => Tree::Dir(entries_of(ch@)),
    }
}

pub open spec fn entries_of(s: Seq<(String, Node)>) -> Seq<(Seq<char>, Tree)>
    decreases s,
{
    if s.len() == 0 {
        seq![]
    } else {
        entries_of(s.drop_last()).push((s.last().0@, tree_of(s.last().1)))
    }
}

pub proof fn lemma_entries_of(s: Seq<(String, Node)>)
    ensures
        entries_of(s).len() == s.len(),
        forall|i: int| 0 <= i < s.len() ==> #[trigger] entries_of(s)[i] == (s[i].0@, tree_of(s[i].1)),
    decreases s.len(),
{
    if s.len() > 0 {
        lemma_entries_of(s.drop_last());
        assert forall|i: int| 0 <= i < s.len() implies #[trigger] entries_of(s)[i] == (s[i].0@, tree_of(s[i].1)) by {
            if i < s.len() - 1 {
                assert(s.drop_last()[i] == s[i]);
            }
        }
    }
}

/// Index of the first entry called `name`.
pub open spec fn child_index(ch: Seq<(Seq<char>, Tree)>, name: Seq<char>) -> Option<int>
    decreases ch.len(),
{
    if ch.len() == 0 {
        None
    } else {
        match child_index(ch.drop_last(), name) {
            Some(i) => Some(i),
            None => if ch.last().0 == name {
                Some(ch.len() - 1)
            } else {
                None
            },
        }
    }
}

pub proof fn lemma_child_index(ch: Seq<(Seq<char>, Tree)>, name: Seq<char>)
    ensures
        match child_index(ch, name) {
            Some(i) => 0 <= i < ch.len() && ch[i].0 == name && forall|j: int|
                0 <= j < i ==> ch[j].0 != name,
            None => forall|j: int| 0 <= j < ch.len() ==> ch[j].0 != name,
        },
    decreases ch.len(),
{
    if ch.len() > 0 {
        lemma_child_index(ch.drop_last(), name);
        match child_index(ch.drop_last(), name) {
            Some(i) => {
                assert forall|j: int| 0 <= j < i implies ch[j].0 != name by {
                    assert(ch[j] == ch.drop_last()[j]);
                }
                assert(ch[i] == ch.drop_last()[i]);
            },
            None => {
                assert forall|j: int| 0 <= j < ch.len() - 1 implies ch[j].0 != name by {
                    assert(ch[j] == ch.drop_last()[j]);
                }
            },
        }
    }
}

/// The node at the end of `parts`, walking down through directories.
pub open spec fn find_tree(t: Tree, parts: Seq<Seq<char>>) -> Option<Tree>
    decreases parts.len(),
{
    if parts.len() == 0 {
        Some(t)
    } else {
        match t {
            Tree::File(_) => None,
            Tree::Dir(ch) => match child_index(ch, parts[0]) {
                Some(i) => find_tree(ch[i].1, parts.drop_first()),
                None => None,
            },
        }
    }
}

pub open spec fn nonempty_pieces(pieces: Seq<Seq<char>>) -> Seq<Seq<char>>
    decreases pieces.len(),
{
    if pieces.len() == 0 {
        seq![]
    } else {
        let rest = nonempty_pieces(pieces.drop_last());
        if pieces.last().len() > 0 {
            rest.push(pieces.last())
        } else {
            rest
        }
    }
}

/// The names along a path, with empty ones (from `//`, or a leading or
/// trailing `/`) left out.
pub open spec fn components(path: Seq<char>) -> Seq<Seq<char>> {
    nonempty_pieces(split(path, '/'))
}

/// One step of path normalisation: `""` and `"."` stay, `".."` goes up
/// (not above the root), anything else goes down.
pub open spec fn path_step(stack: Seq<Seq<char>>, p: Seq<char>) -> Seq<Seq<char>> {
    if p.len() == 0 || p == "."@ {
        stack
    } else if p == ".."@ {
        if stack.len() > 0 {
            stack.drop_last()
        } else {
            stack
        }
    } else {
        stack.push(p)
    }
}

pub open spec fn path_steps(stack: Seq<Seq<char>>, pieces: Seq<Seq<char>>) -> Seq<Seq<char>>
    decreases pieces.len(),
{
    if pieces.len() == 0 {
        stack
    } else {
        path_step(path_steps(stack, pieces.drop_last()), pieces.last())
    }
}

/// The names of the absolute path that `target` denotes from `cwd`.
pub open spec fn resolve_stack(cwd: Seq<char>, target: Seq<char>) -> Seq<Seq<char>> {
    let start = if target.len() > 0 && target[0] == '/' {
        seq![]
    } else {
        components(cwd)
    };
    path_steps(start, split(target, '/'))
}

/// Names joined with `/` between them.
pub open spec fn join_names(names: Seq<Seq<char>>) -> Seq<char>
    decreases names.len(),
{
    if names.len() == 0 {
        seq![]
    } else if names.len() == 1 {
        names[0]
    } else {
        join_names(names.drop_last()) + seq!['/'] + names.last()
    }
}

/// The normalised absolute path that `target` denotes from `cwd`.
pub open spec fn resolve_spec(cwd: Seq<char>, target: Seq<char>) -> Seq<char> {
    seq!['/'] + join_names(resolve_stack(cwd, target))
}

/// A name that a normalised path can hold: not empty, not `.` or `..`,
/// and without `/`.
pub open spec fn normal_name(n: Seq<char>) -> bool {
    &&& n.len() > 0
    &&& n != "."@
    &&& n != ".."@
    &&& forall|j: int| 0 <= j < n.len() ==> n[j] != '/'
}

pub open spec fn normal_names(s: Seq<Seq<char>>) -> bool {
    forall|k: int| 0 <= k < s.len() ==> normal_name(#[trigger] s[k])
}

/// What `resolve` needs of its working directory for its result to be
/// normalised: no `.` or `..` among its names (a path that `resolve` gave
/// has none), unless the target is absolute.
pub open spec fn resolvable(cwd: Seq<char>, target: Seq<char>) -> bool {
    (target.len() > 0 && target[0] == '/') || forall|k: int|
        0 <= k < components(cwd).len() ==> #[trigger] components(cwd)[k] != "."@ && components(cwd)[k] != ".."@
}

proof fn lemma_nonempty_pieces(p: Seq<Seq<char>>)
    requires
        forall|k: int, j: int| 0 <= k < p.len() && 0 <= j < p[k].len() ==> #[trigger] p[k][j] != '/',
    ensures
        forall|k: int| 0 <= k < nonempty_pieces(p).len() ==> #[trigger] nonempty_pieces(p)[k].len() > 0,
        forall|k: int, j: int|
            0 <= k < nonempty_pieces(p).len() && 0 <= j < nonempty_pieces(p)[k].len() ==> #[trigger] nonempty_pieces(
                p,
            )[k][j] != '/',
    decreases p.len(),
{
    if p.len() > 0 {
        let q = p.drop_last();
        assert forall|k: int, j: int| 0 <= k < q.len() && 0 <= j < q[k].len() implies #[trigger] q[k][j] != '/' by {
            assert(q[k] == p[k]);
        }
        lemma_nonempty_pieces(q);
        let l = p.last();
        assert forall|j: int| 0 <= j < l.len() implies l[j] != '/' by {
            assert(p[p.len() - 1][j] == l[j]);
        }
        let rest = nonempty_pieces(q);
        let all = nonempty_pieces(p);
        assert(p.drop_last() == q);
        assert forall|k: int| 0 <= k < all.len() implies #[trigger] all[k].len() > 0 && (forall|j: int|
            0 <= j < all[k].len() ==> all[k][j] != '/') by {
            if k < rest.len() {
                assert(all[k] == rest[k]);
                assert forall|j: int| 0 <= j < all[k].len() implies all[k][j] != '/' by {
                    assert(rest[k][j] != '/');
                }
            } else {
                assert(all[k] == l);
            }
        }
    }
}

proof fn lemma_path_steps_normal(st: Seq<Seq<char>>, pieces: Seq<Seq<char>>)
    requires
        normal_names(st),
        forall|k: int, j: int| 0 <= k < pieces.len() && 0 <= j < pieces[k].len() ==> #[trigger] pieces[k][j] != '/',
    ensures
        normal_names(path_steps(st, pieces)),
    decreases pieces.len(),
{
    if pieces.len() > 0 {
        let q = pieces.drop_last();
        assert forall|k: int, j: int| 0 <= k < q.len() && 0 <= j < q[k].len() implies #[trigger] q[k][j] != '/' by {
            assert(q[k] == pieces[k]);
        }
        lemma_path_steps_normal(st, q);
        let l = pieces.last();
        assert forall|j: int| 0 <= j < l.len() implies l[j] != '/' by {
            assert(pieces[pieces.len() - 1][j] == l[j]);
        }
        let prev = path_steps(st, q);
        let next = path_step(prev, l);
        assert forall|k: int| 0 <= k < next.len() implies normal_name(#[trigger] next[k]) by {
            if l.len() == 0 || l == "."@ {
            } else if l == ".."@ {
                if prev.len() > 0 {
                    assert(next[k] == prev[k]);
                }
            } else {
                if k < prev.len() {
                    assert(next[k] == prev[k]);
                }
            }
        }
    }
}

proof fn lemma_path_steps_append(st: Seq<Seq<char>>, a: Seq<Seq<char>>, b: Seq<Seq<char>>)
    ensures
        path_steps(st, a + b) == path_steps(path_steps(st, a), b),
    decreases b.len(),
{
    if b.len() == 0 {
        assert(a + b =~= a);
    } else {
        assert((a + b).drop_last() =~= a + b.drop_last());
        assert((a + b).last() == b.last());
        lemma_path_steps_append(st, a, b.drop_last());
    }
}

proof fn lemma_path_steps_push_all(st: Seq<Seq<char>>, s: Seq<Seq<char>>)
    requires
        normal_names(s),
    ensures
        path_steps(st, s) == st + s,
    decreases s.len(),
{
    if s.len() > 0 {
        let q = s.drop_last();
        assert(normal_names(q)) by {
            assert forall|k: int| 0 <= k < q.len() implies normal_name(#[trigger] q[k]) by {
                assert(q[k] == s[k]);
            }
        }
        lemma_path_steps_push_all(st, q);
        assert(normal_name(s[s.len() - 1]));
        assert((st + q).push(s.last()) =~= st + s);
    }
}

proof fn lemma_split_join(s: Seq<Seq<char>>)
    requires
        normal_names(s),
        s.len() > 0,
    ensures
        split(join_names(s), '/') == s,
    decreases s.len(),
{
    assert(normal_name(s[s.len() - 1]));
    if s.len() == 1 {
        crate::strings::lemma_split_single(s[0], '/');
        assert(seq![s[0]] =~= s);
    } else {
        let q = s.drop_last();
        assert(normal_names(q)) by {
            assert forall|k: int| 0 <= k < q.len() implies normal_name(#[trigger] q[k]) by {
                assert(q[k] == s[k]);
            }
        }
        lemma_split_join(q);
        crate::strings::lemma_split_append(join_names(q), s.last(), '/');
        crate::strings::lemma_split_single(s.last(), '/');
        assert(q + seq![s.last()] =~= s);
    }
}

/// Every name of a resolved path is a normal name (not empty, not `.` or
/// `..`, without `/`).
pub proof fn law_resolve_names_normal(cwd: Seq<char>, target: Seq<char>)
    requires
        resolvable(cwd, target),
    ensures
        normal_names(resolve_stack(cwd, target)),
{
    let abs = target.len() > 0 && target[0] == '/';
    let start = if abs { seq![] } else { components(cwd) };
    if !abs {
        crate::strings::lemma_split_pieces(cwd, '/');
        lemma_nonempty_pieces(split(cwd, '/'));
        assert forall|k: int| 0 <= k < start.len() implies normal_name(#[trigger] start[k]) by {
            assert(components(cwd)[k] != "."@ && components(cwd)[k] != ".."@);
        }
    }
    crate::strings::lemma_split_pieces(target, '/');
    lemma_path_steps_normal(start, split(target, '/'));
}

/// A resolved path is already normalised: resolving it again, from any
/// working directory, gives it back unchanged.
pub proof fn law_resolve_fixed_point(cwd: Seq<char>, target: Seq<char>, other: Seq<char>)
    requires
        resolvable(cwd, target),
    ensures
        resolve_spec(other, resolve_spec(cwd, target)) == resolve_spec(cwd, target),
{
    let st = resolve_stack(cwd, target);
    law_resolve_names_normal(cwd, target);
    let r = resolve_spec(cwd, target);
    let e: Seq<char> = seq![];
    assert(r =~= e + seq!['/'] + join_names(st));
    crate::strings::lemma_split_append(e, join_names(st), '/');
    crate::strings::lemma_split_single(e, '/');
    assert(r[0] == '/');
    let pieces = split(r, '/');
    assert(pieces == seq![e] + split(join_names(st), '/'));
    let none: Seq<Seq<char>> = seq![];
    let one: Seq<Seq<char>> = seq![e];
    lemma_path_steps_append(none, one, split(join_names(st), '/'));
    assert(one.drop_last() =~= none);
    assert(path_steps(none, one.drop_last()) == none);
    assert(path_steps(none, one) == path_step(none, e));
    assert(path_steps(none, one) == none);
    if st.len() == 0 {
        assert(join_names(st) == e);
        let two: Seq<Seq<char>> = seq![e, e];
        assert(pieces =~= two);
        assert(two.drop_last() =~= one);
        assert(path_steps(none, two) == path_step(path_steps(none, one), e));
        assert(resolve_stack(other, r) =~= st);
    } else {
        lemma_split_join(st);
        lemma_path_steps_push_all(seq![], st);
        assert(Seq::<Seq<char>>::empty() + st =~= st);
        assert(resolve_stack(other, r) == st);
    }
}

proof fn lemma_steps_plain(st: Seq<Seq<char>>, p: Seq<Seq<char>>)
    requires
        forall|k: int| 0 <= k < nonempty_pieces(p).len() ==> #[trigger] nonempty_pieces(p)[k] != "."@
            && nonempty_pieces(p)[k] != ".."@,
    ensures
        path_steps(st, p) == st + nonempty_pieces(p),
    decreases p.len(),
{
    if p.len() == 0 {
        assert(st + nonempty_pieces(p) =~= st);
    } else {
        let q = p.drop_last();
        let l = p.last();
        assert(p.drop_last() == q);
        let nq = nonempty_pieces(q);
        let np = nonempty_pieces(p);
        assert forall|k: int| 0 <= k < nq.len() implies #[trigger] nq[k] != "."@ && nq[k] != ".."@ by {
            assert(np[k] == nq[k]);
        }
        lemma_steps_plain(st, q);
        if l.len() > 0 {
            assert(np == nq.push(l));
            assert(np[np.len() - 1] == l);
            assert((st + nq).push(l) =~= st + np);
        }
    }
}

proof fn lemma_components_root()
    ensures
        components("/"@) == Seq::<Seq<char>>::empty(),
{
    reveal_strlit("/");
    let e: Seq<char> = seq![];
    assert("/"@ =~= e + seq!['/'] + e);
    crate::strings::lemma_split_append(e, e, '/');
    crate::strings::lemma_split_single(e, '/');
    let two: Seq<Seq<char>> = seq![e, e];
    let one: Seq<Seq<char>> = seq![e];
    let none: Seq<Seq<char>> = seq![];
    assert(split("/"@, '/') =~= two);
    assert(two.drop_last() =~= one);
    assert(one.drop_last() =~= none);
    assert(nonempty_pieces(none) == none);
    assert(one.last() == e && two.last() == e);
    assert(nonempty_pieces(one) == none);
    assert(nonempty_pieces(two) == none);
}

/// An absolute target resolves the same from every working directory.
pub proof fn law_resolve_absolute(cwd: Seq<char>, target: Seq<char>)
    requires
        target.len() > 0,
        target[0] == '/',
    ensures
        resolve_spec(cwd, target) == resolve_spec("/"@, target),
{
}

/// `.` names the directory itself: its names as the path has them.
pub proof fn law_resolve_dot(cwd: Seq<char>)
    ensures
        resolve_stack(cwd, "."@) == components(cwd),
{
    reveal_strlit(".");
    assert("."@.len() == 1 && "."@[0] == '.');
    crate::strings::lemma_split_single("."@, '/');
    let dot: Seq<Seq<char>> = seq!["."@];
    assert(dot.drop_last() =~= Seq::<Seq<char>>::empty());
    assert(path_steps(components(cwd), dot.drop_last()) == components(cwd));
    assert(dot.last() == "."@);
    assert(path_steps(components(cwd), dot) == path_step(components(cwd), "."@));
}

/// Going into a child: resolving a plain name (not empty, not `.` or
/// `..`, without `/`) from a directory adds exactly that one name to the
/// directory's names, so the path is the directory's own path (what `.`
/// resolves to), a `/`, and the name; from the root it is `/name`.
pub proof fn law_resolve_child(cwd: Seq<char>, name: Seq<char>)
    requires
        normal_name(name),
    ensures
        resolve_stack(cwd, "."@) == components(cwd),
        resolve_stack(cwd, name) == components(cwd).push(name),
        components(cwd).len() == 0 ==> resolve_spec(cwd, name) == seq!['/'] + name,
        components(cwd).len() > 0 ==> resolve_spec(cwd, name) == resolve_spec(cwd, "."@) + seq!['/'] + name,
{
    reveal_strlit(".");
    assert("."@.len() == 1 && "."@[0] == '.');
    crate::strings::lemma_split_single(name, '/');
    let one: Seq<Seq<char>> = seq![name];
    assert(one.drop_last() =~= Seq::<Seq<char>>::empty());
    assert(path_steps(components(cwd), one.drop_last()) == components(cwd));
    assert(one.last() == name);
    assert(path_steps(components(cwd), one) == path_step(components(cwd), name));
    law_resolve_dot(cwd);
    let st = components(cwd).push(name);
    assert(st.drop_last() =~= components(cwd));
    if components(cwd).len() == 0 {
        assert(join_names(st) == st[0]);
    } else {
        assert(join_names(st) == join_names(components(cwd)) + seq!['/'] + name);
    }
}

/// Going up: `..` from a directory drops its last name, and stays at the
/// root when there is none.
pub proof fn law_resolve_parent(cwd: Seq<char>)
    ensures
        components(cwd).len() > 0 ==> resolve_stack(cwd, ".."@) == components(cwd).drop_last(),
        components(cwd).len() == 0 ==> resolve_spec(cwd, ".."@) == seq!['/'],
{
    reveal_strlit("..");
    assert(".."@.len() == 2 && ".."@[0] == '.' && ".."@[1] == '.');
    crate::strings::lemma_split_single(".."@, '/');
    let up: Seq<Seq<char>> = seq![".."@];
    assert(up.drop_last() =~= Seq::<Seq<char>>::empty());
    assert(path_steps(components(cwd), up.drop_last()) == components(cwd));
    assert(up.last() == ".."@);
    assert(path_steps(components(cwd), up) == path_step(components(cwd), ".."@));
    reveal_strlit(".");
    assert("."@.len() == 1);
}

/// A relative target resolves as the joined path `cwd/target` does from
/// the root (for a working directory without `.` or `..` among its names).
pub proof fn law_resolve_relative(cwd: Seq<char>, target: Seq<char>)
    requires
        !(target.len() > 0 && target[0] == '/'),
        forall|k: int| 0 <= k < components(cwd).len() ==> #[trigger] components(cwd)[k] != "."@
            && components(cwd)[k] != ".."@,
    ensures
        resolve_spec(cwd, target) == resolve_spec("/"@, cwd + "/"@ + target),
{
    reveal_strlit("/");
    let joined = cwd + "/"@ + target;
    assert(joined =~= cwd + seq!['/'] + target);
    lemma_components_root();
    crate::strings::lemma_split_append(cwd, target, '/');
    let none: Seq<Seq<char>> = seq![];
    lemma_path_steps_append(none, split(cwd, '/'), split(target, '/'));
    assert forall|k: int| 0 <= k < nonempty_pieces(split(cwd, '/')).len() implies #[trigger] nonempty_pieces(
        split(cwd, '/'),
    )[k] != "."@ && nonempty_pieces(split(cwd, '/'))[k] != ".."@ by {
        assert(components(cwd)[k] == nonempty_pieces(split(cwd, '/'))[k]);
    }
    lemma_steps_plain(none, split(cwd, '/'));
    assert(none + components(cwd) =~= components(cwd));
    assert(resolve_stack("/"@, joined) == resolve_stack(cwd, target));
}

/// The non-empty `/`-separated names of a path.
fn split_path(v: &[char]) -> (r: Vec<Vec<char>>)
    ensures
        views(r@) == components(v@),
{
    let pieces = split_chars(v, '/');
    let mut r: Vec<Vec<char>> = Vec::new();
    let mut i: usize = 0;
    assert(views(pieces@).take(0) =~= seq![]);
    while i < pieces.len()
        invariant
            i <= pieces@.len(),
            views(pieces@) == split(v@, '/'),
            views(r@) == nonempty_pieces(views(pieces@).take(i as int)),
        decreases pieces.len() - i,
    {
        let ghost pre = views(pieces@).take(i as int);
        let ghost next = views(pieces@).take(i + 1);
        assert(next.drop_last() =~= pre);
        assert(next.last() == pieces@[i as int]@);
        if pieces[i].len() > 0 {
            let ghost old_r = r@;
            r.push(copy_range(pieces[i].as_slice(), 0, pieces[i].len()));
            assert(pieces@[i as int]@.subrange(0, pieces@[i as int]@.len() as int) =~= pieces@[i as int]@);
            assert(views(r@) =~= views(old_r).push(pieces@[i as int]@));
        }
        i = i + 1;
    }
    assert(views(pieces@).take(pieces@.len() as int) =~= views(pieces@));
    r
}

fn is_dot(p: &[char]) -> (r: bool)
    ensures
        r == (p@ == "."@),
{
    let d = chars_of(".");
    chars_eq(p, d.as_slice())
}

fn is_dot_dot(p: &[char]) -> (r: bool)
    ensures
        r == (p@ == ".."@),
{
    let d = chars_of("..");
    chars_eq(p, d.as_slice())
}

/// Turns a relative or absolute `target` into a normalised absolute path
/// from the directory `cwd`: `.` and empty names are dropped, `..` goes up
/// (never above `/`).
pub fn resolve(cwd: &str, target: &str) -> (r: String)
    ensures
        r@ == resolve_spec(cwd@, target@),
{
    let tv = chars_of(target);
    let cv = chars_of(cwd);
    let mut stack: Vec<Vec<char>> = if tv.len() > 0 && tv[0] == '/' {
        Vec::new()
    } else {
        split_path(cv.as_slice())
    };
    let ghost start = views(stack@);
    assert(start =~= (if target@.len() > 0 && target@[0] == '/' { seq![] } else { components(cwd@) }));
    let pieces = split_chars(tv.as_slice(), '/');
    let mut i: usize = 0;
    assert(views(pieces@).take(0) =~= seq![]);
    while i < pieces.len()
        invariant
            i <= pieces@.len(),
            views(pieces@) == split(target@, '/'),
            views(stack@) == path_steps(start, views(pieces@).take(i as int)),
        decreases pieces.len() - i,
    {
        let ghost pre = views(pieces@).take(i as int);
        let ghost next = views(pieces@).take(i + 1);
        assert(next.drop_last() =~= pre);
        assert(next.last() == pieces@[i as int]@);
        let p = pieces[i].as_slice();
        let ghost old_s = stack@;
        if p.len() == 0 || is_dot(p) {
        } else if is_dot_dot(p) {
            if stack.len() > 0 {
                stack.pop();
                assert(views(stack@) =~= views(old_s).drop_last());
            }
        } else {
            stack.push(copy_range(p, 0, p.len()));
            assert(p@.subrange(0, p@.len() as int) =~= p@);
            assert(views(stack@) =~= views(old_s).push(p@));
        }
        i = i + 1;
    }
    assert(views(pieces@).take(pieces@.len() as int) =~= views(pieces@));
    let mut out: Vec<char> = Vec::new();
    out.push('/');
    let mut k: usize = 0;
    assert(views(stack@).take(0) =~= seq![]);
    assert(out@ =~= seq!['/'] + join_names(views(stack@).take(0)));
    while k < stack.len()
        invariant
            k <= stack@.len(),
            out@ == seq!['/'] + join_names(views(stack@).take(k as int)),
        decreases stack.len() - k,
    {
        let ghost pre = views(stack@).take(k as int);
        let ghost next = views(stack@).take(k + 1);
        assert(next.drop_last() =~= pre);
        assert(next.last() == stack@[k as int]@);
        let ghost old_out = out@;
        if k > 0 {
            out.push('/');
        }
        let name = stack[k].as_slice();
        let mut j: usize = 0;
        let ghost mid = out@;
        while j < name.len()
            invariant
                j <= name@.len(),
                out@ == mid + name@.take(j as int),
            decreases name.len() - j,
        {
            out.push(name[j]);
            assert(name@.take(j + 1) =~= name@.take(j as int).push(name@[j as int]));
            j = j + 1;
        }
        assert(name@.take(name@.len() as int) =~= name@);
        if k == 0 {
            assert(out@ =~= seq!['/'] + join_names(next));
        } else {
            assert(out@ =~= seq!['/'] + join_names(next));
        }
        k = k + 1;
    }
    assert(views(stack@).take(stack@.len() as int) =~= views(stack@));
    string_of(out.as_slice())
}

/// An owned copy of a message.
pub fn message(lit: &str) -> (r: String)
    ensures
        r@ == lit@,
{
    lit.to_owned()
}

/// Position of the first entry of `ch` called `name`.
fn child_pos(ch: &Vec<(String, Node)>, name: &[char]) -> (r: Option<usize>)
    ensures
        match child_index(entries_of(ch@), name@) {
            Some(i) => r is Some && r->0 == i,
            None => r is None,
        },
{
    proof {
        lemma_entries_of(ch@);
        lemma_child_index(entries_of(ch@), name@);
    }
    let mut i: usize = 0;
    while i < ch.len()
        invariant
            i <= ch@.len(),
            entries_of(ch@).len() == ch@.len(),
            forall|j: int| 0 <= j < i ==> ch@[j].0@ != name@,
        decreases ch.len() - i,
    {
        let n = chars_of(ch[i].0.as_str());
        if chars_eq(n.as_slice(), name) {
            proof {
                lemma_entries_of(ch@);
                lemma_child_index(entries_of(ch@), name@);
                assert(entries_of(ch@)[i as int].0 == name@);
                assert forall|j: int| 0 <= j < i implies entries_of(ch@)[j].0 != name@ by {
                    assert(entries_of(ch@)[j].0 == ch@[j].0@);
                }
            }
            return Some(i);
        }
        i = i + 1;
    }
    proof {
        lemma_entries_of(ch@);
        lemma_child_index(entries_of(ch@), name@);
        assert forall|j: int| 0 <= j < ch@.len() implies entries_of(ch@)[j].0 != name@ by {
            assert(entries_of(ch@)[j].0 == ch@[j].0@);
        }
    }
    None
}

/// The node that `parts` leads to from `node`.
fn find_node<'a>(node: &'a Node, parts: &[Vec<char>]) -> (r: Option<&'a Node>)
    ensures
        match find_tree(tree_of(*node), views(parts@)) {
            Some(t) => r is Some && tree_of(*r->0) == t,
            None => r is None,
        },
    decreases parts.len(),
{
    if parts.len() == 0 {
        return Some(node);
    }
    assert(views(parts@).len() == parts@.len());
    assert(views(parts@)[0] == parts@[0]@);
    match node {
        Node::File(b) => {
            assert(tree_of(*node) == Tree::File(b@));
            assert(find_tree(Tree::File(b@), views(parts@)) is None);
            None
        },
        Node::Dir(ch) => {
            assert(tree_of(*node) == Tree::Dir(entries_of(ch@)));
            proof {
                lemma_entries_of(ch@);
                lemma_child_index(entries_of(ch@), parts@[0]@);
            }
            let first = parts[0].as_slice();
            assert(first@ == parts@[0]@);
            match child_pos(ch, first) {
                Some(i) => {
                    let rest = &parts[1..parts.len()];
                    assert(views(rest@) =~= views(parts@).drop_first());
                    assert(entries_of(ch@)[i as int].1 == tree_of(ch@[i as int].1));
                    assert(child_index(entries_of(ch@), views(parts@)[0]) == Some(i as int));
                    assert(find_tree(tree_of(*node), views(parts@)) == find_tree(tree_of(ch@[i as int].1), views(rest@)));
                    find_node(&ch[i].1, rest)
                },
                None => {
                    assert(find_tree(tree_of(*node), views(parts@)) is None);
                    None
                },
            }
        },
    }
}

/// What `list` gives for an entry: its name, with `/` after a directory's.
pub open spec fn listed_name(e: (Seq<char>, Tree)) -> Seq<char> {
    match e.1 {
        Tree::Dir(_) => e.0.push('/'),
        Tree::File(_) => e.0,
    }
}

pub open spec fn listed_names(ch: Seq<(Seq<char>, Tree)>) -> Seq<Seq<char>> {
    ch.map_values(|e: (Seq<char>, Tree)| listed_name(e))
}

pub open spec fn str_views(v: Seq<String>) -> Seq<Seq<char>> {
    v.map_values(|s: String| s@)
}

/// Sorts names in text order (selection sort).
fn sort_names(names: Vec<String>) -> (r: Vec<String>)
    ensures
        vstd::relations::sorted_by(str_views(r@), text_order()),
        str_views(r@).to_multiset() == str_views(names@).to_multiset(),
{
    broadcast use vstd::seq_lib::group_to_multiset_ensures;
    proof { crate::strings::law_text_order_total(); }
    let mut rest = names;
    let mut out: Vec<String> = Vec::new();
    let ghost all = str_views(rest@).to_multiset();
    assert(str_views(out@) =~= seq![]);
    while rest.len() > 0
        invariant
            vstd::relations::total_ordering(text_order()),
            vstd::relations::sorted_by(str_views(out@), text_order()),
            forall|i: int, j: int| 0 <= i < out@.len() && 0 <= j < rest@.len() ==> text_le(
                #[trigger] out@[i]@, #[trigger] rest@[j]@),
            str_views(out@).to_multiset().add(str_views(rest@).to_multiset()) == all,
        decreases rest.len(),
    {
        let mut m: usize = 0;
        let mut j: usize = 1;
        let mv = chars_of(rest[0].as_str());
        let mut best = mv;
        assert(text_order()(best@, best@));
        while j < rest.len()
            invariant
                1 <= j <= rest@.len(),
                m < rest@.len(),
                best@ == rest@[m as int]@,
                vstd::relations::total_ordering(text_order()),
                forall|k: int| 0 <= k < j ==> text_le(best@, #[trigger] rest@[k]@),
            decreases rest.len() - j,
        {
            let cv = chars_of(rest[j].as_str());
            if !text_le_chars(best.as_slice(), cv.as_slice()) {
                proof {
                    assert(text_order()(cv@, best@) || text_order()(best@, cv@));
                    assert forall|k: int| 0 <= k < j + 1 implies text_le(cv@, #[trigger] rest@[k]@) by {
                        if k < j {
                            assert(text_order()(cv@, best@) && text_order()(best@, rest@[k]@));
                        } else {
                            assert(text_order()(cv@, cv@));
                        }
                    }
                }
                m = j;
                best = cv;
            } else {
                proof {
                    assert(text_order()(best@, cv@));
                }
            }
            j = j + 1;
        }
        let ghost old_rest = rest@;
        let ghost old_out = out@;
        let x = rest.remove(m);
        proof {
            assert(str_views(rest@) =~= str_views(old_rest).remove(m as int));
            assert(str_views(old_rest)[m as int] == x@);
        }
        out.push(x);
        proof {
            assert(str_views(out@) =~= str_views(old_out).push(x@));
            str_views(old_out).to_multiset_ensures();
            str_views(old_rest).to_multiset_ensures();
            assert(str_views(old_out).push(x@).to_multiset() == str_views(old_out).to_multiset().insert(x@));
            assert(str_views(old_rest).remove(m as int).to_multiset() == str_views(old_rest).to_multiset().remove(str_views(old_rest)[m as int]));
            assert(str_views(out@).to_multiset() == str_views(old_out).to_multiset().insert(x@));
            assert(str_views(rest@).to_multiset() == str_views(old_rest).to_multiset().remove(x@));
            assert(str_views(old_rest).to_multiset().count(x@) > 0) by {
                assert(str_views(old_rest).contains(x@));
            }
            assert(str_views(out@).to_multiset().add(str_views(rest@).to_multiset())
                =~= str_views(old_out).to_multiset().add(str_views(old_rest).to_multiset()));
            assert forall|a: int, b: int| 0 <= a < b < str_views(out@).len() implies #[trigger] text_order()(
                str_views(out@)[a], str_views(out@)[b]) by {
                if b == out@.len() - 1 {
                    assert(text_le(old_out[a]@, old_rest[m as int]@));
                } else {
                    assert(text_order()(str_views(old_out)[a], str_views(old_out)[b]));
                }
            }
            assert forall|a: int, b: int| 0 <= a < out@.len() && 0 <= b < rest@.len() implies text_le(
                #[trigger] out@[a]@, #[trigger] rest@[b]@) by {
                let ob = if b < m { b } else { b + 1 };
                assert(rest@[b] == old_rest[ob]);
                if a == out@.len() - 1 {
                    assert(text_le(best@, old_rest[ob]@));
                } else {
                    assert(out@[a] == old_out[a]);
                }
            }
        }
    }
    assert(str_views(rest@) =~= seq![]);
    assert(str_views(rest@).to_multiset() =~= vstd::multiset::Multiset::empty());
    assert(str_views(out@).to_multiset() =~= all);
    out
}

/// The directory at `path` lists its entries, sorted, with `/` after each
/// directory's name.
pub open spec fn list_ok(r: Vec<String>, ch: Seq<(Seq<char>, Tree)>) -> bool {
    &&& vstd::relations::sorted_by(str_views(r@), text_order())
    &&& str_views(r@).to_multiset() == listed_names(ch).to_multiset()
    &&& str_views(r@) == listed_names(ch).sort_by(text_order())
}

/// Lists the directory at `path` (an absolute path).
pub fn list(root: &Node, path: &str) -> (r: Result<Vec<String>, String>)
    ensures
        match find_tree(tree_of(*root), components(path@)) {
            Some(Tree::Dir(ch)) => r is Ok && list_ok(r->Ok_0, ch),
            Some(Tree::File(_)) => r is Err && r->Err_0@ == "not a directory"@,
            None => r is Err && r->Err_0@ == "no such file or directory"@,
        },
{
    let pv = chars_of(path);
    let parts = split_path(pv.as_slice());
    match find_node(root, parts.as_slice()) {
        Some(Node::Dir(children)) => {
            proof { lemma_entries_of(children@); }
            let ghost ch = entries_of(children@);
            let mut names: Vec<String> = Vec::new();
            let mut i: usize = 0;
            while i < children.len()
                invariant
                    i <= children@.len(),
                    ch == entries_of(children@),
                    ch.len() == children@.len(),
                    forall|j: int| 0 <= j < children@.len() ==> #[trigger] ch[j] == (children@[j].0@, tree_of(children@[j].1)),
                    str_views(names@) =~= listed_names(ch).take(i as int),
                decreases children.len() - i,
            {
                let mut name = children[i].0.clone();
                assert(ch[i as int] == (children@[i as int].0@, tree_of(children@[i as int].1)));
                match &children[i].1 {
                    Node::Dir(sub) => {
                        push_char(&mut name, '/');
                        assert(tree_of(children@[i as int].1) == Tree::Dir(entries_of(sub@)));
                    },
                    Node::File(b) => {
                        assert(tree_of(children@[i as int].1) == Tree::File(b@));
                    },
                }
                assert(listed_names(ch)[i as int] == name@);
                let ghost old_n = names@;
                names.push(name);
                assert(str_views(names@) =~= str_views(old_n).push(name@));
                i = i + 1;
            }
            assert(listed_names(ch).take(ch.len() as int) =~= listed_names(ch));
            assert(tree_of(Node::Dir(*children)) == Tree::Dir(ch));
            let sorted = sort_names(names);
            proof {
                crate::strings::law_text_order_total();
                listed_names(ch).lemma_sort_by_ensures(text_order());
                vstd::seq_lib::lemma_sorted_unique(str_views(sorted@), listed_names(ch).sort_by(text_order()), text_order());
            }
            Ok(sorted)
        },
        Some(Node::File(_)) => Err(message("not a directory")),
        None => Err(message("no such file or directory")),
    }
}

/// The contents of the file at `path`.
pub fn read(root: &Node, path: &str) -> (r: Result<Vec<u8>, String>)
    ensures
        match find_tree(tree_of(*root), components(path@)) {
            Some(Tree::File(bytes)) => r is Ok && r->Ok_0@ == bytes,
            Some(Tree::Dir(_)) => r is Err && r->Err_0@ == "is a directory"@,
            None => r is Err && r->Err_0@ == "no such file or directory"@,
        },
{
    let pv = chars_of(path);
    let parts = split_path(pv.as_slice());
    match find_node(root, parts.as_slice()) {
        Some(Node::File(content)) => {
            let c = content.clone();
            assert(c@ =~= content@);
            Ok(c)
        },
        Some(Node::Dir(_)) => Err(message("is a directory")),
        None => Err(message("no such file or directory")),
    }
}

/// Whether `path` names a directory.
pub fn is_dir(root: &Node, path: &str) -> (r: bool)
    ensures
        r == (find_tree(tree_of(*root), components(path@)) matches Some(Tree::Dir(_))),
{
    let pv = chars_of(path);
    let parts = split_path(pv.as_slice());
    match find_node(root, parts.as_slice()) {
        Some(Node::Dir(_)) => true,
        _ => false,
    }
}

/// A change to one directory's entries.
#[derive(Clone, Copy, Debug, PartialEq, Eq, Structural)]
pub enum EditKind {
    /// Remove the first entry with the name.
    Remove,
    /// Add an empty directory with the name, unless the name is taken.
    MakeDir,
    /// Add an empty file with the name, unless the name is taken.
    MakeFile,
}

/// How an edit went.
#[derive(Clone, Copy, Debug, PartialEq, Eq, Structural)]
pub enum Outcome {
    Done,
    /// The directory to change does not exist (or a file stands in the way).
    MissingParent,
    /// Nothing to remove under that name.
    NotFound,
    /// The name to create is taken.
    Exists,
    /// The name to write names a directory.
    IsDirectory,
}

/// An edit applied to a directory's entries.
pub open spec fn edit_entries(ch: Seq<(Seq<char>, Tree)>, kind: EditKind, name: Seq<char>) -> (
    Seq<(Seq<char>, Tree)>,
    Outcome,
) {
    match kind {
        EditKind::Remove => match child_index(ch, name) {
            Some(i) => (ch.remove(i), Outcome::Done),
            None => (ch, Outcome::NotFound),
        },
        EditKind::MakeDir => if child_index(ch, name) is Some {
            (ch, Outcome::Exists)
        } else {
            (ch.push((name, Tree::Dir(seq![]))), Outcome::Done)
        },
        EditKind::MakeFile => if child_index(ch, name) is Some {
            (ch, Outcome::Exists)
        } else {
            (ch.push((name, Tree::File(seq![]))), Outcome::Done)
        },
    }
}

/// An edit applied to the directory at `dirs` below `t`.
pub open spec fn edit_tree(t: Tree, dirs: Seq<Seq<char>>, kind: EditKind, name: Seq<char>) -> (Tree, Outcome)
    decreases dirs.len(),
{
    match t {
        Tree::File(_) => (t, Outcome::MissingParent),
        Tree::Dir(ch) => if dirs.len() == 0 {
            let (nch, o) = edit_entries(ch, kind, name);
            (Tree::Dir(nch), o)
        } else {
            match child_index(ch, dirs[0]) {
                None => (t, Outcome::MissingParent),
                Some(i) => {
                    let (sub, o) = edit_tree(ch[i].1, dirs.drop_first(), kind, name);
                    (Tree::Dir(ch.update(i, (ch[i].0, sub))), o)
                },
            }
        },
    }
}

fn edit_children(ch: &mut Vec<(String, Node)>, kind: EditKind, name: &[char]) -> (o: Outcome)
    ensures
        (entries_of(final(ch)@), o) == edit_entries(entries_of(old(ch)@), kind, name@),
{
    proof {
        lemma_entries_of(old(ch)@);
    }
    let pos = child_pos(ch, name);
    proof { lemma_child_index(entries_of(old(ch)@), name@); }
    match kind {
        EditKind::Remove => match pos {
            Some(i) => {
                ch.remove(i);
                proof {
                    lemma_entries_of(ch@);
                    assert(entries_of(ch@) =~= entries_of(old(ch)@).remove(i as int));
                }
                Outcome::Done
            },
            None => Outcome::NotFound,
        },
        EditKind::MakeDir => {
            if pos.is_some() {
                Outcome::Exists
            } else {
                let s = string_of(name);
                ch.push((s, Node::Dir(Vec::new())));
                proof {
                    lemma_entries_of(ch@);
                    assert(entries_of(Seq::<(String, Node)>::empty()) =~= seq![]);
                    assert(entries_of(ch@) =~= entries_of(old(ch)@).push((name@, Tree::Dir(seq![]))));
                }
                Outcome::Done
            }
        },
        EditKind::MakeFile => {
            if pos.is_some() {
                Outcome::Exists
            } else {
                let s = string_of(name);
                ch.push((s, Node::File(Vec::new())));
                proof {
                    lemma_entries_of(ch@);
                    assert(entries_of(ch@) =~= entries_of(old(ch)@).push((name@, Tree::File(seq![]))));
                }
                Outcome::Done
            }
        },
    }
}

/// Applies an edit to the directory that `dirs` leads to below `node`.
fn edit(node: &mut Node, dirs: &[Vec<char>], kind: EditKind, name: &[char]) -> (o: Outcome)
    ensures
        (tree_of(*final(node)), o) == edit_tree(tree_of(*old(node)), views(dirs@), kind, name@),
    decreases dirs.len(),
{
    let mut tmp = Node::File(Vec::new());
    std::mem::swap(&mut tmp, node);
    match tmp {
        Node::File(b) => {
            *node = Node::File(b);
            Outcome::MissingParent
        },
        Node::Dir(mut ch) => {
            if dirs.len() == 0 {
                let o = edit_children(&mut ch, kind, name);
                *node = Node::Dir(ch);
                o
            } else {
                proof {
                    lemma_entries_of(ch@);
                    lemma_child_index(entries_of(ch@), dirs@[0]@);
                }
                assert(views(dirs@)[0] == dirs@[0]@);
                let first = dirs[0].as_slice();
                match child_pos(&ch, first) {
                    None => {
                        *node = Node::Dir(ch);
                        Outcome::MissingParent
                    },
                    Some(i) => {
                        let ghost old_ch = ch@;
                        let (cname, mut sub) = ch.remove(i);
                        let rest = &dirs[1..dirs.len()];
                        assert(views(rest@) =~= views(dirs@).drop_first());
                        let o = edit(&mut sub, rest, kind, name);
                        ch.insert(i, (cname, sub));
                        proof {
                            lemma_entries_of(ch@);
                            lemma_entries_of(old_ch);
                            let oe = entries_of(old_ch);
                            assert(entries_of(ch@) =~= oe.update(i as int, (oe[i as int].0, tree_of(sub))));
                        }
                        *node = Node::Dir(ch);
                        o
                    },
                }
            }
        },
    }
}

/// The directories above the last name of a path.
pub open spec fn dirs_of(path: Seq<char>) -> Seq<Seq<char>> {
    components(path).drop_last()
}

/// The last name of a path.
pub open spec fn last_name(path: Seq<char>) -> Seq<char> {
    components(path).last()
}

/// `path` after `kind` on the tree.
pub open spec fn edit_at(t: Tree, path: Seq<char>, kind: EditKind) -> (Tree, Outcome) {
    edit_tree(t, dirs_of(path), kind, last_name(path))
}

/// Runs an edit of the entry at `path`: (outcome, and `None` if the path
/// names the root).
fn edit_path(root: &mut Node, path: &str, kind: EditKind) -> (o: Option<Outcome>)
    ensures
        components(path@).len() == 0 ==> o is None && *final(root) == *old(root),
        components(path@).len() > 0 ==> o is Some
            && (tree_of(*final(root)), o->0) == edit_at(tree_of(*old(root)), path@, kind),
{
    let pv = chars_of(path);
    let parts = split_path(pv.as_slice());
    if parts.len() == 0 {
        return None;
    }
    let n = parts.len();
    let last = parts[n - 1].as_slice();
    let dirs = &parts.as_slice()[0..n - 1];
    proof {
        assert(views(dirs@) =~= views(parts@).drop_last());
        assert(last@ == views(parts@).last());
    }
    Some(edit(root, dirs, kind, last))
}

/// Removes the entry at `path`.
pub fn remove(root: &mut Node, path: &str) -> (r: Result<(), String>)
    ensures
        components(path@).len() == 0 ==> *final(root) == *old(root) && r is Err && r->Err_0@
            == "cannot remove root"@,
        components(path@).len() > 0 ==> {
            let (t, o) = edit_at(tree_of(*old(root)), path@, EditKind::Remove);
            &&& tree_of(*final(root)) == t
            &&& o == Outcome::Done ==> r is Ok
            &&& o != Outcome::Done ==> r is Err && r->Err_0@ == "no such file or directory"@
        },
{
    match edit_path(root, path, EditKind::Remove) {
        None => Err(message("cannot remove root")),
        Some(Outcome::Done) => Ok(()),
        Some(_) => Err(message("no such file or directory")),
    }
}

proof fn lemma_create_outcomes(t: Tree, dirs: Seq<Seq<char>>, kind: EditKind, name: Seq<char>)
    requires
        kind != EditKind::Remove,
    ensures
        edit_tree(t, dirs, kind, name).1 != Outcome::NotFound,
        edit_tree(t, dirs, kind, name).1 != Outcome::IsDirectory,
    decreases dirs.len(),
{
    match t {
        Tree::File(_) => {},
        Tree::Dir(ch) => {
            if dirs.len() > 0 {
                match child_index(ch, dirs[0]) {
                    None => {},
                    Some(i) => lemma_create_outcomes(ch[i].1, dirs.drop_first(), kind, name),
                }
            }
        },
    }
}

/// Creates an empty entry (a directory or a file) at `path`.
fn make_entry(root: &mut Node, path: &str, kind: EditKind) -> (r: Result<(), String>)
    requires
        kind != EditKind::Remove,
    ensures
        components(path@).len() == 0 ==> *final(root) == *old(root) && r is Err && r->Err_0@
            == "cannot create root"@,
        components(path@).len() > 0 ==> {
            let (t, o) = edit_at(tree_of(*old(root)), path@, kind);
            &&& tree_of(*final(root)) == t
            &&& o == Outcome::Done ==> r is Ok
            &&& o == Outcome::MissingParent ==> r is Err && r->Err_0@ == "no such parent directory"@
            &&& o == Outcome::Exists ==> r is Err && r->Err_0@ == "already exists"@
            &&& o != Outcome::NotFound
            &&& o != Outcome::IsDirectory
        },
{
    proof {
        if components(path@).len() > 0 {
            lemma_create_outcomes(tree_of(*old(root)), dirs_of(path@), kind, last_name(path@));
        }
    }
    match edit_path(root, path, kind) {
        None => Err(message("cannot create root")),
        Some(Outcome::Done) => Ok(()),
        Some(Outcome::Exists) => Err(message("already exists")),
        Some(_) => Err(message("no such parent directory")),
    }
}

/// Creates an empty directory at `path`.
pub fn make_dir(root: &mut Node, path: &str) -> (r: Result<(), String>)
    ensures
        components(path@).len() == 0 ==> *final(root) == *old(root) && r is Err && r->Err_0@
            == "cannot create root"@,
        components(path@).len() > 0 ==> {
            let (t, o) = edit_at(tree_of(*old(root)), path@, EditKind::MakeDir);
            &&& tree_of(*final(root)) == t
            &&& o == Outcome::Done ==> r is Ok
            &&& o == Outcome::MissingParent ==> r is Err && r->Err_0@ == "no such parent directory"@
            &&& o == Outcome::Exists ==> r is Err && r->Err_0@ == "already exists"@
            &&& o != Outcome::NotFound
            &&& o != Outcome::IsDirectory
        },
{
    make_entry(root, path, EditKind::MakeDir)
}

/// Creates an empty file at `path`.
pub fn make_file(root: &mut Node, path: &str) -> (r: Result<(), String>)
    ensures
        components(path@).len() == 0 ==> *final(root) == *old(root) && r is Err && r->Err_0@
            == "cannot create root"@,
        components(path@).len() > 0 ==> {
            let (t, o) = edit_at(tree_of(*old(root)), path@, EditKind::MakeFile);
            &&& tree_of(*final(root)) == t
            &&& o == Outcome::Done ==> r is Ok
            &&& o == Outcome::MissingParent ==> r is Err && r->Err_0@ == "no such parent directory"@
            &&& o == Outcome::Exists ==> r is Err && r->Err_0@ == "already exists"@
            &&& o != Outcome::NotFound
            &&& o != Outcome::IsDirectory
        },
{
    make_entry(root, path, EditKind::MakeFile)
}

/// The entries after writing `content` to the file `name`: an existing
/// file gets the new content, a missing one is created with it, and a
/// directory of that name is left alone.
pub open spec fn write_entries(ch: Seq<(Seq<char>, Tree)>, name: Seq<char>, content: Seq<u8>) -> (
    Seq<(Seq<char>, Tree)>,
    Outcome,
) {
    match child_index(ch, name) {
        Some(i) => match ch[i].1 {
            Tree::File(_) => (ch.update(i, (ch[i].0, Tree::File(content))), Outcome::Done),
            Tree::Dir(_) => (ch, Outcome::IsDirectory),
        },
        None => (ch.push((name, Tree::File(content))), Outcome::Done),
    }
}

/// A write applied in the directory at `dirs` below `t`.
pub open spec fn write_tree(t: Tree, dirs: Seq<Seq<char>>, name: Seq<char>, content: Seq<u8>) -> (Tree, Outcome)
    decreases dirs.len(),
{
    match t {
        Tree::File(_) => (t, Outcome::MissingParent),
        Tree::Dir(ch) => if dirs.len() == 0 {
            let (nch, o) = write_entries(ch, name, content);
            (Tree::Dir(nch), o)
        } else {
            match child_index(ch, dirs[0]) {
                None => (t, Outcome::MissingParent),
                Some(i) => {
                    let (sub, o) = write_tree(ch[i].1, dirs.drop_first(), name, content);
                    (Tree::Dir(ch.update(i, (ch[i].0, sub))), o)
                },
            }
        },
    }
}

fn write_children(ch: &mut Vec<(String, Node)>, name: &[char], content: &[u8]) -> (o: Outcome)
    ensures
        (entries_of(final(ch)@), o) == write_entries(entries_of(old(ch)@), name@, content@),
{
    proof {
        lemma_entries_of(old(ch)@);
        lemma_child_index(entries_of(old(ch)@), name@);
    }
    match child_pos(ch, name) {
        Some(i) => {
            assert(entries_of(ch@)[i as int] == (ch@[i as int].0@, tree_of(ch@[i as int].1)));
            let is_file = match &ch[i].1 {
                Node::File(_) => true,
                Node::Dir(_) => false,
            };
            if is_file {
                let ghost old_ch = ch@;
                let (cname, _) = ch.remove(i);
                let bytes = vstd::slice::slice_to_vec(content);
                ch.insert(i, (cname, Node::File(bytes)));
                proof {
                    lemma_entries_of(ch@);
                    lemma_entries_of(old_ch);
                    let oe = entries_of(old_ch);
                    assert(entries_of(ch@) =~= oe.update(i as int, (oe[i as int].0, Tree::File(content@))));
                }
                Outcome::Done
            } else {
                Outcome::IsDirectory
            }
        },
        None => {
            let s = string_of(name);
            let bytes = vstd::slice::slice_to_vec(content);
            ch.push((s, Node::File(bytes)));
            proof {
                lemma_entries_of(ch@);
                assert(entries_of(ch@) =~= entries_of(old(ch)@).push((name@, Tree::File(content@))));
            }
            Outcome::Done
        },
    }
}

fn write_node(node: &mut Node, dirs: &[Vec<char>], name: &[char], content: &[u8]) -> (o: Outcome)
    ensures
        (tree_of(*final(node)), o) == write_tree(tree_of(*old(node)), views(dirs@), name@, content@),
    decreases dirs.len(),
{
    let mut tmp = Node::File(Vec::new());
    std::mem::swap(&mut tmp, node);
    match tmp {
        Node::File(b) => {
            *node = Node::File(b);
            Outcome::MissingParent
        },
        Node::Dir(mut ch) => {
            if dirs.len() == 0 {
                let o = write_children(&mut ch, name, content);
                *node = Node::Dir(ch);
                o
            } else {
                proof {
                    lemma_entries_of(ch@);
                    lemma_child_index(entries_of(ch@), dirs@[0]@);
                }
                assert(views(dirs@)[0] == dirs@[0]@);
                let first = dirs[0].as_slice();
                match child_pos(&ch, first) {
                    None => {
                        *node = Node::Dir(ch);
                        Outcome::MissingParent
                    },
                    Some(i) => {
                        let ghost old_ch = ch@;
                        let (cname, mut sub) = ch.remove(i);
                        let rest = &dirs[1..dirs.len()];
                        assert(views(rest@) =~= views(dirs@).drop_first());
                        let o = write_node(&mut sub, rest, name, content);
                        ch.insert(i, (cname, sub));
                        proof {
                            lemma_entries_of(ch@);
                            lemma_entries_of(old_ch);
                            let oe = entries_of(old_ch);
                            assert(entries_of(ch@) =~= oe.update(i as int, (oe[i as int].0, tree_of(sub))));
                        }
                        *node = Node::Dir(ch);
                        o
                    },
                }
            }
        },
    }
}

/// Writes `content` to the file at `path`, creating the file if its
/// directory exists and it does not.
pub fn write(root: &mut Node, path: &str, content: &[u8]) -> (r: Result<(), String>)
    ensures
        components(path@).len() == 0 ==> *final(root) == *old(root) && r is Err && r->Err_0@
            == "cannot write root"@,
        components(path@).len() > 0 ==> {
            let (t, o) = write_tree(tree_of(*old(root)), dirs_of(path@), last_name(path@), content@);
            &&& tree_of(*final(root)) == t
            &&& o == Outcome::Done ==> r is Ok
            &&& o == Outcome::MissingParent ==> r is Err && r->Err_0@ == "no such parent directory"@
            &&& o == Outcome::IsDirectory ==> r is Err && r->Err_0@ == "is a directory"@
            &&& o == Outcome::Done || o == Outcome::MissingParent || o == Outcome::IsDirectory
        },
{
    let pv = chars_of(path);
    let parts = split_path(pv.as_slice());
    if parts.len() == 0 {
        return Err(message("cannot write root"));
    }
    let n = parts.len();
    let last = parts[n - 1].as_slice();
    let dirs = &parts.as_slice()[0..n - 1];
    proof {
        assert(views(dirs@) =~= views(parts@).drop_last());
        assert(last@ == views(parts@).last());
        lemma_write_outcomes(tree_of(*root), views(dirs@), last@, content@);
    }
    match write_node(root, dirs, last, content) {
        Outcome::Done => Ok(()),
        Outcome::IsDirectory => Err(message("is a directory")),
        _ => Err(message("no such parent directory")),
    }
}

proof fn lemma_write_outcomes(t: Tree, dirs: Seq<Seq<char>>, name: Seq<char>, content: Seq<u8>)
    ensures
        ({
            let o = write_tree(t, dirs, name, content).1;
            o == Outcome::Done || o == Outcome::MissingParent || o == Outcome::IsDirectory
        }),
    decreases dirs.len(),
{
    match t {
        Tree::File(_) => {},
        Tree::Dir(ch) => {
            if dirs.len() > 0 {
                match child_index(ch, dirs[0]) {
                    None => {},
                    Some(i) => lemma_write_outcomes(ch[i].1, dirs.drop_first(), name, content),
                }
            }
        },
    }
}

proof fn lemma_write_found(t: Tree, dirs: Seq<Seq<char>>, name: Seq<char>, content: Seq<u8>)
    requires
        write_tree(t, dirs, name, content).1 == Outcome::Done,
    ensures
        find_tree(write_tree(t, dirs, name, content).0, dirs.push(name)) == Some(Tree::File(content)),
    decreases dirs.len(),
{
    let parts = dirs.push(name);
    match t {
        Tree::File(_) => {
            assert(write_tree(t, dirs, name, content).1 == Outcome::MissingParent);
        },
        Tree::Dir(ch) => {
            assert(parts[0] == if dirs.len() == 0 { name } else { dirs[0] });
            if dirs.len() == 0 {
                assert(parts.drop_first() =~= seq![]);
                match child_index(ch, name) {
                    Some(i) => {
                        lemma_child_index(ch, name);
                        let nch = ch.update(i, (ch[i].0, Tree::File(content)));
                        lemma_child_index_names(nch, ch, name);
                        assert(write_tree(t, dirs, name, content).0 == Tree::Dir(nch));
                        assert(nch[i].1 == Tree::File(content));
                        assert(find_tree(Tree::Dir(nch), parts) == find_tree(Tree::File(content), parts.drop_first()));
                    },
                    None => {
                        lemma_child_index_push(ch, (name, Tree::File(content)));
                        let nch = ch.push((name, Tree::File(content)));
                        assert(write_tree(t, dirs, name, content).0 == Tree::Dir(nch));
                        assert(nch[ch.len() as int].1 == Tree::File(content));
                        assert(find_tree(Tree::Dir(nch), parts) == find_tree(Tree::File(content), parts.drop_first()));
                    },
                }
            } else {
                let i = child_index(ch, dirs[0])->0;
                lemma_child_index(ch, dirs[0]);
                let sub = write_tree(ch[i].1, dirs.drop_first(), name, content).0;
                let nch = ch.update(i, (ch[i].0, sub));
                lemma_child_index_names(nch, ch, dirs[0]);
                assert(parts.drop_first() =~= dirs.drop_first().push(name));
                lemma_write_found(ch[i].1, dirs.drop_first(), name, content);
                assert(write_tree(t, dirs, name, content).0 == Tree::Dir(nch));
                assert(nch[i].1 == sub);
                assert(find_tree(Tree::Dir(nch), parts) == find_tree(sub, parts.drop_first()));
            }
        },
    }
}

proof fn lemma_write_unique(t: Tree, dirs: Seq<Seq<char>>, name: Seq<char>, content: Seq<u8>)
    requires
        unique_names(t),
    ensures
        unique_names(write_tree(t, dirs, name, content).0),
    decreases dirs.len(),
{
    match t {
        Tree::File(_) => {},
        Tree::Dir(ch) => {
            lemma_child_index(ch, if dirs.len() == 0 { name } else { dirs[0] });
            if dirs.len() == 0 {
                let nch = write_entries(ch, name, content).0;
                match child_index(ch, name) {
                    Some(i) => {
                        assert forall|a: int, b: int| 0 <= a < b < nch.len() implies nch[a].0 != nch[b].0 by {
                            assert(nch[a].0 == ch[a].0 && nch[b].0 == ch[b].0);
                        }
                        assert forall|a: int| 0 <= a < nch.len() implies unique_names(#[trigger] nch[a].1) by {
                            if a != i || ch[i].1 is Dir {
                                assert(nch[a] == ch[a]);
                            }
                        }
                    },
                    None => {
                        assert forall|a: int, b: int| 0 <= a < b < nch.len() implies nch[a].0 != nch[b].0 by {
                            if b == ch.len() {
                                assert(nch[a] == ch[a]);
                            } else {
                                assert(nch[a] == ch[a] && nch[b] == ch[b]);
                            }
                        }
                        assert forall|a: int| 0 <= a < nch.len() implies unique_names(#[trigger] nch[a].1) by {
                            if a < ch.len() {
                                assert(nch[a] == ch[a]);
                            }
                        }
                    },
                }
            } else {
                if child_index(ch, dirs[0]) is Some {
                    let i = child_index(ch, dirs[0])->0;
                    lemma_write_unique(ch[i].1, dirs.drop_first(), name, content);
                    let sub = write_tree(ch[i].1, dirs.drop_first(), name, content).0;
                    let nch = ch.update(i, (ch[i].0, sub));
                    assert forall|a: int, b: int| 0 <= a < b < nch.len() implies nch[a].0 != nch[b].0 by {
                        assert(nch[a].0 == ch[a].0 && nch[b].0 == ch[b].0);
                    }
                    assert forall|a: int| 0 <= a < nch.len() implies unique_names(#[trigger] nch[a].1) by {
                        if a != i {
                            assert(nch[a] == ch[a]);
                        }
                    }
                }
            }
        },
    }
}

/// Reading a file after writing it gives back what was written.
pub proof fn law_write_then_read(t: Tree, path: Seq<char>, content: Seq<u8>)
    requires
        components(path).len() > 0,
        write_tree(t, dirs_of(path), last_name(path), content).1 == Outcome::Done,
    ensures
        find_tree(write_tree(t, dirs_of(path), last_name(path), content).0, components(path))
            == Some(Tree::File(content)),
{
    lemma_components_split(path);
    lemma_write_found(t, dirs_of(path), last_name(path), content);
}

/// A write keeps each name unique within its directory.
pub proof fn law_write_keeps_unique_names(t: Tree, path: Seq<char>, content: Seq<u8>)
    requires
        unique_names(t),
    ensures
        unique_names(write_tree(t, dirs_of(path), last_name(path), content).0),
{
    lemma_write_unique(t, dirs_of(path), last_name(path), content);
}

pub open spec fn welcome_text() -> Seq<char> {
    "welcome to CIOS.\ntype 'help' for a list of commands.\n"@
}

/// The file system at boot: a root holding `readme.txt` and an empty `home`.
pub open spec fn boot_tree() -> Tree {
    Tree::Dir(seq![
        ("readme.txt"@, Tree::File(vstd::utf8::encode_utf8(welcome_text()))),
        ("home"@, Tree::Dir(seq![])),
    ])
}

/// The file system at boot.
pub fn init() -> (root: Node)
    ensures
        tree_of(root) == boot_tree(),
{
    let text = "welcome to CIOS.\ntype 'help' for a list of commands.\n";
    let bytes = vstd::slice::slice_to_vec(text.as_bytes());
    let mut entries: Vec<(String, Node)> = Vec::new();
    entries.push((message("readme.txt"), Node::File(bytes)));
    entries.push((message("home"), Node::Dir(Vec::new())));
    proof {
        lemma_entries_of(entries@);
        assert(entries_of(Seq::<(String, Node)>::empty()) =~= seq![]);
        assert(entries_of(entries@) =~= seq![
            ("readme.txt"@, Tree::File(vstd::utf8::encode_utf8(welcome_text()))),
            ("home"@, Tree::Dir(seq![])),
        ]);
    }
    Node::Dir(entries)
}


/// No directory in the tree holds two entries with the same name.
pub open spec fn unique_names(t: Tree) -> bool
    decreases t,
{
    match t {
        Tree::File(_) => true,
        Tree::Dir(ch) => {
            &&& forall|i: int, j: int| 0 <= i < j < ch.len() ==> ch[i].0 != ch[j].0
            &&& forall|i: int| 0 <= i < ch.len() ==> unique_names(#[trigger] ch[i].1)
        },
    }
}

/// Two entry lists with the same names find the same entry for a name.
proof fn lemma_child_index_names(a: Seq<(Seq<char>, Tree)>, b: Seq<(Seq<char>, Tree)>, name: Seq<char>)
    requires
        a.len() == b.len(),
        forall|j: int| 0 <= j < a.len() ==> a[j].0 == b[j].0,
    ensures
        child_index(a, name) == child_index(b, name),
    decreases a.len(),
{
    if a.len() > 0 {
        lemma_child_index_names(a.drop_last(), b.drop_last(), name);
    }
}

/// A name that is not in `ch` is found at the end after it is appended.
proof fn lemma_child_index_push(ch: Seq<(Seq<char>, Tree)>, e: (Seq<char>, Tree))
    requires
        child_index(ch, e.0) is None,
    ensures
        child_index(ch.push(e), e.0) == Some(ch.len() as int),
{
    assert(ch.push(e).drop_last() =~= ch);
}

proof fn lemma_edit_found(t: Tree, dirs: Seq<Seq<char>>, kind: EditKind, name: Seq<char>)
    requires
        edit_tree(t, dirs, kind, name).1 == Outcome::Done,
        kind == EditKind::Remove ==> unique_names(t),
    ensures
        find_tree(edit_tree(t, dirs, kind, name).0, dirs.push(name)) == match kind {
            EditKind::Remove => None,
            EditKind::MakeDir => Some(Tree::Dir(seq![])),
            EditKind::MakeFile => Some(Tree::File(seq![])),
        },
    decreases dirs.len(),
{
    let parts = dirs.push(name);
    match t {
        Tree::File(_) => {
            assert(edit_tree(t, dirs, kind, name).1 == Outcome::MissingParent);
        },
        Tree::Dir(ch) => {
            if dirs.len() == 0 {
                assert(parts.drop_first() =~= seq![]);
                match kind {
                    EditKind::Remove => {
                        let i = child_index(ch, name)->0;
                        lemma_child_index(ch, name);
                        let nch = ch.remove(i);
                        assert forall|j: int| 0 <= j < nch.len() implies nch[j].0 != name by {
                            if j < i {
                                assert(nch[j] == ch[j]);
                            } else {
                                assert(nch[j] == ch[j + 1]);
                            }
                        }
                        lemma_child_index(nch, name);
                        assert(edit_tree(t, dirs, kind, name).0 == Tree::Dir(nch));
                        assert(parts[0] == name);
                        assert(find_tree(Tree::Dir(nch), parts) is None);
                    },
                    EditKind::MakeDir => {
                        lemma_child_index_push(ch, (name, Tree::Dir(seq![])));
                        let nch = ch.push((name, Tree::Dir(seq![])));
                        assert(edit_tree(t, dirs, kind, name).0 == Tree::Dir(nch));
                        assert(parts[0] == name);
                        assert(nch[ch.len() as int].1 == Tree::Dir(seq![]));
                        assert(find_tree(Tree::Dir(seq![]), parts.drop_first()) == Some(Tree::Dir(seq![])));
                        assert(find_tree(Tree::Dir(nch), parts) == Some(Tree::Dir(seq![])));
                    },
                    EditKind::MakeFile => {
                        lemma_child_index_push(ch, (name, Tree::File(seq![])));
                        let nch = ch.push((name, Tree::File(seq![])));
                        assert(edit_tree(t, dirs, kind, name).0 == Tree::Dir(nch));
                        assert(parts[0] == name);
                        assert(nch[ch.len() as int].1 == Tree::File(seq![]));
                        assert(find_tree(Tree::File(seq![]), parts.drop_first()) == Some(Tree::File(seq![])));
                        assert(find_tree(Tree::Dir(nch), parts) == Some(Tree::File(seq![])));
                    },
                }
            } else {
                let i = child_index(ch, dirs[0])->0;
                lemma_child_index(ch, dirs[0]);
                let sub = edit_tree(ch[i].1, dirs.drop_first(), kind, name).0;
                let nch = ch.update(i, (ch[i].0, sub));
                lemma_child_index_names(nch, ch, dirs[0]);
                assert(parts[0] == dirs[0]);
                assert(parts.drop_first() =~= dirs.drop_first().push(name));
                lemma_edit_found(ch[i].1, dirs.drop_first(), kind, name);
                assert(edit_tree(t, dirs, kind, name).0 == Tree::Dir(nch));
                assert(nch[i].1 == sub);
                assert(find_tree(Tree::Dir(nch), parts) == find_tree(sub, parts.drop_first()));
            }
        },
    }
}

proof fn lemma_edit_unique(t: Tree, dirs: Seq<Seq<char>>, kind: EditKind, name: Seq<char>)
    requires
        unique_names(t),
    ensures
        unique_names(edit_tree(t, dirs, kind, name).0),
    decreases dirs.len(),
{
    match t {
        Tree::File(_) => {},
        Tree::Dir(ch) => {
            if dirs.len() == 0 {
                lemma_child_index(ch, name);
                let nch = edit_entries(ch, kind, name).0;
                match kind {
                    EditKind::Remove => {
                        if child_index(ch, name) is Some {
                            let i = child_index(ch, name)->0;
                            assert forall|a: int| 0 <= a < nch.len() implies nch[a] == (if a < i { ch[a] } else { ch[a + 1] }) by {}
                            assert forall|a: int, b: int| 0 <= a < b < nch.len() implies nch[a].0 != nch[b].0 by {
                                let a2 = if a < i { a } else { a + 1 };
                                let b2 = if b < i { b } else { b + 1 };
                                assert(nch[a] == ch[a2] && nch[b] == ch[b2]);
                            }
                            assert forall|a: int| 0 <= a < nch.len() implies unique_names(#[trigger] nch[a].1) by {
                                let a2 = if a < i { a } else { a + 1 };
                                assert(nch[a] == ch[a2]);
                            }
                        }
                    },
                    _ => {
                        if child_index(ch, name) is None {
                            let e = nch.last();
                            assert forall|a: int, b: int| 0 <= a < b < nch.len() implies nch[a].0 != nch[b].0 by {
                                if b == ch.len() {
                                    assert(nch[a] == ch[a]);
                                } else {
                                    assert(nch[a] == ch[a] && nch[b] == ch[b]);
                                }
                            }
                            assert forall|a: int| 0 <= a < nch.len() implies unique_names(#[trigger] nch[a].1) by {
                                if a < ch.len() {
                                    assert(nch[a] == ch[a]);
                                } else {
                                    let empty: Seq<(Seq<char>, Tree)> = seq![];
                                    assert(unique_names(Tree::Dir(empty)));
                                }
                            }
                        }
                    },
                }
            } else {
                if child_index(ch, dirs[0]) is Some {
                    let i = child_index(ch, dirs[0])->0;
                    lemma_child_index(ch, dirs[0]);
                    lemma_edit_unique(ch[i].1, dirs.drop_first(), kind, name);
                    let sub = edit_tree(ch[i].1, dirs.drop_first(), kind, name).0;
                    let nch = ch.update(i, (ch[i].0, sub));
                    assert forall|a: int, b: int| 0 <= a < b < nch.len() implies nch[a].0 != nch[b].0 by {
                        assert(nch[a].0 == ch[a].0 && nch[b].0 == ch[b].0);
                    }
                    assert forall|a: int| 0 <= a < nch.len() implies unique_names(#[trigger] nch[a].1) by {
                        if a != i {
                            assert(nch[a] == ch[a]);
                        }
                    }
                }
            }
        },
    }
}

proof fn lemma_components_split(path: Seq<char>)
    requires
        components(path).len() > 0,
    ensures
        components(path) == dirs_of(path).push(last_name(path)),
{
    assert(components(path) =~= components(path).drop_last().push(components(path).last()));
}

proof fn lemma_create_then_remove(t: Tree, dirs: Seq<Seq<char>>, kind: EditKind, name: Seq<char>)
    requires
        kind != EditKind::Remove,
        edit_tree(t, dirs, kind, name).1 == Outcome::Done,
    ensures
        edit_tree(edit_tree(t, dirs, kind, name).0, dirs, EditKind::Remove, name) == (t, Outcome::Done),
    decreases dirs.len(),
{
    match t {
        Tree::File(_) => {
            assert(edit_tree(t, dirs, kind, name).1 == Outcome::MissingParent);
        },
        Tree::Dir(ch) => {
            if dirs.len() == 0 {
                let e = if kind == EditKind::MakeDir { Tree::Dir(seq![]) } else { Tree::File(seq![]) };
                assert(child_index(ch, name) is None);
                let nch = ch.push((name, e));
                assert(edit_tree(t, dirs, kind, name).0 == Tree::Dir(nch));
                lemma_child_index_push(ch, (name, e));
                assert(nch.remove(ch.len() as int) =~= ch);
            } else {
                let i = child_index(ch, dirs[0])->0;
                lemma_child_index(ch, dirs[0]);
                let rest = dirs.drop_first();
                let sub = edit_tree(ch[i].1, rest, kind, name).0;
                let nch = ch.update(i, (ch[i].0, sub));
                assert(edit_tree(t, dirs, kind, name).0 == Tree::Dir(nch));
                lemma_child_index_names(nch, ch, dirs[0]);
                lemma_create_then_remove(ch[i].1, rest, kind, name);
                assert(nch.update(i, (nch[i].0, ch[i].1)) =~= ch);
            }
        },
    }
}

/// Removing what `mkdir` or `touch` just created gives back the tree as
/// it was.
pub proof fn law_remove_undoes_create(t: Tree, path: Seq<char>, kind: EditKind)
    requires
        kind != EditKind::Remove,
        components(path).len() > 0,
        edit_at(t, path, kind).1 == Outcome::Done,
    ensures
        edit_at(edit_at(t, path, kind).0, path, EditKind::Remove) == (t, Outcome::Done),
{
    lemma_create_then_remove(t, dirs_of(path), kind, last_name(path));
}

/// After `mkdir` succeeds, the path names an empty directory.
pub proof fn law_make_dir_then_found(t: Tree, path: Seq<char>)
    requires
        components(path).len() > 0,
        edit_at(t, path, EditKind::MakeDir).1 == Outcome::Done,
    ensures
        find_tree(edit_at(t, path, EditKind::MakeDir).0, components(path)) == Some(Tree::Dir(seq![])),
{
    lemma_components_split(path);
    lemma_edit_found(t, dirs_of(path), EditKind::MakeDir, last_name(path));
}

/// After `touch` succeeds, the path names an empty file.
pub proof fn law_make_file_then_found(t: Tree, path: Seq<char>)
    requires
        components(path).len() > 0,
        edit_at(t, path, EditKind::MakeFile).1 == Outcome::Done,
    ensures
        find_tree(edit_at(t, path, EditKind::MakeFile).0, components(path)) == Some(Tree::File(seq![])),
{
    lemma_components_split(path);
    lemma_edit_found(t, dirs_of(path), EditKind::MakeFile, last_name(path));
}

/// After `rm` succeeds, nothing is found at the path any more (in a tree
/// whose directories hold each name once).
pub proof fn law_remove_then_gone(t: Tree, path: Seq<char>)
    requires
        unique_names(t),
        components(path).len() > 0,
        edit_at(t, path, EditKind::Remove).1 == Outcome::Done,
    ensures
        find_tree(edit_at(t, path, EditKind::Remove).0, components(path)) is None,
{
    lemma_components_split(path);
    lemma_edit_found(t, dirs_of(path), EditKind::Remove, last_name(path));
}

/// Every edit keeps each name unique within its directory.
pub proof fn law_edit_keeps_unique_names(t: Tree, path: Seq<char>, kind: EditKind)
    requires
        unique_names(t),
    ensures
        unique_names(edit_at(t, path, kind).0),
{
    lemma_edit_unique(t, dirs_of(path), kind, last_name(path));
}

/// The file system at boot holds each name once.
pub proof fn law_boot_tree_unique()
    ensures
        unique_names(boot_tree()),
{
    reveal_strlit("readme.txt");
    reveal_strlit("home");
    let empty: Seq<(Seq<char>, Tree)> = seq![];
    assert(unique_names(Tree::Dir(empty)));
    let ch = seq![
        ("readme.txt"@, Tree::File(vstd::utf8::encode_utf8(welcome_text()))),
        ("home"@, Tree::Dir(empty)),
    ];
    assert(ch[0].0.len() != ch[1].0.len());
    assert forall|a: int| 0 <= a < ch.len() implies unique_names(#[trigger] ch[a].1) by {
        if a == 1 {
            assert(ch[1].1 == Tree::Dir(empty));
        }
    }
    assert(boot_tree() == Tree::Dir(ch));
}

} // verus!
