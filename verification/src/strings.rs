//! Character-level text handling shared by the parsers: whitespace,
//! trimming, searching, splitting and decimal numbers, each stated over the
//! characters of the text.
use vstd::prelude::*;

verus! {

/// Appends one character to a `String` (std `String::push`): the string
/// gains `c` at its end.
#[verifier::external_body]
pub(crate) fn push_char(s: &mut String, c: char)
    ensures
        final(s)@ == old(s)@.push(c),
{
    s.push(c);
}

/// The characters of `s`, in order.
pub fn chars_of(s: &str) -> (v: Vec<char>)
    ensures
        v@ == s@,
{
    let mut v: Vec<char> = Vec::new();
    for c in it: s.chars()
        invariant
            v@ == it.seq().take(it.index() as int),
    {
        v.push(c);
    }
    v
}

/// The string made of the characters `v`.
pub fn string_of(v: &[char]) -> (s: String)
    ensures
        s@ == v@,
{
    let mut s = String::new();
    let mut i: usize = 0;
    while i < v.len()
        invariant
            i <= v@.len(),
            s@ == v@.take(i as int),
        decreases v.len() - i,
    {
        push_char(&mut s, v[i]);
        assert(v@.take(i + 1) =~= v@.take(i as int).push(v@[i as int]));
        i = i + 1;
    }
    assert(v@.take(v@.len() as int) =~= v@);
    s
}

/// A copy of `v[lo..hi]`.
pub fn copy_range(v: &[char], lo: usize, hi: usize) -> (r: Vec<char>)
    requires
        lo <= hi <= v@.len(),
    ensures
        r@ == v@.subrange(lo as int, hi as int),
{
    let mut r: Vec<char> = Vec::new();
    let mut i = lo;
    while i < hi
        invariant
            lo <= i <= hi,
            hi <= v@.len(),
            r@ == v@.subrange(lo as int, i as int),
        decreases hi - i,
    {
        r.push(v[i]);
        assert(v@.subrange(lo as int, i + 1) =~= v@.subrange(lo as int, i as int).push(v@[i as int]));
        i = i + 1;
    }
    r
}

/// Whitespace as `char::is_whitespace` defines it (the Unicode White_Space
/// property).
pub open spec fn is_ws(c: char) -> bool {
    let u = c as u32;
    ||| 0x09 <= u <= 0x0D
    ||| u == 0x20
    ||| u == 0x85
    ||| u == 0xA0
    ||| u == 0x1680
    ||| 0x2000 <= u <= 0x200A
    ||| u == 0x2028
    ||| u == 0x2029
    ||| u == 0x202F
    ||| u == 0x205F
    ||| u == 0x3000
}

pub fn is_whitespace(c: char) -> (b: bool)
    ensures
        b == is_ws(c),
{
    let u = c as u32;
    (0x09 <= u && u <= 0x0D) || u == 0x20 || u == 0x85 || u == 0xA0 || u == 0x1680 || (0x2000 <= u
        && u <= 0x200A) || u == 0x2028 || u == 0x2029 || u == 0x202F || u == 0x205F || u == 0x3000
}

/// Number of whitespace characters at the start of `s`.
pub open spec fn lead_ws(s: Seq<char>) -> nat
    decreases s.len(),
{
    if s.len() > 0 && is_ws(s[0]) {
        1 + lead_ws(s.drop_first())
    } else {
        0
    }
}

/// Number of whitespace characters at the end of `s`.
pub open spec fn trail_ws(s: Seq<char>) -> nat
    decreases s.len(),
{
    if s.len() > 0 && is_ws(s.last()) {
        1 + trail_ws(s.drop_last())
    } else {
        0
    }
}

pub proof fn lemma_lead_ws(s: Seq<char>)
    ensures
        lead_ws(s) <= s.len(),
        forall|j: int| 0 <= j < lead_ws(s) ==> is_ws(#[trigger] s[j]),
        lead_ws(s) < s.len() ==> !is_ws(s[lead_ws(s) as int]),
    decreases s.len(),
{
    if s.len() > 0 && is_ws(s[0]) {
        lemma_lead_ws(s.drop_first());
        assert forall|j: int| 0 <= j < lead_ws(s) implies is_ws(#[trigger] s[j]) by {
            if j > 0 {
                assert(s[j] == s.drop_first()[j - 1]);
            }
        }
    }
}

pub proof fn lemma_trail_ws(s: Seq<char>)
    ensures
        trail_ws(s) <= s.len(),
        forall|j: int| s.len() - trail_ws(s) <= j < s.len() ==> is_ws(#[trigger] s[j]),
        trail_ws(s) < s.len() ==> !is_ws(s[s.len() - trail_ws(s) - 1]),
    decreases s.len(),
{
    if s.len() > 0 && is_ws(s.last()) {
        lemma_trail_ws(s.drop_last());
        assert forall|j: int| s.len() - trail_ws(s) <= j < s.len() implies is_ws(#[trigger] s[j]) by {
            if j < s.len() - 1 {
                assert(s[j] == s.drop_last()[j]);
            }
        }
    }
}

/// `lead_ws` is the length of the longest all-whitespace prefix.
proof fn lemma_lead_ws_unique(s: Seq<char>, k: int)
    requires
        0 <= k <= s.len(),
        forall|j: int| 0 <= j < k ==> is_ws(#[trigger] s[j]),
        k < s.len() ==> !is_ws(s[k]),
    ensures
        lead_ws(s) == k,
    decreases s.len(),
{
    if k > 0 {
        assert(is_ws(s[0]));
        assert forall|j: int| 0 <= j < k - 1 implies is_ws(#[trigger] s.drop_first()[j]) by {
            assert(s.drop_first()[j] == s[j + 1]);
        }
        if k - 1 < s.len() - 1 {
            assert(s.drop_first()[k - 1] == s[k]);
        }
        lemma_lead_ws_unique(s.drop_first(), k - 1);
    }
}

proof fn lemma_trail_ws_unique(s: Seq<char>, k: int)
    requires
        0 <= k <= s.len(),
        forall|j: int| s.len() - k <= j < s.len() ==> is_ws(#[trigger] s[j]),
        k < s.len() ==> !is_ws(s[s.len() - k - 1]),
    ensures
        trail_ws(s) == k,
    decreases s.len(),
{
    if k > 0 {
        assert(is_ws(s.last()));
        assert forall|j: int| s.len() - 1 - (k - 1) <= j < s.len() - 1 implies is_ws(
            #[trigger] s.drop_last()[j],
        ) by {
            assert(s.drop_last()[j] == s[j]);
        }
        if k - 1 < s.len() - 1 {
            assert(s.drop_last()[s.len() - 1 - (k - 1) - 1] == s[s.len() - k - 1]);
        }
        lemma_trail_ws_unique(s.drop_last(), k - 1);
    }
}

/// `s` without its leading and trailing whitespace (`str::trim`).
pub open spec fn trim(s: Seq<char>) -> Seq<char> {
    let t = s.skip(lead_ws(s) as int);
    t.take(t.len() - trail_ws(t))
}

/// Bounds of the trimmed part: `v[lo..hi]` is `trim(v)`.
pub fn trim_bounds(v: &[char]) -> (r: (usize, usize))
    ensures
        r.0 <= r.1 <= v@.len(),
        v@.subrange(r.0 as int, r.1 as int) == trim(v@),
{
    let n = v.len();
    let mut lo: usize = 0;
    while lo < n && is_whitespace(v[lo])
        invariant
            lo <= n,
            n == v@.len(),
            forall|j: int| 0 <= j < lo ==> is_ws(#[trigger] v@[j]),
        decreases n - lo,
    {
        lo = lo + 1;
    }
    proof { lemma_lead_ws_unique(v@, lo as int); }
    let mut hi: usize = n;
    while hi > lo && is_whitespace(v[hi - 1])
        invariant
            lo <= hi <= n,
            n == v@.len(),
            forall|j: int| hi <= j < n ==> is_ws(#[trigger] v@[j]),
        decreases hi,
    {
        hi = hi - 1;
    }
    proof {
        let t = v@.skip(lo as int);
        assert forall|j: int| t.len() - (n - hi) <= j < t.len() implies is_ws(#[trigger] t[j]) by {
            assert(t[j] == v@[lo + j]);
        }
        if n - hi < t.len() {
            assert(t[t.len() - (n - hi) - 1] == v@[hi - 1]);
        }
        lemma_trail_ws_unique(t, (n - hi) as int);
        assert(v@.subrange(lo as int, hi as int) =~= t.take(t.len() - trail_ws(t)));
    }
    (lo, hi)
}

/// A trimmed copy.
pub fn trimmed(v: &[char]) -> (r: Vec<char>)
    ensures
        r@ == trim(v@),
{
    let (lo, hi) = trim_bounds(v);
    copy_range(v, lo, hi)
}

/// Index of the first `c` in `s`.
pub open spec fn find_char(s: Seq<char>, c: char) -> Option<int>
    decreases s.len(),
{
    if s.len() == 0 {
        None
    } else if s[0] == c {
        Some(0)
    } else {
        match find_char(s.drop_first(), c) {
            Some(i) => Some(i + 1),
            None => None,
        }
    }
}

pub proof fn lemma_find_char(s: Seq<char>, c: char)
    ensures
        match find_char(s, c) {
            Some(i) => 0 <= i < s.len() && s[i] == c && forall|j: int| 0 <= j < i ==> s[j] != c,
            None => forall|j: int| 0 <= j < s.len() ==> s[j] != c,
        },
    decreases s.len(),
{
    if s.len() > 0 && s[0] != c {
        lemma_find_char(s.drop_first(), c);
        match find_char(s.drop_first(), c) {
            Some(i) => {
                assert forall|j: int| 0 <= j < i + 1 implies s[j] != c by {
                    if j > 0 {
                        assert(s[j] == s.drop_first()[j - 1]);
                    }
                }
            },
            None => {
                assert forall|j: int| 0 <= j < s.len() implies s[j] != c by {
                    if j > 0 {
                        assert(s[j] == s.drop_first()[j - 1]);
                    }
                }
            },
        }
    }
}

proof fn lemma_find_char_unique(s: Seq<char>, c: char, k: int)
    requires
        0 <= k <= s.len(),
        forall|j: int| 0 <= j < k ==> s[j] != c,
        k < s.len() ==> s[k] == c,
    ensures
        find_char(s, c) == (if k < s.len() { Some(k) } else { None::<int> }),
{
    lemma_find_char(s, c);
}

/// Index of the first `c` in `v[from..]`, counted from `from`.
pub fn find_from(v: &[char], from: usize, c: char) -> (r: Option<usize>)
    requires
        from <= v@.len(),
    ensures
        match find_char(v@.skip(from as int), c) {
            Some(i) => r is Some && r->0 == from + i,
            None => r is None,
        },
{
    let mut i = from;
    while i < v.len()
        invariant
            from <= i <= v@.len(),
            forall|j: int| from <= j < i ==> v@[j] != c,
        decreases v.len() - i,
    {
        if v[i] == c {
            proof {
                let t = v@.skip(from as int);
                assert forall|j: int| 0 <= j < i - from implies t[j] != c by {
                    assert(t[j] == v@[from + j]);
                }
                lemma_find_char_unique(t, c, i - from);
            }
            return Some(i);
        }
        i = i + 1;
    }
    proof {
        let t = v@.skip(from as int);
        assert forall|j: int| 0 <= j < t.len() implies t[j] != c by {
            assert(t[j] == v@[from + j]);
        }
        lemma_find_char_unique(t, c, t.len() as int);
    }
    None
}

/// The pieces of `s` between the occurrences of `sep` (`str::split`): one
/// more piece than there are separators, empty pieces included.
pub open spec fn split(s: Seq<char>, sep: char) -> Seq<Seq<char>>
    decreases s.len(),
{
    match find_char(s, sep) {
        None => seq![s],
        Some(i) => {
            proof { lemma_find_char(s, sep); }
            seq![s.take(i)] + split(s.skip(i + 1), sep)
        },
    }
}

/// The character sequences that a list of `Vec<char>` holds.
pub open spec fn views(v: Seq<Vec<char>>) -> Seq<Seq<char>> {
    v.map_values(|x: Vec<char>| x@)
}

pub fn split_chars(v: &[char], sep: char) -> (r: Vec<Vec<char>>)
    ensures
        views(r@) == split(v@, sep),
{
    let mut r: Vec<Vec<char>> = Vec::new();
    let mut pos: usize = 0;
    assert(v@.skip(0) =~= v@);
    loop
        invariant
            pos <= v@.len(),
            views(r@) + split(v@.skip(pos as int), sep) == split(v@, sep),
        decreases v@.len() - pos,
    {
        let ghost rest = v@.skip(pos as int);
        proof { lemma_find_char(rest, sep); }
        let ghost fi = find_char(rest, sep);
        match find_from(v, pos, sep) {
            None => {
                let piece = copy_range(v, pos, v.len());
                let ghost old_r = r@;
                r.push(piece);
                proof {
                    assert(piece@ =~= rest);
                    assert(views(r@) =~= views(old_r) + seq![rest]);
                }
                return r;
            },
            Some(k) => {
                assert(fi is Some && k == pos + fi->0);
                let n = v.len();
                assert(k < n);
                let piece = copy_range(v, pos, k);
                let ghost old_r = r@;
                r.push(piece);
                proof {
                    let i = k - pos;
                    assert(piece@ =~= rest.take(i));
                    assert(rest.skip(i + 1) =~= v@.skip(k + 1));
                    assert(views(r@) =~= views(old_r) + seq![rest.take(i)]);
                    assert(split(rest, sep) == seq![rest.take(i)] + split(rest.skip(i + 1), sep));
                    assert(views(r@) + split(v@.skip(k + 1), sep) =~= views(old_r) + split(rest, sep));
                }
                pos = k + 1;
            },
        }
    }
}

/// Whether two character sequences are equal.
pub fn chars_eq(a: &[char], b: &[char]) -> (r: bool)
    ensures
        r == (a@ == b@),
{
    if a.len() != b.len() {
        return false;
    }
    let mut i: usize = 0;
    while i < a.len()
        invariant
            i <= a@.len(),
            a@.len() == b@.len(),
            forall|j: int| 0 <= j < i ==> a@[j] == b@[j],
        decreases a.len() - i,
    {
        if a[i] != b[i] {
            return false;
        }
        i = i + 1;
    }
    assert(a@ =~= b@);
    true
}

/// Whether `v` equals the text `lit`.
pub fn is_text(v: &[char], lit: &str) -> (r: bool)
    ensures
        r == (v@ == lit@),
{
    let l = chars_of(lit);
    chars_eq(v, l.as_slice())
}

/// Whether `v` starts with the text `lit`.
pub fn starts_with_text(v: &[char], lit: &str) -> (r: bool)
    ensures
        r == (lit@.len() <= v@.len() && v@.take(lit@.len() as int) == lit@),
{
    let l = chars_of(lit);
    if l.len() > v.len() {
        return false;
    }
    let prefix = copy_range(v, 0, l.len());
    chars_eq(prefix.as_slice(), l.as_slice())
}

pub open spec fn is_digit(c: char) -> bool {
    '0' <= c <= '9'
}

pub open spec fn digit_value(c: char) -> int {
    c as int - '0' as int
}

/// The number that a run of decimal digits spells.
pub open spec fn dec_value(s: Seq<char>) -> int
    decreases s.len(),
{
    if s.len() == 0 {
        0
    } else {
        dec_value(s.drop_last()) * 10 + digit_value(s.last())
    }
}

pub open spec fn all_digits(s: Seq<char>) -> bool {
    forall|i: int| 0 <= i < s.len() ==> is_digit(#[trigger] s[i])
}

/// An unsigned integer as std's `from_str` reads one: an optional `+`, then
/// at least one decimal digit and nothing else, of value at most `max`.
pub open spec fn parse_unsigned(s: Seq<char>, max: int) -> Option<int> {
    let digits = if s.len() > 0 && s[0] == '+' { s.drop_first() } else { s };
    if digits.len() > 0 && all_digits(digits) && dec_value(digits) <= max {
        Some(dec_value(digits))
    } else {
        None
    }
}

proof fn lemma_dec_value_nonneg(s: Seq<char>)
    requires
        all_digits(s),
    ensures
        dec_value(s) >= 0,
    decreases s.len(),
{
    if s.len() > 0 {
        assert(all_digits(s.drop_last())) by {
            assert forall|i: int| 0 <= i < s.drop_last().len() implies is_digit(#[trigger] s.drop_last()[i]) by {
                assert(s.drop_last()[i] == s[i]);
            }
        }
        lemma_dec_value_nonneg(s.drop_last());
        assert(is_digit(s[s.len() - 1]));
    }
}

/// Reads `v` as an unsigned integer no larger than `max` (std `from_str` of
/// an unsigned type).
pub fn parse_unsigned_chars(v: &[char], max: u64) -> (r: Option<u64>)
    requires
        max <= u32::MAX,
    ensures
        match parse_unsigned(v@, max as int) {
            Some(n) => 0 <= n <= max && r == Some(n as u64),
            None => r is None,
        },
{
    let start: usize = if v.len() > 0 && v[0] == '+' { 1 } else { 0 };
    let ghost digits = if v@.len() > 0 && v@[0] == '+' { v@.drop_first() } else { v@ };
    assert(digits =~= v@.skip(start as int));
    if start == v.len() {
        return None;
    }
    let mut value: u64 = 0;
    let mut over = false;
    let mut i = start;
    while i < v.len()
        invariant
            start <= i <= v@.len(),
            max <= u32::MAX,
            digits == v@.skip(start as int),
            digits == (if v@.len() > 0 && v@[0] == '+' { v@.drop_first() } else { v@ }),
            all_digits(v@.subrange(start as int, i as int)),
            !over ==> value as int == dec_value(v@.subrange(start as int, i as int)) && value <= max,
            over ==> dec_value(v@.subrange(start as int, i as int)) > max,
        decreases v.len() - i,
    {
        let c = v[i];
        if !('0' <= c && c <= '9') {
            proof {
                assert(digits[i - start] == c);
                assert(!is_digit(digits[i - start]));
            }
            return None;
        }
        let ghost pre = v@.subrange(start as int, i as int);
        let ghost next = v@.subrange(start as int, i + 1);
        assert(next.drop_last() =~= pre);
        assert(all_digits(next)) by {
            assert forall|j: int| 0 <= j < next.len() implies is_digit(#[trigger] next[j]) by {
                if j < pre.len() {
                    assert(next[j] == pre[j]);
                }
            }
        }
        proof { lemma_dec_value_nonneg(pre); }
        let d = (c as u32 - '0' as u32) as u64;
        if !over {
            let nv = value * 10 + d;
            if nv > max {
                over = true;
            } else {
                value = nv;
            }
        }
        i = i + 1;
    }
    assert(v@.subrange(start as int, v@.len() as int) =~= digits);
    proof { lemma_dec_value_nonneg(digits); }
    if over {
        None
    } else {
        Some(value)
    }
}

} // verus!

verus! {

/// Lexicographic order of character sequences by code point, which is the
/// order of `String`s (their UTF-8 bytes compare the same way).
pub open spec fn text_le(a: Seq<char>, b: Seq<char>) -> bool
    decreases a.len(),
{
    if a.len() == 0 {
        true
    } else if b.len() == 0 {
        false
    } else if a[0] != b[0] {
        a[0] < b[0]
    } else {
        text_le(a.drop_first(), b.drop_first())
    }
}

proof fn lemma_text_le_refl(a: Seq<char>)
    ensures
        text_le(a, a),
    decreases a.len(),
{
    if a.len() > 0 {
        lemma_text_le_refl(a.drop_first());
    }
}

proof fn lemma_text_le_antisym(a: Seq<char>, b: Seq<char>)
    requires
        text_le(a, b),
        text_le(b, a),
    ensures
        a == b,
    decreases a.len(),
{
    if a.len() > 0 && b.len() > 0 {
        if a[0] == b[0] {
            lemma_text_le_antisym(a.drop_first(), b.drop_first());
            assert(a =~= seq![a[0]] + a.drop_first());
            assert(b =~= seq![b[0]] + b.drop_first());
        }
    } else {
        assert(a =~= b);
    }
}

proof fn lemma_text_le_trans(a: Seq<char>, b: Seq<char>, c: Seq<char>)
    requires
        text_le(a, b),
        text_le(b, c),
    ensures
        text_le(a, c),
    decreases a.len(),
{
    if a.len() > 0 && b.len() > 0 && c.len() > 0 {
        if a[0] == b[0] && b[0] == c[0] {
            lemma_text_le_trans(a.drop_first(), b.drop_first(), c.drop_first());
        }
    }
}

proof fn lemma_text_le_total(a: Seq<char>, b: Seq<char>)
    ensures
        text_le(a, b) || text_le(b, a),
    decreases a.len(),
{
    if a.len() > 0 && b.len() > 0 {
        if a[0] == b[0] {
            lemma_text_le_total(a.drop_first(), b.drop_first());
        }
    }
}

pub open spec fn text_order() -> spec_fn(Seq<char>, Seq<char>) -> bool {
    |a: Seq<char>, b: Seq<char>| text_le(a, b)
}

/// The text order is a total order.
pub proof fn law_text_order_total()
    ensures
        vstd::relations::total_ordering(text_order()),
{
    assert forall|x: Seq<char>| #[trigger] text_order()(x, x) by {
        lemma_text_le_refl(x);
    }
    assert forall|x: Seq<char>, y: Seq<char>|
        #[trigger] text_order()(x, y) && #[trigger] text_order()(y, x) implies x == y by {
        lemma_text_le_antisym(x, y);
    }
    assert forall|x: Seq<char>, y: Seq<char>, z: Seq<char>|
        #[trigger] text_order()(x, y) && #[trigger] text_order()(y, z) implies text_order()(x, z) by {
        lemma_text_le_trans(x, y, z);
    }
    assert forall|x: Seq<char>, y: Seq<char>|
        #[trigger] text_order()(x, y) || #[trigger] text_order()(y, x) by {
        lemma_text_le_total(x, y);
    }
}

/// Whether `a` comes no later than `b` in text order.
pub fn text_le_chars(a: &[char], b: &[char]) -> (r: bool)
    ensures
        r == text_le(a@, b@),
{
    let mut i: usize = 0;
    assert(a@.skip(0) =~= a@ && b@.skip(0) =~= b@);
    while i < a.len() && i < b.len() && a[i] == b[i]
        invariant
            i <= a@.len(),
            i <= b@.len(),
            text_le(a@, b@) == text_le(a@.skip(i as int), b@.skip(i as int)),
        decreases a.len() - i,
    {
        assert(a@.skip(i as int).drop_first() =~= a@.skip(i + 1));
        assert(b@.skip(i as int).drop_first() =~= b@.skip(i + 1));
        i = i + 1;
    }
    if i == a.len() {
        true
    } else if i == b.len() {
        false
    } else {
        a[i] < b[i]
    }
}

} // verus!

verus! {

/// The state of splitting at whitespace after reading `s`: the finished
/// words and the word being read.
pub open spec fn words_state(s: Seq<char>) -> (Seq<Seq<char>>, Seq<char>)
    decreases s.len(),
{
    if s.len() == 0 {
        (seq![], seq![])
    } else {
        let (done, cur) = words_state(s.drop_last());
        let c = s.last();
        if is_ws(c) {
            if cur.len() > 0 {
                (done.push(cur), seq![])
            } else {
                (done, seq![])
            }
        } else {
            (done, cur.push(c))
        }
    }
}

/// The non-empty runs of non-whitespace characters (`str::split_whitespace`).
pub open spec fn words(s: Seq<char>) -> Seq<Seq<char>> {
    let (done, cur) = words_state(s);
    if cur.len() > 0 {
        done.push(cur)
    } else {
        done
    }
}

pub fn words_of(v: &[char]) -> (r: Vec<Vec<char>>)
    ensures
        views(r@) == words(v@),
{
    let mut done: Vec<Vec<char>> = Vec::new();
    let mut cur: Vec<char> = Vec::new();
    let mut i: usize = 0;
    assert(v@.take(0) =~= seq![]);
    while i < v.len()
        invariant
            i <= v@.len(),
            (views(done@), cur@) == words_state(v@.take(i as int)),
        decreases v.len() - i,
    {
        assert(v@.take(i + 1).drop_last() =~= v@.take(i as int));
        assert(v@.take(i + 1).last() == v@[i as int]);
        let c = v[i];
        if is_whitespace(c) {
            if cur.len() > 0 {
                let ghost old_d = done@;
                let w = cur;
                cur = Vec::new();
                done.push(w);
                assert(views(done@) =~= views(old_d).push(w@));
            } else {
                cur = Vec::new();
            }
            assert(cur@ =~= seq![]);
        } else {
            cur.push(c);
        }
        i = i + 1;
    }
    assert(v@.take(v@.len() as int) =~= v@);
    if cur.len() > 0 {
        let ghost old_d = done@;
        done.push(cur);
        assert(views(done@) =~= views(old_d).push(words_state(v@).1));
    }
    done
}

/// Texts joined with `sep` between them (`join`).
pub open spec fn join_with(parts: Seq<Seq<char>>, sep: Seq<char>) -> Seq<char>
    decreases parts.len(),
{
    if parts.len() == 0 {
        seq![]
    } else if parts.len() == 1 {
        parts[0]
    } else {
        join_with(parts.drop_last(), sep) + sep + parts.last()
    }
}

pub fn join_chars(parts: &Vec<Vec<char>>, sep: &str) -> (r: Vec<char>)
    ensures
        r@ == join_with(views(parts@), sep@),
{
    let sv = chars_of(sep);
    let mut out: Vec<char> = Vec::new();
    let mut k: usize = 0;
    assert(views(parts@).take(0) =~= seq![]);
    while k < parts.len()
        invariant
            k <= parts@.len(),
            sv@ == sep@,
            out@ == join_with(views(parts@).take(k as int), sep@),
        decreases parts.len() - k,
    {
        let ghost pre = views(parts@).take(k as int);
        let ghost next = views(parts@).take(k + 1);
        assert(next.drop_last() =~= pre);
        assert(next.last() == parts@[k as int]@);
        if k > 0 {
            append_chars(&mut out, sv.as_slice());
        }
        append_chars(&mut out, parts[k].as_slice());
        if k == 0 {
            assert(out@ =~= join_with(next, sep@));
        } else {
            assert(out@ =~= join_with(next, sep@));
        }
        k = k + 1;
    }
    assert(views(parts@).take(parts@.len() as int) =~= views(parts@));
    out
}

/// Appends the characters `src` to `dst`.
pub fn append_chars(dst: &mut Vec<char>, src: &[char])
    ensures
        final(dst)@ == old(dst)@ + src@,
{
    let mut j: usize = 0;
    while j < src.len()
        invariant
            j <= src@.len(),
            dst@ == old(dst)@ + src@.take(j as int),
        decreases src.len() - j,
    {
        dst.push(src[j]);
        assert(src@.take(j + 1) =~= src@.take(j as int).push(src@[j as int]));
        j = j + 1;
    }
    assert(src@.take(src@.len() as int) =~= src@);
}

/// A line without its `\r` before the line feed.
pub open spec fn strip_cr(p: Seq<char>) -> Seq<char> {
    if p.len() > 0 && p.last() == '\r' {
        p.drop_last()
    } else {
        p
    }
}

/// The lines of a text (`str::lines`): split at `\n`, a `\r` right before a
/// `\n` dropped, no line after a final `\n`.
pub open spec fn lines(t: Seq<char>) -> Seq<Seq<char>> {
    let ps = split(t, '\n');
    let body = ps.take(ps.len() - 1).map_values(|p: Seq<char>| strip_cr(p));
    if ps.last().len() > 0 {
        body.push(ps.last())
    } else {
        body
    }
}

pub proof fn lemma_split_nonempty(s: Seq<char>, sep: char)
    ensures
        split(s, sep).len() >= 1,
    decreases s.len(),
{
    match find_char(s, sep) {
        None => {},
        Some(i) => {
            lemma_find_char(s, sep);
            lemma_split_nonempty(s.skip(i + 1), sep);
        },
    }
}

/// Where `c` first occurs in `x + y`: where it first occurs in `x`, else
/// after `x` where it first occurs in `y`.
pub proof fn lemma_find_char_append(x: Seq<char>, y: Seq<char>, c: char)
    ensures
        find_char(x + y, c) == match find_char(x, c) {
            Some(i) => Some(i),
            None => match find_char(y, c) {
                Some(j) => Some(x.len() + j),
                None => None,
            },
        },
    decreases x.len(),
{
    if x.len() == 0 {
        assert(x + y =~= y);
    } else {
        assert((x + y)[0] == x[0]);
        if x[0] != c {
            assert((x + y).drop_first() =~= x.drop_first() + y);
            lemma_find_char_append(x.drop_first(), y, c);
        }
    }
}

/// Whitespace in front of a text does not change its trimmed form.
pub proof fn lemma_trim_ws_prefix(a: Seq<char>, x: Seq<char>)
    requires
        forall|j: int| 0 <= j < a.len() ==> is_ws(#[trigger] a[j]),
    ensures
        trim(a + x) == trim(x),
{
    lemma_lead_ws_prefix(a, x);
    lemma_lead_ws(x);
    assert((a + x).skip(lead_ws(a + x) as int) =~= x.skip(lead_ws(x) as int));
}

proof fn lemma_lead_ws_prefix(a: Seq<char>, x: Seq<char>)
    requires
        forall|j: int| 0 <= j < a.len() ==> is_ws(#[trigger] a[j]),
    ensures
        lead_ws(a + x) == a.len() + lead_ws(x),
    decreases a.len(),
{
    if a.len() == 0 {
        assert(a + x =~= x);
    } else {
        assert((a + x)[0] == a[0]);
        assert(is_ws(a[0]));
        let a1 = a.drop_first();
        assert forall|j: int| 0 <= j < a1.len() implies is_ws(#[trigger] a1[j]) by {
            assert(a1[j] == a[j + 1]);
        }
        assert((a + x).drop_first() =~= a1 + x);
        lemma_lead_ws_prefix(a1, x);
    }
}

/// No piece of a split holds the separator.
pub proof fn lemma_split_pieces(s: Seq<char>, sep: char)
    ensures
        forall|k: int, j: int|
            0 <= k < split(s, sep).len() && 0 <= j < split(s, sep)[k].len() ==> #[trigger] split(s, sep)[k][j] != sep,
    decreases s.len(),
{
    lemma_find_char(s, sep);
    match find_char(s, sep) {
        None => {},
        Some(i) => {
            let rest = s.skip(i + 1);
            lemma_split_pieces(rest, sep);
            assert forall|k: int, j: int|
                0 <= k < split(s, sep).len() && 0 <= j < split(s, sep)[k].len() implies #[trigger] split(s, sep)[k][j]
                != sep by {
                if k == 0 {
                    assert(split(s, sep)[0] == s.take(i));
                } else {
                    assert(split(s, sep)[k] == split(rest, sep)[k - 1]);
                }
            }
        },
    }
}

/// A text without the separator is a single piece.
pub proof fn lemma_split_single(s: Seq<char>, sep: char)
    requires
        forall|j: int| 0 <= j < s.len() ==> s[j] != sep,
    ensures
        split(s, sep) == seq![s],
{
    lemma_find_char(s, sep);
}

/// Splitting `x`, a separator, then `y` gives the pieces of `x` followed by
/// those of `y`.
pub proof fn lemma_split_append(x: Seq<char>, y: Seq<char>, sep: char)
    ensures
        split(x + seq![sep] + y, sep) == split(x, sep) + split(y, sep),
    decreases x.len(),
{
    let s = x + seq![sep] + y;
    lemma_find_char(s, sep);
    lemma_find_char(x, sep);
    match find_char(x, sep) {
        None => {
            assert(s[x.len() as int] == sep);
            assert forall|j: int| 0 <= j < x.len() implies s[j] != sep by {
                assert(s[j] == x[j]);
            }
            assert(find_char(s, sep) == Some(x.len() as int));
            assert(s.take(x.len() as int) =~= x);
            assert(s.skip(x.len() as int + 1) =~= y);
            lemma_split_single(x, sep);
        },
        Some(i) => {
            assert(s[i] == x[i]);
            assert forall|j: int| 0 <= j < i implies s[j] != sep by {
                assert(s[j] == x[j]);
            }
            assert(find_char(s, sep) == Some(i));
            assert(s.take(i) =~= x.take(i));
            assert(s.skip(i + 1) =~= x.skip(i + 1) + seq![sep] + y);
            lemma_split_append(x.skip(i + 1), y, sep);
            assert(split(s, sep) =~= split(x, sep) + split(y, sep));
        },
    }
}

pub fn lines_of(v: &[char]) -> (r: Vec<Vec<char>>)
    ensures
        views(r@) == lines(v@),
{
    let ps = split_chars(v, '\n');
    proof { lemma_split_nonempty(v@, '\n'); }
    let n = ps.len();
    let mut r: Vec<Vec<char>> = Vec::new();
    let mut i: usize = 0;
    while i + 1 < n
        invariant
            n == ps@.len(),
            n >= 1,
            i < n,
            views(ps@) == split(v@, '\n'),
            views(r@) =~= views(ps@).take(i as int).map_values(|p: Seq<char>| strip_cr(p)),
        decreases n - i,
    {
        let p = ps[i].as_slice();
        let ghost old_r = r@;
        if p.len() > 0 && p[p.len() - 1] == '\r' {
            r.push(copy_range(p, 0, p.len() - 1));
            assert(p@.subrange(0, p@.len() - 1) =~= p@.drop_last());
        } else {
            r.push(copy_range(p, 0, p.len()));
            assert(p@.subrange(0, p@.len() as int) =~= p@);
        }
        assert(views(r@) =~= views(old_r).push(strip_cr(p@)));
        assert(views(ps@)[i as int] == p@);
        i = i + 1;
    }
    assert(i == n - 1);
    let last = ps[n - 1].as_slice();
    assert(views(ps@).last() == last@);
    if last.len() > 0 {
        let ghost old_r = r@;
        r.push(copy_range(last, 0, last.len()));
        assert(last@.subrange(0, last@.len() as int) =~= last@);
        assert(views(r@) =~= views(old_r).push(last@));
    }
    r
}

} // verus!
