//! Character-level helpers on strings and the name predicates the service
//! filters with.

use vstd::prelude::*;
use vstd::string::*;

verus! {

/// The characters of `s`, in order.
pub fn chars_of(s: &str) -> (v: Vec<char>)
    ensures
        v@ == s@,
{
    let mut v: Vec<char> = Vec::new();
    for c in it: s.chars()
        invariant
            v@ == it.seq().take(it.index() as int),
            it.seq() == s@,
    {
        v.push(c);
    }
    v
}


/// Strict lexicographic order of character sequences from position `i` on,
/// comparing characters by code point. For UTF-8 text this is the order in
/// which `String`'s `Ord` compares the bytes.
pub open spec fn text_lt_from(a: Seq<char>, b: Seq<char>, i: int) -> bool
    decreases a.len() - i,
{
    if i >= a.len() {
        i < b.len()
    } else if i >= b.len() {
        false
    } else if a[i] != b[i] {
        (a[i] as int) < (b[i] as int)
    } else {
        text_lt_from(a, b, i + 1)
    }
}

/// `a` sorts strictly before `b`.
pub open spec fn text_lt(a: Seq<char>, b: Seq<char>) -> bool {
    text_lt_from(a, b, 0)
}

proof fn lemma_lt_from_irreflexive(a: Seq<char>, i: int)
    requires
        0 <= i <= a.len(),
    ensures
        !text_lt_from(a, a, i),
    decreases a.len() - i,
{
    if i < a.len() {
        lemma_lt_from_irreflexive(a, i + 1);
    }
}

proof fn lemma_lt_from_asymmetric(a: Seq<char>, b: Seq<char>, i: int)
    requires
        0 <= i,
        text_lt_from(a, b, i),
    ensures
        !text_lt_from(b, a, i),
    decreases a.len() - i,
{
    if i < a.len() && i < b.len() && a[i] == b[i] {
        lemma_lt_from_asymmetric(a, b, i + 1);
    }
}

proof fn lemma_lt_from_transitive(a: Seq<char>, b: Seq<char>, c: Seq<char>, i: int)
    requires
        0 <= i,
        text_lt_from(a, b, i),
        text_lt_from(b, c, i),
    ensures
        text_lt_from(a, c, i),
    decreases a.len() - i,
{
    if i < a.len() && i < b.len() && i < c.len() && a[i] == b[i] && b[i] == c[i] {
        lemma_lt_from_transitive(a, b, c, i + 1);
    }
}

proof fn lemma_lt_from_total(a: Seq<char>, b: Seq<char>, i: int)
    requires
        0 <= i <= a.len(),
        i <= b.len(),
        !text_lt_from(a, b, i),
        !text_lt_from(b, a, i),
    ensures
        a.len() == b.len(),
        forall|j: int| i <= j < a.len() ==> a[j] == b[j],
    decreases a.len() - i,
{
    if i < a.len() && i < b.len() {
        lemma_lt_from_total(a, b, i + 1);
    }
}

/// Basic facts of the name order: it is a strict total order.
pub proof fn lemma_text_order(a: Seq<char>, b: Seq<char>, c: Seq<char>)
    ensures
        !text_lt(a, a),
        text_lt(a, b) ==> !text_lt(b, a),
        text_lt(a, b) && text_lt(b, c) ==> text_lt(a, c),
        text_lt(a, b) || text_lt(b, a) || a == b,
{
    lemma_lt_from_irreflexive(a, 0);
    if text_lt(a, b) {
        lemma_lt_from_asymmetric(a, b, 0);
        if text_lt(b, c) {
            lemma_lt_from_transitive(a, b, c, 0);
        }
    }
    if !text_lt(a, b) && !text_lt(b, a) {
        lemma_lt_from_total(a, b, 0);
        assert(a =~= b);
    }
}

/// Comparing from `i` on is comparing from `j` on when the two sequences
/// agree on the positions between.
proof fn lemma_lt_from_common(a: Seq<char>, b: Seq<char>, i: int, j: int)
    requires
        0 <= i <= j,
        j <= a.len(),
        j <= b.len(),
        forall|k: int| i <= k < j ==> a[k] == b[k],
    ensures
        text_lt_from(a, b, i) == text_lt_from(a, b, j),
    decreases j - i,
{
    if i < j {
        lemma_lt_from_common(a, b, i + 1, j);
    }
}

/// Names are ordered by their first differing character, compared by code
/// point: after a common prefix `p`, a name going on with `x` sorts before
/// one going on with another character `y` exactly when `x` is below `y`,
/// whatever follows.
pub proof fn lemma_text_lt_first_difference(
    p: Seq<char>,
    x: char,
    y: char,
    s: Seq<char>,
    t: Seq<char>,
)
    requires
        x != y,
    ensures
        text_lt(p + seq![x] + s, p + seq![y] + t) <==> (x as int) < (y as int),
{
    let a = p + seq![x] + s;
    let b = p + seq![y] + t;
    assert forall|k: int| 0 <= k < p.len() implies a[k] == b[k] by {
        assert(a[k] == p[k]);
        assert(b[k] == p[k]);
    }
    lemma_lt_from_common(a, b, 0, p.len() as int);
    assert(a[p.len() as int] == x);
    assert(b[p.len() as int] == y);
}

/// A name sorts before every longer name it begins, and never after it.
pub proof fn lemma_text_lt_prefix(p: Seq<char>, x: char, s: Seq<char>)
    ensures
        text_lt(p, p + seq![x] + s),
        !text_lt(p + seq![x] + s, p),
{
    let b = p + seq![x] + s;
    assert forall|k: int| 0 <= k < p.len() implies p[k] == b[k] by {
        assert(b[k] == p[k]);
    }
    lemma_lt_from_common(p, b, 0, p.len() as int);
    assert forall|k: int| 0 <= k < p.len() implies b[k] == p[k] by {
        assert(b[k] == p[k]);
    }
    lemma_lt_from_common(b, p, 0, p.len() as int);
}

/// Whether `a` sorts strictly before `b`.
pub fn text_less(a: &Vec<char>, b: &Vec<char>) -> (r: bool)
    ensures
        r == text_lt(a@, b@),
{
    let mut i: usize = 0;
    while i < a.len() && i < b.len()
        invariant
            i <= a.len(),
            i <= b.len(),
            text_lt(a@, b@) == text_lt_from(a@, b@, i as int),
        decreases a.len() - i,
    {
        if a[i] != b[i] {
            return a[i] < b[i];
        }
        i = i + 1;
    }
    i < b.len()
}


/// Index of the last `'.'` among the first `end` characters of `name`, or -1.
pub open spec fn last_dot_before(name: Seq<char>, end: int) -> int
    decreases end,
{
    if end <= 0 {
        -1
    } else if name[end - 1] == '.' {
        end - 1
    } else {
        last_dot_before(name, end - 1)
    }
}

/// The extension of a file name, as `Path::extension` gives it: the text after
/// the last dot, where a name whose only dot leads it (".bashrc"), a name
/// without a dot, and ".." have none.
pub open spec fn name_extension(name: Seq<char>) -> Option<Seq<char>> {
    let k = last_dot_before(name, name.len() as int);
    if name == seq!['.', '.'] || k <= 0 {
        None
    } else {
        Some(name.subrange(k + 1, name.len() as int))
    }
}

/// The file name has the extension "md", compared ASCII-case-insensitively.
pub open spec fn is_md_name(name: Seq<char>) -> bool {
    match name_extension(name) {
        Some(e) => e.len() == 2 && (e[0] == 'm' || e[0] == 'M') && (e[1] == 'd' || e[1] == 'D'),
        None => false,
    }
}

/// The name is hidden: it starts with a dot.
pub open spec fn is_hidden_name(name: Seq<char>) -> bool {
    name.len() > 0 && name[0] == '.'
}

/// `pat` occurs in `s` starting at index `i`.
pub open spec fn occurs_at(s: Seq<char>, pat: Seq<char>, i: int) -> bool {
    0 <= i && i + pat.len() <= s.len() && s.subrange(i, i + pat.len()) == pat
}

/// The name of an editor's scratch file: it ends with `~` or holds ".swp".
pub open spec fn is_temp_name(name: Seq<char>) -> bool {
    (name.len() > 0 && name.last() == '~') || exists|i: int|
        occurs_at(name, seq!['.', 's', 'w', 'p'], i)
}

proof fn lemma_last_dot_bounds(name: Seq<char>, end: int)
    requires
        0 <= end <= name.len(),
    ensures
        -1 <= last_dot_before(name, end) < end,
        last_dot_before(name, end) >= 0 ==> name[last_dot_before(name, end)] == '.',
        forall|j: int| last_dot_before(name, end) < j < end ==> name[j] != '.',
    decreases end,
{
    if end > 0 && name[end - 1] != '.' {
        lemma_last_dot_bounds(name, end - 1);
    }
}

/// A name is a Markdown name exactly when it ends with a dot followed by
/// "md" in any ASCII case, with at least one character before that dot.
pub proof fn lemma_md_name_shape(name: Seq<char>)
    ensures
        is_md_name(name) <==> {
            let n = name.len() as int;
            &&& n >= 4
            &&& name[n - 3] == '.'
            &&& (name[n - 2] == 'm' || name[n - 2] == 'M')
            &&& (name[n - 1] == 'd' || name[n - 1] == 'D')
        },
{
    let n = name.len() as int;
    lemma_last_dot_bounds(name, n);
    let k = last_dot_before(name, n);
    if n >= 4 && name[n - 3] == '.' && (name[n - 2] == 'm' || name[n - 2] == 'M') && (name[n
        - 1] == 'd' || name[n - 1] == 'D') {
        assert(k == n - 3);
        assert(name != seq!['.', '.']);
        let e = name.subrange(k + 1, n);
        assert(e.len() == 2 && e[0] == name[n - 2] && e[1] == name[n - 1]);
    }
    if is_md_name(name) {
        assert(k > 0);
        let e = name.subrange(k + 1, n);
        assert(e.len() == 2);
        assert(e[0] == name[n - 2] && e[1] == name[n - 1]);
    }
}

/// A name is hidden exactly when it starts with a dot.
pub proof fn lemma_hidden_name_shape(c: char, rest: Seq<char>)
    ensures
        is_hidden_name(seq![c] + rest) <==> c == '.',
        !is_hidden_name(Seq::<char>::empty()),
{
    assert((seq![c] + rest)[0] == c);
}

/// A name ending with `~`, or holding ".swp" anywhere, is a scratch file's
/// name; a name that does neither is not.
pub proof fn lemma_temp_name_shape(p: Seq<char>, s: Seq<char>)
    ensures
        is_temp_name(p + seq!['~']),
        is_temp_name(p + seq!['.', 's', 'w', 'p'] + s),
        ((p.len() == 0 || p.last() != '~') && forall|i: int|
            0 <= i && i + 4 <= p.len() ==> #[trigger] p.subrange(i, i + 4) != seq!['.', 's', 'w', 'p'])
            ==> !is_temp_name(p),
{
    let a = p + seq!['~'];
    assert(a.last() == '~');
    let b = p + seq!['.', 's', 'w', 'p'] + s;
    assert(b.subrange(p.len() as int, p.len() + 4int) =~= seq!['.', 's', 'w', 'p']);
    assert(occurs_at(b, seq!['.', 's', 'w', 'p'], p.len() as int));
}

/// Whether the file name has the extension "md" (in any ASCII case).
pub fn has_md_extension(name: &str) -> (r: bool)
    ensures
        r == is_md_name(name@),
{
    let v = chars_of(name);
    let n = v.len();
    if n == 2 && v[0] == '.' && v[1] == '.' {
        assert(v@ == seq!['.', '.']);
        return false;
    }
    let mut end: usize = n;
    while end > 0 && v[end - 1] != '.'
        invariant
            end <= n,
            n == v@.len(),
            last_dot_before(v@, n as int) == last_dot_before(v@, end as int),
        decreases end,
    {
        end = end - 1;
    }
    proof {
        if end > 0 {
            assert(last_dot_before(v@, end as int) == end - 1);
        } else {
            assert(last_dot_before(v@, 0) == -1);
        }
    }
    if end <= 1 {
        return false;
    }
    let k = end - 1;
    if n - k - 1 != 2 {
        return false;
    }
    assert(v@.subrange(k + 1, n as int)[0] == v@[k + 1]);
    assert(v@.subrange(k + 1, n as int)[1] == v@[k + 2]);
    (v[k + 1] == 'm' || v[k + 1] == 'M') && (v[k + 2] == 'd' || v[k + 2] == 'D')
}

/// Whether the name starts with a dot.
pub fn is_hidden(name: &str) -> (r: bool)
    ensures
        r == is_hidden_name(name@),
{
    let v = chars_of(name);
    v.len() > 0 && v[0] == '.'
}

/// Whether the name marks an editor's scratch file (ends with `~` or holds
/// ".swp").
pub fn is_temp_file_name(name: &str) -> (r: bool)
    ensures
        r == is_temp_name(name@),
{
    let v = chars_of(name);
    let n = v.len();
    let ghost pat = seq!['.', 's', 'w', 'p'];
    if n > 0 && v[n - 1] == '~' {
        return true;
    }
    if n < 4 {
        assert forall|i: int| !occurs_at(v@, pat, i) by {}
        return false;
    }
    let mut i: usize = 0;
    while i <= n - 4
        invariant
            n == v@.len(),
            v@ == name@,
            4 <= n,
            i <= n - 3,
            pat == seq!['.', 's', 'w', 'p'],
            forall|j: int| 0 <= j < i ==> !occurs_at(v@, pat, j),
        decreases n - i,
    {
        if v[i] == '.' && v[i + 1] == 's' && v[i + 2] == 'w' && v[i + 3] == 'p' {
            assert(v@.subrange(i as int, i + 4) =~= pat);
            assert(occurs_at(v@, pat, i as int));
            assert(is_temp_name(v@));
            return true;
        }
        assert(!occurs_at(v@, pat, i as int)) by {
            if v@.subrange(i as int, i + 4) == pat {
                assert(v@.subrange(i as int, i + 4)[0] == v@[i as int]);
                assert(v@.subrange(i as int, i + 4)[1] == v@[i + 1]);
                assert(v@.subrange(i as int, i + 4)[2] == v@[i + 2]);
                assert(v@.subrange(i as int, i + 4)[3] == v@[i + 3]);
            }
        }
        i = i + 1;
    }
    assert forall|j: int| !occurs_at(v@, pat, j) by {}
    false
}


/// `base` without one trailing slash.
pub open spec fn without_trailing_slash(base: Seq<char>) -> Seq<char> {
    if base.len() > 0 && base.last() == '/' {
        base.drop_last()
    } else {
        base
    }
}

/// The path `path` relative to the directory `base` (a trailing slash of
/// `base` aside): empty when the two are the same, what follows `base` and a
/// slash when `path` lies under it, and `None` when it does not.
pub open spec fn relative_path_of(base: Seq<char>, path: Seq<char>) -> Option<Seq<char>> {
    let b = without_trailing_slash(base);
    if path == b {
        Some(Seq::empty())
    } else if b.len() < path.len() && path.take(b.len() as int) == b && path[b.len() as int]
        == '/' {
        Some(path.skip(b.len() + 1int))
    } else {
        None
    }
}

/// The path `path` relative to the directory `base`, if it lies under it.
pub fn relative_path(base: &str, path: &str) -> (r: Option<String>)
    ensures
        r matches Some(s) ==> relative_path_of(base@, path@) == Some(s@),
        r is None ==> relative_path_of(base@, path@) is None,
{
    let bv = chars_of(base);
    let pv = chars_of(path);
    let mut n = bv.len();
    if n > 0 && bv[n - 1] == '/' {
        n = n - 1;
    }
    let ghost b = without_trailing_slash(base@);
    assert(b =~= bv@.take(n as int));
    if pv.len() < n {
        return None;
    }
    let mut i: usize = 0;
    while i < n
        invariant
            i <= n,
            n <= bv@.len(),
            n <= pv@.len(),
            bv@ == base@,
            pv@ == path@,
            b == bv@.take(n as int),
            forall|j: int| 0 <= j < i ==> pv@[j] == bv@[j],
        decreases n - i,
    {
        if pv[i] != bv[i] {
            assert(path@.take(n as int)[i as int] != b[i as int]);
            return None;
        }
        i = i + 1;
    }
    assert(path@.take(n as int) =~= b);
    if pv.len() == n {
        assert(path@ =~= b);
        let rest = String::from_str(path.substring_char(n, n));
        assert(rest@ =~= Seq::<char>::empty());
        return Some(rest);
    }
    if pv[n] == '/' {
        let rest = String::from_str(path.substring_char(n + 1, pv.len()));
        assert(rest@ =~= path@.skip(n + 1));
        Some(rest)
    } else {
        assert(path@ != b);
        None
    }
}

/// Whether two strings hold the same characters.
pub fn same_text(a: &str, b: &str) -> (r: bool)
    ensures
        r == (a@ == b@),
{
    let x = chars_of(a);
    let y = chars_of(b);
    if x.len() != y.len() {
        return false;
    }
    let mut i: usize = 0;
    while i < x.len()
        invariant
            x.len() == y.len(),
            x@ == a@,
            y@ == b@,
            i <= x.len(),
            forall|j: int| 0 <= j < i ==> x@[j] == y@[j],
        decreases x.len() - i,
    {
        if x[i] != y[i] {
            return false;
        }
        i = i + 1;
    }
    assert(x@ =~= y@);
    true
}

} // verus!
