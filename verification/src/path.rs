//! Unix paths as text.
//!
//! A path is a text whose components are separated by slashes. Repeated
//! slashes, trailing slashes and `.` components (but for a leading one) do not
//! count.
use vstd::prelude::*;
use vstd::string::StringExecFns;

use crate::text::{chars_of, string_of_range};

verus! {

pub open spec fn is_absolute_path(p: Seq<char>) -> bool {
    p.len() > 0 && p[0] == '/'
}

/// `child` below `base`: an absolute child stands for itself.
pub open spec fn joined(base: Seq<char>, child: Seq<char>) -> Seq<char> {
    if is_absolute_path(child) || base.len() == 0 {
        child
    } else if base[base.len() - 1] == '/' {
        base + child
    } else {
        base.push('/') + child
    }
}

/// `p` without what does not count at its end.
pub open spec fn trim_tail(p: Seq<char>) -> Seq<char>
    decreases p.len(),
{
    if p.len() > 1 && (p[p.len() - 1] == '/' || (p[p.len() - 1] == '.' && p[p.len() - 2] == '/')) {
        trim_tail(p.subrange(0, p.len() - 1))
    } else {
        p
    }
}

/// The position behind the last slash of `p`.
pub open spec fn after_slash(p: Seq<char>) -> int
    decreases p.len(),
{
    if p.len() == 0 {
        0
    } else if p[p.len() - 1] == '/' {
        p.len() as int
    } else {
        after_slash(p.subrange(0, p.len() - 1))
    }
}

/// The path names no component: it is empty or the root.
pub open spec fn has_no_component(t: Seq<char>) -> bool {
    t.len() == 0 || t =~= seq!['/']
}

/// The path without its last component.
pub open spec fn parent_of(p: Seq<char>) -> Option<Seq<char>> {
    let t = trim_tail(p);
    if has_no_component(t) {
        None
    } else {
        Some(trim_tail(t.subrange(0, after_slash(t))))
    }
}

/// The last component, unless it is `.` or `..`.
pub open spec fn file_name_of(p: Seq<char>) -> Option<Seq<char>> {
    let t = trim_tail(p);
    let name = t.subrange(after_slash(t), t.len() as int);
    if has_no_component(t) || name =~= seq!['.'] || name =~= seq!['.', '.'] {
        None
    } else {
        Some(name)
    }
}

pub proof fn lemma_after_slash(p: Seq<char>)
    ensures
        0 <= after_slash(p) <= p.len(),
    decreases p.len(),
{
    if p.len() > 0 && p[p.len() - 1] != '/' {
        lemma_after_slash(p.subrange(0, p.len() - 1));
    }
}

/// What stands behind the last slash holds no slash.
proof fn lemma_no_slash_behind(p: Seq<char>, i: int)
    requires
        0 <= i,
        after_slash(p) <= i < p.len(),
    ensures
        p[i] != '/',
    decreases p.len(),
{
    let shorter = p.subrange(0, p.len() - 1);
    if p[p.len() - 1] != '/' && i < p.len() - 1 {
        lemma_no_slash_behind(shorter, i);
        assert(shorter[i] == p[i]);
    }
}

proof fn lemma_trim_tail(p: Seq<char>)
    ensures
        trim_tail(p).len() > 1 ==> trim_tail(p)[trim_tail(p).len() - 1] != '/',
        trim_tail(p).len() == 0 ==> p.len() == 0,
    decreases p.len(),
{
    if p.len() > 1 && (p[p.len() - 1] == '/' || (p[p.len() - 1] == '.' && p[p.len() - 2] == '/')) {
        lemma_trim_tail(p.subrange(0, p.len() - 1));
    }
}

/// The last component is not empty and holds no slash.
pub proof fn lemma_file_name(p: Seq<char>)
    requires
        file_name_of(p) is Some,
    ensures
        file_name_of(p)->0.len() > 0,
        forall|i: int|
            0 <= i < file_name_of(p)->0.len() ==> #[trigger] file_name_of(p)->0[i] != '/',
{
    let t = trim_tail(p);
    let name = t.subrange(after_slash(t), t.len() as int);
    lemma_trim_tail(p);
    lemma_after_slash(t);
    if t.len() == 1 && t[0] == '/' {
        assert(t =~= seq!['/']);
    }
    assert(t[t.len() - 1] != '/');
    assert(after_slash(t) < t.len()) by {
        lemma_after_slash(t.subrange(0, t.len() - 1));
    }
    assert forall|i: int| 0 <= i < name.len() implies #[trigger] name[i] != '/' by {
        lemma_no_slash_behind(t, after_slash(t) + i);
    }
}

/// Whether `p` is absolute.
pub fn is_absolute(p: &str) -> (r: bool)
    ensures
        r == is_absolute_path(p@),
{
    let cs = chars_of(p);
    cs.len() > 0 && cs[0] == '/'
}

/// `Path::join`.
pub fn join(base: &str, child: &str) -> (r: String)
    ensures
        r@ == joined(base@, child@),
{
    let cs = chars_of(base);
    if is_absolute(child) || cs.len() == 0 {
        return child.to_owned();
    }
    let mut out = base.to_owned();
    if cs[cs.len() - 1] != '/' {
        out.push('/');
    }
    out.append(child);
    out
}

/// The length of `cs[..n]` without what does not count at its end.
fn tail_len(cs: &Vec<char>, n: usize) -> (m: usize)
    requires
        n <= cs.len(),
    ensures
        m <= n,
        cs@.subrange(0, m as int) == trim_tail(cs@.subrange(0, n as int)),
{
    let mut m: usize = n;
    while m > 1 && (cs[m - 1] == '/' || (cs[m - 1] == '.' && cs[m - 2] == '/'))
        invariant
            m <= n <= cs.len(),
            trim_tail(cs@.subrange(0, n as int)) == trim_tail(cs@.subrange(0, m as int)),
        decreases m,
    {
        proof {
            let p = cs@.subrange(0, m as int);
            assert(p.subrange(0, p.len() - 1) =~= cs@.subrange(0, m - 1));
        }
        m -= 1;
    }
    m
}

/// The position behind the last slash of `cs[..n]`.
fn slash_end(cs: &Vec<char>, n: usize) -> (m: usize)
    requires
        n <= cs.len(),
    ensures
        m <= n,
        m == after_slash(cs@.subrange(0, n as int)),
{
    let mut m: usize = n;
    while m > 0 && cs[m - 1] != '/'
        invariant
            m <= n <= cs.len(),
            after_slash(cs@.subrange(0, n as int)) == after_slash(cs@.subrange(0, m as int)),
        decreases m,
    {
        proof {
            let p = cs@.subrange(0, m as int);
            assert(p.subrange(0, p.len() - 1) =~= cs@.subrange(0, m - 1));
        }
        m -= 1;
    }
    m
}

/// `Path::parent`.
pub fn parent(p: &str) -> (r: Option<String>)
    ensures
        crate::text::opt_view(r) == parent_of(p@),
{
    let cs = chars_of(p);
    let n: usize = tail_len(&cs, cs.len());
    let ghost t = cs@.subrange(0, n as int);
    assert(cs@.subrange(0, cs@.len() as int) =~= p@);
    if n == 0 || (n == 1 && cs[0] == '/') {
        assert(has_no_component(t));
        return None;
    }
    assert(!has_no_component(t));
    let s: usize = slash_end(&cs, n);
    let m: usize = tail_len(&cs, s);
    assert(t.subrange(0, s as int) =~= cs@.subrange(0, s as int));
    Some(string_of_range(&cs, 0, m))
}

/// `Path::file_name`.
pub fn file_name(p: &str) -> (r: Option<String>)
    ensures
        crate::text::opt_view(r) == file_name_of(p@),
{
    let cs = chars_of(p);
    let n: usize = tail_len(&cs, cs.len());
    let ghost t = cs@.subrange(0, n as int);
    assert(cs@.subrange(0, cs@.len() as int) =~= p@);
    if n == 0 || (n == 1 && cs[0] == '/') {
        assert(has_no_component(t));
        return None;
    }
    assert(!has_no_component(t));
    let s: usize = slash_end(&cs, n);
    let ghost name = t.subrange(s as int, n as int);
    assert(name =~= cs@.subrange(s as int, n as int));
    if (n - s == 1 && cs[s] == '.') || (n - s == 2 && cs[s] == '.' && cs[s + 1] == '.') {
        proof {
            if n - s == 1 {
                assert(name =~= seq!['.']);
            } else {
                assert(name =~= seq!['.', '.']);
            }
        }
        return None;
    }
    proof {
        if name =~= seq!['.'] {
            assert(name[0] == cs@[s as int]);
        }
        if name =~= seq!['.', '.'] {
            assert(name[0] == cs@[s as int] && name[1] == cs@[s + 1]);
        }
    }
    Some(string_of_range(&cs, s, n))
}

// ---------------------------------------------------------------------------
// Paths that are the same
// ---------------------------------------------------------------------------

/// The position of the first slash from `i` on, or the end.
pub open spec fn piece_end(p: Seq<char>, i: int) -> int
    decreases p.len() - i,
{
    if 0 <= i < p.len() && p[i] != '/' {
        piece_end(p, i + 1)
    } else {
        i
    }
}

pub proof fn lemma_piece_end(p: Seq<char>, i: int)
    requires
        0 <= i <= p.len(),
    ensures
        i <= piece_end(p, i) <= p.len(),
    decreases p.len() - i,
{
    if i < p.len() && p[i] != '/' {
        lemma_piece_end(p, i + 1);
    }
}

/// The components of `p` from `i` on, each closed by a slash. Empty ones and
/// `.` do not count, but for a `.` that the path starts with.
pub open spec fn components_from(p: Seq<char>, i: int) -> Seq<char>
    decreases p.len() - i,
    via components_from_ends
{
    if i < 0 || i >= p.len() {
        Seq::empty()
    } else {
        let end = piece_end(p, i);
        let piece = p.subrange(i, end);
        let rest = if end < p.len() {
            components_from(p, end + 1)
        } else {
            Seq::empty()
        };
        if piece.len() == 0 || (piece =~= seq!['.'] && i > 0) {
            rest
        } else {
            piece + seq!['/'] + rest
        }
    }
}

#[via_fn]
proof fn components_from_ends(p: Seq<char>, i: int) {
    if 0 <= i < p.len() {
        lemma_piece_end(p, i);
    }
}

/// What two paths have in common if and only if they are the same by their
/// components.
pub open spec fn path_key(p: Seq<char>) -> Seq<char> {
    if is_absolute_path(p) {
        seq!['/'] + components_from(p, 0)
    } else {
        components_from(p, 0)
    }
}

/// The path, by its components.
pub fn key_of(p: &str) -> (r: String)
    ensures
        r@ == path_key(p@),
{
    let cs = chars_of(p);
    let mut out = String::new();
    if cs.len() > 0 && cs[0] == '/' {
        out.push('/');
    }
    assert(path_key(p@) =~= out@ + components_from(cs@, 0));
    let mut i: usize = 0;
    while i < cs.len()
        invariant
            i <= cs.len(),
            cs@ == p@,
            path_key(p@) == out@ + components_from(cs@, i as int),
        decreases cs.len() - i,
    {
        let mut end: usize = i;
        while end < cs.len() && cs[end] != '/'
            invariant
                i <= end <= cs.len(),
                piece_end(cs@, i as int) == piece_end(cs@, end as int),
            decreases cs.len() - end,
        {
            end += 1;
        }
        let ghost piece = cs@.subrange(i as int, end as int);
        let ghost rest = if end < cs@.len() {
            components_from(cs@, end + 1)
        } else {
            Seq::empty()
        };
        let dot = end - i == 1 && cs[i] == '.' && i > 0;
        proof {
            assert((piece =~= seq!['.'] && i > 0) == dot) by {
                if dot {
                    assert(piece =~= seq!['.']);
                }
                if piece =~= seq!['.'] {
                    assert(piece.len() == 1 && piece[0] == '.');
                }
            }
        }
        if end > i && !dot {
            let ghost before = out@;
            out.append(string_of_range(&cs, i, end).as_str());
            out.push('/');
            assert(out@ =~= before + (piece + seq!['/']));
            assert(before + (piece + seq!['/'] + rest) =~= out@ + rest);
        }
        if end == cs.len() {
            assert(out@ + Seq::<char>::empty() =~= out@);
            return out;
        }
        i = end + 1;
    }
    assert(out@ + components_from(cs@, cs@.len() as int) =~= out@);
    out
}

/// Repeated slashes do not make another path.
pub proof fn law_repeated_slashes_do_not_count(a: Seq<char>, b: Seq<char>)
    requires
        a.len() > 0,
    ensures
        path_key(a + seq!['/', '/'] + b) == path_key(a + seq!['/'] + b),
{
    let p = a + seq!['/', '/'] + b;
    let q = a + seq!['/'] + b;
    let n = a.len() as int;
    assert(rest_of(p, n + 1) =~= rest_of(q, n));
    lemma_same_tail(p, q, n + 1, n);
    lemma_slash_pair(p, q, n, 0);
}

spec fn rest_of(p: Seq<char>, i: int) -> Seq<char> {
    p.subrange(i, p.len() as int)
}

/// Two texts with the same rest have the same components in it.
proof fn lemma_same_tail(p: Seq<char>, q: Seq<char>, i: int, j: int)
    requires
        0 < i <= p.len(),
        0 < j <= q.len(),
        rest_of(p, i) == rest_of(q, j),
    ensures
        components_from(p, i) == components_from(q, j),
    decreases p.len() - i,
{
    assert(p.len() - i == rest_of(p, i).len() && q.len() - j == rest_of(q, j).len());
    if i < p.len() {
        lemma_same_end(p, q, i, j);
        let e = piece_end(p, i);
        let f = piece_end(q, j);
        lemma_piece_end(p, i);
        assert(p.subrange(i, e) =~= rest_of(p, i).subrange(0, e - i));
        assert(q.subrange(j, f) =~= rest_of(q, j).subrange(0, f - j));
        if e < p.len() {
            assert(rest_of(p, e + 1) =~= rest_of(rest_of(p, i), e + 1 - i));
            assert(rest_of(q, f + 1) =~= rest_of(rest_of(q, j), f + 1 - j));
            lemma_same_tail(p, q, e + 1, f + 1);
        }
    }
}

proof fn lemma_same_end(p: Seq<char>, q: Seq<char>, i: int, j: int)
    requires
        0 <= i <= p.len(),
        0 <= j <= q.len(),
        rest_of(p, i) == rest_of(q, j),
    ensures
        piece_end(p, i) - i == piece_end(q, j) - j,
    decreases p.len() - i,
{
    assert(p.len() - i == rest_of(p, i).len() && q.len() - j == rest_of(q, j).len());
    if i < p.len() {
        assert(rest_of(p, i)[0] == p[i] && rest_of(q, j)[0] == q[j]);
        if p[i] != '/' {
            assert(rest_of(p, i + 1) =~= rest_of(rest_of(p, i), 1));
            assert(rest_of(q, j + 1) =~= rest_of(rest_of(q, j), 1));
            lemma_same_end(p, q, i + 1, j + 1);
        }
    }
}

/// `p` and `q` agree up to `n`, where `p` has one slash more.
proof fn lemma_slash_pair(p: Seq<char>, q: Seq<char>, n: int, i: int)
    requires
        0 < n,
        0 <= i <= n,
        n + 1 < p.len(),
        p.len() == q.len() + 1,
        p[n] == '/',
        p[n + 1] == '/',
        q[n] == '/',
        forall|k: int| 0 <= k <= n ==> p[k] == q[k],
        components_from(p, n + 1) == components_from(q, n),
    ensures
        components_from(p, i) == components_from(q, i),
    decreases n - i,
{
    lemma_pair_end(p, q, n, i);
    let e = piece_end(p, i);
    assert(p.subrange(i, e) =~= q.subrange(i, e));
    if e < n {
        lemma_slash_pair(p, q, n, e + 1);
    } else {
        assert(components_from(q, n) == components_from(q, n + 1)) by {
            assert(piece_end(q, n) == n);
            assert(q.subrange(n, n).len() == 0);
        }
    }
}

proof fn lemma_pair_end(p: Seq<char>, q: Seq<char>, n: int, i: int)
    requires
        0 <= i <= n < p.len(),
        n < q.len(),
        p[n] == '/',
        q[n] == '/',
        forall|k: int| 0 <= k <= n ==> p[k] == q[k],
    ensures
        piece_end(p, i) == piece_end(q, i),
        i <= piece_end(p, i) <= n,
    decreases n - i,
{
    if p[i] != '/' {
        lemma_pair_end(p, q, n, i + 1);
    }
}

/// A name that can stand alone in a directory.
pub open spec fn is_name(n: Seq<char>) -> bool {
    &&& n.len() > 0
    &&& n != seq!['.']
    &&& n != seq!['.', '.']
    &&& forall|i: int| 0 <= i < n.len() ==> #[trigger] n[i] != '/'
}

/// A directory that is spelt without anything that does not count at its end.
pub open spec fn is_directory(d: Seq<char>) -> bool {
    &&& d.len() > 0
    &&& d[d.len() - 1] != '/'
    &&& !(d.len() > 1 && d[d.len() - 1] == '.' && d[d.len() - 2] == '/')
}

proof fn lemma_behind_the_slash(d: Seq<char>, n: Seq<char>, t: Seq<char>)
    requires
        t == d.push('/') + n,
        forall|i: int| 0 <= i < n.len() ==> #[trigger] n[i] != '/',
    ensures
        after_slash(t) == d.len() + 1,
    decreases n.len(),
{
    if n.len() == 0 {
        assert(t =~= d.push('/'));
        assert(t[t.len() - 1] == '/');
    } else {
        let m = n.subrange(0, n.len() - 1);
        let s = t.subrange(0, t.len() - 1);
        assert(t[t.len() - 1] == n[n.len() - 1]);
        assert(s =~= d.push('/') + m);
        lemma_behind_the_slash(d, m, s);
    }
}

/// What is put below a directory can be taken apart again: the directory is its
/// parent, and the name is its last component.
pub proof fn law_joining_is_undone(d: Seq<char>, n: Seq<char>)
    requires
        is_directory(d),
        is_name(n),
    ensures
        joined(d, n) == d.push('/') + n,
        parent_of(joined(d, n)) == Some(d),
        file_name_of(joined(d, n)) == Some(n),
{
    let t = joined(d, n);
    assert(t =~= d.push('/') + n);
    assert(t[t.len() - 1] == n[n.len() - 1]);
    if t[t.len() - 1] == '.' && t[t.len() - 2] == '/' {
        if n.len() == 1 {
            assert(n =~= seq!['.']);
        } else {
            assert(n[n.len() - 2] == t[t.len() - 2]);
        }
    }
    assert(trim_tail(t) == t);
    lemma_behind_the_slash(d, n, t);
    let head = t.subrange(0, after_slash(t));
    assert(head =~= d.push('/'));
    assert(head.subrange(0, head.len() - 1) =~= d);
    assert(trim_tail(d) == d);
    assert(trim_tail(head) == d);
    assert(t.subrange(after_slash(t), t.len() as int) =~= n);
    assert(t.len() > 1);
}

/// Below nothing a path stands for itself, and so does an absolute one below
/// anything.
pub proof fn law_absolute_paths_stand_for_themselves(d: Seq<char>, p: Seq<char>)
    ensures
        d.len() == 0 ==> joined(d, p) == p,
        p.len() > 0 && p[0] == '/' ==> joined(d, p) == p,
{
}

proof fn lemma_end_of_name(n: Seq<char>, s: Seq<char>, from: int, i: int)
    requires
        0 <= from <= i <= s.len(),
        s.subrange(from, s.len() as int) == n,
        forall|k: int| 0 <= k < n.len() ==> #[trigger] n[k] != '/',
    ensures
        piece_end(s, i) == s.len(),
    decreases s.len() - i,
{
    if i < s.len() {
        assert(n[i - from] == s[i]);
        lemma_end_of_name(n, s, from, i + 1);
    }
}

proof fn lemma_end_kept(p: Seq<char>, s: Seq<char>, i: int)
    requires
        0 <= i <= p.len() < s.len(),
        forall|k: int| 0 <= k < p.len() ==> s[k] == #[trigger] p[k],
        s[p.len() as int] == '/',
    ensures
        piece_end(s, i) == piece_end(p, i),
        i <= piece_end(p, i) <= p.len(),
    decreases p.len() - i,
{
    if i < p.len() {
        assert(s[i] == p[i]);
        if p[i] != '/' {
            lemma_end_kept(p, s, i + 1);
        }
    }
}

/// What the last piece of a path adds to its components: itself and a slash, or
/// nothing where it does not count.
proof fn lemma_components_append(p: Seq<char>, n: Seq<char>, s: Seq<char>, i: int)
    requires
        s == p.push('/') + n,
        forall|k: int| 0 <= k < n.len() ==> #[trigger] n[k] != '/',
        0 <= i <= p.len(),
    ensures
        components_from(s, i) == components_from(p, i) + (if n.len() == 0 || n == seq!['.'] {
            Seq::empty()
        } else {
            n.push('/')
        }),
    decreases p.len() - i,
{
    let m = p.len() as int;
    let tail = if n.len() == 0 || n == seq!['.'] {
        Seq::<char>::empty()
    } else {
        n.push('/')
    };
    assert forall|k: int| 0 <= k < m implies s[k] == #[trigger] p[k] by {}
    assert(s[m] == '/');
    lemma_end_kept(p, s, i);
    assert(components_from(s, m + 1) == tail) by {
        if n.len() > 0 {
            assert(s.subrange(m + 1, s.len() as int) =~= n);
            lemma_end_of_name(n, s, m + 1, m + 1);
            assert(n + seq!['/'] + Seq::<char>::empty() =~= n.push('/'));
        }
    }
    let e = piece_end(p, i);
    if i == m {
        assert(piece_end(s, m) == m);
        assert(s.subrange(m, m).len() == 0);
        assert(Seq::<char>::empty() + tail =~= tail);
    } else {
        assert(s.subrange(i, e) =~= p.subrange(i, e));
        let piece = p.subrange(i, e);
        if e < m {
            lemma_components_append(p, n, s, e + 1);
            let rest = components_from(p, e + 1);
            assert(piece + seq!['/'] + (rest + tail) =~= piece + seq!['/'] + rest + tail);
        } else {
            assert(piece + seq!['/'] + Seq::<char>::empty() + tail =~= piece + seq!['/'] + tail);
            assert(Seq::<char>::empty() + tail =~= tail);
        }
    }
}

/// Paths are told apart by their components: one more name makes another path, in
/// which that name comes last; a slash or a `.` at the end does not.
pub proof fn law_paths_are_told_apart_by_components(p: Seq<char>, n: Seq<char>)
    requires
        p.len() > 0,
    ensures
        is_name(n) ==> path_key(p.push('/') + n) == path_key(p) + n.push('/'),
        path_key(p.push('/')) == path_key(p),
        path_key(p.push('/').push('.')) == path_key(p),
        is_name(n) ==> path_key(n) == n.push('/'),
        is_name(n) ==> path_key(seq!['/'] + n) == seq!['/'] + n.push('/'),
{
    let e = Seq::<char>::empty();
    let dot = seq!['.'];
    let one = p.push('/') + e;
    let two = p.push('/') + dot;
    assert(one =~= p.push('/'));
    assert(two =~= p.push('/').push('.'));
    lemma_components_append(p, e, one, 0);
    lemma_components_append(p, dot, two, 0);
    assert(one[0] == p[0] && two[0] == p[0]);
    assert(components_from(p, 0) + e =~= components_from(p, 0));
    if is_name(n) {
        let s = p.push('/') + n;
        lemma_components_append(p, n, s, 0);
        assert(s[0] == p[0]);
        assert(seq!['/'] + (components_from(p, 0) + n.push('/')) =~= seq!['/'] + components_from(
            p,
            0,
        ) + n.push('/'));
        assert(n.subrange(0, n.len() as int) =~= n);
        lemma_end_of_name(n, n, 0, 0);
        assert(n[0] != '/');
        assert(n + seq!['/'] + e =~= n.push('/'));
        let r = seq!['/'] + n;
        assert(r =~= e.push('/') + n);
        lemma_components_append(e, n, r, 0);
        assert(components_from(e, 0) =~= e);
        assert(e + n.push('/') =~= n.push('/'));
        assert(r[0] == '/');
    }
}

proof fn lemma_no_slash(n: Seq<char>)
    requires
        forall|i: int| 0 <= i < n.len() ==> #[trigger] n[i] != '/',
    ensures
        after_slash(n) == 0,
    decreases n.len(),
{
    if n.len() > 0 {
        let m = n.subrange(0, n.len() - 1);
        assert(n[n.len() - 1] != '/');
        assert forall|i: int| 0 <= i < m.len() implies #[trigger] m[i] != '/' by {
            assert(m[i] == n[i]);
        }
        lemma_no_slash(m);
    }
}

/// A name that stands alone has nothing before it.
pub proof fn lemma_name_alone(n: Seq<char>)
    requires
        is_name(n),
    ensures
        parent_of(n) == Some(Seq::<char>::empty()),
        file_name_of(n) == Some(n),
{
    let k = n.len() as int;
    assert(n[k - 1] != '/');
    if k > 1 {
        assert(n[k - 2] != '/');
    }
    assert(trim_tail(n) == n);
    lemma_no_slash(n);
    let e = n.subrange(0, 0);
    assert(e =~= Seq::<char>::empty());
    assert(trim_tail(e) == e);
    assert(n.subrange(0, k) =~= n);
    assert(n[0] != '/');
    assert(!(n =~= seq!['/']));
}

} // verus!
