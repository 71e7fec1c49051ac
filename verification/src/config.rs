//! The parts of the configuration that decisions read.
use vstd::prelude::*;

use crate::text::{chars_of, is_space, is_space_char};

verus! {

/// Whose issues are admitted.
#[derive(Debug, PartialEq, Eq)]
pub enum AssigneeSpec {
    /// The holder of the API token.
    Me,
    /// A user named by id, email or name.
    Selector(String),
}

impl AssigneeSpec {
    /// The selector as it was written.
    pub fn raw(&self) -> (s: &str)
        ensures
            s@ == self.raw_text(),
    {
        match self {
            AssigneeSpec::Me => "me",
            AssigneeSpec::Selector(s) => s.as_str(),
        }
    }

    pub open spec fn raw_text(&self) -> Seq<char> {
        match self {
            AssigneeSpec::Me => "me"@,
            AssigneeSpec::Selector(s) => s@,
        }
    }
}

/// An entry of the repository allowlist.
#[derive(Debug, PartialEq, Eq)]
pub struct RepoEntry {
    pub ghq: String,
}

/// Which issues belong to a repository.
#[derive(Debug, PartialEq, Eq)]
pub enum LinearScope {
    /// All issues of a team.
    Team { key: String },
    /// All issues that carry one of these labels.
    Labels { any_of: Vec<String> },
}

impl Clone for LinearScope {
    fn clone(&self) -> (r: Self)
        ensures
            r matches LinearScope::Team { key } ==> *self matches LinearScope::Team { key: k } && key == k,
            r matches LinearScope::Labels { any_of } ==> *self matches LinearScope::Labels { any_of: a }
                && any_of@ == a@,
    {
        match self {
            LinearScope::Team { key } => LinearScope::Team { key: key.clone() },
            LinearScope::Labels { any_of } => LinearScope::Labels {
                any_of: crate::text::clone_list(any_of),
            },
        }
    }
}

/// A configured repository.
#[derive(Debug, PartialEq, Eq)]
pub struct RepoConfig {
    pub id: String,
    /// The ghq identifier: `owner/repo` or `host/owner/repo`.
    pub repo: String,
    pub scope: LinearScope,
    pub workflow_path: String,
    pub webhook_secret_env: Option<String>,
    pub webhook_secret: Option<String>,
}

/// The segments of `s` between slashes, from position `i` on.
pub open spec fn segments_from(s: Seq<char>, i: int) -> Seq<Seq<char>>
    decreases s.len() - i,
{
    if i < 0 || i > s.len() {
        Seq::empty()
    } else {
        let e = slash_from(s, i);
        if e < i || e >= s.len() {
            seq![s.subrange(i, s.len() as int)]
        } else {
            seq![s.subrange(i, e)] + segments_from(s, e + 1)
        }
    }
}

/// The position of the first slash at or behind `i`, or the length.
pub open spec fn slash_from(s: Seq<char>, i: int) -> int
    decreases s.len() - i,
{
    if i < 0 || i >= s.len() {
        s.len() as int
    } else if s[i] == '/' {
        i
    } else {
        slash_from(s, i + 1)
    }
}

/// `owner/repo` or `host/owner/repo`: two or three segments, none of them
/// empty, and no white space.
pub open spec fn ghq_identifier(s: Seq<char>) -> bool {
    let parts = segments_from(s, 0);
    &&& 2 <= parts.len() <= 3
    &&& forall|i: int| 0 <= i < parts.len() ==> (#[trigger] parts[i]).len() > 0
    &&& forall|i: int| 0 <= i < s.len() ==> !is_space(#[trigger] s[i])
}

/// Whether `s` has the shape of a ghq identifier.
pub fn validate_ghq_identifier(s: &str) -> (r: bool)
    ensures
        r == ghq_identifier(s@),
{
    let cs = chars_of(s);
    let n: usize = cs.len();
    let mut i: usize = 0;
    while i < n
        invariant
            i <= n == cs.len(),
            cs@ == s@,
            forall|k: int| 0 <= k < i ==> !is_space(#[trigger] cs@[k]),
        decreases n - i,
    {
        if is_space_char(cs[i]) {
            assert(is_space(s@[i as int]));
            return false;
        }
        i += 1;
    }
    // Walk the segments; `count` of them lie before `start`.
    let ghost parts = segments_from(s@, 0);
    let mut count: usize = 0;
    let mut start: usize = 0;
    let mut all_full = true;
    loop
        invariant
            n == cs.len(),
            cs@ == s@,
            start <= n,
            count <= start,
            parts == segments_from(s@, 0),
            parts.len() == count + segments_from(s@, start as int).len(),
            forall|k: int| 0 <= k < segments_from(s@, start as int).len() ==> parts[count + k] == #[trigger] segments_from(s@, start as int)[k],
            all_full == (forall|k: int| 0 <= k < count ==> (#[trigger] parts[k]).len() > 0),
            forall|k: int| 0 <= k < n ==> !is_space(#[trigger] cs@[k]),
        decreases n - start,
    {
        let mut e: usize = start;
        while e < n && cs[e] != '/'
            invariant
                start <= e <= n == cs.len(),
                cs@ == s@,
                slash_from(s@, start as int) == slash_from(s@, e as int),
            decreases n - e,
        {
            e += 1;
        }
        let ghost here = segments_from(s@, start as int);
        if e == n {
            let last_full = start < e;
            proof {
                assert(here =~= seq![s@.subrange(start as int, n as int)]);
                assert(parts[count as int] == here[0]);
                assert(parts.len() == count + 1);
            }
            let total: usize = count;
            let ok = all_full && last_full && 1 <= total && total <= 2;
            proof {
                if all_full && last_full {
                    assert forall|k: int| 0 <= k < parts.len() implies (#[trigger] parts[k]).len()
                        > 0 by {}
                }
            }
            return ok;
        }
        let full = start < e;
        proof {
            let rest = segments_from(s@, e + 1);
            assert(here =~= seq![s@.subrange(start as int, e as int)] + rest);
            assert(parts[count as int] == here[0]);
            assert forall|k: int| 0 <= k < rest.len() implies parts[count + 1 + k]
                == #[trigger] rest[k] by {
                assert(here[k + 1] == rest[k]);
                assert(parts[count + (k + 1)] == here[k + 1]);
            }
        }
        all_full = all_full && full;
        count += 1;
        start = e + 1;
    }
}

/// A segment: something without slashes and white space.
pub open spec fn is_segment(a: Seq<char>) -> bool {
    &&& a.len() > 0
    &&& forall|i: int| 0 <= i < a.len() ==> #[trigger] a[i] != '/' && !is_space(a[i])
}

/// `s` is `a`, a slash and `b`.
pub open spec fn slashed(s: Seq<char>, a: Seq<char>, b: Seq<char>) -> bool {
    s == a.push('/') + b
}

proof fn lemma_slash_from(s: Seq<char>, i: int)
    requires
        0 <= i <= s.len(),
    ensures
        i <= slash_from(s, i) <= s.len(),
        slash_from(s, i) < s.len() ==> s[slash_from(s, i)] == '/',
        forall|k: int| i <= k < slash_from(s, i) ==> #[trigger] s[k] != '/',
    decreases s.len() - i,
{
    if i < s.len() && s[i] != '/' {
        lemma_slash_from(s, i + 1);
    }
}

proof fn lemma_cut(s: Seq<char>, i: int)
    requires
        0 <= i <= s.len(),
    ensures
        ({
            let e = slash_from(s, i);
            &&& e == s.len() ==> segments_from(s, i) == seq![s.subrange(i, e)]
            &&& e < s.len() ==> segments_from(s, i) == seq![s.subrange(i, e)] + segments_from(
                s,
                e + 1,
            )
            &&& segments_from(s, i).len() > 0
        }),
    decreases s.len() - i,
{
    lemma_slash_from(s, i);
    let e = slash_from(s, i);
    if e < s.len() {
        lemma_cut(s, e + 1);
    }
}

proof fn lemma_two_segments(s: Seq<char>, a: Seq<char>, b: Seq<char>)
    requires
        slashed(s, a, b),
        is_segment(a),
        is_segment(b),
    ensures
        ghq_identifier(s),
{
    lemma_first_slash(s, a, b);
    assert(s.subrange(a.len() + 1int, s.len() as int) =~= b);
    lemma_last_segment(s, a.len() + 1int, b);
    assert(segments_from(s, 0) =~= seq![a, b]);
    lemma_no_space(s, a, b);
}

proof fn lemma_three_segments(
    s: Seq<char>,
    h: Seq<char>,
    r: Seq<char>,
    a: Seq<char>,
    b: Seq<char>,
)
    requires
        slashed(s, h, r),
        slashed(r, a, b),
        is_segment(h),
        is_segment(a),
        is_segment(b),
    ensures
        ghq_identifier(s),
{
    let n = s.len() as int;
    lemma_first_slash(s, h, r);
    let at: int = h.len() + 1int;
    lemma_slash_from(s, at);
    assert forall|i: int| 0 <= i < r.len() implies s[at + i] == #[trigger] r[i] by {}
    assert forall|i: int| 0 <= i < a.len() implies s[at + i] == #[trigger] a[i] by {
        assert(r[i] == a[i]);
    }
    assert(s[at + a.len()] == '/') by {
        assert(r[a.len() as int] == '/');
    }
    let f = slash_from(s, at);
    if f < at + a.len() {
        assert(a[f - at] == s[f]);
    }
    assert(f == at + a.len());
    lemma_cut(s, at);
    assert(s.subrange(at, f) =~= a);
    assert(s.subrange(f + 1, n) =~= b) by {
        assert forall|i: int| 0 <= i < b.len() implies s[f + 1 + i] == b[i] by {
            assert(r[a.len() + 1int + i] == b[i]);
        }
    }
    lemma_last_segment(s, f + 1, b);
    assert(segments_from(s, 0) =~= seq![h, a, b]);
    lemma_no_space(r, a, b);
    assert forall|i: int| 0 <= i < s.len() implies !is_space(#[trigger] s[i]) by {
        if i < h.len() {
            assert(s[i] == h[i]);
        } else if i > h.len() {
            assert(s[i] == r[i - at]);
        }
    }
}

/// `s` is an owner and a name.
pub open spec fn is_pair(s: Seq<char>) -> bool {
    exists|a: Seq<char>, b: Seq<char>| #[trigger] slashed(s, a, b) && is_segment(a) && is_segment(b)
}

/// `s` is a host, an owner and a name.
pub open spec fn is_triple(s: Seq<char>) -> bool {
    exists|h: Seq<char>, r: Seq<char>| #[trigger] slashed(s, h, r) && is_segment(h) && is_pair(r)
}

proof fn lemma_identifier(s: Seq<char>)
    requires
        ghq_identifier(s),
    ensures
        is_pair(s) || is_triple(s),
{
    let n = s.len() as int;
    let parts = segments_from(s, 0);
    lemma_cut(s, 0);
    lemma_slash_from(s, 0);
    let e = slash_from(s, 0);
    assert(e < n);
    lemma_cut(s, e + 1);
    lemma_slash_from(s, e + 1);
    let f = slash_from(s, e + 1);
    let a = s.subrange(0, e);
    assert(parts[0] == a);
    assert(parts[1] == segments_from(s, e + 1)[0]);
    let b = s.subrange(e + 1, f);
    assert(parts[1] == b);
    assert(is_segment(a) && is_segment(b));
    if f == n {
        assert(s =~= a.push('/') + b);
        assert(slashed(s, a, b));
    } else {
        lemma_cut(s, f + 1);
        lemma_slash_from(s, f + 1);
        let g = slash_from(s, f + 1);
        assert(parts[2] == segments_from(s, f + 1)[0]);
        if g < n {
            lemma_cut(s, g + 1);
        }
        let c = s.subrange(f + 1, g);
        assert(parts[2] == c);
        assert(is_segment(c));
        let r = s.subrange(e + 1, n);
        assert(s =~= a.push('/') + r);
        assert(r =~= b.push('/') + c);
        assert(slashed(s, a, r) && slashed(r, b, c));
    }
}

/// An identifier of a repository is an owner and a name, or a host, an owner and
/// a name, with one slash between each two.
pub proof fn law_repository_identifiers(s: Seq<char>)
    ensures
        ghq_identifier(s) <==> is_pair(s) || is_triple(s),
{
    if ghq_identifier(s) {
        lemma_identifier(s);
    }
    if is_pair(s) {
        let (a, b) = choose|a: Seq<char>, b: Seq<char>| #[trigger]
            slashed(s, a, b) && is_segment(a) && is_segment(b);
        lemma_two_segments(s, a, b);
    }
    if is_triple(s) {
        let (h, r) = choose|h: Seq<char>, r: Seq<char>| #[trigger]
            slashed(s, h, r) && is_segment(h) && is_pair(r);
        let (a, b) = choose|a: Seq<char>, b: Seq<char>| #[trigger]
            slashed(r, a, b) && is_segment(a) && is_segment(b);
        lemma_three_segments(s, h, r, a, b);
    }
}

proof fn lemma_no_space(s: Seq<char>, a: Seq<char>, b: Seq<char>)
    requires
        slashed(s, a, b),
        is_segment(a),
        is_segment(b),
    ensures
        forall|i: int| 0 <= i < s.len() ==> !is_space(#[trigger] s[i]),
{
    assert forall|i: int| 0 <= i < s.len() implies !is_space(#[trigger] s[i]) by {
        if i < a.len() {
            assert(s[i] == a[i]);
        } else if i > a.len() {
            assert(s[i] == b[i - a.len() - 1]);
        }
    }
}

proof fn lemma_first_slash(s: Seq<char>, a: Seq<char>, b: Seq<char>)
    requires
        slashed(s, a, b),
        is_segment(a),
    ensures
        slash_from(s, 0) == a.len(),
        segments_from(s, 0) == seq![a] + segments_from(s, a.len() + 1int),
{
    lemma_slash_from(s, 0);
    let e = slash_from(s, 0);
    assert(s[a.len() as int] == '/');
    if e < a.len() {
        assert(a[e] == s[e]);
    }
    lemma_cut(s, 0);
    assert(s.subrange(0, e) =~= a);
}

proof fn lemma_last_segment(s: Seq<char>, i: int, b: Seq<char>)
    requires
        0 <= i <= s.len(),
        s.subrange(i, s.len() as int) == b,
        is_segment(b),
    ensures
        segments_from(s, i) == seq![b],
{
    lemma_slash_from(s, i);
    let e = slash_from(s, i);
    if e < s.len() {
        assert(b[e - i] == s[e]);
    }
    lemma_cut(s, i);
}

} // verus!
