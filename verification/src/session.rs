//! The scratch directory of each issue.
//!
//! The directory of an issue is `<root>/<id>`. Only an identifier of ASCII
//! letters and digits, `-` and `_` names one.
use vstd::prelude::*;

use crate::orchestrator::state::IssueId;
use crate::path::{after_slash, file_name_of, has_no_component, is_absolute_path, join, joined, parent_of, trim_tail};
use crate::strmap::StrMap;
use crate::text::{chars_of, contains, contains_char, has_text, join2, join3, str_eq};
use crate::tools::wt::{is_branch_char, safe_char};

verus! {

#[derive(Debug, Clone, PartialEq, Eq)]
pub enum SessionError {
    /// The identifier cannot name a directory.
    InvalidIssueId { id: String, reason: String },
    /// Another identifier holds the directory.
    Collision { incoming: String, existing: String },
    /// The file system refused.
    Filesystem { path: String, message: String },
}

impl SessionError {
    pub open spec fn text(&self) -> Seq<char> {
        match self {
            SessionError::InvalidIssueId { id, reason } => "issue identifier `"@ + id@
                + "` rejected: "@ + reason@,
            SessionError::Collision { incoming, existing } => "issue identifier `"@ + incoming@
                + "` collides with already-active session for `"@ + existing@
                + "` after sanitization"@,
            SessionError::Filesystem { path, message } => "filesystem error operating on `"@ + path@
                + "`: "@ + message@,
        }
    }

    /// The error in words.
    pub fn message(&self) -> (s: String)
        ensures
            s@ == self.text(),
    {
        match self {
            SessionError::InvalidIssueId { id, reason } => {
                let head = join3("issue identifier `", id.as_str(), "` rejected: ");
                join2(head.as_str(), reason.as_str())
            },
            SessionError::Collision { incoming, existing } => {
                let head = join3(
                    "issue identifier `",
                    incoming.as_str(),
                    "` collides with already-active session for `",
                );
                join3(head.as_str(), existing.as_str(), "` after sanitization")
            },
            SessionError::Filesystem { path, message } => {
                let head = join3("filesystem error operating on `", path.as_str(), "`: ");
                join2(head.as_str(), message.as_str())
            },
        }
    }
}

/// Where the identifiers with a directory of their own stand. A directory is
/// reserved for the identifier that it was first asked for.
#[derive(Debug)]
pub struct SessionManager {
    pub root: String,
    /// The identifier that holds each directory.
    pub reservations: StrMap<String>,
}

/// The position of the first character of `id`, from `i` on, that is refused.
pub open spec fn first_refused(id: Seq<char>, i: int) -> int
    decreases id.len() - i,
{
    if i < 0 || i >= id.len() || !is_branch_char(id[i]) {
        i
    } else {
        first_refused(id, i + 1)
    }
}

/// Why an identifier is refused, if it is.
pub open spec fn id_fault(id: Seq<char>) -> Option<Seq<char>> {
    if id.len() == 0 {
        Some("identifier is empty"@)
    } else if has_text(id, ".."@) {
        Some("path-traversal segment `..` is not allowed"@)
    } else if id[0] == '/' || id[0] == '\\' {
        Some("absolute paths are not allowed"@)
    } else if id.contains('/') || id.contains('\\') {
        Some("path separators are not allowed"@)
    } else if id.contains('\0') {
        Some("NUL byte is not allowed"@)
    } else if first_refused(id, 0) < id.len() {
        Some("character `"@.push(id[first_refused(id, 0)]) + "` is outside [A-Za-z0-9_-]"@)
    } else {
        None
    }
}

fn refused(id: &str, reason: &str) -> (e: SessionError)
    ensures
        e matches SessionError::InvalidIssueId { id: i, reason: r } && i@ == id@ && r@ == reason@,
{
    SessionError::InvalidIssueId { id: id.to_owned(), reason: reason.to_owned() }
}

/// Checks that an identifier can name a directory. It is kept as it is.
pub fn sanitize_issue_id(id: &str) -> (r: Result<String, SessionError>)
    ensures
        r is Ok == id_fault(id@) is None,
        r matches Ok(s) ==> s@ == id@,
        r matches Err(e) ==> e matches SessionError::InvalidIssueId { id: i, reason } && i@ == id@
            && Some(reason@) == id_fault(id@),
{
    let cs = chars_of(id);
    if cs.len() == 0 {
        return Err(refused(id, "identifier is empty"));
    }
    if contains(id, "..") {
        return Err(refused(id, "path-traversal segment `..` is not allowed"));
    }
    if cs[0] == '/' || cs[0] == '\\' {
        return Err(refused(id, "absolute paths are not allowed"));
    }
    if contains_char(id, '/') || contains_char(id, '\\') {
        return Err(refused(id, "path separators are not allowed"));
    }
    if contains_char(id, '\0') {
        return Err(refused(id, "NUL byte is not allowed"));
    }
    let mut i: usize = 0;
    while i < cs.len()
        invariant
            i <= cs.len(),
            cs@ == id@,
            first_refused(id@, 0) == first_refused(id@, i as int),
            id_fault(id@) == if first_refused(id@, 0) < id@.len() {
                Some(
                    "character `"@.push(id@[first_refused(id@, 0)])
                        + "` is outside [A-Za-z0-9_-]"@,
                )
            } else {
                None::<Seq<char>>
            },
        decreases cs.len() - i,
    {
        let c = cs[i];
        if !safe_char(c) {
            let mut head = "character `".to_owned();
            head.push(c);
            let reason = join2(head.as_str(), "` is outside [A-Za-z0-9_-]");
            return Err(refused(id, reason.as_str()));
        }
        i += 1;
    }
    Ok(id.to_owned())
}

impl SessionManager {
    /// Every reservation is of the issue that the directory is named after.
    pub open spec fn consistent(&self) -> bool {
        forall|k: Seq<char>|
            #[trigger] self.reservations@.contains_key(k) ==> self.reservations@[k]@ == k
    }

    /// Directories stand below `root`.
    pub fn with_root(root: String) -> (m: SessionManager)
        ensures
            m.root == root,
            m.reservations@ == Map::<Seq<char>, String>::empty(),
            m.consistent(),
    {
        SessionManager { root, reservations: StrMap::new() }
    }

    /// Directories stand below the cache directory of the platform, or below
    /// the working directory where it has none.
    pub fn under_cache(cache_dir: Option<String>) -> (m: SessionManager)
        ensures
            m.root@ == joined(
                match cache_dir {
                    Some(d) => d@,
                    None => Seq::empty(),
                },
                "roki/sessions"@,
            ),
            m.reservations@ == Map::<Seq<char>, String>::empty(),
            m.consistent(),
    {
        let base = match cache_dir {
            Some(d) => d,
            None => String::new(),
        };
        SessionManager::with_root(join(base.as_str(), "roki/sessions"))
    }

    pub fn root(&self) -> (s: &str)
        ensures
            s@ == self.root@,
    {
        self.root.as_str()
    }

    /// The directory of `issue`, if its identifier can name one.
    pub fn path_for(&self, issue: &IssueId) -> (r: Result<String, SessionError>)
        ensures
            r is Ok == id_fault(issue@) is None,
            r matches Ok(p) ==> p@ == joined(self.root@, issue@),
            r matches Err(e) ==> e matches SessionError::InvalidIssueId { id, reason } && id@
                == issue@ && Some(reason@) == id_fault(issue@),
    {
        let id = sanitize_issue_id(issue.as_str())?;
        Ok(join(self.root.as_str(), id.as_str()))
    }

    /// Reserves the directory of `issue` and says where it is. Asking again
    /// for the same issue changes nothing.
    pub fn ensure(&mut self, issue: &IssueId) -> (r: Result<String, SessionError>)
        ensures
            final(self).root == old(self).root,
            r is Ok == (id_fault(issue@) is None && (old(self).reservations@.contains_key(issue@)
                ==> old(self).reservations@[issue@]@ == issue@)),
            r matches Ok(p) ==> p@ == joined(old(self).root@, issue@) && final(self).reservations@.contains_key(issue@) && final(self).reservations@[issue@]@ == issue@
                && forall|k: Seq<char>|
                k != issue@ ==> (#[trigger] final(self).reservations@.contains_key(k)) == old(self).reservations@.contains_key(k) && final(self).reservations@[k] == old(self).reservations@[k],
            r is Err ==> final(self).reservations@ == old(self).reservations@,
            r matches Err(e) ==> match id_fault(issue@) {
                Some(fault) => e matches SessionError::InvalidIssueId { id, reason } && id@
                    == issue@ && reason@ == fault,
                None => e matches SessionError::Collision { incoming, existing } && incoming@
                    == issue@ && existing == old(self).reservations@[issue@],
            },
            old(self).consistent() ==> final(self).consistent() && !(r matches Err(
                SessionError::Collision { .. },
            )),
    {
        let raw = issue.as_str();
        let id = sanitize_issue_id(raw)?;
        let path = join(self.root.as_str(), id.as_str());
        match self.reservations.get(id.as_str()) {
            Some(existing) => {
                if !str_eq(existing.as_str(), raw) {
                    return Err(
                        SessionError::Collision {
                            incoming: raw.to_owned(),
                            existing: existing.clone(),
                        },
                    );
                }
            },
            None => {
                self.reservations.insert(id, raw.to_owned());
            },
        }
        Ok(path)
    }

    /// Gives the directory of `issue` up, once it is gone.
    pub fn release(&mut self, issue: &IssueId) -> (r: Result<(), SessionError>)
        ensures
            final(self).root == old(self).root,
            r is Ok == id_fault(issue@) is None,
            r is Ok ==> final(self).reservations@ == old(self).reservations@.remove(issue@),
            r matches Err(e) ==> final(self).reservations@ == old(self).reservations@ && (e matches SessionError::InvalidIssueId {
                id,
                reason,
            } && id@ == issue@ && Some(reason@) == id_fault(issue@)),
            old(self).consistent() ==> final(self).consistent(),
    {
        let id = sanitize_issue_id(issue.as_str())?;
        self.reservations.remove(id.as_str());
        Ok(())
    }
}

// ---------------------------------------------------------------------------
// Laws
// ---------------------------------------------------------------------------

proof fn lemma_first_refused(id: Seq<char>, i: int)
    requires
        0 <= i <= id.len(),
    ensures
        i <= first_refused(id, i) <= id.len(),
        forall|k: int| i <= k < first_refused(id, i) ==> is_branch_char(#[trigger] id[k]),
        first_refused(id, i) < id.len() ==> !is_branch_char(id[first_refused(id, i)]),
    decreases id.len() - i,
{
    if i < id.len() && is_branch_char(id[i]) {
        lemma_first_refused(id, i + 1);
    }
}

/// The accepted identifiers are the non-empty ones of ASCII letters and
/// digits, `-` and `_`.
pub proof fn law_accepted_ids(id: Seq<char>)
    ensures
        id_fault(id) is None <==> id.len() > 0 && forall|i: int|
            0 <= i < id.len() ==> is_branch_char(#[trigger] id[i]),
{
    lemma_first_refused(id, 0);
    reveal_strlit("..");
    if forall|i: int| 0 <= i < id.len() ==> is_branch_char(#[trigger] id[i]) {
        if has_text(id, ".."@) {
            let i = choose|i: int| crate::text::occurs_at(id, ".."@, i);
            assert(id.subrange(i, i + 2) =~= ".."@);
            assert(id.subrange(i, i + 2)[0] == id[i]);
            assert(is_branch_char(id[i]));
        }
        if id.len() > 0 {
            assert(is_branch_char(id[0]));
        }
        if id.contains('/') {
            let i = choose|i: int| 0 <= i < id.len() && id[i] == '/';
            assert(is_branch_char(id[i]));
        }
        if id.contains('\\') {
            let i = choose|i: int| 0 <= i < id.len() && id[i] == '\\';
            assert(is_branch_char(id[i]));
        }
        if id.contains('\0') {
            let i = choose|i: int| 0 <= i < id.len() && id[i] == '\0';
            assert(is_branch_char(id[i]));
        }
        if first_refused(id, 0) < id.len() {
            assert(is_branch_char(id[first_refused(id, 0)]));
        }
    }
}

proof fn lemma_after_slash_of_name(head: Seq<char>, name: Seq<char>)
    requires
        head.len() > 0,
        head[head.len() - 1] == '/',
        forall|i: int| 0 <= i < name.len() ==> #[trigger] name[i] != '/',
    ensures
        after_slash(head + name) == head.len(),
    decreases name.len(),
{
    let p = head + name;
    if name.len() == 0 {
        assert(p =~= head);
    } else {
        let shorter = name.subrange(0, name.len() - 1);
        assert(p.subrange(0, p.len() - 1) =~= head + shorter);
        assert(p[p.len() - 1] == name[name.len() - 1]);
        assert forall|i: int| 0 <= i < shorter.len() implies #[trigger] shorter[i] != '/' by {
            assert(shorter[i] == name[i]);
        }
        lemma_after_slash_of_name(head, shorter);
    }
}

/// The directory of an accepted identifier stands directly below the root, and
/// is named by the identifier. A root that ends in a slash or in `/.` counts
/// as the root without it.
pub proof fn law_session_path_is_a_child_of_the_root(root: Seq<char>, id: Seq<char>)
    requires
        root.len() > 0,
        id_fault(id) is None,
    ensures
        file_name_of(joined(root, id)) == Some(id),
        parent_of(joined(root, id)) == Some(trim_tail(root)),
{
    law_accepted_ids(id);
    assert(is_branch_char(id[0]));
    assert(!is_absolute_path(id));
    let last = id[id.len() - 1];
    assert(is_branch_char(last));
    let head = if root[root.len() - 1] == '/' {
        root
    } else {
        root.push('/')
    };
    let p = joined(root, id);
    assert(p =~= head + id);
    assert(p[p.len() - 1] == last);
    assert(trim_tail(p) == p);
    assert forall|i: int| 0 <= i < id.len() implies #[trigger] id[i] != '/' by {
        assert(is_branch_char(id[i]));
    }
    lemma_after_slash_of_name(head, id);
    assert(p.len() >= 2);
    assert(!has_no_component(p));
    let name = p.subrange(after_slash(p), p.len() as int);
    assert(name =~= id);
    if id =~= seq!['.'] {
        assert(id[0] == '.');
    }
    if id =~= seq!['.', '.'] {
        assert(id[0] == '.');
    }
    assert(p.subrange(0, after_slash(p)) =~= head);
    if root[root.len() - 1] != '/' {
        assert(head.subrange(0, head.len() - 1) =~= root);
        assert(trim_tail(head) == trim_tail(root));
    }
}

/// Two accepted identifiers with the same directory are the same.
pub proof fn law_session_paths_do_not_collide(root: Seq<char>, a: Seq<char>, b: Seq<char>)
    requires
        root.len() > 0,
        id_fault(a) is None,
        id_fault(b) is None,
        joined(root, a) == joined(root, b),
    ensures
        a == b,
{
    law_session_path_is_a_child_of_the_root(root, a);
    law_session_path_is_a_child_of_the_root(root, b);
}

/// An identifier that is refused is told why, by the first thing that is wrong
/// with it.
pub proof fn law_refused_ids_are_told_why(id: Seq<char>, a: Seq<char>, b: Seq<char>)
    ensures
        id.len() == 0 ==> id_fault(id) == Some("identifier is empty"@),
        id_fault(a.add(seq!['.', '.']).add(b)) == Some(
            "path-traversal segment `..` is not allowed"@,
        ),
        id.len() > 0 && !has_text(id, ".."@) ==> {
            let separated = exists|i: int|
                0 <= i < id.len() && (#[trigger] id[i] == '/' || id[i] == '\\');
            let rooted = id[0] == '/' || id[0] == '\\';
            &&& id_fault(id) == Some("absolute paths are not allowed"@) <==> rooted
            &&& !rooted && separated ==> id_fault(id) == Some("path separators are not allowed"@)
            &&& !separated && id.contains('\0') ==> id_fault(id) == Some("NUL byte is not allowed"@)
        },
{
    reveal_strlit("..");
    reveal_strlit("absolute paths are not allowed");
    reveal_strlit("path separators are not allowed");
    reveal_strlit("NUL byte is not allowed");
    reveal_strlit("path-traversal segment `..` is not allowed");
    reveal_strlit("character `");
    assert("absolute paths are not allowed"@[0] == 'a');
    assert("path separators are not allowed"@[0] == 'p');
    assert("NUL byte is not allowed"@[0] == 'N');
    assert("character `"@[0] == 'c');
    let s = a.add(seq!['.', '.']).add(b);
    assert(s.subrange(a.len() as int, a.len() + 2int) =~= ".."@);
    assert(crate::text::occurs_at(s, ".."@, a.len() as int));
    assert(has_text(s, ".."@));
    if id.len() > 0 && !has_text(id, ".."@) {
        if exists|i: int| 0 <= i < id.len() && (#[trigger] id[i] == '/' || id[i] == '\\') {
            let i = choose|i: int| 0 <= i < id.len() && (#[trigger] id[i] == '/' || id[i] == '\\');
            assert(id.contains(id[i]));
        } else {
            if id.contains('/') {
                let i = choose|i: int| 0 <= i < id.len() && id[i] == '/';
                assert(id[i] == '/');
            }
            if id.contains('\\') {
                let i = choose|i: int| 0 <= i < id.len() && id[i] == '\\';
                assert(id[i] == '\\');
            }
            assert(id[0] == id[0]);
        }
        if first_refused(id, 0) < id.len() {
            let f = "character `"@.push(id[first_refused(id, 0)])
                + "` is outside [A-Za-z0-9_-]"@;
            assert(f[0] == 'c');
        }
    }
}

/// A character that cannot stand in a name is named, the first of them.
pub proof fn law_refused_characters_are_named(id: Seq<char>, k: int)
    requires
        0 <= k < id.len(),
        !has_text(id, ".."@),
        !id.contains('/'),
        !id.contains('\\'),
        !id.contains('\0'),
        !is_branch_char(id[k]),
        forall|i: int| 0 <= i < k ==> is_branch_char(#[trigger] id[i]),
    ensures
        id_fault(id) == Some("character `"@.push(id[k]) + "` is outside [A-Za-z0-9_-]"@),
{
    lemma_refused_at(id, 0, k);
    assert(id.contains(id[0]));
}

proof fn lemma_refused_at(id: Seq<char>, i: int, k: int)
    requires
        0 <= i <= k < id.len(),
        !is_branch_char(id[k]),
        forall|j: int| i <= j < k ==> is_branch_char(#[trigger] id[j]),
    ensures
        first_refused(id, i) == k,
    decreases k - i,
{
    if i < k {
        assert(is_branch_char(id[i]));
        lemma_refused_at(id, i + 1, k);
    }
}

} // verus!
