//! Which repositories are configured.
use vstd::prelude::*;

use crate::config::RepoEntry;
use crate::text::str_eq;
use crate::tracker::model::RepoId;

verus! {

/// The repository is among the configured ones.
pub open spec fn allowed(allowlist: Seq<RepoEntry>, repo: Seq<char>) -> bool {
    exists|i: int| 0 <= i < allowlist.len() && (#[trigger] allowlist[i]).ghq@ == repo
}

/// Whether a repository is among the configured ones, letter for letter.
pub fn is_allowed(allowlist: &[RepoEntry], repo_id: &RepoId) -> (r: bool)
    ensures
        r == allowed(allowlist@, repo_id@),
{
    let mut i: usize = 0;
    while i < allowlist.len()
        invariant
            i <= allowlist.len(),
            forall|k: int| 0 <= k < i ==> (#[trigger] allowlist@[k]).ghq@ != repo_id@,
        decreases allowlist.len() - i,
    {
        if str_eq(allowlist[i].ghq.as_str(), repo_id.as_str()) {
            return true;
        }
        i += 1;
    }
    false
}

} // verus!
