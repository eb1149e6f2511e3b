//! What is recorded of the Git repository a benchmark runs in, and the
//! rules that turn the repository's raw state into it.

use crate::text::{chars_of, string_from_chars};
use vstd::prelude::*;

verus! {

/// The commit, branch and state of the repository.
pub struct GitInfo {
    pub commit_id: String,
    /// The first line of the commit message.
    pub commit_message: String,
    pub branch: Option<String>,
    /// Whether files differ from the commit, staged or not.
    pub is_dirty: bool,
    /// The root of the working tree.
    pub path: String,
}

/// Why no Git information could be read.
#[derive(Clone, Debug, PartialEq, Eq)]
pub enum GitError {
    /// No repository holds the current directory.
    NotFound,
    /// The repository has no commit yet.
    NoCommit,
    /// Anything else; the underlying message.
    Unknown(String),
}

/// Status bits of a changed index entry: new, modified, deleted, renamed,
/// type changed.
pub const INDEX_CHANGES: u32 = 0x1f;

/// Status bits of a changed working-tree file: modified, deleted, type
/// changed, renamed. Untracked files are not among them.
pub const WORKTREE_CHANGES: u32 = 0xf00;

/// One entry of the repository's status.
#[derive(Clone, Copy, Debug, PartialEq, Eq)]
pub struct StatusEntry {
    /// The entry's status bits.
    pub bits: u32,
    /// Whether the index holds a new file path for it.
    pub staged_path: bool,
    /// Whether the working tree holds a new file path for it.
    pub unstaged_path: bool,
}

/// Whether an entry is a staged change with a path.
pub open spec fn is_staged(e: StatusEntry) -> bool {
    e.bits != 0 && e.bits & INDEX_CHANGES != 0 && e.staged_path
}

/// Whether an entry is an unstaged change with a path.
pub open spec fn is_unstaged(e: StatusEntry) -> bool {
    e.bits != 0 && e.bits & WORKTREE_CHANGES != 0 && e.unstaged_path
}

/// Whether a repository whose status is `entries` has uncommitted changes.
pub fn is_dirty(entries: &Vec<StatusEntry>) -> (b: bool)
    ensures
        b <==> exists|i: int|
            0 <= i < entries@.len() && (is_staged(#[trigger] entries@[i]) || is_unstaged(
                entries@[i],
            )),
{
    let mut i: usize = 0;
    while i < entries.len()
        invariant
            i <= entries.len(),
            forall|j: int|
                0 <= j < i ==> !is_staged(#[trigger] entries@[j]) && !is_unstaged(entries@[j]),
        decreases entries.len() - i,
    {
        let e = entries[i];
        if e.bits != 0 && ((e.bits & INDEX_CHANGES != 0 && e.staged_path) || (e.bits
            & WORKTREE_CHANGES != 0 && e.unstaged_path)) {
            assert(is_staged(entries@[i as int]) || is_unstaged(entries@[i as int]));
            return true;
        }
        i = i + 1;
    }
    false
}

/// A local branch: its name, where it has a valid one, and whether HEAD
/// points to it.
pub struct BranchEntry {
    pub name: Option<String>,
    pub is_head: bool,
}

/// Whether `i` is the first branch that HEAD points to and that has a name.
pub open spec fn is_current_branch(branches: Seq<BranchEntry>, i: int) -> bool {
    &&& 0 <= i < branches.len()
    &&& branches[i].is_head && branches[i].name is Some
    &&& forall|j: int| 0 <= j < i ==> !(branches[j].is_head && branches[j].name is Some)
}

/// The name of the current branch: the first named branch HEAD points to.
pub fn current_branch(branches: &Vec<BranchEntry>) -> (r: Option<String>)
    ensures
        r matches Some(name) ==> exists|i: int|
            is_current_branch(branches@, i) && branches@[i].name == Some(name),
        r is None ==> forall|j: int|
            0 <= j < branches@.len() ==> !(branches@[j].is_head && branches@[j].name is Some),
{
    let mut i: usize = 0;
    while i < branches.len()
        invariant
            i <= branches.len(),
            forall|j: int|
                0 <= j < i ==> !(branches@[j].is_head && branches@[j].name is Some),
        decreases branches.len() - i,
    {
        if branches[i].is_head {
            if let Some(name) = &branches[i].name {
                let r = name.clone();
                assert(is_current_branch(branches@, i as int));
                return Some(r);
            }
        }
        i = i + 1;
    }
    None
}

/// The first line of a text: all before its first `'\n'`, or all of it.
pub open spec fn first_line_of(text: Seq<char>) -> Seq<char> {
    if text.contains('\n') {
        text.subrange(0, choose|i: int| 0 <= i < text.len() && text[i] == '\n' && forall|j: int|
            0 <= j < i ==> text[j] != '\n')
    } else {
        text
    }
}

/// The first line of a commit message.
pub fn first_line(message: &str) -> (r: String)
    ensures
        r@ == first_line_of(message@),
{
    let cs = chars_of(message);
    let mut i: usize = 0;
    while i < cs.len()
        invariant
            i <= cs.len(),
            cs@ == message@,
            forall|j: int| 0 <= j < i ==> cs@[j] != '\n',
        decreases cs.len() - i,
    {
        if cs[i] == '\n' {
            let ghost k = choose|k: int|
                0 <= k < cs@.len() && cs@[k] == '\n' && forall|j: int| 0 <= j < k ==> cs@[j] != '\n';
            assert(cs@[i as int] == '\n');
            assert(k == i) by {
                if k < i {
                    assert(cs@[k] != '\n');
                }
                if k > i {
                    assert(cs@[i as int] != '\n');
                }
            }
            return string_from_chars(&cs, 0, i);
        }
        i = i + 1;
    }
    assert(!message@.contains('\n'));
    assert(cs@.subrange(0, cs@.len() as int) =~= cs@);
    string_from_chars(&cs, 0, cs.len())
}

} // verus!
