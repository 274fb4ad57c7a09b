//! The walk over directories that finds the repositories below a root and
//! does not look inside a repository.
//!
//! The walk keeps a stack of directories still to visit. The caller takes the
//! last one off, looks at it, and hands what it saw to [`explore_path`].

use vstd::prelude::*;
use crate::text::texts;

verus! {

/// One entry of a directory.
#[derive(Clone, Debug)]
pub enum Entry {
    /// A directory, with its path.
    Directory(String),
    /// Anything else, an entry that could not be read included.
    Other,
}

/// What was seen at a directory.
#[derive(Clone, Debug)]
pub enum Finding {
    /// It is the root of a repository.
    Repository,
    /// It is no repository; these are its entries in the order in which they
    /// were listed.
    Directory(Vec<Entry>),
}

/// The paths of the directories among some entries, in order.
pub open spec fn directories(entries: Seq<Entry>) -> Seq<Seq<char>>
    decreases entries.len(),
{
    if entries.len() == 0 {
        Seq::empty()
    } else {
        (match entries[0] {
            Entry::Directory(path) => seq![path@],
            Entry::Other => Seq::empty(),
        }) + directories(entries.drop_first())
    }
}

impl Finding {
    /// The directories to visit because of this finding: none below a
    /// repository.
    pub open spec fn directories(self) -> Seq<Seq<char>> {
        match self {
            Finding::Repository => Seq::empty(),
            Finding::Directory(entries) => directories(entries@),
        }
    }
}

/// The stack of directories to visit after one was visited: a repository adds
/// nothing, another directory adds its subdirectories, the first of them on
/// top.
pub open spec fn pending_after<T>(pending: Seq<T>, repository: bool, subdirs: Seq<T>) -> Seq<T> {
    if repository {
        pending
    } else {
        pending + subdirs.reverse()
    }
}

/// The repositories found after a directory was visited.
pub open spec fn found_after(found: Seq<Seq<char>>, path: Seq<char>, repository: bool) -> Seq<
    Seq<char>,
> {
    if repository {
        found.push(path)
    } else {
        found
    }
}

/// Takes in what was seen at `path`, a directory taken off `pending`. A
/// repository is added to `repositories` and nothing below it will be
/// visited. Of any other directory the subdirectories are put on `pending`,
/// so that they are visited next and in the order in which they were listed.
pub fn explore_path(
    path: String,
    finding: Finding,
    pending: &mut Vec<String>,
    repositories: &mut Vec<String>,
)
    ensures
        texts(final(repositories)@) == found_after(
            texts(old(repositories)@),
            path@,
            finding is Repository,
        ),
        texts(final(pending)@) == pending_after(
            texts(old(pending)@),
            finding is Repository,
            finding.directories(),
        ),
{
    match finding {
        Finding::Repository => {
            let ghost before = texts(repositories@);
            repositories.push(path);
            assert(texts(repositories@) == before.push(path@));
        },
        Finding::Directory(entries) => {
            let mut k: usize = entries.len();
            assert(entries@.skip(k as int) == Seq::<Entry>::empty());
            assert(texts(pending@) == texts(old(pending)@) + Seq::<Seq<char>>::empty().reverse());
            while k > 0
                invariant
                    k <= entries.len(),
                    texts(pending@) == texts(old(pending)@) + directories(
                        entries@.skip(k as int),
                    ).reverse(),
                decreases k,
            {
                k = k - 1;
                let ghost rest = directories(entries@.skip(k + 1));
                let ghost stack = texts(pending@);
                assert(entries@.skip(k as int).drop_first() == entries@.skip(k + 1));
                assert(entries@.skip(k as int)[0] == entries@[k as int]);
                match &entries[k] {
                    Entry::Directory(child) => {
                        pending.push(child.clone());
                        assert(texts(pending@) == stack.push(child@));
                        assert((seq![child@] + rest).reverse() == rest.reverse().push(child@));
                    },
                    Entry::Other => {
                        assert(Seq::<Seq<char>>::empty() + rest == rest);
                    },
                }
            }
            assert(entries@.skip(0) == entries@);
        },
    }
}

/// A directory with what a walk can see of it: whether it is a repository,
/// and its subdirectories in the order in which they are listed.
pub struct DirTree {
    pub path: Seq<char>,
    pub repository: bool,
    pub subdirs: Seq<DirTree>,
}

/// The paths of some directories.
pub open spec fn paths(dirs: Seq<DirTree>) -> Seq<Seq<char>> {
    dirs.map_values(|d: DirTree| d.path)
}

impl DirTree {
    /// The repositories at or below this directory that lie in no other
    /// repository, depth first and in the order in which directories are
    /// listed.
    pub open spec fn outermost(self) -> Seq<Seq<char>>
        decreases self, 1nat,
    {
        if self.repository {
            seq![self.path]
        } else {
            Self::outermost_from(self.subdirs, 0)
        }
    }

    /// The same for the directories from `k` on.
    pub open spec fn outermost_from(dirs: Seq<DirTree>, k: int) -> Seq<Seq<char>>
        decreases dirs, dirs.len() - k,
    {
        if 0 <= k < dirs.len() {
            dirs[k].outermost() + Self::outermost_from(dirs, k + 1)
        } else {
            Seq::empty()
        }
    }

    /// Number of directories that a walk may visit at or below this one.
    pub open spec fn size(self) -> nat
        decreases self, 1nat,
    {
        1 + Self::size_from(self.subdirs, 0)
    }

    /// The same for the directories from `k` on.
    pub open spec fn size_from(dirs: Seq<DirTree>, k: int) -> nat
        decreases dirs, dirs.len() - k,
    {
        if 0 <= k < dirs.len() {
            dirs[k].size() + Self::size_from(dirs, k + 1)
        } else {
            0
        }
    }
}

/// What a walk will still find: the outermost repositories of the directories
/// on its stack, from the top down.
pub open spec fn to_find(pending: Seq<DirTree>) -> Seq<Seq<char>>
    decreases pending.len(),
{
    if pending.len() == 0 {
        Seq::empty()
    } else {
        pending.last().outermost() + to_find(pending.drop_last())
    }
}

/// How many directories a walk may still visit.
pub open spec fn to_visit(pending: Seq<DirTree>) -> nat
    decreases pending.len(),
{
    if pending.len() == 0 {
        0
    } else {
        pending.last().size() + to_visit(pending.drop_last())
    }
}

proof fn lemma_reversed_on_top(pending: Seq<DirTree>, dirs: Seq<DirTree>, k: int)
    requires
        0 <= k <= dirs.len(),
    ensures
        to_find(pending + dirs.skip(k).reverse()) == DirTree::outermost_from(dirs, k) + to_find(
            pending,
        ),
        to_visit(pending + dirs.skip(k).reverse()) == DirTree::size_from(dirs, k) + to_visit(
            pending,
        ),
    decreases dirs.len() - k,
{
    let top = dirs.skip(k).reverse();
    if k == dirs.len() {
        assert(pending + top == pending);
    } else {
        let below = dirs.skip(k + 1).reverse();
        assert((pending + top).last() == dirs[k]);
        assert((pending + top).drop_last() == pending + below);
        lemma_reversed_on_top(pending, dirs, k + 1);
    }
}

/// A visit keeps what the walk finds in the end, and brings the end nearer.
///
/// `pending` is the stack before the visit, as directories of a model, and
/// `found` what was found by then. The directory on top is visited: the stack
/// and the findings change as [`explore_path`] changes them. What was found
/// together with what is still to find stays the same, and fewer directories
/// are left to visit.
pub proof fn lemma_visit(pending: Seq<DirTree>, found: Seq<Seq<char>>)
    requires
        pending.len() > 0,
    ensures
        ({
            let dir = pending.last();
            let next = pending_after(pending.drop_last(), dir.repository, dir.subdirs);
            &&& paths(next) == pending_after(
                paths(pending.drop_last()),
                dir.repository,
                paths(dir.subdirs),
            )
            &&& found_after(found, dir.path, dir.repository) + to_find(next) == found + to_find(
                pending,
            )
            &&& to_visit(next) < to_visit(pending)
        }),
{
    let dir = pending.last();
    let rest = pending.drop_last();
    if !dir.repository {
        assert(dir.subdirs.skip(0) == dir.subdirs);
        lemma_reversed_on_top(rest, dir.subdirs, 0);
        assert(paths(rest + dir.subdirs.reverse()) == paths(rest) + paths(dir.subdirs).reverse());
    } else {
        assert(found.push(dir.path) + to_find(rest) == found + (seq![dir.path] + to_find(rest)));
    }
}

/// A walk that starts with the root alone on its stack, and goes on until the
/// stack is empty, has found the outermost repositories of the root: that is
/// what is to find at the start, and nothing is to find at the end.
pub proof fn lemma_walk_ends(root: DirTree)
    ensures
        to_find(seq![root]) == root.outermost(),
        to_find(Seq::empty()) == Seq::<Seq<char>>::empty(),
        to_visit(Seq::empty()) == 0,
{
    assert(seq![root].drop_last() == Seq::<DirTree>::empty());
    assert(seq![root].last() == root);
    assert(to_find(seq![root].drop_last()) == Seq::<Seq<char>>::empty());
    assert(to_find(seq![root]) == root.outermost() + Seq::<Seq<char>>::empty());
}

} // verus!
