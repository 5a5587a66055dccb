//! What the filesystem reported about a path and everything below it.
//!
//! A walk over the disk records one [`Observed`] value per path. The size
//! and indexing passes work on that record alone, so their results are
//! functions of it.

use vstd::prelude::*;
use crate::failure::{FailureModel, IoFailure};
use crate::rules::lines_model;

verus! {

/// What was found at one path.
#[derive(Debug, PartialEq, Eq)]
pub enum Observed {
    /// The path could not be examined, or its entries could not be listed.
    Unreadable { failure: IoFailure },
    /// A file of `len` bytes.
    File { name: String, path: String, len: u64 },
    /// A directory: the lines of its ignore-pattern file, if it has one,
    /// and what was found at each of its entries, in the order in which
    /// the entries were reported.
    Directory { name: String, path: String, ignore_lines: Option<Vec<String>>, entries: Vec<Observed> },
}

/// Mathematical value of an [`Observed`]: a directory tree.
pub enum Tree {
    Unreadable { failure: FailureModel },
    File { name: Seq<char>, path: Seq<char>, len: nat },
    Directory { name: Seq<char>, path: Seq<char>, ignore_lines: Option<Seq<Seq<char>>>, entries: Seq<Tree> },
}

/// The directory tree that an observation stands for.
pub open spec fn tree_of(found: Observed) -> Tree
    decreases found,
{
    match found {
        Observed::Unreadable { failure } => Tree::Unreadable { failure: failure@ },
        Observed::File { name, path, len } => Tree::File { name: name@, path: path@, len: len as nat },
        Observed::Directory { name, path, ignore_lines, entries } => Tree::Directory {
            name: name@,
            path: path@,
            ignore_lines: lines_model(ignore_lines),
            entries: Seq::new(
                entries@.len(),
                |i: int|
                    if 0 <= i < entries@.len() {
                        tree_of(entries@[i])
                    } else {
                        arbitrary()
                    },
            ),
        },
    }
}

impl View for Observed {
    type V = Tree;

    open spec fn view(&self) -> Tree {
        tree_of(*self)
    }
}

/// Sum of a sequence of byte counts.
pub open spec fn sum(counts: Seq<nat>) -> nat
    decreases counts.len(),
{
    if counts.len() == 0 {
        0
    } else {
        sum(counts.drop_last()) + counts.last()
    }
}

/// The first failure in a sequence of findings, if any entry has one.
pub open spec fn first_some(found: Seq<Option<FailureModel>>) -> Option<FailureModel>
    decreases found.len(),
{
    if found.len() == 0 {
        None
    } else {
        match first_some(found.drop_last()) {
            Some(failure) => Some(failure),
            None => found.last(),
        }
    }
}

/// Sum of the lengths of every file in the tree.
pub open spec fn byte_volume(t: Tree) -> nat
    decreases t,
{
    match t {
        Tree::Unreadable { .. } => 0,
        Tree::File { len, .. } => len,
        Tree::Directory { entries, .. } => sum(entry_volumes(entries)),
    }
}

/// The byte volume of each entry of a directory.
pub open spec fn entry_volumes(entries: Seq<Tree>) -> Seq<nat>
    decreases entries,
{
    Seq::new(
        entries.len(),
        |i: int|
            if 0 <= i < entries.len() {
                byte_volume(entries[i])
            } else {
                0
            },
    )
}

/// The failure that a walk in listing order, parents before their entries,
/// meets first; `None` where every path of the tree could be read.
pub open spec fn first_failure(t: Tree) -> Option<FailureModel>
    decreases t,
{
    match t {
        Tree::Unreadable { failure } => Some(failure),
        Tree::File { .. } => None,
        Tree::Directory { entries, .. } => first_some(entry_failures(entries)),
    }
}

/// The first failure below each entry of a directory.
pub open spec fn entry_failures(entries: Seq<Tree>) -> Seq<Option<FailureModel>>
    decreases entries,
{
    Seq::new(
        entries.len(),
        |i: int|
            if 0 <= i < entries.len() {
                first_failure(entries[i])
            } else {
                None
            },
    )
}

/// Every path of the tree could be read.
pub open spec fn readable(t: Tree) -> bool {
    first_failure(t) is None
}

/// A prefix of a sequence of byte counts sums to no more than the whole.
pub proof fn lemma_sum_prefix(counts: Seq<nat>, n: int)
    requires
        0 <= n <= counts.len(),
    ensures
        sum(counts.take(n)) <= sum(counts),
        n < counts.len() ==> sum(counts.take(n + 1)) == sum(counts.take(n)) + counts[n],
    decreases counts.len() - n,
{
    if n < counts.len() {
        assert(counts.take(n + 1).drop_last() =~= counts.take(n));
        lemma_sum_prefix(counts, n + 1);
    } else {
        assert(counts.take(n) =~= counts);
    }
}

impl Observed {
    /// The entries of a directory's tree are the trees of its entries.
    pub proof fn lemma_entries_view(&self)
        requires
            self is Directory,
        ensures
            self@ is Directory,
            self@->Directory_name == self->Directory_name@,
            self@->Directory_path == self->Directory_path@,
            self@->Directory_ignore_lines == lines_model(self->Directory_ignore_lines),
            self@->Directory_entries.len() == self->Directory_entries@.len(),
            forall|i: int|
                0 <= i < self->Directory_entries@.len() ==> #[trigger] self@->Directory_entries[i]
                    == self->Directory_entries@[i]@,
    {
    }

    /// The byte volume of the tree, where it fits in 64 bits.
    pub fn checked_volume(&self) -> (volume: Option<u64>)
        ensures
            match volume {
                Some(v) => v == byte_volume(self@),
                None => byte_volume(self@) > u64::MAX,
            },
        decreases self,
    {
        match self {
            Observed::Unreadable { .. } => Some(0),
            Observed::File { len, .. } => Some(*len),
            Observed::Directory { entries, .. } => {
                let ghost volumes = entry_volumes(self@->Directory_entries);
                proof {
                    self.lemma_entries_view();
                }
                let mut total: u64 = 0;
                let mut i: usize = 0;
                while i < entries.len()
                    invariant
                        i <= entries.len(),
                        self matches Observed::Directory { entries: es, .. } && es == entries,
                        volumes.len() == entries.len(),
                        forall|k: int| 0 <= k < entries.len() ==> #[trigger] volumes[k] == byte_volume(entries@[k]@),
                        total == sum(volumes.take(i as int)),
                        byte_volume(self@) == sum(volumes),
                    decreases entries.len() - i,
                {
                    proof {
                        lemma_sum_prefix(volumes, i as int);
                        lemma_sum_prefix(volumes, i + 1);
                    }
                    match entries[i].checked_volume() {
                        None => {
                            return None;
                        },
                        Some(v) => match total.checked_add(v) {
                            None => {
                                return None;
                            },
                            Some(more) => {
                                total = more;
                            },
                        },
                    }
                    i += 1;
                }
                proof {
                    assert(volumes.take(i as int) =~= volumes);
                }
                Some(total)
            },
        }
    }
}

} // verus!
