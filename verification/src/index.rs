//! The indexing engine: from an observed tree to the tree of nodes.
//!
//! Every directory is judged by a fresh rule set loaded from its own
//! ignore-pattern file. Rules are not inherited: what a parent excludes
//! has no bearing on how its entries are indexed. A directory that its
//! own rule set excludes becomes one leaf that carries its byte total.
//! Entries that could not be read are left out of their directory.

use vstd::prelude::*;
use crate::failure::{FailureModel, IoFailure};
use crate::node::{sizes, well_formed, FileNode, NodeModel, NodeType};
use crate::observed::{
    byte_volume, entry_failures, entry_volumes, first_failure, first_some, lemma_sum_prefix, readable,
    sum, Observed, Tree,
};
use crate::rules::{excludes, loaded, RuleSet};
use crate::size::{strict_total, total_size};

verus! {

/// Whether the rule set of the directory at `path`, loaded from the lines
/// of its own ignore-pattern file, excludes the directory itself.
pub open spec fn self_excluded(path: Seq<char>, ignore_lines: Option<Seq<Seq<char>>>) -> bool {
    excludes(loaded(path, ignore_lines), path, true)
}

/// The nodes of the entries that could be indexed, in listing order.
pub open spec fn survivors(outcomes: Seq<Result<NodeModel, FailureModel>>) -> Seq<NodeModel>
    decreases outcomes.len(),
{
    if outcomes.len() == 0 {
        Seq::empty()
    } else {
        match outcomes.last() {
            Ok(node) => survivors(outcomes.drop_last()).push(node),
            Err(_) => survivors(outcomes.drop_last()),
        }
    }
}

/// The leaf that stands for a file.
pub open spec fn file_leaf(name: Seq<char>, len: nat) -> NodeModel {
    NodeModel { name, size: len, kind: NodeType::File, children: Seq::empty() }
}

/// The leaf that stands for an excluded directory: named by its full path,
/// sized by the byte total of everything below it.
pub open spec fn ignored_leaf(path: Seq<char>, total: nat) -> NodeModel {
    NodeModel { name: path, size: total, kind: NodeType::IgnoredDirectory, children: Seq::empty() }
}

/// The directory node over the given children.
pub open spec fn directory_over(name: Seq<char>, children: Seq<NodeModel>) -> NodeModel {
    NodeModel { name, size: sum(sizes(children)), kind: NodeType::Directory, children }
}

/// The index of a tree.
pub open spec fn indexed(t: Tree) -> Result<NodeModel, FailureModel>
    decreases t, 1nat,
{
    match t {
        Tree::Directory { path, ignore_lines, .. } => indexed_given(
            t,
            self_excluded(path, ignore_lines),
        ),
        _ => indexed_given(t, false),
    }
}

/// The index of a tree whose root, if it is a directory, is excluded by
/// its own rule set exactly if `excluded` says so.
pub open spec fn indexed_given(t: Tree, excluded: bool) -> Result<NodeModel, FailureModel>
    decreases t, 0nat,
{
    match t {
        Tree::Unreadable { failure } => Err(failure),
        Tree::File { name, len, .. } => Ok(file_leaf(name, len)),
        Tree::Directory { name, path, entries, .. } => if excluded {
            match strict_total(t) {
                Ok(total) => Ok(ignored_leaf(path, total)),
                Err(failure) => Err(failure),
            }
        } else {
            Ok(directory_over(name, survivors(entries_indexed(entries))))
        },
    }
}

/// The index of each entry of a directory.
pub open spec fn entries_indexed(entries: Seq<Tree>) -> Seq<Result<NodeModel, FailureModel>>
    decreases entries, 0nat,
{
    Seq::new(
        entries.len(),
        |i: int|
            if 0 <= i < entries.len() {
                indexed(entries[i])
            } else {
                Err(arbitrary())
            },
    )
}

/// The survivors of one more outcome.
pub proof fn lemma_survivors_step(outcomes: Seq<Result<NodeModel, FailureModel>>, n: int)
    requires
        0 <= n < outcomes.len(),
    ensures
        survivors(outcomes.take(n + 1)) == match outcomes[n] {
            Ok(node) => survivors(outcomes.take(n)).push(node),
            Err(_) => survivors(outcomes.take(n)),
        },
{
    assert(outcomes.take(n + 1).drop_last() =~= outcomes.take(n));
}

/// Where the whole of a sequence of findings holds no failure, none of its
/// entries does.
pub proof fn lemma_first_some_none(found: Seq<Option<FailureModel>>, i: int)
    requires
        first_some(found) is None,
        0 <= i < found.len(),
    ensures
        found[i] is None,
    decreases found.len(),
{
    if i < found.len() - 1 {
        lemma_first_some_none(found.drop_last(), i);
    }
}

/// A file is indexed as a leaf of kind `File` whose size is the file's
/// length.
pub proof fn lemma_file_is_leaf(t: Tree)
    requires
        t is File,
    ensures
        indexed(t) == Ok::<NodeModel, FailureModel>(file_leaf(t->File_name, t->File_len)),
{
}

/// A directory that its own rule set excludes is indexed as a single leaf
/// of kind `IgnoredDirectory`, named by the directory's full path, whose
/// size is the byte total of everything below the directory. Indexing it
/// fails only where some path below it could not be read.
pub proof fn lemma_excluded_directory_is_leaf(t: Tree)
    requires
        t is Directory,
        self_excluded(t->Directory_path, t->Directory_ignore_lines),
    ensures
        match indexed(t) {
            Ok(node) => {
                &&& readable(t)
                &&& node.kind == NodeType::IgnoredDirectory
                &&& node.children.len() == 0
                &&& node.name == t->Directory_path
                &&& node.size == byte_volume(t)
            },
            Err(failure) => first_failure(t) == Some(failure),
        },
{
}

/// A directory without an ignore-pattern file is never excluded.
pub proof fn lemma_no_rules_no_exclusion(path: Seq<char>)
    ensures
        !self_excluded(path, None),
{
}

/// Every index satisfies the tree invariant at every node: a directory's
/// size is the sum of its children's sizes, and neither a file nor an
/// ignored directory has children. Its size is never more than the byte
/// volume of the tree it was made from.
pub proof fn lemma_indexed_well_formed(t: Tree)
    ensures
        indexed(t) matches Ok(node) ==> well_formed(node) && node.size <= byte_volume(t),
    decreases t, 0nat,
{
    match t {
        Tree::Directory { name, path, ignore_lines, entries } => {
            if !self_excluded(path, ignore_lines) {
                lemma_entries_well_formed(entries);
            }
        },
        _ => {},
    }
}

proof fn lemma_entries_well_formed(entries: Seq<Tree>)
    ensures
        forall|k: int|
            0 <= k < survivors(entries_indexed(entries)).len() ==> well_formed(
                #[trigger] survivors(entries_indexed(entries))[k],
            ),
        sum(sizes(survivors(entries_indexed(entries)))) <= sum(entry_volumes(entries)),
    decreases entries, 1nat,
{
    if entries.len() == 0 {
        assert(sizes(survivors(entries_indexed(entries))) =~= Seq::empty());
    } else {
        let front = entries.drop_last();
        lemma_entries_well_formed(front);
        lemma_indexed_well_formed(entries.last());
        assert(entries_indexed(entries).drop_last() =~= entries_indexed(front));
        assert(entry_volumes(entries).drop_last() =~= entry_volumes(front));
        let kept = survivors(entries_indexed(front));
        match indexed(entries.last()) {
            Ok(node) => {
                assert(sizes(kept.push(node)).drop_last() =~= sizes(kept));
            },
            Err(_) => {},
        }
    }
}

/// Where every path of a tree could be read, indexing succeeds and the
/// root's size is the strict total of the tree, whatever the ignore rules.
pub proof fn lemma_index_size_is_total(t: Tree)
    requires
        readable(t),
    ensures
        indexed(t) matches Ok(node) && strict_total(t) == Ok::<nat, FailureModel>(node.size),
    decreases t, 0nat,
{
    match t {
        Tree::Directory { name, path, ignore_lines, entries } => {
            if !self_excluded(path, ignore_lines) {
                lemma_readable_entries(entries);
            }
        },
        _ => {},
    }
}

proof fn lemma_readable_entries(entries: Seq<Tree>)
    requires
        first_some(entry_failures(entries)) is None,
    ensures
        sizes(survivors(entries_indexed(entries))) == entry_volumes(entries),
    decreases entries, 1nat,
{
    if entries.len() == 0 {
        assert(sizes(survivors(entries_indexed(entries))) =~= entry_volumes(entries));
    } else {
        let front = entries.drop_last();
        assert(entry_failures(entries).drop_last() =~= entry_failures(front));
        lemma_first_some_none(entry_failures(entries), entries.len() - 1);
        lemma_readable_entries(front);
        lemma_index_size_is_total(entries.last());
        assert(entries_indexed(entries).drop_last() =~= entries_indexed(front));
        let kept = survivors(entries_indexed(front));
        let node = indexed(entries.last())->Ok_0;
        assert(entries_indexed(entries).last() == indexed(entries.last()));
        assert(survivors(entries_indexed(entries)) == kept.push(node));
        assert(sizes(kept.push(node)) =~= sizes(kept).push(node.size));
        assert(entry_volumes(entries) =~= entry_volumes(front).push(byte_volume(entries.last())));
    }
}

/// The node of a file of `len` bytes.
pub fn index_file(name: &String, len: u64) -> (node: FileNode)
    ensures
        node@ == file_leaf(name@, len as nat),
        node.wf(),
{
    FileNode::new(name.clone(), len, NodeType::File)
}

/// The outcome for a directory that its own rule set excludes, given the
/// outcome of summing everything below it: one leaf named by the
/// directory's full path, or the failure that stopped the summation.
pub fn index_ignored(path: &String, total: Result<u64, IoFailure>) -> (result: Result<
    FileNode,
    IoFailure,
>)
    ensures
        match total {
            Ok(size) => result matches Ok(node) && node@ == ignored_leaf(path@, size as nat)
                && node.wf(),
            Err(failure) => result matches Err(same) && same@ == failure@,
        },
{
    match total {
        Ok(size) => Ok(FileNode::new(path.clone(), size, NodeType::IgnoredDirectory)),
        Err(failure) => Err(failure),
    }
}

/// Indexes the tree found at a path. `inherited` is the rule set of the
/// directory that lists the path. It is consulted for a file, without
/// effect on the outcome: a file always becomes a plain file node. A
/// directory loads its own rule set and hands that one to its entries.
///
/// Fails exactly where the root itself could not be read, or where it is
/// an excluded directory below which some path could not be read.
pub fn index(entry: &Observed, inherited: &RuleSet) -> (result: Result<FileNode, IoFailure>)
    requires
        byte_volume(entry@) <= u64::MAX,
    ensures
        match result {
            Ok(node) => indexed(entry@) == Ok::<NodeModel, FailureModel>(node@) && node.wf()
                && node.size <= byte_volume(entry@),
            Err(failure) => indexed(entry@) == Err::<NodeModel, FailureModel>(failure@),
        },
    decreases entry, 1nat,
{
    match entry {
        Observed::Unreadable { failure } => Err(failure.duplicate()),
        Observed::File { name, path, len } => {
            let _ = inherited.matches(path.as_str(), false);
            Ok(index_file(name, *len))
        },
        Observed::Directory { path, ignore_lines, .. } => {
            proof {
                entry.lemma_entries_view();
            }
            let fresh = RuleSet::load(path.as_str(), ignore_lines);
            let excluded = fresh.matches(path.as_str(), true);
            index_directory(entry, &fresh, excluded)
        },
    }
}

/// Indexes a directory, given its own rule set and whether that rule set
/// excludes the directory itself.
pub fn index_directory(entry: &Observed, fresh: &RuleSet, excluded: bool) -> (result: Result<
    FileNode,
    IoFailure,
>)
    requires
        entry is Directory,
        byte_volume(entry@) <= u64::MAX,
    ensures
        match result {
            Ok(node) => indexed_given(entry@, excluded) == Ok::<NodeModel, FailureModel>(node@)
                && node.wf() && node.size <= byte_volume(entry@),
            Err(failure) => indexed_given(entry@, excluded) == Err::<NodeModel, FailureModel>(
                failure@,
            ),
        },
    decreases entry, 0nat,
{
    match entry {
        Observed::Directory { name, path, entries, .. } => {
            proof {
                entry.lemma_entries_view();
            }
            if excluded {
                return index_ignored(path, total_size(entry));
            }
            let ghost volumes = entry_volumes(entry@->Directory_entries);
            let ghost outcomes = entries_indexed(entry@->Directory_entries);
            let mut node = FileNode::new(name.clone(), 0, NodeType::Directory);
            proof {
                assert(outcomes.take(0) =~= Seq::empty());
                assert(volumes.take(0) =~= Seq::empty());
                assert(sizes(Seq::<NodeModel>::empty()) =~= Seq::empty());
            }
            let mut i: usize = 0;
            while i < entries.len()
                invariant
                    i <= entries.len(),
                    entry matches Observed::Directory { entries: es, .. } && es == entries,
                    volumes.len() == entries.len(),
                    outcomes.len() == entries.len(),
                    forall|k: int|
                        0 <= k < entries.len() ==> #[trigger] volumes[k] == byte_volume(
                            entries@[k]@,
                        ),
                    forall|k: int|
                        0 <= k < entries.len() ==> #[trigger] outcomes[k] == indexed(entries@[k]@),
                    sum(volumes) <= u64::MAX,
                    node@ == directory_over(name@, survivors(outcomes.take(i as int))),
                    node.wf(),
                    node.size <= sum(volumes.take(i as int)),
                decreases entries.len() - i,
            {
                proof {
                    lemma_sum_prefix(volumes, i as int);
                    lemma_sum_prefix(volumes, i + 1);
                    lemma_survivors_step(outcomes, i as int);
                }
                match index(&entries[i], fresh) {
                    Ok(child) => {
                        let ghost before = node@;
                        node.add_child(child);
                        proof {
                            assert(sizes(node@.children).drop_last() =~= sizes(before.children));
                        }
                    },
                    Err(_) => {},
                }
                i += 1;
            }
            proof {
                assert(outcomes.take(i as int) =~= outcomes);
                assert(volumes.take(i as int) =~= volumes);
            }
            Ok(node)
        },
        _ => unreached(),
    }
}

} // verus!
