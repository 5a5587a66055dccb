//! Independence of the order in which a directory's entries are reported.
//!
//! Entries are read concurrently, so two walks over an unchanged tree may
//! report the entries of a directory in different orders. The results of
//! the size and indexing passes then differ in the order of children and
//! in nothing else.

use vstd::prelude::*;
use crate::failure::FailureModel;
use crate::index::{entries_indexed, indexed, self_excluded, survivors};
use crate::node::{sizes, NodeModel};
use crate::observed::{
    byte_volume, entry_failures, entry_volumes, first_failure, first_some, readable, sum, Tree,
};
use crate::size::strict_total;

verus! {

/// `b` is `a` with the entries of its directories, at any depth, reported
/// in a possibly different order.
pub open spec fn reordered(a: Tree, b: Tree) -> bool
    decreases a, 0nat,
{
    match a {
        Tree::Directory { name, path, ignore_lines, entries } => {
            &&& b is Directory
            &&& b->Directory_name == name
            &&& b->Directory_path == path
            &&& b->Directory_ignore_lines == ignore_lines
            &&& entries_reordered(entries, b->Directory_entries)
        },
        _ => a == b,
    }
}

/// `ys` holds the entries of `xs`, each possibly reordered below itself,
/// in a possibly different order.
pub open spec fn entries_reordered(xs: Seq<Tree>, ys: Seq<Tree>) -> bool
    decreases xs, 1nat,
{
    if xs.len() == 0 {
        ys.len() == 0
    } else {
        exists|j: int|
            0 <= j < ys.len() && reordered(xs.last(), #[trigger] ys[j]) && entries_reordered(
                xs.drop_last(),
                ys.remove(j),
            )
    }
}

/// Two nodes that agree in name, size and kind, and whose children are the
/// same up to their order, at every depth.
pub open spec fn same_nodes(m: NodeModel, n: NodeModel) -> bool
    decreases m, 0nat,
{
    &&& m.name == n.name
    &&& m.size == n.size
    &&& m.kind == n.kind
    &&& nodes_reordered(m.children, n.children)
}

/// `ns` holds the nodes of `ms`, up to the order of children below each,
/// in a possibly different order.
pub open spec fn nodes_reordered(ms: Seq<NodeModel>, ns: Seq<NodeModel>) -> bool
    decreases ms, 1nat,
{
    if ms.len() == 0 {
        ns.len() == 0
    } else {
        exists|k: int|
            0 <= k < ns.len() && same_nodes(ms.last(), #[trigger] ns[k]) && nodes_reordered(
                ms.drop_last(),
                ns.remove(k),
            )
    }
}

/// Two outcomes of indexing that fail together, or succeed with the same
/// nodes up to the order of children.
pub open spec fn same_outcome(
    r: Result<NodeModel, FailureModel>,
    s: Result<NodeModel, FailureModel>,
) -> bool {
    match r {
        Ok(m) => s matches Ok(n) && same_nodes(m, n),
        Err(_) => s is Err,
    }
}

proof fn lemma_sum_remove(counts: Seq<nat>, k: int)
    requires
        0 <= k < counts.len(),
    ensures
        sum(counts) == sum(counts.remove(k)) + counts[k],
    decreases counts.len(),
{
    if k == counts.len() - 1 {
        assert(counts.remove(k) =~= counts.drop_last());
    } else {
        lemma_sum_remove(counts.drop_last(), k);
        assert(counts.remove(k).drop_last() =~= counts.drop_last().remove(k));
        assert(counts.remove(k).last() == counts.last());
    }
}

proof fn lemma_first_some_remove(found: Seq<Option<FailureModel>>, j: int)
    requires
        0 <= j < found.len(),
    ensures
        first_some(found) is None <==> found[j] is None && first_some(found.remove(j)) is None,
    decreases found.len(),
{
    if j == found.len() - 1 {
        assert(found.remove(j) =~= found.drop_last());
    } else {
        lemma_first_some_remove(found.drop_last(), j);
        assert(found.remove(j).drop_last() =~= found.drop_last().remove(j));
        assert(found.remove(j).last() == found.last());
    }
}

proof fn lemma_survivors_remove(outcomes: Seq<Result<NodeModel, FailureModel>>, j: int)
    requires
        0 <= j < outcomes.len(),
    ensures
        survivors(outcomes.take(j)).len() <= survivors(outcomes.remove(j)).len(),
        match outcomes[j] {
            Ok(node) => {
                let k = survivors(outcomes.take(j)).len() as int;
                &&& k < survivors(outcomes).len()
                &&& survivors(outcomes)[k] == node
                &&& survivors(outcomes).remove(k) == survivors(outcomes.remove(j))
            },
            Err(_) => survivors(outcomes) == survivors(outcomes.remove(j)),
        },
    decreases outcomes.len(),
{
    if j == outcomes.len() - 1 {
        assert(outcomes.remove(j) =~= outcomes.drop_last());
        assert(outcomes.take(j) =~= outcomes.drop_last());
        match outcomes[j] {
            Ok(node) => {
                assert(survivors(outcomes).remove(survivors(outcomes.take(j)).len() as int)
                    =~= survivors(outcomes.drop_last()));
            },
            Err(_) => {},
        }
    } else {
        let front = outcomes.drop_last();
        lemma_survivors_remove(front, j);
        assert(outcomes.remove(j).drop_last() =~= front.remove(j));
        assert(outcomes.remove(j).last() == outcomes.last());
        assert(front.take(j) =~= outcomes.take(j));
        let k = survivors(outcomes.take(j)).len() as int;
        match outcomes[j] {
            Ok(node) => {
                match outcomes.last() {
                    Ok(last) => {
                        assert(survivors(front).push(last).remove(k) =~= survivors(front).remove(
                            k,
                        ).push(last));
                    },
                    Err(_) => {},
                }
            },
            Err(_) => {},
        }
    }
}

proof fn lemma_nodes_reordered_sizes(ms: Seq<NodeModel>, ns: Seq<NodeModel>)
    requires
        nodes_reordered(ms, ns),
    ensures
        ms.len() == ns.len(),
        sum(sizes(ms)) == sum(sizes(ns)),
    decreases ms.len(),
{
    if ms.len() == 0 {
        assert(sizes(ms) =~= sizes(ns));
    } else {
        let k = choose|k: int|
            0 <= k < ns.len() && same_nodes(ms.last(), #[trigger] ns[k]) && nodes_reordered(
                ms.drop_last(),
                ns.remove(k),
            );
        lemma_nodes_reordered_sizes(ms.drop_last(), ns.remove(k));
        lemma_sum_remove(sizes(ns), k);
        assert(sizes(ns).remove(k) =~= sizes(ns.remove(k)));
        assert(sizes(ms).drop_last() =~= sizes(ms.drop_last()));
    }
}

proof fn lemma_same_nodes_leaf(m: NodeModel)
    requires
        m.children.len() == 0,
    ensures
        same_nodes(m, m),
{
}

proof fn lemma_reordered_tree(a: Tree, b: Tree)
    requires
        reordered(a, b),
    ensures
        byte_volume(a) == byte_volume(b),
        readable(a) == readable(b),
        same_outcome(indexed(a), indexed(b)),
    decreases a, 0nat,
{
    match a {
        Tree::Directory { name, path, ignore_lines, entries } => {
            let others = b->Directory_entries;
            lemma_reordered_entries(entries, others);
            if self_excluded(path, ignore_lines) {
                if strict_total(a) is Ok {
                    lemma_same_nodes_leaf(indexed(a)->Ok_0);
                }
            } else {
                lemma_nodes_reordered_sizes(
                    survivors(entries_indexed(entries)),
                    survivors(entries_indexed(others)),
                );
            }
        },
        Tree::File { .. } => {
            lemma_same_nodes_leaf(indexed(a)->Ok_0);
        },
        Tree::Unreadable { .. } => {},
    }
}

proof fn lemma_reordered_entries(xs: Seq<Tree>, ys: Seq<Tree>)
    requires
        entries_reordered(xs, ys),
    ensures
        xs.len() == ys.len(),
        sum(entry_volumes(xs)) == sum(entry_volumes(ys)),
        first_some(entry_failures(xs)) is None <==> first_some(entry_failures(ys)) is None,
        nodes_reordered(survivors(entries_indexed(xs)), survivors(entries_indexed(ys))),
    decreases xs, 1nat,
{
    if xs.len() == 0 {
        assert(entry_volumes(xs) =~= entry_volumes(ys));
        assert(entry_failures(xs) =~= entry_failures(ys));
        assert(entries_indexed(xs) =~= entries_indexed(ys));
    } else {
        let j = choose|j: int|
            0 <= j < ys.len() && reordered(xs.last(), #[trigger] ys[j]) && entries_reordered(
                xs.drop_last(),
                ys.remove(j),
            );
        let front = xs.drop_last();
        let rest = ys.remove(j);
        lemma_reordered_tree(xs.last(), ys[j]);
        lemma_reordered_entries(front, rest);

        assert(entry_volumes(xs).drop_last() =~= entry_volumes(front));
        assert(entry_volumes(ys).remove(j) =~= entry_volumes(rest));
        lemma_sum_remove(entry_volumes(ys), j);

        assert(entry_failures(xs).drop_last() =~= entry_failures(front));
        assert(entry_failures(ys).remove(j) =~= entry_failures(rest));
        lemma_first_some_remove(entry_failures(ys), j);

        let ox = entries_indexed(xs);
        let oy = entries_indexed(ys);
        assert(ox.drop_last() =~= entries_indexed(front));
        assert(oy.remove(j) =~= entries_indexed(rest));
        lemma_survivors_remove(oy, j);
        match ox.last() {
            Ok(m) => {
                let k = survivors(oy.take(j)).len() as int;
                assert(survivors(ox).drop_last() =~= survivors(entries_indexed(front)));
                assert(same_nodes(survivors(ox).last(), survivors(oy)[k]));
                assert(nodes_reordered(survivors(ox).drop_last(), survivors(oy).remove(k)));
            },
            Err(_) => {},
        }
    }
}

/// Every tree is a reordering of itself.
pub proof fn lemma_reordered_reflexive(a: Tree)
    ensures
        reordered(a, a),
    decreases a, 0nat,
{
    match a {
        Tree::Directory { entries, .. } => {
            lemma_entries_reordered_reflexive(entries);
        },
        _ => {},
    }
}

proof fn lemma_entries_reordered_reflexive(xs: Seq<Tree>)
    ensures
        entries_reordered(xs, xs),
    decreases xs, 1nat,
{
    if xs.len() > 0 {
        let j = xs.len() - 1;
        lemma_reordered_reflexive(xs.last());
        lemma_entries_reordered_reflexive(xs.drop_last());
        assert(xs.remove(j) =~= xs.drop_last());
        assert(reordered(xs.last(), xs[j]));
    }
}

/// The same entries listed in another order are a reordering.
pub proof fn lemma_permutation_is_reordering(xs: Seq<Tree>, ys: Seq<Tree>)
    requires
        xs.to_multiset() == ys.to_multiset(),
    ensures
        entries_reordered(xs, ys),
    decreases xs.len(),
{
    xs.to_multiset_ensures();
    ys.to_multiset_ensures();
    if xs.len() > 0 {
        let x = xs.last();
        assert(xs.contains(x));
        assert(xs.to_multiset().count(x) > 0);
        assert(ys.to_multiset().count(x) > 0);
        assert(ys.contains(x));
        let j = choose|j: int| 0 <= j < ys.len() && ys[j] == x;
        assert(xs.remove(xs.len() - 1) =~= xs.drop_last());
        lemma_permutation_is_reordering(xs.drop_last(), ys.remove(j));
        lemma_reordered_reflexive(x);
        assert(reordered(xs.last(), ys[j]));
    }
}

/// The strict total does not depend on the order in which entries are
/// met: two walks over the same tree succeed together, and then with the
/// same total.
pub proof fn lemma_total_order_independent(a: Tree, b: Tree)
    requires
        reordered(a, b),
    ensures
        strict_total(a) is Ok <==> strict_total(b) is Ok,
        strict_total(a) is Ok ==> strict_total(a) == strict_total(b),
{
    lemma_reordered_tree(a, b);
}

/// Indexing an unchanged tree again gives the same size and kind at every
/// node; only the order of children may differ.
pub proof fn lemma_index_order_independent(a: Tree, b: Tree)
    requires
        reordered(a, b),
    ensures
        same_outcome(indexed(a), indexed(b)),
{
    lemma_reordered_tree(a, b);
}

} // verus!
