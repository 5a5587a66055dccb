//! Fuzzy name search over an indexed tree.
//!
//! The tree is walked parents first. Each node is reported with the path
//! of the directories above it; a node whose name matches the query
//! contributes that path to the result. Scoring a name against a query is
//! the work of the `fuzzy-matcher` crate.

use vstd::prelude::*;
use fuzzy_matcher::skim::SkimMatcherV2;
use fuzzy_matcher::FuzzyMatcher;
use crate::node::{FileNode, NodeModel};
use crate::text::{join_path, joined, texts};

verus! {

/// The score that the skim matcher, as configured by default, gives to
/// `choice` for `pattern`; `None` where `choice` does not match.
pub uninterp spec fn skim_score(choice: Seq<char>, pattern: Seq<char>) -> Option<i64>;

/// `FuzzyMatcher::fuzzy_match` on `SkimMatcherV2::default()`. Trusted: the
/// score depends on the two strings alone.
#[verifier::external_body]
fn skim_match(choice: &str, pattern: &str) -> (score: Option<i64>)
    ensures
        score == skim_score(choice@, pattern@),
{
    SkimMatcherV2::default().fuzzy_match(choice, pattern)
}

/// A node met on a walk: its name, and the names of the directories above
/// it joined by `/`.
#[derive(Debug, PartialEq, Eq)]
pub struct Located {
    pub name: String,
    pub location: String,
}

/// Mathematical value of a [`Located`].
pub struct LocatedModel {
    pub name: Seq<char>,
    pub location: Seq<char>,
}

impl View for Located {
    type V = LocatedModel;

    open spec fn view(&self) -> LocatedModel {
        LocatedModel { name: self.name@, location: self.location@ }
    }
}

/// The values of a list of located nodes.
pub open spec fn located(found: Seq<Located>) -> Seq<LocatedModel> {
    Seq::new(found.len(), |i: int| found[i]@)
}

/// The nodes of a tree, parents before children and children in order,
/// each with the path of the directories above it. `trail` holds the
/// names of the directories above `node`.
pub open spec fn preorder(node: NodeModel, trail: Seq<Seq<char>>) -> Seq<LocatedModel>
    decreases node, 0nat,
{
    seq![LocatedModel { name: node.name, location: joined(trail) }] + preorder_first(
        node.children,
        node.children.len(),
        trail.push(node.name),
    )
}

/// The walk over the first `n` of `nodes`, one after the other.
pub open spec fn preorder_first(nodes: Seq<NodeModel>, n: nat, trail: Seq<Seq<char>>) -> Seq<
    LocatedModel,
>
    decreases nodes, n,
{
    if n == 0 || n > nodes.len() {
        Seq::empty()
    } else {
        preorder_first(nodes, (n - 1) as nat, trail) + preorder(nodes[n - 1], trail)
    }
}

/// The locations of the nodes whose name the query matches, in order.
pub open spec fn hits(found: Seq<LocatedModel>, query: Seq<char>) -> Seq<Seq<char>>
    decreases found.len(),
{
    if found.len() == 0 {
        Seq::empty()
    } else {
        with_match(
            hits(found.drop_last(), query),
            found.last(),
            skim_score(found.last().name, query),
        )
    }
}

/// The results so far, and the node's location after them if it scored.
pub open spec fn with_match(results: Seq<Seq<char>>, node: LocatedModel, score: Option<i64>) -> Seq<
    Seq<char>,
> {
    if score is Some {
        results.push(node.location)
    } else {
        results
    }
}

/// Records a node's location if the matcher gave its name a score.
pub fn keep_match(results: &mut Vec<String>, node: &Located, score: Option<i64>)
    ensures
        texts(final(results)@) == with_match(texts(old(results)@), node@, score),
{
    if score.is_some() {
        results.push(node.location.clone());
        proof {
            assert(texts(results@) =~= texts(old(results)@).push(node@.location));
        }
    }
}

fn walk_into(node: &FileNode, trail: &mut Vec<String>, out: &mut Vec<Located>)
    ensures
        texts(final(trail)@) == texts(old(trail)@),
        located(final(out)@) == located(old(out)@) + preorder(node@, texts(old(trail)@)),
    decreases node,
{
    let ghost trail_before = texts(trail@);
    let ghost out_before = located(out@);
    let ghost head = LocatedModel { name: node.name@, location: joined(trail_before) };
    proof {
        node.lemma_children_view();
    }
    out.push(Located { name: node.name.clone(), location: join_path(trail) });
    trail.push(node.name.clone());
    proof {
        assert(texts(trail@) =~= trail_before.push(node.name@));
        assert(located(out@) =~= out_before.push(head));
    }
    let ghost below = texts(trail@);
    let mut i: usize = 0;
    while i < node.children.len()
        invariant
            i <= node.children.len(),
            node@.children.len() == node.children@.len(),
            forall|k: int|
                0 <= k < node.children@.len() ==> #[trigger] node@.children[k]
                    == node.children@[k]@,
            texts(trail@) == below,
            trail@.len() > 0,
            located(out@) == out_before.push(head) + preorder_first(
                node@.children,
                i as nat,
                below,
            ),
        decreases node.children.len() - i,
    {
        let ghost so_far = located(out@);
        walk_into(&node.children[i], trail, out);
        proof {
            assert(located(out@) =~= out_before.push(head) + preorder_first(
                node@.children,
                (i + 1) as nat,
                below,
            ));
            assert(trail@.len() == texts(trail@).len());
        }
        i += 1;
    }
    let ghost full = trail@;
    trail.pop();
    proof {
        assert(texts(full) == trail_before.push(node.name@));
        assert(trail@ == full.drop_last());
        assert forall|k: int| 0 <= k < trail@.len() implies texts(trail@)[k] == trail_before[k] by {
            assert(texts(full)[k] == full[k]@);
        }
        assert(texts(trail@) =~= trail_before);
        assert(located(out@) =~= out_before + preorder(node@, trail_before));
    }
}

/// Every node of the tree, parents before children, each with the path of
/// the directories above it. The root's own location is empty.
pub fn walk(root: &FileNode) -> (found: Vec<Located>)
    ensures
        located(found@) == preorder(root@, Seq::empty()),
{
    let mut trail: Vec<String> = Vec::new();
    let mut found: Vec<Located> = Vec::new();
    proof {
        assert(texts(trail@) =~= Seq::empty());
        assert(located(found@) =~= Seq::empty());
    }
    walk_into(root, &mut trail, &mut found);
    proof {
        assert(Seq::<LocatedModel>::empty() + preorder(root@, Seq::empty()) =~= preorder(
            root@,
            Seq::empty(),
        ));
    }
    found
}

/// The locations of the nodes whose name fuzzily matches `query`, in the
/// order of the walk.
pub fn fuzzy_search(root: &FileNode, query: &str) -> (results: Vec<String>)
    ensures
        texts(results@) == hits(preorder(root@, Seq::empty()), query@),
{
    let found = walk(root);
    let mut results: Vec<String> = Vec::new();
    let mut i: usize = 0;
    proof {
        assert(located(found@).take(0) =~= Seq::empty());
        assert(texts(results@) =~= Seq::empty());
    }
    while i < found.len()
        invariant
            i <= found.len(),
            texts(results@) == hits(located(found@).take(i as int), query@),
        decreases found.len() - i,
    {
        let score = skim_match(found[i].name.as_str(), query);
        keep_match(&mut results, &found[i], score);
        proof {
            assert(located(found@).take(i + 1).drop_last() =~= located(found@).take(i as int));
        }
        i += 1;
    }
    proof {
        assert(located(found@).take(i as int) =~= located(found@));
    }
    results
}

} // verus!
