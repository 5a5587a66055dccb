//! The size aggregator: the byte total of a tree, all or nothing.

use vstd::prelude::*;
use crate::failure::{FailureModel, IoFailure};
use crate::observed::{
    byte_volume, entry_failures, entry_volumes, first_failure, first_some, lemma_sum_prefix, sum,
    Observed, Tree,
};

verus! {

/// The strict total of a tree: the sum of the lengths of every file in it
/// where every path could be read, and otherwise the first failure.
pub open spec fn strict_total(t: Tree) -> Result<nat, FailureModel> {
    match first_failure(t) {
        Some(failure) => Err(failure),
        None => Ok(byte_volume(t)),
    }
}

/// A failure found in a prefix of the findings is the first of the whole,
/// and a prefix without one hands the question to the next finding.
pub proof fn lemma_first_some_prefix(found: Seq<Option<FailureModel>>, n: int)
    requires
        0 <= n <= found.len(),
    ensures
        first_some(found.take(n)) is Some ==> first_some(found) == first_some(found.take(n)),
        n < found.len() && first_some(found.take(n)) is None ==> first_some(found.take(n + 1))
            == found[n],
        n == found.len() ==> first_some(found.take(n)) == first_some(found),
    decreases found.len() - n,
{
    if n < found.len() {
        assert(found.take(n + 1).drop_last() =~= found.take(n));
        lemma_first_some_prefix(found, n + 1);
    } else {
        assert(found.take(n) =~= found);
    }
}

/// Total byte size of a tree. Every entry counts; ignore rules play no
/// part. A single unreadable path anywhere fails the whole computation
/// with that path's failure, and no partial sum is returned.
pub fn total_size(entry: &Observed) -> (result: Result<u64, IoFailure>)
    requires
        byte_volume(entry@) <= u64::MAX,
    ensures
        match result {
            Ok(size) => strict_total(entry@) == Ok::<nat, FailureModel>(size as nat),
            Err(failure) => strict_total(entry@) == Err::<nat, FailureModel>(failure@),
        },
    decreases entry,
{
    match entry {
        Observed::Unreadable { failure } => Err(failure.duplicate()),
        Observed::File { len, .. } => Ok(*len),
        Observed::Directory { entries, .. } => {
            let ghost volumes = entry_volumes(entry@->Directory_entries);
            let ghost failures = entry_failures(entry@->Directory_entries);
            proof {
                entry.lemma_entries_view();
                assert(failures.take(0) =~= Seq::empty());
            }
            let mut total: u64 = 0;
            let mut i: usize = 0;
            while i < entries.len()
                invariant
                    i <= entries.len(),
                    entry matches Observed::Directory { entries: es, .. } && es == entries,
                    volumes.len() == entries.len(),
                    failures.len() == entries.len(),
                    forall|k: int|
                        0 <= k < entries.len() ==> #[trigger] volumes[k] == byte_volume(
                            entries@[k]@,
                        ),
                    forall|k: int|
                        0 <= k < entries.len() ==> #[trigger] failures[k] == first_failure(
                            entries@[k]@,
                        ),
                    byte_volume(entry@) == sum(volumes),
                    first_failure(entry@) == first_some(failures),
                    sum(volumes) <= u64::MAX,
                    total == sum(volumes.take(i as int)),
                    first_some(failures.take(i as int)) is None,
                decreases entries.len() - i,
            {
                proof {
                    lemma_sum_prefix(volumes, i as int);
                    lemma_sum_prefix(volumes, i + 1);
                    lemma_first_some_prefix(failures, i as int);
                    lemma_first_some_prefix(failures, i + 1);
                }
                match total_size(&entries[i]) {
                    Err(failure) => {
                        return Err(failure);
                    },
                    Ok(size) => {
                        total = total + size;
                    },
                }
                i += 1;
            }
            proof {
                assert(volumes.take(i as int) =~= volumes);
                assert(failures.take(i as int) =~= failures);
            }
            Ok(total)
        },
    }
}

} // verus!
