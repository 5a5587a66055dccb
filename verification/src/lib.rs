//! Disk usage and a typed index of a directory tree, computed from what the
//! filesystem reported about it.
//!
//! The library does no I/O. A caller walks the disk once and records what
//! it finds as an [`Observed`] tree; [`total_size`] sums that tree strictly,
//! [`index`] turns it into a tree of [`FileNode`]s under the ignore rules
//! of each directory, and [`fuzzy_search`] looks names up in the result.
//!
//! - [`observed`]: the record of a walk and its mathematical value.
//! - [`size`]: the strict byte total.
//! - [`rules`]: the ignore rules of one directory.
//! - [`index`](mod@index): the indexing engine and what holds of every index.
//! - [`node`]: the indexed tree and its invariant.
//! - [`order`]: independence of the order in which entries were listed.
//! - [`search`]: the walk over an index and the fuzzy search.

pub mod failure;
pub mod index;
pub mod node;
pub mod observed;
pub mod order;
pub mod rules;
pub mod search;
pub mod size;
pub mod text;

pub use failure::{FailureKind, FailureModel, IoFailure};
pub use index::{index, index_directory, index_file, index_ignored};
pub use node::{FileNode, NodeModel, NodeType};
pub use observed::{Observed, Tree};
pub use rules::{RuleSet, RuleSetModel, Verdict};
pub use search::{fuzzy_search, keep_match, walk, Located};
pub use size::total_size;
