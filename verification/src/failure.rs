//! Failures reported by the filesystem while a tree was being read.

use vstd::prelude::*;

verus! {

/// The class of an I/O failure, as far as the walks distinguish them.
#[derive(Clone, Copy, Debug, PartialEq, Eq, Structural)]
pub enum FailureKind {
    /// The path does not exist, or vanished while the tree was being read.
    NotFound,
    /// The path exists but may not be read.
    PermissionDenied,
    /// Any other failure of the filesystem.
    Other,
}

/// One I/O failure: its class and the message the operator is shown.
#[derive(Clone, Debug, PartialEq, Eq)]
pub struct IoFailure {
    pub kind: FailureKind,
    pub message: String,
}

/// Mathematical value of an [`IoFailure`].
pub struct FailureModel {
    pub kind: FailureKind,
    pub message: Seq<char>,
}

impl View for IoFailure {
    type V = FailureModel;

    open spec fn view(&self) -> FailureModel {
        FailureModel { kind: self.kind, message: self.message@ }
    }
}

impl IoFailure {
    /// A copy of this failure, equal to it in class and message.
    pub fn duplicate(&self) -> (copy: IoFailure)
        ensures
            copy@ == self@,
    {
        IoFailure { kind: self.kind, message: self.message.clone() }
    }
}

} // verus!
