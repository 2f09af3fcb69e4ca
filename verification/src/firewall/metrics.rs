//! What is counted of the firewall.

use vstd::prelude::*;

verus! {

/// Which pods are counted.
#[derive(Clone, Copy, Debug, PartialEq, Eq, Hash)]
pub struct PodStateLabels {
    pub state: &'static str,
}

/// Which writings of rules are counted.
#[derive(Clone, Copy, Debug, PartialEq, Eq, Hash)]
pub struct ApplyResultLabels {
    pub result: &'static str,
}

/// How a writing of rules is counted.
pub fn apply_labels(success: bool) -> (r: ApplyResultLabels)
    ensures
        r.result@ == (if success {
            "success"@
        } else {
            "error"@
        }),
{
    if success {
        ApplyResultLabels { result: "success" }
    } else {
        ApplyResultLabels { result: "error" }
    }
}

/// How many pods are in each state.
#[derive(Clone, Copy, Debug, PartialEq, Eq, Structural)]
pub struct PodCounts {
    pub enrolled: usize,
    pub pending: usize,
    pub init_failed: usize,
}

/// The labels under which the pods of each state are counted: those that have their
/// rules, those whose workload is not known yet, and those that failed.
pub fn pod_labels() -> (r: (PodStateLabels, PodStateLabels, PodStateLabels))
    ensures
        r.0.state@ == "enrolled"@,
        r.1.state@ == "pending"@,
        r.2.state@ == "init_failed"@,
{
    (
        PodStateLabels { state: "enrolled" },
        PodStateLabels { state: "pending" },
        PodStateLabels { state: "init_failed" },
    )
}

} // verus!
