//! Test coverage flags attached to visualization nodes.
use vstd::prelude::*;

verus! {

/// Which kinds of tests cover a node.
#[derive(Clone, Copy, PartialEq, Eq, Structural, Debug, Default)]
pub struct TestCoverage {
    pub unit: bool,
    pub integration: bool,
    pub e2e: bool,
}

} // verus!
