//! An append-only record of peer misbehavior observed during key generation.
//!
//! The log never halts the protocol: a faulty peer's message is dropped, the
//! peer is flagged here, and key generation continues with the remaining
//! peers.

use vstd::prelude::*;

verus! {

/// The kind of misbehavior observed from a peer.
#[derive(Clone, Copy, PartialEq, Eq, Structural, Debug)]
pub enum FaultKind {
    /// The peer's `Propose` was malformed, or the row encrypted to us did not
    /// match the peer's public commitment.
    InvalidProposeMessage,
    /// The peer's `Accept` was malformed, named an unknown proposal, was a
    /// duplicate, or carried a value that failed verification.
    InvalidAcceptMessage,
}

/// A single observation of misbehavior, naming the offending node.
#[derive(Clone, Copy, PartialEq, Eq, Structural, Debug)]
pub struct Fault {
    /// The identifier of the offending node.
    pub node_id: u64,
    /// What the node did wrong.
    pub kind: FaultKind,
}

/// An append-only list of faults.
#[derive(Clone, Debug)]
pub struct FaultLog {
    entries: Vec<Fault>,
}

impl View for FaultLog {
    type V = Seq<Fault>;

    closed spec fn view(&self) -> Seq<Fault> {
        self.entries@
    }
}

impl FaultLog {
    /// Creates an empty fault log.
    pub fn new() -> (r: FaultLog)
        ensures
            r@ == Seq::<Fault>::empty(),
    {
        FaultLog { entries: Vec::new() }
    }

    /// Creates a log holding exactly one fault.
    pub fn init(node_id: u64, kind: FaultKind) -> (r: FaultLog)
        ensures
            r@.len() == 1,
            r@[0] == (Fault { node_id, kind }),
    {
        let mut entries: Vec<Fault> = Vec::new();
        entries.push(Fault { node_id, kind });
        FaultLog { entries }
    }

    /// Appends one fault to the log; existing entries are kept.
    pub fn append(&mut self, node_id: u64, kind: FaultKind)
        ensures
            final(self)@ == old(self)@.push(Fault { node_id, kind }),
    {
        self.entries.push(Fault { node_id, kind });
    }

    /// Returns `true` if no fault has been recorded.
    pub fn is_empty(&self) -> (r: bool)
        ensures
            r == (self@.len() == 0),
    {
        self.entries.len() == 0
    }

    /// Returns the number of recorded faults.
    pub fn len(&self) -> (r: usize)
        ensures
            r == self@.len(),
    {
        self.entries.len()
    }

    /// Returns the `i`-th recorded fault, oldest first.
    pub fn get(&self, i: usize) -> (r: Fault)
        requires
            i < self@.len(),
        ensures
            r == self@[i as int],
    {
        self.entries[i]
    }
}

} // verus!
