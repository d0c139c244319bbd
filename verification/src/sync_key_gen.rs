//! A synchronous algorithm for dealerless distributed key generation.
//!
//! Every node must handle the same messages in the same order. When enough
//! proposals are complete, every node can derive the shared public key set,
//! and every validator additionally derives its own secret key share.
//!
//! All commitments, ciphertexts and scalars cross this module's boundary as
//! canonical byte strings; the cryptography itself is performed by the
//! trusted adapter in [`crate::crypto`].

use vstd::prelude::*;

use crate::crypto;
use crate::crypto::{
    as_opt_bytes, spec_commit_add, spec_commit_degree, spec_commit_evaluate, spec_commit_row,
    spec_g1_mul_base, spec_poly_commitment, zero_commitment_spec,
};
use crate::fault_log::{Fault, FaultKind, FaultLog};

verus! {

// ---------------------------------------------------------------------------
// Messages.
// ---------------------------------------------------------------------------

/// A submission by a validator for the key generation. It must be sent to and
/// handled by all participating nodes, including the one that produced it.
///
/// Holds the canonical bytes of a commitment to a bivariate polynomial, and,
/// for each node in roster order, the bytes of an encrypted row of values.
#[derive(Clone, PartialEq, Eq, Hash, Debug)]
pub struct Propose(pub Vec<u8>, pub Vec<Vec<u8>>);

/// A confirmation that a node has received and verified a proposer's row. It
/// must be sent to and handled by all participating nodes.
///
/// Holds the proposer's index and, for each node in roster order, the bytes
/// of one encrypted value of the verified row.
#[derive(Clone, PartialEq, Eq, Hash, Debug)]
pub struct Accept(pub u64, pub Vec<Vec<u8>>);

/// The outcome of handling and verifying a `Propose` message.
#[derive(Clone, Debug)]
pub enum ProposeOutcome {
    /// The row encrypted to us matched the public commitment: the returned
    /// `Accept` should be multicast to all nodes.
    Valid(Accept),
    /// The row encrypted to us was malformed or did not match the public
    /// commitment: the proposer is flagged, and no `Accept` is sent.
    Invalid(FaultLog),
}

// ---------------------------------------------------------------------------
// Abstract state.
// ---------------------------------------------------------------------------

/// The abstract state of one proposer's secret sharing process.
#[verifier::ext_equal]
pub ghost struct ProposalView {
    /// Canonical bytes of the proposer's bivariate commitment.
    pub commit: Seq<u8>,
    /// For each sender position, the canonical bytes of the verified value we
    /// received from that sender's `Accept`, if any.
    pub values: Seq<Option<Seq<u8>>>,
    /// For each sender position, whether that sender has accepted this
    /// proposal (with a well-formed `Accept`, valid for us or not).
    pub accepts: Seq<bool>,
}

/// The number of `true` entries of a boolean sequence.
pub open spec fn count_trues(s: Seq<bool>) -> int
    decreases s.len(),
{
    if s.len() == 0 {
        0
    } else {
        count_trues(s.drop_last()) + if s.last() {
            1int
        } else {
            0int
        }
    }
}

impl ProposalView {
    /// Both per-sender columns cover the whole roster.
    pub open spec fn wf(self, n: int) -> bool {
        self.values.len() == n && self.accepts.len() == n
    }

    /// How many senders have accepted this proposal.
    pub open spec fn accept_count(self) -> int {
        count_trues(self.accepts)
    }

    /// A proposal is complete iff more than `2 t` senders accepted it.
    pub open spec fn is_complete(self, threshold: int) -> bool {
        self.accept_count() > 2 * threshold
    }
}

/// The abstract state of a key generation instance.
#[verifier::ext_equal]
pub ghost struct KeyGenView {
    /// Our position in the roster, or `None` if we are an observer.
    pub our_idx: Option<u64>,
    /// The node identifiers of the roster, in roster order.
    pub ids: Seq<u64>,
    /// The degree `t` of the generated polynomial.
    pub threshold: int,
    /// Per proposer position, the tracked proposal, if one arrived.
    pub proposals: Seq<Option<ProposalView>>,
}

/// The number of complete proposals in the sequence.
pub open spec fn spec_count_complete(props: Seq<Option<ProposalView>>, t: int) -> int
    decreases props.len(),
{
    if props.len() == 0 {
        0
    } else {
        spec_count_complete(props.drop_last(), t) + match props.last() {
            Some(p) => if p.is_complete(t) {
                1int
            } else {
                0int
            },
            None => 0int,
        }
    }
}

/// The commitments of the complete proposals, in proposer order.
pub open spec fn complete_commits(props: Seq<Option<ProposalView>>, t: int) -> Seq<Seq<u8>>
    decreases props.len(),
{
    if props.len() == 0 {
        Seq::empty()
    } else {
        let prefix = complete_commits(props.drop_last(), t);
        match props.last() {
            Some(p) => if p.is_complete(t) {
                prefix.push(p.commit)
            } else {
                prefix
            },
            None => prefix,
        }
    }
}

/// The canonical bytes of the sum of the row-zero commitments of the given
/// commitments, starting from the zero commitment; `None` when some byte
/// string does not decode.
pub open spec fn pks_fold(cs: Seq<Seq<u8>>) -> Option<Seq<u8>>
    decreases cs.len(),
{
    if cs.len() == 0 {
        Some(zero_commitment_spec())
    } else {
        match pks_fold(cs.drop_last()) {
            Some(acc) => match spec_commit_row(cs.last(), 0) {
                Some(row) => spec_commit_add(acc, row),
                None => None,
            },
            None => None,
        }
    }
}

/// The position of the first occurrence of `id`, if any.
pub open spec fn spec_index_of(ids: Seq<u64>, id: u64) -> Option<u64>
    decreases ids.len(),
{
    if ids.len() == 0 {
        None
    } else if ids[0] == id {
        Some(0u64)
    } else {
        match spec_index_of(ids.drop_first(), id) {
            Some(j) => Some((j + 1) as u64),
            None => None,
        }
    }
}

/// The proposal state tracked right after a commitment arrives: no acceptors
/// and no values yet.
pub open spec fn fresh_proposal(commit: Seq<u8>, n: int) -> ProposalView {
    ProposalView {
        commit,
        values: Seq::new(n as nat, |s: int| None),
        accepts: Seq::new(n as nat, |s: int| false),
    }
}

/// The fault log holding exactly one `InvalidAcceptMessage` fault for the
/// given node.
pub open spec fn accept_fault(sender_id: u64) -> Seq<Fault> {
    seq![(Fault { node_id: sender_id, kind: FaultKind::InvalidAcceptMessage })]
}

/// The fault log holding exactly one `InvalidProposeMessage` fault for the
/// given node.
pub open spec fn propose_fault(sender_id: u64) -> Seq<Fault> {
    seq![(Fault { node_id: sender_id, kind: FaultKind::InvalidProposeMessage })]
}

impl KeyGenView {
    /// The number of nodes in the roster.
    pub open spec fn n(self) -> int {
        self.ids.len() as int
    }

    /// This view with proposal slot `p` replaced.
    pub open spec fn with_prop(self, p: int, pv: ProposalView) -> KeyGenView {
        KeyGenView {
            our_idx: self.our_idx,
            ids: self.ids,
            threshold: self.threshold,
            proposals: self.proposals.update(p, Some(pv)),
        }
    }

    /// Whether this node is a validator, i.e. holds a roster position.
    pub open spec fn is_validator(self) -> bool {
        self.our_idx is Some
    }

    /// Well-formedness of one proposal slot, including the data-model
    /// invariants: observers never hold values; a value is stored only for a
    /// recorded acceptor, so a proposal never holds more values than
    /// acceptors; and a value is stored for a sender only if its base-point
    /// multiple matched the public commitment at our column and the sender's
    /// row.
    pub open spec fn prop_wf(self, k: int) -> bool {
        match self.proposals[k] {
            Some(p) => {
                &&& p.wf(self.n())
                &&& (self.our_idx is None ==> forall|s: int|
                    0 <= s < p.values.len() ==> p.values[s] is None)
                &&& (forall|s: int|
                    0 <= s < p.values.len() && #[trigger] p.values[s] is Some ==> p.accepts[s])
                &&& (forall|s: int|
                    0 <= s < p.values.len() && #[trigger] p.values[s] is Some ==> {
                        &&& self.our_idx is Some
                        &&& spec_g1_mul_base(p.values[s]->Some_0) is Some
                        &&& spec_commit_evaluate(
                            p.commit,
                            (self.our_idx->Some_0 + 1) as u64,
                            (s + 1) as u64,
                        ) == spec_g1_mul_base(p.values[s]->Some_0)
                    })
            },
            None => true,
        }
    }

    /// Well-formedness of the whole instance.
    pub open spec fn wf(self) -> bool {
        &&& 0 <= self.threshold < 0x10000
        &&& self.ids.len() < 0x1000_0000
        &&& self.proposals.len() == self.ids.len()
        &&& (forall|i: int, j: int|
            0 <= i < j < self.ids.len() ==> #[trigger] self.ids[i] < #[trigger] self.ids[j])
        &&& (self.our_idx matches Some(u) ==> u < self.ids.len())
        &&& (forall|k: int| 0 <= k < self.proposals.len() ==> #[trigger] self.prop_wf(k))
    }

    /// The number of complete proposals.
    pub open spec fn count_complete(self) -> int {
        spec_count_complete(self.proposals, self.threshold)
    }

    /// The canonical bytes of the public key set that `generate` returns:
    /// the homomorphic sum of the row-zero commitments of all complete
    /// proposals, in proposer order.
    pub open spec fn spec_pks(self) -> Option<Seq<u8>> {
        pks_fold(complete_commits(self.proposals, self.threshold))
    }
}

// ---------------------------------------------------------------------------
// Proposal state.
// ---------------------------------------------------------------------------

/// The information needed to track a single proposer's secret sharing
/// process. Holds no cryptographic logic: all verification happens in
/// [`SyncKeyGen`] before mutation.
struct ProposalState {
    /// Canonical bytes of the proposer's bivariate commitment.
    commit: Vec<u8>,
    /// Per sender position, the canonical bytes of the verified value from
    /// that sender, paired with its decoded field element.
    values: Vec<Option<(Vec<u8>, threshold_crypto::Fr)>>,
    /// Per sender position, whether that sender accepted this proposal.
    accepts: Vec<bool>,
}

impl View for ProposalState {
    type V = ProposalView;

    closed spec fn view(&self) -> ProposalView {
        ProposalView {
            commit: self.commit@,
            values: Seq::new(
                self.values@.len(),
                |i: int|
                    match self.values@[i] {
                        Some(p) => Some(p.0@),
                        None => None,
                    },
            ),
            accepts: self.accepts@,
        }
    }
}

impl ProposalState {
    /// Creates a new proposal state for a roster of `n` nodes, holding the
    /// given commitment bytes and no acceptors or values yet.
    fn new(commit: Vec<u8>, n: usize) -> (r: ProposalState)
        ensures
            r@.commit == commit@,
            r@.values.len() == n,
            r@.accepts.len() == n,
            forall|k: int| 0 <= k < n ==> #[trigger] r@.values[k] is None,
            forall|k: int| 0 <= k < n ==> !(#[trigger] r@.accepts[k]),
    {
        let mut values: Vec<Option<(Vec<u8>, threshold_crypto::Fr)>> = Vec::new();
        let mut accepts: Vec<bool> = Vec::new();
        let mut i: usize = 0;
        while i < n
            invariant
                i <= n,
                values@.len() == i,
                accepts@.len() == i,
                forall|k: int| 0 <= k < i ==> #[trigger] values@[k] is None,
                forall|k: int| 0 <= k < i ==> !(#[trigger] accepts@[k]),
            decreases n - i,
        {
            values.push(None);
            accepts.push(false);
            i = i + 1;
        }
        ProposalState { commit, values, accepts }
    }

    /// Returns `true` iff more than `2 * threshold` nodes have accepted.
    fn is_complete(&self, threshold: usize) -> (r: bool)
        requires
            threshold < 0x10000,
        ensures
            r == self@.is_complete(threshold as int),
    {
        let n = self.accepts.len();
        let mut count: usize = 0;
        let mut i: usize = 0;
        while i < n
            invariant
                i <= n,
                n == self.accepts@.len(),
                count <= i,
                count as int == count_trues(self.accepts@.take(i as int)),
            decreases n - i,
        {
            proof {
                assert(self.accepts@.take(i + 1).drop_last() =~= self.accepts@.take(i as int));
                assert(self.accepts@.take(i + 1).last() == self.accepts@[i as int]);
            }
            if self.accepts[i] {
                count = count + 1;
            }
            i = i + 1;
        }
        proof {
            assert(self.accepts@.take(n as int) =~= self.accepts@);
        }
        count > 2 * threshold
    }
}

// ---------------------------------------------------------------------------
// Index lookup lemmas.
// ---------------------------------------------------------------------------

/// `spec_index_of` returns the position of the first occurrence.
proof fn lemma_index_of_first(ids: Seq<u64>, id: u64, i: int)
    requires
        ids.len() < 0x1000_0000,
        0 <= i < ids.len(),
        ids[i] == id,
        forall|k: int| 0 <= k < i ==> ids[k] != id,
    ensures
        spec_index_of(ids, id) == Some(i as u64),
    decreases ids.len(),
{
    if i == 0 {
    } else {
        assert(ids[0] != id);
        lemma_index_of_first(ids.drop_first(), id, i - 1);
    }
}

/// `spec_index_of` returns `None` iff the identifier does not occur.
proof fn lemma_index_of_none(ids: Seq<u64>, id: u64)
    requires
        forall|k: int| 0 <= k < ids.len() ==> ids[k] != id,
    ensures
        spec_index_of(ids, id) is None,
    decreases ids.len(),
{
    if ids.len() > 0 {
        lemma_index_of_none(ids.drop_first(), id);
    }
}

/// Whatever `spec_index_of` returns points at the identifier.
proof fn lemma_index_of_some(ids: Seq<u64>, id: u64)
    requires
        ids.len() < 0x1000_0000,
        spec_index_of(ids, id) is Some,
    ensures
        spec_index_of(ids, id)->Some_0 < ids.len(),
        ids[spec_index_of(ids, id)->Some_0 as int] == id,
    decreases ids.len(),
{
    if ids.len() > 0 && ids[0] != id {
        lemma_index_of_some(ids.drop_first(), id);
    }
}

/// What handling a `Propose` does once the sender is known to sit at roster
/// position `s`. A repeated proposal is ignored. A first proposal has its
/// commitment recorded, whatever else happens. An observer sends nothing.
/// A validator answers every first proposal: with `Valid(accept)` only if
/// some decrypted byte string encodes a polynomial whose commitment equals
/// row `our_idx + 1` of the public commitment, and with the one
/// `InvalidProposeMessage` fault otherwise — also when the proposal carries
/// no ciphertext at our index.
pub open spec fn propose_outcome(
    pre: KeyGenView,
    post: KeyGenView,
    s: int,
    commit: Seq<u8>,
    n_rows: int,
    sender_id: u64,
    r: Option<ProposeOutcome>,
) -> bool {
    if pre.proposals[s] is Some {
        post == pre && r is None
    } else {
        &&& post.proposals == pre.proposals.update(s, Some(fresh_proposal(commit, pre.n())))
        &&& (pre.our_idx is None ==> r is None)
        &&& (pre.our_idx matches Some(u) ==> match r {
            Some(ProposeOutcome::Valid(a)) => {
                &&& a.0 == s as u64
                &&& a.1@.len() == pre.n()
                &&& (u as int) < n_rows
                &&& exists|sr: Seq<u8>|
                    #[trigger] spec_poly_commitment(sr) is Some && spec_poly_commitment(sr)
                        == spec_commit_row(commit, (u + 1) as u64)
            },
            Some(ProposeOutcome::Invalid(fl)) => fl@ == propose_fault(sender_id),
            None => false,
        })
    }
}

/// What handling an `Accept` does once the sender is known to sit at roster
/// position `s`. The message is checked in order — value count, known
/// proposer, duplicate acceptor — and any failure flags the sender while
/// leaving the state unchanged. Otherwise the acceptor is recorded first;
/// an observer stops there, while a validator also decrypts and verifies the
/// value addressed to it, recording it on success and flagging the sender on
/// failure (the acceptor stays recorded either way).
pub open spec fn accept_outcome(
    pre: KeyGenView,
    post: KeyGenView,
    s: int,
    p: int,
    n_vals: int,
    sender_id: u64,
    log: Seq<Fault>,
) -> bool {
    if n_vals != pre.n() || !(0 <= p < pre.proposals.len()) || pre.proposals[p] is None {
        post == pre && log == accept_fault(sender_id)
    } else if pre.proposals[p]->Some_0.accepts[s] {
        post == pre && log == accept_fault(sender_id)
    } else {
        let pv = pre.proposals[p]->Some_0;
        let with_acc = ProposalView {
            commit: pv.commit,
            values: pv.values,
            accepts: pv.accepts.update(s, true),
        };
        if pre.our_idx is None {
            post == pre.with_prop(p, with_acc) && log == Seq::<Fault>::empty()
        } else {
            ||| (log == accept_fault(sender_id) && post == pre.with_prop(p, with_acc))
            ||| (log == Seq::<Fault>::empty() && exists|vb: Seq<u8>|
                {
                    &&& #[trigger] spec_g1_mul_base(vb) is Some
                    &&& spec_commit_evaluate(
                        pv.commit,
                        (pre.our_idx->Some_0 + 1) as u64,
                        (s + 1) as u64,
                    ) == spec_g1_mul_base(vb)
                    &&& post == pre.with_prop(
                        p,
                        ProposalView {
                            commit: pv.commit,
                            values: pv.values.update(s, Some(vb)),
                            accepts: pv.accepts.update(s, true),
                        },
                    )
                })
        }
    }
}

// ---------------------------------------------------------------------------
// Agreement.
// ---------------------------------------------------------------------------

/// Two proposal slots agree on their public part: both empty, or both
/// tracking the same commitment with the same acceptor set. The decrypted
/// values may differ — every node decrypts a different column.
pub open spec fn same_public_slot(x: Option<ProposalView>, y: Option<ProposalView>) -> bool {
    match (x, y) {
        (Some(px), Some(py)) => px.commit == py.commit && px.accepts == py.accepts,
        (None, None) => true,
        _ => false,
    }
}

/// Two states agree on everything `generate`'s public key set can depend
/// on: the threshold, the roster size, and the public part of every slot.
pub open spec fn same_public_slots(a: KeyGenView, b: KeyGenView) -> bool {
    &&& a.threshold == b.threshold
    &&& a.n() == b.n()
    &&& a.proposals.len() == b.proposals.len()
    &&& forall|k: int|
        0 <= k < a.proposals.len() ==> #[trigger] same_public_slot(a.proposals[k], b.proposals[k])
}

/// One step of the agreement argument: two nodes that agree on the public
/// slots and handle the same `Propose` from the same sender still agree —
/// the recorded commitment is the message's, whatever role each node plays
/// and whatever the row encrypted to it contained.
pub proof fn lemma_propose_public_step(
    pre_a: KeyGenView,
    post_a: KeyGenView,
    ra: Option<ProposeOutcome>,
    pre_b: KeyGenView,
    post_b: KeyGenView,
    rb: Option<ProposeOutcome>,
    s: int,
    commit: Seq<u8>,
    n_rows: int,
    sender_id: u64,
)
    requires
        same_public_slots(pre_a, pre_b),
        0 <= s < pre_a.proposals.len(),
        propose_outcome(pre_a, post_a, s, commit, n_rows, sender_id, ra),
        propose_outcome(pre_b, post_b, s, commit, n_rows, sender_id, rb),
        post_a.threshold == pre_a.threshold,
        post_a.ids == pre_a.ids,
        post_b.threshold == pre_b.threshold,
        post_b.ids == pre_b.ids,
    ensures
        same_public_slots(post_a, post_b),
{
    assert(same_public_slot(pre_a.proposals[s], pre_b.proposals[s]));
    if pre_a.proposals[s] is Some {
    } else {
        let fp = fresh_proposal(commit, pre_a.n());
        assert forall|k: int| 0 <= k < post_a.proposals.len() implies #[trigger] same_public_slot(
            post_a.proposals[k],
            post_b.proposals[k],
        ) by {
            if k == s {
                assert(post_a.proposals[k] == Some(fp));
                assert(post_b.proposals[k] == Some(fp));
            } else {
                assert(same_public_slot(pre_a.proposals[k], pre_b.proposals[k]));
            }
        }
    }
}

/// One step of the agreement argument: two nodes that agree on the public
/// slots and handle the same `Accept` from the same sender still agree —
/// the acceptor is recorded on both sides in exactly the same situations,
/// whether or not each node could verify the value encrypted to it; only
/// the stored values, which `generate`'s public key set never reads, may
/// differ.
pub proof fn lemma_accept_public_step(
    pre_a: KeyGenView,
    post_a: KeyGenView,
    log_a: Seq<Fault>,
    pre_b: KeyGenView,
    post_b: KeyGenView,
    log_b: Seq<Fault>,
    s: int,
    p: int,
    n_vals: int,
    sender_id: u64,
)
    requires
        same_public_slots(pre_a, pre_b),
        accept_outcome(pre_a, post_a, s, p, n_vals, sender_id, log_a),
        accept_outcome(pre_b, post_b, s, p, n_vals, sender_id, log_b),
        post_a.threshold == pre_a.threshold,
        post_a.ids == pre_a.ids,
        post_b.threshold == pre_b.threshold,
        post_b.ids == pre_b.ids,
    ensures
        same_public_slots(post_a, post_b),
{
    if n_vals != pre_a.n() || !(0 <= p < pre_a.proposals.len()) || pre_a.proposals[p] is None {
        assert(same_public_slot(pre_a.proposals[p], pre_b.proposals[p])
            || !(0 <= p < pre_a.proposals.len()));
    } else {
        assert(same_public_slot(pre_a.proposals[p], pre_b.proposals[p]));
        let pv_a = pre_a.proposals[p]->Some_0;
        let pv_b = pre_b.proposals[p]->Some_0;
        if pv_a.accepts[s] {
        } else {
            // Both sides replace slot `p` with a proposal holding the same
            // commitment and the same acceptor set.
            assert(post_a.proposals[p] matches Some(x) && x.commit == pv_a.commit && x.accepts
                == pv_a.accepts.update(s, true));
            assert(post_b.proposals[p] matches Some(x) && x.commit == pv_a.commit && x.accepts
                == pv_a.accepts.update(s, true));
            assert forall|k: int|
                0 <= k < post_a.proposals.len() implies #[trigger] same_public_slot(
                post_a.proposals[k],
                post_b.proposals[k],
            ) by {
                if k != p {
                    assert(post_a.proposals[k] == pre_a.proposals[k]);
                    assert(post_b.proposals[k] == pre_b.proposals[k]);
                    assert(same_public_slot(pre_a.proposals[k], pre_b.proposals[k]));
                }
            }
        }
    }
}

/// The complete proposals' commitments depend only on the public slots.
proof fn lemma_complete_commits_congruent(
    pa: Seq<Option<ProposalView>>,
    pb: Seq<Option<ProposalView>>,
    t: int,
)
    requires
        pa.len() == pb.len(),
        forall|k: int| 0 <= k < pa.len() ==> #[trigger] same_public_slot(pa[k], pb[k]),
    ensures
        complete_commits(pa, t) == complete_commits(pb, t),
    decreases pa.len(),
{
    if pa.len() > 0 {
        assert forall|k: int|
            0 <= k < pa.drop_last().len() implies #[trigger] same_public_slot(
            pa.drop_last()[k],
            pb.drop_last()[k],
        ) by {
            assert(same_public_slot(pa[k], pb[k]));
        }
        lemma_complete_commits_congruent(pa.drop_last(), pb.drop_last(), t);
        assert(same_public_slot(pa.last(), pb.last()));
    }
}

/// Agreement: any two nodes that agree on the threshold and on the public
/// part of every proposal slot — the commitments and the acceptor sets,
/// though not necessarily their own roles, rosters' keys, or the values they
/// decrypted for themselves — compute the same public key set in `generate`.
/// In particular, an observer computes the same public key set as any
/// validator that handled the same messages. Together with
/// [`lemma_propose_public_step`] and [`lemma_accept_public_step`], which show
/// that handling the same message preserves that agreement, this gives the
/// protocol's guarantee: nodes that process the identical message sequence
/// return identical public key sets.
pub proof fn lemma_agreement(a: KeyGenView, b: KeyGenView)
    requires
        a.threshold == b.threshold,
        a.proposals.len() == b.proposals.len(),
        forall|k: int|
            0 <= k < a.proposals.len() ==> #[trigger] same_public_slot(
                a.proposals[k],
                b.proposals[k],
            ),
    ensures
        a.spec_pks() == b.spec_pks(),
{
    lemma_complete_commits_congruent(a.proposals, b.proposals, a.threshold);
}

// ---------------------------------------------------------------------------
// Counting lemmas.
// ---------------------------------------------------------------------------

/// Setting one entry of a boolean sequence to `true` cannot lower the count.
proof fn lemma_count_trues_update_true(s: Seq<bool>, i: int)
    requires
        0 <= i < s.len(),
    ensures
        count_trues(s.update(i, true)) >= count_trues(s),
    decreases s.len(),
{
    if i == s.len() - 1 {
        assert(s.update(i, true).drop_last() =~= s.drop_last());
    } else {
        lemma_count_trues_update_true(s.drop_last(), i);
        assert(s.update(i, true).drop_last() =~= s.drop_last().update(i, true));
        assert(s.update(i, true).last() == s.last());
    }
}

/// Replacing one proposal with one that is complete whenever the old one was
/// cannot lower the number of complete proposals.
proof fn lemma_count_complete_update(
    props: Seq<Option<ProposalView>>,
    t: int,
    p: int,
    pv: ProposalView,
)
    requires
        0 <= p < props.len(),
        props[p] is Some,
        props[p]->Some_0.is_complete(t) ==> pv.is_complete(t),
    ensures
        spec_count_complete(props.update(p, Some(pv)), t) >= spec_count_complete(props, t),
    decreases props.len(),
{
    if p == props.len() - 1 {
        assert(props.update(p, Some(pv)).drop_last() =~= props.drop_last());
    } else {
        lemma_count_complete_update(props.drop_last(), t, p, pv);
        assert(props.update(p, Some(pv)).drop_last() =~= props.drop_last().update(p, Some(pv)));
        assert(props.update(p, Some(pv)).last() == props.last());
    }
}

/// Replacing one proposal slot preserves well-formedness, provided the new
/// slot keeps the per-slot invariants.
proof fn lemma_replace_slot_wf(pre: KeyGenView, post: KeyGenView, p: int, pv: ProposalView)
    requires
        pre.wf(),
        0 <= p < pre.proposals.len(),
        post == pre.with_prop(p, pv),
        pv.wf(pre.n()),
        pre.our_idx is None ==> forall|s2: int|
            0 <= s2 < pv.values.len() ==> pv.values[s2] is None,
        forall|s2: int|
            0 <= s2 < pv.values.len() && #[trigger] pv.values[s2] is Some ==> pv.accepts[s2],
        forall|s2: int|
            0 <= s2 < pv.values.len() && #[trigger] pv.values[s2] is Some ==> pre.our_idx is Some
                && spec_g1_mul_base(pv.values[s2]->Some_0) is Some && spec_commit_evaluate(
                pv.commit,
                (pre.our_idx->Some_0 + 1) as u64,
                (s2 + 1) as u64,
            ) == spec_g1_mul_base(pv.values[s2]->Some_0),
    ensures
        post.wf(),
{
    assert forall|k: int| 0 <= k < post.proposals.len() implies #[trigger] post.prop_wf(k) by {
        if k == p {
            assert(post.proposals[k] == Some(pv));
        } else {
            assert(pre.prop_wf(k));
            assert(post.proposals[k] == pre.proposals[k]);
        }
    }
}

// ---------------------------------------------------------------------------
// Value verification.
// ---------------------------------------------------------------------------

/// Decides whether decrypted value bytes verify against a proposer's public
/// commitment: exactly when the bytes canonically encode a field element
/// whose base-point multiple equals the commitment evaluated at
/// `(our_idx + 1, sender_idx + 1)`.
///
/// This is the whole verification step behind a validator's
/// [`SyncKeyGen::handle_accept`], exact in the decrypted bytes — which
/// `handle_accept` itself cannot pin, because decryption depends on the
/// opaque secret key.
pub fn value_matches_commitment(
    commit: &Vec<u8>,
    our_idx: u64,
    sender_idx: u64,
    ser_val: &Vec<u8>,
) -> (r: bool)
    requires
        our_idx < 0x1000_0000,
        sender_idx < 0x1000_0000,
    ensures
        r == (spec_g1_mul_base(ser_val@) is Some && spec_commit_evaluate(
            commit@,
            (our_idx + 1) as u64,
            (sender_idx + 1) as u64,
        ) == spec_g1_mul_base(ser_val@)),
{
    let g1v = match crypto::g1_mul_base_bytes(ser_val) {
        Some(g) => g,
        None => {
            return false;
        },
    };
    let ev = match crypto::commit_evaluate_bytes(commit, our_idx + 1, sender_idx + 1) {
        Some(e) => e,
        None => {
            return false;
        },
    };
    bytes_eq(&ev, &g1v)
}

// ---------------------------------------------------------------------------
// Byte comparison.
// ---------------------------------------------------------------------------

/// Compares two byte vectors for equality.
fn bytes_eq(a: &Vec<u8>, b: &Vec<u8>) -> (r: bool)
    ensures
        r == (a@ == b@),
{
    if a.len() != b.len() {
        return false;
    }
    let n = a.len();
    let mut i: usize = 0;
    while i < n
        invariant
            i <= n,
            n == a@.len(),
            a@.len() == b@.len(),
            forall|k: int| 0 <= k < i ==> a@[k] == b@[k],
        decreases n - i,
    {
        if a[i] != b[i] {
            return false;
        }
        i = i + 1;
    }
    proof {
        assert(a@ =~= b@);
    }
    true
}

// ---------------------------------------------------------------------------
// The key generation instance.
// ---------------------------------------------------------------------------

/// A synchronous algorithm for dealerless distributed key generation.
///
/// It requires that all nodes handle all messages in the exact same order.
pub struct SyncKeyGen {
    /// Our node index, or `None` if we are an observer.
    our_idx: Option<u64>,
    /// Our long-term secret key, used only for decryption.
    sec_key: threshold_crypto::SecretKey,
    /// The long-term public keys of all nodes, in ascending identifier order.
    pub_keys: Vec<(u64, threshold_crypto::PublicKey)>,
    /// Per proposer position, the tracked proposal, if one arrived.
    proposals: Vec<Option<ProposalState>>,
    /// The degree of the generated polynomial.
    threshold: usize,
}

impl View for SyncKeyGen {
    type V = KeyGenView;

    closed spec fn view(&self) -> KeyGenView {
        KeyGenView {
            our_idx: self.our_idx,
            ids: Seq::new(self.pub_keys@.len(), |i: int| self.pub_keys@[i].0),
            threshold: self.threshold as int,
            proposals: Seq::new(
                self.proposals@.len(),
                |i: int|
                    match self.proposals@[i] {
                        Some(st) => Some(st@),
                        None => None,
                    },
            ),
        }
    }
}

impl SyncKeyGen {
    /// Creates a new `SyncKeyGen` instance, together with the `Propose`
    /// message that should be multicast to all nodes.
    ///
    /// The roster `pub_keys` must be given in ascending identifier order, so
    /// that all nodes agree on every node's position. If `our_id` has no
    /// entry in the roster we are an observer: no `Propose` is produced and
    /// no messages need to be sent.
    ///
    /// The sampled bivariate polynomial never leaves this function: only its
    /// commitment and its encrypted rows are emitted.
    pub fn new(
        our_id: u64,
        sec_key: threshold_crypto::SecretKey,
        pub_keys: Vec<(u64, threshold_crypto::PublicKey)>,
        threshold: usize,
    ) -> (r: (SyncKeyGen, Option<Propose>))
        requires
            threshold < 0x10000,
            pub_keys@.len() < 0x1000_0000,
            forall|i: int, j: int|
                0 <= i < j < pub_keys@.len() ==> pub_keys@[i].0 < pub_keys@[j].0,
        ensures
            r.0@.wf(),
            r.0@.threshold == threshold as int,
            r.0@.ids == Seq::new(pub_keys@.len(), |i: int| pub_keys@[i].0),
            r.0@.our_idx == spec_index_of(r.0@.ids, our_id),
            r.0@.proposals.len() == pub_keys@.len(),
            forall|k: int| 0 <= k < r.0@.proposals.len() ==> r.0@.proposals[k] is None,
            (r.1 is Some <==> spec_index_of(r.0@.ids, our_id) is Some),
            (r.1 matches Some(p) ==> p.1@.len() == pub_keys@.len()
                && spec_commit_degree(p.0@) == Some(threshold as u64)),
    {
        let n = pub_keys.len();
        let mut proposals: Vec<Option<ProposalState>> = Vec::new();
        let mut i: usize = 0;
        while i < n
            invariant
                i <= n,
                proposals@.len() == i,
                forall|k: int| 0 <= k < i ==> #[trigger] proposals@[k] is None,
            decreases n - i,
        {
            proposals.push(None);
            i = i + 1;
        }
        let mut key_gen = SyncKeyGen {
            our_idx: None,
            sec_key,
            pub_keys,
            proposals,
            threshold,
        };
        let our_idx = key_gen.node_index(our_id);
        key_gen.our_idx = our_idx;
        proof {
            if spec_index_of(key_gen@.ids, our_id) is Some {
                lemma_index_of_some(key_gen@.ids, our_id);
            }
        }
        match key_gen.our_idx {
            None => (key_gen, None),  // No proposal: we are an observer.
            Some(_) => {
                let (bivar, commit) = crypto::random_commitment(threshold);
                let mut rows: Vec<Vec<u8>> = Vec::new();
                let mut k: usize = 0;
                while k < n
                    invariant
                        k <= n,
                        n < 0x1000_0000,
                        n == key_gen.pub_keys@.len(),
                        rows@.len() == k,
                    decreases n - k,
                {
                    let row = crypto::bivar_row_bytes(&bivar, (k as u64) + 1);
                    let entry = &key_gen.pub_keys[k];
                    let ct = crypto::encrypt(&entry.1, &row);
                    rows.push(ct);
                    k = k + 1;
                }
                (key_gen, Some(Propose(commit, rows)))
            },
        }
    }

    /// Decides a validator's answer to a first proposal, given the row
    /// bytes that decrypted for us: the `Accept` to broadcast exactly when
    /// the row's own commitment equals row `our_idx + 1` of the proposer's
    /// public commitment, and the one `InvalidProposeMessage` fault in every
    /// other case. The returned `Accept` carries the proposer's index and
    /// one encrypted row evaluation per roster member.
    ///
    /// This is the whole verification step behind [`Self::handle_propose`],
    /// exact in the decrypted bytes — which `handle_propose` itself cannot
    /// pin, because decryption depends on the opaque secret key.
    pub fn row_outcome(
        &self,
        sender_id: u64,
        sender_idx: u64,
        commit: &Vec<u8>,
        ser_row: &Vec<u8>,
    ) -> (r: ProposeOutcome)
        requires
            self@.wf(),
            self@.our_idx is Some,
        ensures
            (r matches ProposeOutcome::Valid(_)) <==> (spec_poly_commitment(ser_row@) is Some
                && spec_poly_commitment(ser_row@) == spec_commit_row(
                commit@,
                (self@.our_idx->Some_0 + 1) as u64,
            )),
            r matches ProposeOutcome::Valid(a) ==> a.0 == sender_idx && a.1@.len() == self@.n(),
            r matches ProposeOutcome::Invalid(fl) ==> fl@ == propose_fault(sender_id),
    {
        let our_idx = self.our_idx.unwrap();
        let row_commit = match crypto::poly_commitment_bytes(ser_row) {
            Some(c) => c,
            None => {
                // The decrypted bytes do not encode a polynomial.
                let fault_log = FaultLog::init(sender_id, FaultKind::InvalidProposeMessage);
                proof {
                    assert(fault_log@ =~= propose_fault(sender_id));
                }
                return ProposeOutcome::Invalid(fault_log);
            },
        };
        let commit_row = match crypto::commit_row_bytes(commit, our_idx + 1) {
            Some(c) => c,
            None => {
                // The commitment bytes themselves do not decode.
                let fault_log = FaultLog::init(sender_id, FaultKind::InvalidProposeMessage);
                proof {
                    assert(fault_log@ =~= propose_fault(sender_id));
                }
                return ProposeOutcome::Invalid(fault_log);
            },
        };
        if !bytes_eq(&row_commit, &commit_row) {
            // The decrypted row does not match the public commitment.
            let fault_log = FaultLog::init(sender_id, FaultKind::InvalidProposeMessage);
            proof {
                assert(fault_log@ =~= propose_fault(sender_id));
            }
            return ProposeOutcome::Invalid(fault_log);
        }
        // The row is valid: encrypt one value of it for each node.
        let n = self.pub_keys.len();
        let mut values: Vec<Vec<u8>> = Vec::new();
        let mut k: usize = 0;
        while k < n
            invariant
                k <= n,
                n < 0x1000_0000,
                n == self.pub_keys@.len(),
                values@.len() == k,
                spec_poly_commitment(ser_row@) is Some,
            decreases n - k,
        {
            let val_bytes = crypto::poly_eval_bytes(ser_row, (k as u64) + 1).unwrap();
            let entry = &self.pub_keys[k];
            let ct_k = crypto::encrypt(&entry.1, &val_bytes);
            values.push(ct_k);
            k = k + 1;
        }
        ProposeOutcome::Valid(Accept(sender_idx, values))
    }

    /// Handles a `Propose` message. If it is valid, returns an `Accept`
    /// message to be broadcast.
    ///
    /// If the sender is unknown, or already proposed, or we are an observer,
    /// `None` is returned and no message needs to be sent. A first proposal
    /// from a known sender always has its commitment recorded; a validator
    /// then answers it through [`Self::row_outcome`], with an `Accept` if
    /// the row encrypted to us decrypts and matches the public commitment,
    /// and with an `InvalidProposeMessage` fault otherwise — also when no
    /// ciphertext at our index is present or decryption fails.
    pub fn handle_propose(&mut self, sender_id: u64, propose: Propose) -> (r: Option<
        ProposeOutcome,
    >)
        requires
            old(self)@.wf(),
        ensures
            final(self)@.wf(),
            final(self)@.our_idx == old(self)@.our_idx,
            final(self)@.ids == old(self)@.ids,
            final(self)@.threshold == old(self)@.threshold,
            spec_index_of(old(self)@.ids, sender_id) is None ==> final(self)@ == old(self)@
                && r is None,
            spec_index_of(old(self)@.ids, sender_id) matches Some(s) ==> propose_outcome(
                old(self)@,
                final(self)@,
                s as int,
                propose.0@,
                propose.1@.len() as int,
                sender_id,
                r,
            ),
    {
        let sender_idx = match self.node_index(sender_id) {
            Some(s) => s,
            None => {
                return None;
            },
        };
        proof {
            lemma_index_of_some(self@.ids, sender_id);
        }
        let si = sender_idx as usize;
        let dup: bool = match &self.proposals[si] {
            Some(_) => true,
            None => false,
        };
        if dup {
            return None;
        }
        let n = self.pub_keys.len();
        // Decide the answer before the commitment bytes move into the
        // proposal state; the decision reads no tracked state.
        let outcome: Option<ProposeOutcome> = match self.our_idx {
            None => None,  // We are an observer: nothing to send.
            Some(u) => {
                if (u as usize) >= propose.1.len() {
                    // The proposal carries no ciphertext for us at all.
                    let fault_log = FaultLog::init(sender_id, FaultKind::InvalidProposeMessage);
                    proof {
                        assert(fault_log@ =~= propose_fault(sender_id));
                    }
                    Some(ProposeOutcome::Invalid(fault_log))
                } else {
                    let ct = &propose.1[u as usize];
                    match crypto::decrypt(&self.sec_key, ct) {
                        None => {
                            let fault_log = FaultLog::init(
                                sender_id,
                                FaultKind::InvalidProposeMessage,
                            );
                            proof {
                                assert(fault_log@ =~= propose_fault(sender_id));
                            }
                            Some(ProposeOutcome::Invalid(fault_log))
                        },
                        Some(ser_row) => {
                            let oc = self.row_outcome(sender_id, sender_idx, &propose.0, &ser_row);
                            proof {
                                match oc {
                                    ProposeOutcome::Valid(_) => {
                                        assert(spec_poly_commitment(ser_row@) is Some
                                            && spec_poly_commitment(ser_row@) == spec_commit_row(
                                            propose.0@,
                                            (u + 1) as u64,
                                        ));
                                    },
                                    ProposeOutcome::Invalid(_) => {},
                                }
                            }
                            Some(oc)
                        },
                    }
                }
            },
        };
        let ghost pre = self@;
        let st = ProposalState::new(propose.0, n);
        self.proposals[si] = Some(st);
        proof {
            let fp = fresh_proposal(propose.0@, pre.n());
            assert(st@.values =~= fp.values);
            assert(st@.accepts =~= fp.accepts);
            assert(st@ =~~= fp);
            assert(self@.proposals =~= pre.proposals.update(si as int, Some(fp)));
            assert forall|k: int| 0 <= k < self@.proposals.len() implies #[trigger] self@.prop_wf(
                k,
            ) by {
                if k != si as int {
                    assert(pre.prop_wf(k));
                    assert(self@.proposals[k] == pre.proposals[k]);
                }
            }
        }
        outcome
    }

    /// Handles an `Accept` message.
    ///
    /// An unknown sender is silently ignored. Any malformed, misdirected or
    /// duplicate `Accept` flags the sender in the returned fault log and is
    /// otherwise dropped. A first well-formed `Accept` records its sender as
    /// an acceptor of the proposal before the value addressed to us is
    /// checked, so a sender whose value fails verification still counts
    /// toward completion.
    pub fn handle_accept(&mut self, sender_id: u64, accept: Accept) -> (r: FaultLog)
        requires
            old(self)@.wf(),
        ensures
            final(self)@.wf(),
            final(self)@.our_idx == old(self)@.our_idx,
            final(self)@.ids == old(self)@.ids,
            final(self)@.threshold == old(self)@.threshold,
            final(self)@.count_complete() >= old(self)@.count_complete(),
            spec_index_of(old(self)@.ids, sender_id) is None ==> final(self)@ == old(self)@
                && r@ == Seq::<Fault>::empty(),
            spec_index_of(old(self)@.ids, sender_id) matches Some(s) ==> accept_outcome(
                old(self)@,
                final(self)@,
                s as int,
                accept.0 as int,
                accept.1@.len() as int,
                sender_id,
                r@,
            ),
    {
        let ghost pre = self@;
        let sender_idx = match self.node_index(sender_id) {
            Some(s) => s,
            None => {
                return FaultLog::new();
            },
        };
        proof {
            lemma_index_of_some(self@.ids, sender_id);
        }
        let s = sender_idx as usize;
        let n = self.pub_keys.len();
        if accept.1.len() != n {
            let r = FaultLog::init(sender_id, FaultKind::InvalidAcceptMessage);
            proof {
                assert(r@ =~= accept_fault(sender_id));
            }
            return r;
        }
        if accept.0 >= n as u64 {
            let r = FaultLog::init(sender_id, FaultKind::InvalidAcceptMessage);
            proof {
                assert(r@ =~= accept_fault(sender_id));
            }
            return r;
        }
        let p = accept.0 as usize;
        // Check the proposal and, for validators, verify the value encrypted
        // to us, before any state is changed.
        let (exists_ok, dup, verdict): (bool, bool, Option<
            Option<(Vec<u8>, threshold_crypto::Fr)>,
        >) = match &self.proposals[p] {
            Some(st_ref) => {
                proof {
                    assert(pre.prop_wf(p as int));
                    assert(pre.proposals[p as int] == Some(st_ref@));
                }
                if st_ref.accepts[s] {
                    (true, true, Some(None))
                } else {
                    let v: Option<Option<(Vec<u8>, threshold_crypto::Fr)>> = match self.our_idx {
                        None => Some(None),
                        Some(u) => {
                            let ct = &accept.1[u as usize];
                            match crypto::decrypt(&self.sec_key, ct) {
                                None => None,
                                Some(ser_val) => match crypto::fr_from_bytes(&ser_val) {
                                    None => None,
                                    Some(fr) => {
                                        if value_matches_commitment(
                                            &st_ref.commit,
                                            u,
                                            sender_idx,
                                            &ser_val,
                                        ) {
                                            Some(Some((ser_val, fr)))
                                        } else {
                                            None
                                        }
                                    },
                                },
                            }
                        },
                    };
                    (true, false, v)
                }
            },
            None => (false, false, Some(None)),
        };
        if !exists_ok {
            let r = FaultLog::init(sender_id, FaultKind::InvalidAcceptMessage);
            proof {
                assert(r@ =~= accept_fault(sender_id));
            }
            return r;
        }
        if dup {
            let r = FaultLog::init(sender_id, FaultKind::InvalidAcceptMessage);
            proof {
                assert(r@ =~= accept_fault(sender_id));
            }
            return r;
        }
        // Record the acceptor, and the verified value if there is one.
        let ghost vbg: Seq<u8> = match &verdict {
            Some(Some(pair)) => pair.0@,
            _ => Seq::empty(),
        };
        let ghost stored: bool = verdict matches Some(Some(_));
        let ghost faulted: bool = verdict is None;
        let mut entry = self.proposals.remove(p);
        let mut st = entry.unwrap();
        proof {
            assert(pre.prop_wf(p as int));
        }
        st.accepts[s] = true;
        let log: FaultLog = match verdict {
            None => FaultLog::init(sender_id, FaultKind::InvalidAcceptMessage),
            Some(None) => FaultLog::new(),
            Some(Some(pair)) => {
                st.values[s] = Some(pair);
                FaultLog::new()
            },
        };
        self.proposals.insert(p, Some(st));
        proof {
            let s_i = s as int;
            let p_i = p as int;
            let pv_old = pre.proposals[p_i]->Some_0;
            assert(self@.proposals =~= pre.proposals.update(p_i, Some(st@)));
            assert(st@.accepts =~= pv_old.accepts.update(s_i, true));
            if stored {
                assert(st@.values =~= pv_old.values.update(s_i, Some(vbg)));
            } else {
                assert(st@.values =~= pv_old.values);
            }
            assert(self@ =~~= pre.with_prop(p_i, st@));
            // Well-formedness of the replaced slot.
            assert forall|s2: int|
                0 <= s2 < st@.values.len() && #[trigger] st@.values[s2] is Some implies
                pre.our_idx is Some && spec_g1_mul_base(st@.values[s2]->Some_0) is Some
                && spec_commit_evaluate(
                    st@.commit,
                    (pre.our_idx->Some_0 + 1) as u64,
                    (s2 + 1) as u64,
                ) == spec_g1_mul_base(st@.values[s2]->Some_0) by {
                if stored && s2 == s_i {
                } else {
                    assert(st@.values[s2] == pv_old.values[s2]);
                }
            }
            lemma_replace_slot_wf(pre, self@, p_i, st@);
            // Completion count can only grow.
            lemma_count_trues_update_true(pv_old.accepts, s_i);
            lemma_count_complete_update(pre.proposals, pre.threshold, p_i, st@);
            // Establish the advertised outcome.
            let with_acc = ProposalView {
                commit: pv_old.commit,
                values: pv_old.values,
                accepts: pv_old.accepts.update(s_i, true),
            };
            if faulted {
                assert(log@ =~= accept_fault(sender_id));
                assert(st@ =~~= with_acc);
                assert(self@ == pre.with_prop(p_i, with_acc));
            } else if stored {
                assert(spec_g1_mul_base(vbg) is Some);
                assert(spec_commit_evaluate(
                    pv_old.commit,
                    (pre.our_idx->Some_0 + 1) as u64,
                    (s_i + 1) as u64,
                ) == spec_g1_mul_base(vbg));
                assert(st@ =~~= (ProposalView {
                    commit: pv_old.commit,
                    values: pv_old.values.update(s_i, Some(vbg)),
                    accepts: pv_old.accepts.update(s_i, true),
                }));
                assert(self@ == pre.with_prop(
                    p_i,
                    ProposalView {
                        commit: pv_old.commit,
                        values: pv_old.values.update(s_i, Some(vbg)),
                        accepts: pv_old.accepts.update(s_i, true),
                    },
                ));
            } else {
                assert(st@ =~~= with_acc);
                assert(self@ == pre.with_prop(p_i, with_acc));
            }
        }
        log
    }

    /// Returns the new public key set, as the canonical bytes of the summed
    /// commitment, and, unless we are an observer, our new secret key share,
    /// as the canonical bytes of a field element.
    ///
    /// These are only secure if `is_ready` returned `true`; every node must
    /// call this after handling the identical set of messages. The first
    /// component is `None` only when a stored commitment's bytes do not
    /// decode, which cannot happen for commitments produced by this crate.
    pub fn generate(&self) -> (r: (Option<Vec<u8>>, Option<Vec<u8>>))
        requires
            self@.wf(),
        ensures
            as_opt_bytes(r.0) == self@.spec_pks(),
            (r.1 is Some <==> self@.is_validator()),
            (r.1 matches Some(sb) ==> sb@.len() == 32 && spec_g1_mul_base(sb@) is Some),
    {
        let n = self.proposals.len();
        let t = self.threshold;
        let validator = self.our_idx.is_some();
        let mut pk_acc: Option<Vec<u8>> = Some(crypto::zero_commitment_bytes());
        let mut sk_acc: threshold_crypto::Fr = crypto::fr_zero();
        let mut i: usize = 0;
        while i < n
            invariant
                self@.wf(),
                i <= n,
                n == self@.proposals.len(),
                t == self.threshold,
                as_opt_bytes(pk_acc) == pks_fold(
                    complete_commits(self@.proposals.take(i as int), t as int),
                ),
            decreases n - i,
        {
            proof {
                assert(self@.proposals.take(i + 1).drop_last() =~= self@.proposals.take(
                    i as int,
                ));
                assert(self@.proposals.take(i + 1).last() == self@.proposals[i as int]);
            }
            match &self.proposals[i] {
                Some(st) => {
                    if st.is_complete(t) {
                        proof {
                            assert(self@.proposals[i as int] == Some(st@));
                            assert(complete_commits(self@.proposals.take(i + 1), t as int)
                                == complete_commits(
                                    self@.proposals.take(i as int),
                                    t as int,
                                ).push(st@.commit));
                            assert(complete_commits(
                                self@.proposals.take(i as int),
                                t as int,
                            ).push(st@.commit).drop_last() =~= complete_commits(
                                self@.proposals.take(i as int),
                                t as int,
                            ));
                        }
                        let row0 = crypto::commit_row_bytes(&st.commit, 0);
                        let next: Option<Vec<u8>> = match (&pk_acc, &row0) {
                            (Some(acc), Some(row)) => crypto::commit_add_bytes(acc, row),
                            _ => None,
                        };
                        pk_acc = next;
                        if validator {
                            proof {
                                assert(self@.prop_wf(i as int));
                            }
                            let n_vals = st.values.len();
                            let mut samples: Vec<(u64, threshold_crypto::Fr)> = Vec::new();
                            let mut kk: usize = 0;
                            while kk < n_vals
                                invariant
                                    kk <= n_vals,
                                    n_vals < 0x1000_0000,
                                    n_vals == st.values@.len(),
                                    t < 0x10000,
                                    samples@.len() <= t + 1,
                                    forall|a: int| 0 <= a < samples@.len()
                                        ==> #[trigger] samples@[a].0 <= kk as u64,
                                    forall|a: int, b: int| 0 <= a < b < samples@.len()
                                        ==> samples@[a].0 != samples@[b].0,
                                decreases n_vals - kk,
                            {
                                if samples.len() < t + 1 {
                                    match &st.values[kk] {
                                        Some(pair) => {
                                            samples.push((
                                                (kk as u64) + 1,
                                                crypto::fr_clone(&pair.1),
                                            ));
                                        },
                                        None => {},
                                    }
                                }
                                kk = kk + 1;
                            }
                            // Lagrange evaluation at zero of the polynomial
                            // through the samples: each value is scaled by
                            // the product over the other points x_j of
                            // x_j / (x_j - x_i), and the terms are summed.
                            let m = samples.len();
                            let mut i2: usize = 0;
                            while i2 < m
                                invariant
                                    i2 <= m,
                                    m == samples@.len(),
                                    forall|a: int, b: int|
                                        0 <= a < b < samples@.len() ==> samples@[a].0
                                            != samples@[b].0,
                                decreases m - i2,
                            {
                                let pi = &samples[i2];
                                let xi = pi.0;
                                let mut term: threshold_crypto::Fr = crypto::fr_clone(&pi.1);
                                let mut j2: usize = 0;
                                while j2 < m
                                    invariant
                                        j2 <= m,
                                        i2 < m,
                                        m == samples@.len(),
                                        xi == samples@[i2 as int].0,
                                        forall|a: int, b: int|
                                            0 <= a < b < samples@.len() ==> samples@[a].0
                                                != samples@[b].0,
                                    decreases m - j2,
                                {
                                    if j2 != i2 {
                                        let pj = &samples[j2];
                                        let xj = pj.0;
                                        proof {
                                            if j2 < i2 {
                                                assert(samples@[j2 as int].0
                                                    != samples@[i2 as int].0);
                                            } else {
                                                assert(samples@[i2 as int].0
                                                    != samples@[j2 as int].0);
                                            }
                                        }
                                        term = crypto::fr_mul(&term, &crypto::fr_from_u64(xj));
                                        term = crypto::fr_mul(&term, &crypto::fr_inv_diff(xj, xi));
                                    }
                                    j2 = j2 + 1;
                                }
                                sk_acc = crypto::fr_add(&sk_acc, &term);
                                i2 = i2 + 1;
                            }
                        }
                    } else {
                        proof {
                            assert(complete_commits(self@.proposals.take(i + 1), t as int)
                                =~= complete_commits(self@.proposals.take(i as int), t as int));
                        }
                    }
                },
                None => {
                    proof {
                        assert(complete_commits(self@.proposals.take(i + 1), t as int)
                            =~= complete_commits(self@.proposals.take(i as int), t as int));
                    }
                },
            }
            i = i + 1;
        }
        proof {
            assert(self@.proposals.take(n as int) =~= self@.proposals);
        }
        let share: Option<Vec<u8>> = if validator {
            Some(crypto::fr_to_bytes(&sk_acc))
        } else {
            None
        };
        (pk_acc, share)
    }

    /// Returns the roster position of the node, or `None` if it is unknown.
    fn node_index(&self, node_id: u64) -> (r: Option<u64>)
        requires
            self@.ids.len() < 0x1000_0000,
        ensures
            r == spec_index_of(self@.ids, node_id),
    {
        let n = self.pub_keys.len();
        let mut i: usize = 0;
        while i < n
            invariant
                i <= n,
                n == self.pub_keys@.len(),
                self@.ids.len() < 0x1000_0000,
                forall|k: int| 0 <= k < i ==> self@.ids[k] != node_id,
            decreases n - i,
        {
            let entry = &self.pub_keys[i];
            if entry.0 == node_id {
                proof {
                    lemma_index_of_first(self@.ids, node_id, i as int);
                }
                return Some(i as u64);
            }
            i = i + 1;
        }
        proof {
            lemma_index_of_none(self@.ids, node_id);
        }
        None
    }

    /// Returns the number of complete proposals. If this is at least
    /// `threshold + 1`, the keys can be generated, but it is possible to wait
    /// for more to increase security.
    pub fn count_complete(&self) -> (r: usize)
        requires
            self@.wf(),
        ensures
            r as int == self@.count_complete(),
    {
        let n = self.proposals.len();
        let mut count: usize = 0;
        let mut i: usize = 0;
        while i < n
            invariant
                self@.wf(),
                i <= n,
                n == self@.proposals.len(),
                count <= i,
            count as int == spec_count_complete(
                self@.proposals.take(i as int),
                self@.threshold,
            ),
            decreases n - i,
        {
            proof {
                assert(self@.proposals.take(i + 1).drop_last() =~= self@.proposals.take(i as int));
                assert(self@.proposals.take(i + 1).last() == self@.proposals[i as int]);
            }
            let complete: bool = match &self.proposals[i] {
                Some(st) => st.is_complete(self.threshold),
                None => false,
            };
            if complete {
                count = count + 1;
            }
            i = i + 1;
        }
        proof {
            assert(self@.proposals.take(n as int) =~= self@.proposals);
        }
        count
    }

    /// Returns `true` if the proposal of the given node is complete.
    pub fn is_node_ready(&self, proposer_id: u64) -> (r: bool)
        requires
            self@.wf(),
        ensures
            r == match spec_index_of(self@.ids, proposer_id) {
                Some(u) => self@.proposals[u as int] matches Some(p)
                    && p.is_complete(self@.threshold),
                None => false,
            },
    {
        match self.node_index(proposer_id) {
            Some(u) => {
                proof {
                    lemma_index_of_some(self@.ids, proposer_id);
                }
                match &self.proposals[u as usize] {
                    Some(st) => st.is_complete(self.threshold),
                    None => false,
                }
            },
            None => false,
        }
    }

    /// Returns `true` if enough proposals are complete to safely generate
    /// the new key: at least `threshold + 1` proposals are complete, so at
    /// least one of them was contributed by a correct node.
    pub fn is_ready(&self) -> (r: bool)
        requires
            self@.wf(),
        ensures
            r == (self@.count_complete() > self@.threshold),
    {
        self.count_complete() > self.threshold
    }
}

} // verus!
