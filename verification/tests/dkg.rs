//! End-to-end tests of the distributed key generation protocol, run with the
//! real pairing-based cryptography.

use sync_key_gen::{Accept, FaultKind, Propose, ProposeOutcome, SyncKeyGen};

use threshold_crypto::ff::{PrimeField, PrimeFieldRepr};
use threshold_crypto::poly::{Commitment, Poly};
use threshold_crypto::{
    Fr, FrRepr, PublicKey, PublicKeySet, SecretKey, SecretKeyShare, SignatureShare,
};

fn pks_from_bytes(b: &[u8]) -> PublicKeySet {
    let c: Commitment = bincode::deserialize(b).expect("public key set bytes decode");
    PublicKeySet::from(c)
}

fn share_from_bytes(b: &[u8]) -> SecretKeyShare {
    let mut repr = FrRepr::default();
    repr.read_be(b).expect("share bytes have the right length");
    let mut fr = Fr::from_repr(repr).expect("share bytes are canonical");
    SecretKeyShare::from_mut(&mut fr)
}

/// Builds one `SyncKeyGen` per identifier (the roster), plus the instances
/// for `observers`, which hold no roster entry. Returns the instances, in
/// roster order followed by observer order, and every `Propose`.
fn make_nodes(
    ids: &[u64],
    observers: &[u64],
    threshold: usize,
) -> (Vec<SyncKeyGen>, Vec<(u64, Propose)>) {
    let sks: Vec<SecretKey> = ids.iter().map(|_| SecretKey::random()).collect();
    let roster: Vec<(u64, PublicKey)> = ids
        .iter()
        .zip(&sks)
        .map(|(&id, sk)| (id, sk.public_key()))
        .collect();
    let mut nodes = Vec::new();
    let mut proposals = Vec::new();
    for (i, &id) in ids.iter().enumerate() {
        let (node, propose) = SyncKeyGen::new(id, sks[i].clone(), roster.clone(), threshold);
        let propose = propose.expect("validators propose");
        nodes.push(node);
        proposals.push((id, propose));
    }
    for &id in observers {
        let (node, propose) = SyncKeyGen::new(id, SecretKey::random(), roster.clone(), threshold);
        assert!(propose.is_none(), "observers do not propose");
        nodes.push(node);
    }
    (nodes, proposals)
}

/// Every node handles every proposal; the produced `Accept`s are collected
/// in a deterministic order and then handled by every node. `ids` gives the
/// identifier of each validator, in roster order.
fn run_all(nodes: &mut Vec<SyncKeyGen>, ids: &[u64], proposals: &[(u64, Propose)]) {
    let mut accepts: Vec<(u64, Accept)> = Vec::new();
    for (sender_id, propose) in proposals {
        for (i, node) in nodes.iter_mut().enumerate() {
            match node.handle_propose(*sender_id, propose.clone()) {
                Some(ProposeOutcome::Valid(accept)) => {
                    accepts.push((ids[i], accept));
                }
                Some(ProposeOutcome::Invalid(log)) => {
                    panic!("unexpected invalid proposal: {:?} faults", log.len());
                }
                None => {} // observer
            }
        }
    }
    for (sender_id, accept) in &accepts {
        for node in nodes.iter_mut() {
            let log = node.handle_accept(*sender_id, accept.clone());
            assert!(log.is_empty(), "no fault expected");
        }
    }
}

/// Checks share consistency and threshold signing for the given nodes:
/// every share's public key share matches the set, and any `threshold + 1`
/// shares combine to a signature valid under the master public key.
fn check_keys(nodes: &[SyncKeyGen], ids: &[u64], threshold: usize) -> PublicKeySet {
    let msg = "hello";
    let mut reference: Option<PublicKeySet> = None;
    let mut sig_shares: Vec<(u64, SignatureShare)> = Vec::new();
    for (i, node) in nodes.iter().enumerate() {
        let (pks_bytes, share_bytes) = node.generate();
        let pks = pks_from_bytes(&pks_bytes.expect("commitments decode"));
        let reference = reference.get_or_insert(pks.clone());
        assert_eq!(pks, *reference, "all nodes agree on the public key set");
        if i < ids.len() {
            let share = share_from_bytes(&share_bytes.expect("validators get a share"));
            // Share consistency: the share matches the public key share.
            assert_eq!(
                share.public_key_share(),
                reference.public_key_share(i as u64),
                "share of node {} matches the public key set",
                i
            );
            if sig_shares.len() <= threshold {
                sig_shares.push((i as u64, share.sign(msg)));
            }
        } else {
            assert!(share_bytes.is_none(), "observers get no share");
        }
    }
    let reference = reference.expect("at least one node");
    // Threshold signing: `threshold + 1` shares suffice.
    let chosen: Vec<(u64, &SignatureShare)> = sig_shares
        .iter()
        .take(threshold + 1)
        .map(|(i, s)| (*i, s))
        .collect();
    let sig = reference
        .combine_signatures(chosen)
        .expect("enough signature shares");
    assert!(reference.public_key().verify(&sig, msg));
    reference
}

#[test]
fn happy_path_n4_t1() {
    let ids = [0u64, 1, 2, 3];
    let (mut nodes, proposals) = make_nodes(&ids, &[], 1);
    run_all(&mut nodes, &ids, &proposals);
    for node in &nodes {
        assert_eq!(node.count_complete(), 4);
        assert!(node.is_ready());
        for &id in &ids {
            assert!(node.is_node_ready(id));
        }
    }
    check_keys(&nodes, &ids, 1);
}

#[test]
fn generated_set_is_sum_of_row_commitments() {
    let ids = [0u64, 1, 2, 3];
    let (mut nodes, proposals) = make_nodes(&ids, &[], 1);
    run_all(&mut nodes, &ids, &proposals);
    // Recompute the expected public key set directly from the proposals'
    // commitments: the sum of their row-zero commitments.
    let mut expected = Poly::zero().commitment();
    for (_, propose) in &proposals {
        let commit: threshold_crypto::poly::BivarCommitment =
            bincode::deserialize(&propose.0).expect("commitment bytes decode");
        assert_eq!(commit.degree(), 1, "the emitted commitment has degree t");
        expected += commit.row(0);
    }
    let (pks_bytes, _) = nodes[0].generate();
    assert_eq!(
        pks_bytes.expect("commitments decode"),
        bincode::serialize(&expected).expect("serialize"),
        "the generated set is the sum of the complete proposals' row commitments"
    );
}

#[test]
fn propose_without_our_ciphertext_is_a_fault() {
    let ids = [0u64, 1, 2, 3];
    let (mut nodes, mut proposals) = make_nodes(&ids, &[], 1);
    // Truncate proposer 0's row vector so that node 3 has no ciphertext.
    proposals[0].1 .1.truncate(3);
    match nodes[3].handle_propose(0, proposals[0].1.clone()) {
        Some(ProposeOutcome::Invalid(log)) => {
            assert_eq!(log.len(), 1);
            assert_eq!(log.get(0).node_id, 0);
            assert_eq!(log.get(0).kind, FaultKind::InvalidProposeMessage);
        }
        _ => panic!("a proposal without our ciphertext is invalid"),
    }
    // The commitment was nonetheless recorded: a repeat is now ignored.
    assert!(nodes[3].handle_propose(0, proposals[0].1.clone()).is_none());
}

#[test]
fn observer_gets_same_set_and_no_share() {
    let ids = [10u64, 20, 30, 40];
    let (mut nodes, proposals) = make_nodes(&ids, &[99], 1);
    run_all(&mut nodes, &ids, &proposals);
    let reference = check_keys(&nodes, &ids, 1);
    let observer = &nodes[4];
    let (pks_bytes, share_bytes) = observer.generate();
    assert_eq!(pks_from_bytes(&pks_bytes.unwrap()), reference);
    assert!(share_bytes.is_none());
}

#[test]
fn empty_instance_generates_zero_commitment() {
    let ids = [0u64, 1, 2];
    let (nodes, _proposals) = make_nodes(&ids, &[], 0);
    // No proposal was handled: no proposal is complete.
    assert_eq!(nodes[0].count_complete(), 0);
    let (pks_bytes, share_bytes) = nodes[0].generate();
    let pks_bytes = pks_bytes.expect("the zero commitment encodes");
    assert_eq!(
        pks_bytes,
        bincode::serialize(&Poly::zero().commitment()).expect("serialize"),
        "an instance without complete proposals yields the zero commitment"
    );
    assert!(share_bytes.is_some(), "a validator still gets a (zero) share");
}

#[test]
fn faulty_proposer_is_flagged_and_rest_proceeds() {
    let ids = [0u64, 1, 2, 3];
    let (mut nodes, mut proposals) = make_nodes(&ids, &[], 1);
    // Corrupt the ciphertext that proposer 0 addressed to node 1.
    proposals[0].1 .1[1] = vec![0xAB; 40];
    let mut accepts: Vec<(u64, Accept)> = Vec::new();
    for (sender_id, propose) in &proposals {
        for (i, node) in nodes.iter_mut().enumerate() {
            match node.handle_propose(*sender_id, propose.clone()) {
                Some(ProposeOutcome::Valid(accept)) => accepts.push((i as u64, accept)),
                Some(ProposeOutcome::Invalid(log)) => {
                    assert_eq!((i as u64, *sender_id), (1, 0), "only node 1 sees the fault");
                    assert_eq!(log.len(), 1);
                    let fault = log.get(0);
                    assert_eq!(fault.node_id, 0);
                    assert_eq!(fault.kind, FaultKind::InvalidProposeMessage);
                }
                None => panic!("no observer in this roster"),
            }
        }
    }
    assert_eq!(accepts.len(), 15, "one accept is withheld");
    for (sender_id, accept) in &accepts {
        for node in nodes.iter_mut() {
            let log = node.handle_accept(*sender_id, accept.clone());
            assert!(log.is_empty());
        }
    }
    // Proposal 0 still gathered three acceptors (nodes 0, 2, 3): complete.
    for node in &nodes {
        assert_eq!(node.count_complete(), 4);
        assert!(node.is_ready());
    }
    check_keys(&nodes, &ids, 1);
}

#[test]
fn faulty_acceptor_is_flagged_but_still_counts() {
    let ids = [0u64, 1, 2, 3];
    let (mut nodes, proposals) = make_nodes(&ids, &[], 1);
    let mut accepts: Vec<(u64, Accept)> = Vec::new();
    for (sender_id, propose) in &proposals {
        for (i, node) in nodes.iter_mut().enumerate() {
            match node.handle_propose(*sender_id, propose.clone()) {
                Some(ProposeOutcome::Valid(accept)) => accepts.push((i as u64, accept)),
                _ => panic!("all proposals are valid"),
            }
        }
    }
    // Corrupt the value that acceptor 2 addressed to node 1, in its accept
    // of proposal 0.
    let target = accepts
        .iter()
        .position(|(sender, accept)| *sender == 2 && accept.0 == 0)
        .expect("node 2 accepts proposal 0");
    accepts[target].1 .1[1] = vec![0xCD; 40];
    for (sender_id, accept) in &accepts {
        for (i, node) in nodes.iter_mut().enumerate() {
            let log = node.handle_accept(*sender_id, accept.clone());
            if i == 1 && *sender_id == 2 && accept.0 == 0 {
                assert_eq!(log.len(), 1, "node 1 flags acceptor 2");
                let fault = log.get(0);
                assert_eq!(fault.node_id, 2);
                assert_eq!(fault.kind, FaultKind::InvalidAcceptMessage);
            } else {
                assert!(log.is_empty());
            }
        }
    }
    // The faulty acceptor still counts toward completion for node 1.
    for node in &nodes {
        assert_eq!(node.count_complete(), 4);
        assert!(node.is_node_ready(0));
    }
    check_keys(&nodes, &ids, 1);
}

#[test]
fn minimum_completion_two_proposals() {
    let ids = [0u64, 1, 2, 3];
    let (mut nodes, proposals) = make_nodes(&ids, &[], 1);
    // Only nodes 0 and 1 propose; every node accepts those two proposals.
    let kept: Vec<(u64, Propose)> = proposals.into_iter().take(2).collect();
    run_all(&mut nodes, &ids, &kept);
    for node in &nodes {
        assert_eq!(node.count_complete(), 2);
        assert!(node.is_ready());
        assert!(node.is_node_ready(0));
        assert!(node.is_node_ready(1));
        assert!(!node.is_node_ready(2));
        assert!(!node.is_node_ready(3));
    }
    check_keys(&nodes, &ids, 1);
}

#[test]
fn replay_gives_identical_bytes() {
    let ids = [0u64, 1, 2];
    let sks: Vec<SecretKey> = ids.iter().map(|_| SecretKey::random()).collect();
    let roster: Vec<(u64, PublicKey)> = ids
        .iter()
        .zip(&sks)
        .map(|(&id, sk)| (id, sk.public_key()))
        .collect();
    let mut nodes = Vec::new();
    let mut proposals = Vec::new();
    for (i, &id) in ids.iter().enumerate() {
        let (node, propose) = SyncKeyGen::new(id, sks[i].clone(), roster.clone(), 0);
        nodes.push(node);
        proposals.push((id, propose.unwrap()));
    }
    // A second instance for node 0, fed the identical message sequence.
    let (mut replica, _) = SyncKeyGen::new(0, sks[0].clone(), roster.clone(), 0);
    let mut accepts = Vec::new();
    for (sender_id, propose) in &proposals {
        for (i, node) in nodes.iter_mut().enumerate() {
            if let Some(ProposeOutcome::Valid(accept)) =
                node.handle_propose(*sender_id, propose.clone())
            {
                accepts.push((i as u64, accept));
            }
        }
        replica.handle_propose(*sender_id, propose.clone());
    }
    for (sender_id, accept) in &accepts {
        for node in nodes.iter_mut() {
            node.handle_accept(*sender_id, accept.clone());
        }
        replica.handle_accept(*sender_id, accept.clone());
    }
    let (pks_a, share_a) = nodes[0].generate();
    let (pks_b, share_b) = replica.generate();
    assert_eq!(pks_a, pks_b, "identical public key set bytes");
    assert_eq!(share_a, share_b, "identical secret share bytes");
}

#[test]
fn duplicate_propose_is_ignored() {
    let ids = [0u64, 1, 2, 3];
    let (mut nodes, proposals) = make_nodes(&ids, &[], 1);
    run_all(&mut nodes, &ids, &proposals);
    let before = nodes[1].generate();
    // A second proposal from node 0 is silently dropped.
    let another = Propose(proposals[1].1 .0.clone(), proposals[1].1 .1.clone());
    assert!(nodes[1].handle_propose(0, another).is_none());
    assert_eq!(nodes[1].count_complete(), 4);
    let after = nodes[1].generate();
    assert_eq!(before, after, "state unchanged by the duplicate");
}

#[test]
fn duplicate_accept_is_flagged_and_ignored() {
    let ids = [0u64, 1, 2, 3];
    let (mut nodes, proposals) = make_nodes(&ids, &[], 1);
    let mut accepts: Vec<(u64, Accept)> = Vec::new();
    for (sender_id, propose) in &proposals {
        for (i, node) in nodes.iter_mut().enumerate() {
            if let Some(ProposeOutcome::Valid(accept)) =
                node.handle_propose(*sender_id, propose.clone())
            {
                accepts.push((i as u64, accept));
            }
        }
    }
    let (sender_id, accept) = (accepts[0].0, accepts[0].1.clone());
    let first = nodes[2].handle_accept(sender_id, accept.clone());
    assert!(first.is_empty());
    let before = nodes[2].generate();
    let count_before = nodes[2].count_complete();
    let second = nodes[2].handle_accept(sender_id, accept);
    assert_eq!(second.len(), 1, "the duplicate acceptor is flagged");
    let fault = second.get(0);
    assert_eq!(fault.node_id, sender_id);
    assert_eq!(fault.kind, FaultKind::InvalidAcceptMessage);
    assert_eq!(nodes[2].count_complete(), count_before);
    assert_eq!(nodes[2].generate(), before, "state unchanged by the duplicate");
}

#[test]
fn unknown_sender_is_ignored() {
    let ids = [0u64, 1, 2, 3];
    let (mut nodes, proposals) = make_nodes(&ids, &[], 1);
    let before = nodes[0].generate();
    let propose = proposals[0].1.clone();
    assert!(nodes[0].handle_propose(77, propose).is_none());
    let accept = Accept(0, vec![vec![1u8; 8]; 4]);
    let log = nodes[0].handle_accept(77, accept);
    assert!(log.is_empty(), "unknown senders are silently dropped");
    assert_eq!(nodes[0].generate(), before);
}

#[test]
fn accept_with_wrong_value_count_is_a_fault() {
    let ids = [0u64, 1, 2, 3];
    let (mut nodes, proposals) = make_nodes(&ids, &[], 1);
    let propose = proposals[0].1.clone();
    nodes[1].handle_propose(0, propose);
    let accept = Accept(0, vec![vec![1u8; 8]; 3]);
    let log = nodes[1].handle_accept(2, accept);
    assert_eq!(log.len(), 1);
    assert_eq!(log.get(0).node_id, 2);
    assert_eq!(log.get(0).kind, FaultKind::InvalidAcceptMessage);
}

#[test]
fn accept_for_unknown_proposal_is_a_fault() {
    let ids = [0u64, 1, 2, 3];
    let (mut nodes, _proposals) = make_nodes(&ids, &[], 1);
    // No proposal has been handled yet, and index 9 is out of range.
    for proposer in [0u64, 9] {
        let accept = Accept(proposer, vec![vec![1u8; 8]; 4]);
        let log = nodes[3].handle_accept(1, accept);
        assert_eq!(log.len(), 1);
        assert_eq!(log.get(0).node_id, 1);
        assert_eq!(log.get(0).kind, FaultKind::InvalidAcceptMessage);
    }
}

#[test]
fn completion_count_never_decreases() {
    let ids = [0u64, 1, 2, 3];
    let (mut nodes, proposals) = make_nodes(&ids, &[], 1);
    let mut accepts: Vec<(u64, Accept)> = Vec::new();
    for (sender_id, propose) in &proposals {
        for (i, node) in nodes.iter_mut().enumerate() {
            if let Some(ProposeOutcome::Valid(accept)) =
                node.handle_propose(*sender_id, propose.clone())
            {
                accepts.push((i as u64, accept));
            }
        }
    }
    let mut last: usize = nodes[0].count_complete();
    for (sender_id, accept) in &accepts {
        nodes[0].handle_accept(*sender_id, accept.clone());
        let now = nodes[0].count_complete();
        assert!(now >= last, "count_complete is non-decreasing");
        last = now;
    }
    assert_eq!(last, 4);
}
