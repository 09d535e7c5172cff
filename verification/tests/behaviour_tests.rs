use consensus_simulation::bus::fan_out;
use consensus_simulation::node::NodeState;
use consensus_simulation::runner::{cluster_ids, SimulationRunner};
use consensus_simulation::text::u64_to_decimal;
use consensus_simulation::transformer::{DropTransformer, PassthruTransformer, Transformer};
use consensus_simulation::types::{
    Block, Command, Envelope, Message, NodeId, QuorumCertificate, TimeoutMsg, Vote,
};

fn hex(bytes: &[u8]) -> String {
    bytes.iter().map(|b| format!("{:02x}", b)).collect()
}

fn vote(hash: [u8; 32], voter: u64, height: u64) -> Message {
    Message::VoteMsg(Vote {
        block_hash: hash,
        voter: NodeId(voter),
        height,
    })
}

fn timeout(height: u64) -> Message {
    Message::Timeout(TimeoutMsg {
        height,
        sender: NodeId(3),
        last_voted_block_hash: None,
    })
}

fn proposed_block(cmds: &[Command]) -> Block {
    match &cmds[0] {
        Command::Broadcast(Message::Proposal(b)) => b.clone(),
        other => panic!("expected a proposal, got {:?}", other),
    }
}

#[test]
fn leaders_rotate_round_robin() {
    let node = NodeState::new(NodeId(1), 4);
    assert_eq!(node.leader_for_height(0), NodeId(1));
    assert_eq!(node.leader_for_height(1), NodeId(2));
    assert_eq!(node.leader_for_height(3), NodeId(4));
    assert_eq!(node.leader_for_height(4), NodeId(1));
    assert_eq!(node.leader_for_height(u64::MAX), NodeId(4));
}

#[test]
fn block_hash_is_sha256_of_fields() {
    let b = Block {
        height: 0,
        parent_hash: [0u8; 32],
        proposer: NodeId(1),
        payload: "block-0".to_string(),
    };
    assert_eq!(
        hex(&b.block_hash()),
        "913d3d36b9ed1ef4d1ef2851259833cc00e6f92f1ec72b19c31a272498882d5e"
    );
    let c = Block {
        height: 12,
        parent_hash: [0xab; 32],
        proposer: NodeId(3),
        payload: "héllo".to_string(),
    };
    assert_eq!(
        hex(&c.block_hash()),
        "1bbcf3b36b654f1f56115b4952ff4722e1da2bd68a8c841be1443fa66997ea79"
    );
}

#[test]
fn hash_input_layout() {
    let c = Block {
        height: 0x0102,
        parent_hash: [7u8; 32],
        proposer: NodeId(5),
        payload: "é".to_string(),
    };
    let bytes = c.hash_input();
    let mut expected = vec![0x02, 0x01, 0, 0, 0, 0, 0, 0];
    expected.extend_from_slice(&[7u8; 32]);
    expected.extend_from_slice(&[5, 0, 0, 0, 0, 0, 0, 0]);
    expected.extend_from_slice(&[0xc3, 0xa9]);
    assert_eq!(bytes, expected);
}

#[test]
fn proposal_payload_names_height() {
    let mut node = NodeState::new(NodeId(1), 4);
    for h in 0..12u64 {
        node.handle(&timeout(h));
    }
    assert_eq!(node.height, 12);
    let b = proposed_block(&node.propose());
    assert_eq!(b.payload, "block-12");
    assert_eq!(b.height, 12);
    assert_eq!(b.parent_hash, [0u8; 32]);
    assert_eq!(b.proposer, NodeId(1));
}

#[test]
fn proposal_extends_locked_qc() {
    let mut node = NodeState::new(NodeId(3), 4);
    node.locked_qc = Some(QuorumCertificate {
        block_hash: [9u8; 32],
        height: 4,
        votes: vec![],
    });
    let b = proposed_block(&node.propose());
    assert_eq!(b.parent_hash, [9u8; 32]);
    assert_eq!(b.payload, "block-0");
}

#[test]
fn stale_proposal_is_ignored() {
    let mut node = NodeState::new(NodeId(2), 4);
    node.height = 5;
    let b = Block {
        height: 4,
        parent_hash: [0u8; 32],
        proposer: NodeId(1),
        payload: "old".to_string(),
    };
    assert!(node.handle(&Message::Proposal(b)).is_empty());
}

#[test]
fn replica_votes_when_proposal_extends_lock() {
    let mut node = NodeState::new(NodeId(3), 4);
    node.locked_qc = Some(QuorumCertificate {
        block_hash: [0xaa; 32],
        height: 0,
        votes: vec![],
    });
    node.height = 1;
    let b = Block {
        height: 1,
        parent_hash: [0xaa; 32],
        proposer: NodeId(2),
        payload: "block-1".to_string(),
    };
    let cmds = node.handle(&Message::Proposal(b.clone()));
    assert_eq!(cmds.len(), 1);
    match &cmds[0] {
        Command::SendTo {
            to,
            msg: Message::VoteMsg(v),
        } => {
            assert_eq!(*to, NodeId(2));
            assert_eq!(v.block_hash, b.block_hash());
            assert_eq!(v.voter, NodeId(3));
            assert_eq!(v.height, 1);
        }
        other => panic!("unexpected command: {:?}", other),
    }
}

#[test]
fn votes_at_other_heights_still_allowed() {
    let mut node = NodeState::new(NodeId(2), 4);
    for h in 0..3u64 {
        let b = Block {
            height: h,
            parent_hash: [0u8; 32],
            proposer: NodeId(1),
            payload: format!("b{}", h),
        };
        assert_eq!(node.handle(&Message::Proposal(b.clone())).len(), 1);
        assert!(node.handle(&Message::Proposal(b)).is_empty());
    }
}

#[test]
fn non_leader_ignores_votes() {
    let mut node = NodeState::new(NodeId(3), 4);
    for v in 1..=4u64 {
        assert!(node.handle(&vote([1u8; 32], v, 0)).is_empty());
    }
    assert_eq!(node.height, 0);
    assert!(node.locked_qc.is_none());
}

#[test]
fn quorum_commits_and_announces_certificate() {
    let mut leader = NodeState::new(NodeId(1), 4);
    let block = proposed_block(&leader.propose());
    let hash = block.block_hash();
    assert!(leader.handle(&vote(hash, 1, 0)).is_empty());
    assert!(leader.handle(&vote(hash, 2, 0)).is_empty());
    let cmds = leader.handle(&vote(hash, 3, 0));
    assert_eq!(cmds.len(), 2);
    match &cmds[0] {
        Command::Commit(b) => {
            assert_eq!(b.block_hash(), hash);
            assert_eq!(b.payload, "block-0");
        }
        other => panic!("expected Commit, got {:?}", other),
    }
    match &cmds[1] {
        Command::Broadcast(Message::NewQC(qc)) => {
            assert_eq!(qc.block_hash, hash);
            assert_eq!(qc.height, 0);
            assert_eq!(qc.votes.len(), 3);
        }
        other => panic!("expected NewQC, got {:?}", other),
    }
    let qc = leader.locked_qc.as_ref().unwrap();
    assert_eq!(qc.block_hash, hash);
    assert_eq!(qc.votes.len(), 3);
    assert_eq!(leader.height, 1);
}

#[test]
fn late_vote_forms_no_second_certificate() {
    let mut leader = NodeState::new(NodeId(1), 4);
    let block = proposed_block(&leader.propose());
    let hash = block.block_hash();
    for v in 1..=3u64 {
        leader.handle(&vote(hash, v, 0));
    }
    assert_eq!(leader.height, 1);
    assert!(leader.handle(&vote(hash, 4, 0)).is_empty());
    assert_eq!(leader.height, 1);
}

#[test]
fn certificate_without_own_block_has_no_commit() {
    let mut leader = NodeState::new(NodeId(1), 4);
    let hash = [5u8; 32];
    leader.handle(&vote(hash, 2, 4));
    leader.handle(&vote(hash, 3, 4));
    let cmds = leader.handle(&vote(hash, 4, 4));
    assert_eq!(cmds.len(), 1);
    assert!(matches!(&cmds[0], Command::Broadcast(Message::NewQC(_))));
    assert_eq!(leader.height, 5);
}

#[test]
fn leader_of_next_height_proposes_right_away() {
    // With a single node, f=0 and the quorum is 1; the node leads every height.
    let mut node = NodeState::new(NodeId(1), 1);
    let b0 = proposed_block(&node.propose());
    let h0 = b0.block_hash();
    let cmds = node.handle(&vote(h0, 1, 0));
    assert_eq!(cmds.len(), 3);
    assert!(matches!(&cmds[0], Command::Commit(_)));
    assert!(matches!(&cmds[1], Command::Broadcast(Message::NewQC(_))));
    let b1 = proposed_block(&cmds[2..]);
    assert_eq!(b1.height, 1);
    assert_eq!(b1.parent_hash, h0);
    assert_eq!(b1.payload, "block-1");
}

#[test]
fn quorum_of_seven_is_five() {
    let mut leader = NodeState::new(NodeId(1), 7);
    let block = proposed_block(&leader.propose());
    let hash = block.block_hash();
    for v in 1..=4u64 {
        assert!(leader.handle(&vote(hash, v, 0)).is_empty());
    }
    let cmds = leader.handle(&vote(hash, 5, 0));
    assert!(matches!(&cmds[0], Command::Commit(_)));
}

#[test]
fn new_qc_is_adopted_and_next_leader_proposes() {
    let mut node = NodeState::new(NodeId(2), 4);
    let qc = QuorumCertificate {
        block_hash: [3u8; 32],
        height: 0,
        votes: vec![],
    };
    let cmds = node.handle(&Message::NewQC(qc));
    assert_eq!(node.height, 1);
    assert_eq!(node.locked_qc.as_ref().unwrap().block_hash, [3u8; 32]);
    let b = proposed_block(&cmds);
    assert_eq!(b.height, 1);
    assert_eq!(b.parent_hash, [3u8; 32]);
    assert_eq!(b.proposer, NodeId(2));
}

#[test]
fn new_qc_at_other_node_only_locks() {
    let mut node = NodeState::new(NodeId(4), 4);
    let qc = QuorumCertificate {
        block_hash: [3u8; 32],
        height: 0,
        votes: vec![],
    };
    assert!(node.handle(&Message::NewQC(qc)).is_empty());
    assert_eq!(node.height, 1);
    assert!(node.locked_qc.is_some());
}

#[test]
fn certificate_not_newer_than_lock_is_ignored() {
    let mut node = NodeState::new(NodeId(2), 4);
    node.locked_qc = Some(QuorumCertificate {
        block_hash: [8u8; 32],
        height: 2,
        votes: vec![],
    });
    node.height = 3;
    for h in [1u64, 2u64] {
        let qc = QuorumCertificate {
            block_hash: [3u8; 32],
            height: h,
            votes: vec![],
        };
        assert!(node.handle(&Message::NewQC(qc)).is_empty());
        assert_eq!(node.height, 3);
        assert_eq!(node.locked_qc.as_ref().unwrap().block_hash, [8u8; 32]);
    }
}

#[test]
fn newer_certificate_adopted_behind_node_height() {
    // Node 3 holds a lock at height 1; timeouts take it to height 5; a
    // certificate for height 3 still replaces the lock.
    let mut node = NodeState::new(NodeId(3), 4);
    node.locked_qc = Some(QuorumCertificate {
        block_hash: [1u8; 32],
        height: 1,
        votes: vec![],
    });
    node.height = 2;
    for h in 2..5u64 {
        node.handle(&timeout(h));
    }
    assert_eq!(node.height, 5);
    let qc = QuorumCertificate {
        block_hash: [3u8; 32],
        height: 3,
        votes: vec![],
    };
    let cmds = node.handle(&Message::NewQC(qc));
    let lock = node.locked_qc.as_ref().unwrap();
    assert_eq!(lock.block_hash, [3u8; 32]);
    assert_eq!(lock.height, 3);
    assert_eq!(node.height, 4);
    // The leader of height 4 is node 1, so node 3 does not propose.
    assert!(cmds.is_empty());
}

#[test]
fn newer_certificate_makes_next_leader_propose_on_it() {
    let mut node = NodeState::new(NodeId(1), 4);
    node.height = 9;
    let qc = QuorumCertificate {
        block_hash: [4u8; 32],
        height: 3,
        votes: vec![],
    };
    let b = proposed_block(&node.handle(&Message::NewQC(qc)));
    assert_eq!(b.height, 4);
    assert_eq!(b.parent_hash, [4u8; 32]);
    assert_eq!(b.payload, "block-4");
}

#[test]
fn repeated_vote_counts_once() {
    let mut leader = NodeState::new(NodeId(1), 4);
    let block = proposed_block(&leader.propose());
    let hash = block.block_hash();
    for _ in 0..3 {
        assert!(leader.handle(&vote(hash, 2, 0)).is_empty());
    }
    assert_eq!(leader.height, 0);
    assert!(leader.locked_qc.is_none());
    assert!(leader.handle(&vote(hash, 3, 0)).is_empty());
    let cmds = leader.handle(&vote(hash, 4, 0));
    assert!(matches!(&cmds[0], Command::Commit(_)));
    let qc = leader.locked_qc.as_ref().unwrap();
    let voters: Vec<u64> = qc.votes.iter().map(|v| v.voter.0).collect();
    assert_eq!(voters, vec![2, 3, 4]);
}

#[test]
fn certificate_below_lock_commits_but_keeps_lock() {
    let mut leader = NodeState::new(NodeId(1), 4);
    leader.locked_qc = Some(QuorumCertificate {
        block_hash: [6u8; 32],
        height: 7,
        votes: vec![],
    });
    leader.height = 8;
    let hash = [5u8; 32];
    leader.handle(&vote(hash, 2, 4));
    leader.handle(&vote(hash, 3, 4));
    let cmds = leader.handle(&vote(hash, 4, 4));
    assert_eq!(cmds.len(), 1);
    assert!(matches!(&cmds[0], Command::Broadcast(Message::NewQC(_))));
    assert_eq!(leader.height, 8);
    assert_eq!(leader.locked_qc.as_ref().unwrap().height, 7);
}

#[test]
fn decimal_notation() {
    assert_eq!(u64_to_decimal(0), "0");
    assert_eq!(u64_to_decimal(7), "7");
    assert_eq!(u64_to_decimal(10), "10");
    assert_eq!(u64_to_decimal(1203), "1203");
    assert_eq!(u64_to_decimal(u64::MAX), u64::MAX.to_string());
}

#[test]
fn timeout_advances_height() {
    let mut node = NodeState::new(NodeId(2), 4);
    assert!(node.handle(&timeout(0)).is_empty());
    assert!(node.handle(&timeout(0)).is_empty());
    assert_eq!(node.height, 2);
}

#[test]
fn transformers() {
    let env = Envelope {
        from: NodeId(4),
        to: NodeId(1),
        msg: timeout(0),
    };
    assert!(PassthruTransformer.transform(env.clone()).is_some());
    let drop4 = DropTransformer {
        drop_from: NodeId(4),
    };
    assert!(drop4.transform(env.clone()).is_none());
    let drop3 = DropTransformer {
        drop_from: NodeId(3),
    };
    let kept = drop3.transform(env).unwrap();
    assert_eq!(kept.from, NodeId(4));
    assert_eq!(kept.to, NodeId(1));
}

#[test]
fn broadcast_fans_out_to_each_node() {
    let ids = cluster_ids(4);
    assert_eq!(ids, vec![NodeId(1), NodeId(2), NodeId(3), NodeId(4)]);
    let envs = fan_out(NodeId(2), &timeout(7), &ids);
    assert_eq!(envs.len(), 4);
    for (i, e) in envs.iter().enumerate() {
        assert_eq!(e.from, NodeId(2));
        assert_eq!(e.to, NodeId(i as u64 + 1));
        match &e.msg {
            Message::Timeout(t) => assert_eq!(t.height, 7),
            other => panic!("unexpected message {:?}", other),
        }
    }
}

#[test]
fn runner_keeps_cluster_size() {
    let r = SimulationRunner::new(4, PassthruTransformer);
    assert_eq!(r.n_nodes(), 4);
}

#[test]
fn runner_hands_back_its_transformer() {
    let r = SimulationRunner::new(
        5,
        DropTransformer {
            drop_from: NodeId(3),
        },
    );
    assert_eq!(r.n_nodes(), 5);
    let t = r.into_transformer();
    assert_eq!(t.drop_from, NodeId(3));
}

#[test]
fn can_handle_marks_overflow_and_empty_cluster() {
    let mut node = NodeState::new(NodeId(1), 4);
    assert!(node.can_handle(&timeout(0)));
    node.height = u64::MAX;
    assert!(!node.can_handle(&timeout(0)));

    let mut leader = NodeState::new(NodeId(4), 4);
    let top = u64::MAX; // u64::MAX % 4 + 1 == 4: node 4 leads it
    assert!(leader.can_handle(&vote([1u8; 32], 1, top)));
    leader.handle(&vote([1u8; 32], 1, 1)); // led by node 2: ignored
    let h = [2u8; 32];
    assert!(leader.can_handle(&vote(h, 1, top)));
    // Two votes collected at a lower height for the same hash.
    let mut l2 = NodeState::new(NodeId(1), 4);
    l2.handle(&vote(h, 2, 0));
    l2.handle(&vote(h, 3, 0));
    // A third, distinct vote would complete the quorum; at u64::MAX the next
    // height would overflow, where the leader of u64::MAX is node 4, not 1.
    assert!(l2.can_handle(&vote(h, 4, top)));
    let mut l4 = NodeState::new(NodeId(4), 4);
    l4.handle(&vote(h, 2, top - 4));
    l4.handle(&vote(h, 3, top - 4));
    assert!(!l4.can_handle(&vote(h, 1, top)));
    assert!(l4.can_handle(&vote(h, 2, top)));

    let empty = NodeState::new(NodeId(1), 0);
    assert!(!empty.can_handle(&vote(h, 1, 0)));
    assert!(empty.can_handle(&timeout(0)));
}
