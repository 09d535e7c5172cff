use consensus_simulation::node::NodeState;
use consensus_simulation::types::{Block, Command, Message, NodeId, QuorumCertificate, Vote};

// A 4-node cluster (f=1, quorum=3).
fn make_node(id: u64) -> NodeState {
    NodeState::new(NodeId(id), 4)
}

#[test]
fn replica_votes_on_valid_proposal() {
    let mut node = make_node(2); // node 2, not the leader at height 0

    // Leader at height 0 is node 1 (0 % 4 + 1 = 1).
    let block = Block {
        height: 0,
        parent_hash: [0u8; 32],
        proposer: NodeId(1),
        payload: "block-0".to_string(),
    };

    let cmds = node.handle(&Message::Proposal(block.clone()));

    // Should produce exactly one SendTo(leader, VoteMsg).
    assert_eq!(cmds.len(), 1);
    match &cmds[0] {
        Command::SendTo {
            to,
            msg: Message::VoteMsg(v),
        } => {
            assert_eq!(*to, NodeId(1)); // sent to leader
            assert_eq!(v.voter, NodeId(2)); // voter is us
            assert_eq!(v.height, 0);
            assert_eq!(v.block_hash, block.block_hash());
        }
        other => panic!("unexpected command: {:?}", other),
    }
}

#[test]
fn no_double_vote_at_same_height() {
    let mut node = make_node(2);

    let block = Block {
        height: 0,
        parent_hash: [0u8; 32],
        proposer: NodeId(1),
        payload: "block-0".to_string(),
    };

    // First proposal — should vote.
    let cmds1 = node.handle(&Message::Proposal(block.clone()));
    assert_eq!(cmds1.len(), 1);

    // Same height again (e.g. equivocating leader) — must not vote.
    let cmds2 = node.handle(&Message::Proposal(block.clone()));
    assert!(cmds2.is_empty(), "must not double-vote at same height");
}

#[test]
fn leader_forms_qc_and_commits_on_quorum() {
    let mut leader = make_node(1); // leader at height 0

    // Leader proposes genesis.
    let propose_cmds = leader.propose();
    assert_eq!(propose_cmds.len(), 1);

    // Extract the proposed block from the Broadcast command.
    let block = match &propose_cmds[0] {
        Command::Broadcast(Message::Proposal(b)) => b.clone(),
        other => panic!("expected Broadcast(Proposal), got {:?}", other),
    };

    let hash = block.block_hash();

    // Send 2 votes — below quorum (need 3 of 4).
    for voter_id in [2u64, 3u64] {
        let cmds = leader.handle(&Message::VoteMsg(Vote {
            block_hash: hash,
            voter: NodeId(voter_id),
            height: 0,
        }));
        assert!(
            cmds.is_empty(),
            "should not commit yet at {} votes",
            voter_id - 1
        );
    }

    // 3rd vote reaches quorum.
    let cmds = leader.handle(&Message::VoteMsg(Vote {
        block_hash: hash,
        voter: NodeId(4),
        height: 0,
    }));

    assert!(
        cmds.iter().any(|c| matches!(c, Command::Commit(_))),
        "expected Commit in {:?}",
        cmds
    );

    assert_eq!(leader.height, 1, "height should advance after QC");
    assert!(leader.locked_qc.is_some(), "locked_qc should be set");
}

#[test]
fn replica_rejects_proposal_not_extending_locked_qc() {
    let mut node = make_node(2);

    // Simulate node having a locked QC at height 0 for some block hash.
    let fake_hash = [0xaau8; 32];
    node.locked_qc = Some(QuorumCertificate {
        block_hash: fake_hash,
        height: 0,
        votes: vec![],
    });
    node.height = 1;

    // Proposal with a different parent_hash — should be rejected.
    let bad_block = Block {
        height: 1,
        parent_hash: [0xbbu8; 32], // does not match locked_qc.block_hash
        proposer: NodeId(2),       // leader at height 1
        payload: "fork-attempt".to_string(),
    };

    let cmds = node.handle(&Message::Proposal(bad_block));
    assert!(
        cmds.is_empty(),
        "should reject proposal that doesn't extend locked QC"
    );
}
