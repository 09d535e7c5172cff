use crate::text::decimal;
use crate::types::{block_hash_of, BlockView, CommandView, MessageView, QcView, VoteView};
use vstd::prelude::*;

verus! {

/// The abstract state of one node.
#[verifier::ext_equal]
pub struct NodeStateView {
    pub id: u64,
    pub n_nodes: nat,
    pub height: u64,
    pub voted_heights: Set<u64>,
    /// Votes collected so far, per block hash.
    pub pending_votes: Map<Seq<u8>, Seq<VoteView>>,
    /// Blocks this node proposed, per block hash.
    pub pending_blocks: Map<Seq<u8>, BlockView>,
    pub locked_qc: Option<QcView>,
}

/// The largest number of faulty nodes tolerated among `n`: floor((n-1)/3).
pub open spec fn max_faults(n: nat) -> nat {
    ((n - 1) as nat) / 3
}

/// Votes needed for a certificate among `n` nodes: 2f+1.
pub open spec fn quorum_of(n: nat) -> nat {
    2 * max_faults(n) + 1
}

/// Leaders rotate round-robin: the leader at height `h` is node `h mod n + 1`.
pub open spec fn leader_of(n: nat, h: u64) -> u64 {
    ((h as nat) % n + 1) as u64
}

/// The all-zero hash that stands for "no parent".
pub open spec fn zero_hash() -> Seq<u8> {
    Seq::new(32, |i: int| 0u8)
}

/// The payload of the block proposed at height `h`: "block-" and `h` in decimal.
pub open spec fn payload_for(h: u64) -> Seq<char> {
    "block-"@ + decimal(h as nat)
}

/// The block that a node proposes in state `s`: at its height, on top of its
/// locked certificate (or of the zero hash).
pub open spec fn proposal_block(s: NodeStateView) -> BlockView {
    BlockView {
        height: s.height,
        parent_hash: match s.locked_qc {
            Some(qc) => qc.block_hash,
            None => zero_hash(),
        },
        proposer: s.id,
        payload: payload_for(s.height),
    }
}

/// Proposing: remember the block under its hash and broadcast it.
pub open spec fn propose_step(s: NodeStateView) -> (NodeStateView, Seq<CommandView>) {
    let b = proposal_block(s);
    (
        NodeStateView { pending_blocks: s.pending_blocks.insert(block_hash_of(b), b), ..s },
        seq![CommandView::Broadcast(MessageView::Proposal(b))],
    )
}

/// A proposal is voted for when it is not stale, nothing was voted at its
/// height yet, and it extends the locked certificate (if any).
pub open spec fn accepts_proposal(s: NodeStateView, b: BlockView) -> bool {
    &&& s.height <= b.height
    &&& !s.voted_heights.contains(b.height)
    &&& (s.locked_qc matches Some(qc) ==> b.parent_hash == qc.block_hash)
}

/// The vote that a node casts for block `b`.
pub open spec fn vote_for(s: NodeStateView, b: BlockView) -> VoteView {
    VoteView { block_hash: block_hash_of(b), voter: s.id, height: b.height }
}

pub open spec fn proposal_step(s: NodeStateView, b: BlockView) -> (NodeStateView, Seq<CommandView>) {
    if accepts_proposal(s, b) {
        (
            NodeStateView { voted_heights: s.voted_heights.insert(b.height), ..s },
            seq![
                CommandView::SendTo {
                    to: leader_of(s.n_nodes, b.height),
                    msg: MessageView::VoteMsg(vote_for(s, b)),
                },
            ],
        )
    } else {
        (s, seq![])
    }
}

/// The votes for `h` collected so far.
pub open spec fn tally(s: NodeStateView, h: Seq<u8>) -> Seq<VoteView> {
    if s.pending_votes.contains_key(h) {
        s.pending_votes[h]
    } else {
        seq![]
    }
}

/// Whether the node collects this vote: it leads the vote's height.
pub open spec fn collects(s: NodeStateView, v: VoteView) -> bool {
    s.id == leader_of(s.n_nodes, v.height)
}

/// Whether a vote of `voter` is among `votes`.
pub open spec fn has_voter(votes: Seq<VoteView>, voter: u64) -> bool {
    exists|i: int| 0 <= i < votes.len() && #[trigger] votes[i].voter == voter
}

/// Whether the node counts this vote: it collects it, and the voter is not
/// counted yet for that block (each node counts once).
pub open spec fn counts(s: NodeStateView, v: VoteView) -> bool {
    collects(s, v) && !has_voter(tally(s, v.block_hash), v.voter)
}

/// Whether this vote completes a quorum at its leader.
pub open spec fn completes_quorum(s: NodeStateView, v: VoteView) -> bool {
    counts(s, v) && tally(s, v.block_hash).len() + 1 >= quorum_of(s.n_nodes)
}

/// The certificate formed by vote `v` completing a quorum.
pub open spec fn certificate(s: NodeStateView, v: VoteView) -> QcView {
    QcView { block_hash: v.block_hash, height: v.height, votes: tally(s, v.block_hash).push(v) }
}

/// Commit the block if this node proposed it, then announce the certificate.
pub open spec fn announce(s: NodeStateView, qc: QcView) -> Seq<CommandView> {
    let commit = if s.pending_blocks.contains_key(qc.block_hash) {
        seq![CommandView::Commit(s.pending_blocks[qc.block_hash])]
    } else {
        seq![]
    };
    commit.push(CommandView::Broadcast(MessageView::NewQC(qc)))
}

/// After a certificate moved the node to a new height: propose if it leads it.
pub open spec fn propose_if_leader(s: NodeStateView) -> (NodeStateView, Seq<CommandView>) {
    if s.id == leader_of(s.n_nodes, s.height) {
        propose_step(s)
    } else {
        (s, seq![])
    }
}

/// A vote is counted at the leader of its height, once per voter and block.
/// The vote that completes a quorum forms a certificate: commit and announce,
/// and adopt the certificate where it is newer than the lock.
pub open spec fn vote_step(s: NodeStateView, v: VoteView) -> (NodeStateView, Seq<CommandView>) {
    if !counts(s, v) {
        (s, seq![])
    } else if !completes_quorum(s, v) {
        (
            NodeStateView {
                pending_votes: s.pending_votes.insert(v.block_hash, tally(s, v.block_hash).push(v)),
                ..s
            },
            seq![],
        )
    } else {
        let qc = certificate(s, v);
        let s1 = NodeStateView { pending_votes: s.pending_votes.remove(v.block_hash), ..s };
        if supersedes_lock(s, qc) {
            let next = adopt(s1, qc);
            (next.0, announce(s, qc) + next.1)
        } else {
            (s1, announce(s, qc))
        }
    }
}

/// Adopting a certificate: lock on it, move to the height after it, and
/// propose if this node leads that height.
pub open spec fn adopt(s: NodeStateView, qc: QcView) -> (NodeStateView, Seq<CommandView>) {
    propose_if_leader(NodeStateView { locked_qc: Some(qc), height: (qc.height + 1) as u64, ..s })
}

/// A timeout only moves the node to the next height.
pub open spec fn timeout_step(s: NodeStateView) -> (NodeStateView, Seq<CommandView>) {
    (NodeStateView { height: (s.height + 1) as u64, ..s }, seq![])
}

/// Whether a certificate is newer than the node's lock (any certificate is,
/// where the node holds none).
pub open spec fn supersedes_lock(s: NodeStateView, qc: QcView) -> bool {
    match s.locked_qc {
        Some(lock) => lock.height < qc.height,
        None => true,
    }
}

/// A certificate newer than the lock is adopted, whatever the node's height.
/// Certificates not newer than the lock are ignored, so the lock is always the
/// highest certificate seen.
pub open spec fn new_qc_step(s: NodeStateView, qc: QcView) -> (NodeStateView, Seq<CommandView>) {
    if !supersedes_lock(s, qc) {
        (s, seq![])
    } else {
        adopt(s, qc)
    }
}

/// The transition of a node on one message: the next state and the commands.
pub open spec fn handle_step(s: NodeStateView, m: MessageView) -> (NodeStateView, Seq<CommandView>) {
    match m {
        MessageView::Proposal(b) => proposal_step(s, b),
        MessageView::VoteMsg(v) => vote_step(s, v),
        MessageView::Timeout(_) => timeout_step(s),
        MessageView::NewQC(qc) => new_qc_step(s, qc),
    }
}

/// What can happen to a node: a message is delivered to it, or it is asked to
/// propose (as `NodeState::handle` and `NodeState::propose`).
pub enum NodeEvent {
    Deliver(MessageView),
    Propose,
}

/// The transition of a node on one event.
pub open spec fn event_step(s: NodeStateView, e: NodeEvent) -> (NodeStateView, Seq<CommandView>) {
    match e {
        NodeEvent::Deliver(m) => handle_step(s, m),
        NodeEvent::Propose => propose_step(s),
    }
}

/// The inputs on which handling a message stays defined: leaders and quorums
/// need a non-empty cluster, and a height never passes `u64::MAX`.
pub open spec fn can_handle(s: NodeStateView, m: MessageView) -> bool {
    match m {
        MessageView::Proposal(b) => accepts_proposal(s, b) ==> s.n_nodes > 0,
        MessageView::VoteMsg(v) => s.n_nodes > 0 && (completes_quorum(s, v) && supersedes_lock(
            s,
            certificate(s, v),
        ) ==> v.height < u64::MAX),
        MessageView::Timeout(_) => s.height < u64::MAX,
        MessageView::NewQC(qc) => supersedes_lock(s, qc) ==> (s.n_nodes > 0 && qc.height < u64::MAX),
    }
}

} // verus!
