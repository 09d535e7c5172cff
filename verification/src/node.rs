use std::collections::HashSet;

use crate::keyed::{
    has_key, keys_unique, lemma_entry, lemma_push, lemma_remove, lemma_update, to_map,
};
use crate::model::{
    announce, can_handle, certificate, handle_step, has_voter, leader_of, new_qc_step,
    proposal_block, proposal_step, propose_step, quorum_of, supersedes_lock, tally, timeout_step,
    vote_step, NodeStateView,
};
use crate::safety::{
    lemma_handle_keeps_inv, lemma_initial_inv, lemma_propose_keeps_inv, node_inv,
};
use crate::text::u64_to_decimal;
use crate::types::{
    commands_view, votes_view, Block, BlockView, Command, Message, MessageView, NodeId,
    QuorumCertificate, TimeoutMsg, Vote, VoteView,
};
use vstd::prelude::*;
use vstd::string::StringExecFns;

verus! {

broadcast use vstd::std_specs::hash::group_hash_axioms;

/// The votes collected for one block hash.
pub struct VoteTally {
    pub block_hash: [u8; 32],
    pub votes: Vec<Vote>,
}

/// A block this node proposed, kept under its hash until it commits.
pub struct PendingBlock {
    pub block_hash: [u8; 32],
    pub block: Block,
}

/// The tallies as key/value pairs.
pub open spec fn tally_entries(s: Seq<VoteTally>) -> Seq<(Seq<u8>, Seq<VoteView>)> {
    s.map_values(|t: VoteTally| (t.block_hash@, votes_view(t.votes@)))
}

/// The pending blocks as key/value pairs.
pub open spec fn block_entries(s: Seq<PendingBlock>) -> Seq<(Seq<u8>, BlockView)> {
    s.map_values(|p: PendingBlock| (p.block_hash@, p.block@))
}

/// One node of the cluster: a pure state machine from messages to commands.
///
/// All fields are public so that verified callers can read them; the view
/// maps each to its abstract value, and `wf` constrains only the two lists.
pub struct NodeState {
    pub id: NodeId,
    pub n_nodes: usize,
    pub height: u64,
    pub voted_heights: HashSet<u64>,
    pub pending_votes: Vec<VoteTally>,
    pub pending_blocks: Vec<PendingBlock>,
    pub locked_qc: Option<QuorumCertificate>,
}

impl View for NodeState {
    type V = NodeStateView;

    open spec fn view(&self) -> NodeStateView {
        NodeStateView {
            id: self.id.0,
            n_nodes: self.n_nodes as nat,
            height: self.height,
            voted_heights: self.voted_heights@,
            pending_votes: to_map(tally_entries(self.pending_votes@)),
            pending_blocks: to_map(block_entries(self.pending_blocks@)),
            locked_qc: match self.locked_qc {
                Some(qc) => Some(qc@),
                None => None,
            },
        }
    }
}

/// Whether a vote of `voter` is among `votes`.
fn voted_already(votes: &Vec<Vote>, voter: NodeId) -> (r: bool)
    ensures
        r == has_voter(votes_view(votes@), voter.0),
{
    let n = votes.len();
    for i in 0..n
        invariant
            n == votes@.len(),
            forall|j: int| 0 <= j < i ==> votes@[j].voter.0 != voter.0,
    {
        if votes[i].voter.0 == voter.0 {
            assert(votes_view(votes@)[i as int].voter == voter.0);
            return true;
        }
    }
    assert(!has_voter(votes_view(votes@), voter.0)) by {
        if has_voter(votes_view(votes@), voter.0) {
            let j = choose|j: int| 0 <= j < votes@.len() && #[trigger] votes_view(votes@)[j].voter == voter.0;
            assert(votes@[j].voter.0 != voter.0);
        }
    }
    false
}

/// Whether two hashes hold the same bytes.
fn hash_eq(a: &[u8; 32], b: &[u8; 32]) -> (r: bool)
    ensures
        r == (a@ == b@),
{
    let mut i: usize = 0;
    while i < 32
        invariant
            i <= 32,
            a@.len() == 32,
            b@.len() == 32,
            forall|j: int| 0 <= j < i ==> a@[j] == b@[j],
        decreases 32 - i,
    {
        if a[i] != b[i] {
            return false;
        }
        i = i + 1;
    }
    assert(a@ =~= b@);
    true
}

fn find_tally(v: &Vec<VoteTally>, h: &[u8; 32]) -> (r: Option<usize>)
    ensures
        match r {
            Some(i) => i < v@.len() && v@[i as int].block_hash@ == h@,
            None => !has_key(tally_entries(v@), h@),
        },
{
    let n = v.len();
    for i in 0..n
        invariant
            n == v@.len(),
            forall|j: int| 0 <= j < i ==> v@[j].block_hash@ != h@,
    {
        if hash_eq(&v[i].block_hash, h) {
            return Some(i);
        }
    }
    assert(!has_key(tally_entries(v@), h@)) by {
        if has_key(tally_entries(v@), h@) {
            let j = choose|j: int| 0 <= j < v@.len() && #[trigger] tally_entries(v@)[j].0 == h@;
            assert(v@[j].block_hash@ != h@);
        }
    }
    None
}

fn find_block(v: &Vec<PendingBlock>, h: &[u8; 32]) -> (r: Option<usize>)
    ensures
        match r {
            Some(i) => i < v@.len() && v@[i as int].block_hash@ == h@,
            None => !has_key(block_entries(v@), h@),
        },
{
    let n = v.len();
    for i in 0..n
        invariant
            n == v@.len(),
            forall|j: int| 0 <= j < i ==> v@[j].block_hash@ != h@,
    {
        if hash_eq(&v[i].block_hash, h) {
            return Some(i);
        }
    }
    assert(!has_key(block_entries(v@), h@)) by {
        if has_key(block_entries(v@), h@) {
            let j = choose|j: int| 0 <= j < v@.len() && #[trigger] block_entries(v@)[j].0 == h@;
            assert(v@[j].block_hash@ != h@);
        }
    }
    None
}

impl NodeState {
    /// The representation invariant: no hash is kept twice. It speaks of the
    /// two lists alone, so writing `id`, `height` or `locked_qc` keeps it.
    pub open spec fn wf(&self) -> bool {
        &&& keys_unique(tally_entries(self.pending_votes@))
        &&& keys_unique(block_entries(self.pending_blocks@))
    }

    /// `wf` speaks of the two lists alone: a node with the same lists as a
    /// well-formed one is well-formed, whatever its other fields hold.
    pub proof fn lemma_wf_depends_on_lists(a: &NodeState, b: &NodeState)
        requires
            a.wf(),
            a.pending_votes@ == b.pending_votes@,
            a.pending_blocks@ == b.pending_blocks@,
        ensures
            b.wf(),
    {
    }

    /// A node with the given id in a cluster of `n_nodes`, at height 0, with
    /// nothing voted, collected, proposed or locked.
    pub fn new(id: NodeId, n_nodes: usize) -> (r: Self)
        ensures
            r.wf(),
            node_inv(r@),
            r@ == (NodeStateView {
                id: id.0,
                n_nodes: n_nodes as nat,
                height: 0,
                voted_heights: Set::empty(),
                pending_votes: Map::empty(),
                pending_blocks: Map::empty(),
                locked_qc: None,
            }),
    {
        let r = NodeState {
            id,
            n_nodes,
            height: 0,
            voted_heights: HashSet::new(),
            pending_votes: Vec::new(),
            pending_blocks: Vec::new(),
            locked_qc: None,
        };
        assert(tally_entries(r.pending_votes@) =~= Seq::empty());
        assert(block_entries(r.pending_blocks@) =~= Seq::empty());
        assert(to_map(tally_entries(r.pending_votes@)) =~= Map::empty());
        assert(to_map(block_entries(r.pending_blocks@)) =~= Map::empty());
        proof {
            lemma_initial_inv(id.0, n_nodes as nat);
        }
        r
    }

    /// The leader of a height: leaders rotate round-robin over nodes 1..=n.
    pub fn leader_for_height(&self, height: u64) -> (r: NodeId)
        requires
            self@.n_nodes > 0,
        ensures
            r.0 == leader_of(self@.n_nodes, height),
            r.0 == height % (self.n_nodes as u64) + 1,
            1 <= r.0 <= self@.n_nodes,
    {
        let n = self.n_nodes as u64;
        NodeId(height % n + 1)
    }

    /// Votes needed for a certificate: 2f+1 with f = floor((n-1)/3).
    fn quorum(&self) -> (r: usize)
        requires
            self@.n_nodes > 0,
        ensures
            r == quorum_of(self@.n_nodes),
    {
        let f = (self.n_nodes - 1) / 3;
        2 * f + 1
    }

    /// Whether `qc` is newer than this node's lock (any is, without a lock).
    fn supersedes_lock(&self, qc: &QuorumCertificate) -> (r: bool)
        ensures
            r == supersedes_lock(self@, qc@),
            r == (self.locked_qc is None || self.locked_qc.unwrap().height < qc.height),
    {
        match &self.locked_qc {
            Some(lock) => lock.height < qc.height,
            None => true,
        }
    }

    /// Remembers `block` under hash `h`, replacing what was kept there.
    fn keep_block(&mut self, h: [u8; 32], block: Block)
        requires
            old(self).wf(),
        ensures
            final(self).wf(),
            final(self)@ == (NodeStateView {
                pending_blocks: old(self)@.pending_blocks.insert(h@, block@),
                ..old(self)@
            }),
    {
        let ghost old_entries = block_entries(self.pending_blocks@);
        match find_block(&self.pending_blocks, &h) {
            Some(i) => {
                self.pending_blocks.set(i, PendingBlock { block_hash: h, block });
                proof {
                    assert(block_entries(self.pending_blocks@) =~= old_entries.update(
                        i as int,
                        (old_entries[i as int].0, block@),
                    ));
                    lemma_update(old_entries, i as int, block@);
                }
            },
            None => {
                self.pending_blocks.push(PendingBlock { block_hash: h, block });
                proof {
                    assert(block_entries(self.pending_blocks@) =~= old_entries.push((h@, block@)));
                    lemma_push(old_entries, h@, block@);
                }
            },
        }
        assert(self@ =~= NodeStateView {
            pending_blocks: old(self)@.pending_blocks.insert(h@, block@),
            ..old(self)@
        });
    }

    /// Called on the leader to start a round: builds the block for the current
    /// height on top of the locked certificate, keeps it until it commits, and
    /// broadcasts it.
    pub fn propose(&mut self) -> (r: Vec<Command>)
        requires
            old(self).wf(),
        ensures
            final(self).wf(),
            final(self)@ == propose_step(old(self)@).0,
            commands_view(r@) == propose_step(old(self)@).1,
            node_inv(old(self)@) ==> node_inv(final(self)@),
    {
        proof {
            if node_inv(self@) {
                lemma_propose_keeps_inv(self@);
            }
        }
        let parent_hash = match &self.locked_qc {
            Some(qc) => qc.block_hash,
            None => [0u8; 32],
        };
        let digits = u64_to_decimal(self.height);
        let payload = String::from_str("block-").concat(digits.as_str());
        let block = Block { height: self.height, parent_hash, proposer: self.id, payload };
        assert(block@.parent_hash =~= proposal_block(self@).parent_hash);
        assert(block@ == proposal_block(self@));
        let h = block.block_hash();
        self.keep_block(h, block.clone());
        let mut r = Vec::new();
        r.push(Command::Broadcast(Message::Proposal(block)));
        assert(commands_view(r@) =~= propose_step(old(self)@).1);
        r
    }

    /// Votes for a proposal that is not stale, at a height not voted yet, and
    /// that extends the locked certificate; the vote goes to the height's leader.
    fn handle_proposal(&mut self, block: &Block) -> (r: Vec<Command>)
        requires
            old(self).wf(),
            can_handle(old(self)@, MessageView::Proposal(block@)),
        ensures
            final(self).wf(),
            final(self)@ == proposal_step(old(self)@, block@).0,
            commands_view(r@) == proposal_step(old(self)@, block@).1,
    {
        if block.height < self.height {
            return Vec::new();
        }
        if self.voted_heights.contains(&block.height) {
            return Vec::new();
        }
        match &self.locked_qc {
            Some(qc) => {
                if !hash_eq(&block.parent_hash, &qc.block_hash) {
                    return Vec::new();
                }
            },
            None => {},
        }
        self.voted_heights.insert(block.height);
        let vote = Vote { block_hash: block.block_hash(), voter: self.id, height: block.height };
        let leader = self.leader_for_height(block.height);
        let mut r = Vec::new();
        r.push(Command::SendTo { to: leader, msg: Message::VoteMsg(vote) });
        assert(self@ =~= proposal_step(old(self)@, block@).0);
        assert(commands_view(r@) =~= proposal_step(old(self)@, block@).1);
        r
    }

    /// Collects a vote at the leader of its height, counting each voter once
    /// per block. When the votes of a quorum of nodes are in, they form a
    /// certificate: the node commits the block if it proposed it and
    /// broadcasts the certificate; where the certificate is newer than its
    /// lock, it locks on it, moves to the next height, and proposes if it
    /// leads that height.
    fn handle_vote(&mut self, vote: &Vote) -> (r: Vec<Command>)
        requires
            old(self).wf(),
            can_handle(old(self)@, MessageView::VoteMsg(vote@)),
        ensures
            final(self).wf(),
            final(self)@ == vote_step(old(self)@, vote@).0,
            commands_view(r@) == vote_step(old(self)@, vote@).1,
    {
        let ghost s = self@;
        let leader = self.leader_for_height(vote.height);
        if self.id != leader {
            return Vec::new();
        }
        let quorum = self.quorum();
        let ghost old_entries = tally_entries(self.pending_votes@);
        let found = find_tally(&self.pending_votes, &vote.block_hash);
        match found {
            Some(i) => {
                proof {
                    lemma_entry(old_entries, i as int);
                    assert(votes_view(self.pending_votes@[i as int].votes@) == tally(s, vote.block_hash@));
                }
                if voted_already(&self.pending_votes[i].votes, vote.voter) {
                    return Vec::new();
                }
            },
            None => {
                proof {
                    assert(!s.pending_votes.contains_key(vote.block_hash@));
                    assert(!has_voter(tally(s, vote.block_hash@), vote.voter.0));
                }
            },
        }
        let mut votes: Vec<Vote> = match found {
            Some(i) => {
                let t = self.pending_votes.remove(i);
                proof {
                    assert(tally_entries(self.pending_votes@) =~= old_entries.remove(i as int));
                    lemma_remove(old_entries, i as int);
                    lemma_entry(old_entries, i as int);
                }
                t.votes
            },
            None => {
                proof {
                    assert(!s.pending_votes.contains_key(vote.block_hash@));
                }
                Vec::new()
            },
        };
        assert(votes_view(votes@) =~= tally(s, vote.block_hash@));
        assert(to_map(tally_entries(self.pending_votes@)) =~= s.pending_votes.remove(vote.block_hash@));
        votes.push(*vote);
        assert(votes_view(votes@) =~= tally(s, vote.block_hash@).push(vote@));
        if votes.len() < quorum {
            let ghost mid = tally_entries(self.pending_votes@);
            proof {
                assert(!has_key(mid, vote.block_hash@));
            }
            self.pending_votes.push(VoteTally { block_hash: vote.block_hash, votes });
            proof {
                assert(tally_entries(self.pending_votes@) =~= mid.push((vote.block_hash@, tally(s, vote.block_hash@).push(vote@))));
                lemma_push(mid, vote.block_hash@, tally(s, vote.block_hash@).push(vote@));
            }
            assert(self@ =~= vote_step(s, vote@).0);
            return Vec::new();
        }
        let qc = QuorumCertificate { block_hash: vote.block_hash, height: vote.height, votes };
        assert(qc@ == certificate(s, vote@));
        let newer = self.supersedes_lock(&qc);
        if newer {
            self.locked_qc = Some(qc.clone());
            self.height = vote.height + 1;
        }
        let mut commands = Vec::new();
        match find_block(&self.pending_blocks, &vote.block_hash) {
            Some(j) => {
                proof {
                    lemma_entry(block_entries(self.pending_blocks@), j as int);
                }
                commands.push(Command::Commit(self.pending_blocks[j].block.clone()));
            },
            None => {},
        }
        commands.push(Command::Broadcast(Message::NewQC(qc)));
        assert(commands_view(commands@) =~= announce(s, certificate(s, vote@)));
        if newer {
            let next_leader = self.leader_for_height(self.height);
            if self.id == next_leader {
                let mut p = self.propose();
                commands.append(&mut p);
            }
        }
        assert(commands_view(commands@) =~= vote_step(s, vote@).1);
        commands
    }

    /// A timeout only moves the node to the next height (view change is not
    /// modelled).
    fn handle_timeout(&mut self, _t: &TimeoutMsg) -> (r: Vec<Command>)
        requires
            old(self).wf(),
            old(self)@.height < u64::MAX,
        ensures
            final(self).wf(),
            final(self)@ == timeout_step(old(self)@).0,
            commands_view(r@) == timeout_step(old(self)@).1,
    {
        self.height = self.height + 1;
        let r = Vec::new();
        assert(commands_view(r@) =~= timeout_step(old(self)@).1);
        r
    }

    /// Adopts a certificate newer than the lock, whatever the node's height:
    /// locks on it, moves to the height after it, and proposes if this node
    /// leads that height. Others are ignored.
    fn handle_new_qc(&mut self, qc: &QuorumCertificate) -> (r: Vec<Command>)
        requires
            old(self).wf(),
            can_handle(old(self)@, MessageView::NewQC(qc@)),
        ensures
            final(self).wf(),
            final(self)@ == new_qc_step(old(self)@, qc@).0,
            commands_view(r@) == new_qc_step(old(self)@, qc@).1,
    {
        if !self.supersedes_lock(qc) {
            let r = Vec::new();
            assert(commands_view(r@) =~= new_qc_step(old(self)@, qc@).1);
            return r;
        }
        self.locked_qc = Some(qc.clone());
        self.height = qc.height + 1;
        let leader = self.leader_for_height(self.height);
        if self.id == leader {
            self.propose()
        } else {
            let r = Vec::new();
            assert(commands_view(r@) =~= new_qc_step(old(self)@, qc@).1);
            r
        }
    }

    /// Whether `handle` is defined on `msg` in this state: a non-empty cluster
    /// wherever a leader or quorum is needed, and no height moving past
    /// `u64::MAX`.
    pub fn can_handle(&self, msg: &Message) -> (r: bool)
        requires
            self.wf(),
        ensures
            r == can_handle(self@, msg@),
    {
        match msg {
            Message::Proposal(block) => {
                let accepted = self.height <= block.height && !self.voted_heights.contains(
                    &block.height,
                ) && match &self.locked_qc {
                    Some(qc) => hash_eq(&block.parent_hash, &qc.block_hash),
                    None => true,
                };
                !accepted || self.n_nodes > 0
            },
            Message::VoteMsg(vote) => {
                if self.n_nodes == 0 {
                    return false;
                }
                if vote.height < u64::MAX {
                    return true;
                }
                let leader = self.leader_for_height(vote.height);
                if self.id != leader {
                    return true;
                }
                let ghost s = self@;
                let (counted, len) = match find_tally(&self.pending_votes, &vote.block_hash) {
                    Some(i) => {
                        proof {
                            lemma_entry(tally_entries(self.pending_votes@), i as int);
                        }
                        (
                            voted_already(&self.pending_votes[i].votes, vote.voter),
                            self.pending_votes[i].votes.len(),
                        )
                    },
                    None => {
                        proof {
                            assert(!s.pending_votes.contains_key(vote.block_hash@));
                        }
                        (false, 0)
                    },
                };
                let completes = !counted && len >= self.quorum() - 1;
                let newer = match &self.locked_qc {
                    Some(lock) => lock.height < vote.height,
                    None => true,
                };
                !(completes && newer)
            },
            Message::Timeout(_) => self.height < u64::MAX,
            Message::NewQC(qc) => !self.supersedes_lock(qc) || (self.n_nodes > 0 && qc.height
                < u64::MAX),
        }
    }

    /// The entry point: handles one message and returns the commands that
    /// the environment must carry out.
    pub fn handle(&mut self, msg: &Message) -> (r: Vec<Command>)
        requires
            old(self).wf(),
            can_handle(old(self)@, msg@),
        ensures
            final(self).wf(),
            final(self)@ == handle_step(old(self)@, msg@).0,
            commands_view(r@) == handle_step(old(self)@, msg@).1,
            node_inv(old(self)@) ==> node_inv(final(self)@),
    {
        proof {
            if node_inv(self@) {
                lemma_handle_keeps_inv(self@, msg@);
            }
        }
        match msg {
            Message::Proposal(block) => self.handle_proposal(block),
            Message::VoteMsg(vote) => self.handle_vote(vote),
            Message::Timeout(t) => self.handle_timeout(t),
            Message::NewQC(qc) => self.handle_new_qc(qc),
        }
    }
}

} // verus!
