use crate::model::{
    accepts_proposal, adopt, announce, certificate, collects, completes_quorum, counts,
    event_step, handle_step, has_voter, leader_of, max_faults, proposal_block, propose_step,
    quorum_of, supersedes_lock, tally, vote_step, NodeEvent, NodeStateView,
};
use crate::text::decimal;
use crate::types::{
    block_hash_input, block_hash_of, BlockView, CommandView, MessageView, QcView, VoteView,
};
use vstd::arithmetic::div_mod::lemma_small_mod;
use vstd::bytes::{lemma_auto_spec_u64_to_from_le_bytes, spec_u64_to_le_bytes};
use vstd::utf8::encode_utf8;
use vstd::prelude::*;

verus! {

/// No node votes twice among `votes`.
pub open spec fn voters_distinct(votes: Seq<VoteView>) -> bool {
    forall|i: int, j: int|
        0 <= i < votes.len() && 0 <= j < votes.len() && #[trigger] votes[i].voter
            == #[trigger] votes[j].voter ==> i == j
}

/// Every vote among `votes` is for the block with hash `h`.
pub open spec fn all_for(votes: Seq<VoteView>, h: Seq<u8>) -> bool {
    forall|i: int| 0 <= i < votes.len() ==> (#[trigger] votes[i]).block_hash == h
}

/// A tally kept under `h`: non-empty, below the quorum `q`, only votes for
/// `h`, each from a different node.
pub open spec fn tally_ok(votes: Seq<VoteView>, h: Seq<u8>, q: nat) -> bool {
    &&& 0 < votes.len() < q
    &&& all_for(votes, h)
    &&& voters_distinct(votes)
}

/// Every pending tally is non-empty, below the quorum, holds only votes for
/// the hash it is kept under, and counts each voter once.
pub open spec fn tallies_below_quorum(s: NodeStateView) -> bool {
    forall|h: Seq<u8>| #[trigger]
        s.pending_votes.contains_key(h) ==> tally_ok(s.pending_votes[h], h, quorum_of(s.n_nodes))
}

/// Adding the vote of a node not counted yet keeps voters distinct and all
/// votes for the same block.
proof fn lemma_tally_push(s: NodeStateView, v: VoteView)
    requires
        tallies_below_quorum(s),
        counts(s, v),
    ensures
        all_for(tally(s, v.block_hash).push(v), v.block_hash),
        voters_distinct(tally(s, v.block_hash).push(v)),
{
    let t = tally(s, v.block_hash);
    let u = t.push(v);
    assert forall|i: int, j: int|
        0 <= i < u.len() && 0 <= j < u.len() && #[trigger] u[i].voter == #[trigger] u[j].voter implies i
        == j by {
        if i < t.len() && j < t.len() {
            assert(u[i] == t[i] && u[j] == t[j]);
        } else if i < t.len() {
            assert(u[i] == t[i]);
            assert(t[i].voter == v.voter);
        } else if j < t.len() {
            assert(u[j] == t[j]);
            assert(t[j].voter == v.voter);
        }
    }
    assert forall|i: int| 0 <= i < u.len() implies (#[trigger] u[i]).block_hash == v.block_hash by {
        if i < t.len() {
            assert(u[i] == t[i]);
        }
    }
}

/// Every proposed block is kept under its own hash.
pub open spec fn blocks_under_own_hash(s: NodeStateView) -> bool {
    forall|h: Seq<u8>| #[trigger]
        s.pending_blocks.contains_key(h) ==> block_hash_of(s.pending_blocks[h]) == h
}

/// The invariant that every reachable state of a node satisfies.
pub open spec fn node_inv(s: NodeStateView) -> bool {
    tallies_below_quorum(s) && blocks_under_own_hash(s)
}

/// A fresh node (as `NodeState::new` builds it) satisfies the invariant.
pub proof fn lemma_initial_inv(id: u64, n_nodes: nat)
    ensures
        node_inv(
            NodeStateView {
                id,
                n_nodes,
                height: 0,
                voted_heights: Set::empty(),
                pending_votes: Map::empty(),
                pending_blocks: Map::empty(),
                locked_qc: None,
            },
        ),
{
}

/// Proposing keeps the invariant.
pub proof fn lemma_propose_keeps_inv(s: NodeStateView)
    requires
        node_inv(s),
    ensures
        node_inv(propose_step(s).0),
{
    let b = proposal_block(s);
    let t = propose_step(s).0;
    assert forall|h: Seq<u8>| #[trigger] t.pending_blocks.contains_key(h) implies block_hash_of(
        t.pending_blocks[h],
    ) == h by {
        if h != block_hash_of(b) {
            assert(s.pending_blocks.contains_key(h));
        }
    }
}

proof fn lemma_adopt_keeps_inv(s: NodeStateView, qc: QcView)
    requires
        node_inv(s),
    ensures
        node_inv(adopt(s, qc).0),
{
    let s1 = NodeStateView { locked_qc: Some(qc), height: (qc.height + 1) as u64, ..s };
    if s1.id == leader_of(s1.n_nodes, s1.height) {
        lemma_propose_keeps_inv(s1);
    }
}

/// Every transition keeps the invariant.
pub proof fn lemma_handle_keeps_inv(s: NodeStateView, m: MessageView)
    requires
        node_inv(s),
    ensures
        node_inv(handle_step(s, m).0),
{
    match m {
        MessageView::Proposal(b) => {},
        MessageView::VoteMsg(v) => {
            if counts(s, v) {
                let h = v.block_hash;
                lemma_tally_push(s, v);
                if !completes_quorum(s, v) {
                    let t = vote_step(s, v).0;
                    assert forall|k: Seq<u8>| #[trigger] t.pending_votes.contains_key(k) implies tally_ok(
                        t.pending_votes[k],
                        k,
                        quorum_of(t.n_nodes),
                    ) by {
                        if k != h {
                            assert(s.pending_votes.contains_key(k));
                        }
                    }
                } else {
                    let qc = certificate(s, v);
                    let s1 = NodeStateView { pending_votes: s.pending_votes.remove(h), ..s };
                    assert(node_inv(s1)) by {
                        assert forall|k: Seq<u8>| #[trigger] s1.pending_votes.contains_key(k) implies tally_ok(
                            s1.pending_votes[k],
                            k,
                            quorum_of(s1.n_nodes),
                        ) by {
                            assert(s.pending_votes.contains_key(k));
                        }
                    }
                    lemma_adopt_keeps_inv(s1, qc);
                }
            }
        },
        MessageView::Timeout(_) => {},
        MessageView::NewQC(qc) => {
            lemma_adopt_keeps_inv(s, qc);
        },
    }
}


/// A node votes only for a proposal that is not stale, at a height where it
/// has not voted yet, and that extends its locked certificate; it records the
/// height, and sends the vote to that height's leader.
pub proof fn lemma_vote_only_for_safe_proposal(s: NodeStateView, m: MessageView, i: int)
    requires
        0 <= i < handle_step(s, m).1.len(),
        handle_step(s, m).1[i] matches CommandView::SendTo { msg: MessageView::VoteMsg(_), .. },
    ensures
        m matches MessageView::Proposal(b) && {
            &&& s.height <= b.height
            &&& !s.voted_heights.contains(b.height)
            &&& (s.locked_qc matches Some(qc) ==> b.parent_hash == qc.block_hash)
            &&& handle_step(s, m).0.voted_heights == s.voted_heights.insert(b.height)
            &&& handle_step(s, m).1[i] == (CommandView::SendTo {
                to: leader_of(s.n_nodes, b.height),
                msg: MessageView::VoteMsg(
                    VoteView { block_hash: block_hash_of(b), voter: s.id, height: b.height },
                ),
            })
        },
{
    lemma_step_commands(s, m);
}

/// What kinds of commands each transition can emit: votes only answer
/// proposals, commits and certificate broadcasts only come from a vote that
/// completes a quorum, and the rest are proposals.
proof fn lemma_step_commands(s: NodeStateView, m: MessageView)
    ensures
        forall|i: int|
            0 <= i < handle_step(s, m).1.len() ==> match #[trigger] handle_step(s, m).1[i] {
                CommandView::SendTo { msg, .. } => m is Proposal && msg is VoteMsg && accepts_proposal(
                    s,
                    m->Proposal_0,
                ),
                CommandView::Commit(b) => m is VoteMsg && completes_quorum(s, m->VoteMsg_0) && i
                    == 0 && s.pending_blocks.contains_key(m->VoteMsg_0.block_hash)
                    && b == s.pending_blocks[m->VoteMsg_0.block_hash],
                CommandView::Broadcast(MessageView::NewQC(qc)) => m is VoteMsg && completes_quorum(
                    s,
                    m->VoteMsg_0,
                ) && qc == certificate(s, m->VoteMsg_0),
                CommandView::Broadcast(msg) => msg is Proposal,
            },
{
    match m {
        MessageView::Proposal(b) => {},
        MessageView::VoteMsg(v) => {
            if completes_quorum(s, v) {
                let qc = certificate(s, v);
                let s1 = NodeStateView { pending_votes: s.pending_votes.remove(v.block_hash), ..s };
                let a = announce(s, qc);
                let p = if supersedes_lock(s, qc) {
                    adopt(s1, qc).1
                } else {
                    seq![]
                };
                assert(vote_step(s, v).1 == a + p);
                assert forall|i: int| 0 <= i < (a + p).len() implies match #[trigger] (a + p)[i] {
                    CommandView::SendTo { msg, .. } => false,
                    CommandView::Commit(b) => i == 0 && s.pending_blocks.contains_key(v.block_hash)
                        && b == s.pending_blocks[v.block_hash],
                    CommandView::Broadcast(MessageView::NewQC(q)) => q == qc,
                    CommandView::Broadcast(msg) => msg is Proposal,
                } by {
                    if i >= a.len() {
                        assert((a + p)[i] == p[i - a.len()]);
                    }
                }
            }
        },
        MessageView::Timeout(_) => {},
        MessageView::NewQC(qc) => {},
    }
}

/// Every certificate a node forms carries exactly a quorum of votes, all for
/// the certified block and each from a different node. Where it is newer than
/// the node's lock, the node locks on it and moves to the height after the
/// vote's; otherwise lock and height stay.
pub proof fn lemma_certificate_has_quorum(s: NodeStateView, v: VoteView)
    requires
        node_inv(s),
        completes_quorum(s, v),
    ensures
        certificate(s, v).votes.len() == quorum_of(s.n_nodes),
        all_for(certificate(s, v).votes, v.block_hash),
        voters_distinct(certificate(s, v).votes),
        supersedes_lock(s, certificate(s, v)) ==> vote_step(s, v).0.locked_qc == Some(
            certificate(s, v),
        ) && vote_step(s, v).0.height == (v.height + 1) as u64,
        !supersedes_lock(s, certificate(s, v)) ==> vote_step(s, v).0.locked_qc == s.locked_qc
            && vote_step(s, v).0.height == s.height,
{
    lemma_certificate_quorum_votes(s, v);
}

proof fn lemma_certificate_quorum_votes(s: NodeStateView, v: VoteView)
    requires
        node_inv(s),
        completes_quorum(s, v),
    ensures
        certificate(s, v).votes.len() == quorum_of(s.n_nodes),
        all_for(certificate(s, v).votes, v.block_hash),
        voters_distinct(certificate(s, v).votes),
{
    lemma_tally_push(s, v);
}

/// A block is committed only when a vote completes a quorum for its hash at
/// the node that proposed it; the certificate formed holds a quorum of votes
/// from distinct nodes for exactly that block, and the node locks on it where
/// it is newer than its lock.
pub proof fn lemma_commit_needs_quorum(s: NodeStateView, m: MessageView, i: int)
    requires
        node_inv(s),
        0 <= i < handle_step(s, m).1.len(),
        handle_step(s, m).1[i] is Commit,
    ensures
        ({
            let b = handle_step(s, m).1[i]->Commit_0;
            &&& m matches MessageView::VoteMsg(v)
            &&& completes_quorum(s, v)
            &&& v.block_hash == block_hash_of(b)
            &&& (supersedes_lock(s, certificate(s, v)) ==> handle_step(s, m).0.locked_qc == Some(
                certificate(s, v),
            ))
            &&& certificate(s, v).votes.len() == quorum_of(s.n_nodes)
            &&& all_for(certificate(s, v).votes, block_hash_of(b))
            &&& voters_distinct(certificate(s, v).votes)
        }),
{
    lemma_step_commands(s, m);
    let c = handle_step(s, m).1[i];
    let v = m->VoteMsg_0;
    lemma_certificate_quorum_votes(s, v);
    assert(s.pending_blocks.contains_key(v.block_hash));
}

/// Every certificate a node broadcasts carries exactly a quorum of votes, all
/// for the certified block and each from a different node.
pub proof fn lemma_broadcast_certificate_has_quorum(s: NodeStateView, m: MessageView, i: int)
    requires
        node_inv(s),
        0 <= i < handle_step(s, m).1.len(),
        handle_step(s, m).1[i] matches CommandView::Broadcast(MessageView::NewQC(_)),
    ensures
        handle_step(s, m).1[i] matches CommandView::Broadcast(MessageView::NewQC(qc)) && {
            &&& qc.votes.len() == quorum_of(s.n_nodes)
            &&& all_for(qc.votes, qc.block_hash)
            &&& voters_distinct(qc.votes)
        },
{
    lemma_step_commands(s, m);
    lemma_certificate_quorum_votes(s, m->VoteMsg_0);
}

/// Once a quorum formed a certificate, the tally for that block is gone: one
/// more vote for it (the late vote of the last node) does not form a second
/// certificate, wherever a quorum needs more than one vote.
pub proof fn lemma_late_vote_forms_no_second_certificate(
    s: NodeStateView,
    v: VoteView,
    late: VoteView,
)
    requires
        node_inv(s),
        completes_quorum(s, v),
        quorum_of(s.n_nodes) > 1,
        late.block_hash == v.block_hash,
    ensures
        !completes_quorum(vote_step(s, v).0, late),
{
    let t = vote_step(s, v).0;
    assert(!t.pending_votes.contains_key(v.block_hash));
}

/// The nodes that are not faulty can always form a quorum on their own:
/// 2f+1 + f <= n.
pub proof fn lemma_quorum_reachable(n: nat)
    requires
        n >= 1,
    ensures
        quorum_of(n) + max_faults(n) <= n,
{
}

/// With n = 3f+1 nodes, any two quorums share at least f+1 nodes, so at least
/// one node that is not faulty.
pub proof fn lemma_quorums_intersect(n: nat)
    requires
        n >= 1,
        n % 3 == 1,
    ensures
        2 * quorum_of(n) >= n + max_faults(n) + 1,
{
}


/// A node going through a sequence of events (messages delivered, proposals
/// asked for) in order: its final state and every command it emitted, in order.
pub open spec fn run(s: NodeStateView, events: Seq<NodeEvent>) -> (NodeStateView, Seq<CommandView>)
    decreases events.len(),
{
    if events.len() == 0 {
        (s, seq![])
    } else {
        let before = run(s, events.drop_last());
        let step = event_step(before.0, events.last());
        (step.0, before.1 + step.1)
    }
}

/// The heights of the votes among some commands, in order.
pub open spec fn vote_heights(cmds: Seq<CommandView>) -> Seq<u64>
    decreases cmds.len(),
{
    if cmds.len() == 0 {
        seq![]
    } else {
        vote_heights(cmds.drop_last()) + match cmds.last() {
            CommandView::SendTo { msg: MessageView::VoteMsg(v), .. } => seq![v.height],
            _ => seq![],
        }
    }
}

proof fn lemma_vote_heights_concat(a: Seq<CommandView>, b: Seq<CommandView>)
    ensures
        vote_heights(a + b) == vote_heights(a) + vote_heights(b),
    decreases b.len(),
{
    if b.len() == 0 {
        assert(a + b =~= a);
        assert(vote_heights(b) =~= seq![]);
        assert(vote_heights(a) + vote_heights(b) =~= vote_heights(a));
    } else {
        assert((a + b).drop_last() =~= a + b.drop_last());
        lemma_vote_heights_concat(a, b.drop_last());
        assert(vote_heights(a + b) =~= vote_heights(a) + vote_heights(b));
    }
}

/// The heights of votes among commands that hold no vote.
proof fn lemma_no_vote_heights(cmds: Seq<CommandView>)
    requires
        forall|i: int| 0 <= i < cmds.len() ==> !(#[trigger] cmds[i] is SendTo),
    ensures
        vote_heights(cmds) == Seq::<u64>::empty(),
    decreases cmds.len(),
{
    if cmds.len() > 0 {
        lemma_no_vote_heights(cmds.drop_last());
        assert(!(cmds[cmds.len() - 1] is SendTo));
        assert(vote_heights(cmds) =~= Seq::<u64>::empty());
    }
}

/// One event casts at most one vote, at a height not voted before, which it
/// records; voted heights are never forgotten.
proof fn lemma_event_votes(s: NodeStateView, e: NodeEvent)
    ensures
        s.voted_heights.subset_of(event_step(s, e).0.voted_heights),
        vote_heights(event_step(s, e).1) == Seq::<u64>::empty() || ({
            let h = vote_heights(event_step(s, e).1)[0];
            &&& vote_heights(event_step(s, e).1) == seq![h]
            &&& !s.voted_heights.contains(h)
            &&& event_step(s, e).0.voted_heights.contains(h)
        }),
{
    match e {
        NodeEvent::Deliver(m) => lemma_step_votes(s, m),
        NodeEvent::Propose => {
            let r = propose_step(s);
            assert(r.1.drop_last() =~= seq![]);
            assert(vote_heights(r.1.drop_last()) =~= Seq::<u64>::empty());
            assert(vote_heights(r.1) =~= Seq::<u64>::empty());
        },
    }
}

proof fn lemma_step_votes(s: NodeStateView, m: MessageView)
    ensures
        s.voted_heights.subset_of(handle_step(s, m).0.voted_heights),
        vote_heights(handle_step(s, m).1) == Seq::<u64>::empty() || ({
            let h = vote_heights(handle_step(s, m).1)[0];
            &&& vote_heights(handle_step(s, m).1) == seq![h]
            &&& !s.voted_heights.contains(h)
            &&& handle_step(s, m).0.voted_heights.contains(h)
        }),
{
    lemma_step_commands(s, m);
    let r = handle_step(s, m);
    match m {
        MessageView::Proposal(b) => {
            if accepts_proposal(s, b) {
                assert(r.1.drop_last() =~= seq![]);
                assert(vote_heights(r.1.drop_last()) =~= Seq::<u64>::empty());
                assert(vote_heights(r.1) =~= seq![b.height]);
            } else {
                assert(vote_heights(r.1) =~= Seq::<u64>::empty());
            }
        },
        _ => {
            lemma_no_vote_heights(r.1);
            assert(s.voted_heights.subset_of(r.0.voted_heights)) by {
                lemma_voted_heights_kept(s, m);
            }
        },
    }
}

proof fn lemma_voted_heights_kept(s: NodeStateView, m: MessageView)
    requires
        !(m is Proposal),
    ensures
        handle_step(s, m).0.voted_heights == s.voted_heights,
{
    match m {
        MessageView::VoteMsg(v) => {
            if completes_quorum(s, v) {
                let qc = certificate(s, v);
                let s1 = NodeStateView { pending_votes: s.pending_votes.remove(v.block_hash), ..s };
                assert(adopt(s1, qc).0.voted_heights == s.voted_heights);
            }
        },
        MessageView::NewQC(qc) => {},
        _ => {},
    }
}

/// No double vote: over any sequence of events (messages delivered and
/// proposals asked for, interleaved in any way), a node never votes twice at
/// the same height, never at a height it had voted at before, and remembers
/// every height it voted at.
pub proof fn lemma_no_double_vote(s: NodeStateView, events: Seq<NodeEvent>)
    ensures
        vote_heights(run(s, events).1).no_duplicates(),
        forall|i: int|
            0 <= i < vote_heights(run(s, events).1).len() ==> {
                &&& !s.voted_heights.contains(#[trigger] vote_heights(run(s, events).1)[i])
                &&& run(s, events).0.voted_heights.contains(vote_heights(run(s, events).1)[i])
            },
        s.voted_heights.subset_of(run(s, events).0.voted_heights),
    decreases events.len(),
{
    if events.len() == 0 {
        assert(vote_heights(run(s, events).1) =~= Seq::<u64>::empty());
    } else {
        let before = run(s, events.drop_last());
        lemma_no_double_vote(s, events.drop_last());
        let step = event_step(before.0, events.last());
        lemma_event_votes(before.0, events.last());
        lemma_vote_heights_concat(before.1, step.1);
        let hs = vote_heights(before.1);
        let all = vote_heights(run(s, events).1);
        assert(all == hs + vote_heights(step.1));
        if vote_heights(step.1) == Seq::<u64>::empty() {
            assert(all =~= hs);
        } else {
            let h = vote_heights(step.1)[0];
            assert(all =~= hs.push(h));
            assert forall|i: int| 0 <= i < hs.len() implies hs[i] != h by {
                assert(before.0.voted_heights.contains(hs[i]));
            }
        }
    }
}


/// Votes delivered as messages.
pub open spec fn vote_msgs(votes: Seq<VoteView>) -> Seq<NodeEvent> {
    votes.map_values(|v: VoteView| NodeEvent::Deliver(MessageView::VoteMsg(v)))
}

proof fn lemma_collecting(s: NodeStateView, h: Seq<u8>, votes: Seq<VoteView>, k: int)
    requires
        !s.pending_votes.contains_key(h),
        0 <= k < quorum_of(s.n_nodes),
        k <= votes.len(),
        voters_distinct(votes),
        forall|i: int|
            0 <= i < votes.len() ==> (#[trigger] votes[i]).block_hash == h && s.id == leader_of(
                s.n_nodes,
                votes[i].height,
            ),
    ensures
        run(s, vote_msgs(votes.take(k))).1 == Seq::<CommandView>::empty(),
        tally(run(s, vote_msgs(votes.take(k))).0, h) == votes.take(k),
        run(s, vote_msgs(votes.take(k))).0.pending_blocks == s.pending_blocks,
        run(s, vote_msgs(votes.take(k))).0.id == s.id,
        run(s, vote_msgs(votes.take(k))).0.n_nodes == s.n_nodes,
    decreases k,
{
    if k == 0 {
        assert(vote_msgs(votes.take(0)) =~= Seq::<NodeEvent>::empty());
        assert(votes.take(0) =~= Seq::<VoteView>::empty());
    } else {
        lemma_collecting(s, h, votes, k - 1);
        let msgs = vote_msgs(votes.take(k));
        assert(msgs.drop_last() =~= vote_msgs(votes.take(k - 1)));
        assert(msgs.last() == NodeEvent::Deliver(MessageView::VoteMsg(votes[k - 1])));
        let t = run(s, vote_msgs(votes.take(k - 1))).0;
        let v = votes[k - 1];
        assert(collects(t, v));
        assert(!has_voter(tally(t, h), v.voter)) by {
            if has_voter(tally(t, h), v.voter) {
                let j = choose|j: int| 0 <= j < tally(t, h).len() && #[trigger] tally(t, h)[j].voter == v.voter;
                assert(votes[j].voter == votes[k - 1].voter);
            }
        }
        assert(tally(t, h).push(v) =~= votes.take(k));
        assert(!completes_quorum(t, v));
        assert(run(s, msgs).1 =~= Seq::<CommandView>::empty());
    }
}

/// A leader that proposed block `b` and then receives a quorum of votes for
/// it from distinct nodes (at heights it leads) stays silent until the last of them, and then
/// commits `b` first thing.
pub proof fn lemma_commit_on_quorum(s: NodeStateView, b: BlockView, votes: Seq<VoteView>)
    requires
        s.pending_blocks.contains_key(block_hash_of(b)),
        s.pending_blocks[block_hash_of(b)] == b,
        !s.pending_votes.contains_key(block_hash_of(b)),
        votes.len() == quorum_of(s.n_nodes),
        voters_distinct(votes),
        forall|i: int|
            0 <= i < votes.len() ==> (#[trigger] votes[i]).block_hash == block_hash_of(b) && s.id
                == leader_of(s.n_nodes, votes[i].height),
    ensures
        forall|k: int|
            0 <= k < votes.len() ==> #[trigger] run(s, vote_msgs(votes.take(k))).1
                == Seq::<CommandView>::empty(),
        run(s, vote_msgs(votes)).1.len() > 0,
        run(s, vote_msgs(votes)).1[0] == CommandView::Commit(b),
{
    let h = block_hash_of(b);
    let q = votes.len() as int;
    assert forall|k: int| 0 <= k < votes.len() implies #[trigger] run(
        s,
        vote_msgs(votes.take(k)),
    ).1 == Seq::<CommandView>::empty() by {
        lemma_collecting(s, h, votes, k);
    }
    lemma_collecting(s, h, votes, q - 1);
    assert(votes.take(q) =~= votes);
    let msgs = vote_msgs(votes);
    assert(msgs.drop_last() =~= vote_msgs(votes.take(q - 1)));
    let t = run(s, vote_msgs(votes.take(q - 1))).0;
    let v = votes[q - 1];
    assert(msgs.last() == NodeEvent::Deliver(MessageView::VoteMsg(v)));
    assert(!has_voter(tally(t, h), v.voter)) by {
        if has_voter(tally(t, h), v.voter) {
            let j = choose|j: int| 0 <= j < tally(t, h).len() && #[trigger] tally(t, h)[j].voter == v.voter;
            assert(votes[j].voter == votes[q - 1].voter);
        }
    }
    assert(completes_quorum(t, v));
    let qc = certificate(t, v);
    let a = announce(t, qc);
    assert(a[0] == CommandView::Commit(b));
    let s1 = NodeStateView { pending_votes: t.pending_votes.remove(h), ..t };
    let step = vote_step(t, v);
    if supersedes_lock(t, qc) {
        assert(step.1 == a + adopt(s1, qc).1);
    } else {
        assert(step.1 == a);
    }
    assert(run(s, msgs).1 =~= Seq::<CommandView>::empty() + step.1);
}


/// A replica votes for the block its leader proposes when the block extends
/// the replica's lock (the leader locked on the same certificate, or the
/// replica locked on none), the replica is not past that height and has not
/// voted at it yet; the vote names the proposed block's hash.
pub proof fn lemma_replica_votes_for_proposal(leader: NodeStateView, replica: NodeStateView)
    requires
        replica.locked_qc matches Some(rq) ==> (leader.locked_qc matches Some(lq)
            && lq.block_hash == rq.block_hash),
        replica.height <= leader.height,
        !replica.voted_heights.contains(leader.height),
    ensures
        handle_step(replica, propose_step(leader).1[0]->Broadcast_0).1 == seq![
            CommandView::SendTo {
                to: leader_of(replica.n_nodes, leader.height),
                msg: MessageView::VoteMsg(
                    VoteView {
                        block_hash: block_hash_of(proposal_block(leader)),
                        voter: replica.id,
                        height: leader.height,
                    },
                ),
            },
        ],
{
    let b = proposal_block(leader);
    assert(propose_step(leader).1[0] == CommandView::Broadcast(MessageView::Proposal(b)));
    assert(accepts_proposal(replica, b));
}


/// Each node counts once: a vote from a node already counted for that block
/// changes nothing and emits nothing. So copies of one node's vote never make
/// up a quorum.
pub proof fn lemma_repeated_vote_ignored(s: NodeStateView, v: VoteView)
    requires
        has_voter(tally(s, v.block_hash), v.voter),
    ensures
        handle_step(s, MessageView::VoteMsg(v)) == (s, Seq::<CommandView>::empty()),
{
    assert(seq![] =~= Seq::<CommandView>::empty());
}

/// A certificate newer than the node's lock is adopted whatever the node's
/// height: the node locks on it, moves to the height after it, and, where it
/// leads that height, proposes a block on top of it. A certificate not newer
/// than the lock changes nothing.
pub proof fn lemma_newer_certificate_adopted(s: NodeStateView, qc: QcView)
    requires
        qc.height < u64::MAX,
    ensures
        s.locked_qc is None || s.locked_qc.unwrap().height < qc.height ==> {
            &&& handle_step(s, MessageView::NewQC(qc)).0.locked_qc == Some(qc)
            &&& handle_step(s, MessageView::NewQC(qc)).0.height == qc.height + 1
            &&& (s.id == leader_of(s.n_nodes, (qc.height + 1) as u64) ==> {
                let b = proposal_block(handle_step(s, MessageView::NewQC(qc)).0);
                &&& handle_step(s, MessageView::NewQC(qc)).1 == seq![
                    CommandView::Broadcast(MessageView::Proposal(b)),
                ]
                &&& b.parent_hash == qc.block_hash
                &&& b.height == qc.height + 1
            })
            &&& (s.id != leader_of(s.n_nodes, (qc.height + 1) as u64) ==> handle_step(
                s,
                MessageView::NewQC(qc),
            ).1 == Seq::<CommandView>::empty())
        },
        s.locked_qc is Some && qc.height <= s.locked_qc.unwrap().height ==> handle_step(
            s,
            MessageView::NewQC(qc),
        ) == (s, Seq::<CommandView>::empty()),
{
    assert(seq![] =~= Seq::<CommandView>::empty());
}

/// The lock is the highest certificate seen: no transition lowers the height
/// of a node's lock or drops it.
pub proof fn lemma_lock_only_rises(s: NodeStateView, e: NodeEvent)
    ensures
        s.locked_qc matches Some(lock) ==> event_step(s, e).0.locked_qc matches Some(next)
            && lock.height <= next.height,
{
    match e {
        NodeEvent::Deliver(MessageView::VoteMsg(v)) => {
            if completes_quorum(s, v) {
                let s1 = NodeStateView { pending_votes: s.pending_votes.remove(v.block_hash), ..s };
                assert(adopt(s1, certificate(s, v)).0.locked_qc == Some(certificate(s, v)));
            }
        },
        NodeEvent::Deliver(MessageView::NewQC(qc)) => {
            assert(adopt(s, qc).0.locked_qc == Some(qc));
        },
        _ => {},
    }
}


/// Whenever a vote completes a quorum at the leader, the leader broadcasts the
/// certificate of those votes, whatever lock it holds, so that every node
/// learns it.
pub proof fn lemma_quorum_broadcasts_certificate(s: NodeStateView, v: VoteView)
    requires
        completes_quorum(s, v),
    ensures
        handle_step(s, MessageView::VoteMsg(v)).1.contains(
            CommandView::Broadcast(
                MessageView::NewQC(
                    QcView {
                        block_hash: v.block_hash,
                        height: v.height,
                        votes: tally(s, v.block_hash).push(v),
                    },
                ),
            ),
        ),
{
    let qc = certificate(s, v);
    let a = announce(s, qc);
    let s1 = NodeStateView { pending_votes: s.pending_votes.remove(v.block_hash), ..s };
    let r = vote_step(s, v).1;
    let i = a.len() - 1;
    if supersedes_lock(s, qc) {
        assert(r == a + adopt(s1, qc).1);
    } else {
        assert(r == a);
    }
    assert(r[i] == CommandView::Broadcast(MessageView::NewQC(qc)));
}

/// A leader that forms a certificate higher than its lock (or holds none)
/// locks on it and moves to the height after it; one not higher than the lock
/// leaves lock and height as they were.
pub proof fn lemma_leader_locks_on_higher_certificate(s: NodeStateView, v: VoteView)
    requires
        completes_quorum(s, v),
    ensures
        s.locked_qc is None || s.locked_qc.unwrap().height < v.height ==> {
            &&& handle_step(s, MessageView::VoteMsg(v)).0.locked_qc == Some(
                QcView {
                    block_hash: v.block_hash,
                    height: v.height,
                    votes: tally(s, v.block_hash).push(v),
                },
            )
            &&& handle_step(s, MessageView::VoteMsg(v)).0.height == (v.height + 1) as u64
        },
        s.locked_qc is Some && v.height <= s.locked_qc.unwrap().height ==> {
            &&& handle_step(s, MessageView::VoteMsg(v)).0.locked_qc == s.locked_qc
            &&& handle_step(s, MessageView::VoteMsg(v)).0.height == s.height
        },
{
    let qc = certificate(s, v);
    let s1 = NodeStateView { pending_votes: s.pending_votes.remove(v.block_hash), ..s };
    assert(adopt(s1, qc).0.locked_qc == Some(qc));
}

/// Proposing broadcasts one block: at the node's height, by the node, named
/// "block-" and the height in decimal, on top of the lock (or of the zero
/// hash); the node keeps that block under its hash, whatever lock it holds,
/// and nothing else of its state changes.
pub proof fn lemma_proposer_keeps_its_block(s: NodeStateView)
    ensures
        propose_step(s).1.len() == 1,
        propose_step(s).1[0] matches CommandView::Broadcast(MessageView::Proposal(b)) && {
            &&& b.height == s.height
            &&& b.proposer == s.id
            &&& b.payload == "block-"@ + decimal(s.height as nat)
            &&& b.parent_hash == match s.locked_qc {
                Some(lock) => lock.block_hash,
                None => Seq::new(32, |i: int| 0u8),
            }
            &&& propose_step(s).0.pending_blocks.contains_key(block_hash_of(b))
            &&& propose_step(s).0.pending_blocks[block_hash_of(b)] == b
            &&& forall|h: Seq<u8>|
                h != block_hash_of(b) ==> #[trigger] propose_step(s).0.pending_blocks.contains_key(h)
                    == s.pending_blocks.contains_key(h) && (s.pending_blocks.contains_key(h)
                    ==> propose_step(s).0.pending_blocks[h] == s.pending_blocks[h])
            &&& propose_step(s).0 == NodeStateView {
                pending_blocks: propose_step(s).0.pending_blocks,
                ..s
            }
        },
{
}

/// A leader that proposes and then receives a quorum of votes for its block
/// from distinct nodes (at heights it leads, with no tally for that block
/// yet) commits exactly the block it proposed, whatever lock it holds.
pub proof fn lemma_proposed_block_commits_on_quorum(s: NodeStateView, votes: Seq<VoteView>)
    requires
        !s.pending_votes.contains_key(block_hash_of(proposal_block(s))),
        votes.len() == quorum_of(s.n_nodes),
        voters_distinct(votes),
        forall|i: int|
            0 <= i < votes.len() ==> (#[trigger] votes[i]).block_hash == block_hash_of(
                proposal_block(s),
            ) && s.id == leader_of(s.n_nodes, votes[i].height),
    ensures
        propose_step(s).1[0] matches CommandView::Broadcast(MessageView::Proposal(b))
            && run(propose_step(s).0, vote_msgs(votes)).1.len() > 0 && run(
            propose_step(s).0,
            vote_msgs(votes),
        ).1[0] == CommandView::Commit(b),
{
    let b = proposal_block(s);
    lemma_commit_on_quorum(propose_step(s).0, b, votes);
}

/// The bytes a block hash is computed over: the height as 8 little-endian
/// bytes, the 32 parent-hash bytes in their stored order, the proposer as 8
/// little-endian bytes, then the payload's UTF-8 bytes.
pub proof fn lemma_hash_input_layout(b: BlockView)
    requires
        b.parent_hash.len() == 32,
    ensures
        block_hash_input(b).len() == 48 + encode_utf8(b.payload).len(),
        block_hash_input(b).subrange(0, 8) == spec_u64_to_le_bytes(b.height),
        forall|i: int| 0 <= i < 32 ==> #[trigger] block_hash_input(b)[8 + i] == b.parent_hash[i],
        block_hash_input(b).subrange(40, 48) == spec_u64_to_le_bytes(b.proposer),
        forall|j: int|
            0 <= j < encode_utf8(b.payload).len() ==> #[trigger] block_hash_input(b)[48 + j]
                == encode_utf8(b.payload)[j],
{
    lemma_auto_spec_u64_to_from_le_bytes();
    let x = spec_u64_to_le_bytes(b.height);
    let y = spec_u64_to_le_bytes(b.proposer);
    let p = encode_utf8(b.payload);
    let inp = block_hash_input(b);
    assert(inp == x + b.parent_hash + y + p);
    assert(inp.subrange(0, 8) =~= x);
    assert(inp.subrange(40, 48) =~= y);
}

/// Every node of an n-node cluster leads: node k leads height k-1.
pub proof fn lemma_every_node_leads(n: nat, k: nat)
    requires
        1 <= k <= n,
        n <= u64::MAX,
    ensures
        leader_of(n, (k - 1) as u64) == k,
{
    lemma_small_mod((k - 1) as nat, n);
}

/// Leadership rotates: the leader of the next height is the next node, and
/// after node n comes node 1; every leader is a node of the cluster.
pub proof fn lemma_leaders_rotate(n: nat, h: u64)
    requires
        1 <= n <= u64::MAX,
        h < u64::MAX,
    ensures
        1 <= leader_of(n, h) <= n,
        leader_of(n, (h + 1) as u64) == if leader_of(n, h) == n {
            1
        } else {
            leader_of(n, h) + 1
        },
{
    let r = (h as nat) % n;
    assert(h as nat == n * ((h as nat) / n) + r) by (nonlinear_arith)
        requires
            n >= 1,
            r == (h as nat) % n,
    ;
    let q = (h as nat) / n;
    if r + 1 == n {
        assert(((h + 1) as nat) == n * (q + 1)) by (nonlinear_arith)
            requires
                h as nat == n * q + r,
                r + 1 == n,
        ;
        assert(((h + 1) as nat) % n == 0) by (nonlinear_arith)
            requires
                ((h + 1) as nat) == n * (q + 1),
                n >= 1,
        ;
    } else {
        assert(((h + 1) as nat) % n == r + 1) by (nonlinear_arith)
            requires
                h as nat == n * q + r,
                r + 1 < n,
                n >= 1,
        ;
    }
}

} // verus!
