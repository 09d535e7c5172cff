use crate::hashing::{sha256, sha256_digest};
use vstd::bytes::{lemma_auto_spec_u64_to_from_le_bytes, spec_u64_to_le_bytes, u64_to_le_bytes};
use vstd::prelude::*;
use vstd::utf8::encode_utf8;

verus! {

/// Identity of a node in the cluster. Nodes are numbered from 1.
#[derive(Clone, Copy, Debug, PartialEq, Eq, Hash, Structural)]
pub struct NodeId(pub u64);

/// A proposed block.
#[derive(Debug)]
pub struct Block {
    pub height: u64,
    pub parent_hash: [u8; 32],
    pub proposer: NodeId,
    pub payload: String,
}

/// The mathematical value of a block: hashes as byte sequences, the payload as
/// its characters.
pub struct BlockView {
    pub height: u64,
    pub parent_hash: Seq<u8>,
    pub proposer: u64,
    pub payload: Seq<char>,
}

impl View for Block {
    type V = BlockView;

    open spec fn view(&self) -> BlockView {
        BlockView {
            height: self.height,
            parent_hash: self.parent_hash@,
            proposer: self.proposer.0,
            payload: self.payload@,
        }
    }
}

/// The bytes that identify a block: its height and proposer as little-endian
/// 64-bit integers around its parent hash, then the UTF-8 bytes of its payload.
pub open spec fn block_hash_input(b: BlockView) -> Seq<u8> {
    spec_u64_to_le_bytes(b.height) + b.parent_hash + spec_u64_to_le_bytes(b.proposer)
        + encode_utf8(b.payload)
}

/// The hash of a block: SHA-256 of its identifying bytes.
pub open spec fn block_hash_of(b: BlockView) -> Seq<u8> {
    sha256_digest(block_hash_input(b))
}

/// Appends `bytes` to `v`.
fn append_bytes(v: &mut Vec<u8>, bytes: &[u8])
    ensures
        final(v)@ == old(v)@ + bytes@,
{
    let n = bytes.len();
    for i in 0..n
        invariant
            n == bytes@.len(),
            v@ == old(v)@ + bytes@.subrange(0, i as int),
    {
        v.push(bytes[i]);
        assert(bytes@.subrange(0, i + 1) == bytes@.subrange(0, i as int).push(bytes@[i as int]));
    }
    assert(bytes@.subrange(0, n as int) == bytes@);
}

impl Block {
    /// The bytes that the block hash is computed over.
    pub fn hash_input(&self) -> (r: Vec<u8>)
        ensures
            r@ == block_hash_input(self@),
            r@.len() == 48 + encode_utf8(self.payload@).len(),
            r@.subrange(0, 8) == spec_u64_to_le_bytes(self.height),
            forall|i: int| 0 <= i < 32 ==> #[trigger] r@[8 + i] == self.parent_hash[i],
            r@.subrange(40, 48) == spec_u64_to_le_bytes(self.proposer.0),
            forall|j: int|
                0 <= j < encode_utf8(self.payload@).len() ==> #[trigger] r@[48 + j]
                    == encode_utf8(self.payload@)[j],
    {
        let mut v = u64_to_le_bytes(self.height);
        append_bytes(&mut v, &self.parent_hash);
        let proposer = u64_to_le_bytes(self.proposer.0);
        append_bytes(&mut v, proposer.as_slice());
        append_bytes(&mut v, self.payload.as_str().as_bytes());
        proof {
            lemma_auto_spec_u64_to_from_le_bytes();
            let x = spec_u64_to_le_bytes(self.height);
            let y = spec_u64_to_le_bytes(self.proposer.0);
            let p = encode_utf8(self.payload@);
            assert(v@ == x + self.parent_hash@ + y + p);
            assert(v@.subrange(0, 8) =~= x);
            assert(v@.subrange(40, 48) =~= y);
        }
        v
    }

    /// The SHA-256 hash of the block's height, parent hash, proposer and payload.
    pub fn block_hash(&self) -> (r: [u8; 32])
        ensures
            r@ == block_hash_of(self@),
    {
        let input = self.hash_input();
        sha256(input.as_slice())
    }
}

impl Clone for Block {
    fn clone(&self) -> (r: Self)
        ensures
            r == *self,
    {
        Block {
            height: self.height,
            parent_hash: self.parent_hash,
            proposer: self.proposer,
            payload: self.payload.clone(),
        }
    }
}

/// A vote of `voter` for the block with hash `block_hash` at `height`.
#[derive(Clone, Copy, Debug)]
pub struct Vote {
    pub block_hash: [u8; 32],
    pub voter: NodeId,
    pub height: u64,
}

pub struct VoteView {
    pub block_hash: Seq<u8>,
    pub voter: u64,
    pub height: u64,
}

impl View for Vote {
    type V = VoteView;

    open spec fn view(&self) -> VoteView {
        VoteView { block_hash: self.block_hash@, voter: self.voter.0, height: self.height }
    }
}

/// The views of a sequence of votes.
pub open spec fn votes_view(votes: Seq<Vote>) -> Seq<VoteView> {
    votes.map_values(|v: Vote| v@)
}

/// A quorum certificate: the votes that made a block certified.
#[derive(Debug)]
pub struct QuorumCertificate {
    pub block_hash: [u8; 32],
    pub height: u64,
    pub votes: Vec<Vote>,
}

pub struct QcView {
    pub block_hash: Seq<u8>,
    pub height: u64,
    pub votes: Seq<VoteView>,
}

impl View for QuorumCertificate {
    type V = QcView;

    open spec fn view(&self) -> QcView {
        QcView { block_hash: self.block_hash@, height: self.height, votes: votes_view(self.votes@) }
    }
}

impl Clone for QuorumCertificate {
    fn clone(&self) -> (r: Self)
        ensures
            r@ == self@,
    {
        QuorumCertificate {
            block_hash: self.block_hash,
            height: self.height,
            votes: self.votes.clone(),
        }
    }
}


/// Sent when a node's round timer fires before it sees a certificate.
#[derive(Clone, Copy, Debug)]
pub struct TimeoutMsg {
    pub height: u64,
    pub sender: NodeId,
    pub last_voted_block_hash: Option<[u8; 32]>,
}

pub struct TimeoutView {
    pub height: u64,
    pub sender: u64,
    pub last_voted_block_hash: Option<Seq<u8>>,
}

impl View for TimeoutMsg {
    type V = TimeoutView;

    open spec fn view(&self) -> TimeoutView {
        TimeoutView {
            height: self.height,
            sender: self.sender.0,
            last_voted_block_hash: match self.last_voted_block_hash {
                Some(h) => Some(h@),
                None => None,
            },
        }
    }
}

/// The messages that nodes exchange.
#[derive(Debug)]
pub enum Message {
    Proposal(Block),
    VoteMsg(Vote),
    Timeout(TimeoutMsg),
    /// Broadcast by the leader once a certificate is formed.
    NewQC(QuorumCertificate),
}

pub enum MessageView {
    Proposal(BlockView),
    VoteMsg(VoteView),
    Timeout(TimeoutView),
    NewQC(QcView),
}

impl View for Message {
    type V = MessageView;

    open spec fn view(&self) -> MessageView {
        match self {
            Message::Proposal(b) => MessageView::Proposal(b@),
            Message::VoteMsg(v) => MessageView::VoteMsg(v@),
            Message::Timeout(t) => MessageView::Timeout(t@),
            Message::NewQC(qc) => MessageView::NewQC(qc@),
        }
    }
}

impl Clone for Message {
    fn clone(&self) -> (r: Self)
        ensures
            r@ == self@,
    {
        match self {
            Message::Proposal(b) => Message::Proposal(b.clone()),
            Message::VoteMsg(v) => Message::VoteMsg(*v),
            Message::Timeout(t) => Message::Timeout(*t),
            Message::NewQC(qc) => Message::NewQC(qc.clone()),
        }
    }
}

/// A message with its routing: who sent it and who should receive it.
#[derive(Clone, Debug)]
pub struct Envelope {
    pub from: NodeId,
    pub to: NodeId,
    pub msg: Message,
}

pub struct EnvelopeView {
    pub from: u64,
    pub to: u64,
    pub msg: MessageView,
}

impl View for Envelope {
    type V = EnvelopeView;

    open spec fn view(&self) -> EnvelopeView {
        EnvelopeView { from: self.from.0, to: self.to.0, msg: self.msg@ }
    }
}

/// What a node asks its environment to do after handling a message.
#[derive(Clone, Debug)]
pub enum Command {
    /// Send a message to one node.
    SendTo { to: NodeId, msg: Message },
    /// Send a message to every node of the cluster.
    Broadcast(Message),
    /// The block reached a quorum of votes and is committed.
    Commit(Block),
}

pub enum CommandView {
    SendTo { to: u64, msg: MessageView },
    Broadcast(MessageView),
    Commit(BlockView),
}

impl View for Command {
    type V = CommandView;

    open spec fn view(&self) -> CommandView {
        match self {
            Command::SendTo { to, msg } => CommandView::SendTo { to: to.0, msg: msg@ },
            Command::Broadcast(m) => CommandView::Broadcast(m@),
            Command::Commit(b) => CommandView::Commit(b@),
        }
    }
}

/// The views of a sequence of commands.
pub open spec fn commands_view(cmds: Seq<Command>) -> Seq<CommandView> {
    cmds.map_values(|c: Command| c@)
}

} // verus!
