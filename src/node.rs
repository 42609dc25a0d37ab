//! What a node decides when it pushes a new block to its peers and when it
//! answers a message from a peer. Connections are made by the caller.

use vstd::prelude::*;

use crate::block::{Block, BlockView};
use crate::chain::{last_block_message, last_block_reply, ChainStore};
use crate::codec::{encode_message, message_bytes};
use crate::message::{Message, MessageLabel, MessageView};

verus! {

/// The message that announces one new block.
pub open spec fn announcement(b: BlockView) -> MessageView {
    MessageView { label: MessageLabel::SendBlock, blocks: seq![b] }
}

/// The message that announces `block` to peers: labelled `SendBlock`, holding
/// that block alone.
pub fn block_announcement(block: Block) -> (r: Message)
    ensures
        r@ == announcement(block@),
{
    let r = Message::new(vec![block], MessageLabel::SendBlock);
    proof {
        assert(r@.blocks =~= seq![block@]);
    }
    r
}

/// The bytes sent to every peer when `block` is broadcast. They are made once
/// and the same bytes go to each peer.
pub fn broadcast_payload(block: Block) -> (r: Vec<u8>)
    ensures
        r@ == message_bytes(announcement(block@)),
{
    let message = block_announcement(block);
    encode_message(&message)
}

/// Adds to the chain the first block that `message` carries. A message
/// without a block breaks the protocol and is not accepted here.
pub fn add_block_from_message(chain: &mut ChainStore, message: &Message)
    requires
        message@.blocks.len() > 0,
    ensures
        final(chain)@ == old(chain)@.push(message@.blocks[0]),
{
    let block = message.blocks[0].duplicate();
    chain.append(block);
}

/// The bytes that answer a request for the latest block: a `SendBlock`
/// message with the chain's last block, or with no block when the chain is
/// empty.
pub fn last_block_bytes(chain: &ChainStore) -> (r: Vec<u8>)
    ensures
        r@ == message_bytes(last_block_reply(chain@)),
{
    let message = last_block_message(chain);
    encode_message(&message)
}

/// What came of one peer during a broadcast.
#[derive(Clone, Copy, Debug, PartialEq, Eq, Structural)]
pub enum PeerOutcome {
    /// A connection was made and the block was written to it.
    Delivered,
    /// No connection could be made in time; the peer was passed over.
    Skipped,
}

pub open spec fn outcome_of(reachable: bool) -> PeerOutcome {
    if reachable {
        PeerOutcome::Delivered
    } else {
        PeerOutcome::Skipped
    }
}

/// Where a broadcast stands: how many peers it goes to, which one is next,
/// and what came of those already visited.
pub struct BroadcastView {
    pub peers: nat,
    pub next: nat,
    pub outcomes: Seq<PeerOutcome>,
}

pub open spec fn start(peers: nat) -> BroadcastView {
    BroadcastView { peers, next: 0, outcomes: seq![] }
}

/// The broadcast after the current peer turned out reachable or not.
pub open spec fn step(s: BroadcastView, reachable: bool) -> BroadcastView {
    BroadcastView { peers: s.peers, next: s.next + 1, outcomes: s.outcomes.push(outcome_of(reachable)) }
}

/// The broadcast after the peers, in turn, turned out as `reach` says.
pub open spec fn run(s: BroadcastView, reach: Seq<bool>) -> BroadcastView
    decreases reach.len(),
{
    if reach.len() == 0 {
        s
    } else {
        step(run(s, reach.drop_last()), reach.last())
    }
}

/// The peers of a broadcast are visited one at a time, in the order given,
/// each once; an unreachable peer is passed over and never tried again.
pub struct Broadcast {
    peers: usize,
    next: usize,
    outcomes: Vec<PeerOutcome>,
}

impl View for Broadcast {
    type V = BroadcastView;

    closed spec fn view(&self) -> BroadcastView {
        BroadcastView { peers: self.peers as nat, next: self.next as nat, outcomes: self.outcomes@ }
    }
}

impl Broadcast {
    pub closed spec fn wf(&self) -> bool {
        self.next <= self.peers && self.outcomes@.len() == self.next
    }

    /// A broadcast to `peers` peers, none visited yet.
    pub fn new(peers: usize) -> (r: Broadcast)
        ensures
            r.wf(),
            r@ == start(peers as nat),
    {
        Broadcast { peers, next: 0, outcomes: Vec::new() }
    }

    /// The position of the peer to try next, or `None` once every peer has
    /// been visited.
    pub fn next_peer(&self) -> (r: Option<usize>)
        requires
            self.wf(),
        ensures
            self@.next < self@.peers ==> r == Some(self@.next as usize),
            self@.next >= self@.peers ==> r is None,
    {
        if self.next < self.peers {
            Some(self.next)
        } else {
            None
        }
    }

    /// Records whether the peer to try next could be reached, and moves on
    /// to the one after it. A reachable peer has been handed the payload.
    pub fn record(&mut self, reachable: bool) -> (r: PeerOutcome)
        requires
            old(self).wf(),
            old(self)@.next < old(self)@.peers,
        ensures
            final(self).wf(),
            final(self)@ == step(old(self)@, reachable),
            r == outcome_of(reachable),
    {
        let outcome = if reachable {
            PeerOutcome::Delivered
        } else {
            PeerOutcome::Skipped
        };
        self.outcomes.push(outcome);
        self.next = self.next + 1;
        outcome
    }

    /// Whether every peer has been visited.
    pub fn is_finished(&self) -> (r: bool)
        requires
            self.wf(),
        ensures
            r == (self@.next == self@.peers),
    {
        self.next == self.peers
    }

    /// What came of each peer visited so far, in the order visited.
    pub fn outcomes(&self) -> (r: &Vec<PeerOutcome>)
        ensures
            r@ == self@.outcomes,
    {
        &self.outcomes
    }
}

/// A broadcast that visits each of its peers once, in the order given, ends:
/// every peer has been visited, each reachable one has been delivered to and
/// each unreachable one skipped, wherever it stands in the list.
pub proof fn lemma_broadcast_outcomes(reach: Seq<bool>)
    ensures
        run(start(reach.len()), reach).next == reach.len(),
        run(start(reach.len()), reach).peers == reach.len(),
        run(start(reach.len()), reach).outcomes.len() == reach.len(),
        forall|i: int|
            0 <= i < reach.len() ==> run(start(reach.len()), reach).outcomes[i] == outcome_of(
                #[trigger] reach[i],
            ),
{
    lemma_run(start(reach.len()), reach);
}

proof fn lemma_run(s: BroadcastView, reach: Seq<bool>)
    ensures
        run(s, reach).peers == s.peers,
        run(s, reach).next == s.next + reach.len(),
        run(s, reach).outcomes == s.outcomes + reach.map_values(|r: bool| outcome_of(r)),
    decreases reach.len(),
{
    if reach.len() > 0 {
        lemma_run(s, reach.drop_last());
        assert(s.outcomes + reach.map_values(|r: bool| outcome_of(r)) =~= (s.outcomes
            + reach.drop_last().map_values(|r: bool| outcome_of(r))).push(outcome_of(reach.last())));
    } else {
        assert(s.outcomes + reach.map_values(|r: bool| outcome_of(r)) =~= s.outcomes);
    }
}

} // verus!
