//! The node's chain: the blocks it knows, in the order they arrived.

use vstd::prelude::*;
use vstd::string::StringExecFns;

use crate::block::{Block, BlockView};
use crate::message::{Message, MessageLabel, MessageView};
use crate::text::{decimal, decimal_text};

verus! {

/// An ordered, append-only sequence of blocks; index 0 is the genesis block.
pub struct ChainStore {
    blocks: Vec<Block>,
}

/// The three lines that describe one block in a listing.
pub open spec fn block_lines(b: BlockView) -> Seq<Seq<char>> {
    seq![
        "Hash: "@ + b.hash,
        "Timestamp: "@ + decimal(b.timestamp as int),
        "Data: "@ + b.data + " \n\n"@,
    ]
}

/// The listing of a sequence of blocks: the lines of each block, in order.
pub open spec fn listing(chain: Seq<BlockView>) -> Seq<Seq<char>>
    decreases chain.len(),
{
    if chain.len() == 0 {
        seq![]
    } else {
        listing(chain.drop_last()) + block_lines(chain.last())
    }
}

/// The reply to a request for the latest block: the last block, if there is one.
pub open spec fn last_block_reply(chain: Seq<BlockView>) -> MessageView {
    MessageView {
        label: MessageLabel::SendBlock,
        blocks: if chain.len() == 0 { seq![] } else { seq![chain.last()] },
    }
}

impl View for ChainStore {
    type V = Seq<BlockView>;

    closed spec fn view(&self) -> Seq<BlockView> {
        self.blocks@.map_values(|b: Block| b@)
    }
}

impl ChainStore {
    /// An empty chain.
    pub fn new() -> (r: ChainStore)
        ensures
            r@ == Seq::<BlockView>::empty(),
    {
        ChainStore { blocks: Vec::new() }
    }

    /// A chain that holds the given blocks, in their order.
    pub fn from_blocks(blocks: Vec<Block>) -> (r: ChainStore)
        ensures
            r@ == blocks@.map_values(|b: Block| b@),
    {
        ChainStore { blocks }
    }

    pub fn len(&self) -> (r: usize)
        ensures
            r == self@.len(),
    {
        self.blocks.len()
    }

    /// Adds a block at the tail. No block is ever refused.
    pub fn append(&mut self, block: Block)
        ensures
            final(self)@ == old(self)@.push(block@),
            final(self)@ == appended(old(self)@, seq![block@]),
    {
        self.blocks.push(block);
        proof {
            assert(final(self)@ =~= old(self)@.push(block@));
            assert(seq![block@].drop_last() =~= Seq::<BlockView>::empty());
            assert(appended(old(self)@, Seq::<BlockView>::empty()) == old(self)@);
        }
    }

    /// A copy of the block at the tail, or `None` when the chain is empty.
    pub fn last(&self) -> (r: Option<Block>)
        ensures
            self@.len() == 0 ==> r is None,
            self@.len() > 0 ==> r is Some && r->Some_0@ == self@.last(),
    {
        let n = self.blocks.len();
        if n == 0 {
            None
        } else {
            Some(self.blocks[n - 1].duplicate())
        }
    }

    /// A copy of the block at position `i`.
    pub fn get(&self, i: usize) -> (r: Block)
        requires
            i < self@.len(),
        ensures
            r@ == self@[i as int],
    {
        self.blocks[i].duplicate()
    }

    /// The text that describes every block, one line per entry.
    pub fn list(&self) -> (r: Vec<String>)
        ensures
            r@.map_values(|s: String| s@) == listing(self@),
    {
        list_blocks(&self.blocks)
    }
}

/// The text that describes the given blocks: for each, its hash, its
/// timestamp and its data, one line per entry.
pub fn list_blocks(chain: &Vec<Block>) -> (r: Vec<String>)
    ensures
        r@.map_values(|s: String| s@) == listing(chain@.map_values(|b: Block| b@)),
{
    let mut lines: Vec<String> = Vec::new();
    let mut i: usize = 0;
    while i < chain.len()
        invariant
            i <= chain@.len(),
            lines@.map_values(|s: String| s@) == listing(
                chain@.subrange(0, i as int).map_values(|b: Block| b@),
            ),
        decreases chain@.len() - i,
    {
        let block = &chain[i];
        let hash = String::from_str("Hash: ").concat(block.current_hash.as_str());
        let stamp = decimal_text(block.content.timestamp);
        let time = String::from_str("Timestamp: ").concat(stamp.as_str());
        let data = String::from_str("Data: ").concat(block.content.data.as_str()).concat(" \n\n");
        let ghost before = lines@.map_values(|s: String| s@);
        lines.push(hash);
        lines.push(time);
        lines.push(data);
        proof {
            let prev = chain@.subrange(0, i as int).map_values(|b: Block| b@);
            let next = chain@.subrange(0, i + 1).map_values(|b: Block| b@);
            assert(next.drop_last() =~= prev);
            assert(next.last() == block@);
            assert(lines@.map_values(|s: String| s@) =~= before + block_lines(block@));
        }
        i = i + 1;
    }
    proof {
        assert(chain@.subrange(0, chain@.len() as int) =~= chain@);
    }
    lines
}

/// The message that answers a request for the latest block: labelled
/// `SendBlock`, holding the chain's last block, or no block when the chain is
/// empty.
pub fn last_block_message(chain: &ChainStore) -> (r: Message)
    ensures
        r@ == last_block_reply(chain@),
{
    let mut message = Message::new(Vec::new(), MessageLabel::SendBlock);
    match chain.last() {
        Some(block) => {
            message.set_blocks(vec![block]);
        },
        None => {},
    }
    proof {
        assert(message@.blocks =~= last_block_reply(chain@).blocks);
    }
    message
}

/// Listing a chain depends on its blocks alone: two listings of chains that
/// hold the same blocks, and so two listings with no block appended between
/// them, give the same lines.
pub proof fn lemma_listing_repeatable(a: ChainStore, b: ChainStore)
    requires
        a@ == b@,
    ensures
        listing(a@) == listing(b@),
{
}

/// The chain after the blocks of `order` were appended one call at a time, in
/// that order.
pub open spec fn appended(chain: Seq<BlockView>, order: Seq<BlockView>) -> Seq<BlockView>
    decreases order.len(),
{
    if order.len() == 0 {
        chain
    } else {
        appended(chain, order.drop_last()).push(order.last())
    }
}

/// Appends that reach the chain one at a time, in whatever order they are
/// let through, lose nothing: the earlier blocks stay in place, the chain
/// grows by exactly the number of appends, and its new tail holds each
/// appended block exactly once.
pub proof fn lemma_appends_kept(chain: Seq<BlockView>, blocks: Seq<BlockView>, order: Seq<BlockView>)
    requires
        order.to_multiset() == blocks.to_multiset(),
    ensures
        appended(chain, order) == chain + order,
        appended(chain, order).len() == chain.len() + blocks.len(),
        appended(chain, order).subrange(0, chain.len() as int) == chain,
        appended(chain, order).subrange(chain.len() as int, (chain.len() + blocks.len()) as int).to_multiset()
            == blocks.to_multiset(),
    decreases order.len(),
{
    lemma_appended(chain, order);
    order.to_multiset_ensures();
    blocks.to_multiset_ensures();
    let all = chain + order;
    assert(all.subrange(0, chain.len() as int) =~= chain);
    assert(all.subrange(chain.len() as int, (chain.len() + order.len()) as int) =~= order);
}

proof fn lemma_appended(chain: Seq<BlockView>, order: Seq<BlockView>)
    ensures
        appended(chain, order) == chain + order,
    decreases order.len(),
{
    if order.len() > 0 {
        lemma_appended(chain, order.drop_last());
        assert(chain + order =~= (chain + order.drop_last()).push(order.last()));
    } else {
        assert(chain + order =~= chain);
    }
}

} // verus!
