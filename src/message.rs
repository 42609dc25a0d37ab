//! The envelope exchanged between peers.

use vstd::prelude::*;

use crate::block::{Block, BlockView};

verus! {

/// What a message asks for or announces.
#[derive(Clone, Copy, Debug, PartialEq, Eq, Structural)]
pub enum MessageLabel {
    /// A request for the peer's latest block.
    AskLastBlock,
    /// One or more blocks sent to the peer.
    SendBlock,
}

/// A label together with zero or more blocks.
#[derive(Clone, Debug, PartialEq, Eq)]
pub struct Message {
    pub blocks: Vec<Block>,
    pub label: MessageLabel,
}

/// What a message is, as plain values.
pub struct MessageView {
    pub label: MessageLabel,
    pub blocks: Seq<BlockView>,
}

impl View for Message {
    type V = MessageView;

    open spec fn view(&self) -> MessageView {
        MessageView { label: self.label, blocks: self.blocks@.map_values(|b: Block| b@) }
    }
}

impl Message {
    pub fn new(blocks: Vec<Block>, label: MessageLabel) -> (r: Message)
        ensures
            r.label == label,
            r.blocks@ == blocks@,
    {
        Message { blocks, label }
    }

    pub fn get_blocks(&self) -> (r: &Vec<Block>)
        ensures
            r@ == self.blocks@,
    {
        &self.blocks
    }

    pub fn get_label(&self) -> (r: MessageLabel)
        ensures
            r == self.label,
    {
        self.label
    }

    pub fn set_blocks(&mut self, blocks: Vec<Block>)
        ensures
            final(self).blocks@ == blocks@,
            final(self).label == old(self).label,
    {
        self.blocks = blocks;
    }
}

} // verus!
