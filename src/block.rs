//! Blocks of the ledger and their content.

use vstd::prelude::*;

verus! {

/// The payload of a block: when it was made and what it carries.
#[derive(Clone, Debug, PartialEq, Eq)]
pub struct Content {
    pub timestamp: i64,
    pub data: String,
}

/// A block: its identifying hash and its content.
#[derive(Clone, Debug, PartialEq, Eq)]
pub struct Block {
    pub current_hash: String,
    pub content: Content,
}

/// What a block is, as plain values.
pub struct BlockView {
    pub hash: Seq<char>,
    pub timestamp: i64,
    pub data: Seq<char>,
}

impl View for Block {
    type V = BlockView;

    open spec fn view(&self) -> BlockView {
        BlockView {
            hash: self.current_hash@,
            timestamp: self.content.timestamp,
            data: self.content.data@,
        }
    }
}

impl Content {
    pub fn new(timestamp: i64, data: String) -> (r: Content)
        ensures
            r.timestamp == timestamp,
            r.data@ == data@,
    {
        Content { timestamp, data }
    }

    pub fn get_timestamp(&self) -> (r: i64)
        ensures
            r == self.timestamp,
    {
        self.timestamp
    }

    pub fn get_data(&self) -> (r: &String)
        ensures
            r@ == self.data@,
    {
        &self.data
    }

    /// A field-by-field copy.
    pub fn duplicate(&self) -> (r: Content)
        ensures
            r.timestamp == self.timestamp,
            r.data@ == self.data@,
    {
        Content { timestamp: self.timestamp, data: self.data.clone() }
    }
}

impl Block {
    pub fn new(current_hash: String, content: Content) -> (r: Block)
        ensures
            r@ == (BlockView {
                hash: current_hash@,
                timestamp: content.timestamp,
                data: content.data@,
            }),
    {
        Block { current_hash, content }
    }

    pub fn get_current(&self) -> (r: &String)
        ensures
            r@ == self@.hash,
    {
        &self.current_hash
    }

    pub fn get_content(&self) -> (r: &Content)
        ensures
            r.timestamp == self@.timestamp,
            r.data@ == self@.data,
    {
        &self.content
    }

    /// A copy that holds the same hash and content.
    pub fn duplicate(&self) -> (r: Block)
        ensures
            r@ == self@,
    {
        Block { current_hash: self.current_hash.clone(), content: self.content.duplicate() }
    }
}

} // verus!
