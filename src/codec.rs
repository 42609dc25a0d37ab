//! The binary form of a message on the wire.
//!
//! Integers are fixed-width and little-endian; a text is its UTF-8 length as
//! a `u64` followed by its UTF-8 bytes; a sequence is its length as a `u64`
//! followed by its items; a label is its variant index as a `u32`. A message
//! is its label followed by its blocks, and a block is its hash, its
//! timestamp and its data.

use vstd::prelude::*;
use vstd::utf8::{decode_utf8, encode_utf8, encode_utf8_decode_utf8, encode_utf8_valid_utf8, valid_utf8};

use crate::block::{Block, BlockView, Content};
use crate::message::{Message, MessageLabel, MessageView};

verus! {

/// Why bytes could not be read as a message.
#[derive(Clone, Copy, Debug, PartialEq, Eq, Structural)]
pub enum CodecError {
    /// The bytes do not start with a message.
    Malformed,
}

#[verifier::external_type_specification]
#[verifier::external_body]
pub struct ExBincodeErrorKind(bincode::ErrorKind);

pub open spec fn u32_le(x: u32) -> Seq<u8> {
    seq![x as u8, (x >> 8) as u8, (x >> 16) as u8, (x >> 24) as u8]
}

pub open spec fn u64_le(x: u64) -> Seq<u8> {
    seq![
        x as u8,
        (x >> 8) as u8,
        (x >> 16) as u8,
        (x >> 24) as u8,
        (x >> 32) as u8,
        (x >> 40) as u8,
        (x >> 48) as u8,
        (x >> 56) as u8,
    ]
}

/// The `u32` whose little-endian bytes start `b`.
pub open spec fn le_u32(b: Seq<u8>) -> u32 {
    (b[0] as u32) | ((b[1] as u32) << 8) | ((b[2] as u32) << 16) | ((b[3] as u32) << 24)
}

/// The `u64` whose little-endian bytes start `b`.
pub open spec fn le_u64(b: Seq<u8>) -> u64 {
    (b[0] as u64) | ((b[1] as u64) << 8) | ((b[2] as u64) << 16) | ((b[3] as u64) << 24) | ((
    b[4] as u64) << 32) | ((b[5] as u64) << 40) | ((b[6] as u64) << 48) | ((b[7] as u64) << 56)
}

pub open spec fn label_tag(l: MessageLabel) -> u32 {
    match l {
        MessageLabel::AskLastBlock => 0,
        MessageLabel::SendBlock => 1,
    }
}

pub open spec fn text_bytes(s: Seq<char>) -> Seq<u8> {
    u64_le(encode_utf8(s).len() as u64) + encode_utf8(s)
}

pub open spec fn block_bytes(b: BlockView) -> Seq<u8> {
    text_bytes(b.hash) + u64_le(b.timestamp as u64) + text_bytes(b.data)
}

pub open spec fn blocks_bytes(bs: Seq<BlockView>) -> Seq<u8>
    decreases bs.len(),
{
    if bs.len() == 0 {
        seq![]
    } else {
        blocks_bytes(bs.drop_last()) + block_bytes(bs.last())
    }
}

/// The bytes that stand for a message on the wire.
pub open spec fn message_bytes(m: MessageView) -> Seq<u8> {
    u32_le(label_tag(m.label)) + u64_le(m.blocks.len() as u64) + blocks_bytes(m.blocks)
}

/// Every text of the block fits the wire's `u64` lengths.
pub open spec fn block_fits(b: BlockView) -> bool {
    encode_utf8(b.hash).len() <= u64::MAX && encode_utf8(b.data).len() <= u64::MAX
}

/// The message's block count and every text in it fit the wire's `u64` lengths.
pub open spec fn message_fits(m: MessageView) -> bool {
    m.blocks.len() <= u64::MAX && forall|i: int| 0 <= i < m.blocks.len() ==> block_fits(#[trigger] m.blocks[i])
}

pub open spec fn take_u32(b: Seq<u8>) -> Option<(u32, Seq<u8>)> {
    if b.len() >= 4 {
        Some((le_u32(b), b.skip(4)))
    } else {
        None
    }
}

pub open spec fn take_u64(b: Seq<u8>) -> Option<(u64, Seq<u8>)> {
    if b.len() >= 8 {
        Some((le_u64(b), b.skip(8)))
    } else {
        None
    }
}

pub open spec fn take_text(b: Seq<u8>) -> Option<(Seq<char>, Seq<u8>)> {
    match take_u64(b) {
        Some((n, rest)) => if n <= rest.len() && valid_utf8(rest.take(n as int)) {
            Some((decode_utf8(rest.take(n as int)), rest.skip(n as int)))
        } else {
            None
        },
        None => None,
    }
}

pub open spec fn take_block(b: Seq<u8>) -> Option<(BlockView, Seq<u8>)> {
    match take_text(b) {
        Some((hash, r1)) => match take_u64(r1) {
            Some((t, r2)) => match take_text(r2) {
                Some((data, r3)) => Some((BlockView { hash, timestamp: t as i64, data }, r3)),
                None => None,
            },
            None => None,
        },
        None => None,
    }
}

/// Reads `n` blocks, one after the other.
pub open spec fn take_blocks(n: nat, b: Seq<u8>) -> Option<(Seq<BlockView>, Seq<u8>)>
    decreases n,
{
    if n == 0 {
        Some((seq![], b))
    } else {
        match take_blocks((n - 1) as nat, b) {
            Some((bs, rest)) => match take_block(rest) {
                Some((x, r)) => Some((bs.push(x), r)),
                None => None,
            },
            None => None,
        }
    }
}

pub open spec fn label_of(tag: u32) -> Option<MessageLabel> {
    if tag == 0 {
        Some(MessageLabel::AskLastBlock)
    } else if tag == 1 {
        Some(MessageLabel::SendBlock)
    } else {
        None
    }
}

/// The label tag and the blocks that a byte string starts with, if it starts
/// with them. Bytes after them are ignored.
pub open spec fn take_wire(b: Seq<u8>) -> Option<(u32, Seq<BlockView>)> {
    match take_u32(b) {
        Some((tag, r1)) => match take_u64(r1) {
            Some((n, r2)) => match take_blocks(n as nat, r2) {
                Some((blocks, _)) => Some((tag, blocks)),
                None => None,
            },
            None => None,
        },
        None => None,
    }
}

/// The message that a byte string starts with, if it starts with one. Bytes
/// after the message are ignored.
pub open spec fn parse_message(b: Seq<u8>) -> Option<MessageView> {
    match take_wire(b) {
        Some((tag, blocks)) => match label_of(tag) {
            Some(label) => Some(MessageView { label, blocks }),
            None => None,
        },
        None => None,
    }
}

/// A block read off the wire as its three fields.
pub open spec fn item_view(t: (String, i64, String)) -> BlockView {
    BlockView { hash: t.0@, timestamp: t.1, data: t.2@ }
}

proof fn lemma_u32_round_trip(x: u32)
    ensures
        le_u32(u32_le(x)) == x,
{
    let b = u32_le(x);
    let (b0, b1, b2, b3) = (b[0], b[1], b[2], b[3]);
    assert(b0 == x as u8 && b1 == (x >> 8) as u8 && b2 == (x >> 16) as u8 && b3 == (x >> 24) as u8);
    assert(((b0 as u32) | ((b1 as u32) << 8) | ((b2 as u32) << 16) | ((b3 as u32) << 24)) == x)
        by (bit_vector)
        requires
            b0 == x as u8,
            b1 == (x >> 8) as u8,
            b2 == (x >> 16) as u8,
            b3 == (x >> 24) as u8,
    ;
}

proof fn lemma_u64_round_trip(x: u64)
    ensures
        le_u64(u64_le(x)) == x,
{
    let b = u64_le(x);
    let (b0, b1, b2, b3, b4, b5, b6, b7) = (b[0], b[1], b[2], b[3], b[4], b[5], b[6], b[7]);
    assert(((b0 as u64) | ((b1 as u64) << 8) | ((b2 as u64) << 16) | ((b3 as u64) << 24) | ((
    b4 as u64) << 32) | ((b5 as u64) << 40) | ((b6 as u64) << 48) | ((b7 as u64) << 56)) == x)
        by (bit_vector)
        requires
            b0 == x as u8,
            b1 == (x >> 8) as u8,
            b2 == (x >> 16) as u8,
            b3 == (x >> 24) as u8,
            b4 == (x >> 32) as u8,
            b5 == (x >> 40) as u8,
            b6 == (x >> 48) as u8,
            b7 == (x >> 56) as u8,
    ;
}

proof fn lemma_take_u32(x: u32, rest: Seq<u8>)
    ensures
        take_u32(u32_le(x) + rest) == Some((x, rest)),
{
    lemma_u32_round_trip(x);
    let b = u32_le(x) + rest;
    assert(b.skip(4) =~= rest);
    assert(le_u32(b) == le_u32(u32_le(x)));
}

proof fn lemma_take_u64(x: u64, rest: Seq<u8>)
    ensures
        take_u64(u64_le(x) + rest) == Some((x, rest)),
{
    lemma_u64_round_trip(x);
    let b = u64_le(x) + rest;
    assert(b.skip(8) =~= rest);
    assert(le_u64(b) == le_u64(u64_le(x)));
}

proof fn lemma_take_text(s: Seq<char>, rest: Seq<u8>)
    requires
        encode_utf8(s).len() <= u64::MAX,
    ensures
        take_text(text_bytes(s) + rest) == Some((s, rest)),
{
    let e = encode_utf8(s);
    let n = e.len() as u64;
    assert(text_bytes(s) + rest =~= u64_le(n) + (e + rest));
    lemma_take_u64(n, e + rest);
    assert((e + rest).take(n as int) =~= e);
    assert((e + rest).skip(n as int) =~= rest);
    encode_utf8_valid_utf8(s);
    encode_utf8_decode_utf8(s);
}

proof fn lemma_take_block(x: BlockView, rest: Seq<u8>)
    requires
        block_fits(x),
    ensures
        take_block(block_bytes(x) + rest) == Some((x, rest)),
{
    let t = x.timestamp as u64;
    let r2 = text_bytes(x.data) + rest;
    let r1 = u64_le(t) + r2;
    assert(block_bytes(x) + rest =~= text_bytes(x.hash) + r1);
    lemma_take_text(x.hash, r1);
    lemma_take_u64(t, r2);
    lemma_take_text(x.data, rest);
    lemma_i64_u64(x.timestamp);
}

proof fn lemma_i64_u64(x: i64)
    ensures
        (x as u64) as i64 == x,
{
    assert((x as u64) as i64 == x) by (bit_vector);
}

proof fn lemma_take_blocks(bs: Seq<BlockView>, rest: Seq<u8>)
    requires
        forall|i: int| 0 <= i < bs.len() ==> block_fits(#[trigger] bs[i]),
    ensures
        take_blocks(bs.len(), blocks_bytes(bs) + rest) == Some((bs, rest)),
    decreases bs.len(),
{
    if bs.len() > 0 {
        let init = bs.drop_last();
        let tail = block_bytes(bs.last()) + rest;
        assert(blocks_bytes(bs) + rest =~= blocks_bytes(init) + tail);
        assert forall|i: int| 0 <= i < init.len() implies block_fits(#[trigger] init[i]) by {
            assert(init[i] == bs[i]);
        }
        lemma_take_blocks(init, tail);
        assert(block_fits(bs[bs.len() - 1]));
        lemma_take_block(bs.last(), rest);
        assert(init.push(bs.last()) =~= bs);
    } else {
        assert(blocks_bytes(bs) + rest =~= rest);
        assert(bs =~= seq![]);
    }
}

/// Reading back the bytes of a message gives the same message: the same
/// label and the same blocks, whatever bytes follow it.
pub proof fn lemma_round_trip(m: MessageView, rest: Seq<u8>)
    requires
        message_fits(m),
    ensures
        parse_message(message_bytes(m) + rest) == Some(m),
{
    let n = m.blocks.len() as u64;
    let r2 = blocks_bytes(m.blocks) + rest;
    let r1 = u64_le(n) + r2;
    assert(message_bytes(m) + rest =~= u32_le(label_tag(m.label)) + r1);
    lemma_take_u32(label_tag(m.label), r1);
    lemma_take_u64(n, r2);
    lemma_take_blocks(m.blocks, rest);
}

/// Relies on `bincode::serialize` of a `(u32, Vec<(&str, i64, &str)>)`. Its
/// default configuration has no size limit and writes into a `Vec`, so it does
/// not fail; it writes the `u32` in four bytes, the item count as a `u64`, and
/// each item's fields in turn: a text as its byte length as a `u64` followed
/// by its UTF-8 bytes, an `i64` in eight bytes, all least significant first.
#[verifier::external_body]
fn bincode_message(tag: u32, blocks: &Vec<Block>) -> (r: Result<Vec<u8>, Box<bincode::ErrorKind>>)
    ensures
        r is Ok,
        r matches Ok(b) ==> b@ == u32_le(tag) + u64_le(blocks@.len() as u64) + blocks_bytes(
            blocks@.map_values(|x: Block| x@),
        ),
{
    let items: Vec<(&str, i64, &str)> = blocks.iter().map(
        |b| (b.current_hash.as_str(), b.content.timestamp, b.content.data.as_str()),
    ).collect();
    bincode::serialize(&(tag, items))
}

/// Relies on `bincode::deserialize` of a `(u32, Vec<(String, i64, String)>)`,
/// the shape that `bincode_message` writes. Its default configuration reads
/// that layout back, has no size limit, fails exactly when the bytes run out
/// or a text is not valid UTF-8, and ignores the bytes after the value.
#[verifier::external_body]
fn bincode_read_message(b: &[u8]) -> (r: Result<
    (u32, Vec<(String, i64, String)>),
    Box<bincode::ErrorKind>,
>)
    ensures
        r is Ok <==> take_wire(b@) is Some,
        r matches Ok(v) ==> take_wire(b@) == Some(
            (v.0, v.1@.map_values(|t: (String, i64, String)| item_view(t))),
        ),
{
    bincode::deserialize(b)
}

/// The bytes that stand for `message` on the wire.
pub fn encode_message(message: &Message) -> (r: Vec<u8>)
    ensures
        r@ == message_bytes(message@),
{
    let r = bincode_message(label_tag_of(message.label), &message.blocks);
    r.unwrap()
}

fn label_tag_of(l: MessageLabel) -> (r: u32)
    ensures
        r == label_tag(l),
{
    match l {
        MessageLabel::AskLastBlock => 0,
        MessageLabel::SendBlock => 1,
    }
}

/// The message that `bytes` start with. Bytes after it are ignored.
pub fn decode_message(bytes: &[u8]) -> (r: Result<Message, CodecError>)
    ensures
        r is Ok <==> parse_message(bytes@) is Some,
        r matches Ok(m) ==> parse_message(bytes@) == Some(m@),
        r matches Err(e) ==> e == CodecError::Malformed,
{
    let (tag, items) = match bincode_read_message(bytes) {
        Ok(v) => v,
        Err(_) => {
            return Err(CodecError::Malformed);
        },
    };
    let label = if tag == 0 {
        MessageLabel::AskLastBlock
    } else if tag == 1 {
        MessageLabel::SendBlock
    } else {
        return Err(CodecError::Malformed);
    };
    let ghost wire = items@.map_values(|t: (String, i64, String)| item_view(t));
    let mut blocks: Vec<Block> = Vec::new();
    let mut i: usize = 0;
    while i < items.len()
        invariant
            i <= items@.len(),
            wire == items@.map_values(|t: (String, i64, String)| item_view(t)),
            blocks@.map_values(|x: Block| x@) == wire.take(i as int),
        decreases items@.len() - i,
    {
        let item = &items[i];
        let block = Block {
            current_hash: item.0.clone(),
            content: Content { timestamp: item.1, data: item.2.clone() },
        };
        let ghost before = blocks@.map_values(|x: Block| x@);
        blocks.push(block);
        proof {
            assert(blocks@.map_values(|x: Block| x@) =~= before.push(block@));
            assert(wire.take(i + 1) =~= wire.take(i as int).push(wire[i as int]));
        }
        i = i + 1;
    }
    let message = Message { blocks, label };
    proof {
        assert(wire.take(i as int) =~= wire);
        assert(message@.blocks =~= blocks@.map_values(|x: Block| x@));
    }
    Ok(message)
}

} // verus!
