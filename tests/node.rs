use blocks::block::{Block, Content};
use blocks::chain::ChainStore;
use blocks::codec::decode_message;
use blocks::message::{Message, MessageLabel};
use blocks::node::{
    block_announcement, broadcast_payload, last_block_bytes, Broadcast, PeerOutcome,
};

fn block(hash: &str, timestamp: i64, data: &str) -> Block {
    Block::new(hash.to_string(), Content::new(timestamp, data.to_string()))
}

#[test]
fn unreachable_then_reachable_peer() {
    let sent = block("A", 1, "genesis");
    let payload = broadcast_payload(sent.clone());
    let mut broadcast = Broadcast::new(2);
    assert_eq!(broadcast.next_peer(), Some(0));
    assert_eq!(broadcast.record(false), PeerOutcome::Skipped);
    assert_eq!(broadcast.next_peer(), Some(1));
    assert_eq!(broadcast.record(true), PeerOutcome::Delivered);
    assert_eq!(broadcast.next_peer(), None);
    assert!(broadcast.is_finished());
    assert_eq!(broadcast.outcomes(), &vec![PeerOutcome::Skipped, PeerOutcome::Delivered]);
    let received = decode_message(&payload).unwrap();
    assert_eq!(received.get_label(), MessageLabel::SendBlock);
    assert_eq!(received.get_blocks(), &vec![sent]);
}

#[test]
fn every_peer_visited_whatever_the_order() {
    let reach = [true, false, false, true, true, false];
    let mut broadcast = Broadcast::new(reach.len());
    let mut visited = 0;
    while let Some(i) = broadcast.next_peer() {
        assert_eq!(i, visited);
        broadcast.record(reach[i]);
        visited += 1;
    }
    assert_eq!(visited, reach.len());
    let expected: Vec<PeerOutcome> = reach
        .iter()
        .map(|r| if *r { PeerOutcome::Delivered } else { PeerOutcome::Skipped })
        .collect();
    assert_eq!(broadcast.outcomes(), &expected);
}

#[test]
fn broadcast_to_no_peer_is_finished() {
    let broadcast = Broadcast::new(0);
    assert!(broadcast.is_finished());
    assert_eq!(broadcast.next_peer(), None);
    assert!(broadcast.outcomes().is_empty());
}

#[test]
fn announcement_holds_the_block() {
    let b = block("X", 3, "data");
    assert_eq!(block_announcement(b.clone()), Message::new(vec![b], MessageLabel::SendBlock));
}

#[test]
fn last_block_reply_bytes_decode() {
    let chain = ChainStore::from_blocks(vec![block("A", 1, "genesis")]);
    let bytes = last_block_bytes(&chain);
    let reply = decode_message(&bytes).unwrap();
    assert_eq!(reply, Message::new(vec![block("A", 1, "genesis")], MessageLabel::SendBlock));
    let empty = last_block_bytes(&ChainStore::new());
    assert_eq!(decode_message(&empty), Ok(Message::new(Vec::new(), MessageLabel::SendBlock)));
}
