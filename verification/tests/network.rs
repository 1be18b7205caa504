use siertrichain::blockchain::Blockchain;
use siertrichain::errors::TriangleError;
use siertrichain::genesis::GenesisTriangle;
use siertrichain::network::{Message, serialize_message, deserialize_message};
use siertrichain::transaction::{Transaction, TriangleOperation};

#[test]
fn test_message_round_trip_simple() {
    let bytes = serialize_message(&Message::GetPeers);
    assert_eq!(bytes, vec![0u8]);
    let back = deserialize_message(&bytes).unwrap();
    assert!(matches!(back, Message::GetPeers));

    let peers = Message::Peers(vec!["127.0.0.1:9000".to_string(), String::new()]);
    let bytes = serialize_message(&peers);
    let back = deserialize_message(&bytes).unwrap();
    // decoding then re-encoding reproduces the bytes exactly
    assert_eq!(serialize_message(&back), bytes);

    let get_blocks = Message::GetBlocks(vec![[7u8; 32], [9u8; 32]]);
    let bytes = serialize_message(&get_blocks);
    let back = deserialize_message(&bytes).unwrap();
    assert_eq!(serialize_message(&back), bytes);
}

#[test]
fn test_message_round_trip_blocks_and_tx() {
    let mut csprng = rand::thread_rng();
    let keypair = ed25519_dalek::Keypair::generate(&mut csprng);
    let tx = Transaction::new(
        TriangleOperation::Create(GenesisTriangle::new()), &keypair);
    let bytes = serialize_message(&Message::NewTransaction(tx));
    let back = deserialize_message(&bytes).unwrap();
    assert_eq!(serialize_message(&back), bytes);
    // the decoded transaction still verifies
    match back {
        Message::NewTransaction(t) => assert!(t.validate()),
        _ => panic!("wrong variant"),
    }

    let chain = Blockchain::new();
    let blocks = Message::Blocks(vec![chain.latest_block().clone()]);
    let bytes = serialize_message(&blocks);
    let back = deserialize_message(&bytes).unwrap();
    assert_eq!(serialize_message(&back), bytes);
}

#[test]
fn test_malformed_messages_fail_closed() {
    assert!(matches!(deserialize_message(&vec![]),
        Err(TriangleError::MalformedMessage)));
    // unknown tag
    assert!(matches!(deserialize_message(&vec![9u8]),
        Err(TriangleError::MalformedMessage)));
    // trailing garbage
    assert!(matches!(deserialize_message(&vec![0u8, 0u8]),
        Err(TriangleError::MalformedMessage)));
    // truncated payload
    let peers = Message::Peers(vec!["node".to_string()]);
    let mut bytes = serialize_message(&peers);
    bytes.pop();
    assert!(matches!(deserialize_message(&bytes),
        Err(TriangleError::MalformedMessage)));
    // a length prefix far past the end of the input
    assert!(matches!(deserialize_message(&vec![1u8, 255, 255, 255, 255, 255, 255, 255, 255]),
        Err(TriangleError::MalformedMessage)));
}
