use hashchain_node::block::Block;
use hashchain_node::codec::DecodeError;
use hashchain_node::transaction::Transaction;
use sha2::Digest;

fn sha2_of(data: &[u8]) -> Vec<u8> {
    let mut h = sha2::Sha256::new();
    h.update(data);
    h.finalize().to_vec()
}

#[test]
fn coinbase_has_fixed_payload_and_content_address() {
    let tx = Transaction::new_coinbase_tx("genesis");
    assert_eq!(tx.data, b"Coinbase to: genesis".to_vec());
    assert_eq!(tx.id, sha2_of(b"Coinbase to: genesis"));
}

#[test]
fn transaction_round_trip() {
    let tx = Transaction::new_coinbase_tx("alice");
    let raw = tx.serialize();
    let back = Transaction::deserialize(raw.as_slice()).unwrap();
    assert_eq!(back, tx);
}

#[test]
fn transaction_deserialize_rejects_truncated() {
    let tx = Transaction::new_coinbase_tx("alice");
    let raw = tx.serialize();
    assert_eq!(
        Transaction::deserialize(&raw[..raw.len() - 1]),
        Err(DecodeError::Malformed)
    );
    assert_eq!(Transaction::deserialize(&[]), Err(DecodeError::Malformed));
}

#[test]
fn transaction_deserialize_rejects_trailing_bytes() {
    let tx = Transaction::new_coinbase_tx("alice");
    let mut raw = tx.serialize();
    raw.push(0);
    assert_eq!(Transaction::deserialize(raw.as_slice()), Err(DecodeError::Malformed));
}

#[test]
fn header_bytes_layout_is_exact() {
    let tx = Transaction::new_coinbase_tx("genesis");
    let genesis = Block::generate_genesis_block(&tx);
    let block = Block::new_block(genesis.get_hash(), vec![tx.clone()], 1);
    let mut expected = Vec::new();
    expected.extend_from_slice(genesis.hash.as_slice());
    expected.extend_from_slice(&block.timestamp.to_be_bytes());
    expected.extend_from_slice(&1u64.to_be_bytes());
    expected.extend_from_slice(tx.id.as_slice());
    assert_eq!(block.header_bytes(), expected);
}

#[test]
fn new_block_hash_is_digest_of_header() {
    let tx = Transaction::new_coinbase_tx("genesis");
    let block = Block::generate_genesis_block(&tx);
    assert_eq!(block.hash, sha2_of(block.header_bytes().as_slice()));
}

#[test]
fn genesis_block_is_height_zero_with_empty_prev_hash() {
    let tx = Transaction::new_coinbase_tx("genesis");
    let genesis = Block::generate_genesis_block(&tx);
    assert_eq!(genesis.get_height(), 0);
    assert!(genesis.prev_hash.is_empty());
    let child = Block::new_block(genesis.get_hash(), vec![tx], 1);
    assert_eq!(child.get_height(), 1);
    assert!(!child.prev_hash.is_empty());
}

#[test]
fn block_round_trip() {
    let tx = Transaction::new_coinbase_tx("genesis");
    let genesis = Block::generate_genesis_block(&tx);
    let other = Transaction::new_coinbase_tx("bob");
    let block = Block::new_block(genesis.get_hash(), vec![tx, other], 1);
    let raw = block.serialize();
    let back = Block::deserialize(raw.as_slice()).unwrap();
    assert_eq!(back, block);
}

#[test]
fn block_round_trip_with_no_transactions() {
    let block = Block::new_block(vec![7u8; 32], vec![], 3);
    let back = Block::deserialize(block.serialize().as_slice()).unwrap();
    assert_eq!(back, block);
}

#[test]
fn block_deserialize_rejects_malformed() {
    let tx = Transaction::new_coinbase_tx("genesis");
    let block = Block::generate_genesis_block(&tx);
    let raw = block.serialize();
    assert_eq!(Block::deserialize(&raw[..raw.len() - 1]), Err(DecodeError::Malformed));
    assert_eq!(Block::deserialize(&[]), Err(DecodeError::Malformed));
    let mut trailing = raw.clone();
    trailing.push(1);
    assert_eq!(Block::deserialize(trailing.as_slice()), Err(DecodeError::Malformed));
}

#[test]
fn block_get_transactions_returns_contents() {
    let tx = Transaction::new_coinbase_tx("genesis");
    let block = Block::generate_genesis_block(&tx);
    let txs = block.get_transactions();
    assert_eq!(txs.len(), 1);
    assert_eq!(txs[0].get_id(), &tx.id);
}
