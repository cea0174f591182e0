use hashchain_node::block::Block;
use hashchain_node::proof_of_work::{hash_matches_target, MiningError, ProofOfWork};
use hashchain_node::transaction::Transaction;
use sha2::Digest;

fn sha2_of(data: &[u8]) -> Vec<u8> {
    let mut h = sha2::Sha256::new();
    h.update(data);
    h.finalize().to_vec()
}

fn trial_hex(block: &Block, nonce: u64) -> String {
    let mut trial = block.header_bytes();
    trial.extend_from_slice(&nonce.to_be_bytes());
    data_encoding::HEXLOWER.encode(&sha2_of(&trial))
}

#[test]
fn difficulty_zero_accepts_the_first_nonce() {
    let tx = Transaction::new_coinbase_tx("miner");
    let block = Block::generate_genesis_block(&tx);
    let pow = ProofOfWork::new(block, 0);
    let (nonce, hex) = pow.run(1).unwrap();
    assert_eq!(nonce, 0);
    assert_eq!(hex, trial_hex(&pow.block, 0));
}

#[test]
fn mining_returns_a_winning_and_reverifiable_pair() {
    let tx = Transaction::new_coinbase_tx("miner");
    let block = Block::generate_genesis_block(&tx);
    let pow = ProofOfWork::new(block, 1);
    let (nonce, hex) = pow.run(1_000_000).unwrap();
    // the returned hash satisfies the difficulty predicate
    assert!(hex.starts_with("0"));
    // re-deriving the hash from the header bytes and the nonce agrees
    assert_eq!(hex, trial_hex(&pow.block, nonce));
    // no earlier nonce wins
    for earlier in 0..nonce {
        assert!(!trial_hex(&pow.block, earlier).starts_with("0"));
    }
}

#[test]
fn mining_exhaustion_is_reported() {
    let tx = Transaction::new_coinbase_tx("miner");
    let block = Block::generate_genesis_block(&tx);
    let pow = ProofOfWork::new(block, 1);
    assert_eq!(pow.run(0), Err(MiningError::Exhausted));
    // 64 leading zeroes of a 64-digit rendering never happen in one try
    let hopeless = ProofOfWork::new(Block::generate_genesis_block(&tx), 65);
    assert_eq!(hopeless.run(3), Err(MiningError::Exhausted));
}

#[test]
fn hash_matches_target_counts_leading_zero_digits() {
    // 0x0f renders as "0f": one leading zero digit, not two
    assert!(hash_matches_target(&[0x0f], 0));
    assert!(hash_matches_target(&[0x0f], 1));
    assert!(!hash_matches_target(&[0x0f], 2));
    // 0x00 renders as "00"
    assert!(hash_matches_target(&[0x00], 2));
    assert!(!hash_matches_target(&[0x00], 3));
    // 0xf0 renders as "f0"
    assert!(!hash_matches_target(&[0xf0], 1));
    // the target cannot exceed the rendering's length
    assert!(!hash_matches_target(&[0x00, 0x00], 5));
}
