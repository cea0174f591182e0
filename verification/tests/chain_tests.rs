use hashchain_node::block::Block;
use hashchain_node::chain::{Chain, ChainError};
use hashchain_node::transaction::Transaction;
use sha2::Digest;

fn sha2_of(data: &[u8]) -> Vec<u8> {
    let mut h = sha2::Sha256::new();
    h.update(data);
    h.finalize().to_vec()
}

fn genesis_chain() -> (Chain, Block) {
    let coinbase = Transaction::new_coinbase_tx("genesis");
    let genesis = Block::generate_genesis_block(&coinbase);
    (Chain::new_genesis(genesis.clone()), genesis)
}

#[test]
fn scenario_tip_advances_on_strictly_greater_height() {
    // A fresh store: the tip is the genesis block, whose sole transaction
    // is the coinbase for "genesis".
    let (mut chain, genesis) = genesis_chain();
    assert_eq!(chain.tip_height(), 0);
    assert_eq!(chain.tip_hash(), genesis.get_hash());
    let tip = chain.get_block(genesis.get_hash().as_slice()).unwrap();
    assert_eq!(tip.get_transactions().len(), 1);
    assert_eq!(tip.get_transactions()[0].get_id(), &sha2_of(b"Coinbase to: genesis"));

    // A block at height 1 referencing the genesis hash advances the tip.
    let b1 = Block::new_block(
        genesis.get_hash(),
        vec![Transaction::new_coinbase_tx("first")],
        1,
    );
    assert_eq!(chain.add_block(&b1), Ok(()));
    assert_eq!(chain.tip_height(), 1);
    assert_eq!(chain.tip_hash(), b1.get_hash());

    // A second, different block at the same height leaves the tip alone:
    // first seen wins on ties.
    let b1_rival = Block::new_block(
        genesis.get_hash(),
        vec![Transaction::new_coinbase_tx("rival")],
        1,
    );
    assert_ne!(b1_rival.get_hash(), b1.get_hash());
    assert_eq!(chain.add_block(&b1_rival), Ok(()));
    assert_eq!(chain.tip_height(), 1);
    assert_eq!(chain.tip_hash(), b1.get_hash());

    // A block at height 2 referencing the first height-1 block advances
    // the tip again.
    let b2 = Block::new_block(b1.get_hash(), vec![Transaction::new_coinbase_tx("second")], 2);
    assert_eq!(chain.add_block(&b2), Ok(()));
    assert_eq!(chain.tip_height(), 2);
    assert_eq!(chain.tip_hash(), b2.get_hash());
    assert_eq!(chain.len(), 4);

    // every non-genesis block resolves to a stored predecessor one below it
    for hash in [b1.get_hash(), b1_rival.get_hash(), b2.get_hash()] {
        let b = chain.get_block(hash.as_slice()).unwrap();
        let parent = chain.get_block(b.prev_hash.as_slice()).unwrap();
        assert_eq!(parent.get_height() + 1, b.get_height());
    }
}

#[test]
fn add_block_twice_changes_nothing() {
    let (mut chain, genesis) = genesis_chain();
    let b1 = Block::new_block(genesis.get_hash(), vec![Transaction::new_coinbase_tx("a")], 1);
    assert_eq!(chain.add_block(&b1), Ok(()));
    let len_before = chain.len();
    let tip_before = chain.tip_hash();
    assert_eq!(chain.add_block(&b1), Ok(()));
    assert_eq!(chain.len(), len_before);
    assert_eq!(chain.tip_hash(), tip_before);
}

#[test]
fn add_block_rejects_unknown_ancestry() {
    let (mut chain, _genesis) = genesis_chain();
    let orphan = Block::new_block(vec![0xabu8; 32], vec![], 5);
    assert_eq!(chain.add_block(&orphan), Err(ChainError::BadAncestry));
    assert_eq!(chain.len(), 1);
    assert_eq!(chain.tip_height(), 0);
}

#[test]
fn add_block_rejects_wrong_successor_height() {
    let (mut chain, genesis) = genesis_chain();
    let skipping = Block::new_block(genesis.get_hash(), vec![], 2);
    assert_eq!(chain.add_block(&skipping), Err(ChainError::BadAncestry));
    let second_genesis = Block::generate_genesis_block(&Transaction::new_coinbase_tx("other"));
    assert_eq!(chain.add_block(&second_genesis), Err(ChainError::BadAncestry));
}

#[test]
fn tip_height_never_decreases() {
    let (mut chain, genesis) = genesis_chain();
    let mut highest = chain.tip_height();
    let b1 = Block::new_block(genesis.get_hash(), vec![Transaction::new_coinbase_tx("x")], 1);
    let b1b = Block::new_block(genesis.get_hash(), vec![Transaction::new_coinbase_tx("y")], 1);
    let b2 = Block::new_block(b1.get_hash(), vec![], 2);
    for b in [&b1, &b1b, &b2, &b1, &b1b] {
        let _ = chain.add_block(b);
        assert!(chain.tip_height() >= highest);
        highest = chain.tip_height();
    }
    assert_eq!(highest, 2);
}

#[test]
fn contains_hash_tracks_inserts() {
    let (mut chain, genesis) = genesis_chain();
    let b1 = Block::new_block(genesis.get_hash(), vec![], 1);
    assert!(chain.contains_hash(genesis.get_hash().as_slice()));
    assert!(!chain.contains_hash(b1.get_hash().as_slice()));
    chain.add_block(&b1).unwrap();
    assert!(chain.contains_hash(b1.get_hash().as_slice()));
    assert!(chain.get_block(b1.get_hash().as_slice()).is_some());
    assert!(chain.get_block(&[0u8; 32]).is_none());
}

#[test]
fn from_blocks_accepts_a_valid_store() {
    let (mut chain, genesis) = genesis_chain();
    let b1 = Block::new_block(genesis.get_hash(), vec![Transaction::new_coinbase_tx("a")], 1);
    chain.add_block(&b1).unwrap();
    let rebuilt =
        Chain::from_blocks(vec![b1.clone(), genesis.clone()], b1.get_hash().as_slice()).unwrap();
    assert_eq!(rebuilt.tip_height(), 1);
    assert_eq!(rebuilt.tip_hash(), b1.get_hash());
}

#[test]
fn from_blocks_rebuilds_from_serialized_records() {
    let (mut chain, genesis) = genesis_chain();
    let b1 = Block::new_block(genesis.get_hash(), vec![Transaction::new_coinbase_tx("a")], 1);
    chain.add_block(&b1).unwrap();
    let records = vec![genesis.serialize(), b1.serialize()];
    let mut loaded = Vec::new();
    for r in &records {
        loaded.push(Block::deserialize(r.as_slice()).unwrap());
    }
    let rebuilt = Chain::from_blocks(loaded, b1.get_hash().as_slice()).unwrap();
    assert_eq!(rebuilt.tip_hash(), chain.tip_hash());
    assert_eq!(rebuilt.tip_height(), chain.tip_height());
}

#[test]
fn from_blocks_rejects_corruption() {
    let (_, genesis) = genesis_chain();
    let b1 = Block::new_block(genesis.get_hash(), vec![], 1);
    // empty store
    assert_eq!(
        Chain::from_blocks(vec![], genesis.get_hash().as_slice()).err(),
        Some(ChainError::CorruptStore)
    );
    // tip hash resolving to no record
    assert_eq!(
        Chain::from_blocks(vec![genesis.clone()], b1.get_hash().as_slice()).err(),
        Some(ChainError::CorruptStore)
    );
    // duplicate record
    assert_eq!(
        Chain::from_blocks(
            vec![genesis.clone(), genesis.clone()],
            genesis.get_hash().as_slice()
        )
        .err(),
        Some(ChainError::CorruptStore)
    );
    // a block whose predecessor is absent
    assert_eq!(
        Chain::from_blocks(vec![genesis.clone(), b1.clone()], b1.get_hash().as_slice())
            .map(|_| ())
            .err(),
        None
    );
    let orphan = Block::new_block(vec![9u8; 32], vec![], 1);
    assert_eq!(
        Chain::from_blocks(
            vec![genesis.clone(), orphan.clone()],
            orphan.get_hash().as_slice()
        )
        .err(),
        Some(ChainError::CorruptStore)
    );
    // the recorded tip is not the highest block
    assert_eq!(
        Chain::from_blocks(
            vec![genesis.clone(), b1.clone()],
            genesis.get_hash().as_slice()
        )
        .err(),
        Some(ChainError::CorruptStore)
    );
}
