use hashchain_node::block::Block;
use hashchain_node::codec::DecodeError;
use hashchain_node::network::{
    decode_package, encode_package, send_block, send_get_blocks, send_get_data, send_inv,
    send_tx, send_version, OpType, Package, NODE_VERSION,
};
use hashchain_node::transaction::Transaction;

#[test]
fn version_round_trip() {
    let p = send_version("127.0.0.1:3000", 42);
    match &p {
        Package::Version { addr_from, version, best_height } => {
            assert_eq!(addr_from, "127.0.0.1:3000");
            assert_eq!(*version, NODE_VERSION);
            assert_eq!(*best_height, 42);
        }
        other => panic!("wrong variant: {:?}", other),
    }
    let back = decode_package(encode_package(&p).as_slice()).unwrap();
    match back {
        Package::Version { addr_from, version, best_height } => {
            assert_eq!(addr_from, "127.0.0.1:3000");
            assert_eq!(version, NODE_VERSION);
            assert_eq!(best_height, 42);
        }
        other => panic!("wrong variant: {:?}", other),
    }
}

#[test]
fn get_blocks_round_trip() {
    let p = send_get_blocks("n1:1");
    let back = decode_package(encode_package(&p).as_slice()).unwrap();
    match back {
        Package::GetBlocks { addr_from } => assert_eq!(addr_from, "n1:1"),
        other => panic!("wrong variant: {:?}", other),
    }
}

#[test]
fn inv_round_trip() {
    let items = vec![vec![1u8, 2, 3], vec![], vec![255u8; 40]];
    let p = send_inv("n1:1", OpType::BlockType, &items);
    let back = decode_package(encode_package(&p).as_slice()).unwrap();
    match back {
        Package::Inv { addr_from, op_type, items: got } => {
            assert_eq!(addr_from, "n1:1");
            assert!(matches!(op_type, OpType::BlockType));
            assert_eq!(got, items);
        }
        other => panic!("wrong variant: {:?}", other),
    }
}

#[test]
fn get_data_round_trip() {
    let p = send_get_data("n1:1", OpType::TxType, &[9u8, 8, 7]);
    let back = decode_package(encode_package(&p).as_slice()).unwrap();
    match back {
        Package::GetData { addr_from, op_type, id } => {
            assert_eq!(addr_from, "n1:1");
            assert!(matches!(op_type, OpType::TxType));
            assert_eq!(id, vec![9u8, 8, 7]);
        }
        other => panic!("wrong variant: {:?}", other),
    }
}

#[test]
fn block_message_carries_the_binary_record() {
    let tx = Transaction::new_coinbase_tx("genesis");
    let block = Block::generate_genesis_block(&tx);
    let p = send_block("n1:1", &block);
    match &p {
        Package::Block { block: bytes, .. } => assert_eq!(*bytes, block.serialize()),
        other => panic!("wrong variant: {:?}", other),
    }
    let back = decode_package(encode_package(&p).as_slice()).unwrap();
    match back {
        Package::Block { addr_from, block: bytes } => {
            assert_eq!(addr_from, "n1:1");
            assert_eq!(Block::deserialize(bytes.as_slice()).unwrap(), block);
        }
        other => panic!("wrong variant: {:?}", other),
    }
}

#[test]
fn tx_message_carries_the_binary_record() {
    let tx = Transaction::new_coinbase_tx("carol");
    let p = send_tx("n1:1", &tx);
    let back = decode_package(encode_package(&p).as_slice()).unwrap();
    match back {
        Package::Tx { addr_from, transaction } => {
            assert_eq!(addr_from, "n1:1");
            assert_eq!(Transaction::deserialize(transaction.as_slice()).unwrap(), tx);
        }
        other => panic!("wrong variant: {:?}", other),
    }
}

#[test]
fn decode_rejects_malformed_input() {
    assert_eq!(decode_package(&[]).err(), Some(DecodeError::Malformed));
    // unknown tag
    assert_eq!(
        decode_package(&[9, 0, 0, 0, 0, 0, 0, 0, 0]).err(),
        Some(DecodeError::Malformed)
    );
    // truncated payload
    let good = encode_package(&send_get_blocks("n1:1"));
    assert_eq!(
        decode_package(&good[..good.len() - 1]).err(),
        Some(DecodeError::Malformed)
    );
    // trailing bytes
    let mut trailing = good.clone();
    trailing.push(0);
    assert_eq!(decode_package(trailing.as_slice()).err(), Some(DecodeError::Malformed));
    // sender that is not UTF-8
    let mut bad_str = vec![1u8];
    bad_str.extend_from_slice(&1u64.to_be_bytes());
    bad_str.push(0xff);
    assert_eq!(decode_package(bad_str.as_slice()).err(), Some(DecodeError::Malformed));
}
