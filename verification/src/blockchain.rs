//! The durable chain store: block records keyed by hash in one tree of an
//! embedded key-value store, plus one reserved key holding the tip hash.
//! The in-memory model is authoritative for the contracts; every write
//! that changes it goes to the backing store first, the insert of a block
//! and the rewrite of the tip key in one atomic unit.

use vstd::prelude::*;
use std::collections::HashMap;
use crate::block::Block;
use crate::block::BlockModel;
use crate::block::block_wf;
use crate::chain::Chain;
use crate::chain::ChainError;
use crate::chain::has_block;
use crate::chain::links_ok;
use crate::codec::clone_bytes;
use crate::codec::eq_bytes;
use crate::hashing::hex_encode;
use crate::hashing::hex_of_bytes;
use crate::transaction::Transaction;

verus! {

#[verifier::external_type_specification]
#[verifier::external_body]
pub struct ExDb(sled::Db);

#[verifier::external_type_specification]
#[verifier::external_body]
pub struct ExTree(sled::Tree);

/// The name of the tree inside the store that holds the block records.
pub const BLOCKS_TREE: &'static str = "blocks_tree";

/// The reserved key under which the tip hash is recorded.
pub open spec fn tip_key() -> Seq<u8> {
    seq![76u8]
}

/// The reserved key, as bytes. It can never collide with a block record:
/// block keys are 32-byte hashes, this key is a single byte.
pub fn tip_key_bytes() -> (r: Vec<u8>)
    ensures
        r@ == tip_key(),
{
    let mut v: Vec<u8> = Vec::new();
    v.push(76u8);
    proof {
        assert(v@ =~= tip_key());
    }
    v
}

/// Relies on sled::open: opens or creates the store at `path`. Nothing is
/// promised of what the disk holds.
#[verifier::external_body]
fn open_db(path: &str) -> (r: Result<sled::Db, ChainError>)
    ensures
        r is Err ==> r->Err_0 == ChainError::StorageInit,
{
    match sled::open(path) {
        Ok(db) => Ok(db),
        Err(_) => Err(ChainError::StorageInit),
    }
}

/// Relies on sled::Db::open_tree: opens the named tree.
#[verifier::external_body]
fn open_tree(db: &sled::Db, name: &str) -> (r: Result<sled::Tree, ChainError>)
    ensures
        r is Err ==> r->Err_0 == ChainError::StorageInit,
{
    match db.open_tree(name) {
        Ok(tree) => Ok(tree),
        Err(_) => Err(ChainError::StorageInit),
    }
}

/// Relies on sled::Tree::insert: writes one record.
#[verifier::external_body]
fn tree_insert(tree: &sled::Tree, key: &[u8], value: &[u8]) -> (r: Result<(), ChainError>)
    ensures
        r is Err ==> r->Err_0 == ChainError::Storage,
{
    match tree.insert(key, value) {
        Ok(_) => Ok(()),
        Err(_) => Err(ChainError::Storage),
    }
}

/// Relies on sled::Tree::transaction: writes the two records in one
/// atomic unit, so a crash never leaves one without the other.
#[verifier::external_body]
fn tree_insert_two(
    tree: &sled::Tree,
    k1: &[u8],
    v1: &[u8],
    k2: &[u8],
    v2: &[u8],
) -> (r: Result<(), ChainError>)
    ensures
        r is Err ==> r->Err_0 == ChainError::Storage,
{
    let outcome: sled::transaction::TransactionResult<(), ()> = tree.transaction(|t| {
        t.insert(k1, v1)?;
        t.insert(k2, v2)?;
        Ok(())
    });
    match outcome {
        Ok(()) => Ok(()),
        Err(_) => Err(ChainError::Storage),
    }
}

/// Relies on sled::Tree::iter: every record of the tree, as plain byte
/// pairs. Nothing is promised of what the disk holds.
#[verifier::external_body]
fn load_entries(tree: &sled::Tree) -> (r: Result<Vec<(Vec<u8>, Vec<u8>)>, ChainError>)
    ensures
        r is Err ==> r->Err_0 == ChainError::StorageInit,
{
    let mut out: Vec<(Vec<u8>, Vec<u8>)> = Vec::new();
    for item in tree.iter() {
        match item {
            Ok((k, v)) => out.push((k.to_vec(), v.to_vec())),
            Err(_) => {
                return Err(ChainError::StorageInit);
            },
        }
    }
    Ok(out)
}

/// The durable chain store: the backing store handles and the in-memory
/// model of its contents.
pub struct Blockchain {
    db: sled::Db,
    tree: sled::Tree,
    chain: Chain,
}

impl Blockchain {
    /// The stored blocks, as mathematical values.
    pub closed spec fn chain_view(self) -> Seq<BlockModel> {
        self.chain.blocks_view()
    }

    /// The tip block.
    pub closed spec fn tip(self) -> BlockModel {
        self.chain.tip()
    }

    /// The store's invariant, carried by the in-memory model.
    pub closed spec fn wf(self) -> bool {
        self.chain.wf()
    }

    /// Opens the store at `path`. A fresh store is seeded with a genesis
    /// block rewarding `genesis_address`, written together with the tip
    /// key in one atomic unit; an existing store is decoded and validated
    /// in full before its tip is trusted, and rejected as corrupt
    /// otherwise.
    pub fn create_blockchain(path: &str, genesis_address: &str) -> (r: Result<
        Blockchain,
        ChainError,
    >)
        ensures
            (r matches Ok(bc) ==> bc.wf()),
    {
        let db = match open_db(path) {
            Ok(d) => d,
            Err(e) => {
                return Err(e);
            },
        };
        let tree = match open_tree(&db, BLOCKS_TREE) {
            Ok(t) => t,
            Err(e) => {
                return Err(e);
            },
        };
        let entries = match load_entries(&tree) {
            Ok(es) => es,
            Err(e) => {
                return Err(e);
            },
        };
        if entries.len() == 0 {
            let coinbase = Transaction::new_coinbase_tx(genesis_address);
            let genesis = Block::generate_genesis_block(&coinbase);
            let genesis_hash = genesis.get_hash();
            let record = genesis.serialize();
            let tk = tip_key_bytes();
            match tree_insert_two(
                &tree,
                genesis_hash.as_slice(),
                record.as_slice(),
                tk.as_slice(),
                genesis_hash.as_slice(),
            ) {
                Ok(()) => {},
                Err(e) => {
                    return Err(e);
                },
            }
            let chain = Chain::new_genesis(genesis);
            Ok(Blockchain { db, tree, chain })
        } else {
            let mut blocks: Vec<Block> = Vec::new();
            let mut tip_hash: Option<Vec<u8>> = None;
            let mut i: usize = 0;
            while i < entries.len()
                decreases entries@.len() - i,
            {
                let tk = tip_key_bytes();
                if eq_bytes(entries[i].0.as_slice(), tk.as_slice()) {
                    tip_hash = Some(clone_bytes(entries[i].1.as_slice()));
                } else {
                    let b = match Block::deserialize(entries[i].1.as_slice()) {
                        Ok(b) => b,
                        Err(_) => {
                            return Err(ChainError::CorruptStore);
                        },
                    };
                    if !eq_bytes(entries[i].0.as_slice(), b.hash.as_slice()) {
                        return Err(ChainError::CorruptStore);
                    }
                    blocks.push(b);
                }
                i += 1;
            }
            let th = match tip_hash {
                Some(t) => t,
                None => {
                    return Err(ChainError::CorruptStore);
                },
            };
            let chain = match Chain::from_blocks(blocks, th.as_slice()) {
                Ok(c) => c,
                Err(e) => {
                    return Err(e);
                },
            };
            Ok(Blockchain { db, tree, chain })
        }
    }

    /// Opens the store at the default location with the default genesis
    /// address.
    pub fn new_blockchain() -> (r: Result<Blockchain, ChainError>)
        ensures
            (r matches Ok(bc) ==> bc.wf()),
    {
        Blockchain::create_blockchain("data", "genesis-address")
    }

    /// The backing store handle.
    pub fn get_db(&self) -> &sled::Db {
        &self.db
    }

    /// The tip hash, rendered as lowercase hexadecimal.
    pub fn get_tip_hash(&self) -> (r: String)
        requires
            self.wf(),
        ensures
            r@ == hex_of_bytes(self.tip().hash),
    {
        let h = self.chain.tip_hash();
        hex_encode(h.as_slice())
    }

    /// The tip block's height.
    pub fn get_tip_height(&self) -> (r: u64)
        requires
            self.wf(),
        ensures
            r == self.tip().height,
    {
        self.chain.tip_height()
    }

    /// The in-memory model of the store's contents.
    pub fn store(&self) -> (r: &Chain)
        ensures
            r.wf() == self.wf(),
            r.blocks_view() == self.chain_view(),
            r.tip() == self.tip(),
    {
        &self.chain
    }

    /// Adds a block: persists it (and, when it advances the tip, the new
    /// tip key, in the same atomic unit), then applies it to the model. A
    /// block already stored is accepted again without any effect; a new
    /// block is accepted exactly when it extends a stored block and the
    /// write succeeds, and becomes the tip exactly when its height is
    /// strictly greater than the tip's. The tip's height never decreases,
    /// and nothing changes on a failed write.
    pub fn add_block(&mut self, block: &Block) -> (r: Result<(), ChainError>)
        requires
            old(self).wf(),
            block_wf(block@),
        ensures
            final(self).wf(),
            final(self).tip().height >= old(self).tip().height,
            (if has_block(old(self).chain_view(), block@.hash) {
                r == Ok::<(), ChainError>(()) && final(self).chain_view() == old(self).chain_view()
                    && final(self).tip() == old(self).tip()
            } else if links_ok(old(self).chain_view(), block@) {
                (r == Ok::<(), ChainError>(()) && final(self).chain_view() == old(
                    self,
                ).chain_view().push(block@) && final(self).tip() == (if block@.height > old(
                    self,
                ).tip().height {
                    block@
                } else {
                    old(self).tip()
                })) || (r == Err::<(), ChainError>(ChainError::Storage) && final(self).chain_view()
                    == old(self).chain_view() && final(self).tip() == old(self).tip())
            } else {
                r == Err::<(), ChainError>(ChainError::BadAncestry) && final(self).chain_view()
                    == old(self).chain_view() && final(self).tip() == old(self).tip()
            }),
    {
        if self.chain.contains_hash(block.hash.as_slice()) {
            return Ok(());
        }
        if !self.chain.links_check(block) {
            return Err(ChainError::BadAncestry);
        }
        let record = block.serialize();
        let advance = block.get_height() > self.chain.tip_height();
        let written = if advance {
            let tk = tip_key_bytes();
            tree_insert_two(
                &self.tree,
                block.hash.as_slice(),
                record.as_slice(),
                tk.as_slice(),
                block.hash.as_slice(),
            )
        } else {
            tree_insert(&self.tree, block.hash.as_slice(), record.as_slice())
        };
        match written {
            Ok(()) => {},
            Err(e) => {
                return Err(e);
            },
        }
        match self.chain.add_block(block) {
            Ok(()) => Ok(()),
            Err(e) => {
                proof {
                    assert(false);
                }
                Err(e)
            },
        }
    }

    /// The unspent-output index. Accounting is not implemented in this
    /// minimal node: the result is always empty.
    pub fn find_utxo(&self) -> (r: HashMap<String, Vec<Vec<u8>>>)
        ensures
            r@ == Map::<String, Vec<Vec<u8>>>::empty(),
    {
        HashMap::new()
    }
}

} // verus!
