//! An immutable, content-addressed container of transactions, linked to
//! its predecessor by hash. The header bytes fix the exact layout that two
//! nodes must agree on; the binary record round-trips field for field.

use vstd::prelude::*;
use crate::codec::DecodeError;
use crate::codec::clone_bytes;
use crate::codec::enc_bytes;
use crate::codec::lemma_parse_bytes_at_enc;
use crate::codec::lemma_parse_u64_at_enc;
use crate::codec::parse_bytes_at;
use crate::codec::parse_u64_at;
use crate::codec::push_bytes;
use crate::codec::push_bytes_field;
use crate::codec::push_u64_be;
use crate::codec::read_bytes_field;
use crate::codec::read_u64_field;
use crate::codec::u64_be_bytes;
use crate::hashing::sha256;
use crate::hashing::sha256_of;
use crate::transaction::Transaction;
use crate::transaction::TxModel;
use crate::transaction::enc_tx;
use crate::transaction::lemma_parse_tx_at_enc;
use crate::transaction::parse_tx_at;
use crate::transaction::read_tx_at;
use crate::transaction::tx_size_ok;

verus! {

/// The views of a sequence of transactions, in order.
pub open spec fn tx_views(ts: Seq<Transaction>) -> Seq<TxModel> {
    ts.map_values(|t: Transaction| t@)
}

/// Appending a transaction appends its view.
pub proof fn lemma_tx_views_push(ts: Seq<Transaction>, t: Transaction)
    ensures
        tx_views(ts.push(t)) == tx_views(ts).push(t@),
{
    assert(tx_views(ts.push(t)) =~= tx_views(ts).push(t@));
}

/// The mathematical content of a block.
#[verifier::ext_equal]
pub ghost struct BlockModel {
    pub hash: Seq<u8>,
    pub prev_hash: Seq<u8>,
    pub transactions: Seq<TxModel>,
    pub timestamp: u64,
    pub height: u64,
}

/// A block of the chain.
#[derive(Debug, PartialEq, Eq)]
pub struct Block {
    pub hash: Vec<u8>,
    pub prev_hash: Vec<u8>,
    pub transactions: Vec<Transaction>,
    pub timestamp: u64,
    pub height: u64,
}

impl View for Block {
    type V = BlockModel;

    open spec fn view(&self) -> BlockModel {
        BlockModel {
            hash: self.hash@,
            prev_hash: self.prev_hash@,
            transactions: tx_views(self.transactions@),
            timestamp: self.timestamp,
            height: self.height,
        }
    }
}

/// A block is well formed when it is the genesis block exactly if its
/// predecessor hash is empty, and its own hash has the digest width.
pub open spec fn block_wf(b: BlockModel) -> bool {
    &&& (b.height == 0 <==> b.prev_hash.len() == 0)
    &&& b.hash.len() == 32
}

/// The ids of the transactions, concatenated in sequence order.
pub open spec fn concat_tx_ids(ts: Seq<TxModel>) -> Seq<u8>
    decreases ts.len(),
{
    if ts.len() == 0 {
        Seq::<u8>::empty()
    } else {
        ts[0].id + concat_tx_ids(ts.drop_first())
    }
}

/// Appending a transaction appends its id to the concatenation.
pub proof fn lemma_concat_tx_ids_push(ts: Seq<TxModel>, t: TxModel)
    ensures
        concat_tx_ids(ts.push(t)) == concat_tx_ids(ts) + t.id,
    decreases ts.len(),
{
    if ts.len() == 0 {
        assert(ts.push(t).drop_first() =~= Seq::<TxModel>::empty());
        assert(concat_tx_ids(Seq::<TxModel>::empty()) == Seq::<u8>::empty());
        assert(ts.push(t)[0] == t);
        assert(concat_tx_ids(ts.push(t)) =~= concat_tx_ids(ts) + t.id);
    } else {
        assert(ts.push(t).drop_first() =~= ts.drop_first().push(t));
        lemma_concat_tx_ids_push(ts.drop_first(), t);
        assert(concat_tx_ids(ts.push(t)) == ts[0].id + concat_tx_ids(ts.drop_first().push(t)));
        assert(concat_tx_ids(ts.push(t)) =~= concat_tx_ids(ts) + t.id);
    }
}

/// The header bytes of a block: predecessor hash, big-endian timestamp,
/// big-endian height, then each transaction id in order. The block's own
/// hash and the nonce are not part of it; mining appends the nonce.
pub open spec fn header_of(b: BlockModel) -> Seq<u8> {
    b.prev_hash + u64_be_bytes(b.timestamp) + u64_be_bytes(b.height) + concat_tx_ids(
        b.transactions,
    )
}

/// Relies on std::time::SystemTime::now, read as whole seconds since the
/// Unix epoch; a clock before the epoch is read as zero. Nothing is
/// promised of the value.
#[verifier::external_body]
fn now_timestamp() -> u64 {
    std::time::SystemTime::now().duration_since(std::time::UNIX_EPOCH).map(|d| d.as_secs()).unwrap_or(0)
}

impl Block {
    /// Builds a block over the given predecessor hash, transactions and
    /// height, stamps it with the current time, and sets its hash to the
    /// digest of its header bytes.
    pub fn new_block(prev_hash: Vec<u8>, transactions: Vec<Transaction>, height: u64) -> (r: Block)
        requires
            (height == 0 <==> prev_hash@.len() == 0),
        ensures
            r@.prev_hash == prev_hash@,
            r@.transactions == tx_views(transactions@),
            r@.height == height,
            r@.hash == sha256_of(header_of(r@)),
            block_wf(r@),
    {
        let timestamp = now_timestamp();
        let mut b = Block { hash: Vec::new(), prev_hash, transactions, timestamp, height };
        let hdr = b.header_bytes();
        b.hash = sha256(hdr.as_slice());
        proof {
            assert(header_of(b@) == hdr@);
        }
        b
    }

    /// The genesis block: empty predecessor hash, height zero, and the
    /// coinbase transaction as its only content.
    pub fn generate_genesis_block(coinbase: &Transaction) -> (r: Block)
        ensures
            r@.prev_hash == Seq::<u8>::empty(),
            r@.transactions =~= seq![coinbase@],
            r@.height == 0,
            r@.hash == sha256_of(header_of(r@)),
            block_wf(r@),
    {
        let mut txs: Vec<Transaction> = Vec::new();
        txs.push(coinbase.clone());
        Block::new_block(Vec::new(), txs, 0)
    }

    /// A copy of this block's hash.
    pub fn get_hash(&self) -> (r: Vec<u8>)
        ensures
            r@ == self@.hash,
    {
        clone_bytes(self.hash.as_slice())
    }

    /// The height of this block.
    pub fn get_height(&self) -> (r: u64)
        ensures
            r == self@.height,
    {
        self.height
    }

    /// The transactions of this block, in order.
    pub fn get_transactions(&self) -> (r: &Vec<Transaction>)
        ensures
            tx_views(r@) == self@.transactions,
    {
        &self.transactions
    }

    /// Writes the header bytes exactly as `header_of` lays them out.
    pub fn header_bytes(&self) -> (r: Vec<u8>)
        ensures
            r@ == header_of(self@),
    {
        let mut out: Vec<u8> = Vec::new();
        push_bytes(&mut out, self.prev_hash.as_slice());
        push_u64_be(&mut out, self.timestamp);
        push_u64_be(&mut out, self.height);
        let ghost pre = out@;
        let mut i: usize = 0;
        while i < self.transactions.len()
            invariant
                i <= self.transactions@.len(),
                out@ == pre + concat_tx_ids(tx_views(self.transactions@).take(i as int)),
            decreases self.transactions@.len() - i,
        {
            push_bytes(&mut out, self.transactions[i].id.as_slice());
            i += 1;
            proof {
                let m = tx_views(self.transactions@);
                assert(m.take(i as int) =~= m.take(i as int - 1).push(m[i as int - 1]));
                lemma_concat_tx_ids_push(m.take(i as int - 1), m[i as int - 1]);
                assert(out@ =~= pre + concat_tx_ids(m.take(i as int)));
            }
        }
        proof {
            let m = tx_views(self.transactions@);
            assert(m.take(m.len() as int) =~= m);
            assert(out@ =~= header_of(self@));
        }
        out
    }
}

/// The binary forms of the transactions, in order.
pub open spec fn enc_txs(ts: Seq<TxModel>) -> Seq<u8>
    decreases ts.len(),
{
    if ts.len() == 0 {
        Seq::<u8>::empty()
    } else {
        enc_tx(ts[0]) + enc_txs(ts.drop_first())
    }
}

/// Appending a transaction appends its binary form.
pub proof fn lemma_enc_txs_push(ts: Seq<TxModel>, t: TxModel)
    ensures
        enc_txs(ts.push(t)) == enc_txs(ts) + enc_tx(t),
    decreases ts.len(),
{
    if ts.len() == 0 {
        assert(ts.push(t).drop_first() =~= Seq::<TxModel>::empty());
        assert(enc_txs(Seq::<TxModel>::empty()) == Seq::<u8>::empty());
        assert(ts.push(t)[0] == t);
        assert(enc_txs(ts.push(t)) =~= enc_txs(ts) + enc_tx(t));
    } else {
        assert(ts.push(t).drop_first() =~= ts.drop_first().push(t));
        lemma_enc_txs_push(ts.drop_first(), t);
        assert(enc_txs(ts.push(t)) == enc_tx(ts[0]) + enc_txs(ts.drop_first().push(t)));
        assert(enc_txs(ts.push(t)) =~= enc_txs(ts) + enc_tx(t));
    }
}

/// Parses `n` consecutive transactions at `off`.
pub open spec fn parse_txs_at(s: Seq<u8>, off: int, n: nat) -> Option<(Seq<TxModel>, int)>
    decreases n,
{
    if n == 0 {
        Some((Seq::<TxModel>::empty(), off))
    } else {
        match parse_tx_at(s, off) {
            None => None,
            Some((t, o2)) => match parse_txs_at(s, o2, (n - 1) as nat) {
                None => None,
                Some((ts, o3)) => Some((seq![t] + ts, o3)),
            },
        }
    }
}

/// The binary form of a block: hash, predecessor hash, timestamp, height,
/// transaction count, then the transactions.
pub open spec fn enc_block(b: BlockModel) -> Seq<u8> {
    enc_bytes(b.hash) + enc_bytes(b.prev_hash) + u64_be_bytes(b.timestamp) + u64_be_bytes(b.height)
        + u64_be_bytes(b.transactions.len() as u64) + enc_txs(b.transactions)
}

/// Parses a whole block record: every byte must be consumed.
pub open spec fn parse_block(s: Seq<u8>) -> Option<BlockModel> {
    match parse_bytes_at(s, 0) {
        None => None,
        Some((hash, o1)) => match parse_bytes_at(s, o1) {
            None => None,
            Some((prev, o2)) => match parse_u64_at(s, o2) {
                None => None,
                Some((stamp, o3)) => match parse_u64_at(s, o3) {
                    None => None,
                    Some((height, o4)) => match parse_u64_at(s, o4) {
                        None => None,
                        Some((n, o5)) => match parse_txs_at(s, o5, n as nat) {
                            None => None,
                            Some((txs, o6)) => if o6 == s.len() {
                                Some(
                                    BlockModel {
                                        hash,
                                        prev_hash: prev,
                                        transactions: txs,
                                        timestamp: stamp,
                                        height,
                                    },
                                )
                            } else {
                                None
                            },
                        },
                    },
                },
            },
        },
    }
}

impl Block {
    /// Writes the binary record: both hashes length-prefixed, then
    /// timestamp, height, transaction count, then each transaction.
    pub fn serialize(&self) -> (r: Vec<u8>)
        ensures
            r@ == enc_block(self@),
    {
        let mut out: Vec<u8> = Vec::new();
        push_bytes_field(&mut out, self.hash.as_slice());
        push_bytes_field(&mut out, self.prev_hash.as_slice());
        push_u64_be(&mut out, self.timestamp);
        push_u64_be(&mut out, self.height);
        push_u64_be(&mut out, self.transactions.len() as u64);
        let ghost pre = out@;
        let mut i: usize = 0;
        while i < self.transactions.len()
            invariant
                i <= self.transactions@.len(),
                out@ == pre + enc_txs(tx_views(self.transactions@).take(i as int)),
            decreases self.transactions@.len() - i,
        {
            let piece = self.transactions[i].serialize();
            push_bytes(&mut out, piece.as_slice());
            i += 1;
            proof {
                let m = tx_views(self.transactions@);
                assert(m.take(i as int) =~= m.take(i as int - 1).push(m[i as int - 1]));
                lemma_enc_txs_push(m.take(i as int - 1), m[i as int - 1]);
                assert(out@ =~= pre + enc_txs(m.take(i as int)));
            }
        }
        proof {
            let m = tx_views(self.transactions@);
            assert(m.take(m.len() as int) =~= m);
            assert(out@ =~= enc_block(self@));
        }
        out
    }

    /// Reads a block back from its binary record. Succeeds exactly on the
    /// byte strings the parser specification accepts; the hash field is
    /// taken as stored, not re-derived.
    #[verifier::loop_isolation(false)]
    pub fn deserialize(raw: &[u8]) -> (r: Result<Block, DecodeError>)
        ensures
            (match parse_block(raw@) {
                Some(m) => r matches Ok(b) && b@ == m,
                None => r matches Err(e) && e == DecodeError::Malformed,
            }),
    {
        let (hash, o1) = match read_bytes_field(raw, 0) {
            Some(q) => q,
            None => {
                return Err(DecodeError::Malformed);
            },
        };
        let (prev_hash, o2) = match read_bytes_field(raw, o1) {
            Some(q) => q,
            None => {
                return Err(DecodeError::Malformed);
            },
        };
        let (timestamp, o3) = match read_u64_field(raw, o2) {
            Some(q) => q,
            None => {
                return Err(DecodeError::Malformed);
            },
        };
        let (height, o4) = match read_u64_field(raw, o3) {
            Some(q) => q,
            None => {
                return Err(DecodeError::Malformed);
            },
        };
        let (n, o5) = match read_u64_field(raw, o4) {
            Some(q) => q,
            None => {
                return Err(DecodeError::Malformed);
            },
        };
        let mut txs: Vec<Transaction> = Vec::new();
        let mut off = o5;
        let mut i: u64 = 0;
        while i < n
            invariant
                i <= n,
                off <= raw@.len(),
                txs@.len() == i,
                (match parse_txs_at(raw@, off as int, (n - i) as nat) {
                    Some(p) => parse_txs_at(raw@, o5 as int, n as nat) == Some(
                        (tx_views(txs@) + p.0, p.1),
                    ),
                    None => parse_txs_at(raw@, o5 as int, n as nat) is None,
                }),
            decreases n - i,
        {
            let ghost prev_txs = txs@;
            let ghost off0 = off as int;
            let (t, o6) = match read_tx_at(raw, off) {
                Some(q) => q,
                None => {
                    proof {
                        assert(parse_txs_at(raw@, off as int, (n - i) as nat) is None);
                        assert(parse_txs_at(raw@, o5 as int, n as nat) is None);
                    }
                    return Err(DecodeError::Malformed);
                },
            };
            txs.push(t);
            off = o6;
            i += 1;
            proof {
                lemma_tx_views_push(prev_txs, txs@[txs@.len() - 1]);
                let tm = parse_tx_at(raw@, off0)->Some_0.0;
                assert(match parse_txs_at(raw@, off as int, (n - i) as nat) {
                    Some(p) => parse_txs_at(raw@, off0, (n - i + 1) as nat) == Some(
                        (seq![tm] + p.0, p.1),
                    ),
                    None => parse_txs_at(raw@, off0, (n - i + 1) as nat) is None,
                });
                if parse_txs_at(raw@, off as int, (n - i) as nat) is Some {
                    let p = parse_txs_at(raw@, off as int, (n - i) as nat)->Some_0;
                    assert(tx_views(prev_txs) + (seq![tm] + p.0) =~= tx_views(txs@) + p.0);
                }
            }
        }
        if off != raw.len() {
            proof {
                assert(parse_txs_at(raw@, off as int, 0) == Some(
                    (Seq::<TxModel>::empty(), off as int),
                ));
                assert(tx_views(txs@) + Seq::<TxModel>::empty() =~= tx_views(txs@));
            }
            return Err(DecodeError::Malformed);
        }
        let b = Block { hash, prev_hash, transactions: txs, timestamp, height };
        proof {
            assert(parse_txs_at(raw@, off as int, 0) == Some(
                (Seq::<TxModel>::empty(), off as int),
            ));
            assert(tx_views(txs@) + Seq::<TxModel>::empty() =~= tx_views(txs@));
            assert(b@ =~= parse_block(raw@)->Some_0);
        }
        Ok(b)
    }
}

/// Whether the fields of a block fit their length prefixes.
pub open spec fn block_size_ok(b: BlockModel) -> bool {
    &&& b.hash.len() <= u64::MAX
    &&& b.prev_hash.len() <= u64::MAX
    &&& b.transactions.len() <= u64::MAX
    &&& forall|i: int|
        0 <= i < b.transactions.len() ==> tx_size_ok(#[trigger] b.transactions[i])
}

/// A run of transactions written at `off` is parsed back exactly there.
pub proof fn lemma_parse_txs_at_enc(s: Seq<u8>, off: int, ts: Seq<TxModel>)
    requires
        0 <= off,
        forall|i: int| 0 <= i < ts.len() ==> tx_size_ok(#[trigger] ts[i]),
        s.subrange(off, off + enc_txs(ts).len()) == enc_txs(ts),
        off + enc_txs(ts).len() <= s.len(),
    ensures
        parse_txs_at(s, off, ts.len()) == Some((ts, off + enc_txs(ts).len() as int)),
    decreases ts.len(),
{
    if ts.len() == 0 {
        assert(parse_txs_at(s, off, 0) == Some((Seq::<TxModel>::empty(), off)));
        assert(ts =~= Seq::<TxModel>::empty());
    } else {
        let t = ts[0];
        let rest = ts.drop_first();
        let w = enc_tx(t).len() as int;
        let wr = enc_txs(rest).len() as int;
        assert(enc_txs(ts) == enc_tx(t) + enc_txs(rest));
        assert(s.subrange(off, off + w) =~= enc_tx(t)) by {
            assert forall|j: int| 0 <= j < w implies s.subrange(off, off + w)[j] == enc_tx(t)[j] by {
                assert(s.subrange(off, off + w)[j] == s.subrange(off, off + enc_txs(ts).len())[j]);
            }
        }
        lemma_parse_tx_at_enc(s, off, t);
        assert(s.subrange(off + w, off + w + wr) =~= enc_txs(rest)) by {
            assert forall|j: int| 0 <= j < wr implies s.subrange(off + w, off + w + wr)[j]
                == enc_txs(rest)[j] by {
                assert(s.subrange(off + w, off + w + wr)[j] == s.subrange(
                    off,
                    off + enc_txs(ts).len(),
                )[j + w]);
                assert(enc_txs(rest)[j] == enc_txs(ts)[j + w]);
            }
        }
        assert(forall|i: int| 0 <= i < rest.len() ==> tx_size_ok(#[trigger] rest[i]));
        lemma_parse_txs_at_enc(s, off + w, rest);
        assert(seq![t] + rest =~= ts);
    }
}

/// Round trip: the binary record of a block parses back to the very same
/// fields.
#[verifier::rlimit(60)]
pub proof fn lemma_block_round_trip(m: BlockModel)
    requires
        block_size_ok(m),
    ensures
        parse_block(enc_block(m)) == Some(m),
{
    let s = enc_block(m);
    let o1 = 8 + m.hash.len() as int;
    let o2 = o1 + 8 + m.prev_hash.len() as int;
    let o3 = o2 + 8;
    let o4 = o3 + 8;
    let o5 = o4 + 8;
    let o6 = o5 + enc_txs(m.transactions).len() as int;
    assert(s.len() == o6);
    assert(s.subrange(0, o1) =~= enc_bytes(m.hash));
    lemma_parse_bytes_at_enc(s, 0, m.hash);
    assert(s.subrange(o1, o2) =~= enc_bytes(m.prev_hash));
    lemma_parse_bytes_at_enc(s, o1, m.prev_hash);
    assert(s.subrange(o2, o3) =~= u64_be_bytes(m.timestamp));
    lemma_parse_u64_at_enc(s, o2, m.timestamp);
    assert(s.subrange(o3, o4) =~= u64_be_bytes(m.height));
    lemma_parse_u64_at_enc(s, o3, m.height);
    assert(s.subrange(o4, o5) =~= u64_be_bytes(m.transactions.len() as u64));
    lemma_parse_u64_at_enc(s, o4, m.transactions.len() as u64);
    assert(s.subrange(o5, o6) =~= enc_txs(m.transactions));
    lemma_parse_txs_at_enc(s, o5, m.transactions);
    assert(parse_block(s)->Some_0 =~= m);
}

impl Clone for Block {
    /// A clone carries the same fields.
    fn clone(&self) -> (r: Self)
        ensures
            r@ == self@,
    {
        let mut txs: Vec<Transaction> = Vec::new();
        let mut i: usize = 0;
        while i < self.transactions.len()
            invariant
                i <= self.transactions@.len(),
                txs@.len() == i,
                tx_views(txs@) =~= tx_views(self.transactions@).take(i as int),
            decreases self.transactions@.len() - i,
        {
            let ghost prev = txs@;
            txs.push(self.transactions[i].clone());
            i += 1;
            proof {
                let m = tx_views(self.transactions@);
                lemma_tx_views_push(prev, txs@[i as int - 1]);
                assert(m.take(i as int) =~= m.take(i as int - 1).push(m[i as int - 1]));
                assert(tx_views(txs@) =~= m.take(i as int));
            }
        }
        proof {
            let m = tx_views(self.transactions@);
            assert(m.take(m.len() as int) =~= m);
        }
        let r = Block {
            hash: clone_bytes(self.hash.as_slice()),
            prev_hash: clone_bytes(self.prev_hash.as_slice()),
            transactions: txs,
            timestamp: self.timestamp,
            height: self.height,
        };
        proof {
            assert(r@ =~= self@);
        }
        r
    }
}

/// Whether a block is well formed, decided at run time; what the chain
/// store demands of a foreign block before it is trusted.
pub fn block_wf_check(b: &Block) -> (r: bool)
    ensures
        r == block_wf(b@),
{
    ((b.height == 0) == (b.prev_hash.len() == 0)) && b.hash.len() == 32
}

} // verus!
