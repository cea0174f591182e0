//! The gossip message set: a closed, tagged family of inter-node
//! messages, with an exact binary encoding. Builders produce the message
//! a node sends for each purpose; the caller ships the encoded bytes and
//! feeds received bytes back through the decoder.

use vstd::prelude::*;
use vstd::utf8::decode_utf8;
use vstd::utf8::valid_utf8;
use crate::block::Block;
use crate::block::enc_block;
use crate::codec::DecodeError;
use crate::codec::clone_bytes;
use crate::codec::enc_bytes;
use crate::codec::lemma_parse_bytes_at_enc;
use crate::codec::lemma_parse_u64_at_enc;
use crate::codec::parse_bytes_at;
use crate::codec::parse_u64_at;
use crate::codec::push_bytes_field;
use crate::codec::push_u64_be;
use crate::codec::read_bytes_field;
use crate::codec::read_u64_field;
use crate::codec::u64_be_bytes;
use crate::transaction::Transaction;
use crate::transaction::enc_tx;

verus! {

/// The protocol version this node speaks.
pub const NODE_VERSION: usize = 1;

/// What kind of item an inventory or data request names.
#[derive(Clone, Copy, Debug, PartialEq, Eq, Structural)]
pub enum OpType {
    BlockType,
    TxType,
}

/// The mathematical content of a message.
#[verifier::ext_equal]
pub ghost enum PackageModel {
    Version { addr_from: Seq<char>, version: usize, best_height: u64 },
    GetBlocks { addr_from: Seq<char> },
    Inv { addr_from: Seq<char>, op_type: OpType, items: Seq<Seq<u8>> },
    GetData { addr_from: Seq<char>, op_type: OpType, id: Seq<u8> },
    Block { addr_from: Seq<char>, block: Seq<u8> },
    Tx { addr_from: Seq<char>, transaction: Seq<u8> },
}

/// A message between nodes. Every variant names its sender; blocks and
/// transactions travel in their own binary form.
#[derive(Debug)]
pub enum Package {
    Version { addr_from: String, version: usize, best_height: u64 },
    GetBlocks { addr_from: String },
    Inv { addr_from: String, op_type: OpType, items: Vec<Vec<u8>> },
    GetData { addr_from: String, op_type: OpType, id: Vec<u8> },
    Block { addr_from: String, block: Vec<u8> },
    Tx { addr_from: String, transaction: Vec<u8> },
}

/// The views of a sequence of byte strings, in order.
pub open spec fn byte_views(vs: Seq<Vec<u8>>) -> Seq<Seq<u8>> {
    vs.map_values(|v: Vec<u8>| v@)
}

/// Appending a byte string appends its view.
pub proof fn lemma_byte_views_push(vs: Seq<Vec<u8>>, v: Vec<u8>)
    ensures
        byte_views(vs.push(v)) == byte_views(vs).push(v@),
{
    assert(byte_views(vs.push(v)) =~= byte_views(vs).push(v@));
}

impl View for Package {
    type V = PackageModel;

    open spec fn view(&self) -> PackageModel {
        match self {
            Package::Version { addr_from, version, best_height } => PackageModel::Version {
                addr_from: addr_from@,
                version: *version,
                best_height: *best_height,
            },
            Package::GetBlocks { addr_from } => PackageModel::GetBlocks { addr_from: addr_from@ },
            Package::Inv { addr_from, op_type, items } => PackageModel::Inv {
                addr_from: addr_from@,
                op_type: *op_type,
                items: byte_views(items@),
            },
            Package::GetData { addr_from, op_type, id } => PackageModel::GetData {
                addr_from: addr_from@,
                op_type: *op_type,
                id: id@,
            },
            Package::Block { addr_from, block } => PackageModel::Block {
                addr_from: addr_from@,
                block: block@,
            },
            Package::Tx { addr_from, transaction } => PackageModel::Tx {
                addr_from: addr_from@,
                transaction: transaction@,
            },
        }
    }
}

/// A string on the wire: its UTF-8 bytes, length-prefixed.
pub open spec fn enc_str(s: Seq<char>) -> Seq<u8> {
    enc_bytes(vstd::utf8::encode_utf8(s))
}

/// The wire byte of an item kind.
pub open spec fn op_byte(op: OpType) -> u8 {
    match op {
        OpType::BlockType => 0,
        OpType::TxType => 1,
    }
}

/// The binary forms of the inventory items, each length-prefixed.
pub open spec fn enc_items(items: Seq<Seq<u8>>) -> Seq<u8>
    decreases items.len(),
{
    if items.len() == 0 {
        Seq::<u8>::empty()
    } else {
        enc_bytes(items[0]) + enc_items(items.drop_first())
    }
}

/// Appending an item appends its field.
pub proof fn lemma_enc_items_push(items: Seq<Seq<u8>>, v: Seq<u8>)
    ensures
        enc_items(items.push(v)) == enc_items(items) + enc_bytes(v),
    decreases items.len(),
{
    if items.len() == 0 {
        assert(items.push(v).drop_first() =~= Seq::<Seq<u8>>::empty());
        assert(enc_items(Seq::<Seq<u8>>::empty()) == Seq::<u8>::empty());
        assert(items.push(v)[0] == v);
        assert(enc_items(items.push(v)) =~= enc_items(items) + enc_bytes(v));
    } else {
        assert(items.push(v).drop_first() =~= items.drop_first().push(v));
        lemma_enc_items_push(items.drop_first(), v);
        assert(enc_items(items.push(v)) == enc_bytes(items[0]) + enc_items(
            items.drop_first().push(v),
        ));
        assert(enc_items(items.push(v)) =~= enc_items(items) + enc_bytes(v));
    }
}

/// The binary form of a message: a one-byte tag, the sender, then the
/// variant's fields.
pub open spec fn enc_package(p: PackageModel) -> Seq<u8> {
    match p {
        PackageModel::Version { addr_from, version, best_height } => seq![0u8] + enc_str(addr_from)
            + u64_be_bytes(version as u64) + u64_be_bytes(best_height),
        PackageModel::GetBlocks { addr_from } => seq![1u8] + enc_str(addr_from),
        PackageModel::Inv { addr_from, op_type, items } => seq![2u8] + enc_str(addr_from) + seq![
            op_byte(op_type),
        ] + u64_be_bytes(items.len() as u64) + enc_items(items),
        PackageModel::GetData { addr_from, op_type, id } => seq![3u8] + enc_str(addr_from) + seq![
            op_byte(op_type),
        ] + enc_bytes(id),
        PackageModel::Block { addr_from, block } => seq![4u8] + enc_str(addr_from) + enc_bytes(
            block,
        ),
        PackageModel::Tx { addr_from, transaction } => seq![5u8] + enc_str(addr_from) + enc_bytes(
            transaction,
        ),
    }
}

/// Parses a wire string at `off`: a length-prefixed field that must hold
/// valid UTF-8.
pub open spec fn parse_str_at(s: Seq<u8>, off: int) -> Option<(Seq<char>, int)> {
    match parse_bytes_at(s, off) {
        None => None,
        Some((b, o2)) => if valid_utf8(b) {
            Some((decode_utf8(b), o2))
        } else {
            None
        },
    }
}

/// Parses an item kind at `off`.
pub open spec fn parse_op_at(s: Seq<u8>, off: int) -> Option<(OpType, int)> {
    if 0 <= off < s.len() {
        if s[off] == 0 {
            Some((OpType::BlockType, off + 1))
        } else if s[off] == 1 {
            Some((OpType::TxType, off + 1))
        } else {
            None
        }
    } else {
        None
    }
}

/// Parses `n` consecutive inventory items at `off`.
pub open spec fn parse_items_at(s: Seq<u8>, off: int, n: nat) -> Option<(Seq<Seq<u8>>, int)>
    decreases n,
{
    if n == 0 {
        Some((Seq::<Seq<u8>>::empty(), off))
    } else {
        match parse_bytes_at(s, off) {
            None => None,
            Some((v, o2)) => match parse_items_at(s, o2, (n - 1) as nat) {
                None => None,
                Some((vs, o3)) => Some((seq![v] + vs, o3)),
            },
        }
    }
}

/// Parses a whole message: every byte must be consumed.
pub open spec fn parse_package(s: Seq<u8>) -> Option<PackageModel> {
    if s.len() < 1 {
        None
    } else {
        match parse_str_at(s, 1) {
            None => None,
            Some((addr_from, o1)) => if s[0] == 0 {
                match parse_u64_at(s, o1) {
                    None => None,
                    Some((version, o2)) => match parse_u64_at(s, o2) {
                        None => None,
                        Some((best_height, o3)) => if o3 == s.len() && version <= usize::MAX {
                            Some(
                                PackageModel::Version {
                                    addr_from,
                                    version: version as usize,
                                    best_height,
                                },
                            )
                        } else {
                            None
                        },
                    },
                }
            } else if s[0] == 1 {
                if o1 == s.len() {
                    Some(PackageModel::GetBlocks { addr_from })
                } else {
                    None
                }
            } else if s[0] == 2 {
                match parse_op_at(s, o1) {
                    None => None,
                    Some((op_type, o2)) => match parse_u64_at(s, o2) {
                        None => None,
                        Some((n, o3)) => match parse_items_at(s, o3, n as nat) {
                            None => None,
                            Some((items, o4)) => if o4 == s.len() {
                                Some(PackageModel::Inv { addr_from, op_type, items })
                            } else {
                                None
                            },
                        },
                    },
                }
            } else if s[0] == 3 {
                match parse_op_at(s, o1) {
                    None => None,
                    Some((op_type, o2)) => match parse_bytes_at(s, o2) {
                        None => None,
                        Some((id, o3)) => if o3 == s.len() {
                            Some(PackageModel::GetData { addr_from, op_type, id })
                        } else {
                            None
                        },
                    },
                }
            } else if s[0] == 4 {
                match parse_bytes_at(s, o1) {
                    None => None,
                    Some((block, o2)) => if o2 == s.len() {
                        Some(PackageModel::Block { addr_from, block })
                    } else {
                        None
                    },
                }
            } else if s[0] == 5 {
                match parse_bytes_at(s, o1) {
                    None => None,
                    Some((transaction, o2)) => if o2 == s.len() {
                        Some(PackageModel::Tx { addr_from, transaction })
                    } else {
                        None
                    },
                }
            } else {
                None
            },
        }
    }
}

/// Relies on String::from_utf8: succeeds exactly on valid UTF-8 and
/// carries the decoded characters.
#[verifier::external_body]
fn bytes_to_string(v: Vec<u8>) -> (r: Option<String>)
    ensures
        r is Some <==> valid_utf8(v@),
        (r matches Some(s) ==> s@ == decode_utf8(v@)),
{
    String::from_utf8(v).ok()
}

/// Writes the wire form of the sender string.
fn push_str_field(out: &mut Vec<u8>, s: &str)
    ensures
        final(out)@ == old(out)@ + enc_str(s@),
{
    push_bytes_field(out, s.as_bytes());
}

/// Reads the wire string at `off`, exactly as the parser specification
/// says.
fn read_str_at(raw: &[u8], off: usize) -> (r: Option<(String, usize)>)
    requires
        off <= raw@.len(),
    ensures
        (match parse_str_at(raw@, off as int) {
            Some(p) => r matches Some(q) && q.0@ == p.0 && q.1 == p.1 && p.1 <= raw@.len(),
            None => r is None,
        }),
{
    let (b, o2) = match read_bytes_field(raw, off) {
        Some(q) => q,
        None => {
            return None;
        },
    };
    match bytes_to_string(b) {
        Some(s) => Some((s, o2)),
        None => None,
    }
}

/// Reads the item kind at `off`, exactly as the parser specification
/// says.
fn read_op_at(raw: &[u8], off: usize) -> (r: Option<(OpType, usize)>)
    ensures
        (match parse_op_at(raw@, off as int) {
            Some(p) => r matches Some(q) && q.0 == p.0 && q.1 == p.1 && p.1 <= raw@.len(),
            None => r is None,
        }),
{
    if off >= raw.len() {
        return None;
    }
    if raw[off] == 0 {
        Some((OpType::BlockType, off + 1))
    } else if raw[off] == 1 {
        Some((OpType::TxType, off + 1))
    } else {
        None
    }
}

/// Writes the binary form of a message, exactly as `enc_package` lays it
/// out.
pub fn encode_package(p: &Package) -> (r: Vec<u8>)
    ensures
        r@ == enc_package(p@),
{
    let mut out: Vec<u8> = Vec::new();
    match p {
        Package::Version { addr_from, version, best_height } => {
            out.push(0u8);
            push_str_field(&mut out, addr_from.as_str());
            push_u64_be(&mut out, *version as u64);
            push_u64_be(&mut out, *best_height);
            proof {
                assert(out@ =~= enc_package(p@));
            }
        },
        Package::GetBlocks { addr_from } => {
            out.push(1u8);
            push_str_field(&mut out, addr_from.as_str());
            proof {
                assert(out@ =~= enc_package(p@));
            }
        },
        Package::Inv { addr_from, op_type, items } => {
            out.push(2u8);
            push_str_field(&mut out, addr_from.as_str());
            let opb: u8 = match op_type {
                OpType::BlockType => 0,
                OpType::TxType => 1,
            };
            out.push(opb);
            push_u64_be(&mut out, items.len() as u64);
            let ghost pre = out@;
            let mut i: usize = 0;
            while i < items.len()
                invariant
                    i <= items@.len(),
                    out@ == pre + enc_items(byte_views(items@).take(i as int)),
                decreases items@.len() - i,
            {
                push_bytes_field(&mut out, items[i].as_slice());
                i += 1;
                proof {
                    let m = byte_views(items@);
                    assert(m.take(i as int) =~= m.take(i as int - 1).push(m[i as int - 1]));
                    lemma_enc_items_push(m.take(i as int - 1), m[i as int - 1]);
                    assert(out@ =~= pre + enc_items(m.take(i as int)));
                }
            }
            proof {
                let m = byte_views(items@);
                assert(m.take(m.len() as int) =~= m);
                assert(out@ =~= enc_package(p@));
            }
        },
        Package::GetData { addr_from, op_type, id } => {
            out.push(3u8);
            push_str_field(&mut out, addr_from.as_str());
            let opb: u8 = match op_type {
                OpType::BlockType => 0,
                OpType::TxType => 1,
            };
            out.push(opb);
            push_bytes_field(&mut out, id.as_slice());
            proof {
                assert(out@ =~= enc_package(p@));
            }
        },
        Package::Block { addr_from, block } => {
            out.push(4u8);
            push_str_field(&mut out, addr_from.as_str());
            push_bytes_field(&mut out, block.as_slice());
            proof {
                assert(out@ =~= enc_package(p@));
            }
        },
        Package::Tx { addr_from, transaction } => {
            out.push(5u8);
            push_str_field(&mut out, addr_from.as_str());
            push_bytes_field(&mut out, transaction.as_slice());
            proof {
                assert(out@ =~= enc_package(p@));
            }
        },
    }
    out
}

/// Reads a message back from its binary form. Succeeds exactly on the
/// byte strings the parser specification accepts; anything else is
/// malformed and reported as such, to be dropped by a serving loop.
#[verifier::loop_isolation(false)]
pub fn decode_package(raw: &[u8]) -> (r: Result<Package, DecodeError>)
    ensures
        (match parse_package(raw@) {
            Some(m) => r matches Ok(p) && p@ == m,
            None => r matches Err(e) && e == DecodeError::Malformed,
        }),
{
    if raw.len() < 1 {
        return Err(DecodeError::Malformed);
    }
    let tag = raw[0];
    let (addr_from, o1) = match read_str_at(raw, 1) {
        Some(q) => q,
        None => {
            return Err(DecodeError::Malformed);
        },
    };
    if tag == 0 {
        let (version, o2) = match read_u64_field(raw, o1) {
            Some(q) => q,
            None => {
                return Err(DecodeError::Malformed);
            },
        };
        let (best_height, o3) = match read_u64_field(raw, o2) {
            Some(q) => q,
            None => {
                return Err(DecodeError::Malformed);
            },
        };
        if o3 != raw.len() || version > usize::MAX as u64 {
            return Err(DecodeError::Malformed);
        }
        Ok(Package::Version { addr_from, version: version as usize, best_height })
    } else if tag == 1 {
        if o1 != raw.len() {
            return Err(DecodeError::Malformed);
        }
        Ok(Package::GetBlocks { addr_from })
    } else if tag == 2 {
        let (op_type, o2) = match read_op_at(raw, o1) {
            Some(q) => q,
            None => {
                return Err(DecodeError::Malformed);
            },
        };
        let (n, o3) = match read_u64_field(raw, o2) {
            Some(q) => q,
            None => {
                return Err(DecodeError::Malformed);
            },
        };
        let mut items: Vec<Vec<u8>> = Vec::new();
        let mut off = o3;
        let mut i: u64 = 0;
        while i < n
            invariant
                i <= n,
                off <= raw@.len(),
                items@.len() == i,
                (match parse_items_at(raw@, off as int, (n - i) as nat) {
                    Some(p) => parse_items_at(raw@, o3 as int, n as nat) == Some(
                        (byte_views(items@) + p.0, p.1),
                    ),
                    None => parse_items_at(raw@, o3 as int, n as nat) is None,
                }),
            decreases n - i,
        {
            let ghost prev_items = items@;
            let ghost off0 = off as int;
            let (v, o4) = match read_bytes_field(raw, off) {
                Some(q) => q,
                None => {
                    proof {
                        assert(parse_items_at(raw@, off as int, (n - i) as nat) is None);
                    }
                    return Err(DecodeError::Malformed);
                },
            };
            items.push(v);
            off = o4;
            i += 1;
            proof {
                assert(off <= raw@.len());
                lemma_byte_views_push(prev_items, items@[items@.len() - 1]);
                let vm = parse_bytes_at(raw@, off0)->Some_0.0;
                assert(match parse_items_at(raw@, off as int, (n - i) as nat) {
                    Some(p) => parse_items_at(raw@, off0, (n - i + 1) as nat) == Some(
                        (seq![vm] + p.0, p.1),
                    ),
                    None => parse_items_at(raw@, off0, (n - i + 1) as nat) is None,
                });
                if parse_items_at(raw@, off as int, (n - i) as nat) is Some {
                    let p = parse_items_at(raw@, off as int, (n - i) as nat)->Some_0;
                    assert(byte_views(prev_items) + (seq![vm] + p.0) =~= byte_views(items@) + p.0);
                }
            }
        }
        if off != raw.len() {
            proof {
                assert(byte_views(items@) + Seq::<Seq<u8>>::empty() =~= byte_views(items@));
            }
            return Err(DecodeError::Malformed);
        }
        let r = Package::Inv { addr_from, op_type, items };
        proof {
            assert(byte_views(r->Inv_items@) + Seq::<Seq<u8>>::empty() =~= byte_views(
                r->Inv_items@,
            ));
            assert(r@ =~= parse_package(raw@)->Some_0);
        }
        Ok(r)
    } else if tag == 3 {
        let (op_type, o2) = match read_op_at(raw, o1) {
            Some(q) => q,
            None => {
                return Err(DecodeError::Malformed);
            },
        };
        let (id, o3) = match read_bytes_field(raw, o2) {
            Some(q) => q,
            None => {
                return Err(DecodeError::Malformed);
            },
        };
        if o3 != raw.len() {
            return Err(DecodeError::Malformed);
        }
        Ok(Package::GetData { addr_from, op_type, id })
    } else if tag == 4 {
        let (block, o2) = match read_bytes_field(raw, o1) {
            Some(q) => q,
            None => {
                return Err(DecodeError::Malformed);
            },
        };
        if o2 != raw.len() {
            return Err(DecodeError::Malformed);
        }
        Ok(Package::Block { addr_from, block })
    } else if tag == 5 {
        let (transaction, o2) = match read_bytes_field(raw, o1) {
            Some(q) => q,
            None => {
                return Err(DecodeError::Malformed);
            },
        };
        if o2 != raw.len() {
            return Err(DecodeError::Malformed);
        }
        Ok(Package::Tx { addr_from, transaction })
    } else {
        Err(DecodeError::Malformed)
    }
}

/// A wire string written at `off` is parsed back exactly there.
pub proof fn lemma_parse_str_at_enc(s: Seq<u8>, off: int, cs: Seq<char>)
    requires
        0 <= off,
        vstd::utf8::encode_utf8(cs).len() <= u64::MAX,
        s.subrange(off, off + enc_str(cs).len()) == enc_str(cs),
        off + enc_str(cs).len() <= s.len(),
    ensures
        parse_str_at(s, off) == Some((cs, off + enc_str(cs).len() as int)),
{
    let b = vstd::utf8::encode_utf8(cs);
    lemma_parse_bytes_at_enc(s, off, b);
    vstd::utf8::encode_utf8_valid_utf8(cs);
    vstd::utf8::encode_utf8_decode_utf8(cs);
}

/// A run of inventory items written at `off` is parsed back exactly
/// there.
pub proof fn lemma_parse_items_at_enc(s: Seq<u8>, off: int, items: Seq<Seq<u8>>)
    requires
        0 <= off,
        forall|i: int| 0 <= i < items.len() ==> (#[trigger] items[i]).len() <= u64::MAX,
        s.subrange(off, off + enc_items(items).len()) == enc_items(items),
        off + enc_items(items).len() <= s.len(),
    ensures
        parse_items_at(s, off, items.len()) == Some((items, off + enc_items(items).len() as int)),
    decreases items.len(),
{
    if items.len() == 0 {
        assert(parse_items_at(s, off, 0) == Some((Seq::<Seq<u8>>::empty(), off)));
        assert(items =~= Seq::<Seq<u8>>::empty());
    } else {
        let v = items[0];
        let rest = items.drop_first();
        let w = 8 + v.len() as int;
        let wr = enc_items(rest).len() as int;
        assert(enc_items(items) == enc_bytes(v) + enc_items(rest));
        assert(s.subrange(off, off + w) =~= enc_bytes(v)) by {
            assert forall|j: int| 0 <= j < w implies s.subrange(off, off + w)[j] == enc_bytes(
                v,
            )[j] by {
                assert(s.subrange(off, off + w)[j] == s.subrange(
                    off,
                    off + enc_items(items).len(),
                )[j]);
            }
        }
        lemma_parse_bytes_at_enc(s, off, v);
        assert(s.subrange(off + w, off + w + wr) =~= enc_items(rest)) by {
            assert forall|j: int| 0 <= j < wr implies s.subrange(off + w, off + w + wr)[j]
                == enc_items(rest)[j] by {
                assert(s.subrange(off + w, off + w + wr)[j] == s.subrange(
                    off,
                    off + enc_items(items).len(),
                )[j + w]);
                assert(enc_items(rest)[j] == enc_items(items)[j + w]);
            }
        }
        assert(forall|i: int| 0 <= i < rest.len() ==> (#[trigger] rest[i]).len() <= u64::MAX);
        lemma_parse_items_at_enc(s, off + w, rest);
        assert(seq![v] + rest =~= items);
    }
}

/// Whether the fields of a message fit their length prefixes.
pub open spec fn package_size_ok(p: PackageModel) -> bool {
    match p {
        PackageModel::Version { addr_from, .. } => vstd::utf8::encode_utf8(addr_from).len()
            <= u64::MAX,
        PackageModel::GetBlocks { addr_from } => vstd::utf8::encode_utf8(addr_from).len()
            <= u64::MAX,
        PackageModel::Inv { addr_from, items, .. } => vstd::utf8::encode_utf8(addr_from).len()
            <= u64::MAX && items.len() <= u64::MAX && forall|i: int|
            0 <= i < items.len() ==> (#[trigger] items[i]).len() <= u64::MAX,
        PackageModel::GetData { addr_from, id, .. } => vstd::utf8::encode_utf8(addr_from).len()
            <= u64::MAX && id.len() <= u64::MAX,
        PackageModel::Block { addr_from, block } => vstd::utf8::encode_utf8(addr_from).len()
            <= u64::MAX && block.len() <= u64::MAX,
        PackageModel::Tx { addr_from, transaction } => vstd::utf8::encode_utf8(addr_from).len()
            <= u64::MAX && transaction.len() <= u64::MAX,
    }
}

/// Round trip for a handshake message.
#[verifier::rlimit(90)]
#[verifier::spinoff_prover]
proof fn lemma_version_round_trip(addr_from: Seq<char>, version: usize, best_height: u64)
    requires
        vstd::utf8::encode_utf8(addr_from).len() <= u64::MAX,
    ensures
        parse_package(enc_package(PackageModel::Version { addr_from, version, best_height }))
            == Some(PackageModel::Version { addr_from, version, best_height }),
{
    let m = PackageModel::Version { addr_from, version, best_height };
    let s = enc_package(m);
    let o1 = 1 + enc_str(addr_from).len() as int;
    assert(s[0] == 0);
    assert(s.subrange(1, o1) =~= enc_str(addr_from));
    lemma_parse_str_at_enc(s, 1, addr_from);
    assert(s.subrange(o1, o1 + 8) =~= u64_be_bytes(version as u64));
    lemma_parse_u64_at_enc(s, o1, version as u64);
    assert(s.subrange(o1 + 8, o1 + 16) =~= u64_be_bytes(best_height));
    lemma_parse_u64_at_enc(s, o1 + 8, best_height);
    assert(s.len() == o1 + 16);
    assert(parse_package(s)->Some_0 =~= m);
}

/// Round trip for an inventory request.
#[verifier::rlimit(90)]
#[verifier::spinoff_prover]
proof fn lemma_get_blocks_round_trip(addr_from: Seq<char>)
    requires
        vstd::utf8::encode_utf8(addr_from).len() <= u64::MAX,
    ensures
        parse_package(enc_package(PackageModel::GetBlocks { addr_from })) == Some(
            PackageModel::GetBlocks { addr_from },
        ),
{
    let m = PackageModel::GetBlocks { addr_from };
    let s = enc_package(m);
    let o1 = 1 + enc_str(addr_from).len() as int;
    assert(s[0] == 1);
    assert(s.subrange(1, o1) =~= enc_str(addr_from));
    lemma_parse_str_at_enc(s, 1, addr_from);
    assert(s.len() == o1);
    assert(parse_package(s)->Some_0 =~= m);
}

/// Round trip for an inventory advertisement.
#[verifier::rlimit(90)]
#[verifier::spinoff_prover]
proof fn lemma_inv_round_trip(addr_from: Seq<char>, op_type: OpType, items: Seq<Seq<u8>>)
    requires
        vstd::utf8::encode_utf8(addr_from).len() <= u64::MAX,
        items.len() <= u64::MAX,
        forall|i: int| 0 <= i < items.len() ==> (#[trigger] items[i]).len() <= u64::MAX,
    ensures
        parse_package(enc_package(PackageModel::Inv { addr_from, op_type, items })) == Some(
            PackageModel::Inv { addr_from, op_type, items },
        ),
{
    let m = PackageModel::Inv { addr_from, op_type, items };
    let s = enc_package(m);
    let o1 = 1 + enc_str(addr_from).len() as int;
    let o2 = o1 + 1;
    let o3 = o2 + 8;
    let o4 = o3 + enc_items(items).len() as int;
    assert(s[0] == 2);
    assert(s.subrange(1, o1) =~= enc_str(addr_from));
    lemma_parse_str_at_enc(s, 1, addr_from);
    assert(s[o1] == op_byte(op_type));
    assert(parse_op_at(s, o1) == Some((op_type, o2)));
    assert(s.subrange(o2, o3) =~= u64_be_bytes(items.len() as u64));
    lemma_parse_u64_at_enc(s, o2, items.len() as u64);
    assert(s.subrange(o3, o4) =~= enc_items(items));
    lemma_parse_items_at_enc(s, o3, items);
    assert(s.len() == o4);
    assert(parse_package(s)->Some_0 =~= m);
}

/// Round trip for a data request.
#[verifier::rlimit(90)]
#[verifier::spinoff_prover]
proof fn lemma_get_data_round_trip(addr_from: Seq<char>, op_type: OpType, id: Seq<u8>)
    requires
        vstd::utf8::encode_utf8(addr_from).len() <= u64::MAX,
        id.len() <= u64::MAX,
    ensures
        parse_package(enc_package(PackageModel::GetData { addr_from, op_type, id })) == Some(
            PackageModel::GetData { addr_from, op_type, id },
        ),
{
    let m = PackageModel::GetData { addr_from, op_type, id };
    let s = enc_package(m);
    let o1 = 1 + enc_str(addr_from).len() as int;
    let o2 = o1 + 1;
    let o3 = o2 + 8 + id.len() as int;
    assert(s[0] == 3);
    assert(s.subrange(1, o1) =~= enc_str(addr_from));
    lemma_parse_str_at_enc(s, 1, addr_from);
    assert(s[o1] == op_byte(op_type));
    assert(parse_op_at(s, o1) == Some((op_type, o2)));
    assert(s.subrange(o2, o3) =~= enc_bytes(id));
    lemma_parse_bytes_at_enc(s, o2, id);
    assert(s.len() == o3);
    assert(parse_package(s)->Some_0 =~= m);
}

/// Round trip for a block delivery.
#[verifier::rlimit(90)]
#[verifier::spinoff_prover]
proof fn lemma_block_message_round_trip(addr_from: Seq<char>, block: Seq<u8>)
    requires
        vstd::utf8::encode_utf8(addr_from).len() <= u64::MAX,
        block.len() <= u64::MAX,
    ensures
        parse_package(enc_package(PackageModel::Block { addr_from, block })) == Some(
            PackageModel::Block { addr_from, block },
        ),
{
    let m = PackageModel::Block { addr_from, block };
    let s = enc_package(m);
    let o1 = 1 + enc_str(addr_from).len() as int;
    let o2 = o1 + 8 + block.len() as int;
    assert(s[0] == 4);
    assert(s.subrange(1, o1) =~= enc_str(addr_from));
    lemma_parse_str_at_enc(s, 1, addr_from);
    assert(s.subrange(o1, o2) =~= enc_bytes(block));
    lemma_parse_bytes_at_enc(s, o1, block);
    assert(s.len() == o2);
    assert(parse_package(s)->Some_0 =~= m);
}

/// Round trip for a transaction delivery.
#[verifier::rlimit(90)]
#[verifier::spinoff_prover]
proof fn lemma_tx_message_round_trip(addr_from: Seq<char>, transaction: Seq<u8>)
    requires
        vstd::utf8::encode_utf8(addr_from).len() <= u64::MAX,
        transaction.len() <= u64::MAX,
    ensures
        parse_package(enc_package(PackageModel::Tx { addr_from, transaction })) == Some(
            PackageModel::Tx { addr_from, transaction },
        ),
{
    let m = PackageModel::Tx { addr_from, transaction };
    let s = enc_package(m);
    let o1 = 1 + enc_str(addr_from).len() as int;
    let o2 = o1 + 8 + transaction.len() as int;
    assert(s[0] == 5);
    assert(s.subrange(1, o1) =~= enc_str(addr_from));
    lemma_parse_str_at_enc(s, 1, addr_from);
    assert(s.subrange(o1, o2) =~= enc_bytes(transaction));
    lemma_parse_bytes_at_enc(s, o1, transaction);
    assert(s.len() == o2);
    assert(parse_package(s)->Some_0 =~= m);
}

/// Round trip: the binary form of a message parses back to the very same
/// message.
pub proof fn lemma_package_round_trip(m: PackageModel)
    requires
        package_size_ok(m),
    ensures
        parse_package(enc_package(m)) == Some(m),
{
    match m {
        PackageModel::Version { addr_from, version, best_height } => {
            lemma_version_round_trip(addr_from, version, best_height);
        },
        PackageModel::GetBlocks { addr_from } => {
            lemma_get_blocks_round_trip(addr_from);
        },
        PackageModel::Inv { addr_from, op_type, items } => {
            lemma_inv_round_trip(addr_from, op_type, items);
        },
        PackageModel::GetData { addr_from, op_type, id } => {
            lemma_get_data_round_trip(addr_from, op_type, id);
        },
        PackageModel::Block { addr_from, block } => {
            lemma_block_message_round_trip(addr_from, block);
        },
        PackageModel::Tx { addr_from, transaction } => {
            lemma_tx_message_round_trip(addr_from, transaction);
        },
    }
}

/// The handshake message: this node's address, protocol version and best
/// height.
pub fn send_version(addr_from: &str, best_height: u64) -> (r: Package)
    ensures
        r@ == (PackageModel::Version { addr_from: addr_from@, version: NODE_VERSION, best_height }),
{
    Package::Version { addr_from: addr_from.to_owned(), version: NODE_VERSION, best_height }
}

/// The request for the full block inventory.
pub fn send_get_blocks(addr_from: &str) -> (r: Package)
    ensures
        r@ == (PackageModel::GetBlocks { addr_from: addr_from@ }),
{
    Package::GetBlocks { addr_from: addr_from.to_owned() }
}

/// The advertisement of available items.
pub fn send_inv(addr_from: &str, op_type: OpType, items: &Vec<Vec<u8>>) -> (r: Package)
    ensures
        r@ == (PackageModel::Inv { addr_from: addr_from@, op_type, items: byte_views(items@) }),
{
    let mut copied: Vec<Vec<u8>> = Vec::new();
    let mut i: usize = 0;
    while i < items.len()
        invariant
            i <= items@.len(),
            copied@.len() == i,
            byte_views(copied@) =~= byte_views(items@).take(i as int),
        decreases items@.len() - i,
    {
        let ghost pre = copied@;
        copied.push(clone_bytes(items[i].as_slice()));
        i += 1;
        proof {
            lemma_byte_views_push(pre, copied@[copied@.len() - 1]);
            assert(byte_views(copied@) =~= byte_views(items@).take(i as int));
        }
    }
    proof {
        assert(byte_views(items@).take(items@.len() as int) =~= byte_views(items@));
    }
    Package::Inv { addr_from: addr_from.to_owned(), op_type, items: copied }
}

/// The request for one specific item.
pub fn send_get_data(addr_from: &str, op_type: OpType, id: &[u8]) -> (r: Package)
    ensures
        r@ == (PackageModel::GetData { addr_from: addr_from@, op_type, id: id@ }),
{
    Package::GetData { addr_from: addr_from.to_owned(), op_type, id: clone_bytes(id) }
}

/// The delivery of a block, in its binary form.
pub fn send_block(addr_from: &str, block: &Block) -> (r: Package)
    ensures
        r@ == (PackageModel::Block { addr_from: addr_from@, block: enc_block(block@) }),
{
    Package::Block { addr_from: addr_from.to_owned(), block: block.serialize() }
}

/// The delivery of a transaction, in its binary form.
pub fn send_tx(addr_from: &str, tx: &Transaction) -> (r: Package)
    ensures
        r@ == (PackageModel::Tx { addr_from: addr_from@, transaction: enc_tx(tx@) }),
{
    Package::Tx { addr_from: addr_from.to_owned(), transaction: tx.serialize() }
}

} // verus!
