//! An immutable, content-addressed payload: its id is the digest of its
//! data. The binary form is two length-prefixed fields, id then data.

use vstd::prelude::*;
use vstd::string::StrSliceExecFns;
use vstd::string::StringSliceAdditionalSpecFns;
use crate::codec::DecodeError;
use crate::codec::clone_bytes;
use crate::codec::enc_bytes;
use crate::codec::lemma_parse_bytes_at_enc;
use crate::codec::parse_bytes_at;
use crate::codec::push_bytes_field;
use crate::codec::read_bytes_field;
use crate::hashing::sha256;
use crate::hashing::sha256_of;

verus! {

/// The mathematical content of a transaction.
#[verifier::ext_equal]
pub ghost struct TxModel {
    pub id: Seq<u8>,
    pub data: Seq<u8>,
}

/// A transaction: an opaque payload and its content address.
#[derive(Debug, PartialEq, Eq)]
pub struct Transaction {
    pub id: Vec<u8>,
    pub data: Vec<u8>,
}

impl View for Transaction {
    type V = TxModel;

    open spec fn view(&self) -> TxModel {
        TxModel { id: self.id@, data: self.data@ }
    }
}

/// A transaction is content-addressed: the id is the digest of the data.
pub open spec fn tx_wf(t: TxModel) -> bool {
    t.id == sha256_of(t.data)
}

/// The fixed-format reward payload referencing `to`.
pub open spec fn coinbase_data(to: &str) -> Seq<u8> {
    "Coinbase to: ".spec_bytes() + to.spec_bytes()
}

/// The binary form of a transaction.
pub open spec fn enc_tx(t: TxModel) -> Seq<u8> {
    enc_bytes(t.id) + enc_bytes(t.data)
}

/// Parses a transaction at `off`: the fields read and the offset just past
/// them, or nothing if the input is malformed there.
pub open spec fn parse_tx_at(s: Seq<u8>, off: int) -> Option<(TxModel, int)> {
    match parse_bytes_at(s, off) {
        None => None,
        Some((id, o2)) => match parse_bytes_at(s, o2) {
            None => None,
            Some((data, o3)) => Some((TxModel { id, data }, o3)),
        },
    }
}

/// Parses a whole transaction record: every byte must be consumed.
pub open spec fn parse_tx(s: Seq<u8>) -> Option<TxModel> {
    match parse_tx_at(s, 0) {
        Some(p) => if p.1 == s.len() {
            Some(p.0)
        } else {
            None
        },
        None => None,
    }
}

impl Transaction {
    /// Builds the coinbase transaction rewarding `to` and computes its id.
    pub fn new_coinbase_tx(to: &str) -> (r: Transaction)
        ensures
            r@.data == coinbase_data(to),
            r@.id == sha256_of(coinbase_data(to)),
            tx_wf(r@),
    {
        let mut data = "Coinbase to: ".as_bytes_vec();
        let mut rest = to.as_bytes_vec();
        data.append(&mut rest);
        let id = sha256(data.as_slice());
        Transaction { id, data }
    }

    /// The content address of this transaction.
    pub fn get_id(&self) -> (r: &Vec<u8>)
        ensures
            r@ == self@.id,
    {
        &self.id
    }

    /// Writes the binary form: id then data, each length-prefixed.
    pub fn serialize(&self) -> (r: Vec<u8>)
        ensures
            r@ == enc_tx(self@),
    {
        let mut out: Vec<u8> = Vec::new();
        push_bytes_field(&mut out, self.id.as_slice());
        push_bytes_field(&mut out, self.data.as_slice());
        proof {
            assert(out@ =~= enc_tx(self@));
        }
        out
    }

    /// Reads a transaction back from its binary form. Succeeds exactly on
    /// the byte strings the parser specification accepts.
    pub fn deserialize(raw: &[u8]) -> (r: Result<Transaction, DecodeError>)
        ensures
            (match parse_tx(raw@) {
                Some(m) => r matches Ok(t) && t@ == m,
                None => r matches Err(e) && e == DecodeError::Malformed,
            }),
    {
        let (t, o3) = match read_tx_at(raw, 0) {
            Some(q) => q,
            None => {
                return Err(DecodeError::Malformed);
            },
        };
        if o3 != raw.len() {
            return Err(DecodeError::Malformed);
        }
        Ok(t)
    }
}

/// Reads the transaction written at `off`, exactly as the parser
/// specification says.
pub fn read_tx_at(raw: &[u8], off: usize) -> (r: Option<(Transaction, usize)>)
    requires
        off <= raw@.len(),
    ensures
        (match parse_tx_at(raw@, off as int) {
            Some(p) => r matches Some(q) && q.0@ == p.0 && q.1 == p.1 && p.1 <= raw@.len(),
            None => r is None,
        }),
{
    let (id, o2) = match read_bytes_field(raw, off) {
        Some(q) => q,
        None => {
            return None;
        },
    };
    let (data, o3) = match read_bytes_field(raw, o2) {
        Some(q) => q,
        None => {
            return None;
        },
    };
    Some((Transaction { id, data }, o3))
}

impl Clone for Transaction {
    /// A clone carries the same id and data.
    fn clone(&self) -> (r: Self)
        ensures
            r@ == self@,
    {
        Transaction { id: clone_bytes(self.id.as_slice()), data: clone_bytes(self.data.as_slice()) }
    }
}

/// Whether the fields of a transaction fit their length prefixes.
pub open spec fn tx_size_ok(t: TxModel) -> bool {
    t.id.len() <= u64::MAX && t.data.len() <= u64::MAX
}

/// A transaction written at `off` is parsed back exactly there.
pub proof fn lemma_parse_tx_at_enc(s: Seq<u8>, off: int, m: TxModel)
    requires
        0 <= off,
        tx_size_ok(m),
        s.subrange(off, off + enc_tx(m).len()) == enc_tx(m),
        off + enc_tx(m).len() <= s.len(),
    ensures
        parse_tx_at(s, off) == Some((m, off + enc_tx(m).len() as int)),
{
    let o2 = off + 8 + m.id.len() as int;
    let o3 = o2 + 8 + m.data.len() as int;
    assert(enc_tx(m).len() == 16 + m.id.len() + m.data.len());
    assert(s.subrange(off, o2) =~= enc_bytes(m.id)) by {
        assert forall|j: int| 0 <= j < 8 + m.id.len() implies s.subrange(off, o2)[j] == enc_bytes(
            m.id,
        )[j] by {
            assert(s.subrange(off, o2)[j] == s.subrange(off, off + enc_tx(m).len())[j]);
        }
    }
    lemma_parse_bytes_at_enc(s, off, m.id);
    assert(s.subrange(o2, o3) =~= enc_bytes(m.data)) by {
        assert forall|j: int| 0 <= j < 8 + m.data.len() implies s.subrange(o2, o3)[j]
            == enc_bytes(m.data)[j] by {
            assert(s.subrange(o2, o3)[j] == s.subrange(off, off + enc_tx(m).len())[j + 8
                + m.id.len()]);
            assert(enc_bytes(m.data)[j] == enc_tx(m)[j + 8 + m.id.len()]);
        }
    }
    lemma_parse_bytes_at_enc(s, o2, m.data);
    assert(TxModel { id: m.id, data: m.data } =~= m);
}

/// Round trip: the binary form of a transaction parses back to the very
/// same fields.
pub proof fn lemma_tx_round_trip(m: TxModel)
    requires
        tx_size_ok(m),
    ensures
        parse_tx(enc_tx(m)) == Some(m),
{
    let s = enc_tx(m);
    assert(s.subrange(0, s.len() as int) =~= s);
    lemma_parse_tx_at_enc(s, 0, m);
}

} // verus!
