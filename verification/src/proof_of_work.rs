//! The proof-of-work engine: searches a nonce space until the hexadecimal
//! rendering of the trial hash starts with the required count of `'0'`
//! digits. The difficulty predicate is exactly that leading-zero count; it
//! is part of the hash-compatibility contract between nodes.

use vstd::prelude::*;
use crate::block::Block;
use crate::block::BlockModel;
use crate::block::header_of;
use crate::codec::clone_bytes;
use crate::codec::push_u64_be;
use crate::codec::u64_be_bytes;
use crate::hashing::hex_lower_encode;
use crate::hashing::hex_digit;
use crate::hashing::hex_of_bytes;
use crate::hashing::lemma_hex_digit_zero;
use crate::hashing::lemma_hex_of_bytes_index;
use crate::hashing::lemma_hex_of_bytes_len;
use crate::hashing::sha256;
use crate::hashing::sha256_of;

verus! {

/// Mining found no winning nonce within the caller's budget.
#[derive(Clone, Copy, Debug, PartialEq, Eq, Structural)]
pub enum MiningError {
    Exhausted,
}

/// The bytes hashed for one trial: the block's header followed by the
/// big-endian nonce.
pub open spec fn pow_input(b: BlockModel, nonce: u64) -> Seq<u8> {
    header_of(b) + u64_be_bytes(nonce)
}

/// The hexadecimal rendering of the trial hash for `nonce`.
pub open spec fn pow_hash_hex(b: BlockModel, nonce: u64) -> Seq<char> {
    hex_of_bytes(sha256_of(pow_input(b, nonce)))
}

/// The difficulty predicate: the rendering starts with `target` digits
/// `'0'`.
pub open spec fn meets_difficulty(hex: Seq<char>, target: int) -> bool {
    &&& target <= hex.len()
    &&& forall|i: int| 0 <= i < target ==> hex[i] == '0'
}

/// A single mining attempt over one block.
pub struct ProofOfWork {
    pub block: Block,
    pub target_zeroes: usize,
}

impl ProofOfWork {
    /// Holds the block to be mined and the difficulty to be met.
    pub fn new(block: Block, target_zeroes: usize) -> (r: ProofOfWork)
        ensures
            r.block == block,
            r.target_zeroes == target_zeroes,
    {
        ProofOfWork { block, target_zeroes }
    }

    /// Searches nonces from zero upward, at most `max_attempts` of them.
    /// Returns the first nonce whose trial hash meets the difficulty,
    /// together with that hash's hexadecimal rendering; or reports
    /// exhaustion exactly when no nonce below the budget wins.
    #[verifier::loop_isolation(false)]
    pub fn run(&self, max_attempts: u64) -> (r: Result<(u64, String), MiningError>)
        ensures
            (match r {
                Ok(found) => {
                    &&& found.0 < max_attempts
                    &&& found.1@ == pow_hash_hex(self.block@, found.0)
                    &&& meets_difficulty(found.1@, self.target_zeroes as int)
                    &&& forall|m: u64|
                        m < found.0 ==> !meets_difficulty(
                            pow_hash_hex(self.block@, m),
                            self.target_zeroes as int,
                        )
                },
                Err(e) => {
                    &&& e == MiningError::Exhausted
                    &&& forall|m: u64|
                        m < max_attempts ==> !meets_difficulty(
                            pow_hash_hex(self.block@, m),
                            self.target_zeroes as int,
                        )
                },
            }),
    {
        let hdr = self.block.header_bytes();
        let mut nonce: u64 = 0;
        while nonce < max_attempts
            invariant
                nonce <= max_attempts,
                forall|m: u64|
                    m < nonce ==> !meets_difficulty(
                        pow_hash_hex(self.block@, m),
                        self.target_zeroes as int,
                    ),
            decreases max_attempts - nonce,
        {
            let mut trial = clone_bytes(hdr.as_slice());
            push_u64_be(&mut trial, nonce);
            let hash = sha256(trial.as_slice());
            proof {
                assert(trial@ == pow_input(self.block@, nonce));
            }
            if hash_matches_target(hash.as_slice(), self.target_zeroes) {
                let hex = hex_lower_encode(hash.as_slice());
                return Ok((nonce, hex));
            }
            nonce += 1;
        }
        Err(MiningError::Exhausted)
    }
}

/// Whether the hexadecimal rendering of `hash` starts with `target_zeroes`
/// digits `'0'`, decided on the raw digest: the digit at an even position
/// is `'0'` exactly when the high nibble of its byte is zero, at an odd
/// position exactly when the low nibble is.
pub fn hash_matches_target(hash: &[u8], target_zeroes: usize) -> (r: bool)
    ensures
        r == meets_difficulty(hex_of_bytes(hash@), target_zeroes as int),
{
    proof {
        lemma_hex_of_bytes_len(hash@);
    }
    let mut i: usize = 0;
    while i < target_zeroes
        invariant
            i <= target_zeroes,
            hash@.len() * 2 == hex_of_bytes(hash@).len(),
            i <= hash@.len() * 2,
            forall|j: int| 0 <= j < i ==> hex_of_bytes(hash@)[j] == '0',
        decreases target_zeroes - i,
    {
        if i / 2 >= hash.len() {
            proof {
                assert(i >= hash@.len() * 2);
                assert(target_zeroes > hex_of_bytes(hash@).len());
            }
            return false;
        }
        let byte = hash[i / 2];
        let nib = if i % 2 == 0 {
            byte >> 4u8
        } else {
            byte & 0xfu8
        };
        proof {
            assert(byte >> 4u8 < 16 && byte & 0xfu8 < 16) by (bit_vector);
            lemma_hex_of_bytes_index(hash@, i as int / 2);
            lemma_hex_digit_zero(nib);
            assert(i as int == 2 * (i as int / 2) + (i as int % 2));
            assert(hex_of_bytes(hash@)[i as int] == hex_digit(nib));
        }
        if nib != 0 {
            return false;
        }
        i += 1;
    }
    true
}

} // verus!
