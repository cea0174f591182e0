//! The in-memory model of the chain store: blocks keyed by hash with one
//! distinguished tip. The tip is the highest-height block known, ties
//! broken by first seen; every non-genesis block extends a stored block.

use vstd::prelude::*;
use crate::block::Block;
use crate::block::BlockModel;
use crate::block::block_wf;
use crate::block::block_wf_check;
use crate::codec::clone_bytes;
use crate::codec::eq_bytes;

verus! {

/// Failures of the chain store.
#[derive(Clone, Copy, Debug, PartialEq, Eq, Structural)]
pub enum ChainError {
    /// The backing store cannot be opened.
    StorageInit,
    /// A write to the backing store failed.
    Storage,
    /// The persisted records do not form a valid chain.
    CorruptStore,
    /// The block extends no stored block.
    BadAncestry,
}

/// The views of a sequence of blocks, in order.
pub open spec fn block_views(bs: Seq<Block>) -> Seq<BlockModel> {
    bs.map_values(|b: Block| b@)
}

/// Appending a block appends its view.
pub proof fn lemma_block_views_push(bs: Seq<Block>, b: Block)
    ensures
        block_views(bs.push(b)) == block_views(bs).push(b@),
{
    assert(block_views(bs.push(b)) =~= block_views(bs).push(b@));
}

/// Whether some stored block carries the hash `h`.
pub open spec fn has_block(s: Seq<BlockModel>, h: Seq<u8>) -> bool {
    exists|i: int| 0 <= i < s.len() && (#[trigger] s[i]).hash == h
}

/// Whether `b` extends a stored block: its predecessor hash resolves and
/// its height is the predecessor's plus one.
pub open spec fn links_ok(s: Seq<BlockModel>, b: BlockModel) -> bool {
    exists|i: int|
        0 <= i < s.len() && (#[trigger] s[i]).hash == b.prev_hash && b.height == s[i].height + 1
}

/// Every stored block is well formed.
pub open spec fn all_wf(s: Seq<BlockModel>) -> bool {
    forall|i: int| 0 <= i < s.len() ==> block_wf(#[trigger] s[i])
}

/// No two stored blocks share a hash.
pub open spec fn unique_hashes(s: Seq<BlockModel>) -> bool {
    forall|i: int, j: int|
        0 <= i < s.len() && 0 <= j < s.len() && i != j ==> (#[trigger] s[i]).hash != (
        #[trigger] s[j]).hash
}

/// Every stored height is at most `h`.
pub open spec fn heights_bounded(s: Seq<BlockModel>, h: int) -> bool {
    forall|i: int| 0 <= i < s.len() ==> (#[trigger] s[i]).height <= h
}

/// Every stored non-genesis block extends a stored block.
pub open spec fn ancestry_ok(s: Seq<BlockModel>) -> bool {
    forall|i: int| 0 <= i < s.len() && (#[trigger] s[i]).height != 0 ==> links_ok(s, s[i])
}

/// What a loaded store must look like for a tip hash to be trusted: well
/// formed, hash-unique blocks, a resolving tip of maximal height, and
/// complete ancestry.
pub open spec fn valid_store(s: Seq<BlockModel>, tiph: Seq<u8>) -> bool {
    &&& s.len() > 0
    &&& all_wf(s)
    &&& unique_hashes(s)
    &&& ancestry_ok(s)
    &&& exists|t: int|
        0 <= t < s.len() && (#[trigger] s[t]).hash == tiph && heights_bounded(
            s,
            s[t].height as int,
        )
}

/// The chain store's in-memory state: the blocks, and the index of the
/// tip among them.
pub struct Chain {
    blocks: Vec<Block>,
    tip_idx: usize,
}

impl Chain {
    /// The stored blocks, as mathematical values, in insertion order.
    pub closed spec fn blocks_view(self) -> Seq<BlockModel> {
        block_views(self.blocks@)
    }

    /// The tip block.
    pub closed spec fn tip(self) -> BlockModel {
        self.blocks_view()[self.tip_idx as int]
    }

    /// The store's invariant: blocks are well formed with unique hashes,
    /// the tip is stored and of maximal height, and every non-genesis
    /// block extends a stored block.
    pub closed spec fn wf(self) -> bool {
        &&& 0 < self.blocks@.len()
        &&& self.tip_idx < self.blocks@.len()
        &&& all_wf(self.blocks_view())
        &&& unique_hashes(self.blocks_view())
        &&& heights_bounded(self.blocks_view(), self.tip().height as int)
        &&& ancestry_ok(self.blocks_view())
    }

    /// A store holding only the genesis block, which is its tip.
    pub fn new_genesis(genesis: Block) -> (r: Chain)
        requires
            block_wf(genesis@),
            genesis@.height == 0,
        ensures
            r.wf(),
            r.blocks_view() =~= seq![genesis@],
            r.tip() == genesis@,
    {
        let mut blocks: Vec<Block> = Vec::new();
        blocks.push(genesis);
        let r = Chain { blocks, tip_idx: 0 };
        proof {
            assert(r.blocks_view() =~= seq![genesis@]);
        }
        r
    }

    /// Whether a block with hash `h` is stored.
    pub fn contains_hash(&self, h: &[u8]) -> (r: bool)
        ensures
            r == has_block(self.blocks_view(), h@),
    {
        let mut i: usize = 0;
        while i < self.blocks.len()
            invariant
                i <= self.blocks@.len(),
                forall|j: int| 0 <= j < i ==> (#[trigger] self.blocks_view()[j]).hash != h@,
            decreases self.blocks@.len() - i,
        {
            if eq_bytes(self.blocks[i].hash.as_slice(), h) {
                proof {
                    assert((#[trigger] self.blocks_view()[i as int]).hash == h@);
                }
                return true;
            }
            i += 1;
        }
        false
    }

    /// The stored block with hash `h`, if any.
    pub fn get_block(&self, h: &[u8]) -> (r: Option<&Block>)
        ensures
            (match r {
                Some(b) => has_block(self.blocks_view(), h@) && b@.hash == h@ && exists|i: int|
                    0 <= i < self.blocks_view().len() && (#[trigger] self.blocks_view()[i]) == b@,
                None => !has_block(self.blocks_view(), h@),
            }),
    {
        let mut i: usize = 0;
        while i < self.blocks.len()
            invariant
                i <= self.blocks@.len(),
                forall|j: int| 0 <= j < i ==> (#[trigger] self.blocks_view()[j]).hash != h@,
            decreases self.blocks@.len() - i,
        {
            if eq_bytes(self.blocks[i].hash.as_slice(), h) {
                proof {
                    assert((#[trigger] self.blocks_view()[i as int]).hash == h@);
                }
                return Some(&self.blocks[i]);
            }
            i += 1;
        }
        None
    }

    /// The tip block.
    pub fn tip_block(&self) -> (r: &Block)
        requires
            self.wf(),
        ensures
            r@ == self.tip(),
    {
        &self.blocks[self.tip_idx]
    }

    /// A copy of the tip block's hash.
    pub fn tip_hash(&self) -> (r: Vec<u8>)
        requires
            self.wf(),
        ensures
            r@ == self.tip().hash,
    {
        clone_bytes(self.blocks[self.tip_idx].hash.as_slice())
    }

    /// The tip block's height.
    pub fn tip_height(&self) -> (r: u64)
        requires
            self.wf(),
        ensures
            r == self.tip().height,
    {
        self.blocks[self.tip_idx].height
    }

    /// How many blocks are stored.
    pub fn len(&self) -> (r: usize)
        ensures
            r == self.blocks_view().len(),
    {
        self.blocks.len()
    }

    /// Whether `block` extends a stored block, decided at run time.
    pub fn links_check(&self, block: &Block) -> (r: bool)
        ensures
            r == links_ok(self.blocks_view(), block@),
    {
        if block.height == 0 {
            proof {
                assert(forall|i: int|
                    0 <= i < self.blocks_view().len() ==> block@.height != (
                    #[trigger] self.blocks_view()[i]).height + 1);
            }
            return false;
        }
        let mut i: usize = 0;
        while i < self.blocks.len()
            invariant
                i <= self.blocks@.len(),
                block@.height != 0,
                forall|j: int|
                    0 <= j < i ==> !((#[trigger] self.blocks_view()[j]).hash == block@.prev_hash
                        && block@.height == self.blocks_view()[j].height + 1),
            decreases self.blocks@.len() - i,
        {
            if self.blocks[i].height == block.height - 1 && eq_bytes(
                self.blocks[i].hash.as_slice(),
                block.prev_hash.as_slice(),
            ) {
                proof {
                    assert((#[trigger] self.blocks_view()[i as int]).hash == block@.prev_hash
                        && block@.height == self.blocks_view()[i as int].height + 1);
                }
                return true;
            }
            i += 1;
        }
        false
    }

    /// Adds a block. A block already stored is accepted again without any
    /// effect; a new block is accepted exactly when it extends a stored
    /// block, and becomes the tip exactly when its height is strictly
    /// greater than the tip's. The tip's height never decreases.
    pub fn add_block(&mut self, block: &Block) -> (r: Result<(), ChainError>)
        requires
            old(self).wf(),
            block_wf(block@),
        ensures
            final(self).wf(),
            final(self).tip().height >= old(self).tip().height,
            (if has_block(old(self).blocks_view(), block@.hash) {
                r == Ok::<(), ChainError>(()) && final(self).blocks_view() == old(
                    self,
                ).blocks_view() && final(self).tip() == old(self).tip()
            } else if links_ok(old(self).blocks_view(), block@) {
                r == Ok::<(), ChainError>(()) && final(self).blocks_view() == old(
                    self,
                ).blocks_view().push(block@) && final(self).tip() == (if block@.height > old(
                    self,
                ).tip().height {
                    block@
                } else {
                    old(self).tip()
                })
            } else {
                r == Err::<(), ChainError>(ChainError::BadAncestry) && final(self).blocks_view()
                    == old(self).blocks_view() && final(self).tip() == old(self).tip()
            }),
    {
        if self.contains_hash(block.hash.as_slice()) {
            return Ok(());
        }
        if !self.links_check(block) {
            return Err(ChainError::BadAncestry);
        }
        let ghost pre = self.blocks_view();
        let advance = block.height > self.blocks[self.tip_idx].height;
        self.blocks.push(block.clone());
        proof {
            lemma_block_views_push(old(self).blocks@, self.blocks@[self.blocks@.len() - 1]);
            assert(self.blocks_view() =~= pre.push(block@));
        }
        if advance {
            self.tip_idx = self.blocks.len() - 1;
        }
        proof {
            let s = self.blocks_view();
            let n = pre.len() as int;
            assert(forall|i: int| 0 <= i < n ==> s[i] == pre[i]);
            assert(s[n] == block@);
            assert(all_wf(s));
            assert forall|i: int, j: int|
                0 <= i < s.len() && 0 <= j < s.len() && i != j implies (#[trigger] s[i]).hash != (
            #[trigger] s[j]).hash by {
                if i < n && j < n {
                } else if i == n {
                    assert(!has_block(pre, block@.hash));
                } else if j == n {
                    assert(!has_block(pre, block@.hash));
                }
            }
            assert(heights_bounded(s, self.tip().height as int));
            assert forall|i: int|
                0 <= i < s.len() && (#[trigger] s[i]).height != 0 implies links_ok(s, s[i]) by {
                if i < n {
                    let w = choose|w: int|
                        0 <= w < pre.len() && (#[trigger] pre[w]).hash == pre[i].prev_hash
                            && pre[i].height == pre[w].height + 1;
                    assert(s[w].hash == s[i].prev_hash && s[i].height == s[w].height + 1);
                } else {
                    let w = choose|w: int|
                        0 <= w < pre.len() && (#[trigger] pre[w]).hash == block@.prev_hash
                            && block@.height == pre[w].height + 1;
                    assert(s[w].hash == s[i].prev_hash && s[i].height == s[w].height + 1);
                }
            }
        }
        Ok(())
    }
}

/// Whether `b` extends one of `blocks`, decided at run time.
fn links_scan(blocks: &Vec<Block>, b: &Block) -> (r: bool)
    ensures
        r == links_ok(block_views(blocks@), b@),
{
    if b.height == 0 {
        proof {
            assert(forall|i: int|
                0 <= i < block_views(blocks@).len() ==> b@.height != (#[trigger] block_views(
                    blocks@,
                )[i]).height + 1);
        }
        return false;
    }
    let mut i: usize = 0;
    while i < blocks.len()
        invariant
            i <= blocks@.len(),
            b@.height != 0,
            forall|j: int|
                0 <= j < i ==> !((#[trigger] block_views(blocks@)[j]).hash == b@.prev_hash
                    && b@.height == block_views(blocks@)[j].height + 1),
        decreases blocks@.len() - i,
    {
        if blocks[i].height == b.height - 1 && eq_bytes(
            blocks[i].hash.as_slice(),
            b.prev_hash.as_slice(),
        ) {
            proof {
                assert((#[trigger] block_views(blocks@)[i as int]).hash == b@.prev_hash
                    && b@.height == block_views(blocks@)[i as int].height + 1);
            }
            return true;
        }
        i += 1;
    }
    false
}

impl Chain {
    /// Rebuilds a store from loaded blocks and the recorded tip hash.
    /// Succeeds exactly when they form a valid store; anything else is
    /// corruption, to be surfaced rather than silently continued from.
    #[verifier::loop_isolation(false)]
    pub fn from_blocks(blocks: Vec<Block>, tip_hash: &[u8]) -> (r: Result<Chain, ChainError>)
        ensures
            (match r {
                Ok(c) => {
                    &&& valid_store(block_views(blocks@), tip_hash@)
                    &&& c.wf()
                    &&& c.blocks_view() == block_views(blocks@)
                    &&& c.tip().hash == tip_hash@
                },
                Err(e) => e == ChainError::CorruptStore && !valid_store(
                    block_views(blocks@),
                    tip_hash@,
                ),
            }),
    {
        let ghost s = block_views(blocks@);
        let n = blocks.len();
        if n == 0 {
            return Err(ChainError::CorruptStore);
        }
        let mut i: usize = 0;
        while i < n
            invariant
                n == blocks@.len(),
                i <= n,
                forall|j: int| 0 <= j < i ==> block_wf(#[trigger] block_views(blocks@)[j]),
            decreases n - i,
        {
            if !block_wf_check(&blocks[i]) {
                proof {
                    assert(!block_wf(#[trigger] block_views(blocks@)[i as int]));
                }
                return Err(ChainError::CorruptStore);
            }
            i += 1;
        }
        let mut a: usize = 0;
        while a < n
            invariant
                n == blocks@.len(),
                a <= n,
                forall|x: int, y: int|
                    0 <= x < a && x < y < n ==> (#[trigger] block_views(blocks@)[x]).hash != (
                    #[trigger] block_views(blocks@)[y]).hash,
            decreases n - a,
        {
            let mut b = a + 1;
            while b < n
                invariant
                    n == blocks@.len(),
                    a < n,
                    a < b <= n,
                    forall|y: int|
                        a < y < b ==> (#[trigger] block_views(blocks@)[a as int]).hash != (
                        #[trigger] block_views(blocks@)[y]).hash,
                decreases n - b,
            {
                if eq_bytes(blocks[a].hash.as_slice(), blocks[b].hash.as_slice()) {
                    proof {
                        assert((#[trigger] block_views(blocks@)[a as int]).hash == (
                        #[trigger] block_views(blocks@)[b as int]).hash);
                        assert(!unique_hashes(s));
                    }
                    return Err(ChainError::CorruptStore);
                }
                b += 1;
            }
            a += 1;
        }
        proof {
            assert forall|x: int, y: int|
                0 <= x < s.len() && 0 <= y < s.len() && x != y implies (#[trigger] s[x]).hash != (
            #[trigger] s[y]).hash by {
                if x < y {
                } else {
                    assert((#[trigger] block_views(blocks@)[y]).hash != (#[trigger] block_views(
                        blocks@,
                    )[x]).hash);
                }
            }
        }
        let mut t: usize = 0;
        let mut t_found = false;
        let mut k: usize = 0;
        while k < n
            invariant
                n == blocks@.len(),
                k <= n,
                !t_found ==> forall|j: int|
                    0 <= j < k ==> (#[trigger] block_views(blocks@)[j]).hash != tip_hash@,
                t_found ==> t < n && (#[trigger] block_views(blocks@)[t as int]).hash == tip_hash@,
            decreases n - k,
        {
            if !t_found && eq_bytes(blocks[k].hash.as_slice(), tip_hash) {
                t = k;
                t_found = true;
                proof {
                    assert((#[trigger] block_views(blocks@)[t as int]).hash == tip_hash@);
                }
            }
            k += 1;
        }
        if !t_found {
            proof {
                assert(forall|t2: int|
                    0 <= t2 < s.len() ==> (#[trigger] s[t2]).hash != tip_hash@);
            }
            return Err(ChainError::CorruptStore);
        }
        let tip_height = blocks[t].height;
        let mut h: usize = 0;
        while h < n
            invariant
                n == blocks@.len(),
                h <= n,
                t < n,
                tip_height == block_views(blocks@)[t as int].height,
                forall|j: int|
                    0 <= j < h ==> (#[trigger] block_views(blocks@)[j]).height <= tip_height,
            decreases n - h,
        {
            if blocks[h].height > tip_height {
                proof {
                    assert((#[trigger] s[h as int]).height > tip_height);
                    assert forall|t2: int|
                        0 <= t2 < s.len() && (#[trigger] s[t2]).hash == tip_hash@ implies
                        !heights_bounded(s, s[t2].height as int) by {
                        assert(t2 == t as int);
                    }
                }
                return Err(ChainError::CorruptStore);
            }
            h += 1;
        }
        let mut c: usize = 0;
        while c < n
            invariant
                n == blocks@.len(),
                c <= n,
                forall|j: int|
                    0 <= j < c && (#[trigger] block_views(blocks@)[j]).height != 0 ==> links_ok(
                        block_views(blocks@),
                        block_views(blocks@)[j],
                    ),
            decreases n - c,
        {
            if blocks[c].height != 0 && !links_scan(&blocks, &blocks[c]) {
                proof {
                    assert((#[trigger] s[c as int]).height != 0 && !links_ok(s, s[c as int]));
                    assert(!ancestry_ok(s));
                }
                return Err(ChainError::CorruptStore);
            }
            c += 1;
        }
        let r = Chain { blocks, tip_idx: t };
        proof {
            assert((#[trigger] s[t as int]).hash == tip_hash@ && heights_bounded(
                s,
                s[t as int].height as int,
            ));
        }
        Ok(r)
    }
}

/// For all blocks: a block is at height zero exactly when its predecessor
/// hash is empty.
pub proof fn lemma_height_zero_iff_genesis(b: BlockModel)
    requires
        block_wf(b),
    ensures
        b.height == 0 <==> b.prev_hash.len() == 0,
{
}

/// For all valid chains: every stored non-genesis block has a stored
/// predecessor whose hash it names and whose height is one less.
pub proof fn lemma_ancestry(c: Chain, i: int)
    requires
        c.wf(),
        0 <= i < c.blocks_view().len(),
        c.blocks_view()[i].height != 0,
    ensures
        exists|j: int|
            0 <= j < c.blocks_view().len() && (#[trigger] c.blocks_view()[j]).hash
                == c.blocks_view()[i].prev_hash && c.blocks_view()[i].height == c.blocks_view()[
            j].height + 1,
{
}

/// For all valid chains: the tip is stored and no stored block is higher.
pub proof fn lemma_tip_is_highest(c: Chain, i: int)
    requires
        c.wf(),
        0 <= i < c.blocks_view().len(),
    ensures
        has_block(c.blocks_view(), c.tip().hash),
        c.blocks_view()[i].height <= c.tip().height,
{
    assert((#[trigger] c.blocks_view()[c.tip_idx as int]).hash == c.tip().hash);
}

} // verus!
