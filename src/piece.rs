use sha1::Digest;
use vstd::prelude::*;

use crate::metainfo::{lemma_piece_geometry, piece_len_at, pieces_for};

verus! {

/// Size of a block, the unit requested from a peer; the last block of a piece
/// may be shorter.
pub const BLOCK_SIZE: usize = 16384;

/// Number of blocks in a piece of `len` bytes.
pub open spec fn blocks_for(len: int) -> int {
    pieces_for(len, BLOCK_SIZE as int)
}

/// Length of block `k` of a piece of `len` bytes.
pub open spec fn block_len_at(len: int, k: int) -> int {
    piece_len_at(len, BLOCK_SIZE as int, k)
}

/// `s` with the bytes from `off` on replaced by `d`.
pub open spec fn spliced(s: Seq<u8>, off: int, d: Seq<u8>) -> Seq<u8> {
    s.subrange(0, off) + d + s.subrange(off + d.len(), s.len() as int)
}

/// The SHA-1 digest of `data`.
pub uninterp spec fn sha1_of(data: Seq<u8>) -> Seq<u8>;

/// Relies on `sha1::Sha1::digest`: the 20-byte SHA-1 digest of the input.
#[verifier::external_body]
fn sha1_digest(data: &[u8]) -> (r: [u8; 20])
    ensures
        r@ == sha1_of(data@),
{
    sha1::Sha1::digest(data).into()
}

/// Whether two digests are equal, byte for byte.
pub fn digests_equal(a: &[u8; 20], b: &[u8; 20]) -> (r: bool)
    ensures
        r == (a@ == b@),
{
    let mut i: usize = 0;
    while i < 20
        invariant
            0 <= i <= 20,
            forall|j: int| 0 <= j < i ==> a@[j] == b@[j],
        decreases 20 - i,
    {
        if a[i] != b[i] {
            return false;
        }
        i = i + 1;
    }
    assert(a@ =~= b@);
    true
}

/// Number of blocks in a piece of `len` bytes.
pub fn num_blocks(len: usize) -> (r: usize)
    ensures
        r as int == blocks_for(len as int),
{
    if len == 0 {
        0
    } else {
        (len - 1) / BLOCK_SIZE + 1
    }
}

/// Checks `digest` against the expected digest of a piece whose assembled
/// bytes produced it: true exactly when all blocks are in and the digests agree.
pub fn digest_matches(all_blocks: bool, digest: &[u8; 20], expected: &[u8; 20]) -> (r: bool)
    ensures
        r == (all_blocks && digest@ == expected@),
{
    all_blocks && digests_equal(digest, expected)
}

/// One piece being assembled from blocks and checked against its digest.
pub struct Piece {
    index: usize,
    length: usize,
    hash: [u8; 20],
    data: Vec<u8>,
    received: Vec<bool>,
    verified: bool,
}

impl Piece {
    pub closed spec fn spec_index(&self) -> usize {
        self.index
    }

    pub closed spec fn spec_length(&self) -> usize {
        self.length
    }

    pub closed spec fn spec_hash(&self) -> [u8; 20] {
        self.hash
    }

    /// Index of the piece in the torrent.
    #[verifier::when_used_as_spec(spec_index)]
    pub fn index(&self) -> (r: usize)
        ensures
            r == self.spec_index(),
    {
        self.index
    }

    /// Expected length of the piece in bytes.
    #[verifier::when_used_as_spec(spec_length)]
    pub fn length(&self) -> (r: usize)
        ensures
            r == self.spec_length(),
    {
        self.length
    }

    /// Expected SHA-1 digest of the piece.
    #[verifier::when_used_as_spec(spec_hash)]
    pub fn hash(&self) -> (r: [u8; 20])
        ensures
            r == self.spec_hash(),
    {
        self.hash
    }

    /// The piece's bytes as assembled so far (zero where no block has come).
    pub closed spec fn bytes(&self) -> Seq<u8> {
        self.data@
    }

    /// For each block, whether it has been received.
    pub closed spec fn received(&self) -> Seq<bool> {
        self.received@
    }

    /// Whether the piece passed its digest check.
    pub closed spec fn verified(&self) -> bool {
        self.verified
    }

    pub open spec fn all_received(&self) -> bool {
        forall|k: int| 0 <= k < self.received().len() ==> #[trigger] self.received()[k]
    }

    /// Whether the assembled bytes hash to the expected digest.
    pub open spec fn hash_ok(&self) -> bool {
        sha1_of(self.bytes()) == self.hash()@
    }

    /// `(off, len)` is the lowest-numbered block not yet received.
    pub open spec fn is_next_block(&self, off: int, len: int) -> bool {
        let k = off / BLOCK_SIZE as int;
        &&& off == k * BLOCK_SIZE as int
        &&& 0 <= k < self.received().len()
        &&& !self.received()[k]
        &&& forall|j: int| 0 <= j < k ==> #[trigger] self.received()[j]
        &&& len == block_len_at(self.length() as int, k)
        &&& 0 <= off
        &&& off + len <= self.length()
    }

    pub open spec fn wf(&self) -> bool {
        &&& self.bytes().len() == self.length()
        &&& self.received().len() == blocks_for(self.length() as int)
        &&& self.verified() ==> self.all_received() && self.hash_ok()
    }

    /// A fresh piece with no blocks.
    pub fn new(index: usize, length: usize, hash: [u8; 20]) -> (r: Piece)
        ensures
            r.wf(),
            r.index() == index,
            r.length() == length,
            r.hash() == hash,
            !r.verified(),
            forall|k: int| 0 <= k < r.received().len() ==> !#[trigger] r.received()[k],
    {
        let mut data: Vec<u8> = Vec::new();
        let mut i: usize = 0;
        while i < length
            invariant
                i <= length,
                data@.len() == i,
            decreases length - i,
        {
            data.push(0);
            i = i + 1;
        }
        let n = num_blocks(length);
        let mut received: Vec<bool> = Vec::new();
        let mut k: usize = 0;
        while k < n
            invariant
                k <= n,
                received@.len() == k,
                forall|j: int| 0 <= j < k ==> !#[trigger] received@[j],
            decreases n - k,
        {
            received.push(false);
            k = k + 1;
        }
        Piece { index, length, hash, data, received, verified: false }
    }

    /// Whether the piece has been verified against its digest.
    pub fn is_complete(&self) -> (r: bool)
        ensures
            r == self.verified(),
    {
        self.verified
    }

    /// Whether every block has been received.
    pub fn has_all_blocks(&self) -> (r: bool)
        requires
            self.wf(),
        ensures
            r == self.all_received(),
    {
        let mut k: usize = 0;
        while k < self.received.len()
            invariant
                k <= self.received@.len(),
                forall|j: int| 0 <= j < k ==> self.received@[j],
            decreases self.received@.len() - k,
        {
            if !self.received[k] {
                assert(!self.received()[k as int]);
                return false;
            }
            k = k + 1;
        }
        true
    }

    /// Records the block that starts at `offset`. A block is taken when the
    /// piece is not yet verified, `offset` is the start of one of its blocks and
    /// `block` has that block's length; a block sent again overwrites the first.
    /// Returns whether the block was taken; otherwise the piece is unchanged.
    pub fn add_block(&mut self, offset: usize, block: Vec<u8>) -> (r: bool)
        requires
            old(self).wf(),
        ensures
            final(self).wf(),
            final(self).index() == old(self).index(),
            final(self).length() == old(self).length(),
            final(self).hash() == old(self).hash(),
            r == (!old(self).verified() && offset % BLOCK_SIZE == 0 && offset < old(self).length()
                && block@.len() == block_len_at(old(self).length() as int, offset as int / BLOCK_SIZE as int)),
            r ==> final(self).bytes() == spliced(old(self).bytes(), offset as int, block@),
            r ==> final(self).received() == old(self).received().update(
                offset as int / BLOCK_SIZE as int,
                true,
            ),
            r ==> !final(self).verified(),
            !r ==> final(self).bytes() == old(self).bytes() && final(self).received() == old(
                self,
            ).received() && final(self).verified() == old(self).verified(),
    {
        if self.verified || offset % BLOCK_SIZE != 0 || offset >= self.length {
            return false;
        }
        let k = offset / BLOCK_SIZE;
        proof {
            assert(k * BLOCK_SIZE == offset);
            assert(k < blocks_for(self.length as int)) by {
                assert(offset <= self.length - 1);
                vstd::arithmetic::div_mod::lemma_div_is_ordered(
                    offset as int,
                    self.length - 1,
                    BLOCK_SIZE as int,
                );
            }
            lemma_piece_geometry(self.length as int, BLOCK_SIZE as int, k as int);
        }
        let expected = if k == num_blocks(self.length) - 1 {
            self.length - offset
        } else {
            BLOCK_SIZE
        };
        if block.len() != expected {
            return false;
        }
        let ghost before = self.data@;
        let mut j: usize = 0;
        while j < block.len()
            invariant
                j <= block@.len(),
                offset + block@.len() <= self.length,
                self.data@.len() == before.len(),
                before.len() == self.length,
                self.index == old(self).index,
                self.length == old(self).length,
                self.hash == old(self).hash,
                self.received == old(self).received,
                self.verified == old(self).verified,
                !self.verified,
                (k as int) < self.received@.len(),
                forall|t: int|
                    0 <= t < before.len() ==> #[trigger] self.data@[t] == if offset <= t < offset
                        + j {
                        block@[t - offset]
                    } else {
                        before[t]
                    },
            decreases block@.len() - j,
        {
            self.data.set(offset + j, block[j]);
            j = j + 1;
        }
        self.received.set(k, true);
        assert(self.data@ =~= spliced(before, offset as int, block@));
        true
    }

    /// The next block still missing, as `(offset, length)`: the lowest-numbered
    /// block not yet received, or `None` once every block is in.
    pub fn next_block_to_request(&self) -> (r: Option<(usize, usize)>)
        requires
            self.wf(),
        ensures
            r.is_none() == self.all_received(),
            r matches Some((off, len)) ==> self.is_next_block(off as int, len as int),
    {
        let n = self.received.len();
        let mut k: usize = 0;
        while k < n
            invariant
                n == self.received@.len(),
                n == blocks_for(self.length as int),
                k <= n,
                forall|j: int| 0 <= j < k ==> self.received@[j],
            decreases n - k,
        {
            if !self.received[k] {
                proof {
                    lemma_piece_geometry(self.length as int, BLOCK_SIZE as int, k as int);
                }
                let off = k * BLOCK_SIZE;
                let len = if k == n - 1 {
                    self.length - off
                } else {
                    BLOCK_SIZE
                };
                assert(off as int / BLOCK_SIZE as int == k) by {
                    vstd::arithmetic::div_mod::lemma_div_multiples_vanish(
                        k as int,
                        BLOCK_SIZE as int,
                    );
                }
                assert(off % BLOCK_SIZE == 0) by {
                    vstd::arithmetic::div_mod::lemma_mod_multiples_basic(
                        k as int,
                        BLOCK_SIZE as int,
                    );
                }
                assert(!self.received()[k as int]);
                return Some((off, len));
            }
            k = k + 1;
        }
        None
    }

    /// Checks the assembled bytes against the expected digest. Fails closed:
    /// while a block is missing the answer is false and no digest is taken.
    /// The piece counts as complete from then on exactly when this returns true.
    pub fn verify(&mut self) -> (r: bool)
        requires
            old(self).wf(),
        ensures
            final(self).wf(),
            r == (old(self).all_received() && old(self).hash_ok()),
            final(self).verified() == r,
            final(self).index() == old(self).index(),
            final(self).length() == old(self).length(),
            final(self).hash() == old(self).hash(),
            final(self).bytes() == old(self).bytes(),
            final(self).received() == old(self).received(),
    {
        if !self.has_all_blocks() {
            self.verified = false;
            return false;
        }
        let digest = sha1_digest(self.data.as_slice());
        let ok = digest_matches(true, &digest, &self.hash);
        self.verified = ok;
        ok
    }

    /// The assembled bytes, only once the piece is verified.
    pub fn data(&self) -> (r: Option<Vec<u8>>)
        ensures
            r.is_some() == self.verified(),
            r matches Some(d) ==> d@ == self.bytes(),
    {
        if self.verified {
            Some(self.data.clone())
        } else {
            None
        }
    }
}

/// Block requests move forward: once the block that `next_block_to_request`
/// named has been received, the next block it names starts further on. So
/// every block still missing is named before the piece is whole, and no block
/// already received is named again.
pub proof fn lemma_next_block_advances(
    p: Piece,
    q: Piece,
    off: int,
    len: int,
    off2: int,
    len2: int,
)
    requires
        p.wf(),
        p.is_next_block(off, len),
        q.length() == p.length(),
        q.received() == p.received().update(off / BLOCK_SIZE as int, true),
        q.is_next_block(off2, len2),
    ensures
        off2 > off,
        !p.received()[off / BLOCK_SIZE as int],
        q.received()[off / BLOCK_SIZE as int],
{
    let k = off / BLOCK_SIZE as int;
    let k2 = off2 / BLOCK_SIZE as int;
    if k2 <= k {
        if k2 < k {
            assert(p.received()[k2]);
        }
        assert(q.received()[k2]);
    }
    assert(k2 > k);
    vstd::arithmetic::div_mod::lemma_fundamental_div_mod(off, BLOCK_SIZE as int);
    vstd::arithmetic::div_mod::lemma_fundamental_div_mod(off2, BLOCK_SIZE as int);
    assert(BLOCK_SIZE as int * k2 > BLOCK_SIZE as int * k) by (nonlinear_arith)
        requires
            k2 > k,
    ;
}

} // verus!
