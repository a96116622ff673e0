use vstd::prelude::*;

use crate::metainfo::{lemma_piece_geometry, Metainfo};
use crate::piece::spliced;

verus! {

/// Why a piece could not be stored.
#[derive(Clone, Copy, Debug, PartialEq, Eq, Structural)]
pub enum StorageError {
    /// The index names no piece of the torrent.
    IndexOutOfRange,
    /// The bytes are not as long as the piece.
    LengthMismatch,
}

/// The image of the downloaded file: piece `i` occupies bytes
/// `[i * piece_length, i * piece_length + len(i))`.
pub struct Storage {
    contents: Vec<u8>,
    piece_length: usize,
    num_pieces: usize,
    written: Vec<bool>,
}

impl Storage {
    /// The file's bytes as stored so far (zero where nothing was written).
    pub closed spec fn bytes(&self) -> Seq<u8> {
        self.contents@
    }

    /// For each piece, whether it has been written at least once.
    pub closed spec fn written(&self) -> Seq<bool> {
        self.written@
    }

    pub closed spec fn spec_piece_length(&self) -> usize {
        self.piece_length
    }

    pub closed spec fn spec_num_pieces(&self) -> usize {
        self.num_pieces
    }

    /// The layout a storage image has for `m`.
    pub open spec fn laid_out_for(&self, m: Metainfo) -> bool {
        &&& self.bytes().len() == m.info.total_length
        &&& self.spec_piece_length() == m.info.piece_length
        &&& self.spec_num_pieces() == m.spec_num_pieces()
        &&& self.written().len() == m.spec_num_pieces()
    }

    /// Length of piece `i` in this layout.
    pub open spec fn piece_len_of(&self, i: int) -> int {
        crate::metainfo::piece_len_at(
            self.bytes().len() as int,
            self.spec_piece_length() as int,
            i,
        )
    }

    pub open spec fn wf(&self) -> bool {
        &&& self.spec_piece_length() > 0
        &&& self.spec_num_pieces() == crate::metainfo::pieces_for(
            self.bytes().len() as int,
            self.spec_piece_length() as int,
        )
        &&& self.written().len() == self.spec_num_pieces()
    }

    /// An empty image sized for the torrent described by `metainfo`.
    pub fn new(metainfo: &Metainfo) -> (r: Storage)
        requires
            metainfo.valid(),
        ensures
            r.wf(),
            r.laid_out_for(*metainfo),
            forall|t: int| 0 <= t < r.bytes().len() ==> r.bytes()[t] == 0u8,
            forall|i: int| 0 <= i < r.written().len() ==> !r.written()[i],
    {
        let total = metainfo.info.total_length;
        let mut contents: Vec<u8> = Vec::new();
        let mut i: usize = 0;
        while i < total
            invariant
                i <= total,
                contents@.len() == i,
                forall|t: int| 0 <= t < i ==> contents@[t] == 0u8,
            decreases total - i,
        {
            contents.push(0);
            i = i + 1;
        }
        let n = metainfo.num_pieces();
        let mut written: Vec<bool> = Vec::new();
        let mut k: usize = 0;
        while k < n
            invariant
                k <= n,
                written@.len() == k,
                forall|j: int| 0 <= j < k ==> !written@[j],
            decreases n - k,
        {
            written.push(false);
            k = k + 1;
        }
        Storage { contents, piece_length: metainfo.info.piece_length, num_pieces: n, written }
    }

    /// The stored bytes of the whole file.
    pub fn contents(&self) -> (r: &Vec<u8>)
        ensures
            r@ == self.bytes(),
    {
        &self.contents
    }

    /// Whether piece `index` has been written.
    pub fn is_written(&self, index: usize) -> (r: bool)
        ensures
            r == (index < self.written().len() && self.written()[index as int]),
    {
        index < self.written.len() && self.written[index]
    }

    /// Writes the bytes of piece `index` at its place in the file. Writing the
    /// same piece again with the same bytes leaves the image as one write does.
    pub fn write_piece(&mut self, index: usize, data: &[u8]) -> (r: Result<(), StorageError>)
        requires
            old(self).wf(),
        ensures
            final(self).wf(),
            final(self).spec_piece_length() == old(self).spec_piece_length(),
            final(self).spec_num_pieces() == old(self).spec_num_pieces(),
            final(self).bytes().len() == old(self).bytes().len(),
            index >= old(self).spec_num_pieces() ==> r == Err::<(), StorageError>(
                StorageError::IndexOutOfRange,
            ),
            index < old(self).spec_num_pieces() && data@.len() != old(self).piece_len_of(
                index as int,
            ) ==> r == Err::<(), StorageError>(StorageError::LengthMismatch),
            r is Ok <==> (index < old(self).spec_num_pieces() && data@.len() == old(
                self,
            ).piece_len_of(index as int)),
            r is Ok ==> final(self).bytes() == spliced(
                old(self).bytes(),
                index as int * old(self).spec_piece_length() as int,
                data@,
            ),
            r is Ok ==> final(self).written() == old(self).written().update(index as int, true),
            r is Err ==> final(self).bytes() == old(self).bytes() && final(self).written() == old(
                self,
            ).written(),
    {
        if index >= self.num_pieces {
            return Err(StorageError::IndexOutOfRange);
        }
        let total = self.contents.len();
        proof {
            lemma_piece_geometry(total as int, self.piece_length as int, index as int);
        }
        let offset = index * self.piece_length;
        let len = if index == self.num_pieces - 1 {
            total - offset
        } else {
            self.piece_length
        };
        if data.len() != len {
            return Err(StorageError::LengthMismatch);
        }
        let ghost before = self.contents@;
        let mut j: usize = 0;
        while j < data.len()
            invariant
                j <= data@.len(),
                offset + data@.len() <= total,
                total == before.len(),
                self.contents@.len() == total,
                self.piece_length == old(self).piece_length,
                self.num_pieces == old(self).num_pieces,
                self.written == old(self).written,
                index < self.written@.len(),
                forall|t: int|
                    0 <= t < total ==> #[trigger] self.contents@[t] == if offset <= t < offset
                        + j {
                        data@[t - offset]
                    } else {
                        before[t]
                    },
            decreases data@.len() - j,
        {
            self.contents.set(offset + j, data[j]);
            j = j + 1;
        }
        self.written.set(index, true);
        assert(self.contents@ =~= spliced(before, offset as int, data@));
        Ok(())
    }
}

/// Writing the same bytes at the same place twice leaves what one write leaves.
pub proof fn lemma_write_idempotent(s: Seq<u8>, off: int, d: Seq<u8>)
    requires
        0 <= off,
        off + d.len() <= s.len(),
    ensures
        spliced(spliced(s, off, d), off, d) == spliced(s, off, d),
{
    assert(spliced(spliced(s, off, d), off, d) =~= spliced(s, off, d));
}

/// Storing a piece twice with the same bytes gives the image that storing it
/// once gives: the second write changes nothing.
pub proof fn lemma_store_twice(st: Storage, index: int, d: Seq<u8>)
    requires
        st.wf(),
        0 <= index < st.spec_num_pieces(),
        d.len() == st.piece_len_of(index),
    ensures
        ({
            let once = spliced(st.bytes(), index * st.spec_piece_length(), d);
            spliced(once, index * st.spec_piece_length(), d) == once
        }),
{
    lemma_piece_geometry(st.bytes().len() as int, st.spec_piece_length() as int, index);
    lemma_write_idempotent(st.bytes(), index * st.spec_piece_length(), d);
}

} // verus!
