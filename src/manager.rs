use vstd::prelude::*;

use crate::metainfo::{lemma_piece_geometry, Metainfo};
use crate::piece::{digests_equal, Piece};
use crate::storage::{Storage, StorageError};

verus! {

/// Why a download could not be set up or carried on.
#[derive(Clone, Copy, Debug, PartialEq, Eq, Structural)]
pub enum DownloadError {
    /// The metadata cannot describe a download: a zero piece length, or not
    /// one digest per piece.
    Configuration,
    /// A verified piece could not be stored.
    Storage(StorageError),
}

/// What the shared table knows of one piece.
#[derive(Clone, Copy, Debug)]
pub struct PieceEntry {
    pub index: usize,
    pub length: usize,
    pub hash: [u8; 20],
    pub complete: bool,
}

/// Number of complete entries in `t`.
pub open spec fn count_complete(t: Seq<PieceEntry>) -> nat
    decreases t.len(),
{
    if t.len() == 0 {
        0
    } else {
        count_complete(t.drop_last()) + if t.last().complete {
            1nat
        } else {
            0nat
        }
    }
}

/// Whether the table takes `p` in place of its entry: `p` passed its digest
/// check, names an existing entry with the same length and digest, and that
/// entry is not complete yet.
pub open spec fn accepts(t: Seq<PieceEntry>, p: Piece) -> bool {
    &&& p.index() < t.len()
    &&& p.verified()
    &&& t[p.index() as int].length == p.length()
    &&& t[p.index() as int].hash@ == p.hash()@
    &&& !t[p.index() as int].complete
}

/// The table after offering it `p`.
pub open spec fn installed(t: Seq<PieceEntry>, p: Piece) -> Seq<PieceEntry> {
    if accepts(t, p) {
        t.update(p.index() as int, PieceEntry { complete: true, ..t[p.index() as int] })
    } else {
        t
    }
}

/// The first entry, by index, that is not complete and that the peer has.
pub open spec fn is_first_eligible(t: Seq<PieceEntry>, available: Seq<bool>, i: int) -> bool {
    &&& 0 <= i < t.len()
    &&& i < available.len()
    &&& available[i]
    &&& !t[i].complete
    &&& forall|j: int|
        0 <= j < i ==> (#[trigger] t[j]).complete || j >= available.len() || !available[j]
}

pub open spec fn no_eligible(t: Seq<PieceEntry>, available: Seq<bool>) -> bool {
    forall|j: int|
        0 <= j < t.len() ==> (#[trigger] t[j]).complete || j >= available.len() || !available[j]
}

/// Coordinates a download: the shared piece table, the storage image, and the
/// identity this client presents to peers.
pub struct DownloadManager {
    metainfo: Metainfo,
    pieces: Vec<PieceEntry>,
    storage: Storage,
    peer_id: [u8; 20],
    output_dir: String,
}

impl DownloadManager {
    pub closed spec fn table(&self) -> Seq<PieceEntry> {
        self.pieces@
    }

    pub closed spec fn spec_metainfo(&self) -> Metainfo {
        self.metainfo
    }

    pub closed spec fn spec_storage(&self) -> Storage {
        self.storage
    }

    pub closed spec fn spec_peer_id(&self) -> [u8; 20] {
        self.peer_id
    }

    pub closed spec fn spec_output_dir(&self) -> Seq<char> {
        self.output_dir@
    }

    /// Entry `i` describes piece `i` of `m`.
    pub open spec fn entry_matches(m: Metainfo, e: PieceEntry, i: int) -> bool {
        &&& e.index == i
        &&& e.length == m.spec_piece_len(i)
        &&& e.hash == m.info.pieces@[i]
    }

    pub open spec fn wf(&self) -> bool {
        &&& self.spec_metainfo().valid()
        &&& self.table().len() == self.spec_metainfo().spec_num_pieces()
        &&& forall|i: int|
            0 <= i < self.table().len() ==> Self::entry_matches(
                self.spec_metainfo(),
                #[trigger] self.table()[i],
                i,
            )
        &&& self.spec_storage().wf()
        &&& self.spec_storage().laid_out_for(self.spec_metainfo())
    }

    /// Builds the piece table, one entry per piece sized from the metadata, and
    /// an empty storage image. Fails with `Configuration` exactly when the
    /// metadata is not valid.
    pub fn new(metainfo: Metainfo, output_dir: &str, peer_id: [u8; 20]) -> (r: Result<
        DownloadManager,
        DownloadError,
    >)
        ensures
            r is Err <==> !metainfo.valid(),
            r is Err ==> r == Err::<DownloadManager, DownloadError>(DownloadError::Configuration),
            r matches Ok(m) ==> {
                &&& m.wf()
                &&& m.spec_metainfo() == metainfo
                &&& m.spec_peer_id() == peer_id
                &&& m.spec_output_dir() == output_dir@
                &&& forall|i: int| 0 <= i < m.table().len() ==> !(#[trigger] m.table()[i]).complete
                &&& forall|i: int|
                    0 <= i < m.spec_storage().written().len() ==> !(
                    #[trigger] m.spec_storage().written()[i])
            },
    {
        if !metainfo.is_valid() {
            return Err(DownloadError::Configuration);
        }
        let num_pieces = metainfo.num_pieces();
        let mut pieces: Vec<PieceEntry> = Vec::with_capacity(num_pieces);
        let mut i: usize = 0;
        while i < num_pieces
            invariant
                metainfo.valid(),
                num_pieces == metainfo.spec_num_pieces(),
                i <= num_pieces,
                pieces@.len() == i,
                forall|j: int|
                    0 <= j < i ==> Self::entry_matches(metainfo, #[trigger] pieces@[j], j)
                        && !pieces@[j].complete,
            decreases num_pieces - i,
        {
            let length = metainfo.piece_len(i);
            let hash = metainfo.info.pieces[i];
            pieces.push(PieceEntry { index: i, length, hash, complete: false });
            i = i + 1;
        }
        let storage = Storage::new(&metainfo);
        let output_dir = output_dir.to_string();
        Ok(DownloadManager { metainfo, pieces, storage, peer_id, output_dir })
    }

    /// The metadata of the download.
    pub fn metainfo(&self) -> (r: &Metainfo)
        ensures
            *r == self.spec_metainfo(),
    {
        &self.metainfo
    }

    /// The identity presented to peers.
    pub fn peer_id(&self) -> (r: [u8; 20])
        ensures
            r == self.spec_peer_id(),
    {
        self.peer_id
    }

    /// Where the downloaded file is to be written.
    pub fn output_dir(&self) -> (r: &str)
        ensures
            r@ == self.spec_output_dir(),
    {
        self.output_dir.as_str()
    }

    /// The storage image.
    pub fn storage(&self) -> (r: &Storage)
        ensures
            *r == self.spec_storage(),
    {
        &self.storage
    }

    /// The piece table.
    pub fn pieces(&self) -> (r: &[PieceEntry])
        ensures
            r@ == self.table(),
    {
        self.pieces.as_slice()
    }

    /// True iff every piece has been verified.
    pub fn is_complete(&self) -> (r: bool)
        ensures
            r == forall|i: int| 0 <= i < self.table().len() ==> (#[trigger] self.table()[i]).complete,
    {
        let mut i: usize = 0;
        while i < self.pieces.len()
            invariant
                i <= self.pieces@.len(),
                forall|j: int| 0 <= j < i ==> (#[trigger] self.pieces@[j]).complete,
            decreases self.pieces@.len() - i,
        {
            if !self.pieces[i].complete {
                assert(!self.table()[i as int].complete);
                return false;
            }
            i = i + 1;
        }
        true
    }

    /// `(verified pieces, all pieces)`.
    pub fn progress(&self) -> (r: (usize, usize))
        ensures
            r.0 as int == count_complete(self.table()),
            r.1 as int == self.table().len(),
    {
        let mut complete: usize = 0;
        let mut i: usize = 0;
        while i < self.pieces.len()
            invariant
                i <= self.pieces@.len(),
                complete as int == count_complete(self.pieces@.subrange(0, i as int)),
                complete <= i,
            decreases self.pieces@.len() - i,
        {
            proof {
                let s = self.pieces@.subrange(0, i as int + 1);
                assert(s.drop_last() =~= self.pieces@.subrange(0, i as int));
            }
            if self.pieces[i].complete {
                complete = complete + 1;
            }
            i = i + 1;
        }
        assert(self.pieces@.subrange(0, i as int) =~= self.pieces@);
        (complete, self.pieces.len())
    }

    /// The first piece, by index, that is not verified yet and that the peer
    /// has (`available[i]`), as a fresh piece ready to be filled; `None` when
    /// the peer has nothing more to give.
    pub fn select_piece(&self, available: &Vec<bool>) -> (r: Option<Piece>)
        requires
            self.wf(),
        ensures
            r is None <==> no_eligible(self.table(), available@),
            r matches Some(p) ==> {
                &&& is_first_eligible(self.table(), available@, p.index() as int)
                &&& p.wf()
                &&& p.length() == self.table()[p.index() as int].length
                &&& p.hash() == self.table()[p.index() as int].hash
                &&& !p.verified()
                &&& forall|k: int| 0 <= k < p.received().len() ==> !#[trigger] p.received()[k]
            },
    {
        let mut i: usize = 0;
        while i < self.pieces.len()
            invariant
                self.wf(),
                i <= self.pieces@.len(),
                forall|j: int|
                    0 <= j < i ==> (#[trigger] self.pieces@[j]).complete || j >= available@.len()
                        || !available@[j],
            decreases self.pieces@.len() - i,
        {
            let e = self.pieces[i];
            if !e.complete && i < available.len() && available[i] {
                assert(Self::entry_matches(self.spec_metainfo(), self.table()[i as int], i as int));
                return Some(Piece::new(e.index, e.length, e.hash));
            }
            i = i + 1;
        }
        None
    }

    /// Offers a piece to the table. It is taken, and its entry marked
    /// complete, exactly when `accepts` holds; an entry that is complete is
    /// never replaced.
    pub fn install_piece(&mut self, piece: &Piece) -> (r: bool)
        requires
            old(self).wf(),
            piece.wf(),
        ensures
            final(self).wf(),
            r == accepts(old(self).table(), *piece),
            final(self).table() == installed(old(self).table(), *piece),
            final(self).spec_metainfo() == old(self).spec_metainfo(),
            final(self).spec_storage() == old(self).spec_storage(),
            final(self).spec_peer_id() == old(self).spec_peer_id(),
            final(self).spec_output_dir() == old(self).spec_output_dir(),
    {
        let i = piece.index();
        if i >= self.pieces.len() || !piece.is_complete() {
            return false;
        }
        let e = self.pieces[i];
        if e.complete || e.length != piece.length() || !digests_equal(&e.hash, &piece.hash()) {
            return false;
        }
        self.pieces.set(i, PieceEntry { complete: true, ..e });
        proof {
            assert forall|j: int| 0 <= j < self.table().len() implies Self::entry_matches(
                self.spec_metainfo(),
                #[trigger] self.table()[j],
                j,
            ) by {
                if j != i {
                    assert(self.table()[j] == old(self).table()[j]);
                }
            }
        }
        true
    }

    /// Stores the bytes of a verified piece in the storage image.
    pub fn store_piece(&mut self, index: usize, data: &[u8]) -> (r: Result<(), DownloadError>)
        requires
            old(self).wf(),
        ensures
            final(self).wf(),
            final(self).table() == old(self).table(),
            final(self).spec_metainfo() == old(self).spec_metainfo(),
            r is Ok <==> (index < old(self).table().len() && data@.len() == old(
                self,
            ).table()[index as int].length),
            r matches Err(e) ==> e == DownloadError::Storage(
                if index >= old(self).table().len() {
                    StorageError::IndexOutOfRange
                } else {
                    StorageError::LengthMismatch
                },
            ),
            r is Ok ==> final(self).spec_storage().bytes() == crate::piece::spliced(
                old(self).spec_storage().bytes(),
                index as int * old(self).spec_metainfo().info.piece_length as int,
                data@,
            ),
            r is Ok ==> final(self).spec_storage().written() == old(
                self,
            ).spec_storage().written().update(index as int, true),
            r is Err ==> final(self).spec_storage().bytes() == old(self).spec_storage().bytes(),
    {
        match self.storage.write_piece(index, data) {
            Ok(()) => Ok(()),
            Err(e) => Err(DownloadError::Storage(e)),
        }
    }
}

/// A verified entry is never replaced: offering any piece for an index whose
/// entry is complete leaves the table as it was.
pub proof fn lemma_complete_entry_kept(t: Seq<PieceEntry>, p: Piece)
    requires
        p.index() < t.len(),
        t[p.index() as int].complete,
    ensures
        !accepts(t, p),
        installed(t, p) == t,
{
}

/// Two pieces for the same index offered one after the other: at most one is
/// taken, and if either passed its digest check and matches the entry, the
/// entry ends complete.
pub proof fn lemma_race_single_install(t: Seq<PieceEntry>, first: Piece, second: Piece)
    requires
        first.index() == second.index(),
        first.index() < t.len(),
    ensures
        ({
            let t1 = installed(t, first);
            let t2 = installed(t1, second);
            let i = first.index() as int;
            &&& !(accepts(t, first) && accepts(t1, second))
            &&& t2.len() == t.len()
            &&& (accepts(t, first) || accepts(t1, second)) ==> t2[i].complete
            &&& t[i].complete ==> t2 == t
            &&& forall|j: int| 0 <= j < t.len() && j != i ==> t2[j] == t[j]
        }),
{
}

} // verus!
