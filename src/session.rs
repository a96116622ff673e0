use vstd::prelude::*;

use crate::manager::{accepts, installed, is_first_eligible, no_eligible, DownloadManager};
use crate::metainfo::lemma_piece_geometry;
use crate::piece::{block_len_at, spliced, Piece, BLOCK_SIZE};

verus! {

/// A message from a peer, as far as the fetch loop reads it.
pub enum PeerMessage {
    Choke,
    Unchoke,
    Interested,
    NotInterested,
    /// The peer announces that it has piece `.0`.
    Have(u32),
    /// The peer's availability bitfield: bit `i` (high bit first) stands for piece `i`.
    Bitfield(Vec<u8>),
    /// A block of piece `index` starting at byte `begin`.
    Piece { index: u32, begin: u32, data: Vec<u8> },
    /// Any message the fetch loop does not read.
    Other,
}

/// What the driver of a peer session does next.
pub enum FetchAction {
    /// Read the next message and hand it to `on_message`.
    Receive,
    /// Send `interested`, then read the next message.
    SendInterested,
    /// Request `length` bytes of piece `index` from byte `begin`, then read the next message.
    Request { index: usize, begin: usize, length: usize },
    /// Lock the piece table and call `select`.
    Select,
    /// Lock the piece table and call `install`.
    Install,
    /// The session is over.
    Finish,
}

/// Where a peer session stands.
#[derive(Clone, Copy, Debug, PartialEq, Eq, Structural)]
pub enum FetchPhase {
    /// Waiting for the first message, expected to be the availability announcement.
    AwaitFirst,
    /// Interest sent; waiting to be unchoked.
    AwaitUnchoke,
    /// About to pick the next piece from the table.
    Selecting,
    /// Fetching the blocks of the current piece.
    Downloading,
    /// The current piece passed its digest check and waits to enter the table.
    Installing,
    /// The session is over.
    Done,
}

/// Whether bit `i` of a bitfield is set, the high bit of each byte first.
pub open spec fn bitfield_has(bits: Seq<u8>, i: int) -> bool {
    0 <= i / 8 < bits.len() && (bits[i / 8] >> ((7 - i % 8) as u8)) & 1u8 == 1u8
}

/// Availability of `n` pieces as a bitfield announces it.
pub open spec fn availability_of(bits: Seq<u8>, n: nat) -> Seq<bool> {
    Seq::new(n, |i: int| bitfield_has(bits, i))
}

/// Availability after a peer's message: a bitfield replaces it, `have`
/// adds one piece, anything else leaves it.
pub open spec fn recorded(av: Seq<bool>, m: Option<PeerMessage>) -> Seq<bool> {
    match m {
        Some(PeerMessage::Bitfield(bits)) => availability_of(bits@, av.len()),
        Some(PeerMessage::Have(i)) => if (i as int) < av.len() {
            av.update(i as int, true)
        } else {
            av
        },
        _ => av,
    }
}

/// The availability announced by `bits` for `n` pieces.
pub fn availability_from_bitfield(bits: &Vec<u8>, n: usize) -> (r: Vec<bool>)
    ensures
        r@ == availability_of(bits@, n as nat),
{
    let mut r: Vec<bool> = Vec::new();
    let mut i: usize = 0;
    while i < n
        invariant
            i <= n,
            r@.len() == i,
            forall|j: int| 0 <= j < i ==> r@[j] == bitfield_has(bits@, j),
        decreases n - i,
    {
        let byte = i / 8;
        let has = if byte < bits.len() {
            (bits[byte] >> ((7 - i % 8) as u8)) & 1u8 == 1u8
        } else {
            false
        };
        r.push(has);
        i = i + 1;
    }
    assert(r@ =~= availability_of(bits@, n as nat));
    r
}

/// The fetch loop of one peer, as a state machine: the driver performs each
/// action it returns and hands back what the peer sent.
pub struct PeerFetch {
    phase: FetchPhase,
    available: Vec<bool>,
    current: Option<Piece>,
    pending: usize,
}

/// Whether a message is the block the session waits for.
pub open spec fn is_pending_block(f: PeerFetch, m: Option<PeerMessage>) -> bool {
    &&& f.current() is Some
    &&& m matches Some(PeerMessage::Piece { index, begin, .. })
    &&& index as int == f.current().unwrap().index()
    &&& begin as int == f.pending()
}

/// Whether `bytes` hash to `digest`.
pub open spec fn sha1_of_is(bytes: Seq<u8>, digest: Seq<u8>) -> bool {
    crate::piece::sha1_of(bytes) == digest
}

pub open spec fn block_data(m: Option<PeerMessage>) -> Seq<u8> {
    match m {
        Some(PeerMessage::Piece { data, .. }) => data@,
        _ => Seq::empty(),
    }
}

/// Whether the current piece takes the message's block: it is the pending
/// block and has that block's length.
pub open spec fn block_taken(f: PeerFetch, m: Option<PeerMessage>) -> bool {
    &&& is_pending_block(f, m)
    &&& block_data(m).len() == block_len_at(
        f.current().unwrap().length() as int,
        f.pending() / BLOCK_SIZE as int,
    )
}

/// The current piece's bytes after the message.
pub open spec fn bytes_after(f: PeerFetch, m: Option<PeerMessage>) -> Seq<u8> {
    if block_taken(f, m) {
        spliced(f.current().unwrap().bytes(), f.pending(), block_data(m))
    } else {
        f.current().unwrap().bytes()
    }
}

/// Which blocks of the current piece are in after the message.
pub open spec fn received_after(f: PeerFetch, m: Option<PeerMessage>) -> Seq<bool> {
    if block_taken(f, m) {
        f.current().unwrap().received().update(f.pending() / BLOCK_SIZE as int, true)
    } else {
        f.current().unwrap().received()
    }
}

impl PeerFetch {
    pub closed spec fn phase(&self) -> FetchPhase {
        self.phase
    }

    pub closed spec fn available(&self) -> Seq<bool> {
        self.available@
    }

    pub closed spec fn current(&self) -> Option<Piece> {
        self.current
    }

    pub closed spec fn pending(&self) -> int {
        self.pending as int
    }

    pub open spec fn wf(&self) -> bool {
        match self.phase() {
            FetchPhase::Downloading => {
                &&& self.current() matches Some(p)
                &&& p.wf()
                &&& !p.verified()
                &&& p.index() < self.available().len()
                &&& p.is_next_block(
                    self.pending(),
                    block_len_at(p.length() as int, self.pending() / BLOCK_SIZE as int),
                )
            },
            FetchPhase::Installing => {
                &&& self.current() matches Some(p)
                &&& p.wf()
                &&& p.verified()
            },
            _ => self.current() is None,
        }
    }

    /// A session for a torrent of `num_pieces` pieces that knows of no piece
    /// the peer has. The driver starts by reading the peer's first message.
    pub fn new(num_pieces: usize) -> (r: PeerFetch)
        ensures
            r.wf(),
            r.phase() == FetchPhase::AwaitFirst,
            r.available() == Seq::new(num_pieces as nat, |i: int| false),
    {
        let mut available: Vec<bool> = Vec::new();
        let mut i: usize = 0;
        while i < num_pieces
            invariant
                i <= num_pieces,
                available@.len() == i,
                forall|j: int| 0 <= j < i ==> !available@[j],
            decreases num_pieces - i,
        {
            available.push(false);
            i = i + 1;
        }
        assert(available@ =~= Seq::new(num_pieces as nat, |i: int| false));
        PeerFetch { phase: FetchPhase::AwaitFirst, available, current: None, pending: 0 }
    }

    /// Where the session stands.
    pub fn current_phase(&self) -> (r: FetchPhase)
        ensures
            r == self.phase(),
    {
        self.phase
    }

    /// Whether the peer is known to have piece `index`.
    pub fn has_piece(&self, index: usize) -> (r: bool)
        ensures
            r == (index < self.available().len() && self.available()[index as int]),
    {
        index < self.available.len() && self.available[index]
    }

    fn record(&mut self, msg: &Option<PeerMessage>)
        ensures
            final(self).available() == recorded(old(self).available(), *msg),
            final(self).phase() == old(self).phase(),
            final(self).current() == old(self).current(),
            final(self).pending() == old(self).pending(),
    {
        match msg {
            Some(PeerMessage::Bitfield(bits)) => {
                let n = self.available.len();
                self.available = availability_from_bitfield(bits, n);
            },
            Some(PeerMessage::Have(i)) => {
                let i = *i as usize;
                if i < self.available.len() {
                    self.available.set(i, true);
                }
            },
            _ => {},
        }
    }

    /// Takes the peer's next message (`None`: the connection closed) and says
    /// what to do next.
    pub fn on_message(&mut self, msg: Option<PeerMessage>) -> (r: FetchAction)
        requires
            old(self).wf(),
        ensures
            final(self).wf(),
            old(self).phase() == FetchPhase::AwaitFirst ==> {
                &&& r == FetchAction::SendInterested
                &&& final(self).phase() == FetchPhase::AwaitUnchoke
                &&& final(self).available() == recorded(old(self).available(), msg)
            },
            old(self).phase() == FetchPhase::AwaitUnchoke ==> {
                &&& final(self).available() == recorded(old(self).available(), msg)
                &&& msg is None ==> r == FetchAction::Finish && final(self).phase()
                    == FetchPhase::Done
                &&& msg matches Some(PeerMessage::Unchoke) ==> r == FetchAction::Select
                    && final(self).phase() == FetchPhase::Selecting
                &&& (msg is Some && !(msg matches Some(PeerMessage::Unchoke))) ==> r
                    == FetchAction::Receive && final(self).phase() == FetchPhase::AwaitUnchoke
            },
            old(self).phase() == FetchPhase::Downloading && msg is None ==> {
                &&& r == FetchAction::Finish
                &&& final(self).phase() == FetchPhase::Done
                &&& final(self).available() == old(self).available()
            },
            old(self).phase() == FetchPhase::Downloading && msg is Some && !is_pending_block(
                *old(self),
                msg,
            ) ==> {
                &&& r == FetchAction::Receive
                &&& final(self).phase() == FetchPhase::Downloading
                &&& final(self).current() == old(self).current()
                &&& final(self).pending() == old(self).pending()
                &&& final(self).available() == recorded(old(self).available(), msg)
            },
            old(self).phase() == FetchPhase::Downloading && is_pending_block(*old(self), msg) ==> {
                let cur = old(self).current().unwrap();
                let bytes = bytes_after(*old(self), msg);
                let received = received_after(*old(self), msg);
                let all = forall|k: int| 0 <= k < received.len() ==> #[trigger] received[k];
                &&& !all ==> {
                    &&& final(self).phase() == FetchPhase::Downloading
                    &&& final(self).available() == old(self).available()
                    &&& final(self).current() matches Some(p)
                    &&& p.index() == cur.index() && p.length() == cur.length()
                    &&& p.hash() == cur.hash()
                    &&& p.bytes() == bytes && p.received() == received
                    &&& r == FetchAction::Request {
                        index: cur.index(),
                        begin: final(self).pending() as usize,
                        length: block_len_at(cur.length() as int, final(self).pending() / BLOCK_SIZE as int) as usize,
                    }
                }
                &&& all && sha1_of_is(bytes, cur.hash()@) ==> {
                    &&& r == FetchAction::Install
                    &&& final(self).phase() == FetchPhase::Installing
                    &&& final(self).available() == old(self).available()
                    &&& final(self).current() matches Some(p)
                    &&& p.verified() && p.index() == cur.index() && p.bytes() == bytes
                }
                &&& all && !sha1_of_is(bytes, cur.hash()@) ==> {
                    &&& r == FetchAction::Select
                    &&& final(self).phase() == FetchPhase::Selecting
                    &&& final(self).current() is None
                    &&& final(self).available() == old(self).available().update(cur.index() as int, false)
                }
            },
            old(self).phase() == FetchPhase::Selecting ==> r == FetchAction::Select && *final(self)
                == *old(self),
            old(self).phase() == FetchPhase::Installing ==> r == FetchAction::Install && *final(self)
                == *old(self),
            old(self).phase() == FetchPhase::Done ==> r == FetchAction::Finish && *final(self)
                == *old(self),
    {
        match self.phase {
            FetchPhase::Selecting => {
                return FetchAction::Select;
            },
            FetchPhase::Installing => {
                return FetchAction::Install;
            },
            FetchPhase::Done => {
                return FetchAction::Finish;
            },
            _ => {},
        }
        self.record(&msg);
        match self.phase {
            FetchPhase::AwaitFirst => {
                self.phase = FetchPhase::AwaitUnchoke;
                FetchAction::SendInterested
            },
            FetchPhase::AwaitUnchoke => {
                match msg {
                    None => {
                        self.phase = FetchPhase::Done;
                        FetchAction::Finish
                    },
                    Some(PeerMessage::Unchoke) => {
                        self.phase = FetchPhase::Selecting;
                        FetchAction::Select
                    },
                    Some(_) => FetchAction::Receive,
                }
            },
            _ => {
                let cur = match self.current.take() {
                    Some(p) => p,
                    None => {
                        return FetchAction::Finish;
                    },
                };
                match msg {
                    None => {
                        self.phase = FetchPhase::Done;
                        FetchAction::Finish
                    },
                    Some(PeerMessage::Piece { index, begin, data }) => {
                        if index as usize == cur.index() && begin as usize == self.pending {
                            let mut cur = cur;
                            proof {
                                let k = self.pending as int / BLOCK_SIZE as int;
                                lemma_piece_geometry(cur.length() as int, BLOCK_SIZE as int, k);
                            }
                            let ghost before = cur;
                            let ghost blk = data@;
                            let taken = cur.add_block(self.pending, data);
                            proof {
                                assert(old(self).current() == Some(before));
                                assert(block_data(msg) == blk);
                                assert(taken == block_taken(*old(self), msg));
                                assert(cur.bytes() == bytes_after(*old(self), msg));
                                assert(cur.received() == received_after(*old(self), msg));
                            }
                            self.advance(cur)
                        } else {
                            self.current = Some(cur);
                            FetchAction::Receive
                        }
                    },
                    Some(_) => {
                        self.current = Some(cur);
                        FetchAction::Receive
                    },
                }
            },
        }
    }

    /// Picks the next piece for this peer from the table: the first piece, by
    /// index, that is not verified and that the peer has. Requests its first
    /// block, or ends the session when there is none.
    pub fn select(&mut self, table: &DownloadManager) -> (r: FetchAction)
        requires
            old(self).wf(),
            old(self).phase() == FetchPhase::Selecting,
            table.wf(),
            table.table().len() == old(self).available().len(),
        ensures
            final(self).wf(),
            final(self).available() == old(self).available(),
            no_eligible(table.table(), old(self).available()) ==> r == FetchAction::Finish
                && final(self).phase() == FetchPhase::Done,
            !no_eligible(table.table(), old(self).available()) ==> {
                &&& final(self).phase() == FetchPhase::Downloading
                &&& final(self).current() matches Some(p)
                &&& is_first_eligible(table.table(), old(self).available(), p.index() as int)
                &&& p.length() == table.table()[p.index() as int].length
                &&& p.hash() == table.table()[p.index() as int].hash
                &&& forall|k: int| 0 <= k < p.received().len() ==> !#[trigger] p.received()[k]
                &&& final(self).pending() == 0
                &&& r == FetchAction::Request {
                    index: p.index(),
                    begin: 0,
                    length: block_len_at(p.length() as int, 0) as usize,
                }
            },
    {
        match table.select_piece(&self.available) {
            None => {
                self.phase = FetchPhase::Done;
                FetchAction::Finish
            },
            Some(p) => {
                proof {
                    let i = p.index() as int;
                    let m = table.spec_metainfo();
                    assert(DownloadManager::entry_matches(m, table.table()[i], i));
                    lemma_piece_geometry(m.info.total_length as int, m.info.piece_length as int, i);
                    lemma_piece_geometry(p.length() as int, BLOCK_SIZE as int, 0);
                    assert(!p.received()[0]);
                    assert(!p.all_received());
                }
                let r = self.advance(p);
                proof {
                    let q = self.current().unwrap();
                    let k = self.pending() / BLOCK_SIZE as int;
                    if k > 0 {
                        assert(q.received()[0]);
                    }
                }
                r
            },
        }
    }

    /// Offers the verified current piece to the table. Returns the piece's
    /// index and bytes, to be stored, when the table takes it; `None` when
    /// another session got there first. Either way the next step is `select`.
    pub fn install(&mut self, table: &mut DownloadManager) -> (r: Option<(usize, Vec<u8>)>)
        requires
            old(self).wf(),
            old(self).phase() == FetchPhase::Installing,
            old(table).wf(),
        ensures
            final(self).wf(),
            final(self).phase() == FetchPhase::Selecting,
            final(self).available() == old(self).available(),
            final(table).wf(),
            final(table).table() == installed(old(table).table(), old(self).current().unwrap()),
            final(table).spec_metainfo() == old(table).spec_metainfo(),
            final(table).spec_storage() == old(table).spec_storage(),
            r is Some <==> accepts(old(table).table(), old(self).current().unwrap()),
            r matches Some((i, d)) ==> i == old(self).current().unwrap().index() && d@ == old(
                self,
            ).current().unwrap().bytes(),
    {
        let cur = match self.current.take() {
            Some(p) => p,
            None => {
                self.phase = FetchPhase::Selecting;
                return None;
            },
        };
        self.phase = FetchPhase::Selecting;
        if table.install_piece(&cur) {
            match cur.data() {
                Some(d) => Some((cur.index(), d)),
                None => None,
            }
        } else {
            None
        }
    }

    /// Carries the piece `cur` on: requests its next missing block; once all
    /// blocks are in, checks its digest and either hands it to the table or,
    /// when the check fails, drops it and stops asking this peer for it.
    fn advance(&mut self, cur: Piece) -> (r: FetchAction)
        requires
            cur.wf(),
            !cur.verified(),
            cur.index() < old(self).available().len(),
        ensures
            final(self).wf(),
            !cur.all_received() ==> {
                &&& final(self).phase() == FetchPhase::Downloading
                &&& final(self).current() == Some(cur)
                &&& final(self).available() == old(self).available()
                &&& r == FetchAction::Request {
                    index: cur.index(),
                    begin: final(self).pending() as usize,
                    length: block_len_at(cur.length() as int, final(self).pending() / BLOCK_SIZE as int) as usize,
                }
                &&& cur.is_next_block(
                    final(self).pending(),
                    block_len_at(cur.length() as int, final(self).pending() / BLOCK_SIZE as int),
                )
            },
            cur.all_received() && cur.hash_ok() ==> {
                &&& final(self).phase() == FetchPhase::Installing
                &&& r == FetchAction::Install
                &&& final(self).available() == old(self).available()
                &&& final(self).current() matches Some(p)
                &&& p.verified()
                &&& p.index() == cur.index()
                &&& p.length() == cur.length()
                &&& p.hash() == cur.hash()
                &&& p.bytes() == cur.bytes()
            },
            cur.all_received() && !cur.hash_ok() ==> {
                &&& final(self).phase() == FetchPhase::Selecting
                &&& r == FetchAction::Select
                &&& final(self).current() is None
                &&& final(self).available() == old(self).available().update(cur.index() as int, false)
            },
    {
        let mut cur = cur;
        match cur.next_block_to_request() {
            Some((begin, length)) => {
                let index = cur.index();
                self.pending = begin;
                self.current = Some(cur);
                self.phase = FetchPhase::Downloading;
                FetchAction::Request { index, begin, length }
            },
            None => {
                if cur.verify() {
                    self.current = Some(cur);
                    self.phase = FetchPhase::Installing;
                    FetchAction::Install
                } else {
                    let index = cur.index();
                    self.available.set(index, false);
                    self.current = None;
                    self.phase = FetchPhase::Selecting;
                    FetchAction::Select
                }
            },
        }
    }
}

} // verus!
