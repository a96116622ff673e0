use vstd::prelude::*;

verus! {

/// Number of pieces of a file of `total` bytes cut into pieces of `piece_len` bytes:
/// the ceiling of `total / piece_len`.
pub open spec fn pieces_for(total: int, piece_len: int) -> int {
    if total <= 0 {
        0
    } else {
        (total - 1) / piece_len + 1
    }
}

/// Length of piece `i`: the nominal length, except for the last piece, which
/// holds what is left of the file.
pub open spec fn piece_len_at(total: int, piece_len: int, i: int) -> int {
    if i == pieces_for(total, piece_len) - 1 {
        total - i * piece_len
    } else {
        piece_len
    }
}

/// The parsed `info` dictionary of a torrent.
pub struct Info {
    pub name: String,
    pub piece_length: usize,
    pub total_length: usize,
    /// One 20-byte SHA-1 digest per piece, in piece order.
    pub pieces: Vec<[u8; 20]>,
}

/// The parsed metadata of a torrent.
pub struct Metainfo {
    pub announce: String,
    pub info: Info,
    pub info_hash: [u8; 20],
}

impl Metainfo {
    /// Metadata that a download can be built on: a positive piece length and
    /// exactly one digest per piece.
    pub open spec fn valid(&self) -> bool {
        &&& self.info.piece_length > 0
        &&& self.info.pieces@.len() == pieces_for(
            self.info.total_length as int,
            self.info.piece_length as int,
        )
    }

    pub open spec fn spec_num_pieces(&self) -> int {
        pieces_for(self.info.total_length as int, self.info.piece_length as int)
    }

    pub open spec fn spec_piece_len(&self, i: int) -> int {
        piece_len_at(self.info.total_length as int, self.info.piece_length as int, i)
    }

    pub fn new(
        announce: String,
        name: String,
        piece_length: usize,
        total_length: usize,
        pieces: Vec<[u8; 20]>,
        info_hash: [u8; 20],
    ) -> (r: Metainfo)
        ensures
            r.announce == announce,
            r.info.name == name,
            r.info.piece_length == piece_length,
            r.info.total_length == total_length,
            r.info.pieces == pieces,
            r.info_hash == info_hash,
    {
        Metainfo { announce, info: Info { name, piece_length, total_length, pieces }, info_hash }
    }

    /// Whether the metadata is usable for a download.
    pub fn is_valid(&self) -> (r: bool)
        ensures
            r == self.valid(),
    {
        self.info.piece_length > 0 && self.info.pieces.len() == self.num_pieces()
    }

    /// Number of pieces: `ceil(total_length / piece_length)`.
    pub fn num_pieces(&self) -> (r: usize)
        requires
            self.info.piece_length > 0,
        ensures
            r as int == self.spec_num_pieces(),
    {
        if self.info.total_length == 0 {
            0
        } else {
            (self.info.total_length - 1) / self.info.piece_length + 1
        }
    }

    /// The expected digest of piece `index`, if there is such a piece.
    pub fn piece_hash(&self, index: usize) -> (r: Option<&[u8; 20]>)
        ensures
            index < self.info.pieces@.len() ==> r == Some(&self.info.pieces@[index as int]),
            index >= self.info.pieces@.len() ==> r.is_none(),
    {
        if index < self.info.pieces.len() {
            Some(&self.info.pieces[index])
        } else {
            None
        }
    }

    /// Length of piece `index`; the last piece may be shorter than the others.
    pub fn piece_len(&self, index: usize) -> (r: usize)
        requires
            self.info.piece_length > 0,
            index < self.spec_num_pieces(),
        ensures
            r as int == self.spec_piece_len(index as int),
            0 < r <= self.info.piece_length,
    {
        proof {
            lemma_piece_geometry(
                self.info.total_length as int,
                self.info.piece_length as int,
                index as int,
            );
        }
        let n = self.num_pieces();
        if index == n - 1 {
            self.info.total_length - index * self.info.piece_length
        } else {
            self.info.piece_length
        }
    }

    /// Byte offset of piece `index` in the file: `index * piece_length`.
    pub fn piece_offset(&self, index: usize) -> (r: usize)
        requires
            self.info.piece_length > 0,
            index < self.spec_num_pieces(),
        ensures
            r as int == index as int * self.info.piece_length as int,
            r as int + self.spec_piece_len(index as int) <= self.info.total_length,
    {
        proof {
            lemma_piece_geometry(
                self.info.total_length as int,
                self.info.piece_length as int,
                index as int,
            );
        }
        index * self.info.piece_length
    }
}

/// Pieces tile the file: piece `i` (for every `i` below the piece count) starts
/// at `i * piece_len`, has a length in `(0, piece_len]`, and ends inside the file;
/// the last one ends exactly at `total`.
pub proof fn lemma_piece_geometry(total: int, piece_len: int, i: int)
    requires
        total >= 0,
        piece_len > 0,
        0 <= i < pieces_for(total, piece_len),
    ensures
        0 < piece_len_at(total, piece_len, i) <= piece_len,
        i * piece_len + piece_len_at(total, piece_len, i) <= total,
        i == pieces_for(total, piece_len) - 1 ==> i * piece_len + piece_len_at(total, piece_len, i)
            == total,
{
    let n = pieces_for(total, piece_len);
    let q = (total - 1) / piece_len;
    assert(n == q + 1);
    assert(q * piece_len <= total - 1 < q * piece_len + piece_len) by (nonlinear_arith)
        requires
            q == (total - 1) / piece_len,
            piece_len > 0,
            total >= 1,
    {
        vstd::arithmetic::div_mod::lemma_fundamental_div_mod(total - 1, piece_len);
    }
    assert(i * piece_len <= q * piece_len) by (nonlinear_arith)
        requires
            i <= q,
            piece_len > 0,
    ;
    if i < q {
        assert(i * piece_len + piece_len <= q * piece_len) by (nonlinear_arith)
            requires
                i + 1 <= q,
                piece_len > 0,
        ;
    }
}

/// The piece count is the ceiling of `total / piece_len`: the pieces cover the
/// whole file and one fewer would not; the last piece holds
/// `total - (count - 1) * piece_len` bytes.
pub proof fn lemma_piece_count(total: int, piece_len: int)
    requires
        total >= 0,
        piece_len > 0,
    ensures
        pieces_for(total, piece_len) >= 0,
        pieces_for(total, piece_len) * piece_len >= total,
        (pieces_for(total, piece_len) - 1) * piece_len < total || total == 0,
        total > 0 ==> piece_len_at(total, piece_len, pieces_for(total, piece_len) - 1) == total
            - (pieces_for(total, piece_len) - 1) * piece_len,
{
    if total > 0 {
        let n = pieces_for(total, piece_len);
        lemma_piece_geometry(total, piece_len, n - 1);
        assert(n * piece_len == (n - 1) * piece_len + piece_len) by (nonlinear_arith);
    }
}

} // verus!
