use sha1::Digest;
use torrent_client::piece::{digest_matches, digests_equal, num_blocks, BLOCK_SIZE};
use torrent_client::session::availability_from_bitfield;
use torrent_client::{
    DownloadError, DownloadManager, FetchAction, FetchPhase, Metainfo, PeerFetch, PeerMessage,
    Piece, Storage, StorageError,
};

fn digest(data: &[u8]) -> [u8; 20] {
    sha1::Sha1::digest(data).into()
}

fn file_bytes(len: usize) -> Vec<u8> {
    (0..len).map(|i| (i * 7 % 251) as u8).collect()
}

fn metainfo_for(file: &[u8], piece_length: usize) -> Metainfo {
    let pieces: Vec<[u8; 20]> = file.chunks(piece_length).map(digest).collect();
    Metainfo::new(
        "http://tracker.example.com:8000/announce".to_string(),
        "test_file.txt".to_string(),
        piece_length,
        file.len(),
        pieces,
        [7u8; 20],
    )
}

/// A peer that holds `file` and answers every request; `corrupt` flips the
/// first byte of every block it sends; `close_before_unchoke` hangs up right
/// after the handshake.
struct FakePeer<'a> {
    file: &'a [u8],
    piece_length: usize,
    num_pieces: usize,
    corrupt: bool,
    close_before_unchoke: bool,
    sent_first: bool,
}

impl<'a> FakePeer<'a> {
    fn new(file: &'a [u8], piece_length: usize, num_pieces: usize) -> Self {
        FakePeer {
            file,
            piece_length,
            num_pieces,
            corrupt: false,
            close_before_unchoke: false,
            sent_first: false,
        }
    }

    fn bitfield(&self) -> Vec<u8> {
        let mut bits = vec![0u8; (self.num_pieces + 7) / 8];
        for i in 0..self.num_pieces {
            bits[i / 8] |= 0x80 >> (i % 8);
        }
        bits
    }

    fn answer(&mut self, last: &FetchAction) -> Option<PeerMessage> {
        if !self.sent_first {
            self.sent_first = true;
            return Some(PeerMessage::Bitfield(self.bitfield()));
        }
        match last {
            FetchAction::SendInterested => {
                if self.close_before_unchoke {
                    None
                } else {
                    Some(PeerMessage::Unchoke)
                }
            }
            FetchAction::Request { index, begin, length } => {
                let start = index * self.piece_length + begin;
                let mut data = self.file[start..start + length].to_vec();
                if self.corrupt {
                    data[0] ^= 0xff;
                }
                Some(PeerMessage::Piece { index: *index as u32, begin: *begin as u32, data })
            }
            _ => None,
        }
    }
}

/// Drives one session to its end against the table; returns the number of
/// pieces it got into the table.
fn run_session(manager: &mut DownloadManager, peer: &mut FakePeer) -> usize {
    let mut fetch = PeerFetch::new(manager.pieces().len());
    let mut action = FetchAction::Receive;
    let mut contributed = 0;
    loop {
        match action {
            FetchAction::Receive | FetchAction::SendInterested | FetchAction::Request { .. } => {
                let msg = peer.answer(&action);
                action = fetch.on_message(msg);
            }
            FetchAction::Select => action = fetch.select(manager),
            FetchAction::Install => {
                if let Some((index, data)) = fetch.install(manager) {
                    manager.store_piece(index, &data).unwrap();
                    contributed += 1;
                }
                action = FetchAction::Select;
            }
            FetchAction::Finish => return contributed,
        }
    }
}

#[test]
fn num_pieces_is_ceiling_of_lengths() {
    let m = metainfo_for(&file_bytes(16394), 16384);
    assert_eq!(m.num_pieces(), 2);
    assert_eq!(m.piece_len(0), 16384);
    assert_eq!(m.piece_len(1), 10);
    assert_eq!(m.piece_offset(1), 16384);
    let m = metainfo_for(&file_bytes(32768), 16384);
    assert_eq!(m.num_pieces(), 2);
    assert_eq!(m.piece_len(1), 16384);
    let m = metainfo_for(&file_bytes(1), 16384);
    assert_eq!(m.num_pieces(), 1);
    assert_eq!(m.piece_len(0), 1);
    let m = metainfo_for(&[], 16384);
    assert_eq!(m.num_pieces(), 0);
    assert!(m.is_valid());
}

#[test]
fn piece_hash_lookup() {
    let file = file_bytes(20);
    let m = metainfo_for(&file, 16);
    assert_eq!(m.piece_hash(1), Some(&digest(&file[16..])));
    assert_eq!(m.piece_hash(2), None);
}

#[test]
fn manager_refuses_zero_piece_length() {
    let m = Metainfo::new(String::new(), String::new(), 0, 10, vec![], [0u8; 20]);
    assert!(matches!(DownloadManager::new(m, "out", [1u8; 20]), Err(DownloadError::Configuration)));
}

#[test]
fn manager_refuses_wrong_digest_count() {
    let m = Metainfo::new(String::new(), String::new(), 16384, 16394, vec![[0u8; 20]], [0u8; 20]);
    assert!(!m.is_valid());
    assert!(matches!(DownloadManager::new(m, "out", [1u8; 20]), Err(DownloadError::Configuration)));
}

#[test]
fn manager_builds_sized_table() {
    let file = file_bytes(16394);
    let m = DownloadManager::new(metainfo_for(&file, 16384), "out", [3u8; 20]).unwrap();
    let t = m.pieces();
    assert_eq!(t.len(), 2);
    assert_eq!((t[0].index, t[0].length), (0, 16384));
    assert_eq!((t[1].index, t[1].length), (1, 10));
    assert_eq!(t[1].hash, digest(&file[16384..]));
    assert!(!m.is_complete());
    assert_eq!(m.progress(), (0, 2));
    assert_eq!(m.output_dir(), "out");
    assert_eq!(m.peer_id(), [3u8; 20]);
    assert_eq!(m.metainfo().info.total_length, 16394);
}

#[test]
fn piece_with_all_blocks_verifies() {
    let bytes = file_bytes(20000);
    let mut p = Piece::new(4, 20000, digest(&bytes));
    assert_eq!(num_blocks(20000), 2);
    assert!(p.add_block(0, bytes[..BLOCK_SIZE].to_vec()));
    assert!(p.add_block(BLOCK_SIZE, bytes[BLOCK_SIZE..].to_vec()));
    assert_eq!(p.next_block_to_request(), None);
    assert!(p.has_all_blocks());
    assert!(p.verify());
    assert!(p.is_complete());
    assert_eq!(p.data(), Some(bytes));
    assert_eq!((p.index(), p.length()), (4, 20000));
}

#[test]
fn altered_byte_fails_verification() {
    let bytes = file_bytes(100);
    let mut altered = bytes.clone();
    altered[57] ^= 1;
    let mut p = Piece::new(0, 100, digest(&bytes));
    assert!(p.add_block(0, altered));
    assert!(!p.verify());
    assert!(!p.is_complete());
    assert_eq!(p.data(), None);
}

#[test]
fn verify_fails_closed_while_blocks_missing() {
    let bytes = file_bytes(20000);
    let mut p = Piece::new(0, 20000, digest(&bytes));
    assert!(p.add_block(0, bytes[..BLOCK_SIZE].to_vec()));
    assert!(!p.verify());
    assert_eq!(p.data(), None);
}

#[test]
fn next_block_skips_received_blocks() {
    let bytes = file_bytes(40000);
    let mut p = Piece::new(0, 40000, digest(&bytes));
    assert_eq!(p.next_block_to_request(), Some((0, BLOCK_SIZE)));
    assert!(p.add_block(0, bytes[..BLOCK_SIZE].to_vec()));
    assert_eq!(p.next_block_to_request(), Some((BLOCK_SIZE, BLOCK_SIZE)));
    assert!(p.add_block(2 * BLOCK_SIZE, bytes[2 * BLOCK_SIZE..].to_vec()));
    assert_eq!(p.next_block_to_request(), Some((BLOCK_SIZE, BLOCK_SIZE)));
    assert!(p.add_block(BLOCK_SIZE, bytes[BLOCK_SIZE..2 * BLOCK_SIZE].to_vec()));
    assert_eq!(p.next_block_to_request(), None);
    assert!(p.verify());
}

#[test]
fn add_block_refuses_bad_blocks() {
    let bytes = file_bytes(20000);
    let mut p = Piece::new(0, 20000, digest(&bytes));
    assert!(!p.add_block(1, bytes[1..16385].to_vec()));
    assert!(!p.add_block(0, bytes[..100].to_vec()));
    assert!(!p.add_block(20000, vec![]));
    assert_eq!(p.next_block_to_request(), Some((0, BLOCK_SIZE)));
    let mut small = Piece::new(0, 10, digest(&bytes[..10]));
    assert!(small.add_block(0, bytes[..10].to_vec()));
    assert!(small.verify());
    assert!(!small.add_block(0, bytes[..10].to_vec()));
}

#[test]
fn digests_compare_bytewise() {
    assert!(digests_equal(&[1u8; 20], &[1u8; 20]));
    let mut b = [1u8; 20];
    b[19] = 2;
    assert!(!digests_equal(&[1u8; 20], &b));
}

#[test]
fn bitfield_marks_high_bit_first() {
    assert_eq!(availability_from_bitfield(&vec![0b1010_0000], 3), vec![true, false, true]);
    assert_eq!(availability_from_bitfield(&vec![0xff], 10), vec![true; 8].into_iter().chain(vec![false; 2]).collect::<Vec<_>>());
}

#[test]
fn racing_installs_keep_one_entry() {
    let file = file_bytes(16394);
    let mut m = DownloadManager::new(metainfo_for(&file, 16384), "out", [0u8; 20]).unwrap();
    let mut a = m.select_piece(&vec![true, true]).unwrap();
    let mut b = m.select_piece(&vec![true, true]).unwrap();
    assert_eq!((a.index(), b.index()), (0, 0));
    assert!(a.add_block(0, file[..16384].to_vec()) && a.verify());
    assert!(b.add_block(0, file[..16384].to_vec()) && b.verify());
    assert!(m.install_piece(&a));
    assert!(!m.install_piece(&b));
    assert_eq!(m.progress(), (1, 2));
    assert!(m.pieces()[0].complete);
    let next = m.select_piece(&vec![true, true]).unwrap();
    assert_eq!(next.index(), 1);
}

#[test]
fn unverified_piece_is_not_installed() {
    let file = file_bytes(16394);
    let mut m = DownloadManager::new(metainfo_for(&file, 16384), "out", [0u8; 20]).unwrap();
    let p = m.select_piece(&vec![false, true]).unwrap();
    assert_eq!(p.index(), 1);
    assert!(!m.install_piece(&p));
    assert_eq!(m.progress(), (0, 2));
    assert!(m.select_piece(&vec![false, false]).is_none());
}

#[test]
fn storing_same_piece_twice_equals_one_write() {
    let file = file_bytes(16394);
    let meta = metainfo_for(&file, 16384);
    let mut once = Storage::new(&meta);
    let mut twice = Storage::new(&meta);
    assert_eq!(once.write_piece(1, &file[16384..]), Ok(()));
    assert_eq!(twice.write_piece(1, &file[16384..]), Ok(()));
    assert_eq!(twice.write_piece(1, &file[16384..]), Ok(()));
    assert_eq!(once.contents(), twice.contents());
    assert_eq!(&once.contents()[16384..], &file[16384..]);
    assert!(once.is_written(1) && !once.is_written(0));
}

#[test]
fn storage_rejects_bad_writes() {
    let file = file_bytes(16394);
    let meta = metainfo_for(&file, 16384);
    let mut s = Storage::new(&meta);
    assert_eq!(s.write_piece(2, &file[..10]), Err(StorageError::IndexOutOfRange));
    assert_eq!(s.write_piece(1, &file[..11]), Err(StorageError::LengthMismatch));
    let mut m = DownloadManager::new(meta, "out", [0u8; 20]).unwrap();
    assert_eq!(m.store_piece(0, &file[..10]), Err(DownloadError::Storage(StorageError::LengthMismatch)));
    assert!(m.storage().contents().iter().all(|b| *b == 0));
}

#[test]
fn two_peers_download_two_pieces() {
    let file = file_bytes(16394);
    let mut m = DownloadManager::new(metainfo_for(&file, 16384), "out", [0u8; 20]).unwrap();
    let mut peer_a = FakePeer::new(&file, 16384, 2);
    let mut peer_b = FakePeer::new(&file, 16384, 2);
    let a = run_session(&mut m, &mut peer_a);
    let b = run_session(&mut m, &mut peer_b);
    assert_eq!((a, b), (2, 0));
    assert!(m.is_complete());
    assert_eq!(m.progress(), (2, 2));
    assert_eq!(m.storage().contents().len(), 16394);
    assert_eq!(m.storage().contents(), &file);
}

#[test]
fn interleaved_peers_race_on_one_piece() {
    let file = file_bytes(16394);
    let mut m = DownloadManager::new(metainfo_for(&file, 16384), "out", [0u8; 20]).unwrap();
    let mut f1 = PeerFetch::new(2);
    let mut f2 = PeerFetch::new(2);
    for f in [&mut f1, &mut f2] {
        assert!(matches!(f.on_message(Some(PeerMessage::Bitfield(vec![0xc0]))), FetchAction::SendInterested));
        assert!(matches!(f.on_message(Some(PeerMessage::Unchoke)), FetchAction::Select));
        assert!(matches!(f.select(&m), FetchAction::Request { index: 0, begin: 0, length: 16384 }));
    }
    let block = || Some(PeerMessage::Piece { index: 0, begin: 0, data: file[..16384].to_vec() });
    assert!(matches!(f1.on_message(block()), FetchAction::Install));
    assert!(matches!(f2.on_message(block()), FetchAction::Install));
    let first = f1.install(&mut m);
    let second = f2.install(&mut m);
    assert_eq!(first.map(|(i, d)| (i, d.len())), Some((0, 16384)));
    assert!(second.is_none());
    assert_eq!(m.progress(), (1, 2));
    assert!(matches!(f2.select(&m), FetchAction::Request { index: 1, begin: 0, length: 10 }));
}

#[test]
fn peer_closing_before_unchoke_contributes_nothing() {
    let file = file_bytes(16394);
    let mut m = DownloadManager::new(metainfo_for(&file, 16384), "out", [0u8; 20]).unwrap();
    let mut gone = FakePeer::new(&file, 16384, 2);
    gone.close_before_unchoke = true;
    let mut good = FakePeer::new(&file, 16384, 2);
    assert_eq!(run_session(&mut m, &mut gone), 0);
    assert_eq!(m.progress(), (0, 2));
    assert_eq!(run_session(&mut m, &mut good), 2);
    assert!(m.is_complete());
}

#[test]
fn corrupt_block_is_never_stored() {
    let file = file_bytes(16394);
    let mut m = DownloadManager::new(metainfo_for(&file, 16384), "out", [0u8; 20]).unwrap();
    let mut bad = FakePeer::new(&file, 16384, 2);
    bad.corrupt = true;
    assert_eq!(run_session(&mut m, &mut bad), 0);
    assert_eq!(m.progress(), (0, 2));
    assert!(!m.storage().is_written(0) && !m.storage().is_written(1));
    assert!(m.storage().contents().iter().all(|b| *b == 0));
}

#[test]
fn failed_piece_is_dropped_for_that_peer() {
    let file = file_bytes(16394);
    let m = DownloadManager::new(metainfo_for(&file, 16384), "out", [0u8; 20]).unwrap();
    let mut f = PeerFetch::new(2);
    f.on_message(Some(PeerMessage::Have(1)));
    assert!(f.has_piece(1) && !f.has_piece(0));
    assert!(matches!(f.on_message(Some(PeerMessage::Choke)), FetchAction::Receive));
    assert!(matches!(f.on_message(Some(PeerMessage::Unchoke)), FetchAction::Select));
    assert!(matches!(f.select(&m), FetchAction::Request { index: 1, begin: 0, length: 10 }));
    assert!(matches!(f.on_message(Some(PeerMessage::Interested)), FetchAction::Receive));
    assert!(matches!(
        f.on_message(Some(PeerMessage::Piece { index: 1, begin: 0, data: vec![0u8; 10] })),
        FetchAction::Select
    ));
    assert!(!f.has_piece(1));
    assert!(matches!(f.select(&m), FetchAction::Finish));
    assert_eq!(f.current_phase(), FetchPhase::Done);
}

#[test]
fn connection_closed_mid_piece_ends_session() {
    let file = file_bytes(16394);
    let m = DownloadManager::new(metainfo_for(&file, 16384), "out", [0u8; 20]).unwrap();
    let mut f = PeerFetch::new(2);
    f.on_message(Some(PeerMessage::Bitfield(vec![0x80])));
    f.on_message(Some(PeerMessage::Unchoke));
    assert!(matches!(f.select(&m), FetchAction::Request { index: 0, .. }));
    assert!(matches!(f.on_message(None), FetchAction::Finish));
    assert_eq!(f.current_phase(), FetchPhase::Done);
}

#[test]
fn digest_check_needs_all_blocks_and_equal_digests() {
    let d = digest(b"abc");
    assert!(digest_matches(true, &d, &d));
    assert!(!digest_matches(false, &d, &d));
    assert!(!digest_matches(true, &d, &digest(b"abd")));
}
