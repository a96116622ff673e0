//! Piece-based swarm download: piece accounting, block assembly and
//! verification, the shared piece table, the storage image and the
//! per-peer fetch state machine.

pub mod manager;
pub mod metainfo;
pub mod piece;
pub mod session;
pub mod storage;
pub mod wire;

pub use manager::{DownloadError, DownloadManager, PieceEntry};
pub use metainfo::{Info, Metainfo};
pub use piece::Piece;
pub use session::{FetchAction, FetchPhase, PeerFetch, PeerMessage};
pub use storage::{Storage, StorageError};
