//! Reconstruction and replay of a turn-based strategy game.
//!
//! A game is rebuilt from per-turn snapshots of a remote data source: the
//! first snapshot yields the spatial [`state::Cluster`], every snapshot
//! feeds the [`ledger::OwnershipLedger`], and the frozen [`state::Game`] is
//! saved as a document and replayed turn by turn.
//!
//! - [`snapshot`]: the raw payload of one turn.
//! - [`state`]: planets, connections, the cluster and the game.
//! - [`cluster`]: normalization and inferred adjacency.
//! - [`ledger`]: who owned which planet on which turn.
//! - [`download`]: the decisions of the fetch loop.
//! - [`document`]: a game as a tree of integers, arrays and objects.
//! - [`mapper`]: from cluster space to screen space.
//! - [`color`]: from an owner to a color.
//! - [`raster`]: the horizontal runs that fill a circle.
//! - [`playback`]: the scheduler of a replay.
//! - [`args`], [`decimal`]: command lines and the integers in them.
//!
//! Fetching, drawing and file access are left to the caller: the library
//! takes plain values and hands plain values back.

pub mod args;
pub mod cluster;
pub mod color;
pub mod decimal;
pub mod document;
pub mod download;
pub mod ledger;
pub mod mapper;
pub mod playback;
pub mod raster;
pub mod snapshot;
pub mod state;
