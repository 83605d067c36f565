//! Shanten-number computation for Mahjong hands.
//!
//! A hand is a vector of 34 tile-type counts. The shanten number is the
//! minimum number of tile exchanges needed to reach a winning configuration:
//! `-1` means the hand is complete, `0` means it is one tile away (tenpai),
//! and larger values measure the remaining distance. Several independent
//! engines compute it with different search strategies so that their results
//! can be cross-checked; each engine implements [`traits::ShantenCalculator`].

pub mod tiles;
pub mod traits;

pub mod decomp;
pub mod decomp_ara_removal;
pub mod decomp_fixed_pruned;
pub mod decomp_kobayashi;
pub mod decomp_pruned;
pub mod dummy;
pub mod my_algo;
pub mod pruning_dfs_ymatsux;

pub mod handgen;
pub mod notation;

pub use tiles::{TileCount, TileCounts, MAX_HAND_SIZE, MAX_NUM_TILE, MIN_HAND_SIZE, NUM_TILE_TYPE};
