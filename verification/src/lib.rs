//! Chess move tables and NNUE evaluation with verified contracts.
//!
//! `moves` holds the attack tables of the leaping and sliding pieces; the rest evaluates
//! positions with Stockfish-style `.nnue` networks read from their bytes: `probe` keeps a
//! board and a stack of accumulators that it updates move by move, and `scalar` is a plain
//! evaluator that rebuilds everything from a FEN string on every call.

pub mod bitboard;
pub mod features;
pub mod moves;
pub mod types;

pub use features::{BISHOP, BLACK, KING, KNIGHT, PAWN, QUEEN, ROOK, WHITE};
pub use types::{Color, Piece, Square};
pub use network::NnueNetworks;
pub use network::load::VERSION;
pub use delta::{DeltaChange, DeltaError, MoveDelta};
pub use probe::NNUEProbe;
pub mod loader;
pub mod accumulator;
pub mod aligned;
pub mod feature_transformer;
pub mod arith;
pub mod layers;
pub mod accumulator_stack;
pub mod delta;
pub mod finny_tables;
pub mod network;
pub mod piece_list;
pub mod probe;
pub mod uci;
pub mod scalar;

use vstd::prelude::*;

verus! {

/// Divisor from network output units to internal score units.
pub const OUTPUT_SCALE: i32 = 16;

/// Number of fractional bits of the dense layers' weights.
pub const WEIGHT_SCALE_BITS: i32 = 6;

} // verus!
