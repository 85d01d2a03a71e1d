//! A plain evaluator that refreshes from scratch on every call: board types, FEN parsing,
//! feature explanations, row-major layers and the full evaluation of one position.
pub mod accumulator;
pub mod evaluate;
pub mod features;
pub mod fen;
pub mod layers;
pub mod network;
pub mod text;
pub mod types;
