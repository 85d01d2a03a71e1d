//! Attack patterns for chess pieces on 64-bit bitboards.

pub mod bishops;
pub mod bob;
pub mod knights;
pub mod pawns;
