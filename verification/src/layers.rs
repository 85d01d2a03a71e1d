//! Layer primitives used by the NNUE forward pass.
use vstd::prelude::*;
use crate::loader::{ByteReader, LoadError};

pub mod activations;
pub mod affine;
pub mod sparse;

pub use activations::{ClippedReLU, SqrClippedReLU};
pub use affine::AffineTransform;
pub use sparse::AffineTransformSparseInput;


verus! {

/// Common interface for NNUE layers and activations.
pub trait Layer: Sized {
    type Input;
    type Output;

    /// The parameters of the layer are consistent with its dimensions.
    spec fn wf(&self) -> bool;

    /// `propagate` can run on these argument contents.
    spec fn accepts(&self, input: Seq<Self::Input>, output: Seq<Self::Output>) -> bool;

    /// Contents of `output` after `propagate`.
    spec fn propagated(&self, input: Seq<Self::Input>, output: Seq<Self::Output>) -> Seq<Self::Output>;

    /// `self` is what `read_parameters` leaves from `before`, reading `bytes` from `pos` to
    /// `end`, with outcome `r`.
    spec fn loaded(&self, before: Self, bytes: Seq<u8>, pos: int, end: int, r: Result<(), LoadError>) -> bool;

    /// Propagates one layer worth of values into `output`.
    fn propagate(&self, input: &[Self::Input], output: &mut [Self::Output])
        requires
            self.wf(),
            self.accepts(input@, old(output)@),
        ensures
            final(output)@ == self.propagated(input@, old(output)@),
    ;

    /// `read_parameters` can run on this layer.
    spec fn read_ready(&self) -> bool;

    /// Reads serialized layer parameters from an `.nnue` byte stream.
    fn read_parameters(&mut self, reader: &mut ByteReader) -> (r: Result<(), LoadError>)
        requires
            old(self).wf(),
            old(self).read_ready(),
        ensures
            final(reader).bytes() == old(reader).bytes(),
            final(self).wf(),
            final(self).loaded(*old(self), old(reader).bytes(), old(reader).pos(), final(reader).pos(), r),
    ;
}

} // verus!
