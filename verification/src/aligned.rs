//! Fixed-length buffers of plain values used for weights and accumulators.
use vstd::prelude::*;

verus! {

/// A heap buffer of `Copy` values with a fixed length.
pub struct AlignedBuffer<T: Copy> {
    pub data: Vec<T>,
}

impl<T: Copy> View for AlignedBuffer<T> {
    type V = Seq<T>;

    open spec fn view(&self) -> Seq<T> {
        self.data@
    }
}

impl<T: Copy> AlignedBuffer<T> {
    /// Allocates a buffer of length `len` whose every element is `T::default()`.
    pub fn new(len: usize) -> (r: Self)
        where
            T: Default,
        ensures
            r@.len() == len,
            forall|i: int, k: int| 0 <= i < len && 0 <= k < len ==> r@[i] == r@[k],
    {
        Self::with_element(len, T::default())
    }

    /// Allocates a buffer of length `len` whose every element is `elem`.
    pub fn with_element(len: usize, elem: T) -> (r: Self)
        ensures
            r@.len() == len,
            forall|i: int| 0 <= i < len ==> #[trigger] r@[i] == elem,
    {
        let mut data: Vec<T> = Vec::with_capacity(len);
        let mut i: usize = 0;
        while i < len
            invariant
                i <= len,
                data@.len() == i,
                forall|k: int| 0 <= k < i ==> #[trigger] data@[k] == elem,
            decreases len - i,
        {
            data.push(elem);
            i += 1;
        }
        AlignedBuffer { data }
    }

    /// Takes over the values of a vector.
    pub fn from_vec(vec: Vec<T>) -> (r: Self)
        ensures
            r@ == vec@,
    {
        AlignedBuffer { data: vec }
    }

    /// Number of values.
    pub fn len(&self) -> (r: usize)
        ensures
            r == self@.len(),
    {
        self.data.len()
    }

    /// The values as an immutable slice.
    pub fn as_slice(&self) -> (r: &[T])
        ensures
            r@ == self@,
    {
        self.data.as_slice()
    }

    /// The values as a mutable slice.
    pub fn as_mut_slice(&mut self) -> (r: &mut [T])
        ensures
            r@ == old(self)@,
            final(self)@ == final(r)@,
    {
        self.data.as_mut_slice()
    }

    /// Value at index `i`.
    pub fn get(&self, i: usize) -> (r: T)
        requires
            i < self@.len(),
        ensures
            r == self@[i as int],
    {
        self.data[i]
    }

    /// Overwrites the value at index `i`.
    pub fn set(&mut self, i: usize, v: T)
        requires
            i < old(self)@.len(),
        ensures
            final(self)@ == old(self)@.update(i as int, v),
    {
        self.data.set(i, v);
    }
}

} // verus!
