//! Clipped activations between the dense layers.
use vstd::prelude::*;
use super::Layer;
use crate::loader::{ByteReader, LoadError};

verus! {

/// Clamps `x` into `[0, 127]`.
pub open spec fn clamp127(x: int) -> int {
    if x < 0 { 0 } else if x > 127 { 127 } else { x }
}

/// Clipped ReLU of one value: `clamp(value >> 6, 0, 127)`.
pub open spec fn clipped_relu_value(v: i32) -> int {
    clamp127((v >> 6u32) as int)
}

/// Squared clipped ReLU of one value: `clamp((value * value) >> 19, 0, 127)`.
pub open spec fn sqr_clipped_relu_value(v: i32) -> int {
    clamp127(((v as i64 * v as i64) as i64 >> 19u32) as int)
}

/// The clipped activation lies in `[0, 127]`, never falls when its input rises, is 0 for inputs
/// below 64 and 127 from 8128 up.
pub proof fn lemma_clipped_relu_laws(v: i32, w: i32)
    ensures
        0 <= clipped_relu_value(v) <= 127,
        v <= w ==> clipped_relu_value(v) <= clipped_relu_value(w),
        v < 64 ==> clipped_relu_value(v) == 0,
        v >= 8128 ==> clipped_relu_value(v) == 127,
{
    assert(v <= w ==> (v >> 6u32) <= (w >> 6u32)) by (bit_vector);
    assert(v < 64 ==> (v >> 6u32) <= 0) by (bit_vector);
    assert(v >= 8128 ==> (v >> 6u32) >= 127) by (bit_vector);
}

/// The squared activation lies in `[0, 127]`, is the same for an input and its negation, never
/// falls as the input moves away from zero, is 0 for inputs below 724 in size and 127 from 8160
/// up.
pub proof fn lemma_sqr_clipped_relu_laws(v: i32, w: i32)
    ensures
        0 <= sqr_clipped_relu_value(v) <= 127,
        v as int == -(w as int) ==> sqr_clipped_relu_value(v) == sqr_clipped_relu_value(w),
        0 <= v <= w ==> sqr_clipped_relu_value(v) <= sqr_clipped_relu_value(w),
        -724 < v < 724 ==> sqr_clipped_relu_value(v) == 0,
        v >= 8160 ==> sqr_clipped_relu_value(v) == 127,
{
    lemma_square_shift(v);
    lemma_square_shift(w);
    let a = v as int;
    let b = w as int;
    if a == -b {
        assert(a * a == b * b) by (nonlinear_arith)
            requires
                a == -b,
        ;
    }
    if 0 <= a <= b {
        assert(a * a <= b * b) by (nonlinear_arith)
            requires
                0 <= a <= b,
        ;
        vstd::arithmetic::div_mod::lemma_div_is_ordered(a * a, b * b, 524288);
    }
    if -724 < a < 724 {
        assert(a * a < 524288) by (nonlinear_arith)
            requires
                -724 < a < 724,
        ;
    }
    if a >= 8160 {
        assert(a * a >= 8160 * 8160) by (nonlinear_arith)
            requires
                a >= 8160,
        ;
        vstd::arithmetic::div_mod::lemma_div_is_ordered(8160int * 8160, a * a, 524288);
    }
}

/// The square of a 32-bit value shifted right by 19 is the square divided by 2^19.
proof fn lemma_square_shift(v: i32)
    ensures
        ((v as i64 * v as i64) as i64 >> 19u32) as int == (v as int * v as int) / 524288,
        (v as int * v as int) / 524288 >= 0,
{
    let a = v as int;
    assert(0 <= a * a <= 0x4000_0000_0000_0000) by (nonlinear_arith)
        requires
            -0x8000_0000 <= a <= 0x7fff_ffff,
    ;
    let p: i64 = (v as i64 * v as i64) as i64;
    assert(p as int == a * a);
    assert(p >= 0 ==> (p >> 19u32) as int == (p as int) / 524288) by (bit_vector);
    vstd::arithmetic::div_mod::lemma_div_is_ordered(0, a * a, 524288);
}

/// Clips 32-bit activations into the `[0, 127]` range after scaling.
pub struct ClippedReLU {
    pub dims: usize,
}

impl ClippedReLU {
    pub fn new(dims: usize) -> (r: Self)
        ensures
            r.dims == dims,
    {
        Self { dims }
    }
}

/// Number of values an activation writes: the shorter of its input and its width.
pub open spec fn active_len(input_len: int, dims: int) -> int {
    if input_len < dims { input_len } else { dims }
}

impl Layer for ClippedReLU {
    type Input = i32;
    type Output = u8;

    open spec fn wf(&self) -> bool {
        true
    }

    open spec fn accepts(&self, input: Seq<i32>, output: Seq<u8>) -> bool {
        output.len() >= active_len(input.len() as int, self.dims as int)
    }

    open spec fn propagated(&self, input: Seq<i32>, output: Seq<u8>) -> Seq<u8> {
        Seq::new(output.len(), |i: int|
            if i < active_len(input.len() as int, self.dims as int) { clipped_relu_value(input[i]) as u8 } else { output[i] })
    }

    open spec fn read_ready(&self) -> bool {
        true
    }

    open spec fn loaded(&self, before: Self, bytes: Seq<u8>, pos: int, end: int, r: Result<(), LoadError>) -> bool {
        r is Ok && *self == before && end == pos
    }

    fn propagate(&self, input: &[i32], output: &mut [u8]) {
        let n = if input.len() < self.dims { input.len() } else { self.dims };
        let ghost out0 = output@;
        let mut index: usize = 0;
        while index < n
            invariant
                n == active_len(input@.len() as int, self.dims as int),
                n <= output@.len(),
                index <= n,
                output@.len() == out0.len(),
                forall|i: int| 0 <= i < index ==> #[trigger] output@[i] == clipped_relu_value(input@[i]) as u8,
                forall|i: int| index <= i < output@.len() ==> #[trigger] output@[i] == out0[i],
            decreases n - index,
        {
            let s = input[index] >> 6u32;
            let v: u8 = if s < 0 { 0 } else if s > 127 { 127 } else { s as u8 };
            output[index] = v;
            index += 1;
        }
        assert(output@ =~= self.propagated(input@, out0));
    }

    fn read_parameters(&mut self, reader: &mut ByteReader) -> (r: Result<(), LoadError>) {
        Ok(())
    }
}

/// Squares and clips activations for the first hidden activation stage.
pub struct SqrClippedReLU {
    pub dims: usize,
}

impl SqrClippedReLU {
    pub fn new(dims: usize) -> (r: Self)
        ensures
            r.dims == dims,
    {
        Self { dims }
    }
}

impl Layer for SqrClippedReLU {
    type Input = i32;
    type Output = u8;

    open spec fn wf(&self) -> bool {
        true
    }

    open spec fn accepts(&self, input: Seq<i32>, output: Seq<u8>) -> bool {
        output.len() >= active_len(input.len() as int, self.dims as int)
    }

    open spec fn propagated(&self, input: Seq<i32>, output: Seq<u8>) -> Seq<u8> {
        Seq::new(output.len(), |i: int|
            if i < active_len(input.len() as int, self.dims as int) { sqr_clipped_relu_value(input[i]) as u8 } else { output[i] })
    }

    open spec fn read_ready(&self) -> bool {
        true
    }

    open spec fn loaded(&self, before: Self, bytes: Seq<u8>, pos: int, end: int, r: Result<(), LoadError>) -> bool {
        r is Ok && *self == before && end == pos
    }

    fn propagate(&self, input: &[i32], output: &mut [u8]) {
        let n = if input.len() < self.dims { input.len() } else { self.dims };
        let ghost out0 = output@;
        let mut index: usize = 0;
        while index < n
            invariant
                n == active_len(input@.len() as int, self.dims as int),
                n <= output@.len(),
                index <= n,
                output@.len() == out0.len(),
                forall|i: int| 0 <= i < index ==> #[trigger] output@[i] == sqr_clipped_relu_value(input@[i]) as u8,
                forall|i: int| index <= i < output@.len() ==> #[trigger] output@[i] == out0[i],
            decreases n - index,
        {
            let x = input[index] as i64;
            assert(x * x <= 4611686018427387904) by (nonlinear_arith)
                requires
                    -2147483648 <= x <= 2147483647,
            ;
            assert(x * x >= 0) by (nonlinear_arith);
            let squared = x * x;
            let s = squared >> 19u32;
            let v: u8 = if s < 0 { 0 } else if s > 127 { 127 } else { s as u8 };
            output[index] = v;
            index += 1;
        }
        assert(output@ =~= self.propagated(input@, out0));
    }

    fn read_parameters(&mut self, reader: &mut ByteReader) -> (r: Result<(), LoadError>) {
        Ok(())
    }
}

} // verus!
