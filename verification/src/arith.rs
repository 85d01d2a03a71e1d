//! Two's complement wrap-around on mathematical integers.
use vstd::prelude::*;
use crate::loader::{wrap_i16, wrap_i32};
use vstd::arithmetic::div_mod::{lemma_add_mod_noop, lemma_sub_mod_noop, lemma_mod_self_0, lemma_mod_twice};

verus! {

/// Wrapping to 32 bits gives a value of `i32`'s range that differs from `x` by a multiple of 2^32.
pub proof fn lemma_wrap_i32_range(x: int)
    ensures
        i32::MIN <= wrap_i32(x) <= i32::MAX,
        wrap_i32(x) % 4294967296 == x % 4294967296,
{
    let m = x % 4294967296;
    if m >= 2147483648 {
        lemma_sub_mod_noop(m, 4294967296, 4294967296);
        lemma_mod_self_0(4294967296);
        lemma_mod_twice(x, 4294967296);
    } else {
        lemma_mod_twice(x, 4294967296);
    }
}

/// Wrapping to 16 bits gives a value of `i16`'s range that differs from `x` by a multiple of 2^16.
pub proof fn lemma_wrap_i16_range(x: int)
    ensures
        i16::MIN <= wrap_i16(x) <= i16::MAX,
        wrap_i16(x) % 65536 == x % 65536,
{
    let m = x % 65536;
    if m >= 32768 {
        lemma_sub_mod_noop(m, 65536, 65536);
        lemma_mod_self_0(65536);
        lemma_mod_twice(x, 65536);
    } else {
        lemma_mod_twice(x, 65536);
    }
}

/// Wrapping a partial sum first does not change the wrapped total.
pub proof fn lemma_wrap_i32_add(a: int, b: int)
    ensures
        wrap_i32(wrap_i32(a) + b) == wrap_i32(a + b),
{
    lemma_wrap_i32_range(a);
    lemma_add_mod_noop(wrap_i32(a), b, 4294967296);
    lemma_add_mod_noop(a, b, 4294967296);
}

/// Wrapping a partial sum first does not change the wrapped total.
pub proof fn lemma_wrap_i16_add(a: int, b: int)
    ensures
        wrap_i16(wrap_i16(a) + b) == wrap_i16(a + b),
{
    lemma_wrap_i16_range(a);
    lemma_add_mod_noop(wrap_i16(a), b, 65536);
    lemma_add_mod_noop(a, b, 65536);
}

/// A value already in range is its own wrap.
pub proof fn lemma_wrap_i32_id(x: int)
    requires
        i32::MIN <= x <= i32::MAX,
    ensures
        wrap_i32(x) == x,
{
}

/// A value already in range is its own wrap.
pub proof fn lemma_wrap_i16_id(x: int)
    requires
        i16::MIN <= x <= i16::MAX,
    ensures
        wrap_i16(x) == x,
{
}

/// `wrapping_add` on `i32` is the wrapped sum.
pub proof fn lemma_wrapping_add_i32(x: i32, y: i32)
    ensures
        x.wrapping_add(y) == wrap_i32(x + y),
{
}

/// `wrapping_add` on `i16` is the wrapped sum.
pub proof fn lemma_wrapping_add_i16(x: i16, y: i16)
    ensures
        x.wrapping_add(y) == wrap_i16(x + y),
{
}

/// `wrapping_sub` on `i16` is the wrapped difference.
pub proof fn lemma_wrapping_sub_i16(x: i16, y: i16)
    ensures
        x.wrapping_sub(y) == wrap_i16(x - y),
{
}

/// `wrapping_sub` on `i32` is the wrapped difference.
pub proof fn lemma_wrapping_sub_i32(x: i32, y: i32)
    ensures
        x.wrapping_sub(y) == wrap_i32(x - y),
{
}

} // verus!
