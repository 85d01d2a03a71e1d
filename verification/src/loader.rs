//! Reading `.nnue` network files from their bytes.
//!
//! Weights of the feature transformer are stored LEB128-compressed: a 17-byte magic string,
//! a little-endian `u32` byte count, then the payload in which every value takes one or more
//! bytes whose high bit says whether another byte follows.
use vstd::prelude::*;

verus! {

/// Why bytes could not be read as a network.
#[derive(Debug, Clone, Copy, PartialEq, Eq, Structural)]
pub enum LoadError {
    /// The bytes ended before the value being read.
    UnexpectedEof,
    /// A header field or magic string does not match the expected format.
    InvalidData,
}

/// A position in a byte buffer from which values are read front to back.
pub struct ByteReader {
    data: Vec<u8>,
    pos: usize,
}

impl ByteReader {
    /// The bytes being read.
    pub closed spec fn bytes(&self) -> Seq<u8> {
        self.data@
    }

    /// Index of the next byte to read.
    pub closed spec fn pos(&self) -> int {
        self.pos as int
    }

    #[verifier::type_invariant]
    closed spec fn inv(&self) -> bool {
        self.pos <= self.data.len()
    }

    /// Starts reading `data` at its first byte.
    pub fn new(data: Vec<u8>) -> (r: ByteReader)
        ensures
            r.bytes() == data@,
            r.pos() == 0,
    {
        ByteReader { data, pos: 0 }
    }

    /// Index of the next byte to read.
    pub fn position(&self) -> (r: usize)
        ensures
            r == self.pos(),
            r <= self.bytes().len(),
    {
        proof { use_type_invariant(self); }
        self.pos
    }

    /// Number of bytes not read yet.
    pub fn remaining(&self) -> (r: usize)
        ensures
            r == self.bytes().len() - self.pos(),
    {
        proof { use_type_invariant(self); }
        self.data.len() - self.pos
    }

    /// Reads the next `n` bytes, or fails without moving when fewer remain.
    pub fn read_exact(&mut self, n: usize) -> (r: Result<Vec<u8>, LoadError>)
        ensures
            final(self).bytes() == old(self).bytes(),
            match r {
                Ok(v) => old(self).pos() + n <= old(self).bytes().len()
                    && v@ == old(self).bytes().subrange(old(self).pos(), old(self).pos() + n)
                    && final(self).pos() == old(self).pos() + n,
                Err(e) => old(self).pos() + n > old(self).bytes().len() && e == LoadError::UnexpectedEof
                    && final(self).pos() == old(self).pos(),
            },
    {
        proof { use_type_invariant(&*self); }
        if n > self.data.len() - self.pos {
            return Err(LoadError::UnexpectedEof);
        }
        let mut out: Vec<u8> = Vec::with_capacity(n);
        let mut i: usize = 0;
        while i < n
            invariant
                self.pos + n <= self.data.len(),
                i <= n,
                out@ == self.data@.subrange(self.pos as int, self.pos + i),
            decreases n - i,
        {
            out.push(self.data[self.pos + i]);
            i += 1;
        }
        self.pos = self.pos + n;
        Ok(out)
    }

    /// Moves past the next `n` bytes, or fails without moving when fewer remain.
    pub fn skip(&mut self, n: usize) -> (r: Result<(), LoadError>)
        ensures
            final(self).bytes() == old(self).bytes(),
            match r {
                Ok(_) => old(self).pos() + n <= old(self).bytes().len() && final(self).pos() == old(self).pos() + n,
                Err(e) => old(self).pos() + n > old(self).bytes().len() && e == LoadError::UnexpectedEof
                    && final(self).pos() == old(self).pos(),
            },
    {
        proof { use_type_invariant(&*self); }
        if n > self.data.len() - self.pos {
            return Err(LoadError::UnexpectedEof);
        }
        self.pos = self.pos + n;
        Ok(())
    }
}

/// Little-endian value of the four bytes at `p`.
pub open spec fn le_u32(b: Seq<u8>, p: int) -> int {
    b[p] + 256 * b[p + 1] + 65536 * b[p + 2] + 16777216 * b[p + 3]
}

/// `x` reduced to the range of `i32` by two's complement wrap-around.
pub open spec fn wrap_i32(x: int) -> int {
    let m = x % 4294967296;
    if m >= 2147483648 { m - 4294967296 } else { m }
}

/// Wrapping to 32 bits gives a value of `i32` that differs from the input by a multiple of 2^32,
/// and leaves a value already in range as it is.
pub proof fn lemma_wrap_i32_laws(x: int)
    ensures
        i32::MIN <= wrap_i32(x) <= i32::MAX,
        (x - wrap_i32(x)) % 4294967296 == 0,
        i32::MIN <= x <= i32::MAX ==> wrap_i32(x) == x,
{
    vstd::arithmetic::div_mod::lemma_fundamental_div_mod(x, 4294967296);
    let q = x / 4294967296;
    let m = x % 4294967296;
    if m >= 2147483648 {
        vstd::arithmetic::div_mod::lemma_fundamental_div_mod_converse(x - (m - 4294967296), 4294967296, q + 1, 0);
    } else {
        vstd::arithmetic::div_mod::lemma_fundamental_div_mod_converse(x - m, 4294967296, q, 0);
    }
    if i32::MIN <= x <= i32::MAX {
        if x >= 0 {
            vstd::arithmetic::div_mod::lemma_fundamental_div_mod_converse(x, 4294967296, 0, x);
        } else {
            vstd::arithmetic::div_mod::lemma_fundamental_div_mod_converse(x, 4294967296, -1, x + 4294967296);
        }
    }
}

/// `x` reduced to the range of `i16` by two's complement wrap-around.
pub open spec fn wrap_i16(x: int) -> int {
    let m = x % 65536;
    if m >= 32768 { m - 65536 } else { m }
}

/// `x` reduced to the range of `i8` by two's complement wrap-around.
pub open spec fn wrap_i8(x: int) -> int {
    let m = x % 256;
    if m >= 128 { m - 256 } else { m }
}

/// Reads a little-endian u32.
pub fn read_u32(reader: &mut ByteReader) -> (r: Result<u32, LoadError>)
    ensures
        final(reader).bytes() == old(reader).bytes(),
        match r {
            Ok(v) => old(reader).pos() + 4 <= old(reader).bytes().len() && v == le_u32(old(reader).bytes(), old(reader).pos())
                && final(reader).pos() == old(reader).pos() + 4,
            Err(e) => old(reader).pos() + 4 > old(reader).bytes().len() && e == LoadError::UnexpectedEof
                && final(reader).pos() == old(reader).pos(),
        },
{
    let buf = reader.read_exact(4)?;
    Ok(buf[0] as u32 + 256 * (buf[1] as u32) + 65536 * (buf[2] as u32) + 16777216 * (buf[3] as u32))
}

/// Reads a little-endian i32.
pub fn read_i32(reader: &mut ByteReader) -> (r: Result<i32, LoadError>)
    ensures
        final(reader).bytes() == old(reader).bytes(),
        match r {
            Ok(v) => old(reader).pos() + 4 <= old(reader).bytes().len()
                && v == wrap_i32(le_u32(old(reader).bytes(), old(reader).pos()))
                && final(reader).pos() == old(reader).pos() + 4,
            Err(e) => old(reader).pos() + 4 > old(reader).bytes().len() && e == LoadError::UnexpectedEof
                && final(reader).pos() == old(reader).pos(),
        },
{
    let u = read_u32(reader)?;
    if u >= 2147483648 {
        Ok((u as i64 - 4294967296i64) as i32)
    } else {
        Ok(u as i32)
    }
}


/// `128` raised to `j`.
pub open spec fn pow128(j: nat) -> int
    decreases j,
{
    if j == 0 { 1 } else { 128 * pow128((j - 1) as nat) }
}

/// Length in bytes of the LEB128 value that starts at `p`, looking from its `i`-th byte on:
/// `-1` when the bytes end first, `-2` when a sixth byte would be needed.
pub open spec fn leb_len(data: Seq<u8>, p: int, i: int) -> int
    decreases 5 - i,
{
    if i < 0 || i > 4 {
        -2
    } else if p + i >= data.len() {
        -1
    } else if data[p + i] < 128 {
        i + 1
    } else if i == 4 {
        if p + 5 >= data.len() { -1 } else { -2 }
    } else {
        leb_len(data, p, i + 1)
    }
}

/// The 7-bit groups of the `k` bytes at `p`, least significant first.
pub open spec fn leb_raw(data: Seq<u8>, p: int, k: nat) -> int
    decreases k,
{
    if k == 0 { 0 } else { leb_raw(data, p, (k - 1) as nat) + (data[p + k - 1] % 128) * pow128((k - 1) as nat) }
}

/// Signed value of the `k`-byte LEB128 number at `p`, as an `i32`: sign-extended from bit
/// `7k - 1` when that bit is set and `7k < 32`, and wrapped to 32 bits otherwise.
pub open spec fn leb_value(data: Seq<u8>, p: int, k: nat) -> int {
    let raw = leb_raw(data, p, k);
    if 7 * k < 32 && data[p + k - 1] % 128 >= 64 { raw - pow128(k) } else { wrap_i32(raw) }
}

/// Decoding the first `n` values of a LEB128 payload: a status (0 done, 1 the bytes ended,
/// 2 a value longer than five bytes), the values, and the position after the last one.
pub open spec fn leb_decode(data: Seq<u8>, n: nat) -> (int, Seq<int>, int)
    decreases n,
{
    if n == 0 {
        (0, Seq::empty(), 0)
    } else {
        let prev = leb_decode(data, (n - 1) as nat);
        if prev.0 != 0 {
            prev
        } else {
            let k = leb_len(data, prev.2, 0);
            if k == -1 {
                (1, prev.1, prev.2)
            } else if k < 0 {
                (2, prev.1, prev.2)
            } else {
                (0, prev.1.push(leb_value(data, prev.2, k as nat)), prev.2 + k)
            }
        }
    }
}

/// The magic string "COMPRESSED_LEB128" as bytes.
pub open spec fn leb_magic() -> Seq<u8> {
    seq![67u8, 79, 77, 80, 82, 69, 83, 83, 69, 68, 95, 76, 69, 66, 49, 50, 56]
}

/// The LEB128 payload that starts at `pos` (after the magic string when `check_magic`), with
/// the position after it.
pub open spec fn leb_payload(b: Seq<u8>, pos: int, check_magic: bool) -> Result<(Seq<u8>, int), LoadError> {
    let q = if check_magic { pos + 17 } else { pos };
    if check_magic && pos + 17 > b.len() {
        Err(LoadError::UnexpectedEof)
    } else if check_magic && b.subrange(pos, pos + 17) != leb_magic() {
        Err(LoadError::InvalidData)
    } else if q + 4 > b.len() {
        Err(LoadError::UnexpectedEof)
    } else if q + 4 + le_u32(b, q) > b.len() {
        Err(LoadError::UnexpectedEof)
    } else {
        Ok((b.subrange(q + 4, q + 4 + le_u32(b, q)), q + 4 + le_u32(b, q)))
    }
}

/// Result of reading `count` LEB128 values at `pos`: the values, `UnexpectedEof` when the
/// bytes end first, `InvalidData` for a value longer than five bytes.
pub open spec fn leb_read_result(b: Seq<u8>, pos: int, check_magic: bool, count: nat) -> Result<Seq<int>, LoadError> {
    match leb_payload(b, pos, check_magic) {
        Ok((d, _)) => if leb_decode(d, count).0 == 0 {
            Ok(leb_decode(d, count).1)
        } else if leb_decode(d, count).0 == 1 {
            Err(LoadError::UnexpectedEof)
        } else {
            Err(LoadError::InvalidData)
        },
        Err(e) => Err(e),
    }
}

/// `v` holds exactly the values `vals`.
pub open spec fn same_values_i32(v: Seq<i32>, vals: Seq<int>) -> bool {
    v.len() == vals.len() && forall|i: int| 0 <= i < v.len() ==> #[trigger] v[i] as int == vals[i]
}

/// `v` holds exactly the values `vals`.
pub open spec fn same_values_i16(v: Seq<i16>, vals: Seq<int>) -> bool {
    v.len() == vals.len() && forall|i: int| 0 <= i < v.len() ==> #[trigger] v[i] as int == vals[i]
}

/// `v` holds the values `vals` each wrapped to 16 bits.
pub open spec fn wrapped_i16_values(v: Seq<i16>, vals: Seq<int>) -> bool {
    v.len() == vals.len() && forall|i: int| 0 <= i < v.len() ==> #[trigger] v[i] as int == wrap_i16(vals[i])
}

/// The magic string as bytes.
fn leb128_magic() -> (r: Vec<u8>)
    ensures
        r@ == leb_magic(),
{
    let r = vec![67u8, 79, 77, 80, 82, 69, 83, 83, 69, 68, 95, 76, 69, 66, 49, 50, 56];
    assert(r@ =~= leb_magic());
    r
}

/// Reads the LEB128 compressed payload (magic + size + data).
fn read_leb128_payload(reader: &mut ByteReader, check_magic: bool) -> (r: Result<Vec<u8>, LoadError>)
    ensures
        final(reader).bytes() == old(reader).bytes(),
        leb_payload(old(reader).bytes(), old(reader).pos(), check_magic) is Ok ==> r is Ok
            && r.unwrap()@ == leb_payload(old(reader).bytes(), old(reader).pos(), check_magic).unwrap().0
            && final(reader).pos() == leb_payload(old(reader).bytes(), old(reader).pos(), check_magic).unwrap().1,
        leb_payload(old(reader).bytes(), old(reader).pos(), check_magic) is Err ==> r is Err
            && r->Err_0 == leb_payload(old(reader).bytes(), old(reader).pos(), check_magic)->Err_0,
{
    let ghost b = reader.bytes();
    let ghost pos = reader.pos();
    if check_magic {
        let magic = reader.read_exact(17)?;
        let expected = leb128_magic();
        let mut same = true;
        let mut i: usize = 0;
        assert(magic@.subrange(0, 0) =~= leb_magic().subrange(0, 0));
        while i < 17
            invariant
                magic@.len() == 17,
                expected@ == leb_magic(),
                i <= 17,
                same == (magic@.subrange(0, i as int) == leb_magic().subrange(0, i as int)),
            decreases 17 - i,
        {
            proof {
                assert(magic@.subrange(0, i + 1) == magic@.subrange(0, i as int).push(magic@[i as int]));
                assert(leb_magic().subrange(0, i + 1) == leb_magic().subrange(0, i as int).push(leb_magic()[i as int]));
                if magic@.subrange(0, i + 1) == leb_magic().subrange(0, i + 1) {
                    assert(magic@.subrange(0, i + 1)[i as int] == magic@[i as int]);
                    assert(magic@.subrange(0, i as int) == magic@.subrange(0, i + 1).subrange(0, i as int));
                    assert(leb_magic().subrange(0, i as int) == leb_magic().subrange(0, i + 1).subrange(0, i as int));
                }
            }
            if magic[i] != expected[i] {
                same = false;
            }
            i += 1;
        }
        proof {
            assert(magic@.subrange(0, 17) == magic@);
            assert(leb_magic().subrange(0, 17) == leb_magic());
        }
        if !same {
            return Err(LoadError::InvalidData);
        }
    }
    let total_bytes = read_u32(reader)? as usize;
    let compressed = reader.read_exact(total_bytes)?;
    Ok(compressed)
}

/// Length of the LEB128 value at `p`: `-1` when the bytes end first, `-2` when it is too long.
fn leb_value_len(data: &Vec<u8>, p: usize) -> (r: i64)
    requires
        p <= data.len(),
    ensures
        r == leb_len(data@, p as int, 0),
{
    let avail = data.len() - p;
    let mut i: usize = 0;
    while i < 4
        invariant
            p <= data.len(),
            avail == data.len() - p,
            i <= 4,
            leb_len(data@, p as int, 0) == leb_len(data@, p as int, i as int),
        decreases 4 - i,
    {
        if i >= avail {
            return -1;
        }
        if data[p + i] < 128 {
            return (i + 1) as i64;
        }
        i += 1;
    }
    if 4 >= avail {
        return -1;
    }
    if data[p + 4] < 128 {
        return 5;
    }
    if 5 >= avail {
        return -1;
    }
    -2
}

proof fn lemma_leb_raw_bound(data: Seq<u8>, p: int, k: nat)
    requires
        0 <= p,
        p + k <= data.len(),
    ensures
        0 <= leb_raw(data, p, k) < pow128(k),
    decreases k,
{
    if k > 0 {
        lemma_leb_raw_bound(data, p, (k - 1) as nat);
        assert((data[p + k - 1] % 128) * pow128((k - 1) as nat) <= 127 * pow128((k - 1) as nat)) by (nonlinear_arith)
            requires
                0 <= data[p + k - 1] % 128 <= 127,
                pow128((k - 1) as nat) >= 0,
        ;
    }
}

/// Decodes the value of `k` bytes at `p`.
fn leb_decode_value(data: &Vec<u8>, p: usize, k: usize) -> (r: i32)
    requires
        1 <= k <= 5,
        p + k <= data.len(),
    ensures
        r == leb_value(data@, p as int, k as nat),
{
    let mut raw: u64 = 0;
    let mut mult: u64 = 1;
    let mut j: usize = 0;
    while j < k
        invariant
            1 <= k <= 5,
            p + k <= data.len(),
            j <= k,
            raw == leb_raw(data@, p as int, j as nat),
            mult == pow128(j as nat),
            raw < mult,
        decreases k - j,
    {
        proof { lemma_leb_raw_bound(data@, p as int, (j + 1) as nat); }
        assert(pow128(5) == 34359738368) by { reveal_with_fuel(pow128, 6); }
        proof {
            if j + 1 <= 5 {
                lemma_pow128_mono((j + 1) as nat, 5);
            }
        }
        raw = raw + ((data[p + j] % 128) as u64) * mult;
        mult = mult * 128;
        j += 1;
    }
    let last = data[p + k - 1];
    assert(pow128(4) == 268435456) by { reveal_with_fuel(pow128, 5); }
    proof {
        if k <= 4 {
            lemma_pow128_mono(k as nat, 4);
        }
    }
    if 7 * k < 32 && last % 128 >= 64 {
        (raw as i64 - mult as i64) as i32
    } else {
        let m = raw % 4294967296;
        if m >= 2147483648 {
            (m as i64 - 4294967296i64) as i32
        } else {
            m as i32
        }
    }
}

proof fn lemma_pow128_mono(a: nat, b: nat)
    requires
        a <= b,
    ensures
        pow128(a) <= pow128(b),
        pow128(a) >= 1,
    decreases b,
{
    if a < b {
        lemma_pow128_mono(a, (b - 1) as nat);
    } else if a > 0 {
        lemma_pow128_mono((a - 1) as nat, (a - 1) as nat);
    }
}

/// Decodes the first `count` LEB128 values of `data`.
fn decode_leb128(data: &Vec<u8>, count: usize) -> (r: Result<Vec<i32>, LoadError>)
    ensures
        r is Ok <==> leb_decode(data@, count as nat).0 == 0,
        r is Ok ==> same_values_i32(r.unwrap()@, leb_decode(data@, count as nat).1),
        r is Err ==> (leb_decode(data@, count as nat).0 == 1 && r->Err_0 == LoadError::UnexpectedEof)
            || (leb_decode(data@, count as nat).0 == 2 && r->Err_0 == LoadError::InvalidData),
{
    let mut result: Vec<i32> = Vec::new();
    let mut buf_pos: usize = 0;
    let mut n: usize = 0;
    while n < count
        invariant
            n <= count,
            leb_decode(data@, n as nat).0 == 0,
            leb_decode(data@, n as nat).2 == buf_pos,
            buf_pos <= data.len(),
            same_values_i32(result@, leb_decode(data@, n as nat).1),
        decreases count - n,
    {
        proof { lemma_leb_decode_stops(data@, (n + 1) as nat, count as nat); }
        let k = leb_value_len(data, buf_pos);
        if k == -1 {
            proof { lemma_leb_decode_stops(data@, (n + 1) as nat, count as nat); }
            return Err(LoadError::UnexpectedEof);
        }
        if k == -2 {
            proof { lemma_leb_decode_stops(data@, (n + 1) as nat, count as nat); }
            return Err(LoadError::InvalidData);
        }
        proof { lemma_leb_len_range(data@, buf_pos as int, 0); }
        let value = leb_decode_value(data, buf_pos, k as usize);
        result.push(value);
        buf_pos = buf_pos + k as usize;
        n += 1;
    }
    Ok(result)
}

proof fn lemma_leb_len_range(data: Seq<u8>, p: int, i: int)
    requires
        0 <= i <= 4,
        0 <= p,
    ensures
        leb_len(data, p, i) == -1 || leb_len(data, p, i) == -2
            || (i + 1 <= leb_len(data, p, i) <= 5 && p + leb_len(data, p, i) <= data.len()),
    decreases 5 - i,
{
    if i < 4 && p + i < data.len() && data[p + i] >= 128 {
        lemma_leb_len_range(data, p, i + 1);
    }
}

/// Once decoding has failed it stays failed with the same status.
proof fn lemma_leb_decode_stops(data: Seq<u8>, a: nat, b: nat)
    requires
        a <= b,
    ensures
        leb_decode(data, a).0 != 0 ==> leb_decode(data, b).0 == leb_decode(data, a).0,
    decreases b,
{
    if a < b {
        lemma_leb_decode_stops(data, a, (b - 1) as nat);
    }
}

/// `v` wrapped to 16 bits.
fn wrap_to_i16(v: i32) -> (r: i16)
    ensures
        r as int == wrap_i16(v as int),
{
    let m = (v as i64) % 65536;
    let m = if m < 0 { m + 65536 } else { m };
    if m >= 32768 { (m - 65536) as i16 } else { m as i16 }
}

/// Reads LEB128 i16 values, checking the magic string first when `check_magic`.
pub fn read_leb128_i16_checked(reader: &mut ByteReader, count: usize, check_magic: bool) -> (r: Result<Vec<i16>, LoadError>)
    ensures
        final(reader).bytes() == old(reader).bytes(),
        r is Ok ==> final(reader).pos() == leb_payload(old(reader).bytes(), old(reader).pos(), check_magic).unwrap().1,
        match leb_read_result(old(reader).bytes(), old(reader).pos(), check_magic, count as nat) {
            Ok(vals) => r is Ok && wrapped_i16_values(r.unwrap()@, vals),
            Err(e) => r == Err::<Vec<i16>, LoadError>(e),
        },
{
    let ghost b = reader.bytes();
    let ghost pos = reader.pos();
    let compressed = read_leb128_payload(reader, check_magic)?;
    let values = decode_leb128(&compressed, count)?;
    assert(leb_decode(compressed@, count as nat).0 == 0);
    let mut result: Vec<i16> = Vec::with_capacity(values.len());
    let mut i: usize = 0;
    while i < values.len()
        invariant
            i <= values.len(),
            result@.len() == i,
            forall|j: int| 0 <= j < i ==> result@[j] as int == wrap_i16(values@[j] as int),
        decreases values.len() - i,
    {
        let w = wrap_to_i16(values[i]);
        result.push(w);
        i += 1;
    }
    Ok(result)
}

/// Decodes LEB128 compressed i16 values after checking the magic string.
pub fn read_leb128_i16(reader: &mut ByteReader, count: usize) -> (r: Result<Vec<i16>, LoadError>)
    ensures
        final(reader).bytes() == old(reader).bytes(),
        r is Ok ==> final(reader).pos() == leb_payload(old(reader).bytes(), old(reader).pos(), true).unwrap().1,
        match leb_read_result(old(reader).bytes(), old(reader).pos(), true, count as nat) {
            Ok(vals) => r is Ok && wrapped_i16_values(r.unwrap()@, vals),
            Err(e) => r == Err::<Vec<i16>, LoadError>(e),
        },
{
    read_leb128_i16_checked(reader, count, true)
}

/// Decodes LEB128 compressed i32 values after checking the magic string.
pub fn read_leb128_i32(reader: &mut ByteReader, count: usize) -> (r: Result<Vec<i32>, LoadError>)
    ensures
        final(reader).bytes() == old(reader).bytes(),
        r is Ok ==> final(reader).pos() == leb_payload(old(reader).bytes(), old(reader).pos(), true).unwrap().1,
        match leb_read_result(old(reader).bytes(), old(reader).pos(), true, count as nat) {
            Ok(vals) => r is Ok && same_values_i32(r.unwrap()@, vals),
            Err(e) => r == Err::<Vec<i32>, LoadError>(e),
        },
{
    let compressed = read_leb128_payload(reader, true)?;
    let values = decode_leb128(&compressed, count)?;
    assert(leb_decode(compressed@, count as nat).0 == 0);
    Ok(values)
}


/// Reads `count` little-endian i32 values stored one after another.
pub fn read_i32_array(reader: &mut ByteReader, count: usize) -> (r: Result<Vec<i32>, LoadError>)
    ensures
        final(reader).bytes() == old(reader).bytes(),
        r is Ok <==> old(reader).pos() + 4 * count <= old(reader).bytes().len(),
        r is Ok ==> final(reader).pos() == old(reader).pos() + 4 * count && r.unwrap()@.len() == count
            && forall|i: int| 0 <= i < count ==> #[trigger] r.unwrap()@[i] as int
                == wrap_i32(le_u32(old(reader).bytes(), old(reader).pos() + 4 * i)),
        r is Err ==> r->Err_0 == LoadError::UnexpectedEof,
{
    let ghost start = reader.pos();
    let _ = reader.position();
    let mut result: Vec<i32> = Vec::new();
    let mut i: usize = 0;
    while i < count
        invariant
            i <= count,
            reader.bytes() == old(reader).bytes(),
            start == old(reader).pos(),
            reader.pos() == start + 4 * i,
            start + 4 * i <= reader.bytes().len(),
            result@.len() == i,
            forall|j: int| 0 <= j < i ==> #[trigger] result@[j] as int == wrap_i32(le_u32(old(reader).bytes(), start + 4 * j)),
        decreases count - i,
    {
        let v = match read_i32(reader) {
            Ok(v) => v,
            Err(e) => {
                assert(start + 4 * count > reader.bytes().len()) by (nonlinear_arith)
                    requires
                        start + 4 * i + 4 > reader.bytes().len(),
                        i < count,
                ;
                return Err(e);
            },
        };
        result.push(v);
        i += 1;
    }
    Ok(result)
}

/// Reads `count` bytes as i8 values.
pub fn read_i8_array(reader: &mut ByteReader, count: usize) -> (r: Result<Vec<i8>, LoadError>)
    ensures
        final(reader).bytes() == old(reader).bytes(),
        r is Ok <==> old(reader).pos() + count <= old(reader).bytes().len(),
        r is Ok ==> final(reader).pos() == old(reader).pos() + count && r.unwrap()@.len() == count
            && forall|i: int| 0 <= i < count ==> #[trigger] r.unwrap()@[i] as int == wrap_i8(old(reader).bytes()[old(reader).pos() + i] as int),
        r is Err ==> r->Err_0 == LoadError::UnexpectedEof,
{
    let bytes = reader.read_exact(count)?;
    let mut result: Vec<i8> = Vec::with_capacity(count);
    let mut i: usize = 0;
    while i < count
        invariant
            i <= count,
            bytes@.len() == count,
            result@.len() == i,
            forall|j: int| 0 <= j < i ==> #[trigger] result@[j] as int == wrap_i8(bytes@[j] as int),
        decreases count - i,
    {
        let b = bytes[i];
        let v: i8 = if b >= 128 { (b as i16 - 256) as i8 } else { b as i8 };
        result.push(v);
        i += 1;
    }
    Ok(result)
}
} // verus!
