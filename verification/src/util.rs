//! Small helpers shared across the crate: checked arithmetic that reports
//! overflow as a typed error, decimal rendering of integers, and reads of
//! little-endian integers out of byte buffers.

use vstd::prelude::*;

use crate::error::MmapError;

verus! {

/// The digit character for `d` in `0 ..= 9`.
pub open spec fn dec_digit(d: int) -> char {
    if d == 0 {
        '0'
    } else if d == 1 {
        '1'
    } else if d == 2 {
        '2'
    } else if d == 3 {
        '3'
    } else if d == 4 {
        '4'
    } else if d == 5 {
        '5'
    } else if d == 6 {
        '6'
    } else if d == 7 {
        '7'
    } else if d == 8 {
        '8'
    } else {
        '9'
    }
}

/// The decimal rendering of a non-negative integer, most significant digit
/// first.
pub open spec fn dec_str(n: int) -> Seq<char>
    recommends
        n >= 0,
    decreases n,
{
    if n < 10 {
        seq![dec_digit(n)]
    } else {
        dec_str(n / 10).push(dec_digit(n % 10))
    }
}

/// The decimal rendering of an integer, with a leading `-` when negative.
pub open spec fn dec_str_signed(n: int) -> Seq<char> {
    if n < 0 {
        seq!['-'] + dec_str(-n)
    } else {
        dec_str(n)
    }
}

/// The single-character string for the decimal digit `d`.
fn digit_str(d: u128) -> (s: &'static str)
    requires
        d <= 9,
    ensures
        s@ == seq![dec_digit(d as int)],
{
    proof {
        reveal_strlit("0");
        reveal_strlit("1");
        reveal_strlit("2");
        reveal_strlit("3");
        reveal_strlit("4");
        reveal_strlit("5");
        reveal_strlit("6");
        reveal_strlit("7");
        reveal_strlit("8");
        reveal_strlit("9");
    }
    match d {
        0 => "0",
        1 => "1",
        2 => "2",
        3 => "3",
        4 => "4",
        5 => "5",
        6 => "6",
        7 => "7",
        8 => "8",
        _ => "9",
    }
}

/// Renders `n` in decimal.
pub fn u128_to_string(n: u128) -> (s: String)
    ensures
        s@ == dec_str(n as int),
    decreases n,
{
    let d = n % 10;
    if n < 10 {
        String::from_str(digit_str(d))
    } else {
        let mut s = u128_to_string(n / 10);
        s.append(digit_str(d));
        s
    }
}

/// Renders `n` in decimal.
pub fn usize_to_string(n: usize) -> (s: String)
    ensures
        s@ == dec_str(n as int),
{
    u128_to_string(n as u128)
}

/// Renders `n` in decimal, with a leading `-` when negative.
pub fn i128_to_string(n: i128) -> (s: String)
    requires
        n > i128::MIN,
    ensures
        s@ == dec_str_signed(n as int),
{
    if n < 0 {
        proof {
            reveal_strlit("-");
        }
        let mut s = String::from_str("-");
        let m = u128_to_string((-n) as u128);
        s.append(m.as_str());
        s
    } else {
        u128_to_string(n as u128)
    }
}

/// The value of a four-byte little-endian integer.
pub open spec fn le_u32(b: Seq<u8>) -> int
    recommends
        b.len() == 4,
{
    b[0] + 0x100 * b[1] + 0x1_0000 * b[2] + 0x100_0000 * b[3]
}

/// The value of an eight-byte little-endian integer.
pub open spec fn le_u64(b: Seq<u8>) -> int
    recommends
        b.len() == 8,
{
    b[0] + 0x100 * b[1] + 0x1_0000 * b[2] + 0x100_0000 * b[3] + 0x1_0000_0000 * b[4]
        + 0x100_0000_0000 * b[5] + 0x1_0000_0000_0000 * b[6] + 0x100_0000_0000_0000 * b[7]
}

/// Read a `u32` value from a byte slice starting at `offset`.
pub fn read_u32(buf: &[u8], offset: usize) -> (r: Result<u32, MmapError>)
    ensures
        r is Ok <==> offset + 4 <= buf@.len(),
        r is Ok ==> r->Ok_0 == le_u32(buf@.subrange(offset as int, offset + 4)),
        r is Err ==> crate::error::is_oob_err(r->Err_0, offset as int, buf@.len() as int),
{
    if offset >= buf.len() || buf.len() - offset < 4 {
        return Err(MmapError::out_of_bounds(offset, buf.len()));
    }
    let b0 = *vstd::slice::slice_index_get(buf, offset);
    let b1 = *vstd::slice::slice_index_get(buf, offset + 1);
    let b2 = *vstd::slice::slice_index_get(buf, offset + 2);
    let b3 = *vstd::slice::slice_index_get(buf, offset + 3);
    let v = b0 as u32 + 0x100 * (b1 as u32) + 0x1_0000 * (b2 as u32) + 0x100_0000 * (b3 as u32);
    Ok(v)
}

/// Read a `u64` value from a byte slice starting at `offset`. A stored
/// metric value is read this way: the eight bytes are the IEEE-754 bit
/// pattern of the value.
pub fn read_u64(buf: &[u8], offset: usize) -> (r: Result<u64, MmapError>)
    ensures
        r is Ok <==> offset + 8 <= buf@.len(),
        r is Ok ==> r->Ok_0 == le_u64(buf@.subrange(offset as int, offset + 8)),
        r is Err ==> crate::error::is_oob_err(r->Err_0, offset as int + 8, buf@.len() as int),
{
    if offset >= buf.len() || buf.len() - offset < 8 {
        // Reports the end of the requested range, where `read_u32` reports
        // its start.
        return Err(MmapError::out_of_bounds_wide(offset as u128 + 8, buf.len() as u128));
    }
    let mut v: u64 = 0;
    let b0 = *vstd::slice::slice_index_get(buf, offset);
    let b1 = *vstd::slice::slice_index_get(buf, offset + 1);
    let b2 = *vstd::slice::slice_index_get(buf, offset + 2);
    let b3 = *vstd::slice::slice_index_get(buf, offset + 3);
    let b4 = *vstd::slice::slice_index_get(buf, offset + 4);
    let b5 = *vstd::slice::slice_index_get(buf, offset + 5);
    let b6 = *vstd::slice::slice_index_get(buf, offset + 6);
    let b7 = *vstd::slice::slice_index_get(buf, offset + 7);
    v = b0 as u64 + 0x100 * (b1 as u64) + 0x1_0000 * (b2 as u64) + 0x100_0000 * (b3 as u64)
        + 0x1_0000_0000 * (b4 as u64) + 0x100_0000_0000 * (b5 as u64) + 0x1_0000_0000_0000 * (
    b6 as u64) + 0x100_0000_0000_0000 * (b7 as u64);
    Ok(v)
}

/// The four little-endian bytes of `x`.
pub open spec fn le32_bytes(x: int) -> Seq<u8> {
    seq![
        (x % 0x100) as u8,
        ((x / 0x100) % 0x100) as u8,
        ((x / 0x1_0000) % 0x100) as u8,
        ((x / 0x100_0000) % 0x100) as u8,
    ]
}

/// The eight little-endian bytes of `x`.
pub open spec fn le64_bytes(x: int) -> Seq<u8> {
    seq![
        (x % 0x100) as u8,
        ((x / 0x100) % 0x100) as u8,
        ((x / 0x1_0000) % 0x100) as u8,
        ((x / 0x100_0000) % 0x100) as u8,
        ((x / 0x1_0000_0000) % 0x100) as u8,
        ((x / 0x100_0000_0000) % 0x100) as u8,
        ((x / 0x1_0000_0000_0000) % 0x100) as u8,
        ((x / 0x100_0000_0000_0000) % 0x100) as u8,
    ]
}

/// Reading back the four little-endian bytes of a `u32` yields the value.
pub proof fn lemma_le32_round_trip(x: int)
    requires
        0 <= x <= u32::MAX,
    ensures
        le_u32(le32_bytes(x)) == x,
{
    vstd::arithmetic::div_mod::lemma_fundamental_div_mod(x, 0x100);
    vstd::arithmetic::div_mod::lemma_fundamental_div_mod(x / 0x100, 0x100);
    vstd::arithmetic::div_mod::lemma_fundamental_div_mod(x / 0x1_0000, 0x100);
    vstd::arithmetic::div_mod::lemma_div_denominator(x, 0x100, 0x100);
    vstd::arithmetic::div_mod::lemma_div_denominator(x, 0x1_0000, 0x100);
    vstd::arithmetic::div_mod::lemma_div_is_ordered(x, u32::MAX as int, 0x100_0000);
    vstd::arithmetic::div_mod::lemma_small_mod((x / 0x100_0000) as nat, 0x100);
    vstd::arithmetic::div_mod::lemma_div_pos_is_pos(x, 0x100_0000);
}

/// Reading back the eight little-endian bytes of a `u64` yields the value.
pub proof fn lemma_le64_round_trip(x: int)
    requires
        0 <= x <= u64::MAX,
    ensures
        le_u64(le64_bytes(x)) == x,
{
    vstd::arithmetic::div_mod::lemma_fundamental_div_mod(x, 0x100);
    vstd::arithmetic::div_mod::lemma_fundamental_div_mod(x / 0x100, 0x100);
    vstd::arithmetic::div_mod::lemma_fundamental_div_mod(x / 0x1_0000, 0x100);
    vstd::arithmetic::div_mod::lemma_fundamental_div_mod(x / 0x100_0000, 0x100);
    vstd::arithmetic::div_mod::lemma_fundamental_div_mod(x / 0x1_0000_0000, 0x100);
    vstd::arithmetic::div_mod::lemma_fundamental_div_mod(x / 0x100_0000_0000, 0x100);
    vstd::arithmetic::div_mod::lemma_fundamental_div_mod(x / 0x1_0000_0000_0000, 0x100);
    vstd::arithmetic::div_mod::lemma_div_denominator(x, 0x100, 0x100);
    vstd::arithmetic::div_mod::lemma_div_denominator(x, 0x1_0000, 0x100);
    vstd::arithmetic::div_mod::lemma_div_denominator(x, 0x100_0000, 0x100);
    vstd::arithmetic::div_mod::lemma_div_denominator(x, 0x1_0000_0000, 0x100);
    vstd::arithmetic::div_mod::lemma_div_denominator(x, 0x100_0000_0000, 0x100);
    vstd::arithmetic::div_mod::lemma_div_denominator(x, 0x1_0000_0000_0000, 0x100);
    vstd::arithmetic::div_mod::lemma_div_is_ordered(x, u64::MAX as int, 0x100_0000_0000_0000);
    vstd::arithmetic::div_mod::lemma_small_mod((x / 0x100_0000_0000_0000) as nat, 0x100);
    vstd::arithmetic::div_mod::lemma_div_pos_is_pos(x, 0x100_0000_0000_0000);
}

/// Writes `src` into `buf` at `pos`, leaving every other byte unchanged.
pub fn write_bytes(buf: &mut Vec<u8>, pos: usize, src: &[u8])
    requires
        pos + src@.len() <= old(buf)@.len(),
    ensures
        final(buf)@.len() == old(buf)@.len(),
        final(buf)@.subrange(pos as int, pos + src@.len()) == src@,
        forall|j: int|
            0 <= j < final(buf)@.len() && !(pos <= j < pos + src@.len()) ==> final(buf)@[j] == old(buf)@[j],
{
    let n = src.len();
    let buf_len = buf.len();
    let mut i: usize = 0;
    while i < n
        invariant
            n == src@.len(),
            0 <= i <= n,
            pos + n <= buf_len,
            buf@.len() == buf_len,
            buf@.len() == old(buf)@.len(),
            forall|j: int| 0 <= j < i ==> buf@[pos + j] == src@[j],
            forall|j: int|
                0 <= j < buf@.len() && !(pos <= j < pos + n) ==> buf@[j] == old(buf)@[j],
        decreases n - i,
    {
        buf[pos + i] = *vstd::slice::slice_index_get(src, i);
        i = i + 1;
    }
    assert(buf@.subrange(pos as int, pos + src@.len()) =~= src@);
}

/// Writes `count` copies of `byte` into `buf` at `pos`, leaving every other
/// byte unchanged.
pub fn write_fill(buf: &mut Vec<u8>, pos: usize, count: usize, byte: u8)
    requires
        pos + count <= old(buf)@.len(),
    ensures
        final(buf)@.len() == old(buf)@.len(),
        final(buf)@.subrange(pos as int, pos + count) == Seq::new(count as nat, |i: int| byte),
        forall|j: int| 0 <= j < final(buf)@.len() && !(pos <= j < pos + count) ==> final(buf)@[j] == old(buf)@[j],
{
    let buf_len = buf.len();
    let mut i: usize = 0;
    while i < count
        invariant
            0 <= i <= count,
            pos + count <= buf_len,
            buf@.len() == buf_len,
            buf@.len() == old(buf)@.len(),
            forall|j: int| pos <= j < pos + i ==> buf@[j] == byte,
            forall|j: int|
                0 <= j < buf@.len() && !(pos <= j < pos + count) ==> buf@[j] == old(buf)@[j],
        decreases count - i,
    {
        buf[pos + i] = byte;
        i = i + 1;
    }
    assert(buf@.subrange(pos as int, pos + count) =~= Seq::new(count as nat, |i: int| byte));
}

/// Writes the four little-endian bytes of `x` into `buf` at `pos`, leaving
/// every other byte unchanged.
pub fn write_u32_le(buf: &mut Vec<u8>, pos: usize, x: u32)
    requires
        pos + 4 <= old(buf)@.len(),
    ensures
        final(buf)@.len() == old(buf)@.len(),
        final(buf)@.subrange(pos as int, pos + 4) == le32_bytes(x as int),
        forall|j: int| 0 <= j < final(buf)@.len() && !(pos <= j < pos + 4) ==> final(buf)@[j] == old(buf)@[j],
{
    let buf_len = buf.len();
    buf[pos] = (x % 0x100) as u8;
    buf[pos + 1] = ((x / 0x100) % 0x100) as u8;
    buf[pos + 2] = ((x / 0x1_0000) % 0x100) as u8;
    buf[pos + 3] = ((x / 0x100_0000) % 0x100) as u8;
    assert(buf@.subrange(pos as int, pos + 4) =~= le32_bytes(x as int));
}

/// Writes the eight little-endian bytes of `x` into `buf` at `pos`, leaving
/// every other byte unchanged.
pub fn write_u64_le(buf: &mut Vec<u8>, pos: usize, x: u64)
    requires
        pos + 8 <= old(buf)@.len(),
    ensures
        final(buf)@.len() == old(buf)@.len(),
        final(buf)@.subrange(pos as int, pos + 8) == le64_bytes(x as int),
        forall|j: int| 0 <= j < final(buf)@.len() && !(pos <= j < pos + 8) ==> final(buf)@[j] == old(buf)@[j],
{
    let buf_len = buf.len();
    buf[pos] = (x % 0x100) as u8;
    buf[pos + 1] = ((x / 0x100) % 0x100) as u8;
    buf[pos + 2] = ((x / 0x1_0000) % 0x100) as u8;
    buf[pos + 3] = ((x / 0x100_0000) % 0x100) as u8;
    buf[pos + 4] = ((x / 0x1_0000_0000) % 0x100) as u8;
    buf[pos + 5] = ((x / 0x100_0000_0000) % 0x100) as u8;
    buf[pos + 6] = ((x / 0x1_0000_0000_0000) % 0x100) as u8;
    buf[pos + 7] = ((x / 0x100_0000_0000_0000) % 0x100) as u8;
    assert(buf@.subrange(pos as int, pos + 8) =~= le64_bytes(x as int));
}

/// Whether `e` is the overflow error for these operands, operation and
/// numeric type.
pub open spec fn is_overflow_err(
    e: MmapError,
    value: int,
    added: int,
    op: Seq<char>,
    ty: Seq<char>,
) -> bool {
    &&& e matches MmapError::Overflow { value: v, added: a, op: o, ty: t }
    &&& v@ == dec_str_signed(value)
    &&& a@ == dec_str_signed(added)
    &&& o@ == op
    &&& t@ == ty
}

/// Checked arithmetic that converts failure to [`MmapError::Overflow`].
pub trait CheckedOps: Sized {
    /// The mathematical value of `self`.
    spec fn as_int(&self) -> int;

    /// The smallest value of `Self`.
    spec fn min_int() -> int;

    /// The largest value of `Self`.
    spec fn max_int() -> int;

    /// The numeric type's name, carried in the overflow error.
    spec fn type_text() -> Seq<char>;

    fn add_chk(self, rhs: Self) -> (r: Result<Self, MmapError>)
        ensures
            r is Ok <==> Self::min_int() <= self.as_int() + rhs.as_int() <= Self::max_int(),
            r is Ok ==> r->Ok_0.as_int() == self.as_int() + rhs.as_int(),
            r is Err ==> is_overflow_err(
                r->Err_0,
                self.as_int(),
                rhs.as_int(),
                "adding"@,
                Self::type_text(),
            ),
    ;

    fn mul_chk(self, rhs: Self) -> (r: Result<Self, MmapError>)
        ensures
            r is Ok <==> Self::min_int() <= self.as_int() * rhs.as_int() <= Self::max_int(),
            r is Ok ==> r->Ok_0.as_int() == self.as_int() * rhs.as_int(),
            r is Err ==> is_overflow_err(
                r->Err_0,
                self.as_int(),
                rhs.as_int(),
                "multiplying"@,
                Self::type_text(),
            ),
    ;
}

impl CheckedOps for usize {
    open spec fn as_int(&self) -> int {
        *self as int
    }

    open spec fn min_int() -> int {
        0
    }

    open spec fn max_int() -> int {
        usize::MAX as int
    }

    open spec fn type_text() -> Seq<char> {
        "usize"@
    }

    fn add_chk(self, rhs: Self) -> (r: Result<Self, MmapError>) {
        match self.checked_add(rhs) {
            Some(v) => Ok(v),
            None => Err(MmapError::overflowed(self as i128, rhs as i128, "adding", "usize")),
        }
    }

    fn mul_chk(self, rhs: Self) -> (r: Result<Self, MmapError>) {
        match self.checked_mul(rhs) {
            Some(v) => Ok(v),
            None => Err(
                MmapError::overflowed(self as i128, rhs as i128, "multiplying", "usize"),
            ),
        }
    }
}

impl CheckedOps for i64 {
    open spec fn as_int(&self) -> int {
        *self as int
    }

    open spec fn min_int() -> int {
        i64::MIN as int
    }

    open spec fn max_int() -> int {
        i64::MAX as int
    }

    open spec fn type_text() -> Seq<char> {
        "i64"@
    }

    fn add_chk(self, rhs: Self) -> (r: Result<Self, MmapError>) {
        match self.checked_add(rhs) {
            Some(v) => Ok(v),
            None => Err(MmapError::overflowed(self as i128, rhs as i128, "adding", "i64")),
        }
    }

    fn mul_chk(self, rhs: Self) -> (r: Result<Self, MmapError>) {
        match self.checked_mul(rhs) {
            Some(v) => Ok(v),
            None => Err(MmapError::overflowed(self as i128, rhs as i128, "multiplying", "i64")),
        }
    }
}

/// A checked narrowing of a `usize`, returning [`MmapError::FailedCast`]
/// when the value does not fit in a `u32`.
pub fn cast_chk(val: usize, name: &str) -> (r: Result<u32, MmapError>)
    ensures
        r is Ok <==> val <= u32::MAX,
        r is Ok ==> r->Ok_0 == val,
        r is Err ==> ({
            &&& r->Err_0 matches MmapError::FailedCast { from: f, to: t, value: v, object_name: n }
            &&& f@ == "usize"@
            &&& t@ == "u32"@
            &&& v@ == dec_str(val as int)
            &&& n@ == name@
        }),
{
    if val <= u32::MAX as usize {
        Ok(val as u32)
    } else {
        Err(MmapError::failed_cast("usize", "u32", val as u64, name))
    }
}

/// Whether two byte slices hold the same bytes.
pub fn slices_eq(a: &[u8], b: &[u8]) -> (r: bool)
    ensures
        r == (a@ == b@),
{
    if a.len() != b.len() {
        return false;
    }
    let n = a.len();
    let mut i: usize = 0;
    while i < n
        invariant
            0 <= i <= n,
            n == a@.len() == b@.len(),
            forall|j: int| 0 <= j < i ==> a@[j] == b@[j],
        decreases n - i,
    {
        if *vstd::slice::slice_index_get(a, i) != *vstd::slice::slice_index_get(b, i) {
            return false;
        }
        i = i + 1;
    }
    proof {
        assert(a@ =~= b@);
    }
    true
}

/// Whether `bytes` form a valid UTF-8 encoding. Checked byte by byte
/// against the same classification the specification uses: a leading byte,
/// its continuation bytes, no overlong encoding, no surrogate.
pub fn validate_utf8(bytes: &[u8]) -> (r: bool)
    ensures
        r == vstd::utf8::valid_utf8(bytes@),
{
    let n = bytes.len();
    proof {
        assert(bytes@.skip(0) =~= bytes@);
    }
    let mut i: usize = 0;
    while i < n
        invariant
            0 <= i <= n,
            n == bytes@.len(),
            vstd::utf8::valid_utf8(bytes@) == vstd::utf8::valid_utf8(bytes@.skip(i as int)),
        decreases n - i,
    {
        let ghost rest = bytes@.skip(i as int);
        let b0 = *vstd::slice::slice_index_get(bytes, i);
        let width: usize;
        let cp: u32;
        if b0 <= 0x7f {
            width = 1;
            cp = (b0 & 0x7f) as u32;
        } else if 0xc0 <= b0 && b0 <= 0xdf {
            if n - i < 2 {
                return false;
            }
            let b1 = *vstd::slice::slice_index_get(bytes, i + 1);
            if !(0x80 <= b1 && b1 <= 0xbf) {
                return false;
            }
            width = 2;
            cp = ((((b0 & 0x1f) as u32) << 6) | ((b1 & 0x3f) as u32)) as u32;
            proof {
                assert(cp == vstd::utf8::codepoint_width_2(rest[0], rest[1]));
            }
        } else if 0xe0 <= b0 && b0 <= 0xef {
            if n - i < 3 {
                return false;
            }
            let b1 = *vstd::slice::slice_index_get(bytes, i + 1);
            let b2 = *vstd::slice::slice_index_get(bytes, i + 2);
            if !(0x80 <= b1 && b1 <= 0xbf) || !(0x80 <= b2 && b2 <= 0xbf) {
                return false;
            }
            width = 3;
            cp = ((((b0 & 0x0f) as u32) << 12) | (((b1 & 0x3f) as u32) << 6) | ((b2
                & 0x3f) as u32)) as u32;
            proof {
                assert(cp == vstd::utf8::codepoint_width_3(rest[0], rest[1], rest[2]));
            }
        } else if 0xf0 <= b0 && b0 <= 0xf7 {
            if n - i < 4 {
                return false;
            }
            let b1 = *vstd::slice::slice_index_get(bytes, i + 1);
            let b2 = *vstd::slice::slice_index_get(bytes, i + 2);
            let b3 = *vstd::slice::slice_index_get(bytes, i + 3);
            if !(0x80 <= b1 && b1 <= 0xbf) || !(0x80 <= b2 && b2 <= 0xbf) || !(0x80 <= b3 && b3
                <= 0xbf) {
                return false;
            }
            width = 4;
            cp = ((((b0 & 0x07) as u32) << 18) | (((b1 & 0x3f) as u32) << 12) | (((b2
                & 0x3f) as u32) << 6) | ((b3 & 0x3f) as u32)) as u32;
            proof {
                assert(cp == vstd::utf8::codepoint_width_4(rest[0], rest[1], rest[2], rest[3]));
            }
        } else {
            return false;
        }

        let overlong_ok = if width == 2 {
            cp >= 0x80
        } else if width == 3 {
            cp >= 0x800
        } else if width == 4 {
            0x10000 <= cp && cp <= 0x10ffff
        } else {
            true
        };
        if !overlong_ok || (0xd800 <= cp && cp <= 0xdfff) {
            return false;
        }

        proof {
            assert(vstd::utf8::valid_first_scalar(rest));
            assert(vstd::utf8::length_of_first_scalar(rest) == width);
            assert(vstd::utf8::pop_first_scalar(rest) =~= bytes@.skip(i + width));
        }
        i = i + width;
    }
    proof {
        assert(bytes@.skip(n as int) =~= Seq::<u8>::empty());
    }
    true
}

/// Retrieve errno(3).
///
/// Relies on `std::io::Error::last_os_error` / `raw_os_error` to read the
/// calling thread's errno value; nothing can be promised of the result.
#[verifier::external_body]
pub fn errno() -> i32 {
    std::io::Error::last_os_error().raw_os_error().unwrap_or(0)
}

/// The description that `strerror` returns for an errno value.
pub uninterp spec fn errno_text(errno: i32) -> Seq<char>;

/// Get the error string associated with errno(3).
///
/// Relies on nix's `Errno::from_raw` and `Errno::desc`: `desc` maps each
/// errno value to a fixed English description, a function of the value
/// alone.
#[verifier::external_body]
pub fn strerror(errno: i32) -> (r: &'static str)
    ensures
        r@ == errno_text(errno),
{
    nix::errno::Errno::from_raw(errno).desc()
}

} // verus!
