//! VarInt and VarLong: signed 32- and 64-bit integers in little-endian
//! base 128, seven bits to a byte, the top bit of each byte saying that
//! another byte follows. A negative number is written as its two's-complement
//! bit pattern, so a VarInt takes one to five bytes and a VarLong one to ten.

use crate::packets::serialization::serializer_error::SerializingErr;
use core::str::FromStr;
use vstd::prelude::*;
use vstd::string::StringSliceAdditionalSpecFns;
use vstd::utf8::{decode_utf8, valid_utf8};

verus! {

/// The most bytes that a VarInt takes.
pub const MAX_VARINT_BYTES: usize = 5;

/// The most bytes that a VarLong takes.
pub const MAX_VARLONG_BYTES: usize = 10;

/// 128 to the power `k`.
pub open spec fn pow128(k: nat) -> nat
    decreases k,
{
    if k == 0 {
        1
    } else {
        128 * pow128((k - 1) as nat)
    }
}

/// The base-128 digits of `v`, least significant first, each but the last
/// with the continuation bit set.
pub open spec fn spec_var_bytes(v: nat) -> Seq<u8>
    decreases v,
{
    if v < 128 {
        seq![v as u8]
    } else {
        seq![(v % 128 + 128) as u8] + spec_var_bytes(v / 128)
    }
}

/// What reading one number from the front of `bytes` gives when at most `max`
/// bytes may belong to it: the number and its byte count, `VarIntOverflow`
/// when `max` bytes all ask for another, or `InputEnded` when the bytes stop
/// before a byte without the continuation bit.
pub open spec fn spec_read_var(bytes: Seq<u8>, max: nat) -> Result<(nat, nat), SerializingErr>
    decreases max,
{
    if max == 0 {
        Err(SerializingErr::VarIntOverflow)
    } else if bytes.len() == 0 {
        Err(SerializingErr::InputEnded)
    } else if bytes[0] < 128 {
        Ok((bytes[0] as nat, 1))
    } else {
        match spec_read_var(bytes.skip(1), (max - 1) as nat) {
            Ok((value, len)) => Ok(((bytes[0] - 128) as nat + 128 * value, len + 1)),
            Err(e) => Err(e),
        }
    }
}

/// The bit pattern of `n` as an unsigned 32-bit number.
pub open spec fn unsigned_32(n: i32) -> nat {
    if n < 0 {
        (n + 0x1_0000_0000) as nat
    } else {
        n as nat
    }
}

/// The bit pattern of `n` as an unsigned 64-bit number.
pub open spec fn unsigned_64(n: i64) -> nat {
    if n < 0 {
        (n + 0x1_0000_0000_0000_0000) as nat
    } else {
        n as nat
    }
}

/// The low 32 bits of `v`, read as a signed number.
pub open spec fn signed_32(v: nat) -> i32 {
    let low = v % 0x1_0000_0000;
    if low >= 0x8000_0000 {
        (low - 0x1_0000_0000) as i32
    } else {
        low as i32
    }
}

/// The low 64 bits of `v`, read as a signed number.
pub open spec fn signed_64(v: nat) -> i64 {
    let low = v % 0x1_0000_0000_0000_0000;
    if low >= 0x8000_0000_0000_0000 {
        (low - 0x1_0000_0000_0000_0000) as i64
    } else {
        low as i64
    }
}

/// `pow128` at the two byte counts that the protocol uses, and in between.
pub proof fn lemma_pow128_values()
    ensures
        pow128(0) == 1,
        pow128(1) == 0x80,
        pow128(2) == 0x4000,
        pow128(3) == 0x20_0000,
        pow128(4) == 0x1000_0000,
        pow128(5) == 0x8_0000_0000,
        pow128(9) == 0x8000_0000_0000_0000,
        pow128(10) == 0x40_0000_0000_0000_0000,
{
    reveal_with_fuel(pow128, 11);
}

/// `pow128` grows with its argument.
pub proof fn lemma_pow128_monotonic(a: nat, b: nat)
    requires
        a <= b,
    ensures
        0 < pow128(a) <= pow128(b),
    decreases b,
{
    if b == 0 {
    } else if a == b {
        lemma_pow128_monotonic(0, (b - 1) as nat);
    } else {
        lemma_pow128_monotonic(a, (b - 1) as nat);
    }
}

/// A number below `128^k` takes at most `k` bytes, and every number takes at
/// least one.
pub proof fn lemma_var_bytes_len(v: nat, k: nat)
    requires
        k >= 1,
        v < pow128(k),
    ensures
        1 <= spec_var_bytes(v).len() <= k,
    decreases v,
{
    if v >= 128 {
        if k == 1 {
            reveal_with_fuel(pow128, 2);
        } else {
            lemma_var_bytes_len(v / 128, (k - 1) as nat);
        }
    }
}

/// Every byte of an encoding but the last has the continuation bit, and the
/// last has not.
pub proof fn lemma_var_bytes_shape(v: nat)
    ensures
        spec_var_bytes(v).len() >= 1,
        spec_var_bytes(v).last() < 128,
        forall|i: int| 0 <= i < spec_var_bytes(v).len() - 1 ==> spec_var_bytes(v)[i] >= 128,
    decreases v,
{
    if v >= 128 {
        lemma_var_bytes_shape(v / 128);
        let tail = spec_var_bytes(v / 128);
        let all = spec_var_bytes(v);
        assert(all =~= seq![(v % 128 + 128) as u8] + tail);
        assert forall|i: int| 0 <= i < all.len() - 1 implies all[i] >= 128 by {
            if i > 0 {
                assert(all[i] == tail[i - 1]);
            }
        }
        assert(all.last() == tail.last());
    }
}

/// Reading what was written gives the number back, whatever follows it.
pub proof fn lemma_var_round_trip(v: nat, rest: Seq<u8>, max: nat)
    requires
        spec_var_bytes(v).len() <= max,
    ensures
        spec_read_var(spec_var_bytes(v) + rest, max) == Ok::<(nat, nat), SerializingErr>(
            (v, spec_var_bytes(v).len()),
        ),
    decreases v,
{
    let bytes = spec_var_bytes(v) + rest;
    if v < 128 {
        assert(bytes[0] == v as u8);
    } else {
        let tail = spec_var_bytes(v / 128);
        assert(bytes[0] == (v % 128 + 128) as u8);
        assert(bytes.skip(1) =~= tail + rest);
        lemma_var_round_trip(v / 128, rest, (max - 1) as nat);
    }
}

/// Bytes with the continuation bit at the front of the input pass an error
/// of what follows them on unchanged.
pub proof fn lemma_read_var_after_continuations(bytes: Seq<u8>, max: nat, k: nat)
    requires
        k <= max,
        k <= bytes.len(),
        forall|j: int| 0 <= j < k ==> bytes[j] >= 128,
    ensures
        spec_read_var(bytes.skip(k as int), (max - k) as nat) is Err ==> spec_read_var(bytes, max)
            == spec_read_var(bytes.skip(k as int), (max - k) as nat),
    decreases k,
{
    if k > 0 {
        assert(bytes.skip(1).skip(k - 1) =~= bytes.skip(k as int));
        lemma_read_var_after_continuations(bytes.skip(1), (max - 1) as nat, (k - 1) as nat);
    } else {
        assert(bytes.skip(0) =~= bytes);
    }
}

/// A number that was read is below `128^len`, and its length is within `max`
/// and within the input.
pub proof fn lemma_read_var_bounds(bytes: Seq<u8>, max: nat)
    ensures
        spec_read_var(bytes, max) matches Ok((value, len)) ==> 1 <= len <= max && len
            <= bytes.len() && value < pow128(len),
    decreases max,
{
    if max > 0 && bytes.len() > 0 && bytes[0] >= 128 {
        lemma_read_var_bounds(bytes.skip(1), (max - 1) as nat);
        reveal_with_fuel(pow128, 2);
    } else {
        reveal_with_fuel(pow128, 2);
    }
}

/// A number of at most ten bytes is below `2^70`.
pub proof fn lemma_read_var_fits(bytes: Seq<u8>, max: nat)
    requires
        max <= MAX_VARLONG_BYTES,
    ensures
        spec_read_var(bytes, max) matches Ok((value, len)) ==> value < 0x40_0000_0000_0000_0000,
{
    lemma_read_var_bounds(bytes, max);
    lemma_pow128_values();
    if spec_read_var(bytes, max) is Ok {
        lemma_pow128_monotonic(spec_read_var(bytes, max)->Ok_0.1, 10);
    }
}

/// Only the bytes of the number itself decide what is read.
pub proof fn lemma_read_var_prefix(bytes: Seq<u8>, other: Seq<u8>, max: nat)
    requires
        spec_read_var(bytes, max) matches Ok((_, len)) && len <= other.len() && bytes.take(
            len as int,
        ) == other.take(len as int),
    ensures
        spec_read_var(other, max) == spec_read_var(bytes, max),
    decreases max,
{
    lemma_read_var_bounds(bytes, max);
    let len = spec_read_var(bytes, max)->Ok_0.1;
    assert(bytes[0] == bytes.take(len as int)[0]);
    assert(other[0] == other.take(len as int)[0]);
    if bytes[0] >= 128 {
        lemma_read_var_bounds(bytes.skip(1), (max - 1) as nat);
        assert(bytes.skip(1).take(len - 1) =~= bytes.take(len as int).skip(1));
        assert(other.skip(1).take(len - 1) =~= other.take(len as int).skip(1));
        lemma_read_var_prefix(bytes.skip(1), other.skip(1), (max - 1) as nat);
    }
}

/// A number that is cut off before its last byte is a number whose input
/// ended.
pub proof fn lemma_read_var_cut(bytes: Seq<u8>, max: nat, k: int)
    requires
        spec_read_var(bytes, max) matches Ok((_, len)) && 0 <= k < len,
    ensures
        spec_read_var(bytes.take(k), max) == Err::<(nat, nat), SerializingErr>(
            SerializingErr::InputEnded,
        ),
    decreases max,
{
    lemma_read_var_bounds(bytes, max);
    if k > 0 {
        assert(bytes.take(k)[0] == bytes[0]);
        if bytes[0] >= 128 {
            lemma_read_var_bounds(bytes.skip(1), (max - 1) as nat);
            assert(bytes.take(k).skip(1) =~= bytes.skip(1).take(k - 1));
            lemma_read_var_cut(bytes.skip(1), (max - 1) as nat, k - 1);
        }
    }
}

/// Whether the number at the front of `bytes` is written in the one way
/// that the writer has: in the fewest bytes, and, where it takes all of
/// `max` bytes, with a last byte below `top`, so that no bits are dropped.
pub open spec fn spec_canonical_var(bytes: Seq<u8>, max: nat, top: nat) -> bool {
    match spec_read_var(bytes, max) {
        Ok((_, len)) => (len == 1 || bytes[len - 1] != 0) && (len == max ==> bytes[len - 1] < top),
        Err(_) => false,
    }
}

/// The lowest base-128 digit of a number and what is above it.
pub proof fn lemma_low_digit(digit: int, above: int)
    requires
        0 <= digit < 128,
        0 <= above,
    ensures
        (digit + 128 * above) % 128 == digit,
        (digit + 128 * above) / 128 == above,
{
}

/// A number in the fewest bytes is one that the writer writes as it was
/// read.
pub proof fn lemma_var_fewest_bytes(bytes: Seq<u8>, max: nat)
    requires
        spec_read_var(bytes, max) matches Ok((_, len)) && (len == 1 || bytes[len - 1] != 0),
    ensures
        spec_read_var(bytes, max) matches Ok((value, len)) && spec_var_bytes(value) == bytes.take(
            len as int,
        ) && (len > 1 ==> value >= 128) && (len == 1 ==> value == bytes[0]),
    decreases max,
{
    lemma_read_var_bounds(bytes, max);
    let value = spec_read_var(bytes, max)->Ok_0.0;
    let len = spec_read_var(bytes, max)->Ok_0.1;
    if bytes[0] < 128 {
        assert(spec_var_bytes(value) == bytes.take(1)) by {
            assert(spec_var_bytes(value) =~= bytes.take(1));
        }
    } else {
        let rest = bytes.skip(1);
        lemma_read_var_bounds(rest, (max - 1) as nat);
        let inner = spec_read_var(rest, (max - 1) as nat)->Ok_0.0;
        let inner_len = spec_read_var(rest, (max - 1) as nat)->Ok_0.1;
        assert(len == inner_len + 1);
        assert(rest[inner_len - 1] == bytes[len - 1]);
        lemma_var_fewest_bytes(rest, (max - 1) as nat);
        assert(inner >= 1);
        let digit: int = bytes[0] - 128;
        assert(value == digit + 128 * inner);
        lemma_low_digit(digit, inner as int);
        assert(value >= 128);
        assert((value % 128 + 128) as u8 == bytes[0]);
        assert(spec_var_bytes(value) == seq![bytes[0]] + spec_var_bytes(inner));
        assert(seq![bytes[0]] + rest.take(inner_len as int) == bytes.take(len as int)) by {
            assert(seq![bytes[0]] + rest.take(inner_len as int) =~= bytes.take(len as int));
        }
    }
}

/// A number is below its last byte's successor times `128` to the power of
/// the bytes before it.
pub proof fn lemma_read_var_top(bytes: Seq<u8>, max: nat)
    requires
        spec_read_var(bytes, max) is Ok,
    ensures
        spec_read_var(bytes, max) matches Ok((value, len)) && len >= 1 && value < pow128(
            (len - 1) as nat,
        ) * (bytes[len - 1] + 1),
    decreases max,
{
    lemma_read_var_bounds(bytes, max);
    let value = spec_read_var(bytes, max)->Ok_0.0;
    let len = spec_read_var(bytes, max)->Ok_0.1;
    if bytes[0] < 128 {
        assert(pow128(0) == 1);
        assert(value == bytes[0]);
        assert(pow128(0) * (bytes[0] + 1) == bytes[0] + 1) by (nonlinear_arith)
            requires
                pow128(0) == 1,
        ;
    } else {
        let rest = bytes.skip(1);
        lemma_read_var_bounds(rest, (max - 1) as nat);
        lemma_read_var_top(rest, (max - 1) as nat);
        let inner: int = spec_read_var(rest, (max - 1) as nat)->Ok_0.0 as int;
        let last: int = bytes[len - 1] + 1;
        let below: int = pow128((len - 2) as nat) as int;
        let above: int = pow128((len - 1) as nat) as int;
        assert(rest[len - 2] == bytes[len - 1]);
        assert(inner < below * last);
        assert(above == 128 * below);
        assert(value == (bytes[0] - 128) + 128 * inner);
        assert(value < above * last) by (nonlinear_arith)
            requires
                inner < below * last,
                above == 128 * below,
                value <= 127 + 128 * inner,
        ;
    }
}

/// A VarInt in the fewest bytes that drops no bits is written as it was
/// read.
pub proof fn lemma_varint_canonical(bytes: Seq<u8>)
    requires
        spec_canonical_var(bytes, MAX_VARINT_BYTES as nat, 16),
    ensures
        VarInt::spec_read(bytes) matches Ok((number, len)) && number.spec_bytes() == bytes.take(
            len as int,
        ),
{
    lemma_read_var_bounds(bytes, 5);
    lemma_var_fewest_bytes(bytes, 5);
    lemma_read_var_top(bytes, 5);
    lemma_pow128_values();
    let value = spec_read_var(bytes, 5)->Ok_0.0;
    let len = spec_read_var(bytes, 5)->Ok_0.1;
    if len < 5 {
        lemma_pow128_monotonic(len, 4);
    } else {
        assert(value < 0x1000_0000 * (bytes[4] + 1));
    }
    assert(value < 0x1_0000_0000);
    assert(unsigned_32(signed_32(value)) == value);
}

/// A VarLong in the fewest bytes that drops no bits is written as it was
/// read.
pub proof fn lemma_varlong_canonical(bytes: Seq<u8>)
    requires
        spec_canonical_var(bytes, MAX_VARLONG_BYTES as nat, 2),
    ensures
        VarLong::spec_read(bytes) matches Ok((number, len)) && number.spec_bytes() == bytes.take(
            len as int,
        ),
{
    lemma_read_var_bounds(bytes, 10);
    lemma_var_fewest_bytes(bytes, 10);
    lemma_read_var_top(bytes, 10);
    lemma_pow128_values();
    let value = spec_read_var(bytes, 10)->Ok_0.0;
    let len = spec_read_var(bytes, 10)->Ok_0.1;
    if len < 10 {
        lemma_pow128_monotonic(len, 9);
    } else {
        assert(value < 0x8000_0000_0000_0000 * (bytes[9] + 1));
    }
    assert(value < 0x1_0000_0000_0000_0000);
    assert(unsigned_64(signed_64(value)) == value);
}

/// Reads one variable-length number of at most `max` bytes that starts at
/// `data[start]`, and says how many bytes it took.
pub fn read_var(data: &[u8], start: usize, max: usize) -> (r: Result<(u128, usize), SerializingErr>)
    requires
        start <= data.len(),
        max <= MAX_VARLONG_BYTES,
    ensures
        match spec_read_var(data@.skip(start as int), max as nat) {
            Ok((value, len)) => r == Ok::<(u128, usize), SerializingErr>(
                (value as u128, len as usize),
            ) && value < pow128(len) && 1 <= len <= max && start + len <= data.len(),
            Err(e) => r == Err::<(u128, usize), SerializingErr>(e),
        },
{
    let ghost input = data@.skip(start as int);
    let mut last: usize = 0;
    loop
        invariant_except_break
            last <= max,
            start + last <= data.len(),
            forall|j: int| 0 <= j < last ==> input[j] >= 128,
        invariant
            start <= data.len(),
            max <= MAX_VARLONG_BYTES,
            input == data@.skip(start as int),
        ensures
            last < max,
            start + last < data.len(),
            input[last as int] < 128,
            forall|j: int| 0 <= j < last ==> input[j] >= 128,
        decreases max - last,
    {
        if last == max {
            proof {
                lemma_read_var_after_continuations(input, max as nat, last as nat);
            }
            return Err(SerializingErr::VarIntOverflow);
        }
        if start + last == data.len() {
            proof {
                lemma_read_var_after_continuations(input, max as nat, last as nat);
            }
            return Err(SerializingErr::InputEnded);
        }
        if data[start + last] < 128 {
            break ;
        }
        last = last + 1;
    }
    let mut value: u128 = data[start + last] as u128;
    let mut at: usize = last;
    proof {
        lemma_pow128_values();
    }
    while at > 0
        invariant
            input == data@.skip(start as int),
            at <= last < max <= MAX_VARLONG_BYTES,
            start + last < data.len(),
            forall|j: int| 0 <= j < last ==> input[j] >= 128,
            spec_read_var(input.skip(at as int), (max - at) as nat) == Ok::<
                (nat, nat),
                SerializingErr,
            >((value as nat, (last - at + 1) as nat)),
            value < pow128((last - at + 1) as nat),
        decreases at,
    {
        proof {
            lemma_pow128_monotonic((last - at + 2) as nat, 10);
            lemma_pow128_values();
            assert(input.skip(at - 1).skip(1) =~= input.skip(at as int));
        }
        at = at - 1;
        value = value * 128 + (data[start + at] - 128) as u128;
    }
    proof {
        assert(input.skip(0) =~= input);
    }
    Ok((value, last + 1))
}

/// Appends the encoding of `value` to `out`.
pub fn write_var(value: u64, out: &mut Vec<u8>)
    ensures
        final(out)@ == old(out)@ + spec_var_bytes(value as nat),
{
    let mut rest: u64 = value;
    while rest >= 128
        invariant
            out@ + spec_var_bytes(rest as nat) == old(out)@ + spec_var_bytes(value as nat),
        decreases rest,
    {
        let ghost before = out@;
        out.push((rest % 128) as u8 + 128);
        proof {
            assert(out@ + spec_var_bytes((rest / 128) as nat) =~= before + spec_var_bytes(
                rest as nat,
            ));
        }
        rest = rest / 128;
    }
    let ghost before = out@;
    out.push(rest as u8);
    proof {
        assert(out@ =~= before + spec_var_bytes(rest as nat));
    }
}

/// The low 32 bits of `value` as a signed number.
pub fn to_signed_32(value: u128) -> (n: i32)
    ensures
        n == signed_32(value as nat),
{
    let low: u128 = value % 0x1_0000_0000;
    if low >= 0x8000_0000 {
        ((low - 0x8000_0000) as i64 - 0x8000_0000) as i32
    } else {
        low as i32
    }
}

/// The low 64 bits of `value` as a signed number.
pub fn to_signed_64(value: u128) -> (n: i64)
    ensures
        n == signed_64(value as nat),
{
    let low: u128 = value % 0x1_0000_0000_0000_0000;
    if low >= 0x8000_0000_0000_0000 {
        ((low - 0x8000_0000_0000_0000) as i128 - 0x8000_0000_0000_0000) as i64
    } else {
        low as i64
    }
}

/// The bit pattern of `n` as an unsigned number.
pub fn to_unsigned_32(n: i32) -> (v: u64)
    ensures
        v == unsigned_32(n),
{
    if n < 0 {
        (n as i64 + 0x1_0000_0000) as u64
    } else {
        n as u64
    }
}

/// The bit pattern of `n` as an unsigned number.
pub fn to_unsigned_64(n: i64) -> (v: u64)
    ensures
        v == unsigned_64(n),
{
    if n < 0 {
        (n as i128 + 0x1_0000_0000_0000_0000) as u64
    } else {
        n as u64
    }
}

/// A signed 32-bit integer that takes one to five bytes on the wire.
#[derive(Debug, Clone, Copy, PartialEq, Eq, PartialOrd, Ord, Hash, Structural)]
pub struct VarInt(pub i32);

impl View for VarInt {
    type V = i32;

    open spec fn view(&self) -> i32 {
        self.0
    }
}

impl VarInt {
    /// The bytes that stand for this number.
    pub open spec fn spec_bytes(self) -> Seq<u8> {
        spec_var_bytes(unsigned_32(self.0))
    }

    /// The number at the front of `bytes` and its byte count. Bits of the
    /// fifth byte that do not fit in 32 bits are dropped.
    pub open spec fn spec_read(bytes: Seq<u8>) -> Result<(VarInt, nat), SerializingErr> {
        match spec_read_var(bytes, MAX_VARINT_BYTES as nat) {
            Ok((value, len)) => Ok((VarInt(signed_32(value)), len)),
            Err(e) => Err(e),
        }
    }

    /// What a slice that is meant to hold one VarInt stands for: more than
    /// five bytes are refused outright, and of fewer only the first number
    /// counts.
    pub open spec fn spec_from_slice(bytes: Seq<u8>) -> Result<VarInt, SerializingErr> {
        if bytes.len() > MAX_VARINT_BYTES {
            Err(SerializingErr::VarIntOverflow)
        } else {
            match Self::spec_read(bytes) {
                Ok((number, _)) => Ok(number),
                Err(e) => Err(e),
            }
        }
    }

    /// Reads the VarInt that starts at `data[start]`. A start behind the end of
    /// the data is a start at its end.
    pub fn read_at(data: &[u8], start: usize) -> (r: Result<(VarInt, usize), SerializingErr>)
        ensures
            start <= data@.len() ==> match Self::spec_read(data@.skip(start as int)) {
                Ok((number, len)) => r == Ok::<(VarInt, usize), SerializingErr>(
                    (number, len as usize),
                ) && 1 <= len <= MAX_VARINT_BYTES && start + len <= data.len(),
                Err(e) => r == Err::<(VarInt, usize), SerializingErr>(e),
            },
            start > data@.len() ==> r == Err::<(VarInt, usize), SerializingErr>(
                SerializingErr::InputEnded,
            ),
    {
        if start > data.len() {
            return Err(SerializingErr::InputEnded);
        }
        proof {
            lemma_read_var_fits(data@.skip(start as int), MAX_VARINT_BYTES as nat);
        }
        match read_var(data, start, MAX_VARINT_BYTES) {
            Ok((value, len)) => Ok((VarInt(to_signed_32(value)), len)),
            Err(e) => Err(e),
        }
    }

    /// Decodes a slice that holds one VarInt.
    pub fn from_slice(bytes: &[u8]) -> (r: Result<Self, SerializingErr>)
        ensures
            r == Self::spec_from_slice(bytes@),
    {
        if bytes.len() > MAX_VARINT_BYTES {
            return Err(SerializingErr::VarIntOverflow);
        }
        proof {
            assert(bytes@.skip(0) =~= bytes@);
        }
        match Self::read_at(bytes, 0) {
            Ok((number, _)) => Ok(number),
            Err(e) => Err(e),
        }
    }

    /// Decodes a vector that holds one VarInt.
    pub fn new_from_bytes(bytes: Vec<u8>) -> (r: Result<Self, SerializingErr>)
        ensures
            r == Self::spec_from_slice(bytes@),
    {
        VarInt::from_slice(bytes.as_slice())
    }

    /// Encodes this number.
    pub fn to_bytes(&self) -> (out: Vec<u8>)
        ensures
            out@ == self.spec_bytes(),
            1 <= out@.len() <= MAX_VARINT_BYTES,
    {
        let mut out: Vec<u8> = Vec::new();
        write_var(to_unsigned_32(self.0), &mut out);
        proof {
            lemma_varint_len(*self);
            assert(out@ =~= self.spec_bytes());
        }
        out
    }

    /// Encodes `i`.
    pub fn bytes(i: i32) -> (out: Vec<u8>)
        ensures
            out@ == VarInt(i).spec_bytes(),
            1 <= out@.len() <= MAX_VARINT_BYTES,
    {
        let var = VarInt(i);
        var.to_bytes()
    }
}

/// A signed 64-bit integer that takes one to ten bytes on the wire.
#[derive(Debug, Clone, Copy, PartialEq, Eq, PartialOrd, Ord, Hash, Structural)]
pub struct VarLong(pub i64);

impl View for VarLong {
    type V = i64;

    open spec fn view(&self) -> i64 {
        self.0
    }
}

/// `Vec::into_boxed_slice` of std: the box holds the vector's elements in
/// their order.
#[verifier::external_body]
fn into_boxed_slice(bytes: Vec<u8>) -> (boxed: Box<[u8]>)
    ensures
        boxed@ == bytes@,
{
    bytes.into_boxed_slice()
}

impl VarLong {
    /// The bytes that stand for this number.
    pub open spec fn spec_bytes(self) -> Seq<u8> {
        spec_var_bytes(unsigned_64(self.0))
    }

    /// The number at the front of `bytes` and its byte count. Bits of the
    /// tenth byte that do not fit in 64 bits are dropped.
    pub open spec fn spec_read(bytes: Seq<u8>) -> Result<(VarLong, nat), SerializingErr> {
        match spec_read_var(bytes, MAX_VARLONG_BYTES as nat) {
            Ok((value, len)) => Ok((VarLong(signed_64(value)), len)),
            Err(e) => Err(e),
        }
    }

    /// What a slice that is meant to hold one VarLong stands for: more than
    /// ten bytes are refused outright, and of fewer only the first number
    /// counts.
    pub open spec fn spec_from_slice(bytes: Seq<u8>) -> Result<VarLong, SerializingErr> {
        if bytes.len() > MAX_VARLONG_BYTES {
            Err(SerializingErr::VarIntOverflow)
        } else {
            match Self::spec_read(bytes) {
                Ok((number, _)) => Ok(number),
                Err(e) => Err(e),
            }
        }
    }

    /// Reads the VarLong that starts at `data[start]`. A start behind the end of
    /// the data is a start at its end.
    pub fn read_at(data: &[u8], start: usize) -> (r: Result<(VarLong, usize), SerializingErr>)
        ensures
            start <= data@.len() ==> match Self::spec_read(data@.skip(start as int)) {
                Ok((number, len)) => r == Ok::<(VarLong, usize), SerializingErr>(
                    (number, len as usize),
                ) && 1 <= len <= MAX_VARLONG_BYTES && start + len <= data.len(),
                Err(e) => r == Err::<(VarLong, usize), SerializingErr>(e),
            },
            start > data@.len() ==> r == Err::<(VarLong, usize), SerializingErr>(
                SerializingErr::InputEnded,
            ),
    {
        if start > data.len() {
            return Err(SerializingErr::InputEnded);
        }
        proof {
            lemma_read_var_fits(data@.skip(start as int), MAX_VARLONG_BYTES as nat);
        }
        match read_var(data, start, MAX_VARLONG_BYTES) {
            Ok((value, len)) => Ok((VarLong(to_signed_64(value)), len)),
            Err(e) => Err(e),
        }
    }

    /// Decodes a slice that holds one VarLong.
    pub fn from_slice(bytes: &[u8]) -> (r: Result<Self, SerializingErr>)
        ensures
            r == Self::spec_from_slice(bytes@),
    {
        if bytes.len() > MAX_VARLONG_BYTES {
            return Err(SerializingErr::VarIntOverflow);
        }
        proof {
            assert(bytes@.skip(0) =~= bytes@);
        }
        match Self::read_at(bytes, 0) {
            Ok((number, _)) => Ok(number),
            Err(e) => Err(e),
        }
    }

    /// Decodes a vector that holds one VarLong.
    pub fn new_from_bytes(bytes: Vec<u8>) -> (r: Result<Self, SerializingErr>)
        ensures
            r == Self::spec_from_slice(bytes@),
    {
        VarLong::from_slice(bytes.as_slice())
    }

    /// Encodes this number into a vector.
    pub fn to_vec(&self) -> (out: Vec<u8>)
        ensures
            out@ == self.spec_bytes(),
            1 <= out@.len() <= MAX_VARLONG_BYTES,
    {
        let mut out: Vec<u8> = Vec::new();
        write_var(to_unsigned_64(self.0), &mut out);
        proof {
            lemma_varlong_len(*self);
            assert(out@ =~= self.spec_bytes());
        }
        out
    }

    /// Encodes this number.
    pub fn to_bytes(&self) -> (out: Box<[u8]>)
        ensures
            out@ == self.spec_bytes(),
            1 <= out@.len() <= MAX_VARLONG_BYTES,
    {
        into_boxed_slice(self.to_vec())
    }

    /// Encodes `i`.
    pub fn bytes(i: i64) -> (out: Box<[u8]>)
        ensures
            out@ == VarLong(i).spec_bytes(),
            1 <= out@.len() <= MAX_VARLONG_BYTES,
    {
        let var = VarLong(i);
        var.to_bytes()
    }
}

/// A VarInt takes one to five bytes.
pub proof fn lemma_varint_len(number: VarInt)
    ensures
        1 <= number.spec_bytes().len() <= MAX_VARINT_BYTES,
{
    lemma_pow128_values();
    lemma_var_bytes_len(unsigned_32(number.0), 5);
}

/// A VarLong takes one to ten bytes.
pub proof fn lemma_varlong_len(number: VarLong)
    ensures
        1 <= number.spec_bytes().len() <= MAX_VARLONG_BYTES,
{
    lemma_pow128_values();
    lemma_var_bytes_len(unsigned_64(number.0), 10);
}

/// Decoding the encoding of any `i32` gives it back: from a slice that
/// holds the encoding, and from the front of any longer input, where the
/// bytes that follow are left untouched.
pub proof fn lemma_varint_round_trip(n: i32, rest: Seq<u8>)
    ensures
        VarInt::spec_from_slice(VarInt(n).spec_bytes()) == Ok::<VarInt, SerializingErr>(VarInt(n)),
        VarInt::spec_read(VarInt(n).spec_bytes() + rest) == Ok::<(VarInt, nat), SerializingErr>(
            (VarInt(n), VarInt(n).spec_bytes().len()),
        ),
{
    let bytes = VarInt(n).spec_bytes();
    lemma_varint_len(VarInt(n));
    lemma_var_round_trip(unsigned_32(n), rest, 5);
    lemma_var_round_trip(unsigned_32(n), Seq::empty(), 5);
    assert(bytes + Seq::<u8>::empty() =~= bytes);
}

/// Decoding the encoding of any `i64` gives it back: from a slice that
/// holds the encoding, and from the front of any longer input, where the
/// bytes that follow are left untouched.
pub proof fn lemma_varlong_round_trip(n: i64, rest: Seq<u8>)
    ensures
        VarLong::spec_from_slice(VarLong(n).spec_bytes()) == Ok::<VarLong, SerializingErr>(
            VarLong(n),
        ),
        VarLong::spec_read(VarLong(n).spec_bytes() + rest) == Ok::<(VarLong, nat), SerializingErr>(
            (VarLong(n), VarLong(n).spec_bytes().len()),
        ),
{
    let bytes = VarLong(n).spec_bytes();
    lemma_varlong_len(VarLong(n));
    lemma_var_round_trip(unsigned_64(n), rest, 10);
    lemma_var_round_trip(unsigned_64(n), Seq::empty(), 10);
    assert(bytes + Seq::<u8>::empty() =~= bytes);
}

/// Five bytes or more that all carry the continuation bit are no VarInt,
/// whatever follows them.
pub proof fn lemma_varint_overflow(bytes: Seq<u8>)
    requires
        bytes.len() >= MAX_VARINT_BYTES,
        forall|j: int| 0 <= j < MAX_VARINT_BYTES ==> bytes[j] >= 128,
    ensures
        VarInt::spec_read(bytes) == Err::<(VarInt, nat), SerializingErr>(
            SerializingErr::VarIntOverflow,
        ),
        VarInt::spec_from_slice(bytes) == Err::<VarInt, SerializingErr>(
            SerializingErr::VarIntOverflow,
        ),
{
    lemma_read_var_after_continuations(bytes, 5, 5);
}

/// Ten bytes or more that all carry the continuation bit are no VarLong,
/// whatever follows them.
pub proof fn lemma_varlong_overflow(bytes: Seq<u8>)
    requires
        bytes.len() >= MAX_VARLONG_BYTES,
        forall|j: int| 0 <= j < MAX_VARLONG_BYTES ==> bytes[j] >= 128,
    ensures
        VarLong::spec_read(bytes) == Err::<(VarLong, nat), SerializingErr>(
            SerializingErr::VarIntOverflow,
        ),
        VarLong::spec_from_slice(bytes) == Err::<VarLong, SerializingErr>(
            SerializingErr::VarIntOverflow,
        ),
{
    lemma_read_var_after_continuations(bytes, 10, 10);
}

/// A number was given in a count of bytes that it cannot have.
#[derive(Debug, Clone, Copy, PartialEq, Eq, Hash, Structural)]
pub enum NumberWrongSizeError {
    VarIntError,
    VarLongError,
}

impl NumberWrongSizeError {
    /// The text that describes each failure.
    pub open spec fn spec_message(self) -> Seq<char> {
        match self {
            NumberWrongSizeError::VarIntError => "VarInt should be between 1 and 5 bytes"@,
            NumberWrongSizeError::VarLongError => "VarLong should be between 1 and 10 bytes"@,
        }
    }

    /// A human-readable description of the failure.
    pub fn message(&self) -> (text: String)
        ensures
            text@ == self.spec_message(),
    {
        match self {
            NumberWrongSizeError::VarIntError => "VarInt should be between 1 and 5 bytes".to_owned(),
            NumberWrongSizeError::VarLongError => "VarLong should be between 1 and 10 bytes".to_owned(),
        }
    }
}

impl VarInt {
    /// The number that the bytes of `text` stand for, where they are one to
    /// five bytes that hold a VarInt.
    pub open spec fn spec_from_text(bytes: Seq<u8>) -> Result<VarInt, NumberWrongSizeError> {
        if bytes.len() == 0 || bytes.len() > MAX_VARINT_BYTES {
            Err(NumberWrongSizeError::VarIntError)
        } else {
            match Self::spec_from_slice(bytes) {
                Ok(number) => Ok(number),
                Err(_) => Err(NumberWrongSizeError::VarIntError),
            }
        }
    }

    /// Reads a VarInt from the bytes of a string. This is the inverse of
    /// [`VarInt::to_text`].
    pub fn from_text(text: &str) -> (r: Result<VarInt, NumberWrongSizeError>)
        ensures
            r == Self::spec_from_text(text.spec_bytes()),
    {
        let bytes = text.as_bytes();
        if bytes.len() == 0 || bytes.len() > MAX_VARINT_BYTES {
            return Err(NumberWrongSizeError::VarIntError);
        }
        match VarInt::from_slice(bytes) {
            Ok(number) => Ok(number),
            Err(_) => Err(NumberWrongSizeError::VarIntError),
        }
    }

    /// The encoding of the number as a string, where its bytes are UTF-8;
    /// `InvalidUtf8` where they are not.
    pub fn to_text(&self) -> (r: Result<String, SerializingErr>)
        ensures
            valid_utf8(self.spec_bytes()) ==> r is Ok && r->Ok_0@ == decode_utf8(self.spec_bytes()),
            !valid_utf8(self.spec_bytes()) ==> r == Err::<String, SerializingErr>(
                SerializingErr::InvalidUtf8,
            ),
    {
        let bytes = self.to_bytes();
        match core::str::from_utf8(bytes.as_slice()) {
            Ok(text) => Ok(text.to_owned()),
            Err(e) => Err(SerializingErr::from(e)),
        }
    }
}

impl FromStr for VarInt {
    type Err = NumberWrongSizeError;

    /// Reads a VarInt from the bytes of a string, as [`VarInt::from_text`]
    /// does: one to five bytes that hold a VarInt give the number, anything
    /// else is `VarIntError`.
    fn from_str(s: &str) -> (r: Result<Self, Self::Err>)
        ensures
            r == VarInt::spec_from_text(s.spec_bytes()),
    {
        VarInt::from_text(s)
    }
}

} // verus!
