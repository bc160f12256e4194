//! The wire primitives: fixed-width integers in network byte order, booleans,
//! length-prefixed strings and byte arrays, UUIDs, and the two
//! variable-length integers as fields.

use crate::packets::serialization::serializer_error::SerializingErr;
use crate::packets::serialization::serializer_handler::{
    McDeserialize, McDeserializer, McSerialize, McSerializer,
};
use crate::protocol_details::datatypes::var_types::{
    lemma_read_var_bounds, lemma_read_var_cut, lemma_read_var_prefix, lemma_varint_round_trip,
    spec_read_var, to_unsigned_32, to_unsigned_64, VarInt, VarLong, write_var,
};
use core::str::Utf8Error;
use vstd::prelude::*;
use vstd::utf8::{decode_utf8, encode_utf8, valid_utf8};

verus! {

/// 256 to the power `k`.
pub open spec fn pow256(k: nat) -> nat
    decreases k,
{
    if k == 0 {
        1
    } else {
        256 * pow256((k - 1) as nat)
    }
}

/// The `n` low base-256 digits of `v`, most significant first.
pub open spec fn spec_be_bytes(v: nat, n: nat) -> Seq<u8>
    decreases n,
{
    if n == 0 {
        Seq::empty()
    } else {
        spec_be_bytes(v / 256, (n - 1) as nat).push((v % 256) as u8)
    }
}

/// The number whose base-256 digits, most significant first, are `bytes`.
pub open spec fn spec_be_value(bytes: Seq<u8>) -> nat
    decreases bytes.len(),
{
    if bytes.len() == 0 {
        0
    } else {
        spec_be_value(bytes.drop_last()) * 256 + bytes.last() as nat
    }
}

/// The bit pattern of `x` in a width of which `modulus` is the number of
/// patterns.
pub open spec fn twos_unsigned(x: int, modulus: int) -> nat {
    if x < 0 {
        (x + modulus) as nat
    } else {
        x as nat
    }
}

/// The signed number whose bit pattern, in a width of which `modulus` is the
/// number of patterns, is `v`.
pub open spec fn twos_signed(v: nat, modulus: int) -> int {
    if 2 * v >= modulus {
        v - modulus
    } else {
        v as int
    }
}

/// `pow256` at the widths that the protocol uses.
pub proof fn lemma_pow256_values()
    ensures
        pow256(0) == 1,
        pow256(1) == 0x100,
        pow256(2) == 0x1_0000,
        pow256(4) == 0x1_0000_0000,
        pow256(8) == 0x1_0000_0000_0000_0000,
        pow256(15) == 0x1_0000_0000_0000_0000_0000_0000_0000_00,
        pow256(16) == 0x1_0000_0000_0000_0000_0000_0000_0000_0000,
{
    reveal_with_fuel(pow256, 17);
}

/// `pow256` grows with its argument.
pub proof fn lemma_pow256_monotonic(a: nat, b: nat)
    requires
        a <= b,
    ensures
        0 < pow256(a) <= pow256(b),
    decreases b,
{
    if b == 0 {
    } else if a == b {
        lemma_pow256_monotonic(0, (b - 1) as nat);
    } else {
        lemma_pow256_monotonic(a, (b - 1) as nat);
    }
}

/// `n` digits are `n` bytes.
pub proof fn lemma_be_bytes_len(v: nat, n: nat)
    ensures
        spec_be_bytes(v, n).len() == n,
    decreases n,
{
    if n > 0 {
        lemma_be_bytes_len(v / 256, (n - 1) as nat);
    }
}

/// `n` bytes stand for a number below `256^n`.
pub proof fn lemma_be_value_bound(bytes: Seq<u8>)
    ensures
        spec_be_value(bytes) < pow256(bytes.len()),
    decreases bytes.len(),
{
    if bytes.len() > 0 {
        lemma_be_value_bound(bytes.drop_last());
    }
}

/// A number below `256^n` comes back from its `n` bytes.
pub proof fn lemma_be_round_trip(v: nat, n: nat)
    requires
        v < pow256(n),
    ensures
        spec_be_value(spec_be_bytes(v, n)) == v,
    decreases n,
{
    if n > 0 {
        let front = spec_be_bytes(v / 256, (n - 1) as nat);
        assert(spec_be_bytes(v, n).drop_last() =~= front);
        lemma_be_round_trip(v / 256, (n - 1) as nat);
    }
}

/// `n` bytes come back from the number that they stand for.
pub proof fn lemma_be_bytes_of_value(bytes: Seq<u8>)
    ensures
        spec_be_bytes(spec_be_value(bytes), bytes.len()) == bytes,
    decreases bytes.len(),
{
    if bytes.len() > 0 {
        lemma_be_bytes_of_value(bytes.drop_last());
        assert(spec_be_bytes(spec_be_value(bytes), bytes.len()) =~= bytes);
    } else {
        assert(spec_be_bytes(spec_be_value(bytes), bytes.len()) =~= bytes);
    }
}

/// Appends the `n` low bytes of `value`, most significant first.
pub fn write_be(value: u128, n: usize, serializer: &mut McSerializer)
    ensures
        final(serializer)@ == old(serializer)@ + spec_be_bytes(value as nat, n as nat),
    decreases n,
{
    if n > 0 {
        write_be(value / 256, n - 1, serializer);
        serializer.serialize_u8((value % 256) as u8);
        proof {
            assert(serializer@ =~= old(serializer)@ + spec_be_bytes(value as nat, n as nat));
        }
    } else {
        proof {
            assert(serializer@ =~= old(serializer)@ + spec_be_bytes(value as nat, n as nat));
        }
    }
}

/// The number that at most sixteen bytes stand for, most significant first.
pub fn read_be(bytes: &[u8]) -> (value: u128)
    requires
        bytes@.len() <= 16,
    ensures
        value == spec_be_value(bytes@),
        value < pow256(bytes@.len()),
{
    let mut value: u128 = 0;
    let mut i: usize = 0;
    while i < bytes.len()
        invariant
            i <= bytes@.len() <= 16,
            value == spec_be_value(bytes@.take(i as int)),
            value < pow256(i as nat),
        decreases bytes@.len() - i,
    {
        proof {
            lemma_pow256_monotonic(i as nat, 15);
            lemma_pow256_values();
            assert(bytes@.take(i + 1).drop_last() =~= bytes@.take(i as int));
        }
        value = value * 256 + bytes[i] as u128;
        i = i + 1;
    }
    proof {
        assert(bytes@.take(i as int) =~= bytes@);
    }
    value
}

/// What reading a number of `n` bytes from the front of `bytes` gives.
pub open spec fn spec_read_be(bytes: Seq<u8>, n: nat) -> Result<(nat, nat), SerializingErr> {
    if bytes.len() < n {
        Err(SerializingErr::InputEnded)
    } else {
        Ok((spec_be_value(bytes.take(n as int)), n))
    }
}

/// Reads a number of `n` bytes, most significant first.
pub fn take_be(deserializer: &mut McDeserializer, n: usize) -> (r: Result<u128, SerializingErr>)
    requires
        n <= 16,
    ensures
        match spec_read_be(old(deserializer)@, n as nat) {
            Ok((value, len)) => r == Ok::<u128, SerializingErr>(value as u128) && value < pow256(
                n as nat,
            ) && final(deserializer)@ == old(deserializer)@.skip(n as int),
            Err(e) => r == Err::<u128, SerializingErr>(e) && *final(deserializer) == *old(
                deserializer,
            ),
        },
{
    match deserializer.take(n) {
        Ok(bytes) => {
            proof {
                lemma_pow256_monotonic(n as nat, 16);
                lemma_pow256_values();
            }
            Ok(read_be(bytes))
        },
        Err(e) => Err(e),
    }
}

/// Reading a number of `n` bytes that was written gives it back, whatever
/// follows it.
pub proof fn lemma_read_be_round_trip(v: nat, n: nat, rest: Seq<u8>)
    requires
        v < pow256(n),
    ensures
        spec_be_bytes(v, n).len() == n,
        spec_read_be(spec_be_bytes(v, n) + rest, n) == Ok::<(nat, nat), SerializingErr>((v, n)),
{
    lemma_be_bytes_len(v, n);
    lemma_be_round_trip(v, n);
    assert((spec_be_bytes(v, n) + rest).take(n as int) =~= spec_be_bytes(v, n));
}


impl McSerialize for u8 {
    open spec fn spec_serialize(&self) -> Result<Seq<u8>, SerializingErr> {
        Ok(spec_be_bytes(*self as nat, 1))
    }

    fn mc_serialize(&self, serializer: &mut McSerializer) -> (r: Result<(), SerializingErr>) {
        write_be(*self as u128, 1, serializer);
        Ok(())
    }
}

impl McDeserialize for u8 {
    open spec fn spec_deserialize(bytes: Seq<u8>) -> Result<(u8, nat), SerializingErr> {
        match spec_read_be(bytes, 1) {
            Ok((value, len)) => Ok((value as u8, len)),
            Err(e) => Err(e),
        }
    }

    fn mc_deserialize<'a>(deserializer: &mut McDeserializer<'a>) -> (r: Result<
        Self,
        SerializingErr,
    >) {
        proof {
            lemma_pow256_values();
        }
        match take_be(deserializer, 1) {
            Ok(value) => Ok(value as u8),
            Err(e) => Err(e),
        }
    }
}

impl McSerialize for i8 {
    open spec fn spec_serialize(&self) -> Result<Seq<u8>, SerializingErr> {
        Ok(spec_be_bytes(twos_unsigned(*self as int, 0x100), 1))
    }

    fn mc_serialize(&self, serializer: &mut McSerializer) -> (r: Result<(), SerializingErr>) {
        let pattern: u128 = if *self < 0 {
            (*self as i16 + 0x100) as u128
        } else {
            *self as u128
        };
        write_be(pattern, 1, serializer);
        Ok(())
    }
}

impl McDeserialize for i8 {
    open spec fn spec_deserialize(bytes: Seq<u8>) -> Result<(i8, nat), SerializingErr> {
        match spec_read_be(bytes, 1) {
            Ok((value, len)) => Ok((twos_signed(value, 0x100) as i8, len)),
            Err(e) => Err(e),
        }
    }

    fn mc_deserialize<'a>(deserializer: &mut McDeserializer<'a>) -> (r: Result<
        Self,
        SerializingErr,
    >) {
        proof {
            lemma_pow256_values();
        }
        match take_be(deserializer, 1) {
            Ok(value) => {
                if value >= 0x80 {
                    Ok((value as i16 - 0x100) as i8)
                } else {
                    Ok(value as i8)
                }
            },
            Err(e) => Err(e),
        }
    }
}

impl McSerialize for u16 {
    open spec fn spec_serialize(&self) -> Result<Seq<u8>, SerializingErr> {
        Ok(spec_be_bytes(*self as nat, 2))
    }

    fn mc_serialize(&self, serializer: &mut McSerializer) -> (r: Result<(), SerializingErr>) {
        write_be(*self as u128, 2, serializer);
        Ok(())
    }
}

impl McDeserialize for u16 {
    open spec fn spec_deserialize(bytes: Seq<u8>) -> Result<(u16, nat), SerializingErr> {
        match spec_read_be(bytes, 2) {
            Ok((value, len)) => Ok((value as u16, len)),
            Err(e) => Err(e),
        }
    }

    fn mc_deserialize<'a>(deserializer: &mut McDeserializer<'a>) -> (r: Result<
        Self,
        SerializingErr,
    >) {
        proof {
            lemma_pow256_values();
        }
        match take_be(deserializer, 2) {
            Ok(value) => Ok(value as u16),
            Err(e) => Err(e),
        }
    }
}

impl McSerialize for i16 {
    open spec fn spec_serialize(&self) -> Result<Seq<u8>, SerializingErr> {
        Ok(spec_be_bytes(twos_unsigned(*self as int, 0x1_0000), 2))
    }

    fn mc_serialize(&self, serializer: &mut McSerializer) -> (r: Result<(), SerializingErr>) {
        let pattern: u128 = if *self < 0 {
            (*self as i32 + 0x1_0000) as u128
        } else {
            *self as u128
        };
        write_be(pattern, 2, serializer);
        Ok(())
    }
}

impl McDeserialize for i16 {
    open spec fn spec_deserialize(bytes: Seq<u8>) -> Result<(i16, nat), SerializingErr> {
        match spec_read_be(bytes, 2) {
            Ok((value, len)) => Ok((twos_signed(value, 0x1_0000) as i16, len)),
            Err(e) => Err(e),
        }
    }

    fn mc_deserialize<'a>(deserializer: &mut McDeserializer<'a>) -> (r: Result<
        Self,
        SerializingErr,
    >) {
        proof {
            lemma_pow256_values();
        }
        match take_be(deserializer, 2) {
            Ok(value) => {
                if value >= 0x8000 {
                    Ok((value as i32 - 0x1_0000) as i16)
                } else {
                    Ok(value as i16)
                }
            },
            Err(e) => Err(e),
        }
    }
}

impl McSerialize for u32 {
    open spec fn spec_serialize(&self) -> Result<Seq<u8>, SerializingErr> {
        Ok(spec_be_bytes(*self as nat, 4))
    }

    fn mc_serialize(&self, serializer: &mut McSerializer) -> (r: Result<(), SerializingErr>) {
        write_be(*self as u128, 4, serializer);
        Ok(())
    }
}

impl McDeserialize for u32 {
    open spec fn spec_deserialize(bytes: Seq<u8>) -> Result<(u32, nat), SerializingErr> {
        match spec_read_be(bytes, 4) {
            Ok((value, len)) => Ok((value as u32, len)),
            Err(e) => Err(e),
        }
    }

    fn mc_deserialize<'a>(deserializer: &mut McDeserializer<'a>) -> (r: Result<
        Self,
        SerializingErr,
    >) {
        proof {
            lemma_pow256_values();
        }
        match take_be(deserializer, 4) {
            Ok(value) => Ok(value as u32),
            Err(e) => Err(e),
        }
    }
}

impl McSerialize for i32 {
    open spec fn spec_serialize(&self) -> Result<Seq<u8>, SerializingErr> {
        Ok(spec_be_bytes(twos_unsigned(*self as int, 0x1_0000_0000), 4))
    }

    fn mc_serialize(&self, serializer: &mut McSerializer) -> (r: Result<(), SerializingErr>) {
        let pattern: u128 = if *self < 0 {
            (*self as i64 + 0x1_0000_0000) as u128
        } else {
            *self as u128
        };
        write_be(pattern, 4, serializer);
        Ok(())
    }
}

impl McDeserialize for i32 {
    open spec fn spec_deserialize(bytes: Seq<u8>) -> Result<(i32, nat), SerializingErr> {
        match spec_read_be(bytes, 4) {
            Ok((value, len)) => Ok((twos_signed(value, 0x1_0000_0000) as i32, len)),
            Err(e) => Err(e),
        }
    }

    fn mc_deserialize<'a>(deserializer: &mut McDeserializer<'a>) -> (r: Result<
        Self,
        SerializingErr,
    >) {
        proof {
            lemma_pow256_values();
        }
        match take_be(deserializer, 4) {
            Ok(value) => {
                if value >= 0x8000_0000 {
                    Ok((value as i64 - 0x1_0000_0000) as i32)
                } else {
                    Ok(value as i32)
                }
            },
            Err(e) => Err(e),
        }
    }
}

impl McSerialize for u64 {
    open spec fn spec_serialize(&self) -> Result<Seq<u8>, SerializingErr> {
        Ok(spec_be_bytes(*self as nat, 8))
    }

    fn mc_serialize(&self, serializer: &mut McSerializer) -> (r: Result<(), SerializingErr>) {
        write_be(*self as u128, 8, serializer);
        Ok(())
    }
}

impl McDeserialize for u64 {
    open spec fn spec_deserialize(bytes: Seq<u8>) -> Result<(u64, nat), SerializingErr> {
        match spec_read_be(bytes, 8) {
            Ok((value, len)) => Ok((value as u64, len)),
            Err(e) => Err(e),
        }
    }

    fn mc_deserialize<'a>(deserializer: &mut McDeserializer<'a>) -> (r: Result<
        Self,
        SerializingErr,
    >) {
        proof {
            lemma_pow256_values();
        }
        match take_be(deserializer, 8) {
            Ok(value) => Ok(value as u64),
            Err(e) => Err(e),
        }
    }
}

impl McSerialize for i64 {
    open spec fn spec_serialize(&self) -> Result<Seq<u8>, SerializingErr> {
        Ok(spec_be_bytes(twos_unsigned(*self as int, 0x1_0000_0000_0000_0000), 8))
    }

    fn mc_serialize(&self, serializer: &mut McSerializer) -> (r: Result<(), SerializingErr>) {
        let pattern: u128 = if *self < 0 {
            (*self as i128 + 0x1_0000_0000_0000_0000) as u128
        } else {
            *self as u128
        };
        write_be(pattern, 8, serializer);
        Ok(())
    }
}

impl McDeserialize for i64 {
    open spec fn spec_deserialize(bytes: Seq<u8>) -> Result<(i64, nat), SerializingErr> {
        match spec_read_be(bytes, 8) {
            Ok((value, len)) => Ok((twos_signed(value, 0x1_0000_0000_0000_0000) as i64, len)),
            Err(e) => Err(e),
        }
    }

    fn mc_deserialize<'a>(deserializer: &mut McDeserializer<'a>) -> (r: Result<
        Self,
        SerializingErr,
    >) {
        proof {
            lemma_pow256_values();
        }
        match take_be(deserializer, 8) {
            Ok(value) => {
                if value >= 0x8000_0000_0000_0000 {
                    Ok((value as i128 - 0x1_0000_0000_0000_0000) as i64)
                } else {
                    Ok(value as i64)
                }
            },
            Err(e) => Err(e),
        }
    }
}

impl McSerialize for bool {
    open spec fn spec_serialize(&self) -> Result<Seq<u8>, SerializingErr> {
        Ok(seq![if *self { 1u8 } else { 0u8 }])
    }

    fn mc_serialize(&self, serializer: &mut McSerializer) -> (r: Result<(), SerializingErr>) {
        serializer.serialize_u8(if *self { 1 } else { 0 });
        proof {
            assert(serializer@ =~= old(serializer)@ + seq![if *self { 1u8 } else { 0u8 }]);
        }
        Ok(())
    }
}

impl McDeserialize for bool {
    /// Any byte but zero stands for `true`.
    open spec fn spec_deserialize(bytes: Seq<u8>) -> Result<(bool, nat), SerializingErr> {
        if bytes.len() < 1 {
            Err(SerializingErr::InputEnded)
        } else {
            Ok((bytes[0] != 0, 1))
        }
    }

    fn mc_deserialize<'a>(deserializer: &mut McDeserializer<'a>) -> (r: Result<
        Self,
        SerializingErr,
    >) {
        match deserializer.pop() {
            Some(b) => Ok(b != 0),
            None => Err(SerializingErr::InputEnded),
        }
    }
}

impl McSerialize for VarInt {
    open spec fn spec_serialize(&self) -> Result<Seq<u8>, SerializingErr> {
        Ok(self.spec_bytes())
    }

    fn mc_serialize(&self, serializer: &mut McSerializer) -> (r: Result<(), SerializingErr>) {
        write_var(to_unsigned_32(self.0), &mut serializer.output);
        Ok(())
    }
}

impl McDeserialize for VarInt {
    open spec fn spec_deserialize(bytes: Seq<u8>) -> Result<(i32, nat), SerializingErr> {
        match VarInt::spec_read(bytes) {
            Ok((number, len)) => Ok((number.0, len)),
            Err(e) => Err(e),
        }
    }

    fn mc_deserialize<'a>(deserializer: &mut McDeserializer<'a>) -> (r: Result<
        Self,
        SerializingErr,
    >) {
        let rest = deserializer.collect_remaining();
        proof {
            assert(rest@.skip(0) =~= rest@);
        }
        match VarInt::read_at(rest, 0) {
            Ok((number, len)) => {
                let _ = deserializer.increment(len);
                Ok(number)
            },
            Err(e) => Err(e),
        }
    }
}

impl McSerialize for VarLong {
    open spec fn spec_serialize(&self) -> Result<Seq<u8>, SerializingErr> {
        Ok(self.spec_bytes())
    }

    fn mc_serialize(&self, serializer: &mut McSerializer) -> (r: Result<(), SerializingErr>) {
        write_var(to_unsigned_64(self.0), &mut serializer.output);
        Ok(())
    }
}

impl McDeserialize for VarLong {
    open spec fn spec_deserialize(bytes: Seq<u8>) -> Result<(i64, nat), SerializingErr> {
        match VarLong::spec_read(bytes) {
            Ok((number, len)) => Ok((number.0, len)),
            Err(e) => Err(e),
        }
    }

    fn mc_deserialize<'a>(deserializer: &mut McDeserializer<'a>) -> (r: Result<
        Self,
        SerializingErr,
    >) {
        let rest = deserializer.collect_remaining();
        proof {
            assert(rest@.skip(0) =~= rest@);
        }
        match VarLong::read_at(rest, 0) {
            Ok((number, len)) => {
                let _ = deserializer.increment(len);
                Ok(number)
            },
            Err(e) => Err(e),
        }
    }
}

/// A UUID: 128 bits, on the wire as sixteen bytes, most significant first.
#[derive(Debug, Clone, Copy, PartialEq, Eq, Hash, Structural)]
pub struct Uuid(pub u128);

impl View for Uuid {
    type V = u128;

    open spec fn view(&self) -> u128 {
        self.0
    }
}

impl McSerialize for Uuid {
    open spec fn spec_serialize(&self) -> Result<Seq<u8>, SerializingErr> {
        Ok(spec_be_bytes(self.0 as nat, 16))
    }

    fn mc_serialize(&self, serializer: &mut McSerializer) -> (r: Result<(), SerializingErr>) {
        write_be(self.0, 16, serializer);
        Ok(())
    }
}

impl McDeserialize for Uuid {
    open spec fn spec_deserialize(bytes: Seq<u8>) -> Result<(u128, nat), SerializingErr> {
        match spec_read_be(bytes, 16) {
            Ok((value, len)) => Ok((value as u128, len)),
            Err(e) => Err(e),
        }
    }

    fn mc_deserialize<'a>(deserializer: &mut McDeserializer<'a>) -> (r: Result<
        Self,
        SerializingErr,
    >) {
        match take_be(deserializer, 16) {
            Ok(value) => Ok(Uuid(value)),
            Err(e) => Err(e),
        }
    }
}

/// The largest length prefix that a string or byte array may have where the
/// caller declares no bound of its own.
pub const MAX_STRING_BYTES: usize = 32767;

/// What a length prefix says: the length, `LengthExceedsBound` where it is
/// negative or above `max`, or the failure to read it.
pub open spec fn spec_read_length(bytes: Seq<u8>, max: nat) -> Result<(nat, nat), SerializingErr> {
    match VarInt::spec_read(bytes) {
        Ok((number, len)) => if number.0 < 0 || number.0 > max {
            Err(SerializingErr::LengthExceedsBound)
        } else {
            Ok((number.0 as nat, len))
        },
        Err(e) => Err(e),
    }
}

/// A length prefix of `n` where `n` is within `max` and fits a VarInt.
pub open spec fn spec_length_bytes(n: nat, max: nat) -> Result<Seq<u8>, SerializingErr> {
    if n > max || n > i32::MAX {
        Err(SerializingErr::LengthExceedsBound)
    } else {
        Ok(VarInt(n as i32).spec_bytes())
    }
}

/// The wire form of raw bytes behind their length: the prefix and the bytes.
pub open spec fn spec_prefixed_bytes(body: Seq<u8>, max: nat) -> Result<Seq<u8>, SerializingErr> {
    match spec_length_bytes(body.len(), max) {
        Ok(prefix) => Ok(prefix + body),
        Err(e) => Err(e),
    }
}

/// Raw bytes behind their length at the front of `bytes`: the bytes and how
/// many were read, prefix included.
pub open spec fn spec_read_prefixed(bytes: Seq<u8>, max: nat) -> Result<
    (Seq<u8>, nat),
    SerializingErr,
> {
    match spec_read_length(bytes, max) {
        Ok((n, len)) => if bytes.len() - len < n {
            Err(SerializingErr::InputEnded)
        } else {
            Ok((bytes.subrange(len as int, (len + n) as int), len + n))
        },
        Err(e) => Err(e),
    }
}

/// The wire form of a string: its UTF-8 bytes behind their count.
pub open spec fn spec_string_bytes(text: Seq<char>, max: nat) -> Result<Seq<u8>, SerializingErr> {
    spec_prefixed_bytes(encode_utf8(text), max)
}

/// The string at the front of `bytes` and how many bytes it takes.
pub open spec fn spec_read_string(bytes: Seq<u8>, max: nat) -> Result<
    (Seq<char>, nat),
    SerializingErr,
> {
    match spec_read_prefixed(bytes, max) {
        Ok((body, len)) => if valid_utf8(body) {
            Ok((decode_utf8(body), len))
        } else {
            Err(SerializingErr::InvalidUtf8)
        },
        Err(e) => Err(e),
    }
}

/// `core::str::Utf8Error`, the reason why bytes are not UTF-8. Nothing is
/// claimed of the type itself.
#[verifier::external_type_specification]
#[verifier::external_body]
pub struct ExUtf8Error(Utf8Error);

/// `core::str::from_utf8`: the bytes are accepted exactly when they are
/// well-formed UTF-8, and the string slice then holds the characters that
/// they encode.
pub assume_specification[ core::str::from_utf8 ](v: &[u8]) -> (r: Result<&str, Utf8Error>)
    ensures
        r is Ok <==> valid_utf8(v@),
        r matches Ok(text) ==> text@ == decode_utf8(v@),
;

/// Writes `n` as a length prefix.
pub fn serialize_length(n: usize, max: usize, serializer: &mut McSerializer) -> (r: Result<
    (),
    SerializingErr,
>)
    ensures
        match spec_length_bytes(n as nat, max as nat) {
            Ok(bytes) => r is Ok && final(serializer)@ == old(serializer)@ + bytes,
            Err(e) => r == Err::<(), SerializingErr>(e) && final(serializer)@ == old(serializer)@,
        },
{
    if n > max || n > i32::MAX as usize {
        return Err(SerializingErr::LengthExceedsBound);
    }
    write_var(n as u64, &mut serializer.output);
    Ok(())
}

/// Reads a length prefix that may be at most `max`.
pub fn deserialize_length(deserializer: &mut McDeserializer, max: usize) -> (r: Result<
    usize,
    SerializingErr,
>)
    ensures
        match spec_read_length(old(deserializer)@, max as nat) {
            Ok((n, len)) => r == Ok::<usize, SerializingErr>(n as usize) && n <= max && len <= old(
                deserializer,
            )@.len() && final(deserializer)@ == old(deserializer)@.skip(len as int),
            Err(e) => r == Err::<usize, SerializingErr>(e) && *final(deserializer) == *old(
                deserializer,
            ),
        },
{
    let saved = *deserializer;
    match VarInt::mc_deserialize(deserializer) {
        Ok(number) => {
            if number.0 < 0 || number.0 as u64 > max as u64 {
                *deserializer = saved;
                return Err(SerializingErr::LengthExceedsBound);
            }
            Ok(number.0 as usize)
        },
        Err(e) => Err(e),
    }
}

/// Writes `body` behind its length, which may be at most `max`.
pub fn serialize_prefixed(body: &[u8], max: usize, serializer: &mut McSerializer) -> (r: Result<
    (),
    SerializingErr,
>)
    ensures
        match spec_prefixed_bytes(body@, max as nat) {
            Ok(bytes) => r is Ok && final(serializer)@ == old(serializer)@ + bytes,
            Err(e) => r == Err::<(), SerializingErr>(e) && final(serializer)@ == old(serializer)@,
        },
{
    match serialize_length(body.len(), max, serializer) {
        Ok(()) => {
            serializer.serialize_bytes(body);
            proof {
                let prefix = spec_length_bytes(body@.len(), max as nat)->Ok_0;
                assert(serializer@ =~= old(serializer)@ + (prefix + body@));
            }
            Ok(())
        },
        Err(e) => Err(e),
    }
}

/// Reads raw bytes behind their length, which may be at most `max`.
pub fn deserialize_prefixed<'a>(deserializer: &mut McDeserializer<'a>, max: usize) -> (r: Result<
    &'a [u8],
    SerializingErr,
>)
    ensures
        match spec_read_prefixed(old(deserializer)@, max as nat) {
            Ok((body, len)) => r is Ok && r->Ok_0@ == body && len <= old(deserializer)@.len()
                && final(deserializer)@ == old(deserializer)@.skip(len as int),
            Err(e) => r == Err::<&[u8], SerializingErr>(e) && *final(deserializer) == *old(
                deserializer,
            ),
        },
{
    let saved = *deserializer;
    match deserialize_length(deserializer, max) {
        Ok(n) => {
            let ghost len = spec_read_length(old(deserializer)@, max as nat)->Ok_0.1;
            match deserializer.take(n) {
                Ok(body) => {
                    proof {
                        let all = old(deserializer)@;
                        assert(all.skip(len as int).take(n as int) =~= all.subrange(
                            len as int,
                            len + n,
                        ));
                        assert(all.skip(len as int).skip(n as int) =~= all.skip(len + n));
                    }
                    Ok(body)
                },
                Err(e) => {
                    *deserializer = saved;
                    Err(e)
                },
            }
        },
        Err(e) => Err(e),
    }
}

/// Writes `text` as a string of at most `max` bytes.
pub fn serialize_string(text: &str, max: usize, serializer: &mut McSerializer) -> (r: Result<
    (),
    SerializingErr,
>)
    ensures
        match spec_string_bytes(text@, max as nat) {
            Ok(bytes) => r is Ok && final(serializer)@ == old(serializer)@ + bytes,
            Err(e) => r == Err::<(), SerializingErr>(e) && final(serializer)@ == old(serializer)@,
        },
{
    serialize_prefixed(text.as_bytes(), max, serializer)
}

/// Reads a string of at most `max` bytes.
pub fn deserialize_string(deserializer: &mut McDeserializer, max: usize) -> (r: Result<
    String,
    SerializingErr,
>)
    ensures
        match spec_read_string(old(deserializer)@, max as nat) {
            Ok((text, len)) => r is Ok && r->Ok_0@ == text && len <= old(deserializer)@.len()
                && final(deserializer)@ == old(deserializer)@.skip(len as int),
            Err(e) => r == Err::<String, SerializingErr>(e) && *final(deserializer) == *old(
                deserializer,
            ),
        },
{
    let saved = *deserializer;
    match deserialize_prefixed(deserializer, max) {
        Ok(body) => match core::str::from_utf8(body) {
            Ok(text) => Ok(text.to_owned()),
            Err(e) => {
                *deserializer = saved;
                Err(SerializingErr::from(e))
            },
        },
        Err(e) => Err(e),
    }
}

impl McSerialize for String {
    open spec fn spec_serialize(&self) -> Result<Seq<u8>, SerializingErr> {
        spec_string_bytes(self@, MAX_STRING_BYTES as nat)
    }

    fn mc_serialize(&self, serializer: &mut McSerializer) -> (r: Result<(), SerializingErr>) {
        serialize_string(self.as_str(), MAX_STRING_BYTES, serializer)
    }
}

impl McDeserialize for String {
    open spec fn spec_deserialize(bytes: Seq<u8>) -> Result<(Seq<char>, nat), SerializingErr> {
        spec_read_string(bytes, MAX_STRING_BYTES as nat)
    }

    fn mc_deserialize<'a>(deserializer: &mut McDeserializer<'a>) -> (r: Result<
        Self,
        SerializingErr,
    >) {
        deserialize_string(deserializer, MAX_STRING_BYTES)
    }
}

impl McSerialize for Vec<u8> {
    open spec fn spec_serialize(&self) -> Result<Seq<u8>, SerializingErr> {
        spec_prefixed_bytes(self@, i32::MAX as nat)
    }

    fn mc_serialize(&self, serializer: &mut McSerializer) -> (r: Result<(), SerializingErr>) {
        serialize_prefixed(self.as_slice(), i32::MAX as usize, serializer)
    }
}

impl McDeserialize for Vec<u8> {
    open spec fn spec_deserialize(bytes: Seq<u8>) -> Result<(Seq<u8>, nat), SerializingErr> {
        spec_read_prefixed(bytes, i32::MAX as nat)
    }

    fn mc_deserialize<'a>(deserializer: &mut McDeserializer<'a>) -> (r: Result<
        Self,
        SerializingErr,
    >) {
        match deserialize_prefixed(deserializer, i32::MAX as usize) {
            Ok(body) => Ok(vstd::slice::slice_to_vec(body)),
            Err(e) => Err(e),
        }
    }
}

/// A length prefix that was written is read back, whatever follows it.
pub proof fn lemma_length_round_trip(n: nat, max: nat, rest: Seq<u8>)
    requires
        spec_length_bytes(n, max) is Ok,
    ensures
        spec_read_length(spec_length_bytes(n, max)->Ok_0 + rest, max) == Ok::<
            (nat, nat),
            SerializingErr,
        >((n, spec_length_bytes(n, max)->Ok_0.len())),
{
    lemma_varint_round_trip(n as i32, rest);
}

/// Raw bytes that were written behind their length are read back, whatever
/// follows them.
pub proof fn lemma_prefixed_round_trip(body: Seq<u8>, max: nat, rest: Seq<u8>)
    requires
        spec_prefixed_bytes(body, max) is Ok,
    ensures
        spec_read_prefixed(spec_prefixed_bytes(body, max)->Ok_0 + rest, max) == Ok::<
            (Seq<u8>, nat),
            SerializingErr,
        >((body, spec_prefixed_bytes(body, max)->Ok_0.len())),
{
    let prefix = spec_length_bytes(body.len(), max)->Ok_0;
    let all = prefix + body + rest;
    assert(all =~= prefix + (body + rest));
    lemma_length_round_trip(body.len(), max, body + rest);
    assert(all.subrange(prefix.len() as int, (prefix.len() + body.len()) as int) =~= body);
}

/// A string that was written is read back, whatever follows it.
pub proof fn lemma_string_round_trip(text: Seq<char>, max: nat, rest: Seq<u8>)
    requires
        spec_string_bytes(text, max) is Ok,
    ensures
        spec_read_string(spec_string_bytes(text, max)->Ok_0 + rest, max) == Ok::<
            (Seq<char>, nat),
            SerializingErr,
        >((text, spec_string_bytes(text, max)->Ok_0.len())),
{
    lemma_prefixed_round_trip(encode_utf8(text), max, rest);
    vstd::utf8::encode_utf8_valid_utf8(text);
    vstd::utf8::encode_utf8_decode_utf8(text);
}

/// Bytes behind their length that are cut off anywhere before their end
/// are bytes whose input ended: neither a shorter value nor another failure
/// comes of a part of them.
pub proof fn lemma_prefixed_cut(bytes: Seq<u8>, max: nat, k: int)
    requires
        spec_read_prefixed(bytes, max) matches Ok((_, len)) && 0 <= k < len,
    ensures
        spec_read_prefixed(bytes.take(k), max) == Err::<(Seq<u8>, nat), SerializingErr>(
            SerializingErr::InputEnded,
        ),
{
    let head = spec_read_var(bytes, 5)->Ok_0.1;
    lemma_read_var_bounds(bytes, 5);
    if k < head {
        lemma_read_var_cut(bytes, 5, k);
    } else {
        assert(bytes.take(k).take(head as int) =~= bytes.take(head as int));
        lemma_read_var_prefix(bytes, bytes.take(k), 5);
    }
}

} // verus!
