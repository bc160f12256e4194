//! Reading NBT.
//!
//! The reader takes what the writer gives and more: a negative count stands
//! for no elements, bytes that are not UTF-8 are replaced rather than
//! refused, and a name that occurs twice in a compound keeps its first place
//! and its last value.

use crate::packets::serialization::primitives::{lemma_pow256_values, spec_read_be, take_be};
use crate::packets::serialization::serializer_error::SerializingErr;
use crate::packets::serialization::serializer_handler::{McDeserialize, McDeserializer};
use crate::protocol_details::datatypes::nbt::encode::TAG_COMPOUND;
use crate::protocol_details::datatypes::nbt::nbt::{
    spec_insert, NbtByteArray, NbtCompound, NbtCompoundView, NbtEntry, NbtIntArray, NbtList,
    NbtLongArray, NbtTag, NbtValue,
};
use vstd::prelude::*;
use vstd::utf8::{decode_utf8, valid_utf8};

verus! {

/// What `String::from_utf8_lossy` makes of `bytes`.
pub uninterp spec fn spec_utf8_lossy(bytes: Seq<u8>) -> Seq<char>;

/// The text that the bytes of a string inside NBT stand for: the characters
/// that they encode where they are UTF-8, and what the lossy conversion makes
/// of them where they are not.
pub open spec fn spec_nbt_text(bytes: Seq<u8>) -> Seq<char> {
    if valid_utf8(bytes) {
        decode_utf8(bytes)
    } else {
        spec_utf8_lossy(bytes)
    }
}

/// `String::from_utf8_lossy` of std: the result is a function of the bytes
/// alone, and well-formed UTF-8 is taken as it is.
#[verifier::external_body]
fn utf8_lossy(bytes: &[u8]) -> (text: String)
    ensures
        text@ == spec_utf8_lossy(bytes@),
        valid_utf8(bytes@) ==> text@ == decode_utf8(bytes@),
{
    String::from_utf8_lossy(bytes).into_owned()
}

/// A string inside NBT at the front of `bytes`, and how many bytes it takes.
pub open spec fn spec_read_nbt_string(bytes: Seq<u8>) -> Result<(Seq<char>, nat), SerializingErr> {
    match spec_read_be(bytes, 2) {
        Ok((n, _)) => if bytes.len() - 2 < n {
            Err(SerializingErr::InputEnded)
        } else {
            Ok((spec_nbt_text(bytes.subrange(2, (2 + n) as int)), 2 + n))
        },
        Err(e) => Err(e),
    }
}

/// The count at the front of an array or list payload: a signed 32-bit
/// integer, of which a negative value stands for none.
pub open spec fn spec_read_count(bytes: Seq<u8>) -> Result<nat, SerializingErr> {
    match i32::spec_deserialize(bytes) {
        Ok((count, _)) => Ok(
            if count < 0 {
                0nat
            } else {
                count as nat
            },
        ),
        Err(e) => Err(e),
    }
}

/// `count` values read one after the other from the front of `bytes`, behind
/// the values `acc` that took `consumed` bytes.
pub open spec fn spec_read_elements<T: McDeserialize>(
    count: nat,
    bytes: Seq<u8>,
    acc: Seq<T::V>,
    consumed: nat,
) -> Result<(Seq<T::V>, nat), SerializingErr>
    decreases count,
{
    if count == 0 {
        Ok((acc, consumed))
    } else {
        match T::spec_deserialize(bytes) {
            Ok((value, n)) => if n > bytes.len() {
                Err(SerializingErr::InputEnded)
            } else {
                spec_read_elements::<T>(
                    (count - 1) as nat,
                    bytes.skip(n as int),
                    acc.push(value),
                    consumed + n,
                )
            },
            Err(e) => Err(e),
        }
    }
}

/// The payload of an array at the front of `bytes`: the count, then that
/// many elements.
pub open spec fn spec_read_array<T: McDeserialize>(bytes: Seq<u8>) -> Result<
    (Seq<T::V>, nat),
    SerializingErr,
> {
    match spec_read_count(bytes) {
        Ok(count) => match spec_read_elements::<T>(count, bytes.skip(4), Seq::empty(), 0) {
            Ok((items, n)) => Ok((items, 4 + n)),
            Err(e) => Err(e),
        },
        Err(e) => Err(e),
    }
}

/// The payload of a tag of type `type_id` at the front of `bytes`, and how
/// many bytes it takes.
pub open spec fn spec_read_payload(type_id: u8, bytes: Seq<u8>) -> Result<
    (NbtValue, nat),
    SerializingErr,
>
    decreases bytes.len(), 1nat,
{
    if type_id == 0 {
        Ok((NbtValue::End, 0))
    } else if type_id == 1 {
        match i8::spec_deserialize(bytes) {
            Ok((v, n)) => Ok((NbtValue::Byte(v), n)),
            Err(e) => Err(e),
        }
    } else if type_id == 2 {
        match i16::spec_deserialize(bytes) {
            Ok((v, n)) => Ok((NbtValue::Short(v), n)),
            Err(e) => Err(e),
        }
    } else if type_id == 3 {
        match i32::spec_deserialize(bytes) {
            Ok((v, n)) => Ok((NbtValue::Int(v), n)),
            Err(e) => Err(e),
        }
    } else if type_id == 4 {
        match i64::spec_deserialize(bytes) {
            Ok((v, n)) => Ok((NbtValue::Long(v), n)),
            Err(e) => Err(e),
        }
    } else if type_id == 5 {
        match u32::spec_deserialize(bytes) {
            Ok((v, n)) => Ok((NbtValue::Float(v), n)),
            Err(e) => Err(e),
        }
    } else if type_id == 6 {
        match u64::spec_deserialize(bytes) {
            Ok((v, n)) => Ok((NbtValue::Double(v), n)),
            Err(e) => Err(e),
        }
    } else if type_id == 7 {
        match spec_read_array::<i8>(bytes) {
            Ok((v, n)) => Ok((NbtValue::ByteArray(v), n)),
            Err(e) => Err(e),
        }
    } else if type_id == 8 {
        match spec_read_nbt_string(bytes) {
            Ok((v, n)) => Ok((NbtValue::String(v), n)),
            Err(e) => Err(e),
        }
    } else if type_id == 9 {
        if bytes.len() < 1 {
            Err(SerializingErr::InputEnded)
        } else {
            match spec_read_count(bytes.skip(1)) {
                Ok(count) => if bytes[0] == 0 && count > 0 {
                    Err(SerializingErr::InvalidTagType)
                } else {
                    match spec_read_items(bytes[0], count, bytes.skip(5), Seq::empty(), 0) {
                        Ok((items, n)) => Ok((NbtValue::List { type_id: bytes[0], items }, 5 + n)),
                        Err(e) => Err(e),
                    }
                },
                Err(e) => Err(e),
            }
        }
    } else if type_id == 10 {
        match spec_read_entries(bytes, Seq::empty(), 0) {
            Ok((entries, n)) => Ok((NbtValue::Compound(entries), n)),
            Err(e) => Err(e),
        }
    } else if type_id == 11 {
        match spec_read_array::<i32>(bytes) {
            Ok((v, n)) => Ok((NbtValue::IntArray(v), n)),
            Err(e) => Err(e),
        }
    } else if type_id == 12 {
        match spec_read_array::<i64>(bytes) {
            Ok((v, n)) => Ok((NbtValue::LongArray(v), n)),
            Err(e) => Err(e),
        }
    } else {
        Err(SerializingErr::InvalidTagType)
    }
}

/// `count` payloads of type `type_id` read one after the other from the
/// front of `bytes`, behind the items `acc` that took `consumed` bytes.
pub open spec fn spec_read_items(
    type_id: u8,
    count: nat,
    bytes: Seq<u8>,
    acc: Seq<NbtValue>,
    consumed: nat,
) -> Result<(Seq<NbtValue>, nat), SerializingErr>
    decreases bytes.len(), 2 + count,
{
    if count == 0 {
        Ok((acc, consumed))
    } else {
        match spec_read_payload(type_id, bytes) {
            Ok((value, n)) => if n > bytes.len() {
                Err(SerializingErr::InputEnded)
            } else {
                spec_read_items(
                    type_id,
                    (count - 1) as nat,
                    bytes.skip(n as int),
                    acc.push(value),
                    consumed + n,
                )
            },
            Err(e) => Err(e),
        }
    }
}

/// The body of a compound at the front of `bytes`, behind the entries `acc`
/// that took `consumed` bytes: entries up to a zero byte. An entry whose
/// name is there already takes that entry's place.
pub open spec fn spec_read_entries(bytes: Seq<u8>, acc: Seq<NbtEntry>, consumed: nat) -> Result<
    (Seq<NbtEntry>, nat),
    SerializingErr,
>
    decreases bytes.len(), 0nat,
{
    if bytes.len() == 0 {
        Err(SerializingErr::InputEnded)
    } else if bytes[0] == 0 {
        Ok((acc, consumed + 1))
    } else {
        match spec_read_nbt_string(bytes.skip(1)) {
            Ok((name, k)) => if 1 + k > bytes.len() {
                Err(SerializingErr::InputEnded)
            } else {
                match spec_read_payload(bytes[0], bytes.skip((1 + k) as int)) {
                    Ok((value, n)) => if 1 + k + n > bytes.len() {
                        Err(SerializingErr::InputEnded)
                    } else {
                        spec_read_entries(
                            bytes.skip((1 + k + n) as int),
                            spec_insert(acc, name, value),
                            consumed + 1 + k + n,
                        )
                    },
                    Err(e) => Err(e),
                }
            },
            Err(e) => Err(e),
        }
    }
}

/// A root compound in the named form at the front of `bytes`: the type id
/// 10, the root name, the body.
pub open spec fn spec_read_named_root(bytes: Seq<u8>) -> Result<
    (NbtCompoundView, nat),
    SerializingErr,
> {
    if bytes.len() == 0 {
        Err(SerializingErr::InputEnded)
    } else if bytes[0] != TAG_COMPOUND {
        Err(SerializingErr::InvalidTagType)
    } else {
        match spec_read_nbt_string(bytes.skip(1)) {
            Ok((root_name, k)) => match spec_read_entries(
                bytes.skip((1 + k) as int),
                Seq::empty(),
                0,
            ) {
                Ok((entries, n)) => Ok((NbtCompoundView { root_name, entries }, 1 + k + n)),
                Err(e) => Err(e),
            },
            Err(e) => Err(e),
        }
    }
}

/// A root compound in the network form at the front of `bytes`: the type id
/// 10, then the body. The compound has the empty root name.
pub open spec fn spec_read_network_root(bytes: Seq<u8>) -> Result<
    (NbtCompoundView, nat),
    SerializingErr,
> {
    if bytes.len() == 0 {
        Err(SerializingErr::InputEnded)
    } else if bytes[0] != TAG_COMPOUND {
        Err(SerializingErr::InvalidTagType)
    } else {
        match spec_read_entries(bytes.skip(1), Seq::empty(), 0) {
            Ok((entries, n)) => Ok((NbtCompoundView { root_name: Seq::empty(), entries }, 1 + n)),
            Err(e) => Err(e),
        }
    }
}

/// The values of `items` as mathematical values.
pub open spec fn views_of<T: View>(items: Seq<T>) -> Seq<T::V> {
    Seq::new(items.len(), |i: int| items[i]@)
}

/// Reads a string as NBT has it. Where that fails nothing is read.
pub fn deserialize_nbt_string(deserializer: &mut McDeserializer) -> (r: Result<
    String,
    SerializingErr,
>)
    ensures
        match spec_read_nbt_string(old(deserializer)@) {
            Ok((text, len)) => r is Ok && r->Ok_0@ == text && 2 <= len <= old(deserializer)@.len()
                && final(deserializer)@ == old(deserializer)@.skip(len as int),
            Err(e) => r == Err::<String, SerializingErr>(e) && *final(deserializer) == *old(deserializer),
        },
{
    let saved = *deserializer;
    let ghost input = deserializer@;
    proof {
        lemma_pow256_values();
    }
    let n: usize = match take_be(deserializer, 2) {
        Ok(n) => n as usize,
        Err(e) => {
            return Err(e);
        },
    };
    match deserializer.take(n) {
        Ok(body) => {
            proof {
                assert(input.skip(2).take(n as int) =~= input.subrange(2, 2 + n));
                assert(input.skip(2).skip(n as int) =~= input.skip(2 + n));
            }
            Ok(utf8_lossy(body))
        },
        Err(e) => {
            *deserializer = saved;
            Err(e)
        },
    }
}

/// Reads the count of an array or list. Where that fails nothing is read.
pub fn deserialize_count(deserializer: &mut McDeserializer) -> (r: Result<usize, SerializingErr>)
    ensures
        match spec_read_count(old(deserializer)@) {
            Ok(count) => r == Ok::<usize, SerializingErr>(count as usize) && count <= i32::MAX && 4
                <= old(deserializer)@.len() && final(deserializer)@ == old(deserializer)@.skip(4),
            Err(e) => r == Err::<usize, SerializingErr>(e) && *final(deserializer) == *old(deserializer),
        },
{
    match i32::mc_deserialize(deserializer) {
        Ok(count) => {
            if count < 0 {
                Ok(0)
            } else {
                Ok(count as usize)
            }
        },
        Err(e) => Err(e),
    }
}

/// Reads the payload of an array. Where that fails nothing is read.
pub fn deserialize_array<T: McDeserialize>(deserializer: &mut McDeserializer) -> (r: Result<
    Vec<T>,
    SerializingErr,
>)
    ensures
        match spec_read_array::<T>(old(deserializer)@) {
            Ok((items, len)) => r is Ok && views_of(r->Ok_0@) == items && len <= old(deserializer)@.len() && final(deserializer)@ == old(deserializer)@.skip(len as int),
            Err(e) => r is Err && r->Err_0 == e && *final(deserializer) == *old(deserializer),
        },
{
    let saved = *deserializer;
    let ghost input = deserializer@;
    let count: usize = match deserialize_count(deserializer) {
        Ok(count) => count,
        Err(e) => {
            return Err(e);
        },
    };
    let mut items: Vec<T> = Vec::new();
    let ghost mut consumed: nat = 0;
    let mut i: usize = 0;
    proof {
        assert(views_of(items@) =~= Seq::<T::V>::empty());
        assert(input.skip(4).skip(0) =~= input.skip(4));
    }
    while i < count
        invariant
            i <= count,
            saved == *old(deserializer),
            input == old(deserializer)@,
            4 + consumed <= input.len(),
            spec_read_count(input) == Ok::<nat, SerializingErr>(count as nat),
            deserializer@ == input.skip(4).skip(consumed as int),
            spec_read_elements::<T>(count as nat, input.skip(4), Seq::empty(), 0)
                == spec_read_elements::<T>(
                (count - i) as nat,
                deserializer@,
                views_of(items@),
                consumed,
            ),
        decreases count - i,
    {
        let ghost before = views_of(items@);
        let ghost here = deserializer@;
        match T::mc_deserialize(deserializer) {
            Ok(item) => {
                let ghost n = T::spec_deserialize(here)->Ok_0.1;
                items.push(item);
                proof {
                    assert(views_of(items@) =~= before.push(item@));
                    assert(input.skip(4).skip(consumed as int).skip(n as int) =~= input.skip(
                        4,
                    ).skip((consumed + n) as int));
                    consumed = consumed + n;
                }
            },
            Err(e) => {
                *deserializer = saved;
                return Err(e);
            },
        }
        i = i + 1;
    }
    proof {
        assert(input.skip(4).skip(consumed as int) =~= input.skip((4 + consumed) as int));
    }
    Ok(items)
}

/// The values of a vector of integers are the integers themselves.
pub proof fn lemma_views_of_i8(items: Seq<i8>)
    ensures
        views_of(items) == items,
{
    assert(views_of(items) =~= items);
}

/// The values of a vector of integers are the integers themselves.
pub proof fn lemma_views_of_i32(items: Seq<i32>)
    ensures
        views_of(items) == items,
{
    assert(views_of(items) =~= items);
}

/// The values of a vector of integers are the integers themselves.
pub proof fn lemma_views_of_i64(items: Seq<i64>)
    ensures
        views_of(items) == items,
{
    assert(views_of(items) =~= items);
}

/// Reads the payload of a tag that holds no other tags: of any type but
/// list and compound, which are no such tags and are refused with
/// `InvalidTagType`. Where that fails nothing is read.
pub fn deserialize_leaf(type_id: u8, deserializer: &mut McDeserializer) -> (r: Result<
    NbtTag,
    SerializingErr,
>)
    ensures
        type_id != 9 && type_id != 10 ==> match spec_read_payload(type_id, old(deserializer)@) {
            Ok((value, len)) => r is Ok && r->Ok_0@ == value && len <= old(deserializer)@.len()
                && final(deserializer)@ == old(deserializer)@.skip(len as int),
            Err(e) => r is Err && r->Err_0 == e && *final(deserializer) == *old(deserializer),
        },
        type_id == 9 || type_id == 10 ==> r is Err && r->Err_0 == SerializingErr::InvalidTagType
            && *final(deserializer) == *old(deserializer),
{
    match type_id {
        0 => {
            proof {
                assert(deserializer@.skip(0) =~= deserializer@);
            }
            Ok(NbtTag::End)
        },
        1 => match i8::mc_deserialize(deserializer) {
            Ok(v) => Ok(NbtTag::Byte(v)),
            Err(e) => Err(e),
        },
        2 => match i16::mc_deserialize(deserializer) {
            Ok(v) => Ok(NbtTag::Short(v)),
            Err(e) => Err(e),
        },
        3 => match i32::mc_deserialize(deserializer) {
            Ok(v) => Ok(NbtTag::Int(v)),
            Err(e) => Err(e),
        },
        4 => match i64::mc_deserialize(deserializer) {
            Ok(v) => Ok(NbtTag::Long(v)),
            Err(e) => Err(e),
        },
        5 => match u32::mc_deserialize(deserializer) {
            Ok(v) => Ok(NbtTag::Float(v)),
            Err(e) => Err(e),
        },
        6 => match u64::mc_deserialize(deserializer) {
            Ok(v) => Ok(NbtTag::Double(v)),
            Err(e) => Err(e),
        },
        7 => match deserialize_array::<i8>(deserializer) {
            Ok(v) => {
                proof {
                    lemma_views_of_i8(v@);
                }
                Ok(NbtTag::ByteArray(NbtByteArray::new(v)))
            },
            Err(e) => Err(e),
        },
        8 => match deserialize_nbt_string(deserializer) {
            Ok(v) => Ok(NbtTag::String(v)),
            Err(e) => Err(e),
        },
        11 => match deserialize_array::<i32>(deserializer) {
            Ok(v) => {
                proof {
                    lemma_views_of_i32(v@);
                }
                Ok(NbtTag::IntArray(NbtIntArray::new(v)))
            },
            Err(e) => Err(e),
        },
        12 => match deserialize_array::<i64>(deserializer) {
            Ok(v) => {
                proof {
                    lemma_views_of_i64(v@);
                }
                Ok(NbtTag::LongArray(NbtLongArray::new(v)))
            },
            Err(e) => Err(e),
        },
        _ => Err(SerializingErr::InvalidTagType),
    }
}

/// Reads the payload of a tag of type `type_id`. Where that fails nothing
/// is read.
pub fn deserialize_payload(type_id: u8, deserializer: &mut McDeserializer) -> (r: Result<
    NbtTag,
    SerializingErr,
>)
    ensures
        match spec_read_payload(type_id, old(deserializer)@) {
            Ok((value, len)) => r is Ok && r->Ok_0@ == value && len <= old(deserializer)@.len()
                && final(deserializer)@ == old(deserializer)@.skip(len as int),
            Err(e) => r is Err && r->Err_0 == e && *final(deserializer) == *old(deserializer),
        },
    decreases old(deserializer)@.len(), 1nat,
{
    match type_id {
        9 => match deserialize_list(deserializer) {
            Ok(v) => Ok(NbtTag::List(v)),
            Err(e) => Err(e),
        },
        10 => match deserialize_compound_body(deserializer, String::new()) {
            Ok(v) => {
                proof {
                    v.lemma_view_entries();
                }
                Ok(NbtTag::Compound(v))
            },
            Err(e) => Err(e),
        },
        _ => deserialize_leaf(type_id, deserializer),
    }
}

/// Reads the payload of a list: the type id of its elements, their count,
/// their payloads. Where that fails nothing is read.
pub fn deserialize_list(deserializer: &mut McDeserializer) -> (r: Result<NbtList, SerializingErr>)
    ensures
        match spec_read_payload(9, old(deserializer)@) {
            Ok((value, len)) => r is Ok && r->Ok_0@ == value && len <= old(deserializer)@.len()
                && final(deserializer)@ == old(deserializer)@.skip(len as int),
            Err(e) => r is Err && r->Err_0 == e && *final(deserializer) == *old(deserializer),
        },
    decreases old(deserializer)@.len(), 0nat,
{
    let saved = *deserializer;
    let ghost input = deserializer@;
    let type_id: u8 = match deserializer.pop() {
        Some(type_id) => type_id,
        None => {
            return Err(SerializingErr::InputEnded);
        },
    };
    let count: usize = match deserialize_count(deserializer) {
        Ok(count) => count,
        Err(e) => {
            *deserializer = saved;
            return Err(e);
        },
    };
    if type_id == 0 && count > 0 {
        *deserializer = saved;
        return Err(SerializingErr::InvalidTagType);
    }
    let mut list = NbtList { type_id, list: Vec::new() };
    let ghost mut consumed: nat = 0;
    let mut i: usize = 0;
    proof {
        assert(list.spec_items() =~= Seq::<NbtValue>::empty());
        assert(input.skip(1).skip(4) =~= input.skip(5));
        assert(input.skip(5).skip(0) =~= input.skip(5));
    }
    while i < count
        invariant
            i <= count,
            saved == *old(deserializer),
            input == old(deserializer)@,
            list.type_id == type_id,
            5 + consumed <= input.len(),
            input[0] == type_id,
            spec_read_count(input.skip(1)) == Ok::<nat, SerializingErr>(count as nat),
            !(type_id == 0 && count > 0),
            deserializer@ == input.skip(5).skip(consumed as int),
            spec_read_items(type_id, count as nat, input.skip(5), Seq::empty(), 0)
                == spec_read_items(
                type_id,
                (count - i) as nat,
                deserializer@,
                list.spec_items(),
                consumed,
            ),
        decreases count - i,
    {
        let ghost before = list.spec_items();
        let ghost here = deserializer@;
        match deserialize_payload(type_id, deserializer) {
            Ok(item) => {
                let ghost n = spec_read_payload(type_id, here)->Ok_0.1;
                list.list.push(item);
                proof {
                    assert(list.spec_items() =~= before.push(item@));
                    assert(input.skip(5).skip(consumed as int).skip(n as int) =~= input.skip(
                        5,
                    ).skip((consumed + n) as int));
                    consumed = consumed + n;
                }
            },
            Err(e) => {
                *deserializer = saved;
                return Err(e);
            },
        }
        i = i + 1;
    }
    proof {
        assert(input.skip(5).skip(consumed as int) =~= input.skip((5 + consumed) as int));
    }
    Ok(list)
}

/// Reads the body of a compound into a compound of the name `root_name`:
/// entries up to a zero byte. Where that fails nothing is read.
pub fn deserialize_compound_body(deserializer: &mut McDeserializer, root_name: String) -> (r:
    Result<NbtCompound, SerializingErr>)
    ensures
        match spec_read_entries(old(deserializer)@, Seq::empty(), 0) {
            Ok((entries, len)) => r is Ok && r->Ok_0@ == (NbtCompoundView {
                root_name: root_name@,
                entries,
            }) && len <= old(deserializer)@.len() && final(deserializer)@ == old(deserializer)@.skip(len as int),
            Err(e) => r is Err && r->Err_0 == e && *final(deserializer) == *old(deserializer),
        },
    decreases old(deserializer)@.len(), 0nat,
{
    let saved = *deserializer;
    let ghost input = deserializer@;
    let mut compound = NbtCompound::new(root_name);
    let ghost mut consumed: nat = 0;
    proof {
        assert(input.skip(0) =~= input);
    }
    loop
        invariant
            saved == *old(deserializer),
            input == old(deserializer)@,
            compound@.root_name == root_name@,
            consumed <= input.len(),
            deserializer@ == input.skip(consumed as int),
            spec_read_entries(input, Seq::empty(), 0) == spec_read_entries(
                deserializer@,
                compound@.entries,
                consumed,
            ),
        decreases deserializer@.len(),
    {
        let ghost here = deserializer@;
        let type_id: u8 = match deserializer.pop() {
            Some(type_id) => type_id,
            None => {
                *deserializer = saved;
                return Err(SerializingErr::InputEnded);
            },
        };
        if type_id == 0 {
            proof {
                assert(input.skip(consumed as int).skip(1) =~= input.skip((consumed + 1) as int));
            }
            return Ok(compound);
        }
        let name = match deserialize_nbt_string(deserializer) {
            Ok(name) => name,
            Err(e) => {
                *deserializer = saved;
                return Err(e);
            },
        };
        let ghost k = spec_read_nbt_string(here.skip(1))->Ok_0.1;
        proof {
            assert(here.skip(1).skip(k as int) =~= here.skip((1 + k) as int));
        }
        let tag = match deserialize_payload(type_id, deserializer) {
            Ok(tag) => tag,
            Err(e) => {
                *deserializer = saved;
                return Err(e);
            },
        };
        let ghost n = spec_read_payload(type_id, here.skip((1 + k) as int))->Ok_0.1;
        compound.add(name, tag);
        proof {
            assert(here.skip((1 + k) as int).skip(n as int) =~= here.skip((1 + k + n) as int));
            assert(input.skip(consumed as int).skip((1 + k + n) as int) =~= input.skip(
                (consumed + 1 + k + n) as int,
            ));
            consumed = consumed + 1 + k + n;
        }
    }
}

/// A tag behind its type id at the front of `bytes`: one byte that says the
/// type, then the payload of that type. The type id 0 alone is the `End`
/// tag.
pub open spec fn spec_read_tag(bytes: Seq<u8>) -> Result<(NbtValue, nat), SerializingErr> {
    if bytes.len() == 0 {
        Err(SerializingErr::InputEnded)
    } else {
        match spec_read_payload(bytes[0], bytes.skip(1)) {
            Ok((value, len)) => Ok((value, 1 + len)),
            Err(e) => Err(e),
        }
    }
}

/// Reads a tag behind its type id. Where that fails nothing is read.
pub fn deserialize_tag(deserializer: &mut McDeserializer) -> (r: Result<NbtTag, SerializingErr>)
    ensures
        match spec_read_tag(old(deserializer)@) {
            Ok((value, len)) => r is Ok && r->Ok_0@ == value && len <= old(deserializer)@.len()
                && final(deserializer)@ == old(deserializer)@.skip(len as int),
            Err(e) => r is Err && r->Err_0 == e && *final(deserializer) == *old(deserializer),
        },
{
    let saved = *deserializer;
    let ghost input = deserializer@;
    let type_id: u8 = match deserializer.pop() {
        Some(type_id) => type_id,
        None => {
            return Err(SerializingErr::InputEnded);
        },
    };
    match deserialize_payload(type_id, deserializer) {
        Ok(tag) => {
            proof {
                let len = spec_read_payload(type_id, input.skip(1))->Ok_0.1;
                assert(input.skip(1).skip(len as int) =~= input.skip((1 + len) as int));
            }
            Ok(tag)
        },
        Err(e) => {
            *deserializer = saved;
            Err(e)
        },
    }
}

impl McDeserialize for NbtTag {
    /// A tag behind its type id. What `mc_serialize` writes for a tag is
    /// its payload alone, so this reads it back only behind the byte of its
    /// type.
    open spec fn spec_deserialize(bytes: Seq<u8>) -> Result<(NbtValue, nat), SerializingErr> {
        spec_read_tag(bytes)
    }

    fn mc_deserialize<'a>(deserializer: &mut McDeserializer<'a>) -> (r: Result<
        Self,
        SerializingErr,
    >) {
        deserialize_tag(deserializer)
    }
}

impl McDeserialize for NbtList {
    /// The payload of a list.
    open spec fn spec_deserialize(bytes: Seq<u8>) -> Result<(NbtValue, nat), SerializingErr> {
        spec_read_payload(9, bytes)
    }

    fn mc_deserialize<'a>(deserializer: &mut McDeserializer<'a>) -> (r: Result<
        Self,
        SerializingErr,
    >) {
        deserialize_list(deserializer)
    }
}

impl McDeserialize for NbtCompound {
    /// A root compound in the named form.
    open spec fn spec_deserialize(bytes: Seq<u8>) -> Result<
        (NbtCompoundView, nat),
        SerializingErr,
    > {
        spec_read_named_root(bytes)
    }

    fn mc_deserialize<'a>(deserializer: &mut McDeserializer<'a>) -> (r: Result<
        Self,
        SerializingErr,
    >) {
        let saved = *deserializer;
        let ghost input = deserializer@;
        match deserializer.pop() {
            Some(type_id) => {
                if type_id != TAG_COMPOUND {
                    *deserializer = saved;
                    return Err(SerializingErr::InvalidTagType);
                }
            },
            None => {
                return Err(SerializingErr::InputEnded);
            },
        }
        let root_name = match deserialize_nbt_string(deserializer) {
            Ok(root_name) => root_name,
            Err(e) => {
                *deserializer = saved;
                return Err(e);
            },
        };
        let ghost k = spec_read_nbt_string(input.skip(1))->Ok_0.1;
        proof {
            assert(input.skip(1).skip(k as int) =~= input.skip((1 + k) as int));
        }
        match deserialize_compound_body(deserializer, root_name) {
            Ok(compound) => {
                proof {
                    let n = spec_read_entries(input.skip((1 + k) as int), Seq::empty(), 0)->Ok_0.1;
                    assert(input.skip((1 + k) as int).skip(n as int) =~= input.skip(
                        (1 + k + n) as int,
                    ));
                }
                Ok(compound)
            },
            Err(e) => {
                *deserializer = saved;
                Err(e)
            },
        }
    }
}

impl NbtCompound {
    /// Reads a root compound in the network form, which has no root name.
    /// Where that fails nothing is read.
    pub fn mc_deserialize_network(deserializer: &mut McDeserializer) -> (r: Result<
        Self,
        SerializingErr,
    >)
        ensures
            match spec_read_network_root(old(deserializer)@) {
                Ok((value, len)) => r is Ok && r->Ok_0@ == value && len <= old(deserializer)@.len()
                    && final(deserializer)@ == old(deserializer)@.skip(len as int),
                Err(e) => r is Err && r->Err_0 == e && *final(deserializer) == *old(deserializer),
            },
    {
        let saved = *deserializer;
        let ghost input = deserializer@;
        match deserializer.pop() {
            Some(type_id) => {
                if type_id != TAG_COMPOUND {
                    *deserializer = saved;
                    return Err(SerializingErr::InvalidTagType);
                }
            },
            None => {
                return Err(SerializingErr::InputEnded);
            },
        }
        match deserialize_compound_body(deserializer, String::new()) {
            Ok(compound) => {
                proof {
                    let n = spec_read_entries(input.skip(1), Seq::empty(), 0)->Ok_0.1;
                    assert(input.skip(1).skip(n as int) =~= input.skip((1 + n) as int));
                }
                Ok(compound)
            },
            Err(e) => {
                *deserializer = saved;
                Err(e)
            },
        }
    }
}

} // verus!
