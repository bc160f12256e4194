//! Writing NBT.
//!
//! A payload carries neither type id nor name: a list and a compound write
//! those for their elements themselves. A root compound is written as the
//! type id 10, then, in the named form only, its name, then its body.

use crate::packets::serialization::primitives::{spec_be_bytes, write_be};
use crate::packets::serialization::serializer_error::SerializingErr;
use crate::packets::serialization::serializer_handler::{McSerialize, McSerializer};
use crate::protocol_details::datatypes::nbt::nbt::{
    spec_list_valid, NbtCompound, NbtCompoundView, NbtEntry, NbtList, NbtTag, NbtValue,
};
use crate::protocol_details::datatypes::nbt::unique::{
    names_distinct, spec_unique_entries, spec_unique_names,
};
use vstd::prelude::*;
use vstd::utf8::encode_utf8;

verus! {

/// The type id of a compound.
pub const TAG_COMPOUND: u8 = 10;

/// The longest name or string, in bytes of UTF-8.
pub const MAX_NBT_STRING_BYTES: usize = 65535;

/// A string inside NBT: its UTF-8 bytes behind their count as an unsigned
/// 16-bit integer.
pub open spec fn spec_nbt_string_bytes(text: Seq<char>) -> Result<Seq<u8>, SerializingErr> {
    let body = encode_utf8(text);
    if body.len() > MAX_NBT_STRING_BYTES {
        Err(SerializingErr::LengthExceedsBound)
    } else {
        Ok(spec_be_bytes(body.len(), 2) + body)
    }
}

/// The wire forms of `items` one after the other, or the first reason why
/// one of them has none.
pub open spec fn spec_elements_bytes<T: McSerialize>(items: Seq<T>) -> Result<
    Seq<u8>,
    SerializingErr,
>
    decreases items.len(),
{
    if items.len() == 0 {
        Ok(Seq::empty())
    } else {
        match spec_elements_bytes(items.drop_last()) {
            Ok(front) => match items.last().spec_serialize() {
                Ok(bytes) => Ok(front + bytes),
                Err(e) => Err(e),
            },
            Err(e) => Err(e),
        }
    }
}

/// The payload of an array: the count as a signed 32-bit integer, then the
/// elements.
pub open spec fn spec_array_payload<T: McSerialize>(items: Seq<T>) -> Result<
    Seq<u8>,
    SerializingErr,
> {
    if items.len() > i32::MAX {
        Err(SerializingErr::LengthExceedsBound)
    } else {
        match spec_elements_bytes(items) {
            Ok(bytes) => Ok(spec_be_bytes(items.len(), 4) + bytes),
            Err(e) => Err(e),
        }
    }
}

/// The payload of a tag, or why it has none: a string or a name is too
/// long, an array or a list has too many elements, or a list holds a tag
/// that is not of its type.
pub open spec fn spec_payload(value: NbtValue) -> Result<Seq<u8>, SerializingErr>
    decreases value, 0nat,
{
    match value {
        NbtValue::End => Ok(Seq::empty()),
        NbtValue::Byte(v) => v.spec_serialize(),
        NbtValue::Short(v) => v.spec_serialize(),
        NbtValue::Int(v) => v.spec_serialize(),
        NbtValue::Long(v) => v.spec_serialize(),
        NbtValue::Float(v) => v.spec_serialize(),
        NbtValue::Double(v) => v.spec_serialize(),
        NbtValue::ByteArray(v) => spec_array_payload(v),
        NbtValue::String(v) => spec_nbt_string_bytes(v),
        NbtValue::List { type_id, items } => if !spec_list_valid(type_id, items) {
            Err(SerializingErr::InvalidTagType)
        } else if items.len() > i32::MAX {
            Err(SerializingErr::LengthExceedsBound)
        } else {
            match spec_items_bytes(items) {
                Ok(bytes) => Ok(seq![type_id] + spec_be_bytes(items.len(), 4) + bytes),
                Err(e) => Err(e),
            }
        },
        NbtValue::Compound(entries) => spec_compound_body(entries),
        NbtValue::IntArray(v) => spec_array_payload(v),
        NbtValue::LongArray(v) => spec_array_payload(v),
    }
}

/// The payloads of `items` one after the other.
pub open spec fn spec_items_bytes(items: Seq<NbtValue>) -> Result<Seq<u8>, SerializingErr>
    decreases items, 0nat,
{
    if items.len() == 0 {
        Ok(Seq::empty())
    } else {
        match spec_items_bytes(items.drop_last()) {
            Ok(front) => match spec_payload(items.last()) {
                Ok(bytes) => Ok(front + bytes),
                Err(e) => Err(e),
            },
            Err(e) => Err(e),
        }
    }
}

/// One entry of a compound: the type id of its tag, its name, the payload.
/// An `End` tag cannot be an entry.
pub open spec fn spec_entry_bytes(entry: NbtEntry) -> Result<Seq<u8>, SerializingErr>
    decreases entry, 0nat,
{
    if entry.value.type_id() == 0 {
        Err(SerializingErr::InvalidTagType)
    } else {
        match spec_nbt_string_bytes(entry.name) {
            Ok(name) => match spec_payload(entry.value) {
                Ok(payload) => Ok(seq![entry.value.type_id()] + name + payload),
                Err(e) => Err(e),
            },
            Err(e) => Err(e),
        }
    }
}

/// The entries of a compound one after the other, in their order.
pub open spec fn spec_entries_bytes(entries: Seq<NbtEntry>) -> Result<Seq<u8>, SerializingErr>
    decreases entries, 0nat,
{
    if entries.len() == 0 {
        Ok(Seq::empty())
    } else {
        match spec_entries_bytes(entries.drop_last()) {
            Ok(front) => match spec_entry_bytes(entries.last()) {
                Ok(bytes) => Ok(front + bytes),
                Err(e) => Err(e),
            },
            Err(e) => Err(e),
        }
    }
}

/// The body of a compound: its entries, then a single zero byte.
pub open spec fn spec_compound_body(entries: Seq<NbtEntry>) -> Result<Seq<u8>, SerializingErr>
    decreases entries, 1nat,
{
    match spec_entries_bytes(entries) {
        Ok(bytes) => Ok(bytes.push(0u8)),
        Err(e) => Err(e),
    }
}

/// A root compound in the named form: the type id 10, the root name, the
/// body.
pub open spec fn spec_named_root(compound: NbtCompoundView) -> Result<Seq<u8>, SerializingErr> {
    match spec_nbt_string_bytes(compound.root_name) {
        Ok(name) => match spec_compound_body(compound.entries) {
            Ok(body) => Ok(seq![TAG_COMPOUND] + name + body),
            Err(e) => Err(e),
        },
        Err(e) => Err(e),
    }
}

/// A root compound in the network form: the type id 10, then the body. The
/// root name is not written.
pub open spec fn spec_network_root(compound: NbtCompoundView) -> Result<Seq<u8>, SerializingErr> {
    match spec_compound_body(compound.entries) {
        Ok(body) => Ok(seq![TAG_COMPOUND] + body),
        Err(e) => Err(e),
    }
}

/// The first element without a wire form decides the failure of the whole
/// sequence.
pub proof fn lemma_elements_prefix_err<T: McSerialize>(items: Seq<T>, k: int)
    requires
        0 <= k <= items.len(),
        spec_elements_bytes(items.take(k)) is Err,
    ensures
        spec_elements_bytes(items) == spec_elements_bytes(items.take(k)),
    decreases items.len() - k,
{
    if k < items.len() {
        assert(items.take(k + 1).drop_last() =~= items.take(k));
        lemma_elements_prefix_err(items, k + 1);
    } else {
        assert(items.take(k) =~= items);
    }
}

/// The first item without a payload decides the failure of the whole
/// sequence.
pub proof fn lemma_items_prefix_err(items: Seq<NbtValue>, k: int)
    requires
        0 <= k <= items.len(),
        spec_items_bytes(items.take(k)) is Err,
    ensures
        spec_items_bytes(items) == spec_items_bytes(items.take(k)),
    decreases items.len() - k,
{
    if k < items.len() {
        assert(items.take(k + 1).drop_last() =~= items.take(k));
        lemma_items_prefix_err(items, k + 1);
    } else {
        assert(items.take(k) =~= items);
    }
}

/// The first entry without a wire form decides the failure of the whole
/// compound.
pub proof fn lemma_entries_prefix_err(entries: Seq<NbtEntry>, k: int)
    requires
        0 <= k <= entries.len(),
        spec_entries_bytes(entries.take(k)) is Err,
    ensures
        spec_entries_bytes(entries) == spec_entries_bytes(entries.take(k)),
    decreases entries.len() - k,
{
    if k < entries.len() {
        assert(entries.take(k + 1).drop_last() =~= entries.take(k));
        lemma_entries_prefix_err(entries, k + 1);
    } else {
        assert(entries.take(k) =~= entries);
    }
}

/// Writes a string as NBT has it. Where it is too long, nothing is written.
pub fn serialize_nbt_string(text: &str, serializer: &mut McSerializer) -> (r: Result<
    (),
    SerializingErr,
>)
    ensures
        match spec_nbt_string_bytes(text@) {
            Ok(bytes) => r is Ok && final(serializer)@ == old(serializer)@ + bytes,
            Err(e) => r == Err::<(), SerializingErr>(e) && final(serializer)@ == old(serializer)@,
        },
{
    let body = text.as_bytes();
    if body.len() > MAX_NBT_STRING_BYTES {
        return Err(SerializingErr::LengthExceedsBound);
    }
    write_be(body.len() as u128, 2, serializer);
    serializer.serialize_bytes(body);
    proof {
        assert(serializer@ =~= old(serializer)@ + (spec_be_bytes(body@.len(), 2) + body@));
    }
    Ok(())
}

/// Writes the payload of an array. Where it has none, nothing is written.
pub fn serialize_array<T: McSerialize>(items: &Vec<T>, serializer: &mut McSerializer) -> (r:
    Result<(), SerializingErr>)
    ensures
        match spec_array_payload(items@) {
            Ok(bytes) => r is Ok && final(serializer)@ == old(serializer)@ + bytes,
            Err(e) => r == Err::<(), SerializingErr>(e) && final(serializer)@ == old(serializer)@,
        },
{
    if items.len() > i32::MAX as usize {
        return Err(SerializingErr::LengthExceedsBound);
    }
    let start: usize = serializer.len();
    write_be(items.len() as u128, 4, serializer);
    let ghost count = spec_be_bytes(items@.len(), 4);
    let mut i: usize = 0;
    while i < items.len()
        invariant
            i <= items@.len() <= i32::MAX,
            start == old(serializer)@.len(),
            count == spec_be_bytes(items@.len(), 4),
            spec_elements_bytes(items@.take(i as int)) is Ok,
            serializer@ == old(serializer)@ + count + spec_elements_bytes(
                items@.take(i as int),
            )->Ok_0,
        decreases items@.len() - i,
    {
        proof {
            assert(items@.take(i + 1).drop_last() =~= items@.take(i as int));
        }
        match items[i].mc_serialize(serializer) {
            Ok(()) => {
                proof {
                    let front = spec_elements_bytes(items@.take(i as int))->Ok_0;
                    let bytes = items@[i as int].spec_serialize()->Ok_0;
                    assert(serializer@ =~= old(serializer)@ + count + (front + bytes));
                }
            },
            Err(e) => {
                proof {
                    assert(items@.take(i + 1).last() == items@[i as int]);
                    assert(spec_elements_bytes(items@.take(i + 1)) == Err::<
                        Seq<u8>,
                        SerializingErr,
                    >(e));
                    lemma_elements_prefix_err(items@, (i + 1) as int);
                }
                serializer.truncate(start);
                proof {
                    assert(serializer@ =~= old(serializer)@);
                }
                return Err(e);
            },
        }
        i = i + 1;
    }
    proof {
        assert(items@.take(i as int) =~= items@);
        let all = spec_elements_bytes(items@)->Ok_0;
        assert(serializer@ =~= old(serializer)@ + (count + all));
    }
    Ok(())
}

/// Whether every element of `list` has the list's type, and the type of a
/// list with elements is not `End`.
pub fn list_is_valid(list: &NbtList) -> (valid: bool)
    ensures
        valid == spec_list_valid(list.type_id, list.spec_items()),
{
    if list.list.len() > 0 && list.type_id == 0 {
        return false;
    }
    let mut i: usize = 0;
    while i < list.list.len()
        invariant
            i <= list.list@.len(),
            forall|j: int| 0 <= j < i ==> (#[trigger] list.spec_items()[j]).type_id() == list.type_id,
        decreases list.list@.len() - i,
    {
        if list.list[i].get_type_id() != list.type_id {
            proof {
                assert(list.spec_items()[i as int].type_id() != list.type_id);
            }
            return false;
        }
        i = i + 1;
    }
    true
}

/// Writes the payload of `tag`. Where it has none, nothing is written.
pub fn serialize_payload(tag: &NbtTag, serializer: &mut McSerializer) -> (r: Result<
    (),
    SerializingErr,
>)
    ensures
        match spec_payload(tag@) {
            Ok(bytes) => r is Ok && final(serializer)@ == old(serializer)@ + bytes,
            Err(e) => r == Err::<(), SerializingErr>(e) && final(serializer)@ == old(serializer)@,
        },
        r is Ok ==> spec_unique_names(tag@),
    decreases tag, 0nat,
{
    match tag {
        NbtTag::End => {
            proof {
                assert(serializer@ =~= old(serializer)@ + Seq::<u8>::empty());
            }
            Ok(())
        },
        NbtTag::Byte(v) => v.mc_serialize(serializer),
        NbtTag::Short(v) => v.mc_serialize(serializer),
        NbtTag::Int(v) => v.mc_serialize(serializer),
        NbtTag::Long(v) => v.mc_serialize(serializer),
        NbtTag::Float(v) => v.mc_serialize(serializer),
        NbtTag::Double(v) => v.mc_serialize(serializer),
        NbtTag::ByteArray(v) => serialize_array(&v.list, serializer),
        NbtTag::String(v) => serialize_nbt_string(v.as_str(), serializer),
        NbtTag::List(v) => {
            proof {
                assert(decreases_to!(tag => tag->List_0));
            }
            serialize_list(v, serializer)
        },
        NbtTag::Compound(v) => {
            proof {
                assert(decreases_to!(tag => tag->Compound_0));
                v.lemma_view_entries();
            }
            serialize_compound_body(v, serializer)
        },
        NbtTag::IntArray(v) => serialize_array(&v.list, serializer),
        NbtTag::LongArray(v) => serialize_array(&v.list, serializer),
    }
}

/// Writes the payload of a list: the type id of its elements, their count,
/// their payloads. Where it has none, nothing is written.
pub fn serialize_list(list: &NbtList, serializer: &mut McSerializer) -> (r: Result<
    (),
    SerializingErr,
>)
    ensures
        match spec_payload(list@) {
            Ok(bytes) => r is Ok && final(serializer)@ == old(serializer)@ + bytes,
            Err(e) => r == Err::<(), SerializingErr>(e) && final(serializer)@ == old(serializer)@,
        },
        r is Ok ==> spec_unique_names(list@),
    decreases list, 0nat,
{
    if !list_is_valid(list) {
        return Err(SerializingErr::InvalidTagType);
    }
    if list.list.len() > i32::MAX as usize {
        return Err(SerializingErr::LengthExceedsBound);
    }
    let ghost items = list.spec_items();
    let start: usize = serializer.len();
    serializer.serialize_u8(list.type_id);
    write_be(list.list.len() as u128, 4, serializer);
    let ghost head = seq![list.type_id] + spec_be_bytes(items.len(), 4);
    proof {
        assert(serializer@ =~= old(serializer)@ + head);
    }
    let mut i: usize = 0;
    while i < list.list.len()
        invariant
            i <= list.list@.len() <= i32::MAX,
            items == list.spec_items(),
            spec_list_valid(list.type_id, items),
            start == old(serializer)@.len(),
            head == seq![list.type_id] + spec_be_bytes(items.len(), 4),
            spec_items_bytes(items.take(i as int)) is Ok,
            forall|j: int| 0 <= j < i ==> spec_unique_names(#[trigger] items[j]),
            serializer@ == old(serializer)@ + head + spec_items_bytes(items.take(i as int))->Ok_0,
        decreases list.list@.len() - i,
    {
        proof {
            assert(items.take(i + 1).drop_last() =~= items.take(i as int));
            assert(items.take(i + 1).last() == list.list@[i as int]@);
            assert(decreases_to!(list => list.list));
            assert(decreases_to!(list.list => list.list[i as int]));
        }
        match serialize_payload(&list.list[i], serializer) {
            Ok(()) => {
                proof {
                    let front = spec_items_bytes(items.take(i as int))->Ok_0;
                    let bytes = spec_payload(list.list@[i as int]@)->Ok_0;
                    assert(serializer@ =~= old(serializer)@ + head + (front + bytes));
                }
            },
            Err(e) => {
                proof {
                    assert(spec_items_bytes(items.take(i + 1)) == Err::<Seq<u8>, SerializingErr>(
                        e,
                    ));
                    lemma_items_prefix_err(items, (i + 1) as int);
                    assert(spec_items_bytes(items) == Err::<Seq<u8>, SerializingErr>(e));
                    assert(spec_payload(list@) == Err::<Seq<u8>, SerializingErr>(e));
                }
                serializer.truncate(start);
                proof {
                    assert(serializer@ =~= old(serializer)@);
                }
                return Err(e);
            },
        }
        i = i + 1;
    }
    proof {
        assert(items.take(i as int) =~= items);
        let all = spec_items_bytes(items)->Ok_0;
        assert(serializer@ =~= old(serializer)@ + (head + all));
    }
    Ok(())
}

/// Writes one entry of a compound: the type id of its tag, its name, the
/// payload. Where the entry has no wire form, nothing is written.
pub fn serialize_entry(name: &str, tag: &NbtTag, serializer: &mut McSerializer) -> (r: Result<
    (),
    SerializingErr,
>)
    ensures
        match spec_entry_bytes(NbtEntry { name: name@, value: tag@ }) {
            Ok(bytes) => r is Ok && final(serializer)@ == old(serializer)@ + bytes,
            Err(e) => r == Err::<(), SerializingErr>(e) && final(serializer)@ == old(serializer)@,
        },
        r is Ok ==> spec_unique_names(tag@),
    decreases tag, 1nat,
{
    let start: usize = serializer.len();
    let id: u8 = tag.get_type_id();
    if id == 0 {
        return Err(SerializingErr::InvalidTagType);
    }
    serializer.serialize_u8(id);
    match serialize_nbt_string(name, serializer) {
        Ok(()) => {},
        Err(e) => {
            serializer.truncate(start);
            proof {
                assert(serializer@ =~= old(serializer)@);
            }
            return Err(e);
        },
    }
    match serialize_payload(tag, serializer) {
        Ok(()) => {
            proof {
                let name_bytes = spec_nbt_string_bytes(name@)->Ok_0;
                let payload = spec_payload(tag@)->Ok_0;
                assert(serializer@ =~= old(serializer)@ + (seq![id] + name_bytes + payload));
            }
            Ok(())
        },
        Err(e) => {
            serializer.truncate(start);
            proof {
                assert(serializer@ =~= old(serializer)@);
            }
            Err(e)
        },
    }
}

/// Writes the body of a compound: its entries in insertion order, then a
/// zero byte. Where the compound has no body, nothing is written.
pub fn serialize_compound_body(compound: &NbtCompound, serializer: &mut McSerializer) -> (r:
    Result<(), SerializingErr>)
    ensures
        match spec_compound_body(compound@.entries) {
            Ok(bytes) => r is Ok && final(serializer)@ == old(serializer)@ + bytes,
            Err(e) => r == Err::<(), SerializingErr>(e) && final(serializer)@ == old(serializer)@,
        },
        r is Ok ==> spec_unique_entries(compound@.entries),
    decreases compound, 0nat,
{
    let ghost entries = compound@.entries;
    let start: usize = serializer.len();
    let count: usize = compound.len();
    let mut i: usize = 0;
    proof {
        assert(serializer@ =~= old(serializer)@ + Seq::<u8>::empty());
        reveal(names_distinct);
    }
    while i < count
        invariant
            i <= count == entries.len(),
            entries == compound@.entries,
            start == old(serializer)@.len(),
            spec_entries_bytes(entries.take(i as int)) is Ok,
            names_distinct(entries),
            forall|j: int| 0 <= j < i ==> spec_unique_names((#[trigger] entries[j]).value),
            serializer@ == old(serializer)@ + spec_entries_bytes(entries.take(i as int))->Ok_0,
        decreases count - i,
    {
        proof {
            assert(entries.take(i + 1).drop_last() =~= entries.take(i as int));
            assert(entries.take(i + 1).last() == entries[i as int]);
        }
        let ghost front = spec_entries_bytes(entries.take(i as int))->Ok_0;
        let (name, tag) = match (compound.name_at(i), compound.tag_at(i)) {
            (Some(name), Some(tag)) => (name, tag),
            _ => {
                return Err(SerializingErr::InvalidTagType);
            },
        };
        proof {
            assert(entries[i as int] == (NbtEntry { name: name@, value: tag@ }));
        }
        match serialize_entry(name.as_str(), tag, serializer) {
            Ok(()) => {
                proof {
                    let bytes = spec_entry_bytes(entries[i as int])->Ok_0;
                    assert(serializer@ =~= old(serializer)@ + (front + bytes));
                }
            },
            Err(e) => {
                proof {
                    assert(spec_entries_bytes(entries.take(i + 1)) == Err::<
                        Seq<u8>,
                        SerializingErr,
                    >(e));
                    lemma_entries_prefix_err(entries, (i + 1) as int);
                }
                serializer.truncate(start);
                proof {
                    assert(serializer@ =~= old(serializer)@);
                }
                return Err(e);
            },
        }
        i = i + 1;
    }
    serializer.serialize_u8(0);
    proof {
        assert(entries.take(i as int) =~= entries);
        let all = spec_entries_bytes(entries)->Ok_0;
        assert(serializer@ =~= old(serializer)@ + all.push(0u8));
    }
    Ok(())
}

impl McSerialize for NbtTag {
    /// The payload of the tag, without type id and name.
    open spec fn spec_serialize(&self) -> Result<Seq<u8>, SerializingErr> {
        spec_payload(self@)
    }

    fn mc_serialize(&self, serializer: &mut McSerializer) -> (r: Result<(), SerializingErr>)
        ensures
            r is Ok ==> spec_unique_names(self@),
    {
        serialize_payload(self, serializer)
    }
}

impl McSerialize for NbtList {
    /// The payload of the list.
    open spec fn spec_serialize(&self) -> Result<Seq<u8>, SerializingErr> {
        spec_payload(self@)
    }

    fn mc_serialize(&self, serializer: &mut McSerializer) -> (r: Result<(), SerializingErr>)
        ensures
            r is Ok ==> spec_unique_names(self@),
    {
        serialize_list(self, serializer)
    }
}

impl McSerialize for NbtCompound {
    /// The compound as the root of a named tree.
    open spec fn spec_serialize(&self) -> Result<Seq<u8>, SerializingErr> {
        spec_named_root(self@)
    }

    fn mc_serialize(&self, serializer: &mut McSerializer) -> (r: Result<(), SerializingErr>)
        ensures
            r is Ok ==> spec_unique_entries(self@.entries),
    {
        let start: usize = serializer.len();
        serializer.serialize_u8(TAG_COMPOUND);
        match serialize_nbt_string(self.root_name().as_str(), serializer) {
            Ok(()) => {},
            Err(e) => {
                serializer.truncate(start);
                proof {
                    assert(serializer@ =~= old(serializer)@);
                }
                return Err(e);
            },
        }
        match serialize_compound_body(self, serializer) {
            Ok(()) => {
                proof {
                    let name = spec_nbt_string_bytes(self@.root_name)->Ok_0;
                    let body = spec_compound_body(self@.entries)->Ok_0;
                    assert(serializer@ =~= old(serializer)@ + (seq![TAG_COMPOUND] + name + body));
                }
                Ok(())
            },
            Err(e) => {
                serializer.truncate(start);
                proof {
                    assert(serializer@ =~= old(serializer)@);
                }
                Err(e)
            },
        }
    }
}

impl NbtCompound {
    /// Writes the compound as the root of a tree in the network form, which
    /// has no root name.
    pub fn mc_serialize_network(&self, serializer: &mut McSerializer) -> (r: Result<
        (),
        SerializingErr,
    >)
        ensures
            match spec_network_root(self@) {
                Ok(bytes) => r is Ok && final(serializer)@ == old(serializer)@ + bytes,
                Err(e) => r == Err::<(), SerializingErr>(e) && final(serializer)@ == old(serializer)@,
            },
            r is Ok ==> spec_unique_entries(self@.entries),
    {
        let start: usize = serializer.len();
        serializer.serialize_u8(TAG_COMPOUND);
        match serialize_compound_body(self, serializer) {
            Ok(()) => {
                proof {
                    let body = spec_compound_body(self@.entries)->Ok_0;
                    assert(serializer@ =~= old(serializer)@ + (seq![TAG_COMPOUND] + body));
                }
                Ok(())
            },
            Err(e) => {
                serializer.truncate(start);
                proof {
                    assert(serializer@ =~= old(serializer)@);
                }
                Err(e)
            },
        }
    }
}

} // verus!
