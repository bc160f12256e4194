//! What holds between writing and reading NBT.

use crate::packets::serialization::primitives::{
    lemma_pow256_values, lemma_read_be_round_trip, spec_be_bytes, twos_unsigned,
};
use crate::packets::serialization::serializer_error::SerializingErr;
use crate::packets::serialization::serializer_handler::{McDeserialize, McSerialize};
use crate::protocol_details::datatypes::nbt::decode::{
    spec_read_array, spec_read_count, spec_read_elements, spec_read_entries, spec_read_items,
    spec_read_named_root, spec_read_nbt_string, spec_read_network_root, spec_read_payload,
    spec_read_tag, views_of,
};
use crate::protocol_details::datatypes::nbt::encode::{
    spec_array_payload, spec_elements_bytes, spec_entries_bytes, spec_entry_bytes, spec_items_bytes,
    spec_named_root, spec_nbt_string_bytes, spec_network_root, spec_payload,
};
use crate::protocol_details::datatypes::nbt::name_index::has_key;
use crate::protocol_details::datatypes::nbt::unique::{
    names_distinct, spec_unique_entries, spec_unique_names,
};
use crate::protocol_details::datatypes::nbt::nbt::{
    entry_names, spec_insert, NbtCompoundView, NbtEntry, NbtValue,
};
use vstd::prelude::*;
use vstd::utf8::encode_utf8;

verus! {

/// A string inside NBT that was written is read back, whatever follows it.
pub proof fn lemma_nbt_string_round_trip(text: Seq<char>, rest: Seq<u8>)
    requires
        spec_nbt_string_bytes(text) is Ok,
    ensures
        spec_read_nbt_string(spec_nbt_string_bytes(text)->Ok_0 + rest) == Ok::<
            (Seq<char>, nat),
            SerializingErr,
        >((text, spec_nbt_string_bytes(text)->Ok_0.len())),
{
    let body = encode_utf8(text);
    let prefix = spec_be_bytes(body.len(), 2);
    let all = prefix + body + rest;
    lemma_pow256_values();
    assert(all =~= prefix + (body + rest));
    lemma_read_be_round_trip(body.len(), 2, body + rest);
    assert(all.subrange(2, (2 + body.len()) as int) =~= body);
    vstd::utf8::encode_utf8_valid_utf8(text);
    vstd::utf8::encode_utf8_decode_utf8(text);
}

/// A count that was written is read back, whatever follows it.
pub proof fn lemma_count_round_trip(count: nat, rest: Seq<u8>)
    requires
        count <= i32::MAX,
    ensures
        spec_be_bytes(count, 4).len() == 4,
        spec_read_count(spec_be_bytes(count, 4) + rest) == Ok::<nat, SerializingErr>(count),
{
    lemma_pow256_values();
    lemma_read_be_round_trip(count, 4, rest);
}

/// The wire form of a sequence of elements is that of its first element
/// followed by that of the others.
pub proof fn lemma_elements_split_first<T: McSerialize>(items: Seq<T>)
    requires
        items.len() > 0,
        spec_elements_bytes(items) is Ok,
    ensures
        items[0].spec_serialize() is Ok,
        spec_elements_bytes(items.drop_first()) is Ok,
        spec_elements_bytes(items)->Ok_0 == items[0].spec_serialize()->Ok_0 + spec_elements_bytes(
            items.drop_first(),
        )->Ok_0,
    decreases items.len(),
{
    let front = items.drop_last();
    if items.len() == 1 {
        assert(front =~= Seq::<T>::empty());
        assert(items.drop_first() =~= Seq::<T>::empty());
        assert(spec_elements_bytes(front) == Ok::<Seq<u8>, SerializingErr>(Seq::empty()));
        assert(Seq::<u8>::empty() + items[0].spec_serialize()->Ok_0
            =~= items[0].spec_serialize()->Ok_0 + Seq::<u8>::empty());
    } else {
        lemma_elements_split_first(front);
        assert(items.drop_first().drop_last() =~= front.drop_first());
        assert(items.drop_first().last() == items.last());
        assert(front[0] == items[0]);
        let a = items[0].spec_serialize()->Ok_0;
        let b = spec_elements_bytes(front.drop_first())->Ok_0;
        let c = items.last().spec_serialize()->Ok_0;
        assert((a + b) + c =~= a + (b + c));
    }
}

/// The payloads of a sequence of items are that of its first item followed
/// by those of the others.
pub proof fn lemma_items_split_first(items: Seq<NbtValue>)
    requires
        items.len() > 0,
        spec_items_bytes(items) is Ok,
    ensures
        spec_payload(items[0]) is Ok,
        spec_items_bytes(items.drop_first()) is Ok,
        spec_items_bytes(items)->Ok_0 == spec_payload(items[0])->Ok_0 + spec_items_bytes(
            items.drop_first(),
        )->Ok_0,
    decreases items.len(),
{
    let front = items.drop_last();
    if items.len() == 1 {
        assert(front =~= Seq::<NbtValue>::empty());
        assert(items.drop_first() =~= Seq::<NbtValue>::empty());
        assert(spec_items_bytes(front) == Ok::<Seq<u8>, SerializingErr>(Seq::empty()));
        assert(Seq::<u8>::empty() + spec_payload(items[0])->Ok_0 =~= spec_payload(items[0])->Ok_0
            + Seq::<u8>::empty());
    } else {
        lemma_items_split_first(front);
        assert(items.drop_first().drop_last() =~= front.drop_first());
        assert(items.drop_first().last() == items.last());
        assert(front[0] == items[0]);
        let a = spec_payload(items[0])->Ok_0;
        let b = spec_items_bytes(front.drop_first())->Ok_0;
        let c = spec_payload(items.last())->Ok_0;
        assert((a + b) + c =~= a + (b + c));
    }
}

/// The wire form of the entries of a compound is that of its first entry
/// followed by that of the others.
pub proof fn lemma_entries_split_first(entries: Seq<NbtEntry>)
    requires
        entries.len() > 0,
        spec_entries_bytes(entries) is Ok,
    ensures
        spec_entry_bytes(entries[0]) is Ok,
        spec_entries_bytes(entries.drop_first()) is Ok,
        spec_entries_bytes(entries)->Ok_0 == spec_entry_bytes(entries[0])->Ok_0
            + spec_entries_bytes(entries.drop_first())->Ok_0,
    decreases entries.len(),
{
    let front = entries.drop_last();
    if entries.len() == 1 {
        assert(front =~= Seq::<NbtEntry>::empty());
        assert(entries.drop_first() =~= Seq::<NbtEntry>::empty());
        assert(spec_entries_bytes(front) == Ok::<Seq<u8>, SerializingErr>(Seq::empty()));
        assert(Seq::<u8>::empty() + spec_entry_bytes(entries[0])->Ok_0 =~= spec_entry_bytes(
            entries[0],
        )->Ok_0 + Seq::<u8>::empty());
    } else {
        lemma_entries_split_first(front);
        assert(entries.drop_first().drop_last() =~= front.drop_first());
        assert(entries.drop_first().last() == entries.last());
        assert(front[0] == entries[0]);
        let a = spec_entry_bytes(entries[0])->Ok_0;
        let b = spec_entries_bytes(front.drop_first())->Ok_0;
        let c = spec_entry_bytes(entries.last())->Ok_0;
        assert((a + b) + c =~= a + (b + c));
    }
}

/// Whether every value of `T` that has a wire form is read back from it,
/// whatever follows it.
pub open spec fn spec_round_trips<T: McSerialize + McDeserialize>() -> bool {
    forall|item: T, rest: Seq<u8>|
        item.spec_serialize() is Ok ==> #[trigger] T::spec_deserialize(
            item.spec_serialize()->Ok_0 + rest,
        ) == Ok::<(T::V, nat), SerializingErr>((item@, item.spec_serialize()->Ok_0.len()))
}

/// Signed bytes are read back as they were written.
pub proof fn lemma_i8_round_trips()
    ensures
        spec_round_trips::<i8>(),
{
    lemma_pow256_values();
    assert forall|item: i8, rest: Seq<u8>| item.spec_serialize() is Ok implies #[trigger] i8::spec_deserialize(
        item.spec_serialize()->Ok_0 + rest,
    ) == Ok::<(i8, nat), SerializingErr>((item@, item.spec_serialize()->Ok_0.len())) by {
        lemma_read_be_round_trip(twos_unsigned(item as int, 0x100), 1, rest);
    }
}

/// Signed 32-bit integers are read back as they were written.
pub proof fn lemma_i32_round_trips()
    ensures
        spec_round_trips::<i32>(),
{
    lemma_pow256_values();
    assert forall|item: i32, rest: Seq<u8>| item.spec_serialize() is Ok implies #[trigger] i32::spec_deserialize(
        item.spec_serialize()->Ok_0 + rest,
    ) == Ok::<(i32, nat), SerializingErr>((item@, item.spec_serialize()->Ok_0.len())) by {
        lemma_read_be_round_trip(twos_unsigned(item as int, 0x1_0000_0000), 4, rest);
    }
}

/// Signed 64-bit integers are read back as they were written.
pub proof fn lemma_i64_round_trips()
    ensures
        spec_round_trips::<i64>(),
{
    lemma_pow256_values();
    assert forall|item: i64, rest: Seq<u8>| item.spec_serialize() is Ok implies #[trigger] i64::spec_deserialize(
        item.spec_serialize()->Ok_0 + rest,
    ) == Ok::<(i64, nat), SerializingErr>((item@, item.spec_serialize()->Ok_0.len())) by {
        lemma_read_be_round_trip(twos_unsigned(item as int, 0x1_0000_0000_0000_0000), 8, rest);
    }
}

/// Elements that were written one after the other are read back, behind
/// what was read before them and whatever follows them.
pub proof fn lemma_elements_round_trip<T: McSerialize + McDeserialize>(
    items: Seq<T>,
    rest: Seq<u8>,
    acc: Seq<T::V>,
    consumed: nat,
)
    requires
        spec_round_trips::<T>(),
        spec_elements_bytes(items) is Ok,
    ensures
        spec_read_elements::<T>(
            items.len(),
            spec_elements_bytes(items)->Ok_0 + rest,
            acc,
            consumed,
        ) == Ok::<(Seq<T::V>, nat), SerializingErr>(
            (
                acc + views_of(items),
                consumed + spec_elements_bytes(items)->Ok_0.len(),
            ),
        ),
    decreases items.len(),
{
    let views = views_of(items);
    if items.len() == 0 {
        assert(acc + views =~= acc);
    } else {
        lemma_elements_split_first(items);
        let first = items[0].spec_serialize()->Ok_0;
        let tail = items.drop_first();
        let others = spec_elements_bytes(tail)->Ok_0;
        let all = spec_elements_bytes(items)->Ok_0 + rest;
        assert(all =~= first + (others + rest));
        assert(T::spec_deserialize(first + (others + rest)) == Ok::<(T::V, nat), SerializingErr>(
            (items[0]@, first.len()),
        ));
        assert(all.skip(first.len() as int) =~= others + rest);
        lemma_elements_round_trip::<T>(tail, rest, acc.push(items[0]@), consumed + first.len());
        let tail_views = views_of(tail);
        assert(acc.push(items[0]@) + tail_views =~= acc + views);
    }
}

/// The payload of an array that was written is read back, whatever follows
/// it.
pub proof fn lemma_array_round_trip<T: McSerialize + McDeserialize>(items: Seq<T>, rest: Seq<u8>)
    requires
        spec_round_trips::<T>(),
        spec_array_payload(items) is Ok,
    ensures
        spec_read_array::<T>(spec_array_payload(items)->Ok_0 + rest) == Ok::<
            (Seq<T::V>, nat),
            SerializingErr,
        >((views_of(items), spec_array_payload(items)->Ok_0.len())),
{
    let count = spec_be_bytes(items.len(), 4);
    let elements = spec_elements_bytes(items)->Ok_0;
    let all = count + elements + rest;
    assert(all =~= count + (elements + rest));
    lemma_count_round_trip(items.len(), elements + rest);
    assert(all.skip(4) =~= elements + rest);
    lemma_elements_round_trip::<T>(items, rest, Seq::empty(), 0);
    assert(Seq::<T::V>::empty() + views_of(items) =~= views_of(items));
}

/// The payload of a tag that holds no other tags is read back as it was
/// written, whatever follows it.
pub proof fn lemma_leaf_round_trip(value: NbtValue, rest: Seq<u8>)
    requires
        spec_payload(value) is Ok,
        !(value is List),
        !(value is Compound),
    ensures
        spec_read_payload(value.type_id(), spec_payload(value)->Ok_0 + rest) == Ok::<
            (NbtValue, nat),
            SerializingErr,
        >((value, spec_payload(value)->Ok_0.len())),
{
    lemma_pow256_values();
    let bytes = spec_payload(value)->Ok_0;
    match value {
        NbtValue::End => {
            assert(bytes.len() == 0);
        },
        NbtValue::Byte(v) => {
            lemma_read_be_round_trip(twos_unsigned(v as int, 0x100), 1, rest);
        },
        NbtValue::Short(v) => {
            lemma_read_be_round_trip(twos_unsigned(v as int, 0x1_0000), 2, rest);
        },
        NbtValue::Int(v) => {
            lemma_read_be_round_trip(twos_unsigned(v as int, 0x1_0000_0000), 4, rest);
        },
        NbtValue::Long(v) => {
            lemma_read_be_round_trip(twos_unsigned(v as int, 0x1_0000_0000_0000_0000), 8, rest);
        },
        NbtValue::Float(v) => {
            lemma_read_be_round_trip(v as nat, 4, rest);
        },
        NbtValue::Double(v) => {
            lemma_read_be_round_trip(v as nat, 8, rest);
        },
        NbtValue::ByteArray(v) => {
            lemma_i8_round_trips();
            lemma_array_round_trip::<i8>(v, rest);
            assert(views_of(v) =~= v);
        },
        NbtValue::String(v) => {
            lemma_nbt_string_round_trip(v, rest);
        },
        NbtValue::IntArray(v) => {
            lemma_i32_round_trips();
            lemma_array_round_trip::<i32>(v, rest);
            assert(views_of(v) =~= v);
        },
        NbtValue::LongArray(v) => {
            lemma_i64_round_trips();
            lemma_array_round_trip::<i64>(v, rest);
            assert(views_of(v) =~= v);
        },
        _ => {},
    }
}

/// The payload of a tag that was written is read back as a tag of its
/// type, whatever follows it.
pub proof fn lemma_payload_round_trip(value: NbtValue, rest: Seq<u8>)
    requires
        spec_payload(value) is Ok,
        spec_unique_names(value),
    ensures
        spec_read_payload(value.type_id(), spec_payload(value)->Ok_0 + rest) == Ok::<
            (NbtValue, nat),
            SerializingErr,
        >((value, spec_payload(value)->Ok_0.len())),
    decreases value, 0nat,
{
    let bytes = spec_payload(value)->Ok_0;
    match value {
        NbtValue::List { type_id, items } => {
            let count = spec_be_bytes(items.len(), 4);
            let payloads = spec_items_bytes(items)->Ok_0;
            let all = bytes + rest;
            assert(all =~= seq![type_id] + (count + (payloads + rest)));
            assert(all[0] == type_id);
            assert(all.skip(1) =~= count + (payloads + rest));
            lemma_count_round_trip(items.len(), payloads + rest);
            assert(all.skip(5) =~= payloads + rest);
            lemma_items_round_trip(items, type_id, rest, Seq::empty(), 0);
            assert(Seq::<NbtValue>::empty() + items =~= items);
        },
        NbtValue::Compound(entries) => {
            let body = spec_entries_bytes(entries)->Ok_0;
            assert(bytes + rest =~= body + (seq![0u8] + rest));
            assert(Seq::<NbtEntry>::empty() + entries =~= entries);
            assert(spec_unique_entries(entries));
            assert(names_distinct(entries));
            lemma_entries_round_trip(entries, seq![0u8] + rest, Seq::empty(), 0);
        },
        _ => {
            lemma_leaf_round_trip(value, rest);
        },
    }
}

/// A tag whose payload was written behind the byte of its type is read back,
/// whatever follows it.
pub proof fn lemma_tag_round_trip(value: NbtValue, rest: Seq<u8>)
    requires
        spec_payload(value) is Ok,
        spec_unique_names(value),
    ensures
        spec_read_tag(seq![value.type_id()] + spec_payload(value)->Ok_0 + rest) == Ok::<
            (NbtValue, nat),
            SerializingErr,
        >((value, 1 + spec_payload(value)->Ok_0.len())),
{
    let payload = spec_payload(value)->Ok_0;
    let all = seq![value.type_id()] + payload + rest;
    assert(all[0] == value.type_id());
    assert(all.skip(1) =~= payload + rest);
    lemma_payload_round_trip(value, rest);
}

/// Items of one type whose payloads were written one after the other are
/// read back, behind what was read before them and whatever follows them.
pub proof fn lemma_items_round_trip(
    items: Seq<NbtValue>,
    type_id: u8,
    rest: Seq<u8>,
    acc: Seq<NbtValue>,
    consumed: nat,
)
    requires
        spec_items_bytes(items) is Ok,
        forall|i: int| 0 <= i < items.len() ==> (#[trigger] items[i]).type_id() == type_id,
        forall|i: int| 0 <= i < items.len() ==> spec_unique_names(#[trigger] items[i]),
    ensures
        spec_read_items(type_id, items.len(), spec_items_bytes(items)->Ok_0 + rest, acc, consumed)
            == Ok::<(Seq<NbtValue>, nat), SerializingErr>(
            (acc + items, consumed + spec_items_bytes(items)->Ok_0.len()),
        ),
    decreases items, 1nat,
{
    if items.len() == 0 {
        assert(acc + items =~= acc);
    } else {
        lemma_items_split_first(items);
        let first = spec_payload(items[0])->Ok_0;
        let tail = items.drop_first();
        let others = spec_items_bytes(tail)->Ok_0;
        let all = spec_items_bytes(items)->Ok_0 + rest;
        assert(all =~= first + (others + rest));
        assert(items[0].type_id() == type_id);
        lemma_payload_round_trip(items[0], others + rest);
        assert(all.skip(first.len() as int) =~= others + rest);
        assert forall|i: int| 0 <= i < tail.len() implies (#[trigger] tail[i]).type_id()
            == type_id by {
            assert(tail[i] == items[i + 1]);
        }
        assert forall|i: int| 0 <= i < tail.len() implies spec_unique_names(#[trigger] tail[i]) by {
            assert(tail[i] == items[i + 1]);
        }
        lemma_items_round_trip(tail, type_id, rest, acc.push(items[0]), consumed + first.len());
        assert(acc.push(items[0]) + tail =~= acc + items);
    }
}

/// An entry whose name is not among `acc` goes behind them.
pub proof fn lemma_insert_new_name(acc: Seq<NbtEntry>, entries: Seq<NbtEntry>)
    requires
        entries.len() > 0,
        names_distinct(acc + entries),
    ensures
        spec_insert(acc, entries[0].name, entries[0].value) == acc.push(entries[0]),
        acc.push(entries[0]) + entries.drop_first() == acc + entries,
{
    reveal(names_distinct);
    let entry = entries[0];
    let whole = acc + entries;
    assert(whole[acc.len() as int] == entry);
    if has_key(entry_names(acc), entry.name) {
        let i = choose|i: int| 0 <= i < acc.len() && entry_names(acc)[i] == entry.name;
        assert(entry_names(whole)[i] == entry_names(whole)[acc.len() as int]);
    }
    assert(acc.push(entry) + entries.drop_first() =~= whole);
}

/// What reading finds at the front of an entry that was written: the type
/// id, the name, the tag, and behind them whatever followed the entry.
pub proof fn lemma_entry_round_trip(entry: NbtEntry, after: Seq<u8>)
    requires
        spec_entry_bytes(entry) is Ok,
        spec_unique_names(entry.value),
    ensures
        ({
            let all = spec_entry_bytes(entry)->Ok_0 + after;
            let k = spec_nbt_string_bytes(entry.name)->Ok_0.len();
            let n = spec_payload(entry.value)->Ok_0.len();
            &&& spec_entry_bytes(entry)->Ok_0.len() == 1 + k + n
            &&& all[0] == entry.value.type_id()
            &&& all[0] != 0
            &&& spec_read_nbt_string(all.skip(1)) == Ok::<(Seq<char>, nat), SerializingErr>(
                (entry.name, k),
            )
            &&& spec_read_payload(all[0], all.skip((1 + k) as int)) == Ok::<
                (NbtValue, nat),
                SerializingErr,
            >((entry.value, n))
            &&& all.skip((1 + k + n) as int) == after
        }),
    decreases entry, 0nat,
{
    let id = entry.value.type_id();
    let name = spec_nbt_string_bytes(entry.name)->Ok_0;
    let payload = spec_payload(entry.value)->Ok_0;
    let all = spec_entry_bytes(entry)->Ok_0 + after;
    assert(all =~= seq![id] + (name + (payload + after)));
    assert(all[0] == id);
    assert(all.skip(1) =~= name + (payload + after));
    lemma_nbt_string_round_trip(entry.name, payload + after);
    assert(all.skip((1 + name.len()) as int) =~= payload + after);
    lemma_payload_round_trip(entry.value, after);
    assert(all.skip((1 + name.len() + payload.len()) as int) =~= after);
}

/// Reading the entries of a compound goes from one entry to the next.
pub proof fn lemma_read_entries_step(
    bytes: Seq<u8>,
    acc: Seq<NbtEntry>,
    consumed: nat,
    entry: NbtEntry,
    k: nat,
    n: nat,
)
    requires
        bytes.len() >= 1 + k + n,
        bytes[0] != 0,
        spec_read_nbt_string(bytes.skip(1)) == Ok::<(Seq<char>, nat), SerializingErr>(
            (entry.name, k),
        ),
        spec_read_payload(bytes[0], bytes.skip((1 + k) as int)) == Ok::<
            (NbtValue, nat),
            SerializingErr,
        >((entry.value, n)),
    ensures
        spec_read_entries(bytes, acc, consumed) == spec_read_entries(
            bytes.skip((1 + k + n) as int),
            spec_insert(acc, entry.name, entry.value),
            consumed + 1 + k + n,
        ),
{
}

/// Entries with names of their own that were written one after the other
/// and closed by a zero byte are read back, behind what was read before them
/// and whatever follows them.
pub proof fn lemma_entries_round_trip(
    entries: Seq<NbtEntry>,
    rest: Seq<u8>,
    acc: Seq<NbtEntry>,
    consumed: nat,
)
    requires
        spec_entries_bytes(entries) is Ok,
        rest.len() > 0,
        rest[0] == 0,
        names_distinct(acc + entries),
        forall|i: int| 0 <= i < entries.len() ==> spec_unique_names((#[trigger] entries[i]).value),
    ensures
        spec_read_entries(spec_entries_bytes(entries)->Ok_0 + rest, acc, consumed) == Ok::<
            (Seq<NbtEntry>, nat),
            SerializingErr,
        >((acc + entries, consumed + spec_entries_bytes(entries)->Ok_0.len() + 1)),
    decreases entries, 1nat,
{
    if entries.len() == 0 {
        assert(acc + entries =~= acc);
        assert(spec_entries_bytes(entries)->Ok_0 + rest =~= rest);
    } else {
        lemma_entries_split_first(entries);
        let entry = entries[0];
        let first = spec_entry_bytes(entry)->Ok_0;
        let tail = entries.drop_first();
        let others = spec_entries_bytes(tail)->Ok_0;
        let all = spec_entries_bytes(entries)->Ok_0 + rest;
        let k = spec_nbt_string_bytes(entry.name)->Ok_0.len();
        let n = spec_payload(entry.value)->Ok_0.len();
        assert(all == first + (others + rest)) by {
            assert(all =~= first + (others + rest));
        }
        lemma_entry_round_trip(entry, others + rest);
        lemma_read_entries_step(all, acc, consumed, entry, k, n);
        lemma_insert_new_name(acc, entries);
        assert forall|i: int| 0 <= i < tail.len() implies spec_unique_names(
            (#[trigger] tail[i]).value,
        ) by {
            assert(tail[i] == entries[i + 1]);
        }
        lemma_entries_round_trip(tail, rest, acc.push(entry), consumed + first.len());
    }
}

/// Reading a root compound that was written in the named form gives it
/// back, entries in their order, whatever follows it.
pub proof fn lemma_named_root_round_trip(compound: NbtCompoundView, rest: Seq<u8>)
    requires
        spec_named_root(compound) is Ok,
        spec_unique_entries(compound.entries),
    ensures
        spec_read_named_root(spec_named_root(compound)->Ok_0 + rest) == Ok::<
            (NbtCompoundView, nat),
            SerializingErr,
        >((compound, spec_named_root(compound)->Ok_0.len())),
{
    let name = spec_nbt_string_bytes(compound.root_name)->Ok_0;
    let body = spec_entries_bytes(compound.entries)->Ok_0;
    let all = spec_named_root(compound)->Ok_0 + rest;
    assert(all =~= seq![10u8] + (name + (body + (seq![0u8] + rest))));
    assert(all[0] == 10);
    assert(all.skip(1) =~= name + (body + (seq![0u8] + rest)));
    lemma_nbt_string_round_trip(compound.root_name, body + (seq![0u8] + rest));
    assert(all.skip((1 + name.len()) as int) =~= body + (seq![0u8] + rest));
    assert(Seq::<NbtEntry>::empty() + compound.entries =~= compound.entries);
    lemma_entries_round_trip(compound.entries, seq![0u8] + rest, Seq::empty(), 0);
}

/// Reading a root compound that was written in the network form gives its
/// entries back in their order, whatever follows it. The root name is not on
/// the wire, so the compound that is read has the empty one.
pub proof fn lemma_network_root_round_trip(compound: NbtCompoundView, rest: Seq<u8>)
    requires
        spec_network_root(compound) is Ok,
        spec_unique_entries(compound.entries),
    ensures
        spec_read_network_root(spec_network_root(compound)->Ok_0 + rest) == Ok::<
            (NbtCompoundView, nat),
            SerializingErr,
        >(
            (
                NbtCompoundView { root_name: Seq::empty(), entries: compound.entries },
                spec_network_root(compound)->Ok_0.len(),
            ),
        ),
{
    let body = spec_entries_bytes(compound.entries)->Ok_0;
    let all = spec_network_root(compound)->Ok_0 + rest;
    assert(all =~= seq![10u8] + (body + (seq![0u8] + rest)));
    assert(all[0] == 10);
    assert(all.skip(1) =~= body + (seq![0u8] + rest));
    assert(Seq::<NbtEntry>::empty() + compound.entries =~= compound.entries);
    lemma_entries_round_trip(compound.entries, seq![0u8] + rest, Seq::empty(), 0);
}

} // verus!
