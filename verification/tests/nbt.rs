use quartz_nbt::io::Flavor;
use sandstone::packets::serialization::serializer_error::SerializingErr;
use sandstone::packets::serialization::serializer_handler::{
    McDeserialize, McDeserializer, McSerialize, McSerializer,
};
use sandstone::protocol_details::datatypes::nbt::compare::{
    same_compound, same_entries, same_list, same_tag,
};
use sandstone::protocol_details::datatypes::nbt::decode::{
    deserialize_array, deserialize_count, deserialize_leaf, deserialize_nbt_string,
    deserialize_payload, deserialize_tag,
};
use sandstone::protocol_details::datatypes::nbt::encode::{
    list_is_valid, serialize_array, serialize_entry, serialize_nbt_string,
};
use sandstone::protocol_details::datatypes::nbt::nbt::{
    NbtByteArray, NbtCompound, NbtIntArray, NbtList, NbtLongArray, NbtTag,
};

fn named(compound: &NbtCompound) -> Vec<u8> {
    let mut serializer = McSerializer::new();
    compound.mc_serialize(&mut serializer).unwrap();
    serializer.output
}

fn network(compound: &NbtCompound) -> Vec<u8> {
    let mut serializer = McSerializer::new();
    compound.mc_serialize_network(&mut serializer).unwrap();
    serializer.output
}

fn names(compound: &NbtCompound) -> Vec<String> {
    (0..compound.len()).map(|i| compound.name_at(i).unwrap().clone()).collect()
}

fn sample() -> NbtCompound {
    let mut inner = NbtCompound::new("ignored".to_string());
    inner.add("x".to_string(), NbtTag::Double(1.5f64.to_bits()));
    inner.add("text".to_string(), NbtTag::String("héllo".to_string()));
    let mut list = NbtList::new();
    list.add(NbtTag::Short(-2)).unwrap();
    list.add(NbtTag::Short(300)).unwrap();
    let mut nested = NbtList::new();
    nested.add(NbtTag::List(NbtList::new())).unwrap();
    nested.add(NbtTag::Compound(NbtCompound::new(String::new()))).unwrap_err();
    let mut compound = NbtCompound::new("root".to_string());
    compound.add("byte".to_string(), NbtTag::Byte(-1));
    compound.add("long".to_string(), NbtTag::Long(i64::MIN));
    compound.add("bytes".to_string(), NbtTag::ByteArray(NbtByteArray::new(vec![1, -1, 127])));
    compound.add("ints".to_string(), NbtTag::IntArray(NbtIntArray::new(vec![1, -1])));
    compound.add("longs".to_string(), NbtTag::LongArray(NbtLongArray::new(vec![i64::MAX])));
    compound.add("list".to_string(), NbtTag::List(list));
    compound.add("nested".to_string(), NbtTag::List(nested));
    compound.add("inner".to_string(), NbtTag::Compound(inner));
    compound.add("empty".to_string(), NbtTag::List(NbtList::new()));
    compound
}

#[test]
fn test_serializer_nbt() {
    let mut compound = quartz_nbt::NbtCompound::new();
    compound.insert("foo", 123);
    compound.insert("bar", -3.6f32);

    let mut binary: Vec<u8> = Vec::new();
    quartz_nbt::io::write_nbt(&mut binary, Some("root-tag"), &compound, Flavor::Uncompressed)
        .unwrap();

    println!("Out: {:?}", binary);

    let mut compound = NbtCompound::new("root-tag".to_string());
    compound.add("foo".to_string(), NbtTag::Int(123));
    compound.add("bar".to_string(), NbtTag::Float((-3.6f32).to_bits()));

    let mut serializaer = McSerializer::new();
    compound.mc_serialize(&mut serializaer).unwrap();

    println!("Out: {:?}", serializaer.output);

    //         String(root name)                                       String (tag name)    i32                    f32
    // type    u16      data                                     type  u16                  data            type   u16     String            data             END
    assert_eq!(
        serializaer.output,
        vec![
            10, 0, 8, 114, 111, 111, 116, 45, 116, 97, 103, 3, 0, 3, 102, 111, 111, 0, 0, 0, 123,
            5, 0, 3, 98, 97, 114, 192, 102, 102, 102, 0
        ]
    );
    // the other writer agrees byte for byte where it keeps the same order
    let mut sorted = binary.clone();
    sorted.sort();
    let mut ours = serializaer.output.clone();
    ours.sort();
    assert_eq!(sorted, ours);
    // and reads what was written here
    let (theirs, root) =
        quartz_nbt::io::read_nbt(&mut serializaer.output.as_slice(), Flavor::Uncompressed)
            .unwrap();
    assert_eq!(root, "root-tag");
    assert_eq!(theirs, compound_of_quartz());
}

fn compound_of_quartz() -> quartz_nbt::NbtCompound {
    let mut compound = quartz_nbt::NbtCompound::new();
    compound.insert("foo", 123);
    compound.insert("bar", -3.6f32);
    compound
}

#[test]
fn nbt_named_round_trip() {
    let compound = sample();
    let bytes = named(&compound);
    let mut longer = bytes.clone();
    longer.extend_from_slice(&[1, 2, 3]);
    let mut cursor = McDeserializer::new(&longer);
    let decoded = NbtCompound::mc_deserialize(&mut cursor).unwrap();
    assert_eq!(cursor.collect_remaining(), &[1, 2, 3]);
    assert_eq!(decoded.root_name(), "root");
    assert_eq!(names(&decoded), names(&compound));
    assert_eq!(
        names(&decoded),
        vec!["byte", "long", "bytes", "ints", "longs", "list", "nested", "inner", "empty"]
    );
    assert_eq!(named(&decoded), bytes);
    match decoded.get("inner") {
        Some(NbtTag::Compound(inner)) => {
            assert_eq!(names(inner), vec!["x", "text"]);
            assert!(matches!(inner.get("x"), Some(NbtTag::Double(bits)) if f64::from_bits(*bits) == 1.5));
            assert!(matches!(inner.get("text"), Some(NbtTag::String(text)) if text == "héllo"));
        }
        _ => panic!("inner compound expected"),
    }
    match decoded.get("list") {
        Some(NbtTag::List(list)) => {
            assert_eq!(list.type_id, 2);
            assert_eq!(list.len(), 2);
            assert!(matches!(list.get(1), Some(NbtTag::Short(300))));
            assert!(list.get(2).is_none());
        }
        _ => panic!("list expected"),
    }
    assert!(matches!(decoded.get("bytes"), Some(NbtTag::ByteArray(a)) if a.list == vec![1, -1, 127]));
    assert!(matches!(decoded.get("ints"), Some(NbtTag::IntArray(a)) if a.list == vec![1, -1]));
    assert!(matches!(decoded.get("longs"), Some(NbtTag::LongArray(a)) if a.list == vec![i64::MAX]));
    assert!(decoded.get("missing").is_none());
}

#[test]
fn nbt_network_round_trip() {
    let compound = sample();
    let bytes = network(&compound);
    assert_eq!(bytes[0], 10);
    assert_eq!(bytes[1], 1); // the first entry follows at once: a byte tag
    let mut cursor = McDeserializer::new(&bytes);
    let decoded = NbtCompound::mc_deserialize_network(&mut cursor).unwrap();
    assert!(cursor.is_at_end());
    assert_eq!(decoded.root_name(), "");
    assert_eq!(network(&decoded), bytes);
    assert_eq!(names(&decoded), names(&compound));
    // the named form is the network form with the name put in
    let with_name = named(&compound);
    assert_eq!(&with_name[..7], &[10, 0, 4, b'r', b'o', b'o', b't']);
    assert_eq!(&with_name[7..], &bytes[1..]);
}

#[test]
fn nbt_exact_bytes() {
    let empty = NbtCompound::new(String::new());
    assert_eq!(named(&empty), vec![10, 0, 0, 0]);
    assert_eq!(network(&empty), vec![10, 0]);

    let mut list = NbtList::new();
    list.add(NbtTag::Int(1)).unwrap();
    list.add(NbtTag::Int(-1)).unwrap();
    let mut serializer = McSerializer::new();
    list.mc_serialize(&mut serializer).unwrap();
    assert_eq!(serializer.output, vec![3, 0, 0, 0, 2, 0, 0, 0, 1, 255, 255, 255, 255]);

    let mut serializer = McSerializer::new();
    NbtTag::String("ab".to_string()).mc_serialize(&mut serializer).unwrap();
    assert_eq!(serializer.output, vec![0, 2, b'a', b'b']);

    let mut serializer = McSerializer::new();
    NbtTag::ByteArray(NbtByteArray::new(vec![-128, 5])).mc_serialize(&mut serializer).unwrap();
    assert_eq!(serializer.output, vec![0, 0, 0, 2, 128, 5]);

    let mut serializer = McSerializer::new();
    NbtTag::End.mc_serialize(&mut serializer).unwrap();
    assert!(serializer.output.is_empty());
}

#[test]
fn nbt_tag_descriptions() {
    let tags = vec![
        (NbtTag::End, 0, Some(0), "TAG_End"),
        (NbtTag::Byte(1), 1, Some(1), "TAG_Byte"),
        (NbtTag::Short(1), 2, Some(2), "TAG_Short"),
        (NbtTag::Int(1), 3, Some(4), "TAG_Int"),
        (NbtTag::Long(1), 4, Some(8), "TAG_Long"),
        (NbtTag::Float(1), 5, Some(4), "TAG_Float"),
        (NbtTag::Double(1), 6, Some(8), "TAG_Double"),
        (NbtTag::ByteArray(NbtByteArray::new(vec![])), 7, None, "TAG_Byte_Array"),
        (NbtTag::String(String::new()), 8, None, "TAG_String"),
        (NbtTag::List(NbtList::new()), 9, None, "TAG_List"),
        (NbtTag::Compound(NbtCompound::new(String::new())), 10, None, "TAG_Compound"),
        (NbtTag::IntArray(NbtIntArray::new(vec![])), 11, None, "TAG_Int_Array"),
        (NbtTag::LongArray(NbtLongArray::new(vec![])), 12, None, "TAG_Long_Array"),
    ];
    for (tag, id, size, name) in tags {
        assert_eq!(tag.get_type_id(), id);
        assert_eq!(tag.get_payload_size(), size);
        assert_eq!(tag.get_name(), name);
    }
}

#[test]
fn nbt_list_rules() {
    let mut list = NbtList::new();
    assert_eq!(list.type_id, 0);
    assert_eq!(list.add(NbtTag::End), Err(SerializingErr::InvalidTagType));
    assert_eq!(list.add_tag(NbtTag::Byte(1)), Err(SerializingErr::InvalidTagType));
    assert_eq!(list.add(NbtTag::Byte(1)), Ok(()));
    assert_eq!(list.type_id, 1);
    assert_eq!(list.add(NbtTag::Short(1)), Err(SerializingErr::InvalidTagType));
    assert_eq!(list.add_tag(NbtTag::Byte(2)), Ok(()));
    assert_eq!(list.len(), 2);

    // a list that was put together by hand against the rules is not written
    let broken = NbtList { type_id: 1, list: vec![NbtTag::Byte(1), NbtTag::Int(2)] };
    let mut serializer = McSerializer::new();
    serializer.serialize_u8(9);
    assert_eq!(broken.mc_serialize(&mut serializer), Err(SerializingErr::InvalidTagType));
    assert_eq!(serializer.output, vec![9]);
    let ends = NbtList { type_id: 0, list: vec![NbtTag::End] };
    assert_eq!(ends.mc_serialize(&mut serializer), Err(SerializingErr::InvalidTagType));
    let mut compound = NbtCompound::new(String::new());
    compound.add("bad".to_string(), NbtTag::End);
    assert_eq!(compound.mc_serialize(&mut serializer), Err(SerializingErr::InvalidTagType));
    assert_eq!(serializer.output, vec![9]);
}

#[test]
fn nbt_compound_keeps_insertion_order() {
    let mut compound = NbtCompound::new("r".to_string());
    compound.add("a".to_string(), NbtTag::Int(1));
    compound.add("b".to_string(), NbtTag::Int(2));
    compound.add("c".to_string(), NbtTag::Int(3));
    // a name that is there keeps its place and gets the new tag
    compound.add("a".to_string(), NbtTag::Byte(9));
    assert_eq!(names(&compound), vec!["a", "b", "c"]);
    assert!(matches!(compound.get("a"), Some(NbtTag::Byte(9))));
    assert!(matches!(compound.tag_at(0), Some(NbtTag::Byte(9))));
    assert_eq!(compound.len(), 3);
    // the last entry takes the place of the one removed
    compound.remove("a");
    assert_eq!(names(&compound), vec!["c", "b"]);
    assert!(matches!(compound.tag_at(0), Some(NbtTag::Int(3))));
    assert!(matches!(compound.get("b"), Some(NbtTag::Int(2))));
    compound.remove("nothing");
    assert_eq!(compound.len(), 2);
    compound.remove("b");
    compound.remove("c");
    assert_eq!(compound.len(), 0);
    assert!(compound.name_at(0).is_none());
    assert!(compound.tag_at(0).is_none());
    compound.change_root_name("other".to_string());
    assert_eq!(compound.root_name(), "other");
    assert_eq!(named(&compound), vec![10, 0, 5, b'o', b't', b'h', b'e', b'r', 0]);
}

#[test]
fn nbt_decode_failures() {
    let decode = |bytes: &[u8]| {
        let mut cursor = McDeserializer::new(bytes);
        let result = NbtCompound::mc_deserialize(&mut cursor).map(|c| names(&c));
        assert!(result.is_ok() || cursor.remaining() == bytes.len());
        result
    };
    assert_eq!(decode(&[]), Err(SerializingErr::InputEnded));
    assert_eq!(decode(&[9, 0, 0, 0]), Err(SerializingErr::InvalidTagType));
    assert_eq!(decode(&[10, 0]), Err(SerializingErr::InputEnded));
    assert_eq!(decode(&[10, 0, 1, b'r']), Err(SerializingErr::InputEnded));
    assert_eq!(decode(&[10, 0, 0, 1, 0, 1, b'a']), Err(SerializingErr::InputEnded));
    assert_eq!(decode(&[10, 0, 0, 13, 0, 0, 0]), Err(SerializingErr::InvalidTagType));
    // a list of End tags with elements
    assert_eq!(
        decode(&[10, 0, 0, 9, 0, 1, b'l', 0, 0, 0, 0, 1, 0]),
        Err(SerializingErr::InvalidTagType)
    );
    // a negative count stands for no elements
    assert_eq!(
        decode(&[10, 0, 0, 9, 0, 1, b'l', 3, 255, 255, 255, 255, 0]),
        Ok(vec!["l".to_string()])
    );
    // the same name twice: first place, last value
    let mut cursor = McDeserializer::new(&[10, 0, 0, 1, 0, 1, b'a', 1, 1, 0, 1, b'b', 2, 1, 0, 1, b'a', 3, 0]);
    let compound = NbtCompound::mc_deserialize(&mut cursor).unwrap();
    assert_eq!(names(&compound), vec!["a", "b"]);
    assert!(matches!(compound.get("a"), Some(NbtTag::Byte(3))));
    // a payload of a type that does not exist
    let mut cursor = McDeserializer::new(&[1, 2, 3]);
    assert!(matches!(deserialize_payload(13, &mut cursor), Err(SerializingErr::InvalidTagType)));
    assert_eq!(cursor.remaining(), 3);
}

#[test]
fn nbt_string_takes_any_bytes() {
    let mut cursor = McDeserializer::new(&[0, 2, b'o', b'k', 7]);
    assert_eq!(deserialize_nbt_string(&mut cursor), Ok("ok".to_string()));
    assert_eq!(cursor.remaining(), 1);
    // bytes that are not UTF-8 are replaced, not refused
    let mut cursor = McDeserializer::new(&[0, 2, 0xC3, 0x28]);
    assert_eq!(deserialize_nbt_string(&mut cursor), Ok("\u{FFFD}(".to_string()));
    let mut cursor = McDeserializer::new(&[0, 3, b'a']);
    assert_eq!(deserialize_nbt_string(&mut cursor), Err(SerializingErr::InputEnded));
    assert_eq!(cursor.remaining(), 3);
}

#[test]
fn nbt_name_too_long() {
    let mut compound = NbtCompound::new("r".to_string());
    compound.add("n".repeat(65536), NbtTag::Byte(1));
    let mut serializer = McSerializer::new();
    assert_eq!(compound.mc_serialize(&mut serializer), Err(SerializingErr::LengthExceedsBound));
    assert!(serializer.output.is_empty());
    let mut compound = NbtCompound::new("r".to_string());
    compound.add("n".repeat(65535), NbtTag::Byte(1));
    let bytes = named(&compound);
    assert_eq!(bytes.len(), 1 + 3 + 1 + 2 + 65535 + 1 + 1);
    let mut cursor = McDeserializer::new(&bytes);
    let decoded = NbtCompound::mc_deserialize(&mut cursor).unwrap();
    assert_eq!(decoded.name_at(0).unwrap().len(), 65535);
}

#[test]
fn nbt_round_trip_gives_the_same_tree() {
    let compound = sample();
    let bytes = named(&compound);
    let mut cursor = McDeserializer::new(&bytes);
    let decoded = NbtCompound::mc_deserialize(&mut cursor).unwrap();
    assert_eq!(decoded, compound);
    assert!(same_compound(&decoded, &compound));

    // in the network form everything comes back but the root name
    let bytes = network(&compound);
    let mut cursor = McDeserializer::new(&bytes);
    let decoded = NbtCompound::mc_deserialize_network(&mut cursor).unwrap();
    assert_ne!(decoded, compound);
    assert!(same_entries(&decoded, &compound));
    let mut renamed = sample();
    renamed.change_root_name(String::new());
    assert_eq!(decoded, renamed);

    // a list on its own
    let mut list = NbtList::new();
    list.add(NbtTag::String("a".to_string())).unwrap();
    list.add(NbtTag::String("b".to_string())).unwrap();
    let mut serializer = McSerializer::new();
    list.mc_serialize(&mut serializer).unwrap();
    let mut cursor = McDeserializer::new(&serializer.output);
    assert_eq!(NbtList::mc_deserialize(&mut cursor), Ok(list));

    // every payload on its own
    for tag in [
        NbtTag::End,
        NbtTag::Byte(i8::MIN),
        NbtTag::Short(i16::MIN),
        NbtTag::Int(i32::MIN),
        NbtTag::Long(i64::MIN),
        NbtTag::Float(f32::NAN.to_bits()),
        NbtTag::Double(f64::NEG_INFINITY.to_bits()),
        NbtTag::ByteArray(NbtByteArray::new(vec![])),
        NbtTag::String("\u{10FFFF}".to_string()),
        NbtTag::List(NbtList::new()),
        NbtTag::Compound(sample()),
        NbtTag::IntArray(NbtIntArray::new(vec![i32::MIN, i32::MAX])),
        NbtTag::LongArray(NbtLongArray::new(vec![i64::MIN, i64::MAX])),
    ] {
        let mut serializer = McSerializer::new();
        tag.mc_serialize(&mut serializer).unwrap();
        serializer.serialize_u8(0x77);
        let mut cursor = McDeserializer::new(&serializer.output);
        let decoded = deserialize_payload(tag.get_type_id(), &mut cursor).unwrap();
        assert_eq!(cursor.remaining(), 1);
        assert!(same_tag(&decoded, &tag));
    }
}

#[test]
fn nbt_equality_is_by_value_and_order() {
    let mut a = NbtCompound::new("r".to_string());
    a.add("x".to_string(), NbtTag::Int(1));
    a.add("y".to_string(), NbtTag::Int(2));
    let mut b = NbtCompound::new("r".to_string());
    b.add("y".to_string(), NbtTag::Int(2));
    b.add("x".to_string(), NbtTag::Int(1));
    assert_ne!(a, b);
    b.remove("y");
    b.add("y".to_string(), NbtTag::Int(2));
    assert_eq!(a, b);
    b.add("y".to_string(), NbtTag::Long(2));
    assert_ne!(a, b);
    assert_ne!(NbtTag::Int(1), NbtTag::Long(1));
    assert_ne!(NbtTag::Float(0), NbtTag::Int(0));
    assert_eq!(NbtTag::String("a".to_string()), NbtTag::from("a".to_string()));
    assert_eq!(NbtTag::from(5i8), NbtTag::Byte(5));
    assert_eq!(NbtTag::from(5i16), NbtTag::Short(5));
    assert_eq!(NbtTag::from(5i32), NbtTag::Int(5));
    assert_eq!(NbtTag::from(5i64), NbtTag::Long(5));
    assert_eq!(NbtTag::from(NbtByteArray::new(vec![1])), NbtTag::ByteArray(NbtByteArray::new(vec![1])));
    assert_ne!(NbtTag::from(NbtIntArray::new(vec![1])), NbtTag::IntArray(NbtIntArray::new(vec![2])));
    assert_ne!(NbtTag::from(NbtLongArray::new(vec![1])), NbtTag::LongArray(NbtLongArray::new(vec![])));
    let mut one = NbtList::new();
    one.add(NbtTag::Byte(1)).unwrap();
    let mut two = NbtList::new();
    two.add(NbtTag::Byte(1)).unwrap();
    assert!(same_list(&one, &two));
    two.add(NbtTag::Byte(1)).unwrap();
    assert!(!same_list(&one, &two));
    assert_ne!(NbtTag::from(one), NbtTag::from(two));
    assert_eq!(NbtTag::from(NbtCompound::new("a".to_string())), NbtTag::Compound(NbtCompound::new("b".to_string())));
}

#[test]
fn nbt_copies_hold_the_same() {
    let compound = sample();
    let copy = compound.clone();
    assert_eq!(copy, compound);
    assert_eq!(named(&copy), named(&compound));
    let mut changed = compound.clone();
    changed.add("byte".to_string(), NbtTag::Byte(0));
    assert_ne!(changed, compound);
    assert!(matches!(compound.get("byte"), Some(NbtTag::Byte(-1))));
    let tag = NbtTag::Compound(sample());
    assert_eq!(tag.clone(), tag);
    let mut list = NbtList::new();
    list.add(NbtTag::LongArray(NbtLongArray::new(vec![1, 2]))).unwrap();
    assert_eq!(list.clone(), list);
    assert_eq!(NbtList::new().clone(), NbtList::new());
}

#[test]
fn nbt_parts_on_their_own() {
    // a leaf is any tag but a list or a compound
    let mut cursor = McDeserializer::new(&[0, 0, 0, 0, 0]);
    assert!(matches!(deserialize_leaf(9, &mut cursor), Err(SerializingErr::InvalidTagType)));
    assert!(matches!(deserialize_leaf(10, &mut cursor), Err(SerializingErr::InvalidTagType)));
    assert_eq!(cursor.remaining(), 5);
    assert_eq!(deserialize_leaf(3, &mut cursor), Ok(NbtTag::Int(0)));
    assert_eq!(deserialize_leaf(0, &mut cursor), Ok(NbtTag::End));
    assert_eq!(cursor.remaining(), 1);

    let mut cursor = McDeserializer::new(&[0, 0, 0, 2, 0, 1, 0, 2, 9]);
    assert_eq!(deserialize_array::<i16>(&mut cursor), Ok(vec![1, 2]));
    assert_eq!(cursor.remaining(), 1);
    let mut cursor = McDeserializer::new(&[0, 0, 0, 2, 0, 1, 0]);
    assert_eq!(deserialize_array::<i16>(&mut cursor), Err(SerializingErr::InputEnded));
    assert_eq!(cursor.remaining(), 7);
    let mut cursor = McDeserializer::new(&[0x7F, 0xFF, 0xFF, 0xFF, 0x80, 0, 0, 0]);
    assert_eq!(deserialize_count(&mut cursor), Ok(2147483647));
    assert_eq!(deserialize_count(&mut cursor), Ok(0));
    assert_eq!(deserialize_count(&mut cursor), Err(SerializingErr::InputEnded));

    let mut serializer = McSerializer::new();
    serialize_array(&vec![1i16, -1], &mut serializer).unwrap();
    assert_eq!(serializer.output, vec![0, 0, 0, 2, 0, 1, 255, 255]);
    serializer.clear();
    serialize_nbt_string("é", &mut serializer).unwrap();
    assert_eq!(serializer.output, vec![0, 2, 0xC3, 0xA9]);
    serializer.clear();
    serialize_entry("k", &NbtTag::Short(7), &mut serializer).unwrap();
    assert_eq!(serializer.output, vec![2, 0, 1, b'k', 0, 7]);
    assert_eq!(
        serialize_entry("k", &NbtTag::End, &mut serializer),
        Err(SerializingErr::InvalidTagType)
    );
    assert_eq!(serializer.len(), 6);

    assert!(list_is_valid(&NbtList::new()));
    assert!(list_is_valid(&NbtList { type_id: 200, list: vec![] }));
    assert!(!list_is_valid(&NbtList { type_id: 0, list: vec![NbtTag::End] }));
    assert!(!list_is_valid(&NbtList { type_id: 1, list: vec![NbtTag::Byte(1), NbtTag::End] }));
    assert!(list_is_valid(&NbtList { type_id: 1, list: vec![NbtTag::Byte(1), NbtTag::Byte(2)] }));
}

#[test]
fn nbt_add_tag_refuses_end_and_other_types() {
    // a fresh list has no type yet, and an End tag gives it none
    let mut list = NbtList::new();
    assert_eq!(list.add_tag(NbtTag::End), Err(SerializingErr::InvalidTagType));
    assert_eq!(list.len(), 0);
    assert_eq!(list.type_id, 0);
    assert!(list.list.is_empty());
    assert!(list_is_valid(&list));
    // nor does any other tag: add_tag never sets the type
    assert_eq!(list.add_tag(NbtTag::Int(1)), Err(SerializingErr::InvalidTagType));
    assert_eq!(list.len(), 0);
    // once the list has a type, tags of that type go in and others do not
    list.add(NbtTag::Int(1)).unwrap();
    assert_eq!(list.add_tag(NbtTag::Int(2)), Ok(()));
    assert_eq!(list.add_tag(NbtTag::Long(3)), Err(SerializingErr::InvalidTagType));
    assert_eq!(list.add_tag(NbtTag::End), Err(SerializingErr::InvalidTagType));
    assert_eq!(list.len(), 2);
    assert_eq!(list.type_id, 3);
    assert!(matches!(list.get(1), Some(NbtTag::Int(2))));
    assert!(list_is_valid(&list));
    // a list that was given the type End by hand takes nothing either
    let mut ends = NbtList { type_id: 0, list: vec![] };
    assert_eq!(ends.add_tag(NbtTag::End), Err(SerializingErr::InvalidTagType));
    assert!(ends.list.is_empty());
}

#[test]
fn nbt_tag_behind_its_type_byte() {
    let mut cursor = McDeserializer::new(&[3, 0, 0, 0, 7, 0xEE]);
    assert_eq!(NbtTag::mc_deserialize(&mut cursor), Ok(NbtTag::Int(7)));
    assert_eq!(cursor.remaining(), 1);
    let mut cursor = McDeserializer::new(&[0, 0xEE]);
    assert_eq!(deserialize_tag(&mut cursor), Ok(NbtTag::End));
    assert_eq!(cursor.remaining(), 1);
    let mut cursor = McDeserializer::new(&[8, 0, 2, b'h', b'i']);
    assert_eq!(NbtTag::mc_deserialize(&mut cursor), Ok(NbtTag::String("hi".to_string())));
    // a compound behind its type byte has no name: its body follows at once
    let mut cursor = McDeserializer::new(&[10, 1, 0, 1, b'a', 5, 0]);
    let mut expected = NbtCompound::new(String::new());
    expected.add("a".to_string(), NbtTag::Byte(5));
    assert_eq!(NbtTag::mc_deserialize(&mut cursor), Ok(NbtTag::Compound(expected)));
    assert!(cursor.is_at_end());
    // nothing is read where it fails
    let mut cursor = McDeserializer::new(&[]);
    assert_eq!(NbtTag::mc_deserialize(&mut cursor), Err(SerializingErr::InputEnded));
    let mut cursor = McDeserializer::new(&[3, 0, 0, 0]);
    assert_eq!(NbtTag::mc_deserialize(&mut cursor), Err(SerializingErr::InputEnded));
    assert_eq!(cursor.remaining(), 4);
    let mut cursor = McDeserializer::new(&[13, 0]);
    assert_eq!(NbtTag::mc_deserialize(&mut cursor), Err(SerializingErr::InvalidTagType));
    assert_eq!(cursor.remaining(), 2);
    // what is written for a tag is read back behind the byte of its type
    for tag in [NbtTag::Long(-5), NbtTag::Compound(sample()), NbtTag::List(NbtList::new())] {
        let mut serializer = McSerializer::new();
        serializer.serialize_u8(tag.get_type_id());
        tag.mc_serialize(&mut serializer).unwrap();
        let mut cursor = McDeserializer::new(&serializer.output);
        assert_eq!(NbtTag::mc_deserialize(&mut cursor), Ok(tag));
        assert!(cursor.is_at_end());
    }
}
