use sandstone::packets::fields::{FieldType, FieldValue};
use sandstone::packets::raw_packet::RawPacket;
use sandstone::packets::serialization::primitives::{
    deserialize_length, deserialize_prefixed, deserialize_string, read_be, serialize_length,
    serialize_prefixed, serialize_string, take_be, write_be, Uuid, MAX_STRING_BYTES,
};
use sandstone::packets::serialization::serializer_error::SerializingErr;
use sandstone::packets::serialization::serializer_handler::{
    McDeserialize, McDeserializer, McSerialize, McSerializer,
};
use sandstone::protocol_details::datatypes::var_types::{
    read_var, to_signed_32, to_signed_64, to_unsigned_32, to_unsigned_64, write_var,
    NumberWrongSizeError, VarInt, VarLong,
};
use std::str::FromStr;

fn bytes_of<T: McSerialize>(value: &T) -> Vec<u8> {
    let mut serializer = McSerializer::new();
    value.mc_serialize(&mut serializer).unwrap();
    serializer.output
}

fn read<T: McDeserialize>(bytes: &[u8]) -> (Result<T, SerializingErr>, usize) {
    let mut cursor = McDeserializer::new(bytes);
    let result = T::mc_deserialize(&mut cursor);
    (result, cursor.remaining())
}

#[test]
fn fixed_width_integers_are_big_endian() {
    assert_eq!(bytes_of(&0x12u8), vec![0x12]);
    assert_eq!(bytes_of(&-1i8), vec![0xFF]);
    assert_eq!(bytes_of(&25565u16), vec![0x63, 0xDD]);
    assert_eq!(bytes_of(&-2i16), vec![0xFF, 0xFE]);
    assert_eq!(bytes_of(&0x01020304u32), vec![1, 2, 3, 4]);
    assert_eq!(bytes_of(&-2147483648i32), vec![0x80, 0, 0, 0]);
    assert_eq!(bytes_of(&0x0102030405060708u64), vec![1, 2, 3, 4, 5, 6, 7, 8]);
    assert_eq!(bytes_of(&-1i64), vec![0xFF; 8]);
    assert_eq!(bytes_of(&i64::MIN), vec![0x80, 0, 0, 0, 0, 0, 0, 0]);

    assert_eq!(read::<u8>(&[0x12, 9]), (Ok(0x12), 1));
    assert_eq!(read::<i8>(&[0x80]), (Ok(-128), 0));
    assert_eq!(read::<u16>(&[0x63, 0xDD]), (Ok(25565), 0));
    assert_eq!(read::<i16>(&[0xFF, 0xFE, 1]), (Ok(-2), 1));
    assert_eq!(read::<u32>(&[0xFF, 0xFF, 0xFF, 0xFF]), (Ok(u32::MAX), 0));
    assert_eq!(read::<i32>(&[0x80, 0, 0, 0]), (Ok(i32::MIN), 0));
    assert_eq!(read::<i32>(&[0x7F, 0xFF, 0xFF, 0xFF]), (Ok(i32::MAX), 0));
    assert_eq!(read::<u64>(&[0xFF; 8]), (Ok(u64::MAX), 0));
    assert_eq!(read::<i64>(&[0xFF; 8]), (Ok(-1), 0));
}

#[test]
fn fixed_width_integers_need_all_their_bytes() {
    assert_eq!(read::<u8>(&[]), (Err(SerializingErr::InputEnded), 0));
    assert_eq!(read::<i8>(&[]), (Err(SerializingErr::InputEnded), 0));
    assert_eq!(read::<u16>(&[1]), (Err(SerializingErr::InputEnded), 1));
    assert_eq!(read::<i16>(&[1]), (Err(SerializingErr::InputEnded), 1));
    assert_eq!(read::<u32>(&[1, 2, 3]), (Err(SerializingErr::InputEnded), 3));
    assert_eq!(read::<i32>(&[1, 2, 3]), (Err(SerializingErr::InputEnded), 3));
    assert_eq!(read::<u64>(&[0; 7]), (Err(SerializingErr::InputEnded), 7));
    assert_eq!(read::<i64>(&[0; 7]), (Err(SerializingErr::InputEnded), 7));
    assert_eq!(read::<Uuid>(&[0; 15]), (Err(SerializingErr::InputEnded), 15));
}

#[test]
fn integers_round_trip() {
    for v in [i8::MIN, -1, 0, 1, i8::MAX] {
        assert_eq!(read::<i8>(&bytes_of(&v)), (Ok(v), 0));
    }
    for v in [i16::MIN, -1, 0, 1, 255, 256, i16::MAX] {
        assert_eq!(read::<i16>(&bytes_of(&v)), (Ok(v), 0));
    }
    for v in [i32::MIN, -65536, -1, 0, 1, 65536, i32::MAX] {
        assert_eq!(read::<i32>(&bytes_of(&v)), (Ok(v), 0));
    }
    for v in [i64::MIN, -1, 0, 1, 1 << 40, i64::MAX] {
        assert_eq!(read::<i64>(&bytes_of(&v)), (Ok(v), 0));
    }
    for v in [0u16, 1, 255, 256, u16::MAX] {
        assert_eq!(read::<u16>(&bytes_of(&v)), (Ok(v), 0));
    }
    for v in [0u64, 1, u64::MAX] {
        assert_eq!(read::<u64>(&bytes_of(&v)), (Ok(v), 0));
    }
}

#[test]
fn booleans() {
    assert_eq!(bytes_of(&true), vec![1]);
    assert_eq!(bytes_of(&false), vec![0]);
    assert_eq!(read::<bool>(&[0]), (Ok(false), 0));
    assert_eq!(read::<bool>(&[1]), (Ok(true), 0));
    assert_eq!(read::<bool>(&[0x80, 0]), (Ok(true), 1));
    assert_eq!(read::<bool>(&[]), (Err(SerializingErr::InputEnded), 0));
}

#[test]
fn uuids_are_sixteen_bytes() {
    let uuid = Uuid(0x0102030405060708090A0B0C0D0E0F10);
    let bytes = bytes_of(&uuid);
    assert_eq!(bytes, (1..=16).collect::<Vec<u8>>());
    assert_eq!(read::<Uuid>(&bytes), (Ok(uuid), 0));
    assert_eq!(read::<Uuid>(&[0xFF; 17]), (Ok(Uuid(u128::MAX)), 1));
}

#[test]
fn strings() {
    assert_eq!(bytes_of(&"localhost".to_string())[0], 9);
    assert_eq!(bytes_of(&String::new()), vec![0]);
    assert_eq!(bytes_of(&"é".to_string()), vec![2, 0xC3, 0xA9]);
    assert_eq!(read::<String>(&[2, 0xC3, 0xA9, 5]), (Ok("é".to_string()), 1));
    assert_eq!(read::<String>(&[2, 0xC3, 0x28]), (Err(SerializingErr::InvalidUtf8), 3));
    assert_eq!(read::<String>(&[3, b'a', b'b']), (Err(SerializingErr::InputEnded), 3));
    assert_eq!(read::<String>(&[]), (Err(SerializingErr::InputEnded), 0));
    assert_eq!(read::<String>(&[0x80]), (Err(SerializingErr::InputEnded), 1));
    // a negative length
    assert_eq!(
        read::<String>(&[0xFF, 0xFF, 0xFF, 0xFF, 0x0F]),
        (Err(SerializingErr::LengthExceedsBound), 5)
    );
    // one more than the bound that holds where none is declared
    assert_eq!(
        read::<String>(&[0x80, 0x80, 0x02]),
        (Err(SerializingErr::LengthExceedsBound), 3)
    );
    let longest = "x".repeat(MAX_STRING_BYTES);
    assert_eq!(read::<String>(&bytes_of(&longest)), (Ok(longest), 0));
    let mut serializer = McSerializer::new();
    assert_eq!(
        "x".repeat(MAX_STRING_BYTES + 1).mc_serialize(&mut serializer),
        Err(SerializingErr::LengthExceedsBound)
    );
    assert!(serializer.output.is_empty());
}

#[test]
fn strings_with_a_bound_of_the_caller() {
    let mut serializer = McSerializer::new();
    assert_eq!(serialize_string("abc", 3, &mut serializer), Ok(()));
    assert_eq!(serialize_string("abcd", 3, &mut serializer), Err(SerializingErr::LengthExceedsBound));
    assert_eq!(serializer.output, vec![3, b'a', b'b', b'c']);
    let mut cursor = McDeserializer::new(&[3, b'a', b'b', b'c']);
    assert_eq!(deserialize_string(&mut cursor, 2), Err(SerializingErr::LengthExceedsBound));
    assert_eq!(cursor.remaining(), 4);
    assert_eq!(deserialize_string(&mut cursor, 3), Ok("abc".to_string()));
    assert!(cursor.is_at_end());
}

#[test]
fn byte_arrays() {
    assert_eq!(bytes_of(&vec![7u8, 8, 9]), vec![3, 7, 8, 9]);
    assert_eq!(read::<Vec<u8>>(&[3, 7, 8, 9, 1]), (Ok(vec![7, 8, 9]), 1));
    assert_eq!(read::<Vec<u8>>(&[0]), (Ok(vec![]), 0));
    assert_eq!(read::<Vec<u8>>(&[4, 7, 8, 9]), (Err(SerializingErr::InputEnded), 4));
    let mut serializer = McSerializer::new();
    assert_eq!(serialize_prefixed(&[1, 2], 1, &mut serializer), Err(SerializingErr::LengthExceedsBound));
    assert_eq!(serialize_prefixed(&[1, 2], 2, &mut serializer), Ok(()));
    assert_eq!(serialize_length(300, 300, &mut serializer), Ok(()));
    assert_eq!(serialize_length(301, 300, &mut serializer), Err(SerializingErr::LengthExceedsBound));
    assert_eq!(serializer.output, vec![2, 1, 2, 0xAC, 0x02]);
    let mut cursor = McDeserializer::new(&serializer.output);
    assert_eq!(deserialize_prefixed(&mut cursor, 2), Ok(&[1u8, 2][..]));
    assert_eq!(deserialize_length(&mut cursor, 299), Err(SerializingErr::LengthExceedsBound));
    assert_eq!(deserialize_length(&mut cursor, 300), Ok(300));
}

#[test]
fn var_numbers_as_fields() {
    assert_eq!(bytes_of(&VarInt(300)), vec![0xAC, 0x02]);
    assert_eq!(bytes_of(&VarLong(-1)).len(), 10);
    assert_eq!(read::<VarInt>(&[0xAC, 0x02, 7]), (Ok(VarInt(300)), 1));
    assert_eq!(read::<VarLong>(&[0xFF, 0x01]), (Ok(VarLong(255)), 0));
    assert_eq!(read::<VarInt>(&[0xAC]), (Err(SerializingErr::InputEnded), 1));
    assert_eq!(read::<VarInt>(&[0xFF; 6]), (Err(SerializingErr::VarIntOverflow), 6));
    assert_eq!(read::<VarLong>(&[0xFF; 11]), (Err(SerializingErr::VarIntOverflow), 11));
    // a VarInt stops after five bytes even where a VarLong would go on
    assert_eq!(read::<VarLong>(&[0x80, 0x80, 0x80, 0x80, 0x80, 0x01]), (Ok(VarLong(1 << 35)), 0));
}

#[test]
fn var_number_helpers() {
    assert_eq!(read_var(&[9, 0xAC, 0x02], 1, 5), Ok((300, 2)));
    assert_eq!(read_var(&[0xAC, 0x02], 0, 1), Err(SerializingErr::VarIntOverflow));
    assert_eq!(read_var(&[0xAC, 0x02], 0, 0), Err(SerializingErr::VarIntOverflow));
    assert_eq!(read_var(&[0xAC], 1, 5), Err(SerializingErr::InputEnded));
    let mut out = vec![1];
    write_var(300, &mut out);
    write_var(0, &mut out);
    write_var(u64::MAX, &mut out);
    assert_eq!(&out[..4], &[1, 0xAC, 0x02, 0]);
    assert_eq!(out.len(), 14);
    assert_eq!(to_unsigned_32(-1), 0xFFFF_FFFF);
    assert_eq!(to_unsigned_32(i32::MIN), 0x8000_0000);
    assert_eq!(to_unsigned_32(5), 5);
    assert_eq!(to_unsigned_64(-1), u64::MAX);
    assert_eq!(to_unsigned_64(i64::MIN), 1 << 63);
    assert_eq!(to_signed_32(0xFFFF_FFFF), -1);
    assert_eq!(to_signed_32(0x7_FFFF_FFFF), -1);
    assert_eq!(to_signed_32(0x8000_0000), i32::MIN);
    assert_eq!(to_signed_32(0x7FFF_FFFF), i32::MAX);
    assert_eq!(to_signed_64(u64::MAX as u128), -1);
    assert_eq!(to_signed_64(1u128 << 63), i64::MIN);
    assert_eq!(to_signed_64((1u128 << 64) + 5), 5);
}

#[test]
fn big_endian_helpers() {
    let mut serializer = McSerializer::new();
    write_be(0x010203, 2, &mut serializer);
    write_be(5, 0, &mut serializer);
    write_be(5, 3, &mut serializer);
    assert_eq!(serializer.output, vec![2, 3, 0, 0, 5]);
    assert_eq!(read_be(&[1, 2, 3]), 0x010203);
    assert_eq!(read_be(&[]), 0);
    assert_eq!(read_be(&[0xFF; 16]), u128::MAX);
    let mut cursor = McDeserializer::new(&[1, 2, 3]);
    assert_eq!(take_be(&mut cursor, 2), Ok(0x0102));
    assert_eq!(take_be(&mut cursor, 2), Err(SerializingErr::InputEnded));
    assert_eq!(take_be(&mut cursor, 0), Ok(0));
    assert_eq!(cursor.remaining(), 1);
}

#[test]
fn varint_as_text() {
    assert_eq!(VarInt(65).to_text(), Ok("A".to_string()));
    assert_eq!(VarInt(128).to_text(), Err(SerializingErr::InvalidUtf8));
    assert_eq!(VarInt::from_text("A"), Ok(VarInt(65)));
    assert_eq!(VarInt::from_str("A"), Ok(VarInt(65)));
    assert_eq!("\u{0}".parse::<VarInt>(), Ok(VarInt(0)));
    assert_eq!(VarInt::from_text(""), Err(NumberWrongSizeError::VarIntError));
    assert_eq!(VarInt::from_text("ABCDEF"), Err(NumberWrongSizeError::VarIntError));
    // two bytes of which the first asks for more than is there
    assert_eq!(VarInt::from_text("é"), Err(NumberWrongSizeError::VarIntError));
    assert_eq!(
        NumberWrongSizeError::VarIntError.message(),
        "VarInt should be between 1 and 5 bytes"
    );
    assert_eq!(
        NumberWrongSizeError::VarLongError.message(),
        "VarLong should be between 1 and 10 bytes"
    );
}

#[test]
fn error_descriptions() {
    let all = [
        (SerializingErr::InputEnded, "Input ended prematurely", true),
        (SerializingErr::VarIntOverflow, "The VarType did not end when it should have", false),
        (SerializingErr::InvalidUtf8, "Could not deserialize String", false),
        (SerializingErr::LengthExceedsBound, "A length prefix exceeds its bound", false),
        (SerializingErr::LeftoverInput, "There is unused input data left", false),
        (SerializingErr::UnknownPacket, "Could not find matching type", false),
        (SerializingErr::InvalidTagType, "Could not identify tag type", false),
    ];
    for (error, text, recoverable) in all {
        assert_eq!(error.message(), text);
        assert_eq!(error.is_recoverable(), recoverable);
    }
    let invalid = std::str::from_utf8(&[0xC3, 0x28]).unwrap_err();
    assert_eq!(SerializingErr::from(invalid), SerializingErr::InvalidUtf8);
}

#[test]
fn serializer_buffer() {
    let mut serializer = McSerializer::new();
    assert_eq!(serializer.len(), 0);
    serializer.serialize_u8(1);
    serializer.serialize_bytes(&[2, 3]);
    serializer.serialize_bytes(&[]);
    serializer.serialize_vec(vec![4]);
    let mut other = McSerializer::new();
    other.serialize_u8(5);
    serializer.merge(other);
    assert_eq!(serializer.output, vec![1, 2, 3, 4, 5]);
    assert_eq!(serializer.len(), 5);
    serializer.truncate(9);
    assert_eq!(serializer.len(), 5);
    serializer.truncate(2);
    assert_eq!(serializer.output, vec![1, 2]);
    serializer.clear();
    assert!(serializer.output.is_empty());
}

#[test]
fn cursor() {
    let data = [1u8, 2, 3, 4, 5];
    let mut cursor = McDeserializer::new(&data);
    assert_eq!(cursor.remaining(), 5);
    assert!(!cursor.is_at_end());
    assert_eq!(cursor.peek(2), Ok(&[1u8, 2][..]));
    assert_eq!(cursor.peek(6), Err(SerializingErr::InputEnded));
    assert_eq!(cursor.remaining(), 5);
    assert_eq!(cursor.take(2), Ok(&[1u8, 2][..]));
    assert_eq!(cursor.take(4), Err(SerializingErr::InputEnded));
    assert_eq!(cursor.collect_remaining(), &[3, 4, 5]);
    assert_eq!(cursor.pop(), Some(3));
    // a child over the next byte: the parent goes on behind it at once
    let mut child = cursor.sub_deserializer_length(1).unwrap();
    assert_eq!(cursor.collect_remaining(), &[5]);
    assert_eq!(child.remaining(), 1);
    assert_eq!(child.take(2), Err(SerializingErr::InputEnded));
    assert_eq!(child.pop(), Some(4));
    assert_eq!(child.pop(), None);
    assert_eq!(cursor.remaining(), 1);
    assert!(cursor.sub_deserializer_length(2).is_err());
    assert_eq!(cursor.increment(2), Err(SerializingErr::InputEnded));
    assert_eq!(cursor.increment(1), Ok(()));
    assert!(cursor.is_at_end());
    assert_eq!(cursor.pop(), None);
    assert_eq!(cursor.take(0), Ok(&[][..]));
    // a copy remembers a position
    let mut cursor = McDeserializer::new(&data);
    let saved = cursor;
    cursor.take(3).unwrap();
    cursor = saved;
    assert_eq!(cursor.remaining(), 5);
}

#[test]
fn raw_packets() {
    let packet = RawPacket::new(VarInt(3), VarInt(0x7F), 0x0102u16);
    assert_eq!(bytes_of(&packet), vec![3, 0x7F, 1, 2]);
    assert_eq!(packet.length(), VarInt(3));
    assert_eq!(packet.packet_id(), VarInt(0x7F));
    assert_eq!(*packet.data(), 0x0102);
    let mut cursor = McDeserializer::new(&[0xAC, 0x02, 5, b'h', b'i', 9]);
    let text = RawPacket::<String>::mc_deserialize(&mut cursor);
    assert!(text.is_err());
    assert_eq!(cursor.remaining(), 6);
    let mut cursor = McDeserializer::new(&[0xAC, 0x02, 5, 2, b'h', b'i', 9]);
    let text = RawPacket::<String>::mc_deserialize(&mut cursor).ok().unwrap();
    assert_eq!(text.length(), VarInt(300));
    assert_eq!(text.packet_id(), VarInt(5));
    assert_eq!(text.data(), "hi");
    assert_eq!(cursor.remaining(), 1);
    let too_long = RawPacket::new(VarInt(1), VarInt(1), "x".repeat(40000));
    let mut serializer = McSerializer::new();
    serializer.serialize_u8(1);
    assert_eq!(too_long.mc_serialize(&mut serializer), Err(SerializingErr::LengthExceedsBound));
    assert_eq!(serializer.output, vec![1]);
}

#[test]
fn field_values_of_every_type() {
    let cases = vec![
        (FieldType::Bool, FieldValue::Bool(true), vec![1]),
        (FieldType::Byte, FieldValue::Byte(-2), vec![0xFE]),
        (FieldType::UnsignedByte, FieldValue::UnsignedByte(200), vec![200]),
        (FieldType::Short, FieldValue::Short(-2), vec![0xFF, 0xFE]),
        (FieldType::UnsignedShort, FieldValue::UnsignedShort(25565), vec![0x63, 0xDD]),
        (FieldType::Int, FieldValue::Int(1), vec![0, 0, 0, 1]),
        (FieldType::Long, FieldValue::Long(-1), vec![0xFF; 8]),
        (FieldType::Float, FieldValue::Float(1.0f32.to_bits()), vec![0x3F, 0x80, 0, 0]),
        (FieldType::Double, FieldValue::Double(1.0f64.to_bits()), vec![0x3F, 0xF0, 0, 0, 0, 0, 0, 0]),
        (FieldType::VarInt, FieldValue::VarInt(VarInt(300)), vec![0xAC, 0x02]),
        (FieldType::VarLong, FieldValue::VarLong(VarLong(300)), vec![0xAC, 0x02]),
        (FieldType::String { max: 2 }, FieldValue::String("hi".to_string()), vec![2, b'h', b'i']),
        (FieldType::ByteArray, FieldValue::ByteArray(vec![7]), vec![1, 7]),
        (FieldType::Uuid, FieldValue::Uuid(Uuid(1)), vec![0, 0, 0, 0, 0, 0, 0, 0, 0, 0, 0, 0, 0, 0, 0, 1]),
    ];
    for (ty, value, bytes) in cases {
        assert_eq!(bytes_of(&value), bytes);
        let mut longer = bytes.clone();
        longer.push(0x55);
        let mut cursor = McDeserializer::new(&longer);
        assert_eq!(ty.deserialize(&mut cursor), Ok(value));
        assert_eq!(cursor.remaining(), 1);
        let mut cursor = McDeserializer::new(&bytes[..bytes.len() - 1]);
        assert_eq!(ty.deserialize(&mut cursor), Err(SerializingErr::InputEnded));
        assert_eq!(cursor.remaining(), bytes.len() - 1);
    }
    let mut cursor = McDeserializer::new(&[3, b'a', b'b', b'c']);
    assert_eq!(
        FieldType::String { max: 2 }.deserialize(&mut cursor),
        Err(SerializingErr::LengthExceedsBound)
    );
}
