use garmin_fit::base_type::BaseType;
use garmin_fit::error::DecodeError;
use garmin_fit::value::Value;

const ALL_TAGS: [u8; 17] = [0, 13, 7, 1, 131, 133, 142, 2, 132, 134, 143, 10, 139, 140, 144, 136, 137];

fn base(tag: u8) -> BaseType {
    BaseType::parse(&tag).unwrap()
}

fn sentinel_bytes(bt: &BaseType, little_endian: bool) -> Vec<u8> {
    let mut bytes: Vec<u8> = bt.invalid_value.to_le_bytes()[..bt.read_size].to_vec();
    if !little_endian {
        bytes.reverse();
    }
    bytes
}

#[test]
fn parse_knows_every_base_type() {
    for tag in ALL_TAGS {
        let bt = base(tag);
        assert_eq!(bt.type_number, tag);
    }
    assert_eq!(base(132).read_size, 2);
    assert_eq!(base(132).invalid_value, 0xFFFF);
    assert_eq!(base(142).read_size, 8);
    assert_eq!(base(142).invalid_value, 0x7FFF_FFFF_FFFF_FFFF);
    assert_eq!(base(140).invalid_value, 0);
}

#[test]
fn parse_rejects_unknown_tag() {
    assert_eq!(BaseType::parse(&3), Err(DecodeError::UnknownBaseType(3)));
    assert_eq!(BaseType::parse(&255), Err(DecodeError::UnknownBaseType(255)));
}

#[test]
fn sentinel_decodes_invalid_for_every_type() {
    for tag in ALL_TAGS {
        let bt = base(tag);
        for endianness in [0u8, 1u8] {
            let bytes = sentinel_bytes(&bt, endianness == 0);
            let v = bt.read(&bytes, endianness);
            assert!(v.is_invalid(), "tag {} endianness {}", tag, endianness);
        }
    }
}

#[test]
fn string_of_only_nulls_is_invalid() {
    assert_eq!(base(7).read(&[0], 0), Value::Invalid);
    assert_eq!(base(7).read(&[0, 0, 0, 0], 1), Value::Invalid);
    assert_eq!(base(7).read(&[], 0), Value::Invalid);
}

#[test]
fn string_is_utf8_text() {
    let v = base(7).read(&[0x63, 0x61, 0x66, 0xC3, 0xA9, 0x00], 0);
    assert_eq!(v, Value::StringValue("café".to_string()));
}

#[test]
fn string_that_is_not_utf8_keeps_each_byte() {
    assert_eq!(base(7).read(&[0x41, 0xC3], 0), Value::StringValue("A\u{C3}".to_string()));
    assert_eq!(base(7).read(&[0xFF, 0x00, 0x41], 1), Value::StringValue("\u{FF}A".to_string()));
    assert_eq!(base(7).read(&[0xFF], 0), Value::StringValue("\u{FF}".to_string()));
}

#[test]
fn array_of_only_sentinels_is_invalid() {
    let v = base(132).read(&[0xFF, 0xFF, 0xFF, 0xFF, 0xFF, 0xFF], 0);
    assert_eq!(v, Value::Invalid);
    let v = base(2).read(&[0xFF, 0xFF, 0xFF], 0);
    assert_eq!(v, Value::Invalid);
}

#[test]
fn array_keeps_only_non_sentinel_elements() {
    let v = base(132).read(&[0xFF, 0xFF, 0x05, 0x00, 0xFF, 0xFF], 0);
    assert_eq!(v, Value::NumberValueVecU16(vec![5]));
    let v = base(132).read(&[0x01, 0x02, 0xFF, 0xFF, 0x03, 0x04], 1);
    assert_eq!(v, Value::NumberValueVecU16(vec![0x0102, 0x0304]));
    let v = base(1).read(&[0x7F, 0x80, 0xFF], 0);
    assert_eq!(v, Value::NumberValueVecS8(vec![-128, -1]));
}

#[test]
fn enum_is_always_an_array() {
    assert_eq!(base(0).read(&[3], 0), Value::EnumValue(vec![3]));
    assert_eq!(base(0).read(&[0xFF], 0), Value::Invalid);
    assert_eq!(base(0).read(&[], 0), Value::Invalid);
    assert_eq!(base(0).read(&[1, 0xFF, 2], 0), Value::EnumValue(vec![1, 2]));
}

#[test]
fn string_skips_embedded_and_trailing_nulls() {
    let v = base(7).read(&[0x41, 0x00, 0x42, 0x00], 0);
    assert_eq!(v, Value::StringValue("AB".to_string()));
    let v = base(7).read(&[0x48, 0x69, 0x00, 0x00, 0x00], 0);
    assert_eq!(v, Value::StringValue("Hi".to_string()));
}

#[test]
fn scalars_follow_endianness_and_sign() {
    assert_eq!(base(132).read(&[0x34, 0x12], 0), Value::NumberValueU16(0x1234));
    assert_eq!(base(132).read(&[0x12, 0x34], 1), Value::NumberValueU16(0x1234));
    assert_eq!(base(131).read(&[0xFE, 0xFF], 0), Value::NumberValueS16(-2));
    assert_eq!(base(133).read(&[0x80, 0x00, 0x00, 0x00], 1), Value::NumberValueS32(i32::MIN));
    assert_eq!(
        base(142).read(&[0xFF, 0xFF, 0xFF, 0xFF, 0xFF, 0xFF, 0xFF, 0xFF], 0),
        Value::NumberValueS64(-1)
    );
    assert_eq!(base(134).read(&[1, 0, 0, 0], 0), Value::NumberValueU32(1));
    assert_eq!(base(143).read(&[0, 0, 0, 0, 0, 0, 0, 2], 1), Value::NumberValueU64(2));
    assert_eq!(base(10).read(&[7], 0), Value::NumberValueU8(7));
    assert_eq!(base(10).read(&[0], 0), Value::Invalid);
    assert_eq!(base(13).read(&[0xFE], 0), Value::NumberValueU8(0xFE));
}

#[test]
fn floats_keep_their_bit_patterns() {
    let one = 1.0f32.to_bits();
    let v = base(136).read(&one.to_le_bytes(), 0);
    assert_eq!(v, Value::NumberValueF32(one));
    if let Value::NumberValueF32(bits) = v {
        assert_eq!(f32::from_bits(bits), 1.0f32);
    }
    let x = 2.5f64.to_bits();
    assert_eq!(base(137).read(&x.to_be_bytes(), 1), Value::NumberValueF64(x));
    assert_eq!(base(136).read(&[0xFF, 0xFF, 0xFF, 0xFF], 0), Value::Invalid);
}
