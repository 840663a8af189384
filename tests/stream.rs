use garmin_fit::error::DecodeError;
use garmin_fit::fit_file::{FitFile, FitFileConfig};
use garmin_fit::header::Header;
use garmin_fit::fit_file_raw::FitFileRaw;
use garmin_fit::stream::decode_records;
use garmin_fit::value::Value;

fn file(records: &[u8]) -> Vec<u8> {
    let size = records.len() as u32;
    let mut b = vec![14, 0x10, 0x64, 0x00];
    b.extend_from_slice(&size.to_le_bytes());
    b.extend_from_slice(b".FIT");
    b.extend_from_slice(&[0xAB, 0xCD]);
    b.extend_from_slice(records);
    b.extend_from_slice(&[0x12, 0x34]);
    b
}

fn definition(slot: u8, endianness: u8, msg: u16, fields: &[(u8, u8, u8)]) -> Vec<u8> {
    let mut r = vec![0x40 | slot, 0, endianness];
    if endianness == 0 {
        r.extend_from_slice(&msg.to_le_bytes());
    } else {
        r.extend_from_slice(&msg.to_be_bytes());
    }
    r.push(fields.len() as u8);
    for (n, s, t) in fields {
        r.extend_from_slice(&[*n, *s, *t]);
    }
    r
}

fn data(slot: u8, bytes: &[u8]) -> Vec<u8> {
    let mut r = vec![slot];
    r.extend_from_slice(bytes);
    r
}

fn all_config() -> FitFileConfig {
    FitFileConfig {
        debug: false,
        include_unknown_fields: true,
        include_unknown_message_types: true,
        include_invalid_values: true,
        header_only: false,
    }
}

fn strict_config() -> FitFileConfig {
    FitFileConfig {
        debug: false,
        include_unknown_fields: false,
        include_unknown_message_types: false,
        include_invalid_values: false,
        header_only: false,
    }
}

#[test]
fn header_decodes_fields() {
    let bytes = [14, 0x10, 0x64, 0x00, 0, 0, 0, 0, b'.', b'F', b'I', b'T', 0xAB, 0xCD];
    let h = Header::read_header(&bytes);
    assert_eq!(h.length, 14);
    assert_eq!(h.protocol_version, 1);
    assert_eq!(h.profile_version, "1.0");
    assert_eq!(h.data_size, 0);
    assert_eq!(h.data_type, ".FIT");
    assert_eq!(h.crc, [0xCD, 0xAB]);
}

#[test]
fn header_profile_version_and_size() {
    let bytes = [12, 0x20, 0x2D, 0x08, 0x10, 0x20, 0x00, 0x01, b'.', b'F', b'I', b'T', 0, 0];
    let h = Header::read_header(&bytes);
    assert_eq!(h.length, 12);
    assert_eq!(h.protocol_version, 2);
    assert_eq!(h.profile_version, "20.93");
    assert_eq!(h.data_size, 0x0100_2010);
}

#[test]
fn record_pair_round_trips_every_base_type() {
    let samples: [(u8, Vec<u8>, Value); 16] = [
        (0, vec![4], Value::EnumValue(vec![4])),
        (13, vec![9], Value::NumberValueU8(9)),
        (1, vec![0x85], Value::NumberValueS8(-123)),
        (131, (-300i16).to_le_bytes().to_vec(), Value::NumberValueS16(-300)),
        (133, (-70000i32).to_le_bytes().to_vec(), Value::NumberValueS32(-70000)),
        (142, (-5i64).to_le_bytes().to_vec(), Value::NumberValueS64(-5)),
        (2, vec![200], Value::NumberValueU8(200)),
        (132, 513u16.to_le_bytes().to_vec(), Value::NumberValueU16(513)),
        (134, 70000u32.to_le_bytes().to_vec(), Value::NumberValueU32(70000)),
        (143, 1u64.to_le_bytes().to_vec(), Value::NumberValueU64(1)),
        (10, vec![1], Value::NumberValueU8(1)),
        (139, 2u16.to_le_bytes().to_vec(), Value::NumberValueU16(2)),
        (140, 3u32.to_le_bytes().to_vec(), Value::NumberValueU32(3)),
        (144, 4u64.to_le_bytes().to_vec(), Value::NumberValueU64(4)),
        (136, 1.5f32.to_bits().to_le_bytes().to_vec(), Value::NumberValueF32(1.5f32.to_bits())),
        (137, 0.25f64.to_bits().to_le_bytes().to_vec(), Value::NumberValueF64(0.25f64.to_bits())),
    ];
    for (tag, le, expected) in samples.iter() {
        for endianness in [0u8, 1u8] {
            let mut bytes = le.clone();
            if endianness == 1 {
                bytes.reverse();
            }
            let mut records = definition(2, endianness, 20, &[(7, bytes.len() as u8, *tag)]);
            records.extend(data(2, &bytes));
            let recs = decode_records(&file(&records)).unwrap();
            assert_eq!(recs.len(), 1);
            assert_eq!(recs[0].message_type_number, 20);
            assert_eq!(recs[0].values, vec![expected.clone()], "tag {} endianness {}", tag, endianness);
        }
    }
    let mut records = definition(0, 1, 20, &[(3, 5, 7)]);
    records.extend(data(0, b"ab\0\0\0"));
    let recs = decode_records(&file(&records)).unwrap();
    assert_eq!(recs[0].values, vec![Value::StringValue("ab".to_string())]);
}

#[test]
fn redefined_slot_uses_new_layout() {
    let mut records = definition(0, 0, 20, &[(1, 1, 2)]);
    records.extend(data(0, &[5]));
    records.extend(definition(0, 0, 21, &[(2, 2, 132), (3, 1, 2)]));
    records.extend(data(0, &[0x10, 0x00, 9]));
    records.extend(data(0, &[0x20, 0x00, 8]));
    let recs = decode_records(&file(&records)).unwrap();
    assert_eq!(recs.len(), 3);
    assert_eq!(recs[0].message_type_number, 20);
    assert_eq!(recs[0].values, vec![Value::NumberValueU8(5)]);
    for (rec, first) in recs[1..].iter().zip([0x10u16, 0x20u16]) {
        assert_eq!(rec.message_type_number, 21);
        assert_eq!(rec.fields.len(), 2);
        assert_eq!(rec.fields[0].number, 2);
        assert_eq!(rec.values[0], Value::NumberValueU16(first));
    }
    assert_eq!(recs[2].values[1], Value::NumberValueU8(8));
}

#[test]
fn undefined_local_message_is_fatal() {
    let mut records = definition(1, 0, 20, &[(1, 1, 2)]);
    records.extend(data(3, &[5]));
    assert_eq!(decode_records(&file(&records)).unwrap_err(), DecodeError::UndefinedLocalMessage(3));
    assert_eq!(
        FitFile::from(&file(&data(0, &[1])), &all_config()).unwrap_err(),
        DecodeError::UndefinedLocalMessage(0)
    );
}

#[test]
fn compressed_timestamp_header_is_fatal() {
    let records = vec![0x80, 1, 2];
    assert_eq!(decode_records(&file(&records)).unwrap_err(), DecodeError::CompressedTimestampHeader);
}

#[test]
fn unknown_base_type_is_fatal() {
    let mut records = definition(0, 0, 20, &[(1, 1, 3)]);
    records.extend(data(0, &[5]));
    assert_eq!(decode_records(&file(&records)).unwrap_err(), DecodeError::UnknownBaseType(3));
}

#[test]
fn field_size_must_fit_base_type() {
    let mut records = definition(0, 0, 20, &[(1, 3, 132)]);
    records.extend(data(0, &[5, 6, 7]));
    assert_eq!(decode_records(&file(&records)).unwrap_err(), DecodeError::BadFieldSize);
}

#[test]
fn truncated_input_is_fatal() {
    assert_eq!(decode_records(&vec![14, 0x10]).unwrap_err(), DecodeError::Truncated);
    let mut records = definition(0, 0, 20, &[(1, 4, 134)]);
    records.extend(data(0, &[5, 6]));
    assert_eq!(decode_records(&file(&records)).unwrap_err(), DecodeError::Truncated);
    let records = vec![0x40, 0, 0, 20];
    assert_eq!(decode_records(&file(&records)).unwrap_err(), DecodeError::Truncated);
    assert_eq!(FitFile::from(&vec![1, 2, 3], &all_config()).unwrap_err(), DecodeError::Truncated);
}

#[test]
fn empty_record_section_has_no_messages() {
    let recs = decode_records(&file(&[])).unwrap();
    assert!(recs.is_empty());
}

fn field_description(index: u8, number: u8, base: u8, name: &[u8; 4]) -> Vec<u8> {
    let mut records = definition(5, 0, 206, &[(0, 1, 2), (1, 1, 2), (2, 1, 2), (3, 4, 7)]);
    let mut bytes = vec![index, number, base];
    bytes.extend_from_slice(name);
    records.extend(data(5, &bytes));
    records
}

#[test]
fn developer_fields_are_declared_then_used() {
    let mut records = field_description(0, 1, 132, b"pow\0");
    let mut def = definition(1, 0, 20, &[(3, 1, 2)]);
    def[0] |= 0x20;
    def.extend_from_slice(&[1, 1, 2, 0]);
    records.extend(def);
    records.extend(data(1, &[7, 0x34, 0x12]));
    let recs = decode_records(&file(&records)).unwrap();
    assert_eq!(recs.len(), 2);
    assert_eq!(recs[0].message_type_number, 206);
    assert_eq!(recs[1].values, vec![Value::NumberValueU8(7), Value::NumberValueU16(0x1234)]);
    assert!(recs[1].fields[1].is_dev_field);
}

#[test]
fn developer_field_without_declaration_is_fatal() {
    let mut def = definition(1, 0, 20, &[]);
    def[0] |= 0x20;
    def.extend_from_slice(&[1, 1, 2, 0]);
    let mut records = def;
    records.extend(data(1, &[0x34, 0x12]));
    assert_eq!(decode_records(&file(&records)).unwrap_err(), DecodeError::UnknownDeveloperField);
}

#[test]
fn malformed_field_description_is_fatal() {
    let mut records = definition(5, 0, 206, &[(0, 1, 2), (1, 1, 2)]);
    records.extend(data(5, &[0, 1]));
    assert_eq!(decode_records(&file(&records)).unwrap_err(), DecodeError::MalformedFieldDescription);
    let mut records = definition(5, 0, 206, &[(0, 1, 0), (1, 1, 2), (2, 1, 2), (3, 2, 7)]);
    records.extend(data(5, &[0, 1, 2, b'x', 0]));
    assert_eq!(decode_records(&file(&records)).unwrap_err(), DecodeError::MalformedFieldDescription);
}

#[test]
fn raw_file_drops_invalid_values() {
    let mut records = definition(0, 0, 20, &[(1, 1, 2), (2, 1, 2)]);
    records.extend(data(0, &[0xFF, 4]));
    let raw = FitFileRaw::from(&file(&records)).unwrap();
    assert_eq!(raw.messages.len(), 1);
    assert_eq!(raw.messages[0].message_number, 20);
    assert_eq!(raw.messages[0].fields.data.len(), 1);
    assert_eq!(raw.messages[0].fields.data[0].field_number, 2);
    assert_eq!(raw.messages[0].fields.data[0].value, Value::NumberValueU8(4));
}

#[test]
fn read_message_decodes_one_record() {
    let mut records = definition(0, 0, 20, &[(1, 1, 2), (2, 2, 132)]);
    records.extend(data(0, &[0xFF, 4, 0]));
    let buffer = file(&records);
    let def_end = 14 + 9 + 3;
    let (def, next) =
        garmin_fit::definition::MessageDefinitionRaw::read_definition(&buffer, 14, buffer.len() - 2).unwrap();
    assert_eq!(next, def_end);
    assert_eq!(def.fields.len(), 2);
    let (msg, after) = def.read_message(&(next + 1), &buffer, &Vec::new()).unwrap();
    assert_eq!(after, next + 4);
    assert_eq!(msg.fields.data.len(), 1);
    assert_eq!(msg.fields.data[0].value, Value::NumberValueU16(4));
}

#[test]
fn filtering_changes_membership_not_positions() {
    let mut records = definition(0, 0, 0, &[(0, 1, 0), (99, 1, 2), (1, 2, 132)]);
    records.extend(data(0, &[4, 1, 0xFF, 0xFF]));
    records.extend(definition(1, 0, 999, &[(0, 1, 2)]));
    records.extend(data(1, &[3]));
    records.extend(data(0, &[5, 2, 7, 0]));
    let buffer = file(&records);
    let all = FitFile::from(&buffer, &all_config()).unwrap();
    let strict = FitFile::from(&buffer, &strict_config()).unwrap();
    assert_eq!(all.messages.len(), 3);
    assert_eq!(strict.messages.len(), 2);
    assert_eq!(all.messages[0].data.data.len(), 3);
    assert_eq!(strict.messages[0].data.data.len(), 1);
    assert_eq!(strict.messages[0].data.data[0].value, Value::EnumValue(vec![4]));
    assert_eq!(all.messages[2].data.data[2].value, Value::NumberValueU16(7));
    assert_eq!(strict.messages[1].data.data.len(), 2);
    assert_eq!(strict.messages[1].data.data[1].value, Value::NumberValueU16(7));
    let mut only_invalid = strict_config();
    only_invalid.include_invalid_values = true;
    let some = FitFile::from(&buffer, &only_invalid).unwrap();
    assert_eq!(some.messages[0].data.data.len(), 2);
    assert_eq!(some.messages[0].data.data[1].value, Value::Invalid);
}

#[test]
fn header_only_skips_records() {
    let mut config = all_config();
    config.header_only = true;
    let f = FitFile::from(&file(&data(0, &[1])), &config).unwrap();
    assert!(f.messages.is_empty());
    assert_eq!(f.header.data_type, ".FIT");
}
