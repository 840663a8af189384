use garmin_fit::base_type::BaseType;
use garmin_fit::stream::decode_records;
use garmin_fit::value::Value;

fn file_with_header_length(header_length: u8, records: &[u8]) -> Vec<u8> {
    let mut b = vec![header_length, 0x10, 0x64, 0x00, 0, 0, 0, 0, b'.', b'F', b'I', b'T'];
    while b.len() < header_length as usize {
        b.push(0);
    }
    b.extend_from_slice(records);
    b.extend_from_slice(&[0, 0]);
    b
}

#[test]
fn largest_field_size_reads_as_array() {
    let mut bytes = vec![0xFFu8; 255];
    bytes[100] = 42;
    let v = BaseType::parse(&13).unwrap().read(&bytes, 0);
    assert_eq!(v, Value::NumberValueVecU8(vec![42]));
    let mut records = vec![0x40, 0, 0, 20, 0, 1, 1, 255, 13, 0x00];
    records.extend_from_slice(&bytes);
    let recs = decode_records(&file_with_header_length(14, &records)).unwrap();
    assert_eq!(recs[0].values, vec![Value::NumberValueVecU8(vec![42])]);
}

#[test]
fn records_start_where_header_length_says() {
    let records = vec![0x40, 0, 1, 0x00, 0x14, 1, 1, 2, 132, 0x00, 0x01, 0x02];
    let buffer = file_with_header_length(12, &records);
    let recs = decode_records(&buffer).unwrap();
    assert_eq!(recs.len(), 1);
    assert_eq!(recs[0].message_type_number, 20);
    assert_eq!(recs[0].values, vec![Value::NumberValueU16(0x0102)]);
}

#[test]
fn header_length_past_the_checksum_is_truncated() {
    let mut buffer = file_with_header_length(14, &[]);
    buffer[0] = 15;
    assert!(decode_records(&buffer).is_err());
}

#[test]
fn developer_field_lookup_matches_index_and_number() {
    let mut records = Vec::new();
    for (index, number, base, name) in [(0u8, 1u8, 2u8, b"aa\0\0"), (1, 1, 132, b"bb\0\0")] {
        records.extend_from_slice(&[0x45, 0, 0, 206, 0, 4, 0, 1, 2, 1, 1, 2, 2, 1, 2, 3, 4, 7]);
        records.extend_from_slice(&[0x05, index, number, base]);
        records.extend_from_slice(name);
    }
    records.extend_from_slice(&[0x61, 0, 0, 20, 0, 0, 1, 1, 2, 1]);
    records.extend_from_slice(&[0x01, 0x10, 0x20]);
    let recs = decode_records(&file_with_header_length(14, &records)).unwrap();
    assert_eq!(recs.len(), 3);
    assert_eq!(recs[2].values, vec![Value::NumberValueU16(0x2010)]);
}
