use garmin_fit::definition::MessageDefinitionRaw;
use garmin_fit::fit_file::{FitFile, FitFileConfig, Message, MessageDefinition, Messages};
use garmin_fit::profile::{EnumTranslation, Field, FieldKind, FileType, MessageType, Sport};
use garmin_fit::value::Value;

fn file(records: &[u8]) -> Vec<u8> {
    let mut b = vec![14, 0x10, 0x64, 0x00, 0, 0, 0, 0, b'.', b'F', b'I', b'T', 0, 0];
    b.extend_from_slice(records);
    b.extend_from_slice(&[0, 0]);
    b
}

fn config() -> FitFileConfig {
    FitFileConfig {
        debug: false,
        include_unknown_fields: true,
        include_unknown_message_types: true,
        include_invalid_values: false,
        header_only: false,
    }
}

#[test]
fn message_types_resolve_by_number() {
    let t = MessageType::resolve(0);
    assert_eq!(t.number, 0);
    assert_eq!(t.name, "File Id");
    assert_eq!(MessageType::resolve(20).name, "Record");
    assert_eq!(MessageType::resolve(206).name, "Field description");
    assert_eq!(MessageType::resolve(0xFF00).name, "MFG range min");
    let u = MessageType::resolve(11);
    assert_eq!(u.number, 11);
    assert_eq!(u.name, "Unknown");
    assert_eq!(MessageType::resolve(1024).name, "Unknown");
}

#[test]
fn sports_and_file_types_resolve() {
    assert_eq!(Sport::resolve(&0), Sport::Generic);
    assert_eq!(Sport::resolve(&1), Sport::Running);
    assert_eq!(Sport::resolve(&84), Sport::JumpRope);
    assert_eq!(Sport::resolve(&254), Sport::All);
    assert_eq!(Sport::resolve(&50), Sport::Invalid);
    assert_eq!(format!("{:?}", Sport::resolve(&2)), "Cycling");
    assert_eq!(FileType::resolve(&4), FileType::ACTIVITY);
    assert_eq!(FileType::resolve(&0xF7), FileType::MFG_RANGE_MIN);
    assert_eq!(FileType::resolve(&0), FileType::INVALID);
}

#[test]
fn fields_resolve_against_catalogue() {
    let file_id = MessageType::resolve(0);
    let f = Field::parse(0, &file_id);
    assert_eq!(f.name, "Type");
    assert_eq!(f.translation, EnumTranslation::FileType);
    assert_eq!(f.kind, FieldKind::Known);
    let m = Field::parse(1, &file_id);
    assert_eq!(m.name, "Manufacturer");
    assert_eq!(m.translation, EnumTranslation::NoTranslation);
    let u = Field::parse(77, &file_id);
    assert!(u.is_unknown());
    assert_eq!(u.number, 77);
    let sport = Field::parse(0, &MessageType::resolve(12));
    assert_eq!(sport.translation, EnumTranslation::Sport);
    let built = Field::from(file_id, 3, "Serial number");
    assert_eq!(built.number, 3);
    assert!(!built.is_unknown());
    let conv = Field::from_with_converter(file_id, 0, "Type", EnumTranslation::FileType);
    assert_eq!(conv.translation, EnumTranslation::FileType);
}

#[test]
fn display_names_of_known_and_unknown_types() {
    let known = Message::from(MessageType::resolve(34), Messages { data: vec![] });
    assert!(!known.is_unknown());
    assert_eq!(known.display_name(), "Activity");
    let unknown = Message::from(MessageType::resolve(500), Messages { data: vec![] });
    assert!(unknown.is_unknown());
    assert_eq!(unknown.display_name(), "Unknown500");
}

fn sample() -> FitFile {
    let mut records = vec![0x40, 0, 0, 0, 0, 2, 0, 1, 0, 1, 2, 132];
    records.extend_from_slice(&[0x00, 4, 0x0F, 0x00]);
    records.extend_from_slice(&[0x41, 0, 0, 34, 0, 1, 1, 1, 2]);
    records.extend_from_slice(&[0x01, 1]);
    records.extend_from_slice(&[0x01, 2]);
    records.extend_from_slice(&[0x42, 0, 0, 0x22, 0x01, 1, 0, 1, 2]);
    records.extend_from_slice(&[0x02, 9]);
    FitFile::from(&file(&records), &config()).unwrap()
}

#[test]
fn get_messages_filters_by_display_name() {
    let f = sample();
    assert_eq!(f.messages.len(), 4);
    let picked = f.get_messages(vec!["Activity".to_string()]);
    assert_eq!(picked.len(), 2);
    assert_eq!(picked[0].message_type.number, 34);
    let picked = f.get_messages(vec!["File Id".to_string(), "Unknown290".to_string()]);
    assert_eq!(picked.len(), 2);
    assert_eq!(picked[1].display_name(), "Unknown290");
    assert!(f.get_messages(vec!["Lap".to_string()]).is_empty());
}

#[test]
fn get_message_types_counts_by_display_name() {
    let f = sample();
    let counts = f.get_message_types();
    assert_eq!(counts.len(), 3);
    assert_eq!(counts["Activity"], 2);
    assert_eq!(counts["File Id"], 1);
    assert_eq!(counts["Unknown290"], 1);
}

#[test]
fn value_finds_field_by_name() {
    let f = sample();
    let first = &f.messages[0];
    assert_eq!(first.data.value("Type"), Some(&Value::EnumValue(vec![4])));
    assert_eq!(first.data.value("Manufacturer"), Some(&Value::NumberValueU16(15)));
    assert_eq!(first.data.value("Product"), None);
}

#[test]
fn resolved_layout_reads_named_message() {
    let records = vec![0x40, 0, 0, 0, 0, 2, 0, 1, 0, 50, 1, 2, 0x00, 6, 9];
    let buffer = file(&records);
    let (raw, next) = MessageDefinitionRaw::read_definition(&buffer, 14, buffer.len() - 2).unwrap();
    let def = MessageDefinition::from_raw(&raw);
    assert_eq!(def.message_type.name, "File Id");
    assert_eq!(def.fields[0].field.name, "Type");
    assert!(def.fields[1].field.is_unknown());
    let (message, after) = def.read(&(next + 1), &buffer, &config(), &Vec::new()).unwrap();
    assert_eq!(after, next + 3);
    assert_eq!(message.data.data.len(), 2);
    assert_eq!(message.data.value("Type"), Some(&Value::EnumValue(vec![6])));
    assert_eq!(message.data.data[1].value, Value::NumberValueU8(9));
}
