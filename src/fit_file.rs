//! Decoded files with message and field names from the catalogue, filtered as configured.

use std::collections::HashMap;
use itertools::Itertools;
use vstd::prelude::*;
use crate::definition::{
    DeveloperField, FieldDefinitionRaw, MessageDefinitionRaw, decode_fields, developer_views,
    fields_size, lemma_decode_fields_bounds, value_views,
};
use crate::error::DecodeError;
use crate::header::{HEADER_SIZE, Header};
use crate::profile::{
    Field, FieldKind, MessageType, developer_field_of, field_of, message_type_of,
};
use crate::definition::DefinitionView;
use crate::stream::{
    DataRecord, RecordView, ScanState, decode_records, decode_stream, has_record_section,
    initial_state, is_compressed_header, is_definition_header, lemma_decode_stream_wf,
    lemma_decoded_file_uses_latest_layout, lemma_file_undefined_slot, local_slot, record_views,
    state_after,
};
use crate::text::{decimal, push_decimal, str_eq};
use crate::value::{Value, ValueView};

verus! {

/// Configuration for decoding a file.
#[derive(Clone, Copy, Debug)]
pub struct FitFileConfig {
    /// Debug output, for the caller to act on.
    pub debug: bool,
    /// Keep fields that the catalogue does not name.
    pub include_unknown_fields: bool,
    /// Keep messages whose type the catalogue does not name.
    pub include_unknown_message_types: bool,
    /// Keep fields whose value is invalid.
    pub include_invalid_values: bool,
    /// Read the header only.
    pub header_only: bool,
}

/// One field of a message with its value.
#[derive(Clone, Debug)]
pub struct FieldValue {
    pub field: Field,
    pub value: Value,
}

/// The fields of a message, in the order of its layout.
#[derive(Clone, Debug)]
pub struct Messages {
    pub data: Vec<FieldValue>,
}

/// A decoded data message.
#[derive(Clone, Debug)]
pub struct Message {
    pub message_type: MessageType,
    pub data: Messages,
}

/// What a [`Message`] holds.
pub struct MessageView {
    pub message_type: MessageType,
    pub fields: Seq<(Field, ValueView)>,
}

/// The views of a list of field values.
pub open spec fn field_views(data: Seq<FieldValue>) -> Seq<(Field, ValueView)> {
    data.map_values(|f: FieldValue| (f.field, f.value@))
}

impl View for Message {
    type V = MessageView;

    open spec fn view(&self) -> MessageView {
        MessageView { message_type: self.message_type, fields: field_views(self.data.data@) }
    }
}

/// The views of a list of messages.
pub open spec fn message_views(ms: Seq<Message>) -> Seq<MessageView> {
    ms.map_values(|m: Message| m@)
}

/// A decoded file: its header and its data messages.
#[derive(Debug)]
pub struct FitFile {
    pub header: Header,
    pub messages: Vec<Message>,
}

/// Whether the catalogue does not name a message type.
pub open spec fn is_unknown_type(mt: MessageType) -> bool {
    mt.name@ == "Unknown"@
}

/// The name under which a message type is shown: unknown types as "Unknown" followed by
/// their number.
pub open spec fn display_name_of(mt: MessageType) -> Seq<char> {
    if is_unknown_type(mt) {
        "Unknown"@ + decimal(mt.number as nat)
    } else {
        mt.name@
    }
}

/// The field that a field definition of a message of type `mt` stands for.
pub open spec fn field_for(mt: MessageType, fd: FieldDefinitionRaw) -> Field {
    if fd.is_dev_field {
        developer_field_of(mt, fd.number)
    } else {
        field_of(mt, fd.number)
    }
}

/// Whether the configuration keeps a field with this value.
pub open spec fn keeps_field(f: Field, v: ValueView, config: FitFileConfig) -> bool {
    (f.kind != FieldKind::Unknown || config.include_unknown_fields) && (v != ValueView::Invalid
        || config.include_invalid_values)
}

/// The first `n` fields of a message of type `mt` with their values, as the configuration keeps them.
pub open spec fn named_fields(
    mt: MessageType,
    fields: Seq<FieldDefinitionRaw>,
    vals: Seq<ValueView>,
    config: FitFileConfig,
    n: nat,
) -> Seq<(Field, ValueView)>
    decreases n,
{
    if n == 0 {
        seq![]
    } else {
        let rest = named_fields(mt, fields, vals, config, (n - 1) as nat);
        let f = field_for(mt, fields[n - 1]);
        if keeps_field(f, vals[n - 1], config) {
            rest.push((f, vals[n - 1]))
        } else {
            rest
        }
    }
}

/// The message that a decoded record becomes.
pub open spec fn named_message(r: RecordView, config: FitFileConfig) -> MessageView {
    let mt = message_type_of(r.message_type_number);
    MessageView {
        message_type: mt,
        fields: named_fields(mt, r.fields, r.values, config, r.fields.len()),
    }
}

/// The messages that decoded records become, those of unknown type left out unless the
/// configuration keeps them.
pub open spec fn file_messages(recs: Seq<RecordView>, config: FitFileConfig) -> Seq<MessageView>
    decreases recs.len(),
{
    if recs.len() == 0 {
        seq![]
    } else {
        let rest = file_messages(recs.drop_last(), config);
        let m = named_message(recs.last(), config);
        if !is_unknown_type(m.message_type) || config.include_unknown_message_types {
            rest.push(m)
        } else {
            rest
        }
    }
}

/// The messages of a whole file under a configuration.
pub open spec fn fit_file_messages(b: Seq<u8>, config: FitFileConfig) -> Result<
    Seq<MessageView>,
    DecodeError,
> {
    match decode_stream(b) {
        Ok(recs) => Ok(file_messages(recs, config)),
        Err(e) => Err(e),
    }
}

/// Builds the message of a record under a configuration, moving its values out.
fn to_message(rec: DataRecord, config: &FitFileConfig) -> (m: Message)
    requires
        rec.fields@.len() == rec.values@.len(),
    ensures
        m@ == named_message(rec@, *config),
{
    let DataRecord { message_type_number, fields, mut values } = rec;
    let ghost vals = value_views(values@);
    let mt = MessageType::resolve(message_type_number);
    let mut data: Vec<FieldValue> = Vec::new();
    let mut i: usize = 0;
    while i < fields.len()
        invariant
            fields@.len() == values@.len(),
            i <= fields@.len(),
            vals.len() == values@.len(),
            forall|k: int| i <= k < values@.len() ==> values@[k]@ == vals[k],
            field_views(data@) == named_fields(mt, fields@, vals, *config, i as nat),
        decreases fields@.len() - i,
    {
        let fd = fields[i];
        let field = if fd.is_dev_field {
            Field::developer(&mt, fd.number)
        } else {
            Field::parse(fd.number, &mt)
        };
        let mut v = Value::Invalid;
        values.set_and_swap(i, &mut v);
        let ghost before = data@;
        let keep = (!field.is_unknown() || config.include_unknown_fields) && (!v.is_invalid()
            || config.include_invalid_values);
        if keep {
            data.push(FieldValue { field, value: v });
            assert(field_views(data@) =~= field_views(before).push((field, vals[i as int])));
        }
        i = i + 1;
    }
    Message { message_type: mt, data: Messages { data } }
}

impl Message {
    /// A message of the given type with the given fields.
    pub fn from(message_type: MessageType, data: Messages) -> (m: Message)
        ensures
            m.message_type == message_type,
            m.data == data,
    {
        Message { message_type, data }
    }

    /// Whether the catalogue does not name this message's type.
    pub fn is_unknown(&self) -> (r: bool)
        ensures
            r == is_unknown_type(self.message_type),
    {
        str_eq(self.message_type.name, "Unknown")
    }

    /// The name under which this message's type is shown.
    pub fn display_name(&self) -> (r: String)
        ensures
            r@ == display_name_of(self.message_type),
    {
        if self.is_unknown() {
            let mut name = "Unknown".to_owned();
            push_decimal(&mut name, self.message_type.number as u64);
            name
        } else {
            self.message_type.name.to_owned()
        }
    }
}

/// Index of the first catalogued field named `name`.
pub open spec fn first_named(fields: Seq<(Field, ValueView)>, name: Seq<char>) -> Option<int>
    decreases fields.len(),
{
    if fields.len() == 0 {
        None
    } else {
        match first_named(fields.drop_last(), name) {
            Some(i) => Some(i),
            None => if fields.last().0.kind == FieldKind::Known && fields.last().0.name@ == name {
                Some(fields.len() - 1)
            } else {
                None
            },
        }
    }
}

proof fn lemma_first_named_prefix(fields: Seq<(Field, ValueView)>, j: int, name: Seq<char>)
    requires
        0 <= j <= fields.len(),
        first_named(fields.take(j), name) is Some,
    ensures
        first_named(fields, name) == first_named(fields.take(j), name),
    decreases fields.len() - j,
{
    if j < fields.len() {
        assert(fields.take(j + 1).drop_last() =~= fields.take(j));
        lemma_first_named_prefix(fields, j + 1, name);
    } else {
        assert(fields.take(j) =~= fields);
    }
}

impl Messages {
    /// The value of the first catalogued field with the given name, if there is one.
    pub fn value(&self, field_name: &str) -> (r: Option<&Value>)
        ensures
            match (r, first_named(field_views(self.data@), field_name@)) {
                (Some(v), Some(i)) => 0 <= i < self.data@.len() && *v == self.data@[i].value,
                (None, None) => true,
                _ => false,
            },
    {
        let ghost fs = field_views(self.data@);
        let mut i: usize = 0;
        while i < self.data.len()
            invariant
                i <= self.data@.len(),
                fs == field_views(self.data@),
                first_named(fs.take(i as int), field_name@) is None,
            decreases self.data@.len() - i,
        {
            let entry = &self.data[i];
            assert(fs.take(i + 1).drop_last() =~= fs.take(i as int));
            assert(fs.take(i + 1).last() == (entry.field, entry.value@));
            let known = match entry.field.kind {
                FieldKind::Known => true,
                _ => false,
            };
            if known && str_eq(entry.field.name, field_name) {
                proof {
                    lemma_first_named_prefix(fs, i + 1, field_name@);
                }
                return Some(&entry.value);
            }
            i = i + 1;
        }
        assert(fs.take(i as int) =~= fs);
        None
    }
}

impl FitFile {
    /// Decodes a whole file: the header, then, unless only the header is asked for, every
    /// data message with names from the catalogue, filtered as the configuration says.
    pub fn from(buffer: &Vec<u8>, config: &FitFileConfig) -> (r: Result<FitFile, DecodeError>)
        ensures
            match r {
                Ok(f) => {
                    &&& buffer@.len() >= HEADER_SIZE
                    &&& f.header.parsed_from(buffer@)
                    &&& if config.header_only {
                        f.messages@.len() == 0
                    } else {
                        fit_file_messages(buffer@, *config) == Ok::<Seq<MessageView>, DecodeError>(
                            message_views(f.messages@),
                        )
                    }
                },
                Err(e) => if buffer@.len() < HEADER_SIZE {
                    e == DecodeError::Truncated
                } else {
                    !config.header_only && fit_file_messages(buffer@, *config) == Err::<
                        Seq<MessageView>,
                        DecodeError,
                    >(e)
                },
            },
    {
        if buffer.len() < HEADER_SIZE {
            return Err(DecodeError::Truncated);
        }
        let header = Header::read_header(buffer.as_slice());
        if config.header_only {
            return Ok(FitFile { header, messages: Vec::new() });
        }
        match decode_records(buffer) {
            Err(e) => Err(e),
            Ok(mut recs) => {
                let ghost views = record_views(recs@);
                proof {
                    lemma_decode_stream_wf(buffer@);
                }
                let mut messages: Vec<Message> = Vec::new();
                let mut i: usize = 0;
                while i < recs.len()
                    invariant
                        i <= recs@.len(),
                        views.len() == recs@.len(),
                        forall|k: int| 0 <= k < views.len() ==> #[trigger] views[k].values.len() == views[k].fields.len(),
                        forall|k: int| i <= k < recs@.len() ==> recs@[k]@ == views[k],
                        message_views(messages@) == file_messages(views.take(i as int), *config),
                    decreases recs@.len() - i,
                {
                    let mut rec = DataRecord {
                        message_type_number: 0,
                        fields: Vec::new(),
                        values: Vec::new(),
                    };
                    recs.set_and_swap(i, &mut rec);
                    assert(rec@ == views[i as int]);
                    assert(views[i as int].values.len() == views[i as int].fields.len());
                    let m = to_message(rec, config);
                    assert(views.take(i + 1).drop_last() =~= views.take(i as int));
                    let ghost before = messages@;
                    if !m.is_unknown() || config.include_unknown_message_types {
                        messages.push(m);
                        assert(message_views(messages@) =~= message_views(before).push(m@));
                    }
                    i = i + 1;
                }
                assert(views.take(i as int) =~= views);
                Ok(FitFile { header, messages })
            },
        }
    }
}

/// The messages of `ms` whose display name is one of `names`, in order.
pub open spec fn selected(ms: Seq<MessageView>, names: Seq<Seq<char>>) -> Seq<MessageView>
    decreases ms.len(),
{
    if ms.len() == 0 {
        seq![]
    } else {
        let rest = selected(ms.drop_last(), names);
        if names.contains(display_name_of(ms.last().message_type)) {
            rest.push(ms.last())
        } else {
            rest
        }
    }
}

/// The views of a list of strings.
pub open spec fn string_views(names: Seq<String>) -> Seq<Seq<char>> {
    names.map_values(|s: String| s@)
}

/// Number of entries of `names` equal to `k`.
pub open spec fn occurrences(names: Seq<Seq<char>>, k: Seq<char>) -> nat
    decreases names.len(),
{
    if names.len() == 0 {
        0
    } else {
        occurrences(names.drop_last(), k) + if names.last() == k {
            1nat
        } else {
            0nat
        }
    }
}

/// Numbers of occurrences by name.
pub type NameCounts = HashMap<String, usize>;

/// The display names of a list of messages.
pub open spec fn display_names(ms: Seq<MessageView>) -> Seq<Seq<char>> {
    ms.map_values(|m: MessageView| display_name_of(m.message_type))
}

/// Relies on `itertools::Itertools::counts`: a map from each distinct item to the number of
/// times it occurs.
#[verifier::external_body]
fn count_names(names: Vec<String>) -> (r: NameCounts)
    ensures
        forall|k: String| #[trigger] r@.contains_key(k) ==> r@[k] as nat == occurrences(string_views(names@), k@),
        r@.dom().map(|k: String| k@) == string_views(names@).to_set(),
{
    names.into_iter().counts()
}

/// Whether one of `names` equals `name`.
fn contains_name(names: &Vec<String>, name: &str) -> (r: bool)
    ensures
        r == string_views(names@).contains(name@),
{
    let ghost views = string_views(names@);
    let mut j: usize = 0;
    while j < names.len()
        invariant
            j <= names@.len(),
            views == string_views(names@),
            forall|k: int| 0 <= k < j ==> views[k] != name@,
        decreases names@.len() - j,
    {
        if str_eq(names[j].as_str(), name) {
            assert(views[j as int] == name@);
            return true;
        }
        j = j + 1;
    }
    false
}

impl FitFile {
    /// The messages whose display name is one of `message_types`, in order.
    pub fn get_messages(&self, message_types: Vec<String>) -> (r: Vec<&Message>)
        ensures
            r@.map_values(|m: &Message| m@) == selected(
                message_views(self.messages@),
                string_views(message_types@),
            ),
    {
        let ghost ms = message_views(self.messages@);
        let ghost names = string_views(message_types@);
        let mut out: Vec<&Message> = Vec::new();
        let mut i: usize = 0;
        while i < self.messages.len()
            invariant
                i <= self.messages@.len(),
                ms == message_views(self.messages@),
                names == string_views(message_types@),
                out@.map_values(|m: &Message| m@) == selected(ms.take(i as int), names),
            decreases self.messages@.len() - i,
        {
            let m = &self.messages[i];
            let name = m.display_name();
            assert(ms.take(i + 1).drop_last() =~= ms.take(i as int));
            assert(ms.take(i + 1).last() == m@);
            let ghost before = out@;
            if contains_name(&message_types, name.as_str()) {
                out.push(m);
                assert(out@.map_values(|m: &Message| m@) =~= before.map_values(|m: &Message| m@).push(
                    m@,
                ));
            }
            i = i + 1;
        }
        assert(ms.take(i as int) =~= ms);
        out
    }

    /// Counts the messages by display name.
    pub fn get_message_types(&self) -> (r: NameCounts)
        ensures
            forall|k: String| #[trigger]
                r@.contains_key(k) ==> r@[k] as nat == occurrences(
                    display_names(message_views(self.messages@)),
                    k@,
                ),
            r@.dom().map(|k: String| k@) == display_names(message_views(self.messages@)).to_set(),
    {
        let ghost dn = display_names(message_views(self.messages@));
        let mut names: Vec<String> = Vec::new();
        let mut i: usize = 0;
        while i < self.messages.len()
            invariant
                i <= self.messages@.len(),
                dn == display_names(message_views(self.messages@)),
                string_views(names@) == dn.take(i as int),
            decreases self.messages@.len() - i,
        {
            let name = self.messages[i].display_name();
            let ghost before = names@;
            names.push(name);
            assert(string_views(names@) =~= string_views(before).push(name@));
            assert(dn.take(i + 1) =~= dn.take(i as int).push(dn[i as int]));
            i = i + 1;
        }
        assert(dn.take(i as int) =~= dn);
        count_names(names)
    }
}

proof fn lemma_message_types_agree(recs: Seq<RecordView>, c1: FitFileConfig, c2: FitFileConfig)
    requires
        c1.include_unknown_message_types == c2.include_unknown_message_types,
    ensures
        file_messages(recs, c1).len() == file_messages(recs, c2).len(),
        forall|i: int|
            0 <= i < file_messages(recs, c1).len() ==> #[trigger] file_messages(recs, c1)[i].message_type
                == file_messages(recs, c2)[i].message_type,
    decreases recs.len(),
{
    if recs.len() > 0 {
        lemma_message_types_agree(recs.drop_last(), c1, c2);
    }
}

/// The filtering options decide only which messages and fields are output, never how the
/// bytes are read: under any two configurations decoding fails alike or succeeds alike, both
/// outputs are made from the same decoded records, and configurations that agree on unknown
/// message types yield the same message types in the same order.
pub proof fn lemma_filtering_independent(b: Seq<u8>, c1: FitFileConfig, c2: FitFileConfig)
    ensures
        (fit_file_messages(b, c1) is Ok) == (fit_file_messages(b, c2) is Ok),
        fit_file_messages(b, c1) is Err ==> fit_file_messages(b, c1) == fit_file_messages(b, c2),
        match decode_stream(b) {
            Ok(recs) => {
                &&& fit_file_messages(b, c1) == Ok::<Seq<MessageView>, DecodeError>(file_messages(recs, c1))
                &&& fit_file_messages(b, c2) == Ok::<Seq<MessageView>, DecodeError>(file_messages(recs, c2))
            },
            Err(_) => true,
        },
        c1.include_unknown_message_types == c2.include_unknown_message_types ==> match (
            fit_file_messages(b, c1),
            fit_file_messages(b, c2),
        ) {
            (Ok(m1), Ok(m2)) => m1.len() == m2.len() && forall|i: int|
                0 <= i < m1.len() ==> #[trigger] m1[i].message_type == m2[i].message_type,
            _ => true,
        },
{
    match decode_stream(b) {
        Ok(recs) => {
            if c1.include_unknown_message_types == c2.include_unknown_message_types {
                lemma_message_types_agree(recs, c1, c2);
            }
        },
        Err(_) => {},
    }
}

/// A field of a layout, resolved against the catalogue.
#[derive(Clone, Copy, Debug)]
pub struct FieldDefinition {
    pub field: Field,
    pub number: u8,
    pub size: u8,
    pub base_type_value_or_dev_index: u8,
}

/// A layout whose message type and fields are resolved against the catalogue.
#[derive(Debug)]
pub struct MessageDefinition {
    pub message_type: MessageType,
    pub fields: Vec<FieldDefinition>,
    pub endianness: u8,
}

/// The wire form of a resolved field definition.
pub open spec fn raw_field_of(fd: FieldDefinition) -> FieldDefinitionRaw {
    FieldDefinitionRaw {
        number: fd.number,
        size: fd.size,
        base_type_value_or_dev_index: fd.base_type_value_or_dev_index,
        is_dev_field: fd.field.kind == FieldKind::Developer,
    }
}

impl MessageDefinition {
    /// The wire form of the fields.
    pub open spec fn raw_fields(&self) -> Seq<FieldDefinitionRaw> {
        self.fields@.map_values(|f: FieldDefinition| raw_field_of(f))
    }

    /// The message type and every field are what the catalogue gives for the wire layout.
    pub open spec fn wf(&self) -> bool {
        &&& self.message_type == message_type_of(self.message_type.number)
        &&& forall|i: int|
            0 <= i < self.fields@.len() ==> #[trigger] self.fields@[i].field == field_for(
                self.message_type,
                raw_field_of(self.fields@[i]),
            )
    }

    /// Resolves a layout against the catalogue.
    pub fn from_raw(raw: &MessageDefinitionRaw) -> (d: MessageDefinition)
        ensures
            d.wf(),
            d.message_type == message_type_of(raw.message_type_number),
            d.raw_fields() == raw@.fields,
            d.endianness == raw.endianness,
    {
        let mt = MessageType::resolve(raw.message_type_number);
        let mut fields: Vec<FieldDefinition> = Vec::new();
        let mut i: usize = 0;
        while i < raw.fields.len()
            invariant
                i <= raw.fields@.len(),
                mt == message_type_of(raw.message_type_number),
                fields@.map_values(|f: FieldDefinition| raw_field_of(f)) == raw.fields@.take(i as int),
                forall|k: int|
                    0 <= k < fields@.len() ==> #[trigger] fields@[k].field == field_for(
                        mt,
                        raw_field_of(fields@[k]),
                    ),
            decreases raw.fields@.len() - i,
        {
            let fd = raw.fields[i];
            let field = if fd.is_dev_field {
                Field::developer(&mt, fd.number)
            } else {
                Field::parse(fd.number, &mt)
            };
            let def = FieldDefinition {
                field,
                number: fd.number,
                size: fd.size,
                base_type_value_or_dev_index: fd.base_type_value_or_dev_index,
            };
            assert(raw_field_of(def) == fd);
            let ghost before = fields@;
            fields.push(def);
            assert(fields@.map_values(|f: FieldDefinition| raw_field_of(f)) =~= before.map_values(
                |f: FieldDefinition| raw_field_of(f),
            ).push(fd));
            assert(raw.fields@.take(i + 1) =~= raw.fields@.take(i as int).push(fd));
            i = i + 1;
        }
        assert(raw.fields@.take(i as int) =~= raw.fields@);
        MessageDefinition { message_type: mt, fields, endianness: raw.endianness }
    }

    /// Reads the data record whose first field byte stands at `current_position` with this
    /// layout: the message as the configuration filters it, and the position after the record.
    pub fn read(
        &self,
        current_position: &usize,
        buffer: &Vec<u8>,
        config: &FitFileConfig,
        developer_fields: &Vec<DeveloperField>,
    ) -> (r: Result<(Message, usize), DecodeError>)
        requires
            self.wf(),
            *current_position <= buffer@.len(),
        ensures
            match (
                r,
                decode_fields(
                    self.raw_fields(),
                    buffer@,
                    *current_position as int,
                    buffer@.len() as int,
                    self.endianness,
                    developer_views(developer_fields@),
                ),
            ) {
                (Ok((m, next)), Ok((vals, n))) => next == n && m@ == named_message(
                    RecordView {
                        message_type_number: self.message_type.number,
                        fields: self.raw_fields(),
                        values: vals,
                    },
                    *config,
                ),
                (Err(e), Err(f)) => e == f,
                _ => false,
            },
            r is Ok ==> r->Ok_0.1 == *current_position + fields_size(self.raw_fields()),
    {
        let mut raw_fields: Vec<FieldDefinitionRaw> = Vec::new();
        let mut i: usize = 0;
        while i < self.fields.len()
            invariant
                i <= self.fields@.len(),
                raw_fields@ == self.raw_fields().take(i as int),
            decreases self.fields@.len() - i,
        {
            let f = self.fields[i];
            let is_dev = match f.field.kind {
                FieldKind::Developer => true,
                _ => false,
            };
            let fd = FieldDefinitionRaw {
                number: f.number,
                size: f.size,
                base_type_value_or_dev_index: f.base_type_value_or_dev_index,
                is_dev_field: is_dev,
            };
            raw_fields.push(fd);
            assert(self.raw_fields().take(i + 1) =~= self.raw_fields().take(i as int).push(fd));
            i = i + 1;
        }
        assert(self.raw_fields().take(i as int) =~= self.raw_fields());
        let raw = MessageDefinitionRaw {
            message_type_number: self.message_type.number,
            fields: raw_fields,
            endianness: self.endianness,
        };
        proof {
            lemma_decode_fields_bounds(
                raw@.fields,
                buffer@,
                *current_position as int,
                buffer@.len() as int,
                self.endianness,
                developer_views(developer_fields@),
            );
        }
        match raw.decode_values(buffer, *current_position, buffer.len(), developer_fields) {
            Err(e) => Err(e),
            Ok((values, next)) => {
                let MessageDefinitionRaw { message_type_number, fields, endianness } = raw;
                let rec = DataRecord { message_type_number, fields, values };
                Ok((to_message(rec, config), next))
            },
        }
    }
}

/// The same configuration with unknown fields and invalid values all kept.
pub open spec fn keeping_all_fields(config: FitFileConfig) -> FitFileConfig {
    FitFileConfig {
        debug: config.debug,
        include_unknown_fields: true,
        include_unknown_message_types: config.include_unknown_message_types,
        include_invalid_values: true,
        header_only: config.header_only,
    }
}

/// The fields of `pairs` that the configuration keeps, in order.
pub open spec fn kept_by(pairs: Seq<(Field, ValueView)>, config: FitFileConfig) -> Seq<(Field, ValueView)>
    decreases pairs.len(),
{
    if pairs.len() == 0 {
        pairs
    } else {
        let rest = kept_by(pairs.drop_last(), config);
        if keeps_field(pairs.last().0, pairs.last().1, config) {
            rest.push(pairs.last())
        } else {
            rest
        }
    }
}

proof fn lemma_named_fields_kept(
    mt: MessageType,
    fields: Seq<FieldDefinitionRaw>,
    vals: Seq<ValueView>,
    config: FitFileConfig,
    n: nat,
)
    ensures
        named_fields(mt, fields, vals, config, n) == kept_by(
            named_fields(mt, fields, vals, keeping_all_fields(config), n),
            config,
        ),
    decreases n,
{
    if n > 0 {
        lemma_named_fields_kept(mt, fields, vals, config, (n - 1) as nat);
        let all = named_fields(mt, fields, vals, keeping_all_fields(config), n);
        assert(all.drop_last() =~= named_fields(mt, fields, vals, keeping_all_fields(config), (n - 1) as nat));
    }
}

proof fn lemma_file_messages_kept(recs: Seq<RecordView>, config: FitFileConfig)
    ensures
        ({
            let m = file_messages(recs, config);
            let a = file_messages(recs, keeping_all_fields(config));
            &&& m.len() == a.len()
            &&& forall|i: int|
                #![trigger m[i]]
                0 <= i < m.len() ==> m[i].message_type == a[i].message_type && m[i].fields
                    == kept_by(a[i].fields, config)
        }),
    decreases recs.len(),
{
    if recs.len() > 0 {
        lemma_file_messages_kept(recs.drop_last(), config);
        let r = recs.last();
        lemma_named_fields_kept(
            message_type_of(r.message_type_number),
            r.fields,
            r.values,
            config,
            r.fields.len(),
        );
        let all = keeping_all_fields(config);
        let mc = named_message(r, config);
        let ma = named_message(r, all);
        let rm = file_messages(recs.drop_last(), config);
        let ra = file_messages(recs.drop_last(), all);
        let m = file_messages(recs, config);
        let a = file_messages(recs, all);
        assert(mc.message_type == ma.message_type);
        assert(mc.fields == kept_by(ma.fields, config));
        if !is_unknown_type(mc.message_type) || config.include_unknown_message_types {
            assert(m == rm.push(mc));
            assert(a == ra.push(ma));
            assert forall|i: int|
                #![trigger m[i]]
                0 <= i < m.len() implies m[i].message_type == a[i].message_type && m[i].fields
                    == kept_by(a[i].fields, config) by {
                if i < rm.len() {
                    assert(m[i] == rm[i]);
                    assert(a[i] == ra[i]);
                }
            }
        } else {
            assert(m == rm);
            assert(a == ra);
        }
    }
}

/// The field filters change only which fields are output: decoding with some configuration
/// succeeds or fails exactly as with unknown fields and invalid values all kept, gives as
/// many messages of the same types, and each message holds, in order, those fields of the
/// fully kept message that the configuration keeps, with the same values.
pub proof fn lemma_filters_select_fields(b: Seq<u8>, config: FitFileConfig)
    ensures
        match (fit_file_messages(b, config), fit_file_messages(b, keeping_all_fields(config))) {
            (Ok(m), Ok(a)) => m.len() == a.len() && forall|i: int|
                0 <= i < m.len() ==> #[trigger] m[i].message_type == a[i].message_type && m[i].fields
                    == kept_by(a[i].fields, config),
            (Err(e), Err(f)) => e == f,
            _ => false,
        },
{
    match decode_stream(b) {
        Ok(recs) => {
            lemma_file_messages_kept(recs, config);
        },
        Err(_) => {},
    }
}

/// Once decoding of a file gets to a data record whose slot holds no definition, decoding
/// fails with the undefined local message error under every configuration, so no file is
/// returned.
pub proof fn lemma_undefined_slot_fails_file(b: Seq<u8>, k: nat, s: ScanState, config: FitFileConfig)
    requires
        has_record_section(b),
        state_after(b, b.len() - 2, initial_state(b), k) == Some(s),
        s.pos < b.len() - 2,
        !is_compressed_header(b[s.pos]),
        !is_definition_header(b[s.pos]),
        s.defs[local_slot(b[s.pos]) as int] is None,
    ensures
        fit_file_messages(b, config) == Err::<Seq<MessageView>, DecodeError>(
            DecodeError::UndefinedLocalMessage(local_slot(b[s.pos])),
        ),
{
    lemma_file_undefined_slot(b, k, s);
}

proof fn lemma_file_messages_all(recs: Seq<RecordView>, config: FitFileConfig)
    requires
        config.include_unknown_message_types,
    ensures
        file_messages(recs, config) == recs.map_values(|r: RecordView| named_message(r, config)),
    decreases recs.len(),
{
    if recs.len() > 0 {
        lemma_file_messages_all(recs.drop_last(), config);
        assert(recs.map_values(|r: RecordView| named_message(r, config)) =~= recs.drop_last().map_values(
            |r: RecordView| named_message(r, config),
        ).push(named_message(recs.last(), config)));
    }
}

/// When a whole file decodes and messages of every type are kept, the message made from a
/// data record that decoding gets to follows the latest layout in its slot: its type, fields
/// and values are those of that layout, read from the bytes after the record header.
pub proof fn lemma_message_uses_latest_layout(
    b: Seq<u8>,
    k: nat,
    s: ScanState,
    d: DefinitionView,
    config: FitFileConfig,
)
    requires
        has_record_section(b),
        config.include_unknown_message_types,
        fit_file_messages(b, config) is Ok,
        state_after(b, b.len() - 2, initial_state(b), k) == Some(s),
        s.pos < b.len() - 2,
        !is_compressed_header(b[s.pos]),
        !is_definition_header(b[s.pos]),
        s.defs[local_slot(b[s.pos]) as int] == Some(d),
    ensures
        decode_fields(d.fields, b, s.pos + 1, b.len() - 2, d.endianness, s.devs) is Ok,
        ({
            let vals = decode_fields(d.fields, b, s.pos + 1, b.len() - 2, d.endianness, s.devs)->Ok_0.0;
            let ms = fit_file_messages(b, config)->Ok_0;
            &&& ms.len() > s.out.len()
            &&& ms[s.out.len() as int] == named_message(
                RecordView { message_type_number: d.message_type_number, fields: d.fields, values: vals },
                config,
            )
        }),
{
    lemma_decoded_file_uses_latest_layout(b, k, s, d);
    lemma_file_messages_all(decode_stream(b)->Ok_0, config);
}

} // verus!
