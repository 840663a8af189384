//! The record stream: definition records install layouts in sixteen local message slots,
//! data records are decoded with the layout of their slot.

use vstd::prelude::*;
use crate::base_type::{
    BaseType, encodable, encode_word, encoded_value, field_encoding, lemma_field_round_trip, lemma_word_round_trip,
    pow256,
};
use crate::definition::{
    DefinitionView, DeveloperField, DeveloperFieldView, FieldDefinitionRaw, MessageDefinitionRaw,
    decode_fields, developer_views, field_base_type, field_triples, fields_size, lemma_decode_fields_bounds, lemma_parse_definition_bounds,
    parse_definition, value_views,
};
use crate::error::DecodeError;
use crate::header::{HEADER_SIZE, header_length};
use crate::value::{Value, ValueKind, ValueView};

verus! {

/// Message type number of field description messages, which declare developer fields.
pub const FIELD_DESCRIPTION: u16 = 206;

/// Number of local message slots.
pub const LOCAL_SLOTS: usize = 16;

/// A decoded data record: its message type, the layout it was read with, and every value,
/// invalid ones included.
#[derive(Debug)]
pub struct DataRecord {
    pub message_type_number: u16,
    pub fields: Vec<FieldDefinitionRaw>,
    pub values: Vec<Value>,
}

/// What a [`DataRecord`] holds.
pub struct RecordView {
    pub message_type_number: u16,
    pub fields: Seq<FieldDefinitionRaw>,
    pub values: Seq<ValueView>,
}

impl View for DataRecord {
    type V = RecordView;

    open spec fn view(&self) -> RecordView {
        RecordView {
            message_type_number: self.message_type_number,
            fields: self.fields@,
            values: value_views(self.values@),
        }
    }
}

/// The views of a list of records.
pub open spec fn record_views(recs: Seq<DataRecord>) -> Seq<RecordView> {
    recs.map_values(|r: DataRecord| r@)
}

/// The views of the local message table.
pub open spec fn table_views(defs: Seq<Option<MessageDefinitionRaw>>) -> Seq<Option<DefinitionView>> {
    defs.map_values(
        |o: Option<MessageDefinitionRaw>|
            match o {
                Some(d) => Some(d@),
                None => None,
            },
    )
}

/// The local message table before any definition record.
pub open spec fn empty_table() -> Seq<Option<DefinitionView>> {
    Seq::new(LOCAL_SLOTS as nat, |i: int| None)
}

/// Index of the first field, not a developer field, with number `k`.
pub open spec fn find_field(fields: Seq<FieldDefinitionRaw>, k: u8) -> Option<int>
    decreases fields.len(),
{
    if fields.len() == 0 {
        None
    } else {
        match find_field(fields.drop_last(), k) {
            Some(i) => Some(i),
            None => if !fields.last().is_dev_field && fields.last().number == k {
                Some(fields.len() - 1)
            } else {
                None
            },
        }
    }
}

/// The byte held by field `k`, if it is there and holds an unsigned byte.
pub open spec fn byte_field(fields: Seq<FieldDefinitionRaw>, vals: Seq<ValueView>, k: u8) -> Option<u8> {
    match find_field(fields, k) {
        Some(i) => match vals[i] {
            ValueView::Scalar(ValueKind::U8, x) => Some(x as u8),
            _ => None,
        },
        None => None,
    }
}

/// The text held by field `k`, if it is there and holds text.
pub open spec fn text_field(fields: Seq<FieldDefinitionRaw>, vals: Seq<ValueView>, k: u8) -> Option<Seq<char>> {
    match find_field(fields, k) {
        Some(i) => match vals[i] {
            ValueView::Text(s) => Some(s),
            _ => None,
        },
        None => None,
    }
}

/// The developer field that a field description message declares: developer data index in
/// field 0, field definition number in field 1, base type in field 2, name in field 3.
pub open spec fn describe_field(fields: Seq<FieldDefinitionRaw>, vals: Seq<ValueView>) -> Result<
    DeveloperFieldView,
    DecodeError,
> {
    match (byte_field(fields, vals, 0), byte_field(fields, vals, 1), text_field(fields, vals, 3), byte_field(fields, vals, 2)) {
        (Some(index), Some(number), Some(name), Some(base)) => Ok(
            DeveloperFieldView {
                field_name: name,
                field_definition_number: number,
                developer_data_index: index,
                fit_base_type_id: base,
            },
        ),
        _ => Err(DecodeError::MalformedFieldDescription),
    }
}

/// The developer fields after a data record: a field description message adds the field it declares.
pub open spec fn register(r: RecordView, devs: Seq<DeveloperFieldView>) -> Result<
    Seq<DeveloperFieldView>,
    DecodeError,
> {
    if r.message_type_number == FIELD_DESCRIPTION {
        match describe_field(r.fields, r.values) {
            Ok(d) => Ok(devs.push(d)),
            Err(e) => Err(e),
        }
    } else {
        Ok(devs)
    }
}

/// What one record does.
pub enum Step {
    /// Installs a layout in a local message slot.
    Define(u8, DefinitionView),
    /// Yields a decoded data record.
    Data(RecordView),
}

/// Whether a record header byte uses the compressed timestamp form.
pub open spec fn is_compressed_header(h: u8) -> bool {
    h >= 128
}

/// Whether a record header byte starts a definition record.
pub open spec fn is_definition_header(h: u8) -> bool {
    (h / 64) % 2 == 1
}

/// The local message slot that a record header byte names.
pub open spec fn local_slot(h: u8) -> u8 {
    h % 16
}

/// The record whose header byte stands at `pos`, read with the current table and developer
/// fields from bytes before `end`, and the position after it.
pub open spec fn record_step(
    b: Seq<u8>,
    pos: int,
    end: int,
    defs: Seq<Option<DefinitionView>>,
    devs: Seq<DeveloperFieldView>,
) -> Result<(Step, int), DecodeError> {
    let h = b[pos];
    if is_compressed_header(h) {
        Err(DecodeError::CompressedTimestampHeader)
    } else if is_definition_header(h) {
        match parse_definition(b, pos, end) {
            Ok((d, next)) => Ok((Step::Define(local_slot(h), d), next)),
            Err(e) => Err(e),
        }
    } else {
        match defs[local_slot(h) as int] {
            None => Err(DecodeError::UndefinedLocalMessage(local_slot(h))),
            Some(d) => match decode_fields(d.fields, b, pos + 1, end, d.endianness, devs) {
                Ok((vals, next)) => Ok(
                    (
                        Step::Data(
                            RecordView {
                                message_type_number: d.message_type_number,
                                fields: d.fields,
                                values: vals,
                            },
                        ),
                        next,
                    ),
                ),
                Err(e) => Err(e),
            },
        }
    }
}

/// `out` followed by the records of `r`, or the error of `r`.
pub open spec fn prepend(out: Seq<RecordView>, r: Result<Seq<RecordView>, DecodeError>) -> Result<
    Seq<RecordView>,
    DecodeError,
> {
    match r {
        Ok(rest) => Ok(out + rest),
        Err(e) => Err(e),
    }
}

/// The data records from `pos` up to `end`, with the given table and developer fields.
pub open spec fn scan(
    b: Seq<u8>,
    pos: int,
    end: int,
    defs: Seq<Option<DefinitionView>>,
    devs: Seq<DeveloperFieldView>,
) -> Result<Seq<RecordView>, DecodeError>
    decreases end - pos,
{
    if pos >= end {
        Ok(seq![])
    } else {
        match record_step(b, pos, end, defs, devs) {
            Err(e) => Err(e),
            Ok((step, next)) => if next <= pos || next > end {
                Err(DecodeError::Truncated)
            } else {
                match step {
                    Step::Define(slot, d) => scan(b, next, end, defs.update(slot as int, Some(d)), devs),
                    Step::Data(r) => match register(r, devs) {
                        Err(e) => Err(e),
                        Ok(devs2) => prepend(seq![r], scan(b, next, end, defs, devs2)),
                    },
                }
            },
        }
    }
}

/// The data records of a whole file: records run from the offset that the header's first
/// byte gives up to the two trailing checksum bytes.
pub open spec fn decode_stream(b: Seq<u8>) -> Result<Seq<RecordView>, DecodeError> {
    if b.len() < HEADER_SIZE || b[0] > b.len() - 2 {
        Err(DecodeError::Truncated)
    } else {
        scan(b, b[0] as int, b.len() - 2, empty_table(), seq![])
    }
}

proof fn lemma_find_field_prefix(fields: Seq<FieldDefinitionRaw>, j: int, k: u8)
    requires
        0 <= j <= fields.len(),
        find_field(fields.take(j), k) is Some,
    ensures
        find_field(fields, k) == find_field(fields.take(j), k),
    decreases fields.len() - j,
{
    if j < fields.len() {
        assert(fields.take(j + 1).drop_last() =~= fields.take(j));
        lemma_find_field_prefix(fields, j + 1, k);
    } else {
        assert(fields.take(j) =~= fields);
    }
}

proof fn lemma_find_field_bound(fields: Seq<FieldDefinitionRaw>, k: u8)
    ensures
        match find_field(fields, k) {
            Some(i) => 0 <= i < fields.len(),
            None => true,
        },
    decreases fields.len(),
{
    if fields.len() > 0 {
        lemma_find_field_bound(fields.drop_last(), k);
    }
}

/// Index of the first field, not a developer field, with number `k`.
fn find_field_index(fields: &Vec<FieldDefinitionRaw>, k: u8) -> (r: Option<usize>)
    ensures
        match (r, find_field(fields@, k)) {
            (Some(i), Some(j)) => i == j && i < fields@.len(),
            (None, None) => true,
            _ => false,
        },
{
    let mut i: usize = 0;
    while i < fields.len()
        invariant
            i <= fields@.len(),
            find_field(fields@.take(i as int), k) is None,
        decreases fields@.len() - i,
    {
        let fd = fields[i];
        assert(fields@.take(i + 1).drop_last() =~= fields@.take(i as int));
        assert(fields@.take(i + 1).last() == fd);
        if !fd.is_dev_field && fd.number == k {
            proof {
                lemma_find_field_prefix(fields@, i + 1, k);
            }
            return Some(i);
        }
        i = i + 1;
    }
    assert(fields@.take(i as int) =~= fields@);
    None
}

/// The byte held by field `k`.
fn read_byte_field(fields: &Vec<FieldDefinitionRaw>, values: &Vec<Value>, k: u8) -> (r: Option<u8>)
    requires
        fields@.len() == values@.len(),
    ensures
        r == byte_field(fields@, value_views(values@), k),
{
    proof {
        lemma_find_field_bound(fields@, k);
    }
    match find_field_index(fields, k) {
        Some(i) => match &values[i] {
            Value::NumberValueU8(x) => Some(*x),
            _ => None,
        },
        None => None,
    }
}

/// The text held by field `k`.
fn read_text_field(fields: &Vec<FieldDefinitionRaw>, values: &Vec<Value>, k: u8) -> (r: Option<String>)
    requires
        fields@.len() == values@.len(),
    ensures
        match (r, text_field(fields@, value_views(values@), k)) {
            (Some(s), Some(t)) => s@ == t,
            (None, None) => true,
            _ => false,
        },
{
    proof {
        lemma_find_field_bound(fields@, k);
    }
    match find_field_index(fields, k) {
        Some(i) => match &values[i] {
            Value::StringValue(s) => Some(s.clone()),
            _ => None,
        },
        None => None,
    }
}

/// Reads the developer field that a field description message declares.
fn describe_developer_field(fields: &Vec<FieldDefinitionRaw>, values: &Vec<Value>) -> (r: Result<
    DeveloperField,
    DecodeError,
>)
    requires
        fields@.len() == values@.len(),
    ensures
        match (r, describe_field(fields@, value_views(values@))) {
            (Ok(d), Ok(v)) => d@ == v,
            (Err(e), Err(f)) => e == f,
            _ => false,
        },
{
    let index = read_byte_field(fields, values, 0);
    let number = read_byte_field(fields, values, 1);
    let name = read_text_field(fields, values, 3);
    let base = read_byte_field(fields, values, 2);
    match (index, number, name, base) {
        (Some(index), Some(number), Some(name), Some(base)) => Ok(
            DeveloperField {
                field_name: name,
                field_definition_number: number,
                developer_data_index: index,
                fit_base_type_id: base,
            },
        ),
        _ => Err(DecodeError::MalformedFieldDescription),
    }
}

/// A copy of a layout's field list.
fn copy_fields(fields: &Vec<FieldDefinitionRaw>) -> (r: Vec<FieldDefinitionRaw>)
    ensures
        r@ == fields@,
{
    let mut r: Vec<FieldDefinitionRaw> = Vec::new();
    let mut i: usize = 0;
    while i < fields.len()
        invariant
            i <= fields@.len(),
            r@ == fields@.take(i as int),
        decreases fields@.len() - i,
    {
        r.push(fields[i]);
        assert(fields@.take(i + 1) =~= fields@.take(i as int).push(fields@[i as int]));
        i = i + 1;
    }
    assert(fields@.take(i as int) =~= fields@);
    r
}

proof fn lemma_prepend_push(out: Seq<RecordView>, r: RecordView, rest: Result<Seq<RecordView>, DecodeError>)
    ensures
        prepend(out, prepend(seq![r], rest)) == prepend(out.push(r), rest),
{
    match rest {
        Ok(s) => {
            assert(out + (seq![r] + s) =~= out.push(r) + s);
        },
        Err(_) => {},
    }
}

/// Decodes every data record of a whole file, invalid values included.
pub fn decode_records(buffer: &Vec<u8>) -> (r: Result<Vec<DataRecord>, DecodeError>)
    ensures
        match (r, decode_stream(buffer@)) {
            (Ok(recs), Ok(views)) => record_views(recs@) == views,
            (Err(e), Err(f)) => e == f,
            _ => false,
        },
{
    let len = buffer.len();
    if len < HEADER_SIZE {
        return Err(DecodeError::Truncated);
    }
    let mut pos = header_length(buffer.as_slice());
    if pos > len - 2 {
        return Err(DecodeError::Truncated);
    }
    let end = len - 2;
    let mut defs: Vec<Option<MessageDefinitionRaw>> = Vec::new();
    let mut k: usize = 0;
    while k < LOCAL_SLOTS
        invariant
            k <= LOCAL_SLOTS,
            defs@.len() == k,
            forall|i: int| 0 <= i < k ==> defs@[i] is None,
        decreases LOCAL_SLOTS - k,
    {
        defs.push(None);
        k = k + 1;
    }
    assert(table_views(defs@) =~= empty_table());
    let mut devs: Vec<DeveloperField> = Vec::new();
    let mut out: Vec<DataRecord> = Vec::new();
    let ghost b = buffer@;
    assert(record_views(out@) =~= Seq::<RecordView>::empty());
    assert(developer_views(devs@) =~= Seq::<DeveloperFieldView>::empty());
    assert(prepend(seq![], scan(b, pos as int, end as int, empty_table(), seq![])) =~= scan(b, pos as int, end as int, empty_table(), seq![])) by {
        match scan(b, pos as int, end as int, empty_table(), seq![]) {
            Ok(s) => { assert(Seq::<RecordView>::empty() + s =~= s); },
            Err(_) => {},
        }
    }
    while pos < end
        invariant
            b == buffer@,
            len == b.len(),
            end == len - 2,
            pos <= end,
            defs@.len() == LOCAL_SLOTS,
            decode_stream(b) == prepend(
                record_views(out@),
                scan(b, pos as int, end as int, table_views(defs@), developer_views(devs@)),
            ),
        decreases end - pos,
    {
        let ghost tv = table_views(defs@);
        let ghost dv = developer_views(devs@);
        let h = buffer[pos];
        if h >= 128 {
            return Err(DecodeError::CompressedTimestampHeader);
        }
        let slot = h % 16;
        if (h / 64) % 2 == 1 {
            proof {
                lemma_parse_definition_bounds(b, pos as int, end as int);
            }
            match MessageDefinitionRaw::read_definition(buffer, pos, end) {
                Err(e) => {
                    return Err(e);
                },
                Ok((def, next)) => {
                    let ghost dview = def@;
                    defs.set(slot as usize, Some(def));
                    assert(table_views(defs@) =~= tv.update(slot as int, Some(dview)));
                    pos = next;
                },
            }
        } else {
            let rec = match &defs[slot as usize] {
                None => {
                    return Err(DecodeError::UndefinedLocalMessage(slot));
                },
                Some(def) => {
                    proof {
                        lemma_decode_fields_bounds(def@.fields, b, pos + 1, end as int, def.endianness, dv);
                    }
                    match def.decode_values(buffer, pos + 1, end, &devs) {
                        Err(e) => {
                            return Err(e);
                        },
                        Ok((values, next)) => {
                            let fields = copy_fields(&def.fields);
                            pos = next;
                            DataRecord { message_type_number: def.message_type_number, fields, values }
                        },
                    }
                },
            };
            if rec.message_type_number == FIELD_DESCRIPTION {
                match describe_developer_field(&rec.fields, &rec.values) {
                    Err(e) => {
                        return Err(e);
                    },
                    Ok(d) => {
                        let ghost before = devs@;
                        devs.push(d);
                        assert(developer_views(devs@) =~= developer_views(before).push(d@));
                    },
                }
            }
            let ghost rv = rec@;
            let ghost before = out@;
            out.push(rec);
            assert(record_views(out@) =~= record_views(before).push(rv));
            proof {
                lemma_prepend_push(record_views(before), rv, scan(b, pos as int, end as int, table_views(defs@), developer_views(devs@)));
            }
        }
    }
    assert(record_views(out@) + Seq::<RecordView>::empty() =~= record_views(out@));
    Ok(out)
}

/// Every record holds one value per field of its layout.
pub open spec fn records_wf(recs: Seq<RecordView>) -> bool {
    forall|k: int| 0 <= k < recs.len() ==> #[trigger] recs[k].values.len() == recs[k].fields.len()
}

proof fn lemma_scan_wf(
    b: Seq<u8>,
    pos: int,
    end: int,
    defs: Seq<Option<DefinitionView>>,
    devs: Seq<DeveloperFieldView>,
)
    ensures
        match scan(b, pos, end, defs, devs) {
            Ok(recs) => records_wf(recs),
            Err(_) => true,
        },
    decreases end - pos,
{
    if pos < end {
        match record_step(b, pos, end, defs, devs) {
            Err(_) => {},
            Ok((step, next)) => {
                if next > pos && next <= end {
                    match step {
                        Step::Define(slot, d) => {
                            lemma_scan_wf(b, next, end, defs.update(slot as int, Some(d)), devs);
                        },
                        Step::Data(r) => {
                            let h = b[pos];
                            let d = defs[local_slot(h) as int]->Some_0;
                            lemma_decode_fields_bounds(d.fields, b, pos + 1, end, d.endianness, devs);
                            match register(r, devs) {
                                Err(_) => {},
                                Ok(devs2) => {
                                    lemma_scan_wf(b, next, end, defs, devs2);
                                    match scan(b, next, end, defs, devs2) {
                                        Ok(rest) => {
                                            let all = seq![r] + rest;
                                            assert forall|k: int| 0 <= k < all.len() implies #[trigger] all[k].values.len()
                                                == all[k].fields.len() by {
                                                if k > 0 {
                                                    assert(all[k] == rest[k - 1]);
                                                }
                                            }
                                        },
                                        Err(_) => {},
                                    }
                                },
                            }
                        },
                    }
                }
            },
        }
    }
}

/// Every record that a file decodes to holds one value per field of its layout.
pub proof fn lemma_decode_stream_wf(b: Seq<u8>)
    ensures
        match decode_stream(b) {
            Ok(recs) => records_wf(recs),
            Err(_) => true,
        },
{
    if !(b.len() < HEADER_SIZE || b[0] > b.len() - 2) {
        lemma_scan_wf(b, b[0] as int, b.len() - 2, empty_table(), seq![]);
    }
}

/// A definition record replaces whatever its slot held: decoding from it on is the same
/// whichever layout, or none, the slot held before, so a redefined slot never uses its old
/// field list.
pub proof fn lemma_redefinition_replaces(
    b: Seq<u8>,
    pos: int,
    end: int,
    defs: Seq<Option<DefinitionView>>,
    devs: Seq<DeveloperFieldView>,
    earlier1: Option<DefinitionView>,
    earlier2: Option<DefinitionView>,
)
    requires
        0 <= pos < end,
        defs.len() == LOCAL_SLOTS,
        !is_compressed_header(b[pos]),
        is_definition_header(b[pos]),
    ensures
        scan(b, pos, end, defs.update(local_slot(b[pos]) as int, earlier1), devs) == scan(
            b,
            pos,
            end,
            defs.update(local_slot(b[pos]) as int, earlier2),
            devs,
        ),
{
    let slot = local_slot(b[pos]) as int;
    let d1 = defs.update(slot, earlier1);
    let d2 = defs.update(slot, earlier2);
    match parse_definition(b, pos, end) {
        Ok((d, next)) => {
            assert(d1.update(slot, Some(d)) =~= d2.update(slot, Some(d)));
        },
        Err(_) => {},
    }
}

/// A data record is read with the layout that its slot holds at that point: its message
/// type, its fields, and values decoded from the bytes after its header.
pub proof fn lemma_data_uses_current_layout(
    b: Seq<u8>,
    pos: int,
    end: int,
    defs: Seq<Option<DefinitionView>>,
    devs: Seq<DeveloperFieldView>,
    d: DefinitionView,
)
    requires
        0 <= pos < end,
        defs.len() == LOCAL_SLOTS,
        !is_compressed_header(b[pos]),
        !is_definition_header(b[pos]),
        defs[local_slot(b[pos]) as int] == Some(d),
    ensures
        match (record_step(b, pos, end, defs, devs), decode_fields(d.fields, b, pos + 1, end, d.endianness, devs)) {
            (Ok((Step::Data(r), next)), Ok((vals, n))) => {
                &&& r.message_type_number == d.message_type_number
                &&& r.fields == d.fields
                &&& r.values == vals
                &&& next == n
            },
            (Err(e), Err(f)) => e == f,
            _ => false,
        },
{
}

/// A data record whose slot holds no definition stops decoding with the undefined local
/// message error; no bytes are skipped.
pub proof fn lemma_undefined_slot_fails(
    b: Seq<u8>,
    pos: int,
    end: int,
    defs: Seq<Option<DefinitionView>>,
    devs: Seq<DeveloperFieldView>,
)
    requires
        0 <= pos < end,
        defs.len() == LOCAL_SLOTS,
        !is_compressed_header(b[pos]),
        !is_definition_header(b[pos]),
        defs[local_slot(b[pos]) as int] is None,
    ensures
        scan(b, pos, end, defs, devs) == Err::<Seq<RecordView>, DecodeError>(
            DecodeError::UndefinedLocalMessage(local_slot(b[pos])),
        ),
{
}

/// The bytes of a definition record for `slot` that declares the single field `fd`.
pub open spec fn one_field_definition(slot: u8, endianness: u8, msg: u16, fd: FieldDefinitionRaw) -> Seq<u8> {
    seq![(0x40 + slot) as u8, 0u8, endianness] + encode_word(msg as nat, 2, endianness) + seq![
        1u8,
        fd.number,
        fd.size,
        fd.base_type_value_or_dev_index,
    ]
}

/// The bytes of a data record for `slot` whose fields are `bytes`.
pub open spec fn data_record_bytes(slot: u8, bytes: Seq<u8>) -> Seq<u8> {
    seq![slot] + bytes
}

/// The one-field layout that declares field `number` of base type `bt` over `size` bytes.
pub open spec fn one_field(number: u8, bt: BaseType, size: nat) -> FieldDefinitionRaw {
    FieldDefinitionRaw {
        number,
        size: size as u8,
        base_type_value_or_dev_index: bt.type_number,
        is_dev_field: false,
    }
}

proof fn lemma_one_field_definition(
    b: Seq<u8>,
    pos: int,
    end: int,
    slot: u8,
    endianness: u8,
    msg: u16,
    fd: FieldDefinitionRaw,
)
    requires
        slot < 16,
        !fd.is_dev_field,
        0 <= pos,
        pos + 9 <= end <= b.len(),
        b.subrange(pos, pos + 9) == one_field_definition(slot, endianness, msg, fd),
    ensures
        b[pos] == 0x40 + slot,
        parse_definition(b, pos, end) == Ok::<(DefinitionView, int), DecodeError>(
            (DefinitionView { message_type_number: msg, fields: seq![fd], endianness }, pos + 9),
        ),
{
    let head = one_field_definition(slot, endianness, msg, fd);
    assert(pow256(2) == 0x1_0000) by {
        assert(pow256(0) == 1);
        assert(pow256(1) == 0x100);
    }
    lemma_word_round_trip(msg as nat, 2, endianness);
    assert(head.len() == 9);
    assert forall|k: int| 0 <= k < 9 implies b[pos + k] == #[trigger] head[k] by {
        assert(b.subrange(pos, pos + 9)[k] == b[pos + k]);
    }
    assert(b[pos] == head[0]);
    assert(b[pos + 2] == head[2]);
    assert(b[pos + 5] == head[5]);
    assert(b[pos + 6] == head[6]);
    assert(b[pos + 7] == head[7]);
    assert(b[pos + 8] == head[8]);
    assert(b.subrange(pos + 3, pos + 5) =~= encode_word(msg as nat, 2, endianness)) by {
        assert forall|k: int| 0 <= k < 2 implies b.subrange(pos + 3, pos + 5)[k] == encode_word(
            msg as nat,
            2,
            endianness,
        )[k] by {
            assert(b[pos + 3 + k] == head[3 + k]);
        }
    }
    let tail4 = seq![1u8, fd.number, fd.size, fd.base_type_value_or_dev_index];
    assert(head == seq![(0x40 + slot) as u8, 0u8, endianness] + encode_word(msg as nat, 2, endianness) + tail4);
    assert(head[5] == tail4[0]);
    assert(head[6] == tail4[1]);
    assert(head[7] == tail4[2]);
    assert(head[8] == tail4[3]);
    assert(field_triples(b, pos + 6, 1, false) =~= seq![fd]);
}

proof fn lemma_one_field_data(
    b: Seq<u8>,
    pos: int,
    end: int,
    endianness: u8,
    devs: Seq<DeveloperFieldView>,
    number: u8,
    bt: BaseType,
    data: Seq<u8>,
)
    requires
        bt.wf(),
        bt.accepts_size(data.len()),
        data.len() < 256,
        0 <= pos,
        pos + data.len() <= end <= b.len(),
        b.subrange(pos, pos + data.len()) == data,
    ensures
        decode_fields(seq![one_field(number, bt, data.len())], b, pos, end, endianness, devs) == Ok::<
            (Seq<ValueView>, int),
            DecodeError,
        >((seq![bt.spec_read(data, endianness)], pos + data.len())),
{
    let fd = one_field(number, bt, data.len());
    assert(fd.size == data.len());
    assert(field_base_type(fd, devs) == Ok::<BaseType, DecodeError>(bt));
    assert(seq![fd].drop_last() =~= Seq::<FieldDefinitionRaw>::empty());
    assert(decode_fields(seq![fd].drop_last(), b, pos, end, endianness, devs) == Ok::<
        (Seq<ValueView>, int),
        DecodeError,
    >((seq![], pos)));
    assert(seq![].push(bt.spec_read(data, endianness)) =~= seq![bt.spec_read(data, endianness)]);
}

/// A definition record that declares one field of any base type, followed by a data record
/// holding that field's bytes, decodes to one record whose value is what the bytes decode to
/// as that type; the slot then holds the new layout.
#[verifier::rlimit(40)]
pub proof fn lemma_record_pair(
    b: Seq<u8>,
    pos: int,
    end: int,
    defs: Seq<Option<DefinitionView>>,
    devs: Seq<DeveloperFieldView>,
    slot: u8,
    endianness: u8,
    msg: u16,
    number: u8,
    bt: BaseType,
    data: Seq<u8>,
)
    requires
        slot < 16,
        defs.len() == LOCAL_SLOTS,
        bt.wf(),
        bt.accepts_size(data.len()),
        data.len() < 256,
        msg != FIELD_DESCRIPTION,
        0 <= pos,
        end <= b.len(),
        ({
            let bytes = one_field_definition(slot, endianness, msg, one_field(number, bt, data.len()))
                + data_record_bytes(slot, data);
            pos + bytes.len() <= end && b.subrange(pos, pos + bytes.len()) == bytes
        }),
    ensures
        ({
            let fd = one_field(number, bt, data.len());
            let d = DefinitionView { message_type_number: msg, fields: seq![fd], endianness };
            let r = RecordView {
                message_type_number: msg,
                fields: seq![fd],
                values: seq![bt.spec_read(data, endianness)],
            };
            scan(b, pos, end, defs, devs) == prepend(
                seq![r],
                scan(b, pos + 10 + data.len(), end, defs.update(slot as int, Some(d)), devs),
            )
        }),
{
    let fd = one_field(number, bt, data.len());
    let head = one_field_definition(slot, endianness, msg, fd);
    let tail = data_record_bytes(slot, data);
    let bytes = head + tail;
    assert(pow256(2) == 0x1_0000) by {
        assert(pow256(0) == 1);
        assert(pow256(1) == 0x100);
    }
    lemma_word_round_trip(msg as nat, 2, endianness);
    assert(head.len() == 9);
    let sub = b.subrange(pos, pos + bytes.len());
    assert(b.subrange(pos, pos + 9) =~= head) by {
        assert forall|k: int| 0 <= k < 9 implies b.subrange(pos, pos + 9)[k] == head[k] by {
            assert(sub[k] == bytes[k]);
        }
    }
    assert(b[pos + 9] == slot) by {
        assert(sub[9] == bytes[9]);
    }
    assert(b.subrange(pos + 10, pos + 10 + data.len()) =~= data) by {
        assert forall|k: int| 0 <= k < data.len() implies b.subrange(pos + 10, pos + 10 + data.len())[k]
            == data[k] by {
            assert(sub[10 + k] == bytes[10 + k]);
            assert(bytes[10 + k] == tail[1 + k]);
        }
    }
    lemma_one_field_definition(b, pos, end, slot, endianness, msg, fd);
    lemma_one_field_data(b, pos + 10, end, endianness, devs, number, bt, data);
    let d = DefinitionView { message_type_number: msg, fields: seq![fd], endianness };
    let defs2 = defs.update(slot as int, Some(d));
    let h = b[pos];
    assert(!is_compressed_header(h) && is_definition_header(h));
    assert(local_slot(h) == slot);
    assert(scan(b, pos, end, defs, devs) == scan(b, pos + 9, end, defs2, devs));
    let h2 = b[pos + 9];
    assert(!is_compressed_header(h2) && !is_definition_header(h2));
    assert(local_slot(h2) == slot);
    let r = RecordView {
        message_type_number: msg,
        fields: seq![fd],
        values: seq![bt.spec_read(data, endianness)],
    };
    assert(record_step(b, pos + 9, end, defs2, devs) == Ok::<(Step, int), DecodeError>(
        (Step::Data(r), pos + 10 + data.len()),
    ));
    assert(register(r, devs) == Ok::<Seq<DeveloperFieldView>, DecodeError>(devs));
}

/// A whole file of one definition record and one data record.
pub open spec fn one_record_file(
    header: Seq<u8>,
    slot: u8,
    endianness: u8,
    msg: u16,
    fd: FieldDefinitionRaw,
    data: Seq<u8>,
    crc: Seq<u8>,
) -> Seq<u8> {
    header + one_field_definition(slot, endianness, msg, fd) + data_record_bytes(slot, data) + crc
}

/// For every base type and both byte orders, a file made of a header, a definition record of
/// one field and a data record holding an encoded value decodes to exactly one record, which
/// holds exactly that value.
pub proof fn lemma_file_round_trip(
    header: Seq<u8>,
    crc: Seq<u8>,
    slot: u8,
    endianness: u8,
    msg: u16,
    number: u8,
    bt: BaseType,
    x: nat,
    text: Seq<char>,
)
    requires
        header.len() == HEADER_SIZE,
        header[0] == HEADER_SIZE,
        crc.len() == 2,
        slot < 16,
        msg != FIELD_DESCRIPTION,
        bt.wf(),
        encodable(bt, x, text),
    ensures
        ({
            let data = field_encoding(bt, x, text, endianness);
            let fd = one_field(number, bt, data.len());
            decode_stream(one_record_file(header, slot, endianness, msg, fd, data, crc)) == Ok::<
                Seq<RecordView>,
                DecodeError,
            >(
                seq![
                    RecordView {
                        message_type_number: msg,
                        fields: seq![fd],
                        values: seq![encoded_value(bt, x, text)],
                    },
                ],
            )
        }),
{
    let data = field_encoding(bt, x, text, endianness);
    lemma_field_round_trip(bt, x, text, endianness);
    let fd = one_field(number, bt, data.len());
    let head = one_field_definition(slot, endianness, msg, fd);
    assert(pow256(2) == 0x1_0000) by {
        assert(pow256(0) == 1);
        assert(pow256(1) == 0x100);
    }
    lemma_word_round_trip(msg as nat, 2, endianness);
    let bytes = head + data_record_bytes(slot, data);
    let b = one_record_file(header, slot, endianness, msg, fd, data, crc);
    assert(b =~= header + bytes + crc);
    assert(b.len() == 14 + bytes.len() + 2);
    assert(b[0] == header[0]);
    let end = b.len() - 2;
    assert(b.subrange(14, 14 + bytes.len() as int) =~= bytes);
    lemma_record_pair(b, 14, end, empty_table(), seq![], slot, endianness, msg, number, bt, data);
    let d = DefinitionView { message_type_number: msg, fields: seq![fd], endianness };
    assert(14 + 10 + data.len() == end);
    assert(scan(b, end, end, empty_table().update(slot as int, Some(d)), seq![]) == Ok::<
        Seq<RecordView>,
        DecodeError,
    >(seq![]));
    let r = RecordView {
        message_type_number: msg,
        fields: seq![fd],
        values: seq![encoded_value(bt, x, text)],
    };
    assert(seq![r] + Seq::<RecordView>::empty() =~= seq![r]);
}

/// Where decoding stands between two records: the position of the next record header, the
/// local message table, the developer fields, and the records yielded so far.
pub struct ScanState {
    pub pos: int,
    pub defs: Seq<Option<DefinitionView>>,
    pub devs: Seq<DeveloperFieldView>,
    pub out: Seq<RecordView>,
}

/// Where decoding of a whole file starts.
pub open spec fn initial_state(b: Seq<u8>) -> ScanState {
    ScanState { pos: b[0] as int, defs: empty_table(), devs: seq![], out: seq![] }
}

/// Where decoding stands after the record at `st.pos`, if that record decodes.
pub open spec fn next_state(b: Seq<u8>, end: int, st: ScanState) -> Option<ScanState> {
    if st.pos >= end {
        None
    } else {
        match record_step(b, st.pos, end, st.defs, st.devs) {
            Err(_) => None,
            Ok((step, next)) => if next <= st.pos || next > end {
                None
            } else {
                match step {
                    Step::Define(slot, d) => Some(
                        ScanState { pos: next, defs: st.defs.update(slot as int, Some(d)), ..st },
                    ),
                    Step::Data(r) => match register(r, st.devs) {
                        Err(_) => None,
                        Ok(devs2) => Some(ScanState { pos: next, devs: devs2, out: st.out.push(r), ..st }),
                    },
                }
            },
        }
    }
}

/// Where decoding stands after `k` records from `st`, if they all decode.
pub open spec fn state_after(b: Seq<u8>, end: int, st: ScanState, k: nat) -> Option<ScanState>
    decreases k,
{
    if k == 0 {
        Some(st)
    } else {
        match state_after(b, end, st, (k - 1) as nat) {
            Some(s) => next_state(b, end, s),
            None => None,
        }
    }
}

/// Decoding from a state is the records yielded on the way to any later state, then
/// decoding from there.
pub proof fn lemma_state_scan(b: Seq<u8>, end: int, st: ScanState, k: nat)
    requires
        st.defs.len() == LOCAL_SLOTS,
    ensures
        match state_after(b, end, st, k) {
            Some(s) => {
                &&& prepend(st.out, scan(b, st.pos, end, st.defs, st.devs)) == prepend(
                    s.out,
                    scan(b, s.pos, end, s.defs, s.devs),
                )
                &&& s.defs.len() == st.defs.len()
                &&& s.pos >= st.pos
            },
            None => true,
        },
    decreases k,
{
    if k > 0 {
        lemma_state_scan(b, end, st, (k - 1) as nat);
        match state_after(b, end, st, (k - 1) as nat) {
            Some(s) => {
                if s.pos < end {
                    match record_step(b, s.pos, end, s.defs, s.devs) {
                        Ok((step, next)) => {
                            if next > s.pos && next <= end {
                                match step {
                                    Step::Define(slot, d) => {
                                        assert(slot == local_slot(b[s.pos]));
                                        assert(scan(b, s.pos, end, s.defs, s.devs) == scan(
                                            b,
                                            next,
                                            end,
                                            s.defs.update(slot as int, Some(d)),
                                            s.devs,
                                        ));
                                    },
                                    Step::Data(r) => {
                                        match register(r, s.devs) {
                                            Ok(devs2) => {
                                                assert(scan(b, s.pos, end, s.defs, s.devs) == prepend(
                                                    seq![r],
                                                    scan(b, next, end, s.defs, devs2),
                                                ));
                                                lemma_prepend_push(s.out, r, scan(b, next, end, s.defs, devs2));
                                            },
                                            Err(_) => {},
                                        }
                                    },
                                }
                            }
                        },
                        Err(_) => {},
                    }
                }
            },
            None => {},
        }
    }
}

/// Whether a buffer is long enough for a header and its records start before the checksum.
pub open spec fn has_record_section(b: Seq<u8>) -> bool {
    b.len() >= HEADER_SIZE && b[0] <= b.len() - 2
}

/// Once decoding of a whole file gets to a data record whose slot holds no definition, the
/// file fails with the undefined local message error; the record's bytes are not skipped.
pub proof fn lemma_file_undefined_slot(b: Seq<u8>, k: nat, s: ScanState)
    requires
        has_record_section(b),
        state_after(b, b.len() - 2, initial_state(b), k) == Some(s),
        s.pos < b.len() - 2,
        !is_compressed_header(b[s.pos]),
        !is_definition_header(b[s.pos]),
        s.defs[local_slot(b[s.pos]) as int] is None,
    ensures
        decode_stream(b) == Err::<Seq<RecordView>, DecodeError>(
            DecodeError::UndefinedLocalMessage(local_slot(b[s.pos])),
        ),
{
    let end = b.len() - 2;
    lemma_state_scan(b, end, initial_state(b), k);
    lemma_undefined_slot_fails(b, s.pos, end, s.defs, s.devs);
    match scan(b, b[0] as int, end, empty_table(), seq![]) {
        Ok(rs) => {
            assert(Seq::<RecordView>::empty() + rs =~= rs);
        },
        Err(_) => {},
    }
}

/// Once decoding of a whole file gets to a data record, that record is read with the
/// layout that its slot holds then, the latest definition before it: it takes the message
/// type and fields of that layout, its values are decoded with that layout's byte order,
/// decoding goes on exactly that layout's size further, and when the file decodes the record
/// is the next one in the output.
pub proof fn lemma_file_uses_latest_layout(b: Seq<u8>, k: nat, s: ScanState, d: DefinitionView)
    requires
        has_record_section(b),
        state_after(b, b.len() - 2, initial_state(b), k) == Some(s),
        s.pos < b.len() - 2,
        !is_compressed_header(b[s.pos]),
        !is_definition_header(b[s.pos]),
        s.defs[local_slot(b[s.pos]) as int] == Some(d),
        d.message_type_number != FIELD_DESCRIPTION,
        decode_fields(d.fields, b, s.pos + 1, b.len() - 2, d.endianness, s.devs) is Ok,
    ensures
        ({
            let vals = decode_fields(d.fields, b, s.pos + 1, b.len() - 2, d.endianness, s.devs)->Ok_0.0;
            let r = RecordView { message_type_number: d.message_type_number, fields: d.fields, values: vals };
            &&& state_after(b, b.len() - 2, initial_state(b), k + 1) == Some(
                ScanState { pos: s.pos + 1 + fields_size(d.fields), out: s.out.push(r), ..s },
            )
            &&& decode_stream(b) is Ok ==> decode_stream(b)->Ok_0[s.out.len() as int] == r
        }),
{
    let end = b.len() - 2;
    lemma_state_scan(b, end, initial_state(b), k);
    lemma_decode_fields_bounds(d.fields, b, s.pos + 1, end, d.endianness, s.devs);
    lemma_state_scan(b, end, initial_state(b), k + 1);
    let vals = decode_fields(d.fields, b, s.pos + 1, end, d.endianness, s.devs)->Ok_0.0;
    let r = RecordView { message_type_number: d.message_type_number, fields: d.fields, values: vals };
    let s2 = ScanState { pos: s.pos + 1 + fields_size(d.fields), out: s.out.push(r), ..s };
    assert(state_after(b, end, initial_state(b), k + 1) == Some(s2));
    match scan(b, b[0] as int, end, empty_table(), seq![]) {
        Ok(rs) => {
            assert(Seq::<RecordView>::empty() + rs =~= rs);
            match scan(b, s2.pos, end, s2.defs, s2.devs) {
                Ok(rest) => {
                    assert((s.out.push(r) + rest)[s.out.len() as int] == r);
                },
                Err(_) => {},
            }
        },
        Err(_) => {},
    }
}

/// Once decoding of a whole file gets to a definition record, its slot holds the new layout
/// afterwards, whatever it held before.
pub proof fn lemma_file_definition_installs(b: Seq<u8>, k: nat, s: ScanState)
    requires
        has_record_section(b),
        state_after(b, b.len() - 2, initial_state(b), k) == Some(s),
        s.pos < b.len() - 2,
        !is_compressed_header(b[s.pos]),
        is_definition_header(b[s.pos]),
        parse_definition(b, s.pos, b.len() - 2) is Ok,
    ensures
        ({
            let (d, next) = parse_definition(b, s.pos, b.len() - 2)->Ok_0;
            state_after(b, b.len() - 2, initial_state(b), k + 1) == Some(
                ScanState { pos: next, defs: s.defs.update(local_slot(b[s.pos]) as int, Some(d)), ..s },
            )
        }),
{
    lemma_parse_definition_bounds(b, s.pos, b.len() - 2);
}

/// When a whole file decodes, every data record that decoding gets to is read with the layout
/// its slot holds then, the latest definition before it: its values decode with that layout,
/// it is the next record of the output, and the next record starts exactly that layout's size
/// further on.
pub proof fn lemma_decoded_file_uses_latest_layout(b: Seq<u8>, k: nat, s: ScanState, d: DefinitionView)
    requires
        has_record_section(b),
        decode_stream(b) is Ok,
        state_after(b, b.len() - 2, initial_state(b), k) == Some(s),
        s.pos < b.len() - 2,
        !is_compressed_header(b[s.pos]),
        !is_definition_header(b[s.pos]),
        s.defs[local_slot(b[s.pos]) as int] == Some(d),
    ensures
        decode_fields(d.fields, b, s.pos + 1, b.len() - 2, d.endianness, s.devs) is Ok,
        ({
            let vals = decode_fields(d.fields, b, s.pos + 1, b.len() - 2, d.endianness, s.devs)->Ok_0.0;
            let r = RecordView { message_type_number: d.message_type_number, fields: d.fields, values: vals };
            &&& decode_stream(b)->Ok_0.len() > s.out.len()
            &&& decode_stream(b)->Ok_0[s.out.len() as int] == r
            &&& state_after(b, b.len() - 2, initial_state(b), k + 1) is Some
            &&& state_after(b, b.len() - 2, initial_state(b), k + 1)->Some_0.pos == s.pos + 1
                + fields_size(d.fields)
        }),
{
    let end = b.len() - 2;
    lemma_state_scan(b, end, initial_state(b), k);
    lemma_decode_fields_bounds(d.fields, b, s.pos + 1, end, d.endianness, s.devs);
    assert(Seq::<RecordView>::empty() + decode_stream(b)->Ok_0 =~= decode_stream(b)->Ok_0);
    let rest = scan(b, s.pos, end, s.defs, s.devs);
    assert(rest is Ok);
    let vals = decode_fields(d.fields, b, s.pos + 1, end, d.endianness, s.devs)->Ok_0.0;
    let r = RecordView { message_type_number: d.message_type_number, fields: d.fields, values: vals };
    match record_step(b, s.pos, end, s.defs, s.devs) {
        Ok((Step::Data(r2), next)) => {
            assert(r2 == r);
            match register(r, s.devs) {
                Ok(devs2) => {
                    let tail = scan(b, next, end, s.defs, devs2)->Ok_0;
                    assert((s.out + (seq![r] + tail))[s.out.len() as int] == r);
                },
                Err(_) => {},
            }
        },
        _ => {},
    }
}

} // verus!
