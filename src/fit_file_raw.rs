//! Decoded messages by field number, without names from the catalogue.

use vstd::prelude::*;
use crate::definition::{
    DeveloperField, FieldDefinitionRaw, MessageDefinitionRaw, decode_fields, developer_views,
    lemma_decode_fields_bounds, value_views,
};
use crate::error::DecodeError;
use crate::stream::{
    DataRecord, RecordView, decode_records, decode_stream, lemma_decode_stream_wf, record_views,
};
use crate::base_type::{BaseType, encodable, encoded_value, field_encoding, lemma_field_round_trip};
use crate::header::HEADER_SIZE;
use crate::stream::{FIELD_DESCRIPTION, lemma_file_round_trip, one_field, one_record_file};
use crate::value::{Value, ValueView};

verus! {

/// One valid value of a raw message, by field number.
#[derive(Debug)]
pub struct FieldValueRaw {
    pub field_number: u8,
    pub value: Value,
}

/// The valid values of a raw message, in field order.
#[derive(Debug)]
pub struct Fields {
    pub data: Vec<FieldValueRaw>,
}

/// A data message by field number.
#[derive(Debug)]
pub struct MessageRaw {
    pub message_number: u16,
    pub fields: Fields,
}

/// What a [`MessageRaw`] holds.
pub struct MessageRawView {
    pub message_number: u16,
    pub fields: Seq<(u8, ValueView)>,
}

impl View for MessageRaw {
    type V = MessageRawView;

    open spec fn view(&self) -> MessageRawView {
        MessageRawView {
            message_number: self.message_number,
            fields: self.fields.data@.map_values(|f: FieldValueRaw| (f.field_number, f.value@)),
        }
    }
}

/// All data messages of a file by field number.
#[derive(Debug)]
pub struct FitFileRaw {
    pub messages: Vec<MessageRaw>,
}

/// The first `n` fields with their values, those whose value is invalid left out.
pub open spec fn valid_fields(fields: Seq<FieldDefinitionRaw>, vals: Seq<ValueView>, n: nat) -> Seq<
    (u8, ValueView),
>
    decreases n,
{
    if n == 0 {
        seq![]
    } else {
        let rest = valid_fields(fields, vals, (n - 1) as nat);
        if vals[n - 1] == ValueView::Invalid {
            rest
        } else {
            rest.push((fields[n - 1].number, vals[n - 1]))
        }
    }
}

/// The raw message of a decoded record: its valid values by field number.
pub open spec fn raw_message(r: RecordView) -> MessageRawView {
    MessageRawView {
        message_number: r.message_type_number,
        fields: valid_fields(r.fields, r.values, r.fields.len()),
    }
}

/// The raw messages of a file.
pub open spec fn raw_messages(b: Seq<u8>) -> Result<Seq<MessageRawView>, DecodeError> {
    match decode_stream(b) {
        Ok(recs) => Ok(recs.map_values(|r: RecordView| raw_message(r))),
        Err(e) => Err(e),
    }
}

/// Builds the raw message of a record, moving its values out.
fn to_raw_message(rec: DataRecord) -> (m: MessageRaw)
    requires
        rec.fields@.len() == rec.values@.len(),
    ensures
        m@ == raw_message(rec@),
{
    let DataRecord { message_type_number, fields, mut values } = rec;
    let ghost vals = value_views(values@);
    let mut data: Vec<FieldValueRaw> = Vec::new();
    let mut i: usize = 0;
    while i < fields.len()
        invariant
            fields@.len() == values@.len(),
            i <= fields@.len(),
            forall|k: int| i <= k < values@.len() ==> values@[k]@ == vals[k],
            vals.len() == values@.len(),
            data@.map_values(|f: FieldValueRaw| (f.field_number, f.value@)) == valid_fields(
                fields@,
                vals,
                i as nat,
            ),
        decreases fields@.len() - i,
    {
        let mut v = Value::Invalid;
        values.set_and_swap(i, &mut v);
        let ghost before = data@;
        if !v.is_invalid() {
            data.push(FieldValueRaw { field_number: fields[i].number, value: v });
            assert(data@.map_values(|f: FieldValueRaw| (f.field_number, f.value@)) =~= before.map_values(
                |f: FieldValueRaw| (f.field_number, f.value@),
            ).push((fields@[i as int].number, vals[i as int])));
        }
        i = i + 1;
    }
    MessageRaw { message_number: message_type_number, fields: Fields { data } }
}

impl MessageDefinitionRaw {
    /// Reads the data record whose first field byte stands at `current_position`, with this
    /// layout; returns its valid values and the position after it.
    pub fn read_message(
        &self,
        current_position: &usize,
        buffer: &Vec<u8>,
        developer_fields: &Vec<DeveloperField>,
    ) -> (r: Result<(MessageRaw, usize), DecodeError>)
        requires
            *current_position <= buffer@.len(),
        ensures
            match (
                r,
                decode_fields(
                    self@.fields,
                    buffer@,
                    *current_position as int,
                    buffer@.len() as int,
                    self.endianness,
                    developer_views(developer_fields@),
                ),
            ) {
                (Ok((m, next)), Ok((vals, n))) => next == n && m@ == raw_message(
                    RecordView {
                        message_type_number: self.message_type_number,
                        fields: self@.fields,
                        values: vals,
                    },
                ),
                (Err(e), Err(f)) => e == f,
                _ => false,
            },
    {
        proof {
            lemma_decode_fields_bounds(
                self@.fields,
                buffer@,
                *current_position as int,
                buffer@.len() as int,
                self.endianness,
                developer_views(developer_fields@),
            );
        }
        match self.decode_values(buffer, *current_position, buffer.len(), developer_fields) {
            Err(e) => Err(e),
            Ok((values, next)) => {
                let mut fields: Vec<FieldDefinitionRaw> = Vec::new();
                let mut i: usize = 0;
                while i < self.fields.len()
                    invariant
                        i <= self.fields@.len(),
                        fields@ == self.fields@.take(i as int),
                    decreases self.fields@.len() - i,
                {
                    fields.push(self.fields[i]);
                    assert(self.fields@.take(i + 1) =~= self.fields@.take(i as int).push(
                        self.fields@[i as int],
                    ));
                    i = i + 1;
                }
                assert(self.fields@.take(i as int) =~= self.fields@);
                let rec = DataRecord { message_type_number: self.message_type_number, fields, values };
                Ok((to_raw_message(rec), next))
            },
        }
    }
}

impl FitFileRaw {
    /// Decodes a whole file into its data messages by field number, invalid values left out.
    pub fn from(buffer: &Vec<u8>) -> (r: Result<FitFileRaw, DecodeError>)
        ensures
            match (r, raw_messages(buffer@)) {
                (Ok(f), Ok(ms)) => f.messages@.map_values(|m: MessageRaw| m@) == ms,
                (Err(e), Err(f)) => e == f,
                _ => false,
            },
    {
        match decode_records(buffer) {
            Err(e) => Err(e),
            Ok(mut recs) => {
                let ghost views = record_views(recs@);
                proof {
                    lemma_decode_stream_wf(buffer@);
                }
                let mut messages: Vec<MessageRaw> = Vec::new();
                let mut i: usize = 0;
                while i < recs.len()
                    invariant
                        i <= recs@.len(),
                        views.len() == recs@.len(),
                        forall|k: int| 0 <= k < views.len() ==> #[trigger] views[k].values.len() == views[k].fields.len(),
                        forall|k: int| i <= k < recs@.len() ==> recs@[k]@ == views[k],
                        messages@.map_values(|m: MessageRaw| m@) == views.take(i as int).map_values(
                            |r: RecordView| raw_message(r),
                        ),
                    decreases recs@.len() - i,
                {
                    let mut rec = DataRecord {
                        message_type_number: 0,
                        fields: Vec::new(),
                        values: Vec::new(),
                    };
                    recs.set_and_swap(i, &mut rec);
                    assert(rec@ == views[i as int]);
                    assert(views[i as int].values.len() == views[i as int].fields.len());
                    assert(value_views(rec.values@).len() == rec.values@.len());
                    messages.push(to_raw_message(rec));
                    assert(views.take(i + 1).map_values(|r: RecordView| raw_message(r)) =~= views.take(
                        i as int,
                    ).map_values(|r: RecordView| raw_message(r)).push(raw_message(views[i as int])));
                    i = i + 1;
                }
                assert(views.take(i as int) =~= views);
                Ok(FitFileRaw { messages })
            },
        }
    }
}

/// For every base type and both byte orders, a file made of a header, a definition record of
/// one field and a data record holding an encoded value gives one raw message of that type
/// whose single entry is that field number with exactly that value.
pub proof fn lemma_raw_file_round_trip(
    header: Seq<u8>,
    crc: Seq<u8>,
    slot: u8,
    endianness: u8,
    msg: u16,
    number: u8,
    bt: BaseType,
    x: nat,
    text: Seq<char>,
)
    requires
        header.len() == HEADER_SIZE,
        header[0] == HEADER_SIZE,
        crc.len() == 2,
        slot < 16,
        msg != FIELD_DESCRIPTION,
        bt.wf(),
        encodable(bt, x, text),
    ensures
        ({
            let data = field_encoding(bt, x, text, endianness);
            let fd = one_field(number, bt, data.len());
            raw_messages(one_record_file(header, slot, endianness, msg, fd, data, crc)) == Ok::<
                Seq<MessageRawView>,
                DecodeError,
            >(
                seq![
                    MessageRawView {
                        message_number: msg,
                        fields: seq![(number, encoded_value(bt, x, text))],
                    },
                ],
            )
        }),
{
    lemma_file_round_trip(header, crc, slot, endianness, msg, number, bt, x, text);
    let data = field_encoding(bt, x, text, endianness);
    let fd = one_field(number, bt, data.len());
    let v = encoded_value(bt, x, text);
    let r = RecordView { message_type_number: msg, fields: seq![fd], values: seq![v] };
    assert(valid_fields(seq![fd], seq![v], 0) =~= Seq::<(u8, ValueView)>::empty());
    assert(valid_fields(seq![fd], seq![v], 1) =~= seq![(number, v)]);
    assert(seq![r].map_values(|r: RecordView| raw_message(r)) =~= seq![raw_message(r)]);
}

} // verus!
