//! Definition records: the field layouts that data records are decoded with, and the
//! developer fields that field description messages declare.

use vstd::prelude::*;
use crate::base_type::{BaseType, base_type_of, read_word, word};
use crate::error::DecodeError;
use crate::value::{Value, ValueView};

verus! {

/// One column of a message layout.
#[derive(Clone, Copy, Debug, PartialEq, Eq, Structural)]
pub struct FieldDefinitionRaw {
    pub number: u8,
    /// Bytes that the field takes in each data record.
    pub size: u8,
    /// The base type tag, or for a developer field the developer data index.
    pub base_type_value_or_dev_index: u8,
    pub is_dev_field: bool,
}

/// The layout installed for a local message number: the message type, its fields in
/// order, and the byte order of multi-byte values.
#[derive(Debug)]
pub struct MessageDefinitionRaw {
    pub message_type_number: u16,
    pub fields: Vec<FieldDefinitionRaw>,
    pub endianness: u8,
}

/// What a [`MessageDefinitionRaw`] holds.
pub struct DefinitionView {
    pub message_type_number: u16,
    pub fields: Seq<FieldDefinitionRaw>,
    pub endianness: u8,
}

impl View for MessageDefinitionRaw {
    type V = DefinitionView;

    open spec fn view(&self) -> DefinitionView {
        DefinitionView {
            message_type_number: self.message_type_number,
            fields: self.fields@,
            endianness: self.endianness,
        }
    }
}

/// A field that a field description message declared.
#[derive(Debug)]
pub struct DeveloperField {
    pub field_name: String,
    pub field_definition_number: u8,
    pub developer_data_index: u8,
    pub fit_base_type_id: u8,
}

/// What a [`DeveloperField`] holds.
pub struct DeveloperFieldView {
    pub field_name: Seq<char>,
    pub field_definition_number: u8,
    pub developer_data_index: u8,
    pub fit_base_type_id: u8,
}

impl View for DeveloperField {
    type V = DeveloperFieldView;

    open spec fn view(&self) -> DeveloperFieldView {
        DeveloperFieldView {
            field_name: self.field_name@,
            field_definition_number: self.field_definition_number,
            developer_data_index: self.developer_data_index,
            fit_base_type_id: self.fit_base_type_id,
        }
    }
}

/// The views of a list of developer fields.
pub open spec fn developer_views(devs: Seq<DeveloperField>) -> Seq<DeveloperFieldView> {
    devs.map_values(|d: DeveloperField| d@)
}

/// The views of a list of values.
pub open spec fn value_views(vals: Seq<Value>) -> Seq<ValueView> {
    vals.map_values(|v: Value| v@)
}

/// The `n` field definitions of three bytes each that start at `start`.
pub open spec fn field_triples(b: Seq<u8>, start: int, n: nat, is_dev: bool) -> Seq<FieldDefinitionRaw> {
    Seq::new(
        n,
        |i: int|
            FieldDefinitionRaw {
                number: b[start + 3 * i],
                size: b[start + 3 * i + 1],
                base_type_value_or_dev_index: b[start + 3 * i + 2],
                is_dev_field: is_dev,
            },
    )
}

/// Whether a record header byte announces developer fields in its definition.
pub open spec fn has_developer_flag(h: u8) -> bool {
    (h / 32) % 2 == 1
}

/// The definition record whose header byte stands at `pos`, read from bytes before `end`,
/// with the position after it.
pub open spec fn parse_definition(b: Seq<u8>, pos: int, end: int) -> Result<
    (DefinitionView, int),
    DecodeError,
> {
    let base = pos + 1;
    if base + 5 > end {
        Err(DecodeError::Truncated)
    } else {
        let endianness = b[base + 1];
        let number = word(b.subrange(base + 2, base + 4), endianness) as u16;
        let n = b[base + 4];
        let fstart = base + 5;
        if fstart + 3 * n > end {
            Err(DecodeError::Truncated)
        } else {
            let normal = field_triples(b, fstart, n as nat, false);
            let after = fstart + 3 * n;
            if !has_developer_flag(b[pos]) {
                Ok((DefinitionView { message_type_number: number, fields: normal, endianness }, after))
            } else if after + 1 > end {
                Err(DecodeError::Truncated)
            } else {
                let m = b[after];
                let dstart = after + 1;
                if dstart + 3 * m > end {
                    Err(DecodeError::Truncated)
                } else {
                    let dev = field_triples(b, dstart, m as nat, true);
                    Ok((
                        DefinitionView { message_type_number: number, fields: normal + dev, endianness },
                        dstart + 3 * m,
                    ))
                }
            }
        }
    }
}

/// Index of the first developer field declared for `(index, number)`.
pub open spec fn find_developer(devs: Seq<DeveloperFieldView>, index: u8, number: u8) -> Option<int>
    decreases devs.len(),
{
    if devs.len() == 0 {
        None
    } else {
        match find_developer(devs.drop_last(), index, number) {
            Some(k) => Some(k),
            None => if devs.last().developer_data_index == index && devs.last().field_definition_number
                == number {
                Some(devs.len() - 1)
            } else {
                None
            },
        }
    }
}

/// The base type that a field is read with: its own tag, or for a developer field the type
/// that its declaration gives.
pub open spec fn field_base_type(fd: FieldDefinitionRaw, devs: Seq<DeveloperFieldView>) -> Result<
    BaseType,
    DecodeError,
> {
    let tag = if fd.is_dev_field {
        match find_developer(devs, fd.base_type_value_or_dev_index, fd.number) {
            Some(k) => Some(devs[k].fit_base_type_id),
            None => None,
        }
    } else {
        Some(fd.base_type_value_or_dev_index)
    };
    match tag {
        None => Err(DecodeError::UnknownDeveloperField),
        Some(t) => match base_type_of(t) {
            Some(bt) => Ok(bt),
            None => Err(DecodeError::UnknownBaseType(t)),
        },
    }
}

/// Decodes `fields` in order from the bytes at `pos`, none of them reaching past `end`:
/// the values and the position after the last field.
pub open spec fn decode_fields(
    fields: Seq<FieldDefinitionRaw>,
    b: Seq<u8>,
    pos: int,
    end: int,
    endianness: u8,
    devs: Seq<DeveloperFieldView>,
) -> Result<(Seq<ValueView>, int), DecodeError>
    decreases fields.len(),
{
    if fields.len() == 0 {
        Ok((seq![], pos))
    } else {
        match decode_fields(fields.drop_last(), b, pos, end, endianness, devs) {
            Err(e) => Err(e),
            Ok((vals, p)) => {
                let fd = fields.last();
                match field_base_type(fd, devs) {
                    Err(e) => Err(e),
                    Ok(bt) => if p + fd.size > end {
                        Err(DecodeError::Truncated)
                    } else if !bt.accepts_size(fd.size as nat) {
                        Err(DecodeError::BadFieldSize)
                    } else {
                        Ok((vals.push(bt.spec_read(b.subrange(p, p + fd.size), endianness)), p + fd.size))
                    },
                }
            },
        }
    }
}

/// Appends the `count` field definitions of three bytes each that start at `start`.
fn read_field_triples(
    buffer: &Vec<u8>,
    start: usize,
    count: u8,
    is_dev: bool,
    fields: &mut Vec<FieldDefinitionRaw>,
)
    requires
        start + 3 * count <= buffer@.len(),
    ensures
        final(fields)@ == old(fields)@ + field_triples(buffer@, start as int, count as nat, is_dev),
{
    let ghost init = fields@;
    let len = buffer.len();
    let mut i: usize = 0;
    while i < count as usize
        invariant
            len == buffer@.len(),
            start + 3 * count <= buffer@.len(),
            i <= count,
            fields@ == init + field_triples(buffer@, start as int, i as nat, is_dev),
        decreases count - i,
    {
        let at = start + 3 * i;
        let fd = FieldDefinitionRaw {
            number: buffer[at],
            size: buffer[at + 1],
            base_type_value_or_dev_index: buffer[at + 2],
            is_dev_field: is_dev,
        };
        fields.push(fd);
        assert(field_triples(buffer@, start as int, (i + 1) as nat, is_dev) =~= field_triples(
            buffer@,
            start as int,
            i as nat,
            is_dev,
        ).push(fd));
        i = i + 1;
    }
}

impl MessageDefinitionRaw {
    /// Reads the definition record whose header byte stands at `pos`, from bytes before `end`;
    /// returns it with the position after it.
    pub fn read_definition(buffer: &Vec<u8>, pos: usize, end: usize) -> (r: Result<
        (MessageDefinitionRaw, usize),
        DecodeError,
    >)
        requires
            pos < end <= buffer@.len(),
        ensures
            match (r, parse_definition(buffer@, pos as int, end as int)) {
                (Ok((d, next)), Ok((dv, n))) => d@ == dv && next == n,
                (Err(e), Err(f)) => e == f,
                _ => false,
            },
    {
        let b = buffer;
        if end - pos < 6 {
            return Err(DecodeError::Truncated);
        }
        let base = pos + 1;
        let endianness = b[base + 1];
        let number = read_word(b.as_slice(), base + 2, 2, endianness);
        let n = b[base + 4];
        let fstart = base + 5;
        if (end - fstart) / 3 < n as usize {
            return Err(DecodeError::Truncated);
        }
        let mut fields: Vec<FieldDefinitionRaw> = Vec::new();
        read_field_triples(b, fstart, n, false, &mut fields);
        assert(fields@ =~= field_triples(b@, fstart as int, n as nat, false));
        let after = fstart + 3 * (n as usize);
        let h = b[pos];
        if (h / 32) % 2 == 1 {
            if after >= end {
                return Err(DecodeError::Truncated);
            }
            let m = b[after];
            let dstart = after + 1;
            if (end - dstart) / 3 < m as usize {
                return Err(DecodeError::Truncated);
            }
            read_field_triples(b, dstart, m, true, &mut fields);
            let def = MessageDefinitionRaw { message_type_number: number as u16, fields, endianness };
            Ok((def, dstart + 3 * (m as usize)))
        } else {
            let def = MessageDefinitionRaw { message_type_number: number as u16, fields, endianness };
            Ok((def, after))
        }
    }
}

proof fn lemma_find_developer_prefix(devs: Seq<DeveloperFieldView>, k: int, index: u8, number: u8)
    requires
        0 <= k <= devs.len(),
        find_developer(devs.take(k), index, number) is Some,
    ensures
        find_developer(devs, index, number) == find_developer(devs.take(k), index, number),
    decreases devs.len() - k,
{
    if k < devs.len() {
        let t = devs.take(k + 1);
        assert(t.drop_last() =~= devs.take(k));
        lemma_find_developer_prefix(devs, k + 1, index, number);
    } else {
        assert(devs.take(k) =~= devs);
    }
}

/// Index of the first developer field declared for `(index, number)`.
fn find_developer_field(devs: &Vec<DeveloperField>, index: u8, number: u8) -> (r: Option<usize>)
    ensures
        match (r, find_developer(developer_views(devs@), index, number)) {
            (Some(i), Some(k)) => i == k && i < devs@.len(),
            (None, None) => true,
            _ => false,
        },
{
    let ghost views = developer_views(devs@);
    let mut i: usize = 0;
    while i < devs.len()
        invariant
            i <= devs@.len(),
            views == developer_views(devs@),
            find_developer(views.take(i as int), index, number) is None,
        decreases devs@.len() - i,
    {
        let d = &devs[i];
        let ghost t = views.take(i + 1);
        assert(t.drop_last() =~= views.take(i as int));
        assert(t.last() == d@);
        if d.developer_data_index == index && d.field_definition_number == number {
            proof {
                lemma_find_developer_prefix(views, i + 1, index, number);
            }
            return Some(i);
        }
        i = i + 1;
    }
    assert(views.take(i as int) =~= views);
    None
}

/// Resolves the base type that a field is read with.
fn resolve_field_base_type(fd: &FieldDefinitionRaw, devs: &Vec<DeveloperField>) -> (r: Result<
    BaseType,
    DecodeError,
>)
    ensures
        r == field_base_type(*fd, developer_views(devs@)),
{
    let tag = if fd.is_dev_field {
        match find_developer_field(devs, fd.base_type_value_or_dev_index, fd.number) {
            Some(k) => devs[k].fit_base_type_id,
            None => {
                return Err(DecodeError::UnknownDeveloperField);
            },
        }
    } else {
        fd.base_type_value_or_dev_index
    };
    BaseType::parse(&tag)
}

impl MessageDefinitionRaw {
    /// Decodes the fields of a data record whose first field byte stands at `position`, none of
    /// them reaching past `end`; returns every value, the invalid ones included, and the
    /// position after the record.
    pub fn decode_values(
        &self,
        buffer: &Vec<u8>,
        position: usize,
        end: usize,
        developer_fields: &Vec<DeveloperField>,
    ) -> (r: Result<(Vec<Value>, usize), DecodeError>)
        requires
            position <= end <= buffer@.len(),
        ensures
            match (
                r,
                decode_fields(
                    self@.fields,
                    buffer@,
                    position as int,
                    end as int,
                    self.endianness,
                    developer_views(developer_fields@),
                ),
            ) {
                (Ok((vals, next)), Ok((views, n))) => value_views(vals@) == views && next == n,
                (Err(e), Err(f)) => e == f,
                _ => false,
            },
    {
        let ghost devs = developer_views(developer_fields@);
        let ghost fields = self@.fields;
        let mut vals: Vec<Value> = Vec::new();
        let mut pos = position;
        let mut i: usize = 0;
        assert(value_views(vals@) =~= Seq::<ValueView>::empty());
        assert(fields.take(0) =~= Seq::<FieldDefinitionRaw>::empty());
        while i < self.fields.len()
            invariant
                position <= pos <= end <= buffer@.len(),
                i <= fields.len(),
                fields == self@.fields,
                devs == developer_views(developer_fields@),
                decode_fields(fields.take(i as int), buffer@, position as int, end as int, self.endianness, devs)
                    == Ok::<(Seq<ValueView>, int), DecodeError>((value_views(vals@), pos as int)),
            decreases fields.len() - i,
        {
            let fd = self.fields[i];
            let ghost t = fields.take(i + 1);
            assert(t.drop_last() =~= fields.take(i as int));
            let bt = match resolve_field_base_type(&fd, developer_fields) {
                Ok(bt) => bt,
                Err(e) => {
                    proof {
                        lemma_decode_fields_error(fields, i + 1, buffer@, position as int, end as int, self.endianness, devs);
                    }
                    return Err(e);
                },
            };
            let size = fd.size as usize;
            if end - pos < size {
                proof {
                    lemma_decode_fields_error(fields, i + 1, buffer@, position as int, end as int, self.endianness, devs);
                }
                return Err(DecodeError::Truncated);
            }
            if !(bt.type_number == 0 || bt.type_number == 7 || (size % bt.read_size == 0 && size
                >= bt.read_size)) {
                proof {
                    lemma_decode_fields_error(fields, i + 1, buffer@, position as int, end as int, self.endianness, devs);
                }
                return Err(DecodeError::BadFieldSize);
            }
            let data = vstd::slice::slice_subrange(buffer.as_slice(), pos, pos + size);
            let value = bt.read(data, self.endianness);
            let ghost before = vals@;
            vals.push(value);
            assert(value_views(vals@) =~= value_views(before).push(value@));
            pos = pos + size;
            i = i + 1;
        }
        assert(fields.take(i as int) =~= fields);
        Ok((vals, pos))
    }
}

/// Once a prefix of the fields fails to decode, the whole list fails the same way.
proof fn lemma_decode_fields_error(
    fields: Seq<FieldDefinitionRaw>,
    k: int,
    b: Seq<u8>,
    pos: int,
    end: int,
    endianness: u8,
    devs: Seq<DeveloperFieldView>,
)
    requires
        0 <= k <= fields.len(),
        decode_fields(fields.take(k), b, pos, end, endianness, devs) is Err,
    ensures
        decode_fields(fields, b, pos, end, endianness, devs) == decode_fields(
            fields.take(k),
            b,
            pos,
            end,
            endianness,
            devs,
        ),
    decreases fields.len() - k,
{
    if k < fields.len() {
        let t = fields.take(k + 1);
        assert(t.drop_last() =~= fields.take(k));
        lemma_decode_fields_error(fields, k + 1, b, pos, end, endianness, devs);
    } else {
        assert(fields.take(k) =~= fields);
    }
}

/// The number of bytes that a data record with these fields takes after its header byte.
pub open spec fn fields_size(fields: Seq<FieldDefinitionRaw>) -> int
    decreases fields.len(),
{
    if fields.len() == 0 {
        0
    } else {
        fields_size(fields.drop_last()) + fields.last().size
    }
}

/// Decoded fields stay between the start and `end`, one value per field, and end exactly
/// the sum of the field sizes after the start.
pub proof fn lemma_decode_fields_bounds(
    fields: Seq<FieldDefinitionRaw>,
    b: Seq<u8>,
    pos: int,
    end: int,
    endianness: u8,
    devs: Seq<DeveloperFieldView>,
)
    requires
        pos <= end,
    ensures
        match decode_fields(fields, b, pos, end, endianness, devs) {
            Ok((vals, next)) => pos <= next <= end && vals.len() == fields.len() && next == pos
                + fields_size(fields),
            Err(_) => true,
        },
    decreases fields.len(),
{
    if fields.len() > 0 {
        lemma_decode_fields_bounds(fields.drop_last(), b, pos, end, endianness, devs);
    }
}

/// A definition record takes at least six bytes and ends at or before `end`.
pub proof fn lemma_parse_definition_bounds(b: Seq<u8>, pos: int, end: int)
    ensures
        match parse_definition(b, pos, end) {
            Ok((d, next)) => pos + 6 <= next <= end,
            Err(_) => true,
        },
{
}

} // verus!
