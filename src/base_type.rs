//! The closed set of FIT base types and the decoding of raw field bytes into values.

use vstd::prelude::*;
use crate::error::DecodeError;
use vstd::utf8::{decode_utf8, valid_utf8};
use crate::text::{byte_char, char_of_byte, push_char, utf8_string};
use crate::value::{Value, ValueKind, ValueView};

verus! {

/// A primitive wire type: how wide one element is, its tag on the wire, and the bit
/// pattern that marks "no data".
#[derive(Clone, Copy, Debug, PartialEq, Eq, Structural)]
pub struct BaseType {
    pub read_size: usize,
    pub type_number: u8,
    pub invalid_value: u64,
}

/// Tag of the enum base type, whose values are always read as arrays of bytes.
pub const ENUM_TYPE: u8 = 0;

/// Tag of the string base type.
pub const STRING_TYPE: u8 = 7;

/// The base type with tag `t`, if `t` is one of the defined tags.
pub open spec fn base_type_of(t: u8) -> Option<BaseType> {
    match t {
        0 => Some(BaseType { read_size: 1, type_number: 0, invalid_value: 0xFF }),  // ENUM
        13 => Some(BaseType { read_size: 1, type_number: 13, invalid_value: 0xFF }),  // BYTE
        7 => Some(BaseType { read_size: 1, type_number: 7, invalid_value: 0x0 }),  // STRING
        1 => Some(BaseType { read_size: 1, type_number: 1, invalid_value: 0x7F }),  // SINT8
        131 => Some(BaseType { read_size: 2, type_number: 131, invalid_value: 0x7FFF }),  // SINT16
        133 => Some(BaseType { read_size: 4, type_number: 133, invalid_value: 0x7FFFFFFF }),  // SINT32
        142 => Some(BaseType { read_size: 8, type_number: 142, invalid_value: 0x7FFFFFFFFFFFFFFF }),  // SINT64
        2 => Some(BaseType { read_size: 1, type_number: 2, invalid_value: 0xFF }),  // UINT8
        132 => Some(BaseType { read_size: 2, type_number: 132, invalid_value: 0xFFFF }),  // UINT16
        134 => Some(BaseType { read_size: 4, type_number: 134, invalid_value: 0xFFFFFFFF }),  // UINT32
        143 => Some(BaseType { read_size: 8, type_number: 143, invalid_value: 0xFFFFFFFFFFFFFFFF }),  // UINT64
        10 => Some(BaseType { read_size: 1, type_number: 10, invalid_value: 0x0 }),  // UINT8Z
        139 => Some(BaseType { read_size: 2, type_number: 139, invalid_value: 0x0 }),  // UINT16Z
        140 => Some(BaseType { read_size: 4, type_number: 140, invalid_value: 0x0 }),  // UINT32Z
        144 => Some(BaseType { read_size: 8, type_number: 144, invalid_value: 0x0 }),  // UINT64Z
        136 => Some(BaseType { read_size: 4, type_number: 136, invalid_value: 0xFFFFFFFF }),  // FLOAT32
        137 => Some(BaseType { read_size: 8, type_number: 137, invalid_value: 0xFFFFFFFFFFFFFFFF }),  // FLOAT64
        _ => None,
    }
}

/// Tags of the signed integer types.
pub open spec fn is_signed_type(t: u8) -> bool {
    t == 1 || t == 131 || t == 133 || t == 142
}

/// The kind of number that a numeric base type decodes to.
pub open spec fn kind_of(t: u8) -> ValueKind {
    if t == 1 {
        ValueKind::S8
    } else if t == 131 {
        ValueKind::S16
    } else if t == 132 || t == 139 {
        ValueKind::U16
    } else if t == 133 {
        ValueKind::S32
    } else if t == 134 || t == 140 {
        ValueKind::U32
    } else if t == 142 {
        ValueKind::S64
    } else if t == 143 || t == 144 {
        ValueKind::U64
    } else if t == 136 {
        ValueKind::F32
    } else if t == 137 {
        ValueKind::F64
    } else {
        ValueKind::U8
    }
}

/// 256 to the power `n`.
pub open spec fn pow256(n: nat) -> nat
    decreases n,
{
    if n == 0 {
        1
    } else {
        256 * pow256((n - 1) as nat)
    }
}

/// The unsigned number whose little-endian bytes are `b`.
pub open spec fn uint_le(b: Seq<u8>) -> nat
    decreases b.len(),
{
    if b.len() == 0 {
        0
    } else {
        b[0] as nat + 256 * uint_le(b.drop_first())
    }
}

/// The unsigned number whose big-endian bytes are `b`.
pub open spec fn uint_be(b: Seq<u8>) -> nat
    decreases b.len(),
{
    if b.len() == 0 {
        0
    } else {
        uint_be(b.drop_last()) * 256 + b.last() as nat
    }
}

/// The unsigned word that `b` encodes: little-endian when `endianness` is 0, big-endian otherwise.
pub open spec fn word(b: Seq<u8>, endianness: u8) -> int {
    if endianness == 0 {
        uint_le(b) as int
    } else {
        uint_be(b) as int
    }
}

/// The words of `size` bytes each that `data` is made of, in order.
pub open spec fn elements(data: Seq<u8>, size: nat, endianness: u8) -> Seq<int>
    decreases data.len(),
{
    if size == 0 || data.len() < size {
        seq![]
    } else {
        elements(data.subrange(0, data.len() - size), size, endianness).push(
            word(data.subrange(data.len() - size, data.len() as int), endianness),
        )
    }
}

/// The words of `ws` that differ from `sentinel`, in order.
pub open spec fn without_sentinel(ws: Seq<int>, sentinel: int) -> Seq<int>
    decreases ws.len(),
{
    if ws.len() == 0 {
        ws
    } else {
        let rest = without_sentinel(ws.drop_last(), sentinel);
        if ws.last() == sentinel {
            rest
        } else {
            rest.push(ws.last())
        }
    }
}

/// The non-zero bytes of a string field, in order: zero bytes are padding wherever they stand.
pub open spec fn kept_bytes(data: Seq<u8>) -> Seq<u8>
    decreases data.len(),
{
    if data.len() == 0 {
        seq![]
    } else {
        let rest = kept_bytes(data.drop_last());
        if data.last() == 0 {
            rest
        } else {
            rest.push(data.last())
        }
    }
}

/// The value of a string field: the text of its non-zero bytes, read as UTF-8 when they are
/// valid UTF-8 and otherwise each byte as the character with that code. A field with no
/// non-zero byte holds only the sentinel and is invalid.
pub open spec fn string_value(data: Seq<u8>) -> ValueView {
    let kept = kept_bytes(data);
    if kept.len() == 0 {
        ValueView::Invalid
    } else if valid_utf8(kept) {
        ValueView::Text(decode_utf8(kept))
    } else {
        ValueView::Text(kept.map_values(|b: u8| byte_char(b)))
    }
}

/// The two's complement reading of an unsigned word of `size` bytes.
pub open spec fn signed_of(w: int, size: nat) -> int {
    if size == 1 {
        if w >= 0x80 { w - 0x100 } else { w }
    } else if size == 2 {
        if w >= 0x8000 { w - 0x1_0000 } else { w }
    } else if size == 4 {
        if w >= 0x8000_0000 { w - 0x1_0000_0000 } else { w }
    } else {
        if w >= 0x8000_0000_0000_0000 { w - 0x1_0000_0000_0000_0000 } else { w }
    }
}

impl BaseType {
    /// One of the defined base types.
    pub open spec fn wf(&self) -> bool {
        base_type_of(self.type_number) == Some(*self)
    }

    /// The number that one word decodes to.
    pub open spec fn element_value(&self, w: int) -> int {
        if is_signed_type(self.type_number) {
            signed_of(w, self.read_size as nat)
        } else {
            w
        }
    }

    /// Whether a field of `n` bytes can be read as this type: any length for the enum and
    /// string types, otherwise one or more whole elements.
    pub open spec fn accepts_size(&self, n: nat) -> bool {
        self.type_number == ENUM_TYPE || self.type_number == STRING_TYPE || (n % (self.read_size as nat)
            == 0 && n >= self.read_size)
    }

    /// Whether a field of `data.len()` bytes is read as an array rather than one scalar.
    pub open spec fn reads_array(&self, data: Seq<u8>) -> bool {
        data.len() > self.read_size || self.type_number == ENUM_TYPE
    }

    /// The value that `data` decodes to as this type.
    ///
    /// Strings are the UTF-8 text of their non-zero bytes. Arrays drop the elements equal to the sentinel and
    /// are invalid when no element is left. A scalar is invalid when it equals the sentinel.
    pub open spec fn spec_read(&self, data: Seq<u8>, endianness: u8) -> ValueView {
        if self.type_number == STRING_TYPE {
            string_value(data)
        } else if self.reads_array(data) {
            let kept = without_sentinel(
                elements(data, self.read_size as nat, endianness),
                self.invalid_value as int,
            );
            if kept.len() == 0 {
                ValueView::Invalid
            } else if self.type_number == ENUM_TYPE {
                ValueView::Enum(kept.map_values(|w: int| w as u8))
            } else {
                ValueView::Array(kind_of(self.type_number), kept.map_values(|w: int| self.element_value(w)))
            }
        } else {
            let w = word(data, endianness);
            if w == self.invalid_value as int {
                ValueView::Invalid
            } else {
                ValueView::Scalar(kind_of(self.type_number), self.element_value(w))
            }
        }
    }

    /// Looks up the base type with the given tag.
    pub fn parse(value: &u8) -> (r: Result<BaseType, DecodeError>)
        ensures
            r == match base_type_of(*value) {
                Some(b) => Ok(b),
                None => Err(DecodeError::UnknownBaseType(*value)),
            },
    {
        match *value {
            0 => Ok(BaseType { read_size: 1, type_number: 0, invalid_value: 0xFF }),
            13 => Ok(BaseType { read_size: 1, type_number: 13, invalid_value: 0xFF }),
            7 => Ok(BaseType { read_size: 1, type_number: 7, invalid_value: 0x0 }),
            1 => Ok(BaseType { read_size: 1, type_number: 1, invalid_value: 0x7F }),
            131 => Ok(BaseType { read_size: 2, type_number: 131, invalid_value: 0x7FFF }),
            133 => Ok(BaseType { read_size: 4, type_number: 133, invalid_value: 0x7FFFFFFF }),
            142 => Ok(BaseType { read_size: 8, type_number: 142, invalid_value: 0x7FFFFFFFFFFFFFFF }),
            2 => Ok(BaseType { read_size: 1, type_number: 2, invalid_value: 0xFF }),
            132 => Ok(BaseType { read_size: 2, type_number: 132, invalid_value: 0xFFFF }),
            134 => Ok(BaseType { read_size: 4, type_number: 134, invalid_value: 0xFFFFFFFF }),
            143 => Ok(BaseType { read_size: 8, type_number: 143, invalid_value: 0xFFFFFFFFFFFFFFFF }),
            10 => Ok(BaseType { read_size: 1, type_number: 10, invalid_value: 0x0 }),
            139 => Ok(BaseType { read_size: 2, type_number: 139, invalid_value: 0x0 }),
            140 => Ok(BaseType { read_size: 4, type_number: 140, invalid_value: 0x0 }),
            144 => Ok(BaseType { read_size: 8, type_number: 144, invalid_value: 0x0 }),
            136 => Ok(BaseType { read_size: 4, type_number: 136, invalid_value: 0xFFFFFFFF }),
            137 => Ok(BaseType { read_size: 8, type_number: 137, invalid_value: 0xFFFFFFFFFFFFFFFF }),
            _ => Err(DecodeError::UnknownBaseType(*value)),
        }
    }

    /// Decodes the bytes of one field as this type, reading multi-byte words little-endian
    /// when `endianness` is 0 and big-endian otherwise.
    pub fn read(&self, data: &[u8], endianness: u8) -> (r: Value)
        requires
            self.wf(),
            self.accepts_size(data@.len()),
        ensures
            r@ == self.spec_read(data@, endianness),
    {
        if self.type_number == STRING_TYPE {
            read_string(data)
        } else if data.len() > self.read_size || self.type_number == ENUM_TYPE {
            let ws = read_valid_words(data, self.read_size, endianness, self.invalid_value);
            if ws.len() == 0 {
                Value::Invalid
            } else {
                self.array_value(&ws)
            }
        } else {
            let w = read_word(data, 0, self.read_size, endianness);
            assert(data@.subrange(0, self.read_size as int) == data@);
            if w == self.invalid_value {
                Value::Invalid
            } else {
                self.scalar_value(w)
            }
        }
    }

    /// The scalar value of one word that is not the sentinel.
    fn scalar_value(&self, w: u64) -> (r: Value)
        requires
            self.wf(),
            self.type_number != ENUM_TYPE,
            self.type_number != STRING_TYPE,
            (w as int) < pow256(self.read_size as nat),
        ensures
            r@ == ValueView::Scalar(kind_of(self.type_number), self.element_value(w as int)),
    {
        proof {
            lemma_pow256_values();
        }
        match self.type_number {
            1 => Value::NumberValueS8(as_i8(w)),
            131 => Value::NumberValueS16(as_i16(w)),
            132 | 139 => Value::NumberValueU16(w as u16),
            133 => Value::NumberValueS32(as_i32(w)),
            134 | 140 => Value::NumberValueU32(w as u32),
            142 => Value::NumberValueS64(as_i64(w)),
            143 | 144 => Value::NumberValueU64(w),
            136 => Value::NumberValueF32(w as u32),
            137 => Value::NumberValueF64(w),
            _ => Value::NumberValueU8(w as u8),
        }
    }

    /// The array value of the words left after dropping sentinels.
    fn array_value(&self, ws: &Vec<u64>) -> (r: Value)
        requires
            self.wf(),
            self.type_number != STRING_TYPE,
            forall|k: int| 0 <= k < ws@.len() ==> (ws@[k] as int) < pow256(self.read_size as nat),
        ensures
            r@ == (if self.type_number == ENUM_TYPE {
                ValueView::Enum(ws@.map_values(|x: u64| x as int).map_values(|w: int| w as u8))
            } else {
                ValueView::Array(
                    kind_of(self.type_number),
                    ws@.map_values(|x: u64| x as int).map_values(|w: int| self.element_value(w)),
                )
            }),
    {
        proof {
            lemma_pow256_values();
        }
        let ghost wi = ws@.map_values(|x: u64| x as int);
        match self.type_number {
            0 => {
                let v = to_vec_u8(ws);
                assert(v@ =~= wi.map_values(|w: int| w as u8)) by {
                    assert forall|k: int| 0 <= k < v@.len() implies v@[k] == (wi[k] as u8) by {
                        assert(v@.map_values(|x: u8| x as int)[k] == ws@.map_values(|w: u64| w as int)[k]);
                    }
                }
                Value::EnumValue(v)
            },
            1 => {
                let v = to_vec_i8(ws);
                assert(v@.map_values(|x: i8| x as int) =~= wi.map_values(|w: int| self.element_value(w)));
                Value::NumberValueVecS8(v)
            },
            131 => {
                let v = to_vec_i16(ws);
                assert(v@.map_values(|x: i16| x as int) =~= wi.map_values(|w: int| self.element_value(w)));
                Value::NumberValueVecS16(v)
            },
            132 | 139 => {
                let v = to_vec_u16(ws);
                assert(v@.map_values(|x: u16| x as int) =~= wi.map_values(|w: int| self.element_value(w)));
                Value::NumberValueVecU16(v)
            },
            133 => {
                let v = to_vec_i32(ws);
                assert(v@.map_values(|x: i32| x as int) =~= wi.map_values(|w: int| self.element_value(w)));
                Value::NumberValueVecS32(v)
            },
            134 | 140 => {
                let v = to_vec_u32(ws);
                assert(v@.map_values(|x: u32| x as int) =~= wi.map_values(|w: int| self.element_value(w)));
                Value::NumberValueVecU32(v)
            },
            142 => {
                let v = to_vec_i64(ws);
                assert(v@.map_values(|x: i64| x as int) =~= wi.map_values(|w: int| self.element_value(w)));
                Value::NumberValueVecS64(v)
            },
            143 | 144 => {
                let v = to_vec_u64(ws);
                assert(v@.map_values(|x: u64| x as int) =~= wi.map_values(|w: int| self.element_value(w)));
                Value::NumberValueVecU64(v)
            },
            136 => {
                let v = to_vec_u32(ws);
                assert(v@.map_values(|x: u32| x as int) =~= wi.map_values(|w: int| self.element_value(w)));
                Value::NumberValueVecF32(v)
            },
            137 => {
                let v = to_vec_u64(ws);
                assert(v@.map_values(|x: u64| x as int) =~= wi.map_values(|w: int| self.element_value(w)));
                Value::NumberValueVecF64(v)
            },
            _ => {
                let v = to_vec_u8(ws);
                assert(v@.map_values(|x: u8| x as int) =~= wi.map_values(|w: int| self.element_value(w)));
                Value::NumberValueVecU8(v)
            },
        }
    }
}

proof fn lemma_pow256_monotone(a: nat, b: nat)
    requires
        a <= b,
    ensures
        pow256(a) <= pow256(b),
    decreases b,
{
    if a < b {
        lemma_pow256_monotone(a, (b - 1) as nat);
    }
}

proof fn lemma_pow256_values()
    ensures
        pow256(1) == 0x100,
        pow256(2) == 0x1_0000,
        pow256(4) == 0x1_0000_0000,
        pow256(7) == 0x100_0000_0000_0000,
        pow256(8) == 0x1_0000_0000_0000_0000,
{
    assert(pow256(0) == 1);
    assert(pow256(1) == 0x100);
    assert(pow256(2) == 0x1_0000);
    assert(pow256(3) == 0x100_0000);
    assert(pow256(4) == 0x1_0000_0000);
    assert(pow256(5) == 0x100_0000_0000);
    assert(pow256(6) == 0x1_0000_0000_0000);
    assert(pow256(7) == 0x100_0000_0000_0000);
    assert(pow256(8) == 0x1_0000_0000_0000_0000);
}

/// Reads the word of `size` bytes that starts at `start`.
pub(crate) fn read_word(data: &[u8], start: usize, size: usize, endianness: u8) -> (w: u64)
    requires
        1 <= size <= 8,
        start + size <= data@.len(),
    ensures
        w as int == word(data@.subrange(start as int, start + size), endianness),
        (w as int) < pow256(size as nat),
{
    proof {
        lemma_pow256_values();
        lemma_pow256_monotone((size - 1) as nat, 7);
    }
    let len = data.len();
    let end = start + size;
    if endianness == 0 {
        let mut acc: u64 = 0;
        let mut k: usize = size;
        while k > 0
            invariant
                0 <= k <= size <= 8,
                end == start + size,
                end <= data@.len(),
                pow256((size - 1) as nat) <= 0x100_0000_0000_0000,
                acc as int == uint_le(data@.subrange(start + k, end as int)),
                (acc as int) < pow256((size - k) as nat),
            decreases k,
        {
            proof {
                lemma_pow256_monotone((size - k) as nat, (size - 1) as nat);
            }
            k = k - 1;
            let b = data[start + k];
            let ghost s = data@.subrange(start + k, end as int);
            assert(s.drop_first() =~= data@.subrange(start + k + 1, end as int));
            acc = b as u64 + 256 * acc;
        }
        acc
    } else {
        let mut acc: u64 = 0;
        let mut k: usize = 0;
        while k < size
            invariant
                0 <= k <= size <= 8,
                end == start + size,
                end <= data@.len(),
                pow256((size - 1) as nat) <= 0x100_0000_0000_0000,
                acc as int == uint_be(data@.subrange(start as int, start + k)),
                (acc as int) < pow256(k as nat),
            decreases size - k,
        {
            proof {
                lemma_pow256_monotone(k as nat, (size - 1) as nat);
            }
            let b = data[start + k];
            let ghost s = data@.subrange(start as int, start + k + 1);
            assert(s.drop_last() =~= data@.subrange(start as int, start + k));
            acc = acc * 256 + b as u64;
            k = k + 1;
        }
        acc
    }
}

proof fn lemma_next_element(p: int, len: int, s: int)
    requires
        s > 0,
        0 <= p < len,
        p % s == 0,
        len % s == 0,
    ensures
        p + s <= len,
        (p + s) % s == 0,
{
    vstd::arithmetic::div_mod::lemma_fundamental_div_mod(p, s);
    vstd::arithmetic::div_mod::lemma_fundamental_div_mod(len, s);
    let a = p / s;
    let c = len / s;
    assert(a < c) by (nonlinear_arith)
        requires
            p == s * a,
            len == s * c,
            p < len,
            s > 0,
    ;
    assert(p + s == (a + 1) * s) by (nonlinear_arith)
        requires
            p == s * a,
    ;
    assert((a + 1) * s <= c * s) by (nonlinear_arith)
        requires
            a < c,
            s > 0,
    ;
    assert(len == c * s) by (nonlinear_arith)
        requires
            len == s * c,
    ;
    vstd::arithmetic::div_mod::lemma_mod_multiples_basic(a + 1, s);
}

/// Reads every word of `size` bytes in `data` and keeps those that differ from `sentinel`.
fn read_valid_words(data: &[u8], size: usize, endianness: u8, sentinel: u64) -> (r: Vec<u64>)
    requires
        1 <= size <= 8,
        data@.len() % (size as nat) == 0,
    ensures
        r@.map_values(|x: u64| x as int) == without_sentinel(
            elements(data@, size as nat, endianness),
            sentinel as int,
        ),
        forall|k: int| 0 <= k < r@.len() ==> (r@[k] as int) < pow256(size as nat),
{
    let mut out: Vec<u64> = Vec::new();
    let mut p: usize = 0;
    while p < data.len()
        invariant
            1 <= size <= 8,
            data@.len() % (size as nat) == 0,
            p <= data@.len(),
            p % size == 0,
            out@.map_values(|x: u64| x as int) == without_sentinel(
                elements(data@.subrange(0, p as int), size as nat, endianness),
                sentinel as int,
            ),
            forall|k: int| 0 <= k < out@.len() ==> (out@[k] as int) < pow256(size as nat),
        decreases data@.len() - p,
    {
        proof {
            lemma_next_element(p as int, data@.len() as int, size as int);
        }
        let w = read_word(data, p, size, endianness);
        let ghost before = out@;
        let ghost prefix = data@.subrange(0, p + size);
        assert(prefix.subrange(0, prefix.len() - size) =~= data@.subrange(0, p as int));
        assert(prefix.subrange(prefix.len() - size, prefix.len() as int) =~= data@.subrange(
            p as int,
            p + size,
        ));
        let ghost ws = elements(prefix, size as nat, endianness);
        assert(ws.drop_last() =~= elements(data@.subrange(0, p as int), size as nat, endianness));
        if w != sentinel {
            out.push(w);
            assert(out@.map_values(|x: u64| x as int) =~= before.map_values(|x: u64| x as int).push(
                w as int,
            ));
        }
        p = p + size;
    }
    assert(data@.subrange(0, data@.len() as int) =~= data@);
    out
}

/// Decodes a string field: the UTF-8 text of its non-zero bytes.
fn read_string(data: &[u8]) -> (v: Value)
    ensures
        v@ == string_value(data@),
{
    let mut kept: Vec<u8> = Vec::new();
    let mut i: usize = 0;
    while i < data.len()
        invariant
            i <= data@.len(),
            kept@ == kept_bytes(data@.subrange(0, i as int)),
        decreases data@.len() - i,
    {
        let b = data[i];
        assert(data@.subrange(0, i + 1).drop_last() =~= data@.subrange(0, i as int));
        if b != 0 {
            kept.push(b);
        }
        i = i + 1;
    }
    assert(data@.subrange(0, data@.len() as int) =~= data@);
    if kept.len() == 0 {
        return Value::Invalid;
    }
    match utf8_string(kept) {
        Some(s) => Value::StringValue(s),
        None => Value::StringValue(byte_text(data)),
    }
}

/// The non-zero bytes of `data`, each read as the character with that code.
fn byte_text(data: &[u8]) -> (s: String)
    ensures
        s@ == kept_bytes(data@).map_values(|b: u8| byte_char(b)),
{
    let mut s = String::new();
    let mut i: usize = 0;
    while i < data.len()
        invariant
            i <= data@.len(),
            s@ == kept_bytes(data@.subrange(0, i as int)).map_values(|b: u8| byte_char(b)),
        decreases data@.len() - i,
    {
        let b = data[i];
        let ghost before = s@;
        assert(data@.subrange(0, i + 1).drop_last() =~= data@.subrange(0, i as int));
        if b != 0 {
            push_char(&mut s, char_of_byte(b));
            assert(kept_bytes(data@.subrange(0, i + 1)).map_values(|b: u8| byte_char(b)) =~= before.push(
                byte_char(b),
            ));
        }
        i = i + 1;
    }
    assert(data@.subrange(0, data@.len() as int) =~= data@);
    s
}

/// The two's complement reading of a 1-byte word.
fn as_i8(w: u64) -> (x: i8)
    requires
        (w as int) < 0x100,
    ensures
        x as int == signed_of(w as int, 1),
{
    if w < 0x80 {
        w as i8
    } else {
        (w as i16 - 0x100) as i8
    }
}

/// Converts words of 1 bytes to `i8` values.
fn to_vec_i8(ws: &Vec<u64>) -> (r: Vec<i8>)
    requires
        forall|k: int| 0 <= k < ws@.len() ==> (ws@[k] as int) < 0x100,
    ensures
        r@.map_values(|x: i8| x as int) == ws@.map_values(|w: u64| signed_of(w as int, 1)),
{
    let mut r: Vec<i8> = Vec::new();
    let mut i: usize = 0;
    while i < ws.len()
        invariant
            i <= ws@.len(),
            forall|k: int| 0 <= k < ws@.len() ==> (ws@[k] as int) < 0x100,
            r@.map_values(|x: i8| x as int) == ws@.subrange(0, i as int).map_values(|w: u64| signed_of(w as int, 1)),
        decreases ws@.len() - i,
    {
        let x = as_i8(ws[i]);
        let ghost before = r@;
        r.push(x);
        assert(r@.map_values(|x: i8| x as int) =~= before.map_values(|x: i8| x as int).push(x as int));
        assert(ws@.subrange(0, i + 1).map_values(|w: u64| signed_of(w as int, 1)) =~= ws@.subrange(0, i as int).map_values(
            |w: u64| signed_of(w as int, 1),
        ).push(signed_of(ws@[i as int] as int, 1)));
        i = i + 1;
    }
    assert(ws@.subrange(0, ws@.len() as int) =~= ws@);
    r
}

/// Converts words of 1 bytes to `u8` values.
fn to_vec_u8(ws: &Vec<u64>) -> (r: Vec<u8>)
    requires
        forall|k: int| 0 <= k < ws@.len() ==> (ws@[k] as int) < 0x100,
    ensures
        r@.map_values(|x: u8| x as int) == ws@.map_values(|w: u64| w as int),
{
    let mut r: Vec<u8> = Vec::new();
    let mut i: usize = 0;
    while i < ws.len()
        invariant
            i <= ws@.len(),
            forall|k: int| 0 <= k < ws@.len() ==> (ws@[k] as int) < 0x100,
            r@.map_values(|x: u8| x as int) == ws@.subrange(0, i as int).map_values(|w: u64| w as int),
        decreases ws@.len() - i,
    {
        let x = ws[i] as u8;
        let ghost before = r@;
        r.push(x);
        assert(r@.map_values(|x: u8| x as int) =~= before.map_values(|x: u8| x as int).push(x as int));
        assert(ws@.subrange(0, i + 1).map_values(|w: u64| w as int) =~= ws@.subrange(0, i as int).map_values(
            |w: u64| w as int,
        ).push(ws@[i as int] as int));
        i = i + 1;
    }
    assert(ws@.subrange(0, ws@.len() as int) =~= ws@);
    r
}

/// The two's complement reading of a 2-byte word.
fn as_i16(w: u64) -> (x: i16)
    requires
        (w as int) < 0x1_0000,
    ensures
        x as int == signed_of(w as int, 2),
{
    if w < 0x8000 {
        w as i16
    } else {
        (w as i32 - 0x1_0000) as i16
    }
}

/// Converts words of 2 bytes to `i16` values.
fn to_vec_i16(ws: &Vec<u64>) -> (r: Vec<i16>)
    requires
        forall|k: int| 0 <= k < ws@.len() ==> (ws@[k] as int) < 0x1_0000,
    ensures
        r@.map_values(|x: i16| x as int) == ws@.map_values(|w: u64| signed_of(w as int, 2)),
{
    let mut r: Vec<i16> = Vec::new();
    let mut i: usize = 0;
    while i < ws.len()
        invariant
            i <= ws@.len(),
            forall|k: int| 0 <= k < ws@.len() ==> (ws@[k] as int) < 0x1_0000,
            r@.map_values(|x: i16| x as int) == ws@.subrange(0, i as int).map_values(|w: u64| signed_of(w as int, 2)),
        decreases ws@.len() - i,
    {
        let x = as_i16(ws[i]);
        let ghost before = r@;
        r.push(x);
        assert(r@.map_values(|x: i16| x as int) =~= before.map_values(|x: i16| x as int).push(x as int));
        assert(ws@.subrange(0, i + 1).map_values(|w: u64| signed_of(w as int, 2)) =~= ws@.subrange(0, i as int).map_values(
            |w: u64| signed_of(w as int, 2),
        ).push(signed_of(ws@[i as int] as int, 2)));
        i = i + 1;
    }
    assert(ws@.subrange(0, ws@.len() as int) =~= ws@);
    r
}

/// Converts words of 2 bytes to `u16` values.
fn to_vec_u16(ws: &Vec<u64>) -> (r: Vec<u16>)
    requires
        forall|k: int| 0 <= k < ws@.len() ==> (ws@[k] as int) < 0x1_0000,
    ensures
        r@.map_values(|x: u16| x as int) == ws@.map_values(|w: u64| w as int),
{
    let mut r: Vec<u16> = Vec::new();
    let mut i: usize = 0;
    while i < ws.len()
        invariant
            i <= ws@.len(),
            forall|k: int| 0 <= k < ws@.len() ==> (ws@[k] as int) < 0x1_0000,
            r@.map_values(|x: u16| x as int) == ws@.subrange(0, i as int).map_values(|w: u64| w as int),
        decreases ws@.len() - i,
    {
        let x = ws[i] as u16;
        let ghost before = r@;
        r.push(x);
        assert(r@.map_values(|x: u16| x as int) =~= before.map_values(|x: u16| x as int).push(x as int));
        assert(ws@.subrange(0, i + 1).map_values(|w: u64| w as int) =~= ws@.subrange(0, i as int).map_values(
            |w: u64| w as int,
        ).push(ws@[i as int] as int));
        i = i + 1;
    }
    assert(ws@.subrange(0, ws@.len() as int) =~= ws@);
    r
}

/// The two's complement reading of a 4-byte word.
fn as_i32(w: u64) -> (x: i32)
    requires
        (w as int) < 0x1_0000_0000,
    ensures
        x as int == signed_of(w as int, 4),
{
    if w < 0x8000_0000 {
        w as i32
    } else {
        (w as i64 - 0x1_0000_0000) as i32
    }
}

/// Converts words of 4 bytes to `i32` values.
fn to_vec_i32(ws: &Vec<u64>) -> (r: Vec<i32>)
    requires
        forall|k: int| 0 <= k < ws@.len() ==> (ws@[k] as int) < 0x1_0000_0000,
    ensures
        r@.map_values(|x: i32| x as int) == ws@.map_values(|w: u64| signed_of(w as int, 4)),
{
    let mut r: Vec<i32> = Vec::new();
    let mut i: usize = 0;
    while i < ws.len()
        invariant
            i <= ws@.len(),
            forall|k: int| 0 <= k < ws@.len() ==> (ws@[k] as int) < 0x1_0000_0000,
            r@.map_values(|x: i32| x as int) == ws@.subrange(0, i as int).map_values(|w: u64| signed_of(w as int, 4)),
        decreases ws@.len() - i,
    {
        let x = as_i32(ws[i]);
        let ghost before = r@;
        r.push(x);
        assert(r@.map_values(|x: i32| x as int) =~= before.map_values(|x: i32| x as int).push(x as int));
        assert(ws@.subrange(0, i + 1).map_values(|w: u64| signed_of(w as int, 4)) =~= ws@.subrange(0, i as int).map_values(
            |w: u64| signed_of(w as int, 4),
        ).push(signed_of(ws@[i as int] as int, 4)));
        i = i + 1;
    }
    assert(ws@.subrange(0, ws@.len() as int) =~= ws@);
    r
}

/// Converts words of 4 bytes to `u32` values.
fn to_vec_u32(ws: &Vec<u64>) -> (r: Vec<u32>)
    requires
        forall|k: int| 0 <= k < ws@.len() ==> (ws@[k] as int) < 0x1_0000_0000,
    ensures
        r@.map_values(|x: u32| x as int) == ws@.map_values(|w: u64| w as int),
{
    let mut r: Vec<u32> = Vec::new();
    let mut i: usize = 0;
    while i < ws.len()
        invariant
            i <= ws@.len(),
            forall|k: int| 0 <= k < ws@.len() ==> (ws@[k] as int) < 0x1_0000_0000,
            r@.map_values(|x: u32| x as int) == ws@.subrange(0, i as int).map_values(|w: u64| w as int),
        decreases ws@.len() - i,
    {
        let x = ws[i] as u32;
        let ghost before = r@;
        r.push(x);
        assert(r@.map_values(|x: u32| x as int) =~= before.map_values(|x: u32| x as int).push(x as int));
        assert(ws@.subrange(0, i + 1).map_values(|w: u64| w as int) =~= ws@.subrange(0, i as int).map_values(
            |w: u64| w as int,
        ).push(ws@[i as int] as int));
        i = i + 1;
    }
    assert(ws@.subrange(0, ws@.len() as int) =~= ws@);
    r
}

/// The two's complement reading of a 8-byte word.
fn as_i64(w: u64) -> (x: i64)
    requires
        (w as int) < 0x1_0000_0000_0000_0000,
    ensures
        x as int == signed_of(w as int, 8),
{
    if w < 0x8000_0000_0000_0000 {
        w as i64
    } else {
        (w - 0x8000_0000_0000_0000) as i64 - 0x7FFF_FFFF_FFFF_FFFF - 1
    }
}

/// Converts words of 8 bytes to `i64` values.
fn to_vec_i64(ws: &Vec<u64>) -> (r: Vec<i64>)
    requires
        forall|k: int| 0 <= k < ws@.len() ==> (ws@[k] as int) < 0x1_0000_0000_0000_0000,
    ensures
        r@.map_values(|x: i64| x as int) == ws@.map_values(|w: u64| signed_of(w as int, 8)),
{
    let mut r: Vec<i64> = Vec::new();
    let mut i: usize = 0;
    while i < ws.len()
        invariant
            i <= ws@.len(),
            forall|k: int| 0 <= k < ws@.len() ==> (ws@[k] as int) < 0x1_0000_0000_0000_0000,
            r@.map_values(|x: i64| x as int) == ws@.subrange(0, i as int).map_values(|w: u64| signed_of(w as int, 8)),
        decreases ws@.len() - i,
    {
        let x = as_i64(ws[i]);
        let ghost before = r@;
        r.push(x);
        assert(r@.map_values(|x: i64| x as int) =~= before.map_values(|x: i64| x as int).push(x as int));
        assert(ws@.subrange(0, i + 1).map_values(|w: u64| signed_of(w as int, 8)) =~= ws@.subrange(0, i as int).map_values(
            |w: u64| signed_of(w as int, 8),
        ).push(signed_of(ws@[i as int] as int, 8)));
        i = i + 1;
    }
    assert(ws@.subrange(0, ws@.len() as int) =~= ws@);
    r
}

/// Converts words of 8 bytes to `u64` values.
fn to_vec_u64(ws: &Vec<u64>) -> (r: Vec<u64>)
    requires
        forall|k: int| 0 <= k < ws@.len() ==> (ws@[k] as int) < 0x1_0000_0000_0000_0000,
    ensures
        r@.map_values(|x: u64| x as int) == ws@.map_values(|w: u64| w as int),
{
    let mut r: Vec<u64> = Vec::new();
    let mut i: usize = 0;
    while i < ws.len()
        invariant
            i <= ws@.len(),
            forall|k: int| 0 <= k < ws@.len() ==> (ws@[k] as int) < 0x1_0000_0000_0000_0000,
            r@.map_values(|x: u64| x as int) == ws@.subrange(0, i as int).map_values(|w: u64| w as int),
        decreases ws@.len() - i,
    {
        let x = ws[i] as u64;
        let ghost before = r@;
        r.push(x);
        assert(r@.map_values(|x: u64| x as int) =~= before.map_values(|x: u64| x as int).push(x as int));
        assert(ws@.subrange(0, i + 1).map_values(|w: u64| w as int) =~= ws@.subrange(0, i as int).map_values(
            |w: u64| w as int,
        ).push(ws@[i as int] as int));
        i = i + 1;
    }
    assert(ws@.subrange(0, ws@.len() as int) =~= ws@);
    r
}

/// Dropping sentinels leaves nothing exactly when every word is the sentinel.
pub proof fn lemma_without_sentinel_empty(ws: Seq<int>, sentinel: int)
    ensures
        (without_sentinel(ws, sentinel).len() == 0) <==> (forall|i: int|
            0 <= i < ws.len() ==> ws[i] == sentinel),
    decreases ws.len(),
{
    if ws.len() > 0 {
        lemma_without_sentinel_empty(ws.drop_last(), sentinel);
        if without_sentinel(ws, sentinel).len() == 0 {
            assert forall|i: int| 0 <= i < ws.len() implies ws[i] == sentinel by {
                if i < ws.len() - 1 {
                    assert(ws.drop_last()[i] == ws[i]);
                }
            }
        } else {
            if forall|i: int| 0 <= i < ws.len() ==> ws[i] == sentinel {
                assert forall|i: int| 0 <= i < ws.drop_last().len() implies ws.drop_last()[i]
                    == sentinel by {
                    assert(ws[i] == sentinel);
                }
                assert(ws[ws.len() - 1] == sentinel);
            }
        }
    }
}

/// Bytes that encode exactly the sentinel of a base type decode to the invalid marker, never
/// to a number or a text.
pub proof fn lemma_sentinel_reads_invalid(bt: BaseType, data: Seq<u8>, endianness: u8)
    requires
        bt.wf(),
        data.len() == bt.read_size,
        word(data, endianness) == bt.invalid_value as int,
    ensures
        bt.spec_read(data, endianness) == ValueView::Invalid,
{
    if bt.type_number == STRING_TYPE {
        assert(data.drop_first() =~= Seq::<u8>::empty());
        assert(data.drop_last() =~= Seq::<u8>::empty());
        assert(uint_le(Seq::<u8>::empty()) == 0);
        assert(uint_be(Seq::<u8>::empty()) == 0);
        assert(data[0] == 0);
        assert(kept_bytes(Seq::<u8>::empty()) =~= Seq::<u8>::empty());
        assert(kept_bytes(data) =~= Seq::<u8>::empty());
    } else if bt.type_number == ENUM_TYPE {
        let ws = elements(data, 1, endianness);
        assert(data.subrange(0, 0) =~= Seq::<u8>::empty());
        assert(data.subrange(0, 1) =~= data);
        assert(elements(data.subrange(0, 0), 1, endianness) =~= Seq::<int>::empty());
        assert(ws =~= seq![word(data, endianness)]);
        assert(without_sentinel(ws, bt.invalid_value as int).len() == 0) by {
            lemma_without_sentinel_empty(ws, bt.invalid_value as int);
        }
    }
}

/// A field read as an array is invalid exactly when every element is the sentinel; when one
/// element is not, the value holds the elements that are not the sentinel, in order.
pub proof fn lemma_array_invalid_iff_all_sentinel(bt: BaseType, data: Seq<u8>, endianness: u8)
    requires
        bt.wf(),
        bt.type_number != STRING_TYPE,
        bt.reads_array(data),
    ensures
        ({
            let ws = elements(data, bt.read_size as nat, endianness);
            let kept = without_sentinel(ws, bt.invalid_value as int);
            &&& (bt.spec_read(data, endianness) == ValueView::Invalid) <==> (forall|i: int|
                0 <= i < ws.len() ==> ws[i] == bt.invalid_value as int)
            &&& (exists|i: int| 0 <= i < ws.len() && ws[i] != bt.invalid_value as int) ==> (
            bt.spec_read(data, endianness) == if bt.type_number == ENUM_TYPE {
                ValueView::Enum(kept.map_values(|w: int| w as u8))
            } else {
                ValueView::Array(kind_of(bt.type_number), kept.map_values(|w: int| bt.element_value(w)))
            })
        }),
{
    let ws = elements(data, bt.read_size as nat, endianness);
    lemma_without_sentinel_empty(ws, bt.invalid_value as int);
}

/// The `n` little-endian bytes of `x`.
pub open spec fn le_bytes(x: nat, n: nat) -> Seq<u8>
    decreases n,
{
    if n == 0 {
        seq![]
    } else {
        seq![(x % 256) as u8] + le_bytes(x / 256, (n - 1) as nat)
    }
}

/// The `n` big-endian bytes of `x`.
pub open spec fn be_bytes(x: nat, n: nat) -> Seq<u8>
    decreases n,
{
    if n == 0 {
        seq![]
    } else {
        be_bytes(x / 256, (n - 1) as nat).push((x % 256) as u8)
    }
}

/// The `n` bytes that encode `x` in the given byte order.
pub open spec fn encode_word(x: nat, n: nat, endianness: u8) -> Seq<u8> {
    if endianness == 0 {
        le_bytes(x, n)
    } else {
        be_bytes(x, n)
    }
}

proof fn lemma_le_round_trip(x: nat, n: nat)
    requires
        x < pow256(n),
    ensures
        le_bytes(x, n).len() == n,
        uint_le(le_bytes(x, n)) == x,
    decreases n,
{
    if n > 0 {
        let q = x / 256;
        assert(q < pow256((n - 1) as nat)) by {
            assert(x < 256 * pow256((n - 1) as nat));
        }
        lemma_le_round_trip(q, (n - 1) as nat);
        let s = le_bytes(x, n);
        assert(s.drop_first() =~= le_bytes(q, (n - 1) as nat));
        assert(((x % 256) as u8) as nat == x % 256);
    }
}

proof fn lemma_be_round_trip(x: nat, n: nat)
    requires
        x < pow256(n),
    ensures
        be_bytes(x, n).len() == n,
        uint_be(be_bytes(x, n)) == x,
    decreases n,
{
    if n > 0 {
        let q = x / 256;
        assert(q < pow256((n - 1) as nat)) by {
            assert(x < 256 * pow256((n - 1) as nat));
        }
        lemma_be_round_trip(q, (n - 1) as nat);
        let s = be_bytes(x, n);
        assert(s.drop_last() =~= be_bytes(q, (n - 1) as nat));
        assert(((x % 256) as u8) as nat == x % 256);
    }
}

/// Encoding a word in either byte order and reading it back gives the word.
pub proof fn lemma_word_round_trip(x: nat, n: nat, endianness: u8)
    requires
        x < pow256(n),
    ensures
        encode_word(x, n, endianness).len() == n,
        word(encode_word(x, n, endianness), endianness) == x,
{
    if endianness == 0 {
        lemma_le_round_trip(x, n);
    } else {
        lemma_be_round_trip(x, n);
    }
}

/// A number of any numeric base type, encoded in either byte order, decodes to itself
/// unless it is the sentinel.
pub proof fn lemma_scalar_round_trip(bt: BaseType, x: nat, endianness: u8)
    requires
        bt.wf(),
        bt.type_number != STRING_TYPE,
        bt.type_number != ENUM_TYPE,
        x < pow256(bt.read_size as nat),
        x != bt.invalid_value,
    ensures
        bt.spec_read(encode_word(x, bt.read_size as nat, endianness), endianness) == ValueView::Scalar(
            kind_of(bt.type_number),
            bt.element_value(x as int),
        ),
{
    lemma_word_round_trip(x, bt.read_size as nat, endianness);
}

/// Every base type is one, two, four or eight bytes wide.
pub proof fn lemma_read_size(bt: BaseType)
    requires
        bt.wf(),
    ensures
        bt.read_size == 1 || bt.read_size == 2 || bt.read_size == 4 || bt.read_size == 8,
{
}

/// The non-zero bytes of two byte runs one after the other are those of the first followed
/// by those of the second.
pub proof fn lemma_kept_bytes_concat(a: Seq<u8>, c: Seq<u8>)
    ensures
        kept_bytes(a + c) == kept_bytes(a) + kept_bytes(c),
    decreases c.len(),
{
    if c.len() == 0 {
        assert(a + c =~= a);
        assert(kept_bytes(a) + kept_bytes(c) =~= kept_bytes(a));
    } else {
        lemma_kept_bytes_concat(a, c.drop_last());
        assert((a + c).drop_last() =~= a + c.drop_last());
        if c.last() != 0 {
            assert(kept_bytes(a) + kept_bytes(c) =~= (kept_bytes(a) + kept_bytes(c.drop_last())).push(
                c.last(),
            ));
        }
    }
}

/// A zero byte in a string field is skipped, never taken as the end: the bytes after it are
/// kept, and the field reads as the text of the bytes on both sides.
pub proof fn lemma_null_does_not_truncate(a: Seq<u8>, c: Seq<u8>)
    ensures
        kept_bytes(a + seq![0u8] + c) == kept_bytes(a) + kept_bytes(c),
        string_value(a + seq![0u8] + c) == string_value(a + c),
{
    lemma_kept_bytes_concat(a + seq![0u8], c);
    lemma_kept_bytes_concat(a, seq![0u8]);
    lemma_kept_bytes_concat(a, c);
    assert(seq![0u8].drop_last() =~= Seq::<u8>::empty());
    assert(kept_bytes(Seq::<u8>::empty()) =~= Seq::<u8>::empty());
    assert(seq![0u8].last() == 0);
    assert(kept_bytes(seq![0u8]) =~= Seq::<u8>::empty());
    assert(kept_bytes(a) + Seq::<u8>::empty() =~= kept_bytes(a));
}

/// Bytes with no zero byte are all kept.
proof fn lemma_kept_bytes_all(data: Seq<u8>)
    requires
        forall|i: int| 0 <= i < data.len() ==> data[i] != 0,
    ensures
        kept_bytes(data) == data,
    decreases data.len(),
{
    if data.len() > 0 {
        lemma_kept_bytes_all(data.drop_last());
        assert(kept_bytes(data.drop_last()).push(data.last()) =~= data);
    }
}

/// Whether a value can be written in a field of base type `bt`: for strings, text whose
/// UTF-8 encoding is one to 255 bytes with no zero byte; for enums, a code other than the
/// sentinel; for numbers, a word of the type's width other than the sentinel.
pub open spec fn encodable(bt: BaseType, x: nat, text: Seq<char>) -> bool {
    if bt.type_number == STRING_TYPE {
        let bytes = vstd::utf8::encode_utf8(text);
        &&& 0 < bytes.len() < 256
        &&& forall|i: int| 0 <= i < bytes.len() ==> bytes[i] != 0
    } else if bt.type_number == ENUM_TYPE {
        x < 0xFF
    } else {
        x < pow256(bt.read_size as nat) && x != bt.invalid_value
    }
}

/// The field bytes that encode a value in the given byte order: text as UTF-8, an enum code
/// as one byte, a number as one word.
pub open spec fn field_encoding(bt: BaseType, x: nat, text: Seq<char>, endianness: u8) -> Seq<u8> {
    if bt.type_number == STRING_TYPE {
        vstd::utf8::encode_utf8(text)
    } else if bt.type_number == ENUM_TYPE {
        seq![x as u8]
    } else {
        encode_word(x, bt.read_size as nat, endianness)
    }
}

/// The value that a field holding an encoded value should decode to.
pub open spec fn encoded_value(bt: BaseType, x: nat, text: Seq<char>) -> ValueView {
    if bt.type_number == STRING_TYPE {
        ValueView::Text(text)
    } else if bt.type_number == ENUM_TYPE {
        ValueView::Enum(seq![x as u8])
    } else {
        ValueView::Scalar(kind_of(bt.type_number), bt.element_value(x as int))
    }
}

/// For every base type and either byte order, a value written into field bytes decodes back
/// to exactly that value.
pub proof fn lemma_field_round_trip(bt: BaseType, x: nat, text: Seq<char>, endianness: u8)
    requires
        bt.wf(),
        encodable(bt, x, text),
    ensures
        0 < field_encoding(bt, x, text, endianness).len() < 256,
        bt.accepts_size(field_encoding(bt, x, text, endianness).len()),
        bt.spec_read(field_encoding(bt, x, text, endianness), endianness) == encoded_value(bt, x, text),
{
    lemma_read_size(bt);
    if bt.type_number == STRING_TYPE {
        let bytes = vstd::utf8::encode_utf8(text);
        lemma_kept_bytes_all(bytes);
        vstd::utf8::encode_utf8_valid_utf8(text);
        vstd::utf8::encode_utf8_decode_utf8(text);
    } else if bt.type_number == ENUM_TYPE {
        let data = seq![x as u8];
        assert(data.subrange(0, 0) =~= Seq::<u8>::empty());
        assert(data.subrange(0, 1) =~= data);
        assert(elements(data.subrange(0, 0), 1, endianness) =~= Seq::<int>::empty());
        assert(data.drop_first() =~= Seq::<u8>::empty());
        assert(data.drop_last() =~= Seq::<u8>::empty());
        assert(uint_le(Seq::<u8>::empty()) == 0);
        assert(uint_be(Seq::<u8>::empty()) == 0);
        assert(word(data, endianness) == x);
        let ws = elements(data, 1, endianness);
        assert(ws =~= seq![x as int]);
        assert(ws.drop_last() =~= Seq::<int>::empty());
        let kept = without_sentinel(ws, bt.invalid_value as int);
        assert(bt.invalid_value == 0xFF);
        assert(without_sentinel(ws.drop_last(), bt.invalid_value as int) =~= Seq::<int>::empty());
        assert(kept =~= seq![x as int]);
        assert(kept.map_values(|w: int| w as u8) =~= seq![x as u8]);
    } else {
        lemma_scalar_round_trip(bt, x, endianness);
        lemma_word_round_trip(x, bt.read_size as nat, endianness);
        lemma_pow256_values();
    }
}

} // verus!
