//! Fatal decode conditions.

use vstd::prelude::*;

verus! {

/// A condition under which decoding a FIT buffer cannot go on.
#[derive(Clone, Copy, Debug, PartialEq, Eq, Structural)]
pub enum DecodeError {
    /// A field names a base type tag that is not one of the defined base types.
    UnknownBaseType(u8),
    /// A data record refers to a local message number with no definition before it.
    UndefinedLocalMessage(u8),
    /// A record header uses the compressed timestamp form, which is not supported.
    CompressedTimestampHeader,
    /// A field description message lacks one of its sub-fields, or holds one of an unexpected type.
    MalformedFieldDescription,
    /// A developer field is used before a field description declared it.
    UnknownDeveloperField,
    /// A field's byte size does not fit the width of its base type.
    BadFieldSize,
    /// The buffer ends before the header, a record, or the trailing checksum is complete.
    Truncated,
}

} // verus!
