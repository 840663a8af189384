//! The fixed file header that precedes the records.

use vstd::prelude::*;
use crate::text::{byte_char, char_of_byte, decimal, push_char, push_decimal};

verus! {

/// Size of the header block that is read; the header's own length byte says where the
/// records begin.
pub const HEADER_SIZE: usize = 14;

/// The parsed file header.
#[derive(Debug)]
pub struct Header {
    /// Offset of the first record.
    pub length: usize,
    pub protocol_version: u8,
    /// Profile version written as "major.minor".
    pub profile_version: String,
    /// Length of the record section, as the header declares it.
    pub data_size: u32,
    /// The four-character type tag, normally ".FIT".
    pub data_type: String,
    /// The header checksum, its two stored bytes in reverse order.
    pub crc: [u8; 2],
}

/// "major.minor" for a profile version number: the number divided by 100, then its remainder.
pub open spec fn profile_version_text(v: nat) -> Seq<char> {
    decimal(v / 100) + seq!['.'] + decimal(v % 100)
}

/// Offset of the first record, as the first header byte gives it.
pub fn header_length(header_info: &[u8]) -> (r: usize)
    requires
        header_info@.len() >= 1,
    ensures
        r == header_info@[0] as usize,
{
    header_info[0] as usize
}

impl Header {
    /// Whether this is the header that the first bytes `b` of a file describe.
    pub open spec fn parsed_from(&self, b: Seq<u8>) -> bool {
        &&& self.length == b[0] as usize
        &&& self.protocol_version == b[1] / 16
        &&& self.profile_version@ == profile_version_text(b[2] as nat + 256 * (b[3] as nat))
        &&& self.data_size as int == b[4] as int + 0x100 * (b[5] as int) + 0x1_0000 * (b[6] as int)
            + 0x100_0000 * (b[7] as int)
        &&& self.data_type@ == seq![byte_char(b[8]), byte_char(b[9]), byte_char(b[10]), byte_char(b[11])]
        &&& self.crc@ == seq![b[13], b[12]]
    }

    fn from(
        length: usize,
        protocol_version: u8,
        profile_version: String,
        data_size: u32,
        data_type: String,
        crc: [u8; 2],
    ) -> (h: Header)
        ensures
            h.length == length,
            h.protocol_version == protocol_version,
            h.profile_version == profile_version,
            h.data_size == data_size,
            h.data_type == data_type,
            h.crc == crc,
    {
        Header { length, protocol_version, profile_version, data_size, data_type, crc }
    }

    /// Parses the first fourteen bytes of a file.
    pub fn read_header(header_info: &[u8]) -> (h: Header)
        requires
            header_info@.len() >= HEADER_SIZE,
        ensures
            h.parsed_from(header_info@),
    {
        let b = header_info;
        let length = b[0] as usize;
        let version_byte = b[1];
        let protocol_version = version_byte >> 4;
        assert(version_byte >> 4 == version_byte / 16) by (bit_vector);
        let profile = b[2] as u64 + 256 * (b[3] as u64);
        let mut profile_version = String::new();
        push_decimal(&mut profile_version, profile / 100);
        push_char(&mut profile_version, '.');
        push_decimal(&mut profile_version, profile % 100);
        assert(profile_version@ =~= profile_version_text(profile as nat));
        let data_size = b[4] as u32 + 0x100 * (b[5] as u32) + 0x1_0000 * (b[6] as u32) + 0x100_0000 * (
        b[7] as u32);
        let mut data_type = String::new();
        push_char(&mut data_type, char_of_byte(b[8]));
        push_char(&mut data_type, char_of_byte(b[9]));
        push_char(&mut data_type, char_of_byte(b[10]));
        push_char(&mut data_type, char_of_byte(b[11]));
        assert(data_type@ =~= seq![byte_char(b[8]), byte_char(b[9]), byte_char(b[10]), byte_char(b[11])]);
        let crc: [u8; 2] = [b[13], b[12]];
        assert(crc@ =~= seq![b[13], b[12]]);
        Header::from(length, protocol_version, profile_version, data_size, data_type, crc)
    }
}

} // verus!
