//! Directory records: the fixed 33-byte header and the identifier after it.
use vstd::prelude::*;
use crate::both_endian::{both_endian16, both_endian32, le16_at, le32_at};
use crate::date_time::{compact_time, date_time, Timestamp};
use crate::error::{ISOError, ParseErrorKind};
use vstd::utf8::{decode_utf8, valid_utf8};
use crate::identifier::{utf8_string, decode_directory_name, directory_name, DirectoryEntryReader};

verus! {

/// The entry is hidden.
pub const EXISTANCE: u8 = 1;

/// The entry is a directory.
pub const DIRECTORY: u8 = 2;

/// The entry is an associated file.
pub const ASSOCIATEDFILE: u8 = 4;

/// The file's records have a format given by its extended attributes.
pub const RECORD: u8 = 8;

/// Owner and group permissions are given by the extended attributes.
pub const PROTECTION: u8 = 16;

/// The file continues in another record.
pub const MULTIEXTENT: u8 = 128;

/// The bits of the flags byte that carry meaning; 5 and 6 are reserved.
pub const KNOWN_FLAGS: u8 = 0x9f;

/// The file-flags byte of a directory record.
#[derive(Clone, Copy, Debug, PartialEq, Eq, Structural)]
pub struct FileFlags {
    pub bits: u8,
}

impl FileFlags {
    /// Keeps the known flags of `bits` and drops the reserved ones.
    pub fn from_bits_truncate(bits: u8) -> (r: FileFlags)
        ensures
            r.bits == bits & KNOWN_FLAGS,
    {
        FileFlags { bits: bits & KNOWN_FLAGS }
    }

    /// Every flag set in `flags` is set here.
    pub fn contains(&self, flags: u8) -> (r: bool)
        ensures
            r == (self.bits & flags == flags),
    {
        self.bits & flags == flags
    }
}

/// The fixed part of a directory record.
#[derive(Clone, Copy, Debug, PartialEq, Eq, Structural)]
pub struct DirectoryEntryHeader {
    pub length: u8,
    pub extended_attribute_record_length: u8,
    pub extent_loc: u32,
    pub extent_length: u32,
    pub time: Timestamp,
    pub file_flags: FileFlags,
    pub file_unit_size: u8,
    pub interleave_gap_size: u8,
    pub volume_sequence_number: u16,
}

/// Size of the fixed part of a directory record, identifier length included.
pub const HEADER_LEN: usize = 33;

/// The header that the bytes of `s` give, with the recording time `t`.
pub open spec fn record_header(s: Seq<u8>, t: Timestamp) -> DirectoryEntryHeader {
    DirectoryEntryHeader {
        length: s[0],
        extended_attribute_record_length: s[1],
        extent_loc: le32_at(s, 2) as u32,
        extent_length: le32_at(s, 10) as u32,
        time: t,
        file_flags: FileFlags { bits: s[25] & KNOWN_FLAGS },
        file_unit_size: s[26],
        interleave_gap_size: s[27],
        volume_sequence_number: le16_at(s, 28) as u16,
    }
}

/// A directory record at the start of `s`: its header and the bytes of its
/// identifier.
pub open spec fn parse_record(s: Seq<u8>) -> Result<(DirectoryEntryHeader, Seq<u8>), ParseErrorKind> {
    if s.len() < 33 || s.len() < 33 + s[32] {
        Err(ParseErrorKind::Eof)
    } else {
        match compact_time(s, 18) {
            None => Err(ParseErrorKind::Date),
            Some(t) => Ok((record_header(s, t), s.subrange(33, 33 + s[32]))),
        }
    }
}

/// Reads the directory record at the start of `input`: its header and the
/// bytes of its identifier. Bytes after the identifier (system use) are not
/// read.
pub fn directory_record(input: &[u8]) -> (r: Result<(DirectoryEntryHeader, Vec<u8>), ParseErrorKind>)
    ensures
        r is Ok <==> parse_record(input@) is Ok,
        r matches Ok((h, id)) ==> parse_record(input@) == Ok::<_, ParseErrorKind>((h, id@)),
        r matches Err(e) ==> parse_record(input@) == Err::<(DirectoryEntryHeader, Seq<u8>), _>(e),
{
    if input.len() < HEADER_LEN || input.len() - HEADER_LEN < input[32] as usize {
        return Err(ParseErrorKind::Eof);
    }
    let time = match date_time(input, 18) {
        Some(t) => t,
        None => return Err(ParseErrorKind::Date),
    };
    let extent_loc = both_endian32(input, 2).unwrap();
    let extent_length = both_endian32(input, 10).unwrap();
    let volume_sequence_number = both_endian16(input, 28).unwrap();
    let header = DirectoryEntryHeader {
        length: input[0],
        extended_attribute_record_length: input[1],
        extent_loc,
        extent_length,
        time,
        file_flags: FileFlags::from_bits_truncate(input[25]),
        file_unit_size: input[26],
        interleave_gap_size: input[27],
        volume_sequence_number,
    };
    let n = input[32] as usize;
    let mut id: Vec<u8> = Vec::new();
    let mut i: usize = 0;
    while i < n
        invariant
            33 + n <= input.len(),
            HEADER_LEN == 33,
            i <= n,
            id@ == input@.subrange(33, 33 + i),
        decreases n - i,
    {
        id.push(input[HEADER_LEN + i]);
        i += 1;
        assert(id@ =~= input@.subrange(33, 33 + i));
    }
    Ok((header, id))
}

/// The header of the record at the start of `s` and its identifier read as
/// UTF-8 text.
pub open spec fn parse_record_utf8(s: Seq<u8>) -> Option<(DirectoryEntryHeader, Seq<char>)> {
    match parse_record(s) {
        Err(_) => None,
        Ok((h, b)) => if valid_utf8(b) {
            Some((h, decode_utf8(b)))
        } else {
            None
        },
    }
}

/// Reads the directory record at the start of `input`: its header and its
/// identifier as UTF-8 text, as recorded (no name rules applied).
pub fn directory_entry<E>(input: &[u8]) -> (r: Result<(DirectoryEntryHeader, String), ISOError<E>>)
    ensures
        r is Ok <==> parse_record_utf8(input@) is Some,
        r matches Ok((h, t)) ==> parse_record_utf8(input@) == Some((h, t@)),
        parse_record(input@) matches Err(k) ==> (r matches Err(ISOError::Parse(k2)) && k2 == k),
        parse_record(input@) is Ok && r is Err ==> r matches Err(ISOError::Utf8),
{
    let (header, id) = match directory_record(input) {
        Ok(v) => v,
        Err(k) => return Err(ISOError::Parse(k)),
    };
    match utf8_string(id) {
        Some(t) => Ok((header, t)),
        None => Err(ISOError::Utf8),
    }
}

/// The header and decoded identifier of the record at the start of `s`,
/// the identifier read as a directory's.
pub open spec fn parse_record_text(s: Seq<u8>, reader: DirectoryEntryReader) -> Option<(DirectoryEntryHeader, Seq<char>)> {
    if short_record(s) {
        None
    } else {
        match parse_record(s) {
        Err(_) => None,
            Ok((h, b)) => match directory_name(b, reader) {
                None => None,
                Some(t) => Some((h, t)),
            },
        }
    }
}

/// The record length byte is below the size of a record's fixed part.
pub open spec fn short_record(s: Seq<u8>) -> bool {
    s.len() > 0 && s[0] < 33
}

/// Reads the directory record at the start of `input` and decodes its
/// identifier as `reader` says, as a directory's identifier.
pub fn directory_entry_with_reader<E>(input: &[u8], reader: DirectoryEntryReader) -> (r: Result<(DirectoryEntryHeader, String), ISOError<E>>)
    ensures
        r is Ok <==> parse_record_text(input@, reader) is Some,
        r matches Ok((h, t)) ==> parse_record_text(input@, reader) == Some((h, t@)),
        short_record(input@) ==> r matches Err(ISOError::InvalidFs(_)),
        !short_record(input@) ==> (parse_record(input@) matches Err(k) ==> (r matches Err(
            ISOError::Parse(k2),
        ) && k2 == k)),
{
    if input.len() > 0 && input[0] < 33 {
        return Err(ISOError::InvalidFs("directory record shorter than its header"));
    }
    let (header, id) = match directory_record(input) {
        Ok(v) => v,
        Err(k) => return Err(ISOError::Parse(k)),
    };
    let text = decode_directory_name(id.as_slice(), reader)?;
    Ok((header, text))
}

/// A directory record's header with the encoding of its directory.
pub struct DirectoryEntryInfo {
    pub header: DirectoryEntryHeader,
    pub reader: DirectoryEntryReader,
}

impl DirectoryEntryHeader {
    /// Reads the directory record at the start of `input`, its identifier as
    /// UTF-8.
    pub fn parse<E>(input: &[u8]) -> (r: Result<(DirectoryEntryHeader, String), ISOError<E>>)
        ensures
            r is Ok <==> parse_record_text(input@, DirectoryEntryReader::Primary) is Some,
            r matches Ok((h, t)) ==> parse_record_text(input@, DirectoryEntryReader::Primary)
                == Some((h, t@)),
            short_record(input@) ==> r matches Err(ISOError::InvalidFs(_)),
    {
        directory_entry_with_reader(input, DirectoryEntryReader::Primary)
    }
}

} // verus!
