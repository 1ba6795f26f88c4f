//! Volume descriptors: the 2048-byte blocks from LBA 16 on that describe the
//! volume and locate its root directory.
use vstd::prelude::*;
use vstd::utf8::{decode_utf8, valid_utf8};
use crate::both_endian::{
    both_endian16, both_endian16_bytes, both_endian16_round_trip, both_endian32, both_endian32_bytes,
    both_endian32_round_trip, is_both_endian16, is_both_endian32, le16_at, le32_at, le_u32,
};
use crate::date_time::{ascii_time, date_time_ascii, Timestamp};
use crate::directory_entry::{directory_entry_with_reader, parse_record_text, DirectoryEntryHeader};
use crate::error::{ISOError, ParseErrorKind};
use crate::identifier::{utf8_string, DirectoryEntryReader};

verus! {

/// Drops the spaces at the end of `s`.
pub open spec fn trim_spaces(s: Seq<u8>) -> Seq<u8>
    decreases s.len(),
{
    if s.len() > 0 && s.last() == 32 {
        trim_spaces(s.drop_last())
    } else {
        s
    }
}

/// The fixed-width text field of `n` bytes at `p`, trailing spaces dropped.
pub open spec fn text_field(s: Seq<u8>, p: int, n: int) -> Option<Seq<char>> {
    let t = trim_spaces(s.subrange(p, p + n));
    if p + n <= s.len() && valid_utf8(t) {
        Some(decode_utf8(t))
    } else {
        None
    }
}

/// Reads the `n`-byte text field at `pos` and drops its trailing spaces.
pub fn take_string_trim<E>(input: &[u8], pos: usize, n: usize) -> (r: Result<String, ISOError<E>>)
    ensures
        r is Ok <==> text_field(input@, pos as int, n as int) is Some,
        r matches Ok(t) ==> text_field(input@, pos as int, n as int) == Some(t@),
{
    if pos > input.len() || input.len() - pos < n {
        return Err(ISOError::Parse(ParseErrorKind::Eof));
    }
    let ghost s = input@.subrange(pos as int, pos + n);
    let mut k: usize = n;
    assert(s.take(n as int) =~= s);
    while k > 0 && input[pos + k - 1] == 32
        invariant
            pos + n <= input.len(),
            s == input@.subrange(pos as int, pos + n),
            k <= n,
            trim_spaces(s.take(k as int)) == trim_spaces(s),
        decreases k,
    {
        assert(s.take(k as int).drop_last() =~= s.take(k - 1));
        k -= 1;
    }
    assert(trim_spaces(s.take(k as int)) == s.take(k as int));
    let mut bytes: Vec<u8> = Vec::new();
    let mut i: usize = 0;
    while i < k
        invariant
            pos + n <= input.len(),
            s == input@.subrange(pos as int, pos + n),
            i <= k <= n,
            bytes@ == s.take(i as int),
        decreases k - i,
    {
        bytes.push(input[pos + i]);
        i += 1;
        assert(bytes@ =~= s.take(i as int));
    }
    match utf8_string(bytes) {
        Some(t) => Ok(t),
        None => Err(ISOError::Utf8),
    }
}

/// The Primary Volume Descriptor.
#[derive(Debug)]
pub struct PrimaryVolumeDescriptor {
    pub system_identifier: String,
    pub volume_identifier: String,
    pub volume_space_size: u32,
    pub volume_set_size: u16,
    pub volume_sequence_number: u16,
    pub logical_block_size: u16,
    pub path_table_size: u32,
    pub path_table_loc: u32,
    pub optional_path_table_loc: u32,
    pub root_directory_entry: DirectoryEntryHeader,
    pub root_directory_entry_identifier: String,
    pub volume_set_identifier: String,
    pub publisher_identifier: String,
    pub data_preparer_identifier: String,
    pub application_identifier: String,
    pub copyright_file_identifier: String,
    pub abstract_file_identifier: String,
    pub bibliographic_file_identifier: String,
    pub creation_time: Timestamp,
    pub modification_time: Timestamp,
    pub expiration_time: Timestamp,
    pub effective_time: Timestamp,
    pub file_structure_version: u8,
}

/// A Boot Record; its payload is kept as it is.
#[derive(Debug)]
pub struct BootRecordDescriptor {
    pub boot_system_identifier: String,
    pub boot_identifier: String,
    pub data: Vec<u8>,
}

/// A Supplementary Volume Descriptor, Joliet or not.
#[derive(Debug)]
pub struct SupplementaryVolumeDescriptor {
    pub type_: u8,
    pub version: u8,
    pub flags: u8,
    pub is_joliet: bool,
    pub root_directory_entry: DirectoryEntryHeader,
    pub root_directory_entry_identifier: String,
}

/// One volume descriptor.
#[derive(Debug)]
pub enum VolumeDescriptor {
    Primary(PrimaryVolumeDescriptor),
    BootRecord(BootRecordDescriptor),
    SupplementaryVolumeDescriptor(SupplementaryVolumeDescriptor),
    VolumeDescriptorSetTerminator,
}

/// Offset of the fields that follow the root directory record.
pub const AFTER_ROOT: usize = 190;

/// Offset of the root directory record in a volume descriptor.
pub const ROOT_RECORD: usize = 156;

/// Bytes 1 to 6 are `CD001` and version 1.
pub open spec fn has_tag(s: Seq<u8>) -> bool {
    s.len() >= 7 && s[1] == 0x43 && s[2] == 0x44 && s[3] == 0x30 && s[4] == 0x30 && s[5] == 0x31
        && s[6] == 1
}

/// The ASCII timestamp at `p`, where the input holds all of it.
pub open spec fn ascii_time_at(s: Seq<u8>, p: int) -> Option<Timestamp> {
    if p + 17 <= s.len() {
        ascii_time(s, p)
    } else {
        None
    }
}

/// The root directory record of a volume descriptor, decoded as `reader` says.
pub open spec fn root_record(s: Seq<u8>, reader: DirectoryEntryReader) -> Option<(DirectoryEntryHeader, Seq<char>)> {
    if s.len() >= 156 {
        parse_record_text(s.subrange(156, s.len() as int), reader)
    } else {
        None
    }
}

/// The bytes hold a well-formed Primary Volume Descriptor.
pub open spec fn primary_ok(s: Seq<u8>) -> bool {
    let q = AFTER_ROOT as int;
    &&& text_field(s, 8, 32) is Some
    &&& text_field(s, 40, 32) is Some
    &&& root_record(s, DirectoryEntryReader::Primary) is Some
    &&& text_field(s, q, 128) is Some
    &&& text_field(s, q + 128, 128) is Some
    &&& text_field(s, q + 256, 128) is Some
    &&& text_field(s, q + 384, 128) is Some
    &&& text_field(s, q + 512, 37) is Some
    &&& text_field(s, q + 549, 37) is Some
    &&& text_field(s, q + 586, 37) is Some
    &&& ascii_time_at(s, q + 623) is Some
    &&& ascii_time_at(s, q + 640) is Some
    &&& ascii_time_at(s, q + 657) is Some
    &&& ascii_time_at(s, q + 674) is Some
    &&& q + 692 <= s.len()
}

/// `d` holds what the bytes of a Primary Volume Descriptor say.
pub open spec fn primary_matches(d: PrimaryVolumeDescriptor, s: Seq<u8>) -> bool {
    let q = AFTER_ROOT as int;
    let root = root_record(s, DirectoryEntryReader::Primary)->0;
    &&& Some(d.system_identifier@) == text_field(s, 8, 32)
    &&& Some(d.volume_identifier@) == text_field(s, 40, 32)
    &&& d.volume_space_size == le32_at(s, 80)
    &&& d.volume_set_size == le16_at(s, 120)
    &&& d.volume_sequence_number == le16_at(s, 124)
    &&& d.logical_block_size == le16_at(s, 128)
    &&& d.path_table_size == le32_at(s, 132)
    &&& d.path_table_loc == le32_at(s, 140)
    &&& d.optional_path_table_loc == le32_at(s, 144)
    &&& d.root_directory_entry == root.0
    &&& d.root_directory_entry_identifier@ == root.1
    &&& Some(d.volume_set_identifier@) == text_field(s, q, 128)
    &&& Some(d.publisher_identifier@) == text_field(s, q + 128, 128)
    &&& Some(d.data_preparer_identifier@) == text_field(s, q + 256, 128)
    &&& Some(d.application_identifier@) == text_field(s, q + 384, 128)
    &&& Some(d.copyright_file_identifier@) == text_field(s, q + 512, 37)
    &&& Some(d.abstract_file_identifier@) == text_field(s, q + 549, 37)
    &&& Some(d.bibliographic_file_identifier@) == text_field(s, q + 586, 37)
    &&& Some(d.creation_time) == ascii_time_at(s, q + 623)
    &&& Some(d.modification_time) == ascii_time_at(s, q + 640)
    &&& Some(d.expiration_time) == ascii_time_at(s, q + 657)
    &&& Some(d.effective_time) == ascii_time_at(s, q + 674)
    &&& d.file_structure_version == s[q + 691]
}

fn primary_descriptor<E>(input: &[u8]) -> (r: Result<PrimaryVolumeDescriptor, ISOError<E>>)
    requires
        has_tag(input@),
        input@[0] == 1,
    ensures
        r is Ok <==> primary_ok(input@),
        r matches Ok(d) ==> primary_matches(d, input@),
{
    let ghost s = input@;
    let system_identifier = take_string_trim(input, 8, 32)?;
    let volume_identifier = take_string_trim(input, 40, 32)?;
    if input.len() < 189 {
        return Err(ISOError::Parse(ParseErrorKind::Eof));
    }
    let volume_space_size = both_endian32(input, 80).unwrap();
    let volume_set_size = both_endian16(input, 120).unwrap();
    let volume_sequence_number = both_endian16(input, 124).unwrap();
    let logical_block_size = both_endian16(input, 128).unwrap();
    let path_table_size = both_endian32(input, 132).unwrap();
    let path_table_loc = le_u32(input, 140).unwrap();
    let optional_path_table_loc = le_u32(input, 144).unwrap();
    let root = slice_from(input, ROOT_RECORD);
    let (root_directory_entry, root_directory_entry_identifier) = directory_entry_with_reader(
        root.as_slice(),
        DirectoryEntryReader::Primary,
    )?;
    let q: usize = AFTER_ROOT;
    let volume_set_identifier = take_string_trim(input, q, 128)?;
    let publisher_identifier = take_string_trim(input, q + 128, 128)?;
    let data_preparer_identifier = take_string_trim(input, q + 256, 128)?;
    let application_identifier = take_string_trim(input, q + 384, 128)?;
    let copyright_file_identifier = take_string_trim(input, q + 512, 37)?;
    let abstract_file_identifier = take_string_trim(input, q + 549, 37)?;
    let bibliographic_file_identifier = take_string_trim(input, q + 586, 37)?;
    let creation_time = ascii_time_field(input, q + 623)?;
    let modification_time = ascii_time_field(input, q + 640)?;
    let expiration_time = ascii_time_field(input, q + 657)?;
    let effective_time = ascii_time_field(input, q + 674)?;
    if input.len() < q + 692 {
        return Err(ISOError::Parse(ParseErrorKind::Eof));
    }
    let file_structure_version = input[q + 691];
    Ok(
        PrimaryVolumeDescriptor {
            system_identifier,
            volume_identifier,
            volume_space_size,
            volume_set_size,
            volume_sequence_number,
            logical_block_size,
            path_table_size,
            path_table_loc,
            optional_path_table_loc,
            root_directory_entry,
            root_directory_entry_identifier,
            volume_set_identifier,
            publisher_identifier,
            data_preparer_identifier,
            application_identifier,
            copyright_file_identifier,
            abstract_file_identifier,
            bibliographic_file_identifier,
            creation_time,
            modification_time,
            expiration_time,
            effective_time,
            file_structure_version,
        },
    )
}

/// The ASCII timestamp at `pos`.
fn ascii_time_field<E>(input: &[u8], pos: usize) -> (r: Result<Timestamp, ISOError<E>>)
    ensures
        r is Ok <==> ascii_time_at(input@, pos as int) is Some,
        r matches Ok(t) ==> ascii_time_at(input@, pos as int) == Some(t),
{
    if pos > input.len() || input.len() - pos < 17 {
        return Err(ISOError::Parse(ParseErrorKind::Eof));
    }
    match date_time_ascii(input, pos) {
        Some(t) => Ok(t),
        None => Err(ISOError::Parse(ParseErrorKind::Date)),
    }
}

/// A copy of the bytes of `input` from `start` on.
pub fn slice_from(input: &[u8], start: usize) -> (r: Vec<u8>)
    requires
        start <= input@.len(),
    ensures
        r@ == input@.subrange(start as int, input@.len() as int),
{
    let mut out: Vec<u8> = Vec::new();
    let mut i: usize = start;
    while i < input.len()
        invariant
            start <= i <= input@.len(),
            out@ == input@.subrange(start as int, i as int),
        decreases input@.len() - i,
    {
        out.push(input[i]);
        i += 1;
        assert(out@ =~= input@.subrange(start as int, i as int));
    }
    out
}

/// The escape sequences at bytes 88 to 120 begin with `%/@`, `%/C` or
/// `%/E`: UCS-2 levels 1, 2 and 3.
pub open spec fn joliet_escape(s: Seq<u8>) -> bool {
    s.len() >= 120 && s[88] == 0x25 && s[89] == 0x2f && (s[90] == 0x40 || s[90] == 0x43 || s[90]
        == 0x45)
}

/// `d` holds what the bytes of a Supplementary Volume Descriptor say.
pub open spec fn supplementary_matches(d: SupplementaryVolumeDescriptor, s: Seq<u8>) -> bool {
    let root = root_record(s, DirectoryEntryReader::Joliet)->0;
    &&& d.type_ == 2
    &&& d.version == 1
    &&& d.flags == s[7]
    &&& d.is_joliet == joliet_escape(s)
    &&& d.root_directory_entry == root.0
    &&& d.root_directory_entry_identifier@ == root.1
}

fn supplementary_descriptor<E>(input: &[u8]) -> (r: Result<SupplementaryVolumeDescriptor, ISOError<E>>)
    requires
        has_tag(input@),
    ensures
        r is Ok <==> root_record(input@, DirectoryEntryReader::Joliet) is Some,
        r matches Ok(d) ==> supplementary_matches(d, input@),
{
    if input.len() < ROOT_RECORD {
        return Err(ISOError::Parse(ParseErrorKind::Eof));
    }
    let flags = input[7];
    let root = slice_from(input, ROOT_RECORD);
    let (root_directory_entry, root_directory_entry_identifier) = directory_entry_with_reader(
        root.as_slice(),
        DirectoryEntryReader::Joliet,
    )?;
    let is_joliet = input.len() >= 120 && input[88] == 0x25 && input[89] == 0x2f && (input[90]
        == 0x40 || input[90] == 0x43 || input[90] == 0x45);
    Ok(
        SupplementaryVolumeDescriptor {
            type_: 2,
            version: 1,
            flags,
            is_joliet,
            root_directory_entry,
            root_directory_entry_identifier,
        },
    )
}

/// The bytes hold a well-formed Boot Record.
pub open spec fn boot_ok(s: Seq<u8>) -> bool {
    &&& text_field(s, 7, 32) is Some
    &&& text_field(s, 39, 32) is Some
    &&& s.len() >= 2048
}

/// `d` holds what the bytes of a Boot Record say.
pub open spec fn boot_matches(d: BootRecordDescriptor, s: Seq<u8>) -> bool {
    &&& Some(d.boot_system_identifier@) == text_field(s, 7, 32)
    &&& Some(d.boot_identifier@) == text_field(s, 39, 32)
    &&& d.data@ == s.subrange(71, 2048)
}

fn boot_record<E>(input: &[u8]) -> (r: Result<BootRecordDescriptor, ISOError<E>>)
    ensures
        r is Ok <==> boot_ok(input@),
        r matches Ok(d) ==> boot_matches(d, input@),
{
    let boot_system_identifier = take_string_trim(input, 7, 32)?;
    let boot_identifier = take_string_trim(input, 39, 32)?;
    if input.len() < 2048 {
        return Err(ISOError::Parse(ParseErrorKind::Eof));
    }
    let mut data: Vec<u8> = Vec::new();
    let mut i: usize = 71;
    while i < 2048
        invariant
            2048 <= input@.len(),
            71 <= i <= 2048,
            data@ == input@.subrange(71, i as int),
        decreases 2048 - i,
    {
        data.push(input[i]);
        i += 1;
        assert(data@ =~= input@.subrange(71, i as int));
    }
    Ok(BootRecordDescriptor { boot_system_identifier, boot_identifier, data })
}

/// The bytes hold a volume descriptor that can be read: tagged, and
/// well-formed where its type is one this library reads.
pub open spec fn descriptor_ok(s: Seq<u8>) -> bool {
    &&& has_tag(s)
    &&& s[0] == 0 ==> boot_ok(s)
    &&& s[0] == 1 ==> primary_ok(s)
    &&& s[0] == 2 ==> root_record(s, DirectoryEntryReader::Joliet) is Some
}

/// `d` is what the bytes of a descriptor say; `None` stands for a type
/// this library does not read.
pub open spec fn descriptor_matches(d: Option<VolumeDescriptor>, s: Seq<u8>) -> bool {
    match d {
        None => s[0] != 0 && s[0] != 1 && s[0] != 2 && s[0] != 255,
        Some(VolumeDescriptor::BootRecord(b)) => s[0] == 0 && boot_matches(b, s),
        Some(VolumeDescriptor::Primary(p)) => s[0] == 1 && primary_matches(p, s),
        Some(VolumeDescriptor::SupplementaryVolumeDescriptor(p)) => s[0] == 2
            && supplementary_matches(p, s),
        Some(VolumeDescriptor::VolumeDescriptorSetTerminator) => s[0] == 255,
    }
}

/// Reads one volume descriptor: the type code, the tag `CD001` with version
/// 1, then the fields of that type. A type this library does not read gives
/// `None`.
pub fn volume_descriptor<E>(input: &[u8]) -> (r: Result<Option<VolumeDescriptor>, ISOError<E>>)
    ensures
        r is Ok <==> descriptor_ok(input@),
        r matches Ok(d) ==> descriptor_matches(d, input@),
        input@.len() >= 7 && !has_tag(input@) ==> r matches Err(ISOError::InvalidFs(_)),
{
    if input.len() < 7 {
        return Err(ISOError::Parse(ParseErrorKind::Eof));
    }
    if !(input[1] == 0x43 && input[2] == 0x44 && input[3] == 0x30 && input[4] == 0x30 && input[5]
        == 0x31 && input[6] == 1) {
        return Err(ISOError::InvalidFs("volume descriptor without the CD001 tag"));
    }
    let type_code = input[0];
    if type_code == 0 {
        Ok(Some(VolumeDescriptor::BootRecord(boot_record(input)?)))
    } else if type_code == 1 {
        Ok(Some(VolumeDescriptor::Primary(primary_descriptor(input)?)))
    } else if type_code == 2 {
        Ok(Some(VolumeDescriptor::SupplementaryVolumeDescriptor(supplementary_descriptor(input)?)))
    } else if type_code == 255 {
        Ok(Some(VolumeDescriptor::VolumeDescriptorSetTerminator))
    } else {
        Ok(None)
    }
}

impl VolumeDescriptor {
    /// Reads one volume descriptor; see [`volume_descriptor`].
    pub fn parse<E>(bytes: &[u8]) -> (r: Result<Option<VolumeDescriptor>, ISOError<E>>)
        ensures
            r is Ok <==> descriptor_ok(bytes@),
            r matches Ok(d) ==> descriptor_matches(d, bytes@),
            bytes@.len() >= 7 && !has_tag(bytes@) ==> r matches Err(ISOError::InvalidFs(_)),
    {
        volume_descriptor(bytes)
    }
}

/// Writing back the both-endian fields of a Primary Volume Descriptor gives
/// the bytes they were read from, where each field held its value twice.
pub proof fn primary_fields_round_trip(d: PrimaryVolumeDescriptor, s: Seq<u8>)
    requires
        primary_matches(d, s),
        s.len() >= 140,
        is_both_endian32(s.subrange(80, 88)),
        is_both_endian16(s.subrange(120, 124)),
        is_both_endian16(s.subrange(124, 128)),
        is_both_endian16(s.subrange(128, 132)),
        is_both_endian32(s.subrange(132, 140)),
    ensures
        both_endian32_bytes(d.volume_space_size) == s.subrange(80, 88),
        both_endian16_bytes(d.volume_set_size) == s.subrange(120, 124),
        both_endian16_bytes(d.volume_sequence_number) == s.subrange(124, 128),
        both_endian16_bytes(d.logical_block_size) == s.subrange(128, 132),
        both_endian32_bytes(d.path_table_size) == s.subrange(132, 140),
{
    both_endian32_round_trip(s.subrange(80, 88));
    both_endian16_round_trip(s.subrange(120, 124));
    both_endian16_round_trip(s.subrange(124, 128));
    both_endian16_round_trip(s.subrange(128, 132));
    both_endian32_round_trip(s.subrange(132, 140));
}

} // verus!
