use iso9660::fileref::block_read_outcome;
use iso9660::descriptor_lba;
use iso9660::directory::{scan_block, BlockStep};
use iso9660::isofile::span_in_block;
use iso9660::MountState;
use iso9660::both_endian::{both_endian16, both_endian32, emit_both_endian16, emit_both_endian32, le_u32};
use iso9660::date_time::{date_time, date_time_ascii, Timestamp};
use iso9660::directory_entry::{directory_entry, directory_record, DirectoryEntryHeader, FileFlags, DIRECTORY};
use iso9660::error::{ISOError, ParseErrorKind};
use iso9660::identifier::{decode_directory_name, decode_identifier, split_file_identifier, units_of, DirectoryEntryReader};
use iso9660::path::path_components;
use iso9660::volume_descriptor::{take_string_trim, VolumeDescriptor};

fn units(s: &str) -> Vec<u16> {
    s.bytes().map(|b| b as u16).collect()
}

#[test]
fn both_endian_round_trip() {
    let bytes = [0x78, 0x56, 0x34, 0x12, 0x12, 0x34, 0x56, 0x78];
    let v = both_endian32(&bytes, 0).unwrap();
    assert_eq!(v, 0x12345678);
    assert_eq!(emit_both_endian32(v), bytes.to_vec());
    let b16 = [0x00, 0x08, 0x08, 0x00];
    let w = both_endian16(&b16, 0).unwrap();
    assert_eq!(w, 2048);
    assert_eq!(emit_both_endian16(w), b16.to_vec());
}

#[test]
fn both_endian_short_input() {
    assert!(both_endian32(&[1, 2, 3, 4, 5, 6, 7], 0).is_none());
    assert!(both_endian16(&[1, 2, 3, 4], 1).is_none());
    assert_eq!(le_u32(&[0, 1, 0, 0, 0], 1), Some(1));
}

#[test]
fn compact_time_fields() {
    let t = date_time(&[120, 5, 17, 10, 30, 59, 0xfc], 0).unwrap();
    assert_eq!(t, Timestamp { year: 2020, month: 5, day: 17, hour: 10, minute: 30, second: 59, hundredths: 0, offset: -4 });
}

#[test]
fn compact_time_zero_is_epoch() {
    assert_eq!(date_time(&[0; 7], 0).unwrap(), Timestamp::epoch());
    assert_eq!(Timestamp::epoch().year, 1970);
}

#[test]
fn compact_time_calendar_checks() {
    // 2000 is a leap year, 1900 is not
    assert!(date_time(&[100, 2, 29, 0, 0, 0, 0], 0).is_some());
    assert!(date_time(&[0, 2, 29, 0, 0, 0, 0], 0).is_none());
    assert!(date_time(&[120, 4, 31, 0, 0, 0, 0], 0).is_none());
    assert!(date_time(&[120, 13, 1, 0, 0, 0, 0], 0).is_none());
    assert!(date_time(&[120, 1, 1, 24, 0, 0, 0], 0).is_none());
    assert!(date_time(&[120, 1, 1, 0, 60, 0, 0], 0).is_none());
    assert!(date_time(&[120, 1, 1, 0, 0, 0, 103], 0).is_some());
    assert!(date_time(&[120, 1, 1, 0, 0, 0, 104], 0).is_none());
    assert!(date_time(&[120, 1, 1, 0, 0, 0], 0).is_none());
}

#[test]
fn ascii_time_fields() {
    let mut b = b"1999123123595999".to_vec();
    b.push(8);
    let t = date_time_ascii(&b, 0).unwrap();
    assert_eq!(t, Timestamp { year: 1999, month: 12, day: 31, hour: 23, minute: 59, second: 59, hundredths: 99, offset: 8 });
}

#[test]
fn ascii_time_unset_and_spaces() {
    let mut b = b"0000000000000000".to_vec();
    b.push(0);
    assert_eq!(date_time_ascii(&b, 0).unwrap(), Timestamp::epoch());
    let mut c = b"20240102030405  ".to_vec();
    c.push(0);
    assert_eq!(date_time_ascii(&c, 0).unwrap().hundredths, 0);
    let mut d = b"2024010203040 00".to_vec();
    d.push(0);
    assert_eq!(date_time_ascii(&d, 0).unwrap().second, 0);
    let mut e = b"2024 10203040500".to_vec();
    e.push(0);
    assert!(date_time_ascii(&e, 0).is_none());
    let mut f = b"20240230030405 0".to_vec();
    f.push(0);
    assert!(date_time_ascii(&f, 0).is_none());
}

#[test]
fn version_suffix_split() {
    let (n, v) = split_file_identifier(&units("README.TXT;12")).unwrap();
    assert_eq!(n, units("README.TXT"));
    assert_eq!(v, 12);
    let (n, v) = split_file_identifier(&units("MAKEFILE.;1")).unwrap();
    assert_eq!(n, units("MAKEFILE"));
    assert_eq!(v, 1);
    let (n, v) = split_file_identifier(&units("NOVERSION")).unwrap();
    assert_eq!(n, units("NOVERSION"));
    assert_eq!(v, 1);
    let (n, v) = split_file_identifier(&units("A;B;65535")).unwrap();
    assert_eq!(n, units("A;B"));
    assert_eq!(v, 65535);
    assert!(split_file_identifier(&units("A;65536")).is_none());
    assert!(split_file_identifier(&units("A;")).is_none());
    assert!(split_file_identifier(&units("A;1x")).is_none());
}

#[test]
fn identifier_decoding() {
    let u = units_of(&[0x00, 0x41, 0x00, 0xe9], DirectoryEntryReader::Joliet).unwrap();
    assert_eq!(u, vec![0x41, 0xe9]);
    assert_eq!(decode_identifier(&u, DirectoryEntryReader::Joliet).unwrap(), "Aé");
    assert!(units_of(&[0x00, 0x41, 0x00], DirectoryEntryReader::Joliet).is_none());
    assert!(decode_identifier(&vec![0xd800], DirectoryEntryReader::Joliet).is_none());
    let p = units_of("é".as_bytes(), DirectoryEntryReader::Primary).unwrap();
    assert_eq!(decode_identifier(&p, DirectoryEntryReader::Primary).unwrap(), "é");
    assert!(decode_identifier(&vec![0xff], DirectoryEntryReader::Primary).is_none());
}

#[test]
fn dot_entries_named() {
    assert_eq!(decode_directory_name::<()>(&[0], DirectoryEntryReader::Joliet).unwrap(), ".");
    assert_eq!(decode_directory_name::<()>(&[1], DirectoryEntryReader::Primary).unwrap(), "..");
    assert_eq!(decode_directory_name::<()>(b"DIR", DirectoryEntryReader::Primary).unwrap(), "DIR");
    assert!(matches!(
        decode_directory_name::<()>(&[0, 0x41, 0], DirectoryEntryReader::Joliet),
        Err(ISOError::InvalidFs(_))
    ));
    assert!(matches!(
        decode_directory_name::<()>(&[0xc3], DirectoryEntryReader::Primary),
        Err(ISOError::Utf8)
    ));
}

#[test]
fn path_splitting() {
    assert_eq!(path_components("///a/b//c/1/"), vec!["a", "b", "c", "1"]);
    assert_eq!(path_components("a"), vec!["a"]);
    assert!(path_components("").is_empty());
    assert!(path_components("//").is_empty());
}

fn sample_record(id: &[u8]) -> Vec<u8> {
    let mut r = vec![0u8, 0, 40, 0, 0, 0, 0, 0, 0, 40, 0x88, 0x13, 0, 0, 0, 0, 0x13, 0x88];
    r.extend_from_slice(&[120, 5, 17, 10, 30, 0, 4]);
    r.extend_from_slice(&[0xe2, 0, 0, 1, 0, 0, 1, id.len() as u8]);
    r.extend_from_slice(id);
    r[0] = r.len() as u8;
    r
}

#[test]
fn record_header_fields() {
    let r = sample_record(b"F.TXT;1");
    let (h, id) = directory_record(&r).unwrap();
    assert_eq!(h.length as usize, r.len());
    assert_eq!(h.extent_loc, 40);
    assert_eq!(h.extent_length, 5000);
    assert_eq!(h.file_flags.bits, 0x82);
    assert!(h.file_flags.contains(DIRECTORY));
    assert_eq!(h.volume_sequence_number, 1);
    assert_eq!(id, b"F.TXT;1".to_vec());
    let (h2, text) = DirectoryEntryHeader::parse::<()>(&r).unwrap();
    assert_eq!(h2, h);
    assert_eq!(text, "F.TXT;1");
    assert_eq!(directory_record(&r[..30]), Err(ParseErrorKind::Eof));
    let (h3, t3) = directory_entry::<()>(&r).unwrap();
    assert_eq!(h3, h);
    assert_eq!(t3, "F.TXT;1");
    let bad = sample_record(&[0xff, 0xfe]);
    assert!(matches!(directory_entry::<()>(&bad), Err(ISOError::Utf8)));
}

#[test]
fn flags_drop_reserved_bits() {
    assert_eq!(FileFlags::from_bits_truncate(0xff).bits, 0x9f);
    assert!(!FileFlags::from_bits_truncate(0x01).contains(DIRECTORY));
}

#[test]
fn trimmed_text_field() {
    let b = b"CDROM   xyz";
    match take_string_trim::<()>(b, 0, 8) {
        Ok(s) => assert_eq!(s, "CDROM"),
        Err(_) => panic!("expected text"),
    }
    assert!(matches!(take_string_trim::<()>(b, 4, 8), Err(ISOError::Parse(ParseErrorKind::Eof))));
    assert!(matches!(take_string_trim::<()>(&[0xff, b' '], 0, 2), Err(ISOError::Utf8)));
}

#[test]
fn boot_record_and_unknown_types() {
    let mut b = vec![0u8; 2048];
    b[1..7].copy_from_slice(b"CD001\x01");
    b[7..39].copy_from_slice(&[b' '; 32]);
    b[7..14].copy_from_slice(b"EL TORI");
    b[39..71].copy_from_slice(&[b' '; 32]);
    b[71] = 9;
    match VolumeDescriptor::parse::<()>(&b) {
        Ok(Some(VolumeDescriptor::BootRecord(r))) => {
            assert_eq!(r.boot_system_identifier, "EL TORI");
            assert_eq!(r.boot_identifier, "");
            assert_eq!(r.data.len(), 1977);
            assert_eq!(r.data[0], 9);
        }
        _ => panic!("expected a boot record"),
    }
    b[0] = 3;
    assert!(matches!(VolumeDescriptor::parse::<()>(&b), Ok(None)));
    b[0] = 255;
    assert!(matches!(VolumeDescriptor::parse::<()>(&b), Ok(Some(VolumeDescriptor::VolumeDescriptorSetTerminator))));
    b[2] = b'X';
    assert!(matches!(VolumeDescriptor::parse::<()>(&b), Err(ISOError::InvalidFs(_))));
}

#[test]
fn block_scanning() {
    let mut b = vec![0u8; 2048];
    b[0] = 40;
    b[40] = 20;
    b[100] = 200;
    b[2040] = 34;
    assert_eq!(scan_block(&b, 0), BlockStep::Record(40));
    assert_eq!(scan_block(&b, 40), BlockStep::TooShort);
    assert_eq!(scan_block(&b, 41), BlockStep::EndOfBlock);
    assert_eq!(scan_block(&b, 100), BlockStep::Record(200));
    assert_eq!(scan_block(&b, 2040), BlockStep::Crosses);
    assert_eq!(scan_block(&b, 2048), BlockStep::EndOfBlock);
}

#[test]
fn read_spans() {
    assert_eq!(span_in_block(0, 5000), (0, 2048));
    assert_eq!(span_in_block(2050, 5000), (2, 2048));
    assert_eq!(span_in_block(4100, 5000), (4, 904));
    assert_eq!(span_in_block(4999, 5000), (903, 904));
}

#[test]
fn mount_state_keeps_descriptors() {
    let mut st = MountState::new();
    let mut b = vec![0u8; 2048];
    b[1..7].copy_from_slice(b"CD001\x01");
    b[0] = 3;
    st.absorb(VolumeDescriptor::parse::<()>(&b).unwrap());
    assert!(!st.terminated && st.primary.is_none() && st.joliet.is_none());
    b[0] = 255;
    st.absorb(VolumeDescriptor::parse::<()>(&b).unwrap());
    assert!(st.terminated);
}

#[test]
fn short_record_length_is_invalid_fs() {
    let mut r = sample_record(b"F.TXT;1");
    r[0] = 20;
    assert!(matches!(DirectoryEntryHeader::parse::<()>(&r), Err(ISOError::InvalidFs(_))));
}

#[test]
fn primary_fields_at_fixed_offsets() {
    let mut b = vec![b' '; 2048];
    b[0] = 1;
    b[1..7].copy_from_slice(b"CD001\x01");
    let mut root = sample_record(&[0]);
    root[25] = 2;
    root[0] = 34;
    root.push(0);
    b[156..190].copy_from_slice(&root[..34]);
    // an identifier length of 2 must not move the fields that follow
    b[188] = 2;
    b[157 + 33] = b'V';
    b[190..193].copy_from_slice(b"SET");
    b[702..705].copy_from_slice(b"CPY");
    b[738] = b'Z';
    b[739..742].copy_from_slice(b"ABS");
    b[776..779].copy_from_slice(b"BIB");
    for k in 0..4 {
        let p = 813 + 17 * k;
        b[p..p + 16].copy_from_slice(b"2020051710300000");
        b[p + 16] = 0;
    }
    b[881] = 1;
    match VolumeDescriptor::parse::<()>(&b) {
        Ok(Some(VolumeDescriptor::Primary(p))) => {
            assert_eq!(p.volume_set_identifier, "SET");
            assert_eq!(p.copyright_file_identifier.len(), 37);
            assert!(p.copyright_file_identifier.starts_with("CPY") && p.copyright_file_identifier.ends_with('Z'));
            assert_eq!(p.abstract_file_identifier, "ABS");
            assert_eq!(p.bibliographic_file_identifier, "BIB");
            assert_eq!(p.file_structure_version, 1);
            assert_eq!(p.creation_time.year, 2020);
        }
        Ok(_) => panic!("expected a Primary descriptor"),
        Err(e) => panic!("{:?}", e),
    }
}

#[test]
fn version_with_plus_sign() {
    let (n, v) = split_file_identifier(&units("A;+1")).unwrap();
    assert_eq!(n, units("A"));
    assert_eq!(v, 1);
    assert!(split_file_identifier(&units("A;+")).is_none());
    assert!(split_file_identifier(&units("A;-1")).is_none());
}

#[test]
fn block_read_outcomes() {
    assert!(block_read_outcome::<()>(Ok(2048)).is_ok());
    assert!(matches!(block_read_outcome::<()>(Ok(100)), Err(ISOError::ReadSize(2048, 100))));
    assert!(matches!(block_read_outcome::<u8>(Err(7)), Err(ISOError::Io(7))));
}

#[test]
fn descriptor_blocks() {
    assert_eq!(descriptor_lba::<()>(0).unwrap(), 16);
    assert_eq!(descriptor_lba::<()>(15).unwrap(), 31);
    assert!(matches!(descriptor_lba::<()>(16), Err(ISOError::InvalidFs(_))));
}
