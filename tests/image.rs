use iso9660::directory::DirectoryEntry;
use iso9660::error::ISOError;
use iso9660::fileref::{ErrorType, ISO9660Reader};
use iso9660::isofile::SeekFrom;
use iso9660::ISO9660;

const BLOCK: usize = 2048;

struct Mem {
    data: Vec<u8>,
    short_from: Option<u64>,
    fail: bool,
}

impl ErrorType for Mem {
    type Error = String;
}

impl ISO9660Reader for Mem {
    fn read_at(&mut self, buf: &mut [u8], lba: u64) -> Result<usize, String> {
        if self.fail {
            return Err("device gone".to_string());
        }
        let start = (lba as usize) * BLOCK;
        if start >= self.data.len() {
            return Ok(0);
        }
        let mut n = std::cmp::min(buf.len(), self.data.len() - start);
        if let Some(s) = self.short_from {
            if lba >= s {
                n = n / 2;
            }
        }
        buf[..n].copy_from_slice(&self.data[start..start + n]);
        Ok(n)
    }
}

fn both32(v: u32) -> Vec<u8> {
    let mut r = v.to_le_bytes().to_vec();
    r.extend_from_slice(&v.to_be_bytes());
    r
}

fn both16(v: u16) -> Vec<u8> {
    let mut r = v.to_le_bytes().to_vec();
    r.extend_from_slice(&v.to_be_bytes());
    r
}

fn record(extent: u32, len: u32, dir: bool, id: &[u8]) -> Vec<u8> {
    let mut r = vec![0u8; 2];
    r.extend(both32(extent));
    r.extend(both32(len));
    r.extend_from_slice(&[120, 5, 17, 10, 30, 0, 4]);
    r.push(if dir { 2 } else { 0 });
    r.push(0);
    r.push(0);
    r.extend(both16(1));
    r.push(id.len() as u8);
    r.extend_from_slice(id);
    if id.len() % 2 == 0 {
        r.push(0);
    }
    r[0] = r.len() as u8;
    r
}

fn ucs2(s: &str) -> Vec<u8> {
    s.encode_utf16().flat_map(|u| u.to_be_bytes()).collect()
}

struct Image {
    data: Vec<u8>,
}

impl Image {
    fn new(blocks: usize) -> Image {
        Image { data: vec![0u8; blocks * BLOCK] }
    }

    fn put(&mut self, lba: usize, off: usize, bytes: &[u8]) {
        let p = lba * BLOCK + off;
        self.data[p..p + bytes.len()].copy_from_slice(bytes);
    }

    /// Writes the records into the extent at `lba`, never across a block.
    fn dir(&mut self, lba: usize, records: &[Vec<u8>]) -> u32 {
        let mut block = lba;
        let mut off = 0;
        for r in records {
            if off + r.len() > BLOCK {
                block += 1;
                off = 0;
            }
            self.put(block, off, r);
            off += r.len();
        }
        ((block - lba + 1) * BLOCK) as u32
    }

    fn descriptor(&mut self, lba: usize, kind: u8, root: &[u8], escape: &[u8]) {
        let mut d = vec![kind];
        d.extend_from_slice(b"CD001\x01");
        d.push(0);
        d.extend_from_slice(&[b' '; 64]);
        d.extend_from_slice(&[0; 8]);
        d.extend(both32(64));
        d.extend_from_slice(&[0; 32]);
        d.extend(both16(1));
        d.extend(both16(1));
        d.extend(both16(2048));
        d.extend(both32(10));
        d.extend_from_slice(&18u32.to_le_bytes());
        d.extend_from_slice(&0u32.to_le_bytes());
        d.extend_from_slice(&[0; 8]);
        assert_eq!(d.len(), 156);
        d.extend_from_slice(root);
        d.extend_from_slice(&[b' '; 623]);
        for _ in 0..4 {
            d.extend_from_slice(b"2020051710300000");
            d.push(0);
        }
        d.push(1);
        self.put(lba, 0, &d);
        if !escape.is_empty() {
            self.put(lba, 88, escape);
        }
    }

    fn terminator(&mut self, lba: usize) {
        self.put(lba, 0, &[255, b'C', b'D', b'0', b'0', b'1', 1]);
    }

    fn mount(self) -> ISO9660<Mem> {
        ISO9660::new(Mem { data: self.data, short_from: None, fail: false }).unwrap()
    }
}

fn file_content() -> Vec<u8> {
    (0..5000u32).map(|i| (i * 7 % 251) as u8).collect()
}

/// Root at 20: ".", "..", "A", "GPL_3_0.TXT"; A/B/C at 21, 22, 23..26 with
/// 200 files; the file's data at 40.
fn ascii_image() -> Image {
    let mut img = Image::new(64);
    let content = file_content();
    img.put(40, 0, &content);
    let mut c = vec![record(23, 0, true, &[0]), record(22, 2048, true, &[1])];
    for i in 1..=200 {
        c.push(record(40, 10, false, format!("{};1", i).as_bytes()));
    }
    // the records are sized so that the directory takes four blocks
    let mut padded = Vec::new();
    for r in c {
        let mut r = r;
        let extra = 40 - r.len() % 40;
        r.extend(vec![0u8; extra]);
        r[0] = r.len() as u8;
        padded.push(r);
    }
    let c_len = img.dir(23, &padded);
    img.dir(22, &[record(22, 2048, true, &[0]), record(21, 2048, true, &[1]), record(23, c_len, true, b"C")]);
    img.dir(21, &[record(21, 2048, true, &[0]), record(20, 2048, true, &[1]), record(22, 2048, true, b"B")]);
    img.dir(
        20,
        &[
            record(20, 2048, true, &[0]),
            record(20, 2048, true, &[1]),
            record(21, 2048, true, b"A"),
            record(40, 5000, false, b"GPL_3_0.TXT;1"),
        ],
    );
    img.descriptor(16, 1, &record(20, 2048, true, &[0]), b"");
    img.terminator(17);
    img
}

fn joliet_image() -> Image {
    let mut img = ascii_image();
    img.dir(
        30,
        &[
            record(30, 2048, true, &[0]),
            record(30, 2048, true, &[1]),
            record(21, 2048, true, &ucs2("A")),
            record(40, 5000, false, &ucs2("GPL_3_0.TXT;1")),
            record(40, 5000, false, &ucs2("GPL_LONG_FILENAME.TXT;1")),
        ],
    );
    img.descriptor(17, 2, &record(30, 2048, true, &[0]), b"%/E");
    img.terminator(18);
    img
}

fn names(fs: &ISO9660<Mem>) -> Vec<String> {
    let mut it = fs.root.contents();
    let mut out = Vec::new();
    while let Some(e) = it.next() {
        out.push(e.unwrap().identifier().to_string());
    }
    out
}

#[test]
fn root_listing_ascii() {
    let fs = ascii_image().mount();
    assert_eq!(names(&fs), vec![".", "..", "A", "GPL_3_0.TXT"]);
}

#[test]
fn root_listing_joliet() {
    let fs = joliet_image().mount();
    assert_eq!(names(&fs), vec![".", "..", "A", "GPL_3_0.TXT", "GPL_LONG_FILENAME.TXT"]);
}

#[test]
fn listing_starts_with_dot_entries() {
    let fs = ascii_image().mount();
    let dir = match fs.open("a/b/c").unwrap() {
        Some(DirectoryEntry::Directory(d)) => d,
        _ => panic!("Not a directory"),
    };
    let mut it = dir.contents();
    assert_eq!(it.next().unwrap().unwrap().identifier(), ".");
    assert_eq!(it.next().unwrap().unwrap().identifier(), "..");
}

fn open_file(fs: &ISO9660<Mem>, path: &str) -> iso9660::isofile::ISOFile<Mem> {
    match fs.open(path).unwrap() {
        Some(DirectoryEntry::File(f)) => f,
        _ => panic!("Not a file"),
    }
}

#[test]
fn large_file_reads_whole() {
    let fs = ascii_image().mount();
    let file = open_file(&fs, "gpl_3_0.txt");
    assert_eq!(file.size(), 5000);
    assert_eq!(file.version, 1);
    let mut reader = file.read();
    let mut buf = vec![0; file.size() as usize];
    assert_eq!(reader.read(&mut buf).unwrap(), 5000);
    assert_eq!(buf, file_content());
    assert_eq!(reader.read(&mut buf).unwrap(), 0);
}

#[test]
fn piecewise_reads_match_whole_read() {
    let fs = ascii_image().mount();
    let file = open_file(&fs, "GPL_3_0.TXT");
    let mut reader = file.read();
    let mut got = Vec::new();
    for len in [1usize, 2047, 3, 2048, 100, 4000] {
        let mut buf = vec![0u8; len];
        let n = reader.read(&mut buf).unwrap();
        got.extend_from_slice(&buf[..n]);
    }
    assert_eq!(got, file_content());
}

#[test]
fn seek_then_read_matches_skip() {
    let fs = ascii_image().mount();
    let file = open_file(&fs, "GPL_3_0.TXT");
    let mut r1 = file.read();
    assert_eq!(r1.seek(SeekFrom::Start(3000)).unwrap(), 3000);
    let mut a = vec![0u8; 100];
    assert_eq!(r1.read(&mut a).unwrap(), 100);
    let mut r2 = file.read();
    r2.seek(SeekFrom::Start(1000)).unwrap();
    let mut skip = vec![0u8; 2000];
    assert_eq!(r2.read(&mut skip).unwrap(), 2000);
    let mut b = vec![0u8; 100];
    r2.read(&mut b).unwrap();
    assert_eq!(a, b);
    assert_eq!(a, file_content()[3000..3100].to_vec());
}

#[test]
fn seek_from_end_and_saturation() {
    let fs = ascii_image().mount();
    let file = open_file(&fs, "GPL_3_0.TXT");
    let mut r = file.read();
    assert_eq!(r.seek(SeekFrom::End(-10)).unwrap(), 4990);
    let mut buf = vec![0u8; 64];
    assert_eq!(r.read(&mut buf).unwrap(), 10);
    assert_eq!(r.seek(SeekFrom::End(-6000)).unwrap(), 0);
    assert_eq!(r.position(), 0);
    assert_eq!(r.seek(SeekFrom::Current(-1)).unwrap(), 0);
    assert_eq!(r.seek(SeekFrom::End(10)).unwrap(), 5010);
    assert_eq!(r.read(&mut buf).unwrap(), 0);
    assert_eq!(r.seek(SeekFrom::Current(5)).unwrap(), 5015);
}

#[test]
fn extra_slashes_resolve() {
    let fs = ascii_image().mount();
    for p in ["///a/b/c/1", "a/b/c/1///", "a/b//c/1", "/a/b//c////1/"] {
        match fs.open(p).unwrap() {
            Some(e) => assert_eq!(e.identifier(), "1"),
            None => panic!("missing {}", p),
        }
    }
}

#[test]
fn large_directory_count() {
    let fs = ascii_image().mount();
    let dir = match fs.open("a/b/c").unwrap() {
        Some(DirectoryEntry::Directory(d)) => d,
        _ => panic!("Not a directory"),
    };
    let mut it = dir.contents();
    let mut n = 0;
    while let Some(e) = it.next() {
        e.unwrap();
        n += 1;
    }
    assert_eq!(n, 202);
    assert_eq!(dir.block_count(), 4);
}

#[test]
fn missing_path_is_none() {
    let fs = ascii_image().mount();
    assert!(fs.open("no/such/file").unwrap().is_none());
    assert!(fs.open("gpl_3_0.txt/x").unwrap().is_none());
}

#[test]
fn empty_path_is_root() {
    let fs = ascii_image().mount();
    match fs.open("///").unwrap() {
        Some(DirectoryEntry::Directory(d)) => assert_eq!(d.header.extent_loc, 20),
        _ => panic!("Not the root"),
    }
}

#[test]
fn find_ignores_ascii_case() {
    let fs = joliet_image().mount();
    assert!(fs.root.find("GPL_LONG_FILENAME.TXT").unwrap().is_some());
    assert!(fs.root.find("gpl_long_filename.txt").unwrap().is_some());
    assert!(fs.root.find("gpl_long_filename.tx").unwrap().is_none());
}

#[test]
fn header_of_entry() {
    let fs = ascii_image().mount();
    let e = fs.open("GPL_3_0.TXT").unwrap().unwrap();
    let h = e.header();
    assert_eq!(h.extent_loc, 40);
    assert_eq!(h.extent_length, 5000);
    assert_eq!(h.time.year, 2020);
    assert_eq!(h.time.offset, 4);
    assert_eq!(fs.primary.logical_block_size, 2048);
    assert_eq!(fs.primary.volume_space_size, 64);
    assert_eq!(fs.primary.creation_time.month, 5);
}

#[test]
fn missing_primary_is_invalid() {
    let mut img = Image::new(20);
    img.terminator(16);
    match ISO9660::new(Mem { data: img.data, short_from: None, fail: false }) {
        Err(ISOError::InvalidFs(_)) => {}
        _ => panic!("expected InvalidFs"),
    }
}

#[test]
fn no_terminator_is_invalid() {
    let mut img = ascii_image();
    for lba in 17..40 {
        img.put(lba, 0, &[3, b'C', b'D', b'0', b'0', b'1', 1]);
    }
    match ISO9660::new(Mem { data: img.data, short_from: None, fail: false }) {
        Err(ISOError::InvalidFs(_)) => {}
        _ => panic!("expected InvalidFs"),
    }
}

#[test]
fn short_block_read_is_read_size() {
    let img = ascii_image();
    match ISO9660::new(Mem { data: img.data, short_from: Some(16), fail: false }) {
        Err(ISOError::ReadSize(2048, 1024)) => {}
        _ => panic!("expected ReadSize"),
    }
}

#[test]
fn reader_failure_is_io() {
    let img = ascii_image();
    match ISO9660::new(Mem { data: img.data, short_from: None, fail: true }) {
        Err(ISOError::Io(e)) => assert_eq!(e, "device gone"),
        _ => panic!("expected Io"),
    }
}

#[test]
fn bad_tag_is_invalid_fs() {
    let mut img = ascii_image();
    img.put(16, 1, b"XD001");
    match ISO9660::new(Mem { data: img.data, short_from: None, fail: false }) {
        Err(ISOError::InvalidFs(_)) => {}
        _ => panic!("expected InvalidFs"),
    }
}

#[test]
fn short_record_stops_walk() {
    let mut img = ascii_image();
    img.put(20, 0, &[20]);
    let fs = img.mount();
    let mut it = fs.root.contents();
    match it.next() {
        Some(Err(ISOError::InvalidFs(_))) => {}
        _ => panic!("expected InvalidFs"),
    }
    assert!(it.next().is_none());
}

#[test]
fn bad_version_is_parse_int() {
    let mut img = ascii_image();
    let r = record(40, 5000, false, b"X.TXT;A");
    img.dir(20, &[record(20, 2048, true, &[0]), record(20, 2048, true, &[1]), r]);
    let fs = img.mount();
    let mut it = fs.root.contents();
    it.next();
    it.next();
    match it.next() {
        Some(Err(ISOError::ParseInt)) => {}
        _ => panic!("expected ParseInt"),
    }
}

#[test]
fn bad_utf8_identifier() {
    let mut img = ascii_image();
    let r = record(40, 5000, false, &[0xff, 0xfe, b';', b'1']);
    img.dir(20, &[record(20, 2048, true, &[0]), record(20, 2048, true, &[1]), r]);
    let fs = img.mount();
    let mut it = fs.root.contents();
    it.next();
    it.next();
    match it.next() {
        Some(Err(ISOError::Utf8)) => {}
        _ => panic!("expected Utf8"),
    }
}

#[test]
fn version_and_trailing_dot() {
    let mut img = ascii_image();
    img.dir(
        20,
        &[
            record(20, 2048, true, &[0]),
            record(20, 2048, true, &[1]),
            record(40, 5000, false, b"README.;7"),
            record(40, 5000, false, b"PLAIN"),
        ],
    );
    let fs = img.mount();
    match fs.open("README").unwrap() {
        Some(DirectoryEntry::File(f)) => {
            assert_eq!(f.identifier, "README");
            assert_eq!(f.version, 7);
        }
        _ => panic!("Not a file"),
    }
    match fs.open("PLAIN").unwrap() {
        Some(DirectoryEntry::File(f)) => assert_eq!(f.version, 1),
        _ => panic!("Not a file"),
    }
}

#[test]
fn find_in_continues_a_walk() {
    let fs = ascii_image().mount();
    let mut it = fs.root.contents();
    let a = iso9660::directory::find_in(&mut it, "a").unwrap().unwrap();
    assert_eq!(a.identifier(), "A");
    // the walk goes on after "A": "." is behind it
    assert!(iso9660::directory::find_in(&mut it, ".").unwrap().is_none());
    assert!(it.next().is_none());
}
