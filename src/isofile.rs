//! Files and their byte streams.
use vstd::prelude::*;
use crate::date_time::Timestamp;
use crate::directory_entry::DirectoryEntryHeader;
use crate::error::ISOError;
use crate::fileref::{FileRef, ISO9660Reader, BLOCK_SIZE};
use crate::identifier::{
    at_most_once, decode_identifier, decode_units, file_name_is_clean, file_name_of,
    file_name_version, identifier_units, split_file_identifier, stem, unit_bytes, units_of,
    DirectoryEntryReader, DOT, SEMICOLON,
};
use vstd::utf8::{decode_utf8, decode_utf8_encode_utf8, encode_scalar, encode_utf8, valid_utf8};

verus! {

/// Where a seek is counted from.
#[derive(Clone, Copy, Debug, PartialEq, Eq, Structural)]
pub enum SeekFrom {
    Start(u64),
    End(i64),
    Current(i64),
}

/// The offset a seek asks for, before it is held to the range of a cursor.
pub open spec fn seek_request(pos: SeekFrom, cursor: int, size: int) -> int {
    match pos {
        SeekFrom::Start(n) => n as int,
        SeekFrom::End(n) => size + n,
        SeekFrom::Current(n) => cursor + n,
    }
}

/// The cursor after a seek: a negative offset saturates to zero; one past
/// the end of the file is kept (as far as a `u64` goes).
pub open spec fn seek_target(pos: SeekFrom, cursor: int, size: int) -> int {
    let t = seek_request(pos, cursor, size);
    if t < 0 {
        0
    } else if t > u64::MAX {
        u64::MAX as int
    } else {
        t
    }
}

/// How many bytes a read into a buffer of `len` bytes yields: as many as
/// fit, up to the end of the file.
pub open spec fn read_count(cursor: int, size: int, len: int) -> int {
    if cursor >= size {
        0
    } else if len < size - cursor {
        len
    } else {
        size - cursor
    }
}

/// The bytes of the block under `cursor` that belong to a file of `size`
/// bytes, from the cursor on: a start and an end offset in the block.
pub open spec fn block_span(cursor: int, size: int) -> (int, int) {
    let rest = size - (cursor / 2048) * 2048;
    (cursor % 2048, if rest < 2048 { rest } else { 2048 })
}

/// The span of the block under `cursor` that a read copies; see
/// [`block_span`]. Not empty while the cursor is inside the file.
pub fn span_in_block(cursor: u64, size: u64) -> (r: (usize, usize))
    requires
        cursor < size,
    ensures
        r.0 == block_span(cursor as int, size as int).0,
        r.1 == block_span(cursor as int, size as int).1,
        r.0 < r.1 <= 2048,
{
    let start: usize = (cursor % 2048) as usize;
    let rest: u64 = size - (cursor / 2048) * 2048;
    let end: usize = if rest < 2048 {
        rest as usize
    } else {
        2048
    };
    assert(start < end) by (nonlinear_arith)
        requires
            cursor < size,
            start == cursor % 2048,
            rest == size - (cursor / 2048) * 2048,
            end == (if rest < 2048 { rest } else { 2048 }),
    ;
    (start, end)
}

/// The blocks `a`, `a + 1`, ..., `b - 1`.
pub open spec fn lba_range(a: int, b: int) -> Seq<int> {
    Seq::new(if b > a { (b - a) as nat } else { 0 }, |k: int| a + k)
}

/// The blocks a read of `n` bytes from `c` fetches from the device: those
/// from the cursor's block to the last byte's, the cached one left out.
pub open spec fn loads_for(cached: Option<int>, first: int, c: int, n: int) -> Seq<int> {
    if n <= 0 {
        seq![]
    } else {
        let b0 = block_of(first, c);
        lba_range(
            if cached == Some(b0) {
                b0 + 1
            } else {
                b0
            },
            block_of(first, c + n - 1) + 1,
        )
    }
}

proof fn lemma_next_block(x: int)
    requires
        x >= 0,
    ensures
        (x + 1) / 2048 <= x / 2048 + 1,
{
    vstd::arithmetic::div_mod::lemma_fundamental_div_mod(x, 2048);
    let q = x / 2048;
    let r = x % 2048;
    if r + 1 < 2048 {
        vstd::arithmetic::div_mod::lemma_fundamental_div_mod_converse(x + 1, 2048, q, r + 1);
    } else {
        vstd::arithmetic::div_mod::lemma_fundamental_div_mod_converse(x + 1, 2048, q + 1, 0);
    }
}

/// The stream has read the block of byte `p`, and `b` is that byte.
pub open spec fn holds_stream_byte(blocks: Map<int, Seq<u8>>, first: int, p: int, b: u8) -> bool {
    blocks.contains_key(block_of(first, p)) && b == blocks[block_of(first, p)][p % 2048]
}

/// The block that holds byte `p` of a file whose extent starts at block
/// `first`.
pub open spec fn block_of(first: int, p: int) -> int {
    first + p / 2048
}

proof fn lemma_div_mono(a: int, b: int)
    requires
        0 <= a <= b,
    ensures
        a / 2048 <= b / 2048,
{
    vstd::arithmetic::div_mod::lemma_div_is_ordered(a, b, 2048);
}

/// A file of the image.
#[verifier::reject_recursive_types(T)]
pub struct ISOFile<T: ISO9660Reader> {
    pub header: DirectoryEntryHeader,
    pub identifier: String,
    // File version; ranges from 1 to 32767
    pub version: u16,
    pub file: FileRef<T>,
}

/// A file's name and version from the bytes of its identifier: the version
/// suffix and one trailing dot are dropped, then the name is decoded.
pub open spec fn file_identifier(raw: Seq<u8>, reader: DirectoryEntryReader) -> Option<(Seq<char>, u16)> {
    match identifier_units(raw, reader) {
        None => None,
        Some(u) => match file_name_version(u) {
            None => None,
            Some((n, v)) => match decode_units(n, reader) {
                None => None,
                Some(t) => Some((t, v)),
            },
        },
    }
}

/// An error from reading a file's identifier is of the kind that the
/// identifier calls for: an odd Joliet length breaks the file system, a bad
/// version suffix is a number error, undecodable text a UTF-8 error.
pub open spec fn file_error_fits<V, E>(r: Result<V, ISOError<E>>, raw: Seq<u8>, reader: DirectoryEntryReader) -> bool {
    match identifier_units(raw, reader) {
        None => r is Err ==> r matches Err(ISOError::InvalidFs(_)),
        Some(u) => match file_name_version(u) {
            None => r is Err ==> r matches Err(ISOError::ParseInt),
            Some((n, _)) => r is Err ==> r matches Err(ISOError::Utf8),
        },
    }
}

impl<T: ISO9660Reader> ISOFile<T> {
    /// A file from its directory record: the header and the bytes of its
    /// identifier. Files have a version, which follows the last `;` of the
    /// identifier (1 where there is none); a name without an extension ends
    /// in a `.`, which is dropped.
    pub fn new(
        header: DirectoryEntryHeader,
        raw: &[u8],
        file: FileRef<T>,
        reader: DirectoryEntryReader,
    ) -> (r: Result<ISOFile<T>, ISOError<T::Error>>)
        ensures
            r is Ok <==> file_identifier(raw@, reader) is Some,
            r matches Ok(f) ==> f.header == header && file_identifier(raw@, reader) == Some(
                (f.identifier@, f.version),
            ),
            file_error_fits(r, raw@, reader),
    {
        let units = match units_of(raw, reader) {
            Some(u) => u,
            None => return Err(ISOError::InvalidFs("odd length of a Joliet identifier")),
        };
        let (name, version) = match split_file_identifier(&units) {
            Some(v) => v,
            None => return Err(ISOError::ParseInt),
        };
        match decode_identifier(&name, reader) {
            Some(identifier) => Ok(ISOFile { header, identifier, version, file }),
            None => Err(ISOError::Utf8),
        }
    }

    pub fn size(&self) -> (r: u32)
        ensures
            r == self.header.extent_length,
    {
        self.header.extent_length
    }

    pub fn time(&self) -> (r: Timestamp)
        ensures
            r == self.header.time,
    {
        self.header.time
    }

    /// A byte stream over the file, at its start.
    pub fn read(&self) -> (r: ISOFileReader<T>)
        ensures
            r.wf(),
            r.cursor() == 0,
            r.file_size() == self.header.extent_length,
            r.first_lba() == self.header.extent_loc,
            r.cached_lba() is None,
            r.blocks_read() == Map::<int, Seq<u8>>::empty(),
            r.lbas_loaded() == Seq::<int>::empty(),
    {
        ISOFileReader {
            buf: vec![0u8; BLOCK_SIZE],
            buf_lba: None,
            seek: 0,
            start_lba: self.header.extent_loc,
            size: self.header.extent_length as u64,
            file: self.file.clone(),
            blocks: Ghost(Map::empty()),
            loads: Ghost(Seq::empty()),
        }
    }
}

/// A seekable byte stream over a file's extent, with a one-block cache.
#[verifier::reject_recursive_types(T)]
pub struct ISOFileReader<T: ISO9660Reader> {
    buf: Vec<u8>,
    buf_lba: Option<u64>,
    seek: u64,
    start_lba: u32,
    size: u64,
    file: FileRef<T>,
    /// The bytes this stream last read for each block.
    blocks: Ghost<Map<int, Seq<u8>>>,
    /// The blocks this stream has read from the device, in order.
    loads: Ghost<Seq<int>>,
}

impl<T: ISO9660Reader> ISOFileReader<T> {
    /// The staging buffer holds one block, the block of the cache tag as it
    /// was read; the file fits in 32 bits.
    pub closed spec fn wf(&self) -> bool {
        &&& self.buf@.len() == BLOCK_SIZE
        &&& self.size <= u32::MAX
        &&& self.buf_lba matches Some(l) ==> self.blocks@.contains_key(l as int)
            && self.blocks@[l as int] == self.buf@
    }

    /// The block that the staging buffer holds, if any.
    pub closed spec fn cached_lba(&self) -> Option<int> {
        match self.buf_lba {
            Some(l) => Some(l as int),
            None => None,
        }
    }

    /// The bytes of the staging buffer.
    pub closed spec fn cached_block(&self) -> Seq<u8> {
        self.buf@
    }

    /// The blocks this stream has read from the device, in order.
    pub closed spec fn lbas_loaded(&self) -> Seq<int> {
        self.loads@
    }

    /// The bytes this stream last read for each block it has read.
    pub closed spec fn blocks_read(&self) -> Map<int, Seq<u8>> {
        self.blocks@
    }

    pub closed spec fn cursor(&self) -> int {
        self.seek as int
    }

    pub closed spec fn file_size(&self) -> int {
        self.size as int
    }

    pub closed spec fn first_lba(&self) -> int {
        self.start_lba as int
    }

    /// The cursor, in bytes from the start of the file.
    pub fn position(&self) -> (r: u64)
        ensures
            r == self.cursor(),
    {
        self.seek
    }

    /// Fills `buf` from the cursor on, up to the end of the file, and moves
    /// the cursor past what was read. Returns the number of bytes read, zero
    /// only where the cursor is at or past the end or `buf` is empty. Byte
    /// `i` comes from block `first + (cursor + i) / 2048`, at offset
    /// `(cursor + i) % 2048`; the cached block is not read again, and each
    /// other block is read once. A failed or short block read is an error.
    pub fn read(&mut self, buf: &mut [u8]) -> (r: Result<usize, ISOError<T::Error>>)
        requires
            old(self).wf(),
        ensures
            final(self).wf(),
            final(self).file_size() == old(self).file_size(),
            final(self).first_lba() == old(self).first_lba(),
            final(buf)@.len() == old(buf)@.len(),
            r matches Ok(n) ==> n == read_count(
                old(self).cursor(),
                old(self).file_size(),
                old(buf)@.len() as int,
            ),
            r matches Ok(n) ==> final(self).cursor() == old(self).cursor() + n,
            r is Err ==> final(self).cursor() == old(self).cursor(),
            old(self).cursor() >= old(self).file_size() ==> r == Ok::<usize, ISOError<T::Error>>(0),
            old(buf)@.len() == 0 ==> r == Ok::<usize, ISOError<T::Error>>(0),
            r matches Ok(n) ==> forall|i: int|
                n <= i < old(buf)@.len() ==> #[trigger] final(buf)@[i] == old(buf)@[i],
            r matches Ok(n) ==> forall|i: int|
                0 <= i < n ==> holds_stream_byte(
                    final(self).blocks_read(),
                    old(self).first_lba(),
                    old(self).cursor() + i,
                    #[trigger] final(buf)@[i],
                ),
            r matches Ok(n) ==> (n > 0 ==> final(self).cached_lba() == Some(
                block_of(old(self).first_lba(), old(self).cursor() + n - 1),
            )),
            old(self).cached_lba() == Some(block_of(old(self).first_lba(), old(self).cursor()))
                ==> final(self).blocks_read()[block_of(old(self).first_lba(), old(self).cursor())]
                == old(self).cached_block(),
            r matches Err(e) ==> (e is Io || (e matches ISOError::ReadSize(want, got) && want
                == BLOCK_SIZE && got < BLOCK_SIZE)),
            r matches Ok(n) ==> final(self).lbas_loaded() == old(self).lbas_loaded() + loads_for(
                old(self).cached_lba(),
                old(self).first_lba(),
                old(self).cursor(),
                n as int,
            ),
            old(self).cached_lba() == Some(block_of(old(self).first_lba(), old(self).cursor()))
                && old(self).cursor() % 2048 + read_count(
                old(self).cursor(),
                old(self).file_size(),
                old(buf)@.len() as int,
            ) <= 2048 ==> r is Ok,
    {
        let ghost s0 = self.seek as int;
        let ghost first = self.start_lba as int;
        let ghost b0 = block_of(first, s0);
        let ghost start_b = if self.cached_lba() == Some(b0) {
            b0 + 1
        } else {
            b0
        };
        let ghost count = read_count(s0, self.size as int, buf@.len() as int);
        let ghost hit = self.cached_lba() == Some(b0) && s0 % 2048 + count <= 2048;
        let mut seek: u64 = self.seek;
        let mut written: usize = 0;
        while written < buf.len() && seek < self.size
            invariant
                self.wf(),
                self.seek == old(self).seek,
                self.size == old(self).size,
                self.start_lba == old(self).start_lba,
                s0 == self.seek,
                first == self.start_lba,
                buf@.len() == old(buf)@.len(),
                written <= buf@.len(),
                self.seek <= seek,
                seek - self.seek == written,
                self.seek >= self.size ==> seek == self.seek,
                self.seek < self.size ==> seek <= self.size,
                forall|j: int| written <= j < buf@.len() ==> #[trigger] buf@[j] == old(buf)@[j],
                forall|j: int|
                    0 <= j < written ==> holds_stream_byte(self.blocks@, first, s0 + j, #[trigger] buf@[j]),
                forall|j: int| 0 <= j < written ==> #[trigger] ((s0 + j) / 2048) <= (seek - 1) / 2048,
                written > 0 ==> (self.buf_lba matches Some(l) && l == block_of(first, seek - 1)),
                written == 0 ==> self.buf_lba == old(self).buf_lba && self.blocks@ == old(
                    self,
                ).blocks@,
                (old(self).buf_lba matches Some(l) && l == block_of(first, s0)) ==> self.blocks@[block_of(first, s0)] == old(self).buf@,
                b0 == block_of(first, s0),
                start_b == (if old(self).cached_lba() == Some(b0) { b0 + 1 } else { b0 }),
                count == read_count(s0, self.size as int, buf@.len() as int),
                hit == (old(self).cached_lba() == Some(b0) && s0 % 2048 + count <= 2048),
                hit ==> self.buf_lba == old(self).buf_lba,
                written == 0 ==> self.loads@ == old(self).loads@,
                written > 0 ==> self.loads@ == old(self).loads@ + lba_range(
                    start_b,
                    block_of(first, seek - 1) + 1,
                ),
            decreases buf@.len() - written,
        {
            let ghost seek0 = seek as int;
            proof {
                if written > 0 {
                    lemma_div_mono(seek - 1, seek as int);
                    lemma_next_block(seek - 1);
                    assert(((s0 + 0) / 2048) <= (seek - 1) / 2048);
                }
                if hit {
                    vstd::arithmetic::div_mod::lemma_fundamental_div_mod(s0, 2048);
                    vstd::arithmetic::div_mod::lemma_fundamental_div_mod_converse(
                        seek as int,
                        2048,
                        s0 / 2048,
                        s0 % 2048 + written,
                    );
                }
            }
            let lba: u64 = self.start_lba as u64 + seek / 2048;
            if self.buf_lba != Some(lba) {
                match self.file.read_block(&mut self.buf, lba) {
                    Ok(()) => {},
                    Err(e) => {
                        self.buf_lba = None;
                        return Err(e);
                    },
                }
                proof {
                    if written > 0 {
                        assert(((s0 + 0) / 2048) <= (seek - 1) / 2048);
                    }
                    assert forall|j: int| 0 <= j < written implies #[trigger] block_of(first, s0 + j) != lba as int by {
                        assert(((s0 + j) / 2048) <= (seek - 1) / 2048);
                    }
                }
                self.buf_lba = Some(lba);
                let ghost before = self.blocks@;
                self.blocks = Ghost(self.blocks@.insert(lba as int, self.buf@));
                let ghost before_loads = self.loads@;
                self.loads = Ghost(self.loads@.push(lba as int));
                proof {
                    if written == 0 {
                        assert(self.loads@ =~= old(self).loads@ + lba_range(start_b, lba + 1));
                    } else {
                        assert(lba_range(start_b, block_of(first, seek - 1) + 1).push(lba as int)
                            =~= lba_range(start_b, lba + 1));
                        assert(self.loads@ =~= old(self).loads@ + lba_range(start_b, lba + 1));
                    }
                }
                proof {
                    assert forall|j: int|
                        0 <= j < written implies holds_stream_byte(self.blocks@, first, s0 + j, #[trigger] buf@[j]) by {
                        let b = buf@[j];
                        assert(before.contains_key(block_of(first, s0 + j)));
                        assert(block_of(first, s0 + j) != lba as int);
                    }
                }
            }
            proof {
                if written == 0 && self.buf_lba == old(self).buf_lba {
                    assert(lba_range(start_b, lba + 1) =~= Seq::<int>::empty());
                    assert(self.loads@ =~= old(self).loads@ + lba_range(start_b, lba + 1));
                }
            }
            assert(self.loads@ == old(self).loads@ + lba_range(start_b, lba + 1));
            let ghost loads_now = self.loads@;
            let ghost blk = seek / 2048;
            let (start, end) = span_in_block(seek, self.size);
            let mut i: usize = start;
            let ghost w0 = written;
            proof {
                vstd::arithmetic::div_mod::lemma_fundamental_div_mod(seek as int, 2048);
            }
            while i < end && written < buf.len()
                invariant
                    i - start == written - w0,
                    w0 < buf@.len(),
                    self.wf(),
                    self.seek == old(self).seek,
                    s0 == self.seek,
                    first == self.start_lba,
                    start <= i <= end <= BLOCK_SIZE,
                    buf@.len() == old(buf)@.len(),
                    written <= buf@.len(),
                    seek + (end - i) <= self.size,
                    self.seek <= seek,
                    seek - self.seek == written,
                    seek == blk * 2048 + i,
                    self.buf_lba == Some(lba),
                    lba == first + blk,
                    forall|j: int| written <= j < buf@.len() ==> #[trigger] buf@[j] == old(buf)@[j],
                    forall|j: int|
                        0 <= j < written ==> holds_stream_byte(self.blocks@, first, s0 + j, #[trigger] buf@[j]),
                    forall|j: int| 0 <= j < written ==> #[trigger] ((s0 + j) / 2048) <= blk,
                    written > w0 ==> (seek - 1) / 2048 == blk,
                    self.loads@ == loads_now,
                    loads_now == old(self).loads@ + lba_range(start_b, lba + 1),
                    (old(self).buf_lba matches Some(l) && l == block_of(first, s0)) ==> self.blocks@[block_of(first, s0)] == old(self).buf@,
                decreases end - i,
            {
                proof {
                    vstd::arithmetic::div_mod::lemma_fundamental_div_mod_converse(
                        seek as int,
                        2048,
                        blk as int,
                        i as int,
                    );
                }
                assert(block_of(first, s0 + written) == lba as int);
                assert((s0 + written) % 2048 == i);
                assert(self.blocks@[lba as int] == self.buf@);
                buf[written] = self.buf[i];
                written += 1;
                seek += 1;
                i += 1;
            }
        }
        self.seek = seek;
        Ok(written)
    }

    /// Moves the cursor; see [`seek_target`]. Never fails: a negative
    /// offset is taken as zero. The cached block stays cached.
    pub fn seek(&mut self, pos: SeekFrom) -> (r: Result<u64, T::Error>)
        requires
            old(self).wf(),
        ensures
            final(self).wf(),
            final(self).file_size() == old(self).file_size(),
            final(self).first_lba() == old(self).first_lba(),
            final(self).cursor() == seek_target(pos, old(self).cursor(), old(self).file_size()),
            final(self).cached_lba() == old(self).cached_lba(),
            final(self).cached_block() == old(self).cached_block(),
            final(self).blocks_read() == old(self).blocks_read(),
            r == Ok::<u64, T::Error>(final(self).cursor() as u64),
    {
        let t: i128 = match pos {
            SeekFrom::Start(n) => n as i128,
            SeekFrom::End(n) => self.size as i128 + n as i128,
            SeekFrom::Current(n) => self.seek as i128 + n as i128,
        };
        let c: u64 = if t < 0 {
            0
        } else if t > u64::MAX as i128 {
            u64::MAX
        } else {
            t as u64
        };
        self.seek = c;
        Ok(c)
    }
}

/// Total of the buffer lengths.
pub open spec fn total_len(lens: Seq<nat>) -> int
    decreases lens.len(),
{
    if lens.len() == 0 {
        0
    } else {
        lens[0] + total_len(lens.drop_first())
    }
}

/// How many bytes a run of reads with buffers of these lengths yields, from
/// `cursor` on.
pub open spec fn bytes_read(cursor: int, size: int, lens: Seq<nat>) -> int
    decreases lens.len(),
{
    if lens.len() == 0 {
        0
    } else {
        let k = read_count(cursor, size, lens[0] as int);
        k + bytes_read(cursor + k, size, lens.drop_first())
    }
}

proof fn reads_at_end(size: int, lens: Seq<nat>)
    ensures
        bytes_read(size, size, lens) == 0,
    decreases lens.len(),
{
    if lens.len() > 0 {
        reads_at_end(size, lens.drop_first());
    }
}

/// Reads whose buffers add up to at least what is left of a file yield
/// exactly what is left of it: from the start, exactly the file's size.
pub proof fn reads_fill_file(cursor: int, size: int, lens: Seq<nat>)
    requires
        0 <= cursor <= size,
        total_len(lens) >= size - cursor,
    ensures
        bytes_read(cursor, size, lens) == size - cursor,
    decreases lens.len(),
{
    if lens.len() > 0 {
        let k = read_count(cursor, size, lens[0] as int);
        if k == size - cursor {
            reads_at_end(size, lens.drop_first());
        } else {
            reads_fill_file(cursor + k, size, lens.drop_first());
        }
    }
}

/// Seeking to `b` from the start leaves the cursor where seeking to `a`
/// and then reading `b - a` bytes does, for `a <= b <= size`.
pub proof fn seek_matches_skip(a: u64, b: u64, cursor: int, size: int)
    requires
        a <= b <= size,
    ensures
        seek_target(SeekFrom::Start(b), cursor, size) == b,
        seek_target(SeekFrom::Start(a), cursor, size) + read_count(a as int, size, b - a) == b,
{
}

/// Seeking `n` bytes back from the end puts the cursor at `size - n`, or at
/// zero where `n` is larger than the file.
pub proof fn seek_from_end(n: i64, cursor: int, size: int)
    requires
        0 <= n,
        0 <= size <= u32::MAX,
    ensures
        seek_target(SeekFrom::End((-n) as i64), cursor, size) == if n <= size {
            size - n
        } else {
            0
        },
{
}

/// The text part of [`file_identifier`].
pub open spec fn file_text_of(raw: Seq<u8>, reader: DirectoryEntryReader) -> Seq<char> {
    match file_identifier(raw, reader) {
        Some((t, _)) => t,
        None => seq![],
    }
}

proof fn lemma_encode_concat(a: Seq<char>, b: Seq<char>)
    ensures
        encode_utf8(a + b) == encode_utf8(a) + encode_utf8(b),
    decreases a.len(),
{
    if a.len() == 0 {
        assert(a + b =~= b);
        assert(encode_utf8(a) + encode_utf8(b) =~= encode_utf8(b));
    } else {
        lemma_encode_concat(a.drop_first(), b);
        assert((a + b).drop_first() =~= a.drop_first() + b);
        assert((a + b)[0] == a[0]);
        assert(encode_scalar(a[0] as u32) + (encode_utf8(a.drop_first()) + encode_utf8(b))
            =~= (encode_scalar(a[0] as u32) + encode_utf8(a.drop_first())) + encode_utf8(b));
    }
}

/// An ASCII character of a text stands as its own byte in the text's UTF-8
/// encoding.
proof fn lemma_ascii_char_encoded(t: Seq<char>, i: int)
    requires
        0 <= i < t.len(),
        (t[i] as u32) < 128,
    ensures
        encode_utf8(t.take(i)).len() < encode_utf8(t).len(),
        encode_utf8(t)[encode_utf8(t.take(i)).len() as int] == (t[i] as u32) as u8,
{
    let rest = t.skip(i);
    assert(t =~= t.take(i) + rest);
    lemma_encode_concat(t.take(i), rest);
    let v = t[i] as u32;
    assert(rest[0] == t[i]);
    assert(v & 0x7f == v) by (bit_vector)
        requires
            v < 128,
    ;
    assert(encode_scalar(v) == seq![v as u8]);
}

proof fn lemma_name_prefix(u: Seq<u16>)
    requires
        file_name_version(u) is Some,
    ensures
        file_name_of(u).len() <= u.len(),
        forall|i: int| 0 <= i < file_name_of(u).len() ==> #[trigger] file_name_of(u)[i] == u[i],
{
    crate::identifier::lemma_last_index_facts(u, SEMICOLON);
}

/// On a primary volume, a file name keeps no `;` where its identifier has at
/// most one, and a name recorded without an extension (one `.`, at the end
/// of the part before the version) comes out without any `.`.
pub proof fn primary_file_name_is_clean(raw: Seq<u8>)
    requires
        at_most_once(raw.map_values(|x: u8| x as u16), SEMICOLON),
        file_identifier(raw, DirectoryEntryReader::Primary) is Some,
    ensures
        forall|i: int|
            0 <= i < file_text_of(raw, DirectoryEntryReader::Primary).len() ==> #[trigger] file_text_of(
                raw,
                DirectoryEntryReader::Primary,
            )[i] != ';',
        ({
            let st = stem(raw.map_values(|x: u8| x as u16));
            st.len() > 0 && st.last() == DOT && at_most_once(st, DOT)
        }) ==> forall|i: int|
            0 <= i < file_text_of(raw, DirectoryEntryReader::Primary).len() ==> #[trigger] file_text_of(
                raw,
                DirectoryEntryReader::Primary,
            )[i] != '.',
{
    let u = raw.map_values(|x: u8| x as u16);
    assert(identifier_units(raw, DirectoryEntryReader::Primary) == Some(u));
    file_name_is_clean(u);
    lemma_name_prefix(u);
    let n = file_name_of(u);
    let b = unit_bytes(n);
    let t = file_text_of(raw, DirectoryEntryReader::Primary);
    assert(valid_utf8(b) && t == decode_utf8(b));
    decode_utf8_encode_utf8(b);
    assert(encode_utf8(t) == b);
    assert forall|i: int| 0 <= i < t.len() implies #[trigger] t[i] != ';' by {
        if t[i] == ';' {
            lemma_ascii_char_encoded(t, i);
            let k = encode_utf8(t.take(i)).len() as int;
            assert(b[k] == 0x3b);
            assert(n[k] == u[k]);
            assert(u[k] < 256);
            assert(n[k] != SEMICOLON);
        }
    }
    let st = stem(u);
    if st.len() > 0 && st.last() == DOT && at_most_once(st, DOT) {
        assert forall|i: int| 0 <= i < t.len() implies #[trigger] t[i] != '.' by {
            if t[i] == '.' {
                lemma_ascii_char_encoded(t, i);
                let k = encode_utf8(t.take(i)).len() as int;
                assert(b[k] == 0x2e);
                assert(n[k] == u[k]);
                assert(u[k] < 256);
                assert(n[k] != DOT);
            }
        }
    }
}

} // verus!
