//! Directories, their entries, and the walk over a directory's records.
use vstd::prelude::*;
use vstd::string::StrSliceExecFns;
use crate::directory_entry::{directory_record, parse_record, DirectoryEntryHeader, DIRECTORY};
use crate::error::ISOError;
use crate::fileref::{FileRef, ISO9660Reader, BLOCK_SIZE};
use crate::identifier::{decode_directory_name, directory_name, identifier_units, DirectoryEntryReader};
use crate::isofile::{file_error_fits, lba_range};
use crate::isofile::ISOFile;

verus! {

/// `c` with ASCII upper case letters taken to lower case.
pub open spec fn ascii_lower(c: char) -> char {
    if 'A' <= c && c <= 'Z' {
        ((c as u32) + 32) as char
    } else {
        c
    }
}

/// The two texts are equal but for the case of ASCII letters.
pub open spec fn same_ignoring_ascii_case(a: Seq<char>, b: Seq<char>) -> bool {
    a.len() == b.len() && forall|i: int| 0 <= i < a.len() ==> ascii_lower(#[trigger] a[i]) == ascii_lower(b[i])
}

fn lower(c: char) -> (r: char)
    ensures
        r == ascii_lower(c),
{
    if 'A' <= c && c <= 'Z' {
        let b: u8 = (c as u32 + 32) as u8;
        b as char
    } else {
        c
    }
}

/// Compares two texts, ignoring the case of ASCII letters.
pub fn eq_ignore_ascii_case(a: &str, b: &str) -> (r: bool)
    ensures
        r == same_ignoring_ascii_case(a@, b@),
{
    let n = a.unicode_len();
    if n != b.unicode_len() {
        return false;
    }
    let mut i: usize = 0;
    while i < n
        invariant
            n == a@.len(),
            n == b@.len(),
            i <= n,
            forall|k: int| 0 <= k < i ==> ascii_lower(#[trigger] a@[k]) == ascii_lower(b@[k]),
        decreases n - i,
    {
        if lower(a.get_char(i)) != lower(b.get_char(i)) {
            return false;
        }
        i += 1;
    }
    true
}

/// What lies at an offset of a directory block.
#[derive(Clone, Copy, Debug, PartialEq, Eq, Structural)]
pub enum BlockStep {
    /// The rest of the block is padding (or the offset is past its end).
    EndOfBlock,
    /// A record of this many bytes, wholly inside the block.
    Record(usize),
    /// A record length shorter than a record's header.
    TooShort,
    /// A record that would run past the end of the block.
    Crosses,
}

/// What lies at offset `pos` of the directory block `s`: a zero record
/// length pads the block to its end.
pub open spec fn block_step(s: Seq<u8>, pos: int) -> BlockStep {
    if pos >= 2048 || pos >= s.len() || s[pos] == 0 {
        BlockStep::EndOfBlock
    } else if s[pos] < 33 {
        BlockStep::TooShort
    } else if pos + s[pos] > 2048 {
        BlockStep::Crosses
    } else {
        BlockStep::Record(s[pos] as usize)
    }
}

/// Looks at offset `pos` of a directory block; see [`block_step`].
pub fn scan_block(block: &[u8], pos: usize) -> (r: BlockStep)
    ensures
        r == block_step(block@, pos as int),
{
    if pos >= BLOCK_SIZE || pos >= block.len() || block[pos] == 0 {
        BlockStep::EndOfBlock
    } else if block[pos] < 33 {
        BlockStep::TooShort
    } else if BLOCK_SIZE - pos < block[pos] as usize {
        BlockStep::Crosses
    } else {
        BlockStep::Record(block[pos] as usize)
    }
}

/// Blocks taken by an extent of `len` bytes.
pub open spec fn blocks_for(len: int) -> int {
    (len + 2047) / 2048
}

/// A directory of the image.
#[verifier::reject_recursive_types(T)]
pub struct ISODirectory<T: ISO9660Reader> {
    pub header: DirectoryEntryHeader,
    pub identifier: String,
    pub file: FileRef<T>,
    pub reader: DirectoryEntryReader,
}

impl<T: ISO9660Reader> ISODirectory<T> {
    /// A directory from its directory record: the header and the bytes of
    /// its identifier.
    pub fn new(
        header: DirectoryEntryHeader,
        raw: &[u8],
        file: FileRef<T>,
        reader: DirectoryEntryReader,
    ) -> (r: Result<ISODirectory<T>, ISOError<T::Error>>)
        ensures
            r is Ok <==> directory_name(raw@, reader) is Some,
            r matches Ok(d) ==> d.header == header && d.reader == reader && directory_name(
                raw@,
                reader,
            ) == Some(d.identifier@),            r matches Err(e) ==> (e is InvalidFs <==> identifier_units(raw@, reader) is None),
            r matches Err(e) ==> (e is InvalidFs || e is Utf8),
    {
        let identifier = decode_directory_name(raw, reader)?;
        Ok(ISODirectory { header, identifier, file, reader })
    }

    /// The number of blocks of the directory's extent.
    pub fn block_count(&self) -> (r: u32)
        ensures
            r == blocks_for(self.header.extent_length as int),
    {
        let len = self.header.extent_length;
        let r = len / 2048 + if len % 2048 != 0 {
            1u32
        } else {
            0u32
        };
        r
    }

    /// A fresh walk over the directory's entries, in the order they are
    /// recorded.
    pub fn contents(&self) -> (r: ISODirectoryIterator<T>)
        ensures
            r.wf(),
            r.total_blocks() == blocks_for(self.header.extent_length as int),
            r.entry_reader() == self.reader,
            r.names_seen() == Seq::<Seq<char>>::empty(),
            r.first_lba() == self.header.extent_loc,
            r.block_index() == 0 && !r.is_loaded() && !r.is_done(),
    {
        proof {
            assert(lba_range(self.header.extent_loc as int, self.header.extent_loc as int + 0)
                =~= Seq::<int>::empty());
        }
        ISODirectoryIterator {
            file: self.file.clone(),
            reader: self.reader,
            start_lba: self.header.extent_loc,
            block_count: self.block_count(),
            block: 0,
            pos: 0,
            buf: vec![0u8; BLOCK_SIZE],
            loaded: false,
            done: false,
            seen: Ghost(Seq::empty()),
            loads: Ghost(Seq::empty()),
        }
    }

    /// The first entry whose identifier is `name`, but for the case of
    /// ASCII letters; `None` where the walk ends without one.
    pub fn find(&self, name: &str) -> (r: Result<Option<DirectoryEntry<T>>, ISOError<T::Error>>)
        ensures
            r matches Ok(Some(e)) ==> same_ignoring_ascii_case(e.spec_identifier(), name@),
            r matches Ok(None) ==> walk_without(*self, name@),
    {
        let mut it = self.contents();
        let r = find_in(&mut it, name);
        proof {
            if r matches Ok(None) {
                assert(it.remaining() == 0);
            }
        }
        r
    }
}

impl<T: ISO9660Reader> Clone for ISODirectory<T> {
    fn clone(&self) -> (r: ISODirectory<T>)
        ensures
            r.header == self.header,
            r.identifier@ == self.identifier@,
            r.reader == self.reader,
    {
        ISODirectory {
            header: self.header,
            identifier: self.identifier.clone(),
            file: self.file.clone(),
            reader: self.reader,
        }
    }
}

/// The entry's name (and a file's version) is what the identifier bytes of
/// its record give.
pub open spec fn entry_named_by<T: ISO9660Reader>(
    e: DirectoryEntry<T>,
    id: Seq<u8>,
    reader: DirectoryEntryReader,
) -> bool {
    match e {
        DirectoryEntry::Directory(d) => Some(d.identifier@) == directory_name(id, reader),
        DirectoryEntry::File(f) => crate::isofile::file_identifier(id, reader) == Some(
            (f.identifier@, f.version),
        ),
    }
}

/// A walk over the records of `d` has ended, and no name it yielded is
/// `name`, but for the case of ASCII letters.
pub open spec fn walk_without<T: ISO9660Reader>(d: ISODirectory<T>, name: Seq<char>) -> bool {
    exists|w: ISODirectoryIterator<T>|
        #[trigger] w.remaining() == 0 && w.total_blocks() == blocks_for(
            d.header.extent_length as int,
        ) && w.entry_reader() == d.reader && forall|k: int|
            0 <= k < w.names_seen().len() ==> !same_ignoring_ascii_case(
                #[trigger] w.names_seen()[k],
                name,
            )
}

/// Walks on until an entry whose identifier is `name` (but for the case of
/// ASCII letters) comes. `None` only where the walk ends and no entry it
/// yielded, before this call or during it, bears the name (given that none
/// before it did).
pub fn find_in<T: ISO9660Reader>(it: &mut ISODirectoryIterator<T>, name: &str) -> (r: Result<
    Option<DirectoryEntry<T>>,
    ISOError<T::Error>,
>)
    requires
        old(it).wf(),
    ensures
        final(it).wf(),
        final(it).total_blocks() == old(it).total_blocks(),
        final(it).entry_reader() == old(it).entry_reader(),
        r matches Ok(Some(e)) ==> same_ignoring_ascii_case(e.spec_identifier(), name@)
            && final(it).names_seen().last() == e.spec_identifier(),
        r matches Ok(None) ==> final(it).remaining() == 0,
        r matches Ok(None) ==> forall|k: int|
            old(it).names_seen().len() <= k < final(it).names_seen().len()
                ==> !same_ignoring_ascii_case(#[trigger] final(it).names_seen()[k], name@),
        old(it).names_seen().is_prefix_of(final(it).names_seen()),
{
    loop
        invariant
            it.wf(),
            it.total_blocks() == old(it).total_blocks(),
            it.entry_reader() == old(it).entry_reader(),
            old(it).names_seen().is_prefix_of(it.names_seen()),
            forall|k: int|
                old(it).names_seen().len() <= k < it.names_seen().len() ==> !same_ignoring_ascii_case(
                    #[trigger] it.names_seen()[k],
                    name@,
                ),
        decreases it.remaining(),
    {
        let ghost before = it.names_seen();
        match it.next() {
            None => return Ok(None),
            Some(Err(e)) => return Err(e),
            Some(Ok(e)) => {
                assert(it.names_seen()[before.len() as int] == e.spec_identifier());
                if eq_ignore_ascii_case(e.identifier(), name) {
                    return Ok(Some(e));
                }
            },
        }
    }
}

/// An entry of a directory: a directory or a file.
#[verifier::reject_recursive_types(T)]
pub enum DirectoryEntry<T: ISO9660Reader> {
    Directory(ISODirectory<T>),
    File(ISOFile<T>),
}

impl<T: ISO9660Reader> DirectoryEntry<T> {
    pub open spec fn spec_header(&self) -> DirectoryEntryHeader {
        match self {
            DirectoryEntry::Directory(d) => d.header,
            DirectoryEntry::File(f) => f.header,
        }
    }

    pub open spec fn spec_identifier(&self) -> Seq<char> {
        match self {
            DirectoryEntry::Directory(d) => d.identifier@,
            DirectoryEntry::File(f) => f.identifier@,
        }
    }

    /// The entry of a directory record: a directory where the record's
    /// directory flag is set, a file otherwise.
    pub fn new(
        header: DirectoryEntryHeader,
        raw: &[u8],
        file: FileRef<T>,
        reader: DirectoryEntryReader,
    ) -> (r: Result<DirectoryEntry<T>, ISOError<T::Error>>)
        ensures
            r matches Ok(e) ==> e.spec_header() == header,
            r matches Ok(e) ==> (e is Directory <==> header.file_flags.bits & DIRECTORY
                == DIRECTORY),
            r matches Ok(DirectoryEntry::Directory(d)) ==> Some(d.identifier@) == directory_name(
                raw@,
                reader,
            ) && d.reader == reader,
            r matches Ok(DirectoryEntry::File(f)) ==> crate::isofile::file_identifier(raw@, reader)
                == Some((f.identifier@, f.version)),
            header.file_flags.bits & DIRECTORY == DIRECTORY ==> (r is Ok <==> directory_name(
                raw@,
                reader,
            ) is Some),
            header.file_flags.bits & DIRECTORY != DIRECTORY ==> (r is Ok
                <==> crate::isofile::file_identifier(raw@, reader) is Some),            header.file_flags.bits & DIRECTORY == DIRECTORY ==> (r matches Err(e) ==> ((e
                is InvalidFs <==> identifier_units(raw@, reader) is None) && (e is InvalidFs
                || e is Utf8))),
            header.file_flags.bits & DIRECTORY != DIRECTORY ==> file_error_fits(r, raw@, reader),
    {
        if header.file_flags.contains(DIRECTORY) {
            Ok(DirectoryEntry::Directory(ISODirectory::new(header, raw, file, reader)?))
        } else {
            Ok(DirectoryEntry::File(ISOFile::new(header, raw, file, reader)?))
        }
    }

    pub fn header(&self) -> (r: &DirectoryEntryHeader)
        ensures
            *r == self.spec_header(),
    {
        match self {
            DirectoryEntry::Directory(dir) => &dir.header,
            DirectoryEntry::File(file) => &file.header,
        }
    }

    pub fn identifier(&self) -> (r: &str)
        ensures
            r@ == self.spec_identifier(),
    {
        match self {
            DirectoryEntry::Directory(dir) => dir.identifier.as_str(),
            DirectoryEntry::File(file) => file.identifier.as_str(),
        }
    }
}

/// A walk over the records of a directory's extent, block by block.
#[verifier::reject_recursive_types(T)]
pub struct ISODirectoryIterator<T: ISO9660Reader> {
    file: FileRef<T>,
    reader: DirectoryEntryReader,
    start_lba: u32,
    block_count: u32,
    block: u32,
    pos: usize,
    buf: Vec<u8>,
    loaded: bool,
    done: bool,
    /// The names of the entries yielded so far, in order.
    seen: Ghost<Seq<Seq<char>>>,
    /// The blocks read from the device so far, in order.
    loads: Ghost<Seq<int>>,
}

impl<T: ISO9660Reader> ISODirectoryIterator<T> {
    pub closed spec fn wf(&self) -> bool {
        &&& self.loads@ == lba_range(
            self.start_lba as int,
            self.start_lba + self.block + if self.loaded {
                1int
            } else {
                0int
            },
        )
        &&& self.buf@.len() == BLOCK_SIZE
        &&& self.pos <= BLOCK_SIZE
        &&& self.block <= self.block_count
    }

    /// The first block of the directory's extent.
    pub closed spec fn first_lba(&self) -> int {
        self.start_lba as int
    }

    /// The blocks read from the device so far, in order: each block of the
    /// extent once, from the first on.
    pub closed spec fn lbas_loaded(&self) -> Seq<int> {
        self.loads@
    }

    /// The current block has been read.
    pub closed spec fn is_loaded(&self) -> bool {
        self.loaded
    }

    /// The walk has stopped on an error.
    pub closed spec fn is_done(&self) -> bool {
        self.done
    }

    /// The index, within the extent, of the current block.
    pub closed spec fn block_index(&self) -> int {
        self.block as int
    }

    /// The names of the entries yielded so far, in order.
    pub closed spec fn names_seen(&self) -> Seq<Seq<char>> {
        self.seen@
    }

    pub closed spec fn total_blocks(&self) -> int {
        self.block_count as int
    }

    pub closed spec fn entry_reader(&self) -> DirectoryEntryReader {
        self.reader
    }

    /// The bytes of the block last read.
    pub closed spec fn current_block(&self) -> Seq<u8> {
        self.buf@
    }

    /// The offset in the current block that the next record is read from.
    pub closed spec fn offset(&self) -> int {
        self.pos as int
    }

    /// A measure of the walk that is left; zero once it has ended.
    pub closed spec fn remaining(&self) -> nat {
        if self.done || self.block >= self.block_count {
            0
        } else {
            ((self.block_count - self.block) * 4100 + if self.loaded {
                BLOCK_SIZE - self.pos
            } else {
                2049
            }) as nat
        }
    }

    /// The next entry. A record length of zero pads the rest of a block;
    /// records never cross a block boundary. An error ends the walk.
    #[verifier::rlimit(60)]
    pub fn next(&mut self) -> (r: Option<Result<DirectoryEntry<T>, ISOError<T::Error>>>)
        requires
            old(self).wf(),
        ensures
            final(self).wf(),
            final(self).total_blocks() == old(self).total_blocks(),
            final(self).entry_reader() == old(self).entry_reader(),
            r is Some ==> final(self).remaining() < old(self).remaining(),
            r is None ==> final(self).remaining() == 0,
            r matches Some(Ok(e)) ==> e.spec_header().length >= 33 && e.spec_header().length
                <= final(self).offset() <= BLOCK_SIZE,
            r matches Some(Ok(e)) ==> (parse_record(
                final(self).current_block().subrange(
                    final(self).offset() - e.spec_header().length,
                    final(self).offset(),
                ),
            ) matches Ok((h, id)) && h == e.spec_header() && entry_named_by(
                e,
                id,
                final(self).entry_reader(),
            )),
            r matches Some(Err(_)) ==> final(self).remaining() == 0,
            r matches Some(Ok(e)) ==> final(self).names_seen() == old(self).names_seen().push(
                e.spec_identifier(),
            ),
            !(r matches Some(Ok(_))) ==> final(self).names_seen() == old(self).names_seen(),
            old(self).is_done() ==> r is None,
            final(self).first_lba() == old(self).first_lba(),
            final(self).lbas_loaded() == lba_range(
                final(self).first_lba(),
                final(self).first_lba() + final(self).block_index() + if final(self).is_loaded() {
                    1int
                } else {
                    0int
                },
            ),
            old(self).lbas_loaded().is_prefix_of(final(self).lbas_loaded()),
            !old(self).is_done() ==> (old(self).is_loaded() ==> (old(self).block_index() < old(
                self,
            ).total_blocks() ==> (block_step(old(self).current_block(), old(self).offset()) matches BlockStep::Record(len) ==> (r is Some
                && final(self).offset() == old(self).offset() + len && final(self).block_index()
                == old(self).block_index() && final(self).current_block() == old(
                self,
            ).current_block())))),
            !old(self).is_done() ==> (old(self).is_loaded() ==> (old(self).block_index() < old(
                self,
            ).total_blocks() ==> ((block_step(old(self).current_block(), old(self).offset())
                == BlockStep::TooShort || block_step(old(self).current_block(), old(self).offset())
                == BlockStep::Crosses) ==> r matches Some(Err(ISOError::InvalidFs(_)))))),
    {
        let ghost mut first = true;
        loop
            invariant
                self.wf(),
                first ==> self.loaded == old(self).loaded && self.done == old(self).done
                    && self.block == old(self).block && self.pos == old(self).pos && self.buf@
                    == old(self).buf@,
                !first ==> (old(self).loaded && !old(self).done && old(self).block < old(
                    self,
                ).block_count ==> block_step(old(self).buf@, old(self).pos as int)
                    == BlockStep::EndOfBlock),
                self.block_count == old(self).block_count,
                self.start_lba == old(self).start_lba,
                old(self).loads@.is_prefix_of(self.loads@),
                self.reader == old(self).reader,
                self.remaining() <= old(self).remaining(),
                self.seen == old(self).seen,
            decreases self.remaining(),
        {
            if self.done || self.block >= self.block_count {
                return None;
            }
            if !self.loaded {
                let lba = self.start_lba as u64 + self.block as u64;
                match self.file.read_block(&mut self.buf, lba) {
                    Ok(()) => {},
                    Err(e) => {
                        self.done = true;
                        return Some(Err(e));
                    },
                }
                self.loaded = true;
                self.pos = 0;
                self.loads = Ghost(self.loads@.push(lba as int));
                proof {
                    first = false;
                    assert(self.loads@ =~= lba_range(
                        self.start_lba as int,
                        self.start_lba + self.block + 1int,
                    ));
                }
            } else {
                let len = match scan_block(self.buf.as_slice(), self.pos) {
                    BlockStep::EndOfBlock => {
                        self.block += 1;
                        self.loaded = false;
                        self.pos = 0;
                        proof {
                            first = false;
                            assert(self.loads@ =~= lba_range(
                                self.start_lba as int,
                                self.start_lba + self.block + 0int,
                            ));
                        }
                        continue ;
                    },
                    BlockStep::TooShort => {
                        self.done = true;
                        return Some(
                            Err(ISOError::InvalidFs("directory record shorter than its header")),
                        );
                    },
                    BlockStep::Crosses => {
                        self.done = true;
                        return Some(
                            Err(ISOError::InvalidFs("directory record crosses a block boundary")),
                        );
                    },
                    BlockStep::Record(len) => len,
                };
                let mut rec: Vec<u8> = Vec::new();
                let mut i: usize = 0;
                while i < len
                    invariant
                        self.wf(),
                        self.pos + len <= BLOCK_SIZE,
                        i <= len,
                        rec@ == self.buf@.subrange(self.pos as int, self.pos + i),
                    decreases len - i,
                {
                    rec.push(self.buf[self.pos + i]);
                    i += 1;
                    assert(rec@ =~= self.buf@.subrange(self.pos as int, self.pos + i));
                }
                assert(rec@[0] == len);
                self.pos += len;
                let (header, id) = match directory_record(rec.as_slice()) {
                    Ok(v) => v,
                    Err(k) => {
                        self.done = true;
                        return Some(Err(ISOError::Parse(k)));
                    },
                };
                match DirectoryEntry::new(header, id.as_slice(), self.file.clone(), self.reader) {
                    Ok(e) => {
                        self.seen = Ghost(self.seen@.push(e.spec_identifier()));
                        return Some(Ok(e));
                    },
                    Err(e) => {
                        self.done = true;
                        return Some(Err(e));
                    },
                }
            }
        }
    }
}

} // verus!
