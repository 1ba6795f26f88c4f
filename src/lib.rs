//! A read-only reader for ISO 9660 (ECMA-119) images, with optional
//! Joliet (UCS-2) identifiers.
use vstd::prelude::*;

pub mod both_endian;
pub mod date_time;
pub mod directory;
pub mod directory_entry;
pub mod error;
pub mod fileref;
pub mod identifier;
pub mod isofile;
pub mod path;
pub mod volume_descriptor;

use crate::directory::{same_ignoring_ascii_case, walk_without, DirectoryEntry, ISODirectory};
use crate::isofile::ISOFile;
use crate::directory_entry::DirectoryEntryHeader;
use crate::error::ISOError;
use crate::fileref::{FileRef, ISO9660Reader, BLOCK_SIZE};
use crate::identifier::DirectoryEntryReader;
use crate::path::{components, path_components};
use crate::volume_descriptor::{
    PrimaryVolumeDescriptor, SupplementaryVolumeDescriptor, VolumeDescriptor,
};

verus! {

/// The LBA of the first volume descriptor.
pub const FIRST_DESCRIPTOR_LBA: u64 = 16;

/// How many volume descriptors are read before the set must have ended.
pub const MAX_DESCRIPTORS: u64 = 16;

/// The root directory's record and how its tree is encoded: the Joliet
/// descriptor's where there is one, else the Primary one's. The Primary
/// Volume Descriptor must be there either way.
pub fn select_root(
    primary: &Option<PrimaryVolumeDescriptor>,
    joliet: &Option<SupplementaryVolumeDescriptor>,
) -> (r: Option<(DirectoryEntryHeader, String, DirectoryEntryReader)>)
    ensures
        primary is None ==> r is None,
        primary is Some && joliet is Some ==> (r matches Some((h, id, rd)) && h
            == joliet->0.root_directory_entry && id@
            == joliet->0.root_directory_entry_identifier@ && rd == DirectoryEntryReader::Joliet),
        primary is Some && joliet is None ==> (r matches Some((h, id, rd)) && h
            == primary->0.root_directory_entry && id@
            == primary->0.root_directory_entry_identifier@ && rd == DirectoryEntryReader::Primary),
{
    match primary {
        None => None,
        Some(p) => match joliet {
            Some(j) => Some(
                (
                    j.root_directory_entry,
                    j.root_directory_entry_identifier.clone(),
                    DirectoryEntryReader::Joliet,
                ),
            ),
            None => Some(
                (
                    p.root_directory_entry,
                    p.root_directory_entry_identifier.clone(),
                    DirectoryEntryReader::Primary,
                ),
            ),
        },
    }
}

/// The descriptor is a Primary Volume Descriptor.
pub open spec fn is_primary(d: Option<VolumeDescriptor>) -> bool {
    d matches Some(VolumeDescriptor::Primary(_))
}

/// The descriptor is a Supplementary Volume Descriptor.
pub open spec fn is_supplementary(d: Option<VolumeDescriptor>) -> bool {
    d matches Some(VolumeDescriptor::SupplementaryVolumeDescriptor(_))
}

/// What mounting has gathered from the volume descriptors read so far.
pub struct MountState {
    pub primary: Option<PrimaryVolumeDescriptor>,
    pub joliet: Option<SupplementaryVolumeDescriptor>,
    pub terminated: bool,
}

impl MountState {
    pub fn new() -> (r: MountState)
        ensures
            r.primary is None,
            r.joliet is None,
            !r.terminated,
    {
        MountState { primary: None, joliet: None, terminated: false }
    }

    /// Takes in the next descriptor of the set: the last Primary and the
    /// first Joliet descriptor are kept, the Set Terminator ends the set, and
    /// the others are passed over.
    pub fn absorb(&mut self, d: Option<VolumeDescriptor>)
        ensures
            d matches Some(VolumeDescriptor::Primary(p)) ==> final(self).primary == Some(p),
            !is_primary(d) ==> final(self).primary == old(self).primary,
            d matches Some(VolumeDescriptor::SupplementaryVolumeDescriptor(s))
                ==> final(self).joliet == (if s.is_joliet && old(self).joliet is None {
                Some(s)
            } else {
                old(self).joliet
            }),
            !is_supplementary(d) ==> final(self).joliet == old(self).joliet,
            final(self).terminated == (old(self).terminated || d == Some(
                VolumeDescriptor::VolumeDescriptorSetTerminator,
            )),
    {
        match d {
            Some(VolumeDescriptor::Primary(p)) => {
                self.primary = Some(p);
            },
            Some(VolumeDescriptor::SupplementaryVolumeDescriptor(s)) => {
                if s.is_joliet && self.joliet.is_none() {
                    self.joliet = Some(s);
                }
            },
            Some(VolumeDescriptor::VolumeDescriptorSetTerminator) => {
                self.terminated = true;
            },
            _ => {},
        }
    }
}

/// The last Primary Volume Descriptor among `ds`.
pub open spec fn last_primary(ds: Seq<Option<VolumeDescriptor>>) -> Option<PrimaryVolumeDescriptor>
    decreases ds.len(),
{
    if ds.len() == 0 {
        None
    } else {
        match ds.last() {
            Some(VolumeDescriptor::Primary(p)) => Some(p),
            _ => last_primary(ds.drop_last()),
        }
    }
}

/// The first Joliet descriptor among `ds`.
pub open spec fn first_joliet(ds: Seq<Option<VolumeDescriptor>>) -> Option<SupplementaryVolumeDescriptor>
    decreases ds.len(),
{
    if ds.len() == 0 {
        None
    } else {
        match first_joliet(ds.drop_last()) {
            Some(j) => Some(j),
            None => match ds.last() {
                Some(VolumeDescriptor::SupplementaryVolumeDescriptor(s)) => if s.is_joliet {
                    Some(s)
                } else {
                    None
                },
                _ => None,
            },
        }
    }
}

/// The descriptors end with the Set Terminator and hold no other one.
pub open spec fn terminated_set(ds: Seq<Option<VolumeDescriptor>>) -> bool {
    &&& ds.len() > 0
    &&& ds.last() == Some(VolumeDescriptor::VolumeDescriptorSetTerminator)
    &&& forall|k: int|
        0 <= k < ds.len() - 1 ==> #[trigger] ds[k] != Some(
            VolumeDescriptor::VolumeDescriptorSetTerminator,
        )
}

/// A walk along `comps` stops at component `i`: a directory on the way
/// lacks it, or it names a file where a directory is needed.
pub open spec fn walk_stops_at<T: ISO9660Reader>(comps: Seq<Seq<char>>, i: int) -> bool {
    ||| exists|d: ISODirectory<T>| #[trigger] walk_without(d, comps[i])
    ||| (i + 1 < comps.len() && exists|f: ISOFile<T>|
        #[trigger] same_ignoring_ascii_case(f.identifier@, comps[i]))
}

/// The texts of the strings.
pub open spec fn texts(comps: Seq<String>) -> Seq<Seq<char>> {
    comps.map_values(|c: String| c@)
}

/// The block that holds the volume descriptor after `count` others: LBA
/// `16 + count`, while fewer than 16 have been read; past that the set has
/// no terminator, which breaks the file system.
pub fn descriptor_lba<E>(count: u64) -> (r: Result<u64, ISOError<E>>)
    ensures
        count < MAX_DESCRIPTORS ==> r == Ok::<u64, ISOError<E>>((FIRST_DESCRIPTOR_LBA + count) as u64),
        count >= MAX_DESCRIPTORS ==> r matches Err(ISOError::InvalidFs(_)),
{
    if count < MAX_DESCRIPTORS {
        Ok(FIRST_DESCRIPTOR_LBA + count)
    } else {
        Err(ISOError::InvalidFs("volume descriptor set has no terminator"))
    }
}

/// The root of a finished descriptor set: see [`select_root`]; without a
/// Primary Volume Descriptor the file system is broken.
pub fn mount_root<E>(state: &MountState) -> (r: Result<
    (DirectoryEntryHeader, String, DirectoryEntryReader),
    ISOError<E>,
>)
    ensures
        state.primary is None <==> r matches Err(ISOError::InvalidFs(_)),
        state.primary is Some && state.joliet is Some ==> (r matches Ok((h, id, rd)) && h
            == state.joliet->0.root_directory_entry && id@
            == state.joliet->0.root_directory_entry_identifier@ && rd == DirectoryEntryReader::Joliet),
        state.primary is Some && state.joliet is None ==> (r matches Ok((h, id, rd)) && h
            == state.primary->0.root_directory_entry && id@
            == state.primary->0.root_directory_entry_identifier@ && rd == DirectoryEntryReader::Primary),
{
    match select_root(&state.primary, &state.joliet) {
        Some(v) => Ok(v),
        None => Err(ISOError::InvalidFs("Primary Volume Descriptor not found")),
    }
}

/// A mounted image.
#[verifier::reject_recursive_types(T)]
pub struct ISO9660<T: ISO9660Reader> {
    pub root: ISODirectory<T>,
    pub primary: PrimaryVolumeDescriptor,
    /// The volume descriptors read from LBA 16 on, in order.
    pub descriptors: Ghost<Seq<Option<VolumeDescriptor>>>,
}

impl<T: ISO9660Reader> ISO9660<T> {
    /// The volume descriptors read at mount, from LBA 16 on, in order.
    pub closed spec fn descriptors_read(&self) -> Seq<Option<VolumeDescriptor>> {
        self.descriptors@
    }

    /// Mounts an image: reads the volume descriptors from LBA 16 on up to
    /// the Set Terminator, keeps the last Primary and the first Joliet
    /// descriptor, and roots the tree at the Joliet one where there is one.
    pub fn new(reader: T) -> (r: Result<ISO9660<T>, ISOError<T::Error>>)
        ensures
            r matches Ok(fs) ==> terminated_set(fs.descriptors_read())
                && fs.descriptors_read().len() <= MAX_DESCRIPTORS && last_primary(
                fs.descriptors_read(),
            ) == Some(fs.primary),
            r matches Ok(fs) ==> (match first_joliet(fs.descriptors_read()) {
                Some(j) => fs.root.reader == DirectoryEntryReader::Joliet && fs.root.header
                    == j.root_directory_entry && fs.root.identifier@
                    == j.root_directory_entry_identifier@,
                None => fs.root.reader == DirectoryEntryReader::Primary && fs.root.header
                    == fs.primary.root_directory_entry && fs.root.identifier@
                    == fs.primary.root_directory_entry_identifier@,
            }),
    {
        let file = FileRef::new(reader);
        let mut buf: Vec<u8> = vec![0u8; BLOCK_SIZE];
        let mut state = MountState::new();
        let mut lba: u64 = FIRST_DESCRIPTOR_LBA;
        let ghost mut ds: Seq<Option<VolumeDescriptor>> = Seq::empty();
        while !state.terminated
            invariant
                buf@.len() == BLOCK_SIZE,
                FIRST_DESCRIPTOR_LBA <= lba <= FIRST_DESCRIPTOR_LBA + MAX_DESCRIPTORS,
                ds.len() == lba - FIRST_DESCRIPTOR_LBA,
                state.primary == last_primary(ds),
                state.joliet == first_joliet(ds),
                state.terminated ==> terminated_set(ds),
                !state.terminated ==> forall|k: int|
                    0 <= k < ds.len() ==> #[trigger] ds[k] != Some(
                        VolumeDescriptor::VolumeDescriptorSetTerminator,
                    ),
            decreases FIRST_DESCRIPTOR_LBA + MAX_DESCRIPTORS - lba,
        {
            let block = descriptor_lba(lba - FIRST_DESCRIPTOR_LBA)?;
            file.read_block(&mut buf, block)?;
            let d = VolumeDescriptor::parse(buf.as_slice())?;
            let ghost prev = ds;
            proof {
                ds = ds.push(d);
                assert(ds.drop_last() =~= prev);
            }
            state.absorb(d);
            lba += 1;
        }
        let (header, identifier, root_reader) = mount_root(&state)?;
        let root = ISODirectory { header, identifier, file, reader: root_reader };
        match state.primary {
            Some(p) => Ok(ISO9660 { root, primary: p, descriptors: Ghost(ds) }),
            None => Err(ISOError::InvalidFs("Primary Volume Descriptor not found")),
        }
    }

    /// Walks from the root along `comps`, matching names but for the case of
    /// ASCII letters: each but the last must name a
    /// directory. `None` where a component is not found or names a file
    /// that the walk would have to enter; the root itself for no components.
    pub fn open_components(&self, comps: &Vec<String>) -> (r: Result<
        Option<DirectoryEntry<T>>,
        ISOError<T::Error>,
    >)
        ensures
            comps@.len() > 0 ==> (r matches Ok(Some(e)) ==> same_ignoring_ascii_case(
                e.spec_identifier(),
                comps@.last()@,
            )),
            comps@.len() == 0 ==> (r matches Ok(Some(e)) && e is Directory && e.spec_header()
                == self.root.header),
            r matches Ok(None) ==> exists|i: int|
                0 <= i < comps@.len() && #[trigger] walk_stops_at::<T>(texts(comps@), i),
    {
        let mut dir = self.root.clone();
        if comps.len() == 0 {
            return Ok(Some(DirectoryEntry::Directory(dir)));
        }
        let mut i: usize = 0;
        while i < comps.len()
            invariant
                i < comps@.len(),
            decreases comps@.len() - i,
        {
            match dir.find(comps[i].as_str())? {
                None => {
                    assert(texts(comps@)[i as int] == comps@[i as int]@);
                    assert(walk_without(dir, comps@[i as int]@));
                    assert(walk_stops_at::<T>(texts(comps@), i as int));
                    return Ok(None);
                },
                Some(e) => {
                    if i + 1 == comps.len() {
                        return Ok(Some(e));
                    }
                    match e {
                        DirectoryEntry::Directory(d) => {
                            dir = d;
                        },
                        DirectoryEntry::File(f) => {
                            assert(texts(comps@)[i as int] == comps@[i as int]@);
                            assert(same_ignoring_ascii_case(f.identifier@, comps@[i as int]@));
                            assert(walk_stops_at::<T>(texts(comps@), i as int));
                            return Ok(None);
                        },
                    }
                },
            }
            i += 1;
        }
        Ok(None)
    }

    /// Opens a slash-separated path from the root. Empty components are
    /// dropped, so leading, trailing and repeated slashes make no
    /// difference: the walk depends on `components(path@)` alone, which
    /// `normalise` keeps. A path that names nothing gives `Ok(None)`.
    pub fn open(&self, path: &str) -> (r: Result<Option<DirectoryEntry<T>>, ISOError<T::Error>>)
        ensures
            components(path@).len() > 0 ==> (r matches Ok(Some(e)) ==> same_ignoring_ascii_case(
                e.spec_identifier(),
                components(path@).last(),
            )),
            components(path@).len() == 0 ==> (r matches Ok(Some(e)) && e is Directory
                && e.spec_header() == self.root.header),
            r matches Ok(None) ==> exists|i: int|
                0 <= i < components(path@).len() && #[trigger] walk_stops_at::<T>(
                    components(path@),
                    i,
                ),
    {
        let comps = path_components(path);
        assert(texts(comps@) =~= components(path@));
        self.open_components(&comps)
    }
}

} // verus!
