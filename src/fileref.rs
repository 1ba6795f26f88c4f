//! The block reader that an image is read through, and the handle that lets
//! every directory and file of a mounted image share it.
use vstd::prelude::*;
use std::cell::RefCell;
use std::rc::Rc;
use crate::error::ISOError;

verus! {

/// Size of a logical block.
pub const BLOCK_SIZE: usize = 2048;

/// A type whose I/O operations fail with one error type.
pub trait ErrorType {
    /// Error type of all the IO operations on this type.
    type Error;
}

/// A source of 2048-byte logical blocks.
pub trait ISO9660Reader: ErrorType {
    /// Read the block(s) at a given LBA (logical block address): fill `buf`
    /// from byte `lba * 2048` on, as far as the source goes, and say how many
    /// bytes were filled.
    fn read_at(&mut self, buf: &mut [u8], lba: u64) -> (r: Result<usize, Self::Error>)
        ensures
            final(buf)@.len() == old(buf)@.len(),
            r matches Ok(n) ==> n <= old(buf)@.len(),
    ;
}

#[verifier::external_type_specification]
#[verifier::external_body]
#[verifier::reject_recursive_types(T)]
pub struct ExRefCell<T: ?Sized>(RefCell<T>);

pub assume_specification<T>[ RefCell::<T>::new ](value: T) -> RefCell<T>;

/// Relies on `RefCell::borrow_mut`: the reader is borrowed for this one
/// read only, and the read is the reader's own `read_at`. The borrow panics
/// where the reader is already borrowed; no read of this library is made
/// while another is under way.
#[verifier::external_body]
fn read_shared<T: ISO9660Reader>(cell: &RefCell<T>, buf: &mut [u8], lba: u64) -> (r: Result<usize, T::Error>)
    ensures
        final(buf)@.len() == old(buf)@.len(),
        r matches Ok(n) ==> n <= old(buf)@.len(),
{
    cell.borrow_mut().read_at(buf, lba)
}

/// What a block read comes to: success only where the whole block was
/// read; a short read is `ReadSize`, a failed one `Io`.
pub open spec fn block_read_ok<E>(r: Result<usize, E>, o: Result<(), ISOError<E>>) -> bool {
    match r {
        Ok(n) => if n == BLOCK_SIZE {
            o is Ok
        } else {
            o matches Err(ISOError::ReadSize(want, got)) && want == BLOCK_SIZE && got == n
        },
        Err(e) => o matches Err(ISOError::Io(e2)) && e2 == e,
    }
}

/// Turns the result of a block read into success or the library's error;
/// see [`block_read_ok`].
pub fn block_read_outcome<E>(r: Result<usize, E>) -> (o: Result<(), ISOError<E>>)
    ensures
        block_read_ok(r, o),
{
    match r {
        Ok(n) => {
            if n == BLOCK_SIZE {
                Ok(())
            } else {
                Err(ISOError::ReadSize(BLOCK_SIZE, n))
            }
        },
        Err(e) => Err(ISOError::Io(e)),
    }
}

/// A shared handle on the block reader of one mounted image.
#[verifier::reject_recursive_types(T)]
pub struct FileRef<T: ISO9660Reader>(Rc<RefCell<T>>);

impl<T: ISO9660Reader> Clone for FileRef<T> {
    fn clone(&self) -> FileRef<T> {
        FileRef(Rc::clone(&self.0))
    }
}

impl<T: ISO9660Reader> FileRef<T> {
    pub fn new(reader: T) -> FileRef<T> {
        FileRef(Rc::new(RefCell::new(reader)))
    }

    /// Read the block(s) at a given LBA (logical block address)
    pub fn read_at(&self, buf: &mut [u8], lba: u64) -> (r: Result<usize, T::Error>)
        ensures
            final(buf)@.len() == old(buf)@.len(),
            r matches Ok(n) ==> n <= old(buf)@.len(),
    {
        read_shared(&self.0, buf, lba)
    }

    /// Reads the whole block at `lba`; a read that fills less of it is an
    /// error.
    pub fn read_block(&self, buf: &mut Vec<u8>, lba: u64) -> (r: Result<(), ISOError<T::Error>>)
        requires
            old(buf)@.len() == BLOCK_SIZE,
        ensures
            final(buf)@.len() == BLOCK_SIZE,
            r is Ok || r matches Err(ISOError::Io(_)) || (r matches Err(ISOError::ReadSize(
                want,
                got,
            )) && want == BLOCK_SIZE && got < BLOCK_SIZE),
    {
        let got = self.read_at(buf.as_mut_slice(), lba);
        block_read_outcome(got)
    }
}

} // verus!
