//! The storage capability consumed by the filesystem layers, and an
//! in-memory implementation of it.

use vstd::prelude::*;

verus! {

/// Ways a read from a storage source can fail.
#[derive(Debug, Clone, Copy, PartialEq, Eq, Structural)]
pub enum BlockDeviceError {
    /// The requested range does not lie within the medium.
    OutOfBounds,
    /// The medium could not deliver the requested bytes.
    IoError,
}

impl BlockDeviceError {
    /// The words that describe the error.
    pub open spec fn spec_message(&self) -> Seq<char> {
        match self {
            BlockDeviceError::OutOfBounds => "read out of bounds"@,
            BlockDeviceError::IoError => "I/O error"@,
        }
    }

    /// Describes the error in words, for display.
    pub fn message(&self) -> (text: &'static str)
        ensures
            text@ == self.spec_message(),
    {
        match self {
            BlockDeviceError::OutOfBounds => "read out of bounds",
            BlockDeviceError::IoError => "I/O error",
        }
    }
}

/// Outcome of a storage operation.
pub type BlockDeviceResult<T> = Result<T, BlockDeviceError>;

/// What a read of `len` bytes at `offset` yields on a medium holding
/// `contents` when no fault occurs.
pub open spec fn read_result(contents: Seq<u8>, offset: int, len: int) -> Result<
    Seq<u8>,
    BlockDeviceError,
> {
    if 0 <= offset && 0 <= len && offset + len <= contents.len() {
        Ok(contents.subrange(offset, offset + len))
    } else {
        Err(BlockDeviceError::OutOfBounds)
    }
}

/// A readable, byte-addressable storage source.
///
/// A medium is modelled by the bytes it holds. A read either delivers the
/// requested range of them or fails; it fails with `OutOfBounds` only when
/// the range does not lie within the medium, and it never succeeds on such
/// a range. A medium may in addition fail any read with `IoError`, unless it
/// declares itself `fault_free`.
///
/// An implementation says what the medium holds by defining `contents`, and
/// is then held to this contract. One that defines neither `contents` nor
/// `fault_free` is a medium of which nothing is known but that its reads
/// agree with one another.
pub trait BlockDevice {
    /// The bytes held by the medium.
    open spec fn contents(&self) -> Seq<u8> {
        arbitrary()
    }

    /// Whether the medium never reports `IoError`.
    open spec fn fault_free(&self) -> bool {
        false
    }

    /// Fills `buf` with the `buf.len()` bytes found at byte `offset`.
    fn read_at(&self, offset: u64, buf: &mut [u8]) -> (res: BlockDeviceResult<()>)
        ensures
            final(buf)@.len() == old(buf)@.len(),
            res is Ok ==> read_result(self.contents(), offset as int, old(buf)@.len() as int)
                == Ok::<Seq<u8>, BlockDeviceError>(final(buf)@),
            res == Err::<(), BlockDeviceError>(BlockDeviceError::OutOfBounds) ==> read_result(
                self.contents(),
                offset as int,
                old(buf)@.len() as int,
            ) is Err,
            read_result(self.contents(), offset as int, old(buf)@.len() as int) is Err
                ==> res is Err,
            self.fault_free() ==> res != Err::<(), BlockDeviceError>(BlockDeviceError::IoError),
    ;
}

/// A storage source backed by a byte slice held in memory.
pub struct MemoryBlockDevice<'a> {
    data: &'a [u8],
}

impl<'a> MemoryBlockDevice<'a> {
    /// Wraps `data` as a medium of exactly `data.len()` bytes.
    pub fn new(data: &'a [u8]) -> (dev: Self)
        ensures
            dev.contents() == data@,
    {
        Self { data }
    }
}

impl<'a> BlockDevice for MemoryBlockDevice<'a> {
    closed spec fn contents(&self) -> Seq<u8> {
        self.data@
    }

    open spec fn fault_free(&self) -> bool {
        true
    }

    /// Copies `data[offset..offset + buf.len()]` into `buf`, or reports
    /// `OutOfBounds` and leaves `buf` as it was when that range does not lie
    /// within `data`.
    fn read_at(&self, offset: u64, buf: &mut [u8]) -> (res: BlockDeviceResult<()>)
        ensures
            match read_result(self.contents(), offset as int, old(buf)@.len() as int) {
                Ok(bytes) => res is Ok && final(buf)@ == bytes,
                Err(e) => res == Err::<(), BlockDeviceError>(e) && final(buf)@ == old(buf)@,
            },
    {
        let len = buf.len();
        let total = self.data.len();
        if offset > total as u64 {
            return Err(BlockDeviceError::OutOfBounds);
        }
        let start = offset as usize;
        if len > total - start {
            return Err(BlockDeviceError::OutOfBounds);
        }
        let mut i: usize = 0;
        while i < len
            invariant
                i <= len,
                len == buf@.len(),
                len == old(buf)@.len(),
                start + len <= total == self.data@.len(),
                forall|j: int| 0 <= j < i ==> buf@[j] == self.data@[start + j],
            decreases len - i,
        {
            buf[i] = self.data[start + i];
            i += 1;
        }
        assert(buf@ =~= self.data@.subrange(start as int, start + len));
        Ok(())
    }
}

} // verus!
