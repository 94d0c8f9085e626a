//! The byte buffer behind one persistent-memory region.

use vstd::prelude::*;
use vstd::slice::slice_to_vec;

verus! {

/// Why an operation on a region was refused.
#[derive(Clone, Copy, Debug, PartialEq, Eq, Structural)]
pub enum PmemError {
    /// The region length is zero or not a multiple of the line size.
    InvalidLength,
    /// The addressed range does not lie inside the region.
    OutOfRange,
}

/// An addressable byte buffer that backs one region, held in process memory.
#[derive(Debug)]
pub struct MemoryImage {
    bytes: Vec<u8>,
}

impl View for MemoryImage {
    type V = Seq<u8>;

    closed spec fn view(&self) -> Seq<u8> {
        self.bytes@
    }
}

/// `base` with `data` laid over it from offset `addr` on.
pub open spec fn overlay(base: Seq<u8>, addr: int, data: Seq<u8>) -> Seq<u8> {
    Seq::new(
        base.len(),
        |i: int|
            if addr <= i < addr + data.len() {
                data[i - addr]
            } else {
                base[i]
            },
    )
}

impl MemoryImage {
    /// A region of `len` zero bytes.
    pub fn new(len: usize) -> (image: MemoryImage)
        ensures
            image@ == Seq::new(len as nat, |i: int| 0u8),
    {
        let mut bytes: Vec<u8> = Vec::new();
        let mut i: usize = 0;
        while i < len
            invariant
                i <= len,
                bytes@ == Seq::new(i as nat, |k: int| 0u8),
            decreases len - i,
        {
            bytes.push(0u8);
            i += 1;
        }
        MemoryImage { bytes }
    }

    /// A region that starts out with the given content.
    pub fn from_bytes(bytes: Vec<u8>) -> (image: MemoryImage)
        ensures
            image@ == bytes@,
    {
        MemoryImage { bytes }
    }

    /// The number of bytes in the region.
    pub fn len(&self) -> (n: usize)
        ensures
            n == self@.len(),
    {
        self.bytes.len()
    }

    /// The whole content, borrowed.
    pub fn as_slice(&self) -> (content: &[u8])
        ensures
            content@ == self@,
    {
        self.bytes.as_slice()
    }

    /// Gives the buffer up.
    pub fn into_bytes(self) -> (bytes: Vec<u8>)
        ensures
            bytes@ == self@,
    {
        self.bytes
    }

    /// Copies `len` bytes that start at `addr`, or reports that the range
    /// leaves the region.
    pub fn read(&self, addr: usize, len: usize) -> (result: Result<Vec<u8>, PmemError>)
        ensures
            result is Ok <==> addr + len <= self@.len(),
            result is Ok ==> result->Ok_0@ == self@.subrange(addr as int, addr + len),
            result is Err ==> result == Err::<Vec<u8>, PmemError>(PmemError::OutOfRange),
    {
        let n: usize = self.bytes.len();
        if len > n || addr > n - len {
            return Err(PmemError::OutOfRange);
        }
        let part = vstd::slice::slice_subrange(self.bytes.as_slice(), addr, addr + len);
        Ok(slice_to_vec(part))
    }

    /// Stores `data` at `addr`, or leaves the region untouched and reports
    /// that the range leaves it.
    pub fn write(&mut self, addr: usize, data: &[u8]) -> (result: Result<(), PmemError>)
        ensures
            result is Ok <==> addr + data@.len() <= old(self)@.len(),
            result is Ok ==> final(self)@ == overlay(old(self)@, addr as int, data@),
            result is Err ==> final(self)@ == old(self)@ && result == Err::<(), PmemError>(
                PmemError::OutOfRange,
            ),
    {
        let n: usize = self.bytes.len();
        let m: usize = data.len();
        if m > n || addr > n - m {
            return Err(PmemError::OutOfRange);
        }
        let mut i: usize = 0;
        while i < m
            invariant
                i <= m,
                m == data@.len(),
                addr + m <= n,
                n == self.bytes@.len(),
                self.bytes@ == overlay(old(self).bytes@, addr as int, data@.take(i as int)),
            decreases m - i,
        {
            self.bytes[addr + i] = data[i];
            i += 1;
        }
        Ok(())
    }
}

} // verus!
