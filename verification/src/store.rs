//! The backing store: the bytes of one store image, held in memory.

use vstd::prelude::*;
use crate::error::VfsError;
use crate::layout::{overwrite, Geometry};

verus! {

/// A store image of fixed length. It stands where a file on disk would:
/// callers read and write byte ranges of it, and its length never changes.
pub struct BackingStore {
    geometry: Geometry,
    bytes: Vec<u8>,
}

impl View for BackingStore {
    type V = Seq<u8>;

    closed spec fn view(&self) -> Seq<u8> {
        self.bytes@
    }
}

impl BackingStore {
    /// The geometry the store was made for.
    pub closed spec fn geometry(&self) -> Geometry {
        self.geometry
    }

    /// The image has exactly the length that its geometry asks for.
    pub open spec fn wf(&self) -> bool {
        &&& self.geometry().wf()
        &&& self@.len() == self.geometry().store_len()
    }

    /// A new store of zero bytes.
    pub fn blank(geometry: Geometry) -> (store: BackingStore)
        requires
            geometry.wf(),
        ensures
            store.wf(),
            store.geometry() == geometry,
            store@ == geometry.blank(),
    {
        let n = geometry.total_len();
        let bytes = vec![0u8; n];
        assert(bytes@ =~= geometry.blank());
        BackingStore { geometry, bytes }
    }

    /// Takes existing bytes as a store. Bytes of any other length than the
    /// geometry's are refused as corrupt.
    pub fn from_bytes(geometry: Geometry, bytes: Vec<u8>) -> (r: Result<BackingStore, VfsError>)
        requires
            geometry.wf(),
        ensures
            r is Ok <==> bytes@.len() == geometry.store_len(),
            r is Ok ==> r->Ok_0.wf() && r->Ok_0.geometry() == geometry && r->Ok_0@ == bytes@,
            r is Err ==> r->Err_0 == VfsError::CorruptStore,
    {
        if bytes.len() != geometry.total_len() {
            return Err(VfsError::CorruptStore);
        }
        Ok(BackingStore { geometry, bytes })
    }

    /// The store's geometry.
    pub fn get_geometry(&self) -> (g: Geometry)
        ensures
            g == self.geometry(),
    {
        self.geometry
    }

    /// The whole image.
    pub fn as_bytes(&self) -> (bytes: &Vec<u8>)
        ensures
            bytes@ == self@,
    {
        &self.bytes
    }

    /// Gives the image up.
    pub fn into_bytes(self) -> (bytes: Vec<u8>)
        ensures
            bytes@ == self@,
    {
        self.bytes
    }

    /// Writes `data` over the bytes that start at `offset`.
    pub fn write_at(&mut self, offset: usize, data: &[u8])
        requires
            offset + data@.len() <= old(self)@.len(),
        ensures
            final(self).geometry() == old(self).geometry(),
            final(self)@ == overwrite(old(self)@, offset as int, data@),
    {
        let mut k: usize = 0;
        while k < data.len()
            invariant
                k <= data@.len(),
                offset + data@.len() <= old(self)@.len(),
                self.geometry == old(self).geometry,
                self.bytes.len() == old(self)@.len(),
                self.bytes@ == overwrite(old(self)@, offset as int, data@.subrange(0, k as int)),
            decreases data@.len() - k,
        {
            self.bytes.set(offset + k, data[k]);
            assert(self.bytes@ =~= overwrite(
                old(self)@,
                offset as int,
                data@.subrange(0, k + 1),
            ));
            k += 1;
        }
        assert(data@.subrange(0, k as int) =~= data@);
    }

    /// The `len` bytes that start at `offset`.
    pub fn read_at(&self, offset: usize, len: usize) -> (out: Vec<u8>)
        requires
            offset + len <= self@.len(),
        ensures
            out@ == self@.subrange(offset as int, offset + len),
    {
        let mut out: Vec<u8> = Vec::with_capacity(len);
        let mut k: usize = 0;
        while k < len
            invariant
                k <= len,
                offset + len <= self.bytes.len(),
                out@ == self.bytes@.subrange(offset as int, offset + k),
            decreases len - k,
        {
            out.push(self.bytes[offset + k]);
            assert(out@ =~= self.bytes@.subrange(offset as int, offset + k + 1));
            k += 1;
        }
        out
    }
}

} // verus!
