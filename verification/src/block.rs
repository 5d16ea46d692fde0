//! The block allocator: which blocks of a store are free, and the reading
//! and writing of blocks by index.

use vstd::prelude::*;
use crate::error::VfsError;
use crate::layout::{
    all_free, decode_bitmap, encode_bitmap, lemma_block_in_store, lemma_decode_encode, overwrite,
    signature, signature_bytes, Geometry, FREE_FLAG, HEADER_SIZE, OCCUPIED_FLAG,
};
use crate::store::BackingStore;

verus! {

/// `i` is the lowest index whose flag says free.
pub open spec fn is_first_free(free_blocks: Seq<bool>, i: int) -> bool {
    &&& 0 <= i < free_blocks.len()
    &&& free_blocks[i]
    &&& forall|j: int| 0 <= j < i ==> !free_blocks[j]
}

/// No flag says free.
pub open spec fn none_free(free_blocks: Seq<bool>) -> bool {
    forall|j: int| 0 <= j < free_blocks.len() ==> !free_blocks[j]
}

/// The lowest free index, if any block is free.
pub open spec fn first_free(free_blocks: Seq<bool>) -> Option<int> {
    if exists|i: int| is_first_free(free_blocks, i) {
        Some(choose|i: int| is_first_free(free_blocks, i))
    } else {
        None
    }
}

/// What a block manager is, mathematically: the geometry of its store, one
/// flag per block (`true` for free), and the bytes of the store.
pub struct StoreState {
    pub geometry: Geometry,
    pub free_blocks: Seq<bool>,
    pub image: Seq<u8>,
}

impl StoreState {
    /// The image is a formatted store of the geometry, there is one flag per
    /// block, and the flags are what the bitmap of the image records.
    pub open spec fn wf(self) -> bool {
        &&& self.geometry.wf()
        &&& self.free_blocks.len() == self.geometry.total_blocks
        &&& self.geometry.is_formatted(self.image)
        &&& decode_bitmap(self.geometry.bitmap(self.image)) == self.free_blocks
    }

    /// The state of a store that was just created: formatted, every block
    /// free, every data byte zero.
    pub open spec fn fresh(geometry: Geometry) -> StoreState {
        StoreState {
            geometry,
            free_blocks: all_free(geometry.total_blocks as nat),
            image: geometry.format(geometry.blank()),
        }
    }

    /// The state read from an existing image, or `CorruptStore` if the image
    /// is no formatted store of the geometry.
    pub open spec fn open(geometry: Geometry, image: Seq<u8>) -> Result<StoreState, VfsError> {
        if geometry.is_formatted(image) {
            Ok(
                StoreState {
                    geometry,
                    free_blocks: decode_bitmap(geometry.bitmap(image)),
                    image,
                },
            )
        } else {
            Err(VfsError::CorruptStore)
        }
    }

    /// The state with new flags, written through to the bitmap of the image.
    pub open spec fn persist(self, free_blocks: Seq<bool>) -> StoreState {
        StoreState {
            geometry: self.geometry,
            free_blocks,
            image: overwrite(self.image, HEADER_SIZE as int, encode_bitmap(free_blocks)),
        }
    }

    /// Allocation takes the lowest free block and marks it occupied; with no
    /// free block it fails and changes nothing.
    pub open spec fn allocate_block(self) -> (StoreState, Result<usize, VfsError>) {
        match first_free(self.free_blocks) {
            Some(i) => (self.persist(self.free_blocks.update(i, false)), Ok(i as usize)),
            None => (self, Err(VfsError::NoFreeBlocks)),
        }
    }

    /// Freeing marks a block of the store free, whether or not it was
    /// occupied; an index outside the store fails and changes nothing.
    pub open spec fn free_block(self, index: int) -> (StoreState, Result<(), VfsError>) {
        if 0 <= index < self.geometry.total_blocks {
            (self.persist(self.free_blocks.update(index, true)), Ok(()))
        } else {
            (self, Err(VfsError::InvalidBlockIndex))
        }
    }

    /// Writing puts `data` at the start of a block and leaves the rest of the
    /// block and the flags alone. The index is checked before the length.
    pub open spec fn write_block(self, index: int, data: Seq<u8>) -> (
        StoreState,
        Result<(), VfsError>,
    ) {
        if !(0 <= index < self.geometry.total_blocks) {
            (self, Err(VfsError::InvalidBlockIndex))
        } else if data.len() > self.geometry.block_size {
            (self, Err(VfsError::DataTooLarge))
        } else {
            (
                StoreState {
                    geometry: self.geometry,
                    free_blocks: self.free_blocks,
                    image: overwrite(self.image, self.geometry.block_offset(index), data),
                },
                Ok(()),
            )
        }
    }

    /// Reading gives all the bytes of a block of the store.
    pub open spec fn read_block(self, index: int) -> Result<Seq<u8>, VfsError> {
        if 0 <= index < self.geometry.total_blocks {
            Ok(self.geometry.block(self.image, index))
        } else {
            Err(VfsError::InvalidBlockIndex)
        }
    }
}

/// The lowest free index is unique, so `first_free` finds it.
pub proof fn lemma_first_free_is(free_blocks: Seq<bool>, i: int)
    requires
        is_first_free(free_blocks, i),
    ensures
        first_free(free_blocks) == Some(i),
{
    let c = choose|c: int| is_first_free(free_blocks, c);
    assert(is_first_free(free_blocks, c));
    if c < i {
        assert(!free_blocks[c]);
    }
    if i < c {
        assert(!free_blocks[i]);
    }
}

/// `first_free` finds nothing exactly when no block is free.
pub proof fn lemma_first_free_none(free_blocks: Seq<bool>)
    ensures
        first_free(free_blocks) is None <==> none_free(free_blocks),
        first_free(free_blocks) is Some ==> is_first_free(free_blocks, first_free(free_blocks)->0),
{
    if exists|i: int| is_first_free(free_blocks, i) {
        let c = choose|c: int| is_first_free(free_blocks, c);
        assert(free_blocks[c]);
    } else {
        if !none_free(free_blocks) {
            let j = choose|j: int| 0 <= j < free_blocks.len() && free_blocks[j];
            lemma_lowest_exists(free_blocks, j);
        }
    }
}

proof fn lemma_lowest_exists(free_blocks: Seq<bool>, j: int)
    requires
        0 <= j < free_blocks.len(),
        free_blocks[j],
    ensures
        exists|i: int| is_first_free(free_blocks, i),
    decreases j,
{
    if forall|k: int| 0 <= k < j ==> !free_blocks[k] {
        assert(is_first_free(free_blocks, j));
    } else {
        let k = choose|k: int| 0 <= k < j && free_blocks[k];
        lemma_lowest_exists(free_blocks, k);
    }
}

/// A result that carries bytes, seen as a result that carries their view.
pub open spec fn bytes_view(r: Result<Vec<u8>, VfsError>) -> Result<Seq<u8>, VfsError> {
    match r {
        Ok(bytes) => Ok(bytes@),
        Err(e) => Err(e),
    }
}

/// The allocator of one store. It owns the store and keeps the flags of the
/// bitmap in memory; every change of a flag is written through to the store
/// before the call returns.
pub struct BlockManager {
    store: BackingStore,
    free_blocks: Vec<bool>,
}

impl View for BlockManager {
    type V = StoreState;

    closed spec fn view(&self) -> StoreState {
        StoreState {
            geometry: self.store.geometry(),
            free_blocks: self.free_blocks@,
            image: self.store@,
        }
    }
}

impl BlockManager {
    /// The manager's state is well formed; every constructor establishes
    /// this and every method keeps it.
    pub open spec fn wf(&self) -> bool {
        self@.wf()
    }

    /// Opens a store. Without existing bytes a new store is created and
    /// formatted. Existing bytes are taken as they are, never reformatted;
    /// they are refused as corrupt unless they have the store's length and
    /// start with the signature.
    pub fn initialize(geometry: Geometry, existing: Option<Vec<u8>>) -> (r: Result<
        BlockManager,
        VfsError,
    >)
        requires
            geometry.wf(),
        ensures
            match existing {
                None => r is Ok && r->Ok_0@ == StoreState::fresh(geometry),
                Some(bytes) => match StoreState::open(geometry, bytes@) {
                    Ok(state) => r is Ok && r->Ok_0@ == state,
                    Err(e) => r is Err && r->Err_0 == e,
                },
            },
            r is Ok ==> r->Ok_0.wf(),
    {
        let store = match existing {
            Some(bytes) => {
                let store = match BackingStore::from_bytes(geometry, bytes) {
                    Ok(store) => store,
                    Err(e) => {
                        return Err(e);
                    },
                };
                if !Self::has_signature(&store) {
                    return Err(VfsError::CorruptStore);
                }
                store
            },
            None => {
                let mut store = BackingStore::blank(geometry);
                Self::format(&mut store);
                proof {
                    lemma_format_is_formatted(geometry, geometry.blank());
                    lemma_decode_encode(all_free(geometry.total_blocks as nat));
                }
                store
            },
        };
        let free_blocks = Self::load_free_blocks(&store);
        Ok(BlockManager { store, free_blocks })
    }

    /// Whether the store starts with the signature.
    fn has_signature(store: &BackingStore) -> (b: bool)
        requires
            store.wf(),
        ensures
            b == store.geometry().is_formatted(store@),
    {
        let expected = signature();
        let found = store.read_at(0, HEADER_SIZE);
        let mut k: usize = 0;
        while k < HEADER_SIZE
            invariant
                k <= HEADER_SIZE,
                store.wf(),
                expected@ == signature_bytes(),
                found@ == store@.subrange(0, HEADER_SIZE as int),
                forall|j: int| 0 <= j < k ==> expected@[j] == found@[j],
            decreases HEADER_SIZE - k,
        {
            if expected[k] != found[k] {
                return false;
            }
            k += 1;
        }
        assert(expected@ =~= found@);
        true
    }

    /// Formats a store: writes the signature at its start and an all-free
    /// bitmap behind it. The blocks are not touched, so formatting twice
    /// gives the same image as formatting once.
    pub fn format(store: &mut BackingStore)
        requires
            old(store).wf(),
        ensures
            final(store).wf(),
            final(store).geometry() == old(store).geometry(),
            final(store)@ == old(store).geometry().format(old(store)@),
    {
        let magic = signature();
        store.write_at(0, magic.as_slice());
        let geometry = store.get_geometry();
        let free_blocks = vec![true; geometry.total_blocks];
        assert(free_blocks@ =~= all_free(geometry.total_blocks as nat));
        Self::save_free_blocks(store, free_blocks.as_slice());
    }

    /// Reads the flags from the bitmap of a store: a byte equal to the free
    /// flag means free, any other byte means occupied.
    pub fn load_free_blocks(store: &BackingStore) -> (free_blocks: Vec<bool>)
        requires
            store.wf(),
        ensures
            free_blocks@ == decode_bitmap(store.geometry().bitmap(store@)),
    {
        let geometry = store.get_geometry();
        let buffer = store.read_at(HEADER_SIZE, geometry.total_blocks);
        let mut free_blocks: Vec<bool> = Vec::with_capacity(buffer.len());
        let mut k: usize = 0;
        while k < buffer.len()
            invariant
                k <= buffer@.len(),
                free_blocks@ == decode_bitmap(buffer@.subrange(0, k as int)),
            decreases buffer@.len() - k,
        {
            free_blocks.push(buffer[k] == FREE_FLAG);
            assert(free_blocks@ =~= decode_bitmap(buffer@.subrange(0, k + 1)));
            k += 1;
        }
        assert(buffer@.subrange(0, k as int) =~= buffer@);
        free_blocks
    }

    /// Writes the flags to the bitmap of a store, one byte per block.
    pub fn save_free_blocks(store: &mut BackingStore, free_blocks: &[bool])
        requires
            old(store).wf(),
            free_blocks@.len() == old(store).geometry().total_blocks,
        ensures
            final(store).wf(),
            final(store).geometry() == old(store).geometry(),
            final(store)@ == overwrite(old(store)@, HEADER_SIZE as int, encode_bitmap(free_blocks@)),
    {
        let mut buffer: Vec<u8> = Vec::with_capacity(free_blocks.len());
        let mut k: usize = 0;
        while k < free_blocks.len()
            invariant
                k <= free_blocks@.len(),
                buffer@ == encode_bitmap(free_blocks@.subrange(0, k as int)),
            decreases free_blocks@.len() - k,
        {
            buffer.push(
                if free_blocks[k] {
                    FREE_FLAG
                } else {
                    OCCUPIED_FLAG
                },
            );
            assert(buffer@ =~= encode_bitmap(free_blocks@.subrange(0, k + 1)));
            k += 1;
        }
        assert(free_blocks@.subrange(0, k as int) =~= free_blocks@);
        store.write_at(HEADER_SIZE, buffer.as_slice());
    }

    /// Allocates the lowest free block and returns its index. The block is
    /// marked occupied in memory and the whole bitmap is written to the
    /// store. With no free block the call fails with `NoFreeBlocks` and
    /// changes nothing.
    pub fn allocate_block(&mut self) -> (r: Result<usize, VfsError>)
        requires
            old(self).wf(),
        ensures
            final(self).wf(),
            (final(self)@, r) == old(self)@.allocate_block(),
            none_free(old(self)@.free_blocks) ==> r == Err::<usize, VfsError>(
                VfsError::NoFreeBlocks,
            ) && final(self)@ == old(self)@,
            r is Ok ==> is_first_free(old(self)@.free_blocks, r->Ok_0 as int),
            r is Ok ==> final(self)@.geometry.bitmap(final(self)@.image) == encode_bitmap(
                final(self)@.free_blocks,
            ),
    {
        let n = self.free_blocks.len();
        let mut index: usize = 0;
        while index < n && !self.free_blocks[index]
            invariant
                index <= n,
                n == self.free_blocks@.len(),
                forall|j: int| 0 <= j < index ==> !self.free_blocks@[j],
            decreases n - index,
        {
            index += 1;
        }
        if index < n {
            proof {
                lemma_first_free_is(self.free_blocks@, index as int);
                lemma_persist_wf(self@, self.free_blocks@.update(index as int, false));
            }
            self.free_blocks.set(index, false);
            Self::save_free_blocks(&mut self.store, self.free_blocks.as_slice());
            Ok(index)
        } else {
            proof {
                lemma_first_free_none(self.free_blocks@);
            }
            Err(VfsError::NoFreeBlocks)
        }
    }

    /// Marks a block free and writes the whole bitmap to the store. Freeing
    /// a block that is already free is no error. An index outside the store
    /// fails with `InvalidBlockIndex` and changes nothing.
    pub fn free_block(&mut self, index: usize) -> (r: Result<(), VfsError>)
        requires
            old(self).wf(),
        ensures
            final(self).wf(),
            (final(self)@, r) == old(self)@.free_block(index as int),
            index >= old(self)@.geometry.total_blocks ==> r == Err::<(), VfsError>(
                VfsError::InvalidBlockIndex,
            ) && final(self)@ == old(self)@,
            r is Ok ==> final(self)@.geometry.bitmap(final(self)@.image) == encode_bitmap(
                final(self)@.free_blocks,
            ),
    {
        if index >= self.free_blocks.len() {
            return Err(VfsError::InvalidBlockIndex);
        }
        proof {
            lemma_persist_wf(self@, self.free_blocks@.update(index as int, true));
        }
        self.free_blocks.set(index, true);
        Self::save_free_blocks(&mut self.store, self.free_blocks.as_slice());
        Ok(())
    }

    /// Writes `data` at the start of a block. Bytes of the block behind the
    /// data keep what they held. Whether the block is allocated plays no
    /// part. An index outside the store fails with `InvalidBlockIndex`, data
    /// longer than a block with `DataTooLarge`; both change nothing.
    pub fn write_block(&mut self, index: usize, data: &[u8]) -> (r: Result<(), VfsError>)
        requires
            old(self).wf(),
        ensures
            final(self).wf(),
            (final(self)@, r) == old(self)@.write_block(index as int, data@),
            index >= old(self)@.geometry.total_blocks ==> r == Err::<(), VfsError>(
                VfsError::InvalidBlockIndex,
            ) && final(self)@ == old(self)@,
            index < old(self)@.geometry.total_blocks && data@.len() > old(self)@.geometry.block_size
                ==> r == Err::<(), VfsError>(VfsError::DataTooLarge) && final(self)@ == old(self)@,
    {
        let geometry = self.store.get_geometry();
        if index >= geometry.total_blocks {
            return Err(VfsError::InvalidBlockIndex);
        }
        if data.len() > geometry.block_size {
            return Err(VfsError::DataTooLarge);
        }
        let offset = geometry.offset_of_block(index);
        proof {
            lemma_write_block_wf(self@, index as int, data@);
        }
        self.store.write_at(offset, data);
        Ok(())
    }

    /// Reads a whole block, whatever it holds. An index outside the store
    /// fails with `InvalidBlockIndex`.
    pub fn read_block(&self, index: usize) -> (r: Result<Vec<u8>, VfsError>)
        requires
            self.wf(),
        ensures
            bytes_view(r) == self@.read_block(index as int),
            index >= self@.geometry.total_blocks ==> r == Err::<Vec<u8>, VfsError>(
                VfsError::InvalidBlockIndex,
            ),
            index < self@.geometry.total_blocks ==> r is Ok && r->Ok_0@.len()
                == self@.geometry.block_size,
    {
        let geometry = self.store.get_geometry();
        if index >= geometry.total_blocks {
            return Err(VfsError::InvalidBlockIndex);
        }
        let offset = geometry.offset_of_block(index);
        proof {
            lemma_block_in_store(geometry, index as int);
        }
        Ok(self.store.read_at(offset, geometry.block_size))
    }

    /// The geometry of the store.
    pub fn geometry(&self) -> (g: Geometry)
        ensures
            g == self@.geometry,
    {
        self.store.get_geometry()
    }

    /// The flags as the manager holds them: `true` for a free block.
    pub fn free_blocks(&self) -> (flags: &Vec<bool>)
        ensures
            flags@ == self@.free_blocks,
    {
        &self.free_blocks
    }

    /// The bytes of the store as they stand.
    pub fn image(&self) -> (bytes: &Vec<u8>)
        ensures
            bytes@ == self@.image,
    {
        self.store.as_bytes()
    }

    /// Closes the manager and gives the bytes of the store.
    pub fn into_image(self) -> (bytes: Vec<u8>)
        ensures
            bytes@ == self@.image,
    {
        self.store.into_bytes()
    }
}

/// Writing flags through keeps a state well formed, and leaves the signature
/// and every block as they were.
pub proof fn lemma_persist_wf(state: StoreState, free_blocks: Seq<bool>)
    requires
        state.wf(),
        free_blocks.len() == state.geometry.total_blocks,
    ensures
        state.persist(free_blocks).wf(),
        state.geometry.bitmap(state.persist(free_blocks).image) == encode_bitmap(free_blocks),
        state.geometry.data(state.persist(free_blocks).image) == state.geometry.data(state.image),
{
    let g = state.geometry;
    let after = state.persist(free_blocks);
    assert(after.image.subrange(0, HEADER_SIZE as int) =~= state.image.subrange(
        0,
        HEADER_SIZE as int,
    ));
    assert(g.bitmap(after.image) =~= encode_bitmap(free_blocks));
    lemma_decode_encode(free_blocks);
    assert(g.data(after.image) =~= g.data(state.image));
}

/// Writing a block keeps a state well formed.
pub proof fn lemma_write_block_wf(state: StoreState, index: int, data: Seq<u8>)
    requires
        state.wf(),
    ensures
        state.write_block(index, data).0.wf(),
{
    let g = state.geometry;
    let after = state.write_block(index, data).0;
    if 0 <= index < g.total_blocks && data.len() <= g.block_size {
        lemma_block_in_store(g, index);
        assert(after.image.subrange(0, HEADER_SIZE as int) =~= state.image.subrange(
            0,
            HEADER_SIZE as int,
        ));
        assert(g.bitmap(after.image) =~= g.bitmap(state.image));
    }
}

/// Formatting any store-sized image gives a formatted store whose bitmap
/// says that every block is free.
pub proof fn lemma_format_is_formatted(geometry: Geometry, image: Seq<u8>)
    requires
        geometry.wf(),
        image.len() == geometry.store_len(),
    ensures
        geometry.is_formatted(geometry.format(image)),
        geometry.bitmap(geometry.format(image)) == encode_bitmap(
            all_free(geometry.total_blocks as nat),
        ),
        geometry.data(geometry.format(image)) == geometry.data(image),
        geometry.format(geometry.format(image)) == geometry.format(image),
{
    let formatted = geometry.format(image);
    assert(formatted.subrange(0, HEADER_SIZE as int) =~= signature_bytes());
    assert(geometry.bitmap(formatted) =~= encode_bitmap(all_free(geometry.total_blocks as nat)));
    assert(geometry.data(formatted) =~= geometry.data(image));
    assert(geometry.format(formatted) =~= formatted);
}

/// Allocation and freeing keep a state well formed.
pub proof fn lemma_steps_keep_wf(state: StoreState, index: int)
    requires
        state.wf(),
    ensures
        state.allocate_block().0.wf(),
        state.free_block(index).0.wf(),
{
    lemma_first_free_none(state.free_blocks);
    if first_free(state.free_blocks) is Some {
        lemma_persist_wf(state, state.free_blocks.update(first_free(state.free_blocks)->0, false));
    }
    if 0 <= index < state.geometry.total_blocks {
        lemma_persist_wf(state, state.free_blocks.update(index, true));
    }
}

/// Allocation reuse: when a block is allocated, then freed, the next
/// allocation returns the same block, and the state is again what it was
/// after the first allocation.
pub proof fn lemma_allocation_reuse(state: StoreState)
    requires
        state.wf(),
        state.allocate_block().1 is Ok,
    ensures
        ({
            let (s1, r1) = state.allocate_block();
            let (s2, r2) = s1.free_block(r1->Ok_0 as int);
            let (s3, r3) = s2.allocate_block();
            r2 == Ok::<(), VfsError>(()) && r3 == r1 && s3 == s1
        }),
{
    lemma_first_free_none(state.free_blocks);
    let i = first_free(state.free_blocks)->0;
    let (s1, r1) = state.allocate_block();
    let (s2, r2) = s1.free_block(i);
    assert(is_first_free(s2.free_blocks, i));
    lemma_first_free_is(s2.free_blocks, i);
    let (s3, r3) = s2.allocate_block();
    assert(s3.free_blocks =~= s1.free_blocks);
    assert(s3.image =~= s1.image);
}

/// First fit: when a block is freed below which no block is free, the next
/// allocation returns that block.
pub proof fn lemma_lowest_freed_is_reused(state: StoreState, index: int)
    requires
        state.wf(),
        0 <= index < state.geometry.total_blocks,
        forall|j: int| 0 <= j < index ==> !state.free_blocks[j],
    ensures
        state.free_block(index).0.allocate_block().1 == Ok::<usize, VfsError>(index as usize),
{
    let s1 = state.free_block(index).0;
    assert(is_first_free(s1.free_blocks, index));
    lemma_first_free_is(s1.free_blocks, index);
}

/// Persistence: a well-formed state is read back unchanged from its own
/// image, so closing a store and opening it again loses nothing.
pub proof fn lemma_reopen(state: StoreState)
    requires
        state.wf(),
    ensures
        StoreState::open(state.geometry, state.image) == Ok::<StoreState, VfsError>(state),
{
}

/// Persistence after a change: the image left by an allocation or by a
/// freeing is read back as the state that the call left, and its bitmap holds
/// the flags byte for byte.
pub proof fn lemma_reopen_after_change(state: StoreState, index: int)
    requires
        state.wf(),
    ensures
        ({
            let s = state.allocate_block().0;
            StoreState::open(s.geometry, s.image) == Ok::<StoreState, VfsError>(s)
        }),
        ({
            let s = state.free_block(index).0;
            StoreState::open(s.geometry, s.image) == Ok::<StoreState, VfsError>(s)
        }),
        state.allocate_block().1 is Ok ==> ({
            let s = state.allocate_block().0;
            s.geometry.bitmap(s.image) == encode_bitmap(s.free_blocks)
        }),
        state.free_block(index).1 is Ok ==> ({
            let s = state.free_block(index).0;
            s.geometry.bitmap(s.image) == encode_bitmap(s.free_blocks)
        }),
{
    lemma_steps_keep_wf(state, index);
    lemma_first_free_none(state.free_blocks);
    if first_free(state.free_blocks) is Some {
        lemma_persist_wf(state, state.free_blocks.update(first_free(state.free_blocks)->0, false));
    }
    if 0 <= index < state.geometry.total_blocks {
        lemma_persist_wf(state, state.free_blocks.update(index, true));
    }
}

/// Bounds: with an index at or beyond the number of blocks, writing, reading
/// and freeing fail with `InvalidBlockIndex` and leave the state as it was.
pub proof fn lemma_bounds_enforced(state: StoreState, index: int, data: Seq<u8>)
    requires
        index >= state.geometry.total_blocks,
    ensures
        state.write_block(index, data) == (state, Err::<(), VfsError>(VfsError::InvalidBlockIndex)),
        state.read_block(index) == Err::<Seq<u8>, VfsError>(VfsError::InvalidBlockIndex),
        state.free_block(index) == (state, Err::<(), VfsError>(VfsError::InvalidBlockIndex)),
{
}

/// Size: data longer than a block, written to a block of the store, fails
/// with `DataTooLarge` and leaves the state as it was.
pub proof fn lemma_size_enforced(state: StoreState, index: int, data: Seq<u8>)
    requires
        0 <= index < state.geometry.total_blocks,
        data.len() > state.geometry.block_size,
    ensures
        state.write_block(index, data) == (state, Err::<(), VfsError>(VfsError::DataTooLarge)),
{
}

/// The state after `n` allocations in a row.
pub open spec fn allocate_many(state: StoreState, n: nat) -> StoreState
    decreases n,
{
    if n == 0 {
        state
    } else {
        allocate_many(state, (n - 1) as nat).allocate_block().0
    }
}

/// Filling a new store: the allocations on a new store return the blocks in
/// the order of their indices, and after `n` of them exactly the first `n`
/// blocks are occupied.
pub proof fn lemma_fill_fresh(geometry: Geometry, n: nat)
    requires
        geometry.wf(),
        n <= geometry.total_blocks,
    ensures
        allocate_many(StoreState::fresh(geometry), n).wf(),
        allocate_many(StoreState::fresh(geometry), n).free_blocks == Seq::new(
            geometry.total_blocks as nat,
            |i: int| i >= n,
        ),
        n < geometry.total_blocks ==> allocate_many(
            StoreState::fresh(geometry),
            n,
        ).allocate_block().1 == Ok::<usize, VfsError>(n as usize),
    decreases n,
{
    let fresh = StoreState::fresh(geometry);
    let total = geometry.total_blocks as nat;
    if n == 0 {
        lemma_format_is_formatted(geometry, geometry.blank());
        lemma_decode_encode(all_free(total));
        assert(fresh.free_blocks =~= Seq::new(total, |i: int| i >= 0));
    } else {
        lemma_fill_fresh(geometry, (n - 1) as nat);
        let before = allocate_many(fresh, (n - 1) as nat);
        lemma_steps_keep_wf(before, 0);
        let after = allocate_many(fresh, n);
        assert(after == before.allocate_block().0);
        assert(after.free_blocks =~= Seq::new(total, |i: int| i >= n));
    }
    let state = allocate_many(fresh, n);
    if n < total {
        assert(is_first_free(state.free_blocks, n as int));
        lemma_first_free_is(state.free_blocks, n as int);
    }
}

/// Exhaustion: once every block of a new store has been allocated, the next
/// allocation fails with `NoFreeBlocks`.
pub proof fn lemma_full_store_is_exhausted(geometry: Geometry)
    requires
        geometry.wf(),
    ensures
        ({
            let full = allocate_many(StoreState::fresh(geometry), geometry.total_blocks as nat);
            none_free(full.free_blocks) && full.allocate_block() == (
                full,
                Err::<usize, VfsError>(VfsError::NoFreeBlocks),
            )
        }),
{
    lemma_fill_fresh(geometry, geometry.total_blocks as nat);
    let full = allocate_many(StoreState::fresh(geometry), geometry.total_blocks as nat);
    lemma_first_free_none(full.free_blocks);
}

/// Exhaustion: with every block occupied an allocation fails; after one block
/// is freed, exactly one allocation succeeds, it returns that block, and the
/// one after it fails again.
pub proof fn lemma_exhaustion(state: StoreState, index: int)
    requires
        state.wf(),
        none_free(state.free_blocks),
        0 <= index < state.geometry.total_blocks,
    ensures
        ({
            let (s1, r1) = state.free_block(index);
            let (s2, r2) = s1.allocate_block();
            let (s3, r3) = s2.allocate_block();
            &&& state.allocate_block() == (state, Err::<usize, VfsError>(VfsError::NoFreeBlocks))
            &&& r1 == Ok::<(), VfsError>(())
            &&& r2 == Ok::<usize, VfsError>(index as usize)
            &&& r3 == Err::<usize, VfsError>(VfsError::NoFreeBlocks)
            &&& s3 == s2
        }),
{
    lemma_first_free_none(state.free_blocks);
    let (s1, r1) = state.free_block(index);
    assert(is_first_free(s1.free_blocks, index));
    lemma_first_free_is(s1.free_blocks, index);
    let (s2, r2) = s1.allocate_block();
    assert(none_free(s2.free_blocks));
    lemma_first_free_none(s2.free_blocks);
}

/// Fidelity: after data is written to a block, reading the block gives the
/// data, followed by what the block held before behind it; every other block
/// reads as before.
pub proof fn lemma_read_after_write(state: StoreState, index: int, data: Seq<u8>, other: int)
    requires
        state.wf(),
        0 <= index < state.geometry.total_blocks,
        data.len() <= state.geometry.block_size,
        0 <= other < state.geometry.total_blocks,
    ensures
        ({
            let (after, r) = state.write_block(index, data);
            let size = state.geometry.block_size as int;
            &&& r == Ok::<(), VfsError>(())
            &&& after.read_block(index) is Ok
            &&& after.read_block(index)->Ok_0.subrange(0, data.len() as int) == data
            &&& after.read_block(index)->Ok_0.subrange(data.len() as int, size)
                == state.read_block(index)->Ok_0.subrange(data.len() as int, size)
            &&& other != index ==> after.read_block(other) == state.read_block(other)
        }),
{
    let g = state.geometry;
    let (after, r) = state.write_block(index, data);
    let size = g.block_size as int;
    lemma_block_in_store(g, index);
    lemma_block_in_store(g, other);
    let got = after.read_block(index)->Ok_0;
    assert(got.subrange(0, data.len() as int) =~= data);
    assert(got.subrange(data.len() as int, size) =~= state.read_block(index)->Ok_0.subrange(
        data.len() as int,
        size,
    ));
    if other != index {
        lemma_blocks_disjoint(g, index, other);
        assert(g.block(after.image, other) =~= g.block(state.image, other));
    }
}

/// Two different blocks share no byte.
pub proof fn lemma_blocks_disjoint(g: Geometry, a: int, b: int)
    requires
        0 <= a < g.total_blocks,
        0 <= b < g.total_blocks,
        a != b,
    ensures
        g.block_offset(a + 1) <= g.block_offset(b) || g.block_offset(b + 1) <= g.block_offset(a),
{
    if a < b {
        assert((a + 1) * g.block_size <= b * g.block_size) by (nonlinear_arith)
            requires
                a + 1 <= b,
                0 <= g.block_size,
        ;
    } else {
        assert((b + 1) * g.block_size <= a * g.block_size) by (nonlinear_arith)
            requires
                b + 1 <= a,
                0 <= g.block_size,
        ;
    }
}

} // verus!
