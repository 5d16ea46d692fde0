//! The byte layout of a store: a four-byte signature, one flag byte per
//! block, then the blocks themselves.

use vstd::prelude::*;

verus! {

/// Size of a block in the standard geometry.
pub const BLOCK_SIZE: usize = 4096;

/// Number of blocks in the standard geometry.
pub const TOTAL_BLOCKS: usize = 1024;

/// The value whose little-endian bytes open every formatted store.
pub const MAGIC_NUMBER: u32 = 0xDEADBEEF;

/// Width of the signature in bytes; the bitmap starts here.
pub const HEADER_SIZE: usize = 4;

/// Bitmap byte of a free block.
pub const FREE_FLAG: u8 = 1;

/// Bitmap byte written for an occupied block.
pub const OCCUPIED_FLAG: u8 = 0;

/// How many blocks a store has and how large each one is.
#[derive(Clone, Copy, Debug, PartialEq, Eq, Structural)]
pub struct Geometry {
    pub total_blocks: usize,
    pub block_size: usize,
}

/// Length in bytes of a store of `total_blocks` blocks of `block_size` bytes.
pub open spec fn store_len_of(total_blocks: int, block_size: int) -> int {
    HEADER_SIZE as int + total_blocks + total_blocks * block_size
}

impl Geometry {
    /// A geometry is usable when its blocks are not empty and the whole store
    /// can be addressed with a `usize`.
    pub open spec fn wf(self) -> bool {
        &&& self.block_size > 0
        &&& store_len_of(self.total_blocks as int, self.block_size as int) <= usize::MAX
    }

    /// Total length of the store in bytes.
    pub open spec fn store_len(self) -> int {
        store_len_of(self.total_blocks as int, self.block_size as int)
    }

    /// Offset of the first block, which is also the end of the bitmap.
    pub open spec fn data_offset(self) -> int {
        HEADER_SIZE as int + self.total_blocks as int
    }

    /// Offset of block `index`.
    pub open spec fn block_offset(self, index: int) -> int {
        self.data_offset() + index * self.block_size as int
    }

    /// The geometry of the given dimensions, unless its blocks would be empty
    /// or its store too long to be addressed.
    pub fn new(total_blocks: usize, block_size: usize) -> (r: Option<Geometry>)
        ensures
            r is Some <==> block_size > 0 && store_len_of(total_blocks as int, block_size as int)
                <= usize::MAX,
            r is Some ==> r->0 == (Geometry { total_blocks, block_size }),
    {
        if block_size == 0 {
            return None;
        }
        let data = match total_blocks.checked_mul(block_size) {
            Some(n) => n,
            None => {
                return None;
            },
        };
        let head = match HEADER_SIZE.checked_add(total_blocks) {
            Some(n) => n,
            None => {
                assert(total_blocks * block_size >= total_blocks) by (nonlinear_arith)
                    requires
                        block_size > 0,
                ;
                return None;
            },
        };
        match head.checked_add(data) {
            Some(_) => Some(Geometry { total_blocks, block_size }),
            None => None,
        }
    }

    /// 1024 blocks of 4096 bytes.
    pub fn standard() -> (g: Geometry)
        ensures
            g == (Geometry { total_blocks: TOTAL_BLOCKS, block_size: BLOCK_SIZE }),
            g.wf(),
    {
        Geometry { total_blocks: TOTAL_BLOCKS, block_size: BLOCK_SIZE }
    }

    /// Computes [`Geometry::store_len`].
    pub fn total_len(&self) -> (n: usize)
        requires
            self.wf(),
        ensures
            n == self.store_len(),
    {
        HEADER_SIZE + self.total_blocks + self.total_blocks * self.block_size
    }

    /// Computes [`Geometry::data_offset`].
    pub fn first_block_offset(&self) -> (n: usize)
        requires
            self.wf(),
        ensures
            n == self.data_offset(),
    {
        HEADER_SIZE + self.total_blocks
    }

    /// Computes [`Geometry::block_offset`] for a block of the store.
    pub fn offset_of_block(&self, index: usize) -> (n: usize)
        requires
            self.wf(),
            index < self.total_blocks,
        ensures
            n == self.block_offset(index as int),
            n + self.block_size <= self.store_len(),
    {
        proof {
            lemma_block_in_store(*self, index as int);
        }
        HEADER_SIZE + self.total_blocks + index * self.block_size
    }
}

/// Every block of a store lies inside it, behind the bitmap, and blocks follow
/// one another in the order of their indices without overlapping.
pub proof fn lemma_block_in_store(g: Geometry, index: int)
    requires
        0 <= index < g.total_blocks,
    ensures
        g.data_offset() <= g.block_offset(index),
        g.block_offset(index) + g.block_size == g.block_offset(index + 1),
        g.block_offset(index + 1) <= g.store_len(),
        0 <= index * g.block_size <= g.total_blocks * g.block_size - g.block_size,
{
    assert(0 <= index * g.block_size) by (nonlinear_arith)
        requires
            0 <= index,
            0 <= g.block_size,
    ;
    assert((index + 1) * g.block_size <= g.total_blocks * g.block_size) by (nonlinear_arith)
        requires
            index + 1 <= g.total_blocks,
            0 <= g.block_size,
    ;
    assert((index + 1) * g.block_size == index * g.block_size + g.block_size)
        by (nonlinear_arith);
}

/// The bytes of `x`, least significant first.
pub open spec fn le_bytes(x: u32) -> Seq<u8> {
    seq![
        (x & 0xff) as u8,
        ((x >> 8) & 0xff) as u8,
        ((x >> 16) & 0xff) as u8,
        ((x >> 24) & 0xff) as u8,
    ]
}

/// The four bytes at the start of a formatted store.
pub open spec fn signature_bytes() -> Seq<u8> {
    le_bytes(MAGIC_NUMBER)
}

/// The signature is `EF BE AD DE`.
pub proof fn lemma_signature_bytes()
    ensures
        signature_bytes() == seq![0xEFu8, 0xBEu8, 0xADu8, 0xDEu8],
{
    assert((0xDEADBEEFu32 & 0xff) == 0xEF) by (bit_vector);
    assert(((0xDEADBEEFu32 >> 8) & 0xff) == 0xBE) by (bit_vector);
    assert(((0xDEADBEEFu32 >> 16) & 0xff) == 0xAD) by (bit_vector);
    assert(((0xDEADBEEFu32 >> 24) & 0xff) == 0xDE) by (bit_vector);
    assert(signature_bytes() =~= seq![0xEFu8, 0xBEu8, 0xADu8, 0xDEu8]);
}

/// Computes [`signature_bytes`].
pub fn signature() -> (s: Vec<u8>)
    ensures
        s@ == signature_bytes(),
{
    let x: u32 = MAGIC_NUMBER;
    assert((x & 0xff) <= 0xff && ((x >> 8) & 0xff) <= 0xff && ((x >> 16) & 0xff) <= 0xff && ((x
        >> 24) & 0xff) <= 0xff) by (bit_vector);
    let mut s: Vec<u8> = Vec::new();
    s.push((x & 0xff) as u8);
    s.push(((x >> 8) & 0xff) as u8);
    s.push(((x >> 16) & 0xff) as u8);
    s.push(((x >> 24) & 0xff) as u8);
    assert(s@ =~= signature_bytes());
    s
}

/// The bitmap byte that records `free`.
pub open spec fn flag_byte(free: bool) -> u8 {
    if free {
        FREE_FLAG
    } else {
        OCCUPIED_FLAG
    }
}

/// Whether a bitmap byte records a free block: only the free flag does, every
/// other value stands for an occupied block.
pub open spec fn byte_is_free(byte: u8) -> bool {
    byte == FREE_FLAG
}

/// The bitmap bytes that record `flags`, where `true` means free.
pub open spec fn encode_bitmap(flags: Seq<bool>) -> Seq<u8> {
    Seq::new(flags.len(), |i: int| flag_byte(flags[i]))
}

/// The flags that bitmap bytes record.
pub open spec fn decode_bitmap(bytes: Seq<u8>) -> Seq<bool> {
    Seq::new(bytes.len(), |i: int| byte_is_free(bytes[i]))
}

/// `n` flags, all free.
pub open spec fn all_free(n: nat) -> Seq<bool> {
    Seq::new(n, |i: int| true)
}

/// `image` with the bytes from `offset` on replaced by `data`.
pub open spec fn overwrite(image: Seq<u8>, offset: int, data: Seq<u8>) -> Seq<u8>
    recommends
        0 <= offset,
        offset + data.len() <= image.len(),
{
    Seq::new(
        image.len(),
        |i: int|
            if offset <= i < offset + data.len() {
                data[i - offset]
            } else {
                image[i]
            },
    )
}

impl Geometry {
    /// The bitmap region of an image.
    pub open spec fn bitmap(self, image: Seq<u8>) -> Seq<u8> {
        image.subrange(HEADER_SIZE as int, self.data_offset())
    }

    /// The bytes of block `index` of an image.
    pub open spec fn block(self, image: Seq<u8>, index: int) -> Seq<u8> {
        image.subrange(self.block_offset(index), self.block_offset(index + 1))
    }

    /// The data region of an image: all its blocks.
    pub open spec fn data(self, image: Seq<u8>) -> Seq<u8> {
        image.subrange(self.data_offset(), self.store_len())
    }

    /// An image is a formatted store when it has the store's length and opens
    /// with the signature.
    pub open spec fn is_formatted(self, image: Seq<u8>) -> bool {
        &&& image.len() == self.store_len()
        &&& image.subrange(0, HEADER_SIZE as int) == signature_bytes()
    }

    /// A store-sized image of zero bytes.
    pub open spec fn blank(self) -> Seq<u8> {
        Seq::new(self.store_len() as nat, |i: int| 0u8)
    }

    /// `image` with the signature and an all-free bitmap written over its
    /// first two regions; the blocks are left as they are.
    pub open spec fn format(self, image: Seq<u8>) -> Seq<u8> {
        overwrite(
            overwrite(image, 0, signature_bytes()),
            HEADER_SIZE as int,
            encode_bitmap(all_free(self.total_blocks as nat)),
        )
    }
}

/// Encoding flags and decoding them again gives the flags back.
pub proof fn lemma_decode_encode(flags: Seq<bool>)
    ensures
        decode_bitmap(encode_bitmap(flags)) == flags,
{
    assert(decode_bitmap(encode_bitmap(flags)) =~= flags);
}

} // verus!
