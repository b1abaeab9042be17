//! UF2 block model and serializer.
//!
//! A UF2 stream is a sequence of fixed 512-byte records: eight 32-bit
//! little-endian words (two start magics, flags, target address, payload
//! size, block index, block count, family ID), a 476-byte data payload,
//! and one final 32-bit magic word. The stream position and the shared
//! total count are stamped into each record at serialization time.

use vstd::prelude::*;

use crate::codec::le_bytes_of_u32;
use crate::codec::push_u32_le;

verus! {

/// One UF2 block: the per-block words plus the 476-byte payload. The
/// block index and total count are not stored; the serializer stamps them
/// from the block's position in the stream.
pub struct Uf2Block {
    pub magic_start0: u32,
    pub magic_start1: u32,
    pub flags: u32,
    pub target_addr: u32,
    pub payload_size: u32,
    pub family_id: u32,
    pub data: [u8; 476],
    pub magic_end: u32,
}

/// An ordered UF2 block stream.
pub struct Uf2 {
    pub blocks: Vec<Uf2Block>,
}

/// Wire image of one block standing at position `idx` of a stream of
/// `cnt` blocks: 512 bytes in the fixed field order.
pub open spec fn block_bytes(b: Uf2Block, idx: u32, cnt: u32) -> Seq<u8> {
    le_bytes_of_u32(b.magic_start0) + le_bytes_of_u32(b.magic_start1) + le_bytes_of_u32(b.flags)
        + le_bytes_of_u32(b.target_addr) + le_bytes_of_u32(b.payload_size) + le_bytes_of_u32(idx)
        + le_bytes_of_u32(cnt) + le_bytes_of_u32(b.family_id) + b.data@ + le_bytes_of_u32(
        b.magic_end,
    )
}

/// Wire image of the first `s` blocks of a stream of `cnt` blocks.
pub open spec fn stream_bytes_upto(blocks: Seq<Uf2Block>, cnt: u32, s: int) -> Seq<u8>
    decreases s,
{
    if s <= 0 {
        Seq::empty()
    } else {
        stream_bytes_upto(blocks, cnt, s - 1) + block_bytes(blocks[s - 1], (s - 1) as u32, cnt)
    }
}

/// Wire image of a whole stream: every block carries its own position and
/// the one shared total count.
pub open spec fn stream_bytes(blocks: Seq<Uf2Block>) -> Seq<u8> {
    stream_bytes_upto(blocks, blocks.len() as u32, blocks.len() as int)
}

/// One block serializes to exactly 512 bytes.
pub proof fn lemma_block_bytes_len(b: Uf2Block, idx: u32, cnt: u32)
    ensures
        block_bytes(b, idx, cnt).len() == 512,
{
}

/// The first `s` blocks serialize to exactly `512 * s` bytes.
pub proof fn lemma_stream_upto_len(blocks: Seq<Uf2Block>, cnt: u32, s: int)
    requires
        0 <= s <= blocks.len(),
    ensures
        stream_bytes_upto(blocks, cnt, s).len() == 512 * s,
    decreases s,
{
    if s > 0 {
        lemma_stream_upto_len(blocks, cnt, s - 1);
    }
}

/// The serialized stream is exactly 512 bytes per block: its length is
/// `512 * block_count`.
pub proof fn lemma_stream_len(blocks: Seq<Uf2Block>)
    ensures
        stream_bytes(blocks).len() == 512 * blocks.len(),
{
    lemma_stream_upto_len(blocks, blocks.len() as u32, blocks.len() as int);
}

proof fn lemma_stream_upto_block_slice(blocks: Seq<Uf2Block>, cnt: u32, s: int, t: int)
    requires
        0 <= s < t <= blocks.len(),
    ensures
        stream_bytes_upto(blocks, cnt, t).subrange(512 * s, 512 * (s + 1)) == block_bytes(
            blocks[s],
            s as u32,
            cnt,
        ),
    decreases t,
{
    lemma_stream_upto_len(blocks, cnt, t - 1);
    if t == s + 1 {
        assert(stream_bytes_upto(blocks, cnt, t).subrange(512 * s, 512 * (s + 1)) =~= block_bytes(
            blocks[s],
            s as u32,
            cnt,
        ));
    } else {
        lemma_stream_upto_block_slice(blocks, cnt, s, t - 1);
        assert(stream_bytes_upto(blocks, cnt, t).subrange(512 * s, 512 * (s + 1))
            =~= stream_bytes_upto(blocks, cnt, t - 1).subrange(512 * s, 512 * (s + 1)));
    }
}

/// Block `s` of the serialized stream occupies bytes `512 * s` up to
/// `512 * (s + 1)`, and is its own 512-byte wire image.
pub proof fn lemma_stream_block_slice(blocks: Seq<Uf2Block>, s: int)
    requires
        0 <= s < blocks.len(),
    ensures
        stream_bytes(blocks).subrange(512 * s, 512 * (s + 1)) == block_bytes(
            blocks[s],
            s as u32,
            blocks.len() as u32,
        ),
{
    lemma_stream_upto_block_slice(blocks, blocks.len() as u32, s, blocks.len() as int);
}

/// The numbering stamped on the wire: the block-index field of block `s`
/// holds `s` itself — zero-based, increasing by one, with no gaps or
/// repeats — and the block-count field of every block holds the total
/// number of blocks in the stream.
pub proof fn lemma_stream_numbering(blocks: Seq<Uf2Block>, s: int)
    requires
        0 <= s < blocks.len(),
        blocks.len() <= u32::MAX,
    ensures
        stream_bytes(blocks).subrange(512 * s + 20, 512 * s + 24) == le_bytes_of_u32(s as u32),
        stream_bytes(blocks).subrange(512 * s + 24, 512 * s + 28) == le_bytes_of_u32(
            blocks.len() as u32,
        ),
{
    lemma_stream_len(blocks);
    lemma_stream_block_slice(blocks, s);
    let w = stream_bytes(blocks).subrange(512 * s, 512 * (s + 1));
    assert(stream_bytes(blocks).subrange(512 * s + 20, 512 * s + 24) =~= w.subrange(20, 24));
    assert(stream_bytes(blocks).subrange(512 * s + 24, 512 * s + 28) =~= w.subrange(24, 28));
    assert(w.subrange(20, 24) =~= le_bytes_of_u32(s as u32));
    assert(w.subrange(24, 28) =~= le_bytes_of_u32(blocks.len() as u32));
}

impl Uf2Block {
    /// A zero-filled block.
    pub fn new() -> (b: Uf2Block)
        ensures
            b.magic_start0 == 0,
            b.magic_start1 == 0,
            b.flags == 0,
            b.target_addr == 0,
            b.payload_size == 0,
            b.family_id == 0,
            forall|k: int| 0 <= k < 476 ==> b.data@[k] == 0u8,
            b.magic_end == 0,
    {
        Uf2Block {
            magic_start0: 0,
            magic_start1: 0,
            flags: 0,
            target_addr: 0,
            payload_size: 0,
            family_id: 0,
            data: [0; 476],
            magic_end: 0,
        }
    }
}

impl Uf2 {
    /// An empty stream.
    pub fn new() -> (u: Uf2)
        ensures
            u.blocks@ =~= Seq::<Uf2Block>::empty(),
    {
        Uf2 { blocks: Vec::new() }
    }

    /// Serializes the stream, appending 512 bytes per block to `buf`.
    /// Pure and total for any stream whose count fits the 32-bit
    /// block-count field.
    #[verifier::loop_isolation(false)]
    pub fn write(&self, buf: &mut Vec<u8>)
        requires
            self.blocks@.len() <= u32::MAX,
        ensures
            final(buf)@ == old(buf)@ + stream_bytes(self.blocks@),
    {
        let cnt: u32 = self.blocks.len() as u32;
        let mut s: usize = 0;
        while s < self.blocks.len()
            invariant
                s <= self.blocks@.len(),
                buf@ == old(buf)@ + stream_bytes_upto(self.blocks@, cnt, s as int),
            decreases self.blocks@.len() - s,
        {
            let ghost pre = buf@;
            let b = &self.blocks[s];
            push_u32_le(buf, b.magic_start0);
            push_u32_le(buf, b.magic_start1);
            push_u32_le(buf, b.flags);
            push_u32_le(buf, b.target_addr);
            push_u32_le(buf, b.payload_size);
            push_u32_le(buf, s as u32);
            push_u32_le(buf, cnt);
            push_u32_le(buf, b.family_id);
            let ghost mid = buf@;
            let mut i: usize = 0;
            while i < 476
                invariant
                    i <= 476,
                    buf@ == mid + b.data@.subrange(0, i as int),
                decreases 476 - i,
            {
                buf.push(b.data[i]);
                proof {
                    assert(buf@ =~= mid + b.data@.subrange(0, i + 1));
                }
                i += 1;
            }
            push_u32_le(buf, b.magic_end);
            proof {
                assert(b.data@.subrange(0, 476) =~= b.data@);
                assert(buf@ =~= pre + block_bytes(self.blocks@[s as int], s as u32, cnt));
                assert(buf@ =~= old(buf)@ + stream_bytes_upto(self.blocks@, cnt, s as int + 1));
            }
            s += 1;
        }
    }
}

} // verus!
