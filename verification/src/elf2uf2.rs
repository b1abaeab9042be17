//! Segment-to-UF2 transcoder.
//!
//! The transcoder walks the program headers in file order, skips everything
//! that is not a loadable segment with on-disk payload, and re-chunks each
//! remaining segment's bytes into UF2 blocks of 256 payload bytes. The
//! first block of a segment is addressed at the segment's physical address
//! rounded down to a 256-byte boundary, with the remainder folded into the
//! block payload as an initial write offset; each following block advances
//! the target address by exactly 256. Block index and total count are
//! stamped later, by the serializer, over the whole stream.

use vstd::prelude::*;

use crate::ConvertError;
use crate::elf::Elf32;
use crate::elf::Elf32Phdr;
use crate::elf::ehdr_matches;
use crate::elf::ehdr_zeroed;
use crate::elf::parse_ok;
use crate::elf::spec_machine;
use crate::elf::spec_phdrs;
use crate::uf2::Uf2;
use crate::uf2::Uf2Block;
use crate::uf2::stream_bytes;

verus! {

/// Flag word: the family-ID-present bit, the only flag the converter sets.
pub const HAS_FAMILY_ID: u32 = 0x00002000;

/// First start magic of every UF2 block.
pub const MAGIC_START0: u32 = 0x0a324655;

/// Second start magic of every UF2 block.
pub const MAGIC_START1: u32 = 0x9e5d5157;

/// End magic of every UF2 block.
pub const MAGIC_END: u32 = 0x0ab16f30;

/// Payload bytes carried per block: a format convention, not a header field.
pub const PAYLOAD_SIZE: u32 = 256;

/// ELF machine value for ARM.
pub const MACHINE_ARM: u16 = 40;

/// ELF machine value for RISC-V.
pub const MACHINE_RISCV: u16 = 243;

/// UF2 family identifier for ARM targets.
pub const FAMILY_ID_ARM: u32 = 0xe48bff59;

/// UF2 family identifier for RISC-V targets.
pub const FAMILY_ID_RISCV: u32 = 0xe48bff5a;

/// UF2 family identifier for everything else: the generic catch-all value.
pub const FAMILY_ID_DATA: u32 = 0xe48bff58;

/// The family identifier chosen for an ELF machine value: a total, three-way
/// mapping with the generic identifier as fallback.
pub open spec fn family_id_of(machine: u16) -> u32 {
    if machine == MACHINE_ARM {
        FAMILY_ID_ARM
    } else if machine == MACHINE_RISCV {
        FAMILY_ID_RISCV
    } else {
        FAMILY_ID_DATA
    }
}

/// Bytes of a segment that reach the output: the lesser of its file size
/// and its memory size.
pub open spec fn chunk_len(p: Elf32Phdr) -> int {
    if p.p_filesz <= p.p_memsz {
        p.p_filesz as int
    } else {
        p.p_memsz as int
    }
}

/// Whether a segment contributes blocks: loadable, with some payload.
pub open spec fn seg_emits(p: Elf32Phdr) -> bool {
    p.p_type == 1 && chunk_len(p) > 0
}

/// Blocks a segment contributes: its payload split into 256-byte chunks,
/// the last one padded.
pub open spec fn seg_nblocks(p: Elf32Phdr) -> int {
    if seg_emits(p) {
        (chunk_len(p) + 255) / 256
    } else {
        0
    }
}

/// The segment's physical address rounded down to a 256-byte boundary:
/// the target address of its first block.
pub open spec fn seg_base_addr(p: Elf32Phdr) -> u32 {
    p.p_paddr & 0xffffff00
}

/// The invariant a loadable segment must satisfy against a buffer of
/// `dlen` bytes: its file extent lies inside the buffer.
pub open spec fn seg_fits(p: Elf32Phdr, dlen: int) -> bool {
    (p.p_type == 1 && p.p_filesz > 0) ==> p.p_offset + p.p_filesz <= dlen
}

/// Whether every block of the segment can be addressed within 32 bits.
pub open spec fn seg_addr_ok(p: Elf32Phdr) -> bool {
    seg_emits(p) ==> seg_base_addr(p) + 256 * (seg_nblocks(p) - 1) <= u32::MAX
}

/// All segments of the table satisfy both per-segment conditions.
pub open spec fn segs_ok(ps: Seq<Elf32Phdr>, dlen: int) -> bool {
    forall|s: int|
        0 <= s < ps.len() ==> seg_fits(#[trigger] ps[s], dlen) && seg_addr_ok(ps[s])
}

/// Blocks contributed by the first `s` segments of the table.
pub open spec fn blocks_before(ps: Seq<Elf32Phdr>, s: int) -> int
    recommends
        0 <= s <= ps.len(),
    decreases s,
{
    if s <= 0 {
        0
    } else {
        blocks_before(ps, s - 1) + seg_nblocks(ps[s - 1])
    }
}

/// Blocks contributed by the whole table: the sum, over loadable segments
/// with payload, of their 256-byte chunk counts.
pub open spec fn total_blocks(ps: Seq<Elf32Phdr>) -> int {
    blocks_before(ps, ps.len() as int)
}

/// Payload byte `k` of block `j` of segment `p`: the segment byte at
/// offset `j * 256 + k`, read from the file extent, when one is mapped
/// there; zero in the padding — past byte 255, past the segment's payload,
/// and in the first block below the folded-in address remainder.
pub open spec fn seg_byte(d: Seq<u8>, p: Elf32Phdr, j: int, k: int) -> u8 {
    if 0 <= k < 256 && j * 256 + k < chunk_len(p) && (j > 0 || k >= (p.p_paddr & 0xff)) {
        d[p.p_offset + j * 256 + k]
    } else {
        0u8
    }
}

/// What block `j` of segment `p` holds, for a conversion with family
/// identifier `fam` over buffer `d`.
pub open spec fn is_seg_block(b: Uf2Block, d: Seq<u8>, p: Elf32Phdr, fam: u32, j: int) -> bool {
    &&& b.magic_start0 == MAGIC_START0
    &&& b.magic_start1 == MAGIC_START1
    &&& b.flags == HAS_FAMILY_ID
    &&& b.target_addr == seg_base_addr(p) + 256 * j
    &&& b.payload_size == PAYLOAD_SIZE
    &&& b.family_id == fam
    &&& b.magic_end == MAGIC_END
    &&& forall|k: int| 0 <= k < 476 ==> b.data@[k] == seg_byte(d, p, j, k)
}

/// Block `j` of segment `s` within the flat output sequence.
pub open spec fn seg_block_at(
    blocks: Seq<Uf2Block>,
    ps: Seq<Elf32Phdr>,
    s: int,
    j: int,
) -> Uf2Block {
    blocks[blocks_before(ps, s) + j]
}

/// The whole correspondence between an output block sequence and the
/// parsed input: one block per 256-byte chunk of each emitting segment,
/// in segment order then chunk order, each block as `is_seg_block` says.
pub open spec fn stream_matches(
    blocks: Seq<Uf2Block>,
    d: Seq<u8>,
    ps: Seq<Elf32Phdr>,
    fam: u32,
) -> bool {
    &&& blocks.len() == total_blocks(ps)
    &&& forall|s: int, j: int|
        0 <= s < ps.len() && 0 <= j < seg_nblocks(ps[s]) ==> is_seg_block(
            #[trigger] seg_block_at(blocks, ps, s, j),
            d,
            ps[s],
            fam,
            j,
        )
}

/// When a conversion succeeds: the input parses, every loadable segment
/// lies inside the buffer and can be addressed, and the stream's total
/// block count fits the 32-bit count field (counting blocks already held).
pub open spec fn convert_ok(d: Seq<u8>, ps: Seq<Elf32Phdr>, existing: int) -> bool {
    &&& parse_ok(d)
    &&& segs_ok(ps, d.len() as int)
    &&& existing + total_blocks(ps) <= u32::MAX
}

/// Segment block counts are never negative.
pub proof fn lemma_seg_nblocks_nonneg(p: Elf32Phdr)
    ensures
        seg_nblocks(p) >= 0,
{
}

/// Running block counts grow with the segment index.
pub proof fn lemma_blocks_before_mono(ps: Seq<Elf32Phdr>, s1: int, s2: int)
    requires
        0 <= s1 <= s2 <= ps.len(),
    ensures
        blocks_before(ps, s1) <= blocks_before(ps, s2),
    decreases s2 - s1,
{
    if s1 < s2 {
        lemma_blocks_before_mono(ps, s1, s2 - 1);
        lemma_seg_nblocks_nonneg(ps[s2 - 1]);
    }
}

/// Builds one UF2 block: block `j` of loadable segment `p`, copying the
/// mapped payload bytes from `data` and zero-filling the padding.
#[verifier::loop_isolation(false)]
fn make_block(
    data: &Vec<u8>,
    p: &Elf32Phdr,
    fam: u32,
    j: u32,
    chunk: u32,
    base_addr: u32,
) -> (b: Uf2Block)
    requires
        chunk == chunk_len(*p),
        chunk > 0,
        base_addr == seg_base_addr(*p),
        j < seg_nblocks(*p),
        p.p_offset + chunk_len(*p) <= data@.len(),
        seg_addr_ok(*p),
        p.p_type == 1,
    ensures
        is_seg_block(b, data@, *p, fam, j as int),
{
    let _dlen: usize = data.len();
    let mut b = Uf2Block::new();
    b.magic_start0 = MAGIC_START0;
    b.magic_start1 = MAGIC_START1;
    b.flags = b.flags | HAS_FAMILY_ID;
    proof {
        assert(0u32 | 0x2000u32 == 0x2000u32) by (bit_vector);
    }
    b.target_addr = base_addr + j * 256;
    b.payload_size = PAYLOAD_SIZE;
    b.family_id = fam;
    proof {
        let a = p.p_paddr;
        assert(a & 0xff <= 0xff) by (bit_vector);
    }
    let k0: usize = if j == 0 {
        (p.p_paddr & 0xff) as usize
    } else {
        0
    };
    let off: usize = p.p_offset as usize;
    let mut k: usize = k0;
    while k < 256
        invariant
            k0 <= k <= 256,
            b.magic_start0 == MAGIC_START0,
            b.magic_start1 == MAGIC_START1,
            b.flags == HAS_FAMILY_ID,
            b.target_addr == seg_base_addr(*p) + 256 * (j as int),
            b.payload_size == PAYLOAD_SIZE,
            b.family_id == fam,
            forall|kk: int| 0 <= kk < k ==> b.data@[kk] == seg_byte(data@, *p, j as int, kk),
            forall|kk: int| k <= kk < 476 ==> b.data@[kk] == 0u8,
        decreases 256 - k,
    {
        let src: u64 = (j as u64) * 256 + (k as u64);
        if src < chunk as u64 {
            let idx: u64 = (off as u64) + src;
            b.data[k] = data[idx as usize];
        }
        k += 1;
    }
    b.magic_end = MAGIC_END;
    b
}

/// One conversion: a parsed ELF image and the UF2 stream built from it.
pub struct Elf2Uf2 {
    pub elf: Elf32,
    pub uf2: Uf2,
}

impl Elf2Uf2 {
    /// A fresh converter holding an empty image and an empty stream.
    pub fn new() -> (c: Elf2Uf2)
        ensures
            ehdr_zeroed(c.elf.ehdr),
            c.elf.phdrs@ =~= Seq::<Elf32Phdr>::empty(),
            c.elf.shdrs@.len() == 0,
            c.elf.str_tab@.len() == 0,
            c.uf2.blocks@ =~= Seq::<Uf2Block>::empty(),
    {
        Elf2Uf2 { elf: Elf32::new(), uf2: Uf2::new() }
    }

    /// Converts the ELF image in `data`: parses it, transcodes every
    /// loadable segment into UF2 blocks appended to `self.uf2`, and
    /// serializes the whole stream onto `buf`.
    ///
    /// Succeeds exactly when the image parses, every loadable segment lies
    /// inside the buffer and is addressable, and the block count fits its
    /// 32-bit field; on failure neither the stream nor `buf` changes.
    #[verifier::loop_isolation(false)]
    pub fn convert(&mut self, data: &Vec<u8>, buf: &mut Vec<u8>) -> (r: Result<(), ConvertError>)
        ensures
            ({
                let all = old(self).elf.phdrs@ + spec_phdrs(data@);
                let existing = old(self).uf2.blocks@.len() as int;
                &&& (r is Ok <==> convert_ok(data@, all, existing))
                &&& r is Ok ==> {
                    &&& ehdr_matches(final(self).elf.ehdr, data@)
                    &&& final(self).elf.phdrs@ == all
                    &&& final(self).uf2.blocks@.len() == existing + total_blocks(all)
                    &&& final(self).uf2.blocks@.subrange(0, existing) == old(self).uf2.blocks@
                    &&& stream_matches(
                        final(self).uf2.blocks@.skip(existing),
                        data@,
                        all,
                        family_id_of(spec_machine(data@)),
                    )
                    &&& final(buf)@ == old(buf)@ + stream_bytes(final(self).uf2.blocks@)
                }
                &&& r is Err ==> final(self).uf2.blocks@ == old(self).uf2.blocks@ && final(buf)@
                    == old(buf)@
                &&& final(self).elf.shdrs@ == old(self).elf.shdrs@
                &&& final(self).elf.str_tab@ == old(self).elf.str_tab@
            }),
    {
        let ghost existing: int = self.uf2.blocks@.len() as int;
        match self.elf.parse_elf(data) {
            Ok(_) => {},
            Err(e) => {
                return Err(e);
            },
        }
        let ghost all: Seq<Elf32Phdr> = self.elf.phdrs@;
        let dl: usize = data.len();

        let family_id: u32 = match self.elf.ehdr.e_machine {
            40 => FAMILY_ID_ARM,
            243 => FAMILY_ID_RISCV,
            _ => FAMILY_ID_DATA,
        };
        proof {
            assert(family_id == family_id_of(spec_machine(data@)));
        }

        let mut out: Vec<Uf2Block> = Vec::new();
        let nseg: usize = self.elf.phdrs.len();
        let mut s: usize = 0;
        while s < nseg
            invariant
                s <= nseg,
                nseg == all.len(),
                all == self.elf.phdrs@,
                out@.len() == blocks_before(all, s as int),
                forall|s2: int|
                    0 <= s2 < s ==> seg_fits(#[trigger] all[s2], data@.len() as int)
                        && seg_addr_ok(all[s2]),
                forall|s2: int, j: int|
                    0 <= s2 < s && 0 <= j < seg_nblocks(all[s2]) ==> is_seg_block(
                        #[trigger] seg_block_at(out@, all, s2, j),
                        data@,
                        all[s2],
                        family_id,
                        j,
                    ),
            decreases nseg - s,
        {
            let p: Elf32Phdr = self.elf.phdrs[s];
            if p.p_type == 1 {
                if p.p_filesz > 0 && (p.p_offset as u64) + (p.p_filesz as u64) > dl as u64 {
                    return Err(ConvertError);
                }
                let chunk: u32 = if p.p_memsz < p.p_filesz {
                    p.p_memsz
                } else {
                    p.p_filesz
                };
                if chunk > 0 {
                    let n64: u64 = ((chunk as u64) + 255) / 256;
                    proof {
                        assert(n64 == seg_nblocks(p));
                        assert(1 <= n64 <= 0x1000000);
                    }
                    let n: u32 = n64 as u32;
                    let base_addr: u32 = p.p_paddr & 0xffffff00;
                    if (base_addr as u64) + 256 * (n64 - 1) > 0xffffffffu64 {
                        return Err(ConvertError);
                    }
                    let ghost seg_start: int = blocks_before(all, s as int);
                    let mut j: u32 = 0;
                    while j < n
                        invariant
                            j <= n,
                            out@.len() == seg_start + j,
                            forall|jj: int|
                                0 <= jj < j ==> is_seg_block(
                                    #[trigger] seg_block_at(out@, all, s as int, jj),
                                    data@,
                                    p,
                                    family_id,
                                    jj,
                                ),
                            forall|s2: int, jj: int|
                                0 <= s2 < s && 0 <= jj < seg_nblocks(all[s2]) ==> is_seg_block(
                                    #[trigger] seg_block_at(out@, all, s2, jj),
                                    data@,
                                    all[s2],
                                    family_id,
                                    jj,
                                ),
                        decreases n - j,
                    {
                        proof {
                            lemma_blocks_before_mono(all, 0, s as int);
                        }
                        let ghost out_pre = out@;
                        let b = make_block(data, &p, family_id, j, chunk, base_addr);
                        out.push(b);
                        proof {
                            lemma_blocks_before_mono(all, 0, s as int);
                            assert forall|jj: int| 0 <= jj < j + 1 implies is_seg_block(
                                #[trigger] seg_block_at(out@, all, s as int, jj),
                                data@,
                                p,
                                family_id,
                                jj,
                            ) by {
                                if jj == j {
                                    assert(seg_block_at(out@, all, s as int, jj) == b);
                                } else {
                                    assert(is_seg_block(
                                        seg_block_at(out_pre, all, s as int, jj),
                                        data@,
                                        p,
                                        family_id,
                                        jj,
                                    ));
                                    assert(seg_block_at(out@, all, s as int, jj) == seg_block_at(
                                        out_pre,
                                        all,
                                        s as int,
                                        jj,
                                    ));
                                }
                            }
                            assert forall|s2: int, jj: int|
                                0 <= s2 < s && 0 <= jj < seg_nblocks(all[s2]) implies is_seg_block(
                                #[trigger] seg_block_at(out@, all, s2, jj),
                                data@,
                                all[s2],
                                family_id,
                                jj,
                            ) by {
                                lemma_blocks_before_mono(all, 0, s2);
                                lemma_blocks_before_mono(all, s2 + 1, s as int);
                                assert(blocks_before(all, s2 + 1) == blocks_before(all, s2)
                                    + seg_nblocks(all[s2]));
                                assert(is_seg_block(
                                    seg_block_at(out_pre, all, s2, jj),
                                    data@,
                                    all[s2],
                                    family_id,
                                    jj,
                                ));
                                assert(seg_block_at(out@, all, s2, jj) == seg_block_at(
                                    out_pre,
                                    all,
                                    s2,
                                    jj,
                                ));
                            }
                        }
                        j += 1;
                    }
                }
            }
            proof {
                assert(blocks_before(all, s as int + 1) == blocks_before(all, s as int)
                    + seg_nblocks(all[s as int]));
            }
            s += 1;
        }

        let fresh: usize = out.len();
        let held: usize = self.uf2.blocks.len();
        if held as u64 > 0xffffffffu64 || fresh as u64 > 0xffffffffu64 || (held as u64)
            + (fresh as u64) > 0xffffffffu64 {
            return Err(ConvertError);
        }
        let ghost fresh_blocks = out@;
        self.uf2.blocks.append(&mut out);
        proof {
            assert(self.uf2.blocks@.subrange(0, existing) =~= old(self).uf2.blocks@);
            assert(self.uf2.blocks@.skip(existing) =~= fresh_blocks);
        }
        self.uf2.write(buf);
        Ok(())
    }
}

/// Within each segment of a matching stream, every non-first block's
/// target address is exactly 256 more than its predecessor's.
pub proof fn lemma_target_addr_chain(
    blocks: Seq<Uf2Block>,
    d: Seq<u8>,
    ps: Seq<Elf32Phdr>,
    fam: u32,
)
    requires
        stream_matches(blocks, d, ps, fam),
    ensures
        forall|s: int, j: int|
            0 <= s < ps.len() && 1 <= j < seg_nblocks(ps[s]) ==> #[trigger] seg_block_at(
                blocks,
                ps,
                s,
                j,
            ).target_addr == seg_block_at(blocks, ps, s, j - 1).target_addr + 256,
{
    assert forall|s: int, j: int|
        0 <= s < ps.len() && 1 <= j < seg_nblocks(ps[s]) implies #[trigger] seg_block_at(
        blocks,
        ps,
        s,
        j,
    ).target_addr == seg_block_at(blocks, ps, s, j - 1).target_addr + 256 by {
        assert(is_seg_block(seg_block_at(blocks, ps, s, j), d, ps[s], fam, j));
        assert(is_seg_block(seg_block_at(blocks, ps, s, j - 1), d, ps[s], fam, j - 1));
    }
}

/// The first block of each segment of a matching stream is addressed at
/// the segment's physical address rounded down to a 256-byte boundary:
/// the physical address with its low eight bits cleared, a multiple of 256.
pub proof fn lemma_first_block_aligned(
    blocks: Seq<Uf2Block>,
    d: Seq<u8>,
    ps: Seq<Elf32Phdr>,
    fam: u32,
)
    requires
        stream_matches(blocks, d, ps, fam),
    ensures
        forall|s: int|
            0 <= s < ps.len() && seg_nblocks(ps[s]) > 0 ==> {
                let b = #[trigger] seg_block_at(blocks, ps, s, 0);
                &&& b.target_addr == (ps[s].p_paddr & 0xffffff00)
                &&& b.target_addr % 256 == 0
                &&& b.target_addr == ps[s].p_paddr - ps[s].p_paddr % 256
            },
{
    assert forall|s: int| 0 <= s < ps.len() && seg_nblocks(ps[s]) > 0 implies {
        let b = #[trigger] seg_block_at(blocks, ps, s, 0);
        &&& b.target_addr == (ps[s].p_paddr & 0xffffff00)
        &&& b.target_addr % 256 == 0
        &&& b.target_addr == ps[s].p_paddr - ps[s].p_paddr % 256
    } by {
        assert(is_seg_block(seg_block_at(blocks, ps, s, 0), d, ps[s], fam, 0));
        let a = ps[s].p_paddr;
        assert((a & 0xffffff00) % 256 == 0) by (bit_vector);
        assert((a & 0xffffff00) + (a & 0xff) == a) by (bit_vector);
        assert(a & 0xff == a % 256) by (bit_vector);
    }
}

/// Every block of a matching stream carries the fixed start and end magic
/// words, and its flags word has the family-ID-present bit set.
pub proof fn lemma_block_markers(blocks: Seq<Uf2Block>, d: Seq<u8>, ps: Seq<Elf32Phdr>, fam: u32)
    requires
        stream_matches(blocks, d, ps, fam),
    ensures
        forall|s: int, j: int|
            0 <= s < ps.len() && 0 <= j < seg_nblocks(ps[s]) ==> {
                let b = #[trigger] seg_block_at(blocks, ps, s, j);
                &&& b.magic_start0 == MAGIC_START0
                &&& b.magic_start1 == MAGIC_START1
                &&& b.magic_end == MAGIC_END
                &&& b.flags & HAS_FAMILY_ID == HAS_FAMILY_ID
            },
{
    assert forall|s: int, j: int| 0 <= s < ps.len() && 0 <= j < seg_nblocks(ps[s]) implies {
        let b = #[trigger] seg_block_at(blocks, ps, s, j);
        &&& b.magic_start0 == MAGIC_START0
        &&& b.magic_start1 == MAGIC_START1
        &&& b.magic_end == MAGIC_END
        &&& b.flags & HAS_FAMILY_ID == HAS_FAMILY_ID
    } by {
        assert(is_seg_block(seg_block_at(blocks, ps, s, j), d, ps[s], fam, j));
        assert(0x2000u32 & 0x2000u32 == 0x2000u32) by (bit_vector);
    }
}

/// The family mapping is exhaustive: ARM and RISC-V machines get their
/// fixed identifiers, every other machine value the generic data one.
pub proof fn lemma_family_id_total(machine: u16)
    ensures
        machine == MACHINE_ARM ==> family_id_of(machine) == FAMILY_ID_ARM,
        machine == MACHINE_RISCV ==> family_id_of(machine) == FAMILY_ID_RISCV,
        machine != MACHINE_ARM && machine != MACHINE_RISCV ==> family_id_of(machine)
            == FAMILY_ID_DATA,
{
}

} // verus!


