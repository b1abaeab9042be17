//! End-to-end tests: synthetic ELF images in, UF2 byte streams out.

use elf2uf2::elf::Elf32;
use elf2uf2::elf2uf2::Elf2Uf2;
use elf2uf2::uf2::{Uf2, Uf2Block};

fn push_u16(v: &mut Vec<u8>, x: u16) {
    v.extend_from_slice(&x.to_le_bytes());
}

fn push_u32(v: &mut Vec<u8>, x: u32) {
    v.extend_from_slice(&x.to_le_bytes());
}

fn rd_u32(b: &[u8], i: usize) -> u32 {
    u32::from_le_bytes([b[i], b[i + 1], b[i + 2], b[i + 3]])
}

/// A 52-byte ELF32 header with the given machine and table geometry.
fn build_ehdr(
    machine: u16,
    phoff: u32,
    phentsize: u16,
    phnum: u16,
    shoff: u32,
    shentsize: u16,
    shnum: u16,
    shstrndx: u16,
) -> Vec<u8> {
    let mut v = vec![0u8; 16];
    v[0] = 0x7f;
    v[1] = b'E';
    v[2] = b'L';
    v[3] = b'F';
    push_u16(&mut v, 2); // e_type: executable
    push_u16(&mut v, machine);
    push_u32(&mut v, 1); // e_version
    push_u32(&mut v, 0x1000); // e_entry
    push_u32(&mut v, phoff);
    push_u32(&mut v, shoff);
    push_u32(&mut v, 0); // e_flags
    push_u16(&mut v, 52); // e_ehsize
    push_u16(&mut v, phentsize);
    push_u16(&mut v, phnum);
    push_u16(&mut v, shentsize);
    push_u16(&mut v, shnum);
    push_u16(&mut v, shstrndx);
    assert_eq!(v.len(), 52);
    v
}

fn push_phdr(v: &mut Vec<u8>, ptype: u32, off: u32, paddr: u32, filesz: u32, memsz: u32) {
    push_u32(v, ptype);
    push_u32(v, off);
    push_u32(v, paddr); // p_vaddr, same as physical here
    push_u32(v, paddr);
    push_u32(v, filesz);
    push_u32(v, memsz);
    push_u32(v, 5); // p_flags: read + execute
    push_u32(v, 0x1000); // p_align
}

/// An ELF with one program header and `payload` right after it at offset 84.
fn one_seg_elf(machine: u16, ptype: u32, paddr: u32, filesz: u32, memsz: u32, payload: &[u8]) -> Vec<u8> {
    let mut v = build_ehdr(machine, 52, 32, 1, 0, 0, 0, 0);
    push_phdr(&mut v, ptype, 84, paddr, filesz, memsz);
    assert_eq!(v.len(), 84);
    v.extend_from_slice(payload);
    v
}

fn pattern(n: usize) -> Vec<u8> {
    (0..n).map(|i| (i % 251) as u8).collect()
}

fn convert_ok(data: &[u8]) -> (Elf2Uf2, Vec<u8>) {
    let mut c = Elf2Uf2::new();
    let mut buf = Vec::new();
    c.convert(&data.to_vec(), &mut buf).unwrap();
    (c, buf)
}

#[test]
fn two_block_segment_scenario() {
    // One LOAD segment, 300 bytes, already 256-aligned physical address.
    let payload = pattern(300);
    let data = one_seg_elf(40, 1, 0x10000200, 300, 300, &payload);
    let (c, buf) = convert_ok(&data);

    assert_eq!(c.uf2.blocks.len(), 2);
    assert_eq!(buf.len(), 1024);

    let b0 = &c.uf2.blocks[0];
    assert_eq!(b0.target_addr, 0x10000200);
    for k in 0..256 {
        assert_eq!(b0.data[k], payload[k]);
    }
    for k in 256..476 {
        assert_eq!(b0.data[k], 0);
    }

    let b1 = &c.uf2.blocks[1];
    assert_eq!(b1.target_addr, 0x10000300);
    for k in 0..44 {
        assert_eq!(b1.data[k], payload[256 + k]);
    }
    for k in 44..476 {
        assert_eq!(b1.data[k], 0);
    }
}

#[test]
fn block_fields_on_the_wire() {
    let payload = pattern(300);
    let data = one_seg_elf(40, 1, 0x10000200, 300, 300, &payload);
    let (_, buf) = convert_ok(&data);

    for s in 0..2 {
        let at = 512 * s;
        assert_eq!(rd_u32(&buf, at), 0x0a324655); // magic_start0
        assert_eq!(rd_u32(&buf, at + 4), 0x9e5d5157); // magic_start1
        assert_eq!(rd_u32(&buf, at + 8), 0x00002000); // flags: family ID present
        assert_eq!(rd_u32(&buf, at + 12), 0x10000200 + 256 * s as u32); // target
        assert_eq!(rd_u32(&buf, at + 16), 256); // payload_size
        assert_eq!(rd_u32(&buf, at + 20), s as u32); // block index
        assert_eq!(rd_u32(&buf, at + 24), 2); // block count
        assert_eq!(rd_u32(&buf, at + 28), 0xe48bff59); // family: ARM
        assert_eq!(rd_u32(&buf, at + 508), 0x0ab16f30); // magic_end
    }
    // Data regions match the held blocks byte for byte.
    for k in 0..256 {
        assert_eq!(buf[32 + k], payload[k]);
    }
    for k in 0..44 {
        assert_eq!(buf[512 + 32 + k], payload[256 + k]);
    }
    for k in 44..476 {
        assert_eq!(buf[512 + 32 + k], 0);
    }
}

#[test]
fn block_numbering_across_segments() {
    // Two LOAD segments: 300 bytes then 10 bytes; three blocks in all.
    let mut v = build_ehdr(40, 52, 32, 2, 0, 0, 0, 0);
    push_phdr(&mut v, 1, 116, 0x20000000, 300, 300);
    push_phdr(&mut v, 1, 416, 0x30000000, 10, 10);
    assert_eq!(v.len(), 116);
    v.extend_from_slice(&pattern(310));
    let (c, buf) = convert_ok(&v);

    assert_eq!(c.uf2.blocks.len(), 3);
    assert_eq!(buf.len(), 512 * 3);
    for s in 0..3 {
        assert_eq!(rd_u32(&buf, 512 * s + 20), s as u32);
        assert_eq!(rd_u32(&buf, 512 * s + 24), 3);
    }
    assert_eq!(c.uf2.blocks[0].target_addr, 0x20000000);
    assert_eq!(c.uf2.blocks[1].target_addr, 0x20000100);
    assert_eq!(c.uf2.blocks[2].target_addr, 0x30000000);
}

#[test]
fn empty_segment_is_skipped() {
    // file_size = 0: contributes no blocks, conversion still succeeds.
    let data = one_seg_elf(40, 1, 0x10000000, 0, 100, &[]);
    let (c, buf) = convert_ok(&data);
    assert_eq!(c.uf2.blocks.len(), 0);
    assert_eq!(buf.len(), 0);
}

#[test]
fn zero_memory_size_is_skipped() {
    // min(file_size, memory_size) = 0: no blocks either.
    let payload = pattern(100);
    let data = one_seg_elf(40, 1, 0x10000000, 100, 0, &payload);
    let (c, buf) = convert_ok(&data);
    assert_eq!(c.uf2.blocks.len(), 0);
    assert_eq!(buf.len(), 0);
}

#[test]
fn non_load_segment_is_skipped() {
    // A DYNAMIC segment is skipped regardless of its size fields, even ones
    // that would run past the buffer.
    let data = one_seg_elf(40, 2, 0x10000000, 0xffff0000, 0xffff0000, &[]);
    let (c, buf) = convert_ok(&data);
    assert_eq!(c.uf2.blocks.len(), 0);
    assert_eq!(buf.len(), 0);
}

#[test]
fn family_id_for_arm() {
    let payload = pattern(16);
    let data = one_seg_elf(40, 1, 0x10000000, 16, 16, &payload);
    let (c, _) = convert_ok(&data);
    assert_eq!(c.uf2.blocks[0].family_id, 0xe48bff59);
}

#[test]
fn family_id_for_riscv() {
    let payload = pattern(16);
    let data = one_seg_elf(243, 1, 0x10000000, 16, 16, &payload);
    let (c, _) = convert_ok(&data);
    assert_eq!(c.uf2.blocks[0].family_id, 0xe48bff5a);
}

#[test]
fn family_id_for_unknown_machine() {
    // Machine 3 (x86) is a representative value outside the two mapped ones.
    let payload = pattern(16);
    let data = one_seg_elf(3, 1, 0x10000000, 16, 16, &payload);
    let (c, _) = convert_ok(&data);
    assert_eq!(c.uf2.blocks[0].family_id, 0xe48bff58);
}

#[test]
fn output_length_is_512_per_block() {
    for (size, blocks) in [(1u32, 1usize), (256, 1), (257, 2), (300, 2), (512, 2), (513, 3)] {
        let payload = pattern(size as usize);
        let data = one_seg_elf(40, 1, 0x10000000, size, size, &payload);
        let (c, buf) = convert_ok(&data);
        assert_eq!(c.uf2.blocks.len(), blocks);
        assert_eq!(buf.len(), 512 * blocks);
    }
}

#[test]
fn misaligned_physical_address_folds_offset() {
    // paddr mod 256 = 0x10: the block is addressed at the rounded-down
    // boundary and the first 0x10 payload positions stay zero.
    let payload = pattern(100);
    let data = one_seg_elf(40, 1, 0x10000210, 100, 100, &payload);
    let (c, _) = convert_ok(&data);
    assert_eq!(c.uf2.blocks.len(), 1);
    let b = &c.uf2.blocks[0];
    assert_eq!(b.target_addr, 0x10000200);
    for k in 0..16 {
        assert_eq!(b.data[k], 0);
    }
    for k in 16..100 {
        assert_eq!(b.data[k], payload[k]);
    }
    for k in 100..476 {
        assert_eq!(b.data[k], 0);
    }
}

#[test]
fn truncated_header_is_rejected() {
    let mut c = Elf2Uf2::new();
    let mut buf = Vec::new();
    let data = vec![0u8; 51];
    assert!(c.convert(&data, &mut buf).is_err());
    assert_eq!(c.uf2.blocks.len(), 0);
    assert_eq!(buf.len(), 0);
}

#[test]
fn truncated_phdr_table_is_rejected() {
    // Header says two program headers but only one fits the buffer.
    let mut v = build_ehdr(40, 52, 32, 2, 0, 0, 0, 0);
    push_phdr(&mut v, 1, 84, 0x10000000, 0, 0);
    let mut c = Elf2Uf2::new();
    let mut buf = Vec::new();
    assert!(c.convert(&v, &mut buf).is_err());
    assert_eq!(buf.len(), 0);
}

#[test]
fn truncated_segment_is_rejected() {
    // LOAD segment claims 100 bytes at offset 84 but the file ends sooner.
    let payload = pattern(30);
    let data = one_seg_elf(40, 1, 0x10000000, 100, 100, &payload);
    let mut c = Elf2Uf2::new();
    let mut buf = Vec::new();
    assert!(c.convert(&data, &mut buf).is_err());
    assert_eq!(c.uf2.blocks.len(), 0);
    assert_eq!(buf.len(), 0);
}

#[test]
fn oversized_file_extent_is_rejected_even_without_payload() {
    // memory_size = 0 means no blocks, but a LOAD segment whose file extent
    // runs past the buffer still fails the segment invariant.
    let data = one_seg_elf(40, 1, 0x10000000, 100, 0, &[]);
    let mut c = Elf2Uf2::new();
    let mut buf = Vec::new();
    assert!(c.convert(&data, &mut buf).is_err());
    assert_eq!(buf.len(), 0);
}

#[test]
fn address_overflow_is_rejected() {
    // Second block would sit at 0x1_0000_0000, past the 32-bit address space.
    let payload = pattern(300);
    let data = one_seg_elf(40, 1, 0xffffff00, 300, 300, &payload);
    let mut c = Elf2Uf2::new();
    let mut buf = Vec::new();
    assert!(c.convert(&data, &mut buf).is_err());
    assert_eq!(c.uf2.blocks.len(), 0);
    assert_eq!(buf.len(), 0);
}

#[test]
fn last_addressable_block_is_accepted() {
    // One block at 0xffffff00 exactly: no overflow, conversion succeeds.
    let payload = pattern(256);
    let data = one_seg_elf(40, 1, 0xffffff00, 256, 256, &payload);
    let (c, buf) = convert_ok(&data);
    assert_eq!(c.uf2.blocks.len(), 1);
    assert_eq!(c.uf2.blocks[0].target_addr, 0xffffff00);
    assert_eq!(buf.len(), 512);
}

#[test]
fn convert_appends_to_existing_buffer() {
    let payload = pattern(16);
    let data = one_seg_elf(40, 1, 0x10000000, 16, 16, &payload);
    let mut c = Elf2Uf2::new();
    let mut buf = vec![0xaa, 0xbb];
    c.convert(&data, &mut buf).unwrap();
    assert_eq!(buf.len(), 2 + 512);
    assert_eq!(&buf[0..2], &[0xaa, 0xbb]);
    assert_eq!(rd_u32(&buf, 2), 0x0a324655);
}

#[test]
fn write_single_handmade_block() {
    let mut b = Uf2Block::new();
    b.magic_start0 = 0x0a324655;
    b.magic_start1 = 0x9e5d5157;
    b.flags = 0x2000;
    b.target_addr = 0x2000_0000;
    b.payload_size = 256;
    b.family_id = 0xe48bff58;
    for k in 0..476 {
        b.data[k] = (k % 7) as u8;
    }
    b.magic_end = 0x0ab16f30;

    let u = Uf2 { blocks: vec![b] };
    let mut buf = Vec::new();
    u.write(&mut buf);

    assert_eq!(buf.len(), 512);
    let mut expect = Vec::new();
    for w in [0x0a324655u32, 0x9e5d5157, 0x2000, 0x2000_0000, 256, 0, 1, 0xe48bff58] {
        expect.extend_from_slice(&w.to_le_bytes());
    }
    for k in 0..476 {
        expect.push((k % 7) as u8);
    }
    expect.extend_from_slice(&0x0ab16f30u32.to_le_bytes());
    assert_eq!(buf, expect);
}

#[test]
fn uf2_block_new_is_zeroed() {
    let b = Uf2Block::new();
    assert_eq!(b.magic_start0, 0);
    assert_eq!(b.magic_start1, 0);
    assert_eq!(b.flags, 0);
    assert_eq!(b.target_addr, 0);
    assert_eq!(b.payload_size, 0);
    assert_eq!(b.family_id, 0);
    assert_eq!(b.magic_end, 0);
    assert!(b.data.iter().all(|&x| x == 0));
}

#[test]
fn parse_elf_alone_leaves_blocks_untouched() {
    let payload = pattern(16);
    let data = one_seg_elf(40, 1, 0x10000000, 16, 16, &payload);
    let mut e = Elf32::new();
    e.parse_elf(&data).unwrap();
    assert_eq!(e.phdrs.len(), 1);
    assert_eq!(e.phdrs[0].p_filesz, 16);
}
