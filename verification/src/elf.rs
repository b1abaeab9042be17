//! Structural reader for 32-bit ELF images.
//!
//! The reader decodes the fixed 52-byte ELF header and the program-header
//! table from a raw little-endian byte buffer. It extracts structure, it
//! does not validate: magic bytes, versions and unknown machine values are
//! stored as read, and downstream code falls back to defaults for them.
//! Section headers and the section-name string table are decoded too, but
//! only for reporting layers; conversion does not depend on them.

use vstd::prelude::*;

use crate::ConvertError;
use crate::codec::le_u16_at;
use crate::codec::le_u32_at;
use crate::codec::read_u16_at;
use crate::codec::read_u32_at;

verus! {

/// The ELF32 file header. All multi-byte fields are little-endian on disk.
pub struct Elf32Ehdr {
    pub e_ident: [u8; 16],
    pub e_type: u16,
    pub e_machine: u16,
    pub e_version: u32,
    pub e_entry: u32,
    pub e_phoff: u32,
    pub e_shoff: u32,
    pub e_flags: u32,
    pub e_ehsize: u16,
    pub e_phentsize: u16,
    pub e_phnum: u16,
    pub e_shentsize: u16,
    pub e_shnum: u16,
    pub e_shstrndx: u16,
}

/// One section header; retained for reporting only.
pub struct Elf32Shdr {
    pub sh_name: u32,
    pub sh_type: u32,
    pub sh_flags: u32,
    pub sh_addr: u32,
    pub sh_offset: u32,
    pub sh_size: u32,
    pub sh_link: u32,
    pub sh_info: u32,
    pub sh_addralign: u32,
    pub sh_entsize: u32,
}

/// One program header: a segment of the file plus its load addresses and
/// sizes. Only `p_type == 1` (a loadable segment) is consumed further.
#[derive(Clone, Copy)]
pub struct Elf32Phdr {
    pub p_type: u32,
    pub p_offset: u32,
    pub p_vaddr: u32,
    pub p_paddr: u32,
    pub p_filesz: u32,
    pub p_memsz: u32,
    pub p_flags: u32,
    pub p_align: u32,
}

/// A parsed ELF image: the header, the program headers in file order, and
/// the incidentally decoded section headers and section-name string table.
pub struct Elf32 {
    pub ehdr: Elf32Ehdr,
    pub phdrs: Vec<Elf32Phdr>,
    pub shdrs: Vec<Elf32Shdr>,
    pub str_tab: Vec<u8>,
}

/// The machine field, decoded from bytes 18..20 of the image.
pub open spec fn spec_machine(d: Seq<u8>) -> u16 {
    le_u16_at(d, 18)
}

/// The program-header table offset, decoded from bytes 28..32.
pub open spec fn spec_phoff(d: Seq<u8>) -> u32 {
    le_u32_at(d, 28)
}

/// The program-header entry size, decoded from bytes 42..44.
pub open spec fn spec_phentsize(d: Seq<u8>) -> u16 {
    le_u16_at(d, 42)
}

/// The program-header count, decoded from bytes 44..46.
pub open spec fn spec_phnum(d: Seq<u8>) -> u16 {
    le_u16_at(d, 44)
}

/// A header with every field zero: the state before any parse.
pub open spec fn ehdr_zeroed(h: Elf32Ehdr) -> bool {
    &&& forall|k: int| 0 <= k < 16 ==> h.e_ident@[k] == 0u8
    &&& h.e_type == 0
    &&& h.e_machine == 0
    &&& h.e_version == 0
    &&& h.e_entry == 0
    &&& h.e_phoff == 0
    &&& h.e_shoff == 0
    &&& h.e_flags == 0
    &&& h.e_ehsize == 0
    &&& h.e_phentsize == 0
    &&& h.e_phnum == 0
    &&& h.e_shentsize == 0
    &&& h.e_shnum == 0
    &&& h.e_shstrndx == 0
}

/// Field-by-field correspondence between a decoded header and the first
/// 52 bytes of an image: the 16-byte identification block, then each
/// scalar at its fixed little-endian offset.
pub open spec fn ehdr_matches(h: Elf32Ehdr, d: Seq<u8>) -> bool {
    &&& h.e_ident@ == d.subrange(0, 16)
    &&& h.e_type == le_u16_at(d, 16)
    &&& h.e_machine == le_u16_at(d, 18)
    &&& h.e_version == le_u32_at(d, 20)
    &&& h.e_entry == le_u32_at(d, 24)
    &&& h.e_phoff == le_u32_at(d, 28)
    &&& h.e_shoff == le_u32_at(d, 32)
    &&& h.e_flags == le_u32_at(d, 36)
    &&& h.e_ehsize == le_u16_at(d, 40)
    &&& h.e_phentsize == le_u16_at(d, 42)
    &&& h.e_phnum == le_u16_at(d, 44)
    &&& h.e_shentsize == le_u16_at(d, 46)
    &&& h.e_shnum == le_u16_at(d, 48)
    &&& h.e_shstrndx == le_u16_at(d, 50)
}

/// The program header decoded from the 32 bytes of `d` starting at `base`:
/// eight 32-bit little-endian fields in fixed order.
pub open spec fn spec_phdr_at(d: Seq<u8>, base: int) -> Elf32Phdr {
    Elf32Phdr {
        p_type: le_u32_at(d, base),
        p_offset: le_u32_at(d, base + 4),
        p_vaddr: le_u32_at(d, base + 8),
        p_paddr: le_u32_at(d, base + 12),
        p_filesz: le_u32_at(d, base + 16),
        p_memsz: le_u32_at(d, base + 20),
        p_flags: le_u32_at(d, base + 24),
        p_align: le_u32_at(d, base + 28),
    }
}

/// The whole program-header table decoded from `d`, in file order.
pub open spec fn spec_phdrs(d: Seq<u8>) -> Seq<Elf32Phdr> {
    Seq::new(
        spec_phnum(d) as nat,
        |t: int| spec_phdr_at(d, spec_phoff(d) + 32 * t),
    )
}

/// When the reader succeeds: the 52 header bytes are present, and the
/// program-header table lies inside the buffer, both at its declared
/// entry size and at the 32 bytes each entry actually occupies.
pub open spec fn parse_ok(d: Seq<u8>) -> bool {
    &&& d.len() >= 52
    &&& spec_phoff(d) + spec_phnum(d) * spec_phentsize(d) <= d.len()
    &&& spec_phoff(d) + spec_phnum(d) * 32 <= d.len()
}

/// The section header decoded from the 40 bytes of `d` starting at `base`:
/// ten 32-bit little-endian fields in fixed order.
pub open spec fn spec_shdr_at(d: Seq<u8>, base: int) -> Elf32Shdr {
    Elf32Shdr {
        sh_name: le_u32_at(d, base),
        sh_type: le_u32_at(d, base + 4),
        sh_flags: le_u32_at(d, base + 8),
        sh_addr: le_u32_at(d, base + 12),
        sh_offset: le_u32_at(d, base + 16),
        sh_size: le_u32_at(d, base + 20),
        sh_link: le_u32_at(d, base + 24),
        sh_info: le_u32_at(d, base + 28),
        sh_addralign: le_u32_at(d, base + 32),
        sh_entsize: le_u32_at(d, base + 36),
    }
}

/// Whether header `h` names a section-name string table among the `e_shnum`
/// entries that a parse appending after `first` existing headers will see.
pub open spec fn has_str_tab(h: Elf32Ehdr, first: int) -> bool {
    first <= h.e_shstrndx < first + h.e_shnum
}

/// Byte offset of the section header that holds the section-name string
/// table, for a parse appending after `first` existing headers.
pub open spec fn str_tab_shdr_base(h: Elf32Ehdr, first: int) -> int {
    h.e_shoff + 40 * (h.e_shstrndx - first)
}

/// When the section-header pass succeeds: the table's 40-byte entries lie
/// inside the buffer, and so does the string table the header points at.
pub open spec fn shdrs_ok(h: Elf32Ehdr, d: Seq<u8>, first: int) -> bool {
    &&& h.e_shoff + h.e_shnum * 40 <= d.len()
    &&& has_str_tab(h, first) ==> {
        let base = str_tab_shdr_base(h, first);
        le_u32_at(d, base + 16) + le_u32_at(d, base + 20) <= d.len()
    }
}

impl Elf32Ehdr {
    /// A zero-filled header, as before any parse.
    pub fn new() -> (h: Elf32Ehdr)
        ensures
            ehdr_zeroed(h),
    {
        Elf32Ehdr {
            e_ident: [0; 16],
            e_type: 0,
            e_machine: 0,
            e_version: 0,
            e_entry: 0,
            e_phoff: 0,
            e_shoff: 0,
            e_flags: 0,
            e_ehsize: 0,
            e_phentsize: 0,
            e_phnum: 0,
            e_shentsize: 0,
            e_shnum: 0,
            e_shstrndx: 0,
        }
    }
}

impl Elf32Shdr {
    /// A zero-filled section header.
    pub fn new() -> (s: Elf32Shdr)
        ensures
            s.sh_name == 0,
            s.sh_type == 0,
            s.sh_flags == 0,
            s.sh_addr == 0,
            s.sh_offset == 0,
            s.sh_size == 0,
            s.sh_link == 0,
            s.sh_info == 0,
            s.sh_addralign == 0,
            s.sh_entsize == 0,
    {
        Elf32Shdr {
            sh_name: 0,
            sh_type: 0,
            sh_flags: 0,
            sh_addr: 0,
            sh_offset: 0,
            sh_size: 0,
            sh_link: 0,
            sh_info: 0,
            sh_addralign: 0,
            sh_entsize: 0,
        }
    }
}

impl Elf32Phdr {
    /// A zero-filled program header.
    pub fn new() -> (p: Elf32Phdr)
        ensures
            p.p_type == 0,
            p.p_offset == 0,
            p.p_vaddr == 0,
            p.p_paddr == 0,
            p.p_filesz == 0,
            p.p_memsz == 0,
            p.p_flags == 0,
            p.p_align == 0,
    {
        Elf32Phdr {
            p_type: 0,
            p_offset: 0,
            p_vaddr: 0,
            p_paddr: 0,
            p_filesz: 0,
            p_memsz: 0,
            p_flags: 0,
            p_align: 0,
        }
    }
}

impl Elf32 {
    /// An empty image: zero header, no program or section headers.
    pub fn new() -> (e: Elf32)
        ensures
            ehdr_zeroed(e.ehdr),
            e.phdrs@ =~= Seq::<Elf32Phdr>::empty(),
            e.shdrs@ =~= Seq::<Elf32Shdr>::empty(),
            e.str_tab@ =~= Seq::<u8>::empty(),
    {
        Elf32 { ehdr: Elf32Ehdr::new(), phdrs: Vec::new(), shdrs: Vec::new(), str_tab: Vec::new() }
    }

    /// Decodes the 52-byte ELF header into `self.ehdr`.
    #[verifier::loop_isolation(false)]
    fn parse_ehdr(&mut self, data: &Vec<u8>)
        requires
            data@.len() >= 52,
        ensures
            ehdr_matches(final(self).ehdr, data@),
            final(self).phdrs@ == old(self).phdrs@,
            final(self).shdrs@ == old(self).shdrs@,
            final(self).str_tab@ == old(self).str_tab@,
    {
        let mut ident: [u8; 16] = [0; 16];
        let mut j: usize = 0;
        while j < 16
            invariant
                j <= 16,
                forall|k: int| 0 <= k < j ==> ident@[k] == data@[k],
            decreases 16 - j,
        {
            ident[j] = data[j];
            j += 1;
        }
        self.ehdr.e_ident = ident;
        self.ehdr.e_type = read_u16_at(data, 16);
        self.ehdr.e_machine = read_u16_at(data, 18);
        self.ehdr.e_version = read_u32_at(data, 20);
        self.ehdr.e_entry = read_u32_at(data, 24);
        self.ehdr.e_phoff = read_u32_at(data, 28);
        self.ehdr.e_shoff = read_u32_at(data, 32);
        self.ehdr.e_flags = read_u32_at(data, 36);
        self.ehdr.e_ehsize = read_u16_at(data, 40);
        self.ehdr.e_phentsize = read_u16_at(data, 42);
        self.ehdr.e_phnum = read_u16_at(data, 44);
        self.ehdr.e_shentsize = read_u16_at(data, 46);
        self.ehdr.e_shnum = read_u16_at(data, 48);
        self.ehdr.e_shstrndx = read_u16_at(data, 50);
        proof {
            assert(self.ehdr.e_ident@ =~= data@.subrange(0, 16));
        }
    }

    /// Decodes `e_phnum` program headers of 32 bytes each, starting at
    /// `e_phoff`, and appends them to `self.phdrs` in file order.
    #[verifier::loop_isolation(false)]
    fn parse_phdrs(&mut self, data: &Vec<u8>)
        requires
            old(self).ehdr.e_phoff + old(self).ehdr.e_phnum * 32 <= data@.len(),
        ensures
            final(self).phdrs@ == old(self).phdrs@ + Seq::new(
                old(self).ehdr.e_phnum as nat,
                |t: int| spec_phdr_at(data@, old(self).ehdr.e_phoff + 32 * t),
            ),
            final(self).ehdr == old(self).ehdr,
            final(self).shdrs@ == old(self).shdrs@,
            final(self).str_tab@ == old(self).str_tab@,
    {
        let _dlen: usize = data.len();
        let n: usize = self.ehdr.e_phnum as usize;
        let off: usize = self.ehdr.e_phoff as usize;
        let ghost first: int = old(self).phdrs@.len() as int;
        let mut t: usize = 0;
        while t < n
            invariant
                t <= n,
                self.ehdr == old(self).ehdr,
                self.shdrs@ == old(self).shdrs@,
                self.str_tab@ == old(self).str_tab@,
                self.phdrs@.len() == first + t,
                self.phdrs@.subrange(0, first) == old(self).phdrs@,
                forall|k: int|
                    first <= k < first + t ==> #[trigger] self.phdrs@[k] == spec_phdr_at(
                        data@,
                        off + 32 * (k - first),
                    ),
            decreases n - t,
        {
            let base: usize = off + t * 32;
            let phdr = Elf32Phdr {
                p_type: read_u32_at(data, base),
                p_offset: read_u32_at(data, base + 4),
                p_vaddr: read_u32_at(data, base + 8),
                p_paddr: read_u32_at(data, base + 12),
                p_filesz: read_u32_at(data, base + 16),
                p_memsz: read_u32_at(data, base + 20),
                p_flags: read_u32_at(data, base + 24),
                p_align: read_u32_at(data, base + 28),
            };
            self.phdrs.push(phdr);
            t += 1;
        }
        proof {
            assert(self.phdrs@ =~= old(self).phdrs@ + Seq::new(
                old(self).ehdr.e_phnum as nat,
                |t: int| spec_phdr_at(data@, old(self).ehdr.e_phoff + 32 * t),
            ));
        }
    }

    /// Decodes the ELF header and the program-header table from `data`.
    ///
    /// Succeeds exactly when the header and the whole program-header table
    /// lie inside the buffer; a truncated input is a hard parse failure
    /// with nothing appended to `self.phdrs`.
    pub fn parse_elf(&mut self, data: &Vec<u8>) -> (r: Result<(), ConvertError>)
        ensures
            r is Ok <==> parse_ok(data@),
            parse_ok(data@) ==> final(self).phdrs@ == old(self).phdrs@ + spec_phdrs(data@),
            !parse_ok(data@) ==> final(self).phdrs@ == old(self).phdrs@,
            data@.len() >= 52 ==> ehdr_matches(final(self).ehdr, data@),
            data@.len() < 52 ==> final(self).ehdr == old(self).ehdr,
            final(self).shdrs@ == old(self).shdrs@,
            final(self).str_tab@ == old(self).str_tab@,
    {
        if data.len() < 52 {
            return Err(ConvertError);
        }
        self.parse_ehdr(data);
        let phoff: u64 = self.ehdr.e_phoff as u64;
        let phnum: u64 = self.ehdr.e_phnum as u64;
        let phentsize: u64 = self.ehdr.e_phentsize as u64;
        let dlen: u64 = data.len() as u64;
        proof {
            assert(phnum * phentsize <= 0xffff * 0xffff) by (nonlinear_arith)
                requires
                    phnum <= 0xffff,
                    phentsize <= 0xffff,
            ;
        }
        if phoff + phnum * phentsize > dlen || phoff + phnum * 32 > dlen {
            return Err(ConvertError);
        }
        self.parse_phdrs(data);
        proof {
            assert(self.phdrs@ =~= old(self).phdrs@ + spec_phdrs(data@));
        }
        Ok(())
    }

    /// Appends bytes `offset .. offset + size` of `data` to the stored
    /// section-name string table.
    #[verifier::loop_isolation(false)]
    pub fn parse_str_tab(&mut self, data: &Vec<u8>, offset: usize, size: usize)
        requires
            offset + size <= data@.len(),
        ensures
            final(self).str_tab@ == old(self).str_tab@ + data@.subrange(
                offset as int,
                offset + size,
            ),
            final(self).ehdr == old(self).ehdr,
            final(self).phdrs@ == old(self).phdrs@,
            final(self).shdrs@ == old(self).shdrs@,
    {
        let _dlen: usize = data.len();
        let end: usize = offset + size;
        let mut i: usize = offset;
        while i < end
            invariant
                offset <= i <= end,
                self.str_tab@ == old(self).str_tab@ + data@.subrange(offset as int, i as int),
                self.ehdr == old(self).ehdr,
                self.phdrs@ == old(self).phdrs@,
                self.shdrs@ == old(self).shdrs@,
            decreases end - i,
        {
            self.str_tab.push(data[i]);
            proof {
                assert(self.str_tab@ =~= old(self).str_tab@ + data@.subrange(
                    offset as int,
                    i + 1,
                ));
            }
            i += 1;
        }
    }

    /// Decodes `e_shnum` section headers of 40 bytes each starting at
    /// `e_shoff`, appending them to `self.shdrs`; when one of them is the
    /// section-name string table named by `e_shstrndx`, its bytes are
    /// appended to `self.str_tab`.
    ///
    /// Succeeds exactly when the table and that string table lie inside
    /// the buffer; on failure nothing is appended.
    #[verifier::loop_isolation(false)]
    pub fn parse_shdrs(&mut self, data: &Vec<u8>) -> (r: Result<(), ConvertError>)
        ensures
            r is Ok <==> shdrs_ok(old(self).ehdr, data@, old(self).shdrs@.len() as int),
            final(self).ehdr == old(self).ehdr,
            final(self).phdrs@ == old(self).phdrs@,
            r is Ok ==> final(self).shdrs@ == old(self).shdrs@ + Seq::new(
                old(self).ehdr.e_shnum as nat,
                |t: int| spec_shdr_at(data@, old(self).ehdr.e_shoff + 40 * t),
            ),
            r is Ok ==> final(self).str_tab@ == old(self).str_tab@ + (
            if has_str_tab(old(self).ehdr, old(self).shdrs@.len() as int) {
                let base = str_tab_shdr_base(old(self).ehdr, old(self).shdrs@.len() as int);
                data@.subrange(
                    le_u32_at(data@, base + 16) as int,
                    le_u32_at(data@, base + 16) + le_u32_at(data@, base + 20),
                )
            } else {
                Seq::<u8>::empty()
            }),
            r is Err ==> final(self).shdrs@ == old(self).shdrs@ && final(self).str_tab@ == old(
                self,
            ).str_tab@,
    {
        let ghost first: int = old(self).shdrs@.len() as int;
        let dl: usize = data.len();
        let n: usize = self.ehdr.e_shnum as usize;
        let shoff: u64 = self.ehdr.e_shoff as u64;
        let dlen: u64 = dl as u64;
        if shoff + (n as u64) * 40 > dlen {
            return Err(ConvertError);
        }
        let off: usize = self.ehdr.e_shoff as usize;

        // Bounds-check the string table named by `e_shstrndx` up front, so
        // that a failure mutates nothing.
        let strndx: usize = self.ehdr.e_shstrndx as usize;
        let have_tab: bool = self.shdrs.len() <= strndx && strndx - self.shdrs.len() < n;
        if have_tab {
            let tab_base: usize = off + (strndx - self.shdrs.len()) * 40;
            let tab_off: u32 = read_u32_at(data, tab_base + 16);
            let tab_size: u32 = read_u32_at(data, tab_base + 20);
            if (tab_off as u64) + (tab_size as u64) > dlen {
                return Err(ConvertError);
            }
        }

        let mut t: usize = 0;
        while t < n
            invariant
                t <= n,
                self.ehdr == old(self).ehdr,
                self.phdrs@ == old(self).phdrs@,
                self.shdrs@.len() == first + t,
                self.shdrs@.subrange(0, first) == old(self).shdrs@,
                forall|k: int|
                    first <= k < first + t ==> #[trigger] self.shdrs@[k] == spec_shdr_at(
                        data@,
                        off + 40 * (k - first),
                    ),
                self.str_tab@ == old(self).str_tab@ + (
                if has_str_tab(old(self).ehdr, first) && old(self).ehdr.e_shstrndx < first + t {
                    let base = str_tab_shdr_base(old(self).ehdr, first);
                    data@.subrange(
                        le_u32_at(data@, base + 16) as int,
                        le_u32_at(data@, base + 16) + le_u32_at(data@, base + 20),
                    )
                } else {
                    Seq::<u8>::empty()
                }),
            decreases n - t,
        {
            let base: usize = off + t * 40;
            let shdr = Elf32Shdr {
                sh_name: read_u32_at(data, base),
                sh_type: read_u32_at(data, base + 4),
                sh_flags: read_u32_at(data, base + 8),
                sh_addr: read_u32_at(data, base + 12),
                sh_offset: read_u32_at(data, base + 16),
                sh_size: read_u32_at(data, base + 20),
                sh_link: read_u32_at(data, base + 24),
                sh_info: read_u32_at(data, base + 28),
                sh_addralign: read_u32_at(data, base + 32),
                sh_entsize: read_u32_at(data, base + 36),
            };
            if strndx == self.shdrs.len() {
                self.parse_str_tab(data, shdr.sh_offset as usize, shdr.sh_size as usize);
            }
            self.shdrs.push(shdr);
            t += 1;
        }
        proof {
            assert(self.shdrs@ =~= old(self).shdrs@ + Seq::new(
                old(self).ehdr.e_shnum as nat,
                |t: int| spec_shdr_at(data@, old(self).ehdr.e_shoff + 40 * t),
            ));
        }
        Ok(())
    }
}

} // verus!
