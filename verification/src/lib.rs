//! Converter from 32-bit ELF executable images to UF2 block streams.
//!
//! The crate has three parts: a structural reader that decodes the ELF
//! header and program-header table from a raw byte buffer (`elf`), a
//! transcoder that re-chunks the loadable segments into fixed-size UF2
//! blocks (`elf2uf2`), and a serializer that renders the block sequence
//! to its 512-byte-per-block wire layout (`uf2`). All multi-byte fields
//! are little-endian; the shared byte codec lives in `codec`.

use vstd::prelude::*;

pub mod codec;
pub mod elf;
pub mod elf2uf2;
pub mod uf2;

verus! {

/// Error returned when an input cannot be converted: a header field or a
/// loadable segment would be read past the end of the buffer, or the
/// resulting block stream cannot be addressed within 32 bits.
///
/// Conversion has no partial-success mode, so a single terminal error
/// covers every failure.
#[derive(Debug, Clone, Copy, PartialEq, Eq)]
pub struct ConvertError;

} // verus!
