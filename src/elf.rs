//! What the kernel reads of an ELF executable: the fields of the 64-bit
//! file header and of each program header, little-endian integers at fixed
//! offsets.

use vstd::prelude::*;
use crate::task::{spec_le4, spec_le8};

verus! {

/// The fields of an ELF file header that loading needs.
#[derive(Clone, Copy, Debug, PartialEq, Eq, Structural)]
pub struct ElfHeaderInfo {
    /// The file is of the 64-bit class.
    pub is64: bool,
    pub entry: u64,
    pub ph_offset: u64,
    pub ph_entry_size: u16,
    pub ph_count: u16,
}

/// The fields of an ELF program header that loading needs.
#[derive(Clone, Copy, Debug, PartialEq, Eq, Structural)]
pub struct ProgramInfo {
    /// The segment is of type `LOAD`.
    pub is_load: bool,
    pub vaddr: u64,
    pub mem_size: u64,
    pub offset: u64,
    pub file_size: u64,
    pub readable: bool,
    pub writable: bool,
    pub executable: bool,
}

/// The four bytes an ELF file starts with.
pub open spec fn elf_magic() -> Seq<u8> {
    seq![0x7fu8, 0x45, 0x4c, 0x46]
}

/// The little-endian 16-bit value at `d[o..o + 2]`.
pub open spec fn spec_u16_at(d: Seq<u8>, o: int) -> u64 {
    (d[o] as u64) | ((d[o + 1] as u64) << 8)
}

/// The little-endian 32-bit value at `d[o..o + 4]`.
pub open spec fn spec_u32_at(d: Seq<u8>, o: int) -> u64 {
    spec_le4(d[o], d[o + 1], d[o + 2], d[o + 3])
}

/// The little-endian 64-bit value at `d[o..o + 8]`.
pub open spec fn spec_u64_at(d: Seq<u8>, o: int) -> u64 {
    spec_le8(d[o], d[o + 1], d[o + 2], d[o + 3], d[o + 4], d[o + 5], d[o + 6], d[o + 7])
}

/// The file header of `d`: present when `d` holds at least 64 bytes that
/// start with the ELF magic and name the 32-bit (1) or 64-bit (2) class.
/// The other fields are read at their 64-bit offsets: entry at 24, program
/// header offset at 32, entry size at 54, count at 56.
pub open spec fn elf_header_of(d: Seq<u8>) -> Option<ElfHeaderInfo> {
    if d.len() >= 64 && d.subrange(0, 4) == elf_magic() && (d[4] == 1 || d[4] == 2) {
        Some(ElfHeaderInfo {
            is64: d[4] == 2,
            entry: spec_u64_at(d, 24),
            ph_offset: spec_u64_at(d, 32),
            ph_entry_size: spec_u16_at(d, 54) as u16,
            ph_count: spec_u16_at(d, 56) as u16,
        })
    } else {
        None
    }
}

/// Where program header `index` starts.
pub open spec fn spec_ph_start(h: ElfHeaderInfo, index: u16) -> int {
    h.ph_offset as int + index as int * h.ph_entry_size as int
}

/// Program header `index` of `d` under file header `h`: present when the
/// index is below the count, the table offset is not zero, entries are at
/// least 56 bytes, and the entry lies inside `d`. Type at 0 (`LOAD` is 1),
/// flags at 4 (R 4, W 2, X 1), file offset at 8, address at 16, file size
/// at 32, memory size at 40.
pub open spec fn elf_program_header_of(d: Seq<u8>, h: ElfHeaderInfo, index: u16) -> Option<ProgramInfo> {
    let o = spec_ph_start(h, index);
    if index < h.ph_count && h.ph_offset > 0 && h.ph_entry_size >= 56 && o + 56 <= d.len() {
        let flags = spec_u32_at(d, o + 4);
        Some(ProgramInfo {
            is_load: spec_u32_at(d, o) == 1,
            vaddr: spec_u64_at(d, o + 16),
            mem_size: spec_u64_at(d, o + 40),
            offset: spec_u64_at(d, o + 8),
            file_size: spec_u64_at(d, o + 32),
            readable: flags & 4 != 0,
            writable: flags & 2 != 0,
            executable: flags & 1 != 0,
        })
    } else {
        None
    }
}

/// The little-endian 16-bit value at `d[o..o + 2]`.
fn read_u16(d: &[u8], o: usize) -> (r: u64)
    requires
        o + 2 <= d@.len(),
    ensures
        r == spec_u16_at(d@, o as int),
{
    (d[o] as u64) | ((d[o + 1] as u64) << 8u64)
}

/// The little-endian 32-bit value at `d[o..o + 4]`.
fn read_u32(d: &[u8], o: usize) -> (r: u64)
    requires
        o + 4 <= d@.len(),
    ensures
        r == spec_u32_at(d@, o as int),
{
    (d[o] as u64) | ((d[o + 1] as u64) << 8u64) | ((d[o + 2] as u64) << 16u64) | ((d[o + 3] as u64) << 24u64)
}

/// The little-endian 64-bit value at `d[o..o + 8]`.
fn read_u64(d: &[u8], o: usize) -> (r: u64)
    requires
        o + 8 <= d@.len(),
    ensures
        r == spec_u64_at(d@, o as int),
{
    (d[o] as u64) | ((d[o + 1] as u64) << 8u64) | ((d[o + 2] as u64) << 16u64) | ((d[o + 3] as u64) << 24u64)
        | ((d[o + 4] as u64) << 32u64) | ((d[o + 5] as u64) << 40u64) | ((d[o + 6] as u64) << 48u64)
        | ((d[o + 7] as u64) << 56u64)
}

/// Reads the file header of `data`.
pub fn parse_elf_header(data: &[u8]) -> (r: Option<ElfHeaderInfo>)
    ensures
        r == elf_header_of(data@),
{
    if data.len() < 64 {
        return None;
    }
    if data[0] != 0x7f || data[1] != 0x45 || data[2] != 0x4c || data[3] != 0x46 || (data[4] != 1 && data[4] != 2) {
        proof {
            if data@.subrange(0, 4) == elf_magic() {
                assert(data@.subrange(0, 4)[0] == data@[0]);
                assert(data@.subrange(0, 4)[1] == data@[1]);
                assert(data@.subrange(0, 4)[2] == data@[2]);
                assert(data@.subrange(0, 4)[3] == data@[3]);
            }
        }
        return None;
    }
    assert(data@.subrange(0, 4) =~= elf_magic());
    Some(ElfHeaderInfo {
        is64: data[4] == 2,
        entry: read_u64(data, 24),
        ph_offset: read_u64(data, 32),
        ph_entry_size: read_u16(data, 54) as u16,
        ph_count: read_u16(data, 56) as u16,
    })
}

/// Reads program header `index` of `data` under file header `h`.
pub fn parse_program_header(data: &[u8], h: &ElfHeaderInfo, index: u16) -> (r: Option<ProgramInfo>)
    ensures
        r == elf_program_header_of(data@, *h, index),
{
    if index >= h.ph_count || h.ph_offset == 0 || h.ph_entry_size < 56 {
        return None;
    }
    assert((index as int) * (h.ph_entry_size as int) <= 0xffff * 0xffff) by (nonlinear_arith)
        requires index <= 0xffff, h.ph_entry_size <= 0xffff;
    let o = h.ph_offset as u128 + (index as u128) * (h.ph_entry_size as u128);
    if o + 56 > data.len() as u128 {
        return None;
    }
    let o = o as usize;
    let flags = read_u32(data, o + 4);
    Some(ProgramInfo {
        is_load: read_u32(data, o) == 1,
        vaddr: read_u64(data, o + 16),
        mem_size: read_u64(data, o + 40),
        offset: read_u64(data, o + 8),
        file_size: read_u64(data, o + 32),
        readable: flags & 4 != 0,
        writable: flags & 2 != 0,
        executable: flags & 1 != 0,
    })
}

} // verus!
