//! Virtual and physical page numbers and the arithmetic between addresses
//! and pages under Sv39.

use vstd::prelude::*;
use crate::config::{PAGE_SIZE, VPN_LIMIT};

verus! {

/// The virtual page number that holds address `va`, after the address is cut
/// to the 39 bits that Sv39 translates.
pub open spec fn spec_floor(va: u64) -> int {
    ((va as int) % (VPN_LIMIT * PAGE_SIZE) as int) / PAGE_SIZE as int
}

/// The first virtual page number at or above `va` (cut to 39 bits).
pub open spec fn spec_ceil(va: u64) -> int {
    let a = (va as int) % (VPN_LIMIT * PAGE_SIZE) as int;
    (a + PAGE_SIZE - 1) / PAGE_SIZE as int
}

/// Page number of the page that holds virtual address `va`.
pub fn va_floor(va: u64) -> (r: u64)
    ensures
        r == spec_floor(va),
        r < VPN_LIMIT,
{
    (va % (VPN_LIMIT * PAGE_SIZE)) / PAGE_SIZE
}

/// Page number of the first page that starts at or above `va`.
pub fn va_ceil(va: u64) -> (r: u64)
    ensures
        r == spec_ceil(va),
        r <= VPN_LIMIT,
{
    let a = va % (VPN_LIMIT * PAGE_SIZE);
    (a + PAGE_SIZE - 1) / PAGE_SIZE
}

/// Offset of `addr` inside its page.
pub fn page_offset(addr: u64) -> (r: u64)
    ensures
        r == addr % PAGE_SIZE,
        r < PAGE_SIZE,
{
    addr % PAGE_SIZE
}

/// First address of physical page `ppn`.
pub fn ppn_to_pa(ppn: u64) -> (r: u64)
    requires
        ppn < crate::config::PPN_LIMIT,
    ensures
        r == ppn * PAGE_SIZE,
{
    ppn * PAGE_SIZE
}

/// The three 9-bit indices of `vpn`, from the root level down.
pub fn vpn_indices(vpn: u64) -> (r: (u64, u64, u64))
    ensures
        r.0 == (vpn / 0x40000) % 512,
        r.1 == (vpn / 512) % 512,
        r.2 == vpn % 512,
{
    ((vpn / 0x40000) % 512, (vpn / 512) % 512, vpn % 512)
}

} // verus!
