//! Addresses, pages and frames as plain integers with their invariants.

use vstd::prelude::*;
use crate::x86;

verus! {

/// Size in bytes of one page of virtual memory and of one frame of physical
/// memory.
pub const PAGE_SIZE: u64 = 4096;

/// One past the largest physical address: physical addresses have 52 bits.
pub const PHYS_ADDR_END: u64 = 0x10_0000_0000_0000;

/// Whether bits 48 to 63 of `addr` repeat bit 47, as the hardware demands of a
/// virtual address.
pub open spec fn is_canonical(addr: u64) -> bool {
    addr < 0x0000_8000_0000_0000 || addr >= 0xffff_8000_0000_0000
}

/// Whether `addr` is the first byte of a page or frame.
pub open spec fn is_page_aligned(addr: u64) -> bool {
    addr % PAGE_SIZE == 0
}

/// Whether `addr` can be the start of a physical frame.
pub open spec fn is_frame_start(addr: u64) -> bool {
    is_page_aligned(addr) && addr < PHYS_ADDR_END
}

/// Whether `addr` can be the start of a virtual page.
pub open spec fn is_page_start(addr: u64) -> bool {
    is_page_aligned(addr) && is_canonical(addr)
}

/// One of the four levels of page tables; level four is the root.
#[derive(Clone, Copy, PartialEq, Eq, Structural, Debug)]
pub enum PageTableLevel {
    One,
    Two,
    Three,
    Four,
}

impl PageTableLevel {
    /// The level as a number between 1 and 4.
    pub open spec fn number(self) -> int {
        match self {
            PageTableLevel::One => 1,
            PageTableLevel::Two => 2,
            PageTableLevel::Three => 3,
            PageTableLevel::Four => 4,
        }
    }

    /// The level of the tables that the entries of a table of this level point
    /// to; none below level one.
    pub open spec fn lower(self) -> Option<PageTableLevel> {
        match self {
            PageTableLevel::Four => Some(PageTableLevel::Three),
            PageTableLevel::Three => Some(PageTableLevel::Two),
            PageTableLevel::Two => Some(PageTableLevel::One),
            PageTableLevel::One => None,
        }
    }

    /// The level of the tables that the entries of a table of this level point
    /// to; none below level one.
    pub fn next_lower_level(self) -> (lower: Option<PageTableLevel>)
        ensures
            lower == self.lower(),
    {
        match self {
            PageTableLevel::Four => Some(PageTableLevel::Three),
            PageTableLevel::Three => Some(PageTableLevel::Two),
            PageTableLevel::Two => Some(PageTableLevel::One),
            PageTableLevel::One => None,
        }
    }
}

/// A canonical virtual address.
#[derive(Clone, Copy, PartialEq, Eq, Structural, Debug)]
pub struct VirtAddr {
    addr: u64,
}

impl VirtAddr {
    #[verifier::type_invariant]
    spec fn inv(self) -> bool {
        is_canonical(self.addr)
    }

    /// The address as a number.
    pub closed spec fn value(self) -> u64 {
        self.addr
    }

    /// The virtual address `addr`, which must be canonical.
    pub fn new(addr: u64) -> (v: VirtAddr)
        requires
            is_canonical(addr),
        ensures
            v.value() == addr,
    {
        VirtAddr { addr }
    }

    /// The virtual address `addr`, or nothing where `addr` is not canonical.
    pub fn try_new(addr: u64) -> (v: Option<VirtAddr>)
        ensures
            is_canonical(addr) <==> v is Some,
            v matches Some(a) ==> a.value() == addr,
    {
        if addr < 0x0000_8000_0000_0000 || addr >= 0xffff_8000_0000_0000 {
            Some(VirtAddr { addr })
        } else {
            None
        }
    }

    pub fn as_u64(self) -> (addr: u64)
        ensures
            addr == self.value(),
            is_canonical(addr),
    {
        proof {
            use_type_invariant(&self);
        }
        self.addr
    }

    /// The offset of the address within its page.
    pub fn page_offset(self) -> (offset: u16)
        ensures
            offset == self.value() % PAGE_SIZE,
    {
        proof {
            use_type_invariant(&self);
        }
        x86::page_offset(self.addr)
    }

    /// The slot that the address selects in a table of `level`.
    pub fn page_table_index(self, level: PageTableLevel) -> (index: u16)
        ensures
            index == x86::table_index(self.value(), level),
            index < 512,
    {
        proof {
            use_type_invariant(&self);
        }
        x86::page_table_index(self.addr, level)
    }
}

/// A physical address: a number of at most 52 bits.
#[derive(Clone, Copy, PartialEq, Eq, Structural, Debug)]
pub struct PhysAddr {
    addr: u64,
}

impl PhysAddr {
    #[verifier::type_invariant]
    spec fn inv(self) -> bool {
        self.addr < PHYS_ADDR_END
    }

    /// The address as a number.
    pub closed spec fn value(self) -> u64 {
        self.addr
    }

    /// The physical address `addr`, which must fit in 52 bits.
    pub fn new(addr: u64) -> (p: PhysAddr)
        requires
            addr < PHYS_ADDR_END,
        ensures
            p.value() == addr,
    {
        PhysAddr { addr }
    }

    /// The physical address `addr`, or nothing where `addr` has more than 52
    /// bits.
    pub fn try_new(addr: u64) -> (p: Option<PhysAddr>)
        ensures
            addr < PHYS_ADDR_END <==> p is Some,
            p matches Some(a) ==> a.value() == addr,
    {
        if addr < PHYS_ADDR_END {
            Some(PhysAddr { addr })
        } else {
            None
        }
    }

    pub fn as_u64(self) -> (addr: u64)
        ensures
            addr == self.value(),
            addr < PHYS_ADDR_END,
    {
        proof {
            use_type_invariant(&self);
        }
        self.addr
    }
}

/// A frame of physical memory, named by the address of its first byte.
#[derive(Clone, Copy, PartialEq, Eq, Structural, Debug)]
pub struct PhysFrame {
    start: u64,
}

impl PhysFrame {
    #[verifier::type_invariant]
    pub(crate) closed spec fn inv(self) -> bool {
        is_frame_start(self.start)
    }

    /// What the invariant says of the start of the frame.
    pub(crate) proof fn lemma_inv(self)
        requires
            self.inv(),
        ensures
            is_frame_start(self.start()),
    {
    }

    /// The address of the first byte of the frame.
    pub closed spec fn start(self) -> u64 {
        self.start
    }

    /// The frame that holds `addr`.
    pub fn containing_address(addr: PhysAddr) -> (frame: PhysFrame)
        ensures
            frame.start() == addr.value() - addr.value() % PAGE_SIZE,
    {
        let start = x86::frame_containing(addr.as_u64());
        PhysFrame { start }
    }

    /// The frame that starts at `addr`, or nothing where `addr` is not
    /// the first byte of a frame.
    pub fn from_start_address(addr: PhysAddr) -> (frame: Option<PhysFrame>)
        ensures
            is_page_aligned(addr.value()) <==> frame is Some,
            frame matches Some(f) ==> f.start() == addr.value(),
    {
        let start = addr.as_u64();
        if start % PAGE_SIZE == 0 {
            Some(PhysFrame { start })
        } else {
            None
        }
    }

    /// The frame that starts at `start`.
    pub(crate) fn from_start(start: u64) -> (frame: PhysFrame)
        requires
            is_frame_start(start),
        ensures
            frame.start() == start,
    {
        PhysFrame { start }
    }

    pub fn start_address(self) -> (addr: PhysAddr)
        ensures
            addr.value() == self.start(),
            is_frame_start(addr.value()),
    {
        proof {
            use_type_invariant(&self);
        }
        PhysAddr { addr: self.start }
    }
}

/// A page of virtual memory, named by the address of its first byte.
#[derive(Clone, Copy, PartialEq, Eq, Structural, Debug)]
pub struct Page {
    start: u64,
}

impl Page {
    #[verifier::type_invariant]
    spec fn inv(self) -> bool {
        is_page_start(self.start)
    }

    /// The address of the first byte of the page.
    pub closed spec fn start(self) -> u64 {
        self.start
    }

    /// The page that holds `addr`.
    pub fn containing_address(addr: VirtAddr) -> (page: Page)
        ensures
            page.start() == addr.value() - addr.value() % PAGE_SIZE,
    {
        let start = x86::page_containing(addr.as_u64());
        assert(is_canonical(start)) by {
            let a = addr.value();
            assert(a < 0x0000_8000_0000_0000 || a >= 0xffff_8000_0000_0000);
            assert(0xffff_8000_0000_0000u64 % 4096 == 0);
        }
        Page { start }
    }

    pub fn start_address(self) -> (addr: VirtAddr)
        ensures
            addr.value() == self.start(),
            is_page_start(addr.value()),
    {
        proof {
            use_type_invariant(&self);
        }
        VirtAddr { addr: self.start }
    }
}

} // verus!
