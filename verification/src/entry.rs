//! The layout of a page-table entry: a frame address in bits 12 to 51 and
//! flags in the bits around it.

use vstd::prelude::*;
use crate::addr::is_frame_start;

verus! {

/// The bits of an entry that hold the address of a frame.
pub const ADDRESS_MASK: u64 = 0x000f_ffff_ffff_f000;

/// The flag of an entry that the hardware may follow.
pub const PRESENT: u64 = 0x1;

/// The flag of an entry whose memory may be written.
pub const WRITABLE: u64 = 0x2;

/// The flags of an entry that leads to a table: present and writable.
pub const TABLE_FLAGS: u64 = 0x3;

/// The flag of an entry that maps a huge frame in place of a table.
pub const HUGE_PAGE: u64 = 0x80;

/// Whether the hardware may follow `entry`.
pub open spec fn is_present(entry: u64) -> bool {
    entry & PRESENT != 0
}

/// Whether `entry` claims to map a huge frame.
pub open spec fn is_huge(entry: u64) -> bool {
    entry & HUGE_PAGE != 0
}

/// The address that `entry` holds.
pub open spec fn address_of(entry: u64) -> u64 {
    entry & ADDRESS_MASK
}

/// The entry that points to the frame at `frame` with `flags`.
pub open spec fn entry_of(frame: u64, flags: u64) -> u64 {
    frame | flags
}

/// Why an entry leads to no frame of ordinary size.
#[derive(Clone, Copy, PartialEq, Eq, Structural, Debug)]
pub enum FrameError {
    /// The entry is not present.
    FrameNotPresent,
    /// The entry is present and maps a huge frame.
    HugeFrame,
}

/// The frame that `entry` leads to: none for an entry that is not present,
/// none for one that maps a huge frame.
pub open spec fn frame_of(entry: u64) -> Result<u64, FrameError> {
    if !is_present(entry) {
        Err(FrameError::FrameNotPresent)
    } else if is_huge(entry) {
        Err(FrameError::HugeFrame)
    } else {
        Ok(address_of(entry))
    }
}

/// The flags of a page-table entry: any bits outside the address.
#[derive(Clone, Copy, PartialEq, Eq, Structural, Debug)]
pub struct PageTableFlags {
    bits: u64,
}

impl PageTableFlags {
    #[verifier::type_invariant]
    spec fn inv(self) -> bool {
        self.bits & ADDRESS_MASK == 0
    }

    /// The flags as the bits of an entry.
    pub closed spec fn value(self) -> u64 {
        self.bits
    }

    /// No flag.
    pub fn empty() -> (flags: PageTableFlags)
        ensures
            flags.value() == 0,
    {
        assert(0u64 & ADDRESS_MASK == 0) by (bit_vector);
        PageTableFlags { bits: 0 }
    }

    /// The flag of an entry that the hardware may follow.
    pub fn present() -> (flags: PageTableFlags)
        ensures
            flags.value() == PRESENT,
    {
        assert(PRESENT & ADDRESS_MASK == 0) by (bit_vector);
        PageTableFlags { bits: PRESENT }
    }

    /// The flag of an entry whose memory may be written.
    pub fn writable() -> (flags: PageTableFlags)
        ensures
            flags.value() == WRITABLE,
    {
        assert(WRITABLE & ADDRESS_MASK == 0) by (bit_vector);
        PageTableFlags { bits: WRITABLE }
    }

    /// The flag of an entry that maps a huge frame.
    pub fn huge_page() -> (flags: PageTableFlags)
        ensures
            flags.value() == HUGE_PAGE,
    {
        assert(HUGE_PAGE & ADDRESS_MASK == 0) by (bit_vector);
        PageTableFlags { bits: HUGE_PAGE }
    }

    /// The two flags of an entry that leads to memory that may be read and
    /// written.
    pub fn present_writable() -> (flags: PageTableFlags)
        ensures
            flags.value() == TABLE_FLAGS,
    {
        assert(TABLE_FLAGS & ADDRESS_MASK == 0) by (bit_vector);
        PageTableFlags { bits: TABLE_FLAGS }
    }

    /// The flags among `bits`; the bits of the address are dropped.
    pub fn from_bits_truncate(bits: u64) -> (flags: PageTableFlags)
        ensures
            flags.value() == bits & !ADDRESS_MASK,
    {
        assert((bits & !ADDRESS_MASK) & ADDRESS_MASK == 0) by (bit_vector);
        PageTableFlags { bits: bits & !ADDRESS_MASK }
    }

    pub fn bits(self) -> (bits: u64)
        ensures
            bits == self.value(),
            bits & ADDRESS_MASK == 0,
    {
        proof {
            use_type_invariant(&self);
        }
        self.bits
    }

    /// The flags of `self` and those of `other`.
    pub fn union(self, other: PageTableFlags) -> (flags: PageTableFlags)
        ensures
            flags.value() == self.value() | other.value(),
    {
        proof {
            use_type_invariant(&self);
            use_type_invariant(&other);
        }
        let a = self.bits;
        let b = other.bits;
        assert((a | b) & ADDRESS_MASK == 0) by (bit_vector)
            requires
                a & ADDRESS_MASK == 0,
                b & ADDRESS_MASK == 0,
        ;
        PageTableFlags { bits: a | b }
    }

    /// Whether every flag of `other` is among those of `self`.
    pub fn contains(self, other: PageTableFlags) -> (all: bool)
        ensures
            all == (self.value() & other.value() == other.value()),
    {
        self.bits & other.bits == other.bits
    }
}

/// What holds of the entry that is written for a frame with flags: it keeps
/// both apart.
pub proof fn lemma_entry_of(frame: u64, flags: u64)
    requires
        is_frame_start(frame),
        flags & ADDRESS_MASK == 0,
    ensures
        address_of(entry_of(frame, flags)) == frame,
        is_present(entry_of(frame, flags)) == is_present(flags),
        is_huge(entry_of(frame, flags)) == is_huge(flags),
        entry_of(frame, flags) == 0 <==> frame == 0 && flags == 0,
{
    assert(frame & !ADDRESS_MASK == 0) by (bit_vector)
        requires
            frame % 4096 == 0,
            frame < 0x10_0000_0000_0000,
    ;
    assert((frame | flags) & ADDRESS_MASK == frame && (frame | flags) & PRESENT == flags & PRESENT
        && (frame | flags) & HUGE_PAGE == flags & HUGE_PAGE && ((frame | flags) == 0 <==> frame
        == 0 && flags == 0)) by (bit_vector)
        requires
            frame & !ADDRESS_MASK == 0,
            flags & ADDRESS_MASK == 0,
    ;
}

/// The address that an entry holds is the start of a frame.
pub proof fn lemma_address_of(entry: u64)
    ensures
        is_frame_start(address_of(entry)),
{
    assert((entry & ADDRESS_MASK) % 4096 == 0 && (entry & ADDRESS_MASK) < 0x10_0000_0000_0000)
        by (bit_vector);
}

} // verus!
