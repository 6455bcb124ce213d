//! Address value types: physical and virtual addresses, and pages.

use vstd::prelude::*;
use core::marker::PhantomData;

verus! {

/// Marker trait for the kind of memory an [`Address`] refers to.
pub trait AddressType {}

/// Marker for physical addresses.
#[derive(Clone, Copy, PartialEq, Eq)]
pub enum Physical {
    Tag,
}

impl AddressType for Physical {}

/// Marker for virtual addresses.
#[derive(Clone, Copy, PartialEq, Eq)]
pub enum Virtual {
    Tag,
}

impl AddressType for Virtual {}

/// An address, tagged with the kind of memory it refers to.
#[derive(PartialEq, Eq)]
pub struct Address<T: AddressType>(u64, PhantomData<T>);

impl<T: AddressType> Copy for Address<T> {

}

impl<T: AddressType> Clone for Address<T> {
    fn clone(&self) -> (r: Self)
        ensures
            r == *self,
    {
        *self
    }
}

impl<T: AddressType> Address<T> {
    /// The numeric value of the address.
    pub closed spec fn addr_spec(self) -> u64 {
        self.0
    }

    /// The null address.
    pub fn zero() -> (r: Self)
        ensures
            r.addr_spec() == 0,
    {
        Address(0, PhantomData)
    }

    /// The numeric value of the address.
    pub fn as_usize(&self) -> (r: usize)
        ensures
            r == self.addr_spec() as usize,
    {
        self.0 as usize
    }

    /// The numeric value of the address, as a `u64`.
    pub fn as_u64(&self) -> (r: u64)
        ensures
            r == self.addr_spec(),
    {
        self.0
    }

    /// Whether the address is null.
    pub fn is_null(&self) -> (r: bool)
        ensures
            r == (self.addr_spec() == 0),
    {
        self.0 == 0
    }

    /// Whether the address is a multiple of `alignment`.
    pub fn is_aligned_to(&self, alignment: u64) -> (r: bool)
        requires
            alignment > 0,
            alignment & ((alignment - 1) as u64) == 0,
        ensures
            r == (self.addr_spec() % alignment == 0),
    {
        let a = self.0;
        let r = (a & (alignment - 1)) == 0;
        proof {
            crate::bits::lemma_pow2_mask_mod(a, alignment);
        }
        r
    }
}

impl Address<Physical> {
    /// Whether `address` is a canonical physical address (bits 52..64 clear).
    pub fn is_canonical(address: u64) -> (r: bool)
        ensures
            r == (address & 0xFFF0_0000_0000_0000 == 0),
    {
        (address & 0xFFF0_0000_0000_0000) == 0
    }

    /// A physical address; the input must be canonical.
    pub fn new(addr: u64) -> (r: Self)
        requires
            addr & 0xFFF0_0000_0000_0000 == 0,
        ensures
            r.addr_spec() == addr,
    {
        Address(addr, PhantomData)
    }

    /// A physical address with the non-canonical bits 52..64 discarded.
    pub fn new_truncate(addr: u64) -> (r: Self)
        ensures
            r.addr_spec() == addr & 0xF_FFFF_FFFF_FFFF,
    {
        Address(addr & 0xF_FFFF_FFFF_FFFF, PhantomData)
    }

    /// The index of the physical frame containing this address.
    pub fn frame_index(&self) -> (r: u64)
        ensures
            r == self.addr_spec() / 0x1000,
    {
        self.0 / 0x1000
    }

    /// Whether the address lies on a frame boundary.
    pub fn is_frame_aligned(&self) -> (r: bool)
        ensures
            r == (self.addr_spec() % 0x1000 == 0),
    {
        let a = self.0;
        let r = (a & 0xFFF) == 0;
        proof {
            assert((a & 0xFFF == 0) == (a % 0x1000 == 0)) by (bit_vector);
        }
        r
    }
}

/// The sign extension of bit 47 over the upper 16 bits of `addr`: the
/// canonical virtual address with the same low 48 bits.
pub open spec fn canonical_virtual(addr: u64) -> u64 {
    if addr & 0x8000_0000_0000 != 0 {
        addr | 0xFFFF_0000_0000_0000
    } else {
        addr & 0x0000_FFFF_FFFF_FFFF
    }
}

impl Address<Virtual> {
    /// A virtual address, or `None` if `addr` is non-canonical and not
    /// representable by truncation of bits 48..64.
    pub fn new(addr: u64) -> (r: Option<Self>)
        ensures
            (addr >> 47 == 0 || addr >> 47 == 0x1FFFF) ==> (r matches Some(a)
                && a.addr_spec() == addr),
            addr >> 47 == 1 ==> (r matches Some(a) && a.addr_spec() == canonical_virtual(addr)),
            !(addr >> 47 == 0 || addr >> 47 == 0x1FFFF || addr >> 47 == 1) ==> r is None,
    {
        let high = addr >> 47;
        if high == 0 || high == 0x1FFFF {
            Some(Address(addr, PhantomData))
        } else if high == 1 {
            Some(Self::new_truncate(addr))
        } else {
            None
        }
    }

    /// The canonical virtual address with the same low 48 bits as `addr`:
    /// bit 47 is sign-extended over the upper 16 bits.
    pub fn new_truncate(addr: u64) -> (r: Self)
        ensures
            r.addr_spec() == canonical_virtual(addr),
    {
        if (addr & 0x8000_0000_0000) != 0 {
            Address(addr | 0xFFFF_0000_0000_0000, PhantomData)
        } else {
            Address(addr & 0x0000_FFFF_FFFF_FFFF, PhantomData)
        }
    }

    /// The index of the virtual page containing this address.
    pub fn page_index(&self) -> (r: u64)
        ensures
            r == self.addr_spec() / 0x1000,
    {
        self.0 / 0x1000
    }

    /// The offset of this address within its page.
    pub fn page_offset(&self) -> (r: u64)
        ensures
            r == self.addr_spec() % 0x1000,
    {
        let a = self.0;
        let r = a & 0xFFF;
        proof {
            assert(a & 0xFFF == a % 0x1000) by (bit_vector);
        }
        r
    }

    /// The level-1 table index of this address (bits 12..21).
    pub fn p1_index(&self) -> (r: u64)
        ensures
            r == (self.addr_spec() >> 12) & 0x1FF,
    {
        (self.0 >> 12) & 0x1FF
    }

    /// The level-2 table index of this address (bits 21..30).
    pub fn p2_index(&self) -> (r: u64)
        ensures
            r == (self.addr_spec() >> 21) & 0x1FF,
    {
        let a = self.0;
        let r = (a >> 12 >> 9) & 0x1FF;
        proof {
            assert((a >> 12 >> 9) & 0x1FF == (a >> 21) & 0x1FF) by (bit_vector);
        }
        r
    }

    /// The level-3 table index of this address (bits 30..39).
    pub fn p3_index(&self) -> (r: u64)
        ensures
            r == (self.addr_spec() >> 30) & 0x1FF,
    {
        let a = self.0;
        let r = (a >> 12 >> 9 >> 9) & 0x1FF;
        proof {
            assert((a >> 12 >> 9 >> 9) & 0x1FF == (a >> 30) & 0x1FF) by (bit_vector);
        }
        r
    }

    /// The level-4 table index of this address (bits 39..48).
    pub fn p4_index(&self) -> (r: u64)
        ensures
            r == (self.addr_spec() >> 39) & 0x1FF,
    {
        let a = self.0;
        let r = (a >> 12 >> 9 >> 9 >> 9) & 0x1FF;
        proof {
            assert((a >> 12 >> 9 >> 9 >> 9) & 0x1FF == (a >> 39) & 0x1FF) by (bit_vector);
        }
        r
    }

    /// Whether the address lies on a page boundary.
    pub fn is_page_aligned(&self) -> (r: bool)
        ensures
            r == (self.addr_spec() % 0x1000 == 0),
    {
        let a = self.0;
        let r = (a & 0xFFF) == 0;
        proof {
            assert((a & 0xFFF == 0) == (a % 0x1000 == 0)) by (bit_vector);
        }
        r
    }
}

/// A fixed-size unit of virtual address space, identified by its index:
/// the page covers virtual addresses `index * 0x1000 .. (index + 1) * 0x1000`.
#[derive(Clone, Copy, PartialEq, Eq, Structural, Debug)]
pub struct Page {
    index: u64,
}

impl Page {
    /// The index of this page.
    pub closed spec fn index_spec(self) -> u64 {
        self.index
    }

    /// The page with the given index.
    pub fn from_index(index: u64) -> (r: Self)
        ensures
            r.index_spec() == index,
    {
        Page { index }
    }

    /// The page containing the given virtual address.
    pub fn containing_addr(addr: Address<Virtual>) -> (r: Self)
        ensures
            r.index_spec() == addr.addr_spec() / 0x1000,
    {
        Page { index: addr.page_index() }
    }

    /// The index of this page.
    pub fn index(&self) -> (r: u64)
        ensures
            r == self.index_spec(),
    {
        self.index
    }

    /// The page `count` pages after this one, or `None` on overflow.
    pub fn forward_checked(&self, count: u64) -> (r: Option<Page>)
        ensures
            self.index_spec() + count <= u64::MAX ==> (r matches Some(p) && p.index_spec()
                == self.index_spec() + count),
            self.index_spec() + count > u64::MAX ==> r is None,
    {
        match self.index.checked_add(count) {
            Some(index) => Some(Page { index }),
            None => None,
        }
    }
}

} // verus!
