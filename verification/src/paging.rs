//! Page-table entries, paging depths, and the depth-generic table walker.

use vstd::prelude::*;

verus! {

/// The size of one page or frame, in bytes.
pub const PAGE_SIZE: u64 = 0x1000;

/// The number of entries in one page table.
pub const TABLE_INDEX_COUNT: u64 = 512;

/// The number of page-index bits consumed per table level.
pub const TABLE_INDEX_SHIFT: u32 = 9;

/// The architectural maximum number of paging levels.
pub const MAX_PAGING_LEVELS: u32 = 5;

/// Present flag of a page-table entry.
pub const PTE_PRESENT: u64 = 0x1;

/// Writable flag of a page-table entry.
pub const PTE_WRITABLE: u64 = 0x2;

/// User-accessible flag of a page-table entry.
pub const PTE_USER: u64 = 0x4;

/// Write-through flag of a page-table entry.
pub const PTE_WRITE_THROUGH: u64 = 0x8;

/// Uncacheable flag of a page-table entry.
pub const PTE_UNCACHEABLE: u64 = 0x10;

/// Accessed flag of a page-table entry.
pub const PTE_ACCESSED: u64 = 0x20;

/// Dirty flag of a page-table entry.
pub const PTE_DIRTY: u64 = 0x40;

/// Huge flag: the entry is a leaf above the minimum depth.
pub const PTE_HUGE: u64 = 0x80;

/// Global flag of a page-table entry.
pub const PTE_GLOBAL: u64 = 0x100;

/// Demand flag of a page-table entry.
pub const PTE_DEMAND: u64 = 0x200;

/// No-execute flag of a page-table entry.
pub const PTE_NO_EXECUTE: u64 = 0x8000_0000_0000_0000;

/// All attribute bits of a page-table entry.
pub const PTE_FLAGS_ALL: u64 = 0x8000_0000_0000_03FF;

/// The frame-address field of a page-table entry.
pub const PTE_FRAME_ADDRESS_MASK: u64 = 0x000F_FFFF_FFFF_F000;

/// The flag combination of a freshly created non-leaf entry.
pub const PTE_NON_LEAF: u64 = 0x7;

/// The LA57 bit of the CR4 control register: 5-level paging is active.
pub const CR4_LA57: u64 = 0x1000;

/// The attribute bits of a page-table entry, as a typed value; the raw
/// integer is never handed out for arbitrary mutation.
#[derive(Clone, Copy, PartialEq, Eq, Structural, Debug)]
pub struct TableEntryFlags {
    /// The raw attribute bits.
    pub bits: u64,
}

/// How [`TableEntry::set_attributes`] combines new attribute bits with the
/// current ones.
#[derive(Clone, Copy, PartialEq, Eq, Structural, Debug)]
pub enum FlagsModify {
    /// Replace the attributes.
    Replace,
    /// Insert the given attributes into the current ones.
    Insert,
    /// Remove the given attributes from the current ones.
    Remove,
    /// Toggle the given attributes in the current ones.
    Toggle,
}

/// The result of combining attribute bits `cur` and `new` under `mode`.
pub open spec fn apply_flags_modify(cur: u64, new: u64, mode: FlagsModify) -> u64 {
    match mode {
        FlagsModify::Replace => new,
        FlagsModify::Insert => cur | new,
        FlagsModify::Remove => cur & !new,
        FlagsModify::Toggle => cur ^ new,
    }
}

impl TableEntryFlags {
    /// No attributes.
    pub fn empty() -> (r: Self)
        ensures
            r.bits == 0,
    {
        TableEntryFlags { bits: 0 }
    }

    /// The attributes with exactly the given bits.
    pub fn new(bits: u64) -> (r: Self)
        ensures
            r.bits == bits,
    {
        TableEntryFlags { bits }
    }

    /// The given bits, restricted to the defined attribute bits.
    pub fn from_bits_truncate(bits: u64) -> (r: Self)
        ensures
            r.bits == bits & PTE_FLAGS_ALL,
    {
        TableEntryFlags { bits: bits & PTE_FLAGS_ALL }
    }

    /// The raw attribute bits.
    pub fn bits(&self) -> (r: u64)
        ensures
            r == self.bits,
    {
        self.bits
    }

    /// Whether every attribute of `other` is also set in `self`.
    pub fn contains(&self, other: TableEntryFlags) -> (r: bool)
        ensures
            r == (self.bits & other.bits == other.bits),
    {
        self.bits & other.bits == other.bits
    }

    /// Insert the attributes of `other`.
    pub fn insert(&mut self, other: TableEntryFlags)
        ensures
            final(self).bits == old(self).bits | other.bits,
    {
        self.bits = self.bits | other.bits;
    }

    /// Remove the attributes of `other`.
    pub fn remove(&mut self, other: TableEntryFlags)
        ensures
            final(self).bits == old(self).bits & !other.bits,
    {
        self.bits = self.bits & !other.bits;
    }

    /// Toggle the attributes of `other`.
    pub fn toggle(&mut self, other: TableEntryFlags)
        ensures
            final(self).bits == old(self).bits ^ other.bits,
    {
        self.bits = self.bits ^ other.bits;
    }
}

/// One 64-bit page-table entry: a present flag, a frame index, and
/// attribute bits.  Mutated only through the walker and mapper interfaces.
#[derive(Clone, Copy, PartialEq, Eq, Structural, Debug)]
pub struct TableEntry(u64);

impl TableEntry {
    /// The raw value of the entry.
    pub closed spec fn value_spec(self) -> u64 {
        self.0
    }

    /// The frame index stored in the entry.  For a non-present entry the
    /// value is stale and ignored by every consumer.
    pub open spec fn frame_spec(self) -> u64 {
        (self.value_spec() & PTE_FRAME_ADDRESS_MASK) >> 12
    }

    /// The attribute bits of the entry.
    pub open spec fn attrs_spec(self) -> u64 {
        self.value_spec() & PTE_FLAGS_ALL
    }

    /// Whether the present flag is set.
    pub open spec fn is_present_spec(self) -> bool {
        self.value_spec() & PTE_PRESENT != 0
    }

    /// Whether the huge flag is set.
    pub open spec fn is_huge_spec(self) -> bool {
        self.value_spec() & PTE_HUGE != 0
    }

    /// The entry with frame index `frame` and attribute bits `attrs`, as a
    /// spec value.
    pub closed spec fn spec_new(frame: u64, attrs: u64) -> TableEntry {
        TableEntry(((frame << 12) & PTE_FRAME_ADDRESS_MASK) | (attrs & PTE_FLAGS_ALL))
    }

    /// The empty entry, as a spec value.
    pub closed spec fn spec_empty() -> TableEntry {
        TableEntry(0)
    }

    /// An empty entry: all bits zero.
    pub fn empty() -> (r: Self)
        ensures
            r.value_spec() == 0,
            r == TableEntry::spec_empty(),
            !r.is_present_spec(),
            !r.is_huge_spec(),
    {
        let r = TableEntry(0);
        proof {
            assert(0u64 & PTE_PRESENT == 0 && 0u64 & PTE_HUGE == 0) by (bit_vector);
        }
        r
    }

    /// The entry with frame index `frame` and the attributes `attributes`.
    pub fn new(frame: u64, attributes: TableEntryFlags) -> (r: Self)
        requires
            frame < 0x100_0000_0000,
        ensures
            r == TableEntry::spec_new(frame, attributes.bits),
            r.frame_spec() == frame,
            r.attrs_spec() == attributes.bits & PTE_FLAGS_ALL,
            r.is_present_spec() == (attributes.bits & PTE_PRESENT != 0),
            r.is_huge_spec() == (attributes.bits & PTE_HUGE != 0),
    {
        let v = ((frame << 12u64) & PTE_FRAME_ADDRESS_MASK) | (attributes.bits & PTE_FLAGS_ALL);
        proof {
            Self::lemma_entry_new_fields(frame, attributes.bits);
        }
        TableEntry(v)
    }

    /// Packing a frame index and attribute bits keeps both fields readable.
    pub proof fn lemma_entry_new_fields(frame: u64, attrs: u64)
        requires
            frame < 0x100_0000_0000,
        ensures
            TableEntry::spec_new(frame, attrs).frame_spec() == frame,
            TableEntry::spec_new(frame, attrs).attrs_spec() == attrs & PTE_FLAGS_ALL,
            TableEntry::spec_new(frame, attrs).is_present_spec() == (attrs & PTE_PRESENT != 0),
            TableEntry::spec_new(frame, attrs).is_huge_spec() == (attrs & PTE_HUGE != 0),
    {
        let v = ((frame << 12u64) & 0x000F_FFFF_FFFF_F000u64) | (attrs
            & 0x8000_0000_0000_03FFu64);
        assert((v & 0x000F_FFFF_FFFF_F000u64) >> 12u64 == frame && v & 0x8000_0000_0000_03FFu64
            == attrs & 0x8000_0000_0000_03FFu64 && (v & 0x1 != 0) == (attrs & 0x1 != 0) && (v & 0x80
            != 0) == (attrs & 0x80 != 0)) by (bit_vector)
            requires
                frame < 0x100_0000_0000u64,
                v == ((frame << 12u64) & 0x000F_FFFF_FFFF_F000u64) | (attrs
                    & 0x8000_0000_0000_03FFu64),
        ;
    }

    /// The frame index of the entry.
    pub fn get_frame(self) -> (r: u64)
        ensures
            r == self.frame_spec(),
    {
        (self.0 & PTE_FRAME_ADDRESS_MASK) >> 12u64
    }

    /// The attributes of the entry.
    pub fn get_attributes(self) -> (r: TableEntryFlags)
        ensures
            r.bits == self.attrs_spec(),
    {
        TableEntryFlags { bits: self.0 & PTE_FLAGS_ALL }
    }

    /// Whether the present flag is set.
    pub fn is_present(self) -> (r: bool)
        ensures
            r == self.is_present_spec(),
    {
        self.0 & PTE_PRESENT != 0
    }

    /// Whether the huge flag is set.
    pub fn is_huge(self) -> (r: bool)
        ensures
            r == self.is_huge_spec(),
    {
        self.0 & PTE_HUGE != 0
    }

    /// The entry with attribute bits combined under `mode`, as a spec
    /// value: the frame field and every non-attribute bit kept, and the
    /// no-execute bit stripped when `nxe` is false.
    pub closed spec fn spec_set_attributes(self, newbits: u64, mode: FlagsModify, nxe: bool) -> TableEntry {
        let masked = apply_flags_modify(
            self.value_spec() & PTE_FLAGS_ALL,
            newbits & PTE_FLAGS_ALL,
            mode,
        );
        let stripped = if nxe {
            masked
        } else {
            masked & !PTE_NO_EXECUTE
        };
        TableEntry((self.value_spec() & !PTE_FLAGS_ALL) | (stripped & PTE_FLAGS_ALL))
    }

    /// The entry with the attribute bits combined under `modify_mode` and
    /// every non-attribute bit (the frame field included) kept.
    ///
    /// When `nxe_enabled` is false the no-execute bit is silently removed:
    /// it is reserved on hardware without that feature.
    pub fn set_attributes(
        self,
        new_attributes: TableEntryFlags,
        modify_mode: FlagsModify,
        nxe_enabled: bool,
    ) -> (r: Self)
        ensures
            nxe_enabled ==> r.value_spec() == (self.value_spec() & !PTE_FLAGS_ALL) | (
            apply_flags_modify(
                self.attrs_spec(),
                new_attributes.bits & PTE_FLAGS_ALL,
                modify_mode,
            ) & PTE_FLAGS_ALL),
            !nxe_enabled ==> r.value_spec() == (self.value_spec() & !PTE_FLAGS_ALL) | ((
            apply_flags_modify(
                self.attrs_spec(),
                new_attributes.bits & PTE_FLAGS_ALL,
                modify_mode,
            ) & !PTE_NO_EXECUTE) & PTE_FLAGS_ALL),
            r.frame_spec() == self.frame_spec(),
            r == self.spec_set_attributes(new_attributes.bits, modify_mode, nxe_enabled),
    {
        let cur = self.0 & PTE_FLAGS_ALL;
        let newbits = new_attributes.bits & PTE_FLAGS_ALL;
        let mut combined: u64 = match modify_mode {
            FlagsModify::Replace => newbits,
            FlagsModify::Insert => cur | newbits,
            FlagsModify::Remove => cur & !newbits,
            FlagsModify::Toggle => cur ^ newbits,
        };
        if !nxe_enabled {
            combined = combined & !PTE_NO_EXECUTE;
        }
        let v = (self.0 & !PTE_FLAGS_ALL) | (combined & PTE_FLAGS_ALL);
        proof {
            let s = self.0;
            let c = combined;
            assert(((s & !0x8000_0000_0000_03FFu64) | (c & 0x8000_0000_0000_03FFu64))
                & 0x000F_FFFF_FFFF_F000u64 == s & 0x000F_FFFF_FFFF_F000u64) by (bit_vector);
        }
        TableEntry(v)
    }

    /// The entry cleared: all bits zero.
    pub fn clear(self) -> (r: Self)
        ensures
            r.value_spec() == 0,
    {
        TableEntry(0)
    }
}

/// Relies on `raw_cpuid::CpuId::get_extended_feature_info` and
/// `raw_cpuid::ExtendedFeatures::has_la57`: whether the CPU reports support
/// for 5-level paging.  Nothing is promised of the answer; it depends on the
/// machine.
#[verifier::external_body]
fn probe_five_level_paging() -> bool {
    raw_cpuid::CpuId::new().get_extended_feature_info().map_or(
        false,
        |info| info.has_la57(),
    )
}

/// Paging capability queries.
pub struct Info {}

impl Info {
    /// The deepest paging hierarchy the CPU supports: 5 levels where the
    /// CPU reports the 5-level-paging capability, 4 otherwise.
    pub fn max_paging_levels() -> (r: u32)
        ensures
            r == 4 || r == 5,
    {
        if probe_five_level_paging() {
            5
        } else {
            4
        }
    }

    /// The paging depth active under the given CR4 control-register value:
    /// 5 levels when the LA57 bit is set, 4 otherwise.  Reading the register
    /// itself is privileged and is the embedder's concern.
    pub fn current_paging_level(cr4: u64) -> (r: u32)
        ensures
            r == (if cr4 & CR4_LA57 != 0 {
                5u32
            } else {
                4u32
            }),
    {
        if cr4 & CR4_LA57 != 0 {
            5
        } else {
            4
        }
    }
}

/// The alignment covered by one entry at depth `d`: `0x1000 << (9 * d)`
/// bytes.
pub open spec fn align_spec(d: u32) -> u64
    recommends
        d <= MAX_PAGING_LEVELS,
{
    0x1000u64 << (9 * d) as u64
}

/// A depth in the paging hierarchy: 0 is a leaf entry, and the root table of
/// an address space sits at the paging-level count of the CPU (4 or 5).
#[derive(Clone, Copy, PartialEq, Eq, Structural, Debug)]
pub struct PageDepth(u32);

impl PageDepth {
    /// The numeric depth.
    pub closed spec fn get_spec(self) -> u32 {
        self.0
    }

    /// The minimum depth: a leaf entry.
    pub fn min() -> (r: Self)
        ensures
            r.get_spec() == 0,
    {
        PageDepth(0)
    }

    /// The maximum depth the CPU supports: the root depth of the deepest
    /// paging hierarchy available (4 or 5 levels).
    pub fn max() -> (r: Self)
        ensures
            r.get_spec() == 4 || r.get_spec() == 5,
    {
        PageDepth(Info::max_paging_levels())
    }

    /// The root depth active under the given CR4 control-register value.
    pub fn current(cr4: u64) -> (r: Self)
        ensures
            r.get_spec() == (if cr4 & CR4_LA57 != 0 {
                5u32
            } else {
                4u32
            }),
    {
        PageDepth(Info::current_paging_level(cr4))
    }

    /// The alignment of a leaf entry: one page.
    pub fn min_align() -> (r: u64)
        ensures
            r == 0x1000,
    {
        0x1000
    }

    /// The alignment covered by one entry at the maximum supported depth.
    pub fn max_align() -> (r: u64)
        ensures
            r == align_spec(4) || r == align_spec(5),
    {
        Self::max().align()
    }

    /// The depth `depth`, or `None` above the architectural maximum.
    pub fn new(depth: u32) -> (r: Option<Self>)
        ensures
            depth <= MAX_PAGING_LEVELS ==> (r matches Some(d) && d.get_spec() == depth),
            depth > MAX_PAGING_LEVELS ==> r is None,
    {
        if depth <= MAX_PAGING_LEVELS {
            Some(PageDepth(depth))
        } else {
            None
        }
    }

    /// The numeric depth.
    pub fn get(self) -> (r: u32)
        ensures
            r == self.get_spec(),
    {
        self.0
    }

    /// The number of bytes one entry at this depth covers.
    pub fn align(self) -> (r: u64)
        requires
            self.get_spec() <= MAX_PAGING_LEVELS,
        ensures
            r == align_spec(self.get_spec()),
    {
        0x1000u64 << (9 * self.0) as u64
    }

    /// The next depth toward the leaf.
    pub fn next(self) -> (r: Self)
        requires
            self.get_spec() >= 1,
        ensures
            r.get_spec() == self.get_spec() - 1,
    {
        PageDepth(self.0 - 1)
    }

    /// The next depth toward the leaf, or `None` at the leaf.
    pub fn next_checked(self) -> (r: Option<Self>)
        ensures
            self.get_spec() >= 1 ==> (r matches Some(d) && d.get_spec() == self.get_spec() - 1),
            self.get_spec() == 0 ==> r is None,
    {
        if self.0 >= 1 {
            Some(PageDepth(self.0 - 1))
        } else {
            None
        }
    }

    /// Whether this is the leaf depth.
    pub fn is_min(self) -> (r: bool)
        ensures
            r == (self.get_spec() == 0),
    {
        self.0 == 0
    }

    /// Whether this is the maximum depth the CPU supports.
    pub fn is_max(self) -> (r: bool)
        ensures
            r ==> self.get_spec() == 4 || self.get_spec() == 5,
            self.get_spec() != 4 && self.get_spec() != 5 ==> !r,
    {
        self.0 == Info::max_paging_levels()
    }

    /// The base address of the region covered by entry `index` at this
    /// depth, or `None` when the index or the address is out of range.
    pub fn index_address(self, index: u64) -> (r: Option<crate::addr::Address<crate::addr::Virtual>>)
        requires
            self.get_spec() <= MAX_PAGING_LEVELS,
            index * align_spec(self.get_spec()) <= u64::MAX,
        ensures
            index >= TABLE_INDEX_COUNT ==> r is None,
            index < TABLE_INDEX_COUNT ==> {
                let a = (index * align_spec(self.get_spec())) as u64;
                &&& (a >> 47 == 0 || a >> 47 == 0x1FFFF) ==> (r matches Some(v) && v.addr_spec()
                    == a)
                &&& a >> 47 == 1 ==> (r matches Some(v) && v.addr_spec()
                    == crate::addr::canonical_virtual(a))
                &&& !(a >> 47 == 0 || a >> 47 == 0x1FFFF || a >> 47 == 1) ==> r is None
            },
    {
        if index < TABLE_INDEX_COUNT {
            crate::addr::Address::<crate::addr::Virtual>::new(index * self.align())
        } else {
            None
        }
    }
}


/// A typed error of the walker and mapper interfaces.
#[derive(Clone, Copy, PartialEq, Eq, Structural, Debug)]
pub enum Error {
    /// The frame ledger is out of memory; an intermediate table could not be
    /// allocated.
    AllocError,
    /// An unexpected huge entry terminated the walk above the requested
    /// depth.
    HugePage,
    /// The page is not mapped.
    NotMapped(crate::addr::Page),
}

/// The observable outcome of walking the tables for one page down to one
/// depth.
#[derive(Clone, Copy, PartialEq, Eq, Structural, Debug)]
pub enum WalkResult {
    /// An entry on the path, the requested depth included, is non-present.
    NotMapped,
    /// A huge entry above the requested depth terminated the walk early.
    HugePage,
    /// The present entry found at the requested depth.
    Mapped(TableEntry),
}

/// The raw entry slot reached by following the table path for one page, or
/// why the path ends early.
#[derive(Clone, Copy, PartialEq, Eq, Structural, Debug)]
pub enum SlotLookup {
    /// The table holding the requested depth exists; its raw entry, present
    /// or not.
    At(TableEntry),
    /// An entry above the requested depth is non-present.
    Missing,
    /// An entry above the requested depth is huge.
    Huge,
}

/// The index within a table at depth `level` that a walk for page index
/// `vpn` follows.
pub open spec fn slot_spec(vpn: u64, level: u32) -> int
    recommends
        1 <= level <= MAX_PAGING_LEVELS,
{
    ((vpn >> ((9 * (level - 1)) as u64)) & 0x1FF) as int
}

/// A walk slot index is a valid table index.
pub proof fn lemma_slot_bound(vpn: u64, level: u32)
    ensures
        0 <= slot_spec(vpn, level) < 512,
{
    let sh = (9 * (level - 1)) as u64;
    assert((vpn >> sh) & 0x1FF < 512) by (bit_vector);
}

/// Whether walks for page indices `p` and `q` follow the same slots from
/// depth `level` down to (exclusive) depth `stop`.
pub open spec fn same_path(p: u64, q: u64, level: u32, stop: u32) -> bool
    decreases level,
{
    if level <= stop {
        true
    } else {
        slot_spec(p, level) == slot_spec(q, level) && (level >= 1 && same_path(
            p,
            q,
            (level - 1) as u32,
            stop,
        ))
    }
}

/// One page table: 512 entries, and for each present non-huge non-leaf
/// entry the sub-table it points to.  Owning the sub-tables models the
/// forest structure of a well-formed paging hierarchy; the frame index in
/// each entry records the physical frame backing the sub-table.
pub struct PageTable {
    entries: Vec<TableEntry>,
    children: Vec<Option<PageTable>>,
}

impl PageTable {
    /// Well-formedness of a table at depth `level`: full size, children
    /// exactly beneath the present non-huge entries of a non-leaf table,
    /// and each child well-formed one level down.
    pub closed spec fn wf(self, level: u32) -> bool
        decreases level,
    {
        &&& self.entries@.len() == 512
        &&& self.children@.len() == 512
        &&& (forall|i: int|
            #![trigger self.children@[i]]
            0 <= i < 512 ==> (self.children@[i] is Some ==> level >= 2
                && self.children@[i].unwrap().wf((level - 1) as u32)))
        &&& (forall|i: int|
            #![trigger self.entries@[i]]
            0 <= i < 512 ==> ((level >= 2 && self.entries@[i].is_present_spec()
                && !self.entries@[i].is_huge_spec()) ==> self.children@[i] is Some))
    }
}

/// The raw slot reached by the walk for `vpn` in table `t` at depth
/// `level`, descending to the entry at depth `stop`.
pub closed spec fn locate(t: PageTable, level: u32, vpn: u64, stop: u32) -> SlotLookup
    recommends
        stop < level,
        t.wf(level),
    decreases level,
{
    let s = slot_spec(vpn, level);
    let e = t.entries@[s];
    if level <= stop + 1 {
        SlotLookup::At(e)
    } else if !e.is_present_spec() {
        SlotLookup::Missing
    } else if e.is_huge_spec() {
        SlotLookup::Huge
    } else {
        if level >= 1 {
            locate(t.children@[s].unwrap(), (level - 1) as u32, vpn, stop)
        } else {
            SlotLookup::Missing
        }
    }
}

/// The observable walk outcome for `vpn` in table `t` at depth `level`,
/// descending to the entry at depth `stop`: the entry there when the whole
/// path (that entry included) is present, and the reason otherwise.
pub open spec fn walk(t: PageTable, level: u32, vpn: u64, stop: u32) -> WalkResult {
    match locate(t, level, vpn, stop) {
        SlotLookup::At(e) => if e.is_present_spec() {
            WalkResult::Mapped(e)
        } else {
            WalkResult::NotMapped
        },
        SlotLookup::Missing => WalkResult::NotMapped,
        SlotLookup::Huge => WalkResult::HugePage,
    }
}

/// The walk outcome at the depth of a just-written leaf entry `e`.
pub open spec fn leaf_result(e: TableEntry) -> WalkResult {
    if e.is_present_spec() {
        WalkResult::Mapped(e)
    } else {
        WalkResult::NotMapped
    }
}

/// A blank table: well-formed at every depth, with every walk through it
/// ending `NotMapped`.
pub open spec fn blank_table(t: PageTable) -> bool {
    &&& (forall|level: u32| t.wf(level))
    &&& (forall|level: u32, vpn: u64, stop: u32|
        stop < level ==> #[trigger] walk(t, level, vpn, stop) == WalkResult::NotMapped)
    &&& (forall|level: u32, vpn: u64, stop: u32|
        stop < level ==> #[trigger] locate(t, level, vpn, stop) == SlotLookup::At(
            TableEntry::spec_empty(),
        ) || locate(t, level, vpn, stop) == SlotLookup::Missing)
}

/// The index within a table at depth `level` that the walk for page index
/// `vpn` follows.
fn table_index(vpn: u64, level: u32) -> (r: usize)
    requires
        1 <= level <= MAX_PAGING_LEVELS,
    ensures
        r == slot_spec(vpn, level),
        r < 512,
{
    let sh = (9 * (level - 1)) as u64;
    let r = ((vpn >> sh) & 0x1FF) as usize;
    proof {
        assert((vpn >> sh) & 0x1FF < 512) by (bit_vector);
    }
    r
}

/// A fresh zeroed table: every entry empty, no children.
fn new_table() -> (r: PageTable)
    ensures
        blank_table(r),
{
    let mut entries: Vec<TableEntry> = Vec::new();
    let mut children: Vec<Option<PageTable>> = Vec::new();
    let mut n: usize = 0;
    while n < 512
        invariant
            n <= 512,
            entries@.len() == n,
            children@.len() == n,
            (forall|i: int| 0 <= i < n ==> #[trigger] entries@[i].value_spec() == 0),
            (forall|i: int| 0 <= i < n ==> #[trigger] children@[i] is None),
        decreases 512 - n,
    {
        entries.push(TableEntry::empty());
        children.push(None);
        n = n + 1;
    }
    let r = PageTable { entries, children };
    proof {
        assert(0u64 & 0x1 == 0) by (bit_vector);
        assert forall|i: int| 0 <= i < 512 implies !(#[trigger] r.entries@[i]).is_present_spec() by {
            assert(r.entries@[i].value_spec() == 0);
        }
        assert forall|level: u32| r.wf(level) by {
            assert(forall|i: int| 0 <= i < 512 ==> #[trigger] r.children@[i] is None);
        }
        assert forall|level: u32, vpn: u64, stop: u32| stop < level implies ((#[trigger] locate(r, level, vpn, stop)) == SlotLookup::At(TableEntry::spec_empty()) || locate(r, level, vpn, stop) == SlotLookup::Missing) by {
            lemma_slot_bound(vpn, level);
            let s = slot_spec(vpn, level);
            assert(!r.entries@[s].is_present_spec());
            assert(r.entries@[s] == TableEntry::spec_empty());
        }
        assert forall|level: u32, vpn: u64, stop: u32| stop < level implies (#[trigger] walk(r, level, vpn, stop)) == WalkResult::NotMapped by {
            lemma_slot_bound(vpn, level);
            let s = slot_spec(vpn, level);
            assert(!r.entries@[s].is_present_spec());
        }
    }
    r
}


/// Recursive descent for reading: follows the path of `page` from a table
/// at depth `level` down to the entry at depth `stop`.
fn walk_read(t: &PageTable, level: u32, page: crate::addr::Page, stop: u32) -> (r: Result<
    TableEntry,
    Error,
>)
    requires
        t.wf(level),
        stop < level,
        level <= MAX_PAGING_LEVELS,
    ensures
        (walk(*t, level, page.index_spec(), stop) matches WalkResult::Mapped(e) ==> r
            == Result::<TableEntry, Error>::Ok(e)),
        (walk(*t, level, page.index_spec(), stop) is NotMapped ==> r == Result::<
            TableEntry,
            Error,
        >::Err(Error::NotMapped(page))),
        (walk(*t, level, page.index_spec(), stop) is HugePage ==> r == Result::<
            TableEntry,
            Error,
        >::Err(Error::HugePage)),
    decreases level,
{
    let s = table_index(page.index(), level);
    let e = t.entries[s];
    if level == stop + 1 {
        if e.is_present() {
            Ok(e)
        } else {
            Err(Error::NotMapped(page))
        }
    } else if !e.is_present() {
        Err(Error::NotMapped(page))
    } else if e.is_huge() {
        Err(Error::HugePage)
    } else {
        match &t.children[s] {
            Some(c) => walk_read(c, level - 1, page, stop),
            None => {
                proof {
                    assert(false);
                }
                Err(Error::NotMapped(page))
            },
        }
    }
}

/// One located table of an address space: the table, and the depth at which
/// it stands in the hierarchy.  The root cell of an address space owns the
/// whole table forest.
pub struct TableEntryCell {
    depth: PageDepth,
    table: PageTable,
}

impl TableEntryCell {
    /// The depth of this table.
    pub closed spec fn depth_spec(self) -> u32 {
        self.depth.get_spec()
    }

    /// The table.
    pub closed spec fn table_spec(self) -> PageTable {
        self.table
    }

    /// Well-formedness: the table forest is well-formed for this depth.
    pub open spec fn wf_spec(self) -> bool {
        &&& self.table_spec().wf(self.depth_spec())
        &&& 1 <= self.depth_spec() <= MAX_PAGING_LEVELS
    }

    /// The walk outcome for page index `vpn` down to depth `stop`.
    pub open spec fn walk_spec(self, vpn: u64, stop: u32) -> WalkResult {
        walk(self.table_spec(), self.depth_spec(), vpn, stop)
    }

    /// The raw slot lookup for page index `vpn` down to depth `stop`.
    pub open spec fn locate_spec(self, vpn: u64, stop: u32) -> SlotLookup {
        locate(self.table_spec(), self.depth_spec(), vpn, stop)
    }

    /// A fresh empty root table at depth `depth`: nothing is mapped.
    pub fn new_root(depth: PageDepth) -> (r: Self)
        requires
            1 <= depth.get_spec() <= MAX_PAGING_LEVELS,
        ensures
            r.wf_spec(),
            r.depth_spec() == depth.get_spec(),
            (forall|vpn: u64, stop: u32| stop < depth.get_spec() ==> (#[trigger] r.walk_spec(
                vpn,
                stop,
            )) == WalkResult::NotMapped),
    {
        TableEntryCell { depth, table: new_table() }
    }

    /// The depth of this table.
    pub fn depth(&self) -> (r: PageDepth)
        ensures
            r.get_spec() == self.depth_spec(),
    {
        self.depth
    }

    /// The entry at depth `to_depth` on the path of `page`: the walk result,
    /// with `NotMapped` and `HugePage` surfaced as errors.
    pub fn with_entry(&self, page: crate::addr::Page, to_depth: PageDepth) -> (r: Result<
        TableEntry,
        Error,
    >)
        requires
            self.wf_spec(),
            to_depth.get_spec() < self.depth_spec(),
        ensures
            (self.walk_spec(page.index_spec(), to_depth.get_spec()) matches WalkResult::Mapped(e)
                ==> r == Result::<TableEntry, Error>::Ok(e)),
            (self.walk_spec(page.index_spec(), to_depth.get_spec()) is NotMapped ==> r == Result::<
                TableEntry,
                Error,
            >::Err(Error::NotMapped(page))),
            (self.walk_spec(page.index_spec(), to_depth.get_spec()) is HugePage ==> r == Result::<
                TableEntry,
                Error,
            >::Err(Error::HugePage)),
    {
        walk_read(&self.table, self.depth.get(), page, to_depth.get())
    }
}


/// Recursive descent for writing: replaces the entry at depth `stop` on the
/// path of `page` with `new` and returns the previous entry.  The walk for
/// every other page is untouched; a walk that ends early fails and changes
/// nothing observable.
fn walk_write(t: &mut PageTable, level: u32, page: crate::addr::Page, stop: u32, new: TableEntry) -> (r: Result<
    TableEntry,
    Error,
>)
    requires
        old(t).wf(level),
        stop < level,
        level <= MAX_PAGING_LEVELS,
        new.is_present_spec() && !new.is_huge_spec() ==> stop == 0,
    ensures
        final(t).wf(level),
        (walk(*old(t), level, page.index_spec(), stop) matches WalkResult::Mapped(e) ==> r
            == Result::<TableEntry, Error>::Ok(e)),
        (walk(*old(t), level, page.index_spec(), stop) is NotMapped ==> r == Result::<
            TableEntry,
            Error,
        >::Err(Error::NotMapped(page))),
        (walk(*old(t), level, page.index_spec(), stop) is HugePage ==> r == Result::<
            TableEntry,
            Error,
        >::Err(Error::HugePage)),
        (forall|q: u64| (#[trigger] walk(*final(t), level, q, stop)) == (if r is Ok && same_path(
            q,
            page.index_spec(),
            level,
            stop,
        ) {
            leaf_result(new)
        } else {
            walk(*old(t), level, q, stop)
        })),
    decreases level,
{
    let s = table_index(page.index(), level);
    let e = t.entries[s];
    if level == stop + 1 {
        if e.is_present() {
            t.entries[s] = new;
            proof {
                let p = page.index_spec();
                assert(final(t).entries@ == old(t).entries@.update(s as int, new));
                assert forall|q: u64| (#[trigger] walk(*final(t), level, q, stop)) == (if
                same_path(q, p, level, stop) {
                    leaf_result(new)
                } else {
                    walk(*old(t), level, q, stop)
                }) by {
                    lemma_slot_bound(q, level);
                    let sq = slot_spec(q, level);
                    assert(same_path(q, p, (level - 1) as u32, stop));
                    if sq == s as int {
                        assert(locate(*final(t), level, q, stop) == SlotLookup::At(new));
                    } else {
                        assert(final(t).entries@[sq] == old(t).entries@[sq]);
                        assert(locate(*final(t), level, q, stop) == SlotLookup::At(
                            final(t).entries@[sq],
                        ));
                    }
                }
            }
            Ok(e)
        } else {
            Err(Error::NotMapped(page))
        }
    } else if !e.is_present() {
        Err(Error::NotMapped(page))
    } else if e.is_huge() {
        Err(Error::HugePage)
    } else {
        let r = match &mut t.children[s] {
            Some(c) => walk_write(c, level - 1, page, stop, new),
            None => {
                proof {
                    assert(false);
                }
                Err(Error::AllocError)
            },
        };
        proof {
            let p = page.index_spec();
            let oc = old(t).children@[s as int].unwrap();
            let fc = final(t).children@[s as int].unwrap();
            assert(final(t).entries@ == old(t).entries@);
            assert forall|q: u64| (#[trigger] walk(*final(t), level, q, stop)) == (if r is Ok
                && same_path(q, p, level, stop) {
                leaf_result(new)
            } else {
                walk(*old(t), level, q, stop)
            }) by {
                lemma_slot_bound(q, level);
                let sq = slot_spec(q, level);
                if sq == s as int {
                    assert(locate(*final(t), level, q, stop) == locate(fc, (level - 1) as u32, q, stop));
                    assert(locate(*old(t), level, q, stop) == locate(oc, (level - 1) as u32, q, stop));
                    assert(walk(*final(t), level, q, stop) == walk(fc, (level - 1) as u32, q, stop));
                    assert(walk(*old(t), level, q, stop) == walk(oc, (level - 1) as u32, q, stop));
                } else {
                    assert(final(t).children@[sq] == old(t).children@[sq]);
                    assert(final(t).entries@[sq] == old(t).entries@[sq]);
                    if final(t).entries@[sq].is_present_spec() && !final(t).entries@[sq].is_huge_spec() {
                        assert(locate(*final(t), level, q, stop) == locate(
                            final(t).children@[sq].unwrap(),
                            (level - 1) as u32,
                            q,
                            stop,
                        ));
                        assert(locate(*old(t), level, q, stop) == locate(
                            old(t).children@[sq].unwrap(),
                            (level - 1) as u32,
                            q,
                            stop,
                        ));
                    }
                }
            }
        }
        r
    }
}


/// Recursive descent for demand-creating writes: replaces the entry at
/// depth `stop` on the path of `page` with `new`, allocating, zeroing and
/// installing an intermediate table (with the user-accessible bit set, as
/// the architecture expects of non-leaf entries) wherever the path is
/// absent.  Returns the raw entry previously at the slot; fails only on a
/// huge entry above `stop` or when the frame ledger runs out.
fn walk_create(
    t: &mut PageTable,
    level: u32,
    page: crate::addr::Page,
    stop: u32,
    new: TableEntry,
    fm: &mut crate::frame::FrameManager,
) -> (r: Result<TableEntry, Error>)
    requires
        old(t).wf(level),
        stop < level,
        level <= MAX_PAGING_LEVELS,
        new.is_present_spec() && !new.is_huge_spec() ==> stop == 0,
        old(fm)@.len() <= 0x100_0000_0000,
    ensures
        final(t).wf(level),
        final(fm)@.len() == old(fm)@.len(),
        (forall|i: int| 0 <= i < old(fm)@.len() ==> final(fm)@[i] == old(fm)@[i] || (old(fm)@[i]
            == crate::frame::FrameState::Free && final(fm)@[i]
            == crate::frame::FrameState::Locked)),
        crate::frame::count_free(final(fm)@) >= crate::frame::count_free(old(fm)@) - (level - stop
            - 1),
        (locate(*old(t), level, page.index_spec(), stop) matches SlotLookup::At(e) ==> r
            == Result::<TableEntry, Error>::Ok(e)),
        (locate(*old(t), level, page.index_spec(), stop) is Missing ==> (r is Ok ==> r
            == Result::<TableEntry, Error>::Ok(TableEntry::spec_empty()))),
        ((locate(*old(t), level, page.index_spec(), stop) is Huge) <==> r == Result::<
            TableEntry,
            Error,
        >::Err(Error::HugePage)),
        (r == Result::<TableEntry, Error>::Err(Error::AllocError) ==> crate::frame::count_free(
            final(fm)@,
        ) == 0),
        (r is Err ==> r == Result::<TableEntry, Error>::Err(Error::HugePage) || r == Result::<
            TableEntry,
            Error,
        >::Err(Error::AllocError)),
        (!(locate(*old(t), level, page.index_spec(), stop) is Huge) && crate::frame::count_free(
            old(fm)@,
        ) >= level - stop - 1 ==> r is Ok),
        (forall|q: u64| (#[trigger] walk(*final(t), level, q, stop)) == (if r is Ok && same_path(
            q,
            page.index_spec(),
            level,
            stop,
        ) {
            leaf_result(new)
        } else {
            walk(*old(t), level, q, stop)
        })),
    decreases level,
{
    let s = table_index(page.index(), level);
    let e = t.entries[s];
    if level == stop + 1 {
        t.entries[s] = new;
        proof {
            let p = page.index_spec();
            assert(final(t).entries@ == old(t).entries@.update(s as int, new));
            assert forall|q: u64| (#[trigger] walk(*final(t), level, q, stop)) == (if same_path(
                q,
                p,
                level,
                stop,
            ) {
                leaf_result(new)
            } else {
                walk(*old(t), level, q, stop)
            }) by {
                lemma_slot_bound(q, level);
                let sq = slot_spec(q, level);
                assert(same_path(q, p, (level - 1) as u32, stop));
                if sq == s as int {
                    assert(locate(*final(t), level, q, stop) == SlotLookup::At(new));
                } else {
                    assert(final(t).entries@[sq] == old(t).entries@[sq]);
                    assert(locate(*final(t), level, q, stop) == SlotLookup::At(
                        final(t).entries@[sq],
                    ));
                }
            }
        }
        Ok(e)
    } else if e.is_present() && e.is_huge() {
        Err(Error::HugePage)
    } else {
        let ghost created = !e.is_present_spec();
        let ghost fm_entry = old(fm)@;
        if !e.is_present() {
            let frame = match fm.lock_next() {
                Ok(frame) => frame,
                Err(_) => {
                    proof {
                        crate::frame::lemma_count_free_zero(final(fm)@);
                        crate::frame::lemma_count_free_zero(old(fm)@);
                    }
                    return Err(Error::AllocError);
                },
            };
            proof {
                crate::frame::lemma_count_free_update(
                    fm_entry,
                    frame as int,
                    crate::frame::FrameState::Locked,
                );
            }
            let child = new_table();
            t.entries[s] = TableEntry::new(frame as u64, TableEntryFlags::new(PTE_NON_LEAF));
            t.children[s] = Some(child);
            proof {
                assert(0x7u64 & 0x1 == 0x1 && 0x7u64 & 0x80 == 0 && 0x7u64 & 0x8000_0000_0000_03FFu64 == 0x7) by (bit_vector);
            }
        }
        let ghost t_mid = *t;
        let ghost fm_mid = fm@;
        let r = match &mut t.children[s] {
            Some(c) => walk_create(c, level - 1, page, stop, new, fm),
            None => {
                proof {
                    assert(false);
                }
                Err(Error::AllocError)
            },
        };
        proof {
            let p = page.index_spec();
            let oc = t_mid.children@[s as int].unwrap();
            let fc = final(t).children@[s as int].unwrap();
            assert(final(t).entries@ == t_mid.entries@);
            if created {
                assert(t_mid.entries@ == old(t).entries@.update(
                    s as int,
                    t_mid.entries@[s as int],
                ));
                assert(blank_table(oc));
            } else {
                assert(t_mid == *old(t));
            }
            assert forall|q: u64| (#[trigger] walk(*final(t), level, q, stop)) == (if r is Ok
                && same_path(q, p, level, stop) {
                leaf_result(new)
            } else {
                walk(*old(t), level, q, stop)
            }) by {
                lemma_slot_bound(q, level);
                let sq = slot_spec(q, level);
                if sq == s as int {
                    assert(locate(*final(t), level, q, stop) == locate(
                        fc,
                        (level - 1) as u32,
                        q,
                        stop,
                    ));
                    assert(walk(*final(t), level, q, stop) == walk(fc, (level - 1) as u32, q, stop));
                    if created {
                        assert(locate(*old(t), level, q, stop) == SlotLookup::Missing);
                        assert(walk(*old(t), level, q, stop) == WalkResult::NotMapped);
                        assert(walk(oc, (level - 1) as u32, q, stop) == WalkResult::NotMapped);
                    } else {
                        assert(locate(*old(t), level, q, stop) == locate(
                            oc,
                            (level - 1) as u32,
                            q,
                            stop,
                        ));
                        assert(walk(*old(t), level, q, stop) == walk(
                            oc,
                            (level - 1) as u32,
                            q,
                            stop,
                        ));
                    }
                } else {
                    assert(final(t).children@[sq] == old(t).children@[sq]);
                    assert(final(t).entries@[sq] == old(t).entries@[sq]);
                    if final(t).entries@[sq].is_present_spec()
                        && !final(t).entries@[sq].is_huge_spec() {
                        assert(locate(*final(t), level, q, stop) == locate(
                            final(t).children@[sq].unwrap(),
                            (level - 1) as u32,
                            q,
                            stop,
                        ));
                        assert(locate(*old(t), level, q, stop) == locate(
                            old(t).children@[sq].unwrap(),
                            (level - 1) as u32,
                            q,
                            stop,
                        ));
                    }
                }
            }
            if created {
                assert(locate(*old(t), level, p, stop) == SlotLookup::Missing);
                assert(locate(oc, (level - 1) as u32, p, stop) == SlotLookup::At(
                    TableEntry::spec_empty(),
                ) || locate(oc, (level - 1) as u32, p, stop) == SlotLookup::Missing);
            } else {
                assert(locate(*old(t), level, p, stop) == locate(oc, (level - 1) as u32, p, stop));
            }
        }
        r
    }
}


/// A walk path never leaves the page's identity: two page indices below the
/// address-space size that share every slot are the same page.
proof fn lemma_same_path_masked(p: u64, q: u64, level: u32)
    requires
        level <= MAX_PAGING_LEVELS,
        same_path(p, q, level, 0),
    ensures
        p & (((1u64 << ((9 * level) as u64)) - 1) as u64) == q & (((1u64 << ((9 * level) as u64))
            - 1) as u64),
    decreases level,
{
    if level == 0 {
        assert(p & (((1u64 << 0u64) - 1) as u64) == q & (((1u64 << 0u64) - 1) as u64))
            by (bit_vector);
    } else {
        lemma_same_path_masked(p, q, (level - 1) as u32);
        let lo: u64 = (9 * (level - 1)) as u64;
        assert((p >> lo) & 0x1FF == (q >> lo) & 0x1FF);
        assert(p & (((1u64 << ((lo + 9) as u64)) - 1) as u64) == q & (((1u64 << ((lo + 9) as u64))
            - 1) as u64)) by (bit_vector)
            requires
                lo <= 36,
                (p >> lo) & 0x1FF == (q >> lo) & 0x1FF,
                p & (((1u64 << lo) - 1) as u64) == q & (((1u64 << lo) - 1) as u64),
        ;
    }
}

/// Reflexivity of path sharing: a page always shares its own path.
pub proof fn lemma_same_path_refl(p: u64, level: u32, stop: u32)
    ensures
        same_path(p, p, level, stop),
    decreases level,
{
    if level > stop && level >= 1 {
        lemma_same_path_refl(p, (level - 1) as u32, stop);
    }
}

/// For page indices within an address space of `level` paging levels,
/// sharing the whole walk path is the same as being the same page.
pub proof fn lemma_same_path_injective(p: u64, q: u64, level: u32)
    requires
        1 <= level <= MAX_PAGING_LEVELS,
        p < (1u64 << ((9 * level) as u64)),
        q < (1u64 << ((9 * level) as u64)),
    ensures
        same_path(p, q, level, 0) <==> p == q,
{
    if same_path(p, q, level, 0) {
        lemma_same_path_masked(p, q, level);
        let sh: u64 = (9 * level) as u64;
        assert(p & (((1u64 << sh) - 1) as u64) == p && q & (((1u64 << sh) - 1) as u64) == q)
            by (bit_vector)
            requires
                9 <= sh <= 45,
                p < (1u64 << sh),
                q < (1u64 << sh),
        ;
    }
    if p == q {
        lemma_same_path_refl(p, level, 0);
    }
}

impl TableEntryCell {
    /// Replace the entry at depth `to_depth` on the path of `page` with
    /// `new`, returning the previous entry.  Fails, changing no walk
    /// outcome, when the walk to that entry ends early; walks of pages on
    /// other paths are untouched in every case.
    pub fn with_entry_mut(&mut self, page: crate::addr::Page, to_depth: PageDepth, new: TableEntry) -> (r: Result<
        TableEntry,
        Error,
    >)
        requires
            old(self).wf_spec(),
            to_depth.get_spec() < old(self).depth_spec(),
            new.is_present_spec() && !new.is_huge_spec() ==> to_depth.get_spec() == 0,
        ensures
            final(self).wf_spec(),
            final(self).depth_spec() == old(self).depth_spec(),
            (old(self).walk_spec(page.index_spec(), to_depth.get_spec())
                matches WalkResult::Mapped(e) ==> r == Result::<TableEntry, Error>::Ok(e)),
            (old(self).walk_spec(page.index_spec(), to_depth.get_spec()) is NotMapped ==> r
                == Result::<TableEntry, Error>::Err(Error::NotMapped(page))),
            (old(self).walk_spec(page.index_spec(), to_depth.get_spec()) is HugePage ==> r
                == Result::<TableEntry, Error>::Err(Error::HugePage)),
            (forall|q: u64| (#[trigger] final(self).walk_spec(q, to_depth.get_spec())) == (if r
                is Ok && same_path(q, page.index_spec(), old(self).depth_spec(),
            to_depth.get_spec()) {
                leaf_result(new)
            } else {
                old(self).walk_spec(q, to_depth.get_spec())
            })),
    {
        let level = self.depth.get();
        walk_write(&mut self.table, level, page, to_depth.get(), new)
    }

    /// Replace the entry at depth `to_depth` on the path of `page` with
    /// `new`, demand-creating intermediate tables from the frame ledger
    /// wherever the path is absent, and returning the raw entry previously
    /// at the slot (zeroed, where the table holding it was just created).
    /// Fails only on a huge entry above `to_depth` or when the ledger runs
    /// out; walks of pages on other paths are untouched in every case, and
    /// ledger frames change only from `Free` to `Locked`.
    pub fn with_entry_create(
        &mut self,
        page: crate::addr::Page,
        to_depth: PageDepth,
        new: TableEntry,
        fm: &mut crate::frame::FrameManager,
    ) -> (r: Result<TableEntry, Error>)
        requires
            old(self).wf_spec(),
            to_depth.get_spec() < old(self).depth_spec(),
            new.is_present_spec() && !new.is_huge_spec() ==> to_depth.get_spec() == 0,
            old(fm)@.len() <= 0x100_0000_0000,
        ensures
            final(self).wf_spec(),
            final(self).depth_spec() == old(self).depth_spec(),
            final(fm)@.len() == old(fm)@.len(),
            (forall|i: int| 0 <= i < old(fm)@.len() ==> final(fm)@[i] == old(fm)@[i] || (old(
                fm,
            )@[i] == crate::frame::FrameState::Free && final(fm)@[i]
                == crate::frame::FrameState::Locked)),
            crate::frame::count_free(final(fm)@) >= crate::frame::count_free(old(fm)@) - (old(
                self,
            ).depth_spec() - to_depth.get_spec() - 1),
            (old(self).locate_spec(page.index_spec(), to_depth.get_spec())
                matches SlotLookup::At(e) ==> r == Result::<TableEntry, Error>::Ok(e)),
            (old(self).locate_spec(page.index_spec(), to_depth.get_spec()) is Missing ==> (r is Ok
                ==> r == Result::<TableEntry, Error>::Ok(TableEntry::spec_empty()))),
            ((old(self).locate_spec(page.index_spec(), to_depth.get_spec()) is Huge) <==> r
                == Result::<TableEntry, Error>::Err(Error::HugePage)),
            (r == Result::<TableEntry, Error>::Err(Error::AllocError)
                ==> crate::frame::count_free(final(fm)@) == 0),
            (r is Err ==> r == Result::<TableEntry, Error>::Err(Error::HugePage) || r == Result::<
                TableEntry,
                Error,
            >::Err(Error::AllocError)),
            (!(old(self).locate_spec(page.index_spec(), to_depth.get_spec()) is Huge)
                && crate::frame::count_free(old(fm)@) >= old(self).depth_spec()
                - to_depth.get_spec() - 1 ==> r is Ok),
            (forall|q: u64| (#[trigger] final(self).walk_spec(q, to_depth.get_spec())) == (if r
                is Ok && same_path(q, page.index_spec(), old(self).depth_spec(),
            to_depth.get_spec()) {
                leaf_result(new)
            } else {
                old(self).walk_spec(q, to_depth.get_spec())
            })),
    {
        let level = self.depth.get();
        walk_create(&mut self.table, level, page, to_depth.get(), new, fm)
    }
}


/// The present and huge flags read the same through the attribute field as
/// through the raw value, and the frame field always fits the 40-bit frame
/// index range.
pub proof fn lemma_entry_fields(e: TableEntry)
    ensures
        (e.attrs_spec() & PTE_PRESENT != 0) == e.is_present_spec(),
        (e.attrs_spec() & PTE_HUGE != 0) == e.is_huge_spec(),
        e.frame_spec() < 0x100_0000_0000,
{
    let v = e.value_spec();
    assert(((v & 0x8000_0000_0000_03FFu64) & 0x1 == 0x1) == (v & 0x1 != 0) && ((v
        & 0x8000_0000_0000_03FFu64) & 0x80 == 0x80) == (v & 0x80 != 0) && (v
        & 0x000F_FFFF_FFFF_F000u64) >> 12u64 < 0x100_0000_0000u64) by (bit_vector);
    assert(((v & 0x8000_0000_0000_03FFu64) & 0x1 != 0) == ((v & 0x8000_0000_0000_03FFu64) & 0x1
        == 0x1)) by (bit_vector);
    assert(((v & 0x8000_0000_0000_03FFu64) & 0x80 != 0) == ((v & 0x8000_0000_0000_03FFu64) & 0x80
        == 0x80)) by (bit_vector);
}

/// Removing the present attribute leaves a non-present entry.
pub proof fn lemma_remove_present(e: TableEntry, nxe: bool)
    ensures
        !e.spec_set_attributes(PTE_PRESENT, FlagsModify::Remove, nxe).is_present_spec(),
{
    let v = e.value_spec();
    let masked = (v & 0x8000_0000_0000_03FFu64) & !(0x1u64 & 0x8000_0000_0000_03FFu64);
    if nxe {
        assert(((v & !0x8000_0000_0000_03FFu64) | (masked & 0x8000_0000_0000_03FFu64)) & 0x1 == 0)
            by (bit_vector)
            requires
                masked == (v & 0x8000_0000_0000_03FFu64) & !(0x1u64 & 0x8000_0000_0000_03FFu64),
        ;
    } else {
        let stripped = masked & !0x8000_0000_0000_0000u64;
        assert(((v & !0x8000_0000_0000_03FFu64) | (stripped & 0x8000_0000_0000_03FFu64)) & 0x1
            == 0) by (bit_vector)
            requires
                masked == (v & 0x8000_0000_0000_03FFu64) & !(0x1u64 & 0x8000_0000_0000_03FFu64),
                stripped == masked & !0x8000_0000_0000_0000u64,
        ;
    }
}

} // verus!
