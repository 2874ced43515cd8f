use vstd::prelude::*;
use std::collections::HashMap;
use crate::prim::Prim;

verus! {

broadcast use vstd::std_specs::hash::group_hash_axioms;

/// Size in bytes of the blocks that dirty tracking works in.
pub const DIRTY_BLOCK_SIZE: usize = 0x80;

/// Byte-level permission bits.
#[derive(Clone, Copy, Debug, PartialEq, Eq, Structural, PartialOrd, Ord, Hash)]
pub struct Perm(pub u8);

/// The individual permission bits.
#[derive(Clone, Copy, Debug, PartialEq, Eq, Structural, PartialOrd, Ord)]
pub enum PermBit {
    Unknown,
    Execute,
    Write,
    Read,
    ReadAfterWrite,
}

impl PermBit {
    pub open spec fn spec_bits(self) -> u8 {
        match self {
            PermBit::Unknown => 0,
            PermBit::Execute => 1,
            PermBit::Write => 2,
            PermBit::Read => 4,
            PermBit::ReadAfterWrite => 8,
        }
    }

    /// The bit that stands for this permission in a `Perm`.
    #[verifier::when_used_as_spec(spec_bits)]
    pub fn bits(self) -> (r: u8)
        ensures
            r == self.spec_bits(),
    {
        match self {
            PermBit::Unknown => 0,
            PermBit::Execute => 1,
            PermBit::Write => 2,
            PermBit::Read => 4,
            PermBit::ReadAfterWrite => 8,
        }
    }
}

/// A guest virtual address.
#[derive(Clone, Copy, Debug, PartialEq, Eq, Structural, PartialOrd, Ord, Hash)]
pub struct VirtAddr(pub usize);

/// Why an access to guest memory failed.
#[derive(Clone, Copy, Debug, PartialEq, Eq, Structural)]
pub enum MmuError {
    /// The range lies (partly) outside guest memory.
    InvalidAddr(VirtAddr),
    /// The permission of the first byte that lacks the expected one, the
    /// address and size of the access, and the expected permission.
    InvalidPerms(Perm, VirtAddr, usize, Perm),
    /// The end of the range does not fit in the address space.
    AddressOverflow(VirtAddr, usize),
    /// No room is left for an allocation of the given size.
    OutOfMemory(usize),
}

/// Whether bit `bit` of `word` is set.
pub open spec fn word_has_bit(word: u64, bit: u64) -> bool {
    word & (1u64 << bit) != 0
}

proof fn lemma_or_bit(word: u64, bit: u64, other: u64)
    requires
        bit < 64,
        other < 64,
    ensures
        word_has_bit(word | (1u64 << bit), other) == (word_has_bit(word, other) || other == bit),
{
    assert(word_has_bit(word | (1u64 << bit), other) == (word_has_bit(word, other) || other
        == bit)) by (bit_vector)
        requires
            bit < 64,
            other < 64,
    ;
}

proof fn lemma_zero_word_has_no_bit(bit: u64)
    requires
        bit < 64,
    ensures
        !word_has_bit(0u64, bit),
{
    assert(!word_has_bit(0u64, bit)) by (bit_vector)
        requires
            bit < 64,
    ;
}

/// `bs` with block `b` appended, unless it holds it already.
pub open spec fn add_block(bs: Seq<usize>, b: usize) -> Seq<usize> {
    if bs.contains(b) {
        bs
    } else {
        bs.push(b)
    }
}

/// `bs` with the blocks `lo..hi` appended in increasing order, each unless
/// it is there already.
pub open spec fn mark_range(bs: Seq<usize>, lo: int, hi: int) -> Seq<usize>
    decreases hi - lo,
{
    if hi <= lo {
        bs
    } else {
        add_block(mark_range(bs, lo, hi - 1), (hi - 1) as usize)
    }
}

/// What marking a range adds and keeps.
pub proof fn lemma_mark_range(bs: Seq<usize>, lo: int, hi: int)
    requires
        0 <= lo,
        hi <= usize::MAX + 1,
    ensures
        forall|x: usize|
            #![trigger mark_range(bs, lo, hi).contains(x)]
            mark_range(bs, lo, hi).contains(x) <==> (bs.contains(x) || lo <= x < hi),
        mark_range(bs, lo, hi).len() >= bs.len(),
        mark_range(bs, lo, hi).subrange(0, bs.len() as int) == bs,
        bs.no_duplicates() ==> mark_range(bs, lo, hi).no_duplicates(),
    decreases hi - lo,
{
    if hi > lo {
        lemma_mark_range(bs, lo, hi - 1);
        let prev = mark_range(bs, lo, hi - 1);
        let b = (hi - 1) as usize;
        assert(mark_range(bs, lo, hi) == add_block(prev, b));
        if !prev.contains(b) {
            assert(prev.push(b).subrange(0, bs.len() as int) =~= prev.subrange(0, bs.len() as int));
            assert forall|x: usize| prev.push(b).contains(x) <==> (prev.contains(x) || x == b) by {
                if prev.push(b).contains(x) {
                    let k = choose|k: int| 0 <= k < prev.push(b).len() && prev.push(b)[k] == x;
                    if k < prev.len() {
                        assert(prev[k] == x);
                    }
                }
                if x == b {
                    assert(prev.push(b)[prev.len() as int] == x);
                }
                if prev.contains(x) {
                    let k = choose|k: int| 0 <= k < prev.len() && prev[k] == x;
                    assert(prev.push(b)[k] == x);
                }
            }
        }
        assert forall|x: usize|
            #![trigger mark_range(bs, lo, hi).contains(x)]
            mark_range(bs, lo, hi).contains(x) <==> (bs.contains(x) || lo <= x < hi) by {
            assert(prev.contains(x) <==> (bs.contains(x) || lo <= x < hi - 1));
        }
    }
}

/// Which blocks of guest memory changed since the last fork or reset.
pub struct DirtyState {
    /// The dirtied blocks, in the order in which they were first dirtied.
    pub blocks: Vec<usize>,
    /// One bit per block, set when the block is in `blocks`.
    bitmap: Vec<u64>,
}

impl View for DirtyState {
    type V = Seq<usize>;

    /// The dirtied blocks, in order.
    closed spec fn view(&self) -> Seq<usize> {
        self.blocks@
    }
}

impl DirtyState {
    /// Whether the bitmap marks block `b`.
    pub closed spec fn marked(&self, b: int) -> bool {
        0 <= b < self.capacity() && word_has_bit(self.bitmap@[b / 64], (b % 64) as u64)
    }

    /// Number of blocks the bitmap can track.
    pub closed spec fn capacity(&self) -> nat {
        self.bitmap@.len() * 64
    }

    pub closed spec fn wf(&self) -> bool {
        &&& self.blocks@.no_duplicates()
        &&& self.capacity() <= usize::MAX
        &&& forall|i: int|
            0 <= i < self.blocks@.len() ==> #[trigger] self.marked(self.blocks@[i] as int)
        &&& forall|b: int| #[trigger] self.marked(b) ==> self.blocks@.contains(b as usize)
    }

    /// Create new dirty state for `size` bytes of memory.
    pub fn new(size: usize) -> (r: Self)
        ensures
            r.wf(),
            r@ == Seq::<usize>::empty(),
            r.capacity() == (size / DIRTY_BLOCK_SIZE / 64 + 1) * 64,
    {
        let words: usize = size / DIRTY_BLOCK_SIZE / 64 + 1;
        let mut bitmap: Vec<u64> = Vec::new();
        let mut i: usize = 0;
        while i < words
            invariant
                i <= words,
                bitmap@.len() == i,
                forall|j: int| 0 <= j < i ==> bitmap@[j] == 0u64,
            decreases words - i,
        {
            bitmap.push(0u64);
            i = i + 1;
        }
        let r = Self { blocks: Vec::with_capacity(size / DIRTY_BLOCK_SIZE + 1), bitmap };
        assert forall|b: int| #[trigger] r.marked(b) implies r.blocks@.contains(b as usize) by {
            lemma_zero_word_has_no_bit((b % 64) as u64);
        }
        r
    }

    /// Mark the blocks that the `len` bytes (one byte when `len` is `None`)
    /// from `addr` touch as dirty; `None` when the end of the range overflows.
    pub fn mark(&mut self, addr: VirtAddr, len: Option<usize>) -> (r: Option<()>)
        requires
            old(self).wf(),
            ({
                let l = match len {
                    Some(l) => l as int,
                    None => 1,
                };
                addr.0 + l <= usize::MAX ==> (addr.0 + l) / (DIRTY_BLOCK_SIZE as int) < old(
                    self,
                ).capacity()
            }),
        ensures
            final(self).wf(),
            final(self).capacity() == old(self).capacity(),
            ({
                let l = match len {
                    Some(l) => l as int,
                    None => 1,
                };
                &&& r is None <==> addr.0 + l > usize::MAX
                &&& r is None ==> final(self)@ == old(self)@
                &&& r is Some ==> final(self)@ == mark_range(
                    old(self)@,
                    addr.0 as int / (DIRTY_BLOCK_SIZE as int),
                    (addr.0 + l) / (DIRTY_BLOCK_SIZE as int) + 1,
                )
            }),
    {
        let len: usize = match len {
            Some(l) => l,
            None => 1,
        };
        let block_start: usize = addr.0 / DIRTY_BLOCK_SIZE;
        let end: usize = match addr.0.checked_add(len) {
            Some(e) => e,
            None => {
                return None;
            },
        };
        let block_end: usize = end / DIRTY_BLOCK_SIZE;
        let mut block: usize = block_start;
        while block <= block_end
            invariant
                self.wf(),
                self.capacity() == old(self).capacity(),
                block_start <= block <= block_end + 1,
                block_end < self.capacity(),
                block_start == addr.0 as int / (DIRTY_BLOCK_SIZE as int),
                self.blocks@ == mark_range(old(self).blocks@, block_start as int, block as int),
            decreases block_end + 1 - block,
        {
            let idx: usize = block / 64;
            let bit: usize = block % 64;
            let ghost before = self.blocks@;
            if self.bitmap[idx] & (1u64 << (bit as u64)) != 0 {
                assert(self.marked(block as int));
                assert(before.contains(block));
            } else {
                assert(!self.marked(block as int));
                assert(!before.contains(block)) by {
                    if before.contains(block) {
                        let k = choose|k: int| 0 <= k < before.len() && before[k] == block;
                        assert(self.marked(before[k] as int));
                    }
                }
                let ghost old_state = *self;
                self.blocks.push(block);
                let w: u64 = self.bitmap[idx] | (1u64 << (bit as u64));
                self.bitmap.set(idx, w);
                proof {
                    assert forall|b: int| self.marked(b) == (old_state.marked(b) || b == block) by {
                        if 0 <= b < self.capacity() {
                            if b / 64 == idx as int {
                                lemma_or_bit(old_state.bitmap@[idx as int], bit as u64, (b % 64) as u64);
                            }
                        }
                    }
                    assert forall|i: int|
                        0 <= i < self.blocks@.len() implies #[trigger] self.marked(self.blocks@[i] as int) by {
                        if i < before.len() {
                            assert(old_state.marked(before[i] as int));
                        }
                    }
                    assert forall|b: int| #[trigger] self.marked(b) implies self.blocks@.contains(b as usize) by {
                        if b == block {
                            assert(self.blocks@[before.len() as int] == block);
                        } else {
                            assert(old_state.marked(b));
                            let k = choose|k: int| 0 <= k < before.len() && before[k] == b as usize;
                            assert(self.blocks@[k] == b as usize);
                        }
                    }
                    assert(self.blocks@.no_duplicates()) by {
                        assert forall|i: int, j: int| 0 <= i < j < self.blocks@.len() implies self.blocks@[i] != self.blocks@[j] by {
                            if j == before.len() {
                                assert(before.contains(before[i]));
                            }
                        }
                    }
                }
            }
            block = block + 1;
        }
        Some(())
    }
}


/// The abstract state of an address space.
pub struct MmuView {
    /// Guest memory; offset 0 is guest address 0.
    pub memory: Seq<u8>,
    /// The permissions of each byte of guest memory.
    pub perms: Seq<Perm>,
    /// The dirtied blocks, in the order in which they were first dirtied.
    pub blocks: Seq<usize>,
    /// Base address of the next allocation.
    pub alloc_base: usize,
    /// Active allocations: base address to requested size.
    pub allocations: Map<usize, usize>,
}

/// The error of an access of `size` bytes at `addr` that does not lie in
/// guest memory, if it does not.
pub open spec fn range_error(v: MmuView, addr: usize, size: int) -> Option<MmuError> {
    if addr + size > usize::MAX {
        Some(MmuError::AddressOverflow(VirtAddr(addr), size as usize))
    } else if addr + size > v.memory.len() {
        Some(MmuError::InvalidAddr(VirtAddr(addr)))
    } else {
        None
    }
}

/// The first index in `lo..hi` whose permission shares no bit with `mask`.
pub open spec fn first_lacking(perms: Seq<Perm>, lo: int, hi: int, mask: u8) -> Option<int>
    decreases hi - lo,
{
    if hi <= lo {
        None
    } else if perms[lo].0 & mask == 0 {
        Some(lo)
    } else {
        first_lacking(perms, lo + 1, hi, mask)
    }
}

/// What a read of `size` bytes at `addr` that expects `expected` gives.
/// An `expected` of `PermBit::Unknown` skips the permission check.
pub open spec fn read_result(v: MmuView, addr: usize, size: int, expected: Perm) -> Result<
    Seq<u8>,
    MmuError,
> {
    match range_error(v, addr, size) {
        Some(e) => Err(e),
        None => if expected.0 != PermBit::Unknown.spec_bits() && first_lacking(
            v.perms,
            addr as int,
            addr + size,
            expected.0,
        ) is Some {
            Err(
                MmuError::InvalidPerms(
                    v.perms[first_lacking(v.perms, addr as int, addr + size, expected.0)->0],
                    VirtAddr(addr),
                    size as usize,
                    expected,
                ),
            )
        } else {
            Ok(v.memory.subrange(addr as int, addr + size))
        },
    }
}

/// The permission a byte has after a write: a byte that was
/// read-after-write becomes readable.
pub open spec fn after_write(p: Perm) -> Perm {
    if p.0 & PermBit::ReadAfterWrite.spec_bits() != 0 {
        Perm(p.0 | PermBit::Read.spec_bits())
    } else {
        p
    }
}

/// The blocks that an access of `size` bytes at `addr` marks dirty: from the
/// block of `addr` to the block of the end address, both included.
pub open spec fn touched_blocks(addr: int, size: int) -> (int, int) {
    (addr / (DIRTY_BLOCK_SIZE as int), (addr + size) / (DIRTY_BLOCK_SIZE as int) + 1)
}

/// What writing `buf` at `addr` gives.
pub open spec fn write_result(v: MmuView, addr: usize, buf: Seq<u8>) -> Result<MmuView, MmuError> {
    let size = buf.len() as int;
    match range_error(v, addr, size) {
        Some(e) => Err(e),
        None => match first_lacking(v.perms, addr as int, addr + size, PermBit::Write.spec_bits()) {
            Some(i) => Err(
                MmuError::InvalidPerms(
                    v.perms[i],
                    VirtAddr(addr),
                    size as usize,
                    Perm(PermBit::Write.spec_bits()),
                ),
            ),
            None => Ok(
                MmuView {
                    memory: Seq::new(
                        v.memory.len(),
                        |i: int|
                            if addr <= i < addr + size {
                                buf[i - addr]
                            } else {
                                v.memory[i]
                            },
                    ),
                    perms: Seq::new(
                        v.perms.len(),
                        |i: int|
                            if addr <= i < addr + size {
                                after_write(v.perms[i])
                            } else {
                                v.perms[i]
                            },
                    ),
                    blocks: mark_range(
                        v.blocks,
                        touched_blocks(addr as int, size).0,
                        touched_blocks(addr as int, size).1,
                    ),
                    alloc_base: v.alloc_base,
                    allocations: v.allocations,
                },
            ),
        },
    }
}

/// `perms` with the bytes `addr..addr + size` set to `perm`.
pub open spec fn set_range(perms: Seq<Perm>, addr: int, size: int, perm: Perm) -> Seq<Perm> {
    Seq::new(perms.len(), |i: int| if addr <= i < addr + size { perm } else { perms[i] })
}

/// What setting the permissions of `size` bytes at `addr` to `perm` gives:
/// the blocks touched are marked dirty, so that a reset undoes the change.
pub open spec fn set_perms_result(v: MmuView, addr: usize, size: usize, perm: Perm) -> Result<
    MmuView,
    MmuError,
> {
    match range_error(v, addr, size as int) {
        Some(e) => Err(e),
        None => Ok(
            MmuView {
                memory: v.memory,
                perms: set_range(v.perms, addr as int, size as int, perm),
                blocks: mark_range(
                    v.blocks,
                    touched_blocks(addr as int, size as int).0,
                    touched_blocks(addr as int, size as int).1,
                ),
                alloc_base: v.alloc_base,
                allocations: v.allocations,
            },
        ),
    }
}

/// `size` rounded up to a multiple of 16.
pub open spec fn align16(size: int) -> int {
    (size + 15) / 16 * 16
}

/// The state after an allocation of `size` bytes, and its outcome.
pub open spec fn alloc_result(v: MmuView, size: usize) -> (MmuView, Result<VirtAddr, MmuError>) {
    let base = v.alloc_base;
    let next = base + align16(size as int);
    if base >= v.memory.len() {
        (v, Err(MmuError::OutOfMemory(size)))
    } else if next > usize::MAX {
        (v, Err(MmuError::OutOfMemory(size)))
    } else if next > v.memory.len() {
        (
            MmuView {
                memory: v.memory,
                perms: v.perms,
                blocks: v.blocks,
                alloc_base: next as usize,
                allocations: v.allocations,
            },
            Err(MmuError::OutOfMemory(size)),
        )
    } else {
        (
            MmuView {
                memory: v.memory,
                perms: set_range(
                    v.perms,
                    base as int,
                    size as int,
                    Perm(
                        (PermBit::ReadAfterWrite.spec_bits() | PermBit::Write.spec_bits()) as u8,
                    ),
                ),
                blocks: mark_range(
                    v.blocks,
                    touched_blocks(base as int, size as int).0,
                    touched_blocks(base as int, size as int).1,
                ),
                alloc_base: next as usize,
                allocations: v.allocations.insert(base, size),
            },
            Ok(VirtAddr(base)),
        )
    }
}

/// An isolated memory management unit.
pub struct Mmu {
    /// Block of memory allocated for this address space; offset 0 is
    /// address 0 in the guest address space.
    memory: Vec<u8>,
    /// Byte-level permissions.
    permissions: Vec<Perm>,
    /// Dirty blocks, for differential restoration.
    pub dirty: DirtyState,
    /// Base address of the next allocation.
    pub alloc_base: VirtAddr,
    /// Active allocations.
    allocations: HashMap<usize, usize>,
}

impl View for Mmu {
    type V = MmuView;

    closed spec fn view(&self) -> MmuView {
        MmuView {
            memory: self.memory@,
            perms: self.permissions@,
            blocks: self.dirty@,
            alloc_base: self.alloc_base.0,
            allocations: self.allocations@,
        }
    }
}

impl Mmu {
    pub closed spec fn wf(&self) -> bool {
        &&& self.memory@.len() == self.permissions@.len()
        &&& self.memory@.len() <= isize::MAX
        &&& self.dirty.wf()
        &&& self.memory@.len() as int / (DIRTY_BLOCK_SIZE as int) < self.dirty.capacity()
    }

    /// The view of a well-formed address space is well formed.
    pub proof fn lemma_view_wf(&self)
        requires
            self.wf(),
        ensures
            view_wf(self@),
    {
    }

    /// Create new address space with `size` bytes of memory.
    pub fn new(size: usize) -> (r: Self)
        requires
            size <= isize::MAX,
        ensures
            r.wf(),
            r@.memory == Seq::new(size as nat, |i: int| 0u8),
            r@.perms == Seq::new(size as nat, |i: int| Perm(PermBit::Unknown.spec_bits())),
            r@.blocks == Seq::<usize>::empty(),
            r@.alloc_base == 0x10000,
            r@.allocations == Map::<usize, usize>::empty(),
    {
        let memory: Vec<u8> = vec![0u8; size];
        let permissions: Vec<Perm> = vec![Perm(PermBit::Unknown.bits()); size];
        let r = Self {
            memory,
            permissions,
            dirty: DirtyState::new(size),
            alloc_base: VirtAddr(0x10000),
            allocations: HashMap::new(),
        };
        assert(r@.memory =~= Seq::new(size as nat, |i: int| 0u8));
        assert(r@.perms =~= Seq::new(size as nat, |i: int| Perm(PermBit::Unknown.spec_bits())));
        r
    }

    /// Fork from the existing MMU: the same memory, permissions, allocation
    /// base and allocations, and no dirty blocks.
    pub fn fork(&self) -> (r: Self)
        requires
            self.wf(),
        ensures
            r.wf(),
            r@.memory == self@.memory,
            r@.perms == self@.perms,
            r@.blocks == Seq::<usize>::empty(),
            r@.alloc_base == self@.alloc_base,
            r@.allocations == self@.allocations,
    {
        let size = self.memory.len();
        let memory = self.memory.clone();
        let permissions = self.permissions.clone();
        let r = Mmu {
            memory,
            permissions,
            dirty: DirtyState::new(size),
            alloc_base: self.alloc_base,
            allocations: self.allocations.clone(),
        };
        assert(r@.memory =~= self@.memory);
        assert(r@.perms =~= self@.perms);
        r
    }

    /// Set permissions for a region of memory.
    pub fn set_perms(&mut self, addr: VirtAddr, size: usize, perm: Perm) -> (r: Result<
        (),
        MmuError,
    >)
        requires
            old(self).wf(),
        ensures
            final(self).wf(),
            match set_perms_result(old(self)@, addr.0, size, perm) {
                Ok(v) => r is Ok && final(self)@ == v,
                Err(e) => r == Err::<(), MmuError>(e) && final(self)@ == old(self)@,
            },
    {
        let end: usize = match addr.0.checked_add(size) {
            Some(e) => e,
            None => {
                return Err(MmuError::AddressOverflow(addr, size));
            },
        };
        if end > self.permissions.len() {
            return Err(MmuError::InvalidAddr(addr));
        }
        let ghost old_perms = self.permissions@;
        let mut i: usize = addr.0;
        while i < end
            invariant
                self.wf(),
                addr.0 <= i <= end,
                end == addr.0 + size,
                end <= self.permissions@.len(),
                self.permissions@.len() == old_perms.len(),
                self.memory@ == old(self).memory@,
                self.dirty@ == old(self).dirty@,
                self.alloc_base == old(self).alloc_base,
                self.allocations@ == old(self).allocations@,
                old_perms == old(self).permissions@,
                forall|j: int|
                    0 <= j < old_perms.len() ==> #[trigger] self.permissions@[j] == if addr.0 <= j
                        < i {
                        perm
                    } else {
                        old_perms[j]
                    },
            decreases end - i,
        {
            self.permissions.set(i, perm);
            i = i + 1;
        }
        assert(self.permissions@ =~= set_range(old_perms, addr.0 as int, size as int, perm));
        // Mark dirty blocks
        let marked = self.dirty.mark(addr, Some(size));
        assert(marked is Some);
        Ok(())
    }

    /// Write from `buf` to `addr`: every byte must be writable; bytes that
    /// were read-after-write become readable, and the blocks touched are
    /// marked dirty.
    pub fn write_from(&mut self, addr: VirtAddr, buf: &[u8]) -> (r: Result<(), MmuError>)
        requires
            old(self).wf(),
        ensures
            final(self).wf(),
            match write_result(old(self)@, addr.0, buf@) {
                Ok(v) => r is Ok && final(self)@ == v,
                Err(e) => r == Err::<(), MmuError>(e) && final(self)@ == old(self)@,
            },
    {
        let len: usize = buf.len();
        let end: usize = match addr.0.checked_add(len) {
            Some(e) => e,
            None => {
                return Err(MmuError::AddressOverflow(addr, len));
            },
        };
        if end > self.permissions.len() {
            return Err(MmuError::InvalidAddr(addr));
        }
        let ghost v0 = self@;
        let write_bit: u8 = PermBit::Write.bits();
        let raw_bit: u8 = PermBit::ReadAfterWrite.bits();
        let read_bit: u8 = PermBit::Read.bits();
        // Check that all bytes are writable, and whether any is read-after-write
        let mut is_raw: bool = false;
        let mut i: usize = addr.0;
        while i < end
            invariant
                self.wf(),
                self@ == v0,
                addr.0 <= i <= end,
                end == addr.0 + len,
                len == buf@.len(),
                end <= v0.perms.len(),
                write_bit == 2,
                raw_bit == 8,
                first_lacking(v0.perms, addr.0 as int, end as int, write_bit) == first_lacking(
                    v0.perms,
                    i as int,
                    end as int,
                    write_bit,
                ),
                !is_raw ==> forall|j: int| addr.0 <= j < i ==> v0.perms[j].0 & raw_bit == 0,
            decreases end - i,
        {
            let p: Perm = self.permissions[i];
            if p.0 & write_bit == 0 {
                assert(first_lacking(v0.perms, i as int, end as int, write_bit) == Some(i as int));
                return Err(MmuError::InvalidPerms(p, addr, len, Perm(write_bit)));
            }
            is_raw = is_raw || (p.0 & raw_bit) != 0;
            i = i + 1;
        }
        // Perform the write
        let mut k: usize = 0;
        while k < len
            invariant
                self.wf(),
                self.permissions@ == v0.perms,
                self.dirty@ == v0.blocks,
                self.alloc_base.0 == v0.alloc_base,
                self.allocations@ == v0.allocations,
                k <= len,
                len == buf@.len(),
                end == addr.0 + len,
                end <= v0.memory.len(),
                self.memory@.len() == v0.memory.len(),
                forall|j: int|
                    0 <= j < v0.memory.len() ==> #[trigger] self.memory@[j] == if addr.0 <= j
                        < addr.0 + k {
                        buf@[j - addr.0]
                    } else {
                        v0.memory[j]
                    },
            decreases len - k,
        {
            self.memory.set(addr.0 + k, buf[k]);
            k = k + 1;
        }
        // Mark dirty blocks
        let marked = self.dirty.mark(addr, Some(len));
        assert(marked is Some);
        // If any byte is read-after-write, mark it as readable
        let ghost mem1 = self.memory@;
        let ghost blocks1 = self.dirty@;
        if is_raw {
            assert((read_bit & !raw_bit) == 4u8) by (bit_vector)
                requires
                    read_bit == 4u8,
                    raw_bit == 8u8,
            ;
            let mut j: usize = addr.0;
            while j < end
                invariant
                    self.wf(),
                    self.memory@ == mem1,
                    self.dirty@ == blocks1,
                    self.alloc_base.0 == v0.alloc_base,
                    self.allocations@ == v0.allocations,
                    addr.0 <= j <= end,
                    end <= v0.perms.len(),
                    self.permissions@.len() == v0.perms.len(),
                    raw_bit == 8,
                    read_bit & !raw_bit == 4u8,
                    forall|x: int|
                        0 <= x < v0.perms.len() ==> #[trigger] self.permissions@[x] == if addr.0
                            <= x < j {
                            after_write(v0.perms[x])
                        } else {
                            v0.perms[x]
                        },
                decreases end - j,
            {
                let p: Perm = self.permissions[j];
                if (p.0 & raw_bit) != 0 {
                    self.permissions.set(j, Perm(p.0 | (read_bit & !raw_bit)));
                }
                j = j + 1;
            }
        }
        proof {
            let target = write_result(v0, addr.0, buf@);
            assert(first_lacking(v0.perms, end as int, end as int, write_bit) is None);
            assert(target is Ok);
            let tv = target->Ok_0;
            assert(self@.memory =~= tv.memory);
            assert(self@.perms =~= tv.perms) by {
                if !is_raw {
                    assert forall|x: int| 0 <= x < v0.perms.len() implies self@.perms[x] == tv.perms[x] by {
                        if addr.0 <= x < end {
                            assert(v0.perms[x].0 & raw_bit == 0);
                        }
                    }
                }
            }
            assert(self@.blocks == tv.blocks);
        }
        Ok(())
    }

    /// Write the little-endian bytes of `val` to `addr`.
    pub fn write<T: Prim>(&mut self, addr: VirtAddr, val: T) -> (r: Result<(), MmuError>)
        requires
            old(self).wf(),
        ensures
            final(self).wf(),
            match write_result(old(self)@, addr.0, val.spec_to_le()) {
                Ok(v) => r is Ok && final(self)@ == v,
                Err(e) => r == Err::<(), MmuError>(e) && final(self)@ == old(self)@,
            },
    {
        let tmp: Vec<u8> = val.to_bytes_le();
        self.write_from(addr, tmp.as_slice())
    }

    /// Read from `addr` into `buf`, checking that every byte shares a bit
    /// with `expected_perm` (no check when it is `PermBit::Unknown`).
    pub fn read_with_perms(&self, addr: VirtAddr, buf: &mut [u8], expected_perm: Perm) -> (r:
        Result<(), MmuError>)
        requires
            self.wf(),
        ensures
            match read_result(self@, addr.0, old(buf)@.len() as int, expected_perm) {
                Ok(bytes) => r is Ok && final(buf)@ == bytes,
                Err(e) => r == Err::<(), MmuError>(e) && final(buf)@ == old(buf)@,
            },
    {
        let len: usize = buf.len();
        let end: usize = match addr.0.checked_add(len) {
            Some(e) => e,
            None => {
                return Err(MmuError::AddressOverflow(addr, len));
            },
        };
        if end > self.permissions.len() {
            return Err(MmuError::InvalidAddr(addr));
        }
        if expected_perm.0 != PermBit::Unknown.bits() {
            let mut i: usize = addr.0;
            while i < end
                invariant
                    self.wf(),
                    addr.0 <= i <= end,
                    end == addr.0 + len,
                    len == buf@.len(),
                    buf@ == old(buf)@,
                    expected_perm.0 != 0,
                    end <= self@.perms.len(),
                    first_lacking(self@.perms, addr.0 as int, end as int, expected_perm.0)
                        == first_lacking(self@.perms, i as int, end as int, expected_perm.0),
                decreases end - i,
            {
                let p: Perm = self.permissions[i];
                if (p.0 & expected_perm.0) == 0 {
                    assert(first_lacking(self@.perms, i as int, end as int, expected_perm.0) == Some(i as int));
                    return Err(MmuError::InvalidPerms(p, addr, len, expected_perm));
                }
                i = i + 1;
            }
            assert(first_lacking(self@.perms, end as int, end as int, expected_perm.0) is None);
        }
        let mut k: usize = 0;
        while k < len
            invariant
                self.wf(),
                k <= len,
                len == buf@.len(),
                end == addr.0 + len,
                end <= self@.memory.len(),
                forall|j: int| 0 <= j < k ==> #[trigger] buf@[j] == self@.memory[addr.0 + j],
            decreases len - k,
        {
            buf[k] = self.memory[addr.0 + k];
            k = k + 1;
        }
        assert(buf@ =~= self@.memory.subrange(addr.0 as int, end as int));
        Ok(())
    }

    /// Read from `addr` into `buf`; every byte must be readable.
    pub fn read_into(&self, addr: VirtAddr, buf: &mut [u8]) -> (r: Result<(), MmuError>)
        requires
            self.wf(),
        ensures
            match read_result(
                self@,
                addr.0,
                old(buf)@.len() as int,
                Perm(PermBit::Read.spec_bits()),
            ) {
                Ok(bytes) => r is Ok && final(buf)@ == bytes,
                Err(e) => r == Err::<(), MmuError>(e) && final(buf)@ == old(buf)@,
            },
    {
        self.read_with_perms(addr, buf, Perm(PermBit::Read.bits()))
    }

    /// Read a value of type `T` from `addr`, checking the permissions of its
    /// bytes against `expected_perms`.
    pub fn read_perms<T: Prim>(&self, addr: VirtAddr, expected_perms: Perm) -> (r: Result<
        T,
        MmuError,
    >)
        requires
            self.wf(),
        ensures
            match read_result(self@, addr.0, T::spec_size() as int, expected_perms) {
                Ok(bytes) => r == Ok::<T, MmuError>(T::spec_from_le(bytes)),
                Err(e) => r == Err::<T, MmuError>(e),
            },
    {
        let n: usize = T::size();
        let mut tmp: Vec<u8> = vec![0u8; n];
        match self.read_with_perms(addr, tmp.as_mut_slice(), expected_perms) {
            Ok(()) => Ok(T::from_bytes_le(tmp.as_slice())),
            Err(e) => Err(e),
        }
    }

    /// The `len` bytes at `addr`, checking their permissions against
    /// `expected_perm`.
    pub fn peek(&self, addr: VirtAddr, len: usize, expected_perm: Perm) -> (r: Result<
        Vec<u8>,
        MmuError,
    >)
        requires
            self.wf(),
        ensures
            match read_result(self@, addr.0, len as int, expected_perm) {
                Ok(bytes) => r is Ok && r->Ok_0@ == bytes,
                Err(e) => r == Err::<Vec<u8>, MmuError>(e),
            },
    {
        let end: usize = match addr.0.checked_add(len) {
            Some(e) => e,
            None => {
                return Err(MmuError::AddressOverflow(addr, len));
            },
        };
        if end > self.memory.len() {
            return Err(MmuError::InvalidAddr(addr));
        }
        let mut buf: Vec<u8> = vec![0u8; len];
        match self.read_with_perms(addr, buf.as_mut_slice(), expected_perm) {
            Ok(()) => Ok(buf),
            Err(e) => Err(e),
        }
    }

    /// Read a value of type `T` from `addr`; its bytes must be readable.
    pub fn read<T: Prim>(&self, addr: VirtAddr) -> (r: Result<T, MmuError>)
        requires
            self.wf(),
        ensures
            match read_result(self@, addr.0, T::spec_size() as int, Perm(PermBit::Read.spec_bits())) {
                Ok(bytes) => r == Ok::<T, MmuError>(T::spec_from_le(bytes)),
                Err(e) => r == Err::<T, MmuError>(e),
            },
    {
        self.read_perms(addr, Perm(PermBit::Read.bits()))
    }

    /// Reset the address space to the state of another address space: the
    /// bytes of every dirty block, and their permissions, are copied back
    /// from `other`; the allocation state is taken from `other`.
    pub fn reset(&mut self, other: &Mmu)
        requires
            old(self).wf(),
            other.wf(),
            old(self)@.memory.len() <= other@.memory.len(),
        ensures
            final(self).wf(),
            final(self)@ == restore_view(old(self)@, other@),
    {
        let ghost v0 = self@;
        let ghost blocks = self.dirty@;
        let ghost d0 = self.dirty;
        let n: usize = self.dirty.blocks.len();
        let mut k: usize = 0;
        while k < n
            invariant
                other.wf(),
                n == blocks.len(),
                v0.memory.len() == v0.perms.len(),
                v0.memory.len() <= isize::MAX,
                self.dirty.capacity() == d0.capacity(),
                v0.memory.len() as int / (DIRTY_BLOCK_SIZE as int) < d0.capacity(),
                k <= n,
                self.dirty@ == blocks,
                blocks == v0.blocks,
                v0.memory.len() <= other@.memory.len(),
                self.dirty.bitmap@.len() == d0.bitmap@.len(),
                self.memory@.len() == v0.memory.len(),
                self.permissions@.len() == v0.perms.len(),
                self.alloc_base.0 == v0.alloc_base,
                self.allocations@ == v0.allocations,
                d0.wf(),
                d0@ == blocks,
                forall|b: int| #[trigger] self.dirty.marked(b) ==> d0.marked(b),
                forall|j: int| 0 <= j < k ==> self.dirty.bitmap@[blocks[j] as int / 64] == 0u64,
                forall|i: int|
                    0 <= i < v0.memory.len() ==> #[trigger] self.memory@[i] == if blocks.subrange(
                        0,
                        k as int,
                    ).contains((i / (DIRTY_BLOCK_SIZE as int)) as usize) {
                        other@.memory[i]
                    } else {
                        v0.memory[i]
                    },
                forall|i: int|
                    0 <= i < v0.perms.len() ==> #[trigger] self.permissions@[i] == if blocks.subrange(
                        0,
                        k as int,
                    ).contains((i / (DIRTY_BLOCK_SIZE as int)) as usize) {
                        other@.perms[i]
                    } else {
                        v0.perms[i]
                    },
            decreases n - k,
        {
            let block: usize = self.dirty.blocks[k];
            proof {
                assert(blocks.contains(block)) by {
                    assert(blocks[k as int] == block);
                }
                assert(d0.marked(block as int));
            }
            // Addr for block is block * DIRTY_BLOCK_SIZE; only the part of
            // the block that lies in memory is restored
            let len: usize = self.memory.len();
            let ghost block_start: int = block * (DIRTY_BLOCK_SIZE as int);
            let start: usize = match block.checked_mul(DIRTY_BLOCK_SIZE) {
                Some(s) => if s < len {
                    s
                } else {
                    len
                },
                None => len,
            };
            let end: usize = if len - start < DIRTY_BLOCK_SIZE {
                len
            } else {
                start + DIRTY_BLOCK_SIZE
            };
            // Clear the whole bitmap word: every block in it is in the list
            let idx: usize = block / 64;
            let ghost before = self.dirty;
            self.dirty.bitmap.set(idx, 0u64);
            let ghost mem_k = self.memory@;
            let ghost perms_k = self.permissions@;
            // Restore memory and permissions
            let mut a: usize = start;
            while a < end
                invariant
                    other.wf(),
                    v0.memory.len() == v0.perms.len(),
                    idx < before.bitmap@.len(),
                    start <= a <= end,
                    end <= v0.memory.len(),
                    end <= other@.memory.len(),
                    self.memory@.len() == v0.memory.len(),
                    self.permissions@.len() == v0.perms.len(),
                    self.dirty.bitmap@ == before.bitmap@.update(idx as int, 0u64),
                    self.dirty.blocks@ == blocks,
                    self.alloc_base.0 == v0.alloc_base,
                    self.allocations@ == v0.allocations,
                    forall|i: int|
                        0 <= i < v0.memory.len() ==> #[trigger] self.memory@[i] == if start <= i < a {
                            other@.memory[i]
                        } else {
                            mem_k[i]
                        },
                    forall|i: int|
                        0 <= i < v0.perms.len() ==> #[trigger] self.permissions@[i] == if start <= i < a {
                            other@.perms[i]
                        } else {
                            perms_k[i]
                        },
                decreases end - a,
            {
                let byte: u8 = other.memory[a];
                self.memory.set(a, byte);
                let perm: Perm = other.permissions[a];
                self.permissions.set(a, perm);
                a = a + 1;
            }
            proof {
                assert forall|j: int| 0 <= j < k + 1 implies self.dirty.bitmap@[blocks[j] as int
                    / 64] == 0u64 by {
                    assert(d0.marked(d0.blocks@[j] as int));
                    if j < k {
                        assert(before.bitmap@[blocks[j] as int / 64] == 0u64);
                    } else {
                        assert(blocks[j] == block);
                        assert(blocks[j] as int / 64 == idx);
                    }
                }
                assert forall|b: int| #[trigger] self.dirty.marked(b) implies d0.marked(b) by {
                    if b / 64 == idx as int {
                        lemma_zero_word_has_no_bit((b % 64) as u64);
                    } else {
                        assert(before.marked(b));
                    }
                }
                assert forall|i: int| 0 <= i < v0.memory.len() implies #[trigger] self.memory@[i]
                    == if blocks.subrange(0, k + 1).contains((i / (DIRTY_BLOCK_SIZE as int)) as usize) {
                    other@.memory[i]
                } else {
                    v0.memory[i]
                } by {
                    lemma_block_step(blocks, k as int, i, block_start, v0.memory.len() as int);
                    if block_start >= len {
                        assert(start == len);
                    }
                }
                assert forall|i: int| 0 <= i < v0.perms.len() implies #[trigger] self.permissions@[i]
                    == if blocks.subrange(0, k + 1).contains((i / (DIRTY_BLOCK_SIZE as int)) as usize) {
                    other@.perms[i]
                } else {
                    v0.perms[i]
                } by {
                    lemma_block_step(blocks, k as int, i, block_start, v0.memory.len() as int);
                    if block_start >= len {
                        assert(start == len);
                    }
                }
            }
            k = k + 1;
        }
        // Clear dirty blocks
        let ghost pre_clear = self.dirty;
        self.dirty.blocks.clear();
        proof {
            assert forall|b: int| #[trigger] self.dirty.marked(b) implies self.dirty.blocks@.contains(b as usize) by {
                assert(pre_clear.marked(b));
                assert(d0.marked(b));
                let j = choose|j: int| 0 <= j < blocks.len() && blocks[j] == b as usize;
                assert(self.dirty.bitmap@[b / 64] == 0u64);
                lemma_zero_word_has_no_bit((b % 64) as u64);
            }
            assert(blocks.subrange(0, n as int) =~= blocks);
        }
        // Restore allocation base and active allocations
        self.alloc_base = other.alloc_base;
        self.allocations = other.allocations.clone();
        proof {
            let target = restore_view(v0, other@);
            assert(self@.memory =~= target.memory);
            assert(self@.perms =~= target.perms);
            assert(self@.blocks =~= target.blocks);
        }
    }

    /// The base address of the next allocation.
    pub fn alloc_base(&self) -> (r: VirtAddr)
        ensures
            r.0 == self@.alloc_base,
    {
        self.alloc_base
    }

    /// Move the allocation base.
    pub fn set_alloc_base(&mut self, base: VirtAddr)
        requires
            old(self).wf(),
        ensures
            final(self).wf(),
            final(self)@ == (MmuView { alloc_base: base.0, ..old(self)@ }),
    {
        self.alloc_base = base;
    }

    /// Get the size of an allocation.
    pub fn get_alloc_size(&self, base: VirtAddr) -> (r: Option<usize>)
        ensures
            r == if self@.allocations.contains_key(base.0) {
                Some(self@.allocations[base.0])
            } else {
                None::<usize>
            },
    {
        match self.allocations.get(&base.0) {
            Some(size) => Some(*size),
            None => None,
        }
    }

    /// Allocate `size` bytes at the allocation base, rounded up to 16 bytes,
    /// with the bytes uninitialized (read-after-write) and writable.
    pub fn allocate(&mut self, size: usize) -> (r: Result<VirtAddr, MmuError>)
        requires
            old(self).wf(),
            size + 0xF <= usize::MAX,
        ensures
            final(self).wf(),
            final(self)@ == alloc_result(old(self)@, size).0,
            r == alloc_result(old(self)@, size).1,
    {
        // Size is 0x10 byte aligned (add padding)
        let padded: usize = size + 0xF;
        let aligned_size: usize = padded & !0xFusize;
        assert(aligned_size == padded / 16 * 16) by (bit_vector)
            requires
                aligned_size == padded & !0xFusize,
        ;
        // Current allocation base
        let base: VirtAddr = self.alloc_base;
        // No more memory
        if base.0 >= self.memory.len() {
            return Err(MmuError::OutOfMemory(size));
        }
        // Update allocation base
        let next: usize = match base.0.checked_add(aligned_size) {
            Some(n) => n,
            None => {
                return Err(MmuError::OutOfMemory(size));
            },
        };
        self.alloc_base = VirtAddr(next);
        // Check if ran out of memory
        if self.alloc_base.0 > self.memory.len() {
            return Err(MmuError::OutOfMemory(size));
        }
        // Mark the memory as uninitialized and writable; the padding keeps
        // its permissions
        let set = self.set_perms(
            base,
            size,
            Perm(PermBit::ReadAfterWrite.bits() | PermBit::Write.bits()),
        );
        assert(set is Ok);
        // Track the allocation
        self.allocations.insert(base.0, size);
        Ok(base)
    }
}

/// The state after a reset of `v` to `other`.
pub open spec fn restore_view(v: MmuView, other: MmuView) -> MmuView {
    MmuView {
        memory: Seq::new(
            v.memory.len(),
            |i: int|
                if v.blocks.contains((i / (DIRTY_BLOCK_SIZE as int)) as usize) {
                    other.memory[i]
                } else {
                    v.memory[i]
                },
        ),
        perms: Seq::new(
            v.perms.len(),
            |i: int|
                if v.blocks.contains((i / (DIRTY_BLOCK_SIZE as int)) as usize) {
                    other.perms[i]
                } else {
                    v.perms[i]
                },
        ),
        blocks: Seq::empty(),
        alloc_base: other.alloc_base,
        allocations: other.allocations,
    }
}

proof fn lemma_block_step(blocks: Seq<usize>, k: int, i: int, start: int, len: int)
    requires
        0 <= k < blocks.len(),
        0 <= i < len,
        len <= usize::MAX,
        start == blocks[k] * (DIRTY_BLOCK_SIZE as int),
    ensures
        blocks.subrange(0, k + 1).contains((i / (DIRTY_BLOCK_SIZE as int)) as usize) <==> (
        blocks.subrange(0, k).contains((i / (DIRTY_BLOCK_SIZE as int)) as usize) || (start <= i
            < start + DIRTY_BLOCK_SIZE)),
{
    lemma_prefix_contains(blocks, k, (i / (DIRTY_BLOCK_SIZE as int)) as usize);
}

proof fn lemma_prefix_contains(s: Seq<usize>, k: int, x: usize)
    requires
        0 <= k < s.len(),
    ensures
        s.subrange(0, k + 1).contains(x) <==> (s.subrange(0, k).contains(x) || s[k] == x),
{
    let a = s.subrange(0, k + 1);
    let b = s.subrange(0, k);
    if a.contains(x) {
        let j = choose|j: int| 0 <= j < a.len() && a[j] == x;
        if j < k {
            assert(b[j] == x);
        }
    }
    if b.contains(x) {
        let j = choose|j: int| 0 <= j < b.len() && b[j] == x;
        assert(a[j] == x);
    }
    if s[k] == x {
        assert(a[k] == x);
    }
}


/// Memory and permissions cover the same bytes, which an address can reach.
pub open spec fn view_wf(v: MmuView) -> bool {
    &&& v.memory.len() == v.perms.len()
    &&& v.memory.len() <= isize::MAX
}

/// `v` differs from `base` only within its dirty blocks.
pub open spec fn tracks(v: MmuView, base: MmuView) -> bool {
    &&& view_wf(v)
    &&& v.memory.len() == base.memory.len()
    &&& v.perms.len() == base.perms.len()
    &&& forall|i: int|
        0 <= i < v.memory.len() && !v.blocks.contains((i / (DIRTY_BLOCK_SIZE as int)) as usize)
            ==> #[trigger] v.memory[i] == base.memory[i] && v.perms[i] == base.perms[i]
}

/// A fork differs from its origin in no block.
pub proof fn lemma_fork_tracks(origin: MmuView, fork: MmuView)
    requires
        view_wf(origin),
        fork.memory == origin.memory,
        fork.perms == origin.perms,
        fork.blocks == Seq::<usize>::empty(),
    ensures
        tracks(fork, origin),
{
}

/// A successful write changes memory and permissions only within the blocks
/// that it marks dirty, so what differed only within dirty blocks still does.
pub proof fn lemma_write_keeps_tracking(v: MmuView, base: MmuView, addr: usize, buf: Seq<u8>)
    requires
        tracks(v, base),
        write_result(v, addr, buf) is Ok,
    ensures
        tracks(write_result(v, addr, buf)->Ok_0, base),
{
    let w = write_result(v, addr, buf)->Ok_0;
    let (lo, hi) = touched_blocks(addr as int, buf.len() as int);
    lemma_mark_range(v.blocks, lo, hi);
    assert forall|i: int|
        0 <= i < w.memory.len() && !w.blocks.contains(
            (i / (DIRTY_BLOCK_SIZE as int)) as usize,
        ) implies #[trigger] w.memory[i] == base.memory[i] && w.perms[i] == base.perms[i] by {
        let b = (i / (DIRTY_BLOCK_SIZE as int)) as usize;
        assert(!v.blocks.contains(b));
        assert(w.memory.len() == v.memory.len());
        assert(0 <= i < v.memory.len());
        assert(!v.blocks.contains((i / (DIRTY_BLOCK_SIZE as int)) as usize));
        assert(v.memory[i] == base.memory[i]);
        if addr <= i < addr + buf.len() {
            assert(lo <= b < hi);
        }
    }
}

/// Resetting an address space that differs from `other` only within its
/// dirty blocks makes its memory and permissions those of `other`, with no
/// dirty blocks and `other`'s allocation state.
pub proof fn lemma_reset_restores(v: MmuView, other: MmuView)
    requires
        tracks(v, other),
    ensures
        restore_view(v, other).memory == other.memory,
        restore_view(v, other).perms == other.perms,
        restore_view(v, other).blocks == Seq::<usize>::empty(),
        restore_view(v, other).alloc_base == other.alloc_base,
        restore_view(v, other).allocations == other.allocations,
{
    let r = restore_view(v, other);
    assert forall|i: int| 0 <= i < r.memory.len() implies r.memory[i] == other.memory[i] by {
        assert(v.memory[i] == other.memory[i] || v.blocks.contains(
            (i / (DIRTY_BLOCK_SIZE as int)) as usize,
        ));
    }
    assert forall|i: int| 0 <= i < r.perms.len() implies r.perms[i] == other.perms[i] by {
        assert(i < v.memory.len());
        assert(v.memory[i] == other.memory[i] || v.blocks.contains(
            (i / (DIRTY_BLOCK_SIZE as int)) as usize,
        ));
        assert(v.perms[i] == other.perms[i] || v.blocks.contains(
            (i / (DIRTY_BLOCK_SIZE as int)) as usize,
        ));
    }
    assert(r.memory =~= other.memory);
    assert(r.perms =~= other.perms);
}

/// After a successful write, reading the same range back with no
/// permission check, or expecting the write permission, gives the bytes
/// written.
pub proof fn lemma_read_after_write(v: MmuView, addr: usize, buf: Seq<u8>)
    requires
        view_wf(v),
        write_result(v, addr, buf) is Ok,
    ensures
        read_result(
            write_result(v, addr, buf)->Ok_0,
            addr,
            buf.len() as int,
            Perm(PermBit::Unknown.spec_bits()),
        ) == Ok::<Seq<u8>, MmuError>(buf),
        read_result(
            write_result(v, addr, buf)->Ok_0,
            addr,
            buf.len() as int,
            Perm(PermBit::Write.spec_bits()),
        ) == Ok::<Seq<u8>, MmuError>(buf),
{
    let w = write_result(v, addr, buf)->Ok_0;
    let end = addr + buf.len();
    lemma_first_lacking_none(v.perms, addr as int, end, PermBit::Write.spec_bits());
    assert forall|i: int| addr <= i < end implies w.perms[i].0 & PermBit::Write.spec_bits() != 0 by {
        let p = v.perms[i].0;
        assert(p & 2u8 != 0 ==> (p | 4u8) & 2u8 != 0) by (bit_vector);
    }
    lemma_first_lacking_none_from(w.perms, addr as int, end, PermBit::Write.spec_bits());
    assert(w.memory.subrange(addr as int, end) =~= buf);
}

/// After a successful write, bytes that were readable or not yet
/// initialized (read-after-write) are readable and hold what was written.
pub proof fn lemma_write_initializes(v: MmuView, addr: usize, buf: Seq<u8>)
    requires
        view_wf(v),
        write_result(v, addr, buf) is Ok,
        forall|i: int|
            addr <= i < addr + buf.len() ==> #[trigger] v.perms[i].0 & (
            PermBit::Read.spec_bits() | PermBit::ReadAfterWrite.spec_bits()) != 0,
    ensures
        read_result(
            write_result(v, addr, buf)->Ok_0,
            addr,
            buf.len() as int,
            Perm(PermBit::Read.spec_bits()),
        ) == Ok::<Seq<u8>, MmuError>(buf),
{
    let w = write_result(v, addr, buf)->Ok_0;
    let end = addr + buf.len();
    assert forall|i: int| addr <= i < end implies w.perms[i].0 & PermBit::Read.spec_bits() != 0 by {
        let p = v.perms[i].0;
        assert(p & (4u8 | 8u8) != 0 ==> (if p & 8u8 != 0 { p | 4u8 } else { p }) & 4u8 != 0)
            by (bit_vector);
    }
    lemma_first_lacking_none_from(w.perms, addr as int, end, PermBit::Read.spec_bits());
    assert(w.memory.subrange(addr as int, end) =~= buf);
}

proof fn lemma_first_lacking_none(perms: Seq<Perm>, lo: int, hi: int, mask: u8)
    requires
        first_lacking(perms, lo, hi, mask) is None,
    ensures
        forall|i: int| lo <= i < hi ==> #[trigger] perms[i].0 & mask != 0,
    decreases hi - lo,
{
    if lo < hi {
        lemma_first_lacking_none(perms, lo + 1, hi, mask);
    }
}

proof fn lemma_first_lacking_none_from(perms: Seq<Perm>, lo: int, hi: int, mask: u8)
    requires
        forall|i: int| lo <= i < hi ==> #[trigger] perms[i].0 & mask != 0,
    ensures
        first_lacking(perms, lo, hi, mask) is None,
    decreases hi - lo,
{
    if lo < hi {
        lemma_first_lacking_none_from(perms, lo + 1, hi, mask);
    }
}


/// Reading a value of type `T` back where one was just written gives it.
pub proof fn lemma_typed_read_after_write<T: Prim>(v: MmuView, addr: usize, val: T)
    requires
        view_wf(v),
        write_result(v, addr, val.spec_to_le()) is Ok,
    ensures
        read_result(
            write_result(v, addr, val.spec_to_le())->Ok_0,
            addr,
            T::spec_size() as int,
            Perm(PermBit::Write.spec_bits()),
        ) == Ok::<Seq<u8>, MmuError>(val.spec_to_le()),
        T::spec_from_le(val.spec_to_le()) == val,
{
    T::lemma_le_roundtrip(val);
    lemma_read_after_write(v, addr, val.spec_to_le());
}

/// A change of an address space through one of its operations.
pub enum MmuOp {
    /// `write_from` of the bytes at the address.
    Write(usize, Seq<u8>),
    /// `set_perms` of the bytes `addr..addr + size` to the permission.
    SetPerms(usize, usize, Perm),
    /// `allocate` of the size.
    Allocate(usize),
}

/// The state after `op`; an operation that fails changes nothing, but for
/// an allocation that moves the allocation base before it runs out of
/// memory.
pub open spec fn apply_op(v: MmuView, op: MmuOp) -> MmuView {
    match op {
        MmuOp::Write(addr, buf) => match write_result(v, addr, buf) {
            Ok(w) => w,
            Err(_) => v,
        },
        MmuOp::SetPerms(addr, size, perm) => match set_perms_result(v, addr, size, perm) {
            Ok(w) => w,
            Err(_) => v,
        },
        MmuOp::Allocate(size) => alloc_result(v, size).0,
    }
}

/// The state after the operations `ops`, in order.
pub open spec fn after_ops(v: MmuView, ops: Seq<MmuOp>) -> MmuView
    decreases ops.len(),
{
    if ops.len() == 0 {
        v
    } else {
        apply_op(after_ops(v, ops.drop_last()), ops.last())
    }
}

/// Setting permissions changes them only within the blocks that it marks
/// dirty, so what differed only within dirty blocks still does.
pub proof fn lemma_set_perms_keeps_tracking(
    v: MmuView,
    base: MmuView,
    addr: usize,
    size: usize,
    perm: Perm,
)
    requires
        tracks(v, base),
        set_perms_result(v, addr, size, perm) is Ok,
    ensures
        tracks(set_perms_result(v, addr, size, perm)->Ok_0, base),
{
    let w = set_perms_result(v, addr, size, perm)->Ok_0;
    let (lo, hi) = touched_blocks(addr as int, size as int);
    lemma_mark_range(v.blocks, lo, hi);
    assert forall|i: int|
        0 <= i < w.memory.len() && !w.blocks.contains(
            (i / (DIRTY_BLOCK_SIZE as int)) as usize,
        ) implies #[trigger] w.memory[i] == base.memory[i] && w.perms[i] == base.perms[i] by {
        let b = (i / (DIRTY_BLOCK_SIZE as int)) as usize;
        assert(!v.blocks.contains(b));
        assert(v.memory[i] == base.memory[i]);
        if addr <= i < addr + size {
            assert(lo <= b < hi);
        }
    }
}

/// An allocation changes permissions only within the blocks that it marks
/// dirty, so what differed only within dirty blocks still does.
pub proof fn lemma_alloc_keeps_tracking(v: MmuView, base: MmuView, size: usize)
    requires
        tracks(v, base),
    ensures
        tracks(alloc_result(v, size).0, base),
{
    let start = v.alloc_base;
    let w = alloc_result(v, size).0;
    if alloc_result(v, size).1 is Ok {
        let (lo, hi) = touched_blocks(start as int, size as int);
        lemma_mark_range(v.blocks, lo, hi);
        assert forall|i: int|
            0 <= i < w.memory.len() && !w.blocks.contains(
                (i / (DIRTY_BLOCK_SIZE as int)) as usize,
            ) implies #[trigger] w.memory[i] == base.memory[i] && w.perms[i] == base.perms[i] by {
            let b = (i / (DIRTY_BLOCK_SIZE as int)) as usize;
            assert(!v.blocks.contains(b));
            assert(v.memory[i] == base.memory[i]);
            if start <= i < start + size {
                assert(lo <= b < hi);
            }
        }
    } else {
        assert(w.memory == v.memory && w.perms == v.perms && w.blocks == v.blocks);
    }
}

/// Every operation keeps a state differing from `base` only within its
/// dirty blocks.
pub proof fn lemma_ops_keep_tracking(v: MmuView, base: MmuView, ops: Seq<MmuOp>)
    requires
        tracks(v, base),
    ensures
        tracks(after_ops(v, ops), base),
    decreases ops.len(),
{
    if ops.len() > 0 {
        lemma_ops_keep_tracking(v, base, ops.drop_last());
        let prev = after_ops(v, ops.drop_last());
        match ops.last() {
            MmuOp::Write(addr, buf) => {
                if write_result(prev, addr, buf) is Ok {
                    lemma_write_keeps_tracking(prev, base, addr, buf);
                }
            },
            MmuOp::SetPerms(addr, size, perm) => {
                if set_perms_result(prev, addr, size, perm) is Ok {
                    lemma_set_perms_keeps_tracking(prev, base, addr, size, perm);
                }
            },
            MmuOp::Allocate(size) => {
                lemma_alloc_keeps_tracking(prev, base, size);
            },
        }
    }
}

/// Differential restoration: a fork of `origin` that has been written to,
/// had permissions set and memory allocated, when reset to `origin`, holds
/// `origin`'s memory, permissions and allocation state again, with no
/// dirty blocks.
pub proof fn lemma_fork_ops_reset(origin: MmuView, fork: MmuView, ops: Seq<MmuOp>)
    requires
        view_wf(origin),
        fork.memory == origin.memory,
        fork.perms == origin.perms,
        fork.blocks == Seq::<usize>::empty(),
    ensures
        restore_view(after_ops(fork, ops), origin) == (MmuView {
            blocks: Seq::empty(),
            ..origin
        }),
{
    lemma_fork_tracks(origin, fork);
    lemma_ops_keep_tracking(fork, origin, ops);
    lemma_reset_restores(after_ops(fork, ops), origin);
}

/// An allocation that succeeds returns the allocation base, records its
/// size, makes its bytes writable and not yet initialized, and moves the
/// base past them by a multiple of 16 that leaves less than 16 bytes of
/// padding; memory and the permissions of other bytes stay as they were. One
/// that fails runs out of memory and changes nothing but, possibly, the
/// base.
pub proof fn lemma_alloc(v: MmuView, size: usize)
    requires
        view_wf(v),
    ensures
        ({
            let (w, r) = alloc_result(v, size);
            &&& w.memory == v.memory
            &&& w.perms.len() == v.perms.len()
            &&& r matches Ok(a) ==> {
                &&& a.0 == v.alloc_base
                &&& w.allocations == v.allocations.insert(a.0, size)
                &&& a.0 + size <= w.alloc_base < a.0 + size + 16
                &&& (w.alloc_base - a.0) % 16 == 0
                &&& w.alloc_base <= v.memory.len()
                &&& forall|i: int| a.0 <= i < a.0 + size ==> #[trigger] w.perms[i] == Perm(10)
                &&& forall|i: int|
                    0 <= i < v.perms.len() && !(a.0 <= i < a.0 + size) ==> #[trigger] w.perms[i]
                        == v.perms[i]
            }
            &&& r matches Err(e) ==> {
                &&& e == MmuError::OutOfMemory(size)
                &&& w.perms == v.perms
                &&& w.allocations == v.allocations
            }
        }),
{
    assert((8u8 | 2u8) == 10u8) by (bit_vector);
}

/// A read expecting a permission succeeds exactly when the range lies in
/// memory and every byte has one of the expected bits (no check when none
/// is expected), giving the bytes of the range; when a byte lacks them, the
/// error names the permission of such a byte in the range.
pub proof fn lemma_read_checks(v: MmuView, addr: usize, size: usize, expected: Perm)
    requires
        view_wf(v),
    ensures
        read_result(v, addr, size as int, expected) is Ok <==> (addr + size <= v.memory.len() && (
        expected.0 == 0 || forall|i: int|
            addr <= i < addr + size ==> #[trigger] v.perms[i].0 & expected.0 != 0)),
        read_result(v, addr, size as int, expected) matches Ok(bytes) ==> bytes == v.memory.subrange(
            addr as int,
            addr + size,
        ),
        read_result(v, addr, size as int, expected) matches Err(MmuError::InvalidPerms(
            found,
            a,
            s,
            e,
        )) ==> a == VirtAddr(addr) && s == size && e == expected && exists|i: int|
            addr <= i < addr + size && #[trigger] v.perms[i] == found && found.0 & expected.0 == 0,
{
    if addr + size <= v.memory.len() && expected.0 != 0 {
        lemma_first_lacking_iff(v.perms, addr as int, addr + size, expected.0);
    }
}

/// A write succeeds exactly when the range lies in memory and every byte in
/// it is writable; then the range holds the bytes written, bytes that were
/// not yet initialized become readable, and nothing outside the range
/// changes.
pub proof fn lemma_write_checks(v: MmuView, addr: usize, buf: Seq<u8>)
    requires
        view_wf(v),
    ensures
        write_result(v, addr, buf) is Ok <==> (addr + buf.len() <= v.memory.len() && forall|i: int|
            addr <= i < addr + buf.len() ==> #[trigger] v.perms[i].0 & 2 != 0),
        write_result(v, addr, buf) matches Ok(w) ==> {
            &&& w.memory.len() == v.memory.len()
            &&& w.memory.subrange(addr as int, addr + buf.len()) == buf
            &&& forall|i: int|
                0 <= i < v.memory.len() && !(addr <= i < addr + buf.len()) ==> #[trigger] w.memory[i]
                    == v.memory[i] && w.perms[i] == v.perms[i]
            &&& forall|i: int|
                addr <= i < addr + buf.len() ==> #[trigger] w.perms[i].0 == if v.perms[i].0 & 8 != 0 {
                    v.perms[i].0 | 4
                } else {
                    v.perms[i].0
                }
            &&& w.alloc_base == v.alloc_base && w.allocations == v.allocations
        },
{
    if addr + buf.len() <= v.memory.len() {
        lemma_first_lacking_iff(v.perms, addr as int, addr + buf.len(), 2u8);
    }
    if write_result(v, addr, buf) is Ok {
        let w = write_result(v, addr, buf)->Ok_0;
        assert(w.memory.subrange(addr as int, addr + buf.len()) =~= buf);
    }
}

proof fn lemma_first_lacking_iff(perms: Seq<Perm>, lo: int, hi: int, mask: u8)
    ensures
        first_lacking(perms, lo, hi, mask) is None <==> forall|i: int|
            lo <= i < hi ==> #[trigger] perms[i].0 & mask != 0,
        first_lacking(perms, lo, hi, mask) matches Some(k) ==> lo <= k < hi && perms[k].0 & mask
            == 0,
    decreases hi - lo,
{
    if lo < hi {
        lemma_first_lacking_iff(perms, lo + 1, hi, mask);
        if perms[lo].0 & mask == 0 {
            assert(!(forall|i: int| lo <= i < hi ==> #[trigger] perms[i].0 & mask != 0));
        }
    }
}

} // verus!
