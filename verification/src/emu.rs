use vstd::prelude::*;
use crate::isa::{Btype, Itype, Jtype, Register, Rtype, Stype, Utype, PC_INDEX};
use crate::loader::{
    PT_LOAD, Segment, file_range_ok, load_all, load_outcome, load_segment, msg_parse, parse_elf,
    elf_layout, segment_of, segments_of, segments_fit,
};
use crate::mmu::{
    Mmu, MmuError, MmuView, Perm, PermBit, VirtAddr, alloc_result, read_result, set_perms_result,
    view_wf, write_result,
};
use crate::prim::Prim;
use crate::semantics::{
    add64, alu_imm_value, alu_imm_w_value, alu_reg_value, alu_reg_w_value, execute_spec,
    is_supported, lemma_access_error_not_fatal, lemma_casts, lemma_load_casts, lemma_wrapping,
    load_size, load_value, run_spec, step_defined, step_spec, store_bytes, supported, take_branch,
};
use crate::sys::{
    lemma_writev_stops, prefixed_decimal, read_window, sys_defined, sys_outcome, sys_spec,
    writev_data,
};

verus! {

/// Why the emulator stopped running.
#[derive(Debug)]
pub enum EmuExit {
    /// Error loading program
    LoadError(String),
    /// Exit due to syscall
    Syscall,
    /// Error handling syscall
    SyscallError(String),
    /// Clean exit
    Exit,
    /// Read/write caused overflow of address space
    AddressOverflow(VirtAddr, usize),
    /// Read/write to invalid memory
    InvalidAccess(VirtAddr, usize),
    /// Read/write to memory with invalid permissions
    ReadFault(VirtAddr),
    /// Read of uninitialized memory
    UninitFault(VirtAddr),
    /// Write to non-writable memory
    WriteFault(VirtAddr),
}

/// The memory errors that have no exit of their own.
pub open spec fn mmu_error_is_fatal(err: MmuError) -> bool {
    match err {
        MmuError::InvalidPerms(found, _, _, _) => {
            &&& found.0 != PermBit::Unknown.spec_bits()
            &&& found.0 & PermBit::ReadAfterWrite.spec_bits() == 0
            &&& found.0 & PermBit::Read.spec_bits() != 0
            &&& found.0 & PermBit::Write.spec_bits() != 0
        },
        MmuError::OutOfMemory(_) => true,
        _ => false,
    }
}

/// The exit that a memory error stands for, by the permission of the byte
/// that failed the access: a byte with no permission, or one not yet
/// initialized (read-after-write), gives an uninitialized access; otherwise
/// a byte that is not readable gives a read fault, and one that is readable
/// but not writable a write fault.
pub open spec fn exit_of(err: MmuError) -> EmuExit {
    match err {
        MmuError::InvalidAddr(addr) => EmuExit::InvalidAccess(addr, 0),
        MmuError::InvalidPerms(found, addr, _, _) => if found.0 == PermBit::Unknown.spec_bits()
            || found.0 & PermBit::ReadAfterWrite.spec_bits() != 0 {
            EmuExit::UninitFault(addr)
        } else if found.0 & PermBit::Read.spec_bits() == 0 {
            EmuExit::ReadFault(addr)
        } else {
            EmuExit::WriteFault(addr)
        },
        MmuError::AddressOverflow(addr, size) => EmuExit::AddressOverflow(addr, size),
        MmuError::OutOfMemory(_) => EmuExit::Exit,
    }
}

/// Permission errors become exits by the bits of the failing byte's
/// permission (Write 2, Read 4, ReadAfterWrite 8), whatever was expected:
/// a byte with no bit, or one not yet initialized, gives an uninitialized
/// access; an initialized byte without Read a read fault; an initialized,
/// readable byte without Write a write fault, whatever else (such as
/// Execute) it has. None of these is left without an exit.
pub proof fn lemma_permission_exits(found: Perm, addr: VirtAddr, size: usize, expected: Perm)
    ensures
        ({
            let e = MmuError::InvalidPerms(found, addr, size, expected);
            &&& (found.0 == 0 || found.0 & 8 != 0) ==> exit_of(e) == EmuExit::UninitFault(addr)
                && !mmu_error_is_fatal(e)
            &&& (found.0 != 0 && found.0 & 8 == 0 && found.0 & 4 == 0) ==> exit_of(e)
                == EmuExit::ReadFault(addr) && !mmu_error_is_fatal(e)
            &&& (found.0 != 0 && found.0 & 8 == 0 && found.0 & 4 != 0 && found.0 & 2 == 0)
                ==> exit_of(e) == EmuExit::WriteFault(addr) && !mmu_error_is_fatal(e)
        }),
{
}

impl EmuExit {
    /// The exit for a memory error.
    pub fn from(err: MmuError) -> (r: EmuExit)
        requires
            !mmu_error_is_fatal(err),
        ensures
            r == exit_of(err),
    {
        match err {
            MmuError::InvalidAddr(addr) => EmuExit::InvalidAccess(addr, 0),
            MmuError::InvalidPerms(Perm(found), addr, _size, _expected) => {
                let read: u8 = PermBit::Read.bits();
                let raw: u8 = PermBit::ReadAfterWrite.bits();
                let unknown: u8 = PermBit::Unknown.bits();
                if found == unknown || found & raw != 0 {
                    EmuExit::UninitFault(addr)
                } else if found & read == 0 {
                    EmuExit::ReadFault(addr)
                } else {
                    EmuExit::WriteFault(addr)
                }
            },
            MmuError::AddressOverflow(addr, size) => EmuExit::AddressOverflow(addr, size),
            MmuError::OutOfMemory(_) => EmuExit::Exit,
        }
    }
}

/// The kinds of emulated files.
#[derive(Clone, Copy, Debug, PartialEq, Eq, Structural)]
pub enum FileType {
    FuzzInput,
    Unimplemented,
}

/// An emulated file.
#[derive(Debug)]
pub struct File {
    pub file_type: FileType,
    /// File data
    pub data: Option<Vec<u8>>,
    /// Cursor for seeking
    pub offset: Option<usize>,
}

/// The abstract contents of a file.
pub struct FileView {
    pub file_type: FileType,
    pub data: Option<Seq<u8>>,
    pub offset: Option<usize>,
}

impl View for File {
    type V = FileView;

    open spec fn view(&self) -> FileView {
        FileView {
            file_type: self.file_type,
            data: match self.data {
                Some(d) => Some(d@),
                None => None,
            },
            offset: self.offset,
        }
    }
}

impl Clone for File {
    fn clone(&self) -> (r: Self)
        ensures
            r@ == self@,
    {
        let data: Option<Vec<u8>> = match &self.data {
            Some(d) => {
                let c = d.clone();
                assert(c@ =~= d@);
                Some(c)
            },
            None => None,
        };
        File { file_type: self.file_type, data, offset: self.offset }
    }
}

impl File {
    /// A new, empty file of the given type; only fuzz inputs are supported.
    pub fn new(file_type: FileType) -> (r: Self)
        requires
            file_type == FileType::FuzzInput,
        ensures
            r@ == (FileView {
                file_type: file_type,
                data: Some(Seq::<u8>::empty()),
                offset: Some(0usize),
            }),
    {
        let r = File { file_type, data: Some(Vec::new()), offset: Some(0) };
        assert(r@.data == Some(Seq::<u8>::empty()));
        r
    }
}

/// The view of an optional file.
pub open spec fn file_slot_view(slot: Option<File>) -> Option<FileView> {
    match slot {
        Some(f) => Some(f@),
        None => None,
    }
}

/// The views of a sequence of optional files.
pub open spec fn files_view(files: Seq<Option<File>>) -> Seq<Option<FileView>> {
    Seq::new(files.len(), |i: int| file_slot_view(files[i]))
}

/// The abstract state of an emulator.
pub struct EmuView {
    /// x0-x31 and pc; x0 is never read.
    pub regs: Seq<u64>,
    pub memory: MmuView,
    pub files: Seq<Option<FileView>>,
}

/// The value of register `r`: x0 reads as zero.
pub open spec fn reg_read(regs: Seq<u64>, r: int) -> u64 {
    if r == 0 {
        0
    } else {
        regs[r]
    }
}

/// The registers after writing `v` to register `r`: writes to x0 are
/// dropped.
pub open spec fn reg_write(regs: Seq<u64>, r: int, v: u64) -> Seq<u64> {
    if r == 0 {
        regs
    } else {
        regs.update(r, v)
    }
}

/// Emulated process/system state.
pub struct Emulator {
    pub memory: Mmu,
    registers: [u64; 33],
    pub files: Vec<Option<File>>,
}

impl View for Emulator {
    type V = EmuView;

    closed spec fn view(&self) -> EmuView {
        EmuView {
            regs: self.registers@,
            memory: self.memory@,
            files: files_view(self.files@),
        }
    }
}

impl Emulator {
    pub closed spec fn wf(&self) -> bool {
        &&& self.memory.wf()
        &&& self.registers@.len() == 33
    }

    /// Create new emulator with `size` bytes of memory.
    pub fn new(size: usize) -> (r: Self)
        requires
            size <= isize::MAX,
        ensures
            r.wf(),
            r@.regs == Seq::new(33, |i: int| 0u64),
            r@.memory.memory == Seq::new(size as nat, |i: int| 0u8),
            r@.memory.perms == Seq::new(
                size as nat,
                |i: int| Perm(PermBit::Unknown.spec_bits()),
            ),
            r@.memory.blocks == Seq::<usize>::empty(),
            r@.memory.alloc_base == 0x10000,
            r@.memory.allocations == Map::<usize, usize>::empty(),
            r@.files == Seq::<Option<FileView>>::empty(),
    {
        let r = Self { memory: Mmu::new(size), registers: [0u64; 33], files: Vec::new() };
        assert(r@.regs =~= Seq::new(33, |i: int| 0u64));
        assert(r@.files =~= Seq::<Option<FileView>>::empty());
        r
    }

    /// The emulator's view after a fork of `self`: the same registers,
    /// files, memory, permissions and allocation state, and no dirty blocks.
    pub open spec fn forked(v: EmuView) -> EmuView {
        EmuView {
            regs: v.regs,
            memory: MmuView {
                memory: v.memory.memory,
                perms: v.memory.perms,
                blocks: Seq::empty(),
                alloc_base: v.memory.alloc_base,
                allocations: v.memory.allocations,
            },
            files: v.files,
        }
    }

    fn clone_files(files: &Vec<Option<File>>) -> (r: Vec<Option<File>>)
        ensures
            files_view(r@) == files_view(files@),
    {
        let mut r: Vec<Option<File>> = Vec::new();
        let mut i: usize = 0;
        while i < files.len()
            invariant
                i <= files@.len(),
                r@.len() == i,
                forall|j: int|
                    0 <= j < i ==> #[trigger] file_slot_view(r@[j]) == file_slot_view(files@[j]),
            decreases files@.len() - i,
        {
            let f: Option<File> = match &files[i] {
                Some(file) => Some(file.clone()),
                None => None,
            };
            assert(file_slot_view(f) == file_slot_view(files@[i as int]));
            r.push(f);
            i = i + 1;
        }
        assert(files_view(r@) =~= files_view(files@));
        r
    }

    /// Fork from the existing emulator.
    pub fn fork(&self) -> (r: Self)
        requires
            self.wf(),
        ensures
            r.wf(),
            r@ == Self::forked(self@),
    {
        let r = Self {
            memory: self.memory.fork(),
            registers: self.registers,
            files: Self::clone_files(&self.files),
        };
        r
    }

    /// Create a new file; returns its descriptor.
    pub fn new_file(&mut self, file_type: FileType) -> (r: usize)
        requires
            old(self).wf(),
            file_type == FileType::FuzzInput,
        ensures
            final(self).wf(),
            final(self)@.regs == old(self)@.regs,
            final(self)@.memory == old(self)@.memory,
            final(self)@.files == old(self)@.files.push(
                Some(
                    FileView {
                        file_type: file_type,
                        data: Some(Seq::<u8>::empty()),
                        offset: Some(0usize),
                    },
                ),
            ),
            r == old(self)@.files.len(),
    {
        let file = File::new(file_type);
        self.files.push(Some(file));
        assert(files_view(self.files@) =~= files_view(old(self).files@).push(
            Some(
                FileView {
                    file_type: file_type,
                    data: Some(Seq::<u8>::empty()),
                    offset: Some(0usize),
                },
            ),
        ));
        self.files.len() - 1
    }

    /// Give the file `fd` the contents `data`.
    pub fn set_file_data(&mut self, fd: usize, data: Vec<u8>)
        requires
            old(self).wf(),
            fd < old(self)@.files.len(),
            old(self)@.files[fd as int] is Some,
        ensures
            final(self).wf(),
            final(self)@.regs == old(self)@.regs,
            final(self)@.memory == old(self)@.memory,
            final(self)@.files == old(self)@.files.update(
                fd as int,
                Some(FileView { data: Some(data@), ..old(self)@.files[fd as int]->Some_0 }),
            ),
    {
        let ghost files0 = self@.files;
        let mut slot: Option<File> = None;
        self.files.set_and_swap(fd, &mut slot);
        let updated: Option<File> = match slot {
            Some(f) => Some(File { file_type: f.file_type, data: Some(data), offset: f.offset }),
            None => None,
        };
        self.files.set(fd, updated);
        assert(self@.files =~= files0.update(
            fd as int,
            Some(FileView { data: Some(data@), ..files0[fd as int]->Some_0 }),
        ));
    }

    /// Reset the emulator to the state of another emulator.
    pub fn reset(&mut self, other: &Self)
        requires
            old(self).wf(),
            other.wf(),
        ensures
            final(self).wf(),
            final(self)@ == Self::forked(other@),
    {
        self.memory = other.memory.fork();
        self.registers = other.registers;
        self.files = Self::clone_files(&other.files);
    }

    /// A well-formed emulator has a value for each of x0-x31 and the program
    /// counter, and a well-formed address space.
    pub proof fn lemma_wf(&self)
        requires
            self.wf(),
        ensures
            self@.regs.len() == 33,
            view_wf(self@.memory),
    {
        self.memory.lemma_view_wf();
    }

    /// The value of a register; x0 reads as zero.
    pub fn reg(&self, reg: Register) -> (r: u64)
        requires
            self.wf(),
        ensures
            r == reg_read(self@.regs, reg.spec_index() as int),
            self@.regs.len() == 33,
    {
        if reg == Register::Zero {
            0
        } else {
            self.registers[reg.index()]
        }
    }

    /// Set a register; writes to x0 are dropped.
    pub fn set_reg(&mut self, reg: Register, val: u64)
        requires
            old(self).wf(),
        ensures
            final(self).wf(),
            final(self)@.regs == reg_write(old(self)@.regs, reg.spec_index() as int, val),
            final(self)@.regs.len() == 33,
            final(self)@.memory == old(self)@.memory,
            final(self)@.files == old(self)@.files,
    {
        if reg != Register::Zero {
            self.registers[reg.index()] = val;
        }
    }

    /// Set the permissions of `size` bytes of guest memory at `addr` (see
    /// `Mmu::set_perms`).
    pub fn set_perms(&mut self, addr: VirtAddr, size: usize, perm: Perm) -> (r: Result<
        (),
        MmuError,
    >)
        requires
            old(self).wf(),
        ensures
            final(self).wf(),
            final(self)@.regs == old(self)@.regs,
            final(self)@.files == old(self)@.files,
            match set_perms_result(old(self)@.memory, addr.0, size, perm) {
                Ok(m) => r is Ok && final(self)@.memory == m,
                Err(e) => r == Err::<(), MmuError>(e) && final(self)@.memory == old(self)@.memory,
            },
    {
        self.memory.set_perms(addr, size, perm)
    }

    /// Write `buf` to guest memory at `addr` (see `Mmu::write_from`).
    pub fn write_from(&mut self, addr: VirtAddr, buf: &[u8]) -> (r: Result<(), MmuError>)
        requires
            old(self).wf(),
        ensures
            final(self).wf(),
            final(self)@.regs == old(self)@.regs,
            final(self)@.files == old(self)@.files,
            match write_result(old(self)@.memory, addr.0, buf@) {
                Ok(m) => r is Ok && final(self)@.memory == m,
                Err(e) => r == Err::<(), MmuError>(e) && final(self)@.memory == old(self)@.memory,
            },
    {
        self.memory.write_from(addr, buf)
    }

    /// Allocate `size` bytes of guest memory (see `Mmu::allocate`).
    pub fn allocate(&mut self, size: usize) -> (r: Result<VirtAddr, MmuError>)
        requires
            old(self).wf(),
            size + 0xF <= usize::MAX,
        ensures
            final(self).wf(),
            final(self)@.regs == old(self)@.regs,
            final(self)@.files == old(self)@.files,
            final(self)@.memory == alloc_result(old(self)@.memory, size).0,
            r == alloc_result(old(self)@.memory, size).1,
    {
        self.memory.allocate(size)
    }

    /// Push `val` onto the guest stack: sp moves down by 8 and the value is
    /// written there, little-endian (see `push_spec`).
    pub fn push(&mut self, val: u64) -> (r: Result<(), MmuError>)
        requires
            old(self).wf(),
            reg_read(old(self)@.regs, SP_INDEX as int) >= 8,
        ensures
            final(self).wf(),
            (final(self)@, r) == push_spec(old(self)@, val),
    {
        let sp: u64 = self.reg(Register::Sp) - 8;
        match self.memory.write::<u64>(VirtAddr(sp as usize), val) {
            Ok(()) => {},
            Err(e) => {
                return Err(e);
            },
        }
        self.set_reg(Register::Sp, sp);
        Ok(())
    }

    /// Lay out the program's start frame: a stack of `STACK_SIZE` bytes with
    /// sp at its top, `progname` written to an allocation of
    /// `PROGNAME_SIZE` bytes, and pushed onto the stack auxp, envp and the
    /// end of argv (all zero), argv[0] (the name's address) and argc (one).
    /// The first step that fails ends it (see `start_frame_spec`).
    pub fn setup_start_frame(&mut self, progname: &[u8]) -> (r: Result<(), MmuError>)
        requires
            old(self).wf(),
        ensures
            final(self).wf(),
            (final(self)@, r) == start_frame_spec(old(self)@, progname@),
    {
        let ghost v0 = self@;
        proof {
            self.lemma_wf();
        }
        // Allocate stack
        let stack: VirtAddr = match self.allocate(STACK_SIZE) {
            Ok(a) => a,
            Err(e) => {
                return Err(e);
            },
        };
        self.set_reg(Register::Sp, stack.0 as u64 + STACK_SIZE as u64);
        let ghost v1 = self@;
        let progname_addr: VirtAddr = match self.allocate(PROGNAME_SIZE) {
            Ok(a) => a,
            Err(e) => {
                return Err(e);
            },
        };
        match self.write_from(progname_addr, progname) {
            Ok(()) => {},
            Err(e) => {
                return Err(e);
            },
        }
        let ghost v3 = self@;
        assert(start_frame_spec(v0, progname@) == push_all(v3, start_frame_words(progname_addr.0)));
        // Setup start frame
        let vals: [u64; 5] = [0u64, 0u64, 0u64, progname_addr.0 as u64, 1u64];
        assert(vals@ =~= start_frame_words(progname_addr.0));
        assert(vals@.skip(0) =~= vals@);
        let mut i: usize = 0;
        while i < 5
            invariant
                self.wf(),
                i <= 5,
                vals@ == start_frame_words(progname_addr.0),
                reg_read(self@.regs, SP_INDEX as int) == (stack.0 + STACK_SIZE) - 8 * i,
                stack.0 < v0.memory.memory.len(),
                v0.memory.memory.len() <= isize::MAX,
                push_all(v3, vals@) == push_all(self@, vals@.skip(i as int)),
                start_frame_spec(v0, progname@) == push_all(v3, vals@),
                v0 == old(self)@,
            decreases 5 - i,
        {
            let ghost before = self@;
            proof {
                assert(vals@.skip(i as int).drop_first() =~= vals@.skip(i + 1));
                assert(vals@.skip(i as int)[0] == vals@[i as int]);
                assert(push_all(before, vals@.skip(i as int)) == match push_spec(before, vals@[i as int]) {
                    (v1, Ok(())) => push_all(v1, vals@.skip(i + 1)),
                    (v1, Err(e)) => (v1, Err(e)),
                });
            }
            match self.push(vals[i]) {
                Ok(()) => {},
                Err(e) => {
                    return Err(e);
                },
            }
            i = i + 1;
        }
        proof {
            assert(vals@.skip(5) =~= Seq::<u64>::empty());
        }
        Ok(())
    }
}

/// Index of the stack pointer sp (x2) among the registers.
pub const SP_INDEX: usize = 2;

/// Size in bytes of the guest stack.
pub const STACK_SIZE: usize = 0x8000;

/// Size in bytes of the allocation that holds the program name.
pub const PROGNAME_SIZE: usize = 0x1000;

/// What pushing `val` gives: sp moved down by 8 and the value written
/// there; when the write fails, nothing changes.
pub open spec fn push_spec(v: EmuView, val: u64) -> (EmuView, Result<(), MmuError>) {
    let sp = (reg_read(v.regs, SP_INDEX as int) - 8) as u64;
    match write_result(v.memory, sp as usize, val.spec_to_le()) {
        Ok(m) => (
            EmuView { regs: reg_write(v.regs, SP_INDEX as int, sp), memory: m, files: v.files },
            Ok(()),
        ),
        Err(e) => (v, Err(e)),
    }
}

/// What pushing `vals` in order gives, up to the first push that fails.
pub open spec fn push_all(v: EmuView, vals: Seq<u64>) -> (EmuView, Result<(), MmuError>)
    decreases vals.len(),
{
    if vals.len() == 0 {
        (v, Ok(()))
    } else {
        let (v1, r) = push_spec(v, vals[0]);
        match r {
            Ok(()) => push_all(v1, vals.drop_first()),
            Err(e) => (v1, Err(e)),
        }
    }
}

/// The words of the start frame, in the order in which they are pushed:
/// auxp, envp, the end of argv, argv[0], argc.
pub open spec fn start_frame_words(progname: usize) -> Seq<u64> {
    seq![0u64, 0u64, 0u64, progname as u64, 1u64]
}

/// What laying out the start frame gives (see `Emulator::setup_start_frame`):
/// the stack is allocated and sp set to its top, the name's allocation made
/// and the name written to it, then the words of the start frame pushed; the
/// first step that fails ends it with its error.
pub open spec fn start_frame_spec(v: EmuView, progname: Seq<u8>) -> (EmuView, Result<(), MmuError>) {
    let (m1, stack) = alloc_result(v.memory, STACK_SIZE);
    match stack {
        Err(e) => (EmuView { memory: m1, ..v }, Err(e)),
        Ok(stack) => {
            let regs1 = reg_write(v.regs, SP_INDEX as int, (stack.0 + STACK_SIZE) as u64);
            let (m2, name) = alloc_result(m1, PROGNAME_SIZE);
            match name {
                Err(e) => (EmuView { regs: regs1, memory: m2, files: v.files }, Err(e)),
                Ok(name) => match write_result(m2, name.0, progname) {
                    Err(e) => (EmuView { regs: regs1, memory: m2, files: v.files }, Err(e)),
                    Ok(m3) => push_all(
                        EmuView { regs: regs1, memory: m3, files: v.files },
                        start_frame_words(name.0),
                    ),
                },
            }
        },
    }
}

/// A push that succeeds moves sp down by 8, the eight bytes there then read
/// back as the value pushed, and no other register changes; one that fails
/// changes nothing.
pub proof fn lemma_push(v: EmuView, val: u64)
    requires
        v.regs.len() == 33,
        view_wf(v.memory),
        reg_read(v.regs, SP_INDEX as int) >= 8,
    ensures
        ({
            let (v2, r) = push_spec(v, val);
            let sp = v.regs[SP_INDEX as int] - 8;
            &&& r is Ok ==> v2.regs[SP_INDEX as int] == sp
            &&& r is Ok ==> read_result(v2.memory, sp as usize, 8, Perm(0)) == Ok::<
                Seq<u8>,
                MmuError,
            >(val.spec_to_le())
            &&& r is Ok ==> <u64 as Prim>::spec_from_le(val.spec_to_le()) == val
            &&& forall|i: int| 0 <= i < 33 && i != SP_INDEX ==> #[trigger] v2.regs[i] == v.regs[i]
            &&& r is Err ==> v2 == v
        }),
{
    let sp = (v.regs[SP_INDEX as int] - 8) as u64;
    <u64 as Prim>::lemma_le_roundtrip(val);
    if write_result(v.memory, sp as usize, val.spec_to_le()) is Ok {
        crate::mmu::lemma_read_after_write(v.memory, sp as usize, val.spec_to_le());
    }
}

/// The other memory errors: an access outside memory is an invalid access,
/// one whose end overflows the address space an address overflow.
pub proof fn lemma_range_exits(addr: VirtAddr, size: usize)
    ensures
        exit_of(MmuError::InvalidAddr(addr)) == EmuExit::InvalidAccess(addr, 0),
        exit_of(MmuError::AddressOverflow(addr, size)) == EmuExit::AddressOverflow(addr, size),
        !mmu_error_is_fatal(MmuError::InvalidAddr(addr)),
        !mmu_error_is_fatal(MmuError::AddressOverflow(addr, size)),
{
}

/// Reading a register back after writing it gives what was written, but for
/// x0, which reads as zero; every other register keeps its value.
pub proof fn lemma_reg_write_read(regs: Seq<u64>, r: int, other: int, val: u64)
    requires
        regs.len() == 33,
        0 <= r < 33,
        0 <= other < 33,
    ensures
        reg_read(reg_write(regs, r, val), r) == if r == 0 {
            0
        } else {
            val
        },
        other != r ==> reg_read(reg_write(regs, r, val), other) == reg_read(regs, other),
        reg_write(regs, r, val).len() == 33,
{
}

impl Emulator {
    /// Whether executing the next instruction is defined (see
    /// `step_defined`); `step` may be called exactly when it is.
    pub fn can_step(&self) -> (r: bool)
        requires
            self.wf(),
        ensures
            r == step_defined(self@.regs, self@.memory),
    {
        let pc: u64 = self.reg(Register::Pc);
        let instr: u32 = match self.memory.read::<u32>(VirtAddr(pc as usize)) {
            Ok(i) => i,
            Err(_) => {
                return true;
            },
        };
        is_supported(instr)
    }

    /// Run at most `max_steps` instructions (see `run_spec`); the emulator
    /// stops early at the first instruction that stops execution, or that it
    /// does not support.
    pub fn run(&mut self, max_steps: u64) -> (r: Option<Result<(), EmuExit>>)
        requires
            old(self).wf(),
        ensures
            final(self).wf(),
            final(self)@.files == old(self)@.files,
            final(self)@.regs == run_spec(old(self)@.regs, old(self)@.memory, max_steps as nat).0,
            final(self)@.memory == run_spec(old(self)@.regs, old(self)@.memory, max_steps as nat).1,
            r == run_spec(old(self)@.regs, old(self)@.memory, max_steps as nat).2,
    {
        let mut steps: u64 = 0;
        while steps < max_steps
            invariant
                self.wf(),
                steps <= max_steps,
                self@.files == old(self)@.files,
                run_spec(old(self)@.regs, old(self)@.memory, max_steps as nat) == run_spec(
                    self@.regs,
                    self@.memory,
                    (max_steps - steps) as nat,
                ),
            decreases max_steps - steps,
        {
            if !self.can_step() {
                return None;
            }
            match self.step() {
                Ok(()) => {},
                Err(e) => {
                    return Some(Err(e));
                },
            }
            steps = steps + 1;
        }
        Some(Ok(()))
    }

    /// Execute the instruction at the program counter.
    pub fn step(&mut self) -> (r: Result<(), EmuExit>)
        requires
            old(self).wf(),
            step_defined(old(self)@.regs, old(self)@.memory),
        ensures
            final(self).wf(),
            match step_spec(old(self)@.regs, old(self)@.memory) {
                Ok((regs, m)) => r is Ok && final(self)@ == (EmuView {
                    regs: regs,
                    memory: m,
                    files: old(self)@.files,
                }),
                Err(e) => r == Err::<(), EmuExit>(e) && final(self)@ == old(self)@,
            },
    {
        // Fetch program counter
        let pc: u64 = self.reg(Register::Pc);
        proof {
            lemma_access_error_not_fatal(self@.memory, pc as usize, 4, Seq::empty());
        }
        let instr: u32 = match self.memory.read::<u32>(VirtAddr(pc as usize)) {
            Ok(i) => i,
            Err(e) => {
                return Err(EmuExit::from(e));
            },
        };
        self.execute(instr, pc)
    }

    /// Execute the supported instruction `instr`, fetched from `pc`.
    #[verifier::rlimit(50)]
    fn execute(&mut self, instr: u32, pc: u64) -> (r: Result<(), EmuExit>)
        requires
            old(self).wf(),
            supported(instr),
            pc == old(self)@.regs[PC_INDEX as int],
        ensures
            final(self).wf(),
            match execute_spec(old(self)@.regs, old(self)@.memory, instr) {
                Ok((regs, m)) => r is Ok && final(self)@ == (EmuView {
                    regs: regs,
                    memory: m,
                    files: old(self)@.files,
                }),
                Err(e) => r == Err::<(), EmuExit>(e) && final(self)@ == old(self)@,
            },
    {
        let ghost regs0 = self@.regs;
        let opcode: u32 = instr & 0b1111111;
        proof {
            lemma_wrapping(pc, 4);
            crate::isa::lemma_register_fields(instr);
        }
        match opcode {
            0b0110111 => {
                // LUI
                let utype = Utype::from(instr);
                let imm: u64 = utype.imm as i64 as u64;
                self.set_reg(utype.rd, imm);
            },
            0b0010111 => {
                // AUIPC
                let utype = Utype::from(instr);
                let imm: u64 = utype.imm as i64 as u64;
                proof {
                    lemma_wrapping(pc, imm);
                }
                self.set_reg(utype.rd, pc.wrapping_add(imm));
            },
            0b1101111 => {
                // JAL
                let jtype = Jtype::from(instr);
                let imm: u64 = jtype.imm as i64 as u64;
                proof {
                    lemma_wrapping(pc, imm);
                }
                self.set_reg(jtype.rd, pc.wrapping_add(4));
                self.set_reg(Register::Pc, pc.wrapping_add(imm));
                return Ok(());
            },
            0b1100111 => {
                // JALR (funct3 is 0)
                let itype = Itype::from(instr);
                let imm: u64 = itype.imm as i64 as u64;
                let rs1_val: u64 = self.reg(itype.rs1);
                proof {
                    lemma_wrapping(rs1_val, imm);
                }
                let target: u64 = rs1_val.wrapping_add(imm);
                self.set_reg(itype.rd, pc.wrapping_add(4));
                self.set_reg(Register::Pc, target);
                return Ok(());
            },
            0b1100011 => {
                // Branch instructions
                let btype = Btype::from(instr);
                let imm: u64 = btype.imm as i64 as u64;
                let rs1_val: u64 = self.reg(btype.rs1);
                let rs2_val: u64 = self.reg(btype.rs2);
                if take_branch(btype.funct3, rs1_val, rs2_val) {
                    proof {
                        lemma_wrapping(pc, imm);
                    }
                    self.set_reg(Register::Pc, pc.wrapping_add(imm));
                    return Ok(());
                }
            },
            0b0000011 => {
                // Load instructions
                let itype = Itype::from(instr);
                let imm: u64 = itype.imm as i64 as u64;
                let rs1_val: u64 = self.reg(itype.rs1);
                proof {
                    lemma_wrapping(rs1_val, imm);
                }
                let addr: VirtAddr = VirtAddr(rs1_val.wrapping_add(imm) as usize);
                let funct3: u32 = itype.funct3;
                let val: u64 = match self.load(addr, funct3) {
                    Ok(v) => v,
                    Err(e) => {
                        return Err(e);
                    },
                };
                self.set_reg(itype.rd, val);
            },
            0b0100011 => {
                // Store instructions
                let stype = Stype::from(instr);
                let imm: u64 = stype.imm as i64 as u64;
                let rs1_val: u64 = self.reg(stype.rs1);
                let rs2_val: u64 = self.reg(stype.rs2);
                proof {
                    lemma_wrapping(rs1_val, imm);
                    lemma_access_error_not_fatal(
                        self@.memory,
                        add64(rs1_val, imm) as usize,
                        0,
                        store_bytes(stype.funct3, rs2_val),
                    );
                }
                let addr: VirtAddr = VirtAddr(rs1_val.wrapping_add(imm) as usize);
                let res = match stype.funct3 {
                    /* SB */ 0b000 => self.memory.write(addr, rs2_val as u8),
                    /* SH */ 0b001 => self.memory.write(addr, rs2_val as u16),
                    /* SW */ 0b010 => self.memory.write(addr, rs2_val as u32),
                    /* SD */ _ => self.memory.write(addr, rs2_val),
                };
                if let Err(e) = res {
                    return Err(EmuExit::from(e));
                }
            },
            0b0010011 => {
                // ALU instructions
                let itype = Itype::from(instr);
                let imm: u64 = itype.imm as i64 as u64;
                let rs1_val: u64 = self.reg(itype.rs1);
                let val: u64 = alu_imm_value(itype.funct3, rs1_val, imm);
                self.set_reg(itype.rd, val);
            },
            0b0110011 => {
                // R-type instructions
                let rtype = Rtype::from(instr);
                let rs1_val: u64 = self.reg(rtype.rs1);
                let rs2_val: u64 = self.reg(rtype.rs2);
                let val: u64 = alu_reg_value(rtype.funct3, rtype.funct7, rs1_val, rs2_val);
                self.set_reg(rtype.rd, val);
            },
            0b0011011 => {
                // I-type 32-bit instructions
                let itype = Itype::from(instr);
                let imm: u64 = itype.imm as i64 as u64;
                let rs1_val: u64 = self.reg(itype.rs1);
                let val: u64 = alu_imm_w_value(itype.funct3, rs1_val, imm);
                self.set_reg(itype.rd, val);
            },
            0b0111011 => {
                // R-type 32-bit instructions
                let rtype = Rtype::from(instr);
                let rs1_val: u64 = self.reg(rtype.rs1);
                let rs2_val: u64 = self.reg(rtype.rs2);
                let val: u64 = alu_reg_w_value(rtype.funct3, rtype.funct7, rs1_val, rs2_val);
                self.set_reg(rtype.rd, val);
            },
            0b0001111 => {
                // FENCE (pred and succ are 0): nothing to order
            },
            _ => {
                // ECALL, the only instruction left that is supported
                return Err(EmuExit::Syscall);
            },
        }
        // Increment program counter
        self.set_reg(Register::Pc, pc.wrapping_add(4));
        Ok(())
    }

    /// The value of the load with minor opcode `funct3` at `addr`.
    fn load(&self, addr: VirtAddr, funct3: u32) -> (r: Result<u64, EmuExit>)
        requires
            self.wf(),
            funct3 < 7,
        ensures
            match read_result(
                self@.memory,
                addr.0,
                load_size(funct3),
                Perm(PermBit::Read.spec_bits()),
            ) {
                Ok(bytes) => r == Ok::<u64, EmuExit>(load_value(funct3, bytes)),
                Err(e) => r == Err::<u64, EmuExit>(exit_of(e)),
            },
    {
        proof {
            lemma_access_error_not_fatal(self@.memory, addr.0, load_size(funct3), Seq::empty());
        }
        let res: Result<u64, MmuError> = match funct3 {
            /* LB */ 0b000 => match self.memory.read::<i8>(addr) {
                Ok(v) => Ok(v as u64),
                Err(e) => Err(e),
            },
            /* LH */ 0b001 => match self.memory.read::<i16>(addr) {
                Ok(v) => Ok(v as u64),
                Err(e) => Err(e),
            },
            /* LW */ 0b010 => match self.memory.read::<i32>(addr) {
                Ok(v) => Ok(v as u64),
                Err(e) => Err(e),
            },
            /* LD */ 0b011 => match self.memory.read::<i64>(addr) {
                Ok(v) => Ok(v as u64),
                Err(e) => Err(e),
            },
            /* LBU */ 0b100 => match self.memory.read::<u8>(addr) {
                Ok(v) => Ok(v as u64),
                Err(e) => Err(e),
            },
            /* LHU */ 0b101 => match self.memory.read::<u16>(addr) {
                Ok(v) => Ok(v as u64),
                Err(e) => Err(e),
            },
            /* LWU */ _ => match self.memory.read::<u32>(addr) {
                Ok(v) => Ok(v as u64),
                Err(e) => Err(e),
            },
        };
        match res {
            Ok(v) => {
                proof {
                    let bytes = read_result(
                        self@.memory,
                        addr.0,
                        load_size(funct3),
                        Perm(PermBit::Read.spec_bits()),
                    )->Ok_0;
                    lemma_load_casts(
                        bytes[0],
                        <u16 as Prim>::spec_from_le(bytes),
                        <u32 as Prim>::spec_from_le(bytes),
                        <u64 as Prim>::spec_from_le(bytes),
                    );
                }
                Ok(v)
            },
            Err(e) => Err(EmuExit::from(e)),
        }
    }
}

impl Emulator {
    /// Load one segment of `contents` into memory.
    fn load_segment(&mut self, contents: &[u8], seg: Segment) -> (r: Result<(), EmuExit>)
        requires
            old(self).wf(),
            file_range_ok(seg, contents@.len()),
        ensures
            final(self).wf(),
            final(self)@.regs == old(self)@.regs,
            final(self)@.files == old(self)@.files,
            final(self)@.memory == load_segment(old(self)@.memory, contents@, seg).0,
            match load_segment(old(self)@.memory, contents@, seg).1 {
                None => r is Ok,
                Some(msg) => r matches Err(EmuExit::LoadError(s)) && s@ == msg,
            },
    {
        // Only load LOAD segments
        if seg.p_type != PT_LOAD {
            return Ok(());
        }
        let file_offset: usize = seg.p_offset as usize;
        let virt_addr: VirtAddr = VirtAddr(seg.p_vaddr as usize);
        let file_size: usize = seg.p_filesz as usize;
        let mem_size: usize = seg.p_memsz as usize;
        let perms: u8 = seg.p_flags as u8;
        proof {
            self.memory.lemma_view_wf();
        }
        // Make the segment writable
        if self.memory.set_perms(virt_addr, mem_size, Perm(PermBit::Write.bits())).is_err() {
            return Err(EmuExit::LoadError("Failed to set permissions on memory.".to_owned()));
        }
        // Write from file to memory
        let file_end: usize = match file_offset.checked_add(file_size) {
            Some(e) => e,
            None => {
                return Err(EmuExit::LoadError("File offsets caused addr overflow".to_owned()));
            },
        };
        let bytes: &[u8] = vstd::slice::slice_subrange(contents, file_offset, file_end);
        if self.memory.write_from(virt_addr, bytes).is_err() {
            return Err(EmuExit::LoadError("Failed to write from file to memory".to_owned()));
        }
        // Write 0 padding if necessary
        if file_size < mem_size {
            let pad_addr: usize = match virt_addr.0.checked_add(file_size) {
                Some(a) => a,
                None => {
                    return Err(EmuExit::LoadError("File offsets caused addr overflow".to_owned()));
                },
            };
            let pad_size: usize = mem_size - file_size;
            let zeros: Vec<u8> = vec![0u8; pad_size];
            assert(zeros@ =~= Seq::new((mem_size - file_size) as nat, |i: int| 0u8));
            if self.memory.write_from(VirtAddr(pad_addr), zeros.as_slice()).is_err() {
                return Err(EmuExit::LoadError("Failed to write padding to memory".to_owned()));
            }
        }
        // Set appropriate permissions
        if self.memory.set_perms(virt_addr, mem_size, Perm(perms)).is_err() {
            return Err(EmuExit::LoadError("Failed to set permissions on memory.".to_owned()));
        }
        proof {
            self.memory.lemma_view_wf();
        }
        // Move allocator beyond loaded sections
        let padded: usize = mem_size + 0xFFF;
        let end: usize = match virt_addr.0.checked_add(padded) {
            Some(e) => e,
            None => {
                return Err(EmuExit::LoadError("File offsets caused addr overflow".to_owned()));
            },
        };
        let top: usize = end & !0xFFFusize;
        assert(top == end / 4096 * 4096) by (bit_vector)
            requires
                top == end & !0xFFFusize,
        ;
        let base: usize = self.memory.alloc_base().0;
        self.memory.set_alloc_base(VirtAddr(if base >= top { base } else { top }));
        Ok(())
    }

    /// Load the segments of the ELF file `contents` into memory; the entry
    /// point on success.
    pub fn load_segments(&mut self, contents: &[u8], entry: u64, segments: &[Segment]) -> (r:
        Result<VirtAddr, EmuExit>)
        requires
            old(self).wf(),
            forall|i: int|
                0 <= i < segments@.len() ==> file_range_ok(#[trigger] segments@[i], contents@.len()),
        ensures
            final(self).wf(),
            final(self)@.regs == old(self)@.regs,
            final(self)@.files == old(self)@.files,
            final(self)@.memory == load_all(old(self)@.memory, contents@, segments@).0,
            load_outcome(r, entry, load_all(old(self)@.memory, contents@, segments@).1),
    {
        let ghost v0 = self@;
        assert(segments@.subrange(0, segments@.len() as int) =~= segments@);
        let mut i: usize = 0;
        while i < segments.len()
            invariant
                self.wf(),
                i <= segments@.len(),
                self@.regs == v0.regs,
                self@.files == v0.files,
                v0 == old(self)@,
                forall|j: int|
                    0 <= j < segments@.len() ==> file_range_ok(#[trigger] segments@[j], contents@.len()),
                load_all(v0.memory, contents@, segments@) == load_all(
                    self@.memory,
                    contents@,
                    segments@.subrange(i as int, segments@.len() as int),
                ),
            decreases segments@.len() - i,
        {
            let seg: Segment = segments[i];
            let ghost rest = segments@.subrange(i as int, segments@.len() as int);
            assert(rest[0] == seg);
            assert(rest.drop_first() =~= segments@.subrange(i + 1, segments@.len() as int));
            let ghost before = self@;
            match self.load_segment(contents, seg) {
                Ok(()) => {},
                Err(e) => {
                    assert(load_all(before.memory, contents@, rest) == load_segment(
                        before.memory,
                        contents@,
                        seg,
                    ));
                    return Err(e);
                },
            }
            i = i + 1;
        }
        assert(segments@.subrange(i as int, segments@.len() as int) =~= Seq::<Segment>::empty());
        Ok(VirtAddr(entry as usize))
    }

    /// Load the ELF program in `contents` into memory, returning its entry
    /// point. `None` when the file has no program header table, or a
    /// segment to load reaches past the end of the file.
    pub fn load_image(&mut self, contents: &[u8]) -> (r: Option<Result<VirtAddr, EmuExit>>)
        requires
            old(self).wf(),
        ensures
            final(self).wf(),
            final(self)@.regs == old(self)@.regs,
            final(self)@.files == old(self)@.files,
            match elf_layout(contents@) {
                None => final(self)@ == old(self)@ && (r matches Some(Err(EmuExit::LoadError(s)))
                    && s@ == msg_parse()),
                Some((entry, None)) => final(self)@ == old(self)@ && r is None,
                Some((entry, Some(headers))) => {
                    let segs = segments_of(headers);
                    if segments_fit(segs, contents@.len()) {
                        &&& r matches Some(res)
                        &&& final(self)@.memory == load_all(old(self)@.memory, contents@, segs).0
                        &&& load_outcome(res, entry, load_all(old(self)@.memory, contents@, segs).1)
                    } else {
                        final(self)@ == old(self)@ && r is None
                    }
                },
            },
    {
        let (entry, headers) = match parse_elf(contents) {
            Some(p) => p,
            None => {
                return Some(Err(EmuExit::LoadError("Failed to parse ELF file.".to_owned())));
            },
        };
        let headers = match headers {
            Some(h) => h,
            None => {
                return None;
            },
        };
        let ghost segs = segments_of(headers@);
        let mut segments: Vec<Segment> = Vec::new();
        let mut i: usize = 0;
        while i < headers.len()
            invariant
                self.wf(),
                self@ == old(self)@,
                elf_layout(contents@) == Some((entry, Some(headers@))),
                i <= headers@.len(),
                segs == segments_of(headers@),
                segments@ == segs.subrange(0, i as int),
                forall|j: int| 0 <= j < i ==> file_range_ok(#[trigger] segs[j], contents@.len()),
            decreases headers@.len() - i,
        {
            let h = headers[i];
            let seg = Segment {
                p_type: h.0,
                p_offset: h.1,
                p_vaddr: h.2,
                p_filesz: h.3,
                p_memsz: h.4,
                p_flags: h.5,
            };
            assert(seg == segs[i as int]);
            // A segment to load must lie within the file
            if seg.p_type == PT_LOAD {
                if let Some(end) = (seg.p_offset as usize).checked_add(seg.p_filesz as usize) {
                    if end > contents.len() {
                        assert(!file_range_ok(segs[i as int], contents@.len()));
                        return None;
                    }
                }
            }
            segments.push(seg);
            assert(segments@ =~= segs.subrange(0, i + 1));
            i = i + 1;
        }
        assert(segments@ =~= segs);
        Some(self.load_segments(contents, entry, segments.as_slice()))
    }
}


impl Emulator {
    /// The bytes that the first `count` entries of the I/O vector at `iov`
    /// point to, concatenated; `None` when one cannot be read.
    fn writev_bytes(&self, iov: usize, count: usize) -> (r: Option<Vec<u8>>)
        requires
            self.wf(),
        ensures
            match writev_data(self@.memory, iov, count as nat) {
                Some(d) => r is Some && r->Some_0@ == d,
                None => r is None,
            },
    {
        let mut data: Vec<u8> = Vec::new();
        let mut i: usize = 0;
        while i < count
            invariant
                self.wf(),
                i <= count,
                writev_data(self@.memory, iov, i as nat) == Some(data@),
                forall|j: nat| j <= i ==> (#[trigger] writev_data(self@.memory, iov, j)) is Some,
            decreases count - i,
        {
            let ptr: usize = match i.checked_mul(16) {
                Some(off) => match iov.checked_add(off) {
                    Some(p) => p,
                    None => {
                        proof {
                            lemma_writev_stops(self@.memory, iov, (i + 1) as nat, count as nat);
                        }
                        return None;
                    },
                },
                None => {
                    proof {
                        lemma_writev_stops(self@.memory, iov, (i + 1) as nat, count as nat);
                    }
                    return None;
                },
            };
            let len_ptr: usize = match ptr.checked_add(8) {
                Some(p) => p,
                None => {
                    proof {
                        lemma_writev_stops(self@.memory, iov, (i + 1) as nat, count as nat);
                    }
                    return None;
                },
            };
            let buf: u64 = match self.memory.read::<u64>(VirtAddr(ptr)) {
                Ok(b) => b,
                Err(_) => {
                    proof {
                        lemma_writev_stops(self@.memory, iov, (i + 1) as nat, count as nat);
                    }
                    return None;
                },
            };
            let len: u64 = match self.memory.read::<u64>(VirtAddr(len_ptr)) {
                Ok(l) => l,
                Err(_) => {
                    proof {
                        lemma_writev_stops(self@.memory, iov, (i + 1) as nat, count as nat);
                    }
                    return None;
                },
            };
            let chunk: Vec<u8> = match self.memory.peek(
                VirtAddr(buf as usize),
                len as usize,
                Perm(PermBit::Read.bits()),
            ) {
                Ok(c) => c,
                Err(_) => {
                    proof {
                        lemma_writev_stops(self@.memory, iov, (i + 1) as nat, count as nat);
                    }
                    return None;
                },
            };
            data.extend_from_slice(chunk.as_slice());
            assert(writev_data(self@.memory, iov, (i + 1) as nat) == Some(data@));
            i = i + 1;
        }
        Some(data)
    }

    /// Whether handling the system call is defined (see `sys_defined`);
    /// `handle_sys` may be called exactly when it is.
    pub fn can_handle_sys(&self) -> (r: bool)
        requires
            self.wf(),
        ensures
            r == sys_defined(self@),
    {
        let n: u64 = self.reg(Register::A7);
        let a0: u64 = self.reg(Register::A0);
        if n == 66 {
            let fd: i32 = a0 as i32;
            if fd != 1 && fd != 2 {
                return false;
            }
            let iov: usize = self.reg(Register::A1) as usize;
            let count: usize = self.reg(Register::A2) as usize;
            return self.writev_bytes(iov, count).is_some();
        }
        if n == 63 && a0 as usize == 0 && self.files.len() > 0 {
            if let Some(file) = &self.files[0] {
                let data_len: usize = match &file.data {
                    Some(d) => d.len(),
                    None => {
                        return false;
                    },
                };
                let cursor: usize = match file.offset {
                    Some(c) => c,
                    None => 0,
                };
                let count: usize = self.reg(Register::A2) as usize;
                let wanted: usize = cursor.saturating_add(count);
                let end: usize = if wanted < data_len {
                    wanted
                } else {
                    data_len
                };
                return cursor <= end;
            }
        }
        true
    }
}

/// Handle the system call at which the emulator stopped. What writev writes
/// to standard output is appended to `out`.
pub fn handle_sys(emu: &mut Emulator, out: &mut Vec<u8>) -> (r: Result<(), EmuExit>)
    requires
        old(emu).wf(),
        sys_defined(old(emu)@),
    ensures
        final(emu).wf(),
        final(emu)@ == sys_spec(old(emu)@).0,
        final(out)@ == old(out)@ + sys_spec(old(emu)@).1,
        sys_outcome(r, sys_spec(old(emu)@).2),
{
    let pc: u64 = emu.reg(Register::Pc);
    let syscall: u64 = emu.reg(Register::A7);
    proof {
        lemma_wrapping(pc, 4);
    }
    if syscall == 96 {
        // set_tid_address
        emu.set_reg(Register::A0, 1337);
    } else if syscall == 29 {
        // ioctl
        emu.set_reg(Register::A0, !0u64);
        assert(!0u64 == u64::MAX) by (bit_vector);
    } else if syscall == 66 {
        // writev: only stdout and stderr are supported
        let iov: usize = emu.reg(Register::A1) as usize;
        let iovcnt: usize = emu.reg(Register::A2) as usize;
        let data: Vec<u8> = match emu.writev_bytes(iov, iovcnt) {
            Some(d) => d,
            None => {
                return Ok(());
            },
        };
        out.extend_from_slice(data.as_slice());
        let total_written: usize = data.len();
        emu.set_reg(Register::A0, total_written as u64);
    } else if syscall == 63 {
        // read
        let fd: usize = emu.reg(Register::A0) as usize;
        let buf: usize = emu.reg(Register::A1) as usize;
        let count: usize = emu.reg(Register::A2) as usize;
        if fd != 0 {
            // Only stdin is supported
            return Err(
                EmuExit::SyscallError(prefixed_decimal("Invalid file descriptor: ", fd as u64)),
            );
        }
        if emu.files.len() == 0 {
            return Err(
                EmuExit::SyscallError(prefixed_decimal("Invalid file descriptor: ", fd as u64)),
            );
        }
        let mut cursor: usize = 0;
        let mut cursor_end: usize = 0;
        let res = match &emu.files[fd] {
            Some(file) => {
                let data: &Vec<u8> = match &file.data {
                    Some(d) => d,
                    None => {
                        return Ok(());
                    },
                };
                cursor = match file.offset {
                    Some(c) => c,
                    None => 0,
                };
                let wanted: usize = cursor.saturating_add(count);
                cursor_end = if wanted < data.len() {
                    wanted
                } else {
                    data.len()
                };
                // Write data from the stdin file to buf
                let bytes: &[u8] = vstd::slice::slice_subrange(data.as_slice(), cursor, cursor_end);
                emu.memory.write_from(VirtAddr(buf), bytes)
            },
            None => {
                return Err(
                    EmuExit::SyscallError(
                        prefixed_decimal("Invalid file descriptor: ", fd as u64),
                    ),
                );
            },
        };
        if res.is_err() {
            return Err(EmuExit::SyscallError("Failed to write data".to_owned()));
        }
        // Move the cursor past the bytes read
        let ghost files0 = emu@.files;
        let mut slot: Option<File> = None;
        emu.files.set_and_swap(0, &mut slot);
        let updated: Option<File> = match slot {
            Some(f) => Some(File { file_type: f.file_type, data: f.data, offset: Some(cursor_end) }),
            None => None,
        };
        emu.files.set(0, updated);
        assert(emu@.files =~= files0.update(
            0,
            Some(FileView { offset: Some(cursor_end), ..files0[0]->Some_0 }),
        ));
        emu.set_reg(Register::A0, (cursor_end - cursor) as u64);
    } else if syscall == 93 || syscall == 94 {
        // exit, exit_group
        return Err(EmuExit::Exit);
    } else {
        return Err(
            EmuExit::SyscallError(prefixed_decimal("Unimplemented syscall: ", syscall)),
        );
    }
    emu.set_reg(Register::Pc, pc.wrapping_add(4));
    Ok(())
}

} // verus!
