use nightcrawler::emu::{EmuExit, Emulator, FileType};
use nightcrawler::isa::Register;
use nightcrawler::mmu::{MmuError, Perm, PermBit, VirtAddr};

const CODE: usize = 0x1000;
const DATA: usize = 0x3000;

fn setup(code: &[u32]) -> Emulator {
    let mut emu = Emulator::new(0x20000);
    let rwx = PermBit::Read.bits() | PermBit::Write.bits() | PermBit::Execute.bits();
    emu.memory.set_perms(VirtAddr(CODE), 0x1000, Perm(rwx)).unwrap();
    for (i, inst) in code.iter().enumerate() {
        emu.memory.write(VirtAddr(CODE + 4 * i), *inst).unwrap();
    }
    emu.memory
        .set_perms(VirtAddr(DATA), 0x100, Perm(PermBit::Read.bits() | PermBit::Write.bits()))
        .unwrap();
    emu.set_reg(Register::Pc, CODE as u64);
    emu
}

fn run_steps(emu: &mut Emulator, n: usize) {
    for _ in 0..n {
        assert!(emu.can_step());
        emu.step().unwrap();
    }
}

#[test]
fn new_emulator_is_zeroed() {
    let emu = Emulator::new(0x100);
    assert_eq!(emu.reg(Register::Pc), 0);
    assert_eq!(emu.reg(Register::Sp), 0);
    assert_eq!(emu.files.len(), 0);
}

#[test]
fn zero_register_ignores_writes() {
    let mut emu = Emulator::new(0x100);
    emu.set_reg(Register::Zero, 7);
    assert_eq!(emu.reg(Register::Zero), 0);
    emu.set_reg(Register::A0, 7);
    assert_eq!(emu.reg(Register::A0), 7);
    assert_eq!(Register::from(10), Register::A0);
    assert_eq!(Register::Pc.index(), 32);
}

#[test]
fn addi_and_negative_immediate() {
    // addi x1, x0, 5; addi x2, x1, -1
    let mut emu = setup(&[0x00500093, 0xfff08113]);
    run_steps(&mut emu, 2);
    assert_eq!(emu.reg(Register::Ra), 5);
    assert_eq!(emu.reg(Register::Sp), 4);
    assert_eq!(emu.reg(Register::Pc), (CODE + 8) as u64);
}

#[test]
fn lui_and_auipc() {
    // lui x3, 0x12345; auipc x4, 1; lui x5, 0x80000
    let mut emu = setup(&[0x123451b7, 0x00001217, 0x800002b7]);
    run_steps(&mut emu, 3);
    assert_eq!(emu.reg(Register::Gp), 0x12345000);
    assert_eq!(emu.reg(Register::Tp), (CODE + 4 + 0x1000) as u64);
    // Sign-extended to 64 bits
    assert_eq!(emu.reg(Register::T0), 0xffff_ffff_8000_0000);
}

#[test]
fn jal_and_branch() {
    // jal x1, +8; (skipped); beq x0, x0, +12
    let mut emu = setup(&[0x008000ef, 0x00000013, 0x00000663]);
    run_steps(&mut emu, 1);
    assert_eq!(emu.reg(Register::Ra), (CODE + 4) as u64);
    assert_eq!(emu.reg(Register::Pc), (CODE + 8) as u64);
    run_steps(&mut emu, 1);
    assert_eq!(emu.reg(Register::Pc), (CODE + 20) as u64);
}

#[test]
fn jalr_jumps_to_register_plus_offset() {
    // jalr x1, 4(x2)
    let mut emu = setup(&[0x004100e7]);
    emu.set_reg(Register::Sp, 0x2000);
    run_steps(&mut emu, 1);
    assert_eq!(emu.reg(Register::Pc), 0x2004);
    assert_eq!(emu.reg(Register::Ra), (CODE + 4) as u64);
}

#[test]
fn store_then_load() {
    // sd x1, 0(x2); ld x5, 0(x2); lb x6, 0(x2); lbu x7, 0(x2)
    let mut emu = setup(&[0x00113023, 0x00013283, 0x00010303, 0x00014383]);
    emu.set_reg(Register::Ra, 0x1122_3344_5566_77f8);
    emu.set_reg(Register::Sp, DATA as u64);
    run_steps(&mut emu, 4);
    assert_eq!(emu.reg(Register::T0), 0x1122_3344_5566_77f8);
    assert_eq!(emu.reg(Register::T1), 0xffff_ffff_ffff_fff8);
    assert_eq!(emu.reg(Register::T2), 0xf8);
    assert_eq!(emu.memory.read::<u64>(VirtAddr(DATA)), Ok(0x1122_3344_5566_77f8));
}

#[test]
fn arithmetic_shifts_and_compares() {
    // sub x6, x0, x1; srai x7, x6, 1; slt x8, x6, x0; addiw x9, x0, -1
    let mut emu = setup(&[0x40100333, 0x40135393, 0x00032433, 0xfff0049b]);
    emu.set_reg(Register::Ra, 6);
    run_steps(&mut emu, 4);
    assert_eq!(emu.reg(Register::T1), (-6i64) as u64);
    assert_eq!(emu.reg(Register::T2), (-3i64) as u64);
    assert_eq!(emu.reg(Register::S0), 1);
    assert_eq!(emu.reg(Register::S1), u64::MAX);
}

#[test]
fn ecall_stops_with_syscall() {
    let mut emu = setup(&[0x00000073]);
    assert!(emu.can_step());
    assert!(matches!(emu.step(), Err(EmuExit::Syscall)));
    // The program counter stays on the ECALL
    assert_eq!(emu.reg(Register::Pc), CODE as u64);
}

#[test]
fn unsupported_instructions_are_reported() {
    assert!(!setup(&[0x00000000]).can_step());
    // SYSTEM with minor opcode 1
    assert!(!setup(&[0x00001073]).can_step());
    // The SYSTEM opcode with minor opcode 0 stops with a syscall, EBREAK too
    let mut emu = setup(&[0x00100073]);
    assert!(emu.can_step());
    assert!(matches!(emu.step(), Err(EmuExit::Syscall)));
    // FENCE with a predecessor set
    assert!(!setup(&[0x0100000f]).can_step());
    // FENCE with none
    assert!(setup(&[0x0000000f]).can_step());
}

#[test]
fn memory_faults_become_exits() {
    // Fetch from memory with no permissions: a byte never initialized
    let mut emu = Emulator::new(0x20000);
    emu.set_reg(Register::Pc, 0x100);
    assert!(emu.can_step());
    assert!(matches!(emu.step(), Err(EmuExit::UninitFault(VirtAddr(0x100)))));

    // Fetch from memory that is executable only
    let mut emu = Emulator::new(0x20000);
    emu.memory.set_perms(VirtAddr(0x100), 4, Perm(PermBit::Execute.bits())).unwrap();
    emu.set_reg(Register::Pc, 0x100);
    assert!(matches!(emu.step(), Err(EmuExit::ReadFault(VirtAddr(0x100)))));

    // Store to read-only memory
    let mut emu = setup(&[0x00113023]);
    emu.memory.set_perms(VirtAddr(DATA), 8, Perm(PermBit::Read.bits())).unwrap();
    emu.set_reg(Register::Sp, DATA as u64);
    assert!(matches!(emu.step(), Err(EmuExit::WriteFault(VirtAddr(DATA)))));
    assert_eq!(emu.reg(Register::Pc), CODE as u64);

    // Load from write-only memory
    let mut emu = setup(&[0x00013283]);
    emu.memory.set_perms(VirtAddr(DATA), 8, Perm(PermBit::Write.bits())).unwrap();
    emu.set_reg(Register::Sp, DATA as u64);
    assert!(matches!(emu.step(), Err(EmuExit::ReadFault(VirtAddr(DATA)))));

    // Load from uninitialized memory
    let mut emu = setup(&[0x00013283]);
    let heap = emu.memory.allocate(8).unwrap();
    emu.set_reg(Register::Sp, heap.0 as u64);
    assert!(matches!(emu.step(), Err(EmuExit::UninitFault(a)) if a == heap));

    // Load past the end of memory
    let mut emu = setup(&[0x00013283]);
    emu.set_reg(Register::Sp, 0x1fffc);
    assert!(matches!(emu.step(), Err(EmuExit::InvalidAccess(VirtAddr(0x1fffc), 0))));
}

#[test]
fn exit_of_memory_errors() {
    assert!(matches!(
        EmuExit::from(MmuError::InvalidAddr(VirtAddr(3))),
        EmuExit::InvalidAccess(VirtAddr(3), 0)
    ));
    assert!(matches!(
        EmuExit::from(MmuError::AddressOverflow(VirtAddr(3), 9)),
        EmuExit::AddressOverflow(VirtAddr(3), 9)
    ));
    assert!(matches!(
        EmuExit::from(MmuError::InvalidPerms(Perm(0b1010), VirtAddr(3), 1, Perm(4))),
        EmuExit::UninitFault(VirtAddr(3))
    ));
    assert!(matches!(
        EmuExit::from(MmuError::InvalidPerms(Perm(2), VirtAddr(3), 1, Perm(4))),
        EmuExit::ReadFault(VirtAddr(3))
    ));
    assert!(matches!(
        EmuExit::from(MmuError::InvalidPerms(Perm(4), VirtAddr(3), 1, Perm(2))),
        EmuExit::WriteFault(VirtAddr(3))
    ));
    // A byte with no permission at all has never been initialized
    assert!(matches!(
        EmuExit::from(MmuError::InvalidPerms(Perm(0), VirtAddr(3), 1, Perm(4))),
        EmuExit::UninitFault(VirtAddr(3))
    ));
    assert!(matches!(
        EmuExit::from(MmuError::InvalidPerms(Perm(0), VirtAddr(3), 1, Perm(2))),
        EmuExit::UninitFault(VirtAddr(3))
    ));
}

/// Run `code` (followed by an ECALL) from address 0 of a small emulator,
/// with `a0` set, until the ECALL; returns the emulator.
fn run_to_ecall(code: &[u8], a0: u64) -> Emulator {
    let mut emu = Emulator::new(0x100);
    let len = code.len() + 4;
    emu.memory.set_perms(VirtAddr(0), len, Perm(PermBit::Write.bits())).unwrap();
    emu.memory.write_from(VirtAddr(0), code).unwrap();
    emu.memory.write_from(VirtAddr(code.len()), &[0x73, 0, 0, 0]).unwrap();
    emu.memory.set_perms(VirtAddr(0), len, Perm(PermBit::Read.bits())).unwrap();
    emu.set_reg(Register::A0, a0);
    assert!(matches!(emu.run(100), Some(Err(EmuExit::Syscall))));
    assert_eq!(emu.reg(Register::Pc), code.len() as u64);
    emu
}

#[test]
fn sraiw_shifts_the_low_word_arithmetically() {
    // sraiw a0, a0, 1
    let emu = run_to_ecall(&[0x1B, 0x55, 0x15, 0x40], 0x8000_0000);
    assert_eq!(emu.reg(Register::A0), 0xFFFF_FFFF_C000_0000);
    // The upper word of the source is ignored
    let emu = run_to_ecall(&[0x1B, 0x55, 0x15, 0x40], 0x1234_5678_0000_0010);
    assert_eq!(emu.reg(Register::A0), 8);
}

#[test]
fn slliw_and_srliw_sign_extend_the_low_word() {
    // slliw a0, a0, 1
    let emu = run_to_ecall(&[0x1B, 0x15, 0x15, 0x00], 0x4000_0000);
    assert_eq!(emu.reg(Register::A0), 0xFFFF_FFFF_8000_0000);
    // srliw a0, a0, 0: the low word, sign-extended
    let emu = run_to_ecall(&[0x1B, 0x55, 0x05, 0x00], 0x1_8000_0000);
    assert_eq!(emu.reg(Register::A0), 0xFFFF_FFFF_8000_0000);
    // srliw a0, a0, 4: zeros shift in at bit 31
    let emu = run_to_ecall(&[0x1B, 0x55, 0x45, 0x00], 0xFFFF_FFFF_8000_0000);
    assert_eq!(emu.reg(Register::A0), 0x0800_0000);
}

#[test]
fn sllw_and_srlw_sign_extend_the_low_word() {
    // addi a1, x0, 1; sllw a0, a0, a1
    let emu = run_to_ecall(&[0x93, 0x05, 0x10, 0x00, 0x3B, 0x15, 0xB5, 0x00], 0x4000_0000);
    assert_eq!(emu.reg(Register::A0), 0xFFFF_FFFF_8000_0000);
    // addi a1, x0, 4; srlw a0, a0, a1
    let emu = run_to_ecall(&[0x93, 0x05, 0x40, 0x00, 0x3B, 0x55, 0xB5, 0x00], 0x1_0000_0010);
    assert_eq!(emu.reg(Register::A0), 1);
}

#[test]
fn files_fork_and_reset() {
    let mut emu = Emulator::new(0x20000);
    let fd = emu.new_file(FileType::FuzzInput);
    assert_eq!(fd, 0);
    match &emu.files[0] {
        Some(f) => {
            assert_eq!(f.data.as_ref().map(|d| d.len()), Some(0));
            assert_eq!(f.offset, Some(0));
        }
        None => panic!("no file"),
    }
    emu.set_reg(Register::A0, 3);
    let mut fork = emu.fork();
    assert_eq!(fork.reg(Register::A0), 3);
    assert_eq!(fork.files.len(), 1);
    fork.set_reg(Register::A0, 4);
    assert_eq!(fork.new_file(FileType::FuzzInput), 1);
    fork.memory.allocate(0x10).unwrap();
    fork.reset(&emu);
    assert_eq!(fork.reg(Register::A0), 3);
    assert_eq!(fork.files.len(), 1);
    assert_eq!(fork.memory.alloc_base(), VirtAddr(0x10000));
}

#[test]
fn run_stops_at_syscall_or_budget() {
    // addi x1, x0, 5; addi x2, x1, -1; ecall
    let mut emu = setup(&[0x00500093, 0xfff08113, 0x00000073]);
    assert!(matches!(emu.run(1), Some(Ok(()))));
    assert_eq!(emu.reg(Register::Ra), 5);
    assert_eq!(emu.reg(Register::Pc), (CODE + 4) as u64);
    assert!(matches!(emu.run(10), Some(Err(EmuExit::Syscall))));
    assert_eq!(emu.reg(Register::Sp), 4);
    assert_eq!(emu.reg(Register::Pc), (CODE + 8) as u64);
    // Zero steps changes nothing
    assert!(matches!(emu.run(0), Some(Ok(()))));
    assert_eq!(emu.reg(Register::Pc), (CODE + 8) as u64);
}

#[test]
fn run_stops_before_unsupported_instruction() {
    // addi x1, x0, 5; then an all-zero word
    let mut emu = setup(&[0x00500093, 0x00000000]);
    assert!(emu.run(5).is_none());
    assert_eq!(emu.reg(Register::Ra), 5);
    assert_eq!(emu.reg(Register::Pc), (CODE + 4) as u64);
}

#[test]
fn start_frame_layout() {
    let mut emu = Emulator::new(0x20000);
    assert_eq!(emu.setup_start_frame(b"prog\0"), Ok(()));
    let sp = emu.reg(Register::Sp);
    assert_eq!(sp, 0x18000 - 40);
    let sp = sp as usize;
    assert_eq!(emu.memory.read::<u64>(VirtAddr(sp)), Ok(1));
    assert_eq!(emu.memory.read::<u64>(VirtAddr(sp + 8)), Ok(0x18000));
    for k in 2..5 {
        assert_eq!(emu.memory.read::<u64>(VirtAddr(sp + 8 * k)), Ok(0));
    }
    let mut name = [0u8; 5];
    emu.memory.read_into(VirtAddr(0x18000), &mut name).unwrap();
    assert_eq!(&name, b"prog\0");
    assert_eq!(emu.memory.alloc_base(), VirtAddr(0x19000));
}

#[test]
fn start_frame_without_room() {
    let mut emu = Emulator::new(0x10000);
    assert_eq!(emu.setup_start_frame(b"prog\0"), Err(MmuError::OutOfMemory(0x8000)));
    assert_eq!(emu.reg(Register::Sp), 0);
}

#[test]
fn push_moves_sp_down() {
    let mut emu = Emulator::new(0x100);
    emu.set_perms(VirtAddr(0x80), 0x10, Perm(PermBit::Write.bits())).unwrap();
    emu.set_reg(Register::Sp, 0x90);
    assert_eq!(emu.push(0x1122), Ok(()));
    assert_eq!(emu.reg(Register::Sp), 0x88);
    let mut b = [0u8; 2];
    emu.memory.read_with_perms(VirtAddr(0x88), &mut b, Perm(0)).unwrap();
    assert_eq!(b, [0x22, 0x11]);
    // A push onto memory that is not writable changes nothing
    emu.set_reg(Register::Sp, 0x20);
    assert!(emu.push(1).is_err());
    assert_eq!(emu.reg(Register::Sp), 0x20);
}

#[test]
fn registers_keep_their_values() {
    let mut emu = Emulator::new(0x100);
    emu.set_reg(Register::A0, 5);
    emu.set_reg(Register::A1, 6);
    emu.set_reg(Register::Zero, 7);
    assert_eq!(emu.reg(Register::A0), 5);
    assert_eq!(emu.reg(Register::A1), 6);
    assert_eq!(emu.reg(Register::Zero), 0);
}
