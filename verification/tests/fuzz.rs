use nightcrawler::emu::{EmuExit, Emulator, FileType};
use nightcrawler::fuzz::{fuzz_input, run_case, CaseEnd};
use nightcrawler::isa::Register;
use nightcrawler::mmu::{Perm, PermBit, VirtAddr};
use nightcrawler::Rng;

#[test]
fn fuzz_input_from_default_seed() {
    let mut rng = Rng::new();
    let input = fuzz_input(&mut rng);
    assert_eq!(input.len(), 44);
    assert_eq!(&input[..8], &[2, 122, 111, 63, 25, 55, 195, 45]);
    assert_eq!(rng.0, 0x06800976eae0af98);
}

#[test]
fn fuzz_input_draws_length_then_bytes() {
    for seed in [1u64, 42, 0xdead_beef] {
        let mut a = Rng::new_with_seed(seed);
        let mut b = Rng::new_with_seed(seed);
        let input = fuzz_input(&mut a);
        let len = b.rng() % 100;
        assert_eq!(input.len(), len);
        for x in &input {
            assert_eq!(*x, b.rng() as u8);
        }
        assert_eq!(a.0, b.0);
    }
}

/// An emulator of 0x100 bytes with `code` readable at address 0 and a
/// readable, writable buffer at 0x80.
fn program(code: &[u8]) -> Emulator {
    let mut emu = Emulator::new(0x100);
    emu.set_perms(VirtAddr(0), code.len(), Perm(PermBit::Write.bits())).unwrap();
    emu.write_from(VirtAddr(0), code).unwrap();
    emu.set_perms(VirtAddr(0), code.len(), Perm(PermBit::Read.bits())).unwrap();
    emu.set_perms(VirtAddr(0x80), 0x10, Perm(PermBit::Read.bits() | PermBit::Write.bits()))
        .unwrap();
    emu
}

const ECALL: [u8; 4] = [0x73, 0, 0, 0];

#[test]
fn case_that_exits() {
    // addi a7, x0, 93; ecall
    let mut emu = program(&[&[0x93, 0x08, 0xD0, 0x05][..], &ECALL].concat());
    let mut out = Vec::new();
    let (end, steps) = run_case(&mut emu, 100, &mut out);
    assert!(matches!(end, CaseEnd::Exited));
    assert_eq!(steps, 1);
    assert!(out.is_empty());
}

#[test]
fn case_that_reads_its_input() {
    // addi a7, x0, 63; addi a1, x0, 0x80; addi a2, x0, 4; ecall;
    // addi a7, x0, 93; ecall
    let code = [
        &[0x93, 0x08, 0xF0, 0x03][..],
        &[0x93, 0x05, 0x00, 0x08],
        &[0x13, 0x06, 0x40, 0x00],
        &ECALL,
        &[0x93, 0x08, 0xD0, 0x05],
        &ECALL,
    ]
    .concat();
    let mut emu = program(&code);
    let fd = emu.new_file(FileType::FuzzInput);
    emu.set_file_data(fd, vec![1, 2, 3, 4, 5, 6]);
    let mut out = Vec::new();
    let (end, steps) = run_case(&mut emu, 100, &mut out);
    assert!(matches!(end, CaseEnd::Exited));
    assert_eq!(steps, 5);
    assert_eq!(emu.memory.read::<u32>(VirtAddr(0x80)), Ok(0x04030201));
    assert_eq!(emu.reg(Register::A0), 4);
    assert_eq!(emu.files[0].as_ref().unwrap().offset, Some(4));
}

#[test]
fn case_that_crashes() {
    // ld t0, 0(x0): address 0 holds code, readable; ld t0, 0x40(x0) does not
    let mut emu = program(&[0x83, 0x32, 0x00, 0x04]);
    let mut out = Vec::new();
    let (end, steps) = run_case(&mut emu, 100, &mut out);
    assert!(matches!(end, CaseEnd::Crashed(EmuExit::UninitFault(VirtAddr(0x40)))));
    assert_eq!(steps, 0);
    assert_eq!(emu.reg(Register::Pc), 0);
}

#[test]
fn case_whose_syscall_fails() {
    // addi a7, x0, 1234; ecall
    let mut emu = program(&[&[0x93, 0x08, 0x20, 0x4D][..], &ECALL].concat());
    let mut out = Vec::new();
    match run_case(&mut emu, 100, &mut out) {
        (CaseEnd::SyscallFailed(EmuExit::SyscallError(msg)), 1) => {
            assert_eq!(msg, "Unimplemented syscall: 1234")
        }
        (end, steps) => panic!("unexpected end {:?} after {}", end, steps),
    }
}

#[test]
fn case_with_unexpected_stop() {
    // ld t0, 0x7f8(x0): past the end of memory
    let mut emu = program(&[0x83, 0x32, 0x80, 0x7F]);
    let mut out = Vec::new();
    let (end, _) = run_case(&mut emu, 100, &mut out);
    assert!(matches!(end, CaseEnd::Unexpected(EmuExit::InvalidAccess(VirtAddr(0x7f8), 0))));
}

#[test]
fn case_out_of_budget_or_unsupported() {
    // jal x0, 0: loops for ever
    let mut emu = program(&[0x6F, 0, 0, 0]);
    let mut out = Vec::new();
    let (end, steps) = run_case(&mut emu, 10, &mut out);
    assert!(matches!(end, CaseEnd::Budget));
    assert_eq!(steps, 10);
    // An all-zero word is no instruction
    let mut emu = program(&[0, 0, 0, 0]);
    let (end, steps) = run_case(&mut emu, 10, &mut out);
    assert!(matches!(end, CaseEnd::Unsupported));
    assert_eq!(steps, 0);
}
