use nightcrawler::emu::{handle_sys, EmuExit, Emulator, FileType};
use nightcrawler::isa::Register;
use nightcrawler::mmu::{Perm, PermBit, VirtAddr};

const DATA: usize = 0x3000;

fn setup(call: u64) -> Emulator {
    let mut emu = Emulator::new(0x20000);
    emu.memory
        .set_perms(VirtAddr(DATA), 0x100, Perm(PermBit::Read.bits() | PermBit::Write.bits()))
        .unwrap();
    emu.set_reg(Register::Pc, 0x1000);
    emu.set_reg(Register::A7, call);
    emu
}

fn call(emu: &mut Emulator, out: &mut Vec<u8>) -> Result<(), EmuExit> {
    assert!(emu.can_handle_sys());
    handle_sys(emu, out)
}

#[test]
fn set_tid_address_and_ioctl() {
    let mut out = Vec::new();
    let mut emu = setup(96);
    assert!(call(&mut emu, &mut out).is_ok());
    assert_eq!(emu.reg(Register::A0), 1337);
    assert_eq!(emu.reg(Register::Pc), 0x1004);
    let mut emu = setup(29);
    assert!(call(&mut emu, &mut out).is_ok());
    assert_eq!(emu.reg(Register::A0), u64::MAX);
    assert!(out.is_empty());
}

#[test]
fn exit_and_unknown_calls() {
    let mut out = Vec::new();
    for n in [93u64, 94] {
        let mut emu = setup(n);
        assert!(matches!(call(&mut emu, &mut out), Err(EmuExit::Exit)));
        assert_eq!(emu.reg(Register::Pc), 0x1000);
    }
    let mut emu = setup(1234);
    match call(&mut emu, &mut out) {
        Err(EmuExit::SyscallError(msg)) => assert_eq!(msg, "Unimplemented syscall: 1234"),
        _ => panic!("expected a syscall error"),
    }
}

#[test]
fn read_copies_fuzz_input_from_cursor() {
    let mut out = Vec::new();
    let mut emu = setup(63);
    // No file yet
    match call(&mut emu, &mut out) {
        Err(EmuExit::SyscallError(msg)) => assert_eq!(msg, "Invalid file descriptor: 0"),
        _ => panic!("expected a syscall error"),
    }
    let fd = emu.new_file(FileType::FuzzInput);
    if let Some(file) = &mut emu.files[fd] {
        file.data = Some(vec![1, 2, 3, 4, 5]);
        file.offset = Some(1);
    }
    emu.set_reg(Register::A0, 0);
    emu.set_reg(Register::A1, DATA as u64);
    emu.set_reg(Register::A2, 10);
    assert!(call(&mut emu, &mut out).is_ok());
    assert_eq!(emu.memory.read::<u32>(VirtAddr(DATA)), Ok(0x05040302));
    assert_eq!(emu.memory.read::<u8>(VirtAddr(DATA + 4)), Ok(0));
    assert_eq!(emu.reg(Register::Pc), 0x1004);
    // a0 holds the number of bytes read, and the cursor moved past them
    assert_eq!(emu.reg(Register::A0), 4);
    assert_eq!(emu.files[0].as_ref().unwrap().offset, Some(5));
    // A second read finds the input exhausted
    emu.set_reg(Register::Pc, 0x1000);
    emu.set_reg(Register::A0, 0);
    assert!(call(&mut emu, &mut out).is_ok());
    assert_eq!(emu.reg(Register::A0), 0);
    assert_eq!(emu.files[0].as_ref().unwrap().offset, Some(5));
    // Not writable
    if let Some(file) = &mut emu.files[fd] {
        file.offset = Some(1);
    }
    emu.set_reg(Register::A0, 0);
    emu.set_reg(Register::Pc, 0x1000);
    emu.set_reg(Register::A1, 0x8000);
    match call(&mut emu, &mut out) {
        Err(EmuExit::SyscallError(msg)) => assert_eq!(msg, "Failed to write data"),
        _ => panic!("expected a syscall error"),
    }
    // Other descriptors
    emu.set_reg(Register::A0, 3);
    match call(&mut emu, &mut out) {
        Err(EmuExit::SyscallError(msg)) => assert_eq!(msg, "Invalid file descriptor: 3"),
        _ => panic!("expected a syscall error"),
    }
}

#[test]
fn read_with_cursor_past_data_is_not_handled() {
    let mut emu = setup(63);
    let fd = emu.new_file(FileType::FuzzInput);
    if let Some(file) = &mut emu.files[fd] {
        file.data = Some(vec![1, 2]);
        file.offset = Some(3);
    }
    assert!(!emu.can_handle_sys());
}

#[test]
fn writev_gathers_buffers() {
    let mut emu = setup(66);
    emu.memory.write(VirtAddr(DATA), (DATA + 0x40) as u64).unwrap();
    emu.memory.write(VirtAddr(DATA + 8), 3u64).unwrap();
    emu.memory.write(VirtAddr(DATA + 16), (DATA + 0x50) as u64).unwrap();
    emu.memory.write(VirtAddr(DATA + 24), 2u64).unwrap();
    emu.memory.write_from(VirtAddr(DATA + 0x40), b"abc").unwrap();
    emu.memory.write_from(VirtAddr(DATA + 0x50), b"de").unwrap();
    emu.set_reg(Register::A0, 1);
    emu.set_reg(Register::A1, DATA as u64);
    emu.set_reg(Register::A2, 2);
    let mut out = b">".to_vec();
    assert!(call(&mut emu, &mut out).is_ok());
    assert_eq!(out, b">abcde".to_vec());
    assert_eq!(emu.reg(Register::A0), 5);
    assert_eq!(emu.reg(Register::Pc), 0x1004);
}

#[test]
fn writev_that_would_fail_is_not_handled() {
    let mut emu = setup(66);
    emu.set_reg(Register::A0, 3);
    assert!(!emu.can_handle_sys());
    emu.set_reg(Register::A0, 2);
    emu.set_reg(Register::A1, 0x8000);
    emu.set_reg(Register::A2, 1);
    assert!(!emu.can_handle_sys());
    emu.set_reg(Register::A2, 0);
    assert!(emu.can_handle_sys());
}

#[test]
fn read_in_pieces_moves_the_cursor() {
    let mut out = Vec::new();
    let mut emu = setup(63);
    let fd = emu.new_file(FileType::FuzzInput);
    if let Some(file) = &mut emu.files[fd] {
        file.data = Some(vec![10, 20, 30, 40, 50]);
    }
    emu.set_reg(Register::A1, DATA as u64);
    emu.set_reg(Register::A2, 2);
    assert!(call(&mut emu, &mut out).is_ok());
    assert_eq!(emu.reg(Register::A0), 2);
    emu.set_reg(Register::A0, 0);
    emu.set_reg(Register::A1, (DATA + 2) as u64);
    emu.set_reg(Register::A2, 2);
    assert!(call(&mut emu, &mut out).is_ok());
    assert_eq!(emu.reg(Register::A0), 2);
    assert_eq!(emu.memory.read::<u32>(VirtAddr(DATA)), Ok(0x281e140a));
    assert_eq!(emu.files[0].as_ref().unwrap().offset, Some(4));
}

#[test]
fn unknown_call_numbers_in_decimal() {
    let mut out = Vec::new();
    for (n, text) in [(0u64, "0"), (10, "10"), (100, "100"), (u64::MAX, "18446744073709551615")] {
        let mut emu = setup(n);
        match call(&mut emu, &mut out) {
            Err(EmuExit::SyscallError(msg)) => {
                assert_eq!(msg, format!("Unimplemented syscall: {}", text))
            }
            _ => panic!("expected a syscall error"),
        }
    }
}
