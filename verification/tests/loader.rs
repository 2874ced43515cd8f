use nightcrawler::emu::{EmuExit, Emulator};
use nightcrawler::isa::Register;
use nightcrawler::loader::Segment;
use nightcrawler::mmu::{MmuError, Perm, VirtAddr};

/// A little-endian ELF64 file with the given program headers, followed by
/// `payload`.
fn elf(entry: u64, phdrs: &[(u32, u32, u64, u64, u64, u64)], payload: &[u8]) -> Vec<u8> {
    let mut f = Vec::new();
    f.extend_from_slice(&[0x7f, b'E', b'L', b'F', 2, 1, 1, 0]);
    f.extend_from_slice(&[0; 8]);
    f.extend_from_slice(&2u16.to_le_bytes()); // e_type
    f.extend_from_slice(&0xf3u16.to_le_bytes()); // e_machine
    f.extend_from_slice(&1u32.to_le_bytes()); // e_version
    f.extend_from_slice(&entry.to_le_bytes()); // e_entry
    let phoff: u64 = if phdrs.is_empty() { 0 } else { 64 };
    f.extend_from_slice(&phoff.to_le_bytes()); // e_phoff
    f.extend_from_slice(&0u64.to_le_bytes()); // e_shoff
    f.extend_from_slice(&0u32.to_le_bytes()); // e_flags
    f.extend_from_slice(&64u16.to_le_bytes()); // e_ehsize
    f.extend_from_slice(&56u16.to_le_bytes()); // e_phentsize
    f.extend_from_slice(&(phdrs.len() as u16).to_le_bytes()); // e_phnum
    f.extend_from_slice(&64u16.to_le_bytes()); // e_shentsize
    f.extend_from_slice(&0u16.to_le_bytes()); // e_shnum
    f.extend_from_slice(&0u16.to_le_bytes()); // e_shstrndx
    for (p_type, p_flags, p_offset, p_vaddr, p_filesz, p_memsz) in phdrs {
        f.extend_from_slice(&p_type.to_le_bytes());
        f.extend_from_slice(&p_flags.to_le_bytes());
        f.extend_from_slice(&p_offset.to_le_bytes());
        f.extend_from_slice(&p_vaddr.to_le_bytes());
        f.extend_from_slice(&p_vaddr.to_le_bytes()); // p_paddr
        f.extend_from_slice(&p_filesz.to_le_bytes());
        f.extend_from_slice(&p_memsz.to_le_bytes());
        f.extend_from_slice(&0x1000u64.to_le_bytes()); // p_align
    }
    f.extend_from_slice(payload);
    f
}

#[test]
fn load_image_loads_segment_and_runs() {
    // One LOAD segment, readable and executable, 4 bytes of file, 8 in memory
    let payload = 0x00500093u32.to_le_bytes(); // addi x1, x0, 5
    let file = elf(0x11000, &[(1, 5, 176, 0x11000, 4, 8), (4, 4, 0, 0, 0, 0)], &payload);
    let mut emu = Emulator::new(0x20000);
    let entry = match emu.load_image(&file) {
        Some(Ok(e)) => e,
        _ => panic!("load failed"),
    };
    assert_eq!(entry, VirtAddr(0x11000));
    assert_eq!(emu.memory.read::<u32>(VirtAddr(0x11000)), Ok(0x00500093));
    // Zero padding up to the memory size, with the segment's permissions
    assert_eq!(emu.memory.read::<u32>(VirtAddr(0x11004)), Ok(0));
    assert_eq!(
        emu.memory.write(VirtAddr(0x11000), 1u8),
        Err(MmuError::InvalidPerms(Perm(5), VirtAddr(0x11000), 1, Perm(2)))
    );
    // The allocation base moved past the segment, to a page boundary
    assert_eq!(emu.memory.alloc_base(), VirtAddr(0x12000));
    emu.set_reg(Register::Pc, entry.0 as u64);
    assert!(emu.can_step());
    emu.step().unwrap();
    assert_eq!(emu.reg(Register::Ra), 5);
}

#[test]
fn load_image_rejects_non_elf() {
    let mut emu = Emulator::new(0x1000);
    match emu.load_image(b"definitely not an ELF file, just text") {
        Some(Err(EmuExit::LoadError(msg))) => assert_eq!(msg, "Failed to parse ELF file."),
        _ => panic!("expected a load error"),
    }
}

#[test]
fn load_image_without_program_headers() {
    let file = elf(0x1000, &[], &[]);
    let mut emu = Emulator::new(0x1000);
    assert!(emu.load_image(&file).is_none());
}

#[test]
fn load_image_segment_past_end_of_file() {
    let file = elf(0x1000, &[(1, 5, 120, 0x1000, 64, 64)], &[1, 2, 3]);
    let mut emu = Emulator::new(0x2000);
    assert!(emu.load_image(&file).is_none());
}

#[test]
fn load_segments_reports_each_failure() {
    let contents = [1u8, 2, 3, 4];
    // Segment outside memory
    let mut emu = Emulator::new(0x1000);
    let seg = Segment { p_type: 1, p_offset: 0, p_vaddr: 0x2000, p_filesz: 4, p_memsz: 4, p_flags: 4 };
    match emu.load_segments(&contents, 0x10, &[seg]) {
        Err(EmuExit::LoadError(msg)) => assert_eq!(msg, "Failed to set permissions on memory."),
        _ => panic!("expected a load error"),
    }
    // File range overflows
    let seg = Segment { p_type: 1, p_offset: u64::MAX, p_vaddr: 0x100, p_filesz: 4, p_memsz: 4, p_flags: 4 };
    match emu.load_segments(&contents, 0x10, &[seg]) {
        Err(EmuExit::LoadError(msg)) => assert_eq!(msg, "File offsets caused addr overflow"),
        _ => panic!("expected a load error"),
    }
    // File size beyond memory size: the bytes past it are not writable
    let seg = Segment { p_type: 1, p_offset: 0, p_vaddr: 0x300, p_filesz: 4, p_memsz: 2, p_flags: 4 };
    match emu.load_segments(&contents, 0x10, &[seg]) {
        Err(EmuExit::LoadError(msg)) => assert_eq!(msg, "Failed to write from file to memory"),
        _ => panic!("expected a load error"),
    }
    // Segments that are not LOAD are skipped
    let note = Segment { p_type: 4, p_offset: 0, p_vaddr: 0x5000, p_filesz: 4, p_memsz: 4, p_flags: 4 };
    let seg = Segment { p_type: 1, p_offset: 1, p_vaddr: 0x200, p_filesz: 2, p_memsz: 2, p_flags: 6 };
    assert!(matches!(emu.load_segments(&contents, 0x10, &[note, seg]), Ok(VirtAddr(0x10))));
    assert_eq!(emu.memory.read::<u16>(VirtAddr(0x200)), Ok(0x0302));
}
