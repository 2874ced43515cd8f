use nightcrawler::mmu::{DirtyState, Mmu, MmuError, Perm, PermBit, VirtAddr, DIRTY_BLOCK_SIZE};

const RW: u8 = 0b0110;

#[test]
fn perm_bits() {
    assert_eq!(PermBit::Unknown.bits(), 0);
    assert_eq!(PermBit::Execute.bits(), 1);
    assert_eq!(PermBit::Write.bits(), 2);
    assert_eq!(PermBit::Read.bits(), 4);
    assert_eq!(PermBit::ReadAfterWrite.bits(), 8);
}

#[test]
fn new_memory_is_unreadable_and_unwritable() {
    let mmu = Mmu::new(0x1000);
    let mut buf = [0u8; 4];
    assert_eq!(
        mmu.read_into(VirtAddr(0x10), &mut buf),
        Err(MmuError::InvalidPerms(Perm(0), VirtAddr(0x10), 4, Perm(4)))
    );
    // With no expected permission the bytes (zero) can be read
    assert_eq!(mmu.read_with_perms(VirtAddr(0x10), &mut buf, Perm(0)), Ok(()));
    assert_eq!(buf, [0, 0, 0, 0]);
    assert_eq!(mmu.alloc_base(), VirtAddr(0x10000));
}

#[test]
fn write_then_read_gives_back_bytes() {
    let mut mmu = Mmu::new(0x1000);
    mmu.set_perms(VirtAddr(0x100), 0x10, Perm(RW)).unwrap();
    mmu.write_from(VirtAddr(0x104), &[1, 2, 3, 4]).unwrap();
    let mut buf = [0u8; 6];
    mmu.read_into(VirtAddr(0x103), &mut buf).unwrap();
    assert_eq!(buf, [0, 1, 2, 3, 4, 0]);
    mmu.write(VirtAddr(0x108), 0x1122334455667788u64).unwrap();
    assert_eq!(mmu.read::<u64>(VirtAddr(0x108)), Ok(0x1122334455667788));
    assert_eq!(mmu.read::<u16>(VirtAddr(0x108)), Ok(0x7788));
    assert_eq!(mmu.read::<i8>(VirtAddr(0x10f)), Ok(0x11));
}

#[test]
fn write_errors() {
    let mut mmu = Mmu::new(0x1000);
    mmu.set_perms(VirtAddr(0x100), 4, Perm(PermBit::Read.bits())).unwrap();
    // Not writable: the permission of the first offending byte is reported
    assert_eq!(
        mmu.write_from(VirtAddr(0x100), &[1, 2]),
        Err(MmuError::InvalidPerms(Perm(4), VirtAddr(0x100), 2, Perm(2)))
    );
    // Outside memory
    assert_eq!(mmu.write_from(VirtAddr(0xfff), &[1, 2]), Err(MmuError::InvalidAddr(VirtAddr(0xfff))));
    // End overflows the address space
    assert_eq!(
        mmu.write_from(VirtAddr(usize::MAX), &[1, 2]),
        Err(MmuError::AddressOverflow(VirtAddr(usize::MAX), 2))
    );
    // Nothing was written and nothing more marked dirty than the block
    // whose permissions were set
    assert_eq!(mmu.dirty.blocks, vec![2]);
}

#[test]
fn set_perms_errors() {
    let mut mmu = Mmu::new(0x100);
    assert_eq!(mmu.set_perms(VirtAddr(0xf0), 0x20, Perm(RW)), Err(MmuError::InvalidAddr(VirtAddr(0xf0))));
    assert_eq!(
        mmu.set_perms(VirtAddr(2), usize::MAX, Perm(RW)),
        Err(MmuError::AddressOverflow(VirtAddr(2), usize::MAX))
    );
    assert_eq!(mmu.set_perms(VirtAddr(0xf0), 0x10, Perm(RW)), Ok(()));
}

#[test]
fn read_errors() {
    let mmu = Mmu::new(0x100);
    let mut buf = [0u8; 8];
    assert_eq!(mmu.read_into(VirtAddr(0xfc), &mut buf), Err(MmuError::InvalidAddr(VirtAddr(0xfc))));
    assert_eq!(
        mmu.read::<u32>(VirtAddr(usize::MAX - 1)),
        Err(MmuError::AddressOverflow(VirtAddr(usize::MAX - 1), 4))
    );
}

#[test]
fn allocation_is_uninitialized_until_written() {
    let mut mmu = Mmu::new(0x20000);
    let base = mmu.allocate(5).unwrap();
    assert_eq!(base, VirtAddr(0x10000));
    // Rounded up to 16 bytes
    assert_eq!(mmu.alloc_base(), VirtAddr(0x10010));
    assert_eq!(mmu.get_alloc_size(base), Some(5));
    assert_eq!(mmu.get_alloc_size(VirtAddr(0x10010)), None);
    // Read-after-write and writable, not readable
    assert_eq!(
        mmu.read::<u8>(base),
        Err(MmuError::InvalidPerms(Perm(0b1010), base, 1, Perm(4)))
    );
    mmu.write(base, 0xabu8).unwrap();
    assert_eq!(mmu.read::<u8>(base), Ok(0xab));
    // The next byte is still uninitialized
    assert!(mmu.read::<u8>(VirtAddr(0x10001)).is_err());
    // The padding keeps its permissions
    assert_eq!(mmu.write(VirtAddr(0x10005), 1u8), Err(MmuError::InvalidPerms(Perm(0), VirtAddr(0x10005), 1, Perm(2))));
}

#[test]
fn allocation_out_of_memory() {
    let mut mmu = Mmu::new(0x10008);
    assert_eq!(mmu.allocate(0x10), Err(MmuError::OutOfMemory(0x10)));
    // The base moved past the end nevertheless
    assert_eq!(mmu.alloc_base(), VirtAddr(0x10010));
    assert_eq!(mmu.allocate(1), Err(MmuError::OutOfMemory(1)));
    assert_eq!(mmu.alloc_base(), VirtAddr(0x10010));
}

#[test]
fn write_marks_touched_blocks_dirty() {
    let mut base = Mmu::new(0x1000);
    base.set_perms(VirtAddr(0), 0x1000, Perm(RW)).unwrap();
    let mut mmu = base.fork();
    mmu.write_from(VirtAddr(0x7f), &[1, 2]).unwrap();
    assert_eq!(mmu.dirty.blocks, vec![0, 1]);
    mmu.write_from(VirtAddr(0x300), &[1]).unwrap();
    mmu.write_from(VirtAddr(0x10), &[1]).unwrap();
    assert_eq!(mmu.dirty.blocks, vec![0, 1, 6]);
}

#[test]
fn dirty_mark_ranges() {
    let mut d = DirtyState::new(0x10000);
    assert_eq!(d.mark(VirtAddr(0x100), None), Some(()));
    assert_eq!(d.blocks, vec![2]);
    assert_eq!(d.mark(VirtAddr(0x0), Some(0x180)), Some(()));
    assert_eq!(d.blocks, vec![2, 0, 1, 3]);
    assert_eq!(d.mark(VirtAddr(usize::MAX), Some(1)), None);
    assert_eq!(d.blocks, vec![2, 0, 1, 3]);
    assert_eq!(DIRTY_BLOCK_SIZE, 0x80);
}

#[test]
fn reset_restores_dirtied_memory() {
    let mut base = Mmu::new(0x1000);
    base.set_perms(VirtAddr(0), 0x800, Perm(PermBit::Write.bits() | PermBit::ReadAfterWrite.bits())).unwrap();
    base.write_from(VirtAddr(0x10), &[9, 9, 9]).unwrap();
    let mut fork = base.fork();
    assert_eq!(fork.dirty.blocks.len(), 0);
    fork.write_from(VirtAddr(0x10), &[1, 2, 3]).unwrap();
    fork.write_from(VirtAddr(0x200), &[4, 5]).unwrap();
    // Read-after-write bytes became readable in the fork only
    assert_eq!(fork.read::<u8>(VirtAddr(0x201)), Ok(5));
    assert!(base.read::<u8>(VirtAddr(0x201)).is_err());
    fork.reset(&base);
    assert_eq!(fork.dirty.blocks.len(), 0);
    let mut a = [0u8; 0x800];
    let mut b = [0u8; 0x800];
    fork.read_with_perms(VirtAddr(0), &mut a, Perm(0)).unwrap();
    base.read_with_perms(VirtAddr(0), &mut b, Perm(0)).unwrap();
    assert_eq!(a, b);
    assert!(fork.read::<u8>(VirtAddr(0x201)).is_err());
    assert_eq!(fork.read::<u8>(VirtAddr(0x11)), Ok(9));
    // The fork can be dirtied and reset again
    fork.write_from(VirtAddr(0x11), &[7]).unwrap();
    assert_eq!(fork.dirty.blocks, vec![0]);
    fork.reset(&base);
    assert_eq!(fork.read::<u8>(VirtAddr(0x11)), Ok(9));
}

#[test]
fn reset_restores_allocation_state() {
    let base = Mmu::new(0x20000);
    let mut fork = base.fork();
    let a = fork.allocate(0x20).unwrap();
    assert_eq!(fork.get_alloc_size(a), Some(0x20));
    fork.reset(&base);
    assert_eq!(fork.alloc_base(), VirtAddr(0x10000));
    assert_eq!(fork.get_alloc_size(a), None);
}

#[test]
fn set_perms_and_allocate_mark_blocks_dirty() {
    let mut mmu = Mmu::new(0x20000);
    mmu.set_perms(VirtAddr(0x100), 0x10, Perm(RW)).unwrap();
    assert_eq!(mmu.dirty.blocks, vec![2]);
    // The block of the end address is marked too
    mmu.set_perms(VirtAddr(0x170), 0x10, Perm(RW)).unwrap();
    assert_eq!(mmu.dirty.blocks, vec![2, 3]);
    let a = mmu.allocate(0x10).unwrap();
    assert_eq!(a, VirtAddr(0x10000));
    assert_eq!(mmu.dirty.blocks, vec![2, 3, 0x200]);
}

#[test]
fn reset_undoes_set_perms() {
    let base = Mmu::new(0x100);
    let mut m = base.fork();
    m.set_perms(VirtAddr(0xF8), 8, Perm(PermBit::Write.bits())).unwrap();
    m.write_from(VirtAddr(0xF8), &[1u8; 8]).unwrap();
    let mut b = [9u8; 8];
    // The last dirty block starts at the end of memory
    m.reset(&base);
    assert_eq!(m.read_with_perms(VirtAddr(0xF8), &mut b, Perm(0)), Ok(()));
    assert_eq!(b, [0u8; 8]);
    assert_eq!(
        m.read_with_perms(VirtAddr(0xF8), &mut b, Perm(PermBit::Write.bits())),
        Err(MmuError::InvalidPerms(Perm(0), VirtAddr(0xF8), 8, Perm(PermBit::Write.bits())))
    );
    assert!(m.dirty.blocks.is_empty());
}

#[test]
fn reset_undoes_allocation_permissions() {
    let base = Mmu::new(0x20000);
    let mut fork = base.fork();
    let a = fork.allocate(0x20).unwrap();
    fork.write_from(a, &[1, 2, 3]).unwrap();
    fork.reset(&base);
    let mut x = [0u8; 0x20];
    let mut y = [0u8; 0x20];
    fork.read_with_perms(a, &mut x, Perm(0)).unwrap();
    base.read_with_perms(a, &mut y, Perm(0)).unwrap();
    assert_eq!(x, y);
    assert_eq!(
        fork.read_with_perms(a, &mut x, Perm(PermBit::Write.bits())),
        Err(MmuError::InvalidPerms(Perm(0), a, 0x20, Perm(PermBit::Write.bits())))
    );
}
