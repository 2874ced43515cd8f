use vstd::prelude::*;
use elf::endian::AnyEndian;
use elf::ElfBytes;
use crate::emu::EmuExit;
use crate::mmu::{MmuView, Perm, PermBit, VirtAddr, set_perms_result, view_wf, write_result};

verus! {

/// A program header of an ELF file, with the fields that loading reads.
#[derive(Clone, Copy, Debug, PartialEq, Eq, Structural)]
pub struct Segment {
    pub p_type: u32,
    pub p_offset: u64,
    pub p_vaddr: u64,
    pub p_filesz: u64,
    pub p_memsz: u64,
    pub p_flags: u32,
}

/// What parsing `bytes` as an ELF file gives: `None` when it is not one;
/// else its entry point and, when it has a program header table, each
/// header's type, offset, virtual address, file size, memory size and flags.
pub uninterp spec fn elf_layout(bytes: Seq<u8>) -> Option<
    (u64, Option<Seq<(u32, u64, u64, u64, u64, u32)>>),
>;

/// The view of an optional vector.
pub open spec fn opt_vec_view<T>(v: Option<Vec<T>>) -> Option<Seq<T>> {
    match v {
        Some(v) => Some(v@),
        None => None,
    }
}

/// Parses `bytes` with `elf::ElfBytes::minimal_parse` and reads the entry
/// point and program headers of the result. Claims only that the outcome
/// is `elf_layout` of the bytes.
#[verifier::external_body]
pub(crate) fn parse_elf(bytes: &[u8]) -> (r: Option<(u64, Option<Vec<(u32, u64, u64, u64, u64, u32)>>)>)
    ensures
        r is None <==> elf_layout(bytes@) is None,
        r matches Some((entry, headers)) ==> elf_layout(bytes@) == Some(
            (entry, opt_vec_view(headers)),
        ),
{
    let file = match ElfBytes::<AnyEndian>::minimal_parse(bytes) {
        Ok(f) => f,
        Err(_) => return None,
    };
    let headers = file.segments().map(
        |table| table.iter().map(|h| (h.p_type, h.p_offset, h.p_vaddr, h.p_filesz, h.p_memsz, h.p_flags)).collect(),
    );
    Some((file.ehdr.e_entry, headers))
}

/// The segment that a parsed program header stands for.
pub open spec fn segment_of(h: (u32, u64, u64, u64, u64, u32)) -> Segment {
    Segment { p_type: h.0, p_offset: h.1, p_vaddr: h.2, p_filesz: h.3, p_memsz: h.4, p_flags: h.5 }
}

/// The segments that parsed program headers stand for.
pub open spec fn segments_of(headers: Seq<(u32, u64, u64, u64, u64, u32)>) -> Seq<Segment> {
    headers.map_values(|h: (u32, u64, u64, u64, u64, u32)| segment_of(h))
}

/// Type of the segments that are loaded.
pub const PT_LOAD: u32 = 1;

/// The file bytes of a loaded segment lie within a file of `len` bytes
/// (or the end of the range overflows, which loading reports).
pub open spec fn file_range_ok(seg: Segment, len: nat) -> bool {
    seg.p_type == PT_LOAD ==> (seg.p_offset as usize + seg.p_filesz as usize <= usize::MAX
        ==> seg.p_offset as usize + seg.p_filesz as usize <= len)
}

/// Every segment's file bytes lie within a file of `len` bytes.
pub open spec fn segments_fit(segs: Seq<Segment>, len: nat) -> bool {
    forall|i: int| 0 <= i < segs.len() ==> file_range_ok(#[trigger] segs[i], len)
}

pub open spec fn msg_perms() -> Seq<char> {
    "Failed to set permissions on memory."@
}

pub open spec fn msg_overflow() -> Seq<char> {
    "File offsets caused addr overflow"@
}

pub open spec fn msg_write() -> Seq<char> {
    "Failed to write from file to memory"@
}

pub open spec fn msg_padding() -> Seq<char> {
    "Failed to write padding to memory"@
}

pub open spec fn msg_parse() -> Seq<char> {
    "Failed to parse ELF file."@
}

/// The end of a segment in memory rounded up to a page boundary.
pub open spec fn page_end(va: int, mem_size: int) -> int {
    (va + mem_size + 0xfff) / 4096 * 4096
}

/// Loading one segment: for a LOAD segment, make its memory writable, copy
/// its file bytes, zero the rest of its memory size, give it the segment's
/// permissions, and move the allocation base past it. The state reached and
/// the message of the step that failed, if one did.
pub open spec fn load_segment(m: MmuView, contents: Seq<u8>, seg: Segment) -> (
    MmuView,
    Option<Seq<char>>,
) {
    let off = seg.p_offset as usize;
    let va = seg.p_vaddr as usize;
    let fs = seg.p_filesz as usize;
    let ms = seg.p_memsz as usize;
    if seg.p_type != PT_LOAD {
        (m, None)
    } else {
        match set_perms_result(m, va, ms, Perm(PermBit::Write.spec_bits())) {
            Err(_) => (m, Some(msg_perms())),
            Ok(m1) => if off + fs > usize::MAX {
                (m1, Some(msg_overflow()))
            } else {
                match write_result(m1, va, contents.subrange(off as int, off + fs)) {
                    Err(_) => (m1, Some(msg_write())),
                    Ok(m2) => {
                        let padded: (MmuView, Option<Seq<char>>) = if fs < ms {
                            if va + fs > usize::MAX {
                                (m2, Some(msg_overflow()))
                            } else {
                                match write_result(
                                    m2,
                                    (va + fs) as usize,
                                    Seq::new((ms - fs) as nat, |i: int| 0u8),
                                ) {
                                    Err(_) => (m2, Some(msg_padding())),
                                    Ok(m3) => (m3, None),
                                }
                            }
                        } else {
                            (m2, None)
                        };
                        if padded.1 is Some {
                            padded
                        } else {
                            match set_perms_result(padded.0, va, ms, Perm(seg.p_flags as u8)) {
                                Err(_) => (padded.0, Some(msg_perms())),
                                Ok(m4) => if va + ms + 0xfff > usize::MAX {
                                    (m4, Some(msg_overflow()))
                                } else {
                                    let top = page_end(va as int, ms as int);
                                    (
                                        MmuView {
                                            alloc_base: if m4.alloc_base >= top {
                                                m4.alloc_base
                                            } else {
                                                top as usize
                                            },
                                            ..m4
                                        },
                                        None,
                                    )
                                },
                            }
                        }
                    },
                }
            },
        }
    }
}

/// Loading the segments in order, stopping at the first failure.
pub open spec fn load_all(m: MmuView, contents: Seq<u8>, segs: Seq<Segment>) -> (
    MmuView,
    Option<Seq<char>>,
)
    decreases segs.len(),
{
    if segs.len() == 0 {
        (m, None)
    } else {
        let (m1, err) = load_segment(m, contents, segs[0]);
        if err is Some {
            (m1, err)
        } else {
            load_all(m1, contents, segs.drop_first())
        }
    }
}

/// `r` is the outcome of loading, that failed with message `err` if that
/// is `Some`.
pub open spec fn load_outcome(r: Result<VirtAddr, EmuExit>, entry: u64, err: Option<Seq<char>>) -> bool {
    match err {
        None => r == Ok::<VirtAddr, EmuExit>(VirtAddr(entry as usize)),
        Some(msg) => r matches Err(EmuExit::LoadError(s)) && s@ == msg,
    }
}

/// Loading a LOAD segment that succeeds puts the segment's file bytes at its
/// virtual address and zeros after them up to its memory size, gives the
/// bytes of its memory image the segment's permissions, and moves the
/// allocation base, never back, to at least the end of that image rounded
/// up to a page: later allocations lie past the segment.
pub proof fn lemma_load_segment(m: MmuView, contents: Seq<u8>, seg: Segment)
    requires
        view_wf(m),
        seg.p_type == PT_LOAD,
        file_range_ok(seg, contents.len()),
        load_segment(m, contents, seg).1 is None,
    ensures
        ({
            let r = load_segment(m, contents, seg).0;
            let off = seg.p_offset as usize as int;
            let va = seg.p_vaddr as usize as int;
            let fs = seg.p_filesz as usize as int;
            let ms = seg.p_memsz as usize as int;
            &&& view_wf(r)
            &&& r.memory.len() == m.memory.len()
            &&& va + ms <= m.memory.len()
            &&& va + fs <= m.memory.len()
            &&& r.alloc_base >= va + ms
            &&& r.alloc_base >= m.alloc_base
            &&& r.alloc_base == m.alloc_base || (r.alloc_base % 4096 == 0 && r.alloc_base < va + ms
                + 4096)
            &&& forall|i: int| va <= i < va + ms ==> #[trigger] r.perms[i] == Perm(seg.p_flags as u8)
            &&& forall|i: int| va <= i < va + fs ==> #[trigger] r.memory[i] == contents[off + i - va]
            &&& forall|i: int| va + fs <= i < va + ms ==> #[trigger] r.memory[i] == 0u8
        }),
{
    let off = seg.p_offset as usize;
    let va = seg.p_vaddr as usize;
    let fs = seg.p_filesz as usize;
    let ms = seg.p_memsz as usize;
    let m1 = set_perms_result(m, va, ms, Perm(PermBit::Write.spec_bits()))->Ok_0;
    let buf = contents.subrange(off as int, off + fs);
    let m2 = write_result(m1, va, buf)->Ok_0;
    assert(buf.len() == fs);
    let padded: MmuView = if fs < ms {
        write_result(m2, (va + fs) as usize, Seq::new((ms - fs) as nat, |i: int| 0u8))->Ok_0
    } else {
        m2
    };
    let m4 = set_perms_result(padded, va, ms, Perm(seg.p_flags as u8))->Ok_0;
    assert(m4.alloc_base == m.alloc_base);
    assert forall|i: int| va <= i < va + fs implies #[trigger] m4.memory[i] == contents[off + i - va] by {
        assert(m2.memory[i] == buf[i - va]);
    }
    let top = page_end(va as int, ms as int);
    assert(top >= va + ms && top % 4096 == 0 && top < va + ms + 4096);
}

/// Loading segments that succeeds leaves the allocation base, never moved
/// back, past the memory image of every LOAD segment.
pub proof fn lemma_load_all_alloc(m: MmuView, contents: Seq<u8>, segs: Seq<Segment>)
    requires
        view_wf(m),
        segments_fit(segs, contents.len()),
        load_all(m, contents, segs).1 is None,
    ensures
        load_all(m, contents, segs).0.alloc_base >= m.alloc_base,
        forall|i: int|
            0 <= i < segs.len() && (#[trigger] segs[i]).p_type == PT_LOAD ==> load_all(
                m,
                contents,
                segs,
            ).0.alloc_base >= segs[i].p_vaddr as usize + segs[i].p_memsz as usize,
    decreases segs.len(),
{
    if segs.len() > 0 {
        let m1 = load_segment(m, contents, segs[0]).0;
        assert(file_range_ok(segs[0], contents.len()));
        if segs[0].p_type == PT_LOAD {
            lemma_load_segment(m, contents, segs[0]);
        }
        let rest = segs.drop_first();
        assert(segments_fit(rest, contents.len())) by {
            assert forall|i: int| 0 <= i < rest.len() implies file_range_ok(#[trigger] rest[i], contents.len()) by {
                assert(rest[i] == segs[i + 1]);
            }
        }
        lemma_load_all_alloc(m1, contents, rest);
        assert forall|i: int|
            0 <= i < segs.len() && (#[trigger] segs[i]).p_type == PT_LOAD implies load_all(
                m,
                contents,
                segs,
            ).0.alloc_base >= segs[i].p_vaddr as usize + segs[i].p_memsz as usize by {
            if i > 0 {
                assert(segs[i] == rest[i - 1]);
            }
        }
    }
}

} // verus!
