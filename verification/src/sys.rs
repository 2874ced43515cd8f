use vstd::prelude::*;
use crate::emu::{EmuExit, EmuView, FileView};
use crate::mmu::{MmuView, Perm, PermBit, read_result, write_result};
use crate::prim::Prim;
use crate::semantics::advance;

verus! {

/// The decimal digits of `n`.
pub open spec fn decimal(n: nat) -> Seq<char>
    decreases n,
{
    if n < 10 {
        seq![(48 + n) as char]
    } else {
        decimal(n / 10).push((48 + n % 10) as char)
    }
}

/// The text of the decimal digit `d`.
fn digit_text(d: u64) -> (r: &'static str)
    requires
        d < 10,
    ensures
        r@ == seq![(48 + d) as char],
{
    proof {
        reveal_strlit("0");
        reveal_strlit("1");
        reveal_strlit("2");
        reveal_strlit("3");
        reveal_strlit("4");
        reveal_strlit("5");
        reveal_strlit("6");
        reveal_strlit("7");
        reveal_strlit("8");
        reveal_strlit("9");
    }
    if d == 0 {
        "0"
    } else if d == 1 {
        "1"
    } else if d == 2 {
        "2"
    } else if d == 3 {
        "3"
    } else if d == 4 {
        "4"
    } else if d == 5 {
        "5"
    } else if d == 6 {
        "6"
    } else if d == 7 {
        "7"
    } else if d == 8 {
        "8"
    } else {
        "9"
    }
}

/// Append the decimal digits of `n` to `s`.
fn append_decimal(s: &mut String, n: u64)
    ensures
        final(s)@ == old(s)@ + decimal(n as nat),
    decreases n,
{
    if n >= 10 {
        append_decimal(s, n / 10);
    }
    s.append(digit_text(n % 10));
    assert(s@ =~= old(s)@ + decimal(n as nat));
}

/// The text of `prefix` followed by the decimal digits of `n`.
pub(crate) fn prefixed_decimal(prefix: &str, n: u64) -> (r: String)
    ensures
        r@ == prefix@ + decimal(n as nat),
{
    let mut s = String::from_str(prefix);
    append_decimal(&mut s, n);
    s
}

/// Register numbers of the system call arguments and number.
pub const A0_INDEX: usize = 10;
pub const A1_INDEX: usize = 11;
pub const A2_INDEX: usize = 12;
pub const A7_INDEX: usize = 17;

/// Why a system call stops the emulator.
pub enum SysStop {
    /// The program exits.
    Exit,
    /// The system call failed, with this message.
    Error(Seq<char>),
}

/// The buffer address and length of entry `i` of the I/O vector at `iov`,
/// or `None` when the entry cannot be read.
pub open spec fn iov_entry(m: MmuView, iov: usize, i: int) -> Option<(u64, u64)> {
    let ptr = iov + 16 * i;
    if ptr + 8 > usize::MAX {
        None
    } else {
        match (
            read_result(m, ptr as usize, 8, Perm(PermBit::Read.spec_bits())),
            read_result(m, (ptr + 8) as usize, 8, Perm(PermBit::Read.spec_bits())),
        ) {
            (Ok(b), Ok(l)) => Some((<u64 as Prim>::spec_from_le(b), <u64 as Prim>::spec_from_le(l))),
            _ => None,
        }
    }
}

/// The bytes that the first `n` entries of the I/O vector at `iov` point
/// to, concatenated, or `None` when one cannot be read.
pub open spec fn writev_data(m: MmuView, iov: usize, n: nat) -> Option<Seq<u8>>
    decreases n,
{
    if n == 0 {
        Some(Seq::empty())
    } else {
        match writev_data(m, iov, (n - 1) as nat) {
            None => None,
            Some(prefix) => match iov_entry(m, iov, n - 1) {
                None => None,
                Some((buf, len)) => match read_result(
                    m,
                    buf as usize,
                    len as usize as int,
                    Perm(PermBit::Read.spec_bits()),
                ) {
                    Ok(data) => Some(prefix + data),
                    Err(_) => None,
                },
            },
        }
    }
}

/// The emulator with other registers.
pub open spec fn with_regs(v: EmuView, regs: Seq<u64>) -> EmuView {
    EmuView { regs: regs, memory: v.memory, files: v.files }
}

/// Where the read system call's copy of the fuzz input starts and ends.
pub open spec fn read_window(f: FileView, count: usize) -> (int, int) {
    let data = f.data->Some_0;
    let cursor = match f.offset {
        Some(c) => c as int,
        None => 0,
    };
    let wanted = if cursor + count > usize::MAX {
        usize::MAX as int
    } else {
        cursor + count
    };
    (cursor, if wanted < data.len() {
        wanted
    } else {
        data.len() as int
    })
}

/// Whether handling the system call is defined: writev writes to stdout or
/// stderr, from an I/O vector whose entries and buffers are readable; read
/// reads a file that has data, from a cursor within it.
pub open spec fn sys_defined(v: EmuView) -> bool {
    let regs = v.regs;
    let a0 = regs[A0_INDEX as int];
    let n = regs[A7_INDEX as int];
    &&& n == 66 ==> {
        &&& (a0 as i32 == 1 || a0 as i32 == 2)
        &&& writev_data(v.memory, regs[A1_INDEX as int] as usize, regs[A2_INDEX as int] as usize as nat) is Some
    }
    &&& (n == 63 && a0 as usize == 0 && v.files.len() > 0 && v.files[0] is Some) ==> {
        let f = v.files[0]->Some_0;
        &&& f.data is Some
        &&& read_window(f, regs[A2_INDEX as int] as usize).0 <= read_window(f, regs[A2_INDEX as int] as usize).1
    }
}

/// Handling the system call whose number is in a7, with the program counter
/// on the ECALL: the state after, what it writes to standard output, and why
/// it stops the emulator, if it does. Calls that return move the program
/// counter past the ECALL.
pub open spec fn sys_spec(v: EmuView) -> (EmuView, Seq<u8>, Option<SysStop>) {
    let regs = v.regs;
    let a0 = regs[A0_INDEX as int];
    let a1 = regs[A1_INDEX as int];
    let a2 = regs[A2_INDEX as int];
    let n = regs[A7_INDEX as int];
    if n == 96 {
        // set_tid_address
        (with_regs(v, advance(regs.update(A0_INDEX as int, 1337))), Seq::empty(), None)
    } else if n == 29 {
        // ioctl
        (with_regs(v, advance(regs.update(A0_INDEX as int, u64::MAX))), Seq::empty(), None)
    } else if n == 66 {
        // writev
        let data = writev_data(v.memory, a1 as usize, a2 as usize as nat)->Some_0;
        (with_regs(v, advance(regs.update(A0_INDEX as int, data.len() as u64))), data, None)
    } else if n == 63 {
        // read: the fuzz input from its cursor into the buffer; the cursor
        // moves past the bytes read, and a0 holds their number
        if a0 as usize != 0 {
            (v, Seq::empty(), Some(SysStop::Error("Invalid file descriptor: "@ + decimal(a0 as usize as nat))))
        } else if v.files.len() > 0 && v.files[0] is Some {
            let f = v.files[0]->Some_0;
            let (start, end) = read_window(f, a2 as usize);
            match write_result(v.memory, a1 as usize, f.data->Some_0.subrange(start, end)) {
                Ok(m) => (
                    EmuView {
                        regs: advance(regs.update(A0_INDEX as int, (end - start) as u64)),
                        memory: m,
                        files: v.files.update(
                            0,
                            Some(FileView { offset: Some(end as usize), ..f }),
                        ),
                    },
                    Seq::empty(),
                    None,
                ),
                Err(_) => (v, Seq::empty(), Some(SysStop::Error("Failed to write data"@))),
            }
        } else {
            (v, Seq::empty(), Some(SysStop::Error("Invalid file descriptor: "@ + decimal(0))))
        }
    } else if n == 93 || n == 94 {
        // exit, exit_group
        (v, Seq::empty(), Some(SysStop::Exit))
    } else {
        (v, Seq::empty(), Some(SysStop::Error("Unimplemented syscall: "@ + decimal(n as nat))))
    }
}

/// `r` is the outcome of a system call that stops with `stop`, if it does.
pub open spec fn sys_outcome(r: Result<(), EmuExit>, stop: Option<SysStop>) -> bool {
    match stop {
        None => r is Ok,
        Some(SysStop::Exit) => r matches Err(EmuExit::Exit),
        Some(SysStop::Error(msg)) => r matches Err(EmuExit::SyscallError(s)) && s@ == msg,
    }
}

/// Once the I/O vector cannot be read up to some entry, it cannot be read
/// further either.
pub(crate) proof fn lemma_writev_stops(m: MmuView, iov: usize, i: nat, n: nat)
    requires
        writev_data(m, iov, i) is None,
        i <= n,
    ensures
        writev_data(m, iov, n) is None,
    decreases n - i,
{
    if i < n {
        lemma_writev_stops(m, iov, i, (n - 1) as nat);
    }
}

/// What system calls do to the registers: one that returns moves pc past
/// the ECALL (wrapping) and changes no register but a0 and pc; one that
/// stops the emulator changes nothing and writes nothing. set_tid_address
/// returns 1337 and ioctl all ones in a0; exit and exit_group stop with an
/// exit. Calls other than read leave memory and files as they were.
pub proof fn lemma_sys_registers(v: EmuView)
    requires
        v.regs.len() == 33,
        sys_defined(v),
    ensures
        ({
            let (v2, written, stop) = sys_spec(v);
            let n = v.regs[A7_INDEX as int];
            &&& stop is None ==> v2.regs.len() == 33
            &&& stop is None ==> v2.regs[32] == ((v.regs[32] + 4) % 0x1_0000_0000_0000_0000int) as u64
            &&& stop is None ==> forall|r: int|
                0 <= r < 32 && r != A0_INDEX ==> #[trigger] v2.regs[r] == v.regs[r]
            &&& stop is Some ==> v2 == v && written.len() == 0
            &&& n == 96 ==> stop is None && v2.regs[A0_INDEX as int] == 1337
            &&& n == 29 ==> stop is None && v2.regs[A0_INDEX as int] == 0xffff_ffff_ffff_ffff
            &&& (n == 93 || n == 94) ==> stop == Some(SysStop::Exit)
            &&& n == 66 ==> stop is None && v2.regs[A0_INDEX as int] == written.len() as u64
            &&& n != 66 ==> written.len() == 0
            &&& n != 63 ==> v2.memory == v.memory && v2.files == v.files
        }),
{
}

/// A read of the fuzz input (file 0) that returns copies the bytes from its
/// cursor into the buffer, at most the count asked for and fewer only at the
/// end of the input, returns their number in a0 and moves the cursor past
/// them; no other file changes.
pub proof fn lemma_read_moves_cursor(v: EmuView)
    requires
        v.regs.len() == 33,
        sys_defined(v),
        v.regs[A7_INDEX as int] == 63,
        sys_spec(v).2 is None,
        forall|f: FileView|
            v.files.len() > 0 && v.files[0] == Some(f) && f.data is Some
                ==> #[trigger] f.data->Some_0.len() <= usize::MAX,
    ensures
        ({
            let v2 = sys_spec(v).0;
            let f = v.files[0]->Some_0;
            let data = f.data->Some_0;
            let cursor = match f.offset {
                Some(c) => c as int,
                None => 0,
            };
            let count = v.regs[A2_INDEX as int] as usize;
            let n = v2.regs[A0_INDEX as int] as int;
            &&& v.files.len() > 0 && v.files[0] is Some && f.data is Some
            &&& 0 <= n <= count
            &&& cursor + n <= data.len()
            &&& n < count ==> cursor + n == data.len()
            &&& v2.files == v.files.update(
                0,
                Some(FileView { offset: Some((cursor + n) as usize), ..f }),
            )
            &&& Ok::<MmuView, crate::mmu::MmuError>(v2.memory) == write_result(
                v.memory,
                v.regs[A1_INDEX as int] as usize,
                data.subrange(cursor, cursor + n),
            )
        }),
{
    let f = v.files[0]->Some_0;
    let (start, end) = read_window(f, v.regs[A2_INDEX as int] as usize);
    assert(f.data->Some_0.len() <= usize::MAX);
    assert(start <= end);
    let v2 = sys_spec(v).0;
    assert(v2.regs[A0_INDEX as int] == (end - start) as u64);
    assert(v2.regs[A0_INDEX as int] as int == end - start);
}

} // verus!
