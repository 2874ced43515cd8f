use vstd::prelude::*;
use crate::emu::{EmuExit, EmuView, Emulator, handle_sys};
use crate::mmu::MmuView;
use crate::semantics::{step_defined, step_spec};
use crate::sys::{SysStop, sys_defined, sys_spec};
use crate::{Rng, xorshift};

verus! {

/// The state `n` xorshift steps after `s`.
pub open spec fn xorshift_n(s: u64, n: nat) -> u64
    decreases n,
{
    if n == 0 {
        s
    } else {
        xorshift(xorshift_n(s, (n - 1) as nat))
    }
}

/// Length of the fuzz input drawn from a generator in state `s`: its first
/// number modulo 100.
pub open spec fn fuzz_input_len(s: u64) -> nat {
    ((xorshift(s) as usize) % 100) as nat
}

/// The fuzz input drawn from a generator in state `s`: after the number
/// that gives its length, one byte for each further number, its low byte.
pub open spec fn fuzz_input_spec(s: u64) -> Seq<u8> {
    Seq::new(fuzz_input_len(s), |j: int| (xorshift_n(s, (j + 2) as nat) as usize) as u8)
}

/// The state of the generator once the fuzz input has been drawn.
pub open spec fn fuzz_state_after(s: u64) -> u64 {
    xorshift_n(s, fuzz_input_len(s) + 1)
}

/// Draw a fuzz input: random bytes of a random length below 100.
pub fn fuzz_input(rng: &mut Rng) -> (r: Vec<u8>)
    ensures
        r@ == fuzz_input_spec(old(rng).0),
        final(rng).0 == fuzz_state_after(old(rng).0),
{
    let ghost s0 = rng.0;
    let len: usize = rng.rng() % 100;
    assert(xorshift_n(s0, 1) == xorshift(s0)) by {
        reveal_with_fuel(xorshift_n, 2);
    }
    let mut data: Vec<u8> = Vec::with_capacity(len);
    let mut i: usize = 0;
    while i < len
        invariant
            i <= len,
            len == fuzz_input_len(s0),
            rng.0 == xorshift_n(s0, (i + 1) as nat),
            data@.len() == i,
            forall|j: int| 0 <= j < i ==> #[trigger] data@[j] == fuzz_input_spec(s0)[j],
        decreases len - i,
    {
        let b: usize = rng.rng();
        data.push(b as u8);
        i = i + 1;
    }
    assert(data@ =~= fuzz_input_spec(s0));
    data
}

/// How a fuzz case ended.
#[derive(Debug)]
pub enum CaseEnd {
    /// The program exited.
    Exited,
    /// The program faulted on a memory access: a crash found.
    Crashed(EmuExit),
    /// A system call failed.
    SyscallFailed(EmuExit),
    /// The emulator stopped for another reason.
    Unexpected(EmuExit),
    /// The next instruction, or the arguments of the system call, are not
    /// supported.
    Unsupported,
    /// The step budget ran out.
    Budget,
}

/// How a fuzz case ends, as the specification speaks of it.
pub enum CaseStop {
    Exited,
    Crashed(EmuExit),
    SyscallFailed(Seq<char>),
    Unexpected(EmuExit),
    Unsupported,
    Budget,
}

/// The exits that are crashes: faults on memory accesses.
pub open spec fn is_crash(e: EmuExit) -> bool {
    e is ReadFault || e is WriteFault || e is UninitFault
}

/// Running a fuzz case with at most `fuel` steps, each an instruction or a
/// system call that returns: the emulator, what the program wrote to
/// standard output after `out`, how the case ends, and the number of steps
/// taken.
pub open spec fn case_spec(v: EmuView, out: Seq<u8>, fuel: nat) -> (EmuView, Seq<u8>, CaseStop, nat)
    decreases fuel,
{
    if fuel == 0 {
        (v, out, CaseStop::Budget, 0)
    } else if !step_defined(v.regs, v.memory) {
        (v, out, CaseStop::Unsupported, 0)
    } else {
        match step_spec(v.regs, v.memory) {
            Ok((regs, m)) => {
                let r = case_spec(
                    EmuView { regs: regs, memory: m, files: v.files },
                    out,
                    (fuel - 1) as nat,
                );
                (r.0, r.1, r.2, r.3 + 1)
            },
            Err(EmuExit::Syscall) => if !sys_defined(v) {
                (v, out, CaseStop::Unsupported, 0)
            } else {
                let (v2, written, stop) = sys_spec(v);
                match stop {
                    None => {
                        let r = case_spec(v2, out + written, (fuel - 1) as nat);
                        (r.0, r.1, r.2, r.3 + 1)
                    },
                    Some(SysStop::Exit) => (v2, out + written, CaseStop::Exited, 0),
                    Some(SysStop::Error(msg)) => (v2, out + written, CaseStop::SyscallFailed(msg), 0),
                }
            },
            Err(EmuExit::Exit) => (v, out, CaseStop::Exited, 0),
            Err(e) => if is_crash(e) {
                (v, out, CaseStop::Crashed(e), 0)
            } else {
                (v, out, CaseStop::Unexpected(e), 0)
            },
        }
    }
}

/// `r` is the end of a fuzz case that ends with `stop`.
pub open spec fn case_outcome(r: CaseEnd, stop: CaseStop) -> bool {
    match stop {
        CaseStop::Exited => r is Exited,
        CaseStop::Crashed(e) => r == CaseEnd::Crashed(e),
        CaseStop::SyscallFailed(msg) => r matches CaseEnd::SyscallFailed(EmuExit::SyscallError(s))
            && s@ == msg,
        CaseStop::Unexpected(e) => r == CaseEnd::Unexpected(e),
        CaseStop::Unsupported => r is Unsupported,
        CaseStop::Budget => r is Budget,
    }
}

/// Run a fuzz case until it ends, for at most `max_steps` steps: execute
/// instructions, handle the system calls (what they write goes to `out`),
/// and sort the end into an exit, a crash, a failed system call or an
/// unexpected stop. Returns how it ended and the number of steps taken.
pub fn run_case(emu: &mut Emulator, max_steps: u64, out: &mut Vec<u8>) -> (r: (CaseEnd, u64))
    requires
        old(emu).wf(),
    ensures
        final(emu).wf(),
        final(emu)@ == case_spec(old(emu)@, old(out)@, max_steps as nat).0,
        final(out)@ == case_spec(old(emu)@, old(out)@, max_steps as nat).1,
        case_outcome(r.0, case_spec(old(emu)@, old(out)@, max_steps as nat).2),
        r.1 == case_spec(old(emu)@, old(out)@, max_steps as nat).3,
{
    let mut steps: u64 = 0;
    while steps < max_steps
        invariant
            emu.wf(),
            steps <= max_steps,
            case_spec(old(emu)@, old(out)@, max_steps as nat).0 == case_spec(
                emu@,
                out@,
                (max_steps - steps) as nat,
            ).0,
            case_spec(old(emu)@, old(out)@, max_steps as nat).1 == case_spec(
                emu@,
                out@,
                (max_steps - steps) as nat,
            ).1,
            case_spec(old(emu)@, old(out)@, max_steps as nat).2 == case_spec(
                emu@,
                out@,
                (max_steps - steps) as nat,
            ).2,
            case_spec(old(emu)@, old(out)@, max_steps as nat).3 == case_spec(
                emu@,
                out@,
                (max_steps - steps) as nat,
            ).3 + steps,
        decreases max_steps - steps,
    {
        if !emu.can_step() {
            return (CaseEnd::Unsupported, steps);
        }
        match emu.step() {
            Ok(()) => {},
            Err(EmuExit::Syscall) => {
                if !emu.can_handle_sys() {
                    return (CaseEnd::Unsupported, steps);
                }
                match handle_sys(emu, out) {
                    Ok(()) => {},
                    Err(EmuExit::Exit) => {
                        return (CaseEnd::Exited, steps);
                    },
                    Err(e) => {
                        return (CaseEnd::SyscallFailed(e), steps);
                    },
                }
            },
            Err(EmuExit::Exit) => {
                return (CaseEnd::Exited, steps);
            },
            Err(EmuExit::ReadFault(a)) => {
                return (CaseEnd::Crashed(EmuExit::ReadFault(a)), steps);
            },
            Err(EmuExit::WriteFault(a)) => {
                return (CaseEnd::Crashed(EmuExit::WriteFault(a)), steps);
            },
            Err(EmuExit::UninitFault(a)) => {
                return (CaseEnd::Crashed(EmuExit::UninitFault(a)), steps);
            },
            Err(e) => {
                return (CaseEnd::Unexpected(e), steps);
            },
        }
        steps = steps + 1;
    }
    (CaseEnd::Budget, steps)
}

/// A fuzz case whose next instruction faults on a memory access (a read,
/// write or uninitialized-access fault) ends at once as a crash with that
/// fault, taking no step and changing nothing.
pub proof fn lemma_fault_is_crash(v: EmuView, out: Seq<u8>, fuel: nat)
    requires
        fuel > 0,
        step_defined(v.regs, v.memory),
        step_spec(v.regs, v.memory) matches Err(e) && (e is ReadFault || e is WriteFault
            || e is UninitFault),
    ensures
        case_spec(v, out, fuel) == (v, out, CaseStop::Crashed(step_spec(v.regs, v.memory)->Err_0), 0nat),
{
}

/// A fuzz case with budget left whose next instruction is not supported
/// ends at once as unsupported, changing nothing.
pub proof fn lemma_unsupported_ends_case(v: EmuView, out: Seq<u8>, fuel: nat)
    requires
        fuel > 0,
        !step_defined(v.regs, v.memory),
    ensures
        case_spec(v, out, fuel) == (v, out, CaseStop::Unsupported, 0nat),
{
}

/// A fuzz case takes at most `fuel` steps, and runs out of budget only
/// after taking all of them; the output only grows.
pub proof fn lemma_case_steps(v: EmuView, out: Seq<u8>, fuel: nat)
    ensures
        case_spec(v, out, fuel).3 <= fuel,
        case_spec(v, out, fuel).2 is Budget ==> case_spec(v, out, fuel).3 == fuel,
        case_spec(v, out, fuel).1.len() >= out.len(),
        case_spec(v, out, fuel).1.subrange(0, out.len() as int) == out,
    decreases fuel,
{
    if fuel > 0 && step_defined(v.regs, v.memory) {
        match step_spec(v.regs, v.memory) {
            Ok((regs, m)) => {
                lemma_case_steps(EmuView { regs: regs, memory: m, files: v.files }, out, (fuel - 1) as nat);
            },
            Err(EmuExit::Syscall) => if sys_defined(v) {
                let (v2, written, stop) = sys_spec(v);
                if stop is None {
                    lemma_case_steps(v2, out + written, (fuel - 1) as nat);
                    assert((out + written).subrange(0, out.len() as int) =~= out);
                }
                assert((out + written).subrange(0, out.len() as int) =~= out);
            },
            Err(_) => {},
        }
    }
    assert(out.subrange(0, out.len() as int) =~= out);
}

/// A fuzz case whose next instruction is a system call asking to exit ends
/// as an exit, after the steps before it.
pub proof fn lemma_exit_call_ends_case(v: EmuView, out: Seq<u8>, fuel: nat)
    requires
        fuel > 0,
        v.regs.len() == 33,
        step_defined(v.regs, v.memory),
        step_spec(v.regs, v.memory) == Err::<(Seq<u64>, MmuView), EmuExit>(EmuExit::Syscall),
        v.regs[17] == 93 || v.regs[17] == 94,
    ensures
        case_spec(v, out, fuel) == (v, out, CaseStop::Exited, 0nat),
{
    assert(out + Seq::<u8>::empty() =~= out);
}

} // verus!
