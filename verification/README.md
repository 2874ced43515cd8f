# nightcrawler

A RISC-V (RV64I) userland emulator for snapshot fuzzing of Linux ELF
binaries, with its core proved correct in Verus.

Layout:

- `src/mmu.rs`: the memory management unit. Byte-level permissions,
  read-after-write tracking of uninitialized memory, a bump allocator, and
  dirty-block tracking for differential restoration of a fork to its origin.
  Every operation is specified over `MmuView`; the proof functions at the end
  state what a read gives back of a write, and that resetting a fork restores
  its origin whatever writes, permission changes and allocations it saw.
- `src/isa.rs`: registers and the instruction formats, with the RISC-V
  immediate encodings as specifications.
- `src/semantics.rs`: what each supported instruction does
  (`execute_spec`, `step_spec`, `run_spec`).
- `src/emu.rs`: the emulator: registers, files, fork and reset, `step`,
  `run` with a step budget, the program's start frame, program loading and
  system calls.
- `src/fuzz.rs`: one fuzz case: drawing a random input, and running the
  program on it until it exits, crashes or fails (`case_spec`).
- `src/loader.rs`: the ELF program headers and what loading them does; the
  ELF file itself is parsed by the `elf` crate.
- `src/sys.rs`: what the supported Linux system calls do.
- `src/prim.rs`: little-endian encodings of the primitive integer types.
- `app/main.rs`: the fuzzer around the library: reading the program from
  disk, worker threads, timing and statistics, and writing system-call output
  to stdout.
