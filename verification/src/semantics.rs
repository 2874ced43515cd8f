use vstd::prelude::*;
use crate::emu::{EmuExit, exit_of, mmu_error_is_fatal, reg_read, reg_write};
use crate::isa::{
    funct3_of, funct7_of, imm_b, imm_i, imm_j, imm_s, imm_u, opcode_of, rd_of, rs1_of, rs2_of,
    sign_extend, Itype, PC_INDEX,
};
use crate::mmu::{MmuError, MmuView, Perm, PermBit, first_lacking, read_result, write_result};
use crate::prim::Prim;

verus! {

/// `a + b` modulo 2^64.
pub open spec fn add64(a: u64, b: u64) -> u64 {
    ((a + b) % 0x1_0000_0000_0000_0000int) as u64
}

/// `a - b` modulo 2^64.
pub open spec fn sub64(a: u64, b: u64) -> u64 {
    ((a - b) % 0x1_0000_0000_0000_0000int) as u64
}

/// The two's complement value of `a`.
pub open spec fn signed64(a: u64) -> int {
    if a >= 0x8000_0000_0000_0000 {
        a - 0x1_0000_0000_0000_0000int
    } else {
        a as int
    }
}

/// The low 32 bits of `a`, sign-extended to 64 bits.
pub open spec fn sext32(a: u64) -> u64 {
    sign_extend(a & 0xffff_ffff, 32)
}

/// Arithmetic right shift of `a` by `s`.
pub open spec fn sra64(a: u64, s: u64) -> u64 {
    ((a as i64) >> s) as u64
}

/// Arithmetic right shift of the low 32 bits of `a` by `s`, sign-extended
/// to 64 bits.
pub open spec fn sra32(a: u64, s: u64) -> u64 {
    (((a as i32) >> s) as i64) as u64
}

/// The registers with the program counter moved to the next instruction.
pub open spec fn advance(regs: Seq<u64>) -> Seq<u64> {
    regs.update(PC_INDEX as int, add64(regs[PC_INDEX as int], 4))
}

/// Whether the branch with minor opcode `funct3` is taken.
pub open spec fn branch_taken(funct3: u32, a: u64, b: u64) -> bool {
    if funct3 == 0 {
        a == b
    } else if funct3 == 1 {
        a != b
    } else if funct3 == 4 {
        signed64(a) < signed64(b)
    } else if funct3 == 5 {
        signed64(a) >= signed64(b)
    } else if funct3 == 6 {
        a < b
    } else {
        a >= b
    }
}

/// Number of bytes that the load with minor opcode `funct3` reads.
pub open spec fn load_size(funct3: u32) -> int {
    if funct3 == 0 || funct3 == 4 {
        1
    } else if funct3 == 1 || funct3 == 5 {
        2
    } else if funct3 == 2 || funct3 == 6 {
        4
    } else {
        8
    }
}

/// The register value that the load with minor opcode `funct3` makes of
/// the little-endian `bytes`: sign-extended for LB, LH, LW, zero-extended
/// for LBU, LHU, LWU.
pub open spec fn load_value(funct3: u32, bytes: Seq<u8>) -> u64 {
    if funct3 == 0 {
        sign_extend(bytes[0] as u64, 8)
    } else if funct3 == 1 {
        sign_extend(<u16 as Prim>::spec_from_le(bytes) as u64, 16)
    } else if funct3 == 2 {
        sign_extend(<u32 as Prim>::spec_from_le(bytes) as u64, 32)
    } else if funct3 == 3 {
        <u64 as Prim>::spec_from_le(bytes)
    } else if funct3 == 4 {
        bytes[0] as u64
    } else if funct3 == 5 {
        <u16 as Prim>::spec_from_le(bytes) as u64
    } else {
        <u32 as Prim>::spec_from_le(bytes) as u64
    }
}

/// The little-endian bytes that the store with minor opcode `funct3` writes
/// of `v`: its low 1, 2, 4 or 8 bytes.
pub open spec fn store_bytes(funct3: u32, v: u64) -> Seq<u8> {
    if funct3 == 0 {
        (v as u8).spec_to_le()
    } else if funct3 == 1 {
        (v as u16).spec_to_le()
    } else if funct3 == 2 {
        (v as u32).spec_to_le()
    } else {
        v.spec_to_le()
    }
}

/// The result of the register-immediate operation with minor opcode
/// `funct3` (ADDI, SLTI, SLTIU, XORI, ORI, ANDI, SLLI, SRLI, SRAI).
pub open spec fn alu_imm(funct3: u32, a: u64, imm: u64) -> u64 {
    if funct3 == 0 {
        add64(a, imm)
    } else if funct3 == 2 {
        if signed64(a) < signed64(imm) {
            1
        } else {
            0
        }
    } else if funct3 == 3 {
        if a < imm {
            1
        } else {
            0
        }
    } else if funct3 == 4 {
        a ^ imm
    } else if funct3 == 6 {
        a | imm
    } else if funct3 == 7 {
        a & imm
    } else if funct3 == 1 {
        a << (imm & 0x3f)
    } else if (imm >> 6u64) & 0x3f == 0 {
        a >> (imm & 0x3f)
    } else {
        sra64(a, imm & 0x3f)
    }
}

/// The result of the register-register operation with minor opcode
/// `funct3` and function `funct7` (ADD, SUB, SLL, SLT, SLTU, XOR, SRL, SRA,
/// OR, AND).
pub open spec fn alu_reg(funct3: u32, funct7: u32, a: u64, b: u64) -> u64 {
    if funct3 == 0 {
        if funct7 == 0 {
            add64(a, b)
        } else {
            sub64(a, b)
        }
    } else if funct3 == 1 {
        a << (b & 0x3f)
    } else if funct3 == 2 {
        if signed64(a) < signed64(b) {
            1
        } else {
            0
        }
    } else if funct3 == 3 {
        if a < b {
            1
        } else {
            0
        }
    } else if funct3 == 4 {
        a ^ b
    } else if funct3 == 5 {
        if funct7 == 0 {
            a >> (b & 0x3f)
        } else {
            sra64(a, b & 0x3f)
        }
    } else if funct3 == 6 {
        a | b
    } else {
        a & b
    }
}

/// The result of the 32-bit register-immediate operation with minor opcode
/// `funct3` (ADDIW, SLLIW, SRLIW, SRAIW): the operation on the low 32 bits,
/// its 32-bit result sign-extended to 64 bits.
pub open spec fn alu_imm_w(funct3: u32, a: u64, imm: u64) -> u64 {
    if funct3 == 0 {
        sext32(add64(a, imm))
    } else if funct3 == 1 {
        sext32(a << (imm & 0x1f))
    } else if (imm >> 5u64) & 0x3f == 0 {
        sext32((a & 0xffff_ffff) >> (imm & 0x1f))
    } else {
        sra32(a, imm & 0x1f)
    }
}

/// The result of the 32-bit register-register operation with minor opcode
/// `funct3` and function `funct7` (ADDW, SUBW, SLLW, SRLW, SRAW): the
/// operation on the low 32 bits, its 32-bit result sign-extended to 64 bits.
pub open spec fn alu_reg_w(funct3: u32, funct7: u32, a: u64, b: u64) -> u64 {
    if funct3 == 0 {
        if funct7 == 0 {
            sext32(add64(a, b))
        } else {
            sext32(sub64(a, b))
        }
    } else if funct3 == 1 {
        sext32(a << (b & 0x1f))
    } else if funct7 == 0 {
        sext32((a & 0xffff_ffff) >> (b & 0x1f))
    } else {
        sra32(a, b & 0x1f)
    }
}

/// Whether the emulator implements `inst`.
pub open spec fn supported(inst: u32) -> bool {
    let op = opcode_of(inst);
    let f3 = funct3_of(inst);
    let f7 = funct7_of(inst);
    if op == 0x37 || op == 0x17 || op == 0x6f {
        true
    } else if op == 0x67 {
        f3 == 0
    } else if op == 0x63 {
        f3 != 2 && f3 != 3
    } else if op == 0x03 {
        f3 != 7
    } else if op == 0x23 {
        f3 <= 3
    } else if op == 0x13 {
        &&& f3 == 1 ==> (imm_i(inst) >> 6u64) & 0x3f == 0
        &&& f3 == 5 ==> ((imm_i(inst) >> 6u64) & 0x3f == 0 || (imm_i(inst) >> 6u64) & 0x3f
            == 0x10)
    } else if op == 0x33 {
        (f3 == 0 || f3 == 5) ==> (f7 == 0 || f7 == 0x20)
    } else if op == 0x1b {
        f3 == 0 || f3 == 1 || (f3 == 5 && ((imm_i(inst) >> 5u64) & 0x3f == 0 || (imm_i(inst)
            >> 5u64) & 0x3f == 0x20))
    } else if op == 0x3b {
        f3 == 1 || ((f3 == 0 || f3 == 5) && (f7 == 0 || f7 == 0x20))
    } else if op == 0x0f {
        (inst >> 24u32) & 0xf == 0 && (inst >> 20u32) & 0xf == 0
    } else if op == 0x73 {
        f3 == 0
    } else {
        false
    }
}

/// The registers and memory after executing the supported instruction
/// `inst`, or why execution stops. ECALL stops with `Syscall` and leaves
/// the program counter on the ECALL.
pub open spec fn execute_spec(regs: Seq<u64>, m: MmuView, inst: u32) -> Result<
    (Seq<u64>, MmuView),
    EmuExit,
> {
    let pc = regs[PC_INDEX as int];
    let op = opcode_of(inst);
    let rd = rd_of(inst) as int;
    let a = reg_read(regs, rs1_of(inst) as int);
    let b = reg_read(regs, rs2_of(inst) as int);
    let f3 = funct3_of(inst);
    let f7 = funct7_of(inst);
    if op == 0x37 {
        Ok((advance(reg_write(regs, rd, imm_u(inst))), m))
    } else if op == 0x17 {
        Ok((advance(reg_write(regs, rd, add64(pc, imm_u(inst)))), m))
    } else if op == 0x6f {
        Ok((reg_write(regs, rd, add64(pc, 4)).update(PC_INDEX as int, add64(pc, imm_j(inst))), m))
    } else if op == 0x67 {
        Ok((reg_write(regs, rd, add64(pc, 4)).update(PC_INDEX as int, add64(a, imm_i(inst))), m))
    } else if op == 0x63 {
        if branch_taken(f3, a, b) {
            Ok((regs.update(PC_INDEX as int, add64(pc, imm_b(inst))), m))
        } else {
            Ok((advance(regs), m))
        }
    } else if op == 0x03 {
        match read_result(
            m,
            add64(a, imm_i(inst)) as usize,
            load_size(f3),
            Perm(PermBit::Read.spec_bits()),
        ) {
            Ok(bytes) => Ok((advance(reg_write(regs, rd, load_value(f3, bytes))), m)),
            Err(e) => Err(exit_of(e)),
        }
    } else if op == 0x23 {
        match write_result(m, add64(a, imm_s(inst)) as usize, store_bytes(f3, b)) {
            Ok(m2) => Ok((advance(regs), m2)),
            Err(e) => Err(exit_of(e)),
        }
    } else if op == 0x13 {
        Ok((advance(reg_write(regs, rd, alu_imm(f3, a, imm_i(inst)))), m))
    } else if op == 0x33 {
        Ok((advance(reg_write(regs, rd, alu_reg(f3, f7, a, b))), m))
    } else if op == 0x1b {
        Ok((advance(reg_write(regs, rd, alu_imm_w(f3, a, imm_i(inst)))), m))
    } else if op == 0x3b {
        Ok((advance(reg_write(regs, rd, alu_reg_w(f3, f7, a, b))), m))
    } else if op == 0x0f {
        Ok((advance(regs), m))
    } else {
        Err(EmuExit::Syscall)
    }
}

/// The instruction at the program counter, read with the read permission.
pub open spec fn fetch(regs: Seq<u64>, m: MmuView) -> Result<u32, MmuError> {
    match read_result(m, regs[PC_INDEX as int] as usize, 4, Perm(PermBit::Read.spec_bits())) {
        Ok(bytes) => Ok(<u32 as Prim>::spec_from_le(bytes)),
        Err(e) => Err(e),
    }
}

/// Whether executing the next instruction is defined: its fetch fails, or
/// it is supported.
pub open spec fn step_defined(regs: Seq<u64>, m: MmuView) -> bool {
    match fetch(regs, m) {
        Ok(inst) => supported(inst),
        Err(_) => true,
    }
}

/// The registers and memory after executing the next instruction, or why
/// execution stops.
pub open spec fn step_spec(regs: Seq<u64>, m: MmuView) -> Result<(Seq<u64>, MmuView), EmuExit> {
    match fetch(regs, m) {
        Ok(inst) => execute_spec(regs, m, inst),
        Err(e) => Err(exit_of(e)),
    }
}

/// Running at most `fuel` instructions: the registers and memory reached,
/// and `Some(Err(e))` when an instruction stops execution with `e`,
/// `Some(Ok(()))` when all `fuel` instructions ran, `None` when the next
/// instruction is not supported.
pub open spec fn run_spec(regs: Seq<u64>, m: MmuView, fuel: nat) -> (
    Seq<u64>,
    MmuView,
    Option<Result<(), EmuExit>>,
)
    decreases fuel,
{
    if fuel == 0 {
        (regs, m, Some(Ok(())))
    } else if !step_defined(regs, m) {
        (regs, m, None)
    } else {
        match step_spec(regs, m) {
            Err(e) => (regs, m, Some(Err(e))),
            Ok((regs2, m2)) => run_spec(regs2, m2, (fuel - 1) as nat),
        }
    }
}

/// An error of an access that expects only the read or only the write
/// permission has an exit of its own.
pub proof fn lemma_access_error_not_fatal(v: MmuView, addr: usize, size: int, buf: Seq<u8>)
    ensures
        read_result(v, addr, size, Perm(PermBit::Read.spec_bits())) matches Err(e)
            ==> !mmu_error_is_fatal(e),
        write_result(v, addr, buf) matches Err(e) ==> !mmu_error_is_fatal(e),
{
    let r = read_result(v, addr, size, Perm(PermBit::Read.spec_bits()));
    if r is Err {
        if let Some(i) = first_lacking(v.perms, addr as int, addr + size, 4u8) {
            lemma_first_lacking_some(v.perms, addr as int, addr + size, 4u8);
        }
    }
    let w = write_result(v, addr, buf);
    if w is Err {
        if let Some(i) = first_lacking(v.perms, addr as int, addr + buf.len(), 2u8) {
            lemma_first_lacking_some(v.perms, addr as int, addr + buf.len(), 2u8);
        }
    }
}

proof fn lemma_first_lacking_some(perms: Seq<Perm>, lo: int, hi: int, mask: u8)
    ensures
        first_lacking(perms, lo, hi, mask) matches Some(i) ==> perms[i].0 & mask == 0,
    decreases hi - lo,
{
    if lo < hi {
        lemma_first_lacking_some(perms, lo + 1, hi, mask);
    }
}


pub(crate) proof fn lemma_wrapping(a: u64, b: u64)
    ensures
        vstd::wrapping::u64_specs::wrapping_add(a, b) == add64(a, b),
        vstd::wrapping::u64_specs::wrapping_sub(a, b) == sub64(a, b),
{
}

pub(crate) proof fn lemma_casts(a: u64, b: u64)
    ensures
        ((a as i64) < (b as i64)) == (signed64(a) < signed64(b)),
        ((a as i64) >= (b as i64)) == (signed64(a) >= signed64(b)),
        (((a as i32) as i64) as u64) == sext32(a),
        (a as i64) as u64 == a,
        b & 0x3f < 64,
        b & 0x1f < 32,
{
    assert(((a as i64) < (b as i64)) == (signed64(a) < signed64(b))) by (bit_vector);
    assert(((a as i64) >= (b as i64)) == (signed64(a) >= signed64(b))) by (bit_vector);
    assert((((a as i32) as i64) as u64) == sext32(a)) by (bit_vector);
    assert((a as i64) as u64 == a) by (bit_vector);
    assert(b & 0x3f < 64) by (bit_vector);
    assert(b & 0x1f < 32) by (bit_vector);
}

pub(crate) proof fn lemma_load_casts(b: u8, h: u16, w: u32, d: u64)
    ensures
        ((b as i8) as u64) == sign_extend(b as u64, 8),
        ((h as i16) as u64) == sign_extend(h as u64, 16),
        ((w as i32) as u64) == sign_extend(w as u64, 32),
        ((d as i64) as u64) == d,
{
    assert(((b as i8) as u64) == sign_extend(b as u64, 8)) by (bit_vector);
    assert(((h as i16) as u64) == sign_extend(h as u64, 16)) by (bit_vector);
    assert(((w as i32) as u64) == sign_extend(w as u64, 32)) by (bit_vector);
    assert(((d as i64) as u64) == d) by (bit_vector);
}

/// Whether the branch with minor opcode `funct3` is taken.
pub(crate) fn take_branch(funct3: u32, rs1_val: u64, rs2_val: u64) -> (r: bool)
    requires
        funct3 < 8,
        funct3 != 2,
        funct3 != 3,
    ensures
        r == branch_taken(funct3, rs1_val, rs2_val),
{
    proof {
        lemma_casts(rs1_val, rs2_val);
    }
    match funct3 {
        /* BEQ */ 0b000 => rs1_val == rs2_val,
        /* BNE */ 0b001 => rs1_val != rs2_val,
        /* BLT */ 0b100 => (rs1_val as i64) < (rs2_val as i64),
        /* BGE */ 0b101 => (rs1_val as i64) >= (rs2_val as i64),
        /* BLTU */ 0b110 => rs1_val < rs2_val,
        /* BGEU */ _ => rs1_val >= rs2_val,
    }
}

/// The result of a register-immediate operation.
pub(crate) fn alu_imm_value(funct3: u32, rs1_val: u64, imm: u64) -> (r: u64)
    requires
        funct3 < 8,
        funct3 == 1 ==> (imm >> 6u64) & 0x3f == 0,
        funct3 == 5 ==> ((imm >> 6u64) & 0x3f == 0 || (imm >> 6u64) & 0x3f == 0x10),
    ensures
        r == alu_imm(funct3, rs1_val, imm),
{
    proof {
        lemma_casts(rs1_val, imm);
        lemma_wrapping(rs1_val, imm);
    }
    match funct3 {
        /* ADDI */ 0b000 => rs1_val.wrapping_add(imm),
        /* SLTI */ 0b010 => if (rs1_val as i64) < (imm as i64) {
            1
        } else {
            0
        },
        /* SLTIU */ 0b011 => if rs1_val < imm {
            1
        } else {
            0
        },
        /* XORI */ 0b100 => rs1_val ^ imm,
        /* ORI */ 0b110 => rs1_val | imm,
        /* ANDI */ 0b111 => rs1_val & imm,
        /* SLLI */ 0b001 => {
            let shift: u64 = imm & 0b111111;
            rs1_val << shift
        },
        /* SRLI, SRAI */ _ => {
            let mode: u64 = (imm >> 6u64) & 0b111111;
            let shift: u64 = imm & 0b111111;
            if mode == 0 {
                rs1_val >> shift
            } else {
                ((rs1_val as i64) >> shift) as u64
            }
        },
    }
}

/// The result of a register-register operation.
pub(crate) fn alu_reg_value(funct3: u32, funct7: u32, rs1_val: u64, rs2_val: u64) -> (r: u64)
    requires
        funct3 < 8,
        (funct3 == 0 || funct3 == 5) ==> (funct7 == 0 || funct7 == 0x20),
    ensures
        r == alu_reg(funct3, funct7, rs1_val, rs2_val),
{
    proof {
        lemma_casts(rs1_val, rs2_val);
        lemma_wrapping(rs1_val, rs2_val);
    }
    match funct3 {
        0b000 => if funct7 == 0 {
            /* ADD */
            rs1_val.wrapping_add(rs2_val)
        } else {
            /* SUB */
            rs1_val.wrapping_sub(rs2_val)
        },
        /* SLL */ 0b001 => rs1_val << (rs2_val & 0b111111),
        /* SLT */ 0b010 => if (rs1_val as i64) < (rs2_val as i64) {
            1
        } else {
            0
        },
        /* SLTU */ 0b011 => if rs1_val < rs2_val {
            1
        } else {
            0
        },
        /* XOR */ 0b100 => rs1_val ^ rs2_val,
        0b101 => if funct7 == 0 {
            /* SRL */
            rs1_val >> (rs2_val & 0b111111)
        } else {
            /* SRA */
            ((rs1_val as i64) >> (rs2_val & 0b111111)) as u64
        },
        /* OR */ 0b110 => rs1_val | rs2_val,
        /* AND */ _ => rs1_val & rs2_val,
    }
}

/// The result of a 32-bit register-immediate operation.
pub(crate) fn alu_imm_w_value(funct3: u32, rs1_val: u64, imm: u64) -> (r: u64)
    requires
        funct3 == 0 || funct3 == 1 || (funct3 == 5 && ((imm >> 5u64) & 0x3f == 0 || (imm >> 5u64)
            & 0x3f == 0x20)),
    ensures
        r == alu_imm_w(funct3, rs1_val, imm),
{
    proof {
        lemma_casts(rs1_val, imm);
        lemma_casts(vstd::wrapping::u64_specs::wrapping_add(rs1_val, imm), imm);
        lemma_wrapping(rs1_val, imm);
    }
    match funct3 {
        /* ADDIW */ 0b000 => rs1_val.wrapping_add(imm) as i32 as i64 as u64,
        /* SLLIW */ 0b001 => {
            let shifted: u64 = rs1_val << (imm & 0b11111);
            proof {
                lemma_casts(shifted, imm);
            }
            shifted as i32 as i64 as u64
        },
        /* SRLIW, SRAIW */ _ => {
            let mode: u64 = (imm >> 5u64) & 0b111111;
            let shift: u64 = imm & 0b11111;
            if mode == 0 {
                let shifted: u64 = (rs1_val & 0xffff_ffff) >> shift;
                proof {
                    lemma_casts(shifted, imm);
                }
                shifted as i32 as i64 as u64
            } else {
                ((rs1_val as i32) >> shift) as i64 as u64
            }
        },
    }
}

/// The result of a 32-bit register-register operation.
pub(crate) fn alu_reg_w_value(funct3: u32, funct7: u32, rs1_val: u64, rs2_val: u64) -> (r: u64)
    requires
        funct3 == 1 || ((funct3 == 0 || funct3 == 5) && (funct7 == 0 || funct7 == 0x20)),
    ensures
        r == alu_reg_w(funct3, funct7, rs1_val, rs2_val),
{
    proof {
        lemma_casts(rs1_val, rs2_val);
        lemma_casts(vstd::wrapping::u64_specs::wrapping_add(rs1_val, rs2_val), rs2_val);
        lemma_casts(vstd::wrapping::u64_specs::wrapping_sub(rs1_val, rs2_val), rs2_val);
        lemma_wrapping(rs1_val, rs2_val);
    }
    match funct3 {
        0b000 => if funct7 == 0 {
            /* ADDW */
            rs1_val.wrapping_add(rs2_val) as i32 as i64 as u64
        } else {
            /* SUBW */
            rs1_val.wrapping_sub(rs2_val) as i32 as i64 as u64
        },
        /* SLLW */ 0b001 => {
            let shifted: u64 = rs1_val << (rs2_val & 0b11111);
            proof {
                lemma_casts(shifted, rs2_val);
            }
            shifted as i32 as i64 as u64
        },
        _ => if funct7 == 0 {
            /* SRLW */
            let shifted: u64 = (rs1_val & 0xffff_ffff) >> (rs2_val & 0b11111);
            proof {
                lemma_casts(shifted, rs2_val);
            }
            shifted as i32 as i64 as u64
        } else {
            /* SRAW */
            ((rs1_val as i32) >> (rs2_val & 0b11111)) as i64 as u64
        },
    }
}


/// Whether the emulator implements `inst`.
pub(crate) fn is_supported(inst: u32) -> (r: bool)
    ensures
        r == supported(inst),
{
    let opcode: u32 = inst & 0b1111111;
    let funct3: u32 = (inst >> 12u32) & 0b111;
    let funct7: u32 = (inst >> 25u32) & 0b1111111;
    let itype = Itype::from(inst);
    let imm: u64 = itype.imm as i64 as u64;
    match opcode {
        0b0110111 | 0b0010111 | 0b1101111 => true,
        0b1100111 => funct3 == 0,
        0b1100011 => funct3 != 0b010 && funct3 != 0b011,
        0b0000011 => funct3 != 0b111,
        0b0100011 => funct3 <= 0b011,
        0b0010011 => {
            let mode: u64 = (imm >> 6u64) & 0b111111;
            (funct3 != 0b001 || mode == 0) && (funct3 != 0b101 || mode == 0 || mode == 0b010000)
        },
        0b0110011 => (funct3 != 0b000 && funct3 != 0b101) || funct7 == 0 || funct7 == 0b0100000,
        0b0011011 => {
            let mode: u64 = (imm >> 5u64) & 0b111111;
            funct3 == 0b000 || funct3 == 0b001 || (funct3 == 0b101 && (mode == 0 || mode
                == 0b100000))
        },
        0b0111011 => funct3 == 0b001 || ((funct3 == 0b000 || funct3 == 0b101) && (funct7 == 0
            || funct7 == 0b0100000)),
        0b0001111 => {
            let pred: u32 = (inst >> 24u32) & 0b1111;
            let succ: u32 = (inst >> 20u32) & 0b1111;
            pred == 0 && succ == 0
        },
        0b1110011 => funct3 == 0,
        _ => false,
    }
}

/// Conditional branches: the program counter moves by the B-type offset
/// exactly when the condition holds of the two source registers, and to
/// the next instruction otherwise: BEQ equal, BNE different, BLT less and
/// BGE not less as signed 64-bit values, BLTU less and BGEU not less as
/// unsigned ones. No other register and no memory changes.
pub proof fn lemma_branch(regs: Seq<u64>, m: MmuView, inst: u32)
    requires
        regs.len() == 33,
        opcode_of(inst) == 0x63,
        supported(inst),
    ensures
        ({
            let a = reg_read(regs, rs1_of(inst) as int);
            let b = reg_read(regs, rs2_of(inst) as int);
            let f3 = funct3_of(inst);
            let pc = regs[PC_INDEX as int];
            let taken = if f3 == 0 {
                a == b
            } else if f3 == 1 {
                a != b
            } else if f3 == 4 {
                (a as i64) < (b as i64)
            } else if f3 == 5 {
                (a as i64) >= (b as i64)
            } else if f3 == 6 {
                a < b
            } else {
                a >= b
            };
            let target = if taken {
                ((pc + imm_b(inst)) % 0x1_0000_0000_0000_0000int) as u64
            } else {
                ((pc + 4) % 0x1_0000_0000_0000_0000int) as u64
            };
            execute_spec(regs, m, inst) == Ok::<(Seq<u64>, MmuView), EmuExit>(
                (regs.update(PC_INDEX as int, target), m),
            )
        }),
{
    let a = reg_read(regs, rs1_of(inst) as int);
    let b = reg_read(regs, rs2_of(inst) as int);
    lemma_casts(a, b);
    assert(funct3_of(inst) < 8) by (bit_vector);
}

/// Jumps: JAL and JALR write the address of the next instruction to rd
/// (dropped for x0) and jump to pc plus the J-type offset, or to rs1 plus
/// the I-type immediate, read before rd is written.
pub proof fn lemma_jump(regs: Seq<u64>, m: MmuView, inst: u32)
    requires
        regs.len() == 33,
        opcode_of(inst) == 0x6f || (opcode_of(inst) == 0x67 && supported(inst)),
    ensures
        ({
            let pc = regs[PC_INDEX as int];
            let rd = rd_of(inst) as int;
            let a = reg_read(regs, rs1_of(inst) as int);
            let target = if opcode_of(inst) == 0x6f {
                ((pc + imm_j(inst)) % 0x1_0000_0000_0000_0000int) as u64
            } else {
                ((a + imm_i(inst)) % 0x1_0000_0000_0000_0000int) as u64
            };
            let link = ((pc + 4) % 0x1_0000_0000_0000_0000int) as u64;
            &&& execute_spec(regs, m, inst) matches Ok((regs2, m2))
            &&& m2 == m
            &&& regs2[PC_INDEX as int] == target
            &&& rd != 0 ==> regs2[rd] == link
            &&& forall|r: int| 0 <= r < 32 && r != rd ==> #[trigger] regs2[r] == regs[r]
            &&& regs2.len() == 33
        }),
{
    assert(rd_of(inst) < 32) by (bit_vector);
}

/// The 32-bit operations (ADDIW, SLLIW, SRLIW, SRAIW, ADDW, SUBW, SLLW,
/// SRLW, SRAW) give a 32-bit result sign-extended to 64 bits, and that
/// result is the operation on the low 32 bits of the operands, with shift
/// amounts taken modulo 32.
pub proof fn lemma_word_ops(a: u64, b: u64, imm: u64)
    ensures
        ({
            let s = (imm & 0x1f) as u32;
            let t = (b & 0x1f) as u32;
            let x = a as u32;
            let y = b as u32;
            let i = imm as u32;
            &&& forall|r: u64| #[trigger] sext32(r) == (((r as u32) as i32) as i64) as u64
            &&& alu_imm_w(0, a, imm) as u32 == (x + i) as u32
            &&& alu_imm_w(1, a, imm) as u32 == x << s
            &&& (imm >> 5u64) & 0x3f == 0 ==> alu_imm_w(5, a, imm) as u32 == x >> s
            &&& (imm >> 5u64) & 0x3f != 0 ==> (alu_imm_w(5, a, imm) as u32) as i32 == (x as i32) >> s
            &&& alu_reg_w(0, 0, a, b) as u32 == (x + y) as u32
            &&& alu_reg_w(0, 0x20, a, b) as u32 == (x - y) as u32
            &&& alu_reg_w(1, 0, a, b) as u32 == x << t
            &&& alu_reg_w(5, 0, a, b) as u32 == x >> t
            &&& alu_reg_w(5, 0x20, a, b) as u32 as i32 == (x as i32) >> t
            &&& forall|f3: u32, r: u64| #[trigger] alu_imm_w(f3, a, r) == sext32(alu_imm_w(f3, a, r))
            &&& forall|f3: u32, f7: u32| #[trigger] alu_reg_w(f3, f7, a, b) == sext32(alu_reg_w(f3, f7, a, b))
        }),
{
    assert forall|r: u64| #[trigger] sext32(r) == (((r as u32) as i32) as i64) as u64 by {
        lemma_word_bits(r, 0);
    }
    lemma_word_bits(a, imm);
    lemma_word_bits(a, b);
    assert forall|f3: u32, r: u64| #[trigger] alu_imm_w(f3, a, r) == sext32(alu_imm_w(f3, a, r)) by {
        lemma_word_bits(a, r);
    }
    assert forall|f3: u32, f7: u32| #[trigger] alu_reg_w(f3, f7, a, b) == sext32(
        alu_reg_w(f3, f7, a, b),
    ) by {
        lemma_word_bits(a, b);
    }
}

proof fn lemma_word_bits(a: u64, b: u64)
    by (bit_vector)
    ensures
        sext32(a) == (((a as u32) as i32) as i64) as u64,
        sext32(add64(a, b)) as u32 == (a as u32 + b as u32) as u32,
        sext32(sub64(a, b)) as u32 == (a as u32 - b as u32) as u32,
        sext32(a << (b & 0x1f)) as u32 == (a as u32) << ((b & 0x1f) as u32),
        sext32((a & 0xffff_ffff) >> (b & 0x1f)) as u32 == (a as u32) >> ((b & 0x1f) as u32),
        (sra32(a, b & 0x1f) as u32) as i32 == ((a as u32) as i32) >> ((b & 0x1f) as u32),
        sext32(sra32(a, b & 0x1f)) == sra32(a, b & 0x1f),
        sext32(sext32(add64(a, b))) == sext32(add64(a, b)),
        sext32(sext32(sub64(a, b))) == sext32(sub64(a, b)),
        sext32(sext32(a << (b & 0x1f))) == sext32(a << (b & 0x1f)),
        sext32(sext32((a & 0xffff_ffff) >> (b & 0x1f))) == sext32((a & 0xffff_ffff) >> (b & 0x1f)),
{
}

/// The 64-bit register-register and register-immediate operations: ADD
/// wraps, SUB wraps and undoes ADD, SLT compares as signed and SLTU as
/// unsigned 64-bit values giving 1 or 0, XOR, OR and AND are bitwise, SLL
/// and SRL shift by the low 6 bits of the amount, SRA shifts in copies of
/// the sign bit; the immediate forms agree with the register forms, but for
/// the shifts, which take their mode from the immediate's upper bits.
pub proof fn lemma_alu(a: u64, b: u64)
    ensures
        alu_reg(0, 0, a, b) == (a + b) as u64,
        alu_reg(0, 0x20, a, b) == (a - b) as u64,
        alu_reg(0, 0x20, alu_reg(0, 0, a, b), b) == a,
        alu_reg(2, 0, a, b) == if (a as i64) < (b as i64) {
            1u64
        } else {
            0u64
        },
        alu_reg(3, 0, a, b) == if a < b {
            1u64
        } else {
            0u64
        },
        alu_reg(4, 0, a, b) == a ^ b,
        alu_reg(6, 0, a, b) == a | b,
        alu_reg(7, 0, a, b) == a & b,
        alu_reg(1, 0, a, b) == a << (b & 0x3f),
        alu_reg(5, 0, a, b) == a >> (b & 0x3f),
        alu_reg(5, 0x20, a, b) == ((a as i64) >> (b & 0x3f)) as u64,
        forall|f3: u32|
            f3 == 0 || f3 == 2 || f3 == 3 || f3 == 4 || f3 == 6 || f3 == 7 ==> #[trigger] alu_imm(
                f3,
                a,
                b,
            ) == alu_reg(f3, 0, a, b),
        alu_imm(1, a, b) == a << (b & 0x3f),
        (b >> 6u64) & 0x3f == 0 ==> alu_imm(5, a, b) == a >> (b & 0x3f),
        (b >> 6u64) & 0x3f == 0x10 ==> alu_imm(5, a, b) == ((a as i64) >> (b & 0x3f)) as u64,
{
    lemma_casts(a, b);
    lemma_alu_bits(a, b);
}

proof fn lemma_alu_bits(a: u64, b: u64)
    by (bit_vector)
    ensures
        add64(a, b) == (a + b) as u64,
        sub64(a, b) == (a - b) as u64,
        sub64(add64(a, b), b) == a,
        sra64(a, b & 0x3f) == ((a as i64) >> (b & 0x3f)) as u64,
{
}

/// Loading what a store wrote gives back its value: LD the doubleword; LW,
/// LH, LB the low word, halfword or byte sign-extended; LWU, LHU, LBU the
/// same zero-extended. A store writes as many bytes as the matching load
/// reads.
pub proof fn lemma_store_then_load(v: u64)
    ensures
        store_bytes(3, v).len() == load_size(3) && load_value(3, store_bytes(3, v)) == v,
        store_bytes(2, v).len() == load_size(2) && load_value(2, store_bytes(2, v)) == (((v as u32)
            as i32) as i64) as u64,
        load_value(6, store_bytes(2, v)) == (v as u32) as u64,
        store_bytes(1, v).len() == load_size(1) && load_value(1, store_bytes(1, v)) == (((v as u16)
            as i16) as i64) as u64,
        load_value(5, store_bytes(1, v)) == (v as u16) as u64,
        store_bytes(0, v).len() == load_size(0) && load_value(0, store_bytes(0, v)) == (((v as u8)
            as i8) as i64) as u64,
        load_value(4, store_bytes(0, v)) == (v as u8) as u64,
{
    <u8 as Prim>::lemma_le_roundtrip(v as u8);
    <u16 as Prim>::lemma_le_roundtrip(v as u16);
    <u32 as Prim>::lemma_le_roundtrip(v as u32);
    <u64 as Prim>::lemma_le_roundtrip(v);
    lemma_extend_bits(v);
}

proof fn lemma_extend_bits(v: u64)
    by (bit_vector)
    ensures
        sign_extend((v as u32) as u64, 32) == (((v as u32) as i32) as i64) as u64,
        sign_extend((v as u16) as u64, 16) == (((v as u16) as i16) as i64) as u64,
        sign_extend((v as u8) as u64, 8) == (((v as u8) as i8) as i64) as u64,
{
}

/// LUI writes the U-type immediate (the instruction's upper 20 bits,
/// sign-extended) to rd, AUIPC the program counter plus it, wrapping; both
/// move to the next instruction and change nothing else.
pub proof fn lemma_upper_immediate(regs: Seq<u64>, m: MmuView, inst: u32)
    requires
        regs.len() == 33,
        opcode_of(inst) == 0x37 || opcode_of(inst) == 0x17,
    ensures
        ({
            let pc = regs[PC_INDEX as int];
            let rd = rd_of(inst) as int;
            let u = (((inst & 0xffff_f000) as i32) as i64) as u64;
            let val = if opcode_of(inst) == 0x37 {
                u
            } else {
                (pc + u) as u64
            };
            &&& execute_spec(regs, m, inst) matches Ok((regs2, m2))
            &&& m2 == m
            &&& regs2.len() == 33
            &&& regs2[PC_INDEX as int] == (pc + 4) as u64
            &&& rd != 0 ==> regs2[rd] == val
            &&& forall|r: int| 0 <= r < 32 && r != rd ==> #[trigger] regs2[r] == regs[r]
        }),
{
    crate::isa::lemma_immediates(inst);
    lemma_alu_bits(regs[PC_INDEX as int], imm_u(inst));
    lemma_alu_bits(regs[PC_INDEX as int], 4);
    assert(rd_of(inst) < 32) by (bit_vector);
}

} // verus!
