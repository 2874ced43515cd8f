use vstd::prelude::*;

verus! {

/// The registers x0-x31 and the program counter.
#[derive(Clone, Copy, Debug, PartialEq, Eq, Structural)]
pub enum Register {
    Zero,
    Ra,
    Sp,
    Gp,
    Tp,
    T0,
    T1,
    T2,
    S0,
    S1,
    A0,
    A1,
    A2,
    A3,
    A4,
    A5,
    A6,
    A7,
    S2,
    S3,
    S4,
    S5,
    S6,
    S7,
    S8,
    S9,
    S10,
    S11,
    T3,
    T4,
    T5,
    T6,
    Pc,
}

/// Index of the program counter in the register file.
pub const PC_INDEX: usize = 32;

impl Register {
    /// Position of the register in the register file (x0-x31, then pc).
    pub open spec fn spec_index(self) -> usize {
        match self {
            Register::Zero => 0,
            Register::Ra => 1,
            Register::Sp => 2,
            Register::Gp => 3,
            Register::Tp => 4,
            Register::T0 => 5,
            Register::T1 => 6,
            Register::T2 => 7,
            Register::S0 => 8,
            Register::S1 => 9,
            Register::A0 => 10,
            Register::A1 => 11,
            Register::A2 => 12,
            Register::A3 => 13,
            Register::A4 => 14,
            Register::A5 => 15,
            Register::A6 => 16,
            Register::A7 => 17,
            Register::S2 => 18,
            Register::S3 => 19,
            Register::S4 => 20,
            Register::S5 => 21,
            Register::S6 => 22,
            Register::S7 => 23,
            Register::S8 => 24,
            Register::S9 => 25,
            Register::S10 => 26,
            Register::S11 => 27,
            Register::T3 => 28,
            Register::T4 => 29,
            Register::T5 => 30,
            Register::T6 => 31,
            Register::Pc => 32,
        }
    }

    #[verifier::when_used_as_spec(spec_index)]
    pub fn index(self) -> (r: usize)
        ensures
            r == self.spec_index(),
    {
        match self {
            Register::Zero => 0,
            Register::Ra => 1,
            Register::Sp => 2,
            Register::Gp => 3,
            Register::Tp => 4,
            Register::T0 => 5,
            Register::T1 => 6,
            Register::T2 => 7,
            Register::S0 => 8,
            Register::S1 => 9,
            Register::A0 => 10,
            Register::A1 => 11,
            Register::A2 => 12,
            Register::A3 => 13,
            Register::A4 => 14,
            Register::A5 => 15,
            Register::A6 => 16,
            Register::A7 => 17,
            Register::S2 => 18,
            Register::S3 => 19,
            Register::S4 => 20,
            Register::S5 => 21,
            Register::S6 => 22,
            Register::S7 => 23,
            Register::S8 => 24,
            Register::S9 => 25,
            Register::S10 => 26,
            Register::S11 => 27,
            Register::T3 => 28,
            Register::T4 => 29,
            Register::T5 => 30,
            Register::T6 => 31,
            Register::Pc => 32,
        }
    }

    /// The register x`val`; the program counter is not reachable this way.
    pub fn from(val: u32) -> (r: Register)
        requires
            val < 32,
        ensures
            r.spec_index() == val,
    {
        match val {
            0 => Register::Zero,
            1 => Register::Ra,
            2 => Register::Sp,
            3 => Register::Gp,
            4 => Register::Tp,
            5 => Register::T0,
            6 => Register::T1,
            7 => Register::T2,
            8 => Register::S0,
            9 => Register::S1,
            10 => Register::A0,
            11 => Register::A1,
            12 => Register::A2,
            13 => Register::A3,
            14 => Register::A4,
            15 => Register::A5,
            16 => Register::A6,
            17 => Register::A7,
            18 => Register::S2,
            19 => Register::S3,
            20 => Register::S4,
            21 => Register::S5,
            22 => Register::S6,
            23 => Register::S7,
            24 => Register::S8,
            25 => Register::S9,
            26 => Register::S10,
            27 => Register::S11,
            28 => Register::T3,
            29 => Register::T4,
            30 => Register::T5,
            _ => Register::T6,
        }
    }
}

/// The major opcode: bits 0..7.
pub open spec fn opcode_of(inst: u32) -> u32 {
    inst & 0x7f
}

/// The destination register: bits 7..12.
pub open spec fn rd_of(inst: u32) -> u32 {
    (inst >> 7u32) & 0x1f
}

/// The minor opcode: bits 12..15.
pub open spec fn funct3_of(inst: u32) -> u32 {
    (inst >> 12u32) & 0x7
}

/// The first source register: bits 15..20.
pub open spec fn rs1_of(inst: u32) -> u32 {
    (inst >> 15u32) & 0x1f
}

/// The second source register: bits 20..25.
pub open spec fn rs2_of(inst: u32) -> u32 {
    (inst >> 20u32) & 0x1f
}

/// The function field of R-type instructions: bits 25..32.
pub open spec fn funct7_of(inst: u32) -> u32 {
    (inst >> 25u32) & 0x7f
}

/// `v`, whose bits at and above `width` are zero, sign-extended from bit
/// `width - 1` to 64 bits.
pub open spec fn sign_extend(v: u64, width: u64) -> u64 {
    if (v >> ((width - 1) as u64)) & 1 == 1 {
        v | (0xffff_ffff_ffff_ffffu64 << width)
    } else {
        v
    }
}

/// The I-type immediate: bits 20..32, sign-extended.
pub open spec fn imm_i(inst: u32) -> u64 {
    sign_extend((inst >> 20u32) as u64, 12)
}

/// The S-type immediate: bits 25..32 above bits 7..12, sign-extended.
pub open spec fn imm_s(inst: u32) -> u64 {
    sign_extend((((inst >> 25u32) << 5u32) | ((inst >> 7u32) & 0x1f)) as u64, 12)
}

/// The B-type immediate: imm[12] = bit 31, imm[11] = bit 7,
/// imm[10:5] = bits 25..31, imm[4:1] = bits 8..12, sign-extended.
pub open spec fn imm_b(inst: u32) -> u64 {
    sign_extend(
        ((((inst >> 31u32) & 1) << 12u32) | (((inst >> 7u32) & 1) << 11u32) | (((inst >> 25u32)
            & 0x3f) << 5u32) | (((inst >> 8u32) & 0xf) << 1u32)) as u64,
        13,
    )
}

/// The J-type immediate: imm[20] = bit 31, imm[19:12] = bits 12..20,
/// imm[11] = bit 20, imm[10:1] = bits 21..31, sign-extended.
pub open spec fn imm_j(inst: u32) -> u64 {
    sign_extend(
        ((((inst >> 31u32) & 1) << 20u32) | (((inst >> 12u32) & 0xff) << 12u32) | (((inst
            >> 20u32) & 1) << 11u32) | (((inst >> 21u32) & 0x3ff) << 1u32)) as u64,
        21,
    )
}

/// The U-type immediate: bits 12..32 in place, sign-extended.
pub open spec fn imm_u(inst: u32) -> u64 {
    sign_extend((inst & 0xffff_f000) as u64, 32)
}

/// An R-type instruction.
pub(crate) struct Rtype {
    pub(crate) funct7: u32,
    pub(crate) rs2: Register,
    pub(crate) rs1: Register,
    pub(crate) funct3: u32,
    pub(crate) rd: Register,
}

impl Rtype {
    pub(crate) fn from(inst: u32) -> (r: Self)
        ensures
            r.funct7 == funct7_of(inst),
            r.rs2.spec_index() == rs2_of(inst),
            r.rs1.spec_index() == rs1_of(inst),
            r.funct3 == funct3_of(inst),
            r.rd.spec_index() == rd_of(inst),
    {
        proof {
            lemma_register_fields(inst);
        }
        Rtype {
            funct7: (inst >> 25u32) & 0b1111111,
            rs2: Register::from((inst >> 20u32) & 0b11111),
            rs1: Register::from((inst >> 15u32) & 0b11111),
            funct3: (inst >> 12u32) & 0b111,
            rd: Register::from((inst >> 7u32) & 0b11111),
        }
    }
}

/// An S-type instruction.
pub(crate) struct Stype {
    pub(crate) imm: i32,
    pub(crate) rs2: Register,
    pub(crate) rs1: Register,
    pub(crate) funct3: u32,
}

impl Stype {
    pub(crate) fn from(inst: u32) -> (r: Self)
        ensures
            r.imm as i64 as u64 == imm_s(inst),
            r.rs2.spec_index() == rs2_of(inst),
            r.rs1.spec_index() == rs1_of(inst),
            r.funct3 == funct3_of(inst),
    {
        proof {
            lemma_register_fields(inst);
        }
        let imm115: u32 = (inst >> 25u32) & 0b1111111;
        let imm40: u32 = (inst >> 7u32) & 0b11111;
        let imm: u32 = (imm115 << 5u32) | imm40;
        let imm: i32 = ((imm as i32) << 20u32) >> 20u32;
        assert(imm as i64 as u64 == imm_s(inst)) by (bit_vector)
            requires
                imm == ((((((inst >> 25u32) & 0x7f) << 5u32) | ((inst >> 7u32) & 0x1f)) as i32)
                    << 20u32) >> 20u32,
        ;
        Stype {
            imm: imm,
            rs2: Register::from((inst >> 20u32) & 0b11111),
            rs1: Register::from((inst >> 15u32) & 0b11111),
            funct3: (inst >> 12u32) & 0b111,
        }
    }
}

/// A J-type instruction.
pub(crate) struct Jtype {
    pub(crate) imm: i32,
    pub(crate) rd: Register,
}

impl Jtype {
    pub(crate) fn from(inst: u32) -> (r: Self)
        ensures
            r.imm as i64 as u64 == imm_j(inst),
            r.rd.spec_index() == rd_of(inst),
    {
        proof {
            lemma_register_fields(inst);
        }
        let imm20: u32 = (inst >> 31u32) & 1;
        let imm101: u32 = (inst >> 21u32) & 0b1111111111;
        let imm11: u32 = (inst >> 20u32) & 1;
        let imm1912: u32 = (inst >> 12u32) & 0b11111111;
        let imm: u32 = (imm20 << 20u32) | (imm1912 << 12u32) | (imm11 << 11u32) | (imm101 << 1u32);
        let imm: i32 = ((imm as i32) << 11u32) >> 11u32;
        assert(imm as i64 as u64 == imm_j(inst)) by (bit_vector)
            requires
                imm == ((((((inst >> 31u32) & 1) << 20u32) | (((inst >> 12u32) & 0xff)
                    << 12u32) | (((inst >> 20u32) & 1) << 11u32) | (((inst >> 21u32) & 0x3ff)
                    << 1u32)) as i32) << 11u32) >> 11u32,
        ;
        Jtype { imm: imm, rd: Register::from((inst >> 7u32) & 0b11111) }
    }
}

/// A B-type instruction.
pub(crate) struct Btype {
    pub(crate) imm: i32,
    pub(crate) rs2: Register,
    pub(crate) rs1: Register,
    pub(crate) funct3: u32,
}

impl Btype {
    pub(crate) fn from(inst: u32) -> (r: Self)
        ensures
            r.imm as i64 as u64 == imm_b(inst),
            r.rs2.spec_index() == rs2_of(inst),
            r.rs1.spec_index() == rs1_of(inst),
            r.funct3 == funct3_of(inst),
    {
        proof {
            lemma_register_fields(inst);
        }
        let imm12: u32 = (inst >> 31u32) & 1;
        let imm105: u32 = (inst >> 25u32) & 0b111111;
        let imm41: u32 = (inst >> 8u32) & 0b1111;
        let imm11: u32 = (inst >> 7u32) & 1;
        let imm: u32 = (imm12 << 12u32) | (imm11 << 11u32) | (imm105 << 5u32) | (imm41 << 1u32);
        let imm: i32 = ((imm as i32) << 19u32) >> 19u32;
        assert(imm as i64 as u64 == imm_b(inst)) by (bit_vector)
            requires
                imm == ((((((inst >> 31u32) & 1) << 12u32) | (((inst >> 7u32) & 1) << 11u32) | (((
                inst >> 25u32) & 0x3f) << 5u32) | (((inst >> 8u32) & 0xf) << 1u32)) as i32)
                    << 19u32) >> 19u32,
        ;
        Btype {
            imm: imm,
            rs2: Register::from((inst >> 20u32) & 0b11111),
            rs1: Register::from((inst >> 15u32) & 0b11111),
            funct3: (inst >> 12u32) & 0b111,
        }
    }
}

/// An I-type instruction.
pub(crate) struct Itype {
    pub(crate) imm: i32,
    pub(crate) rs1: Register,
    pub(crate) funct3: u32,
    pub(crate) rd: Register,
}

impl Itype {
    pub(crate) fn from(inst: u32) -> (r: Self)
        ensures
            r.imm as i64 as u64 == imm_i(inst),
            r.rs1.spec_index() == rs1_of(inst),
            r.funct3 == funct3_of(inst),
            r.rd.spec_index() == rd_of(inst),
    {
        proof {
            lemma_register_fields(inst);
        }
        let imm: i32 = (inst as i32) >> 20u32;
        assert(imm as i64 as u64 == imm_i(inst)) by (bit_vector)
            requires
                imm == (inst as i32) >> 20u32,
        ;
        Itype {
            imm: imm,
            rs1: Register::from((inst >> 15u32) & 0b11111),
            funct3: (inst >> 12u32) & 0b111,
            rd: Register::from((inst >> 7u32) & 0b11111),
        }
    }
}

/// A U-type instruction.
pub(crate) struct Utype {
    pub(crate) imm: i32,
    pub(crate) rd: Register,
}

impl Utype {
    pub(crate) fn from(inst: u32) -> (r: Self)
        ensures
            r.imm as i64 as u64 == imm_u(inst),
            r.rd.spec_index() == rd_of(inst),
    {
        proof {
            lemma_register_fields(inst);
        }
        let imm: i32 = (inst & !0xfffu32) as i32;
        assert(imm as i64 as u64 == imm_u(inst)) by (bit_vector)
            requires
                imm == (inst & !0xfffu32) as i32,
        ;
        Utype { imm: imm, rd: Register::from((inst >> 7u32) & 0b11111) }
    }
}

/// The register fields name registers x0-x31, and the minor opcode is
/// below 8.
pub proof fn lemma_register_fields(inst: u32)
    ensures
        funct3_of(inst) < 8,
        (inst >> 7u32) & 0b11111 < 32,
        (inst >> 15u32) & 0b11111 < 32,
        (inst >> 20u32) & 0b11111 < 32,
{
    assert((inst >> 12u32) & 0x7 < 8) by (bit_vector);
    assert((inst >> 7u32) & 0b11111 < 32) by (bit_vector);
    assert((inst >> 15u32) & 0b11111 < 32) by (bit_vector);
    assert((inst >> 20u32) & 0b11111 < 32) by (bit_vector);
}

/// The fields of an instruction are its bits: the opcode, rd, funct3, rs1,
/// rs2 and funct7 put back in place give the instruction again.
pub proof fn lemma_fields_partition(inst: u32)
    by (bit_vector)
    ensures
        inst == opcode_of(inst) | (rd_of(inst) << 7u32) | (funct3_of(inst) << 12u32) | (rs1_of(inst)
            << 15u32) | (rs2_of(inst) << 20u32) | (funct7_of(inst) << 25u32),
{
}

/// The immediates, read as signed values: I-type is the instruction shifted
/// right by 20, arithmetically; U-type its upper 20 bits with the lower 12
/// clear; S-type the I-type bits above 5 with rd's bits below; B-type and
/// J-type are even, take their sign from bit 31, and hold the instruction's
/// offset bits where the encoding puts them.
pub proof fn lemma_immediates(inst: u32)
    by (bit_vector)
    ensures
        imm_i(inst) == (((inst as i32) >> 20u32) as i64) as u64,
        imm_u(inst) == (((inst & 0xffff_f000) as i32) as i64) as u64,
        imm_s(inst) == ((((inst as i32) >> 20u32) & !0x1fi32) | (((inst >> 7u32) & 0x1f) as i32))
            as i64 as u64,
        imm_b(inst) & 1 == 0,
        (imm_b(inst) >> 1u64) & 0xf == ((inst >> 8u32) & 0xf) as u64,
        (imm_b(inst) >> 5u64) & 0x3f == ((inst >> 25u32) & 0x3f) as u64,
        (imm_b(inst) >> 11u64) & 1 == ((inst >> 7u32) & 1) as u64,
        ((imm_b(inst) as i64) >> 12u64) == (((inst as i32) >> 31u32) as i64),
        imm_j(inst) & 1 == 0,
        (imm_j(inst) >> 1u64) & 0x3ff == ((inst >> 21u32) & 0x3ff) as u64,
        (imm_j(inst) >> 11u64) & 1 == ((inst >> 20u32) & 1) as u64,
        (imm_j(inst) >> 12u64) & 0xff == ((inst >> 12u32) & 0xff) as u64,
        ((imm_j(inst) as i64) >> 20u64) == (((inst as i32) >> 31u32) as i64),
{
}

} // verus!
