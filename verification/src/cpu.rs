use vstd::prelude::*;

verus! {

/// Static control-flow classification of a decoded instruction, as the
/// block builder and the graph need it.  Conditional traps, `BREAK` and
/// `ERET` are `Sequential` here: they transfer control to an exception
/// vector, never to a statically known code address.
#[derive(Clone, Copy, Debug, PartialEq, Eq, Structural)]
pub enum CfClass {
    Sequential,
    UnconditionalJump,
    UnconditionalJumpRegister,
    ConditionalBranch,
    ConditionalBranchLikely,
    CallLink,
    Trap,
    Illegal,
}

/// The second vector macro table, reached from SPECIAL1.
/// Every variant carries the raw 32-bit instruction word.
#[derive(Clone, Copy, Debug, PartialEq, Eq, Structural)]
pub enum Special2 {
    VADDAx(u32),
    VADDAy(u32),
    VADDAz(u32),
    VADDAw(u32),
    VSUBAx(u32),
    VSUBAy(u32),
    VSUBAz(u32),
    VSUBAw(u32),
    VMADDAx(u32),
    VMADDAy(u32),
    VMADDAz(u32),
    VMADDAw(u32),
    VMSUBAx(u32),
    VMSUBAy(u32),
    VMSUBAz(u32),
    VMSUBAw(u32),
    VITOF0(u32),
    VITOF4(u32),
    VITOF12(u32),
    VITOF15(u32),
    VFTOI0(u32),
    VFTOI4(u32),
    VFTOI12(u32),
    VFTOI15(u32),
    VMULAx(u32),
    VMULAy(u32),
    VMULAz(u32),
    VMULAw(u32),
    VMULAq(u32),
    VABS(u32),
    VMULAi(u32),
    VCLIPw(u32),
    VADDAq(u32),
    VMADDAq(u32),
    VADDAi(u32),
    VMADDAi(u32),
    VSUBAq(u32),
    VMSUBAq(u32),
    VSUBAi(u32),
    VMSUBAi(u32),
    VADDA(u32),
    VMADDA(u32),
    VMULA(u32),
    VSUBA(u32),
    VMSUBA(u32),
    VOPMULA(u32),
    VNOP(u32),
    VMOVE(u32),
    VMR32(u32),
    VLQI(u32),
    VSQI(u32),
    VLQD(u32),
    VSQD(u32),
    VDIV(u32),
    VSQRT(u32),
    VRSQRT(u32),
    VWAITQ(u32),
    VMTIR(u32),
    VMFIR(u32),
    VILWR(u32),
    VISWR(u32),
    VRNEXT(u32),
    VRGET(u32),
    VRINIT(u32),
    VRXOR(u32),
    ILLEGAL,
}

/// The first vector macro table, reached from COP2.
/// Every variant carries the raw 32-bit instruction word.
#[derive(Clone, Copy, Debug, PartialEq, Eq, Structural)]
pub enum Special1 {
    VADDx(u32),
    VADDy(u32),
    VADDz(u32),
    VADDw(u32),
    VSUBx(u32),
    VSUBy(u32),
    VSUBz(u32),
    VSUBw(u32),
    VMADDx(u32),
    VMADDy(u32),
    VMADDz(u32),
    VMADDw(u32),
    VMSUBx(u32),
    VMSUBy(u32),
    VMSUBz(u32),
    VMSUBw(u32),
    VMAXx(u32),
    VMAXy(u32),
    VMAXz(u32),
    VMAXw(u32),
    VMINIx(u32),
    VMINIy(u32),
    VMINIz(u32),
    VMINIw(u32),
    VMULx(u32),
    VMULy(u32),
    VMULz(u32),
    VMULw(u32),
    VMULq(u32),
    VMAXi(u32),
    VMULi(u32),
    VMINIi(u32),
    VADDq(u32),
    VMADDq(u32),
    VADDi(u32),
    VMADDi(u32),
    VSUBq(u32),
    VMSUBq(u32),
    VSUbi(u32),
    VMSUBi(u32),
    VADD(u32),
    VMADD(u32),
    VMUL(u32),
    VMAX(u32),
    VSUB(u32),
    VMSUB(u32),
    VOPMSUB(u32),
    VMINI(u32),
    VIADD(u32),
    VISUB(u32),
    VIADDI(u32),
    VIAND(u32),
    VIOR(u32),
    VCALLMS(u32),
    CALLMSR(u32),
    SPECIAL2(Special2),
    ILLEGAL,
}

/// Branches on the vector coprocessor condition.
/// Every variant carries the raw 32-bit instruction word.
#[derive(Clone, Copy, Debug, PartialEq, Eq, Structural)]
pub enum Bc2 {
    BC2F(u32),
    ILLEGAL,
}

/// The vector coprocessor group, primary opcode 0x12.
/// Every variant carries the raw 32-bit instruction word.
#[derive(Clone, Copy, Debug, PartialEq, Eq, Structural)]
pub enum Cop2 {
    QMFC2(u32),
    CFC2(u32),
    QMTC2(u32),
    CTC2(u32),
    BC2(Bc2),
    SPECIAL1(Special1),
    ILLEGAL,
}

/// Floating-point operations in word format.
/// Every variant carries the raw 32-bit instruction word.
#[derive(Clone, Copy, Debug, PartialEq, Eq, Structural)]
pub enum Fpuw {
    CVT_S(u32),
    ILLEGAL,
}

/// Floating-point operations in single format.
/// Every variant carries the raw 32-bit instruction word.
#[derive(Clone, Copy, Debug, PartialEq, Eq, Structural)]
pub enum Fpus {
    ADD_S(u32),
    SUB_S(u32),
    MUL_S(u32),
    DIV_S(u32),
    SQRT_S(u32),
    ABS_S(u32),
    MOV_S(u32),
    NEG_S(u32),
    RSQRT_S(u32),
    ADDA_S(u32),
    SUBA_S(u32),
    MULA_S(u32),
    MADD_S(u32),
    MSUB_S(u32),
    MADDA_S(u32),
    MSUBA_S(u32),
    CVT_W(u32),
    MAX_S(u32),
    MIN_S(u32),
    C_F(u32),
    C_EQ(u32),
    C_LT(u32),
    C_LE(u32),
    ILLEGAL,
}

/// Branches on the floating-point coprocessor condition.
/// Every variant carries the raw 32-bit instruction word.
#[derive(Clone, Copy, Debug, PartialEq, Eq, Structural)]
pub enum Bc1 {
    BC1F(u32),
    BC1T(u32),
    BC1FL(u32),
    BC1TL(u32),
    ILLEGAL,
}

/// The floating-point coprocessor group, primary opcode 0x11.
/// Every variant carries the raw 32-bit instruction word.
#[derive(Clone, Copy, Debug, PartialEq, Eq, Structural)]
pub enum Cop1 {
    MFC1(u32),
    CFC1(u32),
    MTC1(u32),
    CTC1(u32),
    BC1(Bc1),
    FPUS(Fpus),
    FPUW(Fpuw),
    ILLEGAL,
}

/// TLB and privileged operations under COP0.
/// Every variant carries the raw 32-bit instruction word.
#[derive(Clone, Copy, Debug, PartialEq, Eq, Structural)]
pub enum Tlb {
    TLBR(u32),
    TLBWI(u32),
    TLBWR(u32),
    TLBP(u32),
    ERET(u32),
    EI(u32),
    DI(u32),
    ILLEGAL,
}

/// Branches on the system-control coprocessor condition.
/// Every variant carries the raw 32-bit instruction word.
#[derive(Clone, Copy, Debug, PartialEq, Eq, Structural)]
pub enum Bc0 {
    BC0F(u32),
    BC0T(u32),
    BC0FL(u32),
    BC0TL(u32),
    ILLEGAL,
}

/// The system-control coprocessor group, primary opcode 0x10.
/// Every variant carries the raw 32-bit instruction word.
#[derive(Clone, Copy, Debug, PartialEq, Eq, Structural)]
pub enum Cop0 {
    MFC0(u32),
    MTC0(u32),
    BC0(Bc0),
    TLB(Tlb),
    ILLEGAL,
}

/// The fourth multimedia sub-table.
/// Every variant carries the raw 32-bit instruction word.
#[derive(Clone, Copy, Debug, PartialEq, Eq, Structural)]
pub enum Mmi3 {
    PMADDUW(u32),
    PSRAVW(u32),
    PMTHI(u32),
    PMTLO(u32),
    PINTEH(u32),
    PMULTUW(u32),
    PDIVUW(u32),
    PCPYUD(u32),
    POR(u32),
    PNOR(u32),
    PEXCH(u32),
    PCPYH(u32),
    PEXCW(u32),
    ILLEGAL,
}

/// The third multimedia sub-table.
/// Every variant carries the raw 32-bit instruction word.
#[derive(Clone, Copy, Debug, PartialEq, Eq, Structural)]
pub enum Mmi2 {
    PMADDW(u32),
    PSLLVW(u32),
    PSRLVW(u32),
    PMSUBW(u32),
    PMFHI(u32),
    PMFLO(u32),
    PINTH(u32),
    PMULTW(u32),
    PDIVW(u32),
    PCPYLD(u32),
    PMADDH(u32),
    PHMADH(u32),
    PAND(u32),
    PXOR(u32),
    PMSUBH(u32),
    PHMSBH(u32),
    PEXEH(u32),
    PREVH(u32),
    PMULTH(u32),
    PDIVBW(u32),
    PEXEW(u32),
    PROT3W(u32),
    ILLEGAL,
}

/// The second multimedia sub-table.
/// Every variant carries the raw 32-bit instruction word.
#[derive(Clone, Copy, Debug, PartialEq, Eq, Structural)]
pub enum Mmi1 {
    PABSW(u32),
    PCEQW(u32),
    PMINW(u32),
    PADSBH(u32),
    PABSH(u32),
    PCEQH(u32),
    PMINH(u32),
    PCEQB(u32),
    PADDUW(u32),
    PSUBUW(u32),
    PEXTUW(u32),
    PADDUH(u32),
    PSUBUH(u32),
    PEXTUH(u32),
    PADDUB(u32),
    PSUBUB(u32),
    PEXTUB(u32),
    QFSRV(u32),
    ILLEGAL,
}

/// The first multimedia sub-table.
/// Every variant carries the raw 32-bit instruction word.
#[derive(Clone, Copy, Debug, PartialEq, Eq, Structural)]
pub enum Mmi0 {
    PADDW(u32),
    PSUBW(u32),
    PCGTW(u32),
    PMAXW(u32),
    PADDH(u32),
    PSUBH(u32),
    PCGTH(u32),
    PMAXH(u32),
    PADDB(u32),
    PSUBB(u32),
    PCGTB(u32),
    PADDSW(u32),
    PSUBSW(u32),
    PEXTLW(u32),
    PPACW(u32),
    PADDSH(u32),
    PSUBSH(u32),
    PEXTLH(u32),
    PPACH(u32),
    PADDSB(u32),
    PSUBSB(u32),
    PEXTLB(u32),
    PPACB(u32),
    PEXT5(u32),
    PPAC5(u32),
    ILLEGAL,
}

/// The multimedia group, reached from primary opcode 0x1C.
/// Every variant carries the raw 32-bit instruction word.
#[derive(Clone, Copy, Debug, PartialEq, Eq, Structural)]
pub enum Mmi {
    MADD(u32),
    MADDU(u32),
    PLZCW(u32),
    MMI0(Mmi0),
    MMI2(Mmi2),
    MFHI1(u32),
    MTHI1(u32),
    MFLO1(u32),
    MTLO1(u32),
    MULT1(u32),
    MULTU1(u32),
    DIV1(u32),
    DIVU1(u32),
    MADD1(u32),
    MADDU1(u32),
    MMI1(Mmi1),
    MMI3(Mmi3),
    PMFHL(u32),
    PMTHL(u32),
    PSLLH(u32),
    PSRLH(u32),
    PSRAH(u32),
    PSLLW(u32),
    PSRLW(u32),
    PSRAW(u32),
    ILLEGAL,
}

/// The REGIMM group, reached from primary opcode 0x01.
/// Every variant carries the raw 32-bit instruction word.
#[derive(Clone, Copy, Debug, PartialEq, Eq, Structural)]
pub enum Regimm {
    BLTZ(u32),
    BGEZ(u32),
    BLTZL(u32),
    BGEZL(u32),
    TGEI(u32),
    TGEIU(u32),
    TLTI(u32),
    TLTIU(u32),
    TEQI(u32),
    TNEI(u32),
    BLTZAL(u32),
    BGEZAL(u32),
    BLTZALL(u32),
    BGEZALL(u32),
    MTSAB(u32),
    MTSAH(u32),
    ILLEGAL,
}

/// The SPECIAL group, reached from primary opcode 0x00.
/// Every variant carries the raw 32-bit instruction word.
#[derive(Clone, Copy, Debug, PartialEq, Eq, Structural)]
pub enum Special {
    SLL(u32),
    SRL(u32),
    SRA(u32),
    SLLV(u32),
    SRLV(u32),
    SRAV(u32),
    JR(u32),
    JALR(u32),
    MOVZ(u32),
    MOVN(u32),
    SYSCALL(u32),
    BREAK(u32),
    SYNC(u32),
    MFHI(u32),
    MTHI(u32),
    MFLO(u32),
    MTLO(u32),
    DSLLV(u32),
    DSRLV(u32),
    DSRAV(u32),
    MULT(u32),
    MULTU(u32),
    DIV(u32),
    DIVU(u32),
    ADD(u32),
    ADDU(u32),
    SUB(u32),
    SUBU(u32),
    AND(u32),
    OR(u32),
    XOR(u32),
    NOR(u32),
    MFSA(u32),
    MTSA(u32),
    SLT(u32),
    SLTU(u32),
    DADD(u32),
    DADDU(u32),
    DSUB(u32),
    DSUBU(u32),
    TGE(u32),
    TGEU(u32),
    TLT(u32),
    TLTU(u32),
    TEQ(u32),
    TNE(u32),
    DSLL(u32),
    DSRL(u32),
    DSRA(u32),
    DSLL32(u32),
    DSRL32(u32),
    DSRA32(u32),
    ILLEGAL,
}

/// An instruction word of the target CPU, decoded by its primary opcode.
/// Every variant carries the raw 32-bit instruction word.
#[derive(Clone, Copy, Debug, PartialEq, Eq, Structural)]
pub enum EE {
    SPECIAL(Special),
    REGIMM(Regimm),
    J(u32),
    JAL(u32),
    BEQ(u32),
    BNE(u32),
    BLEZ(u32),
    BGTZ(u32),
    ADDI(u32),
    ADDIU(u32),
    SLTI(u32),
    SLTIU(u32),
    ANDI(u32),
    ORI(u32),
    XORI(u32),
    LUI(u32),
    COP0(Cop0),
    COP1(Cop1),
    COP2(Cop2),
    BEQL(u32),
    BNEL(u32),
    BLEZL(u32),
    BGTZL(u32),
    DADDI(u32),
    DADDIU(u32),
    LDL(u32),
    LDR(u32),
    MMI(Mmi),
    LQ(u32),
    SQ(u32),
    LB(u32),
    LH(u32),
    LWL(u32),
    LW(u32),
    LBU(u32),
    LHU(u32),
    LWR(u32),
    LWU(u32),
    SB(u32),
    SH(u32),
    SWL(u32),
    SW(u32),
    SDL(u32),
    SDR(u32),
    SWR(u32),
    CACHE(u32),
    LWC1(u32),
    PREF(u32),
    LQC2(u32),
    LD(u32),
    SWC1(u32),
    SQC2(u32),
    SD(u32),
    ILLEGAL,
}

/// The control-flow class of a decoded instruction.  `J` is the one
/// unconditional absolute jump; `JAL` links and jumps absolutely; `JR` and
/// `JALR` jump through a register, so their target is unknown statically;
/// `SYSCALL` traps into the kernel.  All branch forms, the coprocessor
/// condition branches among them, are conditional, with the "likely" forms
/// classified apart because they squash the delay slot when not taken.
/// Everything else, illegal words aside, falls through sequentially.
pub open spec fn class_of(e: EE) -> CfClass {
    match e {
        EE::J(_) => CfClass::UnconditionalJump,
        EE::JAL(_) => CfClass::CallLink,
        EE::BEQ(_) => CfClass::ConditionalBranch,
        EE::BNE(_) => CfClass::ConditionalBranch,
        EE::BLEZ(_) => CfClass::ConditionalBranch,
        EE::BGTZ(_) => CfClass::ConditionalBranch,
        EE::BEQL(_) => CfClass::ConditionalBranchLikely,
        EE::BNEL(_) => CfClass::ConditionalBranchLikely,
        EE::BLEZL(_) => CfClass::ConditionalBranchLikely,
        EE::BGTZL(_) => CfClass::ConditionalBranchLikely,
        EE::SPECIAL(s) => match s {
            Special::JR(_) => CfClass::UnconditionalJumpRegister,
            Special::JALR(_) => CfClass::UnconditionalJumpRegister,
            Special::SYSCALL(_) => CfClass::Trap,
            _ => CfClass::Sequential,
        },
        EE::REGIMM(r) => match r {
            Regimm::BLTZ(_) => CfClass::ConditionalBranch,
            Regimm::BGEZ(_) => CfClass::ConditionalBranch,
            Regimm::BLTZL(_) => CfClass::ConditionalBranchLikely,
            Regimm::BGEZL(_) => CfClass::ConditionalBranchLikely,
            Regimm::BLTZAL(_) => CfClass::ConditionalBranch,
            Regimm::BGEZAL(_) => CfClass::ConditionalBranch,
            Regimm::BLTZALL(_) => CfClass::ConditionalBranchLikely,
            Regimm::BGEZALL(_) => CfClass::ConditionalBranchLikely,
            _ => CfClass::Sequential,
        },
        EE::COP0(c) => match c {
            Cop0::BC0(b) => match b {
                Bc0::BC0F(_) => CfClass::ConditionalBranch,
                Bc0::BC0T(_) => CfClass::ConditionalBranch,
                Bc0::BC0FL(_) => CfClass::ConditionalBranchLikely,
                Bc0::BC0TL(_) => CfClass::ConditionalBranchLikely,
                _ => CfClass::Sequential,
            },
            _ => CfClass::Sequential,
        },
        EE::COP1(c) => match c {
            Cop1::BC1(b) => match b {
                Bc1::BC1F(_) => CfClass::ConditionalBranch,
                Bc1::BC1T(_) => CfClass::ConditionalBranch,
                Bc1::BC1FL(_) => CfClass::ConditionalBranchLikely,
                Bc1::BC1TL(_) => CfClass::ConditionalBranchLikely,
                _ => CfClass::Sequential,
            },
            _ => CfClass::Sequential,
        },
        EE::COP2(c) => match c {
            Cop2::BC2(b) => match b {
                Bc2::BC2F(_) => CfClass::ConditionalBranch,
                _ => CfClass::Sequential,
            },
            _ => CfClass::Sequential,
        },
        EE::ILLEGAL => CfClass::Illegal,
        _ => CfClass::Sequential,
    }
}

/// A basic block ends at, and includes, its first instruction of any class
/// other than `Sequential` and `Illegal`.
pub open spec fn is_block_terminator(e: EE) -> bool {
    class_of(e) != CfClass::Sequential && class_of(e) != CfClass::Illegal
}

impl EE {
    /// Computes the control-flow class of this instruction.
    pub fn classification(&self) -> (c: CfClass)
        ensures
            c == class_of(*self),
    {
        match self {
            EE::J(_) => CfClass::UnconditionalJump,
            EE::JAL(_) => CfClass::CallLink,
            EE::BEQ(_) => CfClass::ConditionalBranch,
            EE::BNE(_) => CfClass::ConditionalBranch,
            EE::BLEZ(_) => CfClass::ConditionalBranch,
            EE::BGTZ(_) => CfClass::ConditionalBranch,
            EE::BEQL(_) => CfClass::ConditionalBranchLikely,
            EE::BNEL(_) => CfClass::ConditionalBranchLikely,
            EE::BLEZL(_) => CfClass::ConditionalBranchLikely,
            EE::BGTZL(_) => CfClass::ConditionalBranchLikely,
            EE::SPECIAL(s) => match s {
                Special::JR(_) => CfClass::UnconditionalJumpRegister,
                Special::JALR(_) => CfClass::UnconditionalJumpRegister,
                Special::SYSCALL(_) => CfClass::Trap,
                _ => CfClass::Sequential,
            },
            EE::REGIMM(r) => match r {
                Regimm::BLTZ(_) => CfClass::ConditionalBranch,
                Regimm::BGEZ(_) => CfClass::ConditionalBranch,
                Regimm::BLTZL(_) => CfClass::ConditionalBranchLikely,
                Regimm::BGEZL(_) => CfClass::ConditionalBranchLikely,
                Regimm::BLTZAL(_) => CfClass::ConditionalBranch,
                Regimm::BGEZAL(_) => CfClass::ConditionalBranch,
                Regimm::BLTZALL(_) => CfClass::ConditionalBranchLikely,
                Regimm::BGEZALL(_) => CfClass::ConditionalBranchLikely,
                _ => CfClass::Sequential,
            },
            EE::COP0(c) => match c {
                Cop0::BC0(b) => match b {
                    Bc0::BC0F(_) => CfClass::ConditionalBranch,
                    Bc0::BC0T(_) => CfClass::ConditionalBranch,
                    Bc0::BC0FL(_) => CfClass::ConditionalBranchLikely,
                    Bc0::BC0TL(_) => CfClass::ConditionalBranchLikely,
                    _ => CfClass::Sequential,
                },
                _ => CfClass::Sequential,
            },
            EE::COP1(c) => match c {
                Cop1::BC1(b) => match b {
                    Bc1::BC1F(_) => CfClass::ConditionalBranch,
                    Bc1::BC1T(_) => CfClass::ConditionalBranch,
                    Bc1::BC1FL(_) => CfClass::ConditionalBranchLikely,
                    Bc1::BC1TL(_) => CfClass::ConditionalBranchLikely,
                    _ => CfClass::Sequential,
                },
                _ => CfClass::Sequential,
            },
            EE::COP2(c) => match c {
                Cop2::BC2(b) => match b {
                    Bc2::BC2F(_) => CfClass::ConditionalBranch,
                    _ => CfClass::Sequential,
                },
                _ => CfClass::Sequential,
            },
            EE::ILLEGAL => CfClass::Illegal,
            _ => CfClass::Sequential,
        }
    }

    /// True exactly when a block's scan stops at this instruction.
    pub fn is_terminator(&self) -> (b: bool)
        ensures
            b == is_block_terminator(*self),
    {
        match self.classification() {
            CfClass::Sequential => false,
            CfClass::Illegal => false,
            _ => true,
        }
    }
}

} // verus!
