use vstd::prelude::*;
use crate::cpu::{
    Bc0, Bc1, Bc2, Cop0, Cop1, Cop2, Fpus, Fpuw, Mmi, Mmi0, Mmi1, Mmi2, Mmi3, Regimm, Special,
    Special1, Special2, Tlb, EE,
};

verus! {

/// Total decoding of a 32-bit instruction word into a value of one
/// dispatch group.  `spec_translate` is the group's table itself: a dense,
/// disjoint mapping from the group's field value to a constructor or to the
/// next sub-table, with `ILLEGAL` for every field value the table does not
/// list.  `translate` computes it, for every one of the 2^32 words.
pub trait Trans<T>: Sized {
    spec fn spec_translate(inst: u32) -> T;

    fn translate(inst: u32) -> (r: T)
        ensures
            r == Self::spec_translate(inst),
    ;
}

impl Trans<EE> for EE {
    /// Keyed on the primary opcode, bits 31:26.
    open spec fn spec_translate(inst: u32) -> EE {
        let f = inst >> 26;
        if f == 0x00 {
            let s = Special::spec_translate(inst);
            if s == Special::ILLEGAL { EE::ILLEGAL } else { EE::SPECIAL(s) }
        } else if f == 0x01 {
            let s = Regimm::spec_translate(inst);
            if s == Regimm::ILLEGAL { EE::ILLEGAL } else { EE::REGIMM(s) }
        } else if f == 0x02 {
            EE::J(inst)
        } else if f == 0x03 {
            EE::JAL(inst)
        } else if f == 0x04 {
            EE::BEQ(inst)
        } else if f == 0x05 {
            EE::BNE(inst)
        } else if f == 0x06 {
            EE::BLEZ(inst)
        } else if f == 0x07 {
            EE::BGTZ(inst)
        } else if f == 0x08 {
            EE::ADDI(inst)
        } else if f == 0x09 {
            EE::ADDIU(inst)
        } else if f == 0x0A {
            EE::SLTI(inst)
        } else if f == 0x0B {
            EE::SLTIU(inst)
        } else if f == 0x0C {
            EE::ANDI(inst)
        } else if f == 0x0D {
            EE::ORI(inst)
        } else if f == 0x0E {
            EE::XORI(inst)
        } else if f == 0x0F {
            EE::LUI(inst)
        } else if f == 0x10 {
            let s = Cop0::spec_translate(inst);
            if s == Cop0::ILLEGAL { EE::ILLEGAL } else { EE::COP0(s) }
        } else if f == 0x11 {
            let s = Cop1::spec_translate(inst);
            if s == Cop1::ILLEGAL { EE::ILLEGAL } else { EE::COP1(s) }
        } else if f == 0x12 {
            let s = Cop2::spec_translate(inst);
            if s == Cop2::ILLEGAL { EE::ILLEGAL } else { EE::COP2(s) }
        } else if f == 0x14 {
            EE::BEQL(inst)
        } else if f == 0x15 {
            EE::BNEL(inst)
        } else if f == 0x16 {
            EE::BLEZL(inst)
        } else if f == 0x17 {
            EE::BGTZL(inst)
        } else if f == 0x18 {
            EE::DADDI(inst)
        } else if f == 0x19 {
            EE::DADDIU(inst)
        } else if f == 0x1A {
            EE::LDL(inst)
        } else if f == 0x1B {
            EE::LDR(inst)
        } else if f == 0x1C {
            let s = Mmi::spec_translate(inst);
            if s == Mmi::ILLEGAL { EE::ILLEGAL } else { EE::MMI(s) }
        } else if f == 0x1E {
            EE::LQ(inst)
        } else if f == 0x1F {
            EE::SQ(inst)
        } else if f == 0x20 {
            EE::LB(inst)
        } else if f == 0x21 {
            EE::LH(inst)
        } else if f == 0x22 {
            EE::LWL(inst)
        } else if f == 0x23 {
            EE::LW(inst)
        } else if f == 0x24 {
            EE::LBU(inst)
        } else if f == 0x25 {
            EE::LHU(inst)
        } else if f == 0x26 {
            EE::LWR(inst)
        } else if f == 0x27 {
            EE::LWU(inst)
        } else if f == 0x28 {
            EE::SB(inst)
        } else if f == 0x29 {
            EE::SH(inst)
        } else if f == 0x2A {
            EE::SWL(inst)
        } else if f == 0x2B {
            EE::SW(inst)
        } else if f == 0x2C {
            EE::SDL(inst)
        } else if f == 0x2D {
            EE::SDR(inst)
        } else if f == 0x2E {
            EE::SWR(inst)
        } else if f == 0x2F {
            EE::CACHE(inst)
        } else if f == 0x31 {
            EE::LWC1(inst)
        } else if f == 0x33 {
            EE::PREF(inst)
        } else if f == 0x36 {
            EE::LQC2(inst)
        } else if f == 0x37 {
            EE::LD(inst)
        } else if f == 0x39 {
            EE::SWC1(inst)
        } else if f == 0x3E {
            EE::SQC2(inst)
        } else if f == 0x3F {
            EE::SD(inst)
        } else {
            EE::ILLEGAL
        }
    }

    fn translate(inst: u32) -> EE {
        match inst >> 26 {
            0x00 => match Special::translate(inst) {
                Special::ILLEGAL => EE::ILLEGAL,
                i => EE::SPECIAL(i),
            },
            0x01 => match Regimm::translate(inst) {
                Regimm::ILLEGAL => EE::ILLEGAL,
                i => EE::REGIMM(i),
            },
            0x02 => EE::J(inst),
            0x03 => EE::JAL(inst),
            0x04 => EE::BEQ(inst),
            0x05 => EE::BNE(inst),
            0x06 => EE::BLEZ(inst),
            0x07 => EE::BGTZ(inst),
            0x08 => EE::ADDI(inst),
            0x09 => EE::ADDIU(inst),
            0x0A => EE::SLTI(inst),
            0x0B => EE::SLTIU(inst),
            0x0C => EE::ANDI(inst),
            0x0D => EE::ORI(inst),
            0x0E => EE::XORI(inst),
            0x0F => EE::LUI(inst),
            0x10 => match Cop0::translate(inst) {
                Cop0::ILLEGAL => EE::ILLEGAL,
                i => EE::COP0(i),
            },
            0x11 => match Cop1::translate(inst) {
                Cop1::ILLEGAL => EE::ILLEGAL,
                i => EE::COP1(i),
            },
            0x12 => match Cop2::translate(inst) {
                Cop2::ILLEGAL => EE::ILLEGAL,
                i => EE::COP2(i),
            },
            0x14 => EE::BEQL(inst),
            0x15 => EE::BNEL(inst),
            0x16 => EE::BLEZL(inst),
            0x17 => EE::BGTZL(inst),
            0x18 => EE::DADDI(inst),
            0x19 => EE::DADDIU(inst),
            0x1A => EE::LDL(inst),
            0x1B => EE::LDR(inst),
            0x1C => match Mmi::translate(inst) {
                Mmi::ILLEGAL => EE::ILLEGAL,
                i => EE::MMI(i),
            },
            0x1E => EE::LQ(inst),
            0x1F => EE::SQ(inst),
            0x20 => EE::LB(inst),
            0x21 => EE::LH(inst),
            0x22 => EE::LWL(inst),
            0x23 => EE::LW(inst),
            0x24 => EE::LBU(inst),
            0x25 => EE::LHU(inst),
            0x26 => EE::LWR(inst),
            0x27 => EE::LWU(inst),
            0x28 => EE::SB(inst),
            0x29 => EE::SH(inst),
            0x2A => EE::SWL(inst),
            0x2B => EE::SW(inst),
            0x2C => EE::SDL(inst),
            0x2D => EE::SDR(inst),
            0x2E => EE::SWR(inst),
            0x2F => EE::CACHE(inst),
            0x31 => EE::LWC1(inst),
            0x33 => EE::PREF(inst),
            0x36 => EE::LQC2(inst),
            0x37 => EE::LD(inst),
            0x39 => EE::SWC1(inst),
            0x3E => EE::SQC2(inst),
            0x3F => EE::SD(inst),
            _ => EE::ILLEGAL,
        }
    }
}

impl Trans<Special> for Special {
    /// Keyed on the function field, bits 5:0.
    open spec fn spec_translate(inst: u32) -> Special {
        let f = inst & 0x3F;
        if f == 0x00 {
            Special::SLL(inst)
        } else if f == 0x02 {
            Special::SRL(inst)
        } else if f == 0x03 {
            Special::SRA(inst)
        } else if f == 0x04 {
            Special::SLLV(inst)
        } else if f == 0x06 {
            Special::SRLV(inst)
        } else if f == 0x07 {
            Special::SRAV(inst)
        } else if f == 0x08 {
            Special::JR(inst)
        } else if f == 0x09 {
            Special::JALR(inst)
        } else if f == 0x0A {
            Special::MOVZ(inst)
        } else if f == 0x0B {
            Special::MOVN(inst)
        } else if f == 0x0C {
            Special::SYSCALL(inst)
        } else if f == 0x0D {
            Special::BREAK(inst)
        } else if f == 0x0F {
            Special::SYNC(inst)
        } else if f == 0x10 {
            Special::MFHI(inst)
        } else if f == 0x11 {
            Special::MTHI(inst)
        } else if f == 0x12 {
            Special::MFLO(inst)
        } else if f == 0x13 {
            Special::MTLO(inst)
        } else if f == 0x14 {
            Special::DSLLV(inst)
        } else if f == 0x16 {
            Special::DSRLV(inst)
        } else if f == 0x17 {
            Special::DSRAV(inst)
        } else if f == 0x18 {
            Special::MULT(inst)
        } else if f == 0x19 {
            Special::MULTU(inst)
        } else if f == 0x1A {
            Special::DIV(inst)
        } else if f == 0x1B {
            Special::DIVU(inst)
        } else if f == 0x20 {
            Special::ADD(inst)
        } else if f == 0x21 {
            Special::ADDU(inst)
        } else if f == 0x22 {
            Special::SUB(inst)
        } else if f == 0x23 {
            Special::SUBU(inst)
        } else if f == 0x24 {
            Special::AND(inst)
        } else if f == 0x25 {
            Special::OR(inst)
        } else if f == 0x26 {
            Special::XOR(inst)
        } else if f == 0x27 {
            Special::NOR(inst)
        } else if f == 0x28 {
            Special::MFSA(inst)
        } else if f == 0x29 {
            Special::MTSA(inst)
        } else if f == 0x2A {
            Special::SLT(inst)
        } else if f == 0x2B {
            Special::SLTU(inst)
        } else if f == 0x2C {
            Special::DADD(inst)
        } else if f == 0x2D {
            Special::DADDU(inst)
        } else if f == 0x2E {
            Special::DSUB(inst)
        } else if f == 0x2F {
            Special::DSUBU(inst)
        } else if f == 0x30 {
            Special::TGE(inst)
        } else if f == 0x31 {
            Special::TGEU(inst)
        } else if f == 0x32 {
            Special::TLT(inst)
        } else if f == 0x33 {
            Special::TLTU(inst)
        } else if f == 0x34 {
            Special::TEQ(inst)
        } else if f == 0x36 {
            Special::TNE(inst)
        } else if f == 0x38 {
            Special::DSLL(inst)
        } else if f == 0x3A {
            Special::DSRL(inst)
        } else if f == 0x3B {
            Special::DSRA(inst)
        } else if f == 0x3C {
            Special::DSLL32(inst)
        } else if f == 0x3E {
            Special::DSRL32(inst)
        } else if f == 0x3F {
            Special::DSRA32(inst)
        } else {
            Special::ILLEGAL
        }
    }

    fn translate(inst: u32) -> Special {
        match inst & 0x3F {
            0x00 => Special::SLL(inst),
            0x02 => Special::SRL(inst),
            0x03 => Special::SRA(inst),
            0x04 => Special::SLLV(inst),
            0x06 => Special::SRLV(inst),
            0x07 => Special::SRAV(inst),
            0x08 => Special::JR(inst),
            0x09 => Special::JALR(inst),
            0x0A => Special::MOVZ(inst),
            0x0B => Special::MOVN(inst),
            0x0C => Special::SYSCALL(inst),
            0x0D => Special::BREAK(inst),
            0x0F => Special::SYNC(inst),
            0x10 => Special::MFHI(inst),
            0x11 => Special::MTHI(inst),
            0x12 => Special::MFLO(inst),
            0x13 => Special::MTLO(inst),
            0x14 => Special::DSLLV(inst),
            0x16 => Special::DSRLV(inst),
            0x17 => Special::DSRAV(inst),
            0x18 => Special::MULT(inst),
            0x19 => Special::MULTU(inst),
            0x1A => Special::DIV(inst),
            0x1B => Special::DIVU(inst),
            0x20 => Special::ADD(inst),
            0x21 => Special::ADDU(inst),
            0x22 => Special::SUB(inst),
            0x23 => Special::SUBU(inst),
            0x24 => Special::AND(inst),
            0x25 => Special::OR(inst),
            0x26 => Special::XOR(inst),
            0x27 => Special::NOR(inst),
            0x28 => Special::MFSA(inst),
            0x29 => Special::MTSA(inst),
            0x2A => Special::SLT(inst),
            0x2B => Special::SLTU(inst),
            0x2C => Special::DADD(inst),
            0x2D => Special::DADDU(inst),
            0x2E => Special::DSUB(inst),
            0x2F => Special::DSUBU(inst),
            0x30 => Special::TGE(inst),
            0x31 => Special::TGEU(inst),
            0x32 => Special::TLT(inst),
            0x33 => Special::TLTU(inst),
            0x34 => Special::TEQ(inst),
            0x36 => Special::TNE(inst),
            0x38 => Special::DSLL(inst),
            0x3A => Special::DSRL(inst),
            0x3B => Special::DSRA(inst),
            0x3C => Special::DSLL32(inst),
            0x3E => Special::DSRL32(inst),
            0x3F => Special::DSRA32(inst),
            _ => Special::ILLEGAL,
        }
    }
}

impl Trans<Regimm> for Regimm {
    /// Keyed on the rt field, bits 20:16.
    open spec fn spec_translate(inst: u32) -> Regimm {
        let f = (inst >> 16) & 0x1F;
        if f == 0x00 {
            Regimm::BLTZ(inst)
        } else if f == 0x01 {
            Regimm::BGEZ(inst)
        } else if f == 0x02 {
            Regimm::BLTZL(inst)
        } else if f == 0x03 {
            Regimm::BGEZL(inst)
        } else if f == 0x08 {
            Regimm::TGEI(inst)
        } else if f == 0x09 {
            Regimm::TGEIU(inst)
        } else if f == 0x0A {
            Regimm::TLTI(inst)
        } else if f == 0x0B {
            Regimm::TLTIU(inst)
        } else if f == 0x0C {
            Regimm::TEQI(inst)
        } else if f == 0x0E {
            Regimm::TNEI(inst)
        } else if f == 0x10 {
            Regimm::BLTZAL(inst)
        } else if f == 0x11 {
            Regimm::BGEZAL(inst)
        } else if f == 0x12 {
            Regimm::BLTZALL(inst)
        } else if f == 0x13 {
            Regimm::BGEZALL(inst)
        } else if f == 0x18 {
            Regimm::MTSAB(inst)
        } else if f == 0x19 {
            Regimm::MTSAH(inst)
        } else {
            Regimm::ILLEGAL
        }
    }

    fn translate(inst: u32) -> Regimm {
        match (inst >> 16) & 0x1F {
            0x00 => Regimm::BLTZ(inst),
            0x01 => Regimm::BGEZ(inst),
            0x02 => Regimm::BLTZL(inst),
            0x03 => Regimm::BGEZL(inst),
            0x08 => Regimm::TGEI(inst),
            0x09 => Regimm::TGEIU(inst),
            0x0A => Regimm::TLTI(inst),
            0x0B => Regimm::TLTIU(inst),
            0x0C => Regimm::TEQI(inst),
            0x0E => Regimm::TNEI(inst),
            0x10 => Regimm::BLTZAL(inst),
            0x11 => Regimm::BGEZAL(inst),
            0x12 => Regimm::BLTZALL(inst),
            0x13 => Regimm::BGEZALL(inst),
            0x18 => Regimm::MTSAB(inst),
            0x19 => Regimm::MTSAH(inst),
            _ => Regimm::ILLEGAL,
        }
    }
}

impl Trans<Mmi> for Mmi {
    /// Keyed on the function field, bits 5:0.
    open spec fn spec_translate(inst: u32) -> Mmi {
        let f = inst & 0x3F;
        if f == 0x00 {
            Mmi::MADD(inst)
        } else if f == 0x01 {
            Mmi::MADDU(inst)
        } else if f == 0x04 {
            Mmi::PLZCW(inst)
        } else if f == 0x08 {
            let s = Mmi0::spec_translate(inst);
            if s == Mmi0::ILLEGAL { Mmi::ILLEGAL } else { Mmi::MMI0(s) }
        } else if f == 0x09 {
            let s = Mmi2::spec_translate(inst);
            if s == Mmi2::ILLEGAL { Mmi::ILLEGAL } else { Mmi::MMI2(s) }
        } else if f == 0x10 {
            Mmi::MFHI1(inst)
        } else if f == 0x11 {
            Mmi::MTHI1(inst)
        } else if f == 0x12 {
            Mmi::MFLO1(inst)
        } else if f == 0x13 {
            Mmi::MTLO1(inst)
        } else if f == 0x18 {
            Mmi::MULT1(inst)
        } else if f == 0x19 {
            Mmi::MULTU1(inst)
        } else if f == 0x1A {
            Mmi::DIV1(inst)
        } else if f == 0x1B {
            Mmi::DIVU1(inst)
        } else if f == 0x20 {
            Mmi::MADD1(inst)
        } else if f == 0x21 {
            Mmi::MADDU1(inst)
        } else if f == 0x28 {
            let s = Mmi1::spec_translate(inst);
            if s == Mmi1::ILLEGAL { Mmi::ILLEGAL } else { Mmi::MMI1(s) }
        } else if f == 0x29 {
            let s = Mmi3::spec_translate(inst);
            if s == Mmi3::ILLEGAL { Mmi::ILLEGAL } else { Mmi::MMI3(s) }
        } else if f == 0x30 {
            Mmi::PMFHL(inst)
        } else if f == 0x31 {
            Mmi::PMTHL(inst)
        } else if f == 0x34 {
            Mmi::PSLLH(inst)
        } else if f == 0x36 {
            Mmi::PSRLH(inst)
        } else if f == 0x37 {
            Mmi::PSRAH(inst)
        } else if f == 0x3C {
            Mmi::PSLLW(inst)
        } else if f == 0x3E {
            Mmi::PSRLW(inst)
        } else if f == 0x3F {
            Mmi::PSRAW(inst)
        } else {
            Mmi::ILLEGAL
        }
    }

    fn translate(inst: u32) -> Mmi {
        match inst & 0x3F {
            0x00 => Mmi::MADD(inst),
            0x01 => Mmi::MADDU(inst),
            0x04 => Mmi::PLZCW(inst),
            0x08 => match Mmi0::translate(inst) {
                Mmi0::ILLEGAL => Mmi::ILLEGAL,
                i => Mmi::MMI0(i),
            },
            0x09 => match Mmi2::translate(inst) {
                Mmi2::ILLEGAL => Mmi::ILLEGAL,
                i => Mmi::MMI2(i),
            },
            0x10 => Mmi::MFHI1(inst),
            0x11 => Mmi::MTHI1(inst),
            0x12 => Mmi::MFLO1(inst),
            0x13 => Mmi::MTLO1(inst),
            0x18 => Mmi::MULT1(inst),
            0x19 => Mmi::MULTU1(inst),
            0x1A => Mmi::DIV1(inst),
            0x1B => Mmi::DIVU1(inst),
            0x20 => Mmi::MADD1(inst),
            0x21 => Mmi::MADDU1(inst),
            0x28 => match Mmi1::translate(inst) {
                Mmi1::ILLEGAL => Mmi::ILLEGAL,
                i => Mmi::MMI1(i),
            },
            0x29 => match Mmi3::translate(inst) {
                Mmi3::ILLEGAL => Mmi::ILLEGAL,
                i => Mmi::MMI3(i),
            },
            0x30 => Mmi::PMFHL(inst),
            0x31 => Mmi::PMTHL(inst),
            0x34 => Mmi::PSLLH(inst),
            0x36 => Mmi::PSRLH(inst),
            0x37 => Mmi::PSRAH(inst),
            0x3C => Mmi::PSLLW(inst),
            0x3E => Mmi::PSRLW(inst),
            0x3F => Mmi::PSRAW(inst),
            _ => Mmi::ILLEGAL,
        }
    }
}

impl Trans<Mmi0> for Mmi0 {
    /// Keyed on the sa field, bits 10:6.
    open spec fn spec_translate(inst: u32) -> Mmi0 {
        let f = (inst >> 6) & 0x1F;
        if f == 0x00 {
            Mmi0::PADDW(inst)
        } else if f == 0x01 {
            Mmi0::PSUBW(inst)
        } else if f == 0x02 {
            Mmi0::PCGTW(inst)
        } else if f == 0x03 {
            Mmi0::PMAXW(inst)
        } else if f == 0x04 {
            Mmi0::PADDH(inst)
        } else if f == 0x05 {
            Mmi0::PSUBH(inst)
        } else if f == 0x06 {
            Mmi0::PCGTH(inst)
        } else if f == 0x07 {
            Mmi0::PMAXH(inst)
        } else if f == 0x08 {
            Mmi0::PADDB(inst)
        } else if f == 0x09 {
            Mmi0::PSUBB(inst)
        } else if f == 0x0A {
            Mmi0::PCGTB(inst)
        } else if f == 0x10 {
            Mmi0::PADDSW(inst)
        } else if f == 0x11 {
            Mmi0::PSUBSW(inst)
        } else if f == 0x12 {
            Mmi0::PEXTLW(inst)
        } else if f == 0x13 {
            Mmi0::PPACW(inst)
        } else if f == 0x14 {
            Mmi0::PADDSH(inst)
        } else if f == 0x15 {
            Mmi0::PSUBSH(inst)
        } else if f == 0x16 {
            Mmi0::PEXTLH(inst)
        } else if f == 0x17 {
            Mmi0::PPACH(inst)
        } else if f == 0x18 {
            Mmi0::PADDSB(inst)
        } else if f == 0x19 {
            Mmi0::PSUBSB(inst)
        } else if f == 0x1A {
            Mmi0::PEXTLB(inst)
        } else if f == 0x1B {
            Mmi0::PPACB(inst)
        } else if f == 0x1E {
            Mmi0::PEXT5(inst)
        } else if f == 0x1F {
            Mmi0::PPAC5(inst)
        } else {
            Mmi0::ILLEGAL
        }
    }

    fn translate(inst: u32) -> Mmi0 {
        match (inst >> 6) & 0x1F {
            0x00 => Mmi0::PADDW(inst),
            0x01 => Mmi0::PSUBW(inst),
            0x02 => Mmi0::PCGTW(inst),
            0x03 => Mmi0::PMAXW(inst),
            0x04 => Mmi0::PADDH(inst),
            0x05 => Mmi0::PSUBH(inst),
            0x06 => Mmi0::PCGTH(inst),
            0x07 => Mmi0::PMAXH(inst),
            0x08 => Mmi0::PADDB(inst),
            0x09 => Mmi0::PSUBB(inst),
            0x0A => Mmi0::PCGTB(inst),
            0x10 => Mmi0::PADDSW(inst),
            0x11 => Mmi0::PSUBSW(inst),
            0x12 => Mmi0::PEXTLW(inst),
            0x13 => Mmi0::PPACW(inst),
            0x14 => Mmi0::PADDSH(inst),
            0x15 => Mmi0::PSUBSH(inst),
            0x16 => Mmi0::PEXTLH(inst),
            0x17 => Mmi0::PPACH(inst),
            0x18 => Mmi0::PADDSB(inst),
            0x19 => Mmi0::PSUBSB(inst),
            0x1A => Mmi0::PEXTLB(inst),
            0x1B => Mmi0::PPACB(inst),
            0x1E => Mmi0::PEXT5(inst),
            0x1F => Mmi0::PPAC5(inst),
            _ => Mmi0::ILLEGAL,
        }
    }
}

impl Trans<Mmi1> for Mmi1 {
    /// Keyed on the sa field, bits 10:6.
    open spec fn spec_translate(inst: u32) -> Mmi1 {
        let f = (inst >> 6) & 0x1F;
        if f == 0x01 {
            Mmi1::PABSW(inst)
        } else if f == 0x02 {
            Mmi1::PCEQW(inst)
        } else if f == 0x03 {
            Mmi1::PMINW(inst)
        } else if f == 0x04 {
            Mmi1::PADSBH(inst)
        } else if f == 0x05 {
            Mmi1::PABSH(inst)
        } else if f == 0x06 {
            Mmi1::PCEQH(inst)
        } else if f == 0x07 {
            Mmi1::PMINH(inst)
        } else if f == 0x0A {
            Mmi1::PCEQB(inst)
        } else if f == 0x10 {
            Mmi1::PADDUW(inst)
        } else if f == 0x11 {
            Mmi1::PSUBUW(inst)
        } else if f == 0x12 {
            Mmi1::PEXTUW(inst)
        } else if f == 0x14 {
            Mmi1::PADDUH(inst)
        } else if f == 0x15 {
            Mmi1::PSUBUH(inst)
        } else if f == 0x16 {
            Mmi1::PEXTUH(inst)
        } else if f == 0x18 {
            Mmi1::PADDUB(inst)
        } else if f == 0x19 {
            Mmi1::PSUBUB(inst)
        } else if f == 0x1A {
            Mmi1::PEXTUB(inst)
        } else if f == 0x1B {
            Mmi1::QFSRV(inst)
        } else {
            Mmi1::ILLEGAL
        }
    }

    fn translate(inst: u32) -> Mmi1 {
        match (inst >> 6) & 0x1F {
            0x01 => Mmi1::PABSW(inst),
            0x02 => Mmi1::PCEQW(inst),
            0x03 => Mmi1::PMINW(inst),
            0x04 => Mmi1::PADSBH(inst),
            0x05 => Mmi1::PABSH(inst),
            0x06 => Mmi1::PCEQH(inst),
            0x07 => Mmi1::PMINH(inst),
            0x0A => Mmi1::PCEQB(inst),
            0x10 => Mmi1::PADDUW(inst),
            0x11 => Mmi1::PSUBUW(inst),
            0x12 => Mmi1::PEXTUW(inst),
            0x14 => Mmi1::PADDUH(inst),
            0x15 => Mmi1::PSUBUH(inst),
            0x16 => Mmi1::PEXTUH(inst),
            0x18 => Mmi1::PADDUB(inst),
            0x19 => Mmi1::PSUBUB(inst),
            0x1A => Mmi1::PEXTUB(inst),
            0x1B => Mmi1::QFSRV(inst),
            _ => Mmi1::ILLEGAL,
        }
    }
}

impl Trans<Mmi2> for Mmi2 {
    /// Keyed on the sa field, bits 10:6.
    open spec fn spec_translate(inst: u32) -> Mmi2 {
        let f = (inst >> 6) & 0x1F;
        if f == 0x00 {
            Mmi2::PMADDW(inst)
        } else if f == 0x02 {
            Mmi2::PSLLVW(inst)
        } else if f == 0x03 {
            Mmi2::PSRLVW(inst)
        } else if f == 0x04 {
            Mmi2::PMSUBW(inst)
        } else if f == 0x08 {
            Mmi2::PMFHI(inst)
        } else if f == 0x09 {
            Mmi2::PMFLO(inst)
        } else if f == 0x0A {
            Mmi2::PINTH(inst)
        } else if f == 0x0C {
            Mmi2::PMULTW(inst)
        } else if f == 0x0D {
            Mmi2::PDIVW(inst)
        } else if f == 0x0E {
            Mmi2::PCPYLD(inst)
        } else if f == 0x10 {
            Mmi2::PMADDH(inst)
        } else if f == 0x11 {
            Mmi2::PHMADH(inst)
        } else if f == 0x12 {
            Mmi2::PAND(inst)
        } else if f == 0x13 {
            Mmi2::PXOR(inst)
        } else if f == 0x14 {
            Mmi2::PMSUBH(inst)
        } else if f == 0x15 {
            Mmi2::PHMSBH(inst)
        } else if f == 0x1A {
            Mmi2::PEXEH(inst)
        } else if f == 0x1B {
            Mmi2::PREVH(inst)
        } else if f == 0x1C {
            Mmi2::PMULTH(inst)
        } else if f == 0x1D {
            Mmi2::PDIVBW(inst)
        } else if f == 0x1E {
            Mmi2::PEXEW(inst)
        } else if f == 0x1F {
            Mmi2::PROT3W(inst)
        } else {
            Mmi2::ILLEGAL
        }
    }

    fn translate(inst: u32) -> Mmi2 {
        match (inst >> 6) & 0x1F {
            0x00 => Mmi2::PMADDW(inst),
            0x02 => Mmi2::PSLLVW(inst),
            0x03 => Mmi2::PSRLVW(inst),
            0x04 => Mmi2::PMSUBW(inst),
            0x08 => Mmi2::PMFHI(inst),
            0x09 => Mmi2::PMFLO(inst),
            0x0A => Mmi2::PINTH(inst),
            0x0C => Mmi2::PMULTW(inst),
            0x0D => Mmi2::PDIVW(inst),
            0x0E => Mmi2::PCPYLD(inst),
            0x10 => Mmi2::PMADDH(inst),
            0x11 => Mmi2::PHMADH(inst),
            0x12 => Mmi2::PAND(inst),
            0x13 => Mmi2::PXOR(inst),
            0x14 => Mmi2::PMSUBH(inst),
            0x15 => Mmi2::PHMSBH(inst),
            0x1A => Mmi2::PEXEH(inst),
            0x1B => Mmi2::PREVH(inst),
            0x1C => Mmi2::PMULTH(inst),
            0x1D => Mmi2::PDIVBW(inst),
            0x1E => Mmi2::PEXEW(inst),
            0x1F => Mmi2::PROT3W(inst),
            _ => Mmi2::ILLEGAL,
        }
    }
}

impl Trans<Mmi3> for Mmi3 {
    /// Keyed on the sa field, bits 10:6.
    open spec fn spec_translate(inst: u32) -> Mmi3 {
        let f = (inst >> 6) & 0x1F;
        if f == 0x00 {
            Mmi3::PMADDUW(inst)
        } else if f == 0x03 {
            Mmi3::PSRAVW(inst)
        } else if f == 0x08 {
            Mmi3::PMTHI(inst)
        } else if f == 0x09 {
            Mmi3::PMTLO(inst)
        } else if f == 0x0A {
            Mmi3::PINTEH(inst)
        } else if f == 0x0C {
            Mmi3::PMULTUW(inst)
        } else if f == 0x0D {
            Mmi3::PDIVUW(inst)
        } else if f == 0x0E {
            Mmi3::PCPYUD(inst)
        } else if f == 0x12 {
            Mmi3::POR(inst)
        } else if f == 0x13 {
            Mmi3::PNOR(inst)
        } else if f == 0x1A {
            Mmi3::PEXCH(inst)
        } else if f == 0x1B {
            Mmi3::PCPYH(inst)
        } else if f == 0x1E {
            Mmi3::PEXCW(inst)
        } else {
            Mmi3::ILLEGAL
        }
    }

    fn translate(inst: u32) -> Mmi3 {
        match (inst >> 6) & 0x1F {
            0x00 => Mmi3::PMADDUW(inst),
            0x03 => Mmi3::PSRAVW(inst),
            0x08 => Mmi3::PMTHI(inst),
            0x09 => Mmi3::PMTLO(inst),
            0x0A => Mmi3::PINTEH(inst),
            0x0C => Mmi3::PMULTUW(inst),
            0x0D => Mmi3::PDIVUW(inst),
            0x0E => Mmi3::PCPYUD(inst),
            0x12 => Mmi3::POR(inst),
            0x13 => Mmi3::PNOR(inst),
            0x1A => Mmi3::PEXCH(inst),
            0x1B => Mmi3::PCPYH(inst),
            0x1E => Mmi3::PEXCW(inst),
            _ => Mmi3::ILLEGAL,
        }
    }
}

impl Trans<Cop0> for Cop0 {
    /// Keyed on the rs field, bits 25:21.
    open spec fn spec_translate(inst: u32) -> Cop0 {
        let f = (inst >> 21) & 0x1F;
        if f == 0x00 {
            Cop0::MFC0(inst)
        } else if f == 0x04 {
            Cop0::MTC0(inst)
        } else if f == 0x08 {
            let s = Bc0::spec_translate(inst);
            if s == Bc0::ILLEGAL { Cop0::ILLEGAL } else { Cop0::BC0(s) }
        } else if f == 0x10 {
            let s = Tlb::spec_translate(inst);
            if s == Tlb::ILLEGAL { Cop0::ILLEGAL } else { Cop0::TLB(s) }
        } else {
            Cop0::ILLEGAL
        }
    }

    fn translate(inst: u32) -> Cop0 {
        match (inst >> 21) & 0x1F {
            0x00 => Cop0::MFC0(inst),
            0x04 => Cop0::MTC0(inst),
            0x08 => match Bc0::translate(inst) {
                Bc0::ILLEGAL => Cop0::ILLEGAL,
                i => Cop0::BC0(i),
            },
            0x10 => match Tlb::translate(inst) {
                Tlb::ILLEGAL => Cop0::ILLEGAL,
                i => Cop0::TLB(i),
            },
            _ => Cop0::ILLEGAL,
        }
    }
}

impl Trans<Bc0> for Bc0 {
    /// Keyed on the rt field, bits 20:16.
    open spec fn spec_translate(inst: u32) -> Bc0 {
        let f = (inst >> 16) & 0x1F;
        if f == 0x00 {
            Bc0::BC0F(inst)
        } else if f == 0x01 {
            Bc0::BC0T(inst)
        } else if f == 0x02 {
            Bc0::BC0FL(inst)
        } else if f == 0x03 {
            Bc0::BC0TL(inst)
        } else {
            Bc0::ILLEGAL
        }
    }

    fn translate(inst: u32) -> Bc0 {
        match (inst >> 16) & 0x1F {
            0x00 => Bc0::BC0F(inst),
            0x01 => Bc0::BC0T(inst),
            0x02 => Bc0::BC0FL(inst),
            0x03 => Bc0::BC0TL(inst),
            _ => Bc0::ILLEGAL,
        }
    }
}

impl Trans<Tlb> for Tlb {
    /// Keyed on the function field, bits 5:0.
    open spec fn spec_translate(inst: u32) -> Tlb {
        let f = inst & 0x3F;
        if f == 0x01 {
            Tlb::TLBR(inst)
        } else if f == 0x02 {
            Tlb::TLBWI(inst)
        } else if f == 0x06 {
            Tlb::TLBWR(inst)
        } else if f == 0x08 {
            Tlb::TLBP(inst)
        } else if f == 0x18 {
            Tlb::ERET(inst)
        } else if f == 0x38 {
            Tlb::EI(inst)
        } else if f == 0x39 {
            Tlb::DI(inst)
        } else {
            Tlb::ILLEGAL
        }
    }

    fn translate(inst: u32) -> Tlb {
        match inst & 0x3F {
            0x01 => Tlb::TLBR(inst),
            0x02 => Tlb::TLBWI(inst),
            0x06 => Tlb::TLBWR(inst),
            0x08 => Tlb::TLBP(inst),
            0x18 => Tlb::ERET(inst),
            0x38 => Tlb::EI(inst),
            0x39 => Tlb::DI(inst),
            _ => Tlb::ILLEGAL,
        }
    }
}

impl Trans<Cop1> for Cop1 {
    /// Keyed on the rs field, bits 25:21.
    open spec fn spec_translate(inst: u32) -> Cop1 {
        let f = (inst >> 21) & 0x1F;
        if f == 0x00 {
            Cop1::MFC1(inst)
        } else if f == 0x02 {
            Cop1::CFC1(inst)
        } else if f == 0x04 {
            Cop1::MTC1(inst)
        } else if f == 0x06 {
            Cop1::CTC1(inst)
        } else if f == 0x08 {
            let s = Bc1::spec_translate(inst);
            if s == Bc1::ILLEGAL { Cop1::ILLEGAL } else { Cop1::BC1(s) }
        } else if f == 0x10 {
            let s = Fpus::spec_translate(inst);
            if s == Fpus::ILLEGAL { Cop1::ILLEGAL } else { Cop1::FPUS(s) }
        } else if f == 0x14 {
            let s = Fpuw::spec_translate(inst);
            if s == Fpuw::ILLEGAL { Cop1::ILLEGAL } else { Cop1::FPUW(s) }
        } else {
            Cop1::ILLEGAL
        }
    }

    fn translate(inst: u32) -> Cop1 {
        match (inst >> 21) & 0x1F {
            0x00 => Cop1::MFC1(inst),
            0x02 => Cop1::CFC1(inst),
            0x04 => Cop1::MTC1(inst),
            0x06 => Cop1::CTC1(inst),
            0x08 => match Bc1::translate(inst) {
                Bc1::ILLEGAL => Cop1::ILLEGAL,
                i => Cop1::BC1(i),
            },
            0x10 => match Fpus::translate(inst) {
                Fpus::ILLEGAL => Cop1::ILLEGAL,
                i => Cop1::FPUS(i),
            },
            0x14 => match Fpuw::translate(inst) {
                Fpuw::ILLEGAL => Cop1::ILLEGAL,
                i => Cop1::FPUW(i),
            },
            _ => Cop1::ILLEGAL,
        }
    }
}

impl Trans<Bc1> for Bc1 {
    /// Keyed on the rt field, bits 20:16.
    open spec fn spec_translate(inst: u32) -> Bc1 {
        let f = (inst >> 16) & 0x1F;
        if f == 0x00 {
            Bc1::BC1F(inst)
        } else if f == 0x01 {
            Bc1::BC1T(inst)
        } else if f == 0x02 {
            Bc1::BC1FL(inst)
        } else if f == 0x03 {
            Bc1::BC1TL(inst)
        } else {
            Bc1::ILLEGAL
        }
    }

    fn translate(inst: u32) -> Bc1 {
        match (inst >> 16) & 0x1F {
            0x00 => Bc1::BC1F(inst),
            0x01 => Bc1::BC1T(inst),
            0x02 => Bc1::BC1FL(inst),
            0x03 => Bc1::BC1TL(inst),
            _ => Bc1::ILLEGAL,
        }
    }
}

impl Trans<Fpus> for Fpus {
    /// Keyed on the function field, bits 5:0.
    open spec fn spec_translate(inst: u32) -> Fpus {
        let f = inst & 0x3F;
        if f == 0x00 {
            Fpus::ADD_S(inst)
        } else if f == 0x01 {
            Fpus::SUB_S(inst)
        } else if f == 0x02 {
            Fpus::MUL_S(inst)
        } else if f == 0x03 {
            Fpus::DIV_S(inst)
        } else if f == 0x04 {
            Fpus::SQRT_S(inst)
        } else if f == 0x05 {
            Fpus::ABS_S(inst)
        } else if f == 0x06 {
            Fpus::MOV_S(inst)
        } else if f == 0x07 {
            Fpus::NEG_S(inst)
        } else if f == 0x16 {
            Fpus::RSQRT_S(inst)
        } else if f == 0x18 {
            Fpus::ADDA_S(inst)
        } else if f == 0x19 {
            Fpus::SUBA_S(inst)
        } else if f == 0x1A {
            Fpus::MULA_S(inst)
        } else if f == 0x1C {
            Fpus::MADD_S(inst)
        } else if f == 0x1D {
            Fpus::MSUB_S(inst)
        } else if f == 0x1E {
            Fpus::MADDA_S(inst)
        } else if f == 0x1F {
            Fpus::MSUBA_S(inst)
        } else if f == 0x24 {
            Fpus::CVT_W(inst)
        } else if f == 0x28 {
            Fpus::MAX_S(inst)
        } else if f == 0x29 {
            Fpus::MIN_S(inst)
        } else if f == 0x30 {
            Fpus::C_F(inst)
        } else if f == 0x32 {
            Fpus::C_EQ(inst)
        } else if f == 0x34 {
            Fpus::C_LT(inst)
        } else if f == 0x36 {
            Fpus::C_LE(inst)
        } else {
            Fpus::ILLEGAL
        }
    }

    fn translate(inst: u32) -> Fpus {
        match inst & 0x3F {
            0x00 => Fpus::ADD_S(inst),
            0x01 => Fpus::SUB_S(inst),
            0x02 => Fpus::MUL_S(inst),
            0x03 => Fpus::DIV_S(inst),
            0x04 => Fpus::SQRT_S(inst),
            0x05 => Fpus::ABS_S(inst),
            0x06 => Fpus::MOV_S(inst),
            0x07 => Fpus::NEG_S(inst),
            0x16 => Fpus::RSQRT_S(inst),
            0x18 => Fpus::ADDA_S(inst),
            0x19 => Fpus::SUBA_S(inst),
            0x1A => Fpus::MULA_S(inst),
            0x1C => Fpus::MADD_S(inst),
            0x1D => Fpus::MSUB_S(inst),
            0x1E => Fpus::MADDA_S(inst),
            0x1F => Fpus::MSUBA_S(inst),
            0x24 => Fpus::CVT_W(inst),
            0x28 => Fpus::MAX_S(inst),
            0x29 => Fpus::MIN_S(inst),
            0x30 => Fpus::C_F(inst),
            0x32 => Fpus::C_EQ(inst),
            0x34 => Fpus::C_LT(inst),
            0x36 => Fpus::C_LE(inst),
            _ => Fpus::ILLEGAL,
        }
    }
}

impl Trans<Fpuw> for Fpuw {
    /// Keyed on the function field, bits 5:0.
    open spec fn spec_translate(inst: u32) -> Fpuw {
        let f = inst & 0x3F;
        if f == 0x20 {
            Fpuw::CVT_S(inst)
        } else {
            Fpuw::ILLEGAL
        }
    }

    fn translate(inst: u32) -> Fpuw {
        match inst & 0x3F {
            0x20 => Fpuw::CVT_S(inst),
            _ => Fpuw::ILLEGAL,
        }
    }
}

impl Trans<Cop2> for Cop2 {
    /// Keyed on the rs field, bits 25:21.
    open spec fn spec_translate(inst: u32) -> Cop2 {
        let f = (inst >> 21) & 0x1F;
        if f == 0x01 {
            Cop2::QMFC2(inst)
        } else if f == 0x02 {
            Cop2::CFC2(inst)
        } else if f == 0x05 {
            Cop2::QMTC2(inst)
        } else if f == 0x06 {
            Cop2::CTC2(inst)
        } else if f == 0x08 {
            let s = Bc2::spec_translate(inst);
            if s == Bc2::ILLEGAL { Cop2::ILLEGAL } else { Cop2::BC2(s) }
        } else if 0x10 <= f && f <= 0x1F {
            let s = Special1::spec_translate(inst);
            if s == Special1::ILLEGAL { Cop2::ILLEGAL } else { Cop2::SPECIAL1(s) }
        } else {
            Cop2::ILLEGAL
        }
    }

    fn translate(inst: u32) -> Cop2 {
        match (inst >> 21) & 0x1F {
            0x01 => Cop2::QMFC2(inst),
            0x02 => Cop2::CFC2(inst),
            0x05 => Cop2::QMTC2(inst),
            0x06 => Cop2::CTC2(inst),
            0x08 => match Bc2::translate(inst) {
                Bc2::ILLEGAL => Cop2::ILLEGAL,
                i => Cop2::BC2(i),
            },
            0x10..=0x1F => match Special1::translate(inst) {
                Special1::ILLEGAL => Cop2::ILLEGAL,
                i => Cop2::SPECIAL1(i),
            },
            _ => Cop2::ILLEGAL,
        }
    }
}

impl Trans<Bc2> for Bc2 {
    /// Keyed on the rt field, bits 20:16.
    open spec fn spec_translate(inst: u32) -> Bc2 {
        let f = (inst >> 16) & 0x1F;
        if f == 0x00 {
            Bc2::BC2F(inst)
        } else {
            Bc2::ILLEGAL
        }
    }

    fn translate(inst: u32) -> Bc2 {
        match (inst >> 16) & 0x1F {
            0x00 => Bc2::BC2F(inst),
            _ => Bc2::ILLEGAL,
        }
    }
}

impl Trans<Special1> for Special1 {
    /// Keyed on the function field, bits 5:0.
    open spec fn spec_translate(inst: u32) -> Special1 {
        let f = inst & 0x3F;
        if f == 0x00 {
            Special1::VADDx(inst)
        } else if f == 0x01 {
            Special1::VADDy(inst)
        } else if f == 0x02 {
            Special1::VADDz(inst)
        } else if f == 0x03 {
            Special1::VADDw(inst)
        } else if f == 0x04 {
            Special1::VSUBx(inst)
        } else if f == 0x05 {
            Special1::VSUBy(inst)
        } else if f == 0x06 {
            Special1::VSUBz(inst)
        } else if f == 0x07 {
            Special1::VSUBw(inst)
        } else if f == 0x08 {
            Special1::VMADDx(inst)
        } else if f == 0x09 {
            Special1::VMADDy(inst)
        } else if f == 0x0A {
            Special1::VMADDz(inst)
        } else if f == 0x0B {
            Special1::VMADDw(inst)
        } else if f == 0x0C {
            Special1::VMSUBx(inst)
        } else if f == 0x0D {
            Special1::VMSUBy(inst)
        } else if f == 0x0E {
            Special1::VMSUBz(inst)
        } else if f == 0x0F {
            Special1::VMSUBw(inst)
        } else if f == 0x10 {
            Special1::VMAXx(inst)
        } else if f == 0x11 {
            Special1::VMAXy(inst)
        } else if f == 0x12 {
            Special1::VMAXz(inst)
        } else if f == 0x13 {
            Special1::VMAXw(inst)
        } else if f == 0x14 {
            Special1::VMINIx(inst)
        } else if f == 0x15 {
            Special1::VMINIy(inst)
        } else if f == 0x16 {
            Special1::VMINIz(inst)
        } else if f == 0x17 {
            Special1::VMINIw(inst)
        } else if f == 0x18 {
            Special1::VMULx(inst)
        } else if f == 0x19 {
            Special1::VMULy(inst)
        } else if f == 0x1A {
            Special1::VMULz(inst)
        } else if f == 0x1B {
            Special1::VMULw(inst)
        } else if f == 0x1C {
            Special1::VMULq(inst)
        } else if f == 0x1D {
            Special1::VMAXi(inst)
        } else if f == 0x1E {
            Special1::VMULi(inst)
        } else if f == 0x1F {
            Special1::VMINIi(inst)
        } else if f == 0x20 {
            Special1::VADDq(inst)
        } else if f == 0x21 {
            Special1::VMADDq(inst)
        } else if f == 0x22 {
            Special1::VADDi(inst)
        } else if f == 0x23 {
            Special1::VMADDi(inst)
        } else if f == 0x24 {
            Special1::VSUBq(inst)
        } else if f == 0x25 {
            Special1::VMSUBq(inst)
        } else if f == 0x26 {
            Special1::VSUbi(inst)
        } else if f == 0x27 {
            Special1::VMSUBi(inst)
        } else if f == 0x28 {
            Special1::VADD(inst)
        } else if f == 0x29 {
            Special1::VMADD(inst)
        } else if f == 0x2A {
            Special1::VMUL(inst)
        } else if f == 0x2B {
            Special1::VMAX(inst)
        } else if f == 0x2C {
            Special1::VSUB(inst)
        } else if f == 0x2D {
            Special1::VMSUB(inst)
        } else if f == 0x2E {
            Special1::VOPMSUB(inst)
        } else if f == 0x2F {
            Special1::VMINI(inst)
        } else if f == 0x30 {
            Special1::VIADD(inst)
        } else if f == 0x31 {
            Special1::VISUB(inst)
        } else if f == 0x32 {
            Special1::VIADDI(inst)
        } else if f == 0x34 {
            Special1::VIAND(inst)
        } else if f == 0x35 {
            Special1::VIOR(inst)
        } else if f == 0x38 {
            Special1::VCALLMS(inst)
        } else if f == 0x39 {
            Special1::CALLMSR(inst)
        } else if 0x3C <= f && f <= 0x3F {
            let s = Special2::spec_translate(inst);
            if s == Special2::ILLEGAL { Special1::ILLEGAL } else { Special1::SPECIAL2(s) }
        } else {
            Special1::ILLEGAL
        }
    }

    fn translate(inst: u32) -> Special1 {
        match inst & 0x3F {
            0x00 => Special1::VADDx(inst),
            0x01 => Special1::VADDy(inst),
            0x02 => Special1::VADDz(inst),
            0x03 => Special1::VADDw(inst),
            0x04 => Special1::VSUBx(inst),
            0x05 => Special1::VSUBy(inst),
            0x06 => Special1::VSUBz(inst),
            0x07 => Special1::VSUBw(inst),
            0x08 => Special1::VMADDx(inst),
            0x09 => Special1::VMADDy(inst),
            0x0A => Special1::VMADDz(inst),
            0x0B => Special1::VMADDw(inst),
            0x0C => Special1::VMSUBx(inst),
            0x0D => Special1::VMSUBy(inst),
            0x0E => Special1::VMSUBz(inst),
            0x0F => Special1::VMSUBw(inst),
            0x10 => Special1::VMAXx(inst),
            0x11 => Special1::VMAXy(inst),
            0x12 => Special1::VMAXz(inst),
            0x13 => Special1::VMAXw(inst),
            0x14 => Special1::VMINIx(inst),
            0x15 => Special1::VMINIy(inst),
            0x16 => Special1::VMINIz(inst),
            0x17 => Special1::VMINIw(inst),
            0x18 => Special1::VMULx(inst),
            0x19 => Special1::VMULy(inst),
            0x1A => Special1::VMULz(inst),
            0x1B => Special1::VMULw(inst),
            0x1C => Special1::VMULq(inst),
            0x1D => Special1::VMAXi(inst),
            0x1E => Special1::VMULi(inst),
            0x1F => Special1::VMINIi(inst),
            0x20 => Special1::VADDq(inst),
            0x21 => Special1::VMADDq(inst),
            0x22 => Special1::VADDi(inst),
            0x23 => Special1::VMADDi(inst),
            0x24 => Special1::VSUBq(inst),
            0x25 => Special1::VMSUBq(inst),
            0x26 => Special1::VSUbi(inst),
            0x27 => Special1::VMSUBi(inst),
            0x28 => Special1::VADD(inst),
            0x29 => Special1::VMADD(inst),
            0x2A => Special1::VMUL(inst),
            0x2B => Special1::VMAX(inst),
            0x2C => Special1::VSUB(inst),
            0x2D => Special1::VMSUB(inst),
            0x2E => Special1::VOPMSUB(inst),
            0x2F => Special1::VMINI(inst),
            0x30 => Special1::VIADD(inst),
            0x31 => Special1::VISUB(inst),
            0x32 => Special1::VIADDI(inst),
            0x34 => Special1::VIAND(inst),
            0x35 => Special1::VIOR(inst),
            0x38 => Special1::VCALLMS(inst),
            0x39 => Special1::CALLMSR(inst),
            0x3C..=0x3F => match Special2::translate(inst) {
                Special2::ILLEGAL => Special1::ILLEGAL,
                i => Special1::SPECIAL2(i),
            },
            _ => Special1::ILLEGAL,
        }
    }
}

impl Trans<Special2> for Special2 {
    /// Keyed on bits 10:0.
    open spec fn spec_translate(inst: u32) -> Special2 {
        let f = inst & 0x7FF;
        if f == 0x078 {
            Special2::VADDAx(inst)
        } else if f == 0x079 {
            Special2::VADDAy(inst)
        } else if f == 0x07A {
            Special2::VADDAz(inst)
        } else if f == 0x07B {
            Special2::VADDAw(inst)
        } else if f == 0x07C {
            Special2::VSUBAx(inst)
        } else if f == 0x07D {
            Special2::VSUBAy(inst)
        } else if f == 0x07E {
            Special2::VSUBAz(inst)
        } else if f == 0x07F {
            Special2::VSUBAw(inst)
        } else if f == 0x0F8 {
            Special2::VMADDAx(inst)
        } else if f == 0x0F9 {
            Special2::VMADDAy(inst)
        } else if f == 0x0FA {
            Special2::VMADDAz(inst)
        } else if f == 0x0FB {
            Special2::VMADDAw(inst)
        } else if f == 0x0FC {
            Special2::VMSUBAx(inst)
        } else if f == 0x0FD {
            Special2::VMSUBAy(inst)
        } else if f == 0x0FE {
            Special2::VMSUBAz(inst)
        } else if f == 0x0FF {
            Special2::VMSUBAw(inst)
        } else if f == 0x178 {
            Special2::VITOF0(inst)
        } else if f == 0x179 {
            Special2::VITOF4(inst)
        } else if f == 0x17A {
            Special2::VITOF12(inst)
        } else if f == 0x17B {
            Special2::VITOF15(inst)
        } else if f == 0x17C {
            Special2::VFTOI0(inst)
        } else if f == 0x17D {
            Special2::VFTOI4(inst)
        } else if f == 0x17E {
            Special2::VFTOI12(inst)
        } else if f == 0x17F {
            Special2::VFTOI15(inst)
        } else if f == 0x1F8 {
            Special2::VMULAx(inst)
        } else if f == 0x1F9 {
            Special2::VMULAy(inst)
        } else if f == 0x1FA {
            Special2::VMULAz(inst)
        } else if f == 0x1FB {
            Special2::VMULAw(inst)
        } else if f == 0x1FC {
            Special2::VMULAq(inst)
        } else if f == 0x1FD {
            Special2::VABS(inst)
        } else if f == 0x1FE {
            Special2::VMULAi(inst)
        } else if f == 0x1FF {
            Special2::VCLIPw(inst)
        } else if f == 0x278 {
            Special2::VADDAq(inst)
        } else if f == 0x279 {
            Special2::VMADDAq(inst)
        } else if f == 0x27A {
            Special2::VADDAi(inst)
        } else if f == 0x27B {
            Special2::VMADDAi(inst)
        } else if f == 0x27C {
            Special2::VSUBAq(inst)
        } else if f == 0x27D {
            Special2::VMSUBAq(inst)
        } else if f == 0x27E {
            Special2::VSUBAi(inst)
        } else if f == 0x27F {
            Special2::VMSUBAi(inst)
        } else if f == 0x2F8 {
            Special2::VADDA(inst)
        } else if f == 0x2F9 {
            Special2::VMADDA(inst)
        } else if f == 0x2FA {
            Special2::VMULA(inst)
        } else if f == 0x2FC {
            Special2::VSUBA(inst)
        } else if f == 0x2FD {
            Special2::VMSUBA(inst)
        } else if f == 0x2FE {
            Special2::VOPMULA(inst)
        } else if f == 0x2FF {
            Special2::VNOP(inst)
        } else if f == 0x378 {
            Special2::VMOVE(inst)
        } else if f == 0x379 {
            Special2::VMR32(inst)
        } else if f == 0x37C {
            Special2::VLQI(inst)
        } else if f == 0x37D {
            Special2::VSQI(inst)
        } else if f == 0x37E {
            Special2::VLQD(inst)
        } else if f == 0x37F {
            Special2::VSQD(inst)
        } else if f == 0x3F8 {
            Special2::VDIV(inst)
        } else if f == 0x3F9 {
            Special2::VSQRT(inst)
        } else if f == 0x3FA {
            Special2::VRSQRT(inst)
        } else if f == 0x3FB {
            Special2::VWAITQ(inst)
        } else if f == 0x3FC {
            Special2::VMTIR(inst)
        } else if f == 0x3FD {
            Special2::VMFIR(inst)
        } else if f == 0x3FE {
            Special2::VILWR(inst)
        } else if f == 0x3FF {
            Special2::VISWR(inst)
        } else if f == 0x478 {
            Special2::VRNEXT(inst)
        } else if f == 0x479 {
            Special2::VRGET(inst)
        } else if f == 0x47A {
            Special2::VRINIT(inst)
        } else if f == 0x47B {
            Special2::VRXOR(inst)
        } else {
            Special2::ILLEGAL
        }
    }

    fn translate(inst: u32) -> Special2 {
        match inst & 0x7FF {
            0x078 => Special2::VADDAx(inst),
            0x079 => Special2::VADDAy(inst),
            0x07A => Special2::VADDAz(inst),
            0x07B => Special2::VADDAw(inst),
            0x07C => Special2::VSUBAx(inst),
            0x07D => Special2::VSUBAy(inst),
            0x07E => Special2::VSUBAz(inst),
            0x07F => Special2::VSUBAw(inst),
            0x0F8 => Special2::VMADDAx(inst),
            0x0F9 => Special2::VMADDAy(inst),
            0x0FA => Special2::VMADDAz(inst),
            0x0FB => Special2::VMADDAw(inst),
            0x0FC => Special2::VMSUBAx(inst),
            0x0FD => Special2::VMSUBAy(inst),
            0x0FE => Special2::VMSUBAz(inst),
            0x0FF => Special2::VMSUBAw(inst),
            0x178 => Special2::VITOF0(inst),
            0x179 => Special2::VITOF4(inst),
            0x17A => Special2::VITOF12(inst),
            0x17B => Special2::VITOF15(inst),
            0x17C => Special2::VFTOI0(inst),
            0x17D => Special2::VFTOI4(inst),
            0x17E => Special2::VFTOI12(inst),
            0x17F => Special2::VFTOI15(inst),
            0x1F8 => Special2::VMULAx(inst),
            0x1F9 => Special2::VMULAy(inst),
            0x1FA => Special2::VMULAz(inst),
            0x1FB => Special2::VMULAw(inst),
            0x1FC => Special2::VMULAq(inst),
            0x1FD => Special2::VABS(inst),
            0x1FE => Special2::VMULAi(inst),
            0x1FF => Special2::VCLIPw(inst),
            0x278 => Special2::VADDAq(inst),
            0x279 => Special2::VMADDAq(inst),
            0x27A => Special2::VADDAi(inst),
            0x27B => Special2::VMADDAi(inst),
            0x27C => Special2::VSUBAq(inst),
            0x27D => Special2::VMSUBAq(inst),
            0x27E => Special2::VSUBAi(inst),
            0x27F => Special2::VMSUBAi(inst),
            0x2F8 => Special2::VADDA(inst),
            0x2F9 => Special2::VMADDA(inst),
            0x2FA => Special2::VMULA(inst),
            0x2FC => Special2::VSUBA(inst),
            0x2FD => Special2::VMSUBA(inst),
            0x2FE => Special2::VOPMULA(inst),
            0x2FF => Special2::VNOP(inst),
            0x378 => Special2::VMOVE(inst),
            0x379 => Special2::VMR32(inst),
            0x37C => Special2::VLQI(inst),
            0x37D => Special2::VSQI(inst),
            0x37E => Special2::VLQD(inst),
            0x37F => Special2::VSQD(inst),
            0x3F8 => Special2::VDIV(inst),
            0x3F9 => Special2::VSQRT(inst),
            0x3FA => Special2::VRSQRT(inst),
            0x3FB => Special2::VWAITQ(inst),
            0x3FC => Special2::VMTIR(inst),
            0x3FD => Special2::VMFIR(inst),
            0x3FE => Special2::VILWR(inst),
            0x3FF => Special2::VISWR(inst),
            0x478 => Special2::VRNEXT(inst),
            0x479 => Special2::VRGET(inst),
            0x47A => Special2::VRINIT(inst),
            0x47B => Special2::VRXOR(inst),
            _ => Special2::ILLEGAL,
        }
    }
}
} // verus!
