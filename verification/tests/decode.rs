use eetran::cpu::{Bc1, CfClass, Cop0, Cop1, Fpus, Fpuw, Mmi, Mmi0, Regimm, Special, Special1, Special2, Tlb, EE};
use eetran::trans::Trans;

// A word of all zeroes is SPECIAL with function 0x00: a shift by zero, the
// canonical no-op, and sequential.
#[test]
fn decode_zero_word() {
    let d = EE::translate(0);
    assert!(matches!(d, EE::SPECIAL(Special::SLL(0))));
    assert_eq!(d.classification(), CfClass::Sequential);
    assert!(!d.is_terminator());
}

#[test]
fn decode_primary_leaves() {
    assert!(matches!(EE::translate(0x02 << 26), EE::J(_)));
    assert!(matches!(EE::translate(0x03 << 26), EE::JAL(_)));
    assert!(matches!(EE::translate(0x04 << 26), EE::BEQ(_)));
    assert!(matches!(EE::translate(0x05 << 26), EE::BNE(_)));
    assert!(matches!(EE::translate(0x08 << 26), EE::ADDI(_)));
    assert!(matches!(EE::translate(0x0F << 26), EE::LUI(_)));
    assert!(matches!(EE::translate(0x23 << 26), EE::LW(_)));
    assert!(matches!(EE::translate(0x3F << 26), EE::SD(_)));
}

#[test]
fn decode_special_functions() {
    assert!(matches!(EE::translate(0x08), EE::SPECIAL(Special::JR(_))));
    assert!(matches!(EE::translate(0x09), EE::SPECIAL(Special::JALR(_))));
    assert!(matches!(EE::translate(0x0C), EE::SPECIAL(Special::SYSCALL(_))));
    assert!(matches!(EE::translate(0x20), EE::SPECIAL(Special::ADD(_))));
    assert!(matches!(EE::translate(0x2A), EE::SPECIAL(Special::SLT(_))));
}

#[test]
fn decode_regimm() {
    let w = (0x01 << 26) | (0x00 << 16);
    assert!(matches!(EE::translate(w), EE::REGIMM(Regimm::BLTZ(_))));
    let w = (0x01 << 26) | (0x01 << 16);
    assert!(matches!(EE::translate(w), EE::REGIMM(Regimm::BGEZ(_))));
    let w = (0x01 << 26) | (0x13 << 16);
    assert!(matches!(EE::translate(w), EE::REGIMM(Regimm::BGEZALL(_))));
}

#[test]
fn decode_coprocessor_groups() {
    let w = (0x10 << 26) | (0x00 << 21);
    assert!(matches!(EE::translate(w), EE::COP0(Cop0::MFC0(_))));
    let w = (0x11 << 26) | (0x08 << 21) | (0x01 << 16);
    assert!(matches!(EE::translate(w), EE::COP1(Cop1::BC1(Bc1::BC1T(_)))));
    assert_eq!(EE::translate(w).classification(), CfClass::ConditionalBranch);
    let w = (0x11 << 26) | (0x08 << 21) | (0x02 << 16);
    assert!(matches!(EE::translate(w), EE::COP1(Cop1::BC1(Bc1::BC1FL(_)))));
    assert_eq!(
        EE::translate(w).classification(),
        CfClass::ConditionalBranchLikely
    );
}

#[test]
fn decode_multimedia() {
    let w = (0x1C << 26) | 0x00;
    assert!(matches!(EE::translate(w), EE::MMI(Mmi::MADD(_))));
    let w = (0x1C << 26) | (0x00 << 6) | 0x08;
    assert!(matches!(EE::translate(w), EE::MMI(Mmi::MMI0(Mmi0::PADDW(_)))));
}

#[test]
fn decode_vector_macro_tables() {
    // COP2 with rs in the macro range and function 0x00 is VADDx
    let w = (0x12 << 26) | (0x10 << 21) | 0x00;
    assert!(matches!(
        EE::translate(w),
        EE::COP2(eetran::cpu::Cop2::SPECIAL1(Special1::VADDx(_)))
    ));
    // functions 0x3C to 0x3F delegate further; bits 10:0 pick the entry
    let w = (0x12 << 26) | (0x10 << 21) | 0x3FC;
    assert!(matches!(
        EE::translate(w),
        EE::COP2(eetran::cpu::Cop2::SPECIAL1(Special1::SPECIAL2(
            Special2::VMTIR(_)
        )))
    ));
    // the second table itself is total over its own key
    assert!(matches!(Special2::translate(0x078), Special2::VADDAx(_)));
    assert!(matches!(Special2::translate(0x077), Special2::ILLEGAL));
}

// Decode is total: unknown field combinations at every table level produce
// ILLEGAL, never an unrelated opcode.
#[test]
fn decode_unknown_is_illegal() {
    // unknown primary opcode
    assert!(matches!(EE::translate(0x13 << 26), EE::ILLEGAL));
    assert!(matches!(EE::translate(0x35 << 26), EE::ILLEGAL));
    // SPECIAL function absent from the table
    assert!(matches!(EE::translate(0x01), EE::ILLEGAL));
    assert!(matches!(EE::translate(0x35), EE::ILLEGAL));
    // REGIMM rt absent
    assert!(matches!(EE::translate((0x01 << 26) | (0x04 << 16)), EE::ILLEGAL));
    // COP0 rs absent
    assert!(matches!(EE::translate((0x10 << 26) | (0x01 << 21)), EE::ILLEGAL));
    // multimedia sub-table value absent
    let w = (0x1C << 26) | (0x0B << 6) | 0x08;
    assert!(matches!(EE::translate(w), EE::ILLEGAL));
    // vector macro function absent
    let w = (0x12 << 26) | (0x10 << 21) | 0x33;
    assert!(matches!(EE::translate(w), EE::ILLEGAL));
}

// Every 32-bit pattern decodes to exactly one variant without failing: a
// spread of arbitrary words, none of which may panic.
#[test]
fn decode_is_total_on_a_spread() {
    let mut w: u64 = 0;
    while w <= u32::MAX as u64 {
        let _ = EE::translate(w as u32);
        w += 65537;
    }
    let _ = EE::translate(u32::MAX);
}

#[test]
fn decode_tlb_and_fpu() {
    let w = (0x10 << 26) | (0x10 << 21) | 0x18;
    assert!(matches!(EE::translate(w), EE::COP0(Cop0::TLB(Tlb::ERET(_)))));
    assert_eq!(EE::translate(w).classification(), CfClass::Sequential);
    let w = (0x11 << 26) | (0x10 << 21) | 0x00;
    assert!(matches!(EE::translate(w), EE::COP1(Cop1::FPUS(Fpus::ADD_S(_)))));
    let w = (0x11 << 26) | (0x14 << 21) | 0x20;
    assert!(matches!(EE::translate(w), EE::COP1(Cop1::FPUW(Fpuw::CVT_S(_)))));
    // word-format functions other than the one conversion are illegal
    let w = (0x11 << 26) | (0x14 << 21) | 0x21;
    assert!(matches!(EE::translate(w), EE::ILLEGAL));
}

#[test]
fn classification_of_terminators() {
    assert_eq!(
        EE::translate(0x02 << 26).classification(),
        CfClass::UnconditionalJump
    );
    assert_eq!(EE::translate(0x03 << 26).classification(), CfClass::CallLink);
    assert_eq!(
        EE::translate(0x08).classification(),
        CfClass::UnconditionalJumpRegister
    );
    assert_eq!(
        EE::translate(0x09).classification(),
        CfClass::UnconditionalJumpRegister
    );
    assert_eq!(EE::translate(0x0C).classification(), CfClass::Trap);
    assert_eq!(
        EE::translate(0x04 << 26).classification(),
        CfClass::ConditionalBranch
    );
    assert_eq!(
        EE::translate(0x14 << 26).classification(),
        CfClass::ConditionalBranchLikely
    );
    assert_eq!(EE::translate(0x13 << 26).classification(), CfClass::Illegal);
    // an illegal word does not end a block
    assert!(!EE::translate(0x13 << 26).is_terminator());
    // a conditional trap falls through sequentially
    assert_eq!(EE::translate(0x30).classification(), CfClass::Sequential);
}
