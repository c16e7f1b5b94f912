use jolt_lookups::{
    lookup_entry, virtual_register_index, ELFInstruction, RVTraceRow, RegisterState,
    REAL_REGISTER_COUNT, REGISTER_COUNT, RV32IM, VIRTUAL_REGISTER_COUNT,
};

#[test]
fn register_layout() {
    assert_eq!(REAL_REGISTER_COUNT + VIRTUAL_REGISTER_COUNT, REGISTER_COUNT);
    assert_eq!(virtual_register_index(0), 32);
    assert_eq!(virtual_register_index(31), 63);
}

#[test]
fn arithmetic_lookups_wrap_at_word_size() {
    assert_eq!(lookup_entry(RV32IM::ADD, 0xffff_ffff, 2, 0, 32), 1);
    assert_eq!(lookup_entry(RV32IM::ADD, 0xffff_ffff, 2, 0, 64), 0x1_0000_0001);
    assert_eq!(lookup_entry(RV32IM::ADD, u64::MAX, 2, 0, 64), 1);
    assert_eq!(lookup_entry(RV32IM::MULU, 0x1_0000, 0x1_0001, 0, 32), 0x1_0000);
    assert_eq!(lookup_entry(RV32IM::MULU, 6, 7, 0, 32), 42);
    assert_eq!(lookup_entry(RV32IM::MULU, u64::MAX, u64::MAX, 0, 64), 1);
    assert_eq!(lookup_entry(RV32IM::VIRTUAL_ADVICE, 0, 0, 0x1_2345_6789, 32), 0x2345_6789);
    assert_eq!(lookup_entry(RV32IM::VIRTUAL_ADVICE, 0, 0, 0x1_2345_6789, 64), 0x1_2345_6789);
}

#[test]
fn assertion_lookups() {
    assert_eq!(lookup_entry(RV32IM::VIRTUAL_ASSERT_EQ, 5, 5, 0, 32), 1);
    assert_eq!(lookup_entry(RV32IM::VIRTUAL_ASSERT_EQ, 5, 6, 0, 32), 0);
    assert_eq!(lookup_entry(RV32IM::VIRTUAL_ASSERT_LTE, 5, 5, 0, 32), 1);
    assert_eq!(lookup_entry(RV32IM::VIRTUAL_ASSERT_LTE, 6, 5, 0, 32), 0);
    assert_eq!(lookup_entry(RV32IM::VIRTUAL_ASSERT_VALID_UNSIGNED_REMAINDER, 4, 5, 0, 32), 1);
    assert_eq!(lookup_entry(RV32IM::VIRTUAL_ASSERT_VALID_UNSIGNED_REMAINDER, 5, 5, 0, 32), 0);
    assert_eq!(lookup_entry(RV32IM::VIRTUAL_ASSERT_VALID_UNSIGNED_REMAINDER, 9, 0, 0, 32), 1);
    assert_eq!(lookup_entry(RV32IM::VIRTUAL_ASSERT_VALID_DIV0, 3, 0, 0, 32), 1);
    assert_eq!(lookup_entry(RV32IM::VIRTUAL_ASSERT_VALID_DIV0, 0, 0xffff_ffff, 0, 32), 1);
    assert_eq!(lookup_entry(RV32IM::VIRTUAL_ASSERT_VALID_DIV0, 0, 5, 0, 32), 0);
    assert_eq!(lookup_entry(RV32IM::VIRTUAL_ASSERT_VALID_DIV0, 0, 0xffff_ffff, 0, 64), 0);
    assert_eq!(lookup_entry(RV32IM::VIRTUAL_ASSERT_VALID_DIV0, 0, u64::MAX, 0, 64), 1);
}

#[test]
fn opcode_classes() {
    assert!(!RV32IM::DIVU.is_representable());
    assert!(RV32IM::ADD.is_representable());
    assert!(RV32IM::VIRTUAL_ASSERT_LTE.is_assertion());
    assert!(!RV32IM::MULU.is_assertion());
    assert!(!RV32IM::VIRTUAL_ADVICE.is_assertion());
}

#[test]
fn row_lookup_reads_recorded_operands() {
    let mut row = RVTraceRow {
        instruction: ELFInstruction {
            address: 4,
            opcode: RV32IM::ADD,
            rs1: Some(1),
            rs2: Some(2),
            rd: Some(3),
            imm: None,
            virtual_sequence_index: None,
        },
        register_state: RegisterState {
            rs1_val: Some(20),
            rs2_val: Some(22),
            rd_post_val: Some(42),
        },
        memory_state: None,
        advice_value: None,
    };
    assert_eq!(row.lookup_entry(32), Some(42));
    row.instruction.opcode = RV32IM::DIVU;
    assert_eq!(row.lookup_entry(32), None);
    row.instruction.opcode = RV32IM::VIRTUAL_ADVICE;
    row.advice_value = Some(9);
    assert_eq!(row.lookup_entry(32), Some(9));
}
