use ark_std::rand::RngCore;
use ark_std::test_rng;
use jolt_lookups::{
    DIVUInstruction, ELFInstruction, RVTraceRow, RegisterState, REGISTER_COUNT, RV32IM,
};

fn divu_row(r_x: u64, r_y: u64, rd: u64, x: u64, y: u64, result: u64) -> RVTraceRow {
    RVTraceRow {
        instruction: ELFInstruction {
            address: 0x8000_0000,
            opcode: RV32IM::DIVU,
            rs1: Some(r_x),
            rs2: Some(r_y),
            rd: Some(rd),
            imm: None,
            virtual_sequence_index: None,
        },
        register_state: RegisterState {
            rs1_val: Some(x),
            rs2_val: Some(y),
            rd_post_val: Some(result),
        },
        memory_state: None,
        advice_value: None,
    }
}

/// Replays `rows` on a register file holding `x` in `r_x` and `y` in `r_y`,
/// checking each row against the values it records, and returns the file.
fn replay(rows: &[RVTraceRow], word_size: usize, r_x: u64, x: u64, r_y: u64, y: u64) -> Vec<u64> {
    let mut registers = vec![0u64; REGISTER_COUNT as usize];
    registers[r_x as usize] = x;
    registers[r_y as usize] = y;
    for row in rows {
        if let Some(rs1_val) = row.register_state.rs1_val {
            assert_eq!(registers[row.instruction.rs1.unwrap() as usize], rs1_val);
        }
        if let Some(rs2_val) = row.register_state.rs2_val {
            assert_eq!(registers[row.instruction.rs2.unwrap() as usize], rs2_val);
        }
        let output = row.lookup_entry(word_size).unwrap();
        if let Some(rd) = row.instruction.rd {
            registers[rd as usize] = output;
            assert_eq!(registers[rd as usize], row.register_state.rd_post_val.unwrap());
        } else {
            assert!(output == 1)
        }
    }
    registers
}

#[test]
fn divu_virtual_sequence_32() {
    let mut rng = test_rng();

    let r_x = rng.next_u64() % 32;
    let r_y = rng.next_u64() % 32;
    let rd = rng.next_u64() % 32;

    let x = rng.next_u32() as u64;
    let y = if r_y == r_x { x } else { rng.next_u32() as u64 };
    let result = x / y;

    let divu_trace_row = RVTraceRow {
        instruction: ELFInstruction {
            address: rng.next_u64(),
            opcode: RV32IM::DIVU,
            rs1: Some(r_x),
            rs2: Some(r_y),
            rd: Some(rd),
            imm: None,
            virtual_sequence_index: None,
        },
        register_state: RegisterState {
            rs1_val: Some(x),
            rs2_val: Some(y),
            rd_post_val: Some(result as u64),
        },
        memory_state: None,
        advice_value: None,
    };

    let virtual_sequence = DIVUInstruction::<32>::virtual_sequence(divu_trace_row);
    let mut registers = vec![0u64; REGISTER_COUNT as usize];
    registers[r_x as usize] = x;
    registers[r_y as usize] = y;

    for row in virtual_sequence {
        if let Some(rs1_val) = row.register_state.rs1_val {
            assert_eq!(registers[row.instruction.rs1.unwrap() as usize], rs1_val);
        }
        if let Some(rs2_val) = row.register_state.rs2_val {
            assert_eq!(registers[row.instruction.rs2.unwrap() as usize], rs2_val);
        }

        let output = row.lookup_entry(32).unwrap();
        if let Some(rd) = row.instruction.rd {
            registers[rd as usize] = output;
            assert_eq!(
                registers[rd as usize],
                row.register_state.rd_post_val.unwrap()
            );
        } else {
            assert!(output == 1)
        }
    }

    for (index, val) in registers.iter().enumerate() {
        if index as u64 == r_x {
            // Check that r_x hasn't been clobbered
            assert_eq!(*val, x);
        } else if index as u64 == r_y {
            // Check that r_y hasn't been clobbered
            assert_eq!(*val, y);
        } else if index as u64 == rd {
            // Check that result was written to rd
            assert_eq!(*val, result as u64);
        } else if index < 32 {
            // None of the other "real" registers were touched
            assert_eq!(*val, 0);
        }
    }
}

#[test]
fn divu_sequence_shape() {
    let rows = DIVUInstruction::<32>::virtual_sequence(divu_row(5, 6, 7, 100, 7, 14));
    let opcodes: Vec<RV32IM> = rows.iter().map(|r| r.instruction.opcode).collect();
    assert_eq!(
        opcodes,
        vec![
            RV32IM::VIRTUAL_ADVICE,
            RV32IM::VIRTUAL_ADVICE,
            RV32IM::MULU,
            RV32IM::VIRTUAL_ASSERT_VALID_UNSIGNED_REMAINDER,
            RV32IM::VIRTUAL_ASSERT_LTE,
            RV32IM::VIRTUAL_ASSERT_VALID_DIV0,
            RV32IM::ADD,
            RV32IM::VIRTUAL_ASSERT_EQ,
        ]
    );
    for (i, row) in rows.iter().enumerate() {
        assert_eq!(row.instruction.virtual_sequence_index, Some(i));
        assert_eq!(row.instruction.address, 0x8000_0000);
    }
    assert_eq!(rows[0].advice_value, Some(14));
    assert_eq!(rows[0].instruction.rd, Some(7));
    assert_eq!(rows[1].advice_value, Some(2));
    assert_eq!(rows[1].instruction.rd, Some(33));
    assert_eq!(rows[2].register_state.rd_post_val, Some(98));
    assert_eq!(rows[2].instruction.rd, Some(34));
    assert_eq!(rows[6].register_state.rd_post_val, Some(100));
    assert_eq!(rows[6].instruction.rd, Some(32));
}

#[test]
fn divu_register_hygiene_random() {
    let mut rng = test_rng();
    for _ in 0..200 {
        let r_x = rng.next_u64() % 32;
        let r_y = rng.next_u64() % 32;
        let mut rd = rng.next_u64() % 32;
        while rd == r_x || rd == r_y {
            rd = (rd + 1) % 32;
        }
        let x = rng.next_u32() as u64;
        let mut y = if r_y == r_x { x } else { rng.next_u32() as u64 >> (rng.next_u32() % 32) };
        if y == 0 {
            y = 1;
        }
        let x = if r_y == r_x { y } else { x };
        let rows = DIVUInstruction::<32>::virtual_sequence(divu_row(r_x, r_y, rd, x, y, x / y));
        let registers = replay(&rows, 32, r_x, x, r_y, y);
        for index in 0..32u64 {
            let expected = if index == rd {
                x / y
            } else if index == r_x {
                x
            } else if index == r_y {
                y
            } else {
                0
            };
            assert_eq!(registers[index as usize], expected);
        }
    }
}

#[test]
fn divu_assertions_hold_when_divisor_equals_dividend() {
    let rows = DIVUInstruction::<32>::virtual_sequence(divu_row(3, 3, 9, 12345, 12345, 1));
    assert_eq!(rows[0].advice_value, Some(1));
    assert_eq!(rows[1].advice_value, Some(0));
    for row in &rows {
        if row.instruction.opcode.is_assertion() {
            assert_eq!(row.lookup_entry(32), Some(1));
        }
    }
    let registers = replay(&rows, 32, 3, 12345, 3, 12345);
    assert_eq!(registers[9], 1);
}

#[test]
fn divu_assertions_hold_for_zero_dividend() {
    let rows = DIVUInstruction::<32>::virtual_sequence(divu_row(1, 2, 3, 0, 77, 0));
    assert_eq!(rows[0].advice_value, Some(0));
    assert_eq!(rows[1].advice_value, Some(0));
    for row in &rows {
        if row.instruction.opcode.is_assertion() {
            assert_eq!(row.lookup_entry(32), Some(1));
        }
    }
    let registers = replay(&rows, 32, 1, 0, 2, 77);
    assert_eq!(registers[3], 0);
}

#[test]
fn divu_by_zero_yields_all_ones() {
    let rows = DIVUInstruction::<32>::virtual_sequence(divu_row(1, 2, 3, 41, 0, 0xffff_ffff));
    assert_eq!(rows[0].advice_value, Some(0xffff_ffff));
    assert_eq!(rows[1].advice_value, Some(41));
    let registers = replay(&rows, 32, 1, 41, 2, 0);
    assert_eq!(registers[3], 0xffff_ffff);
}

#[test]
fn divu_64_bit_words() {
    let x = 0xffff_ffff_ffff_fff0u64;
    let y = 0x1_0000_0001u64;
    let rows = DIVUInstruction::<64>::virtual_sequence(divu_row(10, 11, 12, x, y, x / y));
    let registers = replay(&rows, 64, 10, x, 11, y);
    assert_eq!(registers[12], x / y);
    assert_eq!(rows[1].advice_value, Some(x % y));
}

#[test]
fn divu_wrong_advice_fails_an_assertion() {
    let row = divu_row(1, 2, 3, 100, 7, 14);
    let honest = DIVUInstruction::<32>::virtual_sequence_with_advice(row, 14, 2);
    assert!(honest
        .iter()
        .filter(|r| r.instruction.opcode.is_assertion())
        .all(|r| r.lookup_entry(32) == Some(1)));
    for (q, r) in [(13u64, 9u64), (15, 0), (14, 3), (0, 100)] {
        let rows = DIVUInstruction::<32>::virtual_sequence_with_advice(row, q, r);
        assert!(rows
            .iter()
            .filter(|r| r.instruction.opcode.is_assertion())
            .any(|r| r.lookup_entry(32) == Some(0)));
    }
}
