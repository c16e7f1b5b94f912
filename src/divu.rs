use vstd::prelude::*;

use crate::instruction::{
    execute_row, fits_word, lookup_entry, replay, replay_agrees, row_agrees, row_lookup_spec,
    valid_word_size, virtual_register_index, word_mask, word_modulus, ELFInstruction, RV32IM,
    RVTraceRow, RegisterState, REAL_REGISTER_COUNT, REGISTER_COUNT,
};

verus! {

/// Unsigned division, expanded into a sequence of lookups over prover advice.
pub struct DIVUInstruction<const WORD_SIZE: usize>;

/// The quotient that an honest prover supplies: division by zero yields a
/// word with all bits set.
pub open spec fn honest_quotient(x: int, y: int, w: usize) -> int {
    if y == 0 {
        word_modulus(w) - 1
    } else {
        x / y
    }
}

/// The remainder that an honest prover supplies: division by zero leaves the
/// dividend.
pub open spec fn honest_remainder(x: int, y: int, w: usize) -> int {
    if y == 0 {
        x
    } else {
        x % y
    }
}

/// The scratch register that receives the sum `quotient * divisor + remainder`.
pub open spec fn v_sum() -> u64 {
    (REAL_REGISTER_COUNT + 0) as u64
}

/// The scratch register that holds the remainder.
pub open spec fn v_rem() -> u64 {
    (REAL_REGISTER_COUNT + 1) as u64
}

/// The scratch register that holds `quotient * divisor`.
pub open spec fn v_prod() -> u64 {
    (REAL_REGISTER_COUNT + 2) as u64
}

/// One row of a virtual sequence, which carries no immediate and no memory
/// access.
pub open spec fn virtual_row(
    address: u64,
    opcode: RV32IM,
    rs1: Option<u64>,
    rs2: Option<u64>,
    rd: Option<u64>,
    index: usize,
    rs1_val: Option<u64>,
    rs2_val: Option<u64>,
    rd_post_val: Option<u64>,
    advice_value: Option<u64>,
) -> RVTraceRow {
    RVTraceRow {
        instruction: ELFInstruction {
            address,
            opcode,
            rs1,
            rs2,
            rd,
            imm: None,
            virtual_sequence_index: Some(index),
        },
        register_state: RegisterState { rs1_val, rs2_val, rd_post_val },
        memory_state: None,
        advice_value,
    }
}

/// The expansion of the division `row` with advice quotient `q` and remainder
/// `rem`: two advice rows, the product `q * y`, the remainder check, the check
/// `q * y <= x`, the division-by-zero check, the sum `q * y + rem` and the
/// check that the sum is `x`.
pub open spec fn divu_rows(row: RVTraceRow, q: u64, rem: u64, w: usize) -> Seq<RVTraceRow> {
    let x = row.register_state.rs1_val.unwrap();
    let y = row.register_state.rs2_val.unwrap();
    let r_x = row.instruction.rs1;
    let r_y = row.instruction.rs2;
    let rd = row.instruction.rd;
    let a = row.instruction.address;
    let qy = ((q * y) % word_modulus(w)) as u64;
    let sum = ((qy + rem) % word_modulus(w)) as u64;
    seq![
        virtual_row(a, RV32IM::VIRTUAL_ADVICE, None, None, rd, 0, None, None, Some(q), Some(q)),
        virtual_row(a, RV32IM::VIRTUAL_ADVICE, None, None, Some(v_rem()), 1, None, None, Some(rem), Some(rem)),
        virtual_row(a, RV32IM::MULU, rd, r_y, Some(v_prod()), 2, Some(q), Some(y), Some(qy), None),
        virtual_row(
            a,
            RV32IM::VIRTUAL_ASSERT_VALID_UNSIGNED_REMAINDER,
            Some(v_rem()),
            r_y,
            None,
            3,
            Some(rem),
            Some(y),
            None,
            None,
        ),
        virtual_row(a, RV32IM::VIRTUAL_ASSERT_LTE, Some(v_prod()), r_x, None, 4, Some(qy), Some(x), None, None),
        virtual_row(a, RV32IM::VIRTUAL_ASSERT_VALID_DIV0, r_y, rd, None, 5, Some(y), Some(q), None, None),
        virtual_row(a, RV32IM::ADD, Some(v_prod()), Some(v_rem()), Some(v_sum()), 6, Some(qy), Some(rem), Some(sum), None),
        virtual_row(a, RV32IM::VIRTUAL_ASSERT_EQ, Some(v_sum()), r_x, None, 7, Some(sum), Some(x), None, None),
    ]
}

/// The operand conditions of an expandable division row.
pub open spec fn divu_row_ok(row: RVTraceRow, w: usize) -> bool {
    &&& row.instruction.opcode == RV32IM::DIVU
    &&& row.register_state.rs1_val is Some
    &&& row.register_state.rs2_val is Some
    &&& fits_word(row.register_state.rs1_val.unwrap() as int, w)
    &&& fits_word(row.register_state.rs2_val.unwrap() as int, w)
}

fn make_row(
    address: u64,
    opcode: RV32IM,
    rs1: Option<u64>,
    rs2: Option<u64>,
    rd: Option<u64>,
    index: usize,
    rs1_val: Option<u64>,
    rs2_val: Option<u64>,
    rd_post_val: Option<u64>,
    advice_value: Option<u64>,
) -> (r: RVTraceRow)
    ensures
        r == virtual_row(
            address,
            opcode,
            rs1,
            rs2,
            rd,
            index,
            rs1_val,
            rs2_val,
            rd_post_val,
            advice_value,
        ),
{
    RVTraceRow {
        instruction: ELFInstruction {
            address,
            opcode,
            rs1,
            rs2,
            rd,
            imm: None,
            virtual_sequence_index: Some(index),
        },
        register_state: RegisterState { rs1_val, rs2_val, rd_post_val },
        memory_state: None,
        advice_value,
    }
}

impl<const WORD_SIZE: usize> DIVUInstruction<WORD_SIZE> {
    /// Expands the division `trace_row` into primitive lookups, with the
    /// honestly computed quotient and remainder as advice.
    pub fn virtual_sequence(trace_row: RVTraceRow) -> (r: Vec<RVTraceRow>)
        requires
            valid_word_size(WORD_SIZE),
            divu_row_ok(trace_row, WORD_SIZE),
        ensures
            r@ == divu_rows(
                trace_row,
                honest_quotient(
                    trace_row.register_state.rs1_val.unwrap() as int,
                    trace_row.register_state.rs2_val.unwrap() as int,
                    WORD_SIZE,
                ) as u64,
                honest_remainder(
                    trace_row.register_state.rs1_val.unwrap() as int,
                    trace_row.register_state.rs2_val.unwrap() as int,
                    WORD_SIZE,
                ) as u64,
                WORD_SIZE,
            ),
            forall|i: int|
                0 <= i < r@.len() && (#[trigger] r@[i]).instruction.opcode.is_assertion_spec()
                    ==> row_lookup_spec(r@[i], WORD_SIZE) == 1,
    {
        let x = trace_row.register_state.rs1_val.unwrap();
        let y = trace_row.register_state.rs2_val.unwrap();
        let quotient: u64;
        let remainder: u64;
        if y == 0 {
            quotient = word_mask(WORD_SIZE);
            remainder = x;
        } else {
            quotient = x / y;
            proof {
                vstd::arithmetic::div_mod::lemma_fundamental_div_mod(x as int, y as int);
                vstd::arithmetic::div_mod::lemma_mod_bound(x as int, y as int);
                vstd::arithmetic::div_mod::lemma_div_pos_is_pos(x as int, y as int);
                vstd::arithmetic::div_mod::lemma_div_is_ordered_by_denominator(x as int, 1, y as int);
                vstd::arithmetic::mul::lemma_mul_is_commutative(quotient as int, y as int);
                assert(quotient * y + x % y == x);
            }
            remainder = x - quotient * y;
        }
        let rows = Self::virtual_sequence_with_advice(trace_row, quotient, remainder);
        proof {
            let w = WORD_SIZE;
            let m = word_modulus(w);
            let qy = (quotient * y) % m;
            if y == 0 {
                assert(qy == 0);
                vstd::arithmetic::div_mod::lemma_small_mod(x as nat, m as nat);
            } else {
                vstd::arithmetic::div_mod::lemma_small_mod((quotient * y) as nat, m as nat);
                vstd::arithmetic::div_mod::lemma_small_mod(x as nat, m as nat);
                vstd::arithmetic::div_mod::lemma_mod_bound(x as int, y as int);
            }
            assert(qy + remainder == x);
            assert forall|i: int|
                0 <= i < rows@.len() && (#[trigger] rows@[i]).instruction.opcode.is_assertion_spec()
                    implies row_lookup_spec(rows@[i], w) == 1 by {
                assert(i == 3 || i == 4 || i == 5 || i == 7);
                if y != 0 {
                    assert(remainder < y);
                }
            }
        }
        rows
    }

    /// Expands the division `trace_row` with the given advice quotient and
    /// remainder, which nothing here checks: the assertion rows carry the
    /// constraints on them.
    pub fn virtual_sequence_with_advice(
        trace_row: RVTraceRow,
        quotient: u64,
        remainder: u64,
    ) -> (r: Vec<RVTraceRow>)
        requires
            valid_word_size(WORD_SIZE),
            divu_row_ok(trace_row, WORD_SIZE),
            fits_word(quotient as int, WORD_SIZE),
            fits_word(remainder as int, WORD_SIZE),
        ensures
            r@ == divu_rows(trace_row, quotient, remainder, WORD_SIZE),
    {
        let x = trace_row.register_state.rs1_val.unwrap();
        let y = trace_row.register_state.rs2_val.unwrap();
        let r_x = trace_row.instruction.rs1;
        let r_y = trace_row.instruction.rs2;
        let rd = trace_row.instruction.rd;
        let address = trace_row.instruction.address;
        let v_0 = Some(virtual_register_index(0));
        let v_r = Some(virtual_register_index(1));
        let v_qy = Some(virtual_register_index(2));

        let q = lookup_entry(RV32IM::VIRTUAL_ADVICE, 0, 0, quotient, WORD_SIZE);
        let r = lookup_entry(RV32IM::VIRTUAL_ADVICE, 0, 0, remainder, WORD_SIZE);
        let q_y = lookup_entry(RV32IM::MULU, q, y, 0, WORD_SIZE);
        let add_0 = lookup_entry(RV32IM::ADD, q_y, r, 0, WORD_SIZE);
        proof {
            vstd::arithmetic::div_mod::lemma_small_mod(quotient as nat, word_modulus(WORD_SIZE) as nat);
            vstd::arithmetic::div_mod::lemma_small_mod(remainder as nat, word_modulus(WORD_SIZE) as nat);
        }

        let mut rows: Vec<RVTraceRow> = Vec::new();
        rows.push(make_row(address, RV32IM::VIRTUAL_ADVICE, None, None, rd, 0, None, None, Some(q), Some(quotient)));
        rows.push(make_row(address, RV32IM::VIRTUAL_ADVICE, None, None, v_r, 1, None, None, Some(r), Some(remainder)));
        rows.push(make_row(address, RV32IM::MULU, rd, r_y, v_qy, 2, Some(q), Some(y), Some(q_y), None));
        rows.push(
            make_row(
                address,
                RV32IM::VIRTUAL_ASSERT_VALID_UNSIGNED_REMAINDER,
                v_r,
                r_y,
                None,
                3,
                Some(r),
                Some(y),
                None,
                None,
            ),
        );
        rows.push(make_row(address, RV32IM::VIRTUAL_ASSERT_LTE, v_qy, r_x, None, 4, Some(q_y), Some(x), None, None));
        rows.push(make_row(address, RV32IM::VIRTUAL_ASSERT_VALID_DIV0, r_y, rd, None, 5, Some(y), Some(q), None, None));
        rows.push(make_row(address, RV32IM::ADD, v_qy, v_r, v_0, 6, Some(q_y), Some(r), Some(add_0), None));
        rows.push(make_row(address, RV32IM::VIRTUAL_ASSERT_EQ, v_0, r_x, None, 7, Some(add_0), Some(x), None, None));
        proof {
            assert(rows@ =~= divu_rows(trace_row, quotient, remainder, WORD_SIZE));
        }
        rows
    }
}

/// Replaying the expansion of a division against a register file that holds
/// its operands leaves every real register but the destination unchanged,
/// writes the quotient to the destination, and every row agrees with what it
/// records. The destination must differ from both source registers.
pub proof fn lemma_divu_register_hygiene(row: RVTraceRow, regs: Seq<u64>, w: usize)
    requires
        valid_word_size(w),
        divu_row_ok(row, w),
        row.instruction.rs1 is Some,
        row.instruction.rs2 is Some,
        row.instruction.rd is Some,
        row.instruction.rs1.unwrap() < REAL_REGISTER_COUNT,
        row.instruction.rs2.unwrap() < REAL_REGISTER_COUNT,
        row.instruction.rd.unwrap() < REAL_REGISTER_COUNT,
        row.instruction.rd != row.instruction.rs1,
        row.instruction.rd != row.instruction.rs2,
        regs.len() == REGISTER_COUNT,
        regs[row.instruction.rs1.unwrap() as int] == row.register_state.rs1_val.unwrap(),
        regs[row.instruction.rs2.unwrap() as int] == row.register_state.rs2_val.unwrap(),
    ensures
        ({
            let x = row.register_state.rs1_val.unwrap() as int;
            let y = row.register_state.rs2_val.unwrap() as int;
            let rows = divu_rows(
                row,
                honest_quotient(x, y, w) as u64,
                honest_remainder(x, y, w) as u64,
                w,
            );
            let out = replay(regs, rows, rows.len(), w);
            &&& replay_agrees(regs, rows, w)
            &&& out.len() == regs.len()
            &&& forall|j: int|
                0 <= j < REAL_REGISTER_COUNT && j != row.instruction.rd.unwrap() ==> out[j] == regs[j]
            &&& out[row.instruction.rd.unwrap() as int] == honest_quotient(x, y, w)
        }),
{
    let x = row.register_state.rs1_val.unwrap();
    let y = row.register_state.rs2_val.unwrap();
    let m = word_modulus(w);
    let q = honest_quotient(x as int, y as int, w) as u64;
    let rem = honest_remainder(x as int, y as int, w) as u64;
    let rows = divu_rows(row, q, rem, w);
    let d = row.instruction.rd.unwrap();
    let a = row.instruction.rs1.unwrap();
    let b = row.instruction.rs2.unwrap();
    if y == 0 {
        vstd::arithmetic::div_mod::lemma_small_mod(x as nat, m as nat);
        vstd::arithmetic::div_mod::lemma_small_mod((m - 1) as nat, m as nat);
    } else {
        vstd::arithmetic::div_mod::lemma_fundamental_div_mod(x as int, y as int);
        vstd::arithmetic::div_mod::lemma_mod_bound(x as int, y as int);
        vstd::arithmetic::div_mod::lemma_div_pos_is_pos(x as int, y as int);
        vstd::arithmetic::div_mod::lemma_div_is_ordered_by_denominator(x as int, 1, y as int);
        vstd::arithmetic::mul::lemma_mul_is_commutative(q as int, y as int);
        vstd::arithmetic::div_mod::lemma_small_mod(q as nat, m as nat);
        vstd::arithmetic::div_mod::lemma_small_mod(rem as nat, m as nat);
        vstd::arithmetic::div_mod::lemma_small_mod((q * y) as nat, m as nat);
        vstd::arithmetic::div_mod::lemma_small_mod(x as nat, m as nat);
    }
    let qy = ((q * y) % m) as u64;
    assert(qy + rem == x);
    let s0 = regs;
    let s1 = execute_row(s0, rows[0], w);
    let s2 = execute_row(s1, rows[1], w);
    let s3 = execute_row(s2, rows[2], w);
    let s4 = execute_row(s3, rows[3], w);
    let s5 = execute_row(s4, rows[4], w);
    let s6 = execute_row(s5, rows[5], w);
    let s7 = execute_row(s6, rows[6], w);
    let s8 = execute_row(s7, rows[7], w);
    assert(replay(regs, rows, 0, w) == s0);
    assert(replay(regs, rows, 1, w) == s1);
    assert(replay(regs, rows, 2, w) == s2);
    assert(replay(regs, rows, 3, w) == s3);
    assert(replay(regs, rows, 4, w) == s4);
    assert(replay(regs, rows, 5, w) == s5);
    assert(replay(regs, rows, 6, w) == s6);
    assert(replay(regs, rows, 7, w) == s7);
    assert(replay(regs, rows, 8, w) == s8);
    assert(s1 == regs.update(d as int, q));
    assert(s2 == s1.update(v_rem() as int, rem));
    assert(s3 == s2.update(v_prod() as int, qy));
    assert(s6 == s3);
    assert(s7 == s3.update(v_sum() as int, x));
    assert(row_agrees(s0, rows[0], w));
    assert(row_agrees(s1, rows[1], w));
    assert(row_agrees(s2, rows[2], w));
    assert(row_agrees(s3, rows[3], w)) by {
        if y != 0 {
            assert(rem < y);
        }
    }
    assert(row_agrees(s4, rows[4], w));
    assert(row_agrees(s5, rows[5], w));
    assert(row_agrees(s6, rows[6], w));
    assert(row_agrees(s7, rows[7], w));
    assert forall|k: nat| k < rows.len() implies row_agrees(#[trigger] replay(regs, rows, k, w), rows[k as int], w) by {
        assert(k < 8);
    }
}

/// Advice that passes every assertion row of the expansion is the quotient
/// and remainder of the division, provided the advice quotient times the
/// divisor does not wrap around the word.
pub proof fn lemma_divu_assertions_sound(row: RVTraceRow, q: u64, rem: u64, w: usize)
    requires
        valid_word_size(w),
        divu_row_ok(row, w),
        fits_word(q as int, w),
        fits_word(rem as int, w),
        q * row.register_state.rs2_val.unwrap() < word_modulus(w),
        forall|i: int|
            0 <= i < 8 && (#[trigger] divu_rows(row, q, rem, w)[i]).instruction.opcode.is_assertion_spec()
                ==> row_lookup_spec(divu_rows(row, q, rem, w)[i], w) == 1,
    ensures
        q == honest_quotient(
            row.register_state.rs1_val.unwrap() as int,
            row.register_state.rs2_val.unwrap() as int,
            w,
        ),
        rem == honest_remainder(
            row.register_state.rs1_val.unwrap() as int,
            row.register_state.rs2_val.unwrap() as int,
            w,
        ),
{
    let x = row.register_state.rs1_val.unwrap() as int;
    let y = row.register_state.rs2_val.unwrap() as int;
    let m = word_modulus(w);
    let rows = divu_rows(row, q, rem, w);
    assert(rows[3].instruction.opcode.is_assertion_spec());
    assert(rows[4].instruction.opcode.is_assertion_spec());
    assert(rows[5].instruction.opcode.is_assertion_spec());
    assert(rows[7].instruction.opcode.is_assertion_spec());
    assert(row_lookup_spec(rows[3], w) == 1);
    assert(row_lookup_spec(rows[4], w) == 1);
    assert(row_lookup_spec(rows[5], w) == 1);
    assert(row_lookup_spec(rows[7], w) == 1);
    vstd::arithmetic::div_mod::lemma_small_mod((q * y) as nat, m as nat);
    let qy = q * y;
    assert(qy <= x);
    let s = qy + rem;
    if s >= m {
        vstd::arithmetic::div_mod::lemma_mod_sub_multiples_vanish(s, m);
        vstd::arithmetic::div_mod::lemma_small_mod((s - m) as nat, m as nat);
    } else {
        vstd::arithmetic::div_mod::lemma_small_mod(s as nat, m as nat);
    }
    assert(s == x);
    if y != 0 {
        assert(rem < y);
        vstd::arithmetic::mul::lemma_mul_is_commutative(q as int, y);
        vstd::arithmetic::div_mod::lemma_fundamental_div_mod_converse(x, y, q as int, rem as int);
    }
}

} // verus!
