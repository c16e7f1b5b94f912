use vstd::prelude::*;

verus! {

/// Number of architectural registers.
pub const REAL_REGISTER_COUNT: u64 = 32;

/// Number of scratch registers reserved for virtual sequences.
pub const VIRTUAL_REGISTER_COUNT: u64 = 32;

/// Size of the register file: real registers followed by virtual ones.
pub const REGISTER_COUNT: u64 = 64;

/// The register-file index of virtual register `index`: virtual registers sit
/// right after the real ones.
pub fn virtual_register_index(index: u64) -> (r: u64)
    requires
        index < VIRTUAL_REGISTER_COUNT,
    ensures
        r == REAL_REGISTER_COUNT + index,
        REAL_REGISTER_COUNT <= r < REGISTER_COUNT,
{
    index + REAL_REGISTER_COUNT
}

/// Opcodes of the instruction set that the lookup core deals with.
#[allow(non_camel_case_types)]
#[derive(Clone, Copy, Debug, PartialEq, Eq, Structural)]
pub enum RV32IM {
    ADD,
    MULU,
    DIVU,
    VIRTUAL_ADVICE,
    VIRTUAL_ASSERT_EQ,
    VIRTUAL_ASSERT_LTE,
    VIRTUAL_ASSERT_VALID_DIV0,
    VIRTUAL_ASSERT_VALID_UNSIGNED_REMAINDER,
}

/// The operand widths supported: 32-bit and 64-bit words.
pub open spec fn valid_word_size(w: usize) -> bool {
    w == 32 || w == 64
}

/// `2^w` for a supported word size.
pub open spec fn word_modulus(w: usize) -> int {
    if w == 32 {
        0x1_0000_0000
    } else {
        0x1_0000_0000_0000_0000
    }
}

/// Whether `v` fits in a word of `w` bits.
pub open spec fn fits_word(v: int, w: usize) -> bool {
    0 <= v < word_modulus(w)
}

pub open spec fn flag(b: bool) -> int {
    if b {
        1
    } else {
        0
    }
}

/// The lookup value of `op` on operands `a`, `b` and advice `adv`.
pub open spec fn lookup_spec(op: RV32IM, a: int, b: int, adv: int, w: usize) -> int {
    match op {
        RV32IM::ADD => (a + b) % word_modulus(w),
        RV32IM::MULU => (a * b) % word_modulus(w),
        RV32IM::VIRTUAL_ADVICE => adv % word_modulus(w),
        RV32IM::VIRTUAL_ASSERT_EQ => flag(a == b),
        RV32IM::VIRTUAL_ASSERT_LTE => flag(a <= b),
        RV32IM::VIRTUAL_ASSERT_VALID_DIV0 => flag(a != 0 || b == word_modulus(w) - 1),
        RV32IM::VIRTUAL_ASSERT_VALID_UNSIGNED_REMAINDER => flag(b == 0 || a < b),
        RV32IM::DIVU => 0,
    }
}

impl RV32IM {
    pub open spec fn is_representable_spec(self) -> bool {
        !(self is DIVU)
    }

    /// Whether the opcode is answered by a single lookup; those that are not
    /// must be expanded into a virtual sequence first.
    pub fn is_representable(&self) -> (r: bool)
        ensures
            r == self.is_representable_spec(),
    {
        !matches!(self, RV32IM::DIVU)
    }

    pub open spec fn is_assertion_spec(self) -> bool {
        match self {
            RV32IM::VIRTUAL_ASSERT_EQ
            | RV32IM::VIRTUAL_ASSERT_LTE
            | RV32IM::VIRTUAL_ASSERT_VALID_DIV0
            | RV32IM::VIRTUAL_ASSERT_VALID_UNSIGNED_REMAINDER => true,
            _ => false,
        }
    }

    /// Whether the opcode is an assertion, whose lookup must be 1.
    pub fn is_assertion(&self) -> (r: bool)
        ensures
            r == self.is_assertion_spec(),
    {
        matches!(
            self,
            RV32IM::VIRTUAL_ASSERT_EQ | RV32IM::VIRTUAL_ASSERT_LTE
                | RV32IM::VIRTUAL_ASSERT_VALID_DIV0
                | RV32IM::VIRTUAL_ASSERT_VALID_UNSIGNED_REMAINDER
        )
    }
}

/// The value of `2^w - 1` (all bits of a word set) as a `u64`.
pub(crate) fn word_mask(word_size: usize) -> (r: u64)
    requires
        valid_word_size(word_size),
    ensures
        r == word_modulus(word_size) - 1,
{
    if word_size == 32 {
        0xffff_ffff
    } else {
        0xffff_ffff_ffff_ffff
    }
}

/// The lookup value of a representable opcode on operands `a`, `b` and
/// advice `advice`, for words of `word_size` bits.
pub fn lookup_entry(op: RV32IM, a: u64, b: u64, advice: u64, word_size: usize) -> (r: u64)
    requires
        op.is_representable_spec(),
        valid_word_size(word_size),
    ensures
        r == lookup_spec(op, a as int, b as int, advice as int, word_size),
{
    let modulus: u128 = word_mask(word_size) as u128 + 1;
    match op {
        RV32IM::ADD => ((a as u128 + b as u128) % modulus) as u64,
        RV32IM::MULU => {
            proof {
                vstd::arithmetic::mul::lemma_mul_upper_bound(
                    a as int,
                    u64::MAX as int,
                    b as int,
                    u64::MAX as int,
                );
                assert(0xffff_ffff_ffff_ffffu128 * 0xffff_ffff_ffff_ffffu128 <= u128::MAX);
            }
            ((a as u128 * b as u128) % modulus) as u64
        },
        RV32IM::VIRTUAL_ADVICE => ((advice as u128) % modulus) as u64,
        RV32IM::VIRTUAL_ASSERT_EQ => bool_to_u64(a == b),
        RV32IM::VIRTUAL_ASSERT_LTE => bool_to_u64(a <= b),
        RV32IM::VIRTUAL_ASSERT_VALID_DIV0 => bool_to_u64(a != 0 || b == word_mask(word_size)),
        RV32IM::VIRTUAL_ASSERT_VALID_UNSIGNED_REMAINDER => bool_to_u64(b == 0 || a < b),
        RV32IM::DIVU => 0,
    }
}

fn bool_to_u64(b: bool) -> (r: u64)
    ensures
        r == flag(b),
{
    if b {
        1
    } else {
        0
    }
}

/// A memory access made by one trace step.
#[derive(Clone, Copy, Debug, PartialEq, Eq, Structural)]
pub enum MemoryState {
    Read { address: u64, value: u64 },
    Write { address: u64, pre_value: u64, post_value: u64 },
}

/// The static part of one instruction of the program.
#[derive(Clone, Copy, Debug, PartialEq, Eq, Structural)]
pub struct ELFInstruction {
    pub address: u64,
    pub opcode: RV32IM,
    pub rs1: Option<u64>,
    pub rs2: Option<u64>,
    pub rd: Option<u64>,
    pub imm: Option<u32>,
    /// Position within a virtual sequence; `None` for an instruction that was
    /// not expanded.
    pub virtual_sequence_index: Option<usize>,
}

/// Register values read and written by one trace step.
#[derive(Clone, Copy, Debug, PartialEq, Eq, Structural)]
pub struct RegisterState {
    pub rs1_val: Option<u64>,
    pub rs2_val: Option<u64>,
    pub rd_post_val: Option<u64>,
}

/// One step of an execution trace.
#[derive(Clone, Copy, Debug, PartialEq, Eq, Structural)]
pub struct RVTraceRow {
    pub instruction: ELFInstruction,
    pub register_state: RegisterState,
    pub memory_state: Option<MemoryState>,
    /// A witness supplied by the prover, not derivable from the encoding.
    pub advice_value: Option<u64>,
}

pub open spec fn opt_or_zero(v: Option<u64>) -> int {
    match v {
        Some(x) => x as int,
        None => 0,
    }
}

/// The lookup value of a row, from the operand values it records.
pub open spec fn row_lookup_spec(row: RVTraceRow, w: usize) -> int {
    lookup_spec(
        row.instruction.opcode,
        opt_or_zero(row.register_state.rs1_val),
        opt_or_zero(row.register_state.rs2_val),
        opt_or_zero(row.advice_value),
        w,
    )
}

impl RVTraceRow {
    /// The lookup value of this row from the operand values it records, or
    /// `None` where its opcode is not answered by a single lookup.
    pub fn lookup_entry(&self, word_size: usize) -> (r: Option<u64>)
        requires
            valid_word_size(word_size),
        ensures
            r is None <==> !self.instruction.opcode.is_representable_spec(),
            r matches Some(v) ==> v == row_lookup_spec(*self, word_size),
    {
        if !self.instruction.opcode.is_representable() {
            return None;
        }
        let a = match self.register_state.rs1_val {
            Some(v) => v,
            None => 0,
        };
        let b = match self.register_state.rs2_val {
            Some(v) => v,
            None => 0,
        };
        let advice = match self.advice_value {
            Some(v) => v,
            None => 0,
        };
        Some(lookup_entry(self.instruction.opcode, a, b, advice, word_size))
    }
}

/// The value that register operand `r` reads from `regs`; an absent operand
/// reads zero.
pub open spec fn read_reg(regs: Seq<u64>, r: Option<u64>) -> int {
    match r {
        Some(i) => regs[i as int] as int,
        None => 0,
    }
}

/// The lookup value of `row` with its operands read from the register file.
pub open spec fn executed_lookup(regs: Seq<u64>, row: RVTraceRow, w: usize) -> int {
    lookup_spec(
        row.instruction.opcode,
        read_reg(regs, row.instruction.rs1),
        read_reg(regs, row.instruction.rs2),
        opt_or_zero(row.advice_value),
        w,
    )
}

/// The register file after executing `row`: its destination, if any, gets
/// the lookup value.
pub open spec fn execute_row(regs: Seq<u64>, row: RVTraceRow, w: usize) -> Seq<u64> {
    match row.instruction.rd {
        Some(d) => regs.update(d as int, executed_lookup(regs, row, w) as u64),
        None => regs,
    }
}

/// Whether executing `row` on `regs` agrees with what the row records: the
/// operand values it records are those in the registers, the value it
/// records for its destination is the lookup value, and a row without a
/// destination looks up 1.
pub open spec fn row_agrees(regs: Seq<u64>, row: RVTraceRow, w: usize) -> bool {
    let v = executed_lookup(regs, row, w);
    &&& row.register_state.rs1_val matches Some(a) ==> row.instruction.rs1 matches Some(i) && i
        < regs.len() && regs[i as int] == a
    &&& row.register_state.rs2_val matches Some(b) ==> row.instruction.rs2 matches Some(i) && i
        < regs.len() && regs[i as int] == b
    &&& row.instruction.rd matches Some(d) ==> d < regs.len() && row.register_state.rd_post_val
        == Some(v as u64)
    &&& row.instruction.rd is None ==> v == 1
}

/// The register file after executing the first `n` rows of `rows`.
pub open spec fn replay(regs: Seq<u64>, rows: Seq<RVTraceRow>, n: nat, w: usize) -> Seq<u64>
    decreases n,
{
    if n == 0 {
        regs
    } else {
        execute_row(replay(regs, rows, (n - 1) as nat, w), rows[n - 1], w)
    }
}

/// Whether every row of `rows`, executed in order from `regs`, agrees with
/// what it records.
pub open spec fn replay_agrees(regs: Seq<u64>, rows: Seq<RVTraceRow>, w: usize) -> bool {
    forall|k: nat| k < rows.len() ==> row_agrees(#[trigger] replay(regs, rows, k, w), rows[k as int], w)
}

} // verus!
