//! Lookup-argument core of a zero-knowledge virtual machine: subtables with
//! their multilinear extensions, instruction lookup semantics, the
//! virtual-sequence expansion of unsigned division, and the grand-product
//! check of lookup multisets.

pub mod divu;
pub mod eq_abs;
pub mod field;
pub mod grand_product;
pub mod instruction;
pub mod utils;

pub use divu::DIVUInstruction;
pub use eq_abs::EqAbsSubtable;
pub use field::Field;
pub use grand_product::{
    check_lookup_multiset, grand_product, lookup_multiplicities, multiset_grand_product,
};
pub use instruction::{
    lookup_entry, virtual_register_index, ELFInstruction, MemoryState, RVTraceRow, RegisterState,
    REAL_REGISTER_COUNT, REGISTER_COUNT, RV32IM, VIRTUAL_REGISTER_COUNT,
};
pub use utils::split_bits;
