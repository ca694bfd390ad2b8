//! Operand fields of a 16-bit opcode and the addresses computed from them.
//!
//! Branch displacements are two's-complement fields counted in words from the
//! pipeline-adjusted program counter (the instruction's address plus 4).
//! Every computed address is taken modulo 2^32.

use vstd::prelude::*;

verus! {

/// The register number in bits 8 to 11.
pub open spec fn reg_n(op: u32) -> nat {
    ((op >> 8) & 0xf) as nat
}

/// The register number in bits 4 to 7.
pub open spec fn reg_m(op: u32) -> nat {
    ((op >> 4) & 0xf) as nat
}

/// The low four bits: a displacement counted in operand units.
pub open spec fn disp4(op: u32) -> nat {
    (op & 0xf) as nat
}

/// The low eight bits, unsigned: an immediate or a displacement.
pub open spec fn imm8(op: u32) -> nat {
    (op & 0xff) as nat
}

/// The low twelve bits, unsigned.
pub open spec fn imm12(op: u32) -> nat {
    (op & 0xfff) as nat
}

/// The low eight bits read as a two's-complement number.
pub open spec fn signed8(op: u32) -> int {
    if imm8(op) >= 0x80 {
        imm8(op) - 0x100
    } else {
        imm8(op) as int
    }
}

/// The low twelve bits read as a two's-complement number.
pub open spec fn signed12(op: u32) -> int {
    if imm12(op) >= 0x800 {
        imm12(op) - 0x1000
    } else {
        imm12(op) as int
    }
}

/// `x` reduced to a 32-bit address.
pub open spec fn wrap32(x: int) -> u32 {
    (x % 0x1_0000_0000) as u32
}

/// Where a branch at `vaddr` with a displacement of `disp` words lands.
pub open spec fn branch_target(vaddr: u32, disp: int) -> u32 {
    wrap32(vaddr + 4 + 2 * disp)
}

/// The address that a PC-relative word load at `vaddr` reads.
pub open spec fn word_load_target(vaddr: u32, op: u32) -> u32 {
    wrap32(imm8(op) * 2 + 4 + vaddr)
}

/// The address that a PC-relative long load at `vaddr` names before it is
/// aligned.
pub open spec fn long_load_base(vaddr: u32, op: u32) -> u32 {
    wrap32(imm8(op) * 4 + 4 + vaddr)
}

/// The address that a PC-relative long load at `vaddr` reads: the named
/// address aligned down to a multiple of four.
pub open spec fn long_load_target(vaddr: u32, op: u32) -> u32 {
    long_load_base(vaddr, op) & 0xffff_fffc
}

/// The offset that a PC-relative long load shows when its operand is printed
/// as a number. Where the named address is two above a multiple of four the
/// offset is two less than the scaled displacement plus four.
pub open spec fn long_load_offset(vaddr: u32, op: u32) -> nat {
    if long_load_base(vaddr, op) & 3 == 2 {
        imm8(op) * 4 + 2
    } else {
        imm8(op) * 4 + 4
    }
}

/// Reads the register number in bits 8 to 11.
pub fn field_n(op: u32) -> (r: u32)
    ensures
        r == reg_n(op),
        r < 16,
{
    assert(((op >> 8) & 0xf) < 16) by (bit_vector);
    (op >> 8) & 0xf
}

/// Reads the register number in bits 4 to 7.
pub fn field_m(op: u32) -> (r: u32)
    ensures
        r == reg_m(op),
        r < 16,
{
    assert(((op >> 4) & 0xf) < 16) by (bit_vector);
    (op >> 4) & 0xf
}

/// Reads the low four bits.
pub fn field_disp4(op: u32) -> (r: u32)
    ensures
        r == disp4(op),
        r < 16,
{
    assert((op & 0xf) < 16) by (bit_vector);
    op & 0xf
}

/// Reads the low eight bits.
pub fn field_imm8(op: u32) -> (r: u32)
    ensures
        r == imm8(op),
        r < 0x100,
{
    assert((op & 0xff) < 0x100) by (bit_vector);
    op & 0xff
}

/// Reads the low twelve bits.
pub fn field_imm12(op: u32) -> (r: u32)
    ensures
        r == imm12(op),
        r < 0x1000,
{
    assert((op & 0xfff) < 0x1000) by (bit_vector);
    op & 0xfff
}

/// The target of a branch with an 8-bit displacement. A field with its sign
/// bit set is extended by adding `0xffffff00` before it is doubled.
pub fn short_branch_target(v_addr: u32, op: u32) -> (addr: u32)
    ensures
        addr == branch_target(v_addr, signed8(op)),
{
    let field: u32 = field_imm8(op);
    assert(((op & 0x80) == 0x80) <==> (op & 0xff) >= 0x80) by (bit_vector);
    if (op & 0x80) == 0x80 {
        (field + 0xffff_ff00).wrapping_mul(2).wrapping_add(v_addr).wrapping_add(4)
    } else {
        field.wrapping_mul(2).wrapping_add(v_addr).wrapping_add(4)
    }
}

/// The target of a branch with a 12-bit displacement. A field with its sign
/// bit set is extended by adding `0xfffff000` before it is doubled.
pub fn long_branch_target(v_addr: u32, op: u32) -> (addr: u32)
    ensures
        addr == branch_target(v_addr, signed12(op)),
{
    let field: u32 = field_imm12(op);
    assert(((op & 0x800) == 0x800) <==> (op & 0xfff) >= 0x800) by (bit_vector);
    if (op & 0x800) == 0x800 {
        (field + 0xffff_f000).wrapping_mul(2).wrapping_add(v_addr).wrapping_add(4)
    } else {
        field.wrapping_mul(2).wrapping_add(v_addr).wrapping_add(4)
    }
}

/// The address read by a PC-relative word load.
pub fn pc_word_target(v_addr: u32, op: u32) -> (addr: u32)
    ensures
        addr == word_load_target(v_addr, op),
{
    let field: u32 = field_imm8(op);
    (field * 2 + 4).wrapping_add(v_addr)
}

/// The unaligned address named by a PC-relative long load.
pub fn pc_long_base(v_addr: u32, op: u32) -> (addr: u32)
    ensures
        addr == long_load_base(v_addr, op),
{
    let field: u32 = field_imm8(op);
    (field * 4 + 4).wrapping_add(v_addr)
}

/// The aligned address read by a PC-relative long load.
pub fn pc_long_target(v_addr: u32, op: u32) -> (addr: u32)
    ensures
        addr == long_load_target(v_addr, op),
        addr % 4 == 0,
{
    let base: u32 = pc_long_base(v_addr, op);
    assert((base & 0xffff_fffc) % 4 == 0) by (bit_vector);
    base & 0xffff_fffc
}

/// The offset shown by a PC-relative long load without a label.
pub fn pc_long_offset(v_addr: u32, op: u32) -> (offset: u32)
    ensures
        offset == long_load_offset(v_addr, op),
{
    let field: u32 = field_imm8(op);
    let base: u32 = pc_long_base(v_addr, op);
    if (base & 3) == 2 {
        field * 4 + 2
    } else {
        field * 4 + 4
    }
}

/// Sign extension by bias agrees with two's complement: adding `0xffffff00`
/// to an 8-bit field whose sign bit is set, or `0xfffff000` to such a 12-bit
/// field, then doubling and adding the address and 4, all modulo 2^32, gives
/// the address that lies the negative displacement away.
pub proof fn lemma_bias_is_sign_extension(vaddr: u32, op: u32)
    ensures
        imm8(op) >= 0x80 ==> wrap32((imm8(op) + 0xffff_ff00) * 2 + vaddr + 4) == branch_target(
            vaddr,
            imm8(op) - 0x100,
        ),
        imm12(op) >= 0x800 ==> wrap32((imm12(op) + 0xffff_f000) * 2 + vaddr + 4) == branch_target(
            vaddr,
            imm12(op) - 0x1000,
        ),
        imm8(op) < 0x80 ==> signed8(op) == imm8(op),
        imm12(op) < 0x800 ==> signed12(op) == imm12(op),
{
}

} // verus!
