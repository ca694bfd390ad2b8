//! The mnemonic tables of the decoder, one per mask level.
//!
//! Each table maps an opcode, masked to the bits that its level looks at, to
//! the fixed text of a mnemonic: the pieces between which the operands are
//! printed. An opcode that a table does not list belongs to a later level.

use vstd::prelude::*;

verus! {

/// Instructions without operands, by the whole opcode.
pub open spec fn plain_form(key: u32) -> Option<Seq<char>> {
    if key == 0x0008 {
        Some("clrt"@)
    } else if key == 0x0028 {
        Some("clrmac"@)
    } else if key == 0x0019 {
        Some("div0u"@)
    } else if key == 0x0009 {
        Some("nop"@)
    } else if key == 0x002b {
        Some("rte"@)
    } else if key == 0x000b {
        Some("rts"@)
    } else if key == 0x0018 {
        Some("sett"@)
    } else if key == 0x001b {
        Some("sleep"@)
    } else {
        None
    }
}

/// Looks an opcode up among the instructions without operands.
pub fn plain_entry(key: u32) -> (entry: Option<&'static str>)
    ensures
        match entry {
            Some(text) => plain_form(key) == Some(text@),
            None => plain_form(key).is_none(),
        },
{
    match key {
        0x0008 => Some("clrt"),
        0x0028 => Some("clrmac"),
        0x0019 => Some("div0u"),
        0x0009 => Some("nop"),
        0x002b => Some("rte"),
        0x000b => Some("rts"),
        0x0018 => Some("sett"),
        0x001b => Some("sleep"),
        _ => None,
    }
}

/// Instructions with one register, by the opcode without bits 8 to 11: the
/// text before and after the register number.
pub open spec fn one_reg_form(key: u32) -> Option<(Seq<char>, Seq<char>)> {
    if key == 0x4015 {
        Some(("cmp/pl r"@, ""@))
    } else if key == 0x4011 {
        Some(("cmp/pz r"@, ""@))
    } else if key == 0x4010 {
        Some(("dt r"@, ""@))
    } else if key == 0x0029 {
        Some(("movt r"@, ""@))
    } else if key == 0x4004 {
        Some(("rotl r"@, ""@))
    } else if key == 0x4005 {
        Some(("rotr r"@, ""@))
    } else if key == 0x4024 {
        Some(("rotcl r"@, ""@))
    } else if key == 0x4025 {
        Some(("rotcr r"@, ""@))
    } else if key == 0x4020 {
        Some(("shal r"@, ""@))
    } else if key == 0x4021 {
        Some(("shar r"@, ""@))
    } else if key == 0x4000 {
        Some(("shll r"@, ""@))
    } else if key == 0x4001 {
        Some(("shlr r"@, ""@))
    } else if key == 0x4008 {
        Some(("shll2 r"@, ""@))
    } else if key == 0x4009 {
        Some(("shlr2 r"@, ""@))
    } else if key == 0x4018 {
        Some(("shll8 r"@, ""@))
    } else if key == 0x4019 {
        Some(("shlr8 r"@, ""@))
    } else if key == 0x4028 {
        Some(("shll16 r"@, ""@))
    } else if key == 0x4029 {
        Some(("shlr16 r"@, ""@))
    } else if key == 0x0002 {
        Some(("stc sr, r"@, ""@))
    } else if key == 0x0012 {
        Some(("stc gbr, r"@, ""@))
    } else if key == 0x0022 {
        Some(("stc vbr, r"@, ""@))
    } else if key == 0x000a {
        Some(("sts mach, r"@, ""@))
    } else if key == 0x001a {
        Some(("sts macl, r"@, ""@))
    } else if key == 0x402a {
        Some(("sts pr, r"@, ""@))
    } else if key == 0x401b {
        Some(("tas.b r"@, ""@))
    } else if key == 0x4003 {
        Some(("stc.l sr, @-r"@, ""@))
    } else if key == 0x4013 {
        Some(("stc.l gbr, @-r"@, ""@))
    } else if key == 0x4023 {
        Some(("stc.l vbr, @-r"@, ""@))
    } else if key == 0x4002 {
        Some(("sts.l mach, @-r"@, ""@))
    } else if key == 0x4012 {
        Some(("sts.l macl, @-r"@, ""@))
    } else if key == 0x4022 {
        Some(("sts.l pr, @-r"@, ""@))
    } else if key == 0x400e {
        Some(("ldc r"@, ", sr"@))
    } else if key == 0x401e {
        Some(("ldc r"@, ", gbr"@))
    } else if key == 0x402e {
        Some(("ldc r"@, ", vbr"@))
    } else if key == 0x400a {
        Some(("lds r"@, ", mach"@))
    } else if key == 0x401a {
        Some(("lds r"@, ", macl"@))
    } else if key == 0x402b {
        Some(("jmp @r"@, ""@))
    } else if key == 0x400b {
        Some(("jsr @r"@, ""@))
    } else if key == 0x4007 {
        Some(("ldc.l @r"@, "+, sr"@))
    } else if key == 0x4017 {
        Some(("ldc.l @r"@, "+, gbr"@))
    } else if key == 0x4027 {
        Some(("ldc.l @r"@, "+, vbr"@))
    } else if key == 0x4006 {
        Some(("lds.l @r"@, "+, mach"@))
    } else if key == 0x4016 {
        Some(("lds.l @r"@, "+, macl"@))
    } else if key == 0x4026 {
        Some(("lds.l @r"@, "+, pr"@))
    } else if key == 0x0023 {
        Some(("braf r"@, ""@))
    } else if key == 0x0003 {
        Some(("bsrf r"@, ""@))
    } else {
        None
    }
}

/// Looks a masked opcode up among the instructions with one register.
pub fn one_reg_entry(key: u32) -> (entry: Option<(&'static str, &'static str)>)
    ensures
        match entry {
            Some(e) => one_reg_form(key) == Some((e.0@, e.1@)),
            None => one_reg_form(key).is_none(),
        },
{
    match key {
        0x4015 => Some(("cmp/pl r", "")),
        0x4011 => Some(("cmp/pz r", "")),
        0x4010 => Some(("dt r", "")),
        0x0029 => Some(("movt r", "")),
        0x4004 => Some(("rotl r", "")),
        0x4005 => Some(("rotr r", "")),
        0x4024 => Some(("rotcl r", "")),
        0x4025 => Some(("rotcr r", "")),
        0x4020 => Some(("shal r", "")),
        0x4021 => Some(("shar r", "")),
        0x4000 => Some(("shll r", "")),
        0x4001 => Some(("shlr r", "")),
        0x4008 => Some(("shll2 r", "")),
        0x4009 => Some(("shlr2 r", "")),
        0x4018 => Some(("shll8 r", "")),
        0x4019 => Some(("shlr8 r", "")),
        0x4028 => Some(("shll16 r", "")),
        0x4029 => Some(("shlr16 r", "")),
        0x0002 => Some(("stc sr, r", "")),
        0x0012 => Some(("stc gbr, r", "")),
        0x0022 => Some(("stc vbr, r", "")),
        0x000a => Some(("sts mach, r", "")),
        0x001a => Some(("sts macl, r", "")),
        0x402a => Some(("sts pr, r", "")),
        0x401b => Some(("tas.b r", "")),
        0x4003 => Some(("stc.l sr, @-r", "")),
        0x4013 => Some(("stc.l gbr, @-r", "")),
        0x4023 => Some(("stc.l vbr, @-r", "")),
        0x4002 => Some(("sts.l mach, @-r", "")),
        0x4012 => Some(("sts.l macl, @-r", "")),
        0x4022 => Some(("sts.l pr, @-r", "")),
        0x400e => Some(("ldc r", ", sr")),
        0x401e => Some(("ldc r", ", gbr")),
        0x402e => Some(("ldc r", ", vbr")),
        0x400a => Some(("lds r", ", mach")),
        0x401a => Some(("lds r", ", macl")),
        0x402b => Some(("jmp @r", "")),
        0x400b => Some(("jsr @r", "")),
        0x4007 => Some(("ldc.l @r", "+, sr")),
        0x4017 => Some(("ldc.l @r", "+, gbr")),
        0x4027 => Some(("ldc.l @r", "+, vbr")),
        0x4006 => Some(("lds.l @r", "+, mach")),
        0x4016 => Some(("lds.l @r", "+, macl")),
        0x4026 => Some(("lds.l @r", "+, pr")),
        0x0023 => Some(("braf r", "")),
        0x0003 => Some(("bsrf r", "")),
        _ => None,
    }
}

/// Instructions with two registers, by the opcode without bits 4 to 11: the
/// text before the source register number, between the two numbers, and after
/// the destination register number.
pub open spec fn two_reg_form(key: u32) -> Option<(Seq<char>, Seq<char>, Seq<char>)> {
    if key == 0x300c {
        Some(("add r"@, ", r"@, ""@))
    } else if key == 0x300e {
        Some(("addc r"@, ", r"@, ""@))
    } else if key == 0x300f {
        Some(("addv r"@, ", r"@, ""@))
    } else if key == 0x2009 {
        Some(("and r"@, ", r"@, ""@))
    } else if key == 0x3000 {
        Some(("cmp/eq r"@, ", r"@, ""@))
    } else if key == 0x3002 {
        Some(("cmp/hs r"@, ", r"@, ""@))
    } else if key == 0x3003 {
        Some(("cmp/ge r"@, ", r"@, ""@))
    } else if key == 0x3006 {
        Some(("cmp/hi r"@, ", r"@, ""@))
    } else if key == 0x3007 {
        Some(("cmp/gt r"@, ", r"@, ""@))
    } else if key == 0x200c {
        Some(("cmp/str r"@, ", r"@, ""@))
    } else if key == 0x3004 {
        Some(("div1 r"@, ", r"@, ""@))
    } else if key == 0x2007 {
        Some(("div0s r"@, ", r"@, ""@))
    } else if key == 0x300d {
        Some(("dmuls.l r"@, ", r"@, ""@))
    } else if key == 0x3005 {
        Some(("dmulu.l r"@, ", r"@, ""@))
    } else if key == 0x600e {
        Some(("exts.b r"@, ", r"@, ""@))
    } else if key == 0x600f {
        Some(("exts.w r"@, ", r"@, ""@))
    } else if key == 0x600c {
        Some(("extu.b r"@, ", r"@, ""@))
    } else if key == 0x600d {
        Some(("extu.w r"@, ", r"@, ""@))
    } else if key == 0x6003 {
        Some(("mov r"@, ", r"@, ""@))
    } else if key == 0x0007 {
        Some(("mul.l r"@, ", r"@, ""@))
    } else if key == 0x200f {
        Some(("muls r"@, ", r"@, ""@))
    } else if key == 0x200e {
        Some(("mulu r"@, ", r"@, ""@))
    } else if key == 0x600b {
        Some(("neg r"@, ", r"@, ""@))
    } else if key == 0x600a {
        Some(("negc r"@, ", r"@, ""@))
    } else if key == 0x6007 {
        Some(("not r"@, ", r"@, ""@))
    } else if key == 0x200b {
        Some(("or r"@, ", r"@, ""@))
    } else if key == 0x3008 {
        Some(("sub r"@, ", r"@, ""@))
    } else if key == 0x300a {
        Some(("subc r"@, ", r"@, ""@))
    } else if key == 0x300b {
        Some(("subv r"@, ", r"@, ""@))
    } else if key == 0x6008 {
        Some(("swap.b r"@, ", r"@, ""@))
    } else if key == 0x6009 {
        Some(("swap.w r"@, ", r"@, ""@))
    } else if key == 0x2008 {
        Some(("tst r"@, ", r"@, ""@))
    } else if key == 0x200a {
        Some(("xor r"@, ", r"@, ""@))
    } else if key == 0x200d {
        Some(("xtrct r"@, ", r"@, ""@))
    } else if key == 0x2000 {
        Some(("mov.b r"@, ", @r"@, ""@))
    } else if key == 0x2001 {
        Some(("mov.w r"@, ", @r"@, ""@))
    } else if key == 0x2002 {
        Some(("mov.l r"@, ", @r"@, ""@))
    } else if key == 0x6000 {
        Some(("mov.b @r"@, ", r"@, ""@))
    } else if key == 0x6001 {
        Some(("mov.w @r"@, ", r"@, ""@))
    } else if key == 0x6002 {
        Some(("mov.l @r"@, ", r"@, ""@))
    } else if key == 0x000f {
        Some(("mac.l @r"@, "+, @r"@, "+"@))
    } else if key == 0x400f {
        Some(("mac.w @r"@, "+, @r"@, "+"@))
    } else if key == 0x6004 {
        Some(("mov.b @r"@, "+, r"@, ""@))
    } else if key == 0x6005 {
        Some(("mov.w @r"@, "+, r"@, ""@))
    } else if key == 0x6006 {
        Some(("mov.l @r"@, "+, r"@, ""@))
    } else if key == 0x2004 {
        Some(("mov.b r"@, ", @-r"@, ""@))
    } else if key == 0x2005 {
        Some(("mov.w r"@, ", @-r"@, ""@))
    } else if key == 0x2006 {
        Some(("mov.l r"@, ", @-r"@, ""@))
    } else if key == 0x0004 {
        Some(("mov.b r"@, ", @(r0, r"@, ")"@))
    } else if key == 0x0005 {
        Some(("mov.w r"@, ", @(r0, r"@, ")"@))
    } else if key == 0x0006 {
        Some(("mov.l r"@, ", @(r0, r"@, ")"@))
    } else if key == 0x000c {
        Some(("mov.b @(r0, r"@, "), r"@, ""@))
    } else if key == 0x000d {
        Some(("mov.w @(r0, r"@, "), r"@, ""@))
    } else if key == 0x000e {
        Some(("mov.l @(r0, r"@, "), r"@, ""@))
    } else {
        None
    }
}

/// Looks a masked opcode up among the instructions with two registers.
pub fn two_reg_entry(key: u32) -> (entry: Option<(&'static str, &'static str, &'static str)>)
    ensures
        match entry {
            Some(e) => two_reg_form(key) == Some((e.0@, e.1@, e.2@)),
            None => two_reg_form(key).is_none(),
        },
{
    match key {
        0x300c => Some(("add r", ", r", "")),
        0x300e => Some(("addc r", ", r", "")),
        0x300f => Some(("addv r", ", r", "")),
        0x2009 => Some(("and r", ", r", "")),
        0x3000 => Some(("cmp/eq r", ", r", "")),
        0x3002 => Some(("cmp/hs r", ", r", "")),
        0x3003 => Some(("cmp/ge r", ", r", "")),
        0x3006 => Some(("cmp/hi r", ", r", "")),
        0x3007 => Some(("cmp/gt r", ", r", "")),
        0x200c => Some(("cmp/str r", ", r", "")),
        0x3004 => Some(("div1 r", ", r", "")),
        0x2007 => Some(("div0s r", ", r", "")),
        0x300d => Some(("dmuls.l r", ", r", "")),
        0x3005 => Some(("dmulu.l r", ", r", "")),
        0x600e => Some(("exts.b r", ", r", "")),
        0x600f => Some(("exts.w r", ", r", "")),
        0x600c => Some(("extu.b r", ", r", "")),
        0x600d => Some(("extu.w r", ", r", "")),
        0x6003 => Some(("mov r", ", r", "")),
        0x0007 => Some(("mul.l r", ", r", "")),
        0x200f => Some(("muls r", ", r", "")),
        0x200e => Some(("mulu r", ", r", "")),
        0x600b => Some(("neg r", ", r", "")),
        0x600a => Some(("negc r", ", r", "")),
        0x6007 => Some(("not r", ", r", "")),
        0x200b => Some(("or r", ", r", "")),
        0x3008 => Some(("sub r", ", r", "")),
        0x300a => Some(("subc r", ", r", "")),
        0x300b => Some(("subv r", ", r", "")),
        0x6008 => Some(("swap.b r", ", r", "")),
        0x6009 => Some(("swap.w r", ", r", "")),
        0x2008 => Some(("tst r", ", r", "")),
        0x200a => Some(("xor r", ", r", "")),
        0x200d => Some(("xtrct r", ", r", "")),
        0x2000 => Some(("mov.b r", ", @r", "")),
        0x2001 => Some(("mov.w r", ", @r", "")),
        0x2002 => Some(("mov.l r", ", @r", "")),
        0x6000 => Some(("mov.b @r", ", r", "")),
        0x6001 => Some(("mov.w @r", ", r", "")),
        0x6002 => Some(("mov.l @r", ", r", "")),
        0x000f => Some(("mac.l @r", "+, @r", "+")),
        0x400f => Some(("mac.w @r", "+, @r", "+")),
        0x6004 => Some(("mov.b @r", "+, r", "")),
        0x6005 => Some(("mov.w @r", "+, r", "")),
        0x6006 => Some(("mov.l @r", "+, r", "")),
        0x2004 => Some(("mov.b r", ", @-r", "")),
        0x2005 => Some(("mov.w r", ", @-r", "")),
        0x2006 => Some(("mov.l r", ", @-r", "")),
        0x0004 => Some(("mov.b r", ", @(r0, r", ")")),
        0x0005 => Some(("mov.w r", ", @(r0, r", ")")),
        0x0006 => Some(("mov.l r", ", @(r0, r", ")")),
        0x000c => Some(("mov.b @(r0, r", "), r", "")),
        0x000d => Some(("mov.w @(r0, r", "), r", "")),
        0x000e => Some(("mov.l @(r0, r", "), r", "")),
        _ => None,
    }
}

/// Moves between `r0` and a register with a 4-bit displacement, by the high
/// byte: the text before the displacement, the text after the register number,
/// and the size of the operand by which the displacement is scaled.
pub open spec fn r0_disp_form(key: u32) -> Option<(Seq<char>, Seq<char>, u32)> {
    if key == 0x8400 {
        Some(("mov.b @(0x"@, "), r0"@, 1))
    } else if key == 0x8500 {
        Some(("mov.w @(0x"@, "), r0"@, 2))
    } else if key == 0x8000 {
        Some(("mov.b r0, @(0x"@, ")"@, 1))
    } else if key == 0x8100 {
        Some(("mov.w r0, @(0x"@, ")"@, 2))
    } else {
        None
    }
}

/// Looks a high byte up among the moves between `r0` and a displaced register.
pub fn r0_disp_entry(key: u32) -> (entry: Option<(&'static str, &'static str, u32)>)
    ensures
        match entry {
            Some(e) => r0_disp_form(key) == Some((e.0@, e.1@, e.2)),
            None => r0_disp_form(key).is_none(),
        },
{
    match key {
        0x8400 => Some(("mov.b @(0x", "), r0", 1)),
        0x8500 => Some(("mov.w @(0x", "), r0", 2)),
        0x8000 => Some(("mov.b r0, @(0x", ")", 1)),
        0x8100 => Some(("mov.w r0, @(0x", ")", 2)),
        _ => None,
    }
}

/// Moves between `r0` and a displacement from `gbr`, by the high byte: the text
/// before and after the displacement, and the size of the operand by which
/// the displacement is scaled.
pub open spec fn gbr_disp_form(key: u32) -> Option<(Seq<char>, Seq<char>, u32)> {
    if key == 0xc000 {
        Some(("mov.b r0, @(0x"@, ", gbr)"@, 1))
    } else if key == 0xc100 {
        Some(("mov.w r0, @(0x"@, ", gbr)"@, 2))
    } else if key == 0xc200 {
        Some(("mov.l r0, @(0x"@, ", gbr)"@, 4))
    } else if key == 0xc400 {
        Some(("mov.b @(0x"@, ", gbr), r0"@, 1))
    } else if key == 0xc500 {
        Some(("mov.w @(0x"@, ", gbr), r0"@, 2))
    } else if key == 0xc600 {
        Some(("mov.l @(0x"@, ", gbr), r0"@, 4))
    } else {
        None
    }
}

/// Looks a high byte up among the moves relative to `gbr`.
pub fn gbr_disp_entry(key: u32) -> (entry: Option<(&'static str, &'static str, u32)>)
    ensures
        match entry {
            Some(e) => gbr_disp_form(key) == Some((e.0@, e.1@, e.2)),
            None => gbr_disp_form(key).is_none(),
        },
{
    match key {
        0xc000 => Some(("mov.b r0, @(0x", ", gbr)", 1)),
        0xc100 => Some(("mov.w r0, @(0x", ", gbr)", 2)),
        0xc200 => Some(("mov.l r0, @(0x", ", gbr)", 4)),
        0xc400 => Some(("mov.b @(0x", ", gbr), r0", 1)),
        0xc500 => Some(("mov.w @(0x", ", gbr), r0", 2)),
        0xc600 => Some(("mov.l @(0x", ", gbr), r0", 4)),
        _ => None,
    }
}

/// Conditional branches with an 8-bit displacement, by the high byte: the
/// mnemonic and the blank before the target.
pub open spec fn short_branch_form(key: u32) -> Option<Seq<char>> {
    if key == 0x8b00 {
        Some("bf "@)
    } else if key == 0x8f00 {
        Some("bf.s "@)
    } else if key == 0x8900 {
        Some("bt "@)
    } else if key == 0x8d00 {
        Some("bt.s "@)
    } else {
        None
    }
}

/// Looks a high byte up among the conditional branches.
pub fn short_branch_entry(key: u32) -> (entry: Option<&'static str>)
    ensures
        match entry {
            Some(text) => short_branch_form(key) == Some(text@),
            None => short_branch_form(key).is_none(),
        },
{
    match key {
        0x8b00 => Some("bf "),
        0x8f00 => Some("bf.s "),
        0x8900 => Some("bt "),
        0x8d00 => Some("bt.s "),
        _ => None,
    }
}

/// Branches with a 12-bit displacement, by the high nibble: the mnemonic and
/// the blank before the target.
pub open spec fn long_branch_form(key: u32) -> Option<Seq<char>> {
    if key == 0xa000 {
        Some("bra "@)
    } else if key == 0xb000 {
        Some("bsr "@)
    } else {
        None
    }
}

/// Looks a high nibble up among the unconditional branches.
pub fn long_branch_entry(key: u32) -> (entry: Option<&'static str>)
    ensures
        match entry {
            Some(text) => long_branch_form(key) == Some(text@),
            None => long_branch_form(key).is_none(),
        },
{
    match key {
        0xa000 => Some("bra "),
        0xb000 => Some("bsr "),
        _ => None,
    }
}

/// Instructions with an 8-bit immediate and no free register, by the high
/// byte: the text before and after the immediate, and the least number of
/// hexadecimal digits in which it is printed.
pub open spec fn imm_form(key: u32) -> Option<(Seq<char>, Seq<char>, u32)> {
    if key == 0xcd00 {
        Some(("and.b #0x"@, ", @(r0, gbr)"@, 2))
    } else if key == 0xcf00 {
        Some(("or.b #0x"@, ", @(r0, gbr)"@, 2))
    } else if key == 0xcc00 {
        Some(("tst.b #0x"@, ", @(r0, gbr)"@, 2))
    } else if key == 0xce00 {
        Some(("xor.b #0x"@, ", @(r0, gbr)"@, 2))
    } else if key == 0xc900 {
        Some(("and #0x"@, ", r0"@, 2))
    } else if key == 0x8800 {
        Some(("cmp/eq #0x"@, ", r0"@, 2))
    } else if key == 0xcb00 {
        Some(("or #0x"@, ", r0"@, 2))
    } else if key == 0xc800 {
        Some(("tst #0x"@, ", r0"@, 2))
    } else if key == 0xca00 {
        Some(("xor #0x"@, ", r0"@, 2))
    } else if key == 0xc300 {
        Some(("trapa #0x"@, ""@, 1))
    } else {
        None
    }
}

/// Looks a high byte up among the instructions with an immediate.
pub fn imm_entry(key: u32) -> (entry: Option<(&'static str, &'static str, u32)>)
    ensures
        match entry {
            Some(e) => imm_form(key) == Some((e.0@, e.1@, e.2)),
            None => imm_form(key).is_none(),
        },
{
    match key {
        0xcd00 => Some(("and.b #0x", ", @(r0, gbr)", 2)),
        0xcf00 => Some(("or.b #0x", ", @(r0, gbr)", 2)),
        0xcc00 => Some(("tst.b #0x", ", @(r0, gbr)", 2)),
        0xce00 => Some(("xor.b #0x", ", @(r0, gbr)", 2)),
        0xc900 => Some(("and #0x", ", r0", 2)),
        0x8800 => Some(("cmp/eq #0x", ", r0", 2)),
        0xcb00 => Some(("or #0x", ", r0", 2)),
        0xc800 => Some(("tst #0x", ", r0", 2)),
        0xca00 => Some(("xor #0x", ", r0", 2)),
        0xc300 => Some(("trapa #0x", "", 1)),
        _ => None,
    }
}

} // verus!
