//! The instruction decoder: from a 16-bit opcode and its virtual address to
//! one line of mnemonic text.
//!
//! The opcode is matched level by level, from the most specific mask to the
//! least specific one: the whole word, then the word without one register
//! field, without both, by its high byte, and by its high nibble. The first
//! level that knows the masked opcode decides; a word that no level knows is
//! printed as raw data. A target that has a label is printed by name, any
//! other as a number.

use crate::labels::{
    branch_names, control_target, data_views, is_long_branch, is_short_branch, load_target,
    DataLabel, DataLabelView,
};
use crate::mnemonics::{
    gbr_disp_entry, gbr_disp_form, imm_entry, imm_form, long_branch_entry, long_branch_form,
    one_reg_entry, one_reg_form, plain_entry, plain_form, r0_disp_entry, r0_disp_form,
    short_branch_entry, short_branch_form, two_reg_entry, two_reg_form,
};
use crate::operands::{
    branch_target, disp4, field_disp4, field_imm8, field_m, field_n, imm8, long_branch_target,
    long_load_offset, long_load_target, pc_long_offset, pc_long_target, pc_word_target, reg_m,
    reg_n, short_branch_target, signed12, signed8, word_load_target,
};
use crate::text::{decimal, hex_upper, push_decimal, push_hex};
use std::collections::HashMap;
use vstd::prelude::*;
use vstd::string::*;

verus! {

/// A branch target as an operand: the label's name where the target has one,
/// else `0x` and the address in eight hexadecimal digits.
pub open spec fn branch_operand(target: u32, branch: Map<u32, Seq<char>>) -> Seq<char> {
    if branch.contains_key(target) {
        branch[target]
    } else {
        "0x"@ + hex_upper(target as nat, 8)
    }
}

/// The address of loaded data as an operand: the label's name where the
/// target has one, else `0x` and the offset from the program counter in three
/// hexadecimal digits.
pub open spec fn data_operand(target: u32, offset: nat, data: Map<u32, DataLabelView>) -> Seq<
    char,
> {
    if data.contains_key(target) {
        data[target].label
    } else {
        "0x"@ + hex_upper(offset, 3)
    }
}

/// A word that is no known instruction, as raw data.
pub open spec fn unknown_text(op: u32) -> Seq<char> {
    ".word 0x"@ + hex_upper(op as nat, 4) + " /* unknown instruction */"@
}

/// By the high nibble: an immediate added or moved to a register; any other
/// word is unknown.
pub open spec fn text_ni(op: u32) -> Seq<char> {
    if op & 0xf000 == 0x7000 {
        "add #0x"@ + hex_upper(imm8(op), 2) + ", r"@ + decimal(reg_n(op))
    } else if op & 0xf000 == 0xe000 {
        "mov #"@ + decimal(imm8(op)) + ", r"@ + decimal(reg_n(op))
    } else {
        unknown_text(op)
    }
}

/// By the high byte: an immediate with `r0` or with memory at `gbr`.
pub open spec fn text_i(op: u32) -> Seq<char> {
    match imm_form(op & 0xff00) {
        Some((before, after, width)) => before + hex_upper(imm8(op), width as nat) + after,
        None => text_ni(op),
    }
}

/// By the high nibble: a load relative to the program counter.
pub open spec fn text_nd8(vaddr: u32, op: u32, data: Map<u32, DataLabelView>) -> Seq<char> {
    if op & 0xf000 == 0x9000 {
        "mov.w @("@ + data_operand(word_load_target(vaddr, op), imm8(op) * 2 + 4, data)
            + ", pc), r"@ + decimal(reg_n(op))
    } else if op & 0xf000 == 0xd000 {
        "mov.l @("@ + data_operand(long_load_target(vaddr, op), long_load_offset(vaddr, op), data)
            + ", pc), r"@ + decimal(reg_n(op))
    } else {
        text_i(op)
    }
}

/// By the high nibble: a branch with a 12-bit displacement.
pub open spec fn text_d12(
    vaddr: u32,
    op: u32,
    data: Map<u32, DataLabelView>,
    branch: Map<u32, Seq<char>>,
) -> Seq<char> {
    match long_branch_form(op & 0xf000) {
        Some(name) => name + branch_operand(branch_target(vaddr, signed12(op)), branch),
        None => text_nd8(vaddr, op, data),
    }
}

/// By the high byte: a move relative to `gbr`, or a conditional branch.
pub open spec fn text_d(
    vaddr: u32,
    op: u32,
    data: Map<u32, DataLabelView>,
    branch: Map<u32, Seq<char>>,
) -> Seq<char> {
    match gbr_disp_form(op & 0xff00) {
        Some((before, after, scale)) => before + hex_upper(imm8(op) * (scale as nat), 3) + after,
        None => match short_branch_form(op & 0xff00) {
            Some(name) => name + branch_operand(branch_target(vaddr, signed8(op)), branch),
            None => text_d12(vaddr, op, data, branch),
        },
    }
}

/// By the high nibble: a long move between two registers with a 4-bit
/// displacement.
pub open spec fn text_nmd(
    vaddr: u32,
    op: u32,
    data: Map<u32, DataLabelView>,
    branch: Map<u32, Seq<char>>,
) -> Seq<char> {
    if op & 0xf000 == 0x1000 {
        "mov.l r"@ + decimal(reg_m(op)) + ", @(0x"@ + hex_upper(disp4(op) * 4, 3) + ", r"@
            + decimal(reg_n(op)) + ")"@
    } else if op & 0xf000 == 0x5000 {
        "mov.l @(0x"@ + hex_upper(disp4(op) * 4, 3) + ", r"@ + decimal(reg_m(op)) + "), r"@
            + decimal(reg_n(op))
    } else {
        text_d(vaddr, op, data, branch)
    }
}

/// By the high byte: a move between `r0` and a register with a 4-bit
/// displacement.
pub open spec fn text_ff00(
    vaddr: u32,
    op: u32,
    data: Map<u32, DataLabelView>,
    branch: Map<u32, Seq<char>>,
) -> Seq<char> {
    match r0_disp_form(op & 0xff00) {
        Some((before, after, scale)) => before + hex_upper(disp4(op) * (scale as nat), 3) + ", r"@
            + decimal(reg_m(op)) + after,
        None => text_nmd(vaddr, op, data, branch),
    }
}

/// By the opcode without bits 4 to 11: an instruction with two registers.
pub open spec fn text_f00f(
    vaddr: u32,
    op: u32,
    data: Map<u32, DataLabelView>,
    branch: Map<u32, Seq<char>>,
) -> Seq<char> {
    match two_reg_form(op & 0xf00f) {
        Some((before, between, after)) => before + decimal(reg_m(op)) + between + decimal(
            reg_n(op),
        ) + after,
        None => text_ff00(vaddr, op, data, branch),
    }
}

/// By the opcode without bits 8 to 11: an instruction with one register.
pub open spec fn text_f0ff(
    vaddr: u32,
    op: u32,
    data: Map<u32, DataLabelView>,
    branch: Map<u32, Seq<char>>,
) -> Seq<char> {
    match one_reg_form(op & 0xf0ff) {
        Some((before, after)) => before + decimal(reg_n(op)) + after,
        None => text_f00f(vaddr, op, data, branch),
    }
}

/// The mnemonic line of the opcode `op` at the virtual address `vaddr`, given
/// the data labels and the names of the branch labels.
pub open spec fn decode_text(
    vaddr: u32,
    op: u32,
    data: Map<u32, DataLabelView>,
    branch: Map<u32, Seq<char>>,
) -> Seq<char> {
    match plain_form(op & 0xffff) {
        Some(text) => text,
        None => text_f0ff(vaddr, op, data, branch),
    }
}

/// Appends a branch target: its label, or its address as a number.
fn push_branch_operand(string: &mut String, target: u32, branch_labels: &HashMap<u32, String>)
    ensures
        final(string)@ == old(string)@ + branch_operand(target, branch_names(branch_labels@)),
{
    match branch_labels.get(&target) {
        Some(value) => {
            string.append(value.as_str());
        },
        None => {
            string.append("0x");
            push_hex(string, target as u64, 8);
            assert(string@ =~= old(string)@ + ("0x"@ + hex_upper(target as nat, 8)));
        },
    }
}

/// Appends the address of loaded data: its label, or the offset as a number.
fn push_data_operand(
    string: &mut String,
    target: u32,
    offset: u32,
    data_labels: &HashMap<u32, DataLabel>,
)
    ensures
        final(string)@ == old(string)@ + data_operand(
            target,
            offset as nat,
            data_views(data_labels@),
        ),
{
    match data_labels.get(&target) {
        Some(value) => {
            string.append(value.label.as_str());
        },
        None => {
            string.append("0x");
            push_hex(string, offset as u64, 3);
            assert(string@ =~= old(string)@ + ("0x"@ + hex_upper(offset as nat, 3)));
        },
    }
}

/// Decodes by the high nibble: `add` and `mov` with an immediate, else the
/// raw word.
pub fn match_ni_f(
    _v_addr: u32,
    op: u32,
    _mode: bool,
    string: &mut String,
    _data_labels: &HashMap<u32, DataLabel>,
    _branch_labels: &HashMap<u32, String>,
)
    ensures
        final(string)@ == old(string)@ + text_ni(op),
{
    if (op & 0xf000) == 0x7000 {
        string.append("add #0x");
        push_hex(string, field_imm8(op) as u64, 2);
        string.append(", r");
        push_decimal(string, field_n(op) as u64);
        assert(string@ =~= old(string)@ + text_ni(op));
    } else if (op & 0xf000) == 0xe000 {
        string.append("mov #");
        push_decimal(string, field_imm8(op) as u64);
        string.append(", r");
        push_decimal(string, field_n(op) as u64);
        assert(string@ =~= old(string)@ + text_ni(op));
    } else {
        string.append(".word 0x");
        push_hex(string, op as u64, 4);
        string.append(" /* unknown instruction */");
        assert(string@ =~= old(string)@ + text_ni(op));
    }
}

/// Decodes by the high byte: the instructions with an immediate.
pub fn match_i_f(
    v_addr: u32,
    op: u32,
    mode: bool,
    string: &mut String,
    data_labels: &HashMap<u32, DataLabel>,
    branch_labels: &HashMap<u32, String>,
)
    ensures
        final(string)@ == old(string)@ + text_i(op),
{
    match imm_entry(op & 0xff00) {
        Some(entry) => {
            string.append(entry.0);
            push_hex(string, field_imm8(op) as u64, entry.2);
            string.append(entry.1);
            assert(string@ =~= old(string)@ + text_i(op));
        },
        None => match_ni_f(v_addr, op, mode, string, data_labels, branch_labels),
    }
}

/// Decodes by the high nibble: the loads relative to the program counter.
pub fn match_nd8_f(
    v_addr: u32,
    op: u32,
    mode: bool,
    string: &mut String,
    data_labels: &HashMap<u32, DataLabel>,
    branch_labels: &HashMap<u32, String>,
)
    ensures
        final(string)@ == old(string)@ + text_nd8(v_addr, op, data_views(data_labels@)),
{
    if (op & 0xf000) == 0x9000 {
        let target: u32 = pc_word_target(v_addr, op);
        let offset: u32 = field_imm8(op) * 2 + 4;
        string.append("mov.w @(");
        push_data_operand(string, target, offset, data_labels);
        string.append(", pc), r");
        push_decimal(string, field_n(op) as u64);
        assert(string@ =~= old(string)@ + text_nd8(v_addr, op, data_views(data_labels@)));
    } else if (op & 0xf000) == 0xd000 {
        let target: u32 = pc_long_target(v_addr, op);
        let offset: u32 = pc_long_offset(v_addr, op);
        string.append("mov.l @(");
        push_data_operand(string, target, offset, data_labels);
        string.append(", pc), r");
        push_decimal(string, field_n(op) as u64);
        assert(string@ =~= old(string)@ + text_nd8(v_addr, op, data_views(data_labels@)));
    } else {
        match_i_f(v_addr, op, mode, string, data_labels, branch_labels)
    }
}

/// Decodes by the high nibble: `bra` and `bsr`.
pub fn match_d12_f(
    v_addr: u32,
    op: u32,
    mode: bool,
    string: &mut String,
    data_labels: &HashMap<u32, DataLabel>,
    branch_labels: &HashMap<u32, String>,
)
    ensures
        final(string)@ == old(string)@ + text_d12(
            v_addr,
            op,
            data_views(data_labels@),
            branch_names(branch_labels@),
        ),
{
    match long_branch_entry(op & 0xf000) {
        Some(name) => {
            let addr: u32 = long_branch_target(v_addr, op);
            string.append(name);
            push_branch_operand(string, addr, branch_labels);
            assert(string@ =~= old(string)@ + text_d12(
                v_addr,
                op,
                data_views(data_labels@),
                branch_names(branch_labels@),
            ));
        },
        None => match_nd8_f(v_addr, op, mode, string, data_labels, branch_labels),
    }
}

/// Decodes by the high byte: the moves relative to `gbr` and the conditional
/// branches.
pub fn match_d_f(
    v_addr: u32,
    op: u32,
    mode: bool,
    string: &mut String,
    data_labels: &HashMap<u32, DataLabel>,
    branch_labels: &HashMap<u32, String>,
)
    ensures
        final(string)@ == old(string)@ + text_d(
            v_addr,
            op,
            data_views(data_labels@),
            branch_names(branch_labels@),
        ),
{
    match gbr_disp_entry(op & 0xff00) {
        Some(entry) => {
            let field: u32 = field_imm8(op);
            let scale: u32 = entry.2;
            assert(field * scale <= 1020) by (nonlinear_arith)
                requires
                    field <= 255,
                    scale <= 4,
            ;
            string.append(entry.0);
            push_hex(string, (field * scale) as u64, 3);
            string.append(entry.1);
            assert(string@ =~= old(string)@ + text_d(
                v_addr,
                op,
                data_views(data_labels@),
                branch_names(branch_labels@),
            ));
        },
        None => match short_branch_entry(op & 0xff00) {
            Some(name) => {
                let addr: u32 = short_branch_target(v_addr, op);
                string.append(name);
                push_branch_operand(string, addr, branch_labels);
                assert(string@ =~= old(string)@ + text_d(
                    v_addr,
                    op,
                    data_views(data_labels@),
                    branch_names(branch_labels@),
                ));
            },
            None => match_d12_f(v_addr, op, mode, string, data_labels, branch_labels),
        },
    }
}

/// Decodes by the high nibble: the long moves with a 4-bit displacement.
pub fn match_nmd_f(
    v_addr: u32,
    op: u32,
    mode: bool,
    string: &mut String,
    data_labels: &HashMap<u32, DataLabel>,
    branch_labels: &HashMap<u32, String>,
)
    ensures
        final(string)@ == old(string)@ + text_nmd(
            v_addr,
            op,
            data_views(data_labels@),
            branch_names(branch_labels@),
        ),
{
    if (op & 0xf000) == 0x1000 {
        string.append("mov.l r");
        push_decimal(string, field_m(op) as u64);
        string.append(", @(0x");
        push_hex(string, (field_disp4(op) * 4) as u64, 3);
        string.append(", r");
        push_decimal(string, field_n(op) as u64);
        string.append(")");
        assert(string@ =~= old(string)@ + text_nmd(
            v_addr,
            op,
            data_views(data_labels@),
            branch_names(branch_labels@),
        ));
    } else if (op & 0xf000) == 0x5000 {
        string.append("mov.l @(0x");
        push_hex(string, (field_disp4(op) * 4) as u64, 3);
        string.append(", r");
        push_decimal(string, field_m(op) as u64);
        string.append("), r");
        push_decimal(string, field_n(op) as u64);
        assert(string@ =~= old(string)@ + text_nmd(
            v_addr,
            op,
            data_views(data_labels@),
            branch_names(branch_labels@),
        ));
    } else {
        match_d_f(v_addr, op, mode, string, data_labels, branch_labels)
    }
}

/// Decodes by the high byte: the moves between `r0` and a displaced register.
pub fn match_ff00(
    v_addr: u32,
    op: u32,
    mode: bool,
    string: &mut String,
    data_labels: &HashMap<u32, DataLabel>,
    branch_labels: &HashMap<u32, String>,
)
    ensures
        final(string)@ == old(string)@ + text_ff00(
            v_addr,
            op,
            data_views(data_labels@),
            branch_names(branch_labels@),
        ),
{
    match r0_disp_entry(op & 0xff00) {
        Some(entry) => {
            let field: u32 = field_disp4(op);
            let scale: u32 = entry.2;
            assert(field * scale <= 30) by (nonlinear_arith)
                requires
                    field <= 15,
                    scale <= 2,
            ;
            string.append(entry.0);
            push_hex(string, (field * scale) as u64, 3);
            string.append(", r");
            push_decimal(string, field_m(op) as u64);
            string.append(entry.1);
            assert(string@ =~= old(string)@ + text_ff00(
                v_addr,
                op,
                data_views(data_labels@),
                branch_names(branch_labels@),
            ));
        },
        None => match_nmd_f(v_addr, op, mode, string, data_labels, branch_labels),
    }
}

/// Decodes by the opcode without bits 4 to 11: the instructions with two
/// registers.
pub fn match_f00f(
    v_addr: u32,
    op: u32,
    mode: bool,
    string: &mut String,
    data_labels: &HashMap<u32, DataLabel>,
    branch_labels: &HashMap<u32, String>,
)
    ensures
        final(string)@ == old(string)@ + text_f00f(
            v_addr,
            op,
            data_views(data_labels@),
            branch_names(branch_labels@),
        ),
{
    match two_reg_entry(op & 0xf00f) {
        Some(entry) => {
            string.append(entry.0);
            push_decimal(string, field_m(op) as u64);
            string.append(entry.1);
            push_decimal(string, field_n(op) as u64);
            string.append(entry.2);
            assert(string@ =~= old(string)@ + text_f00f(
                v_addr,
                op,
                data_views(data_labels@),
                branch_names(branch_labels@),
            ));
        },
        None => match_ff00(v_addr, op, mode, string, data_labels, branch_labels),
    }
}

/// Decodes by the opcode without bits 8 to 11: the instructions with one
/// register.
pub fn match_f0ff(
    v_addr: u32,
    op: u32,
    mode: bool,
    string: &mut String,
    data_labels: &HashMap<u32, DataLabel>,
    branch_labels: &HashMap<u32, String>,
)
    ensures
        final(string)@ == old(string)@ + text_f0ff(
            v_addr,
            op,
            data_views(data_labels@),
            branch_names(branch_labels@),
        ),
{
    match one_reg_entry(op & 0xf0ff) {
        Some(entry) => {
            string.append(entry.0);
            push_decimal(string, field_n(op) as u64);
            string.append(entry.1);
            assert(string@ =~= old(string)@ + text_f0ff(
                v_addr,
                op,
                data_views(data_labels@),
                branch_names(branch_labels@),
            ));
        },
        None => match_f00f(v_addr, op, mode, string, data_labels, branch_labels),
    }
}

/// Appends to `string` the mnemonic line of the opcode `op` at the virtual
/// address `v_addr`. The label tables are only read: a target that has a
/// label is printed by name. Every opcode gives a line, and the line is never
/// empty.
pub fn sh2_disasm(
    v_addr: u32,
    op: u32,
    mode: bool,
    string: &mut String,
    data_labels: &HashMap<u32, DataLabel>,
    branch_labels: &HashMap<u32, String>,
)
    ensures
        final(string)@ == old(string)@ + decode_text(
            v_addr,
            op,
            data_views(data_labels@),
            branch_names(branch_labels@),
        ),
        final(string)@.len() > old(string)@.len(),
{
    proof {
        lemma_decode_nonempty(v_addr, op, data_views(data_labels@), branch_names(branch_labels@));
    }
    match plain_entry(op & 0xffff) {
        Some(text) => string.append(text),
        None => match_f0ff(v_addr, op, mode, string, data_labels, branch_labels),
    }
}

/// The decoder is total: whatever the opcode, the address and the label
/// tables, the line it gives is not empty.
pub proof fn lemma_decode_nonempty(
    vaddr: u32,
    op: u32,
    data: Map<u32, DataLabelView>,
    branch: Map<u32, Seq<char>>,
)
    ensures
        decode_text(vaddr, op, data, branch).len() > 0,
{
    reveal_strlit("clrt");
    reveal_strlit("clrmac");
    reveal_strlit("div0u");
    reveal_strlit("nop");
    reveal_strlit("rte");
    reveal_strlit("rts");
    reveal_strlit("sett");
    reveal_strlit("sleep");
    reveal_strlit("bf ");
    reveal_strlit("bf.s ");
    reveal_strlit("bt ");
    reveal_strlit("bt.s ");
    reveal_strlit("bra ");
    reveal_strlit("bsr ");
    reveal_strlit("mov.w @(");
    reveal_strlit("mov.l @(");
    crate::text::lemma_decimal_nonempty(reg_n(op));
    crate::text::lemma_decimal_nonempty(reg_m(op));
    crate::text::lemma_decimal_nonempty(imm8(op));
    crate::text::lemma_hex_nonempty(op as nat, 4);
    crate::text::lemma_hex_nonempty(imm8(op), 1);
    crate::text::lemma_hex_nonempty(imm8(op), 2);
    crate::text::lemma_hex_nonempty(imm8(op), 3);
    crate::text::lemma_hex_nonempty(imm8(op) * 2, 3);
    crate::text::lemma_hex_nonempty(imm8(op) * 4, 3);
    crate::text::lemma_hex_nonempty(disp4(op), 3);
    crate::text::lemma_hex_nonempty(disp4(op) * 2, 3);
    crate::text::lemma_hex_nonempty(disp4(op) * 4, 3);
}

/// The mnemonic of a branch with a displacement, with the blank that
/// follows it; nothing for any other opcode.
pub open spec fn branch_mnemonic(op: u32) -> Seq<char> {
    match short_branch_form(op & 0xff00) {
        Some(name) => name,
        None => match long_branch_form(op & 0xf000) {
            Some(name) => name,
            None => Seq::empty(),
        },
    }
}

/// No earlier level takes a branch for itself: an opcode that is a branch
/// with a displacement is printed as its mnemonic and its target, the target
/// by name where it has a label.
pub proof fn lemma_branch_text(
    vaddr: u32,
    op: u32,
    data: Map<u32, DataLabelView>,
    branch: Map<u32, Seq<char>>,
)
    requires
        control_target(vaddr, op).is_some(),
    ensures
        decode_text(vaddr, op, data, branch) == branch_mnemonic(op) + branch_operand(
            control_target(vaddr, op).unwrap(),
            branch,
        ),
{
    let high = op & 0xf000;
    let byte = op & 0xff00;
    assert(0x8000 <= op & 0xf000 < 0xc000 ==> {
        &&& 0x8000 <= op & 0xffff < 0xc000
        &&& 0x8000 <= op & 0xf0ff < 0xc000
        &&& 0x8000 <= op & 0xf00f < 0xc000
    }) by (bit_vector);
    assert((op & 0xff00) & 0xf000 == op & 0xf000) by (bit_vector);
    assert(0x8800 <= op & 0xff00 < 0x9000 ==> op & 0xf000 == 0x8000) by (bit_vector);
    assert(op & 0xf000 == 0xa000 ==> 0xa000 <= op & 0xff00 < 0xb000) by (bit_vector);
    assert(op & 0xf000 == 0xb000 ==> 0xb000 <= op & 0xff00 < 0xc000) by (bit_vector);
    if is_short_branch(op) {
        assert(high == 0x8000);
    } else {
        assert(is_long_branch(op));
    }
}

/// No earlier level takes a PC-relative load for itself: such an opcode is
/// printed as a move from its target, the target by name where it has a
/// label.
pub proof fn lemma_load_text(
    vaddr: u32,
    op: u32,
    data: Map<u32, DataLabelView>,
    branch: Map<u32, Seq<char>>,
)
    requires
        load_target(vaddr, op).is_some(),
    ensures
        decode_text(vaddr, op, data, branch) == (if op & 0xf000 == 0x9000 {
            "mov.w @("@
        } else {
            "mov.l @("@
        }) + data_operand(
            load_target(vaddr, op).unwrap().0,
            if op & 0xf000 == 0x9000 {
                imm8(op) * 2 + 4
            } else {
                long_load_offset(vaddr, op)
            },
            data,
        ) + ", pc), r"@ + decimal(reg_n(op)),
{
    assert(op & 0xf000 == 0x9000 ==> {
        &&& 0x9000 <= op & 0xffff < 0xa000
        &&& 0x9000 <= op & 0xf0ff < 0xa000
        &&& 0x9000 <= op & 0xf00f < 0xa000
        &&& 0x9000 <= op & 0xff00 < 0xa000
    }) by (bit_vector);
    assert(op & 0xf000 == 0xd000 ==> {
        &&& 0xd000 <= op & 0xffff < 0xe000
        &&& 0xd000 <= op & 0xf0ff < 0xe000
        &&& 0xd000 <= op & 0xf00f < 0xe000
        &&& 0xd000 <= op & 0xff00 < 0xe000
    }) by (bit_vector);
}

} // verus!
