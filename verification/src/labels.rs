//! The two label tables of a code region: branch targets and the data that
//! PC-relative loads refer to, both keyed by virtual address.

use crate::operands::{
    branch_target, long_branch_target, long_load_target, pc_long_target, pc_word_target,
    short_branch_target, signed12, signed8, word_load_target,
};
use crate::text::{hex_upper, push_hex};
use std::collections::HashMap;
use vstd::prelude::*;
use vstd::string::*;

verus! {

/// A piece of data that some instruction loads relative to the program
/// counter.
pub struct DataLabel {
    /// The number of bytes that the load reads: 2 or 4.
    pub size: u32,
    /// The name under which the data is listed.
    pub label: String,
    /// The virtual address of the instruction that refers to the data.
    pub source: u32,
}

/// What a [`DataLabel`] holds, with the name as a sequence of characters.
pub struct DataLabelView {
    pub size: u32,
    pub label: Seq<char>,
    pub source: u32,
}

impl View for DataLabel {
    type V = DataLabelView;

    open spec fn view(&self) -> DataLabelView {
        DataLabelView { size: self.size, label: self.label@, source: self.source }
    }
}

/// The name of each branch label in a table, by address.
pub open spec fn branch_names(table: Map<u32, String>) -> Map<u32, Seq<char>> {
    Map::new(|k: u32| table.contains_key(k), |k: u32| table[k]@)
}

/// The contents of each data label in a table, by address.
pub open spec fn data_views(table: Map<u32, DataLabel>) -> Map<u32, DataLabelView> {
    Map::new(|k: u32| table.contains_key(k), |k: u32| table[k]@)
}

/// The name generated for a branch target: `lab_` and the address in eight
/// hexadecimal digits.
pub open spec fn branch_label_name(addr: u32) -> Seq<char> {
    "lab_"@ + hex_upper(addr as nat, 8)
}

/// The name generated for loaded data: `dat_` and the address in eight
/// hexadecimal digits.
pub open spec fn data_label_name(addr: u32) -> Seq<char> {
    "dat_"@ + hex_upper(addr as nat, 8)
}

/// Whether the opcode is a conditional branch (`bf`, `bf.s`, `bt`, `bt.s`),
/// which carries an 8-bit displacement.
pub open spec fn is_short_branch(op: u32) -> bool {
    let key = op & 0xff00;
    key == 0x8b00 || key == 0x8f00 || key == 0x8900 || key == 0x8d00
}

/// Whether the opcode is `bra` or `bsr`, which carry a 12-bit displacement.
pub open spec fn is_long_branch(op: u32) -> bool {
    let key = op & 0xf000;
    key == 0xa000 || key == 0xb000
}

/// The address to which the instruction at `vaddr` may transfer control, if
/// it is a branch with a displacement.
pub open spec fn control_target(vaddr: u32, op: u32) -> Option<u32> {
    if is_short_branch(op) {
        Some(branch_target(vaddr, signed8(op)))
    } else if is_long_branch(op) {
        Some(branch_target(vaddr, signed12(op)))
    } else {
        None
    }
}

/// The address and size of the data that the instruction at `vaddr` loads
/// relative to the program counter, if it is such a load.
pub open spec fn load_target(vaddr: u32, op: u32) -> Option<(u32, u32)> {
    if op & 0xf000 == 0x9000 {
        Some((word_load_target(vaddr, op), 2u32))
    } else if op & 0xf000 == 0xd000 {
        Some((long_load_target(vaddr, op), 4u32))
    } else {
        None
    }
}

/// Whether the slot at `vaddr` is already listed as data: it carries a data
/// label itself, or it is the second half of a 4-byte label two bytes below.
pub open spec fn is_data_slot(data: Map<u32, DataLabelView>, vaddr: u32) -> bool {
    ||| data.contains_key(vaddr)
    ||| {
        &&& vaddr >= 2
        &&& data.contains_key((vaddr - 2) as u32)
        &&& data[(vaddr - 2) as u32].size == 4
    }
}

/// The branch label table after the instruction at `vaddr` has been looked
/// at: a branch adds a label for its target, under the generated name.
pub open spec fn with_branch_label(names: Map<u32, Seq<char>>, vaddr: u32, op: u32) -> Map<
    u32,
    Seq<char>,
> {
    match control_target(vaddr, op) {
        Some(target) => names.insert(target, branch_label_name(target)),
        None => names,
    }
}

/// The data label table after the instruction at `vaddr` has been looked at.
/// A slot that is already listed as data is not read as an instruction. A
/// PC-relative load adds a label for the data it reads, and replaces one that
/// was there.
pub open spec fn with_data_label(data: Map<u32, DataLabelView>, vaddr: u32, op: u32) -> Map<
    u32,
    DataLabelView,
> {
    if is_data_slot(data, vaddr) {
        data
    } else {
        match load_target(vaddr, op) {
            Some((target, size)) => data.insert(
                target,
                DataLabelView { size, label: data_label_name(target), source: vaddr },
            ),
            None => data,
        }
    }
}

/// Records a branch label for `addr` under its generated name.
pub fn add_label(addr: u32, branch_labels: &mut HashMap<u32, String>)
    ensures
        branch_names(final(branch_labels)@) == branch_names(old(branch_labels)@).insert(
            addr,
            branch_label_name(addr),
        ),
{
    let mut label = String::from_str("lab_");
    push_hex(&mut label, addr as u64, 8);
    branch_labels.insert(addr, label);
    assert(branch_names(branch_labels@) =~= branch_names(old(branch_labels)@).insert(
        addr,
        branch_label_name(addr),
    ));
}

/// Records a data label of `size` bytes for `addr`, referred to by the
/// instruction at `source`, under its generated name.
pub fn add_data_label(source: u32, addr: u32, size: u32, data_labels: &mut HashMap<u32, DataLabel>)
    ensures
        data_views(final(data_labels)@) == data_views(old(data_labels)@).insert(
            addr,
            DataLabelView { size, label: data_label_name(addr), source },
        ),
{
    let mut the_label = String::from_str("dat_");
    push_hex(&mut the_label, addr as u64, 8);
    let data_label = DataLabel { size, label: the_label, source };
    data_labels.insert(addr, data_label);
    assert(data_views(data_labels@) =~= data_views(old(data_labels)@).insert(
        addr,
        DataLabelView { size, label: data_label_name(addr), source },
    ));
}

/// The target of the branch at `v_addr`, if the opcode is a branch with a
/// displacement.
pub fn branch_target_of(v_addr: u32, op: u32) -> (target: Option<u32>)
    ensures
        target == control_target(v_addr, op),
{
    let is_bf = (op & 0xff00) == 0x8b00;
    let is_bfs = (op & 0xff00) == 0x8f00;
    let is_bt = (op & 0xff00) == 0x8900;
    let is_bts = (op & 0xff00) == 0x8d00;
    let is_bra = (op & 0xf000) == 0xa000;
    let is_bsr = (op & 0xf000) == 0xb000;
    if is_bf || is_bfs || is_bt || is_bts {
        Some(short_branch_target(v_addr, op))
    } else if is_bra || is_bsr {
        Some(long_branch_target(v_addr, op))
    } else {
        None
    }
}

/// Looks at the instruction at `v_addr` and records a label for its target
/// if it is a branch with a displacement.
pub fn find_branch_labels(v_addr: u32, op: u32, branch_labels: &mut HashMap<u32, String>)
    ensures
        branch_names(final(branch_labels)@) == with_branch_label(
            branch_names(old(branch_labels)@),
            v_addr,
            op,
        ),
{
    match branch_target_of(v_addr, op) {
        Some(addr) => add_label(addr, branch_labels),
        None => {},
    }
}

/// Whether the slot at `v_addr` is already listed as data.
pub fn slot_is_data(v_addr: u32, data_labels: &HashMap<u32, DataLabel>) -> (claimed: bool)
    ensures
        claimed == is_data_slot(data_views(data_labels@), v_addr),
{
    if data_labels.contains_key(&v_addr) {
        return true;
    }
    if v_addr >= 2 {
        let below: u32 = v_addr - 2;
        match data_labels.get(&below) {
            Some(value) => value.size == 4,
            None => false,
        }
    } else {
        false
    }
}

/// Looks at the instruction at `v_addr` and records a label for the data it
/// loads relative to the program counter, unless the slot is itself listed
/// as data.
pub fn find_data_labels(v_addr: u32, op: u32, data_labels: &mut HashMap<u32, DataLabel>)
    ensures
        data_views(final(data_labels)@) == with_data_label(
            data_views(old(data_labels)@),
            v_addr,
            op,
        ),
{
    if slot_is_data(v_addr, data_labels) {
        return ;
    }
    if (op & 0xf000) == 0x9000 {
        let addr: u32 = pc_word_target(v_addr, op);
        add_data_label(v_addr, addr, 2, data_labels);
    } else if (op & 0xf000) == 0xd000 {
        let target: u32 = pc_long_target(v_addr, op);
        add_data_label(v_addr, target, 4, data_labels);
    }
}

} // verus!
