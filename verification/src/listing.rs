//! The label resolver: two passes over a code region that turn its bytes into
//! one assembly listing per function.
//!
//! The first pass walks the slots that lie inside a function and collects
//! the targets of branches and of PC-relative loads. The second pass walks
//! every slot and writes it to the listing of the function that owns it: as
//! an instruction, as labelled data, or as a raw word.

use crate::decode::{branch_mnemonic, branch_operand, decode_text, lemma_branch_text, sh2_disasm};
use crate::labels::{
    add_label, branch_label_name, branch_names, branch_target_of, control_target, data_views,
    find_data_labels, with_data_label, DataLabel, DataLabelView,
};
use crate::operands::wrap32;
use crate::ranges::{
    extended_owner, fetch_instruction, find_funcs, first_containing, first_gap, function_ranges,
    infunc, infunc_extended, slot_count, strict_owner, word_at, FunctionRange,
};
use crate::text::{hex_upper, push_hex};
use std::collections::BTreeMap;
use std::collections::HashMap;
use vstd::prelude::*;
use vstd::string::*;

verus! {

/// The listing of one function.
pub struct DisassembledFunc {
    /// The address of the first instruction, as an offset into the bytes.
    pub addr: u32,
    /// The address after the return instruction and the slot that follows it.
    pub end: u32,
    /// The lines of the listing, each ended by a line feed.
    pub text: String,
    /// Whether the range holds data rather than instructions.
    pub data: bool,
    /// The name of the function: `f` and its virtual address in seven
    /// hexadecimal digits.
    pub name: String,
    /// The source file that the function belongs to.
    pub file: String,
}

/// What a [`DisassembledFunc`] holds, with its texts as sequences of
/// characters.
pub struct DisassembledFuncView {
    pub addr: u32,
    pub end: u32,
    pub text: Seq<char>,
    pub data: bool,
    pub name: Seq<char>,
    pub file: Seq<char>,
}

impl View for DisassembledFunc {
    type V = DisassembledFuncView;

    open spec fn view(&self) -> DisassembledFuncView {
        DisassembledFuncView {
            addr: self.addr,
            end: self.end,
            text: self.text@,
            data: self.data,
            name: self.name@,
            file: self.file@,
        }
    }
}

/// The contents of each function in a table, by start address.
pub open spec fn func_views(table: Map<u32, DisassembledFunc>) -> Map<u32, DisassembledFuncView> {
    Map::new(|k: u32| table.contains_key(k), |k: u32| table[k]@)
}

/// A code region: the bytes of the binary, the offsets between which the
/// region lies, and the virtual address of offset zero.
pub struct Region {
    pub bytes: Seq<u8>,
    pub start: int,
    pub end: int,
    pub base: int,
}

/// The two label tables, as the passes see them.
pub struct Labels {
    pub branch: Map<u32, Seq<char>>,
    pub data: Map<u32, DataLabelView>,
}

/// Whether the region can be read from its bytes and every virtual address
/// in it fits in 32 bits. An empty region always does.
pub open spec fn region_ok(region: Region) -> bool {
    region.start < region.end ==> {
        &&& 0 <= region.start
        &&& region.end <= region.bytes.len()
        &&& 0 <= region.base
        &&& region.end + region.base <= u32::MAX
    }
}

/// The number of two-byte slots in the region.
pub open spec fn slots(region: Region) -> nat {
    slot_count(region.start, region.end)
}

/// The offset of the `k`-th slot.
pub open spec fn slot_addr(region: Region, k: int) -> u32 {
    (region.start + 2 * k) as u32
}

/// The virtual address of the `k`-th slot.
pub open spec fn slot_vaddr(region: Region, k: int) -> u32 {
    (region.start + 2 * k + region.base) as u32
}

/// The word in the `k`-th slot.
pub open spec fn slot_word(region: Region, k: int) -> u32 {
    word_at(region.bytes, region.start + 2 * k)
}

/// The big-endian 32-bit value in the four bytes at offset `at`.
pub open spec fn long_at(bytes: Seq<u8>, at: int) -> u32 {
    (((bytes[at] * 256 + bytes[at + 1]) * 256 + bytes[at + 2]) * 256 + bytes[at + 3]) as u32
}

/// Whether a virtual address lies in the region.
pub open spec fn in_region(region: Region, vaddr: u32) -> bool {
    region.start + region.base <= vaddr < region.end + region.base
}

/// The branch labels after the instruction at `vaddr` has been looked at: a
/// branch whose target lies in the region adds a label for the target.
pub open spec fn with_region_branch(
    region: Region,
    names: Map<u32, Seq<char>>,
    vaddr: u32,
    op: u32,
) -> Map<u32, Seq<char>> {
    match control_target(vaddr, op) {
        Some(target) => if in_region(region, target) {
            names.insert(target, crate::labels::branch_label_name(target))
        } else {
            names
        },
        None => names,
    }
}

/// The label tables after the first pass has looked at the first `k` slots.
/// Only a slot inside a function is looked at.
pub open spec fn labels_after(region: Region, ranges: Seq<FunctionRange>, k: nat) -> Labels
    decreases k,
{
    if k == 0 {
        Labels { branch: Map::empty(), data: Map::empty() }
    } else {
        let before = labels_after(region, ranges, (k - 1) as nat);
        let vaddr = slot_vaddr(region, k - 1);
        let op = slot_word(region, k - 1);
        if strict_owner(ranges, slot_addr(region, k - 1)).is_none() {
            before
        } else {
            Labels {
                branch: with_region_branch(region, before.branch, vaddr, op),
                data: with_data_label(before.data, vaddr, op),
            }
        }
    }
}

/// The index of the first range at or after `from` that starts at `first`;
/// the number of ranges if there is none.
pub open spec fn first_with_start(ranges: Seq<FunctionRange>, first: u32, from: int) -> int
    decreases ranges.len() - from,
{
    if from < 0 || from >= ranges.len() {
        ranges.len() as int
    } else if ranges[from].phys_start == first {
        from
    } else {
        first_with_start(ranges, first, from + 1)
    }
}

/// Whether some range starts at `first`.
pub open spec fn is_function_start(ranges: Seq<FunctionRange>, first: u32) -> bool {
    first_with_start(ranges, first, 0) < ranges.len()
}

/// The range that stands for the function starting at `first`: the first one
/// in the list with that start.
pub open spec fn range_of_start(ranges: Seq<FunctionRange>, first: u32) -> FunctionRange {
    ranges[first_with_start(ranges, first, 0)]
}

/// The line that opens a function.
pub open spec fn entry_line(vaddr: u32) -> Seq<char> {
    "glabel func_"@ + hex_upper(vaddr as nat, 8) + "\n"@
}

/// A raw word with its address.
pub open spec fn data_word_line(vaddr: u32, word: u32) -> Seq<char> {
    "/* 0x"@ + hex_upper(vaddr as nat, 8) + " */ .word 0x"@ + hex_upper(word as nat, 4) + "\n"@
}

/// The definition of a branch label.
pub open spec fn branch_label_line(name: Seq<char>) -> Seq<char> {
    name + ":\n"@
}

/// An instruction with its address and opcode.
pub open spec fn instruction_line(vaddr: u32, word: u32, mnemonic: Seq<char>) -> Seq<char> {
    "/* 0x"@ + hex_upper(vaddr as nat, 8) + " 0x"@ + hex_upper(word as nat, 4) + " */ "@ + mnemonic
        + "\n"@
}

/// The definition of a data label, with the address of the instruction that
/// refers to it.
pub open spec fn data_label_line(label: DataLabelView) -> Seq<char> {
    label.label + ": /* source: "@ + hex_upper(label.source as nat, 8) + " */\n"@
}

/// A word of labelled data.
pub open spec fn word_line(word: u32) -> Seq<char> {
    ".word 0x"@ + hex_upper(word as nat, 4) + "\n"@
}

/// A long of labelled data, with its address.
pub open spec fn long_line(vaddr: u32, value: u32) -> Seq<char> {
    "/* "@ + hex_upper(vaddr as nat, 8) + " */ .long 0x"@ + hex_upper(value as nat, 8) + "\n"@
}

/// Whether the `k`-th slot belongs to a function that is marked as data.
pub open spec fn slot_in_data_range(region: Region, ranges: Seq<FunctionRange>, k: int) -> bool {
    match extended_owner(ranges, slot_addr(region, k)) {
        Some(first) => range_of_start(ranges, first).is_data,
        None => false,
    }
}

/// Whether the `k`-th slot, if it is written at all, is written as a 4-byte
/// constant: it is not in a data range, it carries a data label of size 4,
/// and the region holds the two bytes that follow it.
pub open spec fn slot_is_long(
    region: Region,
    ranges: Seq<FunctionRange>,
    labels: Labels,
    k: int,
) -> bool {
    &&& !slot_in_data_range(region, ranges, k)
    &&& labels.data.contains_key(slot_vaddr(region, k))
    &&& labels.data[slot_vaddr(region, k)].size == 4
    &&& region.start + 2 * k + 4 <= region.end
}

/// Whether the second pass steps over the `k`-th slot: the slot before it
/// was written as a 4-byte constant, of which this slot is the second half.
pub open spec fn slot_skipped(
    region: Region,
    ranges: Seq<FunctionRange>,
    labels: Labels,
    k: nat,
) -> bool
    decreases k,
{
    k > 0 && !slot_skipped(region, ranges, labels, (k - 1) as nat) && slot_is_long(
        region,
        ranges,
        labels,
        k - 1,
    )
}

/// The lines for a slot that carries a data label: the label, then the data.
/// A label of size 2 is followed by the word of the slot. A label of size 4
/// is followed by the long made of this slot and the next; where the region
/// ends after this slot, by the word of the slot alone.
pub open spec fn labelled_data_text(region: Region, label: DataLabelView, k: int) -> Seq<char> {
    data_label_line(label) + if label.size == 2 {
        word_line(slot_word(region, k))
    } else if label.size == 4 {
        if region.start + 2 * k + 4 <= region.end {
            long_line(slot_vaddr(region, k), long_at(region.bytes, region.start + 2 * k))
        } else {
            word_line(slot_word(region, k))
        }
    } else {
        Seq::empty()
    }
}

/// What follows the entry line of a slot outside the data ranges: the
/// definition of its branch label, if it has one, and then the labelled
/// data, the instruction of a slot inside a function, or the raw word of a
/// slot in the gap behind one.
pub open spec fn slot_body(
    region: Region,
    ranges: Seq<FunctionRange>,
    labels: Labels,
    k: int,
) -> Seq<char> {
    let vaddr = slot_vaddr(region, k);
    let word = slot_word(region, k);
    let inside = strict_owner(ranges, slot_addr(region, k)).is_some();
    (if labels.branch.contains_key(vaddr) {
        branch_label_line(labels.branch[vaddr])
    } else {
        Seq::empty()
    }) + (if labels.data.contains_key(vaddr) {
        labelled_data_text(region, labels.data[vaddr], k)
    } else if inside {
        instruction_line(vaddr, word, decode_text(vaddr, word, labels.data, labels.branch))
    } else {
        data_word_line(vaddr, word)
    })
}

/// The text of the `k`-th slot where the second pass does not step over it:
/// the entry line, if a function starts here, and then either the raw word
/// of a data range or the body of the slot.
pub open spec fn written_text(
    region: Region,
    ranges: Seq<FunctionRange>,
    labels: Labels,
    k: int,
) -> Seq<char> {
    let vaddr = slot_vaddr(region, k);
    (if strict_owner(ranges, slot_addr(region, k)) == Some(slot_addr(region, k)) {
        entry_line(vaddr)
    } else {
        Seq::empty()
    }) + (if slot_in_data_range(region, ranges, k) {
        data_word_line(vaddr, slot_word(region, k))
    } else {
        slot_body(region, ranges, labels, k)
    })
}

/// The text that the second pass writes for the `k`-th slot: nothing for a
/// slot that it steps over.
pub open spec fn slot_text(
    region: Region,
    ranges: Seq<FunctionRange>,
    labels: Labels,
    k: nat,
) -> Seq<char> {
    if slot_skipped(region, ranges, labels, k) {
        Seq::empty()
    } else {
        written_text(region, ranges, labels, k as int)
    }
}

/// The listing of the function that starts at `first`, after the second pass
/// has written the first `k` slots: the texts of the slots that the function
/// owns, in the order of the slots.
pub open spec fn listing_upto(
    region: Region,
    ranges: Seq<FunctionRange>,
    labels: Labels,
    first: u32,
    k: nat,
) -> Seq<char>
    decreases k,
{
    if k == 0 {
        Seq::empty()
    } else {
        listing_upto(region, ranges, labels, first, (k - 1) as nat) + (if extended_owner(
            ranges,
            slot_addr(region, k - 1),
        ) == Some(first) {
            slot_text(region, ranges, labels, (k - 1) as nat)
        } else {
            Seq::empty()
        })
    }
}

/// The name of the function at the virtual address `vaddr`, which is the
/// offset of its start plus the virtual base, as a 32-bit address.
pub open spec fn function_name(vaddr: u32) -> Seq<char> {
    "f"@ + hex_upper(vaddr as nat, 7)
}

/// The table of functions after the second pass has written the first `k`
/// slots: one entry for every address at which a range starts.
pub open spec fn table_upto(
    region: Region,
    ranges: Seq<FunctionRange>,
    labels: Labels,
    k: nat,
) -> Map<u32, DisassembledFuncView> {
    Map::new(
        |first: u32| is_function_start(ranges, first),
        |first: u32|
            DisassembledFuncView {
                addr: first,
                end: range_of_start(ranges, first).phys_end,
                text: listing_upto(region, ranges, labels, first, k),
                data: range_of_start(ranges, first).is_data,
                name: function_name(wrap32(first + region.base)),
                file: "_"@,
            },
    )
}

/// The listings of the functions with the given ranges in a region: labels
/// are collected over the whole region, then every slot is written.
pub open spec fn listings(region: Region, ranges: Seq<FunctionRange>) -> Map<
    u32,
    DisassembledFuncView,
> {
    table_upto(region, ranges, labels_after(region, ranges, slots(region)), slots(region))
}

/// The listings of the functions found in the region between `start` and
/// `end` of `bytes`, where offset zero has the virtual address `base`.
pub open spec fn disassembly(bytes: Seq<u8>, start: int, end: int, base: int) -> Map<
    u32,
    DisassembledFuncView,
> {
    listings(Region { bytes, start, end, base }, function_ranges(bytes, start, end))
}

/// The region that the arguments of the passes describe.
pub open spec fn region_of(bytes: Seq<u8>, start: u64, end: u64, base: u64) -> Region {
    Region { bytes, start: start as int, end: end as int, base: base as int }
}

/// A function's contents with `more` added at the end of its listing.
pub open spec fn with_more_text(
    func: DisassembledFuncView,
    more: Seq<char>,
) -> DisassembledFuncView {
    DisassembledFuncView {
        addr: func.addr,
        end: func.end,
        text: func.text + more,
        data: func.data,
        name: func.name,
        file: func.file,
    }
}

/// The first range with a given start, searched from `from`, lies at or
/// after `from`, starts there, and no range before it does.
pub proof fn lemma_first_with_start(ranges: Seq<FunctionRange>, first: u32, from: int)
    requires
        0 <= from <= ranges.len(),
    ensures
        from <= first_with_start(ranges, first, from) <= ranges.len(),
        first_with_start(ranges, first, from) < ranges.len() ==> ranges[first_with_start(
            ranges,
            first,
            from,
        )].phys_start == first,
        forall|i: int|
            from <= i < first_with_start(ranges, first, from) ==> (#[trigger] ranges[i]).phys_start
                != first,
    decreases ranges.len() - from,
{
    if from < ranges.len() && ranges[from].phys_start != first {
        lemma_first_with_start(ranges, first, from + 1);
    }
}

/// The searches for an owner end inside the list or at its length.
pub proof fn lemma_owner_index(ranges: Seq<FunctionRange>, addr: u32, from: int)
    requires
        0 <= from <= ranges.len(),
    ensures
        from <= first_containing(ranges, addr, from) <= ranges.len(),
        from <= first_gap(ranges, addr, from) <= ranges.len(),
    decreases ranges.len() - from,
{
    if from < ranges.len() {
        lemma_owner_index(ranges, addr, from + 1);
    }
}

/// The function that owns an address is one of the functions of the list.
pub proof fn lemma_owner_is_start(ranges: Seq<FunctionRange>, addr: u32)
    ensures
        match extended_owner(ranges, addr) {
            Some(first) => is_function_start(ranges, first),
            None => strict_owner(ranges, addr).is_none(),
        },
        strict_owner(ranges, addr).is_some() ==> extended_owner(ranges, addr) == strict_owner(
            ranges,
            addr,
        ),
{
    lemma_owner_index(ranges, addr, 0);
    match extended_owner(ranges, addr) {
        Some(first) => {
            lemma_first_with_start(ranges, first, 0);
        },
        None => {},
    }
}

/// Reads the big-endian 32-bit value at offset `at`.
fn read_long(file_contents: &Vec<u8>, at: usize) -> (value: u32)
    requires
        at + 3 < file_contents@.len(),
    ensures
        value == long_at(file_contents@, at as int),
{
    assert(file_contents@.len() == file_contents.len());
    let b0: u8 = file_contents[at];
    let b1: u8 = file_contents[at + 1];
    let b2: u8 = file_contents[at + 2];
    let b3: u8 = file_contents[at + 3];
    assert(((b0 as u32) << 24) | ((b1 as u32) << 16) | ((b2 as u32) << 8) | (b3 as u32) == ((b0
        * 256 + b1) * 256 + b2) * 256 + b3) by (bit_vector);
    ((b0 as u32) << 24) | ((b1 as u32) << 16) | ((b2 as u32) << 8) | (b3 as u32)
}

/// Appends the line that opens a function.
fn push_entry_line(text: &mut String, vaddr: u32)
    ensures
        final(text)@ == old(text)@ + entry_line(vaddr),
{
    text.append("glabel func_");
    push_hex(text, vaddr as u64, 8);
    text.append("\n");
    assert(text@ =~= old(text)@ + entry_line(vaddr));
}

/// Appends a raw word with its address.
fn push_data_word_line(text: &mut String, vaddr: u32, word: u32)
    ensures
        final(text)@ == old(text)@ + data_word_line(vaddr, word),
{
    text.append("/* 0x");
    push_hex(text, vaddr as u64, 8);
    text.append(" */ .word 0x");
    push_hex(text, word as u64, 4);
    text.append("\n");
    assert(text@ =~= old(text)@ + data_word_line(vaddr, word));
}

/// Appends an instruction with its address and opcode.
fn push_instruction_line(text: &mut String, vaddr: u32, word: u32, mnemonic: &str)
    ensures
        final(text)@ == old(text)@ + instruction_line(vaddr, word, mnemonic@),
{
    text.append("/* 0x");
    push_hex(text, vaddr as u64, 8);
    text.append(" 0x");
    push_hex(text, word as u64, 4);
    text.append(" */ ");
    text.append(mnemonic);
    text.append("\n");
    assert(text@ =~= old(text)@ + instruction_line(vaddr, word, mnemonic@));
}

/// Appends a word of labelled data.
fn push_word_line(text: &mut String, word: u32)
    ensures
        final(text)@ == old(text)@ + word_line(word),
{
    text.append(".word 0x");
    push_hex(text, word as u64, 4);
    text.append("\n");
    assert(text@ =~= old(text)@ + word_line(word));
}

/// Writes the slot at offset `i` as labelled data, if it carries a data
/// label: the definition of the label, then a word or a long. After a long
/// `skip_next` is set, since the next slot is its second half. Where a label
/// was found `should_continue` is set: the slot is not to be read as an
/// instruction.
pub fn check_data_labels(
    virtual_addr: u32,
    data_labels: &HashMap<u32, DataLabel>,
    skip_next: &mut bool,
    should_continue: &mut bool,
    file_contents: &Vec<u8>,
    section_end: u64,
    text: &mut String,
    i: u32,
    instr: u16,
)
    requires
        section_end <= file_contents@.len(),
    ensures
        match data_views(data_labels@).get(virtual_addr) {
            Some(label) => {
                &&& final(text)@ == old(text)@ + data_label_line(label) + if label.size == 2 {
                    word_line(instr as u32)
                } else if label.size == 4 {
                    if i + 4 <= section_end {
                        long_line(virtual_addr, long_at(file_contents@, i as int))
                    } else {
                        word_line(instr as u32)
                    }
                } else {
                    Seq::empty()
                }
                &&& *final(skip_next) == (*old(skip_next) || (label.size == 4 && i + 4
                    <= section_end))
                &&& *final(should_continue)
            },
            None => {
                &&& final(text)@ == old(text)@
                &&& *final(skip_next) == *old(skip_next)
                &&& *final(should_continue) == *old(should_continue)
            },
        },
{
    match data_labels.get(&virtual_addr) {
        Some(value) => {
            text.append(value.label.as_str());
            text.append(": /* source: ");
            push_hex(text, value.source as u64, 8);
            text.append(" */\n");
            assert(text@ =~= old(text)@ + data_label_line(value@));
            if value.size == 2 {
                push_word_line(text, instr as u32);
            } else if value.size == 4 {
                if i as u64 + 4 <= section_end {
                    let data: u32 = read_long(file_contents, i as usize);
                    text.append("/* ");
                    push_hex(text, virtual_addr as u64, 8);
                    text.append(" */ .long 0x");
                    push_hex(text, data as u64, 8);
                    text.append("\n");
                    assert(text@ =~= old(text)@ + data_label_line(value@) + long_line(
                        virtual_addr,
                        data,
                    ));
                    // the next slot is the second half of this long
                    *skip_next = true;
                } else {
                    push_word_line(text, instr as u32);
                }
            } else {
                assert(text@ =~= old(text)@ + data_label_line(value@) + Seq::<char>::empty());
            }
            *should_continue = true;
        },
        None => {},
    }
}

/// The label tables as the passes see them.
pub open spec fn labels_of(data: Map<u32, DataLabel>, branch: Map<u32, String>) -> Labels {
    Labels { branch: branch_names(branch), data: data_views(data) }
}

/// The table of functions before the second pass: one entry with an empty
/// listing for every address at which a range starts.
pub open spec fn empty_table(ranges: Seq<FunctionRange>, base: int) -> Map<
    u32,
    DisassembledFuncView,
> {
    Map::new(
        |first: u32| is_function_start(ranges, first),
        |first: u32|
            DisassembledFuncView {
                addr: first,
                end: range_of_start(ranges, first).phys_end,
                text: Seq::empty(),
                data: range_of_start(ranges, first).is_data,
                name: function_name(wrap32(first + base)),
                file: "_"@,
            },
    )
}

/// The first pass: the branch targets and the PC-relative data that the
/// instructions inside the functions of `ranges` refer to. A branch gets a
/// label only where its target lies in the region.
pub fn collect_labels(
    file_contents: &Vec<u8>,
    section_start: u64,
    section_end: u64,
    virtual_base_addr: u64,
    ranges: &Vec<FunctionRange>,
) -> (found: (HashMap<u32, DataLabel>, HashMap<u32, String>))
    requires
        region_ok(region_of(file_contents@, section_start, section_end, virtual_base_addr)),
    ensures
        labels_of(found.0@, found.1@) == labels_after(
            region_of(file_contents@, section_start, section_end, virtual_base_addr),
            ranges@,
            slots(region_of(file_contents@, section_start, section_end, virtual_base_addr)),
        ),
{
    let ghost region = region_of(file_contents@, section_start, section_end, virtual_base_addr);
    let mut data_labels = HashMap::<u32, DataLabel>::new();
    let mut branch_labels = HashMap::<u32, String>::new();
    assert(branch_names(branch_labels@) =~= Map::empty());
    assert(data_views(data_labels@) =~= Map::empty());
    let mut i: u64 = section_start;
    let ghost mut k: nat = 0;
    while i < section_end && section_end - i >= 2
        invariant
            region == region_of(file_contents@, section_start, section_end, virtual_base_addr),
            region_ok(region),
            i == section_start + 2 * k,
            k <= slots(region),
            labels_of(data_labels@, branch_labels@) == labels_after(region, ranges@, k),
        decreases section_end - i,
    {
        let instr: u32 = fetch_instruction(file_contents, i, 0);
        let inside = infunc(i as u32, ranges);
        if inside.0 {
            let v_addr: u32 = (i + virtual_base_addr) as u32;
            match branch_target_of(v_addr, instr) {
                Some(target) => {
                    if target as u64 >= section_start + virtual_base_addr && (target as u64)
                        < section_end + virtual_base_addr {
                        add_label(target, &mut branch_labels);
                    }
                },
                None => {},
            }
            find_data_labels(v_addr, instr, &mut data_labels);
        }
        i += 2;
        proof {
            k = k + 1;
        }
    }
    (data_labels, branch_labels)
}

/// An empty listing for every function of `ranges`. Where two ranges start
/// at the same address the first one gives the entry.
pub fn new_function_table(ranges: &Vec<FunctionRange>, virtual_base_addr: u64) -> (funcs: BTreeMap<
    u32,
    DisassembledFunc,
>)
    ensures
        func_views(funcs@) == empty_table(ranges@, virtual_base_addr as int),
{
    let mut funcs = BTreeMap::<u32, DisassembledFunc>::new();
    let mut j: usize = 0;
    assert forall|first: u32| 0 <= #[trigger] first_with_start(ranges@, first, 0) by {
        lemma_first_with_start(ranges@, first, 0);
    }
    while j < ranges.len()
        invariant
            j <= ranges.len(),
            forall|first: u32|
                funcs@.contains_key(first) <==> first_with_start(ranges@, first, 0) < j,
            forall|first: u32| #[trigger]
                funcs@.contains_key(first) ==> funcs@[first]@ == empty_table(
                    ranges@,
                    virtual_base_addr as int,
                )[first],
        decreases ranges.len() - j,
    {
        let f = &ranges[j];
        let first: u32 = f.phys_start;
        proof {
            lemma_first_with_start(ranges@, first, 0);
            assert forall|other: u32| other != first implies first_with_start(ranges@, other, 0)
                != j by {
                lemma_first_with_start(ranges@, other, 0);
            }
        }
        if !funcs.contains_key(&first) {
            let virtual_addr: u32 = ((first as u64 + virtual_base_addr % 0x1_0000_0000)
                % 0x1_0000_0000) as u32;
            let mut name = String::from_str("f");
            push_hex(&mut name, virtual_addr as u64, 7);
            let func = DisassembledFunc {
                addr: f.phys_start,
                end: f.phys_end,
                text: String::new(),
                data: f.is_data,
                name,
                file: String::from_str("_"),
            };
            funcs.insert(first, func);
        }
        j += 1;
    }
    assert(func_views(funcs@) =~= empty_table(ranges@, virtual_base_addr as int));
    funcs
}

/// Adds `text` at the end of the listing of the function that starts at
/// `first`, if the table has such a function.
fn append_to_func(funcs: &mut BTreeMap<u32, DisassembledFunc>, first: u32, text: &str)
    ensures
        func_views(final(funcs)@) == if func_views(old(funcs)@).contains_key(first) {
            func_views(old(funcs)@).insert(
                first,
                with_more_text(func_views(old(funcs)@)[first], text@),
            )
        } else {
            func_views(old(funcs)@)
        },
{
    match funcs.remove(&first) {
        Some(func) => {
            let mut func = func;
            func.text.append(text);
            funcs.insert(first, func);
            assert(func_views(funcs@) =~= func_views(old(funcs)@).insert(
                first,
                with_more_text(func_views(old(funcs)@)[first], text@),
            ));
        },
        None => {
            assert(func_views(funcs@) =~= func_views(old(funcs)@));
        },
    }
}

/// The text of one slot that the second pass does not step over, and
/// whether the slot was written as a long, so that the next one is its
/// second half.
fn write_slot(
    file_contents: &Vec<u8>,
    section_end: u64,
    virtual_addr: u32,
    i: u32,
    instr: u32,
    inside: (bool, u32),
    owner_is_data: bool,
    data_labels: &HashMap<u32, DataLabel>,
    branch_labels: &HashMap<u32, String>,
    Ghost(region): Ghost<Region>,
    Ghost(ranges): Ghost<Seq<FunctionRange>>,
    Ghost(k): Ghost<int>,
) -> (written: (String, bool))
    requires
        region_ok(region),
        region.bytes == file_contents@,
        region.end == section_end,
        0 <= k < slots(region),
        i == slot_addr(region, k),
        virtual_addr == slot_vaddr(region, k),
        instr == slot_word(region, k),
        instr <= 0xffff,
        inside == crate::ranges::owner_pair(strict_owner(ranges, i)),
        owner_is_data == slot_in_data_range(region, ranges, k),
    ensures
        written.0@ == written_text(region, ranges, labels_of(data_labels@, branch_labels@), k),
        written.1 == slot_is_long(region, ranges, labels_of(data_labels@, branch_labels@), k),
{
    let ghost labels = labels_of(data_labels@, branch_labels@);
    let mut text = String::new();
    let mut skip_next = false;
    if inside.0 && i == inside.1 {
        push_entry_line(&mut text, virtual_addr);
    }
    let ghost opening = text@;
    assert(opening =~= if strict_owner(ranges, i) == Some(i) {
        entry_line(virtual_addr)
    } else {
        Seq::empty()
    });
    // a range of data is written word by word
    if owner_is_data {
        push_data_word_line(&mut text, virtual_addr, instr);
        return (text, false);
    }
    match branch_labels.get(&virtual_addr) {
        Some(value) => {
            text.append(value.as_str());
            text.append(":\n");
        },
        None => {},
    }
    let ghost labelled = text@;
    assert(labelled =~= opening + if labels.branch.contains_key(virtual_addr) {
        branch_label_line(labels.branch[virtual_addr])
    } else {
        Seq::empty()
    });
    let mut should_continue: bool = false;
    check_data_labels(
        virtual_addr,
        data_labels,
        &mut skip_next,
        &mut should_continue,
        file_contents,
        section_end,
        &mut text,
        i,
        instr as u16,
    );
    if should_continue {
        assert(text@ =~= written_text(region, ranges, labels, k));
        return (text, skip_next);
    }
    // only a slot inside a function is read as an instruction
    if inside.0 {
        let mut string = String::new();
        sh2_disasm(virtual_addr, instr, true, &mut string, data_labels, branch_labels);
        assert(string@ =~= decode_text(virtual_addr, instr, labels.data, labels.branch));
        push_instruction_line(&mut text, virtual_addr, instr, string.as_str());
    } else {
        push_data_word_line(&mut text, virtual_addr, instr);
    }
    assert(text@ =~= written_text(region, ranges, labels, k));
    (text, false)
}

/// The second pass: writes every slot of the region to the listing of the
/// function that owns it. A slot that no function owns is written nowhere.
pub fn write_listings(
    file_contents: &Vec<u8>,
    section_start: u64,
    section_end: u64,
    virtual_base_addr: u64,
    ranges: &Vec<FunctionRange>,
    data_labels: &HashMap<u32, DataLabel>,
    branch_labels: &HashMap<u32, String>,
    funcs: &mut BTreeMap<u32, DisassembledFunc>,
)
    requires
        region_ok(region_of(file_contents@, section_start, section_end, virtual_base_addr)),
        func_views(old(funcs)@) == empty_table(ranges@, virtual_base_addr as int),
    ensures
        func_views(final(funcs)@) == table_upto(
            region_of(file_contents@, section_start, section_end, virtual_base_addr),
            ranges@,
            labels_of(data_labels@, branch_labels@),
            slots(region_of(file_contents@, section_start, section_end, virtual_base_addr)),
        ),
{
    let ghost region = region_of(file_contents@, section_start, section_end, virtual_base_addr);
    let ghost labels = labels_of(data_labels@, branch_labels@);
    assert(func_views(funcs@) =~= table_upto(region, ranges@, labels, 0));
    let mut skip_next = false;
    let mut i: u64 = section_start;
    let ghost mut k: nat = 0;
    while i < section_end && section_end - i >= 2
        invariant
            region == region_of(file_contents@, section_start, section_end, virtual_base_addr),
            labels == labels_of(data_labels@, branch_labels@),
            region_ok(region),
            i == section_start + 2 * k,
            k <= slots(region),
            skip_next == slot_skipped(region, ranges@, labels, k),
            func_views(funcs@) == table_upto(region, ranges@, labels, k),
        decreases section_end - i,
    {
        let ghost before = func_views(funcs@);
        let instr: u32 = fetch_instruction(file_contents, i, 0);
        let virtual_addr: u32 = (i + virtual_base_addr) as u32;
        proof {
            lemma_owner_is_start(ranges@, i as u32);
        }
        if skip_next {
            skip_next = false;
        } else {
            let inside = infunc(i as u32, ranges);
            // the last function owns the data up to the end of the region
            let owner = infunc_extended(i as u32, ranges);
            proof {
                if owner.0 {
                    assert(before.contains_key(owner.1));
                    assert(before[owner.1] == funcs@[owner.1]@);
                    assert(before[owner.1].data == range_of_start(ranges@, owner.1).is_data);
                }
            }
            let owner_is_data = if owner.0 {
                match funcs.get(&owner.1) {
                    Some(func) => func.data,
                    None => false,
                }
            } else {
                false
            };
            let written = write_slot(
                file_contents,
                section_end,
                virtual_addr,
                i as u32,
                instr,
                inside,
                owner_is_data,
                data_labels,
                branch_labels,
                Ghost(region),
                Ghost(ranges@),
                Ghost(k as int),
            );
            if owner.0 {
                append_to_func(funcs, owner.1, written.0.as_str());
            }
            skip_next = written.1;
        }
        proof {
            let after = table_upto(region, ranges@, labels, k + 1);
            assert forall|first: u32| #[trigger] after.contains_key(first) implies func_views(
                funcs@,
            ).contains_key(first) && func_views(funcs@)[first] == after[first] by {
                assert(before.contains_key(first));
                assert(listing_upto(region, ranges@, labels, first, k + 1) =~= listing_upto(
                    region,
                    ranges@,
                    labels,
                    first,
                    k,
                ) + (if extended_owner(ranges@, slot_addr(region, k as int)) == Some(first) {
                    slot_text(region, ranges@, labels, k)
                } else {
                    Seq::empty()
                }));
            }
            assert(func_views(funcs@) =~= after);
            k = k + 1;
        }
        i += 2;
    }
}

/// The listings of the functions with the given ranges: both passes over
/// the region.
pub fn disassemble_ranges(
    file_contents: &Vec<u8>,
    section_start: u64,
    section_end: u64,
    virtual_base_addr: u64,
    ranges: &Vec<FunctionRange>,
) -> (funcs: BTreeMap<u32, DisassembledFunc>)
    requires
        region_ok(region_of(file_contents@, section_start, section_end, virtual_base_addr)),
    ensures
        func_views(funcs@) == listings(
            region_of(file_contents@, section_start, section_end, virtual_base_addr),
            ranges@,
        ),
{
    let found = collect_labels(
        file_contents,
        section_start,
        section_end,
        virtual_base_addr,
        ranges,
    );
    let data_labels = found.0;
    let branch_labels = found.1;
    // an empty listing for every function
    let mut disassembled_funcs = new_function_table(ranges, virtual_base_addr);
    write_listings(
        file_contents,
        section_start,
        section_end,
        virtual_base_addr,
        ranges,
        &data_labels,
        &branch_labels,
        &mut disassembled_funcs,
    );
    disassembled_funcs
}

/// Recovers the functions of the code region between `section_start` and
/// `section_end` and gives the listing of each, by start address.
pub fn handle_code_section(
    file_contents: &Vec<u8>,
    section_start: u64,
    section_end: u64,
    virtual_base_addr: u64,
) -> (funcs: BTreeMap<u32, DisassembledFunc>)
    requires
        region_ok(region_of(file_contents@, section_start, section_end, virtual_base_addr)),
    ensures
        func_views(funcs@) == disassembly(
            file_contents@,
            section_start as int,
            section_end as int,
            virtual_base_addr as int,
        ),
{
    let mut ranges = Vec::<FunctionRange>::new();
    find_funcs(file_contents, section_start, section_end, &mut ranges);
    assert(ranges@ =~= function_ranges(file_contents@, section_start as int, section_end as int));
    disassemble_ranges(file_contents, section_start, section_end, virtual_base_addr, &ranges)
}

/// What the functions of a region are: each is listed under its start, is
/// no data, starts two bytes or more into the region, holds at least a push
/// and the return with its following slot, and ends inside the region.
pub proof fn lemma_disassembly_entries(bytes: Seq<u8>, start: int, end: int, base: int)
    requires
        0 <= start,
        end <= u32::MAX,
    ensures
        forall|first: u32| #[trigger]
            disassembly(bytes, start, end, base).contains_key(first) ==> {
                let func = disassembly(bytes, start, end, base)[first];
                &&& func.addr == first
                &&& !func.data
                &&& start + 2 <= first
                &&& first + 4 <= func.end
                &&& func.end <= end
            },
{
    let ranges = function_ranges(bytes, start, end);
    crate::ranges::lemma_function_ranges_ordered(bytes, start, end);
    assert forall|first: u32| #[trigger]
        disassembly(bytes, start, end, base).contains_key(first) implies {
        let func = disassembly(bytes, start, end, base)[first];
        &&& func.addr == first
        &&& !func.data
        &&& start + 2 <= first
        &&& first + 4 <= func.end
        &&& func.end <= end
    } by {
        lemma_first_with_start(ranges, first, 0);
        let at = first_with_start(ranges, first, 0);
        assert(ranges[at].phys_start == first);
    }
}

/// Every branch label of the first pass carries the name generated for its
/// address, and a label once found is kept.
pub proof fn lemma_branch_labels_named(region: Region, ranges: Seq<FunctionRange>, k: nat, n: nat)
    requires
        k <= n,
    ensures
        forall|target: u32| #[trigger]
            labels_after(region, ranges, k).branch.contains_key(target) ==> labels_after(
                region,
                ranges,
                n,
            ).branch.contains_key(target),
        forall|target: u32| #[trigger]
            labels_after(region, ranges, n).branch.contains_key(target) ==> labels_after(
                region,
                ranges,
                n,
            ).branch[target] == branch_label_name(target),
    decreases n,
{
    if n > 0 {
        lemma_branch_labels_named(region, ranges, if k < n {
            k
        } else {
            (n - 1) as nat
        }, (n - 1) as nat);
        let before = labels_after(region, ranges, (n - 1) as nat).branch;
        let after = labels_after(region, ranges, n).branch;
        assert forall|target: u32| #[trigger] after.contains_key(target) implies after[target]
            == branch_label_name(target) by {
            if before.contains_key(target) {
                assert(before[target] == branch_label_name(target));
            }
        }
    }
}

/// Label substitution: a branch inside a function whose target lies in the
/// region is printed with the name of a label, not with a number, and the
/// slot at its target opens its body with the definition of that label.
pub proof fn lemma_branch_meets_its_label(
    region: Region,
    ranges: Seq<FunctionRange>,
    k: nat,
    j: nat,
)
    requires
        k < slots(region),
        j < slots(region),
        strict_owner(ranges, slot_addr(region, k as int)).is_some(),
        control_target(slot_vaddr(region, k as int), slot_word(region, k as int)) == Some(
            slot_vaddr(region, j as int),
        ),
        in_region(region, slot_vaddr(region, j as int)),
    ensures
        ({
            let labels = labels_after(region, ranges, slots(region));
            let target = slot_vaddr(region, j as int);
            let op = slot_word(region, k as int);
            &&& labels.branch.contains_key(target)
            &&& labels.branch[target] == branch_label_name(target)
            &&& decode_text(slot_vaddr(region, k as int), op, labels.data, labels.branch)
                == branch_mnemonic(op) + branch_label_name(target)
            &&& branch_label_line(branch_label_name(target)).is_prefix_of(
                slot_body(region, ranges, labels, j as int),
            )
        }),
{
    let labels = labels_after(region, ranges, slots(region));
    let target = slot_vaddr(region, j as int);
    let op = slot_word(region, k as int);
    let found = labels_after(region, ranges, k + 1);
    assert(found.branch.contains_key(target));
    lemma_branch_labels_named(region, ranges, k + 1, slots(region));
    lemma_branch_text(slot_vaddr(region, k as int), op, labels.data, labels.branch);
    assert(branch_operand(target, labels.branch) == branch_label_name(target));
}

/// The number of bytes of the region that the second pass accounts for when
/// it comes to the `k`-th slot: none where it steps over the slot, four
/// where it writes a long, two for anything else.
pub open spec fn slot_bytes(
    region: Region,
    ranges: Seq<FunctionRange>,
    labels: Labels,
    k: nat,
) -> nat {
    if slot_skipped(region, ranges, labels, k) {
        0
    } else if slot_is_long(region, ranges, labels, k as int) {
        4
    } else {
        2
    }
}

/// The number of bytes accounted for in the first `k` slots.
pub open spec fn bytes_upto(
    region: Region,
    ranges: Seq<FunctionRange>,
    labels: Labels,
    k: nat,
) -> nat
    decreases k,
{
    if k == 0 {
        0
    } else {
        bytes_upto(region, ranges, labels, (k - 1) as nat) + slot_bytes(
            region,
            ranges,
            labels,
            (k - 1) as nat,
        )
    }
}

/// After `k` slots the second pass has accounted for two bytes a slot, and
/// for two more if it is to step over the next one.
pub proof fn lemma_bytes_upto(region: Region, ranges: Seq<FunctionRange>, labels: Labels, k: nat)
    ensures
        bytes_upto(region, ranges, labels, k) == 2 * k + if slot_skipped(
            region,
            ranges,
            labels,
            k,
        ) {
            2nat
        } else {
            0nat
        },
    decreases k,
{
    if k > 0 {
        lemma_bytes_upto(region, ranges, labels, (k - 1) as nat);
    }
}

/// Data absorption: the second pass accounts for every byte of the slots of
/// a region once. A slot written as a long has a slot after it, which is
/// stepped over and gives no text; its own text ends with the one line of
/// the long.
pub proof fn lemma_every_byte_once(region: Region, ranges: Seq<FunctionRange>, labels: Labels)
    ensures
        bytes_upto(region, ranges, labels, slots(region)) == 2 * slots(region),
        forall|k: nat|
            k < slots(region) && !slot_skipped(region, ranges, labels, k)
                && #[trigger] slot_is_long(region, ranges, labels, k as int) ==> {
                &&& k + 1 < slots(region)
                &&& slot_skipped(region, ranges, labels, k + 1)
                &&& slot_text(region, ranges, labels, k + 1) == Seq::<char>::empty()
                &&& slot_body(region, ranges, labels, k as int) == (if labels.branch.contains_key(
                    slot_vaddr(region, k as int),
                ) {
                    branch_label_line(labels.branch[slot_vaddr(region, k as int)])
                } else {
                    Seq::empty()
                }) + (data_label_line(labels.data[slot_vaddr(region, k as int)]) + long_line(
                    slot_vaddr(region, k as int),
                    long_at(region.bytes, region.start + 2 * k),
                ))
            },
{
    lemma_bytes_upto(region, ranges, labels, slots(region));
    let n = slots(region);
    if n > 0 {
        assert(!slot_is_long(region, ranges, labels, n - 1));
    }
    assert forall|k: nat|
        k < slots(region) && !slot_skipped(region, ranges, labels, k) && #[trigger] slot_is_long(
            region,
            ranges,
            labels,
            k as int,
        ) implies k + 1 < slots(region) && slot_skipped(region, ranges, labels, k + 1) by {
        assert(region.start + 2 * k + 4 <= region.end);
        assert(slot_skipped(region, ranges, labels, k + 1) == (!slot_skipped(
            region,
            ranges,
            labels,
            k,
        ) && slot_is_long(region, ranges, labels, k as int)));
    }
}

/// Every data label of the first pass reads 2 or 4 bytes and carries the
/// name generated for its address; one of 4 bytes lies on a multiple of
/// four.
pub proof fn lemma_data_labels_sized(region: Region, ranges: Seq<FunctionRange>, n: nat)
    ensures
        forall|target: u32| #[trigger]
            labels_after(region, ranges, n).data.contains_key(target) ==> {
                let label = labels_after(region, ranges, n).data[target];
                &&& label.size == 2 || label.size == 4
                &&& label.label == crate::labels::data_label_name(target)
                &&& label.size == 4 ==> target % 4 == 0
            },
    decreases n,
{
    if n > 0 {
        lemma_data_labels_sized(region, ranges, (n - 1) as nat);
        let before = labels_after(region, ranges, (n - 1) as nat).data;
        let after = labels_after(region, ranges, n).data;
        let vaddr = slot_vaddr(region, n - 1);
        let op = slot_word(region, n - 1);
        let base = crate::operands::long_load_base(vaddr, op);
        assert((base & 0xffff_fffc) % 4 == 0) by (bit_vector);
        assert forall|target: u32| #[trigger] after.contains_key(target) implies {
            let label = after[target];
            &&& label.size == 2 || label.size == 4
            &&& label.label == crate::labels::data_label_name(target)
            &&& label.size == 4 ==> target % 4 == 0
        } by {
            if before.contains_key(target) {
                assert(before[target].size == 2 || before[target].size == 4);
            }
        }
    }
}

} // verus!
