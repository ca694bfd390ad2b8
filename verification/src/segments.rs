//! The segment partitioner: walks the subsegments that the description
//! names and turns each into a processed section, a listing of raw words for
//! data and one listing per function for code.

use crate::config::{declared_as_data, is_data_kind, subsegments_of, Segment, Subsegment};
use crate::listing::{
    data_word_line, disassembly, func_views, handle_code_section, DisassembledFunc,
    DisassembledFuncView,
};
use crate::ranges::{fetch_instruction, slot_count, word_at};
use crate::text::push_hex;
use std::collections::BTreeMap;
use vstd::prelude::*;
use vstd::string::*;

verus! {

/// What became of one subsegment.
pub struct ProcessedSection {
    /// Whether the subsegment was taken as code.
    pub is_code: bool,
    /// The functions of a code subsegment, by start address.
    pub disassembled_funcs: BTreeMap<u32, DisassembledFunc>,
    /// The listing of a data subsegment.
    pub data: String,
    /// The offset of the subsegment in the binary.
    pub addr: u64,
    /// The virtual address of the subsegment.
    pub vaddr: u64,
    /// The virtual address of offset zero.
    pub vbase: u64,
}

/// What a [`ProcessedSection`] holds, with its texts as sequences of
/// characters.
pub struct ProcessedSectionView {
    pub is_code: bool,
    pub funcs: Map<u32, DisassembledFuncView>,
    pub data: Seq<char>,
    pub addr: u64,
    pub vaddr: u64,
    pub vbase: u64,
}

impl View for ProcessedSection {
    type V = ProcessedSectionView;

    open spec fn view(&self) -> ProcessedSectionView {
        ProcessedSectionView {
            is_code: self.is_code,
            funcs: func_views(self.disassembled_funcs@),
            data: self.data@,
            addr: self.addr,
            vaddr: self.vaddr,
            vbase: self.vbase,
        }
    }
}

/// Whether a subsegment can be processed: its virtual addresses fit in 32
/// bits and, unless it is empty, it lies inside a binary of `len` bytes.
pub open spec fn subsegment_ok(len: nat, subsegment: Subsegment, vram: u64) -> bool {
    &&& subsegment.start + vram <= u32::MAX
    &&& subsegment.start < subsegment.end ==> subsegment.end <= len && subsegment.end + vram
        <= u32::MAX
}

/// The listing of the first `k` slots of a data subsegment: one raw word
/// with its virtual address on each line.
pub open spec fn data_words_upto(bytes: Seq<u8>, start: int, base: int, k: nat) -> Seq<char>
    decreases k,
{
    if k == 0 {
        Seq::empty()
    } else {
        data_words_upto(bytes, start, base, (k - 1) as nat) + data_word_line(
            (start + 2 * (k - 1) + base) as u32,
            word_at(bytes, start + 2 * (k - 1)),
        )
    }
}

/// The listing of a data subsegment.
pub open spec fn data_words(bytes: Seq<u8>, start: int, end: int, base: int) -> Seq<char> {
    data_words_upto(bytes, start, base, slot_count(start, end))
}

/// The processed section of a subsegment.
pub open spec fn processed(
    bytes: Seq<u8>,
    subsegment: Subsegment,
    vram: u64,
) -> ProcessedSectionView {
    if is_data_kind(subsegment) {
        ProcessedSectionView {
            is_code: false,
            funcs: Map::empty(),
            data: data_words(bytes, subsegment.start as int, subsegment.end as int, vram as int),
            addr: subsegment.start,
            vaddr: (subsegment.start + vram) as u64,
            vbase: vram,
        }
    } else {
        ProcessedSectionView {
            is_code: true,
            funcs: disassembly(bytes, subsegment.start as int, subsegment.end as int, vram as int),
            data: Seq::empty(),
            addr: subsegment.start,
            vaddr: (subsegment.start + vram) as u64,
            vbase: vram,
        }
    }
}

/// Whether every subsegment of a segment can be processed.
pub open spec fn segment_ok(len: nat, segment: Segment) -> bool {
    forall|j: int|
        0 <= j < subsegments_of(segment).len() ==> subsegment_ok(
            len,
            #[trigger] subsegments_of(segment)[j],
            segment.vram,
        )
}

/// The contents of each processed section of a list.
pub open spec fn section_views(sections: Seq<ProcessedSection>) -> Seq<ProcessedSectionView> {
    Seq::new(sections.len(), |i: int| sections[i]@)
}

/// The processed sections of a segment: one for each of its subsegments, in
/// order.
pub open spec fn processed_segment(bytes: Seq<u8>, segment: Segment) -> Seq<ProcessedSectionView> {
    Seq::new(
        subsegments_of(segment).len(),
        |j: int| processed(bytes, subsegments_of(segment)[j], segment.vram),
    )
}

/// Tells whether a subsegment can be processed.
pub fn subsegment_fits(len: usize, subsegment: &Subsegment, vram: u64) -> (fits: bool)
    ensures
        fits == subsegment_ok(len as nat, *subsegment, vram),
{
    let limit: u64 = 0xffff_ffff;
    if vram > limit || subsegment.start > limit - vram {
        return false;
    }
    if subsegment.start < subsegment.end {
        subsegment.end <= limit - vram && subsegment.end <= len as u64
    } else {
        true
    }
}

/// The listing of a data subsegment: every slot as a raw word.
pub fn render_data_words(file_contents: &Vec<u8>, start: u64, end: u64, vram: u64) -> (text: String)
    requires
        start < end ==> end <= file_contents@.len() && end + vram <= u32::MAX,
    ensures
        text@ == data_words(file_contents@, start as int, end as int, vram as int),
{
    let mut data_str = String::new();
    let mut i: u64 = start;
    let ghost mut k: nat = 0;
    while i < end && end - i >= 2
        invariant
            start < end ==> end <= file_contents@.len() && end + vram <= u32::MAX,
            i == start + 2 * k,
            k <= slot_count(start as int, end as int),
            data_str@ == data_words_upto(file_contents@, start as int, vram as int, k),
        decreases end - i,
    {
        let data: u32 = fetch_instruction(file_contents, i, 0);
        let ghost before = data_str@;
        data_str.append("/* 0x");
        push_hex(&mut data_str, i + vram, 8);
        data_str.append(" */ .word 0x");
        push_hex(&mut data_str, data as u64, 4);
        data_str.append("\n");
        assert(data_str@ =~= before + data_word_line((i + vram) as u32, data));
        i += 2;
        proof {
            k = k + 1;
        }
    }
    data_str
}

/// Processes one subsegment: a data subsegment is listed word by word, any
/// other is taken apart as code.
pub fn process_subsegment(file_contents: &Vec<u8>, subsegment: &Subsegment, vram: u64) -> (section:
    ProcessedSection)
    requires
        subsegment_ok(file_contents@.len(), *subsegment, vram),
    ensures
        section@ == processed(file_contents@, *subsegment, vram),
{
    let subsegment_start: u64 = subsegment.start;
    let subsegment_end: u64 = subsegment.end;
    if declared_as_data(subsegment) {
        let data_str = render_data_words(file_contents, subsegment_start, subsegment_end, vram);
        let funcs = BTreeMap::<u32, DisassembledFunc>::new();
        assert(func_views(funcs@) =~= Map::empty());
        ProcessedSection {
            is_code: false,
            disassembled_funcs: funcs,
            data: data_str,
            addr: subsegment_start,
            vaddr: subsegment_start + vram,
            vbase: vram,
        }
    } else {
        let disassembled_funcs = handle_code_section(
            file_contents,
            subsegment_start,
            subsegment_end,
            vram,
        );
        ProcessedSection {
            is_code: true,
            disassembled_funcs,
            data: String::new(),
            addr: subsegment_start,
            vaddr: subsegment_start + vram,
            vbase: vram,
        }
    }
}

/// Processes every subsegment of a segment, in order. Gives nothing if one
/// of them cannot be processed: if it reaches beyond the binary, or beyond
/// the 32-bit address space.
pub fn process_segment(file_contents: &Vec<u8>, segment: &Segment) -> (sections: Option<
    Vec<ProcessedSection>,
>)
    ensures
        match sections {
            Some(list) => {
                &&& segment_ok(file_contents@.len(), *segment)
                &&& section_views(list@) == processed_segment(file_contents@, *segment)
            },
            None => !segment_ok(file_contents@.len(), *segment),
        },
{
    let mut processed_sections = Vec::<ProcessedSection>::new();
    match &segment.subsegments {
        Some(subsegments) => {
            let mut j: usize = 0;
            while j < subsegments.len()
                invariant
                    j <= subsegments.len(),
                    subsegments@ == subsegments_of(*segment),
                    processed_sections@.len() == j,
                    forall|i: int|
                        0 <= i < j ==> subsegment_ok(
                            file_contents@.len(),
                            #[trigger] subsegments@[i],
                            segment.vram,
                        ),
                    forall|i: int|
                        0 <= i < j ==> (#[trigger] processed_sections@[i])@ == processed(
                            file_contents@,
                            subsegments@[i],
                            segment.vram,
                        ),
                decreases subsegments.len() - j,
            {
                let subsegment = &subsegments[j];
                if !subsegment_fits(file_contents.len(), subsegment, segment.vram) {
                    return None;
                }
                let section = process_subsegment(file_contents, subsegment, segment.vram);
                processed_sections.push(section);
                j += 1;
            }
        },
        None => {},
    }
    assert(section_views(processed_sections@) =~= processed_segment(file_contents@, *segment));
    Some(processed_sections)
}

} // verus!
