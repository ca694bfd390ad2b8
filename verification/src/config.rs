//! The description of a binary that the engine is run on: where its segments
//! lie, which parts of them are code, and where the output goes.

use vstd::prelude::*;

verus! {

/// Paths and switches that hold for the whole run.
pub struct Options {
    /// The binary to take apart.
    pub target_path: String,
    /// The directory for assembly listings.
    pub asm_path: String,
    /// The directory for linker scripts.
    pub ld_scripts_path: String,
    /// The directory for symbol files.
    pub syms_path: String,
    /// The directory of the handwritten source.
    pub src_path: String,
    /// Whether a function of exactly eight bytes is written as an empty
    /// function instead of being included as assembly.
    pub decomp_empty_funcs: bool,
}

/// A part of a segment that is all code or all data.
pub struct Subsegment {
    /// The offset of its first byte in the binary.
    pub start: u64,
    /// The offset after its last byte.
    pub end: u64,
    /// Its kind: `data`, or anything else for code.
    pub segment_type: Option<String>,
    /// The name of the source file that stands for it, without its ending.
    pub file: Option<String>,
}

/// A stretch of the binary that is loaded at one virtual address.
pub struct Segment {
    pub name: String,
    pub segment_type: String,
    pub start: u64,
    pub subsegments: Option<Vec<Subsegment>>,
    /// The virtual address of offset zero of the binary.
    pub vram: u64,
}

/// The whole description.
pub struct Config {
    pub options: Options,
    pub segments: Option<Vec<Segment>>,
}

/// The subsegments of a segment; none where the list is left out.
pub open spec fn subsegments_of(segment: Segment) -> Seq<Subsegment> {
    match segment.subsegments {
        Some(list) => list@,
        None => Seq::empty(),
    }
}

/// The segments of a description; none where the list is left out.
pub open spec fn segments_of(config: Config) -> Seq<Segment> {
    match config.segments {
        Some(list) => list@,
        None => Seq::empty(),
    }
}

/// Whether the subsegment is declared as data.
pub open spec fn is_data_kind(subsegment: Subsegment) -> bool {
    match subsegment.segment_type {
        Some(kind) => kind@ == "data"@,
        None => false,
    }
}

/// Tells whether the subsegment is declared as data.
pub fn declared_as_data(subsegment: &Subsegment) -> (data: bool)
    ensures
        data == is_data_kind(*subsegment),
{
    match &subsegment.segment_type {
        Some(kind) => {
            let wanted = String::from_str("data");
            *kind == wanted
        },
        None => false,
    }
}

} // verus!
