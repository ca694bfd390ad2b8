//! A listing as a row of lines, and the slots of the region that each line
//! stands for.
//!
//! The text of a listing is its lines one after the other. A line that
//! opens a function or defines a label stands for no slot, a long for two,
//! any other line for one. Counted so, the lines of all listings of a
//! region stand for every slot from the first function on, once.

use crate::decode::decode_text;
use crate::labels::DataLabelView;
use crate::listing::{
    branch_label_line, data_label_line, data_word_line, disassembly, entry_line,
    instruction_line, labelled_data_text, labels_after, lemma_data_labels_sized,
    lemma_first_with_start, lemma_owner_is_start, listing_upto, long_at, long_line, region_ok,
    first_with_start, slot_addr, slot_body, slot_bytes, slot_in_data_range, slot_is_long,
    slot_skipped, slot_text, slot_vaddr, slot_word, slots, word_line, written_text, Labels,
    Region,
};
use crate::ranges::{
    extended_owner, first_containing, first_gap, function_ranges, lemma_function_ranges_ordered,
    strict_owner, FunctionRange,
};
use vstd::prelude::*;

verus! {

/// One line of a listing.
pub enum Line {
    /// The line that opens a function.
    Entry { vaddr: u32 },
    /// The definition of a branch label.
    BranchLabel { name: Seq<char> },
    /// The definition of a data label.
    DataLabel { label: DataLabelView },
    /// A word of labelled data.
    Word { word: u32 },
    /// A long of labelled data.
    Long { vaddr: u32, value: u32 },
    /// An instruction.
    Instruction { vaddr: u32, word: u32, mnemonic: Seq<char> },
    /// A raw word.
    RawWord { vaddr: u32, word: u32 },
}

/// The text of a line, with the line feed at its end.
pub open spec fn render(line: Line) -> Seq<char> {
    match line {
        Line::Entry { vaddr } => entry_line(vaddr),
        Line::BranchLabel { name } => branch_label_line(name),
        Line::DataLabel { label } => data_label_line(label),
        Line::Word { word } => word_line(word),
        Line::Long { vaddr, value } => long_line(vaddr, value),
        Line::Instruction { vaddr, word, mnemonic } => instruction_line(vaddr, word, mnemonic),
        Line::RawWord { vaddr, word } => data_word_line(vaddr, word),
    }
}

/// The number of two-byte slots that a line stands for.
pub open spec fn slots_of(line: Line) -> nat {
    match line {
        Line::Entry { .. } => 0,
        Line::BranchLabel { .. } => 0,
        Line::DataLabel { .. } => 0,
        Line::Long { .. } => 2,
        Line::Word { .. } => 1,
        Line::Instruction { .. } => 1,
        Line::RawWord { .. } => 1,
    }
}

/// The text of a row of lines.
pub open spec fn render_all(lines: Seq<Line>) -> Seq<char>
    decreases lines.len(),
{
    if lines.len() == 0 {
        Seq::empty()
    } else {
        render_all(lines.drop_last()) + render(lines.last())
    }
}

/// The number of slots that a row of lines stands for.
pub open spec fn slots_of_all(lines: Seq<Line>) -> nat
    decreases lines.len(),
{
    if lines.len() == 0 {
        0
    } else {
        slots_of_all(lines.drop_last()) + slots_of(lines.last())
    }
}

/// The lines for a slot that carries a data label.
pub open spec fn labelled_lines(region: Region, label: DataLabelView, k: int) -> Seq<Line> {
    seq![Line::DataLabel { label }] + if label.size == 2 {
        seq![Line::Word { word: slot_word(region, k) }]
    } else if label.size == 4 {
        if region.start + 2 * k + 4 <= region.end {
            seq![
                Line::Long {
                    vaddr: slot_vaddr(region, k),
                    value: long_at(region.bytes, region.start + 2 * k),
                },
            ]
        } else {
            seq![Line::Word { word: slot_word(region, k) }]
        }
    } else {
        Seq::empty()
    }
}

/// The lines of the body of a slot outside the data ranges.
pub open spec fn body_lines(
    region: Region,
    ranges: Seq<FunctionRange>,
    labels: Labels,
    k: int,
) -> Seq<Line> {
    let vaddr = slot_vaddr(region, k);
    let word = slot_word(region, k);
    let inside = strict_owner(ranges, slot_addr(region, k)).is_some();
    (if labels.branch.contains_key(vaddr) {
        seq![Line::BranchLabel { name: labels.branch[vaddr] }]
    } else {
        Seq::empty()
    }) + (if labels.data.contains_key(vaddr) {
        labelled_lines(region, labels.data[vaddr], k)
    } else if inside {
        seq![
            Line::Instruction {
                vaddr,
                word,
                mnemonic: decode_text(vaddr, word, labels.data, labels.branch),
            },
        ]
    } else {
        seq![Line::RawWord { vaddr, word }]
    })
}

/// The lines of a slot that the second pass does not step over.
pub open spec fn written_lines(
    region: Region,
    ranges: Seq<FunctionRange>,
    labels: Labels,
    k: int,
) -> Seq<Line> {
    let vaddr = slot_vaddr(region, k);
    (if strict_owner(ranges, slot_addr(region, k)) == Some(slot_addr(region, k)) {
        seq![Line::Entry { vaddr }]
    } else {
        Seq::empty()
    }) + (if slot_in_data_range(region, ranges, k) {
        seq![Line::RawWord { vaddr, word: slot_word(region, k) }]
    } else {
        body_lines(region, ranges, labels, k)
    })
}

/// The lines that the second pass writes for a slot: none for a slot that
/// it steps over.
pub open spec fn slot_lines(
    region: Region,
    ranges: Seq<FunctionRange>,
    labels: Labels,
    k: nat,
) -> Seq<Line> {
    if slot_skipped(region, ranges, labels, k) {
        Seq::empty()
    } else {
        written_lines(region, ranges, labels, k as int)
    }
}

/// The lines of the listing of the function that starts at `first`, after
/// the second pass has written the first `k` slots.
pub open spec fn listing_lines_upto(
    region: Region,
    ranges: Seq<FunctionRange>,
    labels: Labels,
    first: u32,
    k: nat,
) -> Seq<Line>
    decreases k,
{
    if k == 0 {
        Seq::empty()
    } else {
        listing_lines_upto(region, ranges, labels, first, (k - 1) as nat) + (if extended_owner(
            ranges,
            slot_addr(region, k - 1),
        ) == Some(first) {
            slot_lines(region, ranges, labels, (k - 1) as nat)
        } else {
            Seq::empty()
        })
    }
}

/// The number of slots that the lines of the listings of the first `m`
/// ranges stand for, after the second pass has written the first `k` slots.
pub open spec fn listed_slots(
    region: Region,
    ranges: Seq<FunctionRange>,
    labels: Labels,
    m: nat,
    k: nat,
) -> nat
    decreases m,
{
    if m == 0 {
        0
    } else {
        listed_slots(region, ranges, labels, (m - 1) as nat, k) + slots_of_all(
            listing_lines_upto(region, ranges, labels, ranges[m - 1].phys_start, k),
        )
    }
}

/// The text of two rows of lines, one after the other, is the text of the
/// first and then that of the second; and so for the slots they stand for.
pub proof fn lemma_rows_add(a: Seq<Line>, b: Seq<Line>)
    ensures
        render_all(a + b) == render_all(a) + render_all(b),
        slots_of_all(a + b) == slots_of_all(a) + slots_of_all(b),
    decreases b.len(),
{
    if b.len() == 0 {
        assert(a + b =~= a);
        assert(render_all(a) + render_all(b) =~= render_all(a));
    } else {
        lemma_rows_add(a, b.drop_last());
        assert((a + b).drop_last() =~= a + b.drop_last());
        assert((a + b).last() == b.last());
        assert(render_all(a + b) =~= render_all(a) + render_all(b));
    }
}

/// A row of one line has the text of that line and stands for its slots.
pub proof fn lemma_row_of_one(line: Line)
    ensures
        render_all(seq![line]) == render(line),
        slots_of_all(seq![line]) == slots_of(line),
{
    let none = Seq::<Line>::empty();
    assert(seq![line].drop_last() =~= none);
    assert(seq![line].last() == line);
    assert(render_all(none) =~= Seq::<char>::empty());
    assert(slots_of_all(none) == 0);
    assert(render_all(seq![line]) =~= render(line));
}

/// The lines of labelled data have the text of the labelled data. They
/// stand for two slots where a long is written, for one where a word is.
proof fn lemma_labelled_lines(region: Region, label: DataLabelView, k: int)
    ensures
        render_all(labelled_lines(region, label, k)) == labelled_data_text(region, label, k),
        slots_of_all(labelled_lines(region, label, k)) == (if label.size == 2 {
            1nat
        } else if label.size == 4 {
            if region.start + 2 * k + 4 <= region.end {
                2nat
            } else {
                1nat
            }
        } else {
            0nat
        }),
{
    let head = seq![Line::DataLabel { label }];
    let word = Line::Word { word: slot_word(region, k) };
    let long = Line::Long {
        vaddr: slot_vaddr(region, k),
        value: long_at(region.bytes, region.start + 2 * k),
    };
    lemma_row_of_one(Line::DataLabel { label });
    lemma_row_of_one(word);
    lemma_row_of_one(long);
    lemma_rows_add(head, seq![word]);
    lemma_rows_add(head, seq![long]);
    lemma_rows_add(head, Seq::empty());
    assert(render_all(head) + Seq::<char>::empty() =~= render_all(head));
}

/// The lines of a slot that is written have the text of the slot. They
/// stand for one slot, or for as many as the lines of its labelled data.
proof fn lemma_written_lines(region: Region, ranges: Seq<FunctionRange>, labels: Labels, k: int)
    ensures
        render_all(written_lines(region, ranges, labels, k)) == written_text(
            region,
            ranges,
            labels,
            k,
        ),
        slots_of_all(written_lines(region, ranges, labels, k)) == (if slot_in_data_range(
            region,
            ranges,
            k,
        ) || !labels.data.contains_key(slot_vaddr(region, k)) {
            1nat
        } else {
            slots_of_all(labelled_lines(region, labels.data[slot_vaddr(region, k)], k))
        }),
{
    let vaddr = slot_vaddr(region, k);
    let word = slot_word(region, k);
    let entry = Line::Entry { vaddr };
    let raw = Line::RawWord { vaddr, word };
    let opening = if strict_owner(ranges, slot_addr(region, k)) == Some(slot_addr(region, k)) {
        seq![entry]
    } else {
        Seq::empty()
    };
    lemma_row_of_one(entry);
    lemma_row_of_one(raw);
    if slot_in_data_range(region, ranges, k) {
        lemma_rows_add(opening, seq![raw]);
    } else {
        let name = Line::BranchLabel { name: labels.branch[vaddr] };
        let instruction = Line::Instruction {
            vaddr,
            word,
            mnemonic: decode_text(vaddr, word, labels.data, labels.branch),
        };
        let label = if labels.branch.contains_key(vaddr) {
            seq![name]
        } else {
            Seq::empty()
        };
        let rest = if labels.data.contains_key(vaddr) {
            labelled_lines(region, labels.data[vaddr], k)
        } else if strict_owner(ranges, slot_addr(region, k)).is_some() {
            seq![instruction]
        } else {
            seq![raw]
        };
        lemma_row_of_one(name);
        lemma_row_of_one(instruction);
        if labels.data.contains_key(vaddr) {
            lemma_labelled_lines(region, labels.data[vaddr], k);
        }
        lemma_rows_add(label, rest);
        assert(body_lines(region, ranges, labels, k) == label + rest);
        assert(render_all(label + rest) == slot_body(region, ranges, labels, k));
        lemma_rows_add(opening, label + rest);
    }
}

/// The text of a listing is the text of its lines.
pub proof fn lemma_listing_is_its_lines(
    region: Region,
    ranges: Seq<FunctionRange>,
    labels: Labels,
    first: u32,
    k: nat,
)
    ensures
        listing_upto(region, ranges, labels, first, k) == render_all(
            listing_lines_upto(region, ranges, labels, first, k),
        ),
    decreases k,
{
    if k > 0 {
        lemma_listing_is_its_lines(region, ranges, labels, first, (k - 1) as nat);
        let before = listing_lines_upto(region, ranges, labels, first, (k - 1) as nat);
        let more = if extended_owner(ranges, slot_addr(region, k - 1)) == Some(first) {
            slot_lines(region, ranges, labels, (k - 1) as nat)
        } else {
            Seq::empty()
        };
        lemma_rows_add(before, more);
        lemma_written_lines(region, ranges, labels, k - 1);
        assert(render_all(slot_lines(region, ranges, labels, (k - 1) as nat)) == slot_text(
            region,
            ranges,
            labels,
            (k - 1) as nat,
        ));
    }
}

/// The place in the list of the range to whose listing a slot is written;
/// the number of ranges for a slot that no function owns.
pub open spec fn owner_index(region: Region, ranges: Seq<FunctionRange>, k: int) -> int {
    match extended_owner(ranges, slot_addr(region, k)) {
        Some(first) => first_with_start(ranges, first, 0),
        None => ranges.len() as int,
    }
}

/// Whether no two ranges start at the same address.
pub open spec fn distinct_starts(ranges: Seq<FunctionRange>) -> bool {
    forall|i: int, j: int|
        0 <= i < j < ranges.len() ==> (#[trigger] ranges[i]).phys_start != (
        #[trigger] ranges[j]).phys_start
}

/// The number of slots that the lines written for the first `k` slots stand
/// for. A slot that no function owns is written nowhere.
pub open spec fn written_slots_upto(
    region: Region,
    ranges: Seq<FunctionRange>,
    labels: Labels,
    k: nat,
) -> nat
    decreases k,
{
    if k == 0 {
        0
    } else {
        written_slots_upto(region, ranges, labels, (k - 1) as nat) + if extended_owner(
            ranges,
            slot_addr(region, k - 1),
        ).is_some() {
            slots_of_all(slot_lines(region, ranges, labels, (k - 1) as nat))
        } else {
            0
        }
    }
}

/// Before the second pass the listings hold no line.
proof fn lemma_listed_nothing(region: Region, ranges: Seq<FunctionRange>, labels: Labels, m: nat)
    ensures
        listed_slots(region, ranges, labels, m, 0) == 0,
    decreases m,
{
    if m > 0 {
        lemma_listed_nothing(region, ranges, labels, (m - 1) as nat);
    }
}

/// The lines of one more slot come into the listing of its owner alone.
proof fn lemma_listed_step(
    region: Region,
    ranges: Seq<FunctionRange>,
    labels: Labels,
    m: nat,
    k: nat,
)
    requires
        m <= ranges.len(),
        distinct_starts(ranges),
    ensures
        listed_slots(region, ranges, labels, m, k + 1) == listed_slots(region, ranges, labels, m, k)
            + if owner_index(region, ranges, k as int) < m {
            slots_of_all(slot_lines(region, ranges, labels, k))
        } else {
            0
        },
    decreases m,
{
    let owner = extended_owner(ranges, slot_addr(region, k as int));
    lemma_owner_is_start(ranges, slot_addr(region, k as int));
    match owner {
        Some(other) => {
            lemma_first_with_start(ranges, other, 0);
        },
        None => {},
    }
    if m > 0 {
        lemma_listed_step(region, ranges, labels, (m - 1) as nat, k);
        let first = ranges[m - 1].phys_start;
        lemma_first_with_start(ranges, first, 0);
        assert(first_with_start(ranges, first, 0) == m - 1);
        let before = listing_lines_upto(region, ranges, labels, first, k);
        let more = if owner == Some(first) {
            slot_lines(region, ranges, labels, k)
        } else {
            Seq::empty()
        };
        lemma_rows_add(before, more);
        assert(listing_lines_upto(region, ranges, labels, first, k + 1) == before + more);
        assert(slots_of_all(Seq::<Line>::empty()) == 0);
    }
}

/// The lines of all listings stand for as many slots as the lines written
/// slot by slot.
proof fn lemma_listed_is_written(
    region: Region,
    ranges: Seq<FunctionRange>,
    labels: Labels,
    k: nat,
)
    requires
        distinct_starts(ranges),
    ensures
        listed_slots(region, ranges, labels, ranges.len(), k) == written_slots_upto(
            region,
            ranges,
            labels,
            k,
        ),
    decreases k,
{
    if k == 0 {
        lemma_listed_nothing(region, ranges, labels, ranges.len());
    } else {
        lemma_listed_is_written(region, ranges, labels, (k - 1) as nat);
        lemma_listed_step(region, ranges, labels, ranges.len(), (k - 1) as nat);
        lemma_owner_is_start(ranges, slot_addr(region, k - 1));
        match extended_owner(ranges, slot_addr(region, k - 1)) {
            Some(first) => {
                lemma_first_with_start(ranges, first, 0);
            },
            None => {},
        }
    }
}

/// The lines of a slot stand for half as many slots as the second pass
/// accounts bytes for, where every data label reads 2 or 4 bytes.
proof fn lemma_slot_lines(region: Region, ranges: Seq<FunctionRange>, labels: Labels, k: nat)
    requires
        forall|target: u32| #[trigger]
            labels.data.contains_key(target) ==> labels.data[target].size == 2
                || labels.data[target].size == 4,
    ensures
        2 * slots_of_all(slot_lines(region, ranges, labels, k)) == slot_bytes(
            region,
            ranges,
            labels,
            k,
        ),
{
    lemma_written_lines(region, ranges, labels, k as int);
    let vaddr = slot_vaddr(region, k as int);
    if labels.data.contains_key(vaddr) {
        lemma_labelled_lines(region, labels.data[vaddr], k as int);
    }
    assert(slots_of_all(Seq::<Line>::empty()) == 0);
}

/// Where the functions own every slot from the `from`-th on and none before
/// it, and the second pass does not step over that slot, the lines written
/// for the first `k` slots stand for every slot from there on once, and for
/// one more if the pass is to step over the next.
proof fn lemma_written_slots(
    region: Region,
    ranges: Seq<FunctionRange>,
    labels: Labels,
    from: nat,
    k: nat,
)
    requires
        forall|target: u32| #[trigger]
            labels.data.contains_key(target) ==> labels.data[target].size == 2
                || labels.data[target].size == 4,
        forall|i: int|
            0 <= i < k ==> ((#[trigger] extended_owner(ranges, slot_addr(region, i))).is_some()
                <==> from <= i),
        !slot_skipped(region, ranges, labels, from),
    ensures
        written_slots_upto(region, ranges, labels, k) == if k <= from {
            0
        } else {
            k - from + if slot_skipped(region, ranges, labels, k) {
                1int
            } else {
                0int
            }
        },
    decreases k,
{
    if k > 0 {
        lemma_written_slots(region, ranges, labels, from, (k - 1) as nat);
        lemma_slot_lines(region, ranges, labels, (k - 1) as nat);
        assert(extended_owner(ranges, slot_addr(region, k - 1)).is_some() <==> from <= k - 1);
    }
}

/// A slot at or above the start of some range that lies below the start of
/// the range at `upto` falls into a gap between two starts.
proof fn lemma_gap_exists(ranges: Seq<FunctionRange>, addr: u32, upto: int)
    requires
        0 <= upto < ranges.len(),
        ranges[0].phys_start <= addr < ranges[upto].phys_start,
    ensures
        first_gap(ranges, addr, 0) < ranges.len(),
    decreases upto,
{
    if ranges[upto - 1].phys_start <= addr {
        lemma_gap_found(ranges, addr, 0, upto - 1);
    } else {
        lemma_gap_exists(ranges, addr, upto - 1);
    }
}

/// The search for a gap ends at or before a gap that is there.
proof fn lemma_gap_found(ranges: Seq<FunctionRange>, addr: u32, from: int, at: int)
    requires
        0 <= from <= at,
        at + 1 < ranges.len(),
        ranges[at].phys_start <= addr < ranges[at + 1].phys_start,
    ensures
        first_gap(ranges, addr, from) <= at,
    decreases at - from,
{
    if from < at && !(ranges[from].phys_start <= addr < ranges[from + 1].phys_start) {
        lemma_gap_found(ranges, addr, from + 1, at);
    }
}

/// Below every start nothing is found.
proof fn lemma_nothing_below(ranges: Seq<FunctionRange>, addr: u32, from: int)
    requires
        0 <= from <= ranges.len(),
        forall|i: int| 0 <= i < ranges.len() ==> addr < (#[trigger] ranges[i]).phys_start,
    ensures
        first_containing(ranges, addr, from) == ranges.len(),
        first_gap(ranges, addr, from) == ranges.len(),
    decreases ranges.len() - from,
{
    if from < ranges.len() {
        lemma_nothing_below(ranges, addr, from + 1);
    }
}

/// Where the first range of a list starts lowest, the functions own the
/// addresses from that start on, and no others.
pub proof fn lemma_owned_from_lowest(ranges: Seq<FunctionRange>, addr: u32)
    requires
        ranges.len() > 0,
        forall|i: int|
            0 <= i < ranges.len() ==> ranges[0].phys_start <= (#[trigger] ranges[i]).phys_start,
    ensures
        extended_owner(ranges, addr).is_some() <==> ranges[0].phys_start <= addr,
{
    if ranges[0].phys_start <= addr {
        if addr < ranges.last().phys_start {
            lemma_gap_exists(ranges, addr, ranges.len() - 1);
        }
    } else {
        lemma_nothing_below(ranges, addr, 0);
    }
}

/// Data absorption, counted in lines: in a region of whole slots the lines
/// of all listings stand for every slot from the lowest function start on,
/// once. The text of each listing is the text of its lines; a long is one
/// line that stands for two slots. This holds where the second pass does not
/// step over the first slot of the lowest function.
pub proof fn lemma_lines_stand_for_every_slot(bytes: Seq<u8>, start: int, end: int, base: int)
    requires
        region_ok(Region { bytes, start, end, base }),
        start < end,
        (end - start) % 2 == 0,
        function_ranges(bytes, start, end).len() > 0,
        !slot_skipped(
            Region { bytes, start, end, base },
            function_ranges(bytes, start, end),
            labels_after(
                Region { bytes, start, end, base },
                function_ranges(bytes, start, end),
                slots(Region { bytes, start, end, base }),
            ),
            ((function_ranges(bytes, start, end)[0].phys_start - start) / 2) as nat,
        ),
    ensures
        ({
            let region = Region { bytes, start, end, base };
            let ranges = function_ranges(bytes, start, end);
            let labels = labels_after(region, ranges, slots(region));
            &&& forall|j: int|
                0 <= j < ranges.len() ==> ranges[0].phys_start <= (#[trigger] ranges[j]).phys_start
            &&& forall|first: u32| #[trigger]
                disassembly(bytes, start, end, base).contains_key(first) ==> disassembly(
                    bytes,
                    start,
                    end,
                    base,
                )[first].text == render_all(
                    listing_lines_upto(region, ranges, labels, first, slots(region)),
                )
            &&& 2 * listed_slots(region, ranges, labels, ranges.len(), slots(region)) == end
                - ranges[0].phys_start
        }),
{
    let region = Region { bytes, start, end, base };
    let ranges = function_ranges(bytes, start, end);
    let count = slots(region);
    let labels = labels_after(region, ranges, count);
    let lowest = ranges[0].phys_start;
    let from = ((lowest - start) / 2) as nat;
    lemma_function_ranges_ordered(bytes, start, end);
    lemma_data_labels_sized(region, ranges, count);
    assert(distinct_starts(ranges)) by {
        assert forall|i: int, j: int| 0 <= i < j < ranges.len() implies (
        #[trigger] ranges[i]).phys_start != (#[trigger] ranges[j]).phys_start by {
            assert(ranges[i].phys_end <= ranges[j].phys_start);
        }
    }
    assert forall|j: int| 0 <= j < ranges.len() implies lowest <= (
    #[trigger] ranges[j]).phys_start by {
        if j > 0 {
            assert(ranges[0].phys_end <= ranges[j].phys_start);
        }
    }
    assert forall|first: u32| #[trigger]
        disassembly(bytes, start, end, base).contains_key(first) implies disassembly(
        bytes,
        start,
        end,
        base,
    )[first].text == render_all(listing_lines_upto(region, ranges, labels, first, count)) by {
        lemma_listing_is_its_lines(region, ranges, labels, first, count);
    }
    assert forall|i: int| 0 <= i < count implies ((#[trigger] extended_owner(
        ranges,
        slot_addr(region, i),
    )).is_some() <==> from <= i) by {
        lemma_owned_from_lowest(ranges, slot_addr(region, i));
    }
    lemma_written_slots(region, ranges, labels, from, count);
    lemma_listed_is_written(region, ranges, labels, count);
    assert(!slot_skipped(region, ranges, labels, count)) by {
        if count > 0 {
            assert(!slot_is_long(region, ranges, labels, count - 1));
        }
    }
}

} // verus!
