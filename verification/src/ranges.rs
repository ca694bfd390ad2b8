//! Function boundary recovery: where the functions of a code region start
//! and end, and which function owns an address.
//!
//! A region is read as a row of two-byte slots. Every return instruction
//! ends a candidate function; its start is looked for by walking back from
//! the return to a run of register pushes, the preamble. The walk stops at
//! the previous return, at the start of the region, and above address zero.

use vstd::prelude::*;

verus! {

/// The address range of one recovered function. Both ends are inclusive when
/// an address is looked up.
#[derive(Clone, Copy, Debug, PartialEq, Eq, Structural)]
pub struct FunctionRange {
    /// The address of the first instruction.
    pub phys_start: u32,
    /// The address two bytes after the return instruction: the slot that is
    /// executed while the return is under way.
    pub phys_end: u32,
    /// Whether the range holds data rather than instructions.
    pub is_data: bool,
}

/// The big-endian 16-bit word in the two bytes at offset `at`.
pub open spec fn word_at(bytes: Seq<u8>, at: int) -> u32 {
    (bytes[at] * 256 + bytes[at + 1]) as u32
}

/// The number of whole two-byte slots between `start` and `end`.
pub open spec fn slot_count(start: int, end: int) -> nat {
    if start < end {
        ((end - start) / 2) as nat
    } else {
        0
    }
}

/// Whether the region from `start` to `end` can be read from a buffer of
/// `len` bytes. An empty region always can.
pub open spec fn region_fits(len: nat, start: u64, end: u64) -> bool {
    start < end ==> end <= len
}

/// The end of the part of a region that 32-bit addresses reach: functions
/// are looked for among the slots that end at or below the highest 32-bit
/// address.
pub open spec fn reach(end: int) -> int {
    if end > u32::MAX {
        u32::MAX as int
    } else {
        end
    }
}

/// The addresses of the return instructions among the first `count` slots
/// from `start`, in increasing order.
pub open spec fn return_slots(bytes: Seq<u8>, start: int, count: nat) -> Seq<u32>
    decreases count,
{
    if count == 0 {
        Seq::empty()
    } else {
        let before = return_slots(bytes, start, (count - 1) as nat);
        let at = start + 2 * (count - 1);
        if word_at(bytes, at) == 0x000b {
            before.push(at as u32)
        } else {
            before
        }
    }
}

/// Whether the word pushes a register onto the stack at `r15`: the
/// instruction by which a preamble is recognised.
pub open spec fn opens_preamble(word: u32) -> bool {
    word & 0xff0f == 0x2f06
}

/// Whether the word may stand in the run of pushes once one was seen.
pub open spec fn continues_preamble(word: u32) -> bool {
    word & 0xff06 == 0x2f06
}

/// The walk backwards from `pc` in search of a function start. Slots are
/// looked at while `pc` is at least `low` and above zero. Until a push has
/// been `found` the walk only looks for one. After that, the first slot that
/// does not continue the run ends the walk: the function starts two bytes
/// above it. A walk that runs out of slots finds nothing.
pub open spec fn scan_for_start(bytes: Seq<u8>, pc: int, low: int, found: bool) -> Option<u32>
    decreases pc + 2,
{
    if pc < low || pc <= 0 {
        None
    } else if !found {
        scan_for_start(bytes, pc - 2, low, opens_preamble(word_at(bytes, pc)))
    } else if !continues_preamble(word_at(bytes, pc)) {
        Some((pc + 2) as u32)
    } else {
        scan_for_start(bytes, pc - 2, low, true)
    }
}

/// The start of the function that ends with the `i`-th return, if a preamble
/// is found between the previous return (or the start of the region, for the
/// first return) and this one.
pub open spec fn function_start(bytes: Seq<u8>, start: int, rets: Seq<u32>, i: int) -> Option<
    u32,
> {
    let low = if i > 0 {
        rets[i - 1] as int
    } else {
        start
    };
    scan_for_start(bytes, rets[i] - 2, low, false)
}

/// The function ranges that the first `n` return instructions give, in their
/// order. One without a preamble gives none.
pub open spec fn ranges_of(bytes: Seq<u8>, start: int, rets: Seq<u32>, n: nat) -> Seq<
    FunctionRange,
>
    decreases n,
{
    if n == 0 {
        Seq::empty()
    } else {
        let before = ranges_of(bytes, start, rets, (n - 1) as nat);
        match function_start(bytes, start, rets, n - 1) {
            Some(first) => before.push(
                FunctionRange {
                    phys_start: first,
                    phys_end: (rets[n - 1] + 2) as u32,
                    is_data: false,
                },
            ),
            None => before,
        }
    }
}

/// The function ranges recovered from the region between `start` and `end`,
/// as far as 32-bit addresses reach.
pub open spec fn function_ranges(bytes: Seq<u8>, start: int, end: int) -> Seq<FunctionRange> {
    let rets = return_slots(bytes, start, slot_count(start, reach(end)));
    ranges_of(bytes, start, rets, rets.len())
}

/// Whether `addr` lies in the range, both ends included.
pub open spec fn in_range(range: FunctionRange, addr: u32) -> bool {
    range.phys_start <= addr <= range.phys_end
}

/// The index of the first range at or after `from` that contains `addr`; the
/// number of ranges if there is none.
pub open spec fn first_containing(ranges: Seq<FunctionRange>, addr: u32, from: int) -> int
    decreases ranges.len() - from,
{
    if from < 0 || from >= ranges.len() {
        ranges.len() as int
    } else if in_range(ranges[from], addr) {
        from
    } else {
        first_containing(ranges, addr, from + 1)
    }
}

/// The index of the first range at or after `from` such that `addr` lies at
/// or above its start and below the start of the range that follows it; the
/// number of ranges if there is none.
pub open spec fn first_gap(ranges: Seq<FunctionRange>, addr: u32, from: int) -> int
    decreases ranges.len() - from,
{
    if from < 0 || from + 1 >= ranges.len() {
        ranges.len() as int
    } else if ranges[from].phys_start <= addr < ranges[from + 1].phys_start {
        from
    } else {
        first_gap(ranges, addr, from + 1)
    }
}

/// The start of the function whose range contains `addr`: of the first such
/// range in the list.
pub open spec fn strict_owner(ranges: Seq<FunctionRange>, addr: u32) -> Option<u32> {
    let at = first_containing(ranges, addr, 0);
    if at < ranges.len() {
        Some(ranges[at].phys_start)
    } else {
        None
    }
}

/// The start of the function to which `addr` is attributed. That is the
/// function whose range contains it; else the first function in the list
/// with `addr` between its start and the start of the next one; else the
/// last function, if `addr` is not below its start.
pub open spec fn extended_owner(ranges: Seq<FunctionRange>, addr: u32) -> Option<u32> {
    let inside = first_containing(ranges, addr, 0);
    let gap = first_gap(ranges, addr, 0);
    if inside < ranges.len() {
        Some(ranges[inside].phys_start)
    } else if gap < ranges.len() {
        Some(ranges[gap].phys_start)
    } else if ranges.len() > 0 && addr >= ranges.last().phys_start {
        Some(ranges.last().phys_start)
    } else {
        None
    }
}

/// The starts, among the first `n` ranges, that the lookups give to another
/// function: an earlier range of the list holds the address too. This
/// happens where two ranges meet without a slot between them.
pub open spec fn disputed_upto(ranges: Seq<FunctionRange>, n: nat) -> Seq<u32>
    decreases n,
{
    if n == 0 {
        Seq::empty()
    } else {
        let before = disputed_upto(ranges, (n - 1) as nat);
        let first = ranges[n - 1].phys_start;
        if strict_owner(ranges, first) != Some(first) {
            before.push(first)
        } else {
            before
        }
    }
}

/// An owner as a pair: whether there is one, and its start (zero if not).
pub open spec fn owner_pair(owner: Option<u32>) -> (bool, u32) {
    match owner {
        Some(first) => (true, first),
        None => (false, 0u32),
    }
}

/// Every return instruction found lies on a slot of the region, and they
/// come in strictly increasing order.
pub proof fn lemma_return_slots(bytes: Seq<u8>, start: int, count: nat)
    requires
        0 <= start,
        start + 2 * count <= u32::MAX,
    ensures
        forall|i: int|
            0 <= i < return_slots(bytes, start, count).len() ==> {
                let at = #[trigger] return_slots(bytes, start, count)[i];
                &&& start <= at
                &&& at + 2 <= start + 2 * count
                &&& (at - start) % 2 == 0
                &&& word_at(bytes, at as int) == 0x000b
            },
        forall|i: int, j: int|
            0 <= i < j < return_slots(bytes, start, count).len() ==> return_slots(
                bytes,
                start,
                count,
            )[i] + 2 <= return_slots(bytes, start, count)[j],
    decreases count,
{
    if count > 0 {
        lemma_return_slots(bytes, start, (count - 1) as nat);
        let before = return_slots(bytes, start, (count - 1) as nat);
        let all = return_slots(bytes, start, count);
        let at = start + 2 * (count - 1);
        assert(all == if word_at(bytes, at) == 0x000b {
            before.push(at as u32)
        } else {
            before
        });
        assert forall|i: int| 0 <= i < all.len() implies {
            let at = #[trigger] all[i];
            &&& start <= at
            &&& at + 2 <= start + 2 * count
            &&& (at - start) % 2 == 0
            &&& word_at(bytes, at as int) == 0x000b
        } by {
            if i < before.len() {
                assert(all[i] == before[i]);
            }
        }
        assert forall|i: int, j: int| 0 <= i < j < all.len() implies all[i] + 2 <= all[j] by {
            if j < before.len() {
                assert(all[i] == before[i] && all[j] == before[j]);
            } else {
                assert(all[i] == before[i]);
            }
        }
    }
}

/// A function start that the walk finds lies two bytes or more above the
/// lower bound, a whole number of slots from where the walk began, and four
/// bytes or more below the slot after the first one looked at, if a push
/// was not yet seen there.
pub proof fn lemma_scan_bounds(bytes: Seq<u8>, pc: int, low: int, found: bool)
    requires
        pc + 2 <= u32::MAX,
    ensures
        match scan_for_start(bytes, pc, low, found) {
            Some(first) => low + 2 <= first && 2 < first && (first - pc) % 2 == 0 && (if found {
                first <= pc + 2
            } else {
                first <= pc
            }),
            None => true,
        },
    decreases pc + 2,
{
    if pc < low || pc <= 0 {
    } else if !found {
        lemma_scan_bounds(bytes, pc - 2, low, opens_preamble(word_at(bytes, pc)));
    } else if !continues_preamble(word_at(bytes, pc)) {
    } else {
        lemma_scan_bounds(bytes, pc - 2, low, true);
    }
}

/// Where the walk finds a start, the run of pushes ends there: the slot at
/// the start continues the run and the slot below it does not. For a walk
/// that is under way this holds if the slot above the one it has come to
/// continues the run.
pub proof fn lemma_scan_shape(bytes: Seq<u8>, pc: int, low: int, found: bool)
    requires
        pc + 2 <= u32::MAX,
        found ==> continues_preamble(word_at(bytes, pc + 2)),
    ensures
        match scan_for_start(bytes, pc, low, found) {
            Some(first) => continues_preamble(word_at(bytes, first as int))
                && !continues_preamble(word_at(bytes, first - 2)),
            None => true,
        },
    decreases pc + 2,
{
    let word = word_at(bytes, pc);
    assert(word & 0xff0f == 0x2f06 ==> word & 0xff06 == 0x2f06) by (bit_vector);
    if pc < low || pc <= 0 {
    } else if !found {
        lemma_scan_shape(bytes, pc - 2, low, opens_preamble(word));
    } else if !continues_preamble(word) {
    } else {
        lemma_scan_shape(bytes, pc - 2, low, true);
    }
}

/// The owner of an address is the first range that holds it: the search
/// ends at a range that holds the address, and no range before that one
/// does.
pub proof fn lemma_first_containing(ranges: Seq<FunctionRange>, addr: u32, from: int)
    requires
        0 <= from <= ranges.len(),
    ensures
        from <= first_containing(ranges, addr, from) <= ranges.len(),
        first_containing(ranges, addr, from) < ranges.len() ==> in_range(
            ranges[first_containing(ranges, addr, from)],
            addr,
        ),
        forall|i: int|
            from <= i < first_containing(ranges, addr, from) ==> !in_range(
                #[trigger] ranges[i],
                addr,
            ),
    decreases ranges.len() - from,
{
    if from < ranges.len() && !in_range(ranges[from], addr) {
        lemma_first_containing(ranges, addr, from + 1);
    }
}

/// The ranges that the first `n` return instructions give are no data, hold
/// at least a push and the return with its following slot, and lie in
/// increasing order: each ends where the next one starts, or below.
pub proof fn lemma_ranges_of_ordered(bytes: Seq<u8>, start: int, rets: Seq<u32>, n: nat)
    requires
        0 <= start,
        n <= rets.len(),
        forall|i: int|
            0 <= i < rets.len() ==> start <= (#[trigger] rets[i]) && rets[i] + 2 <= u32::MAX
                && (rets[i] - start) % 2 == 0,
        forall|i: int, j: int| 0 <= i < j < rets.len() ==> rets[i] + 2 <= rets[j],
    ensures
        forall|i: int|
            0 <= i < ranges_of(bytes, start, rets, n).len() ==> {
                let range = #[trigger] ranges_of(bytes, start, rets, n)[i];
                &&& !range.is_data
                &&& start + 2 <= range.phys_start
                &&& (range.phys_start - start) % 2 == 0
                &&& range.phys_start + 4 <= range.phys_end
                &&& n > 0 && range.phys_end <= rets[n - 1] + 2
            },
        forall|i: int, j: int|
            0 <= i < j < ranges_of(bytes, start, rets, n).len() ==> ranges_of(
                bytes,
                start,
                rets,
                n,
            )[i].phys_end <= ranges_of(bytes, start, rets, n)[j].phys_start,
    decreases n,
{
    if n > 0 {
        lemma_ranges_of_ordered(bytes, start, rets, (n - 1) as nat);
        let before = ranges_of(bytes, start, rets, (n - 1) as nat);
        let all = ranges_of(bytes, start, rets, n);
        let low = if n - 1 > 0 {
            rets[n - 2] as int
        } else {
            start
        };
        lemma_scan_bounds(bytes, rets[n - 1] - 2, low, false);
        assert forall|i: int| 0 <= i < all.len() implies {
            let range = #[trigger] all[i];
            &&& !range.is_data
            &&& start + 2 <= range.phys_start
            &&& (range.phys_start - start) % 2 == 0
            &&& range.phys_start + 4 <= range.phys_end
            &&& range.phys_end <= rets[n - 1] + 2
        } by {
            if i < before.len() {
                assert(all[i] == before[i]);
            }
        }
        assert forall|i: int, j: int| 0 <= i < j < all.len() implies all[i].phys_end
            <= all[j].phys_start by {
            assert(all[i] == before[i]);
            if j < before.len() {
                assert(all[j] == before[j]);
            }
        }
    }
}

/// What boundary recovery finds: ranges of instructions, each inside the
/// region, on a slot of it and at least eight bytes long, in increasing
/// order of address. Two of them share at most the one address at which the
/// first ends and the second starts.
pub proof fn lemma_function_ranges_ordered(bytes: Seq<u8>, start: int, end: int)
    requires
        0 <= start,
    ensures
        forall|i: int|
            0 <= i < function_ranges(bytes, start, end).len() ==> {
                let range = #[trigger] function_ranges(bytes, start, end)[i];
                &&& !range.is_data
                &&& start + 2 <= range.phys_start
                &&& (range.phys_start - start) % 2 == 0
                &&& range.phys_start + 4 <= range.phys_end
                &&& range.phys_end <= end
            },
        forall|i: int, j: int|
            0 <= i < j < function_ranges(bytes, start, end).len() ==> function_ranges(
                bytes,
                start,
                end,
            )[i].phys_end <= function_ranges(bytes, start, end)[j].phys_start,
{
    let count = slot_count(start, reach(end));
    let rets = return_slots(bytes, start, count);
    if start < reach(end) {
        lemma_return_slots(bytes, start, count);
        lemma_ranges_of_ordered(bytes, start, rets, rets.len());
    }
}

/// Boundary recovery is deterministic: two runs over the same bytes and the
/// same region, from the same list, end with the same list.
pub proof fn lemma_find_funcs_deterministic(
    bytes: Seq<u8>,
    start: u64,
    end: u64,
    before: Seq<FunctionRange>,
    first: Seq<FunctionRange>,
    second: Seq<FunctionRange>,
)
    requires
        first == before + function_ranges(bytes, start as int, end as int),
        second == before + function_ranges(bytes, start as int, end as int),
    ensures
        first == second,
{
}

/// Reads the big-endian 16-bit word at a virtual address.
pub fn fetch_instruction(
    file_contents: &Vec<u8>,
    virtual_address: u64,
    virtual_address_base: u64,
) -> (instr: u32)
    requires
        virtual_address_base <= virtual_address,
        virtual_address - virtual_address_base + 1 < file_contents@.len(),
    ensures
        instr == word_at(file_contents@, virtual_address - virtual_address_base),
        instr <= 0xffff,
{
    assert(file_contents@.len() == file_contents.len());
    let physical_address: usize = (virtual_address - virtual_address_base) as usize;
    let high: u8 = file_contents[physical_address];
    let low: u8 = file_contents[physical_address + 1];
    assert(((high as u32) << 8) | (low as u32) == high * 256 + low && high * 256 + low <= 0xffff)
        by (bit_vector);
    ((high as u32) << 8) | (low as u32)
}

/// Finds the functions of the region between `section_start` and
/// `section_end` and appends their ranges to `ranges`, in the order of their
/// return instructions. Slots beyond the reach of 32-bit addresses are not
/// looked at.
pub fn find_funcs(
    vec: &Vec<u8>,
    section_start: u64,
    section_end: u64,
    ranges: &mut Vec<FunctionRange>,
)
    requires
        region_fits(vec@.len(), section_start, section_end),
    ensures
        final(ranges)@ == old(ranges)@ + function_ranges(
            vec@,
            section_start as int,
            section_end as int,
        ),
{
    let ghost bytes = vec@;
    let ghost start = section_start as int;
    let limit: u64 = if section_end > 0xffff_ffff {
        0xffff_ffff
    } else {
        section_end
    };
    let ghost count = slot_count(section_start as int, limit as int);
    // First, every return in the region.
    let mut rts_pos: Vec<u32> = Vec::new();
    let mut i: u64 = section_start;
    let ghost mut seen: nat = 0;
    while i < limit && limit - i >= 2
        invariant
            region_fits(vec@.len(), section_start, section_end),
            limit == reach(section_end as int),
            bytes == vec@,
            start == section_start,
            count == slot_count(section_start as int, limit as int),
            i == start + 2 * seen,
            seen <= count,
            section_start < limit ==> i <= limit,
            rts_pos@ == return_slots(bytes, start, seen),
        decreases limit - i,
    {
        let instr: u32 = fetch_instruction(vec, i, 0);
        if instr == 0x000b {
            rts_pos.push(i as u32);
        }
        i += 2;
        proof {
            seen = seen + 1;
        }
    }
    assert(seen == count);
    proof {
        if section_start < limit {
            lemma_return_slots(bytes, start, count);
        }
    }
    // Then, for each return, the walk back to the preamble.
    let ghost rets = rts_pos@;
    let mut n: usize = 0;
    while n < rts_pos.len()
        invariant
            region_fits(vec@.len(), section_start, section_end),
            limit == reach(section_end as int),
            bytes == vec@,
            start == section_start,
            rets == rts_pos@,
            rets == return_slots(bytes, start, count),
            count == slot_count(section_start as int, limit as int),
            n <= rets.len(),
            rets.len() > 0 ==> section_start < limit,
            forall|i: int|
                0 <= i < rets.len() ==> start <= (#[trigger] rets[i]) && rets[i] + 2
                    <= start + 2 * count,
            forall|i: int, j: int|
                0 <= i < j < rets.len() ==> rets[i] + 2 <= rets[j],
            ranges@ == old(ranges)@ + ranges_of(bytes, start, rets, n as nat),
        decreases rts_pos.len() - n,
    {
        let ret: u32 = rts_pos[n];
        let low: u64 = if n > 0 {
            rts_pos[n - 1] as u64
        } else {
            section_start
        };
        let mut func_start: Option<u32> = None;
        if ret >= 2 {
            let mut pc: u32 = ret - 2;
            let mut preamble_found = false;
            let mut walking = true;
            while walking && pc as u64 >= low && pc > 0
                invariant
                    bytes == vec@,
                    pc <= ret - 2,
                    ret + 1 < bytes.len(),
                    !walking || func_start.is_none(),
                    function_start(bytes, start, rets, n as int) == if walking {
                        scan_for_start(bytes, pc as int, low as int, preamble_found)
                    } else {
                        func_start
                    },
                decreases pc + (if walking { 1int } else { 0int }),
            {
                let instr: u32 = fetch_instruction(vec, pc as u64, 0);
                if !preamble_found {
                    if instr & 0xff0f == 0x2f06 {
                        preamble_found = true;
                    }
                } else if instr & 0xff06 != 0x2f06 {
                    func_start = Some(pc + 2);
                    walking = false;
                }
                if walking {
                    if pc >= 2 {
                        pc -= 2;
                    } else {
                        assert(scan_for_start(bytes, pc - 2, low as int, preamble_found).is_none());
                        walking = false;
                    }
                }
            }
        }
        assert(func_start == function_start(bytes, start, rets, n as int));
        match func_start {
            Some(first) => {
                let range = FunctionRange { phys_start: first, phys_end: ret + 2, is_data: false };
                ranges.push(range);
            },
            None => {},
        }
        n += 1;
        assert(ranges@ =~= old(ranges)@ + ranges_of(bytes, start, rets, n as nat));
    }
    assert(ranges@ =~= old(ranges)@ + function_ranges(
        vec@,
        section_start as int,
        section_end as int,
    ));
}

/// Whether `i` lies inside a function, and the start of that function: of
/// the first range in the list that contains `i`.
pub fn infunc(i: u32, ranges: &Vec<FunctionRange>) -> (found: (bool, u32))
    ensures
        found == owner_pair(strict_owner(ranges@, i)),
{
    let mut j: usize = 0;
    while j < ranges.len()
        invariant
            j <= ranges.len(),
            first_containing(ranges@, i, 0) == first_containing(ranges@, i, j as int),
        decreases ranges.len() - j,
    {
        let current_func = &ranges[j];
        if i >= current_func.phys_start && i <= current_func.phys_end {
            return (true, current_func.phys_start);
        }
        j += 1;
    }
    (false, 0)
}

/// Whether `i` is attributed to a function, and the start of that function.
/// Beside the addresses inside a function this covers the gap up to the next
/// function in the list, and everything from the last function on.
pub fn infunc_extended(i: u32, ranges: &Vec<FunctionRange>) -> (found: (bool, u32))
    ensures
        found == owner_pair(extended_owner(ranges@, i)),
{
    let inside = infunc(i, ranges);
    if inside.0 {
        return inside;
    }
    if ranges.len() > 0 {
        let mut j: usize = 0;
        while j < ranges.len() - 1
            invariant
                ranges.len() > 0,
                j <= ranges.len() - 1,
                strict_owner(ranges@, i).is_none(),
                first_gap(ranges@, i, 0) == first_gap(ranges@, i, j as int),
            decreases ranges.len() - j,
        {
            let current_func = &ranges[j];
            let next_func = &ranges[j + 1];
            if i >= current_func.phys_start && i < next_func.phys_start {
                return (true, current_func.phys_start);
            }
            j += 1;
        }
        let last_func = &ranges[ranges.len() - 1];
        if i >= last_func.phys_start {
            return (true, last_func.phys_start);
        }
    }
    (false, 0)
}

/// Whether `i` lies above the end of the last function in the list, and the
/// start of that function.
pub fn is_beyond_last_func(i: u32, ranges: &Vec<FunctionRange>) -> (found: (bool, u32))
    requires
        ranges@.len() > 0,
    ensures
        found == if i > ranges@.last().phys_end {
            (true, ranges@.last().phys_start)
        } else {
            (false, 0u32)
        },
{
    let last_func = &ranges[ranges.len() - 1];
    if i > last_func.phys_end {
        return (true, last_func.phys_start);
    }
    (false, 0)
}

/// The starts of the functions whose first slot belongs to another function
/// by the lookups, in the order of the list. Such a function gets no entry
/// line in its listing; the caller may want to hear of it.
pub fn disputed_starts(ranges: &Vec<FunctionRange>) -> (flagged: Vec<u32>)
    ensures
        flagged@ == disputed_upto(ranges@, ranges@.len()),
{
    let mut flagged: Vec<u32> = Vec::new();
    let mut n: usize = 0;
    while n < ranges.len()
        invariant
            n <= ranges.len(),
            flagged@ == disputed_upto(ranges@, n as nat),
        decreases ranges.len() - n,
    {
        let first: u32 = ranges[n].phys_start;
        let owner = infunc(first, ranges);
        proof {
            lemma_first_containing(ranges@, first, 0);
        }
        if owner.1 != first {
            flagged.push(first);
        }
        n += 1;
    }
    flagged
}

} // verus!
