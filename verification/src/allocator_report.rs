//! The shape of the device allocator's free space, reduced from its report.
//!
//! A block with plenty of free bytes spread across many small gaps cannot serve one contiguous
//! request, so the figure that matters is the largest contiguous free run, reported beside the
//! totals so the two can be compared.
use std::ops::Range;
use vstd::prelude::*;

verus! {

/// One live allocation inside a block.
#[derive(Clone, Debug)]
pub struct AllocationReport {
    pub name: String,
    pub offset: u64,
    pub size: u64,
}

/// One block the allocator reserved, and the range of the shared allocation list it holds.
#[derive(Debug)]
pub struct MemoryBlockReport {
    pub size: u64,
    pub allocations: Range<usize>,
}

/// The allocator's report: its blocks and every allocation in them.
#[derive(Debug)]
pub struct AllocatorReport {
    pub allocations: Vec<AllocationReport>,
    pub blocks: Vec<MemoryBlockReport>,
    pub total_allocated_bytes: u64,
    pub total_reserved_bytes: u64,
}

/// The shape of the allocator's memory at one moment.
#[derive(Clone, Copy, Debug, Default, Eq, PartialEq, Structural)]
pub struct AllocatorFragmentation {
    pub blocks: usize,
    pub live_allocations: usize,
    /// Total the allocator has reserved from the driver.
    pub reserved_bytes: u64,
    /// The part of it actually holding resources.
    pub allocated_bytes: u64,
    /// Reserved but unused.
    pub free_bytes: u64,
    /// The biggest single contiguous free run in any block.
    pub largest_free_run_bytes: u64,
}

/// `a - b`, stopping at zero.
pub open spec fn sat_sub(a: int, b: int) -> int {
    if a > b {
        a - b
    } else {
        0
    }
}

/// Where an allocation ends, saturating at `u64::MAX`.
pub open spec fn end_of(a: (u64, u64)) -> int {
    if a.0 + a.1 > u64::MAX {
        u64::MAX as int
    } else {
        a.0 + a.1
    }
}

/// The end of each allocation, as a function to maximise.
pub open spec fn end_fn() -> spec_fn((u64, u64)) -> int {
    |a: (u64, u64)| end_of(a)
}

proof fn lemma_end_fn(a: (u64, u64))
    ensures
        end_fn()(a) == end_of(a),
{
}

/// The largest value `g` takes on an element of `s`, or zero.
pub open spec fn max_over(s: Seq<(u64, u64)>, g: spec_fn((u64, u64)) -> int) -> int
    decreases s.len(),
{
    if s.len() == 0 {
        0
    } else {
        let rest = max_over(s.drop_last(), g);
        let last = g(s.last());
        if last > rest {
            last
        } else {
            rest
        }
    }
}

/// The furthest end of any allocation starting before `offset`, or zero.
pub open spec fn end_before(s: Seq<(u64, u64)>, offset: u64) -> int {
    max_over(s, |a: (u64, u64)| if a.0 < offset { end_of(a) } else { 0 })
}

/// The free run that ends where an allocation at `offset` begins.
pub open spec fn gap_before(s: Seq<(u64, u64)>, offset: u64) -> int {
    sat_sub(offset as int, end_before(s, offset))
}

/// The largest contiguous free run in a block of `size` bytes holding `s`: the largest gap in
/// front of any allocation, or the tail past the furthest end, whichever is larger. The order
/// in which the allocations are listed does not matter.
pub open spec fn largest_run(s: Seq<(u64, u64)>, size: u64) -> int {
    let gaps = max_over(s, |a: (u64, u64)| gap_before(s, a.0));
    let tail = sat_sub(size as int, max_over(s, end_fn()));
    if gaps > tail {
        gaps
    } else {
        tail
    }
}

/// The allocations of a report as (offset, size) pairs.
pub open spec fn placements(allocations: Seq<AllocationReport>) -> Seq<(u64, u64)> {
    allocations.map_values(|a: AllocationReport| (a.offset, a.size))
}

/// Whether a block's range addresses the report's allocation list.
pub open spec fn block_in_range(block: MemoryBlockReport, len: int) -> bool {
    block.allocations.start <= block.allocations.end <= len
}

/// The largest free run over the first `n` blocks, skipping blocks whose range does not
/// address the allocation list.
pub open spec fn largest_run_over_blocks(report: AllocatorReport, n: int) -> int
    decreases n,
{
    if n <= 0 {
        0
    } else {
        let rest = largest_run_over_blocks(report, n - 1);
        let block = report.blocks@[n - 1];
        let here = if block_in_range(block, report.allocations@.len() as int) {
            largest_run(
                placements(report.allocations@).subrange(
                    block.allocations.start as int,
                    block.allocations.end as int,
                ),
                block.size,
            )
        } else {
            0
        };
        if here > rest {
            here
        } else {
            rest
        }
    }
}

/// The summary of a report: its counts and totals, free bytes as reserved minus allocated
/// (stopping at zero), and the largest free run in any block.
pub open spec fn summary_spec(report: AllocatorReport) -> AllocatorFragmentation {
    AllocatorFragmentation {
        blocks: report.blocks@.len() as usize,
        live_allocations: report.allocations@.len() as usize,
        reserved_bytes: report.total_reserved_bytes,
        allocated_bytes: report.total_allocated_bytes,
        free_bytes: sat_sub(
            report.total_reserved_bytes as int,
            report.total_allocated_bytes as int,
        ) as u64,
        largest_free_run_bytes: largest_run_over_blocks(report, report.blocks@.len() as int)
            as u64,
    }
}

proof fn lemma_max_over_bounds(s: Seq<(u64, u64)>, g: spec_fn((u64, u64)) -> int)
    ensures
        max_over(s, g) >= 0,
        forall|i: int| 0 <= i < s.len() ==> g(#[trigger] s[i]) <= max_over(s, g),
        max_over(s, g) == 0 || exists|i: int| 0 <= i < s.len() && g(s[i]) == max_over(s, g),
    decreases s.len(),
{
    if s.len() > 0 {
        lemma_max_over_bounds(s.drop_last(), g);
        assert forall|i: int| 0 <= i < s.len() implies g(#[trigger] s[i]) <= max_over(s, g) by {
            if i < s.len() - 1 {
                assert(s.drop_last()[i] == s[i]);
            }
        }
        if max_over(s, g) != 0 {
            if g(s.last()) > max_over(s.drop_last(), g) {
                assert(g(s[s.len() - 1]) == max_over(s, g));
            } else {
                let i = choose|i: int|
                    0 <= i < s.drop_last().len() && g(s.drop_last()[i]) == max_over(
                        s.drop_last(),
                        g,
                    );
                assert(s[i] == s.drop_last()[i]);
            }
        }
    }
}

/// The maximum of `g` over a sequence depends only on which elements it holds.
proof fn lemma_max_over_permutation(
    s: Seq<(u64, u64)>,
    p: Seq<(u64, u64)>,
    g: spec_fn((u64, u64)) -> int,
)
    requires
        s.to_multiset() == p.to_multiset(),
    ensures
        max_over(s, g) == max_over(p, g),
{
    broadcast use vstd::seq_lib::group_to_multiset_ensures;

    lemma_max_over_bounds(s, g);
    lemma_max_over_bounds(p, g);
    if max_over(s, g) != 0 {
        let i = choose|i: int| 0 <= i < s.len() && g(s[i]) == max_over(s, g);
        assert(s.contains(s[i]));
        assert(s.to_multiset().count(s[i]) > 0);
        assert(p.to_multiset().count(s[i]) > 0);
        assert(p.contains(s[i]));
        let j = choose|j: int| 0 <= j < p.len() && p[j] == s[i];
        assert(g(p[j]) <= max_over(p, g));
    }
    if max_over(p, g) != 0 {
        let j = choose|j: int| 0 <= j < p.len() && g(p[j]) == max_over(p, g);
        assert(p.contains(p[j]));
        assert(p.to_multiset().count(p[j]) > 0);
        assert(s.to_multiset().count(p[j]) > 0);
        assert(s.contains(p[j]));
        let i = choose|i: int| 0 <= i < s.len() && s[i] == p[j];
        assert(g(s[i]) <= max_over(s, g));
    }
}

/// Whether `s` is ordered by offset.
pub open spec fn sorted_by_offset(s: Seq<(u64, u64)>) -> bool {
    forall|i: int, j: int| 0 <= i < j < s.len() ==> s[i].0 <= s[j].0
}

/// The largest gap the sweep over the first `k` entries of `s` sees, where each entry's gap is
/// measured from the furthest end of the entries before it.
pub open spec fn sweep_best(s: Seq<(u64, u64)>, k: int) -> int
    decreases k,
{
    if k <= 0 {
        0
    } else {
        let rest = sweep_best(s, k - 1);
        let gap = sat_sub(
            s[k - 1].0 as int,
            max_over(s.subrange(0, k - 1), end_fn()),
        );
        if gap > rest {
            gap
        } else {
            rest
        }
    }
}

proof fn lemma_max_over_prefix_push(s: Seq<(u64, u64)>, k: int, g: spec_fn((u64, u64)) -> int)
    requires
        0 <= k < s.len(),
    ensures
        max_over(s.subrange(0, k + 1), g) == (if g(s[k]) > max_over(s.subrange(0, k), g) {
            g(s[k])
        } else {
            max_over(s.subrange(0, k), g)
        }),
{
    assert(s.subrange(0, k + 1).drop_last() =~= s.subrange(0, k));
}

/// On a sequence sorted by offset, the sweep finds exactly the largest gap.
proof fn lemma_sweep_finds_largest_gap(s: Seq<(u64, u64)>)
    requires
        sorted_by_offset(s),
    ensures
        sweep_best(s, s.len() as int) == max_over(s, |a: (u64, u64)| gap_before(s, a.0)),
{
    let g = |a: (u64, u64)| gap_before(s, a.0);
    let ends = end_fn();
    // Each sweep gap is at most the true gap in front of that entry, since everything that
    // starts before it has already been swept.
    assert forall|k: int| 0 <= k < s.len() implies sat_sub(
        s[k].0 as int,
        max_over(#[trigger] s.subrange(0, k), ends),
    ) <= g(s[k]) by {
        let below = |a: (u64, u64)| if a.0 < s[k].0 { end_of(a) } else { 0 };
        lemma_max_over_bounds(s, below);
        lemma_max_over_bounds(s.subrange(0, k), ends);
        if end_before(s, s[k].0) != 0 {
            let j = choose|j: int| 0 <= j < s.len() && below(s[j]) == max_over(s, below);
            assert(s[j].0 < s[k].0);
            assert(j < k);
            assert(s.subrange(0, k)[j] == s[j]);
        }
    }
    // The sweep is bounded by the largest true gap.
    assert forall|k: int| 0 <= k <= s.len() implies #[trigger] sweep_best(s, k) <= max_over(s, g)
        by {
        lemma_sweep_upper(s, k);
    }
    // And it reaches it, at the first entry with the offset that attains it.
    lemma_max_over_bounds(s, g);
    if max_over(s, g) != 0 {
        let i = choose|i: int| 0 <= i < s.len() && g(s[i]) == max_over(s, g);
        let k = lemma_first_with_offset(s, i);
        let below = |a: (u64, u64)| if a.0 < s[k].0 { end_of(a) } else { 0 };
        lemma_max_over_bounds(s.subrange(0, k), ends);
        lemma_max_over_bounds(s, below);
        // Everything before `k` starts before it, so the sweep's cursor there is the true one.
        assert forall|j: int| 0 <= j < k implies end_of(#[trigger] s.subrange(0, k)[j]) <= max_over(
            s,
            below,
        ) by {
            assert(s.subrange(0, k)[j] == s[j]);
            assert(below(s[j]) == end_of(s[j]));
        }
        lemma_max_over_le(s.subrange(0, k), ends, max_over(s, below));
        lemma_sweep_lower(s, k);
    }
}

proof fn lemma_max_over_le(s: Seq<(u64, u64)>, g: spec_fn((u64, u64)) -> int, bound: int)
    requires
        bound >= 0,
        forall|j: int| 0 <= j < s.len() ==> g(#[trigger] s[j]) <= bound,
    ensures
        max_over(s, g) <= bound,
{
    lemma_max_over_bounds(s, g);
    if max_over(s, g) != 0 {
        let j = choose|j: int| 0 <= j < s.len() && g(s[j]) == max_over(s, g);
    }
}

proof fn lemma_first_with_offset(s: Seq<(u64, u64)>, i: int) -> (k: int)
    requires
        sorted_by_offset(s),
        0 <= i < s.len(),
    ensures
        0 <= k <= i,
        s[k].0 == s[i].0,
        forall|j: int| 0 <= j < k ==> s[j].0 < s[k].0,
    decreases i,
{
    if i > 0 && s[i - 1].0 == s[i].0 {
        lemma_first_with_offset(s, i - 1)
    } else {
        i
    }
}

proof fn lemma_sweep_upper(s: Seq<(u64, u64)>, k: int)
    requires
        0 <= k <= s.len(),
        forall|j: int|
            0 <= j < s.len() ==> sat_sub(
                s[j].0 as int,
                max_over(#[trigger] s.subrange(0, j), end_fn()),
            ) <= gap_before(s, s[j].0),
    ensures
        sweep_best(s, k) <= max_over(s, |a: (u64, u64)| gap_before(s, a.0)),
    decreases k,
{
    let g = |a: (u64, u64)| gap_before(s, a.0);
    lemma_max_over_bounds(s, g);
    if k > 0 {
        lemma_sweep_upper(s, k - 1);
        assert(g(s[k - 1]) <= max_over(s, g));
    }
}

proof fn lemma_sweep_lower(s: Seq<(u64, u64)>, k: int)
    requires
        0 <= k < s.len(),
    ensures
        sweep_best(s, s.len() as int) >= sat_sub(
            s[k].0 as int,
            max_over(s.subrange(0, k), end_fn()),
        ),
{
    lemma_sweep_monotone(s, k + 1, s.len() as int);
}

proof fn lemma_sweep_monotone(s: Seq<(u64, u64)>, a: int, b: int)
    requires
        0 <= a <= b <= s.len(),
    ensures
        sweep_best(s, a) <= sweep_best(s, b),
    decreases b - a,
{
    if a < b {
        lemma_sweep_monotone(s, a, b - 1);
    }
}

} // verus!

verus! {

/// The allocations `allocations[start..end]` as (offset, size) pairs, ordered by offset.
fn sorted_placements(allocations: &Vec<AllocationReport>, start: usize, end: usize) -> (r: Vec<
    (u64, u64),
>)
    requires
        start <= end <= allocations@.len(),
    ensures
        sorted_by_offset(r@),
        r@.to_multiset() == placements(allocations@).subrange(
            start as int,
            end as int,
        ).to_multiset(),
{
    broadcast use vstd::seq_lib::group_to_multiset_ensures;

    let ghost source = placements(allocations@);
    let mut sorted: Vec<(u64, u64)> = Vec::new();
    let mut idx = start;
    while idx < end
        invariant
            start <= idx <= end <= allocations@.len(),
            source == placements(allocations@),
            sorted_by_offset(sorted@),
            sorted@.to_multiset() == source.subrange(start as int, idx as int).to_multiset(),
        decreases end - idx,
    {
        let entry = (allocations[idx].offset, allocations[idx].size);
        let mut pos = sorted.len();
        while pos > 0 && sorted[pos - 1].0 > entry.0
            invariant
                pos <= sorted@.len(),
                forall|j: int| pos <= j < sorted@.len() ==> sorted@[j].0 > entry.0,
            decreases pos,
        {
            pos -= 1;
        }
        let ghost before = sorted@;
        sorted.insert(pos, entry);
        proof {
            assert(entry == source[idx as int]);
            assert(source.subrange(start as int, idx + 1) =~= source.subrange(
                start as int,
                idx as int,
            ).push(entry));
            vstd::seq_lib::to_multiset_insert(before, pos as int, entry);
            vstd::seq_lib::to_multiset_build(source.subrange(start as int, idx as int), entry);
            assert(sorted@ == before.insert(pos as int, entry));
            assert forall|i: int, j: int| 0 <= i < j < sorted@.len() implies sorted@[i].0
                <= sorted@[j].0 by {
                if pos > 0 {
                    assert(before[pos - 1].0 <= entry.0);
                }
                if i < pos && j > pos {
                    assert(before[i].0 <= before[pos - 1].0 || i == pos - 1);
                }
            }
        }
        idx += 1;
    }
    sorted
}

/// The largest free run in a block of `size` bytes holding `allocations[start..end]`.
fn block_largest_run(allocations: &Vec<AllocationReport>, start: usize, end: usize, size: u64) -> (r:
    u64)
    requires
        start <= end <= allocations@.len(),
    ensures
        r == largest_run(placements(allocations@).subrange(start as int, end as int), size),
{
    let sorted = sorted_placements(allocations, start, end);
    let ghost s = sorted@;
    let mut cursor: u64 = 0;
    let mut best: u64 = 0;
    let mut k: usize = 0;
    while k < sorted.len()
        invariant
            k <= s.len(),
            s == sorted@,
            cursor == max_over(s.subrange(0, k as int), end_fn()),
            best == sweep_best(s, k as int),
        decreases sorted.len() - k,
    {
        let (offset, len) = sorted[k];
        let ghost old_cursor = cursor;
        let ghost old_best = best;
        proof {
            assert(s[k as int] == (offset, len));
            lemma_max_over_prefix_push(s, k as int, end_fn());
            lemma_end_fn(s[k as int]);
        }
        let gap = if offset > cursor {
            offset - cursor
        } else {
            0
        };
        if gap > best {
            best = gap;
        }
        let end = if offset as u128 + len as u128 > u64::MAX as u128 {
            u64::MAX
        } else {
            offset + len
        };
        if end > cursor {
            cursor = end;
        }
        proof {
            assert(end == end_of(s[k as int]));
            assert(gap == sat_sub(offset as int, old_cursor as int));
            assert(sweep_best(s, k + 1) == (if gap > old_best {
                gap as int
            } else {
                old_best as int
            }));
        }
        k += 1;
    }
    let tail = if size > cursor {
        size - cursor
    } else {
        0
    };
    proof {
        assert(s.subrange(0, s.len() as int) =~= s);
        lemma_sweep_finds_largest_gap(s);
        let original = placements(allocations@).subrange(start as int, end as int);
        // Both the gaps and the furthest end depend only on which allocations there are.
        lemma_max_over_permutation(original, s, end_fn());
        assert forall|o: u64| #[trigger] end_before(s, o) == end_before(original, o) by {
            lemma_max_over_permutation(
                original,
                s,
                |a: (u64, u64)| if a.0 < o { end_of(a) } else { 0 },
            );
        }
        let g_sorted = |a: (u64, u64)| gap_before(s, a.0);
        let g_original = |a: (u64, u64)| gap_before(original, a.0);
        assert(g_sorted =~= g_original);
        lemma_max_over_permutation(original, s, g_original);
    }
    if best > tail {
        best
    } else {
        tail
    }
}

/// Reduce an allocator report to the shape of its free space.
///
/// A block whose range does not address the report's allocation list is skipped rather than
/// trusted.
pub fn summarise(report: &AllocatorReport) -> (r: AllocatorFragmentation)
    ensures
        r == summary_spec(*report),
{
    let mut largest: u64 = 0;
    let mut b: usize = 0;
    while b < report.blocks.len()
        invariant
            b <= report.blocks@.len(),
            largest == largest_run_over_blocks(*report, b as int),
        decreases report.blocks.len() - b,
    {
        let block = &report.blocks[b];
        let start = block.allocations.start;
        let end = block.allocations.end;
        if start <= end && end <= report.allocations.len() {
            let run = block_largest_run(&report.allocations, start, end, block.size);
            if run > largest {
                largest = run;
            }
        }
        b += 1;
    }
    let free = if report.total_reserved_bytes > report.total_allocated_bytes {
        report.total_reserved_bytes - report.total_allocated_bytes
    } else {
        0
    };
    AllocatorFragmentation {
        blocks: report.blocks.len(),
        live_allocations: report.allocations.len(),
        reserved_bytes: report.total_reserved_bytes,
        allocated_bytes: report.total_allocated_bytes,
        free_bytes: free,
        largest_free_run_bytes: largest,
    }
}

/// The largest free run never exceeds the block: a gap lies in front of an allocation that
/// starts inside the block, and the tail stops at the block's end.
pub proof fn law_largest_run_within_block(s: Seq<(u64, u64)>, size: u64)
    requires
        forall|i: int| 0 <= i < s.len() ==> s[i].0 <= size,
    ensures
        0 <= largest_run(s, size) <= size,
{
    let g = |a: (u64, u64)| gap_before(s, a.0);
    lemma_max_over_bounds(s, g);
    lemma_max_over_bounds(s, end_fn());
    assert forall|i: int| 0 <= i < s.len() implies g(#[trigger] s[i]) <= size by {
        lemma_max_over_bounds(s, |a: (u64, u64)| if a.0 < s[i].0 { end_of(a) } else { 0 });
    }
    if max_over(s, g) != 0 {
        let i = choose|i: int| 0 <= i < s.len() && g(s[i]) == max_over(s, g);
    }
}

/// The largest free run does not depend on the order in which the allocations are listed.
pub proof fn law_largest_run_ignores_order(s: Seq<(u64, u64)>, p: Seq<(u64, u64)>, size: u64)
    requires
        s.to_multiset() == p.to_multiset(),
    ensures
        largest_run(s, size) == largest_run(p, size),
{
    lemma_max_over_permutation(s, p, end_fn());
    assert forall|o: u64| #[trigger] end_before(s, o) == end_before(p, o) by {
        lemma_max_over_permutation(s, p, |a: (u64, u64)| if a.0 < o { end_of(a) } else { 0 });
    }
    let gs = |a: (u64, u64)| gap_before(s, a.0);
    let gp = |a: (u64, u64)| gap_before(p, a.0);
    assert(gs =~= gp);
    lemma_max_over_permutation(s, p, gs);
}

/// What walking a block's allocations in offset order measures: each allocation's distance from
/// the furthest end reached before it, and the tail from the furthest end to the block's end;
/// the largest of these.
pub open spec fn walk_by_offset(p: Seq<(u64, u64)>, size: u64) -> int {
    let best = sweep_best(p, p.len() as int);
    let tail = sat_sub(size as int, max_over(p, end_fn()));
    if best > tail {
        best
    } else {
        tail
    }
}

/// The largest free run is what walking the allocations in offset order finds, whichever order
/// they were listed in.
pub proof fn law_largest_run_is_the_walk_by_offset(
    s: Seq<(u64, u64)>,
    p: Seq<(u64, u64)>,
    size: u64,
)
    requires
        sorted_by_offset(p),
        p.to_multiset() == s.to_multiset(),
    ensures
        largest_run(s, size) == walk_by_offset(p, size),
{
    law_largest_run_ignores_order(s, p, size);
    lemma_sweep_finds_largest_gap(p);
}

/// A largest run fits in 64 bits: each gap ends at an allocation's offset, and the tail stops at
/// the block's end.
proof fn lemma_largest_run_fits(s: Seq<(u64, u64)>, size: u64)
    ensures
        0 <= largest_run(s, size) <= u64::MAX,
{
    let g = |a: (u64, u64)| gap_before(s, a.0);
    lemma_max_over_bounds(s, g);
    lemma_max_over_bounds(s, end_fn());
    assert forall|i: int| 0 <= i < s.len() implies g(#[trigger] s[i]) <= u64::MAX by {
        lemma_max_over_bounds(s, |a: (u64, u64)| if a.0 < s[i].0 { end_of(a) } else { 0 });
    }
    if max_over(s, g) != 0 {
        let i = choose|i: int| 0 <= i < s.len() && g(s[i]) == max_over(s, g);
    }
}

/// Over the first `n` blocks, the largest run is at least each in-range block's own largest run,
/// and is one of them (or zero).
proof fn lemma_largest_run_over_blocks(report: AllocatorReport, n: int)
    requires
        0 <= n <= report.blocks@.len(),
    ensures
        0 <= largest_run_over_blocks(report, n) <= u64::MAX,
        forall|b: int|
            0 <= b < n && block_in_range(report.blocks@[b], report.allocations@.len() as int)
                ==> #[trigger] largest_run(
                placements(report.allocations@).subrange(
                    report.blocks@[b].allocations.start as int,
                    report.blocks@[b].allocations.end as int,
                ),
                report.blocks@[b].size,
            ) <= largest_run_over_blocks(report, n),
        largest_run_over_blocks(report, n) == 0 || exists|b: int|
            0 <= b < n && block_in_range(report.blocks@[b], report.allocations@.len() as int)
                && #[trigger] largest_run(
                placements(report.allocations@).subrange(
                    report.blocks@[b].allocations.start as int,
                    report.blocks@[b].allocations.end as int,
                ),
                report.blocks@[b].size,
            ) == largest_run_over_blocks(report, n),
    decreases n,
{
    if n > 0 {
        lemma_largest_run_over_blocks(report, n - 1);
        let block = report.blocks@[n - 1];
        lemma_largest_run_fits(
            placements(report.allocations@).subrange(
                block.allocations.start as int,
                block.allocations.end as int,
            ),
            block.size,
        );
    }
}

/// The summary's largest free run is the largest free run of any block: no block whose range
/// addresses the allocation list has a longer one, and unless it is zero some such block has
/// exactly that run.
pub proof fn law_the_largest_free_run_is_the_largest_of_any_block(report: AllocatorReport)
    ensures
        forall|b: int|
            0 <= b < report.blocks@.len() && block_in_range(
                report.blocks@[b],
                report.allocations@.len() as int,
            ) ==> #[trigger] largest_run(
                placements(report.allocations@).subrange(
                    report.blocks@[b].allocations.start as int,
                    report.blocks@[b].allocations.end as int,
                ),
                report.blocks@[b].size,
            ) <= summary_spec(report).largest_free_run_bytes,
        summary_spec(report).largest_free_run_bytes == 0 || exists|b: int|
            0 <= b < report.blocks@.len() && block_in_range(
                report.blocks@[b],
                report.allocations@.len() as int,
            ) && #[trigger] largest_run(
                placements(report.allocations@).subrange(
                    report.blocks@[b].allocations.start as int,
                    report.blocks@[b].allocations.end as int,
                ),
                report.blocks@[b].size,
            ) == summary_spec(report).largest_free_run_bytes,
{
    lemma_largest_run_over_blocks(report, report.blocks@.len() as int);
}

/// The summary counts what the report lists and carries its totals: one block per listed block,
/// one live allocation per listed allocation, and free bytes that with the allocated bytes make
/// up the reserved bytes (none when more is allocated than reserved).
pub proof fn law_the_summary_counts_what_the_report_lists(report: AllocatorReport)
    ensures
        summary_spec(report).blocks == report.blocks.len(),
        summary_spec(report).live_allocations == report.allocations.len(),
        summary_spec(report).reserved_bytes == report.total_reserved_bytes,
        summary_spec(report).allocated_bytes == report.total_allocated_bytes,
        report.total_reserved_bytes >= report.total_allocated_bytes ==> summary_spec(
            report,
        ).free_bytes + report.total_allocated_bytes == report.total_reserved_bytes,
        report.total_reserved_bytes < report.total_allocated_bytes ==> summary_spec(
            report,
        ).free_bytes == 0,
{
}

} // verus!
