use std::ops::Range;

use aether_render::allocator_report::{
    summarise, AllocationReport, AllocatorFragmentation, AllocatorReport, MemoryBlockReport,
};

fn allocation(offset: u64, size: u64) -> AllocationReport {
    AllocationReport {
        name: String::new(),
        offset,
        size,
    }
}

fn report(blocks: Vec<(u64, Range<usize>)>, allocations: Vec<AllocationReport>) -> AllocatorReport {
    let allocated_bytes = allocations.iter().map(|entry| entry.size).sum();
    AllocatorReport {
        total_reserved_bytes: blocks.iter().map(|(size, _)| *size).sum(),
        total_allocated_bytes: allocated_bytes,
        blocks: blocks
            .into_iter()
            .map(|(size, allocations)| MemoryBlockReport { size, allocations })
            .collect(),
        allocations,
    }
}

/// The share of free space an allocation the size of the largest free run cannot use, in percent,
/// as the crash report prints it.
fn wasted_free_percent(summary: &AllocatorFragmentation) -> f64 {
    if summary.free_bytes == 0 {
        return 0.0;
    }
    let usable = summary.largest_free_run_bytes as f64;
    (1.0 - usable / summary.free_bytes as f64) * 100.0
}

#[test]
fn a_gap_between_two_allocations_is_measured_as_free_space() {
    let summary = summarise(&report(
        vec![(4_000, 0..2)],
        vec![allocation(0, 1_000), allocation(3_000, 1_000)],
    ));

    assert_eq!(summary.blocks, 1);
    assert_eq!(summary.live_allocations, 2);
    assert_eq!(summary.allocated_bytes, 2_000);
    assert_eq!(summary.free_bytes, 2_000);
    assert_eq!(summary.largest_free_run_bytes, 2_000);
}

#[test]
fn the_tail_of_a_block_past_the_last_allocation_counts_as_free() {
    let summary = summarise(&report(vec![(4_000, 0..1)], vec![allocation(0, 1_000)]));

    assert_eq!(summary.largest_free_run_bytes, 3_000);
}

#[test]
fn free_space_shattered_into_small_gaps_reports_a_small_largest_run() {
    let allocations: Vec<AllocationReport> = (0..1_000)
        .map(|index| allocation(index * 4_000, 3_000))
        .collect();
    let summary = summarise(&report(vec![(4_000_000, 0..1_000)], allocations));

    assert_eq!(summary.free_bytes, 1_000_000);
    assert_eq!(summary.largest_free_run_bytes, 1_000);
    assert!(wasted_free_percent(&summary) > 99.0);
}

#[test]
fn allocations_out_of_offset_order_still_measure_the_same_gaps() {
    let ordered = summarise(&report(
        vec![(9_000, 0..3)],
        vec![
            allocation(0, 1_000),
            allocation(2_000, 1_000),
            allocation(8_000, 1_000),
        ],
    ));
    let shuffled = summarise(&report(
        vec![(9_000, 0..3)],
        vec![
            allocation(8_000, 1_000),
            allocation(0, 1_000),
            allocation(2_000, 1_000),
        ],
    ));

    assert_eq!(ordered, shuffled);
    assert_eq!(ordered.largest_free_run_bytes, 5_000);
}

#[test]
fn an_empty_report_summarises_to_zeroes_rather_than_dividing_by_zero() {
    let summary = summarise(&report(vec![], vec![]));

    assert_eq!(summary, AllocatorFragmentation::default());
    assert_eq!(wasted_free_percent(&summary), 0.0);
}

#[test]
fn a_block_range_past_the_allocation_list_is_skipped_rather_than_panicking() {
    let summary = summarise(&report(vec![(4_000, 0..99)], vec![allocation(0, 1_000)]));

    assert_eq!(summary.blocks, 1);
    assert_eq!(summary.largest_free_run_bytes, 0);
}

#[test]
fn overlapping_allocations_do_not_invent_free_space() {
    // The second allocation starts inside the first; the gap is measured from the furthest end.
    let summary = summarise(&report(
        vec![(10_000, 0..3)],
        vec![
            allocation(0, 5_000),
            allocation(1_000, 1_000),
            allocation(6_000, 1_000),
        ],
    ));
    assert_eq!(summary.largest_free_run_bytes, 3_000);
}

#[test]
fn reserved_below_allocated_reports_no_free_bytes() {
    let mut r = report(vec![(1_000, 0..1)], vec![allocation(0, 500)]);
    r.total_allocated_bytes = 2_000;
    assert_eq!(summarise(&r).free_bytes, 0);
}
