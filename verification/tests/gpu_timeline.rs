use aether_render::allocator_report::{AllocationReport, AllocatorReport, MemoryBlockReport};
use aether_render::gpu_timeline::{GpuSample, GpuTimeline, MAX_SAMPLES};
use aether_render::hal_counters::HalCounters;

fn sample(at_ms: u64, textures: u64) -> GpuSample {
    GpuSample {
        at_ms,
        textures,
        ..Default::default()
    }
}

#[test]
fn an_unavailable_allocator_report_is_flagged_rather_than_read_as_zero_fragmentation() {
    let charted: Vec<&'static str> = sample(0, 0)
        .tracked_fields()
        .iter()
        .map(|(name, _)| *name)
        .collect();

    assert!(charted.contains(&"allocator_report_available"));
    assert_eq!(sample(0, 0).allocator_report_available, 0);
}

#[test]
fn the_timeline_tracks_the_shape_of_free_space_and_not_only_its_size() {
    let charted: Vec<&'static str> = sample(0, 0)
        .tracked_fields()
        .iter()
        .map(|(name, _)| *name)
        .collect();

    for name in [
        "allocator_blocks",
        "allocator_reserved_bytes",
        "allocator_largest_free_run_bytes",
    ] {
        assert!(charted.contains(&name), "{name} is not being recorded");
    }
}

#[test]
fn an_empty_timeline_says_so_rather_than_reporting_nothing() {
    let timeline = GpuTimeline::new();

    assert!(timeline.is_empty());
    assert!(timeline.report().contains("No samples"));
}

#[test]
fn a_peak_survives_the_value_falling_back() {
    let mut timeline = GpuTimeline::new();

    timeline.push(sample(1000, 100));
    timeline.push(sample(2000, 9000));
    timeline.push(sample(3000, 50));

    let report = timeline.report();
    assert!(report.contains("9000"), "peak missing from:\n{report}");
    assert!(report.contains("2.0s"), "peak time missing from:\n{report}");
}

#[test]
fn the_ring_reports_what_it_dropped() {
    let mut timeline = GpuTimeline::new();

    for index in 0..(MAX_SAMPLES as u64 + 10) {
        timeline.push(sample(index * 1000, index));
    }

    let report = timeline.report();
    assert!(report.contains("10 earlier samples dropped"), "{report}");
    assert!(report.contains(&(MAX_SAMPLES as u64 + 9).to_string()));
}

#[test]
fn the_final_sample_is_always_shown() {
    let mut timeline = GpuTimeline::new();

    for index in 0..101u64 {
        timeline.push(sample(index * 1000, index));
    }

    assert!(
        timeline.report().contains("100.0s"),
        "final sample missing:\n{}",
        timeline.report()
    );
}

#[test]
fn a_sample_serialises_every_field_it_tracks() {
    let line = sample(1500, 42).to_json_line();

    assert!(line.starts_with('{') && line.ends_with('}'));
    assert!(line.contains("\"textures\":42"));
    assert!(line.contains("\"at_ms\":1500"));
    for (name, _) in sample(0, 0).tracked_fields() {
        assert!(line.contains(&format!("\"{name}\":")), "{name} missing");
    }
}

#[test]
fn the_json_line_lists_the_fields_in_order_and_then_the_time() {
    let line = sample(7, 3).to_json_line();
    assert_eq!(
        line,
        "{\"textures\":3,\"texture_views\":0,\"buffers\":0,\"bind_groups\":0,\
         \"bind_group_layouts\":0,\"samplers\":0,\"render_pipelines\":0,\
         \"compute_pipelines\":0,\"pipeline_layouts\":0,\"shader_modules\":0,\
         \"command_encoders\":0,\"query_sets\":0,\"fences\":0,\"memory_allocations\":0,\
         \"texture_memory_bytes\":0,\"buffer_memory_bytes\":0,\"allocator_blocks\":0,\
         \"allocator_reserved_bytes\":0,\"allocator_largest_free_run_bytes\":0,\
         \"allocator_report_available\":0,\"at_ms\":7}"
    );
}

#[test]
fn a_sample_is_taken_at_most_once_a_second() {
    let mut timeline = GpuTimeline::new();
    let hal = HalCounters {
        textures: 5,
        ..Default::default()
    };

    let first = timeline.maybe_sample(0, &hal, None);
    assert_eq!(first.map(|s| (s.at_ms, s.textures)), Some((0, 5)));
    assert!(timeline.maybe_sample(999_999_999, &hal, None).is_none(), "a nanosecond short");
    let second = timeline.maybe_sample(1_000_000_000, &hal, None);
    assert_eq!(second.map(|s| s.at_ms), Some(1000));
    assert!(timeline.maybe_sample(1_500_000_000, &hal, None).is_none());
    let third = timeline.maybe_sample(2_000_400_000, &hal, None);
    assert_eq!(third.map(|s| s.at_ms), Some(2000), "stamped in whole milliseconds");
    assert!(!timeline.is_empty());
}

#[test]
fn a_captured_sample_carries_the_allocator_shape_when_one_is_reported() {
    let hal = HalCounters {
        textures: 3,
        buffers: 4,
        memory_allocations: 9,
        texture_memory: 2048,
        ..Default::default()
    };
    let report = AllocatorReport {
        allocations: vec![
            AllocationReport {
                name: "a".to_string(),
                offset: 0,
                size: 100,
            },
            AllocationReport {
                name: "b".to_string(),
                offset: 300,
                size: 100,
            },
        ],
        blocks: vec![MemoryBlockReport {
            size: 1000,
            allocations: 0..2,
        }],
        total_allocated_bytes: 200,
        total_reserved_bytes: 1000,
    };

    let with = GpuSample::capture(&hal, Some(&report), 42);
    assert_eq!(with.at_ms, 42);
    assert_eq!(with.textures, 3);
    assert_eq!(with.buffers, 4);
    assert_eq!(with.memory_allocations, 9);
    assert_eq!(with.texture_memory_bytes, 2048);
    assert_eq!(with.allocator_blocks, 1);
    assert_eq!(with.allocator_reserved_bytes, 1000);
    assert_eq!(with.allocator_largest_free_run_bytes, 600);
    assert_eq!(with.allocator_report_available, 1);

    let without = GpuSample::capture(&hal, None, 42);
    assert_eq!(without.allocator_blocks, 0);
    assert_eq!(without.allocator_largest_free_run_bytes, 0);
    assert_eq!(without.allocator_report_available, 0);
}

#[test]
fn a_short_report_is_laid_out_exactly() {
    let mut timeline = GpuTimeline::new();
    timeline.push(GpuSample {
        at_ms: 1500,
        textures: 12,
        texture_memory_bytes: 3 * 1_048_576,
        ..Default::default()
    });

    let report = timeline.report();
    assert!(report.starts_with(
        "1 samples covering 1.5s to 1.5s after the renderer started\n\npeak vs final:\n"
    ));
    assert!(report.contains(
        "\n                                 peak        final    peak at\n"
    ));
    assert!(report.contains("\n  textures                         12           12       1.5s\n"));
    assert!(report.contains("\ntrajectory:\n"));
    assert!(report.contains(
        "\n        at  textures     views   buffers  allocs      tex MB      buf MB\n"
    ));
    assert!(report.ends_with(
        "\n      1.5s        12         0         0       0         3.0         0.0\n"
    ));
}

#[test]
fn a_long_history_is_thinned_and_says_how() {
    let mut timeline = GpuTimeline::new();
    for index in 0..61u64 {
        timeline.push(sample(index * 1000, index));
    }

    let report = timeline.report();
    assert!(report.contains("trajectory (every 3 samples):\n"), "{report}");
    assert!(report.contains("\n      3.0s "), "{report}");
    assert!(!report.contains("\n      1.0s "), "{report}");
    assert!(report.contains("\n     60.0s "), "{report}");
}
