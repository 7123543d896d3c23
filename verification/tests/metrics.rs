use aether_render::metrics::{
    count_signature_groups, record_blend_batch_census, record_cache_entry,
    record_cache_entry_time, record_complex_blend, record_encoded_chunk, record_filter_groups,
    record_pool_maintenance, record_pool_reset, record_submit_frame, record_texture_creation,
    record_texture_request, take_snapshot, BlendBatchCensus, PoolMaintenanceReport,
    TexturePoolKind, WgpuMetrics, WgpuMetricsSnapshot, COMPLEX_BLEND_MODES,
};

#[test]
fn signature_groups_count_runs_including_the_last_one() {
    let (groups, largest) = count_signature_groups(&mut vec![1, 2, 3, 4]);
    assert_eq!((groups, largest), (4, 1));

    let (groups, largest) = count_signature_groups(&mut vec![7, 7, 7, 7]);
    assert_eq!((groups, largest), (1, 4));

    let (groups, largest) = count_signature_groups(&mut vec![5, 9, 5, 9, 9, 9]);
    assert_eq!((groups, largest), (2, 4));

    let (groups, largest) = count_signature_groups(&mut vec![3]);
    assert_eq!((groups, largest), (1, 1));
}

#[test]
fn pool_snapshot_separates_general_and_offscreen_and_resets() {
    let mut metrics = WgpuMetrics::new();
    let _ = take_snapshot(&mut metrics);
    record_texture_request(&mut metrics, TexturePoolKind::General, true, Some(64));
    record_texture_request(&mut metrics, TexturePoolKind::General, false, Some(128));
    record_texture_request(&mut metrics, TexturePoolKind::Offscreen, false, None);
    record_pool_reset(&mut metrics, TexturePoolKind::Offscreen, 3);

    let snapshot = take_snapshot(&mut metrics);
    assert_eq!(snapshot.general.requests, 2);
    assert_eq!(snapshot.general.reuses, 1);
    assert_eq!(snapshot.general.allocations, 1);
    assert_eq!(snapshot.general.allocated_bytes_estimate, 128);
    assert_eq!(snapshot.offscreen.unknown_size_allocations, 1);
    assert_eq!(snapshot.offscreen.resets, 1);
    assert_eq!(snapshot.offscreen.discarded_available_entries, 3);
    assert_eq!(take_snapshot(&mut metrics), WgpuMetricsSnapshot::default());
}

#[test]
fn pool_maintenance_keeps_gauges_and_resets_counters() {
    let mut metrics = WgpuMetrics::new();
    record_pool_reset(&mut metrics, TexturePoolKind::Offscreen, 0);
    let _ = take_snapshot(&mut metrics);

    record_pool_maintenance(
        &mut metrics,
        TexturePoolKind::Offscreen,
        PoolMaintenanceReport {
            bucket_count: 3,
            available_entries: 7,
            available_bytes: 11_000,
            age_evicted_entries: 2,
            age_evicted_bytes: 3_000,
            budget_evicted_entries: 4,
            budget_evicted_bytes: 5_000,
            unknown_size_evicted_entries: 6,
            globals_available_entries: 8,
            globals_age_evictions: 9,
            globals_budget_evictions: 10,
        },
    );

    let first = take_snapshot(&mut metrics).offscreen;
    assert_eq!(first.maintenance_passes, 1);
    assert_eq!(first.available_entries_after_maintenance, 7);
    assert_eq!(first.available_bytes_after_maintenance, 11_000);
    assert_eq!(first.age_evicted_entries, 2);
    assert_eq!(first.age_evicted_bytes_estimate, 3_000);
    assert_eq!(first.budget_evicted_entries, 4);
    assert_eq!(first.budget_evicted_bytes_estimate, 5_000);
    assert_eq!(first.unknown_size_retention_rejections, 6);
    assert_eq!(first.globals_available_after_maintenance, 8);
    assert_eq!(first.globals_age_evictions, 9);
    assert_eq!(first.globals_budget_evictions, 10);

    let second = take_snapshot(&mut metrics).offscreen;
    assert_eq!(second.maintenance_passes, 0);
    assert_eq!(second.age_evicted_entries, 0);
    assert_eq!(second.available_entries_after_maintenance, 7);
    assert_eq!(second.available_bytes_after_maintenance, 11_000);
    assert_eq!(second.globals_available_after_maintenance, 8);

    record_pool_reset(&mut metrics, TexturePoolKind::Offscreen, 0);
    let reset = take_snapshot(&mut metrics).offscreen;
    assert_eq!(reset.available_entries_after_maintenance, 0);
    assert_eq!(reset.available_bytes_after_maintenance, 0);
    assert_eq!(reset.globals_available_after_maintenance, 0);
}

#[test]
fn counters_saturate_rather_than_wrap() {
    let mut metrics = WgpuMetrics::new();
    record_submit_frame(&mut metrics, u128::MAX, 5, u64::MAX, 1);
    record_submit_frame(&mut metrics, 10, 5, 1, 1);
    let snapshot = take_snapshot(&mut metrics);
    assert_eq!(snapshot.submit_nanos, u64::MAX);
    assert_eq!(snapshot.cache_entry_nanos, 10);
    assert_eq!(snapshot.cache_entries, u64::MAX);
    assert_eq!(snapshot.queue_nanos, 2);
}

#[test]
fn a_blend_mode_outside_the_table_counts_nothing() {
    let mut metrics = WgpuMetrics::new();
    record_complex_blend(&mut metrics, 2);
    record_complex_blend(&mut metrics, 2);
    record_complex_blend(&mut metrics, COMPLEX_BLEND_MODES);
    let snapshot = take_snapshot(&mut metrics);
    assert_eq!(snapshot.complex_blends, [0, 0, 2, 0, 0, 0, 0, 0, 0]);
}

#[test]
fn chunks_split_into_blends_and_draws() {
    let mut metrics = WgpuMetrics::new();
    record_encoded_chunk(&mut metrics, 12, false);
    record_encoded_chunk(&mut metrics, 0, true);
    record_cache_entry(&mut metrics, 0);
    record_cache_entry(&mut metrics, 3);
    record_cache_entry_time(&mut metrics, true, 40);
    record_texture_creation(&mut metrics, 7);
    record_blend_batch_census(
        &mut metrics,
        BlendBatchCensus {
            full_surface: 1,
            adjacent: 2,
            ideal_batches: 3,
            break_not_blend: 4,
            break_mode: 5,
            break_overlap: 6,
            draw_unbounded: 7,
        },
    );
    let snapshot = take_snapshot(&mut metrics);
    assert_eq!(snapshot.render_passes, 2);
    assert_eq!(snapshot.draw_commands, 12);
    assert_eq!(snapshot.blend_chunks, 1);
    assert_eq!(snapshot.draw_chunks, 1);
    assert_eq!(snapshot.cache_entries_filterless, 1);
    assert_eq!(snapshot.cache_entries_filtered, 1);
    assert_eq!(snapshot.cache_entry_filters, 3);
    assert_eq!(snapshot.cache_filtered_nanos, 40);
    assert_eq!(snapshot.texture_create_nanos, 7);
    assert_eq!(snapshot.texture_creations, 1);
    assert_eq!(snapshot.blend_break_overlap, 6);
    assert_eq!(snapshot.draw_unbounded, 7);
}

#[test]
fn filter_groups_add_applications_groups_and_the_largest() {
    let mut metrics = WgpuMetrics::new();
    let mut signatures = vec![4, 1, 4, 4, 2];
    record_filter_groups(&mut metrics, &mut signatures);
    assert_eq!(signatures, vec![1, 2, 4, 4, 4]);
    let mut none: Vec<u64> = Vec::new();
    record_filter_groups(&mut metrics, &mut none);
    let snapshot = take_snapshot(&mut metrics);
    assert_eq!(snapshot.filter_applications, 5);
    assert_eq!(snapshot.filter_groups, 3);
    assert_eq!(snapshot.filter_largest_group, 3);
}
