use aether_render::metrics::{
    record_pool_maintenance, record_texture_request, PoolMaintenanceReport, TexturePoolKind,
    WgpuMetrics,
};
use aether_render::texture_census::{
    census_totals_fit, recent_textures, record_gpu_residency, record_texture_created,
    texture_census_report, texture_key, TextureCensus, TextureOrigin, RECENT_TEXTURE_SLOTS,
    TEXTURE_BUCKETS,
};

#[test]
fn the_ring_reports_recent_creations_oldest_first_and_survives_wrapping() {
    let mut census = TextureCensus::new();
    let _ = recent_textures(&census);
    for index in 0..(RECENT_TEXTURE_SLOTS as u32 + 3) {
        record_texture_created(&mut census, TextureOrigin::Pool, 100 + index, 200 + index, 4, 64);
    }

    let recent = recent_textures(&census);
    assert_eq!(recent.len(), RECENT_TEXTURE_SLOTS);

    let newest = recent.last().unwrap();
    let last_index = RECENT_TEXTURE_SLOTS as u32 + 2;
    assert_eq!(newest.width, 100 + last_index);
    assert_eq!(newest.height, 200 + last_index);
    assert_eq!(newest.samples, 4);
    assert_eq!(newest.origin, "pool");

    assert_eq!(recent[0].width, 103);
}

#[test]
fn saturated_census_still_attributes_the_overflow_and_counts_its_bytes() {
    let mut census = TextureCensus::new();
    for height in 0..TEXTURE_BUCKETS as u32 {
        record_texture_created(&mut census, TextureOrigin::Pool, 1, height + 1, 1, 10);
    }

    record_texture_created(&mut census, TextureOrigin::Bitmap, 4096, 4096, 1, 67_108_864);

    assert!(census_totals_fit(&census));
    let report = texture_census_report(&census, 4).join("\n");
    assert!(
        report.contains("(table full)"),
        "a saturated table must say so rather than report 512 as a finding: {report}"
    );
    assert!(
        report.contains("bitmap (sizes past the table)"),
        "overflow must still name which origin allocated it: {report}"
    );
    assert!(
        report.contains("67.1 MB"),
        "overflow must carry its bytes: {report}"
    );
    assert!(
        report.contains(&format!("{} allocations", TEXTURE_BUCKETS + 1)),
        "the header total must include the overflow: {report}"
    );
}

#[test]
fn texture_census_names_gradient_atlas_allocations() {
    let mut census = TextureCensus::new();
    record_texture_created(&mut census, TextureOrigin::GradientAtlas, 256, 4_096, 1, 4_194_304);

    let report = texture_census_report(&census, 4).join("\n");
    assert!(
        report.contains("gradient-atlas"),
        "the atlas must be distinguishable from decoded bitmaps: {report}"
    );
    assert!(
        report.contains("256x4096"),
        "atlas dimensions missing: {report}"
    );
}

#[test]
fn census_reports_pool_reuse_and_how_thinly_the_entry_cap_is_spread() {
    let mut metrics = WgpuMetrics::new();
    record_texture_request(&mut metrics, TexturePoolKind::General, true, Some(64));
    record_texture_request(&mut metrics, TexturePoolKind::General, false, Some(64));
    record_texture_request(&mut metrics, TexturePoolKind::General, false, Some(64));
    record_texture_request(&mut metrics, TexturePoolKind::General, false, Some(64));
    record_pool_maintenance(
        &mut metrics,
        TexturePoolKind::General,
        PoolMaintenanceReport {
            bucket_count: 412,
            available_entries: 96,
            available_bytes: 310_000_000,
            budget_evicted_entries: 7,
            age_evicted_entries: 3,
            ..Default::default()
        },
    );

    let report = texture_census_report(&metrics.census, 1).join("\n");
    assert!(
        report.contains("general pool: 1/4 reused (25.0%)"),
        "reuse ratio must be reported: {report}"
    );
    assert!(
        report.contains("412 buckets"),
        "bucket count says how thinly the entry cap is divided: {report}"
    );
    assert!(
        report.contains("evicted 7 for budget / 3 for age"),
        "eviction cause separates a byte limit from an idle limit: {report}"
    );
    assert!(
        !report.contains("offscreen pool:"),
        "a pool with no requests must not print a line: {report}"
    );
}

#[test]
fn census_reports_live_residency_so_churn_is_distinguishable_from_retention() {
    let mut census = TextureCensus::new();
    record_gpu_residency(&mut census, 39_600_000_000, 1185, 812);

    let report = texture_census_report(&census, 1).join("\n");
    assert!(
        report.contains("1185 textures"),
        "live texture count must appear: {report}"
    );
    assert!(
        report.contains("39.60 GB resident"),
        "resident bytes are the figure that explains a device loss: {report}"
    );
}

#[test]
fn an_empty_census_reports_only_its_header() {
    let census = TextureCensus::new();
    assert_eq!(
        texture_census_report(&census, 10),
        vec!["texture census: 0 allocations, 0.0 GB created in total, 0/4096 size buckets used"
            .to_string()]
    );
}

#[test]
fn buckets_are_listed_by_bytes_then_table_order_and_cut_at_the_limit() {
    let mut census = TextureCensus::new();
    record_texture_created(&mut census, TextureOrigin::Pool, 10, 10, 1, 100);
    record_texture_created(&mut census, TextureOrigin::Bitmap, 20, 20, 1, 5_000_000);
    record_texture_created(&mut census, TextureOrigin::Pool, 10, 10, 1, 100);
    record_texture_created(&mut census, TextureOrigin::Pool, 30, 30, 4, 200);

    let lines = texture_census_report(&census, 2);
    assert_eq!(
        lines[0],
        "texture census: 4 allocations, 0.0 GB created in total, 3/4096 size buckets used"
    );
    assert_eq!(lines[1], "bitmap    20x20    x1        1 allocs        5.0 MB");
    assert_eq!(lines[2], "  pool    10x10    x1        2 allocs        0.0 MB");
    assert_eq!(lines[3], "most recent 4 texture requests (newest last):");
    assert_eq!(lines[4], "    pool    10x10    x1");
    assert_eq!(lines[7], "    pool    30x30    x4");
    assert_eq!(lines.len(), 8);
}

#[test]
fn a_key_is_never_zero_and_caps_what_it_cannot_hold() {
    let key = texture_key(TextureOrigin::GradientAtlas, u32::MAX, 7, 99);
    assert_ne!(key, 0);
    assert_eq!(key >> 62, 3);
    assert_eq!((key >> 58) & 0xF, 15);
    assert_eq!((key >> 29) & 0x1FFF_FFFF, 0x1FFF_FFFF);
    assert_eq!(key & 0x1FFF_FFFF, 7);
}

#[test]
fn residency_keeps_the_high_water_mark() {
    let mut census = TextureCensus::new();
    record_gpu_residency(&mut census, 3_000_000_000, 30, 5);
    record_gpu_residency(&mut census, 1_000_000_000, 10, 4);
    let report = texture_census_report(&census, 0);
    assert_eq!(
        report[1],
        "  live at fault: 10 textures, 1.00 GB resident, 4 device allocations"
    );
    assert_eq!(report[2], "  peak live:     30 textures, 3.00 GB resident");
}

#[test]
fn each_creation_adds_one_allocation_and_its_bytes_to_the_header() {
    let mut census = TextureCensus::new();
    record_texture_created(&mut census, TextureOrigin::Pool, 64, 64, 1, 16_384);
    record_texture_created(&mut census, TextureOrigin::Pool, 64, 64, 1, 16_384);
    record_texture_created(&mut census, TextureOrigin::Bitmap, 100, 50, 4, 80_000);
    assert!(census_totals_fit(&census));
    let report = texture_census_report(&census, 10);
    assert!(
        report[0].starts_with("texture census: 3 allocations, 0.0 GB created in total, 2/"),
        "{}",
        report[0]
    );
}
