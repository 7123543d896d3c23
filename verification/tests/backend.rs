use aether_render::backend::{
    bitmap_cache_filter_source_size, effective_memory_hints, filter_atlas_enabled,
    filter_atlas_max_group, render_target_size_supported,
    memory_hints_for_adapter_info, parse_memory_policy, set_filter_atlas_low_vram,
    submission_retirement_limit_for_adapter_info, AdapterInfo, Backend, FilterAtlasSettings,
    MemoryHints, SubmissionRetirement,
};

fn adapter_info(name: &str, vendor: u32, backend: Backend) -> AdapterInfo {
    AdapterInfo {
        name: name.to_string(),
        vendor,
        backend,
    }
}

#[test]
fn a_memory_policy_can_be_named_explicitly_and_junk_is_refused() {
    assert!(matches!(
        parse_memory_policy("performance"),
        Some(MemoryHints::Performance)
    ));
    assert!(matches!(
        parse_memory_policy("  PerFormance  "),
        Some(MemoryHints::Performance)
    ));
    assert!(matches!(
        parse_memory_policy("usage"),
        Some(MemoryHints::MemoryUsage)
    ));
    assert!(parse_memory_policy("fastest").is_none());
    assert!(parse_memory_policy("").is_none());
}

#[test]
fn every_spelling_of_the_memory_usage_policy_is_understood() {
    for spelling in ["usage", "MemoryUsage", "memory-usage", "\tUSAGE\n", "\u{3000}usage"] {
        assert_eq!(
            parse_memory_policy(spelling),
            Some(MemoryHints::MemoryUsage),
            "{spelling:?}"
        );
    }
    assert_eq!(parse_memory_policy("memory usage"), None);
}

#[test]
fn every_adapter_gets_large_suballocation_blocks() {
    for (name, vendor, backend) in [
        ("AMD Radeon RX 6800 XT", 0x1002, Backend::Vulkan),
        ("AMD Radeon RX 6800 XT", 0x1002, Backend::Dx12),
        ("NVIDIA GeForce RTX 3080", 0x10de, Backend::Vulkan),
        ("Intel Arc A770", 0x8086, Backend::Vulkan),
    ] {
        assert!(
            matches!(
                memory_hints_for_adapter_info(&adapter_info(name, vendor, backend)),
                MemoryHints::Performance
            ),
            "{name} on {backend:?} should use large blocks"
        );
    }
}

#[test]
fn an_explicit_memory_policy_overrides_the_adapter_default() {
    let amd = adapter_info("AMD Radeon RX 6800 XT", 0x1002, Backend::Vulkan);
    assert_eq!(
        effective_memory_hints(Some(MemoryHints::MemoryUsage), &amd),
        MemoryHints::MemoryUsage
    );
    assert_eq!(effective_memory_hints(None, &amd), MemoryHints::Performance);
}

#[test]
fn filters_process_only_the_logical_cache_region() {
    assert_eq!(
        bitmap_cache_filter_source_size((637, 584), (463, 498)),
        (463, 498)
    );
    assert_eq!(
        bitmap_cache_filter_source_size((637, 584), (900, 498)),
        (637, 498)
    );
}

#[test]
fn submission_retirement_waits_for_the_oldest_frame_at_the_limit() {
    let mut retirement = SubmissionRetirement::new(Some(2));

    assert_eq!(retirement.push(11), None);
    assert_eq!(retirement.push(12), None);
    assert_eq!(retirement.push(13), Some(11));
    assert_eq!(retirement.push(14), Some(12));
}

#[test]
fn intermediate_flushes_share_the_frame_retirement_budget() {
    let mut retirement = SubmissionRetirement::new(Some(2));

    assert_eq!(retirement.push_direct(21), None);
    assert_eq!(retirement.push_target(22), None);
    assert_eq!(retirement.push_direct(23), Some(21));
    assert_eq!(retirement.push_target(24), Some(22));
}

#[test]
fn without_a_limit_nothing_is_retired() {
    let mut retirement = SubmissionRetirement::new(None);
    for submission in 0..10 {
        assert_eq!(retirement.push(submission), None);
    }
}

#[test]
fn submission_retirement_is_limited_to_amd_vulkan() {
    let amd_vulkan = adapter_info("AMD Radeon RX 6800 XT", 0x1002, Backend::Vulkan);
    assert_eq!(
        submission_retirement_limit_for_adapter_info(&amd_vulkan),
        Some(2)
    );

    let nvidia_vulkan = adapter_info("NVIDIA GeForce RTX 3080", 0x10de, Backend::Vulkan);
    assert_eq!(
        submission_retirement_limit_for_adapter_info(&nvidia_vulkan),
        None
    );

    let amd_dx12 = adapter_info("AMD Radeon RX 6800 XT", 0x1002, Backend::Dx12);
    assert_eq!(
        submission_retirement_limit_for_adapter_info(&amd_dx12),
        None
    );
}

#[test]
fn low_vram_holds_atlas_groups_to_three() {
    let mut settings = FilterAtlasSettings::new();
    assert_eq!(filter_atlas_max_group(&settings), 8);
    set_filter_atlas_low_vram(&mut settings, true);
    assert_eq!(filter_atlas_max_group(&settings), 3);
    set_filter_atlas_low_vram(&mut settings, false);
    assert_eq!(filter_atlas_max_group(&settings), 8);
}

#[test]
fn the_filter_atlas_is_on_unless_its_variable_says_otherwise() {
    assert!(filter_atlas_enabled(None));
    assert!(!filter_atlas_enabled(Some("0")));
    assert!(!filter_atlas_enabled(Some("off")));
    assert!(!filter_atlas_enabled(Some("false")));
    assert!(filter_atlas_enabled(Some("1")));
    assert!(filter_atlas_enabled(Some("OFF")));
    assert!(filter_atlas_enabled(Some("")));
}

#[test]
fn a_render_target_larger_than_the_device_allows_is_refused() {
    assert!(render_target_size_supported(8192, 8192, 8192));
    assert!(!render_target_size_supported(8193, 100, 8192));
    assert!(!render_target_size_supported(100, 8193, 8192));
}
