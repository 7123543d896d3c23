use aether_render::switches::{all_switches, by_env_name};

use aether_render::cache_texture_pool::{
    max_idle_bytes, pooling_enabled, set_low_vram, texture_bytes, texture_memory_budget_bytes, CachePoolSettings,
    CacheTexturePool, DEFAULT_MAX_IDLE_BYTES, DEFAULT_TEXTURE_BUDGET_BYTES,
    LOW_VRAM_MAX_IDLE_BYTES, LOW_VRAM_TEXTURE_BUDGET_BYTES, MAX_IDLE_ENTRIES,
};

fn low_vram() -> CachePoolSettings {
    let mut settings = CachePoolSettings::default();
    set_low_vram(&mut settings, true);
    settings
}

#[test]
fn bytes_and_entries_track_what_is_actually_held() {
    // A 2048x2048 texture is 16 MiB, so the small-card cap of 32 MiB holds two.
    let settings = low_vram();
    let mut pool = CacheTexturePool::new(&settings);
    for token in 0..3u32 {
        pool.give_back(true, &settings, token, 2048, 2048);
    }
    let stats = pool.take_stats();
    assert_eq!(stats.idle_entries, 2, "trimmed back to the cap");
    assert_eq!(stats.idle_bytes, texture_bytes(2048, 2048) * 2);
    assert_eq!(stats.dropped, 1);
    assert!(pool.take(true, 2048, 2048).is_some());
    assert!(pool.take(true, 2048, 2048).is_some());
    assert!(pool.take(true, 2048, 2048).is_none(), "counters match the buckets");
}

#[test]
fn eviction_prefers_the_largest_textures() {
    let settings = low_vram();
    let mut pool = CacheTexturePool::new(&settings);
    pool.give_back(true, &settings, 1u32, 2048, 4096);
    pool.give_back(true, &settings, 2u32, 64, 64);
    assert!(pool.take(true, 2048, 4096).is_none(), "the large one goes first");
    assert_eq!(pool.take(true, 64, 64), Some(2), "the small one survives");
}

#[test]
fn the_entry_cap_binds_even_when_the_bytes_are_tiny() {
    let settings = CachePoolSettings::default();
    let mut pool = CacheTexturePool::new(&settings);
    for token in 0..(MAX_IDLE_ENTRIES as u32 + 10) {
        pool.give_back(true, &settings, token, 1, 1);
    }
    assert_eq!(pool.take_stats().idle_entries, MAX_IDLE_ENTRIES as u64);
}

#[test]
fn a_texture_larger_than_the_whole_budget_is_refused_by_the_size_guard() {
    let settings = low_vram();
    assert!(texture_bytes(4096, 4096) > max_idle_bytes(&settings));
    assert!(texture_bytes(64, 64) <= max_idle_bytes(&settings));
    let mut pool = CacheTexturePool::new(&settings);
    pool.give_back(true, &settings, 7u32, 4096, 4096);
    let stats = pool.take_stats();
    assert_eq!((stats.idle_entries, stats.dropped), (0, 1));
}

#[test]
fn the_most_recently_returned_texture_is_taken_first_and_only_at_its_exact_size() {
    let settings = CachePoolSettings::default();
    let mut pool = CacheTexturePool::new(&settings);
    pool.give_back(true, &settings, 10u32, 128, 64);
    pool.give_back(true, &settings, 11u32, 128, 64);
    assert_eq!(pool.take(true, 64, 128), None);
    assert_eq!(pool.take(true, 128, 64), Some(11));
    assert_eq!(pool.take(true, 128, 64), Some(10));
    assert_eq!(pool.take(true, 128, 64), None);
    let stats = pool.take_stats();
    assert_eq!((stats.hits, stats.misses), (2, 2));
    assert_eq!(pool.take_stats().hits, 0);
}

#[test]
fn with_pooling_off_nothing_is_kept_or_counted() {
    let settings = CachePoolSettings::default();
    let mut pool = CacheTexturePool::new(&settings);
    pool.give_back(false, &settings, 1u32, 8, 8);
    assert_eq!(pool.take(false, 8, 8), None);
    let stats = pool.take_stats();
    assert_eq!(
        (stats.hits, stats.misses, stats.dropped, stats.idle_entries),
        (0, 0, 0, 0)
    );
}

#[test]
fn texture_bytes_saturate() {
    assert_eq!(texture_bytes(64, 64), 16_384);
    assert_eq!(texture_bytes(u32::MAX, u32::MAX), u64::MAX);
}

#[test]
fn the_caps_follow_low_vram_mode() {
    let mut settings = CachePoolSettings::default();
    assert_eq!(max_idle_bytes(&settings), DEFAULT_MAX_IDLE_BYTES);
    assert_eq!(texture_memory_budget_bytes(&settings, None), DEFAULT_TEXTURE_BUDGET_BYTES);
    set_low_vram(&mut settings, true);
    assert_eq!(max_idle_bytes(&settings), LOW_VRAM_MAX_IDLE_BYTES);
    assert_eq!(texture_memory_budget_bytes(&settings, None), LOW_VRAM_TEXTURE_BUDGET_BYTES);
}

#[test]
fn a_pinned_budget_is_read_in_mebibytes() {
    let settings = CachePoolSettings::default();
    assert_eq!(texture_memory_budget_bytes(&settings, Some(" 512 ")), 512 * 1024 * 1024);
    assert_eq!(texture_memory_budget_bytes(&settings, Some("+3")), 3 * 1024 * 1024);
    assert_eq!(texture_memory_budget_bytes(&settings, Some("0")), 0);
    assert_eq!(
        texture_memory_budget_bytes(&settings, Some("18446744073709551615")),
        u64::MAX
    );
    assert_eq!(
        texture_memory_budget_bytes(&settings, Some("18446744073709551616")),
        DEFAULT_TEXTURE_BUDGET_BYTES
    );
    assert_eq!(
        texture_memory_budget_bytes(&settings, Some("-1")),
        DEFAULT_TEXTURE_BUDGET_BYTES
    );
    assert_eq!(
        texture_memory_budget_bytes(&settings, Some("")),
        DEFAULT_TEXTURE_BUDGET_BYTES
    );
}

#[test]
fn pooling_follows_its_switch() {
    let mut switches = all_switches();
    let index = switches
        .iter()
        .position(|s| s.env_name() == "AETHER_CACHE_TEXTURE_POOL")
        .unwrap();
    assert!(pooling_enabled(&switches[index]));
    switches[index].set(false);
    assert!(!pooling_enabled(&switches[index]));
    assert!(by_env_name(&switches, "AETHER_CACHE_TEXTURE_POOL").is_some());
}

/// An emptied bucket must not be left behind, or the bucket list grows without bound across a
/// session even while the byte count looks healthy.
#[test]
fn emptied_buckets_are_removed() {
    let settings = low_vram();
    let mut pool = CacheTexturePool::new(&settings);
    pool.give_back(true, &settings, 1u32, 2048, 4096);
    assert_eq!(pool.bucket_count(), 1);
    pool.give_back(true, &settings, 2u32, 64, 64);
    assert_eq!(pool.bucket_count(), 1, "the evicted size's bucket is gone");
    let stats = pool.take_stats();
    assert_eq!((stats.idle_entries, stats.idle_bytes), (1, texture_bytes(64, 64)));
}

// Counters that disagree with the buckets cannot be built through the pool's interface: every
// operation keeps them equal to what the buckets hold, and the library proves it. Trimming still
// resets them rather than looping should nothing be left to evict.
