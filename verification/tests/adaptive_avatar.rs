use aether_render::adaptive_avatar::{should_cache, AdaptiveAvatarCache, AvatarFrame};

const CLEAN: AvatarFrame = AvatarFrame {
    optimization_enabled: true,
    has_filters: false,
    normal_blend: true,
    opaque_background: false,
    bitmap_cached_preference: false,
    transform_changed: false,
    cache_invalidated: false,
};

fn candidate() -> AdaptiveAvatarCache {
    let mut cache = AdaptiveAvatarCache::new();
    assert_eq!(cache.set_candidate(true, false, false), None);
    cache
}

#[test]
fn aether_adaptive_avatar_cache_requires_three_clean_frames() {
    let mut cache = candidate();
    assert_eq!(cache.update_with_transform(CLEAN), None);
    assert_eq!(cache.update_with_transform(CLEAN), None);
    assert!(!cache.is_active());
    // The third clean frame switches the cache on, and the object gets a bitmap cache.
    assert_eq!(cache.update_with_transform(CLEAN), Some(true));
    assert!(cache.is_active());
    // Further clean frames change nothing.
    assert_eq!(cache.update_with_transform(CLEAN), None);
    assert!(cache.is_active());
}

#[test]
fn aether_adaptive_avatar_cache_drops_on_dirty_frame_and_can_reactivate() {
    let mut cache = candidate();
    for _ in 0..3 {
        cache.update_with_transform(CLEAN);
    }
    assert!(cache.is_active());

    let dirty = AvatarFrame {
        cache_invalidated: true,
        ..CLEAN
    };
    // Nothing else asks for a cache, so the object loses it.
    assert_eq!(cache.update_with_transform(dirty), Some(false));
    assert!(!cache.is_active());

    assert_eq!(cache.update_with_transform(CLEAN), None);
    assert_eq!(cache.update_with_transform(CLEAN), None);
    assert!(!cache.is_active());
    assert_eq!(cache.update_with_transform(CLEAN), Some(true));
    assert!(cache.is_active());
}

#[test]
fn aether_adaptive_avatar_deactivation_retains_authored_cache() {
    let authored = AvatarFrame {
        bitmap_cached_preference: true,
        ..CLEAN
    };
    let mut cache = candidate();
    for _ in 0..3 {
        cache.update_with_transform(authored);
    }
    assert!(cache.is_active());
    let dirty = AvatarFrame {
        cache_invalidated: true,
        ..authored
    };
    assert_eq!(cache.update_with_transform(dirty), Some(true));
    assert!(!cache.is_active());
}

#[test]
fn aether_adaptive_avatar_persistent_motion_never_uses_internal_cache() {
    let mut cache = candidate();
    let moving = AvatarFrame {
        transform_changed: true,
        ..CLEAN
    };
    for _ in 0..8 {
        assert_eq!(cache.update_with_transform(moving), None);
        assert!(!cache.is_active());
    }
}

#[test]
fn drawing_with_effects_drops_the_internal_cache() {
    for (frame, keeps_a_cache) in [
        (
            AvatarFrame {
                has_filters: true,
                ..CLEAN
            },
            true,
        ),
        (
            AvatarFrame {
                normal_blend: false,
                ..CLEAN
            },
            false,
        ),
        (
            AvatarFrame {
                opaque_background: true,
                ..CLEAN
            },
            false,
        ),
    ] {
        let mut cache = candidate();
        for _ in 0..3 {
            cache.update_with_transform(CLEAN);
        }
        assert!(cache.is_active());
        assert_eq!(cache.update_with_transform(frame), Some(keeps_a_cache));
        assert!(!cache.is_active());
    }
}

#[test]
fn only_candidates_are_cached_and_leaving_candidacy_rechecks_an_active_cache() {
    let mut cache = AdaptiveAvatarCache::new();
    for _ in 0..5 {
        assert_eq!(cache.update_with_transform(CLEAN), None);
    }
    assert!(!cache.is_active());

    assert_eq!(cache.set_candidate(true, false, false), None);
    assert_eq!(cache.set_candidate(true, false, false), None);
    for _ in 0..3 {
        cache.update_with_transform(CLEAN);
    }
    assert_eq!(cache.set_candidate(false, true, false), Some(true));
    assert!(!cache.is_active());
    assert_eq!(cache.set_candidate(false, false, false), None);
}

#[test]
fn a_cache_is_kept_for_a_preference_an_active_avatar_or_filters() {
    assert!(!should_cache(false, false, false));
    assert!(should_cache(true, false, false));
    assert!(should_cache(false, true, false));
    assert!(should_cache(false, false, true));
}

#[test]
fn aether_adaptive_avatar_runtime_disable_removes_only_internal_cache() {
    let mut cache = candidate();
    for _ in 0..3 {
        cache.update_with_transform(CLEAN);
    }
    assert!(cache.is_active());
    let disabled = AvatarFrame {
        optimization_enabled: false,
        ..CLEAN
    };
    // No authored preference and no filters: the object's cache goes with the avatar cache.
    assert_eq!(cache.update_with_transform(disabled), Some(false));
    assert!(!cache.is_active());
}

#[test]
fn aether_adaptive_avatar_non_translation_transform_drops_internal_cache() {
    let mut cache = candidate();
    for _ in 0..3 {
        cache.update_with_transform(CLEAN);
    }
    assert!(cache.is_active());
    // A scale changes the recorded [a, b, c, d], which the caller reports as a changed transform.
    let scaled = AvatarFrame {
        transform_changed: true,
        ..CLEAN
    };
    assert_eq!(cache.update_with_transform(scaled), Some(false));
    assert!(!cache.is_active());
}

#[test]
fn aether_adaptive_avatar_translation_keeps_internal_cache_active() {
    let mut cache = candidate();
    for _ in 0..3 {
        cache.update_with_transform(CLEAN);
    }
    assert!(cache.is_active());
    // A pure translation leaves [a, b, c, d] alone, so the frame is still clean.
    assert_eq!(cache.update_with_transform(CLEAN), None);
    assert!(cache.is_active());
}
