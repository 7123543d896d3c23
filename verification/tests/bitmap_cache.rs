use aether_render::bitmap_cache::{
    adaptive_avatar_cache_dimensions_allowed, bitmap_cache_output_intersects_viewport,
    bitmap_cache_texture_plan, bitmap_cache_texture_plan_with_grid, bitmap_cache_texture_policy,
    filterless_direct_render_safety_check_needed,
    quantise_cache_texture_size, Avm2LifecycleDirty, Avm2LifecycleTraversal, BitmapCache, BitmapCacheTexturePlan,
    BitmapCacheTexturePolicy, CacheTextureAction, CachedDraw, CachedDrawFrame, Rectangle, RenderOptions,
    FILTERLESS_HOT_CACHE_DIRECT_FRAMES,
};

fn px(pixels: i32) -> i32 {
    pixels * 20
}

#[test]
fn a_run_of_drifting_sizes_collapses_to_one_bucket() {
    let drift = [(247, 226), (248, 227), (249, 228)];
    let quantised: Vec<_> = drift
        .iter()
        .map(|size| quantise_cache_texture_size(*size))
        .collect();

    assert!(
        quantised.windows(2).all(|pair| pair[0] == pair[1]),
        "a pixel of drift must not change the bucket: {quantised:?}"
    );
    assert_eq!(quantised[0], (256, 256));
}

#[test]
fn quantising_never_shrinks_a_texture_below_its_contents() {
    for width in [1_u32, 63, 64, 65, 183, 512, 1023, 1024] {
        for height in [1_u32, 64, 145, 583, 1024] {
            let (quantised_width, quantised_height) = quantise_cache_texture_size((width, height));
            assert!(
                quantised_width >= width && quantised_height >= height,
                "{width}x{height} must not shrink to {quantised_width}x{quantised_height}"
            );
        }
    }
}

#[test]
fn oversized_surfaces_collapse_too() {
    assert_eq!(
        quantise_cache_texture_size((3682, 1715)),
        quantise_cache_texture_size((3671, 1710)),
        "a few pixels of drift on a backdrop must not make a new bucket"
    );
    assert_eq!(
        quantise_cache_texture_size((2261, 1768)),
        quantise_cache_texture_size((2255, 1763))
    );
}

#[test]
fn the_slack_stays_proportional_on_large_surfaces() {
    for size in [(1024, 768), (1370, 988), (2261, 1768), (3682, 1715)] {
        let (width, height) = quantise_cache_texture_size(size);
        let before = f64::from(size.0) * f64::from(size.1);
        let after = f64::from(width) * f64::from(height);

        assert!(
            after / before <= 1.15,
            "{size:?} became {width}x{height}, wasting {:.0}%",
            (after / before - 1.0) * 100.0
        );
    }
}

#[test]
fn quantising_never_shrinks_a_large_texture_either() {
    for width in [1_025_u32, 2_048, 2_261, 3_682, 4_097, 8_192] {
        for height in [1_710_u32, 1_768, 2_048, 4_096] {
            let (quantised_width, quantised_height) = quantise_cache_texture_size((width, height));
            assert!(
                quantised_width >= width && quantised_height >= height,
                "{width}x{height} must not shrink to {quantised_width}x{quantised_height}"
            );
        }
    }
}

#[test]
fn quantising_rounds_to_a_proportional_cell() {
    // A 250px avatar rounds by 64; a 3700px backdrop rounds by 256.
    assert_eq!(quantise_cache_texture_size((250, 3700)), (256, 3840));
    assert_eq!(quantise_cache_texture_size((0, 64)), (0, 64));
    assert_eq!(quantise_cache_texture_size((65, 1025)), (128, 1152));
}

#[test]
fn bitmap_cache_capacity_tracks_alternating_animation_bounds_exactly() {
    assert_eq!(
        bitmap_cache_texture_plan(Some((463, 584)), (637, 498), BitmapCacheTexturePolicy::Exact),
        BitmapCacheTexturePlan::Allocate {
            width: 637,
            height: 498,
        }
    );
    assert_eq!(
        bitmap_cache_texture_plan(Some((637, 584)), (463, 584), BitmapCacheTexturePolicy::Exact),
        BitmapCacheTexturePlan::Allocate {
            width: 463,
            height: 584,
        }
    );
}

#[test]
fn an_animating_avatar_reuses_its_cache_texture_across_one_pixel_bounds_changes() {
    for requested in [(462, 583), (461, 580), (400, 500)] {
        assert_eq!(
            bitmap_cache_texture_plan(
                Some((463, 584)),
                requested,
                BitmapCacheTexturePolicy::BoundedReuse,
            ),
            BitmapCacheTexturePlan::Reuse,
            "{requested:?} fits inside the existing 463x584 surface"
        );
        assert_eq!(
            bitmap_cache_texture_plan(Some((463, 584)), requested, BitmapCacheTexturePolicy::Exact),
            BitmapCacheTexturePlan::Allocate {
                width: requested.0,
                height: requested.1,
            },
            "Exact reallocates for the same request"
        );
    }
}

#[test]
fn bitmap_cache_capacity_drops_a_transient_large_effect_immediately() {
    assert_eq!(
        bitmap_cache_texture_plan(Some((1_031, 840)), (463, 584), BitmapCacheTexturePolicy::Exact),
        BitmapCacheTexturePlan::Allocate {
            width: 463,
            height: 584,
        }
    );
}

#[test]
fn bitmap_cache_capacity_is_exact_when_padding_could_be_visible() {
    assert_eq!(
        bitmap_cache_texture_plan(Some((637, 584)), (463, 584), BitmapCacheTexturePolicy::Exact),
        BitmapCacheTexturePlan::Allocate {
            width: 463,
            height: 584,
        }
    );
}

#[test]
fn bitmap_cache_capacity_reuses_only_an_exact_match() {
    assert_eq!(
        bitmap_cache_texture_plan(Some((463, 584)), (463, 584), BitmapCacheTexturePolicy::Exact),
        BitmapCacheTexturePlan::Reuse
    );
}

#[test]
fn adaptive_avatar_cache_reuses_bounded_high_water_capacity() {
    assert_eq!(
        bitmap_cache_texture_plan(
            Some((463, 584)),
            (637, 498),
            BitmapCacheTexturePolicy::BoundedReuse,
        ),
        BitmapCacheTexturePlan::Allocate {
            width: 637,
            height: 584,
        }
    );
    assert_eq!(
        bitmap_cache_texture_plan(
            Some((637, 584)),
            (463, 584),
            BitmapCacheTexturePolicy::BoundedReuse,
        ),
        BitmapCacheTexturePlan::Reuse
    );
}

#[test]
fn adaptive_avatar_cache_drops_excessive_capacity() {
    assert_eq!(
        bitmap_cache_texture_plan(
            Some((1_031, 840)),
            (463, 584),
            BitmapCacheTexturePolicy::BoundedReuse,
        ),
        BitmapCacheTexturePlan::Allocate {
            width: 463,
            height: 584,
        }
    );
}

#[test]
fn adaptive_avatar_cache_rejects_oversized_live_textures() {
    assert!(adaptive_avatar_cache_dimensions_allowed(1_024, 1_024));
    assert!(!adaptive_avatar_cache_dimensions_allowed(2_049, 1));
    assert!(!adaptive_avatar_cache_dimensions_allowed(2_048, 1_024));
}

#[test]
fn a_first_request_always_allocates_what_was_asked() {
    assert_eq!(
        bitmap_cache_texture_plan(None, (100, 50), BitmapCacheTexturePolicy::BoundedReuse),
        BitmapCacheTexturePlan::Allocate {
            width: 100,
            height: 50
        }
    );
}

#[test]
fn filterless_direct_render_skips_redundant_nested_safety_scans() {
    assert!(!filterless_direct_render_safety_check_needed(false, false));
    assert!(filterless_direct_render_safety_check_needed(false, true));
    assert!(!filterless_direct_render_safety_check_needed(true, true));
}

#[test]
fn bitmap_cache_culling_uses_filtered_output_bounds() {
    let offscreen = Rectangle {
        x_min: px(1_100),
        x_max: px(1_200),
        y_min: px(100),
        y_max: px(200),
    };
    let no_growth = Rectangle {
        x_min: 0,
        x_max: 100,
        y_min: 0,
        y_max: 100,
    };
    assert!(!bitmap_cache_output_intersects_viewport(
        offscreen, no_growth, 960, 550,
    ));

    let near_edge = Rectangle {
        x_min: px(965),
        x_max: px(1_065),
        y_min: px(100),
        y_max: px(200),
    };
    let glow_growth = Rectangle {
        x_min: -10,
        x_max: 110,
        y_min: -10,
        y_max: 110,
    };
    assert!(bitmap_cache_output_intersects_viewport(
        near_edge,
        glow_growth,
        960,
        550,
    ));
}

#[test]
fn an_invalid_rectangle_touches_nothing() {
    let invalid = Rectangle {
        x_min: 0x7ffffff,
        x_max: 0x7ffffff,
        y_min: 0x7ffffff,
        y_max: 0x7ffffff,
    };
    let everything = Rectangle {
        x_min: -1000,
        x_max: 0x7fff_fff0,
        y_min: -1000,
        y_max: 0x7fff_fff0,
    };
    assert!(!invalid.intersects(&everything));
    assert!(everything.is_valid());
}

#[test]
fn lifecycle_traversals_each_own_one_bit() {
    let bits = [
        Avm2LifecycleTraversal::Enter.bit(),
        Avm2LifecycleTraversal::Construct.bit(),
        Avm2LifecycleTraversal::FrameScripts.bit(),
    ];
    assert_eq!(bits, [1, 2, 4]);
    assert_eq!(bits[0] | bits[1] | bits[2], Avm2LifecycleTraversal::ALL);
}

#[test]
fn render_options_default_skips_masks_and_applies_the_transform() {
    let options = RenderOptions::default();
    assert!(options.skip_masks && options.apply_transform && options.apply_matrix);
}

#[test]
fn repeatedly_invalidated_filterless_cache_enters_temporary_direct_rendering() {
    let mut cache = BitmapCache::default();
    assert!(!cache.note_filterless_rebuild());
    assert!(!cache.note_filterless_rebuild());
    assert!(cache.note_filterless_rebuild());

    // Reaching the hot threshold only requests a semantic-safety check. The expensive
    // descendant walk decides whether the direct-render window may actually begin.
    assert!(!cache.take_filterless_direct_render_frame());
    cache.begin_filterless_direct_rendering();
    assert!(cache.take_filterless_direct_render_frame());
}

#[test]
fn clean_filterless_cache_hit_cancels_hot_rebuild_streak() {
    let mut cache = BitmapCache::default();
    assert!(!cache.note_filterless_rebuild());
    assert!(!cache.note_filterless_rebuild());
    cache.note_cache_hit();
    assert!(!cache.note_filterless_rebuild());
}

#[test]
fn the_direct_render_window_lasts_its_frames_and_can_be_cancelled() {
    let mut cache = BitmapCache::default();
    cache.begin_filterless_direct_rendering();
    for _ in 0..FILTERLESS_HOT_CACHE_DIRECT_FRAMES {
        assert!(cache.has_filterless_direct_render_frames());
        assert!(cache.take_filterless_direct_render_frame());
    }
    assert!(!cache.has_filterless_direct_render_frames());
    assert!(!cache.take_filterless_direct_render_frame());

    cache.begin_filterless_direct_rendering();
    cache.cancel_filterless_direct_rendering();
    assert!(!cache.take_filterless_direct_render_frame());

    // The streak starts over after it fires.
    assert!(!cache.note_filterless_rebuild());
    assert!(!cache.note_filterless_rebuild());
    assert!(cache.note_filterless_rebuild());
    assert!(!cache.note_filterless_rebuild());
}

#[test]
fn updating_a_cache_creates_keeps_or_releases_its_texture() {
    let mut cache = BitmapCache::default();
    let action = cache.update(90, 60, 100, 80, 10, true, BitmapCacheTexturePolicy::Exact);
    assert_eq!(action, CacheTextureAction::Create { width: 100, height: 80 });
    assert_eq!(cache.output_size(), (100, 80));
    cache.texture_created(100, 80);

    // The same output keeps the texture.
    let action = cache.update(90, 60, 100, 80, 10, true, BitmapCacheTexturePolicy::Exact);
    assert_eq!(action, CacheTextureAction::Keep);

    // A smaller output fits in the old texture under bounded reuse, not under exact sizing.
    let action = cache.update(90, 60, 90, 70, 10, true, BitmapCacheTexturePolicy::BoundedReuse);
    assert_eq!(action, CacheTextureAction::Keep);
    let action = cache.update(90, 60, 90, 70, 10, true, BitmapCacheTexturePolicy::Exact);
    assert_eq!(action, CacheTextureAction::Create { width: 90, height: 70 });

    // Nothing to draw into, or no offscreen rendering: the texture goes.
    assert_eq!(
        cache.update(0, 0, 0, 70, 10, true, BitmapCacheTexturePolicy::Exact),
        CacheTextureAction::Release
    );
    assert_eq!(
        cache.update(90, 60, 90, 70, 10, false, BitmapCacheTexturePolicy::Exact),
        CacheTextureAction::Release
    );
}

#[test]
fn the_largest_cache_texture_depends_on_the_movie_version() {
    let mut cache = BitmapCache::default();
    // Version 9 and older: under 2880 a side.
    assert_eq!(
        cache.update(1, 1, 2879, 100, 9, true, BitmapCacheTexturePolicy::Exact),
        CacheTextureAction::Create { width: 2879, height: 100 }
    );
    assert_eq!(
        cache.update(1, 1, 2880, 100, 9, true, BitmapCacheTexturePolicy::Exact),
        CacheTextureAction::Release
    );
    // Version 10 on: under 8191 a side and 16777215 pixels in all.
    assert_eq!(
        cache.update(1, 1, 8190, 2048, 10, true, BitmapCacheTexturePolicy::Exact),
        CacheTextureAction::Create { width: 8190, height: 2048 }
    );
    assert_eq!(
        cache.update(1, 1, 8190, 2049, 10, true, BitmapCacheTexturePolicy::Exact),
        CacheTextureAction::Release
    );
    cache.clear();
    assert_eq!(
        cache.update(1, 1, 8190, 2048, 10, true, BitmapCacheTexturePolicy::Exact),
        CacheTextureAction::Create { width: 8190, height: 2048 }
    );
}

#[test]
fn a_lifecycle_walk_clears_only_its_own_mark_and_a_change_during_it_stays_for_the_next_pass() {
    let mut dirty = Avm2LifecycleDirty::default();
    for walk in [
        Avm2LifecycleTraversal::Enter,
        Avm2LifecycleTraversal::Construct,
        Avm2LifecycleTraversal::FrameScripts,
    ] {
        assert!(dirty.is_avm2_lifecycle_dirty(walk));
    }

    assert!(dirty.begin_avm2_lifecycle_traversal(Avm2LifecycleTraversal::Construct));
    assert!(!dirty.is_avm2_lifecycle_dirty(Avm2LifecycleTraversal::Construct));
    assert!(dirty.is_avm2_lifecycle_dirty(Avm2LifecycleTraversal::Enter));
    assert!(dirty.is_avm2_lifecycle_dirty(Avm2LifecycleTraversal::FrameScripts));

    // A clean subtree is skipped on the next pass.
    assert!(!dirty.begin_avm2_lifecycle_traversal(Avm2LifecycleTraversal::Construct));

    // A mutation during the walk keeps the mark for the next one.
    assert!(dirty.begin_avm2_lifecycle_traversal(Avm2LifecycleTraversal::FrameScripts));
    dirty.mark_avm2_lifecycle_dirty(Avm2LifecycleTraversal::FrameScripts);
    assert!(dirty.begin_avm2_lifecycle_traversal(Avm2LifecycleTraversal::FrameScripts));
}

#[test]
fn a_cloned_lifecycle_summary_starts_with_every_walk_dirty() {
    let mut template = Avm2LifecycleDirty::new();
    template.begin_avm2_lifecycle_traversal(Avm2LifecycleTraversal::Enter);
    template.begin_avm2_lifecycle_traversal(Avm2LifecycleTraversal::Construct);
    template.begin_avm2_lifecycle_traversal(Avm2LifecycleTraversal::FrameScripts);
    let clone = template.clone();
    assert!(clone.is_avm2_lifecycle_dirty(Avm2LifecycleTraversal::Enter));
    assert!(clone.is_avm2_lifecycle_dirty(Avm2LifecycleTraversal::Construct));
    assert!(clone.is_avm2_lifecycle_dirty(Avm2LifecycleTraversal::FrameScripts));
    assert!(!template.is_avm2_lifecycle_dirty(Avm2LifecycleTraversal::Enter));
}

#[test]
fn with_the_grid_on_drifting_requests_share_one_texture() {
    let exact = BitmapCacheTexturePolicy::Exact;
    assert_eq!(
        bitmap_cache_texture_plan_with_grid(None, (247, 226), exact, true),
        BitmapCacheTexturePlan::Allocate { width: 256, height: 256 }
    );
    for drift in [(247, 226), (248, 227), (249, 228)] {
        assert_eq!(
            bitmap_cache_texture_plan_with_grid(Some((256, 256)), drift, exact, true),
            BitmapCacheTexturePlan::Reuse
        );
        // Without the grid the same drift allocates anew every time.
        assert_eq!(
            bitmap_cache_texture_plan_with_grid(Some((256, 256)), drift, exact, false),
            BitmapCacheTexturePlan::Allocate { width: drift.0, height: drift.1 }
        );
    }
    assert_eq!(
        bitmap_cache_texture_plan_with_grid(Some((3840, 1792)), (3671, 1710), exact, true),
        BitmapCacheTexturePlan::Reuse
    );
}

#[test]
fn avatar_caches_and_aqw_bounded_reuse_may_keep_an_oversized_texture() {
    assert_eq!(bitmap_cache_texture_policy(false, false), BitmapCacheTexturePolicy::Exact);
    assert_eq!(bitmap_cache_texture_policy(true, false), BitmapCacheTexturePolicy::BoundedReuse);
    assert_eq!(bitmap_cache_texture_policy(false, true), BitmapCacheTexturePolicy::BoundedReuse);
    assert_eq!(bitmap_cache_texture_policy(true, true), BitmapCacheTexturePolicy::BoundedReuse);
}

fn frame() -> CachedDrawFrame {
    CachedDrawFrame {
        fits: true,
        offscreen: false,
        output_visible: true,
        avatar_cache_only: false,
        texture_width: 200,
        texture_height: 200,
        dirty: true,
        hot_candidate: true,
        filters_empty: true,
        subtree_safe: true,
    }
}

#[test]
fn the_cached_draw_follows_render_bases_order_of_checks() {
    let mut cache = BitmapCache::default();
    cache.texture_created(200, 200);
    let off_screen = CachedDrawFrame { output_visible: false, ..frame() };
    assert_eq!(cache.plan_draw(off_screen), CachedDraw::Culled);
    assert_eq!(cache.texture_dimensions(), Some((200, 200)), "a culled cache is left alone");
    // An offscreen target is never culled against the viewport.
    let into_target = CachedDrawFrame { output_visible: false, offscreen: true, dirty: false, ..frame() };
    assert_eq!(cache.plan_draw(into_target), CachedDraw::Hit);

    let huge_avatar = CachedDrawFrame {
        avatar_cache_only: true,
        texture_width: 4096,
        texture_height: 4096,
        ..frame()
    };
    assert_eq!(cache.plan_draw(huge_avatar), CachedDraw::Uncached);
    assert_eq!(cache.texture_dimensions(), None);

    cache.texture_created(200, 200);
    assert_eq!(cache.plan_draw(CachedDrawFrame { fits: false, ..frame() }), CachedDraw::Oversize);
    assert_eq!(cache.texture_dimensions(), None);
}

#[test]
fn a_hot_filterless_cache_is_drawn_directly_on_its_third_rebuild_in_a_row() {
    let mut cache = BitmapCache::default();
    assert_eq!(cache.plan_draw(frame()), CachedDraw::Rebuild);
    assert_eq!(cache.plan_draw(frame()), CachedDraw::Rebuild);
    assert_eq!(cache.plan_draw(frame()), CachedDraw::Direct);
    assert!(cache.has_filterless_direct_render_frames());

    // A clean hit in between starts the streak over.
    let mut cache = BitmapCache::default();
    assert_eq!(cache.plan_draw(frame()), CachedDraw::Rebuild);
    assert_eq!(cache.plan_draw(CachedDrawFrame { dirty: false, ..frame() }), CachedDraw::Hit);
    assert_eq!(cache.plan_draw(frame()), CachedDraw::Rebuild);
    assert_eq!(cache.plan_draw(frame()), CachedDraw::Rebuild);

    // Small outputs, filtered caches and unsafe subtrees are always rebuilt.
    let small = CachedDrawFrame { texture_width: 100, texture_height: 100, ..frame() };
    let unsafe_subtree = CachedDrawFrame { subtree_safe: false, ..frame() };
    for f in [small, CachedDrawFrame { filters_empty: false, ..frame() }, unsafe_subtree] {
        let mut cache = BitmapCache::default();
        for _ in 0..5 {
            assert_eq!(cache.plan_draw(f), CachedDraw::Rebuild);
        }
    }
}
