//! Per-interval renderer counters: pool activity, encoding cost and what each frame consisted of.
//!
//! Everything is counted into one `WgpuMetrics` value. Counters saturate rather than wrap, and
//! `take_snapshot` hands the interval's counts back and starts the next interval from zero,
//! except for the pool gauges (what the last maintenance pass left available), which describe
//! the pool's state rather than the interval's activity and are kept.
use vstd::prelude::*;

use crate::texture_census::TextureCensus;

verus! {

/// Which texture pool a request went to.
#[derive(Clone, Copy, Debug, Eq, PartialEq, Structural)]
pub enum TexturePoolKind {
    General,
    Offscreen,
}

/// One pool's activity over an interval.
#[derive(Clone, Copy, Debug, Default, Eq, PartialEq, Structural)]
pub struct PoolSnapshot {
    pub requests: u64,
    pub reuses: u64,
    pub allocations: u64,
    pub allocated_bytes_estimate: u64,
    pub unknown_size_allocations: u64,
    pub resets: u64,
    pub discarded_available_entries: u64,
    pub maintenance_passes: u64,
    /// A gauge: what the last maintenance pass left available.
    pub available_entries_after_maintenance: u64,
    /// A gauge, like the entry count above.
    pub available_bytes_after_maintenance: u64,
    pub age_evicted_entries: u64,
    pub age_evicted_bytes_estimate: u64,
    pub budget_evicted_entries: u64,
    pub budget_evicted_bytes_estimate: u64,
    pub unknown_size_retention_rejections: u64,
    /// A gauge, like the entry count above.
    pub globals_available_after_maintenance: u64,
    pub globals_age_evictions: u64,
    pub globals_budget_evictions: u64,
}

/// The number of complex blend modes, each counted on its own.
pub const COMPLEX_BLEND_MODES: usize = 9;

/// The complex blend modes, in the order they are counted.
pub const COMPLEX_BLEND_NAMES: [&'static str; COMPLEX_BLEND_MODES] = [
    "multiply",
    "lighten",
    "darken",
    "difference",
    "invert",
    "alpha",
    "erase",
    "overlay",
    "hardlight",
];

/// Everything counted over one interval.
#[derive(Clone, Copy, Debug, Default, Eq, PartialEq)]
pub struct WgpuMetricsSnapshot {
    pub general: PoolSnapshot,
    pub offscreen: PoolSnapshot,
    /// CPU time inside texture creation, and how many textures were created.
    pub texture_create_nanos: u64,
    pub texture_creations: u64,
    /// CPU time inside frame submission, and the part of it spent rebuilding cached surfaces.
    pub submit_nanos: u64,
    pub cache_entry_nanos: u64,
    pub cache_entries: u64,
    /// Time handing the finished frame to the driver.
    pub queue_nanos: u64,
    pub render_passes: u64,
    /// Complex blends per mode, in the order of `COMPLEX_BLEND_NAMES`.
    pub complex_blends: [u64; COMPLEX_BLEND_MODES],
    pub draw_commands: u64,
    pub blend_chunks: u64,
    pub bind_groups: u64,
    /// Multisample resolves, and the pixels they covered.
    pub msaa_resolves: u64,
    pub msaa_resolve_pixels: u64,
    /// Resolves the region test avoided.
    pub msaa_resolves_skipped: u64,
    /// Frames whose commands were handed over part-way through.
    pub submission_splits: u64,
    pub blend_full_surface: u64,
    pub blend_adjacent: u64,
    pub blend_ideal_batches: u64,
    pub blend_break_not_blend: u64,
    pub blend_break_mode: u64,
    pub blend_break_overlap: u64,
    pub draw_chunks: u64,
    /// Draw chunks whose extent could not be worked out.
    pub draw_unbounded: u64,
    /// CPU time spent building per-blend bind groups.
    pub bind_group_nanos: u64,
    pub blend_reorder_moves: u64,
    pub draw_chunks_at_box_capacity: u64,
    /// Bitmap-cache entries rebuilt, split by whether they carry a filter.
    pub cache_entries_filtered: u64,
    pub cache_entries_filterless: u64,
    pub cache_entry_filters: u64,
    pub cache_filtered_nanos: u64,
    pub cache_filterless_nanos: u64,
    /// How the frame's blur-family filters would group under an atlas.
    pub filter_applications: u64,
    pub filter_groups: u64,
    pub filter_largest_group: u64,
    /// Cached surfaces served from the pool against those that reached the driver.
    pub cache_texture_pool_hits: u64,
    pub cache_texture_pool_misses: u64,
    /// Groups that really were blurred together, and both sides of the trade.
    pub filter_atlas_groups: u64,
    pub filter_atlas_members: u64,
    pub filter_atlas_pixels: u64,
    pub filter_atlas_member_pixels: u64,
    /// Cache groups whose contents drew in one shared pass, and the entries that covered.
    pub cache_content_atlas_groups: u64,
    pub cache_content_atlas_members: u64,
    /// The same, for complex-blend children sharing a pass.
    pub blend_child_atlas_groups: u64,
    pub blend_child_atlas_members: u64,
}

/// What one target's chunk list says about why its blends are not sharing passes.
#[derive(Clone, Copy, Debug, Default, Eq, PartialEq, Structural)]
pub struct BlendBatchCensus {
    pub full_surface: u64,
    pub adjacent: u64,
    pub ideal_batches: u64,
    pub break_not_blend: u64,
    pub break_mode: u64,
    pub break_overlap: u64,
    pub draw_unbounded: u64,
}

/// What one maintenance pass over a texture pool found and did.
#[derive(Clone, Copy, Debug, Default, Eq, PartialEq, Structural)]
pub struct PoolMaintenanceReport {
    pub bucket_count: u64,
    pub available_entries: u64,
    pub available_bytes: u64,
    pub age_evicted_entries: u64,
    pub age_evicted_bytes: u64,
    pub budget_evicted_entries: u64,
    pub budget_evicted_bytes: u64,
    pub unknown_size_evicted_entries: u64,
    pub globals_available_entries: u64,
    pub globals_age_evictions: u64,
    pub globals_budget_evictions: u64,
}

/// The counters: the interval being counted, and the whole-session texture census.
pub struct WgpuMetrics {
    pub pending: WgpuMetricsSnapshot,
    pub census: TextureCensus,
}

/// `a + b`, stopping at `u64::MAX`.
pub open spec fn sat(a: u64, b: u64) -> u64 {
    if a + b > u64::MAX {
        u64::MAX
    } else {
        (a + b) as u64
    }
}

/// The pool snapshot an interval starts from: every counter zero, the gauges kept.
pub open spec fn pool_restart(p: PoolSnapshot) -> PoolSnapshot {
    PoolSnapshot {
        requests: 0,
        reuses: 0,
        allocations: 0,
        allocated_bytes_estimate: 0,
        unknown_size_allocations: 0,
        resets: 0,
        discarded_available_entries: 0,
        maintenance_passes: 0,
        available_entries_after_maintenance: p.available_entries_after_maintenance,
        available_bytes_after_maintenance: p.available_bytes_after_maintenance,
        age_evicted_entries: 0,
        age_evicted_bytes_estimate: 0,
        budget_evicted_entries: 0,
        budget_evicted_bytes_estimate: 0,
        unknown_size_retention_rejections: 0,
        globals_available_after_maintenance: p.globals_available_after_maintenance,
        globals_age_evictions: 0,
        globals_budget_evictions: 0,
    }
}

/// Whether `s` is the snapshot an interval starts from after `p`: every counter zero, the pool
/// gauges kept.
pub open spec fn is_restart_of(s: WgpuMetricsSnapshot, p: WgpuMetricsSnapshot) -> bool {
    &&& s.general == pool_restart(p.general)
    &&& s.offscreen == pool_restart(p.offscreen)
    &&& s.texture_create_nanos == 0
    &&& s.texture_creations == 0
    &&& s.submit_nanos == 0
    &&& s.cache_entry_nanos == 0
    &&& s.cache_entries == 0
    &&& s.queue_nanos == 0
    &&& s.render_passes == 0
    &&& (forall|i: int| 0 <= i < COMPLEX_BLEND_MODES ==> #[trigger] s.complex_blends@[i] == 0)
    &&& s.draw_commands == 0
    &&& s.blend_chunks == 0
    &&& s.bind_groups == 0
    &&& s.msaa_resolves == 0
    &&& s.msaa_resolve_pixels == 0
    &&& s.msaa_resolves_skipped == 0
    &&& s.submission_splits == 0
    &&& s.blend_full_surface == 0
    &&& s.blend_adjacent == 0
    &&& s.blend_ideal_batches == 0
    &&& s.blend_break_not_blend == 0
    &&& s.blend_break_mode == 0
    &&& s.blend_break_overlap == 0
    &&& s.draw_chunks == 0
    &&& s.draw_unbounded == 0
    &&& s.bind_group_nanos == 0
    &&& s.blend_reorder_moves == 0
    &&& s.draw_chunks_at_box_capacity == 0
    &&& s.cache_entries_filtered == 0
    &&& s.cache_entries_filterless == 0
    &&& s.cache_entry_filters == 0
    &&& s.cache_filtered_nanos == 0
    &&& s.cache_filterless_nanos == 0
    &&& s.filter_applications == 0
    &&& s.filter_groups == 0
    &&& s.filter_largest_group == 0
    &&& s.cache_texture_pool_hits == 0
    &&& s.cache_texture_pool_misses == 0
    &&& s.filter_atlas_groups == 0
    &&& s.filter_atlas_members == 0
    &&& s.filter_atlas_pixels == 0
    &&& s.filter_atlas_member_pixels == 0
    &&& s.cache_content_atlas_groups == 0
    &&& s.cache_content_atlas_members == 0
    &&& s.blend_child_atlas_groups == 0
    &&& s.blend_child_atlas_members == 0
}

/// A pool snapshot with every field zero.
pub open spec fn zero_pool() -> PoolSnapshot {
    PoolSnapshot {
        requests: 0,
        reuses: 0,
        allocations: 0,
        allocated_bytes_estimate: 0,
        unknown_size_allocations: 0,
        resets: 0,
        discarded_available_entries: 0,
        maintenance_passes: 0,
        available_entries_after_maintenance: 0,
        available_bytes_after_maintenance: 0,
        age_evicted_entries: 0,
        age_evicted_bytes_estimate: 0,
        budget_evicted_entries: 0,
        budget_evicted_bytes_estimate: 0,
        unknown_size_retention_rejections: 0,
        globals_available_after_maintenance: 0,
        globals_age_evictions: 0,
        globals_budget_evictions: 0,
    }
}

impl WgpuMetrics {
    /// The census has its fixed sizes.
    pub open spec fn wf(&self) -> bool {
        self.census.wf()
    }
}

fn restart_pool(p: &PoolSnapshot) -> (r: PoolSnapshot)
    ensures
        r == pool_restart(*p),
{
    PoolSnapshot {
        requests: 0,
        reuses: 0,
        allocations: 0,
        allocated_bytes_estimate: 0,
        unknown_size_allocations: 0,
        resets: 0,
        discarded_available_entries: 0,
        maintenance_passes: 0,
        available_entries_after_maintenance: p.available_entries_after_maintenance,
        available_bytes_after_maintenance: p.available_bytes_after_maintenance,
        age_evicted_entries: 0,
        age_evicted_bytes_estimate: 0,
        budget_evicted_entries: 0,
        budget_evicted_bytes_estimate: 0,
        unknown_size_retention_rejections: 0,
        globals_available_after_maintenance: p.globals_available_after_maintenance,
        globals_age_evictions: 0,
        globals_budget_evictions: 0,
    }
}

/// The snapshot an interval starts from after `p`.
fn restart_snapshot(p: &WgpuMetricsSnapshot) -> (r: WgpuMetricsSnapshot)
    ensures
        is_restart_of(r, *p),
{
    WgpuMetricsSnapshot {
        general: restart_pool(&p.general),
        offscreen: restart_pool(&p.offscreen),
        texture_create_nanos: 0,
        texture_creations: 0,
        submit_nanos: 0,
        cache_entry_nanos: 0,
        cache_entries: 0,
        queue_nanos: 0,
        render_passes: 0,
        complex_blends: [0u64; COMPLEX_BLEND_MODES],
        draw_commands: 0,
        blend_chunks: 0,
        bind_groups: 0,
        msaa_resolves: 0,
        msaa_resolve_pixels: 0,
        msaa_resolves_skipped: 0,
        submission_splits: 0,
        blend_full_surface: 0,
        blend_adjacent: 0,
        blend_ideal_batches: 0,
        blend_break_not_blend: 0,
        blend_break_mode: 0,
        blend_break_overlap: 0,
        draw_chunks: 0,
        draw_unbounded: 0,
        bind_group_nanos: 0,
        blend_reorder_moves: 0,
        draw_chunks_at_box_capacity: 0,
        cache_entries_filtered: 0,
        cache_entries_filterless: 0,
        cache_entry_filters: 0,
        cache_filtered_nanos: 0,
        cache_filterless_nanos: 0,
        filter_applications: 0,
        filter_groups: 0,
        filter_largest_group: 0,
        cache_texture_pool_hits: 0,
        cache_texture_pool_misses: 0,
        filter_atlas_groups: 0,
        filter_atlas_members: 0,
        filter_atlas_pixels: 0,
        filter_atlas_member_pixels: 0,
        cache_content_atlas_groups: 0,
        cache_content_atlas_members: 0,
        blend_child_atlas_groups: 0,
        blend_child_atlas_members: 0,
    }
}

impl WgpuMetrics {
    /// Nothing counted yet.
    pub fn new() -> (r: Self)
        ensures
            r.wf(),
            r.pending.general == zero_pool(),
            r.pending.offscreen == zero_pool(),
            is_restart_of(r.pending, r.pending),
    {
        let zero = PoolSnapshot {
            requests: 0,
            reuses: 0,
            allocations: 0,
            allocated_bytes_estimate: 0,
            unknown_size_allocations: 0,
            resets: 0,
            discarded_available_entries: 0,
            maintenance_passes: 0,
            available_entries_after_maintenance: 0,
            available_bytes_after_maintenance: 0,
            age_evicted_entries: 0,
            age_evicted_bytes_estimate: 0,
            budget_evicted_entries: 0,
            budget_evicted_bytes_estimate: 0,
            unknown_size_retention_rejections: 0,
            globals_available_after_maintenance: 0,
            globals_age_evictions: 0,
            globals_budget_evictions: 0,
        };
        let mut start = WgpuMetricsSnapshot {
            general: zero,
            offscreen: zero,
            texture_create_nanos: 0,
            texture_creations: 0,
            submit_nanos: 0,
            cache_entry_nanos: 0,
            cache_entries: 0,
            queue_nanos: 0,
            render_passes: 0,
            complex_blends: [0u64; COMPLEX_BLEND_MODES],
            draw_commands: 0,
            blend_chunks: 0,
            bind_groups: 0,
            msaa_resolves: 0,
            msaa_resolve_pixels: 0,
            msaa_resolves_skipped: 0,
            submission_splits: 0,
            blend_full_surface: 0,
            blend_adjacent: 0,
            blend_ideal_batches: 0,
            blend_break_not_blend: 0,
            blend_break_mode: 0,
            blend_break_overlap: 0,
            draw_chunks: 0,
            draw_unbounded: 0,
            bind_group_nanos: 0,
            blend_reorder_moves: 0,
            draw_chunks_at_box_capacity: 0,
            cache_entries_filtered: 0,
            cache_entries_filterless: 0,
            cache_entry_filters: 0,
            cache_filtered_nanos: 0,
            cache_filterless_nanos: 0,
            filter_applications: 0,
            filter_groups: 0,
            filter_largest_group: 0,
            cache_texture_pool_hits: 0,
            cache_texture_pool_misses: 0,
            filter_atlas_groups: 0,
            filter_atlas_members: 0,
            filter_atlas_pixels: 0,
            filter_atlas_member_pixels: 0,
            cache_content_atlas_groups: 0,
            cache_content_atlas_members: 0,
            blend_child_atlas_groups: 0,
            blend_child_atlas_members: 0,
        };
        WgpuMetrics { pending: start, census: TextureCensus::new() }
    }
}

/// Hand back everything counted over the interval and start the next one: every counter returns
/// to zero, and the pool gauges are kept.
pub fn take_snapshot(metrics: &mut WgpuMetrics) -> (r: WgpuMetricsSnapshot)
    ensures
        r == old(metrics).pending,
        is_restart_of(final(metrics).pending, old(metrics).pending),
        final(metrics).census == old(metrics).census,
{
    let taken = metrics.pending;
    metrics.pending = restart_snapshot(&taken);
    taken
}

/// The counters of pool `kind` in a snapshot.
pub open spec fn pool_of(s: WgpuMetricsSnapshot, kind: TexturePoolKind) -> PoolSnapshot {
    match kind {
        TexturePoolKind::General => s.general,
        TexturePoolKind::Offscreen => s.offscreen,
    }
}

/// A snapshot with the counters of pool `kind` replaced.
pub open spec fn with_pool(
    s: WgpuMetricsSnapshot,
    kind: TexturePoolKind,
    p: PoolSnapshot,
) -> WgpuMetricsSnapshot {
    match kind {
        TexturePoolKind::General => WgpuMetricsSnapshot { general: p, ..s },
        TexturePoolKind::Offscreen => WgpuMetricsSnapshot { offscreen: p, ..s },
    }
}

/// A pool's interval counters after one request: served from the pool, or allocated with a known
/// or an unknown size.
pub open spec fn pool_after_request(p: PoolSnapshot, reused: bool, allocated_bytes: Option<u64>) -> PoolSnapshot {
    PoolSnapshot {
        requests: sat(p.requests, 1),
        reuses: if reused {
            sat(p.reuses, 1)
        } else {
            p.reuses
        },
        allocations: if reused {
            p.allocations
        } else {
            sat(p.allocations, 1)
        },
        allocated_bytes_estimate: match allocated_bytes {
            Some(bytes) if !reused => sat(p.allocated_bytes_estimate, bytes),
            _ => p.allocated_bytes_estimate,
        },
        unknown_size_allocations: if !reused && allocated_bytes is None {
            sat(p.unknown_size_allocations, 1)
        } else {
            p.unknown_size_allocations
        },
        ..p
    }
}

/// A pool's interval counters after a reset that discarded `discarded` available entries: what
/// maintenance left available is gone.
pub open spec fn pool_after_reset(p: PoolSnapshot, discarded: u64) -> PoolSnapshot {
    PoolSnapshot {
        resets: sat(p.resets, 1),
        discarded_available_entries: sat(p.discarded_available_entries, discarded),
        available_entries_after_maintenance: 0,
        available_bytes_after_maintenance: 0,
        globals_available_after_maintenance: 0,
        ..p
    }
}

/// A pool's interval counters after a maintenance pass: the gauges take the pass's figures, the
/// eviction counters add them.
pub open spec fn pool_after_maintenance(p: PoolSnapshot, report: PoolMaintenanceReport) -> PoolSnapshot {
    PoolSnapshot {
        maintenance_passes: sat(p.maintenance_passes, 1),
        available_entries_after_maintenance: report.available_entries,
        available_bytes_after_maintenance: report.available_bytes,
        age_evicted_entries: sat(p.age_evicted_entries, report.age_evicted_entries),
        age_evicted_bytes_estimate: sat(p.age_evicted_bytes_estimate, report.age_evicted_bytes),
        budget_evicted_entries: sat(p.budget_evicted_entries, report.budget_evicted_entries),
        budget_evicted_bytes_estimate: sat(
            p.budget_evicted_bytes_estimate,
            report.budget_evicted_bytes,
        ),
        unknown_size_retention_rejections: sat(
            p.unknown_size_retention_rejections,
            report.unknown_size_evicted_entries,
        ),
        globals_available_after_maintenance: report.globals_available_entries,
        globals_age_evictions: sat(p.globals_age_evictions, report.globals_age_evictions),
        globals_budget_evictions: sat(p.globals_budget_evictions, report.globals_budget_evictions),
        ..p
    }
}

/// A maintenance pass adds its evictions to the interval's counts, which stop at `u64::MAX`
/// rather than wrap: each count grows by exactly the pass's figure unless that would pass the
/// cap, and never falls. The gauges read what the pass left; the request counts are untouched.
pub proof fn law_a_maintenance_pass_adds_its_evictions(p: PoolSnapshot, report: PoolMaintenanceReport)
    ensures
        ({
            let q = pool_after_maintenance(p, report);
            &&& q.budget_evicted_entries as int == if p.budget_evicted_entries
                + report.budget_evicted_entries <= u64::MAX {
                p.budget_evicted_entries + report.budget_evicted_entries
            } else {
                u64::MAX as int
            }
            &&& q.age_evicted_entries as int == if p.age_evicted_entries + report.age_evicted_entries
                <= u64::MAX {
                p.age_evicted_entries + report.age_evicted_entries
            } else {
                u64::MAX as int
            }
            &&& q.budget_evicted_bytes_estimate >= p.budget_evicted_bytes_estimate
            &&& q.budget_evicted_bytes_estimate >= report.budget_evicted_bytes
            &&& q.age_evicted_bytes_estimate >= p.age_evicted_bytes_estimate
            &&& q.age_evicted_bytes_estimate >= report.age_evicted_bytes
            &&& q.maintenance_passes as int == if p.maintenance_passes < u64::MAX {
                p.maintenance_passes + 1
            } else {
                u64::MAX as int
            }
            &&& q.available_entries_after_maintenance == report.available_entries
            &&& q.available_bytes_after_maintenance == report.available_bytes
            &&& q.requests == p.requests
            &&& q.reuses == p.reuses
        }),
{
}

/// A duration in nanoseconds, capped at `u64::MAX`.
pub open spec fn capped_nanos(nanos: u128) -> u64 {
    if nanos > u64::MAX {
        u64::MAX
    } else {
        nanos as u64
    }
}

fn cap_nanos(nanos: u128) -> (r: u64)
    ensures
        r == capped_nanos(nanos),
{
    if nanos > u64::MAX as u128 {
        u64::MAX
    } else {
        nanos as u64
    }
}

fn pool_mut(pending: &mut WgpuMetricsSnapshot, kind: TexturePoolKind) -> (r: &mut PoolSnapshot)
    ensures
        *r == pool_of(*old(pending), kind),
        *final(pending) == with_pool(*old(pending), kind, *final(r)),
{
    match kind {
        TexturePoolKind::General => &mut pending.general,
        TexturePoolKind::Offscreen => &mut pending.offscreen,
    }
}

/// Count one texture request to a pool: whether the pool served it, and if not, the bytes the
/// new texture was estimated at, where an estimate exists. The session census counts it too.
pub fn record_texture_request(
    metrics: &mut WgpuMetrics,
    kind: TexturePoolKind,
    reused: bool,
    allocated_bytes: Option<u64>,
)
    ensures
        final(metrics).pending == with_pool(
            old(metrics).pending,
            kind,
            pool_after_request(pool_of(old(metrics).pending, kind), reused, allocated_bytes),
        ),
        final(metrics).census.same_but_pool(&old(metrics).census, kind),
        final(metrics).census.pool(kind) == crate::texture_census::pool_after_request(
            old(metrics).census.pool(kind),
            reused,
        ),
{
    metrics.census.note_pool_request(kind, reused);
    let pool = pool_mut(&mut metrics.pending, kind);
    pool.requests = pool.requests.saturating_add(1);
    if reused {
        pool.reuses = pool.reuses.saturating_add(1);
    } else {
        pool.allocations = pool.allocations.saturating_add(1);
        match allocated_bytes {
            Some(bytes) => {
                pool.allocated_bytes_estimate = pool.allocated_bytes_estimate.saturating_add(bytes);
            },
            None => {
                pool.unknown_size_allocations = pool.unknown_size_allocations.saturating_add(1);
            },
        }
    }
}

/// Count a pool reset that discarded `discarded_available_entries` entries.
pub fn record_pool_reset(
    metrics: &mut WgpuMetrics,
    kind: TexturePoolKind,
    discarded_available_entries: usize,
)
    ensures
        final(metrics).pending == with_pool(
            old(metrics).pending,
            kind,
            pool_after_reset(pool_of(old(metrics).pending, kind), discarded_available_entries as u64),
        ),
        final(metrics).census == old(metrics).census,
{
    let pool = pool_mut(&mut metrics.pending, kind);
    pool.resets = pool.resets.saturating_add(1);
    pool.discarded_available_entries = pool.discarded_available_entries.saturating_add(
        discarded_available_entries as u64,
    );
    pool.available_entries_after_maintenance = 0;
    pool.available_bytes_after_maintenance = 0;
    pool.globals_available_after_maintenance = 0;
}

/// Record what a maintenance pass over a pool found and did, in the interval and in the census.
pub fn record_pool_maintenance(
    metrics: &mut WgpuMetrics,
    kind: TexturePoolKind,
    report: PoolMaintenanceReport,
)
    ensures
        final(metrics).pending == with_pool(
            old(metrics).pending,
            kind,
            pool_after_maintenance(pool_of(old(metrics).pending, kind), report),
        ),
        final(metrics).census.same_but_pool(&old(metrics).census, kind),
        final(metrics).census.pool(kind) == crate::texture_census::pool_after_maintenance(
            old(metrics).census.pool(kind),
            report,
        ),
{
    metrics.census.note_pool_maintenance(kind, &report);
    let pool = pool_mut(&mut metrics.pending, kind);
    pool.maintenance_passes = pool.maintenance_passes.saturating_add(1);
    pool.available_entries_after_maintenance = report.available_entries;
    pool.available_bytes_after_maintenance = report.available_bytes;
    pool.age_evicted_entries = pool.age_evicted_entries.saturating_add(report.age_evicted_entries);
    pool.age_evicted_bytes_estimate = pool.age_evicted_bytes_estimate.saturating_add(
        report.age_evicted_bytes,
    );
    pool.budget_evicted_entries = pool.budget_evicted_entries.saturating_add(
        report.budget_evicted_entries,
    );
    pool.budget_evicted_bytes_estimate = pool.budget_evicted_bytes_estimate.saturating_add(
        report.budget_evicted_bytes,
    );
    pool.unknown_size_retention_rejections = pool.unknown_size_retention_rejections.saturating_add(
        report.unknown_size_evicted_entries,
    );
    pool.globals_available_after_maintenance = report.globals_available_entries;
    pool.globals_age_evictions = pool.globals_age_evictions.saturating_add(
        report.globals_age_evictions,
    );
    pool.globals_budget_evictions = pool.globals_budget_evictions.saturating_add(
        report.globals_budget_evictions,
    );
}

/// Count one texture creation and the CPU time it took, in nanoseconds.
pub fn record_texture_creation(metrics: &mut WgpuMetrics, elapsed_nanos: u128)
    ensures
        final(metrics).pending == (WgpuMetricsSnapshot {
            texture_create_nanos: sat(
                old(metrics).pending.texture_create_nanos,
                capped_nanos(elapsed_nanos),
            ),
            texture_creations: sat(old(metrics).pending.texture_creations, 1),
            ..old(metrics).pending
        }),
        final(metrics).census == old(metrics).census,
{
    let p = &mut metrics.pending;
    p.texture_create_nanos = p.texture_create_nanos.saturating_add(cap_nanos(elapsed_nanos));
    p.texture_creations = p.texture_creations.saturating_add(1);
}

/// Count one frame submission: its total cost, the cost and count of the cached surfaces it
/// rebuilt, and the time handing the frame to the driver, all in nanoseconds.
pub fn record_submit_frame(
    metrics: &mut WgpuMetrics,
    total_nanos: u128,
    cache_nanos: u128,
    entries: u64,
    queue_nanos: u128,
)
    ensures
        final(metrics).pending == (WgpuMetricsSnapshot {
            submit_nanos: sat(old(metrics).pending.submit_nanos, capped_nanos(total_nanos)),
            cache_entry_nanos: sat(old(metrics).pending.cache_entry_nanos, capped_nanos(cache_nanos)),
            cache_entries: sat(old(metrics).pending.cache_entries, entries),
            queue_nanos: sat(old(metrics).pending.queue_nanos, capped_nanos(queue_nanos)),
            ..old(metrics).pending
        }),
        final(metrics).census == old(metrics).census,
{
    let p = &mut metrics.pending;
    p.submit_nanos = p.submit_nanos.saturating_add(cap_nanos(total_nanos));
    p.cache_entry_nanos = p.cache_entry_nanos.saturating_add(cap_nanos(cache_nanos));
    p.cache_entries = p.cache_entries.saturating_add(entries);
    p.queue_nanos = p.queue_nanos.saturating_add(cap_nanos(queue_nanos));
}

/// Count one complex blend by its mode's index; an index past the modes counts nothing.
pub fn record_complex_blend(metrics: &mut WgpuMetrics, mode: usize)
    ensures
        mode < COMPLEX_BLEND_MODES ==> final(metrics).pending.complex_blends@ == old(
            metrics,
        ).pending.complex_blends@.update(
            mode as int,
            sat(old(metrics).pending.complex_blends@[mode as int], 1),
        ),
        mode >= COMPLEX_BLEND_MODES ==> final(metrics).pending == old(metrics).pending,
        final(metrics).pending == (WgpuMetricsSnapshot {
            complex_blends: final(metrics).pending.complex_blends,
            ..old(metrics).pending
        }),
        final(metrics).census == old(metrics).census,
{
    if mode < COMPLEX_BLEND_MODES {
        let v = metrics.pending.complex_blends[mode];
        metrics.pending.complex_blends[mode] = v.saturating_add(1);
    }
}

/// Count a resolve that the region test skipped.
pub fn record_msaa_resolve_skipped(metrics: &mut WgpuMetrics)
    ensures
        final(metrics).pending == (WgpuMetricsSnapshot {
            msaa_resolves_skipped: sat(old(metrics).pending.msaa_resolves_skipped, 1),
            ..old(metrics).pending
        }),
        final(metrics).census == old(metrics).census,
{
    let p = &mut metrics.pending;
    p.msaa_resolves_skipped = p.msaa_resolves_skipped.saturating_add(1);
}

/// Count one multisample resolve over `pixels` pixels.
pub fn record_msaa_resolve(metrics: &mut WgpuMetrics, pixels: u64)
    ensures
        final(metrics).pending == (WgpuMetricsSnapshot {
            msaa_resolves: sat(old(metrics).pending.msaa_resolves, 1),
            msaa_resolve_pixels: sat(old(metrics).pending.msaa_resolve_pixels, pixels),
            ..old(metrics).pending
        }),
        final(metrics).census == old(metrics).census,
{
    let p = &mut metrics.pending;
    p.msaa_resolves = p.msaa_resolves.saturating_add(1);
    p.msaa_resolve_pixels = p.msaa_resolve_pixels.saturating_add(pixels);
}

/// Count one chunk of encoded work: a render pass, the draws it carries, and whether it is a
/// blend needing its own target or a run of draws.
pub fn record_encoded_chunk(metrics: &mut WgpuMetrics, draw_commands: u64, is_blend: bool)
    ensures
        final(metrics).pending == (WgpuMetricsSnapshot {
            render_passes: sat(old(metrics).pending.render_passes, 1),
            draw_commands: sat(old(metrics).pending.draw_commands, draw_commands),
            blend_chunks: if is_blend {
                sat(old(metrics).pending.blend_chunks, 1)
            } else {
                old(metrics).pending.blend_chunks
            },
            draw_chunks: if is_blend {
                old(metrics).pending.draw_chunks
            } else {
                sat(old(metrics).pending.draw_chunks, 1)
            },
            ..old(metrics).pending
        }),
        final(metrics).census == old(metrics).census,
{
    let p = &mut metrics.pending;
    p.render_passes = p.render_passes.saturating_add(1);
    p.draw_commands = p.draw_commands.saturating_add(draw_commands);
    if is_blend {
        p.blend_chunks = p.blend_chunks.saturating_add(1);
    } else {
        p.draw_chunks = p.draw_chunks.saturating_add(1);
    }
}

/// Count the blends one target's reorder relocated, and how many of its draw chunks were full.
pub fn record_blend_reorder(metrics: &mut WgpuMetrics, moves: u64, chunks_at_capacity: u64)
    ensures
        final(metrics).pending == (WgpuMetricsSnapshot {
            blend_reorder_moves: sat(old(metrics).pending.blend_reorder_moves, moves),
            draw_chunks_at_box_capacity: sat(
                old(metrics).pending.draw_chunks_at_box_capacity,
                chunks_at_capacity,
            ),
            ..old(metrics).pending
        }),
        final(metrics).census == old(metrics).census,
{
    let p = &mut metrics.pending;
    p.blend_reorder_moves = p.blend_reorder_moves.saturating_add(moves);
    p.draw_chunks_at_box_capacity = p.draw_chunks_at_box_capacity.saturating_add(
        chunks_at_capacity,
    );
}

/// Count one rebuilt bitmap-cache entry and the filters it carries.
pub fn record_cache_entry(metrics: &mut WgpuMetrics, filters: u64)
    ensures
        final(metrics).pending == (WgpuMetricsSnapshot {
            cache_entries_filterless: if filters == 0 {
                sat(old(metrics).pending.cache_entries_filterless, 1)
            } else {
                old(metrics).pending.cache_entries_filterless
            },
            cache_entries_filtered: if filters == 0 {
                old(metrics).pending.cache_entries_filtered
            } else {
                sat(old(metrics).pending.cache_entries_filtered, 1)
            },
            cache_entry_filters: sat(old(metrics).pending.cache_entry_filters, filters),
            ..old(metrics).pending
        }),
        final(metrics).census == old(metrics).census,
{
    let p = &mut metrics.pending;
    if filters == 0 {
        p.cache_entries_filterless = p.cache_entries_filterless.saturating_add(1);
    } else {
        p.cache_entries_filtered = p.cache_entries_filtered.saturating_add(1);
        p.cache_entry_filters = p.cache_entry_filters.saturating_add(filters);
    }
}

/// Count a cache entry's encoding time, in nanoseconds, by whether it carries a filter. The
/// nanoseconds are taken modulo 2^64 first.
pub fn record_cache_entry_time(metrics: &mut WgpuMetrics, filtered: bool, elapsed_nanos: u128)
    ensures
        final(metrics).pending == (WgpuMetricsSnapshot {
            cache_filtered_nanos: if filtered {
                sat(old(metrics).pending.cache_filtered_nanos, elapsed_nanos as u64)
            } else {
                old(metrics).pending.cache_filtered_nanos
            },
            cache_filterless_nanos: if filtered {
                old(metrics).pending.cache_filterless_nanos
            } else {
                sat(old(metrics).pending.cache_filterless_nanos, elapsed_nanos as u64)
            },
            ..old(metrics).pending
        }),
        final(metrics).census == old(metrics).census,
{
    let nanos = elapsed_nanos as u64;
    let p = &mut metrics.pending;
    if filtered {
        p.cache_filtered_nanos = p.cache_filtered_nanos.saturating_add(nanos);
    } else {
        p.cache_filterless_nanos = p.cache_filterless_nanos.saturating_add(nanos);
    }
}

/// Count whether a cached surface came from the pool or from the driver.
pub fn record_cache_texture_pool(metrics: &mut WgpuMetrics, hit: bool)
    ensures
        final(metrics).pending == (WgpuMetricsSnapshot {
            cache_texture_pool_hits: if hit {
                sat(old(metrics).pending.cache_texture_pool_hits, 1)
            } else {
                old(metrics).pending.cache_texture_pool_hits
            },
            cache_texture_pool_misses: if hit {
                old(metrics).pending.cache_texture_pool_misses
            } else {
                sat(old(metrics).pending.cache_texture_pool_misses, 1)
            },
            ..old(metrics).pending
        }),
        final(metrics).census == old(metrics).census,
{
    let p = &mut metrics.pending;
    if hit {
        p.cache_texture_pool_hits = p.cache_texture_pool_hits.saturating_add(1);
    } else {
        p.cache_texture_pool_misses = p.cache_texture_pool_misses.saturating_add(1);
    }
}

/// Count a batch of complex-blend children that drew in one shared pass.
pub fn record_blend_child_atlas(metrics: &mut WgpuMetrics, members: u64)
    ensures
        final(metrics).pending == (WgpuMetricsSnapshot {
            blend_child_atlas_groups: sat(old(metrics).pending.blend_child_atlas_groups, 1),
            blend_child_atlas_members: sat(old(metrics).pending.blend_child_atlas_members, members),
            ..old(metrics).pending
        }),
        final(metrics).census == old(metrics).census,
{
    let p = &mut metrics.pending;
    p.blend_child_atlas_groups = p.blend_child_atlas_groups.saturating_add(1);
    p.blend_child_atlas_members = p.blend_child_atlas_members.saturating_add(members);
}

/// Count a cache group whose contents drew in one shared pass.
pub fn record_cache_content_atlas(metrics: &mut WgpuMetrics, members: u64)
    ensures
        final(metrics).pending == (WgpuMetricsSnapshot {
            cache_content_atlas_groups: sat(old(metrics).pending.cache_content_atlas_groups, 1),
            cache_content_atlas_members: sat(
                old(metrics).pending.cache_content_atlas_members,
                members,
            ),
            ..old(metrics).pending
        }),
        final(metrics).census == old(metrics).census,
{
    let p = &mut metrics.pending;
    p.cache_content_atlas_groups = p.cache_content_atlas_groups.saturating_add(1);
    p.cache_content_atlas_members = p.cache_content_atlas_members.saturating_add(members);
}

/// Count one group that was blurred together: its members, the atlas area it used and the area
/// its members cover on their own.
pub fn record_filter_atlas(
    metrics: &mut WgpuMetrics,
    members: u64,
    atlas_pixels: u64,
    member_pixels: u64,
)
    ensures
        final(metrics).pending == (WgpuMetricsSnapshot {
            filter_atlas_groups: sat(old(metrics).pending.filter_atlas_groups, 1),
            filter_atlas_members: sat(old(metrics).pending.filter_atlas_members, members),
            filter_atlas_pixels: sat(old(metrics).pending.filter_atlas_pixels, atlas_pixels),
            filter_atlas_member_pixels: sat(
                old(metrics).pending.filter_atlas_member_pixels,
                member_pixels,
            ),
            ..old(metrics).pending
        }),
        final(metrics).census == old(metrics).census,
{
    let p = &mut metrics.pending;
    p.filter_atlas_groups = p.filter_atlas_groups.saturating_add(1);
    p.filter_atlas_members = p.filter_atlas_members.saturating_add(members);
    p.filter_atlas_pixels = p.filter_atlas_pixels.saturating_add(atlas_pixels);
    p.filter_atlas_member_pixels = p.filter_atlas_member_pixels.saturating_add(member_pixels);
}

/// Add one target's blend batching census to the interval.
pub fn record_blend_batch_census(metrics: &mut WgpuMetrics, census: BlendBatchCensus)
    ensures
        final(metrics).pending == (WgpuMetricsSnapshot {
            blend_full_surface: sat(old(metrics).pending.blend_full_surface, census.full_surface),
            blend_adjacent: sat(old(metrics).pending.blend_adjacent, census.adjacent),
            blend_ideal_batches: sat(old(metrics).pending.blend_ideal_batches, census.ideal_batches),
            blend_break_not_blend: sat(
                old(metrics).pending.blend_break_not_blend,
                census.break_not_blend,
            ),
            blend_break_mode: sat(old(metrics).pending.blend_break_mode, census.break_mode),
            blend_break_overlap: sat(old(metrics).pending.blend_break_overlap, census.break_overlap),
            draw_unbounded: sat(old(metrics).pending.draw_unbounded, census.draw_unbounded),
            ..old(metrics).pending
        }),
        final(metrics).census == old(metrics).census,
{
    let p = &mut metrics.pending;
    p.blend_full_surface = p.blend_full_surface.saturating_add(census.full_surface);
    p.blend_adjacent = p.blend_adjacent.saturating_add(census.adjacent);
    p.blend_ideal_batches = p.blend_ideal_batches.saturating_add(census.ideal_batches);
    p.blend_break_not_blend = p.blend_break_not_blend.saturating_add(census.break_not_blend);
    p.blend_break_mode = p.blend_break_mode.saturating_add(census.break_mode);
    p.blend_break_overlap = p.blend_break_overlap.saturating_add(census.break_overlap);
    p.draw_unbounded = p.draw_unbounded.saturating_add(census.draw_unbounded);
}

/// Count a frame whose commands were handed to the driver part-way through.
pub fn record_submission_split(metrics: &mut WgpuMetrics)
    ensures
        final(metrics).pending == (WgpuMetricsSnapshot {
            submission_splits: sat(old(metrics).pending.submission_splits, 1),
            ..old(metrics).pending
        }),
        final(metrics).census == old(metrics).census,
{
    let p = &mut metrics.pending;
    p.submission_splits = p.submission_splits.saturating_add(1);
}

/// Count a bind group built during encoding rather than served from a cache.
pub fn record_bind_group_created(metrics: &mut WgpuMetrics)
    ensures
        final(metrics).pending == (WgpuMetricsSnapshot {
            bind_groups: sat(old(metrics).pending.bind_groups, 1),
            ..old(metrics).pending
        }),
        final(metrics).census == old(metrics).census,
{
    let p = &mut metrics.pending;
    p.bind_groups = p.bind_groups.saturating_add(1);
}

/// Count CPU time, in nanoseconds, spent building bind groups for complex blends.
pub fn record_bind_group_nanos(metrics: &mut WgpuMetrics, elapsed_nanos: u128)
    ensures
        final(metrics).pending == (WgpuMetricsSnapshot {
            bind_group_nanos: sat(old(metrics).pending.bind_group_nanos, capped_nanos(elapsed_nanos)),
            ..old(metrics).pending
        }),
        final(metrics).census == old(metrics).census,
{
    let p = &mut metrics.pending;
    p.bind_group_nanos = p.bind_group_nanos.saturating_add(cap_nanos(elapsed_nanos));
}

/// Whether a sequence is in ascending order.
pub open spec fn ascending(s: Seq<u64>) -> bool {
    forall|i: int, j: int| 0 <= i < j < s.len() ==> s[i] <= s[j]
}

/// Whether position `i` starts a run of equal values.
pub open spec fn starts_run(s: Seq<u64>, i: int) -> bool {
    i == 0 || s[i] != s[i - 1]
}

/// How many runs of equal values start among the first `k` positions.
pub open spec fn run_count(s: Seq<u64>, k: int) -> nat
    decreases k,
{
    if k <= 0 {
        0
    } else {
        run_count(s, k - 1) + if starts_run(s, k - 1) {
            1nat
        } else {
            0nat
        }
    }
}

/// The length of the run of equal values that ends at position `i`.
pub open spec fn run_length_at(s: Seq<u64>, i: int) -> nat
    decreases i,
{
    if i <= 0 {
        1
    } else if s[i] != s[i - 1] {
        1
    } else {
        run_length_at(s, i - 1) + 1
    }
}

/// The longest run of equal values within the first `k` positions.
pub open spec fn longest_run(s: Seq<u64>, k: int) -> nat
    decreases k,
{
    if k <= 0 {
        0
    } else {
        let rest = longest_run(s, k - 1);
        let here = run_length_at(s, k - 1);
        if here > rest {
            here
        } else {
            rest
        }
    }
}

proof fn lemma_run_length_bounded(s: Seq<u64>, i: int)
    requires
        0 <= i,
    ensures
        1 <= run_length_at(s, i) <= i + 1,
    decreases i,
{
    if i > 0 && s[i] == s[i - 1] {
        lemma_run_length_bounded(s, i - 1);
    }
}

proof fn lemma_run_counts_bounded(s: Seq<u64>, k: int)
    requires
        0 <= k,
    ensures
        run_count(s, k) <= k,
        longest_run(s, k) <= k,
    decreases k,
{
    if k > 0 {
        lemma_run_counts_bounded(s, k - 1);
        lemma_run_length_bounded(s, k - 1);
    }
}

/// In ascending order, a value is among the first `k` exactly when it is there, and the one at
/// `k` is new exactly when it starts a run.
proof fn lemma_sorted_prefix_values(s: Seq<u64>, k: int)
    requires
        ascending(s),
        0 <= k < s.len(),
    ensures
        s.take(k + 1).to_set() == s.take(k).to_set().insert(s[k]),
        s.take(k).to_set().contains(s[k]) <==> !starts_run(s, k),
{
    let t1 = s.take(k + 1);
    let t0 = s.take(k);
    assert(t1.to_set() =~= t0.to_set().insert(s[k])) by {
        assert forall|v: u64| t1.contains(v) <==> t0.contains(v) || v == s[k] by {
            if t1.contains(v) {
                let j = choose|j: int| 0 <= j < t1.len() && t1[j] == v;
                if j < k {
                    assert(t0[j] == v);
                }
            }
            if t0.contains(v) {
                let j = choose|j: int| 0 <= j < t0.len() && t0[j] == v;
                assert(t1[j] == v);
            }
            if v == s[k] {
                assert(t1[k] == v);
            }
        }
    }
    if !starts_run(s, k) {
        assert(t0[k - 1] == s[k]);
    }
    if t0.contains(s[k]) {
        let j = choose|j: int| 0 <= j < t0.len() && t0[j] == s[k];
        assert(s[j] <= s[k - 1]);
    }
}

/// Counting runs of a sorted sequence counts its distinct values.
proof fn lemma_runs_are_distinct_values(s: Seq<u64>, k: int)
    requires
        ascending(s),
        0 <= k <= s.len(),
    ensures
        run_count(s, k) == s.take(k).to_set().len(),
        s.take(k).to_set().finite(),
    decreases k,
{
    if k == 0 {
        assert(s.take(0).to_set() =~= Set::<u64>::empty());
    } else {
        lemma_runs_are_distinct_values(s, k - 1);
        lemma_sorted_prefix_values(s, k - 1);
    }
}

/// In a sorted sequence, the run that ends at `k` holds every copy of its value up to `k`.
proof fn lemma_run_is_all_copies(s: Seq<u64>, k: int)
    requires
        ascending(s),
        0 <= k < s.len(),
    ensures
        run_length_at(s, k) == s.take(k + 1).to_multiset().count(s[k]),
    decreases k,
{
    broadcast use vstd::seq_lib::group_to_multiset_ensures;

    assert(s.take(k + 1) =~= s.take(k).push(s[k]));
    lemma_sorted_prefix_values(s, k);
    if k > 0 && s[k] == s[k - 1] {
        lemma_run_is_all_copies(s, k - 1);
    } else {
        assert(!s.take(k).contains(s[k]));
    }
}

/// The longest run among the first `k` is the largest number of copies of any one value there.
proof fn lemma_longest_run_is_most_copies(s: Seq<u64>, k: int)
    requires
        ascending(s),
        0 <= k <= s.len(),
    ensures
        forall|v: u64| #[trigger] s.take(k).to_multiset().count(v) <= longest_run(s, k),
        k > 0 ==> exists|v: u64| #[trigger] s.take(k).to_multiset().count(v) == longest_run(s, k),
    decreases k,
{
    broadcast use vstd::seq_lib::group_to_multiset_ensures;

    if k == 0 {
        assert(s.take(0) =~= Seq::<u64>::empty());
    } else {
        lemma_longest_run_is_most_copies(s, k - 1);
        lemma_run_is_all_copies(s, k - 1);
        let before = s.take(k - 1);
        let now = s.take(k);
        assert(now =~= before.push(s[k - 1]));
        assert forall|v: u64| #[trigger] now.to_multiset().count(v) <= longest_run(s, k) by {
            if v != s[k - 1] {
                assert(now.to_multiset().count(v) == before.to_multiset().count(v));
            }
        }
        if run_length_at(s, k - 1) > longest_run(s, k - 1) {
            assert(now.to_multiset().count(s[k - 1]) == longest_run(s, k));
        } else if k - 1 > 0 {
            let w = choose|w: u64| #[trigger] before.to_multiset().count(w) == longest_run(s, k - 1);
            if w == s[k - 1] {
                assert(now.to_multiset().count(w) == before.to_multiset().count(w) + 1);
                assert(false);
            }
            assert(now.to_multiset().count(w) == before.to_multiset().count(w));
        } else {
            assert(now.to_multiset().count(s[k - 1]) == longest_run(s, k));
        }
    }
}

/// The biggest filter group is the largest number of copies of any one signature.
pub proof fn law_the_largest_filter_group_is_the_most_repeated_signature(
    before: Seq<u64>,
    sorted: Seq<u64>,
)
    requires
        ascending(sorted),
        sorted.to_multiset() == before.to_multiset(),
    ensures
        forall|v: u64| #[trigger] before.to_multiset().count(v) <= longest_run(
            sorted,
            sorted.len() as int,
        ),
        before.len() > 0 ==> exists|v: u64| #[trigger] before.to_multiset().count(v) == longest_run(
            sorted,
            sorted.len() as int,
        ),
{
    broadcast use vstd::seq_lib::group_to_multiset_ensures;

    lemma_longest_run_is_most_copies(sorted, sorted.len() as int);
    assert(sorted.take(sorted.len() as int) =~= sorted);
    assert(sorted.len() == sorted.to_multiset().len());
    assert(before.len() == before.to_multiset().len());
}

/// The signatures fall into as many groups as they hold distinct values: sorted, each run of
/// equal values is one value.
pub proof fn law_filter_groups_are_distinct_signatures(before: Seq<u64>, sorted: Seq<u64>)
    requires
        ascending(sorted),
        sorted.to_multiset() == before.to_multiset(),
    ensures
        run_count(sorted, sorted.len() as int) == before.to_set().len(),
{
    lemma_runs_are_distinct_values(sorted, sorted.len() as int);
    assert(sorted.take(sorted.len() as int) =~= sorted);
    assert(sorted.to_set() =~= before.to_set()) by {
        broadcast use vstd::seq_lib::group_to_multiset_ensures;

        assert forall|v: u64| sorted.contains(v) <==> before.contains(v) by {
            assert(sorted.contains(v) <==> sorted.to_multiset().count(v) > 0);
            assert(before.contains(v) <==> before.to_multiset().count(v) > 0);
        }
    }
}

/// `s` in ascending order.
fn sorted_copy(s: &Vec<u64>) -> (r: Vec<u64>)
    ensures
        ascending(r@),
        r@.to_multiset() == s@.to_multiset(),
{
    broadcast use vstd::seq_lib::group_to_multiset_ensures;

    let mut sorted: Vec<u64> = Vec::new();
    let mut idx: usize = 0;
    while idx < s.len()
        invariant
            idx <= s@.len(),
            ascending(sorted@),
            sorted@.to_multiset() == s@.subrange(0, idx as int).to_multiset(),
        decreases s@.len() - idx,
    {
        let entry = s[idx];
        let mut pos = sorted.len();
        while pos > 0 && sorted[pos - 1] > entry
            invariant
                pos <= sorted@.len(),
                forall|j: int| pos <= j < sorted@.len() ==> sorted@[j] > entry,
            decreases pos,
        {
            pos -= 1;
        }
        let ghost before = sorted@;
        sorted.insert(pos, entry);
        proof {
            assert(s@.subrange(0, idx + 1) =~= s@.subrange(0, idx as int).push(entry));
            vstd::seq_lib::to_multiset_insert(before, pos as int, entry);
            vstd::seq_lib::to_multiset_build(s@.subrange(0, idx as int), entry);
            assert(sorted@ == before.insert(pos as int, entry));
            assert forall|i: int, j: int| 0 <= i < j < sorted@.len() implies sorted@[i]
                <= sorted@[j] by {
                if pos > 0 {
                    assert(before[pos - 1] <= entry);
                }
                if i < pos && j > pos {
                    assert(before[i] <= before[pos - 1] || i == pos - 1);
                }
            }
        }
        idx += 1;
    }
    assert(s@.subrange(0, s@.len() as int) =~= s@);
    sorted
}

/// How many distinct groups a frame's filter signatures form, and the size of the biggest.
///
/// Sorts the signatures in place and counts runs of equal values; the caller's order is not
/// kept.
pub fn count_signature_groups(signatures: &mut Vec<u64>) -> (r: (u64, u64))
    ensures
        ascending(final(signatures)@),
        final(signatures)@.to_multiset() == old(signatures)@.to_multiset(),
        r.0 == run_count(final(signatures)@, final(signatures)@.len() as int),
        r.1 == longest_run(final(signatures)@, final(signatures)@.len() as int),
{
    let sorted = sorted_copy(signatures);
    *signatures = sorted;
    let ghost s = signatures@;
    let mut groups: u64 = 0;
    let mut largest: u64 = 0;
    let mut run: u64 = 0;
    let mut previous: Option<u64> = None;
    let mut i: usize = 0;
    while i < signatures.len()
        invariant
            s == signatures@,
            i <= s.len(),
            groups == run_count(s, i as int),
            run <= i,
            largest <= i,
            i == 0 ==> run == 0 && largest == 0 && previous is None,
            i > 0 ==> run == run_length_at(s, i - 1) && previous == Some(s[i - 1]),
            (if largest >= run {
                largest
            } else {
                run
            }) == longest_run(s, i as int),
        decreases s.len() - i,
    {
        proof {
            lemma_run_counts_bounded(s, i as int);
        }
        let signature = signatures[i];
        if previous == Some(signature) {
            run += 1;
        } else {
            groups += 1;
            if run > largest {
                largest = run;
            }
            run = 1;
            previous = Some(signature);
        }
        i += 1;
    }
    let best = if run > largest {
        run
    } else {
        largest
    };
    (groups, best)
}

/// Count how the frame's blur-family filter signatures would group under an atlas: the
/// applications, the groups and the size of the biggest group are added to the interval. An empty
/// frame counts nothing. The signatures are left in ascending order.
pub fn record_filter_groups(metrics: &mut WgpuMetrics, signatures: &mut Vec<u64>)
    ensures
        old(signatures)@.len() == 0 ==> *final(metrics) == *old(metrics) && final(signatures)@
            == old(signatures)@,
        old(signatures)@.len() > 0 ==> {
            let s = final(signatures)@;
            &&& ascending(s)
            &&& s.to_multiset() == old(signatures)@.to_multiset()
            &&& final(metrics).pending == (WgpuMetricsSnapshot {
                filter_applications: sat(
                    old(metrics).pending.filter_applications,
                    old(signatures)@.len() as u64,
                ),
                filter_groups: sat(old(metrics).pending.filter_groups, run_count(s, s.len() as int)
                    as u64),
                filter_largest_group: sat(
                    old(metrics).pending.filter_largest_group,
                    longest_run(s, s.len() as int) as u64,
                ),
                ..old(metrics).pending
            })
            &&& final(metrics).census == old(metrics).census
        },
{
    if signatures.len() == 0 {
        return;
    }
    let count = signatures.len() as u64;
    let (groups, largest) = count_signature_groups(signatures);
    let p = &mut metrics.pending;
    p.filter_applications = p.filter_applications.saturating_add(count);
    p.filter_groups = p.filter_groups.saturating_add(groups);
    p.filter_largest_group = p.filter_largest_group.saturating_add(largest);
}

} // verus!
