//! A census of every texture the renderer creates, bucketed by size and by the call site that asked
//! for it, with the most recent requests kept in a small ring and the live residency last sampled
//! from the device. Printed when the device is lost, to name the allocator rather than guess at it.
use vstd::prelude::*;
use vstd::string::*;

use crate::metrics::{PoolMaintenanceReport, TexturePoolKind};
use crate::text::{
    decimal, decimal_string, fixed_point, fixed_point_string, left_aligned, percent_figure,
    push_decimal, push_fixed_point, push_percent, push_left_aligned, push_right_aligned, right_aligned,
};

verus! {

/// Which part of the renderer asked for a texture.
#[derive(Clone, Copy, Debug, Eq, PartialEq, Structural)]
pub enum TextureOrigin {
    /// Render targets and filter intermediates, via the texture pools.
    Pool,
    /// Decoded SWF images and BitmapData surfaces.
    Bitmap,
    /// Packed vector-gradient colour ramps shared by every registered shape.
    GradientAtlas,
}

/// The slots of the size table, probed linearly.
pub const TEXTURE_BUCKETS: usize = 4096;

/// How many of the most recent creations are kept.
pub const RECENT_TEXTURE_SLOTS: usize = 16;

/// The largest width or height a key can hold.
pub const SIDE_LIMIT: u32 = 0x1FFF_FFFF;

/// The name an origin is printed under.
pub open spec fn origin_name(origin: TextureOrigin) -> Seq<char> {
    match origin {
        TextureOrigin::Pool => "pool"@,
        TextureOrigin::Bitmap => "bitmap"@,
        TextureOrigin::GradientAtlas => "gradient-atlas"@,
    }
}

/// The origin's code in a key, one-based so that an untouched slot reads as zero.
pub open spec fn origin_code(origin: TextureOrigin) -> u64 {
    match origin {
        TextureOrigin::Pool => 1,
        TextureOrigin::Bitmap => 2,
        TextureOrigin::GradientAtlas => 3,
    }
}

/// The origin a key's top two bits name; any code but 1 and 2 reads as the gradient atlas.
pub open spec fn key_origin(key: u64) -> TextureOrigin {
    if key >> 62 == 1 {
        TextureOrigin::Pool
    } else if key >> 62 == 2 {
        TextureOrigin::Bitmap
    } else {
        TextureOrigin::GradientAtlas
    }
}

/// The width a key holds.
pub open spec fn key_width(key: u64) -> u64 {
    (key >> 29) & 0x1FFF_FFFF
}

/// The height a key holds.
pub open spec fn key_height(key: u64) -> u64 {
    key & 0x1FFF_FFFF
}

/// The sample count a key holds.
pub open spec fn key_samples(key: u64) -> u64 {
    (key >> 58) & 0xF
}

/// `x` capped at `limit`.
pub open spec fn capped(x: u32, limit: u32) -> u64 {
    if x < limit {
        x as u64
    } else {
        limit as u64
    }
}

/// The key of a size bucket: origin, sample count (capped at 15), width and height (capped at
/// 29 bits each), packed from the top bit down.
pub open spec fn texture_key_spec(origin: TextureOrigin, width: u32, height: u32, samples: u32) -> u64 {
    (origin_code(origin) << 62) | (capped(samples, 15) << 58) | (capped(width, SIDE_LIMIT) << 29)
        | capped(height, SIDE_LIMIT)
}

impl TextureOrigin {
    /// The name the origin is printed under.
    pub fn name(self) -> (r: &'static str)
        ensures
            r@ == origin_name(self),
    {
        match self {
            TextureOrigin::Pool => "pool",
            TextureOrigin::Bitmap => "bitmap",
            TextureOrigin::GradientAtlas => "gradient-atlas",
        }
    }
}

fn origin_of_key(key: u64) -> (r: TextureOrigin)
    ensures
        r == key_origin(key),
{
    let code = key >> 62;
    if code == 1 {
        TextureOrigin::Pool
    } else if code == 2 {
        TextureOrigin::Bitmap
    } else {
        TextureOrigin::GradientAtlas
    }
}

fn cap(x: u32, limit: u32) -> (r: u64)
    ensures
        r == capped(x, limit),
{
    if x < limit {
        x as u64
    } else {
        limit as u64
    }
}

/// The key of a size bucket.
pub fn texture_key(origin: TextureOrigin, width: u32, height: u32, samples: u32) -> (r: u64)
    ensures
        r == texture_key_spec(origin, width, height, samples),
{
    let code: u64 = match origin {
        TextureOrigin::Pool => 1,
        TextureOrigin::Bitmap => 2,
        TextureOrigin::GradientAtlas => 3,
    };
    (code << 62) | (cap(samples, 15) << 58) | (cap(width, SIDE_LIMIT) << 29) | cap(
        height,
        SIDE_LIMIT,
    )
}

/// A key is never zero, so an untouched slot is told apart from a real bucket, and it gives back
/// the origin, the capped sample count and the capped sides it was made from.
pub proof fn law_texture_key_round_trip(origin: TextureOrigin, width: u32, height: u32, samples: u32)
    ensures
        texture_key_spec(origin, width, height, samples) != 0,
        key_origin(texture_key_spec(origin, width, height, samples)) == origin,
        key_samples(texture_key_spec(origin, width, height, samples)) == capped(samples, 15),
        key_width(texture_key_spec(origin, width, height, samples)) == capped(width, SIDE_LIMIT),
        key_height(texture_key_spec(origin, width, height, samples)) == capped(height, SIDE_LIMIT),
{
    let o = origin_code(origin);
    let s = capped(samples, 15);
    let w = capped(width, SIDE_LIMIT);
    let h = capped(height, SIDE_LIMIT);
    let key = texture_key_spec(origin, width, height, samples);
    assert(1 <= o <= 3 && s <= 15 && w <= 0x1FFF_FFFF && h <= 0x1FFF_FFFF);
    assert(key == (o << 62) | (s << 58) | (w << 29) | h);
    assert(((o << 62) | (s << 58) | (w << 29) | h) >> 62 == o && (((o << 62) | (s << 58) | (w
        << 29) | h) >> 58) & 0xF == s && (((o << 62) | (s << 58) | (w << 29) | h) >> 29)
        & 0x1FFF_FFFF == w && ((o << 62) | (s << 58) | (w << 29) | h) & 0x1FFF_FFFF == h && ((o
        << 62) | (s << 58) | (w << 29) | h) != 0) by (bit_vector)
        requires
            1 <= o <= 3,
            s <= 15,
            w <= 0x1FFF_FFFF,
            h <= 0x1FFF_FFFF,
    ;
}

/// One recent creation, decoded from its key.
#[derive(Clone, Copy, Debug, Eq, PartialEq)]
pub struct RecentTexture {
    pub origin: &'static str,
    pub width: u32,
    pub height: u32,
    pub samples: u32,
}

/// Whether a decoded recent creation says what its key holds.
pub open spec fn decodes(r: RecentTexture, key: u64) -> bool {
    &&& r.origin@ == origin_name(key_origin(key))
    &&& r.width == key_width(key)
    &&& r.height == key_height(key)
    &&& r.samples == key_samples(key)
}

/// Whole-session pool activity for the census: unlike the per-interval counters it is never
/// drained, so a report after a fault covers the whole session.
#[derive(Clone, Copy, Debug, Default, Eq, PartialEq, Structural)]
pub struct PoolCensus {
    pub requests: u64,
    pub reuses: u64,
    pub buckets: u64,
    pub available_entries: u64,
    pub available_bytes: u64,
    pub budget_evicted_entries: u64,
    pub age_evicted_entries: u64,
}

/// Pool activity before any request.
pub open spec fn empty_pool_census() -> PoolCensus {
    PoolCensus {
        requests: 0,
        reuses: 0,
        buckets: 0,
        available_entries: 0,
        available_bytes: 0,
        budget_evicted_entries: 0,
        age_evicted_entries: 0,
    }
}

/// The residency before any sample.
pub open spec fn empty_residency() -> LiveResidency {
    LiveResidency {
        texture_bytes: 0,
        textures: 0,
        memory_allocations: 0,
        samples: 0,
        peak_texture_bytes: 0,
        peak_textures: 0,
    }
}

/// The live resources last sampled from the device, and their high-water marks.
#[derive(Clone, Copy, Debug, Default, Eq, PartialEq, Structural)]
pub struct LiveResidency {
    pub texture_bytes: u64,
    pub textures: u64,
    pub memory_allocations: u64,
    pub samples: u64,
    pub peak_texture_bytes: u64,
    pub peak_textures: u64,
}

/// The census: a fixed table of size buckets, probed linearly, with allocations that found no
/// room counted per origin; pool activity; the live residency; and the ring of recent keys.
pub struct TextureCensus {
    /// (key, count, bytes) per slot; key zero means untouched.
    slots: Vec<(u64, u64, u64)>,
    /// (count, bytes) per origin, for allocations that arrived after the table filled.
    overflow: Vec<(u64, u64)>,
    general: PoolCensus,
    offscreen: PoolCensus,
    live: LiveResidency,
    recent: Vec<u64>,
    cursor: u64,
}

/// The overflow row an origin counts in.
pub open spec fn overflow_index(origin: TextureOrigin) -> int {
    match origin {
        TextureOrigin::Pool => 0,
        TextureOrigin::Bitmap => 1,
        TextureOrigin::GradientAtlas => 2,
    }
}

/// Whether a slot can take a key: it already holds it, or it is untouched.
pub open spec fn slot_takes(slot: (u64, u64, u64), key: u64) -> bool {
    slot.0 == key || slot.0 == 0
}

/// The slot a key lands in, probing from its home slot onward from the `p`-th probe, or `None`
/// when every remaining slot holds another key.
pub open spec fn probe_from(slots: Seq<(u64, u64, u64)>, key: u64, p: int) -> Option<int>
    decreases TEXTURE_BUCKETS - p,
{
    if p < 0 || p >= TEXTURE_BUCKETS {
        None
    } else {
        let i = (key % (TEXTURE_BUCKETS as u64) + p) % (TEXTURE_BUCKETS as int);
        if slot_takes(slots[i], key) {
            Some(i)
        } else {
            probe_from(slots, key, p + 1)
        }
    }
}

impl TextureCensus {
    /// The size table, slot by slot: (key, count, bytes).
    pub closed spec fn slot_table(&self) -> Seq<(u64, u64, u64)> {
        self.slots@
    }

    /// The overflow rows, per origin: (count, bytes).
    pub closed spec fn overflow_rows(&self) -> Seq<(u64, u64)> {
        self.overflow@
    }

    /// The whole-session activity of a pool.
    pub closed spec fn pool(&self, kind: TexturePoolKind) -> PoolCensus {
        match kind {
            TexturePoolKind::General => self.general,
            TexturePoolKind::Offscreen => self.offscreen,
        }
    }

    /// The live residency last sampled.
    pub closed spec fn residency(&self) -> LiveResidency {
        self.live
    }

    /// The ring of recent keys, slot by slot.
    pub closed spec fn recent_ring(&self) -> Seq<u64> {
        self.recent@
    }

    /// How many creations the ring has seen, wrapping at `u64::MAX`.
    pub closed spec fn ring_cursor(&self) -> u64 {
        self.cursor
    }

    /// Nothing counted: every slot, overflow row and ring entry zero, and no pool activity or
    /// residency recorded.
    pub open spec fn is_empty(&self) -> bool {
        &&& forall|i: int| 0 <= i < TEXTURE_BUCKETS ==> #[trigger] self.slot_table()[i] == (0u64, 0u64, 0u64)
        &&& forall|i: int| 0 <= i < 3 ==> #[trigger] self.overflow_rows()[i] == (0u64, 0u64)
        &&& forall|i: int| 0 <= i < RECENT_TEXTURE_SLOTS ==> #[trigger] self.recent_ring()[i] == 0
        &&& self.ring_cursor() == 0
        &&& self.residency() == empty_residency()
        &&& self.pool(TexturePoolKind::General) == empty_pool_census()
        &&& self.pool(TexturePoolKind::Offscreen) == empty_pool_census()
    }

    /// The table, the overflow rows and the ring have their fixed sizes.
    pub closed spec fn wf(&self) -> bool {
        &&& self.slots@.len() == TEXTURE_BUCKETS
        &&& self.overflow@.len() == 3
        &&& self.recent@.len() == RECENT_TEXTURE_SLOTS
        &&& forall|j: int|
            0 <= j < TEXTURE_BUCKETS && (#[trigger] self.slots@[j]).0 == 0 ==> self.slots@[j].1 == 0
                && self.slots@[j].2 == 0
    }

    /// An empty census: no bucket touched, nothing overflowed, no pool activity, no residency
    /// sampled and no recent creation.
    pub fn new() -> (r: Self)
        ensures
            r.wf(),
            r.is_empty(),
            r.recent_ring().len() == RECENT_TEXTURE_SLOTS,
    {
        let mut slots: Vec<(u64, u64, u64)> = Vec::new();
        let mut i: usize = 0;
        while i < TEXTURE_BUCKETS
            invariant
                i <= TEXTURE_BUCKETS,
                slots@.len() == i,
                forall|j: int| 0 <= j < i ==> #[trigger] slots@[j] == (0u64, 0u64, 0u64),
            decreases TEXTURE_BUCKETS - i,
        {
            slots.push((0, 0, 0));
            i += 1;
        }
        let mut recent: Vec<u64> = Vec::new();
        let mut k: usize = 0;
        while k < RECENT_TEXTURE_SLOTS
            invariant
                k <= RECENT_TEXTURE_SLOTS,
                recent@.len() == k,
                forall|j: int| 0 <= j < k ==> #[trigger] recent@[j] == 0,
            decreases RECENT_TEXTURE_SLOTS - k,
        {
            recent.push(0);
            k += 1;
        }
        let empty_pool = PoolCensus {
            requests: 0,
            reuses: 0,
            buckets: 0,
            available_entries: 0,
            available_bytes: 0,
            budget_evicted_entries: 0,
            age_evicted_entries: 0,
        };
        let r = TextureCensus {
            slots,
            overflow: vec![(0, 0), (0, 0), (0, 0)],
            general: empty_pool,
            offscreen: empty_pool,
            live: LiveResidency {
                texture_bytes: 0,
                textures: 0,
                memory_allocations: 0,
                samples: 0,
                peak_texture_bytes: 0,
                peak_textures: 0,
            },
            recent,
            cursor: 0,
        };
        assert(r.overflow@ =~= seq![(0u64, 0u64), (0u64, 0u64), (0u64, 0u64)]);
        r
    }

    /// Everything but the activity of the pool `kind` is as in `other`.
    pub open spec fn same_but_pool(&self, other: &Self, kind: TexturePoolKind) -> bool {
        &&& self.wf() == other.wf()
        &&& self.slot_table() == other.slot_table()
        &&& self.overflow_rows() == other.overflow_rows()
        &&& self.residency() == other.residency()
        &&& self.recent_ring() == other.recent_ring()
        &&& self.ring_cursor() == other.ring_cursor()
        &&& kind == TexturePoolKind::General ==> self.pool(TexturePoolKind::Offscreen) == other.pool(
            TexturePoolKind::Offscreen,
        )
        &&& kind == TexturePoolKind::Offscreen ==> self.pool(TexturePoolKind::General) == other.pool(
            TexturePoolKind::General,
        )
    }

    /// Count one pool request, and whether it was served from the pool, for the whole session.
    pub fn note_pool_request(&mut self, kind: TexturePoolKind, reused: bool)
        ensures
            final(self).same_but_pool(old(self), kind),
            final(self).pool(kind) == pool_after_request(old(self).pool(kind), reused),
    {
        let pool = match kind {
            TexturePoolKind::General => &mut self.general,
            TexturePoolKind::Offscreen => &mut self.offscreen,
        };
        pool.requests = pool.requests.wrapping_add(1);
        if reused {
            pool.reuses = pool.reuses.wrapping_add(1);
        }
    }

    /// Record what a maintenance pass over a pool left: its buckets and what is available are
    /// replaced, its evictions are added.
    pub fn note_pool_maintenance(&mut self, kind: TexturePoolKind, report: &PoolMaintenanceReport)
        ensures
            final(self).same_but_pool(old(self), kind),
            final(self).pool(kind) == pool_after_maintenance(old(self).pool(kind), *report),
    {
        let pool = match kind {
            TexturePoolKind::General => &mut self.general,
            TexturePoolKind::Offscreen => &mut self.offscreen,
        };
        pool.buckets = report.bucket_count;
        pool.available_entries = report.available_entries;
        pool.available_bytes = report.available_bytes;
        pool.budget_evicted_entries = pool.budget_evicted_entries.wrapping_add(
            report.budget_evicted_entries,
        );
        pool.age_evicted_entries = pool.age_evicted_entries.wrapping_add(report.age_evicted_entries);
    }
}

/// A pool's session activity after one more request.
pub open spec fn pool_after_request(p: PoolCensus, reused: bool) -> PoolCensus {
    PoolCensus {
        requests: p.requests.wrapping_add(1),
        reuses: if reused {
            p.reuses.wrapping_add(1)
        } else {
            p.reuses
        },
        ..p
    }
}

/// A pool's session activity after a maintenance pass.
pub open spec fn pool_after_maintenance(p: PoolCensus, report: PoolMaintenanceReport) -> PoolCensus {
    PoolCensus {
        buckets: report.bucket_count,
        available_entries: report.available_entries,
        available_bytes: report.available_bytes,
        budget_evicted_entries: p.budget_evicted_entries.wrapping_add(report.budget_evicted_entries),
        age_evicted_entries: p.age_evicted_entries.wrapping_add(report.age_evicted_entries),
        ..p
    }
}

/// The pool line's eviction counts are session totals: after maintenance passes, each is what it
/// was plus every pass's evictions (wrapping past `u64::MAX`), while the bucket and idle figures
/// are the latest pass's own and the request counts are untouched.
pub proof fn law_evictions_add_up_over_maintenance_passes(
    p: PoolCensus,
    first: PoolMaintenanceReport,
    second: PoolMaintenanceReport,
)
    ensures
        pool_after_maintenance(p, first).budget_evicted_entries as int == (p.budget_evicted_entries
            + first.budget_evicted_entries) % 0x1_0000_0000_0000_0000,
        pool_after_maintenance(p, first).age_evicted_entries as int == (p.age_evicted_entries
            + first.age_evicted_entries) % 0x1_0000_0000_0000_0000,
        pool_after_maintenance(pool_after_maintenance(p, first), second).budget_evicted_entries
            as int == (p.budget_evicted_entries + first.budget_evicted_entries
            + second.budget_evicted_entries) % 0x1_0000_0000_0000_0000,
        pool_after_maintenance(pool_after_maintenance(p, first), second).age_evicted_entries as int
            == (p.age_evicted_entries + first.age_evicted_entries + second.age_evicted_entries)
            % 0x1_0000_0000_0000_0000,
        pool_after_maintenance(pool_after_maintenance(p, first), second).buckets
            == second.bucket_count,
        pool_after_maintenance(pool_after_maintenance(p, first), second).available_entries
            == second.available_entries,
        pool_after_maintenance(pool_after_maintenance(p, first), second).available_bytes
            == second.available_bytes,
        pool_after_maintenance(pool_after_maintenance(p, first), second).requests == p.requests,
        pool_after_maintenance(pool_after_maintenance(p, first), second).reuses == p.reuses,
{
}

/// The ring after a creation with key `key`: the key goes in the slot the cursor points at.
pub open spec fn ring_after(recent: Seq<u64>, cursor: u64, key: u64) -> Seq<u64> {
    recent.update((cursor % (RECENT_TEXTURE_SLOTS as u64)) as int, key)
}

/// The size table after a creation of `bytes` bytes with key `key`, when it lands in slot `i`:
/// the slot takes the key and counts one more creation and its bytes, wrapping at `u64::MAX`.
pub open spec fn table_after(slots: Seq<(u64, u64, u64)>, i: int, key: u64, bytes: u64) -> Seq<
    (u64, u64, u64),
> {
    slots.update(i, (key, slots[i].1.wrapping_add(1), slots[i].2.wrapping_add(bytes)))
}

/// The overflow rows after a creation that found no slot: its origin's row counts it.
pub open spec fn overflow_after(rows: Seq<(u64, u64)>, origin: TextureOrigin, bytes: u64) -> Seq<
    (u64, u64),
> {
    let i = overflow_index(origin);
    rows.update(i, (rows[i].0.wrapping_add(1), rows[i].1.wrapping_add(bytes)))
}

/// Record one texture creation: its key goes into the ring of recent creations, and the size
/// table counts it in the first slot, probing on from the key's home slot, that already holds the
/// key or is untouched. When every slot holds another key, its origin's overflow row counts it.
pub fn record_texture_created(
    census: &mut TextureCensus,
    origin: TextureOrigin,
    width: u32,
    height: u32,
    samples: u32,
    bytes: u64,
)
    requires
        old(census).wf(),
    ensures
        final(census).wf(),
        final(census).recent_ring().len() == RECENT_TEXTURE_SLOTS,
        final(census).recent_ring() == ring_after(
            old(census).recent_ring(),
            old(census).ring_cursor(),
            texture_key_spec(origin, width, height, samples),
        ),
        final(census).ring_cursor() == old(census).ring_cursor().wrapping_add(1),
        probe_from(old(census).slot_table(), texture_key_spec(origin, width, height, samples), 0)
            matches Some(i) ==> final(census).slot_table() == table_after(
            old(census).slot_table(),
            i,
            texture_key_spec(origin, width, height, samples),
            bytes,
        ) && final(census).overflow_rows() == old(census).overflow_rows(),
        probe_from(old(census).slot_table(), texture_key_spec(origin, width, height, samples), 0)
            is None ==> final(census).slot_table() == old(census).slot_table()
            && final(census).overflow_rows() == overflow_after(
            old(census).overflow_rows(),
            origin,
            bytes,
        ),
        final(census).residency() == old(census).residency(),
        final(census).pool(TexturePoolKind::General) == old(census).pool(TexturePoolKind::General),
        final(census).pool(TexturePoolKind::Offscreen) == old(census).pool(
            TexturePoolKind::Offscreen,
        ),
{
    let key = texture_key(origin, width, height, samples);
    let slot = (census.cursor % (RECENT_TEXTURE_SLOTS as u64)) as usize;
    census.recent.set(slot, key);
    census.cursor = census.cursor.wrapping_add(1);
    let start = (key % (TEXTURE_BUCKETS as u64)) as usize;
    let ghost slots0 = census.slots@;
    let ghost recent1 = census.recent@;
    let ghost cursor1 = census.cursor;
    let ghost overflow0 = census.overflow@;
    let ghost live0 = census.live;
    let ghost general0 = census.general;
    let ghost offscreen0 = census.offscreen;
    let mut probe: usize = 0;
    while probe < TEXTURE_BUCKETS
        invariant
            census.wf(),
            census.slots@ == slots0,
            census.recent@ == recent1,
            census.cursor == cursor1,
            census.overflow@ == overflow0,
            census.live == live0,
            census.general == general0,
            census.offscreen == offscreen0,
            slots0 == old(census).slots@,
            overflow0 == old(census).overflow@,
            live0 == old(census).live,
            general0 == old(census).general,
            offscreen0 == old(census).offscreen,
            recent1 == ring_after(old(census).recent@, old(census).cursor, key),
            cursor1 == old(census).cursor.wrapping_add(1),
            key == texture_key_spec(origin, width, height, samples),
            start == key % (TEXTURE_BUCKETS as u64),
            probe <= TEXTURE_BUCKETS,
            probe_from(slots0, key, 0) == probe_from(slots0, key, probe as int),
        decreases TEXTURE_BUCKETS - probe,
    {
        let index = (start + probe) % TEXTURE_BUCKETS;
        let (existing, count, total) = census.slots[index];
        if existing == key || existing == 0 {
            census.slots.set(index, (key, count.wrapping_add(1), total.wrapping_add(bytes)));
            proof {
                assert(index as int == (key % (TEXTURE_BUCKETS as u64) + probe) % (
                TEXTURE_BUCKETS as int));
                assert(slot_takes(slots0[index as int], key));
                assert(probe_from(slots0, key, probe as int) == Some(index as int));
                assert(census.slots@ == table_after(slots0, index as int, key, bytes));
                law_texture_key_round_trip(origin, width, height, samples);
                assert forall|j: int|
                    0 <= j < TEXTURE_BUCKETS && (#[trigger] census.slots@[j]).0 == 0 implies census.slots@[j].1
                        == 0 && census.slots@[j].2 == 0 by {
                    if j != index as int {
                        assert(census.slots@[j] == slots0[j]);
                    }
                }
            }
            return;
        }
        probe += 1;
    }
    let row = match origin {
        TextureOrigin::Pool => 0usize,
        TextureOrigin::Bitmap => 1usize,
        TextureOrigin::GradientAtlas => 2usize,
    };
    let (count, total) = census.overflow[row];
    census.overflow.set(row, (count.wrapping_add(1), total.wrapping_add(bytes)));
}

/// The live residency after a sample: the latest figures, one more sample, and peaks that keep
/// the larger of the old peak and the new figure.
pub open spec fn residency_after(
    live: LiveResidency,
    texture_bytes: u64,
    textures: u64,
    memory_allocations: u64,
) -> LiveResidency {
    LiveResidency {
        texture_bytes,
        textures,
        memory_allocations,
        samples: live.samples.wrapping_add(1),
        peak_texture_bytes: if texture_bytes > live.peak_texture_bytes {
            texture_bytes
        } else {
            live.peak_texture_bytes
        },
        peak_textures: if textures > live.peak_textures {
            textures
        } else {
            live.peak_textures
        },
    }
}

/// After a residency sample the report shows its figures as the live ones at the fault, and
/// peaks that are never below it or below any earlier peak.
pub proof fn law_residency_lines_show_the_latest_sample(
    live: LiveResidency,
    texture_bytes: u64,
    textures: u64,
    memory_allocations: u64,
)
    requires
        live.samples < u64::MAX,
    ensures
        ({
            let after = residency_after(live, texture_bytes, textures, memory_allocations);
            &&& live_lines(after).len() == 2
            &&& live_lines(after)[0] == "  live at fault: "@ + decimal(textures as nat)
                + " textures, "@ + fixed_point(texture_bytes as nat, 1_000_000_000, 2)
                + " GB resident, "@ + decimal(memory_allocations as nat) + " device allocations"@
            &&& after.peak_textures >= textures && after.peak_textures >= live.peak_textures
            &&& after.peak_texture_bytes >= texture_bytes && after.peak_texture_bytes
                >= live.peak_texture_bytes
        }),
{
}

/// Record a sample of the live resources: the figures replace the last sample, the sample count
/// goes up by one (wrapping), and the high-water marks keep the larger figure.
pub fn record_gpu_residency(
    census: &mut TextureCensus,
    texture_bytes: u64,
    textures: u64,
    memory_allocations: u64,
)
    ensures
        final(census).residency() == residency_after(
            old(census).residency(),
            texture_bytes,
            textures,
            memory_allocations,
        ),
        final(census).wf() == old(census).wf(),
        final(census).slot_table() == old(census).slot_table(),
        final(census).overflow_rows() == old(census).overflow_rows(),
        final(census).recent_ring() == old(census).recent_ring(),
        final(census).ring_cursor() == old(census).ring_cursor(),
        final(census).pool(TexturePoolKind::General) == old(census).pool(TexturePoolKind::General),
        final(census).pool(TexturePoolKind::Offscreen) == old(census).pool(
            TexturePoolKind::Offscreen,
        ),
{
    let live = &mut census.live;
    live.texture_bytes = texture_bytes;
    live.textures = textures;
    live.memory_allocations = memory_allocations;
    live.samples = live.samples.wrapping_add(1);
    if texture_bytes > live.peak_texture_bytes {
        live.peak_texture_bytes = texture_bytes;
    }
    if textures > live.peak_textures {
        live.peak_textures = textures;
    }
}

/// The recent creations held in the ring among the first `k` steps from the cursor, oldest
/// first; untouched slots are skipped.
pub open spec fn recent_keys(recent: Seq<u64>, cursor: u64, k: int) -> Seq<u64>
    decreases k,
{
    if k <= 0 {
        Seq::empty()
    } else {
        let key = recent[((cursor as int + k - 1) % (RECENT_TEXTURE_SLOTS as int))];
        recent_keys(recent, cursor, k - 1) + if key == 0 {
            Seq::empty()
        } else {
            seq![key]
        }
    }
}

fn decode_recent(key: u64) -> (r: RecentTexture)
    ensures
        decodes(r, key),
{
    assert((key >> 29) & 0x1FFF_FFFF <= 0x1FFF_FFFF && key & 0x1FFF_FFFF <= 0x1FFF_FFFF && (key
        >> 58) & 0xF <= 0xF) by (bit_vector);
    RecentTexture {
        origin: origin_of_key(key).name(),
        width: ((key >> 29) & 0x1FFF_FFFF) as u32,
        height: (key & 0x1FFF_FFFF) as u32,
        samples: ((key >> 58) & 0xF) as u32,
    }
}

/// The recent creations, oldest first, starting one past the newest; untouched slots are skipped.
pub fn recent_textures(census: &TextureCensus) -> (r: Vec<RecentTexture>)
    requires
        census.wf(),
    ensures
        ({
            let keys = recent_keys(
                census.recent_ring(),
                census.ring_cursor(),
                RECENT_TEXTURE_SLOTS as int,
            );
            &&& r@.len() == keys.len()
            &&& forall|i: int| 0 <= i < keys.len() ==> decodes(#[trigger] r@[i], keys[i])
        }),
{
    let start = (census.cursor % (RECENT_TEXTURE_SLOTS as u64)) as usize;
    let mut out: Vec<RecentTexture> = Vec::new();
    let mut step: usize = 0;
    while step < RECENT_TEXTURE_SLOTS
        invariant
            census.wf(),
            start == census.cursor % (RECENT_TEXTURE_SLOTS as u64),
            step <= RECENT_TEXTURE_SLOTS,
            out@.len() == recent_keys(census.recent@, census.cursor, step as int).len(),
            forall|i: int|
                0 <= i < out@.len() ==> decodes(
                    #[trigger] out@[i],
                    recent_keys(census.recent@, census.cursor, step as int)[i],
                ),
        decreases RECENT_TEXTURE_SLOTS - step,
    {
        let index = (start + step) % RECENT_TEXTURE_SLOTS;
        proof {
            assert(index == (census.cursor as int + step) % (RECENT_TEXTURE_SLOTS as int)) by (
            nonlinear_arith)
                requires
                    start == census.cursor % 16,
                    index == (start + step) % 16,
            ;
        }
        let key = census.recent[index];
        let ghost prev = recent_keys(census.recent@, census.cursor, step as int);
        if key != 0 {
            out.push(decode_recent(key));
        }
        step += 1;
        proof {
            let now = recent_keys(census.recent@, census.cursor, step as int);
            assert(now == prev + if key == 0 {
                Seq::<u64>::empty()
            } else {
                seq![key]
            });
            assert forall|i: int| 0 <= i < out@.len() implies decodes(#[trigger] out@[i], now[i]) by {
                if i < prev.len() {
                    assert(now[i] == prev[i]);
                }
            }
        }
    }
    out
}

/// Whether `order` lists every used slot below `bound` exactly once, by bytes from the largest
/// down, slots with equal bytes in table order.
pub open spec fn is_order_below(slots: Seq<(u64, u64, u64)>, order: Seq<usize>, bound: int) -> bool {
    &&& forall|i: int| 0 <= i < order.len() ==> (#[trigger] order[i]) < bound && slots[order[i]
        as int].0 != 0
    &&& forall|j: int| 0 <= j < bound && (#[trigger] slots[j]).0 != 0 ==> order.contains(j as usize)
    &&& forall|i: int, k: int| 0 <= i < k < order.len() ==> #[trigger] order[i] != #[trigger] order[k]
    &&& forall|i: int, k: int|
        0 <= i < k < order.len() ==> slots[#[trigger] order[i] as int].2 >= slots[#[trigger] order[k]
            as int].2
    &&& forall|i: int, k: int|
        0 <= i < k < order.len() && slots[#[trigger] order[i] as int].2 == slots[#[trigger] order[k]
            as int].2 ==> order[i] < order[k]
}

/// Whether `order` lists every used slot of the table exactly once, by bytes from the largest
/// down, slots with equal bytes in table order.
pub open spec fn is_census_order(slots: Seq<(u64, u64, u64)>, order: Seq<usize>) -> bool {
    is_order_below(slots, order, slots.len() as int)
}

#[verifier::rlimit(40)]
proof fn lemma_insert_keeps_order(
    slots: Seq<(u64, u64, u64)>,
    before: Seq<usize>,
    p: int,
    s: int,
)
    requires
        0 <= s < slots.len(),
        s <= usize::MAX,
        slots[s].0 != 0,
        is_order_below(slots, before, s),
        0 <= p <= before.len(),
        forall|i: int| 0 <= i < p ==> slots[(#[trigger] before[i]) as int].2 >= slots[s].2,
        forall|k: int| p <= k < before.len() ==> slots[(#[trigger] before[k]) as int].2 < slots[s].2,
    ensures
        is_order_below(slots, before.insert(p, s as usize), s + 1),
{
    let after = before.insert(p, s as usize);
    assert forall|i: int| 0 <= i < after.len() implies (#[trigger] after[i]) < s + 1
        && slots[after[i] as int].0 != 0 by {
        if i < p {
            assert(after[i] == before[i]);
        } else if i > p {
            assert(after[i] == before[i - 1]);
        }
    }
    assert forall|j: int| 0 <= j < s + 1 && (#[trigger] slots[j]).0 != 0 implies after.contains(
        j as usize,
    ) by {
        if j == s {
            assert(after[p] == s as usize);
        } else {
            assert(before.contains(j as usize));
            let w = choose|w: int| 0 <= w < before.len() && before[w] == j as usize;
            if w < p {
                assert(after[w] == before[w]);
            } else {
                assert(after[w + 1] == before[w]);
            }
        }
    }
    assert forall|i: int, k: int| 0 <= i < k < after.len() implies #[trigger] after[i]
        != #[trigger] after[k] by {
        if i == p {
            assert(after[k] == before[k - 1]);
        } else if k == p {
            assert(after[i] == before[i]);
        } else if i < p && k < p {
            assert(after[i] == before[i] && after[k] == before[k]);
        } else if i < p && k > p {
            assert(after[i] == before[i] && after[k] == before[k - 1]);
        } else {
            assert(after[i] == before[i - 1] && after[k] == before[k - 1]);
        }
    }
    assert forall|i: int, k: int| 0 <= i < k < after.len() implies slots[#[trigger] after[i]
        as int].2 >= slots[#[trigger] after[k] as int].2 by {
        if i == p {
            assert(after[k] == before[k - 1]);
        } else if k == p {
            assert(after[i] == before[i]);
        } else if i < p && k < p {
            assert(after[i] == before[i] && after[k] == before[k]);
        } else if i < p && k > p {
            assert(after[i] == before[i] && after[k] == before[k - 1]);
        } else {
            assert(after[i] == before[i - 1] && after[k] == before[k - 1]);
        }
    }
    assert forall|i: int, k: int|
        0 <= i < k < after.len() && slots[#[trigger] after[i] as int].2 == slots[#[trigger] after[k]
            as int].2 implies after[i] < after[k] by {
        if i == p {
            assert(after[k] == before[k - 1]);
        } else if k == p {
            assert(after[i] == before[i]);
        } else if i < p && k < p {
            assert(after[i] == before[i] && after[k] == before[k]);
        } else if i < p && k > p {
            assert(after[i] == before[i] && after[k] == before[k - 1]);
        } else {
            assert(after[i] == before[i - 1] && after[k] == before[k - 1]);
        }
    }
}

/// The used slots of the table, by bytes from the largest down, slots with equal bytes in table
/// order.
fn census_order(slots: &Vec<(u64, u64, u64)>) -> (r: Vec<usize>)
    ensures
        is_census_order(slots@, r@),
{
    let mut order: Vec<usize> = Vec::new();
    let mut s: usize = 0;
    while s < slots.len()
        invariant
            s <= slots@.len(),
            is_order_below(slots@, order@, s as int),
        decreases slots@.len() - s,
    {
        if slots[s].0 != 0 {
            let bytes = slots[s].2;
            let mut p: usize = 0;
            while p < order.len() && slots[order[p]].2 >= bytes
                invariant
                    p <= order@.len(),
                    is_order_below(slots@, order@, s as int),
                    s < slots@.len(),
                    forall|i: int| 0 <= i < p ==> slots@[(#[trigger] order@[i]) as int].2 >= bytes,
                decreases order@.len() - p,
            {
                p += 1;
            }
            let ghost before = order@;
            proof {
                assert forall|k: int| p <= k < before.len() implies slots@[(#[trigger] before[k])
                    as int].2 < bytes by {
                    assert(slots@[before[p as int] as int].2 < bytes);
                    if k > p {
                        assert(slots@[before[p as int] as int].2 >= slots@[before[k] as int].2);
                    }
                }
                lemma_insert_keeps_order(slots@, before, p as int, s as int);
            }
            order.insert(p, s);
        }
        s += 1;
    }
    order
}

/// The bytes held by the used slots among the first `k`.
pub open spec fn used_bytes(slots: Seq<(u64, u64, u64)>, k: int) -> int
    decreases k,
{
    if k <= 0 {
        0
    } else {
        used_bytes(slots, k - 1) + if slots[k - 1].0 != 0 {
            slots[k - 1].2 as int
        } else {
            0
        }
    }
}

/// The creations counted by the used slots among the first `k`.
pub open spec fn used_count(slots: Seq<(u64, u64, u64)>, k: int) -> int
    decreases k,
{
    if k <= 0 {
        0
    } else {
        used_count(slots, k - 1) + if slots[k - 1].0 != 0 {
            slots[k - 1].1 as int
        } else {
            0
        }
    }
}

/// How many of the first `k` slots are used.
pub open spec fn used_slots(slots: Seq<(u64, u64, u64)>, k: int) -> nat
    decreases k,
{
    if k <= 0 {
        0
    } else {
        used_slots(slots, k - 1) + if slots[k - 1].0 != 0 {
            1nat
        } else {
            0nat
        }
    }
}

/// The creations counted in the overflow rows.
pub open spec fn overflow_count(rows: Seq<(u64, u64)>) -> int {
    rows[0].0 + rows[1].0 + rows[2].0
}

/// The bytes counted in the overflow rows.
pub open spec fn overflow_bytes(rows: Seq<(u64, u64)>) -> int {
    rows[0].1 + rows[1].1 + rows[2].1
}

impl TextureCensus {
    /// The table's totals and the overflow's each fit in 64 bits, so the report can add them up.
    pub open spec fn totals_fit(&self) -> bool {
        &&& used_bytes(self.slot_table(), TEXTURE_BUCKETS as int) <= u64::MAX
        &&& used_count(self.slot_table(), TEXTURE_BUCKETS as int) <= u64::MAX
        &&& overflow_bytes(self.overflow_rows()) <= u64::MAX
        &&& overflow_count(self.overflow_rows()) <= u64::MAX
    }
}

/// Every creation the census has counted, in the table and in the overflow rows.
pub open spec fn census_total_count(c: TextureCensus) -> int {
    used_count(c.slot_table(), TEXTURE_BUCKETS as int) + overflow_count(c.overflow_rows())
}

/// Every byte the census has counted, in the table and in the overflow rows.
pub open spec fn census_total_bytes(c: TextureCensus) -> int {
    used_bytes(c.slot_table(), TEXTURE_BUCKETS as int) + overflow_bytes(c.overflow_rows())
}

proof fn lemma_used_nonneg(slots: Seq<(u64, u64, u64)>, k: int)
    ensures
        used_count(slots, k) >= 0,
        used_bytes(slots, k) >= 0,
    decreases k,
{
    if k > 0 {
        lemma_used_nonneg(slots, k - 1);
    }
}

/// A used slot's count and bytes are part of the table's totals.
proof fn lemma_used_covers_slot(slots: Seq<(u64, u64, u64)>, j: int, k: int)
    requires
        0 <= j < k,
        slots[j].0 != 0,
    ensures
        used_count(slots, k) >= slots[j].1,
        used_bytes(slots, k) >= slots[j].2,
    decreases k,
{
    if k - 1 > j {
        lemma_used_covers_slot(slots, j, k - 1);
    } else {
        lemma_used_nonneg(slots, k - 1);
    }
}

/// Giving slot `i` a key and new counts changes the totals by exactly that slot's change.
proof fn lemma_used_update(slots: Seq<(u64, u64, u64)>, i: int, slot: (u64, u64, u64), k: int)
    requires
        0 <= i < slots.len(),
        0 <= k <= slots.len(),
        slot.0 != 0,
    ensures
        used_count(slots.update(i, slot), k) == used_count(slots, k) + if k > i {
            slot.1 - if slots[i].0 != 0 {
                slots[i].1 as int
            } else {
                0
            }
        } else {
            0
        },
        used_bytes(slots.update(i, slot), k) == used_bytes(slots, k) + if k > i {
            slot.2 - if slots[i].0 != 0 {
                slots[i].2 as int
            } else {
                0
            }
        } else {
            0
        },
    decreases k,
{
    if k > 0 {
        lemma_used_update(slots, i, slot, k - 1);
    }
}

/// A slot the probe finds is in the table and can take the key.
proof fn lemma_probe_in_range(slots: Seq<(u64, u64, u64)>, key: u64, p: int)
    ensures
        probe_from(slots, key, p) matches Some(i) ==> 0 <= i < TEXTURE_BUCKETS && slot_takes(
            slots[i],
            key,
        ),
    decreases TEXTURE_BUCKETS - p,
{
    if 0 <= p < TEXTURE_BUCKETS {
        lemma_probe_in_range(slots, key, p + 1);
    }
}

/// The creation just recorded is the last of the recent creations the report lists: after a
/// creation whose key is not zero, the newest recent entry is that creation.
pub proof fn law_the_latest_creation_is_listed_last(before: TextureCensus, after: TextureCensus, key: u64)
    requires
        before.wf(),
        after.recent_ring() == ring_after(before.recent_ring(), before.ring_cursor(), key),
        after.ring_cursor() == before.ring_cursor().wrapping_add(1),
        key != 0,
    ensures
        recent_keys(after.recent_ring(), after.ring_cursor(), RECENT_TEXTURE_SLOTS as int).len()
            > 0,
        recent_keys(after.recent_ring(), after.ring_cursor(), RECENT_TEXTURE_SLOTS as int).last()
            == key,
{
    let recent = before.recent_ring();
    let cursor = before.ring_cursor();
    let next = cursor.wrapping_add(1);
    let at = (cursor % (RECENT_TEXTURE_SLOTS as u64)) as int;
    assert((next as int + RECENT_TEXTURE_SLOTS as int - 1) % (RECENT_TEXTURE_SLOTS as int) == at)
        by (nonlinear_arith)
        requires
            next == (if cursor == u64::MAX {
                0
            } else {
                cursor + 1
            }),
            at == cursor % 16,
            RECENT_TEXTURE_SLOTS == 16,
    ;
    let ring = ring_after(recent, cursor, key);
    assert(ring[at] == key);
}

/// One more creation adds one to the census header's allocation count and its bytes to the
/// header's byte total, whether the texture's size found a slot in the table or fell into its
/// origin's overflow row.
pub proof fn law_a_creation_adds_to_the_census_totals(
    before: TextureCensus,
    after: TextureCensus,
    origin: TextureOrigin,
    width: u32,
    height: u32,
    samples: u32,
    bytes: u64,
)
    requires
        before.wf(),
        census_total_count(before) + 1 <= u64::MAX,
        census_total_bytes(before) + bytes <= u64::MAX,
        probe_from(before.slot_table(), texture_key_spec(origin, width, height, samples), 0)
            matches Some(i) ==> after.slot_table() == table_after(
            before.slot_table(),
            i,
            texture_key_spec(origin, width, height, samples),
            bytes,
        ) && after.overflow_rows() == before.overflow_rows(),
        probe_from(before.slot_table(), texture_key_spec(origin, width, height, samples), 0)
            is None ==> after.slot_table() == before.slot_table() && after.overflow_rows()
            == overflow_after(before.overflow_rows(), origin, bytes),
    ensures
        census_total_count(after) == census_total_count(before) + 1,
        census_total_bytes(after) == census_total_bytes(before) + bytes,
        sat_add(used_count(after.slot_table(), TEXTURE_BUCKETS as int), overflow_count(
            after.overflow_rows(),
        )) == census_total_count(before) + 1,
        sat_add(used_bytes(after.slot_table(), TEXTURE_BUCKETS as int), overflow_bytes(
            after.overflow_rows(),
        )) == census_total_bytes(before) + bytes,
{
    let key = texture_key_spec(origin, width, height, samples);
    let slots = before.slot_table();
    let rows = before.overflow_rows();
    law_texture_key_round_trip(origin, width, height, samples);
    lemma_used_nonneg(slots, TEXTURE_BUCKETS as int);
    match probe_from(slots, key, 0) {
        Some(i) => {
            lemma_probe_in_range(slots, key, 0);
            if slots[i].0 != 0 {
                lemma_used_covers_slot(slots, i, TEXTURE_BUCKETS as int);
            }
            let slot = (key, slots[i].1.wrapping_add(1), slots[i].2.wrapping_add(bytes));
            assert(slot.1 == slots[i].1 + 1);
            assert(slot.2 == slots[i].2 + bytes);
            lemma_used_update(slots, i, slot, TEXTURE_BUCKETS as int);
        },
        None => {
            let o = overflow_index(origin);
            assert(rows[o].0 + 1 <= u64::MAX && rows[o].1 + bytes <= u64::MAX);
        },
    }
}

/// The report's first line: every creation, every byte, and how full the table is.
pub open spec fn census_header(total_count: u64, total_bytes: u64, used: nat) -> Seq<char> {
    "texture census: "@ + decimal(total_count as nat) + " allocations, "@ + fixed_point(
        total_bytes as nat,
        1_000_000_000,
        1,
    ) + " GB created in total, "@ + decimal(used) + "/"@ + decimal(TEXTURE_BUCKETS as nat)
        + " size buckets used"@ + if used >= TEXTURE_BUCKETS {
        " (table full)"@
    } else {
        Seq::empty()
    }
}

/// The live residency, when it has been sampled at all: what was live last, and the peaks.
pub open spec fn live_lines(live: LiveResidency) -> Seq<Seq<char>> {
    if live.samples > 0 {
        seq![
            "  live at fault: "@ + decimal(live.textures as nat) + " textures, "@ + fixed_point(
                live.texture_bytes as nat,
                1_000_000_000,
                2,
            ) + " GB resident, "@ + decimal(live.memory_allocations as nat)
                + " device allocations"@,
            "  peak live:     "@ + decimal(live.peak_textures as nat) + " textures, "@
                + fixed_point(live.peak_texture_bytes as nat, 1_000_000_000, 2) + " GB resident"@,
        ]
    } else {
        Seq::empty()
    }
}

/// A pool's session line: its reuse ratio, its buckets, what it retains and what it evicted.
pub open spec fn pool_line(name: Seq<char>, p: PoolCensus) -> Seq<char> {
    "  "@ + name + " pool: "@ + decimal(p.reuses as nat) + "/"@ + decimal(p.requests as nat)
        + " reused ("@ + percent_figure(p.reuses as nat, p.requests as nat) + "%), "@
        + decimal(p.buckets as nat) + " buckets, "@ + decimal(p.available_entries as nat)
        + " entries / "@ + fixed_point(p.available_bytes as nat, 1_000_000_000, 2)
        + " GB retained, evicted "@ + decimal(p.budget_evicted_entries as nat) + " for budget / "@
        + decimal(p.age_evicted_entries as nat) + " for age"@
}

/// One line per pool that saw a request.
pub open spec fn pool_lines(general: PoolCensus, offscreen: PoolCensus) -> Seq<Seq<char>> {
    (if general.requests > 0 {
        seq![pool_line("general"@, general)]
    } else {
        Seq::empty()
    }) + (if offscreen.requests > 0 {
        seq![pool_line("offscreen"@, offscreen)]
    } else {
        Seq::empty()
    })
}

/// A key's size, as `width x height x samples`.
pub open spec fn size_text(key: u64) -> Seq<char> {
    right_aligned(decimal(key_width(key) as nat), 5) + "x"@ + left_aligned(
        decimal(key_height(key) as nat),
        5,
    ) + " x"@ + decimal(key_samples(key) as nat)
}

/// One size bucket's line: origin, size, creations and bytes.
pub open spec fn bucket_line(slot: (u64, u64, u64)) -> Seq<char> {
    right_aligned(origin_name(key_origin(slot.0)), 6) + " "@ + size_text(slot.0) + "  "@
        + right_aligned(decimal(slot.1 as nat), 7) + " allocs  "@ + right_aligned(
        fixed_point(slot.2 as nat, 1_000_000, 1),
        9,
    ) + " MB"@
}

/// The lines of the first `n` buckets in `order`.
pub open spec fn bucket_lines(slots: Seq<(u64, u64, u64)>, order: Seq<usize>, n: int) -> Seq<
    Seq<char>,
> {
    Seq::new(n as nat, |i: int| bucket_line(slots[order[i] as int]))
}

/// The origin an overflow row counts.
pub open spec fn overflow_origin(i: int) -> TextureOrigin {
    if i == 0 {
        TextureOrigin::Pool
    } else if i == 1 {
        TextureOrigin::Bitmap
    } else {
        TextureOrigin::GradientAtlas
    }
}

/// One overflow row's line.
pub open spec fn overflow_line(i: int, row: (u64, u64)) -> Seq<char> {
    right_aligned(origin_name(overflow_origin(i)), 6) + " (sizes past the table)  "@
        + right_aligned(decimal(row.0 as nat), 7) + " allocs  "@ + right_aligned(
        fixed_point(row.1 as nat, 1_000_000, 1),
        9,
    ) + " MB"@
}

/// The lines of the overflow rows among the first `k` that counted anything.
pub open spec fn overflow_lines(rows: Seq<(u64, u64)>, k: int) -> Seq<Seq<char>>
    decreases k,
{
    if k <= 0 {
        Seq::empty()
    } else {
        overflow_lines(rows, k - 1) + if rows[k - 1].0 > 0 {
            seq![overflow_line(k - 1, rows[k - 1])]
        } else {
            Seq::empty()
        }
    }
}

/// One recent creation's line.
pub open spec fn recent_line(key: u64) -> Seq<char> {
    "  "@ + right_aligned(origin_name(key_origin(key)), 6) + " "@ + size_text(key)
}

/// The recent creations, newest last, under a heading, or nothing when there are none.
pub open spec fn recent_lines(keys: Seq<u64>) -> Seq<Seq<char>> {
    if keys.len() == 0 {
        Seq::empty()
    } else {
        seq![
            "most recent "@ + decimal(keys.len()) + " texture requests (newest last):"@,
        ] + Seq::new(keys.len(), |i: int| recent_line(keys[i]))
    }
}

/// The whole census report, for the buckets listed in `order` and at most `limit` of them.
pub open spec fn census_report(c: TextureCensus, order: Seq<usize>, limit: int) -> Seq<Seq<char>> {
    let slots = c.slot_table();
    let rows = c.overflow_rows();
    let total_count = sat_add(used_count(slots, TEXTURE_BUCKETS as int), overflow_count(rows));
    let total_bytes = sat_add(used_bytes(slots, TEXTURE_BUCKETS as int), overflow_bytes(rows));
    let shown = if limit < order.len() {
        limit
    } else {
        order.len() as int
    };
    seq![census_header(total_count, total_bytes, order.len())] + live_lines(c.residency())
        + pool_lines(c.pool(TexturePoolKind::General), c.pool(TexturePoolKind::Offscreen))
        + bucket_lines(slots, order, shown) + overflow_lines(rows, 3) + recent_lines(
        recent_keys(c.recent_ring(), c.ring_cursor(), RECENT_TEXTURE_SLOTS as int),
    )
}

/// `a + b`, stopping at `u64::MAX`.
pub open spec fn sat_add(a: int, b: int) -> u64 {
    if a + b > u64::MAX {
        u64::MAX
    } else {
        (a + b) as u64
    }
}

/// The text of every string in a sequence.
pub open spec fn texts(v: Seq<String>) -> Seq<Seq<char>> {
    Seq::new(v.len(), |i: int| v[i]@)
}

fn push_line(out: &mut Vec<String>, line: String)
    ensures
        texts(final(out)@) == texts(old(out)@).push(line@),
{
    let ghost line_text = line@;
    out.push(line);
    assert(texts(out@) =~= texts(old(out)@).push(line_text));
}

fn push_size_text(s: &mut String, key: u64)
    ensures
        final(s)@ == old(s)@ + size_text(key),
{
    assert((key >> 29) & 0x1FFF_FFFF <= 0x1FFF_FFFF && key & 0x1FFF_FFFF <= 0x1FFF_FFFF && (key
        >> 58) & 0xF <= 0xF) by (bit_vector);
    let mut t = decimal_string((key >> 29) & 0x1FFF_FFFF);
    let mut piece = String::new();
    push_right_aligned(&mut piece, t.as_str(), 5);
    piece.append("x");
    t = decimal_string(key & 0x1FFF_FFFF);
    push_left_aligned(&mut piece, t.as_str(), 5);
    piece.append(" x");
    push_decimal(&mut piece, (key >> 58) & 0xF);
    assert(piece@ =~= size_text(key));
    s.append(piece.as_str());
}

fn bucket_text(slot: (u64, u64, u64)) -> (r: String)
    ensures
        r@ == bucket_line(slot),
{
    let mut line = String::new();
    push_right_aligned(&mut line, origin_of_key(slot.0).name(), 6);
    line.append(" ");
    push_size_text(&mut line, slot.0);
    line.append("  ");
    push_right_aligned(&mut line, decimal_string(slot.1).as_str(), 7);
    line.append(" allocs  ");
    push_right_aligned(&mut line, fixed_point_string(slot.2, 1_000_000, 1).as_str(), 9);
    line.append(" MB");
    assert(line@ =~= bucket_line(slot));
    line
}

fn overflow_text(i: usize, row: (u64, u64)) -> (r: String)
    requires
        i < 3,
    ensures
        r@ == overflow_line(i as int, row),
{
    let origin = if i == 0 {
        TextureOrigin::Pool
    } else if i == 1 {
        TextureOrigin::Bitmap
    } else {
        TextureOrigin::GradientAtlas
    };
    let mut line = String::new();
    push_right_aligned(&mut line, origin.name(), 6);
    line.append(" (sizes past the table)  ");
    push_right_aligned(&mut line, decimal_string(row.0).as_str(), 7);
    line.append(" allocs  ");
    push_right_aligned(&mut line, fixed_point_string(row.1, 1_000_000, 1).as_str(), 9);
    line.append(" MB");
    assert(line@ =~= overflow_line(i as int, row));
    line
}

fn recent_text(key: u64) -> (r: String)
    ensures
        r@ == recent_line(key),
{
    let mut line = String::from_str("  ");
    push_right_aligned(&mut line, origin_of_key(key).name(), 6);
    line.append(" ");
    push_size_text(&mut line, key);
    line
}

fn pool_text(name: &str, p: &PoolCensus) -> (r: String)
    requires
        p.requests > 0,
    ensures
        r@ == pool_line(name@, *p),
{
    let mut line = String::from_str("  ");
    line.append(name);
    line.append(" pool: ");
    push_decimal(&mut line, p.reuses);
    line.append("/");
    push_decimal(&mut line, p.requests);
    line.append(" reused (");
    push_percent(&mut line, p.reuses, p.requests);
    line.append("%), ");
    push_decimal(&mut line, p.buckets);
    line.append(" buckets, ");
    push_decimal(&mut line, p.available_entries);
    line.append(" entries / ");
    push_fixed_point(&mut line, p.available_bytes, 1_000_000_000, 2);
    line.append(" GB retained, evicted ");
    push_decimal(&mut line, p.budget_evicted_entries);
    line.append(" for budget / ");
    push_decimal(&mut line, p.age_evicted_entries);
    line.append(" for age");
    assert(line@ =~= pool_line(name@, *p));
    line
}

proof fn lemma_used_sums_grow(slots: Seq<(u64, u64, u64)>, a: int, c: int)
    requires
        0 <= a <= c,
    ensures
        0 <= used_bytes(slots, a) <= used_bytes(slots, c),
        0 <= used_count(slots, a) <= used_count(slots, c),
        used_slots(slots, a) <= used_slots(slots, c),
    decreases c,
{
    if c > a {
        lemma_used_sums_grow(slots, a, c - 1);
    } else if a > 0 {
        lemma_used_sums_grow(slots, a - 1, a - 1);
    }
}

/// Whether the census's totals fit in 64 bits, which the report needs.
pub fn census_totals_fit(census: &TextureCensus) -> (r: bool)
    requires
        census.wf(),
    ensures
        r == census.totals_fit(),
{
    let mut bytes: u128 = 0;
    let mut count: u128 = 0;
    let mut i: usize = 0;
    while i < TEXTURE_BUCKETS
        invariant
            census.wf(),
            i <= TEXTURE_BUCKETS,
            bytes == used_bytes(census.slots@, i as int),
            count == used_count(census.slots@, i as int),
            bytes <= i * u64::MAX,
            count <= i * u64::MAX,
        decreases TEXTURE_BUCKETS - i,
    {
        let (key, n, b) = census.slots[i];
        if key != 0 {
            bytes = bytes + b as u128;
            count = count + n as u128;
        }
        i += 1;
    }
    let rows = &census.overflow;
    let overflow_bytes: u128 = rows[0].1 as u128 + rows[1].1 as u128 + rows[2].1 as u128;
    let overflow_count: u128 = rows[0].0 as u128 + rows[1].0 as u128 + rows[2].0 as u128;
    bytes <= u64::MAX as u128 && count <= u64::MAX as u128 && overflow_bytes <= u64::MAX as u128
        && overflow_count <= u64::MAX as u128
}

fn recent_key_list(census: &TextureCensus) -> (r: Vec<u64>)
    requires
        census.wf(),
    ensures
        r@ == recent_keys(census.recent_ring(), census.ring_cursor(), RECENT_TEXTURE_SLOTS as int),
{
    let start = (census.cursor % (RECENT_TEXTURE_SLOTS as u64)) as usize;
    let mut out: Vec<u64> = Vec::new();
    let mut step: usize = 0;
    while step < RECENT_TEXTURE_SLOTS
        invariant
            census.wf(),
            start == census.cursor % (RECENT_TEXTURE_SLOTS as u64),
            step <= RECENT_TEXTURE_SLOTS,
            out@ == recent_keys(census.recent@, census.cursor, step as int),
        decreases RECENT_TEXTURE_SLOTS - step,
    {
        let index = (start + step) % RECENT_TEXTURE_SLOTS;
        proof {
            assert(index == (census.cursor as int + step) % (RECENT_TEXTURE_SLOTS as int)) by (
            nonlinear_arith)
                requires
                    start == census.cursor % 16,
                    index == (start + step) % 16,
            ;
        }
        let key = census.recent[index];
        if key != 0 {
            out.push(key);
        }
        step += 1;
        assert(out@ =~= recent_keys(census.recent@, census.cursor, step as int));
    }
    out
}

fn header_text(total_count: u64, total_bytes: u64, used: usize) -> (r: String)
    ensures
        r@ == census_header(total_count, total_bytes, used as nat),
{
    let mut line = String::from_str("texture census: ");
    push_decimal(&mut line, total_count);
    line.append(" allocations, ");
    push_fixed_point(&mut line, total_bytes, 1_000_000_000, 1);
    line.append(" GB created in total, ");
    push_decimal(&mut line, used as u64);
    line.append("/");
    push_decimal(&mut line, TEXTURE_BUCKETS as u64);
    line.append(" size buckets used");
    if used >= TEXTURE_BUCKETS {
        line.append(" (table full)");
    }
    assert(line@ =~= census_header(total_count, total_bytes, used as nat));
    line
}

fn push_live_lines(out: &mut Vec<String>, live: &LiveResidency)
    ensures
        texts(final(out)@) == texts(old(out)@) + live_lines(*live),
{
    if live.samples > 0 {
        let mut first = String::from_str("  live at fault: ");
        push_decimal(&mut first, live.textures);
        first.append(" textures, ");
        push_fixed_point(&mut first, live.texture_bytes, 1_000_000_000, 2);
        first.append(" GB resident, ");
        push_decimal(&mut first, live.memory_allocations);
        first.append(" device allocations");
        let mut second = String::from_str("  peak live:     ");
        push_decimal(&mut second, live.peak_textures);
        second.append(" textures, ");
        push_fixed_point(&mut second, live.peak_texture_bytes, 1_000_000_000, 2);
        second.append(" GB resident");
        let ghost a = first@;
        let ghost b = second@;
        push_line(out, first);
        push_line(out, second);
        assert(texts(out@) =~= texts(old(out)@) + live_lines(*live));
    } else {
        assert(texts(out@) =~= texts(old(out)@) + live_lines(*live));
    }
}

/// One line per size bucket, biggest total bytes first and at most `limit` of them, under a
/// header with the totals, the live residency and each pool's session figures, followed by the
/// creations that found the table full and the most recent requests, newest last.
pub fn texture_census_report(census: &TextureCensus, limit: usize) -> (r: Vec<String>)
    requires
        census.wf(),
        census.totals_fit(),
    ensures
        exists|order: Seq<usize>|
            #[trigger] is_census_order(census.slot_table(), order) && texts(r@) == census_report(
                *census,
                order,
                limit as int,
            ),
{
    let order = census_order(&census.slots);
    let ghost slots = census.slots@;
    let mut bytes: u64 = 0;
    let mut count: u64 = 0;
    let mut i: usize = 0;
    while i < TEXTURE_BUCKETS
        invariant
            census.wf(),
            census.totals_fit(),
            slots == census.slots@,
            i <= TEXTURE_BUCKETS,
            bytes == used_bytes(slots, i as int),
            count == used_count(slots, i as int),
        decreases TEXTURE_BUCKETS - i,
    {
        proof {
            lemma_used_sums_grow(slots, i + 1, TEXTURE_BUCKETS as int);
        }
        let (key, n, b) = census.slots[i];
        if key != 0 {
            bytes = bytes + b;
            count = count + n;
        }
        i += 1;
    }
    let rows = &census.overflow;
    let overflow_bytes: u64 = rows[0].1 + rows[1].1 + rows[2].1;
    let overflow_count: u64 = rows[0].0 + rows[1].0 + rows[2].0;
    let total_count = count.saturating_add(overflow_count);
    let total_bytes = bytes.saturating_add(overflow_bytes);
    let mut out: Vec<String> = Vec::new();
    push_line(&mut out, header_text(total_count, total_bytes, order.len()));
    push_live_lines(&mut out, &census.live);
    if census.general.requests > 0 {
        push_line(&mut out, pool_text("general", &census.general));
    }
    if census.offscreen.requests > 0 {
        push_line(&mut out, pool_text("offscreen", &census.offscreen));
    }
    let ghost before_rows = texts(out@);
    assert(before_rows =~= seq![census_header(total_count, total_bytes, order@.len())]
        + live_lines(census.live) + pool_lines(census.general, census.offscreen));
    let shown = if limit < order.len() {
        limit
    } else {
        order.len()
    };
    let mut k: usize = 0;
    while k < shown
        invariant
            census.wf(),
            slots == census.slots@,
            is_census_order(slots, order@),
            shown <= order@.len(),
            k <= shown,
            texts(out@) == before_rows + bucket_lines(slots, order@, k as int),
        decreases shown - k,
    {
        let slot = census.slots[order[k]];
        push_line(&mut out, bucket_text(slot));
        k += 1;
        assert(texts(out@) =~= before_rows + bucket_lines(slots, order@, k as int));
    }
    let ghost before_overflow = texts(out@);
    let mut j: usize = 0;
    while j < 3
        invariant
            census.wf(),
            j <= 3,
            texts(out@) == before_overflow + overflow_lines(census.overflow@, j as int),
        decreases 3 - j,
    {
        let row = census.overflow[j];
        if row.0 > 0 {
            push_line(&mut out, overflow_text(j, row));
        }
        j += 1;
        assert(texts(out@) =~= before_overflow + overflow_lines(census.overflow@, j as int));
    }
    let keys = recent_key_list(census);
    let ghost before_recent = texts(out@);
    if keys.len() > 0 {
        let mut heading = String::from_str("most recent ");
        push_decimal(&mut heading, keys.len() as u64);
        heading.append(" texture requests (newest last):");
        push_line(&mut out, heading);
        let ghost after_heading = texts(out@);
        let mut m: usize = 0;
        while m < keys.len()
            invariant
                m <= keys@.len(),
                texts(out@) == after_heading + Seq::new(m as nat, |x: int| recent_line(keys@[x])),
            decreases keys@.len() - m,
        {
            push_line(&mut out, recent_text(keys[m]));
            m += 1;
            assert(texts(out@) =~= after_heading + Seq::new(
                m as nat,
                |x: int| recent_line(keys@[x]),
            ));
        }
        assert(texts(out@) =~= before_recent + recent_lines(keys@));
    } else {
        assert(texts(out@) =~= before_recent + recent_lines(keys@));
    }
    proof {
        assert(texts(out@) =~= census_report(*census, order@, limit as int));
    }
    out
}

/// Whether bucket `x` is listed before bucket `y`: more bytes first, then table order.
pub open spec fn listed_before(slots: Seq<(u64, u64, u64)>, x: usize, y: usize) -> bool {
    slots[x as int].2 > slots[y as int].2 || (slots[x as int].2 == slots[y as int].2 && x < y)
}

/// Whether every bucket of `s` is listed before every later one.
pub open spec fn strictly_listed(slots: Seq<(u64, u64, u64)>, s: Seq<usize>) -> bool {
    forall|i: int, k: int| 0 <= i < k < s.len() ==> listed_before(slots, #[trigger] s[i], #[trigger] s[k])
}

proof fn lemma_listings_agree(slots: Seq<(u64, u64, u64)>, a: Seq<usize>, b: Seq<usize>)
    requires
        strictly_listed(slots, a),
        strictly_listed(slots, b),
        forall|x: usize| #[trigger] a.contains(x) <==> b.contains(x),
    ensures
        a == b,
    decreases a.len(),
{
    if a.len() == 0 {
        if b.len() > 0 {
            assert(b.contains(b[0]));
            assert(a.contains(b[0]));
        }
        assert(a =~= b);
    } else {
        assert(a.contains(a[0]));
        assert(b.contains(a[0]));
        assert(b.len() > 0);
        assert(b.contains(b[0]));
        assert(a.contains(b[0]));
        let j = choose|j: int| 0 <= j < a.len() && a[j] == b[0];
        let m = choose|m: int| 0 <= m < b.len() && b[m] == a[0];
        if j > 0 && m > 0 {
            assert(listed_before(slots, a[0], a[j]));
            assert(listed_before(slots, b[0], b[m]));
            assert(false);
        }
        assert(a[0] == b[0]);
        let a1 = a.drop_first();
        let b1 = b.drop_first();
        assert forall|x: usize| #[trigger] a1.contains(x) implies b1.contains(x) by {
            let w = choose|w: int| 0 <= w < a1.len() && a1[w] == x;
            assert(a[w + 1] == x);
            assert(listed_before(slots, a[0], a[w + 1]));
            assert(a.contains(x));
            assert(b.contains(x));
            let v = choose|v: int| 0 <= v < b.len() && b[v] == x;
            if v == 0 {
                assert(listed_before(slots, x, x));
            }
            assert(b1[v - 1] == x);
        }
        assert forall|x: usize| #[trigger] b1.contains(x) implies a1.contains(x) by {
            let w = choose|w: int| 0 <= w < b1.len() && b1[w] == x;
            assert(b[w + 1] == x);
            assert(listed_before(slots, b[0], b[w + 1]));
            assert(b.contains(x));
            assert(a.contains(x));
            let v = choose|v: int| 0 <= v < a.len() && a[v] == x;
            if v == 0 {
                assert(listed_before(slots, x, x));
            }
            assert(a1[v - 1] == x);
        }
        assert(strictly_listed(slots, a1));
        assert(strictly_listed(slots, b1));
        lemma_listings_agree(slots, a1, b1);
        assert(a =~= seq![a[0]] + a1);
        assert(b =~= seq![b[0]] + b1);
    }
}

/// There is only one way to order the census: by bytes from the largest down, equal bytes in
/// table order, every used slot once. So the report's rows are pinned down by the table alone.
pub proof fn law_census_order_is_unique(
    slots: Seq<(u64, u64, u64)>,
    a: Seq<usize>,
    b: Seq<usize>,
)
    requires
        is_census_order(slots, a),
        is_census_order(slots, b),
    ensures
        a == b,
{
    assert forall|i: int, k: int| 0 <= i < k < a.len() implies listed_before(
        slots,
        #[trigger] a[i],
        #[trigger] a[k],
    ) by {
        assert(slots[a[i] as int].2 >= slots[a[k] as int].2);
        assert(a[i] != a[k]);
    }
    assert forall|i: int, k: int| 0 <= i < k < b.len() implies listed_before(
        slots,
        #[trigger] b[i],
        #[trigger] b[k],
    ) by {
        assert(slots[b[i] as int].2 >= slots[b[k] as int].2);
        assert(b[i] != b[k]);
    }
    assert forall|x: usize| #[trigger] a.contains(x) implies b.contains(x) by {
        let w = choose|w: int| 0 <= w < a.len() && a[w] == x;
        assert(slots[x as int].0 != 0);
        assert(slots[x as int] == slots[x as int]);
    }
    assert forall|x: usize| #[trigger] b.contains(x) implies a.contains(x) by {
        let w = choose|w: int| 0 <= w < b.len() && b[w] == x;
        assert(slots[x as int].0 != 0);
        assert(slots[x as int] == slots[x as int]);
    }
    lemma_listings_agree(slots, a, b);
}

} // verus!
