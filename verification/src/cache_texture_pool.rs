//! Reuse of the persistent textures behind `cacheAsBitmap` surfaces.
//!
//! A cache surface is owned by its display object for as long as the object keeps its shape, so
//! it is recycled when its handle is finally dropped: the texture goes back into a bucket of its
//! exact size, and the next request for that size takes the most recently returned one. The idle
//! set is held under a byte cap and an entry cap; when either is passed, textures are evicted from
//! the bucket whose textures are largest first.
//!
//! Recycled textures come back with their previous contents. That is sound only because the one
//! caller clears every surface it takes before drawing into it.
//!
//! The buckets are a list searched by size rather than an `FnvHashMap`. The pool is generic over
//! what it holds (a GPU texture in the renderer, plain values in tests), and what a hash map of
//! such buckets holds could only be described to the verifier through a generic name for its
//! contents, which this crate does not declare. The list keeps each size once and evicts in the
//! same order: largest textures first, the fuller bucket on a tie of sizes.
use vstd::prelude::*;

use crate::backend::{trim_spec, trimmed_bounds};
use crate::switches::RuntimeSwitch;

verus! {

/// How much texture memory may sit idle in the pool.
pub const DEFAULT_MAX_IDLE_BYTES: u64 = 192 * 1024 * 1024;

/// The same, for a card that cannot spare it.
pub const LOW_VRAM_MAX_IDLE_BYTES: u64 = 32 * 1024 * 1024;

/// A hard cap on retained textures, whatever their size.
pub const MAX_IDLE_ENTRIES: usize = 512;

/// How much live texture memory is allowed before new cache surfaces are refused.
pub const DEFAULT_TEXTURE_BUDGET_BYTES: u64 = 2560 * 1024 * 1024;

/// The same, for a card that cannot spare it.
pub const LOW_VRAM_TEXTURE_BUDGET_BYTES: u64 = 1280 * 1024 * 1024;

/// Whether the pool is held to what a small card can afford.
#[derive(Clone, Copy, Debug, Default, PartialEq, Eq, Structural)]
pub struct CachePoolSettings {
    pub low_vram: bool,
}

/// Turn the small-card caps on or off.
pub fn set_low_vram(settings: &mut CachePoolSettings, enabled: bool)
    ensures
        final(settings).low_vram == enabled,
{
    settings.low_vram = enabled;
}

/// Whether cache surfaces are recycled at all: the pool's runtime switch.
pub fn pooling_enabled(switch: &RuntimeSwitch) -> (r: bool)
    ensures
        r == switch.enabled_spec(),
{
    switch.enabled()
}

/// The idle byte cap for the settings.
pub open spec fn max_idle_bytes_spec(settings: CachePoolSettings) -> u64 {
    if settings.low_vram {
        LOW_VRAM_MAX_IDLE_BYTES
    } else {
        DEFAULT_MAX_IDLE_BYTES
    }
}

/// The idle byte cap for the settings.
pub fn max_idle_bytes(settings: &CachePoolSettings) -> (r: u64)
    ensures
        r == max_idle_bytes_spec(*settings),
{
    if settings.low_vram {
        LOW_VRAM_MAX_IDLE_BYTES
    } else {
        DEFAULT_MAX_IDLE_BYTES
    }
}

/// The value of a string of ASCII digits.
pub open spec fn digits_value(s: Seq<char>) -> int
    decreases s.len(),
{
    if s.len() == 0 {
        0
    } else {
        digits_value(s.drop_last()) * 10 + (s.last() as int - '0' as int)
    }
}

/// Whether every character is an ASCII digit.
pub open spec fn all_digits(s: Seq<char>) -> bool {
    forall|i: int| 0 <= i < s.len() ==> '0' <= #[trigger] s[i] <= '9'
}

/// What `str::parse::<u64>` gives: an optional `+` and at least one ASCII digit, with a value
/// that fits.
pub open spec fn parse_u64_spec(s: Seq<char>) -> Option<u64> {
    let digits = if s.len() > 0 && s[0] == '+' {
        s.drop_first()
    } else {
        s
    };
    if digits.len() > 0 && all_digits(digits) && digits_value(digits) <= u64::MAX {
        Some(digits_value(digits) as u64)
    } else {
        None
    }
}

/// The live-texture budget: a pinned figure in whole mebibytes wins (stopping at `u64::MAX`
/// bytes), and otherwise the default for the settings.
pub open spec fn texture_budget_spec(settings: CachePoolSettings, pinned: Option<Seq<char>>) -> u64 {
    match pinned {
        Some(text) if parse_u64_spec(trim_spec(text)) is Some => {
            let mb = parse_u64_spec(trim_spec(text))->0;
            if mb * 1048576 > u64::MAX {
                u64::MAX
            } else {
                (mb * 1048576) as u64
            }
        },
        _ => if settings.low_vram {
            LOW_VRAM_TEXTURE_BUDGET_BYTES
        } else {
            DEFAULT_TEXTURE_BUDGET_BYTES
        },
    }
}

proof fn lemma_digits_value_bounds(s: Seq<char>)
    requires
        all_digits(s),
    ensures
        digits_value(s) >= 0,
    decreases s.len(),
{
    if s.len() > 0 {
        assert(all_digits(s.drop_last()));
        lemma_digits_value_bounds(s.drop_last());
    }
}

/// `text[start..end]` as `str::parse::<u64>` reads it.
fn parse_u64_range(text: &str, start: usize, end: usize) -> (r: Option<u64>)
    requires
        start <= end <= text@.len(),
    ensures
        r == parse_u64_spec(text@.subrange(start as int, end as int)),
{
    let ghost whole = text@.subrange(start as int, end as int);
    let mut i = start;
    if i < end && text.get_char(i) == '+' {
        i += 1;
    }
    let ghost digits = text@.subrange(i as int, end as int);
    proof {
        if whole.len() > 0 && whole[0] == '+' {
            assert(digits =~= whole.drop_first());
        } else {
            assert(digits =~= whole);
        }
    }
    if i == end {
        return None;
    }
    let mut value: u64 = 0;
    let first = i;
    while i < end
        invariant
            start <= first <= i <= end <= text@.len(),
            digits == text@.subrange(first as int, end as int),
            whole == text@.subrange(start as int, end as int),
            digits == (if whole.len() > 0 && whole[0] == '+' {
                whole.drop_first()
            } else {
                whole
            }),
            all_digits(text@.subrange(first as int, i as int)),
            value == digits_value(text@.subrange(first as int, i as int)),
        decreases end - i,
    {
        let c = text.get_char(i);
        if !('0' <= c && c <= '9') {
            assert(digits[i - first] == c);
            return None;
        }
        let d = (c as u32 - '0' as u32) as u64;
        let ghost next = text@.subrange(first as int, i + 1);
        assert(next.drop_last() =~= text@.subrange(first as int, i as int));
        if value > (u64::MAX - d) / 10 {
            proof {
                assert(all_digits(next));
                assert(value * 10 + d > u64::MAX) by (nonlinear_arith)
                    requires
                        value > (u64::MAX - d) / 10,
                        d <= 9,
                ;
                assert(digits.subrange(0, i + 1 - first) =~= next);
                lemma_suffix_grows(digits, (i + 1 - first) as int);
            }
            return None;
        }
        value = value * 10 + d;
        i += 1;
        assert(all_digits(text@.subrange(first as int, i as int)));
    }
    assert(text@.subrange(first as int, i as int) =~= digits);
    Some(value)
}

/// The live-texture budget: a figure pinned in whole mebibytes (the environment's text, trimmed)
/// wins, and otherwise the default for the settings. A pinned zero refuses every fresh surface.
pub fn texture_memory_budget_bytes(settings: &CachePoolSettings, pinned: Option<&str>) -> (r: u64)
    ensures
        r == texture_budget_spec(
            *settings,
            match pinned {
                Some(t) => Some(t@),
                None => None,
            },
        ),
{
    if let Some(text) = pinned {
        let (start, end) = trimmed_bounds(text);
        if let Some(mb) = parse_u64_range(text, start, end) {
            return if mb > u64::MAX / 1048576 {
                u64::MAX
            } else {
                mb * 1048576
            };
        }
    }
    if settings.low_vram {
        LOW_VRAM_TEXTURE_BUDGET_BYTES
    } else {
        DEFAULT_TEXTURE_BUDGET_BYTES
    }
}

/// Once a prefix of digits is past `u64::MAX`, the whole string is: a longer digit string is
/// never worth less.
proof fn lemma_suffix_grows(s: Seq<char>, k: int)
    requires
        0 < k <= s.len(),
        all_digits(s.subrange(0, k)),
        digits_value(s.subrange(0, k)) > u64::MAX,
    ensures
        !(all_digits(s) && digits_value(s) <= u64::MAX),
    decreases s.len() - k,
{
    if k < s.len() && all_digits(s) {
        let p = s.subrange(0, k + 1);
        assert(p.drop_last() =~= s.subrange(0, k));
        assert(all_digits(p));
        assert(digits_value(p) >= digits_value(s.subrange(0, k)) * 10);
        lemma_suffix_grows(s, k + 1);
    } else if k == s.len() {
        assert(s.subrange(0, k) =~= s);
    }
}

/// Bytes one RGBA8 texture of this size occupies, for the caps: stopping at `u64::MAX`.
pub open spec fn texture_bytes_spec(width: u32, height: u32) -> u64 {
    if width * height * 4 > u64::MAX {
        u64::MAX
    } else {
        (width * height * 4) as u64
    }
}

/// Bytes one RGBA8 texture of this size occupies, for the caps.
pub fn texture_bytes(width: u32, height: u32) -> (r: u64)
    ensures
        r == texture_bytes_spec(width, height),
{
    assert(width * height <= u32::MAX * u32::MAX) by (nonlinear_arith)
        requires
            width <= u32::MAX,
            height <= u32::MAX,
    ;
    let area: u64 = width as u64 * height as u64;
    if area > u64::MAX / 4 {
        u64::MAX
    } else {
        area * 4
    }
}

/// The bytes of one texture of a bucket's size.
pub open spec fn key_bytes(key: (u32, u32)) -> u64 {
    texture_bytes_spec(key.0, key.1)
}

/// The idle textures of one size, oldest first; empty when there is no such bucket.
pub open spec fn held<T>(list: Seq<((u32, u32), Seq<T>)>, key: (u32, u32)) -> Seq<T>
    decreases list.len(),
{
    if list.len() == 0 {
        Seq::empty()
    } else if list.last().0 == key {
        list.last().1
    } else {
        held(list.drop_last(), key)
    }
}

/// How many textures the buckets hold.
pub open spec fn count_held<T>(list: Seq<((u32, u32), Seq<T>)>) -> int
    decreases list.len(),
{
    if list.len() == 0 {
        0
    } else {
        count_held(list.drop_last()) + list.last().1.len()
    }
}

/// How many bytes the buckets hold.
pub open spec fn bytes_held<T>(list: Seq<((u32, u32), Seq<T>)>) -> int
    decreases list.len(),
{
    if list.len() == 0 {
        0
    } else {
        bytes_held(list.drop_last()) + key_bytes(list.last().0) * list.last().1.len()
    }
}

/// No two buckets share a size.
pub open spec fn distinct_keys<T>(list: Seq<((u32, u32), Seq<T>)>) -> bool {
    forall|i: int, j: int| 0 <= i < j < list.len() ==> list[i].0 != list[j].0
}

proof fn lemma_held_at<T>(list: Seq<((u32, u32), Seq<T>)>, i: int)
    requires
        distinct_keys(list),
        0 <= i < list.len(),
    ensures
        held(list, list[i].0) == list[i].1,
    decreases list.len(),
{
    if i < list.len() - 1 {
        assert(list.last().0 != list[i].0);
        lemma_held_at(list.drop_last(), i);
    }
}

proof fn lemma_held_absent<T>(list: Seq<((u32, u32), Seq<T>)>, key: (u32, u32))
    requires
        forall|i: int| 0 <= i < list.len() ==> list[i].0 != key,
    ensures
        held(list, key) == Seq::<T>::empty(),
    decreases list.len(),
{
    if list.len() > 0 {
        lemma_held_absent(list.drop_last(), key);
    }
}

proof fn lemma_totals_nonnegative<T>(list: Seq<((u32, u32), Seq<T>)>)
    ensures
        count_held(list) >= 0,
        bytes_held(list) >= 0,
    decreases list.len(),
{
    if list.len() > 0 {
        lemma_totals_nonnegative(list.drop_last());
        assert(key_bytes(list.last().0) * list.last().1.len() >= 0) by (nonlinear_arith);
    }
}

proof fn lemma_update_bucket<T>(list: Seq<((u32, u32), Seq<T>)>, i: int, s: Seq<T>)
    requires
        distinct_keys(list),
        0 <= i < list.len(),
    ensures
        distinct_keys(list.update(i, (list[i].0, s))),
        forall|k: (u32, u32)|
            #[trigger] held(list.update(i, (list[i].0, s)), k) == if k == list[i].0 {
                s
            } else {
                held(list, k)
            },
        count_held(list.update(i, (list[i].0, s))) == count_held(list) - list[i].1.len() + s.len(),
        bytes_held(list.update(i, (list[i].0, s))) == bytes_held(list) - key_bytes(list[i].0)
            * list[i].1.len() + key_bytes(list[i].0) * s.len(),
    decreases list.len(),
{
    let updated = list.update(i, (list[i].0, s));
    if i == list.len() - 1 {
        assert(updated.drop_last() =~= list.drop_last());
        assert forall|k: (u32, u32)| #[trigger] held(updated, k) == if k == list[i].0 {
            s
        } else {
            held(list, k)
        } by {}
    } else {
        lemma_update_bucket(list.drop_last(), i, s);
        assert(updated.drop_last() =~= list.drop_last().update(i, (list[i].0, s)));
        assert(updated.last() == list.last());
        assert forall|k: (u32, u32)| #[trigger] held(updated, k) == if k == list[i].0 {
            s
        } else {
            held(list, k)
        } by {
            let shorter = list.drop_last().update(i, (list[i].0, s));
            assert(held(shorter, k) == if k == list[i].0 {
                s
            } else {
                held(list.drop_last(), k)
            });
            if k == list.last().0 {
                assert(list.last().0 != list[i].0);
            } else {
                assert(held(updated, k) == held(shorter, k));
            }
        }
    }
}

proof fn lemma_remove_empty_bucket<T>(list: Seq<((u32, u32), Seq<T>)>, i: int)
    requires
        distinct_keys(list),
        0 <= i < list.len(),
        list[i].1.len() == 0,
    ensures
        distinct_keys(list.remove(i)),
        forall|k: (u32, u32)| #[trigger] held(list.remove(i), k) == held(list, k),
        count_held(list.remove(i)) == count_held(list),
        bytes_held(list.remove(i)) == bytes_held(list),
    decreases list.len(),
{
    let removed = list.remove(i);
    if i == list.len() - 1 {
        assert(removed =~= list.drop_last());
        assert forall|k: (u32, u32)| #[trigger] held(removed, k) == held(list, k) by {
            if k == list[i].0 {
                assert forall|j: int| 0 <= j < removed.len() implies removed[j].0 != k by {
                    assert(list[j].0 != list[i].0);
                }
                lemma_held_absent(removed, k);
            }
        }
        assert(key_bytes(list[i].0) * list[i].1.len() == 0);
    } else {
        lemma_remove_empty_bucket(list.drop_last(), i);
        assert(removed.drop_last() =~= list.drop_last().remove(i));
        assert(removed.last() == list.last());
        assert forall|k: (u32, u32)| #[trigger] held(removed, k) == held(list, k) by {
            let shorter = list.drop_last().remove(i);
            assert(held(shorter, k) == held(list.drop_last(), k));
            if k != list.last().0 {
                assert(held(removed, k) == held(shorter, k));
            }
        }
        assert forall|a: int, b: int| 0 <= a < b < removed.len() implies removed[a].0
            != removed[b].0 by {
            let a0 = if a < i {
                a
            } else {
                a + 1
            };
            let b0 = if b < i {
                b
            } else {
                b + 1
            };
            assert(removed[a] == list[a0]);
            assert(removed[b] == list[b0]);
        }
    }
}

proof fn lemma_push_bucket<T>(list: Seq<((u32, u32), Seq<T>)>, key: (u32, u32), s: Seq<T>)
    requires
        distinct_keys(list),
        forall|i: int| 0 <= i < list.len() ==> list[i].0 != key,
    ensures
        distinct_keys(list.push((key, s))),
        forall|k: (u32, u32)| #[trigger] held(list.push((key, s)), k) == if k == key {
            s
        } else {
            held(list, k)
        },
        count_held(list.push((key, s))) == count_held(list) + s.len(),
        bytes_held(list.push((key, s))) == bytes_held(list) + key_bytes(key) * s.len(),
{
    assert(list.push((key, s)).drop_last() =~= list);
}

proof fn lemma_all_empty_holds_nothing<T>(list: Seq<((u32, u32), Seq<T>)>)
    requires
        forall|i: int| 0 <= i < list.len() ==> list[i].1.len() == 0,
    ensures
        count_held(list) == 0,
        bytes_held(list) == 0,
    decreases list.len(),
{
    if list.len() > 0 {
        lemma_all_empty_holds_nothing(list.drop_last());
    }
}

/// A counter after `n` more counts, wrapping at `u64::MAX`.
pub open spec fn counted(start: u64, n: int) -> u64 {
    ((start + n) % 0x1_0000_0000_0000_0000) as u64
}

proof fn lemma_counted_step(start: u64, n: int)
    requires
        n >= 0,
    ensures
        counted(start, n).wrapping_add(1) == counted(start, n + 1),
{
    let m: int = 0x1_0000_0000_0000_0000;
    let w = (start + n) % m;
    assert(0 <= w < m) by (nonlinear_arith)
        requires
            m > 0,
            w == (start + n) % m,
    ;
    vstd::arithmetic::div_mod::lemma_add_mod_noop(start + n, 1, m);
    assert(1int % m == 1);
    assert(w % m == w) by {
        vstd::arithmetic::div_mod::lemma_small_mod(w as nat, m as nat);
    }
    if w + 1 == m {
        assert((w + 1) % m == 0) by {
            vstd::arithmetic::div_mod::lemma_mod_self_0(m);
        }
    } else {
        vstd::arithmetic::div_mod::lemma_small_mod((w + 1) as nat, m as nat);
    }
}

/// Reuses, misses and refusals or evictions since the last call, with what is currently held.
#[derive(Clone, Copy, Debug, Default, Eq, PartialEq, Structural)]
pub struct CacheTexturePoolStats {
    pub hits: u64,
    pub misses: u64,
    pub dropped: u64,
    pub idle_entries: u64,
    pub idle_bytes: u64,
}

/// A recycler for cache textures, bucketed by exact size.
pub struct CacheTexturePool<T> {
    buckets: Vec<((u32, u32), Vec<T>)>,
    entries: usize,
    bytes: u64,
    max_bytes: u64,
    hits: u64,
    misses: u64,
    dropped: u64,
}

/// The bucket holding textures of size `key`, if there is one.
fn find_bucket<T>(buckets: &Vec<((u32, u32), Vec<T>)>, key: (u32, u32)) -> (r: Option<usize>)
    ensures
        match r {
            Some(i) => i < buckets@.len() && buckets@[i as int].0 == key,
            None => forall|i: int| 0 <= i < buckets@.len() ==> buckets@[i].0 != key,
        },
{
    let mut i: usize = 0;
    while i < buckets.len()
        invariant
            i <= buckets@.len(),
            forall|j: int| 0 <= j < i ==> buckets@[j].0 != key,
        decreases buckets@.len() - i,
    {
        let candidate = buckets[i].0;
        if candidate.0 == key.0 && candidate.1 == key.1 {
            return Some(i);
        }
        i += 1;
    }
    None
}

impl<T> CacheTexturePool<T> {
    /// The buckets as (size, textures oldest first).
    pub closed spec fn buckets_view(&self) -> Seq<((u32, u32), Seq<T>)> {
        self.buckets@.map_values(|b: ((u32, u32), Vec<T>)| (b.0, b.1@))
    }

    /// The idle textures of one size, oldest first.
    pub open spec fn idle(&self, key: (u32, u32)) -> Seq<T> {
        held(self.buckets_view(), key)
    }

    /// How many textures the pool says it holds.
    pub closed spec fn idle_entries(&self) -> nat {
        self.entries as nat
    }

    /// How many bytes the pool says it holds.
    pub closed spec fn idle_bytes(&self) -> nat {
        self.bytes as nat
    }

    /// The idle byte cap last applied.
    pub closed spec fn byte_cap(&self) -> u64 {
        self.max_bytes
    }

    /// Reuses since the stats were last taken.
    pub closed spec fn hit_count(&self) -> u64 {
        self.hits
    }

    /// Misses since the stats were last taken.
    pub closed spec fn miss_count(&self) -> u64 {
        self.misses
    }

    /// Textures refused or evicted since the stats were last taken.
    pub closed spec fn dropped_count(&self) -> u64 {
        self.dropped
    }

    /// The counters agree with the buckets, and no two buckets share a size.
    pub closed spec fn consistent(&self) -> bool {
        &&& distinct_keys(self.buckets_view())
        &&& self.entries == count_held(self.buckets_view())
        &&& self.bytes == bytes_held(self.buckets_view())
    }

    /// Consistent, within the entry cap, and never holding more than the larger byte cap.
    pub closed spec fn wf(&self) -> bool {
        &&& self.consistent()
        &&& self.entries <= MAX_IDLE_ENTRIES
        &&& self.bytes <= DEFAULT_MAX_IDLE_BYTES
        &&& self.max_bytes <= DEFAULT_MAX_IDLE_BYTES
    }

    /// An empty pool with the idle cap for the settings.
    pub fn new(settings: &CachePoolSettings) -> (r: Self)
        ensures
            r.wf(),
            forall|k: (u32, u32)| #[trigger] r.idle(k) == Seq::<T>::empty(),
            r.idle_entries() == 0,
            r.idle_bytes() == 0,
            r.byte_cap() == max_idle_bytes_spec(*settings),
            r.hit_count() == 0,
            r.miss_count() == 0,
            r.dropped_count() == 0,
    {
        let r = CacheTexturePool {
            buckets: Vec::new(),
            entries: 0,
            bytes: 0,
            max_bytes: max_idle_bytes(settings),
            hits: 0,
            misses: 0,
            dropped: 0,
        };
        assert(r.buckets_view() =~= Seq::<((u32, u32), Seq<T>)>::empty());
        r
    }

    /// A texture of exactly this size, the one most recently given back, if one is idle. Counts
    /// a reuse or a miss; with pooling off, nothing is taken and nothing counted.
    pub fn take(&mut self, pooling: bool, width: u32, height: u32) -> (r: Option<T>)
        requires
            old(self).wf(),
        ensures
            final(self).wf(),
            final(self).byte_cap() == old(self).byte_cap(),
            final(self).dropped_count() == old(self).dropped_count(),
            !pooling ==> {
                &&& r is None
                &&& forall|k: (u32, u32)| #[trigger] final(self).idle(k) == old(self).idle(k)
                &&& final(self).hit_count() == old(self).hit_count()
                &&& final(self).miss_count() == old(self).miss_count()
            },
            pooling && old(self).idle((width, height)).len() > 0 ==> {
                &&& r == Some(old(self).idle((width, height)).last())
                &&& forall|k: (u32, u32)| #[trigger] final(self).idle(k) == if k == (width, height) {
                    old(self).idle(k).drop_last()
                } else {
                    old(self).idle(k)
                }
                &&& final(self).hit_count() == old(self).hit_count().wrapping_add(1)
                &&& final(self).miss_count() == old(self).miss_count()
            },
            pooling && old(self).idle((width, height)).len() == 0 ==> {
                &&& r is None
                &&& forall|k: (u32, u32)| #[trigger] final(self).idle(k) == old(self).idle(k)
                &&& final(self).hit_count() == old(self).hit_count()
                &&& final(self).miss_count() == old(self).miss_count().wrapping_add(1)
            },
    {
        if !pooling {
            return None;
        }
        let key = (width, height);
        let ghost view0 = self.buckets_view();
        match find_bucket(&self.buckets, key) {
            Some(i) => {
                proof {
                    lemma_held_at(view0, i as int);
                }
                let ghost s = view0[i as int].1;
                let taken = self.buckets[i].1.pop();
                match taken {
                    Some(texture) => {
                        proof {
                            assert(self.buckets_view() =~= view0.update(
                                i as int,
                                (key, s.drop_last()),
                            ));
                            lemma_update_bucket(view0, i as int, s.drop_last());
                            lemma_totals_nonnegative(self.buckets_view());
                            assert(key_bytes(key) * s.len() - key_bytes(key) * (s.len() - 1)
                                == key_bytes(key)) by (nonlinear_arith);
                        }
                        self.entries = self.entries - 1;
                        self.bytes = self.bytes - texture_bytes(width, height);
                        self.hits = self.hits.wrapping_add(1);
                        Some(texture)
                    },
                    None => {
                        assert(self.buckets_view() =~= view0);
                        self.misses = self.misses.wrapping_add(1);
                        None
                    },
                }
            },
            None => {
                proof {
                    assert forall|j: int| 0 <= j < view0.len() implies view0[j].0 != key by {}
                    lemma_held_absent(view0, key);
                }
                self.misses = self.misses.wrapping_add(1);
                None
            },
        }
    }

    /// Reuses, misses and drops since the last call, with what is currently held; the three
    /// counts start again from zero.
    pub fn take_stats(&mut self) -> (r: CacheTexturePoolStats)
        requires
            old(self).wf(),
        ensures
            final(self).wf(),
            r == (CacheTexturePoolStats {
                hits: old(self).hit_count(),
                misses: old(self).miss_count(),
                dropped: old(self).dropped_count(),
                idle_entries: old(self).idle_entries() as u64,
                idle_bytes: old(self).idle_bytes() as u64,
            }),
            forall|k: (u32, u32)| #[trigger] final(self).idle(k) == old(self).idle(k),
            final(self).idle_entries() == old(self).idle_entries(),
            final(self).idle_bytes() == old(self).idle_bytes(),
            final(self).byte_cap() == old(self).byte_cap(),
            final(self).hit_count() == 0,
            final(self).miss_count() == 0,
            final(self).dropped_count() == 0,
    {
        let stats = CacheTexturePoolStats {
            hits: self.hits,
            misses: self.misses,
            dropped: self.dropped,
            idle_entries: self.entries as u64,
            idle_bytes: self.bytes,
        };
        self.hits = 0;
        self.misses = 0;
        self.dropped = 0;
        stats
    }
}

/// The buckets after a texture of size `key` is given back: it joins its size's bucket as the
/// newest, or starts a new bucket.
pub open spec fn with_returned<T>(list: Seq<((u32, u32), Seq<T>)>, key: (u32, u32), texture: T) -> Seq<
    ((u32, u32), Seq<T>),
> {
    if exists|i: int| 0 <= i < list.len() && list[i].0 == key {
        let i = choose|i: int| 0 <= i < list.len() && list[i].0 == key;
        list.update(i, (key, list[i].1.push(texture)))
    } else {
        list.push((key, seq![texture]))
    }
}

/// Whether eviction stopped as soon as it could: when anything was evicted, putting back the
/// last texture evicted would pass a cap again.
pub open spec fn stopped_at_the_caps<T>(
    before: Seq<((u32, u32), Seq<T>)>,
    now: Seq<((u32, u32), Seq<T>)>,
    bytes: int,
    entries: int,
    cap: u64,
) -> bool {
    count_held(now) < count_held(before) ==> exists|k: (u32, u32)|
        #![trigger held(now, k)]
        held(now, k).len() < held(before, k).len() && (bytes + key_bytes(k) > cap || entries + 1
            > MAX_IDLE_ENTRIES)
}

/// Whether every bucket left empty in `now` was already empty in `before`: a bucket that
/// eviction emptied is removed, not kept.
pub open spec fn emptied_buckets_gone<T>(
    before: Seq<((u32, u32), Seq<T>)>,
    now: Seq<((u32, u32), Seq<T>)>,
) -> bool {
    forall|i: int|
        0 <= i < now.len() && (#[trigger] now[i]).1.len() == 0 ==> held(before, now[i].0).len()
            == 0
}

/// Whether `now` keeps a prefix of every bucket of `before`: textures only ever leave from the
/// newest end.
pub open spec fn kept_prefixes<T>(
    before: Seq<((u32, u32), Seq<T>)>,
    now: Seq<((u32, u32), Seq<T>)>,
) -> bool {
    forall|k: (u32, u32)|
        #![trigger held(now, k)]
        held(now, k).len() <= held(before, k).len() && held(now, k) == held(before, k).subrange(
            0,
            held(now, k).len() as int,
        )
}

/// Whether evictions went to the largest textures first: no size that lost a texture is smaller
/// than a size that still holds one.
pub open spec fn largest_went_first<T>(
    before: Seq<((u32, u32), Seq<T>)>,
    now: Seq<((u32, u32), Seq<T>)>,
) -> bool {
    forall|lost: (u32, u32), kept: (u32, u32)|
        #![trigger held(now, lost), held(now, kept)]
        held(now, lost).len() < held(before, lost).len() && held(now, kept).len() > 0
            ==> key_bytes(kept) <= key_bytes(lost)
}

impl<T> CacheTexturePool<T> {
    /// Evict idle textures until the pool is back inside its caps, largest textures first.
    fn trim(&mut self)
        requires
            old(self).consistent(),
            old(self).entries <= MAX_IDLE_ENTRIES + 1,
            old(self).bytes <= 2 * DEFAULT_MAX_IDLE_BYTES,
            old(self).max_bytes <= DEFAULT_MAX_IDLE_BYTES,
        ensures
            final(self).wf(),
            final(self).bytes <= final(self).max_bytes,
            final(self).max_bytes == old(self).max_bytes,
            final(self).hits == old(self).hits,
            final(self).misses == old(self).misses,
            kept_prefixes(old(self).buckets_view(), final(self).buckets_view()),
            largest_went_first(old(self).buckets_view(), final(self).buckets_view()),
            emptied_buckets_gone(old(self).buckets_view(), final(self).buckets_view()),
            final(self).dropped == counted(
                old(self).dropped,
                count_held(old(self).buckets_view()) - count_held(final(self).buckets_view()),
            ),
            stopped_at_the_caps(
                old(self).buckets_view(),
                final(self).buckets_view(),
                final(self).bytes as int,
                final(self).entries as int,
                final(self).max_bytes,
            ),
    {
        let ghost start = self.buckets_view();
        let ghost d0 = self.dropped;
        let ghost mut last_key: (u32, u32) = (0, 0);
        proof {
            assert forall|k: (u32, u32)| #![trigger held(start, k)]
                held(start, k) == held(start, k).subrange(0, held(start, k).len() as int) by {
                assert(held(start, k) =~= held(start, k).subrange(0, held(start, k).len() as int));
            }
            assert forall|i: int|
                0 <= i < start.len() && (#[trigger] start[i]).1.len() == 0 implies held(
                start,
                start[i].0,
            ).len() == 0 by {
                lemma_held_at(start, i);
            }
            assert((d0 as int) % 0x1_0000_0000_0000_0000int == d0) by {
                vstd::arithmetic::div_mod::lemma_small_mod(d0 as nat, 0x1_0000_0000_0000_0000nat);
            }
        }
        while self.bytes > self.max_bytes || self.entries > MAX_IDLE_ENTRIES
            invariant
                self.consistent(),
                self.max_bytes == old(self).max_bytes,
                self.max_bytes <= DEFAULT_MAX_IDLE_BYTES,
                self.hits == old(self).hits,
                self.misses == old(self).misses,
                start == old(self).buckets_view(),
                d0 == old(self).dropped,
                self.entries <= MAX_IDLE_ENTRIES + 1,
                self.bytes <= 2 * DEFAULT_MAX_IDLE_BYTES,
                count_held(self.buckets_view()) <= count_held(start),
                kept_prefixes(start, self.buckets_view()),
                largest_went_first(start, self.buckets_view()),
                emptied_buckets_gone(start, self.buckets_view()),
                self.dropped == counted(d0, count_held(start) - count_held(self.buckets_view())),
                count_held(self.buckets_view()) < count_held(start) ==> held(
                    self.buckets_view(),
                    last_key,
                ).len() < held(start, last_key).len() && (self.bytes + key_bytes(last_key)
                    > self.max_bytes || self.entries + 1 > MAX_IDLE_ENTRIES),
            decreases self.entries,
        {
            let ghost view0 = self.buckets_view();
            let mut best: Option<usize> = None;
            let mut i: usize = 0;
            while i < self.buckets.len()
                invariant
                    i <= self.buckets@.len(),
                    view0 == self.buckets_view(),
                    view0.len() == self.buckets@.len(),
                    match best {
                        Some(b) => b < self.buckets@.len() && view0[b as int].1.len() > 0 && forall|
                            j: int,
                        |
                            0 <= j < i && view0[j].1.len() > 0 ==> key_bytes(view0[j].0)
                                <= key_bytes(view0[b as int].0),
                        None => forall|j: int| 0 <= j < i ==> view0[j].1.len() == 0,
                    },
                decreases self.buckets@.len() - i,
            {
                let len = self.buckets[i].1.len();
                if len > 0 {
                    let key = self.buckets[i].0;
                    let size = texture_bytes(key.0, key.1);
                    let better = match best {
                        None => true,
                        Some(b) => {
                            let best_key = self.buckets[b].0;
                            let best_size = texture_bytes(best_key.0, best_key.1);
                            size > best_size || (size == best_size && len >= self.buckets[b].1.len())
                        },
                    };
                    if better {
                        best = Some(i);
                    }
                }
                i += 1;
            }
            match best {
                None => {
                    proof {
                        lemma_all_empty_holds_nothing(view0);
                    }
                    self.entries = 0;
                    self.bytes = 0;
                    return;
                },
                Some(b) => {
                    let key = self.buckets[b].0;
                    proof {
                        lemma_held_at(view0, b as int);
                    }
                    let ghost s = view0[b as int].1;
                    let _evicted = self.buckets[b].1.pop();
                    let ghost view1 = view0.update(b as int, (key, s.drop_last()));
                    proof {
                        assert(self.buckets_view() =~= view1);
                        lemma_update_bucket(view0, b as int, s.drop_last());
                        lemma_totals_nonnegative(view1);
                        assert(key_bytes(key) * s.len() - key_bytes(key) * (s.len() - 1)
                            == key_bytes(key)) by (nonlinear_arith);
                        lemma_counted_step(d0, count_held(start) - count_held(view0));
                        assert forall|k: (u32, u32)| #![trigger held(view1, k)]
                            held(view1, k).len() <= held(start, k).len() && held(view1, k) == held(
                                start,
                                k,
                            ).subrange(0, held(view1, k).len() as int) by {
                            assert(held(view0, k).len() <= held(start, k).len());
                            assert(held(view0, k) == held(start, k).subrange(
                                0,
                                held(view0, k).len() as int,
                            ));
                            if k == key {
                                assert(held(view1, k) =~= held(start, k).subrange(
                                    0,
                                    held(view1, k).len() as int,
                                ));
                            }
                        }
                        assert forall|lost: (u32, u32), kept: (u32, u32)|
                            #![trigger held(view1, lost), held(view1, kept)]
                            held(view1, lost).len() < held(start, lost).len() && held(
                                view1,
                                kept,
                            ).len() > 0 implies key_bytes(kept) <= key_bytes(lost) by {
                            assert(held(view0, kept).len() > 0);
                            assert(held(view0, lost).len() >= held(view1, lost).len());
                            if lost == key {
                                if kept != key {
                                    if forall|w: int| 0 <= w < view0.len() ==> view0[w].0 != kept {
                                        lemma_held_absent(view0, kept);
                                    }
                                    let w = choose|w: int|
                                        0 <= w < view0.len() && view0[w].0 == kept;
                                    lemma_held_at(view0, w);
                                }
                            } else if held(view0, lost).len() == held(start, lost).len() {
                                assert(held(view1, lost) == held(view0, lost));
                            } else {
                                assert(held(view0, lost).len() < held(start, lost).len());
                            }
                        }
                    }
                    self.entries = self.entries - 1;
                    self.bytes = self.bytes - texture_bytes(key.0, key.1);
                    self.dropped = self.dropped.wrapping_add(1);
                    proof {
                        last_key = key;
                    }
                    if self.buckets[b].1.len() == 0 {
                        self.buckets.remove(b);
                        proof {
                            assert(self.buckets_view() =~= view1.remove(b as int));
                            lemma_remove_empty_bucket(view1, b as int);
                            let now = self.buckets_view();
                            assert forall|i: int|
                                0 <= i < now.len() && (#[trigger] now[i]).1.len() == 0 implies held(
                                start,
                                now[i].0,
                            ).len() == 0 by {
                                let j = if i < b {
                                    i
                                } else {
                                    i + 1
                                };
                                assert(now[i] == view0[j]);
                            }
                        }
                    } else {
                        proof {
                            let now = self.buckets_view();
                            assert forall|i: int|
                                0 <= i < now.len() && (#[trigger] now[i]).1.len() == 0 implies held(
                                start,
                                now[i].0,
                            ).len() == 0 by {
                                assert(now[i] == view0[i]);
                            }
                        }
                    }
                },
            }
        }
        proof {
            if count_held(self.buckets_view()) < count_held(start) {
                assert(held(self.buckets_view(), last_key).len() < held(start, last_key).len());
            }
        }
    }

    /// How many sizes have a bucket.
    pub fn bucket_count(&self) -> (r: usize)
        ensures
            r == self.buckets_view().len(),
    {
        self.buckets.len()
    }

    /// Offer a texture of `width` x `height` back once its owner has let go of it. With pooling
    /// off it is simply dropped. The idle cap is refreshed from the settings first; a texture
    /// larger than the whole cap is refused and counted as dropped. Otherwise it joins its size's
    /// bucket as the newest, and textures are evicted, largest first, until the pool is back
    /// inside its caps.
    pub fn give_back(
        &mut self,
        pooling: bool,
        settings: &CachePoolSettings,
        texture: T,
        width: u32,
        height: u32,
    )
        requires
            old(self).wf(),
        ensures
            final(self).wf(),
            final(self).hit_count() == old(self).hit_count(),
            final(self).miss_count() == old(self).miss_count(),
            !pooling ==> {
                &&& forall|k: (u32, u32)| #[trigger] final(self).idle(k) == old(self).idle(k)
                &&& final(self).byte_cap() == old(self).byte_cap()
                &&& final(self).dropped_count() == old(self).dropped_count()
            },
            pooling ==> final(self).byte_cap() == max_idle_bytes_spec(*settings),
            pooling && texture_bytes_spec(width, height) > max_idle_bytes_spec(*settings) ==> {
                &&& forall|k: (u32, u32)| #[trigger] final(self).idle(k) == old(self).idle(k)
                &&& final(self).dropped_count() == old(self).dropped_count().wrapping_add(1)
            },
            pooling && texture_bytes_spec(width, height) <= max_idle_bytes_spec(*settings) ==> {
                let joined = with_returned(old(self).buckets_view(), (width, height), texture);
                &&& final(self).idle_bytes() <= final(self).byte_cap()
                &&& kept_prefixes(joined, final(self).buckets_view())
                &&& largest_went_first(joined, final(self).buckets_view())
                &&& emptied_buckets_gone(joined, final(self).buckets_view())
                &&& final(self).dropped_count() == counted(
                    old(self).dropped_count(),
                    count_held(joined) - count_held(final(self).buckets_view()),
                )
                &&& stopped_at_the_caps(
                    joined,
                    final(self).buckets_view(),
                    final(self).idle_bytes() as int,
                    final(self).idle_entries() as int,
                    final(self).byte_cap(),
                )
            },
    {
        if !pooling {
            return;
        }
        let bytes = texture_bytes(width, height);
        self.max_bytes = max_idle_bytes(settings);
        if bytes > self.max_bytes {
            self.dropped = self.dropped.wrapping_add(1);
            return;
        }
        let key = (width, height);
        let ghost view0 = self.buckets_view();
        match find_bucket(&self.buckets, key) {
            Some(i) => {
                proof {
                    lemma_held_at(view0, i as int);
                    let c = choose|c: int| 0 <= c < view0.len() && view0[c].0 == key;
                    assert(view0[i as int].0 == key);
                    if c != i {
                        assert(view0[c].0 != view0[i as int].0);
                    }
                }
                let ghost s = view0[i as int].1;
                self.buckets[i].1.push(texture);
                proof {
                    assert(self.buckets_view() =~= view0.update(i as int, (key, s.push(texture))));
                    lemma_update_bucket(view0, i as int, s.push(texture));
                    assert(s.push(texture).len() == s.len() + 1);
                    assert(key_bytes(key) * (s.len() + 1) - key_bytes(key) * s.len()
                        == key_bytes(key)) by (nonlinear_arith);
                }
            },
            None => {
                let mut fresh: Vec<T> = Vec::new();
                fresh.push(texture);
                self.buckets.push((key, fresh));
                proof {
                    assert forall|j: int| 0 <= j < view0.len() implies view0[j].0 != key by {}
                    lemma_held_absent(view0, key);
                    assert(self.buckets_view() =~= view0.push((key, seq![texture])));
                    lemma_push_bucket(view0, key, seq![texture]);
                    assert(seq![texture].len() == 1);
                }
            },
        }
        proof {
            assert(self.buckets_view() == with_returned(view0, key, texture));
            assert(count_held(self.buckets_view()) == count_held(view0) + 1);
            assert(bytes_held(self.buckets_view()) == bytes_held(view0) + bytes);
            assert(distinct_keys(self.buckets_view()));
        }
        self.entries = self.entries + 1;
        self.bytes = self.bytes + bytes;
        self.trim();
    }
}

} // verus!
