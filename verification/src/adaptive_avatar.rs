//! The adaptive avatar cache: an avatar that has rendered several completely clean frames in a
//! row is drawn from an internal bitmap cache, and the first frame that changes anything about it
//! drops that cache again before the frame is drawn.
use vstd::prelude::*;

verus! {

/// Clean frames in a row after which a candidate's internal cache is switched on.
pub const AETHER_ADAPTIVE_AVATAR_CACHE_STABLE_FRAMES: u8 = 3;

/// The adaptive-cache state of one display object: whether it is a candidate, whether its
/// internal cache is on, and how many clean frames in a row it has rendered.
#[derive(Clone, Copy, Debug, PartialEq, Eq, Structural)]
pub struct AdaptiveAvatarCache {
    pub candidate: bool,
    pub active: bool,
    pub clean_frames: u8,
}

/// A frame of the object as the cache sees it.
#[derive(Clone, Copy, Debug, PartialEq, Eq, Structural)]
pub struct AvatarFrame {
    /// Whether the optimisation is switched on at all.
    pub optimization_enabled: bool,
    /// Whether the object carries filters.
    pub has_filters: bool,
    /// Whether the object blends normally.
    pub normal_blend: bool,
    /// Whether the object has an opaque background.
    pub opaque_background: bool,
    /// Whether the movie itself asked for the object to be cached as a bitmap.
    pub bitmap_cached_preference: bool,
    /// The object's scale, rotation or skew differs from the last frame's.
    pub transform_changed: bool,
    /// Something in the object's subtree asked for its cached bitmap to be redrawn.
    pub cache_invalidated: bool,
}

/// Whether the object may use the internal cache at all: the optimisation is on and the object
/// draws plainly, without filters, with a normal blend and no opaque background.
pub open spec fn eligible(frame: AvatarFrame) -> bool {
    frame.optimization_enabled && !frame.has_filters && frame.normal_blend
        && !frame.opaque_background
}

/// Whether a frame leaves the cache usable: the object is eligible and nothing about it changed.
pub open spec fn clean_frame(frame: AvatarFrame) -> bool {
    eligible(frame) && !frame.transform_changed && !frame.cache_invalidated
}

/// Whether a display object has a bitmap cache: the movie asked for one, the internal avatar
/// cache is on, or its filters need one.
pub open spec fn should_cache_spec(preference: bool, active: bool, has_filters: bool) -> bool {
    preference || active || has_filters
}

/// Whether a display object should have a bitmap cache: the movie asked for one, the internal
/// avatar cache is on, or its filters need one. An authored cache therefore outlives the
/// internal one.
pub fn should_cache(preference: bool, active: bool, has_filters: bool) -> (r: bool)
    ensures
        r == should_cache_spec(preference, active, has_filters),
{
    preference || active || has_filters
}

/// The state after a frame, and whether the cache switched on or off.
pub open spec fn avatar_step(s: AdaptiveAvatarCache, frame: AvatarFrame) -> (AdaptiveAvatarCache, bool) {
    if !s.candidate {
        (s, false)
    } else if !clean_frame(frame) {
        (AdaptiveAvatarCache { clean_frames: 0, active: false, ..s }, s.active)
    } else if s.active {
        (s, false)
    } else {
        let clean: int = if s.clean_frames == u8::MAX {
            u8::MAX as int
        } else {
            s.clean_frames + 1
        };
        let now_active = clean >= AETHER_ADAPTIVE_AVATAR_CACHE_STABLE_FRAMES;
        (AdaptiveAvatarCache { clean_frames: clean as u8, active: now_active, ..s }, now_active)
    }
}

/// What the object's bitmap cache must become after a step that switched the internal cache
/// `changed`: `None` when nothing changed, otherwise whether the object should have a cache.
pub open spec fn cache_decision(changed: bool, preference: bool, active: bool, has_filters: bool) -> Option<bool> {
    if changed {
        Some(should_cache_spec(preference, active, has_filters))
    } else {
        None
    }
}

/// The state after `n` clean frames.
pub open spec fn after_clean_frames(s: AdaptiveAvatarCache, frame: AvatarFrame, n: nat) -> AdaptiveAvatarCache
    decreases n,
{
    if n == 0 {
        s
    } else {
        avatar_step(after_clean_frames(s, frame, (n - 1) as nat), frame).0
    }
}

impl AdaptiveAvatarCache {
    /// A display object that is no candidate.
    pub fn new() -> (r: AdaptiveAvatarCache)
        ensures
            r == (AdaptiveAvatarCache { candidate: false, active: false, clean_frames: 0 }),
    {
        AdaptiveAvatarCache { candidate: false, active: false, clean_frames: 0 }
    }

    /// Whether the internal cache is on.
    pub fn is_active(&self) -> (r: bool)
        ensures
            r == self.active,
    {
        self.active
    }

    /// Make the object a candidate, or stop it being one. A change starts the count of clean
    /// frames over and switches the cache off. When the cache had been on, returns whether the
    /// object should still have a bitmap cache, for its authored preference or its filters.
    pub fn set_candidate(&mut self, value: bool, preference: bool, has_filters: bool) -> (r: Option<
        bool,
    >)
        ensures
            old(self).candidate == value ==> *final(self) == *old(self) && r is None,
            old(self).candidate != value ==> *final(self) == (AdaptiveAvatarCache {
                candidate: value,
                active: false,
                clean_frames: 0,
            }) && r == cache_decision(old(self).active, preference, false, has_filters),
    {
        if self.candidate == value {
            return None;
        }
        let was_active = self.active;
        self.active = false;
        self.candidate = value;
        self.clean_frames = 0;
        if was_active {
            Some(should_cache(preference, false, has_filters))
        } else {
            None
        }
    }

    /// Account for one rendered frame, before the frame's invalidation is cleared. When the
    /// internal cache switched on or off, returns whether the object should now have a bitmap
    /// cache at all.
    pub fn update_with_transform(&mut self, frame: AvatarFrame) -> (r: Option<bool>)
        ensures
            *final(self) == avatar_step(*old(self), frame).0,
            r == cache_decision(
                avatar_step(*old(self), frame).1,
                frame.bitmap_cached_preference,
                final(self).active,
                frame.has_filters,
            ),
    {
        if !self.candidate {
            return None;
        }
        let eligible = frame.optimization_enabled && !frame.has_filters && frame.normal_blend
            && !frame.opaque_background;
        let invalidated = frame.transform_changed || frame.cache_invalidated;
        if !eligible || invalidated {
            self.clean_frames = 0;
            if self.active {
                self.active = false;
                return Some(should_cache(frame.bitmap_cached_preference, false, frame.has_filters));
            }
            return None;
        }
        if self.active {
            return None;
        }
        let clean_frames = if self.clean_frames == u8::MAX {
            u8::MAX
        } else {
            self.clean_frames + 1
        };
        self.clean_frames = clean_frames;
        if clean_frames >= AETHER_ADAPTIVE_AVATAR_CACHE_STABLE_FRAMES {
            self.active = true;
            return Some(should_cache(frame.bitmap_cached_preference, true, frame.has_filters));
        }
        None
    }
}

/// A frame that is not clean always leaves the cache off with its count of clean frames at
/// zero, and reports a change exactly when the cache had been on.
pub proof fn law_a_dirty_frame_drops_the_cache(s: AdaptiveAvatarCache, frame: AvatarFrame)
    requires
        s.candidate,
        !clean_frame(frame),
    ensures
        !avatar_step(s, frame).0.active,
        avatar_step(s, frame).0.clean_frames == 0,
        avatar_step(s, frame).1 == s.active,
{
}

/// Switching the internal cache off leaves the object cached exactly when the movie asked for a
/// cache or its filters need one: an authored cache outlives the internal one. Switching it on
/// always leaves the object cached.
pub proof fn law_the_cache_follows_the_switch(s: AdaptiveAvatarCache, frame: AvatarFrame)
    requires
        avatar_step(s, frame).1,
    ensures
        !avatar_step(s, frame).0.active ==> cache_decision(
            true,
            frame.bitmap_cached_preference,
            avatar_step(s, frame).0.active,
            frame.has_filters,
        ) == Some(frame.bitmap_cached_preference || frame.has_filters),
        avatar_step(s, frame).0.active ==> cache_decision(
            true,
            frame.bitmap_cached_preference,
            avatar_step(s, frame).0.active,
            frame.has_filters,
        ) == Some(true),
        avatar_step(s, frame).0.active != s.active,
{
}

/// A candidate whose cache is off and whose count stands at zero switches its cache on after
/// exactly `AETHER_ADAPTIVE_AVATAR_CACHE_STABLE_FRAMES` clean frames, and keeps it on while the
/// frames stay clean.
pub proof fn law_the_cache_waits_for_stable_frames(s: AdaptiveAvatarCache, frame: AvatarFrame, n: nat)
    requires
        s.candidate,
        !s.active,
        s.clean_frames == 0,
        clean_frame(frame),
    ensures
        after_clean_frames(s, frame, n).active <==> n >= AETHER_ADAPTIVE_AVATAR_CACHE_STABLE_FRAMES,
        after_clean_frames(s, frame, n).candidate,
    decreases n,
{
    if n > 0 {
        law_the_cache_waits_for_stable_frames(s, frame, (n - 1) as nat);
        if n <= AETHER_ADAPTIVE_AVATAR_CACHE_STABLE_FRAMES {
            lemma_clean_count(s, frame, (n - 1) as nat);
        }
    }
}

/// Before the cache switches on, each clean frame adds one to the count.
proof fn lemma_clean_count(s: AdaptiveAvatarCache, frame: AvatarFrame, n: nat)
    requires
        s.candidate,
        !s.active,
        s.clean_frames == 0,
        clean_frame(frame),
        n < AETHER_ADAPTIVE_AVATAR_CACHE_STABLE_FRAMES,
    ensures
        after_clean_frames(s, frame, n).clean_frames == n,
        !after_clean_frames(s, frame, n).active,
        after_clean_frames(s, frame, n).candidate,
    decreases n,
{
    if n > 0 {
        lemma_clean_count(s, frame, (n - 1) as nat);
    }
}

} // verus!
