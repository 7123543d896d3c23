use vstd::prelude::*;

pub mod adaptive_avatar;
pub mod allocator_report;
pub mod atlas;
pub mod backend;
pub mod bitmap_cache;
pub mod cache_texture_pool;
pub mod content_grouping;
pub mod blend_region;
pub mod device_status;
pub mod gpu_timeline;
pub mod hal_counters;
pub mod metrics;
pub mod orphan_manager;
pub mod sound_transform;
pub mod switches;
pub mod tags;
pub mod text;
pub mod texture_census;
pub mod texture_size;

verus! {

} // verus!
