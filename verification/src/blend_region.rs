//! Where a blend or mask sub-target has to live within its parent surface.
use vstd::prelude::*;

verus! {

/// A sub-target's placement within its parent surface, in device pixels.
#[derive(Clone, Copy, Debug, Eq, PartialEq, Structural)]
pub struct BlendRegion {
    /// Offset of this target's top-left within the parent surface.
    pub x: u32,
    pub y: u32,
    pub width: u32,
    pub height: u32,
}

/// `v` rounded down to the grid that starts at `floor`; values below `floor` snap to it.
pub open spec fn snap_down_spec(v: int, floor: int, grid: int) -> int {
    let offset: int = if v > floor { v - floor } else { 0 };
    floor + offset / grid * grid
}

/// `v` rounded up to the grid that starts at `floor`; values below `floor` snap to it.
pub open spec fn snap_up_spec(v: int, floor: int, grid: int) -> int {
    let offset: int = if v > floor { v - floor } else { 0 };
    floor + (offset + grid - 1) / grid * grid
}

pub open spec fn min_int(a: int, b: int) -> int {
    if a < b {
        a
    } else {
        b
    }
}

/// The grid actually used: zero means a grid of one pixel.
pub open spec fn effective_grid(grid: u32) -> int {
    if grid == 0 {
        1
    } else {
        grid as int
    }
}

/// Whether quantising `region` inside the given parent stays within `u32`.
pub open spec fn quantise_fits(
    region: BlendRegion,
    parent_origin: (u32, u32),
    parent_width: u32,
    parent_height: u32,
    grid: u32,
) -> bool {
    let g = effective_grid(grid);
    &&& region.x + region.width <= u32::MAX
    &&& region.y + region.height <= u32::MAX
    &&& parent_origin.0 + parent_width <= u32::MAX
    &&& parent_origin.1 + parent_height <= u32::MAX
    &&& snap_up_spec((region.x + region.width) as int, parent_origin.0 as int, g) <= u32::MAX
    &&& snap_up_spec((region.y + region.height) as int, parent_origin.1 as int, g) <= u32::MAX
}

/// The region snapped out to the grid anchored at the parent's corner, then clamped back into
/// the parent; never narrower or shorter than one pixel.
pub open spec fn quantise_region_spec(
    region: BlendRegion,
    parent_origin: (u32, u32),
    parent_width: u32,
    parent_height: u32,
    grid: u32,
) -> BlendRegion {
    let g = effective_grid(grid);
    let (ox, oy) = (parent_origin.0 as int, parent_origin.1 as int);
    let left = snap_down_spec(region.x as int, ox, g);
    let top = snap_down_spec(region.y as int, oy, g);
    let right = min_int(
        snap_up_spec((region.x + region.width) as int, ox, g),
        ox + parent_width,
    );
    let bottom = min_int(
        snap_up_spec((region.y + region.height) as int, oy, g),
        oy + parent_height,
    );
    BlendRegion {
        x: left as u32,
        y: top as u32,
        width: (if right > left + 1 { right - left } else { 1 }) as u32,
        height: (if bottom > top + 1 { bottom - top } else { 1 }) as u32,
    }
}

proof fn lemma_snap_bounds(v: int, floor: int, grid: int)
    requires
        grid >= 1,
    ensures
        floor <= snap_down_spec(v, floor, grid),
        v >= floor ==> snap_down_spec(v, floor, grid) <= v,
        v >= floor ==> snap_up_spec(v, floor, grid) >= v,
        snap_up_spec(v, floor, grid) >= floor,
        (snap_down_spec(v, floor, grid) - floor) % grid == 0,
        (snap_up_spec(v, floor, grid) - floor) % grid == 0,
{
    let offset: int = if v > floor { v - floor } else { 0 };
    assert(offset / grid * grid <= offset) by (nonlinear_arith)
        requires
            grid >= 1,
    ;
    assert((offset + grid - 1) / grid * grid >= offset) by (nonlinear_arith)
        requires
            grid >= 1,
    ;
    assert((offset / grid * grid) % grid == 0) by (nonlinear_arith)
        requires
            grid >= 1,
    ;
    assert(((offset + grid - 1) / grid * grid) % grid == 0) by (nonlinear_arith)
        requires
            grid >= 1,
    ;
}

/// `v` rounded down to the grid anchored at `floor`.
fn snap_down(v: u32, floor: u32, grid: u32) -> (r: u32)
    requires
        grid >= 1,
    ensures
        r == snap_down_spec(v as int, floor as int, grid as int),
        r >= floor,
        v >= floor ==> r <= v,
{
    proof {
        lemma_snap_bounds(v as int, floor as int, grid as int);
    }
    let offset: u32 = if v > floor {
        v - floor
    } else {
        0
    };
    proof {
        assert(offset / grid * grid <= offset) by (nonlinear_arith)
            requires
                grid >= 1,
        ;
    }
    floor + (offset / grid) * grid
}

/// `v` rounded up to the grid anchored at `floor`.
fn snap_up(v: u32, floor: u32, grid: u32) -> (r: u32)
    requires
        grid >= 1,
        snap_up_spec(v as int, floor as int, grid as int) <= u32::MAX,
    ensures
        r == snap_up_spec(v as int, floor as int, grid as int),
{
    let offset: u32 = if v > floor {
        v - floor
    } else {
        0
    };
    // `div_ceil`, worked over u64 so the numerator cannot wrap.
    let cells: u64 = ((offset as u64) + (grid as u64) - 1) / (grid as u64);
    proof {
        assert(cells * grid <= (offset as u64) + (grid as u64) - 1) by (nonlinear_arith)
            requires
                cells == ((offset as u64) + (grid as u64) - 1) / (grid as int),
                grid >= 1,
        ;
    }
    let span: u64 = cells * (grid as u64);
    floor + (span as u32)
}

impl BlendRegion {
    /// A region of the given size at the given origin.
    pub fn at(origin: (u32, u32), width: u32, height: u32) -> (r: BlendRegion)
        ensures
            r == (BlendRegion { x: origin.0, y: origin.1, width, height }),
    {
        BlendRegion { x: origin.0, y: origin.1, width, height }
    }

    /// Whether this region is the whole parent surface.
    pub fn is_full(&self, parent_origin: (u32, u32), parent_width: u32, parent_height: u32) -> (r:
        bool)
        ensures
            r == (*self == BlendRegion::at_spec(parent_origin, parent_width, parent_height)),
    {
        self.x == parent_origin.0 && self.y == parent_origin.1 && self.width == parent_width
            && self.height == parent_height
    }

    pub open spec fn at_spec(origin: (u32, u32), width: u32, height: u32) -> BlendRegion {
        BlendRegion { x: origin.0, y: origin.1, width, height }
    }
}

/// Round a region out to a grid so that near-identical requests share one pool bucket.
///
/// The origin rounds down and the far edge rounds up, on a grid anchored at the parent's corner,
/// and then the far edge is clamped back inside the parent.
pub fn quantise_region(
    region: BlendRegion,
    parent_origin: (u32, u32),
    parent_width: u32,
    parent_height: u32,
    grid: u32,
) -> (r: BlendRegion)
    requires
        quantise_fits(region, parent_origin, parent_width, parent_height, grid),
    ensures
        r == quantise_region_spec(region, parent_origin, parent_width, parent_height, grid),
{
    let grid = if grid > 1 {
        grid
    } else {
        1
    };
    let (ox, oy) = parent_origin;
    let left = snap_down(region.x, ox, grid);
    let top = snap_down(region.y, oy, grid);
    let right_snapped = snap_up(region.x + region.width, ox, grid);
    let bottom_snapped = snap_up(region.y + region.height, oy, grid);
    let right = if right_snapped < ox + parent_width {
        right_snapped
    } else {
        ox + parent_width
    };
    let bottom = if bottom_snapped < oy + parent_height {
        bottom_snapped
    } else {
        oy + parent_height
    };
    let width = if right > left && right - left > 1 {
        right - left
    } else {
        1
    };
    let height = if bottom > top && bottom - top > 1 {
        bottom - top
    } else {
        1
    };
    BlendRegion { x: left, y: top, width, height }
}

/// Quantising a non-empty region that lies inside its parent only ever grows it, never lets it
/// escape the parent, and puts its origin on the grid anchored at the parent's corner.
pub proof fn law_quantise_grows_within_parent(
    region: BlendRegion,
    parent_origin: (u32, u32),
    parent_width: u32,
    parent_height: u32,
    grid: u32,
)
    requires
        quantise_fits(region, parent_origin, parent_width, parent_height, grid),
        region.width >= 1,
        region.height >= 1,
        parent_origin.0 <= region.x,
        parent_origin.1 <= region.y,
        region.x + region.width <= parent_origin.0 + parent_width,
        region.y + region.height <= parent_origin.1 + parent_height,
    ensures
        ({
            let r = quantise_region_spec(
                region,
                parent_origin,
                parent_width,
                parent_height,
                grid,
            );
            &&& parent_origin.0 <= r.x <= region.x
            &&& parent_origin.1 <= r.y <= region.y
            &&& region.x + region.width <= r.x + r.width <= parent_origin.0 + parent_width
            &&& region.y + region.height <= r.y + r.height <= parent_origin.1 + parent_height
            &&& (r.x - parent_origin.0) % (effective_grid(grid) as int) == 0
            &&& (r.y - parent_origin.1) % (effective_grid(grid) as int) == 0
        }),
{
    let g = effective_grid(grid);
    lemma_snap_bounds(region.x as int, parent_origin.0 as int, g);
    lemma_snap_bounds(region.y as int, parent_origin.1 as int, g);
    lemma_snap_bounds((region.x + region.width) as int, parent_origin.0 as int, g);
    lemma_snap_bounds((region.y + region.height) as int, parent_origin.1 as int, g);
}

} // verus!
