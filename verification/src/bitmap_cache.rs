//! Sizing and culling decisions for `cacheAsBitmap` surfaces.
use vstd::prelude::*;

verus! {

/// Grid that cache texture sizes are rounded up to, at least.
pub const BITMAP_CACHE_SIZE_GRID: u32 = 64;

/// How many cells span a dimension's power-of-two bracket.
pub const BITMAP_CACHE_GRID_STEPS: u32 = 16;

pub const AETHER_ADAPTIVE_AVATAR_CACHE_MAX_DIMENSION: u32 = 2_048;

pub const AETHER_ADAPTIVE_AVATAR_CACHE_MAX_PIXELS: u64 = 1_048_576;

/// Twips per pixel.
pub const TWIPS_PER_PIXEL: i32 = 20;

/// The coordinate that marks a rectangle as holding nothing at all.
pub const INVALID_TWIPS: i32 = 0x7ffffff;

/// The smallest power of two that is at least `v`, searching upward from `p`.
pub open spec fn npot_from(p: nat, v: nat) -> nat
    decreases (if p < v { v - p } else { 0 }),
{
    if p >= v || p == 0 {
        p
    } else {
        npot_from(2 * p, v)
    }
}

/// The smallest power of two that is at least `v` (and 1 for 0).
pub open spec fn next_power_of_two_spec(v: nat) -> nat {
    npot_from(1, v)
}

/// The cell a dimension is rounded to: its power-of-two bracket divided into
/// `BITMAP_CACHE_GRID_STEPS`, never finer than `BITMAP_CACHE_SIZE_GRID`.
pub open spec fn grid_cell_spec(value: nat) -> nat {
    let bracket = next_power_of_two_spec(value) / 16;
    if bracket > 64 {
        bracket
    } else {
        64
    }
}

/// One dimension rounded up to its grid cell, saturating at `u32::MAX` and never below `value`.
pub open spec fn quantise_dimension_spec(value: nat) -> nat {
    let cell = grid_cell_spec(value);
    let rounded: int = (value + cell - 1) as int / cell as int * cell as int;
    let saturated: nat = if rounded > u32::MAX { u32::MAX as nat } else { rounded as nat };
    if saturated > value {
        saturated
    } else {
        value
    }
}

/// The full product of two `u32` values.
pub fn wide_mul(a: u32, b: u32) -> (r: u64)
    ensures
        r == a * b,
{
    proof {
        assert(a * b <= 0xffff_ffff * 0xffff_ffff) by (nonlinear_arith)
            requires
                a <= 0xffff_ffff,
                b <= 0xffff_ffff,
        ;
    }
    (a as u64) * (b as u64)
}

/// Rust's `u32::next_power_of_two`, for values where it does not overflow.
fn next_power_of_two(value: u32) -> (r: u32)
    requires
        value <= 0x8000_0000,
    ensures
        r == next_power_of_two_spec(value as nat),
        r >= value,
        r >= 1,
{
    let mut p: u64 = 1;
    while p < value as u64
        invariant
            1 <= p,
            p == 1 || p < 2 * value,
            npot_from(p as nat, value as nat) == next_power_of_two_spec(value as nat),
            value <= 0x8000_0000,
        decreases (if p < value { value - p } else { 0 }),
    {
        p = p * 2;
    }
    p as u32
}

/// One dimension rounded up to the grid.
fn quantise_dimension(value: u32) -> (r: u32)
    requires
        value <= 0x8000_0000,
    ensures
        r == quantise_dimension_spec(value as nat),
        r >= value,
{
    let cell_raw = next_power_of_two(value) / BITMAP_CACHE_GRID_STEPS;
    let cell = if cell_raw > BITMAP_CACHE_SIZE_GRID {
        cell_raw
    } else {
        BITMAP_CACHE_SIZE_GRID
    };
    assert(cell as nat == grid_cell_spec(value as nat));
    // `div_ceil` and a saturating multiply, over u64 so nothing can wrap.
    let cells: u64 = ((value as u64) + (cell as u64) - 1) / (cell as u64);
    proof {
        let x = (value as u64) + (cell as u64) - 1;
        assert(cells * cell <= x) by (nonlinear_arith)
            requires
                cells == x / (cell as int),
                cell > 0,
                x >= 0,
        ;
    }
    let product: u64 = cells * (cell as u64);
    let saturated: u32 = if product > u32::MAX as u64 {
        u32::MAX
    } else {
        product as u32
    };
    if saturated > value {
        saturated
    } else {
        value
    }
}

proof fn lemma_npot_from_at_least(p: nat, v: nat)
    ensures
        npot_from(p, v) >= p,
        p >= 1 ==> npot_from(p, v) >= v,
    decreases (if p < v { v - p } else { 0 }),
{
    if !(p >= v || p == 0) {
        lemma_npot_from_at_least(2 * p, v);
    }
}

/// Doubling stops at the same power for every value between `v` and where it stops for `v`.
proof fn lemma_npot_from_same_bracket(p: nat, v: nat, w: nat)
    requires
        p >= 1,
        v <= w <= npot_from(p, v),
    ensures
        npot_from(p, w) == npot_from(p, v),
    decreases (if p < v { v - p } else { 0 }),
{
    if p < v {
        lemma_npot_from_same_bracket(2 * p, v, w);
    }
}

proof fn lemma_npot_from_monotone(p: nat, v: nat, w: nat)
    requires
        p >= 1,
        v <= w,
    ensures
        npot_from(p, v) <= npot_from(p, w),
    decreases (if p < w { w - p } else { 0 }),
{
    if p >= w {
    } else if p >= v {
        lemma_npot_from_at_least(p, w);
    } else {
        lemma_npot_from_monotone(2 * p, v, w);
    }
}

/// Doubling from a multiple of `m` stops at a multiple of `m`.
proof fn lemma_npot_from_multiple(p: nat, v: nat, m: nat)
    requires
        p >= 1,
        m >= 1,
        p % m == 0,
    ensures
        npot_from(p, v) % m == 0,
    decreases (if p < v { v - p } else { 0 }),
{
    if p < v {
        vstd::arithmetic::div_mod::lemma_fundamental_div_mod(p as int, m as int);
        let k = (p as int) / (m as int);
        assert((2 * p) as int == (2 * k) * (m as int)) by (nonlinear_arith)
            requires
                p as int == (m as int) * k,
        ;
        vstd::arithmetic::div_mod::lemma_mod_multiples_basic(2 * k, m as int);
        lemma_npot_from_multiple(2 * p, v, m);
    }
}

/// Doubling overshoots by less than a factor of two.
proof fn lemma_npot_from_below_double(p: nat, v: nat)
    requires
        1 <= p,
        p < 2 * v,
    ensures
        npot_from(p, v) < 2 * v,
    decreases (if p < v { v - p } else { 0 }),
{
    if p < v {
        lemma_npot_from_below_double(2 * p, v);
    }
}

/// Rounding `v` up to a multiple of `c`.
proof fn lemma_round_up(v: nat, c: nat, bound: nat)
    requires
        c >= 1,
        v <= bound,
        bound % c == 0,
    ensures
        (v + c - 1) / (c as int) * c >= v,
        (v + c - 1) / (c as int) * c <= bound,
        ((v + c - 1) / (c as int) * c) % (c as int) == 0,
        (v as int) % (c as int) == 0 ==> (v + c - 1) / (c as int) * c == v,
{
    let q = (v + c - 1) / (c as int);
    assert(q * c >= v && ((q * c) % (c as int) == 0)) by (nonlinear_arith)
        requires
            c >= 1,
            q == (v + c - 1) / (c as int),
            v >= 0,
    ;
    assert(q * c <= bound) by (nonlinear_arith)
        requires
            c >= 1,
            q == (v + c - 1) / (c as int),
            v <= bound,
            (bound as int) % (c as int) == 0,
            bound >= 0,
            v >= 0,
    ;
    assert((v as int) % (c as int) == 0 ==> q * c == v) by (nonlinear_arith)
        requires
            c >= 1,
            q == (v + c - 1) / (c as int),
            v >= 0,
    ;
}

/// Quantising a dimension lands on a multiple of its grid cell, and quantising that again
/// changes nothing: sizes that drift inside one cell all settle on the same texture.
pub proof fn law_quantise_is_idempotent_on_its_grid(v: nat)
    requires
        v <= 0x8000_0000,
    ensures
        quantise_dimension_spec(v) >= v,
        quantise_dimension_spec(v) % grid_cell_spec(v) == 0,
        quantise_dimension_spec(quantise_dimension_spec(v)) == quantise_dimension_spec(v),
{
    let p = next_power_of_two_spec(v);
    let c = grid_cell_spec(v);
    lemma_npot_from_at_least(1, v);
    lemma_npot_from_monotone(1, v, 0x8000_0000);
    assert(next_power_of_two_spec(0x8000_0000) == 0x8000_0000) by {
        reveal_with_fuel(npot_from, 33);
    }
    let rounded = (v + c - 1) / (c as int) * c;
    if p <= 1024 {
        assert(c == 64);
        assert(1024nat % 64nat == 0);
        lemma_round_up(v, c, 1024);
        let q = rounded as nat;
        lemma_npot_from_monotone(1, q, 1024);
        assert(next_power_of_two_spec(1024) == 1024) by {
            reveal_with_fuel(npot_from, 12);
        }
        assert(grid_cell_spec(q) == 64);
        lemma_round_up(q, 64, 1024);
    } else {
        // Past 8 the doubling runs through 16, so the bracket is a multiple of 16.
        assert(v > 8) by {
            if v <= 8 {
                lemma_npot_from_monotone(1, v, 8);
                reveal_with_fuel(npot_from, 5);
            }
        }
        assert(npot_from(1, v) == npot_from(16, v)) by {
            reveal_with_fuel(npot_from, 5);
        }
        lemma_npot_from_multiple(16, v, 16);
        assert(p == 16 * c);
        assert((p as int) % (c as int) == 0) by (nonlinear_arith)
            requires
                p == 16 * c,
                c >= 1,
        ;
        lemma_round_up(v, c, p);
        let q = rounded as nat;
        lemma_npot_from_below_double(1, v);
        lemma_npot_from_same_bracket(1, v, q);
        assert(grid_cell_spec(q) == c);
        lemma_round_up(q, c, p);
    }
}

/// Round a cache texture up so that a few pixels of bounds drift reuse the same texture.
///
/// Each dimension is rounded up to a cell that is its power-of-two bracket divided by sixteen,
/// and never smaller than 64, so the slack stays proportional to the surface.
pub fn quantise_cache_texture_size(size: (u32, u32)) -> (r: (u32, u32))
    requires
        size.0 <= 0x8000_0000,
        size.1 <= 0x8000_0000,
    ensures
        r.0 == quantise_dimension_spec(size.0 as nat),
        r.1 == quantise_dimension_spec(size.1 as nat),
        r.0 >= size.0,
        r.1 >= size.1,
{
    (quantise_dimension(size.0), quantise_dimension(size.1))
}

/// What to do with a cache's texture for a new request.
#[derive(Clone, Copy, Debug, Eq, PartialEq, Structural)]
pub enum BitmapCacheTexturePlan {
    Reuse,
    Allocate { width: u32, height: u32 },
}

/// Whether a cache may keep a texture larger than its request.
#[derive(Clone, Copy, Debug, Eq, PartialEq, Structural)]
pub enum BitmapCacheTexturePolicy {
    Exact,
    BoundedReuse,
}

/// Whether a surface is small enough to be kept as a reusable high-water capacity.
pub open spec fn dimensions_allowed_spec(width: u32, height: u32) -> bool {
    &&& width <= 2048
    &&& height <= 2048
    &&& width * height <= 1_048_576
}

/// The plan for a cache holding a texture of `current` (if any) that now needs `requested`,
/// once the request has been rounded up to the size grid (with `grid`) or left as it is.
pub open spec fn texture_plan_spec(
    current: Option<(u32, u32)>,
    requested: (u32, u32),
    policy: BitmapCacheTexturePolicy,
    grid: bool,
) -> BitmapCacheTexturePlan {
    let requested = if grid {
        (
            quantise_dimension_spec(requested.0 as nat) as u32,
            quantise_dimension_spec(requested.1 as nat) as u32,
        )
    } else {
        requested
    };
    if current == Some(requested) {
        BitmapCacheTexturePlan::Reuse
    } else if policy == BitmapCacheTexturePolicy::BoundedReuse && current is Some {
        let (cw, ch) = current->0;
        let requested_area = requested.0 * requested.1;
        let current_area = cw * ch;
        let grown_w = if cw > requested.0 { cw } else { requested.0 };
        let grown_h = if ch > requested.1 { ch } else { requested.1 };
        if cw >= requested.0 && ch >= requested.1 && current_area <= 2 * requested_area
            && dimensions_allowed_spec(cw, ch) {
            BitmapCacheTexturePlan::Reuse
        } else if grown_w * grown_h <= 2 * requested_area && dimensions_allowed_spec(
            grown_w,
            grown_h,
        ) {
            BitmapCacheTexturePlan::Allocate { width: grown_w, height: grown_h }
        } else {
            BitmapCacheTexturePlan::Allocate { width: requested.0, height: requested.1 }
        }
    } else {
        BitmapCacheTexturePlan::Allocate { width: requested.0, height: requested.1 }
    }
}

/// A planned texture always has room for the request: a texture that is kept is at least as
/// wide and as tall as what was asked for, and so is one that is allocated. Under the grid the
/// request only grows, so this holds of the request as the caller made it.
pub proof fn law_a_planned_texture_contains_the_request(
    current: Option<(u32, u32)>,
    requested: (u32, u32),
    policy: BitmapCacheTexturePolicy,
    grid: bool,
)
    ensures
        texture_plan_spec(current, requested, policy, grid) == BitmapCacheTexturePlan::Reuse
            ==> (current matches Some((cw, ch)) && cw >= requested.0 && ch >= requested.1),
        texture_plan_spec(current, requested, policy, grid) matches BitmapCacheTexturePlan::Allocate {
            width,
            height,
        } ==> width >= requested.0 && height >= requested.1,
{
}

/// Under `Exact`, a texture is kept only when it is exactly the (gridded) request, and otherwise
/// exactly the request is allocated. Under `BoundedReuse`, a texture kept although it is not
/// exactly the request is at most twice the request's area, and a grown texture is too.
pub proof fn law_reuse_is_exact_or_bounded(
    current: Option<(u32, u32)>,
    requested: (u32, u32),
    policy: BitmapCacheTexturePolicy,
    grid: bool,
)
    ensures
        ({
            let q: (u32, u32) = if grid {
                (
                    quantise_dimension_spec(requested.0 as nat) as u32,
                    quantise_dimension_spec(requested.1 as nat) as u32,
                )
            } else {
                requested
            };
            let plan = texture_plan_spec(current, requested, policy, grid);
            &&& policy == BitmapCacheTexturePolicy::Exact ==> (plan == BitmapCacheTexturePlan::Reuse
                <==> current == Some(q))
            &&& policy == BitmapCacheTexturePolicy::Exact && current != Some(q) ==> plan
                == BitmapCacheTexturePlan::Allocate { width: q.0, height: q.1 }
            &&& plan == BitmapCacheTexturePlan::Reuse && current != Some(q) ==> (current matches Some(
                (cw, ch),
            ) && cw * ch <= 2 * (q.0 * q.1))
            &&& plan matches BitmapCacheTexturePlan::Allocate { width, height } ==> width * height
                <= 2 * (q.0 * q.1) || (width == q.0 && height == q.1)
        }),
{
}

/// Whether AQW's own `cacheAsBitmap` surfaces may reuse a slightly oversized cache texture.
///
/// Off in this build: the adaptive cache policies are not compiled in.
pub fn aqw_bounded_cache_texture_reuse() -> (r: bool)
    ensures
        !r,
{
    false
}

/// Whether cache texture requests are rounded up to the size grid.
///
/// Off in this build: the adaptive cache policies are not compiled in.
pub fn aqw_cache_texture_grid() -> (r: bool)
    ensures
        !r,
{
    false
}

/// The texture policy a cache rebuild runs under: a cache kept only for the adaptive avatar
/// path, or any cache while AQW's bounded reuse is on, may keep a slightly oversized texture;
/// every other cache gets exactly what it asks for.
pub fn bitmap_cache_texture_policy(adaptive_avatar_cache_only: bool, aqw_bounded_reuse: bool) -> (r:
    BitmapCacheTexturePolicy)
    ensures
        r == (if adaptive_avatar_cache_only || aqw_bounded_reuse {
            BitmapCacheTexturePolicy::BoundedReuse
        } else {
            BitmapCacheTexturePolicy::Exact
        }),
{
    if adaptive_avatar_cache_only || aqw_bounded_reuse {
        BitmapCacheTexturePolicy::BoundedReuse
    } else {
        BitmapCacheTexturePolicy::Exact
    }
}

/// Whether a live texture of this size may be kept as an avatar cache's capacity.
pub fn adaptive_avatar_cache_dimensions_allowed(width: u32, height: u32) -> (r: bool)
    ensures
        r == dimensions_allowed_spec(width, height),
{
    width <= AETHER_ADAPTIVE_AVATAR_CACHE_MAX_DIMENSION && height
        <= AETHER_ADAPTIVE_AVATAR_CACHE_MAX_DIMENSION && wide_mul(width, height)
        <= AETHER_ADAPTIVE_AVATAR_CACHE_MAX_PIXELS
}

/// Decide whether a cache can keep its texture or needs a new one, and of what size.
///
/// An exact match is always reused. Under `BoundedReuse` a texture that still contains the
/// request, is no more than twice its area and is not oversized is reused; otherwise the
/// texture grows to cover both the old and the new request when that stays within the same
/// bounds. Anything else allocates exactly what was asked for. Whether AQW's grid is on is read
/// from `aqw_cache_texture_grid`.
pub fn bitmap_cache_texture_plan(
    current: Option<(u32, u32)>,
    requested: (u32, u32),
    policy: BitmapCacheTexturePolicy,
) -> (r: BitmapCacheTexturePlan)
    ensures
        r == texture_plan_spec(current, requested, policy, false),
        r == BitmapCacheTexturePlan::Reuse ==> (current matches Some((cw, ch)) && cw >= requested.0
            && ch >= requested.1),
        r matches BitmapCacheTexturePlan::Allocate { width, height } ==> width >= requested.0
            && height >= requested.1,
{
    bitmap_cache_texture_plan_with_grid(current, requested, policy, aqw_cache_texture_grid())
}

/// The texture plan, with the request first rounded up to the size grid when `grid` is on, so
/// that a few pixels of bounds drift reuse one texture.
pub fn bitmap_cache_texture_plan_with_grid(
    current: Option<(u32, u32)>,
    requested: (u32, u32),
    policy: BitmapCacheTexturePolicy,
    grid: bool,
) -> (r: BitmapCacheTexturePlan)
    requires
        grid ==> requested.0 <= 0x8000_0000 && requested.1 <= 0x8000_0000,
    ensures
        r == texture_plan_spec(current, requested, policy, grid),
        r == BitmapCacheTexturePlan::Reuse ==> (current matches Some((cw, ch)) && cw >= requested.0
            && ch >= requested.1),
        r matches BitmapCacheTexturePlan::Allocate { width, height } ==> width >= requested.0
            && height >= requested.1,
{
    proof {
        law_a_planned_texture_contains_the_request(current, requested, policy, grid);
    }
    let requested = if grid {
        quantise_cache_texture_size(requested)
    } else {
        requested
    };

    if current == Some(requested) {
        return BitmapCacheTexturePlan::Reuse;
    }

    if policy == BitmapCacheTexturePolicy::BoundedReuse {
        if let Some((current_width, current_height)) = current {
            let requested_area = wide_mul(requested.0, requested.1);
            let current_area = wide_mul(current_width, current_height);
            let double_requested: u64 = if requested_area > u64::MAX / 2 {
                u64::MAX
            } else {
                requested_area * 2
            };
            proof {
                assert(requested.0 * requested.1 <= 0xffff_ffff * 0xffff_ffff) by (nonlinear_arith)
                    requires
                        requested.0 <= 0xffff_ffff,
                        requested.1 <= 0xffff_ffff,
                ;
            }
            let current_contains_requested = current_width >= requested.0 && current_height
                >= requested.1;

            if current_contains_requested && current_area <= double_requested
                && adaptive_avatar_cache_dimensions_allowed(current_width, current_height) {
                return BitmapCacheTexturePlan::Reuse;
            }
            let grown_w = if current_width > requested.0 {
                current_width
            } else {
                requested.0
            };
            let grown_h = if current_height > requested.1 {
                current_height
            } else {
                requested.1
            };
            let grown_area = wide_mul(grown_w, grown_h);
            if grown_area <= double_requested && adaptive_avatar_cache_dimensions_allowed(
                grown_w,
                grown_h,
            ) {
                return BitmapCacheTexturePlan::Allocate { width: grown_w, height: grown_h };
            }
        }
    }
    BitmapCacheTexturePlan::Allocate { width: requested.0, height: requested.1 }
}

/// A verified parent direct-renders the same complete subtree, so descendants must not repeat
/// the recursive semantic-safety walk.
pub fn filterless_direct_render_safety_check_needed(
    inherited_subtree_safe: bool,
    direct_render_window_active: bool,
) -> (r: bool)
    ensures
        r == (direct_render_window_active && !inherited_subtree_safe),
{
    direct_render_window_active && !inherited_subtree_safe
}

/// An axis-aligned rectangle in twips (or, for filter growth, in pixels).
#[derive(Clone, Copy, Debug, Eq, PartialEq, Structural)]
pub struct Rectangle {
    pub x_min: i32,
    pub x_max: i32,
    pub y_min: i32,
    pub y_max: i32,
}

impl Rectangle {
    /// Whether the rectangle holds anything: the invalid rectangle is marked by its `x_min`.
    pub open spec fn is_valid_spec(self) -> bool {
        self.x_min != INVALID_TWIPS
    }

    /// Whether two rectangles touch or overlap, edges included; an invalid rectangle touches
    /// nothing.
    pub open spec fn intersects_spec(self, other: Rectangle) -> bool {
        &&& self.is_valid_spec()
        &&& self.x_min <= other.x_max
        &&& self.x_max >= other.x_min
        &&& self.y_min <= other.y_max
        &&& self.y_max >= other.y_min
    }

    pub fn is_valid(&self) -> (r: bool)
        ensures
            r == self.is_valid_spec(),
    {
        self.x_min != INVALID_TWIPS
    }

    pub fn intersects(&self, other: &Rectangle) -> (r: bool)
        ensures
            r == self.intersects_spec(*other),
    {
        self.is_valid() && self.x_min <= other.x_max && self.x_max >= other.x_min && self.y_min
            <= other.y_max && self.y_max >= other.y_min
    }
}

/// The output rectangle of a cached bitmap: its bounds' corner grown by the filter rectangle
/// (given in pixels), in twips.
pub open spec fn cache_output_bounds(bounds: Rectangle, filter_rect: Rectangle) -> Rectangle {
    Rectangle {
        x_min: (bounds.x_min + 20 * filter_rect.x_min) as i32,
        x_max: (bounds.x_min + 20 * filter_rect.x_max) as i32,
        y_min: (bounds.y_min + 20 * filter_rect.y_min) as i32,
        y_max: (bounds.y_min + 20 * filter_rect.y_max) as i32,
    }
}

/// A viewport dimension clamped to `i32` and converted to twips.
pub open spec fn viewport_twips(v: u32) -> int {
    20 * (if v > i32::MAX { i32::MAX as int } else { v as int })
}

/// Whether a filtered output rectangle can be fitted in twips.
pub open spec fn output_fits(bounds: Rectangle, filter_rect: Rectangle) -> bool {
    &&& i32::MIN <= 20 * filter_rect.x_min <= i32::MAX
    &&& i32::MIN <= 20 * filter_rect.x_max <= i32::MAX
    &&& i32::MIN <= 20 * filter_rect.y_min <= i32::MAX
    &&& i32::MIN <= 20 * filter_rect.y_max <= i32::MAX
    &&& i32::MIN <= bounds.x_min + 20 * filter_rect.x_min <= i32::MAX
    &&& i32::MIN <= bounds.x_min + 20 * filter_rect.x_max <= i32::MAX
    &&& i32::MIN <= bounds.y_min + 20 * filter_rect.y_min <= i32::MAX
    &&& i32::MIN <= bounds.y_min + 20 * filter_rect.y_max <= i32::MAX
}

/// Whether a cached bitmap's filtered output reaches the viewport at all.
///
/// The output is the cache's bounds corner grown by the filter rectangle, so a glow that
/// spills onto the stage keeps the object drawn even when its own bounds are off it.
pub fn bitmap_cache_output_intersects_viewport(
    bounds: Rectangle,
    filter_rect: Rectangle,
    viewport_width: u32,
    viewport_height: u32,
) -> (r: bool)
    requires
        output_fits(bounds, filter_rect),
        viewport_twips(viewport_width) <= i32::MAX,
        viewport_twips(viewport_height) <= i32::MAX,
    ensures
        r == cache_output_bounds(bounds, filter_rect).intersects_spec(
            Rectangle {
                x_min: 0,
                x_max: viewport_twips(viewport_width) as i32,
                y_min: 0,
                y_max: viewport_twips(viewport_height) as i32,
            },
        ),
{
    let output_bounds = Rectangle {
        x_min: bounds.x_min + filter_rect.x_min * TWIPS_PER_PIXEL,
        x_max: bounds.x_min + filter_rect.x_max * TWIPS_PER_PIXEL,
        y_min: bounds.y_min + filter_rect.y_min * TWIPS_PER_PIXEL,
        y_max: bounds.y_min + filter_rect.y_max * TWIPS_PER_PIXEL,
    };
    let width: i32 = if viewport_width > i32::MAX as u32 {
        i32::MAX
    } else {
        viewport_width as i32
    };
    let height: i32 = if viewport_height > i32::MAX as u32 {
        i32::MAX
    } else {
        viewport_height as i32
    };
    let viewport = Rectangle {
        x_min: 0,
        x_max: width * TWIPS_PER_PIXEL,
        y_min: 0,
        y_max: height * TWIPS_PER_PIXEL,
    };
    output_bounds.intersects(&viewport)
}

/// The three lifecycle tree walks that can skip a clean subtree.
#[derive(Clone, Copy, Debug, Eq, PartialEq, Structural)]
pub enum Avm2LifecycleTraversal {
    Enter,
    Construct,
    FrameScripts,
}

impl Avm2LifecycleTraversal {
    /// Every traversal's bit at once.
    pub const ALL: u8 = 7;

    /// The bit that marks this traversal as dirty.
    pub open spec fn bit_spec(self) -> u8 {
        match self {
            Avm2LifecycleTraversal::Enter => 1,
            Avm2LifecycleTraversal::Construct => 2,
            Avm2LifecycleTraversal::FrameScripts => 4,
        }
    }

    pub fn bit(self) -> (r: u8)
        ensures
            r == self.bit_spec(),
    {
        match self {
            Avm2LifecycleTraversal::Enter => 1,
            Avm2LifecycleTraversal::Construct => 2,
            Avm2LifecycleTraversal::FrameScripts => 4,
        }
    }
}

/// The traversal bits are distinct single bits, and together they make up `ALL`.
pub proof fn law_lifecycle_bits_partition_all()
    ensures
        Avm2LifecycleTraversal::Enter.bit_spec() | Avm2LifecycleTraversal::Construct.bit_spec()
            | Avm2LifecycleTraversal::FrameScripts.bit_spec() == Avm2LifecycleTraversal::ALL,
        Avm2LifecycleTraversal::Enter.bit_spec() & Avm2LifecycleTraversal::Construct.bit_spec()
            == 0,
        Avm2LifecycleTraversal::Enter.bit_spec() & Avm2LifecycleTraversal::FrameScripts.bit_spec()
            == 0,
        Avm2LifecycleTraversal::Construct.bit_spec()
            & Avm2LifecycleTraversal::FrameScripts.bit_spec() == 0,
{
    assert(1u8 | 2u8 | 4u8 == 7u8) by (bit_vector);
    assert(1u8 & 2u8 == 0u8) by (bit_vector);
    assert(1u8 & 4u8 == 0u8) by (bit_vector);
    assert(2u8 & 4u8 == 0u8) by (bit_vector);
}

/// Which lifecycle walks may find work in an object's subtree. Cloning gives a summary with
/// every walk dirty, because a clone is a new instance whose phases have all still to run.
#[derive(Debug)]
pub struct Avm2LifecycleDirty {
    bits: u8,
}

proof fn lemma_lifecycle_bits(b: u8)
    by (bit_vector)
    ensures
        (b & !1u8) & 1u8 == 0,
        (b & !1u8) & 2u8 == b & 2u8,
        (b & !1u8) & 4u8 == b & 4u8,
        (b & !2u8) & 1u8 == b & 1u8,
        (b & !2u8) & 2u8 == 0,
        (b & !2u8) & 4u8 == b & 4u8,
        (b & !4u8) & 1u8 == b & 1u8,
        (b & !4u8) & 2u8 == b & 2u8,
        (b & !4u8) & 4u8 == 0,
        (b | 1u8) & 1u8 != 0,
        (b | 1u8) & 2u8 == b & 2u8,
        (b | 1u8) & 4u8 == b & 4u8,
        (b | 2u8) & 1u8 == b & 1u8,
        (b | 2u8) & 2u8 != 0,
        (b | 2u8) & 4u8 == b & 4u8,
        (b | 4u8) & 1u8 == b & 1u8,
        (b | 4u8) & 2u8 == b & 2u8,
        (b | 4u8) & 4u8 != 0,
        7u8 & 1u8 != 0 && 7u8 & 2u8 != 0 && 7u8 & 4u8 != 0,
{
}

impl Avm2LifecycleDirty {
    /// Whether the walk `t` may find work in the subtree.
    pub closed spec fn dirty(self, t: Avm2LifecycleTraversal) -> bool {
        self.bits & t.bit_spec() != 0
    }

    /// A summary with every walk dirty.
    pub fn new() -> (r: Avm2LifecycleDirty)
        ensures
            forall|t: Avm2LifecycleTraversal| #[trigger] r.dirty(t),
    {
        proof {
            lemma_lifecycle_bits(0);
        }
        Avm2LifecycleDirty { bits: Avm2LifecycleTraversal::ALL }
    }

    /// Start the walk `t`: returns whether the subtree was dirty for it, and marks it clean.
    /// Anything that changes during the walk marks it dirty again for the next pass.
    pub fn begin_avm2_lifecycle_traversal(&mut self, t: Avm2LifecycleTraversal) -> (r: bool)
        ensures
            r == old(self).dirty(t),
            !final(self).dirty(t),
            forall|u: Avm2LifecycleTraversal| u != t ==> #[trigger] final(self).dirty(u) == old(
                self,
            ).dirty(u),
    {
        proof {
            lemma_lifecycle_bits(self.bits);
        }
        let bit = t.bit();
        let dirty = self.bits;
        self.bits = dirty & !bit;
        dirty & bit != 0
    }

    /// Mark the walk `t` as having work in the subtree.
    pub fn mark_avm2_lifecycle_dirty(&mut self, t: Avm2LifecycleTraversal)
        ensures
            final(self).dirty(t),
            forall|u: Avm2LifecycleTraversal| u != t ==> #[trigger] final(self).dirty(u) == old(
                self,
            ).dirty(u),
    {
        proof {
            lemma_lifecycle_bits(self.bits);
        }
        self.bits = self.bits | t.bit();
    }

    /// Whether the walk `t` may find work in the subtree.
    pub fn is_avm2_lifecycle_dirty(&self, t: Avm2LifecycleTraversal) -> (r: bool)
        ensures
            r == self.dirty(t),
    {
        self.bits & t.bit() != 0
    }
}

impl Default for Avm2LifecycleDirty {
    fn default() -> (r: Avm2LifecycleDirty)
        ensures
            forall|t: Avm2LifecycleTraversal| #[trigger] r.dirty(t),
    {
        Avm2LifecycleDirty::new()
    }
}

impl Clone for Avm2LifecycleDirty {
    fn clone(&self) -> (r: Avm2LifecycleDirty)
        ensures
            forall|t: Avm2LifecycleTraversal| #[trigger] r.dirty(t),
    {
        Avm2LifecycleDirty::new()
    }
}

/// Which kind of bounds should be returned by `self_bounds`.
#[derive(Copy, Clone, Debug)]
pub enum BoundsMode {
    /// The bounds visible on the stage.
    Engine,
    /// The bounds reported to ActionScript.
    Script,
}

/// How an object is rendered.
#[derive(Clone, Copy, Debug)]
pub struct RenderOptions {
    /// Whether to skip rendering masks.
    pub skip_masks: bool,
    /// Whether to apply the object's base transform.
    pub apply_transform: bool,
    /// Whether to apply the base transform's matrix.
    pub apply_matrix: bool,
}

impl RenderOptions {
    /// Masks skipped, transform and matrix applied.
    pub fn default() -> (r: RenderOptions)
        ensures
            r.skip_masks && r.apply_transform && r.apply_matrix,
    {
        RenderOptions { apply_transform: true, skip_masks: true, apply_matrix: true }
    }
}

/// Dirty rebuilds in a row after which a filterless cache is drawn directly for a while.
pub const FILTERLESS_HOT_CACHE_REBUILD_THRESHOLD: u8 = 3;

/// Frames a hot filterless cache is drawn directly before caching is tried again.
pub const FILTERLESS_HOT_CACHE_DIRECT_FRAMES: u16 = 120;

/// The smallest output, in pixels, whose rebuilds count toward the hot-cache streak.
pub const FILTERLESS_HOT_CACHE_MIN_PIXELS: u64 = 16_384;

/// Whether a cache texture of this size may be created for a movie of `swf_version`: from
/// version 10 on, under 8191 pixels a side and 16777215 in all; before, under 2880 a side.
pub open spec fn cache_texture_size_acceptable(swf_version: u8, width: u32, height: u32) -> bool {
    if swf_version > 9 {
        width < 8191 && height < 8191 && width * height < 16_777_215
    } else {
        width < 2880 && height < 2880
    }
}

/// What to do about a cache's backing texture once the cache has been brought up to date.
#[derive(Clone, Copy, Debug, Eq, PartialEq, Structural)]
pub enum CacheTextureAction {
    /// Keep the texture the cache holds.
    Keep,
    /// Create a texture of this size, and report it with `texture_created` if that succeeds.
    Create { width: u32, height: u32 },
    /// The cache can hold no texture now: drop the one it had.
    Release,
}

/// The action for a cache holding a texture of `current` (if any) whose output is now
/// `requested`: keep what the plan reuses, otherwise create what it allocates when the renderer
/// can draw offscreen and the size is non-empty and acceptable, and otherwise release.
pub open spec fn texture_action_spec(
    current: Option<(u32, u32)>,
    requested: (u32, u32),
    policy: BitmapCacheTexturePolicy,
    swf_version: u8,
    offscreen_supported: bool,
) -> CacheTextureAction {
    match texture_plan_spec(current, requested, policy, false) {
        BitmapCacheTexturePlan::Reuse => CacheTextureAction::Keep,
        BitmapCacheTexturePlan::Allocate { width, height } => if offscreen_supported && width != 0
            && height != 0 && cache_texture_size_acceptable(swf_version, width, height) {
            CacheTextureAction::Create { width, height }
        } else {
            CacheTextureAction::Release
        },
    }
}

/// A cache keeps its texture only when that texture contains the new output, and creates one
/// only where offscreen rendering works, of a size that contains the output, is not empty and
/// the movie's version allows; otherwise the texture is released.
pub proof fn law_a_cache_texture_always_holds_its_output(
    current: Option<(u32, u32)>,
    requested: (u32, u32),
    policy: BitmapCacheTexturePolicy,
    swf_version: u8,
    offscreen_supported: bool,
)
    ensures
        texture_action_spec(current, requested, policy, swf_version, offscreen_supported)
            == CacheTextureAction::Keep ==> (current matches Some((cw, ch)) && cw >= requested.0
            && ch >= requested.1),
        texture_action_spec(current, requested, policy, swf_version, offscreen_supported) matches CacheTextureAction::Create {
            width,
            height,
        } ==> offscreen_supported && width >= requested.0 && height >= requested.1 && width > 0
            && height > 0 && cache_texture_size_acceptable(swf_version, width, height),
        !offscreen_supported ==> !(texture_action_spec(
            current,
            requested,
            policy,
            swf_version,
            offscreen_supported,
        ) is Create),
{
    law_a_planned_texture_contains_the_request(current, requested, policy, false);
}

/// The numbers a display object's bitmap cache keeps between frames: the sizes it was last
/// built at, the size of the texture behind it, and the hot-cache counters that send a cache
/// rebuilt every frame to direct rendering for a while. The transform it was drawn with is
/// floating point and is kept beside it by the caller.
#[derive(Clone, Copy, Debug)]
pub struct BitmapCache {
    source_width: u32,
    source_height: u32,
    output_width: u32,
    output_height: u32,
    texture: Option<(u32, u32)>,
    filterless_rebuild_streak: u8,
    filterless_direct_frames: u16,
}

impl BitmapCache {
    /// The pre-filter size the cache was last built at.
    pub closed spec fn source_size(self) -> (u32, u32) {
        (self.source_width, self.source_height)
    }

    /// The size of the cache's output, after filter growth.
    pub closed spec fn output_size_spec(self) -> (u32, u32) {
        (self.output_width, self.output_height)
    }

    /// The size of the texture behind the cache, if it has one.
    pub closed spec fn texture_size(self) -> Option<(u32, u32)> {
        self.texture
    }

    /// Dirty rebuilds of a filterless cache since the last clean hit or direct-render window.
    pub closed spec fn rebuild_streak(self) -> u8 {
        self.filterless_rebuild_streak
    }

    /// Frames left in the current direct-render window.
    pub closed spec fn direct_frames(self) -> u16 {
        self.filterless_direct_frames
    }

    /// Everything but the hot-cache counters is as in `other`.
    pub open spec fn same_contents(self, other: BitmapCache) -> bool {
        &&& self.source_size() == other.source_size()
        &&& self.output_size_spec() == other.output_size_spec()
        &&& self.texture_size() == other.texture_size()
    }

    /// Record a dirty rebuild of a cache that has no effective filters. Returns `true`, and
    /// starts the streak over, when this rebuild makes `FILTERLESS_HOT_CACHE_REBUILD_THRESHOLD`
    /// in a row: the cache is then not saving any work.
    pub fn note_filterless_rebuild(&mut self) -> (r: bool)
        ensures
            r == (old(self).rebuild_streak() + 1 >= FILTERLESS_HOT_CACHE_REBUILD_THRESHOLD),
            final(self).rebuild_streak() == (if r {
                0
            } else {
                old(self).rebuild_streak() + 1
            }),
            final(self).direct_frames() == old(self).direct_frames(),
            final(self).same_contents(*old(self)),
    {
        self.filterless_rebuild_streak = if self.filterless_rebuild_streak == u8::MAX {
            u8::MAX
        } else {
            self.filterless_rebuild_streak + 1
        };
        if self.filterless_rebuild_streak < FILTERLESS_HOT_CACHE_REBUILD_THRESHOLD {
            return false;
        }
        self.filterless_rebuild_streak = 0;
        true
    }

    /// Open a direct-render window of `FILTERLESS_HOT_CACHE_DIRECT_FRAMES` frames, once the
    /// subtree has been found safe to draw directly.
    pub fn begin_filterless_direct_rendering(&mut self)
        ensures
            final(self).direct_frames() == FILTERLESS_HOT_CACHE_DIRECT_FRAMES,
            final(self).rebuild_streak() == old(self).rebuild_streak(),
            final(self).same_contents(*old(self)),
    {
        self.filterless_direct_frames = FILTERLESS_HOT_CACHE_DIRECT_FRAMES;
    }

    /// Whether a direct-render window is open.
    pub fn has_filterless_direct_render_frames(&self) -> (r: bool)
        ensures
            r == (self.direct_frames() != 0),
    {
        self.filterless_direct_frames != 0
    }

    /// Close the direct-render window.
    pub fn cancel_filterless_direct_rendering(&mut self)
        ensures
            final(self).direct_frames() == 0,
            final(self).rebuild_streak() == old(self).rebuild_streak(),
            final(self).same_contents(*old(self)),
    {
        self.filterless_direct_frames = 0;
    }

    /// Spend one frame of the direct-render window; `false` when none is left.
    pub fn take_filterless_direct_render_frame(&mut self) -> (r: bool)
        ensures
            r == (old(self).direct_frames() != 0),
            final(self).direct_frames() == (if r {
                old(self).direct_frames() - 1
            } else {
                0
            }),
            final(self).rebuild_streak() == old(self).rebuild_streak(),
            final(self).same_contents(*old(self)),
    {
        if self.filterless_direct_frames == 0 {
            return false;
        }
        self.filterless_direct_frames = self.filterless_direct_frames - 1;
        true
    }

    /// A clean hit shows the cache is reusable, so a partial hot-cache streak ends.
    pub fn note_cache_hit(&mut self)
        ensures
            final(self).rebuild_streak() == 0,
            final(self).direct_frames() == old(self).direct_frames(),
            final(self).same_contents(*old(self)),
    {
        self.filterless_rebuild_streak = 0;
    }

    /// Bring the cache up to date for output of `actual_width` x `actual_height` from a source
    /// of `source_width` x `source_height`, and say what to do about its texture. A texture that
    /// is to be created or released is no longer counted as held; `texture_created` records a
    /// new one.
    pub fn update(
        &mut self,
        source_width: u32,
        source_height: u32,
        actual_width: u32,
        actual_height: u32,
        swf_version: u8,
        offscreen_supported: bool,
        policy: BitmapCacheTexturePolicy,
    ) -> (r: CacheTextureAction)
        ensures
            r == texture_action_spec(
                old(self).texture_size(),
                (actual_width, actual_height),
                policy,
                swf_version,
                offscreen_supported,
            ),
            final(self).texture_size() == (if r is Keep {
                old(self).texture_size()
            } else {
                None
            }),
            final(self).source_size() == (source_width, source_height),
            final(self).output_size_spec() == (actual_width, actual_height),
            final(self).rebuild_streak() == old(self).rebuild_streak(),
            final(self).direct_frames() == old(self).direct_frames(),
    {
        self.source_width = source_width;
        self.source_height = source_height;
        self.output_width = actual_width;
        self.output_height = actual_height;
        let plan = bitmap_cache_texture_plan(self.texture, (actual_width, actual_height), policy);
        let (width, height) = match plan {
            BitmapCacheTexturePlan::Reuse => {
                return CacheTextureAction::Keep;
            },
            BitmapCacheTexturePlan::Allocate { width, height } => (width, height),
        };
        self.texture = None;
        let acceptable = if swf_version > 9 {
            width < 8191 && height < 8191 && wide_mul(width, height) < 16_777_215
        } else {
            width < 2880 && height < 2880
        };
        if offscreen_supported && width != 0 && height != 0 && acceptable {
            CacheTextureAction::Create { width, height }
        } else {
            CacheTextureAction::Release
        }
    }

    /// Record that the texture `update` asked for was created.
    pub fn texture_created(&mut self, width: u32, height: u32)
        ensures
            final(self).texture_size() == Some((width, height)),
            final(self).source_size() == old(self).source_size(),
            final(self).output_size_spec() == old(self).output_size_spec(),
            final(self).rebuild_streak() == old(self).rebuild_streak(),
            final(self).direct_frames() == old(self).direct_frames(),
    {
        self.texture = Some((width, height));
    }

    /// Drop the cached texture, for a cache that cannot be drawn to for now.
    pub fn clear(&mut self)
        ensures
            final(self).texture_size() is None,
            final(self).source_size() == old(self).source_size(),
            final(self).output_size_spec() == old(self).output_size_spec(),
            final(self).rebuild_streak() == old(self).rebuild_streak(),
            final(self).direct_frames() == old(self).direct_frames(),
    {
        self.texture = None;
    }

    /// The pre-filter size the cache was last built at.
    pub fn source_dimensions(&self) -> (r: (u32, u32))
        ensures
            r == self.source_size(),
    {
        (self.source_width, self.source_height)
    }

    /// The size of the texture behind the cache, if it has one.
    pub fn texture_dimensions(&self) -> (r: Option<(u32, u32)>)
        ensures
            r == self.texture_size(),
    {
        self.texture
    }

    /// The size of the cache's output, after filter growth.
    pub fn output_size(&self) -> (r: (u32, u32))
        ensures
            r == self.output_size_spec(),
    {
        (self.output_width, self.output_height)
    }
}

impl Default for BitmapCache {
    fn default() -> (r: BitmapCache)
        ensures
            r.source_size() == (0u32, 0u32),
            r.output_size_spec() == (0u32, 0u32),
            r.texture_size() is None,
            r.rebuild_streak() == 0,
            r.direct_frames() == 0,
    {
        BitmapCache {
            source_width: 0,
            source_height: 0,
            output_width: 0,
            output_height: 0,
            texture: None,
            filterless_rebuild_streak: 0,
            filterless_direct_frames: 0,
        }
    }
}

/// What the renderer does with a `cacheAsBitmap` object this frame.
#[derive(Clone, Copy, Debug, PartialEq, Eq, Structural)]
pub enum CachedDraw {
    /// Too large to cache: the texture is dropped and the object is drawn directly.
    Oversize,
    /// Its whole filtered output is off the viewport: nothing is drawn and the cache stays dirty.
    Culled,
    /// An avatar cache over the size limit: the texture is dropped and the object drawn directly.
    Uncached,
    /// A hot filterless cache inside its direct-render window: drawn directly, not rebuilt.
    Direct,
    /// The cache is rebuilt and drawn.
    Rebuild,
    /// The cache is reused as it is.
    Hit,
}

/// What the renderer knows about a cached object this frame, as plain values.
#[derive(Clone, Copy, Debug, PartialEq, Eq, Structural)]
pub struct CachedDrawFrame {
    /// The object's bounds, rounded up to whole pixels, are at most `u16::MAX` on each side.
    pub fits: bool,
    /// The object is being drawn into an offscreen target rather than to the screen.
    pub offscreen: bool,
    /// Its filtered output reaches the viewport.
    pub output_visible: bool,
    /// The cache exists only for the adaptive avatar path, with no authored preference.
    pub avatar_cache_only: bool,
    /// The filtered output's size.
    pub texture_width: u32,
    pub texture_height: u32,
    /// The cache has to be rebuilt (its contents, transform or size changed).
    pub dirty: bool,
    /// The object qualifies for the filterless hot-cache bypass: an authored cache, normal
    /// blending, no opaque background and an identity colour transform.
    pub hot_candidate: bool,
    /// The object has no effective filters.
    pub filters_empty: bool,
    /// Its subtree is safe to draw directly.
    pub subtree_safe: bool,
}

/// Whether a dirty rebuild counts toward the hot-cache streak.
pub open spec fn counts_as_filterless_rebuild(f: CachedDrawFrame) -> bool {
    &&& f.hot_candidate
    &&& f.filters_empty
    &&& f.texture_width * f.texture_height >= FILTERLESS_HOT_CACHE_MIN_PIXELS
}

/// The draw chosen for a cache in `cache`'s state.
pub open spec fn cached_draw_spec(cache: BitmapCache, f: CachedDrawFrame) -> CachedDraw {
    if !f.fits {
        CachedDraw::Oversize
    } else if !f.offscreen && !f.output_visible {
        CachedDraw::Culled
    } else if f.avatar_cache_only && !dimensions_allowed_spec(f.texture_width, f.texture_height) {
        CachedDraw::Uncached
    } else if f.dirty {
        if counts_as_filterless_rebuild(f) && cache.rebuild_streak() + 1
            >= FILTERLESS_HOT_CACHE_REBUILD_THRESHOLD && f.subtree_safe {
            CachedDraw::Direct
        } else {
            CachedDraw::Rebuild
        }
    } else {
        CachedDraw::Hit
    }
}

impl BitmapCache {
    /// Decide how a cached object is drawn this frame, and move the cache along: an oversized
    /// object or an avatar cache over its limit loses its texture; a dirty filterless rebuild
    /// counts toward the hot-cache streak, and when the streak completes on a safe subtree a
    /// direct-render window opens and its first frame is spent; a clean hit ends the streak.
    pub fn plan_draw(&mut self, f: CachedDrawFrame) -> (r: CachedDraw)
        ensures
            r == cached_draw_spec(*old(self), f),
            final(self).source_size() == old(self).source_size(),
            final(self).output_size_spec() == old(self).output_size_spec(),
            (r == CachedDraw::Oversize || r == CachedDraw::Uncached) ==> {
                &&& final(self).texture_size() is None
                &&& final(self).rebuild_streak() == old(self).rebuild_streak()
                &&& final(self).direct_frames() == old(self).direct_frames()
            },
            r == CachedDraw::Culled ==> *final(self) == *old(self),
            r == CachedDraw::Hit ==> {
                &&& final(self).rebuild_streak() == 0
                &&& final(self).direct_frames() == old(self).direct_frames()
                &&& final(self).texture_size() == old(self).texture_size()
            },
            (r == CachedDraw::Direct || r == CachedDraw::Rebuild) ==> {
                &&& final(self).texture_size() == old(self).texture_size()
                &&& final(self).rebuild_streak() == (if !counts_as_filterless_rebuild(f) {
                    old(self).rebuild_streak()
                } else if old(self).rebuild_streak() + 1 >= FILTERLESS_HOT_CACHE_REBUILD_THRESHOLD {
                    0
                } else {
                    (old(self).rebuild_streak() + 1) as u8
                })
                &&& final(self).direct_frames() == (if r == CachedDraw::Direct {
                    (FILTERLESS_HOT_CACHE_DIRECT_FRAMES - 1) as u16
                } else {
                    old(self).direct_frames()
                })
            },
    {
        if !f.fits {
            self.clear();
            return CachedDraw::Oversize;
        }
        if !f.offscreen && !f.output_visible {
            return CachedDraw::Culled;
        }
        if f.avatar_cache_only && !adaptive_avatar_cache_dimensions_allowed(
            f.texture_width,
            f.texture_height,
        ) {
            self.clear();
            return CachedDraw::Uncached;
        }
        if !f.dirty {
            self.note_cache_hit();
            return CachedDraw::Hit;
        }
        let pixels: u64 = wide_mul(f.texture_width, f.texture_height);
        let threshold_reached = f.hot_candidate && f.filters_empty && pixels
            >= FILTERLESS_HOT_CACHE_MIN_PIXELS && self.note_filterless_rebuild();
        if threshold_reached && f.subtree_safe {
            self.begin_filterless_direct_rendering();
            let _ = self.take_filterless_direct_render_frame();
            CachedDraw::Direct
        } else {
            CachedDraw::Rebuild
        }
    }
}

} // verus!
