//! Packing several filter sources into one texture so a group of them can be blurred together.
use vstd::prelude::*;

verus! {

/// What the dependency test reads of a draw command: the bitmap it draws, by identity, or the
/// command lists nested inside it.
#[derive(Debug)]
pub enum DrawnCommand {
    /// Draws the bitmap (or Stage3D output) with this identity.
    Bitmap { handle: u64 },
    /// A blend group and the commands inside it.
    Blend { commands: Vec<DrawnCommand> },
    /// An alpha mask: the commands masked and the commands making the mask.
    AlphaMask { maskee: Vec<DrawnCommand>, mask: Vec<DrawnCommand> },
    /// Draws no bitmap and nests nothing.
    Leaf,
}

/// Whether a command, or anything nested inside it, draws `handle`.
pub open spec fn command_draws(command: DrawnCommand, handle: u64) -> bool
    decreases command,
{
    match command {
        DrawnCommand::Bitmap { handle: h } => h == handle,
        DrawnCommand::Blend { commands } => list_draws(commands@, handle),
        DrawnCommand::AlphaMask { maskee, mask } => list_draws(maskee@, handle) || list_draws(
            mask@,
            handle,
        ),
        DrawnCommand::Leaf => false,
    }
}

/// Whether any command of a list, at any nesting depth, draws `handle`.
pub open spec fn list_draws(commands: Seq<DrawnCommand>, handle: u64) -> bool
    decreases commands,
{
    exists|i: int| 0 <= i < commands.len() && command_draws(#[trigger] commands[i], handle)
}

/// Whether `commands` draws `handle` anywhere, at any nesting depth. This is the dependency test
/// that keeps a parent out of its child's group: handles compare by identity.
pub fn draws_handle(commands: &Vec<DrawnCommand>, handle: u64) -> (r: bool)
    ensures
        r == list_draws(commands@, handle),
    decreases commands@,
{
    let mut i: usize = 0;
    while i < commands.len()
        invariant
            i <= commands@.len(),
            forall|j: int| 0 <= j < i ==> !command_draws(#[trigger] commands@[j], handle),
        decreases commands@.len() - i,
    {
        let found = match &commands[i] {
            DrawnCommand::Bitmap { handle: h } => *h == handle,
            DrawnCommand::Blend { commands: list } => draws_handle(list, handle),
            DrawnCommand::AlphaMask { maskee, mask } => draws_handle(maskee, handle)
                || draws_handle(mask, handle),
            DrawnCommand::Leaf => false,
        };
        if found {
            return true;
        }
        i += 1;
    }
    false
}

/// The blur kernel two filters have to share before they can be blurred together. Radii are
/// compared by their bit patterns.
#[derive(Clone, Copy, Debug, PartialEq, Eq, Hash, Structural)]
pub struct BlurKey {
    pub blur_x_bits: u32,
    pub blur_y_bits: u32,
    pub passes: u8,
}

/// Whether entry `start + m` may join a group that already holds entries `start..start + m`:
/// it runs the same kernel as the group's first entry and neither draws, nor is drawn by, any
/// member.
pub open spec fn joins_group_at(
    keys: Seq<Option<BlurKey>>,
    conflicts: Seq<Seq<bool>>,
    key: BlurKey,
    start: int,
    m: int,
) -> bool {
    &&& keys[start + m] == Some(key)
    &&& forall|k: int|
        #![trigger conflicts[k]]
        start <= k < start + m ==> !conflicts[start + m][k] && !conflicts[k][start + m]
}

/// Whether `start + count` entries are described by `keys` and the square `conflicts` table.
pub open spec fn group_inputs_cover_at(
    start: int,
    count: int,
    keys: Seq<Option<BlurKey>>,
    conflicts: Seq<Seq<bool>>,
) -> bool {
    &&& 0 <= start
    &&& 0 <= count
    &&& keys.len() >= start + count
    &&& conflicts.len() >= start + count
    &&& forall|i: int| 0 <= i < start + count ==> #[trigger] conflicts[i].len() >= start + count
}

/// Whether `count` entries are described by `keys` and the square `conflicts` table.
pub open spec fn group_inputs_cover(
    count: usize,
    keys: Seq<Option<BlurKey>>,
    conflicts: Seq<Seq<bool>>,
) -> bool {
    group_inputs_cover_at(0, count as int, keys, conflicts)
}

pub open spec fn min_int(a: int, b: int) -> int {
    if a < b {
        a
    } else {
        b
    }
}

/// Whether `r` entries from `start` on, out of the `count` left, make the group the planner
/// forms there: one entry when there is nothing to share or no room for more, otherwise the
/// longest run, at most `max_group` long, whose entries all share the first one's kernel and
/// none of which draws another; none when no entry is left.
pub open spec fn is_group_plan(
    keys: Seq<Option<BlurKey>>,
    conflicts: Seq<Seq<bool>>,
    start: int,
    count: int,
    max_group: int,
    r: int,
) -> bool {
    if count == 0 || max_group <= 1 {
        r == min_int(count, 1)
    } else if keys[start] is None {
        r == 1
    } else {
        let key = keys[start]->0;
        &&& 1 <= r <= min_int(count, max_group)
        &&& forall|m: int| 1 <= m < r ==> joins_group_at(keys, conflicts, key, start, m)
        &&& r < min_int(count, max_group) ==> !joins_group_at(keys, conflicts, key, start, r)
    }
}

/// The group of entries `start..start + count` that may be blurred together with entry `start`.
fn plan_atlas_group_at(
    start: usize,
    count: usize,
    keys: &[Option<BlurKey>],
    conflicts: &Vec<Vec<bool>>,
    max_group: usize,
) -> (r: usize)
    requires
        group_inputs_cover_at(
            start as int,
            count as int,
            keys@,
            conflicts@.map_values(|row: Vec<bool>| row@),
        ),
    ensures
        is_group_plan(
            keys@,
            conflicts@.map_values(|row: Vec<bool>| row@),
            start as int,
            count as int,
            max_group as int,
            r as int,
        ),
{
    let ghost table = conflicts@.map_values(|row: Vec<bool>| row@);
    if count == 0 || max_group <= 1 {
        return if count < 1 {
            count
        } else {
            1
        };
    }
    let key = match keys[start] {
        Some(key) => key,
        None => {
            return 1;
        },
    };
    let limit = if count < max_group {
        count
    } else {
        max_group
    };
    let n = keys.len();
    let mut len: usize = 1;
    while len < limit
        invariant
            n == keys@.len(),
            1 <= len <= limit,
            limit == min_int(count as int, max_group as int),
            limit <= count,
            keys@[start as int] == Some(key),
            group_inputs_cover_at(start as int, count as int, keys@, table),
            table == conflicts@.map_values(|row: Vec<bool>| row@),
            forall|m: int| 1 <= m < len ==> joins_group_at(keys@, table, key, start as int, m),
        ensures
            1 <= len <= limit,
            forall|m: int| 1 <= m < len ==> joins_group_at(keys@, table, key, start as int, m),
            len < limit ==> !joins_group_at(keys@, table, key, start as int, len as int),
        decreases limit - len,
    {
        let at = start + len;
        let same_kernel = match keys[at] {
            Some(k) => k == key,
            None => false,
        };
        if !same_kernel {
            break;
        }
        let mut member: usize = 0;
        let mut clash = false;
        while member < len
            invariant_except_break
                !clash,
                forall|k: int|
                    #![trigger table[k]]
                    #![trigger table[at as int][k]]
                    start <= k < start + member ==> !table[at as int][k] && !table[k][at as int],
            invariant
                member <= len < limit <= count,
                at == start + len,
                n == keys@.len(),
                group_inputs_cover_at(start as int, count as int, keys@, table),
                table == conflicts@.map_values(|row: Vec<bool>| row@),
            ensures
                clash ==> exists|k: int|
                    #![trigger table[k]]
                    #![trigger table[at as int][k]]
                    start <= k < start + len && (table[at as int][k] || table[k][at as int]),
                !clash ==> forall|k: int|
                    #![trigger table[k]]
                    #![trigger table[at as int][k]]
                    start <= k < start + len ==> !table[at as int][k] && !table[k][at as int],
            decreases len - member,
        {
            let other = start + member;
            assert(table[at as int] == conflicts@[at as int]@);
            assert(table[other as int] == conflicts@[other as int]@);
            if conflicts[at][other] || conflicts[other][at] {
                clash = true;
                assert(table[at as int][other as int] || table[other as int][at as int]);
                break;
            }
            assert(!table[at as int][other as int] && !table[other as int][at as int]);
            let ghost old_member = member;
            member += 1;
            assert forall|k: int|
                #![trigger table[k]]
                    #![trigger table[at as int][k]]
                start <= k < start + member implies !table[at as int][k] && !table[k][at as int] by {
                if k < start + old_member {
                } else {
                    assert(k == other);
                }
            }
        }
        if clash {
            proof {
                let k = choose|k: int|
                    start <= k < start + len && (table[at as int][k] || table[k][at as int]);
                if joins_group_at(keys@, table, key, start as int, len as int) {
                    assert(!table[k][at as int]);
                    assert(!table[at as int][k]);
                }
            }
            break;
        }
        assert(joins_group_at(keys@, table, key, start as int, len as int));
        len += 1;
    }
    len
}

/// How many entries from the front of a run may be blurred together.
///
/// `keys[i]` is entry `i`'s shareable blur, if any, and `conflicts[a][b]` says whether entry
/// `a` draws entry `b`'s texture. The group is the longest prefix, at most `max_group` long,
/// whose entries all share the first entry's kernel and none of which draws another; it is a
/// single entry when there is nothing to share, and empty only when there are no entries.
pub fn plan_atlas_group(
    count: usize,
    keys: &[Option<BlurKey>],
    conflicts: &Vec<Vec<bool>>,
    max_group: usize,
) -> (r: usize)
    requires
        group_inputs_cover(count, keys@, conflicts@.map_values(|row: Vec<bool>| row@)),
    ensures
        is_group_plan(
            keys@,
            conflicts@.map_values(|row: Vec<bool>| row@),
            0,
            count as int,
            max_group as int,
            r as int,
        ),
{
    plan_atlas_group_at(0, count, keys, conflicts, max_group)
}

/// How many entries the first `j` runs cover.
pub open spec fn runs_total(runs: Seq<usize>, j: int) -> int
    decreases j,
{
    if j <= 0 {
        0
    } else {
        runs_total(runs, j - 1) + runs[j - 1]
    }
}

proof fn lemma_runs_total_push(runs: Seq<usize>, x: usize, j: int)
    requires
        0 <= j <= runs.len(),
    ensures
        runs_total(runs.push(x), j) == runs_total(runs, j),
    decreases j,
{
    if j > 0 {
        lemma_runs_total_push(runs, x, j - 1);
    }
}

/// Split a frame's cache entries into runs that may be blurred together, in order.
///
/// Each run is the group the planner forms at the first entry it has not yet placed, or a
/// single entry when the atlas is switched off. The run lengths add up to the number of
/// entries, so the entries are consumed in order and never reordered: they arrive in dependency
/// order, and a parent must still be drawn after the child it draws.
pub fn plan_cache_entry_groups(
    keys: &[Option<BlurKey>],
    conflicts: &Vec<Vec<bool>>,
    atlas_enabled: bool,
    max_group: usize,
) -> (r: Vec<usize>)
    requires
        group_inputs_cover(keys@.len() as usize, keys@, conflicts@.map_values(|row: Vec<bool>| row@)),
    ensures
        runs_total(r@, r@.len() as int) == keys@.len(),
        forall|j: int|
            0 <= j < r@.len() ==> {
                let at = runs_total(r@, j);
                let left = keys@.len() - at;
                &&& 1 <= #[trigger] r@[j] <= left
                &&& atlas_enabled ==> is_group_plan(
                    keys@,
                    conflicts@.map_values(|row: Vec<bool>| row@),
                    at,
                    left,
                    max_group as int,
                    r@[j] as int,
                )
                &&& !atlas_enabled ==> r@[j] == 1
            },
{
    let ghost table = conflicts@.map_values(|row: Vec<bool>| row@);
    let n = keys.len();
    let mut plan: Vec<usize> = Vec::new();
    let mut index: usize = 0;
    while index < n
        invariant
            n == keys@.len(),
            index <= n,
            table == conflicts@.map_values(|row: Vec<bool>| row@),
            group_inputs_cover(n, keys@, table),
            runs_total(plan@, plan@.len() as int) == index,
            forall|j: int|
                0 <= j < plan@.len() ==> {
                    let at = runs_total(plan@, j);
                    let left = n - at;
                    &&& 1 <= #[trigger] plan@[j] <= left
                    &&& atlas_enabled ==> is_group_plan(
                        keys@,
                        table,
                        at,
                        left,
                        max_group as int,
                        plan@[j] as int,
                    )
                    &&& !atlas_enabled ==> plan@[j] == 1
                },
        decreases n - index,
    {
        let len = if atlas_enabled {
            plan_atlas_group_at(index, n - index, keys, conflicts, max_group)
        } else {
            1
        };
        let len = if len < 1 {
            1
        } else {
            len
        };
        let ghost before = plan@;
        plan.push(len);
        proof {
            assert forall|j: int| 0 <= j <= before.len() implies runs_total(plan@, j) == runs_total(
                before,
                j,
            ) by {
                lemma_runs_total_push(before, len, j);
            }
            assert(runs_total(plan@, plan@.len() as int) == index + len);
        }
        index += len;
    }
    plan
}

} // verus!

verus! {

/// Where one source ended up inside the atlas.
#[derive(Clone, Copy, Debug, PartialEq, Eq, Structural)]
pub struct AtlasSlot {
    /// Index into the list of sources handed to `pack_atlas`.
    pub index: usize,
    /// Top-left of the source's own pixels, not of its padded cell.
    pub x: u32,
    pub y: u32,
    pub width: u32,
    pub height: u32,
}

/// A packing of several sources into one texture.
#[derive(Clone, Debug, PartialEq, Eq)]
pub struct AtlasPacking {
    pub width: u32,
    pub height: u32,
    pub slots: Vec<AtlasSlot>,
}

/// `a + b`, saturating at `u32::MAX`.
pub open spec fn sat_add(a: u32, b: u32) -> u32 {
    if a + b > u32::MAX {
        u32::MAX
    } else {
        (a + b) as u32
    }
}

/// A source's cell: its size plus the gap that follows it on each axis.
pub open spec fn cell_of(size: (u32, u32), pad_x: u32, pad_y: u32) -> (u32, u32) {
    (sat_add(size.0, pad_x), sat_add(size.1, pad_y))
}

/// Whether a source's cell, with the atlas's leading margin, fits within `max_dimension`.
pub open spec fn source_fits(size: (u32, u32), pad_x: u32, pad_y: u32, max_dimension: u32) -> bool {
    let cell = cell_of(size, pad_x, pad_y);
    &&& sat_add(cell.0, pad_x) <= max_dimension
    &&& sat_add(cell.1, pad_y) <= max_dimension
}

pub open spec fn all_fit(sizes: Seq<(u32, u32)>, pad_x: u32, pad_y: u32, max_dimension: u32) -> bool {
    forall|i: int| 0 <= i < sizes.len() ==> source_fits(sizes[i], pad_x, pad_y, max_dimension)
}

/// Every source's cell and margin fit within `max_dimension` without any saturation.
pub open spec fn all_fit_exactly(
    sizes: Seq<(u32, u32)>,
    pad_x: u32,
    pad_y: u32,
    max_dimension: u32,
) -> bool {
    forall|i: int|
        0 <= i < sizes.len() ==> sizes[i].0 + pad_x + pad_x <= max_dimension && sizes[i].1 + pad_y
            + pad_y <= max_dimension
}

/// Total area of the first `n` cells.
pub open spec fn cell_area(sizes: Seq<(u32, u32)>, pad_x: u32, pad_y: u32, n: int) -> int
    decreases n,
{
    if n <= 0 {
        0
    } else {
        let cell = cell_of(sizes[n - 1], pad_x, pad_y);
        cell_area(sizes, pad_x, pad_y, n - 1) + cell.0 * cell.1
    }
}

/// The smallest `r` whose square is at least `area`.
pub open spec fn is_ceil_sqrt(r: int, area: int) -> bool {
    &&& r >= 0
    &&& r * r >= area
    &&& (r == 0 || (r - 1) * (r - 1) < area)
}

/// The smallest integer whose square is at least `area`, for a non-negative `area`.
pub open spec fn ceil_sqrt_of(area: int) -> int {
    choose|r: int| is_ceil_sqrt(r, area)
}

/// A shelf width that keeps the atlas roughly square: the ceiling of the square root of the
/// cells' total area, saturated to `u32`.
pub open spec fn width_target(sizes: Seq<(u32, u32)>, pad_x: u32, pad_y: u32) -> int {
    let root = ceil_sqrt_of(cell_area(sizes, pad_x, pad_y, sizes.len() as int));
    if root > u32::MAX {
        u32::MAX as int
    } else {
        root
    }
}

/// The widest of the first `n` cells.
pub open spec fn widest_cell(sizes: Seq<(u32, u32)>, pad_x: u32, pad_y: u32, n: int) -> int
    decreases n,
{
    if n <= 0 {
        0
    } else {
        let w = cell_of(sizes[n - 1], pad_x, pad_y).0 as int;
        let rest = widest_cell(sizes, pad_x, pad_y, n - 1);
        if w > rest {
            w
        } else {
            rest
        }
    }
}

/// How wide a shelf runs before the next cell starts a new one: the widest cell or the width
/// target, whichever is larger, within `max_dimension`.
pub open spec fn shelf_run_width(sizes: Seq<(u32, u32)>, pad_x: u32, pad_y: u32, max_dimension: u32) -> int {
    let widest = widest_cell(sizes, pad_x, pad_y, sizes.len() as int);
    let target = width_target(sizes, pad_x, pad_y);
    let wide = if widest > target {
        widest
    } else {
        target
    };
    if wide < max_dimension {
        wide
    } else {
        max_dimension as int
    }
}

/// Source `j` goes into the atlas before source `i`: its cell is taller, or as tall and `j`
/// comes first in the caller's order.
pub open spec fn packed_before(sizes: Seq<(u32, u32)>, pad_x: u32, pad_y: u32, j: int, i: int) -> bool {
    let hj = cell_of(sizes[j], pad_x, pad_y).1;
    let hi = cell_of(sizes[i], pad_x, pad_y).1;
    hj > hi || (hj == hi && j < i)
}

/// How many sources go into the atlas before source `i`.
pub open spec fn pack_rank(sizes: Seq<(u32, u32)>, pad_x: u32, pad_y: u32, i: int) -> nat {
    count_true(Seq::new(sizes.len(), |j: int| packed_before(sizes, pad_x, pad_y, j, i)))
}

/// The source that goes into the atlas `k`-th.
pub open spec fn packed_at(sizes: Seq<(u32, u32)>, pad_x: u32, pad_y: u32, k: int) -> int {
    choose|i: int| 0 <= i < sizes.len() && pack_rank(sizes, pad_x, pad_y, i) == k
}

/// The shelf packer's pen: the next cell's left edge on the current shelf, the shelf's top, the
/// shelf's height so far, the widest extent reached, and whether every cell so far fitted.
pub type ShelfPen = (int, int, int, int, bool);

/// Whether source `i`, placed from `pen`, would overrun the shelf and starts a new one. The run
/// is measured saturating at `u32::MAX`.
pub open spec fn starts_new_shelf(
    sizes: Seq<(u32, u32)>,
    pad_x: u32,
    pad_y: u32,
    max_dimension: u32,
    pen: ShelfPen,
    i: int,
) -> bool {
    let run = pen.0 + cell_of(sizes[i], pad_x, pad_y).0;
    let run = if run > u32::MAX {
        u32::MAX as int
    } else {
        run
    };
    pen.0 > 0 && run > shelf_run_width(sizes, pad_x, pad_y, max_dimension)
}

/// The top-left of source `i`'s cell when it is placed from `pen`.
pub open spec fn cell_origin(
    sizes: Seq<(u32, u32)>,
    pad_x: u32,
    pad_y: u32,
    max_dimension: u32,
    pen: ShelfPen,
    i: int,
) -> (int, int) {
    if starts_new_shelf(sizes, pad_x, pad_y, max_dimension, pen, i) {
        (0, pen.1 + pen.2)
    } else {
        (pen.0, pen.1)
    }
}

/// The pen once source `i` has been placed from `pen`. Placing fails when the cell's bottom
/// passes `max_dimension` or its right edge passes `u32::MAX`.
pub open spec fn pen_after(
    sizes: Seq<(u32, u32)>,
    pad_x: u32,
    pad_y: u32,
    max_dimension: u32,
    pen: ShelfPen,
    i: int,
) -> ShelfPen {
    let cell = cell_of(sizes[i], pad_x, pad_y);
    let origin = cell_origin(sizes, pad_x, pad_y, max_dimension, pen, i);
    let shelf = if starts_new_shelf(sizes, pad_x, pad_y, max_dimension, pen, i) {
        0
    } else {
        pen.2
    };
    let right = origin.0 + cell.0;
    (
        right,
        origin.1,
        if cell.1 > shelf {
            cell.1 as int
        } else {
            shelf
        },
        if right > pen.3 {
            right
        } else {
            pen.3
        },
        origin.1 + cell.1 <= max_dimension && right <= u32::MAX,
    )
}

/// The pen once the first `k` sources in packing order have been placed; it stops at the first
/// cell that does not fit.
pub open spec fn shelf_pen(
    sizes: Seq<(u32, u32)>,
    pad_x: u32,
    pad_y: u32,
    max_dimension: u32,
    k: nat,
) -> ShelfPen
    decreases k,
{
    if k == 0 {
        (0, 0, 0, 0, true)
    } else {
        let pen = shelf_pen(sizes, pad_x, pad_y, max_dimension, (k - 1) as nat);
        if !pen.4 {
            pen
        } else {
            pen_after(
                sizes,
                pad_x,
                pad_y,
                max_dimension,
                pen,
                packed_at(sizes, pad_x, pad_y, k - 1),
            )
        }
    }
}

/// The atlas's width and height, or `None` where the packer declines: nothing to pack, a
/// source that cannot fit on its own, or shelves that outgrow `max_dimension`.
pub open spec fn atlas_size(sizes: Seq<(u32, u32)>, pad_x: u32, pad_y: u32, max_dimension: u32) -> Option<
    (int, int),
> {
    if sizes.len() == 0 || !all_fit(sizes, pad_x, pad_y, max_dimension) {
        None
    } else {
        let pen = shelf_pen(sizes, pad_x, pad_y, max_dimension, sizes.len());
        let width = pen.3 + pad_x;
        let height = pen.1 + pen.2 + pad_y;
        if !pen.4 || width > max_dimension || height > max_dimension {
            None
        } else {
            Some((width, height))
        }
    }
}

/// Where source `i` lands: its cell's origin, inside the cell's leading gap.
pub open spec fn packed_slot(
    sizes: Seq<(u32, u32)>,
    pad_x: u32,
    pad_y: u32,
    max_dimension: u32,
    i: int,
) -> AtlasSlot {
    let pen = shelf_pen(sizes, pad_x, pad_y, max_dimension, pack_rank(sizes, pad_x, pad_y, i));
    let origin = cell_origin(sizes, pad_x, pad_y, max_dimension, pen, i);
    AtlasSlot {
        index: i as usize,
        x: (origin.0 + pad_x) as u32,
        y: (origin.1 + pad_y) as u32,
        width: sizes[i].0,
        height: sizes[i].1,
    }
}

/// Two slots keep at least the padding between them on one axis or the other.
pub open spec fn separated(a: AtlasSlot, b: AtlasSlot, pad_x: u32, pad_y: u32) -> bool {
    ||| a.x + a.width + pad_x <= b.x
    ||| b.x + b.width + pad_x <= a.x
    ||| a.y + a.height + pad_y <= b.y
    ||| b.y + b.height + pad_y <= a.y
}

/// Slot `i` holds source `i` at its own size, with the atlas margin before it and room for
/// the margin after it.
pub open spec fn slot_placed(
    slot: AtlasSlot,
    i: int,
    sizes: Seq<(u32, u32)>,
    pad_x: u32,
    pad_y: u32,
    width: int,
    height: int,
) -> bool {
    &&& slot.index == i
    &&& slot.width == sizes[i].0
    &&& slot.height == sizes[i].1
    &&& slot.x >= pad_x
    &&& slot.y >= pad_y
    &&& slot.x + slot.width + pad_x <= width
    &&& slot.y + slot.height + pad_y <= height
}

/// A packing of `sizes` that keeps every source inside the atlas, in the caller's order, and
/// at least the padding away from every other source.
pub open spec fn valid_packing(
    sizes: Seq<(u32, u32)>,
    pad_x: u32,
    pad_y: u32,
    max_dimension: u32,
    packing: AtlasPacking,
) -> bool {
    &&& packing.width <= max_dimension
    &&& packing.height <= max_dimension
    &&& packing.slots@.len() == sizes.len()
    &&& forall|i: int|
        0 <= i < sizes.len() ==> slot_placed(
            #[trigger] packing.slots@[i],
            i,
            sizes,
            pad_x,
            pad_y,
            packing.width as int,
            packing.height as int,
        )
    &&& forall|i: int, j: int|
        0 <= i < sizes.len() && 0 <= j < sizes.len() && i != j ==> separated(
            #[trigger] packing.slots@[i],
            #[trigger] packing.slots@[j],
            pad_x,
            pad_y,
        )
}

/// How many entries of `s` are set.
pub open spec fn count_true(s: Seq<bool>) -> nat
    decreases s.len(),
{
    if s.len() == 0 {
        0
    } else {
        count_true(s.drop_last()) + if s.last() {
            1nat
        } else {
            0nat
        }
    }
}

proof fn lemma_count_true_update(s: Seq<bool>, i: int)
    requires
        0 <= i < s.len(),
        !s[i],
    ensures
        count_true(s.update(i, true)) == count_true(s) + 1,
    decreases s.len(),
{
    let t = s.update(i, true);
    if i == s.len() - 1 {
        assert(t.drop_last() =~= s.drop_last());
    } else {
        assert(t.drop_last() =~= s.drop_last().update(i, true));
        lemma_count_true_update(s.drop_last(), i);
    }
}

proof fn lemma_count_true_bounds(s: Seq<bool>)
    ensures
        count_true(s) <= s.len(),
        count_true(s) < s.len() ==> exists|i: int| 0 <= i < s.len() && !s[i],
        count_true(s) == s.len() ==> forall|i: int| 0 <= i < s.len() ==> s[i],
    decreases s.len(),
{
    if s.len() > 0 {
        lemma_count_true_bounds(s.drop_last());
        if count_true(s) < s.len() {
            if s.last() {
                let j = choose|j: int| 0 <= j < s.drop_last().len() && !s.drop_last()[j];
                assert(!s[j]);
            } else {
                assert(!s[s.len() - 1]);
            }
        }
        if count_true(s) == s.len() {
            assert forall|i: int| 0 <= i < s.len() implies s[i] by {
                if i < s.len() - 1 {
                    assert(s.drop_last()[i] == s[i]);
                }
            }
        }
    }
}

proof fn lemma_count_true_all_false(n: nat)
    ensures
        count_true(Seq::new(n, |i: int| false)) == 0,
    decreases n,
{
    if n > 0 {
        assert(Seq::new(n, |i: int| false).drop_last() =~= Seq::new((n - 1) as nat, |i: int| false));
        lemma_count_true_all_false((n - 1) as nat);
    }
}

/// Setting more entries sets no fewer, and setting one more sets strictly more.
proof fn lemma_count_true_mono(a: Seq<bool>, b: Seq<bool>)
    requires
        a.len() == b.len(),
        forall|k: int| 0 <= k < a.len() && #[trigger] a[k] ==> b[k],
    ensures
        count_true(a) <= count_true(b),
        (exists|k: int| 0 <= k < a.len() && b[k] && !a[k]) ==> count_true(a) < count_true(b),
    decreases a.len(),
{
    if a.len() > 0 {
        let (da, db) = (a.drop_last(), b.drop_last());
        assert forall|k: int| 0 <= k < da.len() && #[trigger] da[k] implies db[k] by {
            assert(a[k] && da[k] == a[k] && db[k] == b[k]);
        }
        lemma_count_true_mono(da, db);
        if exists|k: int| 0 <= k < a.len() && b[k] && !a[k] {
            let k = choose|k: int| 0 <= k < a.len() && b[k] && !a[k];
            if k < a.len() - 1 {
                assert(db[k] && !da[k]);
            }
        }
    }
}

/// Packing order is a strict total order on the sources.
proof fn lemma_packed_before_order(sizes: Seq<(u32, u32)>, pad_x: u32, pad_y: u32, i: int, j: int, k: int)
    ensures
        !packed_before(sizes, pad_x, pad_y, i, i),
        i != j ==> packed_before(sizes, pad_x, pad_y, i, j) || packed_before(sizes, pad_x, pad_y, j, i),
        packed_before(sizes, pad_x, pad_y, i, j) ==> !packed_before(sizes, pad_x, pad_y, j, i),
        packed_before(sizes, pad_x, pad_y, i, j) && packed_before(sizes, pad_x, pad_y, j, k)
            ==> packed_before(sizes, pad_x, pad_y, i, k),
{
}

/// A source that goes in before another has a lower rank.
proof fn lemma_rank_before(sizes: Seq<(u32, u32)>, pad_x: u32, pad_y: u32, j: int, i: int)
    requires
        0 <= i < sizes.len(),
        0 <= j < sizes.len(),
        packed_before(sizes, pad_x, pad_y, j, i),
    ensures
        pack_rank(sizes, pad_x, pad_y, j) < pack_rank(sizes, pad_x, pad_y, i),
{
    let a = Seq::new(sizes.len(), |k: int| packed_before(sizes, pad_x, pad_y, k, j));
    let b = Seq::new(sizes.len(), |k: int| packed_before(sizes, pad_x, pad_y, k, i));
    assert forall|k: int| 0 <= k < a.len() && #[trigger] a[k] implies b[k] by {
        lemma_packed_before_order(sizes, pad_x, pad_y, k, j, i);
    }
    lemma_packed_before_order(sizes, pad_x, pad_y, j, i, i);
    assert(b[j] && !a[j]);
    lemma_count_true_mono(a, b);
}

/// No two sources share a rank.
proof fn lemma_rank_distinct(sizes: Seq<(u32, u32)>, pad_x: u32, pad_y: u32, i: int, j: int)
    requires
        0 <= i < sizes.len(),
        0 <= j < sizes.len(),
        i != j,
    ensures
        pack_rank(sizes, pad_x, pad_y, i) != pack_rank(sizes, pad_x, pad_y, j),
{
    lemma_packed_before_order(sizes, pad_x, pad_y, i, j, j);
    if packed_before(sizes, pad_x, pad_y, i, j) {
        lemma_rank_before(sizes, pad_x, pad_y, i, j);
    } else {
        lemma_rank_before(sizes, pad_x, pad_y, j, i);
    }
}

/// When the placed sources are exactly those ranked below `placed`, the unplaced source that
/// nothing unplaced goes in before is the one ranked `placed`, and it is the one packed next.
proof fn lemma_next_packed(
    sizes: Seq<(u32, u32)>,
    pad_x: u32,
    pad_y: u32,
    done: Seq<bool>,
    placed: nat,
    best: int,
)
    requires
        done.len() == sizes.len(),
        count_true(done) == placed,
        forall|i: int|
            0 <= i < sizes.len() ==> (#[trigger] done[i] <==> pack_rank(sizes, pad_x, pad_y, i)
                < placed),
        0 <= best < sizes.len(),
        !done[best],
        forall|k: int|
            0 <= k < sizes.len() && !#[trigger] done[k] ==> !packed_before(
                sizes,
                pad_x,
                pad_y,
                k,
                best,
            ),
    ensures
        pack_rank(sizes, pad_x, pad_y, best) == placed,
        packed_at(sizes, pad_x, pad_y, placed as int) == best,
{
    let before = Seq::new(sizes.len(), |k: int| packed_before(sizes, pad_x, pad_y, k, best));
    assert forall|k: int| 0 <= k < sizes.len() implies before[k] == done[k] by {
        if done[k] {
            lemma_packed_before_order(sizes, pad_x, pad_y, k, best, best);
            if !packed_before(sizes, pad_x, pad_y, k, best) {
                lemma_rank_before(sizes, pad_x, pad_y, best, k);
            }
        }
    }
    assert(before =~= done);
    let c = packed_at(sizes, pad_x, pad_y, placed as int);
    assert(0 <= best < sizes.len() && pack_rank(sizes, pad_x, pad_y, best) == placed);
    if c != best {
        lemma_rank_distinct(sizes, pad_x, pad_y, c, best);
    }
}

/// Once a cell fails to fit, the pen stays failed.
proof fn lemma_shelf_pen_stays_failed(
    sizes: Seq<(u32, u32)>,
    pad_x: u32,
    pad_y: u32,
    max_dimension: u32,
    k: nat,
    m: nat,
)
    requires
        k <= m,
        !shelf_pen(sizes, pad_x, pad_y, max_dimension, k).4,
    ensures
        !shelf_pen(sizes, pad_x, pad_y, max_dimension, m).4,
    decreases m - k,
{
    if k < m {
        lemma_shelf_pen_stays_failed(sizes, pad_x, pad_y, max_dimension, k, (m - 1) as nat);
    }
}

/// The pen never goes negative.
proof fn lemma_shelf_pen_nonnegative(
    sizes: Seq<(u32, u32)>,
    pad_x: u32,
    pad_y: u32,
    max_dimension: u32,
    k: nat,
)
    ensures
        shelf_pen(sizes, pad_x, pad_y, max_dimension, k).0 >= 0,
        shelf_pen(sizes, pad_x, pad_y, max_dimension, k).1 >= 0,
        shelf_pen(sizes, pad_x, pad_y, max_dimension, k).2 >= 0,
        shelf_pen(sizes, pad_x, pad_y, max_dimension, k).3 >= 0,
    decreases k,
{
    if k > 0 {
        lemma_shelf_pen_nonnegative(sizes, pad_x, pad_y, max_dimension, (k - 1) as nat);
    }
}

/// While every cell has fitted, the widest extent covers each placed cell's width and the
/// shelves reach at least each placed cell's height.
proof fn lemma_shelf_pen_covers(
    sizes: Seq<(u32, u32)>,
    pad_x: u32,
    pad_y: u32,
    max_dimension: u32,
    k: nat,
    j: int,
)
    requires
        0 <= j < k,
        shelf_pen(sizes, pad_x, pad_y, max_dimension, k).4,
    ensures
        shelf_pen(sizes, pad_x, pad_y, max_dimension, k).3 >= cell_of(
            sizes[packed_at(sizes, pad_x, pad_y, j)],
            pad_x,
            pad_y,
        ).0,
        shelf_pen(sizes, pad_x, pad_y, max_dimension, k).1 + shelf_pen(
            sizes,
            pad_x,
            pad_y,
            max_dimension,
            k,
        ).2 >= cell_of(sizes[packed_at(sizes, pad_x, pad_y, j)], pad_x, pad_y).1,
    decreases k,
{
    let prev = shelf_pen(sizes, pad_x, pad_y, max_dimension, (k - 1) as nat);
    lemma_shelf_pen_nonnegative(sizes, pad_x, pad_y, max_dimension, (k - 1) as nat);
    assert(prev.4);
    if j < k - 1 {
        lemma_shelf_pen_covers(sizes, pad_x, pad_y, max_dimension, (k - 1) as nat, j);
    }
}

/// A source that, with its padding on both sides, exceeds the limit on either axis leaves the
/// packer with no atlas, saturation or not.
proof fn lemma_oversized_source_is_refused(
    sizes: Seq<(u32, u32)>,
    pad_x: u32,
    pad_y: u32,
    max_dimension: u32,
    i: int,
)
    requires
        0 <= i < sizes.len(),
        sizes[i].0 + pad_x + pad_x > max_dimension || sizes[i].1 + pad_y + pad_y > max_dimension,
    ensures
        atlas_size(sizes, pad_x, pad_y, max_dimension) is None,
{
    if all_fit(sizes, pad_x, pad_y, max_dimension) {
        let n = sizes.len();
        let pen = shelf_pen(sizes, pad_x, pad_y, max_dimension, n);
        if pen.4 {
            let a = Seq::new(n, |k: int| packed_before(sizes, pad_x, pad_y, k, i));
            let b = Seq::new(n, |k: int| true);
            lemma_packed_before_order(sizes, pad_x, pad_y, i, i, i);
            assert(b[i] && !a[i]);
            lemma_count_true_mono(a, b);
            lemma_count_true_bounds(b);
            let r = pack_rank(sizes, pad_x, pad_y, i);
            assert(r < n);
            let c = packed_at(sizes, pad_x, pad_y, r as int);
            assert(0 <= i < n && pack_rank(sizes, pad_x, pad_y, i) == r);
            if c != i {
                lemma_rank_distinct(sizes, pad_x, pad_y, c, i);
            }
            lemma_shelf_pen_covers(sizes, pad_x, pad_y, max_dimension, n, r as int);
        }
    }
}

/// Only one integer is the ceiling of a square root.
proof fn lemma_ceil_sqrt_unique(a: int, b: int, area: int)
    requires
        is_ceil_sqrt(a, area),
        is_ceil_sqrt(b, area),
    ensures
        a == b,
{
    if a < b {
        assert((b - 1) * (b - 1) >= a * a) by (nonlinear_arith)
            requires
                0 <= a <= b - 1,
        ;
    } else if b < a {
        assert((a - 1) * (a - 1) >= b * b) by (nonlinear_arith)
            requires
                0 <= b <= a - 1,
        ;
    }
}

/// The smallest integer whose square is at least `area`.
fn ceil_sqrt(area: u64) -> (r: u64)
    ensures
        r == ceil_sqrt_of(area as int),
        r <= 0x1_0000_0000,
{
    let mut lo: u64 = 0;
    let mut hi: u64 = 0x1_0000_0000;
    proof {
        assert(0x1_0000_0000int * 0x1_0000_0000int > u64::MAX);
    }
    while lo < hi
        invariant
            lo <= hi <= 0x1_0000_0000,
            hi * hi >= area,
            lo == 0 || (lo - 1) * (lo - 1) < area,
        decreases hi - lo,
    {
        let mid = lo + (hi - lo) / 2;
        proof {
            assert(mid * mid <= 0x1_0000_0000int * 0x1_0000_0000int) by (nonlinear_arith)
                requires
                    mid <= 0x1_0000_0000int,
            ;
        }
        let square: u128 = (mid as u128) * (mid as u128);
        if square >= area as u128 {
            hi = mid;
        } else {
            lo = mid + 1;
        }
    }
    proof {
        lemma_ceil_sqrt_unique(lo as int, ceil_sqrt_of(area as int), area as int);
    }
    lo
}

/// A shelf width that keeps the atlas roughly square: the ceiling of the square root of the
/// cells' total area, saturated to `u32`.
fn total_width_target(sizes: &[(u32, u32)], pad_x: u32, pad_y: u32) -> (r: u32)
    requires
        all_fit(sizes@, pad_x, pad_y, u32::MAX),
        cell_area(sizes@, pad_x, pad_y, sizes@.len() as int) <= u64::MAX,
    ensures
        r == width_target(sizes@, pad_x, pad_y),
{
    let mut area: u64 = 0;
    let mut i: usize = 0;
    while i < sizes.len()
        invariant
            i <= sizes@.len(),
            area == cell_area(sizes@, pad_x, pad_y, i as int),
            cell_area(sizes@, pad_x, pad_y, sizes@.len() as int) <= u64::MAX,
        decreases sizes.len() - i,
    {
        proof {
            lemma_cell_area_monotone(sizes@, pad_x, pad_y, (i + 1) as int, sizes@.len() as int);
        }
        let (w, h) = sizes[i];
        let cell_w: u64 = if (w as u64) + (pad_x as u64) > u32::MAX as u64 {
            u32::MAX as u64
        } else {
            (w as u64) + (pad_x as u64)
        };
        let cell_h: u64 = if (h as u64) + (pad_y as u64) > u32::MAX as u64 {
            u32::MAX as u64
        } else {
            (h as u64) + (pad_y as u64)
        };
        proof {
            assert(cell_w * cell_h <= 0xffff_ffff * 0xffff_ffff) by (nonlinear_arith)
                requires
                    cell_w <= 0xffff_ffff,
                    cell_h <= 0xffff_ffff,
            ;
        }
        area = area + cell_w * cell_h;
        i += 1;
    }
    let root = ceil_sqrt(area);
    if root > u32::MAX as u64 {
        u32::MAX
    } else {
        root as u32
    }
}

proof fn lemma_cell_area_monotone(sizes: Seq<(u32, u32)>, pad_x: u32, pad_y: u32, a: int, b: int)
    requires
        0 <= a <= b,
    ensures
        cell_area(sizes, pad_x, pad_y, a) <= cell_area(sizes, pad_x, pad_y, b),
    decreases b - a,
{
    if a < b {
        lemma_cell_area_monotone(sizes, pad_x, pad_y, a, b - 1);
        let cell = cell_of(sizes[b - 1], pad_x, pad_y);
        assert(cell.0 * cell.1 >= 0) by (nonlinear_arith)
            requires
                cell.0 >= 0,
                cell.1 >= 0,
        ;
    }
}

} // verus!

verus! {

/// Everything the shelf loop keeps true about the sources placed so far.
pub open spec fn shelf_invariant(
    sizes: Seq<(u32, u32)>,
    pad_x: u32,
    pad_y: u32,
    done: Seq<bool>,
    slots: Seq<AtlasSlot>,
    pen_x: int,
    pen_y: int,
    row_height: int,
    used_width: int,
) -> bool {
    &&& done.len() == sizes.len()
    &&& slots.len() == sizes.len()
    &&& pen_x <= used_width
    &&& forall|i: int|
        0 <= i < sizes.len() && #[trigger] done[i] ==> {
            let s = slots[i];
            &&& s.index == i
            &&& s.width == sizes[i].0
            &&& s.height == sizes[i].1
            &&& s.x >= pad_x
            &&& s.y >= pad_y
            &&& s.x + s.width <= used_width
            &&& s.y + s.height <= pen_y + row_height
            &&& (s.x + s.width <= pen_x || s.y + s.height <= pen_y)
        }
    &&& forall|i: int, j: int|
        0 <= i < sizes.len() && 0 <= j < sizes.len() && i != j && #[trigger] done[i]
            && #[trigger] done[j] ==> separated(slots[i], slots[j], pad_x, pad_y)
}

/// Pack `sizes` into a single atlas, keeping `pad_x`/`pad_y` of empty space around every
/// source and as a margin at the atlas edges.
///
/// Shelf packing, tallest cells first (ties by index), on a shelf as wide as the widest cell or
/// the square root of the total cell area, whichever is larger, capped at `max_dimension`.
/// Returns `None` when there is nothing to pack, when a single source cannot fit, or when the
/// shelves outgrow `max_dimension`.
pub fn pack_atlas(sizes: &[(u32, u32)], pad_x: u32, pad_y: u32, max_dimension: u32) -> (r: Option<
    AtlasPacking,
>)
    requires
        all_fit(sizes@, pad_x, pad_y, max_dimension) ==> cell_area(
            sizes@,
            pad_x,
            pad_y,
            sizes@.len() as int,
        ) <= u64::MAX,
    ensures
        sizes@.len() == 0 ==> r is None,
        !all_fit(sizes@, pad_x, pad_y, max_dimension) ==> r is None,
        r is None <==> atlas_size(sizes@, pad_x, pad_y, max_dimension) is None,
        r is Some ==> {
            let packing = r->0;
            &&& atlas_size(sizes@, pad_x, pad_y, max_dimension) == Some(
                (packing.width as int, packing.height as int),
            )
            &&& packing.slots@ == Seq::new(
                sizes@.len(),
                |i: int| packed_slot(sizes@, pad_x, pad_y, max_dimension, i),
            )
            &&& valid_packing(sizes@, pad_x, pad_y, max_dimension, packing)
        },
{
    let n = sizes.len();
    if n == 0 {
        return None;
    }
    // Every cell, with the leading margin, has to fit on its own.
    let mut i: usize = 0;
    while i < n
        invariant
            i <= n == sizes@.len(),
            forall|j: int| 0 <= j < i ==> source_fits(sizes@[j], pad_x, pad_y, max_dimension),
            forall|j: int|
                0 <= j < i ==> sizes@[j].0 + pad_x + pad_x <= max_dimension && sizes@[j].1 + pad_y
                    + pad_y <= max_dimension,
        decreases n - i,
    {
        let (w, h) = sizes[i];
        let cell_w: u64 = (w as u64) + (pad_x as u64);
        let cell_h: u64 = (h as u64) + (pad_y as u64);
        if cell_w + (pad_x as u64) > max_dimension as u64 || cell_h + (pad_y as u64)
            > max_dimension as u64 {
            proof {
                lemma_oversized_source_is_refused(sizes@, pad_x, pad_y, max_dimension, i as int);
            }
            return None;
        }
        i += 1;
    }
    assert(all_fit(sizes@, pad_x, pad_y, max_dimension));
    assert(all_fit_exactly(sizes@, pad_x, pad_y, max_dimension));

    // The shelf: the widest cell or a square-ish target, whichever is wider, within the limit.
    let mut widest: u32 = 0;
    let mut i: usize = 0;
    while i < n
        invariant
            i <= n == sizes@.len(),
            all_fit(sizes@, pad_x, pad_y, max_dimension),
            all_fit_exactly(sizes@, pad_x, pad_y, max_dimension),
            widest <= max_dimension,
            widest == widest_cell(sizes@, pad_x, pad_y, i as int),
        decreases n - i,
    {
        let cell_w = sizes[i].0 + pad_x;
        if cell_w > widest {
            widest = cell_w;
        }
        i += 1;
    }
    let target = total_width_target(sizes, pad_x, pad_y);
    let wide = if widest > target {
        widest
    } else {
        target
    };
    let shelf_width = if wide < max_dimension {
        wide
    } else {
        max_dimension
    };
    assert(shelf_width == shelf_run_width(sizes@, pad_x, pad_y, max_dimension));

    let mut done: Vec<bool> = Vec::new();
    let mut slots: Vec<AtlasSlot> = Vec::new();
    let mut i: usize = 0;
    while i < n
        invariant
            i <= n == sizes@.len(),
            done@ == Seq::new(i as nat, |j: int| false),
            slots@.len() == i,
        decreases n - i,
    {
        done.push(false);
        slots.push(AtlasSlot { index: 0, x: 0, y: 0, width: 0, height: 0 });
        i += 1;
    }
    proof {
        lemma_count_true_all_false(n as nat);
    }

    let mut pen_x: u32 = 0;
    let mut pen_y: u32 = 0;
    let mut row_height: u32 = 0;
    let mut used_width: u32 = 0;
    let mut placed: usize = 0;
    while placed < n
        invariant
            placed <= n == sizes@.len(),
            all_fit(sizes@, pad_x, pad_y, max_dimension),
            all_fit_exactly(sizes@, pad_x, pad_y, max_dimension),
            shelf_width <= max_dimension,
            shelf_width == shelf_run_width(sizes@, pad_x, pad_y, max_dimension),
            count_true(done@) == placed,
            shelf_invariant(
                sizes@,
                pad_x,
                pad_y,
                done@,
                slots@,
                pen_x as int,
                pen_y as int,
                row_height as int,
                used_width as int,
            ),
            pen_y <= max_dimension,
            row_height <= max_dimension,
            used_width <= max_dimension,
            shelf_pen(sizes@, pad_x, pad_y, max_dimension, placed as nat) == (
                pen_x as int,
                pen_y as int,
                row_height as int,
                used_width as int,
                true,
            ),
            forall|i: int|
                0 <= i < n ==> (#[trigger] done@[i] <==> pack_rank(sizes@, pad_x, pad_y, i)
                    < placed),
            forall|i: int|
                0 <= i < n && #[trigger] done@[i] ==> slots@[i] == packed_slot(
                    sizes@,
                    pad_x,
                    pad_y,
                    max_dimension,
                    i,
                ),
        decreases n - placed,
    {
        proof {
            lemma_count_true_bounds(done@);
        }
        // The tallest cell not yet placed, lowest index first among equals.
        let mut best: usize = n;
        let mut best_h: u32 = 0;
        let mut j: usize = 0;
        while j < n
            invariant
                j <= n == sizes@.len() == done@.len(),
                all_fit_exactly(sizes@, pad_x, pad_y, max_dimension),
                best == n || (best < j && !done@[best as int] && best_h == sizes@[best as int].1
                    + pad_y),
                best == n ==> forall|k: int| 0 <= k < j ==> done@[k],
                best < n ==> forall|k: int|
                    0 <= k < j && !#[trigger] done@[k] ==> !packed_before(
                        sizes@,
                        pad_x,
                        pad_y,
                        k,
                        best as int,
                    ),
            decreases n - j,
        {
            if !done[j] {
                let cell_h = sizes[j].1 + pad_y;
                if best == n || cell_h > best_h {
                    best = j;
                    best_h = cell_h;
                }
            }
            j += 1;
        }
        assert(best < n);
        let index = best;
        proof {
            lemma_next_packed(sizes@, pad_x, pad_y, done@, placed as nat, index as int);
        }
        let (w, h) = sizes[index];
        let cell_w = w + pad_x;
        let cell_h = h + pad_y;

        let ghost old_done = done@;
        let ghost old_slots = slots@;
        let ghost pen = (pen_x as int, pen_y as int, row_height as int, used_width as int, true);
        let ghost after = pen_after(sizes@, pad_x, pad_y, max_dimension, pen, index as int);
        assert(shelf_pen(sizes@, pad_x, pad_y, max_dimension, (placed + 1) as nat) == after);

        // Start a new shelf when this cell would overrun the current one.
        let run: u64 = (pen_x as u64) + (cell_w as u64);
        let run: u64 = if run > u32::MAX as u64 {
            u32::MAX as u64
        } else {
            run
        };
        if pen_x > 0 && run > shelf_width as u64 {
            let next_y: u64 = (pen_y as u64) + (row_height as u64);
            if next_y > u32::MAX as u64 {
                proof {
                    lemma_shelf_pen_stays_failed(
                        sizes@,
                        pad_x,
                        pad_y,
                        max_dimension,
                        (placed + 1) as nat,
                        n as nat,
                    );
                }
                return None;
            }
            pen_y = next_y as u32;
            pen_x = 0;
            row_height = 0;
        }
        let bottom: u64 = (pen_y as u64) + (cell_h as u64);
        let right: u64 = (pen_x as u64) + (cell_w as u64);
        if bottom > max_dimension as u64 || right > u32::MAX as u64 {
            proof {
                lemma_shelf_pen_stays_failed(
                    sizes@,
                    pad_x,
                    pad_y,
                    max_dimension,
                    (placed + 1) as nat,
                    n as nat,
                );
            }
            return None;
        }
        assert(shelf_invariant(
            sizes@,
            pad_x,
            pad_y,
            done@,
            slots@,
            pen_x as int,
            pen_y as int,
            row_height as int,
            used_width as int,
        ));
        let slot = AtlasSlot { index, x: pen_x + pad_x, y: pen_y + pad_y, width: w, height: h };
        assert(slot == packed_slot(sizes@, pad_x, pad_y, max_dimension, index as int));
        slots.set(index, slot);
        done.set(index, true);
        let ghost mid_x = pen_x as int;
        let ghost mid_y = pen_y as int;
        pen_x = pen_x + cell_w;
        if pen_x > used_width {
            used_width = pen_x;
        }
        if cell_h > row_height {
            row_height = cell_h;
        }
        proof {
            lemma_count_true_update(old_done, index as int);
            assert forall|i: int|
                0 <= i < sizes@.len() && #[trigger] done@[i] implies {
                let s = slots@[i];
                &&& s.index == i
                &&& s.width == sizes@[i].0
                &&& s.height == sizes@[i].1
                &&& s.x >= pad_x
                &&& s.y >= pad_y
                &&& s.x + s.width <= used_width
                &&& s.y + s.height <= pen_y + row_height
                &&& (s.x + s.width <= pen_x || s.y + s.height <= pen_y)
            } by {
                if i != index {
                    assert(old_done[i]);
                    assert(slots@[i] == old_slots[i]);
                }
            }
            assert forall|a: int, b: int|
                0 <= a < sizes@.len() && 0 <= b < sizes@.len() && a != b && #[trigger] done@[a]
                    && #[trigger] done@[b] implies separated(slots@[a], slots@[b], pad_x, pad_y) by {
                if a != index && b != index {
                    assert(old_done[a] && old_done[b]);
                    assert(slots@[a] == old_slots[a]);
                    assert(slots@[b] == old_slots[b]);
                } else if a == index {
                    assert(old_done[b]);
                    assert(slots@[b] == old_slots[b]);
                    let s = old_slots[b];
                    assert(s.x + s.width <= mid_x || s.y + s.height <= mid_y);
                } else {
                    assert(old_done[a]);
                    assert(slots@[a] == old_slots[a]);
                    let s = old_slots[a];
                    assert(s.x + s.width <= mid_x || s.y + s.height <= mid_y);
                }
            }
            assert forall|i: int| 0 <= i < n implies (#[trigger] done@[i] <==> pack_rank(
                sizes@,
                pad_x,
                pad_y,
                i,
            ) < placed + 1) by {
                if i != index {
                    lemma_rank_distinct(sizes@, pad_x, pad_y, i, index as int);
                    assert(done@[i] == old_done[i]);
                }
            }
            assert forall|i: int| 0 <= i < n && #[trigger] done@[i] implies slots@[i] == packed_slot(
                sizes@,
                pad_x,
                pad_y,
                max_dimension,
                i,
            ) by {
                if i != index {
                    assert(old_done[i]);
                    assert(slots@[i] == old_slots[i]);
                }
            }
        }
        placed += 1;
    }
    proof {
        lemma_count_true_bounds(done@);
    }

    // Every cell brought its trailing gap; only the leading margin is still missing.
    let width: u64 = (used_width as u64) + (pad_x as u64);
    let height: u64 = (pen_y as u64) + (row_height as u64) + (pad_y as u64);
    if width > max_dimension as u64 || height > max_dimension as u64 {
        return None;
    }
    let packing = AtlasPacking { width: width as u32, height: height as u32, slots };
    proof {
        assert forall|i: int| 0 <= i < sizes@.len() implies slot_placed(
            #[trigger] packing.slots@[i],
            i,
            sizes@,
            pad_x,
            pad_y,
            packing.width as int,
            packing.height as int,
        ) by {
            assert(done@[i]);
        }
        assert forall|i: int, j: int|
            0 <= i < sizes@.len() && 0 <= j < sizes@.len() && i != j implies separated(
            #[trigger] packing.slots@[i],
            #[trigger] packing.slots@[j],
            pad_x,
            pad_y,
        ) by {
            assert(done@[i] && done@[j]);
        }
        assert forall|i: int| 0 <= i < sizes@.len() implies packing.slots@[i] == packed_slot(
            sizes@,
            pad_x,
            pad_y,
            max_dimension,
            i,
        ) by {
            assert(done@[i]);
        }
        assert(packing.slots@ =~= Seq::new(
            sizes@.len(),
            |i: int| packed_slot(sizes@, pad_x, pad_y, max_dimension, i),
        ));
    }
    Some(packing)
}

} // verus!
