use aether_render::atlas::{
    draws_handle, pack_atlas, plan_atlas_group, plan_cache_entry_groups, BlurKey, DrawnCommand,
};

fn key(x: f32, passes: u8) -> Option<BlurKey> {
    Some(BlurKey {
        blur_x_bits: x.to_bits(),
        blur_y_bits: x.to_bits(),
        passes,
    })
}

/// A conflict table in which entry `a` draws entry `b` exactly for the listed pairs.
fn conflicts(count: usize, pairs: &[(usize, usize)]) -> Vec<Vec<bool>> {
    let mut table = vec![vec![false; count]; count];
    for &(a, b) in pairs {
        table[a][b] = true;
    }
    table
}

#[test]
fn packed_sources_never_come_within_the_padding_of_each_other() {
    let sizes = [
        (100, 50),
        (30, 200),
        (75, 75),
        (10, 10),
        (200, 30),
        (64, 64),
        (128, 96),
        (5, 300),
    ];
    let (pad_x, pad_y) = (24, 24);
    let packing = pack_atlas(&sizes, pad_x, pad_y, 4096).expect("this group fits easily");

    assert_eq!(packing.slots.len(), sizes.len());
    for (i, slot) in packing.slots.iter().enumerate() {
        assert_eq!(slot.index, i, "slots come back in the caller's order");
        assert_eq!((slot.width, slot.height), sizes[i]);
        assert!(
            slot.x >= pad_x && slot.y >= pad_y,
            "slot {i} touches the edge"
        );
        assert!(
            slot.x + slot.width + pad_x <= packing.width,
            "slot {i} overruns"
        );
        assert!(
            slot.y + slot.height + pad_y <= packing.height,
            "slot {i} overruns"
        );
    }

    for a in &packing.slots {
        for b in &packing.slots {
            if a.index >= b.index {
                continue;
            }
            let clear_x = a.x + a.width + pad_x <= b.x || b.x + b.width + pad_x <= a.x;
            let clear_y = a.y + a.height + pad_y <= b.y || b.y + b.height + pad_y <= a.y;
            assert!(
                clear_x || clear_y,
                "slots {} and {} are close enough to bleed: {a:?} {b:?}",
                a.index,
                b.index
            );
        }
    }
}

#[test]
fn a_single_source_still_packs_with_its_margin() {
    let packing = pack_atlas(&[(100, 40)], 8, 3, 4096).unwrap();
    assert_eq!(packing.slots[0].x, 8);
    assert_eq!(packing.slots[0].y, 3);
    assert_eq!(packing.width, 116);
    assert_eq!(packing.height, 46);
}

#[test]
fn a_group_that_cannot_fit_declines_rather_than_overlapping() {
    assert_eq!(pack_atlas(&[], 8, 8, 4096), None);
    assert_eq!(pack_atlas(&[(500, 500)], 8, 8, 512), None);
    let many = vec![(200, 200); 64];
    assert_eq!(pack_atlas(&many, 24, 24, 512), None);
}

#[test]
fn zero_padding_still_packs_without_overlap() {
    let sizes = [(10, 10), (10, 10), (10, 10)];
    let packing = pack_atlas(&sizes, 0, 0, 4096).unwrap();
    for a in &packing.slots {
        for b in &packing.slots {
            if a.index >= b.index {
                continue;
            }
            let disjoint = a.x + a.width <= b.x
                || b.x + b.width <= a.x
                || a.y + a.height <= b.y
                || b.y + b.height <= a.y;
            assert!(disjoint, "{a:?} overlaps {b:?}");
        }
    }
}

#[test]
fn packing_is_deterministic_for_equal_sized_sources() {
    let sizes = vec![(64, 64); 9];
    let first = pack_atlas(&sizes, 4, 4, 4096).unwrap();
    let second = pack_atlas(&sizes, 4, 4, 4096).unwrap();
    assert_eq!(first, second);
}

#[test]
fn the_tallest_source_is_shelved_first_and_rows_wrap_at_the_shelf() {
    // Cells of 20x20 with a total area of 1600 make a 40-wide shelf, so two fit per row.
    let sizes = [(10, 10), (10, 10), (10, 10), (10, 10)];
    let packing = pack_atlas(&sizes, 10, 10, 4096).unwrap();
    let positions: Vec<(u32, u32)> = packing.slots.iter().map(|s| (s.x, s.y)).collect();
    assert_eq!(positions, vec![(10, 10), (30, 10), (10, 30), (30, 30)]);
    assert_eq!((packing.width, packing.height), (50, 50));

    // A taller source goes first even when it is listed last.
    let packing = pack_atlas(&[(10, 10), (10, 40)], 0, 0, 4096).unwrap();
    assert_eq!((packing.slots[1].x, packing.slots[1].y), (0, 0));
    assert_eq!(packing.slots[1].index, 1);
}

#[test]
fn a_cell_wider_than_the_square_target_sets_the_shelf() {
    // Cells 10x20 and 30x10: the area target is 23, the widest cell 30, so the second cell
    // would run to 40 and starts a new shelf under the first.
    let packing = pack_atlas(&[(10, 20), (30, 10)], 0, 0, 4096).unwrap();
    let positions: Vec<(u32, u32)> = packing.slots.iter().map(|s| (s.x, s.y)).collect();
    assert_eq!(positions, vec![(0, 0), (0, 20)]);
    assert_eq!((packing.width, packing.height), (30, 30));

    // A limit narrower than the wide cell declines the group.
    assert_eq!(pack_atlas(&[(10, 20), (30, 10)], 0, 0, 29), None);
}

#[test]
fn a_group_runs_while_the_kernel_matches_and_stops_when_it_changes() {
    let keys = [key(17.0, 3), key(17.0, 3), key(17.0, 3), key(8.0, 3)];
    let len = plan_atlas_group(keys.len(), &keys, &conflicts(4, &[]), 8);
    assert_eq!(len, 3, "the fourth entry has a different radius");

    let keys = [key(17.0, 3), key(17.0, 1)];
    assert_eq!(plan_atlas_group(2, &keys, &conflicts(2, &[]), 8), 1);
}

#[test]
fn an_entry_without_a_shareable_blur_is_never_grouped() {
    let keys = [None, key(17.0, 3), key(17.0, 3)];
    assert_eq!(plan_atlas_group(3, &keys, &conflicts(3, &[]), 8), 1);
}

#[test]
fn a_group_stops_before_an_entry_that_draws_a_members_texture() {
    let keys = [key(17.0, 3), key(17.0, 3), key(17.0, 3)];
    // Entry 2 draws entry 0's texture.
    let len = plan_atlas_group(3, &keys, &conflicts(3, &[(2, 0)]), 8);
    assert_eq!(len, 2);

    // The dependency the other way round closes it just the same.
    let len = plan_atlas_group(3, &keys, &conflicts(3, &[(0, 2)]), 8);
    assert_eq!(len, 2);

    // A conflict on the very first candidate leaves no group at all.
    let len = plan_atlas_group(3, &keys, &conflicts(3, &[(1, 0)]), 8);
    assert_eq!(len, 1);
}

#[test]
fn the_group_never_exceeds_its_cap() {
    let keys = vec![key(17.0, 3); 40];
    assert_eq!(plan_atlas_group(40, &keys, &conflicts(40, &[]), 8), 8);
    assert_eq!(plan_atlas_group(40, &keys, &conflicts(40, &[]), 1), 1);
    assert_eq!(plan_atlas_group(0, &[], &conflicts(0, &[]), 8), 0);
}

#[test]
fn cache_entries_split_into_runs_that_cover_them_in_order() {
    let (a, b) = (key(4.0, 1), key(8.0, 2));
    let keys = [a, a, b, b, b, None];
    let table = conflicts(keys.len(), &[]);
    assert_eq!(plan_cache_entry_groups(&keys, &table, true, 8), vec![2, 3, 1]);
    assert_eq!(plan_cache_entry_groups(&keys, &table, true, 2), vec![2, 2, 1, 1]);
    // With the atlas off every entry is filtered on its own.
    assert_eq!(plan_cache_entry_groups(&keys, &table, false, 8), vec![1; 6]);
    assert_eq!(plan_cache_entry_groups(&[], &conflicts(0, &[]), true, 8), Vec::<usize>::new());
}

#[test]
fn an_entry_that_draws_an_earlier_one_starts_a_new_run() {
    let a = key(4.0, 1);
    let keys = [a, a, a, a];
    // Entry 1 draws entry 0's texture, so they cannot share an atlas.
    let table = conflicts(keys.len(), &[(1, 0)]);
    assert_eq!(plan_cache_entry_groups(&keys, &table, true, 8), vec![1, 3]);
}

// Bitmap handles are told apart by identity; these stand for two distinct textures.
const WANTED: u64 = 0x10;
const OTHER_HANDLE: u64 = 0x20;

fn render_bitmap(handle: u64) -> DrawnCommand {
    DrawnCommand::Bitmap { handle }
}

#[test]
fn a_drawn_handle_is_found_at_any_depth() {
    assert!(!draws_handle(&vec![], WANTED));
    assert!(!draws_handle(&vec![render_bitmap(OTHER_HANDLE)], WANTED));
    assert!(draws_handle(&vec![render_bitmap(WANTED)], WANTED));

    // Inside a blend.
    let nested = vec![DrawnCommand::Blend {
        commands: vec![render_bitmap(WANTED)],
    }];
    assert!(draws_handle(&nested, WANTED));

    // Inside both halves of a mask, and in neither.
    let maskee = vec![DrawnCommand::AlphaMask {
        maskee: vec![render_bitmap(WANTED)],
        mask: vec![],
    }];
    assert!(draws_handle(&maskee, WANTED));
    let masker = vec![DrawnCommand::AlphaMask {
        maskee: vec![],
        mask: vec![render_bitmap(WANTED)],
    }];
    assert!(draws_handle(&masker, WANTED));
    let neither = vec![DrawnCommand::AlphaMask {
        maskee: vec![render_bitmap(OTHER_HANDLE)],
        mask: vec![],
    }];
    assert!(!draws_handle(&neither, WANTED));
}

#[test]
fn distinct_handles_are_not_confused_with_each_other() {
    assert!(!draws_handle(&vec![render_bitmap(OTHER_HANDLE)], WANTED));
    assert!(draws_handle(&vec![render_bitmap(WANTED)], WANTED));
}

#[test]
fn leaves_after_a_deep_match_do_not_hide_it() {
    let deep = vec![
        DrawnCommand::Leaf,
        DrawnCommand::Blend {
            commands: vec![
                DrawnCommand::Leaf,
                DrawnCommand::AlphaMask {
                    maskee: vec![DrawnCommand::Blend {
                        commands: vec![render_bitmap(WANTED)],
                    }],
                    mask: vec![DrawnCommand::Leaf],
                },
            ],
        },
        DrawnCommand::Leaf,
    ];
    assert!(draws_handle(&deep, WANTED));
    assert!(!draws_handle(&deep, OTHER_HANDLE));
}

#[test]
fn a_source_whose_padding_passes_u32_is_refused_even_without_a_limit() {
    assert!(pack_atlas(&[(u32::MAX - 1, 1)], 2, 2, u32::MAX).is_none());
    assert!(pack_atlas(&[(10, u32::MAX - 3)], 1, 2, u32::MAX).is_none());
}
