use aether_render::content_grouping::{commands_are_groupable, GroupedCommand};

#[test]
fn an_unbalanced_mask_is_refused() {
    let dangling = [
        GroupedCommand::PushMask,
        GroupedCommand::ActivateMask,
        GroupedCommand::DrawRect,
    ];
    assert!(!commands_are_groupable(&dangling));

    let extra_pop = [GroupedCommand::PopMask];
    assert!(!commands_are_groupable(&extra_pop));
}

#[test]
fn blends_and_perspective_are_refused_but_masks_are_not() {
    let plain = [
        GroupedCommand::PushMask,
        GroupedCommand::DrawRect,
        GroupedCommand::PopMask,
    ];
    assert!(commands_are_groupable(&plain));

    let blended = [GroupedCommand::Blend];
    assert!(!commands_are_groupable(&blended));

    let perspective = [GroupedCommand::RenderShape { perspective: true }];
    assert!(!commands_are_groupable(&perspective));
}

#[test]
fn nested_masks_group_when_every_one_closes() {
    let nested = [
        GroupedCommand::PushMask,
        GroupedCommand::DrawRect,
        GroupedCommand::ActivateMask,
        GroupedCommand::PushMask,
        GroupedCommand::RenderBitmap { perspective: false },
        GroupedCommand::ActivateMask,
        GroupedCommand::RenderShape { perspective: false },
        GroupedCommand::DeactivateMask,
        GroupedCommand::PopMask,
        GroupedCommand::DeactivateMask,
        GroupedCommand::PopMask,
        GroupedCommand::DrawLine,
        GroupedCommand::DrawLineRect,
    ];
    assert!(commands_are_groupable(&nested));
    assert!(commands_are_groupable(&[]));

    // A pop that comes before its push is refused even though the count ends at zero.
    let early_pop = [GroupedCommand::PopMask, GroupedCommand::PushMask];
    assert!(!commands_are_groupable(&early_pop));

    for refused in [GroupedCommand::RenderStage3D, GroupedCommand::RenderAlphaMask] {
        assert!(!commands_are_groupable(&[GroupedCommand::DrawRect, refused]));
    }
}
