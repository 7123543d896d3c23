//! Which objects' commands may be drawn together in one pass, into slots of one shared surface.
//!
//! The bar is that a member's commands stay one run of plain draws. A blend composites against
//! the whole target, which on a shared surface is the neighbours; alpha masks and Stage3D have
//! machinery of their own; a perspective projection does not commute with moving the member into
//! its slot. Masks may be shared only if they balance: a stencil left standing would clip
//! whoever draws next.
use vstd::prelude::*;

verus! {

/// What grouping reads of a draw command: its kind, and for a bitmap or a shape whether its
/// transform carries a perspective projection.
#[derive(Clone, Copy, Debug, PartialEq, Eq, Structural)]
pub enum GroupedCommand {
    RenderBitmap { perspective: bool },
    RenderStage3D,
    RenderShape { perspective: bool },
    RenderAlphaMask,
    DrawRect,
    DrawLine,
    DrawLineRect,
    PushMask,
    ActivateMask,
    DeactivateMask,
    PopMask,
    Blend,
}

/// How many masks stand after the first `n` commands: pushes less pops.
pub open spec fn mask_depth(commands: Seq<GroupedCommand>, n: int) -> int
    decreases n,
{
    if n <= 0 {
        0
    } else {
        mask_depth(commands, n - 1) + match commands[n - 1] {
            GroupedCommand::PushMask => 1int,
            GroupedCommand::PopMask => -1int,
            _ => 0int,
        }
    }
}

/// Whether command `i` may be drawn on a shared surface: a plain draw without perspective, a
/// mask step, or a pop that closes a mask pushed before it.
pub open spec fn command_groupable(commands: Seq<GroupedCommand>, i: int) -> bool {
    match commands[i] {
        GroupedCommand::RenderBitmap { perspective } => !perspective,
        GroupedCommand::RenderShape { perspective } => !perspective,
        GroupedCommand::DrawRect => true,
        GroupedCommand::DrawLine => true,
        GroupedCommand::DrawLineRect => true,
        GroupedCommand::PushMask => true,
        GroupedCommand::ActivateMask => true,
        GroupedCommand::DeactivateMask => true,
        GroupedCommand::PopMask => mask_depth(commands, i + 1) >= 0,
        GroupedCommand::RenderStage3D => false,
        GroupedCommand::RenderAlphaMask => false,
        GroupedCommand::Blend => false,
    }
}

/// Whether these commands can share one render pass with other members' contents: every
/// command may, and every mask pushed is popped again.
pub open spec fn groupable(commands: Seq<GroupedCommand>) -> bool {
    &&& forall|i: int| 0 <= i < commands.len() ==> #[trigger] command_groupable(commands, i)
    &&& mask_depth(commands, commands.len() as int) == 0
}

/// Whether these commands can share one render pass with other members' contents.
pub fn commands_are_groupable(commands: &[GroupedCommand]) -> (r: bool)
    ensures
        r == groupable(commands@),
{
    let n = commands.len();
    let mut depth: usize = 0;
    let mut i: usize = 0;
    while i < n
        invariant
            i <= n == commands@.len(),
            depth == mask_depth(commands@, i as int),
            depth <= i,
            forall|j: int| 0 <= j < i ==> #[trigger] command_groupable(commands@, j),
        decreases n - i,
    {
        let ok = match commands[i] {
            GroupedCommand::RenderBitmap { perspective } => !perspective,
            GroupedCommand::RenderShape { perspective } => !perspective,
            GroupedCommand::DrawRect | GroupedCommand::DrawLine | GroupedCommand::DrawLineRect => {
                true
            },
            GroupedCommand::PushMask => {
                depth = depth + 1;
                true
            },
            GroupedCommand::PopMask => {
                if depth == 0 {
                    false
                } else {
                    depth = depth - 1;
                    true
                }
            },
            GroupedCommand::ActivateMask | GroupedCommand::DeactivateMask => true,
            GroupedCommand::RenderStage3D | GroupedCommand::RenderAlphaMask
            | GroupedCommand::Blend => false,
        };
        if !ok {
            assert(!command_groupable(commands@, i as int));
            return false;
        }
        i += 1;
    }
    depth == 0
}

} // verus!
