use aether_render::bitmap_cache::{Avm2LifecycleDirty, Avm2LifecycleTraversal};
use aether_render::orphan_manager::OrphanManager;

// Each object is known by its address; the entry stands for the weak handle the list keeps.
const CONTENT: usize = 0x1000;
const OTHER: usize = 0x2000;

#[test]
fn explicitly_removed_loader_content_stops_orphan_processing() {
    let mut manager: OrphanManager<&str> = OrphanManager::default();

    manager.add_orphan_obj(CONTENT, "content", &mut Vec::new());
    assert_eq!(manager.len(), 1);

    assert!(manager.remove_orphan_obj(CONTENT));
    assert_eq!(manager.len(), 0);
    assert!(!manager.remove_orphan_obj(CONTENT));
}

#[test]
fn an_object_is_listed_once_however_often_it_is_offered() {
    let mut manager: OrphanManager<&str> = OrphanManager::default();

    manager.add_orphan_obj(CONTENT, "content", &mut Vec::new());
    manager.add_orphan_obj(CONTENT, "content", &mut Vec::new());
    manager.add_orphan_obj(CONTENT, "content", &mut Vec::new());
    assert_eq!(manager.len(), 1);
    assert!(manager.contains(CONTENT));
    assert!(!manager.contains(OTHER));

    manager.add_orphan_obj(OTHER, "other", &mut Vec::new());
    assert_eq!(manager.len(), 2);

    // Removing one leaves the other, and the set agrees with the list.
    assert!(manager.remove_orphan_obj(CONTENT));
    assert_eq!(manager.len(), 1);
    assert!(!manager.contains(CONTENT));
    assert!(manager.contains(OTHER));

    // And it can be added back, which a stale set entry would prevent.
    manager.add_orphan_obj(CONTENT, "content", &mut Vec::new());
    assert_eq!(manager.len(), 2);
    assert_eq!(*manager.orphan(0), (OTHER, "other"));
    assert_eq!(*manager.orphan(1), (CONTENT, "content"));
}

#[test]
fn cleanup_keeps_the_survivors_in_order_and_forgets_the_rest() {
    let mut manager: OrphanManager<u32> = OrphanManager::new();
    for key in 1..=5 {
        manager.add_orphan_obj(key, key as u32 * 10, &mut Vec::new());
    }
    manager.cleanup_dead_orphans(&[true, false, true, false, true]);
    assert_eq!(manager.len(), 3);
    let listed: Vec<(usize, u32)> = (0..manager.len()).map(|i| *manager.orphan(i)).collect();
    assert_eq!(listed, vec![(1, 10), (3, 30), (5, 50)]);
    assert!(!manager.contains(2));
    assert!(!manager.contains(4));

    // A dropped object can be listed again, at the end.
    manager.add_orphan_obj(2, 20, &mut Vec::new());
    assert_eq!(*manager.orphan(3), (2, 20));
}

#[test]
fn an_orphaned_object_and_its_ancestors_are_marked_for_every_walk() {
    const WALKS: [Avm2LifecycleTraversal; 3] = [
        Avm2LifecycleTraversal::Enter,
        Avm2LifecycleTraversal::Construct,
        Avm2LifecycleTraversal::FrameScripts,
    ];
    let mut chain = vec![Avm2LifecycleDirty::new(), Avm2LifecycleDirty::new()];
    for summary in chain.iter_mut() {
        for walk in WALKS {
            summary.begin_avm2_lifecycle_traversal(walk);
        }
    }
    let mut manager: OrphanManager<u32> = OrphanManager::new();
    manager.add_orphan_obj(CONTENT, 1, &mut chain);
    for summary in &chain {
        for walk in WALKS {
            assert!(summary.is_avm2_lifecycle_dirty(walk));
        }
    }

    // Offered again, it is not listed twice but is still marked.
    for summary in chain.iter_mut() {
        summary.begin_avm2_lifecycle_traversal(Avm2LifecycleTraversal::Construct);
    }
    manager.add_orphan_obj(CONTENT, 1, &mut chain);
    assert_eq!(manager.len(), 1);
    assert!(chain[1].is_avm2_lifecycle_dirty(Avm2LifecycleTraversal::Construct));
}
