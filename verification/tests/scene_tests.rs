use ruspar::geom::{Quat, Room, Vec3};
use ruspar::hrtf::{apply_hrtf_selection, sync_prev_to_curr, FilterTree};
use ruspar::ism::{create_source_tree, update_source_tree, Listener, SphericalCoordinates};
use ruspar::mailbox::SnapshotSlot;
use ruspar::renderer::{next_state, RendererEvent, RendererState};
use ruspar::scene::{update_scene, update_scene_parameters, Snapshot, Transform};

fn snapshot_with_listener_x(x: i64) -> Snapshot {
    Snapshot {
        room: Room::new(4000, 3000, 5000),
        listener: Transform {
            position: Vec3::new(x, 1500, 2500),
            orientation: Quat::identity(),
        },
        sources: vec![Transform {
            position: Vec3::new(1000, 1500, 2500),
            orientation: Quat::identity(),
        }],
    }
}

// The mailbox keeps the latest snapshot only: a burst of publishes is
// consumed as exactly one snapshot, the last, with no backpressure.
#[test]
fn mailbox_keeps_latest_of_a_burst() {
    let mut slot = SnapshotSlot::new();
    for i in 0..1000 {
        slot.publish(snapshot_with_listener_x(i));
    }
    let got = slot.try_consume().expect("one snapshot must be pending");
    assert_eq!(got.listener.position.x, 999);
    assert!(slot.try_consume().is_none());
}

// HRTF selection: after an update the current id answers the nearest
// query and the previous id is the current id from before the update.
#[test]
fn hrtf_selection_three_entries() {
    let mut tree_idx = FilterTree::new();
    tree_idx.add(666_000, 420_000, 0); // sentinel
    tree_idx.add(0, 0, 1);
    tree_idx.add(90_000, 0, 2);

    assert_eq!(tree_idx.find_closest_stereo_filter_angle(5_000, 0), 1);
    assert_eq!(tree_idx.find_closest_stereo_filter_angle(80_000, 10_000), 2);

    let room = Room::new(4000, 3000, 5000);
    let mut tree = create_source_tree(Vec3::new(1000, 1500, 2500), &room, 0);
    let angles = vec![SphericalCoordinates::new(2_000, 0)];
    apply_hrtf_selection(&mut tree, &angles, &tree_idx);
    assert_eq!(tree.nodes[0].curr_hrtf_id, 1);
    assert_eq!(tree.nodes[0].prev_hrtf_id, 0);

    // Same angles again: current id unchanged, previous follows it.
    let angles2 = vec![SphericalCoordinates::new(2_000, 0)];
    apply_hrtf_selection(&mut tree, &angles2, &tree_idx);
    assert_eq!(tree.nodes[0].curr_hrtf_id, 1);
    assert_eq!(tree.nodes[0].prev_hrtf_id, 1);

    // A swing towards the second entry moves current and parks the old
    // current in previous.
    let angles3 = vec![SphericalCoordinates::new(88_000, 0)];
    apply_hrtf_selection(&mut tree, &angles3, &tree_idx);
    assert_eq!(tree.nodes[0].curr_hrtf_id, 2);
    assert_eq!(tree.nodes[0].prev_hrtf_id, 1);

    sync_prev_to_curr(&mut tree);
    assert_eq!(tree.nodes[0].prev_hrtf_id, 2);
}

// A full snapshot application updates every tree of the forest.
#[test]
fn snapshot_application_updates_forest() {
    let snap = snapshot_with_listener_x(2000);
    let mut forest = ruspar::ism::SourceTrees::create(1, 2);
    update_scene(&snap, &mut forest);
    let tree = &forest.trees[0];
    assert_eq!(tree.nodes[0].position, Vec3::new(1000, 1500, 2500));
    assert_eq!(tree.nodes[0].dist, 1000);
    assert_eq!(tree.nodes[1].dist, 3000);

    // Determinism: a second identical application changes nothing.
    let before = forest.trees[0].clone();
    update_scene(&snap, &mut forest);
    assert_eq!(forest.trees[0], before);
}

// The listener-frame direction of each source: the identity keeps the
// relative position, a half turn about the vertical axis negates the
// horizontal components exactly.
#[test]
fn listener_frame_directions() {
    let snap = snapshot_with_listener_x(2000);
    let dirs = update_scene_parameters(&snap);
    assert_eq!(dirs.len(), 1);
    assert_eq!(dirs[0], Vec3::new(-1000, 0, 0));

    let mut turned = snapshot_with_listener_x(2000);
    turned.listener.orientation = Quat::new(0, 0, 16384, 0);
    let dirs2 = update_scene_parameters(&turned);
    assert_eq!(dirs2[0], Vec3::new(1000, 0, 0));
}

// The renderer arms on device open, starts on the first snapshot, and
// an empty mailbox never changes its state.
#[test]
fn renderer_lifecycle() {
    let s0 = RendererState::Uninitialized;
    let s1 = next_state(s0, RendererEvent::DeviceOpened);
    assert_eq!(s1, RendererState::WaitingForFirstSnapshot);
    let s1b = next_state(s1, RendererEvent::NoSnapshot);
    assert_eq!(s1b, RendererState::WaitingForFirstSnapshot);
    let s2 = next_state(s1, RendererEvent::SnapshotApplied);
    assert_eq!(s2, RendererState::Running);
    assert_eq!(next_state(s2, RendererEvent::NoSnapshot), RendererState::Running);
    assert_eq!(next_state(s2, RendererEvent::SnapshotApplied), RendererState::Running);
}

// A listener teleport that brings an image closer than its parent
// floors the remaining distance at zero instead of going negative.
#[test]
fn remaining_distance_floors_at_zero() {
    let room = Room::new(4000, 3000, 5000);
    let listener = Listener {
        position: Vec3::new(-1000, 1500, 2500),
        orientation: Quat::identity(),
    };
    let src = Vec3::new(1000, 1500, 2500);
    let mut tree = create_source_tree(src, &room, 1);
    update_source_tree(&mut tree, src, &room, &listener);
    // The X0 image sits exactly on this listener: dist 0, parent 2 m.
    assert_eq!(tree.nodes[1].position, Vec3::new(-1000, 1500, 2500));
    assert_eq!(tree.nodes[1].dist, 0);
    assert_eq!(tree.nodes[1].remaining_dist, 0);
}
