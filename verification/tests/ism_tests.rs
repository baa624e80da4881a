use ruspar::geom::{Room, Vec3};
use ruspar::ism::{
    create_source_tree, is_per_model, update_source_tree, Listener, SourceTrees,
};
use ruspar::geom::Quat;

fn default_listener() -> Listener {
    Listener {
        position: Vec3::new(0, 0, 0),
        orientation: Quat::identity(),
    }
}

#[test]
fn test_ism_tree_creation() {
    let ism_order: usize = 3;
    let room: Room = Room::new(4000, 3000, 5000);
    let ssrc = Vec3::new(2000, 1000, 2000);
    let ssrc2 = Vec3::new(1000, 2000, 3000);

    let tree1 = create_source_tree(ssrc, &room, ism_order);
    let tree2 = create_source_tree(ssrc2, &room, ism_order);

    for (i, node) in tree1.nodes.iter().enumerate() {
        println!("Nr.: {}, {:?}", i, node.position);
    }
    for (i, node) in tree2.nodes.iter().enumerate() {
        println!("Nr.: {}, {:?}", i, node.position);
    }
    assert_eq!(tree1.nodes.len(), 187);
    assert_eq!(tree2.nodes.len(), 187);
}

#[test]
fn test_ism_tree_update() {
    let ism_order: usize = 3;
    let room: Room = Room::new(4000, 3000, 5000);
    let listener = default_listener();
    let ssrc = Vec3::new(2000, 1000, 2000);
    let ssrc2 = Vec3::new(1000, 2000, 3000);

    let mut tree = create_source_tree(ssrc, &room, ism_order);
    for (i, node) in tree.nodes.iter().enumerate() {
        println!("Nr.: {}, {:?}", i, node.position);
    }
    update_source_tree(&mut tree, ssrc2, &room, &listener);
    for (i, node) in tree.nodes.iter().enumerate() {
        println!("Nr.: {}, {:?}", i, node.position);
    }
    assert_eq!(tree.nodes[0].position, ssrc2);
}

#[test]
fn image_source_method_test_vector3() {
    let v1 = Vec3::new(3000, 4000, 0);
    let v2 = Vec3::new(0, 0, 0);
    println!("{:?}", ruspar::geom::calc_distance(&v1, &v2));
    assert_eq!(ruspar::geom::calc_distance(&v1, &v2), 5000);
}

#[test]
fn n_is_pm() {
    let n = is_per_model(1, 6);
    println!("N of sources: {}", n);
    assert_eq!(n, 6);
}

#[test]
fn is_per_model_counts_match_tree_levels() {
    assert_eq!(is_per_model(1, 6), 6);
    assert_eq!(is_per_model(2, 6), 36);
    assert_eq!(is_per_model(3, 6), 186);
}

// Image order 0: the tree holds exactly one node per real source.
#[test]
fn order_zero_tree_is_single_node() {
    let room = Room::new(4000, 3000, 5000);
    let tree = create_source_tree(Vec3::new(1000, 1000, 1000), &room, 0);
    assert_eq!(tree.nodes.len(), 1);
    let forest = SourceTrees::create(3, 0);
    assert_eq!(forest.trees.len(), 3);
    for t in forest.trees.iter() {
        assert_eq!(t.nodes.len(), 1);
    }
}

// Boundary mirror algebra: the six first-order images of (1,1,1) in a
// 4 x 3 x 5 room, and the agreement of the two second-order images that
// mirror across two different boundaries in either order.
#[test]
fn first_order_images_are_exact() {
    let room = Room::new(4000, 3000, 5000);
    let tree = create_source_tree(Vec3::new(1000, 1000, 1000), &room, 2);
    assert_eq!(tree.nodes[1].position, Vec3::new(-1000, 1000, 1000));
    assert_eq!(tree.nodes[2].position, Vec3::new(7000, 1000, 1000));
    assert_eq!(tree.nodes[3].position, Vec3::new(1000, -1000, 1000));
    assert_eq!(tree.nodes[4].position, Vec3::new(1000, 5000, 1000));
    assert_eq!(tree.nodes[5].position, Vec3::new(1000, 1000, -1000));
    assert_eq!(tree.nodes[6].position, Vec3::new(1000, 1000, 9000));
    // X0 then Y0 (node 8) meets Y0 then X0 (node 17).
    assert_eq!(tree.nodes[8].position, Vec3::new(-1000, -1000, 1000));
    assert_eq!(tree.nodes[8].position, tree.nodes[17].position);
}

// Applying the same snapshot twice in succession leaves positions,
// distances, remaining distances and HRTF ids exactly as they were.
#[test]
fn repeated_update_is_idempotent() {
    let room = Room::new(4000, 3000, 5000);
    let listener = Listener {
        position: Vec3::new(2000, 1500, 2500),
        orientation: Quat::identity(),
    };
    let src = Vec3::new(1000, 1500, 2500);
    let mut tree = create_source_tree(src, &room, 2);
    update_source_tree(&mut tree, src, &room, &listener);
    let first = tree.clone();
    update_source_tree(&mut tree, src, &room, &listener);
    assert_eq!(tree.nodes.len(), first.nodes.len());
    for (a, b) in tree.nodes.iter().zip(first.nodes.iter()) {
        assert_eq!(a.position, b.position);
        assert_eq!(a.dist, b.dist);
        assert_eq!(a.remaining_dist, b.remaining_dist);
        assert_eq!(a.curr_hrtf_id, b.curr_hrtf_id);
        assert_eq!(a.prev_hrtf_id, b.prev_hrtf_id);
    }
}

// Per-hop remaining distances along a path add up to the node's total
// distance, and a source at the listener keeps every remaining
// distance at zero or above.
#[test]
fn remaining_distances_telescope() {
    let room = Room::new(4000, 3000, 5000);
    let listener = Listener {
        position: Vec3::new(2000, 1500, 2500),
        orientation: Quat::identity(),
    };
    let src = Vec3::new(1000, 1500, 2500);
    let mut tree = create_source_tree(src, &room, 2);
    update_source_tree(&mut tree, src, &room, &listener);
    // Direct path 1 m; the X0 image at (-1000, 1500, 2500) is 3 m out.
    assert_eq!(tree.nodes[0].dist, 1000);
    assert_eq!(tree.nodes[1].position, Vec3::new(-1000, 1500, 2500));
    assert_eq!(tree.nodes[1].dist, 3000);
    assert_eq!(
        tree.nodes[1].remaining_dist + tree.nodes[0].remaining_dist,
        tree.nodes[1].dist
    );

    // Source exactly on the listener: direct distance zero, every
    // remaining distance still non-negative.
    let mut tree2 = create_source_tree(listener.position, &room, 2);
    update_source_tree(&mut tree2, listener.position, &room, &listener);
    assert_eq!(tree2.nodes[0].dist, 0);
    for node in tree2.nodes.iter() {
        assert!(node.remaining_dist >= 0);
    }
}

#[test]
fn test_ism_creation() {
    let ism_order: usize = 3;
    let room: Room = Room::new(4000, 3000, 5000);
    let ssrc = Vec3::new(2000, 1000, 2000);

    let tree = create_source_tree(ssrc, &room, ism_order);

    for node in tree.nodes.iter() {
        println!("{:?}", node.position);
    }
}

#[test]
fn testtesttest_test_vector3() {
    let v1 = Vec3::new(3000, 4000, 0);
    let v2 = Vec3::new(0, 0, 0);
    println!("{:?}", ruspar::geom::calc_distance(&v1, &v2));
}

#[test]
fn source_update_position_refreshes_distance() {
    let room = Room::new(4000, 3000, 5000);
    let listener = default_listener();
    let mut tree = create_source_tree(Vec3::new(1000, 2000, 2000), &room, 0);
    let mut src = tree.nodes.remove(0);
    src.update_position(Vec3::new(3000, 4000, 0), &listener);
    assert_eq!(src.dist, 5000);
    assert_eq!(src.position, Vec3::new(3000, 4000, 0));
}
