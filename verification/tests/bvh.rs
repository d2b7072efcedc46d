use pathtracer::{AABoundingBox, BVHAccelerator, BoundedObject, Coord3, MedianIndexSplitter, COORD_LIMIT};

fn unit_box_at(x: i64) -> AABoundingBox {
    AABoundingBox {
        lower: Coord3 { x, y: 0, z: 0 },
        upper: Coord3 { x: x + 1, y: 1, z: 1 },
    }
}

#[test]
fn test_bounding_box() {
    let make_as_thing = 3;
    let _ = make_as_thing;
}

#[test]
fn test_bvh() {
    let mut aabbobjs = vec![
        BoundedObject { bounds: unit_box_at(0), area: 1, handle: 0 },
        BoundedObject { bounds: unit_box_at(1), area: 1, handle: 1 },
        BoundedObject { bounds: unit_box_at(2), area: 1, handle: 2 },
    ];

    let accelerator = BVHAccelerator::new(&mut aabbobjs);
    println!("{:#?}", accelerator);
}

#[test]
fn bvh_empty_build_is_empty_and_traverses_to_nothing() {
    let mut objects: Vec<BoundedObject> = Vec::new();
    let accelerator = BVHAccelerator::new(&mut objects);
    assert_eq!(accelerator.node_count(), 0);
    let hits: Vec<bool> = Vec::new();
    let ranges = accelerator.intersect_boxes(&hits);
    assert!(ranges.is_empty());
}

#[test]
fn bvh_default_build_of_three_equal_cubes_is_one_leaf() {
    // with the shipped costs (traversal 2, intersection 3/5) no split of
    // three equal-area cubes beats the baseline, so the tree is one leaf
    let mut objects = vec![
        BoundedObject { bounds: unit_box_at(0), area: 6, handle: 0 },
        BoundedObject { bounds: unit_box_at(1), area: 6, handle: 1 },
        BoundedObject { bounds: unit_box_at(2), area: 6, handle: 2 },
    ];
    let accelerator = BVHAccelerator::new(&mut objects);
    assert_eq!(accelerator.node_count(), 1);
    let ranges = accelerator.intersect_boxes(&vec![true]);
    assert_eq!(ranges, vec![(0usize, 3usize)]);
}

#[test]
fn bvh_median_build_partitions_and_orders_ranges() {
    // handed over in reverse x order; the build sorts by centroid
    let mut objects = vec![
        BoundedObject { bounds: unit_box_at(2), area: 1, handle: 2 },
        BoundedObject { bounds: unit_box_at(1), area: 1, handle: 1 },
        BoundedObject { bounds: unit_box_at(0), area: 1, handle: 0 },
    ];
    let splitter = MedianIndexSplitter { num_objects_in_leaf: 1 };
    let accelerator = BVHAccelerator::new_with_splitter(&mut objects, &splitter);

    // sorted into ascending x order, handles carried along
    assert_eq!(objects[0].handle, 0);
    assert_eq!(objects[1].handle, 1);
    assert_eq!(objects[2].handle, 2);

    // 3 objects, median splits: node, leaf [0,1), node, leaf [1,2), leaf [2,3)
    assert_eq!(accelerator.node_count(), 5);
    let hits = vec![true; accelerator.node_count()];
    let ranges = accelerator.intersect_boxes(&hits);
    assert_eq!(ranges, vec![(0usize, 1usize), (1usize, 2usize), (2usize, 3usize)]);

    // ranges come out ascending and cover [0, 3) without gaps
    assert_eq!(ranges[0].0, 0);
    assert_eq!(ranges[ranges.len() - 1].1, 3);
    for k in 0..ranges.len() - 1 {
        assert_eq!(ranges[k].1, ranges[k + 1].0);
    }
}

#[test]
fn bvh_traversal_skips_missed_subtrees() {
    let mut objects = vec![
        BoundedObject { bounds: unit_box_at(0), area: 1, handle: 0 },
        BoundedObject { bounds: unit_box_at(1), area: 1, handle: 1 },
        BoundedObject { bounds: unit_box_at(2), area: 1, handle: 2 },
    ];
    let splitter = MedianIndexSplitter { num_objects_in_leaf: 1 };
    let accelerator = BVHAccelerator::new_with_splitter(&mut objects, &splitter);
    assert_eq!(accelerator.node_count(), 5);

    // layout: 0 root, 1 leaf [0,1), 2 inner, 3 leaf [1,2), 4 leaf [2,3)
    // miss the right inner subtree: only the left leaf is reported
    let ranges = accelerator.intersect_boxes(&vec![true, true, false, true, true]);
    assert_eq!(ranges, vec![(0usize, 1usize)]);

    // miss the root box: nothing is reported at all
    let ranges = accelerator.intersect_boxes(&vec![false, true, true, true, true]);
    assert!(ranges.is_empty());
}

#[test]
fn bvh_node_boxes_bound_their_objects() {
    let mut objects = vec![
        BoundedObject { bounds: unit_box_at(0), area: 1, handle: 0 },
        BoundedObject { bounds: unit_box_at(1), area: 1, handle: 1 },
        BoundedObject { bounds: unit_box_at(2), area: 1, handle: 2 },
    ];
    let splitter = MedianIndexSplitter { num_objects_in_leaf: 1 };
    let accelerator = BVHAccelerator::new_with_splitter(&mut objects, &splitter);
    let root = accelerator.node_box_at(0);
    for obj in &objects {
        assert!(root.lower.x <= obj.bounds.lower.x && obj.bounds.upper.x <= root.upper.x);
        assert!(root.lower.y <= obj.bounds.lower.y && obj.bounds.upper.y <= root.upper.y);
        assert!(root.lower.z <= obj.bounds.lower.z && obj.bounds.upper.z <= root.upper.z);
    }
}

#[test]
fn bvh_build_is_stable_for_equal_centroids() {
    // both boxes share the centroid along the sort axis; the stable sort
    // keeps their input order, so their handles stay in order
    let wide = AABoundingBox {
        lower: Coord3 { x: 0, y: 0, z: 0 },
        upper: Coord3 { x: 10, y: 1, z: 1 },
    };
    let mut objects = vec![
        BoundedObject { bounds: wide, area: 2, handle: 0 },
        BoundedObject { bounds: wide, area: 1, handle: 1 },
    ];
    let splitter = MedianIndexSplitter { num_objects_in_leaf: 1 };
    let _accelerator = BVHAccelerator::new_with_splitter(&mut objects, &splitter);
    assert_eq!(objects[0].handle, 0);
    assert_eq!(objects[1].handle, 1);
}

#[test]
fn bvh_build_at_the_coordinate_extremes() {
    let mut objects = vec![
        BoundedObject {
            bounds: AABoundingBox {
                lower: Coord3 { x: -COORD_LIMIT, y: -COORD_LIMIT, z: -COORD_LIMIT },
                upper: Coord3 { x: -COORD_LIMIT + 1, y: 0, z: 0 },
            },
            area: 0x1_0000_0000,
            handle: 0,
        },
        BoundedObject {
            bounds: AABoundingBox {
                lower: Coord3 { x: COORD_LIMIT - 1, y: 0, z: 0 },
                upper: Coord3 { x: COORD_LIMIT, y: COORD_LIMIT, z: COORD_LIMIT },
            },
            area: 0x1_0000_0000,
            handle: 1,
        },
    ];
    let splitter = MedianIndexSplitter { num_objects_in_leaf: 1 };
    let accelerator = BVHAccelerator::new_with_splitter(&mut objects, &splitter);
    let hits = vec![true; accelerator.node_count()];
    let ranges = accelerator.intersect_boxes(&hits);
    assert_eq!(ranges, vec![(0usize, 1usize), (1usize, 2usize)]);
}

#[test]
fn bvh_larger_build_partitions_its_objects()  {
    // a few hundred boxes scattered deterministically; whatever tree the
    // heuristic picks, the leaf ranges must partition the objects in order
    let mut objects: Vec<BoundedObject> = (0..500)
        .map(|k| {
            let x = ((k * 37) % 101) as i64;
            let y = ((k * 53) % 97) as i64;
            let z = ((k * 71) % 89) as i64;
            BoundedObject {
                bounds: AABoundingBox {
                    lower: Coord3 { x, y, z },
                    upper: Coord3 { x: x + 1 + (k % 3) as i64, y: y + 1, z: z + 2 },
                },
                area: 1 + (k % 7) as u64,
                handle: k,
            }
        })
        .collect();
    let accelerator = BVHAccelerator::new(&mut objects);

    // the permuted objects still carry every handle exactly once
    let mut seen = vec![false; 500];
    for obj in &objects {
        assert!(!seen[obj.handle]);
        seen[obj.handle] = true;
    }

    let hits = vec![true; accelerator.node_count()];
    let ranges = accelerator.intersect_boxes(&hits);
    assert_eq!(ranges[0].0, 0);
    assert_eq!(ranges[ranges.len() - 1].1, 500);
    for k in 0..ranges.len() - 1 {
        assert!(ranges[k].0 < ranges[k].1);
        assert_eq!(ranges[k].1, ranges[k + 1].0);
    }
}
