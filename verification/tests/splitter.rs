use pathtracer::{
    AABoundingBox, BoundedObject, Coord3, MedianIndexSplitter, Rational, SAHConstants,
    SAHSubdivideGuessSplitter,
};

fn cube(x: i64, area: u64, handle: usize) -> BoundedObject {
    BoundedObject {
        bounds: AABoundingBox {
            lower: Coord3 { x, y: 0, z: 0 },
            upper: Coord3 { x: x + 1, y: 1, z: 1 },
        },
        area,
        handle,
    }
}

#[test]
fn median_splitter_splits_in_the_middle() {
    let objects = vec![cube(0, 1, 0), cube(1, 1, 1), cube(2, 1, 2), cube(3, 1, 3)];
    let splitter = MedianIndexSplitter { num_objects_in_leaf: 1 };
    assert_eq!(splitter.split_index(&objects, 0, 4), 2);
    assert_eq!(splitter.split_index(&objects, 0, 1), 0);
    let coarse = MedianIndexSplitter { num_objects_in_leaf: 8 };
    assert_eq!(coarse.split_index(&objects, 0, 4), 0);
}

#[test]
fn sah_three_equal_cubes_split_at_one_when_traversal_is_free() {
    // three axis-aligned unit cubes at x = 0.5, 1.5, 2.5 with equal areas:
    // with no traversal cost the heuristic peels one cube off, and that
    // cost beats the keep-whole baseline of 3 * C_isect
    let objects = vec![cube(0, 6, 0), cube(1, 6, 1), cube(2, 6, 2)];
    let splitter = SAHSubdivideGuessSplitter {
        number_of_subdivs: 50,
        sah_consts: SAHConstants {
            cost_traversal: Rational { num: 0, den: 1 },
            cost_triangle_intersection: Rational { num: 1, den: 1 },
        },
    };
    assert_eq!(splitter.split_index(&objects, 0, 3), 1);
}

#[test]
fn sah_default_costs_keep_three_equal_cubes_whole() {
    // with the shipped costs (2 and 3/5) the cheapest split of three equal
    // cubes costs 2 + (3/5)(5/3) = 3, above the baseline 3 * 3/5
    let objects = vec![cube(0, 6, 0), cube(1, 6, 1), cube(2, 6, 2)];
    let splitter = SAHSubdivideGuessSplitter {
        number_of_subdivs: 50,
        sah_consts: SAHConstants {
            cost_traversal: Rational { num: 2, den: 1 },
            cost_triangle_intersection: Rational { num: 3, den: 5 },
        },
    };
    assert_eq!(splitter.split_index(&objects, 0, 3), 0);
}

#[test]
fn sah_peels_off_the_heavy_object() {
    let objects = vec![cube(0, 1, 0), cube(1, 1, 1), cube(2, 1, 2), cube(3, 100, 3)];
    let splitter = SAHSubdivideGuessSplitter {
        number_of_subdivs: 50,
        sah_consts: SAHConstants {
            cost_traversal: Rational { num: 0, den: 1 },
            cost_triangle_intersection: Rational { num: 3, den: 5 },
        },
    };
    assert_eq!(splitter.split_index(&objects, 0, 4), 3);
}

#[test]
fn sah_zero_total_area_never_splits() {
    let objects = vec![cube(0, 0, 0), cube(1, 0, 1), cube(2, 0, 2)];
    let splitter = SAHSubdivideGuessSplitter {
        number_of_subdivs: 50,
        sah_consts: SAHConstants {
            cost_traversal: Rational { num: 0, den: 1 },
            cost_triangle_intersection: Rational { num: 1, den: 1 },
        },
    };
    assert_eq!(splitter.split_index(&objects, 0, 3), 0);
}

#[test]
fn sah_single_object_is_a_leaf() {
    let objects = vec![cube(0, 6, 0)];
    let splitter = SAHSubdivideGuessSplitter {
        number_of_subdivs: 50,
        sah_consts: SAHConstants {
            cost_traversal: Rational { num: 0, den: 1 },
            cost_triangle_intersection: Rational { num: 1, den: 1 },
        },
    };
    assert_eq!(splitter.split_index(&objects, 0, 1), 0);
}
