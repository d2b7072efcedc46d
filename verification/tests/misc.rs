use pathtracer::{
    get_aa_bounding_box, randomize_bounce_count, AABoundingBox, BoundedObject, CodableWrapper,
    ConfigError, Coord3, HasElemWiseExtrema,
};

#[test]
fn enclosing_box_of_objects_bounds_them_all() {
    let objects = vec![
        BoundedObject {
            bounds: AABoundingBox {
                lower: Coord3 { x: -1, y: -10, z: 0 },
                upper: Coord3 { x: 10, y: 20, z: 30 },
            },
            area: 1,
            handle: 0,
        },
        BoundedObject {
            bounds: AABoundingBox {
                lower: Coord3 { x: 0, y: 0, z: -2 },
                upper: Coord3 { x: 30, y: -5, z: 1 },
            },
            area: 1,
            handle: 1,
        },
    ];
    let enclosing = get_aa_bounding_box(&objects);
    assert_eq!(enclosing.lower, Coord3 { x: -1, y: -10, z: -2 });
    assert_eq!(enclosing.upper, Coord3 { x: 30, y: 20, z: 30 });
}

#[test]
fn bounce_count_respects_its_bounds() {
    assert_eq!(randomize_bounce_count(0), 0);
    for _ in 0..100 {
        assert!(randomize_bounce_count(1) < 1);
        assert!(randomize_bounce_count(5) < 5);
    }
}

#[test]
fn codable_wrapper_hands_its_value_back() {
    let wrapped = CodableWrapper(42u32);
    assert_eq!(*wrapped.get_ref(), 42);
    assert_eq!(wrapped.get(), 42);
}

#[test]
fn config_error_descriptions() {
    assert_eq!(ConfigError::ConfigLoadError(None).description(), "ConfigLoadError");
    assert_eq!(
        ConfigError::ConfigJsonError(String::from("bad")).description(),
        "Json Parse Error"
    );
    assert_eq!(ConfigError::MiscError(String::from("oops")).description(), "oops");
}

#[test]
fn coordinate_extrema_are_componentwise() {
    let a = Coord3 { x: 1, y: 5, z: -3 };
    let b = Coord3 { x: 2, y: 4, z: -6 };
    assert_eq!(a.min_elem_wise(&b), Coord3 { x: 1, y: 4, z: -6 });
    assert_eq!(a.max_elem_wise(&b), Coord3 { x: 2, y: 5, z: -3 });
}

#[test]
fn box_union_and_empty_identity() {
    let empty = AABoundingBox::empty();
    let unit = AABoundingBox {
        lower: Coord3 { x: 0, y: 0, z: 0 },
        upper: Coord3 { x: 1, y: 1, z: 1 },
    };
    assert_eq!(empty.union_with(&unit), unit);
    let other = AABoundingBox {
        lower: Coord3 { x: -1, y: 2, z: 0 },
        upper: Coord3 { x: 3, y: 2, z: 5 },
    };
    let both = unit.union_with(&other);
    assert_eq!(both.lower, Coord3 { x: -1, y: 0, z: 0 });
    assert_eq!(both.upper, Coord3 { x: 3, y: 2, z: 5 });
}

#[test]
fn centroid_keys_double_the_centroid() {
    let unit = AABoundingBox {
        lower: Coord3 { x: 2, y: 0, z: -4 },
        upper: Coord3 { x: 4, y: 1, z: 0 },
    };
    assert_eq!(unit.centroid_key(0), 6);
    assert_eq!(unit.centroid_key(1), 1);
    assert_eq!(unit.centroid_key(2), -4);
}
