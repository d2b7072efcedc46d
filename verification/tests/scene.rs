use pathtracer::{find_shader, polygons_to_triangles, MeshInfo, MeshObject, Polygon};

#[test]
fn polygons_convert_when_all_are_pn_triangles() {
    let polys = vec![
        Polygon::PN(vec![(0, 0), (1, 1), (2, 2)]),
        Polygon::PN(vec![(2, 0), (3, 1), (0, 2)]),
    ];
    let triangles = polygons_to_triangles(&polys).ok().unwrap();
    assert_eq!(triangles, vec![([0, 1, 2], [0, 1, 2]), ([2, 3, 0], [0, 1, 2])]);
}

#[test]
fn polygons_with_a_quad_are_rejected() {
    let polys = vec![
        Polygon::PN(vec![(0, 0), (1, 1), (2, 2)]),
        Polygon::PN(vec![(0, 0), (1, 1), (2, 2), (3, 3)]),
    ];
    let result = polygons_to_triangles(&polys);
    assert!(result.is_err());
}

#[test]
fn polygons_without_normals_are_rejected() {
    let polys = vec![Polygon::P(vec![0, 1, 2])];
    assert!(polygons_to_triangles(&polys).is_err());
    let polys = vec![Polygon::PT(vec![(0, 0), (1, 1), (2, 2)])];
    assert!(polygons_to_triangles(&polys).is_err());
    let polys = vec![Polygon::PTN(vec![(0, 0, 0), (1, 1, 1), (2, 2, 2)])];
    assert!(polygons_to_triangles(&polys).is_err());
}

#[test]
fn empty_polygon_list_gives_empty_triangle_list() {
    let polys: Vec<Polygon> = Vec::new();
    let triangles = polygons_to_triangles(&polys).ok().unwrap();
    assert!(triangles.is_empty());
}

#[test]
fn mesh_object_fetches_vertices_by_index() {
    let info: MeshInfo<(i32, i32, i32)> = MeshInfo {
        positions: vec![(0, 0, 0), (1, 0, 0), (0, 1, 0)],
        normals: vec![(0, 0, 1)],
        triangles: vec![([0, 1, 2], [0, 0, 0])],
    };
    let mesh = MeshObject::new(&info, 7).unwrap();
    assert_eq!(mesh.shader, 7);
    assert_eq!(mesh.triangles.len(), 1);
    assert_eq!(mesh.triangles[0].positions, [(0, 0, 0), (1, 0, 0), (0, 1, 0)]);
    assert_eq!(mesh.triangles[0].normals, [(0, 0, 1), (0, 0, 1), (0, 0, 1)]);
    assert_eq!(mesh.triangles[0].shader, 7);
}

#[test]
fn mesh_object_rejects_an_out_of_range_position_index() {
    let info: MeshInfo<(i32, i32, i32)> = MeshInfo {
        positions: vec![(0, 0, 0), (1, 0, 0)],
        normals: vec![(0, 0, 1)],
        triangles: vec![([0, 1, 2], [0, 0, 0])],
    };
    assert!(MeshObject::new(&info, 0).is_none());
}

#[test]
fn mesh_object_rejects_an_out_of_range_normal_index() {
    let info: MeshInfo<(i32, i32, i32)> = MeshInfo {
        positions: vec![(0, 0, 0), (1, 0, 0), (0, 1, 0)],
        normals: vec![(0, 0, 1)],
        triangles: vec![([0, 1, 2], [0, 0, 1])],
    };
    assert!(MeshObject::new(&info, 0).is_none());
}

#[test]
fn shader_lookup_finds_the_first_match() {
    let names = vec![
        String::from("floor"),
        String::from("light"),
        String::from("floor"),
    ];
    assert_eq!(find_shader(&names, &String::from("light")), Some(1));
    assert_eq!(find_shader(&names, &String::from("floor")), Some(0));
    assert_eq!(find_shader(&names, &String::from("mirror")), None);
}
