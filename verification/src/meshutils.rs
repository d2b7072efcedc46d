//! Mesh assembly: turning indexed vertex data into triangles, with every
//! index checked.

use vstd::prelude::*;

use crate::intersectable::Triangle;

verus! {

/// Decoded mesh data: vertex positions, vertex normals, and triangles given
/// as a triple of position indices paired with a triple of normal indices.
pub struct MeshInfo<V> {
    pub positions: Vec<V>,
    pub normals: Vec<V>,
    pub triangles: Vec<([usize; 3], [usize; 3])>,
}

/// Whether every index of every triangle points into the vertex arrays.
pub open spec fn mesh_indices_valid<V>(info: MeshInfo<V>) -> bool {
    forall|k: int|
        0 <= k < info.triangles@.len() ==> {
            let t = #[trigger] info.triangles@[k];
            &&& t.0[0] < info.positions@.len()
            &&& t.0[1] < info.positions@.len()
            &&& t.0[2] < info.positions@.len()
            &&& t.1[0] < info.normals@.len()
            &&& t.1[1] < info.normals@.len()
            &&& t.1[2] < info.normals@.len()
        }
}

/// The triangles of one mesh, all sharing one material.
pub struct MeshObject<V> {
    pub triangles: Vec<Triangle<V>>,
    pub shader: usize,
}

impl<V: Copy> MeshObject<V> {
    /// Assembles the mesh: `Some` exactly when every vertex reference of
    /// every triangle is in range, and then each output triangle carries
    /// the vertices its indices name, in order.
    pub fn new(mesh_info: &MeshInfo<V>, shader: usize) -> (r: Option<MeshObject<V>>)
        ensures
            r is Some <==> mesh_indices_valid(*mesh_info),
            r matches Some(mesh) ==> {
                &&& mesh.shader == shader
                &&& mesh.triangles@.len() == mesh_info.triangles@.len()
                &&& forall|k: int|
                    0 <= k < mesh.triangles@.len() ==> {
                        let t = mesh_info.triangles@[k];
                        let tri = #[trigger] mesh.triangles@[k];
                        &&& tri.positions[0] == mesh_info.positions@[t.0[0] as int]
                        &&& tri.positions[1] == mesh_info.positions@[t.0[1] as int]
                        &&& tri.positions[2] == mesh_info.positions@[t.0[2] as int]
                        &&& tri.normals[0] == mesh_info.normals@[t.1[0] as int]
                        &&& tri.normals[1] == mesh_info.normals@[t.1[1] as int]
                        &&& tri.normals[2] == mesh_info.normals@[t.1[2] as int]
                        &&& tri.shader == shader
                    }
            },
    {
        let mut triangles: Vec<Triangle<V>> = Vec::new();
        let n = mesh_info.triangles.len();
        let mut k: usize = 0;
        while k < n
            invariant
                k <= n,
                n == mesh_info.triangles@.len(),
                triangles@.len() == k,
                forall|j: int|
                    0 <= j < k ==> {
                        let t = #[trigger] mesh_info.triangles@[j];
                        &&& t.0[0] < mesh_info.positions@.len()
                        &&& t.0[1] < mesh_info.positions@.len()
                        &&& t.0[2] < mesh_info.positions@.len()
                        &&& t.1[0] < mesh_info.normals@.len()
                        &&& t.1[1] < mesh_info.normals@.len()
                        &&& t.1[2] < mesh_info.normals@.len()
                    },
                forall|j: int|
                    0 <= j < k ==> {
                        let t = mesh_info.triangles@[j];
                        let tri = #[trigger] triangles@[j];
                        &&& tri.positions[0] == mesh_info.positions@[t.0[0] as int]
                        &&& tri.positions[1] == mesh_info.positions@[t.0[1] as int]
                        &&& tri.positions[2] == mesh_info.positions@[t.0[2] as int]
                        &&& tri.normals[0] == mesh_info.normals@[t.1[0] as int]
                        &&& tri.normals[1] == mesh_info.normals@[t.1[1] as int]
                        &&& tri.normals[2] == mesh_info.normals@[t.1[2] as int]
                        &&& tri.shader == shader
                    },
            decreases n - k,
        {
            let (positions, normals) = mesh_info.triangles[k];
            if positions[0] < mesh_info.positions.len() && positions[1]
                < mesh_info.positions.len() && positions[2] < mesh_info.positions.len()
                && normals[0] < mesh_info.normals.len() && normals[1] < mesh_info.normals.len()
                && normals[2] < mesh_info.normals.len() {
                let triangle = Triangle {
                    positions: [
                        mesh_info.positions[positions[0]],
                        mesh_info.positions[positions[1]],
                        mesh_info.positions[positions[2]],
                    ],
                    normals: [
                        mesh_info.normals[normals[0]],
                        mesh_info.normals[normals[1]],
                        mesh_info.normals[normals[2]],
                    ],
                    shader,
                };
                triangles.push(triangle);
            } else {
                return None;
            }
            k = k + 1;
        }
        Some(MeshObject { triangles, shader })
    }
}

} // verus!
