//! Scene assembly checks: turning decoder output into triangle lists and
//! resolving material references by name.

use vstd::prelude::*;

verus! {

/// A scene-construction failure, with its message.
pub struct SceneError(pub String);

/// The face data a mesh decoder hands over, one entry per vertex of the
/// face: position index alone, or position paired with texture and/or
/// normal indices.
#[derive(Clone, Debug)]
pub enum Polygon {
    P(Vec<usize>),
    PT(Vec<(usize, usize)>),
    PN(Vec<(usize, usize)>),
    PTN(Vec<(usize, usize, usize)>),
}

/// Whether a face is a triangle carrying position and normal data, the one
/// shape the renderer accepts.
pub open spec fn polygon_is_pn_triangle(p: Polygon) -> bool {
    p matches Polygon::PN(v) && v@.len() == 3
}

/// The (position-index, normal-index) triples of such a triangle.
pub open spec fn spec_triangle_of(p: Polygon) -> ([usize; 3], [usize; 3])
    recommends
        polygon_is_pn_triangle(p),
{
    match p {
        Polygon::PN(v) => ([v@[0].0, v@[1].0, v@[2].0], [v@[0].1, v@[1].1, v@[2].1]),
        _ => ([0, 0, 0], [0, 0, 0]),
    }
}

/// Converts decoded faces to indexed triangles.  Succeeds exactly when
/// every face is a position-and-normal triangle; any other face makes the
/// whole mesh invalid.
pub fn polygons_to_triangles(polys: &Vec<Polygon>) -> (r: Result<
    Vec<([usize; 3], [usize; 3])>,
    SceneError,
>)
    ensures
        r is Ok <==> (forall|k: int|
            0 <= k < polys@.len() ==> polygon_is_pn_triangle(#[trigger] polys@[k])),
        r matches Ok(ts) ==> {
            &&& ts@.len() == polys@.len()
            &&& forall|k: int|
                0 <= k < ts@.len() ==> #[trigger] ts@[k] == spec_triangle_of(polys@[k])
        },
{
    let mut collect: Vec<([usize; 3], [usize; 3])> = Vec::new();
    let n = polys.len();
    let mut k: usize = 0;
    while k < n
        invariant
            k <= n,
            n == polys@.len(),
            collect@.len() == k,
            forall|j: int| 0 <= j < k ==> polygon_is_pn_triangle(#[trigger] polys@[j]),
            forall|j: int| 0 <= j < k ==> #[trigger] collect@[j] == spec_triangle_of(polys@[j]),
        decreases n - k,
    {
        match &polys[k] {
            Polygon::PN(vn_vec) => {
                if vn_vec.len() == 3 {
                    let ind = (
                        [vn_vec[0].0, vn_vec[1].0, vn_vec[2].0],
                        [vn_vec[0].1, vn_vec[1].1, vn_vec[2].1],
                    );
                    collect.push(ind);
                } else {
                    return Err(
                        SceneError(String::from_str("Fatal error: polygons must be triangles!")),
                    );
                }
            },
            _ => {
                return Err(
                    SceneError(
                        String::from_str("an error occured while converting polys to tris"),
                    ),
                );
            },
        }
        k = k + 1;
    }
    Ok(collect)
}

/// Finds the material with the given name in the scene's table of material
/// names; `Some(i)` names the first entry that matches.
pub fn find_shader(names: &Vec<String>, wanted: &String) -> (r: Option<usize>)
    ensures
        r matches Some(i) ==> i < names@.len() && names@[i as int]@ == wanted@ && (forall|j: int|
            0 <= j < i ==> (#[trigger] names@[j])@ != wanted@),
        r is None ==> forall|j: int| 0 <= j < names@.len() ==> (#[trigger] names@[j])@ != wanted@,
{
    let n = names.len();
    let mut k: usize = 0;
    while k < n
        invariant
            k <= n,
            n == names@.len(),
            forall|j: int| 0 <= j < k ==> (#[trigger] names@[j])@ != wanted@,
        decreases n - k,
    {
        if names[k] == *wanted {
            return Some(k);
        }
        k = k + 1;
    }
    None
}

} // verus!
