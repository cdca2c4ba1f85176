use vstd::prelude::*;
use crate::triangle::Face;

verus! {

/// Number of vertices of the cube mesh.
pub const N_MESH_VERTICES: usize = 8;

/// Number of triangular faces of the cube mesh.
pub const N_MESH_FACES: usize = 12;

/// The cube's twelve triangles, two per side, over the vertices numbered
/// from 1.
pub open spec fn mesh_face_table() -> Seq<Face> {
    seq![
        // front
        Face { a: 1, b: 2, c: 3 },
        Face { a: 1, b: 3, c: 4 },
        // right
        Face { a: 4, b: 3, c: 5 },
        Face { a: 4, b: 5, c: 6 },
        // back
        Face { a: 6, b: 5, c: 7 },
        Face { a: 6, b: 7, c: 8 },
        // left
        Face { a: 8, b: 7, c: 2 },
        Face { a: 8, b: 2, c: 1 },
        // top
        Face { a: 2, b: 7, c: 5 },
        Face { a: 2, b: 5, c: 3 },
        // bottom
        Face { a: 6, b: 8, c: 1 },
        Face { a: 6, b: 1, c: 4 },
    ]
}

/// The cube's face table, as `mesh_face_table` gives it.
pub fn mesh_faces() -> (r: [Face; N_MESH_FACES])
    ensures
        r@ == mesh_face_table(),
{
    let r = [
        // front
        Face { a: 1, b: 2, c: 3 },
        Face { a: 1, b: 3, c: 4 },
        // right
        Face { a: 4, b: 3, c: 5 },
        Face { a: 4, b: 5, c: 6 },
        // back
        Face { a: 6, b: 5, c: 7 },
        Face { a: 6, b: 7, c: 8 },
        // left
        Face { a: 8, b: 7, c: 2 },
        Face { a: 8, b: 2, c: 1 },
        // top
        Face { a: 2, b: 7, c: 5 },
        Face { a: 2, b: 5, c: 3 },
        // bottom
        Face { a: 6, b: 8, c: 1 },
        Face { a: 6, b: 1, c: 4 },
    ];
    assert(r@ =~= mesh_face_table());
    r
}

/// Every face names vertices among the first `n`.
pub open spec fn faces_valid(faces: Seq<Face>, n: int) -> bool {
    forall|k: int| 0 <= k < faces.len() ==> (#[trigger] faces[k]).valid(n)
}

/// The three vertices that `f` names, in the order a, b, c.
pub open spec fn face_corners<T>(vertices: Seq<T>, f: Face) -> Seq<T> {
    seq![vertices[f.a - 1], vertices[f.b - 1], vertices[f.c - 1]]
}

/// Whether every face names vertices among the first `n`.
pub fn faces_in_range(faces: &[Face], n: usize) -> (r: bool)
    ensures
        r == faces_valid(faces@, n as int),
{
    let mut k: usize = 0;
    while k < faces.len()
        invariant
            k <= faces@.len(),
            forall|j: int| 0 <= j < k ==> (#[trigger] faces@[j]).valid(n as int),
        decreases faces@.len() - k,
    {
        let f = faces[k];
        if !(1 <= f.a && f.a as usize <= n && 1 <= f.b && f.b as usize <= n && 1 <= f.c && f.c
            as usize <= n) {
            assert(!faces@[k as int].valid(n as int));
            return false;
        }
        k += 1;
    }
    true
}

/// Looks up, for each face in order, the three vertices it names.
pub fn face_vertices<T: Copy>(vertices: &[T], faces: &[Face]) -> (r: Vec<[T; 3]>)
    requires
        faces_valid(faces@, vertices@.len() as int),
    ensures
        r@.len() == faces@.len(),
        forall|k: int| 0 <= k < faces@.len() ==> (#[trigger] r@[k])@ == face_corners(vertices@, faces@[k]),
{
    let mut r: Vec<[T; 3]> = Vec::new();
    let mut k: usize = 0;
    while k < faces.len()
        invariant
            k <= faces@.len(),
            faces_valid(faces@, vertices@.len() as int),
            r@.len() == k,
            forall|j: int| 0 <= j < k ==> (#[trigger] r@[j])@ == face_corners(vertices@, faces@[j]),
        decreases faces@.len() - k,
    {
        let f = faces[k];
        assert(faces@[k as int].valid(vertices@.len() as int));
        let corners = [vertices[f.a as usize - 1], vertices[f.b as usize - 1], vertices[f.c as usize - 1]];
        assert(corners@ =~= face_corners(vertices@, f));
        r.push(corners);
        k += 1;
    }
    r
}

/// The cube's face table names only its own vertices.
pub proof fn lemma_mesh_faces_valid()
    ensures
        faces_valid(mesh_face_table(), N_MESH_VERTICES as int),
{
}

} // verus!
