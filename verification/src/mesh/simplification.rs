//! Edge collapse on the face list.

use vstd::prelude::*;
use crate::mesh::types::Face;
use crate::mesh::types::MeshData;

verus! {

pub struct MeshSimplifier {
    _private: (),
}

/// Index `index` after vertex `removed` has been merged into vertex `kept`.
pub open spec fn merged_index(index: u32, kept: u32, removed: u32) -> u32 {
    if index == removed {
        kept
    } else {
        index
    }
}

/// `after` is `before` with vertex `removed` merged into vertex `kept`.
pub open spec fn faces_merged(before: Seq<Face>, after: Seq<Face>, kept: u32, removed: u32) -> bool {
    &&& after.len() == before.len()
    &&& forall|f: int, k: int|
        0 <= f < before.len() && 0 <= k < 3 ==> #[trigger] after[f].indices[k] == merged_index(
            before[f].indices[k],
            kept,
            removed,
        )
}

impl MeshSimplifier {
    pub fn new() -> Self {
        Self { _private: () }
    }

    /// Number of collapses still to do to get from `face_count` faces down to
    /// `target_face_count`; none when the mesh is small enough already.
    pub fn collapses_needed(&self, face_count: usize, target_face_count: usize) -> (n: usize)
        ensures
            n == if face_count <= target_face_count {
                0
            } else {
                face_count - target_face_count
            },
    {
        if face_count <= target_face_count {
            0
        } else {
            face_count - target_face_count
        }
    }

    /// Collapses the edge between `kept` and `removed`: every face index
    /// that names `removed` is made to name `kept`.
    pub fn collapse_vertex(&self, mesh: &mut MeshData, kept: u32, removed: u32)
        ensures
            final(mesh).vertex_count == old(mesh).vertex_count,
            final(mesh).faces.len() == old(mesh).faces.len(),
            faces_merged(old(mesh).faces@, final(mesh).faces@, kept, removed),
    {
        let mut faces: Vec<Face> = Vec::new();
        let n = mesh.faces.len();
        let mut f: usize = 0;
        while f < n
            invariant
                f <= n,
                n == mesh.faces.len(),
                faces.len() == f,
                forall|g: int, k: int|
                    0 <= g < f && 0 <= k < 3 ==> #[trigger] faces[g].indices[k] == merged_index(
                        mesh.faces[g].indices[k],
                        kept,
                        removed,
                    ),
            decreases n - f,
        {
            let face = mesh.faces[f];
            let a = if face.indices[0] == removed {
                kept
            } else {
                face.indices[0]
            };
            let b = if face.indices[1] == removed {
                kept
            } else {
                face.indices[1]
            };
            let c = if face.indices[2] == removed {
                kept
            } else {
                face.indices[2]
            };
            let ghost done = faces@;
            faces.push(Face { indices: [a, b, c] });
            proof {
                assert forall|g: int, k: int| 0 <= g < f + 1 && 0 <= k < 3 implies 
                #[trigger] faces[g].indices[k] == merged_index(
                    mesh.faces[g].indices[k],
                    kept,
                    removed,
                ) by {
                    if g < f {
                        assert(faces[g] == done[g]);
                    }
                }
            }
            f += 1;
        }
        mesh.faces = faces;
    }
}

} // verus!
