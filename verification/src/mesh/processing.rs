//! Mesh clean-up ahead of parameterization.

use vstd::prelude::*;
use crate::mesh::types::Face;
use crate::mesh::types::MeshData;
use crate::loader::validation::is_collapsed;

verus! {

pub struct MeshProcessor {
    _private: (),
}

/// The faces among the first `upto` that do not use a vertex twice, in order.
pub open spec fn proper_faces(faces: Seq<Face>, upto: int) -> Seq<Face>
    decreases upto,
{
    if upto <= 0 {
        Seq::empty()
    } else if is_collapsed(faces[upto - 1]) {
        proper_faces(faces, upto - 1)
    } else {
        proper_faces(faces, upto - 1).push(faces[upto - 1])
    }
}

/// Face count that simplification aims for: twice the target stitch count,
/// wanted only when simplification is switched on, a stitch target is set
/// and the mesh has more faces than that.
pub open spec fn wanted_face_count(
    simplify: bool,
    target_stitch_count: Option<u32>,
    face_count: int,
) -> Option<int> {
    match target_stitch_count {
        Some(target) => if simplify && face_count > 2 * target {
            Some(2 * target as int)
        } else {
            None
        },
        None => None,
    }
}

impl MeshProcessor {
    pub fn new() -> Self {
        Self { _private: () }
    }

    /// Removes the faces that use a vertex more than once. The vertices and
    /// the order of the remaining faces stay.
    pub fn remove_collapsed_faces(&self, mesh: &mut MeshData)
        ensures
            final(mesh).vertex_count == old(mesh).vertex_count,
            final(mesh).faces@ == proper_faces(old(mesh).faces@, old(mesh).faces.len() as int),
            final(mesh).faces.len() <= old(mesh).faces.len(),
    {
        let mut kept: Vec<Face> = Vec::new();
        let n = mesh.faces.len();
        let mut f: usize = 0;
        while f < n
            invariant
                f <= n,
                n == mesh.faces.len(),
                kept@ == proper_faces(mesh.faces@, f as int),
                kept.len() <= f,
            decreases n - f,
        {
            let face = mesh.faces[f];
            if !(face.indices[0] == face.indices[1] || face.indices[1] == face.indices[2]
                || face.indices[0] == face.indices[2]) {
                kept.push(face);
            }
            f += 1;
        }
        mesh.faces = kept;
    }

    /// Decides whether the mesh is to be simplified, and down to how many
    /// faces.
    pub fn simplification_target(
        &self,
        simplify: bool,
        target_stitch_count: Option<u32>,
        face_count: usize,
    ) -> (r: Option<usize>)
        ensures
            r is Some <==> wanted_face_count(simplify, target_stitch_count, face_count as int)
                is Some,
            r matches Some(target) ==> target == wanted_face_count(
                simplify,
                target_stitch_count,
                face_count as int,
            )->0,
    {
        if !simplify {
            return None;
        }
        match target_stitch_count {
            Some(target) => {
                let wanted = (target as u64) * 2;
                if face_count as u64 > wanted {
                    Some(wanted as usize)
                } else {
                    None
                }
            },
            None => None,
        }
    }
}

} // verus!
