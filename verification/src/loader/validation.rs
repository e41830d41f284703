//! Validation of the topology of a loaded mesh.

use std::collections::HashMap;
use std::collections::HashSet;
use vstd::prelude::*;
use vstd::string::*;
use crate::mesh::types::Face;
use crate::mesh::types::MeshData;
use crate::text::decimal_text;
use crate::text::push_decimal;
use crate::types::PatternError;

verus! {

/// Vertex count above which a mesh is reported as large.
pub const LARGE_MESH_VERTICES: usize = 100_000;

pub struct ModelValidator {
    _private: (),
}

/// What validation found out about the topology of a mesh that it accepts.
#[derive(Debug, Clone, Copy, PartialEq, Eq, Structural)]
pub struct TopologyReport {
    /// The mesh has more than 100 000 vertices.
    pub large: bool,
    /// Number of faces that use a vertex twice.
    pub collapsed_faces: usize,
    /// Some edge belongs to more than two faces.
    pub non_manifold: bool,
}

/// The face uses some vertex more than once.
pub open spec fn is_collapsed(face: Face) -> bool {
    face.indices[0] == face.indices[1] || face.indices[1] == face.indices[2] || face.indices[0]
        == face.indices[2]
}

/// Number of collapsed faces among the first `upto` faces.
pub open spec fn collapsed_count(faces: Seq<Face>, upto: int) -> nat
    decreases upto,
{
    if upto <= 0 {
        0
    } else {
        collapsed_count(faces, upto - 1) + if is_collapsed(faces[upto - 1]) {
            1nat
        } else {
            0nat
        }
    }
}

/// The undirected edge between vertices `a` and `b` as one number: the
/// smaller index in the upper half, the larger in the lower.
pub open spec fn edge_key(a: u32, b: u32) -> u64 {
    if a <= b {
        (a as int * 0x1_0000_0000 + b as int) as u64
    } else {
        (b as int * 0x1_0000_0000 + a as int) as u64
    }
}

/// Key of the edge in slot `s`: edge `s % 3` of face `s / 3`.
pub open spec fn slot_key(faces: Seq<Face>, s: int) -> u64 {
    edge_key(faces[s / 3].indices[s % 3], faces[s / 3].indices[(s % 3 + 1) % 3])
}

/// Number of slots below `upto` that hold the edge with key `key`.
pub open spec fn edge_uses(faces: Seq<Face>, key: u64, upto: int) -> nat
    decreases upto,
{
    if upto <= 0 {
        0
    } else {
        edge_uses(faces, key, upto - 1) + if slot_key(faces, upto - 1) == key {
            1nat
        } else {
            0nat
        }
    }
}

/// Some edge is used by more than two faces.
pub open spec fn has_overused_edge(faces: Seq<Face>) -> bool {
    exists|key: u64| #[trigger] edge_uses(faces, key, 3 * (faces.len() as int)) > 2
}

/// Two pairs of vertices have the same key exactly when they are the same
/// undirected edge.
pub proof fn edge_key_names_the_edge(a: u32, b: u32, c: u32, d: u32)
    ensures
        edge_key(a, b) == edge_key(c, d) <==> (a == c && b == d) || (a == d && b == c),
{
}

proof fn lemma_edge_uses_grow(faces: Seq<Face>, key: u64, a: int, b: int)
    requires
        a <= b,
    ensures
        edge_uses(faces, key, a) <= edge_uses(faces, key, b),
    decreases b - a,
{
    if a < b {
        lemma_edge_uses_grow(faces, key, a, b - 1);
    }
}

/// Detail of the error for a face index that names no vertex.
pub open spec fn invalid_index_text(face: int, index: int, vertex_count: int) -> Seq<char> {
    "Face "@ + decimal_text(face as nat) + " has invalid vertex index "@ + decimal_text(
        index as nat,
    ) + " (max: "@ + decimal_text((vertex_count - 1) as nat) + ")"@
}

/// Face `f` is the first face with an index out of range, and `k` the first
/// such index in it.
pub open spec fn first_invalid(mesh: &MeshData, f: int, k: int) -> bool {
    &&& 0 <= f < mesh.faces.len()
    &&& 0 <= k < 3
    &&& mesh.faces[f].indices[k] >= mesh.vertex_count
    &&& forall|j: int| 0 <= j < k ==> mesh.faces[f].indices[j] < mesh.vertex_count
    &&& forall|g: int, j: int|
        0 <= g < f && 0 <= j < 3 ==> (#[trigger] mesh.faces[g].indices[j]) < mesh.vertex_count
}

fn key_of(a: u32, b: u32) -> (key: u64)
    ensures
        key == edge_key(a, b),
{
    if a <= b {
        (a as u64) * 0x1_0000_0000 + (b as u64)
    } else {
        (b as u64) * 0x1_0000_0000 + (a as u64)
    }
}

impl ModelValidator {
    pub fn new() -> Self {
        Self { _private: () }
    }

    /// Tells whether a face uses a vertex more than once.
    pub fn is_collapsed_face(&self, face: &Face) -> (b: bool)
        ensures
            b == is_collapsed(*face),
    {
        face.indices[0] == face.indices[1] || face.indices[1] == face.indices[2] || face.indices[0]
            == face.indices[2]
    }

    /// Tells whether repeated positions are worth a warning: more than a
    /// tenth of the vertices repeat an earlier one.
    pub fn duplicates_are_many(&self, duplicate_count: usize, vertex_count: usize) -> (b: bool)
        ensures
            b == (duplicate_count > vertex_count / 10),
    {
        duplicate_count > vertex_count / 10
    }

    /// Counts the faces that use a vertex more than once.
    pub fn count_collapsed_faces(&self, mesh: &MeshData) -> (count: usize)
        ensures
            count == collapsed_count(mesh.faces@, mesh.faces.len() as int),
    {
        let mut count: usize = 0;
        let mut f: usize = 0;
        while f < mesh.faces.len()
            invariant
                f <= mesh.faces.len(),
                count <= f,
                count == collapsed_count(mesh.faces@, f as int),
            decreases mesh.faces.len() - f,
        {
            let face = mesh.faces[f];
            if face.indices[0] == face.indices[1] || face.indices[1] == face.indices[2]
                || face.indices[0] == face.indices[2] {
                count += 1;
            }
            f += 1;
        }
        count
    }

    /// Tells whether some edge belongs to more than two faces.
    #[verifier::rlimit(40)]
    pub fn has_non_manifold_edges(&self, mesh: &MeshData) -> (b: bool)
        ensures
            b == has_overused_edge(mesh.faces@),
    {
        broadcast use vstd::std_specs::hash::group_hash_axioms;

        let mut edge_count: HashMap<u64, usize> = HashMap::new();
        let face_count = mesh.faces.len();
        let mut f: usize = 0;
        while f < face_count
            invariant
                f <= face_count,
                face_count == mesh.faces.len(),
                forall|key: u64|
                    edge_count@.contains_key(key) <==> #[trigger] edge_uses(
                        mesh.faces@,
                        key,
                        3 * (f as int),
                    ) > 0,
                forall|key: u64|
                    edge_count@.contains_key(key) ==> #[trigger] edge_count@[key] == edge_uses(
                        mesh.faces@,
                        key,
                        3 * (f as int),
                    ),
                forall|key: u64| #[trigger] edge_uses(mesh.faces@, key, 3 * (f as int)) <= 2,
            decreases face_count - f,
        {
            let face = mesh.faces[f];
            let mut k: usize = 0;
            while k < 3
                invariant
                    k <= 3,
                    f < face_count,
                    face_count == mesh.faces.len(),
                    face == mesh.faces[f as int],
                    forall|key: u64|
                        edge_count@.contains_key(key) <==> #[trigger] edge_uses(
                            mesh.faces@,
                            key,
                            3 * (f as int) + k,
                        ) > 0,
                    forall|key: u64|
                        edge_count@.contains_key(key) ==> #[trigger] edge_count@[key] == edge_uses(
                            mesh.faces@,
                            key,
                            3 * (f as int) + k,
                        ),
                    forall|key: u64| #[trigger] edge_uses(mesh.faces@, key, 3 * (f as int) + k) <= 2,
                decreases 3 - k,
            {
                let following = if k == 2 {
                    0
                } else {
                    k + 1
                };
                let key = key_of(face.indices[k], face.indices[following]);
                assert(key == slot_key(mesh.faces@, 3 * f + k));
                let seen = match edge_count.get(&key) {
                    Some(count) => *count,
                    None => 0,
                };
                assert(seen == edge_uses(mesh.faces@, key, 3 * f + k));
                if seen >= 2 {
                    proof {
                        lemma_edge_uses_grow(
                            mesh.faces@,
                            key,
                            3 * f + k + 1,
                            3 * (mesh.faces.len() as int),
                        );
                        assert(edge_uses(mesh.faces@, key, 3 * (mesh.faces.len() as int)) > 2);
                    }
                    return true;
                }
                let ghost before = edge_count@;
                let ghost slot = 3 * (f as int) + k;
                edge_count.insert(key, seen + 1);
                proof {
                    assert forall|other: u64|
                        edge_count@.contains_key(other) <==> #[trigger] edge_uses(
                            mesh.faces@,
                            other,
                            slot + 1,
                        ) > 0 by {
                        assert(before.contains_key(other) <==> edge_uses(mesh.faces@, other, slot)
                            > 0);
                    }
                    assert forall|other: u64| edge_count@.contains_key(other) implies 
                    #[trigger] edge_count@[other] == edge_uses(mesh.faces@, other, slot + 1) by {
                        assert(before.contains_key(other) <==> edge_uses(mesh.faces@, other, slot)
                            > 0);
                        if other != key {
                            assert(before[other] == edge_uses(mesh.faces@, other, slot));
                        }
                    }
                    assert forall|other: u64| #[trigger]
                        edge_uses(mesh.faces@, other, slot + 1) <= 2 by {
                        assert(edge_uses(mesh.faces@, other, slot) <= 2);
                    }
                }
                k += 1;
            }
            assert(3 * (f as int) + 3 == 3 * ((f + 1) as int));
            f += 1;
        }
        false
    }

    /// Validates the topology of a mesh. A mesh without vertices, without
    /// faces, or with a face index that names no vertex is refused; for any
    /// other mesh the report says what is unusual about it.
    #[verifier::rlimit(40)]
    pub fn check_topology(&self, mesh: &MeshData) -> (r: Result<TopologyReport, PatternError>)
        ensures
            r is Ok <==> mesh.vertex_count > 0 && mesh.faces.len() > 0 && mesh.indices_in_range(),
            r matches Ok(report) ==> {
                &&& report.large == (mesh.vertex_count > LARGE_MESH_VERTICES)
                &&& report.collapsed_faces == collapsed_count(mesh.faces@, mesh.faces.len() as int)
                &&& report.non_manifold == has_overused_edge(mesh.faces@)
            },
            r matches Err(e) ==> e is IOError,
            r matches Err(e) ==> (mesh.vertex_count == 0 ==> e.detail() == "Mesh has no vertices"@),
            r matches Err(e) ==> (mesh.vertex_count > 0 && mesh.faces.len() == 0 ==> e.detail()
                == "Mesh has no faces"@),
            r matches Err(e) ==> (mesh.vertex_count > 0 && mesh.faces.len() > 0 ==> exists|
                f: int,
                k: int,
            |
                first_invalid(mesh, f, k) && e.detail() == #[trigger] invalid_index_text(
                    f,
                    mesh.faces[f].indices[k] as int,
                    mesh.vertex_count as int,
                )),
    {
        if mesh.vertex_count == 0 {
            return Err(PatternError::IOError(String::from_str("Mesh has no vertices")));
        }
        if mesh.faces.len() == 0 {
            return Err(PatternError::IOError(String::from_str("Mesh has no faces")));
        }
        let mut f: usize = 0;
        while f < mesh.faces.len()
            invariant
                f <= mesh.faces.len(),
                mesh.vertex_count > 0,
                forall|g: int, j: int|
                    0 <= g < f && 0 <= j < 3 ==> (#[trigger] mesh.faces[g].indices[j])
                        < mesh.vertex_count,
            decreases mesh.faces.len() - f,
        {
            let face = mesh.faces[f];
            let mut k: usize = 0;
            while k < 3
                invariant
                    k <= 3,
                    f < mesh.faces.len(),
                    mesh.vertex_count > 0,
                    face == mesh.faces[f as int],
                    forall|j: int| 0 <= j < k ==> mesh.faces[f as int].indices[j] < mesh.vertex_count,
                    forall|g: int, j: int|
                        0 <= g < f && 0 <= j < 3 ==> (#[trigger] mesh.faces[g].indices[j])
                            < mesh.vertex_count,
                decreases 3 - k,
            {
                let index = face.indices[k];
                if index as usize >= mesh.vertex_count {
                    let text = String::from_str("Face ");
                    let text = push_decimal(text, f as u128);
                    let text = text.concat(" has invalid vertex index ");
                    let text = push_decimal(text, index as u128);
                    let text = text.concat(" (max: ");
                    let text = push_decimal(text, (mesh.vertex_count - 1) as u128);
                    let text = text.concat(")");
                    proof {
                        assert(first_invalid(mesh, f as int, k as int));
                        assert(text@ =~= invalid_index_text(
                            f as int,
                            index as int,
                            mesh.vertex_count as int,
                        ));
                        assert(!mesh.indices_in_range());

                    }
                    let error = PatternError::IOError(text);
                    proof {
                        assert(error.detail() == text@);
                        assert(mesh.faces.len() > 0);
                        assert(first_invalid(mesh, f as int, k as int) && error.detail()
                            == invalid_index_text(
                            f as int,
                            mesh.faces[f as int].indices[k as int] as int,
                            mesh.vertex_count as int,
                        ));
                    }
                    return Err(error);
                }
                k += 1;
            }
            f += 1;
        }
        assert(mesh.indices_in_range());
        Ok(
            TopologyReport {
                large: mesh.vertex_count > LARGE_MESH_VERTICES,
                collapsed_faces: self.count_collapsed_faces(mesh),
                non_manifold: self.has_non_manifold_edges(mesh),
            },
        )
    }
}

/// Number of keys among the first `upto` that repeat an earlier key.
pub open spec fn repeated_keys(keys: Seq<u128>, upto: int) -> nat
    decreases upto,
{
    if upto <= 0 {
        0
    } else {
        repeated_keys(keys, upto - 1) + if keys.take(upto - 1).contains(keys[upto - 1]) {
            1nat
        } else {
            0nat
        }
    }
}

impl ModelValidator {
    /// Counts the vertices that repeat the position of an earlier vertex.
    /// `keys[v]` is the position of vertex `v`, quantized and packed into one
    /// number by the caller.
    #[verifier::rlimit(40)]
    pub fn count_duplicates(&self, keys: &Vec<u128>) -> (count: usize)
        ensures
            count == repeated_keys(keys@, keys.len() as int),
    {
        broadcast use vstd::std_specs::hash::group_hash_axioms;

        let mut seen: HashSet<u128> = HashSet::new();
        let mut count: usize = 0;
        let mut i: usize = 0;
        while i < keys.len()
            invariant
                i <= keys.len(),
                count <= i,
                count == repeated_keys(keys@, i as int),
                forall|key: u128| seen@.contains(key) <==> keys@.take(i as int).contains(key),
            decreases keys.len() - i,
        {
            let key = keys[i];
            let ghost before = seen@;
            let fresh = seen.insert(key);
            if !fresh {
                count += 1;
            }
            proof {
                let shorter = keys@.take(i as int);
                let longer = keys@.take(i + 1);
                assert forall|other: u128| seen@.contains(other) <==> longer.contains(other) by {
                    if longer.contains(other) {
                        let w = choose|w: int| 0 <= w < longer.len() && longer[w] == other;
                        if w < i {
                            assert(shorter[w] == other);
                        }
                    }
                    if before.contains(other) {
                        let w = choose|w: int| 0 <= w < shorter.len() && shorter[w] == other;
                        assert(longer[w] == other);
                    }
                    if other == key {
                        assert(longer[i as int] == key);
                    }
                }
            }
            i += 1;
        }
        count
    }
}

} // verus!
