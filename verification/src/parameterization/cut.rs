//! Topological cut: duplicates the vertices of a seam and moves the faces
//! along the seam onto the duplicates, opening a closed surface.

use std::collections::HashMap;
use vstd::prelude::*;
use crate::mesh::types::Face;
use crate::mesh::types::MeshData;

verus! {

/// A mesh after cutting. `duplicated[k]` is the vertex whose attributes the
/// new vertex `vertex_count_before + k` copies.
#[derive(Debug, Clone)]
pub struct CutMesh {
    pub mesh: MeshData,
    pub duplicated: Vec<u32>,
}

/// The end points of the seam edges, in seam order.
pub open spec fn seam_sequence(seam: Seq<(u32, u32)>) -> Seq<u32> {
    Seq::new(
        2 * seam.len(),
        |m: int|
            if m % 2 == 0 {
                seam[m / 2].0
            } else {
                seam[m / 2].1
            },
    )
}

/// The vertices of `flat`, each once, in order of first appearance.
pub open spec fn distinct_vertices(flat: Seq<u32>) -> Seq<u32>
    decreases flat.len(),
{
    if flat.len() == 0 {
        Seq::empty()
    } else if distinct_vertices(flat.drop_last()).contains(flat.last()) {
        distinct_vertices(flat.drop_last())
    } else {
        distinct_vertices(flat.drop_last()).push(flat.last())
    }
}

/// `face` uses vertex `y`.
pub open spec fn face_has(face: Face, y: u32) -> bool {
    face.indices[0] == y || face.indices[1] == y || face.indices[2] == y
}

/// `face` lies along the seam at `x`: some seam edge joins `x` to a vertex
/// that the face uses as well.
pub open spec fn touches_seam_edge(face: Face, x: u32, seam: Seq<(u32, u32)>) -> bool {
    exists|e: int|
        0 <= e < seam.len() && ((#[trigger] seam[e]).0 == x && face_has(face, seam[e].1) || seam[e].1
            == x && face_has(face, seam[e].0))
}

/// Index `after` is what the cut makes of index `before` in `face`: the
/// duplicate where the face lies along the seam at that vertex, the vertex
/// itself elsewhere.
pub open spec fn index_after_cut(
    face: Face,
    before: u32,
    after: u32,
    seam: Seq<(u32, u32)>,
    duplicated: Seq<u32>,
    vertex_count: int,
) -> bool {
    if touches_seam_edge(face, before, seam) {
        vertex_count <= after < vertex_count + duplicated.len() && duplicated[after
            - vertex_count] == before
    } else {
        after == before
    }
}

/// The distinct vertices of a sequence hold every vertex of the sequence
/// exactly once.
pub proof fn distinct_vertices_are_distinct(flat: Seq<u32>)
    ensures
        distinct_vertices(flat).len() <= flat.len(),
        forall|a: int, b: int|
            0 <= a < b < distinct_vertices(flat).len() ==> distinct_vertices(flat)[a]
                != distinct_vertices(flat)[b],
        forall|x: u32| distinct_vertices(flat).contains(x) <==> flat.contains(x),
    decreases flat.len(),
{
    if flat.len() > 0 {
        let shorter = flat.drop_last();
        let before = distinct_vertices(shorter);
        let now = distinct_vertices(flat);
        distinct_vertices_are_distinct(shorter);
        assert forall|a: int, b: int| 0 <= a < b < now.len() implies now[a] != now[b] by {
            if b == before.len() {
                assert(before[a] == now[a]);
                assert(before.contains(now[a]));
            }
        }
        assert forall|x: u32| now.contains(x) <==> flat.contains(x) by {
            if now.contains(x) {
                let w = choose|w: int| 0 <= w < now.len() && now[w] == x;
                if w < before.len() {
                    assert(before[w] == x);
                    assert(before.contains(x));
                    assert(shorter.contains(x));
                    let u = choose|u: int| 0 <= u < shorter.len() && shorter[u] == x;
                    assert(flat[u] == x);
                } else {
                    assert(flat[flat.len() - 1] == x);
                }
            }
            if flat.contains(x) {
                let u = choose|u: int| 0 <= u < flat.len() && flat[u] == x;
                if u < shorter.len() {
                    assert(shorter[u] == x);
                    assert(shorter.contains(x));
                    assert(before.contains(x));
                    let w = choose|w: int| 0 <= w < before.len() && before[w] == x;
                    assert(now[w] == x);
                } else if before.contains(x) {
                    let w = choose|w: int| 0 <= w < before.len() && before[w] == x;
                    assert(now[w] == x);
                } else {
                    assert(now[now.len() - 1] == x);
                }
            }
        }
    }
}

/// The duplicate map agrees with the list of duplicated vertices: it sends
/// each duplicated vertex, and no other, to the index of its duplicate.
spec fn map_matches(map: Map<u32, u32>, duplicated: Seq<u32>, vertex_count: int) -> bool {
    &&& forall|t: int|
        0 <= t < duplicated.len() ==> (#[trigger] duplicated[t]) < vertex_count && map.contains_key(
            duplicated[t],
        ) && map[duplicated[t]] == vertex_count + t
    &&& forall|v: u32| #[trigger]
        map.contains_key(v) ==> vertex_count <= map[v] < vertex_count + duplicated.len()
            && duplicated[map[v] - vertex_count] == v
}

/// Whether `face` uses vertex `y`.
fn uses_vertex(face: &Face, y: u32) -> (b: bool)
    ensures
        b == face_has(*face, y),
{
    face.indices[0] == y || face.indices[1] == y || face.indices[2] == y
}

/// Whether `face` lies along the seam at `x`.
fn lies_along_seam(face: &Face, x: u32, seam: &Vec<(u32, u32)>) -> (b: bool)
    ensures
        b == touches_seam_edge(*face, x, seam@),
{
    let mut e: usize = 0;
    while e < seam.len()
        invariant
            e <= seam.len(),
            forall|d: int|
                0 <= d < e ==> !((#[trigger] seam[d]).0 == x && face_has(*face, seam[d].1)
                    || seam[d].1 == x && face_has(*face, seam[d].0)),
        decreases seam.len() - e,
    {
        let edge = seam[e];
        if (edge.0 == x && uses_vertex(face, edge.1)) || (edge.1 == x && uses_vertex(face, edge.0)) {
            return true;
        }
        e += 1;
    }
    false
}

/// Cuts `mesh` along `seam`. Every vertex on the seam gets one duplicate,
/// appended after the existing vertices in order of first appearance in the
/// seam. In every face that lies along the seam at a vertex, that is in every
/// face that uses the vertex together with a seam neighbour of it, the vertex
/// is replaced by its duplicate; all other face indices stay. The cut keeps
/// the number of faces and adds exactly one vertex per seam vertex.
#[verifier::rlimit(40)]
pub fn apply_topological_cut(mesh: &MeshData, seam: &Vec<(u32, u32)>) -> (cut: CutMesh)
    requires
        forall|e: int|
            0 <= e < seam.len() ==> (#[trigger] seam[e]).0 < mesh.vertex_count && seam[e].1
                < mesh.vertex_count,
        mesh.vertex_count + 2 * seam.len() <= u32::MAX,
    ensures
        cut.duplicated@ == distinct_vertices(seam_sequence(seam@)),
        cut.mesh.vertex_count == mesh.vertex_count + cut.duplicated.len(),
        cut.mesh.faces.len() == mesh.faces.len(),
        mesh.indices_in_range() ==> cut.mesh.indices_in_range(),
        forall|f: int, k: int|
            0 <= f < mesh.faces.len() && 0 <= k < 3 ==> index_after_cut(
                mesh.faces[f],
                mesh.faces[f].indices[k],
                #[trigger] cut.mesh.faces[f].indices[k],
                seam@,
                cut.duplicated@,
                mesh.vertex_count as int,
            ),
{
    broadcast use vstd::std_specs::hash::group_hash_axioms;

    let vertex_count = mesh.vertex_count;
    let mut map: HashMap<u32, u32> = HashMap::new();
    let mut duplicated: Vec<u32> = Vec::new();
    let ghost flat = seam_sequence(seam@);
    let mut m: usize = 0;
    let total = 2 * seam.len();
    while m < total
        invariant
            m <= total,
            total == 2 * seam.len(),
            vertex_count == mesh.vertex_count,
            vertex_count + total <= u32::MAX,
            flat == seam_sequence(seam@),
            forall|e: int|
                0 <= e < seam.len() ==> (#[trigger] seam[e]).0 < vertex_count && seam[e].1
                    < vertex_count,
            duplicated@ == distinct_vertices(flat.take(m as int)),
            duplicated.len() <= m,
            map_matches(map@, duplicated@, vertex_count as int),
            forall|u: int| 0 <= u < m ==> map@.contains_key(#[trigger] flat[u]),
        decreases total - m,
    {
        let edge = seam[m / 2];
        let x = if m % 2 == 0 {
            edge.0
        } else {
            edge.1
        };
        let ghost before = duplicated@;
        let ghost old_map = map@;
        let known = map.get(&x).is_some();
        proof {
            assert(seam[(m / 2) as int].0 < vertex_count);
            assert(flat[m as int] == x);
            assert(flat.take(m + 1).drop_last() =~= flat.take(m as int));
            assert(flat.take(m + 1).last() == x);
            assert(known == old_map.contains_key(x));
            if before.contains(x) {
                let w = choose|w: int| 0 <= w < before.len() && before[w] == x;
                assert(old_map.contains_key(before[w]));
            }
            if old_map.contains_key(x) {
                assert(before[old_map[x] - vertex_count] == x);
                assert(before.contains(x));
            }
        }
        if !known {
            let fresh = (vertex_count + duplicated.len()) as u32;
            duplicated.push(x);
            map.insert(x, fresh);
            proof {
                assert forall|t: int| 0 <= t < duplicated.len() implies (
                #[trigger] duplicated[t]) < vertex_count && map@.contains_key(duplicated[t])
                    && map@[duplicated[t]] == vertex_count + t by {
                    if t < before.len() {
                        assert(before[t] == duplicated[t]);
                        assert(old_map.contains_key(before[t]));
                    }
                }
                assert forall|v: u32| #[trigger] map@.contains_key(v) implies vertex_count
                    <= map@[v] < vertex_count + duplicated.len() && duplicated[map@[v]
                    - vertex_count] == v by {
                    if v != x {
                        assert(old_map.contains_key(v));
                        assert(before[old_map[v] - vertex_count] == duplicated[old_map[v]
                            - vertex_count]);
                    }
                }
            }
        }
        proof {
            assert forall|u: int| 0 <= u < m + 1 implies map@.contains_key(#[trigger] flat[u]) by {
                if u < m {
                    assert(old_map.contains_key(flat[u]));
                }
            }
        }
        m += 1;
    }
    proof {
        assert(flat.take(total as int) =~= flat);
    }
    let mut faces: Vec<Face> = Vec::new();
    let face_count = mesh.faces.len();
    let mut f: usize = 0;
    while f < face_count
        invariant
            f <= face_count,
            face_count == mesh.faces.len(),
            vertex_count == mesh.vertex_count,
            faces.len() == f,
            flat == seam_sequence(seam@),
            map_matches(map@, duplicated@, vertex_count as int),
            forall|u: int| 0 <= u < flat.len() ==> map@.contains_key(#[trigger] flat[u]),
            forall|g: int, k: int|
                0 <= g < f && 0 <= k < 3 ==> index_after_cut(
                    mesh.faces[g],
                    mesh.faces[g].indices[k],
                    #[trigger] faces[g].indices[k],
                    seam@,
                    duplicated@,
                    vertex_count as int,
                ),
        decreases face_count - f,
    {
        let face = mesh.faces[f];
        let a = moved_index(&face, 0, seam, &map, Ghost(duplicated@), Ghost(vertex_count as int));
        let b = moved_index(&face, 1, seam, &map, Ghost(duplicated@), Ghost(vertex_count as int));
        let c = moved_index(&face, 2, seam, &map, Ghost(duplicated@), Ghost(vertex_count as int));
        let ghost done = faces@;
        faces.push(Face { indices: [a, b, c] });
        proof {
            assert forall|g: int, k: int| 0 <= g < f + 1 && 0 <= k < 3 implies index_after_cut(
                mesh.faces[g],
                mesh.faces[g].indices[k],
                #[trigger] faces[g].indices[k],
                seam@,
                duplicated@,
                vertex_count as int,
            ) by {
                if g < f {
                    assert(faces[g] == done[g]);
                }
            }
        }
        f += 1;
    }
    let cut = CutMesh {
        mesh: MeshData { vertex_count: vertex_count + duplicated.len(), faces },
        duplicated,
    };
    proof {
        if mesh.indices_in_range() {
            assert forall|f: int, k: int|
                0 <= f < cut.mesh.faces.len() && 0 <= k < 3 implies (
            #[trigger] cut.mesh.faces[f].indices[k]) < cut.mesh.vertex_count by {
                assert(mesh.faces[f].indices[k] < mesh.vertex_count);
                assert(index_after_cut(
                    mesh.faces[f],
                    mesh.faces[f].indices[k],
                    cut.mesh.faces[f].indices[k],
                    seam@,
                    cut.duplicated@,
                    mesh.vertex_count as int,
                ));
            }
        }
    }
    cut
}

/// What the cut makes of index `k` of `face`.
fn moved_index(
    face: &Face,
    k: usize,
    seam: &Vec<(u32, u32)>,
    map: &HashMap<u32, u32>,
    Ghost(duplicated): Ghost<Seq<u32>>,
    Ghost(vertex_count): Ghost<int>,
) -> (after: u32)
    requires
        k < 3,
        map_matches(map@, duplicated, vertex_count),
        forall|u: int|
            0 <= u < seam_sequence(seam@).len() ==> map@.contains_key(
                #[trigger] seam_sequence(seam@)[u],
            ),
    ensures
        index_after_cut(*face, face.indices[k as int], after, seam@, duplicated, vertex_count),
{
    broadcast use vstd::std_specs::hash::group_hash_axioms;

    let x = face.indices[k];
    if lies_along_seam(face, x, seam) {
        proof {
            let e = choose|e: int|
                0 <= e < seam.len() && ((#[trigger] seam[e]).0 == x && face_has(*face, seam[e].1)
                    || seam[e].1 == x && face_has(*face, seam[e].0));
            let flat = seam_sequence(seam@);
            if seam[e].0 == x {
                assert(flat[2 * e] == x);
            } else {
                assert(flat[2 * e + 1] == x);
            }
            assert(map@.contains_key(x));
        }
        match map.get(&x) {
            Some(idx) => *idx,
            None => x,
        }
    } else {
        x
    }
}

} // verus!
