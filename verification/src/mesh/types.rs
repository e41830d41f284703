//! Indexed triangles, the half-edge record and the half-edge builder.

use vstd::prelude::*;

verus! {

/// A triangle: three indices into the vertex array.
#[derive(Debug, Clone, Copy)]
pub struct Face {
    pub indices: [u32; 3],
}

/// The topology of a triangle mesh. Vertex attributes (positions, normals,
/// texture coordinates) are kept by the caller, in an array of
/// `vertex_count` entries that the face indices point into.
#[derive(Debug, Clone)]
pub struct MeshData {
    pub vertex_count: usize,
    pub faces: Vec<Face>,
}

impl MeshData {
    /// Every face index names a vertex of the mesh.
    pub open spec fn indices_in_range(&self) -> bool {
        forall|f: int, k: int|
            0 <= f < self.faces.len() && 0 <= k < 3 ==> (#[trigger] self.faces[f].indices[k])
                < self.vertex_count
    }

    /// A mesh without vertices or faces.
    pub fn new() -> (mesh: Self)
        ensures
            mesh.vertex_count == 0,
            mesh.faces@ == Seq::<Face>::empty(),
    {
        MeshData { vertex_count: 0, faces: Vec::new() }
    }

    pub fn vertex_count(&self) -> (n: usize)
        ensures
            n == self.vertex_count,
    {
        self.vertex_count
    }

    pub fn face_count(&self) -> (n: usize)
        ensures
            n == self.faces.len(),
    {
        self.faces.len()
    }

    pub fn is_empty(&self) -> (b: bool)
        ensures
            b == (self.vertex_count == 0 || self.faces.len() == 0),
    {
        self.vertex_count == 0 || self.faces.len() == 0
    }
}

/// One directed edge of a triangle: its origin vertex, its face, the edges
/// after and before it around the face, and the oppositely directed edge of
/// the neighbouring face where there is one.
#[derive(Debug, Clone, Copy)]
pub struct HalfEdge {
    pub vertex: u32,
    pub face: u32,
    pub next: Option<u32>,
    pub prev: Option<u32>,
    pub twin: Option<u32>,
}

/// Half-edge adjacency of a mesh, as flat arrays of indices.
#[derive(Debug, Clone)]
pub struct HalfEdgeMesh {
    pub edges: Vec<HalfEdge>,
    pub vertex_to_edge: Vec<Option<u32>>,
    pub face_to_edge: Vec<u32>,
}

/// Index of the edge that follows edge `e` around its face.
pub open spec fn next_in_face(e: int) -> int {
    3 * (e / 3) + (e % 3 + 1) % 3
}

/// Index of the edge that precedes edge `e` around its face.
pub open spec fn prev_in_face(e: int) -> int {
    3 * (e / 3) + (e % 3 + 2) % 3
}

/// Vertex that edge `e` leaves from.
pub open spec fn origin(edges: Seq<HalfEdge>, e: int) -> u32 {
    edges[e].vertex
}

/// Vertex that edge `e` arrives at.
pub open spec fn destination(edges: Seq<HalfEdge>, e: int) -> u32 {
    edges[next_in_face(e)].vertex
}

/// Edges `i` and `j` join the same two vertices in opposite directions.
pub open spec fn opposite(edges: Seq<HalfEdge>, i: int, j: int) -> bool {
    origin(edges, i) == destination(edges, j) && destination(edges, i) == origin(edges, j)
}

/// The edges are the three directed edges of each face, in face order, wired
/// cyclically.
pub open spec fn edges_follow_faces(edges: Seq<HalfEdge>, faces: Seq<Face>) -> bool {
    &&& edges.len() == 3 * faces.len()
    &&& forall|e: int|
        0 <= e < edges.len() ==> {
            &&& (#[trigger] edges[e]).vertex == faces[e / 3].indices[e % 3]
            &&& edges[e].face == e / 3
            &&& edges[e].next == Some(next_in_face(e) as u32)
            &&& edges[e].prev == Some(prev_in_face(e) as u32)
        }
}

/// Twins are mutual, join the same two vertices in opposite directions, and
/// no two edges without a twin could have been paired with each other.
pub open spec fn twins_are_paired(edges: Seq<HalfEdge>) -> bool {
    &&& forall|a: int|
        0 <= a < edges.len() && (#[trigger] edges[a]).twin is Some ==> {
            let b = edges[a].twin->0 as int;
            &&& b < edges.len()
            &&& b != a
            &&& edges[b].twin == Some(a as u32)
            &&& opposite(edges, a, b)
        }
    &&& forall|a: int, b: int|
        0 <= a < b < edges.len() && (#[trigger] edges[a]).twin is None && (
        #[trigger] edges[b]).twin is None ==> !opposite(edges, a, b)
}

/// Pairing goes by edge order: an edge that is not paired from an earlier
/// edge takes the first edge after it that runs the opposite way and is still
/// free. So wherever edge `a` passed over an opposite edge `k`, `k` had been
/// taken by an edge before `a`.
pub open spec fn pairing_is_greedy(edges: Seq<HalfEdge>) -> bool {
    greedy_below(edges, edges.len() as int)
}

/// [`pairing_is_greedy`] for the edges below `limit`.
pub open spec fn greedy_below(edges: Seq<HalfEdge>, limit: int) -> bool {
    forall|a: int, k: int|
        0 <= a < limit && a < k < edges.len() && #[trigger] opposite(edges, a, k) && (edges[a].twin
            is None || edges[a].twin->0 > k) ==> edges[k].twin is Some && edges[k].twin->0 < a
}

/// `vertex_to_edge` names, for each vertex, the first edge that leaves it, or
/// nothing for a vertex that no face uses.
pub open spec fn vertices_point_to_first_edge(
    vertex_to_edge: Seq<Option<u32>>,
    edges: Seq<HalfEdge>,
) -> bool {
    forall|v: int|
        0 <= v < vertex_to_edge.len() ==> match #[trigger] vertex_to_edge[v] {
            Some(e) => {
                &&& e < edges.len()
                &&& edges[e as int].vertex == v
                &&& forall|d: int| 0 <= d < e ==> (#[trigger] edges[d]).vertex != v
            },
            None => forall|d: int| 0 <= d < edges.len() ==> (#[trigger] edges[d]).vertex != v,
        }
}

impl HalfEdgeMesh {
    /// The adjacency is internally consistent: edges come in face triples
    /// wired cyclically, and every stored index is in range.
    pub open spec fn well_formed(&self) -> bool {
        &&& self.edges.len() == 3 * self.face_to_edge.len()
        &&& self.edges.len() <= u32::MAX
        &&& forall|e: int|
            0 <= e < self.edges.len() ==> {
                &&& (#[trigger] self.edges[e]).next == Some(next_in_face(e) as u32)
                &&& self.edges[e].prev == Some(prev_in_face(e) as u32)
                &&& self.edges[e].twin matches Some(t) ==> t < self.edges.len()
            }
        &&& forall|v: int|
            0 <= v < self.vertex_to_edge.len() ==> (#[trigger] self.vertex_to_edge[v] matches Some(
                e,
            ) ==> e < self.edges.len())
    }

    /// The adjacency is the one built from `mesh`.
    pub open spec fn built_from(&self, mesh: &MeshData) -> bool {
        &&& edges_follow_faces(self.edges@, mesh.faces@)
        &&& twins_are_paired(self.edges@)
        &&& pairing_is_greedy(self.edges@)
        &&& self.vertex_to_edge.len() == mesh.vertex_count
        &&& vertices_point_to_first_edge(self.vertex_to_edge@, self.edges@)
        &&& self.face_to_edge.len() == mesh.faces.len()
        &&& forall|f: int| 0 <= f < self.face_to_edge.len() ==> #[trigger] self.face_to_edge[f] == 3 * f
    }
}

/// The edge with index `e` as the builder first writes it, before twins are
/// paired.
pub open spec fn edge_as_built(faces: Seq<Face>, e: int) -> HalfEdge {
    HalfEdge {
        vertex: faces[e / 3].indices[e % 3],
        face: (e / 3) as u32,
        next: Some(next_in_face(e) as u32),
        prev: Some(prev_in_face(e) as u32),
        twin: None,
    }
}

/// The first conjunct of [`twins_are_paired`]: what holds of every twin that
/// has been set.
pub open spec fn twins_are_mutual(edges: Seq<HalfEdge>) -> bool {
    forall|a: int|
        0 <= a < edges.len() && (#[trigger] edges[a]).twin is Some ==> {
            let b = edges[a].twin->0 as int;
            &&& b < edges.len()
            &&& b != a
            &&& edges[b].twin == Some(a as u32)
            &&& opposite(edges, a, b)
        }
}

/// Only the twin fields of `after` differ from those of `before`.
pub open spec fn same_wiring(before: Seq<HalfEdge>, after: Seq<HalfEdge>) -> bool {
    &&& before.len() == after.len()
    &&& forall|e: int|
        0 <= e < before.len() ==> {
            &&& (#[trigger] after[e]).vertex == before[e].vertex
            &&& after[e].face == before[e].face
            &&& after[e].next == before[e].next
            &&& after[e].prev == before[e].prev
        }
}

proof fn lemma_opposite_ignores_twins(before: Seq<HalfEdge>, after: Seq<HalfEdge>, a: int, b: int)
    requires
        same_wiring(before, after),
        0 <= a < before.len(),
        0 <= b < before.len(),
        before.len() % 3 == 0,
    ensures
        opposite(after, a, b) == opposite(before, a, b),
{
    assert(after[a].vertex == before[a].vertex);
    assert(after[b].vertex == before[b].vertex);
    assert(after[next_in_face(a)].vertex == before[next_in_face(a)].vertex);
    assert(after[next_in_face(b)].vertex == before[next_in_face(b)].vertex);
}

/// Every edge names the edges after and before it in its face triple.
pub open spec fn wired_in_triples(edges: Seq<HalfEdge>) -> bool {
    &&& edges.len() % 3 == 0
    &&& forall|e: int|
        0 <= e < edges.len() ==> {
            &&& (#[trigger] edges[e]).next == Some(next_in_face(e) as u32)
            &&& edges[e].prev == Some(prev_in_face(e) as u32)
        }
}

/// No edge below `limit` that is still without a twin has an unpaired edge
/// after it that runs the opposite way.
pub open spec fn unpaired_are_apart(edges: Seq<HalfEdge>, limit: int) -> bool {
    forall|a: int, b: int|
        0 <= a < limit && a < b < edges.len() && (#[trigger] edges[a]).twin is None && (
        #[trigger] edges[b]).twin is None ==> !opposite(edges, a, b)
}

proof fn lemma_same_wiring_chains(a: Seq<HalfEdge>, b: Seq<HalfEdge>, c: Seq<HalfEdge>)
    requires
        same_wiring(a, b),
        same_wiring(b, c),
    ensures
        same_wiring(a, c),
{
    assert forall|e: int| 0 <= e < a.len() implies {
        &&& (#[trigger] c[e]).vertex == a[e].vertex
        &&& c[e].face == a[e].face
        &&& c[e].next == a[e].next
        &&& c[e].prev == a[e].prev
    } by {
        assert(b[e].vertex == a[e].vertex);
    }
}

proof fn lemma_unpaired_stay_apart(before: Seq<HalfEdge>, after: Seq<HalfEdge>, i: int)
    requires
        before.len() % 3 == 0,
        0 <= i < before.len(),
        same_wiring(before, after),
        unpaired_are_apart(before, i),
        after[i].twin is Some,
        exists|j: int| 0 <= j < before.len() && after[j].twin is Some && #[trigger] others_keep_twins(
            before,
            after,
            i,
            j,
        ),
    ensures
        unpaired_are_apart(after, i + 1),
{
    let j = choose|j: int|
        0 <= j < before.len() && after[j].twin is Some && #[trigger] others_keep_twins(
            before,
            after,
            i,
            j,
        );
    assert forall|a: int, b: int|
        0 <= a < i + 1 && a < b < after.len() && (#[trigger] after[a]).twin is None && (
        #[trigger] after[b]).twin is None implies !opposite(after, a, b) by {
        assert(after[a].twin == before[a].twin);
        assert(after[b].twin == before[b].twin);
        lemma_opposite_ignores_twins(before, after, a, b);
    }
}

/// Every pair made so far has one of its edges below `limit`.
pub open spec fn pairs_start_below(edges: Seq<HalfEdge>, limit: int) -> bool {
    forall|a: int|
        0 <= a < edges.len() && (#[trigger] edges[a]).twin is Some ==> a < limit
            || edges[a].twin->0 < limit
}

proof fn lemma_greedy_after_pairing(before: Seq<HalfEdge>, after: Seq<HalfEdge>, i: int, j: int)
    requires
        before.len() % 3 == 0,
        0 <= i < j < before.len(),
        before.len() <= u32::MAX,
        same_wiring(before, after),
        twins_are_mutual(before),
        greedy_below(before, i),
        pairs_start_below(before, i),
        before[i].twin is None,
        before[j].twin is None,
        after[i].twin == Some(j as u32),
        after[j].twin == Some(i as u32),
        forall|e: int|
            0 <= e < before.len() && e != i && e != j ==> (#[trigger] after[e]).twin
                == before[e].twin,
        forall|b: int|
            i < b < j && (#[trigger] before[b]).twin is None ==> !opposite(before, i, b),
    ensures
        greedy_below(after, i + 1),
        pairs_start_below(after, i + 1),
{
    assert forall|a: int, k: int|
        0 <= a < i + 1 && a < k < after.len() && #[trigger] opposite(after, a, k) && (after[a].twin
            is None || after[a].twin->0 > k) implies after[k].twin is Some && after[k].twin->0
        < a by {
        lemma_opposite_ignores_twins(before, after, a, k);
        if a == i {
            assert(k < j);
            assert(before[k].twin is Some);
            assert(after[k].twin == before[k].twin);
        } else {
            assert(after[a].twin == before[a].twin);
            assert(opposite(before, a, k));
            assert(before[k].twin is Some && before[k].twin->0 < a);
            assert(k != i && k != j);
        }
    }
    assert forall|a: int| 0 <= a < after.len() && (#[trigger] after[a]).twin is Some implies a < i
        + 1 || after[a].twin->0 < i + 1 by {
        if a != i && a != j {
            assert(after[a].twin == before[a].twin);
        }
    }
}

proof fn lemma_greedy_without_pairing(edges: Seq<HalfEdge>, i: int)
    requires
        0 <= i < edges.len(),
        greedy_below(edges, i),
        pairs_start_below(edges, i),
        twins_are_mutual(edges),
        edges[i].twin is Some || forall|b: int|
            i < b < edges.len() && (#[trigger] edges[b]).twin is None ==> !opposite(edges, i, b),
    ensures
        greedy_below(edges, i + 1),
        pairs_start_below(edges, i + 1),
{
    assert forall|a: int, k: int|
        0 <= a < i + 1 && a < k < edges.len() && #[trigger] opposite(edges, a, k) && (edges[a].twin
            is None || edges[a].twin->0 > k) implies edges[k].twin is Some && edges[k].twin->0
        < a by {
        if a == i {
            if edges[i].twin is Some {
                assert(edges[i].twin->0 < i);
            } else {
                assert(edges[k].twin is Some);
                assert(k < i || edges[k].twin->0 < i);
            }
        }
    }
}

/// First unpaired edge after `i` that runs the opposite way, if there is one.
fn find_twin(edges: &Vec<HalfEdge>, i: usize) -> (r: Option<usize>)
    requires
        i < edges.len(),
        edges.len() <= u32::MAX,
        wired_in_triples(edges@),
    ensures
        r matches Some(j) ==> i < j < edges.len() && edges[j as int].twin is None && opposite(
            edges@,
            i as int,
            j as int,
        ),
        r matches Some(j) ==> forall|b: int|
            i < b < j && (#[trigger] edges[b]).twin is None ==> !opposite(edges@, i as int, b),
        r is None ==> forall|b: int|
            i < b < edges.len() && (#[trigger] edges[b]).twin is None ==> !opposite(
                edges@,
                i as int,
                b,
            ),
{
    let edge_count = edges.len();
    assert(edges[i as int].next == Some(next_in_face(i as int) as u32));
    let v0 = edges[i].vertex;
    let v1 = edges[edges[i].next.unwrap() as usize].vertex;
    let mut j: usize = i + 1;
    while j < edge_count
        invariant
            i < j <= edge_count,
            edge_count == edges.len(),
            edge_count <= u32::MAX,
            wired_in_triples(edges@),
            v0 == origin(edges@, i as int),
            v1 == destination(edges@, i as int),
            forall|b: int|
                i < b < j && (#[trigger] edges[b]).twin is None ==> !opposite(
                    edges@,
                    i as int,
                    b,
                ),
        decreases edge_count - j,
    {
        assert(edges[j as int].next == Some(next_in_face(j as int) as u32));
        let w0 = edges[j].vertex;
        let w1 = edges[edges[j].next.unwrap() as usize].vertex;
        if edges[j].twin.is_none() && v0 == w1 && v1 == w0 {
            return Some(j);
        }
        j += 1;
    }
    None
}

/// All edges but `i` and `j` have the twin they had.
pub open spec fn others_keep_twins(
    before: Seq<HalfEdge>,
    after: Seq<HalfEdge>,
    i: int,
    j: int,
) -> bool {
    forall|e: int|
        0 <= e < before.len() && e != i && e != j ==> (#[trigger] after[e]).twin == before[e].twin
}

/// Makes edges `i` and `j` each other's twin.
fn set_twins(edges: &mut Vec<HalfEdge>, i: usize, j: usize)
    requires
        i < j < old(edges).len(),
        old(edges).len() <= u32::MAX,
        old(edges).len() % 3 == 0,
        old(edges)[i as int].twin is None,
        old(edges)[j as int].twin is None,
        opposite(old(edges)@, i as int, j as int),
        twins_are_mutual(old(edges)@),
        wired_in_triples(old(edges)@),
    ensures
        same_wiring(old(edges)@, final(edges)@),
        wired_in_triples(final(edges)@),
        twins_are_mutual(final(edges)@),
        final(edges)[i as int].twin == Some(j as u32),
        final(edges)[j as int].twin == Some(i as u32),
        others_keep_twins(old(edges)@, final(edges)@, i as int, j as int),
{
    let ghost before = edges@;
    let mut first = edges[i];
    first.twin = Some(j as u32);
    edges.set(i, first);
    let mut second = edges[j];
    second.twin = Some(i as u32);
    edges.set(j, second);
    proof {
        assert(same_wiring(before, edges@));
        assert forall|a: int| 0 <= a < edges.len() && (#[trigger] edges[a]).twin is Some implies {
            let b = edges[a].twin->0 as int;
            &&& b < edges.len()
            &&& b != a
            &&& edges[b].twin == Some(a as u32)
            &&& opposite(edges@, a, b)
        } by {
            let b = edges[a].twin->0 as int;
            if a == i {
                lemma_opposite_ignores_twins(before, edges@, a, b);
            } else if a == j {
                lemma_opposite_ignores_twins(before, edges@, b, a);
                lemma_opposite_ignores_twins(before, edges@, a, b);
            } else {
                assert(before[a].twin == edges[a].twin);
                assert(before[b].twin == Some(a as u32));
                lemma_opposite_ignores_twins(before, edges@, a, b);
            }
        }
    }
}

impl HalfEdgeMesh {
    /// Builds the half-edge adjacency of `mesh`: three directed edges per
    /// face, wired cyclically; for each vertex the first edge leaving it; and
    /// twins paired by matching each edge with an unpaired edge that runs the
    /// opposite way.
    #[verifier::rlimit(40)]
    pub fn from_mesh(mesh: &MeshData) -> (he: Self)
        requires
            mesh.indices_in_range(),
            3 * mesh.faces.len() <= u32::MAX,
        ensures
            he.built_from(mesh),
            he.well_formed(),
    {
        let face_count = mesh.faces.len();
        let mut edges: Vec<HalfEdge> = Vec::new();
        let mut vertex_to_edge: Vec<Option<u32>> = Vec::new();
        let mut face_to_edge: Vec<u32> = Vec::new();
        let mut v: usize = 0;
        while v < mesh.vertex_count
            invariant
                v <= mesh.vertex_count,
                vertex_to_edge.len() == v,
                forall|u: int| 0 <= u < v ==> #[trigger] vertex_to_edge[u] is None,
            decreases mesh.vertex_count - v,
        {
            vertex_to_edge.push(None);
            v += 1;
        }
        let mut f: usize = 0;
        while f < face_count
            invariant
                f <= face_count,
                face_count == mesh.faces.len(),
                3 * face_count <= u32::MAX,
                mesh.indices_in_range(),
                edges.len() == 3 * f,
                face_to_edge.len() == f,
                vertex_to_edge.len() == mesh.vertex_count,
                forall|g: int| 0 <= g < f ==> #[trigger] face_to_edge[g] == 3 * g,
                forall|e: int|
                    0 <= e < edges.len() ==> #[trigger] edges[e] == edge_as_built(mesh.faces@, e),
                vertices_point_to_first_edge(vertex_to_edge@, edges@),
            decreases face_count - f,
        {
            let start: usize = 3 * f;
            face_to_edge.push(start as u32);
            let face = mesh.faces[f];
            let mut k: usize = 0;
            while k < 3
                invariant
                    k <= 3,
                    f < face_count,
                    face_count == mesh.faces.len(),
                    3 * face_count <= u32::MAX,
                    mesh.indices_in_range(),
                    start == 3 * f,
                    face == mesh.faces[f as int],
                    edges.len() == 3 * f + k,
                    vertex_to_edge.len() == mesh.vertex_count,
                    forall|e: int|
                        0 <= e < edges.len() ==> #[trigger] edges[e] == edge_as_built(
                            mesh.faces@,
                            e,
                        ),
                    vertices_point_to_first_edge(vertex_to_edge@, edges@),
                decreases 3 - k,
            {
                let vertex = face.indices[k];
                let e = start + k;
                assert(mesh.faces[f as int].indices[k as int] < mesh.vertex_count);
                let ghost old_edges = edges@;
                let ghost old_map = vertex_to_edge@;
                edges.push(
                    HalfEdge {
                        vertex,
                        face: f as u32,
                        next: Some((start + (k + 1) % 3) as u32),
                        prev: Some((start + (k + 2) % 3) as u32),
                        twin: None,
                    },
                );
                if vertex_to_edge[vertex as usize].is_none() {
                    vertex_to_edge.set(vertex as usize, Some(e as u32));
                }
                proof {
                    assert(edges@[e as int] == edge_as_built(mesh.faces@, e as int));
                    assert forall|u: int| 0 <= u < vertex_to_edge.len() implies match 
                    #[trigger] vertex_to_edge[u] {
                        Some(first) => {
                            &&& first < edges.len()
                            &&& edges[first as int].vertex == u
                            &&& forall|d: int| 0 <= d < first ==> (#[trigger] edges[d]).vertex != u
                        },
                        None => forall|d: int|
                            0 <= d < edges.len() ==> (#[trigger] edges[d]).vertex != u,
                    } by {
                        let was = old_map[u];
                        if u == vertex as int && was is None {
                            assert forall|d: int| 0 <= d < e implies (#[trigger] edges[d]).vertex
                                != u by {
                                assert(old_edges[d] == edges[d]);
                            }
                        } else {
                            assert(vertex_to_edge[u] == was);
                            match was {
                                Some(first) => {
                                    assert(edges[first as int] == old_edges[first as int]);
                                    assert forall|d: int| 0 <= d < first implies (
                                    #[trigger] edges[d]).vertex != u by {
                                        assert(old_edges[d] == edges[d]);
                                    }
                                },
                                None => {
                                    assert forall|d: int| 0 <= d < edges.len() implies (
                                    #[trigger] edges[d]).vertex != u by {
                                        if d < e {
                                            assert(old_edges[d] == edges[d]);
                                        }
                                    }
                                },
                            }
                        }
                    }
                }
                k += 1;
            }
            f += 1;
        }
        let edge_count = edges.len();
        let ghost built = edges@;
        proof {
            assert(edges_follow_faces(built, mesh.faces@));
            assert(twins_are_mutual(built));
        }
        let mut i: usize = 0;
        while i < edge_count
            invariant
                i <= edge_count,
                edge_count == edges.len(),
                edge_count == 3 * mesh.faces.len(),
                edge_count <= u32::MAX,
                wired_in_triples(edges@),
                same_wiring(built, edges@),
                twins_are_mutual(edges@),
                unpaired_are_apart(edges@, i as int),
                greedy_below(edges@, i as int),
                pairs_start_below(edges@, i as int),
            decreases edge_count - i,
        {
            if edges[i].twin.is_none() {
                match find_twin(&edges, i) {
                    Some(j) => {
                        let ghost before = edges@;
                        set_twins(&mut edges, i, j);
                        proof {
                            assert(others_keep_twins(before, edges@, i as int, j as int));
                            lemma_unpaired_stay_apart(before, edges@, i as int);
                            lemma_same_wiring_chains(built, before, edges@);
                            lemma_greedy_after_pairing(before, edges@, i as int, j as int);
                        }
                    },
                    None => {
                        proof {
                            lemma_greedy_without_pairing(edges@, i as int);
                        }
                    },
                }
            } else {
                proof {
                    lemma_greedy_without_pairing(edges@, i as int);
                }
            }
            i += 1;
        }
        let he = HalfEdgeMesh { edges, vertex_to_edge, face_to_edge };
        proof {
            assert(edges_follow_faces(he.edges@, mesh.faces@));
            assert forall|u: int| 0 <= u < he.vertex_to_edge.len() implies match 
            #[trigger] he.vertex_to_edge[u] {
                Some(first) => {
                    &&& first < he.edges.len()
                    &&& he.edges[first as int].vertex == u
                    &&& forall|d: int| 0 <= d < first ==> (#[trigger] he.edges[d]).vertex != u
                },
                None => forall|d: int|
                    0 <= d < he.edges.len() ==> (#[trigger] he.edges[d]).vertex != u,
            } by {
                match he.vertex_to_edge[u] {
                    Some(first) => {
                        assert(he.edges[first as int].vertex == built[first as int].vertex);
                        assert forall|d: int| 0 <= d < first implies (
                        #[trigger] he.edges[d]).vertex != u by {
                            assert(built[d].vertex != u);
                        }
                    },
                    None => {
                        assert forall|d: int| 0 <= d < he.edges.len() implies (
                        #[trigger] he.edges[d]).vertex != u by {
                            assert(built[d].vertex != u);
                        }
                    },
                }
            }
        }
        he
    }
}

/// Number of edges met when walking the fan of edges around a vertex: from
/// `current`, cross to the twin and take the edge after it, until an edge
/// without a twin is met, the walk is back at `start`, or `fuel` edges have
/// been counted.
pub open spec fn fan_size(edges: Seq<HalfEdge>, start: int, current: int, fuel: nat) -> nat
    decreases fuel,
{
    if fuel == 0 {
        0
    } else {
        match edges[current].twin {
            None => 1,
            Some(t) => {
                let following = next_in_face(t as int);
                if following == start {
                    1
                } else {
                    1 + fan_size(edges, start, following, (fuel - 1) as nat)
                }
            },
        }
    }
}

impl HalfEdgeMesh {
    /// Number of edges in the fan around `vertex`, walked from the vertex's
    /// first edge; zero for a vertex that no face uses. The walk never counts
    /// more edges than the mesh has.
    pub open spec fn valence(&self, vertex: int) -> nat {
        match self.vertex_to_edge[vertex] {
            None => 0,
            Some(start) => fan_size(self.edges@, start as int, start as int, self.edges.len() as nat),
        }
    }

    /// Counts the edges in the fan around `vertex`.
    pub fn vertex_valence(&self, vertex: u32) -> (count: usize)
        requires
            self.well_formed(),
            vertex < self.vertex_to_edge.len(),
        ensures
            count == self.valence(vertex as int),
            count <= self.edges.len(),
    {
        let mut count: usize = 0;
        match self.vertex_to_edge[vertex as usize] {
            None => {},
            Some(start_edge) => {
                let edge_count = self.edges.len();
                let ghost total = fan_size(
                    self.edges@,
                    start_edge as int,
                    start_edge as int,
                    edge_count as nat,
                );
                let mut current = start_edge;
                let mut fuel = edge_count;
                let mut done = false;
                while fuel > 0 && !done
                    invariant
                        self.well_formed(),
                        edge_count == self.edges.len(),
                        current < edge_count,
                        start_edge < edge_count,
                        count + fuel == edge_count,
                        !done ==> count + fan_size(
                            self.edges@,
                            start_edge as int,
                            current as int,
                            fuel as nat,
                        ) == total,
                        done ==> count == total,
                    decreases fuel, if done { 0int } else { 1int },
                {
                    count += 1;
                    fuel -= 1;
                    match self.edges[current as usize].twin {
                        None => {
                            done = true;
                        },
                        Some(twin) => {
                            assert(self.edges[twin as int].next == Some(
                                next_in_face(twin as int) as u32,
                            ));
                            let following = self.edges[twin as usize].next.unwrap();
                            if following == start_edge {
                                done = true;
                            } else {
                                current = following;
                            }
                        },
                    }
                }
            },
        }
        count
    }
}

/// Following `next` three times around a face leads back to the edge one
/// started from, and `prev` undoes `next`.
pub proof fn face_cycle_closes(e: int)
    requires
        0 <= e,
    ensures
        next_in_face(next_in_face(next_in_face(e))) == e,
        prev_in_face(next_in_face(e)) == e,
        next_in_face(e) / 3 == e / 3,
{
}

/// No two edges join the same two vertices in the same direction.
pub open spec fn directed_edges_are_unique(edges: Seq<HalfEdge>) -> bool {
    forall|a: int, b: int|
        0 <= a < edges.len() && 0 <= b < edges.len() && a != b ==> !(#[trigger] origin(edges, a)
            == #[trigger] origin(edges, b) && destination(edges, a) == destination(edges, b))
}

/// On a mesh in which every directed edge occurs once, pairing leaves no
/// choice: an edge's twin is the one edge that runs the opposite way, and
/// an edge is without twin exactly when there is no such edge.
pub proof fn twins_of_unique_edges(edges: Seq<HalfEdge>, i: int, j: int)
    requires
        twins_are_paired(edges),
        directed_edges_are_unique(edges),
        edges.len() <= u32::MAX,
        0 <= i < edges.len(),
        0 <= j < edges.len(),
        i != j,
    ensures
        edges[i].twin == Some(j as u32) <==> opposite(edges, i, j),
{
    if opposite(edges, i, j) {
        match edges[i].twin {
            Some(t) => {
                assert(opposite(edges, i, t as int));
                if t != j {
                    assert(origin(edges, t as int) == origin(edges, j));
                }
            },
            None => {
                match edges[j].twin {
                    Some(u) => {
                        assert(opposite(edges, j, u as int));
                        assert(edges[u as int].twin == Some(j as u32));
                        if u != i {
                            assert(origin(edges, u as int) == origin(edges, i));
                        }
                    },
                    None => {
                        if i < j {
                            assert(!opposite(edges, i, j));
                        } else {
                            assert(!opposite(edges, j, i));
                        }
                    },
                }
            },
        }
    }
}

/// The edges met on the walk that [`fan_size`] counts, in walking order.
pub open spec fn fan_edges(edges: Seq<HalfEdge>, start: int, current: int, fuel: nat) -> Seq<u32>
    decreases fuel,
{
    if fuel == 0 {
        Seq::empty()
    } else {
        match edges[current].twin {
            None => seq![current as u32],
            Some(t) => {
                let following = next_in_face(t as int);
                if following == start {
                    seq![current as u32]
                } else {
                    seq![current as u32] + fan_edges(edges, start, following, (fuel - 1) as nat)
                }
            },
        }
    }
}

/// The vertices around a vertex, met when walking its fan the other way:
/// from `current`, note where the edge leads, step back to the edge before
/// it in its face and cross to that edge's twin, until an edge without twin
/// is met, the walk is back at `start`, or `fuel` vertices have been noted.
pub open spec fn ring_vertices(edges: Seq<HalfEdge>, start: int, current: int, fuel: nat) -> Seq<u32>
    decreases fuel,
{
    if fuel == 0 {
        Seq::empty()
    } else {
        match edges[prev_in_face(current)].twin {
            None => seq![destination(edges, current)],
            Some(t) => if t == start {
                seq![destination(edges, current)]
            } else {
                seq![destination(edges, current)] + ring_vertices(
                    edges,
                    start,
                    t as int,
                    (fuel - 1) as nat,
                )
            },
        }
    }
}

/// The fan has as many edges as [`fan_size`] counts.
pub proof fn fan_size_counts_fan_edges(edges: Seq<HalfEdge>, start: int, current: int, fuel: nat)
    ensures
        fan_edges(edges, start, current, fuel).len() == fan_size(edges, start, current, fuel),
    decreases fuel,
{
    if fuel > 0 {
        match edges[current].twin {
            None => {},
            Some(t) => {
                fan_size_counts_fan_edges(edges, start, next_in_face(t as int), (fuel - 1) as nat);
            },
        }
    }
}

impl HalfEdgeMesh {
    /// The edges of the fan around `vertex`, from the vertex's first edge
    /// on; none for a vertex that no face uses.
    pub open spec fn fan(&self, vertex: int) -> Seq<u32> {
        match self.vertex_to_edge[vertex] {
            None => Seq::empty(),
            Some(start) => fan_edges(
                self.edges@,
                start as int,
                start as int,
                self.edges.len() as nat,
            ),
        }
    }

    /// The vertices around `vertex`, from where the vertex's first edge
    /// leads on; none for a vertex that no face uses.
    pub open spec fn ring(&self, vertex: int) -> Seq<u32> {
        match self.vertex_to_edge[vertex] {
            None => Seq::empty(),
            Some(start) => ring_vertices(
                self.edges@,
                start as int,
                start as int,
                self.edges.len() as nat,
            ),
        }
    }

    /// Walks the fan of edges around `vertex`.
    #[verifier::rlimit(40)]
    pub fn outgoing_fan(&self, vertex: u32) -> (fan: Vec<u32>)
        requires
            self.well_formed(),
            vertex < self.vertex_to_edge.len(),
        ensures
            fan@ == self.fan(vertex as int),
            fan.len() == self.valence(vertex as int),
            forall|k: int| 0 <= k < fan.len() ==> (#[trigger] fan[k]) < self.edges.len(),
    {
        let mut fan: Vec<u32> = Vec::new();
        match self.vertex_to_edge[vertex as usize] {
            None => {},
            Some(start_edge) => {
                let edge_count = self.edges.len();
                let ghost whole = fan_edges(
                    self.edges@,
                    start_edge as int,
                    start_edge as int,
                    edge_count as nat,
                );
                proof {
                    fan_size_counts_fan_edges(
                        self.edges@,
                        start_edge as int,
                        start_edge as int,
                        edge_count as nat,
                    );
                }
                let mut current = start_edge;
                let mut fuel = edge_count;
                let mut done = false;
                assert(fan@ + whole =~= whole);
                while fuel > 0 && !done
                    invariant
                        self.well_formed(),
                        edge_count == self.edges.len(),
                        current < edge_count,
                        start_edge < edge_count,
                        fuel <= edge_count,
                        !done ==> fan@ + fan_edges(
                            self.edges@,
                            start_edge as int,
                            current as int,
                            fuel as nat,
                        ) == whole,
                        done ==> fan@ == whole,
                        forall|k: int| 0 <= k < fan.len() ==> (#[trigger] fan[k]) < edge_count,
                    decreases fuel, if done { 0int } else { 1int },
                {
                    let ghost before = fan@;
                    fan.push(current);
                    fuel -= 1;
                    match self.edges[current as usize].twin {
                        None => {
                            done = true;
                            assert(fan@ =~= before + seq![current]);
                        },
                        Some(twin) => {
                            assert(self.edges[twin as int].next == Some(
                                next_in_face(twin as int) as u32,
                            ));
                            let following = self.edges[twin as usize].next.unwrap();
                            if following == start_edge {
                                done = true;
                                assert(fan@ =~= before + seq![current]);
                            } else {
                                assert(fan@ + fan_edges(
                                    self.edges@,
                                    start_edge as int,
                                    following as int,
                                    fuel as nat,
                                ) =~= before + (seq![current] + fan_edges(
                                    self.edges@,
                                    start_edge as int,
                                    following as int,
                                    fuel as nat,
                                )));
                                current = following;
                            }
                        },
                    }
                }
                assert(fan@ + Seq::<u32>::empty() =~= fan@);
            },
        }
        fan
    }

    /// Collects the vertices around `vertex`.
    #[verifier::rlimit(40)]
    pub fn neighbour_ring(&self, vertex: u32) -> (ring: Vec<u32>)
        requires
            self.well_formed(),
            vertex < self.vertex_to_edge.len(),
        ensures
            ring@ == self.ring(vertex as int),
            ring.len() <= self.edges.len(),
    {
        let mut ring: Vec<u32> = Vec::new();
        match self.vertex_to_edge[vertex as usize] {
            None => {},
            Some(start_edge) => {
                let edge_count = self.edges.len();
                let ghost whole = ring_vertices(
                    self.edges@,
                    start_edge as int,
                    start_edge as int,
                    edge_count as nat,
                );
                let mut current = start_edge;
                let mut fuel = edge_count;
                let mut done = false;
                assert(ring@ + whole =~= whole);
                while fuel > 0 && !done
                    invariant
                        self.well_formed(),
                        edge_count == self.edges.len(),
                        current < edge_count,
                        start_edge < edge_count,
                        ring.len() + fuel == edge_count,
                        !done ==> ring@ + ring_vertices(
                            self.edges@,
                            start_edge as int,
                            current as int,
                            fuel as nat,
                        ) == whole,
                        done ==> ring@ == whole,
                    decreases fuel, if done { 0int } else { 1int },
                {
                    let ghost before = ring@;
                    assert(self.edges[current as int].next == Some(
                        next_in_face(current as int) as u32,
                    ));
                    assert(self.edges[current as int].prev == Some(
                        prev_in_face(current as int) as u32,
                    ));
                    let edge = self.edges[current as usize];
                    let leads_to = self.edges[edge.next.unwrap() as usize].vertex;
                    ring.push(leads_to);
                    fuel -= 1;
                    match self.edges[edge.prev.unwrap() as usize].twin {
                        None => {
                            done = true;
                            assert(ring@ =~= before + seq![leads_to]);
                        },
                        Some(across) => {
                            if across == start_edge {
                                done = true;
                                assert(ring@ =~= before + seq![leads_to]);
                            } else {
                                assert(ring@ + ring_vertices(
                                    self.edges@,
                                    start_edge as int,
                                    across as int,
                                    fuel as nat,
                                ) =~= before + (seq![leads_to] + ring_vertices(
                                    self.edges@,
                                    start_edge as int,
                                    across as int,
                                    fuel as nat,
                                )));
                                current = across;
                            }
                        },
                    }
                }
                assert(ring@ + Seq::<u32>::empty() =~= ring@);
            },
        }
        ring
    }
}

} // verus!
