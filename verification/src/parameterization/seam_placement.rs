//! Seam placement: boundary loops of an open mesh, and the bookkeeping
//! around a shortest-path seam on a closed one.

use vstd::prelude::*;
use vstd::string::*;
use crate::mesh::types::HalfEdge;
use crate::mesh::types::HalfEdgeMesh;
use crate::mesh::types::Face;
use crate::mesh::types::MeshData;
use crate::parameterization::boundary::boundary_loops;
use crate::parameterization::boundary::is_boundary_walk;
use crate::parameterization::boundary::are_vertices_of;
use crate::parameterization::boundary::is_open;
use crate::parameterization::boundary::is_chain;
use crate::parameterization::boundary::on_chains;
use crate::parameterization::boundary::rim_is_simple;
use crate::parameterization::boundary::simple_rim_walks_in_loops;
use crate::parameterization::boundary::loop_vertices_are_joined;
use crate::mesh::types::origin;
use crate::mesh::types::destination;
use crate::types::PatternError;

verus! {

pub struct SeamPlacer {
    _private: (),
}

/// On a mesh with a simple rim, the seam taken from a boundary loop runs
/// along open edges: pair `i` of the seam joins the two ends of edge `i` of
/// the walk, which no second face uses, and each pair starts where the pair
/// before it ends.
pub proof fn seam_runs_along_open_edges(
    edges: Seq<HalfEdge>,
    chains: Seq<Vec<u32>>,
    loops: Seq<Vec<u32>>,
    best: int,
    i: int,
)
    requires
        is_boundary_walk(edges, chains),
        are_vertices_of(edges, chains, loops),
        rim_is_simple(edges),
        0 <= best < loops.len(),
        0 <= i < loops[best].len(),
    ensures
        is_open(edges, chains[best][i] as int),
        loop_edges(loops[best]@)[i] == (
            origin(edges, chains[best][i] as int),
            destination(edges, chains[best][i] as int),
        ),
        i + 1 < loops[best].len() ==> loop_edges(loops[best]@)[i].1 == loop_edges(
            loops[best]@,
        )[i + 1].0,
{
    let n = loops[best].len() as int;
    simple_rim_walks_in_loops(edges, chains, best);
    loop_vertices_are_joined(edges, chains, loops, best, i);
    if i + 1 < n {
        vstd::arithmetic::div_mod::lemma_small_mod((i + 1) as nat, n as nat);
        if i + 2 < n {
            vstd::arithmetic::div_mod::lemma_small_mod((i + 2) as nat, n as nat);
        } else {
            vstd::arithmetic::div_mod::lemma_mod_self_0(n);
        }
    } else {
        vstd::arithmetic::div_mod::lemma_mod_self_0(n);
    }
}

/// Loop `best` is the longest of `loops`, and the first of that length.
pub open spec fn is_longest(loops: Seq<Vec<u32>>, best: int) -> bool {
    &&& 0 <= best < loops.len()
    &&& forall|k: int| 0 <= k < loops.len() ==> (#[trigger] loops[k]).len() <= loops[best].len()
    &&& forall|k: int| 0 <= k < best ==> (#[trigger] loops[k]).len() < loops[best].len()
}

/// The edges that join consecutive vertices of a closed loop, the last vertex
/// back to the first.
pub open spec fn loop_edges(boundary: Seq<u32>) -> Seq<(u32, u32)> {
    Seq::new(boundary.len(), |i: int| (boundary[i], boundary[(i + 1) % boundary.len() as int]))
}

/// The edges that join consecutive vertices of an open path.
pub open spec fn path_edges(path: Seq<u32>) -> Seq<(u32, u32)> {
    if path.len() == 0 {
        Seq::empty()
    } else {
        Seq::new((path.len() - 1) as nat, |i: int| (path[i], path[i + 1]))
    }
}

/// The vertices met when walking the predecessor links back from `current`
/// until `start` is the predecessor, a vertex without predecessor is met, or
/// `fuel` vertices have been collected.
pub open spec fn walk_back(previous: Seq<Option<u32>>, start: u32, current: u32, fuel: nat) -> Seq<
    u32,
>
    decreases fuel,
{
    if fuel == 0 {
        Seq::empty()
    } else {
        match previous[current as int] {
            None => Seq::empty(),
            Some(p) => if p == start {
                seq![current]
            } else {
                seq![current] + walk_back(previous, start, p, (fuel - 1) as nat)
            },
        }
    }
}

/// The path from `start` to `end` that the predecessor links describe.
pub open spec fn linked_path(previous: Seq<Option<u32>>, start: u32, end: u32) -> Seq<u32> {
    walk_back(previous, start, end, previous.len()).push(start).reverse()
}

/// Every predecessor link names a vertex.
pub open spec fn links_in_range(previous: Seq<Option<u32>>) -> bool {
    forall|v: int|
        0 <= v < previous.len() ==> (#[trigger] previous[v] matches Some(p) ==> p < previous.len())
}

impl SeamPlacer {
    pub fn new() -> Self {
        Self { _private: () }
    }

    /// Finds the boundary loops of the mesh. The rim is walked from every
    /// open edge that has not been walked yet, in edge order, each time along
    /// the open edge that leaves where the last one arrived; every loop names
    /// the vertices met on one such walk. Every open edge lies on exactly
    /// one walk, and on a mesh with a simple rim every walk is closed.
    pub fn find_boundary_loops(&self, half_edge: &HalfEdgeMesh) -> (boundaries: Vec<Vec<u32>>)
        requires
            half_edge.well_formed(),
        ensures
            exists|chains: Seq<Vec<u32>>|
                #[trigger] is_boundary_walk(half_edge.edges@, chains) && are_vertices_of(
                    half_edge.edges@,
                    chains,
                    boundaries@,
                ),
    {
        let (loops, Ghost(chains)) = boundary_loops(half_edge);
        assert(is_boundary_walk(half_edge.edges@, chains) && are_vertices_of(
            half_edge.edges@,
            chains,
            loops@,
        ));
        loops
    }

    /// Converts a boundary loop to its edges, closing the loop.
    pub fn boundary_to_edges(&self, boundary: &[u32]) -> (edges: Vec<(u32, u32)>)
        ensures
            edges@ == loop_edges(boundary@),
    {
        let mut edges: Vec<(u32, u32)> = Vec::new();
        let n = boundary.len();
        let mut i: usize = 0;
        while i < n
            invariant
                i <= n,
                n == boundary.len(),
                edges.len() == i,
                forall|j: int|
                    0 <= j < i ==> #[trigger] edges[j] == (boundary[j], boundary[(j + 1) % n as int]),
            decreases n - i,
        {
            let v0 = boundary[i];
            let following = if i + 1 == n {
                0
            } else {
                i + 1
            };
            let v1 = boundary[following];
            proof {
                if i + 1 == n {
                    vstd::arithmetic::div_mod::lemma_mod_self_0(n as int);
                } else {
                    vstd::arithmetic::div_mod::lemma_small_mod((i + 1) as nat, n as nat);
                }
            }
            edges.push((v0, v1));
            i += 1;
        }
        assert(edges@ =~= loop_edges(boundary@));
        edges
    }

    /// Converts a vertex path to the edges between consecutive vertices.
    pub fn path_to_edges(&self, path: &[u32]) -> (edges: Vec<(u32, u32)>)
        ensures
            edges@ == path_edges(path@),
    {
        let mut edges: Vec<(u32, u32)> = Vec::new();
        let n = path.len();
        if n == 0 {
            assert(edges@ =~= path_edges(path@));
            return edges;
        }
        let mut i: usize = 0;
        while i + 1 < n
            invariant
                i + 1 <= n,
                n == path.len(),
                edges.len() == i,
                forall|j: int| 0 <= j < i ==> #[trigger] edges[j] == (path[j], path[j + 1]),
            decreases n - i,
        {
            edges.push((path[i], path[i + 1]));
            i += 1;
        }
        assert(edges@ =~= path_edges(path@));
        edges
    }

    /// The seam of an open mesh: the edges of its longest boundary loop, the
    /// first among equals, closed from the last vertex back to the first.
    /// There is none when the mesh has no open edge.
    pub fn boundary_seam(&self, half_edge: &HalfEdgeMesh) -> (r: Option<Vec<(u32, u32)>>)
        requires
            half_edge.well_formed(),
        ensures
            r is None <==> forall|e: int| !#[trigger] is_open(half_edge.edges@, e),
            r matches Some(seam) ==> exists|chains: Seq<Vec<u32>>, loops: Seq<Vec<u32>>, best: int|
                {
                    &&& #[trigger] is_boundary_walk(half_edge.edges@, chains)
                    &&& are_vertices_of(half_edge.edges@, chains, loops)
                    &&& #[trigger] is_longest(loops, best)
                    &&& seam@ == loop_edges(loops[best]@)
                },
    {
        let boundaries = self.find_boundary_loops(half_edge);
        let ghost chains = choose|chains: Seq<Vec<u32>>|
            #[trigger] is_boundary_walk(half_edge.edges@, chains) && are_vertices_of(
                half_edge.edges@,
                chains,
                boundaries@,
            );
        match self.longest_loop(&boundaries) {
            None => {
                proof {
                    assert forall|e: int| !#[trigger] is_open(half_edge.edges@, e) by {
                        if is_open(half_edge.edges@, e) {
                            assert(on_chains(chains, e));
                        }
                    }
                }
                None
            },
            Some(best) => {
                let seam = self.boundary_to_edges(&boundaries[best]);
                proof {
                    assert(is_chain(half_edge.edges@, chains[0]@));
                    assert(is_open(half_edge.edges@, chains[0]@[0] as int));
                    assert(is_boundary_walk(half_edge.edges@, chains) && are_vertices_of(
                        half_edge.edges@,
                        chains,
                        boundaries@,
                    ) && is_longest(boundaries@, best as int) && seam@ == loop_edges(
                        boundaries@[best as int]@,
                    ));
                }
                Some(seam)
            },
        }
    }

    /// Index of the longest loop, the first among equals; nothing when there
    /// is no loop.
    pub fn longest_loop(&self, boundaries: &Vec<Vec<u32>>) -> (r: Option<usize>)
        ensures
            r is None <==> boundaries.len() == 0,
            r matches Some(best) ==> is_longest(boundaries@, best as int),
    {
        if boundaries.len() == 0 {
            return None;
        }
        let mut best: usize = 0;
        let mut i: usize = 1;
        while i < boundaries.len()
            invariant
                1 <= i <= boundaries.len(),
                best < i,
                forall|k: int|
                    0 <= k < i ==> (#[trigger] boundaries[k]).len() <= boundaries[best as int].len(),
                forall|k: int|
                    0 <= k < best ==> (#[trigger] boundaries[k]).len() < boundaries[best as int].len(),
            decreases boundaries.len() - i,
        {
            if boundaries[i].len() > boundaries[best].len() {
                best = i;
            }
            i += 1;
        }
        Some(best)
    }

    /// Reads the shortest path from `start` to `end` off the predecessor
    /// links of a shortest-path search. Seam placement fails when the path
    /// has fewer than two vertices, which is when `end` has no predecessor.
    #[verifier::rlimit(40)]
    pub fn reconstruct_path(&self, previous: &Vec<Option<u32>>, start: u32, end: u32) -> (r: Result<
        Vec<u32>,
        PatternError,
    >)
        requires
            links_in_range(previous@),
            end < previous.len(),
        ensures
            r is Ok <==> previous[end as int] is Some,
            r matches Ok(path) ==> {
                &&& path@ == linked_path(previous@, start, end)
                &&& path.len() >= 2
                &&& path[0] == start
                &&& path[path.len() - 1] == end
            },
            r matches Err(e) ==> e is SeamPlacementFailure && e.detail()
                == "Could not find path between vertices"@,
    {
        let mut path: Vec<u32> = Vec::new();
        let mut current = end;
        let mut fuel = previous.len();
        let mut done = false;
        let ghost whole = walk_back(previous@, start, end, previous.len() as nat);
        while fuel > 0 && !done
            invariant
                links_in_range(previous@),
                current < previous.len(),
                whole == walk_back(previous@, start, end, previous.len() as nat),
                !done ==> path@ + walk_back(previous@, start, current, fuel as nat) == whole,
                done ==> path@ == whole,
                path.len() > 0 ==> path[0] == end,
                path.len() == 0 && !done ==> current == end && fuel == previous.len(),
                path.len() == 0 && done ==> previous[end as int] is None,
            decreases fuel, if done { 0int } else { 1int },
        {
            let ghost before = path@;
            fuel -= 1;
            match previous[current as usize] {
                None => {
                    done = true;
                    assert(before + Seq::<u32>::empty() =~= before);
                },
                Some(p) => {
                    path.push(current);
                    if p == start {
                        done = true;
                        assert(before + seq![current] =~= path@);
                    } else {
                        assert(path@ + walk_back(previous@, start, p, fuel as nat) =~= before + (
                        seq![current] + walk_back(previous@, start, p, fuel as nat)));
                        current = p;
                    }
                },
            }
        }
        proof {
            assert(path@ + Seq::<u32>::empty() =~= path@);
        }
        path.push(start);
        let ghost forward = path@;
        let mut reversed: Vec<u32> = Vec::new();
        let mut k: usize = path.len();
        while k > 0
            invariant
                k <= path.len(),
                path@ == forward,
                reversed.len() == path.len() - k,
                forall|j: int|
                    0 <= j < reversed.len() ==> #[trigger] reversed[j] == forward[forward.len() - 1
                        - j],
            decreases k,
        {
            k -= 1;
            reversed.push(path[k]);
        }
        assert(reversed@ =~= forward.reverse());
        if reversed.len() < 2 {
            return Err(
                PatternError::SeamPlacementFailure(
                    String::from_str("Could not find path between vertices"),
                ),
            );
        }
        Ok(reversed)
    }
}

/// Vertex that the edge in slot `s` leaves from: index `s % 3` of face
/// `s / 3`.
pub open spec fn slot_origin(faces: Seq<Face>, s: int) -> u32 {
    faces[s / 3].indices[s % 3]
}

/// Vertex that the edge in slot `s` arrives at.
pub open spec fn slot_destination(faces: Seq<Face>, s: int) -> u32 {
    faces[s / 3].indices[(s % 3 + 1) % 3]
}

/// The neighbours that vertex `v` has collected from the first `upto` edge
/// slots: for every edge that leaves `v` its destination, for every edge
/// that arrives at `v` its origin, in slot order.
pub open spec fn neighbours(faces: Seq<Face>, v: int, upto: int) -> Seq<u32>
    decreases upto,
{
    if upto <= 0 {
        Seq::empty()
    } else {
        let before = neighbours(faces, v, upto - 1);
        let a = slot_origin(faces, upto - 1);
        let b = slot_destination(faces, upto - 1);
        let outward = if a == v {
            before.push(b)
        } else {
            before
        };
        if b == v {
            outward.push(a)
        } else {
            outward
        }
    }
}

/// Stride with which vertices are sampled when looking for two far-apart
/// vertices: a twentieth of the vertex count, but at least 10 and at most
/// 100.
pub open spec fn stride_for(vertex_count: int) -> int {
    if vertex_count / 20 < 10 {
        10
    } else if vertex_count / 20 > 100 {
        100
    } else {
        vertex_count / 20
    }
}

/// Records the edge from `a` to `b` with both of its ends.
fn link(adjacency: &mut Vec<Vec<u32>>, a: u32, b: u32)
    requires
        a < old(adjacency).len(),
        b < old(adjacency).len(),
    ensures
        final(adjacency).len() == old(adjacency).len(),
        forall|v: int|
            0 <= v < old(adjacency).len() ==> (#[trigger] final(adjacency)[v])@ == {
                let outward = if a == v {
                    old(adjacency)[v]@.push(b)
                } else {
                    old(adjacency)[v]@
                };
                if b == v {
                    outward.push(a)
                } else {
                    outward
                }
            },
{
    adjacency[a as usize].push(b);
    adjacency[b as usize].push(a);
}

impl SeamPlacer {
    /// Stride with which the vertices of a mesh are sampled when looking for
    /// two far-apart vertices.
    pub fn sampling_stride(&self, vertex_count: usize) -> (stride: usize)
        ensures
            stride == stride_for(vertex_count as int),
            10 <= stride <= 100,
    {
        let twentieth = vertex_count / 20;
        if twentieth < 10 {
            10
        } else if twentieth > 100 {
            100
        } else {
            twentieth
        }
    }

    /// Builds the vertex adjacency of `mesh` from its faces: every edge of
    /// every face is recorded with both of its ends.
    #[verifier::rlimit(40)]
    pub fn build_adjacency(&self, mesh: &MeshData) -> (adjacency: Vec<Vec<u32>>)
        requires
            mesh.indices_in_range(),
        ensures
            adjacency.len() == mesh.vertex_count,
            forall|v: int|
                0 <= v < adjacency.len() ==> (#[trigger] adjacency[v])@ == neighbours(
                    mesh.faces@,
                    v,
                    3 * (mesh.faces.len() as int),
                ),
    {
        let mut adjacency: Vec<Vec<u32>> = Vec::new();
        let mut v: usize = 0;
        while v < mesh.vertex_count
            invariant
                v <= mesh.vertex_count,
                adjacency.len() == v,
                forall|u: int| 0 <= u < v ==> (#[trigger] adjacency[u])@ == Seq::<u32>::empty(),
            decreases mesh.vertex_count - v,
        {
            adjacency.push(Vec::new());
            v += 1;
        }
        let face_count = mesh.faces.len();
        let mut f: usize = 0;
        while f < face_count
            invariant
                f <= face_count,
                face_count == mesh.faces.len(),
                mesh.indices_in_range(),
                adjacency.len() == mesh.vertex_count,
                forall|u: int|
                    0 <= u < adjacency.len() ==> (#[trigger] adjacency[u])@ == neighbours(
                        mesh.faces@,
                        u,
                        3 * (f as int),
                    ),
            decreases face_count - f,
        {
            let face = mesh.faces[f];
            let mut k: usize = 0;
            while k < 3
                invariant
                    k <= 3,
                    f < face_count,
                    face_count == mesh.faces.len(),
                    mesh.indices_in_range(),
                    face == mesh.faces[f as int],
                    adjacency.len() == mesh.vertex_count,
                    forall|u: int|
                        0 <= u < adjacency.len() ==> (#[trigger] adjacency[u])@ == neighbours(
                            mesh.faces@,
                            u,
                            3 * (f as int) + k,
                        ),
                decreases 3 - k,
            {
                let following = if k == 2 {
                    0
                } else {
                    k + 1
                };
                let a = face.indices[k];
                let b = face.indices[following];
                proof {
                    assert(mesh.faces[f as int].indices[k as int] < mesh.vertex_count);
                    assert(mesh.faces[f as int].indices[following as int] < mesh.vertex_count);
                    assert(a == slot_origin(mesh.faces@, 3 * (f as int) + k));
                    assert(b == slot_destination(mesh.faces@, 3 * (f as int) + k));
                }
                let ghost before = adjacency@;
                link(&mut adjacency, a, b);
                proof {
                    assert forall|u: int| 0 <= u < adjacency.len() implies (
                    #[trigger] adjacency[u])@ == neighbours(
                        mesh.faces@,
                        u,
                        3 * (f as int) + k + 1,
                    ) by {
                        assert(before[u]@ == neighbours(mesh.faces@, u, 3 * (f as int) + k));
                    }
                }
                k += 1;
            }
            assert(3 * (f as int) + 3 == 3 * ((f + 1) as int));
            f += 1;
        }
        adjacency
    }
}

} // verus!
