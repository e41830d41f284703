//! Boundary loops: the chains of edges without twin that run along the rim
//! of an open mesh.

use vstd::prelude::*;
use crate::mesh::types::HalfEdge;
use crate::mesh::types::HalfEdgeMesh;
use crate::mesh::types::origin;
use crate::mesh::types::destination;
use crate::mesh::types::next_in_face;

verus! {

/// Edge `e` has no twin: it lies on the rim of the mesh.
pub open spec fn is_open(edges: Seq<HalfEdge>, e: int) -> bool {
    0 <= e < edges.len() && edges[e].twin is None
}

/// Open edge `j` leaves the vertex that edge `e` arrives at.
pub open spec fn continues(edges: Seq<HalfEdge>, e: int, j: int) -> bool {
    is_open(edges, j) && origin(edges, j) == destination(edges, e)
}

/// Edge `j` is the open edge that a walk along the rim takes after edge `e`:
/// the first open edge, in edge order, that leaves where `e` arrives.
pub open spec fn follows(edges: Seq<HalfEdge>, e: int, j: int) -> bool {
    &&& continues(edges, e, j)
    &&& forall|k: int| 0 <= k < j ==> !#[trigger] continues(edges, e, k)
}

/// Edge `e` is one of the edges of `chain`.
pub open spec fn in_chain(chain: Seq<u32>, e: int) -> bool {
    exists|m: int| 0 <= m < chain.len() && #[trigger] chain[m] == e
}

/// `chain` is a walk along the rim: open edges, each followed by the next.
pub open spec fn is_chain(edges: Seq<HalfEdge>, chain: Seq<u32>) -> bool {
    &&& chain.len() > 0
    &&& forall|m: int| 0 <= m < chain.len() ==> is_open(edges, (#[trigger] chain[m]) as int)
    &&& forall|m: int|
        0 <= m < chain.len() - 1 ==> follows(edges, (#[trigger] chain[m]) as int, chain[m + 1] as int)
}

/// `chain` is closed: its last edge is followed by its first.
pub open spec fn is_closed(edges: Seq<HalfEdge>, chain: Seq<u32>) -> bool {
    follows(edges, chain[chain.len() - 1] as int, chain[0] as int)
}

/// Edge `e` lies on one of the chains.
pub open spec fn on_chains(chains: Seq<Vec<u32>>, e: int) -> bool {
    exists|k: int| 0 <= k < chains.len() && #[trigger] in_chain(chains[k]@, e)
}

/// No edge occurs twice, neither within a chain nor on two chains.
pub open spec fn chains_are_disjoint(chains: Seq<Vec<u32>>) -> bool {
    &&& forall|k: int, a: int, b: int|
        0 <= k < chains.len() && 0 <= a < b < chains[k].len() ==> chains[k][a] != chains[k][b]
    &&& forall|k: int, l: int, e: int|
        0 <= k < l < chains.len() && #[trigger] in_chain(chains[k]@, e) ==> !#[trigger] in_chain(
            chains[l]@,
            e,
        )
}

/// Chain `k` ends where the walk has to stop: whatever edge would follow its
/// last edge lies on this chain or on an earlier one.
pub open spec fn chain_ends_in_place(edges: Seq<HalfEdge>, chains: Seq<Vec<u32>>, k: int) -> bool {
    forall|j: int| #[trigger]
        follows(edges, chains[k][chains[k].len() - 1] as int, j) ==> on_chains(chains.take(k + 1), j)
}

/// Chain `k` starts at the first open edge that no earlier chain holds.
pub open spec fn chain_starts_first(edges: Seq<HalfEdge>, chains: Seq<Vec<u32>>, k: int) -> bool {
    forall|e: int|
        0 <= e < chains[k][0] && #[trigger] is_open(edges, e) ==> on_chains(chains.take(k), e)
}

/// `chains` is the walk along the whole rim of the mesh: every chain is a
/// walk along open edges; every open edge lies on exactly one chain; each
/// chain starts at the first open edge not yet walked and runs on until the
/// edge that would follow has been walked already, or none follows.
pub open spec fn is_boundary_walk(edges: Seq<HalfEdge>, chains: Seq<Vec<u32>>) -> bool {
    &&& forall|k: int| 0 <= k < chains.len() ==> is_chain(edges, (#[trigger] chains[k])@)
    &&& chains_are_disjoint(chains)
    &&& forall|e: int| #[trigger] is_open(edges, e) ==> on_chains(chains, e)
    &&& forall|k: int| 0 <= k < chains.len() ==> #[trigger] chain_ends_in_place(edges, chains, k)
    &&& forall|k: int| 0 <= k < chains.len() ==> #[trigger] chain_starts_first(edges, chains, k)
}

/// The rim is simple: no two open edges arrive at the same vertex, and an
/// open edge leaves wherever one arrives. This holds on every manifold mesh.
#[verifier::opaque]
pub open spec fn rim_is_simple(edges: Seq<HalfEdge>) -> bool {
    &&& forall|e: int, f: int|
        #[trigger] is_open(edges, e) && #[trigger] is_open(edges, f) && e != f ==> destination(
            edges,
            e,
        ) != destination(edges, f)
    &&& forall|e: int| #[trigger] is_open(edges, e) ==> exists|j: int| continues(edges, e, j)
}

/// `loops` names the vertices that the edges of `chains` leave from.
pub open spec fn are_vertices_of(
    edges: Seq<HalfEdge>,
    chains: Seq<Vec<u32>>,
    loops: Seq<Vec<u32>>,
) -> bool {
    &&& loops.len() == chains.len()
    &&& forall|k: int| 0 <= k < loops.len() ==> (#[trigger] loops[k]).len() == chains[k].len()
    &&& forall|k: int, m: int|
        0 <= k < loops.len() && 0 <= m < loops[k].len() ==> #[trigger] loops[k][m] == origin(
            edges,
            chains[k][m] as int,
        )
}

proof fn lemma_first_continuation(edges: Seq<HalfEdge>, e: int, j: int)
    requires
        continues(edges, e, j),
    ensures
        exists|first: int| follows(edges, e, first),
    decreases j,
{
    if exists|k: int| 0 <= k < j && continues(edges, e, k) {
        let k = choose|k: int| 0 <= k < j && continues(edges, e, k);
        lemma_first_continuation(edges, e, k);
    } else {
        assert(follows(edges, e, j));
    }
}

proof fn lemma_some_edge_follows(edges: Seq<HalfEdge>, e: int)
    requires
        rim_is_simple(edges),
        is_open(edges, e),
    ensures
        exists|j: int| follows(edges, e, j),
{
    reveal(rim_is_simple);
    let some = choose|j: int| continues(edges, e, j);
    lemma_first_continuation(edges, e, some);
}

proof fn lemma_place_of_follower(edges: Seq<HalfEdge>, chains: Seq<Vec<u32>>, k: int, j: int)
    requires
        0 <= k < chains.len(),
        chains[k].len() > 0,
        chain_ends_in_place(edges, chains, k),
        follows(edges, chains[k][chains[k].len() - 1] as int, j),
    ensures
        exists|l: int, m: int|
            0 <= l <= k && 0 <= m < chains[l].len() && #[trigger] chains[l][m] == j,
{
    let shorter = chains.take(k + 1);
    assert(on_chains(shorter, j));
    let l = choose|l: int| 0 <= l < shorter.len() && #[trigger] in_chain(shorter[l]@, j);
    assert(shorter[l] == chains[l]);
    let m = choose|m: int| 0 <= m < chains[l].len() && #[trigger] chains[l]@[m] == j;
    assert(chains[l][m] == j);
}

proof fn lemma_one_arrival(
    edges: Seq<HalfEdge>,
    chains: Seq<Vec<u32>>,
    k: int,
    a: int,
    l: int,
    b: int,
)
    requires
        rim_is_simple(edges),
        chains_are_disjoint(chains),
        0 <= k < chains.len(),
        0 <= a < chains[k].len(),
        0 <= l < chains.len(),
        0 <= b < chains[l].len(),
        is_open(edges, chains[k][a] as int),
        is_open(edges, chains[l][b] as int),
        destination(edges, chains[k][a] as int) == destination(edges, chains[l][b] as int),
    ensures
        k == l,
        a == b,
{
    reveal(rim_is_simple);
    let e = chains[k][a] as int;
    let f = chains[l][b] as int;
    assert(e == f);
    assert(in_chain(chains[k]@, e));
    assert(in_chain(chains[l]@, e));
}

/// On a mesh with a simple rim every chain of the walk is closed: it is a
/// loop of open edges, each arriving where the next leaves, the last arriving
/// where the first leaves.
pub proof fn simple_rim_walks_in_loops(edges: Seq<HalfEdge>, chains: Seq<Vec<u32>>, k: int)
    requires
        is_boundary_walk(edges, chains),
        rim_is_simple(edges),
        0 <= k < chains.len(),
    ensures
        is_closed(edges, chains[k]@),
    decreases k,
{
    assert(is_chain(edges, chains[k]@));
    let end = chains[k].len() - 1;
    let last = chains[k][end] as int;
    lemma_some_edge_follows(edges, last);
    let j = choose|j: int| follows(edges, last, j);
    assert(chain_ends_in_place(edges, chains, k));
    lemma_place_of_follower(edges, chains, k, j);
    let (l, m) = choose|l: int, m: int|
        0 <= l <= k && 0 <= m < chains[l].len() && #[trigger] chains[l][m] == j;
    assert(is_chain(edges, chains[l]@));
    if m > 0 {
        assert(follows(edges, chains[l]@[m - 1] as int, chains[l]@[m] as int));
        assert(is_open(edges, chains[l]@[m - 1] as int));
        lemma_one_arrival(edges, chains, l, m - 1, k, end);
    } else if l < k {
        simple_rim_walks_in_loops(edges, chains, l);
        let other_end = chains[l].len() - 1;
        assert(is_open(edges, chains[l]@[other_end] as int));
        lemma_one_arrival(edges, chains, l, other_end, k, end);
    }
}

/// Along a loop, each vertex is joined to the next by the open edge of the
/// walk that leaves it; and where the chain is closed, the last vertex is
/// joined to the first in the same way.
pub proof fn loop_vertices_are_joined(
    edges: Seq<HalfEdge>,
    chains: Seq<Vec<u32>>,
    loops: Seq<Vec<u32>>,
    k: int,
    m: int,
)
    requires
        is_boundary_walk(edges, chains),
        are_vertices_of(edges, chains, loops),
        0 <= k < loops.len(),
        0 <= m < loops[k].len(),
    ensures
        is_open(edges, chains[k][m] as int),
        loops[k][m] == origin(edges, chains[k][m] as int),
        m + 1 < loops[k].len() ==> loops[k][m + 1] == destination(edges, chains[k][m] as int),
        m + 1 == loops[k].len() && is_closed(edges, chains[k]@) ==> loops[k][0] == destination(
            edges,
            chains[k][m] as int,
        ),
{
    assert(is_chain(edges, chains[k]@));
    assert(loops[k].len() == chains[k].len());
    assert(is_open(edges, chains[k]@[m] as int));
    assert(loops[k][m] == origin(edges, chains[k][m] as int));
    if m + 1 < loops[k].len() {
        assert(follows(edges, chains[k]@[m] as int, chains[k]@[m + 1] as int));
        assert(loops[k][m + 1] == origin(edges, chains[k][m + 1] as int));
    } else {
        assert(loops[k][0] == origin(edges, chains[k][0] as int));
    }
}

/// Distinct numbers below a bound are no more than the bound.
proof fn lemma_distinct_below(s: Seq<u32>, bound: nat)
    requires
        forall|i: int| 0 <= i < s.len() ==> s[i] < bound,
        forall|i: int, j: int| 0 <= i < j < s.len() ==> s[i] != s[j],
    ensures
        s.len() <= bound,
    decreases bound,
{
    if bound == 0 {
        if s.len() > 0 {
            assert(s[0] < bound);
        }
    } else if exists|p: int| 0 <= p < s.len() && s[p] == bound - 1 {
        let p = choose|p: int| 0 <= p < s.len() && s[p] == bound - 1;
        let rest = s.remove(p);
        s.remove_ensures(p);
        assert forall|i: int| 0 <= i < rest.len() implies rest[i] < (bound - 1) as nat by {
            if i < p {
                assert(rest[i] == s[i]);
            } else {
                assert(rest[i] == s[i + 1]);
            }
        }
        assert forall|i: int, j: int| 0 <= i < j < rest.len() implies rest[i] != rest[j] by {
            let a = if i < p {
                i
            } else {
                i + 1
            };
            let b = if j < p {
                j
            } else {
                j + 1
            };
            assert(rest[i] == s[a] && rest[j] == s[b]);
        }
        lemma_distinct_below(rest, (bound - 1) as nat);
    } else {
        assert forall|i: int| 0 <= i < s.len() implies s[i] < (bound - 1) as nat by {
            assert(s[i] < bound);
        }
        lemma_distinct_below(s, (bound - 1) as nat);
    }
}

/// The open edge that follows edge `e` along the rim, if there is one.
fn next_open_edge(half_edge: &HalfEdgeMesh, e: usize) -> (r: Option<usize>)
    requires
        half_edge.well_formed(),
        e < half_edge.edges.len(),
    ensures
        r matches Some(j) ==> follows(half_edge.edges@, e as int, j as int),
        r is None ==> forall|j: int| !#[trigger] continues(half_edge.edges@, e as int, j),
{
    assert(half_edge.edges[e as int].next == Some(next_in_face(e as int) as u32));
    let arrives_at = half_edge.edges[half_edge.edges[e].next.unwrap() as usize].vertex;
    let edge_count = half_edge.edges.len();
    let mut j: usize = 0;
    while j < edge_count
        invariant
            j <= edge_count,
            edge_count == half_edge.edges.len(),
            arrives_at == destination(half_edge.edges@, e as int),
            forall|k: int| 0 <= k < j ==> !#[trigger] continues(half_edge.edges@, e as int, k),
        decreases edge_count - j,
    {
        if half_edge.edges[j].twin.is_none() && half_edge.edges[j].vertex == arrives_at {
            return Some(j);
        }
        j += 1;
    }
    None
}

/// Walks the rim from the open edge `start` until the edge that would follow
/// has been walked already or none follows, marking every edge it takes.
#[verifier::rlimit(60)]
fn walk_rim(half_edge: &HalfEdgeMesh, start: usize, visited: &mut Vec<bool>) -> (chain: Vec<u32>)
    requires
        half_edge.well_formed(),
        is_open(half_edge.edges@, start as int),
        old(visited).len() == half_edge.edges.len(),
        !old(visited)[start as int],
    ensures
        final(visited).len() == half_edge.edges.len(),
        forall|e: int|
            0 <= e < half_edge.edges.len() ==> #[trigger] final(visited)[e] == (old(visited)[e]
                || in_chain(chain@, e)),
        is_chain(half_edge.edges@, chain@),
        chain[0] == start,
        forall|m: int| 0 <= m < chain.len() ==> !old(visited)[(#[trigger] chain[m]) as int],
        forall|a: int, b: int| 0 <= a < b < chain.len() ==> chain[a] != chain[b],
        forall|j: int| #[trigger]
            follows(half_edge.edges@, chain[chain.len() - 1] as int, j) ==> final(visited)[j],
{
    let edge_count = half_edge.edges.len();
    let ghost edges = half_edge.edges@;
    let ghost before = visited@;
    let mut chain: Vec<u32> = Vec::new();
    let mut current = start;
    let mut done = false;
    while !done
        invariant
            half_edge.well_formed(),
            edges == half_edge.edges@,
            edge_count == edges.len(),
            before.len() == edge_count,
            visited.len() == edge_count,
            is_open(edges, current as int),
            is_open(edges, start as int),
            !before[start as int],
            forall|e: int|
                0 <= e < edge_count ==> #[trigger] visited[e] == (before[e] || in_chain(chain@, e)),
            forall|m: int| 0 <= m < chain.len() ==> is_open(edges, (#[trigger] chain[m]) as int),
            forall|m: int|
                0 <= m < chain.len() - 1 ==> follows(
                    edges,
                    (#[trigger] chain[m]) as int,
                    chain[m + 1] as int,
                ),
            forall|m: int| 0 <= m < chain.len() ==> !before[(#[trigger] chain[m]) as int],
            forall|a: int, b: int| 0 <= a < b < chain.len() ==> chain[a] != chain[b],
            chain.len() <= edge_count,
            chain.len() == 0 ==> current == start && !done,
            chain.len() > 0 ==> chain[0] == start,
            !done ==> !visited[current as int],
            !done && chain.len() > 0 ==> follows(
                edges,
                chain[chain.len() - 1] as int,
                current as int,
            ),
            done ==> chain.len() > 0 && forall|j: int| #[trigger]
                follows(edges, chain[chain.len() - 1] as int, j) ==> visited[j],
        decreases edge_count - chain.len(), if done { 0int } else { 1int },
    {
        let ghost walked = chain@;
        let ghost marks = visited@;
        proof {
            assert(!in_chain(walked, current as int));
            let longer = walked.push(current as u32);
            assert forall|a: int, b: int| 0 <= a < b < longer.len() implies longer[a]
                != longer[b] by {
                if b == walked.len() {
                    assert(walked[a] == longer[a]);
                }
            }
            lemma_distinct_below(longer, edge_count as nat);
        }
        chain.push(current as u32);
        visited.set(current, true);
        proof {
            assert forall|e: int| 0 <= e < edge_count implies #[trigger] visited[e] == (before[e]
                || in_chain(chain@, e)) by {
                if in_chain(walked, e) {
                    let m = choose|m: int| 0 <= m < walked.len() && #[trigger] walked[m] == e;
                    assert(chain[m] == e);
                }
                if e == current {
                    assert(chain[walked.len() as int] == e);
                }
                if in_chain(chain@, e) && e != current {
                    let m = choose|m: int| 0 <= m < chain.len() && #[trigger] chain[m] == e;
                    assert(walked[m] == e);
                }
                assert(marks[e] == (before[e] || in_chain(walked, e)));
            }
        }
        match next_open_edge(half_edge, current) {
            None => {
                done = true;
            },
            Some(j) => {
                if visited[j] {
                    done = true;
                } else {
                    current = j;
                }
            },
        }
    }
    chain
}

/// Walks the whole rim of the mesh: from every open edge that has not been
/// walked yet, in edge order, along the open edges that follow.
#[verifier::rlimit(60)]
pub fn boundary_chains(half_edge: &HalfEdgeMesh) -> (chains: Vec<Vec<u32>>)
    requires
        half_edge.well_formed(),
    ensures
        is_boundary_walk(half_edge.edges@, chains@),
{
    let edge_count = half_edge.edges.len();
    let ghost edges = half_edge.edges@;
    let mut visited: Vec<bool> = Vec::new();
    let mut v: usize = 0;
    while v < edge_count
        invariant
            v <= edge_count,
            visited.len() == v,
            forall|e: int| 0 <= e < v ==> !(#[trigger] visited[e]),
        decreases edge_count - v,
    {
        visited.push(false);
        v += 1;
    }
    let mut chains: Vec<Vec<u32>> = Vec::new();
    let mut i: usize = 0;
    while i < edge_count
        invariant
            i <= edge_count,
            half_edge.well_formed(),
            edges == half_edge.edges@,
            edge_count == edges.len(),
            visited.len() == edge_count,
            forall|e: int| 0 <= e < edge_count ==> #[trigger] visited[e] == on_chains(chains@, e),
            forall|e: int| 0 <= e < i && #[trigger] is_open(edges, e) ==> visited[e],
            forall|k: int| 0 <= k < chains.len() ==> is_chain(edges, (#[trigger] chains[k])@),
            chains_are_disjoint(chains@),
            forall|k: int|
                0 <= k < chains.len() ==> #[trigger] chain_ends_in_place(edges, chains@, k),
            forall|k: int|
                0 <= k < chains.len() ==> #[trigger] chain_starts_first(edges, chains@, k),
        decreases edge_count - i,
    {
        if half_edge.edges[i].twin.is_none() && !visited[i] {
            let ghost marks = visited@;
            let ghost earlier = chains@;
            let chain = walk_rim(half_edge, i, &mut visited);
            chains.push(chain);
            proof {
                lemma_walk_extends(edges, earlier, chains@, marks, visited@);
            }
        }
        i += 1;
    }
    proof {
        assert forall|e: int| #[trigger] is_open(edges, e) implies on_chains(chains@, e) by {
            assert(visited[e]);
        }
    }
    chains
}

proof fn lemma_on_longer(earlier: Seq<Vec<u32>>, chains: Seq<Vec<u32>>, e: int)
    requires
        chains.len() == earlier.len() + 1,
        forall|k: int| 0 <= k < earlier.len() ==> #[trigger] chains[k] == earlier[k],
    ensures
        on_chains(chains, e) <==> (on_chains(earlier, e) || in_chain(chains[earlier.len() as int]@, e)),
{
    if on_chains(chains, e) {
        let k = choose|k: int| 0 <= k < chains.len() && #[trigger] in_chain(chains[k]@, e);
        if k < earlier.len() {
            assert(chains[k] == earlier[k]);
            assert(in_chain(earlier[k]@, e));
        }
    }
    if on_chains(earlier, e) {
        let k = choose|k: int| 0 <= k < earlier.len() && #[trigger] in_chain(earlier[k]@, e);
        assert(chains[k] == earlier[k]);
        assert(in_chain(chains[k]@, e));
    }
    if in_chain(chains[earlier.len() as int]@, e) {
        assert(on_chains(chains, e));
    }
}

proof fn lemma_walk_extends(
    edges: Seq<HalfEdge>,
    earlier: Seq<Vec<u32>>,
    chains: Seq<Vec<u32>>,
    marks: Seq<bool>,
    visited: Seq<bool>,
)
    requires
        chains.len() == earlier.len() + 1,
        forall|k: int| 0 <= k < earlier.len() ==> #[trigger] chains[k] == earlier[k],
        marks.len() == edges.len(),
        visited.len() == edges.len(),
        forall|e: int| 0 <= e < edges.len() ==> #[trigger] marks[e] == on_chains(earlier, e),
        forall|e: int|
            0 <= e < chains[earlier.len() as int][0] && #[trigger] is_open(edges, e) ==> marks[e],
        forall|k: int| 0 <= k < earlier.len() ==> is_chain(edges, (#[trigger] earlier[k])@),
        chains_are_disjoint(earlier),
        forall|k: int| 0 <= k < earlier.len() ==> #[trigger] chain_ends_in_place(edges, earlier, k),
        forall|k: int| 0 <= k < earlier.len() ==> #[trigger] chain_starts_first(edges, earlier, k),
        forall|e: int|
            0 <= e < edges.len() ==> #[trigger] visited[e] == (marks[e] || in_chain(
                chains[earlier.len() as int]@,
                e,
            )),
        is_chain(edges, chains[earlier.len() as int]@),
        forall|m: int|
            0 <= m < chains[earlier.len() as int].len() ==> !marks[(
            #[trigger] chains[earlier.len() as int][m]) as int],
        forall|a: int, b: int|
            0 <= a < b < chains[earlier.len() as int].len() ==> chains[earlier.len() as int][a]
                != chains[earlier.len() as int][b],
        forall|j: int| #[trigger]
            follows(
                edges,
                chains[earlier.len() as int][chains[earlier.len() as int].len() - 1] as int,
                j,
            ) ==> visited[j],
    ensures
        forall|e: int| 0 <= e < edges.len() ==> #[trigger] visited[e] == on_chains(chains, e),
        forall|k: int| 0 <= k < chains.len() ==> is_chain(edges, (#[trigger] chains[k])@),
        chains_are_disjoint(chains),
        forall|k: int| 0 <= k < chains.len() ==> #[trigger] chain_ends_in_place(edges, chains, k),
        forall|k: int| 0 <= k < chains.len() ==> #[trigger] chain_starts_first(edges, chains, k),
{
    let n = earlier.len() as int;
    let chain = chains[n]@;
    assert forall|e: int| 0 <= e < edges.len() implies #[trigger] visited[e] == on_chains(
        chains,
        e,
    ) by {
        lemma_on_longer(earlier, chains, e);
    }
    assert forall|k: int| 0 <= k < chains.len() implies is_chain(edges, (#[trigger] chains[k])@) by {
        if k < n {
            assert(chains[k] == earlier[k]);
        }
    }
    assert forall|k: int, a: int, b: int|
        0 <= k < chains.len() && 0 <= a < b < chains[k].len() implies chains[k][a]
        != chains[k][b] by {
        if k < n {
            assert(chains[k] == earlier[k]);
        }
    }
    assert forall|k: int, l: int, e: int|
        0 <= k < l < chains.len() && #[trigger] in_chain(chains[k]@, e) implies !#[trigger] in_chain(
        chains[l]@,
        e,
    ) by {
        assert(chains[k] == earlier[k]);
        if l < n {
            assert(chains[l] == earlier[l]);
        } else if in_chain(chain, e) {
            let m = choose|m: int| 0 <= m < chain.len() && #[trigger] chain[m] == e;
            assert(is_open(edges, chain[m] as int));
            assert(!marks[chain[m] as int]);
            assert(in_chain(earlier[k]@, e));
            assert(on_chains(earlier, e));
        }
    }
    assert forall|k: int| 0 <= k < chains.len() implies #[trigger] chain_ends_in_place(
        edges,
        chains,
        k,
    ) by {
        if k < n {
            assert(chains[k] == earlier[k]);
            assert(chain_ends_in_place(edges, earlier, k));
            assert(chains.take(k + 1) =~= earlier.take(k + 1));
        } else {
            assert(chains.take(n + 1) =~= chains);
            assert forall|j: int| #[trigger]
                follows(edges, chains[n][chains[n].len() - 1] as int, j) implies on_chains(
                chains.take(n + 1),
                j,
            ) by {
                assert(visited[j]);
                lemma_on_longer(earlier, chains, j);
            }
        }
    }
    assert forall|k: int| 0 <= k < chains.len() implies #[trigger] chain_starts_first(
        edges,
        chains,
        k,
    ) by {
        if k < n {
            assert(chains[k] == earlier[k]);
            assert(chain_starts_first(edges, earlier, k));
            assert(chains.take(k) =~= earlier.take(k));
        } else {
            assert(chains.take(n) =~= earlier);
        }
    }
}

/// The vertices that the edges of `chain` leave from.
fn vertices_along(half_edge: &HalfEdgeMesh, chain: &Vec<u32>) -> (vertices: Vec<u32>)
    requires
        forall|m: int| 0 <= m < chain.len() ==> (#[trigger] chain[m]) < half_edge.edges.len(),
    ensures
        vertices.len() == chain.len(),
        forall|m: int|
            0 <= m < chain.len() ==> #[trigger] vertices[m] == origin(
                half_edge.edges@,
                chain[m] as int,
            ),
{
    let mut vertices: Vec<u32> = Vec::new();
    let mut m: usize = 0;
    while m < chain.len()
        invariant
            m <= chain.len(),
            vertices.len() == m,
            forall|a: int| 0 <= a < chain.len() ==> (#[trigger] chain[a]) < half_edge.edges.len(),
            forall|a: int|
                0 <= a < m ==> #[trigger] vertices[a] == origin(half_edge.edges@, chain[a] as int),
        decreases chain.len() - m,
    {
        vertices.push(half_edge.edges[chain[m] as usize].vertex);
        m += 1;
    }
    vertices
}

/// The boundary loops of the mesh as vertices: one loop for every chain of
/// the walk along the rim, naming the vertex that each of its edges leaves
/// from.
#[verifier::rlimit(40)]
pub(crate) fn boundary_loops(half_edge: &HalfEdgeMesh) -> (r: (Vec<Vec<u32>>, Ghost<Seq<Vec<u32>>>))
    requires
        half_edge.well_formed(),
    ensures
        is_boundary_walk(half_edge.edges@, r.1@),
        are_vertices_of(half_edge.edges@, r.1@, r.0@),
{
    let chains = boundary_chains(half_edge);
    let mut loops: Vec<Vec<u32>> = Vec::new();
    let mut k: usize = 0;
    while k < chains.len()
        invariant
            k <= chains.len(),
            loops.len() == k,
            is_boundary_walk(half_edge.edges@, chains@),
            forall|a: int| 0 <= a < k ==> (#[trigger] loops[a]).len() == chains[a].len(),
            forall|a: int, m: int|
                0 <= a < k && 0 <= m < loops[a].len() ==> #[trigger] loops[a][m] == origin(
                    half_edge.edges@,
                    chains[a][m] as int,
                ),
        decreases chains.len() - k,
    {
        proof {
            assert(is_chain(half_edge.edges@, chains[k as int]@));
            assert forall|m: int| 0 <= m < chains[k as int].len() implies (
            #[trigger] chains[k as int][m]) < half_edge.edges.len() by {
                assert(is_open(half_edge.edges@, chains[k as int][m] as int));
            }
        }
        let vertices = vertices_along(half_edge, &chains[k]);
        let ghost done = loops@;
        loops.push(vertices);
        proof {
            assert forall|a: int| 0 <= a < k + 1 implies (#[trigger] loops[a]).len()
                == chains[a].len() by {
                if a < k {
                    assert(loops[a] == done[a]);
                }
            }
            assert forall|a: int, m: int| 0 <= a < k + 1 && 0 <= m < loops[a].len() implies 
            #[trigger] loops[a][m] == origin(half_edge.edges@, chains[a][m] as int) by {
                if a < k {
                    assert(loops[a] == done[a]);
                }
            }
        }
        k += 1;
    }
    (loops, Ghost(chains@))
}

} // verus!
