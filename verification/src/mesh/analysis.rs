//! Topological analysis of a mesh.

use vstd::prelude::*;
use crate::mesh::types::HalfEdgeMesh;
use crate::mesh::types::MeshData;
use crate::parameterization::seam_placement::SeamPlacer;
use crate::parameterization::boundary::is_boundary_walk;
use crate::parameterization::boundary::are_vertices_of;

verus! {

pub struct MeshAnalyzer {
    _private: (),
}

/// The edges that `from_mesh` would build for `mesh` are `edges`.
pub open spec fn is_adjacency_of(half_edge: HalfEdgeMesh, mesh: &MeshData) -> bool {
    half_edge.built_from(mesh) && half_edge.well_formed()
}

impl MeshAnalyzer {
    pub fn new() -> Self {
        Self { _private: () }
    }

    /// Finds the boundary loops of `mesh`: the walks along the rim of its
    /// half-edge adjacency, as vertices.
    pub fn find_boundaries(&self, mesh: &MeshData) -> (boundaries: Vec<Vec<u32>>)
        requires
            mesh.indices_in_range(),
            3 * mesh.faces.len() <= u32::MAX,
        ensures
            exists|half_edge: HalfEdgeMesh, chains: Seq<Vec<u32>>|
                {
                    &&& is_adjacency_of(half_edge, mesh)
                    &&& #[trigger] is_boundary_walk(half_edge.edges@, chains)
                    &&& are_vertices_of(half_edge.edges@, chains, boundaries@)
                },
    {
        let half_edge = HalfEdgeMesh::from_mesh(mesh);
        let placer = SeamPlacer::new();
        let boundaries = placer.find_boundary_loops(&half_edge);
        proof {
            let chains = choose|chains: Seq<Vec<u32>>|
                #[trigger] is_boundary_walk(half_edge.edges@, chains) && are_vertices_of(
                    half_edge.edges@,
                    chains,
                    boundaries@,
                );
            assert(is_adjacency_of(half_edge, mesh) && is_boundary_walk(half_edge.edges@, chains)
                && are_vertices_of(half_edge.edges@, chains, boundaries@));
        }
        boundaries
    }
}

} // verus!
