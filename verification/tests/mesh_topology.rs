use crochet_core::loader::gltf_parser::GltfLoader;
use crochet_core::loader::validation::{ModelValidator, TopologyReport};
use crochet_core::mesh::analysis::MeshAnalyzer;
use crochet_core::mesh::processing::MeshProcessor;
use crochet_core::mesh::simplification::MeshSimplifier;
use crochet_core::mesh::types::{Face, HalfEdgeMesh, MeshData};
use crochet_core::parameterization::cut::apply_topological_cut;
use crochet_core::parameterization::lscm::LSCMParameterizer;
use crochet_core::parameterization::seam_placement::SeamPlacer;
use crochet_core::types::PatternError;

fn mesh(vertex_count: usize, faces: &[[u32; 3]]) -> MeshData {
    MeshData {
        vertex_count,
        faces: faces.iter().map(|&indices| Face { indices }).collect(),
    }
}

fn triangle() -> MeshData {
    mesh(3, &[[0, 1, 2]])
}

fn two_triangles() -> MeshData {
    mesh(4, &[[0, 1, 2], [2, 1, 3]])
}

fn tetrahedron() -> MeshData {
    mesh(4, &[[0, 1, 2], [0, 3, 1], [1, 3, 2], [2, 3, 0]])
}

fn face_indices(mesh: &MeshData) -> Vec<[u32; 3]> {
    mesh.faces.iter().map(|f| f.indices).collect()
}

#[test]
fn mesh_data_counts() {
    let empty = MeshData::new();
    assert_eq!(empty.vertex_count(), 0);
    assert_eq!(empty.face_count(), 0);
    assert!(empty.is_empty());
    let m = two_triangles();
    assert_eq!(m.vertex_count(), 4);
    assert_eq!(m.face_count(), 2);
    assert!(!m.is_empty());
    assert!(mesh(3, &[]).is_empty());
    assert!(mesh(0, &[[0, 1, 2]]).is_empty());
}

#[test]
fn half_edges_follow_the_faces() {
    let he = HalfEdgeMesh::from_mesh(&two_triangles());
    assert_eq!(he.edges.len(), 6);
    assert_eq!(he.face_to_edge, vec![0, 3]);
    let origins: Vec<u32> = he.edges.iter().map(|e| e.vertex).collect();
    assert_eq!(origins, vec![0, 1, 2, 2, 1, 3]);
    for (i, e) in he.edges.iter().enumerate() {
        let base = (i / 3 * 3) as u32;
        assert_eq!(e.face as usize, i / 3);
        assert_eq!(e.next, Some(base + ((i % 3 + 1) % 3) as u32));
        assert_eq!(e.prev, Some(base + ((i % 3 + 2) % 3) as u32));
        let n1 = e.next.unwrap() as usize;
        let n2 = he.edges[n1].next.unwrap() as usize;
        assert_eq!(he.edges[n2].next, Some(i as u32));
    }
}

#[test]
fn vertices_point_to_their_first_edge() {
    let he = HalfEdgeMesh::from_mesh(&two_triangles());
    assert_eq!(he.vertex_to_edge, vec![Some(0), Some(1), Some(2), Some(5)]);
    let he = HalfEdgeMesh::from_mesh(&mesh(5, &[[4, 2, 0]]));
    assert_eq!(he.vertex_to_edge, vec![Some(2), None, Some(1), None, Some(0)]);
}

#[test]
fn twins_pair_opposite_edges() {
    let he = HalfEdgeMesh::from_mesh(&two_triangles());
    let twins: Vec<Option<u32>> = he.edges.iter().map(|e| e.twin).collect();
    assert_eq!(twins, vec![None, Some(3), None, Some(1), None, None]);

    let he = HalfEdgeMesh::from_mesh(&tetrahedron());
    for (i, e) in he.edges.iter().enumerate() {
        let t = e.twin.expect("closed mesh") as usize;
        assert_ne!(t, i);
        assert_eq!(he.edges[t].twin, Some(i as u32));
        let dest = |k: usize| he.edges[he.edges[k].next.unwrap() as usize].vertex;
        assert_eq!(he.edges[t].vertex, dest(i));
        assert_eq!(dest(t), e.vertex);
    }
}

#[test]
fn twins_stay_mutual_on_repeated_edges() {
    let he = HalfEdgeMesh::from_mesh(&mesh(5, &[[0, 1, 2], [0, 1, 3], [1, 0, 4]]));
    assert_eq!(he.edges[0].twin, Some(6));
    assert_eq!(he.edges[6].twin, Some(0));
    assert_eq!(he.edges[3].twin, None);
    for (i, e) in he.edges.iter().enumerate() {
        if let Some(t) = e.twin {
            assert_eq!(he.edges[t as usize].twin, Some(i as u32));
        }
    }
}

#[test]
fn empty_mesh_has_no_edges() {
    let he = HalfEdgeMesh::from_mesh(&mesh(3, &[]));
    assert!(he.edges.is_empty());
    assert!(he.face_to_edge.is_empty());
    assert_eq!(he.vertex_to_edge, vec![None, None, None]);
    assert_eq!(he.vertex_valence(1), 0);
}

#[test]
fn valence_counts_the_fan_of_a_vertex() {
    let he = HalfEdgeMesh::from_mesh(&tetrahedron());
    for v in 0..4 {
        assert_eq!(he.vertex_valence(v), 3);
    }
    let he = HalfEdgeMesh::from_mesh(&two_triangles());
    assert_eq!(he.vertex_valence(0), 1);
    assert_eq!(he.vertex_valence(1), 2);
    assert_eq!(he.vertex_valence(2), 1);
    assert_eq!(he.vertex_valence(3), 1);
}

#[test]
fn fan_and_ring_walk_around_a_vertex() {
    let he = HalfEdgeMesh::from_mesh(&tetrahedron());
    assert_eq!(he.outgoing_fan(0), vec![0, 3, 11]);
    assert_eq!(he.neighbour_ring(0), vec![1, 2, 3]);
    for v in 0..4 {
        assert_eq!(he.outgoing_fan(v).len(), he.vertex_valence(v));
        assert_eq!(he.neighbour_ring(v).len(), 3);
    }
    let he = HalfEdgeMesh::from_mesh(&two_triangles());
    assert_eq!(he.outgoing_fan(1), vec![1, 4]);
    assert_eq!(he.neighbour_ring(1), vec![2]);
    assert_eq!(he.neighbour_ring(3), vec![2]);
    let he = HalfEdgeMesh::from_mesh(&mesh(4, &[[0, 1, 2]]));
    assert!(he.outgoing_fan(3).is_empty());
    assert!(he.neighbour_ring(3).is_empty());
}

#[test]
fn boundary_loops_run_along_the_rim() {
    let placer = SeamPlacer::new();
    let he = HalfEdgeMesh::from_mesh(&two_triangles());
    assert_eq!(placer.find_boundary_loops(&he), vec![vec![0, 1, 3, 2]]);
    let he = HalfEdgeMesh::from_mesh(&triangle());
    assert_eq!(placer.find_boundary_loops(&he), vec![vec![0, 1, 2]]);
    let he = HalfEdgeMesh::from_mesh(&tetrahedron());
    assert!(placer.find_boundary_loops(&he).is_empty());
    assert_eq!(MeshAnalyzer::new().find_boundaries(&two_triangles()), vec![vec![0, 1, 3, 2]]);
}

#[test]
fn every_open_edge_lies_on_one_loop() {
    let placer = SeamPlacer::new();
    let meshes = [
        mesh(6, &[[0, 1, 2], [3, 4, 5]]),
        mesh(4, &[[0, 1, 2], [0, 3, 1], [1, 3, 2]]),
        mesh(6, &[[0, 1, 2], [2, 1, 3], [2, 3, 4], [4, 3, 5]]),
    ];
    let expected = [
        vec![vec![0u32, 1, 2], vec![3, 4, 5]],
        vec![vec![2, 0, 3]],
        vec![vec![0, 1, 3, 5, 4, 2]],
    ];
    for (m, want) in meshes.iter().zip(expected.iter()) {
        let he = HalfEdgeMesh::from_mesh(m);
        let loops = placer.find_boundary_loops(&he);
        assert_eq!(&loops, want);
        let open = he.edges.iter().filter(|e| e.twin.is_none()).count();
        assert_eq!(loops.iter().map(|l| l.len()).sum::<usize>(), open);
        for l in &loops {
            for i in 0..l.len() {
                let (a, b) = (l[i], l[(i + 1) % l.len()]);
                let joined = he.edges.iter().enumerate().any(|(e, edge)| {
                    edge.twin.is_none()
                        && edge.vertex == a
                        && he.edges[edge.next.unwrap() as usize].vertex == b
                        && e < he.edges.len()
                });
                assert!(joined);
            }
        }
    }
}

#[test]
fn seam_of_an_open_mesh_is_its_longest_loop() {
    let placer = SeamPlacer::new();
    let he = HalfEdgeMesh::from_mesh(&two_triangles());
    assert_eq!(placer.boundary_seam(&he), Some(vec![(0, 1), (1, 3), (3, 2), (2, 0)]));
    let he = HalfEdgeMesh::from_mesh(&mesh(7, &[[0, 1, 2], [3, 4, 5], [5, 4, 6]]));
    assert_eq!(placer.boundary_seam(&he), Some(vec![(3, 4), (4, 6), (6, 5), (5, 3)]));
    let he = HalfEdgeMesh::from_mesh(&tetrahedron());
    assert_eq!(placer.boundary_seam(&he), None);
}

#[test]
fn boundary_and_path_edges() {
    let placer = SeamPlacer::new();
    assert_eq!(placer.boundary_to_edges(&[4, 7, 9]), vec![(4, 7), (7, 9), (9, 4)]);
    assert_eq!(placer.boundary_to_edges(&[4]), vec![(4, 4)]);
    assert!(placer.boundary_to_edges(&[]).is_empty());
    assert_eq!(placer.path_to_edges(&[4, 7, 9]), vec![(4, 7), (7, 9)]);
    assert!(placer.path_to_edges(&[4]).is_empty());
    assert!(placer.path_to_edges(&[]).is_empty());
}

#[test]
fn longest_loop_is_the_first_of_the_longest() {
    let placer = SeamPlacer::new();
    assert_eq!(placer.longest_loop(&vec![]), None);
    assert_eq!(placer.longest_loop(&vec![vec![1, 2, 3]]), Some(0));
    assert_eq!(
        placer.longest_loop(&vec![vec![1, 2, 3], vec![1, 2, 3, 4], vec![5], vec![6, 7, 8, 9]]),
        Some(1)
    );
}

#[test]
fn sampling_stride_lies_between_ten_and_a_hundred() {
    let placer = SeamPlacer::new();
    assert_eq!(placer.sampling_stride(0), 10);
    assert_eq!(placer.sampling_stride(199), 10);
    assert_eq!(placer.sampling_stride(220), 11);
    assert_eq!(placer.sampling_stride(2000), 100);
    assert_eq!(placer.sampling_stride(1_000_000), 100);
}

#[test]
fn adjacency_records_both_ends_of_every_edge() {
    let placer = SeamPlacer::new();
    assert_eq!(
        placer.build_adjacency(&triangle()),
        vec![vec![1, 2], vec![0, 2], vec![1, 0]]
    );
    let adjacency = placer.build_adjacency(&mesh(4, &[[0, 1, 2]]));
    assert_eq!(adjacency.len(), 4);
    assert!(adjacency[3].is_empty());
    assert_eq!(placer.build_adjacency(&mesh(1, &[[0, 0, 0]])), vec![vec![0, 0, 0, 0, 0, 0]]);
}

#[test]
fn path_is_read_back_from_the_links() {
    let placer = SeamPlacer::new();
    let previous = vec![None, Some(0), Some(1), Some(2)];
    assert_eq!(placer.reconstruct_path(&previous, 0, 3).unwrap(), vec![0, 1, 2, 3]);
    assert_eq!(placer.reconstruct_path(&previous, 0, 1).unwrap(), vec![0, 1]);
    assert_eq!(placer.reconstruct_path(&previous, 1, 3).unwrap(), vec![1, 2, 3]);
}

#[test]
fn seam_placement_fails_without_a_path() {
    let placer = SeamPlacer::new();
    let previous = vec![None, Some(0), None, Some(2)];
    for (start, end) in [(0u32, 2u32), (0, 0), (3, 2)] {
        match placer.reconstruct_path(&previous, start, end) {
            Err(PatternError::SeamPlacementFailure(detail)) => {
                assert_eq!(detail, "Could not find path between vertices");
            }
            other => panic!("unexpected result: {:?}", other),
        }
    }
}

#[test]
fn path_walk_stops_on_a_loop_of_links() {
    let placer = SeamPlacer::new();
    let previous = vec![Some(1), Some(0)];
    assert_eq!(placer.reconstruct_path(&previous, 7, 0).unwrap(), vec![7, 1, 0]);
}

#[test]
fn cut_keeps_faces_and_adds_one_vertex_per_seam_vertex() {
    let m = tetrahedron();
    let seam = vec![(0, 1), (1, 3)];
    let cut = apply_topological_cut(&m, &seam);
    assert_eq!(cut.mesh.faces.len(), m.faces.len());
    assert_eq!(cut.mesh.vertex_count, m.vertex_count + 3);
    assert_eq!(cut.duplicated, vec![0, 1, 3]);
}

#[test]
fn cut_moves_the_faces_along_the_seam_onto_the_duplicates() {
    let cut = apply_topological_cut(&two_triangles(), &vec![(0, 1)]);
    assert_eq!(cut.duplicated, vec![0, 1]);
    assert_eq!(cut.mesh.vertex_count, 6);
    assert_eq!(face_indices(&cut.mesh), vec![[4, 5, 2], [2, 1, 3]]);

    let cut = apply_topological_cut(&two_triangles(), &vec![(0, 1), (1, 3)]);
    assert_eq!(cut.duplicated, vec![0, 1, 3]);
    assert_eq!(cut.mesh.vertex_count, 7);
    assert_eq!(face_indices(&cut.mesh), vec![[4, 5, 2], [2, 5, 6]]);

    let cut = apply_topological_cut(&two_triangles(), &vec![(1, 2)]);
    assert_eq!(face_indices(&cut.mesh), vec![[0, 4, 5], [5, 4, 3]]);
}

#[test]
fn cut_counts_a_repeated_seam_vertex_once() {
    let cut = apply_topological_cut(&tetrahedron(), &vec![(0, 1), (1, 2), (2, 0)]);
    assert_eq!(cut.duplicated, vec![0, 1, 2]);
    assert_eq!(cut.mesh.vertex_count, 7);
    let cut = apply_topological_cut(&tetrahedron(), &vec![]);
    assert!(cut.duplicated.is_empty());
    assert_eq!(cut.mesh.vertex_count, 4);
    assert_eq!(face_indices(&cut.mesh), face_indices(&tetrahedron()));
}

#[test]
fn parameterization_needs_three_vertices() {
    let lscm = LSCMParameterizer::new();
    for n in 0..3 {
        match lscm.check_vertex_count(n) {
            Err(PatternError::ParameterizationFailure(_)) => {}
            other => panic!("unexpected result: {:?}", other),
        }
    }
    assert!(lscm.check_vertex_count(3).is_ok());
    let shape = lscm.system_shape(4, 4).unwrap();
    assert_eq!((shape.rows, shape.columns, shape.first_pin_row), (12, 8, 8));
    assert!(lscm.system_shape(usize::MAX, 1).is_none());
    assert!(lscm.system_shape(1, usize::MAX / 2).is_none());
}

#[test]
fn topology_of_a_simple_mesh_is_accepted() {
    let validator = ModelValidator::new();
    assert_eq!(
        validator.check_topology(&triangle()).unwrap(),
        TopologyReport { large: false, collapsed_faces: 0, non_manifold: false }
    );
    let report = validator.check_topology(&mesh(100_001, &[[0, 1, 2]])).unwrap();
    assert!(report.large);
    assert!(!validator.check_topology(&mesh(100_000, &[[0, 1, 2]])).unwrap().large);
}

#[test]
fn topology_errors_name_what_is_wrong() {
    let validator = ModelValidator::new();
    let detail = |m: &MeshData| match validator.check_topology(m) {
        Err(PatternError::IOError(detail)) => detail,
        other => panic!("unexpected result: {:?}", other),
    };
    assert_eq!(detail(&mesh(0, &[[0, 1, 2]])), "Mesh has no vertices");
    assert_eq!(detail(&mesh(0, &[])), "Mesh has no vertices");
    assert_eq!(detail(&mesh(3, &[])), "Mesh has no faces");
    assert_eq!(
        detail(&mesh(3, &[[0, 1, 2], [0, 5, 7]])),
        "Face 1 has invalid vertex index 5 (max: 2)"
    );
    assert_eq!(detail(&mesh(3, &[[3, 9, 2]])), "Face 0 has invalid vertex index 3 (max: 2)");
}

#[test]
fn collapsed_faces_and_overused_edges_are_reported() {
    let validator = ModelValidator::new();
    let m = mesh(3, &[[0, 1, 2], [0, 0, 0]]);
    assert_eq!(validator.count_collapsed_faces(&m), 1);
    assert_eq!(validator.count_collapsed_faces(&mesh(3, &[[0, 1, 0], [1, 1, 2], [2, 0, 0]])), 3);
    assert!(validator.has_non_manifold_edges(&m));
    assert!(!validator.has_non_manifold_edges(&tetrahedron()));
    assert!(!validator.has_non_manifold_edges(&two_triangles()));
    assert!(validator.has_non_manifold_edges(&mesh(5, &[[0, 1, 2], [0, 1, 3], [1, 0, 4]])));
    let report = validator
        .check_topology(&mesh(5, &[[0, 1, 2], [0, 1, 3], [1, 0, 4], [2, 2, 3]]))
        .unwrap();
    assert_eq!(report.collapsed_faces, 1);
    assert!(report.non_manifold);
}

#[test]
fn processor_removes_collapsed_faces() {
    let processor = MeshProcessor::new();
    let mut m = mesh(4, &[[0, 1, 2], [0, 0, 0], [1, 3, 1], [2, 1, 3], [3, 3, 2]]);
    processor.remove_collapsed_faces(&mut m);
    assert_eq!(face_indices(&m), vec![[0, 1, 2], [2, 1, 3]]);
    assert_eq!(m.vertex_count, 4);
}

#[test]
fn processor_decides_on_simplification() {
    let processor = MeshProcessor::new();
    assert_eq!(processor.simplification_target(true, Some(100), 201), Some(200));
    assert_eq!(processor.simplification_target(true, Some(100), 200), None);
    assert_eq!(processor.simplification_target(false, Some(100), 1000), None);
    assert_eq!(processor.simplification_target(true, None, 1000), None);
    assert_eq!(processor.simplification_target(true, Some(0), 1), Some(0));
}

#[test]
fn simplifier_merges_a_vertex_into_another() {
    let simplifier = MeshSimplifier::new();
    let mut m = two_triangles();
    simplifier.collapse_vertex(&mut m, 0, 1);
    assert_eq!(face_indices(&m), vec![[0, 0, 2], [2, 0, 3]]);
    assert_eq!(simplifier.collapses_needed(10, 4), 6);
    assert_eq!(simplifier.collapses_needed(4, 4), 0);
    assert_eq!(simplifier.collapses_needed(3, 4), 0);
}

#[test]
fn indexed_primitives_become_offset_triples() {
    let loader = GltfLoader::new();
    let faces = loader.faces_from_indices(&vec![0, 1, 2, 2, 1, 3, 9], 10).unwrap();
    let got: Vec<[u32; 3]> = faces.iter().map(|f| f.indices).collect();
    assert_eq!(got, vec![[10, 11, 12], [12, 11, 13]]);
    assert!(loader.faces_from_indices(&vec![0, 1], 10).unwrap().is_empty());
    assert!(loader.faces_from_indices(&vec![0, 1, u32::MAX], 1).is_none());
    assert!(loader.faces_from_indices(&vec![0, 1, 2, u32::MAX], 1).is_some());
}

#[test]
fn unindexed_primitives_become_consecutive_triples() {
    let loader = GltfLoader::new();
    let faces = loader.faces_from_vertex_run(4, 7).unwrap();
    let got: Vec<[u32; 3]> = faces.iter().map(|f| f.indices).collect();
    assert_eq!(got, vec![[4, 5, 6], [7, 8, 9]]);
    assert!(loader.faces_from_vertex_run(0, 2).unwrap().is_empty());
    assert!(loader.faces_from_vertex_run(u32::MAX as usize, 1).is_none());
}

#[test]
fn repeated_positions_are_counted() {
    let validator = ModelValidator::new();
    assert_eq!(validator.count_duplicates(&vec![]), 0);
    assert_eq!(validator.count_duplicates(&vec![7, 8, 9]), 0);
    assert_eq!(validator.count_duplicates(&vec![7, 8, 7, 7, 9, 8]), 3);
    assert_eq!(validator.count_duplicates(&vec![u128::MAX, 0, u128::MAX]), 1);
}

#[test]
fn test_validate_simple_mesh() {
    let validator = ModelValidator::new();
    let mesh = triangle();
    let result = validator.check_topology(&mesh);
    assert!(result.is_ok());
}

#[test]
fn test_detect_degenerate() {
    let validator = ModelValidator::new();
    let mut mesh = triangle();

    mesh.faces.push(Face { indices: [0, 0, 0] });

    let count = validator.count_collapsed_faces(&mesh);
    assert_eq!(count, 1);
}

#[test]
fn test_remove_degenerate() {
    let processor = MeshProcessor::new();
    let mut mesh = triangle();

    mesh.faces.push(Face { indices: [0, 0, 0] });

    processor.remove_collapsed_faces(&mut mesh);

    assert_eq!(mesh.faces.len(), 1);
}
