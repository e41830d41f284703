//! Least-squares conformal map: admission of meshes and the shape of the
//! linear system. The system itself is assembled and solved numerically by
//! the caller.

use vstd::prelude::*;
use vstd::string::*;
use crate::types::PatternError;

verus! {

/// Fewest vertices a mesh must have to be parameterized.
pub const MIN_VERTICES: usize = 3;

/// Most iterations of the conjugate-gradient solver.
pub const MAX_SOLVER_ITERATIONS: usize = 2000;

pub struct LSCMParameterizer {
    _private: (),
}

/// Rows and columns of the linear system, and the rows that pin the two
/// anchor vertices.
#[derive(Debug, Clone, Copy, PartialEq, Eq, Structural)]
pub struct SystemShape {
    /// Two rows per face and four pin rows.
    pub rows: usize,
    /// One column for `u` and one for `v` of every vertex.
    pub columns: usize,
    /// First of the four pin rows.
    pub first_pin_row: usize,
}

impl LSCMParameterizer {
    pub fn new() -> Self {
        Self { _private: () }
    }

    /// Admits a mesh to parameterization: it must have at least three
    /// vertices.
    pub fn check_vertex_count(&self, vertex_count: usize) -> (r: Result<(), PatternError>)
        ensures
            r is Ok <==> vertex_count >= MIN_VERTICES,
            r matches Err(e) ==> e is ParameterizationFailure && e.detail()
                == "Mesh must have at least 3 vertices for parameterization."@,
    {
        if vertex_count < MIN_VERTICES {
            Err(
                PatternError::ParameterizationFailure(
                    String::from_str("Mesh must have at least 3 vertices for parameterization."),
                ),
            )
        } else {
            Ok(())
        }
    }

    /// Shape of the system for a mesh of `vertex_count` vertices and
    /// `face_count` faces: `2 * face_count + 4` rows and `2 * vertex_count`
    /// columns. There is no shape when the figures do not fit the machine
    /// word.
    pub fn system_shape(&self, vertex_count: usize, face_count: usize) -> (r: Option<SystemShape>)
        ensures
            r is Some <==> 2 * vertex_count <= usize::MAX && 2 * face_count + 4 <= usize::MAX,
            r matches Some(shape) ==> shape.rows == 2 * face_count + 4 && shape.columns == 2
                * vertex_count && shape.first_pin_row == 2 * face_count,
    {
        if vertex_count > usize::MAX / 2 || face_count > (usize::MAX - 4) / 2 {
            None
        } else {
            Some(
                SystemShape {
                    rows: 2 * face_count + 4,
                    columns: 2 * vertex_count,
                    first_pin_row: 2 * face_count,
                },
            )
        }
    }
}

} // verus!
