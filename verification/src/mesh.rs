//! Meshes as they arrive from a loader, and the extraction of their faces.
use crate::grid::COORD_MAX;
use crate::triangle::{face_normal, face_triangle, models, NormalRule, Triangle, TriangleModel};
use crate::vector::Vector3;
use vstd::prelude::*;

verus! {

/// How the index buffer of a mesh groups its vertices into primitives.
#[derive(Clone, Copy, Debug, PartialEq, Eq, Structural)]
pub enum Topology {
    PointList,
    LineList,
    LineStrip,
    TriangleList,
    TriangleStrip,
}

/// An index buffer, in one of the two widths in which loaders deliver it.
#[derive(Clone, Debug)]
pub enum Indices {
    U16(Vec<u16>),
    U32(Vec<u32>),
}

/// A mesh: a topology, an optional index buffer and an optional position
/// attribute that maps a vertex index to a grid point.
#[derive(Clone, Debug)]
pub struct Mesh {
    pub topology: Topology,
    pub indices: Option<Indices>,
    pub positions: Option<Vec<Vector3>>,
}

/// The entry at place `i` of the index buffer names a vertex that has a position
/// on the grid.
pub open spec fn names_grid_point(indices: Seq<u32>, positions: Seq<Vector3>, i: int) -> bool {
    indices[i] < positions.len() && positions[indices[i] as int]@.within(COORD_MAX as int)
}

/// The face that the three index entries from place `3 * k` on describe, with
/// the normal that `rule` assigns to it.
pub open spec fn face(indices: Seq<u32>, positions: Seq<Vector3>, rule: NormalRule, k: int)
    -> TriangleModel {
    face_triangle(
        rule,
        positions[indices[3 * k] as int]@,
        positions[indices[3 * k + 1] as int]@,
        positions[indices[3 * k + 2] as int]@,
    )
}

impl Mesh {
    /// The index buffer, where the mesh is a triangle list with 32-bit indices.
    pub open spec fn triangle_indices(&self) -> Option<Seq<u32>> {
        match (self.topology, self.indices) {
            (Topology::TriangleList, Some(Indices::U32(indices))) => Some(indices@),
            _ => None,
        }
    }

    /// Whether faces can be extracted: the mesh is a triangle list with 32-bit
    /// indices and a position attribute, the indices come in groups of three,
    /// and each names a vertex with a position on the grid.
    pub open spec fn is_supported(&self) -> bool {
        &&& self.triangle_indices() matches Some(indices)
        &&& self.positions matches Some(positions)
        &&& indices.len() % 3 == 0
        &&& forall|i: int|
            0 <= i < indices.len() ==> #[trigger] names_grid_point(indices, positions@, i)
    }

    /// The faces of the mesh in the order of the index buffer, one for each
    /// group of three indices; none where the mesh is not supported.
    pub open spec fn faces(&self, rule: NormalRule) -> Seq<TriangleModel> {
        if self.is_supported() {
            let indices = self.triangle_indices().unwrap();
            let positions = self.positions.unwrap()@;
            Seq::new(indices.len() / 3, |k: int| face(indices, positions, rule, k))
        } else {
            Seq::empty()
        }
    }
}

/// Extracts the triangles of a mesh, one for each group of three indices, in
/// the order of the index buffer.
///
/// A mesh that is not supported yields no triangles. A face whose normal comes
/// out as the zero vector is kept and is degenerate: no ray intersects it.
pub fn gen_triangles(mesh: &Mesh, rule: NormalRule) -> (triangles: Vec<Triangle>)
    ensures
        models(triangles@) == mesh.faces(rule),
{
    match mesh.topology {
        Topology::TriangleList => {},
        _ => {
            return Vec::new();
        },
    }
    let indices: &Vec<u32> = match &mesh.indices {
        Some(Indices::U32(indices)) => indices,
        _ => {
            return Vec::new();
        },
    };
    let positions: &Vec<Vector3> = match &mesh.positions {
        Some(positions) => positions,
        None => {
            return Vec::new();
        },
    };
    if indices.len() % 3 != 0 {
        return Vec::new();
    }
    let count: usize = indices.len() / 3;
    let mut triangles: Vec<Triangle> = Vec::new();
    let mut k: usize = 0;
    while k < count
        invariant
            k <= count,
            count == indices.len() / 3,
            indices.len() % 3 == 0,
            mesh.triangle_indices() == Some(indices@),
            mesh.positions == Some(*positions),
            triangles.len() == k,
            forall|i: int| 0 <= i < 3 * k ==> #[trigger] names_grid_point(indices@, positions@, i),
            forall|j: int|
                0 <= j < k ==> (#[trigger] triangles@[j])@ == face(indices@, positions@, rule, j),
        decreases count - k,
    {
        let i0: usize = indices[3 * k] as usize;
        let i1: usize = indices[3 * k + 1] as usize;
        let i2: usize = indices[3 * k + 2] as usize;
        if i0 >= positions.len() || i1 >= positions.len() || i2 >= positions.len() {
            proof {
                assert(!names_grid_point(indices@, positions@, 3 * k) || !names_grid_point(
                    indices@,
                    positions@,
                    3 * k + 1,
                ) || !names_grid_point(indices@, positions@, 3 * k + 2));
            }
            return Vec::new();
        }
        match Triangle::from_vertices(positions[i0], positions[i1], positions[i2], rule) {
            Some(triangle) => {
                triangles.push(triangle);
            },
            None => {
                proof {
                    assert(!names_grid_point(indices@, positions@, 3 * k) || !names_grid_point(
                        indices@,
                        positions@,
                        3 * k + 1,
                    ) || !names_grid_point(indices@, positions@, 3 * k + 2));
                }
                return Vec::new();
            },
        }
        k += 1;
    }
    proof {
        assert(mesh.is_supported());
        assert(models(triangles@) =~= mesh.faces(rule));
    }
    triangles
}

/// The faces extracted from a supported mesh are as many as the index buffer
/// has groups of three, and each has for its vertices the positions that its
/// three indices name, in their order.
pub proof fn lemma_faces_match_mesh(mesh: Mesh, rule: NormalRule, k: int)
    requires
        mesh.is_supported(),
        0 <= k < mesh.triangle_indices().unwrap().len() / 3,
    ensures
        mesh.faces(rule).len() == mesh.triangle_indices().unwrap().len() / 3,
        mesh.faces(rule)[k].v0 == mesh.positions.unwrap()@[mesh.triangle_indices().unwrap()[3
            * k] as int]@,
        mesh.faces(rule)[k].v1 == mesh.positions.unwrap()@[mesh.triangle_indices().unwrap()[3 * k
            + 1] as int]@,
        mesh.faces(rule)[k].v2 == mesh.positions.unwrap()@[mesh.triangle_indices().unwrap()[3 * k
            + 2] as int]@,
        mesh.faces(rule)[k].normal == face_normal(
            rule,
            mesh.faces(rule)[k].v0,
            mesh.faces(rule)[k].v1,
            mesh.faces(rule)[k].v2,
        ),
{
}

} // verus!
