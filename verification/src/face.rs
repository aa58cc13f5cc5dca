//! Block faces and their geometry templates.
//!
//! Each visible face of a block contributes a fixed quad: four vertex
//! positions on the unit cube, four normals, four texture coordinates and
//! six triangle indices with consistent winding. All template coordinates
//! are integers (corners of the unit cube and unit normals); the renderer
//! converts them to its own vertex format.

use vstd::prelude::*;

verus! {

/// The direction a block face points in, in absolute (world) coordinates.
#[derive(Clone, Copy, PartialEq, Eq, Structural, Debug)]
pub enum AbsoluteBlockFaceDirection {
    /// Positive x: the right side.
    PosX,
    /// Negative x: the left side.
    NegX,
    /// Positive y: the top side.
    PosY,
    /// Negative y: the bottom side.
    NegY,
    /// Positive z: the front side.
    PosZ,
    /// Negative z: the back side.
    NegZ,
}

/// The face direction enumerated at slot `i` by the mesh builder, in the
/// order `+x, -x, +y, -y, +z, -z`.
pub open spec fn face_at_index(i: int) -> AbsoluteBlockFaceDirection {
    if i == 0 {
        AbsoluteBlockFaceDirection::PosX
    } else if i == 1 {
        AbsoluteBlockFaceDirection::NegX
    } else if i == 2 {
        AbsoluteBlockFaceDirection::PosY
    } else if i == 3 {
        AbsoluteBlockFaceDirection::NegY
    } else if i == 4 {
        AbsoluteBlockFaceDirection::PosZ
    } else {
        AbsoluteBlockFaceDirection::NegZ
    }
}

impl AbsoluteBlockFaceDirection {
    /// The unit offset this face points along.
    pub open spec fn delta_spec(self) -> (int, int, int) {
        match self {
            AbsoluteBlockFaceDirection::PosX => (1, 0, 0),
            AbsoluteBlockFaceDirection::NegX => (-1, 0, 0),
            AbsoluteBlockFaceDirection::PosY => (0, 1, 0),
            AbsoluteBlockFaceDirection::NegY => (0, -1, 0),
            AbsoluteBlockFaceDirection::PosZ => (0, 0, 1),
            AbsoluteBlockFaceDirection::NegZ => (0, 0, -1),
        }
    }

    /// The unit offset this face points along, as signed components.
    pub fn delta(self) -> (r: (i32, i32, i32))
        ensures
            r.0 == self.delta_spec().0,
            r.1 == self.delta_spec().1,
            r.2 == self.delta_spec().2,
    {
        match self {
            AbsoluteBlockFaceDirection::PosX => (1, 0, 0),
            AbsoluteBlockFaceDirection::NegX => (-1, 0, 0),
            AbsoluteBlockFaceDirection::PosY => (0, 1, 0),
            AbsoluteBlockFaceDirection::NegY => (0, -1, 0),
            AbsoluteBlockFaceDirection::PosZ => (0, 0, 1),
            AbsoluteBlockFaceDirection::NegZ => (0, 0, -1),
        }
    }

    /// The face direction at slot `i` of the builder's fixed enumeration.
    pub fn from_index(i: usize) -> (r: Self)
        requires
            i < 6,
        ensures
            r == face_at_index(i as int),
    {
        if i == 0 {
            AbsoluteBlockFaceDirection::PosX
        } else if i == 1 {
            AbsoluteBlockFaceDirection::NegX
        } else if i == 2 {
            AbsoluteBlockFaceDirection::PosY
        } else if i == 3 {
            AbsoluteBlockFaceDirection::NegY
        } else if i == 4 {
            AbsoluteBlockFaceDirection::PosZ
        } else {
            AbsoluteBlockFaceDirection::NegZ
        }
    }

    /// The four corner positions of this face on the unit cube, in winding
    /// order.
    pub open spec fn vertex_positions_spec(self) -> Seq<(i32, i32, i32)> {
        match self {
            AbsoluteBlockFaceDirection::PosX => seq![
                (1i32, 0i32, 0i32),
                (1i32, 1i32, 0i32),
                (1i32, 1i32, 1i32),
                (1i32, 0i32, 1i32),
            ],
            AbsoluteBlockFaceDirection::NegX => seq![
                (0i32, 0i32, 1i32),
                (0i32, 1i32, 1i32),
                (0i32, 1i32, 0i32),
                (0i32, 0i32, 0i32),
            ],
            AbsoluteBlockFaceDirection::PosY => seq![
                (1i32, 1i32, 0i32),
                (0i32, 1i32, 0i32),
                (0i32, 1i32, 1i32),
                (1i32, 1i32, 1i32),
            ],
            AbsoluteBlockFaceDirection::NegY => seq![
                (1i32, 0i32, 1i32),
                (0i32, 0i32, 1i32),
                (0i32, 0i32, 0i32),
                (1i32, 0i32, 0i32),
            ],
            AbsoluteBlockFaceDirection::PosZ => seq![
                (0i32, 0i32, 1i32),
                (1i32, 0i32, 1i32),
                (1i32, 1i32, 1i32),
                (0i32, 1i32, 1i32),
            ],
            AbsoluteBlockFaceDirection::NegZ => seq![
                (0i32, 1i32, 0i32),
                (1i32, 1i32, 0i32),
                (1i32, 0i32, 0i32),
                (0i32, 0i32, 0i32),
            ],
        }
    }

    /// The normal of this face, repeated for each of the four vertices.
    pub open spec fn normals_spec(self) -> Seq<(i32, i32, i32)> {
        let d = self.delta_spec();
        seq![
            (d.0 as i32, d.1 as i32, d.2 as i32),
            (d.0 as i32, d.1 as i32, d.2 as i32),
            (d.0 as i32, d.1 as i32, d.2 as i32),
            (d.0 as i32, d.1 as i32, d.2 as i32),
        ]
    }

    /// The texture coordinates of the four vertices of this face.
    pub open spec fn uvs_spec(self) -> Seq<(i32, i32)> {
        match self {
            AbsoluteBlockFaceDirection::PosX => seq![
                (0i32, 0i32),
                (1i32, 0i32),
                (1i32, 1i32),
                (0i32, 1i32),
            ],
            AbsoluteBlockFaceDirection::NegX => seq![
                (1i32, 0i32),
                (0i32, 0i32),
                (0i32, 1i32),
                (1i32, 1i32),
            ],
            AbsoluteBlockFaceDirection::PosY => seq![
                (1i32, 0i32),
                (0i32, 0i32),
                (0i32, 1i32),
                (1i32, 1i32),
            ],
            AbsoluteBlockFaceDirection::NegY => seq![
                (0i32, 0i32),
                (1i32, 0i32),
                (1i32, 1i32),
                (0i32, 1i32),
            ],
            AbsoluteBlockFaceDirection::PosZ => seq![
                (0i32, 0i32),
                (1i32, 0i32),
                (1i32, 1i32),
                (0i32, 1i32),
            ],
            AbsoluteBlockFaceDirection::NegZ => seq![
                (1i32, 0i32),
                (0i32, 0i32),
                (0i32, 1i32),
                (1i32, 1i32),
            ],
        }
    }

    /// The four corner positions of this face, in executable form.
    pub fn get_vertex_positions(&self) -> (r: Vec<(i32, i32, i32)>)
        ensures
            r@ == self.vertex_positions_spec(),
    {
        let r = match self {
            AbsoluteBlockFaceDirection::PosX => vec![(1, 0, 0), (1, 1, 0), (1, 1, 1), (1, 0, 1)],
            AbsoluteBlockFaceDirection::NegX => vec![(0, 0, 1), (0, 1, 1), (0, 1, 0), (0, 0, 0)],
            AbsoluteBlockFaceDirection::PosY => vec![(1, 1, 0), (0, 1, 0), (0, 1, 1), (1, 1, 1)],
            AbsoluteBlockFaceDirection::NegY => vec![(1, 0, 1), (0, 0, 1), (0, 0, 0), (1, 0, 0)],
            AbsoluteBlockFaceDirection::PosZ => vec![(0, 0, 1), (1, 0, 1), (1, 1, 1), (0, 1, 1)],
            AbsoluteBlockFaceDirection::NegZ => vec![(0, 1, 0), (1, 1, 0), (1, 0, 0), (0, 0, 0)],
        };
        proof {
            assert(r@ =~= self.vertex_positions_spec());
        }
        r
    }

    /// The per-vertex normals of this face, in executable form.
    pub fn get_normals(&self) -> (r: Vec<(i32, i32, i32)>)
        ensures
            r@ == self.normals_spec(),
    {
        let (dx, dy, dz) = self.delta();
        let r = vec![(dx, dy, dz), (dx, dy, dz), (dx, dy, dz), (dx, dy, dz)];
        proof {
            assert(r@ =~= self.normals_spec());
        }
        r
    }

    /// The per-vertex texture coordinates of this face, in executable form.
    pub fn get_uvs(&self) -> (r: Vec<(i32, i32)>)
        ensures
            r@ == self.uvs_spec(),
    {
        let r = match self {
            AbsoluteBlockFaceDirection::PosX => vec![(0, 0), (1, 0), (1, 1), (0, 1)],
            AbsoluteBlockFaceDirection::NegX => vec![(1, 0), (0, 0), (0, 1), (1, 1)],
            AbsoluteBlockFaceDirection::PosY => vec![(1, 0), (0, 0), (0, 1), (1, 1)],
            AbsoluteBlockFaceDirection::NegY => vec![(0, 0), (1, 0), (1, 1), (0, 1)],
            AbsoluteBlockFaceDirection::PosZ => vec![(0, 0), (1, 0), (1, 1), (0, 1)],
            AbsoluteBlockFaceDirection::NegZ => vec![(1, 0), (0, 0), (0, 1), (1, 1)],
        };
        proof {
            assert(r@ =~= self.uvs_spec());
        }
        r
    }

    /// The order in which a face's four vertices close into two triangles;
    /// the winding decides which side the face is visible from.
    pub fn get_indexes() -> (r: Vec<u32>)
        ensures
            r@ == index_template(),
    {
        let r = vec![0u32, 1, 2, 2, 3, 0];
        proof {
            assert(r@ =~= index_template());
        }
        r
    }
}

/// The triangle-index template of one face, relative to its first vertex.
pub open spec fn index_template() -> Seq<u32> {
    seq![0u32, 1u32, 2u32, 2u32, 3u32, 0u32]
}

} // verus!
