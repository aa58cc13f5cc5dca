//! Assembling face quads into a renderable geometry buffer.
//!
//! The builder appends one face template at a time, translating its vertex
//! positions by the current transition (the block's position within its
//! chunk) and shifting its triangle indices past the vertices already
//! emitted. The spec-level counterpart folds a whole face list into the
//! four buffers, so a finished buffer is pinned down exactly by the list of
//! faces that went in.

use vstd::prelude::*;
use crate::face::{index_template, AbsoluteBlockFaceDirection};

verus! {

/// One face to emit: the translation of its quad (a block's position within
/// the chunk) and its direction.
pub struct FaceInstance {
    pub offset: (int, int, int),
    pub dir: AbsoluteBlockFaceDirection,
}

/// The vertex positions of one face, translated by `t`.
pub open spec fn translated_positions(dir: AbsoluteBlockFaceDirection, t: (int, int, int)) -> Seq<
    (i32, i32, i32),
> {
    dir.vertex_positions_spec().map_values(
        |p: (i32, i32, i32)| (((p.0 + t.0) as i32, (p.1 + t.1) as i32, (p.2 + t.2) as i32)),
    )
}

/// The triangle indices of one face, shifted past `base` vertices already
/// emitted.
pub open spec fn shifted_indexes(base: int) -> Seq<u32> {
    index_template().map_values(|i: u32| ((i + base) as u32))
}

/// All vertex positions of a face list, in order.
pub open spec fn faces_positions(faces: Seq<FaceInstance>) -> Seq<(i32, i32, i32)>
    decreases faces.len(),
{
    if faces.len() == 0 {
        Seq::empty()
    } else {
        faces_positions(faces.drop_last()) + translated_positions(
            faces.last().dir,
            faces.last().offset,
        )
    }
}

/// All normals of a face list, in order.
pub open spec fn faces_normals(faces: Seq<FaceInstance>) -> Seq<(i32, i32, i32)>
    decreases faces.len(),
{
    if faces.len() == 0 {
        Seq::empty()
    } else {
        faces_normals(faces.drop_last()) + faces.last().dir.normals_spec()
    }
}

/// All texture coordinates of a face list, in order.
pub open spec fn faces_uvs(faces: Seq<FaceInstance>) -> Seq<(i32, i32)>
    decreases faces.len(),
{
    if faces.len() == 0 {
        Seq::empty()
    } else {
        faces_uvs(faces.drop_last()) + faces.last().dir.uvs_spec()
    }
}

/// All triangle indices of a face list: each face's template shifted past
/// the four vertices of every earlier face.
pub open spec fn faces_indexes(faces: Seq<FaceInstance>) -> Seq<u32>
    decreases faces.len(),
{
    if faces.len() == 0 {
        Seq::empty()
    } else {
        faces_indexes(faces.drop_last()) + shifted_indexes(4 * (faces.len() - 1))
    }
}

/// The buffer folds of a face list grow four positions, four normals, four
/// texture coordinates and six indices per face.
pub proof fn lemma_faces_buffer_lens(faces: Seq<FaceInstance>)
    ensures
        faces_positions(faces).len() == 4 * faces.len(),
        faces_normals(faces).len() == 4 * faces.len(),
        faces_uvs(faces).len() == 4 * faces.len(),
        faces_indexes(faces).len() == 6 * faces.len(),
    decreases faces.len(),
{
    if faces.len() > 0 {
        lemma_faces_buffer_lens(faces.drop_last());
    }
}

/// Law (buffer well-formedness): the buffers folded from any face list have
/// equally many positions, normals and texture coordinates, and every
/// triangle index refers to an existing vertex — provided the list is short
/// enough that its indices fit the index type, as every list built from one
/// chunk is.
pub proof fn lemma_faces_buffers_wf(faces: Seq<FaceInstance>)
    requires
        faces.len() <= 24576,
    ensures
        faces_positions(faces).len() == faces_normals(faces).len(),
        faces_positions(faces).len() == faces_uvs(faces).len(),
        6 * faces.len() == faces_indexes(faces).len(),
        4 * faces.len() == faces_positions(faces).len(),
        forall|i: int|
            0 <= i < faces_indexes(faces).len() ==> (#[trigger] faces_indexes(faces)[i]) < 4
                * faces.len(),
    decreases faces.len(),
{
    lemma_faces_buffer_lens(faces);
    if faces.len() > 0 {
        lemma_faces_buffers_wf(faces.drop_last());
        lemma_faces_buffer_lens(faces.drop_last());
        assert forall|i: int| 0 <= i < faces_indexes(faces).len() implies (
        #[trigger] faces_indexes(faces)[i]) < 4 * faces.len() by {
            let prefix = faces_indexes(faces.drop_last());
            if i < prefix.len() {
                assert(faces_indexes(faces)[i] == prefix[i]);
            } else {
                let j = i - prefix.len();
                assert(faces_indexes(faces)[i] == shifted_indexes(4 * (faces.len() - 1))[j]);
                assert(index_template()[j] <= 3);
            }
        }
    }
}

/// The index template has six entries, each referring to one of the four
/// vertices of its face.
pub proof fn lemma_index_template_bounds()
    ensures
        index_template().len() == 6,
        forall|i: int| 0 <= i < 6 ==> #[trigger] index_template()[i] <= 3,
{
    assert forall|i: int| 0 <= i < 6 implies #[trigger] index_template()[i] <= 3 by {
        if i == 0 {
            assert(index_template()[0] == 0);
        } else if i == 1 {
            assert(index_template()[1] == 1);
        } else if i == 2 {
            assert(index_template()[2] == 2);
        } else if i == 3 {
            assert(index_template()[3] == 2);
        } else if i == 4 {
            assert(index_template()[4] == 3);
        } else {
            assert(index_template()[5] == 0);
        }
    }
}

/// Every vertex template coordinate is a corner of the unit cube.
pub proof fn lemma_template_bounds(d: AbsoluteBlockFaceDirection)
    ensures
        forall|i: int|
            0 <= i < 4 ==> {
                let p = #[trigger] d.vertex_positions_spec()[i];
                0 <= p.0 <= 1 && 0 <= p.1 <= 1 && 0 <= p.2 <= 1
            },
        d.vertex_positions_spec().len() == 4,
        d.normals_spec().len() == 4,
        d.uvs_spec().len() == 4,
{
    match d {
        AbsoluteBlockFaceDirection::PosX => {},
        AbsoluteBlockFaceDirection::NegX => {},
        AbsoluteBlockFaceDirection::PosY => {},
        AbsoluteBlockFaceDirection::NegY => {},
        AbsoluteBlockFaceDirection::PosZ => {},
        AbsoluteBlockFaceDirection::NegZ => {},
    }
}

/// A finished geometry buffer: triangle indices over parallel per-vertex
/// positions, normals and texture coordinates.
///
/// Empty buffers (no triangles) are a valid and common result — a fully
/// culled chunk produces one — and are told apart by [`MeshBuffers::is_empty`]
/// so callers can skip creating a render object.
pub struct MeshBuffers {
    pub indexes: Vec<u32>,
    pub positions: Vec<(i32, i32, i32)>,
    pub normals: Vec<(i32, i32, i32)>,
    pub uvs: Vec<(i32, i32)>,
}

impl MeshBuffers {
    /// Positions, normals and texture coordinates run in parallel, and
    /// every index refers to an existing vertex.
    pub open spec fn wf(self) -> bool {
        &&& self.positions@.len() == self.normals@.len()
        &&& self.positions@.len() == self.uvs@.len()
        &&& forall|i: int|
            0 <= i < self.indexes@.len() ==> (#[trigger] self.indexes@[i]) < self.positions@.len()
    }

    /// Whether the buffer holds no geometry at all.
    pub fn is_empty(&self) -> (r: bool)
        ensures
            r == (self.indexes@.len() == 0),
    {
        self.indexes.len() == 0
    }
}

/// Builds a [`MeshBuffers`] from face quads, translating each by the
/// current transition.
pub struct MeshBuilder {
    pub indexes: Vec<u32>,
    pub positions: Vec<(i32, i32, i32)>,
    pub normals: Vec<(i32, i32, i32)>,
    pub uvs: Vec<(i32, i32)>,
    /// Offset added to the vertex positions of every face added from now
    /// on: the position of the block being emitted, within its chunk.
    pub transition: (i32, i32, i32),
}

impl MeshBuilder {
    /// A builder with empty buffers and no transition.
    pub fn new() -> (r: Self)
        ensures
            r.indexes@.len() == 0,
            r.positions@.len() == 0,
            r.normals@.len() == 0,
            r.uvs@.len() == 0,
            r.transition == (0i32, 0i32, 0i32),
    {
        MeshBuilder {
            indexes: Vec::new(),
            positions: Vec::new(),
            normals: Vec::new(),
            uvs: Vec::new(),
            transition: (0, 0, 0),
        }
    }

    /// Set the offset applied to every subsequently added face.
    pub fn set_transition(&mut self, transition: (i32, i32, i32))
        ensures
            final(self).transition == transition,
            final(self).indexes == old(self).indexes,
            final(self).positions == old(self).positions,
            final(self).normals == old(self).normals,
            final(self).uvs == old(self).uvs,
    {
        self.transition = transition;
    }

    /// Append one face: four vertices translated by the transition, their
    /// normals and texture coordinates, and six indices shifted past the
    /// vertices already present.
    pub fn add_mesh_data(&mut self, face_dir: AbsoluteBlockFaceDirection)
        requires
            old(self).positions@.len() + 4 <= u32::MAX,
            old(self).transition.0 <= i32::MAX - 1,
            old(self).transition.1 <= i32::MAX - 1,
            old(self).transition.2 <= i32::MAX - 1,
            old(self).transition.0 >= i32::MIN,
            old(self).transition.1 >= i32::MIN,
            old(self).transition.2 >= i32::MIN,
        ensures
            final(self).transition == old(self).transition,
            final(self).positions@ == old(self).positions@ + translated_positions(
                face_dir,
                (
                    old(self).transition.0 as int,
                    old(self).transition.1 as int,
                    old(self).transition.2 as int,
                ),
            ),
            final(self).normals@ == old(self).normals@ + face_dir.normals_spec(),
            final(self).uvs@ == old(self).uvs@ + face_dir.uvs_spec(),
            final(self).indexes@ == old(self).indexes@ + shifted_indexes(
                old(self).positions@.len() as int,
            ),
    {
        let positions_len: u32 = self.positions.len() as u32;
        let idx_template = AbsoluteBlockFaceDirection::get_indexes();
        proof {
            lemma_index_template_bounds();
        }
        let ghost i0 = self.indexes@;
        for i in 0..6usize
            invariant
                positions_len == old(self).positions@.len(),
                positions_len + 4 <= u32::MAX,
                idx_template@ == index_template(),
                self.positions == old(self).positions,
                self.normals == old(self).normals,
                self.uvs == old(self).uvs,
                self.transition == old(self).transition,
                self.indexes@.len() == i0.len() + i,
                forall|j: int| 0 <= j < i0.len() ==> #[trigger] self.indexes@[j] == i0[j],
                forall|j: int|
                    0 <= j < i ==> #[trigger] self.indexes@[i0.len() + j] == shifted_indexes(
                        positions_len as int,
                    )[j],
        {
            proof {
                lemma_index_template_bounds();
            }
            self.indexes.push(idx_template[i] + positions_len);
        }
        proof {
            lemma_index_template_bounds();
            assert forall|k: int| 0 <= k < self.indexes@.len() implies self.indexes@[k] == (i0
                + shifted_indexes(positions_len as int))[k] by {
                if k >= i0.len() {
                    let j = k - i0.len();
                    assert(self.indexes@[i0.len() + j] == shifted_indexes(
                        positions_len as int,
                    )[j]);
                }
            }
            assert(self.indexes@ =~= i0 + shifted_indexes(positions_len as int));
        }
        let verts = face_dir.get_vertex_positions();
        proof {
            lemma_template_bounds(face_dir);
        }
        let ghost p0 = self.positions@;
        for i in 0..4usize
            invariant
                verts@ == face_dir.vertex_positions_spec(),
                self.normals == old(self).normals,
                self.uvs == old(self).uvs,
                self.transition == old(self).transition,
                self.indexes@ == i0 + shifted_indexes(positions_len as int),
                old(self).transition.0 <= i32::MAX - 1,
                old(self).transition.1 <= i32::MAX - 1,
                old(self).transition.2 <= i32::MAX - 1,
                old(self).transition.0 >= i32::MIN,
                old(self).transition.1 >= i32::MIN,
                old(self).transition.2 >= i32::MIN,
                self.positions@.len() == p0.len() + i,
                forall|j: int| 0 <= j < p0.len() ==> #[trigger] self.positions@[j] == p0[j],
                forall|j: int|
                    0 <= j < i ==> #[trigger] self.positions@[p0.len() + j] == translated_positions(
                        face_dir,
                        (
                            old(self).transition.0 as int,
                            old(self).transition.1 as int,
                            old(self).transition.2 as int,
                        ),
                    )[j],
        {
            proof {
                lemma_template_bounds(face_dir);
            }
            let v = verts[i];
            self.positions.push(
                (v.0 + self.transition.0, v.1 + self.transition.1, v.2 + self.transition.2),
            );
        }
        proof {
            lemma_template_bounds(face_dir);
            let ghost tp = translated_positions(
                face_dir,
                (
                    old(self).transition.0 as int,
                    old(self).transition.1 as int,
                    old(self).transition.2 as int,
                ),
            );
            assert forall|k: int| 0 <= k < self.positions@.len() implies self.positions@[k] == (p0
                + tp)[k] by {
                if k >= p0.len() {
                    let j = k - p0.len();
                    assert(self.positions@[p0.len() + j] == tp[j]);
                }
            }
            assert(self.positions@ =~= p0 + tp);
        }
        let mut normals = face_dir.get_normals();
        let ghost n0 = self.normals@;
        self.normals.append(&mut normals);
        let mut uvs = face_dir.get_uvs();
        let ghost u0 = self.uvs@;
        self.uvs.append(&mut uvs);
        proof {
            assert(self.normals@ =~= n0 + face_dir.normals_spec());
            assert(self.uvs@ =~= u0 + face_dir.uvs_spec());
        }
    }

    /// Finish building and hand the buffers out.
    pub fn build(self) -> (r: MeshBuffers)
        ensures
            r.indexes@ == self.indexes@,
            r.positions@ == self.positions@,
            r.normals@ == self.normals@,
            r.uvs@ == self.uvs@,
    {
        MeshBuffers {
            indexes: self.indexes,
            positions: self.positions,
            normals: self.normals,
            uvs: self.uvs,
        }
    }
}

/// Appending one face to a face list appends exactly its quad to each of
/// the four folded buffers.
pub proof fn lemma_faces_buffers_push(faces: Seq<FaceInstance>, f: FaceInstance)
    ensures
        faces_positions(faces.push(f)) == faces_positions(faces) + translated_positions(
            f.dir,
            f.offset,
        ),
        faces_normals(faces.push(f)) == faces_normals(faces) + f.dir.normals_spec(),
        faces_uvs(faces.push(f)) == faces_uvs(faces) + f.dir.uvs_spec(),
        faces_indexes(faces.push(f)) == faces_indexes(faces) + shifted_indexes(
            4 * faces.len() as int,
        ),
{
    let s = faces.push(f);
    assert(s.drop_last() =~= faces);
    assert(s.last() == f);
}

} // verus!
