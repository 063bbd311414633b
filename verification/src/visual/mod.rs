//! Mesh bookkeeping for the renderer: line meshes made drawable as quads,
//! and the places of the models and their instances in the shared buffers.
//!
//! A position is three coordinates, each held as the bits of a
//! single-precision number. Nothing here computes with them.

pub mod geo;

use core::ops::Range;
use vstd::prelude::*;

verus! {

/// Bytes of one index in the index buffer.
pub const INDEX_BYTES: u64 = 4;

/// Bytes of one vertex of a thick mesh in the vertex buffer.
pub const VERTEX_BYTES: u64 = 24;

/// Bytes of one instance in the instance buffer.
pub const INSTANCE_BYTES: u64 = 64;

/// The corner of a segment's quad that each of its six indices names: two
/// triangles, `0 1 2` and `2 3 0`.
pub open spec fn quad_corner(k: int) -> int {
    if k == 0 || k == 5 {
        0
    } else if k == 1 {
        1
    } else if k == 4 {
        3
    } else {
        2
    }
}

/// The indices of the quads of `segments` segments, four vertices to a
/// quad.
pub open spec fn quad_indices(segments: int) -> Seq<u32> {
    Seq::new((6 * segments) as nat, |k: int| (4 * (k / 6) + quad_corner(k % 6)) as u32)
}

/// `Vec::into_boxed_slice`: the box holds exactly what the vector held,
/// in the same order.
#[verifier::external_body]
pub(crate) fn boxed<T>(items: Vec<T>) -> (slice: Box<[T]>)
    ensures
        slice@ == items@,
{
    items.into_boxed_slice()
}

/// A mesh of line segments: each pair of indices joins two vertices.
#[derive(Debug, PartialEq, Eq)]
pub struct BaseMesh {
    pub indices: Box<[u32]>,
    pub vertices: Box<[[u32; 3]]>,
}

/// A vertex of a thick mesh: its own end of the segment, and the other
/// end.
#[derive(Debug, Clone, Copy, PartialEq, Eq)]
pub struct ThickMeshVertex {
    pub this_position: [u32; 3],
    pub other_position: [u32; 3],
}

/// A mesh of quads, one to each segment of a line mesh.
#[derive(Debug, PartialEq, Eq)]
pub struct ThickMesh {
    pub indices: Box<[u32]>,
    pub vertices: Box<[ThickMeshVertex]>,
}

impl BaseMesh {
    /// The number of whole segments.
    pub open spec fn segments(&self) -> int {
        self.indices@.len() as int / 2
    }

    /// The mesh can be thickened: the indices come in pairs, each names a
    /// vertex, and the quads' indices fit into 32 bits.
    pub open spec fn well_formed(&self) -> bool {
        &&& self.indices@.len() % 2 == 0
        &&& forall|i: int| 0 <= i < self.indices@.len() ==> self.indices@[i] < self.vertices@.len()
        &&& 4 * self.segments() - 1 <= u32::MAX
    }

    /// The vertex that every corner of the quad of segment `segment`
    /// holds.
    pub open spec fn thick_vertex(&self, segment: int) -> ThickMeshVertex {
        ThickMeshVertex {
            this_position: self.vertices@[self.indices@[2 * segment] as int],
            other_position: self.vertices@[self.indices@[2 * segment + 1] as int],
        }
    }

    /// Whether the mesh can be thickened.
    pub fn can_thicken(&self) -> (possible: bool)
        ensures
            possible == self.well_formed(),
    {
        let count: usize = self.indices.len();
        if count % 2 != 0 {
            return false;
        }
        if count / 2 > 0x4000_0000 {
            return false;
        }
        let mut at: usize = 0;
        while at < count
            invariant
                at <= count,
                count == self.indices@.len(),
                forall|i: int| 0 <= i < at ==> self.indices@[i] < self.vertices@.len(),
            decreases count - at,
        {
            if self.indices[at] as usize >= self.vertices.len() {
                return false;
            }
            at = at + 1;
        }
        true
    }

    /// Gives every segment a quad of four vertices that all hold the
    /// segment's two ends, and the six indices of the quad's two
    /// triangles.
    pub fn thicken(self) -> (thick: ThickMesh)
        requires
            self.well_formed(),
        ensures
            thick.vertices@.len() == 4 * self.segments(),
            forall|k: int|
                0 <= k < 4 * self.segments() ==> thick.vertices@[k] == self.thick_vertex(k / 4),
            thick.indices@ == quad_indices(self.segments()),
    {
        let mut new_indices: Vec<u32> = Vec::new();
        let mut new_vertices: Vec<ThickMeshVertex> = Vec::new();
        let count: usize = self.indices.len() / 2;
        let mut segment: usize = 0;
        while segment < count
            invariant
                self.well_formed(),
                count == self.segments(),
                segment <= count,
                new_vertices@.len() == 4 * segment,
                new_indices@.len() == 6 * segment,
                forall|k: int|
                    0 <= k < 4 * segment ==> new_vertices@[k] == self.thick_vertex(k / 4),
                forall|k: int|
                    0 <= k < 6 * segment ==> new_indices@[k] == quad_indices(self.segments())[k],
            decreases count - segment,
        {
            let first: usize = self.indices[2 * segment] as usize;
            let second: usize = self.indices[2 * segment + 1] as usize;
            let vertex_template = ThickMeshVertex {
                this_position: self.vertices[first],
                other_position: self.vertices[second],
            };
            new_vertices.push(vertex_template);
            new_vertices.push(vertex_template);
            new_vertices.push(vertex_template);
            new_vertices.push(vertex_template);
            let idx1: u32 = (4 * segment) as u32;
            new_indices.push(idx1);
            new_indices.push(idx1 + 1);
            new_indices.push(idx1 + 2);
            new_indices.push(idx1 + 2);
            new_indices.push(idx1 + 3);
            new_indices.push(idx1);
            segment = segment + 1;
        }
        assert(new_indices@ =~= quad_indices(self.segments()));
        ThickMesh { indices: boxed(new_indices), vertices: boxed(new_vertices) }
    }
}

/// The half-open ranges of the shared index and vertex buffers that hold
/// one model.
#[derive(Debug)]
pub struct Model {
    pub index_range: Range<u32>,
    pub vertex_range: Range<u32>,
}

impl Model {
    /// Places a model of `index_count` indices and `vertex_count`
    /// vertices at the given starts. With the model come the numbers of
    /// bytes that its indices and its vertices take in their buffers.
    pub fn new(
        index_count: usize,
        vertex_count: usize,
        index_start: u32,
        vertex_start: u32,
    ) -> (placed: (Self, u64, u64))
        requires
            index_start + index_count <= u32::MAX,
            vertex_start + vertex_count <= u32::MAX,
        ensures
            placed.0.index_range.start == index_start,
            placed.0.index_range.end == index_start + index_count,
            placed.0.vertex_range.start == vertex_start,
            placed.0.vertex_range.end == vertex_start + vertex_count,
            placed.1 == INDEX_BYTES * index_count,
            placed.2 == VERTEX_BYTES * vertex_count,
    {
        let index_end: u32 = index_start + index_count as u32;
        let vertex_end: u32 = vertex_start + vertex_count as u32;
        (
            Model {
                index_range: Range { start: index_start, end: index_end },
                vertex_range: Range { start: vertex_start, end: vertex_end },
            },
            INDEX_BYTES * (index_count as u64),
            VERTEX_BYTES * (vertex_count as u64),
        )
    }

    /// The indices of a mesh as they stand in the shared index buffer,
    /// where the mesh's vertices begin at `vertex_start`.
    pub fn rebased_indices(indices: &[u32], vertex_start: u32) -> (rebased: Vec<u32>)
        requires
            forall|i: int| 0 <= i < indices@.len() ==> indices@[i] + vertex_start <= u32::MAX,
        ensures
            rebased@.len() == indices@.len(),
            forall|i: int| 0 <= i < indices@.len() ==> rebased@[i] == indices@[i] + vertex_start,
    {
        let mut rebased: Vec<u32> = Vec::new();
        let mut at: usize = 0;
        while at < indices.len()
            invariant
                at <= indices@.len(),
                rebased@.len() == at,
                forall|i: int| 0 <= i < indices@.len() ==> indices@[i] + vertex_start <= u32::MAX,
                forall|i: int| 0 <= i < at ==> rebased@[i] == indices@[i] + vertex_start,
            decreases indices@.len() - at,
        {
            rebased.push(indices[at] + vertex_start);
            at = at + 1;
        }
        rebased
    }
}

/// The number of indices in the first `upto` meshes.
pub open spec fn index_total(meshes: Seq<ThickMesh>, upto: int) -> int
    decreases upto,
{
    if upto <= 0 {
        0
    } else {
        index_total(meshes, upto - 1) + meshes[upto - 1].indices@.len()
    }
}

/// The number of vertices in the first `upto` meshes.
pub open spec fn vertex_total(meshes: Seq<ThickMesh>, upto: int) -> int
    decreases upto,
{
    if upto <= 0 {
        0
    } else {
        vertex_total(meshes, upto - 1) + meshes[upto - 1].vertices@.len()
    }
}

/// The totals grow with the number of meshes counted.
pub proof fn lemma_totals_grow(meshes: Seq<ThickMesh>, fewer: int, more: int)
    requires
        0 <= fewer <= more,
    ensures
        0 <= index_total(meshes, fewer) <= index_total(meshes, more),
        0 <= vertex_total(meshes, fewer) <= vertex_total(meshes, more),
    decreases more,
{
    if fewer < more {
        lemma_totals_grow(meshes, fewer, more - 1);
    } else if more > 0 {
        lemma_totals_grow(meshes, fewer - 1, more - 1);
    }
}

/// The number of instances in the first `upto` counts.
pub open spec fn instance_total(counts: Seq<u32>, upto: int) -> int
    decreases upto,
{
    if upto <= 0 {
        0
    } else {
        instance_total(counts, upto - 1) + counts[upto - 1]
    }
}

/// The total grows with the number of counts added.
pub proof fn lemma_instance_total_grows(counts: Seq<u32>, fewer: int, more: int)
    requires
        0 <= fewer <= more,
    ensures
        0 <= instance_total(counts, fewer) <= instance_total(counts, more),
    decreases more,
{
    if fewer < more {
        lemma_instance_total_grows(counts, fewer, more - 1);
    } else if more > 0 {
        lemma_instance_total_grows(counts, fewer - 1, more - 1);
    }
}

/// The positions, in order, of the instances among the first `upto` that
/// show model `model`.
pub open spec fn positions_of(models_of: Seq<usize>, model: int, upto: int) -> Seq<usize>
    decreases upto,
{
    if upto <= 0 {
        Seq::empty()
    } else {
        let before = positions_of(models_of, model, upto - 1);
        if models_of[upto - 1] == model {
            before.push((upto - 1) as usize)
        } else {
            before
        }
    }
}

/// The sizes in bytes of the three shared buffers.
#[derive(Debug, Clone, Copy, PartialEq, Eq)]
pub struct BufferSizes {
    pub index_bytes: u64,
    pub vertex_bytes: u64,
    pub instance_bytes: u64,
}

/// Collects the meshes of the models to be drawn.
pub struct ManagerBuilder {
    pub meshes: Vec<ThickMesh>,
}

impl ManagerBuilder {
    /// A builder with no mesh in it.
    pub fn new() -> (builder: Self)
        ensures
            builder.meshes@.len() == 0,
    {
        Self { meshes: Vec::new() }
    }

    /// Adds a mesh and returns the number of its model.
    pub fn register_model(&mut self, mesh: ThickMesh) -> (model_idx: usize)
        ensures
            model_idx == old(self).meshes@.len(),
            final(self).meshes@ == old(self).meshes@.push(mesh),
    {
        let model_idx: usize = self.meshes.len();
        self.meshes.push(mesh);
        model_idx
    }

    /// All indices and all vertices of the meshes can be numbered in 32
    /// bits.
    pub open spec fn fits(&self) -> bool {
        &&& index_total(self.meshes@, self.meshes@.len() as int) <= u32::MAX
        &&& vertex_total(self.meshes@, self.meshes@.len() as int) <= u32::MAX
    }

    /// Whether all indices and all vertices of the meshes can be numbered
    /// in 32 bits.
    pub fn check_fits(&self) -> (fits: bool)
        ensures
            fits == self.fits(),
    {
        let mut idx_ct_sum: u64 = 0;
        let mut vert_ct_sum: u64 = 0;
        let mut at: usize = 0;
        while at < self.meshes.len()
            invariant
                at <= self.meshes@.len(),
                idx_ct_sum == index_total(self.meshes@, at as int),
                vert_ct_sum == vertex_total(self.meshes@, at as int),
                idx_ct_sum <= u32::MAX,
                vert_ct_sum <= u32::MAX,
            decreases self.meshes@.len() - at,
        {
            let indices: usize = self.meshes[at].indices.len();
            let vertices: usize = self.meshes[at].vertices.len();
            if indices as u64 > 0xffff_ffff - idx_ct_sum || vertices as u64 > 0xffff_ffff
                - vert_ct_sum {
                proof {
                    lemma_totals_grow(self.meshes@, at + 1, self.meshes@.len() as int);
                }
                return false;
            }
            idx_ct_sum = idx_ct_sum + indices as u64;
            vert_ct_sum = vert_ct_sum + vertices as u64;
            at = at + 1;
        }
        true
    }

    /// The sizes of the buffers that hold all meshes and up to
    /// `max_instances` instances.
    pub fn buffer_sizes(&self, max_instances: u32) -> (sizes: BufferSizes)
        requires
            self.fits(),
        ensures
            sizes.index_bytes == INDEX_BYTES * index_total(
                self.meshes@,
                self.meshes@.len() as int,
            ),
            sizes.vertex_bytes == VERTEX_BYTES * vertex_total(
                self.meshes@,
                self.meshes@.len() as int,
            ),
            sizes.instance_bytes == INSTANCE_BYTES * max_instances,
    {
        let mut idx_ct_sum: u64 = 0;
        let mut vert_ct_sum: u64 = 0;
        let mut at: usize = 0;
        while at < self.meshes.len()
            invariant
                at <= self.meshes@.len(),
                self.fits(),
                idx_ct_sum == index_total(self.meshes@, at as int),
                vert_ct_sum == vertex_total(self.meshes@, at as int),
            decreases self.meshes@.len() - at,
        {
            proof {
                lemma_totals_grow(self.meshes@, at + 1, self.meshes@.len() as int);
            }
            idx_ct_sum = idx_ct_sum + self.meshes[at].indices.len() as u64;
            vert_ct_sum = vert_ct_sum + self.meshes[at].vertices.len() as u64;
            at = at + 1;
        }
        BufferSizes {
            index_bytes: INDEX_BYTES * idx_ct_sum,
            vertex_bytes: VERTEX_BYTES * vert_ct_sum,
            instance_bytes: INSTANCE_BYTES * (max_instances as u64),
        }
    }

    /// Places the models one behind the other, in the order in which they
    /// were registered.
    pub fn build(self) -> (manager: Manager)
        requires
            self.fits(),
        ensures
            manager.models@.len() == self.meshes@.len(),
            forall|k: int|
                0 <= k < self.meshes@.len() ==> {
                    &&& (#[trigger] manager.models@[k]).index_range.start == index_total(
                        self.meshes@,
                        k,
                    )
                    &&& manager.models@[k].index_range.end == index_total(self.meshes@, k + 1)
                    &&& manager.models@[k].vertex_range.start == vertex_total(self.meshes@, k)
                    &&& manager.models@[k].vertex_range.end == vertex_total(self.meshes@, k + 1)
                },
    {
        let mut index_start: u32 = 0;
        let mut vertex_start: u32 = 0;
        let mut models: Vec<Model> = Vec::new();
        let mut at: usize = 0;
        while at < self.meshes.len()
            invariant
                at <= self.meshes@.len(),
                self.fits(),
                models@.len() == at,
                index_start == index_total(self.meshes@, at as int),
                vertex_start == vertex_total(self.meshes@, at as int),
                forall|k: int|
                    0 <= k < at ==> {
                        &&& (#[trigger] models@[k]).index_range.start == index_total(
                            self.meshes@,
                            k,
                        )
                        &&& models@[k].index_range.end == index_total(self.meshes@, k + 1)
                        &&& models@[k].vertex_range.start == vertex_total(self.meshes@, k)
                        &&& models@[k].vertex_range.end == vertex_total(self.meshes@, k + 1)
                    },
            decreases self.meshes@.len() - at,
        {
            proof {
                lemma_totals_grow(self.meshes@, at + 1, self.meshes@.len() as int);
            }
            let (model, _, _) = Model::new(
                self.meshes[at].indices.len(),
                self.meshes[at].vertices.len(),
                index_start,
                vertex_start,
            );
            index_start = model.index_range.end;
            vertex_start = model.vertex_range.end;
            models.push(model);
            at = at + 1;
        }
        Manager { models }
    }
}

/// The models, each with its place in the shared buffers.
pub struct Manager {
    pub models: Vec<Model>,
}

impl Manager {
    /// Sorts instances by the model they show. `models_of` gives the
    /// model of each instance; the answer gives, for each model, the
    /// positions of its instances in the order in which they came.
    pub fn update(&self, models_of: &Vec<usize>) -> (by_model: Vec<Vec<usize>>)
        requires
            forall|i: int| 0 <= i < models_of@.len() ==> models_of@[i] < self.models@.len(),
        ensures
            by_model@.len() == self.models@.len(),
            forall|model: int|
                0 <= model < self.models@.len() ==> (#[trigger] by_model@[model])@ == positions_of(
                    models_of@,
                    model,
                    models_of@.len() as int,
                ),
    {
        let mut by_model: Vec<Vec<usize>> = Vec::new();
        let mut model: usize = 0;
        while model < self.models.len()
            invariant
                model <= self.models@.len(),
                by_model@.len() == model,
                forall|m: int| 0 <= m < model ==> (#[trigger] by_model@[m])@ == positions_of(
                    models_of@,
                    m,
                    0,
                ),
            decreases self.models@.len() - model,
        {
            by_model.push(Vec::new());
            model = model + 1;
        }
        let mut at: usize = 0;
        while at < models_of.len()
            invariant
                at <= models_of@.len(),
                by_model@.len() == self.models@.len(),
                forall|i: int| 0 <= i < models_of@.len() ==> models_of@[i] < self.models@.len(),
                forall|m: int|
                    0 <= m < self.models@.len() ==> (#[trigger] by_model@[m])@ == positions_of(
                        models_of@,
                        m,
                        at as int,
                    ),
            decreases models_of@.len() - at,
        {
            let shown: usize = models_of[at];
            let ghost before = by_model@;
            by_model[shown].push(at);
            proof {
                assert forall|m: int| 0 <= m < self.models@.len() implies (#[trigger] by_model@[m])@
                    == positions_of(models_of@, m, at + 1) by {
                    assert(before[m]@ == positions_of(models_of@, m, at as int));
                }
            }
            at = at + 1;
        }
        by_model
    }

    /// The index range of each model together with the range of its
    /// instances in the instance buffer, where the instances of one model
    /// stand behind those of the model before it. Models beyond the last
    /// count, and counts beyond the last model, are left out.
    pub fn ranges(&self, instance_counts: &Vec<u32>) -> (ranges: Vec<(Range<u32>, Range<u32>)>)
        requires
            instance_total(instance_counts@, instance_counts@.len() as int) <= u32::MAX,
        ensures
            ranges@.len() == if self.models@.len() <= instance_counts@.len() {
                self.models@.len()
            } else {
                instance_counts@.len()
            },
            forall|k: int|
                0 <= k < ranges@.len() ==> {
                    &&& (#[trigger] ranges@[k]).0 == self.models@[k].index_range
                    &&& ranges@[k].1.start == instance_total(instance_counts@, k)
                    &&& ranges@[k].1.end == instance_total(instance_counts@, k + 1)
                },
    {
        let mut instance_start: u32 = 0;
        let mut ranges: Vec<(Range<u32>, Range<u32>)> = Vec::new();
        let mut at: usize = 0;
        while at < self.models.len() && at < instance_counts.len()
            invariant
                at <= self.models@.len(),
                at <= instance_counts@.len(),
                instance_total(instance_counts@, instance_counts@.len() as int) <= u32::MAX,
                ranges@.len() == at,
                instance_start == instance_total(instance_counts@, at as int),
                forall|k: int|
                    0 <= k < at ==> {
                        &&& (#[trigger] ranges@[k]).0 == self.models@[k].index_range
                        &&& ranges@[k].1.start == instance_total(instance_counts@, k)
                        &&& ranges@[k].1.end == instance_total(instance_counts@, k + 1)
                    },
            decreases self.models@.len() - at,
        {
            proof {
                lemma_instance_total_grows(
                    instance_counts@,
                    at + 1,
                    instance_counts@.len() as int,
                );
            }
            let instance_end: u32 = instance_start + instance_counts[at];
            let index_range = Range {
                start: self.models[at].index_range.start,
                end: self.models[at].index_range.end,
            };
            ranges.push((index_range, Range { start: instance_start, end: instance_end }));
            instance_start = instance_end;
            at = at + 1;
        }
        ranges
    }
}

} // verus!
