use pipe_cleaner::visual::BaseMesh;
use pipe_cleaner::visual::BufferSizes;
use pipe_cleaner::visual::ManagerBuilder;
use pipe_cleaner::visual::Model;
use pipe_cleaner::visual::ThickMesh;
use pipe_cleaner::visual::ThickMeshVertex;
use pipe_cleaner::visual::INDEX_BYTES;
use pipe_cleaner::visual::INSTANCE_BYTES;
use pipe_cleaner::visual::VERTEX_BYTES;

fn position(x: f32, y: f32, z: f32) -> [u32; 3] {
    [x.to_bits(), y.to_bits(), z.to_bits()]
}

fn thick_mesh(indices: usize, vertices: usize) -> ThickMesh {
    let vertex = ThickMeshVertex {
        this_position: position(0.0, 0.0, 0.0),
        other_position: position(1.0, 0.0, 0.0),
    };
    ThickMesh { indices: vec![0; indices].into(), vertices: vec![vertex; vertices].into() }
}

#[test]
fn thicken_gives_each_segment_a_quad() {
    let a = position(0.0, 0.0, -0.1);
    let b = position(0.0, 0.0, 0.1);
    let c = position(1.0, 2.0, 3.0);
    let mesh = BaseMesh { indices: vec![0, 1, 2, 0].into(), vertices: vec![a, b, c].into() };
    assert!(mesh.can_thicken());
    let thick = mesh.thicken();
    let first = ThickMeshVertex { this_position: a, other_position: b };
    let second = ThickMeshVertex { this_position: c, other_position: a };
    assert_eq!(
        thick.vertices.to_vec(),
        vec![first, first, first, first, second, second, second, second]
    );
    assert_eq!(thick.indices.to_vec(), vec![0, 1, 2, 2, 3, 0, 4, 5, 6, 6, 7, 4]);
}

#[test]
fn thicken_of_nothing_is_nothing() {
    let mesh = BaseMesh { indices: vec![].into(), vertices: vec![].into() };
    assert!(mesh.can_thicken());
    let thick = mesh.thicken();
    assert!(thick.indices.is_empty());
    assert!(thick.vertices.is_empty());
}

#[test]
fn can_thicken_refuses_odd_counts_and_missing_vertices() {
    let a = position(0.0, 0.0, 0.0);
    assert!(!BaseMesh { indices: vec![0].into(), vertices: vec![a].into() }.can_thicken());
    assert!(!BaseMesh { indices: vec![0, 0, 0].into(), vertices: vec![a].into() }.can_thicken());
    assert!(!BaseMesh { indices: vec![0, 1].into(), vertices: vec![a].into() }.can_thicken());
    assert!(!BaseMesh { indices: vec![0, 0].into(), vertices: vec![].into() }.can_thicken());
    assert!(BaseMesh { indices: vec![0, 0].into(), vertices: vec![a].into() }.can_thicken());
}

#[test]
fn model_is_placed_at_its_starts() {
    let (model, index_bytes, vertex_bytes) = Model::new(12, 8, 100, 40);
    assert_eq!(model.index_range, 100..112);
    assert_eq!(model.vertex_range, 40..48);
    assert_eq!(index_bytes, 48);
    assert_eq!(vertex_bytes, 192);
    let (model, index_bytes, vertex_bytes) = Model::new(0, 0, 0, 0);
    assert_eq!(model.index_range, 0..0);
    assert_eq!(model.vertex_range, 0..0);
    assert_eq!((index_bytes, vertex_bytes), (0, 0));
    let (model, _, _) = Model::new(5, 1, u32::MAX - 5, u32::MAX - 1);
    assert_eq!(model.index_range.end, u32::MAX);
    assert_eq!(model.vertex_range.end, u32::MAX);
}

#[test]
fn indices_are_rebased_behind_earlier_vertices() {
    assert_eq!(Model::rebased_indices(&[0, 1, 2, 2, 3, 0], 8), vec![8, 9, 10, 10, 11, 8]);
    assert_eq!(Model::rebased_indices(&[], 8), Vec::<u32>::new());
    assert_eq!(Model::rebased_indices(&[7], 0), vec![7]);
}

#[test]
fn models_are_placed_one_behind_the_other() {
    let mut builder = ManagerBuilder::new();
    assert_eq!(builder.register_model(thick_mesh(6, 4)), 0);
    assert_eq!(builder.register_model(thick_mesh(0, 0)), 1);
    assert_eq!(builder.register_model(thick_mesh(12, 8)), 2);
    assert!(builder.check_fits());
    assert_eq!(
        builder.buffer_sizes(3000),
        BufferSizes { index_bytes: 72, vertex_bytes: 288, instance_bytes: 192_000 }
    );
    let manager = builder.build();
    let placed: Vec<(u32, u32, u32, u32)> = manager
        .models
        .iter()
        .map(|m| (m.index_range.start, m.index_range.end, m.vertex_range.start, m.vertex_range.end))
        .collect();
    assert_eq!(placed, vec![(0, 6, 0, 4), (6, 6, 4, 4), (6, 18, 4, 12)]);
}

#[test]
fn buffer_sizes_count_bytes() {
    assert_eq!((INDEX_BYTES, VERTEX_BYTES, INSTANCE_BYTES), (4, 24, 64));
    let builder = ManagerBuilder::new();
    assert!(builder.check_fits());
    assert_eq!(
        builder.buffer_sizes(0),
        BufferSizes { index_bytes: 0, vertex_bytes: 0, instance_bytes: 0 }
    );
    assert_eq!(builder.buffer_sizes(u32::MAX).instance_bytes, 64 * u64::from(u32::MAX));
}

#[test]
fn instances_are_sorted_by_model_in_order() {
    let mut builder = ManagerBuilder::new();
    builder.register_model(thick_mesh(6, 4));
    builder.register_model(thick_mesh(6, 4));
    builder.register_model(thick_mesh(6, 4));
    let manager = builder.build();
    let by_model = manager.update(&vec![2, 0, 2, 2, 0]);
    assert_eq!(by_model, vec![vec![1, 4], vec![], vec![0, 2, 3]]);
    assert_eq!(manager.update(&vec![]), vec![Vec::<usize>::new(); 3]);
}

#[test]
fn instance_ranges_follow_each_other() {
    let mut builder = ManagerBuilder::new();
    builder.register_model(thick_mesh(6, 4));
    builder.register_model(thick_mesh(12, 8));
    builder.register_model(thick_mesh(18, 12));
    let manager = builder.build();
    assert_eq!(
        manager.ranges(&vec![2, 0, 3]),
        vec![(0..6, 0..2), (6..18, 2..2), (18..36, 2..5)]
    );
    assert_eq!(manager.ranges(&vec![7]), vec![(0..6, 0..7)]);
    assert_eq!(manager.ranges(&vec![1, 1, 1, 1]).len(), 3);
    assert_eq!(manager.ranges(&vec![]), vec![]);
}
