use voxel_stream::cache::{LoadedChunks, MAX_CAPACITY};
use voxel_stream::chunks::{generate_chunk, ChunkCoordinate, Voxel, VoxelChunk};
use voxel_stream::streaming::{
    containing_chunk, create_voxels, load_chunk, next_request, ChunkStreamer, ConfigError,
    GenerationRequest,
};

fn at(x: i64, y: i64) -> ChunkCoordinate {
    ChunkCoordinate { x, y }
}

fn empty_chunk(x: i64, y: i64) -> VoxelChunk {
    VoxelChunk { position: at(x, y), voxels: Vec::new() }
}

#[test]
fn a_point_lies_in_the_chunk_below_it() {
    assert_eq!(containing_chunk(25, 37, 10), Some(at(2, 3)));
    assert_eq!(containing_chunk(0, 0, 10), Some(at(0, 0)));
    assert_eq!(containing_chunk(9, 10, 10), Some(at(0, 1)));
    assert_eq!(containing_chunk(-1, -10, 10), Some(at(-1, -1)));
    assert_eq!(containing_chunk(-11, -20, 10), Some(at(-2, -2)));
    assert_eq!(containing_chunk(-21, 29, 10), Some(at(-3, 2)));
    assert_eq!(containing_chunk(7, -7, 1), Some(at(7, -7)));
}

#[test]
fn the_largest_values_divide_without_fault() {
    assert_eq!(containing_chunk(i64::MIN, i64::MAX, 1), Some(at(i64::MIN, i64::MAX)));
    assert_eq!(containing_chunk(i64::MIN, i64::MAX, u64::MAX), Some(at(-1, 0)));
    assert_eq!(
        containing_chunk(i64::MIN, i64::MAX, 2),
        Some(at(i64::MIN / 2, i64::MAX / 2))
    );
    assert_eq!(containing_chunk(-1, -1, u64::MAX), Some(at(-1, -1)));
}

#[test]
fn chunks_without_an_edge_hold_no_point() {
    assert_eq!(containing_chunk(25, 37, 0), None);
    let loaded = LoadedChunks::default();
    assert_eq!(next_request(Some((25, 37)), 0, &loaded, &Vec::new()), None);
}

#[test]
fn the_resolver_asks_once_for_a_chunk() {
    let viewer = Some((25, 37));
    let mut loaded = LoadedChunks::default();
    let nothing_pending: Vec<ChunkCoordinate> = Vec::new();
    let pending = vec![at(2, 3)];
    assert_eq!(next_request(viewer, 10, &loaded, &pending), None);
    assert_eq!(next_request(viewer, 10, &loaded, &nothing_pending), Some(at(2, 3)));
    loaded.insert(2, 3, empty_chunk(2, 3));
    assert_eq!(next_request(viewer, 10, &loaded, &nothing_pending), None);
    assert_eq!(next_request(viewer, 10, &loaded, &pending), None);
    assert_eq!(next_request(Some((35, 37)), 10, &loaded, &pending), Some(at(3, 3)));
    assert_eq!(next_request(viewer, 10, &LoadedChunks::default(), &vec![at(3, 2)]), Some(at(2, 3)));
}

#[test]
fn without_a_viewer_nothing_is_asked_for() {
    let loaded = LoadedChunks::default();
    assert_eq!(next_request(None, 10, &loaded, &Vec::new()), None);
    let mut streamer = ChunkStreamer::new(55, 10, 10, 9).unwrap();
    assert_eq!(streamer.next_request(None), None);
    assert_eq!(load_chunk(&mut streamer, None), None);
}

#[test]
fn settings_are_checked_in_order() {
    assert_eq!(ChunkStreamer::new(1, 0, 0, 0).err(), Some(ConfigError::ChunkSize));
    assert_eq!(ChunkStreamer::new(1, 10, 0, 0).err(), Some(ConfigError::MaterialCount));
    assert_eq!(ChunkStreamer::new(1, 10, 2, 0).err(), Some(ConfigError::Capacity));
    assert_eq!(
        ChunkStreamer::new(1, 10, 2, MAX_CAPACITY + 1).err(),
        Some(ConfigError::Capacity)
    );
    let streamer = ChunkStreamer::new(77, 10, 2, 9).unwrap();
    assert_eq!(streamer.seed(), 77);
    assert_eq!(streamer.chunk_size(), 10);
    assert_eq!(streamer.material_count(), 2);
    assert_eq!(streamer.loaded_len(), 0);
    assert!(!streamer.is_pending(at(0, 0)));
    assert!(!streamer.is_loaded(at(0, 0)));
}

#[test]
fn a_tick_marks_the_chunk_as_under_way() {
    let mut streamer = ChunkStreamer::new(55, 10, 4, 9).unwrap();
    assert_eq!(streamer.next_request(Some((25, 37))), Some(at(2, 3)));
    assert!(!streamer.is_pending(at(2, 3)));
    let request = load_chunk(&mut streamer, Some((25, 37)));
    assert_eq!(
        request,
        Some(GenerationRequest { seed: 55, coordinate: at(2, 3), size: 10, material_count: 4 })
    );
    assert!(streamer.is_pending(at(2, 3)));
    assert!(!streamer.is_loaded(at(2, 3)));
    assert_eq!(streamer.next_request(Some((25, 37))), None);
    assert_eq!(load_chunk(&mut streamer, Some((29, 30))), None);
    assert!(streamer.is_pending(at(2, 3)));
    let other = load_chunk(&mut streamer, Some((-5, 0)));
    assert_eq!(other.map(|r| r.coordinate), Some(at(-1, 0)));
    assert!(streamer.is_pending(at(-1, 0)));
    assert!(streamer.is_pending(at(2, 3)));
}

#[test]
fn a_finished_chunk_is_loaded_and_no_longer_under_way() {
    let mut streamer = ChunkStreamer::new(55, 10, 10, 9).unwrap();
    let request = load_chunk(&mut streamer, Some((25, 37))).unwrap();
    let chunk = generate_chunk(
        request.seed,
        request.coordinate,
        request.size,
        request.material_count,
        &vec![5u64; 100],
    )
    .unwrap();
    let every_material: Vec<u64> = (0..10).collect();
    let visible = create_voxels(&mut streamer, chunk.clone(), &every_material);
    assert_eq!(visible, chunk.voxels);
    assert_eq!(visible.len(), 500);
    assert!(streamer.is_loaded(at(2, 3)));
    assert!(!streamer.is_pending(at(2, 3)));
    assert_eq!(streamer.loaded_len(), 1);
    assert_eq!(streamer.next_request(Some((25, 37))), None);
    assert_eq!(load_chunk(&mut streamer, Some((25, 37))), None);
}

#[test]
fn only_voxels_of_known_materials_are_handed_back() {
    let mut streamer = ChunkStreamer::new(55, 10, 10, 9).unwrap();
    let voxels = vec![
        Voxel { x: 0, y: 0, z: 0, id: 1, pbr_id: 0 },
        Voxel { x: 0, y: 1, z: 0, id: 2, pbr_id: 1 },
        Voxel { x: 0, y: 2, z: 0, id: 3, pbr_id: 0 },
    ];
    let chunk = VoxelChunk { position: at(0, 0), voxels: voxels.clone() };
    let visible = create_voxels(&mut streamer, chunk, &vec![0]);
    assert_eq!(visible, vec![voxels[0], voxels[2]]);
    assert!(streamer.is_loaded(at(0, 0)));
}

#[test]
fn a_chunk_that_finishes_twice_is_replaced() {
    let mut streamer = ChunkStreamer::new(55, 10, 10, 2).unwrap();
    create_voxels(&mut streamer, empty_chunk(1, 1), &Vec::new());
    create_voxels(&mut streamer, empty_chunk(2, 2), &Vec::new());
    create_voxels(&mut streamer, empty_chunk(1, 1), &Vec::new());
    assert_eq!(streamer.loaded_len(), 2);
    assert!(streamer.is_loaded(at(1, 1)));
    assert!(streamer.is_loaded(at(2, 2)));
    create_voxels(&mut streamer, empty_chunk(3, 3), &Vec::new());
    assert_eq!(streamer.loaded_len(), 2);
    assert!(streamer.is_loaded(at(1, 1)));
    assert!(!streamer.is_loaded(at(2, 2)));
    assert!(streamer.is_loaded(at(3, 3)));
}

#[test]
fn a_chunk_pushed_out_is_asked_for_again() {
    let mut streamer = ChunkStreamer::new(55, 10, 10, 1).unwrap();
    assert!(load_chunk(&mut streamer, Some((5, 5))).is_some());
    create_voxels(&mut streamer, empty_chunk(0, 0), &Vec::new());
    assert_eq!(load_chunk(&mut streamer, Some((5, 5))), None);
    assert!(load_chunk(&mut streamer, Some((15, 5))).is_some());
    create_voxels(&mut streamer, empty_chunk(1, 0), &Vec::new());
    assert!(!streamer.is_loaded(at(0, 0)));
    assert_eq!(
        load_chunk(&mut streamer, Some((5, 5))).map(|r| r.coordinate),
        Some(at(0, 0))
    );
}
