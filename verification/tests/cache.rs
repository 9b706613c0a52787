use voxel_stream::cache::{LoadedChunks, MAX_CAPACITY};
use voxel_stream::chunks::{ChunkCoordinate, Voxel, VoxelChunk};
use voxel_stream::constants::{CHUNKS_LOADED, CHUNK_SIZE, CHUNK_SIZE_CUBE};

fn chunk_at(x: i64, y: i64) -> VoxelChunk {
    VoxelChunk {
        position: ChunkCoordinate { x, y },
        voxels: vec![Voxel { x: 0, y: 0, z: 0, id: 1, pbr_id: 0 }],
    }
}

#[test]
fn the_store_never_holds_more_than_its_capacity() {
    let mut store = LoadedChunks::new(3).unwrap();
    assert_eq!(store.len(), 0);
    for i in 0..20i64 {
        store.insert(i % 7, i / 7, chunk_at(i % 7, i / 7));
        assert!(store.len() <= store.capacity());
        assert!(store.len() <= 3);
        assert!(store.is_loaded(i % 7, i / 7));
    }
    assert_eq!(store.len(), 3);
}

#[test]
fn one_chunk_too_many_pushes_out_the_first() {
    let capacity = 9usize;
    let mut store = LoadedChunks::new(capacity).unwrap();
    for k in 1..=(capacity as i64 + 1) {
        store.insert(k, -k, chunk_at(k, -k));
    }
    assert!(!store.is_loaded(1, -1));
    for k in 2..=(capacity as i64 + 1) {
        assert!(store.is_loaded(k, -k));
    }
    assert_eq!(store.len(), capacity);
}

#[test]
fn asking_changes_nothing() {
    let mut store = LoadedChunks::new(2).unwrap();
    store.insert(1, 1, chunk_at(1, 1));
    store.insert(2, 2, chunk_at(2, 2));
    let before = store.is_loaded(1, 1);
    assert!(!store.is_loaded(5, 5));
    assert_eq!(store.is_loaded(1, 1), before);
    assert_eq!(store.len(), 2);
    for _ in 0..10 {
        assert!(store.is_loaded(1, 1));
    }
    store.insert(3, 3, chunk_at(3, 3));
    assert!(!store.is_loaded(1, 1));
    assert!(store.is_loaded(2, 2));
    assert!(store.is_loaded(3, 3));
}

#[test]
fn putting_a_held_coordinate_again_replaces_and_refreshes() {
    let mut store = LoadedChunks::new(2).unwrap();
    store.insert(1, 0, chunk_at(1, 0));
    store.insert(2, 0, chunk_at(2, 0));
    store.insert(1, 0, chunk_at(1, 0));
    assert_eq!(store.len(), 2);
    store.insert(3, 0, chunk_at(3, 0));
    assert!(store.is_loaded(1, 0));
    assert!(!store.is_loaded(2, 0));
    assert!(store.is_loaded(3, 0));
    assert_eq!(store.len(), 2);
}

#[test]
fn coordinates_differ_by_either_axis() {
    let mut store = LoadedChunks::new(4).unwrap();
    store.insert(2, 3, chunk_at(2, 3));
    assert!(store.is_loaded(2, 3));
    assert!(!store.is_loaded(3, 2));
    assert!(!store.is_loaded(2, -3));
    assert!(!store.is_loaded(-2, 3));
}

#[test]
fn a_store_of_one_keeps_the_last_chunk() {
    let mut store = LoadedChunks::new(1).unwrap();
    store.insert(0, 0, chunk_at(0, 0));
    store.insert(0, 1, chunk_at(0, 1));
    assert!(!store.is_loaded(0, 0));
    assert!(store.is_loaded(0, 1));
    assert_eq!(store.len(), 1);
    assert_eq!(store.capacity(), 1);
}

#[test]
fn capacity_has_to_be_within_bounds() {
    assert!(LoadedChunks::new(0).is_none());
    assert!(LoadedChunks::new(MAX_CAPACITY + 1).is_none());
    assert!(LoadedChunks::new(usize::MAX).is_none());
    assert_eq!(LoadedChunks::new(1).unwrap().capacity(), 1);
    assert_eq!(LoadedChunks::new(MAX_CAPACITY).unwrap().capacity(), MAX_CAPACITY);
    assert_eq!(LoadedChunks::new(5).unwrap().capacity(), 5);
}

#[test]
fn the_default_store_holds_nine_chunks() {
    let store = LoadedChunks::default();
    assert_eq!(store.capacity(), 9);
    assert_eq!(store.capacity(), CHUNKS_LOADED);
    assert_eq!(store.len(), 0);
    assert!(!store.is_loaded(0, 0));
}

#[test]
fn default_sizes() {
    assert_eq!(CHUNK_SIZE, 10);
    assert_eq!(CHUNK_SIZE_CUBE, 1000);
}
