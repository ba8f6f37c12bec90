use canopy::world::chunk::{chunks_to_load, ChunkCoord};

#[test]
fn chebyshev_distance_is_the_manhattan_distance() {
    let a = ChunkCoord { x: 0, z: 0 };
    assert_eq!(a.chebyshev_distance(ChunkCoord { x: 3, z: -4 }), 7);
    assert_eq!(a.chebyshev_distance(ChunkCoord { x: 3, z: -5 }), 8);
    assert_eq!(a.chebyshev_distance(ChunkCoord { x: -7, z: 2 }), 9);
    assert_eq!(a.chebyshev_distance(a), 0);
    let far = ChunkCoord { x: i32::MAX, z: 0 };
    assert_eq!(far.chebyshev_distance(a), i32::MAX as u32);
}

#[test]
fn radius_zero_loads_the_camera_and_look_ahead_chunks() {
    let c = ChunkCoord { x: 4, z: -2 };
    let ahead = ChunkCoord { x: 100, z: 100 };
    assert_eq!(chunks_to_load(c, ahead, 0), vec![c, ahead]);
    assert_eq!(chunks_to_load(c, c, 0), vec![c]);
}

#[test]
fn radius_one_loads_the_diamond_nearest_first() {
    let c = ChunkCoord { x: 0, z: 0 };
    let coords = chunks_to_load(c, c, 1);
    assert_eq!(coords.len(), 5);
    assert_eq!(coords[0], c);
    let ring: Vec<(i32, i32)> = coords[1..].iter().map(|k| (k.x, k.z)).collect();
    assert_eq!(ring, vec![(-1, 0), (0, -1), (0, 1), (1, 0)]);
}

#[test]
fn both_areas_are_loaded_once_in_distance_order() {
    let c = ChunkCoord { x: -3, z: 10 };
    let ahead = ChunkCoord { x: 50, z: 50 };
    let coords = chunks_to_load(c, ahead, 5);
    assert_eq!(coords.len(), 122);
    for w in coords.windows(2) {
        assert!(w[0].chebyshev_distance(c) <= w[1].chebyshev_distance(c));
    }
    for x in -20..=70 {
        for z in -10..=70 {
            let k = ChunkCoord { x, z };
            let wanted = k.chebyshev_distance(c) <= 5 || k.chebyshev_distance(ahead) <= 5;
            assert_eq!(coords.iter().filter(|&&e| e == k).count(), if wanted { 1 } else { 0 });
        }
    }
}

#[test]
fn overlapping_areas_share_their_chunks() {
    let c = ChunkCoord { x: 0, z: 0 };
    let coords = chunks_to_load(c, ChunkCoord { x: 2, z: 0 }, 2);
    // 13 around each, 5 in common.
    assert_eq!(coords.len(), 21);
}

#[test]
fn look_ahead_chunk_is_requested() {
    let c = ChunkCoord { x: 0, z: 0 };
    let coords = chunks_to_load(c, ChunkCoord { x: 20, z: 0 }, 5);
    assert!(coords.contains(&ChunkCoord { x: 20, z: 0 }));
    assert!(coords.contains(&ChunkCoord { x: 25, z: 0 }));
    assert_eq!(*coords.last().unwrap(), ChunkCoord { x: 25, z: 0 });
}

#[test]
fn radius_beyond_i32_loads_nothing() {
    let c = ChunkCoord { x: 0, z: 0 };
    assert!(chunks_to_load(c, c, u32::MAX).is_empty());
}
