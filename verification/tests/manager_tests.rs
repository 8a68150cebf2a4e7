use hematite::chunk::{fill_vec, BiomeId, BlockState, Chunk, ChunkColumn, Coords, LightLevel, MeshHandle};
use hematite::manager::{window_origin, ChunkManager, LoadedColumn};

fn uniform_column(slices: usize, block: u16, biome: u8) -> ChunkColumn {
    let mut chunks: Vec<Chunk> = Vec::new();
    for _ in 0..slices {
        chunks.push(Chunk::filled(
            BlockState { value: block },
            LightLevel { value: 0xf0 },
        ));
    }
    ChunkColumn::new(chunks, fill_vec(BiomeId { value: biome }, 256))
}

#[test]
fn insert_then_get_round_trips() {
    let mut m = ChunkManager::new();
    m.add_chunk_column(3, -2, uniform_column(2, 5, 9));
    let got = m.get_column(3, -2).expect("column must be found");
    assert_eq!(got.chunks.len(), 2);
    assert!(got.chunks[0].eq_chunk(&Chunk::filled(
        BlockState { value: 5 },
        LightLevel { value: 0xf0 },
    )));
    assert_eq!(got.biome_at(4, 4).value, 9);
    assert!(m.get_column(2, -2).is_none());
}

#[test]
fn insert_same_key_replaces() {
    let mut m = ChunkManager::new();
    m.add_chunk_column(0, 0, uniform_column(1, 1, 1));
    m.add_chunk_column(0, 0, uniform_column(1, 2, 2));
    assert_eq!(m.column_count(), 1);
    let got = m.get_column(0, 0).unwrap();
    assert_eq!(got.chunks[0].block_at(0, 0, 0).value, 2);
}

#[test]
fn mesh_slot_count_tracks_slice_count() {
    let mut m = ChunkManager::new();
    m.add_chunk_column(0, 0, uniform_column(3, 1, 0));
    m.add_chunk_column(1, 0, uniform_column(5, 1, 0));
    m.add_chunk_column(0, 0, uniform_column(4, 1, 0));
    for &(x, z) in &[(0, 0), (1, 0)] {
        let c = m.get_column(x, z).unwrap();
        assert_eq!(c.buffers.len(), c.chunks.len());
    }
}

#[test]
fn stitch_substitutes_empty_chunk_for_misses() {
    let mut m = ChunkManager::new();
    m.add_chunk_column(0, 0, uniform_column(1, 3, 6));
    let b = m.stitch(Coords { x: 0, y: 0, z: 0 });
    assert_eq!(b.chunks.len(), 27);
    assert_eq!(b.biomes.len(), 9);
    let empty = Chunk::empty();
    // Center slot (dy, dz, dx) = (0, 0, 0) holds the loaded chunk.
    assert!(b.chunks[13].eq_chunk(&Chunk::filled(
        BlockState { value: 3 },
        LightLevel { value: 0xf0 },
    )));
    // Horizontal misses and out-of-range vertical neighbors are empty.
    for &i in &[0, 4, 12, 14, 22, 26] {
        assert!(b.chunks[i].eq_chunk(&empty));
        assert_eq!(b.chunks[i].light_at(8, 8, 8).value, 0xf0);
        assert_eq!(b.chunks[i].block_at(8, 8, 8).value, 0);
    }
    // Biomes carry no placeholder: only the center column is present.
    assert!(b.biomes[4].is_some());
    for &i in &[0, 1, 2, 3, 5, 6, 7, 8] {
        assert!(b.biomes[i].is_none());
    }
    assert_eq!(b.biomes[4].as_ref().unwrap()[0].value, 6);
}

#[test]
fn stitch_sees_adjacent_column_in_plus_x_slot() {
    let mut m = ChunkManager::new();
    m.add_chunk_column(0, 0, uniform_column(1, 3, 0));
    m.add_chunk_column(1, 0, uniform_column(1, 7, 2));
    let b = m.stitch(Coords { x: 0, y: 0, z: 0 });
    // Slot (dy, dz, dx) = (0, 0, +1) is flat index 14.
    assert_eq!(b.chunks[14].block_at(0, 0, 0).value, 7);
    assert!(b.chunks[14].eq_chunk(&Chunk::filled(
        BlockState { value: 7 },
        LightLevel { value: 0xf0 },
    )));
    // Slot (0, 0, -1) is flat index 12 and still misses.
    assert!(b.chunks[12].eq_chunk(&Chunk::empty()));
    // The +x biome slot (dz, dx) = (0, +1), flat index 5, is present.
    assert_eq!(b.biomes[5].as_ref().unwrap()[0].value, 2);
}

#[test]
fn pop_nearest_on_empty_queue_is_none() {
    let mut m = ChunkManager::new();
    assert!(m.get_pending(0, 0, 0).is_none());
    assert_eq!(m.pending_count(), 0);
    m.add_chunk_column(0, 0, uniform_column(1, 1, 0));
    // Inserting a column alone enqueues nothing.
    assert!(m.get_pending(0, 0, 0).is_none());
}

#[test]
fn pop_nearest_returns_minimal_distance() {
    let mut m = ChunkManager::new();
    let loaded = vec![
        LoadedColumn { local_x: 0, local_z: 0, column: uniform_column(1, 1, 0) },
        LoadedColumn { local_x: 9, local_z: 0, column: uniform_column(1, 1, 0) },
        LoadedColumn { local_x: 2, local_z: 0, column: uniform_column(1, 1, 0) },
    ];
    m.load_chunks(0, 0, &loaded);
    assert_eq!(m.pending_count(), 3);
    let b = m.get_pending(2, 0, 0).expect("work must be pending");
    assert_eq!(b.coords, Coords { x: 2, y: 0, z: 0 });
    assert_eq!(m.pending_count(), 2);
}

#[test]
fn pop_nearest_breaks_ties_toward_earliest_queued() {
    let mut m = ChunkManager::new();
    let loaded = vec![
        LoadedColumn { local_x: 0, local_z: 0, column: uniform_column(1, 1, 0) },
        LoadedColumn { local_x: 2, local_z: 0, column: uniform_column(1, 1, 0) },
    ];
    m.load_chunks(0, 0, &loaded);
    // Both requests are at squared distance 1 from (1, 0, 0).
    let b = m.get_pending(1, 0, 0).unwrap();
    assert_eq!(b.coords, Coords { x: 0, y: 0, z: 0 });
}

#[test]
fn pop_nearest_keeps_all_other_requests() {
    let mut m = ChunkManager::new();
    let loaded = vec![
        LoadedColumn { local_x: 0, local_z: 0, column: uniform_column(1, 1, 0) },
        LoadedColumn { local_x: 5, local_z: 3, column: uniform_column(1, 1, 0) },
        LoadedColumn { local_x: 1, local_z: 7, column: uniform_column(1, 1, 0) },
        LoadedColumn { local_x: 4, local_z: 4, column: uniform_column(1, 1, 0) },
    ];
    m.load_chunks(0, 0, &loaded);
    assert_eq!(m.pending_count(), 4);
    let first = m.get_pending(5, 0, 3).unwrap();
    assert_eq!(first.coords, Coords { x: 5, y: 0, z: 3 });
    assert_eq!(m.pending_count(), 3);
    let mut rest: Vec<(i32, i32)> = Vec::new();
    while let Some(b) = m.get_pending(0, 0, 0) {
        rest.push((b.coords.x, b.coords.z));
    }
    rest.sort();
    assert_eq!(rest, vec![(0, 0), (1, 7), (4, 4)]);
    assert_eq!(m.pending_count(), 0);
}

#[test]
fn window_origin_centers_and_clamps() {
    // Player chunk 0: base clamps to the region's low edge.
    assert_eq!(window_origin(0), (0, 0));
    // Player chunk (8, 64, 8) in blocks is chunk 0 horizontally.
    assert_eq!(window_origin(8 / 16), (0, 0));
    // Mid-region: the window starts 8 columns back from the player.
    assert_eq!(window_origin(20), (0, 12));
    // The window base never exceeds 23 and does not wrap across regions.
    assert_eq!(window_origin(31), (0, 23));
    // Next region over.
    assert_eq!(window_origin(40), (1, 0));
    // Negative coordinates use arithmetic shift and the masked local bits.
    assert_eq!(window_origin(-1), (-1, 23));
    assert_eq!(window_origin(-32), (-1, 0));
}

#[test]
fn full_window_load_enqueues_every_slice() {
    let mut m = ChunkManager::new();
    let (rx, bx) = window_origin(0);
    let (rz, bz) = window_origin(0);
    assert_eq!((rx, bx, rz, bz), (0, 0, 0, 0));
    let mut loaded: Vec<LoadedColumn> = Vec::new();
    for lz in bz..bz + 16 {
        for lx in bx..bx + 16 {
            loaded.push(LoadedColumn {
                local_x: lx,
                local_z: lz,
                column: uniform_column(2, 1, 0),
            });
        }
    }
    m.load_chunks(rx, rz, &loaded);
    assert_eq!(m.column_count(), 256);
    assert_eq!(m.pending_count(), 16 * 16 * 2);
    assert!(m.get_column(0, 0).is_some());
    assert!(m.get_column(15, 15).is_some());
    assert!(m.get_column(16, 0).is_none());
}

#[test]
fn absolute_coordinates_offset_by_region() {
    let mut m = ChunkManager::new();
    let loaded = vec![LoadedColumn { local_x: 3, local_z: 4, column: uniform_column(1, 1, 0) }];
    m.load_chunks(2, -1, &loaded);
    assert!(m.get_column(2 * 32 + 3, -1 * 32 + 4).is_some());
    assert!(m.get_column(3, 4).is_none());
}

#[test]
fn set_buffer_fills_the_slice_slot() {
    let mut m = ChunkManager::new();
    m.add_chunk_column(0, 0, uniform_column(2, 1, 0));
    assert!(m.set_buffer(Coords { x: 0, y: 1, z: 0 }, MeshHandle { id: 42 }));
    // Out-of-range slice and unloaded column both refuse.
    assert!(!m.set_buffer(Coords { x: 0, y: 2, z: 0 }, MeshHandle { id: 1 }));
    assert!(!m.set_buffer(Coords { x: 5, y: 0, z: 0 }, MeshHandle { id: 1 }));
    let col = m.get_column(0, 0).unwrap();
    assert_eq!(col.buffers[1], Some(MeshHandle { id: 42 }));
    assert_eq!(col.buffers[0], None);
    // The stitched request reads the filled slot back.
    let b = m.stitch(Coords { x: 0, y: 1, z: 0 });
    assert_eq!(b.buffer, Some(MeshHandle { id: 42 }));
}

#[test]
fn each_chunk_walks_every_slice_in_index_order() {
    let mut m = ChunkManager::new();
    m.add_chunk_column(0, 0, uniform_column(2, 1, 0));
    m.add_chunk_column(1, 0, uniform_column(1, 1, 0));
    let slices = m.each_chunk();
    let seen: Vec<(i32, i32, i32)> = slices.iter().map(|s| (s.x, s.y, s.z)).collect();
    assert_eq!(seen, vec![(0, 0, 0), (0, 1, 0), (1, 0, 0)]);
    assert!(slices.iter().all(|s| s.buffer.is_none()));
}

#[test]
fn each_chunk_and_neighbors_yields_one_request_per_slice() {
    let mut m = ChunkManager::new();
    m.add_chunk_column(0, 0, uniform_column(2, 3, 0));
    m.add_chunk_column(1, 0, uniform_column(1, 7, 0));
    let reqs = m.each_chunk_and_neighbors();
    assert_eq!(reqs.len(), 3);
    assert_eq!(reqs[0].coords, Coords { x: 0, y: 0, z: 0 });
    assert_eq!(reqs[1].coords, Coords { x: 0, y: 1, z: 0 });
    assert_eq!(reqs[2].coords, Coords { x: 1, y: 0, z: 0 });
    // The first request sees column (1, 0) in its +x slot.
    assert_eq!(reqs[0].chunks[14].block_at(0, 0, 0).value, 7);
}
