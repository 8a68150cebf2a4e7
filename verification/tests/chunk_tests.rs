use hematite::chunk::{fill_vec, BiomeId, BlockState, Chunk, ChunkColumn, LightLevel};

#[test]
fn light_level_nibbles() {
    let l = LightLevel { value: 0xf0 };
    assert_eq!(l.block_light(), 0);
    assert_eq!(l.sky_light(), 15);

    let l = LightLevel { value: 0x3a };
    assert_eq!(l.block_light(), 0xa);
    assert_eq!(l.sky_light(), 3);

    let l = LightLevel { value: 0x00 };
    assert_eq!(l.block_light(), 0);
    assert_eq!(l.sky_light(), 0);
}

#[test]
fn empty_chunk_is_air_with_full_sky_light() {
    let e = Chunk::empty();
    for &(x, y, z) in &[(0, 0, 0), (15, 15, 15), (3, 7, 11)] {
        assert_eq!(e.block_at(x, y, z).value, 0);
        assert_eq!(e.light_at(x, y, z).value, 0xf0);
    }
}

#[test]
fn chunk_equality_is_cell_for_cell() {
    let a = Chunk::empty();
    let b = Chunk::empty();
    assert!(a.eq_chunk(&b));

    let mut c = Chunk::empty();
    c.set_block(1, 2, 3, BlockState { value: 9 });
    assert!(!a.eq_chunk(&c));
    assert_eq!(c.block_at(1, 2, 3).value, 9);
    // The parallel light store is untouched by a block write.
    assert_eq!(c.light_at(1, 2, 3).value, 0xf0);
}

#[test]
fn chunk_blocks_are_stored_y_outer_then_z_then_x() {
    let mut c = Chunk::empty();
    c.set_block(5, 0, 0, BlockState { value: 1 });
    c.set_block(0, 0, 5, BlockState { value: 2 });
    c.set_block(0, 5, 0, BlockState { value: 3 });
    assert_eq!(c.block_at(5, 0, 0).value, 1);
    assert_eq!(c.block_at(0, 0, 5).value, 2);
    assert_eq!(c.block_at(0, 5, 0).value, 3);
    assert_eq!(c.block_at(0, 0, 0).value, 0);
}

#[test]
fn new_column_has_one_empty_mesh_slot_per_slice() {
    let chunks = vec![Chunk::empty(), Chunk::empty(), Chunk::empty()];
    let biomes = fill_vec(BiomeId { value: 4 }, 256);
    let col = ChunkColumn::new(chunks, biomes);
    assert_eq!(col.chunks.len(), 3);
    assert_eq!(col.buffers.len(), 3);
    assert!(col.buffers.iter().all(|b| b.is_none()));
    assert_eq!(col.biome_at(7, 9).value, 4);
}

#[test]
fn duplicate_column_matches_original() {
    let mut c = Chunk::empty();
    c.set_block(2, 2, 2, BlockState { value: 77 });
    let col = ChunkColumn::new(vec![c], fill_vec(BiomeId { value: 1 }, 256));
    let copy = col.duplicate();
    assert!(copy.chunks[0].eq_chunk(&col.chunks[0]));
    assert_eq!(copy.buffers.len(), col.buffers.len());
    assert_eq!(copy.biome_at(0, 0).value, 1);
}
