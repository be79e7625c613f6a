use mining_world::{
    block_exists, check_generate_new_chunks, create_surface_chunk, destroy_block,
    generate_chunk_biome_change, generate_random_values, generate_seed, previous_biome,
    BiomeType, Block, BlockType, Chunk, DestroyBlockError, Terrain, BASE_SEED, CHUNK_HEIGHT,
    CHUNK_WIDTH, GEN_CHUNKS_AHEAD,
};

const ALL_BIOMES: [BiomeType; 6] = [
    BiomeType::Sand,
    BiomeType::Sedimentary,
    BiomeType::Basalt,
    BiomeType::Felsic,
    BiomeType::Mafic,
    BiomeType::Ultramafic,
];

fn cells(f: impl Fn(usize, usize) -> bool) -> Vec<Vec<bool>> {
    (0..CHUNK_HEIGHT)
        .map(|y| (0..CHUNK_WIDTH).map(|x| f(y, x)).collect())
        .collect()
}

fn full_chunk(n: u64) -> Chunk {
    let mut c = Chunk::empty(n);
    for row in c.blocks.iter_mut() {
        for cell in row.iter_mut() {
            *cell = Some(Block::new(BlockType::Basalt));
        }
    }
    c
}

#[test]
fn seed_is_deterministic() {
    let a = generate_seed(BASE_SEED, vec![3, 432]);
    let b = generate_seed(BASE_SEED, vec![3, 432]);
    assert_eq!(a, b);
    assert_ne!(a, BASE_SEED);
}

#[test]
fn random_values_in_range_and_repeatable() {
    let a = generate_random_values(99, 50, 3, 10);
    let b = generate_random_values(99, 50, 3, 10);
    assert_eq!(a, b);
    assert_eq!(a.len(), 50);
    assert!(a.iter().all(|v| (3..10).contains(v)));
    assert!(a.iter().any(|v| *v != 3));
    assert!(generate_random_values(1, 0, 0, 1).is_empty());
    assert_ne!(generate_random_values(1, 20, 0, 1000), generate_random_values(2, 20, 0, 1000));
}

#[test]
fn biome_blocks_are_distinct() {
    for (i, a) in ALL_BIOMES.iter().enumerate() {
        for (j, b) in ALL_BIOMES.iter().enumerate() {
            if i != j {
                assert_ne!(a.primary_block(), b.primary_block());
                assert_ne!(a.ore_block(), b.ore_block());
            }
            assert_ne!(a.primary_block(), b.ore_block());
        }
    }
    assert_eq!(BiomeType::Sedimentary.primary_block(), BlockType::Limestone);
    assert_eq!(BiomeType::Basalt.ore_block(), BlockType::Iron);
}

#[test]
fn biome_walk_matches_changes() {
    assert_eq!(previous_biome(BASE_SEED, 0), BiomeType::Sand);
    for depth in 1..12u64 {
        let mut expected = BiomeType::Sand;
        for d in (0..depth).rev() {
            if let Some(b) = generate_chunk_biome_change(BASE_SEED, d) {
                expected = b;
                break;
            }
        }
        assert_eq!(previous_biome(BASE_SEED, depth), expected);
    }
}

#[test]
fn block_kinds_paths_and_reality() {
    assert_eq!(BlockType::Sand.image_file_path(), "Sand.png");
    assert_eq!(BlockType::Peridot.image_file_path(), "Peridot.png");
    assert_eq!(BlockType::CaveVoid.image_file_path(), "");
    assert!(!BlockType::CaveVoid.is_real_block());
    assert!(!BlockType::PalmTreeBlock.is_real_block());
    assert!(BlockType::Trunk.is_real_block());
    assert!(BlockType::Granite.is_real_block());
}

#[test]
fn block_equality_ignores_handle() {
    let mut a = Block::new(BlockType::Clay);
    a.entity = Some(5);
    assert_eq!(a, Block::new(BlockType::Clay));
    assert_ne!(a, Block::new(BlockType::Coal));
}

#[test]
fn destroy_block_contract() {
    let mut terrain = Terrain::new(2, full_chunk);
    let y = CHUNK_HEIGHT + 5;
    let got = destroy_block(7, y, &mut terrain).unwrap();
    assert_eq!(got.block_type, BlockType::Basalt);
    assert!(terrain.chunks[1].blocks[5][7].is_none());
    assert!(terrain.chunks[0].blocks[5][7].is_some());
    assert!(!block_exists(7, y, &terrain));
    assert_eq!(destroy_block(7, y, &mut terrain).unwrap_err(), DestroyBlockError::BlockDoesntExist);
    assert_eq!(destroy_block(CHUNK_WIDTH, 0, &mut terrain).unwrap_err(), DestroyBlockError::InvalidX);
    assert_eq!(
        destroy_block(0, 2 * CHUNK_HEIGHT, &mut terrain).unwrap_err(),
        DestroyBlockError::ChunkNotLoaded
    );
    assert!(block_exists(0, 0, &terrain));
    assert!(!block_exists(CHUNK_WIDTH, 0, &terrain));
}

#[test]
fn generation_ahead_fills_without_gaps() {
    let mut terrain = Terrain::empty();
    check_generate_new_chunks(&vec![0], &mut terrain, Chunk::empty);
    assert_eq!(terrain.chunks.len(), GEN_CHUNKS_AHEAD as usize);
    check_generate_new_chunks(&vec![5, 1], &mut terrain, Chunk::empty);
    assert_eq!(terrain.chunks.len(), 8);
    for (i, c) in terrain.chunks.iter().enumerate() {
        assert_eq!(c.chunk_number, i as u64);
    }
    check_generate_new_chunks(&vec![2, 0], &mut terrain, Chunk::empty);
    assert_eq!(terrain.chunks.len(), 8);
}

#[test]
fn deep_chunk_follows_layers() {
    let boundary = vec![10usize; CHUNK_WIDTH];
    let veins = cells(|y, x| y == 20 && x < 10);
    let caves = cells(|y, _| (30..40).contains(&y));
    let c = Chunk::new(4, &boundary, &veins, &caves);
    let prev = previous_biome(BASE_SEED, 4);
    let next = generate_chunk_biome_change(BASE_SEED, 4).unwrap_or(prev);
    assert_eq!(c.chunk_number, 4);
    assert_eq!(c.blocks[0][50].unwrap().block_type, prev.primary_block());
    assert_eq!(c.blocks[15][50].unwrap().block_type, next.primary_block());
    assert_eq!(c.blocks[20][5].unwrap().block_type, next.ore_block());
    assert_eq!(c.blocks[20][50].unwrap().block_type, next.primary_block());
    for y in 30..40 {
        for x in 0..CHUNK_WIDTH {
            if let Some(b) = c.blocks[y][x] {
                assert!(b.block_type == BlockType::Trunk || b.block_type == BlockType::Leaves);
            }
        }
    }
}

#[test]
fn deep_chunk_grows_trees_in_caves() {
    let boundary = vec![0usize; CHUNK_WIDTH];
    let veins = cells(|_, _| false);
    let caves = cells(|y, _| y < 30);
    let c = Chunk::new(2, &boundary, &veins, &caves);
    let trunks = c
        .blocks
        .iter()
        .flatten()
        .filter(|b| matches!(b, Some(b) if b.block_type == BlockType::Trunk))
        .count();
    assert!(trunks > 0);
    assert!(c.blocks[29].iter().all(|b| b.is_none() || b.unwrap().block_type == BlockType::Trunk));
}

#[test]
fn surface_chunk_layers() {
    let hills = vec![10usize; CHUNK_WIDTH];
    let sand = vec![20usize; CHUNK_WIDTH];
    let veins = cells(|y, x| y == 40 && x == 3);
    let mut terrain = Terrain::empty();
    create_surface_chunk(&mut terrain, &hills, &sand, &veins);
    let c = &terrain.chunks[0];
    assert_eq!(c.chunk_number, 0);
    assert_eq!(c.blocks[10][0].unwrap().block_type, BlockType::Sand);
    assert_eq!(c.blocks[20][0].unwrap().block_type, BlockType::Sand);
    assert_eq!(c.blocks[21][0].unwrap().block_type, BlockType::Limestone);
    assert_eq!(c.blocks[40][3].unwrap().block_type, BlockType::Coal);
    let palms = generate_random_values(BASE_SEED, CHUNK_WIDTH, 0, CHUNK_WIDTH / 8);
    for x in 0..CHUNK_WIDTH {
        let top = c.blocks[9][x];
        if palms[x] == 1 {
            assert_eq!(top.unwrap().block_type, BlockType::PalmTreeBlock);
        } else {
            assert!(top.is_none());
        }
        for y in 0..9 {
            assert!(c.blocks[y][x].is_none());
        }
    }
    assert!(c.blocks.iter().flatten().flatten().all(|b| b.block_type != BlockType::CaveVoid));
}
