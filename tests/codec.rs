use mining_world::{
    Block, BlockDelete, BlockType, Chunk, DecodeError, Terrain, WorldDelta, CHUNK_BYTES,
    CHUNK_HEIGHT, CHUNK_WIDTH,
};

fn boundary_rows() -> Vec<usize> {
    vec![5; CHUNK_WIDTH]
}

fn no_cells() -> Vec<Vec<bool>> {
    vec![vec![false; CHUNK_WIDTH]; CHUNK_HEIGHT]
}

fn build(depth: u64) -> Chunk {
    Chunk::new(depth, &boundary_rows(), &no_cells(), &no_cells())
}

#[test]
fn encode_decode_block() {
    let before = Block::new(BlockType::Limestone);
    let encoded = before.encode();
    let decoded = Block::decode(&encoded).unwrap();
    assert_eq!(before, decoded);
}

#[test]
fn encode_decode_chunk() {
    let before = {
        let mut chunk = build(0);
        chunk.blocks[1][1] = Some(Block::new(BlockType::Limestone));
        chunk
    };
    let encoded = before.encode();
    let decoded = Chunk::decode(&encoded).unwrap();
    assert_eq!(before.chunk_number, decoded.chunk_number);
    assert_eq!(before.blocks, decoded.blocks);
}

#[test]
fn encode_decode_terrain() {
    let before = {
        let mut terrain = Terrain::new(2, build);
        terrain.chunks[1].blocks[1][1] = Some(Block::new(BlockType::Limestone));
        terrain
    };
    let encoded = before.encode();
    let decoded = Terrain::decode(&encoded).unwrap();
    assert_eq!(before.chunks.len(), decoded.chunks.len());
    for (a, b) in before.chunks.iter().zip(decoded.chunks.iter()) {
        assert_eq!(a.chunk_number, b.chunk_number);
        assert_eq!(a.blocks, b.blocks);
    }
}

#[test]
fn size_sanity_check() {
    let block_size = Block::new(BlockType::Limestone).encode().len();
    let chunk_size = build(0).encode().len();
    let terrain_size = Terrain::new(1, build).encode().len();
    assert!(terrain_size > chunk_size);
    assert!(terrain_size > block_size);
    assert!(chunk_size > block_size);
}

#[test]
fn encoded_sizes_are_exact() {
    assert_eq!(Block::new(BlockType::Sand).encode().len(), 1);
    assert_eq!(Chunk::empty(3).encode().len(), CHUNK_BYTES);
    assert_eq!(CHUNK_BYTES, 64 * 128 + 8);
    assert_eq!(Terrain::new(2, Chunk::empty).encode().len(), 8 + 2 * CHUNK_BYTES);
}

#[test]
fn block_encodes_as_its_tag() {
    assert_eq!(Block::new(BlockType::Sand).encode(), vec![0u8]);
    assert_eq!(Block::new(BlockType::Limestone).encode(), vec![1u8]);
    assert_eq!(Block::new(BlockType::Trunk).encode(), vec![15u8]);
}

#[test]
fn decoded_block_has_no_handle() {
    let mut b = Block::new(BlockType::Coal);
    b.entity = Some(42);
    let decoded = Block::decode(&b.encode()).unwrap();
    assert_eq!(decoded.block_type, BlockType::Coal);
    assert_eq!(decoded.entity, None);
    assert_eq!(decoded, b);
}

#[test]
fn chunk_encoding_layout() {
    let mut c = Chunk::empty(258);
    c.blocks[0][1] = Some(Block::new(BlockType::Iron));
    let bytes = c.encode();
    assert_eq!(bytes[0], 0);
    assert_eq!(bytes[1], 9);
    let tail = &bytes[CHUNK_HEIGHT * CHUNK_WIDTH..];
    assert_eq!(tail, &[2u8, 1, 0, 0, 0, 0, 0, 0][..]);
}

#[test]
fn block_decode_errors() {
    assert_eq!(Block::decode(&[]).unwrap_err(), DecodeError::WrongLength);
    assert_eq!(Block::decode(&[1, 2]).unwrap_err(), DecodeError::WrongLength);
    assert_eq!(Block::decode(&[16]).unwrap_err(), DecodeError::InvalidTag);
}

#[test]
fn chunk_decode_errors() {
    let mut bytes = Chunk::empty(0).encode();
    assert_eq!(Chunk::decode(&bytes[1..]).unwrap_err(), DecodeError::WrongLength);
    bytes[10] = 17;
    assert_eq!(Chunk::decode(&bytes).unwrap_err(), DecodeError::InvalidTag);
    bytes[10] = 16;
    let c = Chunk::decode(&bytes).unwrap();
    assert_eq!(c.blocks[0][10].unwrap().block_type, BlockType::Trunk);
}

#[test]
fn terrain_decode_errors() {
    assert_eq!(Terrain::decode(&[0, 0, 0]).unwrap_err(), DecodeError::WrongLength);
    let mut bytes = Terrain::new(1, Chunk::empty).encode();
    bytes[0] = 2;
    assert_eq!(Terrain::decode(&bytes).unwrap_err(), DecodeError::WrongLength);
    bytes[0] = 1;
    bytes[8] = 200;
    assert_eq!(Terrain::decode(&bytes).unwrap_err(), DecodeError::InvalidTag);
    let empty = Terrain::empty().encode();
    assert_eq!(empty, vec![0u8; 8]);
    assert_eq!(Terrain::decode(&empty).unwrap().chunks.len(), 0);
}

#[test]
fn delta_round_trip() {
    let delete = WorldDelta::BlockDelete(BlockDelete { chunk_number: 7, x: 3, y: 60 });
    let bytes = delete.encode();
    assert_eq!(bytes.len(), 25);
    assert_eq!(bytes[0], 1);
    match WorldDelta::decode(&bytes).unwrap() {
        WorldDelta::BlockDelete(d) => assert_eq!(d, BlockDelete { chunk_number: 7, x: 3, y: 60 }),
        WorldDelta::NewChunks(_) => panic!("wrong variant"),
    }

    let mut terrain = Terrain::new(1, Chunk::empty);
    terrain.chunks[0].blocks[2][3] = Some(Block::new(BlockType::Quartz));
    let bytes = WorldDelta::NewChunks(terrain.clone()).encode();
    assert_eq!(bytes[0], 0);
    match WorldDelta::decode(&bytes).unwrap() {
        WorldDelta::NewChunks(t) => {
            assert_eq!(t.chunks.len(), 1);
            assert_eq!(t.chunks[0].blocks, terrain.chunks[0].blocks);
        }
        WorldDelta::BlockDelete(_) => panic!("wrong variant"),
    }
}

#[test]
fn delta_decode_errors() {
    assert_eq!(WorldDelta::decode(&[]).unwrap_err(), DecodeError::WrongLength);
    assert_eq!(WorldDelta::decode(&[2]).unwrap_err(), DecodeError::InvalidVariant);
    assert_eq!(WorldDelta::decode(&[1, 0, 0]).unwrap_err(), DecodeError::WrongLength);
    assert_eq!(WorldDelta::decode(&[0, 1]).unwrap_err(), DecodeError::WrongLength);
}
