use raytrace::render::{palette, Material};
use raytrace::util::coord_to_index_3d;
use raytrace::world::generate::{material_for_roll, material};
use raytrace::world::storage::{
    child_chunk_coords, chunk_file_name, decode_packed_chunk, decode_unpacked_chunk,
    encode_packed_chunk, encode_unpacked_chunk,
};
use raytrace::world::{
    generate_chunk, generate_heightmap, make_world, Heightmap, PackedChunk, PackedChunkData,
    UnpackedChunkData, CHUNK_SIZE, CHUNK_VOLUME, MAX_LOD,
};

fn test_height(x: isize, y: isize) -> isize {
    // A gentle slope, so that the chunk at height zero holds both ground and air.
    20 + (x + 2 * y) / 8
}

#[test]
fn save_load() {
    let mut heightmap = Heightmap::new();
    generate_heightmap(&mut heightmap, &(0, 0), test_height);
    let mut chunk = UnpackedChunkData::new(0);
    generate_chunk(&mut chunk, &(0, 0, 0), &heightmap).unwrap();
    let mut packed = PackedChunkData::new();
    chunk.pack_into(&mut packed);

    let packed_bytes = encode_packed_chunk(&packed);
    let unpacked_bytes = encode_unpacked_chunk(&chunk);

    let mut retrieved_packed_data = PackedChunkData::new();
    decode_packed_chunk(&packed_bytes, &mut retrieved_packed_data);
    let mut retrieved_unpacked_data = UnpackedChunkData::new(0);
    decode_unpacked_chunk(&unpacked_bytes, &mut retrieved_unpacked_data);

    assert!(retrieved_packed_data == packed);
    assert!(retrieved_unpacked_data == chunk);
}

#[test]
fn heightmap_holds_the_heights_of_its_columns() {
    let mut heightmap = Heightmap::new();
    assert_eq!(heightmap.get(&(5, 7)), 0);
    generate_heightmap(&mut heightmap, &(1, -1), |x, y| x * 1000 + y);
    assert_eq!(heightmap.get(&(0, 0)), 128 * 1000 - 128);
    assert_eq!(heightmap.get(&(3, 2)), 131 * 1000 - 126);
    assert_eq!(heightmap.get(&(127, 127)), 255 * 1000 - 1);
}

#[test]
fn generated_chunk_is_air_above_the_terrain() {
    let mut heightmap = Heightmap::new();
    generate_heightmap(&mut heightmap, &(0, 0), |_, _| 30);
    let mut chunk = UnpackedChunkData::new(0);
    generate_chunk(&mut chunk, &(0, 0, 0), &heightmap).unwrap();
    for z in 0..CHUNK_SIZE {
        let m = chunk.materials[coord_to_index_3d(&(5, 9, z), CHUNK_SIZE)];
        if z >= 30 {
            assert_eq!(m, Material::air());
        } else if z < 20 {
            assert_eq!(m, palette(2));
        } else {
            assert!(m == palette(2) || m == palette(5));
        }
    }
}

#[test]
fn deep_chunk_is_filled_with_grass() {
    let heightmap = Heightmap::new();
    let mut chunk = UnpackedChunkData::new(0);
    assert_eq!(generate_chunk(&mut chunk, &(0, 0, -1), &heightmap), Ok(()));
    assert!(chunk.materials.iter().all(|m| *m == palette(2)));
}

#[test]
fn material_choice_follows_height() {
    assert_eq!(material_for_roll(5, 12345), 2);
    assert_eq!(material_for_roll(50, 0), 5);
    assert_eq!(material_for_roll(50, 59), 2);
    assert_eq!(material_for_roll(100, 19), 6);
    assert_eq!(material_for_roll(100, 20), 5);
    assert_eq!(material_for_roll(500, 7), 6);
    let mut rng = <rand::rngs::StdRng as rand::SeedableRng>::seed_from_u64(7);
    for h in [0isize, 30, 90, 170] {
        let m = material(&mut rng, h);
        assert!(m == 2 || m == 5 || m == 6);
    }
}

#[test]
fn pack_empty_chunk() {
    let chunk = UnpackedChunkData::new(3);
    let mut packed = PackedChunkData::new();
    chunk.pack_into(&mut packed);
    assert!(packed.materials.iter().all(|m| *m == 0));
    assert!(packed.minefield.iter().all(|m| *m == 3 + MAX_LOD as u8));
}

#[test]
fn pack_single_solid_voxel() {
    let mut chunk = UnpackedChunkData::new(1);
    chunk.set_block(&(0, 0, 0), palette(4));
    let mut packed = PackedChunkData::new();
    chunk.pack_into(&mut packed);
    let at = |c: (usize, usize, usize)| coord_to_index_3d(&c, CHUNK_SIZE);
    // The solid voxel itself gets the chunk's scale.
    assert_eq!(packed.minefield[at((0, 0, 0))], 1);
    assert_eq!(packed.materials[at((0, 0, 0))], palette(4).pack());
    // Its neighbour in the same 2-cell gets scale + 1 + level 0.
    assert_eq!(packed.minefield[at((1, 1, 1))], 2);
    // A voxel in the next 4-cell but not the same 2-cell gets level 1.
    assert_eq!(packed.minefield[at((2, 0, 0))], 3);
    assert_eq!(packed.minefield[at((7, 7, 7))], 4);
    // Far away only the whole-chunk level holds something.
    assert_eq!(packed.minefield[at((127, 127, 127))], 1 + 1 + 6);
    assert_eq!(packed.minefield[at((64, 0, 0))], 1 + 1 + 6);
    assert_eq!(packed.minefield[at((63, 0, 0))], 1 + 1 + 5);
    assert_eq!(packed.materials[at((1, 0, 0))], Material::air().pack());
}

#[test]
fn fill_and_set_block() {
    let mut chunk = UnpackedChunkData::new(0);
    chunk.fill(&palette(6));
    assert!(chunk.materials.iter().all(|m| *m == palette(6)));
    chunk.set_block(&(1, 2, 3), Material::black());
    assert_eq!(chunk.materials[(3 * 128 + 2) * 128 + 1], Material::black());
}

#[test]
fn packed_chunk_copies_into_a_larger_grid() {
    let mut data = PackedChunkData::new();
    for i in 0..CHUNK_VOLUME {
        data.materials[i] = i as u32;
        data.minefield[i] = (i % 251) as u8;
    }
    let stride = 130;
    let mut materials = vec![u32::MAX; stride * stride * stride];
    let mut minefield = vec![255u8; stride * stride * stride];
    let chunk = PackedChunk::NonEmpty(data);
    chunk.copy_materials(&mut materials, stride, &(1, 2, 0));
    chunk.copy_minefield(&mut minefield, stride, &(1, 2, 0));
    let source = coord_to_index_3d(&(5, 6, 7), CHUNK_SIZE);
    let target = coord_to_index_3d(&(6, 8, 7), stride);
    assert_eq!(materials[target], source as u32);
    assert_eq!(minefield[target], (source % 251) as u8);
    assert_eq!(materials[coord_to_index_3d(&(0, 0, 0), stride)], u32::MAX);
    assert_eq!(minefield[coord_to_index_3d(&(129, 129, 129), stride)], 255);
}

#[test]
fn empty_chunk_copies_black_and_full_lod() {
    let stride = 128;
    let mut materials = vec![5u32; stride * stride * stride];
    let mut minefield = vec![0u8; stride * stride * stride];
    let chunk = PackedChunk::Empty { scale: 2 };
    chunk.copy_materials(&mut materials, stride, &(0, 0, 0));
    chunk.copy_minefield(&mut minefield, stride, &(0, 0, 0));
    assert!(materials.iter().all(|m| *m == 0));
    assert!(minefield.iter().all(|m| *m == MAX_LOD as u8 + 2));
}

#[test]
fn chunk_file_names() {
    let name = chunk_file_name(&(0, 1, 255, 10));
    assert_eq!(String::from_utf8(name).unwrap(), "0000000000000001000000FF0A");
    let name = chunk_file_name(&(-1, 0x1234_5678, 0, 0));
    assert_eq!(
        String::from_utf8(name).unwrap(),
        format!("{:08X}{:08X}{:08X}{:02X}", -1isize, 0x1234_5678isize, 0isize, 0u8)
    );
}

#[test]
fn child_chunks_of_a_coarser_chunk() {
    let children = child_chunk_coords(&(1, -2, 3, 2));
    assert_eq!(
        children,
        vec![
            (2, -4, 6, 1),
            (3, -4, 6, 1),
            (2, -3, 6, 1),
            (3, -3, 6, 1),
            (2, -4, 7, 1),
            (3, -4, 7, 1),
            (2, -3, 7, 1),
            (3, -3, 7, 1),
        ]
    );
}

#[test]
fn new_world_is_empty() {
    let _world = make_world();
}
